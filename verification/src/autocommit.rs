use vstd::prelude::*;
use crate::errors::{AgtError, ErrorKind};
use crate::gitstore::{
    blob_data_of, commit_author_email_of, commit_author_name_of, commit_message_of,
    commit_parents_of, commit_tree_of, editor_entries, editor_remove, editor_upsert, editor_write,
    resolve_ref_commit, spec_tree_covers, tree_editor, tree_entries_of, walk_dir_entries,
    write_blob, write_commit, CommitInfo, StoredEntry,
};
use crate::scan::{
    compute_snapshot_delta, spec_is_changed, spec_is_current, spec_path_views, spec_unique,
    SnapshotDelta, WalkEntry,
};
use crate::session::HeadState;
use crate::strutil::{chars_of, spec_u64_string, str_concat, string_from_chars};
use crate::treemodel::{classify_entry_kind, spec_classify, TreeEntryKind};

verus! {

// ---------------------------------------------------------------------------
// The autocommit driver's verified steps: scan the session folder against
// the shadow head's tree, build the new tree from the delta, and write the
// two-parent shadow commit. The caller sequences these around its file
// reads; every decision lives here.
// ---------------------------------------------------------------------------

/// One changed file as read from disk: its tree path, what the symlink
/// metadata said about it, and its content — file bytes, or the link
/// target's text as bytes for a symlink.
pub struct ChangedFile {
    pub path: String,
    pub is_symlink: bool,
    pub executable: bool,
    pub data: Vec<u8>,
}

/// What one scan found: the shadow head (first parent of the commit to
/// come), the blob paths of its tree, the walk that was taken, and the
/// delta of the walk against those paths.
pub struct AutocommitScan {
    pub parent1: CommitInfo,
    pub base_paths: Vec<String>,
    pub entries: Vec<WalkEntry>,
    pub delta: SnapshotDelta,
}

/// Resolve the shadow head, walk the session folder, and compute the
/// delta against the shadow tree at the given watermark. The returned
/// delta is exactly the scan's verdict on the returned walk and base
/// paths: a path is changed iff some file or symlink outside `.git` bears
/// it with an mtime at or past the threshold, and deleted iff the base
/// tree holds it and the walk saw no such file.
pub fn autocommit_scan(
    repo: &gix::Repository,
    shadow_ref: &str,
    session_folder: &str,
    threshold: u64,
) -> (r: Result<AutocommitScan, AgtError>)
    ensures
        r matches Ok(s) ==> {
            &&& spec_unique(spec_path_views(s.delta.changed@))
            &&& spec_unique(spec_path_views(s.delta.deleted@))
            &&& forall|p: Seq<char>|
                #[trigger] spec_path_views(s.delta.changed@).contains(p) <==> spec_is_changed(
                    s.entries@,
                    threshold,
                    p,
                )
            &&& forall|p: Seq<char>|
                #[trigger] spec_path_views(s.delta.deleted@).contains(p) <==> (spec_path_views(
                    s.base_paths@,
                ).contains(p) && !spec_is_current(s.entries@, p))
        },
{
    let parent1 = resolve_ref_commit(repo, shadow_ref)?;
    let base_paths = crate::treewalk::collect_tree_paths(repo, &parent1.tree)?;
    let entries = walk_dir_entries(session_folder)?;
    let delta = compute_snapshot_delta(&entries, &base_paths, threshold);
    Ok(AutocommitScan { parent1, base_paths, entries, delta })
}

/// The parents of a shadow commit, in their fixed order: the previous
/// shadow head first, the user branch head second.
pub fn shadow_parents(parent1: &gix::ObjectId, parent2: &gix::ObjectId) -> (r: Vec<gix::ObjectId>)
    ensures
        r@ == seq![*parent1, *parent2],
{
    let mut r: Vec<gix::ObjectId> = Vec::new();
    r.push(*parent1);
    r.push(*parent2);
    proof {
        assert(r@ =~= seq![*parent1, *parent2]);
    }
    r
}

/// Refuse to commit from a sandbox whose HEAD is detached or unborn.
pub fn validate_head_attached(head: &HeadState) -> (r: Result<(), AgtError>)
    ensures
        match head {
            HeadState::Branch(_) => r is Ok,
            HeadState::Detached => r matches Err(e) && e.kind == ErrorKind::Precondition
                && e.message@ == "Detached HEAD in agent worktree is not supported"@,
            HeadState::Unborn => r matches Err(e) && e.kind == ErrorKind::Precondition
                && e.message@ == "Unborn HEAD in agent worktree is not supported"@,
        },
{
    match head {
        HeadState::Branch(_) => Ok(()),
        HeadState::Detached => Err(
            AgtError::precondition(
                string_from_chars(&chars_of("Detached HEAD in agent worktree is not supported")),
            ),
        ),
        HeadState::Unborn => Err(
            AgtError::precondition(
                string_from_chars(&chars_of("Unborn HEAD in agent worktree is not supported")),
            ),
        ),
    }
}

/// The entries kept when the path `p` is removed from a tree: `p` itself
/// and everything below it go.
pub open spec fn spec_drop_covered(
    m: Map<Seq<char>, StoredEntry>,
    p: Seq<char>,
) -> Map<Seq<char>, StoredEntry> {
    m.remove_keys(Set::new(|k: Seq<char>| spec_tree_covers(p, k)))
}

/// The entries after one changed file is recorded at `p`: whatever stood
/// at or below `p` goes, so does a blob standing at an ancestor of `p`
/// (it becomes a directory), and `p` maps to the new entry.
pub open spec fn spec_put_entry(
    m: Map<Seq<char>, StoredEntry>,
    p: Seq<char>,
    entry: StoredEntry,
) -> Map<Seq<char>, StoredEntry> {
    m.remove_keys(
        Set::new(
            |k: Seq<char>| spec_tree_covers(p, k) || (k != p && spec_tree_covers(k, p)),
        ),
    ).insert(p, entry)
}

/// The tree entries after every deleted path is dropped, in order.
pub open spec fn spec_remove_fold(
    m: Map<Seq<char>, StoredEntry>,
    deleted: Seq<Seq<char>>,
) -> Map<Seq<char>, StoredEntry>
    decreases deleted.len(),
{
    if deleted.len() == 0 {
        m
    } else {
        spec_remove_fold(spec_drop_covered(m, deleted[0]), deleted.drop_first())
    }
}

/// The classified entry of one changed file: its kind from the symlink
/// and execute bits, its data as read from disk.
pub open spec fn spec_entry_of_file(f: ChangedFile) -> StoredEntry {
    StoredEntry { kind: spec_classify(f.is_symlink, f.executable), data: f.data@ }
}

/// The tree entries after every changed file is upserted, in order.
pub open spec fn spec_upsert_fold(
    m: Map<Seq<char>, StoredEntry>,
    changed: Seq<ChangedFile>,
) -> Map<Seq<char>, StoredEntry>
    decreases changed.len(),
{
    if changed.len() == 0 {
        m
    } else {
        spec_upsert_fold(
            spec_put_entry(m, changed[0].path@, spec_entry_of_file(changed[0])),
            changed.drop_first(),
        )
    }
}

/// What the tree builder makes of a base tree and a delta, entry map for
/// entry map: drop every deleted path, then record every changed file. A
/// pure function of the base tree's entries, the delta, and the changed
/// files' contents.
pub open spec fn spec_build_tree(
    base: Map<Seq<char>, StoredEntry>,
    deleted: Seq<Seq<char>>,
    changed: Seq<ChangedFile>,
) -> Map<Seq<char>, StoredEntry> {
    spec_upsert_fold(spec_remove_fold(base, deleted), changed)
}

/// Build the new shadow tree from the delta: open an editor on the base
/// tree, drop every deleted path, and upsert each changed file as a blob
/// of its bytes — `Link` for symlinks, `BlobExecutable` when an execute
/// bit was set, plain `Blob` otherwise. The returned id names a tree
/// holding exactly `spec_build_tree` of the base tree's entries and the
/// delta: the output is a pure function of its inputs.
pub fn build_tree_from_delta(
    repo: &gix::Repository,
    base_tree: &gix::ObjectId,
    deleted: &Vec<String>,
    changed: &Vec<ChangedFile>,
) -> (r: Result<gix::ObjectId, AgtError>)
    ensures
        r matches Ok(t) ==> tree_entries_of(t) == spec_build_tree(
            tree_entries_of(*base_tree),
            spec_path_views(deleted@),
            changed@,
        ),
{
    let ghost base_entries = tree_entries_of(*base_tree);
    let ghost dviews = spec_path_views(deleted@);
    let ghost target = spec_build_tree(base_entries, dviews, changed@);
    let mut editor = tree_editor(repo, base_tree)?;
    let mut i: usize = 0;
    proof {
        assert(dviews.subrange(0, dviews.len() as int) =~= dviews);
    }
    while i < deleted.len()
        invariant
            dviews == spec_path_views(deleted@),
            target == spec_build_tree(base_entries, dviews, changed@),
            i <= deleted@.len(),
            spec_upsert_fold(
                spec_remove_fold(
                    editor_entries(editor),
                    dviews.subrange(i as int, dviews.len() as int),
                ),
                changed@,
            ) == target,
        decreases deleted@.len() - i,
    {
        let ghost remaining = dviews.subrange(i as int, dviews.len() as int);
        let ghost before = editor_entries(editor);
        proof {
            assert(remaining[0] == dviews[i as int]);
            assert(dviews[i as int] == deleted@[i as int]@);
            assert(remaining.drop_first() =~= dviews.subrange(i as int + 1, dviews.len() as int));
        }
        editor_remove(&mut editor, deleted[i].as_str())?;
        proof {
            assert(editor_entries(editor) == spec_drop_covered(before, remaining[0]));
            assert(spec_remove_fold(before, remaining) == spec_remove_fold(
                editor_entries(editor),
                remaining.drop_first(),
            ));
        }
        i = i + 1;
    }
    let mut k: usize = 0;
    proof {
        assert(dviews.subrange(dviews.len() as int, dviews.len() as int)
            =~= Seq::<Seq<char>>::empty());
        assert(changed@.subrange(0, changed@.len() as int) =~= changed@);
    }
    while k < changed.len()
        invariant
            target == spec_build_tree(base_entries, dviews, changed@),
            k <= changed@.len(),
            spec_upsert_fold(
                editor_entries(editor),
                changed@.subrange(k as int, changed@.len() as int),
            ) == target,
        decreases changed@.len() - k,
    {
        let ghost remaining = changed@.subrange(k as int, changed@.len() as int);
        proof {
            assert(remaining[0] == changed@[k as int]);
            assert(remaining.drop_first() =~= changed@.subrange(
                k as int + 1,
                changed@.len() as int,
            ));
        }
        let f = &changed[k];
        let kind = classify_entry_kind(f.is_symlink, f.executable);
        proof {
            assert(kind == spec_classify(f.is_symlink, f.executable));
            assert(kind != TreeEntryKind::Tree);
            assert(kind != TreeEntryKind::Commit);
        }
        let ghost before = editor_entries(editor);
        let blob = write_blob(repo, &f.data)?;
        editor_upsert(&mut editor, f.path.as_str(), kind, &blob)?;
        proof {
            assert(StoredEntry { kind, data: blob_data_of(blob) } == spec_entry_of_file(
                remaining[0],
            ));
            assert(editor_entries(editor) == spec_put_entry(
                before,
                remaining[0].path@,
                spec_entry_of_file(remaining[0]),
            ));
            assert(spec_upsert_fold(before, remaining) == spec_upsert_fold(
                editor_entries(editor),
                remaining.drop_first(),
            ));
        }
        k = k + 1;
    }
    proof {
        assert(changed@.subrange(changed@.len() as int, changed@.len() as int)
            =~= Seq::<ChangedFile>::empty());
    }
    editor_write(&mut editor)
}

/// Write the shadow commit: the commit the returned id names carries the
/// given tree, exactly two parents — the previous shadow head first, the
/// user branch head second — the fixed message `agt autocommit`, and the
/// agent identity `agt <agent email>` as author and committer.
pub fn commit_snapshot(
    repo: &gix::Repository,
    shadow_ref: &str,
    parent1: &CommitInfo,
    parent2: &gix::ObjectId,
    tree: &gix::ObjectId,
    agent_email: &str,
    now_secs: u64,
) -> (r: Result<gix::ObjectId, AgtError>)
    ensures
        r matches Ok(id) ==> {
            &&& commit_tree_of(id) == *tree
            &&& commit_parents_of(id) == seq![parent1.id, *parent2]
            &&& commit_message_of(id) == "agt autocommit"@
            &&& commit_author_name_of(id) == "agt"@
            &&& commit_author_email_of(id) == agent_email@
        },
{
    let parents = shadow_parents(&parent1.id, parent2);
    proof {
        assert(parents@ == seq![parent1.id, *parent2]);
    }
    write_commit(repo, shadow_ref, "agt autocommit", tree, &parents, "agt", agent_email, now_secs)
}

// ---------------------------------------------------------------------------
// Dry-run report.
// ---------------------------------------------------------------------------

/// The lines a dry run prints: a count header, then each changed path
/// (prefixed `  M `) and each deleted path (prefixed `  D `), both groups
/// sorted. The ensures pin every line: the header's exact text, one `M`
/// line per changed path, one `D` line per deleted path, each group in
/// strictly ascending path order.
/// One output line per path, in the given order, each the prefix
/// followed by the path.
fn prefixed_lines(prefix: &str, paths: &Vec<String>) -> (r: Vec<String>)
    ensures
        r@.len() == paths@.len(),
        forall|i: int|
            0 <= i < r@.len() ==> #[trigger] r@[i]@ == prefix@ + spec_path_views(paths@)[i],
{
    let mut r: Vec<String> = Vec::new();
    let mut i: usize = 0;
    while i < paths.len()
        invariant
            i <= paths@.len(),
            r@.len() == i,
            forall|j: int|
                0 <= j < i ==> #[trigger] r@[j]@ == prefix@ + spec_path_views(paths@)[j],
        decreases paths@.len() - i,
    {
        let line = str_concat(prefix, paths[i].as_str());
        proof {
            assert(spec_path_views(paths@)[i as int] == paths@[i as int]@);
        }
        r.push(line);
        i = i + 1;
    }
    r
}

/// The lines a dry run prints: a count header, then each changed path
/// (prefixed `  M `) and each deleted path (prefixed `  D `), both groups
/// sorted. The ensures pin every line: the header's exact text, one `M`
/// line per changed path, one `D` line per deleted path, each group in
/// strictly ascending path order.
#[verifier::rlimit(100)]
pub fn dry_run_report(delta: &SnapshotDelta) -> (r: Vec<String>)
    requires
        spec_unique(spec_path_views(delta.changed@)),
        spec_unique(spec_path_views(delta.deleted@)),
    ensures
        r@.len() == 1 + delta.changed@.len() + delta.deleted@.len(),
        r@[0]@ == "Would commit "@ + spec_u64_string(delta.changed@.len() as int)
            + " files, delete "@ + spec_u64_string(delta.deleted@.len() as int) + " files:"@,
        forall|i: int|
            1 <= i < 1 + delta.changed@.len() ==> spec_path_views(delta.changed@).contains(
                #[trigger] r@[i]@.subrange(4, r@[i]@.len() as int),
            ),
        forall|p: Seq<char>|
            #[trigger] spec_path_views(delta.changed@).contains(p) ==> (exists|i: int|
                1 <= i < 1 + delta.changed@.len() && r@[i]@ == "  M "@ + p),
        forall|i: int|
            1 + delta.changed@.len() <= i < r@.len() ==> spec_path_views(delta.deleted@).contains(
                #[trigger] r@[i]@.subrange(4, r@[i]@.len() as int),
            ),
        forall|p: Seq<char>|
            #[trigger] spec_path_views(delta.deleted@).contains(p) ==> (exists|i: int|
                1 + delta.changed@.len() <= i < r@.len() && r@[i]@ == "  D "@ + p),
        forall|i: int|
            1 <= i < delta.changed@.len() ==> crate::order::spec_lex_lt(
                #[trigger] r@[i]@.subrange(4, r@[i]@.len() as int),
                r@[i + 1]@.subrange(4, r@[i + 1]@.len() as int),
            ),
        forall|i: int|
            1 + delta.changed@.len() <= i < r@.len() - 1 ==> crate::order::spec_lex_lt(
                #[trigger] r@[i]@.subrange(4, r@[i]@.len() as int),
                r@[i + 1]@.subrange(4, r@[i + 1]@.len() as int),
            ),
{
    let changed_sorted = crate::order::sort_path_strings(&delta.changed);
    let deleted_sorted = crate::order::sort_path_strings(&delta.deleted);
    let ghost cs = spec_path_views(changed_sorted@);
    let ghost ds = spec_path_views(deleted_sorted@);
    proof {
        assert(cs.len() == changed_sorted@.len());
        assert(ds.len() == deleted_sorted@.len());
    }
    let header_a = str_concat(
        "Would commit ",
        crate::session::format_watermark(changed_sorted.len() as u64).as_str(),
    );
    let header_b = str_concat(header_a.as_str(), " files, delete ");
    let header_c = str_concat(
        header_b.as_str(),
        crate::session::format_watermark(deleted_sorted.len() as u64).as_str(),
    );
    let header = str_concat(header_c.as_str(), " files:");
    proof {
        assert(header@ =~= "Would commit "@ + spec_u64_string(delta.changed@.len() as int)
            + " files, delete "@ + spec_u64_string(delta.deleted@.len() as int) + " files:"@);
    }
    let m_lines = prefixed_lines("  M ", &changed_sorted);
    let d_lines = prefixed_lines("  D ", &deleted_sorted);
    let mut r: Vec<String> = Vec::new();
    r.push(header);
    let ghost header_view = header@;
    let mut i: usize = 0;
    while i < m_lines.len()
        invariant
            m_lines@.len() == cs.len(),
            forall|j: int|
                0 <= j < m_lines@.len() ==> #[trigger] m_lines@[j]@ == "  M "@ + cs[j],
            i <= m_lines@.len(),
            r@.len() == 1 + i,
            r@[0]@ == header_view,
            forall|j: int| 1 <= j < 1 + i ==> #[trigger] r@[j]@ == "  M "@ + cs[j - 1],
        decreases m_lines@.len() - i,
    {
        r.push(m_lines[i].clone());
        i = i + 1;
    }
    let ghost m_count = cs.len() as int;
    let mut k: usize = 0;
    while k < d_lines.len()
        invariant
            m_count == cs.len(),
            d_lines@.len() == ds.len(),
            forall|j: int|
                0 <= j < d_lines@.len() ==> #[trigger] d_lines@[j]@ == "  D "@ + ds[j],
            k <= d_lines@.len(),
            r@.len() == 1 + m_count + k,
            r@[0]@ == header_view,
            forall|j: int| 1 <= j < 1 + m_count ==> #[trigger] r@[j]@ == "  M "@ + cs[j - 1],
            forall|j: int|
                1 + m_count <= j < r@.len() ==> #[trigger] r@[j]@ == "  D "@ + ds[j - 1 - m_count],
        decreases d_lines@.len() - k,
    {
        r.push(d_lines[k].clone());
        k = k + 1;
    }
    proof {
        reveal_strlit("  M ");
        reveal_strlit("  D ");
        assert(cs.len() == delta.changed@.len());
        assert(ds.len() == delta.deleted@.len());
        lemma_report_membership(r@, 1, "  M "@, cs, spec_path_views(delta.changed@));
        lemma_report_membership(
            r@,
            1 + cs.len() as int,
            "  D "@,
            ds,
            spec_path_views(delta.deleted@),
        );
        lemma_report_order(r@, 1, "  M "@, cs);
        lemma_report_order(r@, 1 + cs.len() as int, "  D "@, ds);
    }
    r
}

/// Lines carrying each sorted path also carry each of the given paths.
proof fn lemma_report_membership(
    lines: Seq<String>,
    offset: int,
    prefix: Seq<char>,
    sorted_paths: Seq<Seq<char>>,
    orig: Seq<Seq<char>>,
)
    requires
        0 <= offset,
        offset + sorted_paths.len() <= lines.len(),
        forall|j: int|
            offset <= j < offset + sorted_paths.len() ==> #[trigger] lines[j]@ == prefix
                + sorted_paths[j - offset],
        forall|p: Seq<char>| #[trigger] sorted_paths.contains(p) <==> orig.contains(p),
    ensures
        forall|i: int|
            offset <= i < offset + sorted_paths.len() ==> orig.contains(
                #[trigger] lines[i]@.subrange(prefix.len() as int, lines[i]@.len() as int),
            ),
        forall|p: Seq<char>|
            #[trigger] orig.contains(p) ==> (exists|i: int|
                offset <= i < offset + sorted_paths.len() && lines[i]@ == prefix + p),
{
    assert forall|i: int| offset <= i < offset + sorted_paths.len() implies orig.contains(
        #[trigger] lines[i]@.subrange(prefix.len() as int, lines[i]@.len() as int),
    ) by {
        assert(lines[i]@ == prefix + sorted_paths[i - offset]);
        assert(lines[i]@.subrange(prefix.len() as int, lines[i]@.len() as int) =~= sorted_paths[i
            - offset]);
        assert(sorted_paths.contains(sorted_paths[i - offset]));
        assert(orig.contains(sorted_paths[i - offset]));
    }
    assert forall|p: Seq<char>| #[trigger] orig.contains(p) implies (exists|i: int|
        offset <= i < offset + sorted_paths.len() && lines[i]@ == prefix + p) by {
        assert(sorted_paths.contains(p));
        let w = choose|w: int| 0 <= w < sorted_paths.len() && sorted_paths[w] == p;
        assert(lines[w + offset]@ == prefix + p);
    }
}

/// Lines carrying sorted paths after a four-character prefix keep the
/// paths' strict order when the prefix is cut off.
proof fn lemma_report_order(
    lines: Seq<String>,
    offset: int,
    prefix: Seq<char>,
    sorted_paths: Seq<Seq<char>>,
)
    requires
        0 <= offset,
        offset + sorted_paths.len() <= lines.len(),
        prefix.len() == 4,
        forall|j: int|
            offset <= j < offset + sorted_paths.len() ==> #[trigger] lines[j]@ == prefix
                + sorted_paths[j - offset],
        crate::order::spec_sorted(sorted_paths),
    ensures
        forall|i: int|
            offset <= i < offset + sorted_paths.len() - 1 ==> crate::order::spec_lex_lt(
                #[trigger] lines[i]@.subrange(4, lines[i]@.len() as int),
                lines[i + 1]@.subrange(4, lines[i + 1]@.len() as int),
            ),
{
    assert forall|i: int|
        offset <= i < offset + sorted_paths.len() - 1 implies crate::order::spec_lex_lt(
        #[trigger] lines[i]@.subrange(4, lines[i]@.len() as int),
        lines[i + 1]@.subrange(4, lines[i + 1]@.len() as int),
    ) by {
        assert(lines[i]@ == prefix + sorted_paths[i - offset]);
        assert(lines[i + 1]@ == prefix + sorted_paths[i + 1 - offset]);
        assert(lines[i]@.subrange(4, lines[i]@.len() as int) =~= sorted_paths[i - offset]);
        assert(lines[i + 1]@.subrange(4, lines[i + 1]@.len() as int) =~= sorted_paths[i + 1
            - offset]);
        assert(crate::order::spec_lex_lt(sorted_paths[i - offset], sorted_paths[i + 1 - offset]));
    }
}

// ---------------------------------------------------------------------------
// The round-trip law: building a tree from the scan's delta reproduces
// the disk snapshot.
// ---------------------------------------------------------------------------

/// A flat tree: no blob path lies at or under another. Every well-formed
/// git tree's blob enumeration has this shape, and so does any listing of
/// the files of one filesystem instant.
pub open spec fn spec_flat_keys(m: Map<Seq<char>, StoredEntry>) -> bool {
    forall|a: Seq<char>, b: Seq<char>|
        m.dom().contains(a) && m.dom().contains(b) && a != b ==> !(#[trigger] spec_tree_covers(
            a,
            b,
        ))
}

/// Dropping a path that is a key of a flat tree takes exactly that key:
/// nothing else lies under it.
proof fn lemma_drop_covered_single(m: Map<Seq<char>, StoredEntry>, p: Seq<char>)
    requires
        spec_flat_keys(m),
        m.dom().contains(p),
    ensures
        spec_drop_covered(m, p) == m.remove(p),
{
    let lhs = spec_drop_covered(m, p);
    let rhs = m.remove(p);
    assert forall|k: Seq<char>| #[trigger] lhs.dom().contains(k) implies rhs.dom().contains(k) by {
        assert(!spec_tree_covers(p, k));
        assert(k != p);
    }
    assert forall|k: Seq<char>| #[trigger] rhs.dom().contains(k) implies lhs.dom().contains(k) by {
        assert(m.dom().contains(k) && k != p);
        assert(!spec_tree_covers(p, k));
    }
    assert(lhs =~= rhs);
}

/// On a flat tree holding every deleted path, the removal fold takes
/// exactly the deleted paths.
proof fn lemma_remove_fold_plain(m: Map<Seq<char>, StoredEntry>, del: Seq<Seq<char>>)
    requires
        spec_flat_keys(m),
        spec_unique(del),
        forall|i: int| 0 <= i < del.len() ==> m.dom().contains(#[trigger] del[i]),
    ensures
        spec_remove_fold(m, del) == m.remove_keys(Set::new(|p: Seq<char>| del.contains(p))),
    decreases del.len(),
{
    if del.len() == 0 {
        assert(spec_remove_fold(m, del) =~= m.remove_keys(
            Set::new(|p: Seq<char>| del.contains(p)),
        ));
    } else {
        let d0 = del[0];
        lemma_drop_covered_single(m, d0);
        let m1 = m.remove(d0);
        let del1 = del.drop_first();
        assert(spec_flat_keys(m1)) by {
            assert forall|a: Seq<char>, b: Seq<char>|
                m1.dom().contains(a) && m1.dom().contains(b) && a != b implies !(
            #[trigger] spec_tree_covers(a, b)) by {
                assert(m.dom().contains(a) && m.dom().contains(b));
            }
        }
        assert forall|i: int| 0 <= i < del1.len() implies m1.dom().contains(#[trigger] del1[i]) by {
            assert(del1[i] == del[i + 1]);
            assert(del[i + 1] != del[0]);
        }
        assert(spec_unique(del1)) by {
            assert forall|i: int, j: int| 0 <= i < j < del1.len() implies del1[i] != del1[j] by {
                assert(del1[i] == del[i + 1]);
                assert(del1[j] == del[j + 1]);
            }
        }
        lemma_remove_fold_plain(m1, del1);
        let lhs = spec_remove_fold(m, del);
        let rhs = m.remove_keys(Set::new(|p: Seq<char>| del.contains(p)));
        assert(lhs == m1.remove_keys(Set::new(|p: Seq<char>| del1.contains(p))));
        assert forall|k: Seq<char>| #[trigger] lhs.dom().contains(k) implies rhs.dom().contains(k)
            by {
            assert(m.dom().contains(k) && k != d0 && !del1.contains(k));
            if del.contains(k) {
                let w = choose|w: int| 0 <= w < del.len() && del[w] == k;
                if w > 0 {
                    assert(del1[w - 1] == k);
                    assert(del1.contains(k));
                }
            }
        }
        assert forall|k: Seq<char>| #[trigger] rhs.dom().contains(k) implies lhs.dom().contains(k)
            by {
            assert(m.dom().contains(k) && !del.contains(k));
            assert(k != del[0]);
            if del1.contains(k) {
                let w = choose|w: int| 0 <= w < del1.len() && del1[w] == k;
                assert(del[w + 1] == k);
                assert(del.contains(k));
            }
        }
        assert(lhs =~= rhs);
    }
}

/// Recording a file at a path every key shares a flat snapshot with is a
/// plain insert: nothing lies under or over the path to clear.
proof fn lemma_put_entry_plain(
    m: Map<Seq<char>, StoredEntry>,
    p: Seq<char>,
    e: StoredEntry,
    disk: Map<Seq<char>, StoredEntry>,
)
    requires
        forall|k: Seq<char>| #[trigger] m.dom().contains(k) ==> disk.dom().contains(k),
        spec_flat_keys(disk),
        disk.dom().contains(p),
    ensures
        spec_put_entry(m, p, e) == m.insert(p, e),
{
    let lhs = spec_put_entry(m, p, e);
    let rhs = m.insert(p, e);
    assert forall|k: Seq<char>| #[trigger] rhs.dom().contains(k) implies lhs.dom().contains(k) by {
        if k != p {
            assert(m.dom().contains(k));
            assert(disk.dom().contains(k));
            assert(!spec_tree_covers(p, k));
            assert(!spec_tree_covers(k, p));
        }
    }
    assert forall|k: Seq<char>| #[trigger] lhs.dom().contains(k) implies rhs.dom().contains(k) by {}
    assert(lhs =~= rhs);
}

/// Upserting files whose entries are the disk's own, onto a map that
/// already agrees with the disk everywhere it is not about to be
/// overwritten, lands exactly on the disk snapshot.
proof fn lemma_upsert_fold_to_disk(
    m: Map<Seq<char>, StoredEntry>,
    changed: Seq<ChangedFile>,
    disk: Map<Seq<char>, StoredEntry>,
)
    requires
        spec_flat_keys(disk),
        forall|k: Seq<char>| #[trigger] m.dom().contains(k) ==> disk.dom().contains(k),
        forall|i: int|
            0 <= i < changed.len() ==> disk.dom().contains(#[trigger] changed[i].path@)
                && spec_entry_of_file(changed[i]) == disk[changed[i].path@],
        forall|k: Seq<char>|
            #[trigger] m.dom().contains(k) && m[k] != disk[k] ==> (exists|i: int|
                0 <= i < changed.len() && (#[trigger] changed[i].path@) == k),
        forall|k: Seq<char>|
            #[trigger] disk.dom().contains(k) && !m.dom().contains(k) ==> (exists|i: int|
                0 <= i < changed.len() && (#[trigger] changed[i].path@) == k),
    ensures
        spec_upsert_fold(m, changed) == disk,
    decreases changed.len(),
{
    if changed.len() == 0 {
        assert forall|k: Seq<char>| #[trigger] disk.dom().contains(k) implies m.dom().contains(k)
            by {}
        assert forall|k: Seq<char>| #[trigger] m.dom().contains(k) implies m[k] == disk[k] by {}
        assert(m =~= disk);
    } else {
        let f0 = changed[0];
        let p0 = f0.path@;
        let e0 = spec_entry_of_file(f0);
        lemma_put_entry_plain(m, p0, e0, disk);
        let m1 = m.insert(p0, e0);
        let tail = changed.drop_first();
        assert forall|i: int|
            0 <= i < tail.len() implies disk.dom().contains(#[trigger] tail[i].path@)
            && spec_entry_of_file(tail[i]) == disk[tail[i].path@] by {
            assert(tail[i] == changed[i + 1]);
        }
        assert forall|k: Seq<char>| #[trigger] m1.dom().contains(k) implies disk.dom().contains(k)
            by {
            if k != p0 {
                assert(m.dom().contains(k));
            }
        }
        assert forall|k: Seq<char>|
            #[trigger] m1.dom().contains(k) && m1[k] != disk[k] implies (exists|i: int|
            0 <= i < tail.len() && (#[trigger] tail[i].path@) == k) by {
            assert(e0 == disk[p0]);
            assert(k != p0);
            assert(m.dom().contains(k) && m[k] != disk[k]);
            let w = choose|w: int| 0 <= w < changed.len() && changed[w].path@ == k;
            assert(w != 0);
            assert(tail[w - 1] == changed[w]);
            assert(tail[w - 1].path@ == k);
        }
        assert forall|k: Seq<char>|
            #[trigger] disk.dom().contains(k) && !m1.dom().contains(k) implies (exists|i: int|
            0 <= i < tail.len() && (#[trigger] tail[i].path@) == k) by {
            assert(k != p0);
            assert(!m.dom().contains(k));
            let w = choose|w: int| 0 <= w < changed.len() && changed[w].path@ == k;
            assert(w != 0);
            assert(tail[w - 1] == changed[w]);
            assert(tail[w - 1].path@ == k);
        }
        lemma_upsert_fold_to_disk(m1, tail, disk);
        assert(spec_upsert_fold(m, changed) == spec_upsert_fold(m1, tail));
    }
}

/// The round-trip law of the snapshot engine, over the store model the
/// tree builder's contract speaks: take a base tree that records every
/// file the watermark has not passed, run the scan, read the changed
/// files as they stand, and build the tree — the result holds exactly
/// what is on disk, adds, modifications and deletions all landed.
pub proof fn lemma_build_tree_round_trip(
    entries: Seq<WalkEntry>,
    base_paths: Seq<String>,
    base: Map<Seq<char>, StoredEntry>,
    disk: Map<Seq<char>, StoredEntry>,
    deleted: Seq<String>,
    changed: Seq<ChangedFile>,
    threshold: u64,
)
    requires
        // the base tree's entries are exactly the enumerated base paths,
        // and form a tree: no blob path under another
        forall|p: Seq<char>|
            #[trigger] base.dom().contains(p) <==> spec_path_views(base_paths).contains(p),
        spec_flat_keys(base),
        // the disk snapshot records exactly the files the walk saw
        forall|p: Seq<char>| #[trigger] disk.dom().contains(p) <==> spec_is_current(entries, p),
        spec_flat_keys(disk),
        // the deleted list is the scan's verdict
        spec_unique(spec_path_views(deleted)),
        forall|p: Seq<char>|
            #[trigger] spec_path_views(deleted).contains(p) <==> (spec_path_views(
                base_paths,
            ).contains(p) && !spec_is_current(entries, p)),
        // the changed files carry the scan's changed set, each with the
        // content the disk holds at its path
        forall|i: int|
            0 <= i < changed.len() ==> spec_is_changed(
                entries,
                threshold,
                #[trigger] changed[i].path@,
            ),
        forall|p: Seq<char>|
            #[trigger] spec_is_changed(entries, threshold, p) ==> (exists|i: int|
                0 <= i < changed.len() && (#[trigger] changed[i].path@) == p),
        forall|i: int|
            0 <= i < changed.len() ==> disk.dom().contains(#[trigger] changed[i].path@)
                && spec_entry_of_file(changed[i]) == disk[changed[i].path@],
        // files untouched since the watermark are recorded in the base
        // tree with their current content
        forall|p: Seq<char>|
            disk.dom().contains(p) && !spec_is_changed(entries, threshold, p)
                ==> #[trigger] base.dom().contains(p) && base[p] == disk[p],
    ensures
        spec_build_tree(base, spec_path_views(deleted), changed) == disk,
{
    let dviews = spec_path_views(deleted);
    assert forall|i: int| 0 <= i < dviews.len() implies base.dom().contains(#[trigger] dviews[i])
        by {
        assert(dviews.contains(dviews[i]));
        assert(spec_path_views(base_paths).contains(dviews[i]));
    }
    lemma_remove_fold_plain(base, dviews);
    let m1 = base.remove_keys(Set::new(|p: Seq<char>| dviews.contains(p)));
    assert forall|k: Seq<char>| #[trigger] m1.dom().contains(k) implies disk.dom().contains(k) by {
        assert(base.dom().contains(k) && !dviews.contains(k));
        assert(spec_path_views(base_paths).contains(k));
        assert(spec_is_current(entries, k));
    }
    assert forall|k: Seq<char>|
        #[trigger] m1.dom().contains(k) && m1[k] != disk[k] implies (exists|i: int|
        0 <= i < changed.len() && (#[trigger] changed[i].path@) == k) by {
        assert(disk.dom().contains(k));
        if !spec_is_changed(entries, threshold, k) {
            assert(base[k] == disk[k]);
            assert(m1[k] == base[k]);
        }
    }
    assert forall|k: Seq<char>|
        #[trigger] disk.dom().contains(k) && !m1.dom().contains(k) implies (exists|i: int|
        0 <= i < changed.len() && (#[trigger] changed[i].path@) == k) by {
        assert(spec_is_current(entries, k));
        if !spec_is_changed(entries, threshold, k) {
            assert(base.dom().contains(k));
            assert(!dviews.contains(k));
            assert(m1.dom().contains(k));
        }
    }
    lemma_upsert_fold_to_disk(m1, changed, disk);
}

} // verus!
