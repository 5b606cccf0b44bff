use vstd::prelude::*;
use crate::pathutil::spec_has_dotgit_component;
use crate::strutil::str_eq;

verus! {

// ---------------------------------------------------------------------------
// Snapshot delta engine: given the entries seen by a filesystem walk, the
// blob paths of the base tree, and the mtime watermark, compute which paths
// changed and which disappeared. Modification time is the authoritative
// change signal; the threshold is half-open, so an mtime equal to the
// watermark counts as changed.
// ---------------------------------------------------------------------------

/// One entry reported by walking the session folder: its path relative to
/// the scan root, whether it is a directory, whether it is a symbolic
/// link, and its symlink-metadata modification time in Unix seconds.
pub struct WalkEntry {
    pub rel_path: String,
    pub is_dir: bool,
    pub is_symlink: bool,
    pub mtime: u64,
}

/// Directories are never snapshot entries, and nothing under a `.git`
/// directory is scanned.
pub open spec fn spec_entry_eligible(e: WalkEntry) -> bool {
    !e.is_dir && !spec_has_dotgit_component(e.rel_path@) && e.rel_path@.len() > 0
}

/// Whether some eligible walk entry has path `p`: `p` exists on disk.
pub open spec fn spec_is_current(entries: Seq<WalkEntry>, p: Seq<char>) -> bool {
    exists|k: int|
        0 <= k < entries.len() && spec_entry_eligible(#[trigger] entries[k])
            && entries[k].rel_path@ == p
}

/// Whether some eligible walk entry has path `p` and was modified at or
/// after the threshold.
pub open spec fn spec_is_changed(entries: Seq<WalkEntry>, threshold: u64, p: Seq<char>) -> bool {
    exists|k: int|
        0 <= k < entries.len() && spec_entry_eligible(#[trigger] entries[k])
            && entries[k].rel_path@ == p && entries[k].mtime >= threshold
}

/// Whether some eligible walk entry at `p` is a regular file — not a
/// symbolic link — modified at or after the threshold: the selection the
/// status report counts as pending.
pub open spec fn spec_is_changed_file(
    entries: Seq<WalkEntry>,
    threshold: u64,
    p: Seq<char>,
) -> bool {
    exists|k: int|
        0 <= k < entries.len() && spec_entry_eligible(#[trigger] entries[k])
            && !entries[k].is_symlink && entries[k].rel_path@ == p && entries[k].mtime
            >= threshold
}

/// The paths of `v` as character sequences.
pub open spec fn spec_path_views(v: Seq<String>) -> Seq<Seq<char>> {
    v.map_values(|s: String| s@)
}

/// Mapping to views commutes with appending one path.
pub proof fn lemma_path_views_push(v: Seq<String>, x: String)
    ensures
        spec_path_views(v.push(x)) == spec_path_views(v).push(x@),
{
    let lhs = spec_path_views(v.push(x));
    let rhs = spec_path_views(v).push(x@);
    assert forall|j: int| 0 <= j < lhs.len() implies #[trigger] lhs[j] == rhs[j] by {
        assert(lhs[j] == v.push(x)[j]@);
        if j < v.len() {
            assert(v.push(x)[j] == v[j]);
            assert(spec_path_views(v)[j] == v[j]@);
        } else {
            assert(v.push(x)[j] == x);
        }
    }
    assert(lhs =~= rhs);
}

/// No path occurs twice.
pub open spec fn spec_unique(s: Seq<Seq<char>>) -> bool {
    forall|i: int, j: int| 0 <= i < j < s.len() ==> s[i] != s[j]
}

/// The result of a snapshot scan: paths changed since the watermark and
/// paths the base tree held that are gone from disk.
pub struct SnapshotDelta {
    pub changed: Vec<String>,
    pub deleted: Vec<String>,
}

impl SnapshotDelta {
    /// An empty delta means there is nothing to commit.
    pub fn is_empty(&self) -> (r: bool)
        ensures
            r == (self.changed@.len() == 0 && self.deleted@.len() == 0),
    {
        self.changed.len() == 0 && self.deleted.len() == 0
    }
}

/// Whether some element of `v` equals the string `s`.
pub fn vec_contains_str(v: &Vec<String>, s: &str) -> (r: bool)
    ensures
        r == spec_path_views(v@).contains(s@),
{
    let mut i: usize = 0;
    while i < v.len()
        invariant
            i <= v@.len(),
            forall|j: int| 0 <= j < i ==> spec_path_views(v@)[j] != s@,
        decreases v@.len() - i,
    {
        if str_eq(v[i].as_str(), s) {
            proof {
                assert(spec_path_views(v@)[i as int] == v@[i as int]@);
            }
            return true;
        }
        proof {
            assert(spec_path_views(v@)[i as int] == v@[i as int]@);
        }
        i = i + 1;
    }
    proof {
        if spec_path_views(v@).contains(s@) {
            let w = choose|w: int|
                0 <= w < spec_path_views(v@).len() && spec_path_views(v@)[w] == s@;
            assert(spec_path_views(v@)[w] != s@);
        }
    }
    false
}

/// Walk the entries once and report, relative to the base tree's paths,
/// what changed at or after the threshold and what was deleted. Directories
/// and anything under a `.git` directory are ignored; a rename shows up as
/// one deletion and one change. The result lists each path once.
pub fn compute_snapshot_delta(
    entries: &Vec<WalkEntry>,
    base_paths: &Vec<String>,
    threshold: u64,
) -> (r: SnapshotDelta)
    ensures
        spec_unique(spec_path_views(r.changed@)),
        spec_unique(spec_path_views(r.deleted@)),
        forall|p: Seq<char>|
            #[trigger] spec_path_views(r.changed@).contains(p) <==> spec_is_changed(
                entries@,
                threshold,
                p,
            ),
        forall|p: Seq<char>|
            #[trigger] spec_path_views(r.deleted@).contains(p) <==> (spec_path_views(
                base_paths@,
            ).contains(p) && !spec_is_current(entries@, p)),
{
    let mut changed: Vec<String> = Vec::new();
    let mut i: usize = 0;
    proof {
        assert(spec_path_views(changed@).len() == 0);
    }
    while i < entries.len()
        invariant
            i <= entries@.len(),
            spec_unique(spec_path_views(changed@)),
            forall|p: Seq<char>|
                #[trigger] spec_path_views(changed@).contains(p) <==> spec_is_changed(
                    entries@.subrange(0, i as int),
                    threshold,
                    p,
                ),
        decreases entries@.len() - i,
    {
        let ghost pre = changed@;
        let e = &entries[i];
        let eligible = !e.is_dir && !crate::pathutil::has_dotgit_component(e.rel_path.as_str())
            && !e.rel_path.as_str().is_empty();
        if eligible && e.mtime >= threshold && !vec_contains_str(&changed, e.rel_path.as_str()) {
            changed.push(e.rel_path.clone());
        }
        proof {
            lemma_scan_step(entries@, changed@, pre, threshold, i as int);
        }
        i = i + 1;
    }
    proof {
        assert(entries@.subrange(0, entries@.len() as int) =~= entries@);
    }
    let current = collect_current_paths(entries);
    let mut deleted: Vec<String> = Vec::new();
    let mut b: usize = 0;
    proof {
        assert(spec_path_views(deleted@).len() == 0);
    }
    while b < base_paths.len()
        invariant
            b <= base_paths@.len(),
            spec_unique(spec_path_views(current@)),
            forall|p: Seq<char>|
                #[trigger] spec_path_views(current@).contains(p) <==> spec_is_current(entries@, p),
            spec_unique(spec_path_views(deleted@)),
            forall|p: Seq<char>|
                #[trigger] spec_path_views(deleted@).contains(p) <==> (spec_path_views(
                    base_paths@.subrange(0, b as int),
                ).contains(p) && !spec_is_current(entries@, p)),
        decreases base_paths@.len() - b,
    {
        let ghost pre = deleted@;
        let bp = &base_paths[b];
        if !vec_contains_str(&current, bp.as_str()) && !vec_contains_str(&deleted, bp.as_str()) {
            deleted.push(bp.clone());
        }
        proof {
            lemma_deleted_step(entries@, base_paths@, deleted@, pre, b as int);
        }
        b = b + 1;
    }
    proof {
        assert(base_paths@.subrange(0, base_paths@.len() as int) =~= base_paths@);
    }
    SnapshotDelta { changed, deleted }
}

/// The relative paths of the files and symlinks the walk saw, each once:
/// the paths that exist on disk.
pub fn collect_current_paths(entries: &Vec<WalkEntry>) -> (r: Vec<String>)
    ensures
        spec_unique(spec_path_views(r@)),
        forall|p: Seq<char>|
            #[trigger] spec_path_views(r@).contains(p) <==> spec_is_current(entries@, p),
{
    let mut current: Vec<String> = Vec::new();
    let mut k: usize = 0;
    proof {
        assert(spec_path_views(current@).len() == 0);
    }
    while k < entries.len()
        invariant
            k <= entries@.len(),
            spec_unique(spec_path_views(current@)),
            forall|p: Seq<char>|
                #[trigger] spec_path_views(current@).contains(p) <==> spec_is_current(
                    entries@.subrange(0, k as int),
                    p,
                ),
        decreases entries@.len() - k,
    {
        let ghost pre = current@;
        let e = &entries[k];
        let eligible = !e.is_dir && !crate::pathutil::has_dotgit_component(e.rel_path.as_str())
            && !e.rel_path.as_str().is_empty();
        if eligible && !vec_contains_str(&current, e.rel_path.as_str()) {
            current.push(e.rel_path.clone());
        }
        proof {
            lemma_current_step(entries@, current@, pre, k as int);
        }
        k = k + 1;
    }
    proof {
        assert(entries@.subrange(0, entries@.len() as int) =~= entries@);
    }
    current
}

/// One step of the changed-collection loop keeps the set description exact.
proof fn lemma_scan_step(
    entries: Seq<WalkEntry>,
    now: Seq<String>,
    pre: Seq<String>,
    threshold: u64,
    i: int,
)
    requires
        0 <= i < entries.len(),
        spec_unique(spec_path_views(pre)),
        forall|p: Seq<char>|
            #[trigger] spec_path_views(pre).contains(p) <==> spec_is_changed(
                entries.subrange(0, i),
                threshold,
                p,
            ),
        ({
            let qualifies = spec_entry_eligible(entries[i]) && entries[i].mtime >= threshold;
            if qualifies && !spec_path_views(pre).contains(entries[i].rel_path@) {
                now == pre.push(entries[i].rel_path)
            } else {
                now == pre
            }
        }),
    ensures
        spec_unique(spec_path_views(now)),
        forall|p: Seq<char>|
            #[trigger] spec_path_views(now).contains(p) <==> spec_is_changed(
                entries.subrange(0, i + 1),
                threshold,
                p,
            ),
{
    let old_sub = entries.subrange(0, i);
    let new_sub = entries.subrange(0, i + 1);
    assert(new_sub.len() == i + 1);
    assert forall|k: int| 0 <= k < i + 1 implies #[trigger] new_sub[k] == entries[k] by {}
    assert forall|k: int| 0 <= k < i implies #[trigger] old_sub[k] == entries[k] by {}
    let qualifies = spec_entry_eligible(entries[i]) && entries[i].mtime >= threshold;
    if qualifies && !spec_path_views(pre).contains(entries[i].rel_path@) {
        let pv = entries[i].rel_path@;
        assert(spec_path_views(now) =~= spec_path_views(pre).push(pv)) by {
            assert forall|j: int| 0 <= j < now.len() implies #[trigger] spec_path_views(now)[j]
                == spec_path_views(pre).push(pv)[j] by {
                if j < pre.len() {
                    assert(now[j] == pre[j]);
                } else {
                    assert(now[j] == entries[i].rel_path);
                }
            }
        }
        assert forall|p: Seq<char>| #[trigger]
            spec_path_views(now).contains(p) implies spec_is_changed(new_sub, threshold, p) by {
            if spec_path_views(pre).contains(p) {
                assert(spec_is_changed(old_sub, threshold, p));
                let w = choose|w: int|
                    0 <= w < old_sub.len() && spec_entry_eligible(#[trigger] old_sub[w])
                        && old_sub[w].rel_path@ == p && old_sub[w].mtime >= threshold;
                assert(new_sub[w] == old_sub[w]);
                assert(spec_is_changed(new_sub, threshold, p));
            } else {
                let w = choose|w: int|
                    0 <= w < spec_path_views(now).len() && spec_path_views(now)[w] == p;
                assert(spec_path_views(now)[w] == now[w]@);
                if w < pre.len() {
                    assert(spec_path_views(pre)[w] == pre[w]@);
                    assert(spec_path_views(pre).contains(p));
                    assert(false);
                } else {
                    assert(p == pv);
                    assert(new_sub[i] == entries[i]);
                    assert(spec_is_changed(new_sub, threshold, p));
                }
            }
        }
        assert forall|p: Seq<char>| spec_is_changed(new_sub, threshold, p) implies #[trigger]
            spec_path_views(now).contains(p) by {
            let w = choose|w: int|
                0 <= w < new_sub.len() && spec_entry_eligible(#[trigger] new_sub[w])
                    && new_sub[w].rel_path@ == p && new_sub[w].mtime >= threshold;
            if w < i {
                assert(old_sub[w] == new_sub[w]);
                assert(spec_is_changed(old_sub, threshold, p));
                assert(spec_path_views(pre).contains(p));
                let u = choose|u: int|
                    0 <= u < spec_path_views(pre).len() && spec_path_views(pre)[u] == p;
                assert(spec_path_views(now)[u] == now[u]@);
                assert(now[u] == pre[u]);
                assert(spec_path_views(now)[u] == p);
            } else {
                assert(new_sub[w] == entries[i]);
                assert(p == pv);
                assert(spec_path_views(now)[now.len() - 1] == now[now.len() - 1]@);
                assert(now[now.len() - 1] == entries[i].rel_path);
            }
        }
        assert(spec_unique(spec_path_views(now))) by {
            assert forall|a: int, c: int|
                0 <= a < c < spec_path_views(now).len() implies spec_path_views(now)[a]
                    != spec_path_views(now)[c] by {
                if c < pre.len() {
                    assert(spec_path_views(pre)[a] == pre[a]@);
                    assert(spec_path_views(pre)[c] == pre[c]@);
                } else {
                    assert(spec_path_views(now)[c] == pv);
                    assert(now[a] == pre[a]);
                    assert(spec_path_views(pre)[a] == pre[a]@);
                    if spec_path_views(now)[a] == pv {
                        assert(spec_path_views(pre).contains(pv));
                        assert(false);
                    }
                }
            }
        }
    } else {
        assert forall|p: Seq<char>| #[trigger]
            spec_path_views(now).contains(p) implies spec_is_changed(new_sub, threshold, p) by {
            assert(spec_is_changed(old_sub, threshold, p));
            let w = choose|w: int|
                0 <= w < old_sub.len() && spec_entry_eligible(#[trigger] old_sub[w])
                    && old_sub[w].rel_path@ == p && old_sub[w].mtime >= threshold;
            assert(new_sub[w] == old_sub[w]);
        }
        assert forall|p: Seq<char>| spec_is_changed(new_sub, threshold, p) implies #[trigger]
            spec_path_views(now).contains(p) by {
            let w = choose|w: int|
                0 <= w < new_sub.len() && spec_entry_eligible(#[trigger] new_sub[w])
                    && new_sub[w].rel_path@ == p && new_sub[w].mtime >= threshold;
            if w < i {
                assert(old_sub[w] == new_sub[w]);
                assert(spec_is_changed(old_sub, threshold, p));
            } else {
                assert(new_sub[w] == entries[i]);
                if qualifies {
                    assert(spec_path_views(pre).contains(entries[i].rel_path@));
                    assert(spec_path_views(now).contains(p));
                } else {
                    assert(false);
                }
            }
        }
    }
}

/// One step of the current-path collection keeps the set description exact.
proof fn lemma_current_step(entries: Seq<WalkEntry>, now: Seq<String>, pre: Seq<String>, i: int)
    requires
        0 <= i < entries.len(),
        spec_unique(spec_path_views(pre)),
        forall|p: Seq<char>|
            #[trigger] spec_path_views(pre).contains(p) <==> spec_is_current(
                entries.subrange(0, i),
                p,
            ),
        ({
            if spec_entry_eligible(entries[i]) && !spec_path_views(pre).contains(
                entries[i].rel_path@,
            ) {
                now == pre.push(entries[i].rel_path)
            } else {
                now == pre
            }
        }),
    ensures
        spec_unique(spec_path_views(now)),
        forall|p: Seq<char>|
            #[trigger] spec_path_views(now).contains(p) <==> spec_is_current(
                entries.subrange(0, i + 1),
                p,
            ),
{
    let old_sub = entries.subrange(0, i);
    let new_sub = entries.subrange(0, i + 1);
    assert forall|k: int| 0 <= k < i + 1 implies #[trigger] new_sub[k] == entries[k] by {}
    assert forall|k: int| 0 <= k < i implies #[trigger] old_sub[k] == entries[k] by {}
    if spec_entry_eligible(entries[i]) && !spec_path_views(pre).contains(entries[i].rel_path@) {
        let pv = entries[i].rel_path@;
        assert forall|p: Seq<char>| #[trigger]
            spec_path_views(now).contains(p) implies spec_is_current(new_sub, p) by {
            if spec_path_views(pre).contains(p) {
                let w = choose|w: int|
                    0 <= w < old_sub.len() && spec_entry_eligible(#[trigger] old_sub[w])
                        && old_sub[w].rel_path@ == p;
                assert(new_sub[w] == old_sub[w]);
            } else {
                let w = choose|w: int|
                    0 <= w < spec_path_views(now).len() && spec_path_views(now)[w] == p;
                assert(spec_path_views(now)[w] == now[w]@);
                if w < pre.len() {
                    assert(spec_path_views(pre)[w] == pre[w]@);
                    assert(spec_path_views(pre).contains(p));
                    assert(false);
                } else {
                    assert(p == pv);
                    assert(new_sub[i] == entries[i]);
                }
            }
        }
        assert forall|p: Seq<char>| spec_is_current(new_sub, p) implies #[trigger] spec_path_views(
            now,
        ).contains(p) by {
            let w = choose|w: int|
                0 <= w < new_sub.len() && spec_entry_eligible(#[trigger] new_sub[w])
                    && new_sub[w].rel_path@ == p;
            if w < i {
                assert(old_sub[w] == new_sub[w]);
                assert(spec_is_current(old_sub, p));
                assert(spec_path_views(pre).contains(p));
                let u = choose|u: int|
                    0 <= u < spec_path_views(pre).len() && spec_path_views(pre)[u] == p;
                assert(spec_path_views(now)[u] == now[u]@);
                assert(now[u] == pre[u]);
            } else {
                assert(new_sub[w] == entries[i]);
                assert(p == pv);
                assert(spec_path_views(now)[now.len() - 1] == now[now.len() - 1]@);
                assert(now[now.len() - 1] == entries[i].rel_path);
            }
        }
        assert(spec_unique(spec_path_views(now))) by {
            assert forall|a: int, c: int|
                0 <= a < c < spec_path_views(now).len() implies spec_path_views(now)[a]
                    != spec_path_views(now)[c] by {
                if c < pre.len() {
                    assert(spec_path_views(pre)[a] == pre[a]@);
                    assert(spec_path_views(pre)[c] == pre[c]@);
                } else {
                    assert(spec_path_views(now)[c] == now[c]@);
                    assert(now[c] == entries[i].rel_path);
                    assert(now[a] == pre[a]);
                    assert(spec_path_views(pre)[a] == pre[a]@);
                    if spec_path_views(now)[a] == pv {
                        assert(spec_path_views(pre).contains(pv));
                        assert(false);
                    }
                }
            }
        }
    } else {
        assert forall|p: Seq<char>| #[trigger]
            spec_path_views(now).contains(p) implies spec_is_current(new_sub, p) by {
            assert(spec_is_current(old_sub, p));
            let w = choose|w: int|
                0 <= w < old_sub.len() && spec_entry_eligible(#[trigger] old_sub[w])
                    && old_sub[w].rel_path@ == p;
            assert(new_sub[w] == old_sub[w]);
        }
        assert forall|p: Seq<char>| spec_is_current(new_sub, p) implies #[trigger] spec_path_views(
            now,
        ).contains(p) by {
            let w = choose|w: int|
                0 <= w < new_sub.len() && spec_entry_eligible(#[trigger] new_sub[w])
                    && new_sub[w].rel_path@ == p;
            if w < i {
                assert(old_sub[w] == new_sub[w]);
                assert(spec_is_current(old_sub, p));
            } else {
                assert(new_sub[w] == entries[i]);
                assert(spec_path_views(pre).contains(entries[i].rel_path@));
            }
        }
    }
}

/// One step of the deleted-path collection keeps the set description exact.
proof fn lemma_deleted_step(
    entries: Seq<WalkEntry>,
    base_paths: Seq<String>,
    now: Seq<String>,
    pre: Seq<String>,
    b: int,
)
    requires
        0 <= b < base_paths.len(),
        spec_unique(spec_path_views(pre)),
        forall|p: Seq<char>|
            #[trigger] spec_path_views(pre).contains(p) <==> (spec_path_views(
                base_paths.subrange(0, b),
            ).contains(p) && !spec_is_current(entries, p)),
        ({
            if !spec_is_current(entries, base_paths[b]@) && !spec_path_views(pre).contains(
                base_paths[b]@,
            ) {
                now == pre.push(base_paths[b])
            } else {
                now == pre
            }
        }),
    ensures
        spec_unique(spec_path_views(now)),
        forall|p: Seq<char>|
            #[trigger] spec_path_views(now).contains(p) <==> (spec_path_views(
                base_paths.subrange(0, b + 1),
            ).contains(p) && !spec_is_current(entries, p)),
{
    let old_base = spec_path_views(base_paths.subrange(0, b));
    let new_base = spec_path_views(base_paths.subrange(0, b + 1));
    assert(new_base.len() == b + 1);
    assert forall|k: int| 0 <= k < b + 1 implies #[trigger] new_base[k] == base_paths[k]@ by {
        assert(base_paths.subrange(0, b + 1)[k] == base_paths[k]);
    }
    assert forall|k: int| 0 <= k < b implies #[trigger] old_base[k] == base_paths[k]@ by {
        assert(base_paths.subrange(0, b)[k] == base_paths[k]);
    }
    let bp = base_paths[b]@;
    if !spec_is_current(entries, bp) && !spec_path_views(pre).contains(bp) {
        assert forall|p: Seq<char>| #[trigger]
            spec_path_views(now).contains(p) implies (new_base.contains(p) && !spec_is_current(
            entries,
            p,
        )) by {
            let w = choose|w: int|
                0 <= w < spec_path_views(now).len() && spec_path_views(now)[w] == p;
            assert(spec_path_views(now)[w] == now[w]@);
            if w < pre.len() {
                assert(spec_path_views(pre)[w] == pre[w]@);
                assert(spec_path_views(pre).contains(p));
                assert(old_base.contains(p));
                let u = choose|u: int| 0 <= u < old_base.len() && old_base[u] == p;
                assert(new_base[u] == old_base[u]);
            } else {
                assert(p == bp);
                assert(new_base[b] == bp);
            }
        }
        assert forall|p: Seq<char>|
            (new_base.contains(p) && !spec_is_current(entries, p)) implies #[trigger]
            spec_path_views(now).contains(p) by {
            let w = choose|w: int| 0 <= w < new_base.len() && new_base[w] == p;
            if w < b {
                assert(old_base[w] == new_base[w]);
                assert(old_base.contains(p));
                assert(spec_path_views(pre).contains(p));
                let u = choose|u: int|
                    0 <= u < spec_path_views(pre).len() && spec_path_views(pre)[u] == p;
                assert(spec_path_views(now)[u] == now[u]@);
                assert(now[u] == pre[u]);
            } else {
                assert(p == bp);
                assert(spec_path_views(now)[now.len() - 1] == now[now.len() - 1]@);
                assert(now[now.len() - 1] == base_paths[b]);
            }
        }
        assert(spec_unique(spec_path_views(now))) by {
            assert forall|a: int, c: int|
                0 <= a < c < spec_path_views(now).len() implies spec_path_views(now)[a]
                    != spec_path_views(now)[c] by {
                if c < pre.len() {
                    assert(spec_path_views(pre)[a] == pre[a]@);
                    assert(spec_path_views(pre)[c] == pre[c]@);
                } else {
                    assert(spec_path_views(now)[c] == now[c]@);
                    assert(now[c] == base_paths[b]);
                    assert(now[a] == pre[a]);
                    assert(spec_path_views(pre)[a] == pre[a]@);
                    if spec_path_views(now)[a] == bp {
                        assert(spec_path_views(pre).contains(bp));
                        assert(false);
                    }
                }
            }
        }
    } else {
        assert forall|p: Seq<char>| #[trigger]
            spec_path_views(now).contains(p) implies (new_base.contains(p) && !spec_is_current(
            entries,
            p,
        )) by {
            assert(old_base.contains(p));
            let u = choose|u: int| 0 <= u < old_base.len() && old_base[u] == p;
            assert(new_base[u] == old_base[u]);
        }
        assert forall|p: Seq<char>|
            (new_base.contains(p) && !spec_is_current(entries, p)) implies #[trigger]
            spec_path_views(now).contains(p) by {
            let w = choose|w: int| 0 <= w < new_base.len() && new_base[w] == p;
            if w < b {
                assert(old_base[w] == new_base[w]);
                assert(old_base.contains(p));
            } else {
                assert(p == bp);
                assert(spec_path_views(pre).contains(bp));
            }
        }
    }
}

/// The files the status report counts as pending: regular files — not
/// symbolic links — modified at or after the threshold, each listed once.
pub fn scan_modified_files(entries: &Vec<WalkEntry>, threshold: u64) -> (r: Vec<String>)
    ensures
        spec_unique(spec_path_views(r@)),
        forall|p: Seq<char>|
            #[trigger] spec_path_views(r@).contains(p) <==> spec_is_changed_file(
                entries@,
                threshold,
                p,
            ),
{
    let mut files: Vec<String> = Vec::new();
    let mut i: usize = 0;
    proof {
        assert(spec_path_views(files@).len() == 0);
    }
    while i < entries.len()
        invariant
            i <= entries@.len(),
            spec_unique(spec_path_views(files@)),
            forall|p: Seq<char>|
                #[trigger] spec_path_views(files@).contains(p) <==> spec_is_changed_file(
                    entries@.subrange(0, i as int),
                    threshold,
                    p,
                ),
        decreases entries@.len() - i,
    {
        let ghost pre = files@;
        let e = &entries[i];
        let eligible = !e.is_dir && !e.is_symlink && !crate::pathutil::has_dotgit_component(
            e.rel_path.as_str(),
        ) && !e.rel_path.as_str().is_empty();
        if eligible && e.mtime >= threshold && !vec_contains_str(&files, e.rel_path.as_str()) {
            files.push(e.rel_path.clone());
        }
        proof {
            lemma_file_scan_step(entries@, files@, pre, threshold, i as int);
        }
        i = i + 1;
    }
    proof {
        assert(entries@.subrange(0, entries@.len() as int) =~= entries@);
    }
    files
}

/// One step of the status-file collection keeps the set description exact.
proof fn lemma_file_scan_step(
    entries: Seq<WalkEntry>,
    now: Seq<String>,
    pre: Seq<String>,
    threshold: u64,
    i: int,
)
    requires
        0 <= i < entries.len(),
        spec_unique(spec_path_views(pre)),
        forall|p: Seq<char>|
            #[trigger] spec_path_views(pre).contains(p) <==> spec_is_changed_file(
                entries.subrange(0, i),
                threshold,
                p,
            ),
        ({
            let qualifies = spec_entry_eligible(entries[i]) && !entries[i].is_symlink
                && entries[i].mtime >= threshold;
            if qualifies && !spec_path_views(pre).contains(entries[i].rel_path@) {
                now == pre.push(entries[i].rel_path)
            } else {
                now == pre
            }
        }),
    ensures
        spec_unique(spec_path_views(now)),
        forall|p: Seq<char>|
            #[trigger] spec_path_views(now).contains(p) <==> spec_is_changed_file(
                entries.subrange(0, i + 1),
                threshold,
                p,
            ),
{
    let old_sub = entries.subrange(0, i);
    let new_sub = entries.subrange(0, i + 1);
    assert(new_sub.len() == i + 1);
    assert forall|k: int| 0 <= k < i + 1 implies #[trigger] new_sub[k] == entries[k] by {}
    assert forall|k: int| 0 <= k < i implies #[trigger] old_sub[k] == entries[k] by {}
    let qualifies = spec_entry_eligible(entries[i]) && !entries[i].is_symlink && entries[i].mtime
        >= threshold;
    if qualifies && !spec_path_views(pre).contains(entries[i].rel_path@) {
        let pv = entries[i].rel_path@;
        assert forall|p: Seq<char>| #[trigger]
            spec_path_views(now).contains(p) implies spec_is_changed_file(
            new_sub,
            threshold,
            p,
        ) by {
            if spec_path_views(pre).contains(p) {
                assert(spec_is_changed_file(old_sub, threshold, p));
                let w = choose|w: int|
                    0 <= w < old_sub.len() && spec_entry_eligible(#[trigger] old_sub[w])
                        && !old_sub[w].is_symlink && old_sub[w].rel_path@ == p
                        && old_sub[w].mtime >= threshold;
                assert(new_sub[w] == old_sub[w]);
                assert(spec_is_changed_file(new_sub, threshold, p));
            } else {
                let w = choose|w: int|
                    0 <= w < spec_path_views(now).len() && spec_path_views(now)[w] == p;
                assert(spec_path_views(now)[w] == now[w]@);
                if w < pre.len() {
                    assert(spec_path_views(pre)[w] == pre[w]@);
                    assert(spec_path_views(pre).contains(p));
                    assert(false);
                } else {
                    assert(p == pv);
                    assert(new_sub[i] == entries[i]);
                    assert(spec_is_changed_file(new_sub, threshold, p));
                }
            }
        }
        assert forall|p: Seq<char>|
            spec_is_changed_file(new_sub, threshold, p) implies #[trigger] spec_path_views(
            now,
        ).contains(p) by {
            let w = choose|w: int|
                0 <= w < new_sub.len() && spec_entry_eligible(#[trigger] new_sub[w])
                    && !new_sub[w].is_symlink && new_sub[w].rel_path@ == p && new_sub[w].mtime
                    >= threshold;
            if w < i {
                assert(old_sub[w] == new_sub[w]);
                assert(spec_is_changed_file(old_sub, threshold, p));
                assert(spec_path_views(pre).contains(p));
                let u = choose|u: int|
                    0 <= u < spec_path_views(pre).len() && spec_path_views(pre)[u] == p;
                assert(spec_path_views(now)[u] == now[u]@);
                assert(now[u] == pre[u]);
                assert(spec_path_views(now)[u] == p);
            } else {
                assert(new_sub[w] == entries[i]);
                assert(p == pv);
                assert(spec_path_views(now)[now.len() - 1] == now[now.len() - 1]@);
                assert(now[now.len() - 1] == entries[i].rel_path);
            }
        }
        assert(spec_unique(spec_path_views(now))) by {
            assert forall|a: int, c: int|
                0 <= a < c < spec_path_views(now).len() implies spec_path_views(now)[a]
                    != spec_path_views(now)[c] by {
                if c < pre.len() {
                    assert(spec_path_views(pre)[a] == pre[a]@);
                    assert(spec_path_views(pre)[c] == pre[c]@);
                } else {
                    assert(spec_path_views(now)[c] == pv);
                    assert(now[a] == pre[a]);
                    assert(spec_path_views(pre)[a] == pre[a]@);
                    if spec_path_views(now)[a] == pv {
                        assert(spec_path_views(pre).contains(pv));
                        assert(false);
                    }
                }
            }
        }
    } else {
        assert forall|p: Seq<char>| #[trigger]
            spec_path_views(now).contains(p) implies spec_is_changed_file(
            new_sub,
            threshold,
            p,
        ) by {
            assert(spec_is_changed_file(old_sub, threshold, p));
            let w = choose|w: int|
                0 <= w < old_sub.len() && spec_entry_eligible(#[trigger] old_sub[w])
                    && !old_sub[w].is_symlink && old_sub[w].rel_path@ == p && old_sub[w].mtime
                    >= threshold;
            assert(new_sub[w] == old_sub[w]);
        }
        assert forall|p: Seq<char>|
            spec_is_changed_file(new_sub, threshold, p) implies #[trigger] spec_path_views(
            now,
        ).contains(p) by {
            let w = choose|w: int|
                0 <= w < new_sub.len() && spec_entry_eligible(#[trigger] new_sub[w])
                    && !new_sub[w].is_symlink && new_sub[w].rel_path@ == p && new_sub[w].mtime
                    >= threshold;
            if w < i {
                assert(old_sub[w] == new_sub[w]);
                assert(spec_is_changed_file(old_sub, threshold, p));
            } else {
                assert(new_sub[w] == entries[i]);
                if qualifies {
                    assert(spec_path_views(pre).contains(entries[i].rel_path@));
                    assert(spec_path_views(now).contains(p));
                } else {
                    assert(false);
                }
            }
        }
    }
}

/// With the watermark at zero, every file on disk counts as changed: the
/// scan is independent of actual modification times.
pub proof fn lemma_threshold_zero_takes_every_file(entries: Seq<WalkEntry>, p: Seq<char>)
    ensures
        spec_is_changed(entries, 0, p) <==> spec_is_current(entries, p),
{
    if spec_is_current(entries, p) {
        let w = choose|w: int|
            0 <= w < entries.len() && spec_entry_eligible(#[trigger] entries[w])
                && entries[w].rel_path@ == p;
        assert(entries[w].mtime >= 0);
        assert(spec_is_changed(entries, 0, p));
    }
    if spec_is_changed(entries, 0, p) {
        let w = choose|w: int|
            0 <= w < entries.len() && spec_entry_eligible(#[trigger] entries[w])
                && entries[w].rel_path@ == p && entries[w].mtime >= 0;
        assert(spec_is_current(entries, p));
    }
}

/// A delta with the scan's exact meaning is empty on an untouched disk:
/// after a restore (which sets the watermark past every write it made),
/// an autocommit with no further changes finds nothing to commit and
/// reports no modified files.
pub proof fn lemma_unchanged_disk_reports_nothing(
    entries: Seq<WalkEntry>,
    base_paths: Seq<String>,
    threshold: u64,
    changed: Seq<String>,
    deleted: Seq<String>,
)
    requires
        forall|k: int|
            0 <= k < entries.len() && spec_entry_eligible(#[trigger] entries[k])
                ==> entries[k].mtime < threshold,
        forall|q: Seq<char>|
            #[trigger] spec_path_views(base_paths).contains(q) <==> spec_is_current(entries, q),
        forall|p: Seq<char>|
            #[trigger] spec_path_views(changed).contains(p) <==> spec_is_changed(
                entries,
                threshold,
                p,
            ),
        forall|p: Seq<char>|
            #[trigger] spec_path_views(deleted).contains(p) <==> (spec_path_views(
                base_paths,
            ).contains(p) && !spec_is_current(entries, p)),
    ensures
        changed.len() == 0,
        deleted.len() == 0,
{
    if changed.len() > 0 {
        let p = spec_path_views(changed)[0];
        assert(spec_path_views(changed).contains(p));
        lemma_unchanged_disk_gives_empty_delta(entries, base_paths, threshold, p);
    }
    if deleted.len() > 0 {
        let p = spec_path_views(deleted)[0];
        assert(spec_path_views(deleted).contains(p));
        lemma_unchanged_disk_gives_empty_delta(entries, base_paths, threshold, p);
    }
}

/// When nothing on disk was touched at or after the watermark and the disk
/// still holds exactly the base tree's paths, the delta is empty: the next
/// autocommit reports nothing to do.
pub proof fn lemma_unchanged_disk_gives_empty_delta(
    entries: Seq<WalkEntry>,
    base_paths: Seq<String>,
    threshold: u64,
    p: Seq<char>,
)
    requires
        forall|k: int|
            0 <= k < entries.len() && spec_entry_eligible(#[trigger] entries[k])
                ==> entries[k].mtime < threshold,
        forall|q: Seq<char>|
            #[trigger] spec_path_views(base_paths).contains(q) <==> spec_is_current(entries, q),
    ensures
        !spec_is_changed(entries, threshold, p),
        !(spec_path_views(base_paths).contains(p) && !spec_is_current(entries, p)),
{
    if spec_is_changed(entries, threshold, p) {
        let w = choose|w: int|
            0 <= w < entries.len() && spec_entry_eligible(#[trigger] entries[w])
                && entries[w].rel_path@ == p && entries[w].mtime >= threshold;
        assert(entries[w].mtime < threshold);
    }
}

} // verus!
