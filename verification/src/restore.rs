use vstd::prelude::*;
use crate::errors::{AgtError, ErrorKind};
use crate::gitstore::{
    blob_data_of, bytes_to_string_lossy, find_blob_bytes, set_ref, utf8_lossy_of, CommitInfo,
};
use crate::scan::{
    collect_current_paths, spec_is_current, spec_path_views, spec_unique, vec_contains_str,
    WalkEntry,
};
use crate::strutil::{chars_of, string_from_chars};
use crate::treemodel::{action_for_entry, TreeEntryKind, RestoreAction};
use crate::treewalk::TreeBlob;

verus! {

// ---------------------------------------------------------------------------
// Restore engine: take a shadow commit, find what on disk it does not
// claim, and rebuild its tree. The sandbox reset to the user-branch parent
// and the filesystem writes happen outside; every decision about what to
// delete and what to write is made here.
// ---------------------------------------------------------------------------

/// A shadow commit to restore from must carry its two parents; the second
/// is the user-branch commit the sandbox is reset to.
pub fn validate_shadow_commit(shadow: &CommitInfo) -> (r: Result<gix::ObjectId, AgtError>)
    ensures
        shadow.parents@.len() < 2 ==> (r matches Err(e) && e.kind == ErrorKind::Precondition
            && e.message@ == "Shadow commit must have two parents (shadow + user branch)"@),
        shadow.parents@.len() >= 2 ==> (r matches Ok(p) && p == shadow.parents@[1]),
{
    if shadow.parents.len() < 2 {
        return Err(
            AgtError::precondition(
                string_from_chars(
                    &chars_of("Shadow commit must have two parents (shadow + user branch)"),
                ),
            ),
        );
    }
    Ok(shadow.parents[1])
}

/// The files the restore must delete: everything the walk saw (files and
/// symlinks outside `.git`) whose path the shadow tree does not claim.
/// Each path is listed once.
pub fn files_to_delete(entries: &Vec<WalkEntry>, tree_paths: &Vec<String>) -> (r: Vec<String>)
    ensures
        spec_unique(spec_path_views(r@)),
        forall|p: Seq<char>|
            #[trigger] spec_path_views(r@).contains(p) <==> (spec_is_current(entries@, p)
                && !spec_path_views(tree_paths@).contains(p)),
{
    let current = collect_current_paths(entries);
    let mut r: Vec<String> = Vec::new();
    let mut i: usize = 0;
    proof {
        assert(spec_path_views(r@).len() == 0);
    }
    while i < current.len()
        invariant
            spec_unique(spec_path_views(current@)),
            forall|p: Seq<char>|
                #[trigger] spec_path_views(current@).contains(p) <==> spec_is_current(entries@, p),
            i <= current@.len(),
            spec_unique(spec_path_views(r@)),
            forall|p: Seq<char>|
                #[trigger] spec_path_views(r@).contains(p) <==> (spec_path_views(
                    current@.subrange(0, i as int),
                ).contains(p) && !spec_path_views(tree_paths@).contains(p)),
        decreases current@.len() - i,
    {
        let ghost pre = r@;
        let ghost pre_views = spec_path_views(r@);
        let cp = &current[i];
        proof {
            assert(spec_path_views(current@)[i as int] == current@[i as int]@);
        }
        if !vec_contains_str(tree_paths, cp.as_str()) {
            let ghost pv = r@;
            r.push(cp.clone());
            proof {
                crate::scan::lemma_path_views_push(pv, current@[i as int]);
            }
        }
        proof {
            let sub_new = spec_path_views(current@.subrange(0, i as int + 1));
            let sub_old = spec_path_views(current@.subrange(0, i as int));
            assert(sub_new.len() == i + 1);
            assert forall|j: int| 0 <= j < i + 1 implies #[trigger] sub_new[j] == current@[j]@ by {
                assert(current@.subrange(0, i as int + 1)[j] == current@[j]);
            }
            assert forall|j: int| 0 <= j < i implies #[trigger] sub_old[j] == current@[j]@ by {
                assert(current@.subrange(0, i as int)[j] == current@[j]);
            }
            let cv = current@[i as int]@;
            let new_views = spec_path_views(r@);
            // uniqueness of `current` means cv appears in the prefix only at i
            assert forall|p: Seq<char>| #[trigger]
                new_views.contains(p) implies (sub_new.contains(p) && !spec_path_views(
                tree_paths@,
            ).contains(p)) by {
                if pre_views.contains(p) {
                    assert(sub_old.contains(p));
                    let w = choose|w: int| 0 <= w < sub_old.len() && sub_old[w] == p;
                    assert(sub_new[w] == p);
                } else {
                    let w = choose|w: int| 0 <= w < new_views.len() && new_views[w] == p;
                    assert(new_views[w] == r@[w]@);
                    if w < pre.len() {
                        assert(pre_views[w] == pre[w]@);
                        assert(pre_views.contains(p));
                        assert(false);
                    } else {
                        assert(p == cv);
                        assert(sub_new[i as int] == cv);
                    }
                }
            }
            assert forall|p: Seq<char>|
                (sub_new.contains(p) && !spec_path_views(tree_paths@).contains(p))
                    implies #[trigger] new_views.contains(p) by {
                let w = choose|w: int| 0 <= w < sub_new.len() && sub_new[w] == p;
                if w < i {
                    assert(sub_old[w] == p);
                    assert(sub_old.contains(p));
                    assert(pre_views.contains(p));
                    let u = choose|u: int| 0 <= u < pre_views.len() && pre_views[u] == p;
                    assert(pre_views[u] == pre[u]@);
                    assert(new_views[u] == r@[u]@);
                    assert(r@[u] == pre[u]);
                } else {
                    assert(p == cv);
                    if spec_path_views(tree_paths@).contains(cv) {
                        assert(false);
                    } else {
                        assert(r@ == pre.push(current@[i as int]));
                        assert(new_views[new_views.len() - 1] == r@[r@.len() - 1]@);
                    }
                }
            }
            assert forall|a: int, c: int|
                0 <= a < c < new_views.len() implies new_views[a] != new_views[c] by {
                if c < pre.len() {
                    assert(pre_views[a] == pre[a]@);
                    assert(pre_views[c] == pre[c]@);
                    assert(new_views[a] == pre_views[a]);
                    assert(new_views[c] == pre_views[c]);
                } else {
                    assert(new_views[c] == cv);
                    assert(new_views[a] == pre_views[a]);
                    if new_views[a] == cv {
                        assert(pre_views.contains(cv));
                        assert(sub_old.contains(cv));
                        let w = choose|w: int| 0 <= w < sub_old.len() && sub_old[w] == cv;
                        assert(spec_path_views(current@)[w] == current@[w]@);
                        assert(spec_path_views(current@)[i as int] == cv);
                        assert(false);
                    }
                }
            }
        }
        i = i + 1;
    }
    proof {
        assert(current@.subrange(0, current@.len() as int) =~= current@);
        assert forall|p: Seq<char>| #[trigger]
            spec_path_views(r@).contains(p) implies (spec_is_current(entries@, p)
            && !spec_path_views(tree_paths@).contains(p)) by {}
        assert forall|p: Seq<char>|
            (spec_is_current(entries@, p) && !spec_path_views(tree_paths@).contains(p))
                implies #[trigger] spec_path_views(r@).contains(p) by {
            assert(spec_path_views(current@).contains(p));
        }
    }
    r
}

/// The action that recreates the blob entry `b` on disk, over the store
/// model: a `Link` entry becomes a symlink at the entry's path whose
/// target is its blob's text; any other entry is written as a file at the
/// entry's path with its blob's bytes, executable exactly when the kind is
/// `BlobExecutable`.
pub open spec fn spec_restores_blob(b: TreeBlob, a: RestoreAction) -> bool {
    if b.kind == TreeEntryKind::Link {
        a matches RestoreAction::MakeSymlink { path, target } && path@ == b.path@ && target@
            == utf8_lossy_of(blob_data_of(b.oid))
    } else {
        a matches RestoreAction::WriteFile { path, data, executable } && path@ == b.path@ && data@
            == blob_data_of(b.oid) && executable == (b.kind == TreeEntryKind::BlobExecutable)
    }
}

/// The actions that materialize the enumerated blobs onto disk: exactly
/// one action per blob, in order, each recreating its entry — symlinks
/// with their target text, executable blobs with the execute bit, plain
/// blobs as plain files. Directories are created by the executor as
/// needed.
pub fn restore_actions(repo: &gix::Repository, blobs: &Vec<TreeBlob>) -> (r: Result<
    Vec<RestoreAction>,
    AgtError,
>)
    ensures
        r matches Ok(actions) ==> {
            &&& actions@.len() == blobs@.len()
            &&& forall|i: int|
                0 <= i < blobs@.len() ==> spec_restores_blob(blobs@[i], #[trigger] actions@[i])
        },
{
    let mut out: Vec<RestoreAction> = Vec::new();
    let mut i: usize = 0;
    while i < blobs.len()
        invariant
            i <= blobs@.len(),
            out@.len() == i,
            forall|j: int| 0 <= j < i ==> spec_restores_blob(blobs@[j], #[trigger] out@[j]),
        decreases blobs@.len() - i,
    {
        let b = &blobs[i];
        let data = find_blob_bytes(repo, &b.oid)?;
        let target = if matches!(b.kind, TreeEntryKind::Link) {
            bytes_to_string_lossy(&data)
        } else {
            string_from_chars(&chars_of(""))
        };
        let action = action_for_entry(b.path.clone(), b.kind, data, target);
        proof {
            assert(spec_restores_blob(blobs@[i as int], action));
        }
        out.push(action);
        i = i + 1;
    }
    Ok(out)
}

/// The staged-state blob of a shadow tree, if the snapshot carried one: a
/// blob at the fixed tree path `_/index` holds the bytes to copy over the
/// sandbox's git index after a restore; with no such entry the index is
/// left as the reset produced it.
pub fn staged_index_bytes(repo: &gix::Repository, blobs: &Vec<TreeBlob>) -> (r: Result<
    Option<Vec<u8>>,
    AgtError,
>)
    ensures
        r matches Ok(found) ==> match found {
            Some(d) => exists|i: int|
                0 <= i < blobs@.len() && (#[trigger] blobs@[i].path@) == "_/index"@ && d@
                    == blob_data_of(blobs@[i].oid),
            None => forall|i: int|
                0 <= i < blobs@.len() ==> (#[trigger] blobs@[i].path@) != "_/index"@,
        },
{
    let mut i: usize = 0;
    while i < blobs.len()
        invariant
            i <= blobs@.len(),
            forall|j: int| 0 <= j < i ==> (#[trigger] blobs@[j].path@) != "_/index"@,
        decreases blobs@.len() - i,
    {
        if crate::strutil::str_eq(blobs[i].path.as_str(), "_/index") {
            let data = find_blob_bytes(repo, &blobs[i].oid)?;
            return Ok(Some(data));
        }
        i = i + 1;
    }
    Ok(None)
}

/// Point the shadow branch at the restored commit, whatever it pointed at
/// before.
pub fn repoint_shadow_branch(
    repo: &gix::Repository,
    prefix: &str,
    session_id: &str,
    shadow: &gix::ObjectId,
) -> (r: Result<String, AgtError>)
    ensures
        r matches Ok(name) ==> name@ == "refs/heads/"@ + prefix@ + session_id@,
{
    let branch_name = crate::session::branch_name_for(prefix, session_id);
    let branch_ref = crate::session::branch_ref_for(branch_name.as_str());
    proof {
        assert(branch_ref@ =~= "refs/heads/"@ + prefix@ + session_id@);
    }
    set_ref(repo, branch_ref.as_str(), shadow, false, "agt session restore")?;
    Ok(branch_ref)
}

/// Create the shadow branch of a new session at its starting commit; the
/// ref must not exist yet — this is the commit point of session creation.
pub fn create_shadow_branch(
    repo: &gix::Repository,
    prefix: &str,
    session_id: &str,
    start: &gix::ObjectId,
) -> (r: Result<String, AgtError>)
    ensures
        r matches Ok(name) ==> name@ == "refs/heads/"@ + prefix@ + session_id@,
{
    let branch_name = crate::session::branch_name_for(prefix, session_id);
    let branch_ref = crate::session::branch_ref_for(branch_name.as_str());
    proof {
        assert(branch_ref@ =~= "refs/heads/"@ + prefix@ + session_id@);
    }
    set_ref(repo, branch_ref.as_str(), start, true, "agt session new")?;
    Ok(branch_ref)
}

/// Delete the shadow branch a session recorded, by its branch name, if
/// the ref exists; reports whether it did. Removal goes by the recorded
/// name, so a prefix changed since creation still hits the right ref.
pub fn delete_shadow_branch(repo: &gix::Repository, branch_name: &str) -> (r: Result<
    bool,
    AgtError,
>)
{
    let branch_ref = crate::session::branch_ref_for(branch_name);
    crate::gitstore::delete_ref(repo, branch_ref.as_str())
}

} // verus!
