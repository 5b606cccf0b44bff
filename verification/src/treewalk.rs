use vstd::prelude::*;
use crate::errors::AgtError;
use crate::gitstore::{read_tree_entries, RawTreeEntry};
use crate::strutil::str_concat;
use crate::treemodel::TreeEntryKind;

verus! {

// ---------------------------------------------------------------------------
// Tree enumeration: flatten every blob reachable from a tree into its
// slash-separated path. What comes back depends on the object store, so
// the callers treat the listing as given; the path assembly itself is
// verified.
// ---------------------------------------------------------------------------

/// A tree path joined onto a prefix: the name itself at the root, else
/// `prefix/name`.
pub fn tree_path_join(prefix: &str, name: &str) -> (r: String)
    ensures
        prefix@.len() == 0 ==> r@ == name@,
        prefix@.len() > 0 ==> r@ == prefix@ + "/"@ + name@,
{
    if prefix.unicode_len() == 0 {
        crate::strutil::string_from_chars(&crate::strutil::chars_of(name))
    } else {
        str_concat(str_concat(prefix, "/").as_str(), name)
    }
}

/// One flattened non-tree entry: its tree path, its kind, and its blob id.
pub struct TreeBlob {
    pub path: String,
    pub kind: TreeEntryKind,
    pub oid: gix::ObjectId,
}

/// Enumerate every non-tree entry reachable from `root`, with its full
/// tree path: directory entries are descended into, never listed, so no
/// returned entry has kind `Tree`. Subtrees are read one tree object at a
/// time; the traversal gives up on stores nested deeper than any honest
/// repository to stay finite on corrupted object graphs.
pub fn collect_tree_blobs(repo: &gix::Repository, root: &gix::ObjectId) -> (r: Result<
    Vec<TreeBlob>,
    AgtError,
>)
    ensures
        r matches Ok(blobs) ==> forall|i: int|
            0 <= i < blobs@.len() ==> (#[trigger] blobs@[i].kind) != TreeEntryKind::Tree,
{
    let mut out: Vec<TreeBlob> = Vec::new();
    let mut stack: Vec<(String, gix::ObjectId)> = Vec::new();
    stack.push((crate::strutil::string_from_chars(&crate::strutil::chars_of("")), *root));
    let mut budget: usize = 1000000;
    while stack.len() > 0 && budget > 0
        invariant
            forall|j: int|
                0 <= j < out@.len() ==> (#[trigger] out@[j].kind) != TreeEntryKind::Tree,
        decreases budget,
    {
        budget = budget - 1;
        let top = stack.pop();
        match top {
            Some((prefix, tree_id)) => {
                let entries = read_tree_entries(repo, &tree_id)?;
                let mut i: usize = 0;
                while i < entries.len()
                    invariant
                        i <= entries@.len(),
                        forall|j: int|
                            0 <= j < out@.len() ==> (#[trigger] out@[j].kind)
                                != TreeEntryKind::Tree,
                    decreases entries@.len() - i,
                {
                    let e = &entries[i];
                    let path = tree_path_join(prefix.as_str(), e.name.as_str());
                    if matches!(e.kind, TreeEntryKind::Tree) {
                        stack.push((path, e.oid));
                    } else {
                        out.push(TreeBlob { path, kind: e.kind, oid: e.oid });
                    }
                    i = i + 1;
                }
            },
            None => {},
        }
    }
    if stack.len() > 0 {
        return Err(
            AgtError::object_store(
                crate::strutil::string_from_chars(
                    &crate::strutil::chars_of("Tree nesting too deep to enumerate"),
                ),
            ),
        );
    }
    Ok(out)
}

/// Enumerate the blob paths reachable from `root`: the tree paths the
/// snapshot scan compares the disk against.
pub fn collect_tree_paths(repo: &gix::Repository, root: &gix::ObjectId) -> (r: Result<
    Vec<String>,
    AgtError,
>)
{
    let blobs = collect_tree_blobs(repo, root)?;
    let mut out: Vec<String> = Vec::new();
    let mut i: usize = 0;
    while i < blobs.len()
        invariant
            i <= blobs@.len(),
        decreases blobs@.len() - i,
    {
        out.push(blobs[i].path.clone());
        i = i + 1;
    }
    Ok(out)
}

} // verus!
