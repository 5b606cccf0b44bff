use vstd::prelude::*;

verus! {

// ---------------------------------------------------------------------------
// Entry classification and restore actions: how a disk file maps to a git
// tree entry when committed, and how an entry maps back to disk work when
// restored. The round-trip laws at the bottom pin both directions.
// ---------------------------------------------------------------------------

/// The kinds of git tree entry the snapshot engine deals in.
#[derive(Clone, Copy, Debug, PartialEq, Eq, Structural)]
pub enum TreeEntryKind {
    Blob,
    BlobExecutable,
    Link,
    Tree,
    Commit,
}

/// How a disk file is classified when committed: symlinks become `Link`
/// entries, files with any execute bit become `BlobExecutable`, the rest
/// plain `Blob`.
pub open spec fn spec_classify(is_symlink: bool, executable: bool) -> TreeEntryKind {
    if is_symlink {
        TreeEntryKind::Link
    } else if executable {
        TreeEntryKind::BlobExecutable
    } else {
        TreeEntryKind::Blob
    }
}

/// Executable counterpart of `spec_classify`.
pub fn classify_entry_kind(is_symlink: bool, executable: bool) -> (r: TreeEntryKind)
    ensures
        r == spec_classify(is_symlink, executable),
{
    if is_symlink {
        TreeEntryKind::Link
    } else if executable {
        TreeEntryKind::BlobExecutable
    } else {
        TreeEntryKind::Blob
    }
}

// ---------------------------------------------------------------------------
// Restore side: turning a tree entry back into the action that recreates
// it on disk.
// ---------------------------------------------------------------------------

/// One step of materializing a tree onto disk.
pub enum RestoreAction {
    /// Create the directory (and its parents).
    MakeDir { path: String },
    /// Write the file's bytes; set the execute bits when `executable`.
    WriteFile { path: String, data: Vec<u8>, executable: bool },
    /// Create a symbolic link pointing at `target`.
    MakeSymlink { path: String, target: String },
}

/// Whether restoring an entry of this kind creates a symbolic link.
pub open spec fn spec_restore_makes_symlink(kind: TreeEntryKind) -> bool {
    kind == TreeEntryKind::Link
}

/// Whether restoring an entry of this kind sets the execute bits.
pub open spec fn spec_restore_sets_execute(kind: TreeEntryKind) -> bool {
    kind == TreeEntryKind::BlobExecutable
}

/// Build the restore action for a blob entry: symlink entries become
/// symlinks pointing at the blob's text, executable blobs get their execute
/// bit back, plain blobs are written as plain files.
pub fn action_for_entry(path: String, kind: TreeEntryKind, data: Vec<u8>, link_target: String) -> (r:
    RestoreAction)
    ensures
        kind == TreeEntryKind::Link ==> (r matches RestoreAction::MakeSymlink { path: p, target: t }
            && p@ == path@ && t@ == link_target@),
        kind != TreeEntryKind::Link ==> (r matches RestoreAction::WriteFile {
            path: p,
            data: d,
            executable: x,
        } && p@ == path@ && d@ == data@ && x == (kind == TreeEntryKind::BlobExecutable)),
{
    if kind == TreeEntryKind::Link {
        RestoreAction::MakeSymlink { path, target: link_target }
    } else {
        RestoreAction::WriteFile {
            path,
            data,
            executable: kind == TreeEntryKind::BlobExecutable,
        }
    }
}

/// Executable files round-trip: a file committed with any execute bit set
/// is classified `BlobExecutable`, and restoring a `BlobExecutable` entry
/// recreates the file with its execute bit set; a file without the bit
/// comes back without it.
pub proof fn lemma_executable_round_trip()
    ensures
        spec_classify(false, true) == TreeEntryKind::BlobExecutable,
        spec_restore_sets_execute(spec_classify(false, true)),
        !spec_restore_sets_execute(spec_classify(false, false)),
        !spec_restore_makes_symlink(spec_classify(false, true)),
{
}

/// Symlinks round-trip: a symlink is committed as a `Link` entry whose
/// blob content is the link target, and restoring a `Link` entry recreates
/// a symlink with exactly that target.
pub proof fn lemma_symlink_round_trip()
    ensures
        spec_classify(true, false) == TreeEntryKind::Link,
        spec_classify(true, true) == TreeEntryKind::Link,
        spec_restore_makes_symlink(TreeEntryKind::Link),
        !spec_restore_sets_execute(TreeEntryKind::Link),
{
}

} // verus!
