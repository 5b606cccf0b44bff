use std::time::UNIX_EPOCH;
use vstd::prelude::*;
use crate::errors::AgtError;
use crate::filter::spec_starts_with;
use crate::scan::WalkEntry;
use crate::session::HeadState;
use crate::treemodel::TreeEntryKind;

verus! {

// ---------------------------------------------------------------------------
// The object-store boundary. Every call into the gix object database and
// into the directory walker goes through one of the wrappers below.
//
// Git's object database is content-addressed: an object id is a digest of
// the object's bytes, so one id denotes one blob, one tree, one commit —
// in every store and on every machine. That makes the store's contents
// nameable: the uninterpreted functions below give the bytes behind a blob
// id, the flat entry map behind a tree id, the fields behind a commit id,
// and the entry map a tree editor holds. The wrappers' contracts say, over
// those names, exactly what the gix sources show each call doing; results
// that depend on more than their arguments (what a ref points at, what a
// walk finds on disk) carry no claims, and the verified callers say the
// rest over the values they receive.
// ---------------------------------------------------------------------------

#[verifier::external_type_specification]
#[verifier::external_body]
pub struct ExRepository(gix::Repository);

#[verifier::external_type_specification]
#[verifier::external_body]
pub struct ExObjectId(gix::ObjectId);

#[verifier::external_type_specification]
#[verifier::external_body]
pub struct ExTreeEditor<'a>(gix::object::tree::Editor<'a>);

#[verifier::external_type_specification]
#[verifier::external_body]
pub struct ExGixEntryKind(gix::objs::tree::EntryKind);

/// What one blob path of a tree holds: the entry's kind and the bytes of
/// the blob it points at.
pub struct StoredEntry {
    pub kind: TreeEntryKind,
    pub data: Seq<u8>,
}

/// Whether the tree path `k` is `p` itself or lies below it: removing the
/// entry at `p` takes exactly the entries covered by `p`.
pub open spec fn spec_tree_covers(p: Seq<char>, k: Seq<char>) -> bool {
    k == p || spec_starts_with(k, p + seq!['/'])
}

/// The bytes of the blob that `id` names. Blob ids are content addresses:
/// one id denotes one byte sequence.
pub uninterp spec fn blob_data_of(id: gix::ObjectId) -> Seq<u8>;

/// The flat entry map of the tree that `id` names: every blob path
/// reachable from it, with its kind and its blob's bytes. Tree ids are
/// content addresses: one id denotes one tree.
pub uninterp spec fn tree_entries_of(id: gix::ObjectId) -> Map<Seq<char>, StoredEntry>;

/// The entry map a tree editor currently holds; the editor is the one
/// collection of the outside crate the tree builder works in, and the
/// wrappers of its methods below say how each call changes this map.
pub uninterp spec fn editor_entries(ed: gix::object::tree::Editor) -> Map<Seq<char>, StoredEntry>;

/// The tree a commit points at. Commit ids are content addresses: one id
/// denotes one commit with its fields.
pub uninterp spec fn commit_tree_of(id: gix::ObjectId) -> gix::ObjectId;

/// The parent ids of a commit, in order.
pub uninterp spec fn commit_parents_of(id: gix::ObjectId) -> Seq<gix::ObjectId>;

/// The message of a commit.
pub uninterp spec fn commit_message_of(id: gix::ObjectId) -> Seq<char>;

/// The author name of a commit (author and committer are written alike
/// here).
pub uninterp spec fn commit_author_name_of(id: gix::ObjectId) -> Seq<char>;

/// The author email of a commit.
pub uninterp spec fn commit_author_email_of(id: gix::ObjectId) -> Seq<char>;

/// The text `String::from_utf8_lossy` decodes from these bytes: a function
/// of the bytes alone.
pub uninterp spec fn utf8_lossy_of(data: Seq<u8>) -> Seq<char>;

/// A resolved commit: its id, its tree, and its parent ids in order.
pub struct CommitInfo {
    pub id: gix::ObjectId,
    pub tree: gix::ObjectId,
    pub parents: Vec<gix::ObjectId>,
}

/// One entry of one tree object: its file name, its kind, and the id of
/// what it points at.
pub struct RawTreeEntry {
    pub name: String,
    pub kind: TreeEntryKind,
    pub oid: gix::ObjectId,
}

/// Relies on `gix::open`: opens the repository at `path`.
#[verifier::external_body]
pub(crate) fn open_repo_at(path: &str) -> (r: Result<gix::Repository, AgtError>)
{
    gix::open(path).map_err(|e| AgtError::object_store(e.to_string()))
}

/// Relies on `gix::Repository::find_reference` and
/// `gix::Reference::peel_to_commit`: resolves a ref to the commit it
/// points at. The returned tree and parents are the fields of the commit
/// the returned id names.
#[verifier::external_body]
pub(crate) fn resolve_ref_commit(repo: &gix::Repository, ref_name: &str) -> (r: Result<
    CommitInfo,
    AgtError,
>)
    ensures
        r matches Ok(c) ==> c.tree == commit_tree_of(c.id) && c.parents@ == commit_parents_of(
            c.id,
        ),
{
    let mut reference = repo.find_reference(ref_name).map_err(
        |e| AgtError::object_store(e.to_string()),
    )?;
    let commit = reference.peel_to_commit().map_err(|e| AgtError::object_store(e.to_string()))?;
    let tree = commit.tree_id().map_err(|e| AgtError::object_store(e.to_string()))?.detach();
    let parents: Vec<gix::ObjectId> = commit.parent_ids().map(|p| p.detach()).collect();
    Ok(CommitInfo { id: commit.id, tree, parents })
}

/// Relies on `gix::Repository::rev_parse_single` and peeling to a commit:
/// resolves a revision spec to a commit, with the fields the returned id
/// names.
#[verifier::external_body]
pub(crate) fn rev_parse_commit(repo: &gix::Repository, spec_text: &str) -> (r: Result<
    CommitInfo,
    AgtError,
>)
    ensures
        r matches Ok(c) ==> c.tree == commit_tree_of(c.id) && c.parents@ == commit_parents_of(
            c.id,
        ),
{
    let obj = repo.rev_parse_single(spec_text).map_err(
        |e| AgtError::object_store(e.to_string()),
    )?.object().map_err(|e| AgtError::object_store(e.to_string()))?;
    let commit = obj.peel_to_commit().map_err(|e| AgtError::object_store(e.to_string()))?;
    let tree = commit.tree_id().map_err(|e| AgtError::object_store(e.to_string()))?.detach();
    let parents: Vec<gix::ObjectId> = commit.parent_ids().map(|p| p.detach()).collect();
    Ok(CommitInfo { id: commit.id, tree, parents })
}

/// Relies on `gix_object::tree::EntryKind`: tells the entry kinds of the
/// outside enum apart, one variant each.
#[verifier::external_body]
pub(crate) fn tree_entry_kind(k: gix::objs::tree::EntryKind) -> (r: TreeEntryKind)
{
    match k {
        gix::objs::tree::EntryKind::Tree => TreeEntryKind::Tree,
        gix::objs::tree::EntryKind::Blob => TreeEntryKind::Blob,
        gix::objs::tree::EntryKind::BlobExecutable => TreeEntryKind::BlobExecutable,
        gix::objs::tree::EntryKind::Link => TreeEntryKind::Link,
        gix::objs::tree::EntryKind::Commit => TreeEntryKind::Commit,
    }
}

/// Relies on `gix::Repository::find_object` and `TreeRefIter`: lists one
/// tree object's entries with their kinds.
#[verifier::external_body]
pub(crate) fn read_tree_entries(repo: &gix::Repository, tree: &gix::ObjectId) -> (r: Result<
    Vec<RawTreeEntry>,
    AgtError,
>)
{
    let obj = repo.find_object(*tree).map_err(|e| AgtError::object_store(e.to_string()))?;
    let tree_obj = obj.try_into_tree().map_err(|e| AgtError::object_store(e.to_string()))?;
    let mut out = Vec::new();
    for e in gix::objs::TreeRefIter::from_bytes(&tree_obj.data, gix::hash::Kind::Sha1) {
        let e = e.map_err(|x| AgtError::object_store(x.to_string()))?;
        let kind = tree_entry_kind(e.mode.kind());
        out.push(RawTreeEntry { name: e.filename.to_string(), kind, oid: e.oid.to_owned() });
    }
    Ok(out)
}

/// Relies on `gix::Repository::find_object` and `try_into_blob`: the
/// bytes of the blob the id names.
#[verifier::external_body]
pub(crate) fn find_blob_bytes(repo: &gix::Repository, oid: &gix::ObjectId) -> (r: Result<
    Vec<u8>,
    AgtError,
>)
    ensures
        r matches Ok(d) ==> d@ == blob_data_of(*oid),
{
    let obj = repo.find_object(*oid).map_err(|e| AgtError::object_store(e.to_string()))?;
    let blob = obj.try_into_blob().map_err(|e| AgtError::object_store(e.to_string()))?;
    Ok(blob.data.clone())
}

/// Relies on `gix::Repository::write_blob`: writes the bytes as a blob
/// object; the returned id is their content address.
#[verifier::external_body]
pub(crate) fn write_blob(repo: &gix::Repository, data: &Vec<u8>) -> (r: Result<
    gix::ObjectId,
    AgtError,
>)
    ensures
        r matches Ok(id) ==> blob_data_of(id) == data@,
{
    repo.write_blob(data.as_slice()).map(|id| id.detach()).map_err(
        |e| AgtError::object_store(e.to_string()),
    )
}

/// Relies on `gix::Repository::edit_tree`: opens a tree editor seeded
/// with the given tree, so the editor holds exactly that tree's entries.
#[verifier::external_body]
pub(crate) fn tree_editor<'r>(repo: &'r gix::Repository, base: &gix::ObjectId) -> (r: Result<
    gix::object::tree::Editor<'r>,
    AgtError,
>)
    ensures
        r matches Ok(ed) ==> editor_entries(ed) == tree_entries_of(*base),
{
    repo.edit_tree(*base).map_err(|e| AgtError::object_store(e.to_string()))
}

/// Relies on `gix::object::tree::Editor::remove`: drops the entry at the
/// tree path, subtree and all; a path that leads nowhere changes nothing.
#[verifier::external_body]
pub(crate) fn editor_remove(ed: &mut gix::object::tree::Editor, path: &str) -> (r: Result<
    (),
    AgtError,
>)
    ensures
        r is Ok ==> editor_entries(*final(ed)) == editor_entries(*old(ed)).remove_keys(
            Set::new(|k: Seq<char>| spec_tree_covers(path@, k)),
        ),
{
    ed.remove(path).map(|_| ()).map_err(|e| AgtError::object_store(e.to_string()))
}

/// Relies on `gix::object::tree::Editor::upsert`: sets the entry at the
/// tree path to the given blob. Whatever stood at the path — a blob or a
/// whole subtree — is replaced, and a blob standing at an ancestor of the
/// path becomes a tree on the way down.
#[verifier::external_body]
pub(crate) fn editor_upsert(
    ed: &mut gix::object::tree::Editor,
    path: &str,
    kind: TreeEntryKind,
    oid: &gix::ObjectId,
) -> (r: Result<(), AgtError>)
    requires
        kind != TreeEntryKind::Tree,
        kind != TreeEntryKind::Commit,
    ensures
        r is Ok ==> editor_entries(*final(ed)) == editor_entries(*old(ed)).remove_keys(
            Set::new(
                |k: Seq<char>|
                    spec_tree_covers(path@, k) || (k != path@ && spec_tree_covers(k, path@)),
            ),
        ).insert(path@, StoredEntry { kind, data: blob_data_of(*oid) }),
{
    let gk = match kind {
        TreeEntryKind::Tree => gix::objs::tree::EntryKind::Tree,
        TreeEntryKind::Blob => gix::objs::tree::EntryKind::Blob,
        TreeEntryKind::BlobExecutable => gix::objs::tree::EntryKind::BlobExecutable,
        TreeEntryKind::Link => gix::objs::tree::EntryKind::Link,
        TreeEntryKind::Commit => gix::objs::tree::EntryKind::Commit,
    };
    ed.upsert(path, gk, *oid).map(|_| ()).map_err(|e| AgtError::object_store(e.to_string()))
}

/// Relies on `gix::object::tree::Editor::write`: writes the edited trees
/// to the object database; the returned id names a tree holding exactly
/// the editor's entries.
#[verifier::external_body]
pub(crate) fn editor_write(ed: &mut gix::object::tree::Editor) -> (r: Result<
    gix::ObjectId,
    AgtError,
>)
    ensures
        r matches Ok(t) ==> tree_entries_of(t) == editor_entries(*old(ed)),
{
    ed.write().map(|id| id.detach()).map_err(|e| AgtError::object_store(e.to_string()))
}

/// Relies on `gix::Repository::commit_as`: writes a commit object with
/// the given author/committer identity and time (seconds since the epoch,
/// UTC), message, tree and parents — in the order given — and points
/// `ref_name` at it. The update demands that the ref currently points at
/// the first parent, so a moved shadow head fails the commit.
#[verifier::external_body]
pub(crate) fn write_commit(
    repo: &gix::Repository,
    ref_name: &str,
    message: &str,
    tree: &gix::ObjectId,
    parents: &Vec<gix::ObjectId>,
    author_name: &str,
    author_email: &str,
    time_secs: u64,
) -> (r: Result<gix::ObjectId, AgtError>)
    ensures
        r matches Ok(id) ==> commit_tree_of(id) == *tree && commit_parents_of(id) == parents@
            && commit_message_of(id) == message@ && commit_author_name_of(id) == author_name@
            && commit_author_email_of(id) == author_email@,
{
    let time = format!("{} +0000", time_secs);
    let sig = gix::actor::SignatureRef {
        name: author_name.into(),
        email: author_email.into(),
        time: &time,
    };
    repo.commit_as(sig, sig, ref_name, message, *tree, parents.iter().copied()).map(
        |id| id.detach(),
    ).map_err(|e| AgtError::object_store(e.to_string()))
}

/// Relies on `gix::Repository::reference`: points `ref_name` at `target`.
/// With `must_not_exist` the update fails if the ref already exists and
/// points elsewhere (pointing it at the same target again is a no-op);
/// otherwise any previous value is replaced.
#[verifier::external_body]
pub(crate) fn set_ref(
    repo: &gix::Repository,
    ref_name: &str,
    target: &gix::ObjectId,
    must_not_exist: bool,
    log_message: &str,
) -> (r: Result<(), AgtError>)
{
    let constraint = if must_not_exist {
        gix::refs::transaction::PreviousValue::MustNotExist
    } else {
        gix::refs::transaction::PreviousValue::Any
    };
    repo.reference(ref_name, *target, constraint, log_message).map(|_| ()).map_err(
        |e| AgtError::object_store(e.to_string()),
    )
}

/// Relies on `gix::Repository::find_reference` and
/// `gix::Reference::delete`: deletes the ref if it exists; reports
/// whether it did.
#[verifier::external_body]
pub(crate) fn delete_ref(repo: &gix::Repository, ref_name: &str) -> (r: Result<bool, AgtError>)
{
    match repo.find_reference(ref_name) {
        Ok(reference) => reference.delete().map(|_| true).map_err(
            |e| AgtError::object_store(e.to_string()),
        ),
        Err(_) => Ok(false),
    }
}

/// Relies on `gix::Repository::find_reference`: whether the ref exists.
#[verifier::external_body]
pub(crate) fn ref_exists(repo: &gix::Repository, ref_name: &str) -> (r: bool)
{
    repo.find_reference(ref_name).is_ok()
}

/// Relies on `gix::Repository::head`: how HEAD stands — unborn, detached,
/// or on a branch, whose full ref name is returned.
#[verifier::external_body]
pub(crate) fn head_state(repo: &gix::Repository) -> (r: Result<HeadState, AgtError>)
{
    let head = repo.head().map_err(|e| AgtError::object_store(e.to_string()))?;
    if head.is_unborn() {
        return Ok(HeadState::Unborn);
    }
    if head.is_detached() {
        return Ok(HeadState::Detached);
    }
    match head.referent_name() {
        Some(name) => Ok(HeadState::Branch(name.as_bstr().to_string())),
        None => Ok(HeadState::Detached),
    }
}

/// Relies on `gix::Repository::is_bare`.
#[verifier::external_body]
pub(crate) fn repo_is_bare(repo: &gix::Repository) -> (r: bool)
{
    repo.is_bare()
}

/// Relies on `gix::Repository::common_dir`: the shared git directory.
#[verifier::external_body]
pub(crate) fn repo_common_dir(repo: &gix::Repository) -> (r: String)
{
    repo.common_dir().to_string_lossy().into_owned()
}

/// Relies on `gix::Repository::workdir`: the working directory, if the
/// repository has one.
#[verifier::external_body]
pub(crate) fn repo_work_dir(repo: &gix::Repository) -> (r: Option<String>)
{
    repo.workdir().map(|p| p.to_string_lossy().into_owned())
}

/// Relies on `gix::ObjectId`'s hexadecimal rendering.
#[verifier::external_body]
pub(crate) fn oid_hex(oid: &gix::ObjectId) -> (r: String)
{
    oid.to_string()
}

/// Relies on `jwalk::WalkDir`: walks `root` recursively, hidden entries
/// included, and reports each entry's path relative to `root`, whether it
/// is a directory or a symlink, and its symlink-metadata modification
/// time. An unreadable modification time is an error; one before the
/// epoch reads as zero.
#[verifier::external_body]
pub(crate) fn walk_dir_entries(root: &str) -> (r: Result<Vec<WalkEntry>, AgtError>)
{
    let mut out = Vec::new();
    for e in jwalk::WalkDir::new(root).skip_hidden(false) {
        let e = e.map_err(|x| AgtError::filesystem(x.to_string()))?;
        let md = e.metadata().map_err(|x| AgtError::filesystem(x.to_string()))?;
        let t = md.modified().map_err(|x| AgtError::filesystem(x.to_string()))?;
        let p = e.path();
        out.push(WalkEntry {
            rel_path: p.strip_prefix(root).unwrap_or(&p).to_string_lossy().into_owned(),
            is_dir: e.file_type().is_dir(),
            is_symlink: e.file_type().is_symlink(),
            mtime: t.duration_since(UNIX_EPOCH).map_or(0, |d| d.as_secs()),
        });
    }
    Ok(out)
}

/// Relies on `String::from_utf8_lossy`: the bytes decoded as UTF-8 with
/// invalid sequences replaced — a function of the bytes alone.
#[verifier::external_body]
pub(crate) fn bytes_to_string_lossy(data: &Vec<u8>) -> (r: String)
    ensures
        r@ == utf8_lossy_of(data@),
{
    String::from_utf8_lossy(data.as_slice()).into_owned()
}

} // verus!
