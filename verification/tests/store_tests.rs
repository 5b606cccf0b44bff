use agt::autocommit::{build_tree_from_delta, commit_snapshot, ChangedFile};
use agt::gitstore::CommitInfo;
use agt::restore::{
    create_shadow_branch, delete_shadow_branch, repoint_shadow_branch, validate_shadow_commit,
};
use agt::treemodel::RestoreAction;
use agt::treewalk::{collect_tree_blobs, collect_tree_paths};
use std::io::Write;

fn test_signature() -> gix::actor::SignatureRef<'static> {
    gix::actor::SignatureRef { name: "Test User".into(), email: "test@example.com".into(), time: "1700000000 +0000" }
}

fn init_repo(dir: &std::path::Path) -> gix::Repository {
    let mut repo = gix::init(dir).expect("init repository");
    {
        let mut cfg = repo.config_snapshot_mut();
        cfg.set_value(&gix::config::tree::User::NAME, "Test User").unwrap();
        cfg.set_value(&gix::config::tree::User::EMAIL, "test@example.com").unwrap();
        cfg.commit().unwrap();
    }
    repo
}

fn empty_tree(repo: &gix::Repository) -> gix::ObjectId {
    repo.write_object(gix::objs::Tree::empty()).expect("write empty tree").detach()
}

fn commit_tree(
    repo: &gix::Repository,
    reference: &str,
    tree: gix::ObjectId,
    parents: Vec<gix::ObjectId>,
) -> gix::ObjectId {
    let sig = test_signature();
    repo.commit_as(sig, sig, reference, "base", tree, parents).expect("commit").detach()
}

fn changed(path: &str, data: &[u8], is_symlink: bool, executable: bool) -> ChangedFile {
    ChangedFile { path: path.to_string(), is_symlink, executable, data: data.to_vec() }
}

#[test]
fn tree_building_and_enumeration_round_trip() {
    let tmp = tempfile::TempDir::new().unwrap();
    let repo = init_repo(tmp.path());
    let base = empty_tree(&repo);

    let files = vec![
        changed("a.txt", b"hello", false, false),
        changed("dir/b.txt", b"b", false, false),
        changed("tool.sh", b"#!/bin/sh\n", false, true),
        changed("ln", b"target.txt", true, false),
    ];
    let tree = build_tree_from_delta(&repo, &base, &vec![], &files).unwrap();
    let mut paths = collect_tree_paths(&repo, &tree).unwrap();
    paths.sort();
    assert_eq!(paths, vec!["a.txt", "dir/b.txt", "ln", "tool.sh"]);

    // removing a path and touching another yields the expected tree
    let tree2 = build_tree_from_delta(
        &repo,
        &tree,
        &vec!["a.txt".to_string()],
        &vec![changed("dir/b.txt", b"", false, false)],
    )
    .unwrap();
    let mut paths2 = collect_tree_paths(&repo, &tree2).unwrap();
    paths2.sort();
    assert_eq!(paths2, vec!["dir/b.txt", "ln", "tool.sh"]);
}

#[test]
fn restore_actions_rebuild_kinds_and_contents() {
    let tmp = tempfile::TempDir::new().unwrap();
    let repo = init_repo(tmp.path());
    let base = empty_tree(&repo);
    let files = vec![
        changed("plain.txt", b"data", false, false),
        changed("run.sh", b"#!/bin/sh\n", false, true),
        changed("link", b"plain.txt", true, false),
    ];
    let tree = build_tree_from_delta(&repo, &base, &vec![], &files).unwrap();
    let blobs = collect_tree_blobs(&repo, &tree).unwrap();
    let actions = agt::restore::restore_actions(&repo, &blobs).unwrap();
    assert_eq!(actions.len(), 3);
    let mut saw_plain = false;
    let mut saw_exec = false;
    let mut saw_link = false;
    for a in &actions {
        match a {
            RestoreAction::WriteFile { path, data, executable } => {
                if path == "plain.txt" {
                    assert_eq!(data.as_slice(), b"data");
                    assert!(!*executable);
                    saw_plain = true;
                } else {
                    assert_eq!(path, "run.sh");
                    assert_eq!(data.as_slice(), b"#!/bin/sh\n");
                    assert!(*executable);
                    saw_exec = true;
                }
            }
            RestoreAction::MakeSymlink { path, target } => {
                assert_eq!(path, "link");
                assert_eq!(target, "plain.txt");
                saw_link = true;
            }
            RestoreAction::MakeDir { .. } => {}
        }
    }
    assert!(saw_plain && saw_exec && saw_link);
}

#[test]
fn shadow_commit_has_both_parents_in_order() {
    let tmp = tempfile::TempDir::new().unwrap();
    let repo = init_repo(tmp.path());
    let tree = empty_tree(&repo);
    let user_head = commit_tree(&repo, "refs/heads/main", tree, vec![]);
    let fork_point = user_head;

    let branch_ref = create_shadow_branch(&repo, "agtsessions/", "s1", &fork_point).unwrap();
    assert_eq!(branch_ref, "refs/heads/agtsessions/s1");

    let user_head2 = commit_tree(&repo, "refs/heads/main", tree, vec![user_head]);

    let parent1 = CommitInfo { id: fork_point, tree, parents: vec![] };
    let new_commit =
        commit_snapshot(&repo, &branch_ref, &parent1, &user_head2, &tree, "agt@local", 1700000001)
            .unwrap();

    let found = repo
        .find_reference(&branch_ref)
        .unwrap()
        .peel_to_commit()
        .unwrap();
    assert_eq!(found.id, new_commit);
    let parents: Vec<gix::ObjectId> = found.parent_ids().map(|p| p.detach()).collect();
    assert_eq!(parents, vec![fork_point, user_head2]);
    let commit_obj = found.decode().unwrap();
    assert_eq!(commit_obj.author().unwrap().email.to_string(), "agt@local");
    assert_eq!(commit_obj.message.to_string(), "agt autocommit");
}

#[test]
fn shadow_branch_lifecycle() {
    let tmp = tempfile::TempDir::new().unwrap();
    let repo = init_repo(tmp.path());
    let tree = empty_tree(&repo);
    let c1 = commit_tree(&repo, "refs/heads/main", tree, vec![]);
    let c2 = commit_tree(&repo, "refs/heads/main", tree, vec![c1]);

    create_shadow_branch(&repo, "agtsessions/", "s2", &c1).unwrap();
    // a second creation with the same id must fail: the ref is the commit point
    assert!(create_shadow_branch(&repo, "agtsessions/", "s2", &c2).is_err());

    repoint_shadow_branch(&repo, "agtsessions/", "s2", &c2).unwrap();
    let now_at = repo
        .find_reference("refs/heads/agtsessions/s2")
        .unwrap()
        .peel_to_commit()
        .unwrap()
        .id;
    assert_eq!(now_at, c2);

    assert!(delete_shadow_branch(&repo, "agtsessions/s2").unwrap());
    assert!(repo.find_reference("refs/heads/agtsessions/s2").is_err());
    // removing again is a quiet no-op
    assert!(!delete_shadow_branch(&repo, "agtsessions/s2").unwrap());
}

#[test]
fn scan_against_real_folder() {
    let repo_tmp = tempfile::TempDir::new().unwrap();
    let repo = init_repo(repo_tmp.path());
    let tree = empty_tree(&repo);
    let c1 = commit_tree(&repo, "refs/heads/main", tree, vec![]);
    let branch_ref = create_shadow_branch(&repo, "agtsessions/", "s3", &c1).unwrap();

    let folder = tempfile::TempDir::new().unwrap();
    let sandbox = tempfile::Builder::new().prefix("sandbox").tempdir_in(folder.path()).unwrap();
    let mut file = tempfile::Builder::new()
        .prefix("test")
        .suffix(".txt")
        .tempfile_in(sandbox.path())
        .unwrap();
    file.write_all(b"test content").unwrap();
    file.flush().unwrap();
    let rel = file
        .path()
        .strip_prefix(folder.path())
        .unwrap()
        .to_str()
        .unwrap()
        .to_string();

    let scan = agt::autocommit::autocommit_scan(
        &repo,
        &branch_ref,
        folder.path().to_str().unwrap(),
        0,
    )
    .unwrap();
    assert!(scan.delta.changed.iter().any(|p| *p == rel));
    assert!(scan.delta.deleted.is_empty());
    assert!(scan.base_paths.is_empty());
    assert_eq!(scan.parent1.id, c1);
}

#[test]
fn tree_building_replaces_subtrees_and_converts_ancestors() {
    let tmp = tempfile::TempDir::new().unwrap();
    let repo = init_repo(tmp.path());
    let base = empty_tree(&repo);

    // a directory becomes a file: the whole subtree under it is replaced
    let with_dir = build_tree_from_delta(
        &repo,
        &base,
        &vec![],
        &vec![changed("dir/b.txt", b"b", false, false), changed("x", b"x", false, false)],
    )
    .unwrap();
    let as_file = build_tree_from_delta(
        &repo,
        &with_dir,
        &vec![],
        &vec![changed("dir", b"now a file", false, false)],
    )
    .unwrap();
    let mut paths = collect_tree_paths(&repo, &as_file).unwrap();
    paths.sort();
    assert_eq!(paths, vec!["dir", "x"]);

    // a file becomes a directory: the blob ancestor turns into a tree
    let as_dir = build_tree_from_delta(
        &repo,
        &as_file,
        &vec![],
        &vec![changed("dir/c.txt", b"c", false, false)],
    )
    .unwrap();
    let mut paths2 = collect_tree_paths(&repo, &as_dir).unwrap();
    paths2.sort();
    assert_eq!(paths2, vec!["dir/c.txt", "x"]);

    // deleting a directory path takes everything under it; deleting a
    // missing path changes nothing
    let pruned = build_tree_from_delta(
        &repo,
        &as_dir,
        &vec!["dir".to_string(), "not-there".to_string()],
        &vec![],
    )
    .unwrap();
    assert_eq!(collect_tree_paths(&repo, &pruned).unwrap(), vec!["x"]);
}

#[test]
fn staged_index_blob_lookup() {
    let tmp = tempfile::TempDir::new().unwrap();
    let repo = init_repo(tmp.path());
    let base = empty_tree(&repo);
    let with_index = build_tree_from_delta(
        &repo,
        &base,
        &vec![],
        &vec![changed("_/index", b"staged state", false, false), changed("a.txt", b"a", false, false)],
    )
    .unwrap();
    let blobs = collect_tree_blobs(&repo, &with_index).unwrap();
    let found = agt::restore::staged_index_bytes(&repo, &blobs).unwrap();
    assert_eq!(found.unwrap().as_slice(), b"staged state");

    let without = build_tree_from_delta(&repo, &base, &vec![], &vec![changed("a.txt", b"a", false, false)])
        .unwrap();
    let blobs2 = collect_tree_blobs(&repo, &without).unwrap();
    assert!(agt::restore::staged_index_bytes(&repo, &blobs2).unwrap().is_none());
}

#[test]
fn shadow_commit_validation() {
    let one_parent = CommitInfo {
        id: gix::ObjectId::null(gix::hash::Kind::Sha1),
        tree: gix::ObjectId::null(gix::hash::Kind::Sha1),
        parents: vec![gix::ObjectId::null(gix::hash::Kind::Sha1)],
    };
    let e = validate_shadow_commit(&one_parent).unwrap_err();
    assert_eq!(e.describe(), "Shadow commit must have two parents (shadow + user branch)");

    let p1 = gix::ObjectId::empty_blob(gix::hash::Kind::Sha1);
    let p2 = gix::ObjectId::empty_tree(gix::hash::Kind::Sha1);
    let two = CommitInfo { id: p1, tree: p2, parents: vec![p1, p2] };
    assert_eq!(validate_shadow_commit(&two).unwrap(), p2);
}
