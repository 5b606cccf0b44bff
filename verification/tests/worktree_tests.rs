use agt::binfind::{candidate_binary_paths, find_named_binary, find_worktree_binary};
use agt::errors::ErrorKind;
use agt::worktree::{validate_add_paths, validate_remove_paths, worktree_metadata_files};

#[test]
fn add_validation() {
    assert!(validate_add_paths("/p/repo.git", "/p/sessions/s1/sandbox", "s1", false, false)
        .is_ok());
    let e = validate_add_paths("/p/repo.git", "/p/sessions/s1/sandbox", "", false, false)
        .unwrap_err();
    assert_eq!(e.describe(), "Worktree name cannot be empty");
    let e2 = validate_add_paths("/p/repo.git", "/p/repo.git/inner", "s1", false, false)
        .unwrap_err();
    assert_eq!(e2.describe(), "Worktree must not be inside the bare repository");
    let e3 = validate_add_paths("/p/repo.git", "/p/sandbox", "s1", true, true).unwrap_err();
    assert_eq!(e3.describe(), "Worktree path must be empty");
    assert_eq!(e3.kind, ErrorKind::Precondition);
    // an existing but empty worktree directory is fine
    assert!(validate_add_paths("/p/repo.git", "/p/sandbox", "s1", true, false).is_ok());
}

#[test]
fn remove_validation() {
    assert!(validate_remove_paths("/p/repo.git", "/p/sandbox", "s1").is_ok());
    assert!(validate_remove_paths("/p/repo.git", "/p/sandbox", "").is_err());
    assert!(validate_remove_paths("/p/repo.git", "/p/repo.git/x", "s1").is_err());
}

#[test]
fn metadata_files_are_bit_exact() {
    let files = worktree_metadata_files(
        "/p/sandbox",
        "/p/repo.git/worktrees/s1",
        "/abs/repo.git/worktrees/s1",
        "/abs/sandbox/.git",
        "refs/heads/agtsessions/s1",
        "a94a8fe5ccb19ba61c4c0873d391e987982fbbd3",
    );
    assert_eq!(files.len(), 5);
    assert_eq!(files[0].path, "/p/sandbox/.git");
    assert_eq!(files[0].contents, "gitdir: /abs/repo.git/worktrees/s1\n");
    assert_eq!(files[1].path, "/p/repo.git/worktrees/s1/gitdir");
    assert_eq!(files[1].contents, "/abs/sandbox/.git\n");
    assert_eq!(files[2].path, "/p/repo.git/worktrees/s1/commondir");
    assert_eq!(files[2].contents, "../..\n");
    assert_eq!(files[3].path, "/p/repo.git/worktrees/s1/HEAD");
    assert_eq!(files[3].contents, "ref: refs/heads/agtsessions/s1\n");
    assert_eq!(files[4].path, "/p/repo.git/worktrees/s1/ORIG_HEAD");
    assert_eq!(files[4].contents, "a94a8fe5ccb19ba61c4c0873d391e987982fbbd3\n");
}

#[test]
fn binary_discovery() {
    let candidates = candidate_binary_paths("agt-worktree", Some(&"/bin/dir".to_string()), "/base");
    assert_eq!(
        candidates,
        vec![
            "/bin/dir/agt-worktree".to_string(),
            "/base/target/release/agt-worktree".to_string(),
            "/base/target/debug/agt-worktree".to_string(),
            "/base/dist/agt-worktree".to_string(),
        ]
    );
    // the environment override wins
    let r = find_worktree_binary(Some("/env/bin".to_string()), &candidates, &vec![false; 4]);
    assert_eq!(r.unwrap(), "/env/bin");
    // else the first existing candidate
    let r2 = find_named_binary(
        "agt-worktree",
        "AGT_WORKTREE_PATH",
        None,
        &candidates,
        &vec![false, false, true, true],
    );
    assert_eq!(r2.unwrap(), "/base/target/debug/agt-worktree");
    // else a configuration error telling the user what to do
    let e = find_named_binary("agt-worktree", "AGT_WORKTREE_PATH", None, &candidates, &vec![false; 4])
        .unwrap_err();
    assert_eq!(
        e.describe(),
        "agt-worktree binary not found; set AGT_WORKTREE_PATH or build it"
    );
}
