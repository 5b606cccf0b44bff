use agt::scan::{compute_snapshot_delta, scan_modified_files, WalkEntry};

fn entry(path: &str, is_dir: bool, mtime: u64) -> WalkEntry {
    WalkEntry { rel_path: path.to_string(), is_dir, is_symlink: false, mtime }
}

fn link_entry(path: &str, mtime: u64) -> WalkEntry {
    WalkEntry { rel_path: path.to_string(), is_dir: false, is_symlink: true, mtime }
}

fn has(v: &Vec<String>, s: &str) -> bool {
    v.iter().any(|x| x == s)
}

#[test]
fn delta_detects_add_modify_delete() {
    // base tree: a.txt, dir/b.txt; on disk: c.txt new, dir/b.txt touched,
    // a.txt removed
    let entries = vec![
        entry("", true, 0),
        entry("c.txt", false, 100),
        entry("dir", true, 100),
        entry("dir/b.txt", false, 100),
    ];
    let base = vec!["a.txt".to_string(), "dir/b.txt".to_string()];
    let delta = compute_snapshot_delta(&entries, &base, 0);
    assert!(has(&delta.changed, "c.txt"));
    assert!(has(&delta.changed, "dir/b.txt"));
    assert!(has(&delta.deleted, "a.txt"));
    assert!(!has(&delta.deleted, "dir/b.txt"));
    assert_eq!(delta.deleted.len(), 1);
}

#[test]
fn delta_reports_rename_as_delete_add() {
    let entries = vec![entry("dir", true, 0), entry("dir/c.txt", false, 50)];
    let base = vec!["dir/b.txt".to_string()];
    let delta = compute_snapshot_delta(&entries, &base, 0);
    assert!(has(&delta.changed, "dir/c.txt"));
    assert!(has(&delta.deleted, "dir/b.txt"));
}

#[test]
fn delta_threshold_is_half_open() {
    // an mtime equal to the watermark is re-included
    let entries = vec![entry("same.txt", false, 1000), entry("older.txt", false, 999)];
    let delta = compute_snapshot_delta(&entries, &vec![], 1000);
    assert!(has(&delta.changed, "same.txt"));
    assert!(!has(&delta.changed, "older.txt"));
}

#[test]
fn delta_at_epoch_takes_every_file_and_deletes_nothing() {
    // with threshold zero every file appears regardless of mtime, and an
    // empty base tree yields no deletions
    let entries = vec![
        entry("a", false, 0),
        entry("b", false, 123456),
        entry("sub", true, 7),
        entry("sub/c", false, 1),
    ];
    let delta = compute_snapshot_delta(&entries, &vec![], 0);
    assert!(has(&delta.changed, "a"));
    assert!(has(&delta.changed, "b"));
    assert!(has(&delta.changed, "sub/c"));
    assert!(!has(&delta.changed, "sub"));
    assert!(delta.deleted.is_empty());
}

#[test]
fn delta_empty_when_disk_unchanged() {
    // nothing touched since the watermark and the disk matches the base:
    // the next autocommit has nothing to do
    let entries = vec![entry("a.txt", false, 10), entry("b.txt", false, 20)];
    let base = vec!["a.txt".to_string(), "b.txt".to_string()];
    let delta = compute_snapshot_delta(&entries, &base, 21);
    assert!(delta.is_empty());
}

#[test]
fn delta_skips_git_directories() {
    let entries = vec![
        entry(".git", true, 100),
        entry(".git/config", false, 100),
        entry("sandbox/.git/HEAD", false, 100),
        entry("sandbox/file.txt", false, 100),
    ];
    let delta = compute_snapshot_delta(&entries, &vec![], 0);
    assert!(has(&delta.changed, "sandbox/file.txt"));
    assert!(!has(&delta.changed, ".git/config"));
    assert!(!has(&delta.changed, "sandbox/.git/HEAD"));
    assert_eq!(delta.changed.len(), 1);
}

#[test]
fn delta_lists_each_path_once() {
    let entries = vec![entry("a", false, 5), entry("a", false, 9)];
    let delta = compute_snapshot_delta(&entries, &vec![], 0);
    assert_eq!(delta.changed.len(), 1);
}

#[test]
fn scan_modified_files_reports_changed_paths() {
    let entries = vec![entry("x", false, 5), entry("y", false, 50)];
    let files = scan_modified_files(&entries, 10);
    assert!(has(&files, "y"));
    assert!(!has(&files, "x"));
}

#[test]
fn scan_modified_files_counts_regular_files_only() {
    // the status report skips symlinks, where the snapshot delta takes them
    let entries = vec![entry("plain", false, 50), link_entry("link", 50)];
    let files = scan_modified_files(&entries, 0);
    assert_eq!(files, vec!["plain".to_string()]);
    let delta = compute_snapshot_delta(&entries, &vec![], 0);
    assert!(has(&delta.changed, "link"));
    assert!(has(&delta.changed, "plain"));
}

#[test]
fn delta_takes_symlinks_as_entries() {
    let entries = vec![link_entry("ln", 100)];
    let delta = compute_snapshot_delta(&entries, &vec!["ln".to_string()], 1000);
    // present on disk, so not deleted; untouched, so not changed
    assert!(delta.is_empty());
}
