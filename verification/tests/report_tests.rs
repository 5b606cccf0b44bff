use agt::autocommit::dry_run_report;
use agt::order::{lex_lt_str, sort_path_strings};
use agt::scan::SnapshotDelta;

#[test]
fn lexicographic_comparison() {
    assert!(lex_lt_str("a", "b"));
    assert!(lex_lt_str("a", "ab"));
    assert!(!lex_lt_str("b", "a"));
    assert!(!lex_lt_str("a", "a"));
    assert!(lex_lt_str("A", "a"));
    assert!(lex_lt_str("dir/a", "dir/b"));
}

#[test]
fn sorting_paths() {
    let v = vec!["c".to_string(), "a".to_string(), "b/x".to_string()];
    let sorted = sort_path_strings(&v);
    assert_eq!(sorted, vec!["a".to_string(), "b/x".to_string(), "c".to_string()]);
}

#[test]
fn dry_run_lines() {
    let delta = SnapshotDelta {
        changed: vec!["z.txt".to_string(), "a.txt".to_string()],
        deleted: vec!["gone.txt".to_string()],
    };
    let lines = dry_run_report(&delta);
    assert_eq!(
        lines,
        vec![
            "Would commit 2 files, delete 1 files:".to_string(),
            "  M a.txt".to_string(),
            "  M z.txt".to_string(),
            "  D gone.txt".to_string(),
        ]
    );
}

#[test]
fn dry_run_lines_when_nothing_deleted() {
    let delta = SnapshotDelta { changed: vec!["only.txt".to_string()], deleted: vec![] };
    let lines = dry_run_report(&delta);
    assert_eq!(
        lines,
        vec!["Would commit 1 files, delete 0 files:".to_string(), "  M only.txt".to_string()]
    );
}
