use agt::errors::ErrorKind;
use agt::porcelain::{extract_repo_name, parse_add_args, parse_commit_message};

fn args_of(words: &[&str]) -> Vec<String> {
    words.iter().map(|w| w.to_string()).collect()
}

#[test]
fn add_args_all_flag() {
    let a = parse_add_args(&args_of(&["add", "-A"])).unwrap();
    assert!(a.all);
    assert!(!a.update);
    assert!(a.paths.is_empty());
}

#[test]
fn add_args_update_and_paths() {
    let a = parse_add_args(&args_of(&["add", "-u", "x.txt"])).unwrap();
    assert!(a.update);
    assert_eq!(a.paths, vec!["x.txt".to_string()]);
}

#[test]
fn add_args_double_dash_takes_flags_as_paths() {
    let a = parse_add_args(&args_of(&["add", "--", "-A", "file"])).unwrap();
    assert!(!a.all);
    assert_eq!(a.paths, vec!["-A".to_string(), "file".to_string()]);
}

#[test]
fn add_args_rejects_unknown_flag() {
    let e = parse_add_args(&args_of(&["add", "--force"])).unwrap_err();
    assert_eq!(e.kind, ErrorKind::Precondition);
    assert_eq!(e.describe(), "Unsupported git add flag: --force");
}

#[test]
fn add_args_requires_something() {
    let e = parse_add_args(&args_of(&["add"])).unwrap_err();
    assert_eq!(e.describe(), "git add requires paths or -A/-u");
}

#[test]
fn commit_message_single() {
    let m = parse_commit_message(&args_of(&["commit", "-m", "Title"])).unwrap();
    assert_eq!(m, "Title");
}

#[test]
fn commit_message_multiple_paragraphs() {
    let m = parse_commit_message(&args_of(&["commit", "-m", "Title", "-m", "Body paragraph"]))
        .unwrap();
    assert_eq!(m, "Title\n\nBody paragraph");
}

#[test]
fn commit_message_missing_value() {
    let e = parse_commit_message(&args_of(&["commit", "-m"])).unwrap_err();
    assert_eq!(e.describe(), "Expected message after -m");
}

#[test]
fn commit_message_rejects_unknown_flag() {
    let e = parse_commit_message(&args_of(&["commit", "--amend"])).unwrap_err();
    assert_eq!(e.describe(), "Unsupported git commit flag: --amend");
}

#[test]
fn commit_message_required() {
    let e = parse_commit_message(&args_of(&["commit"])).unwrap_err();
    assert_eq!(e.describe(), "git commit requires -m/--message");
}

#[test]
fn repo_name_from_urls() {
    assert_eq!(extract_repo_name("https://host/x/repo.git").unwrap(), "repo");
    assert_eq!(extract_repo_name("git@host:team/repo.git").unwrap(), "repo");
    assert_eq!(extract_repo_name("/local/path/repo").unwrap(), "repo");
    assert_eq!(extract_repo_name("repo.git.git").unwrap(), "repo");
}

#[test]
fn repo_name_invalid_urls() {
    let e = extract_repo_name(".git").unwrap_err();
    assert_eq!(e.describe(), "Invalid repository URL");
    assert!(extract_repo_name("").is_err());
}
