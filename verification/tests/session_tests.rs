use agt::errors::ErrorKind;
use agt::isolation::{IsolationMode, SessionPaths};
use agt::session::{
    branch_name_for, branch_ref_for, format_session_id, format_watermark, match_session_for_cwd,
    parse_watermark, qualify_branch_ref, resolve_user_branch, select_scan_timestamp,
    session_artifacts, watermark_value, HeadState,
};

#[test]
fn branch_naming() {
    assert_eq!(branch_name_for("agtsessions/", "s1"), "agtsessions/s1");
    assert_eq!(branch_ref_for("agtsessions/s1"), "refs/heads/agtsessions/s1");
}

#[test]
fn session_id_formatting_pads_fields() {
    assert_eq!(format_session_id(2024, 3, 7, 9, 5, 2), "session-20240307-090502");
    assert_eq!(format_session_id(999, 12, 31, 23, 59, 59), "session-09991231-235959");
}

#[test]
fn watermark_parsing() {
    assert_eq!(parse_watermark("12345"), Some(12345));
    assert_eq!(parse_watermark(" 12345\n"), Some(12345));
    assert_eq!(parse_watermark("x12"), None);
    assert_eq!(parse_watermark(""), None);
    assert_eq!(parse_watermark("99999999999999999999999"), None);
}

#[test]
fn watermark_value_policy() {
    assert_eq!(watermark_value(None).unwrap(), 0);
    assert_eq!(watermark_value(Some(&"42\n".to_string())).unwrap(), 42);
    let e = watermark_value(Some(&"junk".to_string())).unwrap_err();
    assert_eq!(e.kind, ErrorKind::Config);
}

#[test]
fn watermark_formatting() {
    assert_eq!(format_watermark(0), "0");
    assert_eq!(format_watermark(1712345678), "1712345678");
}

#[test]
fn scan_timestamp_selection() {
    assert_eq!(select_scan_timestamp(7, None).unwrap(), 7);
    assert_eq!(select_scan_timestamp(7, Some(3600)).unwrap(), 3600);
    assert_eq!(select_scan_timestamp(7, Some(0)).unwrap(), 0);
    let e = select_scan_timestamp(7, Some(-1)).unwrap_err();
    assert_eq!(e.describe(), "timestamp override must be >= 0");
}

#[test]
fn user_branch_resolution_order() {
    let head = HeadState::Branch("refs/heads/main".to_string());
    // a session named by --from passes its user branch on
    let from = "other-session".to_string();
    let r = resolve_user_branch(
        Some(&from),
        Some("refs/heads/feature".to_string()),
        false,
        &head,
    );
    assert_eq!(r.unwrap(), "refs/heads/feature");
    // an existing local branch is qualified
    let from2 = "develop".to_string();
    let r2 = resolve_user_branch(Some(&from2), None, true, &head);
    assert_eq!(r2.unwrap(), "refs/heads/develop");
    // already-qualified specs stay as they are
    assert_eq!(qualify_branch_ref("refs/tags/v1"), "refs/tags/v1");
    // otherwise HEAD's branch is used
    let r3 = resolve_user_branch(None, None, false, &head);
    assert_eq!(r3.unwrap(), "refs/heads/main");
}

#[test]
fn user_branch_refuses_headless_repos() {
    let e = resolve_user_branch(None, None, false, &HeadState::Detached).unwrap_err();
    assert_eq!(e.describe(), "Detached HEAD is not supported for session creation");
    let e2 = resolve_user_branch(None, None, false, &HeadState::Unborn).unwrap_err();
    assert_eq!(e2.describe(), "Unborn HEAD is not supported for session creation");
}

#[test]
fn session_inference_from_cwd() {
    let sessions = vec![
        ("s1".to_string(), "/proj/sessions/s1/sandbox".to_string()),
        ("s2".to_string(), "/proj/sessions/s2/sandbox".to_string()),
    ];
    assert_eq!(match_session_for_cwd("/proj/sessions/s2/sandbox/sub", &sessions), Some(1));
    assert_eq!(match_session_for_cwd("/proj/sessions/s1/sandbox", &sessions), Some(0));
    assert_eq!(match_session_for_cwd("/proj/sessions/s3/sandbox", &sessions), None);
    // whole components only: sandboxx is not inside sandbox
    assert_eq!(match_session_for_cwd("/proj/sessions/s1/sandboxx", &sessions), None);
}

#[test]
fn artifacts_of_a_session() {
    let a = session_artifacts("/proj", "/proj/repo.git", "agtsessions/", "test-session");
    assert_eq!(a.branch_ref, "refs/heads/agtsessions/test-session");
    assert_eq!(a.admin_dir, "/proj/repo.git/worktrees/test-session");
    assert_eq!(a.session_dir, "/proj/sessions/test-session");
    assert_eq!(a.sandbox_dir, "/proj/sessions/test-session/sandbox");
    assert_eq!(a.config_dir, "/proj/sessions/test-session/config");
    assert_eq!(a.xdg_dir, "/proj/sessions/test-session/xdg");
    assert_eq!(a.watermark_file, "/proj/repo.git/agt/timestamps/test-session");
    assert_eq!(a.metadata_file, "/proj/repo.git/agt/sessions/test-session.json");
}

#[test]
fn isolation_mode_parsing() {
    assert_eq!(IsolationMode::parse("none").unwrap(), IsolationMode::Off);
    assert_eq!(IsolationMode::parse("NONE").unwrap(), IsolationMode::Off);
    assert_eq!(IsolationMode::parse("Xdg").unwrap(), IsolationMode::Xdg);
    assert_eq!(IsolationMode::parse("chroot").unwrap(), IsolationMode::Chroot);
    let e = IsolationMode::parse("full").unwrap_err();
    assert_eq!(e.describe(), "Invalid isolation mode: full");
}

#[test]
fn session_paths_layout() {
    let p = SessionPaths::new("/proj/sessions/s1".to_string());
    assert_eq!(p.root, "/proj/sessions/s1");
    assert_eq!(p.sandbox, "/proj/sessions/s1/sandbox");
    assert_eq!(p.xdg_data, "/proj/sessions/s1/xdg");
    assert_eq!(p.xdg_config, "/proj/sessions/s1/config");
}
