use agt::config::AgtConfig;
use agt::filter::{
    filter_branch_output, filter_log_output, filter_output, filter_tag_output, has_branch_prefix,
    map_args_for_gix, should_hide_commit, should_hide_ref,
};

#[test]
fn branch_prefix_detection() {
    assert!(has_branch_prefix("  agtsessions/s1", "agtsessions/"));
    assert!(has_branch_prefix("* agtsessions/s1", "agtsessions/"));
    assert!(has_branch_prefix("+ agtsessions/s1", "agtsessions/"));
    assert!(has_branch_prefix("  remotes/origin/agtsessions/s1", "agtsessions/"));
    assert!(!has_branch_prefix("* main", "agtsessions/"));
    assert!(!has_branch_prefix("  feature/agt", "agtsessions/"));
}

#[test]
fn hide_ref_by_prefix() {
    let config = AgtConfig::default();
    assert!(should_hide_ref("refs/heads/agtsessions/s1", &config));
    assert!(!should_hide_ref("refs/heads/main", &config));
}

#[test]
fn hide_commit_by_agent_email() {
    let config = AgtConfig::default();
    assert!(should_hide_commit("agt@local", &config));
    assert!(!should_hide_commit("user@example.com", &config));
}

#[test]
fn map_args_inserts_list_for_bare_branch() {
    let args = vec!["branch".to_string()];
    assert_eq!(map_args_for_gix(&args), vec!["branch".to_string(), "list".to_string()]);
    let args2 = vec!["tag".to_string(), "-v".to_string()];
    assert_eq!(
        map_args_for_gix(&args2),
        vec!["tag".to_string(), "list".to_string(), "-v".to_string()]
    );
}

#[test]
fn map_args_leaves_list_and_others_alone() {
    let args = vec!["branch".to_string(), "list".to_string()];
    assert_eq!(map_args_for_gix(&args), args);
    let args2 = vec!["log".to_string(), "--stat".to_string()];
    assert_eq!(map_args_for_gix(&args2), args2);
    let empty: Vec<String> = vec![];
    assert_eq!(map_args_for_gix(&empty), empty);
}

#[test]
fn branch_output_filters_shadow_lines() {
    let config = AgtConfig::default();
    let output = "* main\n  agtsessions/s1\n  develop";
    assert_eq!(filter_branch_output(output, &config), "* main\n  develop");
}

#[test]
fn tag_output_filters_like_branches() {
    let config = AgtConfig::default();
    let output = "v1.0\nagtsessions/tagged";
    assert_eq!(filter_tag_output(output, &config), "v1.0");
}

#[test]
fn log_output_without_authors_passes_through() {
    let config = AgtConfig::default();
    let output = "some unparseable output";
    assert_eq!(filter_log_output(output, &config), output);
}

#[test]
fn log_output_drops_agent_blocks() {
    let config = AgtConfig::default();
    let output = "commit aaa\nAuthor: agt <agt@local>\n\n    agt autocommit\ncommit bbb\nAuthor: User <user@example.com>\n\n    real work";
    let filtered = filter_log_output(output, &config);
    assert!(!filtered.contains("aaa"));
    assert!(filtered.contains("commit bbb"));
    assert!(filtered.contains("real work"));
}

#[test]
fn filter_output_routes_by_command() {
    let config = AgtConfig::default();
    let branch_args = vec!["branch".to_string()];
    assert_eq!(
        filter_output("main\nagtsessions/x", &branch_args, &config),
        "main"
    );
    let other_args = vec!["status".to_string()];
    assert_eq!(
        filter_output("agtsessions/x untouched", &other_args, &config),
        "agtsessions/x untouched"
    );
}
