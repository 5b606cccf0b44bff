use agt::config::{apply_settings, parse_ini, AgtConfig, Settings};

#[test]
fn test_parse_ini_basic() {
    let content = r#"
[agt]
    gitPath = /opt/git/bin/git
    agentEmail = agt.opencode@local
    branchPrefix = agtsessions/
"#;
    let settings = parse_ini(content);
    assert_eq!(settings.get("agt.gitPath"), Some("/opt/git/bin/git".to_string()));
    assert_eq!(settings.get("agt.agentEmail"), Some("agt.opencode@local".to_string()));
    assert_eq!(settings.get("agt.branchPrefix"), Some("agtsessions/".to_string()));
}

#[test]
fn test_parse_ini_with_comments() {
    let content = r#"
# This is a comment
[agt]
    ; Another comment
    gitPath = /usr/bin/git
"#;
    let settings = parse_ini(content);
    assert_eq!(settings.get("agt.gitPath"), Some("/usr/bin/git".to_string()));
}

#[test]
fn test_apply_settings() {
    let mut config = AgtConfig::default();
    let mut settings = Settings::new();
    settings.set("agt.gitPath".to_string(), "/custom/git".to_string());
    settings.set("agt.agentEmail".to_string(), "custom@test".to_string());

    apply_settings(&mut config, &settings);

    assert_eq!(config.git_path, "/custom/git".to_string());
    assert_eq!(config.agent_email, "custom@test");
}

#[test]
fn test_defaults() {
    let config = AgtConfig::default();
    assert_eq!(config.git_path, "/usr/bin/git");
    assert_eq!(config.agent_email, "agt@local");
    assert_eq!(config.branch_prefix, "agtsessions/");
    assert!(config.user_email.is_none());
}

#[test]
fn test_parse_ini_later_value_wins() {
    let content = "[agt]\ngitPath = /a\ngitPath = /b\n";
    let settings = parse_ini(content);
    assert_eq!(settings.get("agt.gitPath"), Some("/b".to_string()));
}

#[test]
fn test_parse_ini_no_section() {
    let content = "key = value\n";
    let settings = parse_ini(content);
    assert_eq!(settings.get("key"), Some("value".to_string()));
    assert_eq!(settings.len(), 1);
}

#[test]
fn test_parse_ini_user_email() {
    let mut config = AgtConfig::default();
    let settings = parse_ini("[agt]\nuserEmail = me@example.com\n");
    apply_settings(&mut config, &settings);
    assert_eq!(config.user_email, Some("me@example.com".to_string()));
    assert_eq!(config.branch_prefix, "agtsessions/");
}
