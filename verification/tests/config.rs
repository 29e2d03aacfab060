use rancher_mcp_proxy::config::{
    ConfigError, FileOutcome, GatewayConfig, RoleRule, ServerConfig,
};

fn server(name: &str, url: &str) -> ServerConfig {
    ServerConfig { name: name.into(), url: url.into(), instructions: None, rules: vec![], ..Default::default() }
}

#[test]
fn rule_first_match_wins() {
    let server = ServerConfig {
        name: "test".into(),
        url: "http://x".into(),
        instructions: None,
        rules: vec![
            RoleRule { tools: vec!["get_*".into(), "list_*".into()], role: "viewer".into() },
            RoleRule { tools: vec!["*".into()], role: "admin".into() },
        ],
        ..Default::default()
    };
    assert_eq!(server.required_role_for("get_allocation"), Some("viewer"));
    assert_eq!(server.required_role_for("list_assets"), Some("viewer"));
    assert_eq!(server.required_role_for("delete_budget"), Some("admin"));
}

#[test]
fn no_matching_rule_returns_none() {
    let server = ServerConfig {
        name: "test".into(),
        url: "http://x".into(),
        instructions: None,
        rules: vec![RoleRule { tools: vec!["get_*".into()], role: "viewer".into() }],
        ..Default::default()
    };
    assert_eq!(server.required_role_for("set_budget"), None);
}

#[test]
fn single_server_helper() {
    let cfg = GatewayConfig::single_server("http://x", "mcp-user");
    assert_eq!(cfg.servers.len(), 1);
    assert_eq!(cfg.servers[0].required_role_for("any_tool"), Some("mcp-user"));
}

#[test]
fn single_server_is_mounted_at_upstream() {
    let cfg = GatewayConfig::single_server("http://x/mcp", "mcp-user");
    assert_eq!(cfg.servers[0].mount_path(), "/upstream/mcp");
    assert_eq!(cfg.servers[0].url, "http://x/mcp");
    assert!(cfg.servers[0].instructions.is_none());
    assert!(cfg.servers[0].upstream_timeout_secs.is_none());
    assert!(cfg.validate().is_ok());
}

#[test]
fn validate_rejects_name_with_slash() {
    let cfg = GatewayConfig { servers: vec![server("bad/name", "http://x")], ..Default::default() };
    let err = cfg.validate().unwrap_err().message();
    assert!(err.contains("invalid"), "got: {err}");
}

#[test]
fn validate_rejects_name_with_space() {
    let cfg = GatewayConfig { servers: vec![server("bad name", "http://x")], ..Default::default() };
    assert!(cfg.validate().is_err());
}

#[test]
fn validate_rejects_duplicate_server_names() {
    let cfg = GatewayConfig {
        servers: vec![server("alpha", "http://a"), server("alpha", "http://b")],
        ..Default::default()
    };
    let err = cfg.validate().unwrap_err().message();
    assert!(err.contains("duplicate"), "got: {err}");
}

#[test]
fn validate_accepts_valid_names() {
    let cfg = GatewayConfig {
        servers: vec![
            server("opencost", "http://a"),
            server("platform-ops", "http://b"),
            server("server_2", "http://c"),
        ],
        ..Default::default()
    };
    assert!(cfg.validate().is_ok());
}

#[test]
fn validate_rejects_empty_and_non_ascii_names() {
    for name in ["", "café", "a.b", "a\n"] {
        let cfg = GatewayConfig { servers: vec![server(name, "http://x")], ..Default::default() };
        assert!(matches!(cfg.validate(), Err(ConfigError::InvalidName { .. })), "accepted {name:?}");
    }
}

#[test]
fn validate_reports_the_first_offending_server() {
    let cfg = GatewayConfig {
        servers: vec![server("a", "http://a"), server("a", "http://b"), server("b c", "http://c")],
        ..Default::default()
    };
    assert_eq!(cfg.validate().unwrap_err().message(), "duplicate server name \"a\"");
}

#[test]
fn invalid_name_is_quoted_in_the_message() {
    let cfg = GatewayConfig { servers: vec![server("a\tb", "http://x")], ..Default::default() };
    assert_eq!(
        cfg.validate().unwrap_err().message(),
        "server name \"a\\tb\" is invalid; use only ASCII letters, digits, `-`, and `_`"
    );
}

#[test]
fn from_file_not_found_returns_error() {
    let result = GatewayConfig::from_file("/nonexistent/path/config.yaml", FileOutcome::NotRead);
    assert!(result.is_err());
    let msg = result.unwrap_err().message();
    assert!(msg.contains("failed to read"));
    assert_eq!(msg, "failed to read gateway config from /nonexistent/path/config.yaml");
}

#[test]
fn from_file_invalid_yaml_returns_error() {
    let parsed: Result<serde_yaml::Value, _> = serde_yaml::from_str("this: [is: invalid yaml{{{");
    assert!(parsed.is_err());
    let result = GatewayConfig::from_file("config.yaml", FileOutcome::NotParsed);
    assert!(result.is_err());
    let msg = result.unwrap_err().message();
    assert!(msg.contains("failed to parse"));
    assert_eq!(msg, "failed to parse gateway config YAML from config.yaml");
}

#[test]
fn from_file_valid_config_round_trips() {
    let parsed = GatewayConfig {
        servers: vec![ServerConfig {
            name: "test".into(),
            url: "http://test".into(),
            rules: vec![RoleRule { tools: vec!["*".into()], role: "tester".into() }],
            ..Default::default()
        }],
        ..Default::default()
    };
    let cfg = GatewayConfig::from_file("config.yaml", FileOutcome::Parsed(parsed)).unwrap();
    assert_eq!(cfg.servers.len(), 1);
    assert_eq!(cfg.servers[0].name, "test");
    assert_eq!(cfg.servers[0].required_role_for("anything"), Some("tester"));
}

#[test]
fn from_file_rejects_an_invalid_configuration() {
    let parsed =
        GatewayConfig { servers: vec![server("bad/name", "http://x")], ..Default::default() };
    let result = GatewayConfig::from_file("config.yaml", FileOutcome::Parsed(parsed));
    assert!(matches!(result, Err(ConfigError::InvalidName { .. })));
}

#[test]
fn catch_all_rule_yields_to_earlier_rules() {
    let cfg = ServerConfig {
        rules: vec![
            RoleRule { tools: vec!["get_?".into()], role: "viewer".into() },
            RoleRule { tools: vec!["*".into()], role: "admin".into() },
        ],
        ..server("s", "http://s")
    };
    assert_eq!(cfg.required_role_for("get_a"), Some("viewer"));
    assert_eq!(cfg.required_role_for("get_ab"), Some("admin"));
}

#[test]
fn rule_without_patterns_matches_nothing() {
    let cfg = ServerConfig {
        rules: vec![RoleRule { tools: vec![], role: "viewer".into() }],
        ..server("s", "http://s")
    };
    assert_eq!(cfg.required_role_for(""), None);
}

#[test]
fn mount_paths_of_different_names_differ() {
    assert_eq!(server("opencost", "http://a").mount_path(), "/opencost/mcp");
    assert_eq!(server("platform-ops", "http://b").mount_path(), "/platform-ops/mcp");
    assert_ne!(server("health", "http://c").mount_path(), "/health");
}
