use rancher_mcp_proxy::config::{ConfigError, FileOutcome, GatewayConfig, ServerConfig};
use rancher_mcp_proxy::settings::{discovery_failure, Environment};

fn unset() -> Environment {
    Environment {
        port: None,
        rancher_tls_verify: None,
        rancher_timeout_secs: None,
        upstream_timeout_secs: None,
        auth_cache_ttl_secs: None,
        role_config_file: None,
        upstream_mcp_url: None,
        required_role: None,
    }
}

fn text(s: &str) -> Option<String> {
    Some(s.to_string())
}

#[test]
fn defaults_of_an_empty_environment() {
    let env = unset();
    assert_eq!(env.port(), 3000);
    assert!(env.tls_verify());
    assert_eq!(env.rancher_timeout_secs(), 5);
    assert_eq!(env.upstream_timeout_secs(), 30);
    assert_eq!(env.auth_cache_ttl_secs(), 60);
    assert_eq!(env.config_file(), "/etc/rancher-mcp-proxy/config.yaml");
    assert_eq!(env.required_role(), "mcp-user");
    assert_eq!(env.bind_address(), "0.0.0.0:3000");
}

#[test]
fn port_has_to_be_a_port() {
    for (value, port) in [
        ("8080", 8080),
        ("+80", 80),
        ("00080", 80),
        ("65535", 65535),
        ("65536", 3000),
        ("-1", 3000),
        ("", 3000),
        ("+", 3000),
        ("80 ", 3000),
        ("8o", 3000),
        ("99999999999999999999999", 3000),
    ] {
        let env = Environment { port: text(value), ..unset() };
        assert_eq!(env.port(), port, "PORT={value}");
        assert_eq!(env.bind_address(), format!("0.0.0.0:{port}"));
    }
}

#[test]
fn tls_is_switched_off_by_false_and_zero_alone() {
    for (value, verify) in
        [("false", false), ("0", false), ("true", true), ("1", true), ("False", true), ("", true)]
    {
        let env = Environment { rancher_tls_verify: text(value), ..unset() };
        assert_eq!(env.tls_verify(), verify, "RANCHER_TLS_VERIFY={value}");
    }
}

#[test]
fn timeouts_are_read_from_the_environment() {
    let env = Environment {
        rancher_timeout_secs: text("7"),
        upstream_timeout_secs: text("18446744073709551615"),
        auth_cache_ttl_secs: text("18446744073709551616"),
        ..unset()
    };
    assert_eq!(env.rancher_timeout_secs(), 7);
    assert_eq!(env.upstream_timeout_secs(), u64::MAX);
    assert_eq!(env.auth_cache_ttl_secs(), 60);
}

#[test]
fn nearest_timeout_wins() {
    let env = Environment { upstream_timeout_secs: text("11"), ..unset() };
    let shared = GatewayConfig { upstream_timeout_secs: Some(22), ..Default::default() };
    let plain = ServerConfig::default();
    let own = ServerConfig { upstream_timeout_secs: Some(33), ..Default::default() };
    let none = GatewayConfig::default();
    assert_eq!(env.timeouts(&shared).upstream_timeout_secs(&own), 33);
    assert_eq!(env.timeouts(&shared).upstream_timeout_secs(&plain), 22);
    assert_eq!(env.timeouts(&none).upstream_timeout_secs(&plain), 11);
    assert_eq!(unset().timeouts(&none).upstream_timeout_secs(&plain), 30);
}

#[test]
fn configuration_decides_before_the_environment() {
    let env = Environment {
        rancher_timeout_secs: text("1"),
        auth_cache_ttl_secs: text("2"),
        ..unset()
    };
    let config = GatewayConfig {
        rancher_timeout_secs: Some(8),
        auth_cache_ttl_secs: Some(0),
        ..Default::default()
    };
    assert_eq!(env.timeouts(&config).rancher_secs, 8);
    assert_eq!(env.timeouts(&config).auth_cache_ttl_secs, 0);
    assert_eq!(env.timeouts(&GatewayConfig::default()).rancher_secs, 1);
    assert_eq!(env.timeouts(&GatewayConfig::default()).auth_cache_ttl_secs, 2);
}

#[test]
fn single_server_from_the_environment() {
    let env = Environment { upstream_mcp_url: text("http://x/mcp"), ..unset() };
    let cfg = env.gateway_config(None).unwrap();
    assert_eq!(cfg.servers[0].url, "http://x/mcp");
    assert_eq!(cfg.servers[0].required_role_for("t"), Some("mcp-user"));
    let env = Environment { required_role: text("ops"), ..env };
    let cfg = env.gateway_config(None).unwrap();
    assert_eq!(cfg.servers[0].required_role_for("t"), Some("ops"));
}

#[test]
fn nothing_to_run_with() {
    let err = unset().gateway_config(None).unwrap_err();
    assert!(matches!(err, ConfigError::NoUpstream));
    assert_eq!(err.message(), "UPSTREAM_MCP_URL is required when no config file is present");
}

#[test]
fn configuration_file_takes_precedence() {
    let env = Environment {
        upstream_mcp_url: text("http://x/mcp"),
        role_config_file: text("/tmp/c.yaml"),
        ..unset()
    };
    let cfg = env.gateway_config(Some(FileOutcome::Parsed(GatewayConfig::default()))).unwrap();
    assert!(cfg.servers.is_empty());
    assert_eq!(
        env.gateway_config(Some(FileOutcome::NotRead)).unwrap_err().message(),
        "failed to read gateway config from /tmp/c.yaml"
    );
    assert_eq!(
        env.gateway_config(Some(FileOutcome::NotParsed)).unwrap_err().message(),
        "failed to parse gateway config YAML from /tmp/c.yaml"
    );
}

#[test]
fn failed_discovery_names_the_server() {
    let server =
        ServerConfig { name: "opencost".into(), url: "http://o/mcp".into(), ..Default::default() };
    assert_eq!(
        discovery_failure(&server),
        "failed to discover tools from \"opencost\" at http://o/mcp"
    );
}
