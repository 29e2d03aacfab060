use rancher_mcp_proxy::config::{RoleRule, ServerConfig};
use rancher_mcp_proxy::gateway::{CallErrorKind, CallOutcome, ServerProxy};
use rancher_mcp_proxy::rancher_auth::AuthContext;
use rancher_mcp_proxy::upstream::{UpstreamError, UpstreamMcpClient};
use rmcp::model::{
    CallToolRequestParams, Meta, NumberOrString, ProgressToken, RequestParamsMeta, Tool,
};

fn make_proxy(rules: Vec<RoleRule>, instructions: Option<&str>) -> ServerProxy {
    proxy_with_tools(rules, instructions, vec![])
}

fn proxy_with_tools(
    rules: Vec<RoleRule>,
    instructions: Option<&str>,
    tools: Vec<Tool>,
) -> ServerProxy {
    let config = ServerConfig {
        name: "test-server".into(),
        url: "http://unused".into(),
        instructions: instructions.map(String::from),
        rules,
        upstream_timeout_secs: None,
    };
    ServerProxy::new(config, UpstreamMcpClient::new("http://unused", false, 30), tools)
}

fn parts_with_roles(roles: &[&str]) -> http::request::Parts {
    let (mut parts, _) = http::Request::new(()).into_parts();
    parts.extensions.insert(AuthContext {
        display_name: "Alice".into(),
        roles: roles.iter().map(|s| s.to_string()).collect(),
    });
    parts
}

fn parts_no_auth() -> http::request::Parts {
    let (parts, _) = http::Request::new(()).into_parts();
    parts
}

fn catch_all(role: &str) -> Vec<RoleRule> {
    vec![RoleRule { tools: vec!["*".into()], role: role.into() }]
}

fn call(tool: &'static str) -> CallToolRequestParams {
    CallToolRequestParams::new(tool)
}

#[test]
fn authorize_no_auth_context_requires_authentication() {
    let proxy = make_proxy(
        vec![RoleRule { tools: vec!["*".into()], role: "admin".into() }],
        None,
    );
    let err = proxy.authorize("any_tool", &parts_no_auth()).unwrap_err();
    assert!(err.message.contains("Authentication required"));
}

#[test]
fn authorize_no_matching_rule_denies_call() {
    let proxy = make_proxy(
        vec![RoleRule { tools: vec!["get_*".into()], role: "viewer".into() }],
        None,
    );
    // "delete_budget" does not match "get_*"
    let err =
        proxy.authorize("delete_budget", &parts_with_roles(&["viewer", "admin"])).unwrap_err();
    assert!(err.message.contains("no role rule matches"));
}

#[test]
fn authorize_empty_rules_denies_everything() {
    let proxy = make_proxy(vec![], None);
    let err = proxy.authorize("any_tool", &parts_with_roles(&["super-admin"])).unwrap_err();
    assert!(err.message.contains("no role rule matches"));
}

#[test]
fn authorize_wrong_role_returns_forbidden() {
    let proxy = make_proxy(
        vec![RoleRule { tools: vec!["*".into()], role: "admin".into() }],
        None,
    );
    let err = proxy.authorize("delete_budget", &parts_with_roles(&["viewer"])).unwrap_err();
    assert_eq!(err.kind, CallErrorKind::Forbidden);
    assert!(err.message.contains("Forbidden"));
    assert!(err.message.contains("admin"));
    assert!(err.message.contains("Alice"));
    assert!(err.message.contains("delete_budget"));
}

#[test]
fn authorize_correct_role_allows_call() {
    let proxy = make_proxy(
        vec![RoleRule { tools: vec!["*".into()], role: "admin".into() }],
        None,
    );
    assert!(proxy.authorize("delete_budget", &parts_with_roles(&["admin"])).is_ok());
}

#[test]
fn authorize_one_of_many_roles_matches() {
    let proxy = make_proxy(
        vec![RoleRule { tools: vec!["*".into()], role: "cost-admin".into() }],
        None,
    );
    assert!(proxy
        .authorize("any_tool", &parts_with_roles(&["viewer", "cost-viewer", "cost-admin"]))
        .is_ok());
}

#[test]
fn authorize_uses_first_matching_rule() {
    // "get_*" maps to viewer; catch-all maps to admin.
    // A user with only "viewer" should be allowed for get_ tools.
    let proxy = make_proxy(
        vec![
            RoleRule { tools: vec!["get_*".into()], role: "viewer".into() },
            RoleRule { tools: vec!["*".into()], role: "admin".into() },
        ],
        None,
    );
    assert!(proxy.authorize("get_allocation", &parts_with_roles(&["viewer"])).is_ok());
    assert!(proxy.authorize("delete_budget", &parts_with_roles(&["viewer"])).is_err());
}

#[test]
fn get_info_uses_custom_instructions() {
    let proxy = make_proxy(vec![], Some("You are a cost analysis assistant."));
    let info = proxy.get_info();
    assert_eq!(info.instructions.as_deref(), Some("You are a cost analysis assistant."));
}

#[test]
fn get_info_default_instructions_mention_server_name_and_headers() {
    let proxy = make_proxy(vec![], None);
    let info = proxy.get_info();
    let instructions = info.instructions.as_deref().unwrap_or("");
    assert!(instructions.contains("test-server"), "should contain server name");
    assert!(instructions.contains("R_token"), "should mention auth header");
    assert_eq!(
        instructions,
        "MCP gateway endpoint for \"test-server\". Provide R_token and R_url headers to authenticate."
    );
    assert_eq!(info.protocol_version, "2024-11-05");
    assert!(info.tools);
}

#[test]
fn messages_of_refused_calls() {
    let proxy = make_proxy(catch_all("admin"), None);
    let err = proxy.authorize_caller("t", None).unwrap_err();
    assert_eq!(err.kind, CallErrorKind::InvalidRequest);
    assert_eq!(
        err.message,
        "Authentication required. Please provide R_token and R_url headers."
    );
    let caller = AuthContext { display_name: "Bob".into(), roles: vec!["Admin".into()] };
    let err = proxy.authorize_caller("t", Some(&caller)).unwrap_err();
    assert_eq!(err.kind, CallErrorKind::Forbidden);
    assert_eq!(err.message, "Forbidden: user \"Bob\" needs role \"admin\" to call \"t\"");
    let err = make_proxy(vec![], None).authorize_caller("t", Some(&caller)).unwrap_err();
    assert_eq!(err.kind, CallErrorKind::Forbidden);
    assert_eq!(err.message, "Tool \"t\" is not accessible: no role rule matches it");
}

#[test]
fn forbidden_calls_are_a_403() {
    assert_eq!(CallErrorKind::Forbidden.status(), Some(403));
    assert_eq!(CallErrorKind::InvalidRequest.status(), None);
    assert_eq!(CallErrorKind::Internal.status(), None);
    let proxy = make_proxy(catch_all("admin"), None);
    let err = proxy.authorize("delete_budget", &parts_with_roles(&["viewer"])).unwrap_err();
    assert_eq!(err.kind.status(), Some(403));
}

#[test]
fn missing_rule_is_told_before_missing_identity() {
    let err = make_proxy(vec![], None).authorize("t", &parts_no_auth()).unwrap_err();
    assert_eq!(err.kind, CallErrorKind::InvalidRequest);
    assert!(err.message.contains("no role rule matches"));
}

#[test]
fn list_tools_needs_no_identity() {
    let tools = vec![
        Tool::new("get_cost", "a", serde_json::Map::new()),
        Tool::new("get_cost", "b", serde_json::Map::new()),
    ];
    let proxy = proxy_with_tools(vec![], None, tools.clone());
    assert_eq!(proxy.list_tools(), tools.as_slice());
}

#[test]
fn call_without_a_request_head_requires_authentication() {
    let mut proxy = make_proxy(vec![], None);
    let err = proxy.call_tool(call("t"), None, &Meta::new()).err().unwrap();
    assert!(err.message.contains("Authentication required"));
}

#[test]
fn refused_call_takes_no_request_id() {
    let mut proxy = make_proxy(catch_all("admin"), None);
    assert!(proxy.call_tool(call("t"), Some(&parts_with_roles(&["x"])), &Meta::new()).is_err());
    let forwarded =
        proxy.call_tool(call("t"), Some(&parts_with_roles(&["admin"])), &Meta::new()).ok().unwrap();
    assert_eq!(forwarded.request.id, 1);
    let forwarded =
        proxy.call_tool(call("t"), Some(&parts_with_roles(&["admin"])), &Meta::new()).ok().unwrap();
    assert_eq!(forwarded.request.id, 2);
}

#[test]
fn call_without_a_progress_token_is_forwarded_as_it_is() {
    let mut proxy = make_proxy(catch_all("admin"), None);
    let mut arguments = serde_json::Map::new();
    arguments.insert("window".into(), serde_json::Value::String("7d".into()));
    let request = call("get_cost").with_arguments(arguments);
    let forwarded = proxy
        .call_tool(request.clone(), Some(&parts_with_roles(&["admin"])), &Meta::new())
        .ok()
        .unwrap();
    assert!(!forwarded.relay);
    assert_eq!(forwarded.request.jsonrpc, "2.0");
    assert_eq!(forwarded.request.method, "tools/call");
    assert_eq!(forwarded.request.params, request);
}

#[test]
fn call_with_a_progress_token_carries_it_upstream() {
    let mut proxy = make_proxy(catch_all("admin"), None);
    for id in [NumberOrString::Number(7), NumberOrString::String("tok-1".into())] {
        let token = ProgressToken(id);
        let meta = Meta::with_progress_token(token.clone());
        let forwarded = proxy
            .call_tool(call("get_cost"), Some(&parts_with_roles(&["admin"])), &meta)
            .ok()
            .unwrap();
        assert!(forwarded.relay);
        assert_eq!(forwarded.request.params.progress_token(), Some(token));
        assert_eq!(forwarded.request.params.name, "get_cost");
    }
}

#[test]
fn call_is_authorized_by_the_name_in_the_request() {
    let mut proxy = make_proxy(
        vec![RoleRule { tools: vec!["get_*".into()], role: "viewer".into() }],
        None,
    );
    let parts = parts_with_roles(&["viewer"]);
    assert!(proxy.call_tool(call("get_cost"), Some(&parts), &Meta::new()).is_ok());
    assert!(proxy.call_tool(call("set_cost"), Some(&parts), &Meta::new()).is_err());
}

#[test]
fn failed_and_cancelled_calls_are_internal_errors() {
    assert_eq!(ServerProxy::call_result(CallOutcome::Returned(Ok(5))).unwrap(), 5);
    let err = ServerProxy::call_result::<u8>(CallOutcome::Returned(Err(
        UpstreamError::NeitherResultNorError,
    )))
    .unwrap_err();
    assert_eq!(err.kind, CallErrorKind::Internal);
    assert_eq!(err.message, "upstream MCP returned neither result nor error");
    let err = ServerProxy::call_result::<u8>(CallOutcome::Cancelled).unwrap_err();
    assert_eq!(err.kind, CallErrorKind::Internal);
    assert_eq!(err.message, "Call cancelled by client");
}

#[test]
fn more_roles_allow_no_less() {
    let proxy = make_proxy(catch_all("admin"), None);
    assert!(proxy.authorize("t", &parts_with_roles(&["admin"])).is_ok());
    assert!(proxy.authorize("t", &parts_with_roles(&["x", "admin", "y"])).is_ok());
}

#[test]
fn proxy_tells_its_configuration_and_client() {
    let proxy = make_proxy(vec![], None);
    assert_eq!(proxy.config().name, "test-server");
    assert_eq!(proxy.upstream().url(), "http://unused");
}
