use http::{HeaderMap, HeaderValue, StatusCode};
use rancher_mcp_proxy::rancher_auth::{
    identify, match_roles, rancher_auth_middleware, resolve_display_name, AuthContext, AuthError,
    AuthFlow, CollectionOutcome, Credentials, GetOutcome, GetStep, GlobalRoleBinding,
    RancherAuthState, RancherGet, RancherPrincipal,
};

fn principal(
    id: &str,
    display: Option<&str>,
    login: Option<&str>,
    me: Option<bool>,
) -> RancherPrincipal {
    RancherPrincipal {
        id: id.into(),
        display_name: display.map(String::from),
        login_name: login.map(String::from),
        principal_type: None,
        me,
    }
}

fn binding(role: &str, user_id: Option<&str>, group_id: Option<&str>) -> GlobalRoleBinding {
    GlobalRoleBinding {
        global_role_id: role.into(),
        user_id: user_id.map(String::from),
        group_principal_id: group_id.map(String::from),
    }
}

fn headers(token: &str, url: &str) -> HeaderMap {
    let mut map = HeaderMap::new();
    map.insert("R_token", HeaderValue::from_str(token).unwrap());
    map.insert("R_url", HeaderValue::from_str(url).unwrap());
    map
}

#[test]
fn display_name_prefers_me_principal() {
    let principals = vec![
        principal("local://other", Some("Other User"), None, None),
        principal("local://alice", Some("Alice"), None, Some(true)),
    ];
    assert_eq!(resolve_display_name(&principals), "Alice");
}

#[test]
fn display_name_falls_back_to_first_when_no_me() {
    let principals = vec![
        principal("local://first", Some("First"), None, None),
        principal("local://second", Some("Second"), None, None),
    ];
    assert_eq!(resolve_display_name(&principals), "First");
}

#[test]
fn display_name_uses_login_when_no_display_name() {
    let principals = vec![principal("local://alice", None, Some("alice@example.com"), Some(true))];
    assert_eq!(resolve_display_name(&principals), "alice@example.com");
}

#[test]
fn display_name_returns_unknown_when_no_names() {
    let principals = vec![principal("local://alice", None, None, Some(true))];
    assert_eq!(resolve_display_name(&principals), "unknown");
}

#[test]
fn display_name_returns_unknown_for_empty_list() {
    assert_eq!(resolve_display_name(&[]), "unknown");
}

#[test]
fn display_name_ignores_principals_that_are_marked_as_others() {
    let principals = vec![
        principal("a", Some("A"), None, Some(false)),
        principal("b", None, None, Some(true)),
        principal("c", Some("C"), None, Some(true)),
    ];
    assert_eq!(resolve_display_name(&principals), "unknown");
}

#[test]
fn match_roles_user_id_suffix_match() {
    // Rancher stores principals as "local://u-abc123"; userId is just "u-abc123".
    let bindings = vec![binding("mcp-user", Some("u-abc123"), None)];
    let principal_ids = vec!["local://u-abc123".to_string()];
    assert_eq!(match_roles(&bindings, &principal_ids), vec!["mcp-user"]);
}

#[test]
fn match_roles_group_principal_exact_match() {
    let bindings = vec![binding("cost-viewer", None, Some("ldap_group://devs"))];
    let principal_ids = vec!["ldap_group://devs".to_string()];
    assert_eq!(match_roles(&bindings, &principal_ids), vec!["cost-viewer"]);
}

#[test]
fn match_roles_no_match_returns_empty() {
    let bindings = vec![binding("admin", Some("u-other"), None)];
    let principal_ids = vec!["local://u-alice".to_string()];
    assert!(match_roles(&bindings, &principal_ids).is_empty());
}

#[test]
fn match_roles_multiple_matching_bindings() {
    let bindings = vec![
        binding("cost-viewer", Some("u-alice"), None),
        binding("platform-user", None, Some("ldap_group://platform")),
        binding("unrelated", Some("u-bob"), None),
    ];
    let principal_ids =
        vec!["local://u-alice".to_string(), "ldap_group://platform".to_string()];
    let mut roles = match_roles(&bindings, &principal_ids);
    roles.sort();
    assert_eq!(roles, vec!["cost-viewer", "platform-user"]);
}

#[test]
fn match_roles_group_requires_exact_match_not_suffix() {
    // Group principal IDs must match exactly: no suffix matching.
    let bindings = vec![binding("admin", None, Some("ldap_group://admins"))];
    let principal_ids = vec!["prefix_ldap_group://admins".to_string()];
    assert!(match_roles(&bindings, &principal_ids).is_empty());
}

#[test]
fn match_roles_empty_bindings() {
    let principal_ids = vec!["local://u-alice".to_string()];
    assert!(match_roles(&[], &principal_ids).is_empty());
}

#[test]
fn match_roles_keeps_order_and_repetitions() {
    let bindings = vec![
        binding("z", Some("u-1"), None),
        binding("a", Some("u-1"), Some("g")),
        binding("z", None, Some("g")),
        binding("none", None, None),
    ];
    let ids = vec!["local://u-1".to_string(), "g".to_string()];
    assert_eq!(match_roles(&bindings, &ids), vec!["z", "a", "z"]);
}

#[test]
fn auth_error_unreachable_returns_502() {
    let resp = AuthError::RancherUnreachable("timeout".into()).into_response();
    assert_eq!(resp.status(), StatusCode::BAD_GATEWAY.as_u16());
    assert_eq!(resp.body, "Authentication failed: unable to reach Rancher server");
}

#[test]
fn auth_error_invalid_token_returns_401() {
    let resp = AuthError::InvalidToken("expired".into()).into_response();
    assert_eq!(resp.status(), StatusCode::UNAUTHORIZED.as_u16());
    assert_eq!(resp.body, "Unauthorized: invalid or expired Rancher token");
}

#[test]
fn auth_error_bad_gateway_returns_502() {
    let resp = AuthError::BadGateway("parse error".into()).into_response();
    assert_eq!(resp.status(), StatusCode::BAD_GATEWAY.as_u16());
    assert_eq!(resp.body, "Authentication failed: unexpected response from Rancher");
}

#[test]
fn identify_without_principals_is_an_invalid_token() {
    let err = identify(&[]).unwrap_err();
    assert!(matches!(err, AuthError::InvalidToken(_)));
    assert_eq!(err.detail(), "no principals returned");
}

#[test]
fn identify_collects_all_principal_ids() {
    let user = identify(&[
        principal("g1", Some("Group"), None, None),
        principal("u1", Some("Alice"), None, Some(true)),
    ])
    .unwrap();
    assert_eq!(user.display_name, "Alice");
    assert_eq!(user.principal_ids, vec!["g1", "u1"]);
}

#[test]
fn credentials_are_read_from_headers_in_any_case() {
    let mut map = HeaderMap::new();
    map.insert("r_token", HeaderValue::from_static("token-x:y"));
    map.insert("R_URL", HeaderValue::from_static("https://rancher.example.com"));
    let c = Credentials::from_headers(&map).unwrap();
    assert_eq!(c.token, "token-x:y");
    assert_eq!(c.url, "https://rancher.example.com");
}

#[test]
fn credentials_drop_slashes_at_the_end_of_the_url() {
    let c = Credentials::from_headers(&headers("t", "https://rancher.example.com//")).unwrap();
    assert_eq!(c.url, "https://rancher.example.com");
}

#[test]
fn credentials_need_both_headers() {
    let mut only_token = HeaderMap::new();
    only_token.insert("r_token", HeaderValue::from_static("t"));
    assert!(Credentials::from_headers(&only_token).is_none());
    let mut only_url = HeaderMap::new();
    only_url.insert("r_url", HeaderValue::from_static("u"));
    assert!(Credentials::from_headers(&only_url).is_none());
    assert!(Credentials::from_headers(&headers("", "u")).is_none());
    assert!(Credentials::from_headers(&headers("t", "")).is_none());
}

#[test]
fn credentials_have_to_be_visible_ascii() {
    let mut map = headers("t", "u");
    map.insert("r_token", HeaderValue::from_bytes(b"t\xe9").unwrap());
    assert!(Credentials::from_headers(&map).is_none());
    map.insert("r_token", HeaderValue::from_bytes(b"a b\tc").unwrap());
    assert_eq!(Credentials::from_headers(&map).unwrap().token, "a b\tc");
}

#[test]
fn credentials_take_the_first_of_several_values() {
    let mut map = headers("first", "u");
    map.append("r_token", HeaderValue::from_static("second"));
    assert_eq!(Credentials::from_headers(&map).unwrap().token, "first");
}

#[test]
fn no_credentials_pass_through_without_a_question() {
    let flow = rancher_auth_middleware(&HeaderMap::new());
    assert!(flow.request().is_none());
    let flow = flow.on_principals(Ok(vec![principal("p", None, None, None)])).on_bindings(Ok(vec![]));
    assert!(matches!(flow, AuthFlow::PassThrough));
}

#[test]
fn both_questions_use_the_given_credentials() {
    let flow = rancher_auth_middleware(&headers("tok", "https://r/"));
    let first = flow.request().unwrap();
    assert_eq!(first.url, "https://r/v3/principals");
    assert_eq!(first.token, "tok");
    let flow = flow.on_principals(Ok(vec![principal("p", None, None, None)]));
    let second = flow.request().unwrap();
    assert_eq!(second.url, "https://r/v3/globalRoleBindings");
    assert_eq!(second.token, "tok");
}

#[test]
fn context_is_attached_after_both_answers() {
    let flow = rancher_auth_middleware(&headers("tok", "https://r"))
        .on_principals(Ok(vec![principal("local://u-1", Some("Alice"), None, Some(true))]))
        .on_bindings(Ok(vec![
            binding("mcp-user", Some("u-1"), None),
            binding("other", Some("u-2"), None),
        ]));
    assert!(flow.request().is_none());
    match flow {
        AuthFlow::Attached(AuthContext { display_name, roles }) => {
            assert_eq!(display_name, "Alice");
            assert_eq!(roles, vec!["mcp-user"]);
        }
        other => panic!("got {other:?}"),
    }
}

#[test]
fn failures_turn_the_request_away() {
    let flow = rancher_auth_middleware(&headers("tok", "https://r"))
        .on_principals(Err(AuthError::RancherUnreachable("down".into())));
    assert!(flow.request().is_none());
    assert!(matches!(flow, AuthFlow::Rejected(AuthError::RancherUnreachable(_))));

    let flow = rancher_auth_middleware(&headers("tok", "https://r")).on_principals(Ok(vec![]));
    assert!(matches!(flow, AuthFlow::Rejected(AuthError::InvalidToken(_))));

    let flow = rancher_auth_middleware(&headers("tok", "https://r"))
        .on_principals(Ok(vec![principal("p", None, None, None)]))
        .on_bindings(Err(AuthError::BadGateway("bad".into())));
    assert!(matches!(flow, AuthFlow::Rejected(AuthError::BadGateway(_))));
}

#[test]
fn rancher_answers_are_read_by_status() {
    let get = RancherGet { url: "https://r/v3/principals".into(), token: "t".into() };
    match get.after_send(GetOutcome::Unreachable("refused".into())) {
        GetStep::Fail(AuthError::RancherUnreachable(detail)) => {
            assert_eq!(detail, "https://r/v3/principals: refused")
        }
        _ => panic!("not unreachable"),
    }
    for status in [200, 204, 299] {
        assert!(matches!(get.after_send(GetOutcome::Answered(status)), GetStep::ReadBody));
    }
    for status in [199, 301, 401, 500] {
        match get.after_send(GetOutcome::Answered(status)) {
            GetStep::ReadErrorText(s) => assert_eq!(s, status),
            _ => panic!("{status} is no error"),
        }
    }
}

#[test]
fn refused_token_tells_status_and_body() {
    let get = RancherGet { url: "https://r/x".into(), token: "t".into() };
    let err = get.status_error(401, Some("must authenticate".into()));
    assert!(matches!(err, AuthError::InvalidToken(_)));
    assert_eq!(
        err.detail(),
        "Rancher returned 401 Unauthorized for https://r/x. Body: must authenticate"
    );
    assert_eq!(
        get.status_error(599, None).detail(),
        "Rancher returned 599 <unknown status code> for https://r/x. Body: "
    );
}

#[test]
fn bodies_that_are_not_collections_are_a_bad_gateway() {
    let get = RancherGet { url: "https://r/x".into(), token: "t".into() };
    let err = get.after_body::<GlobalRoleBinding>(CollectionOutcome::ReadFailed("eof".into()));
    match err {
        Err(AuthError::BadGateway(detail)) => {
            assert_eq!(detail, "failed to read body from https://r/x: eof")
        }
        _ => panic!("not a bad gateway"),
    }
    let err = get.after_body::<GlobalRoleBinding>(CollectionOutcome::ParseFailed {
        error: "expected value".into(),
        body: "<html>".into(),
    });
    match err {
        Err(AuthError::BadGateway(detail)) => {
            assert_eq!(detail, "failed to parse https://r/x: expected value. Body: <html>")
        }
        _ => panic!("not a bad gateway"),
    }
    let items = get.after_body(CollectionOutcome::Parsed(vec![binding("a", None, None)])).unwrap();
    assert_eq!(items[0].global_role_id, "a");
}

#[test]
fn auth_state_keeps_its_settings() {
    let state = RancherAuthState::new(false, 7, 60);
    assert!(!state.tls_verify());
    assert_eq!(state.rancher_timeout_secs(), 7);
    assert_eq!(state.auth_cache_ttl_secs(), 60);
}
