use gateway::api::{ApiDefinition, ApiDefinitionSpec, ApiMode};
use gateway::auth::{Claims, TokenSource, get_claims};
use gateway::dispatch::{ApiTable, Outcome, RequestInfo, cors_headers, dispatch_authorized,
    get_auth_from_url, get_response, health_response, route_request};
use gateway::endpoint::Endpoint;
use gateway::metrics::{Protocol, SocketMetrics, SocketMetricsGuard, commit_http_metrics,
    get_metric_name};
use gateway::permission::{PermCache, PermRecord, RefreshDecision, get_perm, has_perm,
    refresh_step, role_split, roles_for};
use gateway::runtime_config::AuthSource;
use gateway::websocket::{TunnelAction, TunnelEvent, backend_handshake_ok, tunnel_client_step,
    tunnel_server_step};

fn claims(token_id: &str) -> Claims {
    Claims {
        sub: "subject".to_string(),
        preferred_username: "user".to_string(),
        given_name: "Ada".to_string(),
        family_name: "Lovelace".to_string(),
        email: "ada@example.org".to_string(),
        token_id: token_id.to_string(),
    }
}

fn request(method: &str, path_and_query: &str, authorization: Option<&str>) -> RequestInfo {
    let path = match path_and_query.find('?') {
        Some(i) => &path_and_query[..i],
        None => path_and_query,
    };
    RequestInfo {
        method: method.to_string(),
        path: path.to_string(),
        path_and_query: path_and_query.to_string(),
        authorization: authorization.map(|a| a.to_string()),
        authorization_invalid: false,
        is_upgrade: false,
    }
}

fn record(role_name: &str, users: &[&str]) -> PermRecord {
    PermRecord {
        role_name: role_name.to_string(),
        user_id: users.iter().map(|u| u.to_string()).collect(),
    }
}

fn empty_cache() -> PermCache {
    PermCache { perm: Vec::new(), roles: Vec::new() }
}

fn forward_all_api(app_name: &str, host: &str) -> ApiDefinition {
    ApiDefinition {
        spec: ApiDefinitionSpec {
            app_name: app_name.to_string(),
            host: host.to_string(),
            mode: ApiMode::ForwardAll,
            forward_path: String::new(),
            uri_http: String::new(),
            uri_ws: String::new(),
        },
    }
}

#[test]
fn health_is_bypassed_and_answers_ok_with_cors() {
    let table = ApiTable::new();
    let out = route_request(&table, &empty_cache(), &Vec::new(), &request("GET", "/health", None));
    assert!(matches!(out, Outcome::Health));
    let (response, headers) = health_response();
    assert_eq!(response.status_code, 200);
    assert_eq!(response.body, "Ok");
    assert!(headers.contains(&("Access-Control-Allow-Origin".to_string(), "*".to_string())));
}

#[test]
fn metrics_path_is_bypassed() {
    let table = ApiTable::new();
    let out = route_request(&table, &empty_cache(), &Vec::new(), &request("GET", "/metrics", None));
    assert!(matches!(out, Outcome::Metrics));
}

#[test]
fn options_answers_204_with_empty_app_label() {
    let table = ApiTable::new();
    let out = route_request(&table, &empty_cache(), &Vec::new(), &request("OPTIONS", "/foo/x", None));
    match out {
        Outcome::Respond { response, commit } => {
            assert_eq!(response.status_code, 204);
            assert_eq!(commit.app, "");
            assert_eq!(commit.method, "OPTIONS");
            assert_eq!(commit.status_code, 204);
        },
        _ => panic!("expected a direct response"),
    }
}

#[test]
fn cors_header_set_is_complete() {
    let headers = cors_headers();
    assert_eq!(headers.len(), 6);
    assert_eq!(headers[0], ("Access-Control-Allow-Origin".to_string(), "*".to_string()));
    assert_eq!(headers[3].1, "Location, Retry-After");
    assert_eq!(headers[5], ("Access-Control-Max-Age".to_string(), "86400".to_string()));
}

#[test]
fn root_path_has_no_app_and_answers_404() {
    let table = ApiTable::new();
    let out = route_request(&table, &empty_cache(), &Vec::new(), &request("GET", "/", None));
    match out {
        Outcome::Respond { response, commit } => {
            assert_eq!(response.status_code, 404);
            assert_eq!(response.body, "Not Found");
            assert_eq!(commit.app, "");
        },
        _ => panic!("expected a direct response"),
    }
}

#[test]
fn missing_credential_answers_403_with_app_label() {
    let table = ApiTable::new();
    let out = route_request(&table, &empty_cache(), &Vec::new(), &request("GET", "/foo/x", None));
    match out {
        Outcome::Respond { response, commit } => {
            assert_eq!(response.status_code, 403);
            assert_eq!(response.body, "Forbidden");
            assert_eq!(commit.app, "/foo");
            assert_eq!(commit.status_code, 403);
        },
        _ => panic!("expected a direct response"),
    }
}

#[test]
fn authorization_no_longer_than_bearer_prefix_answers_403() {
    let table = ApiTable::new();
    for auth in ["Bearer ", "Bearer", ""] {
        let out = route_request(
            &table,
            &empty_cache(),
            &Vec::new(),
            &request("GET", "/foo/x", Some(auth)),
        );
        match out {
            Outcome::Respond { response, .. } => assert_eq!(response.status_code, 403),
            _ => panic!("expected a direct response"),
        }
    }
    assert!(get_claims("Bearer ", &Vec::new()).is_none());
}

#[test]
fn unreadable_authorization_header_answers_403() {
    let table = ApiTable::new();
    let mut req = request("GET", "/foo/x", None);
    req.authorization_invalid = true;
    let out = route_request(&table, &empty_cache(), &Vec::new(), &req);
    match out {
        Outcome::Respond { response, commit } => {
            assert_eq!(response.status_code, 403);
            assert_eq!(commit.app, "/foo");
        },
        _ => panic!("expected a direct response"),
    }
}

#[test]
fn auth_token_query_key_is_decoded_into_a_bearer_credential() {
    assert_eq!(
        get_auth_from_url("/foo/x?_auth_token=abc%20d"),
        Some("Bearer abc d".to_string())
    );
    assert_eq!(get_auth_from_url("/foo/x?a=1&_auth_token=tok"), Some("Bearer tok".to_string()));
    assert_eq!(get_auth_from_url("/foo/x?a=1"), None);
    assert_eq!(get_auth_from_url("/foo/x"), None);
}

#[test]
fn forward_all_builds_backend_uri_and_identity_headers() {
    let mut table = ApiTable::new();
    table.update_api(forward_all_api("/foo_bar", "backend:8000")).expect("valid definition");
    let records = vec![record("foo_bar::GET::FULL_ACCESS", &["tok-1"])];
    let cache = get_perm(&records);
    let req = request("GET", "/foo_bar/x?y=1", None);
    let out = dispatch_authorized(&table, &cache, &req, "/foo_bar", &claims("tok-1"), "user");
    match out {
        Outcome::ForwardHttp { uri, headers, app, method } => {
            assert_eq!(uri, "http://backend:8000/x?y=1");
            assert_eq!(app, "/foo_bar");
            assert_eq!(method, "GET");
            assert!(headers.contains(&("X-Forwarded-User".to_string(), "tok-1".to_string())));
            assert!(headers.contains(&("X-Forwarded-User-Type".to_string(), "user".to_string())));
        },
        _ => panic!("expected a forward"),
    }
}

#[test]
fn forward_all_without_the_full_access_permission_answers_403() {
    let mut table = ApiTable::new();
    table.update_api(forward_all_api("/foo_bar", "backend:8000")).expect("valid definition");
    let req = request("GET", "/foo_bar/x", None);
    let out = dispatch_authorized(
        &table,
        &empty_cache(),
        &req,
        "/foo_bar",
        &claims("tok-1"),
        "user",
    );
    match out {
        Outcome::Respond { response, commit } => {
            assert_eq!(response.status_code, 403);
            assert_eq!(commit.app, "/foo_bar");
        },
        _ => panic!("expected a direct response"),
    }
}

#[test]
fn strict_match_with_parameter_checks_the_collapsed_permission() {
    let mut table = ApiTable::new();
    let api = ApiDefinition {
        spec: ApiDefinitionSpec {
            app_name: "/misc".to_string(),
            host: "backend:8000".to_string(),
            mode: ApiMode::ForwardStrict(vec![Endpoint {
                path: "/events/{id}/prediction/".to_string(),
                method: "GET".to_string(),
                is_websocket: false,
                permission: String::new(),
                check_permission: true,
            }]),
            forward_path: String::new(),
            uri_http: String::new(),
            uri_ws: String::new(),
        },
    };
    table.update_api(api).expect("valid definition");
    let records = vec![record("misc::GET::/events/{}/prediction/", &["tok-9"])];
    let cache = get_perm(&records);
    let req = request("GET", "/misc/events/42/prediction/", None);
    let granted = dispatch_authorized(&table, &cache, &req, "/misc", &claims("tok-9"), "user");
    assert!(matches!(granted, Outcome::ForwardHttp { .. }));
    let denied = dispatch_authorized(&table, &cache, &req, "/misc", &claims("tok-0"), "user");
    match denied {
        Outcome::Respond { response, .. } => assert_eq!(response.status_code, 403),
        _ => panic!("expected a direct response"),
    }
}

#[test]
fn unknown_app_and_unknown_route_answer_404() {
    let mut table = ApiTable::new();
    let api = ApiDefinition {
        spec: ApiDefinitionSpec {
            app_name: "/misc".to_string(),
            host: "backend:8000".to_string(),
            mode: ApiMode::ForwardStrict(vec![Endpoint {
                path: "/events/".to_string(),
                method: "GET".to_string(),
                is_websocket: false,
                permission: String::new(),
                check_permission: false,
            }]),
            forward_path: String::new(),
            uri_http: String::new(),
            uri_ws: String::new(),
        },
    };
    table.update_api(api).expect("valid definition");
    let cache = empty_cache();
    let nowhere = request("GET", "/nowhere/x", None);
    match dispatch_authorized(&table, &cache, &nowhere, "/nowhere", &claims("t"), "user") {
        Outcome::Respond { response, .. } => assert_eq!(response.status_code, 404),
        _ => panic!("expected a direct response"),
    }
    let wrong_route = request("GET", "/misc/missing/", None);
    match dispatch_authorized(&table, &cache, &wrong_route, "/misc", &claims("t"), "user") {
        Outcome::Respond { response, .. } => assert_eq!(response.status_code, 404),
        _ => panic!("expected a direct response"),
    }
}

#[test]
fn update_api_rejects_an_invalid_definition_and_keeps_the_table() {
    let mut table = ApiTable::new();
    assert!(table.update_api(forward_all_api("metrics", "backend:8000")).is_err());
    let req = request("GET", "/metrics2/x", None);
    match dispatch_authorized(&table, &empty_cache(), &req, "/metrics2", &claims("t"), "user") {
        Outcome::Respond { response, .. } => assert_eq!(response.status_code, 404),
        _ => panic!("expected a direct response"),
    }
}

#[test]
fn websocket_endpoint_upgrades_or_requires_upgrade() {
    let mut table = ApiTable::new();
    let api = ApiDefinition {
        spec: ApiDefinitionSpec {
            app_name: "/live".to_string(),
            host: "backend:8000".to_string(),
            mode: ApiMode::ForwardStrict(vec![Endpoint {
                path: "/feed/".to_string(),
                method: "GET".to_string(),
                is_websocket: true,
                permission: String::new(),
                check_permission: false,
            }]),
            forward_path: String::new(),
            uri_http: String::new(),
            uri_ws: String::new(),
        },
    };
    table.update_api(api).expect("valid definition");
    let mut req = request("GET", "/live/feed/", None);
    req.is_upgrade = true;
    match dispatch_authorized(&table, &empty_cache(), &req, "/live", &claims("t"), "user") {
        Outcome::UpgradeWebsocket { uri, app, .. } => {
            assert_eq!(uri, "ws://backend:8000/feed/");
            assert_eq!(app, "/live");
        },
        _ => panic!("expected an upgrade"),
    }
    req.is_upgrade = false;
    match dispatch_authorized(&table, &empty_cache(), &req, "/live", &claims("t"), "user") {
        Outcome::Respond { response, .. } => assert_eq!(response.status_code, 426),
        _ => panic!("expected a direct response"),
    }
}

#[test]
fn tunnel_steps_count_messages_and_the_gauge_balances() {
    let mut metrics = SocketMetrics { clients: 0, message_sent: 0, message_received: 0 };
    let guard = SocketMetricsGuard::new("/live", &mut metrics);
    assert_eq!(metrics.clients, 1);
    assert_eq!(
        tunnel_client_step(&guard, &mut metrics, TunnelEvent::Message { len: 5 }),
        TunnelAction::Forward
    );
    assert_eq!(metrics.message_received, 1);
    assert_eq!(
        tunnel_server_step(&guard, &mut metrics, TunnelEvent::Message { len: 3 }),
        TunnelAction::Forward
    );
    assert_eq!(metrics.message_sent, 1);
    assert_eq!(
        tunnel_server_step(&guard, &mut metrics, TunnelEvent::Failed),
        TunnelAction::CloseAndStop
    );
    assert_eq!(
        tunnel_client_step(&guard, &mut metrics, TunnelEvent::Ended),
        TunnelAction::Stop
    );
    guard.close(&mut metrics);
    assert_eq!(metrics.clients, 0);
    assert_eq!(metrics.message_sent, 1);
    assert_eq!(metrics.message_received, 1);
}

#[test]
fn backend_handshake_accepts_only_switching_protocols() {
    assert!(backend_handshake_ok(101));
    assert!(!backend_handshake_ok(200));
    assert!(!backend_handshake_ok(502));
}

#[test]
fn permission_cache_is_rebuilt_and_evicts_dropped_users() {
    let first = vec![record("p", &["u"])];
    let mut cache = get_perm(&first);
    let mut errors: u64 = 0;
    assert!(has_perm(&cache, "p", "u"));
    let second = vec![record("p", &[])];
    let d = refresh_step(&mut cache, &mut errors, Some(get_perm(&second)), 3);
    assert_eq!(d, RefreshDecision::Swapped);
    assert_eq!(errors, 0);
    assert!(!has_perm(&cache, "p", "u"));
}

#[test]
fn refresh_failures_count_up_to_the_configured_bound() {
    let mut cache = get_perm(&vec![record("p", &["u"])]);
    let mut errors: u64 = 0;
    assert_eq!(refresh_step(&mut cache, &mut errors, None, 2), RefreshDecision::Tolerated);
    assert!(has_perm(&cache, "p", "u"));
    assert_eq!(refresh_step(&mut cache, &mut errors, None, 2), RefreshDecision::Exhausted);
    assert_eq!(errors, 2);
}

#[test]
fn identical_payloads_build_identical_observable_caches() {
    let records = vec![
        record("misc::roles::admin", &["u1", "u2"]),
        record("misc::roles::editor", &["u1"]),
        record("other::GET::/x/", &["u2"]),
    ];
    let a = get_perm(&records);
    let b = get_perm(&records);
    assert_eq!(has_perm(&a, "other::GET::/x/", "u2"), has_perm(&b, "other::GET::/x/", "u2"));
    assert_eq!(roles_for(&a, "u1", "misc"), roles_for(&b, "u1", "misc"));
    assert_eq!(roles_for(&a, "u1", "misc"), "admin,editor");
    assert_eq!(roles_for(&a, "u2", "misc"), "admin");
    assert_eq!(roles_for(&a, "u3", "misc"), "");
}

#[test]
fn permission_sets_merge_across_records() {
    let records = vec![record("p", &["a"]), record("p", &["b", "a"]), record("q", &["c"])];
    let cache = get_perm(&records);
    assert!(has_perm(&cache, "p", "a"));
    assert!(has_perm(&cache, "p", "b"));
    assert!(!has_perm(&cache, "p", "c"));
    assert!(has_perm(&cache, "q", "c"));
    assert!(!has_perm(&cache, "missing", "a"));
}

#[test]
fn duplicate_users_within_one_record_contribute_one_role() {
    let cache = get_perm(&vec![record("misc::roles::admin", &["u1", "u1", "u2"])]);
    assert_eq!(roles_for(&cache, "u1", "misc"), "admin");
    assert_eq!(roles_for(&cache, "u2", "misc"), "admin");
    assert!(has_perm(&cache, "misc::roles::admin", "u1"));
}

#[test]
fn role_split_requires_the_anchored_separator() {
    assert_eq!(role_split("app::roles::admin"), Some(("app".to_string(), "admin".to_string())));
    assert_eq!(role_split("app::roles::"), Some(("app".to_string(), String::new())));
    assert_eq!(role_split("app::perm::admin"), None);
    assert_eq!(role_split("::roles::admin"), None);
    assert_eq!(role_split("plain"), None);
}

#[test]
fn token_source_rejects_a_malformed_public_key() {
    let source = AuthSource {
        name: "main".to_string(),
        token_type: "user".to_string(),
        issuer: "https://issuer.example".to_string(),
        audience: "gateway".to_string(),
        public_key: "not a pem".to_string(),
    };
    assert!(TokenSource::new(&source).is_none());
}

#[test]
fn token_source_accepts_a_well_formed_public_key() {
    let mut pem = String::new();
    for line in [
        "-----BEGIN PUBLIC KEY-----",
        "MIIBIjANBgkqhkiG9w0BAQEFAAOCAQ8AMIIBCgKCAQEAwTb54qSahJOfPs/sUi48",
        "IP2t6Rg9czZn+2Py8keKeqv4Hm6kqA1bIgZbviRK65+jQuW5BUQblrXNvJyx8Fiq",
        "/CDeEbRKqMQLg8+Jf5cTj6fNAVuHCvPFbQu5Xqetx5JgiLG3ju3iHOHpuahPVESV",
        "czGTWNHXTDnLE4bTpb+2Da3qXKUfh7GMQzyV86lt91qXMdMCCIaBS2VSB2RNn8Qs",
        "BTNQiB//wdf6KJTRkdxbq1blgU5TwYOg2iwmBr9lcCGEEG/4o5hbgH33uMdsu2UE",
        "HSFk5Hn1J+5oKSjOVHR89S/fN+2VFu2dQl27JVYu5ivBmN2l/o9yGpGReQhl6fPl",
        "2QIDAQAB",
        "-----END PUBLIC KEY-----",
    ] {
        pem.push_str(line);
        pem.push('\n');
    }
    let source = AuthSource {
        name: "main".to_string(),
        token_type: "user".to_string(),
        issuer: "https://issuer.example".to_string(),
        audience: "gateway".to_string(),
        public_key: pem,
    };
    let built = TokenSource::new(&source).expect("a sound RSA public key builds a verifier");
    assert_eq!(built.name, "main");
    assert_eq!(built.token_type, "user");
    // a garbage token is rejected by the built verifier
    assert!(get_claims("Bearer not.a.token", &vec![built]).is_none());
}

#[test]
fn metric_names_carry_prefix_and_protocol() {
    assert_eq!(
        get_metric_name("edge", "requests_total", Protocol::Http),
        "gateway_edge_http_requests_total"
    );
    assert_eq!(get_metric_name("edge", "clients", Protocol::Socket), "gateway_edge_socket_clients");
}

#[test]
fn gateway_responses_commit_matching_labels() {
    let (response, commit) = get_response("/foo", "GET", 502, "Bad Gateway");
    assert_eq!(response.status_code, 502);
    assert_eq!(response.body, "Bad Gateway");
    assert_eq!(commit.app, "/foo");
    assert_eq!(commit.method, "GET");
    assert_eq!(commit.status_code, 502);
    let forwarded = commit_http_metrics("/foo", "GET", 200);
    assert_eq!(forwarded.status_code, 200);
}
