use gateway::api::{ApiDefinition, ApiDefinitionSpec, ApiMode, check_for_conflicts};
use gateway::endpoint::Endpoint;
use gateway::route::{Node, strip_path};

fn ep(path: &str, method: &str) -> Endpoint {
    Endpoint {
        path: path.to_string(),
        method: method.to_string(),
        is_websocket: false,
        permission: String::new(),
        check_permission: false,
    }
}

fn strict_api(app_name: &str, host: &str, endpoints: Vec<Endpoint>) -> ApiDefinition {
    ApiDefinition {
        spec: ApiDefinitionSpec {
            app_name: app_name.to_string(),
            host: host.to_string(),
            mode: ApiMode::ForwardStrict(endpoints),
            forward_path: String::new(),
            uri_http: String::new(),
            uri_ws: String::new(),
        },
    }
}

#[test]
fn strip_path_removes_one_leading_and_one_trailing_slash() {
    assert_eq!(strip_path("/a/b/"), "a/b");
    assert_eq!(strip_path("/a/b"), "a/b");
    assert_eq!(strip_path("/"), "/");
    assert_eq!(strip_path(""), "");
    assert_eq!(strip_path("//"), "");
}

#[test]
fn match_returns_endpoint_for_exact_path_and_method() {
    let api = strict_api("/misc", "backend:8000", vec![ep("/events/", "GET")]);
    let node = Node::new(&api);
    let hit = node.match_path("/events/", "GET").expect("should match");
    assert_eq!(hit.path, "/events/");
    assert_eq!(hit.method, "GET");
    assert!(node.match_path("/events/", "POST").is_none());
    assert!(node.match_path("/other/", "GET").is_none());
}

#[test]
fn match_walks_parameter_child() {
    let api = strict_api(
        "/misc",
        "backend:8000",
        vec![ep("/events/{id}/prediction/", "GET")],
    );
    let node = Node::new(&api);
    let hit = node.match_path("/events/42/prediction/", "GET").expect("should match");
    assert_eq!(hit.permission, "misc::GET::/events/{}/prediction/");
    assert!(node.match_path("/events/42/", "GET").is_none());
    assert!(node.match_path("/events/42/prediction/more", "GET").is_none());
}

#[test]
fn match_prefers_literal_child_over_parameter() {
    let api = strict_api(
        "/misc",
        "backend:8000",
        vec![ep("/a/{x}/", "GET"), ep("/a/b/", "GET")],
    );
    let node = Node::new(&api);
    let hit = node.match_path("/a/b", "GET").expect("should match");
    assert_eq!(hit.path, "/a/b/");
    let hit2 = node.match_path("/a/c", "GET").expect("should match");
    assert_eq!(hit2.path, "/a/{x}/");
}

#[test]
fn trailing_slash_and_bare_form_both_match_either_tree() {
    for built_from in ["/events/live/", "/events/live"] {
        let api = strict_api("/misc", "backend:8000", vec![ep(built_from, "GET")]);
        let node = Node::new(&api);
        assert!(node.match_path("/events/live/", "GET").is_some());
        assert!(node.match_path("/events/live", "GET").is_some());
    }
}

#[test]
fn building_twice_from_one_definition_matches_alike() {
    let api = strict_api(
        "/misc",
        "backend:8000",
        vec![ep("/events/{id}/", "GET"), ep("/health-data/", "POST")],
    );
    let n1 = Node::new(&api);
    let n2 = Node::new(&api);
    for (path, method) in [
        ("/events/7/", "GET"),
        ("/events/7/", "POST"),
        ("/health-data/", "POST"),
        ("/nowhere/", "GET"),
    ] {
        let a = n1.match_path(path, method).map(|e| e.permission.clone());
        let b = n2.match_path(path, method).map(|e| e.permission.clone());
        assert_eq!(a, b);
    }
}

#[test]
fn build_permission_collapses_parameters() {
    let mut e = ep("/events/{id}/prediction/", "GET");
    e.build_permission("misc");
    assert_eq!(e.permission, "misc::GET::/events/{}/prediction/");

    let mut plain = ep("/status/", "POST");
    plain.build_permission("app");
    assert_eq!(plain.permission, "app::POST::/status/");
}

#[test]
fn build_permission_collapses_a_greedy_region_within_one_segment() {
    // two adjacent brace pairs inside one segment collapse as one region,
    // exactly as a greedy `{...}` match would
    let mut e = ep("/x/{a}{b}/", "GET");
    e.build_permission("app");
    assert_eq!(e.permission, "app::GET::/x/{}/");

    // an unmatched brace is left alone
    let mut lone = ep("/x/{a/", "GET");
    lone.build_permission("app");
    assert_eq!(lone.permission, "app::GET::/x/{a/");
}

#[test]
fn conflicts_see_a_partial_segment_hole() {
    let api = strict_api(
        "/misc",
        "backend:8000",
        vec![ep("/a/{x}b/", "GET"), ep("/a/cb/", "GET")],
    );
    assert!(check_for_conflicts(&api).is_err());
    let no_overlap = strict_api(
        "/misc",
        "backend:8000",
        vec![ep("/a/{x}b/", "GET"), ep("/a/cd/", "GET")],
    );
    assert!(check_for_conflicts(&no_overlap).is_ok());
}

#[test]
fn from_forward_all_builds_full_access_permission() {
    let e = Endpoint::from_forward_all("/x".to_string(), "GET".to_string(), "/foo_bar");
    assert_eq!(e.permission, "foo_bar::GET::FULL_ACCESS");
    assert!(e.check_permission);
    assert!(!e.is_websocket);
}

#[test]
fn endpoint_checks_accept_well_formed_paths() {
    assert!(ep("/events/{id}/", "GET").check_fields().is_ok());
    assert!(ep("/events/", "GET").check_fields().is_ok());
}

#[test]
fn endpoint_checks_reject_bad_paths_and_methods() {
    assert!(ep("", "GET").check_fields().is_err());
    assert!(ep("events/", "GET").check_fields().is_err());
    assert!(ep("/x{a}/", "GET").check_fields().is_err());
    assert!(ep("/events/", "").check_fields().is_err());
    assert!(ep("/events/", "BAD METHOD").check_fields().is_err());
}

#[test]
fn api_checks_accept_a_sound_definition() {
    let mut api = strict_api("/misc", "backend:8000", vec![ep("/events/", "GET")]);
    assert!(api.check_fields().is_ok());
    api.build_uri();
    assert_eq!(api.spec.uri_http, "http://backend:8000");
    assert_eq!(api.spec.uri_ws, "ws://backend:8000");
}

#[test]
fn api_checks_reject_bad_app_names() {
    assert!(strict_api("/", "backend:8000", vec![]).check_fields().is_err());
    assert!(strict_api("misc", "backend:8000", vec![]).check_fields().is_err());
    assert!(strict_api("/mi/sc", "backend:8000", vec![]).check_fields().is_err());
    assert!(strict_api("/metrics", "backend:8000", vec![]).check_fields().is_err());
    assert!(strict_api("/health", "backend:8000", vec![]).check_fields().is_err());
}

#[test]
fn api_checks_reject_a_host_that_is_no_authority() {
    assert!(strict_api("/misc", "bad host", vec![]).check_fields().is_err());
    assert!(strict_api("/misc", "", vec![]).check_fields().is_err());
    assert!(strict_api("/misc", "backend:8000", vec![]).check_fields().is_ok());
}

#[test]
fn api_checks_reject_a_relative_forward_path() {
    let mut api = strict_api("/misc", "backend:8000", vec![]);
    api.spec.forward_path = "x".to_string();
    assert!(api.check_fields().is_err());
    api.spec.forward_path = "/x".to_string();
    assert!(api.check_fields().is_ok());
    api.build_uri();
    assert_eq!(api.spec.uri_http, "http://backend:8000/x");
}

#[test]
fn conflicts_reject_duplicate_path_and_method() {
    let api = strict_api(
        "/misc",
        "backend:8000",
        vec![ep("/events/", "GET"), ep("/events/", "GET")],
    );
    assert!(check_for_conflicts(&api).is_err());
}

#[test]
fn conflicts_reject_a_parameter_template_shadowing_a_sibling() {
    let api = strict_api(
        "/misc",
        "backend:8000",
        vec![ep("/events/{id}/", "GET"), ep("/events/live/", "GET")],
    );
    assert!(check_for_conflicts(&api).is_err());
}

#[test]
fn conflicts_allow_the_same_paths_under_different_methods() {
    let api = strict_api(
        "/misc",
        "backend:8000",
        vec![ep("/events/{id}/", "GET"), ep("/events/live/", "POST")],
    );
    assert!(check_for_conflicts(&api).is_ok());
    let forward_all = ApiDefinition {
        spec: ApiDefinitionSpec {
            app_name: "/misc".to_string(),
            host: "backend:8000".to_string(),
            mode: ApiMode::ForwardAll,
            forward_path: String::new(),
            uri_http: String::new(),
            uri_ws: String::new(),
        },
    };
    assert!(check_for_conflicts(&forward_all).is_ok());
}
