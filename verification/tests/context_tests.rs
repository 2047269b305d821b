use traefik_authz_wasm::config::TestRequest;
use traefik_authz_wasm::context::{strip_query, RequestContext};

#[test]
fn test_from_test_basic() {
    let test_req = TestRequest {
        method: "GET".to_string(),
        path: "/api/users".to_string(),
        host: "example.com".to_string(),
        headers: Vec::new(),
    };

    let ctx = RequestContext::from_test(&test_req);
    assert_eq!(ctx.method, "GET");
    assert_eq!(ctx.path, "/api/users");
    assert_eq!(ctx.host, "example.com");
}

#[test]
fn test_header_case_insensitive() {
    let headers = vec![
        ("Content-Type".to_string(), "application/json".to_string()),
        ("X-Auth-User".to_string(), "alice".to_string()),
    ];

    let test_req = TestRequest {
        method: "POST".to_string(),
        path: "/api".to_string(),
        host: "example.com".to_string(),
        headers,
    };

    let ctx = RequestContext::from_test(&test_req);

    // Case-insensitive lookups
    assert_eq!(ctx.header("content-type"), "application/json");
    assert_eq!(ctx.header("Content-Type"), "application/json");
    assert_eq!(ctx.header("CONTENT-TYPE"), "application/json");
    assert_eq!(ctx.header("x-auth-user"), "alice");
    assert_eq!(ctx.header("X-Auth-User"), "alice");
}

#[test]
fn test_header_missing() {
    let test_req = TestRequest::default();
    let ctx = RequestContext::from_test(&test_req);

    assert_eq!(ctx.header("missing"), "");
}

#[test]
fn test_header_values() {
    let headers = vec![("X-Team".to_string(), "platform-eng".to_string())];

    let test_req = TestRequest {
        headers,
        ..Default::default()
    };

    let ctx = RequestContext::from_test(&test_req);

    let values = ctx.header_values("x-team");
    assert_eq!(values.len(), 1);
    assert_eq!(values[0], "platform-eng");
}

#[test]
fn test_header_list_single() {
    let headers = vec![("X-Teams".to_string(), "platform-eng,devops,sre".to_string())];

    let test_req = TestRequest {
        headers,
        ..Default::default()
    };

    let ctx = RequestContext::from_test(&test_req);

    let list = ctx.header_list("x-teams");
    assert_eq!(list.len(), 3);
    assert_eq!(list[0], "platform-eng");
    assert_eq!(list[1], "devops");
    assert_eq!(list[2], "sre");
}

#[test]
fn test_header_list_with_spaces() {
    let headers = vec![(
        "X-Teams".to_string(),
        "platform-eng , devops , sre".to_string(),
    )];

    let test_req = TestRequest {
        headers,
        ..Default::default()
    };

    let ctx = RequestContext::from_test(&test_req);

    let list = ctx.header_list("x-teams");
    assert_eq!(list.len(), 3);
    assert_eq!(list[0], "platform-eng");
    assert_eq!(list[1], "devops");
    assert_eq!(list[2], "sre");
}

#[test]
fn test_header_list_empty() {
    let test_req = TestRequest::default();
    let ctx = RequestContext::from_test(&test_req);

    let list = ctx.header_list("missing");
    assert_eq!(list.len(), 0);
}

#[test]
fn test_header_list_drops_empty_pieces() {
    let headers = vec![("X-Teams".to_string(), " , a,,b , ".to_string())];
    let test_req = TestRequest {
        headers,
        ..Default::default()
    };
    let ctx = RequestContext::from_test(&test_req);
    let list = ctx.header_list("x-teams");
    assert_eq!(list, vec!["a".to_string(), "b".to_string()]);
}

#[test]
fn test_first_value_wins() {
    // Two spellings of one name: the first pair supplies header()'s
    // value, and header_values collects both in order.
    let headers = vec![
        ("X-Team".to_string(), "first".to_string()),
        ("x-team".to_string(), "second".to_string()),
    ];
    let test_req = TestRequest {
        headers,
        ..Default::default()
    };
    let ctx = RequestContext::from_test(&test_req);
    assert_eq!(ctx.header("X-TEAM"), "first");
    let values = ctx.header_values("x-team");
    assert_eq!(values, vec!["first".to_string(), "second".to_string()]);
}

#[test]
fn test_header_uppercase_lookup_equal() {
    let headers = vec![("X-Mixed-Case".to_string(), "v".to_string())];
    let test_req = TestRequest {
        headers,
        ..Default::default()
    };
    let ctx = RequestContext::from_test(&test_req);
    assert_eq!(ctx.header("x-mixed-case"), ctx.header("X-MIXED-CASE"));
    assert_eq!(ctx.header("X-Mixed-Case"), "v");
}

#[test]
fn test_strip_query() {
    assert_eq!(strip_query("/api/users?x=1&y=2"), "/api/users");
    assert_eq!(strip_query("/api/users"), "/api/users");
    assert_eq!(strip_query("?q"), "");
}
