use traefik_authz_wasm::config::{
    default_deny_body, default_deny_status_code, parse_expect, parse_status_code, HeadersOrString,
    TestRequest,
};

#[test]
fn test_test_request_default() {
    let req = TestRequest::default();
    assert_eq!(req.method, "");
    assert_eq!(req.path, "");
    assert_eq!(req.host, "");
    assert_eq!(req.headers.len(), 0);
}

#[test]
fn test_defaults() {
    assert_eq!(default_deny_status_code(), 403);
    assert_eq!(default_deny_body(), "Forbidden");
}

#[test]
fn test_parse_status_code_accepts_digits() {
    assert_eq!(parse_status_code("401"), Some(401));
    assert_eq!(parse_status_code("403"), Some(403));
    assert_eq!(parse_status_code("0"), Some(0));
    assert_eq!(parse_status_code("65535"), Some(65535));
    assert_eq!(parse_status_code("000500"), Some(500));
}

#[test]
fn test_parse_status_code_rejects_out_of_range() {
    assert_eq!(parse_status_code("65536"), None);
    assert_eq!(parse_status_code("99999999999999999999"), None);
}

#[test]
fn test_parse_status_code_rejects_non_digits() {
    assert_eq!(parse_status_code(""), None);
    assert_eq!(parse_status_code("4o3"), None);
    assert_eq!(parse_status_code("-1"), None);
    assert_eq!(parse_status_code(" 403"), None);
}

#[test]
fn test_parse_expect_exact_words() {
    assert_eq!(parse_expect("true"), Some(true));
    assert_eq!(parse_expect("false"), Some(false));
    assert_eq!(parse_expect("True"), None);
    assert_eq!(parse_expect(""), None);
    assert_eq!(parse_expect("yes"), None);
}

#[test]
fn test_headers_from_text() {
    assert!(matches!(
        HeadersOrString::from_text(""),
        Some(HeadersOrString::Empty)
    ));
    assert!(HeadersOrString::from_text("not a map").is_none());
}

#[test]
fn test_headers_into_map() {
    let empty = HeadersOrString::Empty.into_map();
    assert_eq!(empty.len(), 0);

    let pairs = vec![("X-Team".to_string(), "eng".to_string())];
    let m = HeadersOrString::Pairs(pairs.clone()).into_map();
    assert_eq!(m, pairs);
}
