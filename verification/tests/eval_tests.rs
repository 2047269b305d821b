use traefik_authz_wasm::ast::Expr;
use traefik_authz_wasm::compiler::Program;
use traefik_authz_wasm::config::TestRequest;
use traefik_authz_wasm::context::RequestContext;

fn make_context(method: &str, path: &str, host: &str) -> RequestContext {
    let req = TestRequest {
        method: method.to_string(),
        path: path.to_string(),
        host: host.to_string(),
        headers: Vec::new(),
    };
    RequestContext::from_test(&req)
}

fn make_context_with_headers(
    method: &str,
    path: &str,
    host: &str,
    headers: Vec<(String, String)>,
) -> RequestContext {
    let req = TestRequest {
        method: method.to_string(),
        path: path.to_string(),
        host: host.to_string(),
        headers,
    };
    RequestContext::from_test(&req)
}

#[test]
fn test_eval_simple_comparison() {
    let program = Program::compile(r#"method == "GET""#).unwrap();
    let ctx = make_context("GET", "/api", "example.com");
    assert_eq!(program.eval(&ctx).unwrap(), true);

    let ctx = make_context("POST", "/api", "example.com");
    assert_eq!(program.eval(&ctx).unwrap(), false);
}

#[test]
fn test_eval_starts_with() {
    let program = Program::compile(r#"path startsWith "/api""#).unwrap();
    let ctx = make_context("GET", "/api/users", "example.com");
    assert_eq!(program.eval(&ctx).unwrap(), true);

    let ctx = make_context("GET", "/public", "example.com");
    assert_eq!(program.eval(&ctx).unwrap(), false);
}

#[test]
fn test_eval_and_expression() {
    let program = Program::compile(r#"method == "GET" AND path startsWith "/api""#).unwrap();

    let ctx = make_context("GET", "/api/users", "example.com");
    assert_eq!(program.eval(&ctx).unwrap(), true);

    let ctx = make_context("POST", "/api/users", "example.com");
    assert_eq!(program.eval(&ctx).unwrap(), false);

    let ctx = make_context("GET", "/public", "example.com");
    assert_eq!(program.eval(&ctx).unwrap(), false);
}

#[test]
fn test_eval_or_expression() {
    let program = Program::compile(r#"method == "GET" OR method == "HEAD""#).unwrap();

    let ctx = make_context("GET", "/", "example.com");
    assert_eq!(program.eval(&ctx).unwrap(), true);

    let ctx = make_context("HEAD", "/", "example.com");
    assert_eq!(program.eval(&ctx).unwrap(), true);

    let ctx = make_context("POST", "/", "example.com");
    assert_eq!(program.eval(&ctx).unwrap(), false);
}

#[test]
fn test_eval_not_expression() {
    let program = Program::compile(r#"NOT method == "DELETE""#).unwrap();

    let ctx = make_context("GET", "/", "example.com");
    assert_eq!(program.eval(&ctx).unwrap(), true);

    let ctx = make_context("DELETE", "/", "example.com");
    assert_eq!(program.eval(&ctx).unwrap(), false);
}

#[test]
fn test_eval_header_function() {
    let headers = vec![("X-Test".to_string(), "value123".to_string())];

    let program = Program::compile(r#"header("X-Test") == "value123""#).unwrap();
    let ctx = make_context_with_headers("GET", "/", "example.com", headers);
    assert_eq!(program.eval(&ctx).unwrap(), true);
}

#[test]
fn test_eval_header_list_contains() {
    let headers = vec![("X-Teams".to_string(), "platform-eng,devops,sre".to_string())];

    let program = Program::compile(r#"contains(headerList("X-Teams"), "platform-eng")"#).unwrap();
    let ctx = make_context_with_headers("GET", "/", "example.com", headers);
    assert_eq!(program.eval(&ctx).unwrap(), true);
}

#[test]
fn test_eval_anyof() {
    let headers = vec![("X-Teams".to_string(), "platform-eng,devops".to_string())];

    let program =
        Program::compile(r#"anyOf(headerList("X-Teams"), "platform-eng", "sre")"#).unwrap();
    let ctx = make_context_with_headers("GET", "/", "example.com", headers);
    assert_eq!(program.eval(&ctx).unwrap(), true);
}

#[test]
fn test_eval_allof() {
    let program =
        Program::compile(r#"allOf(headerList("X-Teams"), "platform-eng", "devops")"#).unwrap();

    let headers = vec![("X-Teams".to_string(), "platform-eng,devops,sre".to_string())];
    let ctx = make_context_with_headers("GET", "/", "example.com", headers);
    assert_eq!(program.eval(&ctx).unwrap(), true);

    // Missing one team
    let headers = vec![("X-Teams".to_string(), "platform-eng".to_string())];
    let ctx = make_context_with_headers("GET", "/", "example.com", headers);
    assert_eq!(program.eval(&ctx).unwrap(), false);
}

#[test]
fn test_eval_regex_matches() {
    let program = Program::compile(r#"matches(path, "^/api/v[0-9]+/.*")"#).unwrap();

    let ctx = make_context("GET", "/api/v1/users", "example.com");
    assert_eq!(program.eval(&ctx).unwrap(), true);

    let ctx = make_context("GET", "/api/users", "example.com");
    assert_eq!(program.eval(&ctx).unwrap(), false);
}

#[test]
fn test_eval_regex_error() {
    // An invalid pattern never reaches evaluation: compilation rejects it.
    let result = Program::compile(r#"matches(path, "[invalid")"#);
    assert!(result.is_err());
    assert!(result.unwrap_err().message.contains("regex"));
}

#[test]
fn test_eval_complex_expression() {
    let headers = vec![("X-Teams".to_string(), "platform-eng,devops".to_string())];

    let program = Program::compile(
        r#"(method == "GET" OR method == "HEAD") AND contains(headerList("X-Teams"), "platform-eng")"#,
    )
    .unwrap();

    let ctx = make_context_with_headers("GET", "/api", "example.com", headers.clone());
    assert_eq!(program.eval(&ctx).unwrap(), true);

    let ctx = make_context_with_headers("POST", "/api", "example.com", headers);
    assert_eq!(program.eval(&ctx).unwrap(), false);
}

#[test]
fn test_eval_short_circuit_and() {
    // The right operand of AND is not evaluated when the left is false:
    // here the right operand would fail (its operand is not a boolean).
    let program = Program {
        root: Expr::And(
            Box::new(Expr::BoolLiteral(false)),
            Box::new(Expr::Not(Box::new(Expr::StringLiteral("x".to_string())))),
        ),
    };
    let ctx = make_context("GET", "/", "example.com");
    assert_eq!(program.eval(&ctx).unwrap(), false);
}

#[test]
fn test_eval_short_circuit_or() {
    let program = Program {
        root: Expr::Or(
            Box::new(Expr::BoolLiteral(true)),
            Box::new(Expr::Not(Box::new(Expr::StringLiteral("x".to_string())))),
        ),
    };
    let ctx = make_context("GET", "/", "example.com");
    assert_eq!(program.eval(&ctx).unwrap(), true);
}

#[test]
fn test_eval_error_on_ill_typed_tree() {
    // A hand-built ill-typed tree is reported as an evaluation error,
    // never a panic (defense in depth; the compiler rejects such trees).
    let program = Program {
        root: Expr::Not(Box::new(Expr::StringLiteral("x".to_string()))),
    };
    let ctx = make_context("GET", "/", "example.com");
    let result = program.eval(&ctx);
    assert!(result.is_err());
    assert!(result.unwrap_err().message.contains("bool"));
}

#[test]
fn test_eval_ends_with() {
    let program = Program::compile(r#"path endsWith ".html""#).unwrap();
    let ctx = make_context("GET", "/index.html", "example.com");
    assert_eq!(program.eval(&ctx).unwrap(), true);
    let ctx = make_context("GET", "/index.css", "example.com");
    assert_eq!(program.eval(&ctx).unwrap(), false);
}

#[test]
fn test_eval_neq_and_host() {
    let program = Program::compile(r#"host != "evil.example""#).unwrap();
    let ctx = make_context("GET", "/", "example.com");
    assert_eq!(program.eval(&ctx).unwrap(), true);
    let ctx = make_context("GET", "/", "evil.example");
    assert_eq!(program.eval(&ctx).unwrap(), false);
}

#[test]
fn test_eval_header_values() {
    let headers = vec![
        ("X-Team".to_string(), "one".to_string()),
        ("x-team".to_string(), "two".to_string()),
    ];
    // headerValues sees every recorded value; contains is element-exact.
    let program = Program::compile(r#"contains(headerValues("X-Team"), "two")"#).unwrap();
    let ctx = make_context_with_headers("GET", "/", "example.com", headers);
    assert_eq!(program.eval(&ctx).unwrap(), true);
}

#[test]
fn test_eval_unanchored_match() {
    // Matching is unanchored: the pattern may match anywhere.
    let program = Program::compile(r#"matches(path, "v[0-9]+")"#).unwrap();
    let ctx = make_context("GET", "/api/v2/users", "example.com");
    assert_eq!(program.eval(&ctx).unwrap(), true);
}

#[test]
fn test_eval_header_list_contains_absent_or_wrong() {
    let program = Program::compile(r#"contains(headerList("X-Teams"), "platform-eng")"#).unwrap();

    // Wrong team
    let headers = vec![("X-Teams".to_string(), "marketing".to_string())];
    let ctx = make_context_with_headers("GET", "/", "example.com", headers);
    assert_eq!(program.eval(&ctx).unwrap(), false);

    // Header absent
    let ctx = make_context("GET", "/", "example.com");
    assert_eq!(program.eval(&ctx).unwrap(), false);
}

#[test]
fn test_eval_anyof_no_match() {
    let headers = vec![("X-Roles".to_string(), "user".to_string())];
    let program =
        Program::compile(r#"anyOf(headerList("X-Roles"), "admin", "moderator")"#).unwrap();
    let ctx = make_context_with_headers("GET", "/", "example.com", headers);
    assert_eq!(program.eval(&ctx).unwrap(), false);
}

#[test]
fn test_eval_header_values_absent() {
    let program = Program::compile(r#"contains(headerValues("X-Gone"), "x")"#).unwrap();
    let ctx = make_context("GET", "/", "example.com");
    assert_eq!(program.eval(&ctx).unwrap(), false);
}

#[test]
fn test_eval_double_not() {
    // NOT NOT over a comparison exercises nested boolean nodes.
    let program = Program::compile(r#"NOT NOT method == "GET""#).unwrap();
    let ctx = make_context("GET", "/", "example.com");
    assert_eq!(program.eval(&ctx).unwrap(), true);
}
