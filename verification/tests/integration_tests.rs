use traefik_authz_wasm::ast::Expr;
use traefik_authz_wasm::compiler::Program;
use traefik_authz_wasm::config::{Config, TestCase, TestRequest};
use traefik_authz_wasm::context::RequestContext;
use traefik_authz_wasm::plugin::{run_self_tests, AuthzPlugin, Decision};

fn request(method: &str, path: &str, host: &str, headers: Vec<(String, String)>) -> TestRequest {
    TestRequest {
        method: method.to_string(),
        path: path.to_string(),
        host: host.to_string(),
        headers,
    }
}

#[test]
fn test_full_pipeline_simple() {
    let config = Config {
        expression: "method == \"GET\"".to_string(),
        deny_status_code: 403,
        deny_body: "Forbidden".to_string(),
        tests: Vec::new(),
    };
    let program = Program::compile(config.expression.as_str()).unwrap();

    // Test GET request
    let ctx = RequestContext::from_test(&request("GET", "/api", "example.com", Vec::new()));
    assert_eq!(program.eval(&ctx).unwrap(), true);

    // Test POST request
    let ctx = RequestContext::from_test(&request("POST", "/api", "example.com", Vec::new()));
    assert_eq!(program.eval(&ctx).unwrap(), false);
}

#[test]
fn test_full_pipeline_with_headers() {
    let config = Config {
        expression: "contains(headerList(\"X-Teams\"), \"platform-eng\")".to_string(),
        deny_status_code: 403,
        deny_body: "Access denied".to_string(),
        tests: Vec::new(),
    };
    let program = Program::compile(config.expression.as_str()).unwrap();

    // Test with correct team
    let headers = vec![("X-Teams".to_string(), "platform-eng,devops".to_string())];
    let ctx = RequestContext::from_test(&request("GET", "/api", "example.com", headers));
    assert_eq!(program.eval(&ctx).unwrap(), true);

    // Test with wrong team
    let headers = vec![("X-Teams".to_string(), "marketing".to_string())];
    let ctx = RequestContext::from_test(&request("GET", "/api", "example.com", headers));
    assert_eq!(program.eval(&ctx).unwrap(), false);
}

#[test]
fn test_config_with_test_cases() {
    let config = Config {
        expression: "method == \"GET\" AND path startsWith \"/api\"".to_string(),
        deny_status_code: 403,
        deny_body: "Forbidden".to_string(),
        tests: vec![
            TestCase {
                name: "GET /api allowed".to_string(),
                request: request("GET", "/api/users", "", Vec::new()),
                expect: true,
            },
            TestCase {
                name: "POST /api denied".to_string(),
                request: request("POST", "/api/users", "", Vec::new()),
                expect: false,
            },
            TestCase {
                name: "GET /public denied".to_string(),
                request: request("GET", "/public", "", Vec::new()),
                expect: false,
            },
        ],
    };
    let program = Program::compile(config.expression.as_str()).unwrap();

    // Validate all test cases
    for test_case in &config.tests {
        let ctx = RequestContext::from_test(&test_case.request);
        let result = program.eval(&ctx).unwrap();
        assert_eq!(
            result, test_case.expect,
            "Test '{}' failed: expected {}, got {}",
            test_case.name, test_case.expect, result
        );
    }
    assert!(run_self_tests(&program, &config.tests).is_ok());
}

#[test]
fn test_complex_expression_pipeline() {
    let expression = "(method == \"GET\" OR method == \"HEAD\") AND (path startsWith \"/api\" OR path startsWith \"/public\")";
    let tests = vec![
        TestCase {
            name: "GET /api".to_string(),
            request: request("GET", "/api/v1", "", Vec::new()),
            expect: true,
        },
        TestCase {
            name: "HEAD /public".to_string(),
            request: request("HEAD", "/public/index.html", "", Vec::new()),
            expect: true,
        },
        TestCase {
            name: "POST /api".to_string(),
            request: request("POST", "/api/v1", "", Vec::new()),
            expect: false,
        },
        TestCase {
            name: "GET /admin".to_string(),
            request: request("GET", "/admin", "", Vec::new()),
            expect: false,
        },
    ];
    let program = Program::compile(expression).unwrap();

    for test_case in &tests {
        let ctx = RequestContext::from_test(&test_case.request);
        let result = program.eval(&ctx).unwrap();
        assert_eq!(result, test_case.expect, "Test '{}' failed", test_case.name);
    }
}

#[test]
fn test_regex_in_pipeline() {
    let program = Program::compile("matches(path, \"^/api/v[0-9]+/.*\")").unwrap();

    // Test matching path
    let ctx = RequestContext::from_test(&request("GET", "/api/v1/users", "example.com", Vec::new()));
    assert_eq!(program.eval(&ctx).unwrap(), true);

    // Test non-matching path
    let ctx = RequestContext::from_test(&request("GET", "/api/users", "example.com", Vec::new()));
    assert_eq!(program.eval(&ctx).unwrap(), false);
}

#[test]
fn test_variadic_functions_pipeline() {
    let program = Program::compile("anyOf(headerList(\"X-Roles\"), \"admin\", \"moderator\")").unwrap();

    // Test with admin role
    let headers = vec![("X-Roles".to_string(), "admin,user".to_string())];
    let ctx = RequestContext::from_test(&request("GET", "/admin", "example.com", headers));
    assert_eq!(program.eval(&ctx).unwrap(), true);

    // Test with moderator role
    let headers = vec![("X-Roles".to_string(), "moderator,user".to_string())];
    let ctx = RequestContext::from_test(&request("GET", "/admin", "example.com", headers));
    assert_eq!(program.eval(&ctx).unwrap(), true);

    // Test without required roles
    let headers = vec![("X-Roles".to_string(), "user".to_string())];
    let ctx = RequestContext::from_test(&request("GET", "/admin", "example.com", headers));
    assert_eq!(program.eval(&ctx).unwrap(), false);
}

#[test]
fn test_decide_allow_deny() {
    let plugin = AuthzPlugin {
        program: Program::compile("method == \"GET\"").unwrap(),
        config: Config {
            expression: "method == \"GET\"".to_string(),
            deny_status_code: 401,
            deny_body: "Unauthorized".to_string(),
            tests: Vec::new(),
        },
    };

    let ctx = RequestContext::from_test(&request("GET", "/", "", Vec::new()));
    assert!(matches!(plugin.decide(&ctx), Decision::Allow));

    let ctx = RequestContext::from_test(&request("POST", "/", "", Vec::new()));
    match plugin.decide(&ctx) {
        Decision::Deny { status, body } => {
            assert_eq!(status, 401);
            assert_eq!(body, "Unauthorized");
        }
        other => panic!("expected Deny, got {:?}", other),
    }
}

#[test]
fn test_decide_fails_closed() {
    // An ill-typed hand-built program maps to InternalError, never Allow.
    let plugin = AuthzPlugin {
        program: Program {
            root: Expr::StringLiteral("not a bool".to_string()),
        },
        config: Config {
            expression: String::new(),
            deny_status_code: 403,
            deny_body: "Forbidden".to_string(),
            tests: Vec::new(),
        },
    };
    let ctx = RequestContext::from_test(&TestRequest::default());
    assert!(matches!(plugin.decide(&ctx), Decision::InternalError));
}

#[test]
fn test_run_self_tests_reports_first_failure() {
    let program = Program::compile("method == \"GET\"").unwrap();
    let tests = vec![
        TestCase {
            name: "passes".to_string(),
            request: request("GET", "/", "", Vec::new()),
            expect: true,
        },
        TestCase {
            name: "fails".to_string(),
            request: request("POST", "/", "", Vec::new()),
            expect: true,
        },
    ];
    assert_eq!(run_self_tests(&program, &tests), Err(1));
}
