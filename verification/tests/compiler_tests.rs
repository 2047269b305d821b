use traefik_authz_wasm::ast::Expr;
use traefik_authz_wasm::compiler::Program;

#[test]
fn test_compile_simple_expression() {
    let program = Program::compile(r#"method == "GET""#).unwrap();
    assert!(matches!(program.root, Expr::BinaryOp { .. }));
}

#[test]
fn test_compile_complex_expression() {
    let program =
        Program::compile(r#"contains(headerList("X-Auth-User-Teams"), "platform-eng")"#).unwrap();
    assert!(matches!(program.root, Expr::BinaryOp { .. }));
}

#[test]
fn test_error_top_level_not_bool() {
    let result = Program::compile(r#"method"#);
    assert!(result.is_err());
    let err = result.unwrap_err();
    assert!(err.message.contains("must be boolean"));
}

#[test]
fn test_error_type_mismatch_and() {
    let result = Program::compile(r#"method AND path"#);
    assert!(result.is_err());
    let err = result.unwrap_err();
    assert!(err.message.contains("bool operands"));
}

#[test]
fn test_error_contains_wrong_type() {
    let result = Program::compile(r#"contains("foo", "bar")"#);
    assert!(result.is_err());
    let err = result.unwrap_err();
    assert!(err.message.contains("[]string"));
}

#[test]
fn test_error_function_arity() {
    let result = Program::compile(r#"header("X-Test", "extra")"#);
    assert!(result.is_err());
    let err = result.unwrap_err();
    assert!(err.message.contains("expects 1 argument"));
}

#[test]
fn test_error_anyof_arity() {
    let result = Program::compile(r#"anyOf(headerList("X-Test"))"#);
    assert!(result.is_err());
    let err = result.unwrap_err();
    assert!(err.message.contains("at least 2 arguments"));
}

#[test]
fn test_valid_anyof() {
    let program =
        Program::compile(r#"anyOf(headerList("X-Teams"), "platform-eng", "devops")"#).unwrap();
    assert!(matches!(program.root, Expr::FuncCall { .. }));
}

#[test]
fn test_valid_allof() {
    let program =
        Program::compile(r#"allOf(headerList("X-Teams"), "platform-eng", "devops")"#).unwrap();
    assert!(matches!(program.root, Expr::FuncCall { .. }));
}

#[test]
fn test_error_unknown_function() {
    let result = Program::compile(r#"unknownFunc("test")"#);
    assert!(result.is_err());
    let err = result.unwrap_err();
    assert!(err.message.contains("Unknown function"));
}

#[test]
fn test_matches_requires_literal_pattern() {
    // Dynamic patterns (e.g., from headers) must be rejected to prevent regex injection
    let result = Program::compile(r#"matches(path, header("X-Pattern"))"#);
    assert!(result.is_err());
    let err = result.unwrap_err();
    assert!(
        err.message.contains("string literal"),
        "Expected 'string literal' error, got: {}",
        err.message
    );
}

#[test]
fn test_matches_invalid_regex_caught_at_compile() {
    let result = Program::compile(r#"matches(path, "[invalid")"#);
    assert!(result.is_err());
    let err = result.unwrap_err();
    assert!(
        err.message.contains("Invalid regex"),
        "Expected 'Invalid regex' error, got: {}",
        err.message
    );
}

#[test]
fn test_matches_valid_regex_compiles() {
    let program = Program::compile(r#"matches(path, "^/api/v[0-9]+/.*")"#).unwrap();
    assert!(
        matches!(program.root, Expr::RegexMatch { .. }),
        "Expected RegexMatch, got: {:?}",
        program.root
    );
}

#[test]
fn test_matches_infix_dynamic_rejected() {
    // Infix syntax with dynamic pattern must also be rejected
    let result = Program::compile(r#"path matches header("X")"#);
    assert!(result.is_err());
    let err = result.unwrap_err();
    assert!(
        err.message.contains("string literal"),
        "Expected 'string literal' error, got: {}",
        err.message
    );
}

fn no_matches_op(e: &Expr) -> bool {
    match e {
        Expr::BinaryOp { op, left, right } => {
            !matches!(op, traefik_authz_wasm::ast::BinOp::Matches)
                && no_matches_op(left)
                && no_matches_op(right)
        }
        Expr::FuncCall { args, .. } => args.iter().all(no_matches_op),
        Expr::Not(inner) => no_matches_op(inner),
        Expr::And(l, r) => no_matches_op(l) && no_matches_op(r),
        Expr::Or(l, r) => no_matches_op(l) && no_matches_op(r),
        Expr::RegexMatch { expr, .. } => no_matches_op(expr),
        _ => true,
    }
}

#[test]
fn test_no_matches_survives_compilation() {
    // Every accepted `matches` becomes a RegexMatch node: nested use.
    let program =
        Program::compile(r#"matches(path, "^/a") AND NOT matches(host, "[.]internal$")"#).unwrap();
    assert!(no_matches_op(&program.root));
}

#[test]
fn test_error_parse_wrapped() {
    let result = Program::compile(r#"method == "#);
    assert!(result.is_err());
    assert!(result.unwrap_err().message.contains("Parse error"));
}

#[test]
fn test_error_not_requires_bool() {
    let result = Program::compile(r#"NOT method"#);
    assert!(result.is_err());
    assert!(result.unwrap_err().message.contains("bool operand"));
}

#[test]
fn test_error_anyof_item_type() {
    let result = Program::compile(r#"anyOf(headerList("X"), headerList("Y"))"#);
    assert!(result.is_err());
    assert!(result.unwrap_err().message.contains("string arguments"));
}
