use traefik_authz_wasm::ast::{BinOp, Expr, Ident};
use traefik_authz_wasm::parser::parse;

#[test]
fn test_parse_simple_comparison() {
    let expr = parse(r#"method == "GET""#).unwrap();

    match expr {
        Expr::BinaryOp { op, left, right } => {
            assert_eq!(op, BinOp::Eq);
            assert_eq!(*left, Expr::Ident(Ident::Method));
            assert_eq!(*right, Expr::StringLiteral("GET".to_string()));
        }
        _ => panic!("Expected BinaryOp"),
    }
}

#[test]
fn test_parse_function_call() {
    let expr = parse(r#"contains(headerList("X-Auth-User-Teams"), "platform-eng")"#).unwrap();

    match expr {
        Expr::BinaryOp { op, left, right } => {
            assert_eq!(op, BinOp::Contains);

            // Left side: headerList("X-Auth-User-Teams")
            match &*left {
                Expr::FuncCall { name, args } => {
                    assert_eq!(name, "headerList");
                    assert_eq!(args.len(), 1);
                    assert_eq!(args[0], Expr::StringLiteral("X-Auth-User-Teams".to_string()));
                }
                _ => panic!("Expected FuncCall on left"),
            }

            // Right side: "platform-eng"
            assert_eq!(*right, Expr::StringLiteral("platform-eng".to_string()));
        }
        _ => panic!("Expected BinaryOp"),
    }
}

#[test]
fn test_parse_and_expression() {
    let expr = parse(r#"path startsWith "/api" AND method == "GET""#).unwrap();

    match expr {
        Expr::And(left, right) => {
            // Left: path startsWith "/api"
            match &*left {
                Expr::BinaryOp { op, .. } => assert_eq!(*op, BinOp::StartsWith),
                _ => panic!("Expected BinaryOp on left"),
            }

            // Right: method == "GET"
            match &*right {
                Expr::BinaryOp { op, .. } => assert_eq!(*op, BinOp::Eq),
                _ => panic!("Expected BinaryOp on right"),
            }
        }
        _ => panic!("Expected And"),
    }
}

#[test]
fn test_parse_complex_nested() {
    let expr =
        parse(r#"(method == "GET" OR method == "HEAD") AND path startsWith "/public""#).unwrap();

    match expr {
        Expr::And(left, right) => {
            // Left: (method == "GET" OR method == "HEAD")
            match &*left {
                Expr::Or(_, _) => {}
                _ => panic!("Expected Or on left"),
            }

            // Right: path startsWith "/public"
            match &*right {
                Expr::BinaryOp { op, .. } => assert_eq!(*op, BinOp::StartsWith),
                _ => panic!("Expected BinaryOp on right"),
            }
        }
        _ => panic!("Expected And"),
    }
}

#[test]
fn test_parse_not_expression() {
    let expr = parse(r#"NOT method == "DELETE""#).unwrap();

    match expr {
        Expr::Not(inner) => match &*inner {
            Expr::BinaryOp { op, .. } => assert_eq!(*op, BinOp::Eq),
            _ => panic!("Expected BinaryOp inside Not"),
        },
        _ => panic!("Expected Not"),
    }
}

#[test]
fn test_parse_parentheses() {
    let expr = parse(r#"(method == "GET")"#).unwrap();

    match expr {
        Expr::BinaryOp { op, .. } => assert_eq!(op, BinOp::Eq),
        _ => panic!("Expected BinaryOp"),
    }
}

#[test]
fn test_error_unclosed_paren() {
    let result = parse(r#"(method == "GET""#);
    assert!(result.is_err());
    let err = result.unwrap_err();
    assert!(err.message.contains("Expected"));
}

#[test]
fn test_error_unknown_identifier() {
    let result = parse(r#"unknown == "value""#);
    assert!(result.is_err());
    let err = result.unwrap_err();
    assert!(err.message.contains("Unknown identifier"));
}

#[test]
fn test_error_unexpected_token() {
    let result = parse(r#"method == "GET" unexpected"#);
    assert!(result.is_err());
    let err = result.unwrap_err();
    assert!(err.message.contains("Unexpected token"));
}

#[test]
fn test_round_trip_simple() {
    // Printing a parsed expression and reparsing yields the same tree.
    let sources = [
        r#"method == "GET""#,
        r#"path startsWith "/api" AND method == "GET""#,
        r#"(method == "GET" OR method == "HEAD") AND path startsWith "/public""#,
        r#"NOT method == "DELETE""#,
        r#"contains(headerList("X-Teams"), "platform-eng")"#,
        r#"anyOf(headerList("X-Roles"), "admin", "moderator")"#,
        r#"header("X-Test") != "x""#,
    ];
    for src in sources {
        let e1 = parse(src).unwrap();
        let printed = e1.to_source();
        let e2 = parse(printed.as_str()).unwrap();
        assert_eq!(e1, e2, "round trip failed for {}", src);
    }
}

#[test]
fn test_infix_and_call_forms_agree() {
    let a = parse(r#"path matches "^/x""#).unwrap();
    let b = parse(r#"matches(path, "^/x")"#).unwrap();
    assert_eq!(a, b);

    let c = parse(r#"contains(headerList("X"), "a")"#).unwrap();
    let d = parse(r#"headerList("X") contains "a""#).unwrap();
    assert_eq!(c, d);
}

#[test]
fn test_error_missing_value() {
    let result = parse(r#"method =="#);
    assert!(result.is_err());
    assert!(result.unwrap_err().message.contains("Expected value"));
}

#[test]
fn test_empty_argument_list() {
    let result = parse(r#"header()"#).unwrap();
    match result {
        Expr::FuncCall { name, args } => {
            assert_eq!(name, "header");
            assert_eq!(args.len(), 0);
        }
        _ => panic!("Expected FuncCall"),
    }
}
