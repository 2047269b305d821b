use traefik_authz_wasm::lexer::{Lexer, Token};

#[test]
fn test_simple_expression() {
    let mut lexer = Lexer::new(r#"method == "GET""#);
    let tokens = lexer.tokenize().unwrap();

    assert_eq!(tokens.len(), 4); // ident, ==, string, EOF
    assert_eq!(tokens[0], Token::Ident("method".to_string()));
    assert_eq!(tokens[1], Token::OpEq);
    assert_eq!(tokens[2], Token::String("GET".to_string()));
    assert_eq!(tokens[3], Token::Eof);
}

#[test]
fn test_string_with_escapes() {
    let mut lexer = Lexer::new(r#""hello \"world\" \n""#);
    let tokens = lexer.tokenize().unwrap();

    assert_eq!(tokens.len(), 2); // string, EOF
    assert_eq!(tokens[0], Token::String("hello \"world\" \n".to_string()));
}

#[test]
fn test_all_operators() {
    let input = r#"== != startsWith endsWith contains matches"#;
    let mut lexer = Lexer::new(input);
    let tokens = lexer.tokenize().unwrap();

    assert_eq!(tokens[0], Token::OpEq);
    assert_eq!(tokens[1], Token::OpNeq);
    assert_eq!(tokens[2], Token::OpStartsWith);
    assert_eq!(tokens[3], Token::OpEndsWith);
    assert_eq!(tokens[4], Token::OpContains);
    assert_eq!(tokens[5], Token::OpMatches);
}

#[test]
fn test_all_keywords() {
    let mut lexer = Lexer::new("AND OR NOT");
    let tokens = lexer.tokenize().unwrap();

    assert_eq!(tokens[0], Token::KwAnd);
    assert_eq!(tokens[1], Token::KwOr);
    assert_eq!(tokens[2], Token::KwNot);
}

#[test]
fn test_function_call() {
    let mut lexer = Lexer::new(r#"header("X-Test")"#);
    let tokens = lexer.tokenize().unwrap();

    assert_eq!(tokens[0], Token::Ident("header".to_string()));
    assert_eq!(tokens[1], Token::LParen);
    assert_eq!(tokens[2], Token::String("X-Test".to_string()));
    assert_eq!(tokens[3], Token::RParen);
}

#[test]
fn test_complex_expression() {
    let input = r#"contains(headerList("X-Auth-User-Teams"), "platform-eng")"#;
    let mut lexer = Lexer::new(input);
    let tokens = lexer.tokenize().unwrap();

    assert_eq!(tokens[0], Token::OpContains); // contains is an operator!
    assert_eq!(tokens[1], Token::LParen);
    assert_eq!(tokens[2], Token::Ident("headerList".to_string()));
    assert_eq!(tokens[3], Token::LParen);
    assert_eq!(tokens[4], Token::String("X-Auth-User-Teams".to_string()));
    assert_eq!(tokens[5], Token::RParen);
    assert_eq!(tokens[6], Token::Comma);
    assert_eq!(tokens[7], Token::String("platform-eng".to_string()));
    assert_eq!(tokens[8], Token::RParen);
}

#[test]
fn test_error_unterminated_string() {
    let mut lexer = Lexer::new(r#""unterminated"#);
    let result = lexer.tokenize();

    assert!(result.is_err());
    let err = result.unwrap_err();
    assert!(err.message.contains("Unterminated string"));
}

#[test]
fn test_error_unexpected_char() {
    let mut lexer = Lexer::new("@invalid");
    let result = lexer.tokenize();

    assert!(result.is_err());
    let err = result.unwrap_err();
    assert!(err.message.contains("Unexpected character"));
}

#[test]
fn test_error_single_equals() {
    let mut lexer = Lexer::new("method = value");
    let result = lexer.tokenize();

    assert!(result.is_err());
    let err = result.unwrap_err();
    assert!(err.message.contains("Expected '=='"));
}

#[test]
fn test_error_positions() {
    let mut lexer = Lexer::new("  @");
    let err = lexer.tokenize().unwrap_err();
    assert_eq!(err.pos, 2);

    let mut lexer = Lexer::new(r#"a "x"#);
    let err = lexer.tokenize().unwrap_err();
    assert_eq!(err.pos, 2); // the opening quote

    let mut lexer = Lexer::new(r#""x\"#);
    let err = lexer.tokenize().unwrap_err();
    assert_eq!(err.pos, 3); // end of input, after the backslash
    assert!(err.message.contains("Unterminated escape"));
}

#[test]
fn test_other_escapes_kept_verbatim() {
    let mut lexer = Lexer::new(r#""a\qb\tc""#);
    let tokens = lexer.tokenize().unwrap();
    assert_eq!(tokens[0], Token::String("aqb\tc".to_string()));
}

#[test]
fn test_whitespace_only_input() {
    let mut lexer = Lexer::new("  \t\r\n ");
    let tokens = lexer.tokenize().unwrap();
    assert_eq!(tokens, vec![Token::Eof]);
}
