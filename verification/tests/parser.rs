use ea_compiler::ast::SIMDVectorType;
use ea_compiler::error::CompileError;
use ea_compiler::lexer::TokenKind;
use ea_compiler::parser::{Parser, RecoveryAction};

fn parser(source: &str) -> Parser {
    Parser::new(ea_compiler::tokenize(source).unwrap())
}

fn message(e: CompileError) -> String {
    match e {
        CompileError::ParseError { message, .. } => message,
        other => panic!("unexpected error {:?}", other),
    }
}

#[test]
fn cursor_moves_over_tokens() {
    let mut p = parser("let x = 42;");
    assert_eq!(p.peek().kind, TokenKind::Let);
    assert!(p.check(&TokenKind::Let));
    assert!(!p.check(&TokenKind::Func));
    assert!(p.match_tokens(&[TokenKind::Func, TokenKind::Let]));
    assert_eq!(p.previous().kind, TokenKind::Let);
    assert!(!p.match_tokens(&[TokenKind::Func]));
    assert_eq!(p.consume_identifier("Expected variable name".to_string()).unwrap(), "x");
    assert_eq!(p.consume(TokenKind::Assign, "Expected '='".to_string()).unwrap().kind, TokenKind::Assign);
    assert!(p.check(&TokenKind::Integer(0)));
    let err = p.consume(TokenKind::Semicolon, "Expected ';'".to_string()).unwrap_err();
    match err {
        CompileError::ParseError { message, position } => {
            assert_eq!(message, "Expected ';'");
            assert_eq!(position.column, 9);
        }
        other => panic!("unexpected error {:?}", other),
    }
    assert_eq!(p.get_remaining_tokens().len(), 3);
    assert!(p.has_more_tokens());
    p.advance();
    p.advance();
    assert!(p.is_at_end());
    assert!(!p.has_more_tokens());
    // At the end of input the cursor stays put, after the last real token.
    assert_eq!(p.advance().kind, TokenKind::Semicolon);
    assert!(p.is_at_end());
    assert!(!p.check(&TokenKind::Eof));
    assert!(p.get_errors().is_empty());
}

#[test]
fn tokens_are_fetched_with_their_values() {
    let mut p = parser("7 \"s\" name [1]f32x4");
    assert_eq!(p.match_tokens_and_get(&[TokenKind::Integer(0)]).unwrap().kind, TokenKind::Integer(7));
    assert!(p.match_tokens_and_get(&[TokenKind::Integer(0)]).is_none());
    assert_eq!(
        p.match_tokens_and_get(&[TokenKind::StringLiteral(String::new())]).unwrap().kind,
        TokenKind::StringLiteral("s".to_string())
    );
    assert!(p.check_token_type(&TokenKind::Identifier(String::new())));
    assert!(p.check(&TokenKind::Identifier("other".to_string())));
    p.advance();
    assert!(p.check(&TokenKind::LeftBracket));
}

#[test]
fn type_names() {
    let mut p = parser("i32 f32x4 mask16 MyType 42");
    assert_eq!(p.consume_type_name("Expected type".to_string()).unwrap(), "i32");
    assert!(p.check_simd_type());
    assert_eq!(p.consume_type_name("Expected type".to_string()).unwrap(), "f32x4");
    assert_eq!(p.consume_type_name("Expected type".to_string()).unwrap(), "mask16");
    assert_eq!(p.consume_type_name("Expected type".to_string()).unwrap(), "MyType");
    assert!(!p.check_simd_type());
    assert_eq!(message(p.consume_type_name("Expected type".to_string()).unwrap_err()), "Expected type");
    assert!(p.check(&TokenKind::Integer(0)));
}

#[test]
fn simd_vector_types() {
    let p = parser("x");
    assert_eq!(p.parse_simd_vector_type(&TokenKind::F32x4).unwrap(), SIMDVectorType::F32x4);
    assert_eq!(p.parse_simd_vector_type(&TokenKind::Mask64).unwrap(), SIMDVectorType::Mask64);
    assert_eq!(
        message(p.parse_simd_vector_type(&TokenKind::Plus).unwrap_err()),
        "Invalid SIMD vector type: Plus"
    );
    assert_eq!(
        message(p.parse_simd_vector_type(&TokenKind::Identifier("v".to_string())).unwrap_err()),
        "Invalid SIMD vector type: Identifier(\"v\")"
    );
}

#[test]
fn kinds_are_written_in_debug_form() {
    let p = parser("x");
    assert_eq!(
        message(p.parse_simd_vector_type(&TokenKind::Integer(-42)).unwrap_err()),
        "Invalid SIMD vector type: Integer(-42)"
    );
    assert_eq!(
        message(p.parse_simd_vector_type(&TokenKind::Float("2.5".to_string())).unwrap_err()),
        "Invalid SIMD vector type: Float(2.5)"
    );
    assert_eq!(
        message(
            p.parse_simd_vector_type(&TokenKind::StringLiteral("a\"b".to_string())).unwrap_err()
        ),
        "Invalid SIMD vector type: StringLiteral(\"a\\\"b\")"
    );
    assert_eq!(
        message(p.parse_simd_vector_type(&TokenKind::DotGreaterEqual).unwrap_err()),
        "Invalid SIMD vector type: DotGreaterEqual"
    );
    assert_eq!(
        message(p.parse_simd_vector_type(&TokenKind::Eof).unwrap_err()),
        "Invalid SIMD vector type: Eof"
    );
}

#[test]
fn synchronizing_stops_at_statement_boundaries() {
    let mut p = parser("a b ; c let d");
    p.synchronize();
    assert_eq!(p.peek().kind, TokenKind::Identifier("c".to_string()));
    p.synchronize();
    assert_eq!(p.peek().kind, TokenKind::Identifier("c".to_string()));
    p.advance();
    p.synchronize();
    assert_eq!(p.peek().kind, TokenKind::Let);
    let mut q = parser("a b c");
    q.synchronize();
    assert!(q.is_at_end());
}

#[test]
fn levenshtein_distances() {
    assert_eq!(Parser::levenshtein_distance("kitten", "sitting"), 3);
    assert_eq!(Parser::levenshtein_distance("", "abc"), 3);
    assert_eq!(Parser::levenshtein_distance("fnuc", "func"), 2);
    assert_eq!(Parser::levenshtein_distance("flaot", "float"), 2);
    assert_eq!(Parser::levenshtein_distance("same", "same"), 0);
    // Counted over characters, not bytes.
    assert_eq!(Parser::levenshtein_distance("é", ""), 1);
    assert_eq!(Parser::levenshtein_distance("", "é"), 1);
    assert_eq!(Parser::levenshtein_distance("é", "e"), 1);
    assert_eq!(Parser::levenshtein_distance("aé", "aé"), 0);
}

#[test]
fn keyword_corrections() {
    let p = parser("x");
    assert_eq!(p.suggest_keyword_corrections("fnuc"), vec!["func".to_string(), "enum".to_string()]);
    assert_eq!(p.suggest_keyword_corrections("retrun"), vec!["return".to_string()]);
    assert_eq!(p.suggest_keyword_corrections("x"), vec!["if".to_string(), "i8".to_string(), "u8".to_string()]);
    assert!(p.suggest_keyword_corrections("completely_unrelated").is_empty());
}

#[test]
fn fix_suggestions() {
    let p = parser("x");
    let at = p.peek().position;
    let s = p.suggest_fixes(&CompileError::parse_error("Expected ';' after expression".to_string(), at));
    assert_eq!(s.len(), 1);
    assert_eq!(s[0].message, "Missing semicolon after statement");
    assert_eq!(s[0].suggested_fix, Some("Add ';' at the end of the statement".to_string()));

    let s = p.suggest_fixes(&CompileError::parse_error("Expected function name".to_string(), at));
    let messages: Vec<String> = s.iter().map(|x| x.message.clone()).collect();
    assert_eq!(messages, vec!["Function declaration syntax".to_string()]);

    let s = p.suggest_fixes(&CompileError::parse_error("Expected '(' after 'if'".to_string(), at));
    let messages: Vec<String> = s.iter().map(|x| x.message.clone()).collect();
    assert_eq!(messages, vec!["Control flow syntax".to_string()]);

    let s = p.suggest_fixes(&CompileError::lex_error("bad".to_string(), at));
    assert_eq!(s.len(), 1);
    assert_eq!(s[0].message, "Check syntax and refer to Eä language documentation");
    assert_eq!(s[0].suggested_fix, None);
}

#[test]
fn recovery_actions() {
    let mut p = parser("x");
    let at = p.peek().position;
    assert!(matches!(
        p.recover_from_parse_error(CompileError::parse_error("Expected ')' after arguments".to_string(), at)),
        RecoveryAction::Insert(TokenKind::RightParen)
    ));
    assert!(matches!(
        p.recover_from_parse_error(CompileError::parse_error("Expected ']' after index".to_string(), at)),
        RecoveryAction::Insert(TokenKind::RightBracket)
    ));
    assert!(matches!(
        p.recover_from_parse_error(CompileError::lex_error("Expected ';'".to_string(), at)),
        RecoveryAction::Synchronize
    ));

    assert!(matches!(
        p.attempt_recovery(&[TokenKind::RightBracket], "ctx"),
        Some(RecoveryAction::Insert(TokenKind::Semicolon))
    ));
    let mut q = parser("+ 1");
    assert!(matches!(
        q.attempt_recovery(&[TokenKind::Colon, TokenKind::RightBracket], "ctx"),
        Some(RecoveryAction::Insert(TokenKind::RightBracket))
    ));
    assert!(matches!(q.attempt_recovery(&[TokenKind::Colon], "ctx"), Some(RecoveryAction::Synchronize)));
}

#[test]
fn consuming_with_recovery() {
    let mut p = parser("a ]");
    assert_eq!(message(p.consume_with_recovery(TokenKind::RightBracket, "Expected ']'".to_string(), "ctx").unwrap_err()), "Expected ']'");
    assert_eq!(p.peek().kind, TokenKind::Identifier("a".to_string()));
    p.advance();
    assert_eq!(p.consume_with_recovery(TokenKind::RightBracket, "Expected ']'".to_string(), "ctx").unwrap().kind, TokenKind::RightBracket);

    let mut q = parser("+ x ; y");
    match q.consume_with_recovery(TokenKind::Colon, "Expected ':'".to_string(), "ctx").unwrap_err() {
        CompileError::ParseError { message, position } => {
            assert_eq!(message, "Expected ':'");
            assert_eq!(position.column, 7);
        }
        other => panic!("unexpected error {:?}", other),
    }
    assert_eq!(q.peek().kind, TokenKind::Identifier("y".to_string()));
}
