use ea_compiler::error::CompileError;
use ea_compiler::lexer::Position;

#[test]
fn errors_write_out_with_positions() {
    let at = Position::new(3, 7, 40);
    assert_eq!(
        CompileError::lex_error("bad".to_string(), at.clone()).to_string(),
        "Lexical error at 3:7: bad"
    );
    assert_eq!(
        CompileError::parse_error("expected ;".to_string(), at.clone()).to_string(),
        "Parse error at 3:7: expected ;"
    );
    assert_eq!(
        CompileError::type_error("mismatch".to_string(), at.clone()).to_string(),
        "Type error at 3:7: mismatch"
    );
    assert_eq!(
        CompileError::codegen_error("no target".to_string(), Some(at)).to_string(),
        "Code generation error at 3:7: no target"
    );
}

#[test]
fn errors_without_positions() {
    assert_eq!(
        CompileError::codegen_error("no target".to_string(), None).to_string(),
        "Code generation error: no target"
    );
    assert_eq!(
        CompileError::memory_exhausted("parsing".to_string(), "too big".to_string()).to_string(),
        "Memory exhausted during parsing: too big"
    );
}

#[test]
fn constructors_keep_their_fields() {
    match CompileError::parse_error("m".to_string(), Position::new(1, 2, 3)) {
        CompileError::ParseError { message, position } => {
            assert_eq!(message, "m");
            assert_eq!(position, Position::new(1, 2, 3));
        }
        _ => panic!("wrong variant"),
    }
}
