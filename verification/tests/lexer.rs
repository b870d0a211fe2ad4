use ea_compiler::lexer::{keyword_type, Lexer, Position, Token, TokenKind};

fn kinds(source: &str) -> Vec<TokenKind> {
    let mut lexer = Lexer::new(source);
    lexer.tokenize_all().unwrap().into_iter().map(|t| t.kind).collect()
}

#[test]
fn test_complex_simd_program() {
    let source = r#"
        func process_vectors(a: f32x8, b: f32x8) -> f32x8 {
            vectorize with simd_width(256) {
                let result = a .* b .+ f32x8::splat(1.0);
                return result;
            }
        }

        @target_feature(avx2)
        func optimized_compute() -> f32 {
            let vec = [1.0, 2.0, 3.0, 4.0, 5.0, 6.0, 7.0, 8.0]f32x8;
            return vec.horizontal_sum();
        }
    "#;

    let mut lexer = Lexer::new(source);
    let tokens = lexer.tokenize_all().unwrap();

    assert!(tokens.len() > 20);

    let token_kinds: Vec<&TokenKind> = tokens.iter().map(|t| &t.kind).collect();

    assert!(token_kinds.contains(&&TokenKind::F32x8));
    assert!(token_kinds.contains(&&TokenKind::Vectorize));
    assert!(token_kinds.contains(&&TokenKind::SimdWidth));
    assert!(token_kinds.contains(&&TokenKind::DotMultiply));
    assert!(token_kinds.contains(&&TokenKind::DotAdd));
    assert!(token_kinds.contains(&&TokenKind::TargetFeature));
    assert!(token_kinds.contains(&&TokenKind::AVX2));
    assert!(token_kinds.contains(&&TokenKind::HorizontalSum));
    assert!(token_kinds.contains(&&TokenKind::Splat));
}

#[test]
fn test_mixed_scalar_and_simd_types() {
    let mut lexer = Lexer::new("i32 f32x4 f64 i16x8 bool u8x16");
    let tokens = lexer.tokenize_all().unwrap();

    assert_eq!(tokens[0].kind, TokenKind::I32);
    assert_eq!(tokens[1].kind, TokenKind::F32x4);
    assert_eq!(tokens[2].kind, TokenKind::F64);
    assert_eq!(tokens[3].kind, TokenKind::I16x8);
    assert_eq!(tokens[4].kind, TokenKind::Bool);
    assert_eq!(tokens[5].kind, TokenKind::U8x16);
}

#[test]
fn test_simd_position_tracking() {
    let source = "vectorize\nf32x8";
    let mut lexer = Lexer::new(source);

    let token1 = lexer.next_token().unwrap();
    assert_eq!(token1.position.line, 1);
    assert_eq!(token1.position.column, 1);
    assert_eq!(token1.lexeme, "vectorize");

    let token2 = lexer.next_token().unwrap();
    assert_eq!(token2.position.line, 2);
    assert_eq!(token2.position.column, 1);
    assert_eq!(token2.lexeme, "f32x8");
}

#[test]
fn test_simd_error_on_invalid_character() {
    let mut lexer = Lexer::new("vectorize $ f32x4");
    let tokens = lexer.tokenize_all();

    assert!(tokens.is_err());
    if let Err(e) = tokens {
        let error_str = e.to_string();
        assert!(error_str.contains("Unexpected character"));
        assert!(error_str.contains("$"));
    }
}

#[test]
fn test_all_simd_vector_widths() {
    let simd_types = [
        "f32x2", "f32x4", "f32x8", "f32x16", "f64x2", "f64x4", "f64x8", "i32x2", "i32x4",
        "i32x8", "i32x16", "i64x2", "i64x4", "i64x8", "i16x4", "i16x8", "i16x16", "i16x32",
        "i8x8", "i8x16", "i8x32", "i8x64", "u32x4", "u32x8", "u16x8", "u16x16", "u8x16",
        "u8x32", "mask8", "mask16", "mask32", "mask64",
    ];

    for simd_type in simd_types {
        let mut lexer = Lexer::new(simd_type);
        let tokens = lexer.tokenize_all().unwrap();

        assert_eq!(tokens.len(), 2);
        assert_ne!(tokens[0].kind, TokenKind::Identifier(simd_type.to_string()));
        assert_eq!(tokens[1].kind, TokenKind::Eof);
    }
}

#[test]
fn test_simd_with_underscores_in_numbers() {
    let mut lexer = Lexer::new("let mask = 0xFF_FF_FF_FF; let vec: f32x4;");
    let tokens = lexer.tokenize_all().unwrap();

    let hex_token = tokens.iter().find(|t| matches!(t.kind, TokenKind::Integer(_))).unwrap();
    if let TokenKind::Integer(value) = hex_token.kind {
        assert_eq!(value, 0xFFFFFFFF);
    }

    let simd_token = tokens.iter().find(|t| t.kind == TokenKind::F32x4).unwrap();
    assert_eq!(simd_token.lexeme, "f32x4");
}

#[test]
fn test_simd_keywords() {
    let mut lexer = Lexer::new("vectorize simd_width simd_auto target_feature");
    let tokens = lexer.tokenize_all().unwrap();

    assert_eq!(tokens[0].kind, TokenKind::Vectorize);
    assert_eq!(tokens[1].kind, TokenKind::SimdWidth);
    assert_eq!(tokens[2].kind, TokenKind::SimdAuto);
    assert_eq!(tokens[3].kind, TokenKind::TargetFeature);
    assert_eq!(tokens[4].kind, TokenKind::Eof);
}

#[test]
fn test_simd_types() {
    let mut lexer = Lexer::new("f32x4 f64x8 i32x16 u8x32 mask16");
    let tokens = lexer.tokenize_all().unwrap();

    assert_eq!(tokens[0].kind, TokenKind::F32x4);
    assert_eq!(tokens[1].kind, TokenKind::F64x8);
    assert_eq!(tokens[2].kind, TokenKind::I32x16);
    assert_eq!(tokens[3].kind, TokenKind::U8x32);
    assert_eq!(tokens[4].kind, TokenKind::Mask16);
    assert_eq!(tokens[5].kind, TokenKind::Eof);
}

#[test]
fn test_hardware_features() {
    let mut lexer = Lexer::new("avx2 sse4 neon avx512");
    let tokens = lexer.tokenize_all().unwrap();

    assert_eq!(tokens[0].kind, TokenKind::AVX2);
    assert_eq!(tokens[1].kind, TokenKind::SSE4);
    assert_eq!(tokens[2].kind, TokenKind::NEON);
    assert_eq!(tokens[3].kind, TokenKind::AVX512);
}

#[test]
fn test_simd_operators() {
    let mut lexer = Lexer::new(".* .+ ./ .& .| .^");
    let tokens = lexer.tokenize_all().unwrap();

    assert_eq!(tokens[0].kind, TokenKind::DotMultiply);
    assert_eq!(tokens[1].kind, TokenKind::DotAdd);
    assert_eq!(tokens[2].kind, TokenKind::DotDivide);
    assert_eq!(tokens[3].kind, TokenKind::DotAnd);
    assert_eq!(tokens[4].kind, TokenKind::DotOr);
    assert_eq!(tokens[5].kind, TokenKind::DotXor);
}

#[test]
fn test_simd_vector_literals() {
    let input = "[1.0, 2.0, 3.0, 4.0]f32x4";
    let mut lexer = Lexer::new(input);
    let tokens = lexer.tokenize_all().unwrap();

    assert!(tokens.len() > 1);
    assert_eq!(tokens[0].kind, TokenKind::LeftBracket);
}

#[test]
fn test_simd_function_calls() {
    let mut lexer = Lexer::new("horizontal_sum from_slice to_array splat");
    let tokens = lexer.tokenize_all().unwrap();

    assert_eq!(tokens[0].kind, TokenKind::HorizontalSum);
    assert_eq!(tokens[1].kind, TokenKind::FromSlice);
    assert_eq!(tokens[2].kind, TokenKind::ToArray);
    assert_eq!(tokens[3].kind, TokenKind::Splat);
}

#[test]
fn test_enum_and_match_keywords() {
    let mut lexer = Lexer::new("enum Option match value");
    let tokens = lexer.tokenize_all().unwrap();

    assert_eq!(tokens[0].kind, TokenKind::Enum);
    assert_eq!(tokens[1].kind, TokenKind::Identifier("Option".to_string()));
    assert_eq!(tokens[2].kind, TokenKind::Match);
    assert_eq!(tokens[3].kind, TokenKind::Identifier("value".to_string()));
    assert_eq!(tokens[4].kind, TokenKind::Eof);
}

#[test]
fn operators_take_the_longest_match() {
    assert_eq!(
        kinds("+= -> => == != <= >= && || :: .== .!= .<= .>= .< .> . ! & = < > -"),
        vec![
            TokenKind::PlusAssign,
            TokenKind::Arrow,
            TokenKind::FatArrow,
            TokenKind::Equal,
            TokenKind::NotEqual,
            TokenKind::LessEqual,
            TokenKind::GreaterEqual,
            TokenKind::And,
            TokenKind::Or,
            TokenKind::DoubleColon,
            TokenKind::DotEqual,
            TokenKind::DotNotEqual,
            TokenKind::DotLessEqual,
            TokenKind::DotGreaterEqual,
            TokenKind::DotLess,
            TokenKind::DotGreater,
            TokenKind::Dot,
            TokenKind::Not,
            TokenKind::Ampersand,
            TokenKind::Assign,
            TokenKind::Less,
            TokenKind::Greater,
            TokenKind::Minus,
            TokenKind::Eof,
        ]
    );
}

#[test]
fn numbers_of_every_base() {
    assert_eq!(
        kinds("42 0b1010 0x1F 1_000 3.25 1.x 0x"),
        vec![
            TokenKind::Integer(42),
            TokenKind::Integer(10),
            TokenKind::Integer(31),
            TokenKind::Integer(1000),
            TokenKind::Float("3.25".to_string()),
            TokenKind::Integer(1),
            TokenKind::Dot,
            TokenKind::Identifier("x".to_string()),
            TokenKind::Integer(0),
            TokenKind::Identifier("x".to_string()),
            TokenKind::Eof,
        ]
    );
    // The largest i64 fits; one more does not.
    assert_eq!(kinds("9223372036854775807")[0], TokenKind::Integer(i64::MAX));
    let mut lexer = Lexer::new("9223372036854775808");
    let err = lexer.tokenize_all().unwrap_err();
    assert_eq!(
        err.to_string(),
        "Lexical error at 1:1: Unexpected character: '9223372036854775808'"
    );
}

#[test]
fn comments_and_strings() {
    assert_eq!(
        kinds("a // note\n/* block\n comment */ \"s\\\"q\" b"),
        vec![
            TokenKind::Identifier("a".to_string()),
            TokenKind::StringLiteral("s\\\"q".to_string()),
            TokenKind::Identifier("b".to_string()),
            TokenKind::Eof,
        ]
    );
    // A star right before the closing slash pairs with the star before it.
    assert_eq!(
        kinds("/* x **/"),
        vec![
            TokenKind::Slash,
            TokenKind::Star,
            TokenKind::Identifier("x".to_string()),
            TokenKind::Star,
            TokenKind::Star,
            TokenKind::Slash,
            TokenKind::Eof,
        ]
    );
    let mut lexer = Lexer::new("\"open");
    assert!(lexer.tokenize_all().is_err());
}

#[test]
fn positions_count_lines_bytes_and_columns() {
    let mut lexer = Lexer::new("let x\n  é = 1");
    let t1 = lexer.next_token().unwrap();
    assert_eq!(t1.position, Position::new(1, 1, 0));
    let t2 = lexer.next_token().unwrap();
    assert_eq!(t2.position, Position::new(1, 5, 4));
    let err = lexer.next_token().unwrap_err();
    assert_eq!(err.to_string(), "Lexical error at 2:3: Unexpected character: 'é'");
    let t3 = lexer.next_token().unwrap();
    assert_eq!(t3.kind, TokenKind::Assign);
    assert_eq!(t3.position, Position::new(2, 6, 11));
    let t4 = lexer.next_token().unwrap();
    assert_eq!(t4.kind, TokenKind::Integer(1));
    let eof = lexer.next_token().unwrap();
    assert_eq!(eof.kind, TokenKind::Eof);
    assert_eq!(eof.lexeme, "");
    assert_eq!(eof.position, Position::new(2, 9, 14));
    // The end keeps coming back.
    let again = lexer.next_token().unwrap();
    assert_eq!(again, Token::new(TokenKind::Eof, String::new(), Position::new(2, 9, 14)));
}

#[test]
fn token_kinds_write_out() {
    assert_eq!(TokenKind::Func.to_string(), "func");
    assert_eq!(TokenKind::DotLessEqual.to_string(), ".<=");
    assert_eq!(TokenKind::Newline.to_string(), "\\n");
    assert_eq!(TokenKind::Eof.to_string(), "EOF");
    assert_eq!(TokenKind::Integer(-12).to_string(), "-12");
    assert_eq!(TokenKind::Float("003.1400".to_string()).to_string(), "3.14");
    assert_eq!(TokenKind::Float("1.0".to_string()).to_string(), "1");
    assert_eq!(TokenKind::StringLiteral("hi".to_string()).to_string(), "\"hi\"");
    assert_eq!(TokenKind::Identifier("name".to_string()).to_string(), "name");
    assert_eq!(keyword_type("mem_region"), Some(TokenKind::MemRegion));
    assert_eq!(keyword_type("mem"), None);
}

#[test]
fn test_basic_tokenization() {
    let source = "func main() { let x = 42; }";
    let tokens = ea_compiler::tokenize(source).unwrap();

    assert!(!tokens.is_empty());
    assert_eq!(tokens[0].kind, TokenKind::Func);
    assert_eq!(tokens.last().unwrap().kind, TokenKind::Eof);
}

#[test]
fn simd_literal_texts() {
    let lexer = Lexer::new("");
    let text = "[1.0, 2.0, 3.0, 4.0]f32x4";
    assert_eq!(lexer.parse_simd_literal(text), Some(TokenKind::SimdLiteral(text.to_string())));
    assert_eq!(
        lexer.parse_simd_literal("[[1], [2]]u8x32"),
        Some(TokenKind::SimdLiteral("[[1], [2]]u8x32".to_string()))
    );
    assert_eq!(lexer.parse_simd_literal("[1]mask8"), None);
    assert_eq!(lexer.parse_simd_literal("1]f32x4"), None);
    assert_eq!(lexer.parse_simd_literal("[1, 2f32x4"), None);
    assert_eq!(lexer.parse_simd_literal("[1]f32x4 "), None);
    assert_eq!(lexer.parse_simd_literal(""), None);
}

#[test]
fn test_lexer_mem_keywords() {
    let input = "mem_region parallel vectorize async await";
    let mut lexer = Lexer::new(input);
    let tokens = lexer.tokenize_all().unwrap();

    assert_eq!(tokens[0].kind, TokenKind::MemRegion);
    assert_eq!(tokens[1].kind, TokenKind::Parallel);
    assert_eq!(tokens[2].kind, TokenKind::Vectorize);
    assert_eq!(tokens[3].kind, TokenKind::Async);
    assert_eq!(tokens[4].kind, TokenKind::Await);
    assert_eq!(tokens[5].kind, TokenKind::Eof);
}
