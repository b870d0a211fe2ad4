use ea_compiler::lexer::tokens::{
    element_type_bits, get_hardware_simd_width, get_optimal_simd_width, get_simd_info,
    is_any_operator, is_hardware_feature, is_keyword, is_literal, is_operator,
    is_right_associative, is_scalar_type, is_simd_compatible_with_hardware, is_simd_keyword,
    is_simd_operator, is_simd_type, is_type, operator_precedence, simd_to_scalar_operator,
    SimdInfo,
};
use ea_compiler::lexer::TokenKind;

#[test]
fn test_keyword_detection() {
    assert!(is_keyword(&TokenKind::Func));
    assert!(is_keyword(&TokenKind::Let));
    assert!(!is_keyword(&TokenKind::Plus));
    assert!(!is_keyword(&TokenKind::Identifier("test".to_string())));
}

#[test]
fn test_simd_keyword_detection() {
    assert!(is_simd_keyword(&TokenKind::Vectorize));
    assert!(is_simd_keyword(&TokenKind::SimdWidth));
    assert!(!is_simd_keyword(&TokenKind::Func));
}

#[test]
fn test_simd_type_detection() {
    assert!(is_simd_type(&TokenKind::F32x4));
    assert!(is_simd_type(&TokenKind::I32x8));
    assert!(is_simd_type(&TokenKind::Mask16));
    assert!(!is_simd_type(&TokenKind::F32));
    assert!(!is_simd_type(&TokenKind::I32));
}

#[test]
fn test_scalar_type_detection() {
    assert!(is_scalar_type(&TokenKind::F32));
    assert!(is_scalar_type(&TokenKind::I32));
    assert!(is_scalar_type(&TokenKind::Bool));
    assert!(!is_scalar_type(&TokenKind::F32x4));
}

#[test]
fn test_hardware_feature_detection() {
    assert!(is_hardware_feature(&TokenKind::AVX2));
    assert!(is_hardware_feature(&TokenKind::SSE4));
    assert!(is_hardware_feature(&TokenKind::NEON));
    assert!(!is_hardware_feature(&TokenKind::F32x4));
}

#[test]
fn test_operator_precedence() {
    assert_eq!(operator_precedence(&TokenKind::Plus), Some(5));
    assert_eq!(operator_precedence(&TokenKind::Star), Some(6));
    assert_eq!(operator_precedence(&TokenKind::DotAdd), Some(5));
    assert_eq!(operator_precedence(&TokenKind::DotMultiply), Some(6));
    assert_eq!(operator_precedence(&TokenKind::Func), None);
}

#[test]
fn test_simd_info_extraction() {
    let info = get_simd_info(&TokenKind::F32x4).unwrap();
    assert_eq!(info.element_type, "f32");
    assert_eq!(info.width, 4);
    assert_eq!(info.total_bits, 128);

    let info = get_simd_info(&TokenKind::I64x8).unwrap();
    assert_eq!(info.element_type, "i64");
    assert_eq!(info.width, 8);
    assert_eq!(info.total_bits, 512);
}

#[test]
fn test_hardware_compatibility() {
    assert!(is_simd_compatible_with_hardware(&TokenKind::F32x4, &TokenKind::SSE));
    assert!(is_simd_compatible_with_hardware(&TokenKind::F32x8, &TokenKind::AVX));
    assert!(is_simd_compatible_with_hardware(&TokenKind::F32x16, &TokenKind::AVX512));

    // Too wide for the hardware.
    assert!(!is_simd_compatible_with_hardware(&TokenKind::F32x16, &TokenKind::SSE));
}

#[test]
fn test_optimal_simd_width() {
    let avx2_features = vec![TokenKind::AVX2];
    assert_eq!(get_optimal_simd_width("f32", &avx2_features), 8);
    assert_eq!(get_optimal_simd_width("f64", &avx2_features), 4);

    let sse_features = vec![TokenKind::SSE4];
    assert_eq!(get_optimal_simd_width("f32", &sse_features), 4);
    assert_eq!(get_optimal_simd_width("i16", &sse_features), 8);
}

#[test]
fn test_simd_to_scalar_conversion() {
    assert_eq!(simd_to_scalar_operator(&TokenKind::DotAdd), Some(TokenKind::Plus));
    assert_eq!(simd_to_scalar_operator(&TokenKind::DotMultiply), Some(TokenKind::Star));
    assert_eq!(simd_to_scalar_operator(&TokenKind::DotDivide), Some(TokenKind::Slash));
    assert_eq!(simd_to_scalar_operator(&TokenKind::Plus), None);
}

#[test]
fn test_associativity() {
    assert!(is_right_associative(&TokenKind::Assign));
    assert!(!is_right_associative(&TokenKind::Plus));
    assert!(!is_right_associative(&TokenKind::DotAdd));
}

#[test]
fn element_sizes_and_infos() {
    assert_eq!(element_type_bits("f64"), 64);
    assert_eq!(element_type_bits("u8"), 8);
    assert_eq!(element_type_bits("mask"), 32);
    let info = SimdInfo::new("i16".to_string(), 8);
    assert_eq!(info.total_bits, 128);
    assert_eq!(get_simd_info(&TokenKind::Mask64).unwrap().width, 64);
    assert_eq!(get_simd_info(&TokenKind::F32), None);
}

#[test]
fn hardware_widths() {
    assert_eq!(get_hardware_simd_width(&TokenKind::AVX512), Some(vec![16, 8, 32, 64]));
    assert_eq!(get_hardware_simd_width(&TokenKind::NEON), Some(vec![4, 2, 8, 16]));
    assert_eq!(get_hardware_simd_width(&TokenKind::Plus), None);
    assert!(!is_simd_compatible_with_hardware(&TokenKind::F32, &TokenKind::AVX));
    assert!(!is_simd_compatible_with_hardware(&TokenKind::F32x4, &TokenKind::Plus));
}

#[test]
fn widest_register_wins() {
    let mixed = vec![TokenKind::SSE, TokenKind::AVX512, TokenKind::Plus];
    assert_eq!(get_optimal_simd_width("f32", &mixed), 16);
    let none: Vec<TokenKind> = vec![];
    assert_eq!(get_optimal_simd_width("f64", &none), 2);
}

#[test]
fn token_classes() {
    assert!(is_operator(&TokenKind::LessEqual));
    assert!(!is_operator(&TokenKind::DotAdd));
    assert!(is_simd_operator(&TokenKind::DotXor));
    assert!(is_any_operator(&TokenKind::DotXor));
    assert!(is_type(&TokenKind::U8x16));
    assert!(is_type(&TokenKind::String));
    assert!(!is_type(&TokenKind::Func));
    assert!(is_literal(&TokenKind::Integer(3)));
    assert!(is_literal(&TokenKind::StringLiteral("s".to_string())));
    assert!(!is_literal(&TokenKind::Identifier("s".to_string())));
    assert!(is_right_associative(&TokenKind::PlusAssign));
    assert_eq!(operator_precedence(&TokenKind::Or), Some(1));
    assert_eq!(operator_precedence(&TokenKind::Assign), None);
    assert_eq!(operator_precedence(&TokenKind::DotXor), Some(2));
}
