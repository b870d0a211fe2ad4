//! The parser: its token cursor, type names and error recovery (moving over
//! the tokens of a program, reading type names and SIMD vector types, skipping
//! to a statement boundary after an error, and suggesting fixes and keyword
//! corrections), and in `grammar` the rules that build the syntax tree.

use vstd::prelude::*;
use crate::ast::SIMDVectorType;
use crate::error::CompileError;
use crate::execution_mode::{contains_text, text_contains};
use crate::lexer::{byte_len, kinds_match, Position, Token, TokenKind};
use crate::text::{chars_of, push_signed_decimal, push_str, push_string, signed_decimal_text};

pub mod grammar;
pub mod model;

verus! {

/// Error suggestions for common mistakes
#[derive(Debug, Clone)]
pub struct ErrorSuggestion {
    pub message: String,
    pub suggested_fix: Option<String>,
}

/// Recovery action to take after a parse error
#[derive(Debug, Clone)]
pub enum RecoveryAction {
    /// Skip current token and continue
    Skip,
    /// Skip to next statement boundary
    Synchronize,
    /// Insert missing token
    Insert(TokenKind),
    /// Replace current token
    Replace(TokenKind),
}

/// Error context for better error messages
#[derive(Debug, Clone)]
pub struct ErrorContext {
    pub expected: Vec<TokenKind>,
    pub found: TokenKind,
    pub position: Position,
    pub context: String,
}

/// Whether a token of kind `found` is of the kind `wanted`: any integer, float,
/// string or identifier for those kinds, whatever they hold; otherwise the same
/// kind.
pub open spec fn same_kind(found: TokenKind, wanted: TokenKind) -> bool {
    match (found, wanted) {
        (TokenKind::Integer(_), TokenKind::Integer(_)) => true,
        (TokenKind::Float(_), TokenKind::Float(_)) => true,
        (TokenKind::StringLiteral(_), TokenKind::StringLiteral(_)) => true,
        (TokenKind::Identifier(_), TokenKind::Identifier(_)) => true,
        _ => kinds_match(found, wanted),
    }
}

/// Like [`same_kind`], SIMD literals also matching whatever they hold.
pub open spec fn same_token_type(found: TokenKind, wanted: TokenKind) -> bool {
    match (wanted, found) {
        (TokenKind::SimdLiteral(_), TokenKind::SimdLiteral(_)) => true,
        _ => same_kind(found, wanted),
    }
}

/// The name of a built-in type token: the scalar types and the SIMD vector
/// types; none for other tokens.
pub open spec fn builtin_type_name(k: TokenKind) -> Option<Seq<char>> {
    match k {
        TokenKind::I8 => Some("i8"@),
        TokenKind::I16 => Some("i16"@),
        TokenKind::I32 => Some("i32"@),
        TokenKind::I64 => Some("i64"@),
        TokenKind::U8 => Some("u8"@),
        TokenKind::U16 => Some("u16"@),
        TokenKind::U32 => Some("u32"@),
        TokenKind::U64 => Some("u64"@),
        TokenKind::F32 => Some("f32"@),
        TokenKind::F64 => Some("f64"@),
        TokenKind::Bool => Some("bool"@),
        TokenKind::String => Some("string"@),
        TokenKind::F32x2 => Some("f32x2"@),
        TokenKind::F32x4 => Some("f32x4"@),
        TokenKind::F32x8 => Some("f32x8"@),
        TokenKind::F32x16 => Some("f32x16"@),
        TokenKind::F64x2 => Some("f64x2"@),
        TokenKind::F64x4 => Some("f64x4"@),
        TokenKind::F64x8 => Some("f64x8"@),
        TokenKind::I32x2 => Some("i32x2"@),
        TokenKind::I32x4 => Some("i32x4"@),
        TokenKind::I32x8 => Some("i32x8"@),
        TokenKind::I32x16 => Some("i32x16"@),
        TokenKind::I64x2 => Some("i64x2"@),
        TokenKind::I64x4 => Some("i64x4"@),
        TokenKind::I64x8 => Some("i64x8"@),
        TokenKind::I16x4 => Some("i16x4"@),
        TokenKind::I16x8 => Some("i16x8"@),
        TokenKind::I16x16 => Some("i16x16"@),
        TokenKind::I16x32 => Some("i16x32"@),
        TokenKind::I8x8 => Some("i8x8"@),
        TokenKind::I8x16 => Some("i8x16"@),
        TokenKind::I8x32 => Some("i8x32"@),
        TokenKind::I8x64 => Some("i8x64"@),
        TokenKind::U32x4 => Some("u32x4"@),
        TokenKind::U32x8 => Some("u32x8"@),
        TokenKind::U16x8 => Some("u16x8"@),
        TokenKind::U16x16 => Some("u16x16"@),
        TokenKind::U8x16 => Some("u8x16"@),
        TokenKind::U8x32 => Some("u8x32"@),
        TokenKind::Mask8 => Some("mask8"@),
        TokenKind::Mask16 => Some("mask16"@),
        TokenKind::Mask32 => Some("mask32"@),
        TokenKind::Mask64 => Some("mask64"@),
        _ => None,
    }
}

/// The name of a built-in type token.
fn builtin_type_str(k: &TokenKind) -> (r: Option<&'static str>)
    ensures
        r matches Some(s) ==> builtin_type_name(*k) == Some(s@),
        r is None ==> builtin_type_name(*k) is None,
{
    match k {
        TokenKind::I8 => Some("i8"),
        TokenKind::I16 => Some("i16"),
        TokenKind::I32 => Some("i32"),
        TokenKind::I64 => Some("i64"),
        TokenKind::U8 => Some("u8"),
        TokenKind::U16 => Some("u16"),
        TokenKind::U32 => Some("u32"),
        TokenKind::U64 => Some("u64"),
        TokenKind::F32 => Some("f32"),
        TokenKind::F64 => Some("f64"),
        TokenKind::Bool => Some("bool"),
        TokenKind::String => Some("string"),
        TokenKind::F32x2 => Some("f32x2"),
        TokenKind::F32x4 => Some("f32x4"),
        TokenKind::F32x8 => Some("f32x8"),
        TokenKind::F32x16 => Some("f32x16"),
        TokenKind::F64x2 => Some("f64x2"),
        TokenKind::F64x4 => Some("f64x4"),
        TokenKind::F64x8 => Some("f64x8"),
        TokenKind::I32x2 => Some("i32x2"),
        TokenKind::I32x4 => Some("i32x4"),
        TokenKind::I32x8 => Some("i32x8"),
        TokenKind::I32x16 => Some("i32x16"),
        TokenKind::I64x2 => Some("i64x2"),
        TokenKind::I64x4 => Some("i64x4"),
        TokenKind::I64x8 => Some("i64x8"),
        TokenKind::I16x4 => Some("i16x4"),
        TokenKind::I16x8 => Some("i16x8"),
        TokenKind::I16x16 => Some("i16x16"),
        TokenKind::I16x32 => Some("i16x32"),
        TokenKind::I8x8 => Some("i8x8"),
        TokenKind::I8x16 => Some("i8x16"),
        TokenKind::I8x32 => Some("i8x32"),
        TokenKind::I8x64 => Some("i8x64"),
        TokenKind::U32x4 => Some("u32x4"),
        TokenKind::U32x8 => Some("u32x8"),
        TokenKind::U16x8 => Some("u16x8"),
        TokenKind::U16x16 => Some("u16x16"),
        TokenKind::U8x16 => Some("u8x16"),
        TokenKind::U8x32 => Some("u8x32"),
        TokenKind::Mask8 => Some("mask8"),
        TokenKind::Mask16 => Some("mask16"),
        TokenKind::Mask32 => Some("mask32"),
        TokenKind::Mask64 => Some("mask64"),
        _ => None,
    }
}

/// The SIMD vector type of a token, if it names one.
pub open spec fn simd_vector_of(k: TokenKind) -> Option<SIMDVectorType> {
    match k {
        TokenKind::F32x2 => Some(SIMDVectorType::F32x2),
        TokenKind::F32x4 => Some(SIMDVectorType::F32x4),
        TokenKind::F32x8 => Some(SIMDVectorType::F32x8),
        TokenKind::F32x16 => Some(SIMDVectorType::F32x16),
        TokenKind::F64x2 => Some(SIMDVectorType::F64x2),
        TokenKind::F64x4 => Some(SIMDVectorType::F64x4),
        TokenKind::F64x8 => Some(SIMDVectorType::F64x8),
        TokenKind::I32x2 => Some(SIMDVectorType::I32x2),
        TokenKind::I32x4 => Some(SIMDVectorType::I32x4),
        TokenKind::I32x8 => Some(SIMDVectorType::I32x8),
        TokenKind::I32x16 => Some(SIMDVectorType::I32x16),
        TokenKind::I64x2 => Some(SIMDVectorType::I64x2),
        TokenKind::I64x4 => Some(SIMDVectorType::I64x4),
        TokenKind::I64x8 => Some(SIMDVectorType::I64x8),
        TokenKind::I16x4 => Some(SIMDVectorType::I16x4),
        TokenKind::I16x8 => Some(SIMDVectorType::I16x8),
        TokenKind::I16x16 => Some(SIMDVectorType::I16x16),
        TokenKind::I16x32 => Some(SIMDVectorType::I16x32),
        TokenKind::I8x8 => Some(SIMDVectorType::I8x8),
        TokenKind::I8x16 => Some(SIMDVectorType::I8x16),
        TokenKind::I8x32 => Some(SIMDVectorType::I8x32),
        TokenKind::I8x64 => Some(SIMDVectorType::I8x64),
        TokenKind::U32x4 => Some(SIMDVectorType::U32x4),
        TokenKind::U32x8 => Some(SIMDVectorType::U32x8),
        TokenKind::U16x8 => Some(SIMDVectorType::U16x8),
        TokenKind::U16x16 => Some(SIMDVectorType::U16x16),
        TokenKind::U8x16 => Some(SIMDVectorType::U8x16),
        TokenKind::U8x32 => Some(SIMDVectorType::U8x32),
        TokenKind::Mask8 => Some(SIMDVectorType::Mask8),
        TokenKind::Mask16 => Some(SIMDVectorType::Mask16),
        TokenKind::Mask32 => Some(SIMDVectorType::Mask32),
        TokenKind::Mask64 => Some(SIMDVectorType::Mask64),
        _ => None,
    }
}

/// The SIMD vector type of a token, if it names one.
pub(crate) fn simd_vector_type(k: &TokenKind) -> (r: Option<SIMDVectorType>)
    ensures
        r == simd_vector_of(*k),
{
    match k {
        TokenKind::F32x2 => Some(SIMDVectorType::F32x2),
        TokenKind::F32x4 => Some(SIMDVectorType::F32x4),
        TokenKind::F32x8 => Some(SIMDVectorType::F32x8),
        TokenKind::F32x16 => Some(SIMDVectorType::F32x16),
        TokenKind::F64x2 => Some(SIMDVectorType::F64x2),
        TokenKind::F64x4 => Some(SIMDVectorType::F64x4),
        TokenKind::F64x8 => Some(SIMDVectorType::F64x8),
        TokenKind::I32x2 => Some(SIMDVectorType::I32x2),
        TokenKind::I32x4 => Some(SIMDVectorType::I32x4),
        TokenKind::I32x8 => Some(SIMDVectorType::I32x8),
        TokenKind::I32x16 => Some(SIMDVectorType::I32x16),
        TokenKind::I64x2 => Some(SIMDVectorType::I64x2),
        TokenKind::I64x4 => Some(SIMDVectorType::I64x4),
        TokenKind::I64x8 => Some(SIMDVectorType::I64x8),
        TokenKind::I16x4 => Some(SIMDVectorType::I16x4),
        TokenKind::I16x8 => Some(SIMDVectorType::I16x8),
        TokenKind::I16x16 => Some(SIMDVectorType::I16x16),
        TokenKind::I16x32 => Some(SIMDVectorType::I16x32),
        TokenKind::I8x8 => Some(SIMDVectorType::I8x8),
        TokenKind::I8x16 => Some(SIMDVectorType::I8x16),
        TokenKind::I8x32 => Some(SIMDVectorType::I8x32),
        TokenKind::I8x64 => Some(SIMDVectorType::I8x64),
        TokenKind::U32x4 => Some(SIMDVectorType::U32x4),
        TokenKind::U32x8 => Some(SIMDVectorType::U32x8),
        TokenKind::U16x8 => Some(SIMDVectorType::U16x8),
        TokenKind::U16x16 => Some(SIMDVectorType::U16x16),
        TokenKind::U8x16 => Some(SIMDVectorType::U8x16),
        TokenKind::U8x32 => Some(SIMDVectorType::U8x32),
        TokenKind::Mask8 => Some(SIMDVectorType::Mask8),
        TokenKind::Mask16 => Some(SIMDVectorType::Mask16),
        TokenKind::Mask32 => Some(SIMDVectorType::Mask32),
        TokenKind::Mask64 => Some(SIMDVectorType::Mask64),
        _ => None,
    }
}

/// How a token kind is written by its derived `Debug` form: the variant's name, and
/// for a literal or an identifier its value in brackets (text payloads quoted and
/// escaped as `{:?}` writes a string).
pub open spec fn token_kind_debug(k: TokenKind) -> Seq<char> {
    match k {
        TokenKind::Func => "Func"@,
        TokenKind::Struct => "Struct"@,
        TokenKind::Let => "Let"@,
        TokenKind::Mut => "Mut"@,
        TokenKind::Const => "Const"@,
        TokenKind::If => "If"@,
        TokenKind::Else => "Else"@,
        TokenKind::Return => "Return"@,
        TokenKind::True => "True"@,
        TokenKind::False => "False"@,
        TokenKind::While => "While"@,
        TokenKind::For => "For"@,
        TokenKind::In => "In"@,
        TokenKind::Enum => "Enum"@,
        TokenKind::Match => "Match"@,
        TokenKind::MemRegion => "MemRegion"@,
        TokenKind::Parallel => "Parallel"@,
        TokenKind::Async => "Async"@,
        TokenKind::Await => "Await"@,
        TokenKind::Vectorize => "Vectorize"@,
        TokenKind::SimdWidth => "SimdWidth"@,
        TokenKind::SimdAuto => "SimdAuto"@,
        TokenKind::TargetFeature => "TargetFeature"@,
        TokenKind::HorizontalSum => "HorizontalSum"@,
        TokenKind::HorizontalMin => "HorizontalMin"@,
        TokenKind::HorizontalMax => "HorizontalMax"@,
        TokenKind::DotProduct => "DotProduct"@,
        TokenKind::LoadVector => "LoadVector"@,
        TokenKind::StoreVector => "StoreVector"@,
        TokenKind::FromSlice => "FromSlice"@,
        TokenKind::ToArray => "ToArray"@,
        TokenKind::Splat => "Splat"@,
        TokenKind::Shuffle => "Shuffle"@,
        TokenKind::Lanes => "Lanes"@,
        TokenKind::SSE => "SSE"@,
        TokenKind::SSE2 => "SSE2"@,
        TokenKind::SSE3 => "SSE3"@,
        TokenKind::SSE4 => "SSE4"@,
        TokenKind::AVX => "AVX"@,
        TokenKind::AVX2 => "AVX2"@,
        TokenKind::AVX512 => "AVX512"@,
        TokenKind::NEON => "NEON"@,
        TokenKind::AltiVec => "AltiVec"@,
        TokenKind::I8 => "I8"@,
        TokenKind::I16 => "I16"@,
        TokenKind::I32 => "I32"@,
        TokenKind::I64 => "I64"@,
        TokenKind::U8 => "U8"@,
        TokenKind::U16 => "U16"@,
        TokenKind::U32 => "U32"@,
        TokenKind::U64 => "U64"@,
        TokenKind::F32 => "F32"@,
        TokenKind::F64 => "F64"@,
        TokenKind::Bool => "Bool"@,
        TokenKind::String => "String"@,
        TokenKind::F32x2 => "F32x2"@,
        TokenKind::F32x4 => "F32x4"@,
        TokenKind::F32x8 => "F32x8"@,
        TokenKind::F32x16 => "F32x16"@,
        TokenKind::F64x2 => "F64x2"@,
        TokenKind::F64x4 => "F64x4"@,
        TokenKind::F64x8 => "F64x8"@,
        TokenKind::I32x2 => "I32x2"@,
        TokenKind::I32x4 => "I32x4"@,
        TokenKind::I32x8 => "I32x8"@,
        TokenKind::I32x16 => "I32x16"@,
        TokenKind::I64x2 => "I64x2"@,
        TokenKind::I64x4 => "I64x4"@,
        TokenKind::I64x8 => "I64x8"@,
        TokenKind::I16x4 => "I16x4"@,
        TokenKind::I16x8 => "I16x8"@,
        TokenKind::I16x16 => "I16x16"@,
        TokenKind::I16x32 => "I16x32"@,
        TokenKind::I8x8 => "I8x8"@,
        TokenKind::I8x16 => "I8x16"@,
        TokenKind::I8x32 => "I8x32"@,
        TokenKind::I8x64 => "I8x64"@,
        TokenKind::U32x4 => "U32x4"@,
        TokenKind::U32x8 => "U32x8"@,
        TokenKind::U16x8 => "U16x8"@,
        TokenKind::U16x16 => "U16x16"@,
        TokenKind::U8x16 => "U8x16"@,
        TokenKind::U8x32 => "U8x32"@,
        TokenKind::Mask8 => "Mask8"@,
        TokenKind::Mask16 => "Mask16"@,
        TokenKind::Mask32 => "Mask32"@,
        TokenKind::Mask64 => "Mask64"@,
        TokenKind::Plus => "Plus"@,
        TokenKind::Minus => "Minus"@,
        TokenKind::Star => "Star"@,
        TokenKind::Slash => "Slash"@,
        TokenKind::Percent => "Percent"@,
        TokenKind::Assign => "Assign"@,
        TokenKind::Equal => "Equal"@,
        TokenKind::NotEqual => "NotEqual"@,
        TokenKind::Less => "Less"@,
        TokenKind::LessEqual => "LessEqual"@,
        TokenKind::Greater => "Greater"@,
        TokenKind::GreaterEqual => "GreaterEqual"@,
        TokenKind::And => "And"@,
        TokenKind::Or => "Or"@,
        TokenKind::Not => "Not"@,
        TokenKind::Ampersand => "Ampersand"@,
        TokenKind::PlusAssign => "PlusAssign"@,
        TokenKind::MinusAssign => "MinusAssign"@,
        TokenKind::StarAssign => "StarAssign"@,
        TokenKind::SlashAssign => "SlashAssign"@,
        TokenKind::DotAdd => "DotAdd"@,
        TokenKind::DotSubtract => "DotSubtract"@,
        TokenKind::DotMultiply => "DotMultiply"@,
        TokenKind::DotDivide => "DotDivide"@,
        TokenKind::DotAnd => "DotAnd"@,
        TokenKind::DotOr => "DotOr"@,
        TokenKind::DotXor => "DotXor"@,
        TokenKind::DotEqual => "DotEqual"@,
        TokenKind::DotNotEqual => "DotNotEqual"@,
        TokenKind::DotLess => "DotLess"@,
        TokenKind::DotGreater => "DotGreater"@,
        TokenKind::DotLessEqual => "DotLessEqual"@,
        TokenKind::DotGreaterEqual => "DotGreaterEqual"@,
        TokenKind::LeftParen => "LeftParen"@,
        TokenKind::RightParen => "RightParen"@,
        TokenKind::LeftBrace => "LeftBrace"@,
        TokenKind::RightBrace => "RightBrace"@,
        TokenKind::LeftBracket => "LeftBracket"@,
        TokenKind::RightBracket => "RightBracket"@,
        TokenKind::Comma => "Comma"@,
        TokenKind::Semicolon => "Semicolon"@,
        TokenKind::Colon => "Colon"@,
        TokenKind::DoubleColon => "DoubleColon"@,
        TokenKind::Arrow => "Arrow"@,
        TokenKind::FatArrow => "FatArrow"@,
        TokenKind::Dot => "Dot"@,
        TokenKind::Integer(v) => "Integer("@ + signed_decimal_text(v as int) + ")"@,
        TokenKind::Float(t) => "Float("@ + t@ + ")"@,
        TokenKind::SimdLiteral(t) => "SimdLiteral("@ + str_debug_text(t@) + ")"@,
        TokenKind::StringLiteral(t) => "StringLiteral("@ + str_debug_text(t@) + ")"@,
        TokenKind::Identifier(t) => "Identifier("@ + str_debug_text(t@) + ")"@,
        TokenKind::Comment => "Comment"@,
        TokenKind::Newline => "Newline"@,
        TokenKind::At => "At"@,
        TokenKind::Eof => "Eof"@,
    }
}

/// How `{:?}` writes a string: in double quotes, with quotes, backslashes and
/// characters that are not printable escaped.
pub uninterp spec fn str_debug_text(s: Seq<char>) -> Seq<char>;

/// Writes a string with std's `format!("{:?}", ..)`: its quoted, escaped form,
/// a function of the string alone.
#[verifier::external_body]
fn debug_quoted(s: &String) -> (r: String)
    ensures
        r@ == str_debug_text(s@),
{
    format!("{:?}", s)
}

/// Writes a token kind in its derived `Debug` form (see [`token_kind_debug`]).
pub(crate) fn kind_debug_string(k: &TokenKind) -> (s: String)
    ensures
        s@ == token_kind_debug(*k),
{
    match k {
        TokenKind::Func => "Func".to_owned(),
        TokenKind::Struct => "Struct".to_owned(),
        TokenKind::Let => "Let".to_owned(),
        TokenKind::Mut => "Mut".to_owned(),
        TokenKind::Const => "Const".to_owned(),
        TokenKind::If => "If".to_owned(),
        TokenKind::Else => "Else".to_owned(),
        TokenKind::Return => "Return".to_owned(),
        TokenKind::True => "True".to_owned(),
        TokenKind::False => "False".to_owned(),
        TokenKind::While => "While".to_owned(),
        TokenKind::For => "For".to_owned(),
        TokenKind::In => "In".to_owned(),
        TokenKind::Enum => "Enum".to_owned(),
        TokenKind::Match => "Match".to_owned(),
        TokenKind::MemRegion => "MemRegion".to_owned(),
        TokenKind::Parallel => "Parallel".to_owned(),
        TokenKind::Async => "Async".to_owned(),
        TokenKind::Await => "Await".to_owned(),
        TokenKind::Vectorize => "Vectorize".to_owned(),
        TokenKind::SimdWidth => "SimdWidth".to_owned(),
        TokenKind::SimdAuto => "SimdAuto".to_owned(),
        TokenKind::TargetFeature => "TargetFeature".to_owned(),
        TokenKind::HorizontalSum => "HorizontalSum".to_owned(),
        TokenKind::HorizontalMin => "HorizontalMin".to_owned(),
        TokenKind::HorizontalMax => "HorizontalMax".to_owned(),
        TokenKind::DotProduct => "DotProduct".to_owned(),
        TokenKind::LoadVector => "LoadVector".to_owned(),
        TokenKind::StoreVector => "StoreVector".to_owned(),
        TokenKind::FromSlice => "FromSlice".to_owned(),
        TokenKind::ToArray => "ToArray".to_owned(),
        TokenKind::Splat => "Splat".to_owned(),
        TokenKind::Shuffle => "Shuffle".to_owned(),
        TokenKind::Lanes => "Lanes".to_owned(),
        TokenKind::SSE => "SSE".to_owned(),
        TokenKind::SSE2 => "SSE2".to_owned(),
        TokenKind::SSE3 => "SSE3".to_owned(),
        TokenKind::SSE4 => "SSE4".to_owned(),
        TokenKind::AVX => "AVX".to_owned(),
        TokenKind::AVX2 => "AVX2".to_owned(),
        TokenKind::AVX512 => "AVX512".to_owned(),
        TokenKind::NEON => "NEON".to_owned(),
        TokenKind::AltiVec => "AltiVec".to_owned(),
        TokenKind::I8 => "I8".to_owned(),
        TokenKind::I16 => "I16".to_owned(),
        TokenKind::I32 => "I32".to_owned(),
        TokenKind::I64 => "I64".to_owned(),
        TokenKind::U8 => "U8".to_owned(),
        TokenKind::U16 => "U16".to_owned(),
        TokenKind::U32 => "U32".to_owned(),
        TokenKind::U64 => "U64".to_owned(),
        TokenKind::F32 => "F32".to_owned(),
        TokenKind::F64 => "F64".to_owned(),
        TokenKind::Bool => "Bool".to_owned(),
        TokenKind::String => "String".to_owned(),
        TokenKind::F32x2 => "F32x2".to_owned(),
        TokenKind::F32x4 => "F32x4".to_owned(),
        TokenKind::F32x8 => "F32x8".to_owned(),
        TokenKind::F32x16 => "F32x16".to_owned(),
        TokenKind::F64x2 => "F64x2".to_owned(),
        TokenKind::F64x4 => "F64x4".to_owned(),
        TokenKind::F64x8 => "F64x8".to_owned(),
        TokenKind::I32x2 => "I32x2".to_owned(),
        TokenKind::I32x4 => "I32x4".to_owned(),
        TokenKind::I32x8 => "I32x8".to_owned(),
        TokenKind::I32x16 => "I32x16".to_owned(),
        TokenKind::I64x2 => "I64x2".to_owned(),
        TokenKind::I64x4 => "I64x4".to_owned(),
        TokenKind::I64x8 => "I64x8".to_owned(),
        TokenKind::I16x4 => "I16x4".to_owned(),
        TokenKind::I16x8 => "I16x8".to_owned(),
        TokenKind::I16x16 => "I16x16".to_owned(),
        TokenKind::I16x32 => "I16x32".to_owned(),
        TokenKind::I8x8 => "I8x8".to_owned(),
        TokenKind::I8x16 => "I8x16".to_owned(),
        TokenKind::I8x32 => "I8x32".to_owned(),
        TokenKind::I8x64 => "I8x64".to_owned(),
        TokenKind::U32x4 => "U32x4".to_owned(),
        TokenKind::U32x8 => "U32x8".to_owned(),
        TokenKind::U16x8 => "U16x8".to_owned(),
        TokenKind::U16x16 => "U16x16".to_owned(),
        TokenKind::U8x16 => "U8x16".to_owned(),
        TokenKind::U8x32 => "U8x32".to_owned(),
        TokenKind::Mask8 => "Mask8".to_owned(),
        TokenKind::Mask16 => "Mask16".to_owned(),
        TokenKind::Mask32 => "Mask32".to_owned(),
        TokenKind::Mask64 => "Mask64".to_owned(),
        TokenKind::Plus => "Plus".to_owned(),
        TokenKind::Minus => "Minus".to_owned(),
        TokenKind::Star => "Star".to_owned(),
        TokenKind::Slash => "Slash".to_owned(),
        TokenKind::Percent => "Percent".to_owned(),
        TokenKind::Assign => "Assign".to_owned(),
        TokenKind::Equal => "Equal".to_owned(),
        TokenKind::NotEqual => "NotEqual".to_owned(),
        TokenKind::Less => "Less".to_owned(),
        TokenKind::LessEqual => "LessEqual".to_owned(),
        TokenKind::Greater => "Greater".to_owned(),
        TokenKind::GreaterEqual => "GreaterEqual".to_owned(),
        TokenKind::And => "And".to_owned(),
        TokenKind::Or => "Or".to_owned(),
        TokenKind::Not => "Not".to_owned(),
        TokenKind::Ampersand => "Ampersand".to_owned(),
        TokenKind::PlusAssign => "PlusAssign".to_owned(),
        TokenKind::MinusAssign => "MinusAssign".to_owned(),
        TokenKind::StarAssign => "StarAssign".to_owned(),
        TokenKind::SlashAssign => "SlashAssign".to_owned(),
        TokenKind::DotAdd => "DotAdd".to_owned(),
        TokenKind::DotSubtract => "DotSubtract".to_owned(),
        TokenKind::DotMultiply => "DotMultiply".to_owned(),
        TokenKind::DotDivide => "DotDivide".to_owned(),
        TokenKind::DotAnd => "DotAnd".to_owned(),
        TokenKind::DotOr => "DotOr".to_owned(),
        TokenKind::DotXor => "DotXor".to_owned(),
        TokenKind::DotEqual => "DotEqual".to_owned(),
        TokenKind::DotNotEqual => "DotNotEqual".to_owned(),
        TokenKind::DotLess => "DotLess".to_owned(),
        TokenKind::DotGreater => "DotGreater".to_owned(),
        TokenKind::DotLessEqual => "DotLessEqual".to_owned(),
        TokenKind::DotGreaterEqual => "DotGreaterEqual".to_owned(),
        TokenKind::LeftParen => "LeftParen".to_owned(),
        TokenKind::RightParen => "RightParen".to_owned(),
        TokenKind::LeftBrace => "LeftBrace".to_owned(),
        TokenKind::RightBrace => "RightBrace".to_owned(),
        TokenKind::LeftBracket => "LeftBracket".to_owned(),
        TokenKind::RightBracket => "RightBracket".to_owned(),
        TokenKind::Comma => "Comma".to_owned(),
        TokenKind::Semicolon => "Semicolon".to_owned(),
        TokenKind::Colon => "Colon".to_owned(),
        TokenKind::DoubleColon => "DoubleColon".to_owned(),
        TokenKind::Arrow => "Arrow".to_owned(),
        TokenKind::FatArrow => "FatArrow".to_owned(),
        TokenKind::Dot => "Dot".to_owned(),
        TokenKind::Integer(v) => {
            let mut s = String::new();
            push_str(&mut s, "Integer(");
            push_signed_decimal(&mut s, *v);
            push_str(&mut s, ")");
            proof {
                reveal_strlit("Integer(");
                reveal_strlit(")");
            }
            s
        },
        TokenKind::Float(t) => {
            let mut s = String::new();
            push_str(&mut s, "Float(");
            push_string(&mut s, t);
            push_str(&mut s, ")");
            proof {
                reveal_strlit("Float(");
                reveal_strlit(")");
            }
            s
        },
        TokenKind::SimdLiteral(t) => {
            let mut s = String::new();
            push_str(&mut s, "SimdLiteral(");
            let quoted = debug_quoted(t);
            push_string(&mut s, &quoted);
            push_str(&mut s, ")");
            proof {
                reveal_strlit("SimdLiteral(");
                reveal_strlit(")");
            }
            s
        },
        TokenKind::StringLiteral(t) => {
            let mut s = String::new();
            push_str(&mut s, "StringLiteral(");
            let quoted = debug_quoted(t);
            push_string(&mut s, &quoted);
            push_str(&mut s, ")");
            proof {
                reveal_strlit("StringLiteral(");
                reveal_strlit(")");
            }
            s
        },
        TokenKind::Identifier(t) => {
            let mut s = String::new();
            push_str(&mut s, "Identifier(");
            let quoted = debug_quoted(t);
            push_string(&mut s, &quoted);
            push_str(&mut s, ")");
            proof {
                reveal_strlit("Identifier(");
                reveal_strlit(")");
            }
            s
        },
        TokenKind::Comment => "Comment".to_owned(),
        TokenKind::Newline => "Newline".to_owned(),
        TokenKind::At => "At".to_owned(),
        TokenKind::Eof => "Eof".to_owned(),
    }
}

/// The message for a token that names no SIMD vector type.
pub open spec fn invalid_simd_type_message(k: TokenKind) -> Seq<char> {
    "Invalid SIMD vector type: "@ + token_kind_debug(k)
}

/// The error for a token, written `kind_text`, that names no SIMD vector type.
pub fn invalid_simd_type_error(kind_text: &String, position: Position) -> (e: CompileError)
    ensures
        e matches CompileError::ParseError { message, position: p } && message@
            == "Invalid SIMD vector type: "@ + kind_text@ && p == position,
{
    let mut message = String::new();
    push_str(&mut message, "Invalid SIMD vector type: ");
    push_string(&mut message, kind_text);
    proof {
        reveal_strlit("Invalid SIMD vector type: ");
    }
    CompileError::parse_error(message, position)
}

/// Whether a token starts a statement or declaration, where recovery stops.
pub open spec fn is_statement_start(k: TokenKind) -> bool {
    k is Func || k is Let || k is Struct || k is Enum || k is If || k is While || k is For
        || k is Return
}

/// Whether recovery from position `p` stops there: at the end of input, after a
/// semicolon, or before the start of a statement.
pub open spec fn sync_stop(ts: Seq<Token>, p: int) -> bool {
    let previous = if p > 0 {
        ts[p - 1]
    } else {
        ts[0]
    };
    ts[p].kind is Eof || previous.kind is Semicolon || is_statement_start(ts[p].kind)
}

/// Where recovery from position `p` stops: the first position from `p` on where
/// [`sync_stop`] holds (the last token at the latest).
pub open spec fn sync_target(ts: Seq<Token>, p: int) -> int
    decreases ts.len() - p,
{
    if p >= ts.len() - 1 || sync_stop(ts, p) {
        p
    } else {
        sync_target(ts, p + 1)
    }
}

/// The smaller of two numbers.
pub open spec fn min_nat(a: nat, b: nat) -> nat {
    if a <= b {
        a
    } else {
        b
    }
}

/// The edit distance of two texts: the fewest insertions, deletions and
/// substitutions of characters that turn one into the other.
pub open spec fn edit_distance(a: Seq<char>, b: Seq<char>) -> nat
    decreases a.len() + b.len(),
{
    if a.len() == 0 {
        b.len()
    } else if b.len() == 0 {
        a.len()
    } else {
        min_nat(
            min_nat(
                edit_distance(a.drop_last(), b) + 1,
                edit_distance(a, b.drop_last()) + 1,
            ),
            edit_distance(a.drop_last(), b.drop_last()) + (if a.last() == b.last() {
                0nat
            } else {
                1nat
            }),
        )
    }
}

/// What [`Parser::levenshtein_distance`] gives: the edit distance of the two
/// texts, counted over characters.
pub open spec fn levenshtein_result(s1: Seq<char>, s2: Seq<char>) -> nat {
    edit_distance(s1, s2)
}

/// A text has no more characters than bytes.
proof fn lemma_len_within_byte_len(s: Seq<char>)
    ensures
        s.len() <= byte_len(s),
    decreases s.len(),
{
    if s.len() > 0 {
        lemma_len_within_byte_len(s.drop_last());
    }
}

/// The edit distance never exceeds the longer text's length.
proof fn lemma_edit_distance_bound(a: Seq<char>, b: Seq<char>)
    ensures
        edit_distance(a, b) <= if a.len() >= b.len() {
            a.len()
        } else {
            b.len()
        },
    decreases a.len() + b.len(),
{
    if a.len() > 0 && b.len() > 0 {
        lemma_edit_distance_bound(a.drop_last(), b.drop_last());
    }
}

/// A text is at edit distance zero from itself.
proof fn lemma_edit_distance_self(s: Seq<char>)
    ensures
        edit_distance(s, s) == 0,
    decreases s.len(),
{
    if s.len() > 0 {
        lemma_edit_distance_self(s.drop_last());
    }
}

/// The edit distance does not depend on the order of the texts.
proof fn lemma_edit_distance_symmetric(a: Seq<char>, b: Seq<char>)
    ensures
        edit_distance(a, b) == edit_distance(b, a),
    decreases a.len() + b.len(),
{
    if a.len() > 0 && b.len() > 0 {
        lemma_edit_distance_symmetric(a.drop_last(), b);
        lemma_edit_distance_symmetric(a, b.drop_last());
        lemma_edit_distance_symmetric(a.drop_last(), b.drop_last());
    }
}

/// Every word is at Levenshtein distance zero from itself, and the distance is
/// the same either way round.
pub proof fn lemma_levenshtein_self_and_symmetric(s1: Seq<char>, s2: Seq<char>)
    ensures
        levenshtein_result(s1, s1) == 0,
        levenshtein_result(s1, s2) == levenshtein_result(s2, s1),
{
    lemma_edit_distance_self(s1);
    lemma_edit_distance_symmetric(s1, s2);
}

/// The edit distance of two character sequences, row by row.
fn edit_distance_of(a: &Vec<char>, b: &Vec<char>) -> (d: usize)
    requires
        a@.len() < usize::MAX,
        b@.len() < usize::MAX,
    ensures
        d == edit_distance(a@, b@),
{
    let n = a.len();
    let m = b.len();
    let mut prev: Vec<usize> = Vec::new();
    let mut j: usize = 0;
    while j <= m
        invariant
            j <= m + 1,
            m == b@.len(),
            m < usize::MAX,
            prev@.len() == j,
            forall|k: int| 0 <= k < j ==> prev@[k] == edit_distance(a@.take(0), b@.take(k)),
        decreases m + 1 - j,
    {
        proof {
            assert(a@.take(0).len() == 0);
        }
        prev.push(j);
        j = j + 1;
    }
    let mut i: usize = 0;
    while i < n
        invariant
            i <= n,
            n == a@.len(),
            m == b@.len(),
            n < usize::MAX,
            m < usize::MAX,
            prev@.len() == m + 1,
            forall|k: int| 0 <= k <= m ==> prev@[k] == edit_distance(a@.take(i as int), b@.take(k)),
        decreases n - i,
    {
        let ghost ai = a@.take(i + 1);
        proof {
            assert(ai.drop_last() =~= a@.take(i as int));
            assert(ai.last() == a@[i as int]);
            assert(b@.take(0).len() == 0);
        }
        let mut cur: Vec<usize> = Vec::new();
        cur.push(i + 1);
        let mut k: usize = 0;
        while k < m
            invariant
                i < n,
                k <= m,
                n == a@.len(),
                m == b@.len(),
                n < usize::MAX,
                m < usize::MAX,
                ai == a@.take(i + 1),
                ai.drop_last() == a@.take(i as int),
                ai.last() == a@[i as int],
                prev@.len() == m + 1,
                forall|q: int|
                    0 <= q <= m ==> prev@[q] == edit_distance(a@.take(i as int), b@.take(q)),
                cur@.len() == k + 1,
                forall|q: int| 0 <= q <= k ==> cur@[q] == edit_distance(ai, b@.take(q)),
            decreases m - k,
        {
            let ghost bk = b@.take(k + 1);
            proof {
                assert(bk.drop_last() =~= b@.take(k as int));
                assert(bk.last() == b@[k as int]);
                lemma_edit_distance_bound(a@.take(i as int), bk);
                lemma_edit_distance_bound(ai, b@.take(k as int));
                lemma_edit_distance_bound(a@.take(i as int), b@.take(k as int));
            }
            let deletion = prev[k + 1] + 1;
            let insertion = cur[k] + 1;
            let cost: usize = if a[i] == b[k] {
                0
            } else {
                1
            };
            let substitution = prev[k] + cost;
            let best = if deletion <= insertion {
                deletion
            } else {
                insertion
            };
            let best = if best <= substitution {
                best
            } else {
                substitution
            };
            cur.push(best);
            k = k + 1;
        }
        prev = cur;
        i = i + 1;
    }
    proof {
        assert(a@.take(n as int) =~= a@);
        assert(b@.take(m as int) =~= b@);
    }
    prev[m]
}

/// The words that a mistyped identifier may be corrected to.
pub open spec fn correction_keywords() -> Seq<Seq<char>> {
    seq!["func"@, "let"@, "if"@, "else"@, "while"@, "for"@, "return"@, "struct"@, "enum"@, "match"@, "true"@, "false"@, "vectorize"@, "unroll"@, "align"@, "reduce"@, "i8"@, "i16"@, "i32"@, "i64"@, "u8"@, "u16"@, "u32"@, "u64"@, "f32"@, "f64"@, "bool"@, "string"@, "f32x4"@, "i32x4"@, "f64x2"@]
}

/// The keywords within edit distance two of an identifier (see
/// [`levenshtein_result`]), in the order of [`correction_keywords`].
pub open spec fn keyword_corrections(identifier: Seq<char>) -> Seq<Seq<char>> {
    correction_keywords().filter(close_to(identifier))
}

/// Whether a word is within edit distance two of an identifier.
pub open spec fn close_to(identifier: Seq<char>) -> spec_fn(Seq<char>) -> bool {
    |k: Seq<char>| levenshtein_result(identifier, k) <= 2
}

/// A suggestion as text: its message and its suggested fix.
pub open spec fn suggestion_view(s: ErrorSuggestion) -> (Seq<char>, Option<Seq<char>>) {
    (s.message@, match s.suggested_fix {
        Some(f) => Some(f@),
        None => None,
    })
}

/// One suggestion when `cond` holds, none otherwise.
pub open spec fn suggestion_if(cond: bool, message: Seq<char>, fix: Option<Seq<char>>) -> Seq<
    (Seq<char>, Option<Seq<char>>),
> {
    if cond {
        seq![(message, fix)]
    } else {
        Seq::empty()
    }
}

/// The suggestions that a parse error message calls for, by what it mentions.
pub open spec fn message_suggestions(m: Seq<char>) -> Seq<(Seq<char>, Option<Seq<char>>)> {
    suggestion_if(
        contains_text(m, "Expected identifier"@),
        "Check for typos in variable or function names"@,
        None,
    ) + suggestion_if(
        contains_text(m, "Expected ';'"@),
        "Missing semicolon after statement"@,
        Some("Add ';' at the end of the statement"@),
    ) + suggestion_if(
        contains_text(m, "Expected ')'"@),
        "Unmatched parenthesis"@,
        Some("Add closing ')' or check for extra opening '('"@),
    ) + suggestion_if(
        contains_text(m, "Expected '}'"@),
        "Unmatched brace"@,
        Some("Add closing '}' or check for extra opening '{'"@),
    ) + suggestion_if(
        contains_text(m, "Expected type"@),
        "Type annotation required"@,
        Some("Add type annotation like ': i32' or ': f32'"@),
    ) + suggestion_if(
        contains_text(m, "SIMD"@),
        "SIMD syntax error"@,
        Some(
            "Use SIMD vector types like f32x4, i32x4, or element-wise operators like .+, .*, .-"@,
        ),
    ) + suggestion_if(
        contains_text(m, "function"@) || contains_text(m, "func"@),
        "Function declaration syntax"@,
        Some("Use 'func name(param: type) -> return_type { ... }'"@),
    ) + suggestion_if(
        contains_text(m, "variable"@) || contains_text(m, "let"@),
        "Variable declaration syntax"@,
        Some("Use 'let name: type = value;' or 'let name = value;'"@),
    ) + suggestion_if(
        contains_text(m, "if"@) || contains_text(m, "while"@) || contains_text(m, "for"@),
        "Control flow syntax"@,
        Some("Check condition syntax and braces: 'if (condition) { ... }'"@),
    )
}

/// The suggestions for an error: those its message calls for when it is a parse
/// error, or else the general one.
pub open spec fn error_suggestions(e: CompileError) -> Seq<(Seq<char>, Option<Seq<char>>)> {
    let specific = match e {
        CompileError::ParseError { message, .. } => message_suggestions(message@),
        _ => Seq::empty(),
    };
    if specific.len() == 0 {
        seq![("Check syntax and refer to Eä language documentation"@, None)]
    } else {
        specific
    }
}

/// The recovery for an error: inserting the closing token that a parse error's
/// message says is expected (a semicolon, then a parenthesis, a brace, a
/// bracket), or else skipping to a statement boundary.
pub open spec fn recovery_for(e: CompileError) -> RecoveryAction {
    match e {
        CompileError::ParseError { message, .. } => if contains_text(message@, "Expected ';'"@) {
            RecoveryAction::Insert(TokenKind::Semicolon)
        } else if contains_text(message@, "Expected ')'"@) {
            RecoveryAction::Insert(TokenKind::RightParen)
        } else if contains_text(message@, "Expected '}'"@) {
            RecoveryAction::Insert(TokenKind::RightBrace)
        } else if contains_text(message@, "Expected ']'"@) {
            RecoveryAction::Insert(TokenKind::RightBracket)
        } else {
            RecoveryAction::Synchronize
        },
        _ => RecoveryAction::Synchronize,
    }
}

/// Whether a token kind closes something: a parenthesis, a brace, a bracket or a
/// statement.
pub open spec fn is_closer(k: TokenKind) -> bool {
    k is RightParen || k is RightBrace || k is RightBracket || k is Semicolon
}

/// The first closing token kind among `s`, if any.
pub open spec fn first_closer(s: Seq<TokenKind>) -> Option<TokenKind>
    decreases s.len(),
{
    if s.len() == 0 {
        None
    } else if is_closer(s[0]) {
        Some(s[0])
    } else {
        first_closer(s.drop_first())
    }
}

/// Appends a suggestion to `v` when `cond` holds.
fn push_suggestion_if(
    v: &mut Vec<ErrorSuggestion>,
    cond: bool,
    message: &str,
    fix: Option<&str>,
)
    ensures
        final(v)@.map_values(|s: ErrorSuggestion| suggestion_view(s)) == old(v)@.map_values(
            |s: ErrorSuggestion| suggestion_view(s),
        ) + suggestion_if(
            cond,
            message@,
            match fix {
                Some(f) => Some(f@),
                None => None,
            },
        ),
{
    let ghost before = old(v)@.map_values(|s: ErrorSuggestion| suggestion_view(s));
    if cond {
        let suggested_fix = match fix {
            Some(f) => Some(f.to_owned()),
            None => None,
        };
        v.push(ErrorSuggestion { message: message.to_owned(), suggested_fix });
        proof {
            assert(v@.map_values(|s: ErrorSuggestion| suggestion_view(s)) =~= before + seq![
                (message@, match fix {
                    Some(f) => Some(f@),
                    None => None,
                }),
            ]);
        }
    } else {
        proof {
            assert(v@.map_values(|s: ErrorSuggestion| suggestion_view(s)) =~= before + Seq::<
                (Seq<char>, Option<Seq<char>>),
            >::empty());
        }
    }
}

/// Each correction keyword is short.
proof fn lemma_keyword_byte_len(i: int)
    requires
        0 <= i < correction_keywords().len(),
    ensures
        byte_len(correction_keywords()[i]) < usize::MAX,
{
    let k = correction_keywords()[i];
    lemma_byte_len_bound(k);
    assert(k.len() <= 9) by {
        reveal_strlit("func");
        reveal_strlit("let");
        reveal_strlit("if");
        reveal_strlit("else");
        reveal_strlit("while");
        reveal_strlit("for");
        reveal_strlit("return");
        reveal_strlit("struct");
        reveal_strlit("enum");
        reveal_strlit("match");
        reveal_strlit("true");
        reveal_strlit("false");
        reveal_strlit("vectorize");
        reveal_strlit("unroll");
        reveal_strlit("align");
        reveal_strlit("reduce");
        reveal_strlit("i8");
        reveal_strlit("i16");
        reveal_strlit("i32");
        reveal_strlit("i64");
        reveal_strlit("u8");
        reveal_strlit("u16");
        reveal_strlit("u32");
        reveal_strlit("u64");
        reveal_strlit("f32");
        reveal_strlit("f64");
        reveal_strlit("bool");
        reveal_strlit("string");
        reveal_strlit("f32x4");
        reveal_strlit("i32x4");
        reveal_strlit("f64x2");
    }
}

/// A text takes at most four bytes a character.
proof fn lemma_byte_len_bound(s: Seq<char>)
    ensures
        byte_len(s) <= 4 * s.len(),
    decreases s.len(),
{
    if s.len() > 0 {
        lemma_byte_len_bound(s.drop_last());
    }
}

/// The recovery that a parser at `p` attempts when one of `expected` is missing:
/// a semicolon is taken as missing before an identifier, `let` or `func`;
/// otherwise the first closing token expected is; otherwise it skips to a
/// statement boundary.
pub open spec fn recovery_attempt(p: Parser, expected: Seq<TokenKind>) -> RecoveryAction {
    if !p.at_end() && (p.peek_token().kind is Identifier || p.peek_token().kind is Let
        || p.peek_token().kind is Func) {
        RecoveryAction::Insert(TokenKind::Semicolon)
    } else {
        match first_closer(expected) {
            Some(k) => RecoveryAction::Insert(k),
            None => RecoveryAction::Synchronize,
        }
    }
}

/// The parser converts a sequence of tokens into an Abstract Syntax Tree (AST).
pub struct Parser {
    tokens: Vec<Token>,
    current: usize,
    /// Collected errors
    errors: Vec<CompileError>,
    /// Set while recovering, to avoid cascading errors
    in_recovery: bool,
}

/// A well-formed parser stands within its tokens.
pub broadcast proof fn lemma_position_in_range(p: Parser)
    ensures
        #[trigger] p.wf() ==> p.pos() < p.token_seq().len(),
{
}

impl Parser {
    /// The tokens.
    pub closed spec fn token_seq(self) -> Seq<Token> {
        self.tokens@
    }

    /// The position of the current token.
    pub closed spec fn pos(self) -> nat {
        self.current as nat
    }

    /// The collected errors.
    pub closed spec fn error_seq(self) -> Seq<CompileError> {
        self.errors@
    }

    /// Whether the parser is recovering from an error.
    pub closed spec fn recovering(self) -> bool {
        self.in_recovery
    }

    /// The tokens end with the end-of-input token and the position is within them.
    pub closed spec fn wf(self) -> bool {
        &&& self.tokens@.len() > 0
        &&& self.tokens@.last().kind == TokenKind::Eof
        &&& self.current < self.tokens@.len()
    }

    /// The current token.
    pub open spec fn peek_token(self) -> Token {
        self.token_seq()[self.pos() as int]
    }

    /// The token before the current one (the first token at the start).
    pub open spec fn previous_token(self) -> Token {
        if self.pos() > 0 {
            self.token_seq()[self.pos() - 1]
        } else {
            self.token_seq()[0]
        }
    }

    /// Whether the current token is the end of input.
    pub open spec fn at_end(self) -> bool {
        self.peek_token().kind == TokenKind::Eof
    }

    /// Whether the current token is of kind `k` (see [`same_kind`]), short of the
    /// end of input.
    pub open spec fn checks(self, k: TokenKind) -> bool {
        !self.at_end() && same_kind(self.peek_token().kind, k)
    }

    /// The same parser one token further on, unless at the end of input.
    pub open spec fn advanced(self, p: Parser) -> bool {
        &&& p.token_seq() == self.token_seq()
        &&& p.error_seq() == self.error_seq()
        &&& p.recovering() == self.recovering()
        &&& p.pos() == if self.at_end() {
            self.pos()
        } else {
            self.pos() + 1
        }
    }

    /// The same tokens, errors and recovery flag, at the same or a later
    /// position.
    pub open spec fn kept_on(self, p: Parser) -> bool {
        &&& p.wf()
        &&& p.token_seq() == self.token_seq()
        &&& p.error_seq() == self.error_seq()
        &&& p.recovering() == self.recovering()
        &&& self.pos() <= p.pos()
    }

    /// Whether the token after the current one exists and is `in`.
    pub open spec fn next_is_in(self) -> bool {
        self.pos() + 1 < self.token_seq().len() && self.token_seq()[self.pos() + 1int].kind is In
    }

    /// The position of the current token.
    pub fn position(&self) -> (p: usize)
        ensures
            p == self.pos(),
    {
        self.current
    }

    /// Records an error.
    pub(crate) fn record_error(&mut self, error: CompileError)
        requires
            old(self).wf(),
        ensures
            final(self).wf(),
            final(self).token_seq() == old(self).token_seq(),
            final(self).pos() == old(self).pos(),
            final(self).recovering() == old(self).recovering(),
            final(self).error_seq() == old(self).error_seq().push(error),
    {
        self.errors.push(error);
    }

    /// Whether the parser is recovering from an error.
    pub fn recovering_now(&self) -> (b: bool)
        ensures
            b == self.recovering(),
    {
        self.in_recovery
    }

    /// Sets whether the parser is recovering from an error.
    pub(crate) fn set_recovering(&mut self, recovering: bool)
        requires
            old(self).wf(),
        ensures
            final(self).wf(),
            final(self).token_seq() == old(self).token_seq(),
            final(self).pos() == old(self).pos(),
            final(self).error_seq() == old(self).error_seq(),
            final(self).recovering() == recovering,
    {
        self.in_recovery = recovering;
    }

    /// Whether the token after the current one is `in`.
    pub fn peek_next_is_in(&self) -> (b: bool)
        requires
            self.wf(),
        ensures
            b == self.next_is_in(),
    {
        let n = self.tokens.len();
        if self.current + 1 < n {
            matches!(self.tokens[self.current + 1].kind, TokenKind::In)
        } else {
            false
        }
    }

    /// The same parser at the same position.
    pub open spec fn unmoved(self, p: Parser) -> bool {
        &&& p.token_seq() == self.token_seq()
        &&& p.error_seq() == self.error_seq()
        &&& p.recovering() == self.recovering()
        &&& p.pos() == self.pos()
    }

    /// Creates a new parser for the given tokens, which end with the end-of-input
    /// token (as the lexer's tokens do). Every step of the parser looks at the
    /// current token and stops at that last one, so a list without it has no
    /// place to stop: a parser over such a list would read past its end.
    pub fn new(tokens: Vec<Token>) -> (p: Self)
        requires
            tokens@.len() > 0,
            tokens@.last().kind == TokenKind::Eof,
        ensures
            p.wf(),
            p.token_seq() == tokens@,
            p.pos() == 0,
            p.error_seq().len() == 0,
            !p.recovering(),
    {
        Parser { tokens, current: 0, errors: Vec::new(), in_recovery: false }
    }

    /// Get all collected errors
    pub fn get_errors(&self) -> (e: &[CompileError])
        ensures
            e@ == self.error_seq(),
    {
        self.errors.as_slice()
    }

    /// The tokens from the current one on, each a clone.
    pub fn get_remaining_tokens(&self) -> (v: Vec<Token>)
        requires
            self.wf(),
        ensures
            v@.len() == self.token_seq().len() - self.pos(),
            forall|i: int|
                0 <= i < v@.len() ==> cloned::<Token>(
                    self.token_seq()[self.pos() + i],
                    #[trigger] v@[i],
                ),
    {
        let mut v: Vec<Token> = Vec::new();
        let mut i: usize = self.current;
        while i < self.tokens.len()
            invariant
                self.wf(),
                self.current <= i <= self.tokens@.len(),
                v@.len() == i - self.current,
                forall|k: int|
                    0 <= k < v@.len() ==> cloned::<Token>(
                        self.tokens@[self.current + k],
                        #[trigger] v@[k],
                    ),
            decreases self.tokens@.len() - i,
        {
            let t = self.tokens[i].clone();
            v.push(t);
            i = i + 1;
        }
        v
    }

    /// Check if parser has more tokens to process
    pub fn has_more_tokens(&self) -> (b: bool)
        requires
            self.wf(),
        ensures
            b == !self.at_end(),
    {
        self.current < self.tokens.len() && !self.is_at_end()
    }

    /// Returns the current token without consuming it.
    pub fn peek(&self) -> (t: &Token)
        requires
            self.wf(),
        ensures
            *t == self.peek_token(),
    {
        &self.tokens[self.current]
    }

    /// Returns the previous token (the first one at the start).
    pub fn previous(&self) -> (t: &Token)
        requires
            self.wf(),
        ensures
            *t == self.previous_token(),
    {
        if self.current > 0 {
            &self.tokens[self.current - 1]
        } else {
            &self.tokens[0]
        }
    }

    /// Checks if we're at the end of the token stream.
    pub fn is_at_end(&self) -> (b: bool)
        requires
            self.wf(),
        ensures
            b == self.at_end(),
    {
        matches!(self.tokens[self.current].kind, TokenKind::Eof)
    }

    /// Checks if the current token is of the given type (see [`same_kind`]).
    pub fn check(&self, token_type: &TokenKind) -> (b: bool)
        requires
            self.wf(),
        ensures
            b == self.checks(*token_type),
    {
        if self.is_at_end() {
            return false;
        }
        match (&self.tokens[self.current].kind, token_type) {
            (TokenKind::Integer(_), TokenKind::Integer(_)) => true,
            (TokenKind::Float(_), TokenKind::Float(_)) => true,
            (TokenKind::StringLiteral(_), TokenKind::StringLiteral(_)) => true,
            (TokenKind::Identifier(_), TokenKind::Identifier(_)) => true,
            _ => self.tokens[self.current].kind == *token_type,
        }
    }

    /// Returns the current token and advances to the next (staying at the end of
    /// input).
    pub fn advance(&mut self) -> (t: &Token)
        requires
            old(self).wf(),
        ensures
            final(self).wf(),
            old(self).advanced(*final(self)),
            *t == final(self).previous_token(),
    {
        if !self.is_at_end() {
            let n = self.tokens.len();
            proof {
                assert(self.current + 1 < n);
            }
            self.current = self.current + 1;
        }
        self.previous()
    }

    /// Consumes the current token if it matches any of the given types.
    pub fn match_tokens(&mut self, types: &[TokenKind]) -> (b: bool)
        requires
            old(self).wf(),
        ensures
            final(self).wf(),
            b == exists|i: int| 0 <= i < types@.len() && old(self).checks(#[trigger] types@[i]),
            b ==> old(self).advanced(*final(self)) && !old(self).at_end(),
            !b ==> old(self).unmoved(*final(self)),
    {
        let mut i: usize = 0;
        while i < types.len()
            invariant
                self.wf(),
                *self == *old(self),
                i <= types@.len(),
                forall|j: int| 0 <= j < i ==> !old(self).checks(#[trigger] types@[j]),
            decreases types@.len() - i,
        {
            if self.check(&types[i]) {
                self.advance();
                return true;
            }
            i = i + 1;
        }
        false
    }

    /// Consumes the current token if it's of the expected type, or errors.
    pub fn consume(&mut self, token_type: TokenKind, message: String) -> (r: Result<
        &Token,
        CompileError,
    >)
        requires
            old(self).wf(),
        ensures
            final(self).wf(),
            old(self).checks(token_type) ==> old(self).advanced(*final(self)) && (r matches Ok(t)
                && *t == old(self).peek_token()),
            !old(self).checks(token_type) ==> old(self).unmoved(*final(self)) && r == Err::<
                &Token,
                CompileError,
            >(CompileError::ParseError { message, position: old(self).peek_token().position }),
    {
        if self.check(&token_type) {
            return Ok(self.advance());
        }
        Err(CompileError::parse_error(message, self.tokens[self.current].position))
    }

    /// Consumes the current token if it's an identifier, or errors.
    pub fn consume_identifier(&mut self, message: String) -> (r: Result<String, CompileError>)
        requires
            old(self).wf(),
        ensures
            final(self).wf(),
            old(self).peek_token().kind matches TokenKind::Identifier(name) ==> old(self).advanced(
                *final(self),
            ) && r == Ok::<String, CompileError>(name),
            !(old(self).peek_token().kind is Identifier) ==> old(self).unmoved(*final(self)) && r
                == Err::<String, CompileError>(
                CompileError::ParseError { message, position: old(self).peek_token().position },
            ),
    {
        if let TokenKind::Identifier(name) = &self.tokens[self.current].kind {
            let name = name.clone();
            self.advance();
            return Ok(name);
        }
        Err(CompileError::parse_error(message, self.tokens[self.current].position))
    }

    /// Consumes a type name: a built-in type (see [`builtin_type_name`]) or an
    /// identifier; otherwise errors.
    pub fn consume_type_name(&mut self, message: String) -> (r: Result<String, CompileError>)
        requires
            old(self).wf(),
        ensures
            final(self).wf(),
            builtin_type_name(old(self).peek_token().kind) matches Some(n) ==> old(self).advanced(
                *final(self),
            ) && (r matches Ok(s) && s@ == n),
            old(self).peek_token().kind matches TokenKind::Identifier(name) ==> old(self).advanced(
                *final(self),
            ) && r == Ok::<String, CompileError>(name),
            builtin_type_name(old(self).peek_token().kind) is None && !(old(
                self,
            ).peek_token().kind is Identifier) ==> old(self).unmoved(*final(self)) && r == Err::<
                String,
                CompileError,
            >(CompileError::ParseError { message, position: old(self).peek_token().position }),
    {
        match builtin_type_str(&self.tokens[self.current].kind) {
            Some(name) => {
                self.advance();
                return Ok(name.to_owned());
            },
            None => {},
        }
        self.consume_identifier(message)
    }

    /// Check if current token is a SIMD type
    pub fn check_simd_type(&self) -> (b: bool)
        requires
            self.wf(),
        ensures
            b == (!self.at_end() && simd_vector_of(self.peek_token().kind) is Some),
    {
        if self.is_at_end() {
            return false;
        }
        simd_vector_type(&self.tokens[self.current].kind).is_some()
    }

    /// Consumes the current token if it matches any of the given types (see
    /// [`same_token_type`]) and returns a clone of it.
    pub fn match_tokens_and_get(&mut self, types: &[TokenKind]) -> (r: Option<Token>)
        requires
            old(self).wf(),
        ensures
            final(self).wf(),
            r is Some == exists|i: int|
                0 <= i < types@.len() && old(self).checks_type(#[trigger] types@[i]),
            r matches Some(t) ==> old(self).advanced(*final(self)) && cloned::<Token>(
                old(self).peek_token(),
                t,
            ),
            r is None ==> old(self).unmoved(*final(self)),
    {
        let mut i: usize = 0;
        while i < types.len()
            invariant
                self.wf(),
                *self == *old(self),
                i <= types@.len(),
                forall|j: int| 0 <= j < i ==> !old(self).checks_type(#[trigger] types@[j]),
            decreases types@.len() - i,
        {
            if self.check_token_type(&types[i]) {
                let t = self.advance().clone();
                return Some(t);
            }
            i = i + 1;
        }
        None
    }

    /// Whether the current token is of the given type (see [`same_token_type`]),
    /// short of the end of input.
    pub open spec fn checks_type(self, k: TokenKind) -> bool {
        !self.at_end() && same_token_type(self.peek_token().kind, k)
    }

    /// Check if current token matches a specific token type (handles variants)
    pub fn check_token_type(&self, token_type: &TokenKind) -> (b: bool)
        requires
            self.wf(),
        ensures
            b == self.checks_type(*token_type),
    {
        if self.is_at_end() {
            return false;
        }
        match (token_type, &self.tokens[self.current].kind) {
            (TokenKind::SimdLiteral(_), TokenKind::SimdLiteral(_)) => true,
            _ => self.check(token_type),
        }
    }

    /// The SIMD vector type that a token names; an error at the previous token
    /// otherwise.
    pub fn parse_simd_vector_type(&self, token_kind: &TokenKind) -> (r: Result<
        SIMDVectorType,
        CompileError,
    >)
        requires
            self.wf(),
        ensures
            simd_vector_of(*token_kind) matches Some(t) ==> r == Ok::<SIMDVectorType, CompileError>(
                t,
            ),
            simd_vector_of(*token_kind) is None ==> (r matches Err(CompileError::ParseError {
                message,
                position,
            }) && message@ == invalid_simd_type_message(*token_kind) && position
                == self.previous_token().position),
    {
        match simd_vector_type(token_kind) {
            Some(t) => Ok(t),
            None => {
                let text = kind_debug_string(token_kind);
                Err(invalid_simd_type_error(&text, self.previous().position))
            },
        }
    }

    /// Skips to a statement boundary after an error (see [`sync_target`]).
    pub fn synchronize(&mut self)
        requires
            old(self).wf(),
        ensures
            final(self).wf(),
            final(self).token_seq() == old(self).token_seq(),
            final(self).error_seq() == old(self).error_seq(),
            final(self).recovering() == old(self).recovering(),
            final(self).pos() == sync_target(old(self).token_seq(), old(self).pos() as int),
            old(self).pos() <= final(self).pos(),
    {
        while !self.is_at_end()
            invariant
                self.wf(),
                self.tokens@ == old(self).tokens@,
                self.errors@ == old(self).errors@,
                self.in_recovery == old(self).in_recovery,
                old(self).current <= self.current,
                sync_target(self.tokens@, self.current as int) == sync_target(
                    old(self).tokens@,
                    old(self).current as int,
                ),
            decreases self.tokens@.len() - self.current,
        {
            if matches!(self.previous().kind, TokenKind::Semicolon) {
                return;
            }
            if matches!(
                self.tokens[self.current].kind,
                TokenKind::Func | TokenKind::Let | TokenKind::Struct | TokenKind::Enum | TokenKind::If
                    | TokenKind::While | TokenKind::For | TokenKind::Return
            ) {
                return;
            }
            self.advance();
        }
    }

    /// Calculate Levenshtein distance for typo detection, over characters (see
    /// [`levenshtein_result`]).
    pub fn levenshtein_distance(s1: &str, s2: &str) -> (d: usize)
        requires
            byte_len(s1@) < usize::MAX,
            byte_len(s2@) < usize::MAX,
        ensures
            d == levenshtein_result(s1@, s2@),
    {
        let a = chars_of(s1);
        let b = chars_of(s2);
        proof {
            lemma_len_within_byte_len(s1@);
            lemma_len_within_byte_len(s2@);
        }
        edit_distance_of(&a, &b)
    }

    /// Suggest corrections for mistyped keywords (see [`keyword_corrections`]).
    pub fn suggest_keyword_corrections(&self, identifier: &str) -> (v: Vec<String>)
        requires
            byte_len(identifier@) < usize::MAX,
        ensures
            v@.map_values(|s: String| s@) == keyword_corrections(identifier@),
    {
        proof {
            reveal(Seq::filter);
            assert(correction_keywords().take(0) =~= Seq::<Seq<char>>::empty());
        }
        let keywords: Vec<&str> = vec!["func", "let", "if", "else", "while", "for", "return", "struct", "enum", "match", "true", "false", "vectorize", "unroll", "align", "reduce", "i8", "i16", "i32", "i64", "u8", "u16", "u32", "u64", "f32", "f64", "bool", "string", "f32x4", "i32x4", "f64x2"];
        proof {
            assert(keywords@.map_values(|k: &str| k@) =~= correction_keywords());
        }
        let mut suggestions: Vec<String> = Vec::new();
        let mut i: usize = 0;
        while i < keywords.len()
            invariant
                i <= keywords@.len(),
                byte_len(identifier@) < usize::MAX,
                keywords@.map_values(|k: &str| k@) == correction_keywords(),
                suggestions@.map_values(|s: String| s@) == correction_keywords().take(i as int).filter(
                    close_to(identifier@),
                ),
            decreases keywords@.len() - i,
        {
            let keyword = keywords[i];
            let ghost before = suggestions@.map_values(|s: String| s@);
            proof {
                assert(keyword@ == correction_keywords()[i as int]);
                assert(correction_keywords().take(i + 1).drop_last() =~= correction_keywords().take(
                    i as int,
                ));
                assert(correction_keywords().take(i + 1).last() == keyword@);
                assert(byte_len(keyword@) < usize::MAX) by {
                    lemma_keyword_byte_len(i as int);
                }
            }
            let d = Self::levenshtein_distance(identifier, keyword);
            proof {
                let ks = correction_keywords().take(i + 1);
                reveal(Seq::filter);
                assert(ks.filter(close_to(identifier@)) == (if d
                    <= 2 {
                    before.push(keyword@)
                } else {
                    before
                }));
            }
            if d <= 2 {
                suggestions.push(keyword.to_owned());
                proof {
                    assert(suggestions@.map_values(|s: String| s@) =~= before.push(keyword@));
                }
            }
            i = i + 1;
        }
        proof {
            assert(correction_keywords().take(keywords@.len() as int) =~= correction_keywords());
        }
        suggestions
    }

    /// Generate intelligent error suggestions (see [`error_suggestions`]).
    pub fn suggest_fixes(&self, error: &CompileError) -> (v: Vec<ErrorSuggestion>)
        ensures
            v@.map_values(|s: ErrorSuggestion| suggestion_view(s)) == error_suggestions(*error),
    {
        proof {
            reveal_strlit("Check syntax and refer to Eä language documentation");
        }
        let mut suggestions: Vec<ErrorSuggestion> = Vec::new();
        proof {
            assert(suggestions@.map_values(|s: ErrorSuggestion| suggestion_view(s)) =~= Seq::<
                (Seq<char>, Option<Seq<char>>),
            >::empty());
        }
        match error {
            CompileError::ParseError { message, .. } => {
                let m = chars_of(message.as_str());
                let c = text_contains(&m, "Expected identifier");
                push_suggestion_if(
                    &mut suggestions,
                    c,
                    "Check for typos in variable or function names",
                    None,
                );
                let c = text_contains(&m, "Expected ';'");
                push_suggestion_if(
                    &mut suggestions,
                    c,
                    "Missing semicolon after statement",
                    Some("Add ';' at the end of the statement"),
                );
                let c = text_contains(&m, "Expected ')'");
                push_suggestion_if(
                    &mut suggestions,
                    c,
                    "Unmatched parenthesis",
                    Some("Add closing ')' or check for extra opening '('"),
                );
                let c = text_contains(&m, "Expected '}'");
                push_suggestion_if(
                    &mut suggestions,
                    c,
                    "Unmatched brace",
                    Some("Add closing '}' or check for extra opening '{'"),
                );
                let c = text_contains(&m, "Expected type");
                push_suggestion_if(
                    &mut suggestions,
                    c,
                    "Type annotation required",
                    Some("Add type annotation like ': i32' or ': f32'"),
                );
                let c = text_contains(&m, "SIMD");
                push_suggestion_if(
                    &mut suggestions,
                    c,
                    "SIMD syntax error",
                    Some(
                        "Use SIMD vector types like f32x4, i32x4, or element-wise operators like .+, .*, .-",
                    ),
                );
                let c = text_contains(&m, "function") || text_contains(&m, "func");
                push_suggestion_if(
                    &mut suggestions,
                    c,
                    "Function declaration syntax",
                    Some("Use 'func name(param: type) -> return_type { ... }'"),
                );
                let c = text_contains(&m, "variable") || text_contains(&m, "let");
                push_suggestion_if(
                    &mut suggestions,
                    c,
                    "Variable declaration syntax",
                    Some("Use 'let name: type = value;' or 'let name = value;'"),
                );
                let c = text_contains(&m, "if") || text_contains(&m, "while") || text_contains(
                    &m,
                    "for",
                );
                push_suggestion_if(
                    &mut suggestions,
                    c,
                    "Control flow syntax",
                    Some("Check condition syntax and braces: 'if (condition) { ... }'"),
                );
                proof {
                    assert(suggestions@.map_values(|s: ErrorSuggestion| suggestion_view(s))
                        =~= message_suggestions(message@));
                }
            },
            _ => {},
        }
        if suggestions.len() == 0 {
            let ghost before = suggestions@;
            suggestions.push(
                ErrorSuggestion {
                    message: "Check syntax and refer to Eä language documentation".to_owned(),
                    suggested_fix: None,
                },
            );
            proof {
                assert(suggestions@.map_values(|s: ErrorSuggestion| suggestion_view(s)) =~= seq![
                    ("Check syntax and refer to Eä language documentation"@, None::<Seq<char>>),
                ]);
            }
        }
        suggestions
    }

    /// The recovery action for a parse error (see [`recovery_for`]).
    pub fn recover_from_parse_error(&mut self, error: CompileError) -> (a: RecoveryAction)
        ensures
            *final(self) == *old(self),
            a == recovery_for(error),
    {
        match &error {
            CompileError::ParseError { message, .. } => {
                let m = chars_of(message.as_str());
                if text_contains(&m, "Expected ';'") {
                    RecoveryAction::Insert(TokenKind::Semicolon)
                } else if text_contains(&m, "Expected ')'") {
                    RecoveryAction::Insert(TokenKind::RightParen)
                } else if text_contains(&m, "Expected '}'") {
                    RecoveryAction::Insert(TokenKind::RightBrace)
                } else if text_contains(&m, "Expected ']'") {
                    RecoveryAction::Insert(TokenKind::RightBracket)
                } else {
                    RecoveryAction::Synchronize
                }
            },
            _ => RecoveryAction::Synchronize,
        }
    }

    /// Attempt to recover and continue parsing after an error (see
    /// [`recovery_attempt`]).
    pub fn attempt_recovery(&mut self, expected: &[TokenKind], _context: &str) -> (r: Option<
        RecoveryAction,
    >)
        requires
            old(self).wf(),
        ensures
            *final(self) == *old(self),
            r == Some(recovery_attempt(*old(self), expected@)),
    {
        if self.check(&TokenKind::Identifier(String::new())) || self.check(&TokenKind::Let)
            || self.check(&TokenKind::Func) {
            return Some(RecoveryAction::Insert(TokenKind::Semicolon));
        }
        let mut i: usize = 0;
        proof {
            assert(expected@.skip(0) =~= expected@);
        }
        while i < expected.len()
            invariant
                *self == *old(self),
                self.wf(),
                i <= expected@.len(),
                first_closer(expected@) == first_closer(expected@.skip(i as int)),
                !(!self.at_end() && (self.peek_token().kind is Identifier || self.peek_token().kind is Let
                    || self.peek_token().kind is Func)),
            decreases expected@.len() - i,
        {
            proof {
                assert(expected@.skip(i as int)[0] == expected@[i as int]);
                assert(expected@.skip(i as int).drop_first() =~= expected@.skip(i + 1));
            }
            match expected[i] {
                TokenKind::RightParen => {
                    return Some(RecoveryAction::Insert(TokenKind::RightParen));
                },
                TokenKind::RightBrace => {
                    return Some(RecoveryAction::Insert(TokenKind::RightBrace));
                },
                TokenKind::RightBracket => {
                    return Some(RecoveryAction::Insert(TokenKind::RightBracket));
                },
                TokenKind::Semicolon => {
                    return Some(RecoveryAction::Insert(TokenKind::Semicolon));
                },
                _ => {},
            }
            i = i + 1;
        }
        proof {
            assert(expected@.skip(i as int).len() == 0);
        }
        if let TokenKind::Identifier(name) = &self.tokens[self.current].kind {
            let suggestions = self.suggest_keyword_corrections(name.as_str());
            if suggestions.len() > 0 {
                return Some(RecoveryAction::Skip);
            }
        }
        Some(RecoveryAction::Synchronize)
    }

    /// Consumes the expected token, or attempts a recovery (see
    /// [`recovery_attempt`]) and errors at the token it stops before.
    pub fn consume_with_recovery(&mut self, expected: TokenKind, message: String, context: &str) -> (r:
        Result<&Token, CompileError>)
        requires
            old(self).wf(),
        ensures
            final(self).wf(),
            old(self).checks(expected) ==> old(self).advanced(*final(self)) && (r matches Ok(t)
                && *t == old(self).peek_token()),
            !old(self).checks(expected) ==> {
                &&& final(self).token_seq() == old(self).token_seq()
                &&& final(self).error_seq() == old(self).error_seq()
                &&& final(self).recovering() == old(self).recovering()
                &&& final(self).pos() == if recovery_attempt(*old(self), seq![expected]) is Synchronize {
                    sync_target(old(self).token_seq(), old(self).pos() as int)
                } else {
                    old(self).pos() as int
                }
                &&& r == Err::<&Token, CompileError>(
                    CompileError::ParseError { message, position: final(self).peek_token().position },
                )
            },
            old(self).kept_on(*final(self)),
        decreases old(self).token_seq().len() - old(self).pos(),
    {
        if self.check(&expected) {
            return Ok(self.advance());
        }
        let mut list: Vec<TokenKind> = Vec::new();
        list.push(expected);
        let action = self.attempt_recovery(list.as_slice(), context);
        let expected = list.pop().unwrap();
        proof {
            assert(list@.len() == 0);
        }
        match action {
            Some(RecoveryAction::Insert(_)) => {},
            Some(RecoveryAction::Skip) => {
                self.advance();
                return self.consume_with_recovery(expected, message, context);
            },
            Some(RecoveryAction::Synchronize) => {
                self.synchronize();
            },
            Some(RecoveryAction::Replace(_)) => {
                self.advance();
            },
            None => {},
        }
        Err(CompileError::parse_error(message, self.tokens[self.current].position))
    }
}

} // verus!
