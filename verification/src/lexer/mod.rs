//! Lexical analysis for the Eä language with SIMD extensions.

use vstd::prelude::*;
use crate::error::CompileError;
use crate::text::{
    chars_of, push_char, push_signed_decimal, push_str, push_string, signed_decimal_text, str_is,
    string_of,
};
use scan::{lemma_scan_len, scan, scan_at, scanned_len, string_between, Scan, Scanned};

pub mod scan;
pub mod tokens;

verus! {

/// Position information for tokens.
#[derive(Debug, Clone, Copy, PartialEq, Eq)]
pub struct Position {
    pub line: usize,
    pub column: usize,
    pub offset: usize,
}

impl Position {
    /// Creates a position from a line, a column and an offset.
    pub fn new(line: usize, column: usize, offset: usize) -> (p: Self)
        ensures
            p.line == line,
            p.column == column,
            p.offset == offset,
    {
        Position { line, column, offset }
    }
}

/// A token with position information.
#[derive(Debug, Clone, PartialEq, Eq)]
pub struct Token {
    pub kind: TokenKind,
    pub lexeme: String,
    pub position: Position,
}

impl Token {
    /// Creates a token.
    pub fn new(kind: TokenKind, lexeme: String, position: Position) -> (t: Self)
        ensures
            t.kind == kind,
            t.lexeme == lexeme,
            t.position == position,
    {
        Token { kind, lexeme, position }
    }
}

/// Token types for the Eä language with SIMD extensions. A floating-point
/// literal keeps its digits, without underscores, as text.
#[derive(Debug, Clone, Eq, Hash)]
pub enum TokenKind {
    // Core Keywords
    Func,
    Struct,
    Let,
    Mut,
    Const,
    If,
    Else,
    Return,
    True,
    False,
    While,
    For,
    In,
    Enum,
    Match,
    // Memory Management Keywords
    MemRegion,
    Parallel,
    Async,
    Await,
    // SIMD Keywords
    Vectorize,
    SimdWidth,
    SimdAuto,
    TargetFeature,
    HorizontalSum,
    HorizontalMin,
    HorizontalMax,
    DotProduct,
    LoadVector,
    StoreVector,
    FromSlice,
    ToArray,
    Splat,
    Shuffle,
    Lanes,
    // SIMD Hardware Feature Keywords
    SSE,
    SSE2,
    SSE3,
    SSE4,
    AVX,
    AVX2,
    AVX512,
    NEON,
    AltiVec,
    // Scalar Types
    I8,
    I16,
    I32,
    I64,
    U8,
    U16,
    U32,
    U64,
    F32,
    F64,
    Bool,
    String,
    // SIMD Vector Types
    F32x2,
    F32x4,
    F32x8,
    F32x16,
    F64x2,
    F64x4,
    F64x8,
    I32x2,
    I32x4,
    I32x8,
    I32x16,
    I64x2,
    I64x4,
    I64x8,
    I16x4,
    I16x8,
    I16x16,
    I16x32,
    I8x8,
    I8x16,
    I8x32,
    I8x64,
    U32x4,
    U32x8,
    U16x8,
    U16x16,
    U8x16,
    U8x32,
    Mask8,
    Mask16,
    Mask32,
    Mask64,
    // Operators
    Plus,
    Minus,
    Star,
    Slash,
    Percent,
    Assign,
    Equal,
    NotEqual,
    Less,
    LessEqual,
    Greater,
    GreaterEqual,
    And,
    Or,
    Not,
    Ampersand,
    PlusAssign,
    MinusAssign,
    StarAssign,
    SlashAssign,
    // SIMD-specific Operators
    DotAdd,
    DotSubtract,
    DotMultiply,
    DotDivide,
    DotAnd,
    DotOr,
    DotXor,
    DotEqual,
    DotNotEqual,
    DotLess,
    DotGreater,
    DotLessEqual,
    DotGreaterEqual,
    // Delimiters
    LeftParen,
    RightParen,
    LeftBrace,
    RightBrace,
    LeftBracket,
    RightBracket,
    Comma,
    Semicolon,
    Colon,
    DoubleColon,
    Arrow,
    FatArrow,
    Dot,
    // Literals
    Integer(i64),
    Float(String),
    // SIMD Vector Literals
    SimdLiteral(String),
    StringLiteral(String),
    Identifier(String),
    Comment,
    Newline,
    // Attributes
    At,
    Eof,
}

/// Whether two token kinds are the same: the same kind, holding the same value
/// or text where they hold one.
pub open spec fn kinds_match(a: TokenKind, b: TokenKind) -> bool {
    match (a, b) {
        (TokenKind::Integer(x), TokenKind::Integer(y)) => x == y,
        (TokenKind::Float(x), TokenKind::Float(y)) => x@ == y@,
        (TokenKind::SimdLiteral(x), TokenKind::SimdLiteral(y)) => x@ == y@,
        (TokenKind::StringLiteral(x), TokenKind::StringLiteral(y)) => x@ == y@,
        (TokenKind::Identifier(x), TokenKind::Identifier(y)) => x@ == y@,
        _ => a == b,
    }
}

impl PartialEq for TokenKind {
    fn eq(&self, other: &Self) -> (r: bool) {
        match (self, other) {
            (TokenKind::Integer(x), TokenKind::Integer(y)) => *x == *y,
            (TokenKind::Float(x), TokenKind::Float(y)) => *x == *y,
            (TokenKind::SimdLiteral(x), TokenKind::SimdLiteral(y)) => *x == *y,
            (TokenKind::StringLiteral(x), TokenKind::StringLiteral(y)) => *x == *y,
            (TokenKind::Identifier(x), TokenKind::Identifier(y)) => *x == *y,
            (TokenKind::Func, TokenKind::Func) => true,
            (TokenKind::Struct, TokenKind::Struct) => true,
            (TokenKind::Let, TokenKind::Let) => true,
            (TokenKind::Mut, TokenKind::Mut) => true,
            (TokenKind::Const, TokenKind::Const) => true,
            (TokenKind::If, TokenKind::If) => true,
            (TokenKind::Else, TokenKind::Else) => true,
            (TokenKind::Return, TokenKind::Return) => true,
            (TokenKind::True, TokenKind::True) => true,
            (TokenKind::False, TokenKind::False) => true,
            (TokenKind::While, TokenKind::While) => true,
            (TokenKind::For, TokenKind::For) => true,
            (TokenKind::In, TokenKind::In) => true,
            (TokenKind::Enum, TokenKind::Enum) => true,
            (TokenKind::Match, TokenKind::Match) => true,
            (TokenKind::MemRegion, TokenKind::MemRegion) => true,
            (TokenKind::Parallel, TokenKind::Parallel) => true,
            (TokenKind::Async, TokenKind::Async) => true,
            (TokenKind::Await, TokenKind::Await) => true,
            (TokenKind::Vectorize, TokenKind::Vectorize) => true,
            (TokenKind::SimdWidth, TokenKind::SimdWidth) => true,
            (TokenKind::SimdAuto, TokenKind::SimdAuto) => true,
            (TokenKind::TargetFeature, TokenKind::TargetFeature) => true,
            (TokenKind::HorizontalSum, TokenKind::HorizontalSum) => true,
            (TokenKind::HorizontalMin, TokenKind::HorizontalMin) => true,
            (TokenKind::HorizontalMax, TokenKind::HorizontalMax) => true,
            (TokenKind::DotProduct, TokenKind::DotProduct) => true,
            (TokenKind::LoadVector, TokenKind::LoadVector) => true,
            (TokenKind::StoreVector, TokenKind::StoreVector) => true,
            (TokenKind::FromSlice, TokenKind::FromSlice) => true,
            (TokenKind::ToArray, TokenKind::ToArray) => true,
            (TokenKind::Splat, TokenKind::Splat) => true,
            (TokenKind::Shuffle, TokenKind::Shuffle) => true,
            (TokenKind::Lanes, TokenKind::Lanes) => true,
            (TokenKind::SSE, TokenKind::SSE) => true,
            (TokenKind::SSE2, TokenKind::SSE2) => true,
            (TokenKind::SSE3, TokenKind::SSE3) => true,
            (TokenKind::SSE4, TokenKind::SSE4) => true,
            (TokenKind::AVX, TokenKind::AVX) => true,
            (TokenKind::AVX2, TokenKind::AVX2) => true,
            (TokenKind::AVX512, TokenKind::AVX512) => true,
            (TokenKind::NEON, TokenKind::NEON) => true,
            (TokenKind::AltiVec, TokenKind::AltiVec) => true,
            (TokenKind::I8, TokenKind::I8) => true,
            (TokenKind::I16, TokenKind::I16) => true,
            (TokenKind::I32, TokenKind::I32) => true,
            (TokenKind::I64, TokenKind::I64) => true,
            (TokenKind::U8, TokenKind::U8) => true,
            (TokenKind::U16, TokenKind::U16) => true,
            (TokenKind::U32, TokenKind::U32) => true,
            (TokenKind::U64, TokenKind::U64) => true,
            (TokenKind::F32, TokenKind::F32) => true,
            (TokenKind::F64, TokenKind::F64) => true,
            (TokenKind::Bool, TokenKind::Bool) => true,
            (TokenKind::String, TokenKind::String) => true,
            (TokenKind::F32x2, TokenKind::F32x2) => true,
            (TokenKind::F32x4, TokenKind::F32x4) => true,
            (TokenKind::F32x8, TokenKind::F32x8) => true,
            (TokenKind::F32x16, TokenKind::F32x16) => true,
            (TokenKind::F64x2, TokenKind::F64x2) => true,
            (TokenKind::F64x4, TokenKind::F64x4) => true,
            (TokenKind::F64x8, TokenKind::F64x8) => true,
            (TokenKind::I32x2, TokenKind::I32x2) => true,
            (TokenKind::I32x4, TokenKind::I32x4) => true,
            (TokenKind::I32x8, TokenKind::I32x8) => true,
            (TokenKind::I32x16, TokenKind::I32x16) => true,
            (TokenKind::I64x2, TokenKind::I64x2) => true,
            (TokenKind::I64x4, TokenKind::I64x4) => true,
            (TokenKind::I64x8, TokenKind::I64x8) => true,
            (TokenKind::I16x4, TokenKind::I16x4) => true,
            (TokenKind::I16x8, TokenKind::I16x8) => true,
            (TokenKind::I16x16, TokenKind::I16x16) => true,
            (TokenKind::I16x32, TokenKind::I16x32) => true,
            (TokenKind::I8x8, TokenKind::I8x8) => true,
            (TokenKind::I8x16, TokenKind::I8x16) => true,
            (TokenKind::I8x32, TokenKind::I8x32) => true,
            (TokenKind::I8x64, TokenKind::I8x64) => true,
            (TokenKind::U32x4, TokenKind::U32x4) => true,
            (TokenKind::U32x8, TokenKind::U32x8) => true,
            (TokenKind::U16x8, TokenKind::U16x8) => true,
            (TokenKind::U16x16, TokenKind::U16x16) => true,
            (TokenKind::U8x16, TokenKind::U8x16) => true,
            (TokenKind::U8x32, TokenKind::U8x32) => true,
            (TokenKind::Mask8, TokenKind::Mask8) => true,
            (TokenKind::Mask16, TokenKind::Mask16) => true,
            (TokenKind::Mask32, TokenKind::Mask32) => true,
            (TokenKind::Mask64, TokenKind::Mask64) => true,
            (TokenKind::Plus, TokenKind::Plus) => true,
            (TokenKind::Minus, TokenKind::Minus) => true,
            (TokenKind::Star, TokenKind::Star) => true,
            (TokenKind::Slash, TokenKind::Slash) => true,
            (TokenKind::Percent, TokenKind::Percent) => true,
            (TokenKind::Assign, TokenKind::Assign) => true,
            (TokenKind::Equal, TokenKind::Equal) => true,
            (TokenKind::NotEqual, TokenKind::NotEqual) => true,
            (TokenKind::Less, TokenKind::Less) => true,
            (TokenKind::LessEqual, TokenKind::LessEqual) => true,
            (TokenKind::Greater, TokenKind::Greater) => true,
            (TokenKind::GreaterEqual, TokenKind::GreaterEqual) => true,
            (TokenKind::And, TokenKind::And) => true,
            (TokenKind::Or, TokenKind::Or) => true,
            (TokenKind::Not, TokenKind::Not) => true,
            (TokenKind::Ampersand, TokenKind::Ampersand) => true,
            (TokenKind::PlusAssign, TokenKind::PlusAssign) => true,
            (TokenKind::MinusAssign, TokenKind::MinusAssign) => true,
            (TokenKind::StarAssign, TokenKind::StarAssign) => true,
            (TokenKind::SlashAssign, TokenKind::SlashAssign) => true,
            (TokenKind::DotAdd, TokenKind::DotAdd) => true,
            (TokenKind::DotSubtract, TokenKind::DotSubtract) => true,
            (TokenKind::DotMultiply, TokenKind::DotMultiply) => true,
            (TokenKind::DotDivide, TokenKind::DotDivide) => true,
            (TokenKind::DotAnd, TokenKind::DotAnd) => true,
            (TokenKind::DotOr, TokenKind::DotOr) => true,
            (TokenKind::DotXor, TokenKind::DotXor) => true,
            (TokenKind::DotEqual, TokenKind::DotEqual) => true,
            (TokenKind::DotNotEqual, TokenKind::DotNotEqual) => true,
            (TokenKind::DotLess, TokenKind::DotLess) => true,
            (TokenKind::DotGreater, TokenKind::DotGreater) => true,
            (TokenKind::DotLessEqual, TokenKind::DotLessEqual) => true,
            (TokenKind::DotGreaterEqual, TokenKind::DotGreaterEqual) => true,
            (TokenKind::LeftParen, TokenKind::LeftParen) => true,
            (TokenKind::RightParen, TokenKind::RightParen) => true,
            (TokenKind::LeftBrace, TokenKind::LeftBrace) => true,
            (TokenKind::RightBrace, TokenKind::RightBrace) => true,
            (TokenKind::LeftBracket, TokenKind::LeftBracket) => true,
            (TokenKind::RightBracket, TokenKind::RightBracket) => true,
            (TokenKind::Comma, TokenKind::Comma) => true,
            (TokenKind::Semicolon, TokenKind::Semicolon) => true,
            (TokenKind::Colon, TokenKind::Colon) => true,
            (TokenKind::DoubleColon, TokenKind::DoubleColon) => true,
            (TokenKind::Arrow, TokenKind::Arrow) => true,
            (TokenKind::FatArrow, TokenKind::FatArrow) => true,
            (TokenKind::Dot, TokenKind::Dot) => true,
            (TokenKind::Comment, TokenKind::Comment) => true,
            (TokenKind::Newline, TokenKind::Newline) => true,
            (TokenKind::At, TokenKind::At) => true,
            (TokenKind::Eof, TokenKind::Eof) => true,
            _ => false,
        }
    }
}

impl vstd::std_specs::cmp::PartialEqSpecImpl for TokenKind {
    open spec fn obeys_eq_spec() -> bool {
        true
    }

    open spec fn eq_spec(&self, other: &Self) -> bool {
        kinds_match(*self, *other)
    }
}

/// How a token kind is written out: the text of a fixed token, the value of a
/// literal (a string literal in double quotes), the name of an identifier.
pub open spec fn kind_text(k: TokenKind) -> Seq<char> {
    match k {
        TokenKind::Func => "func"@,
        TokenKind::Struct => "struct"@,
        TokenKind::Let => "let"@,
        TokenKind::Mut => "mut"@,
        TokenKind::Const => "const"@,
        TokenKind::If => "if"@,
        TokenKind::Else => "else"@,
        TokenKind::Return => "return"@,
        TokenKind::True => "true"@,
        TokenKind::False => "false"@,
        TokenKind::While => "while"@,
        TokenKind::For => "for"@,
        TokenKind::In => "in"@,
        TokenKind::Enum => "enum"@,
        TokenKind::Match => "match"@,
        TokenKind::MemRegion => "mem_region"@,
        TokenKind::Parallel => "parallel"@,
        TokenKind::Async => "async"@,
        TokenKind::Await => "await"@,
        TokenKind::Vectorize => "vectorize"@,
        TokenKind::SimdWidth => "simd_width"@,
        TokenKind::SimdAuto => "simd_auto"@,
        TokenKind::TargetFeature => "target_feature"@,
        TokenKind::HorizontalSum => "horizontal_sum"@,
        TokenKind::HorizontalMin => "horizontal_min"@,
        TokenKind::HorizontalMax => "horizontal_max"@,
        TokenKind::DotProduct => "dot_product"@,
        TokenKind::LoadVector => "load_vector"@,
        TokenKind::StoreVector => "store_vector"@,
        TokenKind::FromSlice => "from_slice"@,
        TokenKind::ToArray => "to_array"@,
        TokenKind::Splat => "splat"@,
        TokenKind::Shuffle => "shuffle"@,
        TokenKind::Lanes => "lanes"@,
        TokenKind::SSE => "sse"@,
        TokenKind::SSE2 => "sse2"@,
        TokenKind::SSE3 => "sse3"@,
        TokenKind::SSE4 => "sse4"@,
        TokenKind::AVX => "avx"@,
        TokenKind::AVX2 => "avx2"@,
        TokenKind::AVX512 => "avx512"@,
        TokenKind::NEON => "neon"@,
        TokenKind::AltiVec => "altivec"@,
        TokenKind::I8 => "i8"@,
        TokenKind::I16 => "i16"@,
        TokenKind::I32 => "i32"@,
        TokenKind::I64 => "i64"@,
        TokenKind::U8 => "u8"@,
        TokenKind::U16 => "u16"@,
        TokenKind::U32 => "u32"@,
        TokenKind::U64 => "u64"@,
        TokenKind::F32 => "f32"@,
        TokenKind::F64 => "f64"@,
        TokenKind::Bool => "bool"@,
        TokenKind::String => "string"@,
        TokenKind::F32x2 => "f32x2"@,
        TokenKind::F32x4 => "f32x4"@,
        TokenKind::F32x8 => "f32x8"@,
        TokenKind::F32x16 => "f32x16"@,
        TokenKind::F64x2 => "f64x2"@,
        TokenKind::F64x4 => "f64x4"@,
        TokenKind::F64x8 => "f64x8"@,
        TokenKind::I32x2 => "i32x2"@,
        TokenKind::I32x4 => "i32x4"@,
        TokenKind::I32x8 => "i32x8"@,
        TokenKind::I32x16 => "i32x16"@,
        TokenKind::I64x2 => "i64x2"@,
        TokenKind::I64x4 => "i64x4"@,
        TokenKind::I64x8 => "i64x8"@,
        TokenKind::I16x4 => "i16x4"@,
        TokenKind::I16x8 => "i16x8"@,
        TokenKind::I16x16 => "i16x16"@,
        TokenKind::I16x32 => "i16x32"@,
        TokenKind::I8x8 => "i8x8"@,
        TokenKind::I8x16 => "i8x16"@,
        TokenKind::I8x32 => "i8x32"@,
        TokenKind::I8x64 => "i8x64"@,
        TokenKind::U32x4 => "u32x4"@,
        TokenKind::U32x8 => "u32x8"@,
        TokenKind::U16x8 => "u16x8"@,
        TokenKind::U16x16 => "u16x16"@,
        TokenKind::U8x16 => "u8x16"@,
        TokenKind::U8x32 => "u8x32"@,
        TokenKind::Mask8 => "mask8"@,
        TokenKind::Mask16 => "mask16"@,
        TokenKind::Mask32 => "mask32"@,
        TokenKind::Mask64 => "mask64"@,
        TokenKind::Plus => "+"@,
        TokenKind::Minus => "-"@,
        TokenKind::Star => "*"@,
        TokenKind::Slash => "/"@,
        TokenKind::Percent => "%"@,
        TokenKind::Assign => "="@,
        TokenKind::Equal => "=="@,
        TokenKind::NotEqual => "!="@,
        TokenKind::Less => "<"@,
        TokenKind::LessEqual => "<="@,
        TokenKind::Greater => ">"@,
        TokenKind::GreaterEqual => ">="@,
        TokenKind::And => "&&"@,
        TokenKind::Or => "||"@,
        TokenKind::Not => "!"@,
        TokenKind::Ampersand => "&"@,
        TokenKind::PlusAssign => "+="@,
        TokenKind::MinusAssign => "-="@,
        TokenKind::StarAssign => "*="@,
        TokenKind::SlashAssign => "/="@,
        TokenKind::DotAdd => ".+"@,
        TokenKind::DotSubtract => ".-"@,
        TokenKind::DotMultiply => ".*"@,
        TokenKind::DotDivide => "./"@,
        TokenKind::DotAnd => ".&"@,
        TokenKind::DotOr => ".|"@,
        TokenKind::DotXor => ".^"@,
        TokenKind::DotEqual => ".=="@,
        TokenKind::DotNotEqual => ".!="@,
        TokenKind::DotLess => ".<"@,
        TokenKind::DotGreater => ".>"@,
        TokenKind::DotLessEqual => ".<="@,
        TokenKind::DotGreaterEqual => ".>="@,
        TokenKind::LeftParen => "("@,
        TokenKind::RightParen => ")"@,
        TokenKind::LeftBrace => "{"@,
        TokenKind::RightBrace => "}"@,
        TokenKind::LeftBracket => "["@,
        TokenKind::RightBracket => "]"@,
        TokenKind::Comma => ","@,
        TokenKind::Semicolon => ";"@,
        TokenKind::Colon => ":"@,
        TokenKind::DoubleColon => "::"@,
        TokenKind::Arrow => "->"@,
        TokenKind::FatArrow => "=>"@,
        TokenKind::Dot => "."@,
        TokenKind::Newline => "\\n"@,
        TokenKind::At => "@"@,
        TokenKind::Integer(n) => signed_decimal_text(n as int),
        TokenKind::Float(t) => float_text(t@),
        TokenKind::SimdLiteral(t) => t@,
        TokenKind::StringLiteral(t) => seq!['"'] + t@ + seq!['"'],
        TokenKind::Identifier(t) => t@,
        TokenKind::Comment => "comment"@,
        TokenKind::Eof => "EOF"@,
    }
}

impl TokenKind {
    /// How the token kind is written out (see [`kind_text`]).
    pub fn to_string(&self) -> (s: String)
        ensures
            s@ == kind_text(*self),
    {
        match self {
            TokenKind::Func => "func".to_owned(),
            TokenKind::Struct => "struct".to_owned(),
            TokenKind::Let => "let".to_owned(),
            TokenKind::Mut => "mut".to_owned(),
            TokenKind::Const => "const".to_owned(),
            TokenKind::If => "if".to_owned(),
            TokenKind::Else => "else".to_owned(),
            TokenKind::Return => "return".to_owned(),
            TokenKind::True => "true".to_owned(),
            TokenKind::False => "false".to_owned(),
            TokenKind::While => "while".to_owned(),
            TokenKind::For => "for".to_owned(),
            TokenKind::In => "in".to_owned(),
            TokenKind::Enum => "enum".to_owned(),
            TokenKind::Match => "match".to_owned(),
            TokenKind::MemRegion => "mem_region".to_owned(),
            TokenKind::Parallel => "parallel".to_owned(),
            TokenKind::Async => "async".to_owned(),
            TokenKind::Await => "await".to_owned(),
            TokenKind::Vectorize => "vectorize".to_owned(),
            TokenKind::SimdWidth => "simd_width".to_owned(),
            TokenKind::SimdAuto => "simd_auto".to_owned(),
            TokenKind::TargetFeature => "target_feature".to_owned(),
            TokenKind::HorizontalSum => "horizontal_sum".to_owned(),
            TokenKind::HorizontalMin => "horizontal_min".to_owned(),
            TokenKind::HorizontalMax => "horizontal_max".to_owned(),
            TokenKind::DotProduct => "dot_product".to_owned(),
            TokenKind::LoadVector => "load_vector".to_owned(),
            TokenKind::StoreVector => "store_vector".to_owned(),
            TokenKind::FromSlice => "from_slice".to_owned(),
            TokenKind::ToArray => "to_array".to_owned(),
            TokenKind::Splat => "splat".to_owned(),
            TokenKind::Shuffle => "shuffle".to_owned(),
            TokenKind::Lanes => "lanes".to_owned(),
            TokenKind::SSE => "sse".to_owned(),
            TokenKind::SSE2 => "sse2".to_owned(),
            TokenKind::SSE3 => "sse3".to_owned(),
            TokenKind::SSE4 => "sse4".to_owned(),
            TokenKind::AVX => "avx".to_owned(),
            TokenKind::AVX2 => "avx2".to_owned(),
            TokenKind::AVX512 => "avx512".to_owned(),
            TokenKind::NEON => "neon".to_owned(),
            TokenKind::AltiVec => "altivec".to_owned(),
            TokenKind::I8 => "i8".to_owned(),
            TokenKind::I16 => "i16".to_owned(),
            TokenKind::I32 => "i32".to_owned(),
            TokenKind::I64 => "i64".to_owned(),
            TokenKind::U8 => "u8".to_owned(),
            TokenKind::U16 => "u16".to_owned(),
            TokenKind::U32 => "u32".to_owned(),
            TokenKind::U64 => "u64".to_owned(),
            TokenKind::F32 => "f32".to_owned(),
            TokenKind::F64 => "f64".to_owned(),
            TokenKind::Bool => "bool".to_owned(),
            TokenKind::String => "string".to_owned(),
            TokenKind::F32x2 => "f32x2".to_owned(),
            TokenKind::F32x4 => "f32x4".to_owned(),
            TokenKind::F32x8 => "f32x8".to_owned(),
            TokenKind::F32x16 => "f32x16".to_owned(),
            TokenKind::F64x2 => "f64x2".to_owned(),
            TokenKind::F64x4 => "f64x4".to_owned(),
            TokenKind::F64x8 => "f64x8".to_owned(),
            TokenKind::I32x2 => "i32x2".to_owned(),
            TokenKind::I32x4 => "i32x4".to_owned(),
            TokenKind::I32x8 => "i32x8".to_owned(),
            TokenKind::I32x16 => "i32x16".to_owned(),
            TokenKind::I64x2 => "i64x2".to_owned(),
            TokenKind::I64x4 => "i64x4".to_owned(),
            TokenKind::I64x8 => "i64x8".to_owned(),
            TokenKind::I16x4 => "i16x4".to_owned(),
            TokenKind::I16x8 => "i16x8".to_owned(),
            TokenKind::I16x16 => "i16x16".to_owned(),
            TokenKind::I16x32 => "i16x32".to_owned(),
            TokenKind::I8x8 => "i8x8".to_owned(),
            TokenKind::I8x16 => "i8x16".to_owned(),
            TokenKind::I8x32 => "i8x32".to_owned(),
            TokenKind::I8x64 => "i8x64".to_owned(),
            TokenKind::U32x4 => "u32x4".to_owned(),
            TokenKind::U32x8 => "u32x8".to_owned(),
            TokenKind::U16x8 => "u16x8".to_owned(),
            TokenKind::U16x16 => "u16x16".to_owned(),
            TokenKind::U8x16 => "u8x16".to_owned(),
            TokenKind::U8x32 => "u8x32".to_owned(),
            TokenKind::Mask8 => "mask8".to_owned(),
            TokenKind::Mask16 => "mask16".to_owned(),
            TokenKind::Mask32 => "mask32".to_owned(),
            TokenKind::Mask64 => "mask64".to_owned(),
            TokenKind::Plus => "+".to_owned(),
            TokenKind::Minus => "-".to_owned(),
            TokenKind::Star => "*".to_owned(),
            TokenKind::Slash => "/".to_owned(),
            TokenKind::Percent => "%".to_owned(),
            TokenKind::Assign => "=".to_owned(),
            TokenKind::Equal => "==".to_owned(),
            TokenKind::NotEqual => "!=".to_owned(),
            TokenKind::Less => "<".to_owned(),
            TokenKind::LessEqual => "<=".to_owned(),
            TokenKind::Greater => ">".to_owned(),
            TokenKind::GreaterEqual => ">=".to_owned(),
            TokenKind::And => "&&".to_owned(),
            TokenKind::Or => "||".to_owned(),
            TokenKind::Not => "!".to_owned(),
            TokenKind::Ampersand => "&".to_owned(),
            TokenKind::PlusAssign => "+=".to_owned(),
            TokenKind::MinusAssign => "-=".to_owned(),
            TokenKind::StarAssign => "*=".to_owned(),
            TokenKind::SlashAssign => "/=".to_owned(),
            TokenKind::DotAdd => ".+".to_owned(),
            TokenKind::DotSubtract => ".-".to_owned(),
            TokenKind::DotMultiply => ".*".to_owned(),
            TokenKind::DotDivide => "./".to_owned(),
            TokenKind::DotAnd => ".&".to_owned(),
            TokenKind::DotOr => ".|".to_owned(),
            TokenKind::DotXor => ".^".to_owned(),
            TokenKind::DotEqual => ".==".to_owned(),
            TokenKind::DotNotEqual => ".!=".to_owned(),
            TokenKind::DotLess => ".<".to_owned(),
            TokenKind::DotGreater => ".>".to_owned(),
            TokenKind::DotLessEqual => ".<=".to_owned(),
            TokenKind::DotGreaterEqual => ".>=".to_owned(),
            TokenKind::LeftParen => "(".to_owned(),
            TokenKind::RightParen => ")".to_owned(),
            TokenKind::LeftBrace => "{".to_owned(),
            TokenKind::RightBrace => "}".to_owned(),
            TokenKind::LeftBracket => "[".to_owned(),
            TokenKind::RightBracket => "]".to_owned(),
            TokenKind::Comma => ",".to_owned(),
            TokenKind::Semicolon => ";".to_owned(),
            TokenKind::Colon => ":".to_owned(),
            TokenKind::DoubleColon => "::".to_owned(),
            TokenKind::Arrow => "->".to_owned(),
            TokenKind::FatArrow => "=>".to_owned(),
            TokenKind::Dot => ".".to_owned(),
            TokenKind::Newline => "\\n".to_owned(),
            TokenKind::At => "@".to_owned(),
            TokenKind::Integer(n) => {
                let mut s = String::new();
                push_signed_decimal(&mut s, *n);
                s
            },
            TokenKind::Float(t) => float_string(t.as_str()),
            TokenKind::SimdLiteral(t) => t.clone(),
            TokenKind::StringLiteral(t) => {
                let mut s = String::new();
                push_char(&mut s, '"');
                push_string(&mut s, t);
                push_char(&mut s, '"');
                proof {
                    assert(s@ =~= seq!['"'] + t@ + seq!['"']);
                }
                s
            },
            TokenKind::Identifier(t) => t.clone(),
            TokenKind::Comment => "comment".to_owned(),
            TokenKind::Eof => "EOF".to_owned(),
        }
    }
}

/// The fixed token spelled by a word (a keyword or a type name), if any.
pub open spec fn keyword_kind(text: Seq<char>) -> Option<TokenKind> {
    if text == "func"@ {
        Some(TokenKind::Func)
    } else if text == "struct"@ {
        Some(TokenKind::Struct)
    } else if text == "let"@ {
        Some(TokenKind::Let)
    } else if text == "mut"@ {
        Some(TokenKind::Mut)
    } else if text == "const"@ {
        Some(TokenKind::Const)
    } else if text == "if"@ {
        Some(TokenKind::If)
    } else if text == "else"@ {
        Some(TokenKind::Else)
    } else if text == "return"@ {
        Some(TokenKind::Return)
    } else if text == "true"@ {
        Some(TokenKind::True)
    } else if text == "false"@ {
        Some(TokenKind::False)
    } else if text == "while"@ {
        Some(TokenKind::While)
    } else if text == "for"@ {
        Some(TokenKind::For)
    } else if text == "in"@ {
        Some(TokenKind::In)
    } else if text == "enum"@ {
        Some(TokenKind::Enum)
    } else if text == "match"@ {
        Some(TokenKind::Match)
    } else if text == "mem_region"@ {
        Some(TokenKind::MemRegion)
    } else if text == "parallel"@ {
        Some(TokenKind::Parallel)
    } else if text == "async"@ {
        Some(TokenKind::Async)
    } else if text == "await"@ {
        Some(TokenKind::Await)
    } else if text == "vectorize"@ {
        Some(TokenKind::Vectorize)
    } else if text == "simd_width"@ {
        Some(TokenKind::SimdWidth)
    } else if text == "simd_auto"@ {
        Some(TokenKind::SimdAuto)
    } else if text == "target_feature"@ {
        Some(TokenKind::TargetFeature)
    } else if text == "horizontal_sum"@ {
        Some(TokenKind::HorizontalSum)
    } else if text == "horizontal_min"@ {
        Some(TokenKind::HorizontalMin)
    } else if text == "horizontal_max"@ {
        Some(TokenKind::HorizontalMax)
    } else if text == "dot_product"@ {
        Some(TokenKind::DotProduct)
    } else if text == "load_vector"@ {
        Some(TokenKind::LoadVector)
    } else if text == "store_vector"@ {
        Some(TokenKind::StoreVector)
    } else if text == "from_slice"@ {
        Some(TokenKind::FromSlice)
    } else if text == "to_array"@ {
        Some(TokenKind::ToArray)
    } else if text == "splat"@ {
        Some(TokenKind::Splat)
    } else if text == "shuffle"@ {
        Some(TokenKind::Shuffle)
    } else if text == "lanes"@ {
        Some(TokenKind::Lanes)
    } else if text == "sse"@ {
        Some(TokenKind::SSE)
    } else if text == "sse2"@ {
        Some(TokenKind::SSE2)
    } else if text == "sse3"@ {
        Some(TokenKind::SSE3)
    } else if text == "sse4"@ {
        Some(TokenKind::SSE4)
    } else if text == "avx"@ {
        Some(TokenKind::AVX)
    } else if text == "avx2"@ {
        Some(TokenKind::AVX2)
    } else if text == "avx512"@ {
        Some(TokenKind::AVX512)
    } else if text == "neon"@ {
        Some(TokenKind::NEON)
    } else if text == "altivec"@ {
        Some(TokenKind::AltiVec)
    } else if text == "i8"@ {
        Some(TokenKind::I8)
    } else if text == "i16"@ {
        Some(TokenKind::I16)
    } else if text == "i32"@ {
        Some(TokenKind::I32)
    } else if text == "i64"@ {
        Some(TokenKind::I64)
    } else if text == "u8"@ {
        Some(TokenKind::U8)
    } else if text == "u16"@ {
        Some(TokenKind::U16)
    } else if text == "u32"@ {
        Some(TokenKind::U32)
    } else if text == "u64"@ {
        Some(TokenKind::U64)
    } else if text == "f32"@ {
        Some(TokenKind::F32)
    } else if text == "f64"@ {
        Some(TokenKind::F64)
    } else if text == "bool"@ {
        Some(TokenKind::Bool)
    } else if text == "string"@ {
        Some(TokenKind::String)
    } else if text == "f32x2"@ {
        Some(TokenKind::F32x2)
    } else if text == "f32x4"@ {
        Some(TokenKind::F32x4)
    } else if text == "f32x8"@ {
        Some(TokenKind::F32x8)
    } else if text == "f32x16"@ {
        Some(TokenKind::F32x16)
    } else if text == "f64x2"@ {
        Some(TokenKind::F64x2)
    } else if text == "f64x4"@ {
        Some(TokenKind::F64x4)
    } else if text == "f64x8"@ {
        Some(TokenKind::F64x8)
    } else if text == "i32x2"@ {
        Some(TokenKind::I32x2)
    } else if text == "i32x4"@ {
        Some(TokenKind::I32x4)
    } else if text == "i32x8"@ {
        Some(TokenKind::I32x8)
    } else if text == "i32x16"@ {
        Some(TokenKind::I32x16)
    } else if text == "i64x2"@ {
        Some(TokenKind::I64x2)
    } else if text == "i64x4"@ {
        Some(TokenKind::I64x4)
    } else if text == "i64x8"@ {
        Some(TokenKind::I64x8)
    } else if text == "i16x4"@ {
        Some(TokenKind::I16x4)
    } else if text == "i16x8"@ {
        Some(TokenKind::I16x8)
    } else if text == "i16x16"@ {
        Some(TokenKind::I16x16)
    } else if text == "i16x32"@ {
        Some(TokenKind::I16x32)
    } else if text == "i8x8"@ {
        Some(TokenKind::I8x8)
    } else if text == "i8x16"@ {
        Some(TokenKind::I8x16)
    } else if text == "i8x32"@ {
        Some(TokenKind::I8x32)
    } else if text == "i8x64"@ {
        Some(TokenKind::I8x64)
    } else if text == "u32x4"@ {
        Some(TokenKind::U32x4)
    } else if text == "u32x8"@ {
        Some(TokenKind::U32x8)
    } else if text == "u16x8"@ {
        Some(TokenKind::U16x8)
    } else if text == "u16x16"@ {
        Some(TokenKind::U16x16)
    } else if text == "u8x16"@ {
        Some(TokenKind::U8x16)
    } else if text == "u8x32"@ {
        Some(TokenKind::U8x32)
    } else if text == "mask8"@ {
        Some(TokenKind::Mask8)
    } else if text == "mask16"@ {
        Some(TokenKind::Mask16)
    } else if text == "mask32"@ {
        Some(TokenKind::Mask32)
    } else if text == "mask64"@ {
        Some(TokenKind::Mask64)
    } else {
        None
    }
}

/// The fixed token spelled by a word (a keyword or a type name), if any.
pub fn keyword_type(text: &str) -> (r: Option<TokenKind>)
    ensures
        r == keyword_kind(text@),
{
    if str_is(text, "func") {
        Some(TokenKind::Func)
    } else if str_is(text, "struct") {
        Some(TokenKind::Struct)
    } else if str_is(text, "let") {
        Some(TokenKind::Let)
    } else if str_is(text, "mut") {
        Some(TokenKind::Mut)
    } else if str_is(text, "const") {
        Some(TokenKind::Const)
    } else if str_is(text, "if") {
        Some(TokenKind::If)
    } else if str_is(text, "else") {
        Some(TokenKind::Else)
    } else if str_is(text, "return") {
        Some(TokenKind::Return)
    } else if str_is(text, "true") {
        Some(TokenKind::True)
    } else if str_is(text, "false") {
        Some(TokenKind::False)
    } else if str_is(text, "while") {
        Some(TokenKind::While)
    } else if str_is(text, "for") {
        Some(TokenKind::For)
    } else if str_is(text, "in") {
        Some(TokenKind::In)
    } else if str_is(text, "enum") {
        Some(TokenKind::Enum)
    } else if str_is(text, "match") {
        Some(TokenKind::Match)
    } else if str_is(text, "mem_region") {
        Some(TokenKind::MemRegion)
    } else if str_is(text, "parallel") {
        Some(TokenKind::Parallel)
    } else if str_is(text, "async") {
        Some(TokenKind::Async)
    } else if str_is(text, "await") {
        Some(TokenKind::Await)
    } else if str_is(text, "vectorize") {
        Some(TokenKind::Vectorize)
    } else if str_is(text, "simd_width") {
        Some(TokenKind::SimdWidth)
    } else if str_is(text, "simd_auto") {
        Some(TokenKind::SimdAuto)
    } else if str_is(text, "target_feature") {
        Some(TokenKind::TargetFeature)
    } else if str_is(text, "horizontal_sum") {
        Some(TokenKind::HorizontalSum)
    } else if str_is(text, "horizontal_min") {
        Some(TokenKind::HorizontalMin)
    } else if str_is(text, "horizontal_max") {
        Some(TokenKind::HorizontalMax)
    } else if str_is(text, "dot_product") {
        Some(TokenKind::DotProduct)
    } else if str_is(text, "load_vector") {
        Some(TokenKind::LoadVector)
    } else if str_is(text, "store_vector") {
        Some(TokenKind::StoreVector)
    } else if str_is(text, "from_slice") {
        Some(TokenKind::FromSlice)
    } else if str_is(text, "to_array") {
        Some(TokenKind::ToArray)
    } else if str_is(text, "splat") {
        Some(TokenKind::Splat)
    } else if str_is(text, "shuffle") {
        Some(TokenKind::Shuffle)
    } else if str_is(text, "lanes") {
        Some(TokenKind::Lanes)
    } else if str_is(text, "sse") {
        Some(TokenKind::SSE)
    } else if str_is(text, "sse2") {
        Some(TokenKind::SSE2)
    } else if str_is(text, "sse3") {
        Some(TokenKind::SSE3)
    } else if str_is(text, "sse4") {
        Some(TokenKind::SSE4)
    } else if str_is(text, "avx") {
        Some(TokenKind::AVX)
    } else if str_is(text, "avx2") {
        Some(TokenKind::AVX2)
    } else if str_is(text, "avx512") {
        Some(TokenKind::AVX512)
    } else if str_is(text, "neon") {
        Some(TokenKind::NEON)
    } else if str_is(text, "altivec") {
        Some(TokenKind::AltiVec)
    } else if str_is(text, "i8") {
        Some(TokenKind::I8)
    } else if str_is(text, "i16") {
        Some(TokenKind::I16)
    } else if str_is(text, "i32") {
        Some(TokenKind::I32)
    } else if str_is(text, "i64") {
        Some(TokenKind::I64)
    } else if str_is(text, "u8") {
        Some(TokenKind::U8)
    } else if str_is(text, "u16") {
        Some(TokenKind::U16)
    } else if str_is(text, "u32") {
        Some(TokenKind::U32)
    } else if str_is(text, "u64") {
        Some(TokenKind::U64)
    } else if str_is(text, "f32") {
        Some(TokenKind::F32)
    } else if str_is(text, "f64") {
        Some(TokenKind::F64)
    } else if str_is(text, "bool") {
        Some(TokenKind::Bool)
    } else if str_is(text, "string") {
        Some(TokenKind::String)
    } else if str_is(text, "f32x2") {
        Some(TokenKind::F32x2)
    } else if str_is(text, "f32x4") {
        Some(TokenKind::F32x4)
    } else if str_is(text, "f32x8") {
        Some(TokenKind::F32x8)
    } else if str_is(text, "f32x16") {
        Some(TokenKind::F32x16)
    } else if str_is(text, "f64x2") {
        Some(TokenKind::F64x2)
    } else if str_is(text, "f64x4") {
        Some(TokenKind::F64x4)
    } else if str_is(text, "f64x8") {
        Some(TokenKind::F64x8)
    } else if str_is(text, "i32x2") {
        Some(TokenKind::I32x2)
    } else if str_is(text, "i32x4") {
        Some(TokenKind::I32x4)
    } else if str_is(text, "i32x8") {
        Some(TokenKind::I32x8)
    } else if str_is(text, "i32x16") {
        Some(TokenKind::I32x16)
    } else if str_is(text, "i64x2") {
        Some(TokenKind::I64x2)
    } else if str_is(text, "i64x4") {
        Some(TokenKind::I64x4)
    } else if str_is(text, "i64x8") {
        Some(TokenKind::I64x8)
    } else if str_is(text, "i16x4") {
        Some(TokenKind::I16x4)
    } else if str_is(text, "i16x8") {
        Some(TokenKind::I16x8)
    } else if str_is(text, "i16x16") {
        Some(TokenKind::I16x16)
    } else if str_is(text, "i16x32") {
        Some(TokenKind::I16x32)
    } else if str_is(text, "i8x8") {
        Some(TokenKind::I8x8)
    } else if str_is(text, "i8x16") {
        Some(TokenKind::I8x16)
    } else if str_is(text, "i8x32") {
        Some(TokenKind::I8x32)
    } else if str_is(text, "i8x64") {
        Some(TokenKind::I8x64)
    } else if str_is(text, "u32x4") {
        Some(TokenKind::U32x4)
    } else if str_is(text, "u32x8") {
        Some(TokenKind::U32x8)
    } else if str_is(text, "u16x8") {
        Some(TokenKind::U16x8)
    } else if str_is(text, "u16x16") {
        Some(TokenKind::U16x16)
    } else if str_is(text, "u8x16") {
        Some(TokenKind::U8x16)
    } else if str_is(text, "u8x32") {
        Some(TokenKind::U8x32)
    } else if str_is(text, "mask8") {
        Some(TokenKind::Mask8)
    } else if str_is(text, "mask16") {
        Some(TokenKind::Mask16)
    } else if str_is(text, "mask32") {
        Some(TokenKind::Mask32)
    } else if str_is(text, "mask64") {
        Some(TokenKind::Mask64)
    } else {
        None
    }
}

/// A floating-point literal written out as its value: no leading zeros before
/// the point (but one), no trailing zeros after it, and no point when nothing
/// follows it.
pub open spec fn float_text(t: Seq<char>) -> Seq<char> {
    let p = point_index(t);
    let whole = strip_leading_zeros(t.take(p));
    let frac = strip_trailing_zeros(t.skip(p + 1));
    if p >= t.len() || frac.len() == 0 {
        whole
    } else {
        whole + seq!['.'] + frac
    }
}

/// The position of the first '.', or the length when there is none.
pub open spec fn point_index(t: Seq<char>) -> int
    decreases t.len(),
{
    if t.len() == 0 {
        0
    } else if t[0] == '.' {
        0
    } else {
        1 + point_index(t.drop_first())
    }
}

/// Digits without their leading zeros; "0" when nothing else remains.
pub open spec fn strip_leading_zeros(t: Seq<char>) -> Seq<char>
    decreases t.len(),
{
    if t.len() == 0 {
        seq!['0']
    } else if t[0] == '0' && t.len() > 1 {
        strip_leading_zeros(t.drop_first())
    } else {
        t
    }
}

/// Digits without their trailing zeros.
pub open spec fn strip_trailing_zeros(t: Seq<char>) -> Seq<char>
    decreases t.len(),
{
    if t.len() == 0 {
        t
    } else if t.last() == '0' {
        strip_trailing_zeros(t.drop_last())
    } else {
        t
    }
}

proof fn lemma_point_index(t: Seq<char>)
    ensures
        0 <= point_index(t) <= t.len(),
        forall|i: int| 0 <= i < point_index(t) ==> t[i] != '.',
        point_index(t) < t.len() ==> t[point_index(t)] == '.',
    decreases t.len(),
{
    if t.len() > 0 && t[0] != '.' {
        lemma_point_index(t.drop_first());
        assert forall|i: int| 0 <= i < point_index(t) implies t[i] != '.' by {
            if i > 0 {
                assert(t.drop_first()[i - 1] == t[i]);
            }
        }
    }
}

/// A floating-point literal written out as its value (see [`float_text`]).
pub fn float_string(t: &str) -> (s: String)
    ensures
        s@ == float_text(t@),
{
    let cs = crate::text::chars_of(t);
    let n = cs.len();
    // Find the point.
    let mut p: usize = 0;
    while p < n && cs[p] != '.'
        invariant
            p <= n,
            n == cs@.len(),
            forall|i: int| 0 <= i < p ==> cs@[i] != '.',
        decreases n - p,
    {
        p = p + 1;
    }
    proof {
        lemma_point_index(cs@);
        if point_index(cs@) < p {
            assert(cs@[point_index(cs@)] == '.');
        }
        if p < point_index(cs@) {
            assert(cs@[p as int] == '.');
        }
    }
    // Skip leading zeros of the whole part, keeping its last digit.
    let mut a: usize = 0;
    while a + 1 < p && cs[a] == '0'
        invariant
            a < p || (a == 0 && p == 0),
            p <= n,
            n == cs@.len(),
            strip_leading_zeros(cs@.take(p as int)) == strip_leading_zeros(
                cs@.subrange(a as int, p as int),
            ),
        decreases p - a,
    {
        proof {
            assert(cs@.subrange(a as int, p as int).drop_first() =~= cs@.subrange(a + 1, p as int));
        }
        a = a + 1;
    }
    let mut s = String::new();
    if p == 0 {
        push_char(&mut s, '0');
        proof {
            assert(cs@.take(0) =~= Seq::<char>::empty());
        }
    } else {
        let mut k: usize = a;
        while k < p
            invariant
                a <= k <= p,
                p <= n,
                n == cs@.len(),
                s@ == cs@.subrange(a as int, k as int),
            decreases p - k,
        {
            push_char(&mut s, cs[k]);
            k = k + 1;
            proof {
                assert(s@ =~= cs@.subrange(a as int, k as int));
            }
        }
        proof {
            let w = cs@.subrange(a as int, p as int);
            assert(w.len() > 0);
            if w[0] == '0' && w.len() > 1 {
                assert(a + 1 >= p);
            }
            assert(strip_leading_zeros(w) == w);
        }
    }
    proof {
        assert(cs@.take(p as int) =~= cs@.take(p as int));
    }
    if p < n {
        // Drop trailing zeros of the fraction.
        let mut e: usize = n;
        while e > p + 1 && cs[e - 1] == '0'
            invariant
                p + 1 <= e <= n,
                n == cs@.len(),
                strip_trailing_zeros(cs@.skip(p + 1)) == strip_trailing_zeros(
                    cs@.subrange(p + 1, e as int),
                ),
            decreases e,
        {
            proof {
                assert(cs@.subrange(p + 1, e as int).drop_last() =~= cs@.subrange(
                    p + 1,
                    e - 1,
                ));
            }
            e = e - 1;
        }
        proof {
            let f = cs@.subrange(p + 1, e as int);
            assert(cs@.skip(p + 1) =~= cs@.subrange(p + 1, n as int));
            if f.len() > 0 {
                assert(f.last() == cs@[e - 1]);
            }
            assert(strip_trailing_zeros(f) == f);
        }
        if e > p + 1 {
            let ghost whole = s@;
            push_char(&mut s, '.');
            let mut k: usize = p + 1;
            while k < e
                invariant
                    p + 1 <= k <= e,
                    e <= n,
                    n == cs@.len(),
                    s@ == whole + seq!['.'] + cs@.subrange(p + 1, k as int),
                decreases e - k,
            {
                push_char(&mut s, cs[k]);
                k = k + 1;
                proof {
                    assert(s@ =~= whole + seq!['.'] + cs@.subrange(p + 1, k as int));
                }
            }
        }
    }
    s
}

/// The number of bytes that encode a character in UTF-8.
pub open spec fn utf8_len(c: char) -> nat {
    if (c as nat) < 0x80 {
        1
    } else if (c as nat) < 0x800 {
        2
    } else if (c as nat) < 0x10000 {
        3
    } else {
        4
    }
}

/// The number of bytes that encode characters in UTF-8.
pub open spec fn byte_len(s: Seq<char>) -> nat
    decreases s.len(),
{
    if s.len() == 0 {
        0
    } else {
        byte_len(s.drop_last()) + utf8_len(s.last())
    }
}

/// The byte offset at which the line holding position `i` starts: just past the
/// last line break before `i`.
pub open spec fn line_start(src: Seq<char>, i: int) -> nat
    decreases i,
{
    if i <= 0 {
        0
    } else if src[i - 1] == '\n' {
        byte_len(src.take(i))
    } else {
        line_start(src, i - 1)
    }
}

/// The column of position `i`: its byte offset from the start of its line, plus
/// one.
pub open spec fn column_at(src: Seq<char>, i: int) -> nat {
    (byte_len(src.take(i)) - line_start(src, i) + 1) as nat
}

/// Where lexing stands: the next position, the line (one more than the line
/// breaks passed as tokens), and the column just past the last token.
pub struct LexState {
    pub pos: nat,
    pub line: nat,
    pub column: nat,
}

/// What the next call of the lexer meets.
pub enum Step {
    /// A token, scanned at `start` on `line`
    Token { scanned: Scanned, start: nat, line: nat },
    /// The end of the source
    End { line: nat, column: nat },
    /// `len` characters at `start` that form no token
    Error { start: nat, len: nat, line: nat },
}

/// The next step of lexing from a state, and the state after it: blanks and
/// comments are passed over, a line break moves to the next line.
pub open spec fn next_step(src: Seq<char>, st: LexState) -> (Step, LexState)
    decreases src.len() - st.pos,
{
    if st.pos >= src.len() {
        (Step::End { line: st.line, column: st.column }, st)
    } else {
        proof {
            lemma_scan_len(src, st.pos as int);
        }
        let sc = scan(src, st.pos as int);
        let n = scanned_len(sc);
        match sc {
            Scanned::Skip(k) => next_step(src, LexState { pos: st.pos + k, ..st }),
            Scanned::Newline => next_step(
                src,
                LexState { pos: st.pos + 1, line: st.line + 1, column: 1 },
            ),
            Scanned::Bad(k) => (
                Step::Error { start: st.pos, len: k, line: st.line },
                LexState { pos: st.pos + k, ..st },
            ),
            _ => (
                Step::Token { scanned: sc, start: st.pos, line: st.line },
                LexState {
                    pos: st.pos + n,
                    line: st.line,
                    column: column_at(src, st.pos as int) + byte_len(
                        src.subrange(st.pos as int, (st.pos + n) as int),
                    ),
                },
            ),
        }
    }
}

/// A token kind agrees with what was scanned.
pub open spec fn kind_agrees(k: TokenKind, s: Scanned) -> bool {
    match s {
        Scanned::Fixed(f, _) => k == f,
        Scanned::Word(w) => k matches TokenKind::Identifier(t) && t@ == w,
        Scanned::Int(v, _) => k == TokenKind::Integer(v),
        Scanned::Float(t, _) => k matches TokenKind::Float(x) && x@ == t,
        Scanned::Str(t, _) => k matches TokenKind::StringLiteral(x) && x@ == t,
        _ => false,
    }
}

/// The position of source position `i` on `line`.
pub open spec fn position_at(src: Seq<char>, i: int, line: nat) -> Position {
    Position {
        line: line as usize,
        column: column_at(src, i) as usize,
        offset: byte_len(src.take(i)) as usize,
    }
}

/// The message for characters that form no token.
pub open spec fn unexpected_text(lexeme: Seq<char>) -> Seq<char> {
    "Unexpected character: '"@ + lexeme + "'"@
}

/// A result of the lexer agrees with a step: the token, the end-of-input token,
/// or the lexical error.
pub open spec fn step_agrees(r: Result<Token, CompileError>, s: Step, src: Seq<char>) -> bool {
    match s {
        Step::Token { scanned, start, line } => r matches Ok(t) && kind_agrees(t.kind, scanned)
            && t.lexeme@ == src.subrange(start as int, (start + scanned_len(scanned)) as int)
            && t.position == position_at(src, start as int, line),
        Step::End { line, column } => r matches Ok(t) && t.kind == TokenKind::Eof
            && t.lexeme@.len() == 0 && t.position == (Position {
            line: line as usize,
            column: column as usize,
            offset: byte_len(src) as usize,
        }),
        Step::Error { start, len, line } => r matches Err(e) && e matches CompileError::LexError {
            message,
            position,
        } && message@ == unexpected_text(src.subrange(start as int, (start + len) as int)) && position
            == position_at(src, start as int, line),
    }
}

/// The steps of lexing from a state up to the end of the source or the first
/// error, both included.
pub open spec fn steps(src: Seq<char>, st: LexState) -> Seq<Step>
    decreases src.len() - st.pos,
{
    let s = next_step(src, st).0;
    if s is Token {
        proof {
            lemma_next_step_advances(src, st);
        }
        seq![s] + steps(src, next_step(src, st).1)
    } else {
        seq![s]
    }
}

/// The tokens of a whole run agree with its steps: the error that ends it, or a
/// token for each step, the last one the end-of-input token.
pub open spec fn tokens_agree(r: Result<Vec<Token>, CompileError>, ss: Seq<Step>, src: Seq<char>) -> bool {
    if ss.last() is Error {
        r matches Err(e) && step_agrees(Err(e), ss.last(), src)
    } else {
        r matches Ok(v) && v@.len() == ss.len() && forall|i: int|
            0 <= i < ss.len() ==> step_agrees(Ok(#[trigger] v@[i]), ss[i], src)
    }
}

/// A token step moves past at least one character and stays within the source;
/// no step moves back.
pub proof fn lemma_next_step_advances(src: Seq<char>, st: LexState)
    ensures
        next_step(src, st).1.pos >= st.pos,
        next_step(src, st).0 is Token ==> st.pos < next_step(src, st).1.pos <= src.len(),
    decreases src.len() - st.pos,
{
    if st.pos < src.len() {
        lemma_scan_len(src, st.pos as int);
        let sc = scan(src, st.pos as int);
        match sc {
            Scanned::Skip(k) => {
                lemma_next_step_advances(src, LexState { pos: st.pos + k, ..st });
            },
            Scanned::Newline => {
                lemma_next_step_advances(src, LexState { pos: st.pos + 1, line: st.line + 1, column: 1 });
            },
            _ => {},
        }
    }
}

/// No token scanned from the source is the end-of-input token.
pub proof fn lemma_scanned_not_eof(src: Seq<char>, i: int)
    requires
        0 <= i < src.len(),
    ensures
        scan(src, i) matches Scanned::Fixed(k, _) ==> k != TokenKind::Eof,
{
    let c = src[i];
    if scan::is_word_start(c) {
        let w = src.subrange(i, i + scan::run_len(src, i, scan::RunClass::Word));
        lemma_keyword_not_eof(w);
    }
}

/// No word spells the end-of-input token.
pub proof fn lemma_keyword_not_eof(text: Seq<char>)
    ensures
        keyword_kind(text) != Some(TokenKind::Eof),
{
}

/// A step that yields a token is never the end of the source.
proof fn lemma_token_step_not_eof(src: Seq<char>, st: LexState)
    ensures
        next_step(src, st).0 matches Step::Token { scanned, .. } ==> !kind_agrees(
            TokenKind::Eof,
            scanned,
        ),
    decreases src.len() - st.pos,
{
    if st.pos < src.len() {
        lemma_scan_len(src, st.pos as int);
        lemma_scanned_not_eof(src, st.pos as int);
        let sc = scan(src, st.pos as int);
        match sc {
            Scanned::Skip(k) => {
                lemma_token_step_not_eof(src, LexState { pos: st.pos + k, ..st });
            },
            Scanned::Newline => {
                lemma_token_step_not_eof(src, LexState { pos: st.pos + 1, line: st.line + 1, column: 1 });
            },
            _ => {},
        }
    }
}

/// The shape of a run's steps: at least one; every step but the last yields a
/// token other than the end-of-input token; the last yields none.
proof fn lemma_steps_shape(src: Seq<char>, st: LexState)
    ensures
        steps(src, st).len() >= 1,
        !(steps(src, st).last() is Token),
        forall|i: int|
            0 <= i < steps(src, st).len() - 1 ==> ((#[trigger] steps(src, st)[i]) matches Step::Token {
                scanned,
                ..
            } && !kind_agrees(TokenKind::Eof, scanned)),
    decreases src.len() - st.pos,
{
    lemma_next_step_advances(src, st);
    lemma_token_step_not_eof(src, st);
    let s = next_step(src, st).0;
    if s is Token {
        let next = next_step(src, st).1;
        lemma_steps_shape(src, next);
        let rest = steps(src, next);
        assert(steps(src, st) == seq![s] + rest);
        assert forall|i: int| 0 <= i < steps(src, st).len() - 1 implies ((#[trigger] steps(
            src,
            st,
        )[i]) matches Step::Token { scanned, .. } && !kind_agrees(TokenKind::Eof, scanned)) by {
            if i > 0 {
                assert(steps(src, st)[i] == rest[i - 1]);
            }
        }
    }
}

/// A run of the lexer that succeeds gives at least one token, the end-of-input
/// token last and nowhere else.
pub proof fn lemma_tokens_end_with_eof(r: Result<Vec<Token>, CompileError>, src: Seq<char>, st: LexState)
    requires
        tokens_agree(r, steps(src, st), src),
        r is Ok,
    ensures
        r matches Ok(v) && v@.len() >= 1 && v@.last().kind == TokenKind::Eof && forall|i: int|
            0 <= i < v@.len() - 1 ==> (#[trigger] v@[i]).kind != TokenKind::Eof,
{
    lemma_steps_shape(src, st);
    let ss = steps(src, st);
    let v = r->Ok_0;
    assert(step_agrees(Ok(v@[ss.len() - 1]), ss[ss.len() - 1], src));
    assert forall|i: int| 0 <= i < v@.len() - 1 implies (#[trigger] v@[i]).kind != TokenKind::Eof by {
        assert(step_agrees(Ok(v@[i]), ss[i], src));
        assert(ss[i] is Token);
    }
}

/// Each keyword is written out as it is spelled in the source.
pub proof fn lemma_keyword_spelling(text: Seq<char>)
    ensures
        keyword_kind(text) matches Some(k) ==> kind_text(k) == text,
{
}

/// The SIMD vector type names that may close a vector literal.
pub open spec fn is_simd_type_name(t: Seq<char>) -> bool {
    t == "f32x2"@
        || t == "f32x4"@
        || t == "f32x8"@
        || t == "f32x16"@
        || t == "f64x2"@
        || t == "f64x4"@
        || t == "f64x8"@
        || t == "i32x2"@
        || t == "i32x4"@
        || t == "i32x8"@
        || t == "i32x16"@
        || t == "i64x2"@
        || t == "i64x4"@
        || t == "i64x8"@
        || t == "i16x4"@
        || t == "i16x8"@
        || t == "i16x16"@
        || t == "i16x32"@
        || t == "i8x8"@
        || t == "i8x16"@
        || t == "i8x32"@
        || t == "i8x64"@
        || t == "u32x4"@
        || t == "u32x8"@
        || t == "u16x8"@
        || t == "u16x16"@
        || t == "u8x16"@
        || t == "u8x32"@
}

/// The position of the last occurrence of `c` in `s`; -1 when there is none.
pub open spec fn last_index_of(s: Seq<char>, c: char) -> int
    decreases s.len(),
{
    if s.len() == 0 {
        -1
    } else if s.last() == c {
        s.len() - 1
    } else {
        last_index_of(s.drop_last(), c)
    }
}

/// Whether a text is a SIMD vector literal such as `[1.0, 2.0]f32x2`: it opens
/// with `[` and what follows its last `]` is a SIMD type name.
pub open spec fn is_simd_literal_text(t: Seq<char>) -> bool {
    &&& t.len() > 0
    &&& t[0] == '['
    &&& last_index_of(t, ']') >= 0
    &&& is_simd_type_name(t.skip(last_index_of(t, ']') + 1))
}

/// Whether a string is a SIMD vector type name.
fn simd_type_name(t: &str) -> (b: bool)
    ensures
        b == is_simd_type_name(t@),
{
    str_is(t, "f32x2")
        || str_is(t, "f32x4")
        || str_is(t, "f32x8")
        || str_is(t, "f32x16")
        || str_is(t, "f64x2")
        || str_is(t, "f64x4")
        || str_is(t, "f64x8")
        || str_is(t, "i32x2")
        || str_is(t, "i32x4")
        || str_is(t, "i32x8")
        || str_is(t, "i32x16")
        || str_is(t, "i64x2")
        || str_is(t, "i64x4")
        || str_is(t, "i64x8")
        || str_is(t, "i16x4")
        || str_is(t, "i16x8")
        || str_is(t, "i16x16")
        || str_is(t, "i16x32")
        || str_is(t, "i8x8")
        || str_is(t, "i8x16")
        || str_is(t, "i8x32")
        || str_is(t, "i8x64")
        || str_is(t, "u32x4")
        || str_is(t, "u32x8")
        || str_is(t, "u16x8")
        || str_is(t, "u16x16")
        || str_is(t, "u8x16")
        || str_is(t, "u8x32")
}

/// The lexer for the Eä language with SIMD extensions.
pub struct Lexer {
    chars: Vec<char>,
    pos: usize,
    byte: usize,
    line_begin: usize,
    line: usize,
    column: usize,
    total: usize,
}

impl Lexer {
    /// The source, as characters.
    pub closed spec fn source(self) -> Seq<char> {
        self.chars@
    }

    /// Where lexing stands.
    pub closed spec fn state(self) -> LexState {
        LexState { pos: self.pos as nat, line: self.line as nat, column: self.column as nat }
    }

    /// The counters agree with the source and stay within range.
    pub closed spec fn wf(self) -> bool {
        &&& self.pos <= self.chars@.len()
        &&& self.byte == byte_len(self.chars@.take(self.pos as int))
        &&& self.line_begin == line_start(self.chars@, self.pos as int)
        &&& self.total == byte_len(self.chars@)
        &&& self.total < usize::MAX
        &&& 1 <= self.line <= self.pos + 1
        &&& 1 <= self.column <= self.byte + 1
    }

    /// Reads a SIMD vector literal such as `[1.0, 2.0, 3.0, 4.0]f32x4` (see
    /// [`is_simd_literal_text`]) as a single token holding its text.
    pub fn parse_simd_literal(&self, text: &str) -> (r: Option<TokenKind>)
        ensures
            is_simd_literal_text(text@) ==> (r matches Some(TokenKind::SimdLiteral(s)) && s@
                == text@),
            !is_simd_literal_text(text@) ==> r is None,
    {
        let mut cs = chars_of(text);
        if cs.len() == 0 || cs[0] != '[' {
            return None;
        }
        let mut i: usize = cs.len();
        proof {
            assert(cs@.take(i as int) =~= cs@);
        }
        while i > 0 && cs[i - 1] != ']'
            invariant
                i <= cs@.len(),
                last_index_of(cs@, ']') == last_index_of(cs@.take(i as int), ']'),
            decreases i,
        {
            proof {
                assert(cs@.take(i as int).drop_last() =~= cs@.take(i - 1));
            }
            i = i - 1;
        }
        if i == 0 {
            proof {
                assert(cs@.take(0) =~= Seq::<char>::empty());
            }
            return None;
        }
        proof {
            assert(cs@.take(i as int).last() == cs@[i - 1]);
        }
        let whole = string_of(cs.as_slice());
        let tail_chars = cs.split_off(i);
        let tail = string_of(tail_chars.as_slice());
        proof {
            assert(tail@ =~= text@.skip(last_index_of(text@, ']') + 1));
        }
        if simd_type_name(tail.as_str()) {
            Some(TokenKind::SimdLiteral(whole))
        } else {
            None
        }
    }

    /// A lexer at the start of `source`: line 1, column 1. (The source's byte
    /// length, as for any string in memory, is below the largest `usize`.)
    pub fn new(source: &str) -> (l: Self)
        requires
            byte_len(source@) < usize::MAX,
        ensures
            l.wf(),
            l.source() == source@,
            l.state() == (LexState { pos: 0, line: 1, column: 1 }),
    {
        let chars = chars_of(source);
        let total = byte_count(&chars);
        proof {
            assert(chars@.take(0) =~= Seq::<char>::empty());
        }
        Lexer { chars, pos: 0, byte: 0, line_begin: 0, line: 1, column: 1, total }
    }

    /// Moves `n` characters ahead, keeping the byte offset and the start of the
    /// line up to date.
    fn advance(&mut self, n: usize)
        requires
            old(self).wf(),
            old(self).pos + n <= old(self).chars@.len(),
        ensures
            final(self).chars == old(self).chars,
            final(self).pos == old(self).pos + n,
            final(self).byte == byte_len(final(self).chars@.take(final(self).pos as int)),
            final(self).line_begin == line_start(final(self).chars@, final(self).pos as int),
            final(self).byte == old(self).byte + byte_len(
                old(self).chars@.subrange(old(self).pos as int, old(self).pos + n),
            ),
            final(self).line == old(self).line,
            final(self).column == old(self).column,
            final(self).total == old(self).total,
    {
        let ghost p0 = self.pos;
        let ghost b0 = self.byte;
        assert(self.chars@.len() == self.chars.len());
        let end = self.pos + n;
        proof {
            lemma_byte_len_prefix(self.chars@, end as int);
            assert(self.chars@.subrange(p0 as int, p0 as int) =~= Seq::<char>::empty());
        }
        while self.pos < end
            invariant
                p0 <= self.pos <= end,
                end <= self.chars@.len(),
                self.chars == old(self).chars,
                self.byte == byte_len(self.chars@.take(self.pos as int)),
                self.line_begin == line_start(self.chars@, self.pos as int),
                self.byte == b0 + byte_len(self.chars@.subrange(p0 as int, self.pos as int)),
                byte_len(self.chars@.take(end as int)) <= self.total,
                self.total == byte_len(self.chars@),
                self.line == old(self).line,
                self.column == old(self).column,
                self.total == old(self).total,
            decreases end - self.pos,
        {
            let c = self.chars[self.pos];
            proof {
                let k = self.pos as int;
                assert(self.chars@.take(k + 1).drop_last() =~= self.chars@.take(k));
                assert(self.chars@.subrange(p0 as int, k + 1).drop_last() =~= self.chars@.subrange(
                    p0 as int,
                    k,
                ));
                lemma_byte_len_prefix_le(self.chars@, k + 1, end as int);
            }
            let w = utf8_width(c);
            self.byte = self.byte + w;
            self.pos = self.pos + 1;
            if c == '\n' {
                self.line_begin = self.byte;
            }
        }
    }

    /// The next token: blanks and comments are passed over, a line break moves to
    /// the next line; at the end of the source, the end-of-input token (again and
    /// again). Characters that form no token are reported, and lexing goes on past
    /// them.
    pub fn next_token(&mut self) -> (r: Result<Token, CompileError>)
        requires
            old(self).wf(),
        ensures
            final(self).wf(),
            final(self).source() == old(self).source(),
            step_agrees(r, next_step(old(self).source(), old(self).state()).0, old(self).source()),
            final(self).state() == next_step(old(self).source(), old(self).state()).1,
    {
        let ghost src = self.chars@;
        let ghost st0 = self.state();
        loop
            invariant
                self.wf(),
                self.chars@ == src,
                src == old(self).source(),
                st0 == old(self).state(),
                next_step(src, self.state()) == next_step(src, st0),
            decreases src.len() - self.pos,
        {
            if self.pos >= self.chars.len() {
                let position = Position::new(self.line, self.column, self.total);
                return Ok(Token::new(TokenKind::Eof, String::new(), position));
            }
            proof {
                lemma_scan_len(src, self.pos as int);
                lemma_line_start_le(src, self.pos as int);
                lemma_byte_len_prefix(src, self.pos as int);
                lemma_byte_len_ge_len(src);
            }
            let start = self.pos;
            let column = self.byte - self.line_begin + 1;
            match scan_at(&self.chars, self.pos) {
                Scan::Skip(n) => {
                    self.advance(n);
                },
                Scan::Newline => {
                    self.advance(1);
                    self.line = self.line + 1;
                    self.column = 1;
                },
                Scan::Bad(n) => {
                    let position = Position::new(self.line, column, self.byte);
                    let lexeme = string_between(&self.chars, start, start + n);
                    self.advance(n);
                    let mut message = String::new();
                    push_str(&mut message, "Unexpected character: '");
                    push_string(&mut message, &lexeme);
                    push_str(&mut message, "'");
                    proof {
                        reveal_strlit("Unexpected character: '");
                        reveal_strlit("'");
                        lemma_byte_len_prefix_le(src, self.pos as int, src.len() as int);
                    }
                    return Err(CompileError::lex_error(message, position));
                },
                Scan::Token(kind, n) => {
                    let position = Position::new(self.line, column, self.byte);
                    let lexeme = string_between(&self.chars, start, start + n);
                    let before = self.byte;
                    self.advance(n);
                    proof {
                        lemma_line_start_le(src, self.pos as int);
                        lemma_byte_len_prefix(src, self.pos as int);
                    }
                    self.column = column + (self.byte - before);
                    return Ok(Token::new(kind, lexeme, position));
                },
            }
        }
    }
    /// All the tokens from where the lexer stands to the end of the source, the
    /// end-of-input token last; or the first lexical error.
    pub fn tokenize_all(&mut self) -> (r: Result<Vec<Token>, CompileError>)
        requires
            old(self).wf(),
        ensures
            final(self).wf(),
            final(self).source() == old(self).source(),
            tokens_agree(r, steps(old(self).source(), old(self).state()), old(self).source()),
    {
        let ghost src = self.chars@;
        let ghost st0 = self.state();
        let ghost mut done: Seq<Step> = Seq::empty();
        let mut tokens: Vec<Token> = Vec::new();
        proof {
            assert(steps(src, st0) =~= done + steps(src, self.state()));
        }
        loop
            invariant
                self.wf(),
                self.chars@ == src,
                src == old(self).source(),
                st0 == old(self).state(),
                steps(src, st0) == done + steps(src, self.state()),
                tokens@.len() == done.len(),
                forall|i: int| 0 <= i < done.len() ==> (#[trigger] done[i]) is Token,
                forall|i: int|
                    0 <= i < done.len() ==> step_agrees(Ok(#[trigger] tokens@[i]), done[i], src),
            decreases src.len() - self.pos,
        {
            let ghost st = self.state();
            proof {
                lemma_next_step_advances(src, st);
                lemma_token_step_not_eof(src, st);
            }
            let t = self.next_token();
            match t {
                Err(e) => {
                    proof {
                        let ss = steps(src, st0);
                        assert(steps(src, st) =~= seq![next_step(src, st).0]);
                        assert(ss.last() == next_step(src, st).0);
                    }
                    return Err(e);
                },
                Ok(tok) => {
                    let is_eof = match tok.kind {
                        TokenKind::Eof => true,
                        _ => false,
                    };
                    let ghost s = next_step(src, st).0;
                    let ghost tb = tokens@;
                    tokens.push(tok);
                    if is_eof {
                        proof {
                            assert(s is End);
                            assert(steps(src, st) =~= seq![s]);
                            let ss = steps(src, st0);
                            assert(ss =~= done.push(s));
                            assert forall|i: int| 0 <= i < ss.len() implies step_agrees(
                                Ok(#[trigger] tokens@[i]),
                                ss[i],
                                src,
                            ) by {
                                if i < done.len() {
                                    assert(tokens@[i] == tb[i]);
                                }
                            }
                        }
                        return Ok(tokens);
                    }
                    proof {
                        assert(s is Token);
                        assert(steps(src, st) == seq![s] + steps(src, self.state()));
                        assert(done + steps(src, st) =~= done.push(s) + steps(src, self.state()));
                        assert forall|i: int| 0 <= i < done.len() + 1 implies step_agrees(
                            Ok(#[trigger] tokens@[i]),
                            done.push(s)[i],
                            src,
                        ) by {
                            if i < done.len() {
                                assert(tokens@[i] == tb[i]);
                            }
                        }
                        done = done.push(s);
                    }
                },
            }
        }
    }
}

/// The number of bytes that encode a character in UTF-8.
fn utf8_width(c: char) -> (w: usize)
    ensures
        w == utf8_len(c),
{
    let n = c as u32;
    if n < 0x80 {
        1
    } else if n < 0x800 {
        2
    } else if n < 0x10000 {
        3
    } else {
        4
    }
}

/// The number of bytes that encode characters in UTF-8, saturating at the
/// largest `usize`.
pub(crate) fn byte_count(cs: &Vec<char>) -> (n: usize)
    ensures
        n == (if byte_len(cs@) < usize::MAX {
            byte_len(cs@)
        } else {
            usize::MAX as nat
        }),
{
    let mut n: usize = 0;
    let mut k: usize = 0;
    proof {
        assert(cs@.take(0) =~= Seq::<char>::empty());
    }
    while k < cs.len()
        invariant
            k <= cs@.len(),
            n == (if byte_len(cs@.take(k as int)) < usize::MAX {
                byte_len(cs@.take(k as int))
            } else {
                usize::MAX as nat
            }),
        decreases cs@.len() - k,
    {
        proof {
            assert(cs@.take(k + 1).drop_last() =~= cs@.take(k as int));
        }
        n = n.saturating_add(utf8_width(cs[k]));
        k = k + 1;
    }
    proof {
        assert(cs@.take(k as int) =~= cs@);
    }
    n
}

/// The bytes of a prefix grow with it.
proof fn lemma_byte_len_prefix_le(s: Seq<char>, i: int, j: int)
    requires
        0 <= i <= j <= s.len(),
    ensures
        byte_len(s.take(i)) <= byte_len(s.take(j)),
    decreases j - i,
{
    if i < j {
        assert(s.take(j).drop_last() =~= s.take(j - 1));
        lemma_byte_len_prefix_le(s, i, j - 1);
    }
}

/// A whole prefix's bytes are at most the source's.
proof fn lemma_byte_len_prefix(s: Seq<char>, i: int)
    requires
        0 <= i <= s.len(),
    ensures
        byte_len(s.take(i)) <= byte_len(s),
{
    assert(s.take(s.len() as int) =~= s);
    lemma_byte_len_prefix_le(s, i, s.len() as int);
}

/// Every character takes at least one byte.
proof fn lemma_byte_len_ge_len(s: Seq<char>)
    ensures
        byte_len(s) >= s.len(),
    decreases s.len(),
{
    if s.len() > 0 {
        lemma_byte_len_ge_len(s.drop_last());
    }
}

/// A line starts no later than any position on it.
proof fn lemma_line_start_le(s: Seq<char>, i: int)
    requires
        0 <= i <= s.len(),
    ensures
        line_start(s, i) <= byte_len(s.take(i)),
    decreases i,
{
    if i > 0 && s[i - 1] != '\n' {
        lemma_line_start_le(s, i - 1);
        lemma_byte_len_prefix_le(s, i - 1, i);
    }
}

} // verus!
