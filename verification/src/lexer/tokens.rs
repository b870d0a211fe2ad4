//! Token utilities: classes of tokens, operator precedence, and SIMD type
//! information.

use vstd::prelude::*;
use super::TokenKind;
use crate::text::str_is;

verus! {

/// The bits of an element type: 32 for `f32`, `i32`, `u32`; 64 for `f64`,
/// `i64`, `u64`; 16 for `i16`, `u16`; 8 for `i8`, `u8`; 32 otherwise.
pub open spec fn element_bits(t: Seq<char>) -> nat {
    if t == "f32"@ || t == "i32"@ || t == "u32"@ {
        32
    } else if t == "f64"@ || t == "i64"@ || t == "u64"@ {
        64
    } else if t == "i16"@ || t == "u16"@ {
        16
    } else if t == "i8"@ || t == "u8"@ {
        8
    } else {
        32
    }
}

/// The bits of an element type (see [`element_bits`]).
pub fn element_type_bits(t: &str) -> (b: usize)
    ensures
        b == element_bits(t@),
{
    if str_is(t, "f32") || str_is(t, "i32") || str_is(t, "u32") {
        32
    } else if str_is(t, "f64") || str_is(t, "i64") || str_is(t, "u64") {
        64
    } else if str_is(t, "i16") || str_is(t, "u16") {
        16
    } else if str_is(t, "i8") || str_is(t, "u8") {
        8
    } else {
        32
    }
}

/// SIMD vector width information.
#[derive(Debug, Clone, PartialEq, Eq)]
pub struct SimdInfo {
    pub element_type: String,
    pub width: usize,
    pub total_bits: usize,
}

impl SimdInfo {
    /// The information for `width` elements of a type; the total is the
    /// element's bits (see [`element_bits`]) times the width.
    pub fn new(element_type: String, width: usize) -> (info: Self)
        requires
            element_bits(element_type@) * width <= usize::MAX,
        ensures
            info.element_type == element_type,
            info.width == width,
            info.total_bits == element_bits(element_type@) * width,
    {
        let bits = element_type_bits(element_type.as_str());
        SimdInfo { element_type, width, total_bits: bits * width }
    }
}

/// Whether a token kind is a keyword.
pub open spec fn is_keyword_spec(k: TokenKind) -> bool {
    match k {
        TokenKind::Func | TokenKind::Let | TokenKind::Mut | TokenKind::Const | TokenKind::If | TokenKind::Else | TokenKind::Return | TokenKind::MemRegion | TokenKind::Parallel | TokenKind::Vectorize | TokenKind::Async | TokenKind::Await | TokenKind::True | TokenKind::False | TokenKind::While | TokenKind::For => true,
        _ => false,
    }
}

/// Whether a token kind is a keyword.
pub fn is_keyword(token: &TokenKind) -> (b: bool)
    ensures
        b == is_keyword_spec(*token),
{
    match token {
        TokenKind::Func | TokenKind::Let | TokenKind::Mut | TokenKind::Const | TokenKind::If | TokenKind::Else | TokenKind::Return | TokenKind::MemRegion | TokenKind::Parallel | TokenKind::Vectorize | TokenKind::Async | TokenKind::Await | TokenKind::True | TokenKind::False | TokenKind::While | TokenKind::For => true,
        _ => false,
    }
}

/// Whether a token kind is a SIMD keyword.
pub open spec fn is_simd_keyword_spec(k: TokenKind) -> bool {
    match k {
        TokenKind::Vectorize | TokenKind::SimdWidth | TokenKind::SimdAuto | TokenKind::TargetFeature | TokenKind::Lanes => true,
        _ => false,
    }
}

/// Whether a token kind is a SIMD keyword.
pub fn is_simd_keyword(token: &TokenKind) -> (b: bool)
    ensures
        b == is_simd_keyword_spec(*token),
{
    match token {
        TokenKind::Vectorize | TokenKind::SimdWidth | TokenKind::SimdAuto | TokenKind::TargetFeature | TokenKind::Lanes => true,
        _ => false,
    }
}

/// Whether a token kind is a hardware feature.
pub open spec fn is_hardware_feature_spec(k: TokenKind) -> bool {
    match k {
        TokenKind::SSE | TokenKind::SSE2 | TokenKind::SSE3 | TokenKind::SSE4 | TokenKind::AVX | TokenKind::AVX2 | TokenKind::AVX512 | TokenKind::NEON | TokenKind::AltiVec => true,
        _ => false,
    }
}

/// Whether a token kind is a hardware feature.
pub fn is_hardware_feature(token: &TokenKind) -> (b: bool)
    ensures
        b == is_hardware_feature_spec(*token),
{
    match token {
        TokenKind::SSE | TokenKind::SSE2 | TokenKind::SSE3 | TokenKind::SSE4 | TokenKind::AVX | TokenKind::AVX2 | TokenKind::AVX512 | TokenKind::NEON | TokenKind::AltiVec => true,
        _ => false,
    }
}

/// Whether a token kind is a scalar type.
pub open spec fn is_scalar_type_spec(k: TokenKind) -> bool {
    match k {
        TokenKind::I8 | TokenKind::I16 | TokenKind::I32 | TokenKind::I64 | TokenKind::U8 | TokenKind::U16 | TokenKind::U32 | TokenKind::U64 | TokenKind::F32 | TokenKind::F64 | TokenKind::Bool | TokenKind::String => true,
        _ => false,
    }
}

/// Whether a token kind is a scalar type.
pub fn is_scalar_type(token: &TokenKind) -> (b: bool)
    ensures
        b == is_scalar_type_spec(*token),
{
    match token {
        TokenKind::I8 | TokenKind::I16 | TokenKind::I32 | TokenKind::I64 | TokenKind::U8 | TokenKind::U16 | TokenKind::U32 | TokenKind::U64 | TokenKind::F32 | TokenKind::F64 | TokenKind::Bool | TokenKind::String => true,
        _ => false,
    }
}

/// Whether a token kind is a SIMD vector type.
pub open spec fn is_simd_type_spec(k: TokenKind) -> bool {
    match k {
        TokenKind::F32x2 | TokenKind::F32x4 | TokenKind::F32x8 | TokenKind::F32x16 | TokenKind::F64x2 | TokenKind::F64x4 | TokenKind::F64x8 | TokenKind::I32x2 | TokenKind::I32x4 | TokenKind::I32x8 | TokenKind::I32x16 | TokenKind::I64x2 | TokenKind::I64x4 | TokenKind::I64x8 | TokenKind::I16x4 | TokenKind::I16x8 | TokenKind::I16x16 | TokenKind::I16x32 | TokenKind::I8x8 | TokenKind::I8x16 | TokenKind::I8x32 | TokenKind::I8x64 | TokenKind::U32x4 | TokenKind::U32x8 | TokenKind::U16x8 | TokenKind::U16x16 | TokenKind::U8x16 | TokenKind::U8x32 | TokenKind::Mask8 | TokenKind::Mask16 | TokenKind::Mask32 | TokenKind::Mask64 => true,
        _ => false,
    }
}

/// Whether a token kind is a SIMD vector type.
pub fn is_simd_type(token: &TokenKind) -> (b: bool)
    ensures
        b == is_simd_type_spec(*token),
{
    match token {
        TokenKind::F32x2 | TokenKind::F32x4 | TokenKind::F32x8 | TokenKind::F32x16 | TokenKind::F64x2 | TokenKind::F64x4 | TokenKind::F64x8 | TokenKind::I32x2 | TokenKind::I32x4 | TokenKind::I32x8 | TokenKind::I32x16 | TokenKind::I64x2 | TokenKind::I64x4 | TokenKind::I64x8 | TokenKind::I16x4 | TokenKind::I16x8 | TokenKind::I16x16 | TokenKind::I16x32 | TokenKind::I8x8 | TokenKind::I8x16 | TokenKind::I8x32 | TokenKind::I8x64 | TokenKind::U32x4 | TokenKind::U32x8 | TokenKind::U16x8 | TokenKind::U16x16 | TokenKind::U8x16 | TokenKind::U8x32 | TokenKind::Mask8 | TokenKind::Mask16 | TokenKind::Mask32 | TokenKind::Mask64 => true,
        _ => false,
    }
}

/// Whether a token kind is a standard operator.
pub open spec fn is_operator_spec(k: TokenKind) -> bool {
    match k {
        TokenKind::Plus | TokenKind::Minus | TokenKind::Star | TokenKind::Slash | TokenKind::Percent | TokenKind::Assign | TokenKind::Equal | TokenKind::NotEqual | TokenKind::Less | TokenKind::LessEqual | TokenKind::Greater | TokenKind::GreaterEqual | TokenKind::And | TokenKind::Or | TokenKind::Not | TokenKind::Ampersand | TokenKind::PlusAssign | TokenKind::MinusAssign | TokenKind::StarAssign | TokenKind::SlashAssign => true,
        _ => false,
    }
}

/// Whether a token kind is a standard operator.
pub fn is_operator(token: &TokenKind) -> (b: bool)
    ensures
        b == is_operator_spec(*token),
{
    match token {
        TokenKind::Plus | TokenKind::Minus | TokenKind::Star | TokenKind::Slash | TokenKind::Percent | TokenKind::Assign | TokenKind::Equal | TokenKind::NotEqual | TokenKind::Less | TokenKind::LessEqual | TokenKind::Greater | TokenKind::GreaterEqual | TokenKind::And | TokenKind::Or | TokenKind::Not | TokenKind::Ampersand | TokenKind::PlusAssign | TokenKind::MinusAssign | TokenKind::StarAssign | TokenKind::SlashAssign => true,
        _ => false,
    }
}

/// Whether a token kind is a SIMD-specific operator.
pub open spec fn is_simd_operator_spec(k: TokenKind) -> bool {
    match k {
        TokenKind::DotMultiply | TokenKind::DotAdd | TokenKind::DotDivide | TokenKind::DotOr | TokenKind::DotAnd | TokenKind::DotXor => true,
        _ => false,
    }
}

/// Whether a token kind is a SIMD-specific operator.
pub fn is_simd_operator(token: &TokenKind) -> (b: bool)
    ensures
        b == is_simd_operator_spec(*token),
{
    match token {
        TokenKind::DotMultiply | TokenKind::DotAdd | TokenKind::DotDivide | TokenKind::DotOr | TokenKind::DotAnd | TokenKind::DotXor => true,
        _ => false,
    }
}

/// Whether an operator is right-associative.
pub open spec fn is_right_associative_spec(k: TokenKind) -> bool {
    match k {
        TokenKind::Assign | TokenKind::PlusAssign | TokenKind::MinusAssign | TokenKind::StarAssign | TokenKind::SlashAssign => true,
        _ => false,
    }
}

/// Whether an operator is right-associative.
pub fn is_right_associative(token: &TokenKind) -> (b: bool)
    ensures
        b == is_right_associative_spec(*token),
{
    match token {
        TokenKind::Assign | TokenKind::PlusAssign | TokenKind::MinusAssign | TokenKind::StarAssign | TokenKind::SlashAssign => true,
        _ => false,
    }
}

/// Whether a token kind is any type, scalar or SIMD.
pub fn is_type(token: &TokenKind) -> (b: bool)
    ensures
        b == (is_scalar_type_spec(*token) || is_simd_type_spec(*token)),
{
    is_scalar_type(token) || is_simd_type(token)
}

/// Whether a token kind is any operator, standard or SIMD.
pub fn is_any_operator(token: &TokenKind) -> (b: bool)
    ensures
        b == (is_operator_spec(*token) || is_simd_operator_spec(*token)),
{
    is_operator(token) || is_simd_operator(token)
}

/// Whether a token kind is a literal (numbers, strings, SIMD literals, `true`
/// and `false`).
pub open spec fn is_literal_spec(k: TokenKind) -> bool {
    match k {
        TokenKind::Integer(_) | TokenKind::Float(_) | TokenKind::StringLiteral(_)
        | TokenKind::SimdLiteral(_) | TokenKind::True | TokenKind::False => true,
        _ => false,
    }
}

/// Whether a token kind is a literal (see [`is_literal_spec`]).
pub fn is_literal(token: &TokenKind) -> (b: bool)
    ensures
        b == is_literal_spec(*token),
{
    match token {
        TokenKind::Integer(_) | TokenKind::Float(_) | TokenKind::StringLiteral(_)
        | TokenKind::SimdLiteral(_) | TokenKind::True | TokenKind::False => true,
        _ => false,
    }
}

/// The precedence of a binary operator, higher binding tighter; a SIMD
/// operator binds like its scalar counterpart.
pub open spec fn precedence_of(k: TokenKind) -> Option<u8> {
    match k {
        TokenKind::Or => Some(1u8),
        TokenKind::And => Some(2u8),
        TokenKind::Equal => Some(3u8),
        TokenKind::NotEqual => Some(3u8),
        TokenKind::Less => Some(4u8),
        TokenKind::LessEqual => Some(4u8),
        TokenKind::Greater => Some(4u8),
        TokenKind::GreaterEqual => Some(4u8),
        TokenKind::Plus => Some(5u8),
        TokenKind::Minus => Some(5u8),
        TokenKind::Star => Some(6u8),
        TokenKind::Slash => Some(6u8),
        TokenKind::Percent => Some(6u8),
        TokenKind::DotAdd => Some(5u8),
        TokenKind::DotMultiply => Some(6u8),
        TokenKind::DotDivide => Some(6u8),
        TokenKind::DotOr => Some(1u8),
        TokenKind::DotAnd => Some(2u8),
        TokenKind::DotXor => Some(2u8),
        _ => None,
    }
}

/// The precedence of a binary operator (see [`precedence_of`]).
pub fn operator_precedence(token: &TokenKind) -> (r: Option<u8>)
    ensures
        r == precedence_of(*token),
{
    match token {
        TokenKind::Or => Some(1),
        TokenKind::And => Some(2),
        TokenKind::Equal => Some(3),
        TokenKind::NotEqual => Some(3),
        TokenKind::Less => Some(4),
        TokenKind::LessEqual => Some(4),
        TokenKind::Greater => Some(4),
        TokenKind::GreaterEqual => Some(4),
        TokenKind::Plus => Some(5),
        TokenKind::Minus => Some(5),
        TokenKind::Star => Some(6),
        TokenKind::Slash => Some(6),
        TokenKind::Percent => Some(6),
        TokenKind::DotAdd => Some(5),
        TokenKind::DotMultiply => Some(6),
        TokenKind::DotDivide => Some(6),
        TokenKind::DotOr => Some(1),
        TokenKind::DotAnd => Some(2),
        TokenKind::DotXor => Some(2),
        _ => None,
    }
}

/// The element type and width of a SIMD vector type (masks hold booleans).
pub open spec fn simd_shape(k: TokenKind) -> Option<(Seq<char>, usize)> {
    match k {
        TokenKind::F32x2 => Some(("f32"@, 2usize)),
        TokenKind::F32x4 => Some(("f32"@, 4usize)),
        TokenKind::F32x8 => Some(("f32"@, 8usize)),
        TokenKind::F32x16 => Some(("f32"@, 16usize)),
        TokenKind::F64x2 => Some(("f64"@, 2usize)),
        TokenKind::F64x4 => Some(("f64"@, 4usize)),
        TokenKind::F64x8 => Some(("f64"@, 8usize)),
        TokenKind::I32x2 => Some(("i32"@, 2usize)),
        TokenKind::I32x4 => Some(("i32"@, 4usize)),
        TokenKind::I32x8 => Some(("i32"@, 8usize)),
        TokenKind::I32x16 => Some(("i32"@, 16usize)),
        TokenKind::I64x2 => Some(("i64"@, 2usize)),
        TokenKind::I64x4 => Some(("i64"@, 4usize)),
        TokenKind::I64x8 => Some(("i64"@, 8usize)),
        TokenKind::I16x4 => Some(("i16"@, 4usize)),
        TokenKind::I16x8 => Some(("i16"@, 8usize)),
        TokenKind::I16x16 => Some(("i16"@, 16usize)),
        TokenKind::I16x32 => Some(("i16"@, 32usize)),
        TokenKind::I8x8 => Some(("i8"@, 8usize)),
        TokenKind::I8x16 => Some(("i8"@, 16usize)),
        TokenKind::I8x32 => Some(("i8"@, 32usize)),
        TokenKind::I8x64 => Some(("i8"@, 64usize)),
        TokenKind::U32x4 => Some(("u32"@, 4usize)),
        TokenKind::U32x8 => Some(("u32"@, 8usize)),
        TokenKind::U16x8 => Some(("u16"@, 8usize)),
        TokenKind::U16x16 => Some(("u16"@, 16usize)),
        TokenKind::U8x16 => Some(("u8"@, 16usize)),
        TokenKind::U8x32 => Some(("u8"@, 32usize)),
        TokenKind::Mask8 => Some(("bool"@, 8usize)),
        TokenKind::Mask16 => Some(("bool"@, 16usize)),
        TokenKind::Mask32 => Some(("bool"@, 32usize)),
        TokenKind::Mask64 => Some(("bool"@, 64usize)),
        _ => None,
    }
}

/// A SIMD information record agrees with a shape.
pub open spec fn info_matches(info: SimdInfo, shape: (Seq<char>, usize)) -> bool {
    &&& info.element_type@ == shape.0
    &&& info.width == shape.1
    &&& info.total_bits == element_bits(shape.0) * shape.1
}

/// The SIMD information of a SIMD vector type.
pub fn get_simd_info(token: &TokenKind) -> (r: Option<SimdInfo>)
    ensures
        r is Some <==> simd_shape(*token) is Some,
        r matches Some(info) ==> info_matches(info, simd_shape(*token)->Some_0),
{
    proof {
        assert(element_bits("f32"@) <= 64 && element_bits("f64"@) <= 64 && element_bits("i32"@) <= 64
            && element_bits("i64"@) <= 64 && element_bits("i16"@) <= 64 && element_bits("i8"@) <= 64
            && element_bits("u32"@) <= 64 && element_bits("u16"@) <= 64 && element_bits("u8"@) <= 64
            && element_bits("bool"@) <= 64);
    }
    match token {
        TokenKind::F32x2 => Some(SimdInfo::new("f32".to_owned(), 2)),
        TokenKind::F32x4 => Some(SimdInfo::new("f32".to_owned(), 4)),
        TokenKind::F32x8 => Some(SimdInfo::new("f32".to_owned(), 8)),
        TokenKind::F32x16 => Some(SimdInfo::new("f32".to_owned(), 16)),
        TokenKind::F64x2 => Some(SimdInfo::new("f64".to_owned(), 2)),
        TokenKind::F64x4 => Some(SimdInfo::new("f64".to_owned(), 4)),
        TokenKind::F64x8 => Some(SimdInfo::new("f64".to_owned(), 8)),
        TokenKind::I32x2 => Some(SimdInfo::new("i32".to_owned(), 2)),
        TokenKind::I32x4 => Some(SimdInfo::new("i32".to_owned(), 4)),
        TokenKind::I32x8 => Some(SimdInfo::new("i32".to_owned(), 8)),
        TokenKind::I32x16 => Some(SimdInfo::new("i32".to_owned(), 16)),
        TokenKind::I64x2 => Some(SimdInfo::new("i64".to_owned(), 2)),
        TokenKind::I64x4 => Some(SimdInfo::new("i64".to_owned(), 4)),
        TokenKind::I64x8 => Some(SimdInfo::new("i64".to_owned(), 8)),
        TokenKind::I16x4 => Some(SimdInfo::new("i16".to_owned(), 4)),
        TokenKind::I16x8 => Some(SimdInfo::new("i16".to_owned(), 8)),
        TokenKind::I16x16 => Some(SimdInfo::new("i16".to_owned(), 16)),
        TokenKind::I16x32 => Some(SimdInfo::new("i16".to_owned(), 32)),
        TokenKind::I8x8 => Some(SimdInfo::new("i8".to_owned(), 8)),
        TokenKind::I8x16 => Some(SimdInfo::new("i8".to_owned(), 16)),
        TokenKind::I8x32 => Some(SimdInfo::new("i8".to_owned(), 32)),
        TokenKind::I8x64 => Some(SimdInfo::new("i8".to_owned(), 64)),
        TokenKind::U32x4 => Some(SimdInfo::new("u32".to_owned(), 4)),
        TokenKind::U32x8 => Some(SimdInfo::new("u32".to_owned(), 8)),
        TokenKind::U16x8 => Some(SimdInfo::new("u16".to_owned(), 8)),
        TokenKind::U16x16 => Some(SimdInfo::new("u16".to_owned(), 16)),
        TokenKind::U8x16 => Some(SimdInfo::new("u8".to_owned(), 16)),
        TokenKind::U8x32 => Some(SimdInfo::new("u8".to_owned(), 32)),
        TokenKind::Mask8 => Some(SimdInfo::new("bool".to_owned(), 8)),
        TokenKind::Mask16 => Some(SimdInfo::new("bool".to_owned(), 16)),
        TokenKind::Mask32 => Some(SimdInfo::new("bool".to_owned(), 32)),
        TokenKind::Mask64 => Some(SimdInfo::new("bool".to_owned(), 64)),
        _ => None,
    }
}

/// The vector widths (numbers of elements) that a hardware feature supports.
pub open spec fn hardware_widths(k: TokenKind) -> Option<Seq<usize>> {
    match k {
        TokenKind::SSE => Some(seq![4usize]),
        TokenKind::SSE2 => Some(seq![4usize, 2usize]),
        TokenKind::SSE3 => Some(seq![4usize, 2usize]),
        TokenKind::SSE4 => Some(seq![4usize, 2usize, 8usize, 16usize]),
        TokenKind::AVX => Some(seq![8usize, 4usize]),
        TokenKind::AVX2 => Some(seq![8usize, 4usize, 16usize, 32usize]),
        TokenKind::AVX512 => Some(seq![16usize, 8usize, 32usize, 64usize]),
        TokenKind::NEON => Some(seq![4usize, 2usize, 8usize, 16usize]),
        TokenKind::AltiVec => Some(seq![4usize, 8usize, 16usize]),
        _ => None,
    }
}

/// The vector widths that a hardware feature supports (see [`hardware_widths`]).
pub fn get_hardware_simd_width(feature: &TokenKind) -> (r: Option<Vec<usize>>)
    ensures
        r is Some <==> hardware_widths(*feature) is Some,
        r matches Some(v) ==> v@ == hardware_widths(*feature)->Some_0,
{
    match feature {
        TokenKind::SSE => Some(vec![4]),
        TokenKind::SSE2 => Some(vec![4, 2]),
        TokenKind::SSE3 => Some(vec![4, 2]),
        TokenKind::SSE4 => Some(vec![4, 2, 8, 16]),
        TokenKind::AVX => Some(vec![8, 4]),
        TokenKind::AVX2 => Some(vec![8, 4, 16, 32]),
        TokenKind::AVX512 => Some(vec![16, 8, 32, 64]),
        TokenKind::NEON => Some(vec![4, 2, 8, 16]),
        TokenKind::AltiVec => Some(vec![4, 8, 16]),
        _ => None,
    }
}

/// The widest vector, in bits, that a hardware feature holds; none for other
/// tokens.
pub open spec fn register_limit(k: TokenKind) -> nat {
    match k {
        TokenKind::SSE | TokenKind::SSE2 | TokenKind::SSE3 | TokenKind::SSE4 | TokenKind::NEON
        | TokenKind::AltiVec => 128,
        TokenKind::AVX | TokenKind::AVX2 => 256,
        TokenKind::AVX512 => 512,
        _ => 0,
    }
}

/// A SIMD type suits a hardware feature: the feature supports its width and
/// holds its total bits.
pub open spec fn simd_compatible(t: TokenKind, f: TokenKind) -> bool {
    match (simd_shape(t), hardware_widths(f)) {
        (Some(shape), Some(widths)) => widths.contains(shape.1) && element_bits(shape.0) * shape.1
            <= register_limit(f) && register_limit(f) > 0,
        _ => false,
    }
}

/// Whether a SIMD type suits a hardware feature (see [`simd_compatible`]).
pub fn is_simd_compatible_with_hardware(simd_type: &TokenKind, feature: &TokenKind) -> (b: bool)
    ensures
        b == simd_compatible(*simd_type, *feature),
{
    match (get_simd_info(simd_type), get_hardware_simd_width(feature)) {
        (Some(info), Some(widths)) => {
            let mut found = false;
            let mut i: usize = 0;
            while i < widths.len()
                invariant
                    i <= widths@.len(),
                    found <==> exists|j: int| 0 <= j < i && widths@[j] == info.width,
                decreases widths@.len() - i,
            {
                if widths[i] == info.width {
                    found = true;
                }
                i = i + 1;
            }
            let limit: usize = match feature {
                TokenKind::SSE | TokenKind::SSE2 | TokenKind::SSE3 | TokenKind::SSE4
                | TokenKind::NEON | TokenKind::AltiVec => 128,
                TokenKind::AVX | TokenKind::AVX2 => 256,
                TokenKind::AVX512 => 512,
                _ => 0,
            };
            proof {
                let ws = hardware_widths(*feature)->Some_0;
                if ws.contains(info.width) {
                    let j = choose|j: int| 0 <= j < ws.len() && ws[j] == info.width;
                    assert(widths@[j] == info.width);
                }
            }
            found && limit > 0 && info.total_bits <= limit
        },
        _ => false,
    }
}

/// The scalar operator that a SIMD operator applies lane by lane.
pub open spec fn scalar_of(k: TokenKind) -> Option<TokenKind> {
    match k {
        TokenKind::DotAdd => Some(TokenKind::Plus),
        TokenKind::DotMultiply => Some(TokenKind::Star),
        TokenKind::DotDivide => Some(TokenKind::Slash),
        TokenKind::DotAnd => Some(TokenKind::Ampersand),
        TokenKind::DotOr => Some(TokenKind::Or),
        _ => None,
    }
}

/// The scalar operator that a SIMD operator applies lane by lane (see
/// [`scalar_of`]).
pub fn simd_to_scalar_operator(simd_op: &TokenKind) -> (r: Option<TokenKind>)
    ensures
        r == scalar_of(*simd_op),
{
    match simd_op {
        TokenKind::DotAdd => Some(TokenKind::Plus),
        TokenKind::DotMultiply => Some(TokenKind::Star),
        TokenKind::DotDivide => Some(TokenKind::Slash),
        TokenKind::DotAnd => Some(TokenKind::Ampersand),
        TokenKind::DotOr => Some(TokenKind::Or),
        _ => None,
    }
}

/// The widest register, in bits, among target features: 512 with AVX-512, 256
/// with AVX or AVX2, 128 otherwise.
pub open spec fn widest_register(features: Seq<TokenKind>) -> nat {
    if features.contains(TokenKind::AVX512) {
        512
    } else if features.contains(TokenKind::AVX2) || features.contains(TokenKind::AVX) {
        256
    } else {
        128
    }
}

/// The number of elements of a type that fit the widest register of the target.
pub fn get_optimal_simd_width(element_type: &str, target_features: &[TokenKind]) -> (w: usize)
    ensures
        w == widest_register(target_features@) / element_bits(element_type@),
{
    let bits = element_type_bits(element_type);
    let mut has512 = false;
    let mut has256 = false;
    let mut i: usize = 0;
    while i < target_features.len()
        invariant
            i <= target_features@.len(),
            has512 <==> exists|j: int| 0 <= j < i && target_features@[j] == TokenKind::AVX512,
            has256 <==> exists|j: int|
                0 <= j < i && (target_features@[j] == TokenKind::AVX2 || target_features@[j]
                    == TokenKind::AVX),
        decreases target_features@.len() - i,
    {
        match &target_features[i] {
            TokenKind::AVX512 => {
                has512 = true;
            },
            TokenKind::AVX2 | TokenKind::AVX => {
                has256 = true;
            },
            _ => {},
        }
        i = i + 1;
    }
    proof {
        let f = target_features@;
        if f.contains(TokenKind::AVX512) {
            let j = choose|j: int| 0 <= j < f.len() && f[j] == TokenKind::AVX512;
            assert(f[j] == TokenKind::AVX512);
        }
        if f.contains(TokenKind::AVX2) {
            let j = choose|j: int| 0 <= j < f.len() && f[j] == TokenKind::AVX2;
            assert(f[j] == TokenKind::AVX2);
        }
        if f.contains(TokenKind::AVX) {
            let j = choose|j: int| 0 <= j < f.len() && f[j] == TokenKind::AVX;
            assert(f[j] == TokenKind::AVX);
        }
    }
    let register: usize = if has512 {
        512
    } else if has256 {
        256
    } else {
        128
    };
    register / bits
}

} // verus!
