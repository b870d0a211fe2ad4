//! The abstract syntax tree of Eä programs.

use vstd::prelude::*;
use crate::lexer::Position;

verus! {

/// A type written in the source, with its mutability marker.
#[derive(Debug, Clone, PartialEq, Eq)]
pub struct TypeAnnotation {
    pub name: String,
    pub is_mutable: bool,
}

/// A function parameter.
#[derive(Debug, Clone, PartialEq, Eq)]
pub struct Parameter {
    pub name: String,
    pub type_annotation: TypeAnnotation,
}

/// A field of a struct declaration.
#[derive(Debug, Clone, PartialEq, Eq)]
pub struct StructField {
    pub name: String,
    pub type_annotation: TypeAnnotation,
}

/// A variant of an enum declaration, with the types it carries.
#[derive(Debug, Clone, PartialEq, Eq)]
pub struct EnumVariant {
    pub name: String,
    pub data: Option<Vec<TypeAnnotation>>,
}

/// The SIMD vector types.
#[derive(Debug, Clone, Copy, PartialEq, Eq, Structural)]
pub enum SIMDVectorType {
    F32x2,
    F32x4,
    F32x8,
    F32x16,
    F64x2,
    F64x4,
    F64x8,
    I32x2,
    I32x4,
    I32x8,
    I32x16,
    I64x2,
    I64x4,
    I64x8,
    I16x4,
    I16x8,
    I16x16,
    I16x32,
    I8x8,
    I8x16,
    I8x32,
    I8x64,
    U32x4,
    U32x8,
    U16x8,
    U16x16,
    U8x16,
    U8x32,
    Mask8,
    Mask16,
    Mask32,
    Mask64,
}

/// A literal value; a floating-point literal keeps its decimal text.
#[derive(Debug, PartialEq)]
pub enum Literal {
    Integer(i64),
    Float(String),
    String(String),
    Boolean(bool),
    Vector { elements: Vec<Literal>, vector_type: Option<SIMDVectorType> },
}

/// Binary operators, assignments included.
#[derive(Debug, Clone, Copy, PartialEq, Eq, Structural)]
pub enum BinaryOp {
    Add,
    Subtract,
    Multiply,
    Divide,
    Modulo,
    Equal,
    NotEqual,
    Less,
    LessEqual,
    Greater,
    GreaterEqual,
    And,
    Or,
    Assign,
    PlusAssign,
    MinusAssign,
    MultiplyAssign,
    DivideAssign,
}

/// Unary operators.
#[derive(Debug, Clone, Copy, PartialEq, Eq, Structural)]
pub enum UnaryOp {
    Negate,
    Not,
    Reference,
}

/// Element-wise SIMD operators.
#[derive(Debug, Clone, Copy, PartialEq, Eq, Structural)]
pub enum SIMDOperator {
    DotAdd,
    DotSubtract,
    DotMultiply,
    DotDivide,
    DotAnd,
    DotOr,
    DotXor,
    DotEqual,
    DotNotEqual,
    DotLess,
    DotGreater,
    DotLessEqual,
    DotGreaterEqual,
}

/// Horizontal SIMD reductions.
#[derive(Debug, Clone, Copy, PartialEq, Eq, Structural)]
pub enum ReductionOp {
    Sum,
    Min,
    Max,
}

/// A field initializer of a struct literal.
#[derive(Debug, PartialEq)]
pub struct StructFieldInit {
    pub name: String,
    pub value: Expr,
}

/// A pattern of a match arm.
#[derive(Debug, PartialEq)]
pub enum Pattern {
    Wildcard,
    Variable(String),
    Literal(Literal),
    EnumVariant { enum_name: String, variant: String, patterns: Vec<Pattern> },
}

/// An arm of a match expression.
#[derive(Debug, PartialEq)]
pub struct MatchArm {
    pub pattern: Pattern,
    pub expression: Expr,
}

/// SIMD expressions.
#[derive(Debug, PartialEq)]
#[allow(inconsistent_fields)]
pub enum SIMDExpr {
    VectorLiteral { elements: Vec<Expr>, vector_type: Option<SIMDVectorType>, position: Position },
    ElementWise { left: Box<Expr>, operator: SIMDOperator, right: Box<Expr>, position: Position },
    Broadcast { value: Box<Expr>, target_type: SIMDVectorType, position: Position },
    Swizzle { vector: Box<Expr>, pattern: String, position: Position },
    Reduction { vector: Box<Expr>, operation: ReductionOp, position: Position },
    DotProduct { left: Box<Expr>, right: Box<Expr>, position: Position },
    VectorLoad {
        address: Box<Expr>,
        vector_type: SIMDVectorType,
        alignment: Option<u32>,
        position: Position,
    },
    VectorStore {
        address: Box<Expr>,
        vector: Box<Expr>,
        alignment: Option<u32>,
        position: Position,
    },
}

/// Expressions.
#[derive(Debug, PartialEq)]
pub enum Expr {
    Literal(Literal),
    Variable(String),
    Binary(Box<Expr>, BinaryOp, Box<Expr>),
    Unary(UnaryOp, Box<Expr>),
    Call(Box<Expr>, Vec<Expr>),
    Index(Box<Expr>, Box<Expr>),
    Slice { array: Box<Expr>, start: Box<Expr>, end: Box<Expr> },
    FieldAccess(Box<Expr>, String),
    Grouping(Box<Expr>),
    SIMD(SIMDExpr),
    StructLiteral { name: String, fields: Vec<StructFieldInit> },
    EnumLiteral { enum_name: String, variant: String, args: Vec<Expr> },
    Match { value: Box<Expr>, arms: Vec<MatchArm> },
    If { condition: Box<Expr>, then_branch: Box<Expr>, else_branch: Option<Box<Expr>> },
    Block(Vec<Stmt>),
    Cast { expr: Box<Expr>, target_type: TypeAnnotation, position: Position },
    Tuple { elements: Vec<Expr>, position: Position },
}

/// Statements.
#[derive(Debug, PartialEq)]
#[allow(inconsistent_fields)]
pub enum Stmt {
    VarDeclaration {
        name: String,
        type_annotation: Option<TypeAnnotation>,
        initializer: Option<Expr>,
    },
    FunctionDeclaration {
        name: String,
        params: Vec<Parameter>,
        return_type: Option<TypeAnnotation>,
        body: Box<Stmt>,
        attributes: Vec<String>,
    },
    StructDeclaration { name: String, fields: Vec<StructField> },
    EnumDeclaration { name: String, variants: Vec<EnumVariant> },
    Expression(Expr),
    Return(Option<Expr>),
    Block(Vec<Stmt>),
    If { condition: Expr, then_branch: Box<Stmt>, else_branch: Option<Box<Stmt>> },
    While { condition: Expr, body: Box<Stmt> },
    For {
        initializer: Option<Box<Stmt>>,
        condition: Option<Expr>,
        increment: Option<Expr>,
        body: Box<Stmt>,
    },
    ForIn { variable: String, iterable: Expr, body: Box<Stmt> },
    Break,
    Continue,
}

} // verus!
