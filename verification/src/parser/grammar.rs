//! The grammar of Eä by recursive descent: declarations, statements and
//! expressions, SIMD built-ins and match expressions.
//!
//! Every rule leaves the tokens, the collected errors and the recovery flag as
//! they were and never moves backwards; one that succeeds has consumed at least
//! one token. The trees they build follow the precedence table throughout
//! (see [`well_bracketed`]). Which tree a rule builds is stated exactly, as a
//! parse over the tokens into an expression model (see [`expression_parse`]
//! and [`agrees`]): literals, variables, groupings, operators, indexing,
//! slicing, field access, calls, struct and enum literals, array and SIMD
//! vector literals, reductions, dot products, vector stores and match
//! expressions with their patterns; and for function, struct, enum and
//! variable declarations, return, if, while and for statements, blocks and
//! expression statements made of them (see [`declaration_tree`] and
//! [`program_tree`]), block expressions within expressions included.

use vstd::prelude::*;
use crate::ast::{
    BinaryOp, EnumVariant, Expr, Literal, MatchArm, Parameter, Pattern, ReductionOp, SIMDExpr,
    SIMDOperator, Stmt, StructField, StructFieldInit, TypeAnnotation, UnaryOp,
};
use crate::error::CompileError;
use crate::lexer::{kind_text, Position, Token, TokenKind};
use crate::lexer::tokens::precedence_of;
use crate::text::{push_str, push_string, str_is};
use super::model::{
    lemma_literal_model_agrees, lemma_all_agree_index, lemma_all_agree_push, lemma_arms_agree_push, lemma_fields_agree_push, lemma_literals_agree_push,
    lemma_patterns_agree_push, agrees, all_agree, arms_agree, fields_agree, is_literal_model, literals_agree, pattern_agrees,
    patterns_agree, ExprModel, PatternModel,
};
use super::{builtin_type_name, kind_debug_string, simd_vector_of, lemma_position_in_range, simd_vector_type, token_kind_debug, Parser};

verus! {

broadcast use lemma_position_in_range;

/// How loosely a scalar binary operator binds: 1 for `*`, `/` and `%`, up to 10
/// for the assignments.
pub open spec fn binary_level(op: BinaryOp) -> nat {
    match op {
        BinaryOp::Multiply | BinaryOp::Divide | BinaryOp::Modulo => 1,
        BinaryOp::Add | BinaryOp::Subtract => 2,
        BinaryOp::Less | BinaryOp::LessEqual | BinaryOp::Greater | BinaryOp::GreaterEqual => 3,
        BinaryOp::Equal | BinaryOp::NotEqual => 4,
        BinaryOp::And => 8,
        BinaryOp::Or => 9,
        BinaryOp::Assign | BinaryOp::PlusAssign | BinaryOp::MinusAssign
        | BinaryOp::MultiplyAssign | BinaryOp::DivideAssign => 10,
    }
}

/// How loosely an element-wise SIMD operator binds, on the same scale: `.*` and
/// `./` with `*`, `.+` and `.-` with `+`, the comparisons with theirs, then
/// `.&`, `.^` and `.|` between equality and `&&`.
pub open spec fn simd_level(op: SIMDOperator) -> nat {
    match op {
        SIMDOperator::DotMultiply | SIMDOperator::DotDivide => 1,
        SIMDOperator::DotAdd | SIMDOperator::DotSubtract => 2,
        SIMDOperator::DotLess | SIMDOperator::DotGreater | SIMDOperator::DotLessEqual
        | SIMDOperator::DotGreaterEqual => 3,
        SIMDOperator::DotEqual | SIMDOperator::DotNotEqual => 4,
        SIMDOperator::DotAnd => 5,
        SIMDOperator::DotXor => 6,
        SIMDOperator::DotOr => 7,
    }
}

/// How loosely the outermost operator of an expression binds; 0 for an
/// expression that is no binary operation (a literal, variable, call,
/// grouping, unary expression and the like).
pub open spec fn binding_level(e: Expr) -> nat {
    match e {
        Expr::Binary(_, op, _) => binary_level(op),
        Expr::SIMD(SIMDExpr::ElementWise { operator, .. }) => simd_level(operator),
        _ => 0,
    }
}

/// Whether the operands of an operation bind as the precedence table asks, at
/// this node alone: an operand binds more tightly than its operator, except
/// that a left operand may share the level of a left-associative operator and
/// a right operand that of an assignment, which associates to the right.
pub open spec fn operands_fit(e: Expr) -> bool {
    match e {
        Expr::Binary(l, op, r) => if binary_level(op) == 10 {
            binding_level(*l) < 10 && binding_level(*r) <= 10
        } else {
            binding_level(*l) <= binary_level(op) && binding_level(*r) < binary_level(op)
        },
        Expr::SIMD(SIMDExpr::ElementWise { left, operator, right, .. }) => binding_level(*left)
            <= simd_level(operator) && binding_level(*right) < simd_level(operator),
        _ => true,
    }
}

/// Whether every operation anywhere in an expression, down through calls,
/// groupings, literals, blocks and the rest, has operands that fit it (see
/// [`operands_fit`]); the value of a match expression is left aside, since
/// there parentheses leave no grouping node.
pub open spec fn well_bracketed(e: Expr) -> bool
    decreases e,
{
    &&& operands_fit(e)
    &&& match e {
        Expr::Binary(l, _, r) => well_bracketed(*l) && well_bracketed(*r),
        Expr::Unary(_, x) => well_bracketed(*x),
        Expr::Call(c, args) => well_bracketed(*c) && forall|i: int|
            0 <= i < args@.len() ==> well_bracketed(#[trigger] args@[i]),
        Expr::Index(a, b) => well_bracketed(*a) && well_bracketed(*b),
        Expr::Slice { array, start, end } => well_bracketed(*array) && well_bracketed(*start)
            && well_bracketed(*end),
        Expr::FieldAccess(x, _) => well_bracketed(*x),
        Expr::Grouping(x) => well_bracketed(*x),
        Expr::SIMD(s) => match s {
            SIMDExpr::VectorLiteral { elements, .. } => forall|i: int|
                0 <= i < elements@.len() ==> well_bracketed(#[trigger] elements@[i]),
            SIMDExpr::ElementWise { left, right, .. } => well_bracketed(*left) && well_bracketed(
                *right,
            ),
            SIMDExpr::Broadcast { value, .. } => well_bracketed(*value),
            SIMDExpr::Swizzle { vector, .. } => well_bracketed(*vector),
            SIMDExpr::Reduction { vector, .. } => well_bracketed(*vector),
            SIMDExpr::DotProduct { left, right, .. } => well_bracketed(*left) && well_bracketed(
                *right,
            ),
            SIMDExpr::VectorLoad { address, .. } => well_bracketed(*address),
            SIMDExpr::VectorStore { address, vector, .. } => well_bracketed(*address)
                && well_bracketed(*vector),
        },
        Expr::StructLiteral { fields, .. } => forall|i: int|
            0 <= i < fields@.len() ==> well_bracketed(#[trigger] fields@[i].value),
        Expr::EnumLiteral { args, .. } => forall|i: int|
            0 <= i < args@.len() ==> well_bracketed(#[trigger] args@[i]),
        Expr::Match { arms, .. } => forall|i: int|
            0 <= i < arms@.len() ==> well_bracketed(#[trigger] arms@[i].expression),
        Expr::If { condition, then_branch, else_branch } => well_bracketed(*condition)
            && well_bracketed(*then_branch) && match else_branch {
            Some(x) => well_bracketed(*x),
            None => true,
        },
        Expr::Block(statements) => forall|i: int|
            0 <= i < statements@.len() ==> statement_well_bracketed(#[trigger] statements@[i]),
        Expr::Cast { expr, .. } => well_bracketed(*expr),
        Expr::Tuple { elements, .. } => forall|i: int|
            0 <= i < elements@.len() ==> well_bracketed(#[trigger] elements@[i]),
        _ => true,
    }
}

/// Whether every expression in a statement is well bracketed (see
/// [`well_bracketed`]).
pub open spec fn statement_well_bracketed(s: Stmt) -> bool
    decreases s,
{
    match s {
        Stmt::VarDeclaration { initializer, .. } => match initializer {
            Some(x) => well_bracketed(x),
            None => true,
        },
        Stmt::FunctionDeclaration { body, .. } => statement_well_bracketed(*body),
        Stmt::Expression(x) => well_bracketed(x),
        Stmt::Return(x) => match x {
            Some(x) => well_bracketed(x),
            None => true,
        },
        Stmt::Block(statements) => forall|i: int|
            0 <= i < statements@.len() ==> statement_well_bracketed(#[trigger] statements@[i]),
        Stmt::If { condition, then_branch, else_branch } => well_bracketed(condition)
            && statement_well_bracketed(*then_branch) && match else_branch {
            Some(x) => statement_well_bracketed(*x),
            None => true,
        },
        Stmt::While { condition, body } => well_bracketed(condition) && statement_well_bracketed(
            *body,
        ),
        Stmt::For { initializer, condition, increment, body } => (match initializer {
            Some(x) => statement_well_bracketed(*x),
            None => true,
        }) && (match condition {
            Some(x) => well_bracketed(x),
            None => true,
        }) && (match increment {
            Some(x) => well_bracketed(x),
            None => true,
        }) && statement_well_bracketed(*body),
        Stmt::ForIn { iterable, body, .. } => well_bracketed(iterable) && statement_well_bracketed(
            *body,
        ),
        _ => true,
    }
}

/// A binary operator of the grammar: a scalar one or an element-wise one.
#[derive(Clone, Copy)]
pub enum Operator {
    Plain(BinaryOp),
    Lanes(SIMDOperator),
}

/// How loosely an operator binds (see [`binary_level`] and [`simd_level`]).
pub open spec fn operator_level(op: Operator) -> nat {
    match op {
        Operator::Plain(b) => binary_level(b),
        Operator::Lanes(s) => simd_level(s),
    }
}

/// The operation joining two operands by an operator; an element-wise one
/// records `position`.
pub open spec fn joined(left: Expr, op: Operator, right: Expr, position: Position) -> Expr {
    match op {
        Operator::Plain(b) => Expr::Binary(Box::new(left), b, Box::new(right)),
        Operator::Lanes(s) => Expr::SIMD(
            SIMDExpr::ElementWise {
                left: Box::new(left),
                operator: s,
                right: Box::new(right),
                position,
            },
        ),
    }
}

/// Joins two operands by an operator (see [`joined`]).
fn join(left: Expr, op: Operator, right: Expr, position: Position) -> (e: Expr)
    ensures
        e == joined(left, op, right, position),
{
    match op {
        Operator::Plain(b) => Expr::Binary(Box::new(left), b, Box::new(right)),
        Operator::Lanes(s) => Expr::SIMD(
            SIMDExpr::ElementWise {
                left: Box::new(left),
                operator: s,
                right: Box::new(right),
                position,
            },
        ),
    }
}

/// Joining well-bracketed operands by a left-associative operator of level `k`,
/// the left one binding no more loosely and the right one more tightly, gives a
/// well-bracketed operation of level `k`.
proof fn lemma_joined_well_bracketed(
    left: Expr,
    op: Operator,
    right: Expr,
    position: Position,
    k: nat,
)
    requires
        operator_level(op) == k,
        1 <= k <= 9,
        binding_level(left) <= k,
        binding_level(right) < k,
        well_bracketed(left),
        well_bracketed(right),
    ensures
        binding_level(joined(left, op, right, position)) == k,
        well_bracketed(joined(left, op, right, position)),
{
}

/// The operators of equality: `==`, `!=`, `.==`, `.!=`.
pub open spec fn equality_operator(k: TokenKind) -> Option<Operator> {
    match k {
        TokenKind::Equal => Some(Operator::Plain(BinaryOp::Equal)),
        TokenKind::NotEqual => Some(Operator::Plain(BinaryOp::NotEqual)),
        TokenKind::DotEqual => Some(Operator::Lanes(SIMDOperator::DotEqual)),
        TokenKind::DotNotEqual => Some(Operator::Lanes(SIMDOperator::DotNotEqual)),
        _ => None,
    }
}

fn equality_operator_of(k: &TokenKind) -> (r: Option<Operator>)
    ensures
        r == equality_operator(*k),
        r matches Some(op) ==> operator_level(op) == 4,
{
    match k {
        TokenKind::Equal => Some(Operator::Plain(BinaryOp::Equal)),
        TokenKind::NotEqual => Some(Operator::Plain(BinaryOp::NotEqual)),
        TokenKind::DotEqual => Some(Operator::Lanes(SIMDOperator::DotEqual)),
        TokenKind::DotNotEqual => Some(Operator::Lanes(SIMDOperator::DotNotEqual)),
        _ => None,
    }
}

/// The operators of comparison, scalar and element-wise.
pub open spec fn comparison_operator(k: TokenKind) -> Option<Operator> {
    match k {
        TokenKind::Less => Some(Operator::Plain(BinaryOp::Less)),
        TokenKind::LessEqual => Some(Operator::Plain(BinaryOp::LessEqual)),
        TokenKind::Greater => Some(Operator::Plain(BinaryOp::Greater)),
        TokenKind::GreaterEqual => Some(Operator::Plain(BinaryOp::GreaterEqual)),
        TokenKind::DotLess => Some(Operator::Lanes(SIMDOperator::DotLess)),
        TokenKind::DotLessEqual => Some(Operator::Lanes(SIMDOperator::DotLessEqual)),
        TokenKind::DotGreater => Some(Operator::Lanes(SIMDOperator::DotGreater)),
        TokenKind::DotGreaterEqual => Some(Operator::Lanes(SIMDOperator::DotGreaterEqual)),
        _ => None,
    }
}

fn comparison_operator_of(k: &TokenKind) -> (r: Option<Operator>)
    ensures
        r == comparison_operator(*k),
        r matches Some(op) ==> operator_level(op) == 3,
{
    match k {
        TokenKind::Less => Some(Operator::Plain(BinaryOp::Less)),
        TokenKind::LessEqual => Some(Operator::Plain(BinaryOp::LessEqual)),
        TokenKind::Greater => Some(Operator::Plain(BinaryOp::Greater)),
        TokenKind::GreaterEqual => Some(Operator::Plain(BinaryOp::GreaterEqual)),
        TokenKind::DotLess => Some(Operator::Lanes(SIMDOperator::DotLess)),
        TokenKind::DotLessEqual => Some(Operator::Lanes(SIMDOperator::DotLessEqual)),
        TokenKind::DotGreater => Some(Operator::Lanes(SIMDOperator::DotGreater)),
        TokenKind::DotGreaterEqual => Some(Operator::Lanes(SIMDOperator::DotGreaterEqual)),
        _ => None,
    }
}

/// The additive operators, scalar and element-wise (those of `term` when
/// `lanes` is false: `+` and `-` alone).
pub open spec fn additive_operator(k: TokenKind, lanes: bool) -> Option<Operator> {
    match k {
        TokenKind::Plus => Some(Operator::Plain(BinaryOp::Add)),
        TokenKind::Minus => Some(Operator::Plain(BinaryOp::Subtract)),
        TokenKind::DotAdd => if lanes {
            Some(Operator::Lanes(SIMDOperator::DotAdd))
        } else {
            None
        },
        TokenKind::DotSubtract => if lanes {
            Some(Operator::Lanes(SIMDOperator::DotSubtract))
        } else {
            None
        },
        _ => None,
    }
}

fn additive_operator_of(k: &TokenKind, lanes: bool) -> (r: Option<Operator>)
    ensures
        r == additive_operator(*k, lanes),
        r matches Some(op) ==> operator_level(op) == 2,
{
    match k {
        TokenKind::Plus => Some(Operator::Plain(BinaryOp::Add)),
        TokenKind::Minus => Some(Operator::Plain(BinaryOp::Subtract)),
        TokenKind::DotAdd => if lanes {
            Some(Operator::Lanes(SIMDOperator::DotAdd))
        } else {
            None
        },
        TokenKind::DotSubtract => if lanes {
            Some(Operator::Lanes(SIMDOperator::DotSubtract))
        } else {
            None
        },
        _ => None,
    }
}

/// The multiplicative operators, scalar and element-wise (those of `factor`
/// when `lanes` is false).
pub open spec fn multiplicative_operator(k: TokenKind, lanes: bool) -> Option<Operator> {
    match k {
        TokenKind::Star => Some(Operator::Plain(BinaryOp::Multiply)),
        TokenKind::Slash => Some(Operator::Plain(BinaryOp::Divide)),
        TokenKind::Percent => Some(Operator::Plain(BinaryOp::Modulo)),
        TokenKind::DotMultiply => if lanes {
            Some(Operator::Lanes(SIMDOperator::DotMultiply))
        } else {
            None
        },
        TokenKind::DotDivide => if lanes {
            Some(Operator::Lanes(SIMDOperator::DotDivide))
        } else {
            None
        },
        _ => None,
    }
}

fn multiplicative_operator_of(k: &TokenKind, lanes: bool) -> (r: Option<Operator>)
    ensures
        r == multiplicative_operator(*k, lanes),
        r matches Some(op) ==> operator_level(op) == 1,
{
    match k {
        TokenKind::Star => Some(Operator::Plain(BinaryOp::Multiply)),
        TokenKind::Slash => Some(Operator::Plain(BinaryOp::Divide)),
        TokenKind::Percent => Some(Operator::Plain(BinaryOp::Modulo)),
        TokenKind::DotMultiply => if lanes {
            Some(Operator::Lanes(SIMDOperator::DotMultiply))
        } else {
            None
        },
        TokenKind::DotDivide => if lanes {
            Some(Operator::Lanes(SIMDOperator::DotDivide))
        } else {
            None
        },
        _ => None,
    }
}

/// The unary operators: `-`, `!` and `&`.
pub open spec fn unary_operator(k: TokenKind) -> Option<UnaryOp> {
    match k {
        TokenKind::Minus => Some(UnaryOp::Negate),
        TokenKind::Not => Some(UnaryOp::Not),
        TokenKind::Ampersand => Some(UnaryOp::Reference),
        _ => None,
    }
}

fn unary_operator_of(k: &TokenKind) -> (r: Option<UnaryOp>)
    ensures
        r == unary_operator(*k),
{
    match k {
        TokenKind::Minus => Some(UnaryOp::Negate),
        TokenKind::Not => Some(UnaryOp::Not),
        TokenKind::Ampersand => Some(UnaryOp::Reference),
        _ => None,
    }
}

/// The assignment operators, `=` and the compound ones.
pub open spec fn assignment_operator(k: TokenKind) -> Option<BinaryOp> {
    match k {
        TokenKind::Assign => Some(BinaryOp::Assign),
        TokenKind::PlusAssign => Some(BinaryOp::PlusAssign),
        TokenKind::MinusAssign => Some(BinaryOp::MinusAssign),
        TokenKind::StarAssign => Some(BinaryOp::MultiplyAssign),
        TokenKind::SlashAssign => Some(BinaryOp::DivideAssign),
        _ => None,
    }
}

fn assignment_operator_of(k: &TokenKind) -> (r: Option<BinaryOp>)
    ensures
        r == assignment_operator(*k),
        r matches Some(op) ==> binary_level(op) == 10,
{
    match k {
        TokenKind::Assign => Some(BinaryOp::Assign),
        TokenKind::PlusAssign => Some(BinaryOp::PlusAssign),
        TokenKind::MinusAssign => Some(BinaryOp::MinusAssign),
        TokenKind::StarAssign => Some(BinaryOp::MultiplyAssign),
        TokenKind::SlashAssign => Some(BinaryOp::DivideAssign),
        _ => None,
    }
}

/// What a primary expression starts with.
pub enum Lead {
    Bool(bool),
    Int(i64),
    Float(String),
    Str(String),
    Simd(String),
    Ident(String),
    Reduce(ReductionOp),
    DotProduct,
    Load,
    Store,
    Paren,
    Bracket,
    Brace,
    Other,
}

/// What a primary expression starting with a token of kind `k` is.
pub open spec fn lead_of(k: TokenKind) -> Lead {
    match k {
        TokenKind::True => Lead::Bool(true),
        TokenKind::False => Lead::Bool(false),
        TokenKind::Integer(n) => Lead::Int(n),
        TokenKind::Float(s) => Lead::Float(s),
        TokenKind::StringLiteral(s) => Lead::Str(s),
        TokenKind::SimdLiteral(s) => Lead::Simd(s),
        TokenKind::Identifier(s) => Lead::Ident(s),
        TokenKind::HorizontalSum => Lead::Reduce(ReductionOp::Sum),
        TokenKind::HorizontalMin => Lead::Reduce(ReductionOp::Min),
        TokenKind::HorizontalMax => Lead::Reduce(ReductionOp::Max),
        TokenKind::DotProduct => Lead::DotProduct,
        TokenKind::LoadVector => Lead::Load,
        TokenKind::StoreVector => Lead::Store,
        TokenKind::LeftParen => Lead::Paren,
        TokenKind::LeftBracket => Lead::Bracket,
        TokenKind::LeftBrace => Lead::Brace,
        _ => Lead::Other,
    }
}

fn lead(k: &TokenKind) -> (l: Lead)
    ensures
        l == lead_of(*k),
{
    match k {
        TokenKind::True => Lead::Bool(true),
        TokenKind::False => Lead::Bool(false),
        TokenKind::Integer(n) => Lead::Int(*n),
        TokenKind::Float(s) => Lead::Float(s.clone()),
        TokenKind::StringLiteral(s) => Lead::Str(s.clone()),
        TokenKind::SimdLiteral(s) => Lead::Simd(s.clone()),
        TokenKind::Identifier(s) => Lead::Ident(s.clone()),
        TokenKind::HorizontalSum => Lead::Reduce(ReductionOp::Sum),
        TokenKind::HorizontalMin => Lead::Reduce(ReductionOp::Min),
        TokenKind::HorizontalMax => Lead::Reduce(ReductionOp::Max),
        TokenKind::DotProduct => Lead::DotProduct,
        TokenKind::LoadVector => Lead::Load,
        TokenKind::StoreVector => Lead::Store,
        TokenKind::LeftParen => Lead::Paren,
        TokenKind::LeftBracket => Lead::Bracket,
        TokenKind::LeftBrace => Lead::Brace,
        _ => Lead::Other,
    }
}

/// Whether no expression can start with a token of kind `k`.
pub open spec fn starts_no_expression(k: TokenKind) -> bool {
    lead_of(k) is Other && unary_operator(k) is None && !(k is Match)
}

/// The result of a rule that found no expression at the current token of `p`:
/// the error "Expected expression, got" and the token's kind, at its position,
/// with the parser unmoved.
pub open spec fn no_expression_error(p: Parser, q: Parser, r: Result<Expr, CompileError>) -> bool {
    &&& p.unmoved(q)
    &&& r matches Err(CompileError::ParseError { message, position })
    &&& message@ == "Expected expression, got "@ + token_kind_debug(p.peek_token().kind)
    &&& position == p.peek_token().position
}

/// The kind of the token `j` places after the current one (the end of input
/// past the last token).
pub open spec fn kind_at(p: Parser, j: int) -> TokenKind {
    if p.pos() + j < p.token_seq().len() {
        p.token_seq()[p.pos() + j].kind
    } else {
        TokenKind::Eof
    }
}

/// The kind of the token after the current one (the end of input past it).
pub open spec fn next_kind(p: Parser) -> TokenKind {
    kind_at(p, 1)
}

/// Whether a token of kind `k` ends an expression before it: no rule reads
/// on past an operand into the end of input, a closing bracket, a comma or a
/// semicolon.
pub open spec fn ends_expression(k: TokenKind) -> bool {
    k is Eof || k is RightParen || k is RightBrace || k is RightBracket || k is Comma
        || k is Semicolon
}

/// The expression that the token `j` places on makes on its own when a token
/// that ends an expression follows it: a literal or a variable; none for other
/// tokens or when more follows.
pub open spec fn lone_at(p: Parser, j: int) -> Option<Expr> {
    if ends_expression(kind_at(p, j + 1)) {
        match lead_of(kind_at(p, j)) {
            Lead::Bool(b) => Some(Expr::Literal(Literal::Boolean(b))),
            Lead::Int(n) => Some(Expr::Literal(Literal::Integer(n))),
            Lead::Float(s) => Some(Expr::Literal(Literal::Float(s))),
            Lead::Str(s) => Some(Expr::Literal(Literal::String(s))),
            Lead::Simd(s) => Some(Expr::Literal(Literal::String(s))),
            Lead::Ident(name) => Some(Expr::Variable(name)),
            _ => None,
        }
    } else {
        None
    }
}

/// The expression that the current token makes on its own (see [`lone_at`]).
pub open spec fn lone_operand(p: Parser) -> Option<Expr> {
    lone_at(p, 0)
}

/// The value of a match expression that the token `j` places on makes on its
/// own: a literal (but for a SIMD literal) or a variable, followed by a token
/// that ends an expression or by the `{` of the arms.
pub open spec fn match_lone_at(p: Parser, j: int) -> Option<Expr> {
    if ends_expression(kind_at(p, j + 1)) || kind_at(p, j + 1) is LeftBrace {
        match lead_of(kind_at(p, j)) {
            Lead::Bool(b) => Some(Expr::Literal(Literal::Boolean(b))),
            Lead::Int(n) => Some(Expr::Literal(Literal::Integer(n))),
            Lead::Float(s) => Some(Expr::Literal(Literal::Float(s))),
            Lead::Str(s) => Some(Expr::Literal(Literal::String(s))),
            Lead::Ident(name) => Some(Expr::Variable(name)),
            _ => None,
        }
    } else {
        None
    }
}

/// What a primary expression is, by the token it starts with: a literal or a
/// variable exactly; for other starts, the kind of expression.
pub open spec fn primary_result(p: Parser, q: Parser, r: Result<Expr, CompileError>) -> bool {
    match lead_of(p.peek_token().kind) {
        Lead::Bool(b) => r == Ok::<Expr, CompileError>(Expr::Literal(Literal::Boolean(b)))
            && q.pos() == p.pos() + 1,
        Lead::Int(n) => r == Ok::<Expr, CompileError>(Expr::Literal(Literal::Integer(n)))
            && q.pos() == p.pos() + 1,
        Lead::Float(s) => r == Ok::<Expr, CompileError>(Expr::Literal(Literal::Float(s)))
            && q.pos() == p.pos() + 1,
        Lead::Str(s) => r == Ok::<Expr, CompileError>(Expr::Literal(Literal::String(s)))
            && q.pos() == p.pos() + 1,
        Lead::Simd(s) => r == Ok::<Expr, CompileError>(Expr::Literal(Literal::String(s)))
            && q.pos() == p.pos() + 1,
        Lead::Ident(name) => match next_kind(p) {
            TokenKind::DoubleColon => r matches Ok(e) ==> (e matches Expr::EnumLiteral {
                enum_name,
                ..
            } && enum_name == name) || e is Call,
            TokenKind::LeftParen => r matches Ok(e) ==> (e matches Expr::Call(callee, _)
                && *callee == Expr::Variable(name)),
            TokenKind::LeftBrace => r matches Ok(e) ==> (e matches Expr::StructLiteral {
                name: n,
                ..
            } && n == name),
            _ => r == Ok::<Expr, CompileError>(Expr::Variable(name)) && q.pos() == p.pos() + 1,
        },
        Lead::Reduce(op) => r matches Ok(e) ==> (e matches Expr::SIMD(
            SIMDExpr::Reduction { operation, .. },
        ) && operation == op),
        Lead::DotProduct => r matches Ok(e) ==> e matches Expr::SIMD(SIMDExpr::DotProduct { .. }),
        Lead::Load => r matches Ok(e) ==> e matches Expr::SIMD(SIMDExpr::VectorLoad { .. }),
        Lead::Store => r matches Ok(e) ==> e matches Expr::SIMD(SIMDExpr::VectorStore { .. }),
        Lead::Paren => r matches Ok(e) ==> e is Grouping,
        Lead::Bracket => r matches Ok(e) ==> (e matches Expr::Literal(Literal::Vector { .. })
            || e matches Expr::SIMD(SIMDExpr::VectorLiteral { .. })),
        Lead::Brace => r matches Ok(e) ==> e is Block,
        Lead::Other => no_expression_error(p, q, r),
    }
}

/// Whether an alignment is a power of two from 1 to 64.
pub open spec fn valid_alignment(a: u32) -> bool {
    a == 1 || a == 2 || a == 4 || a == 8 || a == 16 || a == 32 || a == 64
}

fn is_valid_alignment(a: u32) -> (b: bool)
    ensures
        b == valid_alignment(a),
{
    a == 1 || a == 2 || a == 4 || a == 8 || a == 16 || a == 32 || a == 64
}

/// The low 32 bits of a value.
fn truncate_to_u32(v: i64) -> (a: u32)
    ensures
        a == v as u32,
{
    #[verifier::truncate]
    (v as u32)
}

/// What parsing an alignment gives: for an integer literal, its value
/// truncated to 32 bits where that is a valid alignment, else an error at the
/// literal; for another token, an error there with the parser unmoved.
pub open spec fn alignment_result(p: Parser, q: Parser, r: Result<u32, CompileError>) -> bool {
    match p.peek_token().kind {
        TokenKind::Integer(v) => {
            &&& q.pos() == p.pos() + 1
            &&& if valid_alignment(v as u32) {
                r == Ok::<u32, CompileError>(v as u32)
            } else {
                &&& r matches Err(CompileError::ParseError { message, position })
                &&& message@ == "Alignment must be a power of 2 between 1 and 64"@
                &&& position == p.peek_token().position
            }
        },
        _ => {
            &&& p.unmoved(q)
            &&& r matches Err(CompileError::ParseError { message, position })
            &&& message@ == "Expected alignment value"@
            &&& position == p.peek_token().position
        },
    }
}

/// What a pattern starting with a token of kind `k` is: `_` the wildcard, an
/// identifier a variable (or with `::` after it an enum variant), and the
/// boolean, integer and string literals themselves.
pub open spec fn pattern_result(p: Parser, q: Parser, r: Result<Pattern, CompileError>) -> bool {
    match p.peek_token().kind {
        TokenKind::Identifier(name) => if name@ == "_"@ {
            r == Ok::<Pattern, CompileError>(Pattern::Wildcard) && q.pos() == p.pos() + 1
        } else if next_kind(p) is DoubleColon {
            r matches Ok(pattern) ==> (pattern matches Pattern::EnumVariant { enum_name, .. }
                && enum_name == name)
        } else {
            r == Ok::<Pattern, CompileError>(Pattern::Variable(name)) && q.pos() == p.pos() + 1
        },
        TokenKind::True => r == Ok::<Pattern, CompileError>(Pattern::Literal(Literal::Boolean(true)))
            && q.pos() == p.pos() + 1,
        TokenKind::False => r == Ok::<Pattern, CompileError>(
            Pattern::Literal(Literal::Boolean(false)),
        ) && q.pos() == p.pos() + 1,
        TokenKind::Integer(n) => r == Ok::<Pattern, CompileError>(
            Pattern::Literal(Literal::Integer(n)),
        ) && q.pos() == p.pos() + 1,
        TokenKind::StringLiteral(s) => r == Ok::<Pattern, CompileError>(
            Pattern::Literal(Literal::String(s)),
        ) && q.pos() == p.pos() + 1,
        _ => {
            &&& p.unmoved(q)
            &&& r matches Err(CompileError::ParseError { message, position })
            &&& message@ == "Expected pattern"@
            &&& position == p.peek_token().position
        },
    }
}

/// A statement that the rule for statements gives, by the token it starts
/// with: a return, block, if, while or for statement, else an expression
/// statement.
pub open spec fn statement_shape(k: TokenKind, s: Stmt) -> bool {
    match k {
        TokenKind::Return => s is Return,
        TokenKind::LeftBrace => s is Block,
        TokenKind::If => s is If,
        TokenKind::While => s is While,
        TokenKind::For => s is For || s is ForIn,
        _ => s is Expression,
    }
}

/// A statement that the rule for declarations gives, by the token it starts
/// with: a function, struct, enum or variable declaration, else a statement.
pub open spec fn declaration_shape(k: TokenKind, s: Stmt) -> bool {
    match k {
        TokenKind::Func => s is FunctionDeclaration,
        TokenKind::Struct => s is StructDeclaration,
        TokenKind::Enum => s is EnumDeclaration,
        TokenKind::Let => s is VarDeclaration,
        _ => statement_shape(k, s),
    }
}

/// An error with `message` at the current token of `p`, the parser unmoved.
pub open spec fn error_here<T>(p: Parser, q: Parser, r: Result<T, CompileError>, message: Seq<char>) -> bool {
    &&& p.unmoved(q)
    &&& r matches Err(CompileError::ParseError { message: m, position })
    &&& m@ == message
    &&& position == p.peek_token().position
}

/// What a primary expression of a match value is, by the token it starts
/// with: a literal or a variable exactly, an enum literal or a call after an
/// identifier, a unary expression after a unary operator, or an error.
pub open spec fn match_primary_result(p: Parser, q: Parser, r: Result<Expr, CompileError>) -> bool {
    match lead_of(p.peek_token().kind) {
        Lead::Bool(b) => r == Ok::<Expr, CompileError>(Expr::Literal(Literal::Boolean(b)))
            && q.pos() == p.pos() + 1,
        Lead::Int(n) => r == Ok::<Expr, CompileError>(Expr::Literal(Literal::Integer(n)))
            && q.pos() == p.pos() + 1,
        Lead::Float(s) => r == Ok::<Expr, CompileError>(Expr::Literal(Literal::Float(s)))
            && q.pos() == p.pos() + 1,
        Lead::Str(s) => r == Ok::<Expr, CompileError>(Expr::Literal(Literal::String(s)))
            && q.pos() == p.pos() + 1,
        Lead::Ident(name) => match next_kind(p) {
            TokenKind::DoubleColon => r matches Ok(e) ==> (e matches Expr::EnumLiteral {
                enum_name,
                ..
            } && enum_name == name),
            TokenKind::LeftParen => r matches Ok(e) ==> (e matches Expr::Call(callee, _)
                && *callee == Expr::Variable(name)),
            _ => r == Ok::<Expr, CompileError>(Expr::Variable(name)) && q.pos() == p.pos() + 1,
        },
        Lead::Paren => true,
        _ => match unary_operator(p.peek_token().kind) {
            Some(op) => r matches Ok(e) ==> (e matches Expr::Unary(o, _) && o == op),
            None => error_here(p, q, r, "Expected expression"@),
        },
    }
}

/// The operator of a left-associative level (see [`binding_level`]) that a token
/// of kind `k` writes: multiplicative (1), additive (2), comparison (3),
/// equality (4), `.&` (5), `.^` (6), `.|` (7), `&&` (8) and `||` (9).
pub open spec fn level_operator(level: nat, k: TokenKind) -> Option<Operator> {
    if level == 1 {
        multiplicative_operator(k, true)
    } else if level == 2 {
        additive_operator(k, true)
    } else if level == 3 {
        comparison_operator(k)
    } else if level == 4 {
        equality_operator(k)
    } else if level == 5 {
        if k is DotAnd { Some(Operator::Lanes(SIMDOperator::DotAnd)) } else { None }
    } else if level == 6 {
        if k is DotXor { Some(Operator::Lanes(SIMDOperator::DotXor)) } else { None }
    } else if level == 7 {
        if k is DotOr { Some(Operator::Lanes(SIMDOperator::DotOr)) } else { None }
    } else if level == 8 {
        if k is And { Some(Operator::Plain(BinaryOp::And)) } else { None }
    } else if level == 9 {
        if k is Or { Some(Operator::Plain(BinaryOp::Or)) } else { None }
    } else {
        None
    }
}

/// How a binary operator is written in source.
pub open spec fn binary_op_spelling(op: BinaryOp) -> Seq<char> {
    match op {
        BinaryOp::Add => "+"@,
        BinaryOp::Subtract => "-"@,
        BinaryOp::Multiply => "*"@,
        BinaryOp::Divide => "/"@,
        BinaryOp::Modulo => "%"@,
        BinaryOp::Equal => "=="@,
        BinaryOp::NotEqual => "!="@,
        BinaryOp::Less => "<"@,
        BinaryOp::LessEqual => "<="@,
        BinaryOp::Greater => ">"@,
        BinaryOp::GreaterEqual => ">="@,
        BinaryOp::And => "&&"@,
        BinaryOp::Or => "||"@,
        BinaryOp::Assign => "="@,
        BinaryOp::PlusAssign => "+="@,
        BinaryOp::MinusAssign => "-="@,
        BinaryOp::MultiplyAssign => "*="@,
        BinaryOp::DivideAssign => "/="@,
    }
}

/// How an element-wise operator is written in source.
pub open spec fn simd_op_spelling(op: SIMDOperator) -> Seq<char> {
    match op {
        SIMDOperator::DotAdd => ".+"@,
        SIMDOperator::DotSubtract => ".-"@,
        SIMDOperator::DotMultiply => ".*"@,
        SIMDOperator::DotDivide => "./"@,
        SIMDOperator::DotAnd => ".&"@,
        SIMDOperator::DotOr => ".|"@,
        SIMDOperator::DotXor => ".^"@,
        SIMDOperator::DotEqual => ".=="@,
        SIMDOperator::DotNotEqual => ".!="@,
        SIMDOperator::DotLess => ".<"@,
        SIMDOperator::DotGreater => ".>"@,
        SIMDOperator::DotLessEqual => ".<="@,
        SIMDOperator::DotGreaterEqual => ".>="@,
    }
}

/// How a unary operator is written in source.
pub open spec fn unary_op_spelling(op: UnaryOp) -> Seq<char> {
    match op {
        UnaryOp::Negate => "-"@,
        UnaryOp::Not => "!"@,
        UnaryOp::Reference => "&"@,
    }
}

/// How an operator of a binary level is written in source.
pub open spec fn operator_spelling(op: Operator) -> Seq<char> {
    match op {
        Operator::Plain(b) => binary_op_spelling(b),
        Operator::Lanes(s) => simd_op_spelling(s),
    }
}

/// The operator the parser reads from a token is the one the token spells:
/// for every token kind, each operator of the binary levels, of a match value,
/// of assignment and of negation that the kind gives is written as the kind's
/// text (so `%` gives the remainder, `/` the quotient, `*` the product).
pub proof fn lemma_operators_are_spelled_by_their_tokens(k: TokenKind, lanes: bool, level: nat)
    ensures
        multiplicative_operator(k, lanes) matches Some(op) ==> operator_spelling(op) == kind_text(k),
        additive_operator(k, lanes) matches Some(op) ==> operator_spelling(op) == kind_text(k),
        comparison_operator(k) matches Some(op) ==> operator_spelling(op) == kind_text(k),
        equality_operator(k) matches Some(op) ==> operator_spelling(op) == kind_text(k),
        level_operator(level, k) matches Some(op) ==> operator_spelling(op) == kind_text(k),
        match_level_operator(level, k) matches Some(op) ==> operator_spelling(op) == kind_text(k),
        assignment_operator(k) matches Some(op) ==> binary_op_spelling(op) == kind_text(k),
        unary_operator(k) matches Some(op) ==> unary_op_spelling(op) == kind_text(k),
{
}

/// Scalar binary operators bind in the order of the lexer's precedence table:
/// of two tokens read as scalar operators at levels `l1` and `l2`, the one of
/// higher precedence is read at the lower, tighter level, and tokens of equal
/// precedence at the same level.
pub proof fn lemma_levels_follow_precedence(k1: TokenKind, k2: TokenKind, l1: nat, l2: nat)
    requires
        level_operator(l1, k1) matches Some(Operator::Plain(_)),
        level_operator(l2, k2) matches Some(Operator::Plain(_)),
    ensures
        precedence_of(k1) is Some,
        precedence_of(k2) is Some,
        (precedence_of(k1)->Some_0 > precedence_of(k2)->Some_0) == (l1 < l2),
        (precedence_of(k1)->Some_0 == precedence_of(k2)->Some_0) == (l1 == l2),
{
}

/// How a reduction is written in source.
pub open spec fn reduction_spelling(op: ReductionOp) -> Seq<char> {
    match op {
        ReductionOp::Sum => "horizontal_sum"@,
        ReductionOp::Min => "horizontal_min"@,
        ReductionOp::Max => "horizontal_max"@,
    }
}

/// A primary expression is what its first token writes: `true` and `false`
/// give those booleans, a number, string or name token gives that value, a
/// reduction keyword gives the reduction it spells, and the SIMD built-ins and
/// brackets start the expressions their spelling names.
pub proof fn lemma_primaries_follow_their_tokens(k: TokenKind)
    ensures
        lead_of(k) matches Lead::Bool(b) ==> kind_text(k) == (if b {
            "true"@
        } else {
            "false"@
        }),
        lead_of(k) matches Lead::Int(n) ==> k == TokenKind::Integer(n),
        lead_of(k) matches Lead::Float(t) ==> k == TokenKind::Float(t),
        lead_of(k) matches Lead::Str(t) ==> k == TokenKind::StringLiteral(t),
        lead_of(k) matches Lead::Simd(t) ==> k == TokenKind::SimdLiteral(t),
        lead_of(k) matches Lead::Ident(t) ==> k == TokenKind::Identifier(t),
        lead_of(k) matches Lead::Reduce(op) ==> kind_text(k) == reduction_spelling(op),
        lead_of(k) is DotProduct ==> kind_text(k) == "dot_product"@,
        lead_of(k) is Load ==> kind_text(k) == "load_vector"@,
        lead_of(k) is Store ==> kind_text(k) == "store_vector"@,
        lead_of(k) is Paren ==> kind_text(k) == "("@,
        lead_of(k) is Bracket ==> kind_text(k) == "["@,
        lead_of(k) is Brace ==> kind_text(k) == "{"@,
{
}

/// The position an operation of a level records: that of the last token of its
/// right operand (ending before `end`) at levels 1, 2, 5, 6 and 7, that of its
/// operator (at `at`) at the others.
pub open spec fn level_position(ts: Seq<Token>, level: nat, at: int, end: int) -> Position {
    if level == 1 || level == 2 || level == 5 || level == 6 || level == 7 {
        ts[end - 1].position
    } else {
        ts[at].position
    }
}

/// The model of two operands joined by an operator (see [`joined`]).
pub open spec fn joined_model(
    left: ExprModel,
    op: Operator,
    right: ExprModel,
    position: Position,
) -> ExprModel {
    match op {
        Operator::Plain(b) => ExprModel::Binary(Box::new(left), b, Box::new(right)),
        Operator::Lanes(s) => ExprModel::ElementWise(Box::new(left), s, Box::new(right), position),
    }
}

/// Joining trees that agree with models gives a tree that agrees with the
/// joined models.
proof fn lemma_join_agrees(
    left: Expr,
    lm: ExprModel,
    op: Operator,
    right: Expr,
    rm: ExprModel,
    position: Position,
)
    requires
        agrees(left, lm),
        agrees(right, rm),
    ensures
        agrees(joined(left, op, right, position), joined_model(lm, op, rm, position)),
{
}

/// The parse of an expression of at most the given level (0 to 9, see
/// [`binding_level`]) that starts at token `i`: the tree and the position after
/// it; `None` where the tokens hold no such expression.
pub open spec fn operand_parse(ts: Seq<Token>, i: int, level: nat) -> Option<(ExprModel, int)>
    decreases ts.len() - i, level + 3,
{
    if !(0 <= i < ts.len()) {
        None
    } else if level == 0 {
        unary_parse(ts, i)
    } else {
        match operand_parse(ts, i, (level - 1) as nat) {
            Some((e, j)) => if i < j < ts.len() {
                chain_parse(ts, j, level, e)
            } else {
                None
            },
            None => None,
        }
    }
}

/// The rest of a left-associative chain of a level after its operands so far,
/// `left`, ending at token `j`: each operator of the level and the operand of
/// the level below after it join onto the left.
pub open spec fn chain_parse(ts: Seq<Token>, j: int, level: nat, left: ExprModel) -> Option<
    (ExprModel, int),
>
    decreases ts.len() - j, level + 3,
{
    if !(0 <= j < ts.len()) || level == 0 {
        None
    } else {
        match level_operator(level, ts[j].kind) {
            None => Some((left, j)),
            Some(op) => match operand_parse(ts, j + 1, (level - 1) as nat) {
                Some((right, k)) => if j + 1 < k < ts.len() {
                    chain_parse(
                        ts,
                        k,
                        level,
                        joined_model(left, op, right, level_position(ts, level, j, k)),
                    )
                } else {
                    None
                },
                None => None,
            },
        }
    }
}

/// The parse of a unary expression at token `i`: unary operators before an
/// operand with its calls, indexing, slicing and field accesses.
pub open spec fn unary_parse(ts: Seq<Token>, i: int) -> Option<(ExprModel, int)>
    decreases ts.len() - i, 2int,
{
    if !(0 <= i < ts.len()) {
        None
    } else {
        match unary_operator(ts[i].kind) {
            Some(op) => match unary_parse(ts, i + 1) {
                Some((e, j)) => Some((ExprModel::Unary(op, Box::new(e)), j)),
                None => None,
            },
            None => call_parse(ts, i),
        }
    }
}

/// The parse of a primary expression at token `i` with the calls, indexing,
/// slicing and field accesses after it.
pub open spec fn call_parse(ts: Seq<Token>, i: int) -> Option<(ExprModel, int)>
    decreases ts.len() - i, 1int,
{
    if !(0 <= i < ts.len()) {
        None
    } else {
        match primary_parse(ts, i) {
            Some((e, j)) => if i < j < ts.len() {
                postfix_parse(ts, j, e)
            } else {
                None
            },
            None => None,
        }
    }
}

/// The calls (`(args)`), indexing (`[e]`), slicing (`[a:b]`) and field accesses
/// (`.name`) that apply to `e` from token `j` on.
pub open spec fn postfix_parse(ts: Seq<Token>, j: int, e: ExprModel) -> Option<(ExprModel, int)>
    decreases ts.len() - j, 1int,
{
    if !(0 <= j < ts.len()) {
        None
    } else {
        match ts[j].kind {
            TokenKind::LeftParen => match list_parse(ts, j + 1, TokenKind::RightParen) {
                Some((args, c)) => if j < c < ts.len() {
                    postfix_parse(ts, c + 1, ExprModel::Call(Box::new(e), args))
                } else {
                    None
                },
                None => None,
            },
            TokenKind::LeftBracket => match expression_parse(ts, j + 1) {
                Some((first, k)) => if !(j < k < ts.len()) {
                    None
                } else if ts[k].kind is Colon {
                    match expression_parse(ts, k + 1) {
                        Some((last, m)) => if k < m < ts.len() && ts[m].kind is RightBracket {
                            postfix_parse(
                                ts,
                                m + 1,
                                ExprModel::Slice(Box::new(e), Box::new(first), Box::new(last)),
                            )
                        } else {
                            None
                        },
                        None => None,
                    }
                } else if ts[k].kind is RightBracket {
                    postfix_parse(ts, k + 1, ExprModel::Index(Box::new(e), Box::new(first)))
                } else {
                    None
                },
                None => None,
            },
            TokenKind::Dot => if j + 1 < ts.len() {
                match ts[j + 1].kind {
                    TokenKind::Identifier(name) => postfix_parse(
                        ts,
                        j + 2,
                        ExprModel::FieldAccess(Box::new(e), name),
                    ),
                    _ => None,
                }
            } else {
                None
            },
            _ => Some((e, j)),
        }
    }
}

/// The parse of a primary expression at token `i`: a literal; a variable, a
/// call, a struct literal, an enum literal or a call through a module after an
/// identifier; a SIMD reduction, dot product or vector store; an expression in
/// round brackets; an array or SIMD vector literal; a block expression. `None`
/// for a vector load (which always fails) and tokens that start none.
pub open spec fn primary_parse(ts: Seq<Token>, i: int) -> Option<(ExprModel, int)>
    decreases ts.len() - i, 0int,
{
    if !(0 <= i < ts.len()) {
        None
    } else {
        match lead_of(ts[i].kind) {
            Lead::Bool(b) => Some((ExprModel::Lit(Literal::Boolean(b)), i + 1)),
            Lead::Int(n) => Some((ExprModel::Lit(Literal::Integer(n)), i + 1)),
            Lead::Float(t) => Some((ExprModel::Lit(Literal::Float(t)), i + 1)),
            Lead::Str(t) => Some((ExprModel::Lit(Literal::String(t)), i + 1)),
            Lead::Simd(t) => Some((ExprModel::Lit(Literal::String(t)), i + 1)),
            Lead::Ident(name) => identifier_parse(ts, i + 1, name),
            Lead::Reduce(op) => match reduction_parse(ts, i + 1) {
                Some((v, c)) => if i < c < ts.len() {
                    Some((ExprModel::Reduction(Box::new(v), op, ts[c].position), c + 1))
                } else {
                    None
                },
                None => None,
            },
            Lead::DotProduct => match dot_product_parse(ts, i + 1) {
                Some((l, r, c)) => if i < c < ts.len() {
                    Some((ExprModel::DotProduct(Box::new(l), Box::new(r), ts[c].position), c + 1))
                } else {
                    None
                },
                None => None,
            },
            Lead::Store => match store_parse(ts, i + 1) {
                Some((a, v, al, c)) => if i < c < ts.len() {
                    Some(
                        (
                            ExprModel::VectorStore(Box::new(a), Box::new(v), al, ts[c].position),
                            c + 1,
                        ),
                    )
                } else {
                    None
                },
                None => None,
            },
            Lead::Paren => match expression_parse(ts, i + 1) {
                Some((e, j)) => if i < j < ts.len() && ts[j].kind is RightParen {
                    Some((ExprModel::Grouping(Box::new(e)), j + 1))
                } else {
                    None
                },
                None => None,
            },
            Lead::Bracket => array_parse(ts, i + 1),
            Lead::Brace => match block_end(ts, i + 1) {
                Some(j) => Some((ExprModel::Block(ts, i + 1), j)),
                None => None,
            },
            _ => None,
        }
    }
}

/// The parse of what follows an identifier `name` in a primary expression,
/// from token `j` on: a call, a struct literal, an enum literal or a call
/// through a module; a variable otherwise.
pub open spec fn identifier_parse(ts: Seq<Token>, j: int, name: String) -> Option<(ExprModel, int)>
    decreases ts.len() - j, 0int,
{
    if !(0 <= j < ts.len()) {
        None
    } else if ts[j].kind is LeftParen {
        match list_parse(ts, j + 1, TokenKind::RightParen) {
            Some((args, c)) => if j <= c < ts.len() {
                Some((ExprModel::Call(Box::new(ExprModel::Variable(name)), args), c + 1))
            } else {
                None
            },
            None => None,
        }
    } else if ts[j].kind is LeftBrace {
        match field_values_parse(ts, j + 1) {
            Some((fs, c)) => if j <= c < ts.len() {
                Some((ExprModel::StructLiteral(name, fs), c + 1))
            } else {
                None
            },
            None => None,
        }
    } else if ts[j].kind is DoubleColon {
        if !(j + 2 < ts.len()) {
            None
        } else {
            match ts[j + 1].kind {
                TokenKind::Identifier(second) => if ts[j + 2].kind is LeftParen {
                    match list_parse(ts, j + 3, TokenKind::RightParen) {
                        Some((args, c)) => if j <= c < ts.len() {
                            Some(
                                (
                                    ExprModel::Call(
                                        Box::new(
                                            ExprModel::FieldAccess(
                                                Box::new(ExprModel::Variable(name)),
                                                second,
                                            ),
                                        ),
                                        args,
                                    ),
                                    c + 1,
                                ),
                            )
                        } else {
                            None
                        },
                        None => None,
                    }
                } else {
                    Some((ExprModel::EnumLiteral(name, second, Seq::empty()), j + 2))
                },
                _ => None,
            }
        }
    } else {
        Some((ExprModel::Variable(name), j))
    }
}

/// The parse of an assignment at token `i`: an operand of level 9, or a variable,
/// an assignment operator and an assignment (grouping to the right).
pub open spec fn assignment_parse(ts: Seq<Token>, i: int) -> Option<(ExprModel, int)>
    decreases ts.len() - i, 13int,
{
    if !(0 <= i < ts.len()) {
        None
    } else {
        match operand_parse(ts, i, 9) {
            Some((e, j)) => if !(i < j < ts.len()) {
                None
            } else {
                match assignment_operator(ts[j].kind) {
                    None => Some((e, j)),
                    Some(op) => match assignment_parse(ts, j + 1) {
                        Some((v, k)) => match e {
                            ExprModel::Variable(name) => Some(
                                (
                                    ExprModel::Binary(
                                        Box::new(ExprModel::Variable(name)),
                                        op,
                                        Box::new(v),
                                    ),
                                    k,
                                ),
                            ),
                            _ => None,
                        },
                        None => None,
                    },
                }
            },
            None => None,
        }
    }
}

/// The parse of an expression at token `i`: a match expression after `match`,
/// or else an assignment.
pub open spec fn expression_parse(ts: Seq<Token>, i: int) -> Option<(ExprModel, int)>
    decreases ts.len() - i, 14int,
{
    if !(0 <= i < ts.len()) {
        None
    } else if ts[i].kind is Match {
        match_parse(ts, i + 1)
    } else {
        assignment_parse(ts, i)
    }
}

/// A list of expressions from token `k` on that ends at a token of kind
/// `close`: none when it comes first, else expressions split by commas (see
/// [`list_from`]); with the position of the closing token.
pub open spec fn list_parse(ts: Seq<Token>, k: int, close: TokenKind) -> Option<
    (Seq<ExprModel>, int),
>
    decreases ts.len() - k, 16int,
{
    if 0 <= k < ts.len() && ts[k].kind == close {
        Some((Seq::empty(), k))
    } else {
        list_from(ts, k, close)
    }
}

/// Expressions from token `k` on, split by commas and ended by a token of kind
/// `close`, with the position of that token.
pub open spec fn list_from(ts: Seq<Token>, k: int, close: TokenKind) -> Option<
    (Seq<ExprModel>, int),
>
    decreases ts.len() - k, 15int,
{
    if !(0 <= k < ts.len()) {
        None
    } else {
        match expression_parse(ts, k) {
            Some((e, j)) => if !(k < j < ts.len()) {
                None
            } else if ts[j].kind is Comma {
                match list_from(ts, j + 1, close) {
                    Some((rest, c)) => Some((seq![e] + rest, c)),
                    None => None,
                }
            } else if ts[j].kind == close {
                Some((seq![e], j))
            } else {
                None
            },
            None => None,
        }
    }
}

/// The field values of a struct literal from token `k` on, after its `{`: a
/// name, `:` and an expression each, split by commas, and the position of the
/// closing `}`.
pub open spec fn field_values_parse(ts: Seq<Token>, k: int) -> Option<
    (Seq<(String, ExprModel)>, int),
>
    decreases ts.len() - k, 16int,
{
    if 0 <= k < ts.len() && ts[k].kind is RightBrace {
        Some((Seq::empty(), k))
    } else {
        field_values_from(ts, k)
    }
}

/// The field values of a struct literal from its first one at token `k` on (see
/// [`field_values_parse`]).
pub open spec fn field_values_from(ts: Seq<Token>, k: int) -> Option<
    (Seq<(String, ExprModel)>, int),
>
    decreases ts.len() - k, 15int,
{
    if !(0 <= k && k + 2 < ts.len() && ts[k + 1].kind is Colon) {
        None
    } else {
        match ts[k].kind {
            TokenKind::Identifier(name) => match expression_parse(ts, k + 2) {
                Some((v, j)) => if !(k + 2 < j < ts.len()) {
                    None
                } else if ts[j].kind is Comma {
                    match field_values_from(ts, j + 1) {
                        Some((rest, c)) => Some((seq![(name, v)] + rest, c)),
                        None => None,
                    }
                } else if ts[j].kind is RightBrace {
                    Some((seq![(name, v)], j))
                } else {
                    None
                },
                None => None,
            },
            _ => None,
        }
    }
}

/// The vector of a SIMD reduction from its `(` at token `k` on and the position
/// of its `)`.
pub open spec fn reduction_parse(ts: Seq<Token>, k: int) -> Option<(ExprModel, int)>
    decreases ts.len() - k, 15int,
{
    if !(0 <= k < ts.len() && ts[k].kind is LeftParen) {
        None
    } else {
        match expression_parse(ts, k + 1) {
            Some((e, j)) => if k + 1 < j < ts.len() && ts[j].kind is RightParen {
                Some((e, j))
            } else {
                None
            },
            None => None,
        }
    }
}

/// The two vectors of a dot product from its `(` at token `k` on and the
/// position of its `)`.
pub open spec fn dot_product_parse(ts: Seq<Token>, k: int) -> Option<(ExprModel, ExprModel, int)>
    decreases ts.len() - k, 15int,
{
    if !(0 <= k < ts.len() && ts[k].kind is LeftParen) {
        None
    } else {
        match expression_parse(ts, k + 1) {
            Some((l, j)) => if !(k + 1 < j < ts.len() && ts[j].kind is Comma) {
                None
            } else {
                match expression_parse(ts, j + 1) {
                    Some((r, m)) => if j + 1 < m < ts.len() && ts[m].kind is RightParen {
                        Some((l, r, m))
                    } else {
                        None
                    },
                    None => None,
                }
            },
            None => None,
        }
    }
}

/// The address, the vector and the optional alignment of a vector store from its
/// `(` at token `k` on, and the position of its `)`: the alignment an integer
/// literal whose low 32 bits are a valid alignment.
pub open spec fn store_parse(ts: Seq<Token>, k: int) -> Option<
    (ExprModel, ExprModel, Option<u32>, int),
>
    decreases ts.len() - k, 15int,
{
    if !(0 <= k < ts.len() && ts[k].kind is LeftParen) {
        None
    } else {
        match expression_parse(ts, k + 1) {
            Some((a, j)) => if !(k + 1 < j < ts.len() && ts[j].kind is Comma) {
                None
            } else {
                match expression_parse(ts, j + 1) {
                    Some((v, m)) => if !(j + 1 < m && m + 2 < ts.len()) {
                        None
                    } else if ts[m].kind is RightParen {
                        Some((a, v, None, m))
                    } else if ts[m].kind is Comma && ts[m + 2].kind is RightParen {
                        match ts[m + 1].kind {
                            TokenKind::Integer(n) => if valid_alignment(n as u32) {
                                Some((a, v, Some(n as u32), m + 2))
                            } else {
                                None
                            },
                            _ => None,
                        }
                    } else {
                        None
                    },
                    None => None,
                }
            },
            None => None,
        }
    }
}

/// The parse of an array or SIMD vector literal after its `[` at token `k`:
/// elements split by commas up to `]`; with a SIMD vector type after the `]` a
/// vector literal recording that type's position, else an array literal whose
/// elements must all be literals.
pub open spec fn array_parse(ts: Seq<Token>, k: int) -> Option<(ExprModel, int)>
    decreases ts.len() - k, 17int,
{
    if !(0 <= k < ts.len()) {
        None
    } else if ts[k].kind is RightBracket {
        Some((ExprModel::Array(Seq::empty()), k + 1))
    } else {
        match list_from(ts, k, TokenKind::RightBracket) {
            Some((es, c)) => if !(k <= c && c + 1 < ts.len()) {
                None
            } else {
                match simd_vector_of(ts[c + 1].kind) {
                    Some(t) => Some((ExprModel::VectorLiteral(es, t, ts[c + 1].position), c + 2)),
                    None => if forall|x: int| 0 <= x < es.len() ==> is_literal_model(#[trigger] es[x]) {
                        Some((ExprModel::Array(es), c + 1))
                    } else {
                        None
                    },
                }
            },
            None => None,
        }
    }
}

/// The operator of a level of a match value (`||` 5, `&&` 4, `.|` 3,
/// equality 2, scalar comparison 1) that a token of kind `k` writes.
pub open spec fn match_level_operator(level: nat, k: TokenKind) -> Option<Operator> {
    if level == 1 {
        match comparison_operator(k) {
            Some(Operator::Plain(b)) => Some(Operator::Plain(b)),
            _ => None,
        }
    } else if level == 2 {
        equality_operator(k)
    } else if level == 3 {
        if k is DotOr { Some(Operator::Lanes(SIMDOperator::DotOr)) } else { None }
    } else if level == 4 {
        if k is And { Some(Operator::Plain(BinaryOp::And)) } else { None }
    } else if level == 5 {
        if k is Or { Some(Operator::Plain(BinaryOp::Or)) } else { None }
    } else {
        None
    }
}

/// The position an operation of a match value's level records: that of the
/// last token of its right operand at level 3, that of its operator elsewhere.
pub open spec fn match_level_position(ts: Seq<Token>, level: nat, at: int, end: int) -> Position {
    if level == 3 {
        ts[end - 1].position
    } else {
        ts[at].position
    }
}

/// The parse of a match value of at most the given level (0 to 5) at token `i`.
pub open spec fn match_operand_parse(ts: Seq<Token>, i: int, level: nat) -> Option<
    (ExprModel, int),
>
    decreases ts.len() - i, level + 1,
{
    if !(0 <= i < ts.len()) {
        None
    } else if level == 0 {
        match_primary_parse(ts, i)
    } else {
        match match_operand_parse(ts, i, (level - 1) as nat) {
            Some((e, j)) => if i < j < ts.len() {
                match_chain_parse(ts, j, level, e)
            } else {
                None
            },
            None => None,
        }
    }
}

/// The rest of a left-associative chain of a match value's level (see
/// [`chain_parse`]).
pub open spec fn match_chain_parse(ts: Seq<Token>, j: int, level: nat, left: ExprModel) -> Option<
    (ExprModel, int),
>
    decreases ts.len() - j, level + 1,
{
    if !(0 <= j < ts.len()) || level == 0 {
        None
    } else {
        match match_level_operator(level, ts[j].kind) {
            None => Some((left, j)),
            Some(op) => match match_operand_parse(ts, j + 1, (level - 1) as nat) {
                Some((right, k)) => if j + 1 < k < ts.len() {
                    match_chain_parse(
                        ts,
                        k,
                        level,
                        joined_model(left, op, right, match_level_position(ts, level, j, k)),
                    )
                } else {
                    None
                },
                None => None,
            },
        }
    }
}

/// The parse of a primary expression of a match value at token `i`: a literal
/// (but for a SIMD literal); an enum literal, a call or a variable after an
/// identifier; an expression in round brackets (with no grouping node); a unary
/// operator before such a primary.
pub open spec fn match_primary_parse(ts: Seq<Token>, i: int) -> Option<(ExprModel, int)>
    decreases ts.len() - i, 0int,
{
    if !(0 <= i < ts.len()) {
        None
    } else {
        match lead_of(ts[i].kind) {
            Lead::Bool(b) => Some((ExprModel::Lit(Literal::Boolean(b)), i + 1)),
            Lead::Int(n) => Some((ExprModel::Lit(Literal::Integer(n)), i + 1)),
            Lead::Float(t) => Some((ExprModel::Lit(Literal::Float(t)), i + 1)),
            Lead::Str(t) => Some((ExprModel::Lit(Literal::String(t)), i + 1)),
            Lead::Ident(name) => if !(i + 1 < ts.len()) {
                None
            } else if ts[i + 1].kind is DoubleColon {
                if !(i + 3 < ts.len()) {
                    None
                } else {
                    match ts[i + 2].kind {
                        TokenKind::Identifier(variant) => if ts[i + 3].kind is LeftParen {
                            match list_parse(ts, i + 4, TokenKind::RightParen) {
                                Some((args, c)) => if i < c < ts.len() {
                                    Some((ExprModel::EnumLiteral(name, variant, args), c + 1))
                                } else {
                                    None
                                },
                                None => None,
                            }
                        } else {
                            Some((ExprModel::EnumLiteral(name, variant, Seq::empty()), i + 3))
                        },
                        _ => None,
                    }
                }
            } else if ts[i + 1].kind is LeftParen {
                match list_parse(ts, i + 2, TokenKind::RightParen) {
                    Some((args, c)) => if i < c < ts.len() {
                        Some(
                            (ExprModel::Call(Box::new(ExprModel::Variable(name)), args), c + 1),
                        )
                    } else {
                        None
                    },
                    None => None,
                }
            } else {
                Some((ExprModel::Variable(name), i + 1))
            },
            Lead::Paren => match expression_parse(ts, i + 1) {
                Some((e, j)) => if i < j < ts.len() && ts[j].kind is RightParen {
                    Some((e, j + 1))
                } else {
                    None
                },
                None => None,
            },
            _ => match unary_operator(ts[i].kind) {
                Some(op) => match match_primary_parse(ts, i + 1) {
                    Some((e, j)) => Some((ExprModel::Unary(op, Box::new(e)), j)),
                    None => None,
                },
                None => None,
            },
        }
    }
}

/// The parse of a match expression after `match` at token `k`: its value, `{`,
/// its arms and `}`.
pub open spec fn match_parse(ts: Seq<Token>, k: int) -> Option<(ExprModel, int)>
    decreases ts.len() - k, 7int,
{
    if !(0 <= k < ts.len()) {
        None
    } else {
        match match_operand_parse(ts, k, 5) {
            Some((v, c)) => if !(k < c < ts.len() && ts[c].kind is LeftBrace) {
                None
            } else {
                match arms_parse(ts, c + 1) {
                    Some((arms, d)) => if c < d < ts.len() {
                        Some((ExprModel::Match(Box::new(v), arms), d + 1))
                    } else {
                        None
                    },
                    None => None,
                }
            },
            None => None,
        }
    }
}

/// The arms of a match expression from token `k` on: each a pattern, `=>` and
/// an expression, optionally followed by a comma, up to `}`; with the position
/// of the `}`.
pub open spec fn arms_parse(ts: Seq<Token>, k: int) -> Option<
    (Seq<(PatternModel, ExprModel)>, int),
>
    decreases ts.len() - k, 15int,
{
    if !(0 <= k < ts.len()) || ts[k].kind is Eof {
        None
    } else if ts[k].kind is RightBrace {
        Some((Seq::empty(), k))
    } else {
        match pattern_parse(ts, k) {
            Some((p, j)) => if !(k < j && j + 1 < ts.len() && ts[j].kind is FatArrow) {
                None
            } else {
                match expression_parse(ts, j + 1) {
                    Some((e, m)) => if !(j + 1 < m && m + 1 < ts.len()) {
                        None
                    } else if ts[m].kind is Comma {
                        if ts[m + 1].kind is RightBrace {
                            Some((seq![(p, e)], m + 1))
                        } else {
                            match arms_parse(ts, m + 1) {
                                Some((rest, c)) => Some((seq![(p, e)] + rest, c)),
                                None => None,
                            }
                        }
                    } else {
                        match arms_parse(ts, m) {
                            Some((rest, c)) => Some((seq![(p, e)] + rest, c)),
                            None => None,
                        }
                    },
                    None => None,
                }
            },
            None => None,
        }
    }
}

/// The parse of a pattern at token `k`: `_`, a variable, an enum variant
/// pattern after an identifier and `::`, or a boolean, integer or string
/// literal.
pub open spec fn pattern_parse(ts: Seq<Token>, k: int) -> Option<(PatternModel, int)>
    decreases ts.len() - k, 1int,
{
    if !(0 <= k < ts.len()) {
        None
    } else {
        match lead_of(ts[k].kind) {
            Lead::Ident(name) => if name@ == "_"@ {
                Some((PatternModel::Wildcard, k + 1))
            } else if k + 1 < ts.len() && ts[k + 1].kind is DoubleColon {
                variant_pattern_parse(ts, k + 1, name)
            } else {
                Some((PatternModel::Variable(name), k + 1))
            },
            Lead::Bool(b) => Some((PatternModel::Lit(Literal::Boolean(b)), k + 1)),
            Lead::Int(n) => Some((PatternModel::Lit(Literal::Integer(n)), k + 1)),
            Lead::Str(t) => Some((PatternModel::Lit(Literal::String(t)), k + 1)),
            _ => None,
        }
    }
}

/// The parse of an enum variant pattern of `enum_name` from its `::` at token
/// `k`: the variant and optional patterns in round brackets.
pub open spec fn variant_pattern_parse(ts: Seq<Token>, k: int, enum_name: String) -> Option<
    (PatternModel, int),
>
    decreases ts.len() - k, 0int,
{
    if !(0 <= k && k + 2 < ts.len() && ts[k].kind is DoubleColon) {
        None
    } else {
        match ts[k + 1].kind {
            TokenKind::Identifier(variant) => if !(ts[k + 2].kind is LeftParen) {
                Some((PatternModel::EnumVariant(enum_name, variant, Seq::empty()), k + 2))
            } else if k + 3 < ts.len() && ts[k + 3].kind is RightParen {
                Some((PatternModel::EnumVariant(enum_name, variant, Seq::empty()), k + 4))
            } else {
                match pattern_list_from(ts, k + 3) {
                    Some((ps, c)) => if k < c < ts.len() {
                        Some((PatternModel::EnumVariant(enum_name, variant, ps), c + 1))
                    } else {
                        None
                    },
                    None => None,
                }
            },
            _ => None,
        }
    }
}

/// Patterns from token `k` on, split by commas and ended by `)`, with the
/// position of the `)`.
pub open spec fn pattern_list_from(ts: Seq<Token>, k: int) -> Option<(Seq<PatternModel>, int)>
    decreases ts.len() - k, 2int,
{
    if !(0 <= k < ts.len()) {
        None
    } else {
        match pattern_parse(ts, k) {
            Some((p, j)) => if !(k < j < ts.len()) {
                None
            } else if ts[j].kind is Comma {
                match pattern_list_from(ts, j + 1) {
                    Some((rest, c)) => Some((seq![p] + rest, c)),
                    None => None,
                }
            } else if ts[j].kind is RightParen {
                Some((seq![p], j))
            } else {
                None
            },
            None => None,
        }
    }
}

/// Whether an optional expression agrees with an optional model.
pub open spec fn option_agrees(e: Option<Expr>, m: Option<ExprModel>) -> bool
    decreases e, 1int,
{
    match (e, m) {
        (None, None) => true,
        (Some(x), Some(y)) => agrees(x, y),
        _ => false,
    }
}

/// Whether the token at `k` names a type: a built-in type or an identifier.
pub open spec fn type_name_at(ts: Seq<Token>, k: int) -> bool {
    0 <= k < ts.len() && (builtin_type_name(ts[k].kind) is Some || ts[k].kind is Identifier)
}

/// Whether `name` writes the type name at token `k`.
pub open spec fn type_name_is(ts: Seq<Token>, k: int, name: String) -> bool {
    match builtin_type_name(ts[k].kind) {
        Some(n) => name@ == n,
        None => ts[k].kind == TokenKind::Identifier(name),
    }
}

/// Where the name of a variable declaration after `let` at token `i` stands:
/// after an optional `mut`.
pub open spec fn var_name_at(ts: Seq<Token>, i: int) -> int {
    if ts[i].kind is Mut {
        i + 1
    } else {
        i
    }
}

/// Where a variable declaration after `let` at token `i` goes on after its name
/// and optional `:` and type.
pub open spec fn var_rest_at(ts: Seq<Token>, i: int) -> int {
    let n = var_name_at(ts, i);
    if ts[n + 1].kind is Colon {
        n + 3
    } else {
        n + 1
    }
}

/// Where a variable declaration after `let` at token `i` ends: an optional
/// `mut`, a name, an optional `:` and type, an optional `=` and expression, and
/// `;`.
pub open spec fn var_declaration_end(ts: Seq<Token>, i: int) -> Option<int>
    decreases ts.len() - i, 20int,
{
    if !(0 <= i && i + 1 < ts.len()) {
        None
    } else {
        let n = var_name_at(ts, i);
        let a = var_rest_at(ts, i);
        if !(n + 1 < ts.len() && ts[n].kind is Identifier) {
            None
        } else if ts[n + 1].kind is Colon && !type_name_at(ts, n + 2) {
            None
        } else if !(a < ts.len()) {
            None
        } else if ts[a].kind is Assign {
            match expression_parse(ts, a + 1) {
                Some((_, k)) => if a + 1 < k < ts.len() && ts[k].kind is Semicolon {
                    Some(k + 1)
                } else {
                    None
                },
                None => None,
            }
        } else if ts[a].kind is Semicolon {
            Some(a + 1)
        } else {
            None
        }
    }
}

/// The variable declaration that the tokens after `let` at `i` declare (see
/// [`var_declaration_end`]).
pub open spec fn var_declaration_tree(ts: Seq<Token>, i: int, s: Stmt) -> bool
    decreases s, 1int,
{
    let n = var_name_at(ts, i);
    let a = var_rest_at(ts, i);
    &&& s matches Stmt::VarDeclaration { name, type_annotation, initializer }
    &&& ts[n].kind == TokenKind::Identifier(name)
    &&& if ts[n + 1].kind is Colon {
        type_annotation matches Some(t) && t.is_mutable == ts[i].kind is Mut && type_name_is(
            ts,
            n + 2,
            t.name,
        )
    } else {
        type_annotation is None
    }
    &&& if ts[a].kind is Assign {
        initializer matches Some(x) && agrees(x, expression_parse(ts, a + 1)->Some_0.0)
    } else {
        initializer is None
    }
}

/// Where a return statement after `return` at token `i` ends: an optional
/// value and `;`.
pub open spec fn return_end(ts: Seq<Token>, i: int) -> Option<int>
    decreases ts.len() - i, 20int,
{
    if !(0 <= i < ts.len()) {
        None
    } else if ts[i].kind is Semicolon {
        Some(i + 1)
    } else {
        match expression_parse(ts, i) {
            Some((_, k)) => if i < k < ts.len() && ts[k].kind is Semicolon {
                Some(k + 1)
            } else {
                None
            },
            None => None,
        }
    }
}

/// The return statement after `return` at token `i`.
pub open spec fn return_tree(ts: Seq<Token>, i: int, s: Stmt) -> bool
    decreases s, 1int,
{
    if ts[i].kind is Semicolon {
        s == Stmt::Return(None)
    } else {
        s matches Stmt::Return(Some(x)) && agrees(x, expression_parse(ts, i)->Some_0.0)
    }
}

/// Where an expression statement at token `i` ends: an expression and `;`.
pub open spec fn expression_statement_end(ts: Seq<Token>, i: int) -> Option<int>
    decreases ts.len() - i, 20int,
{
    match expression_parse(ts, i) {
        Some((_, k)) => if i < k < ts.len() && ts[k].kind is Semicolon {
            Some(k + 1)
        } else {
            None
        },
        None => None,
    }
}

/// The end of the parameters of a function from token `k` on, each a name,
/// `:`, an optional `mut` and a type name, split by commas: the position of the
/// closing `)`.
pub open spec fn parameters_end(ts: Seq<Token>, k: int) -> Option<int>
    decreases ts.len() - k,
{
    if !(0 <= k && k + 2 < ts.len()) {
        None
    } else {
        let t = if ts[k + 2].kind is Mut {
            k + 3
        } else {
            k + 2
        };
        if !(ts[k].kind is Identifier && ts[k + 1].kind is Colon && type_name_at(ts, t) && t + 1
            < ts.len()) {
            None
        } else if ts[t + 1].kind is Comma {
            parameters_end(ts, t + 2)
        } else if ts[t + 1].kind is RightParen {
            Some(t + 1)
        } else {
            None
        }
    }
}

/// The parameters of a function from token `k` on (see [`parameters_end`]).
pub open spec fn parameters_tree(ts: Seq<Token>, k: int, ps: Seq<Parameter>) -> bool
    decreases ts.len() - k,
{
    if !(0 <= k && k + 2 < ts.len()) {
        false
    } else {
        let mutable = ts[k + 2].kind is Mut;
        let t = if mutable {
            k + 3
        } else {
            k + 2
        };
        &&& ps.len() > 0
        &&& ts[k].kind == TokenKind::Identifier(ps[0].name)
        &&& ps[0].type_annotation.is_mutable == mutable
        &&& type_name_is(ts, t, ps[0].type_annotation.name)
        &&& if t + 1 < ts.len() && ts[t + 1].kind is Comma {
            parameters_tree(ts, t + 2, ps.drop_first())
        } else {
            ps.len() == 1
        }
    }
}

/// The position of a function's `)` after its `(` at token `k`.
pub open spec fn parameter_list_end(ts: Seq<Token>, k: int) -> Option<int> {
    if 0 <= k < ts.len() && ts[k].kind is RightParen {
        Some(k)
    } else {
        parameters_end(ts, k)
    }
}

/// Where a function's return type from token `k` on ends: nothing, or `->`, an
/// optional `mut` and a type name or `()`.
pub open spec fn return_type_end(ts: Seq<Token>, k: int) -> Option<int> {
    if !(0 <= k < ts.len()) {
        None
    } else if !(ts[k].kind is Arrow) {
        Some(k)
    } else if !(k + 1 < ts.len()) {
        None
    } else {
        let t = if ts[k + 1].kind is Mut {
            k + 2
        } else {
            k + 1
        };
        if !(t + 1 < ts.len()) {
            None
        } else if ts[t].kind is LeftParen {
            if ts[t + 1].kind is RightParen {
                Some(t + 2)
            } else {
                None
            }
        } else if type_name_at(ts, t) {
            Some(t + 1)
        } else {
            None
        }
    }
}

/// The return type that the tokens from `k` on give (see [`return_type_end`]).
pub open spec fn return_type_tree(ts: Seq<Token>, k: int, r: Option<TypeAnnotation>) -> bool {
    if !(ts[k].kind is Arrow) {
        r is None
    } else {
        let mutable = ts[k + 1].kind is Mut;
        let t = if mutable {
            k + 2
        } else {
            k + 1
        };
        &&& r matches Some(a)
        &&& a.is_mutable == mutable
        &&& if ts[t].kind is LeftParen {
            a.name@ == "()"@
        } else {
            type_name_is(ts, t, a.name)
        }
    }
}

/// Where a function declaration after `func` at token `i` ends: a name,
/// parameters in round brackets, a return type and a block.
pub open spec fn function_end(ts: Seq<Token>, i: int) -> Option<int>
    decreases ts.len() - i, 24int,
{
    if !(0 <= i && i + 2 < ts.len() && ts[i].kind is Identifier && ts[i + 1].kind is LeftParen) {
        None
    } else {
        match parameter_list_end(ts, i + 2) {
            Some(c) => match return_type_end(ts, c + 1) {
                Some(b) => if i < b < ts.len() && ts[b].kind is LeftBrace {
                    block_end(ts, b + 1)
                } else {
                    None
                },
                None => None,
            },
            None => None,
        }
    }
}

/// Where the declarations of a block from token `i` on, up to its `}`, end: after
/// the `}`.
pub open spec fn block_end(ts: Seq<Token>, i: int) -> Option<int>
    decreases ts.len() - i, 23int,
{
    if !(0 <= i < ts.len()) {
        None
    } else if ts[i].kind is RightBrace {
        Some(i + 1)
    } else if ts[i].kind is Eof {
        None
    } else {
        match declaration_end(ts, i) {
            Some(j) => if i < j < ts.len() {
                block_end(ts, j)
            } else {
                None
            },
            None => None,
        }
    }
}

/// Where a statement that `statement` parses at token `i` ends: a declaration
/// (see [`declaration_end`]) other than a function, struct, enum or variable
/// declaration.
pub open spec fn statement_end(ts: Seq<Token>, i: int) -> Option<int>
    decreases ts.len() - i, 23int,
{
    if !(0 <= i < ts.len()) || ts[i].kind is Func || ts[i].kind is Let || ts[i].kind is Struct
        || ts[i].kind is Enum {
        None
    } else {
        declaration_end(ts, i)
    }
}

/// Where the condition in round brackets from token `i` on ends: after its `)`.
pub open spec fn condition_end(ts: Seq<Token>, i: int) -> Option<int>
    decreases ts.len() - i, 20int,
{
    if !(0 <= i < ts.len() && ts[i].kind is LeftParen) {
        None
    } else {
        match expression_parse(ts, i + 1) {
            Some((_, k)) => if i + 1 < k < ts.len() && ts[k].kind is RightParen {
                Some(k + 1)
            } else {
                None
            },
            None => None,
        }
    }
}

/// Where an if statement after `if` at token `i` ends: a condition in round
/// brackets, a statement, and an optional `else` and statement.
pub open spec fn if_end(ts: Seq<Token>, i: int) -> Option<int>
    decreases ts.len() - i, 24int,
{
    match condition_end(ts, i) {
        Some(k) => if !(i < k < ts.len()) {
            None
        } else {
            match statement_end(ts, k) {
                Some(m) => if !(k < m < ts.len()) {
                    None
                } else if ts[m].kind is Else {
                    statement_end(ts, m + 1)
                } else {
                    Some(m)
                },
                None => None,
            }
        },
        None => None,
    }
}

/// Where a while statement after `while` at token `i` ends: a condition in
/// round brackets and a statement.
pub open spec fn while_end(ts: Seq<Token>, i: int) -> Option<int>
    decreases ts.len() - i, 24int,
{
    match condition_end(ts, i) {
        Some(k) => if i < k < ts.len() {
            statement_end(ts, k)
        } else {
            None
        },
        None => None,
    }
}

/// The if statement after `if` at token `i` (see [`if_end`]).
pub open spec fn if_tree(ts: Seq<Token>, i: int, s: Stmt) -> bool
    decreases s, 1int,
{
    let k = condition_end(ts, i)->Some_0;
    let m = statement_end(ts, k)->Some_0;
    &&& i < k < m < ts.len()
    &&& s matches Stmt::If { condition, then_branch, else_branch }
    &&& agrees(condition, expression_parse(ts, i + 1)->Some_0.0)
    &&& declaration_tree(ts, k, *then_branch)
    &&& if ts[m].kind is Else {
        else_branch matches Some(b) && declaration_tree(ts, m + 1, *b)
    } else {
        else_branch is None
    }
}

/// The while statement after `while` at token `i` (see [`while_end`]).
pub open spec fn while_tree(ts: Seq<Token>, i: int, s: Stmt) -> bool
    decreases s, 1int,
{
    let k = condition_end(ts, i)->Some_0;
    &&& i < k < ts.len()
    &&& s matches Stmt::While { condition, body }
    &&& agrees(condition, expression_parse(ts, i + 1)->Some_0.0)
    &&& declaration_tree(ts, k, *body)
}

/// The position of the `}` that closes the fields of a struct from token `k` on:
/// each a name, `:` and a type name, split by commas, a trailing one allowed.
pub open spec fn fields_end(ts: Seq<Token>, k: int) -> Option<int>
    decreases ts.len() - k,
{
    if !(0 <= k && k + 3 < ts.len()) {
        None
    } else if !(ts[k].kind is Identifier && ts[k + 1].kind is Colon && type_name_at(ts, k + 2)) {
        None
    } else if ts[k + 3].kind is Comma {
        if k + 4 < ts.len() && ts[k + 4].kind is RightBrace {
            Some(k + 4)
        } else {
            fields_end(ts, k + 4)
        }
    } else if ts[k + 3].kind is RightBrace {
        Some(k + 3)
    } else {
        None
    }
}

/// The fields of a struct from token `k` on (see [`fields_end`]).
pub open spec fn fields_tree(ts: Seq<Token>, k: int, fs: Seq<StructField>) -> bool
    decreases ts.len() - k,
{
    if !(0 <= k && k + 3 < ts.len()) {
        false
    } else {
        &&& fs.len() > 0
        &&& ts[k].kind == TokenKind::Identifier(fs[0].name)
        &&& !fs[0].type_annotation.is_mutable
        &&& type_name_is(ts, k + 2, fs[0].type_annotation.name)
        &&& if ts[k + 3].kind is Comma && !(k + 4 < ts.len() && ts[k + 4].kind is RightBrace) {
            fields_tree(ts, k + 4, fs.drop_first())
        } else {
            fs.len() == 1
        }
    }
}

/// Where a struct declaration after `struct` at token `i` ends: a name and its
/// fields in braces.
pub open spec fn struct_end(ts: Seq<Token>, i: int) -> Option<int> {
    if !(0 <= i && i + 2 < ts.len() && ts[i].kind is Identifier && ts[i + 1].kind is LeftBrace) {
        None
    } else if ts[i + 2].kind is RightBrace {
        Some(i + 3)
    } else {
        match fields_end(ts, i + 2) {
            Some(c) => Some(c + 1),
            None => None,
        }
    }
}

/// The struct declaration after `struct` at token `i` (see [`struct_end`]).
pub open spec fn struct_tree(ts: Seq<Token>, i: int, s: Stmt) -> bool {
    &&& s matches Stmt::StructDeclaration { name, fields }
    &&& ts[i].kind == TokenKind::Identifier(name)
    &&& if ts[i + 2].kind is RightBrace {
        fields@.len() == 0
    } else {
        fields_tree(ts, i + 2, fields@)
    }
}

/// Where the initializer of a C-style for loop at token `a` ends: a lone `;`, a
/// variable declaration or an expression statement.
pub open spec fn for_initializer_end(ts: Seq<Token>, a: int) -> Option<int>
    decreases ts.len() - a, 21int,
{
    if !(0 <= a < ts.len()) {
        None
    } else if ts[a].kind is Semicolon {
        Some(a + 1)
    } else if ts[a].kind is Let {
        var_declaration_end(ts, a + 1)
    } else {
        expression_statement_end(ts, a)
    }
}

/// Where an optional expression of a C-style for loop at token `b` ends: at `b`
/// itself before the token of kind `stop`, else after the expression.
pub open spec fn for_clause_end(ts: Seq<Token>, b: int, stop: TokenKind) -> Option<int>
    decreases ts.len() - b, 20int,
{
    if !(0 <= b < ts.len()) {
        None
    } else if ts[b].kind == stop {
        Some(b)
    } else {
        match expression_parse(ts, b) {
            Some((_, k)) => Some(k),
            None => None,
        }
    }
}

/// The optional expression of a C-style for loop at token `b` (see
/// [`for_clause_end`]).
pub open spec fn for_clause(ts: Seq<Token>, b: int, stop: TokenKind) -> Option<ExprModel> {
    if ts[b].kind == stop {
        None
    } else {
        Some(expression_parse(ts, b)->Some_0.0)
    }
}

/// Where a for statement after `for` at token `i` ends: a variable, `in`, an
/// expression and a statement; or, in round brackets, an initializer, an
/// optional condition, `;` and an optional increment, and then a statement.
pub open spec fn for_end(ts: Seq<Token>, i: int) -> Option<int>
    decreases ts.len() - i, 24int,
{
    if !(0 <= i && i + 1 < ts.len()) {
        None
    } else if ts[i].kind is Identifier && ts[i + 1].kind is In {
        match expression_parse(ts, i + 2) {
            Some((_, k)) => if i + 2 < k < ts.len() {
                statement_end(ts, k)
            } else {
                None
            },
            None => None,
        }
    } else if !(ts[i].kind is LeftParen) {
        None
    } else {
        match for_initializer_end(ts, i + 1) {
            Some(b) => if !(i < b < ts.len()) {
                None
            } else {
                match for_clause_end(ts, b, TokenKind::Semicolon) {
                    Some(c) => if !(i < b <= c && c + 1 < ts.len() && ts[c].kind is Semicolon) {
                        None
                    } else {
                        match for_clause_end(ts, c + 1, TokenKind::RightParen) {
                            Some(d) => if c < d < ts.len() && ts[d].kind is RightParen {
                                statement_end(ts, d + 1)
                            } else {
                                None
                            },
                            None => None,
                        }
                    },
                    None => None,
                }
            },
            None => None,
        }
    }
}

/// The for statement after `for` at token `i` (see [`for_end`]).
#[verifier::rlimit(50)]
pub open spec fn for_tree(ts: Seq<Token>, i: int, s: Stmt) -> bool
    decreases s, 1int,
{
    if !(0 <= i && i + 1 < ts.len()) {
        false
    } else if ts[i].kind is Identifier && ts[i + 1].kind is In {
        let k = expression_parse(ts, i + 2)->Some_0.1;
        &&& i < k < ts.len()
        &&& s matches Stmt::ForIn { variable, iterable, body }
        &&& ts[i].kind == TokenKind::Identifier(variable)
        &&& agrees(iterable, expression_parse(ts, i + 2)->Some_0.0)
        &&& declaration_tree(ts, k, *body)
    } else {
        let a = i + 1;
        let b = for_initializer_end(ts, a)->Some_0;
        let c = for_clause_end(ts, b, TokenKind::Semicolon)->Some_0;
        let d = for_clause_end(ts, c + 1, TokenKind::RightParen)->Some_0;
        &&& i < d < ts.len()
        &&& s matches Stmt::For { initializer, condition, increment, body }
        &&& if ts[a].kind is Semicolon {
            initializer is None
        } else if ts[a].kind is Let {
            initializer matches Some(x) && var_declaration_tree(ts, a + 1, *x)
        } else {
            initializer matches Some(x) && *x matches Stmt::Expression(y) && agrees(
                y,
                expression_parse(ts, a)->Some_0.0,
            )
        }
        &&& option_agrees(condition, for_clause(ts, b, TokenKind::Semicolon))
        &&& option_agrees(increment, for_clause(ts, c + 1, TokenKind::RightParen))
        &&& declaration_tree(ts, d + 1, *body)
    }
}

/// The position of the `)` that closes the types a variant carries from token
/// `t` on: type names split by commas.
pub open spec fn variant_types_end(ts: Seq<Token>, t: int) -> Option<int>
    decreases ts.len() - t,
{
    if !(0 <= t && t + 1 < ts.len() && type_name_at(ts, t)) {
        None
    } else if ts[t + 1].kind is Comma {
        variant_types_end(ts, t + 2)
    } else if ts[t + 1].kind is RightParen {
        Some(t + 1)
    } else {
        None
    }
}

/// The types a variant carries from token `t` on (see [`variant_types_end`]).
pub open spec fn variant_types_tree(ts: Seq<Token>, t: int, d: Seq<TypeAnnotation>) -> bool
    decreases ts.len() - t,
{
    if !(0 <= t && t + 1 < ts.len()) {
        false
    } else {
        &&& d.len() > 0
        &&& !d[0].is_mutable
        &&& type_name_is(ts, t, d[0].name)
        &&& if ts[t + 1].kind is Comma {
            variant_types_tree(ts, t + 2, d.drop_first())
        } else {
            d.len() == 1
        }
    }
}

/// Where a variant at token `k` ends: a name and optionally the types it
/// carries in round brackets.
pub open spec fn variant_end(ts: Seq<Token>, k: int) -> Option<int> {
    if !(0 <= k && k + 2 < ts.len() && ts[k].kind is Identifier) {
        None
    } else if !(ts[k + 1].kind is LeftParen) {
        Some(k + 1)
    } else if ts[k + 2].kind is RightParen {
        Some(k + 3)
    } else {
        match variant_types_end(ts, k + 2) {
            Some(c) => Some(c + 1),
            None => None,
        }
    }
}

/// The variant at token `k` (see [`variant_end`]).
pub open spec fn variant_tree(ts: Seq<Token>, k: int, v: EnumVariant) -> bool {
    &&& ts[k].kind == TokenKind::Identifier(v.name)
    &&& if ts[k + 1].kind is LeftParen {
        v.data matches Some(d) && if ts[k + 2].kind is RightParen {
            d@.len() == 0
        } else {
            variant_types_tree(ts, k + 2, d@)
        }
    } else {
        v.data is None
    }
}

/// The position of the `}` that closes the variants of an enum from token `k`
/// on, split by commas, a trailing one allowed.
pub open spec fn variants_end(ts: Seq<Token>, k: int) -> Option<int>
    decreases ts.len() - k,
{
    match variant_end(ts, k) {
        Some(v) => if !(k < v && v + 1 < ts.len()) {
            None
        } else if ts[v].kind is Comma {
            if ts[v + 1].kind is RightBrace {
                Some(v + 1)
            } else {
                variants_end(ts, v + 1)
            }
        } else if ts[v].kind is RightBrace {
            Some(v)
        } else {
            None
        },
        None => None,
    }
}

/// The variants of an enum from token `k` on (see [`variants_end`]).
pub open spec fn variants_tree(ts: Seq<Token>, k: int, vs: Seq<EnumVariant>) -> bool
    decreases ts.len() - k,
{
    let v = variant_end(ts, k)->Some_0;
    if !(0 <= k < v && v + 1 < ts.len()) {
        false
    } else {
        &&& vs.len() > 0
        &&& variant_tree(ts, k, vs[0])
        &&& if ts[v].kind is Comma && !(ts[v + 1].kind is RightBrace) {
            variants_tree(ts, v + 1, vs.drop_first())
        } else {
            vs.len() == 1
        }
    }
}

/// Where an enum declaration after `enum` at token `i` ends: a name and its
/// variants in braces.
pub open spec fn enum_end(ts: Seq<Token>, i: int) -> Option<int> {
    if !(0 <= i && i + 2 < ts.len() && ts[i].kind is Identifier && ts[i + 1].kind is LeftBrace) {
        None
    } else if ts[i + 2].kind is RightBrace {
        Some(i + 3)
    } else {
        match variants_end(ts, i + 2) {
            Some(c) => Some(c + 1),
            None => None,
        }
    }
}

/// The enum declaration after `enum` at token `i` (see [`enum_end`]).
pub open spec fn enum_tree(ts: Seq<Token>, i: int, s: Stmt) -> bool {
    &&& s matches Stmt::EnumDeclaration { name, variants }
    &&& ts[i].kind == TokenKind::Identifier(name)
    &&& if ts[i + 2].kind is RightBrace {
        variants@.len() == 0
    } else {
        variants_tree(ts, i + 2, variants@)
    }
}

/// Where the declaration at token `i` ends. Stated for function, struct, enum
/// and variable declarations, return, if, while and for statements, blocks and
/// expression statements built from the expressions that [`expression_parse`]
/// states; `None` for errors and for declarations with other expressions.
pub open spec fn declaration_end(ts: Seq<Token>, i: int) -> Option<int>
    decreases ts.len() - i, 22int,
{
    if !(0 <= i < ts.len()) {
        None
    } else {
        match ts[i].kind {
            TokenKind::Func => function_end(ts, i + 1),
            TokenKind::Let => var_declaration_end(ts, i + 1),
            TokenKind::Return => return_end(ts, i + 1),
            TokenKind::LeftBrace => block_end(ts, i + 1),
            TokenKind::If => if_end(ts, i + 1),
            TokenKind::While => while_end(ts, i + 1),
            TokenKind::Struct => struct_end(ts, i + 1),
            TokenKind::For => for_end(ts, i + 1),
            TokenKind::Enum => enum_end(ts, i + 1),
            _ => expression_statement_end(ts, i),
        }
    }
}

/// The function declaration that the tokens after `func` at `i` declare (see
/// [`function_end`]).
pub open spec fn function_tree(ts: Seq<Token>, i: int, s: Stmt) -> bool
    decreases s, 1int,
{
    if !(0 <= i && i + 2 < ts.len()) {
        false
    } else {
        let c = parameter_list_end(ts, i + 2)->Some_0;
        let b = return_type_end(ts, c + 1)->Some_0;
        &&& s matches Stmt::FunctionDeclaration { name, params, return_type, body, attributes }
        &&& ts[i].kind == TokenKind::Identifier(name)
        &&& if ts[i + 2].kind is RightParen {
            params@.len() == 0
        } else {
            parameters_tree(ts, i + 2, params@)
        }
        &&& return_type_tree(ts, c + 1, return_type)
        &&& attributes@.len() == 0
        &&& i < b < ts.len()
        &&& *body matches Stmt::Block(statements)
        &&& block_tree(ts, b + 1, statements@)
    }
}

/// The declarations of a block from token `i` on, up to its `}` (see
/// [`block_end`]).
pub open spec fn block_tree(ts: Seq<Token>, i: int, ss: Seq<Stmt>) -> bool
    decreases ss, 1int,
{
    if !(0 <= i < ts.len()) {
        false
    } else if ts[i].kind is RightBrace {
        ss.len() == 0
    } else {
        match declaration_end(ts, i) {
            Some(j) => i < j < ts.len() && ss.len() > 0 && declaration_tree(ts, i, ss[0])
                && block_tree(ts, j, ss.drop_first()),
            None => false,
        }
    }
}

/// The declaration at token `i` (see [`declaration_end`]): its tree, exactly
/// but for the text of built-in type names, which is given by its characters.
pub open spec fn declaration_tree(ts: Seq<Token>, i: int, s: Stmt) -> bool
    decreases s, 2int,
{
    if !(0 <= i < ts.len()) {
        false
    } else {
        match ts[i].kind {
            TokenKind::Func => function_tree(ts, i + 1, s),
            TokenKind::Let => var_declaration_tree(ts, i + 1, s),
            TokenKind::Return => return_tree(ts, i + 1, s),
            TokenKind::LeftBrace => s matches Stmt::Block(v) && block_tree(ts, i + 1, v@),
            TokenKind::Struct => struct_tree(ts, i + 1, s),
            TokenKind::Enum => enum_tree(ts, i + 1, s),
            TokenKind::If => if_tree(ts, i + 1, s),
            TokenKind::While => while_tree(ts, i + 1, s),
            TokenKind::For => for_tree(ts, i + 1, s),
            _ => s matches Stmt::Expression(x) && agrees(x, expression_parse(ts, i)->Some_0.0),
        }
    }
}

/// A declaration followed by the rest of a block's declarations: the block's
/// declarations from the first are that declaration and the rest.
#[verifier::rlimit(50)]
proof fn lemma_block_tree_step(ts: Seq<Token>, at: int, j: int, s: Stmt, ss: Seq<Stmt>)
    requires
        0 <= at < ts.len(),
        !(ts[at].kind is RightBrace),
        declaration_end(ts, at) == Some(j),
        at < j < ts.len(),
        declaration_tree(ts, at, s),
        block_tree(ts, j, ss),
    ensures
        block_tree(ts, at, seq![s] + ss),
{
    let longer = seq![s] + ss;
    assert(longer[0] == s);
    assert(longer.drop_first() =~= ss);
}

/// Whether the declarations from token `i` on parse up to the end of input.
pub open spec fn program_end(ts: Seq<Token>, i: int) -> bool
    decreases ts.len() - i,
{
    if !(0 <= i < ts.len()) {
        false
    } else if ts[i].kind is Eof {
        true
    } else {
        match declaration_end(ts, i) {
            Some(j) => i < j < ts.len() && program_end(ts, j),
            None => false,
        }
    }
}

/// The number of declarations from token `i` on up to the end of input.
pub open spec fn program_count(ts: Seq<Token>, i: int) -> nat
    decreases ts.len() - i,
{
    if !(0 <= i < ts.len()) || ts[i].kind is Eof {
        0
    } else {
        match declaration_end(ts, i) {
            Some(j) => if i < j < ts.len() {
                1 + program_count(ts, j)
            } else {
                0
            },
            None => 0,
        }
    }
}

/// The declarations from token `i` on up to the end of input (see
/// [`program_end`]).
pub open spec fn program_tree(ts: Seq<Token>, i: int, ss: Seq<Stmt>) -> bool
    decreases ts.len() - i,
{
    if !(0 <= i < ts.len()) {
        false
    } else if ts[i].kind is Eof {
        ss.len() == 0
    } else {
        match declaration_end(ts, i) {
            Some(j) => i < j < ts.len() && ss.len() > 0 && declaration_tree(ts, i, ss[0])
                && program_tree(ts, j, ss.drop_first()),
            None => false,
        }
    }
}

/// Whether an error is the one that ends a program's parsing after the most
/// rounds.
pub open spec fn is_round_limit_error(e: CompileError) -> bool {
    e matches CompileError::ParseError { message, .. } && message@
        == "Infinite loop detected in parser"@
}

impl Parser {
    /// Parses an expression: a match expression or an assignment.
    pub fn parse(&mut self) -> (r: Result<Expr, CompileError>)
        requires
            old(self).wf(),
        ensures
            old(self).kept_on(*final(self)),
            r is Ok ==> old(self).pos() < final(self).pos(),
            r matches Ok(e) ==> binding_level(e) <= 10 && well_bracketed(e),
            starts_no_expression(old(self).peek_token().kind) ==> no_expression_error(
                *old(self),
                *final(self),
                r,
            ),
            lone_operand(*old(self)) matches Some(e) ==> r == Ok::<Expr, CompileError>(e) && final(self).pos() == old(self).pos() + 1,
            expression_parse(old(self).token_seq(), old(self).pos() as int) matches Some((m, j)) ==> (r matches Ok(x) && agrees(x, m)) && final(self).pos() == j,
    {
        self.expression()
    }

    /// Parses an expression: a match expression or an assignment.
    pub fn expression(&mut self) -> (r: Result<Expr, CompileError>)
        requires
            old(self).wf(),
        ensures
            old(self).kept_on(*final(self)),
            r is Ok ==> old(self).pos() < final(self).pos(),
            r matches Ok(e) ==> binding_level(e) <= 10 && well_bracketed(e),
            starts_no_expression(old(self).peek_token().kind) ==> no_expression_error(
                *old(self),
                *final(self),
                r,
            ),
            lone_operand(*old(self)) matches Some(e) ==> r == Ok::<Expr, CompileError>(e) && final(self).pos() == old(self).pos() + 1,
            expression_parse(old(self).token_seq(), old(self).pos() as int) matches Some((m, j)) ==> (r matches Ok(x) && agrees(x, m)) && final(self).pos() == j,
        decreases old(self).token_seq().len() - old(self).pos(), 15int,
    {
        self.match_expression()
    }

    /// Parses a match expression, or else an assignment.
    fn match_expression(&mut self) -> (r: Result<Expr, CompileError>)
        requires
            old(self).wf(),
        ensures
            old(self).kept_on(*final(self)),
            r is Ok ==> old(self).pos() < final(self).pos(),
            r matches Ok(e) ==> binding_level(e) <= 10 && well_bracketed(e),
            old(self).peek_token().kind is Match ==> (r matches Ok(e) ==> e is Match),
            starts_no_expression(old(self).peek_token().kind) ==> no_expression_error(
                *old(self),
                *final(self),
                r,
            ),
            lone_operand(*old(self)) matches Some(e) ==> r == Ok::<Expr, CompileError>(e) && final(self).pos() == old(self).pos() + 1,
            expression_parse(old(self).token_seq(), old(self).pos() as int) matches Some((m, j)) ==> (r matches Ok(x) && agrees(x, m)) && final(self).pos() == j,
        decreases old(self).token_seq().len() - old(self).pos(), 14int,
    {
        if self.check(&TokenKind::Match) {
            self.advance();
            return self.parse_match_expression();
        }
        self.assignment()
    }

    /// Parses an assignment: a logical-or expression, or a variable, an
    /// assignment operator and an assignment (to the right).
    fn assignment(&mut self) -> (r: Result<Expr, CompileError>)
        requires
            old(self).wf(),
        ensures
            old(self).kept_on(*final(self)),
            r is Ok ==> old(self).pos() < final(self).pos(),
            r matches Ok(e) ==> binding_level(e) <= 10 && well_bracketed(e),
            starts_no_expression(old(self).peek_token().kind) ==> no_expression_error(
                *old(self),
                *final(self),
                r,
            ),
            lone_operand(*old(self)) matches Some(e) ==> r == Ok::<Expr, CompileError>(e) && final(self).pos() == old(self).pos() + 1,
            assignment_parse(old(self).token_seq(), old(self).pos() as int) matches Some((m, j)) ==> (r matches Ok(x) && agrees(x, m)) && final(self).pos() == j,
        decreases old(self).token_seq().len() - old(self).pos(), 13int,
    {
        let expr = self.logical_or()?;
        let found = assignment_operator_of(&self.peek().kind);
        match found {
            None => Ok(expr),
            Some(op) => {
                let position = self.peek().position;
                self.advance();
                let value = self.assignment()?;
                match expr {
                    Expr::Variable(name) => Ok(
                        Expr::Binary(Box::new(Expr::Variable(name)), op, Box::new(value)),
                    ),
                    _ => Err(
                        CompileError::parse_error(
                            "Invalid assignment target".to_owned(),
                            position,
                        ),
                    ),
                }
            },
        }
    }

    /// Parses `||` operations over logical-and expressions, from the left.
    fn logical_or(&mut self) -> (r: Result<Expr, CompileError>)
        requires
            old(self).wf(),
        ensures
            old(self).kept_on(*final(self)),
            r is Ok ==> old(self).pos() < final(self).pos(),
            r matches Ok(e) ==> binding_level(e) <= 9 && well_bracketed(e),
            starts_no_expression(old(self).peek_token().kind) ==> no_expression_error(
                *old(self),
                *final(self),
                r,
            ),
            lone_operand(*old(self)) matches Some(e) ==> r == Ok::<Expr, CompileError>(e) && final(self).pos() == old(self).pos() + 1,
            operand_parse(old(self).token_seq(), old(self).pos() as int, 9) matches Some((m, j)) ==> (r matches Ok(x) && agrees(x, m)) && final(self).pos() == j,
        decreases old(self).token_seq().len() - old(self).pos(), 12int,
    {
        let mut expr = self.logical_and()?;
        let ghost mut m = operand_parse(old(self).token_seq(), old(self).pos() as int, 8)->Some_0.0;
        while self.check(&TokenKind::Or)
            invariant
                operand_parse(old(self).token_seq(), old(self).pos() as int, 9) is Some ==> agrees(expr, m),
                operand_parse(old(self).token_seq(), old(self).pos() as int, 9) is Some ==> chain_parse(self.token_seq(), self.pos() as int, 9, m)
                    == operand_parse(old(self).token_seq(), old(self).pos() as int, 9),
                old(self).kept_on(*self),
                lone_operand(*old(self)) matches Some(x) ==> expr == x && self.pos() == old(self).pos() + 1,
                old(self).pos() < self.pos(),
                !starts_no_expression(old(self).peek_token().kind),
                binding_level(expr) <= 9,
                well_bracketed(expr),
            decreases self.token_seq().len() - self.pos(),
        {
            let ghost at = self.pos() as int;
            let position = self.peek().position;
            self.advance();
            let right = self.logical_and()?;
            proof {
                lemma_joined_well_bracketed(expr, Operator::Plain(BinaryOp::Or), right, position, 9);
            }
            proof {
                if operand_parse(old(self).token_seq(), old(self).pos() as int, 9) is Some {
                    let rm = operand_parse(self.token_seq(), at + 1, 8)->Some_0.0;
                    lemma_join_agrees(expr, m, Operator::Plain(BinaryOp::Or), right, rm, position);
                    m = joined_model(m, Operator::Plain(BinaryOp::Or), rm, position);
                }
            }
            expr = join(expr, Operator::Plain(BinaryOp::Or), right, position);
        }
        Ok(expr)
    }

    /// Parses `&&` operations over SIMD-or expressions, from the left.
    fn logical_and(&mut self) -> (r: Result<Expr, CompileError>)
        requires
            old(self).wf(),
        ensures
            old(self).kept_on(*final(self)),
            r is Ok ==> old(self).pos() < final(self).pos(),
            r matches Ok(e) ==> binding_level(e) <= 8 && well_bracketed(e),
            starts_no_expression(old(self).peek_token().kind) ==> no_expression_error(
                *old(self),
                *final(self),
                r,
            ),
            lone_operand(*old(self)) matches Some(e) ==> r == Ok::<Expr, CompileError>(e) && final(self).pos() == old(self).pos() + 1,
            operand_parse(old(self).token_seq(), old(self).pos() as int, 8) matches Some((m, j)) ==> (r matches Ok(x) && agrees(x, m)) && final(self).pos() == j,
        decreases old(self).token_seq().len() - old(self).pos(), 11int,
    {
        let mut expr = self.simd_or()?;
        let ghost mut m = operand_parse(old(self).token_seq(), old(self).pos() as int, 7)->Some_0.0;
        while self.check(&TokenKind::And)
            invariant
                operand_parse(old(self).token_seq(), old(self).pos() as int, 8) is Some ==> agrees(expr, m),
                operand_parse(old(self).token_seq(), old(self).pos() as int, 8) is Some ==> chain_parse(self.token_seq(), self.pos() as int, 8, m)
                    == operand_parse(old(self).token_seq(), old(self).pos() as int, 8),
                old(self).kept_on(*self),
                lone_operand(*old(self)) matches Some(x) ==> expr == x && self.pos() == old(self).pos() + 1,
                old(self).pos() < self.pos(),
                !starts_no_expression(old(self).peek_token().kind),
                binding_level(expr) <= 8,
                well_bracketed(expr),
            decreases self.token_seq().len() - self.pos(),
        {
            let ghost at = self.pos() as int;
            let position = self.peek().position;
            self.advance();
            let right = self.simd_or()?;
            proof {
                lemma_joined_well_bracketed(expr, Operator::Plain(BinaryOp::And), right, position, 8);
            }
            proof {
                if operand_parse(old(self).token_seq(), old(self).pos() as int, 8) is Some {
                    let rm = operand_parse(self.token_seq(), at + 1, 7)->Some_0.0;
                    lemma_join_agrees(expr, m, Operator::Plain(BinaryOp::And), right, rm, position);
                    m = joined_model(m, Operator::Plain(BinaryOp::And), rm, position);
                }
            }
            expr = join(expr, Operator::Plain(BinaryOp::And), right, position);
        }
        Ok(expr)
    }

    /// Parses `.|` operations over SIMD-xor expressions, from the left; each
    /// records the position of the token before the next operator.
    fn simd_or(&mut self) -> (r: Result<Expr, CompileError>)
        requires
            old(self).wf(),
        ensures
            old(self).kept_on(*final(self)),
            r is Ok ==> old(self).pos() < final(self).pos(),
            r matches Ok(e) ==> binding_level(e) <= 7 && well_bracketed(e),
            starts_no_expression(old(self).peek_token().kind) ==> no_expression_error(
                *old(self),
                *final(self),
                r,
            ),
            lone_operand(*old(self)) matches Some(e) ==> r == Ok::<Expr, CompileError>(e) && final(self).pos() == old(self).pos() + 1,
            operand_parse(old(self).token_seq(), old(self).pos() as int, 7) matches Some((m, j)) ==> (r matches Ok(x) && agrees(x, m)) && final(self).pos() == j,
        decreases old(self).token_seq().len() - old(self).pos(), 10int,
    {
        let mut expr = self.simd_xor()?;
        let ghost mut m = operand_parse(old(self).token_seq(), old(self).pos() as int, 6)->Some_0.0;
        while self.check(&TokenKind::DotOr)
            invariant
                operand_parse(old(self).token_seq(), old(self).pos() as int, 7) is Some ==> agrees(expr, m),
                operand_parse(old(self).token_seq(), old(self).pos() as int, 7) is Some ==> chain_parse(self.token_seq(), self.pos() as int, 7, m)
                    == operand_parse(old(self).token_seq(), old(self).pos() as int, 7),
                old(self).kept_on(*self),
                lone_operand(*old(self)) matches Some(x) ==> expr == x && self.pos() == old(self).pos() + 1,
                old(self).pos() < self.pos(),
                !starts_no_expression(old(self).peek_token().kind),
                binding_level(expr) <= 7,
                well_bracketed(expr),
            decreases self.token_seq().len() - self.pos(),
        {
            let ghost at = self.pos() as int;
            self.advance();
            let right = self.simd_xor()?;
            let position = self.previous().position;
            let op = Operator::Lanes(SIMDOperator::DotOr);
            proof {
                lemma_joined_well_bracketed(expr, op, right, position, 7);
            }
            proof {
                if operand_parse(old(self).token_seq(), old(self).pos() as int, 7) is Some {
                    let rm = operand_parse(self.token_seq(), at + 1, 6)->Some_0.0;
                    lemma_join_agrees(expr, m, op, right, rm, position);
                    m = joined_model(m, op, rm, position);
                }
            }
            expr = join(expr, op, right, position);
        }
        Ok(expr)
    }

    /// Parses `.^` operations over SIMD-and expressions, from the left.
    fn simd_xor(&mut self) -> (r: Result<Expr, CompileError>)
        requires
            old(self).wf(),
        ensures
            old(self).kept_on(*final(self)),
            r is Ok ==> old(self).pos() < final(self).pos(),
            r matches Ok(e) ==> binding_level(e) <= 6 && well_bracketed(e),
            starts_no_expression(old(self).peek_token().kind) ==> no_expression_error(
                *old(self),
                *final(self),
                r,
            ),
            lone_operand(*old(self)) matches Some(e) ==> r == Ok::<Expr, CompileError>(e) && final(self).pos() == old(self).pos() + 1,
            operand_parse(old(self).token_seq(), old(self).pos() as int, 6) matches Some((m, j)) ==> (r matches Ok(x) && agrees(x, m)) && final(self).pos() == j,
        decreases old(self).token_seq().len() - old(self).pos(), 9int,
    {
        let mut expr = self.simd_and()?;
        let ghost mut m = operand_parse(old(self).token_seq(), old(self).pos() as int, 5)->Some_0.0;
        while self.check(&TokenKind::DotXor)
            invariant
                operand_parse(old(self).token_seq(), old(self).pos() as int, 6) is Some ==> agrees(expr, m),
                operand_parse(old(self).token_seq(), old(self).pos() as int, 6) is Some ==> chain_parse(self.token_seq(), self.pos() as int, 6, m)
                    == operand_parse(old(self).token_seq(), old(self).pos() as int, 6),
                old(self).kept_on(*self),
                lone_operand(*old(self)) matches Some(x) ==> expr == x && self.pos() == old(self).pos() + 1,
                old(self).pos() < self.pos(),
                !starts_no_expression(old(self).peek_token().kind),
                binding_level(expr) <= 6,
                well_bracketed(expr),
            decreases self.token_seq().len() - self.pos(),
        {
            let ghost at = self.pos() as int;
            self.advance();
            let right = self.simd_and()?;
            let position = self.previous().position;
            let op = Operator::Lanes(SIMDOperator::DotXor);
            proof {
                lemma_joined_well_bracketed(expr, op, right, position, 6);
            }
            proof {
                if operand_parse(old(self).token_seq(), old(self).pos() as int, 6) is Some {
                    let rm = operand_parse(self.token_seq(), at + 1, 5)->Some_0.0;
                    lemma_join_agrees(expr, m, op, right, rm, position);
                    m = joined_model(m, op, rm, position);
                }
            }
            expr = join(expr, op, right, position);
        }
        Ok(expr)
    }

    /// Parses `.&` operations over equality expressions, from the left.
    fn simd_and(&mut self) -> (r: Result<Expr, CompileError>)
        requires
            old(self).wf(),
        ensures
            old(self).kept_on(*final(self)),
            r is Ok ==> old(self).pos() < final(self).pos(),
            r matches Ok(e) ==> binding_level(e) <= 5 && well_bracketed(e),
            starts_no_expression(old(self).peek_token().kind) ==> no_expression_error(
                *old(self),
                *final(self),
                r,
            ),
            lone_operand(*old(self)) matches Some(e) ==> r == Ok::<Expr, CompileError>(e) && final(self).pos() == old(self).pos() + 1,
            operand_parse(old(self).token_seq(), old(self).pos() as int, 5) matches Some((m, j)) ==> (r matches Ok(x) && agrees(x, m)) && final(self).pos() == j,
        decreases old(self).token_seq().len() - old(self).pos(), 8int,
    {
        let mut expr = self.equality()?;
        let ghost mut m = operand_parse(old(self).token_seq(), old(self).pos() as int, 4)->Some_0.0;
        while self.check(&TokenKind::DotAnd)
            invariant
                operand_parse(old(self).token_seq(), old(self).pos() as int, 5) is Some ==> agrees(expr, m),
                operand_parse(old(self).token_seq(), old(self).pos() as int, 5) is Some ==> chain_parse(self.token_seq(), self.pos() as int, 5, m)
                    == operand_parse(old(self).token_seq(), old(self).pos() as int, 5),
                old(self).kept_on(*self),
                lone_operand(*old(self)) matches Some(x) ==> expr == x && self.pos() == old(self).pos() + 1,
                old(self).pos() < self.pos(),
                !starts_no_expression(old(self).peek_token().kind),
                binding_level(expr) <= 5,
                well_bracketed(expr),
            decreases self.token_seq().len() - self.pos(),
        {
            let ghost at = self.pos() as int;
            self.advance();
            let right = self.equality()?;
            let position = self.previous().position;
            let op = Operator::Lanes(SIMDOperator::DotAnd);
            proof {
                lemma_joined_well_bracketed(expr, op, right, position, 5);
            }
            proof {
                if operand_parse(old(self).token_seq(), old(self).pos() as int, 5) is Some {
                    let rm = operand_parse(self.token_seq(), at + 1, 4)->Some_0.0;
                    lemma_join_agrees(expr, m, op, right, rm, position);
                    m = joined_model(m, op, rm, position);
                }
            }
            expr = join(expr, op, right, position);
        }
        Ok(expr)
    }

    /// Parses equality operations (`==`, `!=`, `.==`, `.!=`) over comparisons,
    /// from the left; an element-wise one records its operator's position.
    fn equality(&mut self) -> (r: Result<Expr, CompileError>)
        requires
            old(self).wf(),
        ensures
            old(self).kept_on(*final(self)),
            r is Ok ==> old(self).pos() < final(self).pos(),
            r matches Ok(e) ==> binding_level(e) <= 4 && well_bracketed(e),
            starts_no_expression(old(self).peek_token().kind) ==> no_expression_error(
                *old(self),
                *final(self),
                r,
            ),
            lone_operand(*old(self)) matches Some(e) ==> r == Ok::<Expr, CompileError>(e) && final(self).pos() == old(self).pos() + 1,
            operand_parse(old(self).token_seq(), old(self).pos() as int, 4) matches Some((m, j)) ==> (r matches Ok(x) && agrees(x, m)) && final(self).pos() == j,
        decreases old(self).token_seq().len() - old(self).pos(), 7int,
    {
        let mut expr = self.comparison()?;
        let ghost mut m = operand_parse(old(self).token_seq(), old(self).pos() as int, 3)->Some_0.0;
        loop
            invariant
                operand_parse(old(self).token_seq(), old(self).pos() as int, 4) is Some ==> agrees(expr, m),
                operand_parse(old(self).token_seq(), old(self).pos() as int, 4) is Some ==> chain_parse(self.token_seq(), self.pos() as int, 4, m)
                    == operand_parse(old(self).token_seq(), old(self).pos() as int, 4),
                old(self).kept_on(*self),
                lone_operand(*old(self)) matches Some(x) ==> expr == x && self.pos() == old(self).pos() + 1,
                old(self).pos() < self.pos(),
                !starts_no_expression(old(self).peek_token().kind),
                binding_level(expr) <= 4,
                well_bracketed(expr),
            ensures
                operand_parse(old(self).token_seq(), old(self).pos() as int, 4) is Some ==> operand_parse(old(self).token_seq(), old(self).pos() as int, 4)
                    == Some((m, self.pos() as int)),
            decreases self.token_seq().len() - self.pos(),
        {
            let ghost at = self.pos() as int;
            let found = equality_operator_of(&self.peek().kind);
            let op = match found {
                Some(op) => op,
                None => break,
            };
            let position = self.peek().position;
            self.advance();
            let right = self.comparison()?;
            proof {
                lemma_joined_well_bracketed(expr, op, right, position, 4);
            }
            proof {
                if operand_parse(old(self).token_seq(), old(self).pos() as int, 4) is Some {
                    let rm = operand_parse(self.token_seq(), at + 1, 3)->Some_0.0;
                    lemma_join_agrees(expr, m, op, right, rm, position);
                    m = joined_model(m, op, rm, position);
                }
            }
            expr = join(expr, op, right, position);
        }
        Ok(expr)
    }

    /// Parses comparisons (`<`, `<=`, `>`, `>=` and their element-wise forms)
    /// over terms, from the left.
    fn comparison(&mut self) -> (r: Result<Expr, CompileError>)
        requires
            old(self).wf(),
        ensures
            old(self).kept_on(*final(self)),
            r is Ok ==> old(self).pos() < final(self).pos(),
            r matches Ok(e) ==> binding_level(e) <= 3 && well_bracketed(e),
            starts_no_expression(old(self).peek_token().kind) ==> no_expression_error(
                *old(self),
                *final(self),
                r,
            ),
            lone_operand(*old(self)) matches Some(e) ==> r == Ok::<Expr, CompileError>(e) && final(self).pos() == old(self).pos() + 1,
            operand_parse(old(self).token_seq(), old(self).pos() as int, 3) matches Some((m, j)) ==> (r matches Ok(x) && agrees(x, m)) && final(self).pos() == j,
        decreases old(self).token_seq().len() - old(self).pos(), 6int,
    {
        let mut expr = self.enhanced_term()?;
        let ghost mut m = operand_parse(old(self).token_seq(), old(self).pos() as int, 2)->Some_0.0;
        loop
            invariant
                operand_parse(old(self).token_seq(), old(self).pos() as int, 3) is Some ==> agrees(expr, m),
                operand_parse(old(self).token_seq(), old(self).pos() as int, 3) is Some ==> chain_parse(self.token_seq(), self.pos() as int, 3, m)
                    == operand_parse(old(self).token_seq(), old(self).pos() as int, 3),
                old(self).kept_on(*self),
                lone_operand(*old(self)) matches Some(x) ==> expr == x && self.pos() == old(self).pos() + 1,
                old(self).pos() < self.pos(),
                !starts_no_expression(old(self).peek_token().kind),
                binding_level(expr) <= 3,
                well_bracketed(expr),
            ensures
                operand_parse(old(self).token_seq(), old(self).pos() as int, 3) is Some ==> operand_parse(old(self).token_seq(), old(self).pos() as int, 3)
                    == Some((m, self.pos() as int)),
            decreases self.token_seq().len() - self.pos(),
        {
            let ghost at = self.pos() as int;
            let found = comparison_operator_of(&self.peek().kind);
            let op = match found {
                Some(op) => op,
                None => break,
            };
            let position = self.peek().position;
            self.advance();
            let right = self.enhanced_term()?;
            proof {
                lemma_joined_well_bracketed(expr, op, right, position, 3);
            }
            proof {
                if operand_parse(old(self).token_seq(), old(self).pos() as int, 3) is Some {
                    let rm = operand_parse(self.token_seq(), at + 1, 2)->Some_0.0;
                    lemma_join_agrees(expr, m, op, right, rm, position);
                    m = joined_model(m, op, rm, position);
                }
            }
            expr = join(expr, op, right, position);
        }
        Ok(expr)
    }

    /// Parses `+`, `-`, `.+` and `.-` over factors, from the left; an
    /// element-wise one records the position of the token before the next
    /// operator.
    fn enhanced_term(&mut self) -> (r: Result<Expr, CompileError>)
        requires
            old(self).wf(),
        ensures
            old(self).kept_on(*final(self)),
            r is Ok ==> old(self).pos() < final(self).pos(),
            r matches Ok(e) ==> binding_level(e) <= 2 && well_bracketed(e),
            starts_no_expression(old(self).peek_token().kind) ==> no_expression_error(
                *old(self),
                *final(self),
                r,
            ),
            lone_operand(*old(self)) matches Some(e) ==> r == Ok::<Expr, CompileError>(e) && final(self).pos() == old(self).pos() + 1,
            operand_parse(old(self).token_seq(), old(self).pos() as int, 2) matches Some((m, j)) ==> (r matches Ok(x) && agrees(x, m)) && final(self).pos() == j,
        decreases old(self).token_seq().len() - old(self).pos(), 5int,
    {
        let mut expr = self.enhanced_factor()?;
        let ghost mut m = operand_parse(old(self).token_seq(), old(self).pos() as int, 1)->Some_0.0;
        loop
            invariant
                operand_parse(old(self).token_seq(), old(self).pos() as int, 2) is Some ==> agrees(expr, m),
                operand_parse(old(self).token_seq(), old(self).pos() as int, 2) is Some ==> chain_parse(self.token_seq(), self.pos() as int, 2, m)
                    == operand_parse(old(self).token_seq(), old(self).pos() as int, 2),
                old(self).kept_on(*self),
                lone_operand(*old(self)) matches Some(x) ==> expr == x && self.pos() == old(self).pos() + 1,
                old(self).pos() < self.pos(),
                !starts_no_expression(old(self).peek_token().kind),
                binding_level(expr) <= 2,
                well_bracketed(expr),
            ensures
                operand_parse(old(self).token_seq(), old(self).pos() as int, 2) is Some ==> operand_parse(old(self).token_seq(), old(self).pos() as int, 2)
                    == Some((m, self.pos() as int)),
            decreases self.token_seq().len() - self.pos(),
        {
            let ghost at = self.pos() as int;
            let found = additive_operator_of(&self.peek().kind, true);
            let op = match found {
                Some(op) => op,
                None => break,
            };
            self.advance();
            let right = self.enhanced_factor()?;
            let position = self.previous().position;
            proof {
                lemma_joined_well_bracketed(expr, op, right, position, 2);
            }
            proof {
                if operand_parse(old(self).token_seq(), old(self).pos() as int, 2) is Some {
                    let rm = operand_parse(self.token_seq(), at + 1, 1)->Some_0.0;
                    lemma_join_agrees(expr, m, op, right, rm, position);
                    m = joined_model(m, op, rm, position);
                }
            }
            expr = join(expr, op, right, position);
        }
        Ok(expr)
    }

    /// Parses `*`, `/`, `%`, `.*` and `./` over unary expressions, from the
    /// left.
    fn enhanced_factor(&mut self) -> (r: Result<Expr, CompileError>)
        requires
            old(self).wf(),
        ensures
            old(self).kept_on(*final(self)),
            r is Ok ==> old(self).pos() < final(self).pos(),
            r matches Ok(e) ==> binding_level(e) <= 1 && well_bracketed(e),
            starts_no_expression(old(self).peek_token().kind) ==> no_expression_error(
                *old(self),
                *final(self),
                r,
            ),
            lone_operand(*old(self)) matches Some(e) ==> r == Ok::<Expr, CompileError>(e) && final(self).pos() == old(self).pos() + 1,
            operand_parse(old(self).token_seq(), old(self).pos() as int, 1) matches Some((m, j)) ==> (r matches Ok(x) && agrees(x, m)) && final(self).pos() == j,
        decreases old(self).token_seq().len() - old(self).pos(), 4int,
    {
        proof {
            assert(operand_parse(self.token_seq(), self.pos() as int, 0) == unary_parse(
                self.token_seq(),
                self.pos() as int,
            ));
        }
        let mut expr = self.unary()?;
        let ghost mut m = operand_parse(old(self).token_seq(), old(self).pos() as int, 0)->Some_0.0;
        loop
            invariant
                operand_parse(old(self).token_seq(), old(self).pos() as int, 1) is Some ==> agrees(expr, m),
                operand_parse(old(self).token_seq(), old(self).pos() as int, 1) is Some ==> chain_parse(self.token_seq(), self.pos() as int, 1, m)
                    == operand_parse(old(self).token_seq(), old(self).pos() as int, 1),
                old(self).kept_on(*self),
                lone_operand(*old(self)) matches Some(x) ==> expr == x && self.pos() == old(self).pos() + 1,
                old(self).pos() < self.pos(),
                !starts_no_expression(old(self).peek_token().kind),
                binding_level(expr) <= 1,
                well_bracketed(expr),
            ensures
                operand_parse(old(self).token_seq(), old(self).pos() as int, 1) is Some ==> operand_parse(old(self).token_seq(), old(self).pos() as int, 1)
                    == Some((m, self.pos() as int)),
            decreases self.token_seq().len() - self.pos(),
        {
            let ghost at = self.pos() as int;
            let found = multiplicative_operator_of(&self.peek().kind, true);
            let op = match found {
                Some(op) => op,
                None => break,
            };
            self.advance();
            proof {
                assert(operand_parse(self.token_seq(), self.pos() as int, 0) == unary_parse(
                    self.token_seq(),
                    self.pos() as int,
                ));
            }
            let right = self.unary()?;
            let position = self.previous().position;
            proof {
                lemma_joined_well_bracketed(expr, op, right, position, 1);
            }
            proof {
                if operand_parse(old(self).token_seq(), old(self).pos() as int, 1) is Some {
                    let rm = operand_parse(self.token_seq(), at + 1, 0)->Some_0.0;
                    lemma_join_agrees(expr, m, op, right, rm, position);
                    m = joined_model(m, op, rm, position);
                }
            }
            expr = join(expr, op, right, position);
        }
        Ok(expr)
    }

    /// Parses `+` and `-` over scalar factors, from the left.
    fn term(&mut self) -> (r: Result<Expr, CompileError>)
        requires
            old(self).wf(),
        ensures
            old(self).kept_on(*final(self)),
            r is Ok ==> old(self).pos() < final(self).pos(),
            r matches Ok(e) ==> binding_level(e) <= 2 && well_bracketed(e),
            lone_operand(*old(self)) matches Some(e) ==> r == Ok::<Expr, CompileError>(e) && final(self).pos() == old(self).pos() + 1,
    {
        let mut expr = self.factor()?;
        loop
            invariant
                old(self).kept_on(*self),
                lone_operand(*old(self)) matches Some(x) ==> expr == x && self.pos() == old(self).pos() + 1,
                old(self).pos() < self.pos(),
                binding_level(expr) <= 2,
                well_bracketed(expr),
            decreases self.token_seq().len() - self.pos(),
        {
            let found = additive_operator_of(&self.peek().kind, false);
            let op = match found {
                Some(op) => op,
                None => break,
            };
            let position = self.peek().position;
            self.advance();
            let right = self.factor()?;
            proof {
                lemma_joined_well_bracketed(expr, op, right, position, 2);
            }
            expr = join(expr, op, right, position);
        }
        Ok(expr)
    }

    /// Parses `*`, `/` and `%` over unary expressions, from the left.
    fn factor(&mut self) -> (r: Result<Expr, CompileError>)
        requires
            old(self).wf(),
        ensures
            old(self).kept_on(*final(self)),
            r is Ok ==> old(self).pos() < final(self).pos(),
            r matches Ok(e) ==> binding_level(e) <= 1 && well_bracketed(e),
            lone_operand(*old(self)) matches Some(e) ==> r == Ok::<Expr, CompileError>(e) && final(self).pos() == old(self).pos() + 1,
    {
        let mut expr = self.unary()?;
        loop
            invariant
                old(self).kept_on(*self),
                lone_operand(*old(self)) matches Some(x) ==> expr == x && self.pos() == old(self).pos() + 1,
                old(self).pos() < self.pos(),
                binding_level(expr) <= 1,
                well_bracketed(expr),
            decreases self.token_seq().len() - self.pos(),
        {
            let found = multiplicative_operator_of(&self.peek().kind, false);
            let op = match found {
                Some(op) => op,
                None => break,
            };
            let position = self.peek().position;
            self.advance();
            let right = self.unary()?;
            proof {
                lemma_joined_well_bracketed(expr, op, right, position, 1);
            }
            expr = join(expr, op, right, position);
        }
        Ok(expr)
    }

    /// Parses a unary operator applied to a unary expression, or a call.
    fn unary(&mut self) -> (r: Result<Expr, CompileError>)
        requires
            old(self).wf(),
        ensures
            old(self).kept_on(*final(self)),
            r is Ok ==> old(self).pos() < final(self).pos(),
            r matches Ok(e) ==> binding_level(e) == 0,
            unary_operator(old(self).peek_token().kind) matches Some(op) ==> (r matches Ok(e) ==> (
            e matches Expr::Unary(o, _) && o == op)),
            starts_no_expression(old(self).peek_token().kind) ==> no_expression_error(
                *old(self),
                *final(self),
                r,
            ),
            r matches Ok(e) ==> well_bracketed(e),
            lone_operand(*old(self)) matches Some(e) ==> r == Ok::<Expr, CompileError>(e) && final(self).pos() == old(self).pos() + 1,
            unary_parse(old(self).token_seq(), old(self).pos() as int) matches Some((m, j)) ==> (r matches Ok(x) && agrees(x, m)) && final(self).pos() == j,
        decreases old(self).token_seq().len() - old(self).pos(), 3int,
    {
        let found = unary_operator_of(&self.peek().kind);
        match found {
            Some(op) => {
                self.advance();
                let right = self.unary()?;
                Ok(Expr::Unary(op, Box::new(right)))
            },
            None => self.call(),
        }
    }

    /// Parses a primary expression followed by calls, indexing, slicing and
    /// field accesses.
    #[verifier::spinoff_prover]
    #[verifier::rlimit(100)]
    fn call(&mut self) -> (r: Result<Expr, CompileError>)
        requires
            old(self).wf(),
        ensures
            old(self).kept_on(*final(self)),
            r is Ok ==> old(self).pos() < final(self).pos(),
            r matches Ok(e) ==> binding_level(e) == 0,
            starts_no_expression(old(self).peek_token().kind) ==> no_expression_error(
                *old(self),
                *final(self),
                r,
            ),
            r matches Ok(e) ==> well_bracketed(e),
            lone_operand(*old(self)) matches Some(e) ==> r == Ok::<Expr, CompileError>(e) && final(self).pos() == old(self).pos() + 1,
            call_parse(old(self).token_seq(), old(self).pos() as int) matches Some((m, j)) ==> (r matches Ok(x) && agrees(x, m)) && final(self).pos() == j,
        decreases old(self).token_seq().len() - old(self).pos(), 2int,
    {
        let mut expr = self.primary()?;
        let ghost mut m = primary_parse(old(self).token_seq(), old(self).pos() as int)->Some_0.0;
        loop
            invariant
                call_parse(old(self).token_seq(), old(self).pos() as int) is Some ==> agrees(expr, m),
                call_parse(old(self).token_seq(), old(self).pos() as int) is Some ==> postfix_parse(self.token_seq(), self.pos() as int, m)
                    == call_parse(old(self).token_seq(), old(self).pos() as int),
                old(self).kept_on(*self),
                lone_operand(*old(self)) matches Some(x) ==> expr == x && self.pos() == old(self).pos() + 1,
                well_bracketed(expr),
                old(self).pos() < self.pos(),
                !starts_no_expression(old(self).peek_token().kind),
                binding_level(expr) == 0,
            ensures
                call_parse(old(self).token_seq(), old(self).pos() as int) is Some ==> call_parse(old(self).token_seq(), old(self).pos() as int) == Some((m, self.pos() as int)),
            decreases self.token_seq().len() - self.pos(),
        {
            let ghost at = self.pos() as int;
            let ghost ts = self.token_seq();
            if self.check(&TokenKind::LeftParen) {
                self.advance();
                expr = self.finish_call(expr)?;
                proof {
                    if call_parse(old(self).token_seq(), old(self).pos() as int) is Some {
                        m = ExprModel::Call(
                            Box::new(m),
                            list_parse(ts, at + 1, TokenKind::RightParen)->Some_0.0,
                        );
                    }
                }
            } else if self.check(&TokenKind::LeftBracket) {
                self.advance();
                let first_expr = self.expression()?;
                let ghost kk = self.pos() as int;
                if self.check(&TokenKind::Colon) {
                    self.advance();
                    let end_expr = self.expression()?;
                    proof {
                        if call_parse(old(self).token_seq(), old(self).pos() as int) is Some {
                            m = ExprModel::Slice(
                                Box::new(m),
                                Box::new(expression_parse(ts, at + 1)->Some_0.0),
                                Box::new(expression_parse(ts, kk + 1)->Some_0.0),
                            );
                        }
                    }
                    self.consume_with_recovery(
                        TokenKind::RightBracket,
                        "Expected ']' after slice end".to_owned(),
                        "slice_close",
                    )?;
                    expr = Expr::Slice {
                        array: Box::new(expr),
                        start: Box::new(first_expr),
                        end: Box::new(end_expr),
                    };
                } else {
                    self.consume_with_recovery(
                        TokenKind::RightBracket,
                        "Expected ']' after array index".to_owned(),
                        "array_index_close",
                    )?;
                    proof {
                        if call_parse(old(self).token_seq(), old(self).pos() as int) is Some {
                            m = ExprModel::Index(
                                Box::new(m),
                                Box::new(expression_parse(ts, at + 1)->Some_0.0),
                            );
                        }
                    }
                    expr = Expr::Index(Box::new(expr), Box::new(first_expr));
                }
            } else if self.check(&TokenKind::Dot) {
                self.advance();
                let name = self.consume_identifier("Expected property name after '.'".to_owned())?;
                proof {
                    if call_parse(old(self).token_seq(), old(self).pos() as int) is Some {
                        m = ExprModel::FieldAccess(Box::new(m), name);
                    }
                }
                expr = Expr::FieldAccess(Box::new(expr), name);
            } else {
                break;
            }
        }
        Ok(expr)
    }

    /// Parses the arguments of a call after its `(` and the `)` that closes
    /// them.
    fn finish_call(&mut self, callee: Expr) -> (r: Result<Expr, CompileError>)
        requires
            old(self).wf(),
            well_bracketed(callee),
        ensures
            old(self).kept_on(*final(self)),
            r is Ok ==> old(self).pos() < final(self).pos(),
            r matches Ok(e) ==> (e matches Expr::Call(c, _) && *c == callee),
            r matches Ok(e) ==> well_bracketed(e),
            kind_at(*old(self), 0) is RightParen ==> (r matches Ok(Expr::Call(c, args)) && *c == callee && args@.len() == 0) && final(self).pos() == old(self).pos() + 1,
            lone_at(*old(self), 0) is Some && kind_at(*old(self), 1) is RightParen ==> (r matches Ok(Expr::Call(c, args)) && *c == callee && args@ == seq![lone_at(*old(self), 0)->Some_0]) && final(self).pos() == old(self).pos() + 2,
            list_parse(old(self).token_seq(), old(self).pos() as int, TokenKind::RightParen) matches Some((args, c)) ==> (r matches Ok(Expr::Call(f, a)) && *f == callee && all_agree(a@, args)) && final(self).pos() == c + 1,
        decreases old(self).token_seq().len() - old(self).pos(), 16int,
    {
        let ghost ts0 = self.token_seq();
        let ghost k0 = self.pos() as int;
        let ghost good = list_parse(ts0, k0, TokenKind::RightParen) is Some && !(ts0[k0].kind is RightParen);
        let ghost mut done: Seq<ExprModel> = Seq::empty();
        let mut arguments: Vec<Expr> = Vec::new();
        proof {
            assert(arguments@ =~= Seq::<Expr>::empty());
            assert(done + Seq::<ExprModel>::empty() =~= done);
        }
        if !self.check(&TokenKind::RightParen) {
            loop
                invariant_except_break
                    good ==> list_from(ts0, self.pos() as int, TokenKind::RightParen) is Some,
                    good ==> list_from(ts0, k0, TokenKind::RightParen) == Some((done + list_from(ts0, self.pos() as int, TokenKind::RightParen)->Some_0.0, list_from(ts0, self.pos() as int, TokenKind::RightParen)->Some_0.1)),
                    lone_at(*old(self), 0) is Some && kind_at(*old(self), 1) is RightParen
                        ==> arguments@.len() == 0 && self.pos() == old(self).pos(),
                invariant
                    ts0 == self.token_seq(),
                    good ==> all_agree(arguments@, done),
                    0 <= k0 < ts0.len(),
                    ts0 == old(self).token_seq(),
                    k0 == old(self).pos() as int,
                    good == (list_parse(ts0, k0, TokenKind::RightParen) is Some && !(ts0[k0].kind is RightParen)),
                    good ==> list_parse(ts0, k0, TokenKind::RightParen) == list_from(ts0, k0, TokenKind::RightParen),
                    old(self).kept_on(*self),
                    forall|i: int| 0 <= i < arguments@.len() ==> well_bracketed(#[trigger] arguments@[i]),
                    well_bracketed(callee),
                    !(kind_at(*old(self), 0) is RightParen),
                ensures
                    good ==> all_agree(arguments@, list_parse(ts0, k0, TokenKind::RightParen)->Some_0.0) && self.pos() == list_parse(ts0, k0, TokenKind::RightParen)->Some_0.1 && ts0[self.pos() as int].kind is RightParen,
                    lone_at(*old(self), 0) is Some && kind_at(*old(self), 1) is RightParen
                        ==> arguments@ == seq![lone_at(*old(self), 0)->Some_0] && self.pos() == old(
                        self,
                    ).pos() + 1,
                decreases self.token_seq().len() - self.pos(),
            {
                let ghost before = arguments@;
                let ghost done_before = done;
                let ghost at = self.pos() as int;
                let argument = self.expression()?;
                arguments.push(argument);
                proof {
                    assert(arguments@ =~= before.push(argument));
                    if good {
                        let m = expression_parse(ts0, at)->Some_0.0;
                        lemma_all_agree_push(before, done_before, argument, m);
                        done = done_before.push(m);
                    }
                }
                if !self.check(&TokenKind::Comma) {
                    proof {
                        if good {
                            assert(done_before + seq![expression_parse(ts0, at)->Some_0.0] =~= done);
                        }
                    }
                    break;
                }
                self.advance();
                proof {
                    if good {
                        let rest = list_from(ts0, self.pos() as int, TokenKind::RightParen)->Some_0.0;
                        assert(done_before + (seq![expression_parse(ts0, at)->Some_0.0] + rest) =~= done + rest);
                    }
                }
            }
        }
        self.consume(TokenKind::RightParen, "Expected ')' after arguments".to_owned())?;
        Ok(Expr::Call(Box::new(callee), arguments))
    }
}

impl Parser {
    /// Parses a primary expression: a literal, a variable, a call, a struct or
    /// enum literal, a SIMD built-in, a grouping, an array or SIMD vector
    /// literal, or a block (see [`primary_result`]).
    #[verifier::rlimit(100)]
    #[verifier::spinoff_prover]
    fn primary(&mut self) -> (r: Result<Expr, CompileError>)
        requires
            old(self).wf(),
        ensures
            old(self).kept_on(*final(self)),
            r is Ok ==> old(self).pos() < final(self).pos(),
            r matches Ok(e) ==> binding_level(e) == 0,
            primary_result(*old(self), *final(self), r),
            r matches Ok(e) ==> well_bracketed(e),
            lone_operand(*old(self)) matches Some(e) ==> r == Ok::<Expr, CompileError>(e) && final(self).pos() == old(self).pos() + 1,
            primary_parse(old(self).token_seq(), old(self).pos() as int) matches Some((m, j)) ==> (r matches Ok(x) && agrees(x, m)) && final(self).pos() == j,
        decreases old(self).token_seq().len() - old(self).pos(), 1int,
    {
        let l = lead(&self.peek().kind);
        match l {
            Lead::Bool(b) => {
                self.advance();
                Ok(Expr::Literal(Literal::Boolean(b)))
            },
            Lead::Int(n) => {
                self.advance();
                Ok(Expr::Literal(Literal::Integer(n)))
            },
            Lead::Float(s) => {
                self.advance();
                Ok(Expr::Literal(Literal::Float(s)))
            },
            Lead::Str(s) => {
                self.advance();
                Ok(Expr::Literal(Literal::String(s)))
            },
            Lead::Simd(s) => {
                self.advance();
                Ok(Expr::Literal(Literal::String(s)))
            },
            Lead::Ident(name) => {
                self.advance();
                self.identifier_primary(name)
            },
            Lead::Reduce(op) => {
                self.advance();
                self.parse_reduction_function(op)
            },
            Lead::DotProduct => {
                self.advance();
                self.parse_dot_product_function()
            },
            Lead::Load => {
                self.advance();
                self.parse_load_vector_function()
            },
            Lead::Store => {
                self.advance();
                self.parse_store_vector_function()
            },
            Lead::Paren => {
                self.advance();
                let expr = self.expression()?;
                self.consume(TokenKind::RightParen, "Expected ')' after expression".to_owned())?;
                Ok(Expr::Grouping(Box::new(expr)))
            },
            Lead::Bracket => {
                self.advance();
                self.parse_array_or_simd_literal()
            },
            Lead::Brace => {
                self.advance();
                self.parse_block_expression()
            },
            Lead::Other => {
                let text = kind_debug_string(&self.peek().kind);
                Err(no_expression_error_at(&text, self.peek().position))
            },
        }
    }

    /// Parses what follows an identifier `name` in a primary expression (see
    /// [`identifier_parse`]).
    #[verifier::spinoff_prover]
    #[verifier::rlimit(100)]
    fn identifier_primary(&mut self, name: String) -> (r: Result<Expr, CompileError>)
        requires
            old(self).wf(),
        ensures
            old(self).kept_on(*final(self)),
            r matches Ok(e) ==> binding_level(e) == 0 && well_bracketed(e),
            kind_at(*old(self), 0) is DoubleColon ==> (r matches Ok(e) ==> (e matches Expr::EnumLiteral {
                enum_name,
                ..
            } && enum_name == name) || e is Call),
            kind_at(*old(self), 0) is LeftParen ==> (r matches Ok(e) ==> (e matches Expr::Call(callee, _)
                && *callee == Expr::Variable(name))),
            kind_at(*old(self), 0) is LeftBrace ==> (r matches Ok(e) ==> (e matches Expr::StructLiteral {
                name: n,
                ..
            } && n == name)),
            !(kind_at(*old(self), 0) is DoubleColon || kind_at(*old(self), 0) is LeftParen || kind_at(*old(self), 0) is LeftBrace)
                ==> r == Ok::<Expr, CompileError>(Expr::Variable(name)) && final(self).pos() == old(self).pos(),
            identifier_parse(old(self).token_seq(), old(self).pos() as int, name) matches Some((m, j)) ==> (r matches Ok(x) && agrees(x, m)) && final(self).pos() == j,
        decreases old(self).token_seq().len() - old(self).pos(), 2int,
    {
        if self.check(&TokenKind::DoubleColon) {
            self.advance();
            let second = self.consume_identifier(
                "Expected identifier after '::'".to_owned(),
            )?;
            if self.check(&TokenKind::LeftParen) {
                let module_expr = Expr::Variable(name);
                proof {
                    assert(well_bracketed(module_expr));
                    assert(agrees(module_expr, ExprModel::Variable(name)));
                }
                let field_access = Expr::FieldAccess(Box::new(module_expr), second);
                proof {
                    assert(agrees(
                        field_access,
                        ExprModel::FieldAccess(Box::new(ExprModel::Variable(name)), second),
                    ));
                }
                self.advance();
                return self.finish_call(field_access);
            }
            let args: Vec<Expr> = Vec::new();
            proof {
                assert(all_agree(args@, Seq::<ExprModel>::empty()));
            }
            return Ok(Expr::EnumLiteral { enum_name: name, variant: second, args });
        }
        if self.check(&TokenKind::LeftParen) {
            proof {
                assert(agrees(Expr::Variable(name), ExprModel::Variable(name)));
            }
            return self.parse_function_call(name);
        }
        if self.check(&TokenKind::LeftBrace) {
            return self.parse_struct_literal(name);
        }
        Ok(Expr::Variable(name))
    }

    /// Parses a call of a named function: `(`, the arguments and `)`.
    fn parse_function_call(&mut self, name: String) -> (r: Result<Expr, CompileError>)
        requires
            old(self).wf(),
        ensures
            old(self).kept_on(*final(self)),
            r is Ok ==> old(self).pos() < final(self).pos(),
            r matches Ok(e) ==> (e matches Expr::Call(c, _) && *c == Expr::Variable(name)),
            r matches Ok(e) ==> well_bracketed(e),
            kind_at(*old(self), 0) is LeftParen && kind_at(*old(self), 1) is RightParen ==> (r matches Ok(Expr::Call(c, args)) && *c == Expr::Variable(name) && args@.len() == 0) && final(self).pos() == old(self).pos() + 2,
            kind_at(*old(self), 0) is LeftParen && lone_at(*old(self), 1) is Some && kind_at(*old(self), 2) is RightParen ==> (r matches Ok(Expr::Call(c, args)) && *c == Expr::Variable(name) && args@ == seq![lone_at(*old(self), 1)->Some_0]) && final(self).pos() == old(self).pos() + 3,
            kind_at(*old(self), 0) is LeftParen ==> (list_parse(old(self).token_seq(), old(self).pos() + 1int, TokenKind::RightParen) matches Some((args, c)) ==> (r matches Ok(Expr::Call(f, a)) && *f == Expr::Variable(name) && all_agree(a@, args)) && final(self).pos() == c + 1),
        decreases old(self).token_seq().len() - old(self).pos(), 1int,
    {
        self.consume_with_recovery(
            TokenKind::LeftParen,
            "Expected '(' after function name".to_owned(),
            "function_call_open",
        )?;
        let ghost ts0 = self.token_seq();
        let ghost k0 = self.pos() as int;
        let ghost good = list_parse(ts0, k0, TokenKind::RightParen) is Some && !(ts0[k0].kind is RightParen);
        let ghost mut done: Seq<ExprModel> = Seq::empty();
        let mut arguments: Vec<Expr> = Vec::new();
        proof {
            assert(arguments@ =~= Seq::<Expr>::empty());
            assert(done + Seq::<ExprModel>::empty() =~= done);
        }
        if !self.check(&TokenKind::RightParen) {
            loop
                invariant_except_break
                    good ==> list_from(ts0, self.pos() as int, TokenKind::RightParen) is Some,
                    good ==> list_from(ts0, k0, TokenKind::RightParen) == Some((done + list_from(ts0, self.pos() as int, TokenKind::RightParen)->Some_0.0, list_from(ts0, self.pos() as int, TokenKind::RightParen)->Some_0.1)),
                    kind_at(*old(self), 0) is LeftParen && lone_at(*old(self), 1) is Some && kind_at(
                        *old(self),
                        2,
                    ) is RightParen ==> arguments@.len() == 0 && self.pos() == old(self).pos() + 1,
                invariant
                    ts0 == self.token_seq(),
                    good ==> all_agree(arguments@, done),
                    0 <= k0 < ts0.len(),
                    good ==> list_parse(ts0, k0, TokenKind::RightParen) == list_from(ts0, k0, TokenKind::RightParen),
                    ts0 == old(self).token_seq(),
                    kind_at(*old(self), 0) is LeftParen ==> k0 == old(self).pos() + 1,
                    !(ts0[k0].kind is RightParen),
                    good == (list_parse(ts0, k0, TokenKind::RightParen) is Some && !(ts0[k0].kind is RightParen)),
                    old(self).kept_on(*self),
                    !(kind_at(*old(self), 0) is LeftParen && kind_at(*old(self), 1) is RightParen),
                    forall|i: int| 0 <= i < arguments@.len() ==> well_bracketed(#[trigger] arguments@[i]),
                    old(self).pos() < self.pos(),
                ensures
                    good ==> all_agree(arguments@, list_parse(ts0, k0, TokenKind::RightParen)->Some_0.0) && self.pos() == list_parse(ts0, k0, TokenKind::RightParen)->Some_0.1 && ts0[self.pos() as int].kind is RightParen,
                    kind_at(*old(self), 0) is LeftParen && lone_at(*old(self), 1) is Some && kind_at(
                        *old(self),
                        2,
                    ) is RightParen ==> arguments@ == seq![lone_at(*old(self), 1)->Some_0]
                        && self.pos() == old(self).pos() + 2,
                decreases self.token_seq().len() - self.pos(),
            {
                let ghost before = arguments@;
                let ghost done_before = done;
                let ghost at = self.pos() as int;
                let argument = self.expression()?;
                arguments.push(argument);
                proof {
                    assert(arguments@ =~= before.push(argument));
                    if good {
                        let m = expression_parse(ts0, at)->Some_0.0;
                        lemma_all_agree_push(before, done_before, argument, m);
                        done = done_before.push(m);
                    }
                }
                if !self.check(&TokenKind::Comma) {
                    proof {
                        if good {
                            assert(done_before + seq![expression_parse(ts0, at)->Some_0.0] =~= done);
                        }
                    }
                    break;
                }
                self.advance();
                proof {
                    if good {
                        let rest = list_from(ts0, self.pos() as int, TokenKind::RightParen)->Some_0.0;
                        assert(done_before + (seq![expression_parse(ts0, at)->Some_0.0] + rest) =~= done + rest);
                    }
                }
            }
        }
        self.consume_with_recovery(
            TokenKind::RightParen,
            "Expected ')' after arguments".to_owned(),
            "function_call_close",
        )?;
        let callee = Expr::Variable(name);
        proof {
            assert(well_bracketed(callee));
        }
        Ok(Expr::Call(Box::new(callee), arguments))
    }

    /// Parses a SIMD reduction of one vector: `(`, the vector and `)`.
    #[verifier::rlimit(100)]
    #[verifier::spinoff_prover]
    fn parse_reduction_function(&mut self, operation: ReductionOp) -> (r: Result<
        Expr,
        CompileError,
    >)
        requires
            old(self).wf(),
        ensures
            old(self).kept_on(*final(self)),
            r is Ok ==> old(self).pos() < final(self).pos(),
            r matches Ok(e) ==> (e matches Expr::SIMD(SIMDExpr::Reduction { operation: o, .. })
                && o == operation),
            r matches Ok(e) ==> well_bracketed(e),
            kind_at(*old(self), 0) is LeftParen && lone_at(*old(self), 1) is Some && kind_at(*old(self), 2) is RightParen ==> (r matches Ok(Expr::SIMD(SIMDExpr::Reduction { vector, operation: o, .. })) && *vector == lone_at(*old(self), 1)->Some_0 && o == operation) && final(self).pos() == old(self).pos() + 3,
            reduction_parse(old(self).token_seq(), old(self).pos() as int) matches Some((v, c)) ==> (r matches Ok(e) && agrees(e, ExprModel::Reduction(Box::new(v), operation, old(self).token_seq()[c].position))) && final(self).pos() == c + 1,
        decreases old(self).token_seq().len() - old(self).pos(), 1int,
    {
        self.consume_with_recovery(
            TokenKind::LeftParen,
            "Expected '(' after reduction function".to_owned(),
            "reduction_function_open",
        )?;
        let vector = self.expression()?;
        self.consume_with_recovery(
            TokenKind::RightParen,
            "Expected ')' after vector argument".to_owned(),
            "reduction_function_close",
        )?;
        let position = self.previous().position;
        Ok(Expr::SIMD(SIMDExpr::Reduction { vector: Box::new(vector), operation, position }))
    }

    /// Parses a dot product of two vectors: `(`, the vectors split by `,` and
    /// `)`.
    #[verifier::rlimit(100)]
    #[verifier::spinoff_prover]
    fn parse_dot_product_function(&mut self) -> (r: Result<Expr, CompileError>)
        requires
            old(self).wf(),
        ensures
            old(self).kept_on(*final(self)),
            r is Ok ==> old(self).pos() < final(self).pos(),
            r matches Ok(e) ==> e matches Expr::SIMD(SIMDExpr::DotProduct { .. }),
            r matches Ok(e) ==> well_bracketed(e),
            dot_product_parse(old(self).token_seq(), old(self).pos() as int) matches Some((left, right, c)) ==> (r matches Ok(e) && agrees(e, ExprModel::DotProduct(Box::new(left), Box::new(right), old(self).token_seq()[c].position))) && final(self).pos() == c + 1,
        decreases old(self).token_seq().len() - old(self).pos(), 1int,
    {
        self.consume(TokenKind::LeftParen, "Expected '(' after dot_product".to_owned())?;
        let left = self.expression()?;
        self.consume(TokenKind::Comma, "Expected ',' between dot product arguments".to_owned())?;
        let right = self.expression()?;
        self.consume(
            TokenKind::RightParen,
            "Expected ')' after dot product arguments".to_owned(),
        )?;
        let position = self.previous().position;
        Ok(Expr::SIMD(SIMDExpr::DotProduct { left: Box::new(left), right: Box::new(right), position }))
    }

    /// Parses a vector load: `(`, the address, `,`, an identifier naming the
    /// vector type, an optional `,` and alignment, and `)`.
    fn parse_load_vector_function(&mut self) -> (r: Result<Expr, CompileError>)
        requires
            old(self).wf(),
        ensures
            old(self).kept_on(*final(self)),
            r is Ok ==> old(self).pos() < final(self).pos(),
            r matches Ok(e) ==> e matches Expr::SIMD(SIMDExpr::VectorLoad { .. }),
            r matches Ok(e) ==> well_bracketed(e),
            r is Err,
        decreases old(self).token_seq().len() - old(self).pos(), 1int,
    {
        self.consume(TokenKind::LeftParen, "Expected '(' after load_vector".to_owned())?;
        let address = self.expression()?;
        self.consume(TokenKind::Comma, "Expected ',' between load_vector arguments".to_owned())?;
        let vector_type = if self.check(&TokenKind::Identifier(String::new())) {
            self.advance();
            self.parse_simd_vector_type(&self.previous().kind)?
        } else {
            return Err(
                CompileError::parse_error(
                    "Expected vector type identifier".to_owned(),
                    self.peek().position,
                ),
            );
        };
        let alignment = if self.check(&TokenKind::Comma) {
            self.advance();
            Some(self.parse_alignment()?)
        } else {
            None
        };
        self.consume(TokenKind::RightParen, "Expected ')' after load_vector arguments".to_owned())?;
        let position = self.previous().position;
        Ok(
            Expr::SIMD(
                SIMDExpr::VectorLoad { address: Box::new(address), vector_type, alignment, position },
            ),
        )
    }

    /// Parses a vector store: `(`, the address, `,`, the vector, an optional
    /// `,` and alignment, and `)`.
    #[verifier::rlimit(100)]
    #[verifier::spinoff_prover]
    fn parse_store_vector_function(&mut self) -> (r: Result<Expr, CompileError>)
        requires
            old(self).wf(),
        ensures
            old(self).kept_on(*final(self)),
            r is Ok ==> old(self).pos() < final(self).pos(),
            r matches Ok(e) ==> e matches Expr::SIMD(SIMDExpr::VectorStore { .. }),
            r matches Ok(e) ==> well_bracketed(e),
            store_parse(old(self).token_seq(), old(self).pos() as int) matches Some((a, v, al, c)) ==> (r matches Ok(e) && agrees(e, ExprModel::VectorStore(Box::new(a), Box::new(v), al, old(self).token_seq()[c].position))) && final(self).pos() == c + 1,
        decreases old(self).token_seq().len() - old(self).pos(), 1int,
    {
        self.consume(TokenKind::LeftParen, "Expected '(' after store_vector".to_owned())?;
        let address = self.expression()?;
        self.consume(TokenKind::Comma, "Expected ',' between store_vector arguments".to_owned())?;
        let vector = self.expression()?;
        let alignment = if self.check(&TokenKind::Comma) {
            self.advance();
            Some(self.parse_alignment()?)
        } else {
            None
        };
        self.consume(TokenKind::RightParen, "Expected ')' after store_vector arguments".to_owned())?;
        let position = self.previous().position;
        Ok(
            Expr::SIMD(
                SIMDExpr::VectorStore {
                    address: Box::new(address),
                    vector: Box::new(vector),
                    alignment,
                    position,
                },
            ),
        )
    }

    /// Parses an alignment: an integer literal whose value, truncated to 32
    /// bits, is a power of two from 1 to 64 (see [`valid_alignment`]).
    fn parse_alignment(&mut self) -> (r: Result<u32, CompileError>)
        requires
            old(self).wf(),
        ensures
            old(self).kept_on(*final(self)),
            r is Ok ==> old(self).pos() < final(self).pos(),
            alignment_result(*old(self), *final(self), r),
    {
        let value = match &self.peek().kind {
            TokenKind::Integer(v) => Some(*v),
            _ => None,
        };
        match value {
            Some(v) => {
                let position = self.peek().position;
                self.advance();
                let alignment = truncate_to_u32(v);
                if is_valid_alignment(alignment) {
                    Ok(alignment)
                } else {
                    Err(
                        CompileError::parse_error(
                            "Alignment must be a power of 2 between 1 and 64".to_owned(),
                            position,
                        ),
                    )
                }
            },
            None => Err(
                CompileError::parse_error(
                    "Expected alignment value".to_owned(),
                    self.peek().position,
                ),
            ),
        }
    }

    /// Parses the fields of a struct literal: `{`, `name: value` pairs split
    /// by `,`, and `}`.
    #[verifier::spinoff_prover]
    #[verifier::rlimit(100)]
    fn parse_struct_literal(&mut self, struct_name: String) -> (r: Result<Expr, CompileError>)
        requires
            old(self).wf(),
        ensures
            old(self).kept_on(*final(self)),
            r is Ok ==> old(self).pos() < final(self).pos(),
            r matches Ok(e) ==> (e matches Expr::StructLiteral { name, .. } && name == struct_name),
            r matches Ok(e) ==> well_bracketed(e),
            kind_at(*old(self), 0) is LeftBrace && kind_at(*old(self), 1) is RightBrace ==> (r matches Ok(Expr::StructLiteral { name, fields }) && name == struct_name && fields@.len() == 0) && final(self).pos() == old(self).pos() + 2,
            kind_at(*old(self), 0) is LeftBrace ==> (field_values_parse(old(self).token_seq(), old(self).pos() + 1int) matches Some((fs, c)) ==> (r matches Ok(Expr::StructLiteral { name, fields }) && name == struct_name && fields_agree(fields@, fs)) && final(self).pos() == c + 1),
        decreases old(self).token_seq().len() - old(self).pos(), 1int,
    {
        self.consume(TokenKind::LeftBrace, "Expected '{' for struct literal".to_owned())?;
        let ghost ts0 = self.token_seq();
        let ghost k0 = self.pos() as int;
        let ghost good = field_values_parse(ts0, k0) is Some && !(ts0[k0].kind is RightBrace);
        let ghost mut done: Seq<(String, ExprModel)> = Seq::empty();
        let mut fields: Vec<StructFieldInit> = Vec::new();
        proof {
            assert(fields@ =~= Seq::<StructFieldInit>::empty());
            assert(done + Seq::<(String, ExprModel)>::empty() =~= done);
        }
        if !self.check(&TokenKind::RightBrace) {
            loop
                invariant_except_break
                    good ==> field_values_from(ts0, self.pos() as int) is Some,
                    good ==> field_values_from(ts0, k0) == Some((done + field_values_from(ts0, self.pos() as int)->Some_0.0, field_values_from(ts0, self.pos() as int)->Some_0.1)),
                invariant
                    ts0 == self.token_seq(),
                    good ==> fields_agree(fields@, done),
                    0 <= k0 < ts0.len(),
                    good ==> field_values_parse(ts0, k0) == field_values_from(ts0, k0),
                    ts0 == old(self).token_seq(),
                    kind_at(*old(self), 0) is LeftBrace ==> k0 == old(self).pos() + 1,
                    !(ts0[k0].kind is RightBrace),
                    good == (field_values_parse(ts0, k0) is Some && !(ts0[k0].kind is RightBrace)),
                    old(self).kept_on(*self),
                    !(kind_at(*old(self), 0) is LeftBrace && kind_at(*old(self), 1) is RightBrace),
                    forall|i: int| 0 <= i < fields@.len() ==> well_bracketed(#[trigger] fields@[i].value),
                    old(self).pos() < self.pos(),
                ensures
                    good ==> fields_agree(fields@, field_values_parse(ts0, k0)->Some_0.0) && self.pos() == field_values_parse(ts0, k0)->Some_0.1 && ts0[self.pos() as int].kind is RightBrace,
                decreases self.token_seq().len() - self.pos(),
            {
                let ghost before = fields@;
                let ghost done_before = done;
                let ghost at = self.pos() as int;
                let field_name = self.consume_identifier("Expected field name".to_owned())?;
                self.consume(TokenKind::Colon, "Expected ':' after field name".to_owned())?;
                let field_value = self.expression()?;
                let field = StructFieldInit { name: field_name, value: field_value };
                fields.push(field);
                let ghost named = (ts0[at].kind->Identifier_0, expression_parse(ts0, at + 2)->Some_0.0);
                proof {
                    assert(fields@ =~= before.push(field));
                    if good {
                        lemma_fields_agree_push(before, done_before, field, named);
                        done = done_before.push(named);
                    }
                }
                if !self.check(&TokenKind::Comma) {
                    proof {
                        if good {
                            assert(done_before + seq![named] =~= done);
                        }
                    }
                    break;
                }
                self.advance();
                proof {
                    if good {
                        let rest = field_values_from(ts0, self.pos() as int)->Some_0.0;
                        assert(done_before + (seq![named] + rest) =~= done + rest);
                    }
                }
            }
        }
        self.consume(TokenKind::RightBrace, "Expected '}' after struct fields".to_owned())?;
        Ok(Expr::StructLiteral { name: struct_name, fields })
    }

    /// Parses an enum literal after its name: `::`, the variant and optional
    /// arguments in parentheses.
    fn parse_enum_literal(&mut self, enum_name: String) -> (r: Result<Expr, CompileError>)
        requires
            old(self).wf(),
        ensures
            old(self).kept_on(*final(self)),
            r is Ok ==> old(self).pos() < final(self).pos(),
            r matches Ok(e) ==> (e matches Expr::EnumLiteral { enum_name: n, .. } && n == enum_name),
            !old(self).checks(TokenKind::DoubleColon) ==> old(self).unmoved(*final(self)) && (
            r matches Err(CompileError::ParseError { message, position }) && message@
                == "Expected '::' for enum variant"@ && position == old(self).peek_token().position),
            r matches Ok(e) ==> well_bracketed(e),
    {
        if self.check(&TokenKind::DoubleColon) {
            self.advance();
        } else {
            return Err(
                CompileError::parse_error(
                    "Expected '::' for enum variant".to_owned(),
                    self.peek().position,
                ),
            );
        }
        let variant_name = self.consume_identifier("Expected variant name".to_owned())?;
        let mut args: Vec<Expr> = Vec::new();
        if self.check(&TokenKind::LeftParen) {
            self.advance();
            if !self.check(&TokenKind::RightParen) {
                loop
                    invariant
                        old(self).kept_on(*self),
                        forall|i: int| 0 <= i < args@.len() ==> well_bracketed(#[trigger] args@[i]),
                        old(self).pos() < self.pos(),
                        old(self).checks(TokenKind::DoubleColon),
                    decreases self.token_seq().len() - self.pos(),
                {
                    let argument = self.expression()?;
                    args.push(argument);
                    if !self.check(&TokenKind::Comma) {
                        break;
                    }
                    self.advance();
                }
            }
            self.consume(
                TokenKind::RightParen,
                "Expected ')' after enum variant arguments".to_owned(),
            )?;
        }
        Ok(Expr::EnumLiteral { enum_name, variant: variant_name, args })
    }

    /// Parses an array literal or a SIMD vector literal after its `[`: the
    /// elements split by `,`, `]`, and for a SIMD vector the type; the
    /// elements of an array must be literals.
    fn parse_array_or_simd_literal(&mut self) -> (r: Result<Expr, CompileError>)
        requires
            old(self).wf(),
        ensures
            old(self).kept_on(*final(self)),
            r is Ok ==> old(self).pos() < final(self).pos(),
            r matches Ok(e) ==> (e matches Expr::Literal(Literal::Vector { .. })
                || e matches Expr::SIMD(SIMDExpr::VectorLiteral { .. })),
            r matches Ok(e) ==> well_bracketed(e),
            kind_at(*old(self), 0) is RightBracket ==> (r matches Ok(Expr::Literal(Literal::Vector { elements, vector_type })) && elements@.len() == 0 && vector_type is None) && final(self).pos() == old(self).pos() + 1,
            array_parse(old(self).token_seq(), old(self).pos() as int) matches Some((m, j)) ==> (r matches Ok(x) && agrees(x, m)) && final(self).pos() == j,
        decreases old(self).token_seq().len() - old(self).pos(), 16int,
    {
        let ghost ts0 = self.token_seq();
        let ghost k0 = self.pos() as int;
        let ghost good = array_parse(ts0, k0) is Some;
        if self.check(&TokenKind::RightBracket) {
            self.advance();
            let elements: Vec<Literal> = Vec::new();
            proof {
                assert(literals_agree(elements@, Seq::<ExprModel>::empty()));
            }
            return Ok(Expr::Literal(Literal::Vector { elements, vector_type: None }));
        }
        let ghost mut done: Seq<ExprModel> = Seq::empty();
        let mut expressions: Vec<Expr> = Vec::new();
        proof {
            assert(expressions@ =~= Seq::<Expr>::empty());
            assert(done + Seq::<ExprModel>::empty() =~= done);
        }
        loop
            invariant_except_break
                good ==> list_from(ts0, self.pos() as int, TokenKind::RightBracket) is Some,
                good ==> list_from(ts0, k0, TokenKind::RightBracket) == Some(
                    (
                        done + list_from(ts0, self.pos() as int, TokenKind::RightBracket)->Some_0.0,
                        list_from(ts0, self.pos() as int, TokenKind::RightBracket)->Some_0.1,
                    ),
                ),
            invariant
                ts0 == self.token_seq(),
                ts0 == old(self).token_seq(),
                k0 == old(self).pos() as int,
                0 <= k0 < ts0.len(),
                !(ts0[k0].kind is RightBracket),
                good == (array_parse(ts0, k0) is Some),
                good ==> list_from(ts0, k0, TokenKind::RightBracket) is Some,
                good ==> all_agree(expressions@, done),
                old(self).kept_on(*self),
                !(kind_at(*old(self), 0) is RightBracket),
                forall|i: int| 0 <= i < expressions@.len() ==> well_bracketed(#[trigger] expressions@[i]),
            ensures
                good ==> all_agree(expressions@, list_from(ts0, k0, TokenKind::RightBracket)->Some_0.0)
                    && self.pos() == list_from(ts0, k0, TokenKind::RightBracket)->Some_0.1
                    && ts0[self.pos() as int].kind is RightBracket,
            decreases self.token_seq().len() - self.pos(),
        {
            let ghost before = expressions@;
            let ghost done_before = done;
            let ghost at = self.pos() as int;
            let element = self.expression()?;
            expressions.push(element);
            proof {
                assert(expressions@ =~= before.push(element));
                if good {
                    let m = expression_parse(ts0, at)->Some_0.0;
                    lemma_all_agree_push(before, done_before, element, m);
                    done = done_before.push(m);
                }
            }
            if !self.check(&TokenKind::Comma) {
                proof {
                    if good {
                        assert(done_before + seq![expression_parse(ts0, at)->Some_0.0] =~= done);
                    }
                }
                break;
            }
            self.advance();
            proof {
                if good {
                    let rest = list_from(ts0, self.pos() as int, TokenKind::RightBracket)->Some_0.0;
                    assert(done_before + (seq![expression_parse(ts0, at)->Some_0.0] + rest) =~= done
                        + rest);
                }
            }
        }
        let ghost es = list_from(ts0, k0, TokenKind::RightBracket)->Some_0.0;
        self.consume_with_recovery(
            TokenKind::RightBracket,
            "Expected ']' after array elements".to_owned(),
            "array_literal_close",
        )?;
        if self.check_simd_type() {
            let simd_type = simd_vector_type(&self.peek().kind).unwrap();
            self.advance();
            return Ok(
                Expr::SIMD(
                    SIMDExpr::VectorLiteral {
                        elements: expressions,
                        vector_type: Some(simd_type),
                        position: self.previous().position,
                    },
                ),
            );
        }
        let ghost orig = expressions@;
        let mut literal_elements: Vec<Literal> = Vec::new();
        let mut rest = expressions;
        let ghost mut n: int = 0;
        proof {
            assert(rest@ =~= orig.subrange(0, orig.len() as int));
            if good {
                assert(literals_agree(literal_elements@, es.subrange(0, 0)));
            }
        }
        while rest.len() > 0
            invariant
                old(self).kept_on(*self),
                !(kind_at(*old(self), 0) is RightBracket),
                0 <= n <= orig.len(),
                rest@ =~= orig.subrange(n, orig.len() as int),
                ts0 == old(self).token_seq(),
                k0 == old(self).pos() as int,
                good == (array_parse(ts0, k0) is Some),
                good ==> all_agree(orig, es),
                good ==> forall|x: int| 0 <= x < es.len() ==> is_literal_model(#[trigger] es[x]),
                good ==> literals_agree(literal_elements@, es.subrange(0, n)),
            decreases rest@.len(),
        {
            let expr = rest.remove(0);
            proof {
                assert(expr == orig[n]);
                if good {
                    lemma_all_agree_index(orig, es, n);
                    assert(is_literal_model(es[n]));
                    lemma_literal_model_agrees(orig[n], es[n]);
                }
            }
            match expr {
                Expr::Literal(lit) => {
                    let ghost lits_before = literal_elements@;
                    literal_elements.push(lit);
                    proof {
                        if good {
                            lemma_literals_agree_push(lits_before, es.subrange(0, n), lit, es[n]);
                            assert(es.subrange(0, n).push(es[n]) =~= es.subrange(0, n + 1));
                            assert(literal_elements@ =~= lits_before.push(lit));
                        }
                        n = n + 1;
                    }
                },
                _ => {
                    return Err(
                        CompileError::parse_error(
                            "Array literals can only contain literal values".to_owned(),
                            self.previous().position,
                        ),
                    );
                },
            }
        }
        proof {
            if good {
                assert(es.subrange(0, n) =~= es);
            }
        }
        Ok(Expr::Literal(Literal::Vector { elements: literal_elements, vector_type: None }))
    }

    /// Parses a block expression after its `{`: declarations up to the `}`.
    #[verifier::rlimit(100)]
    #[verifier::spinoff_prover]
    fn parse_block_expression(&mut self) -> (r: Result<Expr, CompileError>)
        requires
            old(self).wf(),
        ensures
            old(self).kept_on(*final(self)),
            r is Ok ==> old(self).pos() < final(self).pos(),
            r matches Ok(e) ==> e is Block,
            r matches Ok(e) ==> well_bracketed(e),
            kind_at(*old(self), 0) is RightBrace ==> (r matches Ok(Expr::Block(statements)) && statements@.len() == 0) && final(self).pos() == old(self).pos() + 1,
            block_end(old(self).token_seq(), old(self).pos() as int) matches Some(j) ==> (r matches Ok(Expr::Block(v)) && block_tree(old(self).token_seq(), old(self).pos() as int, v@)) && final(self).pos() == j,
        decreases old(self).token_seq().len() - old(self).pos(), 19int,
    {
        let mut statements: Vec<Stmt> = Vec::new();
        loop
            invariant
                block_end(old(self).token_seq(), old(self).pos() as int) is Some ==> block_end(self.token_seq(), self.pos() as int)
                    == block_end(old(self).token_seq(), old(self).pos() as int),
                block_end(old(self).token_seq(), old(self).pos() as int) is Some ==> forall|ss: Seq<Stmt>|
                    #[trigger] block_tree(self.token_seq(), self.pos() as int, ss) ==> block_tree(
                        old(self).token_seq(), old(self).pos() as int,
                        statements@ + ss,
                    ),
                old(self).kept_on(*self),
                kind_at(*old(self), 0) is RightBrace ==> statements@.len() == 0 && self.pos() == old(self).pos(),
                forall|i: int| 0 <= i < statements@.len() ==> statement_well_bracketed(#[trigger] statements@[i]),
            ensures
                self.checks(TokenKind::RightBrace) || self.at_end(),
            decreases self.token_seq().len() - self.pos(),
        {
            if self.check(&TokenKind::RightBrace) || self.is_at_end() {
                break;
            }
            let ghost before = statements@;
            let ghost at = self.pos() as int;
            let statement = self.declaration()?;
            statements.push(statement);
            proof {
                if block_end(old(self).token_seq(), old(self).pos() as int) is Some {
                    let ts = self.token_seq();
                    assert forall|ss: Seq<Stmt>| #[trigger]
                        block_tree(ts, self.pos() as int, ss) implies block_tree(
                        old(self).token_seq(),
                        old(self).pos() as int,
                        statements@ + ss,
                    ) by {
                        lemma_block_tree_step(ts, at, self.pos() as int, statement, ss);
                        assert(before + (seq![statement] + ss) =~= statements@ + ss);
                    }
                }
            }
        }
        proof {
            assert(statements@ + Seq::<Stmt>::empty() =~= statements@);
            if block_end(old(self).token_seq(), old(self).pos() as int) is Some {
                assert(block_tree(self.token_seq(), self.pos() as int, Seq::<Stmt>::empty()));
            }
        }
        self.consume(TokenKind::RightBrace, "Expected '}' after block".to_owned())?;
        Ok(Expr::Block(statements))
    }
}

impl Parser {
    /// Parses the value of a match expression: `||` over `&&` over `.|` over
    /// equality over comparison over match primaries (struct literals are not
    /// read here, so that the `{` of the arms is left).
    fn match_value(&mut self) -> (r: Result<Expr, CompileError>)
        requires
            old(self).wf(),
        ensures
            old(self).kept_on(*final(self)),
            r is Ok ==> old(self).pos() < final(self).pos(),
            match_lone_at(*old(self), 0) matches Some(e) ==> r == Ok::<Expr, CompileError>(e) && final(self).pos() == old(self).pos() + 1,
            match_operand_parse(old(self).token_seq(), old(self).pos() as int, 5) matches Some((m, j)) ==> (r matches Ok(x) && agrees(x, m)) && final(self).pos() == j,
        decreases old(self).token_seq().len() - old(self).pos(), 7int,
    {
        self.match_value_logical_or()
    }

    /// `||` operations over match values, from the left.
    fn match_value_logical_or(&mut self) -> (r: Result<Expr, CompileError>)
        requires
            old(self).wf(),
        ensures
            old(self).kept_on(*final(self)),
            r is Ok ==> old(self).pos() < final(self).pos(),
            match_lone_at(*old(self), 0) matches Some(e) ==> r == Ok::<Expr, CompileError>(e) && final(self).pos() == old(self).pos() + 1,
            match_operand_parse(old(self).token_seq(), old(self).pos() as int, 5) matches Some((m, j)) ==> (r matches Ok(x) && agrees(x, m)) && final(self).pos() == j,
        decreases old(self).token_seq().len() - old(self).pos(), 6int,
    {
        let mut expr = self.match_value_logical_and()?;
        let ghost mut m = match_operand_parse(old(self).token_seq(), old(self).pos() as int, 4)->Some_0.0;
        while self.check(&TokenKind::Or)
            invariant
                match_operand_parse(old(self).token_seq(), old(self).pos() as int, 5) is Some ==> agrees(expr, m) && match_chain_parse(self.token_seq(), self.pos() as int, 5, m) == match_operand_parse(old(self).token_seq(), old(self).pos() as int, 5),
                self.token_seq() == old(self).token_seq(),
                self.wf(),
                old(self).kept_on(*self),
                match_lone_at(*old(self), 0) matches Some(x) ==> expr == x && self.pos() == old(self).pos() + 1,
                old(self).pos() < self.pos(),
            decreases self.token_seq().len() - self.pos(),
        {
            let ghost at = self.pos() as int;
            self.advance();
            let right = self.match_value_logical_and()?;
            expr = Expr::Binary(Box::new(expr), BinaryOp::Or, Box::new(right));
            proof {
                if match_operand_parse(old(self).token_seq(), old(self).pos() as int, 5) is Some {
                    let rm = match_operand_parse(self.token_seq(), at + 1, 4)->Some_0.0;
                    m = joined_model(m, Operator::Plain(BinaryOp::Or), rm, match_level_position(self.token_seq(), 5, at, self.pos() as int));
                    assert(agrees(expr, m));
                }
            }
        }
        Ok(expr)
    }

    /// `&&` operations over match values, from the left.
    fn match_value_logical_and(&mut self) -> (r: Result<Expr, CompileError>)
        requires
            old(self).wf(),
        ensures
            old(self).kept_on(*final(self)),
            r is Ok ==> old(self).pos() < final(self).pos(),
            match_lone_at(*old(self), 0) matches Some(e) ==> r == Ok::<Expr, CompileError>(e) && final(self).pos() == old(self).pos() + 1,
            match_operand_parse(old(self).token_seq(), old(self).pos() as int, 4) matches Some((m, j)) ==> (r matches Ok(x) && agrees(x, m)) && final(self).pos() == j,
        decreases old(self).token_seq().len() - old(self).pos(), 5int,
    {
        let mut expr = self.match_value_simd_or()?;
        let ghost mut m = match_operand_parse(old(self).token_seq(), old(self).pos() as int, 3)->Some_0.0;
        while self.check(&TokenKind::And)
            invariant
                match_operand_parse(old(self).token_seq(), old(self).pos() as int, 4) is Some ==> agrees(expr, m) && match_chain_parse(self.token_seq(), self.pos() as int, 4, m) == match_operand_parse(old(self).token_seq(), old(self).pos() as int, 4),
                self.token_seq() == old(self).token_seq(),
                self.wf(),
                old(self).kept_on(*self),
                match_lone_at(*old(self), 0) matches Some(x) ==> expr == x && self.pos() == old(self).pos() + 1,
                old(self).pos() < self.pos(),
            decreases self.token_seq().len() - self.pos(),
        {
            let ghost at = self.pos() as int;
            self.advance();
            let right = self.match_value_simd_or()?;
            expr = Expr::Binary(Box::new(expr), BinaryOp::And, Box::new(right));
            proof {
                if match_operand_parse(old(self).token_seq(), old(self).pos() as int, 4) is Some {
                    let rm = match_operand_parse(self.token_seq(), at + 1, 3)->Some_0.0;
                    m = joined_model(m, Operator::Plain(BinaryOp::And), rm, match_level_position(self.token_seq(), 4, at, self.pos() as int));
                    assert(agrees(expr, m));
                }
            }
        }
        Ok(expr)
    }

    /// `.|` operations over match values, from the left.
    fn match_value_simd_or(&mut self) -> (r: Result<Expr, CompileError>)
        requires
            old(self).wf(),
        ensures
            old(self).kept_on(*final(self)),
            r is Ok ==> old(self).pos() < final(self).pos(),
            match_lone_at(*old(self), 0) matches Some(e) ==> r == Ok::<Expr, CompileError>(e) && final(self).pos() == old(self).pos() + 1,
            match_operand_parse(old(self).token_seq(), old(self).pos() as int, 3) matches Some((m, j)) ==> (r matches Ok(x) && agrees(x, m)) && final(self).pos() == j,
        decreases old(self).token_seq().len() - old(self).pos(), 4int,
    {
        let mut expr = self.match_value_equality()?;
        let ghost mut m = match_operand_parse(old(self).token_seq(), old(self).pos() as int, 2)->Some_0.0;
        while self.check(&TokenKind::DotOr)
            invariant
                match_operand_parse(old(self).token_seq(), old(self).pos() as int, 3) is Some ==> agrees(expr, m) && match_chain_parse(self.token_seq(), self.pos() as int, 3, m) == match_operand_parse(old(self).token_seq(), old(self).pos() as int, 3),
                self.token_seq() == old(self).token_seq(),
                self.wf(),
                old(self).kept_on(*self),
                match_lone_at(*old(self), 0) matches Some(x) ==> expr == x && self.pos() == old(self).pos() + 1,
                old(self).pos() < self.pos(),
            decreases self.token_seq().len() - self.pos(),
        {
            let ghost at = self.pos() as int;
            self.advance();
            let right = self.match_value_equality()?;
            expr = Expr::SIMD(
                SIMDExpr::ElementWise {
                    left: Box::new(expr),
                    operator: SIMDOperator::DotOr,
                    right: Box::new(right),
                    position: self.previous().position,
                },
            );
            proof {
                if match_operand_parse(old(self).token_seq(), old(self).pos() as int, 3) is Some {
                    let rm = match_operand_parse(self.token_seq(), at + 1, 2)->Some_0.0;
                    m = joined_model(m, Operator::Lanes(SIMDOperator::DotOr), rm, match_level_position(self.token_seq(), 3, at, self.pos() as int));
                    assert(agrees(expr, m));
                }
            }
        }
        Ok(expr)
    }

    /// Equality operations over match values, from the left.
    fn match_value_equality(&mut self) -> (r: Result<Expr, CompileError>)
        requires
            old(self).wf(),
        ensures
            old(self).kept_on(*final(self)),
            r is Ok ==> old(self).pos() < final(self).pos(),
            match_lone_at(*old(self), 0) matches Some(e) ==> r == Ok::<Expr, CompileError>(e) && final(self).pos() == old(self).pos() + 1,
            match_operand_parse(old(self).token_seq(), old(self).pos() as int, 2) matches Some((m, j)) ==> (r matches Ok(x) && agrees(x, m)) && final(self).pos() == j,
        decreases old(self).token_seq().len() - old(self).pos(), 3int,
    {
        let mut expr = self.match_value_comparison()?;
        let ghost mut m = match_operand_parse(old(self).token_seq(), old(self).pos() as int, 1)->Some_0.0;
        loop
            invariant
                match_operand_parse(old(self).token_seq(), old(self).pos() as int, 2) is Some ==> agrees(expr, m) && match_chain_parse(self.token_seq(), self.pos() as int, 2, m) == match_operand_parse(old(self).token_seq(), old(self).pos() as int, 2),
                self.token_seq() == old(self).token_seq(),
                self.wf(),
                old(self).kept_on(*self),
                match_lone_at(*old(self), 0) matches Some(x) ==> expr == x && self.pos() == old(self).pos() + 1,
                old(self).pos() < self.pos(),
            ensures
                match_operand_parse(old(self).token_seq(), old(self).pos() as int, 2) is Some ==> match_operand_parse(old(self).token_seq(), old(self).pos() as int, 2) == Some((m, self.pos() as int)) && agrees(expr, m),
            decreases self.token_seq().len() - self.pos(),
        {
            let ghost at = self.pos() as int;
            let found = equality_operator_of(&self.peek().kind);
            let op = match found {
                Some(op) => op,
                None => break,
            };
            let position = self.peek().position;
            self.advance();
            let right = self.match_value_comparison()?;
            expr = join(expr, op, right, position);
            proof {
                if match_operand_parse(old(self).token_seq(), old(self).pos() as int, 2) is Some {
                    let rm = match_operand_parse(self.token_seq(), at + 1, 1)->Some_0.0;
                    m = joined_model(m, op, rm, match_level_position(self.token_seq(), 2, at, self.pos() as int));
                    assert(agrees(expr, m));
                }
            }
        }
        Ok(expr)
    }

    /// Scalar comparisons over match primaries, from the left.
    fn match_value_comparison(&mut self) -> (r: Result<Expr, CompileError>)
        requires
            old(self).wf(),
        ensures
            old(self).kept_on(*final(self)),
            r is Ok ==> old(self).pos() < final(self).pos(),
            match_lone_at(*old(self), 0) matches Some(e) ==> r == Ok::<Expr, CompileError>(e) && final(self).pos() == old(self).pos() + 1,
            match_operand_parse(old(self).token_seq(), old(self).pos() as int, 1) matches Some((m, j)) ==> (r matches Ok(x) && agrees(x, m)) && final(self).pos() == j,
        decreases old(self).token_seq().len() - old(self).pos(), 2int,
    {
        proof {
            assert(match_operand_parse(self.token_seq(), self.pos() as int, 0) == match_primary_parse(
                self.token_seq(),
                self.pos() as int,
            ));
        }
        let mut expr = self.match_value_primary()?;
        let ghost mut m = match_operand_parse(old(self).token_seq(), old(self).pos() as int, 0)->Some_0.0;
        loop
            invariant
                match_operand_parse(old(self).token_seq(), old(self).pos() as int, 1) is Some ==> agrees(expr, m) && match_chain_parse(self.token_seq(), self.pos() as int, 1, m) == match_operand_parse(old(self).token_seq(), old(self).pos() as int, 1),
                self.token_seq() == old(self).token_seq(),
                self.wf(),
                old(self).kept_on(*self),
                match_lone_at(*old(self), 0) matches Some(x) ==> expr == x && self.pos() == old(self).pos() + 1,
                old(self).pos() < self.pos(),
            ensures
                match_operand_parse(old(self).token_seq(), old(self).pos() as int, 1) is Some ==> match_operand_parse(old(self).token_seq(), old(self).pos() as int, 1) == Some((m, self.pos() as int)) && agrees(expr, m),
            decreases self.token_seq().len() - self.pos(),
        {
            let ghost at = self.pos() as int;
            let found = comparison_operator_of(&self.peek().kind);
            let op = match found {
                Some(Operator::Plain(b)) => b,
                _ => break,
            };
            self.advance();
            proof {
                assert(match_operand_parse(self.token_seq(), self.pos() as int, 0) == match_primary_parse(
                    self.token_seq(),
                    self.pos() as int,
                ));
            }
            let right = self.match_value_primary()?;
            expr = Expr::Binary(Box::new(expr), op, Box::new(right));
            proof {
                if match_operand_parse(old(self).token_seq(), old(self).pos() as int, 1) is Some {
                    let rm = match_operand_parse(self.token_seq(), at + 1, 0)->Some_0.0;
                    m = joined_model(m, Operator::Plain(op), rm, match_level_position(self.token_seq(), 1, at, self.pos() as int));
                    assert(agrees(expr, m));
                }
            }
        }
        Ok(expr)
    }

    /// A primary expression of a match value: a literal, a variable, an enum
    /// literal, a call, a parenthesized expression (without a grouping node) or
    /// a unary operator applied to one; struct literals are not read.
    #[verifier::spinoff_prover]
    #[verifier::rlimit(100)]
    fn match_value_primary(&mut self) -> (r: Result<Expr, CompileError>)
        requires
            old(self).wf(),
        ensures
            old(self).kept_on(*final(self)),
            r is Ok ==> old(self).pos() < final(self).pos(),
            match_primary_result(*old(self), *final(self), r),
            match_lone_at(*old(self), 0) matches Some(e) ==> r == Ok::<Expr, CompileError>(e) && final(self).pos() == old(self).pos() + 1,
            match_primary_parse(old(self).token_seq(), old(self).pos() as int) matches Some((m, j)) ==> (r matches Ok(x) && agrees(x, m)) && final(self).pos() == j,
        decreases old(self).token_seq().len() - old(self).pos(), 1int,
    {
        let l = lead(&self.peek().kind);
        match l {
            Lead::Int(n) => {
                self.advance();
                return Ok(Expr::Literal(Literal::Integer(n)));
            },
            Lead::Float(s) => {
                self.advance();
                return Ok(Expr::Literal(Literal::Float(s)));
            },
            Lead::Str(s) => {
                self.advance();
                return Ok(Expr::Literal(Literal::String(s)));
            },
            Lead::Bool(b) => {
                self.advance();
                return Ok(Expr::Literal(Literal::Boolean(b)));
            },
            Lead::Ident(name) => {
                self.advance();
                if self.check(&TokenKind::DoubleColon) {
                    self.advance();
                    let ghost pv = self.pos() as int;
                    let variant = self.consume_identifier(
                        "Expected variant name after '::'".to_owned(),
                    )?;
                    let mut args: Vec<Expr> = Vec::new();
                    let ghost ts0 = self.token_seq();
                    let ghost p0 = old(self).pos() as int;
                    proof {
                        assert(pv == p0 + 2);
                        assert(ts0[pv].kind == TokenKind::Identifier(variant));
                    }
                    let ghost good = match_primary_parse(ts0, p0) is Some;
                    let ghost mut done: Seq<ExprModel> = Seq::empty();
                    proof {
                        assert(args@ =~= Seq::<Expr>::empty());
                        assert(done + Seq::<ExprModel>::empty() =~= done);
                    }
                    if self.check(&TokenKind::LeftParen) {
                        self.advance();
                        let ghost k0 = self.pos() as int;
                        if !self.check(&TokenKind::RightParen) {
                            loop
                                invariant_except_break
                                    good ==> list_from(ts0, self.pos() as int, TokenKind::RightParen) is Some,
                                    good ==> list_from(ts0, k0, TokenKind::RightParen) == Some(
                                        (
                                            done + list_from(ts0, self.pos() as int, TokenKind::RightParen)->Some_0.0,
                                            list_from(ts0, self.pos() as int, TokenKind::RightParen)->Some_0.1,
                                        ),
                                    ),
                                invariant
                                    old(self).kept_on(*self),
                                    old(self).pos() < self.pos(),
                                    lead_of(old(self).peek_token().kind) == Lead::Ident(name),
                                    next_kind(*old(self)) is DoubleColon,
                                    ts0 == self.token_seq(),
                                    ts0 == old(self).token_seq(),
                                    p0 == old(self).pos() as int,
                                    k0 == p0 + 4,
                                    k0 < ts0.len(),
                                    !(ts0[k0].kind is RightParen),
                                    good == (match_primary_parse(ts0, p0) is Some),
                                    good ==> list_parse(ts0, k0, TokenKind::RightParen) == list_from(ts0, k0, TokenKind::RightParen),
                                    good ==> list_from(ts0, k0, TokenKind::RightParen) is Some,
                                    good ==> all_agree(args@, done),
                                ensures
                                    good ==> all_agree(args@, list_parse(ts0, k0, TokenKind::RightParen)->Some_0.0)
                                        && self.pos() == list_parse(ts0, k0, TokenKind::RightParen)->Some_0.1
                                        && ts0[self.pos() as int].kind is RightParen,
                                decreases self.token_seq().len() - self.pos(),
                            {
                                let ghost before = args@;
                                let ghost done_before = done;
                                let ghost at = self.pos() as int;
                                let argument = self.expression()?;
                                args.push(argument);
                                proof {
                                    assert(args@ =~= before.push(argument));
                                    if good {
                                        let m = expression_parse(ts0, at)->Some_0.0;
                                        lemma_all_agree_push(before, done_before, argument, m);
                                        done = done_before.push(m);
                                    }
                                }
                                if !self.check(&TokenKind::Comma) {
                                    proof {
                                        if good {
                                            assert(done_before + seq![expression_parse(ts0, at)->Some_0.0] =~= done);
                                        }
                                    }
                                    break;
                                }
                                self.advance();
                                proof {
                                    if good {
                                        let rest = list_from(ts0, self.pos() as int, TokenKind::RightParen)->Some_0.0;
                                        assert(done_before + (seq![expression_parse(ts0, at)->Some_0.0] + rest) =~= done + rest);
                                    }
                                }
                            }
                        }
                        self.consume(
                            TokenKind::RightParen,
                            "Expected ')' after enum variant arguments".to_owned(),
                        )?;
                    }
                    let ghost k0 = p0 + 4;
                    proof {
                        if good {
                            assert(lead_of(ts0[p0].kind) == Lead::Ident(name));
                            assert(ts0[p0 + 2].kind == TokenKind::Identifier(variant));
                            if ts0[p0 + 3].kind is LeftParen {
                                if ts0[k0].kind is RightParen {
                                    assert(list_parse(ts0, k0, TokenKind::RightParen) == Some((Seq::<ExprModel>::empty(), k0)));
                                }
                                assert(match_primary_parse(ts0, p0)->Some_0.0 == ExprModel::EnumLiteral(
                                    name, variant, list_parse(ts0, k0, TokenKind::RightParen)->Some_0.0));
                                assert(all_agree(args@, list_parse(ts0, k0, TokenKind::RightParen)->Some_0.0));
                                assert(agrees(Expr::EnumLiteral { enum_name: name, variant, args },
                                    ExprModel::EnumLiteral(name, variant, list_parse(ts0, k0, TokenKind::RightParen)->Some_0.0)));
                            } else {
                                assert(all_agree(args@, Seq::<ExprModel>::empty()));
                                assert(match_primary_parse(ts0, p0)->Some_0.0 == ExprModel::EnumLiteral(
                                    name, variant, Seq::<ExprModel>::empty()));
                                assert(agrees(Expr::EnumLiteral { enum_name: name, variant, args },
                                    ExprModel::EnumLiteral(name, variant, Seq::<ExprModel>::empty())));
                            }
                        }
                    }
                    let e = Expr::EnumLiteral { enum_name: name, variant, args };
                    proof {
                        if good {
                            assert(agrees(e, match_primary_parse(ts0, p0)->Some_0.0));
                            assert(self.pos() == match_primary_parse(ts0, p0)->Some_0.1);
                        }
                    }
                    return Ok(e);
                }
                if self.check(&TokenKind::LeftParen) {
                    proof {
                        assert(agrees(Expr::Variable(name), ExprModel::Variable(name)));
                    }
                    return self.parse_function_call(name);
                }
                return Ok(Expr::Variable(name));
            },
            Lead::Paren => {
                self.advance();
                let expr = self.expression()?;
                self.consume(TokenKind::RightParen, "Expected ')' after expression".to_owned())?;
                return Ok(expr);
            },
            _ => {},
        }
        let found = unary_operator_of(&self.peek().kind);
        match found {
            Some(op) => {
                self.advance();
                let operand = self.match_value_primary()?;
                Ok(Expr::Unary(op, Box::new(operand)))
            },
            None => Err(
                CompileError::parse_error("Expected expression".to_owned(), self.peek().position),
            ),
        }
    }

    /// Parses a match expression after `match`: the value, `{`, arms of a
    /// pattern, `=>` and an expression (split by optional commas), and `}`.
    fn parse_match_expression(&mut self) -> (r: Result<Expr, CompileError>)
        requires
            old(self).wf(),
        ensures
            old(self).kept_on(*final(self)),
            r is Ok ==> old(self).pos() < final(self).pos(),
            r matches Ok(e) ==> e is Match,
            r matches Ok(e) ==> well_bracketed(e),
            match_lone_at(*old(self), 0) is Some && kind_at(*old(self), 1) is LeftBrace && kind_at(*old(self), 2) is RightBrace ==> (r matches Ok(Expr::Match { value, arms }) && *value == match_lone_at(*old(self), 0)->Some_0 && arms@.len() == 0) && final(self).pos() == old(self).pos() + 3,
            match_parse(old(self).token_seq(), old(self).pos() as int) matches Some((m, j)) ==> (r matches Ok(x) && agrees(x, m)) && final(self).pos() == j,
        decreases old(self).token_seq().len() - old(self).pos(), 8int,
    {
        let ghost ts0 = old(self).token_seq();
        let ghost p0 = old(self).pos() as int;
        let ghost good = match_parse(ts0, p0) is Some;
        let value = self.match_value()?;
        self.consume(TokenKind::LeftBrace, "Expected '{' after match value".to_owned())?;
        let ghost k0 = self.pos() as int;
        let mut arms: Vec<MatchArm> = Vec::new();
        let ghost mut done: Seq<(PatternModel, ExprModel)> = Seq::empty();
        proof {
            if good {
                assert(k0 == match_operand_parse(ts0, p0, 5)->Some_0.1 + 1);
                assert(done + arms_parse(ts0, k0)->Some_0.0 =~= arms_parse(ts0, k0)->Some_0.0);
            }
            assert(arms@ =~= Seq::<MatchArm>::empty());
        }
        loop
            invariant_except_break
                good ==> arms_parse(ts0, self.pos() as int) is Some,
                good ==> arms_parse(ts0, k0) == Some(
                    (
                        done + arms_parse(ts0, self.pos() as int)->Some_0.0,
                        arms_parse(ts0, self.pos() as int)->Some_0.1,
                    ),
                ),
            invariant
                ts0 == self.token_seq(),
                ts0 == old(self).token_seq(),
                p0 == old(self).pos() as int,
                good == (match_parse(ts0, p0) is Some),
                good ==> arms_agree(arms@, done),
                old(self).kept_on(*self),
                forall|i: int| 0 <= i < arms@.len() ==> well_bracketed(#[trigger] arms@[i].expression),
                old(self).pos() < self.pos(),
                match_lone_at(*old(self), 0) is Some && kind_at(*old(self), 1) is LeftBrace && kind_at(
                    *old(self),
                    2,
                ) is RightBrace ==> arms@.len() == 0 && self.pos() == old(self).pos() + 2,
            ensures
                good ==> arms_agree(arms@, arms_parse(ts0, k0)->Some_0.0)
                    && self.pos() == arms_parse(ts0, k0)->Some_0.1
                    && ts0[self.pos() as int].kind is RightBrace,
            decreases self.token_seq().len() - self.pos(),
        {
            if self.check(&TokenKind::RightBrace) || self.is_at_end() {
                proof {
                    if good {
                        assert(done + Seq::<(PatternModel, ExprModel)>::empty() =~= done);
                    }
                }
                break;
            }
            let ghost before = arms@;
            let ghost done_before = done;
            let ghost at = self.pos() as int;
            proof {
                if good {
                    assert(!(ts0[at].kind is RightBrace));
                    assert(!(ts0[at].kind is Eof));
                    assert(pattern_parse(ts0, at) is Some);
                    assert(ts0[pattern_parse(ts0, at)->Some_0.1].kind is FatArrow);
                }
            }
            let pattern = self.parse_pattern()?;
            self.consume(TokenKind::FatArrow, "Expected '=>' after pattern".to_owned())?;
            let ghost at_e = self.pos() as int;
            let expression = self.expression()?;
            let ghost arm_model = (pattern_parse(ts0, at)->Some_0.0, expression_parse(ts0, at_e)->Some_0.0);
            let ghost arm = MatchArm { pattern, expression };
            arms.push(MatchArm { pattern, expression });
            proof {
                assert(arms@ =~= before.push(arm));
                if good {
                    lemma_arms_agree_push(before, done_before, arm, arm_model);
                    done = done_before.push(arm_model);
                }
            }
            if self.check(&TokenKind::Comma) {
                self.advance();
                if self.check(&TokenKind::RightBrace) {
                    proof {
                        if good {
                            assert(done_before + seq![arm_model] =~= done);
                        }
                    }
                    break;
                }
            }
            proof {
                if good {
                    let rest = arms_parse(ts0, self.pos() as int)->Some_0.0;
                    assert(done_before + (seq![arm_model] + rest) =~= done + rest);
                }
            }
        }
        self.consume(TokenKind::RightBrace, "Expected '}' after match arms".to_owned())?;
        let e = Expr::Match { value: Box::new(value), arms };
        proof {
            if good {
                assert(match_parse(ts0, p0)->Some_0.0 == ExprModel::Match(
                    Box::new(match_operand_parse(ts0, p0, 5)->Some_0.0), arms_parse(ts0, k0)->Some_0.0));
            }
        }
        Ok(e)
    }

    /// Parses a pattern of a match arm (see [`pattern_result`]).
    fn parse_pattern(&mut self) -> (r: Result<Pattern, CompileError>)
        requires
            old(self).wf(),
        ensures
            old(self).kept_on(*final(self)),
            r is Ok ==> old(self).pos() < final(self).pos(),
            pattern_result(*old(self), *final(self), r),
            pattern_parse(old(self).token_seq(), old(self).pos() as int) matches Some((pm, j)) ==> (r matches Ok(x) && pattern_agrees(x, pm)) && final(self).pos() == j,
        decreases old(self).token_seq().len() - old(self).pos(), 1int,
    {
        let l = lead(&self.peek().kind);
        match l {
            Lead::Ident(name) => {
                self.advance();
                proof {
                    reveal_strlit("_");
                }
                if str_is(name.as_str(), "_") {
                    return Ok(Pattern::Wildcard);
                }
                if self.check(&TokenKind::DoubleColon) {
                    return self.parse_enum_variant_pattern(name);
                }
                Ok(Pattern::Variable(name))
            },
            Lead::Bool(b) => {
                self.advance();
                Ok(Pattern::Literal(Literal::Boolean(b)))
            },
            Lead::Int(n) => {
                self.advance();
                Ok(Pattern::Literal(Literal::Integer(n)))
            },
            Lead::Str(s) => {
                self.advance();
                Ok(Pattern::Literal(Literal::String(s)))
            },
            _ => Err(CompileError::parse_error("Expected pattern".to_owned(), self.peek().position)),
        }
    }

    /// Parses an enum variant pattern after the enum's name: `::`, the variant
    /// and optional patterns in parentheses.
    fn parse_enum_variant_pattern(&mut self, enum_name: String) -> (r: Result<
        Pattern,
        CompileError,
    >)
        requires
            old(self).wf(),
        ensures
            old(self).kept_on(*final(self)),
            r is Ok ==> old(self).pos() < final(self).pos(),
            r matches Ok(pattern) ==> (pattern matches Pattern::EnumVariant { enum_name: n, .. }
                && n == enum_name),
            kind_at(*old(self), 0) is DoubleColon && kind_at(*old(self), 1) is Identifier && !(kind_at(*old(self), 2) is LeftParen) ==> (r matches Ok(Pattern::EnumVariant { enum_name: n, variant, patterns }) && n == enum_name && variant == kind_at(*old(self), 1)->Identifier_0 && patterns@.len() == 0) && final(self).pos() == old(self).pos() + 2,
            variant_pattern_parse(old(self).token_seq(), old(self).pos() as int, enum_name) matches Some((pm, j)) ==> (r matches Ok(x) && pattern_agrees(x, pm)) && final(self).pos() == j,
        decreases old(self).token_seq().len() - old(self).pos(), 1int,
    {
        let ghost ts0 = old(self).token_seq();
        let ghost p0 = old(self).pos() as int;
        let ghost good = variant_pattern_parse(ts0, p0, enum_name) is Some;
        self.consume(TokenKind::DoubleColon, "Expected '::' for enum variant pattern".to_owned())?;
        let variant_name = self.consume_identifier("Expected variant name".to_owned())?;
        proof {
            assert(ts0[p0 + 1].kind == TokenKind::Identifier(variant_name));
        }
        let mut sub_patterns: Vec<Pattern> = Vec::new();
        let ghost mut done: Seq<PatternModel> = Seq::empty();
        if self.check(&TokenKind::LeftParen) {
            self.advance();
            let ghost k0 = self.pos() as int;
            if !self.check(&TokenKind::RightParen) {
                proof {
                    assert(done + Seq::<PatternModel>::empty() =~= done);
                    assert(patterns_agree(sub_patterns@, done));
                }
                loop
                    invariant_except_break
                        good ==> pattern_list_from(ts0, self.pos() as int) is Some,
                        good ==> pattern_list_from(ts0, k0) == Some(
                            (
                                done + pattern_list_from(ts0, self.pos() as int)->Some_0.0,
                                pattern_list_from(ts0, self.pos() as int)->Some_0.1,
                            ),
                        ),
                    invariant
                        old(self).kept_on(*self),
                        ts0 == self.token_seq(),
                        ts0 == old(self).token_seq(),
                        p0 == old(self).pos() as int,
                        k0 == p0 + 3,
                        ts0[p0 + 2].kind is LeftParen,
                        !(ts0[k0].kind is RightParen),
                        good == (variant_pattern_parse(ts0, p0, enum_name) is Some),
                        !(kind_at(*old(self), 0) is DoubleColon && kind_at(*old(self), 1) is Identifier && !(kind_at(*old(self), 2) is LeftParen)),
                        old(self).pos() < self.pos(),
                        good ==> patterns_agree(sub_patterns@, done),
                    ensures
                        good ==> patterns_agree(sub_patterns@, pattern_list_from(ts0, k0)->Some_0.0)
                            && self.pos() == pattern_list_from(ts0, k0)->Some_0.1
                            && ts0[self.pos() as int].kind is RightParen,
                    decreases self.token_seq().len() - self.pos(),
                {
                    let ghost before = sub_patterns@;
                    let ghost done_before = done;
                    let ghost at = self.pos() as int;
                    let pattern = self.parse_pattern()?;
                    sub_patterns.push(pattern);
                    proof {
                        assert(sub_patterns@ =~= before.push(pattern));
                        if good {
                            let pm = pattern_parse(ts0, at)->Some_0.0;
                            lemma_patterns_agree_push(before, done_before, pattern, pm);
                            done = done_before.push(pm);
                        }
                    }
                    if !self.check(&TokenKind::Comma) {
                        proof {
                            if good {
                                assert(ts0[self.pos() as int].kind is RightParen);
                                assert(done_before + seq![pattern_parse(ts0, at)->Some_0.0] =~= done);
                            }
                        }
                        break;
                    }
                    self.advance();
                    proof {
                        if good {
                            let rest = pattern_list_from(ts0, self.pos() as int)->Some_0.0;
                            assert(done_before + (seq![pattern_parse(ts0, at)->Some_0.0] + rest) =~= done + rest);
                        }
                    }
                }
            }
            self.consume(TokenKind::RightParen, "Expected ')' after variant patterns".to_owned())?;
            proof {
                if good {
                    if ts0[k0].kind is RightParen {
                        assert(variant_pattern_parse(ts0, p0, enum_name)->Some_0.0 == PatternModel::EnumVariant(
                            enum_name, variant_name, Seq::<PatternModel>::empty()));
                        assert(patterns_agree(sub_patterns@, Seq::<PatternModel>::empty()));
                    } else {
                        assert(variant_pattern_parse(ts0, p0, enum_name)->Some_0.0 == PatternModel::EnumVariant(
                            enum_name, variant_name, pattern_list_from(ts0, k0)->Some_0.0));
                    }
                }
            }
        } else {
            proof {
                if good {
                    assert(variant_pattern_parse(ts0, p0, enum_name)->Some_0.0 == PatternModel::EnumVariant(
                        enum_name, variant_name, Seq::<PatternModel>::empty()));
                    assert(patterns_agree(sub_patterns@, Seq::<PatternModel>::empty()));
                }
            }
        }
        Ok(Pattern::EnumVariant { enum_name, variant: variant_name, patterns: sub_patterns })
    }
}

/// The error for a token, written `kind_text`, that starts no expression.
pub fn no_expression_error_at(kind_text: &String, position: Position) -> (e: CompileError)
    ensures
        e matches CompileError::ParseError { message, position: p } && message@
            == "Expected expression, got "@ + kind_text@ && p == position,
{
    let mut message = "Expected expression, got ".to_owned();
    push_string(&mut message, kind_text);
    CompileError::parse_error(message, position)
}

/// `"Expected " + kind + tail` as a string.
fn kind_message(kind: &str, tail: &str) -> (m: String)
    ensures
        m@ == "Expected "@ + kind@ + tail@,
{
    let mut m = "Expected ".to_owned();
    push_str(&mut m, kind);
    push_str(&mut m, tail);
    m
}

impl Parser {
    /// Parses a declaration: a function, struct, enum or variable declaration
    /// after its keyword, or else a statement (see [`declaration_shape`]).
    pub fn declaration(&mut self) -> (r: Result<Stmt, CompileError>)
        requires
            old(self).wf(),
        ensures
            old(self).kept_on(*final(self)),
            r is Ok ==> old(self).pos() < final(self).pos(),
            r matches Ok(s) ==> declaration_shape(old(self).peek_token().kind, s),
            r matches Ok(s) ==> statement_well_bracketed(s),
            lone_at(*old(self), 0) is Some && kind_at(*old(self), 1) is Semicolon ==> r == Ok::<Stmt, CompileError>(Stmt::Expression(lone_at(*old(self), 0)->Some_0)) && final(self).pos() == old(self).pos() + 2,
            kind_at(*old(self), 0) is Return && kind_at(*old(self), 1) is Semicolon ==> r == Ok::<Stmt, CompileError>(Stmt::Return(None)) && final(self).pos() == old(self).pos() + 2,
            kind_at(*old(self), 0) is LeftBrace && kind_at(*old(self), 1) is RightBrace ==> (r matches Ok(Stmt::Block(statements)) && statements@.len() == 0) && final(self).pos() == old(self).pos() + 2,
            kind_at(*old(self), 0) is Let && kind_at(*old(self), 1) is Identifier && kind_at(*old(self), 2) is Semicolon ==> r == Ok::<Stmt, CompileError>(Stmt::VarDeclaration { name: kind_at(*old(self), 1)->Identifier_0, type_annotation: None, initializer: None }) && final(self).pos() == old(self).pos() + 3,
            declaration_end(old(self).token_seq(), old(self).pos() as int) matches Some(j) ==> (r matches Ok(s) && declaration_tree(old(self).token_seq(), old(self).pos() as int, s)) && final(self).pos() == j,
        decreases old(self).token_seq().len() - old(self).pos(), 18int,
    {
        if self.check(&TokenKind::Func) {
            self.advance();
            return self.function_declaration("function");
        }
        if self.check(&TokenKind::Struct) {
            self.advance();
            return self.struct_declaration();
        }
        if self.check(&TokenKind::Enum) {
            self.advance();
            return self.enum_declaration();
        }
        if self.check(&TokenKind::Let) {
            self.advance();
            return self.var_declaration();
        }
        self.statement()
    }

    /// Parses a function declaration after `func`: the name, the parameters
    /// (each a name, `:`, an optional `mut` and a type) in parentheses, an
    /// optional `->` and return type (`()` for none), and the body in braces.
    fn function_declaration(&mut self, kind: &str) -> (r: Result<Stmt, CompileError>)
        requires
            old(self).wf(),
        ensures
            old(self).kept_on(*final(self)),
            r is Ok ==> old(self).pos() < final(self).pos(),
            r matches Ok(s) ==> (s matches Stmt::FunctionDeclaration { name, body, attributes, .. }
                && old(self).peek_token().kind == TokenKind::Identifier(name) && *body is Block
                && attributes@.len() == 0),
            !(old(self).peek_token().kind is Identifier) ==> error_here(
                *old(self),
                *final(self),
                r,
                "Expected "@ + kind@ + " name"@,
            ),
            r matches Ok(s) ==> statement_well_bracketed(s),
            function_end(old(self).token_seq(), old(self).pos() as int) matches Some(j) ==> (r matches Ok(s) && function_tree(old(self).token_seq(), old(self).pos() as int, s)) && final(self).pos() == j,
        decreases old(self).token_seq().len() - old(self).pos(), 1int,
    {
        let ghost ts0 = self.token_seq();
        let ghost p0 = self.pos() as int;
        let ghost good = function_end(ts0, p0) is Some;
        let name = self.consume_identifier(kind_message(kind, " name"))?;
        let mut paren_message = kind_message("'(' after ", kind);
        push_str(&mut paren_message, " name");
        self.consume(TokenKind::LeftParen, paren_message)?;
        let ghost k0 = self.pos() as int;
        let ghost listed = good && !(ts0[k0].kind is RightParen);
        let mut parameters: Vec<Parameter> = Vec::new();
        proof {
            assert(parameters@ =~= Seq::<Parameter>::empty());
            if listed {
                assert(parameter_list_end(ts0, k0) == parameters_end(ts0, k0));
                assert(parameters_end(ts0, k0) is Some);
                assert forall|ps: Seq<Parameter>| #[trigger]
                    parameters_tree(ts0, k0, ps) implies parameters_tree(ts0, k0, parameters@ + ps) by {
                    assert(parameters@ + ps =~= ps);
                }
            }
        }
        if !self.check(&TokenKind::RightParen) {
            loop
                invariant_except_break
                    listed ==> parameters_end(ts0, self.pos() as int) is Some,
                    listed ==> parameters_end(ts0, self.pos() as int) == parameters_end(ts0, k0),
                    listed ==> forall|ps: Seq<Parameter>| #[trigger]
                        parameters_tree(ts0, self.pos() as int, ps) ==> parameters_tree(
                            ts0,
                            k0,
                            parameters@ + ps,
                        ),
                invariant
                    old(self).kept_on(*self),
                    old(self).pos() < self.pos(),
                    old(self).peek_token().kind is Identifier,
                    ts0 == self.token_seq(),
                    0 <= k0 < ts0.len(),
                    !(ts0[k0].kind is RightParen),
                    listed == good,
                    ts0 == old(self).token_seq(),
                    p0 == old(self).pos() as int,
                    good == (function_end(ts0, p0) is Some),
                ensures
                    listed ==> ts0[self.pos() as int].kind is RightParen,
                    listed ==> self.pos() == parameters_end(ts0, k0)->Some_0 && parameters_tree(
                        ts0,
                        k0,
                        parameters@,
                    ),
                decreases self.token_seq().len() - self.pos(),
            {
                let ghost k = self.pos() as int;
                let ghost before = parameters@;
                let param_name = self.consume_identifier("Expected parameter name".to_owned())?;
                self.consume(TokenKind::Colon, "Expected ':' after parameter name".to_owned())?;
                let is_mutable = self.check(&TokenKind::Mut);
                if is_mutable {
                    self.advance();
                }
                let ghost t = self.pos() as int;
                let type_text = self.consume_type_name("Expected parameter type".to_owned())?;
                let parameter = Parameter {
                    name: param_name,
                    type_annotation: TypeAnnotation { name: type_text, is_mutable },
                };
                let ghost single = seq![parameter];
                parameters.push(parameter);
                if !self.check(&TokenKind::Comma) {
                    proof {
                        if listed {
                            assert(single[0] == parameter);
                            assert(parameters_tree(ts0, k, single));
                            assert(before + single =~= parameters@);
                        }
                    }
                    break;
                }
                self.advance();
                proof {
                    if listed {
                        assert forall|ps: Seq<Parameter>| #[trigger]
                            parameters_tree(ts0, self.pos() as int, ps) implies parameters_tree(
                            ts0,
                            k0,
                            parameters@ + ps,
                        ) by {
                            let longer = single + ps;
                            assert(longer[0] == parameter);
                            assert(longer.drop_first() =~= ps);
                            assert(parameters_tree(ts0, k, longer));
                            assert(before + longer =~= parameters@ + ps);
                        }
                    }
                }
            }
        }
        self.consume(TokenKind::RightParen, "Expected ')' after parameters".to_owned())?;
        let ghost a = self.pos() as int;
        let return_type = if self.check(&TokenKind::Arrow) {
            self.advance();
            let is_mutable = self.check(&TokenKind::Mut);
            if is_mutable {
                self.advance();
            }
            if self.check(&TokenKind::LeftParen) {
                self.advance();
                self.consume(TokenKind::RightParen, "Expected ')' for unit return type".to_owned())?;
                Some(TypeAnnotation { name: "()".to_owned(), is_mutable })
            } else {
                let type_text = self.consume_type_name("Expected return type".to_owned())?;
                Some(TypeAnnotation { name: type_text, is_mutable })
            }
        } else {
            None
        };
        proof {
            if good {
                assert(a == parameter_list_end(ts0, p0 + 2)->Some_0 + 1);
                assert(return_type_tree(ts0, a, return_type));
                assert(self.pos() == return_type_end(ts0, a)->Some_0);
            }
        }
        let mut open_message = kind_message("'{' before ", kind);
        push_str(&mut open_message, " body");
        self.consume(TokenKind::LeftBrace, open_message)?;
        let body = self.block()?;
        let attributes: Vec<String> = Vec::new();
        Ok(
            Stmt::FunctionDeclaration {
                name,
                params: parameters,
                return_type,
                body: Box::new(body),
                attributes,
            },
        )
    }

    /// Parses a struct declaration after `struct`: the name and, in braces,
    /// fields of a name, `:` and a type, split by commas (a trailing one
    /// allowed).
    fn struct_declaration(&mut self) -> (r: Result<Stmt, CompileError>)
        requires
            old(self).wf(),
        ensures
            old(self).kept_on(*final(self)),
            r is Ok ==> old(self).pos() < final(self).pos(),
            r matches Ok(s) ==> (s matches Stmt::StructDeclaration { name, .. }
                && old(self).peek_token().kind == TokenKind::Identifier(name)),
            !(old(self).peek_token().kind is Identifier) ==> error_here(
                *old(self),
                *final(self),
                r,
                "Expected struct name"@,
            ),
            r matches Ok(s) ==> statement_well_bracketed(s),
            struct_end(old(self).token_seq(), old(self).pos() as int) matches Some(j) ==> (r matches Ok(s) && struct_tree(old(self).token_seq(), old(self).pos() as int, s)) && final(self).pos() == j,
    {
        let ghost ts0 = self.token_seq();
        let ghost p0 = self.pos() as int;
        let ghost good = struct_end(ts0, p0) is Some;
        let name = self.consume_identifier("Expected struct name".to_owned())?;
        self.consume(TokenKind::LeftBrace, "Expected '{' after struct name".to_owned())?;
        let ghost k0 = self.pos() as int;
        let ghost listed = good && !(ts0[k0].kind is RightBrace);
        let mut fields: Vec<StructField> = Vec::new();
        proof {
            assert(fields@ =~= Seq::<StructField>::empty());
            if listed {
                assert forall|fs: Seq<StructField>| #[trigger]
                    fields_tree(ts0, k0, fs) implies fields_tree(ts0, k0, fields@ + fs) by {
                    assert(fields@ + fs =~= fs);
                }
            }
        }
        if !self.check(&TokenKind::RightBrace) {
            loop
                invariant_except_break
                    listed ==> fields_end(ts0, self.pos() as int) is Some,
                    listed ==> fields_end(ts0, self.pos() as int) == fields_end(ts0, k0),
                    listed ==> forall|fs: Seq<StructField>| #[trigger]
                        fields_tree(ts0, self.pos() as int, fs) ==> fields_tree(
                            ts0,
                            k0,
                            fields@ + fs,
                        ),
                invariant
                    old(self).kept_on(*self),
                    old(self).pos() < self.pos(),
                    old(self).peek_token().kind is Identifier,
                    ts0 == self.token_seq(),
                    ts0 == old(self).token_seq(),
                    p0 == old(self).pos() as int,
                    0 <= k0 < ts0.len(),
                    !(ts0[k0].kind is RightBrace),
                    listed == good,
                    good == (struct_end(ts0, p0) is Some),
                ensures
                    listed ==> ts0[self.pos() as int].kind is RightBrace,
                    listed ==> self.pos() == fields_end(ts0, k0)->Some_0 && fields_tree(
                        ts0,
                        k0,
                        fields@,
                    ),
                decreases self.token_seq().len() - self.pos(),
            {
                let ghost k = self.pos() as int;
                let ghost before = fields@;
                let field_name = self.consume_identifier("Expected field name".to_owned())?;
                self.consume(TokenKind::Colon, "Expected ':' after field name".to_owned())?;
                let field_type = self.consume_type_name("Expected field type".to_owned())?;
                let field = StructField {
                    name: field_name,
                    type_annotation: TypeAnnotation { name: field_type, is_mutable: false },
                };
                let ghost single = seq![field];
                fields.push(field);
                if !self.check(&TokenKind::Comma) {
                    proof {
                        if listed {
                            assert(single[0] == field);
                            assert(fields_tree(ts0, k, single));
                            assert(before + single =~= fields@);
                        }
                    }
                    break;
                }
                self.advance();
                if self.check(&TokenKind::RightBrace) {
                    proof {
                        if listed {
                            assert(single[0] == field);
                            assert(fields_tree(ts0, k, single));
                            assert(before + single =~= fields@);
                        }
                    }
                    break;
                }
                proof {
                    if listed {
                        assert forall|fs: Seq<StructField>| #[trigger]
                            fields_tree(ts0, self.pos() as int, fs) implies fields_tree(
                            ts0,
                            k0,
                            fields@ + fs,
                        ) by {
                            let longer = single + fs;
                            assert(longer[0] == field);
                            assert(longer.drop_first() =~= fs);
                            assert(fields_tree(ts0, k, longer));
                            assert(before + longer =~= fields@ + fs);
                        }
                    }
                }
            }
        }
        self.consume(TokenKind::RightBrace, "Expected '}' after struct fields".to_owned())?;
        Ok(Stmt::StructDeclaration { name, fields })
    }

    /// Parses an enum declaration after `enum`: the name and, in braces,
    /// variants split by commas (a trailing one allowed), each a name and
    /// optionally the types it carries in parentheses.
    fn enum_declaration(&mut self) -> (r: Result<Stmt, CompileError>)
        requires
            old(self).wf(),
        ensures
            old(self).kept_on(*final(self)),
            r is Ok ==> old(self).pos() < final(self).pos(),
            r matches Ok(s) ==> (s matches Stmt::EnumDeclaration { name, .. }
                && old(self).peek_token().kind == TokenKind::Identifier(name)),
            !(old(self).peek_token().kind is Identifier) ==> error_here(
                *old(self),
                *final(self),
                r,
                "Expected enum name"@,
            ),
            r matches Ok(s) ==> statement_well_bracketed(s),
            enum_end(old(self).token_seq(), old(self).pos() as int) matches Some(j) ==> (r matches Ok(s) && enum_tree(old(self).token_seq(), old(self).pos() as int, s)) && final(self).pos() == j,
    {
        let ghost ts0 = self.token_seq();
        let ghost p0 = self.pos() as int;
        let ghost good = enum_end(ts0, p0) is Some;
        let name = self.consume_identifier("Expected enum name".to_owned())?;
        self.consume(TokenKind::LeftBrace, "Expected '{' after enum name".to_owned())?;
        let ghost k0 = self.pos() as int;
        let ghost listed = good && !(ts0[k0].kind is RightBrace);
        let mut variants: Vec<EnumVariant> = Vec::new();
        proof {
            assert(variants@ =~= Seq::<EnumVariant>::empty());
            if listed {
                assert forall|vs: Seq<EnumVariant>| #[trigger]
                    variants_tree(ts0, k0, vs) implies variants_tree(ts0, k0, variants@ + vs) by {
                    assert(variants@ + vs =~= vs);
                }
            }
        }
        if !self.check(&TokenKind::RightBrace) {
            loop
                invariant_except_break
                    listed ==> variants_end(ts0, self.pos() as int) is Some,
                    listed ==> variants_end(ts0, self.pos() as int) == variants_end(ts0, k0),
                    listed ==> forall|vs: Seq<EnumVariant>| #[trigger]
                        variants_tree(ts0, self.pos() as int, vs) ==> variants_tree(
                            ts0,
                            k0,
                            variants@ + vs,
                        ),
                invariant
                    old(self).kept_on(*self),
                    old(self).pos() < self.pos(),
                    old(self).peek_token().kind is Identifier,
                    ts0 == self.token_seq(),
                    ts0 == old(self).token_seq(),
                    p0 == old(self).pos() as int,
                    0 <= k0 < ts0.len(),
                    !(ts0[k0].kind is RightBrace),
                    listed == good,
                    good == (enum_end(ts0, p0) is Some),
                ensures
                    listed ==> ts0[self.pos() as int].kind is RightBrace,
                    listed ==> self.pos() == variants_end(ts0, k0)->Some_0 && variants_tree(
                        ts0,
                        k0,
                        variants@,
                    ),
                decreases self.token_seq().len() - self.pos(),
            {
                let ghost start = self.pos();
                let ghost k = self.pos() as int;
                let ghost before = variants@;
                let variant_name = self.consume_identifier("Expected variant name".to_owned())?;
                let data = if self.check(&TokenKind::LeftParen) {
                    self.advance();
                    let mut type_list: Vec<TypeAnnotation> = Vec::new();
                    proof {
                        assert(type_list@ =~= Seq::<TypeAnnotation>::empty());
                        if listed && !(ts0[k + 2].kind is RightParen) {
                            assert forall|d: Seq<TypeAnnotation>| #[trigger]
                                variant_types_tree(ts0, k + 2, d) implies variant_types_tree(
                                ts0,
                                k + 2,
                                type_list@ + d,
                            ) by {
                                assert(type_list@ + d =~= d);
                            }
                        }
                    }
                    if !self.check(&TokenKind::RightParen) {
                        loop
                            invariant_except_break
                                listed ==> variant_types_end(ts0, self.pos() as int) is Some,
                                listed ==> variant_types_end(ts0, self.pos() as int)
                                    == variant_types_end(ts0, k + 2),
                                listed ==> forall|d: Seq<TypeAnnotation>| #[trigger]
                                    variant_types_tree(ts0, self.pos() as int, d)
                                        ==> variant_types_tree(ts0, k + 2, type_list@ + d),
                            invariant
                                old(self).kept_on(*self),
                                old(self).pos() < self.pos(),
                                start < self.pos(),
                                old(self).peek_token().kind is Identifier,
                                ts0 == self.token_seq(),
                                ts0 == old(self).token_seq(),
                                p0 == old(self).pos() as int,
                                listed == good,
                                good == (enum_end(ts0, p0) is Some),
                                listed ==> variants_end(ts0, k) is Some,
                                0 <= k && k + 2 < ts0.len(),
                                ts0[k + 1].kind is LeftParen,
                                !(ts0[k + 2].kind is RightParen),
                            ensures
                                listed ==> ts0[self.pos() as int].kind is RightParen,
                                listed ==> self.pos() == variant_types_end(ts0, k + 2)->Some_0
                                    && variant_types_tree(ts0, k + 2, type_list@),
                            decreases self.token_seq().len() - self.pos(),
                        {
                            let ghost t = self.pos() as int;
                            let ghost types_before = type_list@;
                            let type_text = self.consume_type_name(
                                "Expected type in variant".to_owned(),
                            )?;
                            let annotation = TypeAnnotation { name: type_text, is_mutable: false };
                            let ghost single = seq![annotation];
                            type_list.push(annotation);
                            if !self.check(&TokenKind::Comma) {
                                proof {
                                    if listed {
                                        assert(single[0] == annotation);
                                        assert(variant_types_tree(ts0, t, single));
                                        assert(types_before + single =~= type_list@);
                                    }
                                }
                                break;
                            }
                            self.advance();
                            proof {
                                if listed {
                                    assert forall|d: Seq<TypeAnnotation>| #[trigger]
                                        variant_types_tree(ts0, self.pos() as int, d)
                                        implies variant_types_tree(ts0, k + 2, type_list@ + d) by {
                                        let longer = single + d;
                                        assert(longer[0] == annotation);
                                        assert(longer.drop_first() =~= d);
                                        assert(variant_types_tree(ts0, t, longer));
                                        assert(types_before + longer =~= type_list@ + d);
                                    }
                                }
                            }
                        }
                    }
                    self.consume(
                        TokenKind::RightParen,
                        "Expected ')' after variant types".to_owned(),
                    )?;
                    Some(type_list)
                } else {
                    None
                };
                let variant = EnumVariant { name: variant_name, data };
                let ghost single = seq![variant];
                proof {
                    if listed {
                        assert(variant_tree(ts0, k, variant));
                        assert(variant_end(ts0, k) == Some(self.pos() as int));
                    }
                }
                variants.push(variant);
                if !self.check(&TokenKind::Comma) {
                    proof {
                        if listed {
                            assert(single[0] == variant);
                            assert(variants_tree(ts0, k, single));
                            assert(before + single =~= variants@);
                        }
                    }
                    break;
                }
                self.advance();
                if self.check(&TokenKind::RightBrace) {
                    proof {
                        if listed {
                            assert(single[0] == variant);
                            assert(variants_tree(ts0, k, single));
                            assert(before + single =~= variants@);
                        }
                    }
                    break;
                }
                proof {
                    if listed {
                        assert forall|vs: Seq<EnumVariant>| #[trigger]
                            variants_tree(ts0, self.pos() as int, vs) implies variants_tree(
                            ts0,
                            k0,
                            variants@ + vs,
                        ) by {
                            let longer = single + vs;
                            assert(longer[0] == variant);
                            assert(longer.drop_first() =~= vs);
                            assert(variants_tree(ts0, k, longer));
                            assert(before + longer =~= variants@ + vs);
                        }
                    }
                }
            }
        }
        self.consume(TokenKind::RightBrace, "Expected '}' after enum variants".to_owned())?;
        Ok(Stmt::EnumDeclaration { name, variants })
    }

    /// Parses a variable declaration after `let`: an optional `mut`, the name,
    /// an optional `:` and type, an optional `=` and initializer, and `;`.
    #[verifier::spinoff_prover]
    #[verifier::rlimit(100)]
    fn var_declaration(&mut self) -> (r: Result<Stmt, CompileError>)
        requires
            old(self).wf(),
        ensures
            old(self).kept_on(*final(self)),
            r is Ok ==> old(self).pos() < final(self).pos(),
            r matches Ok(s) ==> (s matches Stmt::VarDeclaration { name, .. } && old(
                self,
            ).token_seq()[old(self).pos() + if old(self).peek_token().kind is Mut {
                1int
            } else {
                0int
            }].kind == TokenKind::Identifier(name)),
            r matches Ok(s) ==> statement_well_bracketed(s),
            kind_at(*old(self), 0) matches TokenKind::Identifier(name) ==> (kind_at(*old(self), 1) is Semicolon ==> r == Ok::<Stmt, CompileError>(Stmt::VarDeclaration { name, type_annotation: None, initializer: None }) && final(self).pos() == old(self).pos() + 2),
            var_declaration_end(old(self).token_seq(), old(self).pos() as int) matches Some(j) ==> (r matches Ok(s) && var_declaration_tree(old(self).token_seq(), old(self).pos() as int, s)) && final(self).pos() == j,
        decreases old(self).token_seq().len() - old(self).pos(), 1int,
    {
        let is_mutable = self.check(&TokenKind::Mut);
        if is_mutable {
            self.advance();
        }
        let name = self.consume_identifier("Expected variable name".to_owned())?;
        let type_annotation = if self.check(&TokenKind::Colon) {
            self.advance();
            let type_text = self.consume_type_name("Expected type after ':'".to_owned())?;
            Some(TypeAnnotation { name: type_text, is_mutable })
        } else {
            None
        };
        let initializer = if self.check(&TokenKind::Assign) {
            self.advance();
            Some(self.expression()?)
        } else {
            None
        };
        self.consume(TokenKind::Semicolon, "Expected ';' after variable declaration".to_owned())?;
        Ok(Stmt::VarDeclaration { name, type_annotation, initializer })
    }

    /// Parses a statement: a return, block, if, while or for statement after
    /// its keyword or brace, or else an expression statement (see
    /// [`statement_shape`]).
    fn statement(&mut self) -> (r: Result<Stmt, CompileError>)
        requires
            old(self).wf(),
        ensures
            old(self).kept_on(*final(self)),
            r is Ok ==> old(self).pos() < final(self).pos(),
            r matches Ok(s) ==> statement_shape(old(self).peek_token().kind, s),
            r matches Ok(s) ==> statement_well_bracketed(s),
            lone_at(*old(self), 0) is Some && kind_at(*old(self), 1) is Semicolon ==> r == Ok::<Stmt, CompileError>(Stmt::Expression(lone_at(*old(self), 0)->Some_0)) && final(self).pos() == old(self).pos() + 2,
            kind_at(*old(self), 0) is Return && kind_at(*old(self), 1) is Semicolon ==> r == Ok::<Stmt, CompileError>(Stmt::Return(None)) && final(self).pos() == old(self).pos() + 2,
            kind_at(*old(self), 0) is LeftBrace && kind_at(*old(self), 1) is RightBrace ==> (r matches Ok(Stmt::Block(statements)) && statements@.len() == 0) && final(self).pos() == old(self).pos() + 2,
            !(old(self).peek_token().kind is Func || old(self).peek_token().kind is Let || old(self).peek_token().kind is Struct || old(self).peek_token().kind is Enum) ==> (declaration_end(old(self).token_seq(), old(self).pos() as int) matches Some(j) ==> (r matches Ok(s) && declaration_tree(old(self).token_seq(), old(self).pos() as int, s)) && final(self).pos() == j),
        decreases old(self).token_seq().len() - old(self).pos(), 17int,
    {
        if self.check(&TokenKind::Return) {
            self.advance();
            return self.return_statement();
        }
        if self.check(&TokenKind::LeftBrace) {
            self.advance();
            return self.block();
        }
        if self.check(&TokenKind::If) {
            self.advance();
            return self.if_statement();
        }
        if self.check(&TokenKind::While) {
            self.advance();
            return self.while_statement();
        }
        if self.check(&TokenKind::For) {
            self.advance();
            return self.for_statement();
        }
        self.expression_statement()
    }

    /// Parses a return statement after `return`: an optional value and `;`.
    fn return_statement(&mut self) -> (r: Result<Stmt, CompileError>)
        requires
            old(self).wf(),
        ensures
            old(self).kept_on(*final(self)),
            r is Ok ==> old(self).pos() < final(self).pos(),
            r matches Ok(s) ==> s is Return,
            old(self).checks(TokenKind::Semicolon) ==> r == Ok::<Stmt, CompileError>(
                Stmt::Return(None),
            ) && final(self).pos() == old(self).pos() + 1,
            r matches Ok(s) ==> statement_well_bracketed(s),
            return_end(old(self).token_seq(), old(self).pos() as int) matches Some(j) ==> (r matches Ok(s) && return_tree(old(self).token_seq(), old(self).pos() as int, s)) && final(self).pos() == j,
        decreases old(self).token_seq().len() - old(self).pos(), 16int,
    {
        let expr = if !self.check(&TokenKind::Semicolon) {
            Some(self.expression()?)
        } else {
            None
        };
        self.consume(TokenKind::Semicolon, "Expected ';' after return value".to_owned())?;
        Ok(Stmt::Return(expr))
    }

    /// Parses a block after its `{`: declarations up to the `}`.
    #[verifier::rlimit(100)]
    #[verifier::spinoff_prover]
    fn block(&mut self) -> (r: Result<Stmt, CompileError>)
        requires
            old(self).wf(),
        ensures
            old(self).kept_on(*final(self)),
            r is Ok ==> old(self).pos() < final(self).pos(),
            r matches Ok(s) ==> s is Block,
            r matches Ok(s) ==> statement_well_bracketed(s),
            kind_at(*old(self), 0) is RightBrace ==> (r matches Ok(Stmt::Block(statements)) && statements@.len() == 0) && final(self).pos() == old(self).pos() + 1,
            block_end(old(self).token_seq(), old(self).pos() as int) matches Some(j) ==> (r matches Ok(s) && s matches Stmt::Block(v) && block_tree(old(self).token_seq(), old(self).pos() as int, v@)) && final(self).pos() == j,
        decreases old(self).token_seq().len() - old(self).pos(), 19int,
    {
        let mut statements: Vec<Stmt> = Vec::new();
        loop
            invariant
                block_end(old(self).token_seq(), old(self).pos() as int) is Some ==> block_end(self.token_seq(), self.pos() as int)
                    == block_end(old(self).token_seq(), old(self).pos() as int),
                block_end(old(self).token_seq(), old(self).pos() as int) is Some ==> forall|ss: Seq<Stmt>|
                    #[trigger] block_tree(self.token_seq(), self.pos() as int, ss) ==> block_tree(
                        old(self).token_seq(), old(self).pos() as int,
                        statements@ + ss,
                    ),
                old(self).kept_on(*self),
                kind_at(*old(self), 0) is RightBrace ==> statements@.len() == 0 && self.pos() == old(self).pos(),
                forall|i: int| 0 <= i < statements@.len() ==> statement_well_bracketed(#[trigger] statements@[i]),
            ensures
                self.checks(TokenKind::RightBrace) || self.at_end(),
            decreases self.token_seq().len() - self.pos(),
        {
            if self.check(&TokenKind::RightBrace) || self.is_at_end() {
                break;
            }
            let ghost before = statements@;
            let ghost at = self.pos() as int;
            let statement = self.declaration()?;
            statements.push(statement);
            proof {
                if block_end(old(self).token_seq(), old(self).pos() as int) is Some {
                    let ts = self.token_seq();
                    assert forall|ss: Seq<Stmt>| #[trigger]
                        block_tree(ts, self.pos() as int, ss) implies block_tree(
                        old(self).token_seq(),
                        old(self).pos() as int,
                        statements@ + ss,
                    ) by {
                        lemma_block_tree_step(ts, at, self.pos() as int, statement, ss);
                        assert(before + (seq![statement] + ss) =~= statements@ + ss);
                    }
                }
            }
        }
        proof {
            assert(statements@ + Seq::<Stmt>::empty() =~= statements@);
            if block_end(old(self).token_seq(), old(self).pos() as int) is Some {
                assert(block_tree(self.token_seq(), self.pos() as int, Seq::<Stmt>::empty()));
            }
        }
        self.consume(TokenKind::RightBrace, "Expected '}' after block".to_owned())?;
        Ok(Stmt::Block(statements))
    }

    /// Parses an if statement after `if`: the condition in parentheses, a
    /// statement and an optional `else` and statement.
    fn if_statement(&mut self) -> (r: Result<Stmt, CompileError>)
        requires
            old(self).wf(),
        ensures
            old(self).kept_on(*final(self)),
            r is Ok ==> old(self).pos() < final(self).pos(),
            r matches Ok(s) ==> s is If,
            !old(self).checks(TokenKind::LeftParen) ==> error_here(
                *old(self),
                *final(self),
                r,
                "Expected '(' after 'if'"@,
            ),
            r matches Ok(s) ==> statement_well_bracketed(s),
            if_end(old(self).token_seq(), old(self).pos() as int) matches Some(j) ==> (r matches Ok(s) && if_tree(old(self).token_seq(), old(self).pos() as int, s)) && final(self).pos() == j,
        decreases old(self).token_seq().len() - old(self).pos(), 1int,
    {
        self.consume(TokenKind::LeftParen, "Expected '(' after 'if'".to_owned())?;
        let condition = self.expression()?;
        self.consume(TokenKind::RightParen, "Expected ')' after if condition".to_owned())?;
        let then_branch = Box::new(self.statement()?);
        let else_branch = if self.check(&TokenKind::Else) {
            self.advance();
            Some(Box::new(self.statement()?))
        } else {
            None
        };
        Ok(Stmt::If { condition, then_branch, else_branch })
    }

    /// Parses a while statement after `while`: the condition in parentheses
    /// and a statement.
    fn while_statement(&mut self) -> (r: Result<Stmt, CompileError>)
        requires
            old(self).wf(),
        ensures
            old(self).kept_on(*final(self)),
            r is Ok ==> old(self).pos() < final(self).pos(),
            r matches Ok(s) ==> s is While,
            !old(self).checks(TokenKind::LeftParen) ==> error_here(
                *old(self),
                *final(self),
                r,
                "Expected '(' after 'while'"@,
            ),
            r matches Ok(s) ==> statement_well_bracketed(s),
            while_end(old(self).token_seq(), old(self).pos() as int) matches Some(j) ==> (r matches Ok(s) && while_tree(old(self).token_seq(), old(self).pos() as int, s)) && final(self).pos() == j,
        decreases old(self).token_seq().len() - old(self).pos(), 1int,
    {
        self.consume(TokenKind::LeftParen, "Expected '(' after 'while'".to_owned())?;
        let condition = self.expression()?;
        self.consume(TokenKind::RightParen, "Expected ')' after while condition".to_owned())?;
        let body = Box::new(self.statement()?);
        Ok(Stmt::While { condition, body })
    }

    /// Parses a for statement after `for`: a for-in loop (a variable, `in`,
    /// the iterable and a statement) where an identifier and `in` come first;
    /// else, in parentheses, an optional initializer, condition and increment
    /// split by `;`, and a statement.
    fn for_statement(&mut self) -> (r: Result<Stmt, CompileError>)
        requires
            old(self).wf(),
        ensures
            old(self).kept_on(*final(self)),
            r is Ok ==> old(self).pos() < final(self).pos(),
            r matches Ok(s) ==> (if old(self).peek_token().kind is Identifier && old(
                self,
            ).next_is_in() {
                s matches Stmt::ForIn { variable, .. } && old(self).peek_token().kind
                    == TokenKind::Identifier(variable)
            } else {
                s is For
            }),
            r matches Ok(s) ==> statement_well_bracketed(s),
            kind_at(*old(self), 0) is LeftParen && kind_at(*old(self), 1) is Semicolon && kind_at(*old(self), 2) is Semicolon && kind_at(*old(self), 3) is RightParen && kind_at(*old(self), 4) is LeftBrace && kind_at(*old(self), 5) is RightBrace ==> (r matches Ok(Stmt::For { initializer, condition, increment, body }) && initializer is None && condition is None && increment is None && (*body matches Stmt::Block(statements) && statements@.len() == 0)) && final(self).pos() == old(self).pos() + 6,
            for_end(old(self).token_seq(), old(self).pos() as int) matches Some(j) ==> (r matches Ok(s) && for_tree(old(self).token_seq(), old(self).pos() as int, s)) && final(self).pos() == j,
        decreases old(self).token_seq().len() - old(self).pos(), 2int,
    {
        if self.check(&TokenKind::Identifier(String::new())) && self.peek_next_is_in() {
            return self.for_in_loop();
        }
        self.counted_for_loop()
    }

    /// Parses a for-in loop after `for`: the variable, `in`, the iterable and a
    /// statement.
    #[verifier::spinoff_prover]
    #[verifier::rlimit(100)]
    fn for_in_loop(&mut self) -> (r: Result<Stmt, CompileError>)
        requires
            old(self).wf(),
            old(self).peek_token().kind is Identifier,
            old(self).next_is_in(),
        ensures
            old(self).kept_on(*final(self)),
            r is Ok ==> old(self).pos() < final(self).pos(),
            r matches Ok(s) ==> s matches Stmt::ForIn { variable, .. } && old(self).peek_token().kind
                == TokenKind::Identifier(variable),
            r matches Ok(s) ==> statement_well_bracketed(s),
            for_end(old(self).token_seq(), old(self).pos() as int) matches Some(j) ==> (r matches Ok(s) && for_tree(old(self).token_seq(), old(self).pos() as int, s)) && final(self).pos() == j,
        decreases old(self).token_seq().len() - old(self).pos(), 1int,
    {
        let variable = self.consume_identifier(
            "Expected variable name in for-in loop".to_owned(),
        )?;
        self.consume(TokenKind::In, "Expected 'in' keyword".to_owned())?;
        let iterable = self.expression()?;
        let body = Box::new(self.statement()?);
        Ok(Stmt::ForIn { variable, iterable, body })
    }

    /// Parses a counted for loop after `for`: in parentheses, an optional
    /// initializer, condition and increment split by `;`, and a statement.
    #[verifier::spinoff_prover]
    #[verifier::rlimit(100)]
    fn counted_for_loop(&mut self) -> (r: Result<Stmt, CompileError>)
        requires
            old(self).wf(),
            !(old(self).peek_token().kind is Identifier && old(self).next_is_in()),
        ensures
            old(self).kept_on(*final(self)),
            r is Ok ==> old(self).pos() < final(self).pos(),
            r matches Ok(s) ==> s is For,
            r matches Ok(s) ==> statement_well_bracketed(s),
            kind_at(*old(self), 0) is LeftParen && kind_at(*old(self), 1) is Semicolon && kind_at(*old(self), 2) is Semicolon && kind_at(*old(self), 3) is RightParen && kind_at(*old(self), 4) is LeftBrace && kind_at(*old(self), 5) is RightBrace ==> (r matches Ok(Stmt::For { initializer, condition, increment, body }) && initializer is None && condition is None && increment is None && (*body matches Stmt::Block(statements) && statements@.len() == 0)) && final(self).pos() == old(self).pos() + 6,
            for_end(old(self).token_seq(), old(self).pos() as int) matches Some(j) ==> (r matches Ok(s) && for_tree(old(self).token_seq(), old(self).pos() as int, s)) && final(self).pos() == j,
        decreases old(self).token_seq().len() - old(self).pos(), 1int,
    {
        self.consume(TokenKind::LeftParen, "Expected '(' after 'for'".to_owned())?;
        let initializer = if self.check(&TokenKind::Semicolon) {
            self.advance();
            None
        } else if self.check(&TokenKind::Let) {
            self.advance();
            Some(Box::new(self.var_declaration()?))
        } else {
            Some(Box::new(self.expression_statement()?))
        };
        let condition = if !self.check(&TokenKind::Semicolon) {
            Some(self.expression()?)
        } else {
            None
        };
        self.consume(TokenKind::Semicolon, "Expected ';' after loop condition".to_owned())?;
        let increment = if !self.check(&TokenKind::RightParen) {
            Some(self.expression()?)
        } else {
            None
        };
        self.consume(TokenKind::RightParen, "Expected ')' after for clauses".to_owned())?;
        let body = Box::new(self.statement()?);
        Ok(Stmt::For { initializer, condition, increment, body })
    }

    /// Parses an expression statement: an expression and `;`.
    fn expression_statement(&mut self) -> (r: Result<Stmt, CompileError>)
        requires
            old(self).wf(),
        ensures
            old(self).kept_on(*final(self)),
            r is Ok ==> old(self).pos() < final(self).pos(),
            r matches Ok(s) ==> s is Expression,
            r matches Ok(s) ==> statement_well_bracketed(s),
            lone_at(*old(self), 0) is Some && kind_at(*old(self), 1) is Semicolon ==> r == Ok::<Stmt, CompileError>(Stmt::Expression(lone_at(*old(self), 0)->Some_0)) && final(self).pos() == old(self).pos() + 2,
            expression_statement_end(old(self).token_seq(), old(self).pos() as int) matches Some(j) ==> (r matches Ok(Stmt::Expression(x)) && agrees(x, expression_parse(old(self).token_seq(), old(self).pos() as int)->Some_0.0)) && final(self).pos() == j,
        decreases old(self).token_seq().len() - old(self).pos(), 16int,
    {
        let expr = self.expression()?;
        self.consume(TokenKind::Semicolon, "Expected ';' after expression".to_owned())?;
        Ok(Stmt::Expression(expr))
    }
}

impl Parser {
    /// Parses the tokens as a program: declarations up to the end of input. A
    /// declaration that fails is recorded, and unless the parser is already
    /// recovering it skips to a statement boundary; a success ends recovery.
    /// After five rounds at one position the parser is moved on by a token and
    /// to a boundary; a thousand rounds are the most, the next is an error.
    /// At the end the first recorded error is returned, if there is one.
    pub fn parse_program(&mut self) -> (r: Result<Vec<Stmt>, CompileError>)
        requires
            old(self).wf(),
        ensures
            final(self).wf(),
            final(self).token_seq() == old(self).token_seq(),
            old(self).pos() <= final(self).pos(),
            old(self).error_seq().len() <= final(self).error_seq().len(),
            final(self).error_seq().subrange(0, old(self).error_seq().len() as int) == old(
                self,
            ).error_seq(),
            r is Ok <==> (final(self).at_end() && final(self).error_seq().len() == 0),
            r matches Ok(statements) ==> statements@.len() <= 1000 && forall|i: int|
                0 <= i < statements@.len() ==> statement_well_bracketed(#[trigger] statements@[i]),
            r matches Err(e) ==> (final(self).error_seq().len() > 0 && e == final(self).error_seq()[0])
                || is_round_limit_error(e),
            !final(self).at_end() ==> (r matches Err(e) && is_round_limit_error(e)),
            program_end(old(self).token_seq(), old(self).pos() as int) && program_count(old(self).token_seq(), old(self).pos() as int) <= 1000 && old(self).error_seq().len() == 0 ==> (r matches Ok(v) && program_tree(old(self).token_seq(), old(self).pos() as int, v@)),
    {
        let mut statements: Vec<Stmt> = Vec::new();
        let mut loop_count: usize = 0;
        let mut last_position: usize = self.position();
        let mut position_stuck_count: usize = 0;
        let ghost ts0 = self.token_seq();
        let ghost p0 = self.pos() as int;
        let ghost good = program_end(ts0, p0) && program_count(ts0, p0) <= 1000
            && self.error_seq().len() == 0;
        proof {
            if good {
                assert forall|ss: Seq<Stmt>| #[trigger]
                    program_tree(ts0, p0, ss) implies program_tree(ts0, p0, statements@ + ss) by {
                    assert(statements@ + ss =~= ss);
                }
            }
        }
        while !self.is_at_end()
            invariant
                ts0 == old(self).token_seq(),
                p0 == old(self).pos() as int,
                good == (program_end(ts0, p0) && program_count(ts0, p0) <= 1000
                    && old(self).error_seq().len() == 0),
                good ==> program_end(ts0, self.pos() as int),
                good ==> statements@.len() + program_count(ts0, self.pos() as int) == program_count(
                    ts0,
                    p0,
                ),
                good ==> loop_count == statements@.len(),
                good ==> self.error_seq().len() == 0,
                good ==> forall|ss: Seq<Stmt>| #[trigger]
                    program_tree(ts0, self.pos() as int, ss) ==> program_tree(
                        ts0,
                        p0,
                        statements@ + ss,
                    ),
                self.wf(),
                self.token_seq() == old(self).token_seq(),
                old(self).pos() <= self.pos(),
                old(self).error_seq().len() <= self.error_seq().len(),
                self.error_seq().subrange(0, old(self).error_seq().len() as int) == old(
                    self,
                ).error_seq(),
                loop_count <= 1000,
                position_stuck_count <= loop_count,
                statements@.len() <= loop_count,
                forall|i: int|
                    0 <= i < statements@.len() ==> statement_well_bracketed(#[trigger] statements@[i]),
                self.error_seq().len() == 0 ==> if loop_count == 0 {
                    last_position == self.pos() && position_stuck_count == 0
                } else {
                    last_position < self.pos() && position_stuck_count <= 1
                },
            decreases 1000 - loop_count,
        {
            loop_count = loop_count + 1;
            if self.position() == last_position {
                position_stuck_count = position_stuck_count + 1;
                if position_stuck_count > 5 {
                    self.advance();
                    self.synchronize();
                    position_stuck_count = 0;
                }
            } else {
                position_stuck_count = 0;
            }
            last_position = self.position();
            if loop_count > 1000 {
                return Err(
                    CompileError::parse_error(
                        "Infinite loop detected in parser".to_owned(),
                        self.peek().position,
                    ),
                );
            }
            let ghost at = self.pos() as int;
            let ghost before = statements@;
            proof {
                if good {
                    assert(program_count(ts0, at) >= 1);
                }
            }
            match self.declaration() {
                Ok(statement) => {
                    statements.push(statement);
                    self.set_recovering(false);
                    proof {
                        if good {
                            assert forall|ss: Seq<Stmt>| #[trigger]
                                program_tree(ts0, self.pos() as int, ss) implies program_tree(
                                ts0,
                                p0,
                                statements@ + ss,
                            ) by {
                                let longer = seq![statement] + ss;
                                assert(longer[0] == statement);
                                assert(longer.drop_first() =~= ss);
                                assert(program_tree(ts0, at, longer));
                                assert(before + longer =~= statements@ + ss);
                            }
                        }
                    }
                },
                Err(error) => {
                    self.record_error(error);
                    if !self.recovering_now() {
                        self.set_recovering(true);
                        self.synchronize();
                    }
                },
            }
        }
        proof {
            if good {
                assert(program_tree(ts0, self.pos() as int, Seq::<Stmt>::empty()));
                assert(statements@ + Seq::<Stmt>::empty() =~= statements@);
            }
        }
        let errors = self.get_errors();
        if errors.len() > 0 {
            return Err(errors[0].duplicate());
        }
        Ok(statements)
    }

    /// Parses one declaration for a caller that takes a program piece by
    /// piece: none at the end of input; a failure is recorded and returned,
    /// and unless the parser is already recovering it skips to a statement
    /// boundary; a success ends recovery.
    pub fn parse_statement(&mut self) -> (r: Result<Option<Stmt>, CompileError>)
        requires
            old(self).wf(),
        ensures
            final(self).wf(),
            final(self).token_seq() == old(self).token_seq(),
            old(self).pos() <= final(self).pos(),
            r == Ok::<Option<Stmt>, CompileError>(None) <==> old(self).at_end(),
            old(self).at_end() ==> old(self).unmoved(*final(self)),
            r matches Ok(Some(s)) ==> {
                &&& declaration_shape(old(self).peek_token().kind, s)
                &&& statement_well_bracketed(s)
                &&& old(self).pos() < final(self).pos()
                &&& final(self).error_seq() == old(self).error_seq()
                &&& !final(self).recovering()
            },
            r matches Err(e) ==> final(self).error_seq() == old(self).error_seq().push(e)
                && final(self).recovering(),
            !old(self).at_end() ==> (declaration_end(old(self).token_seq(), old(self).pos() as int) matches Some(j) ==> (r matches Ok(Some(s)) && declaration_tree(old(self).token_seq(), old(self).pos() as int, s)) && final(self).pos() == j),
    {
        if self.is_at_end() {
            return Ok(None);
        }
        match self.declaration() {
            Ok(statement) => {
                self.set_recovering(false);
                Ok(Some(statement))
            },
            Err(error) => {
                self.record_error(error.duplicate());
                if !self.recovering_now() {
                    self.set_recovering(true);
                    self.synchronize();
                }
                Err(error)
            },
        }
    }
}

} // verus!
