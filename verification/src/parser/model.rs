//! Syntax trees as values of specifications: expression trees and patterns
//! whose lists are sequences, and the relation between them and the trees the
//! parser builds.

use vstd::prelude::*;
use crate::ast::{
    BinaryOp, Expr, Literal, MatchArm, Pattern, ReductionOp, SIMDExpr, SIMDOperator,
    SIMDVectorType, StructFieldInit, UnaryOp,
};
use crate::lexer::{Position, Token};
use super::grammar::block_tree;

verus! {

/// A pattern of a match arm, its sub-patterns as a sequence.
pub enum PatternModel {
    Wildcard,
    Variable(String),
    Lit(Literal),
    EnumVariant(String, String, Seq<PatternModel>),
}

/// An expression tree with its lists as sequences: one node for each kind of
/// expression the parser builds. `Lit` holds a scalar literal, `Array` the
/// elements of an array literal, and `Block` the tokens and the position after
/// the `{` of a block expression, whose declarations are those the tokens give
/// from there on (see [`block_tree`]).
pub enum ExprModel {
    Lit(Literal),
    Array(Seq<ExprModel>),
    Variable(String),
    Binary(Box<ExprModel>, BinaryOp, Box<ExprModel>),
    Unary(UnaryOp, Box<ExprModel>),
    Call(Box<ExprModel>, Seq<ExprModel>),
    Index(Box<ExprModel>, Box<ExprModel>),
    Slice(Box<ExprModel>, Box<ExprModel>, Box<ExprModel>),
    FieldAccess(Box<ExprModel>, String),
    Grouping(Box<ExprModel>),
    ElementWise(Box<ExprModel>, SIMDOperator, Box<ExprModel>, Position),
    VectorLiteral(Seq<ExprModel>, SIMDVectorType, Position),
    Reduction(Box<ExprModel>, ReductionOp, Position),
    DotProduct(Box<ExprModel>, Box<ExprModel>, Position),
    VectorStore(Box<ExprModel>, Box<ExprModel>, Option<u32>, Position),
    StructLiteral(String, Seq<(String, ExprModel)>),
    EnumLiteral(String, String, Seq<ExprModel>),
    Match(Box<ExprModel>, Seq<(PatternModel, ExprModel)>),
    Block(Seq<Token>, int),
}

/// Whether a pattern the parser built is the one a model describes.
pub open spec fn pattern_agrees(p: Pattern, m: PatternModel) -> bool
    decreases m,
{
    match m {
        PatternModel::Wildcard => p is Wildcard,
        PatternModel::Variable(n) => p == Pattern::Variable(n),
        PatternModel::Lit(l) => p == Pattern::Literal(l),
        PatternModel::EnumVariant(en, v, ps) => p matches Pattern::EnumVariant {
            enum_name,
            variant,
            patterns,
        } && enum_name == en && variant == v && patterns_agree(patterns@, ps),
    }
}

/// Whether each pattern of a list is the one the model at its place describes.
pub open spec fn patterns_agree(ps: Seq<Pattern>, ms: Seq<PatternModel>) -> bool
    decreases ms,
{
    if ms.len() == 0 {
        ps.len() == 0
    } else {
        &&& ps.len() == ms.len()
        &&& patterns_agree(ps.drop_last(), ms.subrange(0, ms.len() - 1))
        &&& pattern_agrees(ps.last(), ms[ms.len() - 1])
    }
}

/// Whether an expression the parser built is the tree a model describes.
pub open spec fn agrees(e: Expr, m: ExprModel) -> bool
    decreases e, 0int,
{
    match m {
        ExprModel::Lit(l) => e == Expr::Literal(l),
        ExprModel::Array(ms) => e matches Expr::Literal(Literal::Vector { elements, vector_type })
            && vector_type is None && literals_agree(elements@, ms),
        ExprModel::Variable(n) => e == Expr::Variable(n),
        ExprModel::Binary(l, op, r) => e matches Expr::Binary(a, o, b) && o == op && agrees(*a, *l)
            && agrees(*b, *r),
        ExprModel::Unary(op, x) => e matches Expr::Unary(o, a) && o == op && agrees(*a, *x),
        ExprModel::Call(f, args) => e matches Expr::Call(c, a) && agrees(*c, *f) && all_agree(
            a@,
            args,
        ),
        ExprModel::Index(x, i) => e matches Expr::Index(a, b) && agrees(*a, *x) && agrees(*b, *i),
        ExprModel::Slice(x, s, t) => e matches Expr::Slice { array, start, end } && agrees(
            *array,
            *x,
        ) && agrees(*start, *s) && agrees(*end, *t),
        ExprModel::FieldAccess(x, n) => e matches Expr::FieldAccess(a, name) && name == n && agrees(
            *a,
            *x,
        ),
        ExprModel::Grouping(x) => e matches Expr::Grouping(a) && agrees(*a, *x),
        ExprModel::ElementWise(l, op, r, p) => e matches Expr::SIMD(
            SIMDExpr::ElementWise { left, operator, right, position },
        ) && operator == op && position == p && agrees(*left, *l) && agrees(*right, *r),
        ExprModel::VectorLiteral(ms, t, p) => e matches Expr::SIMD(
            SIMDExpr::VectorLiteral { elements, vector_type, position },
        ) && vector_type == Some(t) && position == p && all_agree(elements@, ms),
        ExprModel::Reduction(x, op, p) => e matches Expr::SIMD(
            SIMDExpr::Reduction { vector, operation, position },
        ) && operation == op && position == p && agrees(*vector, *x),
        ExprModel::DotProduct(l, r, p) => e matches Expr::SIMD(
            SIMDExpr::DotProduct { left, right, position },
        ) && position == p && agrees(*left, *l) && agrees(*right, *r),
        ExprModel::VectorStore(a, v, al, p) => e matches Expr::SIMD(
            SIMDExpr::VectorStore { address, vector, alignment, position },
        ) && alignment == al && position == p && agrees(*address, *a) && agrees(*vector, *v),
        ExprModel::StructLiteral(n, fs) => e matches Expr::StructLiteral { name, fields }
            && name == n && fields_agree(fields@, fs),
        ExprModel::EnumLiteral(en, v, args) => e matches Expr::EnumLiteral {
            enum_name,
            variant,
            args: a,
        } && enum_name == en && variant == v && all_agree(a@, args),
        ExprModel::Match(v, arms) => e matches Expr::Match { value, arms: a } && agrees(*value, *v)
            && arms_agree(a@, arms),
        ExprModel::Block(ts, k) => e matches Expr::Block(v) && block_tree(ts, k, v@),
    }
}

/// Whether each expression of a list is the tree the model at its place
/// describes.
pub open spec fn all_agree(es: Seq<Expr>, ms: Seq<ExprModel>) -> bool
    decreases es, 0int,
{
    if ms.len() == 0 {
        es.len() == 0
    } else {
        &&& es.len() == ms.len()
        &&& all_agree(es.drop_last(), ms.subrange(0, ms.len() - 1))
        &&& agrees(es.last(), ms[ms.len() - 1])
    }
}

/// Whether a literal is the one a model describes: a scalar literal, or an
/// array literal of such.
pub open spec fn literal_agrees(l: Literal, m: ExprModel) -> bool
    decreases m,
{
    match m {
        ExprModel::Lit(x) => l == x,
        ExprModel::Array(ms) => l matches Literal::Vector { elements, vector_type }
            && vector_type is None && literals_agree(elements@, ms),
        _ => false,
    }
}

/// Whether each literal of a list is the one the model at its place describes.
pub open spec fn literals_agree(ls: Seq<Literal>, ms: Seq<ExprModel>) -> bool
    decreases ms,
{
    if ms.len() == 0 {
        ls.len() == 0
    } else {
        &&& ls.len() == ms.len()
        &&& literals_agree(ls.drop_last(), ms.subrange(0, ms.len() - 1))
        &&& literal_agrees(ls.last(), ms[ms.len() - 1])
    }
}

/// Whether the field values of a struct literal are the named values of a
/// model, in order.
pub open spec fn fields_agree(fs: Seq<StructFieldInit>, ms: Seq<(String, ExprModel)>) -> bool
    decreases fs, 0int,
{
    if ms.len() == 0 {
        fs.len() == 0
    } else {
        &&& fs.len() == ms.len()
        &&& fields_agree(fs.drop_last(), ms.subrange(0, ms.len() - 1))
        &&& fs.last().name == ms[ms.len() - 1].0
        &&& agrees(fs.last().value, ms[ms.len() - 1].1)
    }
}

/// Whether the arms of a match expression are the patterns and expressions of
/// a model, in order.
pub open spec fn arms_agree(arms: Seq<MatchArm>, ms: Seq<(PatternModel, ExprModel)>) -> bool
    decreases arms, 0int,
{
    if ms.len() == 0 {
        arms.len() == 0
    } else {
        &&& arms.len() == ms.len()
        &&& arms_agree(arms.drop_last(), ms.subrange(0, ms.len() - 1))
        &&& pattern_agrees(arms.last().pattern, ms[ms.len() - 1].0)
        &&& agrees(arms.last().expression, ms[ms.len() - 1].1)
    }
}

/// Whether a literal model is a literal of an array literal's elements: a
/// scalar literal or an array literal.
pub open spec fn is_literal_model(m: ExprModel) -> bool {
    m is Lit || m is Array
}

/// Pushing an expression that agrees with a model onto a list that agrees with
/// a list of models keeps them in agreement.
pub proof fn lemma_all_agree_push(es: Seq<Expr>, ms: Seq<ExprModel>, e: Expr, m: ExprModel)
    requires
        all_agree(es, ms),
        agrees(e, m),
    ensures
        all_agree(es.push(e), ms.push(m)),
{
    assert(es.push(e).drop_last() =~= es);
    assert(ms.push(m).subrange(0, ms.len() as int) =~= ms);
}

/// Pushing a field value that agrees with a named model keeps the field values
/// in agreement.
pub proof fn lemma_fields_agree_push(
    fs: Seq<StructFieldInit>,
    ms: Seq<(String, ExprModel)>,
    f: StructFieldInit,
    m: (String, ExprModel),
)
    requires
        fields_agree(fs, ms),
        f.name == m.0,
        agrees(f.value, m.1),
    ensures
        fields_agree(fs.push(f), ms.push(m)),
{
    assert(fs.push(f).drop_last() =~= fs);
    assert(ms.push(m).subrange(0, ms.len() as int) =~= ms);
}

/// Pushing an arm that agrees with a model keeps the arms in agreement.
pub proof fn lemma_arms_agree_push(
    arms: Seq<MatchArm>,
    ms: Seq<(PatternModel, ExprModel)>,
    a: MatchArm,
    m: (PatternModel, ExprModel),
)
    requires
        arms_agree(arms, ms),
        pattern_agrees(a.pattern, m.0),
        agrees(a.expression, m.1),
    ensures
        arms_agree(arms.push(a), ms.push(m)),
{
    assert(arms.push(a).drop_last() =~= arms);
    assert(ms.push(m).subrange(0, ms.len() as int) =~= ms);
}

/// Pushing a literal that agrees with a model keeps the literals in agreement.
pub proof fn lemma_literals_agree_push(ls: Seq<Literal>, ms: Seq<ExprModel>, l: Literal, m: ExprModel)
    requires
        literals_agree(ls, ms),
        literal_agrees(l, m),
    ensures
        literals_agree(ls.push(l), ms.push(m)),
{
    assert(ls.push(l).drop_last() =~= ls);
    assert(ms.push(m).subrange(0, ms.len() as int) =~= ms);
}

/// Pushing a pattern that agrees with a model keeps the patterns in agreement.
pub proof fn lemma_patterns_agree_push(
    ps: Seq<Pattern>,
    ms: Seq<PatternModel>,
    p: Pattern,
    m: PatternModel,
)
    requires
        patterns_agree(ps, ms),
        pattern_agrees(p, m),
    ensures
        patterns_agree(ps.push(p), ms.push(m)),
{
    assert(ps.push(p).drop_last() =~= ps);
    assert(ms.push(m).subrange(0, ms.len() as int) =~= ms);
}

/// Lists in agreement have the same length, and agree at each place.
pub proof fn lemma_all_agree_index(es: Seq<Expr>, ms: Seq<ExprModel>, i: int)
    requires
        all_agree(es, ms),
        0 <= i < ms.len(),
    ensures
        es.len() == ms.len(),
        agrees(es[i], ms[i]),
    decreases ms.len(),
{
    if i < ms.len() - 1 {
        lemma_all_agree_index(es.drop_last(), ms.subrange(0, ms.len() - 1), i);
        assert(es.drop_last()[i] == es[i]);
    }
}

/// An expression that agrees with a literal model is a literal that agrees
/// with it.
pub proof fn lemma_literal_model_agrees(e: Expr, m: ExprModel)
    requires
        agrees(e, m),
        is_literal_model(m),
    ensures
        e matches Expr::Literal(l) && literal_agrees(l, m),
{
    match m {
        ExprModel::Lit(x) => {
            assert(e == Expr::Literal(x));
        },
        ExprModel::Array(ms) => {},
        _ => {},
    }
}

} // verus!
