//! Choosing how to run a program from its complexity: JIT execution for simple
//! programs, compilation for complex ones, and JIT with a fallback in between.

use vstd::prelude::*;
use crate::ast::{Expr, MatchArm, Parameter, SIMDExpr, Stmt, StructFieldInit, TypeAnnotation};
use crate::error::CompileError;
use crate::text::chars_of;

verus! {

/// How a program should be executed.
#[derive(Debug, Clone, Copy, PartialEq, Eq, Structural)]
pub enum ExecutionMode {
    /// Direct JIT execution - safe for simple programs
    JitSafe,
    /// Try JIT first, fall back to compilation if needed
    JitRisky,
    /// Skip JIT, compile directly
    CompileRequired,
}

/// Program complexity analysis results.
#[derive(Debug, Clone, Copy, PartialEq, Eq, Structural)]
pub struct ComplexityAnalysis {
    /// Program has SIMD function calls with vector parameters
    pub has_simd_function_calls: bool,
    /// Total number of statements
    pub statement_count: usize,
    /// Deepest statement nesting seen
    pub max_recursion_depth: usize,
    /// Has complex control flow (loops, deep conditionals)
    pub complex_control_flow: bool,
    /// Has SIMD vector operations
    pub has_simd_operations: bool,
    /// Number of function definitions
    pub function_count: usize,
}

impl Default for ComplexityAnalysis {
    fn default() -> (a: Self)
        ensures
            a == ComplexityAnalysis::empty(),
    {
        ComplexityAnalysis {
            has_simd_function_calls: false,
            statement_count: 0,
            max_recursion_depth: 0,
            complex_control_flow: false,
            has_simd_operations: false,
            function_count: 0,
        }
    }
}

/// Statement count beyond which a program is large.
const LARGE_PROGRAM_THRESHOLD: usize = 50;

/// Function count beyond which a program is complex.
const COMPLEX_FUNCTION_THRESHOLD: usize = 15;

/// Nesting depth beyond which JIT execution is risky.
const MAX_RECURSION_DEPTH_THRESHOLD: usize = 5;

/// The counts of an analysis, unbounded.
pub struct Counts {
    pub simd_calls: bool,
    pub statements: nat,
    pub max_depth: nat,
    pub complex_flow: bool,
    pub simd_ops: bool,
    pub functions: nat,
}

/// The counts of an analysis.
pub open spec fn counts_of(a: ComplexityAnalysis) -> Counts {
    Counts {
        simd_calls: a.has_simd_function_calls,
        statements: a.statement_count as nat,
        max_depth: a.max_recursion_depth as nat,
        complex_flow: a.complex_control_flow,
        simd_ops: a.has_simd_operations,
        functions: a.function_count as nat,
    }
}

/// No count beyond the number of statements.
pub open spec fn counts_ok(c: Counts) -> bool {
    c.max_depth <= c.statements && c.functions <= c.statements
}

impl ComplexityAnalysis {
    /// Nothing seen yet.
    pub open spec fn empty() -> ComplexityAnalysis {
        ComplexityAnalysis {
            has_simd_function_calls: false,
            statement_count: 0,
            max_recursion_depth: 0,
            complex_control_flow: false,
            has_simd_operations: false,
            function_count: 0,
        }
    }

    /// The mode for an analysis: compilation for SIMD function calls, more than
    /// 50 statements or more than 15 functions; risky JIT for nesting deeper than
    /// 5 or complex control flow; safe JIT otherwise.
    pub open spec fn mode_spec(self) -> ExecutionMode {
        if self.has_simd_function_calls || self.statement_count > 50 || self.function_count > 15 {
            ExecutionMode::CompileRequired
        } else if self.max_recursion_depth > 5 || self.complex_control_flow {
            ExecutionMode::JitRisky
        } else {
            ExecutionMode::JitSafe
        }
    }

    /// Why the mode was chosen.
    pub open spec fn reason_spec(self) -> Seq<char> {
        if self.has_simd_function_calls {
            "SIMD functions detected"@
        } else if self.statement_count > 50 {
            "large program detected"@
        } else if self.function_count > 15 {
            "many functions detected"@
        } else if self.max_recursion_depth > 5 || self.complex_control_flow {
            "medium complexity detected"@
        } else {
            "simple program"@
        }
    }

    /// The execution mode that the analysis calls for (see [`Self::mode_spec`]).
    pub fn execution_mode(&self) -> (m: ExecutionMode)
        ensures
            m == self.mode_spec(),
    {
        if self.has_simd_function_calls {
            return ExecutionMode::CompileRequired;
        }
        if self.statement_count > LARGE_PROGRAM_THRESHOLD {
            return ExecutionMode::CompileRequired;
        }
        if self.function_count > COMPLEX_FUNCTION_THRESHOLD {
            return ExecutionMode::CompileRequired;
        }
        if self.max_recursion_depth > MAX_RECURSION_DEPTH_THRESHOLD || self.complex_control_flow {
            return ExecutionMode::JitRisky;
        }
        ExecutionMode::JitSafe
    }

    /// A readable reason for the execution mode (see [`Self::reason_spec`]).
    pub fn execution_reason(&self) -> (r: &'static str)
        ensures
            r@ == self.reason_spec(),
    {
        match self.execution_mode() {
            ExecutionMode::CompileRequired => {
                if self.has_simd_function_calls {
                    "SIMD functions detected"
                } else if self.statement_count > LARGE_PROGRAM_THRESHOLD {
                    "large program detected"
                } else if self.function_count > COMPLEX_FUNCTION_THRESHOLD {
                    "many functions detected"
                } else {
                    "complex program structure"
                }
            },
            ExecutionMode::JitRisky => "medium complexity detected",
            ExecutionMode::JitSafe => "simple program",
        }
    }
}

/// Whether `s` ends with `t`.
pub open spec fn ends_with(s: Seq<char>, t: Seq<char>) -> bool {
    s.len() >= t.len() && s.subrange(s.len() - t.len(), s.len() as int) == t
}

/// Whether `s` starts with `t`.
pub open spec fn starts_with(s: Seq<char>, t: Seq<char>) -> bool {
    s.len() >= t.len() && s.subrange(0, t.len() as int) == t
}

/// Whether `t` occurs in `s`.
pub open spec fn contains_text(s: Seq<char>, t: Seq<char>) -> bool {
    exists|i: int| 0 <= i <= s.len() - t.len() && #[trigger] s.subrange(i, i + t.len()) == t
}

/// Whether a type name names a SIMD vector type.
pub open spec fn is_vector_name(n: Seq<char>) -> bool {
    ends_with(n, "x4"@) || ends_with(n, "x8"@) || ends_with(n, "x16"@) || ends_with(n, "x32"@)
        || starts_with(n, "f32x"@) || starts_with(n, "f64x"@) || starts_with(n, "i32x"@)
        || starts_with(n, "i64x"@) || starts_with(n, "u8x"@) || starts_with(n, "u16x"@)
        || starts_with(n, "u32x"@) || starts_with(n, "u64x"@)
}

/// Whether an expression likely yields a vector: a SIMD expression, a variable
/// named like a vector, or a call of a function named like one that returns
/// vectors.
pub open spec fn likely_vector(e: Expr) -> bool {
    match e {
        Expr::SIMD(_) => true,
        Expr::Variable(name) => contains_text(name@, "vec"@) || contains_text(name@, "simd"@)
            || ends_with(name@, "x4"@) || ends_with(name@, "x8"@) || ends_with(name@, "x16"@),
        Expr::Call(callee, _) => match *callee {
            Expr::Variable(name) => contains_text(name@, "horizontal"@) || contains_text(
                name@,
                "simd"@,
            ) || contains_text(name@, "vector"@),
            _ => false,
        },
        _ => false,
    }
}

/// Whether a parameter list has a parameter of vector type.
pub open spec fn has_vector_param(ps: Seq<Parameter>) -> bool {
    exists|i: int| 0 <= i < ps.len() && is_vector_name(#[trigger] ps[i].type_annotation.name@)
}

/// The counts after a statement at nesting `depth`: it is counted and its depth
/// noted; a function is counted and flags SIMD function calls when a parameter
/// has a vector type; loops, and conditionals nested deeper than 2, make the
/// control flow complex; a declaration of vector type flags SIMD operations; the
/// parts are analyzed in order, nested statements one level deeper.
pub open spec fn stmt_effect(s: Stmt, c: Counts, depth: nat) -> Counts
    decreases s, 1int,
{
    stmt_parts_effect(s, entered(c, depth), depth)
}

/// The counts once a statement at nesting `depth` is counted and its depth
/// noted.
pub open spec fn entered(c: Counts, depth: nat) -> Counts {
    Counts {
        statements: c.statements + 1,
        max_depth: if depth > c.max_depth {
            depth
        } else {
            c.max_depth
        },
        ..c
    }
}

/// The counts after the parts of a statement at nesting `depth`, from the counts
/// `c0` that already hold the statement itself.
pub open spec fn stmt_parts_effect(s: Stmt, c0: Counts, depth: nat) -> Counts
    decreases s, 0int,
{
    match s {
        Stmt::FunctionDeclaration { params, body, .. } => {
            let c1 = Counts {
                functions: c0.functions + 1,
                simd_calls: c0.simd_calls || has_vector_param(params@),
                ..c0
            };
            stmt_effect(*body, c1, depth + 1)
        },
        Stmt::If { condition, then_branch, else_branch } => {
            let c1 = expr_effect(condition, c0);
            let c2 = stmt_effect(*then_branch, c1, depth + 1);
            let c3 = match else_branch {
                Some(e) => stmt_effect(*e, c2, depth + 1),
                None => c2,
            };
            if depth > 2 {
                Counts { complex_flow: true, ..c3 }
            } else {
                c3
            }
        },
        Stmt::While { condition, body } => {
            let c1 = expr_effect(condition, c0);
            stmt_effect(*body, Counts { complex_flow: true, ..c1 }, depth + 1)
        },
        Stmt::For { initializer, condition, increment, body } => {
            let c1 = match initializer {
                Some(i) => stmt_effect(*i, c0, depth + 1),
                None => c0,
            };
            let c2 = match condition {
                Some(e) => expr_effect(e, c1),
                None => c1,
            };
            let c3 = match increment {
                Some(e) => expr_effect(e, c2),
                None => c2,
            };
            Counts { complex_flow: true, ..stmt_effect(*body, c3, depth + 1) }
        },
        Stmt::ForIn { iterable, body, .. } => {
            let c1 = expr_effect(iterable, c0);
            Counts { complex_flow: true, ..stmt_effect(*body, c1, depth + 1) }
        },
        Stmt::VarDeclaration { type_annotation, initializer, .. } => {
            let c1 = match type_annotation {
                Some(t) => if is_vector_name(t.name@) {
                    Counts { simd_ops: true, ..c0 }
                } else {
                    c0
                },
                None => c0,
            };
            match initializer {
                Some(e) => expr_effect(e, c1),
                None => c1,
            }
        },
        Stmt::Block(ss) => stmts_effect(ss@, c0, depth + 1),
        Stmt::Expression(e) => expr_effect(e, c0),
        Stmt::Return(r) => match r {
            Some(e) => expr_effect(e, c0),
            None => c0,
        },
        _ => c0,
    }
}

/// The counts after statements, in order, at nesting `depth`.
pub open spec fn stmts_effect(ss: Seq<Stmt>, c: Counts, depth: nat) -> Counts
    decreases ss, 0int,
{
    if ss.len() == 0 {
        c
    } else {
        stmt_effect(ss.last(), stmts_effect(ss.drop_last(), c, depth), depth)
    }
}

/// The counts after an expression: a call with an argument that is likely a
/// vector flags SIMD function calls; SIMD expressions flag SIMD operations; a
/// block's statements count from depth 0; the parts are analyzed in order.
pub open spec fn expr_effect(e: Expr, c: Counts) -> Counts
    decreases e, 0int,
{
    match e {
        Expr::Call(callee, args) => call_args_effect(args@, expr_effect(*callee, c)),
        Expr::SIMD(se) => simd_effect(se, Counts { simd_ops: true, ..c }),
        Expr::Binary(l, _, r) => expr_effect(*r, expr_effect(*l, c)),
        Expr::Unary(_, o) => expr_effect(*o, c),
        Expr::Grouping(x) => expr_effect(*x, c),
        Expr::Index(a, i) => expr_effect(*i, expr_effect(*a, c)),
        Expr::Slice { array, start, end } => expr_effect(
            *end,
            expr_effect(*start, expr_effect(*array, c)),
        ),
        Expr::FieldAccess(o, _) => expr_effect(*o, c),
        Expr::StructLiteral { fields, .. } => fields_effect(fields@, c),
        Expr::EnumLiteral { args, .. } => exprs_effect(args@, c),
        Expr::Match { value, arms } => arms_effect(arms@, expr_effect(*value, c)),
        Expr::If { condition, then_branch, else_branch } => {
            let c2 = expr_effect(*then_branch, expr_effect(*condition, c));
            match else_branch {
                Some(x) => expr_effect(*x, c2),
                None => c2,
            }
        },
        Expr::Block(ss) => stmts_effect(ss@, c, 0),
        Expr::Cast { expr, .. } => expr_effect(*expr, c),
        Expr::Tuple { elements, .. } => exprs_effect(elements@, c),
        _ => c,
    }
}

/// The counts after expressions, in order.
pub open spec fn exprs_effect(es: Seq<Expr>, c: Counts) -> Counts
    decreases es, 0int,
{
    if es.len() == 0 {
        c
    } else {
        expr_effect(es.last(), exprs_effect(es.drop_last(), c))
    }
}

/// The counts after the arguments of a call, in order; an argument that is
/// likely a vector flags SIMD function calls.
pub open spec fn call_args_effect(es: Seq<Expr>, c: Counts) -> Counts
    decreases es, 0int,
{
    if es.len() == 0 {
        c
    } else {
        let c1 = call_args_effect(es.drop_last(), c);
        let c2 = if likely_vector(es.last()) {
            Counts { simd_calls: true, ..c1 }
        } else {
            c1
        };
        expr_effect(es.last(), c2)
    }
}

/// The counts after the values of struct literal fields, in order.
pub open spec fn fields_effect(fs: Seq<StructFieldInit>, c: Counts) -> Counts
    decreases fs, 0int,
{
    if fs.len() == 0 {
        c
    } else {
        expr_effect(fs.last().value, fields_effect(fs.drop_last(), c))
    }
}

/// The counts after the expressions of match arms, in order.
pub open spec fn arms_effect(arms: Seq<MatchArm>, c: Counts) -> Counts
    decreases arms, 0int,
{
    if arms.len() == 0 {
        c
    } else {
        expr_effect(arms.last().expression, arms_effect(arms.drop_last(), c))
    }
}

/// The counts after a SIMD expression: SIMD operations are flagged and its
/// operands analyzed in order.
pub open spec fn simd_effect(se: SIMDExpr, c: Counts) -> Counts
    decreases se, 0int,
{
    let c0 = Counts { simd_ops: true, ..c };
    match se {
        SIMDExpr::VectorLiteral { elements, .. } => exprs_effect(elements@, c0),
        SIMDExpr::ElementWise { left, right, .. } => expr_effect(*right, expr_effect(*left, c0)),
        SIMDExpr::Broadcast { value, .. } => expr_effect(*value, c0),
        SIMDExpr::Swizzle { vector, .. } => expr_effect(*vector, c0),
        SIMDExpr::Reduction { vector, .. } => expr_effect(*vector, c0),
        SIMDExpr::DotProduct { left, right, .. } => expr_effect(*right, expr_effect(*left, c0)),
        SIMDExpr::VectorLoad { address, .. } => expr_effect(*address, c0),
        SIMDExpr::VectorStore { address, vector, .. } => expr_effect(
            *vector,
            expr_effect(*address, c0),
        ),
    }
}

/// The counts of a whole program, from nothing, its statements at depth 0.
pub open spec fn program_counts(statements: Seq<Stmt>) -> Counts {
    stmts_effect(statements, counts_of(ComplexityAnalysis::empty()), 0)
}

/// Analysis only adds to the statement count, and keeps every other count within
/// it (from a depth within it).
pub proof fn lemma_stmt_effect(s: Stmt, c: Counts, depth: nat)
    ensures
        stmt_effect(s, c, depth).statements > c.statements,
        counts_ok(c) && depth <= c.statements ==> counts_ok(stmt_effect(s, c, depth)),
        c.complex_flow ==> stmt_effect(s, c, depth).complex_flow,
        c.simd_calls ==> stmt_effect(s, c, depth).simd_calls,
        stmt_effect(s, c, depth).functions >= c.functions,
    decreases s, 0int,
{
    let c0 = entered(c, depth);
    match s {
        Stmt::FunctionDeclaration { params, body, .. } => {
            let c1 = Counts {
                functions: c0.functions + 1,
                simd_calls: c0.simd_calls || has_vector_param(params@),
                ..c0
            };
            lemma_stmt_effect(*body, c1, depth + 1);
        },
        Stmt::If { condition, then_branch, else_branch } => {
            lemma_expr_effect(condition, c0);
            let c1 = expr_effect(condition, c0);
            lemma_stmt_effect(*then_branch, c1, depth + 1);
            let c2 = stmt_effect(*then_branch, c1, depth + 1);
            match else_branch {
                Some(e) => lemma_stmt_effect(*e, c2, depth + 1),
                None => {},
            }
        },
        Stmt::While { condition, body } => {
            lemma_expr_effect(condition, c0);
            let c1 = expr_effect(condition, c0);
            lemma_stmt_effect(*body, Counts { complex_flow: true, ..c1 }, depth + 1);
        },
        Stmt::For { initializer, condition, increment, body } => {
            match initializer {
                Some(i) => lemma_stmt_effect(*i, c0, depth + 1),
                None => {},
            }
            let c1 = match initializer {
                Some(i) => stmt_effect(*i, c0, depth + 1),
                None => c0,
            };
            match condition {
                Some(e) => lemma_expr_effect(e, c1),
                None => {},
            }
            let c2 = match condition {
                Some(e) => expr_effect(e, c1),
                None => c1,
            };
            match increment {
                Some(e) => lemma_expr_effect(e, c2),
                None => {},
            }
            let c3 = match increment {
                Some(e) => expr_effect(e, c2),
                None => c2,
            };
            lemma_stmt_effect(*body, c3, depth + 1);
        },
        Stmt::ForIn { iterable, body, .. } => {
            lemma_expr_effect(iterable, c0);
            lemma_stmt_effect(*body, expr_effect(iterable, c0), depth + 1);
        },
        Stmt::VarDeclaration { type_annotation, initializer, .. } => {
            let c1 = match type_annotation {
                Some(t) => if is_vector_name(t.name@) {
                    Counts { simd_ops: true, ..c0 }
                } else {
                    c0
                },
                None => c0,
            };
            match initializer {
                Some(e) => lemma_expr_effect(e, c1),
                None => {},
            }
        },
        Stmt::Block(ss) => lemma_stmts_effect(ss@, c0, depth + 1),
        Stmt::Expression(e) => lemma_expr_effect(e, c0),
        Stmt::Return(r) => match r {
            Some(e) => lemma_expr_effect(e, c0),
            None => {},
        },
        _ => {},
    }
}

/// As [`lemma_stmt_effect`], for statements in order.
pub proof fn lemma_stmts_effect(ss: Seq<Stmt>, c: Counts, depth: nat)
    ensures
        stmts_effect(ss, c, depth).statements >= c.statements,
        counts_ok(c) && depth <= c.statements ==> counts_ok(stmts_effect(ss, c, depth)),
        c.complex_flow ==> stmts_effect(ss, c, depth).complex_flow,
        c.simd_calls ==> stmts_effect(ss, c, depth).simd_calls,
        stmts_effect(ss, c, depth).functions >= c.functions,
    decreases ss, 0int,
{
    if ss.len() > 0 {
        lemma_stmts_effect(ss.drop_last(), c, depth);
        lemma_stmt_effect(ss.last(), stmts_effect(ss.drop_last(), c, depth), depth);
    }
}

/// Analysis of an expression only adds to the statement count and keeps every
/// other count within it.
pub proof fn lemma_expr_effect(e: Expr, c: Counts)
    ensures
        expr_effect(e, c).statements >= c.statements,
        counts_ok(c) ==> counts_ok(expr_effect(e, c)),
        c.complex_flow ==> expr_effect(e, c).complex_flow,
        c.simd_calls ==> expr_effect(e, c).simd_calls,
        expr_effect(e, c).functions >= c.functions,
    decreases e, 0int,
{
    match e {
        Expr::Call(callee, args) => {
            lemma_expr_effect(*callee, c);
            lemma_call_args_effect(args@, expr_effect(*callee, c));
        },
        Expr::SIMD(se) => lemma_simd_effect(se, Counts { simd_ops: true, ..c }),
        Expr::Binary(l, _, r) => {
            lemma_expr_effect(*l, c);
            lemma_expr_effect(*r, expr_effect(*l, c));
        },
        Expr::Unary(_, o) => lemma_expr_effect(*o, c),
        Expr::Grouping(x) => lemma_expr_effect(*x, c),
        Expr::Index(a, i) => {
            lemma_expr_effect(*a, c);
            lemma_expr_effect(*i, expr_effect(*a, c));
        },
        Expr::Slice { array, start, end } => {
            lemma_expr_effect(*array, c);
            lemma_expr_effect(*start, expr_effect(*array, c));
            lemma_expr_effect(*end, expr_effect(*start, expr_effect(*array, c)));
        },
        Expr::FieldAccess(o, _) => lemma_expr_effect(*o, c),
        Expr::StructLiteral { fields, .. } => lemma_fields_effect(fields@, c),
        Expr::EnumLiteral { args, .. } => lemma_exprs_effect(args@, c),
        Expr::Match { value, arms } => {
            lemma_expr_effect(*value, c);
            lemma_arms_effect(arms@, expr_effect(*value, c));
        },
        Expr::If { condition, then_branch, else_branch } => {
            lemma_expr_effect(*condition, c);
            lemma_expr_effect(*then_branch, expr_effect(*condition, c));
            let c2 = expr_effect(*then_branch, expr_effect(*condition, c));
            match else_branch {
                Some(x) => lemma_expr_effect(*x, c2),
                None => {},
            }
        },
        Expr::Block(ss) => lemma_stmts_effect(ss@, c, 0),
        Expr::Cast { expr, .. } => lemma_expr_effect(*expr, c),
        Expr::Tuple { elements, .. } => lemma_exprs_effect(elements@, c),
        _ => {},
    }
}

/// As [`lemma_expr_effect`], for expressions in order.
pub proof fn lemma_exprs_effect(es: Seq<Expr>, c: Counts)
    ensures
        exprs_effect(es, c).statements >= c.statements,
        counts_ok(c) ==> counts_ok(exprs_effect(es, c)),
        c.complex_flow ==> exprs_effect(es, c).complex_flow,
        c.simd_calls ==> exprs_effect(es, c).simd_calls,
        exprs_effect(es, c).functions >= c.functions,
    decreases es, 0int,
{
    if es.len() > 0 {
        lemma_exprs_effect(es.drop_last(), c);
        lemma_expr_effect(es.last(), exprs_effect(es.drop_last(), c));
    }
}

/// As [`lemma_expr_effect`], for the arguments of a call.
pub proof fn lemma_call_args_effect(es: Seq<Expr>, c: Counts)
    ensures
        call_args_effect(es, c).statements >= c.statements,
        counts_ok(c) ==> counts_ok(call_args_effect(es, c)),
        c.complex_flow ==> call_args_effect(es, c).complex_flow,
        c.simd_calls ==> call_args_effect(es, c).simd_calls,
        call_args_effect(es, c).functions >= c.functions,
    decreases es, 0int,
{
    if es.len() > 0 {
        lemma_call_args_effect(es.drop_last(), c);
        let c1 = call_args_effect(es.drop_last(), c);
        let c2 = if likely_vector(es.last()) {
            Counts { simd_calls: true, ..c1 }
        } else {
            c1
        };
        lemma_expr_effect(es.last(), c2);
    }
}

/// As [`lemma_expr_effect`], for struct literal fields.
pub proof fn lemma_fields_effect(fs: Seq<StructFieldInit>, c: Counts)
    ensures
        fields_effect(fs, c).statements >= c.statements,
        counts_ok(c) ==> counts_ok(fields_effect(fs, c)),
        c.complex_flow ==> fields_effect(fs, c).complex_flow,
        c.simd_calls ==> fields_effect(fs, c).simd_calls,
        fields_effect(fs, c).functions >= c.functions,
    decreases fs, 0int,
{
    if fs.len() > 0 {
        lemma_fields_effect(fs.drop_last(), c);
        lemma_expr_effect(fs.last().value, fields_effect(fs.drop_last(), c));
    }
}

/// As [`lemma_expr_effect`], for match arms.
pub proof fn lemma_arms_effect(arms: Seq<MatchArm>, c: Counts)
    ensures
        arms_effect(arms, c).statements >= c.statements,
        counts_ok(c) ==> counts_ok(arms_effect(arms, c)),
        c.complex_flow ==> arms_effect(arms, c).complex_flow,
        c.simd_calls ==> arms_effect(arms, c).simd_calls,
        arms_effect(arms, c).functions >= c.functions,
    decreases arms, 0int,
{
    if arms.len() > 0 {
        lemma_arms_effect(arms.drop_last(), c);
        lemma_expr_effect(arms.last().expression, arms_effect(arms.drop_last(), c));
    }
}

/// As [`lemma_expr_effect`], for SIMD expressions.
pub proof fn lemma_simd_effect(se: SIMDExpr, c: Counts)
    ensures
        simd_effect(se, c).statements >= c.statements,
        counts_ok(c) ==> counts_ok(simd_effect(se, c)),
        c.complex_flow ==> simd_effect(se, c).complex_flow,
        c.simd_calls ==> simd_effect(se, c).simd_calls,
        simd_effect(se, c).functions >= c.functions,
    decreases se, 0int,
{
    let c0 = Counts { simd_ops: true, ..c };
    match se {
        SIMDExpr::VectorLiteral { elements, .. } => lemma_exprs_effect(elements@, c0),
        SIMDExpr::ElementWise { left, right, .. } => {
            lemma_expr_effect(*left, c0);
            lemma_expr_effect(*right, expr_effect(*left, c0));
        },
        SIMDExpr::Broadcast { value, .. } => lemma_expr_effect(*value, c0),
        SIMDExpr::Swizzle { vector, .. } => lemma_expr_effect(*vector, c0),
        SIMDExpr::Reduction { vector, .. } => lemma_expr_effect(*vector, c0),
        SIMDExpr::DotProduct { left, right, .. } => {
            lemma_expr_effect(*left, c0);
            lemma_expr_effect(*right, expr_effect(*left, c0));
        },
        SIMDExpr::VectorLoad { address, .. } => lemma_expr_effect(*address, c0),
        SIMDExpr::VectorStore { address, vector, .. } => {
            lemma_expr_effect(*address, c0);
            lemma_expr_effect(*vector, expr_effect(*address, c0));
        },
    }
}

/// Whether a statement is a loop (while, for or for-in) or holds one among the
/// statements nested in it: a function body, the branches of an if statement,
/// the statements of a block.
pub open spec fn has_loop(s: Stmt) -> bool
    decreases s,
{
    match s {
        Stmt::While { .. } => true,
        Stmt::For { .. } => true,
        Stmt::ForIn { .. } => true,
        Stmt::FunctionDeclaration { body, .. } => has_loop(*body),
        Stmt::If { then_branch, else_branch, .. } => has_loop(*then_branch) || match else_branch {
            Some(e) => has_loop(*e),
            None => false,
        },
        Stmt::Block(ss) => any_has_loop(ss@),
        _ => false,
    }
}

/// Whether one of the statements is a loop or holds one (see [`has_loop`]).
pub open spec fn any_has_loop(ss: Seq<Stmt>) -> bool
    decreases ss,
{
    if ss.len() == 0 {
        false
    } else {
        any_has_loop(ss.drop_last()) || has_loop(ss.last())
    }
}

/// A statement that is or holds a loop makes the control flow complex, at any
/// nesting depth and from any counts.
pub proof fn lemma_loops_make_control_flow_complex(s: Stmt, c: Counts, depth: nat)
    ensures
        has_loop(s) ==> stmt_effect(s, c, depth).complex_flow,
    decreases s, 1int,
{
    let c0 = entered(c, depth);
    match s {
        Stmt::While { condition, body } => {
            let c1 = expr_effect(condition, c0);
            lemma_stmt_effect(*body, Counts { complex_flow: true, ..c1 }, depth + 1);
        },
        Stmt::FunctionDeclaration { params, body, .. } => {
            let c1 = Counts {
                functions: c0.functions + 1,
                simd_calls: c0.simd_calls || has_vector_param(params@),
                ..c0
            };
            lemma_loops_make_control_flow_complex(*body, c1, depth + 1);
        },
        Stmt::If { condition, then_branch, else_branch } => {
            let c1 = expr_effect(condition, c0);
            lemma_loops_make_control_flow_complex(*then_branch, c1, depth + 1);
            let c2 = stmt_effect(*then_branch, c1, depth + 1);
            match else_branch {
                Some(e) => {
                    lemma_loops_make_control_flow_complex(*e, c2, depth + 1);
                    lemma_stmt_effect(*e, c2, depth + 1);
                },
                None => {},
            }
        },
        Stmt::Block(ss) => lemma_loops_in_statements(ss@, c0, depth + 1),
        _ => {},
    }
}

/// Statements of which one is or holds a loop make the control flow complex.
pub proof fn lemma_loops_in_statements(ss: Seq<Stmt>, c: Counts, depth: nat)
    ensures
        any_has_loop(ss) ==> stmts_effect(ss, c, depth).complex_flow,
    decreases ss, 0int,
{
    if ss.len() > 0 {
        lemma_loops_in_statements(ss.drop_last(), c, depth);
        let c1 = stmts_effect(ss.drop_last(), c, depth);
        lemma_loops_make_control_flow_complex(ss.last(), c1, depth);
        lemma_stmt_effect(ss.last(), c1, depth);
    }
}

/// A program with a loop among its statements, at any nesting, has complex
/// control flow, so it is never judged simple enough for safe JIT execution.
pub proof fn lemma_programs_with_loops_are_not_simple(program: Seq<Stmt>, a: ComplexityAnalysis)
    requires
        any_has_loop(program),
        counts_of(a) == program_counts(program),
    ensures
        a.complex_control_flow,
        a.mode_spec() != ExecutionMode::JitSafe,
{
    lemma_loops_in_statements(program, counts_of(ComplexityAnalysis::empty()), 0);
}

/// The number of function declarations among statements, not counting those
/// nested inside them.
pub open spec fn function_count_of(ss: Seq<Stmt>) -> nat
    decreases ss.len(),
{
    if ss.len() == 0 {
        0
    } else {
        function_count_of(ss.drop_last()) + if ss.last() is FunctionDeclaration {
            1nat
        } else {
            0nat
        }
    }
}

/// Whether a statement declares a function with a parameter whose type looks
/// like a vector.
pub open spec fn is_vector_function(s: Stmt) -> bool {
    s matches Stmt::FunctionDeclaration { params, .. } && has_vector_param(params@)
}

/// Whether one of the statements declares a function with a parameter whose
/// type looks like a vector.
pub open spec fn declares_vector_function(ss: Seq<Stmt>) -> bool {
    exists|i: int| 0 <= i < ss.len() && #[trigger] is_vector_function(ss[i])
}

/// Every function declaration among statements is counted, and one with a
/// parameter that looks like a vector flags SIMD function calls.
pub proof fn lemma_functions_counted(ss: Seq<Stmt>, c: Counts, depth: nat)
    ensures
        stmts_effect(ss, c, depth).functions >= c.functions + function_count_of(ss),
        declares_vector_function(ss) ==> stmts_effect(ss, c, depth).simd_calls,
    decreases ss.len(),
{
    if ss.len() > 0 {
        let rest = ss.drop_last();
        lemma_functions_counted(rest, c, depth);
        let c1 = stmts_effect(rest, c, depth);
        lemma_stmt_effect(ss.last(), c1, depth);
        match ss.last() {
            Stmt::FunctionDeclaration { params, body, .. } => {
                let c0 = entered(c1, depth);
                let c2 = Counts {
                    functions: c0.functions + 1,
                    simd_calls: c0.simd_calls || has_vector_param(params@),
                    ..c0
                };
                lemma_stmt_effect(*body, c2, depth + 1);
            },
            _ => {},
        }
        if declares_vector_function(ss) {
            let i = choose|i: int| 0 <= i < ss.len() && #[trigger] is_vector_function(ss[i]);
            if i < ss.len() - 1 {
                assert(rest[i] == ss[i]);
                assert(declares_vector_function(rest));
            }
        }
    }
}

/// A program declaring more than fifteen functions, or a function with a
/// parameter that looks like a vector, must be compiled.
pub proof fn lemma_function_heavy_programs_are_compiled(program: Seq<Stmt>, a: ComplexityAnalysis)
    requires
        counts_of(a) == program_counts(program),
        function_count_of(program) > 15 || declares_vector_function(program),
    ensures
        a.mode_spec() == ExecutionMode::CompileRequired,
{
    lemma_functions_counted(program, counts_of(ComplexityAnalysis::empty()), 0);
}

/// An if statement nested deeper than two levels makes the control flow
/// complex, whatever its branches hold.
pub proof fn lemma_deep_conditionals_are_complex(s: Stmt, c: Counts, depth: nat)
    requires
        s is If,
        depth > 2,
    ensures
        stmt_effect(s, c, depth).complex_flow,
{
}

/// Each statement of a list is counted at least once.
pub proof fn lemma_statements_counted(ss: Seq<Stmt>, c: Counts, depth: nat)
    ensures
        stmts_effect(ss, c, depth).statements >= c.statements + ss.len(),
    decreases ss.len(),
{
    if ss.len() > 0 {
        lemma_statements_counted(ss.drop_last(), c, depth);
        lemma_stmt_effect(ss.last(), stmts_effect(ss.drop_last(), c, depth), depth);
    }
}

/// A program of more than fifty statements must be compiled.
pub proof fn lemma_long_programs_are_compiled(program: Seq<Stmt>, a: ComplexityAnalysis)
    requires
        counts_of(a) == program_counts(program),
        program.len() > 50,
    ensures
        a.mode_spec() == ExecutionMode::CompileRequired,
{
    lemma_statements_counted(program, counts_of(ComplexityAnalysis::empty()), 0);
}

/// Statements taken in order add to the count step by step.
pub proof fn lemma_stmts_prefix(ss: Seq<Stmt>, c: Counts, depth: nat, k: int)
    requires
        0 <= k <= ss.len(),
    ensures
        stmts_effect(ss.take(k), c, depth).statements <= stmts_effect(ss, c, depth).statements,
        k < ss.len() ==> stmts_effect(ss.take(k + 1), c, depth) == stmt_effect(
            ss[k],
            stmts_effect(ss.take(k), c, depth),
            depth,
        ),
    decreases ss.len() - k,
{
    if k == ss.len() {
        assert(ss.take(k) =~= ss);
    } else {
        assert(ss.take(k + 1).drop_last() =~= ss.take(k));
        assert(ss.take(k + 1).last() == ss[k]);
        lemma_stmt_effect(ss[k], stmts_effect(ss.take(k), c, depth), depth);
        lemma_stmts_prefix(ss, c, depth, k + 1);
    }
}

/// Expressions taken in order add to the count step by step.
pub proof fn lemma_exprs_prefix(es: Seq<Expr>, c: Counts, k: int)
    requires
        0 <= k <= es.len(),
    ensures
        exprs_effect(es.take(k), c).statements <= exprs_effect(es, c).statements,
        k < es.len() ==> exprs_effect(es.take(k + 1), c) == expr_effect(
            es[k],
            exprs_effect(es.take(k), c),
        ),
    decreases es.len() - k,
{
    if k == es.len() {
        assert(es.take(k) =~= es);
    } else {
        assert(es.take(k + 1).drop_last() =~= es.take(k));
        assert(es.take(k + 1).last() == es[k]);
        lemma_expr_effect(es[k], exprs_effect(es.take(k), c));
        lemma_exprs_prefix(es, c, k + 1);
    }
}

/// Call arguments taken in order add to the count step by step.
pub proof fn lemma_call_args_prefix(es: Seq<Expr>, c: Counts, k: int)
    requires
        0 <= k <= es.len(),
    ensures
        call_args_effect(es.take(k), c).statements <= call_args_effect(es, c).statements,
        k < es.len() ==> call_args_effect(es.take(k + 1), c) == expr_effect(
            es[k],
            if likely_vector(es[k]) {
                Counts { simd_calls: true, ..call_args_effect(es.take(k), c) }
            } else {
                call_args_effect(es.take(k), c)
            },
        ),
    decreases es.len() - k,
{
    if k == es.len() {
        assert(es.take(k) =~= es);
    } else {
        assert(es.take(k + 1).drop_last() =~= es.take(k));
        assert(es.take(k + 1).last() == es[k]);
        let c1 = call_args_effect(es.take(k), c);
        lemma_expr_effect(es[k], if likely_vector(es[k]) {
            Counts { simd_calls: true, ..c1 }
        } else {
            c1
        });
        lemma_call_args_prefix(es, c, k + 1);
    }
}

/// Struct literal fields taken in order add to the count step by step.
pub proof fn lemma_fields_prefix(fs: Seq<StructFieldInit>, c: Counts, k: int)
    requires
        0 <= k <= fs.len(),
    ensures
        fields_effect(fs.take(k), c).statements <= fields_effect(fs, c).statements,
        k < fs.len() ==> fields_effect(fs.take(k + 1), c) == expr_effect(
            fs[k].value,
            fields_effect(fs.take(k), c),
        ),
    decreases fs.len() - k,
{
    if k == fs.len() {
        assert(fs.take(k) =~= fs);
    } else {
        assert(fs.take(k + 1).drop_last() =~= fs.take(k));
        assert(fs.take(k + 1).last() == fs[k]);
        lemma_expr_effect(fs[k].value, fields_effect(fs.take(k), c));
        lemma_fields_prefix(fs, c, k + 1);
    }
}

/// Match arms taken in order add to the count step by step.
pub proof fn lemma_arms_prefix(arms: Seq<MatchArm>, c: Counts, k: int)
    requires
        0 <= k <= arms.len(),
    ensures
        arms_effect(arms.take(k), c).statements <= arms_effect(arms, c).statements,
        k < arms.len() ==> arms_effect(arms.take(k + 1), c) == expr_effect(
            arms[k].expression,
            arms_effect(arms.take(k), c),
        ),
    decreases arms.len() - k,
{
    if k == arms.len() {
        assert(arms.take(k) =~= arms);
    } else {
        assert(arms.take(k + 1).drop_last() =~= arms.take(k));
        assert(arms.take(k + 1).last() == arms[k]);
        lemma_expr_effect(arms[k].expression, arms_effect(arms.take(k), c));
        lemma_arms_prefix(arms, c, k + 1);
    }
}

/// Whether `s` ends with `t`.
fn text_ends_with(s: &Vec<char>, t: &str) -> (b: bool)
    ensures
        b == ends_with(s@, t@),
{
    let tc = chars_of(t);
    if tc.len() > s.len() {
        return false;
    }
    let off = s.len() - tc.len();
    let mut i: usize = 0;
    while i < tc.len()
        invariant
            i <= tc@.len(),
            off + tc@.len() == s@.len(),
            s@.len() == s.len(),
            tc@ == t@,
            forall|j: int| 0 <= j < i ==> s@[off + j] == tc@[j],
        decreases tc@.len() - i,
    {
        if s[off + i] != tc[i] {
            proof {
                assert(s@.subrange(off as int, s@.len() as int)[i as int] != tc@[i as int]);
                assert(s@.subrange(off as int, s@.len() as int) != tc@);
            }
            return false;
        }
        i = i + 1;
    }
    proof {
        assert(s@.subrange(off as int, s@.len() as int) =~= tc@);
    }
    true
}

/// Whether `s` starts with `t`.
fn text_starts_with(s: &Vec<char>, t: &str) -> (b: bool)
    ensures
        b == starts_with(s@, t@),
{
    let tc = chars_of(t);
    if tc.len() > s.len() {
        return false;
    }
    let mut i: usize = 0;
    while i < tc.len()
        invariant
            i <= tc@.len(),
            tc@.len() <= s@.len(),
            tc@ == t@,
            forall|j: int| 0 <= j < i ==> s@[j] == tc@[j],
        decreases tc@.len() - i,
    {
        if s[i] != tc[i] {
            proof {
                assert(s@.subrange(0, tc@.len() as int)[i as int] != tc@[i as int]);
                assert(s@.subrange(0, tc@.len() as int) != tc@);
            }
            return false;
        }
        i = i + 1;
    }
    proof {
        assert(s@.subrange(0, tc@.len() as int) =~= tc@);
    }
    true
}

/// Whether `t` occurs in `s`.
pub(crate) fn text_contains(s: &Vec<char>, t: &str) -> (b: bool)
    ensures
        b == contains_text(s@, t@),
{
    let tc = chars_of(t);
    if tc.len() > s.len() {
        return false;
    }
    let last = s.len() - tc.len();
    let mut i: usize = 0;
    while i <= last
        invariant
            last + tc@.len() == s@.len(),
            s@.len() == s.len(),
            tc@ == t@,
            i <= last + 1,
            forall|k: int| 0 <= k < i ==> #[trigger] s@.subrange(k, k + tc@.len()) != tc@,
        decreases last + 1 - i,
    {
        let mut j: usize = 0;
        let mut same = true;
        while j < tc.len()
            invariant
                j <= tc@.len(),
                i <= last,
                last + tc@.len() == s@.len(),
                s@.len() == s.len(),
                same <==> forall|m: int| 0 <= m < j ==> s@[i + m] == tc@[m],
            decreases tc@.len() - j,
        {
            if s[i + j] != tc[j] {
                same = false;
            }
            j = j + 1;
        }
        if same {
            proof {
                assert(s@.subrange(i as int, i + tc@.len()) =~= tc@);
                assert(contains_text(s@, tc@));
            }
            return true;
        }
        proof {
            let m = choose|m: int| 0 <= m < tc@.len() && s@[i + m] != tc@[m];
            assert(s@.subrange(i as int, i + tc@.len())[m] != tc@[m]);
        }
        if i == last {
            return false;
        }
        i = i + 1;
    }
    false
}

/// Whether a type annotation names a SIMD vector type (see [`is_vector_name`]).
pub fn is_vector_type(type_annotation: &TypeAnnotation) -> (b: bool)
    ensures
        b == is_vector_name(type_annotation.name@),
{
    let n = chars_of(type_annotation.name.as_str());
    text_ends_with(&n, "x4") || text_ends_with(&n, "x8") || text_ends_with(&n, "x16")
        || text_ends_with(&n, "x32") || text_starts_with(&n, "f32x") || text_starts_with(&n, "f64x")
        || text_starts_with(&n, "i32x") || text_starts_with(&n, "i64x") || text_starts_with(
        &n,
        "u8x",
    ) || text_starts_with(&n, "u16x") || text_starts_with(&n, "u32x") || text_starts_with(
        &n,
        "u64x",
    )
}

/// Whether an expression likely yields a vector (see [`likely_vector`]).
pub fn is_likely_vector_expression(expr: &Expr) -> (b: bool)
    ensures
        b == likely_vector(*expr),
{
    match expr {
        Expr::SIMD(_) => true,
        Expr::Variable(name) => {
            let n = chars_of(name.as_str());
            text_contains(&n, "vec") || text_contains(&n, "simd") || text_ends_with(&n, "x4")
                || text_ends_with(&n, "x8") || text_ends_with(&n, "x16")
        },
        Expr::Call(callee, _) => match &**callee {
            Expr::Variable(name) => {
                let n = chars_of(name.as_str());
                text_contains(&n, "horizontal") || text_contains(&n, "simd") || text_contains(
                    &n,
                    "vector",
                )
            },
            _ => false,
        },
        _ => false,
    }
}

/// Analyzes the complexity of a program.
pub fn analyze_execution_complexity(statements: &[Stmt]) -> (r: Result<ComplexityAnalysis, CompileError>)
    requires
        program_counts(statements@).statements <= usize::MAX,
    ensures
        r matches Ok(a) && counts_of(a) == program_counts(statements@),
{
    let mut analysis = ComplexityAnalysis::default();
    let ghost c = counts_of(analysis);
    let mut k: usize = 0;
    proof {
        assert(statements@.take(0) =~= Seq::<Stmt>::empty());
    }
    while k < statements.len()
        invariant
            k <= statements@.len(),
            c == counts_of(ComplexityAnalysis::empty()),
            counts_of(analysis) == stmts_effect(statements@.take(k as int), c, 0),
            counts_ok(counts_of(analysis)),
            stmts_effect(statements@, c, 0).statements <= usize::MAX,
        decreases statements@.len() - k,
    {
        proof {
            lemma_stmts_prefix(statements@, c, 0, k as int);
            lemma_stmts_prefix(statements@, c, 0, k + 1);
            lemma_stmt_effect(statements@[k as int], counts_of(analysis), 0);
        }
        analyze_statement(&statements[k], &mut analysis, 0);
        k = k + 1;
    }
    proof {
        assert(statements@.take(k as int) =~= statements@);
    }
    Ok(analysis)
}

/// Analyzes a statement at nesting `depth` (see [`stmt_effect`]).
fn analyze_statement(stmt: &Stmt, analysis: &mut ComplexityAnalysis, depth: usize)
    requires
        counts_ok(counts_of(*old(analysis))),
        depth <= old(analysis).statement_count,
        stmt_effect(*stmt, counts_of(*old(analysis)), depth as nat).statements <= usize::MAX,
    ensures
        counts_of(*final(analysis)) == stmt_effect(*stmt, counts_of(*old(analysis)), depth as nat),
    decreases *stmt, 1int,
{
    let ghost c = counts_of(*analysis);
    proof {
        lemma_stmt_effect(*stmt, c, depth as nat);
        lemma_parts_bound(*stmt, entered(c, depth as nat), depth as nat);
    }
    analysis.statement_count = analysis.statement_count + 1;
    if depth > analysis.max_recursion_depth {
        analysis.max_recursion_depth = depth;
    }
    match stmt {
        Stmt::FunctionDeclaration { .. } => analyze_function_parts(stmt, analysis, depth),
        Stmt::If { .. } => analyze_if_parts(stmt, analysis, depth),
        Stmt::For { .. } => analyze_for_parts(stmt, analysis, depth),
        _ => analyze_other_parts(stmt, analysis, depth),
    }
}

/// The parts of a statement only add to the counts, within the statements.
proof fn lemma_parts_bound(s: Stmt, c0: Counts, depth: nat)
    ensures
        stmt_parts_effect(s, c0, depth).statements >= c0.statements,
        counts_ok(c0) && c0.functions < c0.statements && depth + 1 <= c0.statements ==> counts_ok(
            stmt_parts_effect(s, c0, depth),
        ),
{
    match s {
        Stmt::FunctionDeclaration { params, body, .. } => {
            let c1 = Counts {
                functions: c0.functions + 1,
                simd_calls: c0.simd_calls || has_vector_param(params@),
                ..c0
            };
            lemma_stmt_effect(*body, c1, depth + 1);
        },
        Stmt::If { condition, then_branch, else_branch } => {
            lemma_expr_effect(condition, c0);
            let c1 = expr_effect(condition, c0);
            lemma_stmt_effect(*then_branch, c1, depth + 1);
            let c2 = stmt_effect(*then_branch, c1, depth + 1);
            match else_branch {
                Some(e) => lemma_stmt_effect(*e, c2, depth + 1),
                None => {},
            }
        },
        Stmt::While { condition, body } => {
            lemma_expr_effect(condition, c0);
            let c1 = expr_effect(condition, c0);
            lemma_stmt_effect(*body, Counts { complex_flow: true, ..c1 }, depth + 1);
        },
        Stmt::For { initializer, condition, increment, body } => {
            match initializer {
                Some(i) => lemma_stmt_effect(*i, c0, depth + 1),
                None => {},
            }
            let c1 = match initializer {
                Some(i) => stmt_effect(*i, c0, depth + 1),
                None => c0,
            };
            match condition {
                Some(e) => lemma_expr_effect(e, c1),
                None => {},
            }
            let c2 = match condition {
                Some(e) => expr_effect(e, c1),
                None => c1,
            };
            match increment {
                Some(e) => lemma_expr_effect(e, c2),
                None => {},
            }
            let c3 = match increment {
                Some(e) => expr_effect(e, c2),
                None => c2,
            };
            lemma_stmt_effect(*body, c3, depth + 1);
        },
        Stmt::ForIn { iterable, body, .. } => {
            lemma_expr_effect(iterable, c0);
            lemma_stmt_effect(*body, expr_effect(iterable, c0), depth + 1);
        },
        Stmt::VarDeclaration { type_annotation, initializer, .. } => {
            let c1 = match type_annotation {
                Some(t) => if is_vector_name(t.name@) {
                    Counts { simd_ops: true, ..c0 }
                } else {
                    c0
                },
                None => c0,
            };
            match initializer {
                Some(e) => lemma_expr_effect(e, c1),
                None => {},
            }
        },
        Stmt::Block(ss) => lemma_stmts_effect(ss@, c0, depth + 1),
        Stmt::Expression(e) => lemma_expr_effect(e, c0),
        Stmt::Return(r) => match r {
            Some(e) => lemma_expr_effect(e, c0),
            None => {},
        },
        _ => {},
    }
}

/// Analyzes the parts of a function declaration (see [`stmt_parts_effect`]).
fn analyze_function_parts(stmt: &Stmt, analysis: &mut ComplexityAnalysis, depth: usize)
    requires
        stmt is FunctionDeclaration,
        counts_ok(counts_of(*old(analysis))),
        old(analysis).function_count < old(analysis).statement_count,
        depth + 1 <= old(analysis).statement_count,
        stmt_parts_effect(*stmt, counts_of(*old(analysis)), depth as nat).statements <= usize::MAX,
    ensures
        counts_of(*final(analysis)) == stmt_parts_effect(
            *stmt,
            counts_of(*old(analysis)),
            depth as nat,
        ),
    decreases *stmt, 0int,
{
    let ghost c0 = counts_of(*analysis);
    let ghost d1: nat = (depth + 1) as nat;
    match stmt {
        Stmt::FunctionDeclaration { params, body, .. } => {
            proof {
                lemma_parts_bound(*stmt, c0, depth as nat);
            }
            analysis.function_count = analysis.function_count + 1;
            let mut i: usize = 0;
            while i < params.len()
                invariant
                    i <= params@.len(),
                    analysis.has_simd_function_calls == (c0.simd_calls || exists|j: int|
                        0 <= j < i && is_vector_name(
                            #[trigger] params@[j].type_annotation.name@,
                        )),
                    counts_of(*analysis) == (Counts {
                        functions: c0.functions + 1,
                        simd_calls: analysis.has_simd_function_calls,
                        ..c0
                    }),
                decreases params@.len() - i,
            {
                if is_vector_type(&params[i].type_annotation) {
                    analysis.has_simd_function_calls = true;
                }
                i = i + 1;
            }
            proof {
                let c1 = counts_of(*analysis);
                lemma_stmt_effect(**body, c1, d1);
            }
            analyze_statement(body, analysis, depth + 1);
        },
        _ => {},
    }
}

/// Analyzes the parts of a conditional (see [`stmt_parts_effect`]).
fn analyze_if_parts(stmt: &Stmt, analysis: &mut ComplexityAnalysis, depth: usize)
    requires
        stmt is If,
        counts_ok(counts_of(*old(analysis))),
        old(analysis).function_count < old(analysis).statement_count,
        depth + 1 <= old(analysis).statement_count,
        stmt_parts_effect(*stmt, counts_of(*old(analysis)), depth as nat).statements <= usize::MAX,
    ensures
        counts_of(*final(analysis)) == stmt_parts_effect(
            *stmt,
            counts_of(*old(analysis)),
            depth as nat,
        ),
    decreases *stmt, 0int,
{
    let ghost c0 = counts_of(*analysis);
    let ghost d1: nat = (depth + 1) as nat;
    match stmt {
        Stmt::If { condition, then_branch, else_branch } => {
            proof {
                lemma_expr_effect(*condition, c0);
                let c1 = expr_effect(*condition, c0);
                lemma_stmt_effect(**then_branch, c1, d1);
                let c2 = stmt_effect(**then_branch, c1, d1);
                match else_branch {
                    Some(e) => lemma_stmt_effect(**e, c2, d1),
                    None => {},
                }
            }
            analyze_expression(condition, analysis);
            analyze_statement(then_branch, analysis, depth + 1);
            match else_branch {
                Some(e) => {
                    analyze_statement(e, analysis, depth + 1);
                },
                None => {},
            }
            if depth > 2 {
                analysis.complex_control_flow = true;
            }
        },
        _ => {},
    }
}

/// Analyzes the parts of a `for` loop (see [`stmt_parts_effect`]).
fn analyze_for_parts(stmt: &Stmt, analysis: &mut ComplexityAnalysis, depth: usize)
    requires
        stmt is For,
        counts_ok(counts_of(*old(analysis))),
        old(analysis).function_count < old(analysis).statement_count,
        depth + 1 <= old(analysis).statement_count,
        stmt_parts_effect(*stmt, counts_of(*old(analysis)), depth as nat).statements <= usize::MAX,
    ensures
        counts_of(*final(analysis)) == stmt_parts_effect(
            *stmt,
            counts_of(*old(analysis)),
            depth as nat,
        ),
    decreases *stmt, 0int,
{
    let ghost c0 = counts_of(*analysis);
    let ghost d1: nat = (depth + 1) as nat;
    match stmt {
        Stmt::For { initializer, condition, increment, body } => {
            proof {
                match initializer {
                    Some(i) => lemma_stmt_effect(**i, c0, d1),
                    None => {},
                }
                let c1 = match initializer {
                    Some(i) => stmt_effect(**i, c0, d1),
                    None => c0,
                };
                match condition {
                    Some(e) => lemma_expr_effect(*e, c1),
                    None => {},
                }
                let c2 = match condition {
                    Some(e) => expr_effect(*e, c1),
                    None => c1,
                };
                match increment {
                    Some(e) => lemma_expr_effect(*e, c2),
                    None => {},
                }
                let c3 = match increment {
                    Some(e) => expr_effect(*e, c2),
                    None => c2,
                };
                lemma_stmt_effect(**body, c3, d1);
            }
            match initializer {
                Some(init) => {
                    analyze_statement(init, analysis, depth + 1);
                },
                None => {},
            }
            match condition {
                Some(cond) => {
                    analyze_expression(cond, analysis);
                },
                None => {},
            }
            match increment {
                Some(inc) => {
                    analyze_expression(inc, analysis);
                },
                None => {},
            }
            analyze_statement(body, analysis, depth + 1);
            analysis.complex_control_flow = true;
        },
        _ => {},
    }
}

/// Analyzes the parts of the other statements (see [`stmt_parts_effect`]).
fn analyze_other_parts(stmt: &Stmt, analysis: &mut ComplexityAnalysis, depth: usize)
    requires
        !(stmt is FunctionDeclaration || stmt is If || stmt is For),
        counts_ok(counts_of(*old(analysis))),
        old(analysis).function_count < old(analysis).statement_count,
        depth + 1 <= old(analysis).statement_count,
        stmt_parts_effect(*stmt, counts_of(*old(analysis)), depth as nat).statements <= usize::MAX,
    ensures
        counts_of(*final(analysis)) == stmt_parts_effect(
            *stmt,
            counts_of(*old(analysis)),
            depth as nat,
        ),
    decreases *stmt, 0int,
{
    let ghost c0 = counts_of(*analysis);
    let ghost d1: nat = (depth + 1) as nat;
    proof {
        lemma_parts_bound(*stmt, c0, depth as nat);
    }
    match stmt {
        Stmt::While { condition, body } => {
            proof {
                lemma_expr_effect(*condition, c0);
                let c1 = expr_effect(*condition, c0);
                lemma_stmt_effect(**body, Counts { complex_flow: true, ..c1 }, d1);
            }
            analyze_expression(condition, analysis);
            analysis.complex_control_flow = true;
            analyze_statement(body, analysis, depth + 1);
        },
        Stmt::ForIn { iterable, body, .. } => {
            proof {
                lemma_expr_effect(*iterable, c0);
                lemma_stmt_effect(**body, expr_effect(*iterable, c0), d1);
            }
            analyze_expression(iterable, analysis);
            analyze_statement(body, analysis, depth + 1);
            analysis.complex_control_flow = true;
        },
        Stmt::VarDeclaration { type_annotation, initializer, .. } => {
            match type_annotation {
                Some(t) => {
                    if is_vector_type(t) {
                        analysis.has_simd_operations = true;
                    }
                },
                None => {},
            }
            match initializer {
                Some(e) => {
                    proof {
                        lemma_expr_effect(*e, counts_of(*analysis));
                    }
                    analyze_expression(e, analysis);
                },
                None => {},
            }
        },
        Stmt::Block(statements) => {
            proof {
                lemma_stmts_effect(statements@, c0, d1);
            }
            analyze_statements(statements, analysis, depth + 1);
        },
        Stmt::Expression(e) => {
            analyze_expression(e, analysis);
        },
        Stmt::Return(r) => {
            match r {
                Some(e) => {
                    analyze_expression(e, analysis);
                },
                None => {},
            }
        },
        _ => {},
    }
}

/// Analyzes an expression (see [`expr_effect`]).
fn analyze_expression(expr: &Expr, analysis: &mut ComplexityAnalysis)
    requires
        counts_ok(counts_of(*old(analysis))),
        expr_effect(*expr, counts_of(*old(analysis))).statements <= usize::MAX,
    ensures
        counts_of(*final(analysis)) == expr_effect(*expr, counts_of(*old(analysis))),
    decreases *expr, 0int,
{
    let ghost c = counts_of(*analysis);
    proof {
        lemma_expr_effect(*expr, c);
    }
    match expr {
        Expr::Call(callee, args) => {
            proof {
                lemma_expr_effect(**callee, c);
                lemma_call_args_effect(args@, expr_effect(**callee, c));
            }
            analyze_expression(callee, analysis);
            analyze_call_args(args, analysis);
        },
        Expr::SIMD(simd_expr) => {
            analysis.has_simd_operations = true;
            analyze_simd_expression(simd_expr, analysis);
        },
        Expr::Binary(left, _, right) => {
            proof {
                lemma_expr_effect(**left, c);
                lemma_expr_effect(**right, expr_effect(**left, c));
            }
            analyze_expression(left, analysis);
            analyze_expression(right, analysis);
        },
        Expr::Unary(_, operand) => {
            analyze_expression(operand, analysis);
        },
        Expr::Grouping(inner) => {
            analyze_expression(inner, analysis);
        },
        Expr::Index(array, index) => {
            proof {
                lemma_expr_effect(**array, c);
                lemma_expr_effect(**index, expr_effect(**array, c));
            }
            analyze_expression(array, analysis);
            analyze_expression(index, analysis);
        },
        Expr::Slice { array, start, end } => {
            proof {
                lemma_expr_effect(**array, c);
                lemma_expr_effect(**start, expr_effect(**array, c));
                lemma_expr_effect(**end, expr_effect(**start, expr_effect(**array, c)));
            }
            analyze_expression(array, analysis);
            analyze_expression(start, analysis);
            analyze_expression(end, analysis);
        },
        Expr::FieldAccess(object, _) => {
            analyze_expression(object, analysis);
        },
        Expr::StructLiteral { fields, .. } => {
            analyze_fields(fields, analysis);
        },
        Expr::EnumLiteral { args, .. } => {
            analyze_expressions(args, analysis);
        },
        Expr::Match { value, arms } => {
            proof {
                lemma_expr_effect(**value, c);
                lemma_arms_effect(arms@, expr_effect(**value, c));
            }
            analyze_expression(value, analysis);
            analyze_arms(arms, analysis);
        },
        Expr::If { condition, then_branch, else_branch } => {
            proof {
                lemma_expr_effect(**condition, c);
                lemma_expr_effect(**then_branch, expr_effect(**condition, c));
                let c2 = expr_effect(**then_branch, expr_effect(**condition, c));
                match else_branch {
                    Some(x) => lemma_expr_effect(**x, c2),
                    None => {},
                }
            }
            analyze_expression(condition, analysis);
            analyze_expression(then_branch, analysis);
            match else_branch {
                Some(x) => {
                    analyze_expression(x, analysis);
                },
                None => {},
            }
        },
        Expr::Block(statements) => {
            analyze_statements(statements, analysis, 0);
        },
        Expr::Cast { expr: inner, .. } => {
            analyze_expression(inner, analysis);
        },
        Expr::Tuple { elements, .. } => {
            analyze_expressions(elements, analysis);
        },
        _ => {},
    }
}

/// Analyzes statements in order at nesting `depth` (see [`stmts_effect`]).
fn analyze_statements(statements: &Vec<Stmt>, analysis: &mut ComplexityAnalysis, depth: usize)
    requires
        counts_ok(counts_of(*old(analysis))),
        depth <= old(analysis).statement_count,
        stmts_effect(statements@, counts_of(*old(analysis)), depth as nat).statements <= usize::MAX,
    ensures
        counts_of(*final(analysis)) == stmts_effect(
            statements@,
            counts_of(*old(analysis)),
            depth as nat,
        ),
    decreases statements@, 0int,
{
    let ghost c = counts_of(*analysis);
    let ghost ss = statements@;
    let mut k: usize = 0;
    proof {
        assert(ss.take(0) =~= Seq::<Stmt>::empty());
    }
    while k < statements.len()
        invariant
            k <= ss.len(),
            ss == statements@,
            depth <= c.statements,
            counts_of(*analysis) == stmts_effect(ss.take(k as int), c, depth as nat),
            counts_ok(counts_of(*analysis)),
            counts_of(*analysis).statements >= c.statements,
            stmts_effect(ss, c, depth as nat).statements <= usize::MAX,
        decreases ss.len() - k,
    {
        proof {
            lemma_stmts_prefix(ss, c, depth as nat, k as int);
            lemma_stmts_prefix(ss, c, depth as nat, k + 1);
            lemma_stmt_effect(ss[k as int], counts_of(*analysis), depth as nat);
        }
        analyze_statement(&statements[k], analysis, depth);
        k = k + 1;
    }
    proof {
        assert(ss.take(k as int) =~= ss);
    }
}

/// Analyzes the arguments of a call in order (see [`call_args_effect`]).
fn analyze_call_args(args: &Vec<Expr>, analysis: &mut ComplexityAnalysis)
    requires
        counts_ok(counts_of(*old(analysis))),
        call_args_effect(args@, counts_of(*old(analysis))).statements <= usize::MAX,
    ensures
        counts_of(*final(analysis)) == call_args_effect(args@, counts_of(*old(analysis))),
    decreases args@, 0int,
{
    let ghost c = counts_of(*analysis);
    let ghost es = args@;
    let mut k: usize = 0;
    proof {
        assert(es.take(0) =~= Seq::<Expr>::empty());
    }
    while k < args.len()
        invariant
            k <= es.len(),
            es == args@,
            counts_of(*analysis) == call_args_effect(es.take(k as int), c),
            counts_ok(counts_of(*analysis)),
            call_args_effect(es, c).statements <= usize::MAX,
        decreases es.len() - k,
    {
        proof {
            lemma_call_args_prefix(es, c, k as int);
            lemma_call_args_prefix(es, c, k + 1);
        }
        if is_likely_vector_expression(&args[k]) {
            analysis.has_simd_function_calls = true;
        }
        proof {
            lemma_expr_effect(es[k as int], counts_of(*analysis));
        }
        analyze_expression(&args[k], analysis);
        k = k + 1;
    }
    proof {
        assert(es.take(k as int) =~= es);
    }
}

/// Analyzes the values of struct literal fields in order (see
/// [`fields_effect`]).
fn analyze_fields(fields: &Vec<StructFieldInit>, analysis: &mut ComplexityAnalysis)
    requires
        counts_ok(counts_of(*old(analysis))),
        fields_effect(fields@, counts_of(*old(analysis))).statements <= usize::MAX,
    ensures
        counts_of(*final(analysis)) == fields_effect(fields@, counts_of(*old(analysis))),
    decreases fields@, 0int,
{
    let ghost c = counts_of(*analysis);
    let ghost fs = fields@;
    let mut k: usize = 0;
    proof {
        assert(fs.take(0) =~= Seq::<StructFieldInit>::empty());
    }
    while k < fields.len()
        invariant
            k <= fs.len(),
            fs == fields@,
            counts_of(*analysis) == fields_effect(fs.take(k as int), c),
            counts_ok(counts_of(*analysis)),
            fields_effect(fs, c).statements <= usize::MAX,
        decreases fs.len() - k,
    {
        proof {
            lemma_fields_prefix(fs, c, k as int);
            lemma_fields_prefix(fs, c, k + 1);
            lemma_expr_effect(fs[k as int].value, counts_of(*analysis));
        }
        analyze_expression(&fields[k].value, analysis);
        k = k + 1;
    }
    proof {
        assert(fs.take(k as int) =~= fs);
    }
}

/// Analyzes the expressions of match arms in order (see [`arms_effect`]).
fn analyze_arms(arms: &Vec<MatchArm>, analysis: &mut ComplexityAnalysis)
    requires
        counts_ok(counts_of(*old(analysis))),
        arms_effect(arms@, counts_of(*old(analysis))).statements <= usize::MAX,
    ensures
        counts_of(*final(analysis)) == arms_effect(arms@, counts_of(*old(analysis))),
    decreases arms@, 0int,
{
    let ghost c = counts_of(*analysis);
    let ghost xs = arms@;
    let mut k: usize = 0;
    proof {
        assert(xs.take(0) =~= Seq::<MatchArm>::empty());
    }
    while k < arms.len()
        invariant
            k <= xs.len(),
            xs == arms@,
            counts_of(*analysis) == arms_effect(xs.take(k as int), c),
            counts_ok(counts_of(*analysis)),
            arms_effect(xs, c).statements <= usize::MAX,
        decreases xs.len() - k,
    {
        proof {
            lemma_arms_prefix(xs, c, k as int);
            lemma_arms_prefix(xs, c, k + 1);
            lemma_expr_effect(xs[k as int].expression, counts_of(*analysis));
        }
        analyze_expression(&arms[k].expression, analysis);
        k = k + 1;
    }
    proof {
        assert(xs.take(k as int) =~= xs);
    }
}

/// Analyzes expressions in order (see [`exprs_effect`]).
fn analyze_expressions(exprs: &Vec<Expr>, analysis: &mut ComplexityAnalysis)
    requires
        counts_ok(counts_of(*old(analysis))),
        exprs_effect(exprs@, counts_of(*old(analysis))).statements <= usize::MAX,
    ensures
        counts_of(*final(analysis)) == exprs_effect(exprs@, counts_of(*old(analysis))),
    decreases exprs@, 0int,
{
    let ghost c = counts_of(*analysis);
    let ghost es = exprs@;
    let mut k: usize = 0;
    proof {
        assert(es.take(0) =~= Seq::<Expr>::empty());
    }
    while k < exprs.len()
        invariant
            k <= es.len(),
            es == exprs@,
            counts_of(*analysis) == exprs_effect(es.take(k as int), c),
            counts_ok(counts_of(*analysis)),
            exprs_effect(es, c).statements <= usize::MAX,
        decreases es.len() - k,
    {
        proof {
            lemma_exprs_prefix(es, c, k as int);
            lemma_exprs_prefix(es, c, k + 1);
            lemma_expr_effect(es[k as int], counts_of(*analysis));
        }
        analyze_expression(&exprs[k], analysis);
        k = k + 1;
    }
    proof {
        assert(es.take(k as int) =~= es);
    }
}

/// Analyzes a SIMD expression (see [`simd_effect`]).
fn analyze_simd_expression(simd_expr: &SIMDExpr, analysis: &mut ComplexityAnalysis)
    requires
        counts_ok(counts_of(*old(analysis))),
        simd_effect(*simd_expr, counts_of(*old(analysis))).statements <= usize::MAX,
    ensures
        counts_of(*final(analysis)) == simd_effect(*simd_expr, counts_of(*old(analysis))),
    decreases *simd_expr, 0int,
{
    let ghost c = counts_of(*analysis);
    analysis.has_simd_operations = true;
    let ghost c0 = counts_of(*analysis);
    match simd_expr {
        SIMDExpr::VectorLiteral { elements, .. } => {
            analyze_expressions(elements, analysis);
        },
        SIMDExpr::ElementWise { left, right, .. } => {
            proof {
                lemma_expr_effect(**left, c0);
                lemma_expr_effect(**right, expr_effect(**left, c0));
            }
            analyze_expression(left, analysis);
            analyze_expression(right, analysis);
        },
        SIMDExpr::Broadcast { value, .. } => {
            analyze_expression(value, analysis);
        },
        SIMDExpr::Swizzle { vector, .. } => {
            analyze_expression(vector, analysis);
        },
        SIMDExpr::Reduction { vector, .. } => {
            analyze_expression(vector, analysis);
        },
        SIMDExpr::DotProduct { left, right, .. } => {
            proof {
                lemma_expr_effect(**left, c0);
                lemma_expr_effect(**right, expr_effect(**left, c0));
            }
            analyze_expression(left, analysis);
            analyze_expression(right, analysis);
        },
        SIMDExpr::VectorLoad { address, .. } => {
            analyze_expression(address, analysis);
        },
        SIMDExpr::VectorStore { address, vector, .. } => {
            proof {
                lemma_expr_effect(**address, c0);
                lemma_expr_effect(**vector, expr_effect(**address, c0));
            }
            analyze_expression(address, analysis);
            analyze_expression(vector, analysis);
        },
    }
}

} // verus!
