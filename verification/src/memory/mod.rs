//! Compile-time memory region analysis: sizes, regions, access patterns and
//! lifetimes of the variables a program declares.

use vstd::prelude::*;
use crate::ast::{Expr, Literal, Stmt, TypeAnnotation};
use crate::name_map::NameMap;
use crate::text::{chars_of, push_str, str_is, string_of};

verus! {

/// Memory region classification.
#[derive(Debug, Clone, Copy, PartialEq, Eq, Structural)]
pub enum MemoryRegionType {
    /// Local variables, small arrays
    Stack,
    /// Arrays and collections
    WorkingSet,
    /// Constants and literals
    ReadOnly,
}

/// Memory access pattern for optimization.
#[derive(Debug, Clone, Copy, PartialEq, Eq, Structural)]
pub enum AccessPattern {
    /// Linear access
    Sequential,
    /// Random access pattern
    Random,
    /// Written once, read many times
    WriteOnce,
}

/// Information about a variable's memory usage.
#[derive(Debug, Clone)]
pub struct VariableInfo {
    pub name: String,
    pub size_bytes: usize,
    pub region_type: MemoryRegionType,
    pub access_pattern: AccessPattern,
    pub lifetime_start: usize,
    pub lifetime_end: usize,
}

/// Memory analysis results for a program.
#[derive(Debug)]
pub struct MemoryAnalysis {
    pub variables: NameMap<VariableInfo>,
    pub stack_usage: usize,
    pub working_set_size: usize,
    pub lifetime_analysis: NameMap<(usize, usize)>,
}

/// Metadata for LLVM IR generation.
#[derive(Debug, Clone)]
pub struct LLVMMemoryMetadata {
    pub variable_name: String,
    pub region_type: String,
    pub lifetime_start: usize,
    pub lifetime_end: usize,
    pub optimization_hint: String,
}

/// What the analysis knows of a variable, with unbounded numbers.
pub struct VarFact {
    pub name: Seq<char>,
    pub size: nat,
    pub region: MemoryRegionType,
    pub access: AccessPattern,
    pub start: nat,
    pub end: nat,
}

/// The state of the analysis, with unbounded numbers.
pub struct AnalysisModel {
    pub vars: Map<Seq<char>, VarFact>,
    pub lifetimes: Map<Seq<char>, (nat, nat)>,
    pub stack: nat,
    pub working_set: nat,
    pub pos: nat,
}

/// The fact recorded for a variable.
pub open spec fn fact_of(v: VariableInfo) -> VarFact {
    VarFact {
        name: v.name@,
        size: v.size_bytes as nat,
        region: v.region_type,
        access: v.access_pattern,
        start: v.lifetime_start as nat,
        end: v.lifetime_end as nat,
    }
}

/// The model of an analysis in progress at a statement position.
pub open spec fn model_of(a: MemoryAnalysis, pos: usize) -> AnalysisModel {
    AnalysisModel {
        vars: a.variables.map().map_values(|v: VariableInfo| fact_of(v)),
        lifetimes: a.lifetime_analysis.map().map_values(
            |p: (usize, usize)| (p.0 as nat, p.1 as nat),
        ),
        stack: a.stack_usage as nat,
        working_set: a.working_set_size as nat,
        pos: pos as nat,
    }
}

/// Whether a character is white space as `char::is_whitespace` defines it.
pub open spec fn is_white(c: char) -> bool {
    ||| c == ' '
    ||| ('\t' <= c <= '\r')
    ||| c == '\u{85}'
    ||| c == '\u{a0}'
    ||| c == '\u{1680}'
    ||| ('\u{2000}' <= c <= '\u{200a}')
    ||| c == '\u{2028}'
    ||| c == '\u{2029}'
    ||| c == '\u{202f}'
    ||| c == '\u{205f}'
    ||| c == '\u{3000}'
}

/// The number of leading white-space characters.
pub open spec fn leading_white(s: Seq<char>) -> nat
    decreases s.len(),
{
    if s.len() > 0 && is_white(s[0]) {
        1 + leading_white(s.drop_first())
    } else {
        0
    }
}

/// The number of trailing white-space characters.
pub open spec fn trailing_white(s: Seq<char>) -> nat
    decreases s.len(),
{
    if s.len() > 0 && is_white(s.last()) {
        1 + trailing_white(s.drop_last())
    } else {
        0
    }
}

/// The text without leading and trailing white space, as `str::trim` gives it.
pub open spec fn trim(s: Seq<char>) -> Seq<char> {
    let a = leading_white(s);
    if a == s.len() {
        Seq::empty()
    } else {
        s.subrange(a as int, s.len() - trailing_white(s))
    }
}

/// Whether a character is an ASCII digit.
pub open spec fn is_digit(c: char) -> bool {
    '0' <= c <= '9'
}

/// The value of a digit character.
pub open spec fn digit_value(c: char) -> nat {
    (c as int - '0' as int) as nat
}

/// The value of a string of ASCII digits.
pub open spec fn digits_value(s: Seq<char>) -> nat
    decreases s.len(),
{
    if s.len() == 0 {
        0
    } else {
        digits_value(s.drop_last()) * 10 + digit_value(s.last())
    }
}

/// Whether every character is an ASCII digit.
pub open spec fn all_digits(s: Seq<char>) -> bool {
    forall|i: int| 0 <= i < s.len() ==> is_digit(s[i])
}

/// The value `str::parse::<usize>` reads: an optional '+' and at least one digit,
/// with a value that fits in `usize`.
pub open spec fn parse_usize(s: Seq<char>) -> Option<nat> {
    let d = if s.len() > 0 && s[0] == '+' {
        s.drop_first()
    } else {
        s
    };
    if d.len() > 0 && all_digits(d) && digits_value(d) <= usize::MAX {
        Some(digits_value(d))
    } else {
        None
    }
}

/// The index of the first occurrence of `c` at or after `from`, or the length.
pub open spec fn find_from(s: Seq<char>, c: char, from: nat) -> nat
    decreases s.len() - from,
{
    if from >= s.len() {
        s.len()
    } else if s[from as int] == c {
        from
    } else {
        find_from(s, c, from + 1)
    }
}

/// `find_from` lands on the sought character or at the end, never before `from`.
pub proof fn lemma_find_from(s: Seq<char>, c: char, from: nat)
    requires
        from <= s.len(),
    ensures
        from <= find_from(s, c, from) <= s.len(),
        find_from(s, c, from) < s.len() ==> s[find_from(s, c, from) as int] == c,
    decreases s.len() - from,
{
    if from < s.len() && s[from as int] != c {
        lemma_find_from(s, c, from + 1);
    }
}

/// Whether "i32" starts at index `i` of the text.
pub open spec fn i32_at(s: Seq<char>, i: int) -> bool {
    0 <= i && i + 3 <= s.len() && s[i] == 'i' && s[i + 1] == '3' && s[i + 2] == '2'
}

/// Whether the text holds "i32".
pub open spec fn holds_i32(s: Seq<char>) -> bool {
    exists|i: int| #[trigger] i32_at(s, i)
}

/// The estimated size of an array type such as `[i32; 1000]`: the element count,
/// read from the text between the first and second ';' before a closing ']', times
/// four when the type mentions `i32` and eight otherwise; 32 when no count is read.
pub open spec fn array_size(n: Seq<char>) -> nat {
    let a = find_from(n, ';', 0);
    let b = find_from(n, ';', a + 1);
    let seg = n.subrange(a + 1 as int, b as int);
    if seg.len() > 0 && seg.last() == ']' {
        match parse_usize(trim(seg.drop_last())) {
            Some(count) => count * (if holds_i32(n) {
                4nat
            } else {
                8nat
            }),
            None => 32,
        }
    } else {
        32
    }
}

/// Whether a type name starts with '[' and holds a ';'.
pub open spec fn is_array_name(n: Seq<char>) -> bool {
    n.len() > 0 && n[0] == '[' && find_from(n, ';', 0) < n.len()
}

/// The estimated size in bytes of a type name.
pub open spec fn name_size(n: Seq<char>) -> nat {
    if n == "i32"@ {
        4
    } else if n == "i64"@ {
        8
    } else if n == "f32"@ {
        4
    } else if n == "f64"@ {
        8
    } else if n == "bool"@ {
        1
    } else if n == "string"@ {
        64
    } else if is_array_name(n) {
        array_size(n)
    } else {
        8
    }
}

/// The estimated size in bytes of an optional type annotation; eight when absent.
pub open spec fn type_size(t: Option<TypeAnnotation>) -> nat {
    match t {
        Some(t) => name_size(t.name@),
        None => 8,
    }
}

/// The region for a variable of the given size: up to 64 bytes on the stack, up to
/// 4096 bytes in the working set, read-only beyond.
pub open spec fn region_for(size: nat) -> MemoryRegionType {
    if size <= 64 {
        MemoryRegionType::Stack
    } else if size <= 4096 {
        MemoryRegionType::WorkingSet
    } else {
        MemoryRegionType::ReadOnly
    }
}

/// The access pattern of a variable with the given initializer.
pub open spec fn access_for(init: Option<Expr>) -> AccessPattern {
    match init {
        Some(Expr::Literal(Literal::Vector { .. })) => AccessPattern::Sequential,
        Some(Expr::Literal(Literal::String(_))) => AccessPattern::WriteOnce,
        _ => AccessPattern::Random,
    }
}

/// The analysis of one statement: the position advances by one per statement
/// visited; a variable declaration records its size, region, access pattern and a
/// lifetime of 100 positions; a function records the span of its body.
pub open spec fn analyze_stmt(s: Stmt, m: AnalysisModel) -> AnalysisModel
    decreases s,
{
    let m1 = AnalysisModel { pos: m.pos + 1, ..m };
    match s {
        Stmt::VarDeclaration { name, type_annotation, initializer } => {
            let size = type_size(type_annotation);
            let region = region_for(size);
            let fact = VarFact {
                name: name@,
                size,
                region,
                access: access_for(initializer),
                start: m1.pos,
                end: m1.pos + 100,
            };
            AnalysisModel {
                vars: m1.vars.insert(name@, fact),
                lifetimes: m1.lifetimes.insert(name@, (m1.pos, m1.pos + 100)),
                stack: if region == MemoryRegionType::Stack {
                    m1.stack + size
                } else {
                    m1.stack
                },
                working_set: if region == MemoryRegionType::WorkingSet {
                    m1.working_set + size
                } else {
                    m1.working_set
                },
                pos: m1.pos,
            }
        },
        Stmt::FunctionDeclaration { name, body, .. } => {
            let m2 = analyze_stmt(*body, m1);
            AnalysisModel {
                lifetimes: m2.lifetimes.insert("func_"@ + name@, (m1.pos, m2.pos)),
                ..m2
            }
        },
        Stmt::If { then_branch, else_branch, .. } => {
            let m2 = analyze_stmt(*then_branch, m1);
            match else_branch {
                Some(e) => analyze_stmt(*e, m2),
                None => m2,
            }
        },
        Stmt::While { body, .. } => analyze_stmt(*body, m1),
        Stmt::Block(stmts) => analyze_stmts(stmts@, m1),
        _ => m1,
    }
}

/// The analysis of a sequence of statements, in order.
pub open spec fn analyze_stmts(ss: Seq<Stmt>, m: AnalysisModel) -> AnalysisModel
    decreases ss,
{
    if ss.len() == 0 {
        m
    } else {
        analyze_stmts(ss.drop_first(), analyze_stmt(ss[0], m))
    }
}

/// Whether every variable declared in a statement has a size that fits in `usize`.
pub open spec fn sizes_fit(s: Stmt) -> bool
    decreases s,
{
    match s {
        Stmt::VarDeclaration { type_annotation, .. } => type_size(type_annotation) <= usize::MAX,
        Stmt::FunctionDeclaration { body, .. } => sizes_fit(*body),
        Stmt::If { then_branch, else_branch, .. } => sizes_fit(*then_branch) && match else_branch {
            Some(e) => sizes_fit(*e),
            None => true,
        },
        Stmt::While { body, .. } => sizes_fit(*body),
        Stmt::Block(stmts) => all_sizes_fit(stmts@),
        _ => true,
    }
}

/// Whether every variable declared in the statements has a size that fits in `usize`.
pub open spec fn all_sizes_fit(ss: Seq<Stmt>) -> bool
    decreases ss,
{
    if ss.len() == 0 {
        true
    } else {
        sizes_fit(ss[0]) && all_sizes_fit(ss.drop_first())
    }
}

/// Whether the totals and positions of a model fit in `usize`, with room for the
/// lifetime of a variable declared at the last position.
pub open spec fn model_fits(m: AnalysisModel) -> bool {
    &&& m.pos + 100 <= usize::MAX
    &&& m.stack <= usize::MAX
    &&& m.working_set <= usize::MAX
}

/// The analysis of a whole program from an empty state.
pub open spec fn analyze_program(program: Seq<Stmt>) -> AnalysisModel {
    analyze_stmts(
        program,
        AnalysisModel {
            vars: Map::empty(),
            lifetimes: Map::empty(),
            stack: 0,
            working_set: 0,
            pos: 0,
        },
    )
}

/// The analysis never moves backwards: positions and totals only grow.
pub proof fn lemma_analyze_grows(s: Stmt, m: AnalysisModel)
    ensures
        analyze_stmt(s, m).pos > m.pos,
        analyze_stmt(s, m).stack >= m.stack,
        analyze_stmt(s, m).working_set >= m.working_set,
    decreases s,
{
    let m1 = AnalysisModel { pos: m.pos + 1, ..m };
    match s {
        Stmt::FunctionDeclaration { body, .. } => {
            lemma_analyze_grows(*body, m1);
        },
        Stmt::If { then_branch, else_branch, .. } => {
            lemma_analyze_grows(*then_branch, m1);
            match else_branch {
                Some(e) => lemma_analyze_grows(*e, analyze_stmt(*then_branch, m1)),
                None => {},
            }
        },
        Stmt::While { body, .. } => {
            lemma_analyze_grows(*body, m1);
        },
        Stmt::Block(stmts) => {
            lemma_analyze_seq_grows(stmts@, m1);
        },
        _ => {},
    }
}

/// A sequence of statements never moves the analysis backwards.
pub proof fn lemma_analyze_seq_grows(ss: Seq<Stmt>, m: AnalysisModel)
    ensures
        analyze_stmts(ss, m).pos >= m.pos,
        analyze_stmts(ss, m).stack >= m.stack,
        analyze_stmts(ss, m).working_set >= m.working_set,
    decreases ss,
{
    if ss.len() > 0 {
        lemma_analyze_grows(ss[0], m);
        lemma_analyze_seq_grows(ss.drop_first(), analyze_stmt(ss[0], m));
    }
}

/// Whether a type name is exactly the given text.
fn name_is(n: &Vec<char>, lit: &str) -> (b: bool)
    ensures
        b == (n@ == lit@),
{
    let l = chars_of(lit);
    crate::text::chars_equal(n, &l)
}

/// The index of the first `c` at or after `from`, or the length.
fn find_char_from(n: &Vec<char>, c: char, from: usize) -> (r: usize)
    requires
        from <= n@.len(),
    ensures
        r == find_from(n@, c, from as nat),
    decreases n@.len() - from,
{
    if from >= n.len() {
        n.len()
    } else if n[from] == c {
        from
    } else {
        find_char_from(n, c, from + 1)
    }
}

/// Whether a character is white space as `char::is_whitespace` defines it.
fn white(c: char) -> (b: bool)
    ensures
        b == is_white(c),
{
    c == ' ' || ('\t' <= c && c <= '\r') || c == '\u{85}' || c == '\u{a0}' || c == '\u{1680}'
        || ('\u{2000}' <= c && c <= '\u{200a}') || c == '\u{2028}' || c == '\u{2029}' || c
        == '\u{202f}' || c == '\u{205f}' || c == '\u{3000}'
}

proof fn lemma_leading_white(s: Seq<char>, k: nat)
    requires
        k <= s.len(),
        forall|j: int| 0 <= j < k ==> is_white(s[j]),
    ensures
        leading_white(s) == k + leading_white(s.subrange(k as int, s.len() as int)),
    decreases k,
{
    if k > 0 {
        assert(s.drop_first().subrange((k - 1) as int, s.drop_first().len() as int) =~= s.subrange(
            k as int,
            s.len() as int,
        ));
        lemma_leading_white(s.drop_first(), (k - 1) as nat);
    } else {
        assert(s.subrange(0, s.len() as int) =~= s);
    }
}

proof fn lemma_trailing_white(s: Seq<char>, k: nat)
    requires
        k <= s.len(),
        forall|j: int| s.len() - k <= j < s.len() ==> is_white(s[j]),
    ensures
        trailing_white(s) == k + trailing_white(s.subrange(0, s.len() - k)),
    decreases k,
{
    if k > 0 {
        assert(s.drop_last().subrange(0, s.drop_last().len() - (k - 1)) =~= s.subrange(
            0,
            s.len() - k,
        ));
        lemma_trailing_white(s.drop_last(), (k - 1) as nat);
    } else {
        assert(s.subrange(0, s.len() as int) =~= s);
    }
}

proof fn lemma_trailing_bound(s: Seq<char>)
    ensures
        trailing_white(s) <= s.len(),
    decreases s.len(),
{
    if s.len() > 0 && is_white(s.last()) {
        lemma_trailing_bound(s.drop_last());
    }
}

/// The text without leading and trailing white space.
fn trim_chars(s: &Vec<char>) -> (t: Vec<char>)
    ensures
        t@ == trim(s@),
{
    let mut a: usize = 0;
    while a < s.len() && white(s[a])
        invariant
            a <= s@.len(),
            forall|j: int| 0 <= j < a ==> is_white(s@[j]),
        decreases s@.len() - a,
    {
        a = a + 1;
    }
    proof {
        lemma_leading_white(s@, a as nat);
        let rest = s@.subrange(a as int, s@.len() as int);
        if a < s@.len() {
            assert(rest[0] == s@[a as int]);
            assert(leading_white(rest) == 0);
        } else {
            assert(rest.len() == 0);
        }
    }
    if a == s.len() {
        return Vec::new();
    }
    let mut b: usize = s.len();
    while b > a && white(s[b - 1])
        invariant
            a <= b <= s@.len(),
            a < s@.len(),
            forall|j: int| b <= j < s@.len() ==> is_white(s@[j]),
        decreases b,
    {
        b = b - 1;
    }
    proof {
        lemma_trailing_white(s@, (s@.len() - b) as nat);
        let front = s@.subrange(0, b as int);
        if b > a {
            assert(front.last() == s@[b - 1]);
            assert(trailing_white(front) == 0);
        } else {
            assert(!is_white(s@[a as int]));
            assert(front.last() == s@[a as int]);
            assert(trailing_white(front) == 0);
        }
    }
    let mut t: Vec<char> = Vec::new();
    let mut k: usize = a;
    while k < b
        invariant
            a <= k <= b <= s@.len(),
            t@ == s@.subrange(a as int, k as int),
        decreases b - k,
    {
        t.push(s[k]);
        k = k + 1;
        assert(t@ =~= s@.subrange(a as int, k as int));
    }
    t
}

proof fn lemma_digits_value_step(s: Seq<char>, k: nat)
    requires
        k < s.len(),
    ensures
        digits_value(s.take(k + 1 as int)) == digits_value(s.take(k as int)) * 10 + digit_value(s[k as int]),
{
    assert(s.take(k + 1 as int).drop_last() =~= s.take(k as int));
}

/// The value `str::parse::<usize>` reads from the text.
fn parse_count(s: &Vec<char>) -> (r: Option<usize>)
    ensures
        r matches Some(v) ==> parse_usize(s@) == Some(v as nat),
        r is None ==> parse_usize(s@) is None,
{
    let start: usize = if s.len() > 0 && s[0] == '+' {
        1
    } else {
        0
    };
    let ghost d = if s@.len() > 0 && s@[0] == '+' {
        s@.drop_first()
    } else {
        s@
    };
    assert(d =~= s@.subrange(start as int, s@.len() as int));
    if start >= s.len() {
        return None;
    }
    let mut v: usize = 0;
    let mut k: usize = start;
    while k < s.len()
        invariant
            start <= k <= s@.len(),
            d == s@.subrange(start as int, s@.len() as int),
            d.len() > 0,
            parse_usize(s@) == (if all_digits(d) && digits_value(d) <= usize::MAX {
                Some(digits_value(d))
            } else {
                None
            }),
            all_digits(s@.subrange(start as int, k as int)),
            v == digits_value(d.take(k - start)),
        decreases s@.len() - k,
    {
        let c = s[k];
        if !('0' <= c && c <= '9') {
            proof {
                assert(d[k - start] == c);
                assert(!is_digit(d[k - start]));
                assert(!all_digits(d));
            }
            return None;
        }
        proof {
            lemma_digits_value_step(d, (k - start) as nat);
            assert(d[k - start] == c);
        }
        let dv = (c as u32 - '0' as u32) as usize;
        assert(dv == digit_value(c));
        if v > (usize::MAX - dv) / 10 {
            proof {
                assert(digits_value(d.take(k - start + 1)) > usize::MAX) by (nonlinear_arith)
                    requires
                        v > (usize::MAX - dv) / 10,
                        digits_value(d.take(k - start + 1)) == v * 10 + dv,
                        dv <= 9,
                ;
                lemma_digits_prefix_le(d, (k - start + 1) as nat);
                assert(digits_value(d) > usize::MAX);
            }
            return None;
        }
        v = v * 10 + dv;
        k = k + 1;
        assert(all_digits(s@.subrange(start as int, k as int))) by {
            assert forall|j: int| 0 <= j < k - start implies is_digit(
                s@.subrange(start as int, k as int)[j],
            ) by {
                if j < k - 1 - start {
                    assert(s@.subrange(start as int, k as int)[j] == s@.subrange(
                        start as int,
                        (k - 1) as int,
                    )[j]);
                }
            }
        }
    }
    assert(d.take(d.len() as int) =~= d);
    Some(v)
}

/// A longer prefix of digits never has a smaller value.
proof fn lemma_digits_prefix_le(d: Seq<char>, k: nat)
    requires
        k <= d.len(),
    ensures
        digits_value(d.take(k as int)) <= digits_value(d),
    decreases d.len() - k,
{
    if k < d.len() {
        lemma_digits_prefix_le(d, k + 1);
        assert(d.take(k + 1 as int).drop_last() =~= d.take(k as int));
    } else {
        assert(d.take(k as int) =~= d);
    }
}

/// Whether the text holds "i32".
fn text_holds_i32(n: &Vec<char>) -> (b: bool)
    ensures
        b == holds_i32(n@),
{
    let mut i: usize = 0;
    while i < n.len() && n.len() - i >= 3
        invariant
            i <= n@.len(),
            forall|j: int| 0 <= j < i ==> !#[trigger] i32_at(n@, j),
        decreases n@.len() - i,
    {
        if n[i] == 'i' && n[i + 1] == '3' && n[i + 2] == '2' {
            assert(i32_at(n@, i as int));
            return true;
        }
        i = i + 1;
    }
    assert forall|j: int| !#[trigger] i32_at(n@, j) by {
        if 0 <= j && j + 3 <= n@.len() {
            assert(j < i);
        }
    }
    false
}

/// The estimated size of an array type name.
fn array_type_size(n: &Vec<char>) -> (r: Option<usize>)
    requires
        find_from(n@, ';', 0) < n@.len(),
    ensures
        r matches Some(v) ==> v == array_size(n@),
        r is None ==> array_size(n@) > usize::MAX,
{
    let a = find_char_from(n, ';', 0);
    assert(a < n.len());
    let b = find_char_from(n, ';', a + 1);
    proof {
        lemma_find_from(n@, ';', (a + 1) as nat);
    }
    if b > a + 1 && n[b - 1] == ']' {
        let mut inner: Vec<char> = Vec::new();
        let mut k: usize = a + 1;
        while k < b - 1
            invariant
                a + 1 <= k <= b - 1,
                b <= n@.len(),
                inner@ == n@.subrange(a + 1, k as int),
            decreases b - 1 - k,
        {
            inner.push(n[k]);
            k = k + 1;
            assert(inner@ =~= n@.subrange(a + 1, k as int));
        }
        assert(inner@ =~= n@.subrange(a + 1, b as int).drop_last());
        let t = trim_chars(&inner);
        match parse_count(&t) {
            Some(count) => {
                let elem: usize = if text_holds_i32(n) {
                    4
                } else {
                    8
                };
                if count > usize::MAX / elem {
                    assert(count * elem > usize::MAX) by (nonlinear_arith)
                        requires
                            count > usize::MAX / elem,
                            elem > 0,
                    ;
                    None
                } else {
                    assert(count * elem <= usize::MAX) by (nonlinear_arith)
                        requires
                            count <= usize::MAX / elem,
                            elem > 0,
                    ;
                    Some(count * elem)
                }
            },
            None => Some(32),
        }
    } else {
        Some(32)
    }
}

/// Estimates the size in bytes of a type annotation: the size of a known scalar
/// type, of an array type from its element count, and eight otherwise. (An
/// estimate beyond the largest `usize` is not an input.)
pub fn estimate_type_size(type_annotation: &Option<TypeAnnotation>) -> (r: usize)
    requires
        type_size(*type_annotation) <= usize::MAX,
    ensures
        r == type_size(*type_annotation),
{
    match type_annotation {
        None => 8,
        Some(t) => {
            let n = chars_of(t.name.as_str());
            if name_is(&n, "i32") {
                4
            } else if name_is(&n, "i64") {
                8
            } else if name_is(&n, "f32") {
                4
            } else if name_is(&n, "f64") {
                8
            } else if name_is(&n, "bool") {
                1
            } else if name_is(&n, "string") {
                64
            } else if n.len() > 0 && n[0] == '[' && find_char_from(&n, ';', 0) < n.len() {
                match array_type_size(&n) {
                    Some(v) => v,
                    None => 0,
                }
            } else {
                8
            }
        },
    }
}

/// Classifies which memory region a variable of the given size uses.
pub fn classify_memory_region(size: usize, _type_annotation: &Option<TypeAnnotation>) -> (r:
    MemoryRegionType)
    ensures
        r == region_for(size as nat),
{
    if size <= 64 {
        MemoryRegionType::Stack
    } else if size <= 4096 {
        MemoryRegionType::WorkingSet
    } else {
        MemoryRegionType::ReadOnly
    }
}

/// Analyzes how a variable is accessed from its initializer.
pub fn analyze_access_pattern(initializer: &Option<Expr>) -> (r: AccessPattern)
    ensures
        r == access_for(*initializer),
{
    match initializer {
        Some(Expr::Literal(Literal::Vector { .. })) => AccessPattern::Sequential,
        Some(Expr::Literal(Literal::String(_))) => AccessPattern::WriteOnce,
        _ => AccessPattern::Random,
    }
}

/// The text "func_" followed by a name.
fn func_key(name: &String) -> (s: String)
    ensures
        s@ == "func_"@ + name@,
{
    let mut s = String::new();
    push_str(&mut s, "func_");
    crate::text::push_string(&mut s, name);
    s
}

/// Analyzes one statement, updating the analysis and the statement position.
pub fn analyze_statement(stmt: &Stmt, analysis: &mut MemoryAnalysis, position: &mut usize)
    requires
        old(analysis).variables.wf(),
        old(analysis).lifetime_analysis.wf(),
        sizes_fit(*stmt),
        model_fits(analyze_stmt(*stmt, model_of(*old(analysis), *old(position)))),
    ensures
        final(analysis).variables.wf(),
        final(analysis).lifetime_analysis.wf(),
        model_of(*final(analysis), *final(position)) == analyze_stmt(
            *stmt,
            model_of(*old(analysis), *old(position)),
        ),
    decreases stmt,
{
    let ghost m0 = model_of(*analysis, *position);
    let ghost m1 = AnalysisModel { pos: m0.pos + 1, ..m0 };
    proof {
        lemma_analyze_grows(*stmt, m0);
    }
    *position = *position + 1;
    assert(model_of(*analysis, *position) == m1);
    match stmt {
        Stmt::VarDeclaration { name, type_annotation, initializer } => {
            let size = estimate_type_size(type_annotation);
            let region_type = classify_memory_region(size, type_annotation);
            let access_pattern = analyze_access_pattern(initializer);
            let var_info = VariableInfo {
                name: name.clone(),
                size_bytes: size,
                region_type,
                access_pattern,
                lifetime_start: *position,
                lifetime_end: *position + 100,
            };
            match region_type {
                MemoryRegionType::Stack => {
                    analysis.stack_usage = analysis.stack_usage + size;
                },
                MemoryRegionType::WorkingSet => {
                    analysis.working_set_size = analysis.working_set_size + size;
                },
                MemoryRegionType::ReadOnly => {},
            }
            let ghost vars_before = analysis.variables.map();
            let ghost lts_before = analysis.lifetime_analysis.map();
            analysis.lifetime_analysis.insert(name.clone(), (*position, *position + 100));
            analysis.variables.insert(name.clone(), var_info);
            proof {
                let f = |v: VariableInfo| fact_of(v);
                assert(analysis.variables.map().map_values(f) =~= vars_before.map_values(f).insert(
                    name@,
                    fact_of(var_info),
                ));
                let g = |p: (usize, usize)| (p.0 as nat, p.1 as nat);
                assert(analysis.lifetime_analysis.map().map_values(g) =~= lts_before.map_values(
                    g,
                ).insert(name@, (*position as nat, (*position + 100) as nat)));
            }
        },
        Stmt::FunctionDeclaration { name, body, .. } => {
            let start_pos = *position;
            analyze_statement(body, analysis, position);
            let end_pos = *position;
            let ghost lts_before = analysis.lifetime_analysis.map();
            analysis.lifetime_analysis.insert(func_key(name), (start_pos, end_pos));
            proof {
                let g = |p: (usize, usize)| (p.0 as nat, p.1 as nat);
                assert(analysis.lifetime_analysis.map().map_values(g) =~= lts_before.map_values(
                    g,
                ).insert("func_"@ + name@, (start_pos as nat, end_pos as nat)));
            }
        },
        Stmt::If { then_branch, else_branch, .. } => {
            proof {
                lemma_analyze_grows(**then_branch, m1);
                match else_branch {
                    Some(e) => lemma_analyze_grows(**e, analyze_stmt(**then_branch, m1)),
                    None => {},
                }
            }
            analyze_statement(then_branch, analysis, position);
            match else_branch {
                Some(else_body) => {
                    analyze_statement(else_body, analysis, position);
                },
                None => {},
            }
        },
        Stmt::While { body, .. } => {
            analyze_statement(body, analysis, position);
        },
        Stmt::Block(stmts) => {
            analyze_statements(stmts, analysis, position);
        },
        _ => {},
    }
}

/// Analyzes a list of statements in order.
fn analyze_statements(stmts: &Vec<Stmt>, analysis: &mut MemoryAnalysis, position: &mut usize)
    requires
        old(analysis).variables.wf(),
        old(analysis).lifetime_analysis.wf(),
        all_sizes_fit(stmts@),
        model_fits(analyze_stmts(stmts@, model_of(*old(analysis), *old(position)))),
    ensures
        final(analysis).variables.wf(),
        final(analysis).lifetime_analysis.wf(),
        model_of(*final(analysis), *final(position)) == analyze_stmts(
            stmts@,
            model_of(*old(analysis), *old(position)),
        ),
    decreases stmts,
{
    let ghost target = analyze_stmts(stmts@, model_of(*analysis, *position));
    assert(stmts@.skip(0) =~= stmts@);
    let mut i: usize = 0;
    while i < stmts.len()
        invariant
            i <= stmts@.len(),
            analysis.variables.wf(),
            analysis.lifetime_analysis.wf(),
            all_sizes_fit(stmts@.skip(i as int)),
            analyze_stmts(stmts@.skip(i as int), model_of(*analysis, *position)) == target,
            model_fits(target),
        decreases stmts@.len() - i,
    {
        let ghost rest = stmts@.skip(i as int);
        let ghost m = model_of(*analysis, *position);
        proof {
            assert(rest[0] == stmts@[i as int]);
            assert(rest.drop_first() =~= stmts@.skip(i + 1));
            lemma_analyze_seq_grows(rest.drop_first(), analyze_stmt(rest[0], m));
        }
        analyze_statement(&stmts[i], analysis, position);
        i = i + 1;
    }
    assert(stmts@.skip(stmts@.len() as int) =~= Seq::<Stmt>::empty());
}

/// Analyzes the memory usage of a program. The result is the analysis of its
/// statements in order from an empty state.
pub fn analyze_memory_regions(program: &[Stmt]) -> (a: MemoryAnalysis)
    requires
        all_sizes_fit(program@),
        model_fits(analyze_program(program@)),
    ensures
        a.variables.wf(),
        a.lifetime_analysis.wf(),
        model_of(a, analyze_program(program@).pos as usize) == analyze_program(program@),
{
    let mut analysis = MemoryAnalysis {
        variables: NameMap::new(),
        stack_usage: 0,
        working_set_size: 0,
        lifetime_analysis: NameMap::new(),
    };
    let mut position: usize = 0;
    let ghost m0 = model_of(analysis, position);
    assert(m0.vars =~= Map::empty());
    assert(m0.lifetimes =~= Map::empty());
    let ghost target = analyze_program(program@);
    assert(program@.skip(0) =~= program@);
    let mut i: usize = 0;
    while i < program.len()
        invariant
            i <= program@.len(),
            analysis.variables.wf(),
            analysis.lifetime_analysis.wf(),
            all_sizes_fit(program@.skip(i as int)),
            analyze_stmts(program@.skip(i as int), model_of(analysis, position)) == target,
            model_fits(target),
        decreases program@.len() - i,
    {
        let ghost rest = program@.skip(i as int);
        let ghost m = model_of(analysis, position);
        proof {
            assert(rest[0] == program@[i as int]);
            assert(rest.drop_first() =~= program@.skip(i + 1));
            lemma_analyze_seq_grows(rest.drop_first(), analyze_stmt(rest[0], m));
        }
        analyze_statement(&program[i], &mut analysis, &mut position);
        i = i + 1;
    }
    assert(program@.skip(program@.len() as int) =~= Seq::<Stmt>::empty());
    assert(program@.skip(0) =~= program@);
    analysis
}

/// The region name used in LLVM metadata.
pub open spec fn region_name(r: MemoryRegionType) -> Seq<char> {
    match r {
        MemoryRegionType::Stack => "stack"@,
        MemoryRegionType::WorkingSet => "working_set"@,
        MemoryRegionType::ReadOnly => "readonly"@,
    }
}

/// The optimization hint used in LLVM metadata.
pub open spec fn hint_name(a: AccessPattern) -> Seq<char> {
    match a {
        AccessPattern::Sequential => "sequential"@,
        AccessPattern::Random => "random"@,
        AccessPattern::WriteOnce => "write_once"@,
    }
}

/// Whether a metadata entry describes the named variable with the given information.
pub open spec fn metadata_for(m: LLVMMemoryMetadata, name: Seq<char>, info: VariableInfo) -> bool {
    &&& m.variable_name@ == name
    &&& m.region_type@ == region_name(info.region_type)
    &&& m.lifetime_start == info.lifetime_start
    &&& m.lifetime_end == info.lifetime_end
    &&& m.optimization_hint@ == hint_name(info.access_pattern)
}

/// Generates LLVM metadata for memory optimization: one entry per analyzed
/// variable, in the order of the analysis's variables.
pub fn generate_memory_metadata(analysis: &MemoryAnalysis) -> (md: Vec<LLVMMemoryMetadata>)
    requires
        analysis.variables.wf(),
    ensures
        md@.len() == analysis.variables.names().len(),
        forall|i: int|
            0 <= i < md@.len() ==> #[trigger] metadata_for(
                md@[i],
                analysis.variables.names()[i],
                analysis.variables.map()[analysis.variables.names()[i]],
            ),
{
    proof {
        analysis.variables.lemma_entries();
    }
    let entries = analysis.variables.entries();
    let mut metadata: Vec<LLVMMemoryMetadata> = Vec::new();
    let mut i: usize = 0;
    while i < entries.len()
        invariant
            i <= entries@.len(),
            entries@ == analysis.variables.entry_seq(),
            entries@.len() == analysis.variables.names().len(),
            metadata@.len() == i,
            forall|j: int|
                0 <= j < i ==> {
                    let info = entries@[j].1;
                    &&& #[trigger] metadata@[j].variable_name@ == entries@[j].0@
                    &&& metadata@[j].region_type@ == region_name(info.region_type)
                    &&& metadata@[j].lifetime_start == info.lifetime_start
                    &&& metadata@[j].lifetime_end == info.lifetime_end
                    &&& metadata@[j].optimization_hint@ == hint_name(info.access_pattern)
                },
        decreases entries@.len() - i,
    {
        let name = &entries[i].0;
        let info = &entries[i].1;
        let region_type = match info.region_type {
            MemoryRegionType::Stack => "stack",
            MemoryRegionType::WorkingSet => "working_set",
            MemoryRegionType::ReadOnly => "readonly",
        };
        let optimization_hint = match info.access_pattern {
            AccessPattern::Sequential => "sequential",
            AccessPattern::Random => "random",
            AccessPattern::WriteOnce => "write_once",
        };
        metadata.push(
            LLVMMemoryMetadata {
                variable_name: name.clone(),
                region_type: region_type.to_owned(),
                lifetime_start: info.lifetime_start,
                lifetime_end: info.lifetime_end,
                optimization_hint: optimization_hint.to_owned(),
            },
        );
        i = i + 1;
    }
    proof {
        assert forall|i: int| 0 <= i < metadata@.len() implies #[trigger] metadata_for(
            metadata@[i],
            analysis.variables.names()[i],
            analysis.variables.map()[analysis.variables.names()[i]],
        ) by {
            assert(metadata@[i].variable_name@ == entries@[i].0@);
            assert(analysis.variables.names()[i] == entries@[i].0@);
            assert(analysis.variables.map()[analysis.variables.names()[i]] == entries@[i].1);
        }
    }
    metadata
}

} // verus!
