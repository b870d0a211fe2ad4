//! Parser performance support: memoizing parse results, bounding recursion depth
//! and measuring parse time.

use vstd::prelude::*;
use crate::ast::{Expr, Stmt};
use crate::error::CompileError;
use crate::lexer::{Position, Token, TokenKind};
use crate::memory_profiler::{clock_now, nanos_between};
use crate::text::{
    decimal_string, decimal_text, div_round_half_even, fixed2_text, push_decimal, push_fixed2,
    push_str, round_half_even,
};

verus! {

/// Cache key for memoizing parsing results.
#[derive(Debug, Clone, Copy, Hash, Eq)]
pub struct ParseCacheKey {
    /// Start and end token indices
    pub token_range: (usize, usize),
    pub parse_type: ParseType,
}

/// Types of parsing operations that can be cached.
#[derive(Debug, Clone, Copy, Hash, PartialEq, Eq, Structural)]
pub enum ParseType {
    Expression,
    Statement,
    Assignment,
    LogicalOr,
    LogicalAnd,
    Equality,
    Comparison,
    Term,
    Factor,
    Unary,
}

impl PartialEq for ParseCacheKey {
    fn eq(&self, other: &Self) -> (r: bool) {
        self.token_range.0 == other.token_range.0 && self.token_range.1 == other.token_range.1
            && self.parse_type == other.parse_type
    }
}

impl vstd::std_specs::cmp::PartialEqSpecImpl for ParseCacheKey {
    open spec fn obeys_eq_spec() -> bool {
        true
    }

    open spec fn eq_spec(&self, other: &Self) -> bool {
        self.token_range.0 == other.token_range.0 && self.token_range.1 == other.token_range.1
            && self.parse_type == other.parse_type
    }
}

/// Cached parse result.
#[derive(Debug)]
pub enum ParseResult {
    Expression(Expr),
    Statement(Stmt),
    Error(String),
}

/// The position of the entry for `key`, searching from the back; -1 when none.
pub open spec fn key_position(s: Seq<(ParseCacheKey, ParseResult)>, key: ParseCacheKey) -> int
    decreases s.len(),
{
    if s.len() == 0 {
        -1
    } else if s.last().0 == key {
        s.len() - 1
    } else {
        key_position(s.drop_last(), key)
    }
}

/// No key occurs twice.
pub open spec fn keys_distinct(s: Seq<(ParseCacheKey, ParseResult)>) -> bool {
    forall|i: int, j: int| 0 <= i < j < s.len() ==> s[i].0 != s[j].0
}

/// The cache after storing `result` under `key` when at most `max_size` entries
/// are wanted: a full cache first drops its oldest quarter (of `max_size`); then
/// the result replaces the one under `key`, or goes last.
pub open spec fn cache_after_store(
    s: Seq<(ParseCacheKey, ParseResult)>,
    key: ParseCacheKey,
    result: ParseResult,
    max_size: usize,
) -> Seq<(ParseCacheKey, ParseResult)> {
    let t = if s.len() >= max_size {
        s.skip((max_size / 4) as int)
    } else {
        s
    };
    let p = key_position(t, key);
    if p >= 0 {
        t.update(p, (key, result))
    } else {
        t.push((key, result))
    }
}

/// The message for a recursion deeper than the limit.
pub open spec fn recursion_message(limit: usize) -> Seq<char> {
    "Maximum recursion depth "@ + decimal_text(limit as nat)
        + " exceeded. Consider simplifying your expressions."@
}

/// The hit ratio in hundredths of a percent, rounded to the nearest (ties to
/// even); zero without requests.
pub open spec fn hit_ratio_hundredths(hits: nat, misses: nat) -> nat {
    if hits + misses == 0 {
        0
    } else {
        div_round_half_even(hits * 10000, hits + misses)
    }
}

/// A hit ratio under a tenth (also without requests).
pub open spec fn low_hit_ratio(hits: nat, misses: nat) -> bool {
    10 * hits < hits + misses || hits + misses == 0
}

/// The performance report.
pub open spec fn report_text(
    hits: nat,
    misses: nat,
    size: nat,
    parse_nanos: nat,
    max_depth: nat,
    limit: nat,
) -> Seq<char> {
    "=== Parser Performance Report ===\n"@ + "Cache Hits: "@ + decimal_text(hits) + "\n"@
        + "Cache Misses: "@ + decimal_text(misses) + "\n"@ + "Cache Hit Ratio: "@ + fixed2_text(
        hit_ratio_hundredths(hits, misses),
    ) + "%\n"@ + "Cache Size: "@ + decimal_text(size) + " entries\n"@ + "Total Parse Time: "@
        + fixed2_text(div_round_half_even(parse_nanos, 10000)) + "ms\n"@
        + "Max Recursion Depth: "@ + decimal_text(max_depth) + "\n"@ + "Recursion Limit: "@
        + decimal_text(limit) + "\n"@ + (if max_depth > limit / 2 {
        "\n⚠️  Warning: High recursion depth detected. Consider simplifying expressions.\n"@
    } else {
        Seq::empty()
    }) + (if low_hit_ratio(hits, misses) {
        "\n💡 Tip: Low cache hit ratio. Consider enabling expression caching.\n"@
    } else {
        Seq::empty()
    })
}

/// Parser performance optimizer with caching and metrics.
pub struct ParserOptimizer {
    /// Cached parse results, oldest first; no key twice
    cache: Vec<(ParseCacheKey, ParseResult)>,
    cache_hits: usize,
    cache_misses: usize,
    /// Total parse time, in nanoseconds
    total_parse_time: u64,
    max_recursion_depth: usize,
    current_recursion_depth: usize,
    max_cache_size: usize,
    max_recursion_limit: usize,
    enable_caching: bool,
}

impl ParserOptimizer {
    /// The cached results, oldest first.
    pub closed spec fn cache_view(self) -> Seq<(ParseCacheKey, ParseResult)> {
        self.cache@
    }

    /// Cache hits so far.
    pub closed spec fn hits(self) -> nat {
        self.cache_hits as nat
    }

    /// Cache misses so far.
    pub closed spec fn misses(self) -> nat {
        self.cache_misses as nat
    }

    /// Total parse time in nanoseconds.
    pub closed spec fn parse_time(self) -> nat {
        self.total_parse_time as nat
    }

    /// The deepest recursion seen.
    pub closed spec fn max_depth(self) -> nat {
        self.max_recursion_depth as nat
    }

    /// The current recursion depth.
    pub closed spec fn depth(self) -> nat {
        self.current_recursion_depth as nat
    }

    /// The most results kept before the oldest are dropped.
    pub closed spec fn cache_limit(self) -> usize {
        self.max_cache_size
    }

    /// The deepest recursion allowed.
    pub closed spec fn recursion_limit(self) -> usize {
        self.max_recursion_limit
    }

    /// Whether caching is on.
    pub closed spec fn caching(self) -> bool {
        self.enable_caching
    }

    /// No key twice.
    pub closed spec fn wf(self) -> bool {
        keys_distinct(self.cache@)
    }

    /// A new optimizer: caching on, room for 10000 results, recursion up to 1000.
    pub fn new() -> (o: Self)
        ensures
            o.wf(),
            o.cache_view().len() == 0,
            o.hits() == 0 && o.misses() == 0 && o.parse_time() == 0,
            o.max_depth() == 0 && o.depth() == 0,
            o.cache_limit() == 10000,
            o.recursion_limit() == 1000,
            o.caching(),
    {
        Self::with_config(10000, 1000)
    }

    /// A new optimizer with the given cache size and recursion limit, caching on.
    pub fn with_config(max_cache_size: usize, max_recursion_limit: usize) -> (o: Self)
        ensures
            o.wf(),
            o.cache_view().len() == 0,
            o.hits() == 0 && o.misses() == 0 && o.parse_time() == 0,
            o.max_depth() == 0 && o.depth() == 0,
            o.cache_limit() == max_cache_size,
            o.recursion_limit() == max_recursion_limit,
            o.caching(),
    {
        ParserOptimizer {
            cache: Vec::new(),
            cache_hits: 0,
            cache_misses: 0,
            total_parse_time: 0,
            max_recursion_depth: 0,
            current_recursion_depth: 0,
            max_cache_size,
            max_recursion_limit,
            enable_caching: true,
        }
    }

    /// The position of the entry for `key`, if any.
    fn position_of(&self, key: &ParseCacheKey) -> (r: Option<usize>)
        ensures
            r matches Some(i) ==> i as int == key_position(self.cache@, *key) && i < self.cache@.len(),
            r is None ==> key_position(self.cache@, *key) == -1,
    {
        proof {
            assert(self.cache@.take(self.cache@.len() as int) =~= self.cache@);
        }
        let mut i: usize = self.cache.len();
        while i > 0
            invariant
                i <= self.cache@.len(),
                key_position(self.cache@, *key) == key_position(self.cache@.take(i as int), *key),
            decreases i,
        {
            proof {
                assert(self.cache@.take(i as int).drop_last() =~= self.cache@.take(i - 1));
            }
            if self.cache[i - 1].0 == *key {
                return Some(i - 1);
            }
            i = i - 1;
        }
        proof {
            assert(self.cache@.take(0) =~= Seq::<(ParseCacheKey, ParseResult)>::empty());
        }
        None
    }

    /// The cached result for `key`, counting a hit or a miss; nothing (and no
    /// count) while caching is off.
    pub fn get_cached(&mut self, key: &ParseCacheKey) -> (r: Option<&ParseResult>)
        requires
            old(self).wf(),
            old(self).hits() < usize::MAX,
            old(self).misses() < usize::MAX,
        ensures
            final(self).wf(),
            final(self).cache_view() == old(self).cache_view(),
            final(self).parse_time() == old(self).parse_time(),
            final(self).max_depth() == old(self).max_depth(),
            final(self).depth() == old(self).depth(),
            final(self).cache_limit() == old(self).cache_limit(),
            final(self).recursion_limit() == old(self).recursion_limit(),
            final(self).caching() == old(self).caching(),
            !old(self).caching() ==> r is None && final(self).hits() == old(self).hits()
                && final(self).misses() == old(self).misses(),
            old(self).caching() ==> {
                let p = key_position(old(self).cache_view(), *key);
                &&& (p >= 0 ==> (r matches Some(v) && *v == old(self).cache_view()[p].1)
                    && final(self).hits() == old(self).hits() + 1 && final(self).misses()
                    == old(self).misses())
                &&& (p < 0 ==> r is None && final(self).hits() == old(self).hits()
                    && final(self).misses() == old(self).misses() + 1)
            },
    {
        if !self.enable_caching {
            return None;
        }
        match self.position_of(key) {
            Some(i) => {
                self.cache_hits = self.cache_hits + 1;
                Some(&self.cache[i].1)
            },
            None => {
                self.cache_misses = self.cache_misses + 1;
                None
            },
        }
    }

    /// The cache hits and the cache misses counted so far.
    pub fn cache_counts(&self) -> (r: (usize, usize))
        ensures
            r.0 == self.hits(),
            r.1 == self.misses(),
    {
        (self.cache_hits, self.cache_misses)
    }

    /// Caches `result` under `key` while caching is on. A cache holding its
    /// maximum first drops its oldest quarter.
    pub fn cache_result(&mut self, key: ParseCacheKey, result: ParseResult)
        requires
            old(self).wf(),
        ensures
            final(self).wf(),
            final(self).cache_view() == (if old(self).caching() {
                cache_after_store(old(self).cache_view(), key, result, old(self).cache_limit())
            } else {
                old(self).cache_view()
            }),
            final(self).hits() == old(self).hits(),
            final(self).misses() == old(self).misses(),
            final(self).parse_time() == old(self).parse_time(),
            final(self).max_depth() == old(self).max_depth(),
            final(self).depth() == old(self).depth(),
            final(self).cache_limit() == old(self).cache_limit(),
            final(self).recursion_limit() == old(self).recursion_limit(),
            final(self).caching() == old(self).caching(),
    {
        if !self.enable_caching {
            return;
        }
        let ghost s0 = self.cache@;
        if self.cache.len() >= self.max_cache_size {
            let drop = self.max_cache_size / 4;
            let rest = self.cache.split_off(drop);
            self.cache = rest;
            proof {
                assert(self.cache@ =~= s0.skip(drop as int));
                assert forall|i: int, j: int| 0 <= i < j < self.cache@.len() implies self.cache@[i].0
                    != self.cache@[j].0 by {
                    assert(self.cache@[i] == s0[i + drop]);
                    assert(self.cache@[j] == s0[j + drop]);
                }
            }
        }
        let ghost t = self.cache@;
        proof {
            lemma_key_position(t, key);
        }
        match self.position_of(&key) {
            Some(i) => {
                self.cache.set(i, (key, result));
                proof {
                    assert forall|a: int, b: int| 0 <= a < b < self.cache@.len() implies self.cache@[a].0
                        != self.cache@[b].0 by {
                        assert(t[a].0 != t[b].0);
                    }
                }
            },
            None => {
                self.cache.push((key, result));
            },
        }
    }

    /// The current recursion depth.
    pub fn current_depth(&self) -> (d: usize)
        ensures
            d == self.depth(),
    {
        self.current_recursion_depth
    }

    /// Enters a recursive parsing context, recording the deepest depth; fails once
    /// the depth goes past the limit (the depth stays raised).
    pub fn enter_recursion(&mut self) -> (r: Result<(), CompileError>)
        requires
            old(self).depth() < usize::MAX,
        ensures
            final(self).depth() == old(self).depth() + 1,
            final(self).max_depth() == (if old(self).depth() + 1 > old(self).max_depth() {
                old(self).depth() + 1
            } else {
                old(self).max_depth()
            }),
            r is Ok <==> final(self).depth() <= old(self).recursion_limit(),
            r matches Err(e) ==> e matches CompileError::ParseError { message, position }
                && message@ == recursion_message(old(self).recursion_limit()) && position == (
                Position { line: 0, column: 0, offset: 0 }),
            final(self).cache_view() == old(self).cache_view(),
            final(self).wf() == old(self).wf(),
            final(self).hits() == old(self).hits(),
            final(self).misses() == old(self).misses(),
            final(self).parse_time() == old(self).parse_time(),
            final(self).cache_limit() == old(self).cache_limit(),
            final(self).recursion_limit() == old(self).recursion_limit(),
            final(self).caching() == old(self).caching(),
    {
        self.current_recursion_depth = self.current_recursion_depth + 1;
        if self.current_recursion_depth > self.max_recursion_depth {
            self.max_recursion_depth = self.current_recursion_depth;
        }
        if self.current_recursion_depth > self.max_recursion_limit {
            let mut message = String::new();
            push_str(&mut message, "Maximum recursion depth ");
            push_decimal(&mut message, self.max_recursion_limit as u64);
            push_str(&mut message, " exceeded. Consider simplifying your expressions.");
            proof {
                reveal_strlit("Maximum recursion depth ");
                reveal_strlit(" exceeded. Consider simplifying your expressions.");
            }
            return Err(CompileError::parse_error(message, Position::new(0, 0, 0)));
        }
        Ok(())
    }

    /// Leaves a recursive parsing context; the depth never goes below zero.
    pub fn exit_recursion(&mut self)
        ensures
            final(self).depth() == (if old(self).depth() > 0 {
                old(self).depth() - 1
            } else {
                0
            }),
            final(self).max_depth() == old(self).max_depth(),
            final(self).cache_view() == old(self).cache_view(),
            final(self).wf() == old(self).wf(),
            final(self).hits() == old(self).hits(),
            final(self).misses() == old(self).misses(),
            final(self).parse_time() == old(self).parse_time(),
            final(self).cache_limit() == old(self).cache_limit(),
            final(self).recursion_limit() == old(self).recursion_limit(),
            final(self).caching() == old(self).caching(),
    {
        if self.current_recursion_depth > 0 {
            self.current_recursion_depth = self.current_recursion_depth - 1;
        }
    }

    /// Adds a measured parse time (saturating at the largest count).
    pub fn record_parse_time(&mut self, elapsed: u64)
        ensures
            final(self).parse_time() == (if old(self).parse_time() + elapsed > u64::MAX {
                u64::MAX as nat
            } else {
                (old(self).parse_time() + elapsed) as nat
            }),
            final(self).cache_view() == old(self).cache_view(),
            final(self).wf() == old(self).wf(),
            final(self).hits() == old(self).hits(),
            final(self).misses() == old(self).misses(),
            final(self).max_depth() == old(self).max_depth(),
            final(self).depth() == old(self).depth(),
            final(self).cache_limit() == old(self).cache_limit(),
            final(self).recursion_limit() == old(self).recursion_limit(),
            final(self).caching() == old(self).caching(),
    {
        self.total_parse_time = self.total_parse_time.saturating_add(elapsed);
    }

    /// Runs a parsing operation, adds the time it took to the total parse time,
    /// and returns its result.
    pub fn time_parse<F, T>(&mut self, operation: F) -> (r: Result<T, CompileError>) where
        F: FnOnce() -> Result<T, CompileError>,

        requires
            call_requires(operation, ()),
        ensures
            call_ensures(operation, (), r),
            final(self).parse_time() >= old(self).parse_time(),
            final(self).cache_view() == old(self).cache_view(),
            final(self).wf() == old(self).wf(),
            final(self).hits() == old(self).hits(),
            final(self).misses() == old(self).misses(),
            final(self).max_depth() == old(self).max_depth(),
            final(self).depth() == old(self).depth(),
            final(self).cache_limit() == old(self).cache_limit(),
            final(self).recursion_limit() == old(self).recursion_limit(),
            final(self).caching() == old(self).caching(),
    {
        let start = clock_now();
        let result = operation();
        let end = clock_now();
        let elapsed = nanos_between(&end, &start);
        self.record_parse_time(elapsed);
        result
    }

    /// The performance report: counts, hit ratio, cache size, parse time in
    /// milliseconds and recursion depths, with a warning for deep recursion and a
    /// tip for a low hit ratio.
    pub fn generate_performance_report(&self) -> (s: String)
        ensures
            s@ == report_text(
                self.hits(),
                self.misses(),
                self.cache_view().len(),
                self.parse_time(),
                self.max_depth(),
                self.recursion_limit() as nat,
            ),
    {
        let hits = self.cache_hits as u128;
        let total = self.cache_hits as u128 + self.cache_misses as u128;
        let ratio: u64 = if total == 0 {
            0
        } else {
            proof {
                let hn = hits as int;
                let tn = total as int;
                assert(hn * 10000 / tn <= 10000) by (nonlinear_arith)
                    requires
                        0 <= hn <= tn,
                        tn > 0,
                ;
            }
            let q = round_half_even(hits * 10000, total);
            assert(q <= 10001);
            q as u64
        };
        let time = round_half_even(self.total_parse_time as u128, 10000);
        proof {
            assert(time <= u64::MAX);
        }
        let mut report = String::new();
        push_str(&mut report, "=== Parser Performance Report ===\n");
        push_str(&mut report, "Cache Hits: ");
        push_decimal(&mut report, self.cache_hits as u64);
        push_str(&mut report, "\n");
        push_str(&mut report, "Cache Misses: ");
        push_decimal(&mut report, self.cache_misses as u64);
        push_str(&mut report, "\n");
        push_str(&mut report, "Cache Hit Ratio: ");
        push_fixed2(&mut report, ratio);
        push_str(&mut report, "%\n");
        push_str(&mut report, "Cache Size: ");
        push_decimal(&mut report, self.cache.len() as u64);
        push_str(&mut report, " entries\n");
        push_str(&mut report, "Total Parse Time: ");
        push_fixed2(&mut report, time as u64);
        push_str(&mut report, "ms\n");
        push_str(&mut report, "Max Recursion Depth: ");
        push_decimal(&mut report, self.max_recursion_depth as u64);
        push_str(&mut report, "\n");
        push_str(&mut report, "Recursion Limit: ");
        push_decimal(&mut report, self.max_recursion_limit as u64);
        push_str(&mut report, "\n");
        if self.max_recursion_depth > self.max_recursion_limit / 2 {
            push_str(
                &mut report,
                "\n⚠️  Warning: High recursion depth detected. Consider simplifying expressions.\n",
            );
        }
        if total == 0 || 10 * hits < total {
            push_str(
                &mut report,
                "\n💡 Tip: Low cache hit ratio. Consider enabling expression caching.\n",
            );
        }
        proof {
            reveal_strlit("=== Parser Performance Report ===\n");
            reveal_strlit("Cache Hits: ");
            reveal_strlit("\n");
            reveal_strlit("Cache Misses: ");
            reveal_strlit("Cache Hit Ratio: ");
            reveal_strlit("%\n");
            reveal_strlit("Cache Size: ");
            reveal_strlit(" entries\n");
            reveal_strlit("Total Parse Time: ");
            reveal_strlit("ms\n");
            reveal_strlit("Max Recursion Depth: ");
            reveal_strlit("Recursion Limit: ");
            reveal_strlit(
                "\n⚠️  Warning: High recursion depth detected. Consider simplifying expressions.\n",
            );
            reveal_strlit("\n💡 Tip: Low cache hit ratio. Consider enabling expression caching.\n");
        }
        report
    }

    /// Empties the cache and zeroes the hit and miss counts.
    pub fn clear_cache(&mut self)
        ensures
            final(self).wf(),
            final(self).cache_view().len() == 0,
            final(self).hits() == 0 && final(self).misses() == 0,
            final(self).parse_time() == old(self).parse_time(),
            final(self).max_depth() == old(self).max_depth(),
            final(self).depth() == old(self).depth(),
            final(self).cache_limit() == old(self).cache_limit(),
            final(self).recursion_limit() == old(self).recursion_limit(),
            final(self).caching() == old(self).caching(),
    {
        self.cache = Vec::new();
        self.cache_hits = 0;
        self.cache_misses = 0;
    }

    /// Turns caching off and empties the cache.
    pub fn disable_caching(&mut self)
        ensures
            final(self).wf(),
            !final(self).caching(),
            final(self).cache_view().len() == 0,
            final(self).hits() == old(self).hits(),
            final(self).misses() == old(self).misses(),
            final(self).parse_time() == old(self).parse_time(),
            final(self).max_depth() == old(self).max_depth(),
            final(self).depth() == old(self).depth(),
            final(self).cache_limit() == old(self).cache_limit(),
            final(self).recursion_limit() == old(self).recursion_limit(),
    {
        self.enable_caching = false;
        self.cache = Vec::new();
    }

    /// Turns caching on.
    pub fn enable_caching(&mut self)
        ensures
            final(self).caching(),
            final(self).wf() == old(self).wf(),
            final(self).cache_view() == old(self).cache_view(),
            final(self).hits() == old(self).hits(),
            final(self).misses() == old(self).misses(),
            final(self).parse_time() == old(self).parse_time(),
            final(self).max_depth() == old(self).max_depth(),
            final(self).depth() == old(self).depth(),
            final(self).cache_limit() == old(self).cache_limit(),
            final(self).recursion_limit() == old(self).recursion_limit(),
    {
        self.enable_caching = true;
    }

    /// Zeroes every metric and empties the cache.
    pub fn reset_metrics(&mut self)
        ensures
            final(self).wf(),
            final(self).cache_view().len() == 0,
            final(self).hits() == 0 && final(self).misses() == 0 && final(self).parse_time() == 0,
            final(self).max_depth() == 0 && final(self).depth() == 0,
            final(self).cache_limit() == old(self).cache_limit(),
            final(self).recursion_limit() == old(self).recursion_limit(),
            final(self).caching() == old(self).caching(),
    {
        self.cache_hits = 0;
        self.cache_misses = 0;
        self.total_parse_time = 0;
        self.max_recursion_depth = 0;
        self.current_recursion_depth = 0;
        self.cache = Vec::new();
    }
}

/// Where the entry for a key is: a position holding the key, or -1 when no entry
/// holds it.
pub proof fn lemma_key_position(s: Seq<(ParseCacheKey, ParseResult)>, key: ParseCacheKey)
    ensures
        -1 <= key_position(s, key) < s.len(),
        key_position(s, key) >= 0 ==> s[key_position(s, key)].0 == key,
        key_position(s, key) == -1 ==> forall|i: int| 0 <= i < s.len() ==> s[i].0 != key,
    decreases s.len(),
{
    if s.len() > 0 {
        lemma_key_position(s.drop_last(), key);
        if s.last().0 != key {
            assert forall|i: int| 0 <= i < s.len() && key_position(s, key) == -1 implies s[i].0
                != key by {
                if i < s.len() - 1 {
                    assert(s.drop_last()[i] == s[i]);
                }
            }
        }
    }
}

/// What a scan of an expression's tokens has counted so far: the parenthesis
/// depth (which a closing parenthesis lowers with `i32::saturating_sub`, below
/// zero too), the deepest depth seen (as `depth as usize` makes it), the
/// arithmetic operators and the identifiers.
pub struct TokenCounts {
    pub depth: i32,
    pub max_depth: usize,
    pub operators: nat,
    pub identifiers: nat,
}

/// The counts after scanning `ts` from the start.
pub open spec fn token_counts(ts: Seq<TokenKind>) -> TokenCounts
    decreases ts.len(),
{
    if ts.len() == 0 {
        TokenCounts { depth: 0, max_depth: 0, operators: 0, identifiers: 0 }
    } else {
        let c = token_counts(ts.drop_last());
        match ts.last() {
            TokenKind::LeftParen => {
                let d = (c.depth + 1) as i32;
                TokenCounts {
                    depth: d,
                    max_depth: if d as usize > c.max_depth {
                        d as usize
                    } else {
                        c.max_depth
                    },
                    ..c
                }
            },
            TokenKind::RightParen => TokenCounts {
                depth: if c.depth > i32::MIN {
                    (c.depth - 1) as i32
                } else {
                    c.depth
                },
                ..c
            },
            TokenKind::Plus | TokenKind::Minus | TokenKind::Star | TokenKind::Slash => TokenCounts {
                operators: c.operators + 1,
                ..c
            },
            TokenKind::Identifier(_) => TokenCounts { identifiers: c.identifiers + 1, ..c },
            _ => c,
        }
    }
}

/// The kinds of a sequence of tokens.
pub open spec fn kinds_of(ts: Seq<Token>) -> Seq<TokenKind> {
    ts.map_values(|t: Token| t.kind)
}

/// The suggestion for deep nesting.
pub open spec fn nesting_suggestion() -> Seq<char> {
    "Consider breaking down deeply nested expressions into multiple statements"@
}

/// The suggestion for many operators.
pub open spec fn operator_suggestion() -> Seq<char> {
    "Consider using intermediate variables to simplify complex expressions"@
}

/// The suggestion for a long expression.
pub open spec fn size_suggestion() -> Seq<char> {
    "Large expression detected. Consider using functions or breaking into smaller parts"@
}

/// The suggestions for counts: nesting deeper than 10, more than 20 operators,
/// more than 100 tokens; in that order.
pub open spec fn suggestions_for(depth: usize, operators: usize, tokens: usize) -> Seq<Seq<char>> {
    (if depth > 10 {
        seq![nesting_suggestion()]
    } else {
        Seq::empty()
    }) + (if operators > 20 {
        seq![operator_suggestion()]
    } else {
        Seq::empty()
    }) + (if tokens > 100 {
        seq![size_suggestion()]
    } else {
        Seq::empty()
    })
}

/// Expression complexity analysis result: the counts and the suggestions drawn
/// from them (the weighted score over these counts is a floating-point figure
/// that callers compute from them).
#[derive(Debug, Clone)]
pub struct ComplexityAnalysis {
    pub max_nesting_depth: usize,
    pub operator_count: usize,
    pub identifier_count: usize,
    pub token_count: usize,
    pub suggestions: Vec<String>,
}

impl ComplexityAnalysis {
    /// All counts zero, no suggestions.
    pub fn new() -> (a: Self)
        ensures
            a.max_nesting_depth == 0 && a.operator_count == 0 && a.identifier_count == 0
                && a.token_count == 0,
            a.suggestions@.len() == 0,
    {
        ComplexityAnalysis {
            max_nesting_depth: 0,
            operator_count: 0,
            identifier_count: 0,
            token_count: 0,
            suggestions: Vec::new(),
        }
    }

    /// Adds the suggestions that the counts call for (see [`suggestions_for`]).
    pub fn add_suggestions(&mut self)
        ensures
            final(self).max_nesting_depth == old(self).max_nesting_depth,
            final(self).operator_count == old(self).operator_count,
            final(self).identifier_count == old(self).identifier_count,
            final(self).token_count == old(self).token_count,
            final(self).suggestions@.len() == old(self).suggestions@.len() + suggestions_for(
                old(self).max_nesting_depth,
                old(self).operator_count,
                old(self).token_count,
            ).len(),
            forall|i: int|
                0 <= i < old(self).suggestions@.len() ==> final(self).suggestions@[i]
                    == old(self).suggestions@[i],
            forall|i: int|
                0 <= i < suggestions_for(
                    old(self).max_nesting_depth,
                    old(self).operator_count,
                    old(self).token_count,
                ).len() ==> (#[trigger] final(self).suggestions@[old(self).suggestions@.len() + i])@
                    == suggestions_for(
                    old(self).max_nesting_depth,
                    old(self).operator_count,
                    old(self).token_count,
                )[i],
    {
        proof {
            reveal_strlit(
                "Consider breaking down deeply nested expressions into multiple statements",
            );
            reveal_strlit("Consider using intermediate variables to simplify complex expressions");
            reveal_strlit(
                "Large expression detected. Consider using functions or breaking into smaller parts",
            );
        }
        let ghost before = self.suggestions@;
        let ghost want = suggestions_for(self.max_nesting_depth, self.operator_count, self.token_count);
        let ghost first = if self.max_nesting_depth > 10 {
            seq![nesting_suggestion()]
        } else {
            Seq::<Seq<char>>::empty()
        };
        let ghost second = if self.operator_count > 20 {
            seq![operator_suggestion()]
        } else {
            Seq::<Seq<char>>::empty()
        };
        if self.max_nesting_depth > 10 {
            let mut m = String::new();
            push_str(
                &mut m,
                "Consider breaking down deeply nested expressions into multiple statements",
            );
            self.suggestions.push(m);
        }
        assert(self.suggestions@.len() == before.len() + first.len());
        assert(forall|i: int| 0 <= i < before.len() ==> self.suggestions@[i] == before[i]);
        assert(forall|i: int|
            0 <= i < first.len() ==> (#[trigger] self.suggestions@[before.len() + i])@ == first[i]);
        if self.operator_count > 20 {
            let mut m = String::new();
            push_str(&mut m, "Consider using intermediate variables to simplify complex expressions");
            self.suggestions.push(m);
        }
        assert(self.suggestions@.len() == before.len() + first.len() + second.len());
        assert(forall|i: int| 0 <= i < before.len() ==> self.suggestions@[i] == before[i]);
        assert(forall|i: int|
            0 <= i < first.len() + second.len() ==> (#[trigger] self.suggestions@[before.len()
                + i])@ == (first + second)[i]);
        if self.token_count > 100 {
            let mut m = String::new();
            push_str(
                &mut m,
                "Large expression detected. Consider using functions or breaking into smaller parts",
            );
            self.suggestions.push(m);
        }
        assert(want =~= first + second + (if self.token_count > 100 {
            seq![size_suggestion()]
        } else {
            Seq::<Seq<char>>::empty()
        }));
    }
}

/// Expression complexity analyzer
pub struct ExpressionComplexityAnalyzer;

impl ExpressionComplexityAnalyzer {
    /// Counts the tokens of an expression: the deepest parenthesis nesting (see
    /// [`token_counts`]), the arithmetic operators, the identifiers and all
    /// tokens; then adds the suggestions that the counts call for.
    pub fn analyze_complexity(tokens: &[Token]) -> (a: ComplexityAnalysis)
        requires
            tokens@.len() <= i32::MAX,
        ensures
            a.max_nesting_depth == token_counts(kinds_of(tokens@)).max_depth,
            a.operator_count == token_counts(kinds_of(tokens@)).operators,
            a.identifier_count == token_counts(kinds_of(tokens@)).identifiers,
            a.token_count == tokens@.len(),
            a.suggestions@.len() == suggestions_for(
                a.max_nesting_depth,
                a.operator_count,
                a.token_count,
            ).len(),
            forall|i: int|
                0 <= i < a.suggestions@.len() ==> (#[trigger] a.suggestions@[i])@ == suggestions_for(
                    a.max_nesting_depth,
                    a.operator_count,
                    a.token_count,
                )[i],
    {
        let mut analysis = ComplexityAnalysis::new();
        let mut depth: i32 = 0;
        let mut max_depth: usize = 0;
        let mut operator_count: usize = 0;
        let mut identifier_count: usize = 0;
        let mut i: usize = 0;
        proof {
            assert(kinds_of(tokens@).take(0) =~= Seq::<TokenKind>::empty());
        }
        while i < tokens.len()
            invariant
                i <= tokens@.len(),
                tokens@.len() <= i32::MAX,
                -(i as int) <= depth <= i,
                operator_count <= i,
                identifier_count <= i,
                token_counts(kinds_of(tokens@).take(i as int)) == (TokenCounts {
                    depth,
                    max_depth,
                    operators: operator_count as nat,
                    identifiers: identifier_count as nat,
                }),
            decreases tokens@.len() - i,
        {
            proof {
                let ks = kinds_of(tokens@);
                assert(ks.take(i + 1).drop_last() =~= ks.take(i as int));
                assert(ks.take(i + 1).last() == tokens@[i as int].kind);
            }
            match &tokens[i].kind {
                TokenKind::LeftParen => {
                    depth = depth + 1;
                    if depth as usize > max_depth {
                        max_depth = depth as usize;
                    }
                },
                TokenKind::RightParen => {
                    if depth > i32::MIN {
                        depth = depth - 1;
                    }
                },
                TokenKind::Plus | TokenKind::Minus | TokenKind::Star | TokenKind::Slash => {
                    operator_count = operator_count + 1;
                },
                TokenKind::Identifier(_) => {
                    identifier_count = identifier_count + 1;
                },
                _ => {},
            }
            i = i + 1;
        }
        proof {
            assert(kinds_of(tokens@).take(tokens@.len() as int) =~= kinds_of(tokens@));
        }
        analysis.max_nesting_depth = max_depth;
        analysis.operator_count = operator_count;
        analysis.identifier_count = identifier_count;
        analysis.token_count = tokens.len();
        let ghost before = analysis.suggestions@;
        analysis.add_suggestions();
        proof {
            assert forall|i: int| 0 <= i < analysis.suggestions@.len() implies (
            #[trigger] analysis.suggestions@[i])@ == suggestions_for(
                max_depth,
                operator_count,
                tokens@.len() as usize,
            )[i] by {
                assert(analysis.suggestions@[before.len() + i] == analysis.suggestions@[i]);
            }
        }
        analysis
    }
}

/// A result just cached is found again under its key: with caching on, a lookup
/// right after `cache_result(key, result)` is a hit that returns `result`, and the
/// cache still holds no key twice.
pub proof fn lemma_cached_result_found(
    s: Seq<(ParseCacheKey, ParseResult)>,
    key: ParseCacheKey,
    result: ParseResult,
    max_size: usize,
)
    requires
        keys_distinct(s),
    ensures
        ({
            let c = cache_after_store(s, key, result, max_size);
            let p = key_position(c, key);
            &&& p >= 0
            &&& c[p] == (key, result)
            &&& keys_distinct(c)
        }),
{
    let t = if s.len() >= max_size {
        s.skip((max_size / 4) as int)
    } else {
        s
    };
    assert(keys_distinct(t)) by {
        if s.len() >= max_size {
            assert forall|i: int, j: int| 0 <= i < j < t.len() implies t[i].0 != t[j].0 by {
                assert(t[i] == s[i + max_size / 4]);
                assert(t[j] == s[j + max_size / 4]);
            }
        }
    }
    lemma_key_position(t, key);
    let c = cache_after_store(s, key, result, max_size);
    if key_position(t, key) >= 0 {
        let p = key_position(t, key);
        assert(c == t.update(p, (key, result)));
        assert forall|i: int, j: int| 0 <= i < j < c.len() implies c[i].0 != c[j].0 by {
            assert(t[i].0 != t[j].0);
        }
    } else {
        assert(c == t.push((key, result)));
        assert forall|i: int, j: int| 0 <= i < j < c.len() implies c[i].0 != c[j].0 by {
            if j == t.len() {
                assert(c[i] == t[i]);
            }
        }
    }
    lemma_key_position(c, key);
    if key_position(t, key) >= 0 {
        assert(c[key_position(t, key)].0 == key);
    } else {
        assert(c[t.len() as int].0 == key);
    }
    assert(key_position(c, key) >= 0);
    assert forall|i: int| 0 <= i < c.len() && c[i].0 == key implies c[i] == (key, result) by {
        if key_position(t, key) >= 0 {
            let p = key_position(t, key);
            if i != p {
                assert(c[i] == t[i]);
                assert(t[i].0 != t[p].0);
            }
        } else {
            if i < t.len() {
                assert(c[i] == t[i]);
            }
        }
    }
}

/// The cache never grows past its limit: storing a result in a cache that holds
/// at most `max_size` entries leaves at most `max_size`, for a limit of four or
/// more (below four a full cache drops no quarter, and grows).
pub proof fn lemma_cache_within_limit(
    s: Seq<(ParseCacheKey, ParseResult)>,
    key: ParseCacheKey,
    result: ParseResult,
    max_size: usize,
)
    requires
        s.len() <= max_size,
        max_size >= 4,
    ensures
        cache_after_store(s, key, result, max_size).len() <= max_size,
{
    let t = if s.len() >= max_size {
        s.skip((max_size / 4) as int)
    } else {
        s
    };
    assert(t.len() < max_size);
    lemma_key_position(t, key);
    let p = key_position(t, key);
    if p >= 0 {
        assert(t.update(p, (key, result)).len() == t.len());
    }
}

} // verus!
