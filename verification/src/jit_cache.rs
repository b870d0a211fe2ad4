//! Caching of JIT compilation results, keyed by a hash of the source code, so that
//! identical code is not compiled twice.
//!
//! Times are nanoseconds on the cache's own monotonic clock, which starts when the
//! cache is created. Reading and writing the cache file is the caller's work: it
//! hands loaded entries to [`JITCache::restore_entries`] and saves
//! [`JITCache::entries`].

use vstd::prelude::*;
use std::collections::HashMap;
use std::time::Instant;
use crate::error::CompileError;
use crate::hashing::{default_hash_of_text, hash_text};
use crate::dependency_order::lemma_contains_push;
use crate::memory_profiler::{clock_now, nanos_between};

verus! {

/// Nanoseconds in a second.
pub const NANOS_PER_SECOND: u64 = 1_000_000_000;

/// A cached JIT compilation result: compiled machine code and metadata.
#[derive(Debug, Clone)]
pub struct CachedJIT {
    /// Hash of the source code that was compiled
    pub source_hash: u64,
    /// Compiled machine code bytes
    pub machine_code: Vec<u8>,
    /// Entry point address for the main function
    pub main_entry_point: usize,
    /// Symbol table mapping function names to addresses
    pub symbol_table: HashMap<String, usize>,
    /// Compilation time stamp, in nanoseconds on the cache's clock
    pub compiled_at: u64,
    /// Memory usage during compilation
    pub memory_usage: u64,
    /// Compilation time taken, in nanoseconds
    pub compilation_time: u64,
    /// Cache hit count for statistics
    pub hit_count: u64,
}

/// Configuration for JIT cache behavior.
#[derive(Debug, Clone)]
pub struct JITCacheConfig {
    /// Maximum number of cached compilations
    pub max_cache_size: usize,
    /// Maximum age for cached entries (in seconds)
    pub max_cache_age_seconds: u64,
    /// Whether to enable cache statistics
    pub enable_statistics: bool,
    /// Whether to enable cache persistence to disk
    pub enable_persistence: bool,
    /// Cache directory for persistent storage
    pub cache_directory: String,
}

impl Default for JITCacheConfig {
    fn default() -> (c: Self)
        ensures
            c.max_cache_size == 1000,
            c.max_cache_age_seconds == 3600,
            c.enable_statistics,
            c.enable_persistence,
            c.cache_directory@ == ".ea_jit_cache"@,
    {
        JITCacheConfig {
            max_cache_size: 1000,
            max_cache_age_seconds: 3600,
            enable_statistics: true,
            enable_persistence: true,
            cache_directory: ".ea_jit_cache".to_owned(),
        }
    }
}

/// Statistics for JIT cache performance; times are in nanoseconds.
#[derive(Debug, Clone, Copy, PartialEq, Eq, Structural)]
pub struct JITCacheStats {
    /// Total number of cache lookups
    pub total_lookups: u64,
    /// Number of cache hits
    pub cache_hits: u64,
    /// Number of cache misses
    pub cache_misses: u64,
    /// Total time saved by cache hits
    pub time_saved: u64,
    /// Total memory saved by cache hits
    pub memory_saved: u64,
    /// Number of cache evictions
    pub evictions: u64,
}

impl JITCacheStats {
    /// Statistics with every count at zero.
    pub open spec fn zero() -> JITCacheStats {
        JITCacheStats {
            total_lookups: 0,
            cache_hits: 0,
            cache_misses: 0,
            time_saved: 0,
            memory_saved: 0,
            evictions: 0,
        }
    }
}

impl Default for JITCacheStats {
    fn default() -> (s: Self)
        ensures
            s == JITCacheStats::zero(),
    {
        JITCacheStats {
            total_lookups: 0,
            cache_hits: 0,
            cache_misses: 0,
            time_saved: 0,
            memory_saved: 0,
            evictions: 0,
        }
    }
}

/// Two cached results hold the same data, hit counts aside.
pub open spec fn same_result(a: CachedJIT, b: CachedJIT) -> bool {
    &&& a.source_hash == b.source_hash
    &&& a.machine_code@ == b.machine_code@
    &&& a.main_entry_point == b.main_entry_point
    &&& a.symbol_table@ == b.symbol_table@
    &&& a.compiled_at == b.compiled_at
    &&& a.memory_usage == b.memory_usage
    &&& a.compilation_time == b.compilation_time
}

/// The age of an entry at time `now`: none when it was stamped at or after `now`.
pub open spec fn age_at(compiled_at: u64, now: u64) -> nat {
    if compiled_at >= now {
        0
    } else {
        (now - compiled_at) as nat
    }
}

/// An entry is still valid when its age in whole seconds is under the maximum.
pub open spec fn is_fresh(compiled_at: u64, now: u64, max_age_seconds: u64) -> bool {
    age_at(compiled_at, now) / (NANOS_PER_SECOND as nat) < max_age_seconds
}

/// Expiry during eviction keeps entries stamped at or after `now`, and those
/// younger than the maximum age.
pub open spec fn survives_expiry(compiled_at: u64, now: u64, max_age_seconds: u64) -> bool {
    compiled_at >= now || is_fresh(compiled_at, now, max_age_seconds)
}

/// The position of the entry for source hash `h`, searching from the back; -1
/// when there is none.
pub open spec fn hash_position(s: Seq<CachedJIT>, h: u64) -> int
    decreases s.len(),
{
    if s.len() == 0 {
        -1
    } else if s.last().source_hash == h {
        s.len() - 1
    } else {
        hash_position(s.drop_last(), h)
    }
}

/// Where the entry for a hash is: a position holding that hash, or -1 when no
/// entry holds it.
pub proof fn lemma_hash_position(s: Seq<CachedJIT>, h: u64)
    ensures
        -1 <= hash_position(s, h) < s.len(),
        hash_position(s, h) >= 0 ==> s[hash_position(s, h)].source_hash == h,
        hash_position(s, h) == -1 ==> forall|i: int| 0 <= i < s.len() ==> s[i].source_hash != h,
    decreases s.len(),
{
    if s.len() > 0 {
        lemma_hash_position(s.drop_last(), h);
        if s.last().source_hash != h {
            assert forall|i: int| 0 <= i < s.len() && hash_position(s, h) == -1 implies s[i].source_hash != h by {
                if i < s.len() - 1 {
                    assert(s.drop_last()[i] == s[i]);
                }
            }
        }
    }
}

/// No source hash occurs twice.
pub open spec fn hashes_distinct(s: Seq<CachedJIT>) -> bool {
    forall|i: int, j: int| 0 <= i < j < s.len() ==> s[i].source_hash != s[j].source_hash
}

/// The entries after storing `e`: it replaces the entry with its hash, or goes
/// last.
pub open spec fn stored(s: Seq<CachedJIT>, e: CachedJIT) -> Seq<CachedJIT> {
    let p = hash_position(s, e.source_hash);
    if p >= 0 {
        s.update(p, e)
    } else {
        s.push(e)
    }
}

/// The entries that survive expiry at time `now`, in order.
pub open spec fn unexpired(s: Seq<CachedJIT>, now: u64, max_age_seconds: u64) -> Seq<CachedJIT>
    decreases s.len(),
{
    if s.len() == 0 {
        s
    } else {
        let rest = unexpired(s.drop_last(), now, max_age_seconds);
        if survives_expiry(s.last().compiled_at, now, max_age_seconds) {
            rest.push(s.last())
        } else {
            rest
        }
    }
}

/// The position of the oldest entry (the first of the oldest on a tie).
pub open spec fn oldest_position(s: Seq<CachedJIT>) -> int
    decreases s.len(),
{
    if s.len() <= 1 {
        0
    } else {
        let k = oldest_position(s.drop_last());
        if s.last().compiled_at < s[k].compiled_at {
            s.len() - 1
        } else {
            k
        }
    }
}

/// The entries left after removing the oldest entry `k` times.
pub open spec fn without_oldest(s: Seq<CachedJIT>, k: nat) -> Seq<CachedJIT>
    decreases k,
{
    if k == 0 || s.len() == 0 {
        s
    } else {
        without_oldest(s.remove(oldest_position(s)), (k - 1) as nat)
    }
}

/// The entries left by eviction: nothing happens within the size limit; beyond
/// it, expired entries go, and then the oldest until the limit is met.
pub open spec fn after_eviction(
    s: Seq<CachedJIT>,
    now: u64,
    max_age_seconds: u64,
    max_size: usize,
) -> Seq<CachedJIT> {
    if s.len() <= max_size {
        s
    } else {
        let r = unexpired(s, now, max_age_seconds);
        if r.len() > max_size {
            without_oldest(r, (r.len() - max_size) as nat)
        } else {
            r
        }
    }
}

/// A copy of `e` with one more hit.
pub open spec fn hit_copy(c: CachedJIT, e: CachedJIT) -> bool {
    same_result(c, e) && c.hit_count == e.hit_count + 1
}

/// The JIT compilation cache.
pub struct JITCache {
    /// Cached results, in the order they were stored; no hash twice
    cache: Vec<CachedJIT>,
    /// Cache configuration
    config: JITCacheConfig,
    /// Cache statistics
    stats: JITCacheStats,
    /// The start of the cache's clock
    clock_start: Instant,
}

impl JITCache {
    /// The cached results, in the order they were stored.
    pub closed spec fn entries_view(self) -> Seq<CachedJIT> {
        self.cache@
    }

    /// The configuration.
    pub closed spec fn config_view(self) -> JITCacheConfig {
        self.config
    }

    /// The statistics.
    pub closed spec fn stats_view(self) -> JITCacheStats {
        self.stats
    }

    /// No hash twice, and every lookup was a hit or a miss.
    pub closed spec fn wf(self) -> bool {
        &&& hashes_distinct(self.cache@)
        &&& self.stats.total_lookups == self.stats.cache_hits + self.stats.cache_misses
    }

    /// The entry for a source hash, if any.
    pub open spec fn entry_for(self, h: u64) -> Option<CachedJIT> {
        let p = hash_position(self.entries_view(), h);
        if p >= 0 {
            Some(self.entries_view()[p])
        } else {
            None
        }
    }

    /// Creates an empty cache with the default configuration.
    pub fn new() -> (c: Self)
        ensures
            c.wf(),
            c.entries_view().len() == 0,
            c.stats_view() == JITCacheStats::zero(),
            c.config_view().max_cache_size == 1000,
            c.config_view().max_cache_age_seconds == 3600,
            c.config_view().enable_statistics,
            c.config_view().enable_persistence,
            c.config_view().cache_directory@ == ".ea_jit_cache"@,
    {
        Self::with_config(JITCacheConfig::default())
    }

    /// Creates an empty cache with the given configuration. (Creating the cache
    /// directory and loading persisted entries is the caller's file system work.)
    pub fn with_config(config: JITCacheConfig) -> (c: Self)
        ensures
            c.wf(),
            c.entries_view().len() == 0,
            c.stats_view() == JITCacheStats::zero(),
            c.config_view() == config,
    {
        JITCache {
            cache: Vec::new(),
            config,
            stats: JITCacheStats::default(),
            clock_start: clock_now(),
        }
    }

    /// The current time on the cache's clock, in nanoseconds since the cache was
    /// created.
    pub fn now_nanos(&self) -> (t: u64) {
        let now = clock_now();
        nanos_between(&now, &self.clock_start)
    }

    /// The hash of a source text, which keys its cached result.
    pub fn hash_source(&self, source: &str) -> (h: u64)
        ensures
            h == default_hash_of_text(source@),
    {
        hash_text(source)
    }

    /// Whether an entry is still valid at time `now` (its age in whole seconds is
    /// under the configured maximum).
    pub fn is_cache_entry_valid(&self, cached_jit: &CachedJIT, now: u64) -> (b: bool)
        ensures
            b == is_fresh(cached_jit.compiled_at, now, self.config_view().max_cache_age_seconds),
    {
        let age = if cached_jit.compiled_at >= now {
            0
        } else {
            now - cached_jit.compiled_at
        };
        age / NANOS_PER_SECOND < self.config.max_cache_age_seconds
    }

    /// The position of the entry for a hash, if any.
    fn position_of(&self, h: u64) -> (r: Option<usize>)
        ensures
            r matches Some(i) ==> i as int == hash_position(self.cache@, h) && i < self.cache@.len(),
            r is None ==> hash_position(self.cache@, h) == -1,
    {
        proof {
            assert(self.cache@.take(self.cache@.len() as int) =~= self.cache@);
            lemma_hash_position(self.cache@, h);
        }
        let mut i: usize = self.cache.len();
        while i > 0
            invariant
                i <= self.cache@.len(),
                hash_position(self.cache@, h) == hash_position(self.cache@.take(i as int), h),
            decreases i,
        {
            proof {
                assert(self.cache@.take(i as int).drop_last() =~= self.cache@.take(i - 1));
            }
            if self.cache[i - 1].source_hash == h {
                return Some(i - 1);
            }
            i = i - 1;
        }
        proof {
            assert(self.cache@.take(0) =~= Seq::<CachedJIT>::empty());
        }
        None
    }

    /// Looks up the cached result for a source text at time `now`. A valid entry
    /// is a hit and comes back as a copy with one more hit; otherwise it is a
    /// miss. With statistics on, the lookup, and the hit (with the time and memory
    /// it saves) or the miss, are counted.
    pub fn get_at(&mut self, source: &str, now: u64) -> (r: Option<CachedJIT>)
        requires
            old(self).wf(),
            lookup_fits(*old(self)),
        ensures
            lookup_step(*old(self), *final(self), default_hash_of_text(source@), now, r),
    {
        let source_hash = self.hash_source(source);
        self.get_by_hash(source_hash, now)
    }

    /// Looks up the cached result for a source hash at time `now` (see
    /// [`Self::get_at`]).
    pub fn get_by_hash(&mut self, source_hash: u64, now: u64) -> (r: Option<CachedJIT>)
        requires
            old(self).wf(),
            lookup_fits(*old(self)),
        ensures
            lookup_step(*old(self), *final(self), source_hash, now, r),
    {
        proof {
            lemma_hash_position(self.cache@, source_hash);
        }
        if self.config.enable_statistics {
            self.stats.total_lookups = self.stats.total_lookups + 1;
        }
        match self.position_of(source_hash) {
            Some(i) => {
                if self.is_cache_entry_valid(&self.cache[i], now) {
                    let e = &self.cache[i];
                    proof {
                        assert(old(self).entries_view()[i as int].compilation_time == e.compilation_time);
                    }
                    if self.config.enable_statistics {
                        self.stats.cache_hits = self.stats.cache_hits + 1;
                        self.stats.time_saved = self.stats.time_saved + e.compilation_time;
                        self.stats.memory_saved = self.stats.memory_saved + e.memory_usage;
                    }
                    let copy = CachedJIT {
                        source_hash: e.source_hash,
                        machine_code: e.machine_code.clone(),
                        main_entry_point: e.main_entry_point,
                        symbol_table: e.symbol_table.clone(),
                        compiled_at: e.compiled_at,
                        memory_usage: e.memory_usage,
                        compilation_time: e.compilation_time,
                        hit_count: e.hit_count + 1,
                    };
                    proof {
                        assert(copy.machine_code@ =~= e.machine_code@);
                    }
                    return Some(copy);
                }
            },
            None => {},
        }
        if self.config.enable_statistics {
            self.stats.cache_misses = self.stats.cache_misses + 1;
        }
        None
    }

    /// Looks up the cached result for a source text now (see [`Self::get_at`]).
    pub fn get(&mut self, source: &str) -> (r: Option<CachedJIT>)
        requires
            old(self).wf(),
            lookup_fits(*old(self)),
        ensures
            exists|now: u64|
                lookup_step(*old(self), *final(self), default_hash_of_text(source@), now, r),
    {
        let now = self.now_nanos();
        self.get_at(source, now)
    }

    /// Removes expired entries and then the oldest ones while the cache holds more
    /// than its maximum; each removal is counted as an eviction.
    fn evict_old_entries(&mut self, now: u64)
        requires
            old(self).wf(),
            old(self).stats_view().evictions + old(self).entries_view().len() <= u64::MAX,
        ensures
            final(self).wf(),
            final(self).entries_view() == after_eviction(
                old(self).entries_view(),
                now,
                old(self).config_view().max_cache_age_seconds,
                old(self).config_view().max_cache_size,
            ),
            final(self).stats_view() == (JITCacheStats {
                evictions: (old(self).stats_view().evictions + old(self).entries_view().len()
                    - final(self).entries_view().len()) as u64,
                ..old(self).stats_view()
            }),
            final(self).config_view() == old(self).config_view(),
            final(self).clock_start == old(self).clock_start,
    {
        if self.cache.len() <= self.config.max_cache_size {
            return;
        }
        let ghost v0 = self.cache@;
        let ghost e0 = self.stats.evictions;
        let max_age = self.config.max_cache_age_seconds;
        // Remove expired entries.
        let mut i: usize = 0;
        let ghost mut j: int = 0;
        proof {
            assert(v0.take(0) =~= Seq::<CachedJIT>::empty());
            assert(self.cache@ =~= unexpired(v0.take(0), now, max_age) + v0.skip(0));
        }
        while i < self.cache.len()
            invariant
                0 <= j <= v0.len(),
                i == unexpired(v0.take(j), now, max_age).len(),
                self.cache@ == unexpired(v0.take(j), now, max_age) + v0.skip(j),
                hashes_distinct(self.cache@),
                self.stats.total_lookups == self.stats.cache_hits + self.stats.cache_misses,
                self.stats.evictions == e0 + v0.len() - self.cache@.len(),
                e0 + v0.len() <= u64::MAX,
                self.cache@.len() <= v0.len(),
                max_age == self.config.max_cache_age_seconds,
                v0 == old(self).cache@,
                e0 == old(self).stats.evictions,
                self.config == old(self).config,
                self.clock_start == old(self).clock_start,
                self.stats == (JITCacheStats { evictions: self.stats.evictions, ..old(self).stats }),
            decreases self.cache@.len() - i,
        {
            proof {
                lemma_unexpired_len(v0.take(j), now, max_age);
                assert(self.cache@[i as int] == v0[j]);
                assert(v0.take(j + 1).drop_last() =~= v0.take(j));
                assert(v0.take(j + 1).last() == v0[j]);
            }
            if self.cache[i].compiled_at >= now || self.is_cache_entry_valid(&self.cache[i], now) {
                proof {
                    assert(self.cache@ =~= unexpired(v0.take(j + 1), now, max_age) + v0.skip(j + 1));
                    j = j + 1;
                }
                i = i + 1;
            } else {
                let ghost before = self.cache@;
                self.cache.remove(i);
                self.stats.evictions = self.stats.evictions + 1;
                proof {
                    lemma_remove_distinct(before, i as int);
                    assert(self.cache@ =~= unexpired(v0.take(j + 1), now, max_age) + v0.skip(j + 1));
                    j = j + 1;
                }
            }
        }
        let ghost r = self.cache@;
        proof {
            lemma_unexpired_len(v0.take(j), now, max_age);
            assert(j == v0.len());
            assert(v0.take(j) =~= v0);
            assert(r =~= unexpired(v0, now, max_age));
        }
        // Then remove the oldest entries while over capacity.
        if self.cache.len() > self.config.max_cache_size {
            let evict_count = self.cache.len() - self.config.max_cache_size;
            let mut k: usize = 0;
            while k < evict_count
                invariant
                    k <= evict_count,
                    evict_count == r.len() - self.config.max_cache_size,
                    self.cache@.len() == r.len() - k,
                    without_oldest(r, evict_count as nat) == without_oldest(
                        self.cache@,
                        (evict_count - k) as nat,
                    ),
                    hashes_distinct(self.cache@),
                    self.stats.total_lookups == self.stats.cache_hits + self.stats.cache_misses,
                    self.stats.evictions == e0 + v0.len() - self.cache@.len(),
                    e0 + v0.len() <= u64::MAX,
                    self.cache@.len() <= v0.len(),
                    v0 == old(self).cache@,
                    e0 == old(self).stats.evictions,
                    self.config == old(self).config,
                    self.clock_start == old(self).clock_start,
                    self.stats == (JITCacheStats { evictions: self.stats.evictions, ..old(self).stats }),
                    r == unexpired(v0, now, self.config.max_cache_age_seconds),
                decreases evict_count - k,
            {
                let p = self.oldest_position_exec();
                let ghost before = self.cache@;
                self.cache.remove(p);
                self.stats.evictions = self.stats.evictions + 1;
                proof {
                    lemma_remove_distinct(before, p as int);
                }
                k = k + 1;
            }
            proof {
                assert(without_oldest(self.cache@, 0) == self.cache@);
            }
        }
    }

    /// The position of the oldest entry of a non-empty cache.
    fn oldest_position_exec(&self) -> (p: usize)
        requires
            self.cache@.len() > 0,
        ensures
            p == oldest_position(self.cache@),
            p < self.cache@.len(),
    {
        let mut best: usize = 0;
        let mut k: usize = 1;
        proof {
            assert(self.cache@.take(1).len() == 1);
        }
        while k < self.cache.len()
            invariant
                1 <= k <= self.cache@.len(),
                best < k,
                best == oldest_position(self.cache@.take(k as int)),
            decreases self.cache@.len() - k,
        {
            proof {
                let t = self.cache@.take(k + 1);
                assert(t.drop_last() =~= self.cache@.take(k as int));
                assert(t.last() == self.cache@[k as int]);
                assert(t[best as int] == self.cache@[best as int]);
            }
            if self.cache[k].compiled_at < self.cache[best].compiled_at {
                best = k;
            }
            k = k + 1;
        }
        proof {
            assert(self.cache@.take(k as int) =~= self.cache@);
        }
        best
    }

    /// Stores a compilation result for a source text at time `now`, replacing the
    /// result for the same source, and then evicts entries beyond the maximum
    /// size. (Writing the cache file is the caller's file system work.)
    pub fn put_at(
        &mut self,
        source: &str,
        machine_code: Vec<u8>,
        main_entry_point: usize,
        symbol_table: HashMap<String, usize>,
        memory_usage: u64,
        compilation_time: u64,
        now: u64,
    ) -> (r: Result<(), CompileError>)
        requires
            old(self).wf(),
            store_fits(*old(self)),
        ensures
            r is Ok,
            store_step(
                *old(self),
                *final(self),
                (CachedJIT {
                    source_hash: default_hash_of_text(source@),
                    machine_code,
                    main_entry_point,
                    symbol_table,
                    compiled_at: now,
                    memory_usage,
                    compilation_time,
                    hit_count: 0,
                }),
                now,
            ),
    {
        let source_hash = self.hash_source(source);
        let cached_jit = CachedJIT {
            source_hash,
            machine_code,
            main_entry_point,
            symbol_table,
            compiled_at: now,
            memory_usage,
            compilation_time,
            hit_count: 0,
        };
        self.store(cached_jit, now);
        Ok(())
    }

    /// Stores an entry at time `now`, replacing the one with the same source
    /// hash, and then evicts entries beyond the maximum size.
    pub fn store(&mut self, cached_jit: CachedJIT, now: u64)
        requires
            old(self).wf(),
            store_fits(*old(self)),
        ensures
            store_step(*old(self), *final(self), cached_jit, now),
    {
        let source_hash = cached_jit.source_hash;
        let ghost e = cached_jit;
        let ghost before = self.cache@;
        proof {
            lemma_hash_position(before, source_hash);
        }
        match self.position_of(source_hash) {
            Some(i) => {
                self.cache.set(i, cached_jit);
                proof {
                    assert forall|a: int, b: int|
                        0 <= a < b < self.cache@.len() implies self.cache@[a].source_hash
                        != self.cache@[b].source_hash by {
                        if a != i && b != i {
                            assert(before[a].source_hash != before[b].source_hash);
                        } else if a == i {
                            assert(before[a].source_hash != before[b].source_hash);
                        } else {
                            assert(before[a].source_hash != before[b].source_hash);
                        }
                    }
                }
            },
            None => {
                self.cache.push(cached_jit);
            },
        }
        proof {
            assert(self.cache@ == stored(before, e));
        }
        self.evict_old_entries(now);
    }

    /// Stores a compilation result for a source text now (see [`Self::put_at`]).
    pub fn put(
        &mut self,
        source: &str,
        machine_code: Vec<u8>,
        main_entry_point: usize,
        symbol_table: HashMap<String, usize>,
        memory_usage: u64,
        compilation_time: u64,
    ) -> (r: Result<(), CompileError>)
        requires
            old(self).wf(),
            store_fits(*old(self)),
        ensures
            r is Ok,
            exists|now: u64|
                store_step(
                    *old(self),
                    *final(self),
                    (CachedJIT {
                        source_hash: default_hash_of_text(source@),
                        machine_code,
                        main_entry_point,
                        symbol_table,
                        compiled_at: now,
                        memory_usage,
                        compilation_time,
                        hit_count: 0,
                    }),
                    now,
                ),
    {
        let now = self.now_nanos();
        self.put_at(
            source,
            machine_code,
            main_entry_point,
            symbol_table,
            memory_usage,
            compilation_time,
            now,
        )
    }

    /// Adds entries loaded from the cache file, in order, keeping those still
    /// valid at time `now`; no eviction takes place.
    pub fn restore_entries(&mut self, entries: Vec<CachedJIT>, now: u64)
        requires
            old(self).wf(),
        ensures
            final(self).wf(),
            final(self).entries_view() == restored(
                old(self).entries_view(),
                entries@,
                now,
                old(self).config_view().max_cache_age_seconds,
            ),
            final(self).stats_view() == old(self).stats_view(),
            final(self).config_view() == old(self).config_view(),
    {
        let mut entries = entries;
        let ghost es = entries@;
        let ghost s0 = self.cache@;
        let ghost mut j: int = 0;
        proof {
            assert(es.take(0) =~= Seq::<CachedJIT>::empty());
            assert(entries@ =~= es.skip(0));
        }
        while entries.len() > 0
            invariant
                0 <= j <= es.len(),
                entries@ == es.skip(j),
                self.cache@ == restored(s0, es.take(j), now, self.config.max_cache_age_seconds),
                self.wf(),
                self.stats == old(self).stats,
                self.config == old(self).config,
            decreases entries@.len(),
        {
            let e = entries.remove(0);
            proof {
                assert(e == es[j]);
                assert(es.take(j + 1).drop_last() =~= es.take(j));
                assert(es.take(j + 1).last() == es[j]);
                assert(entries@ =~= es.skip(j + 1));
            }
            if self.is_cache_entry_valid(&e, now) {
                let ghost before = self.cache@;
                let ghost ev = e;
                proof {
                    lemma_hash_position(before, e.source_hash);
                }
                match self.position_of(e.source_hash) {
                    Some(i) => {
                        self.cache.set(i, e);
                        proof {
                            assert forall|a: int, b: int|
                                0 <= a < b < self.cache@.len() implies self.cache@[a].source_hash
                                != self.cache@[b].source_hash by {
                                assert(before[a].source_hash != before[b].source_hash);
                            }
                        }
                    },
                    None => {
                        self.cache.push(e);
                    },
                }
                proof {
                    assert(self.cache@ == stored(before, ev));
                }
            }
            proof {
                j = j + 1;
            }
        }
        proof {
            assert(es.take(j) =~= es);
        }
    }

    /// Removes every entry; with statistics on, they are reset too.
    pub fn clear(&mut self)
        requires
            old(self).wf(),
        ensures
            final(self).wf(),
            final(self).entries_view().len() == 0,
            final(self).stats_view() == (if old(self).config_view().enable_statistics {
                JITCacheStats::zero()
            } else {
                old(self).stats_view()
            }),
            final(self).config_view() == old(self).config_view(),
    {
        self.cache = Vec::new();
        if self.config.enable_statistics {
            self.stats = JITCacheStats::default();
        }
    }

    /// The statistics.
    pub fn get_stats(&self) -> (s: JITCacheStats)
        ensures
            s == self.stats_view(),
    {
        self.stats
    }

    /// The number of cached results.
    pub fn size(&self) -> (n: usize)
        ensures
            n == self.entries_view().len(),
    {
        self.cache.len()
    }

    /// Whether nothing is cached.
    pub fn is_empty(&self) -> (b: bool)
        ensures
            b == (self.entries_view().len() == 0),
    {
        self.cache.len() == 0
    }

    /// The cached results, in the order they were stored (for saving them).
    pub fn entries(&self) -> (e: &Vec<CachedJIT>)
        ensures
            e@ == self.entries_view(),
    {
        &self.cache
    }

    /// The configuration.
    pub fn config(&self) -> (c: &JITCacheConfig)
        ensures
            *c == self.config_view(),
    {
        &self.config
    }
}

/// The eviction count can absorb every entry that a store may evict.
pub open spec fn store_fits(c: JITCache) -> bool {
    c.stats_view().evictions + c.entries_view().len() + 1 <= u64::MAX
}

/// What storing entry `e` at time `now` does to cache `c`, giving `c2`.
pub open spec fn store_step(c: JITCache, c2: JITCache, e: CachedJIT, now: u64) -> bool {
    let s = stored(c.entries_view(), e);
    &&& c2.wf()
    &&& c2.entries_view() == after_eviction(
        s,
        now,
        c.config_view().max_cache_age_seconds,
        c.config_view().max_cache_size,
    )
    &&& c2.stats_view() == JITCacheStats {
        evictions: (c.stats_view().evictions + s.len() - c2.entries_view().len()) as u64,
        ..c.stats_view()
    }
    &&& c2.config_view() == c.config_view()
}

/// The entries after adding, in order, those of `es` still valid at time `now`.
pub open spec fn restored(
    s: Seq<CachedJIT>,
    es: Seq<CachedJIT>,
    now: u64,
    max_age_seconds: u64,
) -> Seq<CachedJIT>
    decreases es.len(),
{
    if es.len() == 0 {
        s
    } else {
        let r = restored(s, es.drop_last(), now, max_age_seconds);
        if is_fresh(es.last().compiled_at, now, max_age_seconds) {
            stored(r, es.last())
        } else {
            r
        }
    }
}

proof fn lemma_unexpired_len(s: Seq<CachedJIT>, now: u64, max_age_seconds: u64)
    ensures
        unexpired(s, now, max_age_seconds).len() <= s.len(),
    decreases s.len(),
{
    if s.len() > 0 {
        lemma_unexpired_len(s.drop_last(), now, max_age_seconds);
    }
}

proof fn lemma_remove_distinct(s: Seq<CachedJIT>, i: int)
    requires
        hashes_distinct(s),
        0 <= i < s.len(),
    ensures
        hashes_distinct(s.remove(i)),
{
    let t = s.remove(i);
    assert forall|a: int, b: int| 0 <= a < b < t.len() implies t[a].source_hash
        != t[b].source_hash by {
        let a0 = if a < i { a } else { a + 1 };
        let b0 = if b < i { b } else { b + 1 };
        assert(t[a] == s[a0]);
        assert(t[b] == s[b0]);
    }
}


/// The counts that a lookup may raise stay within range.
pub open spec fn lookup_fits(c: JITCache) -> bool {
    &&& c.stats_view().total_lookups < u64::MAX
    &&& forall|i: int|
        0 <= i < c.entries_view().len() ==> {
            &&& c.stats_view().time_saved + #[trigger] c.entries_view()[i].compilation_time
                <= u64::MAX
            &&& c.stats_view().memory_saved + c.entries_view()[i].memory_usage <= u64::MAX
            &&& c.entries_view()[i].hit_count < u64::MAX
        }
}

/// What a lookup of the source hash `h` at time `now` does to cache `c`, giving
/// `c2` and `r`.
pub open spec fn lookup_step(c: JITCache, c2: JITCache, h: u64, now: u64, r: Option<CachedJIT>) -> bool {
    let hit = (c.entry_for(h) matches Some(e) && is_fresh(
        e.compiled_at,
        now,
        c.config_view().max_cache_age_seconds,
    ));
    let s = c.stats_view();
    &&& c2.wf()
    &&& c2.entries_view() == c.entries_view()
    &&& c2.config_view() == c.config_view()
    &&& (hit ==> (r matches Some(x) && hit_copy(x, c.entry_for(h)->Some_0)))
    &&& (!hit ==> r is None)
    &&& c2.stats_view() == (if !c.config_view().enable_statistics {
        s
    } else if hit {
        JITCacheStats {
            total_lookups: (s.total_lookups + 1) as u64,
            cache_hits: (s.cache_hits + 1) as u64,
            time_saved: (s.time_saved + c.entry_for(h)->Some_0.compilation_time) as u64,
            memory_saved: (s.memory_saved + c.entry_for(h)->Some_0.memory_usage) as u64,
            ..s
        }
    } else {
        JITCacheStats {
            total_lookups: (s.total_lookups + 1) as u64,
            cache_misses: (s.cache_misses + 1) as u64,
            ..s
        }
    })
}

/// Every lookup of a cache is counted as a hit or as a miss.
pub proof fn lemma_lookups_are_hits_or_misses(c: JITCache)
    requires
        c.wf(),
    ensures
        c.stats_view().total_lookups == c.stats_view().cache_hits + c.stats_view().cache_misses,
{
}

/// Eviction leaves at most the maximum number of entries.
pub proof fn lemma_eviction_respects_max_size(
    s: Seq<CachedJIT>,
    now: u64,
    max_age_seconds: u64,
    max_size: usize,
)
    ensures
        after_eviction(s, now, max_age_seconds, max_size).len() <= max_size,
{
    if s.len() > max_size {
        let r = unexpired(s, now, max_age_seconds);
        if r.len() > max_size {
            lemma_without_oldest_len(r, (r.len() - max_size) as nat);
        }
    }
}

/// Removing the oldest entry `k` times from at least `k` entries leaves `k` fewer.
pub proof fn lemma_without_oldest_len(s: Seq<CachedJIT>, k: nat)
    requires
        k <= s.len(),
    ensures
        without_oldest(s, k).len() == s.len() - k,
    decreases k,
{
    if k > 0 && s.len() > 0 {
        lemma_oldest_position(s);
        lemma_without_oldest_len(s.remove(oldest_position(s)), (k - 1) as nat);
    }
}

/// The oldest position holds an entry no newer than any other.
pub proof fn lemma_oldest_position(s: Seq<CachedJIT>)
    requires
        s.len() > 0,
    ensures
        0 <= oldest_position(s) < s.len(),
        forall|i: int| 0 <= i < s.len() ==> s[oldest_position(s)].compiled_at <= #[trigger] s[i].compiled_at,
    decreases s.len(),
{
    if s.len() > 1 {
        let d = s.drop_last();
        lemma_oldest_position(d);
        assert forall|i: int| 0 <= i < s.len() implies s[oldest_position(s)].compiled_at
            <= #[trigger] s[i].compiled_at by {
            if i < s.len() - 1 {
                assert(d[i] == s[i]);
            }
            assert(d[oldest_position(d)] == s[oldest_position(d)]);
        }
    }
}

/// An entry newer than every entry with another hash survives removing the
/// oldest entries, as long as fewer are removed than there are.
proof fn lemma_newest_survives(s: Seq<CachedJIT>, k: nat, e: CachedJIT)
    requires
        hashes_distinct(s),
        s.contains(e),
        k < s.len(),
        forall|i: int|
            0 <= i < s.len() && s[i].source_hash != e.source_hash ==> #[trigger] s[i].compiled_at
                < e.compiled_at,
    ensures
        without_oldest(s, k).contains(e),
    decreases k,
{
    if k > 0 {
        lemma_oldest_position(s);
        let p = oldest_position(s);
        let q = choose|q: int| 0 <= q < s.len() && s[q] == e;
        let other = if q == 0 { 1int } else { 0int };
        assert(s[other].source_hash != s[q].source_hash);
        assert(s[other].compiled_at < e.compiled_at);
        assert(s[p].compiled_at <= s[other].compiled_at);
        assert(p != q);
        let t = s.remove(p);
        lemma_remove_distinct(s, p);
        let qq = if q < p { q } else { q - 1 };
        assert(t[qq] == e);
        assert forall|i: int|
            0 <= i < t.len() && t[i].source_hash != e.source_hash implies #[trigger] t[i].compiled_at
            < e.compiled_at by {
            let i0 = if i < p { i } else { i + 1 };
            assert(t[i] == s[i0]);
        }
        lemma_newest_survives(t, (k - 1) as nat, e);
    }
}

/// Entries kept by expiry come from the entries before expiry, and an entry that
/// survives expiry is kept.
proof fn lemma_unexpired_members(s: Seq<CachedJIT>, now: u64, max_age_seconds: u64, x: CachedJIT)
    ensures
        unexpired(s, now, max_age_seconds).contains(x) ==> s.contains(x),
        s.contains(x) && survives_expiry(x.compiled_at, now, max_age_seconds) ==> unexpired(
            s,
            now,
            max_age_seconds,
        ).contains(x),
    decreases s.len(),
{
    if s.len() > 0 {
        let d = s.drop_last();
        lemma_unexpired_members(d, now, max_age_seconds, x);
        let rest = unexpired(d, now, max_age_seconds);
        if unexpired(s, now, max_age_seconds).contains(x) {
            if rest.contains(x) {
                let i = choose|i: int| 0 <= i < d.len() && d[i] == x;
                assert(s[i] == x);
            } else {
                assert(survives_expiry(s.last().compiled_at, now, max_age_seconds));
                lemma_contains_push(rest, s.last(), x);
                assert(s[s.len() - 1] == x);
            }
        }
        if s.contains(x) && survives_expiry(x.compiled_at, now, max_age_seconds) {
            let i = choose|i: int| 0 <= i < s.len() && s[i] == x;
            if i < s.len() - 1 {
                assert(d[i] == x);
                if survives_expiry(s.last().compiled_at, now, max_age_seconds) {
                    lemma_contains_push(rest, s.last(), x);
                }
            } else {
                lemma_contains_push(rest, s.last(), x);
            }
        }
    }
}

/// Expiry keeps hashes distinct.
proof fn lemma_unexpired_distinct(s: Seq<CachedJIT>, now: u64, max_age_seconds: u64)
    requires
        hashes_distinct(s),
    ensures
        hashes_distinct(unexpired(s, now, max_age_seconds)),
    decreases s.len(),
{
    if s.len() > 0 {
        let d = s.drop_last();
        assert(hashes_distinct(d));
        lemma_unexpired_distinct(d, now, max_age_seconds);
        let rest = unexpired(d, now, max_age_seconds);
        if survives_expiry(s.last().compiled_at, now, max_age_seconds) {
            let u = rest.push(s.last());
            assert forall|a: int, b: int| 0 <= a < b < u.len() implies u[a].source_hash
                != u[b].source_hash by {
                if b == u.len() - 1 {
                    assert(rest.contains(u[a]));
                    lemma_unexpired_members(d, now, max_age_seconds, u[a]);
                    let i = choose|i: int| 0 <= i < d.len() && d[i] == u[a];
                    assert(s[i] == d[i]);
                }
            }
        }
    }
}

/// With distinct hashes, the entry found for a hash is the one holding it.
proof fn lemma_found_entry(s: Seq<CachedJIT>, e: CachedJIT)
    requires
        hashes_distinct(s),
        s.contains(e),
    ensures
        hash_position(s, e.source_hash) >= 0,
        s[hash_position(s, e.source_hash)] == e,
{
    lemma_hash_position(s, e.source_hash);
    let q = choose|q: int| 0 <= q < s.len() && s[q] == e;
    let p = hash_position(s, e.source_hash);
    if p != q {
        if p < q {
            assert(s[p].source_hash != s[q].source_hash);
        } else {
            assert(s[q].source_hash != s[p].source_hash);
        }
    }
}

/// Storing an entry puts it among the entries and keeps only others with another
/// hash.
proof fn lemma_stored_members(s: Seq<CachedJIT>, e: CachedJIT)
    ensures
        stored(s, e).contains(e),
        forall|i: int|
            0 <= i < stored(s, e).len() && #[trigger] stored(s, e)[i].source_hash != e.source_hash
                ==> s.contains(stored(s, e)[i]),
{
    lemma_hash_position(s, e.source_hash);
    let p = hash_position(s, e.source_hash);
    let t = stored(s, e);
    if p >= 0 {
        assert(t[p] == e);
        assert forall|i: int|
            0 <= i < t.len() && #[trigger] t[i].source_hash != e.source_hash implies s.contains(
            t[i],
        ) by {
            assert(t[i] == s[i]);
        }
    } else {
        assert(t[s.len() as int] == e);
        assert forall|i: int|
            0 <= i < t.len() && #[trigger] t[i].source_hash != e.source_hash implies s.contains(
            t[i],
        ) by {
            assert(t[i] == s[i]);
        }
    }
}

/// A lookup right after a store finds what was stored: with room for an entry, a
/// positive maximum age, and every earlier entry stamped before the store, the
/// lookup of the same source at the same time is a hit on the stored data.
pub proof fn lemma_get_after_put(
    c: JITCache,
    c2: JITCache,
    c3: JITCache,
    e: CachedJIT,
    now: u64,
    r: Option<CachedJIT>,
)
    requires
        c.wf(),
        e.compiled_at == now,
        c.config_view().max_cache_size >= 1,
        c.config_view().max_cache_age_seconds > 0,
        forall|i: int| 0 <= i < c.entries_view().len() ==> #[trigger] c.entries_view()[i].compiled_at < now,
        store_step(c, c2, e, now),
        lookup_step(c2, c3, e.source_hash, now, r),
    ensures
        r matches Some(x) && same_result(x, e) && x.hit_count == e.hit_count + 1,
{
    let s = stored(c.entries_view(), e);
    let age = c.config_view().max_cache_age_seconds;
    let max = c.config_view().max_cache_size;
    lemma_stored_members(c.entries_view(), e);
    assert forall|i: int| 0 <= i < s.len() && s[i].source_hash != e.source_hash implies #[trigger] s[i].compiled_at
        < e.compiled_at by {
        assert(s[i].source_hash != e.source_hash);
        let j = choose|j: int| 0 <= j < c.entries_view().len() && c.entries_view()[j] == s[i];
        assert(c.entries_view()[j].compiled_at < now);
    }
    let f = c2.entries_view();
    assert(f.contains(e)) by {
        if s.len() > max {
            let r0 = unexpired(s, now, age);
            lemma_unexpired_members(s, now, age, e);
            if r0.len() > max {
                assert forall|i: int| 0 <= i < r0.len() && r0[i].source_hash != e.source_hash implies #[trigger] r0[i].compiled_at
                    < e.compiled_at by {
                    lemma_unexpired_members(s, now, age, r0[i]);
                    let j = choose|j: int| 0 <= j < s.len() && s[j] == r0[i];
                    assert(s[j].source_hash != e.source_hash);
                }
                lemma_hash_position(c.entries_view(), e.source_hash);
                assert(hashes_distinct(s)) by {
                    assert forall|a: int, b: int| 0 <= a < b < s.len() implies s[a].source_hash != s[b].source_hash by {
                        assert(c.wf());
                    }
                }
                lemma_unexpired_distinct(s, now, age);
                lemma_newest_survives(r0, (r0.len() - max) as nat, e);
            }
        }
    }
    lemma_found_entry(f, e);
}

} // verus!
