//! Incremental compilation: tracking compilation units, their dependencies and
//! changes, and ordering units so that each comes after what it depends on.
//!
//! File system access stays with the caller: it hands in what it read of each file
//! as a [`FileProbe`], and this module decides from those values.

use vstd::prelude::*;
use crate::ast::Stmt;
use crate::dependency_order::{
    all_distinct, dep_list, distinct_below, edges_within, has_dependency_cycle, index_of,
    distinct_paths, is_dependency_cycle, is_topological_order, kahn_schedule, lemma_cycle_depends_on_members, lemma_distinct_below_count,
    lemma_contains_push, lemma_pending_append, lemma_pending_positive, lemma_topological_excludes_cycle, paths_distinct,
    paths_view, pending_into, sources_precede,
};
use crate::error::CompileError;
use crate::hashing::{default_hash_of_text, hash_text};
use crate::name_map::NameMap;
use crate::text::{push_str, push_string};

verus! {

/// What was read of a source file: its modification time in nanoseconds since the
/// Unix epoch and its contents, each or an error message.
pub struct FileProbe {
    pub modified: Result<u64, String>,
    pub contents: Result<String, String>,
}

/// A compilation unit with its dependencies and metadata; `T` is what type checking
/// produced for it.
pub struct CompilationUnit<T> {
    /// Path of the source file
    pub file_path: String,
    /// Hash of the file contents
    pub content_hash: u64,
    /// Last modification time, in nanoseconds since the Unix epoch
    pub last_modified: u64,
    /// Dependencies on other compilation units
    pub dependencies: Vec<String>,
    /// Compiled AST
    pub ast: Option<Vec<Stmt>>,
    /// Type checking result
    pub type_context: Option<T>,
    /// Compilation timestamp, in nanoseconds since the Unix epoch
    pub compiled_at: u64,
    /// Compilation time taken, in nanoseconds
    pub compilation_time: u64,
    /// Whether this unit needs recompilation
    pub needs_recompilation: bool,
}

/// Incremental compilation configuration.
#[derive(Debug, Clone)]
pub struct IncrementalConfig {
    /// Maximum number of compilation units to track
    pub max_units: usize,
    /// Enable dependency tracking
    pub enable_dependency_tracking: bool,
    /// Enable content hashing for change detection
    pub enable_content_hashing: bool,
    /// Cache directory for incremental compilation artifacts
    pub cache_directory: String,
    /// Enable parallel compilation of independent units
    pub enable_parallel_compilation: bool,
}

impl Default for IncrementalConfig {
    fn default() -> (c: Self)
        ensures
            c.max_units == 10000,
            c.enable_dependency_tracking,
            c.enable_content_hashing,
            c.cache_directory@ == ".ea_cache"@,
            c.enable_parallel_compilation,
    {
        IncrementalConfig {
            max_units: 10000,
            enable_dependency_tracking: true,
            enable_content_hashing: true,
            cache_directory: ".ea_cache".to_owned(),
            enable_parallel_compilation: true,
        }
    }
}

/// Statistics for incremental compilation; times are in nanoseconds.
#[derive(Debug, Clone, Copy, PartialEq, Eq, Structural)]
pub struct IncrementalStats {
    /// Total compilation units tracked
    pub total_units: u64,
    /// Units that were recompiled
    pub units_recompiled: u64,
    /// Units that were reused from cache
    pub units_cached: u64,
    /// Total compilation time saved
    pub time_saved: u64,
    /// Total compilation time spent
    pub time_spent: u64,
    /// Number of dependency cycles detected
    pub dependency_cycles: u64,
}

impl Default for IncrementalStats {
    fn default() -> (s: Self)
        ensures
            s == IncrementalStats::zero(),
    {
        IncrementalStats {
            total_units: 0,
            units_recompiled: 0,
            units_cached: 0,
            time_saved: 0,
            time_spent: 0,
            dependency_cycles: 0,
        }
    }
}

impl IncrementalStats {
    /// Statistics with every count at zero.
    pub open spec fn zero() -> IncrementalStats {
        IncrementalStats {
            total_units: 0,
            units_recompiled: 0,
            units_cached: 0,
            time_saved: 0,
            time_spent: 0,
            dependency_cycles: 0,
        }
    }
}

/// The message of the error for a dependency cycle.
pub open spec fn cycle_message() -> Seq<char> {
    "Circular dependency detected in compilation units"@
}

/// Incremental compilation manager; `T` is what type checking produces for a unit.
pub struct IncrementalCompiler<T> {
    /// Configuration
    config: IncrementalConfig,
    /// Compilation units by file path
    units: NameMap<CompilationUnit<T>>,
    /// Dependency graph: each unit's dependencies, without repetition
    dependencies: NameMap<Vec<String>>,
    /// Statistics
    stats: IncrementalStats,
}

impl<T> IncrementalCompiler<T> {
    /// The tracked units by path.
    pub closed spec fn unit_map(self) -> Map<Seq<char>, CompilationUnit<T>> {
        self.units.map()
    }

    /// The tracked paths, in the order they were first added.
    pub closed spec fn unit_paths(self) -> Seq<Seq<char>> {
        self.units.names()
    }

    /// Each unit's dependencies, by path.
    pub closed spec fn dep_map(self) -> Map<Seq<char>, Seq<Seq<char>>> {
        self.dependencies.map().map_values(|v: Vec<String>| paths_view(v@))
    }

    /// The statistics.
    pub closed spec fn stats_view(self) -> IncrementalStats {
        self.stats
    }

    /// The configuration.
    pub closed spec fn config_view(self) -> IncrementalConfig {
        self.config
    }

    /// The internal tables are consistent.
    pub closed spec fn wf(self) -> bool {
        &&& self.units.wf()
        &&& self.dependencies.wf()
        &&& forall|p: Seq<char>| #[trigger]
            self.dependencies.map().dom().contains(p) ==> all_distinct(
                paths_view(self.dependencies.map()[p]@),
            )
    }

    /// A consistent compiler tracks finitely many units, each under one path of the
    /// path list, which holds no path twice; its dependency table is finite too.
    pub proof fn lemma_tables(self)
        requires
            self.wf(),
        ensures
            self.unit_map().dom().finite(),
            self.dep_map().dom().finite(),
            self.unit_paths().no_duplicates(),
            forall|p: Seq<char>|
                self.unit_map().dom().contains(p) <==> self.unit_paths().contains(p),
    {
        self.units.lemma_map_finite();
        self.dependencies.lemma_map_finite();
        self.units.lemma_entries();
        assert(self.dep_map().dom() =~= self.dependencies.map().dom());
        assert forall|i: int, j: int|
            0 <= i < self.unit_paths().len() && 0 <= j < self.unit_paths().len() && i != j
            implies self.unit_paths()[i] != self.unit_paths()[j] by {
            self.units.lemma_distinct_names(i, j);
        }
        assert forall|p: Seq<char>|
            self.unit_map().dom().contains(p) implies self.unit_paths().contains(p) by {
            let i = choose|i: int|
                0 <= i < self.units.entry_seq().len() && #[trigger] self.units.entry_seq()[i].0@ == p;
            assert(self.unit_paths()[i] == p);
        }
    }

    /// Creates an incremental compiler with the default configuration and nothing
    /// tracked. (Creating the cache directory is the caller's file system work.)
    pub fn new() -> (c: Self)
        ensures
            c.wf(),
            c.unit_map() == Map::<Seq<char>, CompilationUnit<T>>::empty(),
            c.unit_paths() == Seq::<Seq<char>>::empty(),
            c.dep_map() == Map::<Seq<char>, Seq<Seq<char>>>::empty(),
            c.stats_view() == IncrementalStats::zero(),
            c.config_view().enable_content_hashing,
            c.config_view().max_units == 10000,
    {
        Self::with_config(IncrementalConfig::default())
    }

    /// Creates an incremental compiler with the given configuration and nothing
    /// tracked.
    pub fn with_config(config: IncrementalConfig) -> (c: Self)
        ensures
            c.wf(),
            c.unit_map() == Map::<Seq<char>, CompilationUnit<T>>::empty(),
            c.unit_paths() == Seq::<Seq<char>>::empty(),
            c.dep_map() == Map::<Seq<char>, Seq<Seq<char>>>::empty(),
            c.stats_view() == IncrementalStats::zero(),
            c.config_view() == config,
    {
        let c = IncrementalCompiler {
            config,
            units: NameMap::new(),
            dependencies: NameMap::new(),
            stats: IncrementalStats::default(),
        };
        assert(c.dep_map() =~= Map::<Seq<char>, Seq<Seq<char>>>::empty());
        c
    }

    /// The number of tracked units.
    pub fn unit_count(&self) -> (n: usize)
        requires
            self.wf(),
        ensures
            n == self.unit_map().dom().len(),
    {
        self.units.len()
    }

    /// The dependencies of a unit, by path.
    pub open spec fn deps_of(self, p: Seq<char>) -> Seq<Seq<char>> {
        dep_list(self.dep_map(), p)
    }

    /// Records that `from` depends on `to`.
    pub fn add_dependency(&mut self, from: String, to: String)
        requires
            old(self).wf(),
        ensures
            final(self).wf(),
            final(self).dep_map() == old(self).dep_map().insert(
                from@,
                if old(self).deps_of(from@).contains(to@) {
                    old(self).deps_of(from@)
                } else {
                    old(self).deps_of(from@).push(to@)
                },
            ),
            final(self).unit_map() == old(self).unit_map(),
            final(self).unit_paths() == old(self).unit_paths(),
            final(self).stats_view() == old(self).stats_view(),
            final(self).config_view() == old(self).config_view(),
    {
        let ghost old_deps = self.dependencies.map();
        let mut list: Vec<String> = match self.dependencies.get(from.as_str()) {
            Some(existing) => {
                let mut copy: Vec<String> = Vec::new();
                let mut k: usize = 0;
                while k < existing.len()
                    invariant
                        k <= existing@.len(),
                        copy@ == existing@.take(k as int),
                    decreases existing@.len() - k,
                {
                    copy.push(existing[k].clone());
                    k = k + 1;
                    assert(copy@ =~= existing@.take(k as int));
                }
                assert(copy@ =~= existing@);
                copy
            },
            None => Vec::new(),
        };
        let ghost before = list@;
        assert(paths_view(before) == old(self).deps_of(from@)) by {
            if !old_deps.dom().contains(from@) {
                assert(paths_view(before) =~= Seq::<Seq<char>>::empty());
            }
        }
        let mut present = false;
        let mut k: usize = 0;
        while k < list.len()
            invariant
                k <= list@.len(),
                list@ == before,
                present <==> exists|i: int| 0 <= i < k && list@[i]@ == to@,
            decreases list@.len() - k,
        {
            if list[k] == to {
                present = true;
            }
            k = k + 1;
        }
        proof {
            if present {
                let i = choose|i: int| 0 <= i < k && list@[i]@ == to@;
                assert(paths_view(before)[i] == to@);
            }
            if paths_view(before).contains(to@) {
                let i = choose|i: int| 0 <= i < paths_view(before).len() && paths_view(before)[i]
                    == to@;
                assert(list@[i]@ == to@);
            }
        }
        if !present {
            list.push(to);
            proof {
                assert(paths_view(list@) =~= paths_view(before).push(to@));
            }
        }
        proof {
            assert(all_distinct(paths_view(list@))) by {
                if old_deps.dom().contains(from@) {
                    assert(all_distinct(paths_view(old_deps[from@]@)));
                } else {
                    assert(before.len() == 0);
                }
                if !present {
                    assert forall|i: int, j: int|
                        0 <= i < j < paths_view(list@).len() implies paths_view(list@)[i]
                        != paths_view(list@)[j] by {
                        if j == before.len() {
                            assert(paths_view(before)[i] == paths_view(list@)[i]);
                        }
                    }
                }
            }
        }
        self.dependencies.insert(from, list);
        proof {
            assert forall|p: Seq<char>| #[trigger]
                self.dependencies.map().dom().contains(p) implies all_distinct(
                paths_view(self.dependencies.map()[p]@),
            ) by {
                if p != from@ {
                    assert(old_deps.dom().contains(p));
                }
            }
            assert(self.dep_map() =~= old(self).dep_map().insert(
                from@,
                if old(self).deps_of(from@).contains(to@) {
                    old(self).deps_of(from@)
                } else {
                    old(self).deps_of(from@).push(to@)
                },
            ));
        }
    }

    /// The dependency edges among the given units, numbered by position: `(x, j)`
    /// for each unit `j` and each of its dependencies that is unit `x`; and the
    /// number of edges into each unit.
    fn edges_among(&self, units: &[String]) -> (r: (Vec<(usize, usize)>, Vec<usize>))
        requires
            self.wf(),
            all_distinct(paths_view(units@)),
        ensures
            edges_describe(r.0@, paths_view(units@), self.dep_map()),
            r.1@.len() == units@.len(),
            forall|z: int|
                0 <= z < units@.len() ==> #[trigger] r.1@[z] == pending_into(
                    r.0@,
                    z as usize,
                    Seq::empty(),
                ),
    {
        let ghost uv = paths_view(units@);
        let ghost deps = self.dep_map();
        let n = units.len();
        let mut edges: Vec<(usize, usize)> = Vec::new();
        let mut indeg: Vec<usize> = Vec::new();
        let mut j: usize = 0;
        while j < n
            invariant
                j <= n,
                n == units@.len(),
                uv == paths_view(units@),
                all_distinct(uv),
                deps == self.dep_map(),
                self.wf(),
                edges_within(edges@, n as nat),
                forall|k: int| 0 <= k < edges@.len() ==> #[trigger] edges@[k].1 < j,
                forall|k: int|
                    0 <= k < edges@.len() ==> #[trigger] dep_list(
                        deps,
                        uv[edges@[k].1 as int],
                    ).contains(uv[edges@[k].0 as int]),
                forall|x: int, y: int|
                    0 <= x < n && 0 <= y < j && #[trigger] dep_list(deps, uv[y]).contains(
                        #[trigger] uv[x],
                    ) ==> edges@.contains((x as usize, y as usize)),
                indeg@.len() == j,
                forall|z: int|
                    0 <= z < j ==> #[trigger] indeg@[z] == pending_into(
                        edges@,
                        z as usize,
                        Seq::empty(),
                    ),
                forall|z: usize| j <= z ==> #[trigger] pending_into(edges@, z, Seq::empty()) == 0,
            decreases n - j,
        {
            let before = edges.len();
            let ghost e0 = edges@;
            let ghost dl = dep_list(deps, uv[j as int]);
            match self.dependencies.get(units[j].as_str()) {
                Some(ds) => {
                    assert(paths_view(ds@) == dl);
                    append_edges_into(units, j, ds, &mut edges);
                },
                None => {
                    assert(dl =~= Seq::<Seq<char>>::empty());
                },
            }
            let count = edges.len() - before;
            proof {
                let extra = edges@.subrange(e0.len() as int, edges@.len() as int);
                assert(edges@ =~= e0 + extra);
                assert forall|k: int| 0 <= k < extra.len() implies #[trigger] extra[k].1 == j by {
                    assert(extra[k] == edges@[e0.len() + k]);
                }
                assert forall|z: usize| #[trigger] pending_into(edges@, z, Seq::empty())
                    == pending_into(e0, z, Seq::empty()) + (if z == j {
                    extra.len()
                } else {
                    0
                }) by {
                    lemma_pending_append(e0, extra, j, z);
                }
                assert forall|k: int| 0 <= k < edges@.len() implies #[trigger] dep_list(
                    deps,
                    uv[edges@[k].1 as int],
                ).contains(uv[edges@[k].0 as int]) && edges@[k].1 < j + 1 && edges@[k].0 < n
                    by {
                    if k < e0.len() {
                        assert(edges@[k] == e0[k]);
                    }
                }
                assert forall|k: int| 0 <= k < edges@.len() implies #[trigger] edges@[k].0 < n
                    && edges@[k].1 < n by {
                    if k < e0.len() {
                        assert(edges@[k] == e0[k]);
                    } else {
                        assert(dep_list(deps, uv[edges@[k].1 as int]).contains(
                            uv[edges@[k].0 as int],
                        ));
                    }
                }
                assert forall|x: int, y: int|
                    0 <= x < n && 0 <= y < j + 1 && #[trigger] dep_list(deps, uv[y]).contains(
                        #[trigger] uv[x],
                    ) implies edges@.contains((x as usize, y as usize)) by {
                    if y < j {
                        assert(e0.contains((x as usize, y as usize)));
                        let k = choose|k: int| 0 <= k < e0.len() && e0[k] == (x as usize, y as usize);
                        assert(edges@[k] == e0[k]);
                    }
                }
            }
            indeg.push(count);
            j = j + 1;
        }
        (edges, indeg)
    }

    /// Orders the given units so that each comes after the units it depends on
    /// (Kahn's algorithm). A unit listed more than once is ordered once. Succeeds
    /// exactly when no set of the units depends on each other in a cycle; the
    /// result is then a topological order holding each unit once. A failure is
    /// counted in the statistics' `dependency_cycles`.
    pub fn get_compilation_order(&mut self, units: &[String]) -> (r: Result<
        Vec<String>,
        CompileError,
    >)
        requires
            old(self).wf(),
            old(self).stats_view().dependency_cycles < u64::MAX,
        ensures
            final(self).wf(),
            r is Ok <==> !has_dependency_cycle(paths_view(units@), old(self).dep_map()),
            r matches Ok(order) ==> {
                &&& all_distinct(paths_view(order@))
                &&& forall|u: Seq<char>|
                    paths_view(units@).contains(u) <==> paths_view(order@).contains(u)
                &&& is_topological_order(paths_view(order@), old(self).dep_map())
            },
            r matches Err(e) ==> e matches CompileError::CodeGenError { message, position }
                && message@ == cycle_message() && position is None,
            final(self).stats_view() == (if r is Err {
                (IncrementalStats {
                    dependency_cycles: (old(self).stats_view().dependency_cycles + 1) as u64,
                    ..old(self).stats_view()
                })
            } else {
                old(self).stats_view()
            }),
            final(self).unit_map() == old(self).unit_map(),
            final(self).unit_paths() == old(self).unit_paths(),
            final(self).dep_map() == old(self).dep_map(),
            final(self).config_view() == old(self).config_view(),
    {
        let distinct = distinct_paths(units);
        proof {
            lemma_cycle_depends_on_members(paths_view(units@), paths_view(distinct@), self.dep_map());
        }
        self.order_distinct_units(distinct.as_slice())
    }

    /// Orders units listed once each (see [`Self::get_compilation_order`]).
    fn order_distinct_units(&mut self, units: &[String]) -> (r: Result<
        Vec<String>,
        CompileError,
    >)
        requires
            old(self).wf(),
            old(self).stats_view().dependency_cycles < u64::MAX,
        ensures
            final(self).wf(),
            r is Ok <==> all_distinct(paths_view(units@)) && !has_dependency_cycle(
                paths_view(units@),
                old(self).dep_map(),
            ),
            r matches Ok(order) ==> {
                &&& order@.len() == units@.len()
                &&& all_distinct(paths_view(order@))
                &&& forall|u: Seq<char>|
                    paths_view(units@).contains(u) <==> paths_view(order@).contains(u)
                &&& is_topological_order(paths_view(order@), old(self).dep_map())
            },
            r matches Err(e) ==> e matches CompileError::CodeGenError { message, position }
                && message@ == cycle_message() && position is None,
            final(self).stats_view() == (if r is Err {
                (IncrementalStats {
                    dependency_cycles: (old(self).stats_view().dependency_cycles + 1) as u64,
                    ..old(self).stats_view()
                })
            } else {
                old(self).stats_view()
            }),
            final(self).unit_map() == old(self).unit_map(),
            final(self).unit_paths() == old(self).unit_paths(),
            final(self).dep_map() == old(self).dep_map(),
            final(self).config_view() == old(self).config_view(),
    {
        let ghost uv = paths_view(units@);
        let ghost deps = self.dep_map();
        let n = units.len();
        if n == 0 {
            proof {
                assert(uv =~= Seq::<Seq<char>>::empty());
                assert(paths_view(Seq::<String>::empty()) =~= Seq::<Seq<char>>::empty());
                assert forall|s: Set<Seq<char>>| !is_dependency_cycle(uv, deps, s) by {
                    if is_dependency_cycle(uv, deps, s) {
                        let x = choose|x: Seq<char>| s.contains(x);
                        assert(uv.contains(x));
                    }
                }
            }
            return Ok(Vec::new());
        }
        if !paths_distinct(units) {
            self.stats.dependency_cycles = self.stats.dependency_cycles + 1;
            return Err(cycle_error());
        }
        let (edges, indeg) = self.edges_among(units);
        let queue = kahn_schedule(n, &edges, indeg);
        proof {
            lemma_distinct_below_count(queue@, n);
        }
        if queue.len() != n {
            proof {
                lemma_unemitted_form_cycle(uv, deps, edges@, queue@);
            }
            self.stats.dependency_cycles = self.stats.dependency_cycles + 1;
            return Err(cycle_error());
        }
        let mut result: Vec<String> = Vec::new();
        let mut k: usize = 0;
        while k < n
            invariant
                k <= n,
                queue@.len() == n,
                n == units@.len(),
                distinct_below(queue@, n as nat),
                result@.len() == k,
                uv == paths_view(units@),
                forall|a: int| 0 <= a < k ==> #[trigger] paths_view(result@)[a] == uv[queue@[a] as int],
            decreases n - k,
        {
            let ghost rb = result@;
            result.push(units[queue[k]].clone());
            proof {
                assert forall|a: int| 0 <= a < k + 1 implies #[trigger] paths_view(result@)[a]
                    == uv[queue@[a] as int] by {
                    if a < k {
                        assert(paths_view(rb)[a] == uv[queue@[a] as int]);
                        assert(result@[a] == rb[a]);
                    }
                }
            }
            k = k + 1;
        }
        proof {
            lemma_schedule_is_order(uv, deps, edges@, queue@, paths_view(result@));
        }
        Ok(result)
    }
}

/// The message for a file whose metadata could not be read.
pub open spec fn metadata_error_text(p: Seq<char>, e: Seq<char>) -> Seq<char> {
    "Failed to get metadata for "@ + p + ": "@ + e
}

/// The message for a file whose contents could not be read.
pub open spec fn read_error_text(p: Seq<char>, e: Seq<char>) -> Seq<char> {
    "Failed to read file "@ + p + ": "@ + e
}

/// A result of this module agrees with a specified outcome: the same value, or a
/// code generation error without position whose message is the specified one.
pub open spec fn agrees<V>(r: Result<V, CompileError>, s: Result<V, Seq<char>>) -> bool {
    match s {
        Ok(b) => r matches Ok(x) && x == b,
        Err(m) => r matches Err(e) && e matches CompileError::CodeGenError { message, position }
            && message@ == m && position is None,
    }
}

/// A stack of paths being visited: each a tracked unit, none twice.
pub open spec fn stack_ok(stack: Seq<String>, dom: Set<Seq<char>>) -> bool {
    &&& all_distinct(paths_view(stack))
    &&& forall|i: int| 0 <= i < stack.len() ==> dom.contains(#[trigger] stack[i]@)
}

proof fn lemma_stack_set(stack: Seq<String>, dom: Set<Seq<char>>)
    requires
        stack_ok(stack, dom),
        dom.finite(),
    ensures
        paths_view(stack).to_set().finite(),
        paths_view(stack).to_set().subset_of(dom),
        paths_view(stack).to_set().len() == stack.len(),
        stack.len() <= dom.len(),
{
    let pv = paths_view(stack);
    assert(pv.no_duplicates());
    pv.unique_seq_to_set();
    vstd::seq_lib::seq_to_set_is_finite(pv);
    assert forall|q: Seq<char>| pv.to_set().contains(q) implies dom.contains(q) by {
        let i = choose|i: int| 0 <= i < pv.len() && pv[i] == q;
        assert(dom.contains(stack[i]@));
    }
    vstd::set_lib::lemma_len_subset(pv.to_set(), dom);
}

impl<T> IncrementalCompiler<T> {
    /// Whether a tracked file changed since it was recorded, as its probe tells:
    /// its modification time differs, or (with content hashing) its contents hash
    /// differently, or it is not tracked or hashing is off; or why it could not be
    /// read.
    pub open spec fn file_change(self, p: Seq<char>, probe: FileProbe) -> Result<bool, Seq<char>> {
        match probe.modified {
            Err(e) => Err(metadata_error_text(p, e@)),
            Ok(m) => if self.unit_map().dom().contains(p) {
                if self.unit_map()[p].last_modified != m {
                    Ok(true)
                } else if self.config_view().enable_content_hashing {
                    match probe.contents {
                        Err(e) => Err(read_error_text(p, e@)),
                        Ok(c) => Ok(default_hash_of_text(c@) != self.unit_map()[p].content_hash),
                    }
                } else {
                    Ok(true)
                }
            } else {
                Ok(true)
            },
        }
    }

    /// Whether unit `p` must be compiled again, searching its dependencies depth
    /// first while `visiting` holds the units on the current path: a unit met again
    /// on the path needs nothing, an untracked one needs compiling, a changed one
    /// too, and otherwise it needs it when one of its dependencies does, taken in
    /// order. An unreadable file ends the search with its message.
    pub open spec fn recompile_needed(
        self,
        probes: Map<Seq<char>, FileProbe>,
        p: Seq<char>,
        visiting: Set<Seq<char>>,
    ) -> Result<bool, Seq<char>>
        decreases self.unit_map().dom().len() - visiting.len(), 0int, 0int,
        when visiting.finite() && visiting.subset_of(self.unit_map().dom())
            && self.unit_map().dom().finite()
    {
        if visiting.contains(p) {
            Ok(false)
        } else if !self.unit_map().dom().contains(p) {
            Ok(true)
        } else {
            match self.file_change(p, probes[p]) {
                Err(e) => Err(e),
                Ok(changed) => if changed {
                    Ok(true)
                } else if self.dep_map().dom().contains(p) {
                    proof {
                        vstd::set_lib::lemma_len_subset(visiting.insert(p), self.unit_map().dom());
                    }
                    self.any_dep_needs(probes, self.dep_map()[p], 0, visiting.insert(p))
                } else {
                    Ok(false)
                },
            }
        }
    }

    /// Whether one of `deps` from position `i` on must be compiled again, taken in
    /// order; the first error ends the search.
    pub open spec fn any_dep_needs(
        self,
        probes: Map<Seq<char>, FileProbe>,
        deps: Seq<Seq<char>>,
        i: int,
        visiting: Set<Seq<char>>,
    ) -> Result<bool, Seq<char>>
        decreases self.unit_map().dom().len() - visiting.len(), 1int, deps.len() - i,
        when visiting.finite() && visiting.subset_of(self.unit_map().dom())
            && self.unit_map().dom().finite() && 0 <= i
    {
        if i >= deps.len() {
            Ok(false)
        } else {
            proof {
                vstd::set_lib::lemma_len_subset(visiting, self.unit_map().dom());
            }
            match self.recompile_needed(probes, deps[i], visiting) {
                Err(e) => Err(e),
                Ok(needed) => if needed {
                    Ok(true)
                } else {
                    self.any_dep_needs(probes, deps, i + 1, visiting)
                },
            }
        }
    }

    /// Among dependencies taken in order from position `k`, one at position `j`
    /// that must be compiled again makes the search find a need, when none
    /// between them fails to be checked.
    proof fn lemma_later_dependency_needs(
        self,
        probes: Map<Seq<char>, FileProbe>,
        deps: Seq<Seq<char>>,
        k: int,
        j: int,
        visiting: Set<Seq<char>>,
    )
        requires
            visiting.finite(),
            visiting.subset_of(self.unit_map().dom()),
            self.unit_map().dom().finite(),
            0 <= k <= j < deps.len(),
            forall|i: int| k <= i < j ==> #[trigger] self.recompile_needed(probes, deps[i], visiting) is Ok,
            self.recompile_needed(probes, deps[j], visiting) == Ok::<bool, Seq<char>>(true),
        ensures
            self.any_dep_needs(probes, deps, k, visiting) == Ok::<bool, Seq<char>>(true),
        decreases j - k,
    {
        if k < j {
            assert(self.recompile_needed(probes, deps[k], visiting) is Ok);
            self.lemma_later_dependency_needs(probes, deps, k + 1, j, visiting);
        }
    }

    /// A tracked unit off the search path must be compiled again when any one of
    /// its dependencies must, wherever that one stands in its list, unless the
    /// unit's own file cannot be read or a dependency before that one cannot be
    /// checked.
    pub proof fn lemma_any_dependency_forces_recompilation(
        self,
        probes: Map<Seq<char>, FileProbe>,
        p: Seq<char>,
        visiting: Set<Seq<char>>,
        j: int,
    )
        requires
            visiting.finite(),
            visiting.subset_of(self.unit_map().dom()),
            self.unit_map().dom().finite(),
            self.unit_map().dom().contains(p),
            !visiting.contains(p),
            self.dep_map().dom().contains(p),
            0 <= j < self.dep_map()[p].len(),
            forall|i: int|
                0 <= i < j ==> #[trigger] self.recompile_needed(
                    probes,
                    self.dep_map()[p][i],
                    visiting.insert(p),
                ) is Ok,
            self.recompile_needed(probes, self.dep_map()[p][j], visiting.insert(p)) == Ok::<
                bool,
                Seq<char>,
            >(true),
            self.file_change(p, probes[p]) is Ok,
        ensures
            self.recompile_needed(probes, p, visiting) == Ok::<bool, Seq<char>>(true),
    {
        vstd::set_lib::lemma_len_subset(visiting.insert(p), self.unit_map().dom());
        self.lemma_later_dependency_needs(probes, self.dep_map()[p], 0, j, visiting.insert(p));
    }

    /// Dependencies from position `k` on of which none must be compiled again
    /// give a search that finds no need.
    proof fn lemma_no_dependency_needs(
        self,
        probes: Map<Seq<char>, FileProbe>,
        deps: Seq<Seq<char>>,
        k: int,
        visiting: Set<Seq<char>>,
    )
        requires
            visiting.finite(),
            visiting.subset_of(self.unit_map().dom()),
            self.unit_map().dom().finite(),
            0 <= k <= deps.len(),
            forall|i: int| k <= i < deps.len() ==> #[trigger] self.recompile_needed(probes, deps[i], visiting)
                == Ok::<bool, Seq<char>>(false),
        ensures
            self.any_dep_needs(probes, deps, k, visiting) == Ok::<bool, Seq<char>>(false),
        decreases deps.len() - k,
    {
        if k < deps.len() {
            assert(self.recompile_needed(probes, deps[k], visiting) == Ok::<bool, Seq<char>>(false));
            self.lemma_no_dependency_needs(probes, deps, k + 1, visiting);
        }
    }

    /// Whether a unit must be compiled again: never when it is already on the
    /// search path; always when it is not tracked or its file changed; with the
    /// error when its file cannot be read; and not when it is unchanged and none
    /// of its dependencies must be.
    pub proof fn lemma_recompilation_cases(
        self,
        probes: Map<Seq<char>, FileProbe>,
        p: Seq<char>,
        visiting: Set<Seq<char>>,
    )
        requires
            visiting.finite(),
            visiting.subset_of(self.unit_map().dom()),
            self.unit_map().dom().finite(),
        ensures
            visiting.contains(p) ==> self.recompile_needed(probes, p, visiting) == Ok::<
                bool,
                Seq<char>,
            >(false),
            !visiting.contains(p) && !self.unit_map().dom().contains(p) ==> self.recompile_needed(
                probes,
                p,
                visiting,
            ) == Ok::<bool, Seq<char>>(true),
            !visiting.contains(p) && self.unit_map().dom().contains(p) && self.file_change(
                p,
                probes[p],
            ) == Ok::<bool, Seq<char>>(true) ==> self.recompile_needed(probes, p, visiting) == Ok::<
                bool,
                Seq<char>,
            >(true),
            !visiting.contains(p) && self.unit_map().dom().contains(p) && self.file_change(
                p,
                probes[p],
            ) is Err ==> self.recompile_needed(probes, p, visiting) == self.file_change(p, probes[p]),
            !visiting.contains(p) && self.unit_map().dom().contains(p) && self.file_change(
                p,
                probes[p],
            ) == Ok::<bool, Seq<char>>(false) && (!self.dep_map().dom().contains(p) || forall|i: int|
                0 <= i < self.dep_map()[p].len() ==> #[trigger] self.recompile_needed(
                    probes,
                    self.dep_map()[p][i],
                    visiting.insert(p),
                ) == Ok::<bool, Seq<char>>(false)) ==> self.recompile_needed(probes, p, visiting)
                == Ok::<bool, Seq<char>>(false),
    {
        if !visiting.contains(p) && self.unit_map().dom().contains(p) && self.dep_map().dom().contains(p) {
            vstd::set_lib::lemma_len_subset(visiting.insert(p), self.unit_map().dom());
            if forall|i: int|
                0 <= i < self.dep_map()[p].len() ==> #[trigger] self.recompile_needed(
                    probes,
                    self.dep_map()[p][i],
                    visiting.insert(p),
                ) == Ok::<bool, Seq<char>>(false) {
                self.lemma_no_dependency_needs(probes, self.dep_map()[p], 0, visiting.insert(p));
            }
        }
    }

    /// Checks whether a file changed since it was recorded, from what was read of
    /// it.
    pub fn has_file_changed(&self, file_path: &str, probe: &FileProbe) -> (r: Result<bool, CompileError>)
        requires
            self.wf(),
        ensures
            agrees(r, self.file_change(file_path@, *probe)),
    {
        let modified = match &probe.modified {
            Err(e) => {
                let mut message = String::new();
                push_str(&mut message, "Failed to get metadata for ");
                push_str(&mut message, file_path);
                push_str(&mut message, ": ");
                push_string(&mut message, e);
                proof {
                    reveal_strlit("Failed to get metadata for ");
                    reveal_strlit(": ");
                }
                return Err(CompileError::codegen_error(message, None));
            },
            Ok(m) => *m,
        };
        match self.units.get(file_path) {
            Some(unit) => {
                if unit.last_modified != modified {
                    return Ok(true);
                }
                if self.config.enable_content_hashing {
                    match &probe.contents {
                        Err(e) => {
                            let mut message = String::new();
                            push_str(&mut message, "Failed to read file ");
                            push_str(&mut message, file_path);
                            push_str(&mut message, ": ");
                            push_string(&mut message, e);
                            proof {
                                reveal_strlit("Failed to read file ");
                                reveal_strlit(": ");
                            }
                            return Err(CompileError::codegen_error(message, None));
                        },
                        Ok(contents) => {
                            let current_hash = hash_text(contents.as_str());
                            return Ok(self.content_hash_differs(file_path, current_hash));
                        },
                    }
                }
                Ok(true)
            },
            None => Ok(true),
        }
    }

    /// Whether a tracked file's recorded content hash differs from
    /// `content_hash`; false for an untracked file.
    pub fn content_hash_differs(&self, file_path: &str, content_hash: u64) -> (b: bool)
        requires
            self.wf(),
        ensures
            b == (self.unit_map().dom().contains(file_path@) && self.unit_map()[file_path@].content_hash
                != content_hash),
    {
        match self.units.get(file_path) {
            Some(unit) => unit.content_hash != content_hash,
            None => false,
        }
    }

    /// The search behind [`Self::needs_recompilation`], with `stack` holding the
    /// units on the current path; the stack is the same afterwards.
    fn needs_recompilation_from(
        &self,
        file_path: &str,
        probes: &NameMap<FileProbe>,
        stack: &mut Vec<String>,
    ) -> (r: Result<bool, CompileError>)
        requires
            self.wf(),
            probes.wf(),
            forall|q: Seq<char>|
                self.unit_map().dom().contains(q) ==> probes.map().dom().contains(q),
            stack_ok(old(stack)@, self.unit_map().dom()),
        ensures
            final(stack)@ == old(stack)@,
            agrees(
                r,
                self.recompile_needed(probes.map(), file_path@, paths_view(old(stack)@).to_set()),
            ),
        decreases self.unit_map().dom().len() - old(stack)@.len(),
    {
        let ghost dom = self.unit_map().dom();
        let ghost visiting = paths_view(stack@).to_set();
        proof {
            self.units.lemma_map_finite();
            lemma_stack_set(stack@, dom);
        }
        let key = file_path.to_owned();
        if index_of(stack.as_slice(), &key).is_some() {
            proof {
                let i = choose|i: int| 0 <= i < stack@.len() && stack@[i]@ == file_path@;
                assert(paths_view(stack@)[i] == file_path@);
                assert(visiting.contains(file_path@));
            }
            return Ok(false);
        }
        if !self.units.contains_key(file_path) {
            return Ok(true);
        }
        let probe = match probes.get(file_path) {
            Some(probe) => probe,
            None => {
                return Ok(true);
            },
        };
        match self.has_file_changed(file_path, probe) {
            Err(e) => {
                return Err(e);
            },
            Ok(changed) => {
                if changed {
                    return Ok(true);
                }
            },
        }
        let ds = match self.dependencies.get(file_path) {
            Some(ds) => ds,
            None => {
                return Ok(false);
            },
        };
        let ghost deps = paths_view(ds@);
        let ghost old_stack = stack@;
        stack.push(key);
        let ghost inner = paths_view(stack@).to_set();
        proof {
            assert(paths_view(stack@) =~= paths_view(old_stack).push(file_path@));
            assert forall|q: Seq<char>| inner.contains(q) == visiting.insert(file_path@).contains(q)
                by {
                lemma_contains_push(paths_view(old_stack), file_path@, q);
            }
            assert(inner =~= visiting.insert(file_path@));
            assert(stack_ok(stack@, dom)) by {
                assert forall|a: int, b: int|
                    0 <= a < b < paths_view(stack@).len() implies paths_view(stack@)[a]
                    != paths_view(stack@)[b] by {
                    if b == old_stack.len() {
                        assert(paths_view(old_stack)[a] == paths_view(stack@)[a]);
                        assert(paths_view(old_stack).contains(paths_view(stack@)[a]));
                    } else {
                        assert(paths_view(old_stack)[a] == paths_view(stack@)[a]);
                        assert(paths_view(old_stack)[b] == paths_view(stack@)[b]);
                    }
                }
                assert forall|i: int| 0 <= i < stack@.len() implies dom.contains(
                    #[trigger] stack@[i]@,
                ) by {
                    if i < old_stack.len() {
                        assert(old_stack[i] == stack@[i]);
                    }
                }
            }
            lemma_stack_set(stack@, dom);
            assert(deps == self.dep_map()[file_path@]);
            assert(self.recompile_needed(probes.map(), file_path@, visiting) == self.any_dep_needs(
                probes.map(),
                deps,
                0,
                inner,
            ));
        }
        let mut k: usize = 0;
        while k < ds.len()
            invariant
                k <= ds@.len(),
                deps == paths_view(ds@),
                self.wf(),
                probes.wf(),
                forall|q: Seq<char>|
                    self.unit_map().dom().contains(q) ==> probes.map().dom().contains(q),
                dom == self.unit_map().dom(),
                dom.finite(),
                old_stack == old(stack)@,
                stack@ == old_stack.push(stack@.last()),
                stack@.len() == old_stack.len() + 1,
                paths_view(stack@).to_set() == inner,
                stack_ok(stack@, dom),
                inner.finite(),
                inner.subset_of(dom),
                stack@.len() <= dom.len(),
                visiting == paths_view(old(stack)@).to_set(),
                self.recompile_needed(probes.map(), file_path@, visiting) == self.any_dep_needs(
                    probes.map(),
                    deps,
                    k as int,
                    inner,
                ),
            decreases ds@.len() - k,
        {
            let r = self.needs_recompilation_from(ds[k].as_str(), probes, stack);
            proof {
                assert(ds@[k as int]@ == deps[k as int]);
                assert(self.any_dep_needs(probes.map(), deps, k as int, inner) == match self.recompile_needed(probes.map(), deps[k as int], inner) {
                    Err(e) => Err(e),
                    Ok(needed) => if needed {
                        Ok(true)
                    } else {
                        self.any_dep_needs(probes.map(), deps, k + 1, inner)
                    },
                });
            }
            match r {
                Err(e) => {
                    stack.pop();
                    proof {
                        assert(stack@ =~= old_stack);
                    }
                    return Err(e);
                },
                Ok(needed) => {
                    if needed {
                        stack.pop();
                        proof {
                            assert(stack@ =~= old_stack);
                        }
                        return Ok(true);
                    }
                },
            }
            k = k + 1;
        }
        stack.pop();
        proof {
            assert(stack@ =~= old_stack);
        }
        Ok(false)
    }

    /// Checks whether a unit needs recompilation: it is not tracked, its file
    /// changed, or one of its dependencies needs recompilation, found depth first;
    /// a dependency met again on the current path counts as unchanged. What was
    /// read of each tracked file is in `probes`.
    pub fn needs_recompilation(&self, file_path: &str, probes: &NameMap<FileProbe>) -> (r: Result<
        bool,
        CompileError,
    >)
        requires
            self.wf(),
            probes.wf(),
            forall|q: Seq<char>|
                self.unit_map().dom().contains(q) ==> probes.map().dom().contains(q),
        ensures
            agrees(r, self.recompile_needed(probes.map(), file_path@, Set::empty())),
    {
        let mut stack: Vec<String> = Vec::new();
        proof {
            assert(paths_view(stack@).to_set() =~= Set::<Seq<char>>::empty());
        }
        self.needs_recompilation_from(file_path, probes, &mut stack)
    }

    /// The tracked units among `paths` that need recompilation, in order; the
    /// first error ends the search.
    pub open spec fn units_needing(
        self,
        probes: Map<Seq<char>, FileProbe>,
        paths: Seq<Seq<char>>,
    ) -> Result<Seq<Seq<char>>, Seq<char>>
        decreases paths.len(),
    {
        if paths.len() == 0 {
            Ok(Seq::empty())
        } else {
            match self.units_needing(probes, paths.drop_last()) {
                Err(e) => Err(e),
                Ok(found) => match self.recompile_needed(probes, paths.last(), Set::empty()) {
                    Err(e) => Err(e),
                    Ok(needed) => if needed {
                        Ok(found.push(paths.last()))
                    } else {
                        Ok(found)
                    },
                },
            }
        }
    }

    /// The tracked units that need recompilation, in the order they were first
    /// added.
    pub fn get_units_needing_recompilation(&self, probes: &NameMap<FileProbe>) -> (r: Result<
        Vec<String>,
        CompileError,
    >)
        requires
            self.wf(),
            probes.wf(),
            forall|q: Seq<char>|
                self.unit_map().dom().contains(q) ==> probes.map().dom().contains(q),
        ensures
            match self.units_needing(probes.map(), self.unit_paths()) {
                Ok(found) => r matches Ok(v) && paths_view(v@) == found,
                Err(m) => agrees(r, Err(m)),
            },
    {
        let entries = self.units.entries();
        proof {
            self.units.lemma_entries();
        }
        let ghost paths = self.unit_paths();
        let mut found: Vec<String> = Vec::new();
        proof {
            assert(paths.take(0) =~= Seq::<Seq<char>>::empty());
            assert(paths_view(found@) =~= Seq::<Seq<char>>::empty());
        }
        let mut i: usize = 0;
        while i < entries.len()
            invariant
                i <= entries@.len(),
                entries@ == self.units.entry_seq(),
                paths == self.unit_paths(),
                paths.len() == entries@.len(),
                forall|j: int| 0 <= j < entries@.len() ==> #[trigger] paths[j] == entries@[j].0@,
                self.wf(),
                probes.wf(),
                forall|q: Seq<char>|
                    self.unit_map().dom().contains(q) ==> probes.map().dom().contains(q),
                self.units_needing(probes.map(), paths.take(i as int)) == Ok::<
                    Seq<Seq<char>>,
                    Seq<char>,
                >(paths_view(found@)),
            decreases entries@.len() - i,
        {
            let path = &entries[i].0;
            let r = self.needs_recompilation(path.as_str(), probes);
            proof {
                assert(paths.take(i + 1 as int).drop_last() =~= paths.take(i as int));
                assert(paths.take(i + 1 as int).last() == path@);
            }
            match r {
                Err(e) => {
                    proof {
                        lemma_units_needing_error(*self, probes.map(), paths, i as int);
                    }
                    return Err(e);
                },
                Ok(needed) => {
                    if needed {
                        let ghost before = found@;
                        found.push(path.clone());
                        proof {
                            assert(paths_view(found@) =~= paths_view(before).push(path@));
                        }
                    }
                },
            }
            i = i + 1;
        }
        proof {
            assert(paths.take(i as int) =~= paths);
        }
        Ok(found)
    }

    /// Records a compiled unit. What was read of its file is in `probe`: its
    /// modification time gives the unit's, and with content hashing its contents
    /// give the unit's hash; `compiled_at` is the time of recording. A file whose
    /// metadata or (with hashing) contents could not be read is reported and
    /// nothing changes. Recording a path again replaces its unit; either way the
    /// count of tracked units in the statistics goes up by one.
    pub fn add_unit(
        &mut self,
        file_path: String,
        ast: Vec<Stmt>,
        type_context: T,
        compilation_time: u64,
        probe: &FileProbe,
        compiled_at: u64,
    ) -> (r: Result<(), CompileError>)
        requires
            old(self).wf(),
            old(self).stats_view().total_units < u64::MAX,
        ensures
            final(self).wf(),
            match probe.modified {
                Err(e) => agrees(r, Err(metadata_error_text(file_path@, e@))) && *final(self)
                    == *old(self),
                Ok(m) => match (if old(self).config_view().enable_content_hashing {
                    match probe.contents {
                        Err(e) => Err(read_error_text(file_path@, e@)),
                        Ok(c) => Ok(default_hash_of_text(c@)),
                    }
                } else {
                    Ok(0u64)
                }) {
                    Err(msg) => agrees(r, Err(msg)) && *final(self) == *old(self),
                    Ok(h) => {
                        &&& r is Ok
                        &&& final(self).unit_map().dom() == old(self).unit_map().dom().insert(
                            file_path@,
                        )
                        &&& forall|q: Seq<char>|
                            q != file_path@ && old(self).unit_map().dom().contains(q)
                                ==> final(self).unit_map()[q] == old(self).unit_map()[q]
                        &&& unit_recorded(
                            final(self).unit_map()[file_path@],
                            file_path@,
                            h,
                            m,
                            ast,
                            type_context,
                            compiled_at,
                            compilation_time,
                        )
                        &&& final(self).stats_view() == (IncrementalStats {
                            total_units: (old(self).stats_view().total_units + 1) as u64,
                            ..old(self).stats_view()
                        })
                        &&& final(self).dep_map() == old(self).dep_map()
                        &&& final(self).config_view() == old(self).config_view()
                    },
                },
            },
    {
        let last_modified = match &probe.modified {
            Err(e) => {
                let mut message = String::new();
                push_str(&mut message, "Failed to get metadata for ");
                push_str(&mut message, file_path.as_str());
                push_str(&mut message, ": ");
                push_string(&mut message, e);
                proof {
                    reveal_strlit("Failed to get metadata for ");
                    reveal_strlit(": ");
                }
                return Err(CompileError::codegen_error(message, None));
            },
            Ok(m) => *m,
        };
        let content_hash = if self.config.enable_content_hashing {
            match &probe.contents {
                Err(e) => {
                    let mut message = String::new();
                    push_str(&mut message, "Failed to read file ");
                    push_str(&mut message, file_path.as_str());
                    push_str(&mut message, ": ");
                    push_string(&mut message, e);
                    proof {
                        reveal_strlit("Failed to read file ");
                        reveal_strlit(": ");
                    }
                    return Err(CompileError::codegen_error(message, None));
                },
                Ok(contents) => hash_text(contents.as_str()),
            }
        } else {
            0
        };
        self.record_unit(
            file_path,
            ast,
            type_context,
            compilation_time,
            content_hash,
            last_modified,
            compiled_at,
        );
        Ok(())
    }

    /// Records a compiled unit with its content hash and modification time (see
    /// [`Self::add_unit`], which reads them from what was read of the file).
    pub fn record_unit(
        &mut self,
        file_path: String,
        ast: Vec<Stmt>,
        type_context: T,
        compilation_time: u64,
        content_hash: u64,
        last_modified: u64,
        compiled_at: u64,
    )
        requires
            old(self).wf(),
            old(self).stats_view().total_units < u64::MAX,
        ensures
            final(self).wf(),
            final(self).unit_map().dom() == old(self).unit_map().dom().insert(file_path@),
            forall|q: Seq<char>|
                q != file_path@ && old(self).unit_map().dom().contains(q)
                    ==> final(self).unit_map()[q] == old(self).unit_map()[q],
            unit_recorded(
                final(self).unit_map()[file_path@],
                file_path@,
                content_hash,
                last_modified,
                ast,
                type_context,
                compiled_at,
                compilation_time,
            ),
            final(self).stats_view() == (IncrementalStats {
                total_units: (old(self).stats_view().total_units + 1) as u64,
                ..old(self).stats_view()
            }),
            final(self).dep_map() == old(self).dep_map(),
            final(self).config_view() == old(self).config_view(),
    {
        let unit = CompilationUnit {
            file_path: file_path.clone(),
            content_hash,
            last_modified,
            dependencies: Vec::new(),
            ast: Some(ast),
            type_context: Some(type_context),
            compiled_at,
            compilation_time,
            needs_recompilation: false,
        };
        proof {
            lemma_entries_dom_insert(self.units.map(), file_path@, unit);
        }
        self.units.insert(file_path, unit);
        self.stats.total_units = self.stats.total_units + 1;
    }

    /// The compiled form of a unit, when it is tracked, has both and is not marked
    /// for recompilation.
    pub fn get_cached_result(&self, file_path: &str) -> (r: Option<(&Vec<Stmt>, &T)>)
        requires
            self.wf(),
        ensures
            r is Some <==> self.unit_map().dom().contains(file_path@) && cached_usable(
                self.unit_map()[file_path@],
            ),
            r matches Some(pair) ==> Some(*pair.0) == self.unit_map()[file_path@].ast && Some(
                *pair.1,
            ) == self.unit_map()[file_path@].type_context,
    {
        match self.units.get(file_path) {
            Some(unit) => {
                match (&unit.ast, &unit.type_context) {
                    (Some(ast), Some(type_context)) => {
                        if !unit.needs_recompilation {
                            Some((ast, type_context))
                        } else {
                            None
                        }
                    },
                    _ => None,
                }
            },
            None => None,
        }
    }

    /// Marks a tracked unit as needing recompilation; nothing happens for an
    /// untracked path.
    pub fn mark_for_recompilation(&mut self, file_path: &str)
        requires
            old(self).wf(),
        ensures
            final(self).wf(),
            final(self).unit_map() == (if old(self).unit_map().dom().contains(file_path@) {
                old(self).unit_map().insert(
                    file_path@,
                    (CompilationUnit {
                        needs_recompilation: true,
                        ..old(self).unit_map()[file_path@]
                    }),
                )
            } else {
                old(self).unit_map()
            }),
            final(self).unit_paths() == old(self).unit_paths(),
            final(self).dep_map() == old(self).dep_map(),
            final(self).stats_view() == old(self).stats_view(),
            final(self).config_view() == old(self).config_view(),
    {
        match self.units.get_mut(file_path) {
            Some(unit) => {
                unit.needs_recompilation = true;
            },
            None => {},
        }
    }

    /// Forgets all units and dependencies and resets the statistics.
    pub fn clear_cache(&mut self)
        requires
            old(self).wf(),
        ensures
            final(self).wf(),
            final(self).unit_map() == Map::<Seq<char>, CompilationUnit<T>>::empty(),
            final(self).unit_paths() == Seq::<Seq<char>>::empty(),
            final(self).dep_map() == Map::<Seq<char>, Seq<Seq<char>>>::empty(),
            final(self).stats_view() == IncrementalStats::zero(),
            final(self).config_view() == old(self).config_view(),
    {
        self.units = NameMap::new();
        self.dependencies = NameMap::new();
        self.stats = IncrementalStats::default();
        proof {
            assert(self.dep_map() =~= Map::<Seq<char>, Seq<Seq<char>>>::empty());
        }
    }

    /// The statistics.
    pub fn get_stats(&self) -> (s: &IncrementalStats)
        ensures
            *s == self.stats_view(),
    {
        &self.stats
    }

    /// The paths of the tracked units, in the order they were first added.
    pub fn tracked_paths(&self) -> (v: Vec<String>)
        requires
            self.wf(),
        ensures
            paths_view(v@) == self.unit_paths(),
    {
        let entries = self.units.entries();
        let mut v: Vec<String> = Vec::new();
        let mut i: usize = 0;
        proof {
            self.units.lemma_entries();
        }
        while i < entries.len()
            invariant
                i <= entries@.len(),
                entries@ == self.units.entry_seq(),
                entries@.len() == self.units.names().len(),
                forall|k: int| 0 <= k < entries@.len() ==> #[trigger] self.units.names()[k]
                    == entries@[k].0@,
                paths_view(v@) == self.units.names().take(i as int),
            decreases entries@.len() - i,
        {
            let ghost v0 = v@;
            let p = entries[i].0.clone();
            assert(p@ == self.units.names()[i as int]);
            v.push(p);
            proof {
                assert(v@ == v0.push(p));
                assert(paths_view(v@) =~= paths_view(v0).push(p@));
                assert(paths_view(v@) =~= self.units.names().take(i + 1));
            }
            i = i + 1;
        }
        proof {
            assert(self.units.names().take(i as int) =~= self.units.names());
        }
        v
    }

    /// Counts a unit compiled afresh and the nanoseconds its compilation took.
    pub fn record_recompilation(&mut self, compilation_time: u64)
        requires
            old(self).stats_view().units_recompiled < u64::MAX,
            old(self).stats_view().time_spent + compilation_time <= u64::MAX,
        ensures
            final(self).stats_view() == (IncrementalStats {
                units_recompiled: (old(self).stats_view().units_recompiled + 1) as u64,
                time_spent: (old(self).stats_view().time_spent + compilation_time) as u64,
                ..old(self).stats_view()
            }),
            final(self).unit_map() == old(self).unit_map(),
            final(self).unit_paths() == old(self).unit_paths(),
            final(self).dep_map() == old(self).dep_map(),
            final(self).config_view() == old(self).config_view(),
            final(self).wf() == old(self).wf(),
    {
        self.stats.units_recompiled = self.stats.units_recompiled + 1;
        self.stats.time_spent = self.stats.time_spent + compilation_time;
    }
}

/// A recorded unit holds what it was recorded with and is not marked for
/// recompilation.
pub open spec fn unit_recorded<T>(
    u: CompilationUnit<T>,
    path: Seq<char>,
    hash: u64,
    modified: u64,
    ast: Vec<Stmt>,
    type_context: T,
    compiled_at: u64,
    compilation_time: u64,
) -> bool {
    &&& u.file_path@ == path
    &&& u.content_hash == hash
    &&& u.last_modified == modified
    &&& u.dependencies@.len() == 0
    &&& u.ast == Some(ast)
    &&& u.type_context == Some(type_context)
    &&& u.compiled_at == compiled_at
    &&& u.compilation_time == compilation_time
    &&& !u.needs_recompilation
}

/// A unit's compiled form can be reused: it has both parts and is not marked.
pub open spec fn cached_usable<T>(u: CompilationUnit<T>) -> bool {
    u.ast is Some && u.type_context is Some && !u.needs_recompilation
}

/// A unit just recorded is served from the cache with what it was recorded
/// with: after a successful `add_unit`, `get_cached_result` gives its statements
/// and type context.
pub proof fn lemma_recorded_unit_is_cached<T>(
    u: CompilationUnit<T>,
    path: Seq<char>,
    hash: u64,
    modified: u64,
    ast: Vec<Stmt>,
    type_context: T,
    compiled_at: u64,
    compilation_time: u64,
)
    requires
        unit_recorded(u, path, hash, modified, ast, type_context, compiled_at, compilation_time),
    ensures
        cached_usable(u),
        u.ast == Some(ast),
        u.type_context == Some(type_context),
{
}

/// A unit marked for recompilation is not served from the cache: after
/// `mark_for_recompilation(p)` on a tracked `p`, `get_cached_result(p)` gives
/// nothing.
pub proof fn lemma_marked_unit_not_cached<T>(units: Map<Seq<char>, CompilationUnit<T>>, path: Seq<char>)
    requires
        units.dom().contains(path),
    ensures
        ({
            let marked = units.insert(
                path,
                CompilationUnit { needs_recompilation: true, ..units[path] },
            );
            marked.dom().contains(path) && !cached_usable(marked[path])
        }),
{
}

proof fn lemma_entries_dom_insert<V>(m: Map<Seq<char>, V>, k: Seq<char>, v: V)
    ensures
        m.insert(k, v).dom() == m.dom().insert(k),
{
}

proof fn lemma_units_needing_error<T>(
    c: IncrementalCompiler<T>,
    probes: Map<Seq<char>, FileProbe>,
    paths: Seq<Seq<char>>,
    i: int,
)
    requires
        0 <= i < paths.len(),
        c.units_needing(probes, paths.take(i)) is Ok,
        c.recompile_needed(probes, paths[i], Set::empty()) is Err,
    ensures
        c.units_needing(probes, paths) == Err::<Seq<Seq<char>>, Seq<char>>(
            c.recompile_needed(probes, paths[i], Set::empty())->Err_0,
        ),
    decreases paths.len() - i,
{
    let t = paths.take(i + 1);
    assert(t.drop_last() =~= paths.take(i));
    assert(t.last() == paths[i]);
    lemma_units_needing_error_extends(c, probes, paths, i + 1);
}

proof fn lemma_units_needing_error_extends<T>(
    c: IncrementalCompiler<T>,
    probes: Map<Seq<char>, FileProbe>,
    paths: Seq<Seq<char>>,
    k: int,
)
    requires
        0 <= k <= paths.len(),
        c.units_needing(probes, paths.take(k)) is Err,
    ensures
        c.units_needing(probes, paths) == c.units_needing(probes, paths.take(k)),
    decreases paths.len() - k,
{
    if k == paths.len() {
        assert(paths.take(k) =~= paths);
    } else {
        let t = paths.take(k + 1);
        assert(t.drop_last() =~= paths.take(k));
        lemma_units_needing_error_extends(c, probes, paths, k + 1);
    }
}

/// The edges join units of the list exactly where one depends on the other:
/// `(x, j)` is an edge when unit `j` depends on unit `x`, and only then.
pub open spec fn edges_describe(
    e: Seq<(usize, usize)>,
    uv: Seq<Seq<char>>,
    deps: Map<Seq<char>, Seq<Seq<char>>>,
) -> bool {
    &&& edges_within(e, uv.len())
    &&& forall|k: int|
        0 <= k < e.len() ==> #[trigger] dep_list(deps, uv[e[k].1 as int]).contains(
            uv[e[k].0 as int],
        )
    &&& forall|x: int, y: int|
        0 <= x < uv.len() && 0 <= y < uv.len() && #[trigger] dep_list(deps, uv[y]).contains(
            #[trigger] uv[x],
        ) ==> e.contains((x as usize, y as usize))
}

/// The units that Kahn's algorithm left out depend on each other in a cycle.
proof fn lemma_unemitted_form_cycle(
    uv: Seq<Seq<char>>,
    deps: Map<Seq<char>, Seq<Seq<char>>>,
    edges: Seq<(usize, usize)>,
    queue: Seq<usize>,
)
    requires
        edges_describe(edges, uv, deps),
        uv.len() <= usize::MAX,
        distinct_below(queue, uv.len()),
        queue.len() < uv.len(),
        forall|z: usize| z < uv.len() && !queue.contains(z) ==> pending_into(edges, z, queue) > 0,
    ensures
        has_dependency_cycle(uv, deps),
{
    let n = uv.len() as usize;
    lemma_distinct_below_count(queue, n);
    let s = Set::new(
        |p: Seq<char>| exists|v: usize| v < n && !queue.contains(v) && uv[v as int] == p,
    );
    let missing = choose|v: usize| v < n && !queue.contains(v);
    assert(s.contains(uv[missing as int]));
    assert forall|p: Seq<char>| #[trigger] s.contains(p) implies uv.contains(p) && exists|
        d: Seq<char>,
    | s.contains(d) && #[trigger] dep_list(deps, p).contains(d) by {
        let v = choose|v: usize| v < n && !queue.contains(v) && uv[v as int] == p;
        assert(uv[v as int] == p);
        lemma_pending_positive(edges, v, queue);
        let k = choose|k: int|
            0 <= k < edges.len() && edges[k].1 == v && !queue.contains(#[trigger] edges[k].0);
        let w = edges[k].0;
        assert(edges[k].0 < n);
        assert(dep_list(deps, uv[v as int]).contains(uv[w as int]));
        assert(s.contains(uv[w as int]));
    }
    assert(is_dependency_cycle(uv, deps, s));
}

/// A schedule of all the units from Kahn's algorithm, read as paths, holds each
/// unit once and is a topological order; so no cycle exists.
proof fn lemma_schedule_is_order(
    uv: Seq<Seq<char>>,
    deps: Map<Seq<char>, Seq<Seq<char>>>,
    edges: Seq<(usize, usize)>,
    queue: Seq<usize>,
    ov: Seq<Seq<char>>,
)
    requires
        edges_describe(edges, uv, deps),
        uv.len() <= usize::MAX,
        all_distinct(uv),
        distinct_below(queue, uv.len()),
        queue.len() == uv.len(),
        sources_precede(queue, edges),
        ov.len() == queue.len(),
        forall|a: int| 0 <= a < queue.len() ==> #[trigger] ov[a] == uv[queue[a] as int],
    ensures
        all_distinct(ov),
        forall|u: Seq<char>| uv.contains(u) <==> ov.contains(u),
        is_topological_order(ov, deps),
        !has_dependency_cycle(uv, deps),
{
    let n = uv.len() as usize;
    lemma_distinct_below_count(queue, n);
    assert forall|a: int, b: int| 0 <= a < b < ov.len() implies ov[a] != ov[b] by {
        assert(ov[a] == uv[queue[a] as int]);
        assert(ov[b] == uv[queue[b] as int]);
    }
    assert forall|u: Seq<char>| uv.contains(u) <==> ov.contains(u) by {
        if uv.contains(u) {
            let i = choose|i: int| 0 <= i < uv.len() && uv[i] == u;
            assert(queue.contains(i as usize));
            let a = choose|a: int| 0 <= a < queue.len() && queue[a] == i as usize;
            assert(ov[a] == u);
        }
        if ov.contains(u) {
            let a = choose|a: int| 0 <= a < ov.len() && ov[a] == u;
            assert(uv[queue[a] as int] == u);
        }
    }
    assert forall|a: int, b: int|
        0 <= a < ov.len() && 0 <= b < ov.len() && #[trigger] dep_list(deps, ov[b]).contains(
            #[trigger] ov[a],
        ) implies a < b by {
        let xa = queue[a];
        let xb = queue[b];
        assert(ov[a] == uv[xa as int]);
        assert(ov[b] == uv[xb as int]);
        assert(edges.contains((xa, xb)));
        let t = choose|t: int| 0 <= t < edges.len() && edges[t] == (xa, xb);
        assert(edges[t].1 == queue[b]);
        let k0 = choose|k0: int| 0 <= k0 < b && #[trigger] queue[k0] == edges[t].0;
        assert(k0 == a);
    }
    assert forall|s: Set<Seq<char>>| !is_dependency_cycle(uv, deps, s) by {
        lemma_topological_excludes_cycle(ov, uv, deps, s);
    }
}

/// The error for units that cannot be ordered.
fn cycle_error() -> (e: CompileError)
    ensures
        e matches CompileError::CodeGenError { message, position } && message@ == cycle_message()
            && position is None,
{
    let message = "Circular dependency detected in compilation units".to_owned();
    proof {
        reveal_strlit("Circular dependency detected in compilation units");
    }
    CompileError::codegen_error(message, None)
}

/// Appends an edge `(x, j)` for each listed path that is unit `x`.
fn append_edges_into(units: &[String], j: usize, ds: &Vec<String>, edges: &mut Vec<(usize, usize)>)
    requires
        j < units@.len(),
        all_distinct(paths_view(units@)),
    ensures
        final(edges)@.len() >= old(edges)@.len(),
        final(edges)@.take(old(edges)@.len() as int) == old(edges)@,
        forall|k: int|
            old(edges)@.len() <= k < final(edges)@.len() ==> #[trigger] final(edges)@[k].1 == j
                && final(edges)@[k].0 < units@.len() && paths_view(ds@).contains(
                paths_view(units@)[final(edges)@[k].0 as int],
            ),
        forall|x: int|
            0 <= x < units@.len() && #[trigger] paths_view(ds@).contains(paths_view(units@)[x])
                ==> final(edges)@.contains((x as usize, j)),
{
    let ghost uv = paths_view(units@);
    let ghost dl = paths_view(ds@);
    let ghost e0 = edges@;
    let mut t: usize = 0;
    while t < ds.len()
        invariant
            t <= ds@.len(),
            j < units@.len(),
            uv == paths_view(units@),
            dl == paths_view(ds@),
            all_distinct(uv),
            edges@.len() >= e0.len(),
            edges@.take(e0.len() as int) == e0,
            forall|k: int|
                e0.len() <= k < edges@.len() ==> #[trigger] edges@[k].1 == j && edges@[k].0
                    < units@.len() && dl.contains(uv[edges@[k].0 as int]),
            forall|x: int|
                0 <= x < units@.len() && #[trigger] dl.take(t as int).contains(uv[x])
                    ==> edges@.contains((x as usize, j)),
        decreases ds@.len() - t,
    {
        let ghost eb = edges@;
        match index_of(units, &ds[t]) {
            Some(x) => {
                edges.push((x, j));
                proof {
                    assert(dl[t as int] == uv[x as int]);
                    assert(edges@.take(e0.len() as int) =~= e0);
                    assert(edges@[edges@.len() - 1] == (x, j));
                    assert forall|k: int|
                        e0.len() <= k < edges@.len() implies #[trigger] edges@[k].1 == j
                        && edges@[k].0 < units@.len() && dl.contains(uv[edges@[k].0 as int]) by {
                        if k < edges@.len() - 1 {
                            assert(edges@[k] == eb[k]);
                        }
                    }
                    assert forall|x2: int|
                        0 <= x2 < units@.len() && #[trigger] dl.take(t + 1 as int).contains(
                            uv[x2],
                        ) implies edges@.contains((x2 as usize, j)) by {
                        let i2 = choose|i2: int|
                            0 <= i2 < t + 1 && #[trigger] dl.take(t + 1 as int)[i2] == uv[x2];
                        if i2 < t {
                            assert(dl.take(t as int)[i2] == uv[x2]);
                            assert(dl.take(t as int).contains(uv[x2]));
                            let kk = choose|kk: int|
                                0 <= kk < eb.len() && eb[kk] == (x2 as usize, j);
                            assert(edges@[kk] == (x2 as usize, j));
                        } else {
                            assert(uv[x2] == uv[x as int]);
                            assert(x2 == x);
                        }
                    }
                }
            },
            None => {
                proof {
                    assert(!uv.contains(dl[t as int]));
                    assert forall|x2: int|
                        0 <= x2 < units@.len() && #[trigger] dl.take(t + 1 as int).contains(
                            uv[x2],
                        ) implies edges@.contains((x2 as usize, j)) by {
                        let i2 = choose|i2: int|
                            0 <= i2 < t + 1 && #[trigger] dl.take(t + 1 as int)[i2] == uv[x2];
                        if i2 == t {
                            assert(uv.contains(uv[x2]));
                        } else {
                            assert(dl.take(t as int)[i2] == uv[x2]);
                            assert(dl.take(t as int).contains(uv[x2]));
                        }
                    }
                }
            },
        }
        t = t + 1;
    }
    proof {
        assert(dl.take(ds@.len() as int) =~= dl);
    }
}

} // verus!
