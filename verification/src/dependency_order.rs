//! Ordering units by their dependencies with Kahn's algorithm, and what such an
//! order says about cycles.
//!
//! Units are named by paths; inside the algorithm they are numbered by their
//! position in the list of units, and a dependency is an edge `(x, j)`: unit `j`
//! depends on unit `x`.

use vstd::prelude::*;

verus! {

/// The texts of a list of paths.
pub open spec fn paths_view(s: Seq<String>) -> Seq<Seq<char>> {
    s.map_values(|p: String| p@)
}

/// The paths a unit depends on; none when it has no entry.
pub open spec fn dep_list(deps: Map<Seq<char>, Seq<Seq<char>>>, u: Seq<char>) -> Seq<Seq<char>> {
    if deps.dom().contains(u) {
        deps[u]
    } else {
        Seq::empty()
    }
}

/// Every unit of the order comes after each unit of the order that it depends on.
pub open spec fn is_topological_order(
    order: Seq<Seq<char>>,
    deps: Map<Seq<char>, Seq<Seq<char>>>,
) -> bool {
    forall|i: int, j: int|
        0 <= i < order.len() && 0 <= j < order.len() && #[trigger] dep_list(
            deps,
            order[j],
        ).contains(#[trigger] order[i]) ==> i < j
}

/// `s` is a non-empty set of the units in which every member depends on a member.
pub open spec fn is_dependency_cycle(
    units: Seq<Seq<char>>,
    deps: Map<Seq<char>, Seq<Seq<char>>>,
    s: Set<Seq<char>>,
) -> bool {
    &&& exists|x: Seq<char>| s.contains(x)
    &&& forall|x: Seq<char>|
        #[trigger] s.contains(x) ==> units.contains(x) && exists|d: Seq<char>|
            s.contains(d) && #[trigger] dep_list(deps, x).contains(d)
}

/// Some units depend on each other in a cycle (a unit that depends on itself
/// included).
pub open spec fn has_dependency_cycle(
    units: Seq<Seq<char>>,
    deps: Map<Seq<char>, Seq<Seq<char>>>,
) -> bool {
    exists|s: Set<Seq<char>>| is_dependency_cycle(units, deps, s)
}

/// The list names each unit once.
pub open spec fn all_distinct(s: Seq<Seq<char>>) -> bool {
    forall|i: int, j: int| 0 <= i < j < s.len() ==> s[i] != s[j]
}

/// The number of edges into `j` whose source is not in `emitted`.
pub open spec fn pending_into(e: Seq<(usize, usize)>, j: usize, emitted: Seq<usize>) -> nat
    decreases e.len(),
{
    if e.len() == 0 {
        0
    } else {
        pending_into(e.drop_last(), j, emitted) + (if e.last().1 == j && !emitted.contains(
            e.last().0,
        ) {
            1nat
        } else {
            0nat
        })
    }
}

/// The number of edges from `x` into `j`.
pub open spec fn edges_between(e: Seq<(usize, usize)>, x: usize, j: usize) -> nat
    decreases e.len(),
{
    if e.len() == 0 {
        0
    } else {
        edges_between(e.drop_last(), x, j) + (if e.last() == (x, j) {
            1nat
        } else {
            0nat
        })
    }
}

/// Numbers below `n`, none twice.
pub open spec fn distinct_below(q: Seq<usize>, n: nat) -> bool {
    &&& forall|a: int| 0 <= a < q.len() ==> q[a] < n
    &&& forall|a: int, b: int| 0 <= a < b < q.len() ==> q[a] != q[b]
}

/// The source of each edge into an entry of `q` is an earlier entry.
pub open spec fn sources_precede(q: Seq<usize>, e: Seq<(usize, usize)>) -> bool {
    forall|k: int, t: int|
        #![trigger q[k], e[t]]
        0 <= k < q.len() && 0 <= t < e.len() && e[t].1 == q[k] ==> exists|k0: int|
            0 <= k0 < k && #[trigger] q[k0] == e[t].0
}

/// Every edge joins two of the `n` units.
pub open spec fn edges_within(e: Seq<(usize, usize)>, n: nat) -> bool {
    forall|k: int| 0 <= k < e.len() ==> #[trigger] e[k].0 < n && e[k].1 < n
}

/// What a list holds after a push: what it held, and the new entry.
pub proof fn lemma_contains_push<A>(s: Seq<A>, x: A, a: A)
    ensures
        s.push(x).contains(a) == (s.contains(a) || a == x),
{
    if s.contains(a) {
        let i = choose|i: int| 0 <= i < s.len() && s[i] == a;
        assert(s.push(x)[i] == a);
    }
    if a == x {
        assert(s.push(x)[s.len() as int] == a);
    }
    if s.push(x).contains(a) {
        let i = choose|i: int| 0 <= i < s.push(x).len() && s.push(x)[i] == a;
        if i < s.len() {
            assert(s[i] == a);
        }
    }
}

/// Emitting `x` takes its edges into `j` off the pending count of `j`.
proof fn lemma_pending_emit(e: Seq<(usize, usize)>, j: usize, emitted: Seq<usize>, x: usize)
    requires
        !emitted.contains(x),
    ensures
        pending_into(e, j, emitted.push(x)) + edges_between(e, x, j) == pending_into(
            e,
            j,
            emitted,
        ),
    decreases e.len(),
{
    if e.len() > 0 {
        lemma_pending_emit(e.drop_last(), j, emitted, x);
        lemma_contains_push(emitted, x, e.last().0);
    }
}

/// A positive pending count has an edge to show for it.
pub proof fn lemma_pending_positive(e: Seq<(usize, usize)>, j: usize, emitted: Seq<usize>)
    requires
        pending_into(e, j, emitted) > 0,
    ensures
        exists|k: int| 0 <= k < e.len() && e[k].1 == j && !emitted.contains(#[trigger] e[k].0),
    decreases e.len(),
{
    if e.last().1 == j && !emitted.contains(e.last().0) {
        assert(e[e.len() - 1].1 == j);
    } else {
        lemma_pending_positive(e.drop_last(), j, emitted);
        let k = choose|k: int|
            0 <= k < e.drop_last().len() && e.drop_last()[k].1 == j && !emitted.contains(
                #[trigger] e.drop_last()[k].0,
            );
        assert(e[k] == e.drop_last()[k]);
    }
}

/// With nothing pending into `j`, the source of each edge into `j` was emitted.
proof fn lemma_pending_zero(e: Seq<(usize, usize)>, j: usize, emitted: Seq<usize>, k: int)
    requires
        pending_into(e, j, emitted) == 0,
        0 <= k < e.len(),
        e[k].1 == j,
    ensures
        emitted.contains(e[k].0),
    decreases e.len(),
{
    if k < e.len() - 1 {
        assert(e.drop_last()[k] == e[k]);
        lemma_pending_zero(e.drop_last(), j, emitted, k);
    }
}

proof fn lemma_edges_take(e: Seq<(usize, usize)>, x: usize, j: usize, t: int)
    requires
        0 <= t < e.len(),
    ensures
        edges_between(e.take(t + 1), x, j) == edges_between(e.take(t), x, j) + (if e[t] == (x, j) {
            1nat
        } else {
            0nat
        }),
        edges_between(e.take(t + 1), x, j) <= edges_between(e, x, j),
    decreases e.len() - t,
{
    assert(e.take(t + 1).drop_last() =~= e.take(t));
    if t + 1 < e.len() {
        lemma_edges_take(e, x, j, t + 1);
    } else {
        assert(e.take(t + 1) =~= e);
    }
}

proof fn lemma_edges_le_pending(e: Seq<(usize, usize)>, x: usize, j: usize, emitted: Seq<usize>)
    requires
        !emitted.contains(x),
    ensures
        edges_between(e, x, j) <= pending_into(e, j, emitted),
    decreases e.len(),
{
    if e.len() > 0 {
        lemma_edges_le_pending(e.drop_last(), x, j, emitted);
    }
}

/// Appending edges that all go into `j` adds their number to the count of `j` only.
pub proof fn lemma_pending_append(e0: Seq<(usize, usize)>, extra: Seq<(usize, usize)>, j: usize, y: usize)
    requires
        forall|k: int| 0 <= k < extra.len() ==> #[trigger] extra[k].1 == j,
    ensures
        pending_into(e0 + extra, y, Seq::empty()) == pending_into(e0, y, Seq::empty()) + (if y
            == j {
            extra.len()
        } else {
            0
        }),
    decreases extra.len(),
{
    if extra.len() == 0 {
        assert(e0 + extra =~= e0);
    } else {
        assert((e0 + extra).drop_last() =~= e0 + extra.drop_last());
        assert(extra[extra.len() - 1].1 == j);
        lemma_pending_append(e0, extra.drop_last(), j, y);
    }
}

/// The numbers below `n` are `n` in number.
proof fn lemma_usize_range_len(n: usize)
    ensures
        Set::new(|w: usize| w < n).finite(),
        Set::new(|w: usize| w < n).len() == n,
    decreases n,
{
    let r = Set::new(|w: usize| w < n);
    if n == 0 {
        assert(r =~= Set::<usize>::empty());
    } else {
        let m = (n - 1) as usize;
        lemma_usize_range_len(m);
        let r0 = Set::new(|w: usize| w < m);
        assert(r =~= r0.insert(m));
    }
}

/// Counting: a list of distinct numbers below `n` has at most `n` entries, fewer
/// when it misses one of them, and all of them when it has `n`.
pub proof fn lemma_distinct_below_count(q: Seq<usize>, n: usize)
    requires
        distinct_below(q, n as nat),
    ensures
        q.len() <= n,
        (exists|v: usize| v < n && !q.contains(v)) <==> q.len() < n,
        q.len() == n ==> forall|v: usize| v < n ==> q.contains(v),
{
    let s = q.to_set();
    let r = Set::new(|w: usize| w < n);
    assert(q.no_duplicates());
    q.unique_seq_to_set();
    vstd::seq_lib::seq_to_set_is_finite(q);
    lemma_usize_range_len(n);
    assert(s.subset_of(r));
    vstd::set_lib::lemma_len_subset(s, r);
    if exists|v: usize| v < n && !q.contains(v) {
        let v = choose|v: usize| v < n && !q.contains(v);
        assert(s.subset_of(r.remove(v)));
        vstd::set_lib::lemma_len_subset(s, r.remove(v));
    }
    if q.len() < n && forall|v: usize| v < n ==> q.contains(v) {
        assert(r.subset_of(s));
        vstd::set_lib::lemma_len_subset(r, s);
    }
    if q.len() == n {
        assert forall|v: usize| v < n implies q.contains(v) by {
            if !q.contains(v) {
                assert(s.subset_of(r.remove(v)));
                vstd::set_lib::lemma_len_subset(s, r.remove(v));
            }
        }
    }
}

/// A topologically ordered list of all the units rules out every cycle among them.
pub proof fn lemma_topological_excludes_cycle(
    order: Seq<Seq<char>>,
    units: Seq<Seq<char>>,
    deps: Map<Seq<char>, Seq<Seq<char>>>,
    s: Set<Seq<char>>,
)
    requires
        is_topological_order(order, deps),
        forall|u: Seq<char>| units.contains(u) ==> order.contains(u),
    ensures
        !is_dependency_cycle(units, deps, s),
{
    if is_dependency_cycle(units, deps, s) {
        let x0 = choose|x: Seq<char>| s.contains(x);
        assert(units.contains(x0));
        assert(order.contains(x0));
        let k0 = choose|k: int| 0 <= k < order.len() && order[k] == x0;
        lemma_cycle_descent(order, units, deps, s, k0);
    }
}

/// Infinite descent: in a topological order, a member of a cycle at position `k`
/// would depend on a member at an earlier position, and so on without end.
proof fn lemma_cycle_descent(
    order: Seq<Seq<char>>,
    units: Seq<Seq<char>>,
    deps: Map<Seq<char>, Seq<Seq<char>>>,
    s: Set<Seq<char>>,
    k: int,
)
    requires
        is_topological_order(order, deps),
        forall|u: Seq<char>| units.contains(u) ==> order.contains(u),
        0 <= k < order.len(),
        s.contains(order[k]),
    ensures
        !is_dependency_cycle(units, deps, s),
    decreases k,
{
    if is_dependency_cycle(units, deps, s) {
        let y = order[k];
        let d = choose|d: Seq<char>| s.contains(d) && #[trigger] dep_list(deps, y).contains(d);
        assert(units.contains(d));
        assert(order.contains(d));
        let kd = choose|i: int| 0 <= i < order.len() && order[i] == d;
        assert(dep_list(deps, order[k]).contains(order[kd]));
        assert(kd < k);
        lemma_cycle_descent(order, units, deps, s, kd);
    }
}

/// The position of a path among the units, if it is one.
pub fn index_of(units: &[String], p: &String) -> (r: Option<usize>)
    ensures
        r matches Some(i) ==> i < units@.len() && units@[i as int]@ == p@,
        r is None ==> !paths_view(units@).contains(p@),
{
    let mut i: usize = 0;
    while i < units.len()
        invariant
            i <= units@.len(),
            forall|k: int| 0 <= k < i ==> units@[k]@ != p@,
        decreases units@.len() - i,
    {
        if units[i] == *p {
            return Some(i);
        }
        i = i + 1;
    }
    proof {
        if paths_view(units@).contains(p@) {
            let k = choose|k: int| 0 <= k < paths_view(units@).len() && paths_view(units@)[k] == p@;
            assert(units@[k]@ == p@);
        }
    }
    None
}

/// Whether no path occurs twice in the list.
pub fn paths_distinct(units: &[String]) -> (b: bool)
    ensures
        b == all_distinct(paths_view(units@)),
{
    let ghost uv = paths_view(units@);
    let n = units.len();
    let mut i: usize = 0;
    while i < n
        invariant
            i <= n,
            n == units@.len(),
            uv == paths_view(units@),
            forall|a: int, b: int| 0 <= a < b < i ==> uv[a] != uv[b],
        decreases n - i,
    {
        let mut j: usize = 0;
        while j < i
            invariant
                j <= i < n,
                n == units@.len(),
                uv == paths_view(units@),
                forall|a: int| 0 <= a < j ==> uv[a] != uv[i as int],
            decreases i - j,
        {
            if units[j] == units[i] {
                assert(uv[j as int] == uv[i as int]);
                return false;
            }
            j = j + 1;
        }
        i = i + 1;
    }
    true
}

/// Moves `x`, the entry of the queue just emitted, out of the pending counts of
/// the units it leads to, and queues each unit whose count drops to zero.
fn release_successors(
    x: usize,
    n: usize,
    edges: &Vec<(usize, usize)>,
    indeg: &mut Vec<usize>,
    queue: &mut Vec<usize>,
    head: usize,
)
    requires
        1 <= head <= old(queue)@.len(),
        x == old(queue)@[head - 1],
        old(indeg)@.len() == n,
        edges_within(edges@, n as nat),
        distinct_below(old(queue)@, n as nat),
        sources_precede(old(queue)@, edges@),
        forall|z: usize| z < n ==> (old(queue)@.contains(z) <==> old(indeg)@[z as int] == 0),
        forall|z: usize|
            z < n ==> #[trigger] old(indeg)@[z as int] == pending_into(
                edges@,
                z,
                old(queue)@.take(head - 1),
            ),
    ensures
        final(indeg)@.len() == n,
        final(queue)@.len() >= old(queue)@.len(),
        final(queue)@.take(old(queue)@.len() as int) == old(queue)@,
        distinct_below(final(queue)@, n as nat),
        sources_precede(final(queue)@, edges@),
        forall|z: usize| z < n ==> (final(queue)@.contains(z) <==> final(indeg)@[z as int] == 0),
        forall|z: usize|
            z < n ==> #[trigger] final(indeg)@[z as int] == pending_into(
                edges@,
                z,
                final(queue)@.take(head as int),
            ),
{
    let ghost q0 = queue@;
    let ghost eb = q0.take(head - 1);
    proof {
        assert(!eb.contains(x)) by {
            if eb.contains(x) {
                let a = choose|a: int| 0 <= a < eb.len() && eb[a] == x;
                assert(q0[a] == q0[head - 1]);
            }
        }
        assert forall|z: usize| z < n implies pending_into(edges@, z, eb.push(x)) + edges_between(
            edges@,
            x,
            z,
        ) == pending_into(edges@, z, eb) && edges_between(edges@, x, z) <= pending_into(
            edges@,
            z,
            eb,
        ) by {
            lemma_pending_emit(edges@, z, eb, x);
            lemma_edges_le_pending(edges@, x, z, eb);
        }
        assert(edges@.take(0) =~= Seq::<(usize, usize)>::empty());
    }
    let mut t: usize = 0;
    while t < edges.len()
        invariant
            t <= edges@.len(),
            1 <= head <= q0.len(),
            x == q0[head - 1],
            eb == q0.take(head - 1),
            !eb.contains(x),
            indeg@.len() == n,
            edges_within(edges@, n as nat),
            queue@.len() >= q0.len(),
            queue@.take(q0.len() as int) == q0,
            distinct_below(queue@, n as nat),
            sources_precede(queue@, edges@),
            forall|z: usize| z < n ==> (queue@.contains(z) <==> indeg@[z as int] == 0),
            forall|z: usize|
                z < n ==> #[trigger] indeg@[z as int] + edges_between(edges@.take(t as int), x, z)
                    == pending_into(edges@, z, eb),
            forall|z: usize|
                z < n ==> pending_into(edges@, z, eb.push(x)) + #[trigger] edges_between(
                    edges@,
                    x,
                    z,
                ) == pending_into(edges@, z, eb) && edges_between(edges@, x, z) <= pending_into(
                    edges@,
                    z,
                    eb,
                ),
        decreases edges@.len() - t,
    {
        let (src, tgt) = edges[t];
        assert(edges@[t as int].1 < n);
        let ghost indeg_start = indeg@;
        proof {
            assert forall|z: usize| z < n implies edges_between(edges@.take(t + 1 as int), x, z)
                == edges_between(edges@.take(t as int), x, z) + (if src == x && tgt == z {
                1nat
            } else {
                0nat
            }) && edges_between(edges@.take(t + 1 as int), x, z) <= edges_between(
                edges@,
                x,
                z,
            ) by {
                lemma_edges_take(edges@, x, z, t as int);
            }
        }
        if src == x {
            let ghost indeg_before = indeg@;
            proof {
                lemma_edges_take(edges@, x, tgt, t as int);
                assert(indeg@[tgt as int] + edges_between(edges@.take(t as int), x, tgt)
                    == pending_into(edges@, tgt, eb));
                assert(edges_between(edges@, x, tgt) <= pending_into(edges@, tgt, eb));
                assert(pending_into(edges@, tgt, eb.push(x)) + edges_between(edges@, x, tgt)
                    == pending_into(edges@, tgt, eb));
            }
            assert(indeg_before[tgt as int] >= 1);
            let d = indeg[tgt] - 1;
            indeg.set(tgt, d);
            if d == 0 {
                let ghost qb = queue@;
                assert(!qb.contains(tgt));
                queue.push(tgt);
                proof {
                    assert(queue@.take(q0.len() as int) =~= q0);
                    assert forall|a: int, b: int|
                        0 <= a < b < queue@.len() implies queue@[a] != queue@[b] by {
                        if b == queue@.len() - 1 {
                            assert(qb.contains(qb[a]));
                        }
                    }
                    assert forall|z: usize| z < n implies (queue@.contains(z) <==> indeg@[z as int]
                        == 0) by {
                        lemma_contains_push(qb, tgt, z);
                    }
                    assert(pending_into(edges@, tgt, eb.push(x)) == 0);
                    assert(queue@.take(head as int) =~= eb.push(x));
                    assert forall|k: int, t2: int|
                        #![trigger queue@[k], edges@[t2]]
                        0 <= k < queue@.len() && 0 <= t2 < edges@.len() && edges@[t2].1
                            == queue@[k] implies exists|k0: int|
                        0 <= k0 < k && #[trigger] queue@[k0] == edges@[t2].0 by {
                        if k == queue@.len() - 1 {
                            lemma_pending_zero(edges@, tgt, eb.push(x), t2);
                            let a = choose|a: int|
                                0 <= a < eb.push(x).len() && eb.push(x)[a] == edges@[t2].0;
                            assert(queue@[a] == eb.push(x)[a]);
                        } else {
                            assert(qb[k] == queue@[k]);
                            let k0 = choose|k0: int| 0 <= k0 < k && #[trigger] qb[k0] == edges@[t2].0;
                            assert(queue@[k0] == qb[k0]);
                        }
                    }
                }
            }
        }
        proof {
            assert forall|z: usize| z < n implies #[trigger] indeg@[z as int] + edges_between(
                edges@.take(t + 1 as int),
                x,
                z,
            ) == pending_into(edges@, z, eb) by {
                lemma_edges_take(edges@, x, z, t as int);
                assert(indeg_start[z as int] + edges_between(edges@.take(t as int), x, z)
                    == pending_into(edges@, z, eb));
            }
        }
        t = t + 1;
    }
    proof {
        assert(edges@.take(edges@.len() as int) =~= edges@);
        assert(queue@.take(head as int) =~= eb.push(x));
    }
}

/// Kahn's algorithm on `n` units joined by `edges`, with `indeg` holding the
/// number of edges into each unit: units are emitted once all their sources have
/// been, starting from those without incoming edges in order of their number.
/// Units on or behind a cycle are never emitted; each of them keeps an edge from
/// a unit that was not emitted either.
pub fn kahn_schedule(n: usize, edges: &Vec<(usize, usize)>, indeg: Vec<usize>) -> (q: Vec<usize>)
    requires
        indeg@.len() == n,
        edges_within(edges@, n as nat),
        forall|z: int|
            0 <= z < n ==> #[trigger] indeg@[z] == pending_into(edges@, z as usize, Seq::empty()),
    ensures
        distinct_below(q@, n as nat),
        sources_precede(q@, edges@),
        forall|z: usize| z < n && !q@.contains(z) ==> pending_into(edges@, z, q@) > 0,
{
    let mut indeg = indeg;
    let mut queue: Vec<usize> = Vec::new();
    let mut y: usize = 0;
    while y < n
        invariant
            y <= n,
            indeg@.len() == n,
            edges_within(edges@, n as nat),
            forall|z: int|
                0 <= z < n ==> #[trigger] indeg@[z] == pending_into(
                    edges@,
                    z as usize,
                    Seq::empty(),
                ),
            distinct_below(queue@, y as nat),
            sources_precede(queue@, edges@),
            forall|k: int| 0 <= k < queue@.len() ==> indeg@[queue@[k] as int] == 0,
            forall|z: usize| z < y ==> (queue@.contains(z) <==> indeg@[z as int] == 0),
        decreases n - y,
    {
        if indeg[y] == 0 {
            let ghost qb = queue@;
            queue.push(y);
            proof {
                assert forall|z: usize| z < y + 1 implies (queue@.contains(z) <==> indeg@[z as int]
                    == 0) by {
                    lemma_contains_push(qb, y, z);
                }
                assert forall|k: int, t: int|
                    #![trigger queue@[k], edges@[t]]
                    0 <= k < queue@.len() && 0 <= t < edges@.len() && edges@[t].1
                        == queue@[k] implies exists|k0: int|
                    0 <= k0 < k && #[trigger] queue@[k0] == edges@[t].0 by {
                    assert(indeg@[queue@[k] as int] == 0);
                    lemma_pending_zero(edges@, queue@[k], Seq::empty(), t);
                }
            }
        } else {
            proof {
                assert forall|z: usize| z < y + 1 implies (queue@.contains(z) <==> indeg@[z as int]
                    == 0) by {
                    if queue@.contains(z) {
                        let k = choose|k: int| 0 <= k < queue@.len() && queue@[k] == z;
                        assert(indeg@[queue@[k] as int] == 0);
                    }
                }
            }
        }
        y = y + 1;
    }
    assert(queue@.take(0) =~= Seq::<usize>::empty());
    let mut head: usize = 0;
    while head < queue.len()
        invariant
            head <= queue@.len(),
            indeg@.len() == n,
            edges_within(edges@, n as nat),
            distinct_below(queue@, n as nat),
            sources_precede(queue@, edges@),
            forall|z: usize| z < n ==> (queue@.contains(z) <==> indeg@[z as int] == 0),
            forall|z: usize|
                z < n ==> #[trigger] indeg@[z as int] == pending_into(
                    edges@,
                    z,
                    queue@.take(head as int),
                ),
        decreases n - head,
    {
        proof {
            lemma_distinct_below_count(queue@, n);
        }
        let x = queue[head];
        release_successors(x, n, edges, &mut indeg, &mut queue, head + 1);
        head = head + 1;
        proof {
            lemma_distinct_below_count(queue@, n);
        }
    }
    proof {
        assert(queue@.take(head as int) =~= queue@);
    }
    queue
}

/// The units of a list, each once, in the order of their first occurrence.
pub fn distinct_paths(units: &[String]) -> (r: Vec<String>)
    ensures
        all_distinct(paths_view(r@)),
        forall|u: Seq<char>| paths_view(r@).contains(u) <==> paths_view(units@).contains(u),
{
    let mut result: Vec<String> = Vec::new();
    let mut i: usize = 0;
    while i < units.len()
        invariant
            i <= units@.len(),
            all_distinct(paths_view(result@)),
            forall|u: Seq<char>|
                paths_view(result@).contains(u) <==> paths_view(units@.take(i as int)).contains(u),
        decreases units@.len() - i,
    {
        let ghost before = result@;
        proof {
            assert(paths_view(units@.take(i + 1)) =~= paths_view(units@.take(i as int)).push(
                units@[i as int]@,
            ));
        }
        let ghost v = units@[i as int]@;
        let ghost t = paths_view(units@.take(i as int));
        match index_of(result.as_slice(), &units[i]) {
            Some(k) => {
                proof {
                    assert(paths_view(result@)[k as int] == v);
                    assert forall|u: Seq<char>|
                        paths_view(result@).contains(u) <==> #[trigger] t.push(v).contains(u) by {
                        lemma_contains_push(t, v, u);
                    }
                }
            },
            None => {
                result.push(units[i].clone());
                proof {
                    assert(paths_view(result@) =~= paths_view(before).push(v));
                    assert forall|u: Seq<char>|
                        paths_view(result@).contains(u) <==> #[trigger] t.push(v).contains(u) by {
                        lemma_contains_push(t, v, u);
                        lemma_contains_push(paths_view(before), v, u);
                    }
                    assert forall|x: int, y: int|
                        0 <= x < y < paths_view(result@).len() implies paths_view(result@)[x]
                        != paths_view(result@)[y] by {
                        if y == paths_view(result@).len() - 1 {
                            assert(paths_view(before)[x] == paths_view(result@)[x]);
                            assert(paths_view(before).contains(paths_view(before)[x]));
                        }
                    }
                }
            },
        }
        i = i + 1;
    }
    proof {
        assert(units@.take(units@.len() as int) =~= units@);
    }
    result
}

/// Whether units depend on each other in a cycle depends only on which units
/// are listed, not on their order or repetition.
pub proof fn lemma_cycle_depends_on_members(
    a: Seq<Seq<char>>,
    b: Seq<Seq<char>>,
    deps: Map<Seq<char>, Seq<Seq<char>>>,
)
    requires
        forall|u: Seq<char>| a.contains(u) <==> b.contains(u),
    ensures
        has_dependency_cycle(a, deps) == has_dependency_cycle(b, deps),
{
    if has_dependency_cycle(a, deps) {
        let s = choose|s: Set<Seq<char>>| is_dependency_cycle(a, deps, s);
        assert forall|x: Seq<char>| #[trigger] s.contains(x) implies b.contains(x) by {
            assert(a.contains(x));
        }
        assert(is_dependency_cycle(b, deps, s));
    }
    if has_dependency_cycle(b, deps) {
        let s = choose|s: Set<Seq<char>>| is_dependency_cycle(b, deps, s);
        assert forall|x: Seq<char>| #[trigger] s.contains(x) implies a.contains(x) by {
            assert(b.contains(x));
        }
        assert(is_dependency_cycle(a, deps, s));
    }
}

} // verus!
