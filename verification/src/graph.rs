//! Ordering the nodes of a dependency graph, and finding a loop where no order
//! exists.
//!
//! A graph is given as one list per node: the nodes that this node reads and
//! that therefore have to come before it.

use crate::ports::views;
use vstd::prelude::*;
use vstd::set_lib::{lemma_int_range, lemma_len_subset, lemma_subset_equality, set_int_range};

verus! {

/// Every node that a list names is a node of the graph.
pub open spec fn in_range(deps: Seq<Seq<usize>>) -> bool {
    forall|v: int, k: int|
        0 <= v < deps.len() && 0 <= k < deps[v].len() ==> (#[trigger] deps[v][k]) < deps.len()
}

/// Node `v` reads node `u`.
pub open spec fn reads(deps: Seq<Seq<usize>>, v: usize, u: usize) -> bool {
    v < deps.len() && exists|k: int| 0 <= k < deps[v as int].len() && deps[v as int][k] == u
}

/// Each node on `path` reads the next, and the last reads the first.
pub open spec fn is_cycle(deps: Seq<Seq<usize>>, path: Seq<usize>) -> bool {
    &&& path.len() > 0
    &&& forall|k: int| 0 <= k < path.len() - 1 ==> reads(deps, #[trigger] path[k], path[k + 1])
    &&& reads(deps, path.last(), path[0])
}

/// Some nodes of the graph read each other in a circle.
pub open spec fn has_cycle(deps: Seq<Seq<usize>>) -> bool {
    exists|path: Seq<usize>| is_cycle(deps, path)
}

/// Node `u` stands in `order` at a place before `q`.
pub open spec fn appears_before(order: Seq<usize>, u: int, q: int) -> bool {
    exists|p: int| 0 <= p < q && p < order.len() && #[trigger] order[p] == u
}

/// The members of `order` are nodes of a graph of `n` nodes, and none of them
/// stands there twice.
pub open spec fn distinct_nodes(order: Seq<usize>, n: nat) -> bool {
    &&& forall|p: int| 0 <= p < order.len() ==> (#[trigger] order[p]) < n
    &&& forall|p: int, q: int| 0 <= p < q < order.len() ==> order[p] != order[q]
}

/// `order` holds each of the `n` nodes once.
pub open spec fn is_order(order: Seq<usize>, n: nat) -> bool {
    order.len() == n && distinct_nodes(order, n)
}

/// Every node in `order` stands behind all the nodes it reads.
pub open spec fn respects(deps: Seq<Seq<usize>>, order: Seq<usize>) -> bool {
    forall|q: int, k: int|
        0 <= q < order.len() && 0 <= k < deps[order[q] as int].len() ==> appears_before(
            order,
            (#[trigger] deps[order[q] as int][k]) as int,
            q,
        )
}

/// `order` holds each node of the graph once, behind all the nodes it reads.
pub open spec fn is_topological(deps: Seq<Seq<usize>>, order: Seq<usize>) -> bool {
    is_order(order, deps.len()) && respects(deps, order)
}

/// In `order`, the nodes that read nothing stand before all the others.
pub open spec fn sources_first(deps: Seq<Seq<usize>>, order: Seq<usize>) -> bool {
    forall|p: int, q: int|
        0 <= p < order.len() && 0 <= q < order.len() && deps[order[p] as int].len() > 0
            && deps[order[q] as int].len() == 0 ==> q < p
}

/// Node `v` stands in `order`.
pub open spec fn placed(order: Seq<usize>, v: int) -> bool {
    appears_before(order, v, order.len() as int)
}

/// Node `v` can be appended to `order`: it does not stand there, and all the
/// nodes it reads do.
pub open spec fn is_next(deps: Seq<Seq<usize>>, order: Seq<usize>, v: int) -> bool {
    !placed(order, v) && forall|k: int|
        0 <= k < deps[v].len() ==> placed(order, (#[trigger] deps[v][k]) as int)
}

/// The nodes among the first `upto` that read nothing, in rising order.
pub open spec fn sources_upto(deps: Seq<Seq<usize>>, upto: nat) -> Seq<usize>
    decreases upto,
{
    if upto == 0 {
        Seq::empty()
    } else {
        let before = sources_upto(deps, (upto - 1) as nat);
        if deps[upto - 1].len() == 0 {
            before.push((upto - 1) as usize)
        } else {
            before
        }
    }
}

/// `order` after the first `upto` nodes have had their turn in a sweep: each
/// node in turn is appended if it can be.
pub open spec fn swept_upto(deps: Seq<Seq<usize>>, order: Seq<usize>, upto: nat) -> Seq<usize>
    decreases upto,
{
    if upto == 0 {
        order
    } else {
        let before = swept_upto(deps, order, (upto - 1) as nat);
        if is_next(deps, before, upto - 1) {
            before.push((upto - 1) as usize)
        } else {
            before
        }
    }
}

/// `order` after one sweep over all the nodes.
pub open spec fn swept(deps: Seq<Seq<usize>>, order: Seq<usize>) -> Seq<usize> {
    swept_upto(deps, order, deps.len())
}

/// `order` after `rounds` sweeps.
pub open spec fn swept_times(deps: Seq<Seq<usize>>, order: Seq<usize>, rounds: nat) -> Seq<usize>
    decreases rounds,
{
    if rounds == 0 {
        order
    } else {
        swept(deps, swept_times(deps, order, (rounds - 1) as nat))
    }
}

/// The order that [`schedule`] gives to the nodes of a graph without cycles:
/// first the nodes that read nothing, in rising order; then, sweep after
/// sweep over the nodes in rising order, each node as soon as all the nodes
/// it reads stand in the order. As many sweeps as the graph has nodes place
/// every node that can be placed.
pub open spec fn schedule_of(deps: Seq<Seq<usize>>) -> Seq<usize> {
    swept_times(deps, sources_upto(deps, deps.len()), deps.len())
}

/// All the nodes that `v` reads are marked in `emitted`.
pub open spec fn is_ready(deps: Seq<Seq<usize>>, emitted: Seq<bool>, v: int) -> bool {
    forall|k: int| 0 <= k < deps[v].len() ==> emitted[#[trigger] deps[v][k] as int]
}

/// Every node that is not marked reads a node that is not marked.
pub open spec fn is_stuck(deps: Seq<Seq<usize>>, emitted: Seq<bool>) -> bool {
    forall|v: int| 0 <= v < deps.len() && !emitted[v] ==> !is_ready(deps, emitted, v)
}

/// The nodes in the first `k` places of `order`, as a set.
proof fn lemma_prefix_set(order: Seq<usize>, n: nat, k: int) -> (s: Set<int>)
    requires
        distinct_nodes(order, n),
        0 <= k <= order.len(),
    ensures
        s.finite(),
        s.len() == k,
        forall|v: int| s.contains(v) <==> exists|p: int| 0 <= p < k && #[trigger] order[p] == v,
        forall|v: int| s.contains(v) ==> 0 <= v < n,
    decreases k,
{
    if k == 0 {
        Set::empty()
    } else {
        let s0 = lemma_prefix_set(order, n, k - 1);
        let last = order[k - 1] as int;
        let s = s0.insert(last);
        assert forall|v: int| s.contains(v) implies exists|p: int|
            0 <= p < k && #[trigger] order[p] == v by {
            if v == last {
                assert(order[k - 1] == v);
            } else {
                let p = choose|p: int| 0 <= p < k - 1 && #[trigger] order[p] == v;
                assert(order[p] == v);
            }
        }
        s
    }
}

/// A list of distinct nodes is no longer than the graph has nodes, and it is
/// that long exactly when every node stands in it.
pub proof fn lemma_distinct_nodes_length(order: Seq<usize>, n: nat)
    requires
        distinct_nodes(order, n),
    ensures
        order.len() <= n,
        order.len() == n <==> forall|v: int|
            0 <= v < n ==> #[trigger] appears_before(order, v, order.len() as int),
{
    let s = lemma_prefix_set(order, n, order.len() as int);
    let full = set_int_range(0, n as int);
    lemma_int_range(0, n as int);
    assert(s.subset_of(full));
    lemma_len_subset(s, full);
    if order.len() == n {
        lemma_subset_equality(s, full);
        assert forall|v: int| 0 <= v < n implies #[trigger] appears_before(
            order,
            v,
            order.len() as int,
        ) by {
            assert(full.contains(v));
            assert(s.contains(v));
            let p = choose|p: int| 0 <= p < order.len() && #[trigger] order[p] == v;
            assert(order[p] == v);
        }
    }
    if forall|v: int| 0 <= v < n ==> #[trigger] appears_before(order, v, order.len() as int) {
        assert forall|v: int| full.contains(v) implies s.contains(v) by {
            assert(appears_before(order, v, order.len() as int));
            let p = choose|p: int|
                0 <= p < order.len() && p < order.len() && #[trigger] order[p] == v;
            assert(order[p] == v);
        }
        assert(s =~= full);
    }
}

/// Along a cycle, from its start to place `k`, the nodes stand in a
/// topological order each before the one it is read by.
proof fn lemma_cycle_descends(
    deps: Seq<Seq<usize>>,
    order: Seq<usize>,
    path: Seq<usize>,
    start: int,
    k: int,
) -> (at: int)
    requires
        is_topological(deps, order),
        is_cycle(deps, path),
        0 <= k < path.len(),
        0 <= start < order.len(),
        order[start] == path[0],
    ensures
        0 <= at <= start,
        order[at] == path[k],
        k > 0 ==> at < start,
    decreases k,
{
    if k == 0 {
        start
    } else {
        let prev = lemma_cycle_descends(deps, order, path, start, k - 1);
        let reader = path[k - 1];
        let read = path[k];
        assert(reads(deps, path[k - 1], path[k - 1 + 1]));
        let j = choose|j: int|
            0 <= j < deps[reader as int].len() && #[trigger] deps[reader as int][j] == read;
        assert(appears_before(order, deps[order[prev] as int][j] as int, prev));
        let at = choose|p: int| 0 <= p < prev && p < order.len() && #[trigger] order[p] == path[k];
        at
    }
}

/// A graph whose nodes can be put in a topological order has no cycle.
pub proof fn lemma_topological_order_excludes_cycles(deps: Seq<Seq<usize>>, order: Seq<usize>)
    requires
        is_topological(deps, order),
    ensures
        !has_cycle(deps),
{
    if has_cycle(deps) {
        let path = choose|path: Seq<usize>| is_cycle(deps, path);
        let last = path.len() - 1;
        assert(reads(deps, path.last(), path[0]));
        lemma_distinct_nodes_length(order, deps.len());
        assert(appears_before(order, path[0] as int, order.len() as int));
        let start = choose|p: int|
            0 <= p < order.len() && p < order.len() && #[trigger] order[p] == path[0];
        let at = lemma_cycle_descends(deps, order, path, start, last);
        let reader = path[last];
        let read = path[0];
        let j = choose|j: int|
            0 <= j < deps[reader as int].len() && #[trigger] deps[reader as int][j] == read;
        assert(appears_before(order, deps[order[at] as int][j] as int, at));
        let again = choose|p: int| 0 <= p < at && p < order.len() && #[trigger] order[p] == path[0];
        assert(order[again] == order[start]);
    }
}

/// Whether every node that a list names is a node of the graph.
pub fn is_in_range(deps: &Vec<Vec<usize>>) -> (r: bool)
    ensures
        r == in_range(views(deps@)),
{
    let ghost g = views(deps@);
    let mut v: usize = 0;
    while v < deps.len()
        invariant
            g == views(deps@),
            v <= deps@.len(),
            forall|u: int, k: int|
                0 <= u < v && 0 <= k < g[u].len() ==> (#[trigger] g[u][k]) < g.len(),
        decreases deps@.len() - v,
    {
        let mut k: usize = 0;
        while k < deps[v].len()
            invariant
                g == views(deps@),
                v < deps@.len(),
                k <= deps@[v as int]@.len(),
                forall|u: int, j: int|
                    0 <= u < v && 0 <= j < g[u].len() ==> (#[trigger] g[u][j]) < g.len(),
                forall|j: int| 0 <= j < k ==> (#[trigger] g[v as int][j]) < g.len(),
            decreases deps@[v as int]@.len() - k,
        {
            if deps[v][k] >= deps.len() {
                assert(g[v as int][k as int] >= g.len());
                return false;
            }
            k += 1;
        }
        v += 1;
    }
    true
}

/// Whether all the nodes that `v` reads are marked.
fn all_emitted(deps: &Vec<Vec<usize>>, emitted: &Vec<bool>, v: usize) -> (r: bool)
    requires
        in_range(views(deps@)),
        emitted@.len() == deps@.len(),
        v < deps@.len(),
    ensures
        r == is_ready(views(deps@), emitted@, v as int),
{
    let ghost g = views(deps@);
    let mut k: usize = 0;
    while k < deps[v].len()
        invariant
            g == views(deps@),
            in_range(g),
            emitted@.len() == deps@.len(),
            v < deps@.len(),
            k <= deps@[v as int]@.len(),
            forall|j: int| 0 <= j < k ==> emitted@[#[trigger] g[v as int][j] as int],
        decreases deps@[v as int]@.len() - k,
    {
        assert(g[v as int][k as int] < g.len());
        if !emitted[deps[v][k]] {
            return false;
        }
        k += 1;
    }
    true
}

/// A node that `v` reads and that is not marked.
fn pending_dep(deps: &Vec<Vec<usize>>, emitted: &Vec<bool>, v: usize) -> (u: usize)
    requires
        in_range(views(deps@)),
        emitted@.len() == deps@.len(),
        v < deps@.len(),
        !is_ready(views(deps@), emitted@, v as int),
    ensures
        u < deps@.len(),
        !emitted@[u as int],
        reads(views(deps@), v, u),
{
    let ghost g = views(deps@);
    let ghost w = choose|k: int| 0 <= k < g[v as int].len() && !emitted@[#[trigger] g[v as int][k] as int];
    let mut k: usize = 0;
    let len = deps[v].len();
    assert(g[v as int][w] < g.len());
    while emitted[deps[v][k]]
        invariant
            g == views(deps@),
            w < len,
            in_range(g),
            emitted@.len() == deps@.len(),
            v < deps@.len(),
            0 <= k <= w < g[v as int].len(),
            g[v as int].len() == deps@[v as int]@.len(),
            !emitted@[g[v as int][w] as int],
            g[v as int][k as int] < g.len(),
        decreases w - k,
    {
        assert(g[v as int][k as int] == deps@[v as int]@[k as int]);
        assert(emitted@[g[v as int][k as int] as int]);
        assert(k != w);
        k += 1;
        assert(g[v as int][k as int] < g.len());
    }
    deps[v][k]
}

/// `seen_at` tells for every node whether it is on `walk`, and where: a node
/// that is not holds the mark `n`.
#[verifier::opaque]
spec fn marks_walk(seen_at: Seq<usize>, walk: Seq<usize>, n: nat) -> bool {
    &&& seen_at.len() == n
    &&& distinct_nodes(walk, n)
    &&& forall|t: int| 0 <= t < walk.len() ==> seen_at[#[trigger] walk[t] as int] == t
    &&& forall|v: int|
        0 <= v < n && (#[trigger] seen_at[v]) < n ==> seen_at[v] < walk.len()
            && walk[seen_at[v] as int] == v
}

/// Each node on `walk` reads the next.
#[verifier::opaque]
spec fn is_chain(deps: Seq<Seq<usize>>, walk: Seq<usize>) -> bool {
    forall|t: int| 0 <= t < walk.len() - 1 ==> reads(deps, #[trigger] walk[t], walk[t + 1])
}

/// A walk can go on to a node that is not on it.
proof fn lemma_walk_on(
    deps: Seq<Seq<usize>>,
    seen_at: Seq<usize>,
    walk: Seq<usize>,
    cur: usize,
    n: nat,
)
    requires
        marks_walk(seen_at, walk, n),
        is_chain(deps, walk),
        cur < n,
        seen_at[cur as int] >= n,
        walk.len() > 0 ==> reads(deps, walk.last(), cur),
    ensures
        walk.len() < n,
        marks_walk(seen_at.update(cur as int, walk.len() as usize), walk.push(cur), n),
        is_chain(deps, walk.push(cur)),
{
    reveal(marks_walk);
    reveal(is_chain);
    let longer = walk.push(cur);
    assert(distinct_nodes(longer, n)) by {
        assert forall|p: int, q: int| 0 <= p < q < longer.len() implies longer[p] != longer[q] by {
            if q == walk.len() && longer[p] == cur {
                assert(seen_at[walk[p] as int] == p);
                lemma_distinct_nodes_length(walk, n);
            }
        }
    }
    lemma_distinct_nodes_length(longer, n);
    let marked = seen_at.update(cur as int, walk.len() as usize);
    assert forall|t: int| 0 <= t < longer.len() implies marked[#[trigger] longer[t] as int]
        == t by {
        if t < walk.len() {
            assert(seen_at[walk[t] as int] == t);
        }
    }
    assert forall|v: int| 0 <= v < n && (#[trigger] marked[v]) < n implies marked[v]
        < longer.len() && longer[marked[v] as int] == v by {
        if v != cur {
            assert(seen_at[v] < n);
        }
    }
    assert forall|t: int| 0 <= t < longer.len() - 1 implies reads(
        deps,
        #[trigger] longer[t],
        longer[t + 1],
    ) by {
        if t < walk.len() - 1 {
            assert(reads(deps, walk[t], walk[t + 1]));
        }
    }
}

/// A walk that comes to a node that is on it has gone round a cycle: the
/// part of the walk from that node on.
proof fn lemma_walk_closes(
    deps: Seq<Seq<usize>>,
    seen_at: Seq<usize>,
    walk: Seq<usize>,
    cur: usize,
    n: nat,
)
    requires
        marks_walk(seen_at, walk, n),
        is_chain(deps, walk),
        cur < n,
        seen_at[cur as int] < n,
        walk.len() > 0 ==> reads(deps, walk.last(), cur),
    ensures
        seen_at[cur as int] < walk.len(),
        is_cycle(deps, walk.subrange(seen_at[cur as int] as int, walk.len() as int)),
{
    reveal(marks_walk);
    reveal(is_chain);
    let first = seen_at[cur as int] as int;
    let cycle = walk.subrange(first, walk.len() as int);
    assert(walk[first] == cur);
    assert forall|k: int| 0 <= k < cycle.len() - 1 implies reads(
        deps,
        #[trigger] cycle[k],
        cycle[k + 1],
    ) by {
        assert(reads(deps, walk[first + k], walk[first + k + 1]));
    }
    assert(cycle.last() == walk.last());
    assert(cycle[0] == cur);
}

/// A cycle among the nodes that are not marked, found by walking from
/// `start` to a node that it reads, and on, until a node comes up again.
fn find_cycle(deps: &Vec<Vec<usize>>, emitted: &Vec<bool>, start: usize) -> (cycle: Vec<usize>)
    requires
        in_range(views(deps@)),
        emitted@.len() == deps@.len(),
        start < deps@.len(),
        !emitted@[start as int],
        is_stuck(views(deps@), emitted@),
    ensures
        is_cycle(views(deps@), cycle@),
{
    let ghost g = views(deps@);
    let n = deps.len();
    let mut seen_at: Vec<usize> = Vec::new();
    let mut i: usize = 0;
    while i < n
        invariant
            i <= n,
            seen_at@.len() == i,
            forall|v: int| 0 <= v < i ==> seen_at@[v] == n,
        decreases n - i,
    {
        seen_at.push(n);
        i += 1;
    }
    let mut walk: Vec<usize> = Vec::new();
    let mut cur: usize = start;
    proof {
        reveal(marks_walk);
        reveal(is_chain);
    }
    while seen_at[cur] >= n
        invariant
            g == views(deps@),
            n == deps@.len(),
            in_range(g),
            emitted@.len() == n,
            is_stuck(g, emitted@),
            seen_at@.len() == n,
            cur < n,
            !emitted@[cur as int],
            walk@.len() <= n,
            marks_walk(seen_at@, walk@, n as nat),
            is_chain(g, walk@),
            walk@.len() > 0 ==> reads(g, walk@.last(), cur),
        decreases n - walk@.len(),
    {
        proof {
            lemma_walk_on(g, seen_at@, walk@, cur, n as nat);
        }
        seen_at.set(cur, walk.len());
        walk.push(cur);
        cur = pending_dep(deps, emitted, cur);
    }
    proof {
        lemma_walk_closes(g, seen_at@, walk@, cur, n as nat);
    }
    let first = seen_at[cur];
    let mut cycle: Vec<usize> = Vec::new();
    let mut t: usize = first;
    while t < walk.len()
        invariant
            first <= t <= walk@.len(),
            cycle@.len() == t - first,
            forall|j: int| 0 <= j < cycle@.len() ==> cycle@[j] == walk@[first + j],
        decreases walk@.len() - t,
    {
        cycle.push(walk[t]);
        t += 1;
    }
    assert(cycle@ =~= walk@.subrange(first as int, walk@.len() as int));
    cycle
}

/// What holds while an order is being built: `order` holds the marked nodes,
/// each once and behind the nodes it reads.
pub open spec fn is_partial(deps: Seq<Seq<usize>>, emitted: Seq<bool>, order: Seq<usize>) -> bool {
    &&& in_range(deps)
    &&& emitted.len() == deps.len()
    &&& distinct_nodes(order, deps.len())
    &&& respects(deps, order)
    &&& forall|u: int|
        0 <= u < deps.len() ==> (#[trigger] appears_before(order, u, order.len() as int)
            <==> emitted[u])
}

/// An unmarked node whose reads are all marked can be appended and marked.
proof fn lemma_emit(deps: Seq<Seq<usize>>, emitted: Seq<bool>, order: Seq<usize>, v: usize)
    requires
        is_partial(deps, emitted, order),
        v < deps.len(),
        !emitted[v as int],
        is_ready(deps, emitted, v as int),
    ensures
        is_partial(deps, emitted.update(v as int, true), order.push(v)),
{
    let longer = order.push(v);
    let marked = emitted.update(v as int, true);
    assert(longer[order.len() as int] == v);
    assert forall|p: int, q: int| 0 <= p < q < longer.len() implies longer[p] != longer[q] by {
        if q == order.len() && longer[p] == v {
            assert(order[p] == v);
            assert(appears_before(order, v as int, order.len() as int));
        }
    }
    assert forall|q: int, k: int|
        0 <= q < longer.len() && 0 <= k < deps[longer[q] as int].len() implies appears_before(
        longer,
        (#[trigger] deps[longer[q] as int][k]) as int,
        q,
    ) by {
        let u = deps[longer[q] as int][k] as int;
        if q < order.len() {
            assert(appears_before(order, deps[order[q] as int][k] as int, q));
            let p = choose|p: int| 0 <= p < q && p < order.len() && #[trigger] order[p] == u;
            assert(longer[p] == u);
        } else {
            assert(emitted[deps[v as int][k] as int]);
            assert(appears_before(order, u, order.len() as int));
            let p = choose|p: int|
                0 <= p < order.len() && p < order.len() && #[trigger] order[p] == u;
            assert(longer[p] == u);
        }
    }
    assert forall|u: int| 0 <= u < deps.len() implies (#[trigger] appears_before(
        longer,
        u,
        longer.len() as int,
    ) <==> marked[u]) by {
        if appears_before(order, u, order.len() as int) {
            let p = choose|p: int|
                0 <= p < order.len() && p < order.len() && #[trigger] order[p] == u;
            assert(longer[p] == u);
        }
        if appears_before(longer, u, longer.len() as int) && u != v {
            let p = choose|p: int|
                0 <= p < longer.len() && p < longer.len() && #[trigger] longer[p] == u;
            assert(order[p] == u);
        }
    }
}

/// While an order is being built, the nodes that can be appended are the
/// unmarked nodes whose reads are all marked.
proof fn lemma_next_is_ready(deps: Seq<Seq<usize>>, emitted: Seq<bool>, order: Seq<usize>, v: int)
    requires
        is_partial(deps, emitted, order),
        0 <= v < deps.len(),
    ensures
        is_next(deps, order, v) <==> !emitted[v] && is_ready(deps, emitted, v),
{
    assert(placed(order, v) <==> emitted[v]);
    if is_next(deps, order, v) {
        assert forall|k: int| 0 <= k < deps[v].len() implies emitted[#[trigger] deps[v][k] as int] by {
            assert(placed(order, deps[v][k] as int));
        }
    }
    if !emitted[v] && is_ready(deps, emitted, v) {
        assert forall|k: int| 0 <= k < deps[v].len() implies placed(
            order,
            (#[trigger] deps[v][k]) as int,
        ) by {
            assert(emitted[deps[v][k] as int]);
        }
    }
}

/// A sweep that appends nothing would append nothing again, however often
/// it is repeated.
proof fn lemma_swept_times_stable(deps: Seq<Seq<usize>>, start: Seq<usize>, done: nat, rounds: nat)
    requires
        done <= rounds,
        swept(deps, swept_times(deps, start, done)) == swept_times(deps, start, done),
    ensures
        swept_times(deps, start, rounds) == swept_times(deps, start, done),
    decreases rounds,
{
    if done < rounds {
        lemma_swept_times_stable(deps, start, done, (rounds - 1) as nat);
    }
}

/// One pass over the nodes: every unmarked node whose reads are all marked
/// is appended to `order` and marked. Tells whether any node was.
fn sweep(deps: &Vec<Vec<usize>>, emitted: &mut Vec<bool>, order: &mut Vec<usize>) -> (progress:
    bool)
    requires
        is_partial(views(deps@), old(emitted)@, old(order)@),
        forall|u: int|
            0 <= u < deps@.len() && (#[trigger] views(deps@)[u]).len() == 0 ==> old(emitted)@[u],
    ensures
        is_partial(views(deps@), final(emitted)@, final(order)@),
        forall|u: int| 0 <= u < deps@.len() && old(emitted)@[u] ==> final(emitted)@[u],
        old(order)@.len() <= final(order)@.len(),
        forall|p: int| 0 <= p < old(order)@.len() ==> final(order)@[p] == old(order)@[p],
        forall|p: int|
            old(order)@.len() <= p < final(order)@.len() ==> views(
                deps@,
            )[#[trigger] final(order)@[p] as int].len() > 0,
        progress <==> final(order)@.len() > old(order)@.len(),
        !progress ==> is_stuck(views(deps@), final(emitted)@),
        final(order)@ == swept(views(deps@), old(order)@),
{
    let ghost g = views(deps@);
    let ghost start_order = order@;
    let ghost start_emitted = emitted@;
    let n = deps.len();
    let mut progress = false;
    let mut v: usize = 0;
    while v < n
        invariant
            g == views(deps@),
            n == deps@.len(),
            v <= n,
            is_partial(g, emitted@, order@),
            forall|u: int| 0 <= u < n && start_emitted[u] ==> emitted@[u],
            start_order.len() <= order@.len(),
            forall|p: int| 0 <= p < start_order.len() ==> order@[p] == start_order[p],
            forall|u: int| 0 <= u < n && (#[trigger] g[u]).len() == 0 ==> start_emitted[u],
            forall|p: int|
                start_order.len() <= p < order@.len() ==> g[#[trigger] order@[p] as int].len() > 0,
            progress <==> order@.len() > start_order.len(),
            order@ == swept_upto(g, start_order, v as nat),
            !progress ==> emitted@ == start_emitted,
            !progress ==> forall|u: int|
                0 <= u < v && !emitted@[u] ==> !is_ready(g, emitted@, u),
        decreases n - v,
    {
        proof {
            lemma_next_is_ready(g, emitted@, order@, v as int);
        }
        if !emitted[v] && all_emitted(deps, emitted, v) {
            proof {
                lemma_emit(g, emitted@, order@, v);
                assert(g[v as int].len() > 0);
            }
            emitted.set(v, true);
            order.push(v);
            progress = true;
        }
        v += 1;
    }
    progress
}

/// Puts the nodes of a graph in an order in which every node stands behind
/// the nodes it reads, the nodes that read nothing first. Where the graph has
/// no such order, the result is a cycle of the graph instead.
pub fn schedule(deps: &Vec<Vec<usize>>) -> (r: Result<Vec<usize>, Vec<usize>>)
    requires
        in_range(views(deps@)),
    ensures
        match r {
            Ok(order) => {
                &&& order@ == schedule_of(views(deps@))
                &&& is_topological(views(deps@), order@)
                &&& sources_first(views(deps@), order@)
            },
            Err(cycle) => is_cycle(views(deps@), cycle@),
        },
        r is Ok <==> !has_cycle(views(deps@)),
{
    let ghost g = views(deps@);
    let n = deps.len();
    let mut emitted: Vec<bool> = Vec::new();
    let mut order: Vec<usize> = Vec::new();
    let mut v: usize = 0;
    while v < n
        invariant
            v <= n,
            emitted@.len() == v,
            forall|u: int| 0 <= u < v ==> !emitted@[u],
        decreases n - v,
    {
        emitted.push(false);
        v += 1;
    }
    assert(is_partial(g, emitted@, order@));
    let mut v: usize = 0;
    while v < n
        invariant
            g == views(deps@),
            n == deps@.len(),
            v <= n,
            is_partial(g, emitted@, order@),
            forall|u: int| 0 <= u < v && (#[trigger] g[u]).len() == 0 ==> emitted@[u],
            forall|u: int| v <= u < n ==> !emitted@[u],
            forall|p: int| 0 <= p < order@.len() ==> g[#[trigger] order@[p] as int].len() == 0,
            order@ == sources_upto(g, v as nat),
        decreases n - v,
    {
        if deps[v].len() == 0 {
            proof {
                lemma_emit(g, emitted@, order@, v);
            }
            emitted.set(v, true);
            order.push(v);
        }
        v += 1;
    }
    let ghost sources = order@.len();
    let ghost first = order@;
    let ghost mut done: nat = 0;
    let mut progress = true;
    while progress
        invariant
            g == views(deps@),
            n == deps@.len(),
            first == sources_upto(g, n as nat),
            order@ == swept_times(g, first, done),
            done <= order@.len(),
            !progress ==> swept(g, order@) == order@,
            is_partial(g, emitted@, order@),
            forall|u: int| 0 <= u < n && (#[trigger] g[u]).len() == 0 ==> emitted@[u],
            sources <= order@.len(),
            forall|p: int| 0 <= p < sources ==> g[#[trigger] order@[p] as int].len() == 0,
            forall|p: int| sources <= p < order@.len() ==> g[#[trigger] order@[p] as int].len() > 0,
            !progress ==> is_stuck(g, emitted@),
        decreases n - order@.len(), if progress { 1int } else { 0int },
    {
        proof {
            lemma_distinct_nodes_length(order@, n as nat);
        }
        let ghost before = order@;
        progress = sweep(deps, &mut emitted, &mut order);
        proof {
            lemma_distinct_nodes_length(order@, n as nat);
            if progress {
                done = done + 1;
            } else {
                assert(order@ =~= before);
            }
        }
    }
    let mut v: usize = 0;
    while v < n
        invariant
            g == views(deps@),
            n == deps@.len(),
            v <= n,
            is_partial(g, emitted@, order@),
            is_stuck(g, emitted@),
            forall|u: int| 0 <= u < v ==> emitted@[u],
        decreases n - v,
    {
        if !emitted[v] {
            let cycle = find_cycle(deps, &emitted, v);
            return Err(cycle);
        }
        v += 1;
    }
    proof {
        lemma_distinct_nodes_length(order@, n as nat);
        lemma_swept_times_stable(g, first, done, n as nat);
        assert forall|u: int| 0 <= u < n implies #[trigger] appears_before(
            order@,
            u,
            order@.len() as int,
        ) by {
            assert(emitted@[u]);
        }
        lemma_distinct_nodes_length(order@, n as nat);
        lemma_topological_order_excludes_cycles(g, order@);
    }
    Ok(order)
}

} // verus!
