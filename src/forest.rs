use crate::graph::{edge_index, edges_within, find_edge, joins, Edge, EdgeWeight};
use vstd::prelude::*;

verus! {

/// Some edge of `f` joins `x` and `y`, in either direction.
pub open spec fn linked(f: Seq<Edge>, x: int, y: int) -> bool {
    exists|k: int| 0 <= k < f.len() && (joins(#[trigger] f[k], x, y) || joins(f[k], y, x))
}

/// `path` is a walk along edges of `f`.
pub open spec fn is_walk(f: Seq<Edge>, path: Seq<int>) -> bool {
    &&& path.len() >= 1
    &&& forall|i: int| 0 <= i < path.len() - 1 ==> linked(f, #[trigger] path[i], path[i + 1])
}

/// The edges of `f` connect `u` to `v`.
pub open spec fn connected(f: Seq<Edge>, u: int, v: int) -> bool {
    exists|path: Seq<int>| #[trigger] is_walk(f, path) && path[0] == u && path.last() == v
}

/// Each edge of `f` joins two rooms that the edges before it do not connect:
/// `f` has no cycle.
pub open spec fn acyclic(f: Seq<Edge>) -> bool {
    forall|k: int| 0 <= k < f.len() ==> !connected(f.take(k), (#[trigger] f[k]).a as int, f[k].b as int)
}

/// Edge `e` is one of `g`.
pub open spec fn in_graph(g: Seq<Edge>, e: Edge) -> bool {
    exists|j: int| 0 <= j < g.len() && #[trigger] g[j] == e
}

/// How many of the rooms `0..k` are the representative of their component.
pub open spec fn roots(labels: Seq<usize>, k: int) -> int
    decreases k,
{
    if k <= 0 {
        0
    } else {
        roots(labels, k - 1) + if labels[k - 1] == k - 1 { 1int } else { 0int }
    }
}

proof fn lemma_linked_connected(f: Seq<Edge>, x: int, y: int)
    requires
        linked(f, x, y),
    ensures
        connected(f, x, y),
{
    let p = seq![x, y];
    assert(is_walk(f, p)) by {
        assert forall|i: int| 0 <= i < p.len() - 1 implies linked(f, #[trigger] p[i], p[i + 1]) by {
            assert(i == 0);
        }
    }
}

proof fn lemma_connected_refl(f: Seq<Edge>, u: int)
    ensures
        connected(f, u, u),
{
    let p = seq![u];
    assert(is_walk(f, p));
}

proof fn lemma_connected_symm(f: Seq<Edge>, u: int, v: int)
    requires
        connected(f, u, v),
    ensures
        connected(f, v, u),
{
    let p = choose|p: Seq<int>| #[trigger] is_walk(f, p) && p[0] == u && p.last() == v;
    let n = p.len();
    let q = Seq::new(n, |i: int| p[n - 1 - i]);
    assert forall|i: int| 0 <= i < q.len() - 1 implies linked(f, #[trigger] q[i], q[i + 1]) by {
        let j = n - 2 - i;
        assert(linked(f, p[j], p[j + 1]));
        let k = choose|k: int| 0 <= k < f.len() && (joins(#[trigger] f[k], p[j], p[j + 1]) || joins(f[k], p[j + 1], p[j]));
        assert(joins(f[k], q[i], q[i + 1]) || joins(f[k], q[i + 1], q[i]));
    }
    assert(is_walk(f, q));
}

proof fn lemma_connected_trans(f: Seq<Edge>, u: int, v: int, w: int)
    requires
        connected(f, u, v),
        connected(f, v, w),
    ensures
        connected(f, u, w),
{
    let p = choose|p: Seq<int>| #[trigger] is_walk(f, p) && p[0] == u && p.last() == v;
    let q = choose|q: Seq<int>| #[trigger] is_walk(f, q) && q[0] == v && q.last() == w;
    let r = p + q.subrange(1, q.len() as int);
    assert forall|i: int| 0 <= i < r.len() - 1 implies linked(f, #[trigger] r[i], r[i + 1]) by {
        if i < p.len() - 1 {
            assert(r[i] == p[i] && r[i + 1] == p[i + 1]);
        } else {
            let j = i - p.len() + 1;
            assert(r[i] == q[j] && r[i + 1] == q[j + 1]);
        }
    }
    assert(is_walk(f, r));
    assert(r[0] == u);
    if q.len() == 1 {
        assert(r.last() == p.last());
    } else {
        assert(r.last() == q.last());
    }
}

/// What `f` connects, any longer sequence that starts with `f` connects too.
proof fn lemma_connected_grow(f: Seq<Edge>, g: Seq<Edge>, u: int, v: int)
    requires
        connected(f, u, v),
        f.len() <= g.len(),
        forall|k: int| 0 <= k < f.len() ==> f[k] == g[k],
    ensures
        connected(g, u, v),
{
    let p = choose|p: Seq<int>| #[trigger] is_walk(f, p) && p[0] == u && p.last() == v;
    assert forall|i: int| 0 <= i < p.len() - 1 implies linked(g, #[trigger] p[i], p[i + 1]) by {
        assert(linked(f, p[i], p[i + 1]));
        let k = choose|k: int| 0 <= k < f.len() && (joins(#[trigger] f[k], p[i], p[i + 1]) || joins(f[k], p[i + 1], p[i]));
        assert(g[k] == f[k]);
    }
    assert(is_walk(g, p));
}

/// Along a walk of edges whose ends share a label, the label stays the same.
proof fn lemma_walk_keeps_label(f: Seq<Edge>, labels: Seq<usize>, path: Seq<int>, i: int)
    requires
        is_walk(f, path),
        0 <= i < path.len(),
        0 <= path[0] < labels.len(),
        forall|k: int|
            0 <= k < f.len() ==> (#[trigger] f[k]).a < labels.len() && f[k].b < labels.len()
                && labels[f[k].a as int] == labels[f[k].b as int],
    ensures
        0 <= path[i] < labels.len(),
        labels[path[i]] == labels[path[0]],
    decreases i,
{
    if i > 0 {
        lemma_walk_keeps_label(f, labels, path, i - 1);
        assert(linked(f, path[i - 1], path[i]));
        let k = choose|k: int| 0 <= k < f.len() && (joins(#[trigger] f[k], path[i - 1], path[i]) || joins(f[k], path[i], path[i - 1]));
    }
}

proof fn lemma_connected_same_label(f: Seq<Edge>, labels: Seq<usize>, u: int, v: int)
    requires
        connected(f, u, v),
        0 <= u < labels.len(),
        forall|k: int|
            0 <= k < f.len() ==> (#[trigger] f[k]).a < labels.len() && f[k].b < labels.len()
                && labels[f[k].a as int] == labels[f[k].b as int],
    ensures
        labels[u] == labels[v],
{
    let p = choose|p: Seq<int>| #[trigger] is_walk(f, p) && p[0] == u && p.last() == v;
    lemma_walk_keeps_label(f, labels, p, p.len() - 1);
}

/// The labels after the component labelled `la` is merged into the one
/// labelled `lb`.
pub open spec fn merge_labels(labels: Seq<usize>, la: usize, lb: usize) -> Seq<usize> {
    Seq::new(labels.len(), |v: int| if labels[v] == la { lb } else { labels[v] })
}

/// Labels and chosen edges after edge `e` is offered: it is chosen, and its two
/// components merged, where its ends lie in different components.
pub open spec fn try_join(st: (Seq<usize>, Seq<Edge>), e: Edge) -> (Seq<usize>, Seq<Edge>) {
    let (labels, chosen) = st;
    if labels[e.a as int] != labels[e.b as int] {
        (merge_labels(labels, labels[e.a as int], labels[e.b as int]), chosen.push(e))
    } else {
        st
    }
}

/// Every room its own component, and no edge chosen.
pub open spec fn initial_forest(n: nat) -> (Seq<usize>, Seq<Edge>) {
    (Seq::new(n, |v: int| v as usize), Seq::empty())
}

/// The state after the first `k` proposed pairs are offered: a pair that is an
/// edge of `g` (either way round) offers that edge; any other pair is passed over.
pub open spec fn proposed_pass(g: Seq<Edge>, proposed: Seq<(usize, usize)>, st: (Seq<usize>, Seq<Edge>), k: int) -> (Seq<usize>, Seq<Edge>)
    decreases k,
{
    if k <= 0 {
        st
    } else {
        let prev = proposed_pass(g, proposed, st, k - 1);
        let (p, q) = proposed[k - 1];
        let lo = if p <= q { p as int } else { q as int };
        let hi = if p <= q { q as int } else { p as int };
        let j = edge_index(g, lo, hi);
        if j >= 0 { try_join(prev, g[j]) } else { prev }
    }
}

/// The state after the first `k` edges of `g` are offered.
pub open spec fn graph_pass(g: Seq<Edge>, st: (Seq<usize>, Seq<Edge>), k: int) -> (Seq<usize>, Seq<Edge>)
    decreases k,
{
    if k <= 0 {
        st
    } else {
        try_join(graph_pass(g, st, k - 1), g[k - 1])
    }
}

/// The spanning forest of the graph `g` on `n` rooms that is grown from the
/// `proposed` pairs first and completed from the edges of `g` in order: its
/// component labels and its edges.
pub open spec fn forest_of(n: nat, g: Seq<Edge>, proposed: Seq<(usize, usize)>) -> (Seq<usize>, Seq<Edge>) {
    graph_pass(g, proposed_pass(g, proposed, initial_forest(n), proposed.len() as int), g.len() as int)
}

/// What holds of the labels and chosen edges at every step: each label names a
/// representative room; chosen edges are edges of `g` within one component,
/// added without closing a cycle; the rooms of one component are connected by
/// them; and each edge chosen has merged two components into one.
#[verifier::opaque]
pub open spec fn forest_inv(n: int, g: Seq<Edge>, labels: Seq<usize>, chosen: Seq<Edge>) -> bool {
    &&& labels.len() == n
    &&& forall|v: int| 0 <= v < n ==> (#[trigger] labels[v]) < n && labels[labels[v] as int] == labels[v]
    &&& forall|k: int|
        0 <= k < chosen.len() ==> (#[trigger] chosen[k]).a < n && chosen[k].b < n
            && labels[chosen[k].a as int] == labels[chosen[k].b as int]
            && in_graph(g, chosen[k])
    &&& forall|u: int, v: int| 0 <= u < n && 0 <= v < n && #[trigger] labels[u] == #[trigger] labels[v] ==> connected(chosen, u, v)
    &&& chosen.len() + roots(labels, n) == n
    &&& acyclic(chosen)
}

proof fn lemma_initial(n: nat, g: Seq<Edge>)
    requires
        n <= usize::MAX,
    ensures
        forest_inv(n as int, g, initial_forest(n).0, initial_forest(n).1),
{
    reveal(forest_inv);
    let (labels, chosen) = initial_forest(n);
    assert forall|u: int, v: int| 0 <= u < n && 0 <= v < n && #[trigger] labels[u] == #[trigger] labels[v] implies connected(chosen, u, v) by {
        assert(labels[u] == u && labels[v] == v);
        lemma_connected_refl(chosen, u);
    }
    assert forall|v: int| 0 <= v < labels.len() implies #[trigger] labels[v] == v by {}
    lemma_roots_all(labels, n as int);
}

proof fn lemma_roots_all(labels: Seq<usize>, k: int)
    requires
        0 <= k <= labels.len(),
        forall|v: int| 0 <= v < labels.len() ==> #[trigger] labels[v] == v,
    ensures
        roots(labels, k) == k,
    decreases k,
{
    if k > 0 {
        lemma_roots_all(labels, k - 1);
    }
}

proof fn lemma_roots_merge(labels: Seq<usize>, merged: Seq<usize>, la: int, k: int)
    requires
        0 <= k <= labels.len(),
        merged.len() == labels.len(),
        0 <= la < labels.len(),
        labels[la] == la,
        forall|v: int| 0 <= v < labels.len() ==> ((#[trigger] merged[v] == v) <==> (labels[v] == v && v != la)),
    ensures
        roots(merged, k) == roots(labels, k) - if la < k { 1int } else { 0int },
    decreases k,
{
    if k > 0 {
        lemma_roots_merge(labels, merged, la, k - 1);
    }
}

proof fn lemma_join(n: int, g: Seq<Edge>, labels: Seq<usize>, chosen: Seq<Edge>, e: Edge)
    requires
        forest_inv(n, g, labels, chosen),
        in_graph(g, e),
        e.a < n,
        e.b < n,
    ensures
        forest_inv(n, g, try_join((labels, chosen), e).0, try_join((labels, chosen), e).1),
        try_join((labels, chosen), e).0.len() == n,
        forall|x: int, y: int|
            0 <= x < n && 0 <= y < n && labels[x] == labels[y] ==> try_join((labels, chosen), e).0[x]
                == try_join((labels, chosen), e).0[y],
        try_join((labels, chosen), e).0[e.a as int] == try_join((labels, chosen), e).0[e.b as int],
{
    reveal(forest_inv);
    let a = e.a as int;
    let b = e.b as int;
    if labels[a] != labels[b] {
        let la = labels[a];
        let lb = labels[b];
        let m = merge_labels(labels, la, lb);
        let f = chosen.push(e);
        assert(labels[la as int] == la);
        assert(labels[lb as int] == lb);
        // representatives
        assert forall|v: int| 0 <= v < n implies (#[trigger] m[v]) < n && m[m[v] as int] == m[v] by {
            assert(labels[v] < n && labels[labels[v] as int] == labels[v]);
        }
        // chosen edges
        assert forall|k: int| 0 <= k < f.len() implies (#[trigger] f[k]).a < n && f[k].b < n
            && m[f[k].a as int] == m[f[k].b as int] && in_graph(g, f[k]) by {
            if k < chosen.len() {
                assert(f[k] == chosen[k]);
                assert(labels[chosen[k].a as int] == labels[chosen[k].b as int]);
            }
        }
        // components are connected
        assert forall|u: int| 0 <= u < n && m[u] == lb implies connected(f, u, b) by {
            lemma_connected_grow(chosen, f, a, a);
            if labels[u] == la {
                assert(connected(chosen, u, a));
                lemma_connected_grow(chosen, f, u, a);
                assert(joins(f[chosen.len() as int], a, b));
                lemma_linked_connected(f, a, b);
                lemma_connected_trans(f, u, a, b);
            } else {
                assert(labels[u] == lb);
                assert(connected(chosen, u, b));
                lemma_connected_grow(chosen, f, u, b);
            }
        }
        assert forall|u: int, v: int| 0 <= u < n && 0 <= v < n && #[trigger] m[u] == #[trigger] m[v] implies connected(f, u, v) by {
            if m[u] == lb {
                assert(connected(f, u, b));
                assert(connected(f, v, b));
                lemma_connected_symm(f, v, b);
                lemma_connected_trans(f, u, b, v);
            } else {
                assert(labels[u] == m[u] && labels[v] == m[v]);
                assert(connected(chosen, u, v));
                lemma_connected_grow(chosen, f, u, v);
            }
        }
        // one component fewer
        assert forall|v: int| 0 <= v < labels.len() implies ((#[trigger] m[v] == v) <==> (labels[v] == v && v != la)) by {
            assert(labels[v] < n && labels[labels[v] as int] == labels[v]);
        }
        lemma_roots_merge(labels, m, la as int, n);
        // no cycle
        assert(!connected(chosen, a, b)) by {
            if connected(chosen, a, b) {
                lemma_connected_same_label(chosen, labels, a, b);
            }
        }
        assert forall|k: int| 0 <= k < f.len() implies !connected(f.take(k), (#[trigger] f[k]).a as int, f[k].b as int) by {
            if k < chosen.len() {
                assert(f.take(k) =~= chosen.take(k));
                assert(f[k] == chosen[k]);
            } else {
                assert(f.take(k) =~= chosen);
            }
        }
    }
}

/// `edges` is a spanning forest of the graph `g` on `n` rooms, and `component`
/// labels its components: every edge of it is an edge of `g`; it has no cycle;
/// each label names a representative room; two rooms share a label exactly when
/// `g` connects them (each edge of `g` lies within a label, and the forest
/// connects the rooms of a label); and it has `n` minus the number of
/// components edges.
pub open spec fn is_spanning_forest(n: int, g: Seq<Edge>, edges: Seq<Edge>, component: Seq<usize>) -> bool {
    &&& component.len() == n
    &&& forall|k: int| 0 <= k < edges.len() ==> in_graph(g, #[trigger] edges[k])
    &&& acyclic(edges)
    &&& forall|v: int| 0 <= v < n ==> (#[trigger] component[v]) < n && component[component[v] as int] == component[v]
    &&& forall|j: int| 0 <= j < g.len() ==> component[(#[trigger] g[j]).a as int] == component[g[j].b as int]
    &&& forall|u: int, v: int| 0 <= u < n && 0 <= v < n && #[trigger] component[u] == #[trigger] component[v] ==> connected(edges, u, v)
    &&& edges.len() == n - component_count(component)
}

/// The number of components: rooms that are their own label.
pub open spec fn component_count(component: Seq<usize>) -> int {
    roots(component, component.len() as int)
}

/// A spanning forest of a room graph, with a component label for each room.
pub struct SpanningForest {
    pub edges: Vec<Edge>,
    /// The representative room of each room's component.
    pub component: Vec<usize>,
}

/// Offers edge `e`: where its ends lie in different components, the edge is
/// chosen and the first component merged into the second.
fn join(labels: &mut Vec<usize>, chosen: &mut Vec<Edge>, e: Edge)
    requires
        e.a < old(labels)@.len(),
        e.b < old(labels)@.len(),
    ensures
        (final(labels)@, final(chosen)@) == try_join((old(labels)@, old(chosen)@), e),
{
    let la = labels[e.a];
    let lb = labels[e.b];
    if la != lb {
        let ghost before = labels@;
        let mut v: usize = 0;
        while v < labels.len()
            invariant
                labels@.len() == before.len(),
                v <= labels@.len(),
                forall|w: int| 0 <= w < v ==> #[trigger] labels@[w] == merge_labels(before, la, lb)[w],
                forall|w: int| v <= w < labels@.len() ==> #[trigger] labels@[w] == before[w],
            decreases labels@.len() - v,
        {
            if labels[v] == la {
                labels.set(v, lb);
            }
            v = v + 1;
        }
        assert(labels@ =~= merge_labels(before, la, lb));
        chosen.push(e);
    }
}

/// The spanning forest of the graph `g` on `node_count` rooms that is grown from
/// the `proposed` pairs first, each taken where it is an edge of `g` that joins
/// two components, and completed from the edges of `g` in order.
pub fn spanning_forest(node_count: usize, g: &Vec<Edge>, proposed: &Vec<(usize, usize)>) -> (r: SpanningForest)
    requires
        edges_within(node_count as int, g@),
    ensures
        (r.component@, r.edges@) == forest_of(node_count as nat, g@, proposed@),
        is_spanning_forest(node_count as int, g@, r.edges@, r.component@),
{
    let n = node_count;
    let ghost init = initial_forest(n as nat);
    let mut labels: Vec<usize> = Vec::new();
    let mut v: usize = 0;
    while v < n
        invariant
            v <= n,
            labels@ =~= init.0.take(v as int),
            init == initial_forest(n as nat),
        decreases n - v,
    {
        labels.push(v);
        v = v + 1;
    }
    assert(labels@ =~= init.0);
    let mut chosen: Vec<Edge> = Vec::new();
    proof {
        lemma_initial(n as nat, g@);
    }
    let mut i: usize = 0;
    while i < proposed.len()
        invariant
            edges_within(n as int, g@),
            i <= proposed@.len(),
            (labels@, chosen@) == proposed_pass(g@, proposed@, init, i as int),
            forest_inv(n as int, g@, labels@, chosen@),
            labels@.len() == n,
        decreases proposed@.len() - i,
    {
        let (p, q) = proposed[i];
        let lo = if p <= q { p } else { q };
        let hi = if p <= q { q } else { p };
        match find_edge(g, lo, hi) {
            Some(j) => {
                proof {
                    crate::graph::lemma_edge_index(g@, lo as int, hi as int);
                    assert(g@[j as int].a < n && g@[j as int].b < n);
                    lemma_join(n as int, g@, labels@, chosen@, g@[j as int]);
                }
                join(&mut labels, &mut chosen, g[j]);
            },
            None => {},
        }
        i = i + 1;
    }
    let ghost mid = (labels@, chosen@);
    let mut k: usize = 0;
    while k < g.len()
        invariant
            edges_within(n as int, g@),
            k <= g@.len(),
            (labels@, chosen@) == graph_pass(g@, mid, k as int),
            forest_inv(n as int, g@, labels@, chosen@),
            labels@.len() == n,
            forall|j: int| 0 <= j < k ==> labels@[(#[trigger] g@[j]).a as int] == labels@[g@[j].b as int],
        decreases g@.len() - k,
    {
        proof {
            assert(g@[k as int].a < n && g@[k as int].b < n);
            assert(in_graph(g@, g@[k as int]));
            lemma_join(n as int, g@, labels@, chosen@, g@[k as int]);
            let after = try_join((labels@, chosen@), g@[k as int]).0;
            assert forall|j: int| 0 <= j < k + 1 implies after[(#[trigger] g@[j]).a as int] == after[g@[j].b as int] by {
                if j < k {
                    assert(g@[j].a < n && g@[j].b < n);
                    assert(labels@[g@[j].a as int] == labels@[g@[j].b as int]);
                }
            }
        }
        join(&mut labels, &mut chosen, g[k]);
        k = k + 1;
    }
    proof {
        reveal(forest_inv);
    }
    SpanningForest { edges: chosen, component: labels }
}

/// The edges that Kruskal's algorithm in petgraph picks from the graph `edges`.
pub uninterp spec fn kruskal_of(edges: Seq<Edge>) -> Seq<(usize, usize)>;

/// Relies on `petgraph::algo::min_spanning_tree` over an `UnGraphMap` built
/// from `edges`, whose result depends on the edges alone. The edges it yields
/// name nodes by their position in the map's node order, which is mapped back
/// to the room positions.
#[verifier::external_body]
fn kruskal(edges: &Vec<Edge>) -> (r: Vec<(usize, usize)>)
    ensures
        r@ == kruskal_of(edges@),
{
    let g = petgraph::graphmap::UnGraphMap::<usize, EdgeWeight>::from_edges(
        edges.iter().map(|e| (e.a, e.b, e.weight)),
    );
    let ids: Vec<usize> = g.nodes().collect();
    petgraph::algo::min_spanning_tree(&g).filter_map(|el| match el {
        petgraph::data::Element::Edge { source, target, .. } => Some((ids[source], ids[target])),
        petgraph::data::Element::Node { .. } => None,
    }).collect()
}

/// The minimum spanning forest of the graph `g` on `node_count` rooms: the
/// forest that petgraph's Kruskal proposes, taken edge by edge where it joins
/// two components and completed from `g` wherever it would leave two rooms
/// apart that `g` connects.
pub fn minimum_spanning_forest(node_count: usize, g: &Vec<Edge>) -> (r: SpanningForest)
    requires
        edges_within(node_count as int, g@),
    ensures
        (r.component@, r.edges@) == forest_of(node_count as nat, g@, kruskal_of(g@)),
        is_spanning_forest(node_count as int, g@, r.edges@, r.component@),
{
    let proposed = kruskal(g);
    spanning_forest(node_count, g, &proposed)
}

} // verus!
