use crate::room::{adjacent, center_of, Room};
use vstd::prelude::*;

verus! {

/// The twin of a half-edge on the hull of a triangulation: there is none.
pub const NO_TWIN: usize = usize::MAX;

/// What an edge of the room graph weighs. `Adjacent` orders before every
/// `Weighted`; weighted edges order by distance from the spine, then by length.
#[derive(Clone, Copy, Debug, PartialEq, Eq, Structural, PartialOrd, Ord)]
pub enum EdgeWeight {
    /// The two rooms share a wall longer than one cell.
    Adjacent,
    /// A triangulation edge: the sum of the two centres' distances from the
    /// spine, and the squared distance between the centres.
    Weighted(u64, u128),
}

/// An undirected edge between rooms `a < b`, by their positions in the layout.
#[derive(Clone, Copy, Debug, PartialEq, Eq, Structural)]
pub struct Edge {
    pub a: usize,
    pub b: usize,
    pub weight: EdgeWeight,
}

pub open spec fn abs_int(v: int) -> int {
    if v >= 0 { v } else { -v }
}

/// The weight of the triangulation edge between rooms `p` and `q`.
pub open spec fn weight_between(rooms: Seq<Room>, p: int, q: int) -> EdgeWeight {
    let (px, py) = center_of(rooms[p]);
    let (qx, qy) = center_of(rooms[q]);
    EdgeWeight::Weighted(
        (abs_int(py as int) + abs_int(qy as int)) as u64,
        ((px - qx) * (px - qx) + (py - qy) * (py - qy)) as u128,
    )
}

/// The first position in `es` of an edge between `lo` and `hi`, or -1.
pub open spec fn edge_index(es: Seq<Edge>, lo: int, hi: int) -> int
    decreases es.len(),
{
    if es.len() == 0 {
        -1
    } else {
        let k = edge_index(es.drop_last(), lo, hi);
        if k >= 0 {
            k
        } else if es.last().a == lo && es.last().b == hi {
            es.len() - 1
        } else {
            -1
        }
    }
}

/// `es` with the edge between `p` and `q` set to weigh `w`: its weight replaced
/// where the edge is there, appended otherwise.
pub open spec fn with_edge(es: Seq<Edge>, p: int, q: int, w: EdgeWeight) -> Seq<Edge> {
    let lo = if p <= q { p } else { q };
    let hi = if p <= q { q } else { p };
    let e = Edge { a: lo as usize, b: hi as usize, weight: w };
    let k = edge_index(es, lo, hi);
    if k >= 0 { es.update(k, e) } else { es.push(e) }
}

/// The half-edge after `e` in its triangle.
pub open spec fn next_halfedge(e: int) -> int {
    if e % 3 == 2 { e - 2 } else { e + 1 }
}

/// The edges that half-edges `0..k` of a triangulation of the centres of `rooms`
/// contribute to `acc`. A half-edge is taken where its twin is absent or comes
/// before it, so that each triangulation edge is taken once; one that leads out
/// of the triangulation or back to its own room adds nothing.
pub open spec fn tri_edges(rooms: Seq<Room>, t: Seq<usize>, h: Seq<usize>, k: int) -> Seq<Edge>
    decreases k,
{
    if k <= 0 {
        Seq::empty()
    } else {
        let acc = tri_edges(rooms, t, h, k - 1);
        let e = k - 1;
        let nx = next_halfedge(e);
        let take = (h[e] == NO_TWIN || e > h[e]) && nx < t.len() && t[e] < rooms.len() && t[nx]
            < rooms.len() && t[e] != t[nx];
        if take {
            with_edge(acc, t[e] as int, t[nx] as int, weight_between(rooms, t[e] as int, t[nx] as int))
        } else {
            acc
        }
    }
}

/// `acc` with an `Adjacent` edge from room `i` to each room `j` in `i+1..k` that
/// is adjacent to it.
pub open spec fn adjacency_row(rooms: Seq<Room>, acc: Seq<Edge>, i: int, k: int) -> Seq<Edge>
    decreases k - i,
{
    if k <= i + 1 {
        acc
    } else {
        let prev = adjacency_row(rooms, acc, i, k - 1);
        if adjacent(rooms[i], rooms[k - 1]) {
            with_edge(prev, i, k - 1, EdgeWeight::Adjacent)
        } else {
            prev
        }
    }
}

/// `acc` with the adjacency edges of rooms `0..k` to every later room.
pub open spec fn adjacency_edges(rooms: Seq<Room>, acc: Seq<Edge>, k: int) -> Seq<Edge>
    decreases k,
{
    if k <= 0 {
        acc
    } else {
        adjacency_row(rooms, adjacency_edges(rooms, acc, k - 1), k - 1, rooms.len() as int)
    }
}

/// The centre of each room.
pub open spec fn centers(rooms: Seq<Room>) -> Seq<(i32, i32)> {
    rooms.map_values(|r: Room| center_of(r))
}

/// The room graph of a layout: nothing for fewer than two rooms; else the
/// triangulation edges (the one edge for two rooms) overlaid with the
/// adjacency edges.
pub open spec fn graph_of(rooms: Seq<Room>) -> Seq<Edge> {
    if rooms.len() < 2 {
        Seq::empty()
    } else {
        let base = if rooms.len() == 2 {
            with_edge(Seq::empty(), 0, 1, weight_between(rooms, 0, 1))
        } else {
            let (t, h) = delaunay_of(centers(rooms));
            tri_edges(rooms, t, h, min_len(t, h))
        };
        adjacency_edges(rooms, base, rooms.len() as int)
    }
}

pub open spec fn min_len(t: Seq<usize>, h: Seq<usize>) -> int {
    if t.len() <= h.len() { t.len() as int } else { h.len() as int }
}

/// Every edge joins two distinct rooms of `0..n`, lower position first.
pub open spec fn edges_within(n: int, es: Seq<Edge>) -> bool {
    forall|k: int| 0 <= k < es.len() ==> #[trigger] es[k].a < es[k].b && es[k].b < n
}

/// The triangles and half-edge twins of the Delaunay triangulation of `points`.
pub uninterp spec fn delaunay_of(points: Seq<(i32, i32)>) -> (Seq<usize>, Seq<usize>);

/// Relies on `delaunator::triangulate`, which depends on the points alone: its
/// `triangles` (three point indices per triangle) and `halfedges` (the twin of
/// each half-edge, or `delaunator::EMPTY`, which is `usize::MAX`).
#[verifier::external_body]
fn delaunay(points: &Vec<(i32, i32)>) -> (r: (Vec<usize>, Vec<usize>))
    ensures
        (r.0@, r.1@) == delaunay_of(points@),
{
    let pts: Vec<delaunator::Point> = points.iter().map(
        |p| delaunator::Point { x: p.0.into(), y: p.1.into() },
    ).collect();
    let t = delaunator::triangulate(&pts);
    (t.triangles, t.halfedges)
}

/// Edge `e` runs from `lo` to `hi`.
pub open spec fn joins(e: Edge, lo: int, hi: int) -> bool {
    e.a == lo && e.b == hi
}

pub(crate) proof fn lemma_edge_index(es: Seq<Edge>, lo: int, hi: int)
    ensures
        -1 <= edge_index(es, lo, hi) < es.len(),
        edge_index(es, lo, hi) >= 0 ==> joins(es[edge_index(es, lo, hi)], lo, hi),
        edge_index(es, lo, hi) < 0 ==> forall|k: int| 0 <= k < es.len() ==> !joins(#[trigger] es[k], lo, hi),
        forall|k: int| 0 <= k < edge_index(es, lo, hi) ==> !joins(#[trigger] es[k], lo, hi),
    decreases es.len(),
{
    if es.len() > 0 {
        let d = es.drop_last();
        lemma_edge_index(d, lo, hi);
        assert forall|j: int| 0 <= j < d.len() implies #[trigger] es[j] == d[j] by {}
        assert(es.last() == es[es.len() - 1]);
    }
}

proof fn lemma_with_edge_within(n: int, es: Seq<Edge>, p: int, q: int, w: EdgeWeight)
    requires
        edges_within(n, es),
        n <= usize::MAX,
        0 <= p < n,
        0 <= q < n,
        p != q,
    ensures
        edges_within(n, with_edge(es, p, q, w)),
        with_edge(es, p, q, w).len() <= es.len() + 1,
{
    lemma_edge_index(es, if p <= q { p } else { q }, if p <= q { q } else { p });
    let out = with_edge(es, p, q, w);
    assert forall|k: int| 0 <= k < out.len() implies #[trigger] out[k].a < out[k].b && out[k].b < n by {
        if k < es.len() {
            assert(es[k].a < es[k].b && es[k].b < n);
        }
    }
}

/// The position in `es` of the first edge from `lo` to `hi`, if there is one.
pub fn find_edge(es: &Vec<Edge>, lo: usize, hi: usize) -> (r: Option<usize>)
    ensures
        match r {
            Some(k) => k as int == edge_index(es@, lo as int, hi as int),
            None => edge_index(es@, lo as int, hi as int) < 0,
        },
{
    proof {
        lemma_edge_index(es@, lo as int, hi as int);
    }
    let mut i: usize = 0;
    while i < es.len()
        invariant
            i <= es@.len(),
            -1 <= edge_index(es@, lo as int, hi as int) < es@.len(),
            edge_index(es@, lo as int, hi as int) >= 0 ==> edge_index(es@, lo as int, hi as int) >= i,
            forall|k: int| 0 <= k < edge_index(es@, lo as int, hi as int) ==> !joins(#[trigger] es@[k], lo as int, hi as int),
            edge_index(es@, lo as int, hi as int) >= 0 ==> joins(es@[edge_index(es@, lo as int, hi as int)], lo as int, hi as int),
            edge_index(es@, lo as int, hi as int) < 0 ==> forall|k: int| 0 <= k < es@.len() ==> !joins(#[trigger] es@[k], lo as int, hi as int),
        decreases es@.len() - i,
    {
        if es[i].a == lo && es[i].b == hi {
            assert(joins(es@[i as int], lo as int, hi as int));
            return Some(i);
        }
        i = i + 1;
    }
    None
}

/// Sets the edge between rooms `p` and `q` to weigh `w`: its weight is
/// replaced where the edge is there, and it is appended otherwise.
pub fn set_edge(es: &mut Vec<Edge>, p: usize, q: usize, w: EdgeWeight)
    ensures
        final(es)@ == with_edge(old(es)@, p as int, q as int, w),
{
    let lo = if p <= q { p } else { q };
    let hi = if p <= q { q } else { p };
    let k = find_edge(es, lo, hi);
    let e = Edge { a: lo, b: hi, weight: w };
    proof {
        lemma_edge_index(old(es)@, lo as int, hi as int);
    }
    match k {
        Some(k) => {
            es.set(k, e);
        },
        None => {
            es.push(e);
        },
    }
}

/// The weight of the triangulation edge between rooms `p` and `q`.
pub fn weight_of(rooms: &Vec<Room>, p: usize, q: usize) -> (w: EdgeWeight)
    requires
        p < rooms@.len(),
        q < rooms@.len(),
    ensures
        w == weight_between(rooms@, p as int, q as int),
{
    let (px, py) = rooms[p].center();
    let (qx, qy) = rooms[q].center();
    let ay: u64 = if py >= 0 { py as u64 } else { (-(py as i64)) as u64 };
    let by: u64 = if qy >= 0 { qy as u64 } else { (-(qy as i64)) as u64 };
    let dx: i128 = px as i128 - qx as i128;
    let dy: i128 = py as i128 - qy as i128;
    assert(0 <= dx * dx <= 0x1_0000_0000_0000_0000) by (nonlinear_arith)
        requires -0x1_0000_0000 <= dx <= 0x1_0000_0000;
    assert(0 <= dy * dy <= 0x1_0000_0000_0000_0000) by (nonlinear_arith)
        requires -0x1_0000_0000 <= dy <= 0x1_0000_0000;
    EdgeWeight::Weighted(ay + by, (dx * dx + dy * dy) as u128)
}

/// The room graph edges of a triangulation of the room centres, given by its
/// `triangles` (three room positions per triangle) and `halfedges` (the twin of
/// each half-edge, or `NO_TWIN`): one `Weighted` edge per triangulation edge.
pub fn triangulation_edges(rooms: &Vec<Room>, triangles: &Vec<usize>, halfedges: &Vec<usize>) -> (es: Vec<Edge>)
    ensures
        es@ == tri_edges(rooms@, triangles@, halfedges@, min_len(triangles@, halfedges@)),
        edges_within(rooms@.len() as int, es@),
{
    let n = rooms.len();
    let m = if triangles.len() <= halfedges.len() { triangles.len() } else { halfedges.len() };
    let mut es: Vec<Edge> = Vec::new();
    let mut e: usize = 0;
    while e < m
        invariant
            n == rooms@.len(),
            m == min_len(triangles@, halfedges@),
            e <= m,
            es@ == tri_edges(rooms@, triangles@, halfedges@, e as int),
            edges_within(n as int, es@),
        decreases m - e,
    {
        let nx = if e % 3 == 2 { e - 2 } else { e + 1 };
        let twin = halfedges[e];
        if (twin == NO_TWIN || e > twin) && nx < triangles.len() && triangles[e] < n
            && triangles[nx] < n && triangles[e] != triangles[nx] {
            let w = weight_of(rooms, triangles[e], triangles[nx]);
            proof {
                lemma_with_edge_within(n as int, es@, triangles@[e as int] as int, triangles@[nx as int] as int, w);
            }
            set_edge(&mut es, triangles[e], triangles[nx], w);
        }
        e = e + 1;
    }
    es
}

/// Adds an `Adjacent` edge between every two rooms where one touches the other
/// grown by one cell in more than one cell, replacing the weight of an edge
/// already there.
pub fn add_adjacency_edges(rooms: &Vec<Room>, es: &mut Vec<Edge>)
    requires
        edges_within(rooms@.len() as int, old(es)@),
    ensures
        final(es)@ == adjacency_edges(rooms@, old(es)@, rooms@.len() as int),
        edges_within(rooms@.len() as int, final(es)@),
{
    let n = rooms.len();
    let mut i: usize = 0;
    while i < n
        invariant
            n == rooms@.len(),
            i <= n,
            es@ == adjacency_edges(rooms@, old(es)@, i as int),
            edges_within(n as int, es@),
        decreases n - i,
    {
        let ghost row_start = es@;
        let mut j: usize = i + 1;
        while j < n
            invariant
                n == rooms@.len(),
                i < n,
                i + 1 <= j <= n,
                es@ == adjacency_row(rooms@, row_start, i as int, j as int),
                edges_within(n as int, es@),
            decreases n - j,
        {
            if rooms[i].is_adjacent(&rooms[j]) {
                proof {
                    lemma_with_edge_within(n as int, es@, i as int, j as int, EdgeWeight::Adjacent);
                }
                set_edge(es, i, j, EdgeWeight::Adjacent);
            }
            j = j + 1;
        }
        i = i + 1;
    }
}

/// The centre of each room.
pub fn room_centers(rooms: &Vec<Room>) -> (points: Vec<(i32, i32)>)
    ensures
        points@ == centers(rooms@),
{
    let mut points: Vec<(i32, i32)> = Vec::new();
    let mut i: usize = 0;
    while i < rooms.len()
        invariant
            i <= rooms@.len(),
            points@ == centers(rooms@).take(i as int),
        decreases rooms@.len() - i,
    {
        points.push(rooms[i].center());
        i = i + 1;
        assert(points@ =~= centers(rooms@).take(i as int));
    }
    assert(points@ =~= centers(rooms@));
    points
}

/// The room graph of a layout: no edges for fewer than two rooms; else the
/// Delaunay edges between room centres (the one edge for two rooms), overlaid
/// with the adjacency edges.
pub fn build_graph(rooms: &Vec<Room>) -> (es: Vec<Edge>)
    ensures
        es@ == graph_of(rooms@),
        edges_within(rooms@.len() as int, es@),
{
    let n = rooms.len();
    if n < 2 {
        return Vec::new();
    }
    let mut es: Vec<Edge> = if n == 2 {
        let mut one: Vec<Edge> = Vec::new();
        let w = weight_of(rooms, 0, 1);
        proof {
            lemma_with_edge_within(2, one@, 0, 1, w);
        }
        set_edge(&mut one, 0, 1, w);
        one
    } else {
        let points = room_centers(rooms);
        let (triangles, halfedges) = delaunay(&points);
        triangulation_edges(rooms, &triangles, &halfedges)
    };
    add_adjacency_edges(rooms, &mut es);
    es
}

} // verus!
