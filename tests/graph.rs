use payload::forest::{minimum_spanning_forest, spanning_forest};
use payload::graph::{add_adjacency_edges, build_graph, set_edge, triangulation_edges, weight_of, Edge, EdgeWeight, NO_TWIN};
use payload::room::Room;

fn at(x: i32, y: i32) -> Room {
    Room::from_center_half(x, y, 1, 1)
}

fn e(a: usize, b: usize, weight: EdgeWeight) -> Edge {
    Edge { a, b, weight }
}

#[test]
fn weight_of_triangulation_edge() {
    let rooms = vec![at(0, 3), at(4, -6)];
    assert_eq!(weight_of(&rooms, 0, 1), EdgeWeight::Weighted(9, 16 + 81));
    assert_eq!(weight_of(&rooms, 1, 0), EdgeWeight::Weighted(9, 97));
}

#[test]
fn adjacent_orders_before_weighted() {
    assert!(EdgeWeight::Adjacent < EdgeWeight::Weighted(0, 0));
    assert!(EdgeWeight::Weighted(1, 100) < EdgeWeight::Weighted(2, 0));
    assert!(EdgeWeight::Weighted(1, 5) < EdgeWeight::Weighted(1, 6));
}

#[test]
fn set_edge_appends_then_replaces() {
    let mut es = Vec::new();
    set_edge(&mut es, 3, 1, EdgeWeight::Weighted(1, 1));
    assert_eq!(es, vec![e(1, 3, EdgeWeight::Weighted(1, 1))]);
    set_edge(&mut es, 0, 2, EdgeWeight::Weighted(2, 2));
    set_edge(&mut es, 1, 3, EdgeWeight::Adjacent);
    assert_eq!(es, vec![e(1, 3, EdgeWeight::Adjacent), e(0, 2, EdgeWeight::Weighted(2, 2))]);
}

#[test]
fn triangulation_edges_of_one_triangle() {
    let rooms = vec![at(0, 0), at(10, 0), at(0, 10)];
    let es = triangulation_edges(&rooms, &vec![0, 1, 2], &vec![NO_TWIN, NO_TWIN, NO_TWIN]);
    assert_eq!(
        es,
        vec![
            e(0, 1, EdgeWeight::Weighted(0, 100)),
            e(1, 2, EdgeWeight::Weighted(10, 200)),
            e(0, 2, EdgeWeight::Weighted(10, 100)),
        ]
    );
}

#[test]
fn triangulation_edges_take_each_twin_pair_once() {
    let rooms = vec![at(0, 0), at(10, 0), at(0, 10), at(10, 10)];
    // Two triangles sharing the edge 1-2: half-edge 1 (1 -> 2) and half-edge 3 (2 -> 1).
    let triangles = vec![0, 1, 2, 2, 1, 3];
    let halfedges = vec![NO_TWIN, 3, NO_TWIN, 1, NO_TWIN, NO_TWIN];
    let es = triangulation_edges(&rooms, &triangles, &halfedges);
    assert_eq!(es.len(), 5);
    assert_eq!(es.iter().filter(|x| x.a == 1 && x.b == 2).count(), 1);
}

#[test]
fn triangulation_edges_skip_out_of_range_rooms() {
    let rooms = vec![at(0, 0), at(10, 0)];
    let es = triangulation_edges(&rooms, &vec![0, 1, 7], &vec![NO_TWIN, NO_TWIN, NO_TWIN]);
    assert_eq!(es, vec![e(0, 1, EdgeWeight::Weighted(0, 100))]);
}

#[test]
fn adjacency_edges_override_weights() {
    let rooms = vec![
        Room { min_x: 0, min_y: 0, max_x: 4, max_y: 4 },
        Room { min_x: 4, min_y: 0, max_x: 8, max_y: 4 },
        Room { min_x: 20, min_y: 20, max_x: 24, max_y: 24 },
    ];
    let mut es = vec![e(0, 1, EdgeWeight::Weighted(3, 3)), e(1, 2, EdgeWeight::Weighted(4, 4))];
    add_adjacency_edges(&rooms, &mut es);
    assert_eq!(es, vec![e(0, 1, EdgeWeight::Adjacent), e(1, 2, EdgeWeight::Weighted(4, 4))]);
}

#[test]
fn graph_of_no_room_or_one_room_is_empty() {
    assert!(build_graph(&vec![]).is_empty());
    assert!(build_graph(&vec![at(0, 0)]).is_empty());
}

#[test]
fn graph_of_two_rooms_is_one_edge() {
    let g = build_graph(&vec![at(0, 4), at(6, 0)]);
    assert_eq!(g, vec![e(0, 1, EdgeWeight::Weighted(4, 52))]);
}

#[test]
fn graph_of_two_touching_rooms_is_adjacent() {
    let g = build_graph(&vec![
        Room { min_x: 0, min_y: 0, max_x: 4, max_y: 4 },
        Room { min_x: 4, min_y: 0, max_x: 8, max_y: 4 },
    ]);
    assert_eq!(g, vec![e(0, 1, EdgeWeight::Adjacent)]);
}

#[test]
fn graph_of_three_rooms_is_their_triangle() {
    let g = build_graph(&vec![at(0, 0), at(10, 0), at(0, 10)]);
    assert_eq!(g.len(), 3);
    for (a, b, w) in [(0, 1, EdgeWeight::Weighted(0, 100)), (1, 2, EdgeWeight::Weighted(10, 200)), (0, 2, EdgeWeight::Weighted(10, 100))] {
        assert!(g.contains(&e(a, b, w)));
    }
}

#[test]
fn graph_of_square_has_no_long_diagonal_twice() {
    let g = build_graph(&vec![at(0, 0), at(10, 0), at(0, 11), at(10, 11)]);
    assert_eq!(g.len(), 5);
    for x in &g {
        assert!(x.a < x.b && x.b < 4);
    }
}

#[test]
fn graph_of_collinear_rooms_has_no_triangulation_edge() {
    let g = build_graph(&vec![at(0, 0), at(10, 0), at(20, 0)]);
    assert!(g.is_empty());
}

fn sample_graph() -> Vec<Edge> {
    vec![
        e(0, 1, EdgeWeight::Weighted(5, 1)),
        e(1, 2, EdgeWeight::Adjacent),
        e(0, 2, EdgeWeight::Weighted(1, 1)),
        e(2, 3, EdgeWeight::Weighted(9, 9)),
    ]
}

#[test]
fn minimum_forest_prefers_adjacent_then_lightest() {
    let f = minimum_spanning_forest(4, &sample_graph());
    assert_eq!(
        f.edges,
        vec![e(1, 2, EdgeWeight::Adjacent), e(0, 2, EdgeWeight::Weighted(1, 1)), e(2, 3, EdgeWeight::Weighted(9, 9))]
    );
    assert!(f.component.iter().all(|c| *c == f.component[0]));
}

#[test]
fn forest_without_proposals_follows_graph_order() {
    let f = spanning_forest(4, &sample_graph(), &vec![]);
    assert_eq!(
        f.edges,
        vec![e(0, 1, EdgeWeight::Weighted(5, 1)), e(1, 2, EdgeWeight::Adjacent), e(2, 3, EdgeWeight::Weighted(9, 9))]
    );
}

#[test]
fn forest_takes_proposals_either_way_round() {
    let f = spanning_forest(4, &sample_graph(), &vec![(2, 1), (3, 2), (9, 0)]);
    assert_eq!(
        f.edges,
        vec![e(1, 2, EdgeWeight::Adjacent), e(2, 3, EdgeWeight::Weighted(9, 9)), e(0, 1, EdgeWeight::Weighted(5, 1))]
    );
}

#[test]
fn forest_of_disconnected_graph() {
    let f = minimum_spanning_forest(5, &sample_graph());
    assert_eq!(f.edges.len(), 3);
    assert_eq!(f.component[4], 4);
    for v in 0..4 {
        assert_eq!(f.component[v], f.component[0]);
        assert_ne!(f.component[v], 4);
    }
}

#[test]
fn forest_of_edgeless_graph() {
    let f = minimum_spanning_forest(3, &vec![]);
    assert!(f.edges.is_empty());
    assert_eq!(f.component, vec![0, 1, 2]);
}
