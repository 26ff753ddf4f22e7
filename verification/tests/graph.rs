use gardiz::coord::Vec2;
use gardiz::direc::{DirecMap, DirecVector, Direction};
use gardiz::graph::Graph;

fn p(x: i64, y: i64) -> Vec2<i64> {
    Vec2 { x, y }
}

fn no_edges() -> DirecMap<bool> {
    DirecMap::from_direcs(|_| false)
}

#[test]
fn test_create() {
    let mut graph = Graph::new();
    assert_eq!(graph.vertex_edges(&p(0, 0)), None);
    assert!(graph.create_vertex(p(0, 0)));
    assert_eq!(graph.vertex_edges(&p(0, 0)), Some(no_edges()));

    assert!(graph.create_vertex(p(3, -1)));
    assert_eq!(graph.vertex_edges(&p(3, -1)), Some(no_edges()));

    assert!(graph.create_vertex(p(-9, 1400)));
    assert_eq!(graph.vertex_edges(&p(-9, 1400)), Some(no_edges()));

    assert!(!graph.create_vertex(p(0, 0)));
    assert_eq!(graph.vertex_edges(&p(0, 0)), Some(no_edges()));
    assert_eq!(graph.vertex_edges(&p(3, -1)), Some(no_edges()));
    assert_eq!(graph.vertex_edges(&p(-9, 1400)), Some(no_edges()));
}

#[test]
fn from_vertices() {
    let graph = Graph::from_vertices(vec![p(0, 0), p(3, -1), p(-9, 1400)]);

    assert_eq!(graph.vertex_edges(&p(0, 0)), Some(no_edges()));
    assert_eq!(graph.vertex_edges(&p(3, -1)), Some(no_edges()));
    assert_eq!(graph.vertex_edges(&p(-9, 1400)), Some(no_edges()));
}

fn make_graph() -> Graph {
    let mut graph = Graph::from_vertices(vec![
        p(0, 0),
        p(1, 0),
        p(0, -3),
        p(0, -8),
        p(3, -1),
        p(3, -9),
        p(3, -3),
        p(3, -17),
        p(1020, -3),
        p(1029, -3),
        p(-9, 1401),
        p(-9, 1400),
        p(-9, 1399),
    ]);

    assert!(graph.connect(&p(0, 0), &p(1, 0)));
    assert!(graph.connect(&p(0, 0), &p(0, -3)));
    assert!(graph.connect(&p(3, -3), &p(0, -3)));
    graph.connect(&p(0, -8), &p(0, -3));
    graph.connect(&p(3, -3), &p(1020, -3));
    graph.connect(&p(1020, -3), &p(1029, -3));
    graph.connect(&p(3, -3), &p(3, -1));
    graph.connect(&p(3, -3), &p(3, -9));
    graph.connect(&p(3, -17), &p(3, -9));
    graph.connect(&p(-9, 1401), &p(-9, 1400));

    graph
}

#[test]
fn are_connected() {
    let graph = make_graph();

    assert!(graph.are_connected(&p(0, 0), &p(1, 0)));
    assert!(graph.are_connected(&p(1, 0), &p(0, 0)));

    assert!(graph.are_connected(&p(0, 0), &p(0, -3)));
    assert!(graph.are_connected(&p(0, -3), &p(0, 0)));

    assert!(graph.are_connected(&p(3, -3), &p(0, -3)));
    assert!(graph.are_connected(&p(0, -3), &p(3, -3)));

    assert!(graph.are_connected(&p(3, -9), &p(3, -17)));
    assert!(graph.are_connected(&p(3, -17), &p(3, -9)));
}

#[test]
fn are_not_connected() {
    let graph = make_graph();

    assert!(!graph.are_connected(&p(3, -3), &p(1, 0)));
    assert!(!graph.are_connected(&p(1, 0), &p(3, -3)));
}

#[test]
fn connected_at() {
    let graph = make_graph();

    assert_eq!(
        graph.connected_at(&p(0, 0), Direction::Right),
        Some(p(1, 0)),
    );
    assert_eq!(
        graph.connected_at(&p(1, 0), Direction::Left),
        Some(p(0, 0)),
    );
    assert_eq!(
        graph.connected_at(&p(0, 0), Direction::Up),
        Some(p(0, -3)),
    );
    assert_eq!(
        graph.connected_at(&p(0, -3), Direction::Down),
        Some(p(0, 0)),
    );

    assert!(graph.connected_at(&p(-9, 1399), Direction::Up).is_none());
    assert!(graph.connected_at(&p(-9, 1399), Direction::Left).is_none());
    assert!(graph.connected_at(&p(-9, 1399), Direction::Down).is_none());
    assert!(graph.connected_at(&p(-9, 1399), Direction::Right).is_none());
}

#[test]
fn connections() {
    let graph = make_graph();
    let connections = graph.connections();

    assert_eq!(
        connections,
        vec![
            (p(3, -17), p(3, -9)),
            (p(3, -9), p(3, -3)),
            (p(0, -8), p(0, -3)),
            (p(0, -3), p(0, 0)),
            (p(0, -3), p(3, -3)),
            (p(3, -3), p(3, -1)),
            (p(3, -3), p(1020, -3)),
            (p(1020, -3), p(1029, -3)),
            (p(0, 0), p(1, 0)),
            (p(-9, 1400), p(-9, 1401)),
        ]
    );
}

#[test]
fn connect_twice() {
    let mut graph = make_graph();

    assert!(!graph.connect(&p(0, 0), &p(1, 0)));
    assert!(!graph.connect(&p(0, 0), &p(0, -3)));
    assert!(!graph.connect(&p(3, -3), &p(0, -3)));

    assert!(graph.are_connected(&p(0, 0), &p(1, 0)));
    assert!(graph.are_connected(&p(1, 0), &p(0, 0)));

    assert!(graph.are_connected(&p(0, 0), &p(0, -3)));
    assert!(graph.are_connected(&p(0, -3), &p(0, 0)));

    assert!(graph.are_connected(&p(3, -3), &p(0, -3)));
    assert!(graph.are_connected(&p(0, -3), &p(3, -3)));

    assert!(!graph.are_connected(&p(3, -3), &p(1, 0)));
    assert!(!graph.are_connected(&p(1, 0), &p(3, -3)));

    assert!(graph.connect(&p(-9, 1399), &p(-9, 1400)));

    assert!(graph.are_connected(&p(-9, 1399), &p(-9, 1400)));
    assert!(graph.are_connected(&p(-9, 1400), &p(-9, 1399)));
}

#[test]
fn disconnect() {
    let mut graph = make_graph();

    graph.disconnect(&p(0, 0), &p(1, 0));
    graph.disconnect(&p(0, 0), &p(0, -3));
    graph.disconnect(&p(3, -3), &p(0, -3));

    assert!(!graph.are_connected(&p(0, 0), &p(1, 0)));
    assert!(!graph.are_connected(&p(1, 0), &p(0, 0)));

    assert!(!graph.are_connected(&p(0, 0), &p(0, -3)));
    assert!(!graph.are_connected(&p(0, -3), &p(0, 0)));

    assert!(!graph.are_connected(&p(3, -3), &p(0, -3)));
    assert!(!graph.are_connected(&p(0, -3), &p(3, -3)));

    assert!(!graph.are_connected(&p(3, -3), &p(1, 0)));
    assert!(!graph.are_connected(&p(1, 0), &p(3, -3)));

    assert!(graph.are_connected(&p(3, -9), &p(3, -17)));
    assert!(graph.are_connected(&p(3, -17), &p(3, -9)));
}

#[test]
fn extend_vertices() {
    let mut graph = make_graph();
    graph.extend_vertices(&vec![
        p(-9, 1395),
        p(1, 9),
        p(8, 9),
        p(8, 7),
        p(8, 5),
    ]);

    assert!(graph.vertices_edges().contains(&p(-9, 1395)));
    assert!(graph.vertices_edges().contains(&p(1, 9)));
    assert!(graph.vertices_edges().contains(&p(8, 5)));
    assert!(!graph.vertices_edges().contains(&p(-8123, 0)));
}

#[test]
fn extend_edges() {
    let mut graph = make_graph();
    graph.create_vertex(p(-9, 1395));
    graph.create_vertex(p(1, 9));
    graph.create_vertex(p(8, 9));
    graph.create_vertex(p(8, 7));
    graph.create_vertex(p(8, 5));

    graph.extend_edges(&vec![
        (p(1, 9), p(8, 9)),
        (p(8, 7), p(8, 9)),
        (p(-9, 1399), p(-9, 1400)),
    ]);

    assert!(graph.are_connected(&p(1, 9), &p(8, 9)));

    assert!(graph.are_connected(&p(8, 9), &p(8, 7)));

    assert!(graph.are_connected(&p(-9, 1399), &p(-9, 1400)));

    assert!(!graph.are_connected(&p(8, 7), &p(7, 5)));
}

#[test]
fn from_verts_and_edges() {
    let graph = Graph::from_verts_and_edges(
        vec![p(5, 7), p(8, 6), p(0, 1), p(5, 6)],
        &vec![(p(5, 6), p(8, 6)), (p(5, 6), p(5, 7))],
    );

    assert!(graph.are_connected(&p(5, 6), &p(8, 6)));

    assert!(graph.are_connected(&p(5, 6), &p(5, 7)));

    assert!(!graph.are_connected(&p(5, 6), &p(0, 1)));
}

#[test]
fn remove_vertex() {
    let mut graph = make_graph();
    graph.remove_vertex(&p(3, -3));

    assert!(graph.are_connected(&p(0, 0), &p(1, 0)));
    assert!(graph.are_connected(&p(1, 0), &p(0, 0)));

    assert!(graph.are_connected(&p(0, 0), &p(0, -3)));
    assert!(graph.are_connected(&p(0, -3), &p(0, 0)));

    assert!(!graph.are_connected(&p(3, -3), &p(0, -3)));
    assert!(!graph.are_connected(&p(0, -3), &p(3, -3)));

    assert!(graph.are_connected(&p(0, -3), &p(1020, -3)));
    assert!(graph.are_connected(&p(0, -3), &p(1020, -3)));

    assert!(graph.are_connected(&p(3, -9), &p(3, -1)));
    assert!(graph.are_connected(&p(3, -1), &p(3, -9)));

    graph.remove_vertex(&p(0, -3));

    assert!(graph.are_connected(&p(0, -8), &p(0, 0)));
    assert!(graph.are_connected(&p(0, 0), &p(0, -8)));

    let edges = graph.vertices_edges().get(&p(1020, -3)).unwrap();
    assert!(!*edges.get(Direction::Up));
}

#[test]
fn remove_with_edges() {
    let mut graph = make_graph();
    graph.remove_with_edges(&p(3, -3));

    assert!(graph.are_connected(&p(0, 0), &p(1, 0)));
    assert!(graph.are_connected(&p(1, 0), &p(0, 0)));

    assert!(graph.are_connected(&p(0, 0), &p(0, -3)));
    assert!(graph.are_connected(&p(0, -3), &p(0, 0)));

    assert!(!graph.are_connected(&p(3, -3), &p(0, -3)));
    assert!(!graph.are_connected(&p(0, -3), &p(3, -3)));

    assert!(!graph.are_connected(&p(0, -3), &p(1020, -3)));
    assert!(!graph.are_connected(&p(1020, -3), &p(0, -3)));

    assert!(!graph.are_connected(&p(3, -9), &p(3, -1)));
    assert!(!graph.are_connected(&p(3, -1), &p(3, -9)));

    graph.remove_with_edges(&p(0, -3));

    assert!(!graph.are_connected(&p(0, -8), &p(0, 0)));
    assert!(!graph.are_connected(&p(0, 0), &p(0, -8)));

    let edges = graph.vertices_edges().get(&p(1020, -3)).unwrap();
    assert!(!*edges.get(Direction::Up));
}

#[test]
fn components() {
    let graph = make_graph();
    let components = graph.components();

    let mut component1 = Graph::from_vertices(vec![
        p(0, 0),
        p(1, 0),
        p(0, -3),
        p(0, -8),
        p(3, -1),
        p(3, -9),
        p(3, -3),
        p(3, -17),
        p(1020, -3),
        p(1029, -3),
    ]);
    component1.connect(&p(0, 0), &p(1, 0));
    component1.connect(&p(0, 0), &p(0, -3));
    component1.connect(&p(3, -3), &p(0, -3));
    component1.connect(&p(0, -8), &p(0, -3));
    component1.connect(&p(3, -3), &p(1020, -3));
    component1.connect(&p(1020, -3), &p(1029, -3));
    component1.connect(&p(3, -3), &p(3, -1));
    component1.connect(&p(3, -3), &p(3, -9));
    component1.connect(&p(3, -17), &p(3, -9));

    let component2 = Graph::from_vertices(vec![p(-9, 1399)]);

    let mut component3 = Graph::from_vertices(vec![p(-9, 1401), p(-9, 1400)]);
    component3.connect(&p(-9, 1401), &p(-9, 1400));

    assert_eq!(components, vec![component1, component2, component3]);
}

fn make_a_star_graph() -> Graph {
    let mut graph = Graph::new();
    graph.create_vertex(p(0, 0));
    graph.create_vertex(p(5, 2));
    graph.create_vertex(p(5, 7));
    graph.create_vertex(p(2, 5));
    graph
}

#[test]
fn a_star() {
    let mut graph = make_a_star_graph();
    let start = p(0, 0);
    let goal = p(5, 7);
    let penalty = 100;
    let valid_points =
        |point: Vec2<i64>| point.x >= 0 && point.x < 10 && point.y >= 0 && point.y < 10;

    let directions = graph.make_path(&start, &goal, penalty, valid_points).unwrap();

    assert_eq!(
        directions,
        vec![
            DirecVector { direction: Direction::Down, magnitude: 7 },
            DirecVector { direction: Direction::Right, magnitude: 5 },
        ]
    );

    let mut expected = make_a_star_graph();
    expected.create_vertex(p(0, 7));
    expected.connect(&p(0, 0), &p(0, 7));
    expected.connect(&p(5, 7), &p(0, 7));

    assert_eq!(graph, expected);
}

#[test]
fn a_star_irregular() {
    let mut graph = make_a_star_graph();
    let start = p(0, 0);
    let goal = p(5, 7);
    let penalty = 10;
    let valid_points = |point: Vec2<i64>| {
        point.x >= 0 && point.y >= 0
            && (point.x < 4 && point.y < 3
                || point.x >= 3 && point.y >= 3 && point.x < 6 && point.y < 5
                || point.x >= 2 && point.y >= 5 && point.x < 5 && point.y < 6
                || point.x >= 1 && point.y >= 6 && point.x < 3 && point.y < 8
                || point.y >= 8 && point.x < 10 && point.y < 10
                || point.x >= 4 && point.y >= 7 && point.x < 12 && point.y < 12)
    };

    let directions = graph.make_path(&start, &goal, penalty, valid_points).unwrap();

    assert_eq!(
        directions,
        vec![
            DirecVector { direction: Direction::Right, magnitude: 3 },
            DirecVector { direction: Direction::Down, magnitude: 5 },
            DirecVector { direction: Direction::Left, magnitude: 1 },
            DirecVector { direction: Direction::Down, magnitude: 3 },
            DirecVector { direction: Direction::Right, magnitude: 3 },
            DirecVector { direction: Direction::Up, magnitude: 1 },
        ]
    );

    let mut expected = make_a_star_graph();
    expected.create_vertex(p(3, 0));
    expected.create_vertex(p(3, 5));
    expected.create_vertex(p(2, 8));
    expected.create_vertex(p(5, 8));
    expected.connect(&p(0, 0), &p(3, 0));
    expected.connect(&p(3, 5), &p(3, 0));
    expected.connect(&p(3, 5), &p(2, 5));
    expected.connect(&p(2, 8), &p(2, 5));
    expected.connect(&p(2, 8), &p(5, 8));
    expected.connect(&p(5, 7), &p(5, 8));

    assert_eq!(graph, expected);
}
