use gardiz::coord::Vec2;
use gardiz::direc::{DirecVector, Direction};
use gardiz::graph::Graph;
use gardiz::path::PathMakerBuf;

fn p(x: i64, y: i64) -> Vec2<i64> {
    Vec2 { x, y }
}

#[test]
fn path_to_unreachable_goal_is_none() {
    let mut graph = Graph::new();
    graph.create_vertex(p(0, 0));
    graph.create_vertex(p(5, 5));
    // the valid region around the start is finite and does not reach the
    // goal, so the search exhausts it and reports that there is no path
    let valid = |point: Vec2<i64>| {
        point.x >= 0 && point.x < 3 && point.y >= 0 && point.y < 3
    };
    let result = graph.make_path(&p(0, 0), &p(5, 5), 1, valid);
    assert_eq!(result, None);

    // the graph is left unchanged
    let mut expected = Graph::new();
    expected.create_vertex(p(0, 0));
    expected.create_vertex(p(5, 5));
    assert_eq!(graph, expected);
}

#[test]
fn path_from_start_to_itself_is_empty() {
    let mut graph = Graph::new();
    graph.create_vertex(p(2, 2));
    let valid = |point: Vec2<i64>| point.x >= 0 && point.y >= 0;
    let result = graph.make_path(&p(2, 2), &p(2, 2), 0, valid);
    assert_eq!(result, Some(Vec::new()));
}

#[test]
fn path_walks_only_valid_points_to_the_goal() {
    // a wall with a single gap forces a detour; every step stays inside
    // the region and the steps add up to the goal
    let mut graph = Graph::new();
    graph.create_vertex(p(0, 1));
    graph.create_vertex(p(4, 1));
    let valid = |q: Vec2<i64>| {
        let inside = q.x >= 0 && q.x < 5 && q.y >= 0 && q.y < 4;
        let wall = q.x == 2 && q.y != 3;
        inside && !wall
    };
    let steps = graph.make_path(&p(0, 1), &p(4, 1), 0, valid).unwrap();

    let mut at = p(0, 1);
    let mut units = 0;
    for step in &steps {
        for _ in 0..step.magnitude {
            at = at.move_one(step.direction);
            assert!(valid(at));
            units += 1;
        }
    }
    assert_eq!(at, p(4, 1));
    // shortest detour: 4 sideways and 4 up-down moves
    assert_eq!(units, 8);
}

#[test]
fn path_buffer_can_be_reused() {
    let mut buf = PathMakerBuf::new();
    let mut graph = Graph::new();
    graph.create_vertex(p(0, 0));
    graph.create_vertex(p(3, 0));
    let valid = |q: Vec2<i64>| q.x >= 0 && q.x < 4 && q.y == 0;
    let first = buf.make_path(&mut graph, &p(0, 0), &p(3, 0), 2, valid);
    assert_eq!(
        first,
        Some(vec![DirecVector { direction: Direction::Right, magnitude: 3 }])
    );
    let back = buf.make_path(&mut graph, &p(3, 0), &p(0, 0), 2, valid);
    assert_eq!(
        back,
        Some(vec![DirecVector { direction: Direction::Left, magnitude: 3 }])
    );
}

#[test]
fn high_penalty_prefers_fewer_turns() {
    // two L-shaped routes have the same length; with a turn penalty the
    // answer is always one of them, never a staircase with many turns
    let mut graph = Graph::new();
    graph.create_vertex(p(0, 0));
    graph.create_vertex(p(3, 3));
    let valid = |q: Vec2<i64>| q.x >= 0 && q.x < 4 && q.y >= 0 && q.y < 4;
    let steps = graph.make_path(&p(0, 0), &p(3, 3), 100, valid).unwrap();
    assert_eq!(steps.len(), 2);
    assert_eq!(steps[0].magnitude + steps[1].magnitude, 6);
}
