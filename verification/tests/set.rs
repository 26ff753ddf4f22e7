use gardiz::coord::Vec2;
use gardiz::direc::Direction;
use gardiz::set::{Columns, Neighbours, Rows, SpatialSet};

fn p(x: i64, y: i64) -> Vec2<i64> {
    Vec2 { x, y }
}

fn drain_neighbours(mut it: Neighbours) -> Vec<Vec2<i64>> {
    let mut out = Vec::new();
    while let Some(q) = it.next() {
        out.push(q);
    }
    out
}

fn drain_rows(mut it: Rows) -> Vec<Vec2<i64>> {
    let mut out = Vec::new();
    while let Some(q) = it.next() {
        out.push(q);
    }
    out
}

fn drain_columns(mut it: Columns) -> Vec<Vec2<i64>> {
    let mut out = Vec::new();
    while let Some(q) = it.next() {
        out.push(q);
    }
    out
}

#[test]
fn set_test_insert() {
    let mut set = SpatialSet::new();
    assert!(!set.contains(&p(9, -12)));
    assert!(!set.contains(&p(8, -17)));
    assert!(!set.contains(&p(250, 120)));

    assert!(set.insert(p(9, -12)));
    assert!(set.contains(&p(9, -12)));
    assert!(!set.contains(&p(8, -17)));
    assert!(!set.contains(&p(250, 120)));

    assert!(set.insert(p(8, -17)));
    assert!(set.contains(&p(9, -12)));
    assert!(set.contains(&p(8, -17)));
    assert!(!set.contains(&p(250, 120)));

    assert!(!set.insert(p(8, -17)));
    assert!(set.contains(&p(9, -12)));
    assert!(set.contains(&p(8, -17)));
    assert!(!set.contains(&p(250, 120)));
}

#[test]
fn set_test_remove() {
    let mut set = SpatialSet::new();
    assert!(!set.contains(&p(9, -12)));
    assert!(!set.contains(&p(8, -17)));
    assert!(!set.contains(&p(250, 120)));

    assert!(set.insert(p(9, -12)));
    assert!(set.insert(p(8, -17)));
    assert!(set.remove(&p(8, -17)));

    assert!(set.contains(&p(9, -12)));
    assert!(!set.contains(&p(8, -17)));

    assert!(set.remove(&p(9, -12)));
    assert!(set.insert(p(8, -17)));
    assert!(set.insert(p(9, -12)));
}

#[test]
fn set_test_is_empty() {
    let mut set = SpatialSet::new();
    assert!(set.is_empty());
    set.insert(p(5, 2));
    assert!(!set.is_empty());
    set.insert(p(2, -2));
    assert!(!set.is_empty());
}

#[test]
fn set_test_contains() {
    let mut set = SpatialSet::new();
    assert!(!set.contains(&p(9, -12)));
    assert!(!set.contains(&p(8, -17)));
    assert!(!set.contains(&p(2, -47)));

    set.insert(p(9, -12));
    assert!(set.contains(&p(9, -12)));
    assert!(!set.contains(&p(8, -17)));
    assert!(!set.contains(&p(2, -47)));

    set.insert(p(8, -17));
    assert!(set.contains(&p(9, -12)));
    assert!(set.contains(&p(8, -17)));
    assert!(!set.contains(&p(2, -47)));
}

fn make_set() -> SpatialSet {
    let mut set = SpatialSet::new();
    set.insert(p(0, 2));
    set.insert(p(0, 5));
    set.insert(p(0, -2));
    set.insert(p(0, 569));
    set.insert(p(9, -2));
    set.insert(p(100, -2));
    set.insert(p(1, -2));
    set.insert(p(-1, -2));
    set.insert(p(9, 3));
    set.insert(p(-51, 5));
    set.insert(p(2099, 4));
    set
}

#[test]
fn set_test_neighbours() {
    let set = make_set();
    let collect = |elem: Vec2<i64>, direc| drain_neighbours(set.neighbours(&elem, direc));

    assert_eq!(
        collect(p(0, 2), Direction::Down),
        vec![p(0, 5), p(0, 569)],
    );

    assert_eq!(collect(p(0, 2), Direction::Up), vec![p(0, -2)]);

    assert_eq!(collect(p(0, 2), Direction::Left), vec![]);
    assert_eq!(collect(p(0, 2), Direction::Right), vec![]);

    assert_eq!(
        collect(p(0, -2), Direction::Down),
        vec![p(0, 2), p(0, 5), p(0, 569)],
    );

    assert_eq!(
        collect(p(0, -2), Direction::Right),
        vec![p(1, -2), p(9, -2), p(100, -2)],
    );
    assert_eq!(collect(p(0, -2), Direction::Left), vec![p(-1, -2)]);

    assert_eq!(collect(p(-51, 5), Direction::Right), vec![p(0, 5)]);

    assert_eq!(collect(p(9, 3), Direction::Up), vec![p(9, -2)]);

    assert_eq!(collect(p(2099, 4), Direction::Up), vec![]);
    assert_eq!(collect(p(2099, 4), Direction::Down), vec![]);
    assert_eq!(collect(p(2099, 4), Direction::Left), vec![]);
    assert_eq!(collect(p(2099, 4), Direction::Right), vec![]);
}

#[test]
fn set_test_neighbours_incl() {
    let set = make_set();
    let collect =
        |elem: Vec2<i64>, direc| drain_neighbours(set.neighbours_incl(&elem, direc));

    assert_eq!(
        collect(p(0, 2), Direction::Down),
        vec![p(0, 2), p(0, 5), p(0, 569)],
    );

    assert_eq!(collect(p(0, 2), Direction::Up), vec![p(0, 2), p(0, -2)]);

    assert_eq!(collect(p(0, 2), Direction::Left), vec![p(0, 2)]);
    assert_eq!(collect(p(0, 2), Direction::Right), vec![p(0, 2)]);
}

#[test]
fn set_test_first_neighbour() {
    let set = make_set();
    assert_eq!(set.first_neighbour(&p(0, 5), Direction::Up), Some(p(0, 2)));
    assert_eq!(set.first_neighbour(&p(0, 2), Direction::Down), Some(p(0, 5)));
    assert_eq!(set.first_neighbour(&p(0, 2), Direction::Left), None);
    assert_eq!(set.first_neighbour(&p(0, 2), Direction::Right), None);
    assert_eq!(set.first_neighbour(&p(0, -2), Direction::Right), Some(p(1, -2)));
    assert_eq!(set.first_neighbour(&p(1, -2), Direction::Left), Some(p(0, -2)));
}

#[test]
fn set_test_last_neighbour() {
    let set = make_set();
    assert_eq!(set.last_neighbour(&p(0, 5), Direction::Up), Some(p(0, -2)));
    assert_eq!(set.last_neighbour(&p(0, 2), Direction::Down), Some(p(0, 569)));
    assert_eq!(set.last_neighbour(&p(0, 2), Direction::Left), None);
    assert_eq!(set.last_neighbour(&p(0, 2), Direction::Right), None);
    assert_eq!(set.last_neighbour(&p(0, -2), Direction::Right), Some(p(100, -2)));
    assert_eq!(set.last_neighbour(&p(1, -2), Direction::Left), Some(p(-1, -2)));
}

#[test]
fn set_test_rows() {
    let set = make_set();
    let rows = drain_rows(set.rows());
    assert_eq!(
        rows,
        vec![
            p(-1, -2),
            p(0, -2),
            p(1, -2),
            p(9, -2),
            p(100, -2),
            p(0, 2),
            p(9, 3),
            p(2099, 4),
            p(-51, 5),
            p(0, 5),
            p(0, 569),
        ]
    );
}

#[test]
fn set_test_rows_empty() {
    let set = SpatialSet::new();
    assert_eq!(drain_rows(set.rows()), vec![]);
}

#[test]
fn set_test_columns() {
    let set = make_set();
    let columns = drain_columns(set.columns());
    assert_eq!(
        columns,
        vec![
            p(-51, 5),
            p(-1, -2),
            p(0, -2),
            p(0, 2),
            p(0, 5),
            p(0, 569),
            p(1, -2),
            p(9, -2),
            p(9, 3),
            p(100, -2),
            p(2099, 4),
        ]
    );
}

#[test]
fn set_test_columns_empty() {
    let set = SpatialSet::new();
    assert_eq!(drain_columns(set.columns()), vec![]);
}

#[test]
fn set_len_counts_members() {
    let mut set = SpatialSet::new();
    assert_eq!(set.len(), 0);
    set.insert(p(4, 4));
    set.insert(p(4, 5));
    set.insert(p(4, 5));
    assert_eq!(set.len(), 2);
    set.remove(&p(4, 4));
    assert_eq!(set.len(), 1);
}

#[test]
fn set_round_trip() {
    // inserting and removing a point restores the membership state, and
    // the next insertion of the same point is an insertion again
    let mut set = SpatialSet::new();
    set.insert(p(7, 7));
    assert!(set.insert(p(3, -3)));
    assert!(set.remove(&p(3, -3)));
    assert!(!set.contains(&p(3, -3)));
    assert!(set.contains(&p(7, 7)));
    assert!(set.insert(p(3, -3)));
}
