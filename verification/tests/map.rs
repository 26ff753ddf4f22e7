use gardiz::coord::Vec2;
use gardiz::direc::Direction;
use gardiz::map::{Neighbours, Rows, Columns, SpatialMap};

fn p(x: i64, y: i64) -> Vec2<i64> {
    Vec2 { x, y }
}

fn drain_neighbours(mut it: Neighbours<&'static str>) -> Vec<(Vec2<i64>, &'static str)> {
    let mut out = Vec::new();
    while let Some(e) = it.next() {
        out.push(e);
    }
    out
}

fn drain_rows<V: Copy>(mut it: Rows<V>) -> Vec<(Vec2<i64>, V)> {
    let mut out = Vec::new();
    while let Some(e) = it.next() {
        out.push(e);
    }
    out
}

fn drain_columns<V: Copy>(mut it: Columns<V>) -> Vec<(Vec2<i64>, V)> {
    let mut out = Vec::new();
    while let Some(e) = it.next() {
        out.push(e);
    }
    out
}

#[test]
fn test_insert() {
    let mut map = SpatialMap::<&str>::new();
    assert!(map.get(&p(9, -12)).is_none());
    assert!(map.get(&p(8, -17)).is_none());
    assert!(map.get(&p(250, 120)).is_none());

    assert!(map.insert(p(9, -12), "avocado").is_none());
    assert_eq!(map.get(&p(9, -12)).unwrap(), "avocado");

    assert!(map.insert(p(8, -17), "banana").is_none());
    assert_eq!(map.get(&p(9, -12)).unwrap(), "avocado");
    assert_eq!(map.get(&p(8, -17)).unwrap(), "banana");
    assert!(map.get(&p(250, 120)).is_none());

    assert_eq!(map.insert(p(8, -17), "nihil"), Some("banana"));
    assert_eq!(map.get(&p(9, -12)).unwrap(), "avocado");
    assert_eq!(map.get(&p(8, -17)).unwrap(), "nihil");
    assert!(map.get(&p(250, 120)).is_none());
}

#[test]
fn map_test_create() {
    let mut map = SpatialMap::<&str>::new();
    assert!(map.get(&p(9, -12)).is_none());
    assert!(map.get(&p(8, -17)).is_none());
    assert!(map.get(&p(250, 120)).is_none());

    assert!(map.create(p(9, -12), "avocado"));
    assert_eq!(map.get(&p(9, -12)).unwrap(), "avocado");

    assert!(map.create(p(8, -17), "banana"));
    assert_eq!(map.get(&p(9, -12)).unwrap(), "avocado");
    assert_eq!(map.get(&p(8, -17)).unwrap(), "banana");
    assert!(map.get(&p(250, 120)).is_none());

    assert!(!map.create(p(8, -17), "nihil"));
    assert_eq!(map.get(&p(9, -12)).unwrap(), "avocado");
    assert_eq!(map.get(&p(8, -17)).unwrap(), "banana");
    assert!(map.get(&p(250, 120)).is_none());
}

#[test]
fn test_remove() {
    let mut map = SpatialMap::<&str>::new();
    assert!(map.get(&p(9, -12)).is_none());
    assert!(map.get(&p(8, -17)).is_none());
    assert!(map.get(&p(250, 120)).is_none());

    assert!(map.insert(p(9, -12), "avocado").is_none());
    assert!(map.insert(p(8, -17), "banana").is_none());
    assert_eq!(map.remove(&p(8, -17)), Some("banana"));

    assert_eq!(map.get(&p(9, -12)).unwrap(), "avocado");
    assert!(map.get(&p(8, -17)).is_none());

    assert_eq!(map.remove(&p(9, -12)), Some("avocado"));
    assert!(map.get(&p(8, -17)).is_none());
    assert!(map.get(&p(9, -12)).is_none());
}

#[test]
fn update() {
    let mut map = SpatialMap::<&str>::new();
    assert!(map.get(&p(9, -12)).is_none());
    assert!(map.get(&p(8, -17)).is_none());
    assert!(map.get(&p(250, 120)).is_none());

    assert!(map.insert(p(9, -12), "avocado").is_none());
    assert!(map.insert(p(8, -17), "banana").is_none());

    assert_eq!(map.update(&p(8, -17), "nihil"), Ok("banana"));
    assert_eq!(map.get(&p(9, -12)).unwrap(), "avocado");
    assert_eq!(map.get(&p(8, -17)).unwrap(), "nihil");

    assert!(map.get(&p(250, 120)).is_none());

    assert_eq!(map.update(&p(800, 700), "nothing"), Err("nothing"));
}

#[test]
fn test_is_empty() {
    let mut map = SpatialMap::<&str>::new();
    assert!(map.is_empty());
    map.insert(p(5, 2), "testing is fun");
    assert!(!map.is_empty());
    map.insert(p(2, -2), "hope it's still fun");
    assert!(!map.is_empty());
}

#[test]
fn test_contains() {
    let mut map = SpatialMap::<&str>::new();
    assert!(!map.contains(&p(9, -12)));
    assert!(!map.contains(&p(8, -17)));
    assert!(!map.contains(&p(2, -47)));

    map.insert(p(9, -12), "avocado");
    assert!(map.contains(&p(9, -12)));
    assert!(!map.contains(&p(8, -17)));
    assert!(!map.contains(&p(2, -47)));

    map.insert(p(8, -17), "banana");
    assert!(map.contains(&p(9, -12)));
    assert!(map.contains(&p(8, -17)));
    assert!(!map.contains(&p(2, -47)));
}

fn make_map() -> SpatialMap<&'static str> {
    let mut map = SpatialMap::new();
    map.insert(p(0, 2), "have");
    map.insert(p(0, 5), "a");
    map.insert(p(0, -2), "very");
    map.insert(p(0, 569), "(really)");
    map.insert(p(9, -2), "nice");
    map.insert(p(100, -2), "day");
    map.insert(p(1, -2), "and");
    map.insert(p(-1, -2), "(eh)");
    map.insert(p(9, 3), "stand");
    map.insert(p(-51, 5), "still");
    map.insert(p(2099, 4), "please");
    map
}

#[test]
fn test_neighbours_incl() {
    let map = make_map();
    let collect =
        |key: Vec2<i64>, direc| drain_neighbours(map.neighbours_incl(&key, direc));

    assert_eq!(
        collect(p(0, 2), Direction::Down),
        vec![(p(0, 2), "have"), (p(0, 5), "a"), (p(0, 569), "(really)")],
    );

    assert_eq!(
        collect(p(0, 2), Direction::Up),
        vec![(p(0, 2), "have"), (p(0, -2), "very")],
    );

    assert_eq!(collect(p(0, 2), Direction::Left), vec![(p(0, 2), "have")]);
    assert_eq!(collect(p(0, 2), Direction::Right), vec![(p(0, 2), "have")]);

    assert_eq!(
        collect(p(0, -2), Direction::Down),
        vec![
            (p(0, -2), "very"),
            (p(0, 2), "have"),
            (p(0, 5), "a"),
            (p(0, 569), "(really)"),
        ],
    );

    assert_eq!(
        collect(p(0, -2), Direction::Right),
        vec![
            (p(0, -2), "very"),
            (p(1, -2), "and"),
            (p(9, -2), "nice"),
            (p(100, -2), "day"),
        ],
    );
    assert_eq!(
        collect(p(0, -2), Direction::Left),
        vec![(p(0, -2), "very"), (p(-1, -2), "(eh)")],
    );

    assert_eq!(
        collect(p(-51, 5), Direction::Right),
        vec![(p(-51, 5), "still"), (p(0, 5), "a")],
    );

    assert_eq!(
        collect(p(9, 3), Direction::Up),
        vec![(p(9, 3), "stand"), (p(9, -2), "nice")],
    );

    assert_eq!(collect(p(2099, 4), Direction::Up), vec![(p(2099, 4), "please")]);
    assert_eq!(collect(p(2099, 4), Direction::Left), vec![(p(2099, 4), "please")]);
    assert_eq!(collect(p(2099, 4), Direction::Down), vec![(p(2099, 4), "please")]);
    assert_eq!(collect(p(2099, 4), Direction::Right), vec![(p(2099, 4), "please")]);
}

#[test]
fn test_neighbours() {
    let map = make_map();
    let collect = |key: Vec2<i64>, direc| drain_neighbours(map.neighbours(&key, direc));

    assert_eq!(
        collect(p(0, 2), Direction::Down),
        vec![(p(0, 5), "a"), (p(0, 569), "(really)")],
    );

    assert_eq!(collect(p(0, 2), Direction::Up), vec![(p(0, -2), "very")]);

    assert_eq!(collect(p(0, 2), Direction::Left), vec![]);
    assert_eq!(collect(p(0, 2), Direction::Right), vec![]);

    assert_eq!(
        collect(p(0, -2), Direction::Down),
        vec![(p(0, 2), "have"), (p(0, 5), "a"), (p(0, 569), "(really)")],
    );

    assert_eq!(
        collect(p(0, -2), Direction::Right),
        vec![(p(1, -2), "and"), (p(9, -2), "nice"), (p(100, -2), "day")],
    );
    assert_eq!(collect(p(0, -2), Direction::Left), vec![(p(-1, -2), "(eh)")]);

    assert_eq!(collect(p(-51, 5), Direction::Right), vec![(p(0, 5), "a")]);

    assert_eq!(collect(p(9, 3), Direction::Up), vec![(p(9, -2), "nice")]);

    assert_eq!(collect(p(2099, 4), Direction::Up), vec![]);
    assert_eq!(collect(p(2099, 4), Direction::Down), vec![]);
    assert_eq!(collect(p(2099, 4), Direction::Left), vec![]);
    assert_eq!(collect(p(2099, 4), Direction::Right), vec![]);
}

#[test]
fn test_first_neighbour() {
    let map = make_map();
    assert_eq!(map.first_neighbour(&p(0, 5), Direction::Up), Some(p(0, 2)));

    assert_eq!(map.first_neighbour(&p(0, 2), Direction::Down), Some(p(0, 5)));

    assert_eq!(map.first_neighbour(&p(0, 2), Direction::Left), None);

    assert_eq!(map.first_neighbour(&p(0, 2), Direction::Right), None);

    assert_eq!(map.first_neighbour(&p(0, -2), Direction::Right), Some(p(1, -2)));
    assert_eq!(map.first_neighbour(&p(1, -2), Direction::Left), Some(p(0, -2)));
}

#[test]
fn test_last_neighbour() {
    let map = make_map();
    assert_eq!(map.last_neighbour(&p(0, 5), Direction::Up), Some(p(0, -2)));

    assert_eq!(map.last_neighbour(&p(0, 2), Direction::Down), Some(p(0, 569)));

    assert_eq!(map.last_neighbour(&p(0, 2), Direction::Left), None);

    assert_eq!(map.last_neighbour(&p(0, 2), Direction::Right), None);

    assert_eq!(map.last_neighbour(&p(0, -2), Direction::Right), Some(p(100, -2)));
    assert_eq!(map.last_neighbour(&p(1, -2), Direction::Left), Some(p(-1, -2)));
}

#[test]
fn test_rows() {
    let map = make_map();
    let rows = drain_rows(map.rows());
    assert_eq!(
        rows,
        vec![
            (p(-1, -2), "(eh)"),
            (p(0, -2), "very"),
            (p(1, -2), "and"),
            (p(9, -2), "nice"),
            (p(100, -2), "day"),
            (p(0, 2), "have"),
            (p(9, 3), "stand"),
            (p(2099, 4), "please"),
            (p(-51, 5), "still"),
            (p(0, 5), "a"),
            (p(0, 569), "(really)"),
        ]
    );
}

#[test]
fn test_rows_empty() {
    let map = SpatialMap::<f64>::new();
    let rows = drain_rows(map.rows());
    assert_eq!(rows, vec![]);
}

#[test]
fn test_columns() {
    let map = make_map();
    let columns = drain_columns(map.columns());
    assert_eq!(
        columns,
        vec![
            (p(-51, 5), "still"),
            (p(-1, -2), "(eh)"),
            (p(0, -2), "very"),
            (p(0, 2), "have"),
            (p(0, 5), "a"),
            (p(0, 569), "(really)"),
            (p(1, -2), "and"),
            (p(9, -2), "nice"),
            (p(9, 3), "stand"),
            (p(100, -2), "day"),
            (p(2099, 4), "please"),
        ]
    );
}

#[test]
fn test_columns_empty() {
    let map = SpatialMap::<f64>::new();
    let columns = drain_columns(map.columns());
    assert_eq!(columns, vec![]);
}

#[test]
fn map_len_counts_points() {
    let mut map = SpatialMap::<&str>::new();
    assert_eq!(map.len(), 0);
    map.insert(p(1, 1), "one");
    map.insert(p(1, 2), "two");
    map.insert(p(1, 2), "two again");
    assert_eq!(map.len(), 2);
    map.remove(&p(1, 1));
    assert_eq!(map.len(), 1);
}

#[test]
fn neighbours_without_origin_in_map() {
    // the queried point itself need not be a member for the straight-line
    // scan to see past it
    let map = make_map();
    let mut it = map.neighbours(&p(0, 0), Direction::Down);
    assert_eq!(it.next(), Some((p(0, 2), "have")));
    assert_eq!(map.first_neighbour(&p(0, 0), Direction::Up), Some(p(0, -2)));
}

#[test]
fn neighbours_from_both_ends() {
    let map = make_map();
    let mut it = map.neighbours(&p(0, -2), Direction::Right);
    assert_eq!(it.next_back(), Some((p(100, -2), "day")));
    assert_eq!(it.next(), Some((p(1, -2), "and")));
    assert_eq!(it.next_back(), Some((p(9, -2), "nice")));
    assert_eq!(it.next(), None);
    assert_eq!(it.next_back(), None);
}
