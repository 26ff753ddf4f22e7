use gardiz::coord::Vec2;
use gardiz::rect::{Rect, RectBorders, RectColumns, RectRows};

fn p(x: i64, y: i64) -> Vec2<i64> {
    Vec2 { x, y }
}

fn drain_rows(mut it: RectRows) -> Vec<Vec2<i64>> {
    let mut out = Vec::new();
    while let Some(q) = it.next() {
        out.push(q);
    }
    out
}

fn drain_rows_rev(mut it: RectRows) -> Vec<Vec2<i64>> {
    let mut out = Vec::new();
    while let Some(q) = it.next_back() {
        out.push(q);
    }
    out
}

fn drain_columns(mut it: RectColumns) -> Vec<Vec2<i64>> {
    let mut out = Vec::new();
    while let Some(q) = it.next() {
        out.push(q);
    }
    out
}

fn drain_columns_rev(mut it: RectColumns) -> Vec<Vec2<i64>> {
    let mut out = Vec::new();
    while let Some(q) = it.next_back() {
        out.push(q);
    }
    out
}

fn drain_borders(mut it: RectBorders) -> Vec<Vec2<i64>> {
    let mut out = Vec::new();
    while let Some(q) = it.next() {
        out.push(q);
    }
    out
}

#[test]
fn from_range() {
    assert_eq!(
        Rect::from_range(p(1, 2), p(4, 3)),
        Rect { start: p(1, 2), size: p(3, 1) }
    );

    assert_eq!(
        Rect::from_range(p(5, 1), p(5, 1)),
        Rect { start: p(5, 1), size: p(0, 0) }
    );

    assert_eq!(
        Rect::from_range(p(0, 0), p(65535, 65535)),
        Rect { start: p(0, 0), size: p(65535, 65535) }
    );
}

#[test]
fn try_from_range_overflow() {
    assert_eq!(
        Rect::try_from_range(p(1, 2), p(4, 3)),
        Some(Rect { start: p(1, 2), size: p(3, 1) })
    );
    assert_eq!(Rect::try_from_range(p(-1, 0), p(i64::MAX, 0)), None);
}

#[test]
fn from_range_incl_bounds() {
    assert_eq!(
        Rect::from_range_incl(p(5, 3), p(6, 8)),
        Rect { start: p(5, 3), size: p(2, 6) }
    );
    assert_eq!(
        Rect::from_range_incl(p(5, 3), p(4, 8)),
        Rect { start: p(5, 3), size: p(0, 0) }
    );
    assert_eq!(
        Rect::try_from_range_incl(p(5, 3), p(6, 8)),
        Some(Rect { start: p(5, 3), size: p(2, 6) })
    );
    assert_eq!(Rect::try_from_range_incl(p(0, 0), p(i64::MAX, 0)), None);
}

#[test]
fn rect_test_is_empty() {
    let rect = Rect { start: p(3, 5), size: p(10, 20) };
    assert!(!rect.is_empty());

    let rect = Rect { start: p(3, 5), size: p(0, 0) };
    assert!(rect.is_empty());

    let rect = Rect { start: p(3, 5), size: p(0, 2) };
    assert!(rect.is_empty());
}

#[test]
fn end() {
    let rect = Rect::from_range(p(1, 2), p(4, 3));
    assert_eq!(rect.end(), p(4, 3));

    let rect = Rect::from_range(p(5, 1), p(5, 1));
    assert_eq!(rect.end(), p(5, 1));

    let rect = Rect::from_range(p(0, 0), p(65535, 65535));
    assert_eq!(rect.end(), p(65535, 65535));
}

#[test]
fn end_ref() {
    let rect = Rect::from_range(p(1, 2), p(4, 3));
    assert_eq!(rect.end_ref(), p(4, 3));

    let rect = Rect::from_range(p(5, 1), p(5, 1));
    assert_eq!(rect.end_ref(), p(5, 1));

    let rect = Rect::from_range(p(0, 0), p(65535, 65535));
    assert_eq!(rect.end_ref(), p(65535, 65535));
}

#[test]
fn rect_test_columns() {
    let rect = Rect { start: p(1, 3), size: p(4, 3) };
    let points = drain_columns(rect.columns());
    let mut answer = vec![
        p(1, 3),
        p(1, 4),
        p(1, 5),
        p(2, 3),
        p(2, 4),
        p(2, 5),
        p(3, 3),
        p(3, 4),
        p(3, 5),
        p(4, 3),
        p(4, 4),
        p(4, 5),
    ];
    assert_eq!(points, answer);

    answer.reverse();
    let points = drain_columns_rev(rect.columns());
    assert_eq!(points, answer);

    let rect = Rect { start: p(1, 3), size: p(0, 0) };
    assert_eq!(drain_columns(rect.columns()), Vec::new());
}

#[test]
fn rect_test_rows() {
    let rect = Rect { start: p(1, 3), size: p(4, 3) };
    let points = drain_rows(rect.rows());
    let mut answer = vec![
        p(1, 3),
        p(2, 3),
        p(3, 3),
        p(4, 3),
        p(1, 4),
        p(2, 4),
        p(3, 4),
        p(4, 4),
        p(1, 5),
        p(2, 5),
        p(3, 5),
        p(4, 5),
    ];
    assert_eq!(points, answer);

    answer.reverse();
    let points = drain_rows_rev(rect.rows());
    assert_eq!(points, answer);

    let rect = Rect { start: p(1, 3), size: p(0, 0) };
    assert_eq!(Vec::<Vec2<i64>>::new(), drain_rows(rect.rows()));
}

#[test]
fn borders_perimeter() {
    // left column, right column, then the inner points of the top and
    // bottom rows
    let rect = Rect { start: p(1, 3), size: p(4, 3) };
    let points = drain_borders(rect.borders());
    let answer = vec![
        p(1, 3),
        p(1, 4),
        p(1, 5),
        p(4, 3),
        p(4, 4),
        p(4, 5),
        p(2, 3),
        p(3, 3),
        p(2, 5),
        p(3, 5),
    ];
    assert_eq!(points, answer);

    let rect = Rect { start: p(1, 3), size: p(0, 0) };
    assert_eq!(drain_borders(rect.borders()), Vec::new());

    let rect = Rect { start: p(0, 0), size: p(1, 2) };
    assert_eq!(drain_borders(rect.borders()), vec![p(0, 0), p(0, 1)]);
}

#[test]
fn point_membership_and_overlap() {
    let rect = Rect { start: p(2, 2), size: p(3, 2) };
    assert!(rect.has_point(p(2, 2)));
    assert!(rect.has_point(p(4, 3)));
    assert!(!rect.has_point(p(5, 2)));
    assert!(!rect.has_point(p(2, 4)));

    let other = Rect { start: p(4, 3), size: p(9, 5) };
    assert!(rect.overlaps(&other));
    assert!(other.overlaps(&rect));
    let disjoint = Rect { start: p(5, 2), size: p(2, 2) };
    assert!(!rect.overlaps(&disjoint));
    let empty = Rect { start: p(2, 2), size: p(0, 5) };
    assert!(!rect.overlaps(&empty));
}
