use gardiz::axis::Axis;
use gardiz::direc::{DirecVector, Direction};

#[test]
fn direcvec_mul_zero() {
    let t = DirecVector { magnitude: -3i64, direction: Direction::Down };
    let t = t.scaled(0);
    assert_eq!(t, DirecVector { magnitude: 0, direction: Direction::Down });
}

#[test]
fn direcvec_mul_i32() {
    let t = DirecVector { magnitude: -3i64, direction: Direction::Up }.scaled(-2);
    assert_eq!(t, DirecVector { magnitude: 6, direction: Direction::Up });
}

#[test]
fn zero_mul_direcvec() {
    let t = DirecVector { magnitude: -3i64, direction: Direction::Up }.scaled(0);
    assert_eq!(t, DirecVector { magnitude: 0, direction: Direction::Up });
}

#[test]
fn direction_iter_orders() {
    let mut it = Direction::iter();
    let mut direcs = Vec::new();
    while let Some(d) = it.next() {
        direcs.push(d);
    }
    assert_eq!(
        direcs,
        vec![Direction::Up, Direction::Down, Direction::Left, Direction::Right]
    );

    let mut it = Direction::iter();
    let mut direcs = Vec::new();
    while let Some(d) = it.next_back() {
        direcs.push(d);
    }
    assert_eq!(
        direcs,
        vec![Direction::Right, Direction::Left, Direction::Down, Direction::Up]
    );
}

#[test]
fn axis_iter_orders() {
    let mut it = Axis::iter();
    let mut axes = Vec::new();
    while let Some(a) = it.next() {
        axes.push(a);
    }
    assert_eq!(axes, vec![Axis::Y, Axis::X]);

    let mut it = Axis::iter();
    let mut axes = Vec::new();
    while let Some(a) = it.next_back() {
        axes.push(a);
    }
    assert_eq!(axes, vec![Axis::X, Axis::Y]);
}

#[test]
fn direction_tables() {
    assert_eq!(Direction::Up.axis(), Axis::Y);
    assert_eq!(Direction::Left.axis(), Axis::X);
    assert_eq!(Direction::Up.opposite(), Direction::Down);
    assert_eq!(Direction::Left.opposite(), Direction::Right);
    assert_eq!(Direction::Up.rotate_clockwise(), Direction::Right);
    assert_eq!(Direction::Right.rotate_clockwise(), Direction::Down);
    assert_eq!(Direction::Up.rotate_countercw(), Direction::Left);
    assert_eq!(Direction::from_axis_pos(Axis::Y), Direction::Down);
    assert_eq!(Direction::from_axis_neg(Axis::X), Direction::Left);
    assert_eq!(Axis::Y.other(), Axis::X);
}
