use gardiz::axis::Axis;
use gardiz::coord::{CoordParseErr, FromStrRadixErr, Vec2};
use gardiz::direc::{DirecVector, Direction};

#[test]
fn basic_math() {
    let pair: Vec2<i64> = Vec2 { x: 5, y: -9 };
    assert_eq!(pair.neg(), Vec2 { x: -5, y: 9 });
    assert_eq!(pair.add(Vec2 { x: 1, y: 2 }), Vec2 { x: 6, y: -7 });
    assert_eq!(pair.sub(Vec2 { x: 1, y: 2 }), Vec2 { x: 4, y: -11 });
    assert_eq!(pair.mul(Vec2 { x: -2, y: 3 }), Vec2 { x: -10, y: -27 });
    assert_eq!(pair.div(Vec2 { x: 5, y: -3 }), Vec2 { x: 1, y: 3 });

    let other_pair: Vec2<i64> = Vec2 { x: 8, y: -10 };
    assert_eq!(pair.add(other_pair), Vec2 { x: 13, y: -19 });
}

#[test]
fn assign_math() {
    let mut pair: Vec2<i64> = Vec2 { x: 5, y: -9 };
    pair = pair.add(Vec2 { x: 1, y: 2 });
    assert_eq!(pair, Vec2 { x: 6, y: -7 });
    pair = pair.sub(Vec2 { x: 1, y: 2 });
    assert_eq!(pair, Vec2 { x: 5, y: -9 });
    pair = pair.mul(Vec2 { x: 3, y: 2 });
    assert_eq!(pair, Vec2 { x: 15, y: -18 });
    pair = pair.div(Vec2 { x: 3, y: 2 });
    assert_eq!(pair, Vec2 { x: 5, y: -9 });
    pair = pair.add(Vec2 { x: 1, y: 2 });
    assert_eq!(pair, Vec2 { x: 6, y: -7 });
}

#[test]
fn wrapping_math() {
    let pair: Vec2<u8> = Vec2 { x: 3, y: 250 };
    assert_eq!(pair.wrapping_add(&Vec2 { x: 2, y: 1 }), Vec2 { x: 5, y: 251 });
    assert_eq!(pair.wrapping_add(&Vec2 { x: 254, y: 2 }), Vec2 { x: 1, y: 252 });
    assert_eq!(pair.wrapping_add(&Vec2 { x: 2, y: 254 }), Vec2 { x: 5, y: 248 });

    assert_eq!(pair.wrapping_sub(&Vec2 { x: 2, y: 1 }), Vec2 { x: 1, y: 249 });
    assert_eq!(pair.wrapping_sub(&Vec2 { x: 2, y: 254 }), Vec2 { x: 1, y: 252 });
    assert_eq!(pair.wrapping_sub(&Vec2 { x: 254, y: 2 }), Vec2 { x: 5, y: 248 });

    assert_eq!(pair.wrapping_mul(&Vec2 { x: 9, y: 1 }), Vec2 { x: 27, y: 250 });
    assert_eq!(pair.wrapping_mul(&Vec2 { x: 5, y: 2 }), Vec2 { x: 15, y: 244 });
    assert_eq!(pair.wrapping_mul(&Vec2 { x: 2, y: 5 }), Vec2 { x: 6, y: 226 });

    assert_eq!(
        Vec2 { x: -5i8, y: 127 }.wrapping_neg(),
        Vec2 { x: 5, y: -127 }
    );
    assert_eq!(
        Vec2 { x: -5i8, y: -128 }.wrapping_neg(),
        Vec2 { x: 5, y: -128 }
    );
}

#[test]
fn saturating_math() {
    let pair: Vec2<u8> = Vec2 { x: 3, y: 250 };
    assert_eq!(pair.saturating_add(&Vec2 { x: 2, y: 1 }), Vec2 { x: 5, y: 251 });
    assert_eq!(pair.saturating_add(&Vec2 { x: 254, y: 2 }), Vec2 { x: 255, y: 252 });
    assert_eq!(pair.saturating_add(&Vec2 { x: 2, y: 254 }), Vec2 { x: 5, y: 255 });

    assert_eq!(pair.saturating_sub(&Vec2 { x: 2, y: 1 }), Vec2 { x: 1, y: 249 });
    assert_eq!(pair.saturating_sub(&Vec2 { x: 2, y: 254 }), Vec2 { x: 1, y: 0 });
    assert_eq!(pair.saturating_sub(&Vec2 { x: 254, y: 2 }), Vec2 { x: 0, y: 248 });

    assert_eq!(pair.saturating_mul(&Vec2 { x: 9, y: 1 }), Vec2 { x: 27, y: 250 });
    assert_eq!(pair.saturating_mul(&Vec2 { x: 5, y: 2 }), Vec2 { x: 15, y: 255 });
    assert_eq!(pair.saturating_mul(&Vec2 { x: 2, y: 5 }), Vec2 { x: 6, y: 255 });
}

#[test]
fn checked_math() {
    let pair: Vec2<u8> = Vec2 { x: 3, y: 250 };
    assert_eq!(
        pair.checked_add(&Vec2 { x: 2, y: 1 }),
        Some(Vec2 { x: 5, y: 251 })
    );
    assert_eq!(pair.checked_add(&Vec2 { x: 254, y: 2 }), None);
    assert_eq!(pair.checked_add(&Vec2 { x: 2, y: 254 }), None);

    assert_eq!(
        pair.checked_sub(&Vec2 { x: 2, y: 1 }),
        Some(Vec2 { x: 1, y: 249 })
    );
    assert_eq!(pair.checked_sub(&Vec2 { x: 2, y: 254 }), None);
    assert_eq!(pair.checked_sub(&Vec2 { x: 254, y: 2 }), None);

    assert_eq!(
        pair.checked_mul(&Vec2 { x: 9, y: 1 }),
        Some(Vec2 { x: 27, y: 250 })
    );
    assert_eq!(pair.checked_mul(&Vec2 { x: 5, y: 2 }), None);
    assert_eq!(pair.checked_mul(&Vec2 { x: 2, y: 5 }), None);

    assert_eq!(
        pair.checked_div(&Vec2 { x: 3, y: 2 }),
        Some(Vec2 { x: 1, y: 125 })
    );
    assert_eq!(pair.checked_div(&Vec2 { x: 9, y: 0 }), None);

    assert_eq!(
        pair.checked_rem(&Vec2 { x: 2, y: 9 }),
        Some(Vec2 { x: 1, y: 7 })
    );
    assert_eq!(pair.checked_rem(&Vec2 { x: 8, y: 0 }), None);

    assert_eq!(
        Vec2 { x: -5i8, y: 127 }.checked_neg(),
        Some(Vec2 { x: 5, y: -127 })
    );
    assert_eq!(Vec2 { x: -5i8, y: -128 }.checked_neg(), None);
}

#[test]
fn dot_product() {
    let pair: Vec2<i64> = Vec2 { x: 5, y: 3 };
    assert_eq!(pair.dot(Vec2 { x: 4, y: 8 }), 5 * 4 + 3 * 8);
    assert_eq!(pair.dot_ref(&Vec2 { x: 4, y: 8 }), 44);
    assert_eq!(pair.checked_dot(&Vec2 { x: 2, y: 4 }), Some(22));
    assert_eq!(
        Vec2 { x: i64::MAX, y: 1i64 }.checked_dot(&Vec2 { x: 2, y: 0 }),
        None
    );
}

#[test]
fn square_magnitude() {
    let pair: Vec2<i64> = Vec2 { x: 3, y: 5 };
    assert_eq!(pair.sqr_magnitude(), 34);
    assert_eq!(pair.sqr_magnitude_ref(), 34);
    assert_eq!(pair.checked_sqr_mag(), Some(34));
    assert_eq!(Vec2 { x: i64::MAX, y: 0i64 }.checked_sqr_mag(), None);
}

#[test]
fn moves() {
    let vector: Vec2<i64> = Vec2 { x: 4, y: 3 };
    assert_eq!(vector.move_one(Direction::Up), Vec2 { x: 4, y: 2 });
    assert_eq!(
        vector.move_by(DirecVector { direction: Direction::Right, magnitude: 5 }),
        Vec2 { x: 9, y: 3 }
    );
    assert_eq!(
        vector.checked_move(Direction::Left),
        Some(Vec2 { x: 3, y: 3 })
    );
    assert_eq!(
        Vec2 { x: i64::MIN, y: 0i64 }.checked_move(Direction::Left),
        None
    );
}

#[test]
fn directions_between_points() {
    let base: Vec2<i64> = Vec2 { x: 2, y: 7 };
    assert_eq!(base.direction_to(&Vec2 { x: 2, y: 3 }), Some(Direction::Up));
    assert_eq!(base.direction_to(&Vec2 { x: 2, y: 9 }), Some(Direction::Down));
    assert_eq!(base.direction_to(&Vec2 { x: 0, y: 7 }), Some(Direction::Left));
    assert_eq!(base.direction_to(&Vec2 { x: 5, y: 7 }), Some(Direction::Right));
    assert_eq!(base.direction_to(&base), None);
    assert_eq!(base.direction_to(&Vec2 { x: 3, y: 8 }), None);
}

#[test]
fn transposes() {
    let pair: Vec2<Option<i64>> = Vec2 { x: Some(1), y: Some(2) };
    assert_eq!(pair.transpose(), Some(Vec2 { x: 1, y: 2 }));
    let pair: Vec2<Option<i64>> = Vec2 { x: None, y: Some(2) };
    assert_eq!(pair.transpose(), None);
    let pair: Vec2<Result<i64, &str>> = Vec2 { x: Err("x"), y: Err("y") };
    assert_eq!(pair.transpose_err_x(), Err("x"));
    assert_eq!(pair.transpose_err_y(), Err("y"));
}

#[test]
fn integer_magnitude() {
    let vector: Vec2<i64> = Vec2 { x: 4, y: 3 };
    assert_eq!(vector.int_magnitude(), 5);
    let vector: Vec2<i64> = Vec2 { x: 3, y: 5 };
    assert_eq!(vector.int_magnitude(), 5);
    assert_eq!(vector.int_magnitude_ref(), 5);
    assert_eq!(vector.checked_int_mag(), Some(5));
    assert_eq!(Vec2 { x: i64::MAX, y: 1i64 }.checked_int_mag(), None);
}

#[test]
fn parse_points() {
    assert_eq!(Vec2::from_str_radix("3, -47", 10), Ok(Vec2 { x: 3, y: -47 }));
    assert_eq!(Vec2::from_str_radix(" ff ,10", 16), Ok(Vec2 { x: 255, y: 16 }));
    assert_eq!(Vec2::from_str_radix("12 34", 10), Err(FromStrRadixErr::MissingSep));
    assert_eq!(
        Vec2::from_str_radix("z9, 1", 10),
        Err(FromStrRadixErr::BadCoord(Axis::X, CoordParseErr::BadDigit))
    );
    assert_eq!(
        Vec2::from_str_radix("1,", 10),
        Err(FromStrRadixErr::BadCoord(Axis::Y, CoordParseErr::Empty))
    );
    assert_eq!(
        Vec2::from_str_radix("1, 99999999999999999999", 10),
        Err(FromStrRadixErr::BadCoord(Axis::Y, CoordParseErr::OutOfRange))
    );
}

#[test]
fn center_origin() {
    let vector: Vec2<u8> = Vec2 { x: 105, y: 97 };
    let centered: Vec2<i8> = Vec2 { x: 5, y: 102 };
    assert_eq!(vector.center_origin_at(&Vec2 { x: 100, y: 200 }), centered);

    let vector: Vec2<u8> = Vec2 { x: 127, y: 130 };
    let centered: Vec2<i8> = Vec2 { x: -1, y: -3 };
    assert_eq!(vector.center_origin(), centered);
}

#[test]
fn flips() {
    let vector: Vec2<i64> = Vec2 { x: 4, y: 3 };
    assert_eq!(vector.flip_y(), Vec2 { x: 4, y: -4 });
    let vector: Vec2<i8> = Vec2 { x: 0, y: -128 };
    assert_eq!(vector.flip_y(), Vec2 { x: 0, y: 127 });
}
