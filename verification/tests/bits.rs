use gardiz::bits::{
    CastSigned, CastUnsigned, Distance, ExcessToSigned, HalfExcess, SignedToExcess,
};

#[test]
fn distance() {
    assert_eq!(8u8.distance(3), 5);
    assert_eq!(4u8.distance(7), 3);
    assert_eq!(5u8.distance(5), 0);
    assert_eq!((-9i8).distance(1), 10);
    assert_eq!((-2i8).distance(-17), 15);
}

#[test]
fn half_excesss() {
    assert_eq!(<u8 as HalfExcess>::half_excess(), 0x80);
    assert_eq!(<u16 as HalfExcess>::half_excess(), 0x8000);
}

#[test]
fn excesss_to_signed() {
    assert_eq!(0u8.excess_to_signed(&10), -10);
    assert_eq!(9u8.excess_to_signed(&10), -1);
    assert_eq!(10u8.excess_to_signed(&10), 0);
    assert_eq!(11u8.excess_to_signed(&10), 1);
    assert_eq!(13u8.excess_to_signed(&9), 4);
    assert_eq!(130u8.excess_to_signed(&128), 2);
}

#[test]
fn signed_to_excesss() {
    assert_eq!((-10i8).signed_to_excess(&10), 0);
    assert_eq!((-1i8).signed_to_excess(&10), 9);
    assert_eq!(0i8.signed_to_excess(&10), 10);
    assert_eq!(1i8.signed_to_excess(&10), 11);
    assert_eq!(4i8.signed_to_excess(&9), 13);
    assert_eq!(2i8.signed_to_excess(&128), 130);
}

#[test]
fn signed_to_unsigned() {
    assert_eq!(CastUnsigned::cast_unsigned(&127i8), 127);
    assert_eq!(CastUnsigned::cast_unsigned(&9i8), 9);
    assert_eq!(CastUnsigned::cast_unsigned(&1i8), 1);
    assert_eq!(CastUnsigned::cast_unsigned(&0i8), 0);
    assert_eq!(CastUnsigned::cast_unsigned(&-1i8), 255);
    assert_eq!(CastUnsigned::cast_unsigned(&-3i8), 253);
    assert_eq!(CastUnsigned::cast_unsigned(&-127i8), 129);
    assert_eq!(CastUnsigned::cast_unsigned(&-128i8), 128);
}

#[test]
fn unsigned_to_signed() {
    assert_eq!(CastSigned::cast_signed(&127u8), 127);
    assert_eq!(CastSigned::cast_signed(&9u8), 9);
    assert_eq!(CastSigned::cast_signed(&1u8), 1);
    assert_eq!(CastSigned::cast_signed(&0u8), 0);
    assert_eq!(CastSigned::cast_signed(&255u8), -1);
    assert_eq!(CastSigned::cast_signed(&253u8), -3);
    assert_eq!(CastSigned::cast_signed(&129u8), -127);
    assert_eq!(CastSigned::cast_signed(&128u8), -128);
}

#[test]
fn wide_casts() {
    assert_eq!(CastSigned::cast_signed(&65535u16), -1);
    assert_eq!(CastSigned::cast_signed(&32768u16), -32768);
    assert_eq!(CastUnsigned::cast_unsigned(&-1i16), 65535);
    assert_eq!(CastUnsigned::cast_unsigned(&-32768i16), 32768);
}
