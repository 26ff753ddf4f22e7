//! Bit-level conversions between the signednesses of integers, and
//! related helpers: absolute distance and "excess of N" re-centering.

use vstd::prelude::*;

verus! {

/// Bit-casts from unsigned integers to 2's complement signed integers of
/// the same width.
pub trait CastSigned {
    /// Type of the target signed version.
    type Target;

    /// What the bit-cast returns.
    spec fn spec_cast_signed(&self) -> Self::Target;

    /// Bit-casts the given unsigned number into a signed version.
    fn cast_signed(&self) -> (r: Self::Target)
        ensures
            r == self.spec_cast_signed(),
    ;
}

/// Bit-casts from 2's complement signed integers to unsigned integers of
/// the same width.
pub trait CastUnsigned {
    /// Type of the target unsigned version.
    type Target;

    /// What the bit-cast returns.
    spec fn spec_cast_unsigned(&self) -> Self::Target;

    /// Bit-casts the given signed number into an unsigned version.
    fn cast_unsigned(&self) -> (r: Self::Target)
        ensures
            r == self.spec_cast_unsigned(),
    ;
}

impl CastSigned for u8 {
    type Target = i8;

    /// The 2's complement reinterpretation of the byte.
    open spec fn spec_cast_signed(&self) -> i8 {
        if *self < 128 {
            *self as i8
        } else {
            (*self - 256) as i8
        }
    }

    fn cast_signed(&self) -> (r: i8)
        ensures
            r == self.spec_cast_signed(),
    {
        if *self < 128 {
            *self as i8
        } else {
            let wide: i16 = (*self as i16) - 256;
            wide as i8
        }
    }
}

impl CastUnsigned for i8 {
    type Target = u8;

    /// The unsigned reinterpretation of the byte.
    open spec fn spec_cast_unsigned(&self) -> u8 {
        if *self >= 0 {
            *self as u8
        } else {
            (*self + 256) as u8
        }
    }

    fn cast_unsigned(&self) -> (r: u8)
        ensures
            r == self.spec_cast_unsigned(),
    {
        if *self >= 0 {
            *self as u8
        } else {
            let wide: i16 = (*self as i16) + 256;
            wide as u8
        }
    }
}

impl CastSigned for u16 {
    type Target = i16;

    /// The 2's complement reinterpretation of the word.
    open spec fn spec_cast_signed(&self) -> i16 {
        if *self < 32768 {
            *self as i16
        } else {
            (*self - 65536) as i16
        }
    }

    fn cast_signed(&self) -> (r: i16)
        ensures
            r == self.spec_cast_signed(),
    {
        if *self < 32768 {
            *self as i16
        } else {
            let wide: i32 = (*self as i32) - 65536;
            wide as i16
        }
    }
}

impl CastUnsigned for i16 {
    type Target = u16;

    /// The unsigned reinterpretation of the word.
    open spec fn spec_cast_unsigned(&self) -> u16 {
        if *self >= 0 {
            *self as u16
        } else {
            (*self + 65536) as u16
        }
    }

    fn cast_unsigned(&self) -> (r: u16)
        ensures
            r == self.spec_cast_unsigned(),
    {
        if *self >= 0 {
            *self as u16
        } else {
            let wide: i32 = (*self as i32) + 65536;
            wide as u16
        }
    }
}

/// Absolute distance between two numbers of the same type.
pub trait Distance where Self: core::marker::Sized {
    /// The absolute difference, in unbounded integer arithmetic.
    spec fn spec_distance(self, other: Self) -> int;

    /// Whether the absolute difference is representable in the type.
    spec fn spec_distance_fits(self, other: Self) -> bool;

    /// Computes the absolute (unsigned) distance between the two numbers.
    fn distance(self, other: Self) -> (r: Self)
        requires
            self.spec_distance_fits(other),
        ensures
            r.spec_distance_value() == self.spec_distance(other),
    ;

    /// The mathematical value of a number of this type.
    spec fn spec_distance_value(self) -> int;
}

impl Distance for u8 {
    open spec fn spec_distance(self, other: u8) -> int {
        if self > other {
            self - other
        } else {
            other - self
        }
    }

    open spec fn spec_distance_fits(self, other: u8) -> bool {
        true
    }

    open spec fn spec_distance_value(self) -> int {
        self as int
    }

    fn distance(self, other: u8) -> (r: u8)
        ensures
            r.spec_distance_value() == self.spec_distance(other),
    {
        if self > other {
            self - other
        } else {
            other - self
        }
    }
}

impl Distance for i8 {
    open spec fn spec_distance(self, other: i8) -> int {
        if self > other {
            self - other
        } else {
            other - self
        }
    }

    open spec fn spec_distance_fits(self, other: i8) -> bool {
        self.spec_distance(other) <= i8::MAX
    }

    open spec fn spec_distance_value(self) -> int {
        self as int
    }

    fn distance(self, other: i8) -> (r: i8)
        ensures
            r.spec_distance_value() == self.spec_distance(other),
    {
        if self > other {
            let wide: i16 = (self as i16) - (other as i16);
            wide as i8
        } else {
            let wide: i16 = (other as i16) - (self as i16);
            wide as i8
        }
    }
}

impl Distance for i64 {
    open spec fn spec_distance(self, other: i64) -> int {
        if self > other {
            self - other
        } else {
            other - self
        }
    }

    open spec fn spec_distance_fits(self, other: i64) -> bool {
        self.spec_distance(other) <= i64::MAX
    }

    open spec fn spec_distance_value(self) -> int {
        self as int
    }

    fn distance(self, other: i64) -> (r: i64)
        ensures
            r.spec_distance_value() == self.spec_distance(other),
    {
        if self > other {
            self - other
        } else {
            other - self
        }
    }
}

/// The "excess" that is half of an unsigned type's value range: the new
/// zero when re-centering unsigned coordinates.
pub trait HalfExcess where Self: core::marker::Sized {
    /// What the half excess is.
    spec fn spec_half_excess() -> Self;

    /// Gets the excess that is half of the type's maximum value plus one.
    fn half_excess() -> (r: Self)
        ensures
            r == Self::spec_half_excess(),
    ;
}

impl HalfExcess for u8 {
    open spec fn spec_half_excess() -> u8 {
        128u8
    }

    fn half_excess() -> (r: u8)
        ensures
            r == Self::spec_half_excess(),
    {
        u8::MAX / 2 + 1
    }
}

impl HalfExcess for u16 {
    open spec fn spec_half_excess() -> u16 {
        32768u16
    }

    fn half_excess() -> (r: u16)
        ensures
            r == Self::spec_half_excess(),
    {
        u16::MAX / 2 + 1
    }
}

/// Conversion of unsigned numbers that stand for "excess of N" values
/// into plain 2's complement numbers: `N` becomes the new zero.
pub trait ExcessToSigned: CastSigned where Self: core::marker::Sized {
    /// What the conversion returns.
    spec fn spec_excess_to_signed(&self, excess: &Self) -> Self::Target;

    /// Converts an "excess of N" number into a 2's complement number.
    fn excess_to_signed(&self, excess: &Self) -> (r: Self::Target)
        ensures
            r == self.spec_excess_to_signed(excess),
    ;
}

impl ExcessToSigned for u8 {
    /// The wrapping difference to the excess, reinterpreted as signed.
    open spec fn spec_excess_to_signed(&self, excess: &u8) -> i8 {
        (vstd::wrapping::u8_specs::wrapping_sub(*self, *excess)).spec_cast_signed()
    }

    fn excess_to_signed(&self, excess: &u8) -> (r: i8)
        ensures
            r == self.spec_excess_to_signed(excess),
    {
        CastSigned::cast_signed(&self.wrapping_sub(*excess))
    }
}

impl ExcessToSigned for u16 {
    /// The wrapping difference to the excess, reinterpreted as signed.
    open spec fn spec_excess_to_signed(&self, excess: &u16) -> i16 {
        (vstd::wrapping::u16_specs::wrapping_sub(*self, *excess)).spec_cast_signed()
    }

    fn excess_to_signed(&self, excess: &u16) -> (r: i16)
        ensures
            r == self.spec_excess_to_signed(excess),
    {
        CastSigned::cast_signed(&self.wrapping_sub(*excess))
    }
}

/// Conversion of 2's complement numbers into unsigned "excess of N"
/// numbers: zero is stored as `N`.
pub trait SignedToExcess: CastUnsigned where Self: core::marker::Sized {
    /// What the conversion returns.
    spec fn spec_signed_to_excess(&self, excess: &Self::Target) -> Self::Target;

    /// Converts a 2's complement number into an "excess of N" number.
    fn signed_to_excess(&self, excess: &Self::Target) -> (r: Self::Target)
        ensures
            r == self.spec_signed_to_excess(excess),
    ;
}

impl SignedToExcess for i8 {
    /// The unsigned reinterpretation, shifted by the excess with wrapping.
    open spec fn spec_signed_to_excess(&self, excess: &u8) -> u8 {
        vstd::wrapping::u8_specs::wrapping_add(self.spec_cast_unsigned(), *excess)
    }

    fn signed_to_excess(&self, excess: &u8) -> (r: u8)
        ensures
            r == self.spec_signed_to_excess(excess),
    {
        CastUnsigned::cast_unsigned(self).wrapping_add(*excess)
    }
}

impl SignedToExcess for i16 {
    /// The unsigned reinterpretation, shifted by the excess with wrapping.
    open spec fn spec_signed_to_excess(&self, excess: &u16) -> u16 {
        vstd::wrapping::u16_specs::wrapping_add(self.spec_cast_unsigned(), *excess)
    }

    fn signed_to_excess(&self, excess: &u16) -> (r: u16)
        ensures
            r == self.spec_signed_to_excess(excess),
    {
        CastUnsigned::cast_unsigned(self).wrapping_add(*excess)
    }
}

} // verus!
