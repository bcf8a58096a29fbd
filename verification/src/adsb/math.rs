//! Angles and points as they travel through the tracker.
//!
//! Every real number here is the bit pattern of an IEEE 754 single-precision
//! value. The tracker never does arithmetic on them; it only asks whether a
//! number is above zero and whether two numbers are equal, and both questions
//! have an exact answer on the bit pattern.

use vstd::prelude::*;

verus! {

/// A duration in seconds, as a single-precision bit pattern.
#[derive(Clone, Copy, Debug, PartialEq, Eq, Structural)]
pub struct Seconds(pub u32);

/// An angle in degrees, as a single-precision bit pattern.
#[derive(Clone, Copy, Debug, PartialEq, Eq, Structural)]
pub struct Degrees(pub u32);

/// A geographic position.
#[derive(Clone, Copy, Debug, PartialEq, Eq, Structural)]
pub struct Coordinate {
    pub longitude: Degrees,
    pub latitude: Degrees,
}

/// A point in space, each component a single-precision bit pattern.
#[derive(Clone, Copy, Debug, PartialEq, Eq, Structural)]
pub struct Point3 {
    pub x: u32,
    pub y: u32,
    pub z: u32,
}

/// Where a report puts an aircraft on the rendering sphere: the coordinate that
/// the tracker stores, and the point at which the aircraft is drawn.
#[derive(Clone, Copy, Debug, PartialEq, Eq, Structural)]
pub struct Projection {
    pub coordinate: Coordinate,
    pub translation: Point3,
}

/// The pattern is not a number: all exponent bits set and a fraction that is
/// not zero, with either sign.
pub open spec fn is_nan(bits: u32) -> bool {
    ||| 0x7F80_0000 < bits <= 0x7FFF_FFFF
    ||| 0xFF80_0000 < bits
}

/// The pattern is zero, with either sign.
pub open spec fn is_zero(bits: u32) -> bool {
    bits == 0 || bits == 0x8000_0000
}

/// The pattern is a number greater than zero: sign bit clear, not zero, and at
/// most positive infinity.
pub open spec fn is_above_zero(bits: u32) -> bool {
    0 < bits <= 0x7F80_0000
}

/// The two patterns compare equal as numbers: neither is a NaN, and they are
/// the same pattern or both are zeros.
pub open spec fn equal_numbers(a: u32, b: u32) -> bool {
    &&& !is_nan(a)
    &&& !is_nan(b)
    &&& (a == b || (is_zero(a) && is_zero(b)))
}

/// Whether the number is greater than zero.
pub fn above_zero(bits: u32) -> (r: bool)
    ensures
        r == is_above_zero(bits),
{
    0 < bits && bits <= 0x7F80_0000
}

/// Whether the two numbers compare equal.
pub fn same_number(a: u32, b: u32) -> (r: bool)
    ensures
        r == equal_numbers(a, b),
{
    let a_nan: bool = (0x7F80_0000 < a && a <= 0x7FFF_FFFF) || 0xFF80_0000 < a;
    let b_nan: bool = (0x7F80_0000 < b && b <= 0x7FFF_FFFF) || 0xFF80_0000 < b;
    let a_zero: bool = a == 0 || a == 0x8000_0000;
    let b_zero: bool = b == 0 || b == 0x8000_0000;
    !a_nan && !b_nan && (a == b || (a_zero && b_zero))
}

impl Point3 {
    /// The two points are equal component by component, as numbers.
    pub open spec fn same_place(self, other: Point3) -> bool {
        &&& equal_numbers(self.x, other.x)
        &&& equal_numbers(self.y, other.y)
        &&& equal_numbers(self.z, other.z)
    }

    /// Whether the two points are equal component by component.
    pub fn coincides(&self, other: &Point3) -> (r: bool)
        ensures
            r == self.same_place(*other),
    {
        same_number(self.x, other.x) && same_number(self.y, other.y) && same_number(
            self.z,
            other.z,
        )
    }
}

} // verus!
