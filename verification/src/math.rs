use vstd::prelude::*;

use crate::json::JsonNumber;

verus! {

/// A 2D vector over the scalar type `S` used for positions, velocities,
/// extents and gravity.
#[derive(Debug, PartialEq)]
pub struct Vec2<S> {
    pub x: S,
    pub y: S,
}

impl<S: Copy> Clone for Vec2<S> {
    fn clone(&self) -> (r: Self)
        ensures
            r == *self,
    {
        Vec2 { x: self.x, y: self.y }
    }
}

impl<S: Copy> Copy for Vec2<S> {}

impl<S> Vec2<S> {
    /// The vector `(x, y)`.
    pub fn new(x: S, y: S) -> (r: Self)
        ensures
            r.x == x,
            r.y == y,
    {
        Vec2 { x, y }
    }
}

/// The operations on scalars that rule actions need.
pub trait Scalar: Copy {
    /// `-self`.
    spec fn spec_neg(self) -> Self;

    /// Whether the JSON number `n`, read as a scalar, is zero.
    spec fn spec_number_is_zero(n: JsonNumber) -> bool;

    /// `-self`.
    fn neg(self) -> (r: Self)
        ensures
            r == self.spec_neg(),
    ;

    /// Whether the JSON number `n`, read as a scalar, is zero.
    fn number_is_zero(n: &JsonNumber) -> (r: bool)
        ensures
            r == Self::spec_number_is_zero(*n),
    ;
}

/// An IEEE-754 binary32 value held by its bit pattern: sign bit 31,
/// exponent bits 30..23, fraction bits 22..0.
#[derive(PartialEq, Eq, Structural, Debug)]
pub struct F32Bits(pub u32);

impl Clone for F32Bits {
    fn clone(&self) -> (r: Self)
        ensures
            r == *self,
    {
        F32Bits(self.0)
    }
}

impl Copy for F32Bits {}

/// The magnitude bits of the binary64 value 2^-150, half the smallest
/// positive binary32 subnormal. A binary64 value converts to a binary32
/// zero (rounding to nearest, ties to even) exactly when its magnitude is
/// at most this.
pub const F64_HALF_MIN_F32_BITS: u64 = 0x3690_0000_0000_0000u64;

impl Scalar for F32Bits {
    /// Negation flips the sign bit, as IEEE-754 negation does for every
    /// value, NaNs included.
    open spec fn spec_neg(self) -> Self {
        F32Bits(self.0 ^ 0x8000_0000u32)
    }

    /// An integer converts to a binary32 zero only when it is zero; a
    /// binary64 value (by its bits) converts to zero when its magnitude
    /// is at most 2^-150. NaN is not zero.
    open spec fn spec_number_is_zero(n: JsonNumber) -> bool {
        match n {
            JsonNumber::PosInt(v) => v == 0,
            JsonNumber::NegInt(v) => v == 0,
            JsonNumber::Float(bits) => bits & 0x7fff_ffff_ffff_ffffu64 <= F64_HALF_MIN_F32_BITS,
        }
    }

    fn neg(self) -> (r: Self) {
        F32Bits(self.0 ^ 0x8000_0000u32)
    }

    fn number_is_zero(n: &JsonNumber) -> (r: bool) {
        match n {
            JsonNumber::PosInt(v) => *v == 0,
            JsonNumber::NegInt(v) => *v == 0,
            JsonNumber::Float(bits) => *bits & 0x7fff_ffff_ffff_ffffu64 <= F64_HALF_MIN_F32_BITS,
        }
    }
}

} // verus!
