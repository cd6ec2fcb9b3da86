//! Real-valued attributes of signal definitions.

use vstd::prelude::*;

verus! {

/// The bit pattern of the double `1.0`.
pub const DOUBLE_ONE: u64 = 0x3FF0_0000_0000_0000;

/// The bit pattern of the double `-0.0`.
pub const DOUBLE_NEGATIVE_ZERO: u64 = 0x8000_0000_0000_0000;

/// The exponent field of a double, all ones for infinities and NaNs.
pub const DOUBLE_EXPONENT_MASK: u64 = 0x7FF0_0000_0000_0000;

/// A real number attached to a signal definition: a scale factor, an offset
/// or a limit.
///
/// Definition files give these as decimal text. The library never computes
/// with them; it only stores them and tests them for the two values that
/// select how a decoded signal is presented, one and zero. A scalar is
/// therefore held exactly, either as a whole number or as the bit pattern of
/// an IEEE-754 binary64 value.
#[derive(Clone, Copy, Debug, PartialEq, Eq, Structural)]
pub enum Scalar {
    /// A non-negative whole number.
    Whole(u64),
    /// The bit pattern of a binary64 value.
    Double(u64),
}

impl Scalar {
    /// Whether the scalar denotes the number one.
    pub open spec fn is_one_spec(self) -> bool {
        match self {
            Scalar::Whole(n) => n == 1,
            Scalar::Double(bits) => bits == DOUBLE_ONE,
        }
    }

    /// Whether the scalar denotes zero; both signed zeros of binary64 count.
    pub open spec fn is_zero_spec(self) -> bool {
        match self {
            Scalar::Whole(n) => n == 0,
            Scalar::Double(bits) => bits == 0 || bits == DOUBLE_NEGATIVE_ZERO,
        }
    }

    /// Whether the scalar is a number, neither an infinity nor a NaN.
    pub open spec fn is_finite_spec(self) -> bool {
        match self {
            Scalar::Whole(_) => true,
            Scalar::Double(bits) => bits & DOUBLE_EXPONENT_MASK != DOUBLE_EXPONENT_MASK,
        }
    }

    /// The whole number `n`.
    pub fn whole(n: u64) -> (r: Scalar)
        ensures
            r == Scalar::Whole(n),
    {
        Scalar::Whole(n)
    }

    /// The binary64 value with the given bit pattern.
    pub fn from_bits(bits: u64) -> (r: Scalar)
        ensures
            r == Scalar::Double(bits),
    {
        Scalar::Double(bits)
    }

    /// Tests for the number one.
    #[verifier::when_used_as_spec(is_one_spec)]
    pub fn is_one(self) -> (r: bool)
        ensures
            r == self.is_one_spec(),
    {
        match self {
            Scalar::Whole(n) => n == 1,
            Scalar::Double(bits) => bits == DOUBLE_ONE,
        }
    }

    /// Tests for zero.
    #[verifier::when_used_as_spec(is_zero_spec)]
    pub fn is_zero(self) -> (r: bool)
        ensures
            r == self.is_zero_spec(),
    {
        match self {
            Scalar::Whole(n) => n == 0,
            Scalar::Double(bits) => bits == 0 || bits == DOUBLE_NEGATIVE_ZERO,
        }
    }

    /// Tests that the scalar is neither an infinity nor a NaN.
    #[verifier::when_used_as_spec(is_finite_spec)]
    pub fn is_finite(self) -> (r: bool)
        ensures
            r == self.is_finite_spec(),
    {
        match self {
            Scalar::Whole(_) => true,
            Scalar::Double(bits) => bits & DOUBLE_EXPONENT_MASK != DOUBLE_EXPONENT_MASK,
        }
    }
}

} // verus!
