//! Coefficients: IEEE 754 binary64 numbers, carried as their 64-bit encodings.

use vstd::prelude::*;

verus! {

/// The sign bit of a binary64 encoding.
pub const SIGN_BIT: u64 = 0x8000_0000_0000_0000u64;

/// Every bit of a binary64 encoding but the sign.
pub const MAGNITUDE_BITS: u64 = 0x7fff_ffff_ffff_ffffu64;

/// The encoding of positive infinity: the largest magnitude that is a number.
pub const INFINITY_BITS: u64 = 0x7ff0_0000_0000_0000u64;

/// A double-precision number, held as its encoding.
///
/// The library never computes with coefficients beyond flipping a sign and
/// testing against zero, and these are exact on the encoding.
#[derive(Clone, Copy, Debug, PartialEq, Eq, Structural)]
pub struct Scalar {
    pub bits: u64,
}

impl Scalar {
    /// The encoding with the sign flipped.
    pub open spec fn spec_neg(self) -> Scalar {
        Scalar { bits: self.bits ^ SIGN_BIT }
    }

    /// Whether this encodes positive or negative zero.
    pub open spec fn spec_is_zero(self) -> bool {
        self.bits & MAGNITUDE_BITS == 0
    }

    /// Whether this encodes a number that is at least zero: a zero of either
    /// sign, or a positive number up to infinity. No NaN is.
    pub open spec fn spec_is_nonnegative(self) -> bool {
        self.spec_is_zero() || (self.bits & SIGN_BIT == 0 && self.bits & MAGNITUDE_BITS
            <= INFINITY_BITS)
    }

    /// Positive zero.
    pub open spec fn spec_zero() -> Scalar {
        Scalar { bits: 0 }
    }

    /// The number with the given encoding.
    pub fn from_bits(bits: u64) -> (s: Scalar)
        ensures
            s.bits == bits,
    {
        Scalar { bits }
    }

    /// The encoding of the number.
    pub fn to_bits(self) -> (bits: u64)
        ensures
            bits == self.bits,
    {
        self.bits
    }

    /// Positive zero.
    #[verifier::when_used_as_spec(spec_zero)]
    pub fn zero() -> (s: Scalar)
        ensures
            s == Scalar::spec_zero(),
    {
        Scalar { bits: 0 }
    }

    /// The number with its sign flipped.
    #[verifier::when_used_as_spec(spec_neg)]
    pub fn neg(self) -> (s: Scalar)
        ensures
            s == self.spec_neg(),
    {
        Scalar { bits: self.bits ^ SIGN_BIT }
    }

    /// Whether the number is zero, of either sign.
    #[verifier::when_used_as_spec(spec_is_zero)]
    pub fn is_zero(self) -> (z: bool)
        ensures
            z == self.spec_is_zero(),
    {
        self.bits & MAGNITUDE_BITS == 0
    }

    /// Whether the number is at least zero.
    #[verifier::when_used_as_spec(spec_is_nonnegative)]
    pub fn is_nonnegative(self) -> (z: bool)
        ensures
            z == self.spec_is_nonnegative(),
    {
        self.is_zero() || (self.bits & SIGN_BIT == 0 && self.bits & MAGNITUDE_BITS
            <= INFINITY_BITS)
    }
}

/// Flipping the sign twice gives the number back.
pub proof fn lemma_neg_involution(s: Scalar)
    ensures
        s.neg().neg() == s,
{
    let b = s.bits;
    assert((b ^ 0x8000_0000_0000_0000u64) ^ 0x8000_0000_0000_0000u64 == b) by (bit_vector);
}

/// Flipping the sign keeps zero zero and nonzero nonzero.
pub proof fn lemma_neg_keeps_zero(s: Scalar)
    ensures
        s.neg().is_zero() == s.is_zero(),
{
    let b = s.bits;
    assert(((b ^ 0x8000_0000_0000_0000u64) & 0x7fff_ffff_ffff_ffffu64 == 0) == (b
        & 0x7fff_ffff_ffff_ffffu64 == 0)) by (bit_vector);
}

} // verus!
