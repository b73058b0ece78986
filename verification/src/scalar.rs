//! Single-precision IEEE 754 numbers, held by their bit patterns.
//!
//! The engine never does arithmetic on the numbers it is given: it orders
//! them. This module states what the order of two bit patterns is and
//! computes it with integer operations only.

use vstd::prelude::*;

verus! {

/// The bit that holds the sign.
pub const SIGN_BIT: u32 = 0x8000_0000;

/// The pattern of positive infinity; every larger magnitude is not a number.
pub const INFINITY_BITS: u32 = 0x7f80_0000;

/// The pattern of negative infinity.
pub const NEG_INFINITY_BITS: u32 = 0xff80_0000;

/// The pattern of the number one.
pub const ONE_BITS: u32 = 0x3f80_0000;

/// The pattern of the largest finite number.
pub const MAX_BITS: u32 = 0x7f7f_ffff;

/// A single-precision number, stored as its 32-bit pattern.
#[derive(Clone, Copy, Debug)]
pub struct Scalar {
    pub bits: u32,
}

impl Scalar {
    /// The pattern without its sign bit.
    pub open spec fn magnitude(self) -> int {
        if self.bits >= SIGN_BIT {
            self.bits - SIGN_BIT
        } else {
            self.bits as int
        }
    }

    /// Whether the sign bit is set (true of negative zero too).
    pub open spec fn sign_negative(self) -> bool {
        self.bits >= SIGN_BIT
    }

    /// Whether the pattern stands for no number at all.
    pub open spec fn spec_is_nan(self) -> bool {
        self.magnitude() > INFINITY_BITS
    }

    /// Whether the pattern stands for an infinity of either sign.
    pub open spec fn is_infinite(self) -> bool {
        self.magnitude() == INFINITY_BITS
    }

    /// An integer that orders the numbers as the numbers themselves are
    /// ordered: both zeros map to 0, and a larger number to a larger key.
    /// It means nothing for a pattern that is not a number.
    pub open spec fn key(self) -> int {
        if self.sign_negative() {
            -self.magnitude()
        } else {
            self.magnitude()
        }
    }

    /// `self < rhs`: false as soon as either side is not a number.
    pub open spec fn spec_lt(self, rhs: Scalar) -> bool {
        !self.spec_is_nan() && !rhs.spec_is_nan() && self.key() < rhs.key()
    }

    /// `self <= rhs`: false as soon as either side is not a number.
    pub open spec fn spec_le(self, rhs: Scalar) -> bool {
        !self.spec_is_nan() && !rhs.spec_is_nan() && self.key() <= rhs.key()
    }

    /// `self > rhs`.
    pub open spec fn spec_gt(self, rhs: Scalar) -> bool {
        rhs.spec_lt(self)
    }

    /// `self >= rhs`.
    pub open spec fn spec_ge(self, rhs: Scalar) -> bool {
        rhs.spec_le(self)
    }

    /// `self == rhs` as numbers: the two zeros are equal, and what is not a
    /// number equals nothing, itself included.
    pub open spec fn spec_same(self, rhs: Scalar) -> bool {
        !self.spec_is_nan() && !rhs.spec_is_nan() && self.key() == rhs.key()
    }

    /// The smaller of the two, and `self` where neither is smaller; where
    /// one is not a number, the other.
    pub open spec fn spec_min(self, rhs: Scalar) -> Scalar {
        if self.spec_is_nan() {
            rhs
        } else if rhs.spec_lt(self) {
            rhs
        } else {
            self
        }
    }

    /// The larger of the two, and `self` where neither is larger; where one
    /// is not a number, the other.
    pub open spec fn spec_max(self, rhs: Scalar) -> Scalar {
        if self.spec_is_nan() {
            rhs
        } else if rhs.spec_gt(self) {
            rhs
        } else {
            self
        }
    }

    /// `self` where `self < rhs` holds, else `rhs`.
    pub open spec fn spec_fast_min(self, rhs: Scalar) -> Scalar {
        if self.spec_lt(rhs) {
            self
        } else {
            rhs
        }
    }

    /// `self` where `self > rhs` holds, else `rhs`.
    pub open spec fn spec_fast_max(self, rhs: Scalar) -> Scalar {
        if self.spec_gt(rhs) {
            self
        } else {
            rhs
        }
    }

    /// Positive zero.
    pub open spec fn spec_zero() -> Scalar {
        Scalar { bits: 0 }
    }

    /// The number one.
    pub open spec fn spec_one() -> Scalar {
        Scalar { bits: ONE_BITS }
    }

    /// The largest finite number.
    pub open spec fn spec_max_value() -> Scalar {
        Scalar { bits: MAX_BITS }
    }

    /// Positive infinity.
    pub open spec fn spec_infinity() -> Scalar {
        Scalar { bits: INFINITY_BITS }
    }

    /// Negative infinity.
    pub open spec fn spec_neg_infinity() -> Scalar {
        Scalar { bits: NEG_INFINITY_BITS }
    }

    /// The number with this pattern.
    pub fn from_bits(bits: u32) -> (s: Scalar)
        ensures
            s.bits == bits,
    {
        Scalar { bits }
    }

    /// The pattern of the number.
    pub fn to_bits(self) -> (bits: u32)
        ensures
            bits == self.bits,
    {
        self.bits
    }

    /// Positive zero.
    #[verifier::when_used_as_spec(spec_zero)]
    pub fn zero() -> (s: Scalar)
        ensures
            s == Scalar::spec_zero(),
    {
        Scalar { bits: 0 }
    }

    /// The number one.
    #[verifier::when_used_as_spec(spec_one)]
    pub fn one() -> (s: Scalar)
        ensures
            s == Scalar::spec_one(),
    {
        Scalar { bits: ONE_BITS }
    }

    /// The largest finite number.
    #[verifier::when_used_as_spec(spec_max_value)]
    pub fn max_value() -> (s: Scalar)
        ensures
            s == Scalar::spec_max_value(),
    {
        Scalar { bits: MAX_BITS }
    }

    /// Positive infinity.
    #[verifier::when_used_as_spec(spec_infinity)]
    pub fn infinity() -> (s: Scalar)
        ensures
            s == Scalar::spec_infinity(),
    {
        Scalar { bits: INFINITY_BITS }
    }

    /// Negative infinity.
    #[verifier::when_used_as_spec(spec_neg_infinity)]
    pub fn neg_infinity() -> (s: Scalar)
        ensures
            s == Scalar::spec_neg_infinity(),
    {
        Scalar { bits: NEG_INFINITY_BITS }
    }

    fn abs_bits(self) -> (m: u32)
        ensures
            m == self.magnitude(),
    {
        if self.bits >= SIGN_BIT {
            self.bits - SIGN_BIT
        } else {
            self.bits
        }
    }

    fn ordinal(self) -> (k: i64)
        ensures
            k == self.key(),
    {
        let m: u32 = self.abs_bits();
        if self.bits >= SIGN_BIT {
            0i64 - (m as i64)
        } else {
            m as i64
        }
    }

    /// Whether the pattern stands for no number at all.
    #[verifier::when_used_as_spec(spec_is_nan)]
    pub fn is_nan(self) -> (r: bool)
        ensures
            r == self.spec_is_nan(),
    {
        self.abs_bits() > INFINITY_BITS
    }

    /// `self < rhs`.
    #[verifier::when_used_as_spec(spec_lt)]
    pub fn lt(self, rhs: Scalar) -> (r: bool)
        ensures
            r == self.spec_lt(rhs),
    {
        !self.is_nan() && !rhs.is_nan() && self.ordinal() < rhs.ordinal()
    }

    /// `self <= rhs`.
    #[verifier::when_used_as_spec(spec_le)]
    pub fn le(self, rhs: Scalar) -> (r: bool)
        ensures
            r == self.spec_le(rhs),
    {
        !self.is_nan() && !rhs.is_nan() && self.ordinal() <= rhs.ordinal()
    }

    /// `self > rhs`.
    #[verifier::when_used_as_spec(spec_gt)]
    pub fn gt(self, rhs: Scalar) -> (r: bool)
        ensures
            r == self.spec_gt(rhs),
    {
        rhs.lt(self)
    }

    /// `self >= rhs`.
    #[verifier::when_used_as_spec(spec_ge)]
    pub fn ge(self, rhs: Scalar) -> (r: bool)
        ensures
            r == self.spec_ge(rhs),
    {
        rhs.le(self)
    }

    /// `self == rhs` as numbers.
    #[verifier::when_used_as_spec(spec_same)]
    pub fn same(self, rhs: Scalar) -> (r: bool)
        ensures
            r == self.spec_same(rhs),
    {
        !self.is_nan() && !rhs.is_nan() && self.ordinal() == rhs.ordinal()
    }

    /// The smaller of the two; where one is not a number, the other.
    #[verifier::when_used_as_spec(spec_min)]
    pub fn min(self, rhs: Scalar) -> (m: Scalar)
        ensures
            m == self.spec_min(rhs),
    {
        if self.is_nan() {
            rhs
        } else if rhs.lt(self) {
            rhs
        } else {
            self
        }
    }

    /// The larger of the two; where one is not a number, the other.
    #[verifier::when_used_as_spec(spec_max)]
    pub fn max(self, rhs: Scalar) -> (m: Scalar)
        ensures
            m == self.spec_max(rhs),
    {
        if self.is_nan() {
            rhs
        } else if rhs.gt(self) {
            rhs
        } else {
            self
        }
    }

    /// `self` where `self < rhs` holds, else `rhs`.
    #[verifier::when_used_as_spec(spec_fast_min)]
    pub fn fast_min(self, rhs: Scalar) -> (m: Scalar)
        ensures
            m == self.spec_fast_min(rhs),
    {
        if self.lt(rhs) {
            self
        } else {
            rhs
        }
    }

    /// `self` where `self > rhs` holds, else `rhs`.
    #[verifier::when_used_as_spec(spec_fast_max)]
    pub fn fast_max(self, rhs: Scalar) -> (m: Scalar)
        ensures
            m == self.spec_fast_max(rhs),
    {
        if self.gt(rhs) {
            self
        } else {
            rhs
        }
    }

    /// Among numbers the order is total: of two, exactly one of `<`, `==`
    /// and `>` holds.
    pub proof fn lemma_trichotomy(a: Scalar, b: Scalar)
        requires
            !a.is_nan(),
            !b.is_nan(),
        ensures
            a.lt(b) || a.same(b) || a.gt(b),
            !(a.lt(b) && a.same(b)),
            !(a.lt(b) && a.gt(b)),
            !(a.same(b) && a.gt(b)),
            a.le(b) <==> (a.lt(b) || a.same(b)),
            a.le(b) <==> !a.gt(b),
    {
    }

    /// `<` and `<=` chain as they do on numbers.
    pub proof fn lemma_transitive(a: Scalar, b: Scalar, c: Scalar)
        ensures
            a.lt(b) && b.lt(c) ==> a.lt(c),
            a.le(b) && b.le(c) ==> a.le(c),
            a.lt(b) && b.le(c) ==> a.lt(c),
            a.le(b) && b.lt(c) ==> a.lt(c),
    {
    }

    /// What is not a number compares false with everything, in every
    /// direction.
    pub proof fn lemma_nan_unordered(a: Scalar, b: Scalar)
        requires
            a.is_nan() || b.is_nan(),
        ensures
            !a.lt(b),
            !a.le(b),
            !a.gt(b),
            !a.ge(b),
            !a.same(b),
    {
    }
}

} // verus!
