//! Single-precision numbers by their bit patterns.
//!
//! Confidences, saliences and scores are IEEE 754 single-precision values. The
//! library compares them and carries them; it does no arithmetic on them. A
//! `Single` holds the 32 bits of such a value (what `f32::to_bits` gives), and
//! its comparisons are those of the values.
use vstd::prelude::*;

verus! {

/// A single-precision value, held as its bits.
#[derive(Clone, Copy, Debug, PartialEq, Eq, Structural)]
pub struct Single {
    pub bits: u32,
}

/// The bits of positive infinity: greater patterns (without the sign) stand
/// for no number.
pub const INFINITE_BITS: u32 = 0x7f80_0000;

/// The bits of 1.
pub const ONE_BITS: u32 = 0x3f80_0000;

impl Single {
    /// The bits without the sign.
    pub open spec fn magnitude(self) -> int {
        self.bits as int % 0x8000_0000
    }

    /// Whether the sign bit is set.
    pub open spec fn negative(self) -> bool {
        self.bits >= 0x8000_0000
    }

    /// Whether the value is no number.
    pub open spec fn nan(self) -> bool {
        self.magnitude() > INFINITE_BITS
    }

    /// An integer that orders the values: of two numbers the smaller one has
    /// the smaller key, and both zeros have the key 0.
    pub open spec fn key(self) -> int {
        if self.negative() {
            -self.magnitude()
        } else {
            self.magnitude()
        }
    }

    /// Whether the first value is less than the second one.
    pub open spec fn less(self, other: Single) -> bool {
        !self.nan() && !other.nan() && self.key() < other.key()
    }

    /// Whether the value is one of the numbers from 0 to 1.
    pub open spec fn in_unit(self) -> bool {
        !self.nan() && 0 <= self.key() <= ONE_BITS
    }

    /// The value with the given bits.
    pub fn from_bits(bits: u32) -> (res: Single)
        ensures
            res.bits == bits,
    {
        Single { bits }
    }

    /// The bits of the value.
    pub fn to_bits(self) -> (res: u32)
        ensures
            res == self.bits,
    {
        self.bits
    }

    /// Whether the value is no number.
    pub fn is_nan(self) -> (res: bool)
        ensures
            res == self.nan(),
    {
        self.bits % 0x8000_0000 > INFINITE_BITS
    }

    /// The order key of the value.
    fn order_key(self) -> (res: i64)
        ensures
            res == self.key(),
    {
        let magnitude: i64 = (self.bits % 0x8000_0000) as i64;
        if self.bits >= 0x8000_0000 {
            -magnitude
        } else {
            magnitude
        }
    }

    /// `self < other`.
    pub fn lt(self, other: Single) -> (res: bool)
        ensures
            res == self.less(other),
    {
        !self.is_nan() && !other.is_nan() && self.order_key() < other.order_key()
    }

    /// `self > other`.
    pub fn gt(self, other: Single) -> (res: bool)
        ensures
            res == other.less(self),
    {
        other.lt(self)
    }

    /// The greater of two values; where one is no number, the other one.
    pub open spec fn larger(self, other: Single) -> Single {
        if self.nan() {
            other
        } else if self.less(other) {
            other
        } else {
            self
        }
    }

    /// The smaller of two values; where one is no number, the other one.
    pub open spec fn smaller(self, other: Single) -> Single {
        if self.nan() {
            other
        } else if other.less(self) {
            other
        } else {
            self
        }
    }

    /// The greater of two values; where one is no number, the other one.
    pub fn max(self, other: Single) -> (res: Single)
        ensures
            res == self.larger(other),
    {
        if self.is_nan() || self.lt(other) {
            other
        } else {
            self
        }
    }

    /// The smaller of two values; where one is no number, the other one.
    pub fn min(self, other: Single) -> (res: Single)
        ensures
            res == self.smaller(other),
    {
        if self.is_nan() || other.lt(self) {
            other
        } else {
            self
        }
    }

    /// Whether the value lies in the closed range from 0 to 1.
    pub fn is_unit(self) -> (res: bool)
        ensures
            res == self.in_unit(),
    {
        let key: i64 = self.order_key();
        !self.is_nan() && 0 <= key && key <= ONE_BITS as i64
    }
}

/// The numbers are totally ordered by `less`, up to the sign of zero; a value
/// that is no number is in no relation to any value.
pub proof fn law_single_order(a: Single, b: Single, c: Single)
    ensures
        !(a.less(b) && b.less(a)),
        a.less(b) && b.less(c) ==> a.less(c),
        a.nan() || b.nan() ==> !a.less(b) && !b.less(a),
        !a.nan() && !b.nan() ==> a.less(b) || b.less(a) || a.key() == b.key(),
        a.key() == b.key() && a.bits != b.bits ==> a.magnitude() == 0 && b.magnitude() == 0,
{
}

} // verus!
