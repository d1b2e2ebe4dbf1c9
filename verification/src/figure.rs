//! Prices and probabilities as the exchange reports them: IEEE 754 binary64
//! values, held by their bit patterns.
//!
//! The library orders such values and picks among them; it never computes with
//! them. Whoever calls it does the arithmetic and hands the results over.

use vstd::prelude::*;

verus! {

/// The bit that carries the sign.
pub const SIGN_BIT: u64 = 0x8000_0000_0000_0000;

/// The magnitude of infinity; larger magnitudes are not numbers.
pub const INFINITE: u64 = 0x7FF0_0000_0000_0000;

/// A binary64 value by its bit pattern. `==` compares patterns.
#[derive(Clone, Copy, Debug, PartialEq, Eq, Structural)]
pub struct Figure {
    pub bits: u64,
}

impl Figure {
    /// The pattern without its sign.
    pub open spec fn magnitude(self) -> int {
        if self.bits >= SIGN_BIT {
            self.bits - SIGN_BIT
        } else {
            self.bits as int
        }
    }

    pub open spec fn is_nan(self) -> bool {
        self.magnitude() > INFINITE
    }

    /// Where a number stands among all numbers: patterns of one sign are
    /// ordered as integers, and both zeros stand at 0.
    pub open spec fn rank(self) -> int {
        if self.bits >= SIGN_BIT {
            -self.magnitude()
        } else {
            self.magnitude()
        }
    }

    pub open spec fn below(self, other: Figure) -> bool {
        !self.is_nan() && !other.is_nan() && self.rank() < other.rank()
    }

    pub open spec fn at_most(self, other: Figure) -> bool {
        !self.is_nan() && !other.is_nan() && self.rank() <= other.rank()
    }

    /// The smaller of two values, ignoring one that is not a number.
    pub open spec fn least(self, other: Figure) -> Figure {
        if self.is_nan() {
            other
        } else if other.below(self) {
            other
        } else {
            self
        }
    }

    /// The larger of two values, ignoring one that is not a number.
    pub open spec fn greatest(self, other: Figure) -> Figure {
        if self.is_nan() {
            other
        } else if self.below(other) {
            other
        } else {
            self
        }
    }

    /// The value without its sign.
    pub open spec fn unsigned(self) -> Figure {
        Figure { bits: self.magnitude() as u64 }
    }

    pub fn from_bits(bits: u64) -> (r: Figure)
        ensures
            r.bits == bits,
    {
        Figure { bits }
    }

    pub fn nan(self) -> (r: bool)
        ensures
            r == self.is_nan(),
    {
        if self.bits >= SIGN_BIT {
            self.bits - SIGN_BIT > INFINITE
        } else {
            self.bits > INFINITE
        }
    }

    fn rank_exec(self) -> (r: i64)
        ensures
            r == self.rank(),
    {
        if self.bits >= SIGN_BIT {
            -((self.bits - SIGN_BIT) as i64)
        } else {
            self.bits as i64
        }
    }

    /// `<`, false where either side is not a number.
    pub fn lt(self, other: Figure) -> (r: bool)
        ensures
            r == self.below(other),
    {
        !self.nan() && !other.nan() && self.rank_exec() < other.rank_exec()
    }

    /// `<=`, false where either side is not a number.
    pub fn le(self, other: Figure) -> (r: bool)
        ensures
            r == self.at_most(other),
    {
        !self.nan() && !other.nan() && self.rank_exec() <= other.rank_exec()
    }

    pub fn min(self, other: Figure) -> (r: Figure)
        ensures
            r == self.least(other),
    {
        if self.nan() || other.lt(self) {
            other
        } else {
            self
        }
    }

    pub fn max(self, other: Figure) -> (r: Figure)
        ensures
            r == self.greatest(other),
    {
        if self.nan() || self.lt(other) {
            other
        } else {
            self
        }
    }

    pub fn abs(self) -> (r: Figure)
        ensures
            r == self.unsigned(),
    {
        if self.bits >= SIGN_BIT {
            Figure { bits: self.bits - SIGN_BIT }
        } else {
            self
        }
    }
}

/// The value with this bit pattern.
pub open spec fn fig(bits: u64) -> Figure {
    Figure { bits }
}

/// `<` is a strict order, `<=` is its completion, and numbers that are neither
/// way smaller stand at one place.
pub proof fn order_laws(a: Figure, b: Figure, c: Figure)
    ensures
        !a.below(a),
        a.below(b) ==> !b.below(a) && !b.at_most(a),
        a.below(b) && b.below(c) ==> a.below(c),
        a.below(b) && b.at_most(c) ==> a.below(c),
        a.at_most(b) && b.at_most(c) ==> a.at_most(c),
        !a.is_nan() && !b.is_nan() ==> (a.at_most(b) <==> !b.below(a)),
        !a.is_nan() && !b.is_nan() && !a.below(b) && !b.below(a) ==> a.rank() == b.rank(),
{
}

/// What is not a number compares with nothing, in any way.
pub proof fn nan_is_unordered(a: Figure, b: Figure)
    requires
        a.is_nan(),
    ensures
        !a.below(b) && !b.below(a) && !a.at_most(b) && !b.at_most(a),
        a.least(b) == b,
        a.greatest(b) == b,
{
}

/// Numbers without a sign are ordered as their bit patterns, numbers with one the
/// other way round and below them; the two zeros are level.
pub proof fn patterns_order_numbers(a: u64, b: u64)
    ensures
        a < b <= INFINITE ==> fig(a).below(fig(b)),
        SIGN_BIT <= a < b <= SIGN_BIT + INFINITE ==> fig(b).below(fig(a)),
        SIGN_BIT < a <= SIGN_BIT + INFINITE && b <= INFINITE ==> fig(a).below(fig(b)),
        fig(SIGN_BIT).at_most(fig(0)) && fig(0).at_most(fig(SIGN_BIT)),
        INFINITE < a < SIGN_BIT ==> fig(a).is_nan(),
        a > SIGN_BIT + INFINITE ==> fig(a).is_nan(),
        a <= INFINITE ==> !fig(a).is_nan(),
{
}

/// The smaller and the larger of two numbers are bounds of both and one of them;
/// a number without its sign is as far from 0 and not below it.
pub proof fn extremes_bound_both(a: Figure, b: Figure)
    requires
        !a.is_nan(),
        !b.is_nan(),
    ensures
        a.least(b) == a || a.least(b) == b,
        a.least(b).at_most(a) && a.least(b).at_most(b),
        a.greatest(b) == a || a.greatest(b) == b,
        a.at_most(a.greatest(b)) && b.at_most(a.greatest(b)),
        a.rank() == b.rank() ==> a.least(b) == a && a.greatest(b) == a,
        a.unsigned().rank() == a.rank() || a.unsigned().rank() == -a.rank(),
        a.unsigned().rank() >= 0,
        !a.unsigned().is_nan(),
{
}

} // verus!
