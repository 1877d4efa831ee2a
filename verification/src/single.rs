//! Single-precision numbers, held as their bit patterns.
//!
//! Noise samples, camera coordinates and brush sizes are produced by floating
//! point arithmetic outside this library. What the library decides about them
//! only ever needs comparison, and comparison is integer work on the bits.

use vstd::prelude::*;
use vstd::arithmetic::power2::pow2;

verus! {

/// An IEEE 754 single, as its 32 bits.
#[derive(Copy, Clone, Debug, PartialEq, Eq, Structural)]
pub struct Single {
    pub bits: u32,
}

/// The bits of 1.0.
pub const ONE: u32 = 0x3f80_0000;

/// A position in cell coordinates, or on the screen.
#[derive(Copy, Clone, Debug, PartialEq, Eq, Structural)]
pub struct Point {
    pub x: Single,
    pub y: Single,
}

/// The value of a non-negative single in units of 2^-149, the smallest
/// positive one. Infinity follows the formula too and lies above every finite
/// value.
pub open spec fn magnitude(body: int) -> int {
    let exponent = body / 0x80_0000;
    let fraction = body % 0x80_0000;
    if exponent == 0 {
        fraction
    } else {
        (0x80_0000 + fraction) * pow2((exponent - 1) as nat)
    }
}

impl Single {
    /// The bits below the sign bit.
    pub open spec fn body(self) -> int {
        self.bits as int % 0x8000_0000
    }

    pub open spec fn is_negative(self) -> bool {
        self.bits >= 0x8000_0000
    }

    pub open spec fn is_nan(self) -> bool {
        self.body() > 0x7F80_0000
    }

    /// The number in units of 2^-149. Meaningless for NaN.
    pub open spec fn value(self) -> int {
        if self.is_negative() {
            -magnitude(self.body())
        } else {
            magnitude(self.body())
        }
    }

    /// `self > other`; false when either side is NaN.
    pub open spec fn exceeds(self, other: Single) -> bool {
        !self.is_nan() && !other.is_nan() && self.value() > other.value()
    }

    /// The comparison `self > other` of singles.
    pub fn gt(self, other: Single) -> (r: bool)
        ensures
            r == self.exceeds(other),
    {
        let a: u32 = self.bits % 0x8000_0000;
        let b: u32 = other.bits % 0x8000_0000;
        proof {
            lemma_magnitude_order(a as int, b as int);
            lemma_magnitude_order(b as int, a as int);
            lemma_magnitude_order(0, a as int);
            lemma_magnitude_order(0, b as int);
        }
        if a > 0x7F80_0000 || b > 0x7F80_0000 {
            false
        } else if self.bits >= 0x8000_0000 {
            other.bits >= 0x8000_0000 && a < b
        } else if other.bits >= 0x8000_0000 {
            a > 0 || b > 0
        } else {
            a > b
        }
    }

    /// The comparison `self < other` of singles.
    pub fn lt(self, other: Single) -> (r: bool)
        ensures
            r == other.exceeds(self),
    {
        other.gt(self)
    }

    /// The larger of the two; `floor` if this is not a number.
    pub open spec fn at_least(self, floor: Single) -> Single {
        if self.is_nan() || floor.exceeds(self) {
            floor
        } else {
            self
        }
    }

    /// The smaller of the two; `ceiling` if this is not a number.
    pub open spec fn at_most(self, ceiling: Single) -> Single {
        if self.is_nan() || self.exceeds(ceiling) {
            ceiling
        } else {
            self
        }
    }

    /// The nearest number from `lo` to `hi`; not a number stays so.
    pub open spec fn clamped(self, lo: Single, hi: Single) -> Single {
        if lo.exceeds(self) {
            lo
        } else if self.exceeds(hi) {
            hi
        } else {
            self
        }
    }

    pub fn max(self, floor: Single) -> (r: Single)
        ensures
            r == self.at_least(floor),
    {
        if self.bits % 0x8000_0000 > 0x7F80_0000 || self.lt(floor) {
            floor
        } else {
            self
        }
    }

    pub fn min(self, ceiling: Single) -> (r: Single)
        ensures
            r == self.at_most(ceiling),
    {
        if self.bits % 0x8000_0000 > 0x7F80_0000 || self.gt(ceiling) {
            ceiling
        } else {
            self
        }
    }

    pub fn clamp(self, lo: Single, hi: Single) -> (r: Single)
        requires
            !lo.is_nan(),
            !hi.is_nan(),
            !lo.exceeds(hi),
        ensures
            r == self.clamped(lo, hi),
    {
        if self.lt(lo) {
            lo
        } else if self.gt(hi) {
            hi
        } else {
            self
        }
    }
}

/// Among non-negative singles the order of the bit patterns is the order of
/// the numbers.
pub proof fn lemma_magnitude_order(a: int, b: int)
    requires
        0 <= a,
        0 <= b,
    ensures
        a < b ==> magnitude(a) < magnitude(b),
        magnitude(0) == 0,
{
    if a < b {
        let ea = a / 0x80_0000;
        let eb = b / 0x80_0000;
        let fa = a % 0x80_0000;
        let fb = b % 0x80_0000;
        if ea == eb {
            if ea > 0 {
                let scale = pow2((ea - 1) as nat) as int;
                vstd::arithmetic::power2::lemma_pow2_pos((ea - 1) as nat);
                assert((0x80_0000 + fa) * scale < (0x80_0000 + fb) * scale) by (nonlinear_arith)
                    requires
                        fa < fb,
                        scale > 0,
                ;
            }
        } else {
            let top = pow2((eb - 1) as nat) as int;
            vstd::arithmetic::power2::lemma_pow2_pos((eb - 1) as nat);
            assert((0x80_0000 + fb) * top >= 0x80_0000 * top) by (nonlinear_arith)
                requires
                    fb >= 0,
                    top > 0,
            ;
            if ea > 0 {
                let scale = pow2((ea - 1) as nat) as int;
                vstd::arithmetic::power2::lemma_pow2_pos((ea - 1) as nat);
                vstd::arithmetic::power2::lemma_pow2_unfold(ea as nat);
                if ea < eb - 1 {
                    vstd::arithmetic::power2::lemma_pow2_strictly_increases(ea as nat, (eb - 1) as nat);
                }
                assert((0x80_0000 + fa) * scale < 0x80_0000 * top) by (nonlinear_arith)
                    requires
                        0 <= fa < 0x80_0000,
                        scale > 0,
                        2 * scale <= top,
                ;
            } else {
                assert(0x80_0000 * top >= 0x80_0000) by (nonlinear_arith)
                    requires
                        top > 0,
                ;
            }
        }
    }
}

/// The order of singles, told by their bits. Non-negative ones are ordered as
/// their bits, negative ones the other way round, and a negative one is below a
/// non-negative one unless both are zero. What is not a number is above nothing
/// and below nothing.
pub proof fn law_order_is_that_of_the_bits(a: Single, b: Single)
    ensures
        ({
            let nan = |s: Single|
                (0x7f80_0000 < s.bits && s.bits < 0x8000_0000) || 0xff80_0000 < s.bits;
            let negative = |s: Single| s.bits >= 0x8000_0000;
            let zero = |s: Single| s.bits == 0 || s.bits == 0x8000_0000;
            &&& nan(a) || nan(b) ==> !a.exceeds(b)
            &&& !nan(a) && !nan(b) && !negative(a) && !negative(b) ==> (a.exceeds(b) <==> a.bits
                > b.bits)
            &&& !nan(a) && !nan(b) && negative(a) && negative(b) ==> (a.exceeds(b) <==> a.bits
                < b.bits)
            &&& !nan(a) && !nan(b) && !negative(a) && negative(b) ==> (a.exceeds(b) <==> !(zero(a)
                && zero(b)))
            &&& negative(a) && !negative(b) ==> !a.exceeds(b)
        }),
{
    let x = a.body();
    let y = b.body();
    lemma_magnitude_order(x, y);
    lemma_magnitude_order(y, x);
    lemma_magnitude_order(0, x);
    lemma_magnitude_order(0, y);
}

/// Of a number and its limit the result is one of the two, and never on the
/// wrong side; a number on the right side is left alone, and what is not a number
/// becomes the limit.
pub proof fn law_limits_hold(x: Single, limit: Single)
    ensures
        x.at_least(limit) == x || x.at_least(limit) == limit,
        !limit.exceeds(x.at_least(limit)),
        !x.is_nan() && !limit.exceeds(x) ==> x.at_least(limit) == x,
        x.is_nan() ==> x.at_least(limit) == limit,
        x.at_most(limit) == x || x.at_most(limit) == limit,
        !x.at_most(limit).exceeds(limit),
        !x.is_nan() && !x.exceeds(limit) ==> x.at_most(limit) == x,
        x.is_nan() ==> x.at_most(limit) == limit,
        x.is_nan() <==> (0x7f80_0000 < x.bits && x.bits < 0x8000_0000) || 0xff80_0000 < x.bits,
{
}

} // verus!
