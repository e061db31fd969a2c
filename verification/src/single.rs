//! Single-precision numbers, held by their bit pattern.
//!
//! Levels, positions and samples are IEEE 754 `binary32` numbers. The player keeps, compares and
//! bounds them, and none of that needs arithmetic: the sign is the top bit, and the other 31 bits
//! of two numbers stand in the order of their magnitudes.
use vstd::arithmetic::power2::{
    lemma2_to64, lemma_pow2_adds, lemma_pow2_pos, lemma_pow2_strictly_increases,
    lemma_pow2_unfold, pow2,
};
use vstd::prelude::*;

verus! {

/// The bit that holds the sign, which is also one more than the largest magnitude.
pub const SIGN_BIT: u32 = 0x8000_0000;

/// The magnitude of infinity. Every larger one is that of a NaN.
pub const INFINITY_BITS: u32 = 0x7f80_0000;

/// The bits of `0.0`.
pub const ZERO_BITS: u32 = 0;

/// The bits of `0.3`.
pub const THREE_TENTHS_BITS: u32 = 0x3e99_999a;

/// The bits of `1.0`.
pub const ONE_BITS: u32 = 0x3f80_0000;

/// The bits of `2.0`.
pub const TWO_BITS: u32 = 0x4000_0000;

/// An IEEE 754 `binary32` number.
#[derive(Clone, Copy, PartialEq, Eq, Structural, Debug)]
pub struct Single {
    pub bits: u32,
}

impl Single {
    /// The 31 bits below the sign.
    pub open spec fn magnitude(self) -> int {
        self.bits as int % SIGN_BIT as int
    }

    pub open spec fn nan(self) -> bool {
        self.magnitude() > INFINITY_BITS
    }

    /// Where the number stands on the line of all numbers that are not NaN. Both zeros stand at 0.
    pub open spec fn rank(self) -> int {
        if self.bits < SIGN_BIT {
            self.magnitude()
        } else {
            -self.magnitude()
        }
    }

    /// `self < other`, which a NaN on either side makes false.
    pub open spec fn lt(self, other: Single) -> bool {
        !self.nan() && !other.nan() && self.rank() < other.rank()
    }

    /// The number without its sign.
    pub open spec fn magnitude_of(self) -> Single {
        Single { bits: self.magnitude() as u32 }
    }

    /// The nearest number from 0 to 1. A NaN stays, and so does a negative zero.
    pub open spec fn in_unit(self) -> Single {
        if self.lt(Single { bits: ZERO_BITS }) {
            Single { bits: ZERO_BITS }
        } else if (Single { bits: ONE_BITS }).lt(self) {
            Single { bits: ONE_BITS }
        } else {
            self
        }
    }

    /// A number from 0 to 1.
    pub open spec fn in_range(self) -> bool {
        !self.nan() && 0 <= self.rank() <= ONE_BITS
    }

    /// A number from 0 to 1, or a NaN.
    pub open spec fn unit_or_nan(self) -> bool {
        self.nan() || 0 <= self.rank() <= ONE_BITS
    }

    pub fn zero() -> (res: Single)
        ensures
            res.bits == ZERO_BITS,
    {
        Single { bits: ZERO_BITS }
    }

    pub fn is_nan(self) -> (res: bool)
        ensures
            res == self.nan(),
            res == (0x7f80_0000 < self.bits < 0x8000_0000 || self.bits > 0xff80_0000),
    {
        self.abs().bits > INFINITY_BITS
    }

    /// `self` with its sign cleared.
    pub fn abs(self) -> (res: Single)
        ensures
            res == self.magnitude_of(),
            res.bits == self.bits % 0x8000_0000,
            res.rank() == self.magnitude(),
            res.nan() == self.nan(),
    {
        if self.bits < SIGN_BIT {
            self
        } else {
            Single { bits: self.bits - SIGN_BIT }
        }
    }

    /// Whether `self < other`.
    pub fn less_than(self, other: Single) -> (res: bool)
        ensures
            res == self.lt(other),
            finite(self.bits) && finite(other.bits) ==> res == (value(self.bits) < value(
                other.bits,
            )),
    {
        proof {
            if finite(self.bits) && finite(other.bits) {
                law_less_is_smaller(self, other);
            }
        }
        if self.is_nan() || other.is_nan() {
            return false;
        }
        let mine: u32 = self.abs().bits;
        let theirs: u32 = other.abs().bits;
        if self.bits < SIGN_BIT {
            other.bits < SIGN_BIT && mine < theirs
        } else if other.bits < SIGN_BIT {
            mine > 0 || theirs > 0
        } else {
            theirs < mine
        }
    }

    /// `self`, held between 0 and 1.
    pub fn clamp_unit(self) -> (res: Single)
        ensures
            res == self.in_unit(),
            self.bits <= 0x3f80_0000 ==> res == self,
            0x3f80_0000 < self.bits <= 0x7f80_0000 ==> res.bits == 0x3f80_0000,
            0x8000_0000 < self.bits <= 0xff80_0000 ==> res.bits == 0,
            res.unit_or_nan(),
            res.nan() == self.nan(),
    {
        let zero = Single { bits: ZERO_BITS };
        let one = Single { bits: ONE_BITS };
        if self.less_than(zero) {
            zero
        } else if one.less_than(self) {
            one
        } else {
            self
        }
    }
}

/// Of numbers that are not NaN, exactly one of `a < b`, `b < a` and equal rank holds, and the
/// order is transitive.
pub proof fn law_order(a: Single, b: Single, c: Single)
    requires
        !a.nan(),
        !b.nan(),
        !c.nan(),
    ensures
        a.lt(b) || b.lt(a) || a.rank() == b.rank(),
        !(a.lt(b) && b.lt(a)),
        a.lt(b) ==> a.rank() != b.rank(),
        a.lt(b) && b.lt(c) ==> a.lt(c),
{
}

/// Holding a number between 0 and 1 twice is holding it once, and keeps the order of numbers.
pub proof fn law_in_unit(a: Single, b: Single)
    ensures
        a.in_unit().in_unit() == a.in_unit(),
        a.in_unit().lt(b.in_unit()) ==> a.lt(b),
        !a.nan() ==> 0 <= a.in_unit().rank() <= ONE_BITS,
{
}

/// How many of the smallest steps between two numbers a finite magnitude holds. Below the sign
/// stand eight bits that say how far the other 23 are shifted to the left.
#[verifier::opaque]
pub open spec fn steps(magnitude: int) -> int {
    let shift = magnitude / 0x80_0000;
    let fraction = magnitude % 0x80_0000;
    if shift == 0 {
        fraction
    } else {
        (0x80_0000 + fraction) * pow2((shift - 1) as nat)
    }
}

/// The number that the bits stand for, in the smallest steps between two numbers.
pub open spec fn value(bits: u32) -> int {
    if bits < 0x8000_0000 {
        steps(bits as int)
    } else {
        -steps(bits - 0x8000_0000)
    }
}

/// Bits that stand for a number other than the infinities.
pub open spec fn finite(bits: u32) -> bool {
    bits < 0x7f80_0000 || 0x8000_0000 <= bits < 0xff80_0000
}

pub(crate) proof fn lemma_no_steps()
    ensures
        steps(0) == 0,
{
    reveal(steps);
}

proof fn lemma_steps_grow(a: int, b: int)
    requires
        0 <= a < b,
    ensures
        0 <= steps(a) < steps(b),
{
    reveal(steps);
    let left = a / 0x80_0000;
    let right = b / 0x80_0000;
    let low = a % 0x80_0000;
    let high = b % 0x80_0000;
    if right > 0 {
        lemma_pow2_pos((right - 1) as nat);
    }
    if left > 0 {
        let unit = pow2((left - 1) as nat) as int;
        lemma_pow2_pos((left - 1) as nat);
        if left == right {
            assert((0x80_0000 + low) * unit < (0x80_0000 + high) * unit) by (nonlinear_arith)
                requires
                    low < high,
                    unit > 0,
            ;
            assert(0 <= (0x80_0000 + low) * unit) by (nonlinear_arith)
                requires
                    0 <= low,
                    unit > 0,
            ;
        } else {
            let above = pow2((right - 1) as nat) as int;
            lemma_pow2_unfold(left as nat);
            if left < right - 1 {
                lemma_pow2_strictly_increases(left as nat, (right - 1) as nat);
            }
            assert(0 <= (0x80_0000 + low) * unit < (0x80_0000 + high) * above) by (nonlinear_arith)
                requires
                    0 <= low < 0x80_0000,
                    0 <= high,
                    unit > 0,
                    above >= 2 * unit,
            ;
        }
    } else if right > 0 {
        let above = pow2((right - 1) as nat) as int;
        assert(low < (0x80_0000 + high) * above) by (nonlinear_arith)
            requires
                low < 0x80_0000,
                0 <= high,
                above > 0,
        ;
    }
}

/// Of finite numbers, the comparison tells which stands for the smaller number.
pub proof fn law_less_is_smaller(a: Single, b: Single)
    requires
        finite(a.bits),
        finite(b.bits),
    ensures
        a.lt(b) <==> value(a.bits) < value(b.bits),
{
    lemma_no_steps();
    let left = a.bits as int % 0x8000_0000;
    let right = b.bits as int % 0x8000_0000;
    if left < right {
        lemma_steps_grow(left, right);
    }
    if right < left {
        lemma_steps_grow(right, left);
    }
    if left > 0 {
        lemma_steps_grow(0, left);
    }
    if right > 0 {
        lemma_steps_grow(0, right);
    }
}

/// Infinity is above every other number and its negative below; a NaN is neither above nor below
/// anything.
pub proof fn law_less_of_the_others(a: Single, infinity: Single, negative: Single, nan: Single)
    requires
        finite(a.bits),
        infinity.bits == 0x7f80_0000,
        negative.bits == 0xff80_0000,
        0x7f80_0000 < nan.bits < 0x8000_0000 || nan.bits > 0xff80_0000,
    ensures
        a.lt(infinity),
        negative.lt(a),
        negative.lt(infinity),
        !infinity.lt(a),
        !a.lt(negative),
        !infinity.lt(negative),
        !infinity.lt(infinity),
        !negative.lt(negative),
        forall|b: Single| !nan.lt(b) && !(#[trigger] b.lt(nan)),
{
}

/// Exactly the patterns above infinity's, with either sign, are NaN.
pub proof fn law_nan_patterns(a: Single)
    ensures
        a.nan() <==> (0x7f80_0000 < a.bits < 0x8000_0000 || a.bits > 0xff80_0000),
{
}

/// A number without its sign is the distance to zero: a number and its opposite have the same,
/// and a number that is not negative is its own.
pub proof fn law_magnitude_is_distance(a: Single)
    ensures
        a.bits < 0x8000_0000 ==> a.magnitude_of() == a,
        a.bits >= 0x8000_0000 ==> a.magnitude_of().bits == a.bits - 0x8000_0000,
        finite(a.bits) ==> value(a.magnitude_of().bits) == if value(a.bits) < 0 {
            -value(a.bits)
        } else {
            value(a.bits)
        },
{
    lemma_no_steps();
    let magnitude = a.bits as int % 0x8000_0000;
    if magnitude > 0 {
        lemma_steps_grow(0, magnitude);
    }
}

/// A number from 0 to 1 is held as it is. A larger one is held at 1 and a smaller one at 0, and a
/// NaN stays.
pub proof fn law_held_between_0_and_1(a: Single)
    ensures
        a.bits <= 0x3f80_0000 ==> a.in_unit() == a,
        0x3f80_0000 < a.bits <= 0x7f80_0000 ==> a.in_unit().bits == 0x3f80_0000,
        0x7f80_0000 < a.bits < 0x8000_0000 ==> a.in_unit() == a,
        a.bits == 0x8000_0000 ==> a.in_unit() == a,
        0x8000_0000 < a.bits <= 0xff80_0000 ==> a.in_unit().bits == 0,
        a.bits > 0xff80_0000 ==> a.in_unit() == a,
        finite(a.bits) && 0 <= value(a.bits) <= value(0x3f80_0000) ==> a.in_unit() == a,
        finite(a.bits) && value(a.bits) < 0 ==> a.in_unit().bits == 0,
        finite(a.bits) && value(a.bits) > value(0x3f80_0000) ==> a.in_unit().bits == 0x3f80_0000,
{
    let zero = Single { bits: 0 };
    let one = Single { bits: 0x3f80_0000 };
    if finite(a.bits) {
        law_less_is_smaller(a, zero);
        law_less_is_smaller(one, a);
        lemma_no_steps();
    }
}

/// What the named patterns stand for: zero, one, two, and of all patterns the one nearest to three
/// tenths.
pub proof fn law_named_patterns(other: u32)
    ensures
        value(ZERO_BITS) == 0,
        value(ONE_BITS) == pow2(149),
        value(TWO_BITS) == 2 * value(ONE_BITS),
        finite(other) && other != THREE_TENTHS_BITS ==> {
            let off = 10 * value(THREE_TENTHS_BITS) - 3 * value(ONE_BITS);
            let away = 10 * value(other) - 3 * value(ONE_BITS);
            &&& off >= 0
            &&& away > off || -away > off
        },
{
    reveal(steps);
    lemma_pow2_pos(124);
    lemma_pow2_unfold(125);
    lemma_pow2_unfold(126);
    lemma_pow2_unfold(127);
    assert(value(ONE_BITS) == 0x80_0000 * pow2(126));
    assert(value(TWO_BITS) == 0x80_0000 * pow2(127));
    assert(pow2(149) == 0x80_0000 * pow2(126)) by {
        lemma_pow2_adds(23, 126);
        lemma2_to64();
    }
    assert(value(THREE_TENTHS_BITS) == 0x99_999a * pow2(124));
    if finite(other) && other != THREE_TENTHS_BITS {
        let next = Single { bits: 0x3e99_999b };
        let previous = Single { bits: 0x3e99_9999 };
        let mine = Single { bits: other };
        assert(value(next.bits) == 0x99_999b * pow2(124));
        assert(value(previous.bits) == 0x99_9999 * pow2(124));
        law_less_is_smaller(mine, next);
        law_less_is_smaller(previous, mine);
    }
}

} // verus!
