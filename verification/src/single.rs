//! Single-precision numbers carried by their IEEE 754 bit pattern.
//!
//! The library orders, ranges and moves such numbers; it never adds or
//! multiplies them. Comparison of two numbers that are not NaN is comparison
//! of their ranks, which are integers.
use vstd::prelude::*;

verus! {

/// Magnitude bits of infinity; larger magnitudes are NaN.
pub const INFINITE: u32 = 0x7f80_0000;

/// Value of the sign bit.
pub const SIGN: u32 = 0x8000_0000;

/// A single-precision number, by its bit pattern.
#[derive(Clone, Copy, Debug, PartialEq, Eq, Structural)]
pub struct Single {
    pub bits: u32,
}

impl Single {
    /// The number without its sign bit.
    pub open spec fn magnitude(self) -> int {
        if self.bits >= SIGN {
            self.bits - SIGN
        } else {
            self.bits as int
        }
    }

    /// Whether the sign bit is set.
    pub open spec fn negative(self) -> bool {
        self.bits >= SIGN
    }

    /// Whether the pattern is not a number.
    pub open spec fn nan(self) -> bool {
        self.magnitude() > INFINITE
    }

    /// Whether the pattern is neither infinite nor NaN.
    pub open spec fn finite(self) -> bool {
        self.magnitude() < INFINITE
    }

    /// Place of the number among all numbers: both zeros have rank 0.
    pub open spec fn rank(self) -> int {
        if self.negative() {
            -self.magnitude()
        } else {
            self.magnitude()
        }
    }

    /// `self < other` as floating point defines it: false beside a NaN.
    pub open spec fn below(self, other: Single) -> bool {
        !self.nan() && !other.nan() && self.rank() < other.rank()
    }

    /// `self <= other` as floating point defines it: false beside a NaN.
    pub open spec fn at_most(self, other: Single) -> bool {
        !self.nan() && !other.nan() && self.rank() <= other.rank()
    }

    /// `self == other` as floating point defines it: NaN equals nothing and the
    /// zeros equal each other.
    pub open spec fn same(self, other: Single) -> bool {
        !self.nan() && !other.nan() && self.rank() == other.rank()
    }

    /// The smaller of two numbers; a NaN gives way to the other.
    pub open spec fn least(self, other: Single) -> Single {
        if self.nan() || other.below(self) {
            other
        } else {
            self
        }
    }

    /// The larger of two numbers; a NaN gives way to the other.
    pub open spec fn greatest(self, other: Single) -> Single {
        if self.nan() || self.below(other) {
            other
        } else {
            self
        }
    }

    /// The number moved into `[lo, hi]`; a NaN stays NaN.
    pub open spec fn clamped(self, lo: Single, hi: Single) -> Single {
        if self.below(lo) {
            lo
        } else if hi.below(self) {
            hi
        } else {
            self
        }
    }

    /// The number's integer part, held to the range of a `u32`: 0 for NaN and
    /// for what is negative, the largest `u32` for what is too large.
    pub open spec fn integer_part(self) -> int {
        let exponent = self.magnitude() / 0x80_0000;
        let significand = 0x80_0000 + self.magnitude() % 0x80_0000;
        if self.nan() || self.negative() || exponent < 127 {
            0
        } else if exponent >= 159 {
            0xffff_ffff
        } else if exponent >= 150 {
            significand * vstd::arithmetic::power2::pow2((exponent - 150) as nat)
        } else {
            significand / (vstd::arithmetic::power2::pow2((150 - exponent) as nat) as int)
        }
    }

    /// The integer part fits a `u32`.
    pub proof fn integer_part_is_natural(self)
        ensures
            0 <= self.integer_part() <= 0xffff_ffff,
    {
        let exponent = self.magnitude() / 0x80_0000;
        let significand = 0x80_0000 + self.magnitude() % 0x80_0000;
        vstd::arithmetic::power2::lemma2_to64();
        if 150 <= exponent < 159 {
            let shift = (exponent - 150) as nat;
            if shift < 8 {
                vstd::arithmetic::power2::lemma_pow2_strictly_increases(shift, 8);
            }
            vstd::arithmetic::power2::lemma_pow2_pos(shift);
            assert(0 <= significand * vstd::arithmetic::power2::pow2(shift) <= 0xff_ffff * 256)
                by (nonlinear_arith)
                requires
                    0 <= significand <= 0xff_ffff,
                    0 <= vstd::arithmetic::power2::pow2(shift) <= 256,
            ;
        } else if 127 <= exponent < 150 {
            let d = vstd::arithmetic::power2::pow2((150 - exponent) as nat) as int;
            vstd::arithmetic::power2::lemma_pow2_pos((150 - exponent) as nat);
            assert(0 <= significand / d <= significand) by (nonlinear_arith)
                requires
                    0 <= significand,
                    d > 0,
            ;
        }
    }

    pub fn from_bits(bits: u32) -> (r: Single)
        ensures
            r.bits == bits,
    {
        Single { bits }
    }

    pub fn to_bits(self) -> (r: u32)
        ensures
            r == self.bits,
    {
        self.bits
    }

    /// Positive zero.
    pub fn zero() -> (r: Single)
        ensures
            r.bits == 0,
    {
        Single { bits: 0 }
    }

    /// One.
    pub fn one() -> (r: Single)
        ensures
            r.bits == 0x3f80_0000,
    {
        Single { bits: 0x3f80_0000 }
    }

    /// Positive infinity.
    pub fn infinity() -> (r: Single)
        ensures
            r.bits == INFINITE,
    {
        Single { bits: INFINITE }
    }

    /// Negative infinity.
    pub fn negative_infinity() -> (r: Single)
        ensures
            r.bits == 0xff80_0000,
    {
        Single { bits: 0xff80_0000 }
    }

    fn magnitude_bits(self) -> (r: u32)
        ensures
            r == self.magnitude(),
    {
        if self.bits >= SIGN {
            self.bits - SIGN
        } else {
            self.bits
        }
    }

    fn rank_value(self) -> (r: i64)
        ensures
            r == self.rank(),
    {
        if self.bits >= SIGN {
            -((self.bits - SIGN) as i64)
        } else {
            self.bits as i64
        }
    }

    /// The number without its sign.
    pub fn abs(self) -> (r: Single)
        ensures
            r.bits == self.magnitude(),
    {
        Single { bits: self.magnitude_bits() }
    }

    pub fn is_nan(self) -> (r: bool)
        ensures
            r == self.nan(),
    {
        self.magnitude_bits() > INFINITE
    }

    pub fn is_finite(self) -> (r: bool)
        ensures
            r == self.finite(),
    {
        self.magnitude_bits() < INFINITE
    }

    pub fn lt(self, other: Single) -> (r: bool)
        ensures
            r == self.below(other),
    {
        !self.is_nan() && !other.is_nan() && self.rank_value() < other.rank_value()
    }

    pub fn le(self, other: Single) -> (r: bool)
        ensures
            r == self.at_most(other),
    {
        !self.is_nan() && !other.is_nan() && self.rank_value() <= other.rank_value()
    }

    pub fn equals(self, other: Single) -> (r: bool)
        ensures
            r == self.same(other),
    {
        !self.is_nan() && !other.is_nan() && self.rank_value() == other.rank_value()
    }

    pub fn min(self, other: Single) -> (r: Single)
        ensures
            r == self.least(other),
    {
        if self.is_nan() || other.lt(self) {
            other
        } else {
            self
        }
    }

    pub fn max(self, other: Single) -> (r: Single)
        ensures
            r == self.greatest(other),
    {
        if self.is_nan() || self.lt(other) {
            other
        } else {
            self
        }
    }

    pub fn clamp(self, lo: Single, hi: Single) -> (r: Single)
        ensures
            r == self.clamped(lo, hi),
    {
        if self.lt(lo) {
            lo
        } else if hi.lt(self) {
            hi
        } else {
            self
        }
    }

    /// The number's integer part as a `u32`, held to the type's range.
    pub fn to_u32(self) -> (r: u32)
        ensures
            r == self.integer_part(),
    {
        let magnitude: u32 = self.magnitude_bits();
        let exponent: u32 = magnitude / 0x80_0000;
        let significand: u32 = 0x80_0000 + magnitude % 0x80_0000;
        if self.is_nan() || self.bits >= SIGN || exponent < 127 {
            0
        } else if exponent >= 159 {
            0xffff_ffff
        } else if exponent >= 150 {
            let shift: u32 = exponent - 150;
            proof {
                vstd::arithmetic::power2::lemma2_to64();
                assert(shift <= 8);
                if shift < 8 {
                    vstd::arithmetic::power2::lemma_pow2_strictly_increases(shift as nat, 8);
                }
                assert(vstd::arithmetic::power2::pow2(shift as nat) <= 256);
                assert(significand * vstd::arithmetic::power2::pow2(shift as nat) <= 0xff_ffff
                    * 256) by (nonlinear_arith)
                    requires
                        significand <= 0xff_ffff,
                        vstd::arithmetic::power2::pow2(shift as nat) <= 256,
                ;
                vstd::bits::lemma_u32_shl_is_mul(significand, shift);
            }
            significand << shift
        } else {
            let shift: u32 = 150 - exponent;
            proof {
                vstd::bits::lemma_u32_shr_is_div(significand, shift);
            }
            significand >> shift
        }
    }
}

/// Of two numbers that are not NaN exactly one of `<`, `==` and `>` holds.
pub proof fn order_is_total(a: Single, b: Single)
    requires
        !a.nan(),
        !b.nan(),
    ensures
        a.below(b) || a.same(b) || b.below(a),
        !(a.below(b) && b.below(a)),
        !(a.below(b) && a.same(b)),
        a.at_most(b) <==> !b.below(a),
{
}

/// A clamped number lies in the range, whatever number it was.
pub proof fn clamp_lands_in_range(a: Single, lo: Single, hi: Single)
    requires
        !a.nan(),
        lo.at_most(hi),
    ensures
        lo.at_most(a.clamped(lo, hi)),
        a.clamped(lo, hi).at_most(hi),
        a.clamped(lo, hi).clamped(lo, hi) == a.clamped(lo, hi),
{
}

/// A number and the one with the other sign bit lie on both sides of zero, at one
/// distance, and of two numbers without a sign the one of the larger pattern is larger.
pub proof fn signs_mirror_numbers(a: u32, b: u32)
    requires
        a < SIGN,
        b < SIGN,
    ensures
        (Single { bits: (a + SIGN) as u32 }).rank() == -(Single { bits: a }).rank(),
        (Single { bits: (a + SIGN) as u32 }).nan() == (Single { bits: a }).nan(),
        !(Single { bits: a }).nan() && !(Single { bits: b }).nan() ==> ((Single {
            bits: a,
        }).below(Single { bits: b }) <==> a < b),
        (Single { bits: a }).nan() <==> a > INFINITE,
        (Single { bits: a }).finite() <==> a < INFINITE,
{
}

/// The smaller of two numbers is one of them and at most both, the larger is one of them
/// and at least both, and beside a NaN either is the other number.
pub proof fn least_and_greatest_lie_at_the_ends(a: Single, b: Single)
    ensures
        a.least(b) == a || a.least(b) == b,
        a.greatest(b) == a || a.greatest(b) == b,
        !a.nan() && !b.nan() ==> a.least(b).at_most(a) && a.least(b).at_most(b) && a.at_most(
            a.greatest(b),
        ) && b.at_most(a.greatest(b)),
        a.nan() ==> a.least(b) == b && a.greatest(b) == b,
        b.nan() && !a.nan() ==> a.least(b) == a && a.greatest(b) == a,
{
}

/// What lies in a range stays, and what does not goes to the end it is beyond.
pub proof fn clamping_moves_to_the_nearer_end(a: Single, lo: Single, hi: Single)
    requires
        lo.at_most(hi),
    ensures
        lo.at_most(a) && a.at_most(hi) ==> a.clamped(lo, hi) == a,
        a.below(lo) ==> a.clamped(lo, hi) == lo,
        hi.below(a) ==> a.clamped(lo, hi) == hi,
        a.nan() ==> a.clamped(lo, hi) == a,
{
}

proof fn integer_part_lies_between_powers(a: Single)
    requires
        !a.negative(),
        127 <= a.magnitude() / 0x80_0000 < 159,
    ensures
        ({
            let e = a.magnitude() / 0x80_0000;
            &&& vstd::arithmetic::power2::pow2((e - 127) as nat) <= a.integer_part()
            &&& a.integer_part() < vstd::arithmetic::power2::pow2((e - 126) as nat)
            &&& a.magnitude() % 0x80_0000 == 0 ==> a.integer_part()
                == vstd::arithmetic::power2::pow2((e - 127) as nat)
        }),
{
    use_powers(a.magnitude() / 0x80_0000);
    let e = a.magnitude() / 0x80_0000;
    let s = 0x80_0000 + a.magnitude() % 0x80_0000;
    if e >= 150 {
        let p = vstd::arithmetic::power2::pow2((e - 150) as nat) as int;
        assert(0x80_0000 * p <= s * p < 0x100_0000 * p) by (nonlinear_arith)
            requires
                0x80_0000 <= s < 0x100_0000,
                p > 0,
        ;
    } else {
        let p = vstd::arithmetic::power2::pow2((150 - e) as nat) as int;
        let low = vstd::arithmetic::power2::pow2((e - 127) as nat) as int;
        let n = s / p;
        assert(low <= n < 2 * low && (s == 0x80_0000 ==> n == low)) by (nonlinear_arith)
            requires
                0x80_0000 <= s < 0x100_0000,
                p > 0,
                low * p == 0x80_0000,
                n == s / p,
        ;
    }
}

proof fn use_powers(e: int)
    requires
        127 <= e < 159,
    ensures
        ({
            let low = vstd::arithmetic::power2::pow2((e - 127) as nat) as int;
            &&& low > 0
            &&& vstd::arithmetic::power2::pow2((e - 126) as nat) == 2 * low
            &&& e >= 150 ==> vstd::arithmetic::power2::pow2((e - 150) as nat) > 0 && low == 0x80_0000
                * vstd::arithmetic::power2::pow2((e - 150) as nat)
            &&& e < 150 ==> vstd::arithmetic::power2::pow2((150 - e) as nat) > 0 && low
                * vstd::arithmetic::power2::pow2((150 - e) as nat) == 0x80_0000
        }),
{
    vstd::arithmetic::power2::lemma2_to64();
    vstd::arithmetic::power2::lemma_pow2_unfold((e - 126) as nat);
    vstd::arithmetic::power2::lemma_pow2_pos((e - 127) as nat);
    if e >= 150 {
        vstd::arithmetic::power2::lemma_pow2_pos((e - 150) as nat);
        vstd::arithmetic::power2::lemma_pow2_adds(23, (e - 150) as nat);
        assert((e - 127) as nat == 23 + (e - 150) as nat);
    } else {
        vstd::arithmetic::power2::lemma_pow2_pos((150 - e) as nat);
        vstd::arithmetic::power2::lemma_pow2_adds((e - 127) as nat, (150 - e) as nat);
        assert((e - 127) as nat + (150 - e) as nat == 23);
    }
}

/// The powers of two that a `u32` holds are their own integer parts, and what lies between
/// two of them has its integer part between them.
pub proof fn powers_are_their_own_integer_part(a: Single, k: nat)
    requires
        k < 32,
    ensures
        ({
            let power = Single { bits: ((127 + k) * 0x80_0000) as u32 };
            let next = Single { bits: ((128 + k) * 0x80_0000) as u32 };
            &&& power.integer_part() == vstd::arithmetic::power2::pow2(k)
            &&& power.at_most(a) && a.below(next) ==> vstd::arithmetic::power2::pow2(k)
                <= a.integer_part() < vstd::arithmetic::power2::pow2(k + 1)
        }),
{
    let power = Single { bits: ((127 + k) * 0x80_0000) as u32 };
    let next = Single { bits: ((128 + k) * 0x80_0000) as u32 };
    assert(power.magnitude() / 0x80_0000 == 127 + k);
    integer_part_lies_between_powers(power);
    if power.at_most(a) && a.below(next) {
        assert(a.magnitude() / 0x80_0000 == 127 + k);
        integer_part_lies_between_powers(a);
    }
}

/// A larger number has no smaller integer part.
pub proof fn integer_parts_follow_the_order(a: Single, b: Single)
    requires
        a.at_most(b),
    ensures
        a.integer_part() <= b.integer_part(),
{
    a.integer_part_is_natural();
    b.integer_part_is_natural();
    let e = a.magnitude() / 0x80_0000;
    let f = b.magnitude() / 0x80_0000;
    if !a.negative() && !b.negative() && e >= 127 && f < 159 {
        assert(e <= f);
        if e < f {
            integer_part_lies_between_powers(a);
            integer_part_lies_between_powers(b);
            if e + 1 < f {
                vstd::arithmetic::power2::lemma_pow2_strictly_increases(
                    (e - 126) as nat,
                    (f - 127) as nat,
                );
            }
        } else {
            use_powers(e);
            let s = 0x80_0000 + a.magnitude() % 0x80_0000;
            let t = 0x80_0000 + b.magnitude() % 0x80_0000;
            assert(s <= t);
            if e >= 150 {
                let p = vstd::arithmetic::power2::pow2((e - 150) as nat) as int;
                assert(s * p <= t * p) by (nonlinear_arith)
                    requires
                        s <= t,
                        p > 0,
                ;
            } else {
                let p = vstd::arithmetic::power2::pow2((150 - e) as nat) as int;
                assert(s / p <= t / p) by (nonlinear_arith)
                    requires
                        s <= t,
                        p > 0,
                ;
            }
        }
    }
}

} // verus!
