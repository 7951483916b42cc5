//! Where samples fall within a pixel: a low-discrepancy sequence, shifted from
//! pixel to pixel.
use vstd::prelude::*;

use crate::arithmetic;
use crate::geometry::Vec2;
use crate::single::Single;

verus! {

/// A sum under way: the weight of the last digit, and the sum so far.
#[derive(Clone, Copy, Debug, PartialEq)]
pub struct RadicalSum {
    pub weight: Single,
    pub sum: Single,
}

/// The radical inverse of a number: its digits in a base, the last first, each
/// added in by `add_digit`.
pub open spec fn radical_inverse<F: Fn(RadicalSum, u32, u32) -> RadicalSum>(
    add_digit: F,
    so_far: RadicalSum,
    index: u32,
    base: u32,
) -> Single
    decreases index,
{
    if index == 0 || base < 2 {
        so_far.sum
    } else {
        proof {
            assert(index / base < index) by (nonlinear_arith)
                requires
                    index > 0,
                    base >= 2,
            ;
        }
        radical_inverse(
            add_digit,
            arithmetic::applied3(add_digit, so_far, index % base, base),
            index / base,
            base,
        )
    }
}

/// Before the first digit: weight 1, sum 0.
pub open spec fn no_digits() -> RadicalSum {
    RadicalSum { weight: Single { bits: 0x3f80_0000 }, sum: Single { bits: 0 } }
}

/// An element of the Halton sequence in a base.
///
/// `add_digit` takes a digit and the base: it divides the weight by the base and adds
/// the digit times the weight to the sum.
pub fn halton<F: Fn(RadicalSum, u32, u32) -> RadicalSum>(
    index: u32,
    base: u32,
    add_digit: &F,
) -> (r: Single)
    requires
        base >= 2,
        arithmetic::steady3(*add_digit),
    ensures
        r == radical_inverse(*add_digit, no_digits(), index, base),
{
    let mut so_far: RadicalSum = RadicalSum { weight: Single::one(), sum: Single::zero() };
    let mut i: u32 = index;
    while i > 0
        invariant
            base >= 2,
            arithmetic::steady3(*add_digit),
            radical_inverse(*add_digit, so_far, i, base) == radical_inverse(
                *add_digit,
                no_digits(),
                index,
                base,
            ),
        decreases i,
    {
        let next: RadicalSum = add_digit(so_far, i % base, base);
        proof {
            assert(i / base < i) by (nonlinear_arith)
                requires
                    i > 0,
                    base >= 2,
            ;
        }
        so_far = next;
        i = i / base;
    }
    so_far.sum
}

/// The index after one, or the same index at the end of the range.
pub open spec fn next_index(i: u32) -> u32 {
    if i == u32::MAX {
        i
    } else {
        (i + 1) as u32
    }
}

/// Where a sample falls within its pixel: the next element of the Halton sequence
/// in base 2 and in base 3, shifted by what belongs to the pixel. The first
/// element, 0, is left out.
///
/// `add_digit` adds in a digit, and `shift` adds two numbers and drops the whole
/// part.
pub fn stratified_jitter<
    F: Fn(RadicalSum, u32, u32) -> RadicalSum,
    S: Fn(Single, Single) -> Single,
>(sample_index: u32, pixel_seed: Vec2, add_digit: &F, shift: &S) -> (r: Vec2)
    requires
        arithmetic::steady3(*add_digit),
        arithmetic::steady2(*shift),
    ensures
        r.x == arithmetic::applied2(
            *shift,
            radical_inverse(*add_digit, no_digits(), next_index(sample_index), 2),
            pixel_seed.x,
        ),
        r.y == arithmetic::applied2(
            *shift,
            radical_inverse(*add_digit, no_digits(), next_index(sample_index), 3),
            pixel_seed.y,
        ),
        r == jitter_of(*add_digit, *shift, sample_index, pixel_seed),
{
    let i: u32 = if sample_index == 0xffff_ffff {
        sample_index
    } else {
        sample_index + 1
    };
    let h1: Single = halton(i, 2, add_digit);
    let h2: Single = halton(i, 3, add_digit);
    let x: Single = shift(h1, pixel_seed.x);
    let y: Single = shift(h2, pixel_seed.y);
    Vec2 { x, y }
}

/// A number below 2 to the power 24, divided by that power: from `scale` on, each
/// doubling of the number takes one off the exponent.
pub open spec fn fraction_bits(n: u32, scale: nat) -> int
    decreases scale,
{
    if n == 0 || scale == 0 {
        0
    } else if n >= 0x80_0000 {
        scale * 0x80_0000 + n
    } else {
        fraction_bits((2 * n) as u32, (scale - 1) as nat)
    }
}

/// A number of 24 bits, divided by 2 to the power 24.
pub open spec fn fraction_of(n: u32) -> Single {
    Single { bits: fraction_bits(n, 125) as u32 }
}

fn fraction(n: u32) -> (r: Single)
    requires
        n < 0x100_0000,
    ensures
        r == fraction_of(n),
        r.bits < 0x3f80_0000,
{
    if n == 0 {
        return Single::zero();
    }
    let mut m: u32 = n;
    let mut scale: u32 = 125;
    proof {
        vstd::arithmetic::power2::lemma2_to64();
    }
    while m < 0x80_0000
        invariant
            0 < m < 0x100_0000,
            101 <= scale <= 125,
            vstd::arithmetic::power2::pow2((125 - scale) as nat) <= m,
            fraction_bits(m, scale as nat) == fraction_bits(n, 125),
        decreases scale,
    {
        proof {
            vstd::arithmetic::power2::lemma2_to64();
            vstd::arithmetic::power2::lemma_pow2_unfold((126 - scale) as nat);
            if scale <= 102 {
                if 125 - scale > 23 {
                    vstd::arithmetic::power2::lemma_pow2_strictly_increases(
                        23,
                        (125 - scale) as nat,
                    );
                }
                assert(vstd::arithmetic::power2::pow2(23) == 0x80_0000);
            }
        }
        m = 2 * m;
        scale = scale - 1;
    }
    Single::from_bits(scale * 0x80_0000 + m)
}

/// Two numbers of 32 bits in one of 64.
pub open spec fn paired(px: u32, py: u32) -> int {
    px * 0x1_0000_0000 + py
}

/// A number scrambled, by three rounds of adding or multiplying and folding.
pub open spec fn scrambled(n: u64) -> u64 {
    let a = ((n + 0x9E37_79B9_7F4A_7C15) % 0x1_0000_0000_0000_0000) as u64;
    let b = (((a ^ (a >> 30)) * 0xBF58_476D_1CE4_E5B9) % 0x1_0000_0000_0000_0000) as u64;
    let c = (((b ^ (b >> 27)) * 0x94D0_49BB_1331_11EB) % 0x1_0000_0000_0000_0000) as u64;
    c ^ (c >> 31)
}

fn scramble(n: u64) -> (r: u64)
    ensures
        r == scrambled(n),
{
    let a: u64 = n.wrapping_add(0x9E37_79B9_7F4A_7C15);
    let b: u64 = (a ^ (a >> 30)).wrapping_mul(0xBF58_476D_1CE4_E5B9);
    let c: u64 = (b ^ (b >> 27)).wrapping_mul(0x94D0_49BB_1331_11EB);
    c ^ (c >> 31)
}

/// What shifts the samples of a pixel, from 0 up to 1: 24 bits of the upper and
/// of the lower half of its scrambled place.
pub open spec fn rotation_of(px: u32, py: u32) -> Vec2 {
    let z = scrambled(paired(px, py) as u64);
    Vec2 {
        x: fraction_of(((z / 0x1_0000_0000) % 0x100_0000) as u32),
        y: fraction_of((z % 0x100_0000) as u32),
    }
}

/// What shifts the samples of a pixel. It is the same for a pixel in every pass.
pub fn pixel_rotation_seed(px: u32, py: u32) -> (r: Vec2)
    ensures
        r == rotation_of(px, py),
        r.x.bits < 0x3f80_0000,
        r.y.bits < 0x3f80_0000,
{
    let packed: u64 = px as u64 * 0x1_0000_0000 + py as u64;
    let z: u64 = scramble(packed);
    let high: u32 = ((z / 0x1_0000_0000) % 0x100_0000) as u32;
    let low: u32 = (z % 0x100_0000) as u32;
    Vec2 { x: fraction(high), y: fraction(low) }
}

/// A shift is at least 0 and below 1.
pub proof fn rotation_is_a_fraction(px: u32, py: u32)
    ensures
        (Single { bits: 0 }).at_most(rotation_of(px, py).x),
        rotation_of(px, py).x.below(Single { bits: 0x3f80_0000 }),
        (Single { bits: 0 }).at_most(rotation_of(px, py).y),
        rotation_of(px, py).y.below(Single { bits: 0x3f80_0000 }),
{
    let z = scrambled(paired(px, py) as u64);
    fraction_stays_below_one(((z / 0x1_0000_0000) % 0x100_0000) as u32, 125);
    fraction_stays_below_one((z % 0x100_0000) as u32, 125);
}

proof fn fraction_stays_below_one(n: u32, scale: nat)
    requires
        n < 0x100_0000,
        scale <= 125,
    ensures
        0 <= fraction_bits(n, scale) < 0x3f80_0000,
    decreases scale,
{
    if n != 0 && scale != 0 && n < 0x80_0000 {
        fraction_stays_below_one((2 * n) as u32, (scale - 1) as nat);
    }
}

/// A number with one digit more at its end has that digit added first, and then those of
/// the number; 0 has no digits.
pub proof fn last_digits_come_first<F: Fn(RadicalSum, u32, u32) -> RadicalSum>(
    add_digit: F,
    so_far: RadicalSum,
    index: u32,
    digit: u32,
    base: u32,
)
    requires
        base >= 2,
        digit < base,
        index * base + digit <= u32::MAX,
    ensures
        index * base + digit > 0 ==> radical_inverse(
            add_digit,
            so_far,
            (index * base + digit) as u32,
            base,
        ) == radical_inverse(
            add_digit,
            arithmetic::applied3(add_digit, so_far, digit, base),
            index,
            base,
        ),
        radical_inverse(add_digit, so_far, 0, base) == so_far.sum,
        0 < digit ==> radical_inverse(add_digit, so_far, digit, base) == arithmetic::applied3(
            add_digit,
            so_far,
            digit,
            base,
        ).sum,
{
    let n = index * base + digit;
    vstd::arithmetic::div_mod::lemma_fundamental_div_mod_converse(
        n,
        base as int,
        index as int,
        digit as int,
    );
    vstd::arithmetic::div_mod::lemma_small_mod(digit as nat, base as nat);
    assert(0 * base + digit == digit) by (nonlinear_arith);
    vstd::arithmetic::div_mod::lemma_fundamental_div_mod_converse(
        digit as int,
        base as int,
        0,
        digit as int,
    );
    let next = arithmetic::applied3(add_digit, so_far, digit, base);
    assert(digit / base == 0 && digit % base == digit);
    assert(radical_inverse(add_digit, next, 0, base) == next.sum);
}

/// The first sample takes the element after the first, and each sample the one after that
/// of the sample before, up to the end of the range.
pub proof fn samples_start_behind_the_first_element(i: u32)
    ensures
        next_index(0) == 1,
        next_index(i) > 0,
        i < u32::MAX ==> next_index(i) == i + 1,
        next_index(u32::MAX) == u32::MAX,
{
}

/// A fraction is exactly its number divided by 2 to the power 24: with the number doubled
/// some times, until it fills 24 bits, the exponent is so many less than that of a half.
pub proof fn fractions_are_exact(n: u32)
    requires
        0 < n < 0x100_0000,
    ensures
        fraction_of(0).bits == 0,
        exists|k: nat|
            k < 24 && 0x80_0000 <= n * #[trigger] vstd::arithmetic::power2::pow2(k) < 0x100_0000
                && fraction_of(n).bits == (125 - k) * 0x80_0000 + n
                * vstd::arithmetic::power2::pow2(k),
{
    vstd::arithmetic::power2::lemma2_to64();
    assert(n * 1 == n) by (nonlinear_arith);
    doubling_finds_the_exponent(n, n, 0);
}

proof fn doubling_finds_the_exponent(n: u32, m: u32, k: nat)
    requires
        0 < n < 0x100_0000,
        m < 0x100_0000,
        m == n * vstd::arithmetic::power2::pow2(k),
        k < 24,
        fraction_bits(n, 125) == fraction_bits(m, (125 - k) as nat),
    ensures
        exists|k: nat|
            k < 24 && 0x80_0000 <= n * #[trigger] vstd::arithmetic::power2::pow2(k) < 0x100_0000
                && fraction_of(n).bits == (125 - k) * 0x80_0000 + n
                * vstd::arithmetic::power2::pow2(k),
    decreases 24 - k,
{
    vstd::arithmetic::power2::lemma_pow2_pos(k);
    assert(m >= vstd::arithmetic::power2::pow2(k)) by (nonlinear_arith)
        requires
            m == n * vstd::arithmetic::power2::pow2(k),
            n >= 1,
            vstd::arithmetic::power2::pow2(k) > 0,
    ;
    if m < 0x80_0000 {
        vstd::arithmetic::power2::lemma_pow2_unfold(k + 1);
        assert(2 * m == n * vstd::arithmetic::power2::pow2(k + 1)) by (nonlinear_arith)
            requires
                m == n * vstd::arithmetic::power2::pow2(k),
                vstd::arithmetic::power2::pow2(k + 1) == 2 * vstd::arithmetic::power2::pow2(k),
        ;
        if k == 23 {
            vstd::arithmetic::power2::lemma2_to64();
        }
        doubling_finds_the_exponent(n, (2 * m) as u32, k + 1);
    } else {
        assert(fraction_of(n).bits == (125 - k) * 0x80_0000 + m);
    }
}

/// Different pixels are different numbers, and what shifts a pixel's samples is made of the
/// upper half of its scrambled number sideways and of the lower half downward.
pub proof fn pixels_are_scrambled_each_on_its_own(px: u32, py: u32, qx: u32, qy: u32)
    ensures
        paired(px, py) == paired(qx, qy) ==> px == qx && py == qy,
        0 <= paired(px, py) <= u64::MAX,
        rotation_of(px, py).x == fraction_of(
            ((scrambled(paired(px, py) as u64) / 0x1_0000_0000) % 0x100_0000) as u32,
        ),
        rotation_of(px, py).y == fraction_of(
            (scrambled(paired(px, py) as u64) % 0x100_0000) as u32,
        ),
{
}

/// Where a sample falls within its pixel.
pub open spec fn jitter_of<
    F: Fn(RadicalSum, u32, u32) -> RadicalSum,
    S: Fn(Single, Single) -> Single,
>(add_digit: F, shift: S, sample_index: u32, pixel_seed: Vec2) -> Vec2 {
    Vec2 {
        x: arithmetic::applied2(
            shift,
            radical_inverse(add_digit, no_digits(), next_index(sample_index), 2),
            pixel_seed.x,
        ),
        y: arithmetic::applied2(
            shift,
            radical_inverse(add_digit, no_digits(), next_index(sample_index), 3),
            pixel_seed.y,
        ),
    }
}

/// Samples fall where the Halton sequence has them from its second element on, across in
/// base 2 and down in base 3, where a pixel shifts nothing. What belongs to a pixel on one
/// axis moves nothing on the other, and moves each axis by itself.
pub proof fn samples_fall_where_the_sequence_has_them<
    F: Fn(RadicalSum, u32, u32) -> RadicalSum,
    S: Fn(Single, Single) -> Single,
>(add_digit: F, shift: S, i: u32, seed: Vec2, other: Vec2)
    requires
        i < 0xffff_ffff,
        forall|h: Single| #[trigger] arithmetic::applied2(shift, h, Single { bits: 0 }) == h,
    ensures
        ({
            let still = Vec2 { x: Single { bits: 0 }, y: Single { bits: 0 } };
            let r = jitter_of(add_digit, shift, i, still);
            &&& r.x == radical_inverse(add_digit, no_digits(), (i + 1) as u32, 2)
            &&& r.y == radical_inverse(add_digit, no_digits(), (i + 1) as u32, 3)
            &&& jitter_of(add_digit, shift, i, seed).x == arithmetic::applied2(shift, r.x, seed.x)
            &&& jitter_of(add_digit, shift, i, seed).y == arithmetic::applied2(shift, r.y, seed.y)
        }),
        seed.x == other.x ==> jitter_of(add_digit, shift, i, seed).x == jitter_of(
            add_digit,
            shift,
            i,
            other,
        ).x,
        seed.y == other.y ==> jitter_of(add_digit, shift, i, seed).y == jitter_of(
            add_digit,
            shift,
            i,
            other,
        ).y,
{
}

} // verus!
