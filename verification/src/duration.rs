//! Durations as IEEE-754 single-precision bit patterns, and the number of
//! frames a duration lasts at a given sample rate.
//!
//! A finite single is `significand * 2^scale` for a natural `significand`
//! below `2^24` and a `scale` between -149 and 104. That makes the product of
//! a duration and an integer sample rate an exact dyadic rational, which is
//! rounded here without ever leaving the integers.
use vstd::arithmetic::div_mod::{
    lemma_basic_div, lemma_div_denominator, lemma_fundamental_div_mod, lemma_mod_pos_bound,
};
use vstd::arithmetic::mul::lemma_mul_inequality;
use vstd::arithmetic::power2::{
    lemma2_to64, lemma2_to64_rest, lemma_pow2_pos, lemma_pow2_strictly_increases,
    lemma_pow2_unfold, pow2,
};
use vstd::bits::{
    lemma_u64_mul_pow2_le_max_iff_max_shr, lemma_u64_pow2_no_overflow, lemma_u64_shl_is_mul,
    lemma_u64_shr_is_div,
};
use vstd::prelude::*;

verus! {

/// The sign bit of the pattern is set.
pub open spec fn is_negative(bits: u32) -> bool {
    bits >= 0x8000_0000
}

/// The eight exponent bits, as stored.
pub open spec fn biased_exponent(bits: u32) -> nat {
    ((bits as nat) / 0x80_0000) % 0x100
}

/// The twenty-three fraction bits.
pub open spec fn fraction(bits: u32) -> nat {
    (bits as nat) % 0x80_0000
}

/// The pattern encodes a not-a-number.
pub open spec fn is_nan(bits: u32) -> bool {
    biased_exponent(bits) == 255 && fraction(bits) != 0
}

/// The pattern encodes an infinity.
pub open spec fn is_infinite(bits: u32) -> bool {
    biased_exponent(bits) == 255 && fraction(bits) == 0
}

/// The integer that `2^scale` multiplies: the fraction bits, with the implicit
/// leading one for a normal number.
pub open spec fn significand(bits: u32) -> nat {
    if biased_exponent(bits) == 0 {
        fraction(bits)
    } else {
        fraction(bits) + 0x80_0000
    }
}

/// The power of two that multiplies the significand of a finite pattern.
pub open spec fn scale(bits: u32) -> int {
    if biased_exponent(bits) == 0 {
        -149
    } else {
        biased_exponent(bits) - 150
    }
}

/// The integer nearest to `numerator / denominator`, a half rounding up.
pub open spec fn round_half_up(numerator: int, denominator: int) -> int {
    (2 * numerator + denominator) / (2 * denominator)
}

/// The integer nearest to `m * 2^e`, a half rounding up.
pub open spec fn round_scaled(m: int, e: int) -> int {
    if e >= 0 {
        m * pow2(e as nat)
    } else {
        round_half_up(m, pow2((-e) as nat) as int)
    }
}

/// The frames that a step of the given duration lasts at `sample_rate`:
/// `round(duration * sample_rate)`, a half rounding away from zero.
///
/// A negative or not-a-number duration lasts no frames, and so does any
/// duration at rate zero. A count beyond `u64::MAX`, that of an infinite
/// duration included, is `u64::MAX`.
pub open spec fn step_frames(duration: u32, sample_rate: u32) -> u64 {
    if is_negative(duration) || is_nan(duration) || sample_rate == 0 {
        0
    } else if is_infinite(duration) {
        u64::MAX
    } else {
        let exact = round_scaled(significand(duration) * sample_rate, scale(duration));
        if exact > u64::MAX {
            u64::MAX
        } else {
            exact as u64
        }
    }
}

/// `round_half_up` rounds to the nearest integer: its result `q` is the one
/// integer with `q - 1/2 <= numerator / denominator < q + 1/2`.
pub proof fn lemma_round_half_up_is_nearest(numerator: int, denominator: int)
    requires
        numerator >= 0,
        denominator > 0,
    ensures
        2 * denominator * round_half_up(numerator, denominator) <= 2 * numerator + denominator,
        2 * numerator + denominator < 2 * denominator * (round_half_up(numerator, denominator)
            + 1),
{
    let doubled = 2 * numerator + denominator;
    let quotient = round_half_up(numerator, denominator);
    lemma_fundamental_div_mod(doubled, 2 * denominator);
    lemma_mod_pos_bound(doubled, 2 * denominator);
    assert(2 * denominator * (quotient + 1) == 2 * denominator * quotient + 2 * denominator)
        by (nonlinear_arith);
}

/// `2^e` grows with `e`.
proof fn lemma_pow2_increases(a: nat, b: nat)
    requires
        a <= b,
    ensures
        pow2(a) <= pow2(b),
{
    if a < b {
        lemma_pow2_strictly_increases(a, b);
    }
}

/// `product * 2^shift`, held at `u64::MAX` where it would pass it.
fn scale_up(product: u64, shift: u64) -> (r: u64)
    ensures
        r == (if product * pow2(shift as nat) > u64::MAX {
            u64::MAX
        } else {
            (product * pow2(shift as nat)) as u64
        }),
{
    if product == 0 {
        assert(product * pow2(shift as nat) == 0) by (nonlinear_arith)
            requires
                product == 0,
        ;
        0
    } else if shift >= 64 {
        proof {
            lemma2_to64();
            lemma_pow2_increases(64, shift as nat);
            lemma_mul_inequality(1, product as int, pow2(shift as nat) as int);
        }
        u64::MAX
    } else {
        let limit: u64 = u64::MAX >> shift;
        proof {
            lemma_u64_mul_pow2_le_max_iff_max_shr(product, shift, u64::MAX);
        }
        if product > limit {
            u64::MAX
        } else {
            proof {
                lemma_u64_shl_is_mul(product, shift);
            }
            product << shift
        }
    }
}

/// The integer nearest to `product / 2^shift`, a half rounding up.
fn scale_down(product: u64, shift: u64) -> (r: u64)
    requires
        product < 0x100_0000_0000_0000,
        shift >= 1,
    ensures
        r == round_half_up(product as int, pow2(shift as nat) as int),
{
    if shift > 56 {
        proof {
            lemma2_to64_rest();
            lemma_pow2_increases(57, shift as nat);
            lemma_pow2_pos(shift as nat);
            lemma_basic_div(2 * product + pow2(shift as nat), 2 * (pow2(shift as nat) as int));
        }
        0
    } else {
        proof {
            lemma2_to64();
            lemma2_to64_rest();
            lemma_pow2_increases((shift - 1) as nat, 55);
            lemma_pow2_pos((shift - 1) as nat);
            lemma_pow2_unfold(shift as nat);
            lemma_u64_pow2_no_overflow((shift - 1) as nat);
            lemma_u64_shl_is_mul(1, (shift - 1) as u64);
        }
        let half: u64 = 1u64 << (shift - 1);
        let sum: u64 = product + half;
        proof {
            lemma_u64_shr_is_div(sum, shift);
            let h = pow2((shift - 1) as nat) as int;
            assert(half == h);
            assert(pow2(shift as nat) == 2 * h);
            lemma_div_denominator(2 * sum, 2, 2 * h);
            assert((2 * sum) / 2 == sum);
            assert(2 * (2 * h) == 2 * pow2(shift as nat));
        }
        sum >> shift
    }
}

/// The frames that a step of the given duration lasts at `sample_rate`.
pub fn frame_count(duration: u32, sample_rate: u32) -> (frames: u64)
    ensures
        frames == step_frames(duration, sample_rate),
{
    let exponent: u32 = (duration / 0x80_0000) % 0x100;
    let fraction: u32 = duration % 0x80_0000;
    if duration >= 0x8000_0000 || sample_rate == 0 {
        return 0;
    }
    if exponent == 255 {
        return if fraction != 0 {
            0
        } else {
            u64::MAX
        };
    }
    let significand: u64 = if exponent == 0 {
        fraction as u64
    } else {
        fraction as u64 + 0x80_0000
    };
    assert(significand * sample_rate < 0x100_0000_0000_0000) by (nonlinear_arith)
        requires
            significand < 0x100_0000,
            sample_rate <= 0xFFFF_FFFF,
    ;
    let product: u64 = significand * (sample_rate as u64);
    if exponent >= 150 {
        scale_up(product, (exponent - 150) as u64)
    } else if exponent == 0 {
        scale_down(product, 149)
    } else {
        scale_down(product, (150 - exponent) as u64)
    }
}

} // verus!
