//! Rounding a fraction to the nearest integer, ties away from zero.
use vstd::arithmetic::div_mod::*;
use vstd::arithmetic::mul::*;
use vstd::arithmetic::power2::*;
use vstd::bits::{lemma_u64_pow2_no_overflow, lemma_u64_shl_is_mul};
use vstd::prelude::*;

verus! {

/// `x` held to the closed interval from `low` to `high`.
pub open spec fn clamp(x: int, low: int, high: int) -> int {
    if x < low {
        low
    } else if x > high {
        high
    } else {
        x
    }
}

/// The integer nearest to `num / den`, for a positive `den`; a fraction
/// that lies halfway between two integers goes to the one farther from
/// zero.
pub open spec fn round_half_away(num: int, den: int) -> int {
    if num >= 0 {
        (2 * num + den) / (2 * den)
    } else {
        -((den - 2 * num) / (2 * den))
    }
}

/// The rounded value lies within one half of the fraction, and where it
/// lies exactly one half away it is the neighbour farther from zero.
pub proof fn lemma_round_half_away_is_nearest(num: int, den: int)
    requires
        den > 0,
    ensures
        ({
            let r = round_half_away(num, den);
            &&& -den <= 2 * (r * den - num) <= den
            &&& num >= 0 ==> r >= 0 && 2 * (r * den - num) > -den
            &&& num < 0 ==> r <= 0 && 2 * (r * den - num) < den
        }),
{
    let a = if num >= 0 {
        num
    } else {
        -num
    };
    let q = (2 * a + den) / (2 * den);
    lemma_fundamental_div_mod(2 * a + den, 2 * den);
    lemma_mod_bound(2 * a + den, 2 * den);
    lemma_div_pos_is_pos(2 * a + den, 2 * den);
    assert((2 * den) * q == 2 * (q * den)) by (nonlinear_arith);
    if num < 0 {
        assert((-q) * den == -(q * den)) by (nonlinear_arith);
    }
}

/// Rounding depends on the fraction alone: a common positive factor of
/// numerator and denominator changes nothing.
pub proof fn lemma_round_half_away_cancels(num: int, den: int, factor: int)
    requires
        den > 0,
        factor > 0,
    ensures
        round_half_away(num * factor, den * factor) == round_half_away(num, den),
{
    let a = if num >= 0 {
        num
    } else {
        -num
    };
    lemma_div_multiples_vanish_quotient(factor, 2 * a + den, 2 * den);
    assert(factor * (2 * a + den) == 2 * (a * factor) + den * factor) by (nonlinear_arith);
    assert(factor * (2 * den) == 2 * (den * factor)) by (nonlinear_arith);
    if num >= 0 {
        lemma_mul_nonnegative(num, factor);
    } else {
        assert(num * factor < 0) by (nonlinear_arith)
            requires
                num < 0,
                factor > 0,
        ;
        assert(a * factor == -(num * factor)) by (nonlinear_arith)
            requires
                a == -num,
        ;
    }
}

/// A whole number of denominators rounds to that number.
pub proof fn lemma_round_half_away_of_multiple(n: int, den: int)
    requires
        den > 0,
    ensures
        round_half_away(n * den, den) == n,
{
    let a = if n >= 0 {
        n
    } else {
        -n
    };
    assert(2 * (a * den) + den == a * (2 * den) + den) by (nonlinear_arith);
    lemma_fundamental_div_mod_converse(2 * (a * den) + den, 2 * den, a, den);
    if n >= 0 {
        lemma_mul_nonnegative(n, den);
    } else {
        assert(n * den < 0) by (nonlinear_arith)
            requires
                n < 0,
                den > 0,
        ;
        assert(a * den == -(n * den)) by (nonlinear_arith)
            requires
                a == -n,
        ;
    }
}

/// A fraction between two integers rounds to an integer between them.
pub proof fn lemma_round_half_away_within(num: int, den: int, low: int, high: int)
    requires
        den > 0,
        low * den <= num <= high * den,
    ensures
        low <= round_half_away(num, den) <= high,
{
    let r = round_half_away(num, den);
    lemma_round_half_away_is_nearest(num, den);
    if r > high {
        assert(r * den >= high * den + den) by (nonlinear_arith)
            requires
                r >= high + 1,
                den > 0,
        ;
    }
    if r < low {
        assert(r * den <= low * den - den) by (nonlinear_arith)
            requires
                r <= low - 1,
                den > 0,
        ;
    }
}

/// The larger of two fractions with one denominator never rounds to the
/// smaller integer.
pub proof fn lemma_round_half_away_is_monotonic(low: int, high: int, den: int)
    requires
        den > 0,
        low <= high,
    ensures
        round_half_away(low, den) <= round_half_away(high, den),
{
    lemma_round_half_away_is_nearest(low, den);
    lemma_round_half_away_is_nearest(high, den);
    if low >= 0 {
        lemma_div_is_ordered(2 * low + den, 2 * high + den, 2 * den);
    } else if high < 0 {
        lemma_div_is_ordered(den - 2 * high, den - 2 * low, 2 * den);
    }
}

/// 2^`k`, for an exponent that fits the word.
pub fn pow2_u64(k: u32) -> (p: u64)
    requires
        k < 64,
    ensures
        p == pow2(k as nat),
        p > 0,
{
    proof {
        lemma_u64_pow2_no_overflow(k as nat);
        lemma_u64_shl_is_mul(1, k as u64);
    }
    1u64 << k
}

/// `a / 2^k` rounded to the nearest integer, an exact half rounded up.
pub fn round_shift(a: u64, k: u32) -> (r: u64)
    requires
        a < 0x100_0000_0000_0000,
    ensures
        r == round_half_away(a as int, pow2(k as nat) as int),
{
    proof {
        lemma2_to64_rest();
    }
    if k >= 57 {
        proof {
            // Twice `a` stays below 2^57, so the quotient is 0.
            if k > 57 {
                lemma_pow2_strictly_increases(57, k as nat);
            }
            let p = pow2(k as nat) as int;
            lemma_basic_div(2 * a + p, 2 * p);
        }
        0
    } else {
        let p: u64 = pow2_u64(k);
        proof {
            if k < 56 {
                lemma_pow2_strictly_increases(k as nat, 56);
            }
        }
        (2 * a + p) / (2 * p)
    }
}

} // verus!
