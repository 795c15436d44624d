//! What the oscillators decide: how many harmonics a band-limited
//! waveform sums, and which level a square wave takes.
//!
//! The sums of sines themselves need floating-point arithmetic and live
//! with the caller. Frequencies are compared as the exact values their bit
//! patterns denote, an infinity above or below every finite value, and a
//! NaN below nothing and above nothing.
use crate::binary32::{
    lemma_half_is_half_unit, unit, Binary32, HALF_BITS, MINUS_ONE_BITS, ONE_BITS,
};
use crate::dyadic::{dyadic, dyadic_lt};
use vstd::arithmetic::mul::*;
use vstd::arithmetic::power2::*;
use vstd::prelude::*;

verus! {

/// 1 for positive infinity, -1 for negative infinity, 0 for every other
/// pattern.
pub open spec fn infinity_sign(x: Binary32) -> int {
    if !x.is_infinite() {
        0
    } else if x.sign() {
        -1
    } else {
        1
    }
}

/// The partial at `multiple` times `freq` lies strictly below the Nyquist
/// frequency, half of `sample_rate`. `multiple` is not zero.
pub open spec fn partial_below_nyquist(
    freq: Binary32,
    multiple: int,
    sample_rate: Binary32,
) -> bool {
    let partial = if multiple < 0 {
        -infinity_sign(freq)
    } else {
        infinity_sign(freq)
    };
    let nyquist = infinity_sign(sample_rate);
    &&& !freq.is_nan()
    &&& !sample_rate.is_nan()
    &&& if partial == 0 && nyquist == 0 {
        2 * multiple * freq.units() < sample_rate.units()
    } else {
        partial < nyquist
    }
}

/// Tells whether the partial at `odd * 2^doublings` times `freq` lies
/// strictly below half of `sample_rate`.
fn partial_is_below(freq: Binary32, odd: i32, doublings: u32, sample_rate: Binary32) -> (r: bool)
    requires
        -255 <= odd <= 255,
        odd != 0,
        doublings <= 127,
    ensures
        r == partial_below_nyquist(freq, odd * pow2(doublings as nat), sample_rate),
{
    let ghost multiple = odd * pow2(doublings as nat);
    proof {
        lemma_pow2_pos(doublings as nat);
        assert(multiple < 0 <==> odd < 0) by (nonlinear_arith)
            requires
                multiple == odd * pow2(doublings as nat),
                pow2(doublings as nat) > 0,
        ;
    }
    if freq.is_nan() || sample_rate.is_nan() {
        return false;
    }
    let mirrored: bool = freq.is_sign_negative() != (odd < 0);
    if freq.is_infinite() || sample_rate.is_infinite() {
        let partial: i8 = if !freq.is_infinite() {
            0
        } else if mirrored {
            -1
        } else {
            1
        };
        let nyquist: i8 = if !sample_rate.is_infinite() {
            0
        } else if sample_rate.is_sign_negative() {
            -1
        } else {
            1
        };
        return partial < nyquist;
    }
    let (freq_significand, freq_scale) = freq.decode();
    let (rate_significand, rate_scale) = sample_rate.decode();
    let size: u32 = if odd < 0 {
        (-odd) as u32
    } else {
        odd as u32
    };
    assert(freq_significand * size < 0x1_0000_0000) by (nonlinear_arith)
        requires
            freq_significand < 0x100_0000,
            size <= 255,
    ;
    let left: u64 = freq_significand as u64 * size as u64;
    let left_scale: u32 = freq_scale + doublings + 1;
    proof {
        let w = pow2(freq_scale as nat) as int;
        let t = pow2(doublings as nat) as int;
        let m = freq_significand as int;
        lemma_pow2_adds(freq_scale as nat, (doublings + 1) as nat);
        lemma_pow2_unfold((doublings + 1) as nat);
        // |2 * multiple * freq| = (m * size) * 2^(scale + doublings + 1)
        assert(left * pow2(left_scale as nat) == 2 * (size * t) * (m * w)) by (nonlinear_arith)
            requires
                left == m * size,
                pow2(left_scale as nat) == w * (2 * t),
        ;
        assert(2 * multiple * freq.units() == dyadic(mirrored, left as nat, left_scale as nat))
            by (nonlinear_arith)
            requires
                left * pow2(left_scale as nat) == 2 * (size * t) * (m * w),
                multiple == odd * t,
                size == if odd < 0 {
                    -odd
                } else {
                    odd as int
                },
                freq.units() == if freq.sign() {
                    -(m * w)
                } else {
                    m * w
                },
                mirrored == (freq.sign() != (odd < 0)),
                dyadic(mirrored, left as nat, left_scale as nat) == if mirrored {
                    -(left * pow2(left_scale as nat))
                } else {
                    left * pow2(left_scale as nat)
                },
        ;
    }
    dyadic_lt(
        mirrored,
        left,
        left_scale,
        sample_rate.is_sign_negative(),
        rate_significand as u64,
        rate_scale,
    )
}

/// The partial that the saw tries after `doublings` doublings of the
/// frequency lies below the Nyquist frequency.
pub open spec fn doubled_below_nyquist(
    freq: Binary32,
    sample_rate: Binary32,
    doublings: int,
) -> bool {
    partial_below_nyquist(freq, pow2(doublings as nat) as int, sample_rate)
}

/// The odd partial that a count of `count` harmonics would make the
/// highest lies below the Nyquist frequency.
pub open spec fn odd_below_nyquist(freq: Binary32, sample_rate: Binary32, count: int) -> bool {
    partial_below_nyquist(freq, 2 * count - 1, sample_rate)
}

/// `count` is the number of harmonics that the saw picks by itself: the
/// number of times the frequency is doubled until it no longer lies below
/// the Nyquist frequency.
pub open spec fn is_saw_count(freq: Binary32, sample_rate: Binary32, count: int) -> bool {
    &&& 0 <= count <= i8::MAX
    &&& !doubled_below_nyquist(freq, sample_rate, count)
    &&& forall|j: int| 0 <= j < count ==> #[trigger] doubled_below_nyquist(freq, sample_rate, j)
}

/// `count` is the number of harmonics that square and triangle pick by
/// themselves: one less than the first count whose highest odd partial no
/// longer lies below the Nyquist frequency.
pub open spec fn is_odd_count(freq: Binary32, sample_rate: Binary32, count: int) -> bool {
    &&& -1 <= count <= i8::MAX
    &&& !odd_below_nyquist(freq, sample_rate, count + 1)
    &&& forall|j: int| 0 <= j <= count ==> #[trigger] odd_below_nyquist(freq, sample_rate, j)
}

/// At most one count is the one that the saw picks by itself, and at most
/// one the one that square and triangle pick.
pub proof fn lemma_counts_are_unique(freq: Binary32, sample_rate: Binary32, a: int, b: int)
    ensures
        is_saw_count(freq, sample_rate, a) && is_saw_count(freq, sample_rate, b) ==> a == b,
        is_odd_count(freq, sample_rate, a) && is_odd_count(freq, sample_rate, b) ==> a == b,
{
    if is_saw_count(freq, sample_rate, a) && is_saw_count(freq, sample_rate, b) {
        if a < b {
            assert(doubled_below_nyquist(freq, sample_rate, a));
        } else if b < a {
            assert(doubled_below_nyquist(freq, sample_rate, b));
        }
    }
    if is_odd_count(freq, sample_rate, a) && is_odd_count(freq, sample_rate, b) {
        if a < b {
            assert(odd_below_nyquist(freq, sample_rate, a + 1));
        } else if b < a {
            assert(odd_below_nyquist(freq, sample_rate, b + 1));
        }
    }
}

/// The number of harmonics that the band-limited saw sums.
///
/// A `harmonics` other than 0 is used as it is, and so is 0 at a frequency
/// of zero. Otherwise the count is the number of doublings that take the
/// frequency out from under the Nyquist frequency; `None` where 127
/// doublings do not suffice, which is where a count no longer fits.
pub fn saw_harmonics(freq: Binary32, sample_rate: Binary32, harmonics: i8) -> (count: Option<i8>)
    ensures
        harmonics != 0 || freq.is_zero() ==> count == Some(harmonics),
        harmonics == 0 && !freq.is_zero() ==> (match count {
            Some(n) => is_saw_count(freq, sample_rate, n as int),
            None => forall|j: int|
                0 <= j <= i8::MAX ==> #[trigger] doubled_below_nyquist(freq, sample_rate, j),
        }),
{
    if harmonics != 0 || freq.is_zero() {
        return Some(harmonics);
    }
    let mut n: i8 = 0;
    loop
        invariant
            harmonics == 0 && !freq.is_zero(),
            0 <= n <= i8::MAX,
            forall|j: int| 0 <= j < n ==> #[trigger] doubled_below_nyquist(freq, sample_rate, j),
        decreases i8::MAX - n,
    {
        proof {
            lemma_mul_basics(pow2(n as nat) as int);
        }
        if !partial_is_below(freq, 1, n as u32, sample_rate) {
            return Some(n);
        }
        if n == i8::MAX {
            return None;
        }
        n += 1;
    }
}

/// The number of harmonics that the band-limited square and triangle sum.
///
/// A `harmonics` other than 0 is used as it is, and so is 0 at a frequency
/// of zero. Otherwise counts are tried from 0 up until the highest odd
/// partial of one, at `2 * count - 1` times the frequency, no longer lies
/// below the Nyquist frequency, and the count before that one is taken;
/// `None` where the counts up to 128 all pass, which is where a count no
/// longer fits.
pub fn odd_harmonics(freq: Binary32, sample_rate: Binary32, harmonics: i8) -> (count: Option<i8>)
    ensures
        harmonics != 0 || freq.is_zero() ==> count == Some(harmonics),
        harmonics == 0 && !freq.is_zero() ==> (match count {
            Some(n) => is_odd_count(freq, sample_rate, n as int),
            None => forall|j: int|
                0 <= j <= i8::MAX + 1 ==> #[trigger] odd_below_nyquist(freq, sample_rate, j),
        }),
{
    if harmonics != 0 || freq.is_zero() {
        return Some(harmonics);
    }
    let mut n: i16 = 0;
    loop
        invariant
            harmonics == 0 && !freq.is_zero(),
            0 <= n <= i8::MAX + 1,
            forall|j: int| 0 <= j < n ==> #[trigger] odd_below_nyquist(freq, sample_rate, j),
        decreases i8::MAX + 1 - n,
    {
        proof {
            lemma2_to64();
            lemma_mul_basics(2 * n - 1);
        }
        if !partial_is_below(freq, 2 * n as i32 - 1, 0, sample_rate) {
            return Some((n - 1) as i8);
        }
        if n == i8::MAX as i16 + 1 {
            return None;
        }
        n += 1;
    }
}

/// A count is at most two to the power of its predecessor.
proof fn lemma_count_below_doublings(count: nat)
    requires
        count >= 1,
    ensures
        count <= pow2((count - 1) as nat),
    decreases count,
{
    lemma2_to64();
    if count > 1 {
        lemma_count_below_doublings((count - 1) as nat);
        lemma_pow2_unfold((count - 1) as nat);
    }
}

/// Of the count that the saw picks at a positive frequency: doubling the
/// frequency that many times reaches the Nyquist frequency, and doubling
/// it once less does not.
pub proof fn lemma_saw_count_brackets_nyquist(
    freq: Binary32,
    sample_rate: Binary32,
    count: int,
)
    requires
        is_saw_count(freq, sample_rate, count),
        freq.is_finite(),
        sample_rate.is_finite(),
        freq.units() > 0,
    ensures
        sample_rate.units() <= pow2(count as nat) * (2 * freq.units()),
        count >= 1 ==> pow2((count - 1) as nat) * (2 * freq.units()) < sample_rate.units(),
{
    let f = freq.units();
    let top = pow2(count as nat) as int;
    assert(!doubled_below_nyquist(freq, sample_rate, count));
    assert(2 * top * f == top * (2 * f)) by (nonlinear_arith);
    if count >= 1 {
        let last = pow2((count - 1) as nat) as int;
        assert(doubled_below_nyquist(freq, sample_rate, count - 1));
        assert(2 * last * f == last * (2 * f)) by (nonlinear_arith);
    }
}

/// Of the count that the saw picks at a positive frequency: every partial
/// that is summed, the `i`-th at `i` times the frequency for `i` from 1 up
/// to the count, lies strictly below the Nyquist frequency.
pub proof fn lemma_saw_partials_below_nyquist(
    freq: Binary32,
    sample_rate: Binary32,
    count: int,
    i: int,
)
    requires
        is_saw_count(freq, sample_rate, count),
        freq.is_finite(),
        sample_rate.is_finite(),
        freq.units() > 0,
        1 <= i <= count,
    ensures
        i * (2 * freq.units()) < sample_rate.units(),
{
    lemma_saw_count_brackets_nyquist(freq, sample_rate, count);
    lemma_count_below_doublings(count as nat);
    lemma_mul_inequality(i, pow2((count - 1) as nat) as int, 2 * freq.units());
}

/// Of the count that square and triangle pick at a positive frequency and
/// a positive sample rate: the highest partial that is summed, at
/// `2 * count - 1` times the frequency, lies strictly below the Nyquist
/// frequency, and the next odd partial does not.
pub proof fn lemma_odd_count_is_maximal(freq: Binary32, sample_rate: Binary32, count: int)
    requires
        is_odd_count(freq, sample_rate, count),
        freq.is_finite(),
        sample_rate.is_finite(),
        freq.units() > 0,
        sample_rate.units() > 0,
    ensures
        count >= 0,
        (2 * count - 1) * (2 * freq.units()) < sample_rate.units() <= (2 * count + 1) * (2
            * freq.units()),
{
    let f = freq.units();
    if count < 0 {
        assert(!odd_below_nyquist(freq, sample_rate, 0));
        assert(2 * (2 * 0 - 1) * f == -2 * f);
    }
    assert(odd_below_nyquist(freq, sample_rate, count));
    assert(!odd_below_nyquist(freq, sample_rate, count + 1));
    assert(2 * (2 * count - 1) * f == (2 * count - 1) * (2 * f)) by (nonlinear_arith);
    assert(2 * (2 * (count + 1) - 1) * f == (2 * count + 1) * (2 * f)) by (nonlinear_arith);
}

/// Tells whether `phase`, a position within the period counted from 0 to
/// 1, lies in the first half of the period, the point one half included.
/// A NaN lies in neither half.
pub fn in_first_half(phase: Binary32) -> (r: bool)
    ensures
        r == (!phase.is_nan() && 2 * phase.units() <= unit()),
{
    proof {
        lemma_half_is_half_unit();
    }
    phase.le(Binary32::from_bits(HALF_BITS))
}

/// The level of the naive square wave at `phase`: `1.0` through the first
/// half of the period, the point one half included, and `-1.0` otherwise.
pub fn square_level(phase: Binary32) -> (level: Binary32)
    ensures
        level.bits == (if !phase.is_nan() && 2 * phase.units() <= unit() {
            ONE_BITS
        } else {
            MINUS_ONE_BITS
        }),
{
    if in_first_half(phase) {
        Binary32::from_bits(ONE_BITS)
    } else {
        Binary32::from_bits(MINUS_ONE_BITS)
    }
}

} // verus!
