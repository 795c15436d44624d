//! Quantizing a sample to PCM: from a number notionally between -1 and 1
//! to the little-endian bytes of an 8, 16 or 32-bit integer.
//!
//! A sample is scaled, held to the range of the target integer and only
//! then rounded, ties away from zero, all on the exact value that its bit
//! pattern denotes. A NaN becomes the integer 0.
use crate::binary32::{
    lemma_magnitude_follows_bits, lemma_one_is_unit, unit, Binary32, MINUS_ONE_BITS, ONE_BITS,
};
use crate::bytes::{le_bytes_2, le_bytes_4, push_le_i16, push_le_i32};
use crate::ieee754::FloatComponent;
use crate::rounding::{
    clamp, lemma_round_half_away_cancels, lemma_round_half_away_is_monotonic,
    lemma_round_half_away_of_multiple, lemma_round_half_away_within, pow2_u64, round_half_away,
    round_shift,
};
use vstd::arithmetic::div_mod::*;
use vstd::arithmetic::mul::*;
use vstd::arithmetic::power2::*;
use vstd::layout::size_of;
use vstd::prelude::*;

verus! {

/// The unsigned 8-bit level of a sample: `(x + 1) * 127.5`, held to 0
/// through 255 and rounded.
pub open spec fn quantize_u8(x: Binary32) -> int {
    if x.is_nan() {
        0
    } else {
        round_half_away(clamp((x.units() + unit()) * 255, 0, 255 * (2 * unit())), 2 * unit())
    }
}

/// The signed level of a sample for an integer type whose largest value is
/// `max`: `x * max` for a sample that is not negative and `x * (max + 1)`
/// for a negative one, held to `-(max + 1)` through `max` and rounded.
pub open spec fn quantize_signed(x: Binary32, max: int) -> int {
    if x.is_nan() {
        0
    } else {
        let scale = if x.units() >= 0 {
            max
        } else {
            max + 1
        };
        round_half_away(clamp(x.units() * scale, -(max + 1) * unit(), max * unit()), unit())
    }
}

/// The 8-bit level is a byte, whatever the sample.
pub proof fn lemma_quantize_u8_in_range(x: Binary32)
    ensures
        0 <= quantize_u8(x) <= 255,
{
    lemma_pow2_pos(149);
    let held = clamp((x.units() + unit()) * 255, 0, 255 * (2 * unit()));
    lemma_round_half_away_within(held, 2 * unit(), 0, 255);
}

/// The signed level fits the integer type it is meant for, whatever the
/// sample.
pub proof fn lemma_quantize_signed_in_range(x: Binary32, max: int)
    requires
        max >= 0,
    ensures
        -(max + 1) <= quantize_signed(x, max) <= max,
{
    lemma_pow2_pos(149);
    let u = unit();
    assert(-(max + 1) * u <= max * u) by (nonlinear_arith)
        requires
            u > 0,
            max >= 0,
    ;
    let scale = if x.units() >= 0 {
        max
    } else {
        max + 1
    };
    let held = clamp(x.units() * scale, -(max + 1) * u, max * u);
    lemma_round_half_away_within(held, u, -(max + 1), max);
}

/// A larger sample never takes a lower level, at any bit depth.
pub proof fn lemma_levels_are_monotonic(x: Binary32, y: Binary32, max: int)
    requires
        !x.is_nan(),
        !y.is_nan(),
        x.units() <= y.units(),
        max >= 0,
    ensures
        quantize_u8(x) <= quantize_u8(y),
        quantize_signed(x, max) <= quantize_signed(y, max),
{
    let u = unit();
    lemma_pow2_pos(149);
    lemma_round_half_away_is_monotonic(
        clamp((x.units() + u) * 255, 0, 255 * (2 * u)),
        clamp((y.units() + u) * 255, 0, 255 * (2 * u)),
        2 * u,
    );
    let scaled_x = x.units() * if x.units() >= 0 {
        max
    } else {
        max + 1
    };
    let scaled_y = y.units() * if y.units() >= 0 {
        max
    } else {
        max + 1
    };
    assert(scaled_x <= scaled_y) by (nonlinear_arith)
        requires
            x.units() <= y.units(),
            max >= 0,
            scaled_x == x.units() * if x.units() >= 0 {
                max
            } else {
                max + 1
            },
            scaled_y == y.units() * if y.units() >= 0 {
                max
            } else {
                max + 1
            },
    ;
    assert(-(max + 1) * u <= max * u) by (nonlinear_arith)
        requires
            u > 0,
            max >= 0,
    ;
    lemma_round_half_away_is_monotonic(
        clamp(scaled_x, -(max + 1) * u, max * u),
        clamp(scaled_y, -(max + 1) * u, max * u),
        u,
    );
}

/// What is known of a value strictly between -1 and 1: its magnitude lies
/// below one unit, and one unit is the weight of its significand times a
/// power of two above that significand.
proof fn lemma_fraction_parts(x: Binary32)
    requires
        x.abs_bits() < ONE_BITS,
    ensures
        x.scale() <= 125,
        x.magnitude() < unit(),
        unit() == pow2((149 - x.scale()) as nat) * pow2(x.scale()),
        x.significand() < pow2((149 - x.scale()) as nat),
        pow2((149 - x.scale()) as nat) > 0,
        pow2(x.scale()) > 0,
{
    let one = Binary32 { bits: ONE_BITS };
    lemma_one_is_unit();
    lemma_magnitude_follows_bits(x, one);
    let k = (149 - x.scale()) as nat;
    lemma_pow2_adds(k, x.scale());
    lemma_pow2_pos(x.scale());
    lemma_pow2_pos(k);
    lemma_mul_strict_inequality_converse(
        x.significand() as int,
        pow2(k) as int,
        pow2(x.scale()) as int,
    );
}

/// A sample of 1 or more takes the highest signed level, a sample of -1 or
/// less the lowest.
pub proof fn lemma_signed_level_saturates(x: Binary32, max: int)
    requires
        !x.is_nan(),
        max > 0,
        x.units() >= unit() || x.units() <= -unit(),
    ensures
        quantize_signed(x, max) == (if x.units() > 0 {
            max
        } else {
            -(max + 1)
        }),
{
    let u = unit();
    lemma_pow2_pos(149);
    assert(-(max + 1) * u < 0 < max * u) by (nonlinear_arith)
        requires
            u > 0,
            max > 0,
    ;
    if x.units() > 0 {
        assert(x.units() * max >= max * u) by (nonlinear_arith)
            requires
                x.units() >= u,
                max > 0,
        ;
        lemma_round_half_away_of_multiple(max, u);
    } else {
        assert(x.units() * (max + 1) <= -(max + 1) * u) by (nonlinear_arith)
            requires
                x.units() <= -u,
                max + 1 > 0,
        ;
        lemma_round_half_away_of_multiple(-(max + 1), u);
    }
}

/// The signed level of a sample strictly between -1 and 1 is its
/// significand times the scale factor, divided by the power of two that
/// makes the significand a fraction and rounded, with the sign of the
/// sample.
proof fn lemma_signed_level_inside(x: Binary32, max: int)
    requires
        x.abs_bits() < ONE_BITS,
        max > 0,
    ensures
        ({
            let factor = if x.sign() {
                max + 1
            } else {
                max
            };
            let r = round_half_away(
                x.significand() * factor,
                pow2((149 - x.scale()) as nat) as int,
            );
            &&& 0 <= r <= factor
            &&& quantize_signed(x, max) == if x.sign() {
                -r
            } else {
                r
            }
        }),
{
    let u = unit();
    let m = x.significand() as int;
    let p = pow2((149 - x.scale()) as nat) as int;
    let w = pow2(x.scale()) as int;
    let factor = if x.sign() {
        max + 1
    } else {
        max
    };
    let a = m * factor;
    lemma_fraction_parts(x);
    assert(-(max + 1) * u < 0 < max * u) by (nonlinear_arith)
        requires
            u > 0,
            max > 0,
    ;
    assert(0 <= a <= factor * p && (m > 0 ==> a > 0)) by (nonlinear_arith)
        requires
            a == m * factor,
            0 <= m < p,
            factor > 0,
    ;
    lemma_round_half_away_within(a, p, 0, factor);
    lemma_round_half_away_cancels(a, p, w);
    // The scaled sample in units is `a * w`, strictly within the clamp.
    assert(x.magnitude() * factor == a * w && a * w <= factor * u && (a > 0 ==> a * w > 0))
        by (nonlinear_arith)
        requires
            x.magnitude() == m * w,
            a == m * factor,
            x.magnitude() < u,
            factor > 0,
            w > 0,
            a >= 0,
    ;
    if m == 0 {
        assert(x.units() == 0 && a == 0 && x.units() * max == 0) by (nonlinear_arith)
            requires
                x.magnitude() == m * w,
                a == m * factor,
                m == 0,
                x.units() == x.magnitude() || x.units() == -x.magnitude(),
        ;
        lemma_round_half_away_of_multiple(0, u);
        lemma_round_half_away_of_multiple(0, p);
    } else if x.sign() {
        assert(x.units() * (max + 1) == -(a * w)) by (nonlinear_arith)
            requires
                x.units() == -x.magnitude(),
                x.magnitude() * factor == a * w,
                factor == max + 1,
        ;
        assert(-(max + 1) * u == -(factor * u)) by (nonlinear_arith)
            requires
                factor == max + 1,
        ;
    } else {
        assert(x.units() * max == a * w) by (nonlinear_arith)
            requires
                x.units() == x.magnitude(),
                x.magnitude() * factor == a * w,
                factor == max,
        ;
        lemma_mul_is_commutative(max, u);
    }
}

/// A sample of 1 or more takes the level 255, a sample of -1 or less the
/// level 0.
pub proof fn lemma_u8_level_saturates(x: Binary32)
    requires
        !x.is_nan(),
        x.units() >= unit() || x.units() <= -unit(),
    ensures
        quantize_u8(x) == (if x.units() > 0 {
            255int
        } else {
            0int
        }),
{
    let u = unit();
    lemma_pow2_pos(149);
    if x.units() > 0 {
        lemma_round_half_away_of_multiple(255, 2 * u);
    } else {
        lemma_round_half_away_of_multiple(0, 2 * u);
    }
}

/// A sample of zero takes the signed level 0 and the 8-bit level 128, the
/// half-way value 127.5 rounded away from zero.
pub proof fn lemma_levels_of_zero(x: Binary32, max: int)
    requires
        x.is_zero(),
        max > 0,
    ensures
        quantize_signed(x, max) == 0,
        quantize_u8(x) == 128,
{
    let u = unit();
    lemma_pow2_pos(149);
    lemma_magnitude_follows_bits(x, x);
    assert(-(max + 1) * u < 0 < max * u) by (nonlinear_arith)
        requires
            u > 0,
            max > 0,
    ;
    assert(x.units() * max == 0) by (nonlinear_arith)
        requires
            x.units() == 0,
    ;
    lemma_round_half_away_of_multiple(0, u);
    lemma_fundamental_div_mod_converse(2 * (u * 255) + 2 * u, 2 * (2 * u), 128, 0);
}

/// The numerator of `(x + 1) * 127.5` over the denominator `2 * p`, for a
/// sample of significand `m` over `p`.
spec fn offset_numerator(negative: bool, m: int, p: int) -> int {
    if negative {
        (p - m) * 255
    } else {
        (p + m) * 255
    }
}

/// The 8-bit level of a sample strictly between -1 and 1 is
/// `(p + m) * 255 / (2 * p)` rounded, where the sample is `m / p` and `m`
/// carries the sign.
proof fn lemma_u8_level_inside(x: Binary32)
    requires
        x.abs_bits() < ONE_BITS,
    ensures
        ({
            let p = pow2((149 - x.scale()) as nat) as int;
            let r = round_half_away(offset_numerator(x.sign(), x.significand() as int, p), 2 * p);
            &&& 0 <= r <= 255
            &&& quantize_u8(x) == r
        }),
{
    let u = unit();
    let m = x.significand() as int;
    let p = pow2((149 - x.scale()) as nat) as int;
    let w = pow2(x.scale()) as int;
    let a = offset_numerator(x.sign(), m, p);
    lemma_fraction_parts(x);
    assert((x.units() + u) * 255 == a * w && 2 * u == (2 * p) * w) by (nonlinear_arith)
        requires
            x.units() == if x.sign() {
                -(m * w)
            } else {
                m * w
            },
            u == p * w,
            a == if x.sign() {
                (p - m) * 255
            } else {
                (p + m) * 255
            },
    ;
    assert(0 <= a * w <= 255 * ((2 * p) * w)) by (nonlinear_arith)
        requires
            0 <= a <= 255 * (2 * p),
            w > 0,
    ;
    lemma_round_half_away_cancels(a, 2 * p, w);
    lemma_round_half_away_within(a, 2 * p, 0, 255);
}

/// A sample so close to zero that `255 * m` stays below `2 * p` rounds to
/// the level on its side of 127.5: to 128 from zero up, to 127 below zero.
proof fn lemma_u8_level_near_zero(negative: bool, m: int, p: int)
    requires
        0 <= m,
        510 * m < 4 * p,
    ensures
        round_half_away(offset_numerator(negative, m, p), 2 * p) == (if negative && m > 0 {
            127int
        } else {
            128int
        }),
{
    let a = offset_numerator(negative, m, p);
    if negative && m > 0 {
        lemma_fundamental_div_mod_converse(2 * a + 2 * p, 2 * (2 * p), 127, 4 * p - 510 * m);
    } else if negative {
        lemma_fundamental_div_mod_converse(2 * a + 2 * p, 2 * (2 * p), 128, 0);
    } else {
        lemma_fundamental_div_mod_converse(2 * a + 2 * p, 2 * (2 * p), 128, 510 * m);
    }
}

/// The sample held to the range from -1 to 1, and whether it reached an
/// end of that range.
fn hold_to_range(x: Binary32) -> (held: (Binary32, bool))
    requires
        !x.is_nan(),
    ensures
        held.1 == (x.units() >= unit() || x.units() <= -unit()),
        held.1 ==> held.0.sign() == (x.units() < 0),
        !held.1 ==> held.0 == x && x.abs_bits() < ONE_BITS,
        unit() > 0,
{
    let one = Binary32::from_bits(ONE_BITS);
    let minus_one = Binary32::from_bits(MINUS_ONE_BITS);
    let c = Binary32::clamp_component(x, minus_one, one);
    proof {
        lemma_one_is_unit();
        lemma_magnitude_follows_bits(c, one);
    }
    (c, c.magnitude_bits() >= ONE_BITS)
}

/// The signed level of a sample for an integer type whose largest value is
/// `max`.
fn signed_level(x: Binary32, max: u32) -> (q: i64)
    requires
        0 < max <= i32::MAX,
    ensures
        q == quantize_signed(x, max as int),
        -(max + 1) <= q <= max,
{
    if x.is_nan() {
        return 0;
    }
    let (held, saturated) = hold_to_range(x);
    let negative = held.is_sign_negative();
    let factor: u64 = if negative {
        max as u64 + 1
    } else {
        max as u64
    };
    if saturated {
        proof {
            lemma_signed_level_saturates(x, max as int);
        }
        return if negative {
            -(factor as i64)
        } else {
            factor as i64
        };
    }
    let (significand, scale) = held.decode();
    proof {
        lemma_signed_level_inside(x, max as int);
        assert(significand * factor < 0x80_0000_0000_0000) by (nonlinear_arith)
            requires
                significand < 0x100_0000,
                factor <= 0x8000_0000,
        ;
    }
    let r: u64 = round_shift(significand as u64 * factor, 149 - scale);
    if negative {
        -(r as i64)
    } else {
        r as i64
    }
}

/// The unsigned 8-bit level of a sample.
fn u8_level(x: Binary32) -> (q: u8)
    ensures
        q == quantize_u8(x),
{
    if x.is_nan() {
        return 0;
    }
    let (held, saturated) = hold_to_range(x);
    let negative = held.is_sign_negative();
    if saturated {
        proof {
            lemma_u8_level_saturates(x);
        }
        return if negative {
            0
        } else {
            255
        };
    }
    let (significand, scale) = held.decode();
    let k: u32 = 149 - scale;
    proof {
        lemma_u8_level_inside(x);
        lemma_fraction_parts(x);
        lemma2_to64();
    }
    if significand == 0 || k >= 32 {
        proof {
            if k > 32 {
                lemma_pow2_strictly_increases(32, k as nat);
            }
            lemma_u8_level_near_zero(negative, significand as int, pow2(k as nat) as int);
        }
        return if significand != 0 && negative {
            127
        } else {
            128
        };
    }
    let unit_weight: u64 = pow2_u64(k);
    proof {
        lemma_pow2_strictly_increases(k as nat, 32);
        lemma_pow2_unfold((k + 1) as nat);
    }
    let numerator: u64 = if negative {
        (unit_weight - significand as u64) * 255
    } else {
        (unit_weight + significand as u64) * 255
    };
    round_shift(numerator, k + 1) as u8
}

/// Trait for writing WAVE files using the implementing type's bit depth.
pub trait WaveComponent: Sized {
    /// The bytes that stand for a sample in the file.
    spec fn encoded(float: Binary32) -> Seq<u8>;

    /// A sample takes as many bytes as the implementing type has.
    proof fn encoded_len(float: Binary32)
        ensures
            Self::encoded(float).len() == size_of::<Self>(),
    ;

    /// Quantizes a sample to the implementing type and lays it out, least
    /// significant byte first.
    fn float_to_audio_sample(float: Binary32) -> (bytes: Vec<u8>)
        ensures
            bytes@ == Self::encoded(float),
    ;
}

impl WaveComponent for u8 {
    open spec fn encoded(float: Binary32) -> Seq<u8> {
        seq![quantize_u8(float) as u8]
    }

    proof fn encoded_len(float: Binary32) {
        broadcast use vstd::layout::layout_of_primitives;

    }

    fn float_to_audio_sample(float: Binary32) -> (bytes: Vec<u8>) {
        let mut bytes: Vec<u8> = Vec::new();
        bytes.push(u8_level(float));
        assert(bytes@ =~= Self::encoded(float));
        bytes
    }
}

impl WaveComponent for i16 {
    open spec fn encoded(float: Binary32) -> Seq<u8> {
        le_bytes_2(quantize_signed(float, i16::MAX as int))
    }

    proof fn encoded_len(float: Binary32) {
        broadcast use vstd::layout::layout_of_primitives;

    }

    fn float_to_audio_sample(float: Binary32) -> (bytes: Vec<u8>) {
        let level: i16 = signed_level(float, 0x7fff) as i16;
        let mut bytes: Vec<u8> = Vec::new();
        push_le_i16(&mut bytes, level);
        assert(bytes@ =~= Self::encoded(float));
        bytes
    }
}

impl WaveComponent for i32 {
    open spec fn encoded(float: Binary32) -> Seq<u8> {
        le_bytes_4(quantize_signed(float, i32::MAX as int))
    }

    proof fn encoded_len(float: Binary32) {
        broadcast use vstd::layout::layout_of_primitives;

    }

    fn float_to_audio_sample(float: Binary32) -> (bytes: Vec<u8>) {
        let level: i32 = signed_level(float, 0x7fff_ffff) as i32;
        let mut bytes: Vec<u8> = Vec::new();
        push_le_i32(&mut bytes, level);
        assert(bytes@ =~= Self::encoded(float));
        bytes
    }
}

} // verus!
