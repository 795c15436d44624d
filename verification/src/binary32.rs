//! IEEE 754 binary32 numbers, held as bit patterns and read exactly.
//!
//! Every finite binary32 value is an integer multiple of 2^-149, the
//! smallest positive subnormal. Contracts speak of a value through
//! [`Binary32::units`], that integer multiple, so that comparisons and
//! products with integers are plain integer arithmetic.
use crate::ieee754::{
    lemma_magnitude_follows_pattern, magnitude_of, scale_of, significand_of, FloatComponent,
};
use vstd::arithmetic::mul::*;
use vstd::arithmetic::power2::*;
use vstd::prelude::*;

verus! {

/// The sign bit of a binary32 bit pattern.
pub const SIGN_BIT: u32 = 0x8000_0000;

/// The weight of the exponent field's lowest bit; also the implicit leading
/// bit of a normal number's significand.
pub const HIDDEN_BIT: u32 = 0x0080_0000;

/// Bit pattern of positive infinity.
pub const INFINITY_BITS: u32 = 0x7f80_0000;

/// Bit pattern of `1.0`.
pub const ONE_BITS: u32 = 0x3f80_0000;

/// Bit pattern of `-1.0`.
pub const MINUS_ONE_BITS: u32 = 0xbf80_0000;

/// Bit pattern of `0.5`.
pub const HALF_BITS: u32 = 0x3f00_0000;

/// An IEEE 754 binary32 number, held as its 32-bit encoding.
#[derive(Clone, Copy, Debug)]
pub struct Binary32 {
    pub bits: u32,
}

impl Binary32 {
    /// The sign bit is set. True of negative numbers, of `-0.0`, and of
    /// NaNs and infinities that carry the bit.
    pub open spec fn sign(self) -> bool {
        self.bits >= SIGN_BIT
    }

    /// The bit pattern without its sign bit.
    pub open spec fn abs_bits(self) -> nat {
        (self.bits % SIGN_BIT) as nat
    }

    /// The eight-bit biased exponent field.
    pub open spec fn exponent_field(self) -> nat {
        self.abs_bits() / (HIDDEN_BIT as nat)
    }

    /// The 23-bit fraction field.
    pub open spec fn fraction_field(self) -> nat {
        self.abs_bits() % (HIDDEN_BIT as nat)
    }

    /// The pattern is a NaN: all exponent bits set and a fraction that is
    /// not zero.
    pub open spec fn spec_is_nan(self) -> bool {
        self.abs_bits() > INFINITY_BITS
    }

    /// The pattern is an infinity: all exponent bits set and a fraction of
    /// zero.
    pub open spec fn spec_is_infinite(self) -> bool {
        self.abs_bits() == INFINITY_BITS
    }

    /// The pattern is a number: zero, subnormal or normal.
    pub open spec fn spec_is_finite(self) -> bool {
        self.abs_bits() < INFINITY_BITS
    }

    /// The integer significand: the fraction field, with the implicit
    /// leading bit added for every pattern whose exponent field is not zero.
    pub open spec fn significand(self) -> nat {
        significand_of(self.abs_bits(), HIDDEN_BIT as nat)
    }

    /// The power of two, counted from 2^-149, that weighs the significand.
    pub open spec fn scale(self) -> nat {
        scale_of(self.abs_bits(), HIDDEN_BIT as nat)
    }

    /// The absolute value in units of 2^-149: `significand * 2^scale`.
    ///
    /// The formula is applied to every pattern. An infinity comes out as
    /// 2^277, above every finite magnitude, which is what ordering and
    /// clamping need of it; for a NaN the number has no meaning.
    pub open spec fn magnitude(self) -> nat {
        magnitude_of(self.abs_bits(), HIDDEN_BIT as nat)
    }

    /// The value in units of 2^-149, with its sign. Exact for every finite
    /// pattern; `-0.0` and `0.0` both give 0.
    pub open spec fn units(self) -> int {
        if self.sign() {
            -(self.magnitude() as int)
        } else {
            self.magnitude() as int
        }
    }

    /// IEEE `<`: false as soon as either side is a NaN.
    pub open spec fn spec_lt(self, other: Binary32) -> bool {
        !self.spec_is_nan() && !other.spec_is_nan() && self.units() < other.units()
    }

    /// IEEE `<=`: false as soon as either side is a NaN.
    pub open spec fn spec_le(self, other: Binary32) -> bool {
        !self.spec_is_nan() && !other.spec_is_nan() && self.units() <= other.units()
    }

    /// The pattern is `0.0` or `-0.0`.
    pub open spec fn spec_is_zero(self) -> bool {
        self.abs_bits() == 0
    }

    /// Wraps a bit pattern, as `f32::to_bits` produces it.
    pub fn from_bits(bits: u32) -> (x: Binary32)
        ensures
            x.bits == bits,
    {
        Binary32 { bits }
    }

    /// The bit pattern, as `f32::from_bits` takes it.
    pub fn to_bits(self) -> (bits: u32)
        ensures
            bits == self.bits,
    {
        self.bits
    }

    /// The pattern with the sign bit cleared.
    pub fn magnitude_bits(self) -> (abs: u32)
        ensures
            abs == self.abs_bits(),
            abs < SIGN_BIT,
    {
        self.bits % SIGN_BIT
    }

    /// The value is a NaN.
    #[verifier::when_used_as_spec(spec_is_nan)]
    pub fn is_nan(self) -> (r: bool)
        ensures
            r == self.spec_is_nan(),
    {
        self.magnitude_bits() > INFINITY_BITS
    }

    /// The value is positive or negative infinity.
    #[verifier::when_used_as_spec(spec_is_infinite)]
    pub fn is_infinite(self) -> (r: bool)
        ensures
            r == self.spec_is_infinite(),
    {
        self.magnitude_bits() == INFINITY_BITS
    }

    /// The value is neither a NaN nor an infinity.
    #[verifier::when_used_as_spec(spec_is_finite)]
    pub fn is_finite(self) -> (r: bool)
        ensures
            r == self.spec_is_finite(),
    {
        self.magnitude_bits() < INFINITY_BITS
    }

    /// The value is `0.0` or `-0.0`.
    #[verifier::when_used_as_spec(spec_is_zero)]
    pub fn is_zero(self) -> (r: bool)
        ensures
            r == self.spec_is_zero(),
            r ==> self.units() == 0,
    {
        proof {
            if self.abs_bits() == 0 {
                assert(self.significand() == 0);
                lemma_mul_basics(pow2(self.scale()) as int);
            }
        }
        self.magnitude_bits() == 0
    }

    /// The significand and the scale, so that the magnitude in units of
    /// 2^-149 is the first times two to the power of the second.
    pub fn decode(self) -> (parts: (u32, u32))
        ensures
            parts.0 == self.significand(),
            parts.1 == self.scale(),
            parts.0 < 2 * HIDDEN_BIT,
            parts.1 <= 254,
            self.abs_bits() < HIDDEN_BIT ==> parts.1 == 0,
            self.abs_bits() >= HIDDEN_BIT ==> parts.0 >= HIDDEN_BIT,
    {
        let abs: u32 = self.magnitude_bits();
        let exponent: u32 = abs / HIDDEN_BIT;
        let fraction: u32 = abs % HIDDEN_BIT;
        if exponent == 0 {
            (fraction, 0)
        } else {
            (HIDDEN_BIT + fraction, exponent - 1)
        }
    }

    /// The place of a value that is no NaN in the order of the extended
    /// reals: the pattern without its sign, negated under a set sign bit.
    fn order_key(self) -> (key: i64)
        ensures
            key == (if self.sign() {
                -(self.abs_bits() as int)
            } else {
                self.abs_bits() as int
            }),
    {
        let abs: u32 = self.magnitude_bits();
        if self.bits >= SIGN_BIT {
            -(abs as i64)
        } else {
            abs as i64
        }
    }

    /// IEEE `<` on the values the two patterns denote.
    #[verifier::when_used_as_spec(spec_lt)]
    pub fn lt(self, other: Binary32) -> (r: bool)
        ensures
            r == self.spec_lt(other),
    {
        if self.is_nan() || other.is_nan() {
            return false;
        }
        proof {
            lemma_magnitude_follows_bits(self, other);
        }
        self.order_key() < other.order_key()
    }

    /// IEEE `<=` on the values the two patterns denote.
    #[verifier::when_used_as_spec(spec_le)]
    pub fn le(self, other: Binary32) -> (r: bool)
        ensures
            r == self.spec_le(other),
    {
        if self.is_nan() || other.is_nan() {
            return false;
        }
        proof {
            lemma_magnitude_follows_bits(self, other);
        }
        self.order_key() <= other.order_key()
    }

    /// The sign bit.
    pub fn is_sign_negative(self) -> (r: bool)
        ensures
            r == self.sign(),
    {
        self.bits >= SIGN_BIT
    }
}

/// The value 1 in units of 2^-149.
pub open spec fn unit() -> int {
    pow2(149) as int
}

/// The patterns of `1.0` and `-1.0` denote one unit and its negative.
pub proof fn lemma_one_is_unit()
    ensures
        (Binary32 { bits: ONE_BITS }).units() == unit(),
        (Binary32 { bits: MINUS_ONE_BITS }).units() == -unit(),
        (Binary32 { bits: ONE_BITS }).abs_bits() == ONE_BITS,
        (Binary32 { bits: MINUS_ONE_BITS }).abs_bits() == ONE_BITS,
        unit() > 0,
{
    let one = Binary32 { bits: ONE_BITS };
    let minus_one = Binary32 { bits: MINUS_ONE_BITS };
    assert(one.exponent_field() == 127 && one.fraction_field() == 0);
    assert(minus_one.exponent_field() == 127 && minus_one.fraction_field() == 0);
    lemma2_to64();
    lemma_pow2_adds(23, 126);
    lemma_pow2_pos(149);
}

/// The pattern of `0.5` denotes half a unit.
pub proof fn lemma_half_is_half_unit()
    ensures
        2 * (Binary32 { bits: HALF_BITS }).units() == unit(),
{
    let half = Binary32 { bits: HALF_BITS };
    assert(half.exponent_field() == 126 && half.fraction_field() == 0);
    lemma2_to64();
    lemma_pow2_adds(23, 125);
    lemma_pow2_unfold(149);
}

/// A larger pattern without sign denotes a larger magnitude, the same
/// pattern the same magnitude, and only a zero the magnitude 0.
pub proof fn lemma_magnitude_follows_bits(a: Binary32, b: Binary32)
    ensures
        a.abs_bits() < b.abs_bits() <==> a.magnitude() < b.magnitude(),
        a.abs_bits() == b.abs_bits() <==> a.magnitude() == b.magnitude(),
        a.abs_bits() == 0 <==> a.magnitude() == 0,
{
    lemma_magnitude_follows_pattern(a.abs_bits(), b.abs_bits(), HIDDEN_BIT as nat);
}

impl FloatComponent for Binary32 {
    open spec fn below(a: Binary32, b: Binary32) -> bool {
        a.spec_lt(b)
    }

    fn clamp_component(n: Binary32, min: Binary32, max: Binary32) -> (r: Binary32) {
        if n.lt(min) {
            min
        } else if max.lt(n) {
            max
        } else {
            n
        }
    }
}

} // verus!
