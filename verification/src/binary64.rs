//! IEEE 754 binary64 numbers, held as bit patterns and read exactly.
//!
//! Every finite binary64 value is an integer multiple of 2^-1074, the
//! smallest positive subnormal; [`Binary64::units`] is that multiple.
use crate::ieee754::{lemma_magnitude_follows_pattern, magnitude_of, FloatComponent};
use vstd::prelude::*;

verus! {

/// The sign bit of a binary64 bit pattern.
pub const SIGN_BIT_64: u64 = 0x8000_0000_0000_0000;

/// The weight of the exponent field's lowest bit; also the implicit leading
/// bit of a normal number's significand.
pub const HIDDEN_BIT_64: u64 = 0x0010_0000_0000_0000;

/// Bit pattern of positive infinity.
pub const INFINITY_BITS_64: u64 = 0x7ff0_0000_0000_0000;

/// An IEEE 754 binary64 number, held as its 64-bit encoding.
#[derive(Clone, Copy, Debug)]
pub struct Binary64 {
    pub bits: u64,
}

impl Binary64 {
    /// The sign bit is set. True of negative numbers, of `-0.0`, and of
    /// NaNs and infinities that carry the bit.
    pub open spec fn sign(self) -> bool {
        self.bits >= SIGN_BIT_64
    }

    /// The bit pattern without its sign bit.
    pub open spec fn abs_bits(self) -> nat {
        (self.bits % SIGN_BIT_64) as nat
    }

    /// The pattern is a NaN: all exponent bits set and a fraction that is
    /// not zero.
    pub open spec fn spec_is_nan(self) -> bool {
        self.abs_bits() > INFINITY_BITS_64
    }

    /// The absolute value in units of 2^-1074.
    ///
    /// The formula is applied to every pattern. An infinity comes out above
    /// every finite magnitude, which is what ordering and clamping need of
    /// it; for a NaN the number has no meaning.
    pub open spec fn magnitude(self) -> nat {
        magnitude_of(self.abs_bits(), HIDDEN_BIT_64 as nat)
    }

    /// The value in units of 2^-1074, with its sign. Exact for every finite
    /// pattern; `-0.0` and `0.0` both give 0.
    pub open spec fn units(self) -> int {
        if self.sign() {
            -(self.magnitude() as int)
        } else {
            self.magnitude() as int
        }
    }

    /// IEEE `<`: false as soon as either side is a NaN.
    pub open spec fn spec_lt(self, other: Binary64) -> bool {
        !self.spec_is_nan() && !other.spec_is_nan() && self.units() < other.units()
    }

    /// Wraps a bit pattern, as `f64::to_bits` produces it.
    pub fn from_bits(bits: u64) -> (x: Binary64)
        ensures
            x.bits == bits,
    {
        Binary64 { bits }
    }

    /// The bit pattern, as `f64::from_bits` takes it.
    pub fn to_bits(self) -> (bits: u64)
        ensures
            bits == self.bits,
    {
        self.bits
    }

    /// The pattern with the sign bit cleared.
    pub fn magnitude_bits(self) -> (abs: u64)
        ensures
            abs == self.abs_bits(),
            abs < SIGN_BIT_64,
    {
        self.bits % SIGN_BIT_64
    }

    /// The value is a NaN.
    #[verifier::when_used_as_spec(spec_is_nan)]
    pub fn is_nan(self) -> (r: bool)
        ensures
            r == self.spec_is_nan(),
    {
        self.magnitude_bits() > INFINITY_BITS_64
    }

    /// The place of a value that is no NaN in the order of the extended
    /// reals: the pattern without its sign, negated under a set sign bit.
    fn order_key(self) -> (key: i64)
        ensures
            key == (if self.sign() {
                -(self.abs_bits() as int)
            } else {
                self.abs_bits() as int
            }),
    {
        let abs: u64 = self.magnitude_bits();
        if self.bits >= SIGN_BIT_64 {
            -(abs as i64)
        } else {
            abs as i64
        }
    }

    /// IEEE `<` on the values the two patterns denote.
    #[verifier::when_used_as_spec(spec_lt)]
    pub fn lt(self, other: Binary64) -> (r: bool)
        ensures
            r == self.spec_lt(other),
    {
        if self.is_nan() || other.is_nan() {
            return false;
        }
        proof {
            lemma_magnitude_follows_pattern(
                self.abs_bits(),
                other.abs_bits(),
                HIDDEN_BIT_64 as nat,
            );
            lemma_magnitude_follows_pattern(
                other.abs_bits(),
                self.abs_bits(),
                HIDDEN_BIT_64 as nat,
            );
        }
        self.order_key() < other.order_key()
    }
}

impl FloatComponent for Binary64 {
    open spec fn below(a: Binary64, b: Binary64) -> bool {
        a.spec_lt(b)
    }

    fn clamp_component(n: Binary64, min: Binary64, max: Binary64) -> (r: Binary64) {
        if n.lt(min) {
            min
        } else if max.lt(n) {
            max
        } else {
            n
        }
    }
}

} // verus!
