//! What the two IEEE 754 binary formats of this crate share: how a bit
//! pattern without its sign is read as a magnitude, and clamping.
//!
//! A pattern without sign is an exponent field above a fraction field. The
//! weight of the exponent field's lowest bit, here `hidden`, is also the
//! implicit leading bit of a normal number's significand.
use vstd::arithmetic::mul::*;
use vstd::arithmetic::power2::*;
use vstd::prelude::*;

verus! {

/// The integer significand of a pattern without sign: the fraction field,
/// with the implicit leading bit added where the exponent field is not
/// zero.
pub open spec fn significand_of(abs: nat, hidden: nat) -> nat {
    if abs / hidden == 0 {
        abs % hidden
    } else {
        hidden + abs % hidden
    }
}

/// The power of two, counted from the format's smallest subnormal, that
/// weighs the significand.
pub open spec fn scale_of(abs: nat, hidden: nat) -> nat {
    if abs / hidden == 0 {
        0
    } else {
        (abs / hidden - 1) as nat
    }
}

/// The magnitude of a pattern without sign, in units of the format's
/// smallest subnormal: `significand * 2^scale`.
pub open spec fn magnitude_of(abs: nat, hidden: nat) -> nat {
    significand_of(abs, hidden) * pow2(scale_of(abs, hidden))
}

/// A larger pattern without sign denotes a larger magnitude, the same
/// pattern the same magnitude, and only the pattern 0 the magnitude 0.
pub proof fn lemma_magnitude_follows_pattern(a: nat, b: nat, hidden: nat)
    requires
        hidden > 0,
    ensures
        a < b <==> magnitude_of(a, hidden) < magnitude_of(b, hidden),
        a == b <==> magnitude_of(a, hidden) == magnitude_of(b, hidden),
        a == 0 <==> magnitude_of(a, hidden) == 0,
{
    if a < b {
        lemma_magnitude_increases(a, b, hidden);
    } else if b < a {
        lemma_magnitude_increases(b, a, hidden);
    }
    assert(magnitude_of(0, hidden) == 0) by {
        lemma_mul_basics(pow2(scale_of(0, hidden)) as int);
    }
    if a > 0 {
        lemma_magnitude_increases(0, a, hidden);
    }
}

/// The larger of two patterns without sign denotes the larger magnitude.
proof fn lemma_magnitude_increases(a: nat, b: nat, hidden: nat)
    requires
        hidden > 0,
        a < b,
    ensures
        magnitude_of(a, hidden) < magnitude_of(b, hidden),
{
    let h = hidden as int;
    let ea = a / hidden;
    let eb = b / hidden;
    let ma = significand_of(a, hidden) as int;
    let mb = significand_of(b, hidden) as int;
    let pa = pow2(scale_of(a, hidden)) as int;
    let pb = pow2(scale_of(b, hidden)) as int;
    lemma_pow2_pos(scale_of(a, hidden));
    lemma_pow2_pos(scale_of(b, hidden));
    vstd::arithmetic::div_mod::lemma_fundamental_div_mod(a as int, h);
    vstd::arithmetic::div_mod::lemma_fundamental_div_mod(b as int, h);
    vstd::arithmetic::div_mod::lemma_div_is_ordered(a as int, b as int, h);
    assert(ea <= eb);
    if ea == eb {
        assert(ma < mb);
        lemma_mul_strict_inequality(ma, mb, pa);
    } else if ea == 0 {
        // `a` is subnormal, below the implicit bit; `b` is at least that.
        lemma2_to64();
        lemma_mul_basics(ma);
        lemma_mul_inequality(1, pb, mb);
        lemma_mul_is_commutative(mb, pb);
    } else {
        // `a` lies below 2 * hidden * 2^scale(a) = hidden * 2^(scale(a) + 1),
        // which is at most hidden * 2^scale(b).
        let sa = scale_of(a, hidden);
        let pa1 = pow2(sa + 1) as int;
        lemma_pow2_unfold(sa + 1);
        if sa + 1 < scale_of(b, hidden) {
            lemma_pow2_strictly_increases(sa + 1, scale_of(b, hidden));
        }
        lemma_mul_strict_inequality(ma, 2 * h, pa);
        assert((2 * h) * pa == h * pa1) by (nonlinear_arith)
            requires
                pa1 == 2 * pa,
        ;
        lemma_mul_left_inequality(h, pa1, pb);
        lemma_mul_inequality(h, mb, pb);
    }
}

/// Clamping for the number types that carry samples.
pub trait FloatComponent: Sized {
    /// The strict order that clamping goes by.
    spec fn below(a: Self, b: Self) -> bool;

    /// `min` where `n` lies below it, `max` where `n` lies above it, and
    /// `n` itself otherwise; so a value that compares with nothing, such as
    /// a NaN, passes through unchanged.
    fn clamp_component(n: Self, min: Self, max: Self) -> (r: Self)
        ensures
            r == (if Self::below(n, min) {
                min
            } else if Self::below(max, n) {
                max
            } else {
                n
            }),
    ;
}

} // verus!
