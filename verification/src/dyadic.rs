//! Comparing numbers of the form `m * 2^e` without forming them.
use crate::rounding::pow2_u64;
use vstd::arithmetic::mul::*;
use vstd::arithmetic::power2::*;
use vstd::prelude::*;

verus! {

/// The number `m * 2^e`, negated where `negative` is set.
pub open spec fn dyadic(negative: bool, m: nat, e: nat) -> int {
    if negative {
        -((m * pow2(e)) as int)
    } else {
        (m * pow2(e)) as int
    }
}

/// `m * 2^e` is zero only for `m == 0`, and factors of two move freely
/// between the two parts.
proof fn lemma_dyadic_shift(m: nat, d: nat, e: nat)
    ensures
        m * pow2(d + e) == (m * pow2(d)) * pow2(e),
        m > 0 ==> m * pow2(e) > 0,
        m == 0 ==> m * pow2(e) == 0,
{
    lemma_pow2_adds(d, e);
    lemma_pow2_pos(e);
    lemma_mul_is_associative(m as int, pow2(d) as int, pow2(e) as int);
    if m > 0 {
        lemma_mul_strictly_positive(m as int, pow2(e) as int);
    } else {
        lemma_mul_basics(pow2(e) as int);
    }
}

/// Tells whether `ma * 2^ea < mb * 2^eb`.
pub fn magnitude_lt(ma: u64, ea: u32, mb: u64, eb: u32) -> (r: bool)
    requires
        ma < 0x1_0000_0000,
        mb < 0x1_0000_0000,
    ensures
        r == (ma * pow2(ea as nat) < mb * pow2(eb as nat)),
{
    if ea >= eb {
        let d: u32 = ea - eb;
        let ghost low = pow2(eb as nat) as int;
        let ghost high = pow2(d as nat) as int;
        proof {
            lemma_dyadic_shift(ma as nat, d as nat, eb as nat);
            lemma_dyadic_shift(mb as nat, 0, eb as nat);
            lemma_pow2_pos(eb as nat);
            lemma_pow2_pos(d as nat);
            lemma2_to64();
            if d > 32 {
                lemma_pow2_strictly_increases(32, d as nat);
            }
            // Compare `ma * 2^d` with `mb`, both times `2^eb`.
            if ma * high < mb {
                lemma_mul_strict_inequality(ma * high, mb as int, low);
            } else {
                lemma_mul_inequality(mb as int, ma * high, low);
            }
            if ma > 0 {
                lemma_mul_inequality(1, ma as int, high);
            }
        }
        if ma == 0 {
            mb > 0
        } else if d >= 32 {
            false
        } else {
            proof {
                lemma_pow2_strictly_increases(d as nat, 32);
                lemma_mul_strict_upper_bound(ma as int, 0x1_0000_0000, high, 0x1_0000_0000);
            }
            ma * pow2_u64(d) < mb
        }
    } else {
        let d: u32 = eb - ea;
        let ghost low = pow2(ea as nat) as int;
        let ghost high = pow2(d as nat) as int;
        proof {
            lemma_dyadic_shift(mb as nat, d as nat, ea as nat);
            lemma_dyadic_shift(ma as nat, 0, ea as nat);
            lemma_pow2_pos(ea as nat);
            lemma_pow2_pos(d as nat);
            lemma2_to64();
            if d > 32 {
                lemma_pow2_strictly_increases(32, d as nat);
            }
            if ma < mb * high {
                lemma_mul_strict_inequality(ma as int, mb * high, low);
            } else {
                lemma_mul_inequality(mb * high, ma as int, low);
            }
            if mb > 0 {
                lemma_mul_inequality(1, mb as int, high);
            }
        }
        if mb == 0 {
            false
        } else if d >= 32 {
            true
        } else {
            proof {
                lemma_pow2_strictly_increases(d as nat, 32);
                lemma_mul_strict_upper_bound(mb as int, 0x1_0000_0000, high, 0x1_0000_0000);
            }
            ma < mb * pow2_u64(d)
        }
    }
}

/// Tells whether the first signed number lies below the second.
pub fn dyadic_lt(na: bool, ma: u64, ea: u32, nb: bool, mb: u64, eb: u32) -> (r: bool)
    requires
        ma < 0x1_0000_0000,
        mb < 0x1_0000_0000,
    ensures
        r == (dyadic(na, ma as nat, ea as nat) < dyadic(nb, mb as nat, eb as nat)),
{
    proof {
        lemma_dyadic_shift(ma as nat, 0, ea as nat);
        lemma_dyadic_shift(mb as nat, 0, eb as nat);
    }
    if na && !nb {
        ma > 0 || mb > 0
    } else if !na && nb {
        false
    } else if na {
        magnitude_lt(mb, eb, ma, ea)
    } else {
        magnitude_lt(ma, ea, mb, eb)
    }
}

} // verus!
