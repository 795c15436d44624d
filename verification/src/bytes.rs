//! Little-endian, fixed-width byte layouts of integers.
//!
//! The layouts are stated over mathematical integers with floor division
//! and non-negative remainder, so one formula covers an unsigned value and
//! the two's-complement form of a negative one.
use vstd::arithmetic::div_mod::*;
use vstd::prelude::*;

verus! {

/// The two low-order bytes of `v`, least significant first.
pub open spec fn le_bytes_2(v: int) -> Seq<u8> {
    seq![(v % 256) as u8, ((v / 256) % 256) as u8]
}

/// The four low-order bytes of `v`, least significant first.
pub open spec fn le_bytes_4(v: int) -> Seq<u8> {
    seq![
        (v % 256) as u8,
        ((v / 256) % 256) as u8,
        ((v / 65536) % 256) as u8,
        ((v / 16777216) % 256) as u8,
    ]
}

/// Adding a multiple of the divisor adds that many to the quotient and
/// leaves the remainder.
proof fn lemma_div_mod_add_multiple(v: int, k: int, d: int)
    requires
        d > 0,
    ensures
        (v + k * d) / d == v / d + k,
        (v + k * d) % d == v % d,
{
    lemma_fundamental_div_mod(v, d);
    lemma_mod_bound(v, d);
    assert(v + k * d == (v / d + k) * d + v % d) by (nonlinear_arith)
        requires
            v == d * (v / d) + v % d,
    ;
    lemma_fundamental_div_mod_converse(v + k * d, d, v / d + k, v % d);
}

/// Adding 2^32 to a value leaves its four low-order bytes as they are.
proof fn lemma_le_bytes_4_wraps(v: int)
    ensures
        le_bytes_4(v + 4294967296) == le_bytes_4(v),
{
    let u = v + 4294967296;
    assert(u % 256 == v % 256 && u / 256 == v / 256 + 16777216) by {
        lemma_div_mod_add_multiple(v, 16777216, 256);
    }
    assert(u / 65536 == v / 65536 + 65536) by {
        lemma_div_mod_add_multiple(v, 65536, 65536);
    }
    assert(u / 16777216 == v / 16777216 + 256) by {
        lemma_div_mod_add_multiple(v, 256, 16777216);
    }
    assert((u / 256) % 256 == (v / 256) % 256) by {
        lemma_div_mod_add_multiple(v / 256, 65536, 256);
    }
    assert((u / 65536) % 256 == (v / 65536) % 256) by {
        lemma_div_mod_add_multiple(v / 65536, 256, 256);
    }
    assert((u / 16777216) % 256 == (v / 16777216) % 256) by {
        lemma_div_mod_add_multiple(v / 16777216, 1, 256);
    }
}

/// Appends the two bytes of `v` to `w`, least significant first.
pub fn push_le_u16(w: &mut Vec<u8>, v: u16)
    ensures
        final(w)@ == old(w)@ + le_bytes_2(v as int),
{
    w.push((v % 256) as u8);
    w.push((v / 256) as u8);
    assert(w@ =~= old(w)@ + le_bytes_2(v as int));
}

/// Appends the four bytes of `v` to `w`, least significant first.
pub fn push_le_u32(w: &mut Vec<u8>, v: u32)
    ensures
        final(w)@ == old(w)@ + le_bytes_4(v as int),
{
    w.push((v % 256) as u8);
    w.push(((v / 256) % 256) as u8);
    w.push(((v / 65536) % 256) as u8);
    w.push((v / 16777216) as u8);
    assert(w@ =~= old(w)@ + le_bytes_4(v as int));
}

/// Appends the two bytes of the two's-complement form of `v` to `w`,
/// least significant first.
pub fn push_le_i16(w: &mut Vec<u8>, v: i16)
    ensures
        final(w)@ == old(w)@ + le_bytes_2(v as int),
{
    let unsigned: u16 = if v < 0 {
        (v as i32 + 65536) as u16
    } else {
        v as u16
    };
    assert(le_bytes_2(unsigned as int) =~= le_bytes_2(v as int));
    push_le_u16(w, unsigned);
}

/// Appends the four bytes of the two's-complement form of `v` to `w`,
/// least significant first.
pub fn push_le_i32(w: &mut Vec<u8>, v: i32)
    ensures
        final(w)@ == old(w)@ + le_bytes_4(v as int),
{
    let unsigned: u32 = if v < 0 {
        (v as i64 + 4294967296) as u32
    } else {
        v as u32
    };
    proof {
        lemma_le_bytes_4_wraps(v as int);
    }
    push_le_u32(w, unsigned);
}

} // verus!
