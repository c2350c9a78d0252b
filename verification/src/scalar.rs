//! Single-precision scalars held as their IEEE-754 bit patterns.
//!
//! No arithmetic is done on scalars here: a pattern is stored, copied and
//! ordered, and handed to the caller's matrix algebra untouched. The one
//! pattern that is built is that of a small whole number, which is exact.

use vstd::arithmetic::power2::{lemma2_to64, lemma_pow2_strictly_increases, lemma_pow2_unfold, pow2};
use vstd::prelude::*;

verus! {

/// Bit pattern of `0.0`.
pub const ZERO: u32 = 0;

/// Bit pattern of `1.0`.
pub const ONE: u32 = 0x3f80_0000;

/// Bit pattern of `1000.0`.
pub const THOUSAND: u32 = 0x447a_0000;

/// Position of a bit pattern in the IEEE-754 total order: patterns with the
/// sign bit clear ascend with their magnitude, patterns with the sign bit set
/// lie below them all and descend with their magnitude. So `-0.0` comes just
/// before `+0.0`, and the NaNs lie at the two far ends.
pub open spec fn order_key(bits: u32) -> int {
    if bits < 0x8000_0000 {
        bits as int
    } else {
        0x7fff_ffff - bits
    }
}

/// Computes [`order_key`].
pub fn total_order_key(bits: u32) -> (key: i64)
    ensures
        key == order_key(bits),
        -0x8000_0000 <= key <= 0x7fff_ffff,
{
    if bits < 0x8000_0000 {
        bits as i64
    } else {
        0x7fff_ffff - (bits as i64)
    }
}

/// Whether `a` comes at or before `b` in the total order.
pub fn precedes_or_equals(a: u32, b: u32) -> (r: bool)
    ensures
        r == (order_key(a) <= order_key(b)),
{
    total_order_key(a) <= total_order_key(b)
}

/// Distinct bit patterns have distinct places in the order.
pub proof fn lemma_order_key_injective(a: u32, b: u32)
    ensures
        order_key(a) == order_key(b) <==> a == b,
{
}

/// `bits` is the pattern of the scalar whose value is the whole number `n`:
/// zero is all bits clear; otherwise the sign is clear and the fraction
/// field, with its hidden leading one, scaled by the exponent field, is `n`
/// exactly.
pub open spec fn represents(bits: u32, n: nat) -> bool {
    if n == 0 {
        bits == 0
    } else {
        let exponent = bits / 0x80_0000;
        let fraction = bits % 0x80_0000;
        &&& 127 <= exponent <= 150
        &&& n * pow2((150 - exponent) as nat) == 0x80_0000 + fraction
    }
}

/// The pattern of the scalar whose value is `n`.
pub open spec fn index_bits(n: u16) -> u32 {
    choose|bits: u32| represents(bits, n as nat)
}

/// A whole number has at most one pattern.
pub proof fn lemma_represents_unique(a: u32, b: u32, n: nat)
    requires
        represents(a, n),
        represents(b, n),
    ensures
        a == b,
{
    if n > 0 {
        let ea = (a / 0x80_0000) as nat;
        let eb = (b / 0x80_0000) as nat;
        lemma2_to64();
        if ea < eb {
            lemma_scaled_doubles(n, (150 - eb) as nat, (150 - ea) as nat);
        } else if eb < ea {
            lemma_scaled_doubles(n, (150 - ea) as nat, (150 - eb) as nat);
        }
    }
}

/// Scaling by a higher power of two at least doubles.
proof fn lemma_scaled_doubles(n: nat, low: nat, high: nat)
    requires
        low < high,
    ensures
        n * pow2(high) >= 2 * (n * pow2(low)),
{
    lemma_pow2_unfold((low + 1) as nat);
    if low + 1 < high {
        lemma_pow2_strictly_increases((low + 1) as nat, high);
    }
    assert(pow2(high) >= 2 * pow2(low));
    assert(n * pow2(high) >= n * (2 * pow2(low))) by (nonlinear_arith)
        requires
            pow2(high) >= 2 * pow2(low),
    ;
    assert(n * (2 * pow2(low)) == 2 * (n * pow2(low))) by (nonlinear_arith);
}

/// The scalar whose value is `n`, exactly: every 16-bit whole number has one.
pub fn from_index(n: u16) -> (bits: u32)
    ensures
        represents(bits, n as nat),
        bits == index_bits(n),
{
    if n == 0 {
        proof {
            assert(represents(0u32, n as nat));
            lemma_represents_unique(0, index_bits(n), 0);
        }
        return 0;
    }
    let mut scaled: u32 = n as u32;
    let mut exponent: u32 = 150;
    proof {
        lemma2_to64();
        assert(n * pow2(0) == n) by (nonlinear_arith)
            requires
                pow2(0) == 1,
        ;
    }
    while scaled < 0x80_0000
        invariant
            n > 0,
            0 < scaled < 0x100_0000,
            127 <= exponent <= 150,
            scaled == n * pow2((150 - exponent) as nat),
        decreases exponent,
    {
        proof {
            let shift = (150 - exponent) as nat;
            lemma2_to64();
            lemma_pow2_unfold((shift + 1) as nat);
            assert(pow2(shift) <= n * pow2(shift)) by (nonlinear_arith)
                requires
                    n >= 1,
            ;
            if shift >= 23 {
                if shift > 23 {
                    lemma_pow2_strictly_increases(23, shift);
                }
                assert(false);
            }
            assert(n * (2 * pow2(shift)) == 2 * (n * pow2(shift))) by (nonlinear_arith);
        }
        scaled = scaled * 2;
        exponent = exponent - 1;
    }
    let bits = exponent * 0x80_0000 + (scaled - 0x80_0000);
    proof {
        assert(represents(bits, n as nat));
        lemma_represents_unique(bits, index_bits(n), n as nat);
    }
    bits
}

} // verus!
