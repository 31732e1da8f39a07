//! Arithmetic of power-of-two sizes: masking is reduction modulo the size,
//! and a free-running 32-bit cursor keeps its residue when it wraps.

use vstd::prelude::*;
use vstd::arithmetic::div_mod::lemma_mod_mod;
use vstd::arithmetic::power::lemma_pow_positive;
use vstd::arithmetic::power2::{
    is_pow2, is_pow2_equiv, lemma2_to64, lemma_pow2_adds, lemma_pow2_pos,
    lemma_pow2_strictly_increases, pow2,
};
use vstd::bits::{lemma_u32_low_bits_mask_is_mod, low_bits_mask};

verus! {

/// Number of values of a 32-bit cursor.
pub open spec fn cursor_range() -> int {
    0x1_0000_0000
}

/// A power of two that is at most 2^31 is `2^e` for some `e <= 31`.
pub proof fn lemma_exponent_of(n: int) -> (e: nat)
    requires
        is_pow2(n),
        n <= 0x8000_0000,
    ensures
        e <= 31,
        n == pow2(e),
        n >= 1,
{
    is_pow2_equiv(n);
    let e = choose|e: nat| vstd::arithmetic::power::pow(2, e) == n;
    lemma_pow_positive(2, e);
    assert(n == pow2(e));
    if e > 31 {
        lemma_pow2_strictly_increases(31, e);
        lemma2_to64();
    }
    e
}

/// Masking a 32-bit value with `n - 1` reduces it modulo `n`.
pub proof fn lemma_mask_is_mod(x: u32, n: u32)
    requires
        is_pow2(n as int),
        n <= 0x8000_0000,
    ensures
        x & ((n - 1) as u32) == x % n,
{
    let e = lemma_exponent_of(n as int);
    lemma_u32_low_bits_mask_is_mod(x, e);
    assert(low_bits_mask(e) == n - 1);
}

/// A power of two that is at most 2^31 divides the cursor range, so reducing
/// modulo the cursor range first does not change the residue.
pub proof fn lemma_wrap_keeps_residue(y: int, n: int)
    requires
        is_pow2(n),
        n <= 0x8000_0000,
    ensures
        (y % cursor_range()) % n == y % n,
{
    let e = lemma_exponent_of(n);
    let rest = (32 - e) as nat;
    lemma_pow2_adds(e, rest);
    lemma_pow2_pos(rest);
    lemma2_to64();
    assert(pow2(32) == 0x1_0000_0000);
    assert(cursor_range() == n * pow2(rest));
    lemma_mod_mod(y, n, pow2(rest) as int);
}

} // verus!
