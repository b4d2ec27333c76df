//! Alignment arithmetic: rounding an address or offset up to the next
//! multiple of a power-of-two alignment.

use vstd::prelude::*;
use vstd::arithmetic::power2::is_pow2;

verus! {

/// The smallest multiple of `a` that is at least `x`.
pub open spec fn spec_align_up(x: int, a: int) -> int
    recommends
        a >= 1,
{
    if x % a == 0 {
        x
    } else {
        x + (a - x % a)
    }
}

/// A power of two is at least one.
pub proof fn lemma_pow2_at_least_one(a: int)
    requires
        is_pow2(a),
    ensures
        a >= 1,
{
    reveal(is_pow2);
}

/// An even power of two halves to a power of two.
proof fn lemma_pow2_halves(a: int)
    requires
        is_pow2(a),
        a != 1,
    ensures
        a >= 2,
        a % 2 == 0,
        is_pow2(a / 2),
{
    reveal(is_pow2);
}

/// For a power-of-two `a`, masking with `a - 1` computes the remainder
/// modulo `a`.
pub proof fn lemma_pow2_mask_is_mod(x: usize, a: usize)
    requires
        is_pow2(a as int),
    ensures
        x & ((a - 1) as usize) == x % a,
    decreases a,
{
    lemma_pow2_at_least_one(a as int);
    if a == 1 {
        assert(x & 0 == 0) by (bit_vector);
    } else {
        lemma_pow2_halves(a as int);
        lemma_pow2_mask_is_mod(x / 2, a / 2);
        assert(x & ((a - 1) as usize) == 2 * ((x / 2) & ((a / 2 - 1) as usize)) + (x % 2)) by (bit_vector)
            requires
                a % 2 == 0 && a >= 2,
        ;
        vstd::arithmetic::div_mod::lemma_mod_breakdown(x as int, 2, (a / 2) as int);
    }
}

/// Rounding up to a positive alignment never moves an address down, lands on
/// a multiple of the alignment, and adds strictly less than one alignment of
/// padding; an already aligned address is returned unchanged.
pub proof fn lemma_align_up_props(x: int, a: int)
    requires
        x >= 0,
        a >= 1,
    ensures
        spec_align_up(x, a) >= x,
        spec_align_up(x, a) % a == 0,
        spec_align_up(x, a) - x < a,
        x % a == 0 ==> spec_align_up(x, a) == x,
{
    vstd::arithmetic::div_mod::lemma_mod_bound(x, a);
    if x % a != 0 {
        let r = x + (a - x % a);
        vstd::arithmetic::div_mod::lemma_fundamental_div_mod(x, a);
        assert(r == (x / a + 1) * a) by (nonlinear_arith)
            requires
                r == x + (a - x % a) && x == a * (x / a) + x % a,
        ;
        vstd::arithmetic::div_mod::lemma_mod_multiples_basic(x / a + 1, a);
    }
}

} // verus!
