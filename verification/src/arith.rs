//! Bridges between the machine-level view of `i32` values (shifts, masks)
//! and their mathematical reading as integers: an arithmetic right shift is a
//! floor division by a power of two, a left shift is a multiplication by one.

use vstd::prelude::*;
use vstd::arithmetic::power2::pow2;
use vstd::arithmetic::power2::lemma_pow2_unfold;
use vstd::arithmetic::power2::lemma_pow2_pos;
use vstd::arithmetic::power2::lemma2_to64;
use vstd::arithmetic::div_mod::lemma_fundamental_div_mod;
use vstd::arithmetic::div_mod::lemma_fundamental_div_mod_converse;

verus! {

/// `pow2` as a mathematical integer, the form the contracts below speak of.
pub open spec fn pow2i(k: nat) -> int {
    pow2(k) as int
}

/// Powers of two are positive.
pub proof fn lemma_pow2i_pos(k: nat)
    ensures
        pow2i(k) >= 1,
{
    lemma_pow2_pos(k);
}

/// `pow2i` grows by doubling.
pub proof fn lemma_pow2i_unfold(k: nat)
    requires
        k >= 1,
    ensures
        pow2i(k) == 2 * pow2i((k - 1) as nat),
{
    lemma_pow2_unfold(k);
}

/// `pow2i` is monotone.
pub proof fn lemma_pow2i_increases(k1: nat, k2: nat)
    requires
        k1 <= k2,
    ensures
        pow2i(k1) <= pow2i(k2),
    decreases k2 - k1,
{
    if k1 < k2 {
        lemma_pow2i_increases(k1, (k2 - 1) as nat);
        lemma_pow2i_unfold(k2);
        lemma_pow2i_pos((k2 - 1) as nat);
    }
}

/// An arithmetic right shift by one is a floor division by two.
pub proof fn lemma_shr1_is_div2(x: i32)
    ensures
        (x >> 1u32) as int == (x as int) / 2,
{
    assert((x >> 1u32) as int == (x as int) / 2) by (bit_vector);
}

/// The lowest bit of a word is its remainder modulo two.
pub proof fn lemma_and1_is_mod2(x: i32)
    ensures
        (x & 1i32) as int == (x as int) % 2,
{
    assert((x & 1i32) as int == (x as int) % 2) by (bit_vector);
}

/// Shifting one left by `k` produces the `k`-th power of two.
pub proof fn lemma_shl1_is_pow2(k: u32)
    requires
        k <= 30,
    ensures
        (1i32 << k) as int == pow2i(k as nat),
        1 <= (1i32 << k) <= 0x4000_0000,
    decreases k,
{
    if k == 0 {
        assert(1i32 << 0u32 == 1i32) by (bit_vector);
        assert(pow2i(0) == 1) by {
            lemma2_to64();
        }
    } else {
        let km1 = (k - 1) as u32;
        lemma_shl1_is_pow2(km1);
        let y = 1i32 << km1;
        assert(y <= 0x2000_0000) by {
            lemma_pow2i_increases(km1 as nat, 29);
            lemma2_to64();
        }
        assert(1i32 << k == y << 1u32) by (bit_vector)
            requires
                1 <= k <= 30,
                km1 == k - 1,
                y == 1i32 << km1,
        ;
        assert(y << 1u32 == 2 * y) by (bit_vector)
            requires
                1 <= y <= 0x2000_0000,
        ;
        lemma_pow2i_unfold(k as nat);
    }
}

/// An arithmetic right shift by `k` is a floor division by the `k`-th power
/// of two.
pub proof fn lemma_shr_is_div_pow2(x: i32, k: u32)
    requires
        k <= 31,
    ensures
        (x >> k) as int == (x as int) / pow2i(k as nat),
    decreases k,
{
    if k == 0 {
        assert(x >> 0u32 == x) by (bit_vector);
        assert(pow2i(0) == 1) by {
            lemma2_to64();
        }
    } else {
        let km1 = (k - 1) as u32;
        lemma_shr_is_div_pow2(x, km1);
        let y = x >> km1;
        assert(x >> k == y >> 1u32) by (bit_vector)
            requires
                1 <= k <= 31,
                km1 == k - 1,
                y == x >> km1,
        ;
        lemma_shr1_is_div2(y);
        let p = pow2i(km1 as nat);
        lemma_pow2i_pos(km1 as nat);
        lemma_pow2i_unfold(k as nat);
        // (x / p) / 2 == x / (2 * p), via the quotient-remainder form.
        lemma_fundamental_div_mod(x as int, p);
        lemma_fundamental_div_mod(y as int, 2);
        let q = (y as int) / 2;
        let r = (x as int) - (2 * p) * q;
        assert(x as int == q * (2 * p) + r && 0 <= r < 2 * p) by (nonlinear_arith)
            requires
                x as int == p * (y as int) + (x as int) % p,
                0 <= (x as int) % p < p,
                y as int == 2 * q + (y as int) % 2,
                0 <= (y as int) % 2 < 2,
                r == (x as int) - (2 * p) * q,
                p >= 1,
        ;
        lemma_fundamental_div_mod_converse(x as int, 2 * p, q, r);
    }
}

/// Shifting a bounded word left by a small `k` multiplies it by the `k`-th
/// power of two, with no bits lost.
pub proof fn lemma_shl_is_mul_pow2(x: i32, k: u32)
    requires
        k <= 15,
        -0x8000 <= x <= 0x7FFF,
    ensures
        (x << k) as int == (x as int) * pow2i(k as nat),
    decreases k,
{
    if k == 0 {
        assert(x << 0u32 == x) by (bit_vector);
        assert(pow2i(0) == 1) by {
            lemma2_to64();
        }
    } else {
        let km1 = (k - 1) as u32;
        lemma_shl_is_mul_pow2(x, km1);
        let y = x << km1;
        assert(x << k == y << 1u32) by (bit_vector)
            requires
                1 <= k <= 15,
                km1 == k - 1,
                y == x << km1,
        ;
        let p = pow2i(km1 as nat);
        lemma_pow2i_pos(km1 as nat);
        assert(p <= 0x4000) by {
            lemma_pow2i_increases(km1 as nat, 14);
            lemma2_to64();
        }
        assert(-0x2000_0000 <= (x as int) * p <= 0x2000_0000) by (nonlinear_arith)
            requires
                -0x8000 <= x <= 0x7FFF,
                1 <= p <= 0x4000,
        ;
        assert(y << 1u32 == 2 * y) by (bit_vector)
            requires
                -0x2000_0000 <= y <= 0x2000_0000,
        ;
        lemma_pow2i_unfold(k as nat);
        assert(2 * ((x as int) * p) == (x as int) * (2 * p)) by (nonlinear_arith);
    }
}

/// The `k`-th power of two as a machine word.
pub fn pow2_i32(k: u32) -> (r: i32)
    requires
        k <= 30,
    ensures
        r as int == pow2i(k as nat),
        1 <= r <= 0x4000_0000,
{
    proof {
        lemma_shl1_is_pow2(k);
    }
    1i32 << k
}

} // verus!
