//! The arithmetic behind Booth recoding: reading a bit of a two's-complement
//! integer, reading a masked word back as a signed value, and the running sum
//! that recoding accumulates while it consumes the multiplier bit by bit.

use vstd::prelude::*;
use vstd::arithmetic::div_mod::lemma_fundamental_div_mod;
use vstd::arithmetic::div_mod::lemma_fundamental_div_mod_converse;
use vstd::arithmetic::div_mod::lemma_mod_bound;
use vstd::arithmetic::div_mod::lemma_mod_breakdown;
use vstd::arithmetic::div_mod::lemma_small_mod;
use vstd::arithmetic::div_mod::lemma_div_denominator;
use crate::arith::pow2i;
use crate::arith::lemma_pow2i_pos;
use crate::arith::lemma_pow2i_unfold;

verus! {

/// Bit `i` of the integer `v` in its two's-complement reading; positions
/// below zero read as zero.
pub open spec fn bit_at(v: int, i: int) -> int {
    if i < 0 {
        0
    } else {
        (v / pow2i(i as nat)) % 2
    }
}

/// The `n`-bit word `u` read as an `n`-bit two's-complement number.
pub open spec fn as_signed(u: int, n: nat) -> int
    recommends
        0 <= u < pow2i(n),
{
    if n == 0 {
        0
    } else if u < pow2i((n - 1) as nat) {
        u
    } else {
        u - pow2i(n)
    }
}

/// What Booth recoding has accumulated once it has consumed the `s` low bits
/// of the nonnegative multiplier image `bu`: the sum of `(b[i-1] - b[i]) * 2^i`
/// over `i < s`, which collapses to the `s` low bits of `bu` read as an
/// `s`-bit signed number.
pub open spec fn booth_sum(bu: int, s: nat) -> int {
    as_signed(bu % pow2i(s), s)
}

/// A bit is zero or one.
pub proof fn lemma_bit_at_bound(v: int, i: int)
    ensures
        0 <= bit_at(v, i) <= 1,
{
    if i >= 0 {
        lemma_mod_bound(v / pow2i(i as nat), 2);
    }
}

/// An `n`-bit signed reading lies in `[-2^(n-1), 2^(n-1))`.
pub proof fn lemma_as_signed_bounds(u: int, n: nat)
    requires
        n >= 1,
        0 <= u < pow2i(n),
    ensures
        -pow2i((n - 1) as nat) <= as_signed(u, n) < pow2i((n - 1) as nat),
{
    lemma_pow2i_pos((n - 1) as nat);
    lemma_pow2i_unfold(n);
}

/// Bounds for the Booth sum: nothing is accumulated before the first bit, and
/// after `s` bits the sum is an `s`-bit signed value.
pub proof fn lemma_booth_sum_bounds(bu: int, s: nat)
    requires
        bu >= 0,
    ensures
        s == 0 ==> booth_sum(bu, s) == 0,
        s >= 1 ==> -pow2i((s - 1) as nat) <= booth_sum(bu, s) < pow2i((s - 1) as nat),
{
    if s == 0 {
        lemma_fundamental_div_mod_converse(bu, 1, bu, 0);
    } else {
        lemma_pow2i_pos(s);
        lemma_mod_bound(bu, pow2i(s));
        lemma_as_signed_bounds(bu % pow2i(s), s);
    }
}

/// Consuming one more bit moves the Booth sum by `(b[s-1] - b[s]) * 2^s`.
pub proof fn lemma_booth_sum_step(bu: int, s: nat)
    requires
        bu >= 0,
    ensures
        booth_sum(bu, (s + 1) as nat) == booth_sum(bu, s) + (bit_at(bu, s as int - 1)
            - bit_at(bu, s as int)) * pow2i(s),
{
    let ps = pow2i(s);
    let ps1 = pow2i((s + 1) as nat);
    lemma_pow2i_pos(s);
    lemma_pow2i_unfold((s + 1) as nat);
    let bs = bit_at(bu, s as int);
    let u2 = bu % ps1;
    let u1 = bu % ps;
    lemma_mod_breakdown(bu, ps, 2);
    assert(ps * 2 == ps1);
    assert(bu % (ps * 2) == u2);
    assert(u2 == u1 + bs * ps);
    lemma_mod_bound(bu, ps);
    lemma_bit_at_bound(bu, s as int);
    if s == 0 {
        assert(pow2i(0) == 1) by {
            vstd::arithmetic::power2::lemma2_to64();
        }
        lemma_fundamental_div_mod_converse(bu, 1, bu, 0);
        assert(u1 == 0);
        assert(booth_sum(bu, 0) == 0);
        assert(u2 == bs);
        if bs == 0 {
            assert(as_signed(u2, 1) == 0);
        } else {
            assert(as_signed(u2, 1) == 1 - 2);
        }
    } else {
        let psm1 = pow2i((s - 1) as nat);
        lemma_pow2i_pos((s - 1) as nat);
        lemma_pow2i_unfold(s);
        let bsm1 = bit_at(bu, s as int - 1);
        let low = bu % psm1;
        lemma_mod_breakdown(bu, psm1, 2);
        assert(psm1 * 2 == ps);
        assert(bu % (psm1 * 2) == u1);
        assert(bsm1 == (bu / psm1) % 2);
        assert(u1 == low + bsm1 * psm1);
        lemma_mod_bound(bu, psm1);
        lemma_bit_at_bound(bu, s as int - 1);
        // The signed reading of `s` bits differs from the raw word by the
        // weight of the sign bit, taken twice.
        if bsm1 == 0 {
            assert(bsm1 * ps == 0) by (nonlinear_arith)
                requires
                    bsm1 == 0,
            ;
            assert(bsm1 * psm1 == 0) by (nonlinear_arith)
                requires
                    bsm1 == 0,
            ;
            assert(as_signed(u1, s) == u1 - bsm1 * ps);
        } else {
            assert(bsm1 * ps == ps && bsm1 * psm1 == psm1) by (nonlinear_arith)
                requires
                    bsm1 == 1,
            ;
            assert(u1 == low + psm1);
            assert(as_signed(u1, s) == u1 - bsm1 * ps);
        }
        if bs == 0 {
            assert(bs * ps1 == 0 && bs * ps == 0) by (nonlinear_arith)
                requires
                    bs == 0,
            ;
            assert(as_signed(u2, (s + 1) as nat) == u2 - bs * ps1);
        } else {
            assert(bs * ps1 == ps1 && bs * ps == ps) by (nonlinear_arith)
                requires
                    bs == 1,
            ;
            assert(u2 == u1 + ps);
            assert(as_signed(u2, (s + 1) as nat) == u2 - bs * ps1);
        }
        assert((u2 - bs * ps1) - (u1 - bsm1 * ps) == (bsm1 - bs) * ps) by (nonlinear_arith)
            requires
                u2 == u1 + bs * ps,
                ps1 == 2 * ps,
        ;
        assert(booth_sum(bu, (s + 1) as nat) == booth_sum(bu, s) + (bsm1 - bs) * ps);
    }
}

/// Once every bit of `bu` has been consumed, the Booth sum is exactly the
/// signed reading of the whole word.
pub proof fn lemma_booth_sum_full(bu: int, n: nat)
    requires
        0 <= bu < pow2i(n),
    ensures
        booth_sum(bu, n) == as_signed(bu, n),
{
    lemma_pow2i_pos(n);
    lemma_small_mod(bu as nat, pow2i(n) as nat);
}

/// Masking a value of the representable `n`-bit signed range into its `n` low
/// bits and reading those back as an `n`-bit signed number is the identity.
pub proof fn lemma_signed_residue(b: int, n: nat)
    requires
        n >= 1,
        -pow2i((n - 1) as nat) <= b < pow2i((n - 1) as nat),
    ensures
        0 <= b % pow2i(n) < pow2i(n),
        as_signed(b % pow2i(n), n) == b,
{
    let p = pow2i(n);
    let half = pow2i((n - 1) as nat);
    lemma_pow2i_pos((n - 1) as nat);
    lemma_pow2i_unfold(n);
    lemma_mod_bound(b, p);
    if b >= 0 {
        lemma_small_mod(b as nat, p as nat);
    } else {
        lemma_fundamental_div_mod_converse(b, p, -1, b + p);
    }
}

/// Dividing off one more power of two peels the next bit: the quotient by
/// `2^s` splits into twice the quotient by `2^(s+1)` plus bit `s`.
pub proof fn lemma_div_pow2_step(bu: int, s: nat)
    requires
        bu >= 0,
    ensures
        bu / pow2i((s + 1) as nat) == (bu / pow2i(s)) / 2,
        bu / pow2i(s) == 2 * (bu / pow2i((s + 1) as nat)) + bit_at(bu, s as int),
        bu / pow2i((s + 1) as nat) >= 0,
{
    let ps = pow2i(s);
    lemma_pow2i_pos(s);
    lemma_pow2i_unfold((s + 1) as nat);
    lemma_div_denominator(bu, ps, 2);
    assert(ps * 2 == pow2i((s + 1) as nat));
    let x = bu / ps;
    vstd::arithmetic::div_mod::lemma_div_pos_is_pos(bu, ps);
    lemma_fundamental_div_mod(x, 2);
    lemma_mod_bound(x, 2);
    vstd::arithmetic::div_mod::lemma_div_pos_is_pos(x, 2);
}

/// A quotient of `bu < 2^n` by `2^s` stays under `2^(n-s)`.
pub proof fn lemma_div_pow2_bound(bu: int, s: nat, n: nat)
    requires
        s <= n,
        0 <= bu < pow2i(n),
    ensures
        0 <= bu / pow2i(s) < pow2i((n - s) as nat),
{
    let ps = pow2i(s);
    let pns = pow2i((n - s) as nat);
    lemma_pow2i_pos(s);
    lemma_pow2i_pos((n - s) as nat);
    vstd::arithmetic::div_mod::lemma_div_pos_is_pos(bu, ps);
    vstd::arithmetic::power2::lemma_pow2_adds(s, (n - s) as nat);
    lemma_fundamental_div_mod(bu, ps);
    lemma_mod_bound(bu, ps);
    let q = bu / ps;
    assert(q < pns) by (nonlinear_arith)
        requires
            ps * q + bu % ps == bu,
            0 <= bu % ps,
            bu < ps * pns,
            ps >= 1,
            q >= 0,
            pns >= 1,
    ;
}

} // verus!
