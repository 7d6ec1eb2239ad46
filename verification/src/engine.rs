//! The transition engine: from one point of the trace and the fixed
//! multiplicand, derive the next point by Booth's recoding rule.  The exec
//! functions mirror the spec-level transition exactly, and the lemmas show
//! that the transition preserves the trace invariant.

use vstd::prelude::*;
use vstd::arithmetic::div_mod::lemma_fundamental_div_mod_converse;
use vstd::arithmetic::power2::lemma_pow2_adds;
use vstd::arithmetic::power2::lemma2_to64;
use crate::arith::pow2i;
use crate::arith::lemma_pow2i_pos;
use crate::arith::lemma_pow2i_unfold;
use crate::arith::lemma_pow2i_increases;
use crate::arith::lemma_shr1_is_div2;
use crate::arith::lemma_and1_is_mod2;
use crate::arith::lemma_shl_is_mul_pow2;
use crate::model::Action;
use crate::model::Step;
use crate::model::lemma_consistent_bounds;
use crate::recoding::as_signed;
use crate::recoding::bit_at;
use crate::recoding::booth_sum;
use crate::recoding::lemma_bit_at_bound;
use crate::recoding::lemma_booth_sum_step;
use crate::recoding::lemma_booth_sum_full;
use crate::recoding::lemma_div_pow2_step;
use crate::recoding::lemma_div_pow2_bound;

verus! {

/// The forced shift: one arithmetic shift right of the partial product, with
/// the shifted-out bit captured in `additional`.
#[verifier::opaque]
pub open spec fn shift_spec(prev: Step) -> Step {
    Step {
        step: (prev.step + 1) as i32,
        shift_steps: (prev.shift_steps + 1) as i32,
        action: Action::Shift,
        product: ((prev.product as int) / 2) as i32,
        additional: ((prev.product as int) % 2) as i32,
        bits: prev.bits,
    }
}

/// The two-bit Booth window: the partial product's lowest bit beside the bit
/// most recently shifted out.
pub open spec fn lowbits_of(prev: Step) -> int {
    2 * ((prev.product as int) % 2) + prev.additional
}

/// The recoding test: on a boundary from one to zero subtract the shifted
/// multiplicand, on a boundary from zero to one add it, otherwise shift.
#[verifier::opaque]
pub open spec fn check_spec(prev: Step, a: int) -> Step {
    let lb = lowbits_of(prev);
    if lb == 2 {
        Step {
            step: (prev.step + 1) as i32,
            shift_steps: prev.shift_steps,
            action: Action::Sub,
            product: (prev.product - a * pow2i(prev.bits as nat)) as i32,
            additional: prev.additional,
            bits: prev.bits,
        }
    } else if lb == 1 {
        Step {
            step: (prev.step + 1) as i32,
            shift_steps: prev.shift_steps,
            action: Action::Add,
            product: (prev.product + a * pow2i(prev.bits as nat)) as i32,
            additional: prev.additional,
            bits: prev.bits,
        }
    } else {
        shift_spec(prev)
    }
}

/// The full transition: after an addition or subtraction a shift is forced;
/// otherwise the recoding test decides.
#[verifier::opaque]
pub open spec fn next_step_spec(prev: Step, a: int) -> Step {
    if prev.stable() {
        check_spec(prev, a)
    } else {
        shift_spec(prev)
    }
}

/// Shift the partial product right by one, capturing the vacated bit.
pub fn shift(prev: &Step) -> (r: Step)
    requires
        prev.step < i32::MAX,
        prev.shift_steps < i32::MAX,
    ensures
        r == shift_spec(*prev),
{
    proof {
        reveal(shift_spec);
        lemma_shr1_is_div2(prev.product);
        lemma_and1_is_mod2(prev.product);
    }
    Step {
        step: prev.step + 1,
        shift_steps: prev.shift_steps + 1,
        action: Action::Shift,
        product: prev.product >> 1u32,
        additional: prev.product & 1i32,
        bits: prev.bits,
    }
}

/// Apply the recoding test to a point whose action was `Init` or `Shift`.
pub fn check(prev: &Step, a: i32) -> (r: Step)
    requires
        1 <= prev.bits <= 15,
        -pow2i((prev.bits - 1) as nat) <= a < pow2i((prev.bits - 1) as nat),
        -0x2000_8000 <= prev.product <= 0x2000_8000,
        0 <= prev.additional <= 1,
        prev.step < i32::MAX,
        prev.shift_steps < i32::MAX,
    ensures
        r == check_spec(*prev, a as int),
{
    proof {
        reveal(shift_spec);
        reveal(check_spec);
        lemma_and1_is_mod2(prev.product);
    }
    let lowbits = (prev.product & 1i32) * 2 + prev.additional;
    if lowbits == 2 || lowbits == 1 {
        let shifted = a << (prev.bits as u32);
        proof {
            let p1 = pow2i((prev.bits - 1) as nat);
            let pn = pow2i(prev.bits as nat);
            lemma_pow2i_pos((prev.bits - 1) as nat);
            lemma_pow2i_pos(prev.bits as nat);
            assert(p1 <= 0x4000 && pn <= 0x8000) by {
                lemma_pow2i_increases((prev.bits - 1) as nat, 14);
                lemma_pow2i_increases(prev.bits as nat, 15);
                lemma2_to64();
            }
            lemma_shl_is_mul_pow2(a, prev.bits as u32);
            assert(-0x2000_0000 <= a * pn <= 0x2000_0000) by (nonlinear_arith)
                requires
                    -p1 <= a < p1,
                    1 <= pn <= 0x8000,
                    p1 <= 0x4000,
            ;
        }
        if lowbits == 2 {
            Step {
                step: prev.step + 1,
                shift_steps: prev.shift_steps,
                action: Action::Sub,
                product: prev.product - shifted,
                additional: prev.additional,
                bits: prev.bits,
            }
        } else {
            Step {
                step: prev.step + 1,
                shift_steps: prev.shift_steps,
                action: Action::Add,
                product: prev.product + shifted,
                additional: prev.additional,
                bits: prev.bits,
            }
        }
    } else {
        proof {
            lemma_shr1_is_div2(prev.product);
        }
        Step {
            step: prev.step + 1,
            shift_steps: prev.shift_steps + 1,
            action: Action::Shift,
            product: prev.product >> 1u32,
            additional: prev.product & 1i32,
            bits: prev.bits,
        }
    }
}

/// Derive the next point of the trace: the previous action decides whether a
/// shift is forced or the recoding test runs.
pub fn next_step(prev: &Step, a: i32) -> (r: Step)
    requires
        1 <= prev.bits <= 15,
        -pow2i((prev.bits - 1) as nat) <= a < pow2i((prev.bits - 1) as nat),
        -0x2000_8000 <= prev.product <= 0x2000_8000,
        0 <= prev.additional <= 1,
        prev.step < i32::MAX,
        prev.shift_steps < i32::MAX,
    ensures
        r == next_step_spec(*prev, a as int),
{
    proof {
        reveal(next_step_spec);
    }
    match prev.action {
        Action::Add => shift(prev),
        Action::Sub => shift(prev),
        Action::Init => check(prev, a),
        Action::Shift => check(prev, a),
    }
}

/// Bookkeeping facts about a transition from a consistent point: the
/// transition counter advances by one, the shift counter by at most one, the
/// width never changes, and `Init` never recurs.
pub proof fn lemma_next_fields(st: Step, a: int, bu: int)
    requires
        st.consistent(a, bu),
    ensures
        next_step_spec(st, a).bits == st.bits,
        next_step_spec(st, a).step == st.step + 1,
        st.shift_steps <= next_step_spec(st, a).shift_steps <= st.shift_steps + 1,
        next_step_spec(st, a).action != Action::Init,
        next_step_spec(st, a).stable() ==> next_step_spec(st, a).shift_steps == st.shift_steps + 1,
        !next_step_spec(st, a).stable() ==> next_step_spec(st, a).shift_steps == st.shift_steps,
        !st.stable() ==> next_step_spec(st, a).stable(),
{
    reveal(Step::consistent);
    reveal(next_step_spec);
    reveal(check_spec);
    reveal(shift_spec);
}

/// The heart of the verification: one transition from a consistent point
/// yields a consistent point.  The partial product keeps its reading as the
/// Booth sum of the consumed multiplier bits, placed at the shift position,
/// plus the bits not yet consumed.
pub proof fn lemma_next_preserves(st: Step, a: int, bu: int)
    requires
        st.consistent(a, bu),
        st.stable() ==> st.shift_steps < st.bits,
    ensures
        next_step_spec(st, a).consistent(a, bu),
{
    reveal(Step::consistent);
    reveal(next_step_spec);
    reveal(check_spec);
    reveal(shift_spec);
    let n = st.bits as int;
    let s = st.shift_steps as int;
    let w = pow2i((n - s) as nat);
    let w1 = pow2i((n - s - 1) as nat);
    let ps = pow2i(s as nat);
    let d = bu / ps;
    let d1 = bu / pow2i((s + 1) as nat);
    let bs = bit_at(bu, s);
    lemma_consistent_bounds(st, a, bu);
    lemma_pow2i_pos((n - s - 1) as nat);
    lemma_pow2i_pos(s as nat);
    lemma_pow2i_unfold((n - s) as nat);
    lemma_div_pow2_step(bu, s as nat);
    lemma_bit_at_bound(bu, s);
    assert(w == 2 * w1);
    assert(d == 2 * d1 + bs);
    if !st.stable() {
        // A forced shift: halve the product, peel bit `s` of the multiplier.
        let sum = booth_sum(bu, (s + 1) as nat);
        assert(a * w * sum == 2 * (a * w1 * sum)) by (nonlinear_arith)
            requires
                w == 2 * w1,
        ;
        assert(st.product == 2 * (a * w1 * sum + d1) + bs);
        lemma_fundamental_div_mod_converse(st.product as int, 2, a * w1 * sum + d1, bs);
        assert((st.product as int) / 2 == a * w1 * sum + d1);
        assert((st.product as int) % 2 == bs);
    } else {
        // The recoding test: the product's lowest bit is multiplier bit `s`,
        // `additional` is multiplier bit `s - 1`.
        let sum = booth_sum(bu, s as nat);
        let sum1 = booth_sum(bu, (s + 1) as nat);
        let bp = bit_at(bu, s - 1);
        assert(a * w * sum == 2 * (a * w1 * sum)) by (nonlinear_arith)
            requires
                w == 2 * w1,
        ;
        assert(st.product == 2 * (a * w1 * sum + d1) + bs);
        lemma_fundamental_div_mod_converse(st.product as int, 2, a * w1 * sum + d1, bs);
        assert((st.product as int) / 2 == a * w1 * sum + d1);
        assert((st.product as int) % 2 == bs);
        lemma_booth_sum_step(bu, s as nat);
        assert(sum1 == sum + (bp - bs) * ps);
        let lb = lowbits_of(st);
        assert(lb == 2 * bs + bp);
        let pn = pow2i(n as nat);
        assert(w * ps == pn) by {
            lemma_pow2_adds((n - s) as nat, s as nat);
        }
        // Bound on the shifted multiplicand, for the in-range casts.
        let p1 = pow2i((n - 1) as nat);
        assert(p1 * pn <= pow2i(29)) by {
            lemma_pow2_adds((n - 1) as nat, n as nat);
            lemma_pow2i_increases(((n - 1) + n) as nat, 29);
        }
        assert(pow2i(29) == 0x2000_0000) by {
            lemma2_to64();
        }
        assert(-(p1 * pn) <= a * pn <= p1 * pn) by (nonlinear_arith)
            requires
                -p1 <= a < p1,
                pn >= 1,
                p1 >= 1,
        ;
        if lb == 2 {
            assert(bs == 1 && bp == 0);
            assert((bp - bs) * ps == -ps) by (nonlinear_arith)
                requires
                    bp == 0 && bs == 1,
            ;
            assert(a * w * sum1 == a * w * sum - a * (w * ps)) by (nonlinear_arith)
                requires
                    sum1 == sum - ps,
            ;
            assert(st.product - a * pn == a * w * sum1 + d);
        } else if lb == 1 {
            assert(bs == 0 && bp == 1);
            assert((bp - bs) * ps == ps) by (nonlinear_arith)
                requires
                    bp == 1 && bs == 0,
            ;
            assert(a * w * sum1 == a * w * sum + a * (w * ps)) by (nonlinear_arith)
                requires
                    sum1 == sum + ps,
            ;
            assert(st.product + a * pn == a * w * sum1 + d);
        } else {
            assert(bs == bp);
            assert((bp - bs) * ps == 0) by (nonlinear_arith)
                requires
                    bp == bs,
            ;
            assert(sum1 == sum);
        }
    }
}

/// When the shift counter reaches the width, the partial product is exactly
/// the multiplicand times the signed reading of the masked multiplier.
pub proof fn lemma_final_value(st: Step, a: int, bu: int)
    requires
        st.consistent(a, bu),
        st.shift_steps == st.bits,
    ensures
        st.product == a * as_signed(bu, st.bits as nat),
{
    reveal(Step::consistent);
    let n = st.bits as int;
    assert(st.stable());
    assert(pow2i(0) == 1) by {
        lemma2_to64();
    }
    lemma_div_pow2_bound(bu, n as nat, n as nat);
    assert(bu / pow2i(n as nat) == 0);
    lemma_booth_sum_full(bu, n as nat);
    assert(st.product == a * pow2i(0) * booth_sum(bu, n as nat));
}

} // verus!
