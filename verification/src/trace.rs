//! The sequence driver: construct the first point of a trace and run the
//! transition engine until the shift counter reaches the configured width,
//! collecting every point on the way.

use vstd::prelude::*;
use vstd::arithmetic::div_mod::lemma_fundamental_div_mod_converse;
use vstd::arithmetic::power2::lemma2_to64;
use crate::arith::pow2i;
use crate::arith::pow2_i32;
use crate::model::Action;
use crate::model::Step;
use crate::model::lemma_consistent_bounds;
use crate::engine::next_step;
use crate::engine::next_step_spec;
use crate::engine::lemma_next_fields;
use crate::engine::lemma_next_preserves;
use crate::engine::lemma_final_value;
use crate::recoding::as_signed;
use crate::recoding::booth_sum;
use crate::recoding::lemma_booth_sum_bounds;
use crate::recoding::lemma_signed_residue;

verus! {

/// Every adjacent pair of the sequence is linked by the transition function.
pub open spec fn chained(tr: Seq<Step>, a: int) -> bool {
    forall|i: int| 0 <= i < tr.len() - 1 ==> tr[i + 1] == next_step_spec(tr[i], a)
}

/// Every point of the sequence satisfies the trace invariant for the
/// multiplicand `a` and the masked multiplier `bu`.
pub open spec fn all_consistent(tr: Seq<Step>, a: int, bu: int) -> bool {
    forall|i: int| 0 <= i < tr.len() ==> tr[i].consistent(a, bu)
}

/// The first point of a trace is consistent, with its own product register
/// as the masked multiplier.
proof fn lemma_initial_consistent(st: Step, a: int)
    requires
        st.is_initial(),
        -pow2i((st.bits - 1) as nat) <= a < pow2i((st.bits - 1) as nat),
    ensures
        st.consistent(a, st.product as int),
{
    reveal(Step::consistent);
    let bu = st.product as int;
    let n = st.bits as int;
    lemma_booth_sum_bounds(bu, 0);
    assert(pow2i(0) == 1) by {
        lemma2_to64();
    }
    lemma_fundamental_div_mod_converse(bu, 1, bu, 0);
    assert(a * pow2i((n - 0) as nat) * booth_sum(bu, 0) == 0) by (nonlinear_arith)
        requires
            booth_sum(bu, 0) == 0,
    ;
}

/// Construct the first point of a trace: nothing applied yet, and the
/// multiplier masked into the low `bits` of the product register.
pub fn initial_step(b: i32, bits: i32) -> (r: Step)
    requires
        1 <= bits <= 15,
        -pow2i((bits - 1) as nat) <= b < pow2i((bits - 1) as nat),
    ensures
        r.is_initial(),
        r.bits == bits,
        r.product == (b as int) % pow2i(bits as nat),
{
    let m = pow2_i32(bits as u32);
    proof {
        lemma_signed_residue(b as int, bits as nat);
    }
    let masked = if b < 0 {
        b + m
    } else {
        b
    };
    Step {
        step: 0,
        shift_steps: 0,
        action: Action::Init,
        product: masked,
        additional: 0,
        bits: bits,
    }
}

/// Consistency propagates down a chained trace: if the first point is
/// consistent and every point before the last still has shifts to do, then
/// point `i` is consistent.
pub proof fn lemma_chain_consistent(tr: Seq<Step>, a: int, bu: int, i: int)
    requires
        tr.len() > 0,
        tr[0].consistent(a, bu),
        chained(tr, a),
        forall|j: int| 0 <= j < tr.len() - 1 ==> (#[trigger] tr[j]).shift_steps < tr[j].bits,
        0 <= i < tr.len(),
    ensures
        tr[i].consistent(a, bu),
    decreases i,
{
    if i > 0 {
        lemma_chain_consistent(tr, a, bu, i - 1);
        assert(tr[(i - 1) + 1] == next_step_spec(tr[i - 1], a));
        lemma_next_preserves(tr[i - 1], a, bu);
    }
}

/// Run the algorithm to completion: starting from the given initial point,
/// repeatedly derive the next point until the shift counter reaches the
/// width, returning the whole ordered trace.  The trace is pinned point by
/// point by the transition function, so it is fully determined by its
/// inputs; its last point holds the multiplicand times the signed reading
/// of the masked multiplier.
#[verifier::rlimit(40)]
pub fn all_steps(init_step: &Step, a: i32, bits: i32) -> (r: Vec<Step>)
    requires
        init_step.is_initial(),
        init_step.bits == bits,
        -pow2i((bits - 1) as nat) <= a < pow2i((bits - 1) as nat),
    ensures
        2 <= r@.len() <= 2 * bits + 1,
        r@[0] == *init_step,
        chained(r@, a as int),
        all_consistent(r@, a as int, init_step.product as int),
        forall|i: int| 0 <= i < r@.len() ==> #[trigger] r@[i].step == i,
        forall|i: int| 0 <= i < r@.len() ==> #[trigger] r@[i].bits == bits,
        forall|i: int| 0 <= i < r@.len() - 1 ==> #[trigger] r@[i].shift_steps < bits,
        forall|i: int| 0 <= i < r@.len() - 1 ==> #[trigger] r@[i].shift_steps <= r@[i + 1].shift_steps,
        forall|i: int| 1 <= i < r@.len() ==> #[trigger] r@[i].action != Action::Init,
        r@.last().shift_steps == bits,
        r@.last().product == a * as_signed(init_step.product as int, bits as nat),
{
    let ghost bu = init_step.product as int;
    let mut steps: Vec<Step> = Vec::new();
    let mut current: Step = *init_step;
    proof {
        lemma_initial_consistent(*init_step, a as int);
    }
    while current.shift_steps < bits
        invariant
            1 <= bits <= 15,
            -pow2i((bits - 1) as nat) <= a < pow2i((bits - 1) as nat),
            current.consistent(a as int, bu),
            current.bits == bits,
            current.step == steps@.len(),
            steps@.len() == 0 ==> current == *init_step,
            steps@.len() > 0 ==> steps@[0] == *init_step,
            steps@.len() > 0 ==> current == next_step_spec(steps@[steps@.len() - 1], a as int),
            steps@.len() > 0 ==> current.action != Action::Init,
            steps@.len() > 0 ==> steps@[steps@.len() - 1].shift_steps <= current.shift_steps,
            forall|i: int| 0 <= i < steps@.len() ==> (#[trigger] steps@[i]).bits == bits,
            forall|i: int| 0 <= i < steps@.len() ==> (#[trigger] steps@[i]).step == i,
            forall|i: int| 0 <= i < steps@.len() ==> (#[trigger] steps@[i]).shift_steps < bits,
            forall|i: int| 0 <= i < steps@.len() - 1 ==> steps@[i + 1] == next_step_spec(
                #[trigger] steps@[i], a as int),
            forall|i: int| 1 <= i < steps@.len() ==> (#[trigger] steps@[i]).action != Action::Init,
            forall|i: int| 0 <= i < steps@.len() - 1 ==> (#[trigger] steps@[i]).shift_steps
                <= steps@[i + 1].shift_steps,
        decreases 2 * (bits - current.shift_steps) + (if current.stable() {
            1int
        } else {
            0int
        }),
    {
        proof {
            lemma_consistent_bounds(current, a as int, bu);
            lemma_next_fields(current, a as int, bu);
            lemma_next_preserves(current, a as int, bu);
        }
        let prev = current;
        steps.push(prev);
        current = next_step(&prev, a);
    }
    proof {
        lemma_consistent_bounds(current, a as int, bu);
        lemma_final_value(current, a as int, bu);
    }
    steps.push(current);
    proof {
        let tr = steps@;
        assert(chained(tr, a as int));
        assert forall|i: int| 0 <= i < tr.len() implies (#[trigger] tr[i]).consistent(
            a as int,
            bu,
        ) by {
            lemma_chain_consistent(tr, a as int, bu, i);
        }
    }
    steps
}

} // verus!
