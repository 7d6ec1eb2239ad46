//! Laws of the trace as a whole: monotonicity of the counters, determinism,
//! re-derivation of a trace from any of its points, and the exactness of the
//! final product.

use vstd::prelude::*;
use crate::arith::pow2i;
use crate::model::Step;
use crate::engine::next_step_spec;
use crate::engine::lemma_next_fields;
use crate::trace::chained;
use crate::trace::all_consistent;
use crate::recoding::as_signed;
use crate::recoding::lemma_signed_residue;

verus! {

/// Monotonicity: across a chained trace of consistent points, the transition
/// counter is strictly increasing and the shift counter is non-decreasing.
pub proof fn lemma_trace_monotonic(tr: Seq<Step>, a: int, bu: int, i: int, j: int)
    requires
        chained(tr, a),
        all_consistent(tr, a, bu),
        0 <= i < j < tr.len(),
    ensures
        tr[i].step < tr[j].step,
        tr[i].shift_steps <= tr[j].shift_steps,
    decreases j - i,
{
    assert(tr[j - 1].consistent(a, bu));
    assert(tr[(j - 1) + 1] == next_step_spec(tr[j - 1], a));
    lemma_next_fields(tr[j - 1], a, bu);
    if i < j - 1 {
        lemma_trace_monotonic(tr, a, bu, i, j - 1);
    }
}

/// Two chained traces that start from the same point agree wherever both are
/// defined.
proof fn lemma_prefix_eq(tr1: Seq<Step>, tr2: Seq<Step>, a: int, i: int)
    requires
        tr1.len() > 0,
        tr2.len() > 0,
        tr1[0] == tr2[0],
        chained(tr1, a),
        chained(tr2, a),
        0 <= i < tr1.len(),
        i < tr2.len(),
    ensures
        tr1[i] == tr2[i],
    decreases i,
{
    if i > 0 {
        lemma_prefix_eq(tr1, tr2, a, i - 1);
        assert(tr1[(i - 1) + 1] == next_step_spec(tr1[i - 1], a));
        assert(tr2[(i - 1) + 1] == next_step_spec(tr2[i - 1], a));
    }
}

/// Determinism: two chained traces from the same first point, each running
/// until its shift counter first reaches the configured width, are equal
/// point for point.
pub proof fn lemma_trace_deterministic(tr1: Seq<Step>, tr2: Seq<Step>, a: int)
    requires
        tr1.len() > 0,
        tr2.len() > 0,
        tr1[0] == tr2[0],
        chained(tr1, a),
        chained(tr2, a),
        forall|i: int| 0 <= i < tr1.len() - 1 ==> (#[trigger] tr1[i]).shift_steps < tr1[i].bits,
        forall|i: int| 0 <= i < tr2.len() - 1 ==> (#[trigger] tr2[i]).shift_steps < tr2[i].bits,
        tr1.last().shift_steps == tr1.last().bits,
        tr2.last().shift_steps == tr2.last().bits,
    ensures
        tr1 == tr2,
{
    if tr1.len() < tr2.len() {
        let k = tr1.len() - 1;
        lemma_prefix_eq(tr1, tr2, a, k);
        assert(tr2[k].shift_steps < tr2[k].bits);
        assert(false);
    }
    if tr2.len() < tr1.len() {
        let k = tr2.len() - 1;
        lemma_prefix_eq(tr2, tr1, a, k);
        assert(tr1[k].shift_steps < tr1[k].bits);
        assert(false);
    }
    assert forall|i: int| 0 <= i < tr1.len() implies tr1[i] == tr2[i] by {
        lemma_prefix_eq(tr1, tr2, a, i);
    }
    assert(tr1 =~= tr2);
}

/// Re-derivation: applying the transition to any point of a chained trace
/// but the last reproduces exactly the point that follows it in the trace.
pub proof fn lemma_rederive(tr: Seq<Step>, a: int, i: int)
    requires
        chained(tr, a),
        0 <= i < tr.len() - 1,
    ensures
        next_step_spec(tr[i], a) == tr[i + 1],
{
    assert(tr[i + 1] == next_step_spec(tr[i], a));
}

/// Exactness: for a multiplier within the representable `n`-bit signed
/// range, the signed reading of its masked image is the multiplier itself,
/// so a final product of `a` times that reading is exactly `a * b`.
pub proof fn lemma_exact_product(a: int, b: int, n: nat, p: int)
    requires
        n >= 1,
        -pow2i((n - 1) as nat) <= b < pow2i((n - 1) as nat),
        p == a * as_signed(b % pow2i(n), n),
    ensures
        p == a * b,
{
    lemma_signed_residue(b, n);
}

} // verus!
