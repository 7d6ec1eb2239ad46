//! The data model: the four actions the algorithm can take, one point of the
//! execution trace, and the invariant every point of a trace satisfies.

use vstd::prelude::*;
use crate::arith::pow2i;
use crate::arith::lemma_pow2i_pos;
use crate::arith::lemma_pow2i_increases;
use crate::recoding::bit_at;
use crate::recoding::booth_sum;
use crate::recoding::lemma_booth_sum_bounds;
use crate::recoding::lemma_div_pow2_bound;

verus! {

/// What a transition did: the algorithm starts in `Init`, adds or subtracts
/// the shifted multiplicand, or shifts the partial product right by one.
#[derive(Clone, Copy, PartialEq, Eq, Structural, Debug)]
pub enum Action {
    Init,
    Add,
    Sub,
    Shift,
}

impl Action {
    /// The display name of the action.
    pub fn to_string(&self) -> (r: &'static str)
        ensures
            r@ == self.name(),
    {
        match self {
            Action::Init => "Init",
            Action::Add => "Add",
            Action::Sub => "Sub",
            Action::Shift => "Shift",
        }
    }

    /// The display name of the action, as the contracts speak of it.
    pub open spec fn name(self) -> Seq<char> {
        match self {
            Action::Init => "Init"@,
            Action::Add => "Add"@,
            Action::Sub => "Sub"@,
            Action::Shift => "Shift"@,
        }
    }
}

/// One point of the execution trace of Booth's algorithm.
#[derive(Clone, Copy, PartialEq, Eq, Structural, Debug)]
pub struct Step {
    /// How many transitions have been applied so far.
    pub step: i32,
    /// How many of those transitions were shifts; termination counts these.
    pub shift_steps: i32,
    /// The action that produced this point (`Init` for the first).
    pub action: Action,
    /// The signed partial-product register.
    pub product: i32,
    /// The bit most recently shifted out of `product`; zero before any shift.
    pub additional: i32,
    /// The configured bit-width, copied unchanged into every derived point.
    pub bits: i32,
}

impl Step {
    /// A point from which the recoding test decides the next action; the two
    /// other actions force a shift instead.
    pub open spec fn stable(self) -> bool {
        self.action == Action::Init || self.action == Action::Shift
    }

    /// The shape of the first point of a trace: nothing applied yet, and the
    /// partial product holds the masked multiplier.
    pub open spec fn is_initial(self) -> bool {
        &&& self.action == Action::Init
        &&& self.step == 0
        &&& self.shift_steps == 0
        &&& self.additional == 0
        &&& 1 <= self.bits <= 15
        &&& 0 <= self.product < pow2i(self.bits as nat)
    }

    /// The invariant tying a point to the fixed multiplicand `a` and to the
    /// masked multiplier `bu` the trace started from.  The partial product
    /// always splits into the Booth sum of the consumed bits, placed at the
    /// shift position, plus the multiplier bits not yet consumed; `additional`
    /// is the bit consumed last.
    #[verifier::opaque]
    pub open spec fn consistent(self, a: int, bu: int) -> bool {
        let n = self.bits as int;
        let s = self.shift_steps as int;
        &&& 1 <= n <= 15
        &&& 0 <= bu < pow2i(n as nat)
        &&& -pow2i((n - 1) as nat) <= a < pow2i((n - 1) as nat)
        &&& 0 <= s <= n
        &&& s <= self.step
        &&& 0 <= self.additional <= 1
        &&& self.additional == bit_at(bu, s - 1)
        &&& (self.action == Action::Init ==> self.step == 0 && s == 0)
        &&& if self.stable() {
            &&& self.step <= 2 * s
            &&& self.product == a * pow2i((n - s) as nat) * booth_sum(bu, s as nat) + bu
                / pow2i(s as nat)
        } else {
            &&& s < n
            &&& self.step <= 2 * s + 1
            &&& self.product == a * pow2i((n - s) as nat) * booth_sum(bu, (s + 1) as nat) + bu
                / pow2i(s as nat)
        }
    }
}

/// A consistent partial product stays well clear of the `i32` range: it is
/// bounded by `2^(2*bits-1) + 2^bits`, at most `2^29 + 2^15`.
pub proof fn lemma_consistent_bounds(st: Step, a: int, bu: int)
    requires
        st.consistent(a, bu),
    ensures
        -0x2000_8000 <= st.product <= 0x2000_8000,
        1 <= st.bits <= 15,
        0 <= st.shift_steps <= st.bits,
        st.shift_steps <= st.step <= 2 * st.shift_steps + 1,
        0 <= st.additional <= 1,
        st.stable() ==> st.step <= 2 * st.shift_steps,
        !st.stable() ==> st.shift_steps < st.bits,
{
    reveal(Step::consistent);
    let n = st.bits as int;
    let s = st.shift_steps as int;
    let t = if st.stable() {
        s as nat
    } else {
        (s + 1) as nat
    };
    let w = pow2i((n - s) as nat);
    let b = booth_sum(bu, t);
    lemma_booth_sum_bounds(bu, t);
    lemma_pow2i_pos((n - s) as nat);
    lemma_pow2i_pos((n - 1) as nat);
    lemma_div_pow2_bound(bu, s as nat, n as nat);
    lemma_pow2i_increases((n - s) as nat, 15);
    assert(pow2i(15) == 0x8000 && pow2i(29) == 0x2000_0000 && pow2i(14) == 0x4000) by {
        vstd::arithmetic::power2::lemma2_to64();
    }
    if t == 0 {
        assert(a * w * b == 0) by (nonlinear_arith)
            requires
                b == 0,
        ;
    } else {
        let half = pow2i((t - 1) as nat);
        let p1 = pow2i((n - 1) as nat);
        // The three factors are bounded by powers of two whose exponents sum
        // to at most 29.
        assert(-(p1 * (w * half)) <= a * w * b <= p1 * (w * half)) by (nonlinear_arith)
            requires
                -p1 <= a < p1,
                -half <= b < half,
                w >= 1,
                half >= 1,
                p1 >= 1,
        ;
        assert(p1 * (w * half) == pow2i(((n - 1) + (n - s) + (t - 1)) as nat)) by {
            vstd::arithmetic::power2::lemma_pow2_adds((n - s) as nat, (t - 1) as nat);
            vstd::arithmetic::power2::lemma_pow2_adds((n - 1) as nat, ((n - s) + (t - 1)) as nat);
            assert(p1 * (w * half) == p1 * pow2i(((n - s) + (t - 1)) as nat));
        }
        lemma_pow2i_increases(((n - 1) + (n - s) + (t - 1)) as nat, 29);
    }
}

} // verus!
