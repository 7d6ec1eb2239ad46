//! The bit and clamp helpers around the core: keeping user inputs inside the
//! configured width, and reading single bits for display.

use vstd::prelude::*;
use vstd::arithmetic::div_mod::lemma_mod_bound;
use crate::arith::pow2i;
use crate::arith::pow2_i32;
use crate::arith::lemma_shr_is_div_pow2;
use crate::arith::lemma_and1_is_mod2;
use crate::recoding::bit_at;

verus! {

/// Restrict a value to the representable range of a `bits`-wide
/// two's-complement word, `[-2^(bits-1), 2^(bits-1) - 1]`.
pub fn clamp_input(input: i32, bits: i32) -> (r: i32)
    requires
        1 <= bits <= 30,
    ensures
        r == if input < -pow2i((bits - 1) as nat) {
            -pow2i((bits - 1) as nat)
        } else if input > pow2i((bits - 1) as nat) - 1 {
            pow2i((bits - 1) as nat) - 1
        } else {
            input as int
        },
        -pow2i((bits - 1) as nat) <= r < pow2i((bits - 1) as nat),
{
    let half = pow2_i32((bits - 1) as u32);
    if input < -half {
        -half
    } else if input > half - 1 {
        half - 1
    } else {
        input
    }
}

/// Bit `bit` (zero is least significant) of `number`, by masking, as zero
/// or one.
pub fn get_bit(number: i32, bit: i32) -> (r: i32)
    requires
        0 <= bit <= 30,
    ensures
        r == bit_at(number as int, bit as int),
{
    let masked = number & (1i32 << (bit as u32));
    proof {
        let k = bit as u32;
        let y = number >> k;
        assert(((number & (1i32 << k)) != 0) == ((y & 1i32) == 1i32)) by (bit_vector)
            requires
                y == number >> k,
                k <= 30,
        ;
        lemma_shr_is_div_pow2(number, k);
        lemma_and1_is_mod2(y);
        lemma_mod_bound(y as int, 2);
    }
    if masked != 0 {
        1
    } else {
        0
    }
}

} // verus!
