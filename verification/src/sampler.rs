//! The uniform sampler: a seeded, deterministic pseudo-random source.
//!
//! Rendering consumes randomness only through this type, injected by the
//! caller, so a render is a pure function of the scene, the camera and the
//! seed.  The generator is a 64-bit linear congruential step; every draw's
//! value and the state it leaves behind are stated exactly, which is what
//! makes the end-to-end determinism of the renderer provable.

use vstd::prelude::*;

verus! {

use crate::fx::SCALE;
use crate::fx::iabs;
use crate::fx::fx_mul_s;
use crate::fx::fx_mul;
use vstd::arithmetic::mul::lemma_mul_inequality;
use vstd::arithmetic::mul::lemma_mul_strict_inequality;
use vstd::arithmetic::div_mod::lemma_div_pos_is_pos;
use vstd::arithmetic::div_mod::lemma_multiply_divide_lt;

/// Largest bound magnitude `rand_range` accepts.
pub const RANGE_LIM: i128 = 1_000_000_000_000_000_000_000_000_000_000;

/// The multiplier of the linear congruential step.
pub const LCG_MUL: u64 = 6364136223846793005;

/// The increment of the linear congruential step.
pub const LCG_INC: u64 = 1442695040888963407;

/// The generator state after one step.
pub open spec fn next_state_s(s: u64) -> u64 {
    (((s * LCG_MUL) + LCG_INC) % 0x1_0000_0000_0000_0000) as u64
}

/// The unit draw produced from state `s`: a grid point in `[0, SCALE)`.
pub open spec fn rand_unit_s(s: u64) -> int {
    (next_state_s(s) % (SCALE as u64)) as int
}

/// The ranged draw produced from state `s`.
pub open spec fn rand_range_s(s: u64, min: int, max: int) -> int {
    min + fx_mul_s(rand_unit_s(s), max - min)
}

/// A unit draw scaled into `[0, d)` stays in `[0, d)`.
pub proof fn lemma_scaled_draw_in_range(u: int, d: int)
    requires
        0 <= u,
        u < SCALE as int,
        0 < d,
    ensures
        0 <= fx_mul_s(u, d),
        fx_mul_s(u, d) < d,
{
    let s = SCALE as int;
    assert(iabs(u) * iabs(d) == u * d);
    vstd::arithmetic::mul::lemma_mul_nonnegative(u, d);
    lemma_div_pos_is_pos(u * d, s);
    assert(u * d < s * d) by {
        lemma_mul_strict_inequality(u, s, d);
        vstd::arithmetic::mul::lemma_mul_is_commutative(u, d);
        vstd::arithmetic::mul::lemma_mul_is_commutative(s, d);
    };
    lemma_multiply_divide_lt(u * d, s, d);
}

/// The seeded deterministic source of uniform fixed-point draws.
#[derive(Clone, Copy, Debug, PartialEq, Eq, Structural)]
pub struct Sampler {
    pub state: u64,
}

impl Sampler {
    pub fn new(seed: u64) -> (r: Self)
        ensures
            r.state == seed,
    {
        Sampler { state: seed }
    }

    /// Advance the generator one step.
    fn step(&mut self) -> (r: u64)
        ensures
            final(self).state == next_state_s(old(self).state),
            r == final(self).state,
    {
        proof {
            vstd::arithmetic::mul::lemma_mul_upper_bound(
                self.state as int,
                u64::MAX as int,
                LCG_MUL as int,
                LCG_MUL as int,
            );
        }
        let wide: u128 = (self.state as u128) * (LCG_MUL as u128) + (LCG_INC as u128);
        let next: u64 = (wide % 0x1_0000_0000_0000_0000u128) as u64;
        self.state = next;
        next
    }

    /// A uniform draw on the grid points of `[0, 1)`.
    pub fn rand(&mut self) -> (r: i128)
        ensures
            final(self).state == next_state_s(old(self).state),
            r == rand_unit_s(old(self).state),
            0 <= r && r < SCALE,
    {
        let s: u64 = self.step();
        (s % (SCALE as u64)) as i128
    }

    /// A uniform draw on the grid points of `[min, max)`.
    pub fn rand_range(&mut self, min: i128, max: i128) -> (r: i128)
        requires
            min < max,
            iabs(min as int) <= RANGE_LIM as int,
            iabs(max as int) <= RANGE_LIM as int,
        ensures
            final(self).state == next_state_s(old(self).state),
            r == rand_range_s(old(self).state, min as int, max as int),
            min <= r && r < max,
    {
        let u: i128 = self.rand();
        proof {
            lemma_scaled_draw_in_range(u as int, max - min);
            lemma_mul_inequality(iabs(u as int), SCALE as int, iabs((max - min) as int));
        }
        let d: i128 = max - min;
        min + fx_mul(u, d)
    }
}

} // verus!
