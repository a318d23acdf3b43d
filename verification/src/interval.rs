//! Numeric intervals used to bound valid intersection parameters.

use vstd::prelude::*;

verus! {

/// An interval `[min, max]` of fixed-point scalars.
#[derive(Clone, Copy, Debug, PartialEq, Eq, Structural)]
pub struct Interval {
    pub min: i128,
    pub max: i128,
}

/// Clamping to `[lo, hi]`: raise to `lo` first, then cap at `hi`.
pub open spec fn clamp_s(x: int, lo: int, hi: int) -> int {
    let raised = if x < lo {
        lo
    } else {
        x
    };
    if raised > hi {
        hi
    } else {
        raised
    }
}

impl Interval {
    pub fn new(min: i128, max: i128) -> (r: Self)
        ensures
            r.min == min && r.max == max,
    {
        Interval { min, max }
    }

    /// Strict containment: `x` lies in the open interval `(min, max)`.
    pub fn surrounds(&self, x: i128) -> (r: bool)
        ensures
            r == (self.min < x && x < self.max),
    {
        self.min < x && x < self.max
    }

    /// Clamp `x` into the interval.
    pub fn clamp(&self, x: i128) -> (r: i128)
        ensures
            r == clamp_s(x as int, self.min as int, self.max as int),
            self.min <= self.max ==> self.min <= r && r <= self.max,
    {
        let raised: i128 = if x < self.min {
            self.min
        } else {
            x
        };
        if raised > self.max {
            self.max
        } else {
            raised
        }
    }
}

/// For interval bounds `min <= max`, clamping lands every input inside
/// `[min, max]`, and an input already inside is left unchanged.
pub proof fn lemma_clamp_within(x: int, lo: int, hi: int)
    requires
        lo <= hi,
    ensures
        lo <= clamp_s(x, lo, hi) && clamp_s(x, lo, hi) <= hi,
        lo <= x && x <= hi ==> clamp_s(x, lo, hi) == x,
{
}

} // verus!
