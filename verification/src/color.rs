//! Color output conversion: gamma correction, clamping and quantization.
//!
//! A linear channel intensity is gamma-corrected with a square root,
//! clamped into `[0, 0.9999]` and scaled by `255.999` before truncation to
//! an 8-bit channel value.  `channel_s` states the whole sequence exactly.

use vstd::prelude::*;

verus! {

use crate::fx::SCALE;
use crate::fx::SQRT_ARG_MAX;
use crate::fx::iabs;
use crate::fx::fx_mul_s;
use crate::fx::fx_sqrt_s;
use crate::fx::fx_mul;
use crate::fx::fx_sqrt;
use crate::fx::lemma_fx_mul_bound;
use crate::interval::Interval;
use crate::interval::clamp_s;
use crate::vec3::Vec3;
use crate::vec3::Color;

/// The clamp ceiling `0.9999` of the output intensity interval.
pub const INTENSITY_MAX: i128 = 9_999;

/// The quantization factor `255.999`.
pub const CHANNEL_SCALE: i128 = 2_559_990;

/// Square-root gamma of a linear value; non-positive values go to zero.
pub open spec fn linear_to_gamma_s(x: int) -> int {
    if x > 0 {
        fx_sqrt_s(x)
    } else {
        0
    }
}

/// The 8-bit channel value of a linear intensity: gamma, clamp, scale by
/// `255.999`, truncate.
pub open spec fn channel_s(x: int) -> int {
    let clamped = clamp_s(linear_to_gamma_s(x), 0, INTENSITY_MAX as int);
    fx_mul_s(clamped, CHANNEL_SCALE as int) / (SCALE as int)
}

/// Square-root gamma correction of one linear channel value.
pub fn linear_to_gamma(linear_component: i128) -> (r: i128)
    requires
        linear_component <= SQRT_ARG_MAX,
    ensures
        r == linear_to_gamma_s(linear_component as int),
        0 <= r,
{
    if linear_component > 0 {
        fx_sqrt(linear_component)
    } else {
        0
    }
}

/// Quantize one linear channel value to 8 bits.
pub fn to_channel(linear_component: i128) -> (r: u8)
    requires
        linear_component <= SQRT_ARG_MAX,
    ensures
        r == channel_s(linear_component as int),
        r <= 255,
{
    let gamma: i128 = linear_to_gamma(linear_component);
    let intensity: Interval = Interval::new(0, INTENSITY_MAX);
    let clamped: i128 = intensity.clamp(gamma);
    proof {
        lemma_fx_mul_bound(clamped as int, CHANNEL_SCALE as int, INTENSITY_MAX as int, CHANNEL_SCALE as int);
        vstd::arithmetic::div_mod::lemma_div_pos_is_pos(
            iabs(clamped as int) * iabs(CHANNEL_SCALE as int),
            SCALE as int,
        );
        vstd::arithmetic::mul::lemma_mul_nonnegative(clamped as int, CHANNEL_SCALE as int);
    }
    let scaled: i128 = fx_mul(clamped, CHANNEL_SCALE);
    let quantized: u128 = (scaled as u128) / (SCALE as u128);
    quantized as u8
}

impl Vec3 {
    /// The three 8-bit channel values of this color, in red, green, blue
    /// order, after gamma correction and clamping.
    pub fn channels(&self) -> (r: (u8, u8, u8))
        requires
            self.x <= SQRT_ARG_MAX,
            self.y <= SQRT_ARG_MAX,
            self.z <= SQRT_ARG_MAX,
        ensures
            r.0 == channel_s(self.x as int),
            r.1 == channel_s(self.y as int),
            r.2 == channel_s(self.z as int),
    {
        (to_channel(self.x), to_channel(self.y), to_channel(self.z))
    }
}

/// Quantization always lands in the 8-bit range, sends zero to zero, and
/// sends full intensity (one) to the top value 255.
pub proof fn lemma_channel_range(x: int)
    ensures
        0 <= channel_s(x) && channel_s(x) <= 255,
        channel_s(0) == 0,
        channel_s(SCALE as int) == 255,
{
    let clamped = clamp_s(linear_to_gamma_s(x), 0, INTENSITY_MAX as int);
    crate::interval::lemma_clamp_within(linear_to_gamma_s(x), 0, INTENSITY_MAX as int);
    crate::fx::lemma_fx_mul_bound(clamped, CHANNEL_SCALE as int, INTENSITY_MAX as int, CHANNEL_SCALE as int);
    vstd::arithmetic::mul::lemma_mul_nonnegative(clamped, CHANNEL_SCALE as int);
    vstd::arithmetic::div_mod::lemma_div_pos_is_pos(
        iabs(clamped) * iabs(CHANNEL_SCALE as int),
        SCALE as int,
    );
    assert(channel_s(0) == 0);
    assert(fx_sqrt_s(SCALE as int) == SCALE as int) by {
        crate::fx::lemma_sqrt_floor_unique(
            (SCALE as int) * (SCALE as int),
            SCALE as int,
        );
    };
    assert(channel_s(SCALE as int) == 255);
}

} // verus!
