//! Colors and their resolution to 8-bit pixels.
//!
//! A color is a vector whose components are linear light in `[0, 1]` at
//! fixed-point scale.  Resolving a pixel averages the accumulated samples,
//! applies gamma-2 correction and quantizes each channel to a byte.

use vstd::prelude::*;

verus! {

use crate::fixed::SCALE;
use crate::fixed::tdiv;
use crate::fixed::fsqrts;
use crate::fixed::fsqrt;
use crate::fixed::lemma_sqrt_monotone;
use crate::fixed::lemma_sqrt_floor;
use crate::fixed::lemma_tdiv_bound;
use crate::vec3::Vec3;
use crate::interval::Interval;

pub type Color = Vec3;

/// The largest channel value that survives clamping before quantization,
/// just under one so that a full channel maps to byte 255.
pub const CLAMP_MAX: i128 = 1047527;

/// Accumulated channel values stay below this before averaging.
pub const CHANNEL_MAX: i128 = 1152921504606846976;

/// Gamma-2 correction: the square root of the linear value.
pub open spec fn s_gamma(x: int) -> int {
    fsqrts(x)
}

/// What one accumulated channel resolves to: average over the sample count,
/// gamma-correct, clamp to `[0, CLAMP_MAX]` and quantize to a byte.
pub open spec fn s_resolve_channel(c: int, samples: int) -> int {
    let scaled = tdiv(c, samples);
    let g = s_gamma(scaled);
    let clamped = if g < 0 {
        0
    } else if g > CLAMP_MAX {
        CLAMP_MAX as int
    } else {
        g
    };
    tdiv(256 * clamped, SCALE as int)
}

/// Gamma-2 correction of one linear channel value.
pub fn linear_to_gamma_2(x: i128) -> (r: i128)
    requires
        0 <= x <= CHANNEL_MAX as int,
    ensures
        r == s_gamma(x as int),
        0 <= r,
{
    fsqrt(x)
}

/// Gamma correction never decreases: a brighter linear value stays at least
/// as bright after correction.
pub proof fn lemma_gamma_monotone(x: int, y: int)
    requires
        0 <= x <= y,
    ensures
        s_gamma(x) <= s_gamma(y),
{
    lemma_sqrt_monotone(x * SCALE, y * SCALE);
}

/// Gamma correction fixes full brightness: one maps to one.
pub proof fn lemma_gamma_unit()
    ensures
        s_gamma(SCALE as int) == SCALE,
{
    assert(1048576int * 1048576 == 1099511627776) by (nonlinear_arith);
    assert((1048576int + 1) * (1048576int + 1) == 1099513724929) by (nonlinear_arith);
    lemma_sqrt_floor(1099511627776, 1048576);
}

/// Gamma correction fixes black: zero maps to zero.
pub proof fn lemma_gamma_zero()
    ensures
        s_gamma(0) == 0,
{
    assert(0int * 0 == 0) by (nonlinear_arith);
    assert((0int + 1) * (0int + 1) == 1) by (nonlinear_arith);
    lemma_sqrt_floor(0, 0);
}

impl Color {
    /// Resolve an accumulated pixel color into one 8-bit triple: average
    /// over the sample count, gamma-correct, clamp, quantize.
    pub fn to_rgb8(self, samples_per_pixel: u32) -> (r: (u8, u8, u8))
        requires
            1 <= samples_per_pixel,
            0 <= self@.x <= CHANNEL_MAX as int,
            0 <= self@.y <= CHANNEL_MAX as int,
            0 <= self@.z <= CHANNEL_MAX as int,
        ensures
            r.0 == s_resolve_channel(self@.x, samples_per_pixel as int),
            r.1 == s_resolve_channel(self@.y, samples_per_pixel as int),
            r.2 == s_resolve_channel(self@.z, samples_per_pixel as int),
    {
        (
            resolve_channel(self.x, samples_per_pixel),
            resolve_channel(self.y, samples_per_pixel),
            resolve_channel(self.z, samples_per_pixel),
        )
    }
}

/// Resolve one accumulated channel to its byte.
fn resolve_channel(c: i128, samples_per_pixel: u32) -> (r: u8)
    requires
        1 <= samples_per_pixel,
        0 <= c <= CHANNEL_MAX as int,
    ensures
        r == s_resolve_channel(c as int, samples_per_pixel as int),
{
    let samples = samples_per_pixel as i128;
    let scaled = c / samples;
    proof {
        lemma_tdiv_bound(c as int, samples as int, CHANNEL_MAX as int);
    }
    let g = linear_to_gamma_2(scaled);
    let intensity = Interval::new(0, CLAMP_MAX);
    let clamped = intensity.clamp(g);
    ((256 * clamped) / SCALE) as u8
}

} // verus!
