//! Colors, and the conversion of accumulated radiance to output pixels.
//!
//! A `Color` holds linear light intensities: zero is black, `SCALE` is full
//! intensity; values accumulate unbounded above `SCALE` until quantization.
//! `to_pixel` performs the final per-channel pipeline — average over the
//! samples, gamma transform (square root), clamp just below one, quantize
//! to an eight-bit value — exactly as its contract states.

use vstd::prelude::*;

use crate::fixed;
use crate::fixed::{sqrt_floor, tdiv, SCALE};
use crate::interval::Interval;
use crate::vec3::Vec3;

verus! {

/// A color: three linear fixed-point intensities.
pub type Color = Vec3;

/// The upper clamp bound: just below one, so that scaling by 256 stays
/// below 256.
pub const CLAMP_MAX: i64 = 65529;

/// The gamma transform from linear intensity: a fixed-point square root.
pub open spec fn gamma_spec(c: int) -> int {
    sqrt_floor(c * (SCALE as int))
}

/// What one channel of an accumulated color quantizes to: average the
/// samples, apply gamma, clamp into `[0, CLAMP_MAX]`, scale by 256 and
/// truncate.
pub open spec fn channel_spec(v: int, samples: int) -> int {
    let avg = tdiv(v, samples);
    let g = gamma_spec(avg);
    let cl = if g < 0 {
        0
    } else if g > CLAMP_MAX as int {
        CLAMP_MAX as int
    } else {
        g
    };
    tdiv(cl * 256, SCALE as int)
}

/// The gamma transform from linear intensity ("linear to gamma 2.0").
pub fn linear_to_gamma(linear_component: i64) -> (r: i64)
    requires
        linear_component >= 0,
    ensures
        r == gamma_spec(linear_component as int),
        r >= 0,
{
    fixed::sqrt(linear_component)
}

/// One channel of the output pixel.
fn quantize_channel(v: i64, samples_per_pixel: u32) -> (r: u8)
    requires
        samples_per_pixel >= 1,
        0 <= v <= (samples_per_pixel as int) * (SCALE as int),
    ensures
        r == channel_spec(v as int, samples_per_pixel as int),
{
    let avg: i64 = fixed::tdiv_i128(v as i128, samples_per_pixel as i128) as i64;
    proof {
        vstd::arithmetic::div_mod::lemma_div_pos_is_pos(v as int, samples_per_pixel as int);
        vstd::arithmetic::div_mod::lemma_div_nonincreasing(v as int, samples_per_pixel as int);
        vstd::arithmetic::div_mod::lemma_div_is_ordered(
            v as int,
            (samples_per_pixel as int) * (SCALE as int),
            samples_per_pixel as int,
        );
        vstd::arithmetic::div_mod::lemma_div_multiples_vanish(
            SCALE as int,
            samples_per_pixel as int,
        );
    }
    let g: i64 = linear_to_gamma(avg);
    proof {
        fixed::lemma_sqrt_floor_is_sqrt((avg as int) * (SCALE as int));
        assert(g <= 65536) by (nonlinear_arith)
            requires
                g >= 0,
                (g as int) * (g as int) <= (avg as int) * (SCALE as int),
                avg <= 65536,
                SCALE == 65536,
        ;
    }
    let clamped: i64 = Interval::new(0, CLAMP_MAX).clamp(g);
    let q: u64 = ((clamped as u64) * 256) / (SCALE as u64);
    proof {
        vstd::arithmetic::div_mod::lemma_div_pos_is_pos((clamped as int) * 256, SCALE as int);
        vstd::arithmetic::div_mod::lemma_div_is_ordered(
            (clamped as int) * 256,
            65529int * 256,
            SCALE as int,
        );
    }
    q as u8
}

/// The output pixel of an accumulated color: each channel averaged over
/// the samples, gamma-transformed, clamped and quantized to `0..=255`.
pub fn to_pixel(c: &Color, samples_per_pixel: u32) -> (rgb: (u8, u8, u8))
    requires
        samples_per_pixel >= 1,
        0 <= c@.x <= (samples_per_pixel as int) * (SCALE as int),
        0 <= c@.y <= (samples_per_pixel as int) * (SCALE as int),
        0 <= c@.z <= (samples_per_pixel as int) * (SCALE as int),
    ensures
        rgb.0 == channel_spec(c@.x, samples_per_pixel as int),
        rgb.1 == channel_spec(c@.y, samples_per_pixel as int),
        rgb.2 == channel_spec(c@.z, samples_per_pixel as int),
{
    (
        quantize_channel(c.x(), samples_per_pixel),
        quantize_channel(c.y(), samples_per_pixel),
        quantize_channel(c.z(), samples_per_pixel),
    )
}

} // verus!
