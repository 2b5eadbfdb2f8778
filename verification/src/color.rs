//! Pixel formatting: averages accumulated samples, applies square-root
//! gamma correction, clamps, and scales each channel to `[0, 255]`.
//! Turning the three bytes into a textual pixel record is left to the
//! caller outside the library.

use vstd::prelude::*;
use crate::fixed::{fp_sqrt, idiv, lemma_tdiv, sqrt_i, tdiv, SCALE};
use crate::vec3::{clamp_s, Color};

verus! {

/// One output channel: the summed channel divided by the sample
/// count, gamma-corrected by square root, clamped to `[0, 1]`, scaled
/// by 256 and rounded to the nearest integer (half away from zero),
/// then capped at 255 so a saturated channel stays representable.
pub open spec fn channel_s(c: int, n: int) -> int {
    let avg = tdiv(c, n);
    let g = sqrt_i(avg * SCALE);
    let cl = clamp_s(g, 0, SCALE as int);
    let v = tdiv(256 * cl + 32768, SCALE as int);
    if v > 255 {
        255
    } else {
        v
    }
}

/// One channel, executable.
fn channel(c: i64, n: i64) -> (r: u8)
    requires
        c >= 0,
        n >= 1,
    ensures
        r == channel_s(c as int, n as int),
{
    proof {
        lemma_tdiv(c as int, n as int);
    }
    let avg: i64 = idiv(c, n);
    let g: i64 = fp_sqrt(avg);
    let cl: i64 = if g > 65536 {
        65536
    } else {
        g
    };
    proof {
        lemma_tdiv(256 * (cl as int) + 32768, SCALE as int);
    }
    let v: i64 = idiv(256 * cl + 32768, 65536);
    if v > 255 {
        255
    } else {
        v as u8
    }
}

/// The three bytes of one pixel, from the summed sample colors and
/// the sample count.
pub fn to_bytes(pixel_color: Color, sample_per_pixel: u32) -> (r: (u8, u8, u8))
    requires
        pixel_color.x >= 0,
        pixel_color.y >= 0,
        pixel_color.z >= 0,
        sample_per_pixel >= 1,
    ensures
        r.0 == channel_s(pixel_color.x as int, sample_per_pixel as int),
        r.1 == channel_s(pixel_color.y as int, sample_per_pixel as int),
        r.2 == channel_s(pixel_color.z as int, sample_per_pixel as int),
{
    let n: i64 = sample_per_pixel as i64;
    (channel(pixel_color.x, n), channel(pixel_color.y, n), channel(pixel_color.z, n))
}

} // verus!
