//! A three-channel color accumulator over fixed-point values, and the
//! final quantization of an accumulated pixel to 8-bit output.

use vstd::prelude::*;
use crate::fixed::{
    fx_add, fx_mul, fx_div, fx_sqrt, fx_from_int,
    fx_add_spec, fx_mul_spec, fx_div_spec, fx_sqrt_spec, sat64,
};
use crate::rng::{rng_unit, rng_between};
use crate::utils::{clamp, clamp_spec};

verus! {

#[derive(Clone, Copy, Debug, PartialEq, Eq, Structural)]
pub struct RGBColor {
    pub r: i64,
    pub g: i64,
    pub b: i64,
}

/// The channelwise sum.
pub open spec fn cadd_spec(a: RGBColor, b: RGBColor) -> RGBColor {
    RGBColor {
        r: fx_add_spec(a.r as int, b.r as int) as i64,
        g: fx_add_spec(a.g as int, b.g as int) as i64,
        b: fx_add_spec(a.b as int, b.b as int) as i64,
    }
}

/// The channelwise product: attenuation composed along a light path.
pub open spec fn cmul_spec(a: RGBColor, b: RGBColor) -> RGBColor {
    RGBColor {
        r: fx_mul_spec(a.r as int, b.r as int) as i64,
        g: fx_mul_spec(a.g as int, b.g as int) as i64,
        b: fx_mul_spec(a.b as int, b.b as int) as i64,
    }
}

/// The color scaled by a fixed-point scalar.
pub open spec fn cmul_scalar_spec(a: RGBColor, k: int) -> RGBColor {
    RGBColor {
        r: fx_mul_spec(a.r as int, k) as i64,
        g: fx_mul_spec(a.g as int, k) as i64,
        b: fx_mul_spec(a.b as int, k) as i64,
    }
}

/// One channel of the final pixel: scale by the per-sample weight, clamp
/// the (conceptually non-negative) value at zero, gamma-correct with a
/// square root, clamp to `[0, 0.999]`, and round to an 8-bit level capped
/// at 255.
pub open spec fn quantize_channel_spec(c: int, scale: int) -> int {
    let v = fx_mul_spec(c, scale);
    let v0 = if v < 0 { 0 } else { v };
    let s = fx_sqrt_spec(v0);
    let cl = clamp_spec(s, 0, 65470);
    let level = (cl + 128) / 256;
    if level > 255 { 255 } else { level }
}

/// The per-sample weight used by quantization: `1 / samples` in fixed point.
pub open spec fn sample_scale_spec(samples: int) -> int {
    fx_div_spec(65536, sat64(samples * 65536))
}

/// Attenuation only dims: multiplying a non-negative color channelwise
/// by albedo fractions in `[0, 1]` keeps every channel between zero and
/// its old value, so each bounce can only darken a light path.
pub proof fn lemma_attenuation_dims(att: RGBColor, c: RGBColor)
    requires
        0 <= att.r <= 65536,
        0 <= att.g <= 65536,
        0 <= att.b <= 65536,
        0 <= c.r,
        0 <= c.g,
        0 <= c.b,
    ensures
        0 <= cmul_spec(att, c).r <= c.r,
        0 <= cmul_spec(att, c).g <= c.g,
        0 <= cmul_spec(att, c).b <= c.b,
{
    crate::fixed::lemma_fx_mul_unit(att.r as int, c.r as int);
    crate::fixed::lemma_fx_mul_unit(att.g as int, c.g as int);
    crate::fixed::lemma_fx_mul_unit(att.b as int, c.b as int);
}

impl RGBColor {
    pub fn new(r: i64, g: i64, b: i64) -> (c: Self)
        ensures
            c == (RGBColor { r, g, b }),
    {
        RGBColor { r, g, b }
    }

    pub fn add(&self, rhs: RGBColor) -> (c: RGBColor)
        ensures
            c == cadd_spec(*self, rhs),
    {
        RGBColor { r: fx_add(self.r, rhs.r), g: fx_add(self.g, rhs.g), b: fx_add(self.b, rhs.b) }
    }

    pub fn mul(&self, rhs: RGBColor) -> (c: RGBColor)
        ensures
            c == cmul_spec(*self, rhs),
    {
        RGBColor { r: fx_mul(self.r, rhs.r), g: fx_mul(self.g, rhs.g), b: fx_mul(self.b, rhs.b) }
    }

    pub fn mul_scalar(&self, rhs: i64) -> (c: RGBColor)
        ensures
            c == cmul_scalar_spec(*self, rhs as int),
    {
        RGBColor { r: fx_mul(self.r, rhs), g: fx_mul(self.g, rhs), b: fx_mul(self.b, rhs) }
    }

    /// A color with three uniform channels in `[0, 1)`.
    pub fn random(rng: &fastrand::Rng) -> (c: RGBColor)
        ensures
            0 <= c.r < 65536,
            0 <= c.g < 65536,
            0 <= c.b < 65536,
    {
        let r = rng_unit(rng);
        let g = rng_unit(rng);
        let b = rng_unit(rng);
        RGBColor { r, g, b }
    }

    /// A color with three uniform channels in `[min, max)` — or all
    /// exactly `min` when the interval is empty.
    pub fn random_interval(min: i64, max: i64, rng: &fastrand::Rng) -> (c: RGBColor)
        requires
            min <= max,
            -0x1_0000_0000_0000 <= min <= 0x1_0000_0000_0000,
            -0x1_0000_0000_0000 <= max <= 0x1_0000_0000_0000,
        ensures
            min <= c.r <= max && min <= c.g <= max && min <= c.b <= max,
            min < max ==> c.r < max && c.g < max && c.b < max,
            min == max ==> c == (RGBColor { r: min, g: min, b: min }),
    {
        let r = rng_between(rng, min, max);
        let g = rng_between(rng, min, max);
        let b = rng_between(rng, min, max);
        RGBColor { r, g, b }
    }

    /// The accumulated pixel reduced to one 8-bit level per channel:
    /// average over the samples, gamma-correct, clamp and round.
    pub fn quantized(&self, samples_per_pixel: i64) -> (q: (u8, u8, u8))
        requires
            0 < samples_per_pixel <= 1_000_000,
        ensures
            q.0 as int == quantize_channel_spec(self.r as int, sample_scale_spec(
                samples_per_pixel as int)),
            q.1 as int == quantize_channel_spec(self.g as int, sample_scale_spec(
                samples_per_pixel as int)),
            q.2 as int == quantize_channel_spec(self.b as int, sample_scale_spec(
                samples_per_pixel as int)),
    {
        let scale = fx_div(65536, fx_from_int(samples_per_pixel));
        let r = quantize_channel(self.r, scale);
        let g = quantize_channel(self.g, scale);
        let b = quantize_channel(self.b, scale);
        (r, g, b)
    }
}

fn quantize_channel(c: i64, scale: i64) -> (q: u8)
    ensures
        q as int == quantize_channel_spec(c as int, scale as int),
{
    let v = fx_mul(c, scale);
    let v0: i64 = if v < 0 { 0 } else { v };
    let s = fx_sqrt(v0);
    let cl = clamp(s, 0, 65470);
    let level: u64 = ((cl as u64) + 128) / 256;
    assert(level as int == (cl as int + 128) / 256);
    if level > 255 {
        255
    } else {
        level as u8
    }
}

} // verus!
