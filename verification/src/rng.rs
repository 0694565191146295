//! The seedable random source, and the fixed-point draws the renderer
//! makes from it.  The generator itself comes from the `fastrand` crate
//! and is opaque here: nothing is assumed of a draw beyond its range, so
//! everything downstream is proved for every outcome.

use vstd::prelude::*;
use crate::fixed::{fx_add, fx_sub, fx_mul, iabs, tdiv, lemma_fx_mul_bound, FX_ONE};

verus! {

#[verifier::external_type_specification]
#[verifier::external_body]
pub struct ExRng(fastrand::Rng);

/// Relies on fastrand::Rng::u32: a uniform draw from `0..n`.  The call
/// panics only on an empty range, which `n > 0` rules out.
#[verifier::external_body]
pub(crate) fn rng_below(rng: &fastrand::Rng, n: u32) -> (r: u32)
    requires
        n > 0,
    ensures
        r < n,
{
    rng.u32(0..n)
}

/// A uniform fixed-point draw in `[0, 1)`: one of the 2^16 representable
/// values below one.
pub(crate) fn rng_unit(rng: &fastrand::Rng) -> (r: i64)
    ensures
        0 <= r < FX_ONE,
{
    rng_below(rng, 65536) as i64
}

/// A fixed-point draw: `min + (max - min) * u` for a uniform `u` in
/// `[0, 1)`, landing in `[min, max)` — or exactly `min` for an empty
/// interval.  The modest magnitude bound keeps the scaled offset exact,
/// so the result provably stays inside the interval.
pub(crate) fn rng_between(rng: &fastrand::Rng, min: i64, max: i64) -> (r: i64)
    requires
        min <= max,
        -0x1_0000_0000_0000 <= min <= 0x1_0000_0000_0000,
        -0x1_0000_0000_0000 <= max <= 0x1_0000_0000_0000,
    ensures
        min <= r <= max,
        min < max ==> r < max,
        min == max ==> r == min,
{
    let u = rng_unit(rng);
    let d = fx_sub(max, min);
    let off = fx_mul(d, u);
    proof {
        let di = d as int;
        let ui = u as int;
        if di == 0 {
            assert(iabs(0) * iabs(ui) == 0) by (nonlinear_arith);
            lemma_fx_mul_bound(0, ui, 0);
        } else {
            assert(iabs(di) * iabs(ui) <= di * 65536) by (nonlinear_arith)
                requires
                    0 < di <= 0x2_0000_0000_0000,
                    0 <= ui < 65536,
            ;
            lemma_fx_mul_bound(di, ui, di * 65536);
            assert(tdiv(di * ui, 65536) == (di * ui) / 65536);
            assert(di * ui >= 0) by (nonlinear_arith)
                requires
                    di >= 0,
                    ui >= 0,
            ;
            vstd::arithmetic::div_mod::lemma_div_pos_is_pos(di * ui, 65536);
            assert(di * ui < 65536 * di) by (nonlinear_arith)
                requires
                    0 < di,
                    ui < 65536,
            ;
            vstd::arithmetic::div_mod::lemma_multiply_divide_lt(di * ui, 65536, di);
            assert(0 <= (off as int) && (off as int) < di);
        }
    }
    fx_add(min, off)
}

} // verus!
