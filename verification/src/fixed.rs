//! Q47.16 fixed-point scalars: an `i64` holds the real value times 2^16.
//!
//! Multiplication and division truncate toward zero (as the reference
//! real-number operations round toward zero at this resolution), and all
//! operations saturate at the `i64` range, so every scalar operation is
//! total.  Each executable operation is pinned to a spec-level mirror
//! over `int`, so callers reason about exact mathematical values.

use vstd::prelude::*;

verus! {

/// Number of raw units per real unit: the fixed-point scale.
pub const FX_SCALE: i64 = 65536;

/// The raw representation of the real number one.
pub const FX_ONE: i64 = 65536;

/// The raw representation of the real number one half.
pub const FX_HALF: i64 = 32768;

/// Absolute value over mathematical integers.
pub open spec fn iabs(a: int) -> int {
    if a < 0 { -a } else { a }
}

/// Division truncating toward zero, as Rust's `/` on signed integers.
pub open spec fn tdiv(a: int, b: int) -> int {
    if (a < 0) == (b < 0) {
        iabs(a) / iabs(b)
    } else {
        -(iabs(a) / iabs(b))
    }
}

/// Saturation to the `i64` range.
pub open spec fn sat64(v: int) -> int {
    if v < i64::MIN { i64::MIN as int } else if v > i64::MAX { i64::MAX as int } else { v }
}

/// The fixed-point sum: exact sum, saturated.
pub open spec fn fx_add_spec(a: int, b: int) -> int {
    sat64(a + b)
}

/// The fixed-point difference: exact difference, saturated.
pub open spec fn fx_sub_spec(a: int, b: int) -> int {
    sat64(a - b)
}

/// The fixed-point negation, saturated (the negation of `i64::MIN` clamps).
pub open spec fn fx_neg_spec(a: int) -> int {
    sat64(-a)
}

/// The fixed-point product: exact product rescaled with truncation, saturated.
pub open spec fn fx_mul_spec(a: int, b: int) -> int {
    sat64(tdiv(a * b, FX_SCALE as int))
}

/// The fixed-point quotient: numerator rescaled, truncating division, saturated.
pub open spec fn fx_div_spec(a: int, b: int) -> int {
    sat64(tdiv(a * FX_SCALE, b))
}

/// The unique integer square root floor: `sqrt_floor(x)^2 <= x < (sqrt_floor(x)+1)^2`.
pub open spec fn sqrt_floor(x: int) -> int {
    choose|r: int| 0 <= r && #[trigger] (r * r) <= x && x < (r + 1) * (r + 1)
}

/// The fixed-point square root of a non-negative scalar: the real square
/// root of `a / 2^16` is `sqrt(a * 2^16) / 2^16`, rounded down.
pub open spec fn fx_sqrt_spec(a: int) -> int {
    sqrt_floor(a * FX_SCALE)
}

/// Any witness of the square-root-floor property is the square root floor.
pub proof fn lemma_sqrt_floor_is(x: int, r: int)
    requires
        0 <= r,
        r * r <= x,
        x < (r + 1) * (r + 1),
    ensures
        sqrt_floor(x) == r,
{
    assert(0 <= r && #[trigger] (r * r) <= x && x < (r + 1) * (r + 1));
    let s = choose|s: int| 0 <= s && #[trigger] (s * s) <= x && x < (s + 1) * (s + 1);
    if s < r {
        assert((s + 1) * (s + 1) <= r * r) by (nonlinear_arith)
            requires
                0 <= s + 1,
                s + 1 <= r,
        ;
        assert(false);
    }
    if s > r {
        assert((r + 1) * (r + 1) <= s * s) by (nonlinear_arith)
            requires
                0 <= r + 1,
                r + 1 <= s,
        ;
        assert(false);
    }
}

/// Scaling by a factor of at most one dims: the product stays between
/// zero and the other operand.
pub proof fn lemma_fx_mul_unit(a: int, b: int)
    requires
        0 <= a <= 65536,
        0 <= b <= 0x7FFF_FFFF_FFFF_FFFF,
    ensures
        0 <= fx_mul_spec(a, b) <= b,
{
    assert(a * b >= 0) by (nonlinear_arith)
        requires
            a >= 0,
            b >= 0,
    ;
    assert(a * b <= 65536 * b) by (nonlinear_arith)
        requires
            0 <= a <= 65536,
            b >= 0,
    ;
    assert(tdiv(a * b, 65536) == (a * b) / 65536);
    vstd::arithmetic::div_mod::lemma_div_pos_is_pos(a * b, 65536);
    lemma_tdiv_monotone(a * b, 65536 * b, 65536);
    assert(tdiv(65536 * b, 65536) == b) by {
        vstd::arithmetic::div_mod::lemma_div_multiples_vanish(b, 65536);
        assert(65536 * b == b * 65536) by (nonlinear_arith);
    }
}

/// Rescaling by one is exact: multiplying by the fixed-point one and
/// truncating gives the value back.
pub proof fn lemma_fx_mul_one(c: int)
    requires
        iabs(c) <= 0x7FFF_FFFF_FFFF_FFFF,
    ensures
        fx_mul_spec(65536, c) == c,
{
    assert(iabs(65536 * c) == 65536 * iabs(c));
    assert(tdiv(65536 * c, 65536) == if c >= 0 { (65536 * c) / 65536 } else { -((65536 * iabs(c))
        / 65536) });
    vstd::arithmetic::div_mod::lemma_div_multiples_vanish(c, 65536);
    vstd::arithmetic::div_mod::lemma_div_multiples_vanish(iabs(c), 65536);
    assert(65536 * iabs(c) == iabs(c) * 65536) by (nonlinear_arith);
    assert(65536 * c == c * 65536) by (nonlinear_arith);
}

/// A fixed-point square is non-negative.
pub proof fn lemma_fx_square_nonneg(v: int)
    ensures
        fx_mul_spec(v, v) >= 0,
{
    assert(v * v == iabs(v) * iabs(v)) by (nonlinear_arith);
    assert(iabs(v) * iabs(v) >= 0) by (nonlinear_arith);
    assert(tdiv(v * v, 65536) == iabs(v * v) / 65536);
    vstd::arithmetic::div_mod::lemma_div_pos_is_pos(iabs(v * v), 65536);
}

/// Every non-negative integer has a square root floor, so `sqrt_floor`
/// denotes it and inherits its properties.
pub proof fn lemma_sqrt_floor_exists(x: int)
    requires
        x >= 0,
    ensures
        sqrt_floor(x) >= 0,
        sqrt_floor(x) * sqrt_floor(x) <= x,
        x < (sqrt_floor(x) + 1) * (sqrt_floor(x) + 1),
    decreases x,
{
    if x == 0 {
        lemma_sqrt_floor_is(0, 0);
    } else {
        lemma_sqrt_floor_exists(x - 1);
        let r = sqrt_floor(x - 1);
        if x < (r + 1) * (r + 1) {
            lemma_sqrt_floor_is(x, r);
        } else {
            assert(x == (r + 1) * (r + 1));
            assert((r + 1) * (r + 1) < (r + 2) * (r + 2)) by (nonlinear_arith)
                requires
                    r >= 0,
            ;
            lemma_sqrt_floor_is(x, r + 1);
        }
    }
}

/// Saturation keeps order.
pub proof fn lemma_sat64_monotone(x: int, y: int)
    requires
        x <= y,
    ensures
        sat64(x) <= sat64(y),
{
}

/// Division truncating toward zero keeps order, for a positive divisor.
pub proof fn lemma_tdiv_monotone(x: int, y: int, d: int)
    requires
        x <= y,
        d > 0,
    ensures
        tdiv(x, d) <= tdiv(y, d),
{
    if x >= 0 {
        vstd::arithmetic::div_mod::lemma_div_is_ordered(x, y, d);
    } else if y >= 0 {
        vstd::arithmetic::div_mod::lemma_div_pos_is_pos(-x, d);
        vstd::arithmetic::div_mod::lemma_div_pos_is_pos(y, d);
    } else {
        vstd::arithmetic::div_mod::lemma_div_is_ordered(-y, -x, d);
    }
}

/// The fixed-point quotient keeps order, for a positive divisor.
pub proof fn lemma_fx_div_monotone(x: int, y: int, d: int)
    requires
        x <= y,
        d > 0,
    ensures
        fx_div_spec(x, d) <= fx_div_spec(y, d),
{
    lemma_tdiv_monotone(x * 65536, y * 65536, d);
    lemma_sat64_monotone(tdiv(x * 65536, d), tdiv(y * 65536, d));
}

/// Clamps an exact `i128` value into the `i64` range.
fn sat_to_i64(q: i128) -> (r: i64)
    ensures
        r as int == sat64(q as int),
{
    if q > i64::MAX as i128 {
        i64::MAX
    } else if q < i64::MIN as i128 {
        i64::MIN
    } else {
        q as i64
    }
}

/// Division of `i128` values truncating toward zero, via magnitudes, so
/// that the result matches Rust's signed division semantics exactly.
fn tdiv_i128(a: i128, b: i128) -> (r: i128)
    requires
        b != 0,
        a != i128::MIN,
        b != i128::MIN,
    ensures
        r as int == tdiv(a as int, b as int),
{
    let an: u128 = if a >= 0 { a as u128 } else { (-a) as u128 };
    let bn: u128 = if b >= 0 { b as u128 } else { (-b) as u128 };
    assert(an as int == iabs(a as int));
    assert(bn as int == iabs(b as int));
    let q: u128 = an / bn;
    assert(q <= an) by {
        vstd::arithmetic::div_mod::lemma_div_nonincreasing(an as int, bn as int);
    }
    if (a >= 0) == (b >= 0) {
        q as i128
    } else {
        -(q as i128)
    }
}

/// Saturating fixed-point addition.
pub fn fx_add(a: i64, b: i64) -> (r: i64)
    ensures
        r as int == fx_add_spec(a as int, b as int),
{
    let s: i128 = (a as i128) + (b as i128);
    sat_to_i64(s)
}

/// Saturating fixed-point subtraction.
pub fn fx_sub(a: i64, b: i64) -> (r: i64)
    ensures
        r as int == fx_sub_spec(a as int, b as int),
{
    let s: i128 = (a as i128) - (b as i128);
    sat_to_i64(s)
}

/// Saturating fixed-point negation.
pub fn fx_neg(a: i64) -> (r: i64)
    ensures
        r as int == fx_neg_spec(a as int),
{
    let s: i128 = -(a as i128);
    sat_to_i64(s)
}

/// Saturating fixed-point multiplication.
pub fn fx_mul(a: i64, b: i64) -> (r: i64)
    ensures
        r as int == fx_mul_spec(a as int, b as int),
{
    proof {
        assert(-0x4000_0000_0000_0000_0000_0000_0000_0000 <= (a as int) * (b as int)
            <= 0x4000_0000_0000_0000_0000_0000_0000_0000) by (nonlinear_arith)
            requires
                -0x8000_0000_0000_0000 <= a as int <= 0x7FFF_FFFF_FFFF_FFFF,
                -0x8000_0000_0000_0000 <= b as int <= 0x7FFF_FFFF_FFFF_FFFF,
        ;
    }
    let p: i128 = (a as i128) * (b as i128);
    let q: i128 = tdiv_i128(p, 65536);
    sat_to_i64(q)
}

/// Saturating fixed-point division; the divisor must be nonzero.
pub fn fx_div(a: i64, b: i64) -> (r: i64)
    requires
        b != 0,
    ensures
        r as int == fx_div_spec(a as int, b as int),
{
    let n: i128 = (a as i128) * 65536;
    let q: i128 = tdiv_i128(n, b as i128);
    sat_to_i64(q)
}

/// The integer square root floor of an arbitrary `u128`.
fn isqrt_u128(x: u128) -> (r: u128)
    ensures
        r * r <= x < (r + 1) * (r + 1),
{
    let mut lo: u128 = 0;
    let mut hi: u128 = 0x1_0000_0000_0000_0000;
    assert((x as int) < (hi as int) * (hi as int)) by (nonlinear_arith)
        requires
            x <= 0xFFFF_FFFF_FFFF_FFFF_FFFF_FFFF_FFFF_FFFF,
            hi == 0x1_0000_0000_0000_0000,
    ;
    while lo + 1 < hi
        invariant
            lo < hi <= 0x1_0000_0000_0000_0000,
            (lo as int) * (lo as int) <= x as int,
            (x as int) < (hi as int) * (hi as int),
        decreases hi - lo,
    {
        let mid: u128 = lo + (hi - lo) / 2;
        assert(lo < mid < hi);
        let quot: u128 = x / mid;
        proof {
            vstd::arithmetic::div_mod::lemma_fundamental_div_mod(x as int, mid as int);
        }
        if mid <= quot {
            assert((mid as int) * (mid as int) <= x as int) by (nonlinear_arith)
                requires
                    0 < mid as int,
                    mid as int <= quot as int,
                    x as int == (mid as int) * (quot as int) + (x as int) % (mid as int),
                    (x as int) % (mid as int) >= 0,
            ;
            lo = mid;
        } else {
            assert((x as int) < (mid as int) * (mid as int)) by (nonlinear_arith)
                requires
                    0 < mid as int,
                    (quot as int) + 1 <= mid as int,
                    x as int == (mid as int) * (quot as int) + (x as int) % (mid as int),
                    (x as int) % (mid as int) < mid as int,
            ;
            hi = mid;
        }
    }
    lo
}

/// Saturating fixed-point square root of a non-negative scalar.
pub fn fx_sqrt(a: i64) -> (r: i64)
    requires
        a >= 0,
    ensures
        r as int == fx_sqrt_spec(a as int),
        r >= 0,
{
    let x: u128 = (a as u128) * 65536;
    assert(x as int == (a as int) * 65536);
    assert(x <= 0x7FFF_FFFF_FFFF_FFFF * 65536);
    let s: u128 = isqrt_u128(x);
    assert(s < 0x1_0000_0000_0000) by (nonlinear_arith)
        requires
            (s as int) * (s as int) <= x as int,
            x as int <= 0x7FFF_FFFF_FFFF_FFFF * 65536,
    ;
    let r: i64 = s as i64;
    proof {
        lemma_sqrt_floor_is(x as int, s as int);
    }
    r
}

/// Conversion of a small integer to its fixed-point representation.
pub fn fx_from_int(i: i64) -> (r: i64)
    ensures
        r as int == sat64(i * FX_SCALE),
{
    let p: i128 = (i as i128) * 65536;
    sat_to_i64(p)
}

/// The fixed-point absolute value, saturated (the magnitude of `i64::MIN` clamps).
pub open spec fn fx_abs_spec(a: int) -> int {
    sat64(iabs(a))
}

/// Saturating fixed-point absolute value.
pub fn fx_abs(a: i64) -> (r: i64)
    ensures
        r as int == fx_abs_spec(a as int),
        r >= 0,
{
    if a >= 0 {
        a
    } else if a == i64::MIN {
        i64::MAX
    } else {
        -a
    }
}

/// A magnitude bound on a fixed-point product: when the exact magnitudes
/// multiply to at most `m`, and `m` rescaled stays in range, the product
/// does not saturate and its magnitude is at most `m` rescaled.
pub proof fn lemma_fx_mul_bound(a: int, b: int, m: int)
    requires
        iabs(a) * iabs(b) <= m,
        m <= 0x7FFF_FFFF_FFFF_FFFF * 65536,
    ensures
        fx_mul_spec(a, b) == tdiv(a * b, 65536),
        iabs(fx_mul_spec(a, b)) <= m / 65536,
        iabs(tdiv(a * b, 65536)) <= m / 65536,
{
    assert(iabs(a * b) == iabs(a) * iabs(b)) by (nonlinear_arith);
    assert(0 <= iabs(a) * iabs(b)) by (nonlinear_arith);
    let p = a * b;
    assert(tdiv(p, 65536) == if p >= 0 { iabs(p) / 65536 } else { -(iabs(p) / 65536) });
    vstd::arithmetic::div_mod::lemma_div_is_ordered(iabs(p), m, 65536);
    assert(iabs(p) / 65536 >= 0) by {
        vstd::arithmetic::div_mod::lemma_div_pos_is_pos(iabs(p), 65536);
    }
    assert(iabs(tdiv(p, 65536)) <= m / 65536);
    assert(m / 65536 <= 0x7FFF_FFFF_FFFF_FFFF) by {
        vstd::arithmetic::div_mod::lemma_div_is_ordered(m, 0x7FFF_FFFF_FFFF_FFFF as int * 65536, 65536);
        vstd::arithmetic::div_mod::lemma_div_multiples_vanish(0x7FFF_FFFF_FFFF_FFFF, 65536);
    }
    assert(sat64(tdiv(p, 65536)) == tdiv(p, 65536));
}

/// The smaller of two fixed-point scalars.
pub fn fx_min(a: i64, b: i64) -> (r: i64)
    ensures
        r == if a as int <= b as int { a } else { b },
{
    if a <= b {
        a
    } else {
        b
    }
}

} // verus!
