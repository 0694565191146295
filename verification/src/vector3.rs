//! Three-component vectors over Q47.16 fixed-point scalars, used for
//! points, directions and offsets.  Every method is pinned to a spec
//! mirror, and the algebraic laws (commutativity of the dot product,
//! antisymmetry of the cross product) are proved below.

use vstd::prelude::*;
use crate::fixed::{
    fx_add, fx_sub, fx_neg, fx_mul, fx_div, fx_sqrt, fx_abs, fx_min,
    fx_add_spec, fx_sub_spec, fx_neg_spec, fx_mul_spec, fx_div_spec, fx_sqrt_spec, fx_abs_spec,
    iabs, tdiv, sat64, lemma_fx_mul_bound, FX_ONE,
};

verus! {

#[derive(Clone, Copy, Debug, PartialEq, Eq, Structural)]
pub struct Vector3 {
    pub x: i64,
    pub y: i64,
    pub z: i64,
}

/// The componentwise sum.
pub open spec fn vadd_spec(a: Vector3, b: Vector3) -> Vector3 {
    Vector3 {
        x: fx_add_spec(a.x as int, b.x as int) as i64,
        y: fx_add_spec(a.y as int, b.y as int) as i64,
        z: fx_add_spec(a.z as int, b.z as int) as i64,
    }
}

/// The componentwise difference.
pub open spec fn vsub_spec(a: Vector3, b: Vector3) -> Vector3 {
    Vector3 {
        x: fx_sub_spec(a.x as int, b.x as int) as i64,
        y: fx_sub_spec(a.y as int, b.y as int) as i64,
        z: fx_sub_spec(a.z as int, b.z as int) as i64,
    }
}

/// The componentwise negation.
pub open spec fn vneg_spec(a: Vector3) -> Vector3 {
    Vector3 {
        x: fx_neg_spec(a.x as int) as i64,
        y: fx_neg_spec(a.y as int) as i64,
        z: fx_neg_spec(a.z as int) as i64,
    }
}

/// The vector scaled by a fixed-point scalar.
pub open spec fn vmul_spec(a: Vector3, k: int) -> Vector3 {
    Vector3 {
        x: fx_mul_spec(a.x as int, k) as i64,
        y: fx_mul_spec(a.y as int, k) as i64,
        z: fx_mul_spec(a.z as int, k) as i64,
    }
}

/// The componentwise product.
pub open spec fn vmul_vec_spec(a: Vector3, b: Vector3) -> Vector3 {
    Vector3 {
        x: fx_mul_spec(a.x as int, b.x as int) as i64,
        y: fx_mul_spec(a.y as int, b.y as int) as i64,
        z: fx_mul_spec(a.z as int, b.z as int) as i64,
    }
}

/// The vector divided by a nonzero fixed-point scalar.
pub open spec fn vdiv_spec(a: Vector3, k: int) -> Vector3 {
    Vector3 {
        x: fx_div_spec(a.x as int, k) as i64,
        y: fx_div_spec(a.y as int, k) as i64,
        z: fx_div_spec(a.z as int, k) as i64,
    }
}

/// The dot product: the three componentwise products summed left to right.
pub open spec fn dot_spec(a: Vector3, b: Vector3) -> int {
    fx_add_spec(
        fx_add_spec(
            fx_mul_spec(b.x as int, a.x as int),
            fx_mul_spec(b.y as int, a.y as int),
        ),
        fx_mul_spec(b.z as int, a.z as int),
    )
}

/// The squared Euclidean length: the dot product of the vector with itself.
pub open spec fn length_squared_spec(a: Vector3) -> int {
    dot_spec(a, a)
}

/// The Euclidean length: fixed-point square root of the squared length.
pub open spec fn length_spec(a: Vector3) -> int {
    fx_sqrt_spec(length_squared_spec(a))
}

/// The cross product.
pub open spec fn cross_spec(a: Vector3, b: Vector3) -> Vector3 {
    Vector3 {
        x: fx_sub_spec(fx_mul_spec(a.y as int, b.z as int), fx_mul_spec(a.z as int, b.y as int))
            as i64,
        y: fx_sub_spec(fx_mul_spec(a.z as int, b.x as int), fx_mul_spec(a.x as int, b.z as int))
            as i64,
        z: fx_sub_spec(fx_mul_spec(a.x as int, b.y as int), fx_mul_spec(a.y as int, b.x as int))
            as i64,
    }
}

/// A vector whose magnitude lies below every positive fixed-point step:
/// at this resolution that is exactly the zero vector.
pub open spec fn near_zero_spec(a: Vector3) -> bool {
    a.x == 0 && a.y == 0 && a.z == 0
}

/// The normalized vector; a vector whose computed length truncates to
/// zero cannot be normalized at this resolution and is returned as it is.
pub open spec fn unit_spec(a: Vector3) -> Vector3 {
    if length_spec(a) <= 0 {
        a
    } else {
        vdiv_spec(a, length_spec(a))
    }
}

/// The mirror image about a normal: `v - n * (v . n) * 2`.
pub open spec fn reflect_spec(v: Vector3, n: Vector3) -> Vector3 {
    vsub_spec(v, vmul_spec(vmul_spec(n, dot_spec(v, n)), 2 * FX_ONE))
}

/// Snell refraction of `v` about `n` with the given ratio of refractive
/// indices: the perpendicular part `(v + n * cos_theta) * ratio` plus the
/// parallel part `n * (-sqrt(|1 - |perp|^2|))`.
pub open spec fn refract_spec(v: Vector3, n: Vector3, ratio: int) -> Vector3 {
    let cos_theta = if fx_neg_spec(dot_spec(v, n)) <= FX_ONE as int {
        fx_neg_spec(dot_spec(v, n))
    } else {
        FX_ONE as int
    };
    let perp = vmul_spec(vadd_spec(v, vmul_spec(n, cos_theta)), ratio);
    let par = vmul_spec(
        n,
        fx_neg_spec(fx_sqrt_spec(fx_abs_spec(fx_sub_spec(FX_ONE as int, length_squared_spec(perp))))),
    );
    vadd_spec(perp, par)
}

/// Every squared fixed-point scalar is non-negative, so squared lengths are.
pub proof fn lemma_length_squared_nonneg(a: Vector3)
    ensures
        length_squared_spec(a) >= 0,
{
    crate::fixed::lemma_fx_square_nonneg(a.x as int);
    crate::fixed::lemma_fx_square_nonneg(a.y as int);
    crate::fixed::lemma_fx_square_nonneg(a.z as int);
}

impl Vector3 {
    pub fn new(x: i64, y: i64, z: i64) -> (r: Self)
        ensures
            r == (Vector3 { x, y, z }),
    {
        Vector3 { x, y, z }
    }

    pub fn add(&self, rhs: Vector3) -> (r: Vector3)
        ensures
            r == vadd_spec(*self, rhs),
    {
        Vector3 { x: fx_add(self.x, rhs.x), y: fx_add(self.y, rhs.y), z: fx_add(self.z, rhs.z) }
    }

    pub fn sub(&self, rhs: Vector3) -> (r: Vector3)
        ensures
            r == vsub_spec(*self, rhs),
    {
        Vector3 { x: fx_sub(self.x, rhs.x), y: fx_sub(self.y, rhs.y), z: fx_sub(self.z, rhs.z) }
    }

    pub fn neg(&self) -> (r: Vector3)
        ensures
            r == vneg_spec(*self),
    {
        Vector3 { x: fx_neg(self.x), y: fx_neg(self.y), z: fx_neg(self.z) }
    }

    pub fn mul(&self, rhs: i64) -> (r: Vector3)
        ensures
            r == vmul_spec(*self, rhs as int),
    {
        Vector3 { x: fx_mul(self.x, rhs), y: fx_mul(self.y, rhs), z: fx_mul(self.z, rhs) }
    }

    pub fn mul_vec(&self, rhs: Vector3) -> (r: Vector3)
        ensures
            r == vmul_vec_spec(*self, rhs),
    {
        Vector3 { x: fx_mul(self.x, rhs.x), y: fx_mul(self.y, rhs.y), z: fx_mul(self.z, rhs.z) }
    }

    pub fn div(&self, rhs: i64) -> (r: Vector3)
        requires
            rhs != 0,
        ensures
            r == vdiv_spec(*self, rhs as int),
    {
        Vector3 { x: fx_div(self.x, rhs), y: fx_div(self.y, rhs), z: fx_div(self.z, rhs) }
    }

    pub fn dot(&self, u: Vector3) -> (r: i64)
        ensures
            r as int == dot_spec(*self, u),
    {
        fx_add(fx_add(fx_mul(u.x, self.x), fx_mul(u.y, self.y)), fx_mul(u.z, self.z))
    }

    pub fn length_squared(&self) -> (r: i64)
        ensures
            r as int == length_squared_spec(*self),
            r >= 0,
    {
        proof {
            lemma_length_squared_nonneg(*self);
        }
        self.dot(*self)
    }

    pub fn length(&self) -> (r: i64)
        ensures
            r as int == length_spec(*self),
            r >= 0,
    {
        fx_sqrt(self.length_squared())
    }

    pub fn cross(&self, u: Vector3) -> (r: Vector3)
        ensures
            r == cross_spec(*self, u),
    {
        Vector3 {
            x: fx_sub(fx_mul(self.y, u.z), fx_mul(self.z, u.y)),
            y: fx_sub(fx_mul(self.z, u.x), fx_mul(self.x, u.z)),
            z: fx_sub(fx_mul(self.x, u.y), fx_mul(self.y, u.x)),
        }
    }

    pub fn unit(&self) -> (r: Vector3)
        ensures
            r == unit_spec(*self),
    {
        let len = self.length();
        if len <= 0 {
            *self
        } else {
            self.div(len)
        }
    }

    pub fn near_zero(&self) -> (r: bool)
        ensures
            r == near_zero_spec(*self),
    {
        self.x == 0 && self.y == 0 && self.z == 0
    }

    pub fn reflect(&self, normal: Vector3) -> (r: Vector3)
        ensures
            r == reflect_spec(*self, normal),
    {
        self.sub(normal.mul(self.dot(normal)).mul(2 * FX_ONE))
    }

    pub fn refract(&self, normal: Vector3, snell_refrac_ratio: i64) -> (r: Vector3)
        ensures
            r == refract_spec(*self, normal, snell_refrac_ratio as int),
    {
        let cos_theta = fx_min(fx_neg(self.dot(normal)), FX_ONE);
        let r_out_perp = self.add(normal.mul(cos_theta)).mul(snell_refrac_ratio);
        let r_out_parallel = normal.mul(
            fx_neg(fx_sqrt(fx_abs(fx_sub(FX_ONE, r_out_perp.length_squared())))),
        );
        r_out_perp.add(r_out_parallel)
    }
}

/// The dot product is commutative, for every pair of vectors: each
/// componentwise fixed-point product commutes exactly.
pub proof fn lemma_dot_comm(a: Vector3, b: Vector3)
    ensures
        dot_spec(a, b) == dot_spec(b, a),
{
    assert((a.x as int) * (b.x as int) == (b.x as int) * (a.x as int)) by (nonlinear_arith);
    assert((a.y as int) * (b.y as int) == (b.y as int) * (a.y as int)) by (nonlinear_arith);
    assert((a.z as int) * (b.z as int) == (b.z as int) * (a.z as int)) by (nonlinear_arith);
}

/// The cross product is antisymmetric: `a x b == -(b x a)`, for all
/// vectors whose components stay below 2^38 raw units, so that no
/// intermediate saturates (at the saturation rail the negation of a
/// clamped difference can differ by one step).
pub proof fn lemma_cross_antisym(a: Vector3, b: Vector3)
    requires
        iabs(a.x as int) <= 0x40_0000_0000,
        iabs(a.y as int) <= 0x40_0000_0000,
        iabs(a.z as int) <= 0x40_0000_0000,
        iabs(b.x as int) <= 0x40_0000_0000,
        iabs(b.y as int) <= 0x40_0000_0000,
        iabs(b.z as int) <= 0x40_0000_0000,
    ensures
        cross_spec(a, b) == vneg_spec(cross_spec(b, a)),
{
    lemma_cross_component(a.y as int, b.z as int, a.z as int, b.y as int);
    lemma_cross_component(a.z as int, b.x as int, a.x as int, b.z as int);
    lemma_cross_component(a.x as int, b.y as int, a.y as int, b.x as int);
}

/// One component of the antisymmetry: with all four factors below 2^38,
/// `sat(p*q - r*s)` is exact and equals `-sat(s*r - q*p)`.
proof fn lemma_cross_component(p: int, q: int, r: int, s: int)
    requires
        iabs(p) <= 0x40_0000_0000,
        iabs(q) <= 0x40_0000_0000,
        iabs(r) <= 0x40_0000_0000,
        iabs(s) <= 0x40_0000_0000,
    ensures
        fx_sub_spec(fx_mul_spec(p, q), fx_mul_spec(r, s)) == fx_neg_spec(
            fx_sub_spec(fx_mul_spec(s, r), fx_mul_spec(q, p)),
        ),
{
    assert(iabs(p) * iabs(q) <= 0x1000_0000_0000_0000_0000) by (nonlinear_arith)
        requires
            iabs(p) <= 0x40_0000_0000,
            iabs(q) <= 0x40_0000_0000,
            iabs(p) >= 0,
            iabs(q) >= 0,
    ;
    assert(iabs(r) * iabs(s) <= 0x1000_0000_0000_0000_0000) by (nonlinear_arith)
        requires
            iabs(r) <= 0x40_0000_0000,
            iabs(s) <= 0x40_0000_0000,
            iabs(r) >= 0,
            iabs(s) >= 0,
    ;
    lemma_fx_mul_bound(p, q, 0x1000_0000_0000_0000_0000);
    lemma_fx_mul_bound(r, s, 0x1000_0000_0000_0000_0000);
    lemma_fx_mul_bound(s, r, 0x1000_0000_0000_0000_0000);
    lemma_fx_mul_bound(q, p, 0x1000_0000_0000_0000_0000);
    assert(p * q == q * p) by (nonlinear_arith);
    assert(r * s == s * r) by (nonlinear_arith);
    let m1 = fx_mul_spec(p, q);
    let m2 = fx_mul_spec(r, s);
    assert(iabs(m1) <= 0x1000_0000_0000_0000_0000int / 65536);
    assert(iabs(m2) <= 0x1000_0000_0000_0000_0000int / 65536);
    assert(fx_sub_spec(m1, m2) == m1 - m2);
    assert(fx_sub_spec(m2, m1) == m2 - m1);
    assert(fx_neg_spec(m2 - m1) == m1 - m2);
}


/// One component of a normalization: when the squared length is
/// positive, the computed length underestimates the true one by less
/// than one step, so each quotient stays strictly below two.
proof fn lemma_unit_quotient_bound(y: int, my: int, ls: int, len: int)
    requires
        my == tdiv(y * y, 65536),
        0 <= my <= ls,
        256 <= len,
        len * len <= ls * 65536,
        ls * 65536 < (len + 1) * (len + 1),
    ensures
        iabs(fx_div_spec(y, len)) < 131072,
{
    assert(y * y >= 0) by (nonlinear_arith);
    assert(y * y == iabs(y) * iabs(y)) by (nonlinear_arith);
    vstd::arithmetic::div_mod::lemma_fundamental_div_mod(y * y, 65536);
    assert(y * y < (my + 1) * 65536);
    if iabs(y) >= 2 * len {
        assert(iabs(y) * iabs(y) >= (2 * len) * (2 * len)) by (nonlinear_arith)
            requires
                iabs(y) >= 2 * len,
                len >= 0,
        ;
        assert((2 * len) * (2 * len) == 4 * (len * len)) by (nonlinear_arith);
        assert(y * y < ls * 65536 + 65536);
        assert(4 * (len * len) < (len + 1) * (len + 1) + 65536);
        assert(false) by (nonlinear_arith)
            requires
                len >= 256,
                4 * (len * len) < (len + 1) * (len + 1) + 65536,
        ;
    }
    assert(iabs(y) * 65536 < 131072 * len);
    assert(iabs(y * 65536) == iabs(y) * 65536);
    assert(131072 * len == len * 131072) by (nonlinear_arith);
    vstd::arithmetic::div_mod::lemma_multiply_divide_lt(iabs(y) * 65536, len, 131072);
    vstd::arithmetic::div_mod::lemma_div_pos_is_pos(iabs(y) * 65536, len);
    assert(iabs(tdiv(y * 65536, len)) == (iabs(y) * 65536) / len);
}

/// Normalizing a vector of moderate magnitude (components up to 2^38 raw
/// units, where no intermediate saturates) keeps every component of the
/// result strictly below two: a vector of squared length zero is kept
/// with its sub-step components, and otherwise the computed length is
/// close enough to the true one to bound each quotient.
pub proof fn lemma_unit_component_bound(v: Vector3)
    requires
        iabs(v.x as int) <= 0x40_0000_0000,
        iabs(v.y as int) <= 0x40_0000_0000,
        iabs(v.z as int) <= 0x40_0000_0000,
    ensures
        iabs(unit_spec(v).x as int) < 131072,
        iabs(unit_spec(v).y as int) < 131072,
        iabs(unit_spec(v).z as int) < 131072,
{
    lemma_square_term(v.x as int);
    lemma_square_term(v.y as int);
    lemma_square_term(v.z as int);
    let m1 = fx_mul_spec(v.x as int, v.x as int);
    let m2 = fx_mul_spec(v.y as int, v.y as int);
    let m3 = fx_mul_spec(v.z as int, v.z as int);
    let ls = length_squared_spec(v);
    assert(ls == m1 + m2 + m3);
    let len = length_spec(v);
    crate::fixed::lemma_sqrt_floor_exists(ls * 65536);
    if len <= 0 {
        assert(m1 == 0 && m2 == 0 && m3 == 0) by {
            if ls >= 1 {
                assert(ls * 65536 >= 65536) by (nonlinear_arith)
                    requires
                        ls >= 1,
                ;
                if len + 1 <= 256 {
                    assert((len + 1) * (len + 1) <= 65536) by (nonlinear_arith)
                        requires
                            0 <= len + 1 <= 256,
                    ;
                }
                assert(false);
            }
        }
        lemma_zero_square_small(v.x as int);
        lemma_zero_square_small(v.y as int);
        lemma_zero_square_small(v.z as int);
    } else {
        assert(ls >= 1) by {
            if ls == 0 {
                assert(len * len <= 0);
                assert(len * len >= 1) by (nonlinear_arith)
                    requires
                        len >= 1,
                ;
            }
        }
        assert(len >= 256) by {
            assert(ls * 65536 >= 65536) by (nonlinear_arith)
                requires
                    ls >= 1,
            ;
            if len + 1 <= 256 {
                assert((len + 1) * (len + 1) <= 65536) by (nonlinear_arith)
                    requires
                        0 <= len + 1 <= 256,
                ;
            }
        }
        lemma_unit_quotient_bound(v.x as int, m1, ls, len);
        lemma_unit_quotient_bound(v.y as int, m2, ls, len);
        lemma_unit_quotient_bound(v.z as int, m3, ls, len);
    }
}

/// A squared component up to 2^38 neither saturates nor goes negative.
proof fn lemma_square_term(c: int)
    requires
        iabs(c) <= 0x40_0000_0000,
    ensures
        fx_mul_spec(c, c) == tdiv(c * c, 65536),
        0 <= fx_mul_spec(c, c) <= 0x1000_0000_0000_0000_0000int / 65536,
{
    assert(iabs(c) * iabs(c) <= 0x1000_0000_0000_0000_0000) by (nonlinear_arith)
        requires
            0 <= iabs(c) <= 0x40_0000_0000,
    ;
    lemma_fx_mul_bound(c, c, 0x1000_0000_0000_0000_0000);
    crate::fixed::lemma_fx_square_nonneg(c);
}

/// A component whose square truncates to zero is below one quarter of a
/// step in magnitude.
proof fn lemma_zero_square_small(c: int)
    requires
        tdiv(c * c, 65536) == 0,
    ensures
        iabs(c) <= 255,
{
    assert(c * c >= 0) by (nonlinear_arith);
    vstd::arithmetic::div_mod::lemma_fundamental_div_mod(c * c, 65536);
    assert(c * c < 65536);
    if iabs(c) >= 256 {
        assert(iabs(c) * iabs(c) >= 65536) by (nonlinear_arith)
            requires
                iabs(c) >= 256,
        ;
        assert(c * c == iabs(c) * iabs(c)) by (nonlinear_arith);
        assert(false);
    }
}

} // verus!
