//! Optical materials and their scattering laws.  A material takes an
//! incoming ray and a surface hit and yields either an outgoing scattered
//! ray or a definitive absorption; its attenuation color is a constant of
//! the material, independent of geometry.

use vstd::prelude::*;
use crate::fixed::{
    fx_add, fx_sub, fx_neg, fx_mul, fx_div, fx_sqrt, fx_min,
    fx_add_spec, fx_sub_spec, fx_neg_spec, fx_mul_spec, fx_div_spec, fx_sqrt_spec,
    iabs, tdiv, FX_ONE,
};
use crate::color::RGBColor;
use crate::ray::Ray;
use crate::vector3::{
    Vector3, vadd_spec, vmul_spec, near_zero_spec, unit_spec, reflect_spec, refract_spec,
    dot_spec, length_squared_spec,
};
use crate::hittable::HitRecord;
use crate::utils::random_vec_in_unit_sphere;
use crate::rng::rng_unit;

verus! {

#[derive(Clone, Copy, Debug, PartialEq, Eq, Structural)]
pub enum Material {
    Lambertian(RGBColor),
    Metal(RGBColor, i64),
    Dielectric(RGBColor, i64),
}

/// A well-formed material: every albedo channel is a fraction in
/// `[0, 1]` (so attenuation only dims), a metal's fuzz lies in `[0, 1]`,
/// and a dielectric carries a positive refractive index.
pub open spec fn material_wf(m: Material) -> bool {
    &&& 0 <= attenuation_spec(m).r <= 65536
    &&& 0 <= attenuation_spec(m).g <= 65536
    &&& 0 <= attenuation_spec(m).b <= 65536
    &&& match m {
        Material::Metal(_, fuzz) => 0 <= fuzz <= 65536,
        Material::Dielectric(_, refrac_index) => refrac_index > 0,
        _ => true,
    }
}

/// The fuzz of a metal; zero for the other variants.
pub open spec fn metal_fuzz_spec(m: Material) -> int {
    match m {
        Material::Metal(_, fuzz) => fuzz as int,
        _ => 0,
    }
}

/// The refractive index of a dielectric; zero for the other variants.
pub open spec fn dielectric_index_spec(m: Material) -> int {
    match m {
        Material::Dielectric(_, refrac_index) => refrac_index as int,
        _ => 0,
    }
}

/// The constant attenuation color of each variant.
pub open spec fn attenuation_spec(m: Material) -> RGBColor {
    match m {
        Material::Lambertian(attenuation) => attenuation,
        Material::Metal(attenuation, _) => attenuation,
        Material::Dielectric(attenuation, _) => attenuation,
    }
}

/// The ratio of refractive indices across the surface: entering from the
/// front uses `1 / index`, leaving from inside uses `index`.
pub open spec fn refraction_ratio_spec(front_face: bool, refrac_index: int) -> int {
    if front_face {
        fx_div_spec(65536, refrac_index)
    } else {
        refrac_index
    }
}

/// The cosine of the angle between the reversed unit incoming direction
/// and the normal, capped at one.
pub open spec fn cos_theta_spec(unit_dir: Vector3, normal: Vector3) -> int {
    let d = fx_neg_spec(dot_spec(unit_dir, normal));
    if d <= 65536 {
        d
    } else {
        65536
    }
}

/// The matching sine via `sqrt(1 - cos^2)`; a cosine beyond one (possible
/// for non-unit inputs) would make the radicand negative, and is clamped
/// to a sine of zero.
pub open spec fn sin_theta_spec(unit_dir: Vector3, normal: Vector3) -> int {
    let c = cos_theta_spec(unit_dir, normal);
    let s2 = fx_sub_spec(65536, fx_mul_spec(c, c));
    fx_sqrt_spec(if s2 < 0 { 0 } else { s2 })
}

/// Total internal reflection: Snell's law has no solution when
/// `ratio * sin_theta > 1`.
pub open spec fn cannot_refract_spec(unit_dir: Vector3, normal: Vector3, ratio: int) -> bool {
    fx_mul_spec(ratio, sin_theta_spec(unit_dir, normal)) > 65536
}

/// Schlick's approximation of the Fresnel reflectance:
/// `r0 + (1 - r0) * (1 - cos)^5` with `r0 = ((1 - idx) / (1 + idx))^2`.
pub open spec fn reflectance_spec(cosine: int, ref_idx: int) -> int {
    let r0 = fx_div_spec(fx_sub_spec(65536, ref_idx), fx_add_spec(65536, ref_idx));
    let r0s = fx_mul_spec(r0, r0);
    let omc = fx_sub_spec(65536, cosine);
    let p2 = fx_mul_spec(omc, omc);
    let p4 = fx_mul_spec(p2, p2);
    let p5 = fx_mul_spec(p4, omc);
    fx_add_spec(r0s, fx_mul_spec(fx_sub_spec(65536, r0s), p5))
}

/// The diffuse scatter direction: the normal plus a sampled unit vector,
/// falling back to the bare normal when the sum degenerates to (exactly)
/// zero, so a scattered ray never has a vanishing direction.
pub open spec fn lambertian_direction_spec(normal: Vector3, sampled: Vector3) -> Vector3 {
    if near_zero_spec(vadd_spec(normal, sampled)) {
        normal
    } else {
        vadd_spec(normal, sampled)
    }
}

/// The diffuse scatter direction with its degenerate-sum fallback.
pub fn lambertian_direction(normal: Vector3, sampled: Vector3) -> (d: Vector3)
    ensures
        d == lambertian_direction_spec(normal, sampled),
        near_zero_spec(vadd_spec(normal, sampled)) ==> d == normal,
{
    let sum = normal.add(sampled);
    if sum.near_zero() {
        normal
    } else {
        sum
    }
}

/// A scattered ray this hit's material could produce: it starts at the
/// hit point, and its direction follows the variant's law for some
/// admissible sample — exactly the outcomes `scatter` admits.  Kept
/// opaque so that proofs carry it as one fact unless they need the law.
#[verifier::opaque]
pub open spec fn possible_scatter(rec: HitRecord, r_in: Ray, s: Ray) -> bool {
    &&& s.origin == rec.point
    &&& (rec.material is Lambertian ==> exists|p: Vector3|
        length_squared_spec(p) < 65536 && s.direction == lambertian_direction_spec(
            rec.normal,
            #[trigger] unit_spec(p),
        ))
    &&& (rec.material is Metal ==> dot_spec(s.direction, rec.normal) > 0 && exists|p: Vector3|
        length_squared_spec(p) < 65536 && s.direction == vadd_spec(
            reflect_spec(unit_spec(r_in.direction), rec.normal),
            #[trigger] vmul_spec(p, metal_fuzz_spec(rec.material)),
        ))
    &&& (rec.material is Dielectric ==> {
        let ud = unit_spec(r_in.direction);
        let ratio = refraction_ratio_spec(rec.front_face, dielectric_index_spec(rec.material));
        &&& (cannot_refract_spec(ud, rec.normal, ratio) ==> s.direction == reflect_spec(
            ud,
            rec.normal,
        ))
        &&& (s.direction == reflect_spec(ud, rec.normal) || s.direction == refract_spec(
            ud,
            rec.normal,
            ratio,
        ))
    })
}

/// A fixed-point quotient of positive operands is non-negative.
proof fn lemma_fx_div_pos_nonneg(a: int, b: int)
    requires
        a >= 0,
        b > 0,
    ensures
        fx_div_spec(a, b) >= 0,
{
    assert(tdiv(a * 65536, b) == iabs(a * 65536) / iabs(b));
    vstd::arithmetic::div_mod::lemma_div_pos_is_pos(iabs(a * 65536), iabs(b));
}

impl Material {
    pub fn attenuation(&self) -> (c: RGBColor)
        ensures
            c == attenuation_spec(*self),
    {
        match self {
            Material::Lambertian(attenuation) => *attenuation,
            Material::Metal(attenuation, _fuzz) => *attenuation,
            Material::Dielectric(attenuation, _refrac_index) => *attenuation,
        }
    }

    fn reflectance(&self, cosine: i64, ref_idx: i64) -> (r: i64)
        requires
            ref_idx >= 0,
        ensures
            r as int == reflectance_spec(cosine as int, ref_idx as int),
    {
        let r0 = fx_div(fx_sub(FX_ONE, ref_idx), fx_add(FX_ONE, ref_idx));
        let r0s = fx_mul(r0, r0);
        let omc = fx_sub(FX_ONE, cosine);
        let p2 = fx_mul(omc, omc);
        let p4 = fx_mul(p2, p2);
        let p5 = fx_mul(p4, omc);
        fx_add(r0s, fx_mul(fx_sub(FX_ONE, r0s), p5))
    }

    /// One scattering event.  A diffuse or dielectric surface always
    /// scatters; a fuzzed metal absorbs the ray when the perturbed
    /// reflection would leave through the surface.  Every scattered ray
    /// starts at the hit point.  Under total internal reflection a
    /// dielectric reflects, never refracts; otherwise its outgoing
    /// direction is the reflection or the refraction of the unit incoming
    /// direction, the choice drawn against Schlick's reflectance.
    pub fn scatter(&self, rng: &fastrand::Rng, r_in: &Ray, rec: &HitRecord) -> (r: Option<Ray>)
        requires
            material_wf(*self),
        ensures
            !(*self is Metal) ==> r is Some,
            r is Some ==> r.unwrap().origin == rec.point,
            *self is Lambertian && r is Some ==> exists|p: Vector3|
                length_squared_spec(p) < 65536 && r.unwrap().direction
                    == lambertian_direction_spec(rec.normal, #[trigger] unit_spec(p)),
            *self is Metal && r is Some ==> dot_spec(r.unwrap().direction, rec.normal) > 0,
            *self is Metal && r is Some ==> exists|p: Vector3|
                length_squared_spec(p) < 65536 && r.unwrap().direction == vadd_spec(
                    reflect_spec(unit_spec(r_in.direction), rec.normal),
                    #[trigger] vmul_spec(p, metal_fuzz_spec(*self)),
                ),
            *self is Metal && r is None ==> exists|p: Vector3|
                length_squared_spec(p) < 65536 && dot_spec(
                    vadd_spec(
                        reflect_spec(unit_spec(r_in.direction), rec.normal),
                        #[trigger] vmul_spec(p, metal_fuzz_spec(*self)),
                    ),
                    rec.normal,
                ) <= 0,
            *self is Dielectric && cannot_refract_spec(
                unit_spec(r_in.direction),
                rec.normal,
                refraction_ratio_spec(rec.front_face, dielectric_index_spec(*self)),
            ) ==> r is Some && r.unwrap().direction == reflect_spec(
                unit_spec(r_in.direction),
                rec.normal,
            ),
            *self is Dielectric && r is Some ==> (r.unwrap().direction == reflect_spec(
                unit_spec(r_in.direction),
                rec.normal,
            ) || r.unwrap().direction == refract_spec(
                unit_spec(r_in.direction),
                rec.normal,
                refraction_ratio_spec(rec.front_face, dielectric_index_spec(*self)),
            )),
    {
        match self {
            Material::Lambertian(_) => {
                // A diffuse surface always scatters, attenuated by its albedo.
                let in_sphere = random_vec_in_unit_sphere(rng);
                let sampled = in_sphere.unit();
                let scatter_direction = lambertian_direction(rec.normal, sampled);
                proof {
                    assert(length_squared_spec(in_sphere) < 65536 && scatter_direction
                        == lambertian_direction_spec(rec.normal, unit_spec(in_sphere)));
                }
                Some(Ray::new(rec.point, scatter_direction))
            },
            Material::Metal(_, fuzz) => {
                // The ray is mirror-reflected, then perturbed by the fuzz.
                let reflected = r_in.direction.unit().reflect(rec.normal);
                let perturbation = random_vec_in_unit_sphere(rng);
                let scattered_dir = reflected.add(perturbation.mul(*fuzz));
                if scattered_dir.dot(rec.normal) > 0 {
                    let s = Ray::new(rec.point, scattered_dir);
                    proof {
                        assert(metal_fuzz_spec(*self) == *fuzz as int);
                        assert(length_squared_spec(perturbation) < 65536 && s.direction
                            == vadd_spec(
                            reflect_spec(unit_spec(r_in.direction), rec.normal),
                            vmul_spec(perturbation, metal_fuzz_spec(*self)),
                        ));
                    }
                    Some(s)
                } else {
                    // The perturbed reflection points into the surface:
                    // the ray is absorbed.
                    proof {
                        assert(metal_fuzz_spec(*self) == *fuzz as int);
                        assert(length_squared_spec(perturbation) < 65536 && dot_spec(
                            vadd_spec(
                                reflect_spec(unit_spec(r_in.direction), rec.normal),
                                vmul_spec(perturbation, metal_fuzz_spec(*self)),
                            ),
                            rec.normal,
                        ) <= 0);
                    }
                    None
                }
            },
            Material::Dielectric(_, refrac_index) => {
                let refraction_ratio = if rec.front_face {
                    fx_div(FX_ONE, *refrac_index)
                } else {
                    *refrac_index
                };
                proof {
                    lemma_fx_div_pos_nonneg(65536, *refrac_index as int);
                }
                let unit_direction = r_in.direction.unit();
                let cos_theta = fx_min(fx_neg(unit_direction.dot(rec.normal)), FX_ONE);
                let s2 = fx_sub(FX_ONE, fx_mul(cos_theta, cos_theta));
                let s2c: i64 = if s2 < 0 { 0 } else { s2 };
                let sin_theta = fx_sqrt(s2c);

                let cannot_refract = fx_mul(refraction_ratio, sin_theta) > FX_ONE;

                let direction = if cannot_refract || self.reflectance(cos_theta, refraction_ratio)
                    > rng_unit(rng) {
                    unit_direction.reflect(rec.normal)
                } else {
                    unit_direction.refract(rec.normal, refraction_ratio)
                };

                Some(Ray::new(rec.point, direction))
            },
        }
    }
}

} // verus!
