//! The camera: an immutable configuration derived once from the scene
//! parameters, mapping normalized image-plane coordinates (and a random
//! lens offset, for depth of field) to a world-space ray.
//!
//! The vertical field of view enters as the tangent of its half-angle,
//! already in fixed point: trigonometry itself has no fixed-point
//! implementation here and is evaluated by the caller.

use vstd::prelude::*;
use crate::fixed::{fx_mul, fx_div, fx_mul_spec, fx_div_spec};
use crate::vector3::{
    Vector3, vadd_spec, vsub_spec, vmul_spec, vdiv_spec, cross_spec, unit_spec,
    length_squared_spec,
};
use crate::ray::Ray;
use crate::utils::random_vec_in_unit_disk;

verus! {

pub struct Camera {
    pub origin: Vector3,
    pub horizontal: Vector3,
    pub vertical: Vector3,
    pub lower_left_corner: Vector3,
    pub lens_radius: i64,
    pub u: Vector3,
    pub v: Vector3,
    pub w: Vector3,
}

/// The camera derived from its parameters: an orthonormal-ish basis
/// `(u, v, w)` from the view axis and the up vector, viewport extents
/// from the field of view and aspect ratio scaled to the focus plane,
/// and the lens radius as half the aperture.
pub open spec fn camera_new_spec(
    lookfrom: Vector3,
    lookat: Vector3,
    vup: Vector3,
    tan_half_vfov: int,
    aspect_ratio: int,
    aperture: int,
    focus_dist: int,
) -> Camera {
    let viewport_height = fx_mul_spec(131072, tan_half_vfov);
    let viewport_width = fx_mul_spec(aspect_ratio, viewport_height);
    let w = unit_spec(vsub_spec(lookfrom, lookat));
    let u = unit_spec(cross_spec(vup, w));
    let v = cross_spec(w, u);
    let origin = lookfrom;
    let horizontal = vmul_spec(vmul_spec(u, viewport_width), focus_dist);
    let vertical = vmul_spec(vmul_spec(v, viewport_height), focus_dist);
    Camera {
        origin,
        horizontal,
        vertical,
        lower_left_corner: vsub_spec(
            vsub_spec(vsub_spec(origin, vdiv_spec(horizontal, 131072)), vdiv_spec(vertical, 131072)),
            vmul_spec(w, focus_dist),
        ),
        lens_radius: fx_div_spec(aperture, 131072) as i64,
        u,
        v,
        w,
    }
}

/// The ray for normalized image coordinates `(s, t)` and lens sample
/// `rd`: the sample scaled by the lens radius and projected onto the
/// camera basis offsets the origin, and the direction aims at the point
/// `(s, t)` of the viewport.
pub open spec fn get_ray_spec(cam: Camera, s: int, t: int, rd: Vector3) -> Ray {
    let scaled = vmul_spec(rd, cam.lens_radius as int);
    let offset = vadd_spec(vmul_spec(cam.u, scaled.x as int), vmul_spec(cam.v, scaled.y as int));
    let dir = vsub_spec(
        vadd_spec(
            vadd_spec(cam.lower_left_corner, vmul_spec(cam.horizontal, s)),
            vmul_spec(cam.vertical, t),
        ),
        cam.origin,
    );
    Ray { origin: vadd_spec(cam.origin, offset), direction: vsub_spec(dir, offset) }
}

impl Camera {
    pub fn new(
        lookfrom: Vector3,
        lookat: Vector3,
        vup: Vector3,
        tan_half_vfov: i64,
        aspect_ratio: i64,
        aperture: i64,
        focus_dist: i64,
    ) -> (cam: Camera)
        ensures
            cam == camera_new_spec(
                lookfrom,
                lookat,
                vup,
                tan_half_vfov as int,
                aspect_ratio as int,
                aperture as int,
                focus_dist as int,
            ),
    {
        let viewport_height = fx_mul(131072, tan_half_vfov);
        let viewport_width = fx_mul(aspect_ratio, viewport_height);

        let w = lookfrom.sub(lookat).unit();
        let u = vup.cross(w).unit();
        let v = w.cross(u);

        let origin = lookfrom;
        let horizontal = u.mul(viewport_width).mul(focus_dist);
        let vertical = v.mul(viewport_height).mul(focus_dist);

        Camera {
            origin,
            horizontal,
            vertical,
            lower_left_corner: origin.sub(horizontal.div(131072)).sub(vertical.div(131072)).sub(
                w.mul(focus_dist),
            ),
            lens_radius: fx_div(aperture, 131072),
            u,
            v,
            w,
        }
    }

    /// The ray through normalized image coordinates `(s, t)`, jittered
    /// across the lens: some point of the unit disk, scaled by the lens
    /// radius, displaces the ray origin, so that rays from different
    /// lens points converge exactly at the focus distance.
    pub fn get_ray(&self, s: i64, t: i64, rng: &fastrand::Rng) -> (r: Ray)
        ensures
            exists|rd: Vector3|
                length_squared_spec(rd) < 65536 && rd.z == 0 && r == #[trigger] get_ray_spec(
                    *self,
                    s as int,
                    t as int,
                    rd,
                ),
    {
        let sample = random_vec_in_unit_disk(rng);
        let rd = sample.mul(self.lens_radius);
        let offset = self.u.mul(rd.x).add(self.v.mul(rd.y));

        let dir = self.lower_left_corner.add(self.horizontal.mul(s)).add(self.vertical.mul(t)).sub(
            self.origin,
        );

        let r = Ray::new(self.origin.add(offset), dir.sub(offset));
        proof {
            assert(length_squared_spec(sample) < 65536 && sample.z == 0 && r == get_ray_spec(
                *self,
                s as int,
                t as int,
                sample,
            ));
        }
        r
    }
}

/// With a closed aperture (lens radius zero) the camera is a pinhole:
/// the ray for `(s, t)` does not depend on the lens sample at all, so
/// ray generation is deterministic.
pub proof fn lemma_pinhole_ray_deterministic(cam: Camera, s: int, t: int, rd1: Vector3, rd2: Vector3)
    requires
        cam.lens_radius == 0,
    ensures
        get_ray_spec(cam, s, t, rd1) == get_ray_spec(cam, s, t, rd2),
{
    lemma_zero_scale_ray(cam, s, t, rd1);
    lemma_zero_scale_ray(cam, s, t, rd2);
}

/// With lens radius zero, the lens offset vanishes and the ray reduces
/// to the pinhole ray.
proof fn lemma_zero_scale_ray(cam: Camera, s: int, t: int, rd: Vector3)
    requires
        cam.lens_radius == 0,
    ensures
        get_ray_spec(cam, s, t, rd) == (Ray {
            origin: cam.origin,
            direction: vsub_spec(
                vadd_spec(
                    vadd_spec(cam.lower_left_corner, vmul_spec(cam.horizontal, s)),
                    vmul_spec(cam.vertical, t),
                ),
                cam.origin,
            ),
        }),
{
    let scaled = vmul_spec(rd, 0);
    assert(scaled == (Vector3 { x: 0i64, y: 0i64, z: 0i64 }));
    let offset = vadd_spec(vmul_spec(cam.u, 0), vmul_spec(cam.v, 0));
    assert(offset == (Vector3 { x: 0i64, y: 0i64, z: 0i64 }));
    let dir = vsub_spec(
        vadd_spec(
            vadd_spec(cam.lower_left_corner, vmul_spec(cam.horizontal, s)),
            vmul_spec(cam.vertical, t),
        ),
        cam.origin,
    );
    assert(vadd_spec(cam.origin, offset) == cam.origin);
    assert(vsub_spec(dir, offset) == dir);
}

} // verus!
