//! Scene geometry: the hit record, the sphere shape, and the world — an
//! ordered list of shapes answering a single closest-hit query.

use vstd::prelude::*;
use crate::fixed::{fx_sub, fx_mul, fx_neg, fx_add, fx_div, fx_sqrt, fx_sub_spec, fx_mul_spec,
    fx_neg_spec, fx_add_spec, fx_div_spec, fx_sqrt_spec, iabs, tdiv, lemma_fx_mul_bound};
use crate::vector3::{Vector3, vsub_spec, vneg_spec, vdiv_spec, dot_spec, length_squared_spec};
use crate::ray::{Ray, ray_at_spec};
use crate::color::RGBColor;
use crate::material::{Material, material_wf};

verus! {

#[derive(Clone, Copy, Debug, PartialEq, Eq, Structural)]
pub struct HitRecord {
    pub point: Vector3,
    pub normal: Vector3,
    pub material: Material,
    pub t: i64,
    pub front_face: bool,
}

/// The placeholder record returned by `HitRecord::new`, overwritten
/// before use.
pub open spec fn default_hit_record_spec() -> HitRecord {
    HitRecord {
        point: Vector3 { x: 0, y: 0, z: 0 },
        normal: Vector3 { x: 65536, y: 65536, z: 65536 },
        material: Material::Lambertian(RGBColor { r: 0, g: 0, b: 0 }),
        t: 0,
        front_face: false,
    }
}

/// The oriented normal: `front_face` holds when the geometric outward
/// normal already opposes the incoming ray, and the stored normal is the
/// outward normal flipped if needed so that it always opposes the ray.
pub open spec fn face_normal_spec(ray: Ray, outward_normal: Vector3) -> (bool, Vector3) {
    let front = dot_spec(ray.direction, outward_normal) < 0;
    (front, if front { outward_normal } else { vneg_spec(outward_normal) })
}

impl HitRecord {
    /// A default record, to be overwritten field by field.
    pub fn new() -> (r: Self)
        ensures
            r == default_hit_record_spec(),
    {
        HitRecord {
            point: Vector3::new(0, 0, 0),
            normal: Vector3::new(65536, 65536, 65536),
            material: Material::Lambertian(RGBColor::new(0, 0, 0)),
            t: 0,
            front_face: false,
        }
    }

    /// Stores the oriented normal for this ray, leaving the other fields.
    fn set_face_normal(&mut self, ray: &Ray, outward_normal: Vector3)
        ensures
            *final(self) == (HitRecord {
                front_face: face_normal_spec(*ray, outward_normal).0,
                normal: face_normal_spec(*ray, outward_normal).1,
                ..*old(self)
            }),
    {
        // A negative dot product means the outward normal opposes the ray.
        self.front_face = ray.direction.dot(outward_normal) < 0;
        self.normal = if self.front_face {
            outward_normal
        } else {
            outward_normal.neg()
        };
    }
}

#[derive(Clone, Copy, Debug, PartialEq, Eq, Structural)]
pub enum Shape {
    Sphere { radius: i64, center: Vector3, material: Material },
}

/// A well-formed shape: a sphere of positive radius and a well-formed
/// material.
pub open spec fn shape_wf(s: Shape) -> bool {
    match s {
        Shape::Sphere { radius, center: _, material } => radius > 0 && material_wf(material),
    }
}

/// The closest sphere intersection in `[t_min, t_max]`, if any: solve
/// `a t^2 + 2 half_b t + c = 0` in fixed point, prefer the smaller root,
/// fall back to the larger, and populate the oriented hit record.  A
/// direction whose squared length truncates to zero cannot be intersected
/// at this resolution and misses.
pub open spec fn sphere_hit_spec(
    radius: int,
    center: Vector3,
    material: Material,
    ray: Ray,
    t_min: int,
    t_max: int,
) -> Option<HitRecord> {
    let oc = vsub_spec(ray.origin, center);
    let a = length_squared_spec(ray.direction);
    let half_b = dot_spec(oc, ray.direction);
    let c = fx_sub_spec(length_squared_spec(oc), fx_mul_spec(radius, radius));
    let discriminant = fx_sub_spec(fx_mul_spec(half_b, half_b), fx_mul_spec(a, c));
    if a <= 0 || discriminant < 0 {
        None
    } else {
        let sqrtd = fx_sqrt_spec(discriminant);
        let root1 = fx_div_spec(fx_sub_spec(fx_neg_spec(half_b), sqrtd), a);
        let root2 = fx_div_spec(fx_add_spec(fx_neg_spec(half_b), sqrtd), a);
        if t_min <= root1 && root1 <= t_max {
            Some(sphere_hit_record_spec(radius, center, material, ray, root1))
        } else if t_min <= root2 && root2 <= t_max {
            Some(sphere_hit_record_spec(radius, center, material, ray, root2))
        } else {
            None
        }
    }
}

/// The record for a sphere intersection at parameter `root`.
pub open spec fn sphere_hit_record_spec(
    radius: int,
    center: Vector3,
    material: Material,
    ray: Ray,
    root: int,
) -> HitRecord {
    let point = ray_at_spec(ray, root);
    let outward_normal = vdiv_spec(vsub_spec(point, center), radius);
    let oriented = face_normal_spec(ray, outward_normal);
    HitRecord {
        point,
        normal: oriented.1,
        material,
        t: root as i64,
        front_face: oriented.0,
    }
}

/// The hit of any shape, dispatched over the variants.
pub open spec fn shape_hit_spec(s: Shape, ray: Ray, t_min: int, t_max: int) -> Option<HitRecord> {
    match s {
        Shape::Sphere { radius, center, material } => sphere_hit_spec(
            radius as int,
            center,
            material,
            ray,
            t_min,
            t_max,
        ),
    }
}

impl Shape {
    /// The closest intersection of this shape with `ray` in
    /// `[t_min, t_max]`.
    pub fn hit(&self, ray: &Ray, t_min: i64, t_max: i64) -> (r: Option<HitRecord>)
        requires
            shape_wf(*self),
        ensures
            r == shape_hit_spec(*self, *ray, t_min as int, t_max as int),
            r matches Some(h) ==> h.material == (match *self {
                Shape::Sphere { material, .. } => material,
            }),
    {
        match self {
            Shape::Sphere { radius, center, material } => {
                let oc = ray.origin.sub(*center);
                let a = ray.direction.length_squared();
                let half_b = oc.dot(ray.direction);
                let c = fx_sub(oc.length_squared(), fx_mul(*radius, *radius));
                let discriminant = fx_sub(fx_mul(half_b, half_b), fx_mul(a, c));

                if a <= 0 || discriminant < 0 {
                    return None;
                }

                // Find the nearest root in the acceptable range.
                let sqrtd = fx_sqrt(discriminant);
                let mut root = fx_div(fx_sub(fx_neg(half_b), sqrtd), a);
                if root < t_min || t_max < root {
                    root = fx_div(fx_add(fx_neg(half_b), sqrtd), a);
                    if root < t_min || t_max < root {
                        return None;
                    }
                }

                let mut hit_rec = HitRecord::new();

                hit_rec.t = root;
                hit_rec.point = ray.at(hit_rec.t);
                let outward_normal = hit_rec.point.sub(*center).div(*radius);
                hit_rec.set_face_normal(ray, outward_normal);
                hit_rec.material = *material;

                Some(hit_rec)
            },
        }
    }
}

pub struct World {
    pub list: Vec<Shape>,
}

/// A well-formed world: every shape in it is well-formed.
pub open spec fn world_wf(shapes: Seq<Shape>) -> bool {
    forall|i: int| 0 <= i < shapes.len() ==> shape_wf(#[trigger] shapes[i])
}

/// The linear closest-hit scan from shape `i` on: each hit tightens the
/// upper bound of the range the later shapes are tested against, so a
/// later shape replaces the best record only when strictly closer.
pub open spec fn world_hit_scan_spec(
    shapes: Seq<Shape>,
    i: int,
    ray: Ray,
    t_min: int,
    closest: int,
    best: Option<HitRecord>,
) -> Option<HitRecord>
    decreases shapes.len() - i,
{
    if i < 0 || i >= shapes.len() {
        best
    } else {
        match shape_hit_spec(shapes[i], ray, t_min, closest) {
            Some(h) => world_hit_scan_spec(shapes, i + 1, ray, t_min, h.t as int, Some(h)),
            None => world_hit_scan_spec(shapes, i + 1, ray, t_min, closest, best),
        }
    }
}

/// The closest hit of the whole world in `[t_min, t_max]`.
pub open spec fn world_hit_spec(shapes: Seq<Shape>, ray: Ray, t_min: int, t_max: int) -> Option<
    HitRecord,
> {
    world_hit_scan_spec(shapes, 0, ray, t_min, t_max, None)
}

impl World {
    pub fn new() -> (w: Self)
        ensures
            w.list@.len() == 0,
    {
        World { list: Vec::new() }
    }

    pub fn add(&mut self, elem: Shape)
        ensures
            final(self).list@ == old(self).list@.push(elem),
    {
        self.list.push(elem);
    }

    pub fn clear(&mut self)
        ensures
            final(self).list@.len() == 0,
    {
        self.list.clear();
    }

    /// The closest hit along `ray` within `[t_min, t_max]` over all
    /// shapes; a shape found later replaces the record only when its hit
    /// is strictly closer than every hit found before it.
    pub fn hit(&self, ray: &Ray, t_min: i64, t_max: i64) -> (r: Option<HitRecord>)
        requires
            world_wf(self.list@),
        ensures
            r == world_hit_spec(self.list@, *ray, t_min as int, t_max as int),
            r matches Some(h) ==> material_wf(h.material),
    {
        let ghost shapes = self.list@;
        let mut best: Option<HitRecord> = None;
        let mut closest_so_far = t_max;
        let mut i: usize = 0;

        while i < self.list.len()
            invariant
                world_wf(shapes),
                shapes == self.list@,
                0 <= i <= shapes.len(),
                world_hit_scan_spec(shapes, i as int, *ray, t_min as int, closest_so_far as int,
                    best) == world_hit_spec(shapes, *ray, t_min as int, t_max as int),
                best matches Some(h) ==> material_wf(h.material),
            decreases shapes.len() - i,
        {
            let shape = &self.list[i];
            match shape.hit(ray, t_min, closest_so_far) {
                Some(curr_rec) => {
                    proof {
                        lemma_sphere_hit_material(shapes[i as int], *ray, t_min as int,
                            closest_so_far as int);
                    }
                    closest_so_far = curr_rec.t;
                    best = Some(curr_rec);
                },
                None => {},
            }
            i = i + 1;
        }

        best
    }
}

/// A hit record carries the material of the shape that produced it, so a
/// well-formed shape yields a well-formed material.
proof fn lemma_sphere_hit_material(s: Shape, ray: Ray, t_min: int, t_max: int)
    requires
        shape_wf(s),
    ensures
        shape_hit_spec(s, ray, t_min, t_max) matches Some(h) ==> material_wf(h.material),
{
}

/// A reported hit lies inside the queried range.
pub proof fn lemma_shape_hit_in_range(s: Shape, ray: Ray, t_min: int, t_max: int)
    ensures
        shape_hit_spec(s, ray, t_min, t_max) matches Some(h) ==> t_min <= h.t as int <= t_max,
{
}

/// Tightening the upper bound of the range can only keep the hit, move
/// it to a smaller (earlier) root, or lose it altogether — and a hit is
/// lost only when it lies beyond the tightened bound.  So a shape
/// re-tested against a closer best hit never reports a farther one.
pub proof fn lemma_shape_hit_tighten(s: Shape, ray: Ray, t_min: int, t_max: int, m: int)
    requires
        m <= t_max,
        shape_hit_spec(s, ray, t_min, t_max) is Some,
    ensures
        shape_hit_spec(s, ray, t_min, m) matches Some(h2) ==> h2.t as int <= shape_hit_spec(
            s,
            ray,
            t_min,
            t_max,
        ).unwrap().t as int,
        shape_hit_spec(s, ray, t_min, m) is None ==> m < shape_hit_spec(
            s,
            ray,
            t_min,
            t_max,
        ).unwrap().t as int,
{
    match s {
        Shape::Sphere { radius, center, material } => {
            let oc = vsub_spec(ray.origin, center);
            let a = length_squared_spec(ray.direction);
            let half_b = dot_spec(oc, ray.direction);
            let c = fx_sub_spec(length_squared_spec(oc), fx_mul_spec(radius as int, radius as int));
            let discriminant = fx_sub_spec(fx_mul_spec(half_b, half_b), fx_mul_spec(a, c));
            assert(a > 0 && discriminant >= 0);
            let sqrtd = fx_sqrt_spec(discriminant);
            assert(sqrtd >= 0) by {
                crate::fixed::lemma_sqrt_floor_exists(discriminant * 65536);
            }
            let nh = fx_neg_spec(half_b);
            let num1 = fx_sub_spec(nh, sqrtd);
            let num2 = fx_add_spec(nh, sqrtd);
            assert(num1 <= num2) by {
                crate::fixed::lemma_sat64_monotone(nh - sqrtd, nh + sqrtd);
            }
            let root1 = fx_div_spec(num1, a);
            let root2 = fx_div_spec(num2, a);
            assert(root1 <= root2) by {
                crate::fixed::lemma_fx_div_monotone(num1, num2, a);
            }
        },
    }
}

/// The closest-hit scan, from any intermediate state: the final record
/// never lies beyond the running bound, an already-found record is never
/// dropped, and no remaining shape with a hit in the original range is
/// missed or beaten by a farther record.
proof fn lemma_scan_closest(
    shapes: Seq<Shape>,
    i: int,
    ray: Ray,
    t_min: int,
    t_max: int,
    closest: int,
    best: Option<HitRecord>,
)
    requires
        0 <= i <= shapes.len(),
        closest <= t_max,
        best matches Some(b) ==> b.t as int == closest,
        best is None ==> closest == t_max,
    ensures
        world_hit_scan_spec(shapes, i, ray, t_min, closest, best) matches Some(r) ==> r.t as int
            <= closest,
        best is Some ==> world_hit_scan_spec(shapes, i, ray, t_min, closest, best) is Some,
        forall|j: int|
            i <= j < shapes.len() && (#[trigger] shape_hit_spec(shapes[j], ray, t_min,
            t_max)) is Some ==> world_hit_scan_spec(shapes, i, ray, t_min, closest, best) is Some
                && world_hit_scan_spec(shapes, i, ray, t_min, closest, best).unwrap().t as int
                <= shape_hit_spec(shapes[j], ray, t_min, t_max).unwrap().t as int,
    decreases shapes.len() - i,
{
    if i < shapes.len() {
        let res = world_hit_scan_spec(shapes, i, ray, t_min, closest, best);
        let cur = shape_hit_spec(shapes[i], ray, t_min, closest);
        match cur {
            Some(h) => {
                lemma_shape_hit_in_range(shapes[i], ray, t_min, closest);
                lemma_scan_closest(shapes, i + 1, ray, t_min, t_max, h.t as int, Some(h));
                assert forall|j: int|
                    i <= j < shapes.len() && (#[trigger] shape_hit_spec(shapes[j], ray, t_min,
                    t_max)) is Some implies res is Some && res.unwrap().t as int <= shape_hit_spec(
                    shapes[j],
                    ray,
                    t_min,
                    t_max,
                ).unwrap().t as int by {
                    if j == i {
                        lemma_shape_hit_tighten(shapes[i], ray, t_min, t_max, closest);
                    }
                }
            },
            None => {
                lemma_scan_closest(shapes, i + 1, ray, t_min, t_max, closest, best);
                assert forall|j: int|
                    i <= j < shapes.len() && (#[trigger] shape_hit_spec(shapes[j], ray, t_min,
                    t_max)) is Some implies res is Some && res.unwrap().t as int <= shape_hit_spec(
                    shapes[j],
                    ray,
                    t_min,
                    t_max,
                ).unwrap().t as int by {
                    if j == i {
                        if best is None {
                            assert(closest == t_max);
                            assert(false);
                        } else {
                            lemma_shape_hit_tighten(shapes[i], ray, t_min, t_max, closest);
                        }
                    }
                }
            },
        }
    }
}

/// A product of negated factors, at magnitudes where nothing saturates.
proof fn lemma_fx_mul_neg(x: int, y: int)
    requires
        iabs(x) <= 0x40_0000_0000,
        iabs(y) <= 0x40_0000_0000,
    ensures
        fx_mul_spec(y, -x) == -fx_mul_spec(y, x),
        fx_mul_spec(-y, -x) == fx_mul_spec(y, x),
        iabs(fx_mul_spec(y, x)) <= 0x1000_0000_0000_0000_0000int / 65536,
{
    assert(iabs(x) * iabs(y) <= 0x1000_0000_0000_0000_0000) by (nonlinear_arith)
        requires
            0 <= iabs(x) <= 0x40_0000_0000,
            0 <= iabs(y) <= 0x40_0000_0000,
    ;
    assert(iabs(y) * iabs(x) == iabs(x) * iabs(y)) by (nonlinear_arith);
    assert(iabs(-y) * iabs(-x) == iabs(x) * iabs(y)) by (nonlinear_arith);
    assert(iabs(y) * iabs(-x) == iabs(x) * iabs(y)) by (nonlinear_arith);
    lemma_fx_mul_bound(y, x, 0x1000_0000_0000_0000_0000);
    lemma_fx_mul_bound(y, -x, 0x1000_0000_0000_0000_0000);
    lemma_fx_mul_bound(-y, -x, 0x1000_0000_0000_0000_0000);
    assert(y * (-x) == -(y * x)) by (nonlinear_arith);
    assert((-y) * (-x) == y * x) by (nonlinear_arith);
    assert(tdiv(-(y * x), 65536) == -tdiv(y * x, 65536));
}

/// A ray from outside a sphere, aimed exactly at its center, hits it at
/// a strictly positive parameter.  Stated for a unit direction (squared
/// length exactly one), moderate coordinates, and a radius whose square
/// leaves at least two fixed-point steps below the unit distance to the
/// center — outside those bounds truncation or saturation can swallow
/// the margin this conclusion rests on.
pub proof fn lemma_aimed_ray_hits(s: Shape, ray: Ray, t_min: int, t_max: int)
    requires
        s matches Shape::Sphere { radius, center, material: _ } && {
            &&& ray.direction == vsub_spec(center, ray.origin)
            &&& iabs(center.x - ray.origin.x) <= 0x40_0000_0000
            &&& iabs(center.y - ray.origin.y) <= 0x40_0000_0000
            &&& iabs(center.z - ray.origin.z) <= 0x40_0000_0000
            &&& length_squared_spec(ray.direction) == 65536
            &&& 1 <= radius
            &&& fx_mul_spec(radius as int, radius as int) <= 65534
        },
        t_min <= 1,
        t_max >= 65536,
    ensures
        shape_hit_spec(s, ray, t_min, t_max) is Some,
        shape_hit_spec(s, ray, t_min, t_max).unwrap().t >= 1,
{
    match s {
        Shape::Sphere { radius, center, material } => {
            let d = ray.direction;
            let oc = vsub_spec(ray.origin, center);
            assert(oc.x as int == -(d.x as int));
            assert(oc.y as int == -(d.y as int));
            assert(oc.z as int == -(d.z as int));

            let m1 = fx_mul_spec(d.x as int, d.x as int);
            let m2 = fx_mul_spec(d.y as int, d.y as int);
            let m3 = fx_mul_spec(d.z as int, d.z as int);
            lemma_fx_mul_neg(d.x as int, d.x as int);
            lemma_fx_mul_neg(d.y as int, d.y as int);
            lemma_fx_mul_neg(d.z as int, d.z as int);
            crate::fixed::lemma_fx_square_nonneg(d.x as int);
            crate::fixed::lemma_fx_square_nonneg(d.y as int);
            crate::fixed::lemma_fx_square_nonneg(d.z as int);

            // The three squared components sum, unsaturated, to one.
            let a = length_squared_spec(d);
            assert(a == m1 + m2 + m3);
            assert(m1 + m2 + m3 == 65536);

            // The same products appear in |oc|^2 and, negated, in half_b.
            assert(length_squared_spec(oc) == 65536);
            let half_b = dot_spec(oc, d);
            assert(half_b == -65536);

            let rr = fx_mul_spec(radius as int, radius as int);
            assert(rr >= 0) by {
                crate::fixed::lemma_fx_square_nonneg(radius as int);
            }
            let c = fx_sub_spec(65536, rr);
            assert(c == 65536 - rr);

            // hb^2 rescales to one, a * c rescales to c: both exact.
            assert(fx_mul_spec(half_b, half_b) == 65536) by {
                lemma_fx_mul_bound(-65536, -65536, 65536int * 65536);
                assert((-65536int) * (-65536) == 65536int * 65536) by (nonlinear_arith);
                assert(tdiv(65536int * 65536, 65536) == 65536);
            }
            assert(fx_mul_spec(a, c) == c) by {
                lemma_fx_mul_bound(65536, c, 65536int * 65536);
                assert(65536 * c >= 0) by (nonlinear_arith)
                    requires
                        c >= 0,
                ;
                assert(tdiv(65536 * c, 65536) == c) by {
                    vstd::arithmetic::div_mod::lemma_div_multiples_vanish(c, 65536);
                    assert(65536 * c == c * 65536) by (nonlinear_arith);
                }
            }
            let discriminant = fx_sub_spec(fx_mul_spec(half_b, half_b), fx_mul_spec(a, c));
            assert(discriminant == rr);

            // The root of the quadratic: sqrt(rr) stays below one, so
            // the near root is strictly positive.
            let sq = fx_sqrt_spec(rr);
            crate::fixed::lemma_sqrt_floor_exists(rr * 65536);
            assert(rr * 65536 <= 65534 * 65536) by (nonlinear_arith)
                requires
                    rr <= 65534,
            ;
            assert(sq <= 65534) by {
                if sq >= 65535 {
                    assert(sq * sq >= 65535 * 65535) by (nonlinear_arith)
                        requires
                            sq >= 65535,
                    ;
                    assert(65535 * 65535 > 65534 * 65536);
                    assert(false);
                }
            }
            let nh = fx_neg_spec(half_b);
            assert(nh == 65536);
            let num1 = fx_sub_spec(nh, sq);
            assert(num1 == 65536 - sq);
            assert(2 <= num1 <= 65536);
            let root1 = fx_div_spec(num1, a);
            assert(root1 == num1) by {
                assert(tdiv(num1 * 65536, 65536) == num1) by {
                    assert(num1 * 65536 >= 0) by (nonlinear_arith)
                        requires
                            num1 >= 0,
                    ;
                    vstd::arithmetic::div_mod::lemma_div_multiples_vanish(num1, 65536);
                }
            }
            assert(t_min <= root1 <= t_max);
        },
    }
}

/// A ray that passes a sphere with more perpendicular offset than the
/// sphere has radius misses it: no parameter range produces a hit.
/// Stated for a unit ray direction along the negative z axis and
/// moderate coordinates, where the fixed-point quadratic is exact: its
/// discriminant is the squared radius minus the squared perpendicular
/// offset, and it is negative.
pub proof fn lemma_perpendicular_offset_misses(s: Shape, ray: Ray, t_min: int, t_max: int)
    requires
        s matches Shape::Sphere { radius, center, material: _ } && {
            &&& ray.direction == (Vector3 { x: 0i64, y: 0i64, z: -65536i64 })
            &&& iabs(ray.origin.x - center.x) <= 0x40_0000_0000
            &&& iabs(ray.origin.y - center.y) <= 0x40_0000_0000
            &&& iabs(ray.origin.z - center.z) <= 0x40_0000_0000
            &&& iabs(radius as int) <= 0x40_0000_0000
            &&& fx_mul_spec(ray.origin.x - center.x, ray.origin.x - center.x) + fx_mul_spec(
                ray.origin.y - center.y,
                ray.origin.y - center.y,
            ) > fx_mul_spec(radius as int, radius as int)
        },
    ensures
        shape_hit_spec(s, ray, t_min, t_max) is None,
{
    match s {
        Shape::Sphere { radius, center, material: _ } => {
            let d = ray.direction;
            let oc = vsub_spec(ray.origin, center);
            let px = ray.origin.x - center.x;
            let py = ray.origin.y - center.y;
            let pz = ray.origin.z - center.z;
            assert(oc.x as int == px && oc.y as int == py && oc.z as int == pz);

            let mx = fx_mul_spec(px, px);
            let my = fx_mul_spec(py, py);
            let mz = fx_mul_spec(pz, pz);
            lemma_fx_mul_neg(px, px);
            lemma_fx_mul_neg(py, py);
            lemma_fx_mul_neg(pz, pz);
            crate::fixed::lemma_fx_square_nonneg(px);
            crate::fixed::lemma_fx_square_nonneg(py);
            crate::fixed::lemma_fx_square_nonneg(pz);

            // The direction has squared length exactly one, and its dot
            // product with oc is exactly the negated z offset.
            assert(fx_mul_spec(0, px) == 0 && fx_mul_spec(0, py) == 0) by {
                lemma_fx_mul_bound(0, px, 0);
                lemma_fx_mul_bound(0, py, 0);
                lemma_fx_mul_bound(0, 0, 0);
            }
            assert(fx_mul_spec(-65536, -65536) == 65536) by {
                lemma_fx_mul_bound(-65536, -65536, 65536int * 65536);
                assert((-65536int) * (-65536) == 65536int * 65536) by (nonlinear_arith);
                assert(tdiv(65536int * 65536, 65536) == 65536);
            }
            let a = length_squared_spec(d);
            assert(a == 65536);

            let half_b = dot_spec(oc, d);
            assert(fx_mul_spec(-65536, pz) == -pz) by {
                crate::fixed::lemma_fx_mul_one(pz);
                lemma_fx_mul_neg(pz, 65536);
                assert(fx_mul_spec(65536, pz) == fx_mul_spec(pz, 65536)) by {
                    assert(65536 * pz == pz * 65536) by (nonlinear_arith);
                }
                assert(fx_mul_spec(-65536, pz) == fx_mul_spec(pz, -65536));
            }
            assert(half_b == -pz);

            let rr = fx_mul_spec(radius as int, radius as int);
            crate::fixed::lemma_fx_square_nonneg(radius as int);
            let c = fx_sub_spec(length_squared_spec(oc), rr);
            assert(length_squared_spec(oc) == mx + my + mz);
            assert(c == mx + my + mz - rr);

            // hb^2 rescales to the squared z offset, a * c rescales to
            // c, so the discriminant collapses to rr - mx - my < 0.
            assert(fx_mul_spec(half_b, half_b) == mz) by {
                assert(fx_mul_spec(-pz, -pz) == fx_mul_spec(pz, pz));
            }
            assert(fx_mul_spec(a, c) == c) by {
                crate::fixed::lemma_fx_mul_one(c);
            }
            let discriminant = fx_sub_spec(fx_mul_spec(half_b, half_b), fx_mul_spec(a, c));
            assert(discriminant == rr - mx - my);
            assert(discriminant < 0);
        },
    }
}

/// Closest hit wins: whenever some shape of the world has a hit in the
/// queried range, the world reports a hit, and the reported parameter is
/// no farther than that shape's — so, of two overlapping spheres along a
/// ray, the record with the smaller `t` is returned, never the farther.
pub proof fn lemma_world_hit_closest(shapes: Seq<Shape>, ray: Ray, t_min: int, t_max: int, j: int)
    requires
        0 <= j < shapes.len(),
        shape_hit_spec(shapes[j], ray, t_min, t_max) is Some,
    ensures
        world_hit_spec(shapes, ray, t_min, t_max) is Some,
        world_hit_spec(shapes, ray, t_min, t_max).unwrap().t as int <= shape_hit_spec(
            shapes[j],
            ray,
            t_min,
            t_max,
        ).unwrap().t as int,
{
    lemma_scan_closest(shapes, 0, ray, t_min, t_max, t_max, None);
}

} // verus!
