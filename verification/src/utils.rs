//! Free helpers of the renderer: interval clamping, the random direction
//! samplers, the recursive integrator `ray_color`, and scene assembly.

use vstd::prelude::*;
use crate::fixed::{fx_add, fx_sub, fx_mul, fx_div, fx_from_int, fx_add_spec, fx_sub_spec,
    fx_mul_spec, fx_div_spec, sat64, tdiv, iabs, FX_ONE, FX_HALF};
use crate::vector3::{Vector3, length_squared_spec, length_spec, unit_spec, vsub_spec};
use crate::ray::Ray;
use crate::color::{RGBColor, cadd_spec, cmul_spec, cmul_scalar_spec, quantize_channel_spec,
    sample_scale_spec};
use crate::hittable::{World, Shape, HitRecord, world_wf, world_hit_spec};
use crate::material::{Material, attenuation_spec, possible_scatter};
use crate::camera::{Camera, get_ray_spec};
use crate::rng::{rng_between, rng_unit};

verus! {

/// The lower bound of every intersection query made by the integrator:
/// about a thousandth of a unit, discarding self-intersections just
/// behind the surface caused by rounding of the ray origin.
pub const SHADOW_ACNE_T_MIN: i64 = 66;

/// The upper bound of the integrator's intersection queries: the whole
/// representable range, standing in for infinity.
pub const RAY_T_MAX: i64 = 0x7FFF_FFFF_FFFF_FFFF;

/// `x` forced into `[min, max]`.
pub open spec fn clamp_spec(x: int, min: int, max: int) -> int {
    if x < min {
        min
    } else if x > max {
        max
    } else {
        x
    }
}

pub fn clamp(x: i64, min: i64, max: i64) -> (r: i64)
    ensures
        r as int == clamp_spec(x as int, min as int, max as int),
{
    if x < min {
        return min;
    }
    if x > max {
        return max;
    }
    x
}

/// A vector with three uniform components in `[min, max)`.
fn random_vec(min: i64, max: i64, rng: &fastrand::Rng) -> (v: Vector3)
    requires
        min < max,
        -0x1_0000_0000_0000 <= min <= 0x1_0000_0000_0000,
        -0x1_0000_0000_0000 <= max <= 0x1_0000_0000_0000,
    ensures
        min <= v.x < max,
        min <= v.y < max,
        min <= v.z < max,
{
    Vector3::new(
        rng_between(rng, min, max),
        rng_between(rng, min, max),
        rng_between(rng, min, max),
    )
}

/// A sampled point strictly inside the unit sphere, by rejection from
/// the enclosing cube.  The draw is repeated a bounded number of times;
/// if every attempt lands outside the sphere (vanishingly unlikely), the
/// center of the sphere is returned, which satisfies the bound trivially.
pub fn random_vec_in_unit_sphere(rng: &fastrand::Rng) -> (p: Vector3)
    ensures
        length_squared_spec(p) < 65536,
{
    let mut attempts: u32 = 0;
    while attempts < 64
        decreases 64 - attempts,
    {
        let p = random_vec(-65536, 65536, rng);
        if p.length_squared() < 65536 {
            return p;
        }
        attempts = attempts + 1;
    }
    let origin = Vector3::new(0, 0, 0);
    proof {
        crate::fixed::lemma_fx_mul_bound(0, 0, 0);
    }
    origin
}

/// A sampled point strictly inside the unit disk of the xy-plane, by the
/// same bounded rejection, with the disk center as the fallback.
pub fn random_vec_in_unit_disk(rng: &fastrand::Rng) -> (p: Vector3)
    ensures
        length_squared_spec(p) < 65536,
        p.z == 0,
{
    let mut attempts: u32 = 0;
    while attempts < 64
        decreases 64 - attempts,
    {
        let sampled = random_vec(-65536, 65536, rng);
        let p = Vector3::new(sampled.x, sampled.y, 0);
        if p.length_squared() < 65536 {
            return p;
        }
        attempts = attempts + 1;
    }
    let origin = Vector3::new(0, 0, 0);
    proof {
        crate::fixed::lemma_fx_mul_bound(0, 0, 0);
    }
    origin
}

/// The color gathered by a ray that hits nothing: no light.
pub open spec fn black_spec() -> RGBColor {
    RGBColor { r: 0, g: 0, b: 0 }
}

/// The background: a vertical gradient from white straight down to
/// sky blue straight up, driven by `t = (unit(direction).y + 1) / 2`.
pub open spec fn background_spec(direction: Vector3) -> RGBColor {
    let unit_direction = unit_spec(direction);
    let t = fx_mul_spec(32768, fx_add_spec(unit_direction.y as int, 65536));
    cadd_spec(
        cmul_scalar_spec(RGBColor { r: 65536, g: 65536, b: 65536 }, fx_sub_spec(65536, t)),
        cmul_scalar_spec(RGBColor { r: 32768, g: 45875, b: 65536 }, t),
    )
}

/// For every direction of moderate magnitude (components up to 2^38 raw
/// units), the background color is strictly positive in red and green
/// and exactly one in blue: the normalized vertical component stays
/// below two, so the interpolation parameter cannot outrun the gradient.
pub proof fn lemma_background_in_range(direction: Vector3)
    requires
        iabs(direction.x as int) <= 0x40_0000_0000,
        iabs(direction.y as int) <= 0x40_0000_0000,
        iabs(direction.z as int) <= 0x40_0000_0000,
    ensures
        background_spec(direction).r > 0,
        background_spec(direction).g > 0,
        background_spec(direction).b == 65536,
{
    crate::vector3::lemma_unit_component_bound(direction);
    let uy = unit_spec(direction).y as int;
    let inner = fx_add_spec(uy, 65536);
    assert(inner == uy + 65536);
    assert(-65535 <= inner <= 196607);
    let t = fx_mul_spec(32768, inner);
    if inner >= 0 {
        assert(tdiv(32768 * inner, 65536) == (32768 * inner) / 65536);
        vstd::arithmetic::div_mod::lemma_div_pos_is_pos(32768 * inner, 65536);
        crate::fixed::lemma_tdiv_monotone(32768 * inner, 32768int * 196607, 65536);
        assert(0 <= t <= 98303);
    } else {
        assert(tdiv(32768 * inner, 65536) == -((32768 * (-inner)) / 65536));
        vstd::arithmetic::div_mod::lemma_div_pos_is_pos(32768 * (-inner), 65536);
        crate::fixed::lemma_tdiv_monotone(32768 * (-inner), 32768int * 65535, 65536);
        assert(-32767 <= t <= 0);
    }
    let omt = fx_sub_spec(65536, t);
    assert(omt == 65536 - t);
    crate::fixed::lemma_fx_mul_one(omt);
    crate::fixed::lemma_fx_mul_one(t);
    // Blue interpolates between two full channels: exactly one.
    assert(background_spec(direction).b == 65536);
    // Red and green: the sky terms recover enough of what the white
    // terms lose.
    let ht = fx_mul_spec(32768, t);
    let gt = fx_mul_spec(45875, t);
    if t >= 0 {
        assert(32768 * t >= 0) by (nonlinear_arith)
            requires
                t >= 0,
        ;
        assert(ht == (32768 * t) / 65536);
        vstd::arithmetic::div_mod::lemma_fundamental_div_mod(32768 * t, 65536);
        vstd::arithmetic::div_mod::lemma_div_pos_is_pos(32768 * t, 65536);
        assert(2 * ht >= t - 1);
        assert(gt == (45875 * t) / 65536);
        vstd::arithmetic::div_mod::lemma_fundamental_div_mod(45875 * t, 65536);
        vstd::arithmetic::div_mod::lemma_div_pos_is_pos(45875 * t, 65536);
        assert(65536 * gt >= 45875 * t - 65535);
        assert(65536 * (omt + gt) >= 65536 * 65536 - 19661 * t - 65535);
    } else {
        assert(ht == -((32768 * (-t)) / 65536));
        crate::fixed::lemma_tdiv_monotone(32768 * (-t), 65536 * (-t), 65536);
        assert(tdiv(65536 * (-t), 65536) == -t) by {
            vstd::arithmetic::div_mod::lemma_div_multiples_vanish(-t, 65536);
            assert(65536 * (-t) == (-t) * 65536) by (nonlinear_arith);
        }
        assert(ht >= t);
        assert(gt == -((45875 * (-t)) / 65536));
        crate::fixed::lemma_tdiv_monotone(45875 * (-t), 65536 * (-t), 65536);
        assert(gt >= t);
    }
    assert(background_spec(direction).r > 0);
    assert(background_spec(direction).g > 0);
}

/// A color the integrator could return for this ray: black once the
/// bounce budget is spent; the background gradient on a miss; on a hit,
/// black (absorption) or the material's attenuation times a color
/// possible, one bounce down, for some scattered ray the material
/// admits.
pub open spec fn possible_ray_color(shapes: Seq<Shape>, ray: Ray, depth: int, c: RGBColor) -> bool
    decreases depth,
{
    if depth <= 0 {
        c == black_spec()
    } else {
        let wh = world_hit_spec(shapes, ray, SHADOW_ACNE_T_MIN as int, RAY_T_MAX as int);
        if wh is None {
            c == background_spec(ray.direction)
        } else {
            c == black_spec() || exists|s: Ray, c2: RGBColor|
                #[trigger] possible_scatter(wh.unwrap(), ray, s) && possible_ray_color(
                    shapes,
                    s,
                    depth - 1,
                    c2,
                ) && c == #[trigger] cmul_spec(attenuation_spec(wh.unwrap().material), c2)
        }
    }
}

/// One admitted bounce: a hit whose material admits the scattered ray
/// `s`, with `c2` possible for `s` one level down, makes the attenuated
/// product a possible color for the incoming ray.
#[verifier::rlimit(100)]
#[verifier::spinoff_prover]
proof fn lemma_possible_hit_color(
    shapes: Seq<Shape>,
    ray: Ray,
    depth: int,
    rec: HitRecord,
    s: Ray,
    c2: RGBColor,
    c: RGBColor,
)
    requires
        depth > 0,
        world_hit_spec(shapes, ray, SHADOW_ACNE_T_MIN as int, RAY_T_MAX as int) == Some(rec),
        possible_scatter(rec, ray, s),
        possible_ray_color(shapes, s, depth - 1, c2),
        c == cmul_spec(attenuation_spec(rec.material), c2),
    ensures
        possible_ray_color(shapes, ray, depth, c),
{
    let wh = world_hit_spec(shapes, ray, SHADOW_ACNE_T_MIN as int, RAY_T_MAX as int);
    assert(possible_scatter(wh.unwrap(), ray, s));
    assert(c == cmul_spec(attenuation_spec(wh.unwrap().material), c2));
}

/// The recursive integrator.  With no bounce budget left it gathers no
/// light and returns exactly black, whatever the scene holds; a ray that
/// misses every shape returns the background gradient; a hit defers to
/// the material, multiplying the scattered ray's color by the material's
/// attenuation, and a definitive absorption again returns black.  Every
/// outcome is one `possible_ray_color` admits.
#[verifier::rlimit(60)]
pub fn ray_color(ray: &Ray, world: &World, depth: i32, rng: &fastrand::Rng) -> (c: RGBColor)
    requires
        world_wf(world.list@),
    ensures
        possible_ray_color(world.list@, *ray, depth as int, c),
        depth <= 0 ==> c == black_spec(),
        depth > 0 && world_hit_spec(world.list@, *ray, SHADOW_ACNE_T_MIN as int,
            RAY_T_MAX as int) is None ==> c == background_spec(ray.direction),
    decreases depth,
{
    // Past the bounce limit, no more light is gathered.
    if depth <= 0 {
        return RGBColor::new(0, 0, 0);
    }

    match world.hit(ray, SHADOW_ACNE_T_MIN, RAY_T_MAX) {
        Some(rec) => {
            match rec.material.scatter(rng, ray, &rec) {
                Some(scattered_ray) => {
                    let recursive = ray_color(&scattered_ray, world, depth - 1, rng);
                    let c = rec.material.attenuation().mul(recursive);
                    proof {
                        assert(possible_scatter(rec, *ray, scattered_ray)) by {
                            reveal(possible_scatter);
                        }
                        lemma_possible_hit_color(world.list@, *ray, depth as int, rec,
                            scattered_ray, recursive, c);
                    }
                    c
                },
                None => RGBColor::new(0, 0, 0),
            }
        },
        None => {
            let unit_direction = ray.direction.unit();
            let t = fx_mul(FX_HALF, fx_add(unit_direction.y, FX_ONE));

            let start_value = RGBColor::new(FX_ONE, FX_ONE, FX_ONE);  // white
            let target_value = RGBColor::new(32768, 45875, FX_ONE);  // sky blue

            start_value.mul_scalar(fx_sub(FX_ONE, t)).add(target_value.mul_scalar(t))
        },
    }
}

/// The jitter that places a grid sphere within its square: nine tenths
/// of a uniform fraction, between zero and just under nine tenths.
proof fn lemma_grid_offset_in_range(u: int)
    requires
        0 <= u < 65536,
    ensures
        0 <= fx_mul_spec(58982, u) <= 58981,
{
    assert(tdiv(58982 * u, 65536) == (58982 * u) / 65536);
    vstd::arithmetic::div_mod::lemma_div_pos_is_pos(58982 * u, 65536);
    crate::fixed::lemma_tdiv_monotone(58982 * u, 58982int * 65535, 65536);
}

/// A metal grid sphere's fuzz: half of a uniform fraction, between zero
/// and just under one half.
proof fn lemma_fuzz_in_range(u: int)
    requires
        0 <= u < 65536,
    ensures
        0 <= fx_mul_spec(u, 32768) <= 32767,
{
    assert(tdiv(u * 32768, 65536) == (u * 32768) / 65536);
    vstd::arithmetic::div_mod::lemma_div_pos_is_pos(u * 32768, 65536);
    crate::fixed::lemma_tdiv_monotone(u * 32768, 65535int * 32768, 65536);
}

/// A small sphere of the demonstration scene's grid: radius one fifth,
/// resting at height one fifth over a grid square within eleven units of
/// the origin, clear of the metal feature sphere's site, and carrying
/// one of the three drawn material families — a diffuse albedo of
/// fractions below one, a bright metal with fuzz below one half, or the
/// fixed glass.
pub open spec fn grid_sphere_spec(s: Shape) -> bool {
    match s {
        Shape::Sphere { radius, center, material } => {
            &&& radius == 13107
            &&& center.y == 13107
            &&& -720896 <= center.x < 720896
            &&& -720896 <= center.z < 720896
            &&& length_spec(vsub_spec(center, Vector3 { x: 262144, y: 13107, z: 0 })) > 58982
            &&& match material {
                Material::Lambertian(al) => 0 <= al.r < 65536 && 0 <= al.g < 65536 && 0 <= al.b
                    < 65536,
                Material::Metal(al, fuzz) => 32768 <= al.r < 65536 && 32768 <= al.g < 65536
                    && 32768 <= al.b < 65536 && 0 <= fuzz < 32768,
                Material::Dielectric(al, refrac_index) => al == (RGBColor {
                    r: 65536,
                    g: 65536,
                    b: 65536,
                }) && refrac_index == 98304,
            }
        },
    }
}

/// The fixed demonstration scene: a huge diffuse ground sphere, a grid
/// of small spheres with randomly drawn materials, and three large
/// feature spheres (glass, diffuse, metal).
#[verifier::loop_isolation(false)]
pub fn random_scene(rng: &fastrand::Rng) -> (world: World)
    ensures
        world_wf(world.list@),
        4 <= world.list@.len() <= 488,
        forall|k: int|
            1 <= k < world.list@.len() - 3 ==> grid_sphere_spec(#[trigger] world.list@[k]),
        world.list@[0] == (Shape::Sphere {
            radius: 65536000,
            center: Vector3 { x: 0, y: -65536000i64, z: 0 },
            material: Material::Lambertian(RGBColor { r: 32768, g: 32768, b: 32768 }),
        }),
        world.list@[world.list@.len() - 3] == (Shape::Sphere {
            radius: 65536,
            center: Vector3 { x: 0, y: 65536, z: 0 },
            material: Material::Dielectric(RGBColor { r: 65536, g: 65536, b: 65536 }, 98304),
        }),
        world.list@[world.list@.len() - 2] == (Shape::Sphere {
            radius: 65536,
            center: Vector3 { x: -262144i64, y: 65536, z: 0 },
            material: Material::Lambertian(RGBColor { r: 26214, g: 13107, b: 6553 }),
        }),
        world.list@[world.list@.len() - 1] == (Shape::Sphere {
            radius: 65536,
            center: Vector3 { x: 262144, y: 65536, z: 0 },
            material: Material::Metal(RGBColor { r: 45875, g: 39321, b: 32768 }, 0),
        }),
{
    let mut world = World::new();
    let ground_material = Material::Lambertian(RGBColor::new(32768, 32768, 32768));

    world.add(
        Shape::Sphere {
            center: Vector3::new(0, -65536000, 0),
            radius: 65536000,
            material: ground_material,
        },
    );

    let mut a: i64 = -11;
    while a < 11
        invariant
            world_wf(world.list@),
            1 <= world.list@.len() <= 1 + 22 * (a + 11),
            world.list@[0] == (Shape::Sphere {
                radius: 65536000,
                center: Vector3 { x: 0, y: -65536000i64, z: 0 },
                material: Material::Lambertian(RGBColor { r: 32768, g: 32768, b: 32768 }),
            }),
            forall|k: int|
                1 <= k < world.list@.len() ==> grid_sphere_spec(#[trigger] world.list@[k]),
            -11 <= a <= 11,
        decreases 11 - a,
    {
        let mut b: i64 = -11;
        while b < 11
            invariant
                world_wf(world.list@),
                1 <= world.list@.len() <= 1 + 22 * (a + 11) + (b + 11),
                world.list@[0] == (Shape::Sphere {
                    radius: 65536000,
                    center: Vector3 { x: 0, y: -65536000i64, z: 0 },
                    material: Material::Lambertian(RGBColor { r: 32768, g: 32768, b: 32768 }),
                }),
                forall|k: int|
                    1 <= k < world.list@.len() ==> grid_sphere_spec(#[trigger] world.list@[k]),
                -11 <= a < 11,
                -11 <= b <= 11,
            decreases 11 - b,
        {
            let choose_mat = rng_unit(rng);
            let ux = rng_unit(rng);
            let jx = fx_mul(58982, ux);
            let uz = rng_unit(rng);
            let jz = fx_mul(58982, uz);
            proof {
                lemma_grid_offset_in_range(ux as int);
                lemma_grid_offset_in_range(uz as int);
            }
            let center = Vector3::new(
                fx_add(fx_from_int(a), jx),
                13107,
                fx_add(fx_from_int(b), jz),
            );

            if center.sub(Vector3::new(262144, 13107, 0)).length() > 58982 {
                if choose_mat < 52429 {
                    // diffuse
                    let c1 = RGBColor::random(rng);
                    let c2 = RGBColor::random(rng);
                    let albedo = c1.mul(c2);
                    proof {
                        crate::color::lemma_attenuation_dims(c1, c2);
                    }
                    let sphere_material = Material::Lambertian(albedo);
                    world.add(Shape::Sphere { center, radius: 13107, material: sphere_material });
                } else if choose_mat < 62260 {
                    // metal
                    let albedo = RGBColor::random_interval(32768, 65536, rng);
                    let uf = rng_unit(rng);
                    let fuzz = fx_mul(uf, 32768);
                    proof {
                        lemma_fuzz_in_range(uf as int);
                    }

                    let sphere_material = Material::Metal(albedo, fuzz);

                    world.add(Shape::Sphere { center, radius: 13107, material: sphere_material });
                } else {
                    // glass
                    let sphere_material = Material::Dielectric(
                        RGBColor::new(65536, 65536, 65536),
                        98304,
                    );
                    world.add(Shape::Sphere { center, radius: 13107, material: sphere_material });
                }
            }
            b = b + 1;
        }
        a = a + 1;
    }

    let material1 = Material::Dielectric(RGBColor::new(65536, 65536, 65536), 98304);
    world.add(Shape::Sphere { center: Vector3::new(0, 65536, 0), radius: 65536, material: material1 });

    let material2 = Material::Lambertian(RGBColor::new(26214, 13107, 6553));
    world.add(
        Shape::Sphere { center: Vector3::new(-262144, 65536, 0), radius: 65536, material: material2 },
    );

    let material3 = Material::Metal(RGBColor::new(45875, 39321, 32768), 0);
    world.add(
        Shape::Sphere { center: Vector3::new(262144, 65536, 0), radius: 65536, material: material3 },
    );

    world
}

/// A camera ray the driver could shoot for the pixel at this row and
/// column: its normalized coordinates carry some sub-pixel jitter, and
/// some lens sample displaces it.
pub open spec fn possible_sample_ray(
    cam: Camera,
    row: int,
    col: int,
    width: int,
    height: int,
    ray: Ray,
) -> bool {
    exists|ju: int, jv: int, rd: Vector3|
        0 <= ju < 65536 && 0 <= jv < 65536 && length_squared_spec(rd) < 65536 && rd.z == 0 && ray
            == #[trigger] get_ray_spec(
            cam,
            fx_div_spec(fx_add_spec(sat64(col * 65536), ju), sat64((width - 1) * 65536)),
            fx_div_spec(fx_add_spec(sat64(row * 65536), jv), sat64((height - 1) * 65536)),
            rd,
        )
}

/// An accumulated color the sampling loop could reach after `n` samples
/// of one pixel: the sum, starting from black, of `n` colors, each a
/// possible integrator result for some admissible camera ray of that
/// pixel.
pub open spec fn possible_accumulation(
    shapes: Seq<Shape>,
    cam: Camera,
    row: int,
    col: int,
    width: int,
    height: int,
    n: int,
    depth: int,
    acc: RGBColor,
) -> bool
    decreases n,
{
    if n <= 0 {
        acc == black_spec()
    } else {
        exists|prev: RGBColor, ray: Ray, c: RGBColor|
            possible_accumulation(shapes, cam, row, col, width, height, n - 1, depth, prev)
                && #[trigger] possible_sample_ray(cam, row, col, width, height, ray)
                && possible_ray_color(shapes, ray, depth, c) && acc == #[trigger] cadd_spec(
                prev,
                c,
            )
    }
}

/// A final pixel the driver could emit at this row and column: the
/// channelwise quantization, at the per-sample scale, of some color
/// accumulated from `samples` admissible samples.
pub open spec fn possible_pixel(
    shapes: Seq<Shape>,
    cam: Camera,
    row: int,
    col: int,
    width: int,
    height: int,
    samples: int,
    depth: int,
    q: (u8, u8, u8),
) -> bool {
    exists|acc: RGBColor|
        #[trigger] possible_accumulation(shapes, cam, row, col, width, height, samples, depth, acc)
            && q.0 as int == quantize_channel_spec(acc.r as int, sample_scale_spec(samples))
            && q.1 as int == quantize_channel_spec(acc.g as int, sample_scale_spec(samples))
            && q.2 as int == quantize_channel_spec(acc.b as int, sample_scale_spec(samples))
}

/// One more admitted sample extends an admitted accumulation.
proof fn lemma_accumulation_step(
    shapes: Seq<Shape>,
    cam: Camera,
    row: int,
    col: int,
    width: int,
    height: int,
    n: int,
    depth: int,
    prev: RGBColor,
    ray: Ray,
    c: RGBColor,
    acc: RGBColor,
)
    requires
        n >= 0,
        possible_accumulation(shapes, cam, row, col, width, height, n, depth, prev),
        possible_sample_ray(cam, row, col, width, height, ray),
        possible_ray_color(shapes, ray, depth, c),
        acc == cadd_spec(prev, c),
    ensures
        possible_accumulation(shapes, cam, row, col, width, height, n + 1, depth, acc),
{
}

/// The sampling driver: for each pixel of the image, top row first,
/// accumulate `samples_per_pixel` jittered camera rays through the
/// integrator, then average, gamma-correct and quantize.  The result
/// lists one 8-bit triple per pixel in row-major order, each one a
/// possible quantized accumulation for its own pixel.
#[verifier::loop_isolation(false)]
#[verifier::rlimit(100)]
pub fn render(
    world: &World,
    cam: &Camera,
    width: i64,
    height: i64,
    samples_per_pixel: i64,
    max_depth: i32,
    rng: &fastrand::Rng,
) -> (pixels: Vec<(u8, u8, u8)>)
    requires
        world_wf(world.list@),
        2 <= width <= 10000,
        2 <= height <= 10000,
        0 < samples_per_pixel <= 1_000_000,
    ensures
        pixels@.len() == width * height,
        forall|i: int|
            0 <= i < pixels@.len() ==> possible_pixel(
                world.list@,
                *cam,
                height - 1 - i / (width as int),
                i % (width as int),
                width as int,
                height as int,
                samples_per_pixel as int,
                max_depth as int,
                #[trigger] pixels@[i],
            ),
{
    let mut pixels: Vec<(u8, u8, u8)> = Vec::new();
    let mut row: i64 = height;

    while row > 0
        invariant
            0 <= row <= height,
            pixels@.len() == width * (height - row),
            forall|i: int|
                0 <= i < pixels@.len() ==> possible_pixel(world.list@, *cam,
                    height - 1 - i / (width as int), i % (width as int), width as int,
                    height as int, samples_per_pixel as int, max_depth as int,
                    #[trigger] pixels@[i]),
        decreases row,
    {
        row = row - 1;
        let mut w: i64 = 0;
        while w < width
            invariant
                0 <= w <= width,
                0 <= row < height,
                pixels@.len() == width * (height - row - 1) + w,
                forall|i: int|
                    0 <= i < pixels@.len() ==> possible_pixel(world.list@, *cam,
                        height - 1 - i / (width as int), i % (width as int), width as int,
                        height as int, samples_per_pixel as int, max_depth as int,
                        #[trigger] pixels@[i]),
            decreases width - w,
        {
            let mut pixel_color = RGBColor::new(0, 0, 0);
            let mut s: i64 = 0;
            while s < samples_per_pixel
                invariant
                    0 <= row < height,
                    0 <= w < width,
                    0 <= s <= samples_per_pixel,
                    possible_accumulation(world.list@, *cam, row as int, w as int, width as int,
                        height as int, s as int, max_depth as int, pixel_color),
                decreases samples_per_pixel - s,
            {
                let jv = rng_unit(rng);
                let v = fx_div(fx_add(fx_from_int(row), jv), fx_from_int(height - 1));
                let ju = rng_unit(rng);
                let u = fx_div(fx_add(fx_from_int(w), ju), fx_from_int(width - 1));

                let r = cam.get_ray(u, v, rng);
                let sample_color = ray_color(&r, world, max_depth, rng);
                let prev_color = pixel_color;
                proof {
                    let rd = choose|rd: Vector3|
                        length_squared_spec(rd) < 65536 && rd.z == 0 && r == #[trigger] get_ray_spec(
                            *cam,
                            u as int,
                            v as int,
                            rd,
                        );
                    assert(u as int == fx_div_spec(
                        fx_add_spec(sat64(w as int * 65536), ju as int),
                        sat64((width as int - 1) * 65536),
                    ));
                    assert(v as int == fx_div_spec(
                        fx_add_spec(sat64(row as int * 65536), jv as int),
                        sat64((height as int - 1) * 65536),
                    ));
                    assert(r == get_ray_spec(
                        *cam,
                        fx_div_spec(fx_add_spec(sat64(w as int * 65536), ju as int),
                            sat64((width as int - 1) * 65536)),
                        fx_div_spec(fx_add_spec(sat64(row as int * 65536), jv as int),
                            sat64((height as int - 1) * 65536)),
                        rd,
                    ));
                    assert(possible_sample_ray(*cam, row as int, w as int, width as int,
                        height as int, r));
                }
                pixel_color = prev_color.add(sample_color);
                proof {
                    lemma_accumulation_step(world.list@, *cam, row as int, w as int, width as int,
                        height as int, s as int, max_depth as int, prev_color, r, sample_color,
                        pixel_color);
                }
                s = s + 1;
            }

            let q = pixel_color.quantized(samples_per_pixel);
            proof {
                assert(possible_pixel(world.list@, *cam, row as int, w as int, width as int,
                    height as int, samples_per_pixel as int, max_depth as int, q));
            }
            pixels.push(q);
            proof {
                let li = pixels@.len() - 1;
                assert(pixels@[li] == q);
                assert((height as int - 1 - row) * (width as int) == (width as int) * (height as int
                    - 1 - row)) by (nonlinear_arith);
                vstd::arithmetic::div_mod::lemma_fundamental_div_mod_converse_div(li, width as int,
                    height as int - 1 - row as int, w as int);
                vstd::arithmetic::div_mod::lemma_fundamental_div_mod_converse_mod(li, width as int,
                    height as int - 1 - row as int, w as int);
                assert(li / (width as int) == height - 1 - row);
                assert(li % (width as int) == w as int);
            }
            w = w + 1;
        }
        proof {
            assert(width * (height - row) == width * (height - row - 1) + width)
                by (nonlinear_arith);
        }
    }
    pixels
}

} // verus!
