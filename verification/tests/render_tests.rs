//! Scenario checks for the geometry, materials, integrator and driver,
//! all in Q47.16 fixed point (an `i64` holds the real value times 65536).

use rust_ray_tracer::camera::Camera;
use rust_ray_tracer::color::RGBColor;
use rust_ray_tracer::hittable::{HitRecord, Shape, World};
use rust_ray_tracer::material::{lambertian_direction, Material};
use rust_ray_tracer::ray::Ray;
use rust_ray_tracer::utils::{random_scene, ray_color, render, RAY_T_MAX};
use rust_ray_tracer::vector3::Vector3;

fn one_sphere_world() -> World {
    let mut world = World::new();
    world.add(Shape::Sphere {
        center: Vector3::new(0, 0, -65536),
        radius: 32768,
        material: Material::Lambertian(RGBColor::new(45875, 19660, 19660)),
    });
    world
}

#[test]
fn sphere_hit_aimed_at_center() {
    // From the origin, aiming at a sphere of radius 0.5 centered one
    // unit down the -z axis: the near surface lies at t = 0.5.
    let shape = Shape::Sphere {
        center: Vector3::new(0, 0, -65536),
        radius: 32768,
        material: Material::Lambertian(RGBColor::new(45875, 19660, 19660)),
    };
    let ray = Ray::new(Vector3::new(0, 0, 0), Vector3::new(0, 0, -65536));
    let rec = shape.hit(&ray, 0, RAY_T_MAX).expect("aimed ray must hit");
    assert!(rec.t > 0);
    assert_eq!(rec.t, 32768);
    assert_eq!(rec.point, Vector3::new(0, 0, -32768));
    // The normal points back toward the origin: away from the center.
    assert_eq!(rec.normal, Vector3::new(0, 0, 65536));
    assert!(rec.front_face);
}

#[test]
fn sphere_miss_perpendicular_offset() {
    // The same sphere, but the ray passes two units above it.
    let shape = Shape::Sphere {
        center: Vector3::new(0, 0, -65536),
        radius: 32768,
        material: Material::Lambertian(RGBColor::new(45875, 19660, 19660)),
    };
    let ray = Ray::new(Vector3::new(0, 2 * 65536, 0), Vector3::new(0, 0, -65536));
    assert!(shape.hit(&ray, 0, RAY_T_MAX).is_none());
}

#[test]
fn world_hit_closest_of_overlapping_spheres() {
    // Two spheres along one ray: the near surface of the near sphere is
    // at t = 1, the near surface of the far sphere at t = 2.  Whichever
    // order they are listed in, the closer hit wins.
    let near = Shape::Sphere {
        center: Vector3::new(0, 0, -2 * 65536),
        radius: 65536,
        material: Material::Lambertian(RGBColor::new(45875, 19660, 19660)),
    };
    let far = Shape::Sphere {
        center: Vector3::new(0, 0, -4 * 65536),
        radius: 2 * 65536,
        material: Material::Lambertian(RGBColor::new(19660, 45875, 19660)),
    };
    let ray = Ray::new(Vector3::new(0, 0, 0), Vector3::new(0, 0, -65536));

    let mut world_near_first = World::new();
    world_near_first.add(near);
    world_near_first.add(far);
    let rec1 = world_near_first.hit(&ray, 66, RAY_T_MAX).expect("must hit");
    assert_eq!(rec1.t, 65536);

    let mut world_far_first = World::new();
    world_far_first.add(far);
    world_far_first.add(near);
    let rec2 = world_far_first.hit(&ray, 66, RAY_T_MAX).expect("must hit");
    assert_eq!(rec2.t, 65536);
}

#[test]
fn world_add_and_clear() {
    let mut world = World::new();
    assert_eq!(world.list.len(), 0);
    world.add(Shape::Sphere {
        center: Vector3::new(0, 0, 0),
        radius: 65536,
        material: Material::Lambertian(RGBColor::new(0, 0, 0)),
    });
    assert_eq!(world.list.len(), 1);
    world.clear();
    assert_eq!(world.list.len(), 0);
}

#[test]
fn lambertian_degenerate_direction_falls_back_to_normal() {
    // The sampled unit vector exactly opposes the normal: the sum is the
    // zero vector, and the scatter direction falls back to the normal.
    let normal = Vector3::new(0, 65536, 0);
    let sampled = Vector3::new(0, -65536, 0);
    assert_eq!(lambertian_direction(normal, sampled), normal);

    // A non-degenerate sum is kept as it is.
    let sampled2 = Vector3::new(65536, 0, 0);
    assert_eq!(lambertian_direction(normal, sampled2), Vector3::new(65536, 65536, 0));
}

#[test]
fn lambertian_always_scatters_from_hit_point() {
    let rng = fastrand::Rng::with_seed(7);
    let material = Material::Lambertian(RGBColor::new(45875, 19660, 19660));
    let rec = HitRecord {
        point: Vector3::new(65536, 2 * 65536, 3 * 65536),
        normal: Vector3::new(0, 65536, 0),
        material,
        t: 65536,
        front_face: true,
    };
    let r_in = Ray::new(Vector3::new(0, 0, 0), Vector3::new(65536, -65536, 0));
    let scattered = material.scatter(&rng, &r_in, &rec).expect("diffuse always scatters");
    assert_eq!(scattered.origin, rec.point);
}

#[test]
fn metal_zero_fuzz_reflects_exactly() {
    let rng = fastrand::Rng::with_seed(7);
    let material = Material::Metal(RGBColor::new(45875, 39321, 32768), 0);
    let rec = HitRecord {
        point: Vector3::new(0, 0, 0),
        normal: Vector3::new(0, 65536, 0),
        material,
        t: 65536,
        front_face: true,
    };
    // A 45-degree ray onto the floor: (0.7071, -0.7071, 0) bounces to
    // (0.7071, 0.7071, 0), exactly, since the fuzz perturbation is zero.
    let r_in = Ray::new(Vector3::new(-46341, 46341, 0), Vector3::new(46341, -46341, 0));
    let scattered = material.scatter(&rng, &r_in, &rec).expect("outward reflection scatters");
    assert_eq!(scattered.direction, Vector3::new(46341, 46341, 0));
    assert_eq!(scattered.origin, rec.point);
}

#[test]
fn metal_absorbs_grazing_reflection() {
    // A grazing ray reflects parallel to the surface: the reflected
    // direction has no positive component along the normal, so the
    // metal absorbs it and no ray is scattered.
    let rng = fastrand::Rng::with_seed(7);
    let material = Material::Metal(RGBColor::new(45875, 39321, 32768), 0);
    let rec = HitRecord {
        point: Vector3::new(0, 0, 0),
        normal: Vector3::new(0, 65536, 0),
        material,
        t: 65536,
        front_face: true,
    };
    let r_in = Ray::new(Vector3::new(-65536, 0, 0), Vector3::new(65536, 0, 0));
    assert!(material.scatter(&rng, &r_in, &rec).is_none());
}

#[test]
fn one_bounce_of_an_absorbing_path_is_black() {
    // With a bounce budget of one, a hit scatters and the recursive
    // call returns black, so the attenuated result is black as well,
    // whatever direction was sampled.
    let rng = fastrand::Rng::with_seed(10);
    let world = one_sphere_world();
    let ray = Ray::new(Vector3::new(0, 0, 0), Vector3::new(0, 0, -65536));
    assert_eq!(ray_color(&ray, &world, 1, &rng), RGBColor::new(0, 0, 0));
}

#[test]
fn dielectric_total_internal_reflection() {
    // Leaving glass (index 1.5) at 45 degrees: sin(45) * 1.5 > 1, so
    // Snell's law has no solution and the ray must reflect, exactly.
    let rng = fastrand::Rng::with_seed(7);
    let material = Material::Dielectric(RGBColor::new(65536, 65536, 65536), 98304);
    let rec = HitRecord {
        point: Vector3::new(0, 0, 0),
        normal: Vector3::new(0, -65536, 0),
        material,
        t: 65536,
        front_face: false,
    };
    let r_in = Ray::new(Vector3::new(-46341, -46341, 0), Vector3::new(46341, 46341, 0));
    let scattered = material.scatter(&rng, &r_in, &rec).expect("dielectric always scatters");
    assert_eq!(scattered.direction, Vector3::new(46341, -46341, 0));
}

#[test]
fn attenuation_is_the_material_color() {
    let c = RGBColor::new(45875, 19660, 19660);
    assert_eq!(Material::Lambertian(c).attenuation(), c);
    assert_eq!(Material::Metal(c, 32768).attenuation(), c);
    assert_eq!(Material::Dielectric(c, 98304).attenuation(), c);
}

#[test]
fn ray_color_depth_zero_is_black() {
    let rng = fastrand::Rng::with_seed(10);
    let world = one_sphere_world();
    let ray = Ray::new(Vector3::new(0, 0, 0), Vector3::new(0, 0, -65536));
    assert_eq!(ray_color(&ray, &world, 0, &rng), RGBColor::new(0, 0, 0));
    assert_eq!(ray_color(&ray, &world, -3, &rng), RGBColor::new(0, 0, 0));
}

#[test]
fn background_gradient_endpoints() {
    let rng = fastrand::Rng::with_seed(10);
    let world = World::new();
    // Straight up: the pure sky-blue endpoint.
    let up = Ray::new(Vector3::new(0, 0, 0), Vector3::new(0, 65536, 0));
    assert_eq!(ray_color(&up, &world, 5, &rng), RGBColor::new(32768, 45875, 65536));
    // Straight down: pure white.
    let down = Ray::new(Vector3::new(0, 0, 0), Vector3::new(0, -65536, 0));
    assert_eq!(ray_color(&down, &world, 5, &rng), RGBColor::new(65536, 65536, 65536));
}

#[test]
fn quantized_pixel_levels() {
    // Full-intensity white, one sample: clamps at the top level.
    assert_eq!(RGBColor::new(65536, 65536, 65536).quantized(1), (255, 255, 255));
    // Black stays black, whatever the sample count.
    assert_eq!(RGBColor::new(0, 0, 0).quantized(100), (0, 0, 0));
    // A quarter of full intensity gamma-corrects to one half:
    // round(256 * 0.5) = 128.
    assert_eq!(RGBColor::new(16384, 16384, 16384).quantized(1), (128, 128, 128));
}

fn pinhole_camera() -> Camera {
    Camera::new(
        Vector3::new(0, 0, 0),
        Vector3::new(0, 0, -65536),
        Vector3::new(0, 65536, 0),
        65536,  // tan of half of a 90-degree field of view
        98304,  // 3:2 aspect ratio
        0,      // closed aperture: a pinhole
        65536,  // focus at unit distance
    )
}

#[test]
fn pinhole_camera_rays_are_deterministic() {
    // With a closed aperture the lens sample is scaled away: two calls
    // that consume different random draws give the same ray.
    let rng = fastrand::Rng::with_seed(3);
    let cam = pinhole_camera();
    let r1 = cam.get_ray(13107, 39321, &rng);
    let r2 = cam.get_ray(13107, 39321, &rng);
    assert_eq!(r1, r2);
}

#[test]
fn render_same_seed_is_byte_identical() {
    // One diffuse sphere, a pinhole camera aimed down -z, a fixed seed
    // and a bounce budget of one: two renders agree pixel for pixel.
    let world = one_sphere_world();
    let cam = pinhole_camera();

    let rng1 = fastrand::Rng::with_seed(10);
    let image1 = render(&world, &cam, 6, 4, 2, 1, &rng1);
    let rng2 = fastrand::Rng::with_seed(10);
    let image2 = render(&world, &cam, 6, 4, 2, 1, &rng2);

    assert_eq!(image1.len(), 24);
    assert_eq!(image1, image2);
}

#[test]
fn different_seeds_give_different_sample_streams() {
    let rng1 = fastrand::Rng::with_seed(1);
    let rng2 = fastrand::Rng::with_seed(2);
    assert_ne!(RGBColor::random(&rng1), RGBColor::random(&rng2));
}

#[test]
fn random_interval_stays_inside_bounds() {
    let rng = fastrand::Rng::with_seed(42);
    for _ in 0..32 {
        let c = RGBColor::random_interval(32768, 65536, &rng);
        assert!(32768 <= c.r && c.r < 65536);
        assert!(32768 <= c.g && c.g < 65536);
        assert!(32768 <= c.b && c.b < 65536);
    }
}

#[test]
fn random_interval_empty_interval_returns_min() {
    let rng = fastrand::Rng::with_seed(42);
    assert_eq!(
        RGBColor::random_interval(32768, 32768, &rng),
        RGBColor::new(32768, 32768, 32768)
    );
}

#[test]
fn random_scene_is_well_formed() {
    let rng = fastrand::Rng::with_seed(10);
    let world = random_scene(&rng);
    assert!(world.list.len() >= 4);
    for shape in &world.list {
        match shape {
            Shape::Sphere { radius, .. } => assert!(*radius > 0),
        }
    }
    // The ground sphere comes first and the three feature spheres last.
    assert_eq!(
        world.list[0],
        Shape::Sphere {
            radius: 65536000,
            center: Vector3::new(0, -65536000, 0),
            material: Material::Lambertian(RGBColor::new(32768, 32768, 32768)),
        }
    );
    let n = world.list.len();
    assert!(n <= 488);
    assert!(matches!(world.list[n - 3], Shape::Sphere { material: Material::Dielectric(..), .. }));
    assert!(matches!(world.list[n - 2], Shape::Sphere { material: Material::Lambertian(..), .. }));
    assert!(matches!(world.list[n - 1], Shape::Sphere { material: Material::Metal(..), .. }));

    // Every sphere of the grid sits at height one fifth with radius one
    // fifth, within eleven units of the origin, clear of the metal
    // feature sphere's site, with one of the three material families.
    for k in 1..n - 3 {
        match &world.list[k] {
            Shape::Sphere { radius, center, material } => {
                assert_eq!(*radius, 13107);
                assert_eq!(center.y, 13107);
                assert!(-720896 <= center.x && center.x < 720896);
                assert!(-720896 <= center.z && center.z < 720896);
                assert!(center.sub(Vector3::new(262144, 13107, 0)).length() > 58982);
                match material {
                    Material::Lambertian(al) => {
                        assert!(0 <= al.r && al.r < 65536);
                        assert!(0 <= al.g && al.g < 65536);
                        assert!(0 <= al.b && al.b < 65536);
                    }
                    Material::Metal(al, fuzz) => {
                        assert!(32768 <= al.r && al.r < 65536);
                        assert!(32768 <= al.g && al.g < 65536);
                        assert!(32768 <= al.b && al.b < 65536);
                        assert!(0 <= *fuzz && *fuzz < 32768);
                    }
                    Material::Dielectric(al, refrac_index) => {
                        assert_eq!(*al, RGBColor::new(65536, 65536, 65536));
                        assert_eq!(*refrac_index, 98304);
                    }
                }
            }
        }
    }
}
