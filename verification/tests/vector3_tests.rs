//! Vector algebra checks, written against the Q47.16 fixed-point
//! representation: an `i64` component holds the real value times 65536.

use rust_ray_tracer::vector3::Vector3;

#[test]
fn length_test() {
    let new_vec = Vector3::new(65536, 2 * 65536, 3 * 65536);

    // |(1, 2, 3)| = sqrt(14); in fixed point floor(65536 * sqrt(14)).
    assert_eq!(new_vec.length(), 245213)
}

#[test]
fn dot_test() {
    let vec1 = Vector3::new(65536, 2 * 65536, 3 * 65536);
    let vec2 = Vector3::new(2 * 65536, 3 * 65536, 294912);

    // (1, 2, 3) . (2, 3, 4.5) = 21.5, exact in fixed point.
    let res: i64 = 1409024;

    assert_eq!(res, vec1.dot(vec2))
}

#[test]
fn cross_test() {
    let vec1 = Vector3::new(4 * 65536, 2 * 65536, -5 * 65536);
    let vec2 = Vector3::new(2 * 65536, -3 * 65536, 7 * 65536);
    let res = Vector3::new(-65536, -38 * 65536, -16 * 65536);

    assert_eq!(res, vec1.cross(vec2))
}

#[test]
fn unit_test() {
    let vec1 = Vector3::new(65536, 65536, 65536);

    // 1/sqrt(3) in fixed point, with the truncation of length and
    // division both rounding down.
    let res = Vector3::new(37837, 37837, 37837);

    assert_eq!(vec1.unit(), res)
}

#[test]
fn new_test() {
    let new_vec = Vector3::new(65536, 2 * 65536, 3 * 65536);
    let cons_vec = Vector3 { x: 65536, y: 2 * 65536, z: 3 * 65536 };
    assert_eq!(new_vec, cons_vec)
}

#[test]
fn add_test() {
    let vec1 = Vector3::new(65536, 2 * 65536, 3 * 65536);
    let vec2 = Vector3::new(2 * 65536, 3 * 65536, 294912);
    let res = Vector3::new(3 * 65536, 5 * 65536, 491520);

    assert_eq!(res, vec1.add(vec2));
}

#[test]
fn sub_test() {
    let vec1 = Vector3::new(65536, 2 * 65536, 3 * 65536);
    let vec2 = Vector3::new(2 * 65536, 3 * 65536, 294912);
    let res = Vector3::new(-65536, -65536, -98304);

    assert_eq!(res, vec1.sub(vec2));
}

#[test]
fn div_scalar_test() {
    let vec1 = Vector3::new(2 * 65536, 4 * 65536, 3 * 65536);
    let res = Vector3::new(65536, 2 * 65536, 98304);

    assert_eq!(res, vec1.div(2 * 65536));
}

#[test]
fn mul_scalar_test() {
    let vec1 = Vector3::new(2 * 65536, 4 * 65536, 3 * 65536);
    let res = Vector3::new(4 * 65536, 8 * 65536, 6 * 65536);

    assert_eq!(res, vec1.mul(2 * 65536));
}

#[test]
fn mul_vec_test() {
    let vec1 = Vector3::new(2 * 65536, 4 * 65536, 3 * 65536);
    let vec2 = Vector3::new(4 * 65536, 8 * 65536, 6 * 65536);
    let res = Vector3::new(8 * 65536, 32 * 65536, 18 * 65536);

    assert_eq!(res, vec1.mul_vec(vec2));
}

#[test]
fn neg_test() {
    let vec1 = Vector3::new(2 * 65536, 4 * 65536, 3 * 65536);
    let res = Vector3::new(-2 * 65536, -4 * 65536, -3 * 65536);

    assert_eq!(res, vec1.neg());
}

#[test]
fn reflect_test() {
    // A ray straight down reflects straight up off a floor normal.
    let v = Vector3::new(0, -65536, 0);
    let n = Vector3::new(0, 65536, 0);
    assert_eq!(v.reflect(n), Vector3::new(0, 65536, 0));
}

#[test]
fn refract_straight_through_test() {
    // With a refraction ratio of one, a head-on ray passes unbent.
    let v = Vector3::new(0, -65536, 0);
    let n = Vector3::new(0, 65536, 0);
    assert_eq!(v.refract(n, 65536), Vector3::new(0, -65536, 0));
}

#[test]
fn unit_length_is_close_to_one() {
    // Normalizing a vector of at least unit magnitude gives squared
    // length within a few truncation steps of one (65536 in fixed
    // point); far below one unit the relative resolution is too coarse
    // for normalization to mean much.
    let samples = [
        Vector3::new(65536, 2 * 65536, 3 * 65536),
        Vector3::new(-65536, 65536, 65536),
        Vector3::new(7 * 65536, 0, -2 * 65536),
        Vector3::new(1000 * 65536, 65536, 0),
    ];
    for v in samples {
        let ls = v.unit().length_squared();
        assert!((ls - 65536).abs() <= 8, "squared length {} strays from one", ls);
    }
}

#[test]
fn near_zero_test() {
    assert!(Vector3::new(0, 0, 0).near_zero());
    assert!(!Vector3::new(1, 0, 0).near_zero());
}
