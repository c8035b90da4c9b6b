//! Tests of the fixed-point scalars, vectors and the distance field.

use raycast::distfield::{
    distfield, intersect, invert, sphere, union, Sample, Surface,
};
use raycast::fixed::{isqrt_i64, wave_i64, FP};
use raycast::vec3::Vec3;

fn gray() -> Surface {
    Surface::new(Vec3::new(FP, FP, FP), 0)
}

#[test]
fn isqrt_small_values() {
    assert_eq!(isqrt_i64(0), 0);
    assert_eq!(isqrt_i64(1), 1);
    assert_eq!(isqrt_i64(24), 4);
    assert_eq!(isqrt_i64(25), 5);
    assert_eq!(isqrt_i64(26), 5);
    assert_eq!(isqrt_i64(1 << 40), 1 << 20);
}

#[test]
fn wave_is_bounded_and_periodic() {
    let mut x: i64 = -20000;
    while x <= 20000 {
        let w = wave_i64(x);
        assert!(-FP <= w && w <= FP);
        assert_eq!(w, wave_i64(x + 6434));
        x += 37;
    }
    assert_eq!(wave_i64(0), 0);
    // The crest of the first arch, a quarter period in, and its mirrored
    // trough half a period later.
    assert_eq!(wave_i64(1608), 1023);
    assert_eq!(wave_i64(1608 + 3217), -1023);
}

#[test]
fn normalized_is_exact_on_a_pythagorean_vector() {
    let v = Vec3::new(3 * FP, 4 * FP, 0);
    let n = v.normalized();
    assert_eq!(n, Vec3::new(614, 819, 0));
}

#[test]
fn union_takes_the_closer_sample() {
    let a = Sample { distance: 5, surface: gray() };
    let b = Sample { distance: -3, surface: Surface::new(Vec3::new(0, 0, 0), FP) };
    assert_eq!(union(a, b).distance, -3);
    assert_eq!(union(b, a).distance, -3);
    assert_eq!(union(a, b).surface, b.surface);
}

#[test]
fn intersect_takes_the_farther_sample() {
    let a = Sample { distance: 5, surface: gray() };
    let b = Sample { distance: -3, surface: Surface::new(Vec3::new(0, 0, 0), FP) };
    assert_eq!(intersect(a, b).distance, 5);
    assert_eq!(intersect(b, a).distance, 5);
    assert_eq!(intersect(a, b).surface, a.surface);
}

#[test]
fn invert_negates_and_is_an_involution() {
    let a = Sample { distance: 7, surface: gray() };
    let i = invert(a);
    assert_eq!(i.distance, -7);
    assert_eq!(i.surface, a.surface);
    assert_eq!(invert(i), a);
}

#[test]
fn sphere_distance_is_zero_on_the_surface() {
    let c = Vec3::new(100, -200, 300);
    let r: i64 = 50 * FP;
    let on = Vec3::new(100 + r, -200, 300);
    assert_eq!(sphere(on, c, r, gray()).distance, 0);
}

#[test]
fn sphere_distance_signs() {
    let c = Vec3::new(0, 0, 0);
    let r: i64 = 50 * FP;
    let outside = Vec3::new(0, 80 * FP, 0);
    let inside = Vec3::new(10 * FP, 0, 0);
    assert_eq!(sphere(outside, c, r, gray()).distance, 30 * FP);
    assert_eq!(sphere(inside, c, r, gray()).distance, -40 * FP);
}

#[test]
fn scene_is_positive_outside_and_negative_inside() {
    // Far outside both union spheres.
    let far = Vec3::new(300 * FP, 0, 0);
    assert!(distfield(far).distance > 0);
    // The origin lies inside the union and outside the carved cavity.
    let origin = Vec3::new(0, 0, 0);
    assert!(distfield(origin).distance < 0);
}
