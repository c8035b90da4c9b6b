//! Tests of the marcher, the shading model and the renderer.

use raycast::distfield::{Field, Surface};
use raycast::fixed::FP;
use raycast::march::{raycast, raycast_out, Escape, ESCAPE_SQ};
use raycast::render::render_pixel;
use raycast::shade::{apply_lights, guess_normal, trace, Light};
use raycast::vec3::Vec3;

fn plain_sphere(center: Vec3, radius: i64, reflectivity: i64) -> Field {
    Field::Sphere {
        center,
        radius,
        surface: Surface::new(Vec3::new(FP, FP, FP), reflectivity),
    }
}

fn eye() -> Vec3 {
    Vec3::new(0, 0, -100 * FP)
}

fn demo_lights() -> Vec<Light> {
    vec![
        Light::new(
            Vec3::new(500 * FP, 1000 * FP, -300 * FP),
            Vec3::new(FP, FP / 2, 0),
        ),
        Light::new(
            Vec3::new(-700 * FP, -500 * FP, -10 * FP),
            Vec3::new(0, FP / 2, FP),
        ),
        Light::new(
            Vec3::new(-700 * FP, 1500 * FP, 10 * FP),
            Vec3::new(FP / 2, 0, FP),
        ),
        Light::new(Vec3::new(10 * FP, -20 * FP, -50 * FP), Vec3::new(307, 205, 205)),
    ]
}

#[test]
fn march_hits_a_sphere_dead_on() {
    // A ray aimed at the center of an undisplaced sphere stops on the
    // analytic intersection: 50 units short of the center.
    let f = plain_sphere(Vec3::new(0, 0, 0), 50 * FP, 0);
    let esc = Escape::WithinSq { center: eye(), bound: ESCAPE_SQ };
    let hit = raycast(&f, eye(), Vec3::new(0, 0, FP), &esc);
    let (s, p) = hit.expect("the ray points at the sphere");
    assert_eq!(p, Vec3::new(0, 0, -50 * FP));
    assert_eq!(s.distance, 0);
}

#[test]
fn march_escapes_when_aimed_away() {
    let f = plain_sphere(Vec3::new(0, 0, 0), 50 * FP, 0);
    let esc = Escape::WithinSq { center: eye(), bound: ESCAPE_SQ };
    let miss = raycast(&f, eye(), Vec3::new(0, 0, -FP), &esc);
    assert!(miss.is_none());
}

#[test]
fn march_out_steps_off_a_surface() {
    let f = plain_sphere(Vec3::new(0, 0, 0), 50 * FP, 0);
    let q = raycast_out(&f, Vec3::new(0, 0, -50 * FP), Vec3::new(0, 0, -FP));
    assert_eq!(q, Vec3::new(0, 0, -50 * FP - 10));
}

#[test]
fn normal_on_a_sphere_points_along_the_radius() {
    let f = plain_sphere(Vec3::new(0, 0, 0), 50 * FP, 0);
    let n = guess_normal(&f, Vec3::new(50 * FP, 0, 0));
    assert_eq!(n, Vec3::new(FP, 0, 0));
    let m = guess_normal(&f, Vec3::new(0, 0, -50 * FP));
    assert_eq!(m, Vec3::new(0, 0, -FP));
}

#[test]
fn occluder_between_light_and_point_casts_a_shadow() {
    let light = Light::new(Vec3::new(200 * FP, 0, 0), Vec3::new(FP, FP, FP));
    let point = Vec3::new(0, 0, 0);
    // An opaque sphere squarely between the point and the light.
    let occluder = plain_sphere(Vec3::new(100 * FP, 0, 0), 10 * FP, 0);
    assert!(light.in_shadow(&occluder, point));
    // The same sphere moved far off the shadow ray: no shadow, all else
    // equal.
    let bystander = plain_sphere(Vec3::new(0, 300 * FP, 0), 10 * FP, 0);
    assert!(!light.in_shadow(&bystander, point));
}

#[test]
fn zero_bounces_never_issue_a_secondary_ray() {
    // A fully reflective sphere, traced with no bounces left: the result is
    // the direct lighting alone.
    let f = plain_sphere(Vec3::new(0, 0, 0), 50 * FP, FP / 2);
    let lights = demo_lights();
    let dir = Vec3::new(0, 0, FP);
    let esc = Escape::WithinSq { center: eye(), bound: ESCAPE_SQ };
    let (s, p) = raycast(&f, eye(), dir, &esc).expect("the ray points at the sphere");
    let n = guess_normal(&f, p);
    let direct = apply_lights(&f, p, s.surface, n, &lights);
    assert_eq!(trace(&f, eye(), dir, &lights, 0), Some(direct));
    // With a bounce allowed, the reflection does alter the color.
    assert_ne!(trace(&f, eye(), dir, &lights, 1), Some(direct));
}

#[test]
fn single_sphere_end_to_end() {
    // One white sphere of radius 50 at the origin, one white light far
    // behind the eye: the ray hits 50 units short of the center, the normal
    // faces the light head on, and the color is the full product of light
    // and surface colors.
    let f = plain_sphere(Vec3::new(0, 0, 0), 50 * FP, 0);
    let light = Light::new(Vec3::new(0, 0, -1000 * FP), Vec3::new(FP, FP, FP));
    let lights = vec![light];
    let dir = Vec3::new(0, 0, FP);
    let esc = Escape::WithinSq { center: eye(), bound: ESCAPE_SQ };
    let (s, p) = raycast(&f, eye(), dir, &esc).expect("the ray points at the sphere");
    assert_eq!(p, Vec3::new(0, 0, -50 * FP));
    assert_eq!(s.distance, 0);
    let c = trace(&f, eye(), dir, &lights, 0).expect("the ray points at the sphere");
    assert_eq!(c, Vec3::new(FP, FP, FP));
}

#[test]
fn center_pixel_is_opaque_and_corner_pixel_is_transparent() {
    let lights = demo_lights();
    let hit = render_pixel(320, 240, 640, 480, eye(), &lights, 5);
    assert_eq!(hit.a, 255);
    let miss = render_pixel(0, 0, 640, 480, eye(), &lights, 5);
    assert_eq!(miss.a, 0);
    assert_eq!((miss.r, miss.g, miss.b), (0, 0, 0));
}
