//! The signed-distance field.
//!
//! A `Field` is a tree of sphere primitives under constructive solid
//! geometry operators, with two shape modifiers: a coordinate warp and a
//! bounded periodic displacement. Evaluating a field at a point yields a
//! `Sample`: a signed distance estimate (negative inside a solid) together
//! with the surface at the closest feature.

use vstd::prelude::*;

use crate::fixed::{
    fpmul, fpmul_i64, iabs, lemma_floor_sqrt, lemma_floor_sqrt_unique, tdiv, tdiv_i64, wave,
    wave_i64, floor_sqrt, FP, WORLD,
};
use crate::vec3::{
    in_box, l1_of, lemma_mag_le_l1, magsq, v3, vdiff, vscale, vsum, Vec3,
};

verus! {

/// Material response at a field sample: a color (components nominally in
/// `[0, FP]`) and a reflectivity in `[0, FP]`.
#[derive(Clone, Copy, PartialEq, Eq, Structural, Debug)]
pub struct Surface {
    pub color: Vec3,
    pub reflectivity: i64,
}

/// What the field reports at one point: the signed distance estimate to the
/// nearest surface, and that surface.
#[derive(Clone, Copy, PartialEq, Eq, Structural, Debug)]
pub struct Sample {
    pub distance: i64,
    pub surface: Surface,
}

/// A color channel may overshoot 1.0, but only so far.
pub const COLOR_MAX: i64 = 16 * FP;

pub open spec fn wf_surface(s: Surface) -> bool {
    &&& 0 <= s.color.x <= COLOR_MAX
    &&& 0 <= s.color.y <= COLOR_MAX
    &&& 0 <= s.color.z <= COLOR_MAX
    &&& 0 <= s.reflectivity <= FP
}

/// Builds a sample from a mathematical distance; meaningful when the
/// distance fits in `i64`.
pub open spec fn sample_at(d: int, s: Surface) -> Sample {
    Sample { distance: d as i64, surface: s }
}

impl Surface {
    pub fn new(color: Vec3, reflectivity: i64) -> (r: Surface)
        ensures
            r == (Surface { color, reflectivity }),
    {
        Surface { color, reflectivity }
    }
}

pub open spec fn spec_union(s1: Sample, s2: Sample) -> Sample {
    if s1.distance < s2.distance {
        s1
    } else {
        s2
    }
}

pub open spec fn spec_intersect(s1: Sample, s2: Sample) -> Sample {
    if s1.distance < s2.distance {
        s2
    } else {
        s1
    }
}

pub open spec fn spec_invert(s: Sample) -> Sample {
    Sample { distance: (-1 * s.distance) as i64, surface: s.surface }
}

pub open spec fn spec_sphere(p: Vec3, center: Vec3, radius: int, surface: Surface) -> Sample {
    sample_at(floor_sqrt(magsq(vdiff(p, center))) - radius, surface)
}

/// The closer of two samples: the union of two solids.
pub fn union(s1: Sample, s2: Sample) -> (r: Sample)
    ensures
        r == spec_union(s1, s2),
{
    if s1.distance < s2.distance {
        s1
    } else {
        s2
    }
}

/// The farther of two samples: the intersection of two solids.
pub fn intersect(s1: Sample, s2: Sample) -> (r: Sample)
    ensures
        r == spec_intersect(s1, s2),
{
    if s1.distance < s2.distance {
        s2
    } else {
        s1
    }
}

/// Negated distance, same surface: the complement of a solid.
pub fn invert(s: Sample) -> (r: Sample)
    requires
        s.distance > i64::MIN,
    ensures
        r == spec_invert(s),
{
    Sample { distance: -s.distance, surface: s.surface }
}

/// Sphere primitive: distance from `p` to the sphere around `center`.
pub fn sphere(p: Vec3, center: Vec3, radius: i64, surface: Surface) -> (r: Sample)
    requires
        in_box(p, EVAL_BOX as int),
        in_box(center, WORLD as int),
        0 <= radius <= WORLD,
    ensures
        r == spec_sphere(p, center, radius as int, surface),
        iabs(r.distance as int) <= DIST_BASE,
{
    let d = p.minus(center);
    proof {
        lemma_mag_le_l1(d);
    }
    let m = d.mag();
    Sample { distance: m - radius, surface }
}

// Frequencies of the coordinate warp, about 0.4, 0.6 and 0.8.
pub const FREQ_A: i64 = 410;

pub const FREQ_B: i64 = 614;

pub const FREQ_C: i64 = 819;

/// A smooth coordinate distortion: each axis is offset by a wave of another
/// axis, displacing a point by at most one unit per axis.
pub open spec fn warp_pt(p: Vec3) -> Vec3 {
    vsum(
        p,
        v3(
            wave(tdiv(FREQ_A * p.y, FP as int)),
            wave(tdiv(FREQ_B * p.z, FP as int)),
            wave(tdiv(FREQ_C * p.x, FP as int)),
        ),
    )
}

pub fn warp(p: Vec3) -> (r: Vec3)
    requires
        in_box(p, EVAL_BOX as int),
    ensures
        r == warp_pt(p),
        iabs(r.x as int) <= iabs(p.x as int) + FP,
        iabs(r.y as int) <= iabs(p.y as int) + FP,
        iabs(r.z as int) <= iabs(p.z as int) + FP,
{
    let wx = wave_i64(tdiv_i64(FREQ_A * p.y, FP));
    let wy = wave_i64(tdiv_i64(FREQ_B * p.z, FP));
    let wz = wave_i64(tdiv_i64(FREQ_C * p.x, FP));
    p.plus(Vec3::new(wx, wy, wz))
}

/// A bounded periodic perturbation of a sample's distance: the product of
/// three waves of the scaled coordinates, with amplitude `scale`. This can
/// turn the distance into an underestimate; the marcher's minimum-step
/// clamp compensates.
pub open spec fn spec_displace(p: Vec3, scale: int, detail: int, s: Sample) -> Sample {
    let q = vscale(p, detail);
    let d = fpmul(fpmul(fpmul(scale, wave(q.x as int)), wave(q.y as int)), wave(q.z as int));
    sample_at(s.distance + d, s.surface)
}

pub fn displace(p: Vec3, scale: i64, detail: i64, s: Sample) -> (r: Sample)
    requires
        in_box(p, EVAL_BOX as int),
        0 <= scale <= WORLD,
        0 <= detail <= FP,
        iabs(s.distance as int) + WORLD < i64::MAX,
    ensures
        r == spec_displace(p, scale as int, detail as int, s),
        iabs(r.distance as int) <= iabs(s.distance as int) + WORLD,
{
    let q = p.attenuated(detail);
    let wx = wave_i64(q.x);
    let wy = wave_i64(q.y);
    let wz = wave_i64(q.z);
    let d1 = fpmul_i64(scale, wx, WORLD, FP);
    let d2 = fpmul_i64(d1, wy, WORLD, FP);
    let d3 = fpmul_i64(d2, wz, WORLD, FP);
    Sample { distance: s.distance + d3, surface: s.surface }
}

/// A scene: a tree of primitives under constructive solid geometry
/// operators and shape modifiers.
pub enum Field {
    Sphere { center: Vec3, radius: i64, surface: Surface },
    /// Evaluates the inner field at the warped point.
    Warped { inner: Box<Field> },
    /// Perturbs the inner field's distance by a bounded periodic bump.
    Displaced { scale: i64, detail: i64, inner: Box<Field> },
    Union { a: Box<Field>, b: Box<Field> },
    Intersection { a: Box<Field>, b: Box<Field> },
    Complement { inner: Box<Field> },
}

/// Height of the field tree.
pub open spec fn height(f: Field) -> nat
    decreases f,
{
    match f {
        Field::Sphere { .. } => 0,
        Field::Warped { inner } => 1 + height(*inner),
        Field::Displaced { inner, .. } => 1 + height(*inner),
        Field::Union { a, b } => 1 + if height(*a) > height(*b) {
            height(*a)
        } else {
            height(*b)
        },
        Field::Intersection { a, b } => 1 + if height(*a) > height(*b) {
            height(*a)
        } else {
            height(*b)
        },
        Field::Complement { inner } => 1 + height(*inner),
    }
}

/// Depth of field nesting the evaluator supports.
pub const HEIGHT_MAX: i64 = 64;

/// Scene data stays in the world box, amplitudes are non-negative, detail
/// factors shrink, and the tree is of bounded height.
pub open spec fn wf_field(f: Field) -> bool
    decreases f,
{
    height(f) <= HEIGHT_MAX && match f {
        Field::Sphere { center, radius, surface } => in_box(center, WORLD as int) && 0 < radius
            <= WORLD && wf_surface(surface),
        Field::Warped { inner } => wf_field(*inner),
        Field::Displaced { scale, detail, inner } => 0 <= scale <= WORLD && 0 <= detail <= FP
            && wf_field(*inner),
        Field::Union { a, b } => wf_field(*a) && wf_field(*b),
        Field::Intersection { a, b } => wf_field(*a) && wf_field(*b),
        Field::Complement { inner } => wf_field(*inner),
    }
}

/// Every point an evaluated field may see lies inside this box (minus one
/// warp offset per tree level).
pub const EVAL_BOX: i64 = 536870912;

/// Bound on a sphere's distance value anywhere inside the evaluation box.
pub const DIST_BASE: i64 = 1650000000;

/// Bound on any in-bound field's distance value: each tree level can add at
/// most `WORLD` of displacement.
pub const DIST_CAP: i64 = DIST_BASE + HEIGHT_MAX * WORLD;

/// What the field reports at `p`, defined by structural recursion.
pub open spec fn spec_eval(f: Field, p: Vec3) -> Sample
    decreases f,
{
    match f {
        Field::Sphere { center, radius, surface } => spec_sphere(p, center, radius as int, surface),
        Field::Warped { inner } => spec_eval(*inner, warp_pt(p)),
        Field::Displaced { scale, detail, inner } => spec_displace(
            p,
            scale as int,
            detail as int,
            spec_eval(*inner, p),
        ),
        Field::Union { a, b } => spec_union(spec_eval(*a, p), spec_eval(*b, p)),
        Field::Intersection { a, b } => spec_intersect(spec_eval(*a, p), spec_eval(*b, p)),
        Field::Complement { inner } => spec_invert(spec_eval(*inner, p)),
    }
}

/// Evaluates the field at `p`: the executable mirror of `spec_eval`, with
/// every intermediate value proven to stay in machine range.
pub fn evaluate(f: &Field, p: Vec3) -> (s: Sample)
    requires
        wf_field(*f),
        in_box(p, EVAL_BOX as int - FP * height(*f)),
    ensures
        s == spec_eval(*f, p),
        iabs(s.distance as int) <= DIST_BASE + height(*f) * WORLD,
    decreases height(*f),
{
    match f {
        Field::Sphere { center, radius, surface } => sphere(p, *center, *radius, *surface),
        Field::Warped { inner } => {
            let q = warp(p);
            evaluate(&**inner, q)
        },
        Field::Displaced { scale, detail, inner } => {
            let s = evaluate(&**inner, p);
            proof {
                assert(height(**inner) * WORLD <= (HEIGHT_MAX - 1) * WORLD);
            }
            displace(p, *scale, *detail, s)
        },
        Field::Union { a, b } => {
            let sa = evaluate(&**a, p);
            let sb = evaluate(&**b, p);
            union(sa, sb)
        },
        Field::Intersection { a, b } => {
            let sa = evaluate(&**a, p);
            let sb = evaluate(&**b, p);
            intersect(sa, sb)
        },
        Field::Complement { inner } => {
            let s = evaluate(&**inner, p);
            invert(s)
        },
    }
}

/// A well-formed field only ever reports a well-formed surface: every
/// operator hands out one of its operands' surfaces unchanged.
pub proof fn lemma_eval_surface_wf(f: Field, p: Vec3)
    requires
        wf_field(f),
    ensures
        wf_surface(spec_eval(f, p).surface),
    decreases f,
{
    match f {
        Field::Sphere { .. } => {},
        Field::Warped { inner } => {
            lemma_eval_surface_wf(*inner, warp_pt(p));
        },
        Field::Displaced { inner, .. } => {
            lemma_eval_surface_wf(*inner, p);
        },
        Field::Union { a, b } => {
            lemma_eval_surface_wf(*a, p);
            lemma_eval_surface_wf(*b, p);
        },
        Field::Intersection { a, b } => {
            lemma_eval_surface_wf(*a, p);
            lemma_eval_surface_wf(*b, p);
        },
        Field::Complement { inner } => {
            lemma_eval_surface_wf(*inner, p);
        },
    }
}

// ---------------------------------------------------------------------------
// The demo scene: two merged spheres (one warped), with a rippled cavity
// carved out by intersecting with the complement of a displaced third
// sphere.
// ---------------------------------------------------------------------------

pub open spec fn spec_mat1() -> Surface {
    Surface { color: v3(1024, 819, 410), reflectivity: 410 }
}

pub open spec fn spec_mat2() -> Surface {
    Surface { color: v3(410, 819, 1024), reflectivity: 205 }
}

pub open spec fn spec_mat3() -> Surface {
    Surface { color: v3(1024, 410, 819), reflectivity: 0 }
}

pub open spec fn spec_sphere1() -> Field {
    Field::Sphere { center: v3(-30720, 0, 0), radius: 66560, surface: spec_mat1() }
}

pub open spec fn spec_sphere2() -> Field {
    Field::Sphere { center: v3(30720, 10240, -10240), radius: 51200, surface: spec_mat2() }
}

pub open spec fn spec_sphere3() -> Field {
    Field::Sphere { center: v3(10240, -20480, -61440), radius: 30720, surface: spec_mat3() }
}

pub open spec fn spec_scene() -> Field {
    Field::Intersection {
        a: Box::new(
            Field::Union {
                a: Box::new(Field::Warped { inner: Box::new(spec_sphere1()) }),
                b: Box::new(spec_sphere2()),
            },
        ),
        b: Box::new(
            Field::Complement {
                inner: Box::new(
                    Field::Displaced { scale: 10240, detail: 205, inner: Box::new(spec_sphere3()) },
                ),
            },
        ),
    }
}

pub proof fn lemma_scene_wf()
    ensures
        wf_field(spec_scene()),
        height(spec_scene()) == 3,
{
    reveal_with_fuel(height, 6);
    reveal_with_fuel(wf_field, 6);
}

/// Builds the demo scene.
pub fn scene() -> (f: Field)
    ensures
        f == spec_scene(),
        wf_field(f),
        height(f) == 3,
{
    proof {
        lemma_scene_wf();
    }
    let mat1 = Surface::new(Vec3::new(1024, 819, 410), 410);
    let mat2 = Surface::new(Vec3::new(410, 819, 1024), 205);
    let mat3 = Surface::new(Vec3::new(1024, 410, 819), 0);
    Field::Intersection {
        a: Box::new(
            Field::Union {
                a: Box::new(
                    Field::Warped {
                        inner: Box::new(
                            Field::Sphere {
                                center: Vec3::new(-30720, 0, 0),
                                radius: 66560,
                                surface: mat1,
                            },
                        ),
                    },
                ),
                b: Box::new(
                    Field::Sphere {
                        center: Vec3::new(30720, 10240, -10240),
                        radius: 51200,
                        surface: mat2,
                    },
                ),
            },
        ),
        b: Box::new(
            Field::Complement {
                inner: Box::new(
                    Field::Displaced {
                        scale: 10240,
                        detail: 205,
                        inner: Box::new(
                            Field::Sphere {
                                center: Vec3::new(10240, -20480, -61440),
                                radius: 30720,
                                surface: mat3,
                            },
                        ),
                    },
                ),
            },
        ),
    }
}

/// The demo scene's field, evaluated at `p`.
pub fn distfield(p: Vec3) -> (s: Sample)
    requires
        in_box(p, EVAL_BOX as int - HEIGHT_MAX * FP),
    ensures
        s == spec_eval(spec_scene(), p),
{
    let f = scene();
    evaluate(&f, p)
}

// ---------------------------------------------------------------------------
// Laws of the composition operators.
// ---------------------------------------------------------------------------

/// A union's distance is the minimum of its operands' distances, and its
/// sample is one of the operands.
pub proof fn lemma_union_distance(a: Sample, b: Sample)
    ensures
        spec_union(a, b).distance == if a.distance <= b.distance {
            a.distance
        } else {
            b.distance
        },
        spec_union(a, b) == a || spec_union(a, b) == b,
{
}

/// An intersection's distance is the maximum of its operands' distances,
/// and its sample is one of the operands.
pub proof fn lemma_intersect_distance(a: Sample, b: Sample)
    ensures
        spec_intersect(a, b).distance == if a.distance >= b.distance {
            a.distance
        } else {
            b.distance
        },
        spec_intersect(a, b) == a || spec_intersect(a, b) == b,
{
}

/// Inversion negates the distance and keeps the surface.
pub proof fn lemma_invert_distance(s: Sample)
    requires
        s.distance > i64::MIN,
    ensures
        spec_invert(s).distance == -s.distance,
        spec_invert(s).surface == s.surface,
{
}

/// Inverting twice restores the sample.
pub proof fn lemma_invert_involution(s: Sample)
    requires
        s.distance > i64::MIN,
    ensures
        spec_invert(spec_invert(s)) == s,
{
}

/// On a sphere's surface the sphere's sample distance is exactly zero.
pub proof fn lemma_sphere_surface_zero(p: Vec3, center: Vec3, radius: int, surface: Surface)
    requires
        0 <= radius <= WORLD,
        magsq(vdiff(p, center)) == radius * radius,
    ensures
        spec_sphere(p, center, radius, surface).distance == 0,
{
    assert(radius * radius < (radius + 1) * (radius + 1) && radius * radius >= 0)
        by (nonlinear_arith)
        requires
            radius >= 0,
    ;
    lemma_floor_sqrt_unique(radius * radius, radius);
}

/// Strictly outside a sphere (by at least one raw unit of rounding), the
/// sphere's sample distance is positive.
pub proof fn lemma_sphere_outside_positive(p: Vec3, center: Vec3, radius: int, surface: Surface)
    requires
        0 <= radius <= WORLD,
        in_box(p, EVAL_BOX as int),
        in_box(center, WORLD as int),
        magsq(vdiff(p, center)) >= (radius + 1) * (radius + 1),
    ensures
        spec_sphere(p, center, radius, surface).distance > 0,
{
    let d = vdiff(p, center);
    lemma_mag_le_l1(d);
    let fs = floor_sqrt(magsq(d));
    lemma_floor_sqrt(magsq(d));
    assert(fs >= radius + 1) by (nonlinear_arith)
        requires
            fs >= 0,
            radius >= 0,
            (fs + 1) * (fs + 1) > magsq(vdiff(p, center)),
            magsq(vdiff(p, center)) >= (radius + 1) * (radius + 1),
    ;
}

/// Strictly outside both spheres of the union, the whole scene's distance
/// is positive: the carved cavity can only remove material, never add it.
pub proof fn lemma_scene_positive_outside(p: Vec3)
    requires
        spec_eval(spec_sphere1(), warp_pt(p)).distance > 0,
        spec_eval(spec_sphere2(), p).distance > 0,
        spec_eval(spec_sphere3(), p).distance > 0,
    ensures
        spec_eval(spec_scene(), p).distance > 0,
{
    reveal_with_fuel(spec_eval, 6);
}

} // verus!
