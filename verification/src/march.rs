//! The marcher.
//!
//! A ray is stepped through a field by the field's own distance estimate,
//! clamped between a minimum step (so the march cannot stall on a
//! vanishing or underestimated distance) and a maximum step (an overflow
//! guard far beyond the scene scale). An escape predicate, supplied by the
//! caller, bounds how far a ray may travel before it is declared a miss;
//! together with a far range box it also bounds the number of steps: each
//! step advances the ray along its direction by at least one raw unit, and
//! that advance cannot exceed what the range box allows, so both marching
//! loops terminate and the models below are well defined.

use vstd::prelude::*;

use crate::distfield::{evaluate, spec_eval, wf_field, Field, Sample, Surface};
use crate::fixed::{
    lemma_floor_sqrt_unique, tdiv, FP, FP2, MARCH_L1, MAX_STEP, MIN_STEP, RANGE_L1, WORLD,
};
use crate::vec3::{
    dot3, in_box, is_unit, l1_of, lemma_dot_l1, lemma_step_gain, magsq, v3, vdiff, vscale, vsum,
    Vec3,
};

verus! {

/// Largest admissible bound of a `WithinSq` escape predicate.
pub const BOUND_MAX: i64 = 17592186044416;

/// Escape bound of a primary or reflected ray: squared distance from the
/// ray origin beyond which it has left the scene (1000 scene units).
pub const ESCAPE_SQ: i64 = 1000000 * FP * FP;

/// The escape predicate of a marching ray: marching continues only while it
/// holds.
pub enum Escape {
    /// The squared distance from `center` stays below `bound`.
    WithinSq { center: Vec3, bound: i64 },
    /// The ray still moves toward `target` along `axis`.
    Toward { target: Vec3, axis: Vec3 },
}

impl Escape {
    pub open spec fn wf(self) -> bool {
        match self {
            Escape::WithinSq { center, bound } => in_box(center, MARCH_L1 as int) && 0 < bound
                <= BOUND_MAX,
            Escape::Toward { target, axis } => in_box(target, MARCH_L1 as int) && in_box(
                axis,
                FP as int,
            ),
        }
    }

    pub open spec fn holds(self, p: Vec3) -> bool {
        match self {
            Escape::WithinSq { center, bound } => magsq(vdiff(p, center)) < bound,
            Escape::Toward { target, axis } => dot3(vdiff(target, p), axis) > 0,
        }
    }

    pub fn eval(&self, p: Vec3) -> (r: bool)
        requires
            self.wf(),
            l1_of(p) <= MARCH_L1 as int,
        ensures
            r == self.holds(p),
    {
        match self {
            Escape::WithinSq { center, bound } => {
                let d = p.minus(*center);
                d.mag_sq() < *bound
            },
            Escape::Toward { target, axis } => {
                let d = target.minus(p);
                d.dot(*axis) > 0
            },
        }
    }
}

/// The marching step: the field's distance estimate, clamped from below by
/// the minimum step and from above by the overflow guard.
pub open spec fn clamp_step(d: int) -> int {
    if d < MIN_STEP {
        MIN_STEP as int
    } else if d > MAX_STEP {
        MAX_STEP as int
    } else {
        d
    }
}

pub fn clamp_step_i64(d: i64) -> (r: i64)
    ensures
        r == clamp_step(d as int),
        MIN_STEP <= r <= MAX_STEP,
{
    if d < MIN_STEP {
        MIN_STEP
    } else if d > MAX_STEP {
        MAX_STEP
    } else {
        d
    }
}

/// How much room a marching ray has left: while the current point is inside
/// the range box, its advance along the ray direction is strictly below
/// this measure, and every step raises the advance by at least one.
pub open spec fn march_measure(from: Vec3, p: Vec3, dir: Vec3) -> int {
    (2 * MARCH_L1 + 1) * FP - dot3(vdiff(p, from), dir)
}

/// What holds of the points a marching loop passes through.
pub open spec fn march_inv(from: Vec3, p: Vec3, dir: Vec3) -> bool {
    is_unit(dir) && l1_of(from) <= MARCH_L1 as int && l1_of(p) <= MARCH_L1 as int
}

/// The dot product is additive in its left operand.
proof fn lemma_dot3_sum(a: Vec3, b: Vec3, c: Vec3, d: Vec3)
    requires
        a.x == b.x + c.x,
        a.y == b.y + c.y,
        a.z == b.z + c.z,
    ensures
        dot3(a, d) == dot3(b, d) + dot3(c, d),
{
    assert((a.x as int) * (d.x as int) == (b.x as int) * (d.x as int) + (c.x as int) * (d.x as int))
        by (nonlinear_arith)
        requires
            a.x == b.x + c.x,
    ;
    assert((a.y as int) * (d.y as int) == (b.y as int) * (d.y as int) + (c.y as int) * (d.y as int))
        by (nonlinear_arith)
        requires
            a.y == b.y + c.y,
    ;
    assert((a.z as int) * (d.z as int) == (b.z as int) * (d.z as int) + (c.z as int) * (d.z as int))
        by (nonlinear_arith)
        requires
            a.z == b.z + c.z,
    ;
}

/// Facts shared by both marching loops: at an in-range point the measure is
/// positive, and one clamped step keeps the point in range while strictly
/// shrinking the measure.
#[verifier::rlimit(100)]
proof fn lemma_march_step(from: Vec3, p: Vec3, dir: Vec3, d: int)
    requires
        march_inv(from, p, dir),
        l1_of(p) <= RANGE_L1 as int,
    ensures
        march_measure(from, p, dir) >= FP,
        march_inv(from, vsum(p, vscale(dir, clamp_step(d))), dir),
        march_measure(from, vsum(p, vscale(dir, clamp_step(d))), dir) < march_measure(
            from,
            p,
            dir,
        ),
        march_measure(from, vsum(p, vscale(dir, clamp_step(d))), dir) >= 0,
        l1_of(vsum(p, vscale(dir, clamp_step(d)))) <= MARCH_L1 as int,
{
    let s = clamp_step(d);
    let t = vscale(dir, s);
    lemma_step_gain(dir, s);
    let q = vsum(p, t);
    assert(q.x == p.x + t.x && q.y == p.y + t.y && q.z == p.z + t.z);
    assert(l1_of(q) <= MARCH_L1 as int);
    lemma_dot_l1(vdiff(p, from), dir, FP as int);
    lemma_dot_l1(vdiff(q, from), dir, FP as int);
    lemma_dot3_sum(vdiff(q, from), vdiff(p, from), t, dir);
}

/// The march itself: from `p`, declare a miss once the escape predicate
/// fails or the point leaves the range box; report a hit at the first point
/// whose distance estimate is non-positive; otherwise take one clamped step
/// and continue.
pub open spec fn spec_march(f: Field, from: Vec3, p: Vec3, dir: Vec3, esc: Escape) -> Option<
    (Sample, Vec3),
>
    decreases march_measure(from, p, dir)
        when march_inv(from, p, dir)
        via spec_march_decreases
{
    if !esc.holds(p) {
        None
    } else if l1_of(p) > RANGE_L1 as int {
        None
    } else {
        let s = spec_eval(f, p);
        if s.distance <= 0 {
            Some((s, p))
        } else {
            spec_march(f, from, vsum(p, vscale(dir, clamp_step(s.distance as int))), dir, esc)
        }
    }
}

#[via_fn]
proof fn spec_march_decreases(f: Field, from: Vec3, p: Vec3, dir: Vec3, esc: Escape) {
    if esc.holds(p) && l1_of(p) <= RANGE_L1 as int && spec_eval(f, p).distance > 0 {
        lemma_march_step(from, p, dir, spec_eval(f, p).distance as int);
    }
}

/// A ray whose escape predicate fails is declared a miss at once: marching
/// never continues past its predicate, and (by this function's own
/// termination measure) a ray reaches that state within a number of steps
/// bounded by its room divided by the minimum advance of one raw unit.
pub proof fn lemma_march_escape_is_miss(f: Field, from: Vec3, p: Vec3, dir: Vec3, esc: Escape)
    requires
        march_inv(from, p, dir),
        !esc.holds(p),
    ensures
        spec_march(f, from, p, dir, esc) is None,
{
}

/// Marching out of a solid: from `p`, walk forward while the field still
/// reports a non-positive distance (still inside), and return the first
/// point outside; a point that leaves the range box is returned as it is.
pub open spec fn spec_march_out(f: Field, from: Vec3, p: Vec3, dir: Vec3) -> Vec3
    decreases march_measure(from, p, dir)
        when march_inv(from, p, dir)
        via spec_march_out_decreases
{
    if l1_of(p) > RANGE_L1 as int {
        p
    } else {
        let d = spec_eval(f, p).distance;
        if d > 0 {
            p
        } else {
            spec_march_out(f, from, vsum(p, vscale(dir, clamp_step(-d))), dir)
        }
    }
}

#[via_fn]
proof fn spec_march_out_decreases(f: Field, from: Vec3, p: Vec3, dir: Vec3) {
    if l1_of(p) <= RANGE_L1 as int && spec_eval(f, p).distance <= 0 {
        lemma_march_step(from, p, dir, -(spec_eval(f, p).distance as int));
    }
}

/// Steps a ray through the field until it crosses a surface or escapes.
pub fn raycast(f: &Field, from: Vec3, dir: Vec3, esc: &Escape) -> (r: Option<(Sample, Vec3)>)
    requires
        wf_field(*f),
        l1_of(from) <= MARCH_L1 as int,
        is_unit(dir),
        esc.wf(),
    ensures
        r == spec_march(*f, from, from, dir, *esc),
        r matches Some((s, p)) ==> s == spec_eval(*f, p) && s.distance <= 0 && l1_of(p)
            <= MARCH_L1 as int && esc.holds(p),
{
    let mut p = from;
    loop
        invariant
            wf_field(*f),
            esc.wf(),
            march_inv(from, p, dir),
            spec_march(*f, from, p, dir, *esc) == spec_march(*f, from, from, dir, *esc),
        decreases march_measure(from, p, dir),
    {
        if !esc.eval(p) {
            return None;
        }
        if p.l1() > RANGE_L1 {
            return None;
        }
        let s = evaluate(f, p);
        if s.distance <= 0 {
            return Some((s, p));
        }
        let step = clamp_step_i64(s.distance);
        proof {
            lemma_march_step(from, p, dir, s.distance as int);
        }
        p = p.plus(dir.stepped(step));
    }
}

/// A ray aimed straight at a sphere's center from outside hits the analytic
/// intersection exactly: for an axis-aligned ray the fixed-point stepping
/// is free of rounding, so the first step lands on the surface and the
/// march reports it with distance zero. (Off-axis rays land within the
/// marcher's rounding of the same point.)
pub proof fn lemma_march_hits_axis_sphere(z0: i64, radius: i64, surface: Surface)
    requires
        0 < radius <= WORLD,
        MIN_STEP <= -z0 - radius,
        -z0 - radius < 1000 * FP,
    ensures
        ({
            let f = Field::Sphere { center: v3(0, 0, 0), radius, surface };
            let from = v3(0, 0, z0 as int);
            let dir = v3(0, 0, FP as int);
            let esc = Escape::WithinSq { center: from, bound: ESCAPE_SQ };
            spec_march(f, from, from, dir, esc) == Some(
                (Sample { distance: 0, surface }, v3(0, 0, -radius as int)),
            )
        }),
{
    let f = Field::Sphere { center: v3(0, 0, 0), radius, surface };
    let from = v3(0, 0, z0 as int);
    let dir = v3(0, 0, FP as int);
    let esc = Escape::WithinSq { center: from, bound: ESCAPE_SQ };
    let d0 = -z0 - radius;
    assert(magsq(dir) == FP2) by (nonlinear_arith)
        requires
            magsq(dir) == (dir.x as int) * (dir.x as int) + (dir.y as int) * (dir.y as int) + (
            dir.z as int) * (dir.z as int),
            dir.x == 0 && dir.y == 0 && dir.z == FP,
            FP2 == FP * FP,
    ;
    // The field at the origin point: the exact axial distance.
    assert((z0 as int) * (z0 as int) == (-z0 as int) * (-z0 as int) && (-z0 as int) * (-z0 as int)
        < (-z0 as int + 1) * (-z0 as int + 1)) by (nonlinear_arith)
        requires
            z0 < 0,
    ;
    lemma_floor_sqrt_unique((z0 as int) * (z0 as int), -z0 as int);
    assert(spec_eval(f, from).distance == d0);
    // The step is exact: FP * d0 / FP == d0.
    vstd::arithmetic::div_mod::lemma_div_multiples_vanish(d0 as int, FP as int);
    assert(tdiv(FP * (d0 as int), FP as int) == d0);
    let p1 = vsum(from, vscale(dir, clamp_step(d0 as int)));
    assert(p1 == v3(0, 0, -radius as int));
    assert(spec_march(f, from, from, dir, esc) == spec_march(f, from, p1, dir, esc));
    // The landing point: exactly on the surface, still within the escape
    // bound.
    assert((radius as int) * (radius as int) < (radius as int + 1) * (radius as int + 1))
        by (nonlinear_arith)
        requires
            radius > 0,
    ;
    lemma_floor_sqrt_unique((radius as int) * (radius as int), radius as int);
    assert(magsq(vdiff(p1, v3(0, 0, 0))) == (radius as int) * (radius as int))
        by (nonlinear_arith)
        requires
            magsq(vdiff(p1, v3(0, 0, 0))) == (vdiff(p1, v3(0, 0, 0)).x as int) * (vdiff(
                p1,
                v3(0, 0, 0),
            ).x as int) + (vdiff(p1, v3(0, 0, 0)).y as int) * (vdiff(p1, v3(0, 0, 0)).y as int) + (
            vdiff(p1, v3(0, 0, 0)).z as int) * (vdiff(p1, v3(0, 0, 0)).z as int),
            vdiff(p1, v3(0, 0, 0)).x == 0,
            vdiff(p1, v3(0, 0, 0)).y == 0,
            vdiff(p1, v3(0, 0, 0)).z == -radius,
    ;
    assert(spec_eval(f, p1).distance == 0);
    assert(magsq(vdiff(p1, from)) == (d0 as int) * (d0 as int) && (d0 as int) * (d0 as int)
        < ESCAPE_SQ) by (nonlinear_arith)
        requires
            magsq(vdiff(p1, from)) == (vdiff(p1, from).z as int) * (vdiff(p1, from).z as int),
            vdiff(p1, from).z == d0,
            0 < d0 < 1000 * FP,
            ESCAPE_SQ == 1000000 * FP * FP,
            FP == 1024,
    ;
    assert(spec_march(f, from, p1, dir, esc) == Some(
        (Sample { distance: 0i64, surface }, v3(0, 0, -radius as int)),
    ));
}

/// Walks forward out of a solid, to offset a secondary ray's origin off the
/// surface it starts on.
pub fn raycast_out(f: &Field, from: Vec3, dir: Vec3) -> (r: Vec3)
    requires
        wf_field(*f),
        l1_of(from) <= MARCH_L1 as int,
        is_unit(dir),
    ensures
        r == spec_march_out(*f, from, from, dir),
        l1_of(r) <= MARCH_L1 as int,
{
    let mut p = from;
    loop
        invariant
            wf_field(*f),
            march_inv(from, p, dir),
            spec_march_out(*f, from, p, dir) == spec_march_out(*f, from, from, dir),
        decreases march_measure(from, p, dir),
    {
        if p.l1() > RANGE_L1 {
            return p;
        }
        let s = evaluate(f, p);
        if s.distance > 0 {
            return p;
        }
        let step = clamp_step_i64(-s.distance);
        proof {
            lemma_march_step(from, p, dir, -(s.distance as int));
        }
        p = p.plus(dir.stepped(step));
    }
}

} // verus!
