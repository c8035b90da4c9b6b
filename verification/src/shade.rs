//! The shading model.
//!
//! At a hit point: estimate the surface normal by central differences of
//! the field; sum, per light, the diffuse contribution gated by a shadow
//! test; and, while bounces remain and the surface reflects, blend in the
//! color of a recursively traced reflection ray. The bounce counter is the
//! sole termination guarantee of the reflection chain.

use vstd::prelude::*;

use crate::distfield::{
    evaluate, lemma_eval_surface_wf, scene, spec_eval, spec_scene, wf_field, wf_surface, Field,
    Surface, COLOR_MAX,
};
use crate::fixed::{
    lemma_floor_sqrt_unique, lemma_tdiv_bounds, lemma_tdiv_le, tdiv, tdiv_i64, DELTA, FP, FP2,
    MARCH_L1, MAX_STEP, MIN_STEP, WORLD,
};
use crate::march::{clamp_step, raycast, raycast_out, spec_march, spec_march_out, Escape, ESCAPE_SQ};
use crate::vec3::{
    dot3, in_box, is_unit, l1_of, magsq, v3, vcmul, vdiff, vlerp, vnorm, vreflect, vscale, vsum,
    Vec3,
};

verus! {

/// A point light: a position and a color.
#[derive(Clone, Copy, PartialEq, Eq, Structural, Debug)]
pub struct Light {
    pub pos: Vec3,
    pub color: Vec3,
}

pub open spec fn wf_light(l: Light) -> bool {
    &&& in_box(l.pos, WORLD as int)
    &&& 0 <= l.color.x <= COLOR_MAX
    &&& 0 <= l.color.y <= COLOR_MAX
    &&& 0 <= l.color.z <= COLOR_MAX
}

pub open spec fn wf_lights(ls: Seq<Light>) -> bool {
    forall|i: int| 0 <= i < ls.len() ==> wf_light(#[trigger] ls[i])
}

/// How many lights one shading computation accepts.
pub const MAX_LIGHTS: usize = 65536;

/// Bound on one light's contribution to one channel.
pub const CONTRIB_MAX: i64 = 256 * FP;

/// Bound on any channel of a traced color.
pub const RGB_MAX: i64 = 65536 * CONTRIB_MAX;

/// A displayable (if unclamped) color: non-negative, bounded channels.
pub open spec fn rgb_ok(c: Vec3) -> bool {
    &&& 0 <= c.x <= RGB_MAX
    &&& 0 <= c.y <= RGB_MAX
    &&& 0 <= c.z <= RGB_MAX
}

// ---------------------------------------------------------------------------
// Normal estimation.
// ---------------------------------------------------------------------------

/// A gradient component is clamped here before normalization: an overflow
/// guard, unreachable for fields of bounded slope.
pub const GRAD_MAX: i64 = 1073741824;

pub open spec fn clamp_grad(a: int) -> int {
    if a > GRAD_MAX {
        GRAD_MAX as int
    } else if a < -GRAD_MAX {
        -GRAD_MAX as int
    } else {
        a
    }
}

fn clamp_grad_i64(a: i64) -> (r: i64)
    ensures
        r == clamp_grad(a as int),
{
    if a > GRAD_MAX {
        GRAD_MAX
    } else if a < -GRAD_MAX {
        -GRAD_MAX
    } else {
        a
    }
}

/// The central-difference gradient of the field at `p`, offset `DELTA` per
/// axis.
pub open spec fn spec_gradient(f: Field, p: Vec3) -> Vec3 {
    v3(
        clamp_grad(
            spec_eval(f, vsum(p, v3(DELTA as int, 0, 0))).distance - spec_eval(
                f,
                vsum(p, v3(-DELTA as int, 0, 0)),
            ).distance,
        ),
        clamp_grad(
            spec_eval(f, vsum(p, v3(0, DELTA as int, 0))).distance - spec_eval(
                f,
                vsum(p, v3(0, -DELTA as int, 0)),
            ).distance,
        ),
        clamp_grad(
            spec_eval(f, vsum(p, v3(0, 0, DELTA as int))).distance - spec_eval(
                f,
                vsum(p, v3(0, 0, -DELTA as int)),
            ).distance,
        ),
    )
}

/// The estimated unit normal: the normalized gradient, or a fixed axis
/// where the gradient vanishes (a flat spot, where no gradient-based
/// estimate exists).
pub open spec fn spec_guess_normal(f: Field, p: Vec3) -> Vec3 {
    let g = spec_gradient(f, p);
    if magsq(g) == 0 {
        v3(0, 0, FP as int)
    } else {
        vnorm(g)
    }
}

/// Estimates the surface normal at `p` by numeric differentiation.
pub fn guess_normal(f: &Field, p: Vec3) -> (n: Vec3)
    requires
        wf_field(*f),
        l1_of(p) <= MARCH_L1 as int,
    ensures
        n == spec_guess_normal(*f, p),
        is_unit(n),
{
    let dpx = evaluate(f, p.plus(Vec3::new(DELTA, 0, 0)));
    let dmx = evaluate(f, p.plus(Vec3::new(-DELTA, 0, 0)));
    let dpy = evaluate(f, p.plus(Vec3::new(0, DELTA, 0)));
    let dmy = evaluate(f, p.plus(Vec3::new(0, -DELTA, 0)));
    let dpz = evaluate(f, p.plus(Vec3::new(0, 0, DELTA)));
    let dmz = evaluate(f, p.plus(Vec3::new(0, 0, -DELTA)));
    let g = Vec3::new(
        clamp_grad_i64(dpx.distance - dmx.distance),
        clamp_grad_i64(dpy.distance - dmy.distance),
        clamp_grad_i64(dpz.distance - dmz.distance),
    );
    if g.mag_sq() == 0 {
        Vec3::new(0, 0, FP)
    } else {
        g.normalized()
    }
}

/// At the pole of an undisplaced sphere the estimated normal is exactly the
/// unit vector from the center to the point: for an axis-aligned sample
/// point the central differences and the normalization carry no rounding.
/// (Off-axis points agree within the estimator's rounding.)
pub proof fn lemma_normal_on_axis_sphere(radius: i64, surface: Surface)
    requires
        50 <= radius <= WORLD,
    ensures
        spec_guess_normal(
            Field::Sphere { center: v3(0, 0, 0), radius, surface },
            v3(0, 0, -radius as int),
        ) == v3(0, 0, -(FP as int)),
{
    let f = Field::Sphere { center: v3(0, 0, 0), radius, surface };
    let p = v3(0, 0, -radius as int);
    let c0 = v3(0, 0, 0);
    let r_ = radius as int;
    // Lateral offsets stay on the (rounded) surface: the field reads zero.
    let q1 = vsum(p, v3(DELTA as int, 0, 0));
    let q2 = vsum(p, v3(-DELTA as int, 0, 0));
    let q3 = vsum(p, v3(0, DELTA as int, 0));
    let q4 = vsum(p, v3(0, -DELTA as int, 0));
    assert(magsq(vdiff(q1, c0)) == 100 + r_ * r_ && magsq(vdiff(q2, c0)) == 100 + r_ * r_ && magsq(
        vdiff(q3, c0),
    ) == 100 + r_ * r_ && magsq(vdiff(q4, c0)) == 100 + r_ * r_) by (nonlinear_arith)
        requires
            magsq(vdiff(q1, c0)) == 10 * 10 + 0 * 0 + (-r_) * (-r_),
            magsq(vdiff(q2, c0)) == (-10) * (-10) + 0 * 0 + (-r_) * (-r_),
            magsq(vdiff(q3, c0)) == 0 * 0 + 10 * 10 + (-r_) * (-r_),
            magsq(vdiff(q4, c0)) == 0 * 0 + (-10) * (-10) + (-r_) * (-r_),
    ;
    assert(r_ * r_ <= 100 + r_ * r_ && 100 + r_ * r_ < (r_ + 1) * (r_ + 1)) by (nonlinear_arith)
        requires
            r_ >= 50,
    ;
    lemma_floor_sqrt_unique(100 + r_ * r_, r_);
    // Axial offsets read the exact signed offset.
    let q5 = vsum(p, v3(0, 0, DELTA as int));
    let q6 = vsum(p, v3(0, 0, -DELTA as int));
    assert(magsq(vdiff(q5, c0)) == (r_ - 10) * (r_ - 10) && magsq(vdiff(q6, c0)) == (r_ + 10) * (r_
        + 10) && (r_ - 10) * (r_ - 10) < (r_ - 9) * (r_ - 9) && (r_ + 10) * (r_ + 10) < (r_ + 11) * (
    r_ + 11)) by (nonlinear_arith)
        requires
            magsq(vdiff(q5, c0)) == 0 * 0 + 0 * 0 + (10 - r_) * (10 - r_),
            magsq(vdiff(q6, c0)) == 0 * 0 + 0 * 0 + (-10 - r_) * (-10 - r_),
            r_ >= 50,
    ;
    lemma_floor_sqrt_unique((r_ - 10) * (r_ - 10), r_ - 10);
    lemma_floor_sqrt_unique((r_ + 10) * (r_ + 10), r_ + 10);
    // The gradient is purely axial, and its normalization is exact.
    let g = spec_gradient(f, p);
    assert(g == v3(0, 0, -20));
    assert(magsq(g) == 400 && 400 < 21 * 21) by (nonlinear_arith)
        requires
            magsq(g) == (g.x as int) * (g.x as int) + (g.y as int) * (g.y as int) + (g.z as int) * (
            g.z as int),
            g.x == 0 && g.y == 0 && g.z == -20,
    ;
    lemma_floor_sqrt_unique(400, 20);
    vstd::arithmetic::div_mod::lemma_div_multiples_vanish(FP as int, 20);
    assert((-20) * (FP as int) == -(20 * (FP as int))) by (nonlinear_arith);
    assert(0 * (FP as int) == 0) by (nonlinear_arith);
    assert(tdiv((g.z as int) * (FP as int), 20) == -(FP as int));
}

// ---------------------------------------------------------------------------
// Lights.
// ---------------------------------------------------------------------------

/// A light is in shadow at a point when a ray from just off the surface
/// toward the light hits anything while still moving toward the light.
pub open spec fn spec_in_shadow(f: Field, light: Light, point: Vec3) -> bool {
    let l = vnorm(vdiff(light.pos, point));
    let q = spec_march_out(f, point, point, l);
    spec_march(f, q, q, l, Escape::Toward { target: light.pos, axis: l }) is Some
}

/// The diffuse factor: the cosine of the angle between the normal and the
/// light direction, clamped to `[0, FP]`.
pub open spec fn spec_diffuse(light: Light, p: Vec3, n: Vec3) -> int {
    let l = vnorm(vdiff(light.pos, p));
    let t = tdiv(dot3(n, l), FP as int);
    if t > FP {
        FP as int
    } else if t < 0 {
        0
    } else {
        t
    }
}

impl Light {
    pub fn new(pos: Vec3, color: Vec3) -> (r: Light)
        ensures
            r == (Light { pos, color }),
    {
        Light { pos, color }
    }

    /// Whether anything blocks this light at `point`.
    pub fn in_shadow(&self, f: &Field, point: Vec3) -> (r: bool)
        requires
            wf_field(*f),
            in_box(self.pos, WORLD as int),
            l1_of(point) <= MARCH_L1 as int,
            magsq(vdiff(self.pos, point)) > 0,
        ensures
            r == spec_in_shadow(*f, *self, point),
    {
        let l = self.pos.minus(point).normalized();
        let q = raycast_out(f, point, l);
        let esc = Escape::Toward { target: self.pos, axis: l };
        raycast(f, q, l, &esc).is_some()
    }

    /// This light's diffuse factor at `p` with unit normal `n`.
    pub fn diffuse(&self, p: Vec3, n: Vec3) -> (r: i64)
        requires
            in_box(self.pos, WORLD as int),
            l1_of(p) <= MARCH_L1 as int,
            magsq(vdiff(self.pos, p)) > 0,
            is_unit(n),
        ensures
            r == spec_diffuse(*self, p, n),
            0 <= r <= FP,
    {
        let l = self.pos.minus(p).normalized();
        proof {
            crate::vec3::lemma_dot_l1(n, l, FP as int);
        }
        let d = tdiv_i64(n.dot(l), FP);
        if d > FP {
            FP
        } else if d < 0 {
            0
        } else {
            d
        }
    }
}

/// A fully opaque occluder squarely between a light and a point puts the
/// point in shadow: the shadow ray leaves the point, lands exactly on the
/// occluder's near surface (the axis-aligned step carries no rounding), and
/// reports a hit while still moving toward the light.
pub proof fn lemma_occluder_casts_shadow(lx: i64, cx: i64, radius: i64, surface: Surface)
    requires
        0 < radius <= WORLD,
        MIN_STEP <= cx - radius,
        cx - radius <= MAX_STEP,
        cx + radius < lx <= WORLD,
    ensures
        spec_in_shadow(
            Field::Sphere { center: v3(cx as int, 0, 0), radius, surface },
            Light { pos: v3(lx as int, 0, 0), color: v3(0, 0, 0) },
            v3(0, 0, 0),
        ),
{
    let f = Field::Sphere { center: v3(cx as int, 0, 0), radius, surface };
    let light = Light { pos: v3(lx as int, 0, 0), color: v3(0, 0, 0) };
    let p0 = v3(0, 0, 0);
    let lx_ = lx as int;
    let cx_ = cx as int;
    let r_ = radius as int;
    // The shadow ray's direction is exactly the positive axis.
    assert(magsq(vdiff(light.pos, p0)) == lx_ * lx_ && lx_ * lx_ < (lx_ + 1) * (lx_ + 1))
        by (nonlinear_arith)
        requires
            magsq(vdiff(light.pos, p0)) == (lx_) * (lx_) + 0 * 0 + 0 * 0,
            lx_ > 0,
    ;
    lemma_floor_sqrt_unique(lx_ * lx_, lx_);
    vstd::arithmetic::div_mod::lemma_div_multiples_vanish(FP as int, lx_);
    assert(lx_ * (FP as int) == (FP as int) * lx_) by (nonlinear_arith);
    let l = vnorm(vdiff(light.pos, p0));
    assert(l == v3(FP as int, 0, 0));
    assert(is_unit(l)) by {
        assert(magsq(l) == FP2) by (nonlinear_arith)
            requires
                magsq(l) == (l.x as int) * (l.x as int) + (l.y as int) * (l.y as int) + (l.z as int)
                    * (l.z as int),
                l.x == FP && l.y == 0 && l.z == 0,
                FP2 == FP * FP,
        ;
    }
    // The point itself is outside the occluder, so the ray starts there.
    assert(magsq(vdiff(p0, v3(cx_, 0, 0))) == cx_ * cx_ && (cx_ - r_) * (cx_ - r_) <= cx_ * cx_
        && cx_ * cx_ < (cx_ + 1) * (cx_ + 1)) by (nonlinear_arith)
        requires
            magsq(vdiff(p0, v3(cx_, 0, 0))) == (-cx_) * (-cx_) + 0 * 0 + 0 * 0,
            0 < r_ < cx_,
    ;
    lemma_floor_sqrt_unique(cx_ * cx_, cx_);
    assert(spec_eval(f, p0).distance == cx_ - r_);
    assert(spec_march_out(f, p0, p0, l) == p0);
    // One exact step lands on the occluder's near surface, still short of
    // the light.
    let d0 = cx_ - r_;
    vstd::arithmetic::div_mod::lemma_div_multiples_vanish(d0, FP as int);
    assert((FP as int) * d0 == d0 * (FP as int)) by (nonlinear_arith);
    assert(tdiv((FP as int) * d0, FP as int) == d0);
    let esc = Escape::Toward { target: light.pos, axis: l };
    assert(dot3(vdiff(light.pos, p0), l) == lx_ * (FP as int) && lx_ * (FP as int) > 0)
        by (nonlinear_arith)
        requires
            dot3(vdiff(light.pos, p0), l) == (lx_) * (FP as int) + 0 * (l.y as int) + 0 * (l.z
                as int),
            lx_ > 0,
            FP == 1024,
    ;
    let p1 = vsum(p0, vscale(l, clamp_step(d0)));
    assert(p1 == v3(d0, 0, 0));
    assert(spec_march(f, p0, p0, l, esc) == spec_march(f, p0, p1, l, esc));
    assert(dot3(vdiff(light.pos, p1), l) == (lx_ - d0) * (FP as int) && (lx_ - d0) * (FP as int)
        > 0) by (nonlinear_arith)
        requires
            dot3(vdiff(light.pos, p1), l) == (lx_ - d0) * (FP as int) + 0 * (l.y as int) + 0 * (
            l.z as int),
            lx_ > d0,
            FP == 1024,
    ;
    assert(magsq(vdiff(p1, v3(cx_, 0, 0))) == r_ * r_ && r_ * r_ < (r_ + 1) * (r_ + 1))
        by (nonlinear_arith)
        requires
            magsq(vdiff(p1, v3(cx_, 0, 0))) == (d0 - cx_) * (d0 - cx_) + 0 * 0 + 0 * 0,
            d0 == cx_ - r_,
            r_ > 0,
    ;
    lemma_floor_sqrt_unique(r_ * r_, r_);
    assert(spec_eval(f, p1).distance == 0);
    assert(spec_march(f, p0, p1, l, esc) is Some);
}

/// One light's contribution: its color, the surface color, and the diffuse
/// factor, multiplied componentwise.
pub open spec fn spec_contrib(light: Light, surface: Surface, p: Vec3, n: Vec3) -> Vec3 {
    vscale(vcmul(light.color, surface.color), spec_diffuse(light, p, n))
}

/// A light contributes only from a distinct position and out of shadow.
pub open spec fn spec_apply_lights(
    f: Field,
    p: Vec3,
    surface: Surface,
    n: Vec3,
    lights: Seq<Light>,
) -> Vec3
    decreases lights.len(),
{
    if lights.len() == 0 {
        v3(0, 0, 0)
    } else {
        let prev = spec_apply_lights(f, p, surface, n, lights.drop_last());
        let light = lights.last();
        if magsq(vdiff(light.pos, p)) == 0 || spec_in_shadow(f, light, p) {
            prev
        } else {
            vsum(prev, spec_contrib(light, surface, p, n))
        }
    }
}

/// One contribution's channels lie in `[0, CONTRIB_MAX]`, before and after
/// the diffuse factor is applied.
proof fn lemma_contrib_bounds(light: Light, surface: Surface, p: Vec3, n: Vec3)
    requires
        wf_light(light),
        wf_surface(surface),
    ensures
        0 <= vcmul(light.color, surface.color).x <= CONTRIB_MAX,
        0 <= vcmul(light.color, surface.color).y <= CONTRIB_MAX,
        0 <= vcmul(light.color, surface.color).z <= CONTRIB_MAX,
        0 <= spec_contrib(light, surface, p, n).x <= CONTRIB_MAX,
        0 <= spec_contrib(light, surface, p, n).y <= CONTRIB_MAX,
        0 <= spec_contrib(light, surface, p, n).z <= CONTRIB_MAX,
{
    let t = spec_diffuse(light, p, n);
    lemma_contrib_channel(light.color.x as int, surface.color.x as int, t);
    lemma_contrib_channel(light.color.y as int, surface.color.y as int, t);
    lemma_contrib_channel(light.color.z as int, surface.color.z as int, t);
    let u = vcmul(light.color, surface.color);
    assert(u.x == tdiv(light.color.x as int * (surface.color.x as int), FP as int));
    assert(u.y == tdiv(light.color.y as int * (surface.color.y as int), FP as int));
    assert(u.z == tdiv(light.color.z as int * (surface.color.z as int), FP as int));
    assert(spec_contrib(light, surface, p, n).x == tdiv(u.x as int * t, FP as int));
    assert(spec_contrib(light, surface, p, n).y == tdiv(u.y as int * t, FP as int));
    assert(spec_contrib(light, surface, p, n).z == tdiv(u.z as int * t, FP as int));
}

/// One channel of a contribution stays in `[0, CONTRIB_MAX]`.
proof fn lemma_contrib_channel(lc: int, sc: int, t: int)
    requires
        0 <= lc <= COLOR_MAX,
        0 <= sc <= COLOR_MAX,
        0 <= t <= FP,
    ensures
        0 <= tdiv(lc * sc, FP as int) <= CONTRIB_MAX,
        0 <= tdiv(tdiv(lc * sc, FP as int) * t, FP as int) <= CONTRIB_MAX,
{
    assert(0 <= lc * sc <= (FP as int) * (CONTRIB_MAX as int)) by (nonlinear_arith)
        requires
            0 <= lc <= COLOR_MAX,
            0 <= sc <= COLOR_MAX,
            COLOR_MAX == 16 * FP,
            CONTRIB_MAX == 256 * FP,
            FP == 1024,
    ;
    lemma_tdiv_bounds(lc * sc, FP as int);
    lemma_tdiv_le(lc * sc, FP as int, CONTRIB_MAX as int);
    let u = tdiv(lc * sc, FP as int);
    assert(0 <= u * t && u * t <= (FP as int) * (CONTRIB_MAX as int)) by (nonlinear_arith)
        requires
            0 <= u <= CONTRIB_MAX,
            0 <= t <= FP,
    ;
    lemma_tdiv_bounds(u * t, FP as int);
    lemma_tdiv_le(u * t, FP as int, CONTRIB_MAX as int);
}

/// Sums the lights' contributions at `p`, skipping shadowed lights and
/// lights placed exactly at `p`.
pub fn apply_lights(f: &Field, p: Vec3, surface: Surface, n: Vec3, lights: &[Light]) -> (rgb: Vec3)
    requires
        wf_field(*f),
        l1_of(p) <= MARCH_L1 as int,
        is_unit(n),
        wf_surface(surface),
        wf_lights(lights@),
        lights@.len() <= MAX_LIGHTS,
    ensures
        rgb == spec_apply_lights(*f, p, surface, n, lights@),
        rgb_ok(rgb),
{
    let mut rgb = Vec3::new(0, 0, 0);
    let mut i: usize = 0;
    proof {
        assert(lights@.take(0) =~= Seq::<Light>::empty());
    }
    while i < lights.len()
        invariant
            wf_field(*f),
            l1_of(p) <= MARCH_L1 as int,
            is_unit(n),
            wf_surface(surface),
            wf_lights(lights@),
            lights@.len() <= MAX_LIGHTS,
            i <= lights@.len(),
            rgb == spec_apply_lights(*f, p, surface, n, lights@.take(i as int)),
            0 <= rgb.x <= i * 262144,
            0 <= rgb.y <= i * 262144,
            0 <= rgb.z <= i * 262144,
        decreases lights@.len() - i,
    {
        let light = lights[i];
        let d = light.pos.minus(p);
        if d.mag_sq() != 0 && !light.in_shadow(f, p) {
            let diff = light.diffuse(p, n);
            proof {
                lemma_contrib_bounds(light, surface, p, n);
            }
            let c = light.color.cmul(surface.color);
            let part = c.attenuated(diff);
            proof {
                assert(part == spec_contrib(light, surface, p, n));
                assert(0 <= part.x <= CONTRIB_MAX);
                assert(0 <= part.y <= CONTRIB_MAX);
                assert(0 <= part.z <= CONTRIB_MAX);
            }
            rgb = rgb.plus(part);
        }
        proof {
            assert(lights@.take(i as int + 1).drop_last() =~= lights@.take(i as int));
            assert(lights@.take(i as int + 1).last() == lights@[i as int]);
        }
        i = i + 1;
    }
    proof {
        assert(lights@.take(lights@.len() as int) =~= lights@);
    }
    rgb
}

// ---------------------------------------------------------------------------
// The full trace: march, shade, reflect.
// ---------------------------------------------------------------------------

/// What a reflection ray that escapes the scene reports: a fixed ambient
/// color (0.3 per channel).
pub open spec fn spec_ambient() -> Vec3 {
    v3(307, 307, 307)
}

/// A full trace: march the ray; on a hit, sum the direct lighting and,
/// while bounces remain and the surface reflects, blend in the reflected
/// color by the surface's reflectivity. A degenerate (zero) reflected
/// direction contributes nothing.
pub open spec fn spec_trace(
    f: Field,
    from: Vec3,
    dir: Vec3,
    lights: Seq<Light>,
    bounces: nat,
) -> Option<Vec3>
    decreases bounces,
{
    match spec_march(f, from, from, dir, Escape::WithinSq { center: from, bound: ESCAPE_SQ }) {
        Option::None => Option::None,
        Option::Some((s, p)) => {
            let n = spec_guess_normal(f, p);
            let direct = spec_apply_lights(f, p, s.surface, n, lights);
            if s.surface.reflectivity > 0 && bounces > 0 {
                let rd = vreflect(dir, n);
                if magsq(rd) > 0 {
                    let rdir = vnorm(rd);
                    let q = spec_march_out(f, p, p, rdir);
                    let rc = match spec_trace(f, q, rdir, lights, (bounces - 1) as nat) {
                        Option::Some(c) => c,
                        Option::None => spec_ambient(),
                    };
                    Option::Some(vlerp(direct, rc, s.surface.reflectivity as int))
                } else {
                    Option::Some(direct)
                }
            } else {
                Option::Some(direct)
            }
        },
    }
}

/// Traces one ray through the field to a color, with at most `max_bounces`
/// reflection bounces.
pub fn trace(f: &Field, from: Vec3, dir: Vec3, lights: &[Light], max_bounces: usize) -> (r: Option<
    Vec3,
>)
    requires
        wf_field(*f),
        l1_of(from) <= MARCH_L1 as int,
        is_unit(dir),
        wf_lights(lights@),
        lights@.len() <= MAX_LIGHTS,
    ensures
        r == spec_trace(*f, from, dir, lights@, max_bounces as nat),
        r matches Some(c) ==> rgb_ok(c),
    decreases max_bounces,
{
    let esc = Escape::WithinSq { center: from, bound: ESCAPE_SQ };
    match raycast(f, from, dir, &esc) {
        Option::None => Option::None,
        Option::Some((s, p)) => {
            proof {
                lemma_eval_surface_wf(*f, p);
            }
            let n = guess_normal(f, p);
            let direct = apply_lights(f, p, s.surface, n, lights);
            let mut rgb = direct;
            if s.surface.reflectivity > 0 && max_bounces > 0 {
                let rd = dir.reflect(n);
                if rd.mag_sq() > 0 {
                    let rdir = rd.normalized();
                    let q = raycast_out(f, p, rdir);
                    let rc = match trace(f, q, rdir, lights, max_bounces - 1) {
                        Option::Some(c) => c,
                        Option::None => Vec3::new(307, 307, 307),
                    };
                    rgb = direct.lerp(rc, s.surface.reflectivity);
                }
            }
            Option::Some(rgb)
        },
    }
}

/// Traces one ray through the demo scene.
pub fn raytrace(from: &Vec3, dir: &Vec3, lights: &[Light], max_bounces: usize) -> (r: Option<Vec3>)
    requires
        in_box(*from, WORLD as int),
        is_unit(*dir),
        wf_lights(lights@),
        lights@.len() <= MAX_LIGHTS,
    ensures
        r == spec_trace(spec_scene(), *from, *dir, lights@, max_bounces as nat),
        r matches Some(c) ==> rgb_ok(c),
{
    let f = scene();
    trace(&f, *from, *dir, lights, max_bounces)
}

/// With no bounces left a trace never issues a secondary ray: whatever the
/// surface's reflectivity, the result is the direct lighting alone.
pub proof fn lemma_no_bounce_is_direct(f: Field, from: Vec3, dir: Vec3, lights: Seq<Light>)
    ensures
        spec_trace(f, from, dir, lights, 0) == match spec_march(
            f,
            from,
            from,
            dir,
            Escape::WithinSq { center: from, bound: ESCAPE_SQ },
        ) {
            Option::None => Option::<Vec3>::None,
            Option::Some((s, p)) => Option::Some(
                spec_apply_lights(f, p, s.surface, spec_guess_normal(f, p), lights),
            ),
        },
{
}

} // verus!
