//! Fixed-point 3D vectors.
//!
//! Components are scaled integers (`fixed::FP` raw units per 1.0). Every
//! executable operation carries an exact contract: the result equals the
//! corresponding specification-level formula, stated over unbounded
//! integers, and the preconditions keep every intermediate product inside
//! `i64`.

use vstd::prelude::*;

use crate::fixed::{
    fpmul, iabs, lemma_floor_sqrt, lemma_mul_bound, lemma_tdiv_bounds, lemma_tdiv_le, tdiv,
    tdiv_i64, floor_sqrt, FP, FP2, MAX_STEP, MIN_STEP,
};

verus! {

#[derive(Clone, Copy, PartialEq, Eq, Structural, Debug)]
pub struct Vec3 {
    pub x: i64,
    pub y: i64,
    pub z: i64,
}

/// Builds a vector from mathematical integers; meaningful when all three fit
/// in `i64`.
pub open spec fn v3(x: int, y: int, z: int) -> Vec3 {
    Vec3 { x: x as i64, y: y as i64, z: z as i64 }
}

/// Every component's magnitude is at most `c`.
pub open spec fn in_box(v: Vec3, c: int) -> bool {
    iabs(v.x as int) <= c && iabs(v.y as int) <= c && iabs(v.z as int) <= c
}

pub open spec fn l1_of(v: Vec3) -> int {
    iabs(v.x as int) + iabs(v.y as int) + iabs(v.z as int)
}

pub open spec fn vsum(a: Vec3, b: Vec3) -> Vec3 {
    v3(a.x + b.x, a.y + b.y, a.z + b.z)
}

pub open spec fn vdiff(a: Vec3, b: Vec3) -> Vec3 {
    v3(a.x - b.x, a.y - b.y, a.z - b.z)
}

/// Scaling by a fixed-point factor `k` (`k == FP` is the identity up to
/// rounding).
pub open spec fn vscale(v: Vec3, k: int) -> Vec3 {
    v3(tdiv(v.x * k, FP as int), tdiv(v.y * k, FP as int), tdiv(v.z * k, FP as int))
}

/// Componentwise fixed-point product, as of two colors.
pub open spec fn vcmul(a: Vec3, b: Vec3) -> Vec3 {
    v3(fpmul(a.x as int, b.x as int), fpmul(a.y as int, b.y as int), fpmul(a.z as int, b.z as int))
}

pub open spec fn dot3(a: Vec3, b: Vec3) -> int {
    (a.x as int) * (b.x as int) + (a.y as int) * (b.y as int) + (a.z as int) * (b.z as int)
}

pub open spec fn magsq(v: Vec3) -> int {
    dot3(v, v)
}

/// A unit-length direction, up to the rounding the normalization introduces.
pub open spec fn is_unit(d: Vec3) -> bool {
    in_box(d, FP as int) && magsq(d) >= FP2 - 6 * FP
}

/// Normalization: each component is scaled by `FP` and divided by the floor
/// square root of the squared magnitude.
pub open spec fn vnorm(v: Vec3) -> Vec3 {
    let m = floor_sqrt(magsq(v));
    v3(tdiv(v.x * FP, m), tdiv(v.y * FP, m), tdiv(v.z * FP, m))
}

/// Linear interpolation from `a` to `b` by the fixed-point weight `t`.
pub open spec fn vlerp(a: Vec3, b: Vec3, t: int) -> Vec3 {
    v3(
        a.x + tdiv((b.x - a.x) * t, FP as int),
        a.y + tdiv((b.y - a.y) * t, FP as int),
        a.z + tdiv((b.z - a.z) * t, FP as int),
    )
}

/// Reflection of direction `d` about the unit normal `n`.
pub open spec fn vreflect(d: Vec3, n: Vec3) -> Vec3 {
    let k = 2 * dot3(d, n);
    v3(
        d.x - tdiv(k * n.x, FP2 as int),
        d.y - tdiv(k * n.y, FP2 as int),
        d.z - tdiv(k * n.z, FP2 as int),
    )
}

proof fn lemma_sq_nonneg(a: int)
    by (nonlinear_arith)
    ensures
        a * a >= 0,
        a * a == iabs(a) * iabs(a),
{
}

pub proof fn lemma_magsq_nonneg(v: Vec3)
    ensures
        magsq(v) >= 0,
{
    lemma_sq_nonneg(v.x as int);
    lemma_sq_nonneg(v.y as int);
    lemma_sq_nonneg(v.z as int);
}

/// A dot product is bounded by the L1 norm of one side times a component
/// bound of the other.
pub proof fn lemma_dot_l1(a: Vec3, b: Vec3, c: int)
    ensures
        in_box(b, c) ==> iabs(dot3(a, b)) <= l1_of(a) * c,
{
    if in_box(b, c) {
        lemma_mul_bound(a.x as int, b.x as int, iabs(a.x as int), c);
        lemma_mul_bound(a.y as int, b.y as int, iabs(a.y as int), c);
        lemma_mul_bound(a.z as int, b.z as int, iabs(a.z as int), c);
        assert(iabs(a.x as int) * c + iabs(a.y as int) * c + iabs(a.z as int) * c == l1_of(a) * c)
            by (nonlinear_arith);
    }
}

/// The magnitude of a vector is at most its L1 norm.
pub proof fn lemma_mag_le_l1(v: Vec3)
    ensures
        0 <= floor_sqrt(magsq(v)) <= l1_of(v),
        magsq(v) >= 0,
{
    lemma_magsq_nonneg(v);
    assert(magsq(v) <= l1_of(v) * l1_of(v)) by (nonlinear_arith)
        requires
            magsq(v) == (v.x as int) * (v.x as int) + (v.y as int) * (v.y as int) + (v.z as int) * (
            v.z as int),
            l1_of(v) == iabs(v.x as int) + iabs(v.y as int) + iabs(v.z as int),
    ;
    lemma_floor_sqrt(magsq(v));
    let fs = floor_sqrt(magsq(v));
    assert(fs <= l1_of(v)) by (nonlinear_arith)
        requires
            fs >= 0,
            l1_of(v) >= 0,
            fs * fs <= l1_of(v) * l1_of(v),
    ;
}

impl Vec3 {
    pub fn new(x: i64, y: i64, z: i64) -> (r: Vec3)
        ensures
            r == (Vec3 { x, y, z }),
    {
        Vec3 { x, y, z }
    }

    pub fn plus(self, o: Vec3) -> (r: Vec3)
        requires
            in_box(self, 0x1000_0000_0000_0000),
            in_box(o, 0x1000_0000_0000_0000),
        ensures
            r == vsum(self, o),
    {
        Vec3 { x: self.x + o.x, y: self.y + o.y, z: self.z + o.z }
    }

    pub fn minus(self, o: Vec3) -> (r: Vec3)
        requires
            in_box(self, 0x1000_0000_0000_0000),
            in_box(o, 0x1000_0000_0000_0000),
        ensures
            r == vdiff(self, o),
    {
        Vec3 { x: self.x - o.x, y: self.y - o.y, z: self.z - o.z }
    }

    /// Step vector: a unit direction stretched to a step length `k`.
    pub fn stepped(self, k: i64) -> (r: Vec3)
        requires
            in_box(self, FP as int),
            0 <= k <= MAX_STEP,
        ensures
            r == vscale(self, k as int),
            in_box(r, k as int),
            l1_of(r) <= 3 * k,
    {
        proof {
            lemma_mul_bound(self.x as int, k as int, FP as int, k as int);
            lemma_mul_bound(self.y as int, k as int, FP as int, k as int);
            lemma_mul_bound(self.z as int, k as int, FP as int, k as int);
            assert(FP * (k as int) == (FP as int) * (k as int)) by (nonlinear_arith);
            lemma_tdiv_le(self.x as int * (k as int), FP as int, k as int);
            lemma_tdiv_le(self.y as int * (k as int), FP as int, k as int);
            lemma_tdiv_le(self.z as int * (k as int), FP as int, k as int);
        }
        Vec3 { x: tdiv_i64(self.x * k, FP), y: tdiv_i64(self.y * k, FP), z: tdiv_i64(self.z * k, FP) }
    }

    /// Scaling by a fixed-point factor in `[0, FP]`; never grows a component.
    pub fn attenuated(self, k: i64) -> (r: Vec3)
        requires
            in_box(self, 0x4000_0000_0000),
            0 <= k <= FP,
        ensures
            r == vscale(self, k as int),
            iabs(r.x as int) <= iabs(self.x as int),
            iabs(r.y as int) <= iabs(self.y as int),
            iabs(r.z as int) <= iabs(self.z as int),
    {
        proof {
            lemma_mul_bound(self.x as int, k as int, iabs(self.x as int), FP as int);
            lemma_mul_bound(self.y as int, k as int, iabs(self.y as int), FP as int);
            lemma_mul_bound(self.z as int, k as int, iabs(self.z as int), FP as int);
            assert forall|a: int| iabs(a) * (FP as int) == (FP as int) * iabs(a) by {
                vstd::arithmetic::mul::lemma_mul_is_commutative(iabs(a), FP as int);
            }
            lemma_tdiv_le(self.x as int * (k as int), FP as int, iabs(self.x as int));
            lemma_tdiv_le(self.y as int * (k as int), FP as int, iabs(self.y as int));
            lemma_tdiv_le(self.z as int * (k as int), FP as int, iabs(self.z as int));
        }
        Vec3 { x: tdiv_i64(self.x * k, FP), y: tdiv_i64(self.y * k, FP), z: tdiv_i64(self.z * k, FP) }
    }

    pub fn cmul(self, o: Vec3) -> (r: Vec3)
        requires
            in_box(self, 0x400_0000),
            in_box(o, 0x400_0000),
        ensures
            r == vcmul(self, o),
    {
        proof {
            lemma_mul_bound(self.x as int, o.x as int, 0x400_0000, 0x400_0000);
            lemma_mul_bound(self.y as int, o.y as int, 0x400_0000, 0x400_0000);
            lemma_mul_bound(self.z as int, o.z as int, 0x400_0000, 0x400_0000);
            lemma_tdiv_bounds(self.x as int * o.x as int, FP as int);
            lemma_tdiv_bounds(self.y as int * o.y as int, FP as int);
            lemma_tdiv_bounds(self.z as int * o.z as int, FP as int);
        }
        Vec3 { x: tdiv_i64(self.x * o.x, FP), y: tdiv_i64(self.y * o.y, FP), z: tdiv_i64(self.z * o.z, FP) }
    }

    pub fn dot(self, o: Vec3) -> (r: i64)
        requires
            in_box(self, 0x4000_0000),
            in_box(o, 0x4000_0000),
        ensures
            r == dot3(self, o),
    {
        proof {
            lemma_mul_bound(self.x as int, o.x as int, 0x4000_0000, 0x4000_0000);
            lemma_mul_bound(self.y as int, o.y as int, 0x4000_0000, 0x4000_0000);
            lemma_mul_bound(self.z as int, o.z as int, 0x4000_0000, 0x4000_0000);
        }
        self.x * o.x + self.y * o.y + self.z * o.z
    }

    pub fn mag_sq(self) -> (r: i64)
        requires
            in_box(self, 0x4000_0000),
        ensures
            r == magsq(self),
            r >= 0,
    {
        proof {
            lemma_magsq_nonneg(self);
        }
        self.dot(self)
    }

    /// Magnitude: the floor square root of the squared magnitude.
    pub fn mag(self) -> (r: i64)
        requires
            in_box(self, 0x4000_0000),
        ensures
            r == floor_sqrt(magsq(self)),
            r >= 0,
    {
        crate::fixed::isqrt_i64(self.mag_sq())
    }

    pub fn l1(self) -> (r: i64)
        requires
            in_box(self, 0x1000_0000_0000_0000),
        ensures
            r == l1_of(self),
    {
        let ax: i64 = if self.x >= 0 { self.x } else { -self.x };
        let ay: i64 = if self.y >= 0 { self.y } else { -self.y };
        let az: i64 = if self.z >= 0 { self.z } else { -self.z };
        ax + ay + az
    }

    /// Normalization to (approximately) unit length. The direction must not
    /// be the zero vector.
    pub fn normalized(self) -> (r: Vec3)
        requires
            in_box(self, 0x4000_0000),
            magsq(self) > 0,
        ensures
            r == vnorm(self),
            is_unit(r),
    {
        proof {
            lemma_floor_sqrt(magsq(self));
        }
        let m = self.mag();
        proof {
            let msq = magsq(self);
            assert(m >= 1) by (nonlinear_arith)
                requires
                    msq >= 1,
                    m >= 0,
                    (m + 1) * (m + 1) > msq,
            ;
            lemma_sq_nonneg(self.x as int);
            lemma_sq_nonneg(self.y as int);
            lemma_sq_nonneg(self.z as int);
            lemma_norm_component(self.x as int, msq, m as int);
            lemma_norm_component(self.y as int, msq, m as int);
            lemma_norm_component(self.z as int, msq, m as int);
        }
        let rx = tdiv_i64(self.x * FP, m);
        let ry = tdiv_i64(self.y * FP, m);
        let rz = tdiv_i64(self.z * FP, m);
        let r = Vec3 { x: rx, y: ry, z: rz };
        proof {
            let m_ = m as int;
            let tx = tdiv(self.x as int * FP, m_);
            let ty = tdiv(self.y as int * FP, m_);
            let tz = tdiv(self.z as int * FP, m_);
            lemma_norm_sum(self.x as int, self.y as int, self.z as int, m_, tx, ty, tz);
            assert(magsq(r) == tx * tx + ty * ty + tz * tz);
        }
        r
    }

    /// Linear interpolation toward `o`; the result stays between the two
    /// endpoints componentwise.
    pub fn lerp(self, o: Vec3, t: i64) -> (r: Vec3)
        requires
            in_box(self, 0x10_0000_0000),
            in_box(o, 0x10_0000_0000),
            0 <= t <= FP,
        ensures
            r == vlerp(self, o, t as int),
            in_box(r, 0x10_0000_0000),
            (if self.x <= o.x { self.x } else { o.x }) <= r.x <= (if self.x >= o.x { self.x } else { o.x }),
            (if self.y <= o.y { self.y } else { o.y }) <= r.y <= (if self.y >= o.y { self.y } else { o.y }),
            (if self.z <= o.z { self.z } else { o.z }) <= r.z <= (if self.z >= o.z { self.z } else { o.z }),
    {
        proof {
            lemma_lerp_component(self.x as int, o.x as int, t as int);
            lemma_lerp_component(self.y as int, o.y as int, t as int);
            lemma_lerp_component(self.z as int, o.z as int, t as int);
        }
        Vec3 {
            x: self.x + tdiv_i64((o.x - self.x) * t, FP),
            y: self.y + tdiv_i64((o.y - self.y) * t, FP),
            z: self.z + tdiv_i64((o.z - self.z) * t, FP),
        }
    }

    /// Reflection about a unit normal.
    pub fn reflect(self, n: Vec3) -> (r: Vec3)
        requires
            is_unit(self),
            is_unit(n),
        ensures
            r == vreflect(self, n),
            in_box(r, 7 * FP as int),
    {
        proof {
            lemma_dot_l1(self, n, FP as int);
            assert(l1_of(self) <= 3 * FP && l1_of(self) * FP <= 3 * FP * FP) by (nonlinear_arith)
                requires
                    in_box(self, FP as int),
                    l1_of(self) == iabs(self.x as int) + iabs(self.y as int) + iabs(self.z as int),
                    l1_of(self) * FP >= iabs(dot3(self, n)),
            ;
        }
        let k = 2 * self.dot(n);
        proof {
            lemma_mul_bound(k as int, n.x as int, 6 * FP2 as int, FP as int);
            lemma_mul_bound(k as int, n.y as int, 6 * FP2 as int, FP as int);
            lemma_mul_bound(k as int, n.z as int, 6 * FP2 as int, FP as int);
            assert(6 * (FP2 as int) * (FP as int) == (FP2 as int) * (6 * FP)) by (nonlinear_arith);
            lemma_tdiv_le(k as int * (n.x as int), FP2 as int, 6 * FP as int);
            lemma_tdiv_le(k as int * (n.y as int), FP2 as int, 6 * FP as int);
            lemma_tdiv_le(k as int * (n.z as int), FP2 as int, 6 * FP as int);
        }
        Vec3 {
            x: self.x - tdiv_i64(k * n.x, FP2),
            y: self.y - tdiv_i64(k * n.y, FP2),
            z: self.z - tdiv_i64(k * n.z, FP2),
        }
    }
}

/// For one component `a` of a vector with squared magnitude `msq` and
/// magnitude `m`: the component is bounded by `m`, the normalized component
/// by `FP`, and its square is close to the ideal `a * FP / m` square.
proof fn lemma_norm_component(a: int, msq: int, m: int)
    requires
        m >= 1,
        m * m <= msq,
        msq < (m + 1) * (m + 1),
        a * a <= msq,
    ensures
        iabs(a) <= m,
        iabs(tdiv(a * FP, m)) <= FP,
        iabs(a * FP) <= m * (FP as int),
        m * m * (tdiv(a * FP, m) * tdiv(a * FP, m)) >= FP * FP * (a * a) - 2 * FP * (m * m),
{
    lemma_sq_nonneg(a);
    assert(iabs(a) <= m) by (nonlinear_arith)
        requires
            a * a <= msq,
            msq < (m + 1) * (m + 1),
            m >= 1,
    ;
    lemma_mul_bound(a, FP as int, m, FP as int);
    assert(m * (FP as int) == (FP as int) * m && iabs(a * FP) == iabs(a) * FP) by (nonlinear_arith)
        requires
            iabs(a * FP) <= m * (FP as int),
    ;
    lemma_tdiv_le(a * FP, m, FP as int);
    let q = iabs(a) * FP / m;
    vstd::arithmetic::div_mod::lemma_fundamental_div_mod(iabs(a) * FP, m);
    vstd::arithmetic::div_mod::lemma_mod_division_less_than_divisor(iabs(a) * FP, m);
    assert(m * q >= iabs(a) * FP - m);
    assert(iabs(tdiv(a * FP, m)) == q) by (nonlinear_arith)
        requires
            m >= 1,
            q == iabs(a) * FP / m,
            tdiv(a * FP, m) == (if a * FP >= 0 {
                (a * FP) / m
            } else {
                -((-(a * FP)) / m)
            }),
            iabs(a * FP) == iabs(a) * FP,
    ;
    assert(m * m * (q * q) >= a * a * FP * FP - 2 * iabs(a) * FP * m) by (nonlinear_arith)
        requires
            m >= 1,
            q >= 0,
            m * q >= iabs(a) * FP - m,
            iabs(a) * iabs(a) == a * a,
            iabs(a) >= 0,
    ;
    assert(q * q == tdiv(a * FP, m) * tdiv(a * FP, m)) by (nonlinear_arith)
        requires
            iabs(tdiv(a * FP, m)) == q,
    ;
    assert(m * m * (tdiv(a * FP, m) * tdiv(a * FP, m)) >= FP * FP * (a * a) - 2 * FP * (m * m))
        by (nonlinear_arith)
        requires
            m * m * (tdiv(a * FP, m) * tdiv(a * FP, m)) >= a * a * FP * FP - 2 * iabs(a) * FP * m,
            iabs(a) <= m,
            m >= 1,
            iabs(a) >= 0,
    ;
}

/// One component's contribution to the advance of a step along a unit
/// direction: rounding costs at most one `FP` times the component.
proof fn lemma_step_comp(a: int, s: int)
    requires
        s >= 0,
    ensures
        FP * (tdiv(a * s, FP as int) * a) >= a * a * s - FP * iabs(a),
{
    if a >= 0 {
        let u = a * s;
        assert(u >= 0) by (nonlinear_arith)
            requires
                a >= 0,
                s >= 0,
                u == a * s,
        ;
        let q = u / (FP as int);
        vstd::arithmetic::div_mod::lemma_fundamental_div_mod(u, FP as int);
        vstd::arithmetic::div_mod::lemma_mod_division_less_than_divisor(u, FP as int);
        assert(FP * q >= u - FP);
        assert(FP * (q * a) >= a * a * s - FP * a) by (nonlinear_arith)
            requires
                FP * q >= a * s - FP,
                a >= 0,
        ;
    } else {
        let u = (-a) * s;
        assert(u >= 0 && a * s == -u) by (nonlinear_arith)
            requires
                a < 0,
                s >= 0,
                u == (-a) * s,
        ;
        let q = u / (FP as int);
        vstd::arithmetic::div_mod::lemma_fundamental_div_mod(u, FP as int);
        vstd::arithmetic::div_mod::lemma_mod_division_less_than_divisor(u, FP as int);
        assert(FP * q >= u - FP);
        assert(tdiv(a * s, FP as int) == -q);
        assert(FP * ((-q) * a) >= a * a * s - FP * (-a)) by (nonlinear_arith)
            requires
                FP * q >= (-a) * s - FP,
                a < 0,
                u == (-a) * s,
    ;
    }
}

/// Stepping from `p` by a unit direction stretched to a clamped step length
/// advances the ray along that direction by at least one raw unit, and the
/// step vector itself is small.
pub proof fn lemma_step_gain(d: Vec3, s: int)
    requires
        is_unit(d),
        MIN_STEP <= s <= MAX_STEP,
    ensures
        dot3(vscale(d, s), d) >= 1,
        l1_of(vscale(d, s)) <= 3 * s,
        in_box(vscale(d, s), s),
{
    let t = vscale(d, s);
    lemma_mul_bound(d.x as int, s, FP as int, s);
    lemma_mul_bound(d.y as int, s, FP as int, s);
    lemma_mul_bound(d.z as int, s, FP as int, s);
    assert((FP as int) * s == s * (FP as int)) by (nonlinear_arith);
    lemma_tdiv_le(d.x as int * s, FP as int, s);
    lemma_tdiv_le(d.y as int * s, FP as int, s);
    lemma_tdiv_le(d.z as int * s, FP as int, s);
    lemma_step_comp(d.x as int, s);
    lemma_step_comp(d.y as int, s);
    lemma_step_comp(d.z as int, s);
    assert(t.x == tdiv(d.x as int * s, FP as int) && t.y == tdiv(d.y as int * s, FP as int) && t.z
        == tdiv(d.z as int * s, FP as int));
    assert(FP * (dot3(t, d)) >= magsq(d) * s - FP * l1_of(d)) by (nonlinear_arith)
        requires
            FP * ((t.x as int) * (d.x as int)) >= (d.x as int) * (d.x as int) * s - FP * iabs(
                d.x as int,
            ),
            FP * ((t.y as int) * (d.y as int)) >= (d.y as int) * (d.y as int) * s - FP * iabs(
                d.y as int,
            ),
            FP * ((t.z as int) * (d.z as int)) >= (d.z as int) * (d.z as int) * s - FP * iabs(
                d.z as int,
            ),
            dot3(t, d) == (t.x as int) * (d.x as int) + (t.y as int) * (d.y as int) + (t.z as int)
                * (d.z as int),
            magsq(d) == (d.x as int) * (d.x as int) + (d.y as int) * (d.y as int) + (d.z as int) * (
            d.z as int),
            l1_of(d) == iabs(d.x as int) + iabs(d.y as int) + iabs(d.z as int),
    ;
    assert(dot3(t, d) >= 1) by (nonlinear_arith)
        requires
            FP == 1024,
            FP2 == FP * FP,
            FP * (dot3(t, d)) >= magsq(d) * s - FP * l1_of(d),
            magsq(d) >= FP2 - 6 * FP,
            l1_of(d) <= 3 * FP,
            s >= MIN_STEP,
            MIN_STEP == 10,
    ;
}

/// Summing the componentwise bounds of `lemma_norm_component` shows that a
/// normalized vector has squared magnitude of at least `FP2 - 6 * FP`.
proof fn lemma_norm_sum(x: int, y: int, z: int, m: int, tx: int, ty: int, tz: int)
    requires
        m >= 1,
        x * x + y * y + z * z >= m * m,
        m * m * (tx * tx) >= FP * FP * (x * x) - 2 * FP * (m * m),
        m * m * (ty * ty) >= FP * FP * (y * y) - 2 * FP * (m * m),
        m * m * (tz * tz) >= FP * FP * (z * z) - 2 * FP * (m * m),
    ensures
        tx * tx + ty * ty + tz * tz >= FP2 - 6 * FP,
{
    assert(m * m >= 1) by (nonlinear_arith)
        requires
            m >= 1,
    ;
    assert(FP * FP * (x * x) + FP * FP * (y * y) + FP * FP * (z * z) == FP * FP * (x * x + y * y + z
        * z)) by (nonlinear_arith);
    assert(FP * FP * (x * x + y * y + z * z) >= FP * FP * (m * m)) by (nonlinear_arith)
        requires
            x * x + y * y + z * z >= m * m,
    ;
    assert(m * m * (tx * tx) + m * m * (ty * ty) + m * m * (tz * tz) == m * m * (tx * tx + ty * ty
        + tz * tz)) by (nonlinear_arith);
    assert(m * m * (tx * tx + ty * ty + tz * tz) >= (FP2 - 6 * FP) * (m * m))
        by (nonlinear_arith)
        requires
            m * m * (tx * tx) >= FP * FP * (x * x) - 2 * FP * (m * m),
            m * m * (ty * ty) >= FP * FP * (y * y) - 2 * FP * (m * m),
            m * m * (tz * tz) >= FP * FP * (z * z) - 2 * FP * (m * m),
            x * x + y * y + z * z >= m * m,
    ;
    assert(tx * tx + ty * ty + tz * tz >= FP2 - 6 * FP) by (nonlinear_arith)
        requires
            m * m >= 1,
            m * m * (tx * tx + ty * ty + tz * tz) >= (FP2 - 6 * FP) * (m * m),
    ;
}

/// One component of `vlerp` lies between the two endpoints.
proof fn lemma_lerp_component(a: int, b: int, t: int)
    requires
        0 <= t <= FP,
        iabs(a) <= 0x10_0000_0000,
        iabs(b) <= 0x10_0000_0000,
    ensures
        iabs((b - a) * t) <= 0x20_0000_0000 * FP,
        (if a <= b { a } else { b }) <= a + tdiv((b - a) * t, FP as int) <= (if a >= b { a } else { b }),
{
    lemma_mul_bound(b - a, t, iabs(b - a), FP as int);
    assert(iabs(b - a) * FP <= 0x20_0000_0000 * FP) by (nonlinear_arith)
        requires
            iabs(b - a) <= 0x20_0000_0000,
    ;
    lemma_tdiv_le((b - a) * t, FP as int, iabs(b - a));
    lemma_tdiv_bounds((b - a) * t, FP as int);
    let d = tdiv((b - a) * t, FP as int);
    if b >= a {
        assert((b - a) * t >= 0) by (nonlinear_arith)
            requires
                b - a >= 0,
                t >= 0,
        ;
        assert(0 <= d <= b - a);
    } else {
        assert((b - a) * t <= 0) by (nonlinear_arith)
            requires
                b - a <= 0,
                t >= 0,
        ;
        assert(b - a <= d <= 0);
    }
}

} // verus!
