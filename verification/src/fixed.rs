//! Fixed-point scalars.
//!
//! A real number `r` is represented by the integer `r * FP`, rounded toward
//! zero. All derived constants of the renderer (step clamps, travel limits,
//! value caps) live here so that the coupling to the scene scale stays in
//! one place.

use vstd::prelude::*;

verus! {

/// Raw units per 1.0.
pub const FP: i64 = 1024;

/// Raw units per 1.0 squared, the divisor after a product of two scaled values.
pub const FP2: i64 = FP * FP;

/// Minimum marching step (about 0.01 in scene units): keeps the marcher from
/// stalling when the field is close to zero or underestimates the distance.
pub const MIN_STEP: i64 = 10;

/// Maximum marching step, an overflow guard far beyond the scene scale.
pub const MAX_STEP: i64 = 16777216;

/// Offset used by the normal estimator's central differences (about 0.01).
pub const DELTA: i64 = 10;

/// Bound on the magnitude of every scene datum (centers, radii, light
/// positions, displacement amplitudes): 4096 scene units.
pub const WORLD: i64 = 4194304;

/// A marching ray is declared escaped once the L1 norm of its current point
/// exceeds this; it lies far outside any in-bound scene.
pub const RANGE_L1: i64 = 134217728;

/// L1 bound on every point a marching loop can visit: one clamped step past
/// `RANGE_L1`.
pub const MARCH_L1: i64 = RANGE_L1 + 3 * MAX_STEP + 3;

/// Truncating division, the rounding of this library: quotient rounded
/// toward zero. Matches hardware division; meaningful for `b > 0`.
pub open spec fn tdiv(a: int, b: int) -> int {
    if a >= 0 {
        a / b
    } else {
        -((-a) / b)
    }
}

/// Absolute value.
pub open spec fn iabs(a: int) -> int {
    if a >= 0 {
        a
    } else {
        -a
    }
}

pub proof fn lemma_tdiv_bounds(a: int, b: int)
    requires
        b > 0,
    ensures
        iabs(tdiv(a, b)) * b <= iabs(a),
        iabs(tdiv(a, b)) <= iabs(a),
        a >= 0 ==> tdiv(a, b) >= 0,
        a <= 0 ==> tdiv(a, b) <= 0,
{
    let q = iabs(a) / b;
    vstd::arithmetic::div_mod::lemma_fundamental_div_mod(iabs(a), b);
    vstd::arithmetic::div_mod::lemma_mod_division_less_than_divisor(iabs(a), b);
    assert(q * b <= iabs(a));
    assert(q >= 0) by {
        vstd::arithmetic::div_mod::lemma_div_pos_is_pos(iabs(a), b);
    }
    assert(q <= q * b) by (nonlinear_arith)
        requires
            q >= 0,
            b >= 1,
    ;
}

/// `iabs(tdiv(a, b)) <= c` whenever `iabs(a) <= b * c`.
pub proof fn lemma_tdiv_le(a: int, b: int, c: int)
    requires
        b > 0,
        c >= 0,
        iabs(a) <= b * c,
    ensures
        iabs(tdiv(a, b)) <= c,
{
    lemma_tdiv_bounds(a, b);
    let q = iabs(tdiv(a, b));
    assert(q * b <= b * c);
    assert(q <= c) by (nonlinear_arith)
        requires
            q * b <= b * c,
            b > 0,
            q >= 0,
    ;
}

/// Bound on a product from bounds on its factors.
pub proof fn lemma_mul_bound(a: int, b: int, ca: int, cb: int)
    by (nonlinear_arith)
    requires
        iabs(a) <= ca,
        iabs(b) <= cb,
    ensures
        iabs(a * b) <= ca * cb,
{
}

/// Truncating division of `i64` values, for a positive divisor.
pub fn tdiv_i64(a: i64, b: i64) -> (r: i64)
    requires
        b > 0,
        a > i64::MIN,
    ensures
        r == tdiv(a as int, b as int),
        iabs(r as int) <= iabs(a as int),
{
    proof {
        lemma_tdiv_bounds(a as int, b as int);
    }
    if a >= 0 {
        ((a as u64) / (b as u64)) as i64
    } else {
        -((((-a) as u64) / (b as u64)) as i64)
    }
}

/// Product of two scaled values, rescaled: `(a * b) / FP`, rounded toward
/// zero.
pub open spec fn fpmul(a: int, b: int) -> int {
    tdiv(a * b, FP as int)
}

/// Fixed-point multiply. The factor bounds keep the intermediate product in
/// range.
pub fn fpmul_i64(a: i64, b: i64, ca: i64, cb: i64) -> (r: i64)
    requires
        ca >= 0,
        cb >= 0,
        iabs(a as int) <= ca,
        iabs(b as int) <= cb,
        ca * cb < i64::MAX,
    ensures
        r == fpmul(a as int, b as int),
        iabs(r as int) * (FP as int) <= ca * cb,
        iabs(r as int) <= ca * cb,
{
    proof {
        lemma_mul_bound(a as int, b as int, ca as int, cb as int);
        lemma_tdiv_bounds((a as int) * (b as int), FP as int);
    }
    tdiv_i64(a * b, FP)
}

/// The non-negative integer square root, defined by counting up.
pub open spec fn floor_sqrt(n: int) -> int
    decreases n,
{
    if n <= 0 {
        0
    } else {
        let r = floor_sqrt(n - 1);
        if (r + 1) * (r + 1) <= n {
            r + 1
        } else {
            r
        }
    }
}

pub proof fn lemma_floor_sqrt(n: int)
    requires
        n >= 0,
    ensures
        floor_sqrt(n) >= 0,
        floor_sqrt(n) * floor_sqrt(n) <= n,
        n < (floor_sqrt(n) + 1) * (floor_sqrt(n) + 1),
    decreases n,
{
    if n > 0 {
        lemma_floor_sqrt(n - 1);
        let r = floor_sqrt(n - 1);
        if (r + 1) * (r + 1) <= n {
            assert(n < (r + 2) * (r + 2)) by (nonlinear_arith)
                requires
                    r >= 0,
                    n <= (r + 1) * (r + 1),
            ;
        }
    }
}

/// Any `r` with `r * r <= n < (r + 1) * (r + 1)` is the floor square root.
pub proof fn lemma_floor_sqrt_unique(n: int, r: int)
    requires
        n >= 0,
        r >= 0,
        r * r <= n,
        n < (r + 1) * (r + 1),
    ensures
        r == floor_sqrt(n),
{
    lemma_floor_sqrt(n);
    let s = floor_sqrt(n);
    assert(r == s) by (nonlinear_arith)
        requires
            r >= 0,
            s >= 0,
            r * r <= n,
            n < (r + 1) * (r + 1),
            s * s <= n,
            n < (s + 1) * (s + 1),
    ;
}

/// Period of the renderer's sine-like wave, about 2*pi in raw units.
pub const WAVE_P: i64 = 6434;

/// Half of `WAVE_P`.
pub const WAVE_H: i64 = 3217;

/// One arch of the wave: a parabola through 0 at `u == 0` and `u == WAVE_H`,
/// peaking at `FP`.
pub open spec fn wave_arch(u: int) -> int {
    tdiv(4 * u * (WAVE_H - u) * FP, WAVE_H * WAVE_H)
}

/// A smooth periodic wave standing in for the sine: positive arch on the
/// first half period, mirrored negative arch on the second.
pub open spec fn wave(x: int) -> int {
    let r = x % (WAVE_P as int);
    if r < WAVE_H {
        wave_arch(r)
    } else {
        -wave_arch(r - WAVE_H)
    }
}

pub proof fn lemma_wave_arch_bounds(u: int)
    requires
        0 <= u < WAVE_H,
    ensures
        0 <= wave_arch(u) <= FP,
{
    let p = 4 * u * (WAVE_H - u) * FP;
    assert(0 <= 4 * u * (WAVE_H - u) * FP && 4 * u * (WAVE_H - u) * FP <= WAVE_H * WAVE_H * FP)
        by (nonlinear_arith)
        requires
            0 <= u < WAVE_H,
    ;
    lemma_tdiv_bounds(p, WAVE_H * WAVE_H);
    lemma_tdiv_le(p, WAVE_H * WAVE_H, FP as int);
}

/// The wave's magnitude never exceeds one (`FP` in raw units).
pub proof fn lemma_wave_bounds(x: int)
    ensures
        iabs(wave(x)) <= FP,
{
    let r = x % (WAVE_P as int);
    vstd::arithmetic::div_mod::lemma_mod_division_less_than_divisor(x, WAVE_P as int);
    if r < WAVE_H {
        lemma_wave_arch_bounds(r);
    } else {
        lemma_wave_arch_bounds(r - WAVE_H);
    }
}

/// Evaluates `wave` on machine integers.
pub fn wave_i64(x: i64) -> (r: i64)
    requires
        x > i64::MIN,
    ensures
        r == wave(x as int),
        iabs(r as int) <= FP,
{
    proof {
        vstd::arithmetic::div_mod::lemma_mod_division_less_than_divisor(x as int, WAVE_P as int);
        lemma_wave_bounds(x as int);
    }
    let m: i64 = if x >= 0 {
        ((x as u64) % (WAVE_P as u64)) as i64
    } else {
        let t: i64 = (((-x) as u64) % (WAVE_P as u64)) as i64;
        proof {
            let q = (-x) as int / (WAVE_P as int);
            vstd::arithmetic::div_mod::lemma_fundamental_div_mod((-x) as int, WAVE_P as int);
            vstd::arithmetic::div_mod::lemma_mod_division_less_than_divisor(
                (-x) as int,
                WAVE_P as int,
            );
            if t == 0 {
                assert(x as int == (WAVE_P as int) * (-q));
                vstd::arithmetic::div_mod::lemma_mod_multiples_basic(-q, WAVE_P as int);
            } else {
                vstd::arithmetic::div_mod::lemma_fundamental_div_mod_converse_mod(
                    x as int,
                    WAVE_P as int,
                    -q - 1,
                    WAVE_P - t,
                );
            }
        }
        if t == 0 {
            0
        } else {
            WAVE_P - t
        }
    };
    let u: i64 = if m < WAVE_H {
        m
    } else {
        m - WAVE_H
    };
    proof {
        lemma_wave_arch_bounds(u as int);
        assert(0 <= 4 * (u as int) * (WAVE_H - u as int) <= WAVE_H * WAVE_H) by (nonlinear_arith)
            requires
                0 <= (u as int) && (u as int) < WAVE_H,
        ;
    }
    let a: i64 = tdiv_i64(4 * u * (WAVE_H - u) * FP, WAVE_H * WAVE_H);
    if m < WAVE_H {
        a
    } else {
        -a
    }
}

/// Integer square root by bisection.
pub fn isqrt_i64(n: i64) -> (r: i64)
    requires
        n >= 0,
    ensures
        r == floor_sqrt(n as int),
        r >= 0,
{
    let nn: u64 = n as u64;
    let mut lo: u64 = 0;
    let mut hi: u64 = 4294967296;
    proof {
        assert((hi as int) * (hi as int) > nn as int) by (nonlinear_arith)
            requires
                hi == 4294967296u64,
                nn <= 0x7fff_ffff_ffff_ffffu64,
        ;
    }
    while lo + 1 < hi
        invariant
            lo < hi,
            hi <= 4294967296,
            (lo as int) * (lo as int) <= nn as int,
            (hi as int) * (hi as int) > nn as int,
            nn == n as u64,
            n >= 0,
        decreases hi - lo,
    {
        let mid: u64 = lo + (hi - lo) / 2;
        proof {
            assert((mid as int) * (mid as int) < 0xffff_ffff_ffff_ffff) by (nonlinear_arith)
                requires
                    0 <= mid < 4294967296,
            ;
        }
        if mid * mid <= nn {
            lo = mid;
        } else {
            hi = mid;
        }
    }
    proof {
        lemma_floor_sqrt_unique(nn as int, lo as int);
    }
    lo as i64
}

} // verus!
