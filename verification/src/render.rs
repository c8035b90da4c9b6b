//! The per-pixel renderer.
//!
//! Each pixel maps to a point on a view plane centered on the image and
//! scaled by the smaller dimension (preserving aspect), a ray from the eye
//! through that point is traced through the demo scene, and the resulting
//! color is scaled to a displayable RGBA value: opaque on a hit, fully
//! transparent on a miss. Pixels are independent: a caller may compute them
//! in any order or in parallel.

use vstd::prelude::*;

use crate::distfield::spec_scene;
use crate::fixed::{iabs, tdiv, tdiv_i64, FP, WORLD};
use crate::shade::{spec_trace, trace, wf_lights, Light, MAX_LIGHTS, RGB_MAX};
use crate::vec3::{in_box, magsq, v3, vdiff, vnorm, Vec3};

verus! {

/// One output pixel, in 8-bit RGBA.
#[derive(Clone, Copy, PartialEq, Eq, Structural, Debug)]
pub struct Pixel {
    pub r: u8,
    pub g: u8,
    pub b: u8,
    pub a: u8,
}

/// Largest image dimension the view-plane mapping accepts.
pub const DIM_MAX: u32 = 4096;

/// The field of view: a pixel offset of one minimal image dimension spans
/// this many scene units on the view plane.
pub const VIEW_SCALE: i64 = 250;

/// A shading-model channel scaled into a display channel: `FP` becomes 255,
/// out-of-range values saturate.
pub open spec fn channel_to_u8(v: int) -> int {
    let s = tdiv(v * 255, FP as int);
    if s < 0 {
        0
    } else if s > 255 {
        255
    } else {
        s
    }
}

fn to_channel(v: i64) -> (r: u8)
    requires
        iabs(v as int) <= RGB_MAX,
    ensures
        r == channel_to_u8(v as int),
{
    let s = tdiv_i64(v * 255, FP);
    if s < 0 {
        0
    } else if s > 255 {
        255
    } else {
        s as u8
    }
}

/// Where pixel `(x, y)` sits on the view plane: image coordinates (with `y`
/// flipped) centered and scaled by the smaller dimension.
pub open spec fn spec_view_point(x: int, y: int, width: int, height: int) -> Vec3 {
    let m = if width < height {
        width
    } else {
        height
    };
    v3(
        tdiv((x * FP - width * 512) * VIEW_SCALE, m),
        tdiv(((height - y) * FP - height * 512) * VIEW_SCALE, m),
        0,
    )
}

/// The pixel's color: trace a ray from the eye through the pixel's view
/// point; a hit is an opaque color, a miss a transparent pixel.
pub open spec fn spec_render_pixel(
    x: int,
    y: int,
    width: int,
    height: int,
    eye: Vec3,
    lights: Seq<Light>,
    bounces: nat,
) -> Pixel {
    let dir = vnorm(vdiff(spec_view_point(x, y, width, height), eye));
    match spec_trace(spec_scene(), eye, dir, lights, bounces) {
        Option::Some(c) => Pixel {
            r: channel_to_u8(c.x as int) as u8,
            g: channel_to_u8(c.y as int) as u8,
            b: channel_to_u8(c.z as int) as u8,
            a: 255,
        },
        Option::None => Pixel { r: 0, g: 0, b: 0, a: 0 },
    }
}

/// Renders one pixel of the demo scene. The eye must sit off the view
/// plane (`eye.z != 0`), so every pixel ray has a direction to normalize.
pub fn render_pixel(
    x: u32,
    y: u32,
    width: u32,
    height: u32,
    eye: Vec3,
    lights: &[Light],
    max_bounces: usize,
) -> (px: Pixel)
    requires
        0 < width <= DIM_MAX,
        0 < height <= DIM_MAX,
        x < width,
        y < height,
        in_box(eye, WORLD as int),
        eye.z != 0,
        wf_lights(lights@),
        lights@.len() <= MAX_LIGHTS,
    ensures
        px == spec_render_pixel(
            x as int,
            y as int,
            width as int,
            height as int,
            eye,
            lights@,
            max_bounces as nat,
        ),
{
    let m: i64 = if width < height {
        width as i64
    } else {
        height as i64
    };
    let vx = tdiv_i64(((x as i64) * FP - (width as i64) * 512) * VIEW_SCALE, m);
    let vy = tdiv_i64((((height as i64) - (y as i64)) * FP - (height as i64) * 512) * VIEW_SCALE, m);
    let view = Vec3::new(vx, vy, 0);
    let dirv = view.minus(eye);
    proof {
        assert(dirv.z != 0);
        assert(magsq(dirv) > 0) by (nonlinear_arith)
            requires
                magsq(dirv) == (dirv.x as int) * (dirv.x as int) + (dirv.y as int) * (dirv.y as int)
                    + (dirv.z as int) * (dirv.z as int),
                dirv.z != 0,
        ;
    }
    let dir = dirv.normalized();
    let f = crate::distfield::scene();
    match trace(&f, eye, dir, lights, max_bounces) {
        Option::Some(c) => Pixel {
            r: to_channel(c.x),
            g: to_channel(c.y),
            b: to_channel(c.z),
            a: 255,
        },
        Option::None => Pixel { r: 0, g: 0, b: 0, a: 0 },
    }
}

} // verus!
