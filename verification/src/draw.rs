//! Contains functions for manipulating the final image.

use crate::fx::{fx_mul, fx_mul_spec, tdiv, FX_ONE};
use crate::mat::Matrix;
use crate::vector::{clamp1_spec, Vector};
use vstd::prelude::*;

verus! {

/// An RGB type with 8 bits per channel.
#[derive(Debug, Clone, Copy, PartialEq, Eq, Structural)]
pub struct Color {
    pub r: u8,
    pub g: u8,
    pub b: u8,
}

/// Where a centered pixel coordinate lands in a canvas with `rlen` columns
/// and `clen` rows: the vertical axis flips (canvas rows run top to
/// bottom), both axes shift from centered to zero-based, and coordinates
/// that land outside the canvas give nothing.
pub open spec fn pixel_index_spec(rlen: int, clen: int, px: int, py: int) -> Option<int> {
    let ax = px + rlen / 2;
    let ay = -py + clen / 2;
    if ay < 0 || ay >= clen {
        Option::None
    } else if ax < 0 || ax >= rlen {
        Option::None
    } else {
        Option::Some(ay * rlen + ax)
    }
}

/// Checks if a pixel can be drawn on the current canvas. Returns the index
/// to write to if the check passes.
pub fn check_pixel(ppm: &Matrix<Color>, pixel: (i32, i32)) -> (r: Option<usize>)
    requires
        ppm.wf(),
        ppm.rlen <= i32::MAX,
        ppm.clen <= i32::MAX,
    ensures
        r matches Option::Some(i) ==> Option::Some(i as int) == pixel_index_spec(
            ppm.rlen as int,
            ppm.clen as int,
            pixel.0 as int,
            pixel.1 as int,
        ) && i < ppm.mat@.len(),
        r is None ==> pixel_index_spec(
            ppm.rlen as int,
            ppm.clen as int,
            pixel.0 as int,
            pixel.1 as int,
        ) is None,
{
    // convert bounds from [-n/2, n/2] to [0, n]
    let ax: i64 = pixel.0 as i64 + (ppm.rlen / 2) as i64;
    // y direction needs to be flipped because the canvas y direction goes
    // top to bottom
    let ay: i64 = -(pixel.1 as i64) + (ppm.clen / 2) as i64;

    if ay < 0 || ay >= ppm.clen as i64 {
        return Option::None;
    }

    if ax < 0 || ax >= ppm.rlen as i64 {
        return Option::None;
    }

    let cells = ppm.mat.len();
    proof {
        let ayi = ay as int;
        let axi = ax as int;
        let rl = ppm.rlen as int;
        let cl = ppm.clen as int;
        assert(0 <= ayi * rl + axi < rl * cl) by (nonlinear_arith)
            requires
                0 <= ayi <= cl - 1,
                0 <= axi <= rl - 1,
        ;
        assert(rl * cl == cells as int);
    }
    Option::Some((ay as usize) * ppm.rlen + (ax as usize))
}

/// Draws a pixel on `ppm`.
/// `pixel` contains coordinates going from `-ppm.rlen/2` to `ppm.rlen/2`
/// and `-ppm.clen/2` to `ppm.clen/2` respectively.
/// Calls where `pixel.0` or `pixel.1` maps outside the canvas are silently
/// ignored.
pub fn draw_pixel(ppm: &mut Matrix<Color>, pixel: (i32, i32), color: Color)
    requires
        old(ppm).wf(),
        old(ppm).rlen <= i32::MAX,
        old(ppm).clen <= i32::MAX,
    ensures
        final(ppm).rlen == old(ppm).rlen,
        final(ppm).clen == old(ppm).clen,
        final(ppm).wf(),
        match pixel_index_spec(
            old(ppm).rlen as int,
            old(ppm).clen as int,
            pixel.0 as int,
            pixel.1 as int,
        ) {
            Option::Some(i) => final(ppm).mat@ == old(ppm).mat@.update(i, color),
            Option::None => final(ppm).mat@ == old(ppm).mat@,
        },
{
    if let Option::Some(idx) = check_pixel(ppm, pixel) {
        ppm.mat[idx] = color;
    }
}

/// One 8-bit channel of a color mantissa: the value scaled by 255,
/// truncated to a whole number and clamped into the channel range.
pub open spec fn channel_spec(x: int) -> u8 {
    clamp1_spec(tdiv(fx_mul_spec(x, 255 * FX_ONE), FX_ONE as int), 0, 255) as u8
}

/// What a color vector maps to, channel by channel.
pub open spec fn map_color_spec(c: Vector) -> Color {
    Color { r: channel_spec(c.at(0)), g: channel_spec(c.at(1)), b: channel_spec(c.at(2)) }
}

/// Maps a fixed-point color vector to a concrete color type.
pub fn map_color(c: Vector) -> (r: Color)
    ensures
        r == map_color_spec(c),
{
    let a = c.get();
    Color { r: channel(a[0]), g: channel(a[1]), b: channel(a[2]) }
}

/// One 8-bit channel from a color mantissa.
fn channel(x: i64) -> (r: u8)
    ensures
        r == channel_spec(x as int),
{
    let scaled = fx_mul(x, 255 * FX_ONE);
    let whole = match scaled.checked_div(FX_ONE) {
        Option::Some(w) => w,
        Option::None => 0,  // unreachable: the divisor is a positive constant
    };
    if whole < 0 {
        0
    } else if whole <= 255 {
        whole as u8
    } else {
        255
    }
}

} // verus!
