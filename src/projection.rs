//! Perspective projection of a wall hit into a screen column, and its shading.

use vstd::prelude::*;
use crate::color::Rgba;
use crate::face::{Face, MAX_TEXTURE};
use crate::geometry::MAX_EXTENT;

verus! {

/// Largest screen height, in pixels.
pub const MAX_SCREEN: i64 = 0x10_0000;

/// Largest distance, in world units, that a column is projected from.
pub const MAX_DISTANCE: i64 = 0x400_0000;

/// A zero distance counts as the smallest positive one.
pub open spec fn effective_distance(distance: int) -> int {
    if distance < 1 { 1 } else { distance }
}

pub open spec fn clamp(v: int, lo: int, hi: int) -> int {
    if v < lo { lo } else if v > hi { hi } else { v }
}

/// Height of the wall stake: `(height / 2 / distance) * plane`, rounded down.
pub open spec fn stake_height(distance: int, height: int, plane: int) -> int {
    (height * plane) / (2 * effective_distance(distance))
}

/// First row of the stake before clamping: `height / 2 - stake / 2`, rounded
/// down, from the exact stake height.
pub open spec fn raw_top(distance: int, height: int, plane: int) -> int {
    let d = effective_distance(distance);
    (height * (2 * d - plane)) / (4 * d)
}

/// End row of the stake before clamping: `height / 2 + stake / 2`, rounded
/// down.
pub open spec fn raw_bottom(distance: int, height: int, plane: int) -> int {
    let d = effective_distance(distance);
    (height * (2 * d + plane)) / (4 * d)
}

/// The screen span of one wall stake: rows `[top, bottom)`.
#[derive(Clone, Copy, Debug, PartialEq, Eq, Structural)]
pub struct Column {
    pub stake_height: i64,
    pub top: i64,
    pub bottom: i64,
}

/// What `project_column` returns for these arguments.
pub open spec fn projected(distance: int, height: int, plane: int) -> Column {
    Column {
        stake_height: stake_height(distance, height, plane) as i64,
        top: clamp(raw_top(distance, height, plane), 0, height - 1) as i64,
        bottom: clamp(raw_bottom(distance, height, plane), 0, height - 1) as i64,
    }
}

/// The arguments that a projection accepts.
pub open spec fn projection_args(distance: int, height: int, plane: int) -> bool {
    &&& 0 <= distance <= MAX_DISTANCE
    &&& 0 < height <= MAX_SCREEN
    &&& 0 < plane <= MAX_EXTENT
}

/// Projects a wall at `distance` onto a screen `height` pixels tall with a
/// pinhole camera whose plane lies `plane` units away: the stake height and
/// its rows, clamped to `[0, height)`.
pub fn project_column(distance: i64, height: i64, plane: i64) -> (c: Column)
    requires
        projection_args(distance as int, height as int, plane as int),
    ensures
        c == projected(distance as int, height as int, plane as int),
        0 <= c.top < height,
        0 <= c.bottom < height,
        c.stake_height >= 0,
{
    let d = if distance < 1 { 1 } else { distance };
    assert(0 < height * plane <= MAX_SCREEN * MAX_EXTENT) by (nonlinear_arith)
        requires 0 < height <= MAX_SCREEN, 0 < plane <= MAX_EXTENT;
    assert(-(MAX_SCREEN * MAX_EXTENT) <= height * (2 * d - plane) <= MAX_SCREEN * (2 * MAX_DISTANCE)) by (nonlinear_arith)
        requires 0 < height <= MAX_SCREEN, 0 < plane <= MAX_EXTENT, 1 <= d <= MAX_DISTANCE;
    assert(0 <= height * (2 * d + plane) <= MAX_SCREEN * (2 * MAX_DISTANCE + MAX_EXTENT)) by (nonlinear_arith)
        requires 0 < height <= MAX_SCREEN, 0 < plane <= MAX_EXTENT, 1 <= d <= MAX_DISTANCE;
    let stake = (height * plane) / (2 * d);
    let top_raw = crate::geometry::floor_div(height * (2 * d - plane), 4 * d);
    let bottom_raw = (height * (2 * d + plane)) / (4 * d);
    assert(stake <= height * plane) by (nonlinear_arith)
        requires stake == (height * plane) / (2 * d), d >= 1, height * plane > 0;
    let top = if top_raw < 0 { 0 } else if top_raw > height - 1 { height - 1 } else { top_raw };
    let bottom = if bottom_raw > height - 1 { height - 1 } else { bottom_raw };
    Column { stake_height: stake, top, bottom }
}

/// The texture row for screen row `y` of a stake spanning `[top, bottom)`,
/// for a texture `size` texels tall, kept below `size`.
pub open spec fn texture_v(y: int, top: int, bottom: int, size: int) -> int {
    let span = if bottom - top < 1 { 1 } else { bottom - top };
    let v = (y - top) * size / span;
    if v > size - 1 { size - 1 } else { v }
}

/// Texture row for screen row `y` of a stake; see `texture_v`.
pub fn texture_row(y: i64, top: i64, bottom: i64, size: u32) -> (v: u32)
    requires
        0 <= top <= y < MAX_SCREEN,
        0 <= bottom < MAX_SCREEN,
        0 < size <= MAX_TEXTURE,
    ensures
        v == texture_v(y as int, top as int, bottom as int, size as int),
        v < size,
{
    let span = if bottom - top < 1 { 1 } else { bottom - top };
    assert(0 <= (y - top) * (size as int) <= MAX_SCREEN * MAX_TEXTURE) by (nonlinear_arith)
        requires 0 <= y - top <= MAX_SCREEN, 0 < size <= MAX_TEXTURE;
    let v = (y - top) * (size as i64) / span;
    let v = if v > size as i64 - 1 { size as i64 - 1 } else { v };
    v as u32
}

/// Directional darkening of a face, in tenths: north brightest, west darkest.
pub open spec fn face_tenths(f: Face) -> int {
    match f {
        Face::North => 10,
        Face::South => 8,
        Face::East => 9,
        Face::West => 7,
    }
}

/// A channel scaled by `(clamp(1 - d / far, 0, 1) * 0.7 + 0.3) * face`, rounded
/// down; in integers `c * (10 far - 7 min(d, far)) * tenths / (100 far)`.
pub open spec fn shade_channel(c: int, distance: int, far: int, f: Face) -> int {
    let m = if distance > far { far } else { distance };
    (c * (10 * far - 7 * m) * face_tenths(f)) / (100 * far)
}

/// The colour shaded for distance and face; alpha passes through.
pub open spec fn shaded(c: Rgba, distance: int, far: int, f: Face) -> Rgba {
    Rgba {
        r: shade_channel(c.r as int, distance, far, f) as u8,
        g: shade_channel(c.g as int, distance, far, f) as u8,
        b: shade_channel(c.b as int, distance, far, f) as u8,
        a: c.a,
    }
}

fn shade_one(c: u8, distance: i64, far: i64, tenths: i64) -> (r: u8)
    requires
        0 <= distance,
        0 < far <= MAX_DISTANCE,
        7 <= tenths <= 10,
    ensures
        r as int == ({
            let m = if distance > far { far as int } else { distance as int };
            (c * (10 * far - 7 * m) * tenths) / (100 * far)
        }),
        r <= c,
{
    let m = if distance > far { far } else { distance };
    let k = 10 * far - 7 * m;
    assert(3 * far <= k <= 10 * far);
    assert(0 <= (c as int) * k * tenths <= 255 * (10 * MAX_DISTANCE) * 10) by (nonlinear_arith)
        requires 0 <= c <= 255, 0 <= k <= 10 * MAX_DISTANCE, 7 <= tenths <= 10;
    assert(0 <= (c as int) * k <= 255 * (10 * MAX_DISTANCE)) by (nonlinear_arith)
        requires 0 <= c <= 255, 0 <= k <= 10 * MAX_DISTANCE;
    let num = (c as i64) * k * tenths;
    assert((num as int) / (100 * far) <= c) by (nonlinear_arith)
        requires num == (c as int) * k * tenths, k <= 10 * far, tenths <= 10, far > 0, c >= 0, k >= 0;
    (num / (100 * far)) as u8
}

/// Shades a texel for a wall `distance` units away on face `face`, with
/// shading bottoming out at `far` units; no channel grows and alpha is kept.
pub fn shade(color: Rgba, distance: i64, far: i64, face: Face) -> (r: Rgba)
    requires
        0 <= distance,
        0 < far <= MAX_DISTANCE,
    ensures
        r == shaded(color, distance as int, far as int, face),
        r.r <= color.r && r.g <= color.g && r.b <= color.b,
        r.a == color.a,
{
    let tenths: i64 = match face {
        Face::North => 10,
        Face::South => 8,
        Face::East => 9,
        Face::West => 7,
    };
    Rgba {
        r: shade_one(color.r, distance, far, tenths),
        g: shade_one(color.g, distance, far, tenths),
        b: shade_one(color.b, distance, far, tenths),
        a: color.a,
    }
}

} // verus!
