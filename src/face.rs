//! Which face of a wall cell a ray struck, and where along it.
//!
//! The face is found from the impact point's offset to its cell's centre: the
//! larger offset names the axis of the face. Near a cell's diagonals this
//! heuristic may pick the neighbouring face that an exact boundary-crossing
//! test would not; it is kept as it is, since it decides how walls look.

use vstd::prelude::*;
use crate::geometry::{floor_div, Point, MAX_EXTENT};

verus! {

/// Largest texture side, in texels.
pub const MAX_TEXTURE: u32 = 0x1_0000;

/// The four cardinal faces of a cell.
#[derive(Clone, Copy, Debug, PartialEq, Eq, Structural)]
pub enum Face {
    North,
    South,
    East,
    West,
}

/// Twice the offset of `(x, y)` from the centre of its cell of `block` units,
/// so that it stays integral.
pub open spec fn center_offset(p: Point, block: int) -> (int, int) {
    (2 * ((p.x as int) % block) - block, 2 * ((p.y as int) % block) - block)
}

pub open spec fn abs(v: int) -> int {
    if v < 0 { -v } else { v }
}

/// The face that the centre-offset rule assigns to an impact point.
pub open spec fn face_of(p: Point, block: int) -> Face {
    let (dx, dy) = center_offset(p, block);
    if abs(dx) > abs(dy) {
        if dx > 0 { Face::East } else { Face::West }
    } else {
        if dy > 0 { Face::South } else { Face::North }
    }
}

/// The geometric condition under which an impact point counts as striking `f`.
pub open spec fn strikes(p: Point, block: int, f: Face) -> bool {
    let (dx, dy) = center_offset(p, block);
    match f {
        Face::East => abs(dx) > abs(dy) && dx > 0,
        Face::West => abs(dx) > abs(dy) && dx < 0,
        Face::South => abs(dy) > abs(dx) && dy > 0,
        Face::North => abs(dy) > abs(dx) && dy < 0,
    }
}

/// A point on a diagonal through its cell's centre, where two faces meet.
pub open spec fn on_singularity(p: Point, block: int) -> bool {
    abs(center_offset(p, block).0) == abs(center_offset(p, block).1)
}

/// The horizontal texture coordinate for a struck face: the position along
/// the face within its cell, scaled to `size` texels and kept below `size`.
pub open spec fn texture_u(p: Point, block: int, f: Face, size: int) -> int {
    let along = match f {
        Face::North | Face::South => (p.x as int) % block,
        Face::East | Face::West => (p.y as int) % block,
    };
    let u = along * size / block;
    if u > size - 1 { size - 1 } else { u }
}

/// A struck face and the texture column on it.
#[derive(Clone, Copy, Debug, PartialEq, Eq, Structural)]
pub struct FaceHit {
    pub face: Face,
    /// Texture column, in `[0, size)`.
    pub u: u32,
}

fn abs_i64(v: i64) -> (r: i64)
    requires
        v > i64::MIN,
    ensures
        r == abs(v as int),
{
    if v < 0 { -v } else { v }
}

/// `a` modulo a positive `b`, in `[0, b)`.
fn floor_mod(a: i64, b: i64) -> (r: i64)
    requires
        b > 0,
    ensures
        r == (a as int) % (b as int),
        0 <= r < b,
{
    let q = floor_div(a, b);
    proof {
        vstd::arithmetic::div_mod::lemma_fundamental_div_mod(a as int, b as int);
        vstd::arithmetic::div_mod::lemma_mod_bound(a as int, b as int);
        assert((q as int) * (b as int) == (b as int) * (q as int)) by (nonlinear_arith);
        assert((q as int) * (b as int) == a - (a as int) % (b as int));
    }
    (a as i128 - (q as i128) * (b as i128)) as i64
}

/// The face of its cell that `impact` lies on, by the centre-offset rule, and
/// the texture column there for a texture `texture_size` texels wide.
pub fn resolve_face(impact: Point, block: i64, texture_size: u32) -> (r: FaceHit)
    requires
        0 < block <= MAX_EXTENT,
        0 < texture_size <= MAX_TEXTURE,
    ensures
        r.face == face_of(impact, block as int),
        r.u == texture_u(impact, block as int, r.face, texture_size as int),
        r.u < texture_size,
{
    let fx = floor_mod(impact.x, block);
    let fy = floor_mod(impact.y, block);
    let dx = 2 * fx - block;
    let dy = 2 * fy - block;
    let face = if abs_i64(dx) > abs_i64(dy) {
        if dx > 0 { Face::East } else { Face::West }
    } else {
        if dy > 0 { Face::South } else { Face::North }
    };
    let along = match face {
        Face::North | Face::South => fx,
        Face::East | Face::West => fy,
    };
    assert(0 <= along * (texture_size as int) <= MAX_EXTENT * MAX_TEXTURE) by (nonlinear_arith)
        requires
            0 <= along < MAX_EXTENT,
            0 < texture_size <= MAX_TEXTURE,
    {}
    let u = along * (texture_size as i64) / block;
    let u = if u > texture_size as i64 - 1 { texture_size as i64 - 1 } else { u };
    FaceHit { face, u: u as u32 }
}

} // verus!
