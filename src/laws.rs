//! Properties that relate the engine's functions, proved over their models.

use vstd::prelude::*;
use crate::face::{face_of, on_singularity, strikes, Face};
use crate::geometry::Point;
use crate::player::{free_at, resolved};
use crate::projection::{clamp, effective_distance, projected, projection_args, raw_bottom, raw_top, stake_height};

verus! {

/// Away from the diagonals through a cell's centre, an impact point strikes
/// exactly one face, and that face is the one `resolve_face` reports.
pub proof fn face_is_unique(p: Point, block: int)
    requires
        block > 0,
        !on_singularity(p, block),
    ensures
        strikes(p, block, face_of(p, block)),
        forall|f: Face| #[trigger] strikes(p, block, f) ==> f == face_of(p, block),
{
}

/// `a1 / b1 <= a2 / b2` as rationals gives the same order on their floors.
proof fn lemma_floor_ordered(a1: int, b1: int, a2: int, b2: int)
    requires
        b1 > 0,
        b2 > 0,
        a1 * b2 <= a2 * b1,
    ensures
        a1 / b1 <= a2 / b2,
{
    let q1 = a1 / b1;
    let q2 = a2 / b2;
    vstd::arithmetic::div_mod::lemma_fundamental_div_mod(a1, b1);
    vstd::arithmetic::div_mod::lemma_mod_bound(a1, b1);
    vstd::arithmetic::div_mod::lemma_fundamental_div_mod(a2, b2);
    vstd::arithmetic::div_mod::lemma_mod_bound(a2, b2);
    assert(q1 * b1 <= a1);
    assert(q1 * b1 * b2 <= a2 * b1) by (nonlinear_arith)
        requires
            q1 * b1 <= a1,
            a1 * b2 <= a2 * b1,
            b2 > 0,
    {}
    assert(q1 * b2 <= a2) by (nonlinear_arith)
        requires
            q1 * b1 * b2 <= a2 * b1,
            b1 > 0,
    {}
    assert(q1 <= q2) by (nonlinear_arith)
        requires
            q1 * b2 <= a2,
            a2 == b2 * q2 + a2 % b2,
            a2 % b2 < b2,
            b2 > 0,
    {}
}

/// A farther wall never gives a taller stake: for fixed screen height and
/// plane distance, a larger distance gives a stake no taller, a top row no
/// higher and a bottom row no lower.
pub proof fn projection_is_monotonic(d1: int, d2: int, height: int, plane: int)
    requires
        projection_args(d1, height, plane),
        projection_args(d2, height, plane),
        d1 < d2,
    ensures
        projected(d2, height, plane).stake_height <= projected(d1, height, plane).stake_height,
        projected(d1, height, plane).top <= projected(d2, height, plane).top,
        projected(d2, height, plane).bottom <= projected(d1, height, plane).bottom,
{
    let e1 = effective_distance(d1);
    let e2 = effective_distance(d2);
    assert(1 <= e1 <= e2);
    vstd::arithmetic::div_mod::lemma_div_is_ordered_by_denominator(height * plane, 2 * e1, 2 * e2);
    assert(height * plane >= 0) by (nonlinear_arith)
        requires height > 0, plane > 0;
    assert(stake_height(d2, height, plane) <= stake_height(d1, height, plane));
    assert((height * (2 * e1 - plane)) * (4 * e2) <= (height * (2 * e2 - plane)) * (4 * e1)) by (nonlinear_arith)
        requires height > 0, plane > 0, 1 <= e1 <= e2;
    lemma_floor_ordered(height * (2 * e1 - plane), 4 * e1, height * (2 * e2 - plane), 4 * e2);
    assert(raw_top(d1, height, plane) <= raw_top(d2, height, plane));
    assert((height * (2 * e2 + plane)) * (4 * e1) <= (height * (2 * e1 + plane)) * (4 * e2)) by (nonlinear_arith)
        requires height > 0, plane > 0, 1 <= e1 <= e2;
    lemma_floor_ordered(height * (2 * e2 + plane), 4 * e2, height * (2 * e1 + plane), 4 * e1);
    assert(raw_bottom(d2, height, plane) <= raw_bottom(d1, height, plane));
    let s1 = stake_height(d1, height, plane);
    let s2 = stake_height(d2, height, plane);
    assert(0 <= s2 <= s1 <= height * plane) by (nonlinear_arith)
        requires
            s1 == (height * plane) / (2 * e1),
            s2 == (height * plane) / (2 * e2),
            s2 <= s1,
            height * plane >= 0,
            e1 >= 1,
            e2 >= 1,
    {}
    assert(height * plane <= i64::MAX) by (nonlinear_arith)
        requires 0 < height <= crate::projection::MAX_SCREEN, 0 < plane <= crate::geometry::MAX_EXTENT;
    let t1 = clamp(raw_top(d1, height, plane), 0, height - 1);
    let t2 = clamp(raw_top(d2, height, plane), 0, height - 1);
    let b1 = clamp(raw_bottom(d1, height, plane), 0, height - 1);
    let b2 = clamp(raw_bottom(d2, height, plane), 0, height - 1);
    assert(t1 <= t2 && b2 <= b1);
}

/// A zero move leaves the position where it was, whatever the grid.
pub proof fn zero_move_is_identity(g: Seq<Seq<char>>, block: int, p: Point, radius: int)
    ensures
        resolved(g, block, p, 0, 0, radius) == (p.x as int, p.y as int),
{
}

/// Wall sliding: when a move is blocked as a whole and along exactly one
/// axis, the position moves by the move's part along the other axis.
pub proof fn blocked_move_slides(g: Seq<Seq<char>>, block: int, p: Point, dx: int, dy: int, radius: int)
    requires
        !free_at(g, block, p.x + dx, p.y + dy, radius),
        free_at(g, block, p.x + dx, p.y as int, radius) != free_at(g, block, p.x as int, p.y + dy, radius),
    ensures
        free_at(g, block, p.x + dx, p.y as int, radius) ==> resolved(g, block, p, dx, dy, radius) == (
            p.x + dx,
            p.y as int,
        ),
        free_at(g, block, p.x as int, p.y + dy, radius) ==> resolved(g, block, p, dx, dy, radius) == (
            p.x as int,
            p.y + dy,
        ),
{
}

} // verus!
