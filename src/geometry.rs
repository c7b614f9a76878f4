//! Plane geometry on integer world units and fixed-point directions.

use vstd::prelude::*;
use vstd::arithmetic::div_mod::lemma_fundamental_div_mod_converse;

verus! {

/// Fixed-point scale of a direction: a component of `DIR_SCALE` stands for 1.
pub const DIR_SCALE: i64 = 65536;

/// Largest extent, in world units, that a maze may span along either axis.
pub const MAX_EXTENT: i64 = 0x100_0000;

/// Angle units in a full turn: a heading counts tenths of a degree.
pub const FULL_TURN: i64 = 3600;

/// Largest size of a coordinate, or of an angle before it is normalised.
pub const MAX_COORD: i64 = 0x10_0000_0000;

/// A position in world units.
#[derive(Clone, Copy, Debug, PartialEq, Eq, Structural)]
pub struct Point {
    pub x: i64,
    pub y: i64,
}

/// A ray direction in fixed point: `(dx, dy) / DIR_SCALE` approximates
/// `(cos a, sin a)` for a heading `a`.
#[derive(Clone, Copy, Debug, PartialEq, Eq, Structural)]
pub struct Direction {
    pub dx: i64,
    pub dy: i64,
}

impl Direction {
    /// At least unit length and at most twice that: long enough that a march
    /// leaves any bounded region, short enough that products stay small.
    pub open spec fn wf(self) -> bool {
        let s = DIR_SCALE as int;
        &&& -2 * s <= self.dx <= 2 * s
        &&& -2 * s <= self.dy <= 2 * s
        &&& s * s <= self.dx * self.dx + self.dy * self.dy
        &&& self.dx * self.dx + self.dy * self.dy <= 4 * s * s
    }

    /// Builds a direction from fixed-point components, or `None` when they do
    /// not have the length that `wf` asks for.
    pub fn new(dx: i64, dy: i64) -> (r: Option<Direction>)
        ensures
            r is Some <==> (Direction { dx, dy }).wf(),
            r is Some ==> r->0 == (Direction { dx, dy }),
    {
        let s = DIR_SCALE;
        if dx < -2 * s || dx > 2 * s || dy < -2 * s || dy > 2 * s {
            return None;
        }
        assert(dx * dx <= 4 * s * s) by (nonlinear_arith)
            requires -2 * s <= dx <= 2 * s;
        assert(dy * dy <= 4 * s * s) by (nonlinear_arith)
            requires -2 * s <= dy <= 2 * s;
        assert(dx * dx >= 0 && dy * dy >= 0) by (nonlinear_arith);
        let len2 = dx * dx + dy * dy;
        if s * s <= len2 && len2 <= 4 * s * s {
            Some(Direction { dx, dy })
        } else {
            None
        }
    }
}

/// A heading taken into `[0, FULL_TURN)`.
pub open spec fn normal_angle(a: int) -> int {
    a % (FULL_TURN as int)
}

/// Takes a heading into `[0, FULL_TURN)`.
pub fn normalize_angle(a: i64) -> (r: i64)
    ensures
        r == normal_angle(a as int),
        0 <= r < FULL_TURN,
{
    let q = floor_div(a, FULL_TURN);
    proof {
        vstd::arithmetic::div_mod::lemma_fundamental_div_mod(a as int, FULL_TURN as int);
        vstd::arithmetic::div_mod::lemma_mod_bound(a as int, FULL_TURN as int);
    }
    (a as i128 - (q as i128) * (FULL_TURN as i128)) as i64
}

/// One direction for each angle unit of a full turn, as the cosine and sine
/// of that heading in fixed point.
pub struct AngleTable {
    dirs: Vec<Direction>,
}

impl View for AngleTable {
    type V = Seq<Direction>;

    closed spec fn view(&self) -> Seq<Direction> {
        self.dirs@
    }
}

impl AngleTable {
    #[verifier::type_invariant]
    spec fn inv(self) -> bool {
        &&& self.dirs@.len() == FULL_TURN
        &&& forall|i: int| 0 <= i < self.dirs@.len() ==> #[trigger] self.dirs@[i].wf()
    }

    /// The table for these directions, one per angle unit from heading 0;
    /// `None` unless there are `FULL_TURN` of them, each well formed.
    pub fn from_directions(dirs: Vec<Direction>) -> (r: Option<AngleTable>)
        ensures
            r is Some <==> dirs@.len() == FULL_TURN && forall|i: int|
                0 <= i < dirs@.len() ==> #[trigger] dirs@[i].wf(),
            r is Some ==> r->0@ == dirs@,
    {
        if dirs.len() != FULL_TURN as usize {
            return None;
        }
        let mut i: usize = 0;
        while i < dirs.len()
            invariant
                0 <= i <= dirs@.len(),
                forall|k: int| 0 <= k < i ==> #[trigger] dirs@[k].wf(),
            decreases dirs@.len() - i,
        {
            if Direction::new(dirs[i].dx, dirs[i].dy).is_none() {
                return None;
            }
            i += 1;
        }
        Some(AngleTable { dirs })
    }

    /// The direction of heading `a`, taken into a full turn first.
    pub fn direction(&self, a: i64) -> (d: Direction)
        ensures
            d == self@[normal_angle(a as int)],
            d.wf(),
    {
        proof { use_type_invariant(self); }
        let i = normalize_angle(a);
        self.dirs[i as usize]
    }
}

/// Floor of `a / b` for a positive `b`; in ghost code `/` on `int` with a
/// positive divisor is exactly that.
pub fn floor_div(a: i64, b: i64) -> (r: i64)
    requires
        b > 0,
    ensures
        r == a / b,
{
    if a >= 0 {
        a / b
    } else {
        let q = (-1 - a) / b;
        proof {
            let n: int = -1 - a;
            let bb: int = b as int;
            assert(n == q * bb + n % bb) by {
                vstd::arithmetic::div_mod::lemma_fundamental_div_mod(n, bb);
            }
            let rr: int = n % bb;
            assert(0 <= rr < bb) by {
                vstd::arithmetic::div_mod::lemma_mod_bound(n, bb);
            }
            assert(a == (-q - 1) * bb + (bb - 1 - rr)) by (nonlinear_arith)
                requires n == q * bb + rr, n == -1 - a;
            lemma_fundamental_div_mod_converse(a as int, b as int, -q - 1, b - 1 - rr);
        }
        -q - 1
    }
}

/// The point that lies `d` world units along `dir` from `o`, each coordinate
/// rounded down.
pub open spec fn ray_point(o: Point, dir: Direction, d: int) -> (int, int) {
    (o.x + (d * dir.dx) / (DIR_SCALE as int), o.y + (d * dir.dy) / (DIR_SCALE as int))
}

} // verus!
