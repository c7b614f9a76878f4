//! The player: grid-aware movement with wall sliding, and goal detection.

use vstd::prelude::*;
use crate::geometry::{floor_div, normal_angle, AngleTable, Point, DIR_SCALE, FULL_TURN, MAX_COORD, MAX_EXTENT};
use crate::maze::{open_at, symbol_at, Maze, GOAL};

verus! {

/// Distance moved per frame, in world units.
pub const MOVE_SPEED: i64 = 10;

/// Heading change per frame of a turn key: a twentieth of a turn.
pub const ROTATION_SPEED: i64 = 180;

/// The player's pose: position in world units, heading and field of view in
/// angle units.
#[derive(Clone, Copy, Debug, PartialEq, Eq, Structural)]
pub struct Player {
    pub pos: Point,
    pub a: i64,
    pub fov: i64,
}

/// A coordinate pair small enough for the movement arithmetic.
pub open spec fn in_range(p: Point) -> bool {
    coords_in_range(p.x as int, p.y as int)
}

pub open spec fn coords_in_range(x: int, y: int) -> bool {
    -MAX_COORD <= x <= MAX_COORD && -MAX_COORD <= y <= MAX_COORD
}

/// A point reached by one move from a point in range.
pub open spec fn within_move(p: Point) -> bool {
    -2 * MAX_COORD <= p.x <= 2 * MAX_COORD && -2 * MAX_COORD <= p.y <= 2 * MAX_COORD
}

/// The player's half-width for cells of `block` units: three tenths of a cell.
pub open spec fn player_radius(block: int) -> int {
    block * 3 / 10
}

/// A position is free when its centre and the four corners of the square of
/// half-width `radius` round it all lie in open cells.
pub open spec fn free_at(g: Seq<Seq<char>>, block: int, x: int, y: int, radius: int) -> bool {
    &&& open_at(g, block, x - radius, y - radius)
    &&& open_at(g, block, x + radius, y - radius)
    &&& open_at(g, block, x - radius, y + radius)
    &&& open_at(g, block, x + radius, y + radius)
    &&& open_at(g, block, x, y)
}

/// Where a move of `(dx, dy)` from `p` ends: the whole move if its end is
/// free, else its part along x, else its part along y, else no move.
pub open spec fn resolved(g: Seq<Seq<char>>, block: int, p: Point, dx: int, dy: int, radius: int) -> (int, int) {
    if free_at(g, block, p.x + dx, p.y + dy, radius) {
        (p.x + dx, p.y + dy)
    } else if free_at(g, block, p.x + dx, p.y as int, radius) {
        (p.x + dx, p.y as int)
    } else if free_at(g, block, p.x as int, p.y + dy, radius) {
        (p.x as int, p.y + dy)
    } else {
        (p.x as int, p.y as int)
    }
}

/// Whether the square of half-width `radius` centred on `p` lies in open cells.
pub fn position_free(maze: &Maze, p: Point, block: i64, radius: i64) -> (r: bool)
    requires
        block > 0,
        within_move(p),
        0 <= radius <= MAX_EXTENT,
    ensures
        r == free_at(maze@, block as int, p.x as int, p.y as int, radius as int),
{
    maze.open_at(p.x - radius, p.y - radius, block)
        && maze.open_at(p.x + radius, p.y - radius, block)
        && maze.open_at(p.x - radius, p.y + radius, block)
        && maze.open_at(p.x + radius, p.y + radius, block)
        && maze.open_at(p.x, p.y, block)
}

/// Moves from `pos` by `(dx, dy)` against the grid, sliding along a wall
/// where the whole move is blocked: see `resolved`.
pub fn resolve_move(maze: &Maze, pos: Point, dx: i64, dy: i64, block: i64, radius: i64) -> (r: Point)
    requires
        block > 0,
        in_range(pos),
        coords_in_range(dx as int, dy as int),
        0 <= radius <= MAX_EXTENT,
    ensures
        (r.x as int, r.y as int) == resolved(maze@, block as int, pos, dx as int, dy as int, radius as int),
{
    let full = Point { x: pos.x + dx, y: pos.y + dy };
    if position_free(maze, full, block, radius) {
        return full;
    }
    let along_x = Point { x: pos.x + dx, y: pos.y };
    if position_free(maze, along_x, block, radius) {
        return along_x;
    }
    let along_y = Point { x: pos.x, y: pos.y + dy };
    if position_free(maze, along_y, block, radius) {
        return along_y;
    }
    pos
}

/// Keys and mouse motion for one frame; `turn` is the mouse's heading change
/// in angle units.
#[derive(Clone, Copy, Debug, PartialEq, Eq, Structural)]
pub struct Input {
    pub turn: i64,
    pub left: bool,
    pub right: bool,
    pub forward: bool,
    pub backward: bool,
}

/// The heading after a frame's input: mouse turn and turn keys, normalised.
pub open spec fn turned(a: int, input: Input) -> int {
    let keys = (if input.left { ROTATION_SPEED as int } else { 0 }) - (if input.right {
        ROTATION_SPEED as int
    } else {
        0
    });
    normal_angle(a + input.turn + keys)
}

/// `+1` forward, `-1` backward, `0` for neither or both.
pub open spec fn thrust(input: Input) -> int {
    (if input.forward { 1int } else { 0int }) - (if input.backward { 1int } else { 0int })
}

impl Player {
    /// Whether the player could stand at `new_pos`: see `free_at`, with the
    /// player's radius.
    pub fn is_position_free(&self, maze: &Maze, new_pos: Point, block_size: i64) -> (r: bool)
        requires
            0 < block_size <= MAX_EXTENT,
            within_move(new_pos),
        ensures
            r == free_at(maze@, block_size as int, new_pos.x as int, new_pos.y as int, player_radius(block_size as int)),
    {
        position_free(maze, new_pos, block_size, block_size * 3 / 10)
    }

    /// Whether the player's centre lies on the goal cell.
    pub fn has_reached_goal(&self, maze: &Maze, block_size: i64) -> (r: bool)
        requires
            block_size > 0,
        ensures
            r == (symbol_at(maze@, block_size as int, self.pos.x as int, self.pos.y as int) == Some(GOAL)),
    {
        match maze.symbol_at(self.pos.x, self.pos.y, block_size) {
            Some(c) => c == GOAL,
            None => false,
        }
    }
}

/// Applies one frame of input: the heading turns unconditionally, then the
/// player moves `MOVE_SPEED` units along the new heading (forward or back)
/// against the grid, sliding along walls.
pub fn process_events(player: &mut Player, input: &Input, maze: &Maze, block_size: i64, table: &AngleTable)
    requires
        0 < block_size <= MAX_EXTENT,
        in_range(old(player).pos),
        -MAX_COORD <= old(player).a <= MAX_COORD,
        -MAX_COORD <= input.turn <= MAX_COORD,
    ensures
        final(player).a == turned(old(player).a as int, *input),
        final(player).fov == old(player).fov,
        ({
            let dir = table@[final(player).a as int];
            let dx = (thrust(*input) * MOVE_SPEED * dir.dx) / (DIR_SCALE as int);
            let dy = (thrust(*input) * MOVE_SPEED * dir.dy) / (DIR_SCALE as int);
            (final(player).pos.x as int, final(player).pos.y as int) == resolved(
                maze@,
                block_size as int,
                old(player).pos,
                dx,
                dy,
                player_radius(block_size as int),
            )
        }),
{
    let left: i64 = if input.left { ROTATION_SPEED } else { 0 };
    let right: i64 = if input.right { ROTATION_SPEED } else { 0 };
    let a = crate::geometry::normalize_angle(player.a + input.turn + left - right);
    let dir = table.direction(a);
    assert(normal_angle(a as int) == a) by {
        vstd::arithmetic::div_mod::lemma_small_mod(a as nat, FULL_TURN as nat);
    }
    let k: i64 = (if input.forward { 1 } else { 0 }) - (if input.backward { 1 } else { 0 });
    assert(-20 * DIR_SCALE <= k * MOVE_SPEED * dir.dx <= 20 * DIR_SCALE) by (nonlinear_arith)
        requires -1 <= k <= 1, -2 * DIR_SCALE <= dir.dx <= 2 * DIR_SCALE;
    assert(-20 * DIR_SCALE <= k * MOVE_SPEED * dir.dy <= 20 * DIR_SCALE) by (nonlinear_arith)
        requires -1 <= k <= 1, -2 * DIR_SCALE <= dir.dy <= 2 * DIR_SCALE;
    let dx = floor_div(k * MOVE_SPEED * dir.dx, DIR_SCALE);
    let dy = floor_div(k * MOVE_SPEED * dir.dy, DIR_SCALE);
    assert(-20 <= dx <= 20 && -20 <= dy <= 20) by (nonlinear_arith)
        requires
            dx == (k * MOVE_SPEED * dir.dx) / (DIR_SCALE as int),
            dy == (k * MOVE_SPEED * dir.dy) / (DIR_SCALE as int),
            -1 <= k <= 1,
            -2 * DIR_SCALE <= dir.dx <= 2 * DIR_SCALE,
            -2 * DIR_SCALE <= dir.dy <= 2 * DIR_SCALE,
    {}
    let pos = resolve_move(maze, player.pos, dx, dy, block_size, block_size * 3 / 10);
    player.a = a;
    player.pos = pos;
}

} // verus!
