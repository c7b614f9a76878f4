//! The wall ray marcher.

use vstd::prelude::*;
use vstd::arithmetic::div_mod::lemma_fundamental_div_mod_converse;
use crate::geometry::{floor_div, ray_point, Direction, Point, DIR_SCALE, MAX_COORD, MAX_EXTENT};
use crate::framebuffer::{lemma_index_distinct, lemma_index_in_buffer, pixel_index, FrameBuffer};
use crate::maze::{cols_of, open_at, rows_of, symbol_at, Maze, FREE, GOAL};

verus! {

/// Width of the grid in world units.
pub open spec fn extent_x(g: Seq<Seq<char>>, block: int) -> int {
    cols_of(g) * block
}

/// Height of the grid in world units.
pub open spec fn extent_y(g: Seq<Seq<char>>, block: int) -> int {
    rows_of(g) * block
}

/// The grid, at this block size, spans no more than `MAX_EXTENT` each way.
pub open spec fn fits(g: Seq<Seq<char>>, block: int) -> bool {
    &&& block > 0
    &&& extent_x(g, block) <= MAX_EXTENT
    &&& extent_y(g, block) <= MAX_EXTENT
}

/// Whether the ray from `o` along `dir` is stopped at distance `d`: the point
/// there lies in a wall cell or outside the grid.
pub open spec fn blocked_at(g: Seq<Seq<char>>, block: int, o: Point, dir: Direction, d: int) -> bool {
    !open_at(g, block, ray_point(o, dir, d).0, ray_point(o, dir, d).1)
}

/// Where a marched ray stopped.
#[derive(Clone, Copy, Debug, PartialEq, Eq, Structural)]
pub struct Intersect {
    /// Distance travelled, in world units; a multiple of the step.
    pub distance: i64,
    /// The point at which the ray stopped.
    pub point: Point,
    /// The symbol of the cell struck, or `None` where the ray left the grid.
    pub symbol: Option<char>,
}

/// What a march from `o` along `dir` reports: the first multiple of `step`
/// at which the ray is blocked, the point there and the symbol struck.
pub open spec fn is_march_result(
    g: Seq<Seq<char>>,
    block: int,
    o: Point,
    dir: Direction,
    step: int,
    r: Intersect,
) -> bool {
    &&& r.distance >= 0
    &&& (r.distance as int) % step == 0
    &&& forall|k: int| 0 <= k < (r.distance as int) / step ==> !blocked_at(g, block, o, dir, #[trigger] (k * step))
    &&& blocked_at(g, block, o, dir, r.distance as int)
    &&& (r.point.x as int, r.point.y as int) == ray_point(o, dir, r.distance as int)
    &&& r.symbol == symbol_at(g, block, r.point.x as int, r.point.y as int)
}

/// A point with `x / block < cols` and `x >= 0` lies within the grid's width.
proof fn lemma_cell_within_extent(x: int, block: int, n: int)
    requires
        block > 0,
        0 <= x,
        x / block < n,
    ensures
        x < n * block,
{
    vstd::arithmetic::div_mod::lemma_fundamental_div_mod(x, block);
    vstd::arithmetic::div_mod::lemma_mod_bound(x, block);
    assert(x < n * block) by (nonlinear_arith)
        requires
            block > 0,
            0 <= x,
            x / block < n,
            x == (x / block) * block + x % block,
            0 <= x % block < block,
    {}
}

/// Along one axis: a ray that starts and ends in `[0, w)` moved at most `w`,
/// so its scaled travel `t * c` is at most `s * w` in size.
proof fn lemma_axis_travel(t: int, c: int, s: int, o: int, w: int)
    requires
        s > 0,
        0 <= o < w,
        0 <= o + (t * c) / s < w,
    ensures
        (t * c) * (t * c) <= (s * w) * (s * w),
{
    let a = (t * c) / s;
    let m = (t * c) % s;
    assert(t * c == a * s + m && 0 <= m < s) by {
        vstd::arithmetic::div_mod::lemma_fundamental_div_mod(t * c, s);
        vstd::arithmetic::div_mod::lemma_mod_bound(t * c, s);
    }
    assert(-w < a < w);
    assert(-(s * w) <= t * c <= s * w) by (nonlinear_arith)
        requires
            s > 0,
            -w < a < w,
            t * c == a * s + m,
            0 <= m < s,
    {}
    assert((t * c) * (t * c) <= (s * w) * (s * w)) by (nonlinear_arith)
        requires
            -(s * w) <= t * c <= s * w,
    {}
}

/// A ray of at least unit length that starts and ends in a `w` by `h`
/// rectangle travelled no farther than its diagonal: `t * t <= w * w + h * h`,
/// and so no farther than `w + h`.
proof fn lemma_travel_within_diagonal(o: Point, dir: Direction, t: int, w: int, h: int)
    requires
        dir.wf(),
        t >= 0,
        0 <= o.x < w,
        0 <= o.y < h,
        0 <= ray_point(o, dir, t).0 < w,
        0 <= ray_point(o, dir, t).1 < h,
    ensures
        t * t <= w * w + h * h,
        t <= w + h,
{
    let s = DIR_SCALE as int;
    lemma_axis_travel(t, dir.dx as int, s, o.x as int, w);
    lemma_axis_travel(t, dir.dy as int, s, o.y as int, h);
    let dx = dir.dx as int;
    let dy = dir.dy as int;
    assert((t * dx) * (t * dx) + (t * dy) * (t * dy) == (t * t) * (dx * dx + dy * dy)) by (nonlinear_arith);
    assert((s * w) * (s * w) + (s * h) * (s * h) == (w * w + h * h) * (s * s)) by (nonlinear_arith);
    assert(t * t >= 0) by (nonlinear_arith);
    assert((t * t) * (s * s) <= (t * t) * (dx * dx + dy * dy)) by (nonlinear_arith)
        requires
            t * t >= 0,
            s * s <= dx * dx + dy * dy,
    {}
    assert(t * t * (s * s) <= (w * w + h * h) * (s * s));
    assert(t * t <= w * w + h * h) by (nonlinear_arith)
        requires
            t * t * (s * s) <= (w * w + h * h) * (s * s),
            s > 0,
    {}
    assert(t <= w + h) by (nonlinear_arith)
        requires
            t * t <= w * w + h * h,
            t >= 0,
            w > 0,
            h > 0,
    {}
}

/// A point in an open cell lies inside the grid's extent.
pub proof fn lemma_open_within_extent(g: Seq<Seq<char>>, block: int, x: int, y: int)
    requires
        block > 0,
        open_at(g, block, x, y),
    ensures
        0 <= x < extent_x(g, block),
        0 <= y < extent_y(g, block),
{
    lemma_cell_within_extent(x, block, cols_of(g));
    lemma_cell_within_extent(y, block, rows_of(g));
}

/// Marches a ray from `origin` along `dir` in steps of `step` world units
/// until the point reached lies in a wall cell or outside the grid, whose
/// edges act as walls. An origin that is not in an open cell gives distance 0.
///
/// The march always ends: the distance reported is at most the grid's width
/// plus its height plus one step, so it takes at most `(w + h) / step + 2`
/// probes, and the last free point lies within the grid's diagonal.
pub fn march(maze: &Maze, origin: Point, dir: Direction, block: i64, step: i64) -> (r: Intersect)
    requires
        fits(maze@, block as int),
        0 < step <= MAX_EXTENT,
        dir.wf(),
    ensures
        is_march_result(maze@, block as int, origin, dir, step as int, r),
        r.distance <= extent_x(maze@, block as int) + extent_y(maze@, block as int) + step,
        (r.distance as int) / (step as int) <= (extent_x(maze@, block as int) + extent_y(maze@, block as int)) / (step as int) + 1,
        r.distance >= step ==> (r.distance - step) * (r.distance - step) <= extent_x(maze@, block as int)
            * extent_x(maze@, block as int) + extent_y(maze@, block as int) * extent_y(maze@, block as int),
{
    let ghost g = maze@;
    let ghost w = extent_x(g, block as int);
    let ghost h = extent_y(g, block as int);
    let mut d: i64 = 0;
    loop
        invariant
            fits(g, block as int),
            g == maze@,
            w == extent_x(g, block as int),
            h == extent_y(g, block as int),
            0 < step <= MAX_EXTENT,
            dir.wf(),
            0 <= d <= w + h + step,
            d % step == 0,
            forall|k: int| 0 <= k < d / step ==> !blocked_at(g, block as int, origin, dir, #[trigger] (k * step)),
            d > 0 ==> 0 <= origin.x < w && 0 <= origin.y < h,
            d > 0 ==> (d - step) * (d - step) <= w * w + h * h,
        decreases w + h + step - d,
    {
        proof {
            assert(0 <= w <= MAX_EXTENT && 0 <= h <= MAX_EXTENT) by (nonlinear_arith)
                requires
                    w == cols_of(g) * block,
                    h == rows_of(g) * block,
                    cols_of(g) >= 0,
                    rows_of(g) >= 0,
                    block > 0,
                    w <= MAX_EXTENT,
                    h <= MAX_EXTENT,
            {}
            let s = DIR_SCALE as int;
            assert(-(3 * MAX_EXTENT) * (2 * s) <= d * dir.dx <= (3 * MAX_EXTENT) * (2 * s)) by (nonlinear_arith)
                requires
                    0 <= d <= 3 * MAX_EXTENT,
                    -2 * s <= dir.dx <= 2 * s,
            {}
            assert(-(3 * MAX_EXTENT) * (2 * s) <= d * dir.dy <= (3 * MAX_EXTENT) * (2 * s)) by (nonlinear_arith)
                requires
                    0 <= d <= 3 * MAX_EXTENT,
                    -2 * s <= dir.dy <= 2 * s,
            {}
        }
        let qx = floor_div(d * dir.dx, DIR_SCALE);
        let qy = floor_div(d * dir.dy, DIR_SCALE);
        proof {
            let s = DIR_SCALE as int;
            assert(-(6 * MAX_EXTENT) - 1 <= qx <= 6 * MAX_EXTENT) by (nonlinear_arith)
                requires
                    qx == (d * dir.dx) / s,
                    -(3 * MAX_EXTENT) * (2 * s) <= d * dir.dx <= (3 * MAX_EXTENT) * (2 * s),
                    s == DIR_SCALE,
            {}
            assert(-(6 * MAX_EXTENT) - 1 <= qy <= 6 * MAX_EXTENT) by (nonlinear_arith)
                requires
                    qy == (d * dir.dy) / s,
                    -(3 * MAX_EXTENT) * (2 * s) <= d * dir.dy <= (3 * MAX_EXTENT) * (2 * s),
                    s == DIR_SCALE,
            {}
            if d == 0 {
                assert(qx == 0 && qy == 0);
            }
        }
        let px = origin.x + qx;
        let py = origin.y + qy;
        let sym = maze.symbol_at(px, py, block);
        let open = match sym {
            Some(c) => c == FREE || c == GOAL,
            None => false,
        };
        if !open {
            let r = Intersect { distance: d, point: Point { x: px, y: py }, symbol: sym };
            proof {
                assert((d as int) / (step as int) <= (w + h) / (step as int) + 1) by {
                    vstd::arithmetic::div_mod::lemma_div_is_ordered(d as int, w + h + step, step as int);
                    vstd::arithmetic::div_mod::lemma_div_plus_one(w + h, step as int);
                }
                if d >= step {
                    assert(d > 0);
                }
            }
            return r;
        }
        proof {
            lemma_open_within_extent(g, block as int, px as int, py as int);
            if d == 0 {
                assert(0 <= origin.x < w && 0 <= origin.y < h);
            }
            lemma_travel_within_diagonal(origin, dir, d as int, w, h);
            let q = (d as int) / (step as int);
            vstd::arithmetic::div_mod::lemma_fundamental_div_mod(d as int, step as int);
            assert(d == q * step);
            assert(d + step == (q + 1) * step) by (nonlinear_arith)
                requires d == q * step;
            lemma_fundamental_div_mod_converse(d + step, step as int, q + 1, 0);
            assert forall|k: int| 0 <= k < (d + step) / (step as int) implies !blocked_at(
                g,
                block as int,
                origin,
                dir,
                #[trigger] (k * step),
            ) by {
                if k == q {
                    assert(k * step == d);
                }
            }
        }
        d = d + step;
    }
}

/// Whether `(px, py)` is one of the first `n` points that a march from `o`
/// along `dir` visits, one every `step` units.
pub open spec fn on_ray(o: Point, dir: Direction, step: int, n: int, px: int, py: int) -> bool {
    exists|k: int| 0 <= k < n && #[trigger] ray_point(o, dir, k * step) == (px, py)
}

/// Plots the first `n` points of the ray from `origin` along `dir`, one every
/// `step` units, in the current colour; points off the buffer are skipped.
pub fn plot_ray(framebuffer: &mut FrameBuffer, origin: Point, dir: Direction, step: i64, n: i64)
    requires
        old(framebuffer).wf(),
        -MAX_COORD <= origin.x <= MAX_COORD,
        -MAX_COORD <= origin.y <= MAX_COORD,
        0 < step,
        0 <= n,
        n * step <= 3 * MAX_EXTENT,
        dir.wf(),
    ensures
        final(framebuffer).wf(),
        final(framebuffer).spec_width() == old(framebuffer).spec_width(),
        final(framebuffer).spec_height() == old(framebuffer).spec_height(),
        final(framebuffer).spec_background() == old(framebuffer).spec_background(),
        final(framebuffer).spec_current() == old(framebuffer).spec_current(),
        forall|px: int, py: int|
            0 <= px < old(framebuffer).spec_width() && 0 <= py < old(framebuffer).spec_height()
                ==> #[trigger] final(framebuffer)@[pixel_index(old(framebuffer).spec_width() as int, px, py)]
                == if on_ray(origin, dir, step as int, n as int, px, py) {
                old(framebuffer).spec_current()
            } else {
                old(framebuffer)@[pixel_index(old(framebuffer).spec_width() as int, px, py)]
            },
{
    let ghost w = framebuffer.spec_width() as int;
    let ghost h = framebuffer.spec_height() as int;
    let ghost start = framebuffer@;
    let ghost cur = framebuffer.spec_current();
    let mut k: i64 = 0;
    while k < n
        invariant
            framebuffer.wf(),
            framebuffer.spec_width() == w,
            framebuffer.spec_height() == h,
            framebuffer.spec_background() == old(framebuffer).spec_background(),
            framebuffer.spec_current() == cur,
            cur == old(framebuffer).spec_current(),
            start == old(framebuffer)@,
            w == old(framebuffer).spec_width(),
            h == old(framebuffer).spec_height(),
            -MAX_COORD <= origin.x <= MAX_COORD,
            -MAX_COORD <= origin.y <= MAX_COORD,
            0 < step,
            n * step <= 3 * MAX_EXTENT,
            dir.wf(),
            0 <= k <= n,
            forall|px: int, py: int|
                0 <= px < w && 0 <= py < h ==> #[trigger] framebuffer@[pixel_index(w, px, py)] == if on_ray(
                    origin,
                    dir,
                    step as int,
                    k as int,
                    px,
                    py,
                ) {
                    cur
                } else {
                    start[pixel_index(w, px, py)]
                },
        decreases n - k,
    {
        assert(0 <= k * step <= n * step) by (nonlinear_arith)
            requires 0 <= k < n, step > 0;
        let d = k * step;
        proof {
            let s = DIR_SCALE as int;
            assert(-(3 * MAX_EXTENT) * (2 * s) <= d * dir.dx <= (3 * MAX_EXTENT) * (2 * s)) by (nonlinear_arith)
                requires 0 <= d <= 3 * MAX_EXTENT, -2 * s <= dir.dx <= 2 * s;
            assert(-(3 * MAX_EXTENT) * (2 * s) <= d * dir.dy <= (3 * MAX_EXTENT) * (2 * s)) by (nonlinear_arith)
                requires 0 <= d <= 3 * MAX_EXTENT, -2 * s <= dir.dy <= 2 * s;
        }
        let qx = floor_div(d * dir.dx, DIR_SCALE);
        let qy = floor_div(d * dir.dy, DIR_SCALE);
        proof {
            let s = DIR_SCALE as int;
            assert(-(6 * MAX_EXTENT) - 1 <= qx <= 6 * MAX_EXTENT) by (nonlinear_arith)
                requires
                    qx == (d * dir.dx) / s,
                    -(3 * MAX_EXTENT) * (2 * s) <= d * dir.dx <= (3 * MAX_EXTENT) * (2 * s),
                    s == DIR_SCALE,
            {}
            assert(-(6 * MAX_EXTENT) - 1 <= qy <= 6 * MAX_EXTENT) by (nonlinear_arith)
                requires
                    qy == (d * dir.dy) / s,
                    -(3 * MAX_EXTENT) * (2 * s) <= d * dir.dy <= (3 * MAX_EXTENT) * (2 * s),
                    s == DIR_SCALE,
            {}
        }
        let px = origin.x + qx;
        let py = origin.y + qy;
        proof {
            framebuffer.lemma_len();
            assert((px as int, py as int) == ray_point(origin, dir, k * step));
        }
        let ghost before = framebuffer@;
        if px >= 0 && py >= 0 && (px as u64) < (framebuffer.width() as u64) && (py as u64) < (framebuffer.height() as u64) {
            framebuffer.set_pixel(px as usize, py as usize);
        }
        proof {
            assert forall|x: int, y: int| 0 <= x < w && 0 <= y < h implies #[trigger] framebuffer@[pixel_index(w, x, y)]
                == if on_ray(origin, dir, step as int, k + 1, x, y) {
                cur
            } else {
                start[pixel_index(w, x, y)]
            } by {
                if 0 <= px < w && 0 <= py < h {
                    lemma_index_in_buffer(w, h, x, y);
                    lemma_index_in_buffer(w, h, px as int, py as int);
                    lemma_index_distinct(w, x, y, px as int, py as int);
                }
                if x == px && y == py {
                    assert(ray_point(origin, dir, k * step) == (x, y));
                    assert(on_ray(origin, dir, step as int, k + 1, x, y));
                } else {
                    if 0 <= px < w && 0 <= py < h {
                        assert(before.update(pixel_index(w, px as int, py as int), cur)[pixel_index(w, x, y)]
                            == before[pixel_index(w, x, y)]);
                    }
                    assert(framebuffer@[pixel_index(w, x, y)] == before[pixel_index(w, x, y)]);
                    if on_ray(origin, dir, step as int, k + 1, x, y) {
                        let j = choose|j: int| 0 <= j < k + 1 && #[trigger] ray_point(origin, dir, j * step) == (x, y);
                        assert(j != k);
                        assert(on_ray(origin, dir, step as int, k as int, x, y));
                    }
                    if on_ray(origin, dir, step as int, k as int, x, y) {
                        let j = choose|j: int| 0 <= j < k && #[trigger] ray_point(origin, dir, j * step) == (x, y);
                        assert(on_ray(origin, dir, step as int, k + 1, x, y));
                    }
                }
            }
        }
        k = k + 1;
    }
}

/// Marches a ray like `march`; when `draw` is set, also plots every point the
/// ray passed through before it was stopped, in the current colour.
pub fn cast_ray(
    framebuffer: &mut FrameBuffer,
    maze: &Maze,
    origin: Point,
    dir: Direction,
    block: i64,
    step: i64,
    draw: bool,
) -> (r: Intersect)
    requires
        old(framebuffer).wf(),
        fits(maze@, block as int),
        0 < step <= MAX_EXTENT,
        dir.wf(),
    ensures
        is_march_result(maze@, block as int, origin, dir, step as int, r),
        final(framebuffer).wf(),
        final(framebuffer).spec_width() == old(framebuffer).spec_width(),
        final(framebuffer).spec_height() == old(framebuffer).spec_height(),
        final(framebuffer).spec_background() == old(framebuffer).spec_background(),
        final(framebuffer).spec_current() == old(framebuffer).spec_current(),
        forall|px: int, py: int|
            0 <= px < old(framebuffer).spec_width() && 0 <= py < old(framebuffer).spec_height()
                ==> #[trigger] final(framebuffer)@[pixel_index(old(framebuffer).spec_width() as int, px, py)]
                == if draw && on_ray(origin, dir, step as int, (r.distance as int) / (step as int), px, py) {
                old(framebuffer).spec_current()
            } else {
                old(framebuffer)@[pixel_index(old(framebuffer).spec_width() as int, px, py)]
            },
{
    let r = march(maze, origin, dir, block, step);
    if draw && r.distance >= step {
        proof {
            assert((r.distance as int) / (step as int) * step <= r.distance) by (nonlinear_arith)
                requires step > 0, r.distance >= 0;
            assert(r.distance <= 3 * MAX_EXTENT);
            assert((r.distance as int) / (step as int) >= 1) by (nonlinear_arith)
                requires r.distance >= step, step > 0;
            assert(!blocked_at(maze@, block as int, origin, dir, 0 * step));
            assert(ray_point(origin, dir, 0) == (origin.x as int, origin.y as int));
            lemma_open_within_extent(maze@, block as int, origin.x as int, origin.y as int);
        }
        plot_ray(framebuffer, origin, dir, step, r.distance / step);
    } else if r.distance < step {
        proof {
            assert((r.distance as int) / (step as int) == 0) by {
                vstd::arithmetic::div_mod::lemma_basic_div(r.distance as int, step as int);
            }
        }
    }
    r
}

} // verus!
