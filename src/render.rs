//! Drawing the first-person view into a framebuffer.

use vstd::prelude::*;
use crate::caster::{cast_ray, fits, is_march_result, march, on_ray, Intersect};
use crate::color::{cell_to_color, symbol_color, Rgba};
use crate::face::{face_of, resolve_face, texture_u};
use crate::framebuffer::{lemma_index_distinct, lemma_index_in_buffer, pixel_index, FrameBuffer};
use crate::geometry::{normal_angle, AngleTable, FULL_TURN, MAX_COORD, MAX_EXTENT};
use crate::maze::{cols_of, rows_of, symbol_at, Maze, FREE};
use crate::player::Player;
use crate::projection::{project_column, projected, shade, shaded, texture_row, texture_v, MAX_DISTANCE, MAX_SCREEN};
use crate::texture::{texture_for, TextureSet};

verus! {

/// The tunables of the first-person view, all in world units.
#[derive(Clone, Copy, Debug, PartialEq, Eq, Structural)]
pub struct ViewSettings {
    /// Side of a maze cell.
    pub block: i64,
    /// Marching step.
    pub step: i64,
    /// Distance from the eye to the projection plane.
    pub plane: i64,
    /// Distance at which shading stops darkening.
    pub far: i64,
}

/// Settings that every drawing function accepts.
pub open spec fn settings_ok(s: ViewSettings) -> bool {
    &&& 0 < s.block <= MAX_EXTENT
    &&& 0 < s.step <= MAX_EXTENT
    &&& 0 < s.plane <= MAX_EXTENT
    &&& 0 < s.far <= MAX_DISTANCE
}

/// The unshaded colour of screen row `y` of the stake `[top, bottom)` for a
/// hit: the struck symbol's texture at the face's column and the row's
/// texture row, or the symbol's flat colour where it has no texture, or white
/// where the ray left the grid.
pub open spec fn wall_texel(
    textures: Seq<crate::texture::TextureModel>,
    hit: Intersect,
    block: int,
    y: int,
    top: int,
    bottom: int,
) -> Rgba {
    match hit.symbol {
        Some(c) => match texture_for(textures, c) {
            Some(t) => {
                let u = texture_u(hit.point, block, face_of(hit.point, block), t.size as int);
                let v = texture_v(y, top, bottom, t.size as int);
                t.texels[v * t.size + u]
            },
            None => symbol_color(c),
        },
        None => Rgba { r: 255, g: 255, b: 255, a: 255 },
    }
}

/// Screen row `y` of the column drawn for `hit` on a screen `height` rows
/// tall: the shaded wall texel inside the stake, `under` elsewhere.
pub open spec fn column_pixel(
    under: Rgba,
    textures: Seq<crate::texture::TextureModel>,
    hit: Intersect,
    s: ViewSettings,
    height: int,
    y: int,
) -> Rgba {
    let col = projected(hit.distance as int, height, s.plane as int);
    if col.top <= y < col.bottom {
        shaded(
            wall_texel(textures, hit, s.block as int, y, col.top as int, col.bottom as int),
            hit.distance as int,
            s.far as int,
            face_of(hit.point, s.block as int),
        )
    } else {
        under
    }
}

/// Draws column `x` of the view for `hit`: each row of the projected stake
/// gets the struck texture's texel, shaded for distance and face. Other pixels
/// keep their colour.
pub fn draw_column(fb: &mut FrameBuffer, x: usize, hit: &Intersect, textures: &TextureSet, settings: &ViewSettings)
    requires
        old(fb).wf(),
        x < old(fb).spec_width(),
        0 < old(fb).spec_height() <= MAX_SCREEN,
        0 <= hit.distance <= MAX_DISTANCE,
        settings_ok(*settings),
    ensures
        final(fb).wf(),
        final(fb).spec_width() == old(fb).spec_width(),
        final(fb).spec_height() == old(fb).spec_height(),
        final(fb).spec_background() == old(fb).spec_background(),
        final(fb).spec_current() == old(fb).spec_current(),
        forall|px: int, py: int|
            0 <= px < old(fb).spec_width() && 0 <= py < old(fb).spec_height() ==> #[trigger] final(fb)@[pixel_index(
                old(fb).spec_width() as int,
                px,
                py,
            )] == if px == x {
                column_pixel(
                    old(fb)@[pixel_index(old(fb).spec_width() as int, px, py)],
                    textures@,
                    *hit,
                    *settings,
                    old(fb).spec_height() as int,
                    py,
                )
            } else {
                old(fb)@[pixel_index(old(fb).spec_width() as int, px, py)]
            },
{
    let ghost w = fb.spec_width() as int;
    let ghost h = fb.spec_height() as int;
    let ghost start = fb@;
    let height = fb.height() as i64;
    let col = project_column(hit.distance, height, settings.plane);
    let tex = match hit.symbol {
        Some(c) => textures.find(c),
        None => None,
    };
    let size: u32 = match tex {
        Some(t) => t.size(),
        None => 1,
    };
    let fh = resolve_face(hit.point, settings.block, size);
    let mut y: i64 = col.top;
    while y < col.bottom
        invariant
            fb.wf(),
            fb.spec_width() == w,
            fb.spec_height() == h,
            fb.spec_background() == old(fb).spec_background(),
            fb.spec_current() == old(fb).spec_current(),
            start == old(fb)@,
            w == old(fb).spec_width(),
            h == old(fb).spec_height(),
            h == height,
            0 < height <= MAX_SCREEN,
            x < w,
            0 <= hit.distance <= MAX_DISTANCE,
            settings_ok(*settings),
            col == projected(hit.distance as int, height as int, settings.plane as int),
            0 <= col.top < height,
            0 <= col.bottom < height,
            col.top <= y,
            y <= col.bottom || col.bottom <= col.top,
            fh.face == face_of(hit.point, settings.block as int),
            0 < size <= crate::face::MAX_TEXTURE,
            fh.u < size,
            tex is Some <==> (hit.symbol is Some && texture_for(textures@, hit.symbol->0) is Some),
            tex is Some ==> tex->0@ == texture_for(textures@, hit.symbol->0)->0 && size == tex->0@.size
                && fh.u == texture_u(hit.point, settings.block as int, fh.face, size as int),
            forall|px: int, py: int|
                0 <= px < w && 0 <= py < h ==> #[trigger] fb@[pixel_index(w, px, py)] == if px == x && py < y {
                    column_pixel(start[pixel_index(w, px, py)], textures@, *hit, *settings, h, py)
                } else {
                    start[pixel_index(w, px, py)]
                },
        decreases col.bottom - y,
    {
        let v = texture_row(y, col.top, col.bottom, size);
        let base = match tex {
            Some(t) => t.texel(fh.u, v),
            None => match hit.symbol {
                Some(c) => crate::color::cell_to_color(c),
                None => Rgba::white(),
            },
        };
        let c = shade(base, hit.distance, settings.far, fh.face);
        let ghost before = fb@;
        proof {
            fb.lemma_len();
            assert(c == column_pixel(start[pixel_index(w, x as int, y as int)], textures@, *hit, *settings, h, y as int));
        }
        fb.point(x, y as usize, c);
        proof {
            assert forall|px: int, py: int| 0 <= px < w && 0 <= py < h implies #[trigger] fb@[pixel_index(w, px, py)]
                == if px == x && py < y + 1 {
                column_pixel(start[pixel_index(w, px, py)], textures@, *hit, *settings, h, py)
            } else {
                start[pixel_index(w, px, py)]
            } by {
                lemma_index_in_buffer(w, h, px, py);
                lemma_index_in_buffer(w, h, x as int, y as int);
                lemma_index_distinct(w, px, py, x as int, y as int);
            }
        }
        y = y + 1;
    }
    proof {
        assert forall|px: int, py: int| 0 <= px < w && 0 <= py < h implies #[trigger] fb@[pixel_index(w, px, py)]
            == if px == x {
            column_pixel(start[pixel_index(w, px, py)], textures@, *hit, *settings, h, py)
        } else {
            start[pixel_index(w, px, py)]
        } by {
            if px == x && py >= y {
                assert(!(col.top <= py < col.bottom));
            }
        }
    }
}

/// Heading of the ray for screen column `i` of `w`: the field of view is swept
/// from `a - fov / 2` at the left edge in steps of `fov / w`.
pub open spec fn ray_heading(a: int, fov: int, i: int, w: int) -> int {
    a + (fov * (2 * i - w)) / (2 * w)
}

/// Draws the first-person view: for every screen column, marches the ray of
/// that column's heading from the player and draws its stake. Returns the
/// hit of each column; pixels outside every stake keep their colour.
pub fn render_world(
    fb: &mut FrameBuffer,
    maze: &Maze,
    player: &Player,
    table: &AngleTable,
    textures: &TextureSet,
    settings: &ViewSettings,
) -> (hits: Vec<Intersect>)
    requires
        old(fb).wf(),
        0 < old(fb).spec_width() <= MAX_SCREEN,
        0 < old(fb).spec_height() <= MAX_SCREEN,
        settings_ok(*settings),
        fits(maze@, settings.block as int),
        -MAX_COORD <= player.a <= MAX_COORD,
        0 <= player.fov <= FULL_TURN,
    ensures
        final(fb).wf(),
        final(fb).spec_width() == old(fb).spec_width(),
        final(fb).spec_height() == old(fb).spec_height(),
        final(fb).spec_background() == old(fb).spec_background(),
        final(fb).spec_current() == old(fb).spec_current(),
        hits@.len() == old(fb).spec_width(),
        forall|i: int|
            0 <= i < hits@.len() ==> is_march_result(
                maze@,
                settings.block as int,
                player.pos,
                table@[normal_angle(ray_heading(player.a as int, player.fov as int, i, hits@.len() as int))],
                settings.step as int,
                #[trigger] hits@[i],
            ),
        forall|px: int, py: int|
            0 <= px < old(fb).spec_width() && 0 <= py < old(fb).spec_height() ==> #[trigger] final(fb)@[pixel_index(
                old(fb).spec_width() as int,
                px,
                py,
            )] == column_pixel(
                old(fb)@[pixel_index(old(fb).spec_width() as int, px, py)],
                textures@,
                hits@[px],
                *settings,
                old(fb).spec_height() as int,
                py,
            ),
{
    let ghost w = fb.spec_width() as int;
    let ghost h = fb.spec_height() as int;
    let ghost start = fb@;
    let width = fb.width();
    let mut hits: Vec<Intersect> = Vec::new();
    let mut x: usize = 0;
    while x < width
        invariant
            fb.wf(),
            fb.spec_width() == w,
            fb.spec_height() == h,
            fb.spec_background() == old(fb).spec_background(),
            fb.spec_current() == old(fb).spec_current(),
            start == old(fb)@,
            w == old(fb).spec_width(),
            h == old(fb).spec_height(),
            width == w,
            0 < w <= MAX_SCREEN,
            0 < h <= MAX_SCREEN,
            0 <= x <= w,
            settings_ok(*settings),
            fits(maze@, settings.block as int),
            -MAX_COORD <= player.a <= MAX_COORD,
            0 <= player.fov <= FULL_TURN,
            hits@.len() == x,
            forall|i: int|
                0 <= i < x ==> is_march_result(
                    maze@,
                    settings.block as int,
                    player.pos,
                    table@[normal_angle(ray_heading(player.a as int, player.fov as int, i, w))],
                    settings.step as int,
                    #[trigger] hits@[i],
                ),
            forall|i: int| 0 <= i < x ==> 0 <= #[trigger] hits@[i].distance <= MAX_DISTANCE,
            forall|px: int, py: int|
                0 <= px < w && 0 <= py < h ==> #[trigger] fb@[pixel_index(w, px, py)] == if px < x {
                    column_pixel(start[pixel_index(w, px, py)], textures@, hits@[px], *settings, h, py)
                } else {
                    start[pixel_index(w, px, py)]
                },
        decreases w - x,
    {
        assert(-(FULL_TURN * MAX_SCREEN) <= player.fov * (2 * x - w) <= FULL_TURN * (2 * MAX_SCREEN)) by (nonlinear_arith)
            requires 0 <= player.fov <= FULL_TURN, 0 <= x < w <= MAX_SCREEN;
        let sweep = (player.fov * (2 * (x as i64) - (width as i64)));
        let offset = crate::geometry::floor_div(sweep, 2 * (width as i64));
        assert(-(FULL_TURN * MAX_SCREEN) <= offset <= FULL_TURN * MAX_SCREEN) by (nonlinear_arith)
            requires
                offset == (sweep as int) / (2 * w),
                -(FULL_TURN * MAX_SCREEN) <= sweep <= FULL_TURN * (2 * MAX_SCREEN),
                w > 0,
        {}
        let dir = table.direction(player.a + offset);
        let hit = march(maze, player.pos, dir, settings.block, settings.step);
        proof {
            let g = maze@;
            let b = settings.block as int;
            assert(crate::caster::extent_x(g, b) <= MAX_EXTENT && crate::caster::extent_y(g, b) <= MAX_EXTENT);
        }
        draw_column(fb, x, &hit, textures, settings);
        hits.push(hit);
        proof {
            assert forall|px: int, py: int| 0 <= px < w && 0 <= py < h implies #[trigger] fb@[pixel_index(w, px, py)]
                == if px < x + 1 {
                column_pixel(start[pixel_index(w, px, py)], textures@, hits@[px], *settings, h, py)
            } else {
                start[pixel_index(w, px, py)]
            } by {}
        }
        x = x + 1;
    }
    hits
}

/// The colour of pixel `(px, py)` of the top-down view for cells of `block`
/// pixels: the colour of its cell's symbol, or `under` on free space and
/// outside the grid.
pub open spec fn cell_pixel(g: Seq<Seq<char>>, block: int, px: int, py: int, under: Rgba) -> Rgba {
    match symbol_at(g, block, px, py) {
        Some(c) => if c == FREE { under } else { symbol_color(c) },
        None => under,
    }
}

/// A coordinate lies in the `c`-th span of `block` units exactly when its
/// quotient by `block` is `c`.
proof fn lemma_span(p: int, block: int, c: int)
    requires
        0 <= p,
        block > 0,
    ensures
        (c * block <= p < c * block + block) <==> p / block == c,
{
    vstd::arithmetic::div_mod::lemma_fundamental_div_mod(p, block);
    vstd::arithmetic::div_mod::lemma_mod_bound(p, block);
    let q = p / block;
    if c * block <= p < c * block + block {
        vstd::arithmetic::div_mod::lemma_fundamental_div_mod_converse(p, block, c, p - c * block);
    }
    if q == c {
        assert(c * block <= p < c * block + block) by (nonlinear_arith)
            requires p == block * q + p % block, 0 <= p % block < block, q == c;
    }
}

/// Fills the `block`-pixel square at `(xo, yo)` with the colour of `cell`,
/// which also becomes the current colour; a free cell draws nothing.
pub fn draw_cell(framebuffer: &mut FrameBuffer, xo: usize, yo: usize, block_size: usize, cell: char)
    requires
        old(framebuffer).wf(),
        xo + block_size <= usize::MAX,
        yo + block_size <= usize::MAX,
    ensures
        final(framebuffer).wf(),
        final(framebuffer).spec_width() == old(framebuffer).spec_width(),
        final(framebuffer).spec_height() == old(framebuffer).spec_height(),
        final(framebuffer).spec_background() == old(framebuffer).spec_background(),
        cell == FREE ==> final(framebuffer)@ == old(framebuffer)@ && final(framebuffer).spec_current()
            == old(framebuffer).spec_current(),
        cell != FREE ==> final(framebuffer).spec_current() == symbol_color(cell),
        forall|px: int, py: int|
            0 <= px < old(framebuffer).spec_width() && 0 <= py < old(framebuffer).spec_height()
                ==> #[trigger] final(framebuffer)@[pixel_index(old(framebuffer).spec_width() as int, px, py)]
                == if cell != FREE && xo <= px < xo + block_size && yo <= py < yo + block_size {
                symbol_color(cell)
            } else {
                old(framebuffer)@[pixel_index(old(framebuffer).spec_width() as int, px, py)]
            },
{
    if cell == FREE {
        return;
    }
    let color = cell_to_color(cell);
    framebuffer.set_current_color(color);
    framebuffer.fill_rect(xo, yo, block_size, block_size);
}

/// The heading of sample ray `i` of `n` spread over the field of view.
pub open spec fn sample_dir(t: Seq<crate::geometry::Direction>, p: Player, i: int, n: int) -> crate::geometry::Direction {
    t[normal_angle(ray_heading(p.a as int, p.fov as int, i, n))]
}

/// Whether `(px, py)` lies on one of the first `n` sample rays whose hits are
/// `hits`.
pub open spec fn on_some_ray(
    t: Seq<crate::geometry::Direction>,
    p: Player,
    step: int,
    hits: Seq<Intersect>,
    n: int,
    px: int,
    py: int,
) -> bool {
    exists|j: int|
        0 <= j < n && #[trigger] on_ray(p.pos, sample_dir(t, p, j, 5), step, (hits[j].distance as int) / step, px, py)
}

/// Draws the top-down view: every wall cell as a `block_size` square in its
/// symbol's colour, then five rays across the field of view in white smoke.
/// Returns the hits of the five rays.
pub fn render_maze(
    framebuffer: &mut FrameBuffer,
    maze: &Maze,
    block_size: i64,
    player: &Player,
    table: &AngleTable,
    step: i64,
) -> (hits: Vec<Intersect>)
    requires
        old(framebuffer).wf(),
        fits(maze@, block_size as int),
        block_size <= MAX_EXTENT,
        0 < step <= MAX_EXTENT,
        -MAX_COORD <= player.a <= MAX_COORD,
        0 <= player.fov <= FULL_TURN,
    ensures
        final(framebuffer).wf(),
        final(framebuffer).spec_width() == old(framebuffer).spec_width(),
        final(framebuffer).spec_height() == old(framebuffer).spec_height(),
        final(framebuffer).spec_background() == old(framebuffer).spec_background(),
        final(framebuffer).spec_current() == (Rgba { r: 245, g: 245, b: 245, a: 255 }),
        hits@.len() == 5,
        forall|i: int|
            0 <= i < 5 ==> is_march_result(
                maze@,
                block_size as int,
                player.pos,
                sample_dir(table@, *player, i, 5),
                step as int,
                #[trigger] hits@[i],
            ),
        forall|px: int, py: int|
            0 <= px < old(framebuffer).spec_width() && 0 <= py < old(framebuffer).spec_height()
                ==> #[trigger] final(framebuffer)@[pixel_index(old(framebuffer).spec_width() as int, px, py)]
                == if on_some_ray(table@, *player, step as int, hits@, 5, px, py) {
                Rgba { r: 245, g: 245, b: 245, a: 255 }
            } else {
                cell_pixel(
                    maze@,
                    block_size as int,
                    px,
                    py,
                    old(framebuffer)@[pixel_index(old(framebuffer).spec_width() as int, px, py)],
                )
            },
{
    let ghost g = maze@;
    let ghost bw = framebuffer.spec_width() as int;
    let ghost bh = framebuffer.spec_height() as int;
    let ghost start = framebuffer@;
    let ghost b = block_size as int;
    let (rows, cols) = maze.dimensions();
    proof {
        assert(rows * b <= MAX_EXTENT && cols * b <= MAX_EXTENT);
        assert(rows * b >= 0 && cols * b >= 0) by (nonlinear_arith)
            requires b > 0;
    }
    let bs = block_size as usize;
    let mut r: usize = 0;
    while r < rows
        invariant
            framebuffer.wf(),
            framebuffer.spec_width() == bw,
            framebuffer.spec_height() == bh,
            framebuffer.spec_background() == old(framebuffer).spec_background(),
            start == old(framebuffer)@,
            bw == old(framebuffer).spec_width(),
            bh == old(framebuffer).spec_height(),
            g == maze@,
            b == block_size,
            bs == b,
            fits(g, b),
            rows == rows_of(g),
            cols == cols_of(g),
            rows * b <= MAX_EXTENT,
            cols * b <= MAX_EXTENT,
            0 <= r <= rows,
            forall|px: int, py: int|
                0 <= px < bw && 0 <= py < bh ==> #[trigger] framebuffer@[pixel_index(bw, px, py)] == if py / b < r {
                    cell_pixel(g, b, px, py, start[pixel_index(bw, px, py)])
                } else {
                    start[pixel_index(bw, px, py)]
                },
        decreases rows - r,
    {
        let mut c: usize = 0;
        while c < cols
            invariant
                framebuffer.wf(),
                framebuffer.spec_width() == bw,
                framebuffer.spec_height() == bh,
                framebuffer.spec_background() == old(framebuffer).spec_background(),
                start == old(framebuffer)@,
                g == maze@,
                b == block_size,
                bs == b,
                fits(g, b),
                rows == rows_of(g),
                cols == cols_of(g),
                rows * b <= MAX_EXTENT,
                cols * b <= MAX_EXTENT,
                0 <= r < rows,
                0 <= c <= cols,
                forall|px: int, py: int|
                    0 <= px < bw && 0 <= py < bh ==> #[trigger] framebuffer@[pixel_index(bw, px, py)] == if py / b < r
                        || (py / b == r && px / b < c) {
                        cell_pixel(g, b, px, py, start[pixel_index(bw, px, py)])
                    } else {
                        start[pixel_index(bw, px, py)]
                    },
            decreases cols - c,
        {
            proof {
                assert(c * b + b <= cols * b && r * b + b <= rows * b) by (nonlinear_arith)
                    requires c < cols, r < rows, b > 0;
                assert(c * b >= 0 && r * b >= 0) by (nonlinear_arith)
                    requires c >= 0, r >= 0, b > 0;
            }
            let cell = match maze.cell_at(r, c) {
                Ok(ch) => ch,
                Err(_) => FREE,
            };
            let ghost before = framebuffer@;
            draw_cell(framebuffer, c * bs, r * bs, bs, cell);
            proof {
                assert forall|px: int, py: int| 0 <= px < bw && 0 <= py < bh implies #[trigger] framebuffer@[pixel_index(bw, px, py)]
                    == if py / b < r || (py / b == r && px / b < c + 1) {
                    cell_pixel(g, b, px, py, start[pixel_index(bw, px, py)])
                } else {
                    start[pixel_index(bw, px, py)]
                } by {
                    lemma_span(px, b, c as int);
                    lemma_span(py, b, r as int);
                    if px / b == c && py / b == r {
                        assert(symbol_at(g, b, px, py) == Some(cell));
                    }
                }
            }
            c += 1;
        }
        proof {
            assert forall|px: int, py: int| 0 <= px < bw && 0 <= py < bh implies #[trigger] framebuffer@[pixel_index(bw, px, py)]
                == if py / b < r + 1 {
                cell_pixel(g, b, px, py, start[pixel_index(bw, px, py)])
            } else {
                start[pixel_index(bw, px, py)]
            } by {
                if py / b == r && px / b >= cols {
                    assert(symbol_at(g, b, px, py) is None);
                }
            }
        }
        r += 1;
    }
    proof {
        assert forall|px: int, py: int| 0 <= px < bw && 0 <= py < bh implies #[trigger] framebuffer@[pixel_index(bw, px, py)]
            == cell_pixel(g, b, px, py, start[pixel_index(bw, px, py)]) by {
            if py / b >= rows {
                assert(symbol_at(g, b, px, py) is None);
            }
        }
    }
    framebuffer.set_current_color(Rgba::whitesmoke());
    let ghost drawn = framebuffer@;
    let mut hits: Vec<Intersect> = Vec::new();
    let mut i: i64 = 0;
    while i < 5
        invariant
            framebuffer.wf(),
            framebuffer.spec_width() == bw,
            framebuffer.spec_height() == bh,
            framebuffer.spec_background() == old(framebuffer).spec_background(),
            framebuffer.spec_current() == (Rgba { r: 245, g: 245, b: 245, a: 255 }),
            start == old(framebuffer)@,
            g == maze@,
            b == block_size,
            fits(g, b),
            0 < step <= MAX_EXTENT,
            -MAX_COORD <= player.a <= MAX_COORD,
            0 <= player.fov <= FULL_TURN,
            0 <= i <= 5,
            hits@.len() == i,
            forall|j: int|
                0 <= j < i ==> is_march_result(g, b, player.pos, sample_dir(table@, *player, j, 5), step as int, #[trigger] hits@[j]),
            forall|px: int, py: int|
                0 <= px < bw && 0 <= py < bh ==> #[trigger] framebuffer@[pixel_index(bw, px, py)] == if on_some_ray(
                    table@,
                    *player,
                    step as int,
                    hits@,
                    i as int,
                    px,
                    py,
                ) {
                    Rgba { r: 245, g: 245, b: 245, a: 255 }
                } else {
                    cell_pixel(g, b, px, py, start[pixel_index(bw, px, py)])
                },
        decreases 5 - i,
    {
        assert(-(FULL_TURN * 5) <= player.fov * (2 * i - 5) <= FULL_TURN * 5) by (nonlinear_arith)
            requires 0 <= player.fov <= FULL_TURN, 0 <= i < 5;
        let offset = crate::geometry::floor_div(player.fov * (2 * i - 5), 10);
        let dir = table.direction(player.a + offset);
        let ghost before = framebuffer@;
        let ghost old_hits = hits@;
        let hit = cast_ray(framebuffer, maze, player.pos, dir, block_size, step, true);
        hits.push(hit);
        proof {
            assert(hits@[i as int] == hit);
            assert forall|px: int, py: int| 0 <= px < bw && 0 <= py < bh implies #[trigger] framebuffer@[pixel_index(bw, px, py)]
                == if on_some_ray(table@, *player, step as int, hits@, i + 1, px, py) {
                Rgba { r: 245, g: 245, b: 245, a: 255 }
            } else {
                cell_pixel(g, b, px, py, start[pixel_index(bw, px, py)])
            } by {
                let now = on_ray(player.pos, sample_dir(table@, *player, i as int, 5), step as int, hits@[i as int].distance as int / (step as int), px, py);
                if on_some_ray(table@, *player, step as int, old_hits, i as int, px, py) {
                    let j = choose|j: int| 0 <= j < i && #[trigger] on_ray(player.pos, sample_dir(table@, *player, j, 5), step as int, old_hits[j].distance as int / (step as int), px, py);
                    assert(hits@[j] == old_hits[j]);
                    assert(on_ray(player.pos, sample_dir(table@, *player, j, 5), step as int, hits@[j].distance as int / (step as int), px, py));
                }
                if on_some_ray(table@, *player, step as int, hits@, i + 1, px, py) {
                    let j = choose|j: int| 0 <= j < i + 1 && #[trigger] on_ray(player.pos, sample_dir(table@, *player, j, 5), step as int, hits@[j].distance as int / (step as int), px, py);
                    if j < i {
                        assert(hits@[j] == old_hits[j]);
                        assert(on_ray(player.pos, sample_dir(table@, *player, j, 5), step as int, old_hits[j].distance as int / (step as int), px, py));
                    }
                }
                if now {
                    assert(on_ray(player.pos, sample_dir(table@, *player, i as int, 5), step as int, hits@[i as int].distance as int / (step as int), px, py));
                }
            }
        }
        i += 1;
    }
    hits
}

} // verus!
