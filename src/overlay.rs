//! Overlays drawn over a view: the frame-rate badge.

use vstd::prelude::*;
use crate::caster::{on_ray, plot_ray};
use crate::color::{cell_to_color, symbol_color, Rgba};
use crate::font::{draw_digit, glyph_lit};
use crate::framebuffer::{pixel_index, FrameBuffer};
use crate::geometry::{AngleTable, Direction, Point, MAX_EXTENT};
use crate::maze::{cols_of, in_grid, rows_of, Maze, FREE};
use crate::player::Player;
use crate::projection::MAX_SCREEN;

verus! {

/// The decimal digit for `d < 10`.
pub open spec fn digit_char(d: int) -> char {
    if d == 0 { '0' } else if d == 1 { '1' } else if d == 2 { '2' } else if d == 3 { '3' } else if d == 4 {
        '4'
    } else if d == 5 { '5' } else if d == 6 { '6' } else if d == 7 { '7' } else if d == 8 { '8' } else { '9' }
}

/// The decimal digits of `n`, most significant first, without leading zeros.
pub open spec fn decimal(n: nat) -> Seq<char>
    decreases n,
{
    if n < 10 {
        seq![digit_char(n as int)]
    } else {
        decimal(n / 10).push(digit_char((n % 10) as int))
    }
}

/// A `u32` has at most ten decimal digits, and at least one.
proof fn lemma_decimal_len(n: u32)
    ensures
        1 <= decimal(n as nat).len() <= 10,
{
    reveal_with_fuel(pow10, 11);
    assert(pow10(10) == 10_000_000_000nat);
    lemma_decimal_len_below(n as nat, 10);
}

proof fn lemma_decimal_len_below(n: nat, k: nat)
    requires
        n < pow10(k),
    ensures
        decimal(n).len() <= if k == 0 { 1 } else { k },
    decreases n,
{
    if n >= 10 {
        assert(k >= 2) by {
            if k == 0 { assert(pow10(0) == 1); }
            if k == 1 { assert(pow10(1) == 10) by { assert(pow10(0) == 1); } }
        }
        assert(n / 10 < pow10((k - 1) as nat)) by {
            assert(pow10(k) == 10 * pow10((k - 1) as nat));
        }
        lemma_decimal_len_below(n / 10, (k - 1) as nat);
    }
}

pub open spec fn pow10(k: nat) -> nat
    decreases k,
{
    if k == 0 { 1 } else { 10 * pow10((k - 1) as nat) }
}

fn digit_of(d: u32) -> (c: char)
    requires
        d < 10,
    ensures
        c == digit_char(d as int),
{
    match d {
        0 => '0',
        1 => '1',
        2 => '2',
        3 => '3',
        4 => '4',
        5 => '5',
        6 => '6',
        7 => '7',
        8 => '8',
        _ => '9',
    }
}

/// The decimal digits of `n`.
pub fn decimal_digits(n: u32) -> (r: Vec<char>)
    ensures
        r@ == decimal(n as nat),
    decreases n,
{
    if n < 10 {
        let mut v: Vec<char> = Vec::new();
        v.push(digit_of(n));
        proof { assert(v@ =~= seq![digit_char(n as int)]); }
        v
    } else {
        let mut v = decimal_digits(n / 10);
        v.push(digit_of(n % 10));
        v
    }
}

/// Width of the frame-rate bar: `fps / 60` of 100 pixels, at most 100.
pub open spec fn bar_width(fps: int) -> int {
    let w = fps * 100 / 60;
    if w > 100 { 100 } else { w }
}

/// Green above 30 frames per second, yellow above 20, red otherwise.
pub open spec fn bar_color(fps: int) -> Rgba {
    if fps > 30 {
        Rgba { r: 0, g: 128, b: 0, a: 255 }
    } else if fps > 20 {
        Rgba { r: 255, g: 255, b: 0, a: 255 }
    } else {
        Rgba { r: 255, g: 0, b: 0, a: 255 }
    }
}

/// Width of the badge for `n` digits: room for the digits, at least 110.
pub open spec fn badge_width(n: int) -> int {
    if 110 > n * 8 + 8 { 110 } else { n * 8 + 8 }
}

pub open spec fn in_rect(px: int, py: int, x0: int, y0: int, w: int, h: int) -> bool {
    x0 <= px < x0 + w && y0 <= py < y0 + h
}

/// Whether `(px, py)` is a lit pixel of one of the first `n` digits, drawn
/// eight pixels apart from `(15, 25)`.
pub open spec fn digit_pixel(digits: Seq<char>, n: int, px: int, py: int) -> bool {
    let i = (px - 15) / 8;
    px >= 15 && i < n && glyph_lit(digits[i], px - 15 - 8 * i, py - 25)
}

/// The one-pixel frame of a badge `w` pixels wide at `(10, 10)`.
pub open spec fn on_frame(px: int, py: int, w: int) -> bool {
    ||| in_rect(px, py, 10, 10, w, 1)
    ||| in_rect(px, py, 10, 44, w, 1)
    ||| in_rect(px, py, 10, 10, 1, 35)
    ||| in_rect(px, py, 10 + w - 1, 10, 1, 35)
}

/// Pixel `(px, py)` after the badge for `fps` is drawn over `under`: white
/// frame, then the digits and the bar in the bar colour, then the dark
/// translucent background.
pub open spec fn badge_pixel(fps: nat, px: int, py: int, under: Rgba) -> Rgba {
    let d = decimal(fps);
    let w = badge_width(d.len() as int);
    if on_frame(px, py, w) {
        Rgba { r: 255, g: 255, b: 255, a: 255 }
    } else if digit_pixel(d, d.len() as int, px, py) {
        bar_color(fps as int)
    } else if in_rect(px, py, 15, 15, bar_width(fps as int), 5) {
        bar_color(fps as int)
    } else if in_rect(px, py, 10, 10, w, 35) {
        Rgba { r: 0, g: 0, b: 0, a: 200 }
    } else {
        under
    }
}

/// Draws the frame-rate badge in the top left corner: a dark background, a
/// bar and the number in green, yellow or red by rate, and a white frame.
/// The current colour ends white.
pub fn render_fps(framebuffer: &mut FrameBuffer, fps: u32)
    requires
        old(framebuffer).wf(),
    ensures
        final(framebuffer).wf(),
        final(framebuffer).spec_width() == old(framebuffer).spec_width(),
        final(framebuffer).spec_height() == old(framebuffer).spec_height(),
        final(framebuffer).spec_background() == old(framebuffer).spec_background(),
        final(framebuffer).spec_current() == (Rgba { r: 255, g: 255, b: 255, a: 255 }),
        forall|px: int, py: int|
            0 <= px < old(framebuffer).spec_width() && 0 <= py < old(framebuffer).spec_height()
                ==> #[trigger] final(framebuffer)@[pixel_index(old(framebuffer).spec_width() as int, px, py)]
                == badge_pixel(fps as nat, px, py, old(framebuffer)@[pixel_index(old(framebuffer).spec_width() as int, px, py)]),
{
    let ghost bw = framebuffer.spec_width() as int;
    let ghost bh = framebuffer.spec_height() as int;
    let ghost s0 = framebuffer@;
    let digits = decimal_digits(fps);
    proof { lemma_decimal_len(fps); }
    let n = digits.len();
    let text_width = n * 8;
    let total_width: usize = if 110 > text_width + 8 { 110 } else { text_width + 8 };
    let wide = (fps as u64) * 100 / 60;
    let bar: usize = if wide > 100 { 100 } else { wide as usize };
    framebuffer.set_current_color(Rgba::new(0, 0, 0, 200));
    framebuffer.fill_rect(10, 10, total_width, 35);
    let ghost s1 = framebuffer@;
    let color = if fps > 30 {
        Rgba::green()
    } else if fps > 20 {
        Rgba::yellow()
    } else {
        Rgba::red()
    };
    framebuffer.set_current_color(color);
    framebuffer.fill_rect(15, 15, bar, 5);
    let ghost s2 = framebuffer@;
    let mut k: usize = 0;
    while k < n
        invariant
            framebuffer.wf(),
            framebuffer.spec_width() == bw,
            framebuffer.spec_height() == bh,
            framebuffer.spec_background() == old(framebuffer).spec_background(),
            framebuffer.spec_current() == color,
            bw == old(framebuffer).spec_width(),
            bh == old(framebuffer).spec_height(),
            digits@ == decimal(fps as nat),
            n == digits@.len(),
            1 <= n <= 10,
            0 <= k <= n,
            forall|px: int, py: int|
                0 <= px < bw && 0 <= py < bh ==> #[trigger] framebuffer@[pixel_index(bw, px, py)] == if digit_pixel(
                    digits@,
                    k as int,
                    px,
                    py,
                ) {
                    color
                } else {
                    s2[pixel_index(bw, px, py)]
                },
        decreases n - k,
    {
        let ghost before = framebuffer@;
        draw_digit(framebuffer, 15 + k * 8, 25, digits[k]);
        proof {
            assert forall|px: int, py: int| 0 <= px < bw && 0 <= py < bh implies #[trigger] framebuffer@[pixel_index(bw, px, py)]
                == if digit_pixel(digits@, k + 1, px, py) {
                color
            } else {
                s2[pixel_index(bw, px, py)]
            } by {
                let q = (px - 15) / 8;
                if px >= 15 {
                    assert(q * 8 <= px - 15 < q * 8 + 8);
                }
                if glyph_lit(digits@[k as int], px - (15 + k * 8), py - 25) {
                    assert(px >= 15 && q == k);
                }
            }
        }
        k += 1;
    }
    let ghost s3 = framebuffer@;
    framebuffer.set_current_color(Rgba::white());
    framebuffer.fill_rect(10, 10, total_width, 1);
    framebuffer.fill_rect(10, 44, total_width, 1);
    framebuffer.fill_rect(10, 10, 1, 35);
    framebuffer.fill_rect(10 + total_width - 1, 10, 1, 35);
    proof {
        assert(bar == bar_width(fps as int));
        assert(color == bar_color(fps as int));
        assert(total_width == badge_width(n as int));
    }
}

/// Side of a minimap cell, in pixels; one pixel of it separates cells.
pub const MINI_BLOCK: usize = 12;

/// The symbol shown at pixel `(px, py)` of a minimap whose first cell starts
/// at `(ox, oy)`, if that pixel lies on a wall or goal cell and off the gap
/// between cells.
pub open spec fn mini_cell(g: Seq<Seq<char>>, ox: int, oy: int, px: int, py: int) -> Option<char> {
    let c = (px - ox) / 12;
    let r = (py - oy) / 12;
    if px >= ox && py >= oy && (px - ox) % 12 < 11 && (py - oy) % 12 < 11 && in_grid(g, r, c) && g[r][c] != FREE {
        Some(g[r][c])
    } else {
        None
    }
}

/// Where the minimap of `g` sits on a buffer `width` pixels wide: its left
/// edge, 20 pixels from the right edge of the buffer and 20 from the top.
pub open spec fn minimap_left(g: Seq<Seq<char>>, width: int) -> int {
    width - (cols_of(g) * 12 + 20) - 20
}

/// Pixel `(px, py)` after the minimap is drawn over `under`: the heading line
/// in red, the player's square in yellow, the cells in their colours, a white
/// frame and a dark translucent background.
pub open spec fn minimap_pixel(
    g: Seq<Seq<char>>,
    width: int,
    player_cell: (int, int),
    heading: Direction,
    px: int,
    py: int,
    under: Rgba,
) -> Rgba {
    let mx = minimap_left(g, width);
    let mw = cols_of(g) * 12 + 20;
    let mh = rows_of(g) * 12 + 20;
    let pmx = mx + 10 + player_cell.0 * 12 + 6;
    let pmy = 20 + 10 + player_cell.1 * 12 + 6;
    if on_ray(Point { x: pmx as i64, y: pmy as i64 }, heading, 1, 21, px, py) {
        Rgba { r: 255, g: 0, b: 0, a: 255 }
    } else if in_rect(px, py, pmx - 3, pmy - 3, 7, 7) {
        Rgba { r: 255, g: 255, b: 0, a: 255 }
    } else if mini_cell(g, mx + 10, 30, px, py) is Some {
        symbol_color(mini_cell(g, mx + 10, 30, px, py)->0)
    } else if in_rect(px, py, mx, 20, mw, 1) || in_rect(px, py, mx, 20 + mh - 1, mw, 1) || in_rect(px, py, mx, 20, 1, mh)
        || in_rect(px, py, mx + mw - 1, 20, 1, mh) {
        Rgba { r: 255, g: 255, b: 255, a: 255 }
    } else if in_rect(px, py, mx, 20, mw, mh) {
        Rgba { r: 0, g: 0, b: 0, a: 200 }
    } else {
        under
    }
}

/// Draws the minimap in the top right corner: the maze at 12 pixels a cell,
/// the player's cell marked by a yellow square and the heading by a red line
/// 20 pixels long. The current colour ends red.
pub fn render_minimap(framebuffer: &mut FrameBuffer, maze: &Maze, player: &Player, table: &AngleTable, block_size: i64)
    requires
        old(framebuffer).wf(),
        old(framebuffer).spec_width() <= MAX_SCREEN,
        old(framebuffer).spec_width() >= cols_of(maze@) * 12 + 40,
        rows_of(maze@) * 12 <= MAX_SCREEN,
        0 < block_size,
        0 <= player.pos.x <= MAX_EXTENT,
        0 <= player.pos.y <= MAX_EXTENT,
    ensures
        final(framebuffer).wf(),
        final(framebuffer).spec_width() == old(framebuffer).spec_width(),
        final(framebuffer).spec_height() == old(framebuffer).spec_height(),
        final(framebuffer).spec_background() == old(framebuffer).spec_background(),
        final(framebuffer).spec_current() == (Rgba { r: 255, g: 0, b: 0, a: 255 }),
        forall|px: int, py: int|
            0 <= px < old(framebuffer).spec_width() && 0 <= py < old(framebuffer).spec_height()
                ==> #[trigger] final(framebuffer)@[pixel_index(old(framebuffer).spec_width() as int, px, py)]
                == minimap_pixel(
                maze@,
                old(framebuffer).spec_width() as int,
                (player.pos.x / block_size, player.pos.y / block_size),
                table@[crate::geometry::normal_angle(player.a as int)],
                px,
                py,
                old(framebuffer)@[pixel_index(old(framebuffer).spec_width() as int, px, py)],
            ),
{
    let ghost g = maze@;
    let ghost bw = framebuffer.spec_width() as int;
    let ghost bh = framebuffer.spec_height() as int;
    let ghost s0 = framebuffer@;
    let (rows, cols) = maze.dimensions();
    let mw = cols * MINI_BLOCK + 20;
    let mh = rows * MINI_BLOCK + 20;
    let mx = framebuffer.width() - mw - 20;
    let my: usize = 20;
    framebuffer.set_current_color(Rgba::new(0, 0, 0, 200));
    framebuffer.fill_rect(mx, my, mw, mh);
    framebuffer.set_current_color(Rgba::white());
    framebuffer.fill_rect(mx, my, mw, 1);
    framebuffer.fill_rect(mx, my + mh - 1, mw, 1);
    framebuffer.fill_rect(mx, my, 1, mh);
    framebuffer.fill_rect(mx + mw - 1, my, 1, mh);
    let ghost s2 = framebuffer@;
    let ox = mx + 10;
    let oy = my + 10;
    let mut r: usize = 0;
    while r < rows
        invariant
            framebuffer.wf(),
            framebuffer.spec_width() == bw,
            framebuffer.spec_height() == bh,
            framebuffer.spec_background() == old(framebuffer).spec_background(),
            bw == old(framebuffer).spec_width(),
            bh == old(framebuffer).spec_height(),
            g == maze@,
            rows == rows_of(g),
            cols == cols_of(g),
            rows * 12 <= MAX_SCREEN,
            bw <= MAX_SCREEN,
            ox + cols * 12 <= bw,
            oy == 30,
            0 <= r <= rows,
            forall|px: int, py: int|
                0 <= px < bw && 0 <= py < bh ==> #[trigger] framebuffer@[pixel_index(bw, px, py)] == if (py - oy) / 12 < r
                    && mini_cell(g, ox as int, oy as int, px, py) is Some {
                    symbol_color(mini_cell(g, ox as int, oy as int, px, py)->0)
                } else {
                    s2[pixel_index(bw, px, py)]
                },
        decreases rows - r,
    {
        let mut c: usize = 0;
        while c < cols
            invariant
                framebuffer.wf(),
                framebuffer.spec_width() == bw,
                framebuffer.spec_height() == bh,
                framebuffer.spec_background() == old(framebuffer).spec_background(),
                g == maze@,
                rows == rows_of(g),
                cols == cols_of(g),
                rows * 12 <= MAX_SCREEN,
                bw <= MAX_SCREEN,
                ox + cols * 12 <= bw,
                oy == 30,
                0 <= r < rows,
                0 <= c <= cols,
                forall|px: int, py: int|
                    0 <= px < bw && 0 <= py < bh ==> #[trigger] framebuffer@[pixel_index(bw, px, py)] == if ((py - oy) / 12
                        < r || ((py - oy) / 12 == r && (px - ox) / 12 < c)) && mini_cell(g, ox as int, oy as int, px, py) is Some {
                        symbol_color(mini_cell(g, ox as int, oy as int, px, py)->0)
                    } else {
                        s2[pixel_index(bw, px, py)]
                    },
            decreases cols - c,
        {
            let cell = match maze.cell_at(r, c) {
                Ok(ch) => ch,
                Err(_) => FREE,
            };
            let x0 = ox + c * MINI_BLOCK;
            let y0 = oy + r * MINI_BLOCK;
            if cell != FREE {
                framebuffer.set_current_color(cell_to_color(cell));
                framebuffer.fill_rect(x0, y0, MINI_BLOCK - 1, MINI_BLOCK - 1);
            }
            proof {
                assert forall|px: int, py: int| 0 <= px < bw && 0 <= py < bh implies #[trigger] framebuffer@[pixel_index(bw, px, py)]
                    == if ((py - oy) / 12 < r || ((py - oy) / 12 == r && (px - ox) / 12 < c + 1)) && mini_cell(g, ox as int, oy as int, px, py) is Some {
                    symbol_color(mini_cell(g, ox as int, oy as int, px, py)->0)
                } else {
                    s2[pixel_index(bw, px, py)]
                } by {
                    let qx = (px - ox) / 12;
                    let qy = (py - oy) / 12;
                    if px >= ox {
                        assert(qx * 12 <= px - ox < qx * 12 + 12 && (px - ox) % 12 == px - ox - qx * 12);
                    }
                    if py >= oy {
                        assert(qy * 12 <= py - oy < qy * 12 + 12 && (py - oy) % 12 == py - oy - qy * 12);
                    }
                    if in_rect(px, py, x0 as int, y0 as int, 11, 11) {
                        assert(qx == c && qy == r);
                    }
                }
            }
            c += 1;
        }
        r += 1;
    }
    let ghost s3 = framebuffer@;
    let gx = (player.pos.x / block_size) as usize;
    let gy = (player.pos.y / block_size) as usize;
    let pmx = ox + gx * MINI_BLOCK + MINI_BLOCK / 2;
    let pmy = oy + gy * MINI_BLOCK + MINI_BLOCK / 2;
    framebuffer.set_current_color(Rgba::yellow());
    framebuffer.fill_rect(pmx - 3, pmy - 3, 7, 7);
    framebuffer.set_current_color(Rgba::red());
    let heading = table.direction(player.a);
    plot_ray(framebuffer, Point { x: pmx as i64, y: pmy as i64 }, heading, 1, 21);
    proof {
        assert forall|px: int, py: int| 0 <= px < bw && 0 <= py < bh implies #[trigger] framebuffer@[pixel_index(bw, px, py)]
            == minimap_pixel(g, bw, (player.pos.x / block_size, player.pos.y / block_size), heading, px, py, s0[pixel_index(bw, px, py)]) by {
            if mini_cell(g, ox as int, oy as int, px, py) is Some {
                let qy = (py - oy) / 12;
                assert(qy < rows);
            }
        }
    }
}

} // verus!
