//! A 7 by 9 pixel font for the decimal digits.

use vstd::prelude::*;
use crate::framebuffer::{lemma_index_distinct, lemma_index_in_buffer, pixel_index, FrameBuffer};

verus! {

/// Width of a glyph, in pixels.
pub const GLYPH_WIDTH: usize = 7;

/// Height of a glyph, in pixels.
pub const GLYPH_HEIGHT: usize = 9;

/// The rows of the glyph for `d`, top first, each a bit mask whose bit 6 is
/// the leftmost pixel. A character that is not a digit has a blank glyph.
pub open spec fn glyph_rows(d: char) -> Seq<int> {
    if d == '0' {
        seq![28, 34, 34, 34, 34, 34, 34, 34, 28]
    } else if d == '1' {
        seq![8, 24, 8, 8, 8, 8, 8, 8, 62]
    } else if d == '2' {
        seq![60, 66, 2, 4, 8, 16, 32, 64, 126]
    } else if d == '3' {
        seq![60, 66, 2, 28, 2, 2, 66, 66, 60]
    } else if d == '4' {
        seq![12, 20, 36, 68, 126, 4, 4, 4, 4]
    } else if d == '5' {
        seq![126, 64, 64, 124, 2, 2, 66, 66, 60]
    } else if d == '6' {
        seq![28, 34, 32, 60, 34, 34, 34, 34, 28]
    } else if d == '7' {
        seq![126, 2, 4, 8, 16, 32, 64, 64, 64]
    } else if d == '8' {
        seq![60, 66, 66, 60, 66, 66, 66, 66, 60]
    } else if d == '9' {
        seq![60, 66, 66, 66, 62, 2, 2, 66, 60]
    } else {
        seq![0, 0, 0, 0, 0, 0, 0, 0, 0]
    }
}

/// The weight of column `col` in a row mask.
pub open spec fn column_weight(col: int) -> int {
    if col == 0 { 64 } else if col == 1 { 32 } else if col == 2 { 16 } else if col == 3 { 8 } else if col == 4 {
        4
    } else if col == 5 { 2 } else { 1 }
}

/// Whether pixel `(col, row)` of the glyph for `d` is drawn.
pub open spec fn glyph_lit(d: char, col: int, row: int) -> bool {
    &&& 0 <= row < GLYPH_HEIGHT
    &&& 0 <= col < GLYPH_WIDTH
    &&& (glyph_rows(d)[row] / column_weight(col)) % 2 == 1
}

fn glyph(d: char) -> (r: [u8; 9])
    ensures
        forall|i: int| 0 <= i < 9 ==> r@[i] == #[trigger] glyph_rows(d)[i],
{
    let r: [u8; 9] = match d {
        '0' => [28, 34, 34, 34, 34, 34, 34, 34, 28],
        '1' => [8, 24, 8, 8, 8, 8, 8, 8, 62],
        '2' => [60, 66, 2, 4, 8, 16, 32, 64, 126],
        '3' => [60, 66, 2, 28, 2, 2, 66, 66, 60],
        '4' => [12, 20, 36, 68, 126, 4, 4, 4, 4],
        '5' => [126, 64, 64, 124, 2, 2, 66, 66, 60],
        '6' => [28, 34, 32, 60, 34, 34, 34, 34, 28],
        '7' => [126, 2, 4, 8, 16, 32, 64, 64, 64],
        '8' => [60, 66, 66, 60, 66, 66, 66, 66, 60],
        '9' => [60, 66, 66, 66, 62, 2, 2, 66, 60],
        _ => [0, 0, 0, 0, 0, 0, 0, 0, 0],
    };
    proof {
        assert(r@ =~= glyph_rows(d).map_values(|v: int| v as u8));
    }
    r
}

fn weight(col: usize) -> (w: u8)
    requires
        col < GLYPH_WIDTH,
    ensures
        w == column_weight(col as int),
{
    match col {
        0 => 64,
        1 => 32,
        2 => 16,
        3 => 8,
        4 => 4,
        5 => 2,
        _ => 1,
    }
}

/// Draws the glyph of `digit` with its top left corner at `(x, y)` in the
/// current colour; pixels off the glyph, or outside the buffer, keep theirs.
pub fn draw_digit(framebuffer: &mut FrameBuffer, x: usize, y: usize, digit: char)
    requires
        old(framebuffer).wf(),
        x + GLYPH_WIDTH <= usize::MAX,
        y + GLYPH_HEIGHT <= usize::MAX,
    ensures
        final(framebuffer).wf(),
        final(framebuffer).spec_width() == old(framebuffer).spec_width(),
        final(framebuffer).spec_height() == old(framebuffer).spec_height(),
        final(framebuffer).spec_background() == old(framebuffer).spec_background(),
        final(framebuffer).spec_current() == old(framebuffer).spec_current(),
        forall|px: int, py: int|
            0 <= px < old(framebuffer).spec_width() && 0 <= py < old(framebuffer).spec_height()
                ==> #[trigger] final(framebuffer)@[pixel_index(old(framebuffer).spec_width() as int, px, py)]
                == if glyph_lit(digit, px - x, py - y) {
                old(framebuffer).spec_current()
            } else {
                old(framebuffer)@[pixel_index(old(framebuffer).spec_width() as int, px, py)]
            },
{
    let ghost bw = framebuffer.spec_width() as int;
    let ghost bh = framebuffer.spec_height() as int;
    let ghost start = framebuffer@;
    let ghost cur = framebuffer.spec_current();
    let rows = glyph(digit);
    let mut row: usize = 0;
    while row < GLYPH_HEIGHT
        invariant
            framebuffer.wf(),
            framebuffer.spec_width() == bw,
            framebuffer.spec_height() == bh,
            framebuffer.spec_background() == old(framebuffer).spec_background(),
            framebuffer.spec_current() == cur,
            cur == old(framebuffer).spec_current(),
            start == old(framebuffer)@,
            bw == old(framebuffer).spec_width(),
            bh == old(framebuffer).spec_height(),
            x + GLYPH_WIDTH <= usize::MAX,
            y + GLYPH_HEIGHT <= usize::MAX,
            forall|i: int| 0 <= i < 9 ==> rows@[i] == #[trigger] glyph_rows(digit)[i],
            0 <= row <= GLYPH_HEIGHT,
            forall|px: int, py: int|
                0 <= px < bw && 0 <= py < bh ==> #[trigger] framebuffer@[pixel_index(bw, px, py)] == if py - y
                    < row && glyph_lit(digit, px - x, py - y) {
                    cur
                } else {
                    start[pixel_index(bw, px, py)]
                },
        decreases GLYPH_HEIGHT - row,
    {
        let mut col: usize = 0;
        while col < GLYPH_WIDTH
            invariant
                framebuffer.wf(),
                framebuffer.spec_width() == bw,
                framebuffer.spec_height() == bh,
                framebuffer.spec_background() == old(framebuffer).spec_background(),
                framebuffer.spec_current() == cur,
                start == old(framebuffer)@,
                x + GLYPH_WIDTH <= usize::MAX,
                y + GLYPH_HEIGHT <= usize::MAX,
                forall|i: int| 0 <= i < 9 ==> rows@[i] == #[trigger] glyph_rows(digit)[i],
                0 <= row < GLYPH_HEIGHT,
                0 <= col <= GLYPH_WIDTH,
                forall|px: int, py: int|
                    0 <= px < bw && 0 <= py < bh ==> #[trigger] framebuffer@[pixel_index(bw, px, py)] == if (py - y
                        < row || (py - y == row && px - x < col)) && glyph_lit(digit, px - x, py - y) {
                        cur
                    } else {
                        start[pixel_index(bw, px, py)]
                    },
            decreases GLYPH_WIDTH - col,
        {
            let w = weight(col);
            let lit = (rows[row] / w) % 2 == 1;
            assert(rows@[row as int] == glyph_rows(digit)[row as int]);
            assert(lit == glyph_lit(digit, col as int, row as int));
            proof { framebuffer.lemma_len(); }
            let ghost before = framebuffer@;
            if lit {
                framebuffer.set_pixel(x + col, y + row);
            }
            proof {
                let (cx, cy) = ((x + col) as int, (y + row) as int);
                assert forall|px: int, py: int| 0 <= px < bw && 0 <= py < bh implies #[trigger] framebuffer@[pixel_index(bw, px, py)]
                    == if (py - y < row || (py - y == row && px - x < col + 1)) && glyph_lit(digit, px - x, py - y) {
                    cur
                } else {
                    start[pixel_index(bw, px, py)]
                } by {
                    lemma_index_in_buffer(bw, bh, px, py);
                    if lit && cx < bw && cy < bh {
                        lemma_index_in_buffer(bw, bh, cx, cy);
                        lemma_index_distinct(bw, px, py, cx, cy);
                        if px != cx || py != cy {
                            assert(before.update(pixel_index(bw, cx, cy), cur)[pixel_index(bw, px, py)]
                                == before[pixel_index(bw, px, py)]);
                        }
                    }
                }
            }
            col += 1;
        }
        row += 1;
    }
}

} // verus!
