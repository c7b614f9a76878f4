//! An in-memory framebuffer of RGBA pixels, row by row.

use vstd::prelude::*;
use crate::color::Rgba;

verus! {

/// Pixel `(x, y)`'s place in a row-major buffer `width` pixels wide.
pub open spec fn pixel_index(width: int, x: int, y: int) -> int {
    y * width + x
}

/// An index of an in-buffer pixel lies in the buffer.
pub proof fn lemma_index_in_buffer(w: int, h: int, x: int, y: int)
    requires
        0 <= x < w,
        0 <= y < h,
    ensures
        0 <= pixel_index(w, x, y) < w * h,
{
    assert(0 <= y * w + x < w * h) by (nonlinear_arith)
        requires 0 <= x < w, 0 <= y < h;
}

/// Distinct pixels of one row width have distinct indices.
pub proof fn lemma_index_distinct(w: int, x1: int, y1: int, x2: int, y2: int)
    requires
        0 <= x1 < w,
        0 <= x2 < w,
    ensures
        (pixel_index(w, x1, y1) == pixel_index(w, x2, y2)) <==> (x1 == x2 && y1 == y2),
{
    if y1 < y2 {
        assert(y1 * w + x1 < y2 * w + x2) by (nonlinear_arith)
            requires 0 <= x1 < w, 0 <= x2, y1 < y2;
    } else if y2 < y1 {
        assert(y2 * w + x2 < y1 * w + x1) by (nonlinear_arith)
            requires 0 <= x2 < w, 0 <= x1, y2 < y1;
    }
}

/// A `width` by `height` grid of pixels, with a background colour that
/// `clear` fills in and a current colour that `set_pixel` draws with.
pub struct FrameBuffer {
    width: usize,
    height: usize,
    pixels: Vec<Rgba>,
    background_color: Rgba,
    current_color: Rgba,
}

impl View for FrameBuffer {
    type V = Seq<Rgba>;

    closed spec fn view(&self) -> Seq<Rgba> {
        self.pixels@
    }
}

impl FrameBuffer {
    /// The pixel count matches the dimensions.
    pub closed spec fn wf(&self) -> bool {
        self.pixels@.len() == self.width * self.height
    }

    pub closed spec fn spec_width(&self) -> nat {
        self.width as nat
    }

    pub closed spec fn spec_height(&self) -> nat {
        self.height as nat
    }

    pub closed spec fn spec_background(&self) -> Rgba {
        self.background_color
    }

    pub closed spec fn spec_current(&self) -> Rgba {
        self.current_color
    }

    pub proof fn lemma_len(&self)
        requires
            self.wf(),
        ensures
            self@.len() == self.spec_width() * self.spec_height(),
    {
    }

    /// A buffer filled with `background_color`; the current colour starts white.
    pub fn new(width: usize, height: usize, background_color: Rgba) -> (r: FrameBuffer)
        requires
            width * height <= usize::MAX,
        ensures
            r.wf(),
            r.spec_width() == width,
            r.spec_height() == height,
            r.spec_background() == background_color,
            r.spec_current() == (Rgba { r: 255, g: 255, b: 255, a: 255 }),
            r@ == Seq::new((width * height) as nat, |i: int| background_color),
    {
        let n = width * height;
        let mut pixels: Vec<Rgba> = Vec::with_capacity(n);
        let mut i: usize = 0;
        while i < n
            invariant
                0 <= i <= n,
                pixels@ == Seq::new(i as nat, |k: int| background_color),
            decreases n - i,
        {
            pixels.push(background_color);
            i += 1;
        }
        FrameBuffer { width, height, pixels, background_color, current_color: Rgba::white() }
    }

    pub fn width(&self) -> (r: usize)
        ensures
            r == self.spec_width(),
    {
        self.width
    }

    pub fn height(&self) -> (r: usize)
        ensures
            r == self.spec_height(),
    {
        self.height
    }

    /// Every pixel, row by row.
    pub fn pixels(&self) -> (r: &Vec<Rgba>)
        ensures
            r@ == self@,
    {
        &self.pixels
    }

    /// Fills every pixel with the background colour.
    pub fn clear(&mut self)
        requires
            old(self).wf(),
        ensures
            final(self).wf(),
            final(self)@ == Seq::new(old(self)@.len(), |i: int| old(self).spec_background()),
            final(self).spec_width() == old(self).spec_width(),
            final(self).spec_height() == old(self).spec_height(),
            final(self).spec_background() == old(self).spec_background(),
            final(self).spec_current() == old(self).spec_current(),
    {
        let n = self.pixels.len();
        let bg = self.background_color;
        let mut i: usize = 0;
        while i < n
            invariant
                0 <= i <= n,
                n == self.pixels@.len(),
                n == old(self).pixels@.len(),
                self.width == old(self).width,
                self.height == old(self).height,
                self.background_color == old(self).background_color,
                self.current_color == old(self).current_color,
                bg == self.background_color,
                forall|k: int| 0 <= k < i ==> self.pixels@[k] == bg,
            decreases n - i,
        {
            self.pixels.set(i, bg);
            i += 1;
        }
        assert(self.pixels@ =~= Seq::new(n as nat, |k: int| bg));
    }

    pub fn set_background_color(&mut self, color: Rgba)
        requires
            old(self).wf(),
        ensures
            final(self).wf(),
            final(self)@ == old(self)@,
            final(self).spec_width() == old(self).spec_width(),
            final(self).spec_height() == old(self).spec_height(),
            final(self).spec_background() == color,
            final(self).spec_current() == old(self).spec_current(),
    {
        self.background_color = color;
    }

    pub fn set_current_color(&mut self, color: Rgba)
        requires
            old(self).wf(),
        ensures
            final(self).wf(),
            final(self)@ == old(self)@,
            final(self).spec_width() == old(self).spec_width(),
            final(self).spec_height() == old(self).spec_height(),
            final(self).spec_background() == old(self).spec_background(),
            final(self).spec_current() == color,
    {
        self.current_color = color;
    }

    /// Sets pixel `(x, y)` to `color`; a point outside the buffer is ignored.
    pub fn point(&mut self, x: usize, y: usize, color: Rgba)
        requires
            old(self).wf(),
        ensures
            final(self).wf(),
            final(self)@ == if x < old(self).spec_width() && y < old(self).spec_height() {
                old(self)@.update(pixel_index(old(self).spec_width() as int, x as int, y as int), color)
            } else {
                old(self)@
            },
            final(self).spec_width() == old(self).spec_width(),
            final(self).spec_height() == old(self).spec_height(),
            final(self).spec_background() == old(self).spec_background(),
            final(self).spec_current() == old(self).spec_current(),
    {
        if x < self.width && y < self.height {
            assert(y * self.width + x < self.width * self.height) by (nonlinear_arith)
                requires x < self.width, y < self.height;
            assert(self.width * self.height == self.pixels.len());
            let i = y * self.width + x;
            self.pixels.set(i, color);
        }
    }

    /// Sets pixel `(x, y)` to the current colour; outside the buffer, nothing.
    pub fn set_pixel(&mut self, x: usize, y: usize)
        requires
            old(self).wf(),
        ensures
            final(self).wf(),
            final(self)@ == if x < old(self).spec_width() && y < old(self).spec_height() {
                old(self)@.update(pixel_index(old(self).spec_width() as int, x as int, y as int), old(self).spec_current())
            } else {
                old(self)@
            },
            final(self).spec_width() == old(self).spec_width(),
            final(self).spec_height() == old(self).spec_height(),
            final(self).spec_background() == old(self).spec_background(),
            final(self).spec_current() == old(self).spec_current(),
    {
        let c = self.current_color;
        self.point(x, y, c);
    }

    /// Sets every pixel of the rectangle `[x0, x0 + w) x [y0, y0 + h)` that
    /// lies in the buffer to the current colour.
    pub fn fill_rect(&mut self, x0: usize, y0: usize, w: usize, h: usize)
        requires
            old(self).wf(),
            x0 + w <= usize::MAX,
            y0 + h <= usize::MAX,
        ensures
            final(self).wf(),
            final(self).spec_width() == old(self).spec_width(),
            final(self).spec_height() == old(self).spec_height(),
            final(self).spec_background() == old(self).spec_background(),
            final(self).spec_current() == old(self).spec_current(),
            forall|px: int, py: int|
                0 <= px < old(self).spec_width() && 0 <= py < old(self).spec_height()
                    ==> #[trigger] final(self)@[pixel_index(old(self).spec_width() as int, px, py)]
                    == if x0 <= px < x0 + w && y0 <= py < y0 + h {
                    old(self).spec_current()
                } else {
                    old(self)@[pixel_index(old(self).spec_width() as int, px, py)]
                },
    {
        let ghost bw = self.width as int;
        let ghost bh = self.height as int;
        let ghost start = self.pixels@;
        let c = self.current_color;
        let mut x = x0;
        while x < x0 + w
            invariant
                self.wf(),
                self.width == bw,
                self.height == bh,
                self.background_color == old(self).background_color,
                self.current_color == c,
                c == old(self).current_color,
                start == old(self).pixels@,
                bw == old(self).width,
                bh == old(self).height,
                x0 <= x <= x0 + w,
                x0 + w <= usize::MAX,
                y0 + h <= usize::MAX,
                forall|px: int, py: int|
                    0 <= px < bw && 0 <= py < bh ==> #[trigger] self.pixels@[pixel_index(bw, px, py)]
                        == if x0 <= px < x && y0 <= py < y0 + h {
                        c
                    } else {
                        start[pixel_index(bw, px, py)]
                    },
            decreases x0 + w - x,
        {
            let mut y = y0;
            while y < y0 + h
                invariant
                    self.wf(),
                    self.width == bw,
                    self.height == bh,
                    self.background_color == old(self).background_color,
                    self.current_color == c,
                    start == old(self).pixels@,
                    x0 <= x < x0 + w,
                    y0 <= y <= y0 + h,
                    y0 + h <= usize::MAX,
                    forall|px: int, py: int|
                        0 <= px < bw && 0 <= py < bh ==> #[trigger] self.pixels@[pixel_index(bw, px, py)]
                            == if (x0 <= px < x && y0 <= py < y0 + h) || (px == x && y0 <= py < y) {
                            c
                        } else {
                            start[pixel_index(bw, px, py)]
                        },
                decreases y0 + h - y,
            {
                let ghost before = self.pixels@;
                self.point(x, y, c);
                proof {
                    assert forall|px: int, py: int| 0 <= px < bw && 0 <= py < bh implies #[trigger] self.pixels@[pixel_index(bw, px, py)]
                        == if (x0 <= px < x && y0 <= py < y0 + h) || (px == x && y0 <= py < y + 1) {
                        c
                    } else {
                        start[pixel_index(bw, px, py)]
                    } by {
                        lemma_index_in_buffer(bw, bh, px, py);
                        if x < bw && y < bh {
                            lemma_index_in_buffer(bw, bh, x as int, y as int);
                            lemma_index_distinct(bw, px, py, x as int, y as int);
                            if px != x || py != y {
                                assert(before.update(pixel_index(bw, x as int, y as int), c)[pixel_index(bw, px, py)]
                                    == before[pixel_index(bw, px, py)]);
                            }
                        }
                    }
                }
                y += 1;
            }
            x += 1;
        }
    }

    /// The colour of pixel `(x, y)`, or black outside the buffer.
    pub fn get_color(&self, x: usize, y: usize) -> (c: Rgba)
        requires
            self.wf(),
        ensures
            c == if x < self.spec_width() && y < self.spec_height() {
                self@[pixel_index(self.spec_width() as int, x as int, y as int)]
            } else {
                Rgba { r: 0, g: 0, b: 0, a: 255 }
            },
    {
        if x < self.width && y < self.height {
            assert(y * self.width + x < self.width * self.height) by (nonlinear_arith)
                requires x < self.width, y < self.height;
            assert(self.width * self.height == self.pixels.len());
            self.pixels[y * self.width + x]
        } else {
            Rgba::black()
        }
    }
}

} // verus!
