//! An RGBA image held as plain pixels, and the drawing that the grid and the
//! text need: rectangles, grid-line bands and glyph coverage.

use vstd::prelude::*;

verus! {

/// One pixel: red, green, blue and alpha, eight bits each.
#[derive(Clone, Copy, Debug, PartialEq, Eq, Structural)]
pub struct Rgba {
    pub r: u8,
    pub g: u8,
    pub b: u8,
    pub a: u8,
}

/// Opaque white.
pub fn white() -> (c: Rgba)
    ensures
        c == (Rgba { r: 255, g: 255, b: 255, a: 255 }),
{
    Rgba { r: 255, g: 255, b: 255, a: 255 }
}

/// Opaque red, the colour of the grid in the preview.
pub fn red() -> (c: Rgba)
    ensures
        c == (Rgba { r: 255, g: 0, b: 0, a: 255 }),
{
    Rgba { r: 255, g: 0, b: 0, a: 255 }
}

/// Opaque black, the colour of the grid and the text in the output.
pub fn black() -> (c: Rgba)
    ensures
        c == (Rgba { r: 0, g: 0, b: 0, a: 255 }),
{
    Rgba { r: 0, g: 0, b: 0, a: 255 }
}

/// An image `width` pixels wide and `height` pixels high, row after row.
pub struct Canvas {
    width: u32,
    height: u32,
    pixels: Vec<Rgba>,
}

proof fn lemma_index_in_bounds(w: int, h: int, x: int, y: int)
    by (nonlinear_arith)
    requires
        0 <= x < w,
        0 <= y < h,
    ensures
        0 <= y * w <= y * w + x < w * h,
        y * w + x < (y + 1) * w,
{
}

proof fn lemma_index_injective(w: int, x1: int, y1: int, x2: int, y2: int)
    requires
        0 <= x1 < w,
        0 <= x2 < w,
        0 <= y1,
        0 <= y2,
        y1 * w + x1 == y2 * w + x2,
    ensures
        x1 == x2,
        y1 == y2,
{
    if y1 < y2 {
        assert(y2 * w + x2 > y1 * w + x1) by (nonlinear_arith)
            requires
                y2 >= y1 + 1,
                w > x1 >= 0,
                x2 >= 0,
        ;
    } else if y2 < y1 {
        assert(y1 * w + x1 > y2 * w + x2) by (nonlinear_arith)
            requires
                y1 >= y2 + 1,
                w > x2 >= 0,
                x1 >= 0,
        ;
    }
}

impl Canvas {
    /// The pixel vector holds exactly one pixel per position.
    pub closed spec fn wf(&self) -> bool {
        self.pixels@.len() == self.width * self.height
    }

    pub closed spec fn spec_width(&self) -> nat {
        self.width as nat
    }

    pub closed spec fn spec_height(&self) -> nat {
        self.height as nat
    }

    /// The pixel in column `x` of row `y`.
    pub closed spec fn pixel(&self, x: int, y: int) -> Rgba {
        self.pixels@[y * self.width + x]
    }

    /// The pixels row after row.
    pub closed spec fn pixel_seq(&self) -> Seq<Rgba> {
        self.pixels@
    }

    /// `(x, y)` is a position of the image.
    pub open spec fn contains(&self, x: int, y: int) -> bool {
        0 <= x < self.spec_width() && 0 <= y < self.spec_height()
    }

    /// The pixel sequence is the pixels row after row.
    pub proof fn lemma_pixel_seq(&self, x: int, y: int)
        requires
            self.wf(),
            self.contains(x, y),
        ensures
            0 <= y * self.spec_width() + x < self.pixel_seq().len(),
            self.pixel_seq()[y * self.spec_width() + x] == self.pixel(x, y),
    {
        lemma_index_in_bounds(self.width as int, self.height as int, x, y);
    }

    /// A `width` by `height` image all of `color`.
    pub fn new_filled(width: u32, height: u32, color: Rgba) -> (c: Canvas)
        requires
            width * height <= usize::MAX,
        ensures
            c.wf(),
            c.spec_width() == width,
            c.spec_height() == height,
            forall|x: int, y: int| c.contains(x, y) ==> #[trigger] c.pixel(x, y) == color,
    {
        let n = width as usize * height as usize;
        let mut pixels: Vec<Rgba> = Vec::new();
        for i in 0..n
            invariant
                pixels@.len() == i,
                forall|k: int| 0 <= k < i ==> #[trigger] pixels@[k] == color,
        {
            pixels.push(color);
        }
        let c = Canvas { width, height, pixels };
        assert forall|x: int, y: int| c.contains(x, y) implies #[trigger] c.pixel(x, y) == color by {
            lemma_index_in_bounds(width as int, height as int, x, y);
        }
        c
    }

    /// The image whose pixels, row after row, are `pixels`; `None` unless
    /// there are exactly `width * height` of them.
    pub fn from_pixels(width: u32, height: u32, pixels: Vec<Rgba>) -> (r: Option<Canvas>)
        ensures
            r is Some <==> pixels@.len() == width * height,
            r matches Some(c) ==> c.wf() && c.spec_width() == width && c.spec_height() == height
                && c.pixel_seq() == pixels@,
    {
        let len = pixels.len();
        match (width as usize).checked_mul(height as usize) {
            Some(n) => {
                if len == n {
                    Some(Canvas { width, height, pixels })
                } else {
                    None
                }
            },
            None => None,
        }
    }

    /// The width in pixels.
    pub fn width(&self) -> (r: u32)
        ensures
            r == self.spec_width(),
    {
        self.width
    }

    /// The height in pixels.
    pub fn height(&self) -> (r: u32)
        ensures
            r == self.spec_height(),
    {
        self.height
    }

    /// The pixels, row after row.
    pub fn pixel_data(&self) -> (r: &Vec<Rgba>)
        ensures
            r@ == self.pixel_seq(),
    {
        &self.pixels
    }

    /// The pixel in column `x` of row `y`.
    pub fn get(&self, x: u32, y: u32) -> (c: Rgba)
        requires
            self.wf(),
            self.contains(x as int, y as int),
        ensures
            c == self.pixel(x as int, y as int),
    {
        let n = self.pixels.len();
        proof {
            lemma_index_in_bounds(self.width as int, self.height as int, x as int, y as int);
        }
        self.pixels[y as usize * self.width as usize + x as usize]
    }

    /// Sets the pixel in column `x` of row `y` to `color`.
    pub fn set(&mut self, x: u32, y: u32, color: Rgba)
        requires
            old(self).wf(),
            old(self).contains(x as int, y as int),
        ensures
            final(self).wf(),
            final(self).spec_width() == old(self).spec_width(),
            final(self).spec_height() == old(self).spec_height(),
            forall|px: int, py: int|
                final(self).contains(px, py) ==> #[trigger] final(self).pixel(px, py) == if px == x
                    && py == y {
                    color
                } else {
                    old(self).pixel(px, py)
                },
    {
        let ghost before = *self;
        let n = self.pixels.len();
        proof {
            lemma_index_in_bounds(self.width as int, self.height as int, x as int, y as int);
        }
        let i = y as usize * self.width as usize + x as usize;
        self.pixels.set(i, color);
        proof {
            let w = self.width as int;
            assert forall|px: int, py: int| self.contains(px, py) implies #[trigger] self.pixel(px, py)
                == if px == x && py == y {
                color
            } else {
                before.pixel(px, py)
            } by {
                lemma_index_in_bounds(w, self.height as int, px, py);
                if px != x || py != y {
                    if py * w + px == i {
                        lemma_index_injective(w, px, py, x as int, y as int);
                    }
                }
            }
        }
    }

    /// Paints the rectangle of columns `x0..x1` and rows `y0..y1` with `color`.
    pub fn fill_rect(&mut self, x0: u32, x1: u32, y0: u32, y1: u32, color: Rgba)
        requires
            old(self).wf(),
            x0 <= x1 <= old(self).spec_width(),
            y0 <= y1 <= old(self).spec_height(),
        ensures
            final(self).wf(),
            final(self).spec_width() == old(self).spec_width(),
            final(self).spec_height() == old(self).spec_height(),
            forall|px: int, py: int|
                final(self).contains(px, py) ==> #[trigger] final(self).pixel(px, py) == if x0 <= px
                    < x1 && y0 <= py < y1 {
                    color
                } else {
                    old(self).pixel(px, py)
                },
    {
        let ghost before = *self;
        let mut y = y0;
        while y < y1
            invariant
                self.wf(),
                self.spec_width() == before.spec_width(),
                self.spec_height() == before.spec_height(),
                x0 <= x1 <= self.spec_width(),
                y0 <= y <= y1 <= self.spec_height(),
                forall|px: int, py: int|
                    self.contains(px, py) ==> #[trigger] self.pixel(px, py) == if x0 <= px < x1
                        && y0 <= py < y {
                        color
                    } else {
                        before.pixel(px, py)
                    },
            decreases y1 - y,
        {
            let mut x = x0;
            while x < x1
                invariant
                    self.wf(),
                    self.spec_width() == before.spec_width(),
                    self.spec_height() == before.spec_height(),
                    x0 <= x <= x1 <= self.spec_width(),
                    y0 <= y < y1 <= self.spec_height(),
                    forall|px: int, py: int|
                        self.contains(px, py) ==> #[trigger] self.pixel(px, py) == if (x0 <= px
                            < x1 && y0 <= py < y) || (x0 <= px < x && py == y) {
                            color
                        } else {
                            before.pixel(px, py)
                        },
                decreases x1 - x,
            {
                self.set(x, y, color);
                x = x + 1;
            }
            y = y + 1;
        }
    }

    /// A copy of this image.
    pub fn duplicate(&self) -> (c: Canvas)
        requires
            self.wf(),
        ensures
            c.wf(),
            c.spec_width() == self.spec_width(),
            c.spec_height() == self.spec_height(),
            c.pixel_seq() == self.pixel_seq(),
            forall|x: int, y: int| c.contains(x, y) ==> #[trigger] c.pixel(x, y) == self.pixel(x, y),
    {
        let n = self.pixels.len();
        let mut pixels: Vec<Rgba> = Vec::new();
        for i in 0..n
            invariant
                n == self.pixels@.len(),
                pixels@ == self.pixels@.take(i as int),
        {
            pixels.push(self.pixels[i]);
        }
        assert(self.pixels@.take(n as int) == self.pixels@);
        Canvas { width: self.width, height: self.height, pixels }
    }

    /// Copies `src` onto this image with its top left corner at `(left, top)`.
    pub fn blit(&mut self, src: &Canvas, left: u32, top: u32)
        requires
            old(self).wf(),
            src.wf(),
            left + src.spec_width() <= old(self).spec_width(),
            top + src.spec_height() <= old(self).spec_height(),
        ensures
            final(self).wf(),
            final(self).spec_width() == old(self).spec_width(),
            final(self).spec_height() == old(self).spec_height(),
            forall|px: int, py: int|
                final(self).contains(px, py) ==> #[trigger] final(self).pixel(px, py) == if left <= px
                    < left + src.spec_width() && top <= py < top + src.spec_height() {
                    src.pixel(px - left, py - top)
                } else {
                    old(self).pixel(px, py)
                },
    {
        let ghost before = *self;
        let sw = src.width;
        let sh = src.height;
        let mut y: u32 = 0;
        while y < sh
            invariant
                self.wf(),
                src.wf(),
                sw == src.spec_width(),
                sh == src.spec_height(),
                self.spec_width() == before.spec_width(),
                self.spec_height() == before.spec_height(),
                left + sw <= self.spec_width(),
                top + sh <= self.spec_height(),
                y <= sh,
                forall|px: int, py: int|
                    self.contains(px, py) ==> #[trigger] self.pixel(px, py) == if left <= px < left
                        + sw && top <= py < top + y {
                        src.pixel(px - left, py - top)
                    } else {
                        before.pixel(px, py)
                    },
            decreases sh - y,
        {
            let mut x: u32 = 0;
            while x < sw
                invariant
                    self.wf(),
                    src.wf(),
                    sw == src.spec_width(),
                    sh == src.spec_height(),
                    self.spec_width() == before.spec_width(),
                    self.spec_height() == before.spec_height(),
                    left + sw <= self.spec_width(),
                    top + sh <= self.spec_height(),
                    y < sh,
                    x <= sw,
                    forall|px: int, py: int|
                        self.contains(px, py) ==> #[trigger] self.pixel(px, py) == if (left <= px
                            < left + sw && top <= py < top + y) || (left <= px < left + x && py
                            == top + y) {
                            src.pixel(px - left, py - top)
                        } else {
                            before.pixel(px, py)
                        },
                decreases sw - x,
            {
                let c = src.get(x, y);
                self.set(left + x, top + y, c);
                x = x + 1;
            }
            y = y + 1;
        }
    }

    /// Draws a glyph: every glyph position with some coverage is painted
    /// `color` at image position `(xs[gx], ys[gy])`, where that lies on the
    /// image; `coverage` holds the glyph's rows one after another.
    pub fn stamp_coverage(&mut self, coverage: &Vec<u8>, xs: &Vec<i32>, ys: &Vec<i32>, color: Rgba)
        requires
            old(self).wf(),
            coverage@.len() == xs@.len() * ys@.len(),
        ensures
            final(self).wf(),
            final(self).spec_width() == old(self).spec_width(),
            final(self).spec_height() == old(self).spec_height(),
            forall|px: int, py: int|
                final(self).contains(px, py) ==> #[trigger] final(self).pixel(px, py) == if glyph_covers(
                    coverage@,
                    xs@,
                    ys@,
                    px,
                    py,
                ) {
                    color
                } else {
                    old(self).pixel(px, py)
                },
    {
        let ghost before = *self;
        let gw = xs.len();
        let gh = ys.len();
        let clen = coverage.len();
        let mut gy: usize = 0;
        while gy < gh
            invariant
                self.wf(),
                self.spec_width() == before.spec_width(),
                self.spec_height() == before.spec_height(),
                gw == xs@.len(),
                gh == ys@.len(),
                coverage@.len() == gw * gh,
                clen == coverage@.len(),
                gy <= gh,
                forall|px: int, py: int|
                    self.contains(px, py) ==> #[trigger] self.pixel(px, py) == if hit_before(
                        coverage@,
                        xs@,
                        ys@,
                        gy as int,
                        0,
                        px,
                        py,
                    ) {
                        color
                    } else {
                        before.pixel(px, py)
                    },
            decreases gh - gy,
        {
            let mut gx: usize = 0;
            while gx < gw
                invariant
                    self.wf(),
                    self.spec_width() == before.spec_width(),
                    self.spec_height() == before.spec_height(),
                    gw == xs@.len(),
                    gh == ys@.len(),
                    coverage@.len() == gw * gh,
                    clen == coverage@.len(),
                    gy < gh,
                    gx <= gw,
                    forall|px: int, py: int|
                        self.contains(px, py) ==> #[trigger] self.pixel(px, py) == if hit_before(
                            coverage@,
                            xs@,
                            ys@,
                            gy as int,
                            gx as int,
                            px,
                            py,
                        ) {
                            color
                        } else {
                            before.pixel(px, py)
                        },
                decreases gw - gx,
            {
                proof {
                    lemma_index_in_bounds(gw as int, gh as int, gx as int, gy as int);
                }
                let ghost prior = *self;
                let cov = coverage[gy * gw + gx];
                let px0 = xs[gx];
                let py0 = ys[gy];
                let paint = cov > 0 && px0 >= 0 && py0 >= 0 && (px0 as u32) < self.width
                    && (py0 as u32) < self.height;
                if paint {
                    self.set(px0 as u32, py0 as u32, color);
                }
                assert forall|px: int, py: int| self.contains(px, py) implies #[trigger] self.pixel(
                    px,
                    py,
                ) == if hit_before(coverage@, xs@, ys@, gy as int, gx + 1, px, py) {
                    color
                } else {
                    before.pixel(px, py)
                } by {
                    let now = hit_before(coverage@, xs@, ys@, gy as int, gx + 1, px, py);
                    let was = hit_before(coverage@, xs@, ys@, gy as int, gx as int, px, py);
                    let here = glyph_hits(coverage@, xs@, ys@, gx as int, gy as int, px, py);
                    if was {
                        let (a, b) = choose|a: int, b: int|
                            glyph_hits(coverage@, xs@, ys@, a, b, px, py) && (b < gy || (b == gy
                                && a < gx));
                        assert(glyph_hits(coverage@, xs@, ys@, a, b, px, py));
                        assert(now);
                    }
                    if here {
                        assert(now);
                        assert(paint);
                    }
                    if now && !was {
                        let (a, b) = choose|a: int, b: int|
                            glyph_hits(coverage@, xs@, ys@, a, b, px, py) && (b < gy || (b == gy
                                && a < gx + 1));
                        assert(a == gx && b == gy);
                        assert(here);
                    }
                }
                gx = gx + 1;
            }
            assert forall|px: int, py: int|
                hit_before(coverage@, xs@, ys@, gy as int, gw as int, px, py) == hit_before(
                    coverage@,
                    xs@,
                    ys@,
                    gy + 1,
                    0,
                    px,
                    py,
                ) by {
                if hit_before(coverage@, xs@, ys@, gy + 1, 0, px, py) {
                    let (a, b) = choose|a: int, b: int|
                        glyph_hits(coverage@, xs@, ys@, a, b, px, py) && (b < gy + 1 || (b == gy
                            + 1 && a < 0));
                    assert(glyph_hits(coverage@, xs@, ys@, a, b, px, py));
                }
                if hit_before(coverage@, xs@, ys@, gy as int, gw as int, px, py) {
                    let (a, b) = choose|a: int, b: int|
                        glyph_hits(coverage@, xs@, ys@, a, b, px, py) && (b < gy || (b == gy
                            && a < gw));
                    assert(glyph_hits(coverage@, xs@, ys@, a, b, px, py));
                }
            }
            gy = gy + 1;
        }
        assert forall|px: int, py: int|
            hit_before(coverage@, xs@, ys@, gh as int, 0, px, py) == glyph_covers(
                coverage@,
                xs@,
                ys@,
                px,
                py,
            ) by {
            if glyph_covers(coverage@, xs@, ys@, px, py) {
                let (a, b) = choose|a: int, b: int| glyph_hits(coverage@, xs@, ys@, a, b, px, py);
                assert(glyph_hits(coverage@, xs@, ys@, a, b, px, py) && (b < gh || (b == gh && a < 0)));
            }
            if hit_before(coverage@, xs@, ys@, gh as int, 0, px, py) {
                let (a, b) = choose|a: int, b: int|
                    glyph_hits(coverage@, xs@, ys@, a, b, px, py) && (b < gh || (b == gh && a < 0));
                assert(glyph_hits(coverage@, xs@, ys@, a, b, px, py));
            }
        }
    }

    /// Draws the grid: a vertical line at each of `column_lines`, running
    /// from row `top` to row `bottom`, and a horizontal line at each of
    /// `row_lines`, running from column `left` to column `right`, all
    /// `thickness` wide (at least one) and cut at the image's edges.
    pub fn draw_grid_lines(
        &mut self,
        column_lines: &Vec<i32>,
        row_lines: &Vec<i32>,
        thickness: i32,
        left: i32,
        top: i32,
        right: i32,
        bottom: i32,
        color: Rgba,
    )
        requires
            old(self).wf(),
        ensures
            final(self).wf(),
            final(self).spec_width() == old(self).spec_width(),
            final(self).spec_height() == old(self).spec_height(),
            forall|px: int, py: int|
                final(self).contains(px, py) ==> #[trigger] final(self).pixel(px, py) == if columns_cover(
                    column_lines@,
                    column_lines@.len() as int,
                    thickness,
                    top,
                    bottom,
                    old(self).spec_height() as u32,
                    px,
                    py,
                ) || rows_cover(
                    row_lines@,
                    row_lines@.len() as int,
                    thickness,
                    left,
                    right,
                    old(self).spec_width() as u32,
                    px,
                    py,
                ) {
                    color
                } else {
                    old(self).pixel(px, py)
                },
    {
        let ghost before = *self;
        let ghost w = before.spec_width() as u32;
        let ghost h = before.spec_height() as u32;
        let nc = column_lines.len();
        for i in 0..nc
            invariant
                nc == column_lines@.len(),
                self.wf(),
                self.spec_width() == before.spec_width(),
                self.spec_height() == before.spec_height(),
                w == before.spec_width() as u32,
                h == before.spec_height() as u32,
                forall|px: int, py: int|
                    self.contains(px, py) ==> #[trigger] self.pixel(px, py) == if columns_cover(
                        column_lines@,
                        i as int,
                        thickness,
                        top,
                        bottom,
                        h,
                        px,
                        py,
                    ) {
                        color
                    } else {
                        before.pixel(px, py)
                    },
        {
            let ghost prior = *self;
            self.paint_column_band(column_lines[i], thickness, top, bottom, color);
            assert forall|px: int, py: int| self.contains(px, py) implies #[trigger] self.pixel(px, py)
                == if columns_cover(column_lines@, i + 1, thickness, top, bottom, h, px, py) {
                color
            } else {
                before.pixel(px, py)
            } by {
                let now = columns_cover(column_lines@, i + 1, thickness, top, bottom, h, px, py);
                let was = columns_cover(column_lines@, i as int, thickness, top, bottom, h, px, py);
                let here = in_band(column_lines@[i as int], thickness, top, bottom, h, px, py);
                assert(prior.pixel(px, py) == if was { color } else { before.pixel(px, py) });
                if was {
                    let k = choose|k: int|
                        0 <= k < i && k < column_lines@.len() && in_band(column_lines@[k], thickness, top, bottom, h, px, py);
                    assert(in_band(column_lines@[k], thickness, top, bottom, h, px, py));
                }
                if here {
                    assert(in_band(column_lines@[i as int], thickness, top, bottom, h, px, py));
                }
                if now && !was {
                    let k = choose|k: int|
                        0 <= k < i + 1 && k < column_lines@.len() && in_band(column_lines@[k], thickness, top, bottom, h, px, py);
                    assert(k == i);
                }
            }
        }
        let nr = row_lines.len();
        for j in 0..nr
            invariant
                nc == column_lines@.len(),
                nr == row_lines@.len(),
                self.wf(),
                self.spec_width() == before.spec_width(),
                self.spec_height() == before.spec_height(),
                w == before.spec_width() as u32,
                h == before.spec_height() as u32,
                forall|px: int, py: int|
                    self.contains(px, py) ==> #[trigger] self.pixel(px, py) == if columns_cover(
                        column_lines@,
                        nc as int,
                        thickness,
                        top,
                        bottom,
                        h,
                        px,
                        py,
                    ) || rows_cover(row_lines@, j as int, thickness, left, right, w, px, py) {
                        color
                    } else {
                        before.pixel(px, py)
                    },
        {
            let ghost prior = *self;
            self.paint_row_band(row_lines[j], thickness, left, right, color);
            assert forall|px: int, py: int| self.contains(px, py) implies #[trigger] self.pixel(px, py)
                == if columns_cover(column_lines@, nc as int, thickness, top, bottom, h, px, py)
                || rows_cover(row_lines@, j + 1, thickness, left, right, w, px, py) {
                color
            } else {
                before.pixel(px, py)
            } by {
                let now = rows_cover(row_lines@, j + 1, thickness, left, right, w, px, py);
                let was = rows_cover(row_lines@, j as int, thickness, left, right, w, px, py);
                let here = in_band(row_lines@[j as int], thickness, left, right, w, py, px);
                if was {
                    let k = choose|k: int|
                        0 <= k < j && k < row_lines@.len() && in_band(row_lines@[k], thickness, left, right, w, py, px);
                    assert(in_band(row_lines@[k], thickness, left, right, w, py, px));
                }
                if here {
                    assert(in_band(row_lines@[j as int], thickness, left, right, w, py, px));
                }
                if now && !was {
                    let k = choose|k: int|
                        0 <= k < j + 1 && k < row_lines@.len() && in_band(row_lines@[k], thickness, left, right, w, py, px);
                    assert(k == j);
                }
            }
        }
    }

    /// Paints a vertical grid line: the columns from `x` on, `thickness`
    /// wide (at least one), over the rows from `top` (but not above the
    /// image) to `bottom` inclusive, as far as they lie on the image.
    pub fn paint_column_band(&mut self, x: i32, thickness: i32, top: i32, bottom: i32, color: Rgba)
        requires
            old(self).wf(),
        ensures
            final(self).wf(),
            final(self).spec_width() == old(self).spec_width(),
            final(self).spec_height() == old(self).spec_height(),
            forall|px: int, py: int|
                final(self).contains(px, py) ==> #[trigger] final(self).pixel(px, py) == if in_band(
                    x,
                    thickness,
                    top,
                    bottom,
                    old(self).spec_height() as u32,
                    px,
                    py,
                ) {
                    color
                } else {
                    old(self).pixel(px, py)
                },
    {
        let ghost before = *self;
        let (x0, x1) = clamp_span(x, thickness, self.width);
        let (y0, y1) = clamp_run(top, bottom, self.height);
        self.fill_rect(x0, x1, y0, y1, color);
        assert forall|px: int, py: int| self.contains(px, py) implies #[trigger] self.pixel(px, py)
            == if in_band(x, thickness, top, bottom, before.spec_height() as u32, px, py) {
            color
        } else {
            before.pixel(px, py)
        } by {
            assert((x0 <= px < x1 && y0 <= py < y1) == in_band(x, thickness, top, bottom, before.spec_height() as u32, px, py));
        }
    }

    /// Paints a horizontal grid line: the rows from `y` on, `thickness`
    /// high (at least one), over the columns from `left` (but not left of the
    /// image) to `right` inclusive, as far as they lie on the image.
    pub fn paint_row_band(&mut self, y: i32, thickness: i32, left: i32, right: i32, color: Rgba)
        requires
            old(self).wf(),
        ensures
            final(self).wf(),
            final(self).spec_width() == old(self).spec_width(),
            final(self).spec_height() == old(self).spec_height(),
            forall|px: int, py: int|
                final(self).contains(px, py) ==> #[trigger] final(self).pixel(px, py) == if in_band(
                    y,
                    thickness,
                    left,
                    right,
                    old(self).spec_width() as u32,
                    py,
                    px,
                ) {
                    color
                } else {
                    old(self).pixel(px, py)
                },
    {
        let ghost before = *self;
        let (y0, y1) = clamp_span(y, thickness, self.height);
        let (x0, x1) = clamp_run(left, right, self.width);
        self.fill_rect(x0, x1, y0, y1, color);
        assert forall|px: int, py: int| self.contains(px, py) implies #[trigger] self.pixel(px, py)
            == if in_band(y, thickness, left, right, before.spec_width() as u32, py, px) {
            color
        } else {
            before.pixel(px, py)
        } by {
            assert((x0 <= px < x1 && y0 <= py < y1) == in_band(y, thickness, left, right, before.spec_width() as u32, py, px));
        }
    }
}

/// Glyph position `(gx, gy)` of a coverage map `xs.len()` wide has some
/// coverage and is drawn at image position `(px, py)`.
pub open spec fn glyph_hits(
    coverage: Seq<u8>,
    xs: Seq<i32>,
    ys: Seq<i32>,
    gx: int,
    gy: int,
    px: int,
    py: int,
) -> bool {
    &&& 0 <= gx < xs.len()
    &&& 0 <= gy < ys.len()
    &&& coverage[gy * xs.len() + gx] > 0
    &&& xs[gx] == px
    &&& ys[gy] == py
}

/// Some glyph position before row `row`, or in row `row` before column `col`,
/// is drawn at `(px, py)`.
pub open spec fn hit_before(
    coverage: Seq<u8>,
    xs: Seq<i32>,
    ys: Seq<i32>,
    row: int,
    col: int,
    px: int,
    py: int,
) -> bool {
    exists|gx: int, gy: int|
        #![trigger glyph_hits(coverage, xs, ys, gx, gy, px, py)]
        glyph_hits(coverage, xs, ys, gx, gy, px, py) && (gy < row || (gy == row && gx < col))
}

/// Some glyph position with coverage is drawn at `(px, py)`.
pub open spec fn glyph_covers(coverage: Seq<u8>, xs: Seq<i32>, ys: Seq<i32>, px: int, py: int) -> bool {
    exists|gx: int, gy: int|
        #![trigger glyph_hits(coverage, xs, ys, gx, gy, px, py)]
        glyph_hits(coverage, xs, ys, gx, gy, px, py)
}

/// One of the first `count` vertical lines at `lines` covers `(px, py)`.
pub open spec fn columns_cover(
    lines: Seq<i32>,
    count: int,
    thickness: i32,
    top: i32,
    bottom: i32,
    height: u32,
    px: int,
    py: int,
) -> bool {
    exists|k: int|
        #![trigger in_band(lines[k], thickness, top, bottom, height, px, py)]
        0 <= k < count && k < lines.len() && in_band(lines[k], thickness, top, bottom, height, px, py)
}

/// One of the first `count` horizontal lines at `lines` covers `(px, py)`.
pub open spec fn rows_cover(
    lines: Seq<i32>,
    count: int,
    thickness: i32,
    left: i32,
    right: i32,
    width: u32,
    px: int,
    py: int,
) -> bool {
    exists|k: int|
        #![trigger in_band(lines[k], thickness, left, right, width, py, px)]
        0 <= k < count && k < lines.len() && in_band(lines[k], thickness, left, right, width, py, px)
}

/// The line thickness used: `thickness`, but at least one.
pub open spec fn line_width(thickness: i32) -> int {
    if thickness > 1 { thickness as int } else { 1 }
}

/// The end, exclusive, of the run of positions from `first` to `last`
/// inclusive, cut at `extent`.
pub open spec fn run_end(last: i32, extent: u32) -> int {
    if last + 1 <= extent { last + 1 } else { extent as int }
}

/// The start of the run from `first`, cut at zero.
pub open spec fn run_start(first: i32) -> int {
    if first > 0 { first as int } else { 0 }
}

/// Position `(along, across)` lies on a band that covers `line_width(thickness)`
/// positions from `at` across it, and the run from `first` to `last` along it,
/// where the image measures `extent` along the band.
pub open spec fn in_band(at: i32, thickness: i32, first: i32, last: i32, extent: u32, across: int, along: int) -> bool {
    &&& at <= across < at + line_width(thickness)
    &&& run_start(first) <= along < run_end(last, extent)
}

/// `v`, but no more than `size`.
pub open spec fn clip(v: int, size: int) -> int {
    if v < size { v } else { size }
}

/// The positions `lo..hi` of `0..size` that lie in `at..at + line_width(thickness)`.
fn clamp_span(at: i32, thickness: i32, size: u32) -> (r: (u32, u32))
    ensures
        r.0 <= r.1 <= size,
        r.0 == clip(if at > 0 { at as int } else { 0 }, size as int),
        r.1 == if clip(at + line_width(thickness), size as int) < r.0 {
            r.0 as int
        } else {
            clip(at + line_width(thickness), size as int)
        },
{
    let t: i64 = if thickness > 1 { thickness as i64 } else { 1 };
    let s: i64 = size as i64;
    let start: i64 = if (at as i64) < 0 { 0 } else { at as i64 };
    let end: i64 = at as i64 + t;
    let lo: i64 = if start < s { start } else { s };
    let hi0: i64 = if end < s { end } else { s };
    let hi: i64 = if hi0 < lo { lo } else { hi0 };
    (lo as u32, hi as u32)
}

/// The positions `lo..hi` of `0..size` that lie in
/// `run_start(first)..run_end(last, size)`.
fn clamp_run(first: i32, last: i32, size: u32) -> (r: (u32, u32))
    ensures
        r.0 <= r.1 <= size,
        r.0 == clip(run_start(first), size as int),
        r.1 == if clip(run_end(last, size), size as int) < r.0 {
            r.0 as int
        } else {
            clip(run_end(last, size), size as int)
        },
{
    let start: i64 = if first > 0 { first as i64 } else { 0 };
    let s: i64 = size as i64;
    let after: i64 = last as i64 + 1;
    let end: i64 = if after <= s { after } else { s };
    let lo: i64 = if start < s { start } else { s };
    let hi0: i64 = end;
    let hi: i64 = if hi0 < lo { lo } else { hi0 };
    (lo as u32, hi as u32)
}

/// Resamples `source` to `new_width` by `new_height` pixels with
/// `image::DynamicImage::resize_exact` and the Lanczos-3 filter.  The contract
/// claims the size of the result, that `imageops::resize` returns an empty
/// source as a zero-filled image of the new size, and a source of the new
/// size as an exact copy.  Otherwise the filter computes with `f32::sin`,
/// whose precision std leaves unspecified, so the pixel values are not a
/// function of the arguments and are left unsaid.  `image` builds the result,
/// and first an intermediate image `source` wide and `new_height` high with
/// four channels, with `ImageBuffer::new`, which panics when the channel
/// count overflows `usize`, a case that `requires` leaves out.
#[verifier::external_body]
fn resize_lanczos3(source: &Canvas, new_width: u32, new_height: u32) -> (r: Canvas)
    requires
        source.wf(),
        4 * source.spec_width() * source.spec_height() <= usize::MAX,
        4 * source.spec_width() * new_height <= usize::MAX,
        4 * new_width * new_height <= usize::MAX,
    ensures
        r.wf(),
        r.spec_width() == new_width,
        r.spec_height() == new_height,
        source.spec_width() == 0 || source.spec_height() == 0 ==> forall|i: int|
            0 <= i < r.pixel_seq().len() ==> #[trigger] r.pixel_seq()[i] == (Rgba { r: 0, g: 0, b: 0, a: 0 }),
        source.spec_width() > 0 && source.spec_height() > 0 && new_width == source.spec_width()
            && new_height == source.spec_height() ==> r.pixel_seq() == source.pixel_seq(),
{
    let bytes: Vec<u8> = source.pixels.iter().flat_map(|p| [p.r, p.g, p.b, p.a]).collect();
    let buffer = image::RgbaImage::from_raw(source.width, source.height, bytes).unwrap();
    let scaled = image::DynamicImage::ImageRgba8(buffer).resize_exact(
        new_width,
        new_height,
        image::imageops::FilterType::Lanczos3,
    ).into_rgba8();
    let pixels = scaled.pixels().map(|p| Rgba { r: p.0[0], g: p.0[1], b: p.0[2], a: p.0[3] }).collect();
    Canvas { width: new_width, height: new_height, pixels }
}

/// `(px, py)` lies in the box of a `width` by `height` image centred on a
/// `target_width` by `target_height` one (offsets rounded down).
pub open spec fn in_centred_box(target_width: u32, target_height: u32, width: nat, height: nat, px: int, py: int) -> bool {
    let left = (target_width - width) / 2;
    let top = (target_height - height) / 2;
    left <= px < left + width && top <= py < top + height
}

/// The pixel at `(px, py)` of a `target_width` by `target_height` white image
/// with `inner` centred on it (offsets rounded down).
pub open spec fn centred_pixel(inner: Canvas, target_width: u32, target_height: u32, px: int, py: int) -> Rgba {
    let left = (target_width - inner.spec_width()) / 2;
    let top = (target_height - inner.spec_height()) / 2;
    if left <= px < left + inner.spec_width() && top <= py < top + inner.spec_height() {
        inner.pixel(px - left, py - top)
    } else {
        Rgba { r: 255, g: 255, b: 255, a: 255 }
    }
}

/// A `target_width` by `target_height` white image with `inner` centred on it.
pub fn place_centred(inner: &Canvas, target_width: u32, target_height: u32) -> (r: Canvas)
    requires
        inner.wf(),
        inner.spec_width() <= target_width,
        inner.spec_height() <= target_height,
        target_width * target_height <= usize::MAX,
    ensures
        r.wf(),
        r.spec_width() == target_width,
        r.spec_height() == target_height,
        forall|px: int, py: int|
            r.contains(px, py) ==> #[trigger] r.pixel(px, py) == centred_pixel(
                *inner,
                target_width,
                target_height,
                px,
                py,
            ),
{
    let mut canvas = Canvas::new_filled(target_width, target_height, white());
    let left = (target_width - inner.width()) / 2;
    let top = (target_height - inner.height()) / 2;
    canvas.blit(inner, left, top);
    canvas
}

/// A `target_width` by `target_height` white image with `source`, resampled
/// to `new_width` by `new_height` pixels, centred on it: the result is
/// `place_centred` of some `new_width` by `new_height` image, so it is white
/// outside the centred box; a source of the new size is placed unchanged, and
/// an empty source leaves the box transparent black.
pub fn letterbox(
    source: &Canvas,
    target_width: u32,
    target_height: u32,
    new_width: u32,
    new_height: u32,
) -> (r: Canvas)
    requires
        source.wf(),
        new_width <= target_width,
        new_height <= target_height,
        4 * target_width * target_height <= usize::MAX,
        4 * source.spec_width() * source.spec_height() <= usize::MAX,
        4 * source.spec_width() * new_height <= usize::MAX,
    ensures
        r.wf(),
        r.spec_width() == target_width,
        r.spec_height() == target_height,
        exists|inner: Canvas|
            {
                &&& inner.wf()
                &&& inner.spec_width() == new_width
                &&& inner.spec_height() == new_height
                &&& forall|px: int, py: int|
                    r.contains(px, py) ==> #[trigger] r.pixel(px, py) == centred_pixel(
                        inner,
                        target_width,
                        target_height,
                        px,
                        py,
                    )
            },
        source.spec_width() > 0 && source.spec_height() > 0 && new_width == source.spec_width()
            && new_height == source.spec_height() ==> forall|px: int, py: int|
            r.contains(px, py) ==> #[trigger] r.pixel(px, py) == centred_pixel(
                *source,
                target_width,
                target_height,
                px,
                py,
            ),
        source.spec_width() == 0 || source.spec_height() == 0 ==> forall|px: int, py: int|
            r.contains(px, py) ==> #[trigger] r.pixel(px, py) == if in_centred_box(
                target_width,
                target_height,
                new_width as nat,
                new_height as nat,
                px,
                py,
            ) {
                Rgba { r: 0, g: 0, b: 0, a: 0 }
            } else {
                Rgba { r: 255, g: 255, b: 255, a: 255 }
            },
{
    proof {
        assert(4 * new_width * new_height <= 4 * target_width * target_height) by (nonlinear_arith)
            requires
                new_width <= target_width,
                new_height <= target_height,
        ;
        assert(target_width * target_height <= 4 * target_width * target_height) by (nonlinear_arith);
    }
    let resized = resize_lanczos3(source, new_width, new_height);
    let r = place_centred(&resized, target_width, target_height);
    assert(resized.wf() && resized.spec_width() == new_width && resized.spec_height() == new_height);
    proof {
        if source.spec_width() > 0 && source.spec_height() > 0 && new_width == source.spec_width()
            && new_height == source.spec_height() {
            assert forall|px: int, py: int| r.contains(px, py) implies #[trigger] r.pixel(px, py)
                == centred_pixel(*source, target_width, target_height, px, py) by {
                if in_centred_box(target_width, target_height, new_width as nat, new_height as nat, px, py) {
                    let left = (target_width - new_width) / 2;
                    let top = (target_height - new_height) / 2;
                    resized.lemma_pixel_seq(px - left, py - top);
                    source.lemma_pixel_seq(px - left, py - top);
                }
            }
        }
        if source.spec_width() == 0 || source.spec_height() == 0 {
            assert forall|px: int, py: int| r.contains(px, py) implies #[trigger] r.pixel(px, py)
                == if in_centred_box(target_width, target_height, new_width as nat, new_height as nat, px, py) {
                Rgba { r: 0, g: 0, b: 0, a: 0 }
            } else {
                Rgba { r: 255, g: 255, b: 255, a: 255 }
            } by {
                if in_centred_box(target_width, target_height, new_width as nat, new_height as nat, px, py) {
                    let left = (target_width - new_width) / 2;
                    let top = (target_height - new_height) / 2;
                    resized.lemma_pixel_seq(px - left, py - top);
                }
            }
        }
    }
    r
}

} // verus!
