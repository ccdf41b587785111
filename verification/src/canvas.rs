//! The canvas: an RGBA pixel buffer with bounds-checked drawing.

use vstd::prelude::*;
use vstd::string::StringExecFns;
use crate::palette::{find_closest_heart, glyph_row, line_text, lines, render_text};
use crate::point::Pixel;
use crate::raster::{
    abs_diff, accumulator, high_points, lemma_minor_steps_next, line_points, low_points,
    minor_steps, point_of, put_pixel, put_pixels,
};

verus! {

/// A `width` by `height` grid of RGBA pixels, four bytes each, row by row.
pub struct Canvas {
    width: u32,
    height: u32,
    pixels: Vec<u8>,
}

impl Canvas {
    /// The buffer holds four bytes for each pixel. Every canvas that `new`
    /// returns has this, and every drawing operation keeps it.
    pub closed spec fn well_formed(&self) -> bool {
        self.pixels@.len() == 4 * self.width * self.height
    }

    /// The pixel bytes.
    pub closed spec fn view(&self) -> Seq<u8> {
        self.pixels@
    }

    pub closed spec fn spec_width(&self) -> int {
        self.width as int
    }

    pub closed spec fn spec_height(&self) -> int {
        self.height as int
    }

    /// An opaque white canvas.
    pub fn new(width: u32, height: u32) -> (canvas: Canvas)
        requires
            4 * width * height <= usize::MAX,
        ensures
            canvas.well_formed(),
            canvas.spec_width() == width,
            canvas.spec_height() == height,
            canvas@ == Seq::new((4 * width * height) as nat, |i: int| 255u8),
    {
        proof {
            assert(width * height <= 4 * width * height) by (nonlinear_arith);
            assert(4 * (width * height) == 4 * width * height) by (nonlinear_arith);
        }
        let count: usize = width as usize * height as usize;
        let len: usize = 4 * count;
        let pixels: Vec<u8> = vec![255u8; len];
        assert(pixels@ =~= Seq::new((4 * width * height) as nat, |i: int| 255u8));
        Canvas { width, height, pixels }
    }

    pub fn width(&self) -> (w: u32)
        ensures
            w == self.spec_width(),
    {
        self.width
    }

    pub fn height(&self) -> (h: u32)
        ensures
            h == self.spec_height(),
    {
        self.height
    }

    /// The raw buffer, for a host to copy to a display surface. It always
    /// holds exactly `4 * width * height` bytes.
    pub fn pixels(&self) -> (bytes: &Vec<u8>)
        ensures
            bytes@ == self@,
            self.well_formed() ==> bytes@.len() == 4 * self.spec_width() * self.spec_height(),
    {
        &self.pixels
    }

    /// The canvas as glyph art: for each row of pixels one line of glyphs,
    /// each pixel shown by the glyph nearest to its colour, and a line
    /// break after each row.
    pub fn render(&self) -> (text: String)
        requires
            self.well_formed(),
        ensures
            text@ == render_text(self@, self.spec_width(), self.spec_height()),
    {
        let mut text = String::new();
        if self.width == 0 {
            return text;
        }
        let width: usize = self.width as usize;
        let height: usize = self.height as usize;
        let ghost w = width as int;
        let ghost h = height as int;
        let ghost buf = self.pixels@;
        let mut row: usize = 0;
        proof {
            assert(lines(buf, w, 0) =~= Seq::<Seq<char>>::empty());
            assert(4 * w * h == 4 * (h * w)) by (nonlinear_arith);
        }
        while row < height
            invariant
                0 <= row <= height,
                0 < width,
                w == width,
                h == height,
                buf == self.pixels@,
                buf.len() == self.pixels.len(),
                buf.len() == 4 * (h * w),
                text@ == lines(buf, w, row as int).flatten(),
            decreases height - row,
        {
            let ghost before = text@;
            let mut column: usize = 0;
            proof {
                assert(glyph_row(buf, w, row as int, 0) =~= Seq::<Seq<char>>::empty());
                assert(row * w + w <= h * w) by (nonlinear_arith)
                    requires
                        0 <= row < h,
                        0 < w,
                ;
                assert(row * w >= 0) by (nonlinear_arith)
                    requires
                        0 <= row,
                        0 < w,
                ;
            }
            while column < width
                invariant
                    0 <= column <= width,
                    0 <= row < height,
                    w == width,
                    h == height,
                    buf == self.pixels@,
                    buf.len() == self.pixels.len(),
                    buf.len() == 4 * (h * w),
                    0 <= row * w,
                    row * w + w <= h * w,
                    text@ == before + glyph_row(buf, w, row as int, column as int).flatten(),
                decreases width - column,
            {
                let index: usize = 4 * (row * width + column);
                let glyph = find_closest_heart(
                    [
                        self.pixels[index],
                        self.pixels[index + 1],
                        self.pixels[index + 2],
                        self.pixels[index + 3],
                    ],
                );
                text.append(glyph);
                proof {
                    let row_before = glyph_row(buf, w, row as int, column as int);
                    assert(glyph_row(buf, w, row as int, column + 1) =~= row_before.push(glyph@));
                    row_before.lemma_flatten_push(glyph@);
                }
                column = column + 1;
            }
            text.append("\n");
            proof {
                reveal_strlit("\n");
                assert("\n"@ =~= seq!['\n']);
                let lines_before = lines(buf, w, row as int);
                let line = line_text(buf, w, row as int);
                assert(lines(buf, w, row + 1) =~= lines_before.push(line));
                lines_before.lemma_flatten_push(line);
                assert(text@ =~= before + line);
            }
            row = row + 1;
        }
        text
    }

    /// Writes one pixel given by row and column; outside the canvas it does
    /// nothing.
    fn put(&mut self, x: i64, y: i64, rgba: [u8; 4])
        requires
            old(self).well_formed(),
        ensures
            final(self).well_formed(),
            final(self).spec_width() == old(self).spec_width(),
            final(self).spec_height() == old(self).spec_height(),
            final(self)@ == put_pixel(
                old(self)@,
                old(self).spec_width(),
                old(self).spec_height(),
                x as int,
                y as int,
                rgba,
            ),
    {
        if x < 0 || x >= self.height as i64 || y < 0 || y >= self.width as i64 {
            return ;
        }
        let ghost w = self.width as int;
        let ghost h = self.height as int;
        proof {
            assert(x * w + y < h * w) by (nonlinear_arith)
                requires
                    0 <= x < h,
                    0 <= y < w,
            ;
            assert(x * w + y >= 0) by (nonlinear_arith)
                requires
                    0 <= x,
                    0 <= y,
                    0 <= w,
            ;
            assert(x * w >= 0) by (nonlinear_arith)
                requires
                    0 <= x,
                    0 <= w,
            ;
            assert(4 * w * h == 4 * (h * w)) by (nonlinear_arith);
            assert(self.pixels@.len() == 4 * (h * w));
            assert(4 * (x * w + y) + 3 < self.pixels@.len());
        }
        assert(self.pixels@.len() == self.pixels.len());
        let row: usize = x as usize;
        let column: usize = y as usize;
        let stride: usize = self.width as usize;
        assert(row * stride == x * w);
        assert(row * stride + column < h * w);
        let index: usize = 4 * (row * stride + column);
        let ghost before = self.pixels@;
        self.pixels.set(index, rgba[0]);
        self.pixels.set(index + 1, rgba[1]);
        self.pixels.set(index + 2, rgba[2]);
        self.pixels.set(index + 3, rgba[3]);
        assert(self.pixels@ =~= put_pixel(before, w, h, x as int, y as int, rgba));
    }

    /// Overwrites the pixel at row `pixel.x`, column `pixel.y` with `rgba`.
    /// A pixel outside `[0, height) x [0, width)` leaves the buffer as it
    /// is; inside, exactly its four bytes change.
    pub fn draw_pixel(&mut self, pixel: &Pixel, rgba: [u8; 4])
        requires
            old(self).well_formed(),
        ensures
            final(self).well_formed(),
            final(self).spec_width() == old(self).spec_width(),
            final(self).spec_height() == old(self).spec_height(),
            final(self)@ == put_pixel(
                old(self)@,
                old(self).spec_width(),
                old(self).spec_height(),
                pixel.x as int,
                pixel.y as int,
                rgba,
            ),
    {
        self.put(pixel.x as i64, pixel.y as i64, rgba)
    }

    /// Draws the segment between `start` and `end`, both included, by
    /// integer midpoint rasterisation. Points outside the canvas are
    /// dropped.
    pub fn draw_line(&mut self, start: &Pixel, end: &Pixel, rgba: [u8; 4])
        requires
            old(self).well_formed(),
        ensures
            final(self).well_formed(),
            final(self).spec_width() == old(self).spec_width(),
            final(self).spec_height() == old(self).spec_height(),
            final(self)@ == put_pixels(
                old(self)@,
                old(self).spec_width(),
                old(self).spec_height(),
                line_points(point_of(*start), point_of(*end)),
                rgba,
            ),
    {
        let drow: i64 = if start.x < end.x {
            end.x as i64 - start.x as i64
        } else {
            start.x as i64 - end.x as i64
        };
        let dcolumn: i64 = if start.y < end.y {
            end.y as i64 - start.y as i64
        } else {
            start.y as i64 - end.y as i64
        };
        if dcolumn < drow {
            if start.x > end.x {
                self.draw_line_low(end, start, rgba)
            } else {
                self.draw_line_low(start, end, rgba)
            }
        } else {
            if start.y > end.y {
                self.draw_line_high(end, start, rgba)
            } else {
                self.draw_line_high(start, end, rgba)
            }
        }
    }

    /// The shallow case: one pixel per row from `a.x` up to `b.x`, the
    /// column following the line.
    fn draw_line_low(&mut self, a: &Pixel, b: &Pixel, rgba: [u8; 4])
        requires
            old(self).well_formed(),
            a.x <= b.x,
            abs_diff(a.y as int, b.y as int) <= b.x - a.x,
        ensures
            final(self).well_formed(),
            final(self).spec_width() == old(self).spec_width(),
            final(self).spec_height() == old(self).spec_height(),
            final(self)@ == put_pixels(
                old(self)@,
                old(self).spec_width(),
                old(self).spec_height(),
                low_points(point_of(*a), point_of(*b)),
                rgba,
            ),
    {
        let dx: i64 = b.x as i64 - a.x as i64;
        let mut dy: i64 = b.y as i64 - a.y as i64;
        let mut yi: i64 = 1;
        if dy < 0 {
            yi = -1;
            dy = -dy;
        }
        let mut d: i64 = 2 * dy - dx;
        let mut y: i64 = a.y as i64;
        let mut k: i64 = 0;
        let ghost pts = low_points(point_of(*a), point_of(*b));
        proof {
            lemma_minor_steps_next(0, dy as int, dx as int);
        }
        while k <= dx
            invariant
                0 <= k <= dx + 1,
                0 <= dy <= dx < 0x1_0000_0000,
                dx == b.x - a.x,
                dy == abs_diff(a.y as int, b.y as int),
                yi == (if b.y < a.y { -1int } else { 1int }),
                pts == low_points(point_of(*a), point_of(*b)),
                self.well_formed(),
                self.spec_width() == old(self).spec_width(),
                self.spec_height() == old(self).spec_height(),
                0 <= minor_steps(k as int, dy as int, dx as int) <= k,
                y == (if b.y < a.y {
                    a.y - minor_steps(k as int, dy as int, dx as int)
                } else {
                    a.y + minor_steps(k as int, dy as int, dx as int)
                }),
                d == accumulator(k as int, dy as int, dx as int),
                self@ == put_pixels(
                    old(self)@,
                    old(self).spec_width(),
                    old(self).spec_height(),
                    pts.take(k as int),
                    rgba,
                ),
            decreases dx + 1 - k,
        {
            self.put(a.x as i64 + k, y, rgba);
            proof {
                lemma_minor_steps_next(k as int, dy as int, dx as int);
                assert(pts.take(k + 1).drop_last() =~= pts.take(k as int));
                assert(pts.take(k + 1).last() == pts[k as int]);
                assert(pts[k as int] == (a.x + k, y as int));
            }
            if d > 0 {
                y = y + yi;
                d = d + 2 * (dy - dx);
            } else {
                d = d + 2 * dy;
            }
            k = k + 1;
        }
        assert(pts.take(k as int) =~= pts);
    }

    /// The steep case: one pixel per column from `a.y` up to `b.y`, the row
    /// following the line.
    fn draw_line_high(&mut self, a: &Pixel, b: &Pixel, rgba: [u8; 4])
        requires
            old(self).well_formed(),
            a.y <= b.y,
            abs_diff(a.x as int, b.x as int) <= b.y - a.y,
        ensures
            final(self).well_formed(),
            final(self).spec_width() == old(self).spec_width(),
            final(self).spec_height() == old(self).spec_height(),
            final(self)@ == put_pixels(
                old(self)@,
                old(self).spec_width(),
                old(self).spec_height(),
                high_points(point_of(*a), point_of(*b)),
                rgba,
            ),
    {
        let mut dx: i64 = b.x as i64 - a.x as i64;
        let dy: i64 = b.y as i64 - a.y as i64;
        let mut xi: i64 = 1;
        if dx < 0 {
            xi = -1;
            dx = -dx;
        }
        let mut d: i64 = 2 * dx - dy;
        let mut x: i64 = a.x as i64;
        let mut k: i64 = 0;
        let ghost pts = high_points(point_of(*a), point_of(*b));
        proof {
            lemma_minor_steps_next(0, dx as int, dy as int);
        }
        while k <= dy
            invariant
                0 <= k <= dy + 1,
                0 <= dx <= dy < 0x1_0000_0000,
                dy == b.y - a.y,
                dx == abs_diff(a.x as int, b.x as int),
                xi == (if b.x < a.x { -1int } else { 1int }),
                pts == high_points(point_of(*a), point_of(*b)),
                self.well_formed(),
                self.spec_width() == old(self).spec_width(),
                self.spec_height() == old(self).spec_height(),
                0 <= minor_steps(k as int, dx as int, dy as int) <= k,
                x == (if b.x < a.x {
                    a.x - minor_steps(k as int, dx as int, dy as int)
                } else {
                    a.x + minor_steps(k as int, dx as int, dy as int)
                }),
                d == accumulator(k as int, dx as int, dy as int),
                self@ == put_pixels(
                    old(self)@,
                    old(self).spec_width(),
                    old(self).spec_height(),
                    pts.take(k as int),
                    rgba,
                ),
            decreases dy + 1 - k,
        {
            self.put(x, a.y as i64 + k, rgba);
            proof {
                lemma_minor_steps_next(k as int, dx as int, dy as int);
                assert(pts.take(k + 1).drop_last() =~= pts.take(k as int));
                assert(pts.take(k + 1).last() == pts[k as int]);
                assert(pts[k as int] == (x as int, a.y + k));
            }
            if d > 0 {
                x = x + xi;
                d = d + 2 * (dx - dy);
            } else {
                d = d + 2 * dx;
            }
            k = k + 1;
        }
        assert(pts.take(k as int) =~= pts);
    }
}

} // verus!
