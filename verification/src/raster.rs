//! The mathematical model of the pixel buffer and of rasterised lines.

use vstd::prelude::*;
use crate::point::Pixel;
use vstd::arithmetic::div_mod::lemma_fundamental_div_mod;
use vstd::arithmetic::div_mod::lemma_fundamental_div_mod_converse;

verus! {

/// Whether row `x`, column `y` lies on a canvas of the given dimensions.
pub open spec fn in_bounds(width: int, height: int, x: int, y: int) -> bool {
    0 <= x < height && 0 <= y < width
}

/// Offset of the first of the four bytes of pixel (row `x`, column `y`).
pub open spec fn pixel_offset(width: int, x: int, y: int) -> int {
    4 * (x * width + y)
}

/// The buffer after one pixel write: inside the canvas the four bytes of the
/// pixel take the colour, outside nothing changes.
pub open spec fn put_pixel(
    buf: Seq<u8>,
    width: int,
    height: int,
    x: int,
    y: int,
    rgba: [u8; 4],
) -> Seq<u8> {
    if in_bounds(width, height, x, y) {
        let off = pixel_offset(width, x, y);
        Seq::new(
            buf.len(),
            |i: int|
                if off <= i < off + 4 {
                    rgba[i - off]
                } else {
                    buf[i]
                },
        )
    } else {
        buf
    }
}

/// The buffer after writing every point of `pts`, first to last.
pub open spec fn put_pixels(
    buf: Seq<u8>,
    width: int,
    height: int,
    pts: Seq<(int, int)>,
    rgba: [u8; 4],
) -> Seq<u8>
    decreases pts.len(),
{
    if pts.len() == 0 {
        buf
    } else {
        let before = put_pixels(buf, width, height, pts.drop_last(), rgba);
        put_pixel(before, width, height, pts.last().0, pts.last().1, rgba)
    }
}

/// How far the minor axis has moved after `k` steps along the major axis,
/// for a line that covers `minor` units over `major` units: `k * minor /
/// major` rounded to the nearest integer, an exact half rounding down.
pub open spec fn minor_steps(k: int, minor: int, major: int) -> int {
    if major <= 0 {
        0
    } else {
        (2 * k * minor + major - 1) / (2 * major)
    }
}

/// Points of a shallow line from `a` to `b`, one per row from `a.0` up to
/// `b.0`.
pub open spec fn low_points(a: (int, int), b: (int, int)) -> Seq<(int, int)> {
    let dx = b.0 - a.0;
    let dy = b.1 - a.1;
    if dx < 0 {
        Seq::empty()
    } else if dy < 0 {
        Seq::new((dx + 1) as nat, |k: int| (a.0 + k, a.1 - minor_steps(k, -dy, dx)))
    } else {
        Seq::new((dx + 1) as nat, |k: int| (a.0 + k, a.1 + minor_steps(k, dy, dx)))
    }
}

/// Points of a steep line from `a` to `b`, one per column from `a.1` up to
/// `b.1`.
pub open spec fn high_points(a: (int, int), b: (int, int)) -> Seq<(int, int)> {
    let dx = b.0 - a.0;
    let dy = b.1 - a.1;
    if dy < 0 {
        Seq::empty()
    } else if dx < 0 {
        Seq::new((dy + 1) as nat, |k: int| (a.0 - minor_steps(k, -dx, dy), a.1 + k))
    } else {
        Seq::new((dy + 1) as nat, |k: int| (a.0 + minor_steps(k, dx, dy), a.1 + k))
    }
}

/// The row and column of a pixel address.
pub open spec fn point_of(p: Pixel) -> (int, int) {
    (p.x as int, p.y as int)
}

pub open spec fn abs_diff(a: int, b: int) -> int {
    if a < b {
        b - a
    } else {
        a - b
    }
}

/// Points of the rasterised segment between `start` and `end`, in the order
/// in which they are drawn.
pub open spec fn line_points(start: (int, int), end: (int, int)) -> Seq<(int, int)> {
    if abs_diff(start.1, end.1) < abs_diff(start.0, end.0) {
        if start.0 > end.0 {
            low_points(end, start)
        } else {
            low_points(start, end)
        }
    } else {
        if start.1 > end.1 {
            high_points(end, start)
        } else {
            high_points(start, end)
        }
    }
}

/// The error accumulator of the integer line algorithm before step `k`.
pub open spec fn accumulator(k: int, minor: int, major: int) -> int {
    2 * minor * (k + 1) - major - 2 * major * minor_steps(k, minor, major)
}

/// One step of the integer line algorithm: the minor axis advances exactly
/// when the accumulator is positive, and the accumulator stays bounded.
pub proof fn lemma_minor_steps_next(k: int, minor: int, major: int)
    requires
        0 <= k,
        0 <= minor <= major,
    ensures
        minor_steps(0, minor, major) == 0,
        accumulator(0, minor, major) == 2 * minor - major,
        -2 * major <= accumulator(k, minor, major) <= 2 * minor,
        accumulator(k, minor, major) > 0 ==> {
            &&& minor_steps(k + 1, minor, major) == minor_steps(k, minor, major) + 1
            &&& accumulator(k + 1, minor, major) == accumulator(k, minor, major) + 2 * (minor
                - major)
        },
        accumulator(k, minor, major) <= 0 ==> {
            &&& minor_steps(k + 1, minor, major) == minor_steps(k, minor, major)
            &&& accumulator(k + 1, minor, major) == accumulator(k, minor, major) + 2 * minor
        },
{
    assert(2 * minor * (0 + 1) == 2 * minor) by (nonlinear_arith);
    assert(2 * minor * (k + 1 + 1) == 2 * minor * (k + 1) + 2 * minor) by (nonlinear_arith);
    let n0 = minor_steps(k, minor, major);
    assert(2 * major * (n0 + 1) == 2 * major * n0 + 2 * major) by (nonlinear_arith);
    if major > 0 {
        let d = 2 * major;
        let x = 2 * k * minor + major - 1;
        let n = x / d;
        let r = x % d;
        lemma_fundamental_div_mod(x, d);
        assert(x == d * n + r);
        assert(2 * (k + 1) * minor + major - 1 == x + 2 * minor) by (nonlinear_arith)
            requires
                x == 2 * k * minor + major - 1,
        ;
        assert(2 * minor * (k + 1) - major - 2 * major * n == r + 2 * minor + 1 - d) by (nonlinear_arith)
            requires
                x == d * n + r,
                d == 2 * major,
                x == 2 * k * minor + major - 1,
        ;
        if r + 2 * minor >= d {
            assert(x + 2 * minor == (n + 1) * d + (r + 2 * minor - d)) by (nonlinear_arith)
                requires
                    x == d * n + r,
            ;
            lemma_fundamental_div_mod_converse(x + 2 * minor, d, n + 1, r + 2 * minor - d);
        } else {
            assert(x + 2 * minor == n * d + (r + 2 * minor)) by (nonlinear_arith)
                requires
                    x == d * n + r,
            ;
            lemma_fundamental_div_mod_converse(x + 2 * minor, d, n, r + 2 * minor);
        }
        lemma_fundamental_div_mod_converse(major - 1, d, 0, major - 1);
        assert(2 * 0 * minor + major - 1 == major - 1) by (nonlinear_arith);
    } else {
        assert(2 * minor * (k + 1) == 0) by (nonlinear_arith)
            requires
                minor == 0,
        ;
    }
}

/// A segment from a point to itself is that single point.
pub proof fn lemma_line_single_point(a: (int, int))
    ensures
        line_points(a, a) == seq![a],
{
    assert(line_points(a, a) =~= seq![a]);
}

/// A segment holds the same points, in the same order, whichever endpoint
/// is named first.
pub proof fn lemma_line_symmetric(a: (int, int), b: (int, int))
    ensures
        line_points(a, b) == line_points(b, a),
{
    if a.0 == b.0 && a.1 == b.1 {
        assert(a == b);
    }
}

/// Drawing a segment from a point to itself writes that one pixel, and
/// nothing if the point lies outside the canvas.
pub proof fn lemma_zero_length_line_draws_one_pixel(
    buf: Seq<u8>,
    width: int,
    height: int,
    a: (int, int),
    rgba: [u8; 4],
)
    ensures
        put_pixels(buf, width, height, line_points(a, a), rgba) == put_pixel(
            buf,
            width,
            height,
            a.0,
            a.1,
            rgba,
        ),
        !in_bounds(width, height, a.0, a.1) ==> put_pixels(
            buf,
            width,
            height,
            line_points(a, a),
            rgba,
        ) == buf,
{
    lemma_line_single_point(a);
    let pts = seq![a];
    assert(pts.drop_last() =~= Seq::<(int, int)>::empty());
    assert(pts.last() == a);
    reveal_with_fuel(put_pixels, 3);
}

/// Drawing a segment gives the same buffer whichever endpoint is named
/// first.
pub proof fn lemma_draw_line_symmetric(
    buf: Seq<u8>,
    width: int,
    height: int,
    a: (int, int),
    b: (int, int),
    rgba: [u8; 4],
)
    ensures
        put_pixels(buf, width, height, line_points(a, b), rgba) == put_pixels(
            buf,
            width,
            height,
            line_points(b, a),
            rgba,
        ),
{
    lemma_line_symmetric(a, b);
}

/// Both endpoints lie on the segment, which holds one point for each step
/// along its longer axis.
pub proof fn lemma_line_ends(a: (int, int), b: (int, int))
    ensures
        line_points(a, b).len() == 1 + if abs_diff(a.1, b.1) < abs_diff(a.0, b.0) {
            abs_diff(a.0, b.0)
        } else {
            abs_diff(a.1, b.1)
        },
        line_points(a, b).contains(a),
        line_points(a, b).contains(b),
{
    let pts = line_points(a, b);
    let minor = if abs_diff(a.1, b.1) < abs_diff(a.0, b.0) {
        abs_diff(a.1, b.1)
    } else {
        abs_diff(a.0, b.0)
    };
    let major = pts.len() - 1;
    lemma_minor_steps_next(0, minor, major);
    lemma_minor_steps_last(minor, major);
    let first = pts[0];
    let last = pts[major];
    assert(first == a || first == b);
    assert(last == a || last == b);
    assert(a != b ==> first != last);
}

/// At the end of the major axis the minor axis has covered its whole
/// distance.
pub proof fn lemma_minor_steps_last(minor: int, major: int)
    requires
        0 <= minor <= major,
    ensures
        minor_steps(major, minor, major) == minor || major == 0,
{
    if major > 0 {
        assert(2 * major * minor + major - 1 == minor * (2 * major) + (major - 1))
            by (nonlinear_arith);
        lemma_fundamental_div_mod_converse(
            2 * major * minor + major - 1,
            2 * major,
            minor,
            major - 1,
        );
    }
}

/// Row and column of the pixel that byte `i` of a buffer belongs to.
pub open spec fn pixel_of_byte(i: int, width: int) -> (int, int) {
    ((i / 4) / width, (i / 4) % width)
}

/// What one pixel write does to each byte: the bytes of the addressed pixel
/// take the colour, channel by channel, and every other byte stays.
pub proof fn lemma_put_pixel_byte(
    buf: Seq<u8>,
    width: int,
    height: int,
    x: int,
    y: int,
    rgba: [u8; 4],
    i: int,
)
    requires
        0 <= width,
        0 <= height,
        buf.len() == 4 * (width * height),
        0 <= i < buf.len(),
    ensures
        put_pixel(buf, width, height, x, y, rgba).len() == buf.len(),
        in_bounds(width, height, pixel_of_byte(i, width).0, pixel_of_byte(i, width).1),
        put_pixel(buf, width, height, x, y, rgba)[i] == if pixel_of_byte(i, width) == (x, y) {
            rgba[i % 4]
        } else {
            buf[i]
        },
{
    let p = i / 4;
    assert(0 < width) by (nonlinear_arith)
        requires
            0 <= width,
            0 < 4 * (width * height),
    ;
    let row = p / width;
    let col = p % width;
    lemma_fundamental_div_mod(p, width);
    assert(0 <= col < width);
    assert(0 <= row < height) by (nonlinear_arith)
        requires
            p == width * row + col,
            0 <= col < width,
            0 <= p < width * height,
    ;
    if in_bounds(width, height, x, y) {
        let off = pixel_offset(width, x, y);
        if off <= i < off + 4 {
            lemma_fundamental_div_mod_converse(p, width, x, y);
        } else if row == x && col == y {
            assert(p == x * width + y) by (nonlinear_arith)
                requires
                    p == width * row + col,
                    row == x,
                    col == y,
            ;
        }
    }
}

/// What drawing a sequence of points does to each byte: a byte takes the
/// colour exactly if its pixel is among the points. Neither the order of
/// the points nor their repetition matters.
pub proof fn lemma_put_pixels_byte(
    buf: Seq<u8>,
    width: int,
    height: int,
    pts: Seq<(int, int)>,
    rgba: [u8; 4],
    i: int,
)
    requires
        0 <= width,
        0 <= height,
        buf.len() == 4 * (width * height),
        0 <= i < buf.len(),
    ensures
        put_pixels(buf, width, height, pts, rgba).len() == buf.len(),
        put_pixels(buf, width, height, pts, rgba)[i] == if pts.contains(pixel_of_byte(i, width)) {
            rgba[i % 4]
        } else {
            buf[i]
        },
    decreases pts.len(),
{
    let target = pixel_of_byte(i, width);
    if pts.len() > 0 {
        let rest = pts.drop_last();
        let before = put_pixels(buf, width, height, rest, rgba);
        lemma_put_pixels_byte(buf, width, height, rest, rgba, i);
        lemma_put_pixel_byte(before, width, height, pts.last().0, pts.last().1, rgba, i);
        if rest.contains(target) {
            let j = choose|j: int| 0 <= j < rest.len() && rest[j] == target;
            assert(pts[j] == target);
        }
        if pts.last() == target {
            assert(pts[pts.len() - 1] == target);
        }
        if pts.contains(target) {
            let j = choose|j: int| 0 <= j < pts.len() && pts[j] == target;
            if j < pts.len() - 1 {
                assert(rest[j] == target);
            }
        }
    }
}

/// Two sequences that hold the same points draw the same picture.
pub proof fn lemma_same_points_same_picture(
    buf: Seq<u8>,
    width: int,
    height: int,
    first: Seq<(int, int)>,
    second: Seq<(int, int)>,
    rgba: [u8; 4],
)
    requires
        0 <= width,
        0 <= height,
        buf.len() == 4 * (width * height),
        forall|p: (int, int)| first.contains(p) <==> second.contains(p),
    ensures
        put_pixels(buf, width, height, first, rgba) == put_pixels(
            buf,
            width,
            height,
            second,
            rgba,
        ),
{
    let one = put_pixels(buf, width, height, first, rgba);
    let other = put_pixels(buf, width, height, second, rgba);
    lemma_put_pixels_keep_length(buf, width, height, first, rgba);
    lemma_put_pixels_keep_length(buf, width, height, second, rgba);
    assert forall|i: int| 0 <= i < buf.len() implies one[i] == other[i] by {
        lemma_put_pixels_byte(buf, width, height, first, rgba, i);
        lemma_put_pixels_byte(buf, width, height, second, rgba, i);
    }
    assert(one =~= other);
}

/// Drawing never changes the size of the buffer.
pub proof fn lemma_put_pixels_keep_length(
    buf: Seq<u8>,
    width: int,
    height: int,
    pts: Seq<(int, int)>,
    rgba: [u8; 4],
)
    ensures
        put_pixels(buf, width, height, pts, rgba).len() == buf.len(),
    decreases pts.len(),
{
    if pts.len() > 0 {
        lemma_put_pixels_keep_length(buf, width, height, pts.drop_last(), rgba);
    }
}

} // verus!
