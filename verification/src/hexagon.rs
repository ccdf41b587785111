//! Hexagon coordinates, layouts, and the tiling of a canvas by hexagons.

use vstd::prelude::*;
use vstd::arithmetic::div_mod::lemma_fundamental_div_mod_converse;
use crate::canvas::Canvas;
use crate::point::Pixel;
use crate::raster::{line_points, point_of, put_pixels};

verus! {

/// A hexagon in cube coordinates. The three coordinates always sum to zero.
#[derive(Debug, Clone, Copy, PartialEq, Eq)]
pub struct Hex {
    q: i32,
    r: i32,
    s: i32,
}

/// Why a hexagon could not be made.
#[derive(Debug, Clone, Copy, PartialEq, Eq, Structural)]
pub enum HexError {
    /// The three cube coordinates do not sum to zero.
    InvalidCoordinate,
}

impl Hex {
    #[verifier::type_invariant]
    spec fn on_plane(self) -> bool {
        self.q + self.r + self.s == 0
    }

    /// The coordinates `(q, r, s)`.
    pub closed spec fn view(&self) -> (int, int, int) {
        (self.q as int, self.r as int, self.s as int)
    }

    /// A hexagon from cube coordinates, which must sum to zero.
    pub fn new(q: i32, r: i32, s: i32) -> (result: Result<Hex, HexError>)
        ensures
            q + r + s == 0 <==> result is Ok,
            result matches Ok(hex) ==> hex@ == (q as int, r as int, s as int) && hex@.0 + hex@.1
                + hex@.2 == 0,
            result matches Err(e) ==> e == HexError::InvalidCoordinate,
    {
        if q as i64 + r as i64 + s as i64 == 0 {
            Ok(Hex { q, r, s })
        } else {
            Err(HexError::InvalidCoordinate)
        }
    }

    /// A hexagon from axial coordinates; the third coordinate is `-q - r`.
    pub fn new_with_axial(q: i32, r: i32) -> (hex: Hex)
        requires
            i32::MIN <= -q - r <= i32::MAX,
        ensures
            hex@ == (q as int, r as int, -q - r),
            hex@.0 + hex@.1 + hex@.2 == 0,
    {
        let s: i64 = -(q as i64) - r as i64;
        Hex { q, r, s: s as i32 }
    }

    pub fn q(&self) -> (q: i32)
        ensures
            q == self@.0,
    {
        self.q
    }

    pub fn r(&self) -> (r: i32)
        ensures
            r == self@.1,
    {
        self.r
    }

    /// The third coordinate, which the other two determine.
    pub fn s(&self) -> (s: i32)
        ensures
            s == self@.2,
            s == -self@.0 - self@.1,
    {
        proof {
            use_type_invariant(self);
        }
        self.s
    }
}

/// Which way the hexagons of a layout point.
#[derive(Debug, Clone, Copy, PartialEq, Eq, Structural)]
pub enum HexOrientation {
    /// A corner points up; rows of hexagons run horizontally.
    PointyTop,
    /// An edge faces up; columns of hexagons run vertically.
    FlatTop,
}

impl HexOrientation {
    pub fn new_layout_pointy() -> (orientation: HexOrientation)
        ensures
            orientation == HexOrientation::PointyTop,
    {
        HexOrientation::PointyTop
    }

    pub fn new_layout_flat() -> (orientation: HexOrientation)
        ensures
            orientation == HexOrientation::FlatTop,
    {
        HexOrientation::FlatTop
    }
}

/// The mapping between hexagon coordinates and pixels: an orientation, the
/// size of a hexagon along each axis, and the pixel of hexagon `(0, 0, 0)`.
#[derive(Debug, Clone, Copy)]
pub struct HexLayout {
    pub orientation: HexOrientation,
    pub size: Pixel,
    pub origin: Pixel,
}

impl HexLayout {
    pub fn new(orientation: HexOrientation, size: Pixel, origin: Pixel) -> (layout: HexLayout)
        ensures
            layout.orientation == orientation,
            layout.size == size,
            layout.origin == origin,
    {
        HexLayout { orientation, size, origin }
    }
}

/// `n / d` rounded up to an integer, for `n >= 0` and `d != 0`.
pub open spec fn ceil_div(n: int, d: int) -> int {
    if d > 0 {
        (n + d - 1) / d
    } else if d < 0 {
        -(n / (-d))
    } else {
        0
    }
}

/// Index of the last row of the tiling of a canvas `height` pixels high.
pub open spec fn tiling_rows(height: int, layout: HexLayout) -> int {
    ceil_div(height, layout.size.x as int)
}

/// Index of the last hexagon in each row of the tiling of a canvas `width`
/// pixels wide.
pub open spec fn tiling_cols(width: int, layout: HexLayout) -> int {
    ceil_div(width, layout.size.y as int)
}

/// Whether the tiling holds any hexagon at all: a layout of size zero along
/// an axis gives none, nor does one whose size is negative where the
/// canvas is not empty.
pub open spec fn tiling_is_inhabited(width: int, height: int, layout: HexLayout) -> bool {
    &&& layout.size.x != 0
    &&& layout.size.y != 0
    &&& tiling_rows(height, layout) >= 0
    &&& tiling_cols(width, layout) >= 0
}

/// The hexagon at position `i` of a tiling whose rows hold `cols + 1`
/// hexagons: row `r = i / (cols + 1)`, shifted left by `r / 2`.
pub open spec fn tiling_cell(i: int, cols: int) -> (int, int, int) {
    let r = i / (cols + 1);
    let q = i % (cols + 1) - r / 2;
    (q, r, -q - r)
}

/// The coordinates of the tiling, row by row, `q` ascending in each row.
pub open spec fn tiling_coordinates(width: int, height: int, layout: HexLayout) -> Seq<
    (int, int, int),
> {
    if tiling_is_inhabited(width, height, layout) {
        let rows = tiling_rows(height, layout);
        let cols = tiling_cols(width, layout);
        Seq::new(((rows + 1) * (cols + 1)) as nat, |i: int| tiling_cell(i, cols))
    } else {
        Seq::empty()
    }
}

/// Nothing divided by anything, rounded up, is nothing.
pub proof fn lemma_ceil_div_of_zero(d: int)
    ensures
        ceil_div(0, d) == 0,
{
    if d > 0 {
        lemma_fundamental_div_mod_converse(d - 1, d, 0, d - 1);
    } else if d < 0 {
        lemma_fundamental_div_mod_converse(0, -d, 0, 0);
    }
}

/// The tiling of an empty canvas is the single hexagon at the origin,
/// whatever the size of a hexagon, so long as it is not zero.
pub proof fn lemma_tiling_of_empty_canvas(layout: HexLayout)
    requires
        layout.size.x != 0,
        layout.size.y != 0,
    ensures
        tiling_coordinates(0, 0, layout) == seq![(0int, 0int, 0int)],
        tiling_in_range(0, 0, layout),
{
    lemma_ceil_div_of_zero(layout.size.x as int);
    lemma_ceil_div_of_zero(layout.size.y as int);
    let cells = tiling_coordinates(0, 0, layout);
    assert(tiling_rows(0, layout) == 0 && tiling_cols(0, layout) == 0);
    assert(cells.len() == 1);
    assert(cells[0] == tiling_cell(0, 0));
    assert(cells =~= seq![(0int, 0int, 0int)]);
}

/// Every hexagon of a tiling lies on the plane `q + r + s = 0`, and the
/// tiling holds `cols + 1` hexagons for each of its `rows + 1` rows.
pub proof fn lemma_tiling_shape(width: int, height: int, layout: HexLayout)
    requires
        tiling_is_inhabited(width, height, layout),
    ensures
        tiling_coordinates(width, height, layout).len() == (tiling_rows(height, layout) + 1) * (
        tiling_cols(width, layout) + 1),
        forall|i: int|
            0 <= i < tiling_coordinates(width, height, layout).len() ==> {
                let cell = #[trigger] tiling_coordinates(width, height, layout)[i];
                cell.0 + cell.1 + cell.2 == 0
            },
{
    let rows = tiling_rows(height, layout);
    let cols = tiling_cols(width, layout);
    assert((rows + 1) * (cols + 1) >= 0) by (nonlinear_arith)
        requires
            rows >= 0,
            cols >= 0,
    ;
}

/// Whether every coordinate of the tiling fits the coordinate type.
pub open spec fn tiling_in_range(width: int, height: int, layout: HexLayout) -> bool {
    tiling_is_inhabited(width, height, layout) ==> {
        let rows = tiling_rows(height, layout);
        let cols = tiling_cols(width, layout);
        rows <= i32::MAX && cols <= i32::MAX && cols + (rows - rows / 2) <= 0x8000_0000
    }
}

fn ceiling_quotient(n: u32, d: i32) -> (c: i64)
    requires
        d != 0,
    ensures
        c == ceil_div(n as int, d as int),
        -0x2_0000_0000 < c < 0x2_0000_0000,
{
    if d > 0 {
        let x: i64 = n as i64 + d as i64 - 1;
        assert(0 <= x / (d as i64) <= x) by (nonlinear_arith)
            requires
                0 <= x,
                0 < d,
        ;
        x / (d as i64)
    } else {
        let x: i64 = n as i64;
        let y: i64 = -(d as i64);
        assert(0 <= x / y <= x) by (nonlinear_arith)
            requires
                0 <= x,
                0 < y,
        ;
        -(x / y)
    }
}

/// Decides `tiling_in_range`.
pub fn tiling_fits(width: u32, height: u32, layout: &HexLayout) -> (fits: bool)
    ensures
        fits == tiling_in_range(width as int, height as int, *layout),
{
    if layout.size.x == 0 || layout.size.y == 0 {
        return true;
    }
    let rows = ceiling_quotient(height, layout.size.x);
    let cols = ceiling_quotient(width, layout.size.y);
    if rows < 0 || cols < 0 {
        return true;
    }
    rows <= 0x7fff_ffff && cols <= 0x7fff_ffff && cols + (rows - rows / 2) <= 0x8000_0000
}

/// The hexagons that cover a `width` by `height` canvas under a pointy-top
/// layout: rows `0 ..= ceil(height / size.x)`, and in row `r` the columns
/// `-(r / 2) ..= ceil(width / size.y) - r / 2`. The tiling overshoots the
/// canvas rather than clipping to it.
pub fn hex_pointy_canvas_tiling(width: u32, height: u32, layout: &HexLayout) -> (result: Vec<Hex>)
    requires
        tiling_in_range(width as int, height as int, *layout),
    ensures
        result@.map_values(|hex: Hex| hex@) == tiling_coordinates(
            width as int,
            height as int,
            *layout,
        ),
{
    let mut result: Vec<Hex> = Vec::new();
    let ghost cells = tiling_coordinates(width as int, height as int, *layout);
    if layout.size.x == 0 || layout.size.y == 0 {
        assert(result@.map_values(|hex: Hex| hex@) =~= cells);
        return result;
    }
    let rows = ceiling_quotient(height, layout.size.x);
    let cols = ceiling_quotient(width, layout.size.y);
    if rows < 0 || cols < 0 {
        assert(result@.map_values(|hex: Hex| hex@) =~= cells);
        return result;
    }
    let mut r: i64 = 0;
    while r <= rows
        invariant
            0 <= r <= rows + 1,
            0 <= rows <= i32::MAX,
            0 <= cols <= i32::MAX,
            cols + (rows - rows / 2) <= 0x8000_0000,
            result@.len() == r * (cols + 1),
            forall|i: int| 0 <= i < result@.len() ==> (#[trigger] result@[i])@ == tiling_cell(i, cols as int),
        decreases rows + 1 - r,
    {
        let r_offset: i64 = r / 2;
        let mut j: i64 = 0;
        while j <= cols
            invariant
                0 <= j <= cols + 1,
                0 <= r <= rows <= i32::MAX,
                r_offset == r / 2,
                0 <= cols <= i32::MAX,
                cols + (rows - rows / 2) <= 0x8000_0000,
                result@.len() == r * (cols + 1) + j,
                forall|i: int| 0 <= i < result@.len() ==> (#[trigger] result@[i])@ == tiling_cell(i, cols as int),
            decreases cols + 1 - j,
        {
            let hex = Hex::new_with_axial((j - r_offset) as i32, r as i32);
            proof {
                lemma_fundamental_div_mod_converse(r * (cols + 1) + j, cols + 1, r as int, j as int);
            }
            result.push(hex);
            j = j + 1;
        }
        proof {
            assert((r + 1) * (cols + 1) == r * (cols + 1) + cols + 1) by (nonlinear_arith);
        }
        r = r + 1;
    }
    assert(result@.map_values(|hex: Hex| hex@) =~= cells);
    result
}

/// The buffer after the first `edges` edges of a hexagon's outline are
/// drawn: edge `i` joins corner `i` to corner `i + 1`, the last one back to
/// corner 0.
pub open spec fn outline_painted(
    buf: Seq<u8>,
    width: int,
    height: int,
    corners: [Pixel; 6],
    edges: int,
    rgba: [u8; 4],
) -> Seq<u8>
    decreases edges,
{
    if edges <= 0 {
        buf
    } else {
        put_pixels(
            outline_painted(buf, width, height, corners, edges - 1, rgba),
            width,
            height,
            line_points(point_of(corners[edges - 1]), point_of(corners[edges % 6])),
            rgba,
        )
    }
}

/// Draws the outline of a hexagon whose six corners, in rotational order,
/// have been rounded to pixels.
pub fn draw_hex(canvas: &mut Canvas, corners: &[Pixel; 6], rgba: [u8; 4])
    requires
        old(canvas).well_formed(),
    ensures
        final(canvas).well_formed(),
        final(canvas).spec_width() == old(canvas).spec_width(),
        final(canvas).spec_height() == old(canvas).spec_height(),
        final(canvas)@ == outline_painted(
            old(canvas)@,
            old(canvas).spec_width(),
            old(canvas).spec_height(),
            *corners,
            6,
            rgba,
        ),
{
    let mut i: usize = 0;
    while i < 6
        invariant
            0 <= i <= 6,
            canvas.well_formed(),
            canvas.spec_width() == old(canvas).spec_width(),
            canvas.spec_height() == old(canvas).spec_height(),
            canvas@ == outline_painted(
                old(canvas)@,
                old(canvas).spec_width(),
                old(canvas).spec_height(),
                *corners,
                i as int,
                rgba,
            ),
        decreases 6 - i,
    {
        let start = corners[i];
        let end = corners[(i + 1) % 6];
        canvas.draw_line(&start, &end, rgba);
        i = i + 1;
    }
}

} // verus!
