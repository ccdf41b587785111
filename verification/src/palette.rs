//! Nearest-colour matching of a pixel against a fixed palette of glyphs.

use vstd::prelude::*;

verus! {

/// Number of palette entries.
pub const PALETTE_LEN: usize = 18;

/// One colour channel composited over a white background: `channel * alpha
/// + 255 * (1 - alpha)` with `alpha` taken as a fraction of 255, the
/// fractional part dropped.
pub open spec fn blend(channel: int, alpha: int) -> int {
    (channel * alpha + 255 * (255 - alpha)) / 255
}

/// The colour of palette entry `i`.
pub open spec fn palette_rgb(i: int) -> (int, int, int) {
    if i == 0 {
        (255, 0, 0)
    }     else if i == 1 {
        (255, 255, 0)
    }     else if i == 2 {
        (0, 255, 0)
    }     else if i == 3 {
        (0, 0, 255)
    }     else if i == 4 {
        (128, 0, 128)
    }     else if i == 5 {
        (0, 0, 0)
    }     else if i == 6 {
        (255, 255, 255)
    }     else if i == 7 {
        (255, 105, 180)
    }     else if i == 8 {
        (255, 192, 203)
    }     else if i == 9 {
        (255, 20, 147)
    }     else if i == 10 {
        (255, 182, 193)
    }     else if i == 11 {
        (255, 160, 122)
    }     else if i == 12 {
        (255, 192, 203)
    }     else if i == 13 {
        (255, 182, 193)
    }     else if i == 14 {
        (255, 105, 180)
    }     else if i == 15 {
        (255, 165, 0)
    }     else if i == 16 {
        (139, 69, 19)
    } else {
        (255, 192, 203)
    }
}

/// The glyph of palette entry `i`.
pub open spec fn palette_glyph(i: int) -> Seq<char> {
    if i == 0 {
        "\u{2764}\u{fe0f}"@
    }     else if i == 1 {
        "\u{1f49b}"@
    }     else if i == 2 {
        "\u{1f49a}"@
    }     else if i == 3 {
        "\u{1f499}"@
    }     else if i == 4 {
        "\u{1f49c}"@
    }     else if i == 5 {
        "\u{1f5a4}"@
    }     else if i == 6 {
        "\u{1f90d}"@
    }     else if i == 7 {
        "\u{1f494}"@
    }     else if i == 8 {
        "\u{2763}\u{fe0f}"@
    }     else if i == 9 {
        "\u{1f495}"@
    }     else if i == 10 {
        "\u{1f49e}"@
    }     else if i == 11 {
        "\u{1f493}"@
    }     else if i == 12 {
        "\u{1f497}"@
    }     else if i == 13 {
        "\u{1f496}"@
    }     else if i == 14 {
        "\u{1f498}"@
    }     else if i == 15 {
        "\u{1f9e1}"@
    }     else if i == 16 {
        "\u{1f90e}"@
    } else {
        "\u{1f496}"@
    }
}

/// Squared Euclidean distance between palette entry `i` and a colour. It
/// orders the entries as the distance itself does.
pub open spec fn distance_squared(i: int, r: int, g: int, b: int) -> int {
    let c = palette_rgb(i);
    (c.0 - r) * (c.0 - r) + (c.1 - g) * (c.1 - g) + (c.2 - b) * (c.2 - b)
}

/// Whether entry `i` is the nearest of the first `n` entries, the earliest
/// one where several are equally near.
pub open spec fn is_first_nearest(i: int, n: int, r: int, g: int, b: int) -> bool {
    &&& 0 <= i < n
    &&& forall|j: int| 0 <= j < n ==> distance_squared(i, r, g, b) <= #[trigger] distance_squared(j, r, g, b)
    &&& forall|j: int| 0 <= j < i ==> distance_squared(i, r, g, b) < #[trigger] distance_squared(j, r, g, b)
}

/// The nearest of the first `n` palette entries, found by a scan in palette
/// order that moves on only to a strictly nearer entry.
pub open spec fn nearest_among(n: int, r: int, g: int, b: int) -> int
    decreases n,
{
    if n <= 1 {
        0
    } else {
        let best = nearest_among(n - 1, r, g, b);
        if distance_squared(n - 1, r, g, b) < distance_squared(best, r, g, b) {
            n - 1
        } else {
            best
        }
    }
}

/// The palette entry nearest to a colour.
pub open spec fn nearest_entry(r: int, g: int, b: int) -> int {
    nearest_among(PALETTE_LEN as int, r, g, b)
}

/// The glyph that stands for an RGBA pixel.
pub open spec fn glyph_of(r: u8, g: u8, b: u8, a: u8) -> Seq<char> {
    palette_glyph(nearest_entry(blend(r as int, a as int), blend(g as int, a as int), blend(b as int, a as int)))
}

/// The scan finds the entry at minimal distance, and the first such entry.
pub proof fn lemma_nearest_among(n: int, r: int, g: int, b: int)
    requires
        1 <= n,
    ensures
        is_first_nearest(nearest_among(n, r, g, b), n, r, g, b),
    decreases n,
{
    if n > 1 {
        lemma_nearest_among(n - 1, r, g, b);
    }
}

/// The search always ends on an entry of the palette.
pub proof fn lemma_nearest_entry_in_palette(r: int, g: int, b: int)
    ensures
        0 <= nearest_entry(r, g, b) < PALETTE_LEN,
        is_first_nearest(nearest_entry(r, g, b), PALETTE_LEN as int, r, g, b),
{
    lemma_nearest_among(PALETTE_LEN as int, r, g, b);
}

/// No glyph of the palette holds a line break, and none is empty.
pub proof fn lemma_glyph_has_no_line_break(i: int)
    ensures
        palette_glyph(i).len() > 0,
        forall|k: int| 0 <= k < palette_glyph(i).len() ==> palette_glyph(i)[k] != '\n',
{
    reveal_strlit("\u{2764}\u{fe0f}");
    reveal_strlit("\u{1f49b}");
    reveal_strlit("\u{1f49a}");
    reveal_strlit("\u{1f499}");
    reveal_strlit("\u{1f49c}");
    reveal_strlit("\u{1f5a4}");
    reveal_strlit("\u{1f90d}");
    reveal_strlit("\u{1f494}");
    reveal_strlit("\u{2763}\u{fe0f}");
    reveal_strlit("\u{1f495}");
    reveal_strlit("\u{1f49e}");
    reveal_strlit("\u{1f493}");
    reveal_strlit("\u{1f497}");
    reveal_strlit("\u{1f496}");
    reveal_strlit("\u{1f498}");
    reveal_strlit("\u{1f9e1}");
    reveal_strlit("\u{1f90e}");
}

/// Composites an RGBA colour over white.
pub fn rgba_to_rgb(rgba: [u8; 4]) -> (rgb: [u8; 3])
    ensures
        rgb[0] == blend(rgba[0] as int, rgba[3] as int),
        rgb[1] == blend(rgba[1] as int, rgba[3] as int),
        rgb[2] == blend(rgba[2] as int, rgba[3] as int),
{
    [blend_channel(rgba[0], rgba[3]), blend_channel(rgba[1], rgba[3]), blend_channel(rgba[2], rgba[3])]
}

fn blend_channel(channel: u8, alpha: u8) -> (out: u8)
    ensures
        out == blend(channel as int, alpha as int),
{
    let c: u32 = channel as u32;
    let a: u32 = alpha as u32;
    assert(0 <= c * a <= 255 * a) by (nonlinear_arith)
        requires
            0 <= c <= 255,
            0 <= a,
    ;
    let mixed: u32 = (c * a + 255 * (255 - a)) / 255;
    mixed as u8
}

fn palette_color(i: usize) -> (c: [u8; 3])
    requires
        i < PALETTE_LEN,
    ensures
        (c[0] as int, c[1] as int, c[2] as int) == palette_rgb(i as int),
{
    if i == 0 {
        [255u8, 0u8, 0u8]
    }     else if i == 1 {
        [255u8, 255u8, 0u8]
    }     else if i == 2 {
        [0u8, 255u8, 0u8]
    }     else if i == 3 {
        [0u8, 0u8, 255u8]
    }     else if i == 4 {
        [128u8, 0u8, 128u8]
    }     else if i == 5 {
        [0u8, 0u8, 0u8]
    }     else if i == 6 {
        [255u8, 255u8, 255u8]
    }     else if i == 7 {
        [255u8, 105u8, 180u8]
    }     else if i == 8 {
        [255u8, 192u8, 203u8]
    }     else if i == 9 {
        [255u8, 20u8, 147u8]
    }     else if i == 10 {
        [255u8, 182u8, 193u8]
    }     else if i == 11 {
        [255u8, 160u8, 122u8]
    }     else if i == 12 {
        [255u8, 192u8, 203u8]
    }     else if i == 13 {
        [255u8, 182u8, 193u8]
    }     else if i == 14 {
        [255u8, 105u8, 180u8]
    }     else if i == 15 {
        [255u8, 165u8, 0u8]
    }     else if i == 16 {
        [139u8, 69u8, 19u8]
    } else {
        [255u8, 192u8, 203u8]
    }
}

fn palette_symbol(i: usize) -> (s: &'static str)
    requires
        i < PALETTE_LEN,
    ensures
        s@ == palette_glyph(i as int),
{
    if i == 0 {
        "\u{2764}\u{fe0f}"
    }     else if i == 1 {
        "\u{1f49b}"
    }     else if i == 2 {
        "\u{1f49a}"
    }     else if i == 3 {
        "\u{1f499}"
    }     else if i == 4 {
        "\u{1f49c}"
    }     else if i == 5 {
        "\u{1f5a4}"
    }     else if i == 6 {
        "\u{1f90d}"
    }     else if i == 7 {
        "\u{1f494}"
    }     else if i == 8 {
        "\u{2763}\u{fe0f}"
    }     else if i == 9 {
        "\u{1f495}"
    }     else if i == 10 {
        "\u{1f49e}"
    }     else if i == 11 {
        "\u{1f493}"
    }     else if i == 12 {
        "\u{1f497}"
    }     else if i == 13 {
        "\u{1f496}"
    }     else if i == 14 {
        "\u{1f498}"
    }     else if i == 15 {
        "\u{1f9e1}"
    }     else if i == 16 {
        "\u{1f90e}"
    } else {
        "\u{1f496}"
    }
}

fn squared_distance_to(i: usize, rgb: [u8; 3]) -> (d: u32)
    requires
        i < PALETTE_LEN,
    ensures
        d == distance_squared(i as int, rgb[0] as int, rgb[1] as int, rgb[2] as int),
{
    let c = palette_color(i);
    square_of_difference(c[0], rgb[0]) + square_of_difference(c[1], rgb[1]) + square_of_difference(
        c[2],
        rgb[2],
    )
}

fn square_of_difference(x: u8, y: u8) -> (sq: u32)
    ensures
        sq == (x - y) * (x - y),
        sq <= 65025,
{
    let diff: u32 = if x < y {
        (y - x) as u32
    } else {
        (x - y) as u32
    };
    assert(diff * diff == (x - y) * (x - y)) by (nonlinear_arith)
        requires
            diff == x - y || diff == y - x,
    ;
    assert(diff * diff <= 65025) by (nonlinear_arith)
        requires
            0 <= diff <= 255,
    ;
    diff * diff
}

/// Index of the palette entry nearest to an opaque colour; of several
/// equally near entries the first in palette order.
pub fn closest_palette_entry(rgb: [u8; 3]) -> (best: usize)
    ensures
        best == nearest_entry(rgb[0] as int, rgb[1] as int, rgb[2] as int),
        is_first_nearest(
            best as int,
            PALETTE_LEN as int,
            rgb[0] as int,
            rgb[1] as int,
            rgb[2] as int,
        ),
{
    let mut best: usize = 0;
    let mut best_distance: u32 = squared_distance_to(0, rgb);
    let mut i: usize = 1;
    while i < PALETTE_LEN
        invariant
            1 <= i <= PALETTE_LEN,
            best < i,
            best == nearest_among(i as int, rgb[0] as int, rgb[1] as int, rgb[2] as int),
            best_distance == distance_squared(
                best as int,
                rgb[0] as int,
                rgb[1] as int,
                rgb[2] as int,
            ),
        decreases PALETTE_LEN - i,
    {
        let distance = squared_distance_to(i, rgb);
        if distance < best_distance {
            best_distance = distance;
            best = i;
        }
        i = i + 1;
    }
    proof {
        lemma_nearest_entry_in_palette(rgb[0] as int, rgb[1] as int, rgb[2] as int);
    }
    best
}

/// The glyph whose palette colour is nearest to the pixel once it is
/// composited over white.
pub fn find_closest_heart(color_rgba: [u8; 4]) -> (heart: &'static str)
    ensures
        heart@ == glyph_of(color_rgba[0], color_rgba[1], color_rgba[2], color_rgba[3]),
{
    let rgb = rgba_to_rgb(color_rgba);
    palette_symbol(closest_palette_entry(rgb))
}

/// The glyph of pixel number `i` of a buffer, counting row by row.
pub open spec fn pixel_glyph(buf: Seq<u8>, i: int) -> Seq<char> {
    glyph_of(buf[4 * i], buf[4 * i + 1], buf[4 * i + 2], buf[4 * i + 3])
}

/// The first `cols` glyphs of one row of the buffer.
pub open spec fn glyph_row(buf: Seq<u8>, width: int, row: int, cols: int) -> Seq<Seq<char>> {
    Seq::new(cols as nat, |c: int| pixel_glyph(buf, row * width + c))
}

/// One line of the rendering: the glyphs of a row, then a line break.
pub open spec fn line_text(buf: Seq<u8>, width: int, row: int) -> Seq<char> {
    glyph_row(buf, width, row, width).flatten() + seq!['\n']
}

/// The lines of the first `rows` rows.
pub open spec fn lines(buf: Seq<u8>, width: int, rows: int) -> Seq<Seq<char>> {
    Seq::new(rows as nat, |r: int| line_text(buf, width, r))
}

/// The glyph art of a buffer: one line per row. A canvas without columns
/// has no rows to cut its empty buffer into, and renders as nothing.
pub open spec fn render_text(buf: Seq<u8>, width: int, height: int) -> Seq<char> {
    if width <= 0 {
        Seq::empty()
    } else {
        lines(buf, width, height).flatten()
    }
}

/// Number of line breaks in a text.
pub open spec fn line_breaks(text: Seq<char>) -> int
    decreases text.len(),
{
    if text.len() == 0 {
        0
    } else {
        line_breaks(text.drop_last()) + if text.last() == '\n' {
            1int
        } else {
            0int
        }
    }
}

/// Line breaks add up over concatenation.
pub proof fn lemma_line_breaks_concat(a: Seq<char>, b: Seq<char>)
    ensures
        line_breaks(a + b) == line_breaks(a) + line_breaks(b),
    decreases b.len(),
{
    if b.len() == 0 {
        assert(a + b =~= a);
    } else {
        assert((a + b).drop_last() =~= a + b.drop_last());
        lemma_line_breaks_concat(a, b.drop_last());
    }
}

/// The glyphs of a row hold no line break.
pub proof fn lemma_glyph_row_has_no_line_break(buf: Seq<u8>, width: int, row: int, cols: int)
    requires
        0 <= cols,
    ensures
        line_breaks(glyph_row(buf, width, row, cols).flatten()) == 0,
    decreases cols,
{
    if cols == 0 {
        assert(glyph_row(buf, width, row, cols) =~= Seq::<Seq<char>>::empty());
        assert(glyph_row(buf, width, row, cols).flatten() =~= Seq::<char>::empty());
    } else {
        let before = glyph_row(buf, width, row, cols - 1);
        let glyph = pixel_glyph(buf, row * width + cols - 1);
        assert(glyph_row(buf, width, row, cols) =~= before.push(glyph));
        before.lemma_flatten_push(glyph);
        lemma_glyph_row_has_no_line_break(buf, width, row, cols - 1);
        lemma_line_breaks_concat(before.flatten(), glyph);
        lemma_free_of_line_breaks(glyph);
    }
}

/// A glyph of the palette counts no line break.
proof fn lemma_free_of_line_breaks(glyph: Seq<char>)
    requires
        exists|i: int| glyph == palette_glyph(i),
    ensures
        line_breaks(glyph) == 0,
{
    let i = choose|i: int| glyph == palette_glyph(i);
    lemma_glyph_has_no_line_break(i);
    lemma_no_line_break_counts_zero(glyph);
}

proof fn lemma_no_line_break_counts_zero(text: Seq<char>)
    requires
        forall|k: int| 0 <= k < text.len() ==> text[k] != '\n',
    ensures
        line_breaks(text) == 0,
    decreases text.len(),
{
    if text.len() > 0 {
        lemma_no_line_break_counts_zero(text.drop_last());
    }
}

/// The rendering of a canvas with at least one column has exactly `height`
/// lines: it is the concatenation of `height` lines, each of them `width`
/// glyphs that hold no line break, followed by one line break.
pub proof fn lemma_render_shape(buf: Seq<u8>, width: int, height: int)
    requires
        0 < width,
        0 <= height,
    ensures
        render_text(buf, width, height) == lines(buf, width, height).flatten(),
        lines(buf, width, height).len() == height,
        line_breaks(render_text(buf, width, height)) == height,
        forall|r: int|
            0 <= r < height ==> {
                &&& #[trigger] lines(buf, width, height)[r] == glyph_row(
                    buf,
                    width,
                    r,
                    width,
                ).flatten() + seq!['\n']
                &&& glyph_row(buf, width, r, width).len() == width
                &&& line_breaks(glyph_row(buf, width, r, width).flatten()) == 0
            },
    decreases height,
{
    assert forall|r: int| 0 <= r < height implies line_breaks(
        #[trigger] glyph_row(buf, width, r, width).flatten(),
    ) == 0 by {
        lemma_glyph_row_has_no_line_break(buf, width, r, width);
    }
    if height == 0 {
        assert(lines(buf, width, height) =~= Seq::<Seq<char>>::empty());
        assert(lines(buf, width, height).flatten() =~= Seq::<char>::empty());
    } else {
        let before = lines(buf, width, height - 1);
        let line = line_text(buf, width, height - 1);
        assert(lines(buf, width, height) =~= before.push(line));
        before.lemma_flatten_push(line);
        lemma_render_shape(buf, width, height - 1);
        lemma_line_breaks_concat(before.flatten(), line);
        lemma_glyph_row_has_no_line_break(buf, width, height - 1, width);
        lemma_line_breaks_concat(glyph_row(buf, width, height - 1, width).flatten(), seq!['\n']);
        reveal_with_fuel(line_breaks, 3);
        assert(seq!['\n'].drop_last() =~= Seq::<char>::empty());
    }
}

} // verus!
