//! The 128x64 framebuffer with one bit per pixel (row-major, MSB first) and
//! its drawing primitives, as used by the embedded display path. Each
//! primitive is specified by a spec-level buffer transformer over the packed
//! bytes.

use vstd::prelude::*;

use crate::types::Color;
use crate::types::Font;

verus! {

/// Packed buffer size in bytes: one bit per pixel.
pub const BUFFER_SIZE: usize = 1024;

/// Whether the coordinate lies inside the display window.
pub open spec fn bit_in_window(x: int, y: int) -> bool {
    0 <= x < 128 && 0 <= y < 64
}

/// Byte index of a window coordinate in the packed buffer.
pub open spec fn byte_index(x: int, y: int) -> int {
    (y * 128 + x) / 8
}

/// Bit position of a window coordinate inside its byte (MSB first).
pub open spec fn bit_shift(x: int) -> u32 {
    (7 - (x % 8)) as u32
}

/// The byte after writing one pixel in the given color.
pub open spec fn byte_write(c: Color, prev: u8, shift: u32) -> u8 {
    match c {
        Color::White => prev & !((1u8) << shift),
        Color::Black => prev | ((1u8) << shift),
        Color::Xor => prev ^ ((1u8) << shift),
    }
}

/// Write one pixel into the packed buffer, dropping out-of-window writes.
pub open spec fn bit_write_px(buf: Seq<u8>, x: int, y: int, c: Color) -> Seq<u8> {
    if bit_in_window(x, y) {
        buf.update(byte_index(x, y), byte_write(c, buf[byte_index(x, y)], bit_shift(x)))
    } else {
        buf
    }
}

/// Write a horizontal run of `len` pixels starting at `(x, y)`.
pub open spec fn bit_write_hline(buf: Seq<u8>, x: int, y: int, len: int, c: Color) -> Seq<u8>
    decreases len,
{
    if len <= 0 {
        buf
    } else {
        bit_write_px(bit_write_hline(buf, x, y, len - 1, c), x + len - 1, y, c)
    }
}

/// Write a vertical run of `len` pixels starting at `(x, y)`.
pub open spec fn bit_write_vline(buf: Seq<u8>, x: int, y: int, len: int, c: Color) -> Seq<u8>
    decreases len,
{
    if len <= 0 {
        buf
    } else {
        bit_write_px(bit_write_vline(buf, x, y, len - 1, c), x, y + len - 1, c)
    }
}

/// Write a filled rectangle as consecutive horizontal runs.
pub open spec fn bit_write_box(buf: Seq<u8>, x: int, y: int, w: int, h: int, c: Color) -> Seq<u8>
    decreases h,
{
    if h <= 0 {
        buf
    } else {
        bit_write_hline(bit_write_box(buf, x, y, w, h - 1, c), x, y + h - 1, w, c)
    }
}

/// Write a rectangle outline: top and bottom rows, then the two side runs
/// between them.
pub open spec fn bit_write_rect(buf: Seq<u8>, x: int, y: int, w: int, h: int, c: Color) -> Seq<
    u8,
> {
    if w <= 0 || h <= 0 {
        buf
    } else {
        let hh = if h >= 2 {
            h - 2
        } else {
            0
        };
        bit_write_vline(
            bit_write_vline(
                bit_write_hline(bit_write_hline(buf, x, y, w, c), x, y + h - 1, w, c),
                x,
                y + 1,
                hh,
                c,
            ),
            x + w - 1,
            y + 1,
            hh,
            c,
        )
    }
}

/// A bitmap font: fixed cell metrics and one byte per glyph row, glyphs
/// stored consecutively from `first` for `count` codepoints.
pub struct BitmapFont {
    /// Cell width in pixels (at most 7: bits 6 down to 1 of each row byte).
    pub width: u8,
    /// Cell height in pixels; also the bytes stored per glyph.
    pub height: u8,
    /// First codepoint with a glyph.
    pub first: u32,
    /// Number of consecutive codepoints with glyphs.
    pub count: u32,
    /// Row bytes, `height` per glyph.
    pub rows: Vec<u8>,
}

/// The mathematical content of a bitmap font.
pub struct FontView {
    /// Cell width in pixels.
    pub width: int,
    /// Cell height in pixels.
    pub height: int,
    /// First codepoint with a glyph.
    pub first: int,
    /// Number of consecutive codepoints with glyphs.
    pub count: int,
    /// Row bytes, `height` per glyph.
    pub rows: Seq<u8>,
}

impl FontView {
    /// The row byte `row` of the glyph for `ch`.
    pub open spec fn glyph_row(self, ch: int, row: int) -> u8 {
        self.rows[(ch - self.first) * self.height + row]
    }

    /// Whether the font has a glyph for `ch`.
    pub open spec fn has_glyph(self, ch: int) -> bool {
        self.first <= ch < self.first + self.count
    }
}

impl View for BitmapFont {
    type V = FontView;

    open spec fn view(&self) -> FontView {
        FontView {
            width: self.width as int,
            height: self.height as int,
            first: self.first as int,
            count: self.count as int,
            rows: self.rows@,
        }
    }
}

impl BitmapFont {
    /// The font table is complete: one row byte per cell row of each glyph.
    pub open spec fn wf(&self) -> bool {
        self.rows@.len() == self.count * self.height
    }

    /// Build a font from its metrics and row bytes.
    pub fn new(width: u8, height: u8, first: u32, count: u32, rows: Vec<u8>) -> (r: Option<
        BitmapFont,
    >)
        ensures
            r matches Some(f) ==> f.wf() && f.width == width && f.height == height && f.first
                == first && f.count == count && f.rows@ == rows@,
            r is None <==> rows@.len() != count * height,
    {
        proof {
            assert(count * height < 0x100_0000_0000) by (nonlinear_arith)
                requires
                    count <= 0xffff_ffffu32,
                    height <= 0xffu8,
            ;
        }
        let expect: u64 = count as u64 * height as u64;
        if rows.len() as u64 != expect {
            return None;
        }
        Some(BitmapFont { width, height, first, count, rows })
    }

    /// An empty font: correct metrics, no glyphs.
    pub fn empty(width: u8, height: u8) -> (r: BitmapFont)
        ensures
            r.wf(),
            r.width == width,
            r.height == height,
            r.count == 0,
    {
        BitmapFont { width, height, first: 0, count: 0, rows: Vec::new() }
    }

}

/// Draw the rows of one glyph cell: row bytes hold pixels in bits 6 down
/// to 1, left to right; set bits are drawn at the current color.
pub open spec fn bit_write_glyph_cols(
    buf: Seq<u8>,
    font: FontView,
    ch: int,
    x: int,
    y: int,
    row: int,
    col: int,
    c: Color,
) -> Seq<u8>
    decreases col,
{
    if col <= 0 {
        buf
    } else {
        let b = bit_write_glyph_cols(buf, font, ch, x, y, row, col - 1, c);
        if (font.glyph_row(ch, row) >> ((6 - (col - 1)) as u32)) & 1 != 0 {
            bit_write_px(b, x + col - 1, y + row, c)
        } else {
            b
        }
    }
}

/// Draw the first `row` rows of one glyph cell.
pub open spec fn bit_write_glyph_rows(
    buf: Seq<u8>,
    font: FontView,
    ch: int,
    x: int,
    y: int,
    row: int,
    c: Color,
) -> Seq<u8>
    decreases row,
{
    if row <= 0 {
        buf
    } else {
        bit_write_glyph_cols(
            bit_write_glyph_rows(buf, font, ch, x, y, row - 1, c),
            font,
            ch,
            x,
            y,
            row - 1,
            font.width,
            c,
        )
    }
}

/// Draw a string: glyphs advance the pen by the cell width; characters
/// without a glyph are skipped without advancing.
pub open spec fn bit_write_str(
    buf: Seq<u8>,
    font: FontView,
    text: Seq<char>,
    x: int,
    y: int,
    c: Color,
) -> Seq<u8>
    decreases text.len(),
{
    if text.len() == 0 {
        buf
    } else {
        let ch = text[0] as int;
        if font.has_glyph(ch) {
            bit_write_str(
                bit_write_glyph_rows(buf, font, ch, x, y, font.height, c),
                font,
                text.skip(1),
                x + font.width,
                y,
                c,
            )
        } else {
            bit_write_str(buf, font, text.skip(1), x, y, c)
        }
    }
}

} // verus!

verus! {

/// The pixels of one full-circle midpoint step in the packed walk. The
/// steps on the axes (`y == 0`) and the diagonals (`x == y`) emit only
/// their four unique points, so no pixel is written twice in one pass —
/// an XOR circle toggles every circle pixel exactly once.
pub open spec fn bit_circle_step(buf: Seq<u8>, cx: int, cy: int, x: int, y: int, c: Color) -> Seq<
    u8,
> {
    if x == y {
        let b1 = bit_write_px(buf, cx + x, cy + x, c);
        let b2 = bit_write_px(b1, cx - x, cy + x, c);
        let b3 = bit_write_px(b2, cx - x, cy - x, c);
        bit_write_px(b3, cx + x, cy - x, c)
    } else if y == 0 {
        let b1 = bit_write_px(buf, cx + x, cy, c);
        let b2 = bit_write_px(b1, cx - x, cy, c);
        let b3 = bit_write_px(b2, cx, cy + x, c);
        bit_write_px(b3, cx, cy - x, c)
    } else {
        let b1 = bit_write_px(buf, cx + x, cy + y, c);
        let b2 = bit_write_px(b1, cx + y, cy + x, c);
        let b3 = bit_write_px(b2, cx - y, cy + x, c);
        let b4 = bit_write_px(b3, cx - x, cy + y, c);
        let b5 = bit_write_px(b4, cx - x, cy - y, c);
        let b6 = bit_write_px(b5, cx - y, cy - x, c);
        let b7 = bit_write_px(b6, cx + y, cy - x, c);
        bit_write_px(b7, cx + x, cy - y, c)
    }
}

/// The next state of the packed midpoint walk after the step at `(x, y)`.
pub open spec fn bit_circle_next(x: int, y: int, err: int) -> (int, int, int) {
    let y1 = y + 1;
    if err < 0 {
        (x, y1, err + 2 * y1 + 1)
    } else {
        (x - 1, y1, err + 2 * (y1 - (x - 1) + 1))
    }
}

/// Remaining steps of the packed circle outline walk.
pub open spec fn bit_circle_from(
    buf: Seq<u8>,
    cx: int,
    cy: int,
    x: int,
    y: int,
    err: int,
    c: Color,
) -> Seq<u8>
    decreases x + 2 - y,
{
    if x < y {
        buf
    } else {
        let b = bit_circle_step(buf, cx, cy, x, y, c);
        let (x1, y1, e1) = bit_circle_next(x, y, err);
        bit_circle_from(b, cx, cy, x1, y1, e1, c)
    }
}

/// The packed circle outline: the midpoint walk from `(r, 0)`, or a single
/// dot for radius zero.
pub open spec fn bit_write_circle(buf: Seq<u8>, cx: int, cy: int, r: int, c: Color) -> Seq<u8> {
    if r == 0 {
        bit_write_px(buf, cx, cy, c)
    } else if r > 0x7fff_ffff {
        buf
    } else {
        bit_circle_from(buf, cx, cy, r, 0, 1 - r, c)
    }
}

/// The largest extent `e` (up to `bound`) with `(e)^2` within the budget:
/// the row half-width of the disc's row scan.
pub open spec fn extent_upto(rsq: int, ysq: int, e: int, bound: int) -> int
    decreases bound - e,
{
    if e >= bound {
        e
    } else if (e + 1) * (e + 1) <= rsq - ysq {
        extent_upto(rsq, ysq, e + 1, bound)
    } else {
        e
    }
}

/// The disc rows from `dy` up to `r`: one horizontal run per row, reaching
/// to the largest offset whose squared distance stays within the radius,
/// so no pixel is ever written twice — an XOR disc toggles every disc
/// pixel exactly once.
pub open spec fn bit_disc_rows(buf: Seq<u8>, cx: int, cy: int, r: int, dy: int, c: Color) -> Seq<
    u8,
>
    decreases r + 1 - dy,
{
    if dy > r {
        buf
    } else {
        let e = extent_upto(r * r, dy * dy, 0, r);
        bit_disc_rows(
            bit_write_hline(buf, cx - e, cy + dy, 2 * e + 1, c),
            cx,
            cy,
            r,
            dy + 1,
            c,
        )
    }
}

/// The packed filled circle in row-scan form, or a single dot for radius
/// zero.
pub open spec fn bit_write_disc(buf: Seq<u8>, cx: int, cy: int, r: int, c: Color) -> Seq<u8> {
    if r == 0 {
        bit_write_px(buf, cx, cy, c)
    } else if r > 0x7fff_ffff {
        buf
    } else {
        bit_disc_rows(buf, cx, cy, r, -r, c)
    }
}

/// The pixels of one quarter-circle midpoint step, masked by quadrant
/// (0x01 top left, 0x02 top right, 0x04 bottom left, 0x08 bottom right).
pub open spec fn bit_quarter_step(
    buf: Seq<u8>,
    cx: int,
    cy: int,
    x: int,
    y: int,
    quadrant: u8,
    c: Color,
) -> Seq<u8> {
    let b1 = if quadrant & 0x01 != 0 {
        bit_write_px(bit_write_px(buf, cx - x, cy - y, c), cx - y, cy - x, c)
    } else {
        buf
    };
    let b2 = if quadrant & 0x02 != 0 {
        bit_write_px(bit_write_px(b1, cx + x, cy - y, c), cx + y, cy - x, c)
    } else {
        b1
    };
    let b3 = if quadrant & 0x04 != 0 {
        bit_write_px(bit_write_px(b2, cx - x, cy + y, c), cx - y, cy + x, c)
    } else {
        b2
    };
    if quadrant & 0x08 != 0 {
        bit_write_px(bit_write_px(b3, cx + x, cy + y, c), cx + y, cy + x, c)
    } else {
        b3
    }
}

/// Remaining steps of the packed quarter-circle outline walk.
pub open spec fn bit_quarter_from(
    buf: Seq<u8>,
    cx: int,
    cy: int,
    x: int,
    y: int,
    err: int,
    quadrant: u8,
    c: Color,
) -> Seq<u8>
    decreases x + 2 - y,
{
    if x < y {
        buf
    } else {
        let b = bit_quarter_step(buf, cx, cy, x, y, quadrant, c);
        let (x1, y1, e1) = bit_circle_next(x, y, err);
        bit_quarter_from(b, cx, cy, x1, y1, e1, quadrant, c)
    }
}

/// The packed quarter-circle outline, or a single dot for radius zero.
pub open spec fn bit_write_quarter(
    buf: Seq<u8>,
    cx: int,
    cy: int,
    r: int,
    quadrant: u8,
    c: Color,
) -> Seq<u8> {
    if r == 0 {
        bit_write_px(buf, cx, cy, c)
    } else if r > 0x7fff_ffff {
        buf
    } else {
        bit_quarter_from(buf, cx, cy, r, 0, 1 - r, quadrant, c)
    }
}

/// The runs of one filled quarter-circle midpoint step, masked by quadrant.
pub open spec fn bit_fquarter_step(
    buf: Seq<u8>,
    cx: int,
    cy: int,
    x: int,
    y: int,
    quadrant: u8,
    c: Color,
) -> Seq<u8> {
    let b1 = if quadrant & 0x01 != 0 {
        bit_write_hline(bit_write_hline(buf, cx - x, cy - y, x + 1, c), cx - y, cy - x, y + 1, c)
    } else {
        buf
    };
    let b2 = if quadrant & 0x02 != 0 {
        bit_write_hline(bit_write_hline(b1, cx, cy - y, x + 1, c), cx, cy - x, y + 1, c)
    } else {
        b1
    };
    let b3 = if quadrant & 0x04 != 0 {
        bit_write_hline(bit_write_hline(b2, cx - x, cy + y, x + 1, c), cx - y, cy + x, y + 1, c)
    } else {
        b2
    };
    if quadrant & 0x08 != 0 {
        bit_write_hline(bit_write_hline(b3, cx, cy + y, x + 1, c), cx, cy + x, y + 1, c)
    } else {
        b3
    }
}

/// Remaining steps of the packed filled quarter-circle walk.
pub open spec fn bit_fquarter_from(
    buf: Seq<u8>,
    cx: int,
    cy: int,
    x: int,
    y: int,
    err: int,
    quadrant: u8,
    c: Color,
) -> Seq<u8>
    decreases x + 2 - y,
{
    if x < y {
        buf
    } else {
        let b = bit_fquarter_step(buf, cx, cy, x, y, quadrant, c);
        let (x1, y1, e1) = bit_circle_next(x, y, err);
        bit_fquarter_from(b, cx, cy, x1, y1, e1, quadrant, c)
    }
}

/// The packed filled quarter circle, or a single dot for radius zero.
pub open spec fn bit_write_fquarter(
    buf: Seq<u8>,
    cx: int,
    cy: int,
    r: int,
    quadrant: u8,
    c: Color,
) -> Seq<u8> {
    if r == 0 {
        bit_write_px(buf, cx, cy, c)
    } else if r > 0x7fff_ffff {
        buf
    } else {
        bit_fquarter_from(buf, cx, cy, r, 0, 1 - r, quadrant, c)
    }
}

} // verus!

verus! {

/// The line spec over the packed buffer: horizontal and vertical fast
/// paths, otherwise the signed-error Bresenham walk.
pub open spec fn bit_line_from(
    buf: Seq<u8>,
    x: int,
    y: int,
    err: int,
    x1: int,
    y1: int,
    dx: int,
    dy: int,
    sx: int,
    sy: int,
    c: Color,
) -> Seq<u8>
    decreases iabs2(x1 - x) + iabs2(y1 - y) + 1,
    when (sx == 1 || sx == -1) && (sy == 1 || sy == -1) && (if sx == 1 {
        x <= x1
    } else {
        x >= x1
    }) && (if sy == 1 {
        y <= y1
    } else {
        y >= y1
    })
{
    let b = bit_write_px(buf, x, y, c);
    if x == x1 && y == y1 {
        b
    } else {
        let e2 = 2 * err;
        if e2 >= dy {
            if x == x1 {
                b
            } else {
                let xn = x + sx;
                let errn = err + dy;
                if e2 <= dx {
                    if y == y1 {
                        b
                    } else {
                        bit_line_from(b, xn, y + sy, errn + dx, x1, y1, dx, dy, sx, sy, c)
                    }
                } else {
                    bit_line_from(b, xn, y, errn, x1, y1, dx, dy, sx, sy, c)
                }
            }
        } else {
            if e2 <= dx {
                if y == y1 {
                    b
                } else {
                    bit_line_from(b, x, y + sy, err + dx, x1, y1, dx, dy, sx, sy, c)
                }
            } else {
                b
            }
        }
    }
}

/// Integer absolute value.
pub open spec fn iabs2(v: int) -> int {
    if v < 0 {
        -v
    } else {
        v
    }
}

/// The packed Bresenham line from `(x0, y0)` to `(x1, y1)`, endpoints
/// inclusive; axis-aligned lines run left to right and top to bottom.
pub open spec fn bit_write_line(
    buf: Seq<u8>,
    x0: int,
    y0: int,
    x1: int,
    y1: int,
    c: Color,
) -> Seq<u8> {
    if y0 == y1 {
        let xs = if x0 < x1 {
            x0
        } else {
            x1
        };
        let xe = if x0 < x1 {
            x1
        } else {
            x0
        };
        let len = if xe - xs + 1 > 0xffff_ffff {
            0xffff_ffff
        } else {
            xe - xs + 1
        };
        bit_write_hline(buf, xs, y0, len, c)
    } else if x0 == x1 {
        let ys = if y0 < y1 {
            y0
        } else {
            y1
        };
        let ye = if y0 < y1 {
            y1
        } else {
            y0
        };
        let len = if ye - ys + 1 > 0xffff_ffff {
            0xffff_ffff
        } else {
            ye - ys + 1
        };
        bit_write_vline(buf, x0, ys, len, c)
    } else {
        let dx = iabs2(x1 - x0);
        let dy = -iabs2(y1 - y0);
        let sx: int = if x0 < x1 {
            1
        } else {
            -1
        };
        let sy: int = if y0 < y1 {
            1
        } else {
            -1
        };
        bit_line_from(buf, x0, y0, dx + dy, x1, y1, dx, dy, sx, sy, c)
    }
}

/// The packed 128x64 framebuffer with its drawing state and the four
/// resident bitmap fonts.
pub struct Canvas {
    buffer: Vec<u8>,
    color: Color,
    font: Font,
    font_primary: BitmapFont,
    font_secondary: BitmapFont,
    font_keyboard: BitmapFont,
    font_big: BitmapFont,
}

impl Canvas {
    /// The packed pixel bytes.
    pub closed spec fn pixels(&self) -> Seq<u8> {
        self.buffer@
    }

    /// The current drawing color.
    pub closed spec fn color_spec(&self) -> Color {
        self.color
    }

    /// The current font selection.
    pub closed spec fn font_spec(&self) -> Font {
        self.font
    }

    /// The resident font for a selection.
    pub closed spec fn font_data_spec(&self, f: Font) -> BitmapFont {
        match f {
            Font::Primary => self.font_primary,
            Font::Secondary => self.font_secondary,
            Font::Keyboard => self.font_keyboard,
            Font::BigNumbers => self.font_big,
        }
    }

    /// A usable resident font: complete table, cell width within a row byte.
    pub open spec fn font_ok(f: BitmapFont) -> bool {
        f.wf() && f.width <= 7
    }

    /// A usable font view.
    pub open spec fn font_view_ok(f: FontView) -> bool {
        f.rows.len() == f.count * f.height && 0 <= f.width <= 7 && 0 <= f.height <= 255 && 0
            <= f.first && 0 <= f.count
    }

    /// The buffer holds one bit per pixel and the four fonts are resident
    /// and usable.
    pub open spec fn wf(&self) -> bool {
        &&& self.pixels().len() == 1024
        &&& Self::font_ok(self.font_data_spec(Font::Primary))
        &&& Self::font_ok(self.font_data_spec(Font::Secondary))
        &&& Self::font_ok(self.font_data_spec(Font::Keyboard))
        &&& Self::font_ok(self.font_data_spec(Font::BigNumbers))
    }

    /// The four resident fonts agree with another canvas value.
    pub open spec fn same_fonts(&self, other: &Canvas) -> bool {
        &&& self.font_data_spec(Font::Primary) == other.font_data_spec(Font::Primary)
        &&& self.font_data_spec(Font::Secondary) == other.font_data_spec(Font::Secondary)
        &&& self.font_data_spec(Font::Keyboard) == other.font_data_spec(Font::Keyboard)
        &&& self.font_data_spec(Font::BigNumbers) == other.font_data_spec(Font::BigNumbers)
    }

    /// A fresh canvas: all white, color `Black`, font `Primary`, with
    /// empty glyph tables whose cell metrics match the four standard fonts
    /// (6x10, 5x7, 5x8 and 7x20).
    pub fn new() -> (r: Canvas)
        ensures
            r.wf(),
            r.pixels() =~= Seq::new(1024, |i: int| 0u8),
            r.color_spec() == Color::Black,
            r.font_spec() == Font::Primary,
            r.font_data_spec(Font::Primary).width == 6 && r.font_data_spec(Font::Primary).height
                == 10,
            r.font_data_spec(Font::Secondary).width == 5 && r.font_data_spec(
                Font::Secondary,
            ).height == 7,
            r.font_data_spec(Font::Keyboard).width == 5 && r.font_data_spec(Font::Keyboard).height
                == 8,
            r.font_data_spec(Font::BigNumbers).width == 7 && r.font_data_spec(
                Font::BigNumbers,
            ).height == 20,
            forall|f: Font| (#[trigger] r.font_data_spec(f)).count == 0,
    {
        let mut buffer: Vec<u8> = Vec::new();
        let mut i: usize = 0;
        while i < BUFFER_SIZE
            invariant
                i <= 1024,
                buffer@.len() == i,
                forall|j: int| 0 <= j < i ==> buffer@[j] == 0u8,
            decreases 1024 - i,
        {
            buffer.push(0u8);
            i = i + 1;
        }
        Canvas {
            buffer,
            color: Color::Black,
            font: Font::Primary,
            font_primary: BitmapFont::empty(6, 10),
            font_secondary: BitmapFont::empty(5, 7),
            font_keyboard: BitmapFont::empty(5, 8),
            font_big: BitmapFont::empty(7, 20),
        }
    }

    /// Replace the glyph table for one font selection. The cell width must
    /// fit the seven usable bits of a row byte.
    pub fn install_font(&mut self, which: Font, data: BitmapFont) -> (ok: bool)
        requires
            old(self).wf(),
        ensures
            final(self).wf(),
            ok <==> (data.wf() && data.width <= 7),
            ok ==> final(self).font_data_spec(which) == data,
            final(self).pixels() == old(self).pixels(),
            final(self).color_spec() == old(self).color_spec(),
            final(self).font_spec() == old(self).font_spec(),
            !ok ==> *final(self) == *old(self),
    {
        if data.width > 7 {
            return false;
        }
        proof {
            assert(data.count * data.height < 0x100_0000_0000) by (nonlinear_arith)
                requires
                    data.count <= 0xffff_ffffu32,
                    data.height <= 0xffu8,
            ;
        }
        let expect: u64 = data.count as u64 * data.height as u64;
        if data.rows.len() as u64 != expect {
            return false;
        }
        match which {
            Font::Primary => {
                self.font_primary = data;
            },
            Font::Secondary => {
                self.font_secondary = data;
            },
            Font::Keyboard => {
                self.font_keyboard = data;
            },
            Font::BigNumbers => {
                self.font_big = data;
            },
        }
        true
    }

    /// Display width.
    pub fn width(&self) -> (r: u32)
        ensures
            r == 128,
    {
        128
    }

    /// Display height.
    pub fn height(&self) -> (r: u32)
        ensures
            r == 64,
    {
        64
    }

    /// Read access to the packed bytes.
    pub fn buffer(&self) -> (r: &[u8])
        ensures
            r@ == self.pixels(),
    {
        self.buffer.as_slice()
    }

    /// Write access to the packed bytes, for display blitting. The buffer
    /// seen through the reference is the canvas buffer.
    pub fn buffer_mut(&mut self) -> (r: &mut Vec<u8>)
        ensures
            r@ == old(self).pixels(),
            final(self).pixels() == final(r)@,
            final(self).color_spec() == old(self).color_spec(),
            final(self).font_spec() == old(self).font_spec(),
            final(self).same_fonts(old(self)),
    {
        &mut self.buffer
    }

    /// Clear every pixel to white; color and font keep their values.
    pub fn clear(&mut self)
        requires
            old(self).wf(),
        ensures
            final(self).wf(),
            final(self).pixels() =~= Seq::new(1024, |i: int| 0u8),
            final(self).color_spec() == old(self).color_spec(),
            final(self).font_spec() == old(self).font_spec(),
            final(self).same_fonts(old(self)),
    {
        let mut i: usize = 0;
        while i < BUFFER_SIZE
            invariant
                i <= 1024,
                self.buffer@.len() == 1024,
                forall|j: int| 0 <= j < i ==> self.buffer@[j] == 0u8,
                self.color == old(self).color,
                self.font == old(self).font,
                self.same_fonts(old(self)),
            decreases 1024 - i,
        {
            self.buffer.set(i, 0u8);
            i = i + 1;
        }
    }

    /// Set the drawing color.
    pub fn set_color(&mut self, color: Color)
        ensures
            final(self).color_spec() == color,
            final(self).pixels() == old(self).pixels(),
            final(self).font_spec() == old(self).font_spec(),
            final(self).same_fonts(old(self)),
    {
        self.color = color;
    }

    /// The current drawing color.
    pub fn color(&self) -> (r: Color)
        ensures
            r == self.color_spec(),
    {
        self.color
    }

    /// Set the font for text drawing.
    pub fn set_font(&mut self, font: Font)
        ensures
            final(self).font_spec() == font,
            final(self).pixels() == old(self).pixels(),
            final(self).color_spec() == old(self).color_spec(),
            final(self).same_fonts(old(self)),
    {
        self.font = font;
    }

    /// The current font selection.
    pub fn font(&self) -> (r: Font)
        ensures
            r == self.font_spec(),
    {
        self.font
    }

    /// Write one pixel at a given color, dropping out-of-window writes.
    fn put_px(&mut self, x: i64, y: i64, color: Color)
        requires
            old(self).wf(),
        ensures
            final(self).wf(),
            final(self).pixels() == bit_write_px(old(self).pixels(), x as int, y as int, color),
            final(self).color_spec() == old(self).color_spec(),
            final(self).font_spec() == old(self).font_spec(),
            final(self).same_fonts(old(self)),
    {
        if x < 0 || y < 0 || x >= 128 || y >= 64 {
            return ;
        }
        proof {
            assert(0 <= (y * 128 + x) / 8 < 1024) by (nonlinear_arith)
                requires
                    0 <= x < 128,
                    0 <= y < 64,
            ;
            assert((y * 128 + x) as int / 8 == (y * 128 + x) / 8);
        }
        let bit_pos: u32 = (7 - (x % 8)) as u32;
        let idx: usize = ((y * 128 + x) / 8) as usize;
        let prev = self.buffer[idx];
        let next = match color {
            Color::White => prev & !(1u8 << bit_pos),
            Color::Black => prev | (1u8 << bit_pos),
            Color::Xor => prev ^ (1u8 << bit_pos),
        };
        self.buffer.set(idx, next);
    }

    /// Draw a single pixel at the current color.
    ///
    /// A pixel outside the window leaves the framebuffer byte-identical.
    pub fn draw_pixel(&mut self, x: i32, y: i32)
        requires
            old(self).wf(),
        ensures
            final(self).wf(),
            final(self).pixels() == bit_write_px(
                old(self).pixels(),
                x as int,
                y as int,
                old(self).color_spec(),
            ),
            !bit_in_window(x as int, y as int) ==> final(self).pixels() == old(self).pixels(),
            final(self).color_spec() == old(self).color_spec(),
            final(self).font_spec() == old(self).font_spec(),
            final(self).same_fonts(old(self)),
    {
        let c = self.color;
        self.put_px(x as i64, y as i64, c);
    }

    /// Draw a horizontal run of `w` pixels at a given color.
    fn hline_at(&mut self, x: i64, y: i64, w: u32, color: Color)
        requires
            old(self).wf(),
            -0x8000_0000_0000 <= x <= 0x8000_0000_0000,
            -0x8000_0000_0000 <= y <= 0x8000_0000_0000,
        ensures
            final(self).wf(),
            final(self).pixels() == bit_write_hline(
                old(self).pixels(),
                x as int,
                y as int,
                w as int,
                color,
            ),
            final(self).color_spec() == old(self).color_spec(),
            final(self).font_spec() == old(self).font_spec(),
            final(self).same_fonts(old(self)),
    {
        let mut offset: u32 = 0;
        while offset < w
            invariant
                self.wf(),
                offset <= w,
                -0x8000_0000_0000 <= x <= 0x8000_0000_0000,
                -0x8000_0000_0000 <= y <= 0x8000_0000_0000,
                self.pixels() == bit_write_hline(
                    old(self).pixels(),
                    x as int,
                    y as int,
                    offset as int,
                    color,
                ),
                self.color_spec() == old(self).color_spec(),
                self.font_spec() == old(self).font_spec(),
                self.same_fonts(old(self)),
            decreases w - offset,
        {
            self.put_px(x + offset as i64, y, color);
            offset = offset + 1;
        }
    }

    /// Draw a vertical run of `h` pixels at a given color.
    fn vline_at(&mut self, x: i64, y: i64, h: u32, color: Color)
        requires
            old(self).wf(),
            -0x8000_0000_0000 <= x <= 0x8000_0000_0000,
            -0x8000_0000_0000 <= y <= 0x8000_0000_0000,
        ensures
            final(self).wf(),
            final(self).pixels() == bit_write_vline(
                old(self).pixels(),
                x as int,
                y as int,
                h as int,
                color,
            ),
            final(self).color_spec() == old(self).color_spec(),
            final(self).font_spec() == old(self).font_spec(),
            final(self).same_fonts(old(self)),
    {
        let mut offset: u32 = 0;
        while offset < h
            invariant
                self.wf(),
                offset <= h,
                -0x8000_0000_0000 <= x <= 0x8000_0000_0000,
                -0x8000_0000_0000 <= y <= 0x8000_0000_0000,
                self.pixels() == bit_write_vline(
                    old(self).pixels(),
                    x as int,
                    y as int,
                    offset as int,
                    color,
                ),
                self.color_spec() == old(self).color_spec(),
                self.font_spec() == old(self).font_spec(),
                self.same_fonts(old(self)),
            decreases h - offset,
        {
            self.put_px(x, y + offset as i64, color);
            offset = offset + 1;
        }
    }

    /// Draw a horizontal run of `w` pixels starting at `(x, y)` at the
    /// current color.
    pub fn draw_hline(&mut self, x: i32, y: i32, w: u32)
        requires
            old(self).wf(),
        ensures
            final(self).wf(),
            final(self).pixels() == bit_write_hline(
                old(self).pixels(),
                x as int,
                y as int,
                w as int,
                old(self).color_spec(),
            ),
            final(self).color_spec() == old(self).color_spec(),
            final(self).font_spec() == old(self).font_spec(),
            final(self).same_fonts(old(self)),
    {
        let c = self.color;
        self.hline_at(x as i64, y as i64, w, c);
    }

    /// Draw a vertical run of `h` pixels starting at `(x, y)` at the
    /// current color.
    pub fn draw_vline(&mut self, x: i32, y: i32, h: u32)
        requires
            old(self).wf(),
        ensures
            final(self).wf(),
            final(self).pixels() == bit_write_vline(
                old(self).pixels(),
                x as int,
                y as int,
                h as int,
                old(self).color_spec(),
            ),
            final(self).color_spec() == old(self).color_spec(),
            final(self).font_spec() == old(self).font_spec(),
            final(self).same_fonts(old(self)),
    {
        let c = self.color;
        self.vline_at(x as i64, y as i64, h, c);
    }
}

} // verus!

verus! {

/// The width reported for a string: the character count times the cell
/// width, reduced to 32 bits.
pub open spec fn bit_string_width(text: Seq<char>, width: int) -> int {
    (text.len() * width) % 0x1_0000_0000
}

impl Canvas {
    /// Draw a line with Bresenham's signed-error walk; horizontal and
    /// vertical lines take the run fast paths, so they are drawn left to
    /// right and top to bottom whatever the argument order.
    pub fn draw_line(&mut self, x0: i32, y0: i32, x1: i32, y1: i32)
        requires
            old(self).wf(),
        ensures
            final(self).wf(),
            final(self).pixels() == bit_write_line(
                old(self).pixels(),
                x0 as int,
                y0 as int,
                x1 as int,
                y1 as int,
                old(self).color_spec(),
            ),
            final(self).color_spec() == old(self).color_spec(),
            final(self).font_spec() == old(self).font_spec(),
            final(self).same_fonts(old(self)),
    {
        let c = self.color;
        if y0 == y1 {
            let (xs, xe) = if x0 < x1 {
                (x0, x1)
            } else {
                (x1, x0)
            };
            let span: i64 = xe as i64 - xs as i64 + 1;
            let len: u32 = if span > 0xffff_ffff {
                0xffff_ffff
            } else {
                span as u32
            };
            self.hline_at(xs as i64, y0 as i64, len, c);
            return ;
        }
        if x0 == x1 {
            let (ys, ye) = if y0 < y1 {
                (y0, y1)
            } else {
                (y1, y0)
            };
            let span: i64 = ye as i64 - ys as i64 + 1;
            let len: u32 = if span > 0xffff_ffff {
                0xffff_ffff
            } else {
                span as u32
            };
            self.vline_at(x0 as i64, ys as i64, len, c);
            return ;
        }

        let xa = x0 as i64;
        let ya = y0 as i64;
        let xb = x1 as i64;
        let yb = y1 as i64;
        let dx: i64 = if xb >= xa {
            xb - xa
        } else {
            xa - xb
        };
        let dy: i64 = if yb >= ya {
            ya - yb
        } else {
            yb - ya
        };
        let sx: i64 = if xa < xb {
            1
        } else {
            -1
        };
        let sy: i64 = if ya < yb {
            1
        } else {
            -1
        };
        let mut err: i64 = dx + dy;
        let mut x = xa;
        let mut y = ya;
        let ghost target = bit_write_line(
            old(self).pixels(),
            x0 as int,
            y0 as int,
            x1 as int,
            y1 as int,
            c,
        );
        assert(target == bit_line_from(
            self.pixels(),
            x as int,
            y as int,
            err as int,
            xb as int,
            yb as int,
            dx as int,
            dy as int,
            sx as int,
            sy as int,
            c,
        ));

        loop
            invariant_except_break
                self.wf(),
                1 <= dx <= 0x1_0000_0000,
                -0x1_0000_0000 <= dy <= -1,
                sx == 1 || sx == -1,
                sy == 1 || sy == -1,
                if sx == 1 {
                    xa <= x <= xb
                } else {
                    xb <= x <= xa
                },
                if sy == 1 {
                    ya <= y <= yb
                } else {
                    yb <= y <= ya
                },
                -0x8000_0000 <= xa <= 0x8000_0000,
                -0x8000_0000 <= xb <= 0x8000_0000,
                -0x8000_0000 <= ya <= 0x8000_0000,
                -0x8000_0000 <= yb <= 0x8000_0000,
                2 * dy <= err <= 2 * dx,
                bit_line_from(
                    self.pixels(),
                    x as int,
                    y as int,
                    err as int,
                    xb as int,
                    yb as int,
                    dx as int,
                    dy as int,
                    sx as int,
                    sy as int,
                    c,
                ) == target,
                self.color_spec() == old(self).color_spec(),
                self.font_spec() == old(self).font_spec(),
                self.same_fonts(old(self)),
            ensures
                self.wf(),
                self.pixels() == target,
                self.color_spec() == old(self).color_spec(),
                self.font_spec() == old(self).font_spec(),
                self.same_fonts(old(self)),
            decreases iabs2(xb as int - x as int) + iabs2(yb as int - y as int),
        {
            self.put_px(x, y, c);
            if x == xb && y == yb {
                break ;
            }
            let e2 = 2 * err;
            if e2 >= dy {
                if x == xb {
                    break ;
                }
                err = err + dy;
                x = x + sx;
            }
            if e2 <= dx {
                if y == yb {
                    break ;
                }
                err = err + dx;
                y = y + sy;
            }
        }
    }

    /// Draw a rectangle outline. A zero width or height is a no-op.
    pub fn draw_rect(&mut self, x: i32, y: i32, w: u32, h: u32)
        requires
            old(self).wf(),
        ensures
            final(self).wf(),
            final(self).pixels() == bit_write_rect(
                old(self).pixels(),
                x as int,
                y as int,
                w as int,
                h as int,
                old(self).color_spec(),
            ),
            final(self).color_spec() == old(self).color_spec(),
            final(self).font_spec() == old(self).font_spec(),
            final(self).same_fonts(old(self)),
    {
        if w == 0 || h == 0 {
            return ;
        }
        let c = self.color;
        let hh: u32 = if h >= 2 {
            h - 2
        } else {
            0
        };
        self.hline_at(x as i64, y as i64, w, c);
        self.hline_at(x as i64, y as i64 + h as i64 - 1, w, c);
        self.vline_at(x as i64, y as i64 + 1, hh, c);
        self.vline_at(x as i64 + w as i64 - 1, y as i64 + 1, hh, c);
    }

    /// Fill a rectangle row by row. A zero width or height is a no-op.
    pub fn fill_rect(&mut self, x: i32, y: i32, w: u32, h: u32)
        requires
            old(self).wf(),
        ensures
            final(self).wf(),
            final(self).pixels() == bit_write_box(
                old(self).pixels(),
                x as int,
                y as int,
                w as int,
                h as int,
                old(self).color_spec(),
            ),
            final(self).color_spec() == old(self).color_spec(),
            final(self).font_spec() == old(self).font_spec(),
            final(self).same_fonts(old(self)),
    {
        let c = self.color;
        self.box_at(x as i64, y as i64, w, h, c);
    }

    /// Fill a rectangle at a given color.
    fn box_at(&mut self, x: i64, y: i64, w: u32, h: u32, color: Color)
        requires
            old(self).wf(),
            -0x4000_0000_0000 <= x <= 0x4000_0000_0000,
            -0x4000_0000_0000 <= y <= 0x4000_0000_0000,
        ensures
            final(self).wf(),
            final(self).pixels() == bit_write_box(
                old(self).pixels(),
                x as int,
                y as int,
                w as int,
                h as int,
                color,
            ),
            final(self).color_spec() == old(self).color_spec(),
            final(self).font_spec() == old(self).font_spec(),
            final(self).same_fonts(old(self)),
    {
        let mut row: u32 = 0;
        while row < h
            invariant
                self.wf(),
                row <= h,
                -0x4000_0000_0000 <= x <= 0x4000_0000_0000,
                -0x4000_0000_0000 <= y <= 0x4000_0000_0000,
                self.pixels() == bit_write_box(
                    old(self).pixels(),
                    x as int,
                    y as int,
                    w as int,
                    row as int,
                    color,
                ),
                self.color_spec() == old(self).color_spec(),
                self.font_spec() == old(self).font_spec(),
                self.same_fonts(old(self)),
            decreases h - row,
        {
            self.hline_at(x, y + row as i64, w, color);
            row = row + 1;
        }
    }
}

} // verus!

verus! {

/// The packed rounded rectangle outline: clamp the radius, then four edges
/// and four quarter arcs; a clamped radius of zero degenerates to the
/// rectangle outline.
pub open spec fn bit_write_round_rect(
    buf: Seq<u8>,
    x: int,
    y: int,
    w: int,
    h: int,
    radius: int,
    c: Color,
) -> Seq<u8> {
    if w <= 0 || h <= 0 {
        buf
    } else {
        let r = imin2(imin2(radius, w / 2), h / 2);
        if r == 0 {
            bit_write_rect(buf, x, y, w, h, c)
        } else {
            let b1 = bit_write_hline(buf, x + r, y, w - 2 * r, c);
            let b2 = bit_write_hline(b1, x + r, y + h - 1, w - 2 * r, c);
            let b3 = bit_write_vline(b2, x, y + r, h - 2 * r, c);
            let b4 = bit_write_vline(b3, x + w - 1, y + r, h - 2 * r, c);
            let b5 = bit_write_quarter(b4, x + r, y + r, r, 0x01, c);
            let b6 = bit_write_quarter(b5, x + w - 1 - r, y + r, r, 0x02, c);
            let b7 = bit_write_quarter(b6, x + r, y + h - 1 - r, r, 0x04, c);
            bit_write_quarter(b7, x + w - 1 - r, y + h - 1 - r, r, 0x08, c)
        }
    }
}

/// The packed filled rounded rectangle: clamp the radius, then the center
/// band, the two caps and four quarter discs; a clamped radius of zero
/// degenerates to the filled rectangle.
pub open spec fn bit_write_fill_round_rect(
    buf: Seq<u8>,
    x: int,
    y: int,
    w: int,
    h: int,
    radius: int,
    c: Color,
) -> Seq<u8> {
    if w <= 0 || h <= 0 {
        buf
    } else {
        let r = imin2(imin2(radius, w / 2), h / 2);
        if r == 0 {
            bit_write_box(buf, x, y, w, h, c)
        } else {
            let b1 = bit_write_box(buf, x, y + r, w, h - 2 * r, c);
            let b2 = bit_write_box(b1, x + r, y, w - 2 * r, r, c);
            let b3 = bit_write_box(b2, x + r, y + h - r, w - 2 * r, r, c);
            let b4 = bit_write_fquarter(b3, x + r, y + r, r, 0x01, c);
            let b5 = bit_write_fquarter(b4, x + w - 1 - r, y + r, r, 0x02, c);
            let b6 = bit_write_fquarter(b5, x + r, y + h - 1 - r, r, 0x04, c);
            bit_write_fquarter(b6, x + w - 1 - r, y + h - 1 - r, r, 0x08, c)
        }
    }
}

/// Integer minimum.
pub open spec fn imin2(a: int, b: int) -> int {
    if a < b {
        a
    } else {
        b
    }
}

impl Canvas {
    /// Draw a circle outline with the midpoint walk from `(r, 0)`, the
    /// axis and diagonal steps reduced to their four unique points so no
    /// pixel is written twice; radius zero draws a single dot.
    pub fn draw_circle(&mut self, cx: i32, cy: i32, r: u32)
        requires
            old(self).wf(),
        ensures
            final(self).wf(),
            final(self).pixels() == bit_write_circle(
                old(self).pixels(),
                cx as int,
                cy as int,
                r as int,
                old(self).color_spec(),
            ),
            final(self).color_spec() == old(self).color_spec(),
            final(self).font_spec() == old(self).font_spec(),
            final(self).same_fonts(old(self)),
    {
        let c = self.color;
        if r == 0 {
            self.put_px(cx as i64, cy as i64, c);
            return ;
        }
        if r > 0x7fff_ffff {
            return ;
        }

        let mut x: i64 = r as i64;
        let mut y: i64 = 0;
        let mut err: i128 = 1 - x as i128;
        let ghost target = bit_write_circle(
            old(self).pixels(),
            cx as int,
            cy as int,
            r as int,
            c,
        );

        while x >= y
            invariant
                self.wf(),
                1 <= r <= 0x7fff_ffff,
                0 <= y <= r + 1,
                -1 <= x <= r,
                -0x8000_0000 <= cx as i64 <= 0x8000_0000,
                -0x8000_0000 <= cy as i64 <= 0x8000_0000,
                -(r as i128 + 2) - (y as i128 + 1) * 0x10_0000_0000 <= err,
                err <= (r as i128 + 2) + (y as i128 + 1) * 0x10_0000_0000,
                bit_circle_from(
                    self.pixels(),
                    cx as int,
                    cy as int,
                    x as int,
                    y as int,
                    err as int,
                    c,
                ) == target,
                self.color_spec() == old(self).color_spec(),
                self.font_spec() == old(self).font_spec(),
                self.same_fonts(old(self)),
            decreases x + 2 - y,
        {
            if x == y {
                self.put_px(cx as i64 + x, cy as i64 + x, c);
                self.put_px(cx as i64 - x, cy as i64 + x, c);
                self.put_px(cx as i64 - x, cy as i64 - x, c);
                self.put_px(cx as i64 + x, cy as i64 - x, c);
            } else if y == 0 {
                self.put_px(cx as i64 + x, cy as i64, c);
                self.put_px(cx as i64 - x, cy as i64, c);
                self.put_px(cx as i64, cy as i64 + x, c);
                self.put_px(cx as i64, cy as i64 - x, c);
            } else {
                self.put_px(cx as i64 + x, cy as i64 + y, c);
                self.put_px(cx as i64 + y, cy as i64 + x, c);
                self.put_px(cx as i64 - y, cy as i64 + x, c);
                self.put_px(cx as i64 - x, cy as i64 + y, c);
                self.put_px(cx as i64 - x, cy as i64 - y, c);
                self.put_px(cx as i64 - y, cy as i64 - x, c);
                self.put_px(cx as i64 + y, cy as i64 - x, c);
                self.put_px(cx as i64 + x, cy as i64 - y, c);
            }

            y = y + 1;
            if err < 0 {
                err = err + 2 * (y as i128) + 1;
            } else {
                x = x - 1;
                err = err + 2 * ((y as i128) - (x as i128) + 1);
            }
        }
    }

    /// Fill a circle row by row: each row's run reaches to the largest
    /// offset whose squared distance stays within the radius, so no pixel
    /// is written twice; radius zero draws a single dot.
    pub fn fill_circle(&mut self, cx: i32, cy: i32, r: u32)
        requires
            old(self).wf(),
        ensures
            final(self).wf(),
            final(self).pixels() == bit_write_disc(
                old(self).pixels(),
                cx as int,
                cy as int,
                r as int,
                old(self).color_spec(),
            ),
            final(self).color_spec() == old(self).color_spec(),
            final(self).font_spec() == old(self).font_spec(),
            final(self).same_fonts(old(self)),
    {
        let c = self.color;
        if r == 0 {
            self.put_px(cx as i64, cy as i64, c);
            return ;
        }
        if r > 0x7fff_ffff {
            return ;
        }

        let rl: i64 = r as i64;
        proof {
            assert(rl * rl <= 0x4000_0000_0000_0000) by (nonlinear_arith)
                requires
                    1 <= rl <= 0x7fff_ffff,
            ;
        }
        let r_sq: i64 = rl * rl;
        let mut dy: i64 = -rl;
        let ghost target = bit_write_disc(old(self).pixels(), cx as int, cy as int, r as int, c);
        proof {
            assert(target == bit_disc_rows(
                self.pixels(),
                cx as int,
                cy as int,
                r as int,
                dy as int,
                c,
            ));
        }

        while dy <= rl
            invariant
                self.wf(),
                1 <= rl <= 0x7fff_ffff,
                r_sq == rl * rl,
                -rl <= dy <= rl + 1,
                -0x8000_0000 <= cx as i64 <= 0x8000_0000,
                -0x8000_0000 <= cy as i64 <= 0x8000_0000,
                bit_disc_rows(self.pixels(), cx as int, cy as int, rl as int, dy as int, c)
                    == target,
                self.color_spec() == old(self).color_spec(),
                self.font_spec() == old(self).font_spec(),
                self.same_fonts(old(self)),
            decreases rl + 1 - dy,
        {
            proof {
                assert(0 <= dy * dy <= rl * rl) by (nonlinear_arith)
                    requires
                        -rl <= dy <= rl,
                        rl >= 1,
                ;
            }
            let y_sq: i64 = dy * dy;

            let mut e: i64 = 0;
            loop
                invariant_except_break
                    1 <= rl <= 0x7fff_ffff,
                    r_sq == rl * rl,
                    0 <= y_sq <= r_sq,
                    0 <= e <= rl,
                    extent_upto(r_sq as int, y_sq as int, e as int, rl as int) == extent_upto(
                        r_sq as int,
                        y_sq as int,
                        0,
                        rl as int,
                    ),
                ensures
                    0 <= e <= rl,
                    e as int == extent_upto(r_sq as int, y_sq as int, 0, rl as int),
                decreases rl - e,
            {
                if e >= rl {
                    break ;
                }
                proof {
                    assert(0 <= (e + 1) * (e + 1) <= 0x4000_0000_0000_0000) by (nonlinear_arith)
                        requires
                            0 <= e < rl <= 0x7fff_ffff,
                    ;
                }
                if (e + 1) * (e + 1) <= r_sq - y_sq {
                    e = e + 1;
                } else {
                    break ;
                }
            }

            self.hline_at(cx as i64 - e, cy as i64 + dy, (2 * e + 1) as u32, c);
            proof {
                assert(bit_disc_rows(self.pixels(), cx as int, cy as int, rl as int, dy as int + 1, c)
                    == target);
            }
            dy = dy + 1;
        }
    }

    /// Draw a quarter of a circle outline, masked by quadrant; radius zero
    /// draws a single dot.
    fn draw_circle_quarter(&mut self, cx: i64, cy: i64, r: u32, quadrant: u8)
        requires
            old(self).wf(),
            -0x2_0000_0000 <= cx <= 0x2_0000_0000,
            -0x2_0000_0000 <= cy <= 0x2_0000_0000,
            r <= 0x7fff_ffff,
        ensures
            final(self).wf(),
            final(self).pixels() == bit_write_quarter(
                old(self).pixels(),
                cx as int,
                cy as int,
                r as int,
                quadrant,
                old(self).color_spec(),
            ),
            final(self).color_spec() == old(self).color_spec(),
            final(self).font_spec() == old(self).font_spec(),
            final(self).same_fonts(old(self)),
    {
        let c = self.color;
        if r == 0 {
            self.put_px(cx, cy, c);
            return ;
        }

        let mut x: i64 = r as i64;
        let mut y: i64 = 0;
        let mut err: i128 = 1 - x as i128;
        let ghost target = bit_write_quarter(
            old(self).pixels(),
            cx as int,
            cy as int,
            r as int,
            quadrant,
            c,
        );

        while x >= y
            invariant
                self.wf(),
                1 <= r <= 0x7fff_ffff,
                0 <= y <= r + 1,
                -1 <= x <= r,
                -0x2_0000_0000 <= cx <= 0x2_0000_0000,
                -0x2_0000_0000 <= cy <= 0x2_0000_0000,
                -(r as i128 + 2) - (y as i128 + 1) * 0x10_0000_0000 <= err,
                err <= (r as i128 + 2) + (y as i128 + 1) * 0x10_0000_0000,
                bit_quarter_from(
                    self.pixels(),
                    cx as int,
                    cy as int,
                    x as int,
                    y as int,
                    err as int,
                    quadrant,
                    c,
                ) == target,
                self.color_spec() == old(self).color_spec(),
                self.font_spec() == old(self).font_spec(),
                self.same_fonts(old(self)),
            decreases x + 2 - y,
        {
            if quadrant & 0x01 != 0 {
                self.put_px(cx - x, cy - y, c);
                self.put_px(cx - y, cy - x, c);
            }
            if quadrant & 0x02 != 0 {
                self.put_px(cx + x, cy - y, c);
                self.put_px(cx + y, cy - x, c);
            }
            if quadrant & 0x04 != 0 {
                self.put_px(cx - x, cy + y, c);
                self.put_px(cx - y, cy + x, c);
            }
            if quadrant & 0x08 != 0 {
                self.put_px(cx + x, cy + y, c);
                self.put_px(cx + y, cy + x, c);
            }

            y = y + 1;
            if err < 0 {
                err = err + 2 * (y as i128) + 1;
            } else {
                x = x - 1;
                err = err + 2 * ((y as i128) - (x as i128) + 1);
            }
        }
    }

    /// Fill a quarter of a circle, masked by quadrant; radius zero draws a
    /// single dot.
    fn fill_circle_quarter(&mut self, cx: i64, cy: i64, r: u32, quadrant: u8)
        requires
            old(self).wf(),
            -0x2_0000_0000 <= cx <= 0x2_0000_0000,
            -0x2_0000_0000 <= cy <= 0x2_0000_0000,
            r <= 0x7fff_ffff,
        ensures
            final(self).wf(),
            final(self).pixels() == bit_write_fquarter(
                old(self).pixels(),
                cx as int,
                cy as int,
                r as int,
                quadrant,
                old(self).color_spec(),
            ),
            final(self).color_spec() == old(self).color_spec(),
            final(self).font_spec() == old(self).font_spec(),
            final(self).same_fonts(old(self)),
    {
        let c = self.color;
        if r == 0 {
            self.put_px(cx, cy, c);
            return ;
        }

        let mut x: i64 = r as i64;
        let mut y: i64 = 0;
        let mut err: i128 = 1 - x as i128;
        let ghost target = bit_write_fquarter(
            old(self).pixels(),
            cx as int,
            cy as int,
            r as int,
            quadrant,
            c,
        );

        while x >= y
            invariant
                self.wf(),
                1 <= r <= 0x7fff_ffff,
                0 <= y <= r + 1,
                -1 <= x <= r,
                -0x2_0000_0000 <= cx <= 0x2_0000_0000,
                -0x2_0000_0000 <= cy <= 0x2_0000_0000,
                -(r as i128 + 2) - (y as i128 + 1) * 0x10_0000_0000 <= err,
                err <= (r as i128 + 2) + (y as i128 + 1) * 0x10_0000_0000,
                bit_fquarter_from(
                    self.pixels(),
                    cx as int,
                    cy as int,
                    x as int,
                    y as int,
                    err as int,
                    quadrant,
                    c,
                ) == target,
                self.color_spec() == old(self).color_spec(),
                self.font_spec() == old(self).font_spec(),
                self.same_fonts(old(self)),
            decreases x + 2 - y,
        {
            if quadrant & 0x01 != 0 {
                self.hline_at(cx - x, cy - y, (x + 1) as u32, c);
                self.hline_at(cx - y, cy - x, (y + 1) as u32, c);
            }
            if quadrant & 0x02 != 0 {
                self.hline_at(cx, cy - y, (x + 1) as u32, c);
                self.hline_at(cx, cy - x, (y + 1) as u32, c);
            }
            if quadrant & 0x04 != 0 {
                self.hline_at(cx - x, cy + y, (x + 1) as u32, c);
                self.hline_at(cx - y, cy + x, (y + 1) as u32, c);
            }
            if quadrant & 0x08 != 0 {
                self.hline_at(cx, cy + y, (x + 1) as u32, c);
                self.hline_at(cx, cy + x, (y + 1) as u32, c);
            }

            y = y + 1;
            if err < 0 {
                err = err + 2 * (y as i128) + 1;
            } else {
                x = x - 1;
                err = err + 2 * ((y as i128) - (x as i128) + 1);
            }
        }
    }

    /// Draw a rounded rectangle outline. The radius is clamped to half the
    /// width and height first; a clamped radius of zero delegates to
    /// `draw_rect`.
    #[verifier::rlimit(60)]
    pub fn draw_round_rect(&mut self, x: i32, y: i32, w: u32, h: u32, r: u32)
        requires
            old(self).wf(),
        ensures
            final(self).wf(),
            final(self).pixels() == bit_write_round_rect(
                old(self).pixels(),
                x as int,
                y as int,
                w as int,
                h as int,
                r as int,
                old(self).color_spec(),
            ),
            final(self).color_spec() == old(self).color_spec(),
            final(self).font_spec() == old(self).font_spec(),
            final(self).same_fonts(old(self)),
    {
        if w == 0 || h == 0 {
            return ;
        }
        let c = self.color;
        let mut rr = r;
        if rr > w / 2 {
            rr = w / 2;
        }
        if rr > h / 2 {
            rr = h / 2;
        }
        if rr == 0 {
            self.draw_rect(x, y, w, h);
            return ;
        }
        let xl = x as i64;
        let yt = y as i64;
        let wl = w as i64;
        let hl = h as i64;
        let rl = rr as i64;
        let edge: u32 = #[verifier::truncate] ((wl - 2 * rl) as u32);
        let side: u32 = #[verifier::truncate] ((hl - 2 * rl) as u32);
        proof {
            assert(wl - 2 * rl >= 0 && hl - 2 * rl >= 0);
        }
        self.hline_at(xl + rl, yt, edge, c);
        self.hline_at(xl + rl, yt + hl - 1, edge, c);
        self.vline_at(xl, yt + rl, side, c);
        self.vline_at(xl + wl - 1, yt + rl, side, c);
        self.draw_circle_quarter(xl + rl, yt + rl, rr, 0x01);
        self.draw_circle_quarter(xl + wl - 1 - rl, yt + rl, rr, 0x02);
        self.draw_circle_quarter(xl + rl, yt + hl - 1 - rl, rr, 0x04);
        self.draw_circle_quarter(xl + wl - 1 - rl, yt + hl - 1 - rl, rr, 0x08);
    }

    /// Fill a rounded rectangle. The radius is clamped to half the width
    /// and height first; a clamped radius of zero delegates to `fill_rect`.
    #[verifier::rlimit(60)]
    pub fn fill_round_rect(&mut self, x: i32, y: i32, w: u32, h: u32, r: u32)
        requires
            old(self).wf(),
        ensures
            final(self).wf(),
            final(self).pixels() == bit_write_fill_round_rect(
                old(self).pixels(),
                x as int,
                y as int,
                w as int,
                h as int,
                r as int,
                old(self).color_spec(),
            ),
            final(self).color_spec() == old(self).color_spec(),
            final(self).font_spec() == old(self).font_spec(),
            final(self).same_fonts(old(self)),
    {
        if w == 0 || h == 0 {
            return ;
        }
        let c = self.color;
        let mut rr = r;
        if rr > w / 2 {
            rr = w / 2;
        }
        if rr > h / 2 {
            rr = h / 2;
        }
        if rr == 0 {
            let cc = self.color;
            self.box_at(x as i64, y as i64, w, h, cc);
            return ;
        }
        let xl = x as i64;
        let yt = y as i64;
        let wl = w as i64;
        let hl = h as i64;
        let rl = rr as i64;
        let edge: u32 = #[verifier::truncate] ((wl - 2 * rl) as u32);
        let band: u32 = #[verifier::truncate] ((hl - 2 * rl) as u32);
        proof {
            assert(wl - 2 * rl >= 0 && hl - 2 * rl >= 0);
        }
        self.box_at(xl, yt + rl, w, band, c);
        self.box_at(xl + rl, yt, edge, rr, c);
        self.box_at(xl + rl, yt + hl - rl, edge, rr, c);
        self.fill_circle_quarter(xl + rl, yt + rl, rr, 0x01);
        self.fill_circle_quarter(xl + wl - 1 - rl, yt + rl, rr, 0x02);
        self.fill_circle_quarter(xl + rl, yt + hl - 1 - rl, rr, 0x04);
        self.fill_circle_quarter(xl + wl - 1 - rl, yt + hl - 1 - rl, rr, 0x08);
    }
}

} // verus!

verus! {

/// Copy a byte vector.
fn copy_bytes(v: &Vec<u8>) -> (r: Vec<u8>)
    ensures
        r@ == v@,
{
    let mut out: Vec<u8> = Vec::new();
    let mut i: usize = 0;
    while i < v.len()
        invariant
            i <= v@.len(),
            out@ == v@.take(i as int),
        decreases v@.len() - i,
    {
        out.push(v[i]);
        proof {
            assert(out@ =~= v@.take(i as int + 1));
        }
        i = i + 1;
    }
    proof {
        assert(v@.take(v@.len() as int) =~= v@);
    }
    out
}

impl Canvas {
    /// A copy of the resident font for the current selection.
    fn snapshot_font(&self) -> (r: BitmapFont)
        ensures
            r@ == self.font_data_spec(self.font_spec())@,
    {
        let f = match self.font {
            Font::Primary => &self.font_primary,
            Font::Secondary => &self.font_secondary,
            Font::Keyboard => &self.font_keyboard,
            Font::BigNumbers => &self.font_big,
        };
        BitmapFont {
            width: f.width,
            height: f.height,
            first: f.first,
            count: f.count,
            rows: copy_bytes(&f.rows),
        }
    }

    /// Draw one glyph cell at `(x, y)`: row bytes hold the cell pixels in
    /// bits 6 down to 1, left to right; set bits are drawn, clear bits are
    /// skipped.
    fn draw_glyph(&mut self, x: i128, y: i128, f: &BitmapFont, code: u32, color: Color)
        requires
            old(self).wf(),
            Canvas::font_ok(*f),
            f@.has_glyph(code as int),
            -0x100_0000_0000_0000_0000 <= x <= 0x100_0000_0000_0000_0000,
            -0x100_0000_0000_0000_0000 <= y <= 0x100_0000_0000_0000_0000,
        ensures
            final(self).wf(),
            final(self).pixels() == bit_write_glyph_rows(
                old(self).pixels(),
                f@,
                code as int,
                x as int,
                y as int,
                f@.height,
                color,
            ),
            final(self).color_spec() == old(self).color_spec(),
            final(self).font_spec() == old(self).font_spec(),
            final(self).same_fonts(old(self)),
    {
        proof {
            assert((code - f.first) * f.height + f.height <= f.count * f.height)
                by (nonlinear_arith)
                requires
                    f.first <= code < f.first + f.count,
                    f.height >= 0,
            ;
            assert(f.count * f.height < 0x100_0000_0000) by (nonlinear_arith)
                requires
                    f.count <= 0xffff_ffffu32,
                    f.height <= 0xffu8,
            ;
        }
        let total: usize = f.rows.len();
        proof {
            assert((code - f.first) * f.height + f.height <= total);
        }
        let glyph_base: usize = (code - f.first) as usize * f.height as usize;
        let mut row: usize = 0;
        while row < f.height as usize
            invariant
                self.wf(),
                Canvas::font_ok(*f),
                f@.has_glyph(code as int),
                glyph_base == (code - f.first) * f.height,
                glyph_base + f.height <= f.rows@.len(),
                f.rows@.len() <= usize::MAX,
                row <= f.height,
                -0x100_0000_0000_0000_0000 <= x <= 0x100_0000_0000_0000_0000,
                -0x100_0000_0000_0000_0000 <= y <= 0x100_0000_0000_0000_0000,
                self.pixels() == bit_write_glyph_rows(
                    old(self).pixels(),
                    f@,
                    code as int,
                    x as int,
                    y as int,
                    row as int,
                    color,
                ),
                self.color_spec() == old(self).color_spec(),
                self.font_spec() == old(self).font_spec(),
                self.same_fonts(old(self)),
            decreases f.height - row,
        {
            let row_data = f.rows[glyph_base + row];
            proof {
                assert(row_data == f@.glyph_row(code as int, row as int));
            }
            let mut col: usize = 0;
            let ghost row_entry = self.pixels();
            while col < f.width as usize
                invariant
                    self.wf(),
                    Canvas::font_ok(*f),
                    f@.has_glyph(code as int),
                    col <= f.width,
                    row < f.height,
                    row_data == f@.glyph_row(code as int, row as int),
                    -0x100_0000_0000_0000_0000 <= x <= 0x100_0000_0000_0000_0000,
                    -0x100_0000_0000_0000_0000 <= y <= 0x100_0000_0000_0000_0000,
                    self.pixels() == bit_write_glyph_cols(
                        row_entry,
                        f@,
                        code as int,
                        x as int,
                        y as int,
                        row as int,
                        col as int,
                        color,
                    ),
                    self.color_spec() == old(self).color_spec(),
                    self.font_spec() == old(self).font_spec(),
                    self.same_fonts(old(self)),
                decreases f.width - col,
            {
                let bit_index: u32 = (6 - col) as u32;
                if (row_data >> bit_index) & 1 != 0 {
                    let gx: i128 = x + col as i128;
                    let gy: i128 = y + row as i128;
                    if 0 <= gx && gx < 128 && 0 <= gy && gy < 64 {
                        self.put_px(gx as i64, gy as i64, color);
                    } else {
                        proof {
                            assert(bit_write_px(self.pixels(), gx as int, gy as int, color)
                                == self.pixels());
                        }
                    }
                }
                col = col + 1;
            }
            row = row + 1;
        }
    }

    /// Draw a string at `(x, y)` in the current font and color: each glyph
    /// advances the pen by the cell width; characters without a glyph are
    /// skipped.
    pub fn draw_str(&mut self, x: i32, y: i32, text: &str)
        requires
            old(self).wf(),
        ensures
            final(self).wf(),
            final(self).pixels() == bit_write_str(
                old(self).pixels(),
                old(self).font_data_spec(old(self).font_spec())@,
                text@,
                x as int,
                y as int,
                old(self).color_spec(),
            ),
            text@.len() == 0 ==> final(self).pixels() == old(self).pixels(),
            final(self).color_spec() == old(self).color_spec(),
            final(self).font_spec() == old(self).font_spec(),
            final(self).same_fonts(old(self)),
    {
        let f = self.snapshot_font();
        let color = self.color;
        let n = text.unicode_len();
        let mut i: usize = 0;
        let mut cursor: i128 = x as i128;
        proof {
            assert(text@.skip(0) =~= text@);
        }

        while i < n
            invariant
                self.wf(),
                Canvas::font_ok(f),
                n == text@.len(),
                i <= n,
                x as int - 1 <= cursor as int <= x as int + 7 * (i as int),
                -0x8000_0000 <= x as int <= 0x8000_0000,
                bit_write_str(self.pixels(), f@, text@.skip(i as int), cursor as int, y as int, color)
                    == bit_write_str(old(self).pixels(), f@, text@, x as int, y as int, color),
                f@ == old(self).font_data_spec(old(self).font_spec())@,
                color == old(self).color_spec(),
                self.color_spec() == old(self).color_spec(),
                self.font_spec() == old(self).font_spec(),
                self.same_fonts(old(self)),
            decreases n - i,
        {
            let ch = text.get_char(i);
            let code = ch as u32;
            proof {
                assert(text@.skip(i as int)[0] == text@[i as int]);
                assert(text@.skip(i as int).skip(1) =~= text@.skip(i as int + 1));
            }
            if code >= f.first && code - f.first < f.count {
                self.draw_glyph(cursor, y as i128, &f, code, color);
                cursor = cursor + f.width as i128;
            } else {
                proof {
                    assert(!f@.has_glyph(code as int));
                }
            }
            i = i + 1;
        }
        proof {
            assert(text@.skip(n as int) =~= Seq::<char>::empty());
        }
    }

    /// The pixel width of a string in the current font: the character
    /// count times the cell width, reduced to 32 bits.
    pub fn string_width(&self, text: &str) -> (r: u32)
        requires
            self.wf(),
        ensures
            r == bit_string_width(text@, self.font_data_spec(self.font_spec())@.width),
    {
        let f = match self.font {
            Font::Primary => &self.font_primary,
            Font::Secondary => &self.font_secondary,
            Font::Keyboard => &self.font_keyboard,
            Font::BigNumbers => &self.font_big,
        };
        let n = text.unicode_len();
        proof {
            assert(*f == self.font_data_spec(self.font_spec()));
            assert(0 <= (n as int) * (f.width as int) < 0x1_0000_0000_0000_0000_0000)
                by (nonlinear_arith)
                requires
                    0 <= (n as int) && (n as int) < 0x1_0000_0000_0000_0000,
                    0 <= (f.width as int) && (f.width as int) <= 255,
            ;
        }
        let wide: u128 = n as u128 * f.width as u128;
        let reduced: u128 = wide % 0x1_0000_0000;
        reduced as u32
    }
}

} // verus!

verus! {

/// Every requested corner radius at or above half the smaller side draws
/// the same rounded rectangle: the radius is clamped before any pixel is
/// written.
pub proof fn lemma_round_rect_radius_clamped(
    buf: Seq<u8>,
    x: int,
    y: int,
    w: int,
    h: int,
    r1: int,
    r2: int,
    c: Color,
)
    requires
        imin2(w / 2, h / 2) <= r1,
        imin2(w / 2, h / 2) <= r2,
    ensures
        bit_write_round_rect(buf, x, y, w, h, r1, c) == bit_write_round_rect(buf, x, y, w, h, r2, c),
        bit_write_fill_round_rect(buf, x, y, w, h, r1, c) == bit_write_fill_round_rect(
            buf,
            x,
            y,
            w,
            h,
            r2,
            c,
        ),
{
    assert(imin2(imin2(r1, w / 2), h / 2) == imin2(imin2(r2, w / 2), h / 2));
}

} // verus!

verus! {

/// The stored bit of a window coordinate in the packed buffer.
pub open spec fn bit_get(buf: Seq<u8>, x: int, y: int) -> u8 {
    (buf[byte_index(x, y)] >> bit_shift(x)) & 1
}

/// The bit a pixel write stores: `White` clears, `Black` sets, `Xor`
/// toggles.
pub open spec fn bit_of(c: Color, prev: u8) -> u8 {
    match c {
        Color::White => 0,
        Color::Black => 1,
        Color::Xor => prev ^ 1,
    }
}

/// Packed positions are within the buffer and distinct coordinates land on
/// distinct positions.
proof fn lemma_bit_position(x: int, y: int, px: int, py: int)
    requires
        bit_in_window(x, y),
        bit_in_window(px, py),
    ensures
        0 <= byte_index(x, y) < 1024,
        (y * 128 + x) == (py * 128 + px) ==> x == px && y == py,
        (y * 128 + x) % 8 == x % 8,
        byte_index(x, y) == byte_index(px, py) && (x != px || y != py) ==> x % 8 != px % 8,
{
    assert(0 <= (y * 128 + x) / 8 < 1024) by (nonlinear_arith)
        requires
            0 <= x < 128,
            0 <= y < 64,
    ;
    assert((y * 128 + x) == (py * 128 + px) ==> x == px && y == py) by (nonlinear_arith)
        requires
            0 <= x < 128 && 0 <= y < 64,
            0 <= px < 128 && 0 <= py < 64,
    ;
    assert((y * 128 + x) % 8 == x % 8 && (py * 128 + px) % 8 == px % 8) by (nonlinear_arith)
        requires
            0 <= x < 128 && 0 <= y < 64,
            0 <= px < 128 && 0 <= py < 64,
    ;
    let p1 = y * 128 + x;
    let p2 = py * 128 + px;
    if byte_index(x, y) == byte_index(px, py) && (x != px || y != py) {
        assert(p1 != p2);
        assert(p1 / 8 == p2 / 8 && p1 != p2 ==> p1 % 8 != p2 % 8) by (nonlinear_arith);
    }
}

/// A pixel write changes at most the addressed bit, and leaves the buffer
/// untouched when the coordinate is outside the window.
pub proof fn lemma_bit_write_px_pointwise(
    buf: Seq<u8>,
    x: int,
    y: int,
    c: Color,
    px: int,
    py: int,
)
    requires
        buf.len() == 1024,
        bit_in_window(px, py),
    ensures
        bit_write_px(buf, x, y, c).len() == buf.len(),
        bit_get(bit_write_px(buf, x, y, c), px, py) == (if px == x && py == y {
            bit_of(c, bit_get(buf, px, py))
        } else {
            bit_get(buf, px, py)
        }),
{
    if bit_in_window(x, y) {
        lemma_bit_position(x, y, px, py);
        let b = buf[byte_index(x, y)];
        let s1 = bit_shift(x);
        let s2 = bit_shift(px);
        if x == px && y == py {
            assert((((b & !(1u8 << s1)) >> s1) & 1) == 0 && (((b | (1u8 << s1)) >> s1) & 1) == 1
                && (((b ^ (1u8 << s1)) >> s1) & 1) == ((b >> s1) & 1) ^ 1) by (bit_vector)
                requires
                    s1 < 8,
            ;
        } else if byte_index(x, y) == byte_index(px, py) {
            assert((((b & !(1u8 << s1)) >> s2) & 1) == ((b >> s2) & 1) && (((b | (1u8 << s1))
                >> s2) & 1) == ((b >> s2) & 1) && (((b ^ (1u8 << s1)) >> s2) & 1) == ((b >> s2)
                & 1)) by (bit_vector)
                requires
                    s1 < 8,
                    s2 < 8,
                    s1 != s2,
            ;
        }
    }
}

/// Pointwise description of a packed horizontal run: each member bit is
/// written exactly once; every other bit keeps its value.
pub proof fn lemma_bit_hline_pointwise(
    buf: Seq<u8>,
    x: int,
    y: int,
    len: int,
    c: Color,
    px: int,
    py: int,
)
    requires
        buf.len() == 1024,
        bit_in_window(px, py),
    ensures
        bit_write_hline(buf, x, y, len, c).len() == buf.len(),
        bit_get(bit_write_hline(buf, x, y, len, c), px, py) == (if py == y && x <= px < x + len {
            bit_of(c, bit_get(buf, px, py))
        } else {
            bit_get(buf, px, py)
        }),
    decreases len,
{
    if len > 0 {
        lemma_bit_hline_pointwise(buf, x, y, len - 1, c, px, py);
        lemma_bit_write_px_pointwise(
            bit_write_hline(buf, x, y, len - 1, c),
            x + len - 1,
            y,
            c,
            px,
            py,
        );
    }
}

/// Pointwise description of a packed vertical run.
pub proof fn lemma_bit_vline_pointwise(
    buf: Seq<u8>,
    x: int,
    y: int,
    len: int,
    c: Color,
    px: int,
    py: int,
)
    requires
        buf.len() == 1024,
        bit_in_window(px, py),
    ensures
        bit_write_vline(buf, x, y, len, c).len() == buf.len(),
        bit_get(bit_write_vline(buf, x, y, len, c), px, py) == (if px == x && y <= py < y + len {
            bit_of(c, bit_get(buf, px, py))
        } else {
            bit_get(buf, px, py)
        }),
    decreases len,
{
    if len > 0 {
        lemma_bit_vline_pointwise(buf, x, y, len - 1, c, px, py);
        lemma_bit_write_px_pointwise(
            bit_write_vline(buf, x, y, len - 1, c),
            x,
            y + len - 1,
            c,
            px,
            py,
        );
    }
}

/// Pointwise description of the packed rectangle outline: every perimeter
/// bit is written, the corners exactly once. For the overwriting colors
/// this holds for any size; for XOR it asks both sides to be at least two
/// pixels, so that every perimeter bit is toggled exactly once.
pub proof fn lemma_bit_rect_pointwise(
    buf: Seq<u8>,
    x: int,
    y: int,
    w: int,
    h: int,
    c: Color,
    px: int,
    py: int,
)
    requires
        buf.len() == 1024,
        bit_in_window(px, py),
        c == Color::Xor ==> 2 <= w && 2 <= h,
    ensures
        bit_write_rect(buf, x, y, w, h, c).len() == buf.len(),
        bit_get(bit_write_rect(buf, x, y, w, h, c), px, py) == (if w > 0 && h > 0
            && crate::canvas::on_frame(x, y, w, h, px, py) {
            bit_of(c, bit_get(buf, px, py))
        } else {
            bit_get(buf, px, py)
        }),
{
    if w > 0 && h > 0 {
        let hh = if h >= 2 {
            h - 2
        } else {
            0int
        };
        let b1 = bit_write_hline(buf, x, y, w, c);
        let b2 = bit_write_hline(b1, x, y + h - 1, w, c);
        let b3 = bit_write_vline(b2, x, y + 1, hh, c);
        lemma_bit_hline_pointwise(buf, x, y, w, c, px, py);
        lemma_bit_hline_pointwise(b1, x, y + h - 1, w, c, px, py);
        lemma_bit_vline_pointwise(b2, x, y + 1, hh, c, px, py);
        lemma_bit_vline_pointwise(b3, x + w - 1, y + 1, hh, c, px, py);
    }
}

} // verus!

verus! {

/// Number of set bits in row `y` among columns below `n`.
pub open spec fn bit_count_in_row(buf: Seq<u8>, y: int, n: int) -> int
    decreases n,
{
    if n <= 0 {
        0
    } else {
        bit_count_in_row(buf, y, n - 1) + if bit_get(buf, n - 1, y) == 1 {
            1int
        } else {
            0int
        }
    }
}

/// Number of set bits in all rows below `n`.
pub open spec fn bit_count_rows(buf: Seq<u8>, n: int) -> int
    decreases n,
{
    if n <= 0 {
        0
    } else {
        bit_count_rows(buf, n - 1) + bit_count_in_row(buf, n - 1, 128)
    }
}

/// Number of set bits on the whole packed display.
pub open spec fn bit_black_count(buf: Seq<u8>) -> int {
    bit_count_rows(buf, 64)
}

/// Count of a row whose set bits form the interval `[a, b)`.
proof fn lemma_bit_row_interval(buf: Seq<u8>, yr: int, a: int, b: int, n: int)
    requires
        0 <= a <= b,
        0 <= n <= 128,
        forall|px: int| 0 <= px < 128 ==> (bit_get(buf, px, yr) == 1 <==> a <= px < b),
    ensures
        bit_count_in_row(buf, yr, n) == (if n <= a {
            0int
        } else if n <= b {
            n - a
        } else {
            b - a
        }),
    decreases n,
{
    if n > 0 {
        lemma_bit_row_interval(buf, yr, a, b, n - 1);
    }
}

/// Count of a row whose set bits are exactly the two columns `x1`, `x2`.
proof fn lemma_bit_row_pair(buf: Seq<u8>, yr: int, x1: int, x2: int, n: int)
    requires
        0 <= x1 < x2 < 128,
        0 <= n <= 128,
        forall|px: int| 0 <= px < 128 ==> (bit_get(buf, px, yr) == 1 <==> (px == x1 || px == x2)),
    ensures
        bit_count_in_row(buf, yr, n) == (if n <= x1 {
            0int
        } else if n <= x2 {
            1int
        } else {
            2int
        }),
    decreases n,
{
    if n > 0 {
        lemma_bit_row_pair(buf, yr, x1, x2, n - 1);
    }
}

/// Count of a row with no set bit.
proof fn lemma_bit_row_empty(buf: Seq<u8>, yr: int, n: int)
    requires
        0 <= n <= 128,
        forall|px: int| 0 <= px < 128 ==> bit_get(buf, px, yr) != 1,
    ensures
        bit_count_in_row(buf, yr, n) == 0,
    decreases n,
{
    if n > 0 {
        lemma_bit_row_empty(buf, yr, n - 1);
    }
}

/// Running total of set bits over the rows of a packed buffer whose set
/// bits are exactly a rectangle outline.
proof fn lemma_bit_rect_rows(buf: Seq<u8>, x: int, y: int, w: int, h: int, n: int)
    requires
        2 <= w,
        2 <= h,
        0 <= x,
        x + w <= 128,
        0 <= y,
        y + h <= 64,
        0 <= n <= 64,
        forall|px: int, py: int|
            bit_in_window(px, py) ==> (bit_get(buf, px, py) == 1 <==> crate::canvas::on_frame(
                x,
                y,
                w,
                h,
                px,
                py,
            )),
    ensures
        bit_count_rows(buf, n) == (if n <= y {
            0int
        } else if n <= y + h - 1 {
            w + 2 * (n - y - 1)
        } else {
            2 * w + 2 * (h - 2)
        }),
    decreases n,
{
    if n > 0 {
        lemma_bit_rect_rows(buf, x, y, w, h, n - 1);
        let yr = n - 1;
        if yr < y || yr >= y + h {
            assert forall|px: int| 0 <= px < 128 implies bit_get(buf, px, yr) != 1 by {
                assert(bit_in_window(px, yr));
                assert(!crate::canvas::on_frame(x, y, w, h, px, yr));
            }
            lemma_bit_row_empty(buf, yr, 128);
        } else if yr == y || yr == y + h - 1 {
            assert forall|px: int| 0 <= px < 128 implies (bit_get(buf, px, yr) == 1 <==> x <= px
                < x + w) by {
                assert(bit_in_window(px, yr));
            }
            lemma_bit_row_interval(buf, yr, x, x + w, 128);
        } else {
            assert forall|px: int| 0 <= px < 128 implies (bit_get(buf, px, yr) == 1 <==> (px == x
                || px == x + w - 1)) by {
                assert(bit_in_window(px, yr));
            }
            lemma_bit_row_pair(buf, yr, x, x + w - 1, 128);
        }
    }
}

/// Drawing a rectangle outline in black on a cleared packed canvas sets
/// exactly `2 * w + 2 * (h - 2)` bits when the rectangle lies inside the
/// window and both sides are at least two pixels long — and the outline is
/// exactly the boundary of the filled rectangle.
pub proof fn lemma_bit_rect_pixel_count(b0: Seq<u8>, x: int, y: int, w: int, h: int)
    requires
        b0.len() == 1024,
        forall|i: int| 0 <= i < b0.len() ==> b0[i] == 0,
        2 <= w,
        2 <= h,
        0 <= x,
        x + w <= 128,
        0 <= y,
        y + h <= 64,
    ensures
        bit_black_count(bit_write_rect(b0, x, y, w, h, Color::Black)) == 2 * w + 2 * (h - 2),
{
    let b1 = bit_write_rect(b0, x, y, w, h, Color::Black);
    assert forall|px: int, py: int| bit_in_window(px, py) implies (bit_get(b1, px, py) == 1
        <==> crate::canvas::on_frame(x, y, w, h, px, py)) by {
        lemma_bit_rect_pointwise(b0, x, y, w, h, Color::Black, px, py);
        lemma_bit_position(px, py, px, py);
        let byte0 = b0[byte_index(px, py)];
        let sh = bit_shift(px);
        assert((byte0 >> sh) & 1 == 0) by (bit_vector)
            requires
                byte0 == 0,
        ;
    }
    lemma_bit_rect_rows(b1, x, y, w, h, 64);
}

} // verus!
