//! The 128x64 framebuffer with one byte per pixel (0 = white, 1 = black)
//! and the drawing primitives: dot, Bresenham line, frame, box, rounded
//! frame and box, midpoint circle and disc, with XOR-safe circle variants.
//!
//! Every primitive is specified by a spec-level buffer transformer; the
//! transformers for single pixels, horizontal and vertical lines also have
//! pointwise characterizations, from which the laws about frames, boxes
//! and XOR circles are proved.

use vstd::prelude::*;
use vstd::string::StringSliceAdditionalSpecFns;

use crate::types::Color;
use crate::types::Font;

verus! {

/// Display width in pixels.
pub const WIDTH: u32 = 128;

/// Display height in pixels.
pub const HEIGHT: u32 = 64;

/// Whether the coordinate lies inside the display window.
pub open spec fn in_window(x: int, y: int) -> bool {
    0 <= x < 128 && 0 <= y < 64
}

/// Buffer index of a window coordinate (row-major, one byte per pixel).
pub open spec fn pix(x: int, y: int) -> int {
    y * 128 + x
}

/// The byte stored when a pixel is written in the given color over the
/// previous byte: `White` stores 0, `Black` stores 1, `Xor` toggles bit 0.
pub open spec fn pixel_write(c: Color, prev: u8) -> u8 {
    match c {
        Color::White => 0,
        Color::Black => 1,
        Color::Xor => prev ^ 1,
    }
}

/// Write one pixel, silently dropping writes outside the window.
pub open spec fn write_px(buf: Seq<u8>, x: int, y: int, c: Color) -> Seq<u8> {
    if in_window(x, y) {
        buf.update(pix(x, y), pixel_write(c, buf[pix(x, y)]))
    } else {
        buf
    }
}

/// Write a horizontal run of `len` pixels starting at `(x, y)`.
pub open spec fn write_hline(buf: Seq<u8>, x: int, y: int, len: int, c: Color) -> Seq<u8>
    decreases len,
{
    if len <= 0 {
        buf
    } else {
        write_px(write_hline(buf, x, y, len - 1, c), x + len - 1, y, c)
    }
}

/// Write a vertical run of `len` pixels starting at `(x, y)`.
pub open spec fn write_vline(buf: Seq<u8>, x: int, y: int, len: int, c: Color) -> Seq<u8>
    decreases len,
{
    if len <= 0 {
        buf
    } else {
        write_px(write_vline(buf, x, y, len - 1, c), x, y + len - 1, c)
    }
}

/// Write a filled `w` by `h` rectangle as `h` horizontal runs.
pub open spec fn write_box(buf: Seq<u8>, x: int, y: int, w: int, h: int, c: Color) -> Seq<u8>
    decreases h,
{
    if h <= 0 {
        buf
    } else {
        write_hline(write_box(buf, x, y, w, h - 1, c), x, y + h - 1, w, c)
    }
}

/// Write a `w` by `h` rectangle outline: the top and bottom rows, then the
/// two side runs inset by one row at each end, so every corner is written
/// exactly once.
pub open spec fn write_frame(buf: Seq<u8>, x: int, y: int, w: int, h: int, c: Color) -> Seq<u8> {
    if w <= 0 || h <= 0 {
        buf
    } else {
        let hh = if h >= 2 {
            h - 2
        } else {
            0
        };
        write_vline(
            write_vline(
                write_hline(write_hline(buf, x, y, w, c), x, y + h - 1, w, c),
                x,
                y + 1,
                hh,
                c,
            ),
            x + w - 1,
            y + 1,
            hh,
            c,
        )
    }
}

/// Membership in the outline of the `w` by `h` rectangle at `(x, y)`.
pub open spec fn on_frame(x: int, y: int, w: int, h: int, px: int, py: int) -> bool {
    x <= px < x + w && y <= py < y + h && (py == y || py == y + h - 1 || px == x || px == x + w - 1)
}

/// Membership in the filled `w` by `h` rectangle at `(x, y)`.
pub open spec fn in_box(x: int, y: int, w: int, h: int, px: int, py: int) -> bool {
    x <= px < x + w && y <= py < y + h
}

/// A pixel write changes at most the addressed cell, and leaves the buffer
/// untouched when the coordinate is outside the window.
pub proof fn lemma_write_px_pointwise(buf: Seq<u8>, x: int, y: int, c: Color, px: int, py: int)
    requires
        buf.len() == 128 * 64,
        in_window(px, py),
    ensures
        write_px(buf, x, y, c).len() == buf.len(),
        write_px(buf, x, y, c)[pix(px, py)] == (if px == x && py == y {
            pixel_write(c, buf[pix(px, py)])
        } else {
            buf[pix(px, py)]
        }),
{
    if in_window(x, y) {
        assert(pix(x, y) == pix(px, py) ==> x == px && y == py) by (nonlinear_arith)
            requires
                in_window(x, y),
                in_window(px, py),
                pix(x, y) == y * 128 + x,
                pix(px, py) == py * 128 + px,
        ;
        assert(0 <= pix(x, y) < 128 * 64) by (nonlinear_arith)
            requires
                in_window(x, y),
                pix(x, y) == y * 128 + x,
        ;
    }
}

/// Pointwise description of a horizontal run: each member cell is written
/// exactly once; every other cell keeps its value.
pub proof fn lemma_write_hline_pointwise(
    buf: Seq<u8>,
    x: int,
    y: int,
    len: int,
    c: Color,
    px: int,
    py: int,
)
    requires
        buf.len() == 128 * 64,
        in_window(px, py),
    ensures
        write_hline(buf, x, y, len, c).len() == buf.len(),
        write_hline(buf, x, y, len, c)[pix(px, py)] == (if py == y && x <= px < x + len {
            pixel_write(c, buf[pix(px, py)])
        } else {
            buf[pix(px, py)]
        }),
    decreases len,
{
    if len > 0 {
        lemma_write_hline_pointwise(buf, x, y, len - 1, c, px, py);
        lemma_write_px_pointwise(write_hline(buf, x, y, len - 1, c), x + len - 1, y, c, px, py);
    }
}

/// Pointwise description of a vertical run.
pub proof fn lemma_write_vline_pointwise(
    buf: Seq<u8>,
    x: int,
    y: int,
    len: int,
    c: Color,
    px: int,
    py: int,
)
    requires
        buf.len() == 128 * 64,
        in_window(px, py),
    ensures
        write_vline(buf, x, y, len, c).len() == buf.len(),
        write_vline(buf, x, y, len, c)[pix(px, py)] == (if px == x && y <= py < y + len {
            pixel_write(c, buf[pix(px, py)])
        } else {
            buf[pix(px, py)]
        }),
    decreases len,
{
    if len > 0 {
        lemma_write_vline_pointwise(buf, x, y, len - 1, c, px, py);
        lemma_write_px_pointwise(write_vline(buf, x, y, len - 1, c), x, y + len - 1, c, px, py);
    }
}

/// Pointwise description of a filled rectangle: every cell of the rectangle
/// is written exactly once (rows are disjoint), so the description holds for
/// the XOR color as well.
pub proof fn lemma_write_box_pointwise(
    buf: Seq<u8>,
    x: int,
    y: int,
    w: int,
    h: int,
    c: Color,
    px: int,
    py: int,
)
    requires
        buf.len() == 128 * 64,
        in_window(px, py),
    ensures
        write_box(buf, x, y, w, h, c).len() == buf.len(),
        write_box(buf, x, y, w, h, c)[pix(px, py)] == (if in_box(x, y, w, h, px, py) {
            pixel_write(c, buf[pix(px, py)])
        } else {
            buf[pix(px, py)]
        }),
    decreases h,
{
    if h > 0 {
        lemma_write_box_pointwise(buf, x, y, w, h - 1, c, px, py);
        lemma_write_hline_pointwise(write_box(buf, x, y, w, h - 1, c), x, y + h - 1, w, c, px, py);
    }
}

/// Pointwise description of a rectangle outline: every perimeter cell is
/// written, the corners exactly once. For the overwriting colors this holds
/// for any size; for XOR it asks both sides to be at least two pixels, so
/// that no row or column coincides with another and every perimeter cell —
/// corners included — is toggled exactly once.
pub proof fn lemma_write_frame_pointwise(
    buf: Seq<u8>,
    x: int,
    y: int,
    w: int,
    h: int,
    c: Color,
    px: int,
    py: int,
)
    requires
        buf.len() == 128 * 64,
        in_window(px, py),
        c == Color::Xor ==> 2 <= w && 2 <= h,
    ensures
        write_frame(buf, x, y, w, h, c).len() == buf.len(),
        write_frame(buf, x, y, w, h, c)[pix(px, py)] == (if w > 0 && h > 0 && on_frame(
            x,
            y,
            w,
            h,
            px,
            py,
        ) {
            pixel_write(c, buf[pix(px, py)])
        } else {
            buf[pix(px, py)]
        }),
{
    if w > 0 && h > 0 {
        let hh = if h >= 2 {
            h - 2
        } else {
            0int
        };
        let b1 = write_hline(buf, x, y, w, c);
        let b2 = write_hline(b1, x, y + h - 1, w, c);
        let b3 = write_vline(b2, x, y + 1, hh, c);
        lemma_write_hline_pointwise(buf, x, y, w, c, px, py);
        lemma_write_hline_pointwise(b1, x, y + h - 1, w, c, px, py);
        lemma_write_vline_pointwise(b2, x, y + 1, hh, c, px, py);
        lemma_write_vline_pointwise(b3, x + w - 1, y + 1, hh, c, px, py);
    }
}

/// The outline drawn by `draw_frame` is exactly the boundary of the filled
/// rectangle drawn by `draw_box`: a cell is on the frame if and only if it is
/// in the box but not in the box shrunk by one pixel on every side.
pub proof fn lemma_frame_is_box_outline(x: int, y: int, w: int, h: int, px: int, py: int)
    ensures
        on_frame(x, y, w, h, px, py) <==> (in_box(x, y, w, h, px, py) && !in_box(
            x + 1,
            y + 1,
            w - 2,
            h - 2,
            px,
            py,
        )),
{
}

/// The 128x64 framebuffer with its current drawing color and font, and
/// the four resident font containers text is drawn from.
pub struct Canvas {
    buffer: Vec<u8>,
    color: Color,
    font: Font,
    font_primary: crate::font::FontData,
    font_secondary: crate::font::FontData,
    font_keyboard: crate::font::FontData,
    font_big: crate::font::FontData,
}

impl Canvas {
    /// The pixel bytes, row-major, one byte per pixel.
    pub closed spec fn pixels(&self) -> Seq<u8> {
        self.buffer@
    }

    /// The current drawing color.
    pub closed spec fn color_spec(&self) -> Color {
        self.color
    }

    /// The current font.
    pub closed spec fn font_spec(&self) -> Font {
        self.font
    }

    /// The resident container for a font selection.
    pub closed spec fn font_container(&self, f: Font) -> crate::font::FontData {
        match f {
            Font::Primary => self.font_primary,
            Font::Secondary => self.font_secondary,
            Font::Keyboard => self.font_keyboard,
            Font::BigNumbers => self.font_big,
        }
    }

    /// The four resident containers agree with another canvas value.
    pub open spec fn same_fonts(&self, other: &Canvas) -> bool {
        &&& self.font_container(Font::Primary) == other.font_container(Font::Primary)
        &&& self.font_container(Font::Secondary) == other.font_container(Font::Secondary)
        &&& self.font_container(Font::Keyboard) == other.font_container(Font::Keyboard)
        &&& self.font_container(Font::BigNumbers) == other.font_container(Font::BigNumbers)
    }

    /// The buffer always holds one byte per window pixel, and the four
    /// resident font containers have validated headers.
    pub open spec fn wf(&self) -> bool {
        &&& self.pixels().len() == 128 * 64
        &&& self.font_container(Font::Primary).wf()
        &&& self.font_container(Font::Secondary).wf()
        &&& self.font_container(Font::Keyboard).wf()
        &&& self.font_container(Font::BigNumbers).wf()
    }

    /// A fresh canvas: all white, color `Black`, font `Primary`, with
    /// empty font containers until a host port installs real ones.
    pub fn new() -> (r: Canvas)
        ensures
            r.wf(),
            r.pixels() =~= Seq::new(128 * 64, |i: int| 0u8),
            r.color_spec() == Color::Black,
            r.font_spec() == Font::Primary,
            forall|f: Font| (#[trigger] r.font_container(f)).data_spec() == Seq::<u8>::empty(),
    {
        let mut buffer: Vec<u8> = Vec::new();
        let mut i: usize = 0;
        while i < 128 * 64
            invariant
                i <= 128 * 64,
                buffer@.len() == i,
                forall|j: int| 0 <= j < i ==> buffer@[j] == 0u8,
            decreases 128 * 64 - i,
        {
            buffer.push(0u8);
            i = i + 1;
        }
        Canvas {
            buffer,
            color: Color::Black,
            font: Font::Primary,
            font_primary: crate::font::FontData::from_font(Font::Primary),
            font_secondary: crate::font::FontData::from_font(Font::Secondary),
            font_keyboard: crate::font::FontData::from_font(Font::Keyboard),
            font_big: crate::font::FontData::from_font(Font::BigNumbers),
        }
    }

    /// Install a font container for one selection; text drawn in that
    /// selection then comes from this container.
    pub fn install_font(&mut self, which: Font, data: crate::font::FontData)
        requires
            old(self).wf(),
            data.wf(),
        ensures
            final(self).wf(),
            final(self).font_container(which) == data,
            forall|f: Font|
                f != which ==> (#[trigger] final(self).font_container(f)) == old(
                    self,
                ).font_container(f),
            final(self).pixels() == old(self).pixels(),
            final(self).color_spec() == old(self).color_spec(),
            final(self).font_spec() == old(self).font_spec(),
    {
        match which {
            Font::Primary => {
                self.font_primary = data;
            },
            Font::Secondary => {
                self.font_secondary = data;
            },
            Font::Keyboard => {
                self.font_keyboard = data;
            },
            Font::BigNumbers => {
                self.font_big = data;
            },
        }
    }

    /// Display width.
    pub fn width(&self) -> (r: u32)
        ensures
            r == 128,
    {
        WIDTH
    }

    /// Display height.
    pub fn height(&self) -> (r: u32)
        ensures
            r == 64,
    {
        HEIGHT
    }

    /// Read access to the pixel bytes.
    pub fn buffer(&self) -> (r: &[u8])
        ensures
            r@ == self.pixels(),
    {
        self.buffer.as_slice()
    }

    /// Clear every pixel to white; color and font keep their values.
    pub fn clear(&mut self)
        requires
            old(self).wf(),
        ensures
            final(self).wf(),
            final(self).pixels() =~= Seq::new(128 * 64, |i: int| 0u8),
            final(self).color_spec() == old(self).color_spec(),
            final(self).font_spec() == old(self).font_spec(),
            final(self).same_fonts(old(self)),
    {
        let mut i: usize = 0;
        while i < 128 * 64
            invariant
                i <= 128 * 64,
                self.buffer@.len() == 128 * 64,
                forall|j: int| 0 <= j < i ==> self.buffer@[j] == 0u8,
                self.color == old(self).color,
                self.font == old(self).font,
                self.same_fonts(old(self)),
            decreases 128 * 64 - i,
        {
            self.buffer.set(i, 0u8);
            i = i + 1;
        }
    }

    /// Set the drawing color.
    pub fn set_color(&mut self, color: Color)
        ensures
            final(self).color_spec() == color,
            final(self).pixels() == old(self).pixels(),
            final(self).font_spec() == old(self).font_spec(),
            final(self).same_fonts(old(self)),
    {
        self.color = color;
    }

    /// The current drawing color.
    pub fn color(&self) -> (r: Color)
        ensures
            r == self.color_spec(),
    {
        self.color
    }

    /// Set the font for text drawing.
    pub fn set_font(&mut self, font: Font)
        ensures
            final(self).font_spec() == font,
            final(self).pixels() == old(self).pixels(),
            final(self).color_spec() == old(self).color_spec(),
            final(self).same_fonts(old(self)),
    {
        self.font = font;
    }

    /// The current font.
    pub fn font(&self) -> (r: Font)
        ensures
            r == self.font_spec(),
    {
        self.font
    }

    /// Write one pixel in the given color, dropping out-of-window writes.
    fn put_px(&mut self, x: i64, y: i64, color: Color)
        requires
            old(self).wf(),
        ensures
            final(self).wf(),
            final(self).pixels() == write_px(old(self).pixels(), x as int, y as int, color),
            final(self).color_spec() == old(self).color_spec(),
            final(self).font_spec() == old(self).font_spec(),
            final(self).same_fonts(old(self)),
    {
        if x < 0 || y < 0 || x >= 128 || y >= 64 {
            return ;
        }
        assert(0 <= y * 128 + x < 128 * 64) by (nonlinear_arith)
            requires
                0 <= x < 128,
                0 <= y < 64,
        ;
        let idx: usize = (y as usize) * 128 + (x as usize);
        let prev = self.buffer[idx];
        let next = match color {
            Color::White => 0u8,
            Color::Black => 1u8,
            Color::Xor => prev ^ 1,
        };
        self.buffer.set(idx, next);
    }

    /// Draw a single dot at the current color.
    ///
    /// A dot outside the window leaves the framebuffer byte-identical.
    pub fn draw_dot(&mut self, x: i32, y: i32)
        requires
            old(self).wf(),
        ensures
            final(self).wf(),
            final(self).pixels() == write_px(
                old(self).pixels(),
                x as int,
                y as int,
                old(self).color_spec(),
            ),
            !in_window(x as int, y as int) ==> final(self).pixels() == old(self).pixels(),
            final(self).color_spec() == old(self).color_spec(),
            final(self).font_spec() == old(self).font_spec(),
            final(self).same_fonts(old(self)),
    {
        let c = self.color;
        self.put_px(x as i64, y as i64, c);
    }

    /// Draw a horizontal run of `length` pixels starting at `(x, y)`.
    fn hline(&mut self, x: i64, y: i64, length: u32, color: Color)
        requires
            old(self).wf(),
            -0x8000_0000_0000 <= x <= 0x8000_0000_0000,
            -0x8000_0000_0000 <= y <= 0x8000_0000_0000,
        ensures
            final(self).wf(),
            final(self).pixels() == write_hline(
                old(self).pixels(),
                x as int,
                y as int,
                length as int,
                color,
            ),
            final(self).color_spec() == old(self).color_spec(),
            final(self).font_spec() == old(self).font_spec(),
            final(self).same_fonts(old(self)),
    {
        let mut offset: u32 = 0;
        while offset < length
            invariant
                self.wf(),
                offset <= length,
                -0x8000_0000_0000 <= x <= 0x8000_0000_0000,
                -0x8000_0000_0000 <= y <= 0x8000_0000_0000,
                self.pixels() == write_hline(
                    old(self).pixels(),
                    x as int,
                    y as int,
                    offset as int,
                    color,
                ),
                self.color_spec() == old(self).color_spec(),
                self.font_spec() == old(self).font_spec(),
                self.same_fonts(old(self)),
            decreases length - offset,
        {
            self.put_px(x + offset as i64, y, color);
            offset = offset + 1;
        }
    }

    /// Draw a vertical run of `length` pixels starting at `(x, y)`.
    fn vline(&mut self, x: i64, y: i64, length: u32, color: Color)
        requires
            old(self).wf(),
            -0x8000_0000_0000 <= x <= 0x8000_0000_0000,
            -0x8000_0000_0000 <= y <= 0x8000_0000_0000,
        ensures
            final(self).wf(),
            final(self).pixels() == write_vline(
                old(self).pixels(),
                x as int,
                y as int,
                length as int,
                color,
            ),
            final(self).color_spec() == old(self).color_spec(),
            final(self).font_spec() == old(self).font_spec(),
            final(self).same_fonts(old(self)),
    {
        let mut offset: u32 = 0;
        while offset < length
            invariant
                self.wf(),
                offset <= length,
                -0x8000_0000_0000 <= x <= 0x8000_0000_0000,
                -0x8000_0000_0000 <= y <= 0x8000_0000_0000,
                self.pixels() == write_vline(
                    old(self).pixels(),
                    x as int,
                    y as int,
                    offset as int,
                    color,
                ),
                self.color_spec() == old(self).color_spec(),
                self.font_spec() == old(self).font_spec(),
                self.same_fonts(old(self)),
            decreases length - offset,
        {
            self.put_px(x, y + offset as i64, color);
            offset = offset + 1;
        }
    }

    /// Draw a horizontal run at an explicit color (for the font engine).
    pub(crate) fn hline_at(&mut self, x: i64, y: i64, length: u32, color: Color)
        requires
            old(self).wf(),
            -0x8000_0000_0000 <= x <= 0x8000_0000_0000,
            -0x8000_0000_0000 <= y <= 0x8000_0000_0000,
        ensures
            final(self).wf(),
            final(self).pixels() == write_hline(
                old(self).pixels(),
                x as int,
                y as int,
                length as int,
                color,
            ),
            final(self).color_spec() == old(self).color_spec(),
            final(self).font_spec() == old(self).font_spec(),
            final(self).same_fonts(old(self)),
    {
        self.hline(x, y, length, color);
    }

    /// Draw the outline of a `width` by `height` rectangle: the top and
    /// bottom rows and the two side runs between them, every corner drawn
    /// exactly once. A zero width or height is a no-op.
    pub fn draw_frame(&mut self, x: i32, y: i32, width: u32, height: u32)
        requires
            old(self).wf(),
        ensures
            final(self).wf(),
            final(self).pixels() == write_frame(
                old(self).pixels(),
                x as int,
                y as int,
                width as int,
                height as int,
                old(self).color_spec(),
            ),
            final(self).color_spec() == old(self).color_spec(),
            final(self).font_spec() == old(self).font_spec(),
            final(self).same_fonts(old(self)),
    {
        if width == 0 || height == 0 {
            return ;
        }
        let c = self.color;
        let xl = x as i64;
        let yt = y as i64;
        let w = width as i64;
        let h = height as i64;
        let hh: u32 = if height >= 2 {
            height - 2
        } else {
            0
        };
        self.hline(xl, yt, width, c);
        self.hline(xl, yt + h - 1, width, c);
        self.vline(xl, yt + 1, hh, c);
        self.vline(xl + w - 1, yt + 1, hh, c);
    }

    /// Draw a filled `width` by `height` rectangle as `height` consecutive
    /// horizontal lines. A zero width or height is a no-op.
    pub fn draw_box(&mut self, x: i32, y: i32, width: u32, height: u32)
        requires
            old(self).wf(),
        ensures
            final(self).wf(),
            final(self).pixels() == write_box(
                old(self).pixels(),
                x as int,
                y as int,
                width as int,
                height as int,
                old(self).color_spec(),
            ),
            final(self).color_spec() == old(self).color_spec(),
            final(self).font_spec() == old(self).font_spec(),
            final(self).same_fonts(old(self)),
    {
        let c = self.color;
        self.box_fill(x as i64, y as i64, width, height, c);
    }

    /// Fill a rectangle row by row.
    fn box_fill(&mut self, x: i64, y: i64, width: u32, height: u32, color: Color)
        requires
            old(self).wf(),
            -0x4000_0000_0000 <= x <= 0x4000_0000_0000,
            -0x4000_0000_0000 <= y <= 0x4000_0000_0000,
        ensures
            final(self).wf(),
            final(self).pixels() == write_box(
                old(self).pixels(),
                x as int,
                y as int,
                width as int,
                height as int,
                color,
            ),
            final(self).color_spec() == old(self).color_spec(),
            final(self).font_spec() == old(self).font_spec(),
            final(self).same_fonts(old(self)),
    {
        let mut row: u32 = 0;
        while row < height
            invariant
                self.wf(),
                row <= height,
                -0x4000_0000_0000 <= x <= 0x4000_0000_0000,
                -0x4000_0000_0000 <= y <= 0x4000_0000_0000,
                self.pixels() == write_box(
                    old(self).pixels(),
                    x as int,
                    y as int,
                    width as int,
                    row as int,
                    color,
                ),
                self.color_spec() == old(self).color_spec(),
                self.font_spec() == old(self).font_spec(),
                self.same_fonts(old(self)),
            decreases height - row,
        {
            self.hline(x, y + row as i64, width, color);
            row = row + 1;
        }
    }
}

} // verus!

verus! {

/// Integer absolute value.
pub open spec fn iabs(v: int) -> int {
    if v < 0 {
        -v
    } else {
        v
    }
}

/// Integer minimum.
pub open spec fn imin(a: int, b: int) -> int {
    if a < b {
        a
    } else {
        b
    }
}

/// One step of the Bresenham walk: write the current pixel (axes swapped
/// back when `swap` is set), then advance `x` and accumulate the error.
pub open spec fn write_line_from(
    buf: Seq<u8>,
    x: int,
    y: int,
    err: int,
    x2: int,
    dx: int,
    dy: int,
    ystep: int,
    swap: bool,
    c: Color,
) -> Seq<u8>
    decreases x2 + 1 - x,
{
    if x > x2 {
        buf
    } else {
        let b1 = if swap {
            write_px(buf, y, x, c)
        } else {
            write_px(buf, x, y, c)
        };
        let e1 = err - dy;
        if e1 < 0 {
            write_line_from(b1, x + 1, y + ystep, e1 + dx, x2, dx, dy, ystep, swap, c)
        } else {
            write_line_from(b1, x + 1, y, e1, x2, dx, dy, ystep, swap, c)
        }
    }
}

/// The full Bresenham line from `(x1, y1)` to `(x2, y2)`, endpoints
/// inclusive: normalize so the walk runs along the major axis, left to
/// right, then step.
pub open spec fn write_line(buf: Seq<u8>, x1: int, y1: int, x2: int, y2: int, c: Color) -> Seq<u8> {
    let dx0 = iabs(x2 - x1);
    let dy0 = iabs(y2 - y1);
    let swap = dy0 > dx0;
    let ax0 = if swap { y1 } else { x1 };
    let ay0 = if swap { x1 } else { y1 };
    let bx0 = if swap { y2 } else { x2 };
    let by0 = if swap { x2 } else { y2 };
    let ax = if ax0 > bx0 { bx0 } else { ax0 };
    let ay = if ax0 > bx0 { by0 } else { ay0 };
    let bx = if ax0 > bx0 { ax0 } else { bx0 };
    let by = if ax0 > bx0 { ay0 } else { by0 };
    let dx = if swap { dy0 } else { dx0 };
    let dy = if swap { dx0 } else { dy0 };
    let ystep: int = if by > ay { 1 } else { -1 };
    write_line_from(buf, ax, ay, dx / 2, bx, dx, dy, ystep, swap, c)
}

impl Canvas {
    /// Draw a line with Bresenham's integer algorithm, both endpoints
    /// inclusive. Horizontal and vertical lines are drawn left to right and
    /// top to bottom whatever the argument order.
    pub fn draw_line(&mut self, x1: i32, y1: i32, x2: i32, y2: i32)
        requires
            old(self).wf(),
        ensures
            final(self).wf(),
            final(self).pixels() == write_line(
                old(self).pixels(),
                x1 as int,
                y1 as int,
                x2 as int,
                y2 as int,
                old(self).color_spec(),
            ),
            final(self).color_spec() == old(self).color_spec(),
            final(self).font_spec() == old(self).font_spec(),
            final(self).same_fonts(old(self)),
    {
        let c = self.color;
        let mut xa = x1 as i64;
        let mut ya = y1 as i64;
        let mut xb = x2 as i64;
        let mut yb = y2 as i64;

        let mut dx = if xb >= xa {
            xb - xa
        } else {
            xa - xb
        };
        let mut dy = if yb >= ya {
            yb - ya
        } else {
            ya - yb
        };
        let mut swap_xy = false;

        if dy > dx {
            swap_xy = true;
            let t1 = xa;
            xa = ya;
            ya = t1;
            let t2 = xb;
            xb = yb;
            yb = t2;
            let t3 = dx;
            dx = dy;
            dy = t3;
        }

        if xa > xb {
            let t1 = xa;
            xa = xb;
            xb = t1;
            let t2 = ya;
            ya = yb;
            yb = t2;
        }

        let mut err = dx / 2;
        let ystep: i64 = if yb > ya {
            1
        } else {
            -1
        };
        let mut y = ya;
        let mut x = xa;

        let ghost target = write_line(
            old(self).pixels(),
            x1 as int,
            y1 as int,
            x2 as int,
            y2 as int,
            c,
        );
        assert(target == write_line_from(
            self.pixels(),
            x as int,
            y as int,
            err as int,
            xb as int,
            dx as int,
            dy as int,
            ystep as int,
            swap_xy,
            c,
        ));

        while x <= xb
            invariant
                self.wf(),
                0 <= dy <= dx <= 0x1_0000_0000,
                xa <= x <= xb + 1,
                -0x8000_0000 <= xa,
                xb <= 0x8000_0000,
                -0x8000_0000 <= ya <= 0x8000_0000,
                ystep == 1 || ystep == -1,
                ya - (x - xa) <= y <= ya + (x - xa),
                0 <= err <= dx,
                write_line_from(
                    self.pixels(),
                    x as int,
                    y as int,
                    err as int,
                    xb as int,
                    dx as int,
                    dy as int,
                    ystep as int,
                    swap_xy,
                    c,
                ) == target,
                self.color_spec() == old(self).color_spec(),
                self.font_spec() == old(self).font_spec(),
                self.same_fonts(old(self)),
            decreases xb + 1 - x,
        {
            if !swap_xy {
                self.put_px(x, y, c);
            } else {
                self.put_px(y, x, c);
            }
            err = err - dy;
            if err < 0 {
                y = y + ystep;
                err = err + dx;
            }
            x = x + 1;
        }
    }
}

} // verus!

verus! {

/// Quadrant mask bit: upper right.
pub const ARC_UPPER_RIGHT: u8 = 0x01;

/// Quadrant mask bit: upper left.
pub const ARC_UPPER_LEFT: u8 = 0x02;

/// Quadrant mask bit: lower left.
pub const ARC_LOWER_LEFT: u8 = 0x04;

/// Quadrant mask bit: lower right.
pub const ARC_LOWER_RIGHT: u8 = 0x08;

/// Quadrant mask selecting all four quadrants.
pub const ARC_ALL: u8 = 0x0f;

/// The pixels of one midpoint step, masked by quadrant.
pub open spec fn write_circle_section(
    buf: Seq<u8>,
    x: int,
    y: int,
    x0: int,
    y0: int,
    option: u8,
    c: Color,
) -> Seq<u8> {
    let b1 = if option & 0x01 != 0 {
        write_px(write_px(buf, x0 + x, y0 - y, c), x0 + y, y0 - x, c)
    } else {
        buf
    };
    let b2 = if option & 0x02 != 0 {
        write_px(write_px(b1, x0 - x, y0 - y, c), x0 - y, y0 - x, c)
    } else {
        b1
    };
    let b3 = if option & 0x08 != 0 {
        write_px(write_px(b2, x0 + x, y0 + y, c), x0 + y, y0 + x, c)
    } else {
        b2
    };
    if option & 0x04 != 0 {
        write_px(write_px(b3, x0 - x, y0 + y, c), x0 - y, y0 + x, c)
    } else {
        b3
    }
}

/// Remaining steps of the masked midpoint circle walk, starting after the
/// step at `(x, y)` has been drawn.
pub open spec fn write_circle_opt_from(
    buf: Seq<u8>,
    x: int,
    y: int,
    f: int,
    dfx: int,
    dfy: int,
    x0: int,
    y0: int,
    option: u8,
    c: Color,
) -> Seq<u8>
    decreases y - x + 1,
{
    if x >= y {
        buf
    } else {
        let y1 = if f >= 0 { y - 1 } else { y };
        let dfy1 = if f >= 0 { dfy + 2 } else { dfy };
        let fa = if f >= 0 { f + dfy1 } else { f };
        let x1 = x + 1;
        let dfx1 = dfx + 2;
        let fb = fa + dfx1;
        write_circle_opt_from(
            write_circle_section(buf, x1, y1, x0, y0, option, c),
            x1,
            y1,
            fb,
            dfx1,
            dfy1,
            x0,
            y0,
            option,
            c,
        )
    }
}

/// The masked midpoint circle outline; a negative radius is a no-op.
pub open spec fn write_circle_opt(
    buf: Seq<u8>,
    x0: int,
    y0: int,
    radius: int,
    option: u8,
    c: Color,
) -> Seq<u8> {
    if radius < 0 {
        buf
    } else {
        write_circle_opt_from(
            write_circle_section(buf, 0, radius, x0, y0, option, c),
            0,
            radius,
            1 - radius,
            1,
            -2 * radius,
            x0,
            y0,
            option,
            c,
        )
    }
}

/// The vertical runs of one filled midpoint step, masked by quadrant.
pub open spec fn write_disc_section(
    buf: Seq<u8>,
    x: int,
    y: int,
    x0: int,
    y0: int,
    option: u8,
    c: Color,
) -> Seq<u8> {
    let b1 = if option & 0x01 != 0 {
        write_vline(write_vline(buf, x0 + x, y0 - y, y + 1, c), x0 + y, y0 - x, x + 1, c)
    } else {
        buf
    };
    let b2 = if option & 0x02 != 0 {
        write_vline(write_vline(b1, x0 - x, y0 - y, y + 1, c), x0 - y, y0 - x, x + 1, c)
    } else {
        b1
    };
    let b3 = if option & 0x08 != 0 {
        write_vline(write_vline(b2, x0 + x, y0, y + 1, c), x0 + y, y0, x + 1, c)
    } else {
        b2
    };
    if option & 0x04 != 0 {
        write_vline(write_vline(b3, x0 - x, y0, y + 1, c), x0 - y, y0, x + 1, c)
    } else {
        b3
    }
}

/// Remaining steps of the masked midpoint disc walk.
pub open spec fn write_disc_opt_from(
    buf: Seq<u8>,
    x: int,
    y: int,
    f: int,
    dfx: int,
    dfy: int,
    x0: int,
    y0: int,
    option: u8,
    c: Color,
) -> Seq<u8>
    decreases y - x + 1,
{
    if x >= y {
        buf
    } else {
        let y1 = if f >= 0 { y - 1 } else { y };
        let dfy1 = if f >= 0 { dfy + 2 } else { dfy };
        let fa = if f >= 0 { f + dfy1 } else { f };
        let x1 = x + 1;
        let dfx1 = dfx + 2;
        let fb = fa + dfx1;
        write_disc_opt_from(
            write_disc_section(buf, x1, y1, x0, y0, option, c),
            x1,
            y1,
            fb,
            dfx1,
            dfy1,
            x0,
            y0,
            option,
            c,
        )
    }
}

/// The masked midpoint disc fill; a negative radius is a no-op.
pub open spec fn write_disc_opt(
    buf: Seq<u8>,
    x0: int,
    y0: int,
    radius: int,
    option: u8,
    c: Color,
) -> Seq<u8> {
    if radius < 0 {
        buf
    } else {
        write_disc_opt_from(
            write_disc_section(buf, 0, radius, x0, y0, option, c),
            0,
            radius,
            1 - radius,
            1,
            -2 * radius,
            x0,
            y0,
            option,
            c,
        )
    }
}

impl Canvas {
    /// One midpoint step of a circle outline, masked by quadrant.
    fn circle_section(&mut self, x: i64, y: i64, x0: i64, y0: i64, option: u8, color: Color)
        requires
            old(self).wf(),
            -0x2_0000_0000 <= x <= 0x2_0000_0000,
            -0x2_0000_0000 <= y <= 0x2_0000_0000,
            -0x2_0000_0000 <= x0 <= 0x2_0000_0000,
            -0x2_0000_0000 <= y0 <= 0x2_0000_0000,
        ensures
            final(self).wf(),
            final(self).pixels() == write_circle_section(
                old(self).pixels(),
                x as int,
                y as int,
                x0 as int,
                y0 as int,
                option,
                color,
            ),
            final(self).color_spec() == old(self).color_spec(),
            final(self).font_spec() == old(self).font_spec(),
            final(self).same_fonts(old(self)),
    {
        if option & ARC_UPPER_RIGHT != 0 {
            self.put_px(x0 + x, y0 - y, color);
            self.put_px(x0 + y, y0 - x, color);
        }
        if option & ARC_UPPER_LEFT != 0 {
            self.put_px(x0 - x, y0 - y, color);
            self.put_px(x0 - y, y0 - x, color);
        }
        if option & ARC_LOWER_RIGHT != 0 {
            self.put_px(x0 + x, y0 + y, color);
            self.put_px(x0 + y, y0 + x, color);
        }
        if option & ARC_LOWER_LEFT != 0 {
            self.put_px(x0 - x, y0 + y, color);
            self.put_px(x0 - y, y0 + x, color);
        }
    }

    /// The masked midpoint circle outline walk.
    fn circle_with_option(&mut self, x0: i64, y0: i64, radius: i64, option: u8, color: Color)
        requires
            old(self).wf(),
            -0x2_0000_0000 <= x0 <= 0x2_0000_0000,
            -0x2_0000_0000 <= y0 <= 0x2_0000_0000,
            radius <= 0x8000_0000,
        ensures
            final(self).wf(),
            final(self).pixels() == write_circle_opt(
                old(self).pixels(),
                x0 as int,
                y0 as int,
                radius as int,
                option,
                color,
            ),
            final(self).color_spec() == old(self).color_spec(),
            final(self).font_spec() == old(self).font_spec(),
            final(self).same_fonts(old(self)),
    {
        if radius < 0 {
            return ;
        }

        let mut f: i128 = 1 - radius as i128;
        let mut dd_f_x: i128 = 1;
        let mut dd_f_y: i128 = -(2 * (radius as i128));
        let mut x: i64 = 0;
        let mut y: i64 = radius;

        self.circle_section(x, y, x0, y0, option, color);
        let ghost target = write_circle_opt(
            old(self).pixels(),
            x0 as int,
            y0 as int,
            radius as int,
            option,
            color,
        );

        while x < y
            invariant
                self.wf(),
                0 <= radius <= 0x8000_0000,
                0 <= x <= radius,
                0 <= y <= radius,
                -0x2_0000_0000 <= x0 <= 0x2_0000_0000,
                -0x2_0000_0000 <= y0 <= 0x2_0000_0000,
                dd_f_x == 2 * x + 1,
                dd_f_y == -2 * y,
                -(radius as i128 + 2) - (x as i128 + 1) * 0x10_0000_0000 <= f,
                f <= (radius as i128 + 2) + (x as i128 + 1) * 0x10_0000_0000,
                write_circle_opt_from(
                    self.pixels(),
                    x as int,
                    y as int,
                    f as int,
                    dd_f_x as int,
                    dd_f_y as int,
                    x0 as int,
                    y0 as int,
                    option,
                    color,
                ) == target,
                self.color_spec() == old(self).color_spec(),
                self.font_spec() == old(self).font_spec(),
                self.same_fonts(old(self)),
            decreases y + 1 - x,
        {
            if f >= 0 {
                y = y - 1;
                dd_f_y = dd_f_y + 2;
                f = f + dd_f_y;
            }
            x = x + 1;
            dd_f_x = dd_f_x + 2;
            f = f + dd_f_x;

            self.circle_section(x, y, x0, y0, option, color);
        }
    }

    /// The masked midpoint disc fill walk.
    fn disc_section(&mut self, x: i64, y: i64, x0: i64, y0: i64, option: u8, color: Color)
        requires
            old(self).wf(),
            0 <= x <= 0x8000_0000,
            0 <= y <= 0x8000_0000,
            -0x2_0000_0000 <= x0 <= 0x2_0000_0000,
            -0x2_0000_0000 <= y0 <= 0x2_0000_0000,
        ensures
            final(self).wf(),
            final(self).pixels() == write_disc_section(
                old(self).pixels(),
                x as int,
                y as int,
                x0 as int,
                y0 as int,
                option,
                color,
            ),
            final(self).color_spec() == old(self).color_spec(),
            final(self).font_spec() == old(self).font_spec(),
            final(self).same_fonts(old(self)),
    {
        let ylen = (y + 1) as u32;
        let xlen = (x + 1) as u32;
        if option & ARC_UPPER_RIGHT != 0 {
            self.vline(x0 + x, y0 - y, ylen, color);
            self.vline(x0 + y, y0 - x, xlen, color);
        }
        if option & ARC_UPPER_LEFT != 0 {
            self.vline(x0 - x, y0 - y, ylen, color);
            self.vline(x0 - y, y0 - x, xlen, color);
        }
        if option & ARC_LOWER_RIGHT != 0 {
            self.vline(x0 + x, y0, ylen, color);
            self.vline(x0 + y, y0, xlen, color);
        }
        if option & ARC_LOWER_LEFT != 0 {
            self.vline(x0 - x, y0, ylen, color);
            self.vline(x0 - y, y0, xlen, color);
        }
    }

    /// The masked midpoint disc walk.
    fn disc_with_option(&mut self, x0: i64, y0: i64, radius: i64, option: u8, color: Color)
        requires
            old(self).wf(),
            -0x2_0000_0000 <= x0 <= 0x2_0000_0000,
            -0x2_0000_0000 <= y0 <= 0x2_0000_0000,
            radius <= 0x8000_0000,
        ensures
            final(self).wf(),
            final(self).pixels() == write_disc_opt(
                old(self).pixels(),
                x0 as int,
                y0 as int,
                radius as int,
                option,
                color,
            ),
            final(self).color_spec() == old(self).color_spec(),
            final(self).font_spec() == old(self).font_spec(),
            final(self).same_fonts(old(self)),
    {
        if radius < 0 {
            return ;
        }

        let mut f: i128 = 1 - radius as i128;
        let mut dd_f_x: i128 = 1;
        let mut dd_f_y: i128 = -(2 * (radius as i128));
        let mut x: i64 = 0;
        let mut y: i64 = radius;

        self.disc_section(x, y, x0, y0, option, color);
        let ghost target = write_disc_opt(
            old(self).pixels(),
            x0 as int,
            y0 as int,
            radius as int,
            option,
            color,
        );

        while x < y
            invariant
                self.wf(),
                0 <= radius <= 0x8000_0000,
                0 <= x <= radius,
                0 <= y <= radius,
                -0x2_0000_0000 <= x0 <= 0x2_0000_0000,
                -0x2_0000_0000 <= y0 <= 0x2_0000_0000,
                dd_f_x == 2 * x + 1,
                dd_f_y == -2 * y,
                -(radius as i128 + 2) - (x as i128 + 1) * 0x10_0000_0000 <= f,
                f <= (radius as i128 + 2) + (x as i128 + 1) * 0x10_0000_0000,
                write_disc_opt_from(
                    self.pixels(),
                    x as int,
                    y as int,
                    f as int,
                    dd_f_x as int,
                    dd_f_y as int,
                    x0 as int,
                    y0 as int,
                    option,
                    color,
                ) == target,
                self.color_spec() == old(self).color_spec(),
                self.font_spec() == old(self).font_spec(),
                self.same_fonts(old(self)),
            decreases y + 1 - x,
        {
            if f >= 0 {
                y = y - 1;
                dd_f_y = dd_f_y + 2;
                f = f + dd_f_y;
            }
            x = x + 1;
            dd_f_x = dd_f_x + 2;
            f = f + dd_f_x;

            self.disc_section(x, y, x0, y0, option, color);
        }
    }
}

} // verus!

verus! {

/// Whether offset `(dx, dy)` is among the pixels of the XOR-circle step at
/// `(x, y)`: the unordered pair of absolute offsets equals `{x, y}`.
pub open spec fn xor_step_hit(x: int, y: int, dx: int, dy: int) -> bool {
    (iabs(dx) == x && iabs(dy) == y) || (iabs(dx) == y && iabs(dy) == x)
}

/// The algorithm state after the XOR-circle step at `(x, y, d)`.
pub open spec fn xor_next(x: int, y: int, d: int) -> (int, int, int) {
    if d < 0 {
        (x + 1, y, d + 2 * x + 3)
    } else {
        (x + 1, y - 1, d + 2 * (x - y) + 5)
    }
}

/// Whether offset `(dx, dy)` is hit by any remaining XOR-circle step from
/// state `(x, y, d)`. When `x == y` the walk stops after that step.
pub open spec fn xor_hit_from(x: int, y: int, d: int, dx: int, dy: int) -> bool
    decreases y + 2 - x,
{
    if x > y {
        false
    } else if x == y {
        xor_step_hit(x, y, dx, dy)
    } else {
        xor_step_hit(x, y, dx, dy) || {
            let (x1, y1, d1) = xor_next(x, y, d);
            xor_hit_from(x1, y1, d1, dx, dy)
        }
    }
}

/// The pixels flipped by an XOR circle of radius `r` (as offsets from the
/// center): a radius of zero flips the center alone; a radius whose low
/// 32 bits read as a negative machine value flips nothing.
pub open spec fn xor_circle_flip(r: int, dx: int, dy: int) -> bool {
    if r == 0 {
        dx == 0 && dy == 0
    } else if r > 0x7fff_ffff {
        false
    } else {
        xor_hit_from(0, r, 1 - r, dx, dy)
    }
}

/// One XOR-circle step as a buffer transformer: the three-way split on
/// `x == y` and `x == 0` keeps every diagonal and axis pixel single-written.
pub open spec fn write_xor_step(buf: Seq<u8>, x: int, y: int, x0: int, y0: int) -> Seq<u8> {
    let c = Color::Xor;
    if x == y {
        write_px(
            write_px(write_px(write_px(buf, x0 + x, y0 + y, c), x0 - x, y0 + y, c), x0 + x, y0 - y, c),
            x0 - x,
            y0 - y,
            c,
        )
    } else if x == 0 {
        write_px(
            write_px(write_px(write_px(buf, x0, y0 + y, c), x0, y0 - y, c), x0 + y, y0, c),
            x0 - y,
            y0,
            c,
        )
    } else {
        write_px(
            write_px(
                write_px(
                    write_px(
                        write_px(
                            write_px(write_px(write_px(buf, x0 + x, y0 + y, c), x0 - x, y0 + y, c), x0 + x, y0 - y, c),
                            x0 - x,
                            y0 - y,
                            c,
                        ),
                        x0 + y,
                        y0 + x,
                        c,
                    ),
                    x0 - y,
                    y0 + x,
                    c,
                ),
                x0 + y,
                y0 - x,
                c,
            ),
            x0 - y,
            y0 - x,
            c,
        )
    }
}

/// The remaining XOR-circle steps from state `(x, y, d)` as a buffer
/// transformer.
pub open spec fn write_xor_from(buf: Seq<u8>, x: int, y: int, d: int, x0: int, y0: int) -> Seq<u8>
    decreases y + 2 - x,
{
    if x > y {
        buf
    } else if x == y {
        write_xor_step(buf, x, y, x0, y0)
    } else {
        let (x1, y1, d1) = xor_next(x, y, d);
        write_xor_from(write_xor_step(buf, x, y, x0, y0), x1, y1, d1, x0, y0)
    }
}

/// A step at `(x, y)` is never hit again by any later step: later steps have
/// a strictly larger minor offset and a minor offset bounded by their major
/// one, so the unordered offset pairs can never coincide.
proof fn lemma_xor_no_rehit(x: int, y: int, x1: int, y1: int, d1: int, dx: int, dy: int)
    requires
        0 <= x <= y,
        x < x1,
        y1 <= y,
        xor_step_hit(x, y, dx, dy),
    ensures
        !xor_hit_from(x1, y1, d1, dx, dy),
    decreases y1 + 2 - x1,
{
    if x1 > y1 {
    } else {
        assert(!xor_step_hit(x1, y1, dx, dy));
        if x1 < y1 {
            let (x2, y2, d2) = xor_next(x1, y1, d1);
            lemma_xor_no_rehit(x, y, x2, y2, d2, dx, dy);
        }
    }
}

/// Pointwise effect of one XOR-circle step: a window cell is toggled exactly
/// when its offset pair matches the step, and is untouched otherwise.
proof fn lemma_xor_step_pointwise(buf: Seq<u8>, x: int, y: int, x0: int, y0: int, px: int, py: int)
    requires
        buf.len() == 128 * 64,
        in_window(px, py),
        0 <= x <= y,
        x == y ==> x >= 1,
        1 <= y,
    ensures
        write_xor_step(buf, x, y, x0, y0).len() == buf.len(),
        write_xor_step(buf, x, y, x0, y0)[pix(px, py)] == (if xor_step_hit(x, y, px - x0, py - y0) {
            buf[pix(px, py)] ^ 1
        } else {
            buf[pix(px, py)]
        }),
{
    let c = Color::Xor;
    if x == y {
        let b1 = write_px(buf, x0 + x, y0 + y, c);
        let b2 = write_px(b1, x0 - x, y0 + y, c);
        let b3 = write_px(b2, x0 + x, y0 - y, c);
        lemma_write_px_pointwise(buf, x0 + x, y0 + y, c, px, py);
        lemma_write_px_pointwise(b1, x0 - x, y0 + y, c, px, py);
        lemma_write_px_pointwise(b2, x0 + x, y0 - y, c, px, py);
        lemma_write_px_pointwise(b3, x0 - x, y0 - y, c, px, py);
    } else if x == 0 {
        let b1 = write_px(buf, x0, y0 + y, c);
        let b2 = write_px(b1, x0, y0 - y, c);
        let b3 = write_px(b2, x0 + y, y0, c);
        lemma_write_px_pointwise(buf, x0, y0 + y, c, px, py);
        lemma_write_px_pointwise(b1, x0, y0 - y, c, px, py);
        lemma_write_px_pointwise(b2, x0 + y, y0, c, px, py);
        lemma_write_px_pointwise(b3, x0 - y, y0, c, px, py);
    } else {
        let b1 = write_px(buf, x0 + x, y0 + y, c);
        let b2 = write_px(b1, x0 - x, y0 + y, c);
        let b3 = write_px(b2, x0 + x, y0 - y, c);
        let b4 = write_px(b3, x0 - x, y0 - y, c);
        let b5 = write_px(b4, x0 + y, y0 + x, c);
        let b6 = write_px(b5, x0 - y, y0 + x, c);
        let b7 = write_px(b6, x0 + y, y0 - x, c);
        lemma_write_px_pointwise(buf, x0 + x, y0 + y, c, px, py);
        lemma_write_px_pointwise(b1, x0 - x, y0 + y, c, px, py);
        lemma_write_px_pointwise(b2, x0 + x, y0 - y, c, px, py);
        lemma_write_px_pointwise(b3, x0 - x, y0 - y, c, px, py);
        lemma_write_px_pointwise(b4, x0 + y, y0 + x, c, px, py);
        lemma_write_px_pointwise(b5, x0 - y, y0 + x, c, px, py);
        lemma_write_px_pointwise(b6, x0 + y, y0 - x, c, px, py);
        lemma_write_px_pointwise(b7, x0 - y, y0 - x, c, px, py);
    }
}

/// Pointwise effect of the remaining XOR-circle walk: a window cell is
/// toggled exactly when some remaining step hits it. Each hit cell is
/// toggled once: steps never revisit a cell.
proof fn lemma_xor_from_pointwise(
    buf: Seq<u8>,
    x: int,
    y: int,
    d: int,
    x0: int,
    y0: int,
    px: int,
    py: int,
)
    requires
        buf.len() == 128 * 64,
        in_window(px, py),
        0 <= x,
        x == y ==> x >= 1,
        1 <= y,
    ensures
        write_xor_from(buf, x, y, d, x0, y0).len() == buf.len(),
        write_xor_from(buf, x, y, d, x0, y0)[pix(px, py)] == (if xor_hit_from(
            x,
            y,
            d,
            px - x0,
            py - y0,
        ) {
            buf[pix(px, py)] ^ 1
        } else {
            buf[pix(px, py)]
        }),
    decreases y + 2 - x,
{
    if x > y {
    } else if x == y {
        lemma_xor_step_pointwise(buf, x, y, x0, y0, px, py);
    } else {
        lemma_xor_step_pointwise(buf, x, y, x0, y0, px, py);
        let b1 = write_xor_step(buf, x, y, x0, y0);
        let (x1, y1, d1) = xor_next(x, y, d);
        if x1 <= y1 {
            lemma_xor_from_pointwise(b1, x1, y1, d1, x0, y0, px, py);
        } else {
            assert(write_xor_from(b1, x1, y1, d1, x0, y0) == b1);
            assert(!xor_hit_from(x1, y1, d1, px - x0, py - y0));
        }
        if xor_step_hit(x, y, px - x0, py - y0) {
            lemma_xor_no_rehit(x, y, x1, y1, d1, px - x0, py - y0);
        }
    }
}

impl Canvas {
    /// XOR circle outline: the midpoint walk with the `x == 0` and `x == y`
    /// steps reduced to their four unique pixels, so that no pixel on the
    /// axes or diagonals is toggled twice.
    fn xor_circle(&mut self, x0: i64, y0: i64, radius: u32)
        requires
            old(self).wf(),
            -0x8000_0000 <= x0 <= 0x8000_0000,
            -0x8000_0000 <= y0 <= 0x8000_0000,
        ensures
            final(self).wf(),
            forall|px: int, py: int|
                in_window(px, py) ==> final(self).pixels()[pix(px, py)] == (if xor_circle_flip(
                    radius as int,
                    px - x0,
                    py - y0,
                ) {
                    old(self).pixels()[pix(px, py)] ^ 1
                } else {
                    old(self).pixels()[pix(px, py)]
                }),
            final(self).color_spec() == old(self).color_spec(),
            final(self).font_spec() == old(self).font_spec(),
            final(self).same_fonts(old(self)),
    {
        if radius == 0 {
            let ghost before = self.pixels();
            self.put_px(x0, y0, Color::Xor);
            assert forall|px: int, py: int| in_window(px, py) implies self.pixels()[pix(px, py)]
                == (if xor_circle_flip(radius as int, px - x0, py - y0) {
                before[pix(px, py)] ^ 1
            } else {
                before[pix(px, py)]
            }) by {
                lemma_write_px_pointwise(before, x0 as int, y0 as int, Color::Xor, px, py);
            }
            return ;
        }
        if radius > 0x7fff_ffff {
            return ;
        }

        let mut x: i64 = 0;
        let mut y: i64 = radius as i64;
        let mut d: i128 = 1 - radius as i128;
        let ghost start = self.pixels();
        let ghost target = write_xor_from(
            start,
            0,
            radius as int,
            1 - radius as int,
            x0 as int,
            y0 as int,
        );

        while x <= y
            invariant
                self.wf(),
                1 <= radius <= 0x7fff_ffff,
                0 <= x <= radius + 1,
                x <= y + 2,
                y <= radius,
                -0x8000_0000 <= x0 <= 0x8000_0000,
                -0x8000_0000 <= y0 <= 0x8000_0000,
                -(radius as i128 + 2) - (x as i128 + 1) * 0x10_0000_0000 <= d,
                d <= (radius as i128 + 2) + (x as i128 + 1) * 0x10_0000_0000,
                write_xor_from(self.pixels(), x as int, y as int, d as int, x0 as int, y0 as int)
                    == target,
                self.color_spec() == old(self).color_spec(),
                self.font_spec() == old(self).font_spec(),
                self.same_fonts(old(self)),
            decreases y + 2 - x,
        {
            if x == y {
                self.put_px(x0 + x, y0 + y, Color::Xor);
                self.put_px(x0 - x, y0 + y, Color::Xor);
                self.put_px(x0 + x, y0 - y, Color::Xor);
                self.put_px(x0 - x, y0 - y, Color::Xor);
            } else if x == 0 {
                self.put_px(x0, y0 + y, Color::Xor);
                self.put_px(x0, y0 - y, Color::Xor);
                self.put_px(x0 + y, y0, Color::Xor);
                self.put_px(x0 - y, y0, Color::Xor);
            } else {
                self.put_px(x0 + x, y0 + y, Color::Xor);
                self.put_px(x0 - x, y0 + y, Color::Xor);
                self.put_px(x0 + x, y0 - y, Color::Xor);
                self.put_px(x0 - x, y0 - y, Color::Xor);
                self.put_px(x0 + y, y0 + x, Color::Xor);
                self.put_px(x0 - y, y0 + x, Color::Xor);
                self.put_px(x0 + y, y0 - x, Color::Xor);
                self.put_px(x0 - y, y0 - x, Color::Xor);
            }

            if d < 0 {
                d = d + 2 * (x as i128) + 3;
            } else {
                d = d + 2 * ((x - y) as i128) + 5;
                y = y - 1;
            }
            x = x + 1;
        }

        proof {
            assert forall|px: int, py: int| in_window(px, py) implies self.pixels()[pix(px, py)]
                == (if xor_circle_flip(radius as int, px - x0, py - y0) {
                start[pix(px, py)] ^ 1
            } else {
                start[pix(px, py)]
            }) by {
                lemma_xor_from_pointwise(
                    start,
                    0,
                    radius as int,
                    1 - radius as int,
                    x0 as int,
                    y0 as int,
                    px,
                    py,
                );
            }
            assert(self.pixels().len() == start.len()) by {
                lemma_xor_from_pointwise(
                    start,
                    0,
                    radius as int,
                    1 - radius as int,
                    x0 as int,
                    y0 as int,
                    0,
                    0,
                );
            }
        }
    }
}

} // verus!

verus! {

/// The pixels flipped by an XOR disc of radius `r` (as offsets from the
/// center): exactly the integer points of the Euclidean disc. A radius whose
/// low 32 bits read as a negative machine value flips nothing.
pub open spec fn xor_disc_flip(r: int, dx: int, dy: int) -> bool {
    if r > 0x7fff_ffff {
        false
    } else {
        dx * dx + dy * dy <= r * r
    }
}

/// An offset inside the Euclidean disc is bounded by the radius on each
/// axis.
proof fn lemma_disc_flip_bounds(r: int, dx: int, dy: int)
    requires
        1 <= r <= 0x7fff_ffff,
        xor_disc_flip(r, dx, dy),
    ensures
        -r <= dy <= r,
        -r <= dx <= r,
{
    assert(dx * dx >= 0 && dy * dy >= 0) by (nonlinear_arith);
    assert(dy * dy <= r * r ==> -r <= dy <= r) by (nonlinear_arith)
        requires
            r >= 1,
    ;
    assert(dx * dx <= r * r ==> -r <= dx <= r) by (nonlinear_arith)
        requires
            r >= 1,
    ;
}

impl Canvas {
    /// XOR disc fill: one horizontal run per row, extending to the largest
    /// `x` offset whose squared distance stays within the radius, so that no
    /// pixel is toggled twice.
    fn xor_disc(&mut self, x0: i64, y0: i64, radius: u32)
        requires
            old(self).wf(),
            -0x8000_0000 <= x0 <= 0x8000_0000,
            -0x8000_0000 <= y0 <= 0x8000_0000,
        ensures
            final(self).wf(),
            forall|px: int, py: int|
                in_window(px, py) ==> final(self).pixels()[pix(px, py)] == (if xor_disc_flip(
                    radius as int,
                    px - x0,
                    py - y0,
                ) {
                    old(self).pixels()[pix(px, py)] ^ 1
                } else {
                    old(self).pixels()[pix(px, py)]
                }),
            final(self).color_spec() == old(self).color_spec(),
            final(self).font_spec() == old(self).font_spec(),
            final(self).same_fonts(old(self)),
    {
        if radius == 0 {
            let ghost before = self.pixels();
            self.put_px(x0, y0, Color::Xor);
            assert forall|px: int, py: int| in_window(px, py) implies self.pixels()[pix(px, py)]
                == (if xor_disc_flip(radius as int, px - x0, py - y0) {
                before[pix(px, py)] ^ 1
            } else {
                before[pix(px, py)]
            }) by {
                lemma_write_px_pointwise(before, x0 as int, y0 as int, Color::Xor, px, py);
                assert((px - x0) * (px - x0) + (py - y0) * (py - y0) <= 0 <==> (px == x0 && py
                    == y0)) by (nonlinear_arith);
            }
            return ;
        }
        if radius > 0x7fff_ffff {
            return ;
        }

        let r: i64 = radius as i64;
        proof {
            assert(r * r <= 0x4000_0000_0000_0000) by (nonlinear_arith)
                requires
                    1 <= r <= 0x7fff_ffff,
            ;
        }
        let r_sq: i64 = r * r;
        let mut dy: i64 = -r;

        proof {
            assert forall|px: int, py: int|
                in_window(px, py) && xor_disc_flip(r as int, px - x0, py - y0) implies -(r as int)
                <= py - y0 <= r as int by {
                lemma_disc_flip_bounds(r as int, px - x0, py - y0);
            }
        }

        while dy <= r
            invariant
                self.wf(),
                1 <= r <= 0x7fff_ffff,
                r_sq == r * r,
                -r <= dy <= r + 1,
                -0x8000_0000 <= x0 <= 0x8000_0000,
                -0x8000_0000 <= y0 <= 0x8000_0000,
                forall|px: int, py: int|
                    in_window(px, py) ==> self.pixels()[pix(px, py)] == (if py - y0 < dy
                        && xor_disc_flip(r as int, px - x0, py - y0) {
                        old(self).pixels()[pix(px, py)] ^ 1
                    } else {
                        old(self).pixels()[pix(px, py)]
                    }),
                self.color_spec() == old(self).color_spec(),
                self.font_spec() == old(self).font_spec(),
                self.same_fonts(old(self)),
            decreases r + 1 - dy,
        {
            proof {
                assert(0 <= dy * dy <= r * r) by (nonlinear_arith)
                    requires
                        -r <= dy <= r,
                        r >= 1,
                ;
            }
            let y_sq: i64 = dy * dy;

            let mut x_extent: i64 = 0;
            loop
                invariant_except_break
                    1 <= r <= 0x7fff_ffff,
                    r_sq == r * r,
                    0 <= y_sq <= r_sq,
                    0 <= x_extent <= r,
                    x_extent * x_extent <= r_sq - y_sq,
                ensures
                    1 <= r <= 0x7fff_ffff,
                    0 <= x_extent <= r,
                    x_extent * x_extent <= r_sq - y_sq,
                    (x_extent + 1) * (x_extent + 1) > r_sq - y_sq,
                decreases r - x_extent,
            {
                let nx = x_extent + 1;
                proof {
                    assert(0 <= nx * nx <= 0x4000_0000_2000_0000) by (nonlinear_arith)
                        requires
                            1 <= nx <= 0x8000_0000,
                    ;
                }
                if nx * nx > r_sq - y_sq {
                    break ;
                }
                proof {
                    assert(nx <= r) by (nonlinear_arith)
                        requires
                            nx >= 1,
                            r >= 1,
                            nx * nx <= r * r,
                    ;
                }
                x_extent = nx;
            }

            let ghost row_before = self.pixels();
            let line_y: i64 = y0 + dy;
            let line_x: i64 = x0 - x_extent;
            let line_w: u32 = (2 * x_extent + 1) as u32;
            self.hline(line_x, line_y, line_w, Color::Xor);

            proof {
                let e = x_extent as int;
                let rr = r_sq as int;
                let yy = y_sq as int;
                assert forall|px: int, py: int| in_window(px, py) implies self.pixels()[pix(
                    px,
                    py,
                )] == (if py - y0 < dy + 1 && xor_disc_flip(r as int, px - x0, py - y0) {
                    old(self).pixels()[pix(px, py)] ^ 1
                } else {
                    old(self).pixels()[pix(px, py)]
                }) by {
                    lemma_write_hline_pointwise(
                        row_before,
                        line_x as int,
                        line_y as int,
                        line_w as int,
                        Color::Xor,
                        px,
                        py,
                    );
                    let dxp = px - x0;
                    assert(dxp * dxp <= rr - yy <==> -e <= dxp <= e) by (nonlinear_arith)
                        requires
                            e >= 0,
                            e * e <= rr - yy,
                            (e + 1) * (e + 1) > rr - yy,
                    ;
                    assert((py - y0 == dy as int) ==> ((py - y0) * (py - y0) == yy))
                        by (nonlinear_arith)
                        requires
                            yy == dy * dy,
                    ;
                }
            }
            dy = dy + 1;
        }

        proof {
            assert forall|px: int, py: int|
                in_window(px, py) && xor_disc_flip(r as int, px - x0, py - y0) implies py - y0
                < dy as int by {
                lemma_disc_flip_bounds(r as int, px - x0, py - y0);
            }
        }
    }

    /// Circle outline at the current color. In XOR mode each circle pixel is
    /// toggled exactly once; in the overwriting colors the full midpoint walk
    /// runs over all four quadrants.
    pub fn draw_circle(&mut self, x: i32, y: i32, radius: u32)
        requires
            old(self).wf(),
        ensures
            final(self).wf(),
            old(self).color_spec() == Color::Xor ==> forall|px: int, py: int|
                in_window(px, py) ==> final(self).pixels()[pix(px, py)] == (if xor_circle_flip(
                    radius as int,
                    px - x,
                    py - y,
                ) {
                    old(self).pixels()[pix(px, py)] ^ 1
                } else {
                    old(self).pixels()[pix(px, py)]
                }),
            old(self).color_spec() != Color::Xor && radius <= 0x7fff_ffff ==> final(self).pixels()
                == write_circle_opt(
                old(self).pixels(),
                x as int,
                y as int,
                radius as int,
                ARC_ALL,
                old(self).color_spec(),
            ),
            old(self).color_spec() != Color::Xor && radius > 0x7fff_ffff ==> final(self).pixels()
                == old(self).pixels(),
            final(self).color_spec() == old(self).color_spec(),
            final(self).font_spec() == old(self).font_spec(),
            final(self).same_fonts(old(self)),
    {
        if self.color == Color::Xor {
            self.xor_circle(x as i64, y as i64, radius);
            return ;
        }
        if radius > 0x7fff_ffff {
            return ;
        }
        let c = self.color;
        self.circle_with_option(x as i64, y as i64, radius as i64, ARC_ALL, c);
    }

    /// Disc fill at the current color. In XOR mode the flipped set is
    /// exactly the Euclidean disc, each pixel toggled once; in the
    /// overwriting colors the masked midpoint fill runs over all quadrants.
    pub fn draw_disc(&mut self, x: i32, y: i32, radius: u32)
        requires
            old(self).wf(),
        ensures
            final(self).wf(),
            old(self).color_spec() == Color::Xor ==> forall|px: int, py: int|
                in_window(px, py) ==> final(self).pixels()[pix(px, py)] == (if xor_disc_flip(
                    radius as int,
                    px - x,
                    py - y,
                ) {
                    old(self).pixels()[pix(px, py)] ^ 1
                } else {
                    old(self).pixels()[pix(px, py)]
                }),
            old(self).color_spec() != Color::Xor && radius <= 0x7fff_ffff ==> final(self).pixels()
                == write_disc_opt(
                old(self).pixels(),
                x as int,
                y as int,
                radius as int,
                ARC_ALL,
                old(self).color_spec(),
            ),
            old(self).color_spec() != Color::Xor && radius > 0x7fff_ffff ==> final(self).pixels()
                == old(self).pixels(),
            final(self).color_spec() == old(self).color_spec(),
            final(self).font_spec() == old(self).font_spec(),
            final(self).same_fonts(old(self)),
    {
        if self.color == Color::Xor {
            self.xor_disc(x as i64, y as i64, radius);
            return ;
        }
        if radius > 0x7fff_ffff {
            return ;
        }
        let c = self.color;
        self.disc_with_option(x as i64, y as i64, radius as i64, ARC_ALL, c);
    }
}

/// Drawing the same circle twice in XOR mode restores the framebuffer: both
/// calls toggle exactly the same set of pixels, so every pixel is toggled an
/// even number of times.
pub proof fn lemma_xor_circle_idempotent(
    b0: Seq<u8>,
    b1: Seq<u8>,
    b2: Seq<u8>,
    cx: int,
    cy: int,
    r: int,
)
    requires
        b0.len() == 128 * 64,
        b1.len() == 128 * 64,
        b2.len() == 128 * 64,
        forall|px: int, py: int|
            in_window(px, py) ==> b1[pix(px, py)] == (if xor_circle_flip(r, px - cx, py - cy) {
                b0[pix(px, py)] ^ 1
            } else {
                b0[pix(px, py)]
            }),
        forall|px: int, py: int|
            in_window(px, py) ==> b2[pix(px, py)] == (if xor_circle_flip(r, px - cx, py - cy) {
                b1[pix(px, py)] ^ 1
            } else {
                b1[pix(px, py)]
            }),
    ensures
        b2 =~= b0,
{
    assert forall|i: int| 0 <= i < b0.len() implies b2[i] == b0[i] by {
        let py = i / 128;
        let px = i % 128;
        assert(in_window(px, py) && pix(px, py) == i) by (nonlinear_arith)
            requires
                0 <= i < 128 * 64,
                py == i / 128,
                px == i % 128,
        ;
        let v = b0[i];
        assert((v ^ 1) ^ 1 == v) by (bit_vector);
    }
}

} // verus!

verus! {

/// The clamped corner radius of a rounded rectangle: the requested radius,
/// read as a 32-bit machine value, limited to half the width and height.
pub open spec fn rrect_radius(w: int, h: int, radius: int) -> int {
    let rr: int = if radius > 0x7fff_ffff { -1 } else { radius };
    imin(imin(rr, w / 2), h / 2)
}

/// A rounded rectangle outline: four quarter arcs and four straight edges,
/// each edge shortened by the corner radius. With a clamped radius of zero
/// or below it degenerates to the plain rectangle outline.
pub open spec fn write_rframe(
    buf: Seq<u8>,
    x: int,
    y: int,
    w: int,
    h: int,
    radius: int,
    c: Color,
) -> Seq<u8> {
    if w <= 0 || h <= 0 {
        buf
    } else {
        let r = rrect_radius(w, h, radius);
        if r <= 0 {
            write_frame(buf, x, y, w, h, c)
        } else {
            let xl = x + r;
            let yu = y + r;
            let xr = x + w - r - 1;
            let yl = y + h - r - 1;
            let b1 = write_circle_opt(buf, xl, yu, r, ARC_UPPER_LEFT, c);
            let b2 = write_circle_opt(b1, xr, yu, r, ARC_UPPER_RIGHT, c);
            let b3 = write_circle_opt(b2, xl, yl, r, ARC_LOWER_LEFT, c);
            let b4 = write_circle_opt(b3, xr, yl, r, ARC_LOWER_RIGHT, c);
            let ww = w - r - r;
            let hh = h - r - r;
            let b5 = if ww >= 3 {
                write_hline(write_hline(b4, xl + 1, y, ww - 2, c), xl + 1, y + h - 1, ww - 2, c)
            } else {
                b4
            };
            if hh >= 3 {
                write_vline(write_vline(b5, x, yu + 1, hh - 2, c), x + w - 1, yu + 1, hh - 2, c)
            } else {
                b5
            }
        }
    }
}

/// A filled rounded rectangle: four quarter discs, a top and a bottom cap,
/// and the full-width center band. With a clamped radius of zero or below it
/// degenerates to the plain filled rectangle.
pub open spec fn write_rbox(
    buf: Seq<u8>,
    x: int,
    y: int,
    w: int,
    h: int,
    radius: int,
    c: Color,
) -> Seq<u8> {
    if w <= 0 || h <= 0 {
        buf
    } else {
        let r = rrect_radius(w, h, radius);
        if r <= 0 {
            write_box(buf, x, y, w, h, c)
        } else {
            let xl = x + r;
            let yu = y + r;
            let xr = x + w - r - 1;
            let yl = y + h - r - 1;
            let b1 = write_disc_opt(buf, xl, yu, r, ARC_UPPER_LEFT, c);
            let b2 = write_disc_opt(b1, xr, yu, r, ARC_UPPER_RIGHT, c);
            let b3 = write_disc_opt(b2, xl, yl, r, ARC_LOWER_LEFT, c);
            let b4 = write_disc_opt(b3, xr, yl, r, ARC_LOWER_RIGHT, c);
            let ww = w - r - r;
            let hh = h - r - r;
            let b5 = if ww >= 3 {
                write_box(write_box(b4, xl + 1, y, ww - 2, r + 1, c), xl + 1, yl, ww - 2, r + 1, c)
            } else {
                b4
            };
            if hh >= 3 {
                write_box(b5, x, yu + 1, w, hh - 2, c)
            } else {
                b5
            }
        }
    }
}

impl Canvas {
    /// Rounded rectangle outline. The radius is clamped to half the width
    /// and height first; a clamped radius of zero delegates to `draw_frame`.
    #[verifier::rlimit(60)]
    pub fn draw_rframe(&mut self, x: i32, y: i32, width: u32, height: u32, radius: u32)
        requires
            old(self).wf(),
        ensures
            final(self).wf(),
            final(self).pixels() == write_rframe(
                old(self).pixels(),
                x as int,
                y as int,
                width as int,
                height as int,
                radius as int,
                old(self).color_spec(),
            ),
            final(self).color_spec() == old(self).color_spec(),
            final(self).font_spec() == old(self).font_spec(),
            final(self).same_fonts(old(self)),
    {
        if width == 0 || height == 0 {
            return ;
        }
        let c = self.color;
        let w = width as i64;
        let h = height as i64;
        let mut r: i64 = if radius > 0x7fff_ffff {
            -1
        } else {
            radius as i64
        };
        if r > w / 2 {
            r = w / 2;
        }
        if r > h / 2 {
            r = h / 2;
        }
        if r <= 0 {
            self.draw_frame(x, y, width, height);
            return ;
        }

        let xl = x as i64 + r;
        let yu = y as i64 + r;
        let xr = x as i64 + w - r - 1;
        let yl = y as i64 + h - r - 1;

        self.circle_with_option(xl, yu, r, ARC_UPPER_LEFT, c);
        self.circle_with_option(xr, yu, r, ARC_UPPER_RIGHT, c);
        self.circle_with_option(xl, yl, r, ARC_LOWER_LEFT, c);
        self.circle_with_option(xr, yl, r, ARC_LOWER_RIGHT, c);

        let ww = w - r - r;
        let hh = h - r - r;

        if ww >= 3 {
            self.hline(xl + 1, y as i64, (ww - 2) as u32, c);
            self.hline(xl + 1, y as i64 + h - 1, (ww - 2) as u32, c);
        }
        if hh >= 3 {
            self.vline(x as i64, yu + 1, (hh - 2) as u32, c);
            self.vline(x as i64 + w - 1, yu + 1, (hh - 2) as u32, c);
        }
    }

    /// Filled rounded rectangle. The radius is clamped to half the width
    /// and height first; a clamped radius of zero delegates to `draw_box`.
    #[verifier::rlimit(60)]
    pub fn draw_rbox(&mut self, x: i32, y: i32, width: u32, height: u32, radius: u32)
        requires
            old(self).wf(),
        ensures
            final(self).wf(),
            final(self).pixels() == write_rbox(
                old(self).pixels(),
                x as int,
                y as int,
                width as int,
                height as int,
                radius as int,
                old(self).color_spec(),
            ),
            final(self).color_spec() == old(self).color_spec(),
            final(self).font_spec() == old(self).font_spec(),
            final(self).same_fonts(old(self)),
    {
        if width == 0 || height == 0 {
            return ;
        }
        let c = self.color;
        let w = width as i64;
        let h = height as i64;
        let mut r: i64 = if radius > 0x7fff_ffff {
            -1
        } else {
            radius as i64
        };
        if r > w / 2 {
            r = w / 2;
        }
        if r > h / 2 {
            r = h / 2;
        }
        if r <= 0 {
            self.box_fill(x as i64, y as i64, width, height, c);
            return ;
        }

        let xl = x as i64 + r;
        let yu = y as i64 + r;
        let xr = x as i64 + w - r - 1;
        let yl = y as i64 + h - r - 1;

        self.disc_with_option(xl, yu, r, ARC_UPPER_LEFT, c);
        self.disc_with_option(xr, yu, r, ARC_UPPER_RIGHT, c);
        self.disc_with_option(xl, yl, r, ARC_LOWER_LEFT, c);
        self.disc_with_option(xr, yl, r, ARC_LOWER_RIGHT, c);

        let ww = w - r - r;
        let hh = h - r - r;

        if ww >= 3 {
            self.box_fill(xl + 1, y as i64, (ww - 2) as u32, (r + 1) as u32, c);
            self.box_fill(xl + 1, yl, (ww - 2) as u32, (r + 1) as u32, c);
        }
        if hh >= 3 {
            self.box_fill(x as i64, yu + 1, width, (hh - 2) as u32, c);
        }
    }
}

/// Every requested corner radius at or above half the smaller side draws the
/// same rounded rectangle: the radius is clamped before any pixel is
/// written, so the outline and the fill depend on the radius only through
/// the clamp.
pub proof fn lemma_rrect_radius_clamped(
    buf: Seq<u8>,
    x: int,
    y: int,
    w: int,
    h: int,
    r1: int,
    r2: int,
    c: Color,
)
    requires
        imin(w / 2, h / 2) <= r1 <= 0x7fff_ffff,
        imin(w / 2, h / 2) <= r2 <= 0x7fff_ffff,
    ensures
        write_rframe(buf, x, y, w, h, r1, c) == write_rframe(buf, x, y, w, h, r2, c),
        write_rbox(buf, x, y, w, h, r1, c) == write_rbox(buf, x, y, w, h, r2, c),
{
    assert(rrect_radius(w, h, r1) == rrect_radius(w, h, r2));
}

} // verus!

verus! {

/// Number of black cells in row `y` among columns below `n`.
pub open spec fn count_in_row(buf: Seq<u8>, y: int, n: int) -> int
    decreases n,
{
    if n <= 0 {
        0
    } else {
        count_in_row(buf, y, n - 1) + if buf[pix(n - 1, y)] == 1 {
            1int
        } else {
            0int
        }
    }
}

/// Number of black cells in all rows below `n`.
pub open spec fn count_rows(buf: Seq<u8>, n: int) -> int
    decreases n,
{
    if n <= 0 {
        0
    } else {
        count_rows(buf, n - 1) + count_in_row(buf, n - 1, 128)
    }
}

/// Number of black cells on the whole display.
pub open spec fn black_count(buf: Seq<u8>) -> int {
    count_rows(buf, 64)
}

/// Count of a row whose black cells form the interval `[a, b)`.
proof fn lemma_row_interval(buf: Seq<u8>, yr: int, a: int, b: int, n: int)
    requires
        0 <= a <= b,
        0 <= n <= 128,
        forall|px: int| 0 <= px < 128 ==> (buf[pix(px, yr)] == 1 <==> a <= px < b),
    ensures
        count_in_row(buf, yr, n) == (if n <= a {
            0int
        } else if n <= b {
            n - a
        } else {
            b - a
        }),
    decreases n,
{
    if n > 0 {
        lemma_row_interval(buf, yr, a, b, n - 1);
    }
}

/// Count of a row whose black cells are exactly the two columns `x1`, `x2`.
proof fn lemma_row_pair(buf: Seq<u8>, yr: int, x1: int, x2: int, n: int)
    requires
        0 <= x1 < x2 < 128,
        0 <= n <= 128,
        forall|px: int| 0 <= px < 128 ==> (buf[pix(px, yr)] == 1 <==> (px == x1 || px == x2)),
    ensures
        count_in_row(buf, yr, n) == (if n <= x1 {
            0int
        } else if n <= x2 {
            1int
        } else {
            2int
        }),
    decreases n,
{
    if n > 0 {
        lemma_row_pair(buf, yr, x1, x2, n - 1);
    }
}

/// Count of a row with no black cell.
proof fn lemma_row_empty(buf: Seq<u8>, yr: int, n: int)
    requires
        0 <= n <= 128,
        forall|px: int| 0 <= px < 128 ==> buf[pix(px, yr)] != 1,
    ensures
        count_in_row(buf, yr, n) == 0,
    decreases n,
{
    if n > 0 {
        lemma_row_empty(buf, yr, n - 1);
    }
}

/// Running total of black cells over the rows of a buffer whose black cells
/// are exactly a rectangle outline.
proof fn lemma_frame_rows(buf: Seq<u8>, x: int, y: int, w: int, h: int, n: int)
    requires
        2 <= w,
        2 <= h,
        0 <= x,
        x + w <= 128,
        0 <= y,
        y + h <= 64,
        0 <= n <= 64,
        forall|px: int, py: int|
            in_window(px, py) ==> (buf[pix(px, py)] == 1 <==> on_frame(x, y, w, h, px, py)),
    ensures
        count_rows(buf, n) == (if n <= y {
            0int
        } else if n <= y + h - 1 {
            w + 2 * (n - y - 1)
        } else if n <= y + h {
            2 * w + 2 * (h - 2)
        } else {
            2 * w + 2 * (h - 2)
        }),
    decreases n,
{
    if n > 0 {
        lemma_frame_rows(buf, x, y, w, h, n - 1);
        let yr = n - 1;
        if yr < y || yr >= y + h {
            assert forall|px: int| 0 <= px < 128 implies buf[pix(px, yr)] != 1 by {
                assert(in_window(px, yr));
                assert(!on_frame(x, y, w, h, px, yr));
            }
            lemma_row_empty(buf, yr, 128);
        } else if yr == y || yr == y + h - 1 {
            assert forall|px: int| 0 <= px < 128 implies (buf[pix(px, yr)] == 1 <==> x <= px < x
                + w) by {
                assert(in_window(px, yr));
            }
            lemma_row_interval(buf, yr, x, x + w, 128);
        } else {
            assert forall|px: int| 0 <= px < 128 implies (buf[pix(px, yr)] == 1 <==> (px == x || px
                == x + w - 1)) by {
                assert(in_window(px, yr));
            }
            lemma_row_pair(buf, yr, x, x + w - 1, 128);
        }
    }
}

/// Drawing a frame in black on a cleared canvas paints exactly
/// `2 * w + 2 * (h - 2)` distinct pixels when the frame lies inside the
/// window and both sides are at least two pixels long.
pub proof fn lemma_frame_pixel_count(b0: Seq<u8>, x: int, y: int, w: int, h: int)
    requires
        b0.len() == 128 * 64,
        forall|i: int| 0 <= i < b0.len() ==> b0[i] == 0,
        2 <= w,
        2 <= h,
        0 <= x,
        x + w <= 128,
        0 <= y,
        y + h <= 64,
    ensures
        black_count(write_frame(b0, x, y, w, h, Color::Black)) == 2 * w + 2 * (h - 2),
{
    let b1 = write_frame(b0, x, y, w, h, Color::Black);
    assert forall|px: int, py: int| in_window(px, py) implies (b1[pix(px, py)] == 1 <==> on_frame(
        x,
        y,
        w,
        h,
        px,
        py,
    )) by {
        lemma_write_frame_pointwise(b0, x, y, w, h, Color::Black, px, py);
        assert(0 <= pix(px, py) < 128 * 64) by (nonlinear_arith)
            requires
                in_window(px, py),
                pix(px, py) == py * 128 + px,
        ;
    }
    lemma_frame_rows(b1, x, y, w, h, 64);
}

} // verus!

verus! {

impl Canvas {
    /// Draw a string at `(x, y)` in the current font and color; `y` is the
    /// baseline. Codepoints are decoded from UTF-8 up to NUL or LF, and
    /// each glyph of the resident container for the current font advances
    /// the pen by its advance.
    pub fn draw_str(&mut self, x: i32, y: i32, text: &str)
        requires
            old(self).wf(),
        ensures
            final(self).wf(),
            final(self).pixels() == crate::font::draw_str_fold(
                old(self).font_container(old(self).font_spec()).data_spec(),
                old(self).font_container(old(self).font_spec()).info_spec(),
                text.spec_bytes(),
                0,
                0,
                0,
                old(self).pixels(),
                x as int,
                y as int,
                old(self).color_spec(),
            ),
            text.spec_bytes().len() == 0 ==> final(self).pixels() == old(self).pixels(),
            final(self).color_spec() == old(self).color_spec(),
            final(self).font_spec() == old(self).font_spec(),
            final(self).same_fonts(old(self)),
    {
        let fd = match self.font {
            Font::Primary => self.font_primary.snapshot(),
            Font::Secondary => self.font_secondary.snapshot(),
            Font::Keyboard => self.font_keyboard.snapshot(),
            Font::BigNumbers => self.font_big.snapshot(),
        };
        let c = self.color;
        fd.draw_str(self, x, y, text, c);
    }

    /// The measured width of a string in the resident container for the
    /// current font: the summed glyph advances up to NUL or LF, with the
    /// trailing glyph measured by its inked width.
    pub fn string_width(&self, text: &str) -> (r: u32)
        requires
            self.wf(),
        ensures
            r == crate::font::spec_string_width(
                self.font_container(self.font_spec()).data_spec(),
                self.font_container(self.font_spec()).info_spec(),
                text.spec_bytes(),
            ),
    {
        let fd = match self.font {
            Font::Primary => &self.font_primary,
            Font::Secondary => &self.font_secondary,
            Font::Keyboard => &self.font_keyboard,
            Font::BigNumbers => &self.font_big,
        };
        fd.string_width(text)
    }
}

} // verus!

verus! {

/// A line whose endpoints coincide plots exactly that one pixel.
pub proof fn lemma_degenerate_line_plots_one_pixel(buf: Seq<u8>, x: int, y: int, c: Color)
    ensures
        write_line(buf, x, y, x, y, c) == write_px(buf, x, y, c),
{
    assert(write_line_from(write_px(buf, x, y, c), x + 1, y, 0, x, 0, 0, -1, false, c)
        == write_px(buf, x, y, c));
    assert(write_line_from(buf, x, y, 0, x, 0, 0, -1, false, c) == write_px(buf, x, y, c));
}

} // verus!
