//! The bit-packed proportional font engine: a 23-byte container header,
//! per-glyph records found by three jump offsets, and a per-glyph
//! bit-stream holding the cell metrics and run-length-packed rows. Strings
//! are decoded from UTF-8 with a small state machine that stops at NUL or
//! LF.

use vstd::prelude::*;
use vstd::string::StringSliceAdditionalSpecFns;

use crate::canvas::Canvas;
use crate::canvas::write_hline;
use crate::types::Color;

verus! {

/// Size of the container header.
pub const FONT_HEADER_SIZE: usize = 23;

/// A byte of the container, with reads past the end giving zero.
pub open spec fn byte_at(d: Seq<u8>, i: int) -> u8 {
    if 0 <= i < d.len() {
        d[i]
    } else {
        0
    }
}

/// A big-endian 16-bit read, with reads past the end giving zero bytes.
pub open spec fn spec_read_u16(d: Seq<u8>, i: int) -> u16 {
    ((byte_at(d, i) as u16) << 8) | (byte_at(d, i + 1) as u16)
}

/// Read a big-endian 16-bit value.
pub fn read_u16(data: &[u8], index: usize) -> (r: u16)
    ensures
        r == spec_read_u16(data@, index as int),
{
    let high = if index < data.len() {
        data[index]
    } else {
        0
    };
    let low = if index < usize::MAX && index + 1 < data.len() {
        data[index + 1]
    } else {
        0
    };
    ((high as u16) << 8) | (low as u16)
}

/// Read a big-endian 16-bit value at a wide offset; offsets past the
/// address space read as zero, like offsets past the container.
fn read_u16_wide(data: &[u8], index: u128) -> (r: u16)
    ensures
        r == spec_read_u16(data@, index as int),
{
    let n = data.len();
    if index < n as u128 {
        read_u16(data, index as usize)
    } else {
        proof {
            assert(byte_at(data@, index as int) == 0);
            assert(byte_at(data@, index as int + 1) == 0);
            assert(((0u8 as u16) << 8) | (0u8 as u16) == 0) by (bit_vector);
        }
        0
    }
}

/// The header fields the decoder reads: the per-field bit widths and the
/// three jump offsets.
#[derive(Clone, Copy, PartialEq, Eq, Structural, Debug)]
pub struct FontInfo {
    pub bits_per_0: u8,
    pub bits_per_1: u8,
    pub bits_per_char_width: u8,
    pub bits_per_char_height: u8,
    pub bits_per_char_x: u8,
    pub bits_per_char_y: u8,
    pub bits_per_delta_x: u8,
    pub start_pos_upper_a: u16,
    pub start_pos_lower_a: u16,
    pub start_pos_unicode: u16,
}

/// The header decoded from a container.
pub open spec fn spec_font_info(d: Seq<u8>) -> FontInfo {
    FontInfo {
        bits_per_0: byte_at(d, 2),
        bits_per_1: byte_at(d, 3),
        bits_per_char_width: byte_at(d, 4),
        bits_per_char_height: byte_at(d, 5),
        bits_per_char_x: byte_at(d, 6),
        bits_per_char_y: byte_at(d, 7),
        bits_per_delta_x: byte_at(d, 8),
        start_pos_upper_a: spec_read_u16(d, 17),
        start_pos_lower_a: spec_read_u16(d, 19),
        start_pos_unicode: spec_read_u16(d, 21),
    }
}

impl FontInfo {
    /// Decode the header of a container.
    pub fn from_data(data: &[u8]) -> (r: FontInfo)
        ensures
            r == spec_font_info(data@),
    {
        let get = |idx: usize| -> (b: u8)
            ensures
                b == byte_at(data@, idx as int),
            {
                if idx < data.len() {
                    data[idx]
                } else {
                    0
                }
            };
        FontInfo {
            bits_per_0: get(2),
            bits_per_1: get(3),
            bits_per_char_width: get(4),
            bits_per_char_height: get(5),
            bits_per_char_x: get(6),
            bits_per_char_y: get(7),
            bits_per_delta_x: get(8),
            start_pos_upper_a: read_u16(data, 17),
            start_pos_lower_a: read_u16(data, 19),
            start_pos_unicode: read_u16(data, 21),
        }
    }

    /// The header widths fit the one-byte reads the decoder makes.
    pub open spec fn wf(&self) -> bool {
        &&& self.bits_per_0 <= 8
        &&& self.bits_per_1 <= 8
        &&& self.bits_per_char_width <= 8
        &&& self.bits_per_char_height <= 8
        &&& self.bits_per_char_x <= 8
        &&& self.bits_per_char_y <= 8
        &&& self.bits_per_delta_x <= 8
    }
}

/// The bit-stream cursor: a byte offset and a bit position inside it.
#[derive(Clone, Copy, PartialEq, Eq, Structural, Debug)]
pub struct BitCursor {
    pub ptr: usize,
    pub bit_pos: u8,
}

/// The value of an up-to-8-bit little-endian field at a cursor.
pub open spec fn bits_value(d: Seq<u8>, cur: BitCursor, cnt: u8) -> u8 {
    if cnt == 0 {
        0
    } else {
        let v0 = (byte_at(d, cur.ptr as int) as u16) >> (cur.bit_pos as u16);
        let v = if cur.bit_pos + cnt >= 8 {
            v0 | ((byte_at(d, cur.ptr as int + 1) as u16) << ((8 - cur.bit_pos) as u16))
        } else {
            v0
        };
        (v & ((((1u16) << (cnt as u16)) - 1) as u16)) as u8
    }
}

/// The cursor after reading an up-to-8-bit field: the byte offset advances
/// (saturating) when the read crosses a byte boundary.
pub open spec fn bits_next(d: Seq<u8>, cur: BitCursor, cnt: u8) -> BitCursor {
    if cnt == 0 {
        cur
    } else if cur.bit_pos + cnt >= 8 {
        BitCursor {
            ptr: if cur.ptr < usize::MAX {
                (cur.ptr + 1) as usize
            } else {
                usize::MAX as usize
            },
            bit_pos: (cur.bit_pos + cnt - 8) as u8,
        }
    } else {
        BitCursor { ptr: cur.ptr, bit_pos: (cur.bit_pos + cnt) as u8 }
    }
}

/// Read an unsigned bit field at the cursor, advancing it.
pub fn get_unsigned_bits(data: &[u8], cur: &mut BitCursor, cnt: u8) -> (r: u8)
    requires
        cnt <= 8,
        old(cur).bit_pos < 8,
    ensures
        r == bits_value(data@, *old(cur), cnt),
        *final(cur) == bits_next(data@, *old(cur), cnt),
        final(cur).bit_pos < 8,
        r < (1u16 << (cnt as u16)),
{
    if cnt == 0 {
        proof {
            assert(0 < (1u16 << (0u16))) by (bit_vector);
        }
        return 0;
    }
    let b0 = if cur.ptr < data.len() {
        data[cur.ptr]
    } else {
        0
    };
    let mut val: u16 = (b0 as u16) >> (cur.bit_pos as u16);
    let bit_pos_plus_cnt = cur.bit_pos + cnt;
    if bit_pos_plus_cnt >= 8 {
        let next_ptr = if cur.ptr < usize::MAX {
            cur.ptr + 1
        } else {
            usize::MAX
        };
        let b1 = if next_ptr < data.len() {
            data[next_ptr]
        } else {
            0
        };
        let shift = 8 - cur.bit_pos;
        proof {
            assert((b1 as u16) << (shift as u16) <= 0xff00) by (bit_vector)
                requires
                    shift <= 8,
            ;
        }
        val = val | ((b1 as u16) << (shift as u16));
        cur.ptr = next_ptr;
        cur.bit_pos = bit_pos_plus_cnt - 8;
    } else {
        cur.bit_pos = bit_pos_plus_cnt;
    }
    proof {
        assert((1u16 << (cnt as u16)) >= 1) by (bit_vector)
            requires
                cnt <= 8,
        ;
    }
    let mask: u16 = (1u16 << (cnt as u16)) - 1;
    let r16 = val & mask;
    proof {
        assert(r16 <= mask && mask <= 0xff && r16 < (1u16 << (cnt as u16))) by (bit_vector)
            requires
                r16 == val & mask,
                mask == (1u16 << (cnt as u16)) - 1,
                1 <= cnt <= 8,
        ;
    }
    r16 as u8
}

/// The signed value of a bit field: the raw value shifted down by half the
/// field's range.
pub open spec fn signed_of(raw: u8, cnt: u8) -> int {
    raw - ((1u16 << ((cnt - 1) as u16)) as int)
}

/// Read a signed bit field at the cursor, advancing it.
pub fn get_signed_bits(data: &[u8], cur: &mut BitCursor, cnt: u8) -> (r: i16)
    requires
        1 <= cnt <= 8,
        old(cur).bit_pos < 8,
    ensures
        r == signed_of(bits_value(data@, *old(cur), cnt), cnt),
        *final(cur) == bits_next(data@, *old(cur), cnt),
        final(cur).bit_pos < 8,
        -128 <= r <= 127,
{
    let v = get_unsigned_bits(data, cur, cnt);
    let d = 1u16 << ((cnt - 1) as u16);
    proof {
        assert(1u16 << ((cnt - 1) as u16) <= 128 && (1u16 << ((cnt - 1) as u16)) >= 1)
            by (bit_vector)
            requires
                1 <= cnt <= 8,
        ;
        assert(v < (1u16 << (cnt as u16)) && (1u16 << (cnt as u16)) <= 2 * (1u16 << ((cnt - 1)
            as u16))) by (bit_vector)
            requires
                1 <= cnt <= 8,
                v < (1u16 << (cnt as u16)),
        ;
    }
    v as i16 - d as i16
}

} // verus!

verus! {

/// The result of feeding one byte to the UTF-8 decoder.
#[derive(Clone, Copy, PartialEq, Eq, Structural, Debug)]
pub enum Utf8Result {
    /// NUL or LF: the string ends here.
    End,
    /// The byte continues a multi-byte sequence.
    Continue,
    /// A codepoint is complete (truncated to 16 bits).
    Codepoint(u16),
}

/// The UTF-8 decoder state after one byte, and what the byte produced.
pub open spec fn utf8_step(state: u8, enc: u16, b: u8) -> (u8, u16, Utf8Result) {
    if b == 0 || b == 10 {
        (0u8, enc, Utf8Result::End)
    } else if state == 0 {
        if b >= 0xfc {
            (5u8, (b & 0x01) as u16, Utf8Result::Continue)
        } else if b >= 0xf8 {
            (4u8, (b & 0x03) as u16, Utf8Result::Continue)
        } else if b >= 0xf0 {
            (3u8, (b & 0x07) as u16, Utf8Result::Continue)
        } else if b >= 0xe0 {
            (2u8, (b & 0x0f) as u16, Utf8Result::Continue)
        } else if b >= 0xc0 {
            (1u8, (b & 0x1f) as u16, Utf8Result::Continue)
        } else {
            (0u8, enc, Utf8Result::Codepoint(b as u16))
        }
    } else {
        let state2 = (state - 1) as u8;
        let enc2 = ((enc << 6) | ((b & 0x3f) as u16)) as u16;
        if state2 != 0 {
            (state2, enc2, Utf8Result::Continue)
        } else {
            (state2, enc2, Utf8Result::Codepoint(enc2))
        }
    }
}

/// The 5-state UTF-8 decoder: accepts 2-6 byte sequences, stops at NUL or
/// LF, and hands codepoints out truncated to 16 bits.
pub struct Utf8Decoder {
    state: u8,
    encoding: u16,
}

impl Utf8Decoder {
    /// Remaining continuation bytes of the open sequence.
    pub closed spec fn state_spec(&self) -> u8 {
        self.state
    }

    /// The partial codepoint of the open sequence.
    pub closed spec fn encoding_spec(&self) -> u16 {
        self.encoding
    }

    /// A decoder at the start of a string.
    pub fn new() -> (r: Utf8Decoder)
        ensures
            r.state_spec() == 0,
            r.encoding_spec() == 0,
    {
        Utf8Decoder { state: 0, encoding: 0 }
    }

    /// Feed one byte.
    pub fn next(&mut self, byte: u8) -> (r: Utf8Result)
        ensures
            (final(self).state_spec(), final(self).encoding_spec(), r) == utf8_step(
                old(self).state_spec(),
                old(self).encoding_spec(),
                byte,
            ),
    {
        if byte == 0 || byte == 10 {
            self.state = 0;
            return Utf8Result::End;
        }

        if self.state == 0 {
            if byte >= 0xfc {
                self.state = 5;
                self.encoding = (byte & 0x01) as u16;
                return Utf8Result::Continue;
            }
            if byte >= 0xf8 {
                self.state = 4;
                self.encoding = (byte & 0x03) as u16;
                return Utf8Result::Continue;
            }
            if byte >= 0xf0 {
                self.state = 3;
                self.encoding = (byte & 0x07) as u16;
                return Utf8Result::Continue;
            }
            if byte >= 0xe0 {
                self.state = 2;
                self.encoding = (byte & 0x0f) as u16;
                return Utf8Result::Continue;
            }
            if byte >= 0xc0 {
                self.state = 1;
                self.encoding = (byte & 0x1f) as u16;
                return Utf8Result::Continue;
            }
            return Utf8Result::Codepoint(byte as u16);
        }

        self.state = self.state - 1;
        let e = self.encoding;
        proof {
            assert(((e << 6) | ((byte & 0x3f) as u16)) <= 0xffff) by (bit_vector);
        }
        self.encoding = (e << 6) | ((byte & 0x3f) as u16);
        if self.state != 0 {
            return Utf8Result::Continue;
        }
        Utf8Result::Codepoint(self.encoding)
    }
}

/// Scan one-byte-encoded glyph records from `idx`: each record begins with
/// its encoding and its total size; a zero size ends the table.
pub open spec fn scan_byte_records(d: Seq<u8>, idx: int, enc: int) -> Option<int>
    decreases (if idx < d.len() { d.len() - idx } else { 0 }),
{
    if !(0 <= idx && idx + 1 < d.len()) {
        None
    } else {
        let ge = byte_at(d, idx) as int;
        let size = byte_at(d, idx + 1) as int;
        if size == 0 {
            None
        } else if ge == enc {
            Some(idx + 2)
        } else {
            scan_byte_records(d, idx + size, enc)
        }
    }
}

/// Follow the unicode jump index from `lookup`: sum jumps until the next
/// encoding reaches the target, giving the record offset to scan from.
pub open spec fn scan_jump(d: Seq<u8>, fi: int, lookup: int, enc: int) -> Option<int>
    decreases (if lookup < d.len() { d.len() - lookup } else { 0 }),
{
    let jump = spec_read_u16(d, lookup) as int;
    let next_enc = spec_read_u16(d, lookup + 2) as int;
    let fi2 = if fi + jump <= usize::MAX {
        fi + jump
    } else {
        usize::MAX as int
    };
    let lookup2 = lookup + 4;
    if next_enc >= enc {
        Some(fi2)
    } else if lookup2 + 3 >= d.len() {
        None
    } else {
        scan_jump(d, fi2, lookup2, enc)
    }
}

/// Scan two-byte-encoded glyph records from `fi`: a zero encoding or a zero
/// size ends the table.
pub open spec fn scan_wide_records(d: Seq<u8>, fi: int, enc: int) -> Option<int>
    decreases (if fi < d.len() { d.len() - fi } else { 0 }),
{
    if !(0 <= fi && fi + 2 < d.len()) {
        None
    } else {
        let ge = ((byte_at(d, fi) as int) * 256) + (byte_at(d, fi + 1) as int);
        if ge == 0 {
            None
        } else {
            let size = byte_at(d, fi + 2) as int;
            if ge == enc {
                Some(fi + 3)
            } else if size == 0 {
                None
            } else {
                scan_wide_records(d, fi + size, enc)
            }
        }
    }
}

/// The offset of a glyph's bit-stream in the container: codepoints up to
/// 0xFF scan the byte-encoded table (entered at one of the three jump
/// offsets), larger ones follow the unicode index.
pub open spec fn spec_glyph_offset(d: Seq<u8>, enc: int) -> Option<int> {
    let info = spec_font_info(d);
    if d.len() < 23 {
        None
    } else if enc <= 0xff {
        let base: int = if enc >= 97 {
            23 + info.start_pos_lower_a as int
        } else if enc >= 65 {
            23 + info.start_pos_upper_a as int
        } else {
            23
        };
        scan_byte_records(d, base, enc)
    } else {
        if info.start_pos_unicode == 0 {
            None
        } else {
            let fi = 23 + info.start_pos_unicode as int;
            match scan_jump(d, fi, fi, enc) {
                Some(record_fi) => scan_wide_records(d, record_fi, enc),
                None => None,
            }
        }
    }
}

} // verus!

verus! {

/// A glyph's metric fields, read from the head of its bit-stream.
#[derive(Clone, Copy, PartialEq, Eq, Structural, Debug)]
pub struct GlyphHead {
    pub width: u8,
    pub height: u8,
    pub x_offset: i16,
    pub y_offset: i16,
    pub delta_x: i16,
    pub cursor: BitCursor,
}

/// The value of a signed field, with a zero-width field reading zero.
pub open spec fn signed_field(d: Seq<u8>, cur: BitCursor, cnt: u8) -> int {
    if cnt == 0 {
        0
    } else {
        signed_of(bits_value(d, cur, cnt), cnt)
    }
}

/// The metric fields at a glyph's bit-stream offset, and the cursor left
/// after them.
pub open spec fn spec_glyph_head(d: Seq<u8>, info: FontInfo, start: usize) -> GlyphHead {
    let c0 = BitCursor { ptr: start, bit_pos: 0u8 };
    let w = bits_value(d, c0, info.bits_per_char_width);
    let c1 = bits_next(d, c0, info.bits_per_char_width);
    let h = bits_value(d, c1, info.bits_per_char_height);
    let c2 = bits_next(d, c1, info.bits_per_char_height);
    let xo = signed_field(d, c2, info.bits_per_char_x);
    let c3 = bits_next(d, c2, info.bits_per_char_x);
    let yo = signed_field(d, c3, info.bits_per_char_y);
    let c4 = bits_next(d, c3, info.bits_per_char_y);
    let dl = signed_field(d, c4, info.bits_per_delta_x);
    let c5 = bits_next(d, c4, info.bits_per_delta_x);
    GlyphHead {
        width: w,
        height: h,
        x_offset: xo as i16,
        y_offset: yo as i16,
        delta_x: dl as i16,
        cursor: c5,
    }
}

/// A bit-packed font container whose header has been validated.
pub struct FontData {
    data: Vec<u8>,
    info: FontInfo,
}

/// A target the font engine rasterizes into.
pub trait FontDrawTarget {
    /// Draw a horizontal run at an explicit color.
    fn draw_hline_with_color(&mut self, x: i32, y: i32, length: u32, color: Color);
}

/// Copy a byte vector.
fn copy_byte_vec(v: &Vec<u8>) -> (r: Vec<u8>)
    ensures
        r@ == v@,
{
    let mut out: Vec<u8> = Vec::new();
    let mut i: usize = 0;
    while i < v.len()
        invariant
            i <= v@.len(),
            out@ == v@.take(i as int),
        decreases v@.len() - i,
    {
        out.push(v[i]);
        proof {
            assert(out@ =~= v@.take(i as int + 1));
        }
        i = i + 1;
    }
    proof {
        assert(v@.take(v@.len() as int) =~= v@);
    }
    out
}

impl FontData {
    /// A copy of this container.
    pub fn snapshot(&self) -> (r: FontData)
        ensures
            r.data_spec() == self.data_spec(),
            r.info_spec() == self.info_spec(),
            self.wf() ==> r.wf(),
    {
        FontData { data: copy_byte_vec(&self.data), info: self.info }
    }

    /// The container bytes.
    pub closed spec fn data_spec(&self) -> Seq<u8> {
        self.data@
    }

    /// The decoded header matches the bytes and its field widths fit the
    /// one-byte reads of the decoder.
    pub open spec fn wf(&self) -> bool {
        self.info_spec() == spec_font_info(self.data_spec()) && self.info_spec().wf()
    }

    /// The decoded header.
    pub closed spec fn info_spec(&self) -> FontInfo {
        self.info
    }

    /// Validate and take ownership of a font container. Rejected when a
    /// header field width exceeds the eight bits one read can return.
    pub fn from_bytes(data: Vec<u8>) -> (r: Option<FontData>)
        ensures
            r matches Some(f) ==> f.wf() && f.data_spec() == data@,
            r is None <==> !spec_font_info(data@).wf(),
    {
        let info = FontInfo::from_data(data.as_slice());
        if info.bits_per_0 > 8 || info.bits_per_1 > 8 || info.bits_per_char_width > 8
            || info.bits_per_char_height > 8 || info.bits_per_char_x > 8 || info.bits_per_char_y
            > 8 || info.bits_per_delta_x > 8 {
            return None;
        }
        Some(FontData { data, info })
    }

    /// The resident container for a font selection. The built-in containers
    /// are empty: glyph bitmaps are assets a host port supplies through
    /// `from_bytes`, and an empty container has no glyphs.
    pub fn from_font(font: crate::types::Font) -> (r: FontData)
        ensures
            r.wf(),
            r.data_spec() == Seq::<u8>::empty(),
    {
        let _ = font;
        let data: Vec<u8> = Vec::new();
        proof {
            assert(data@ =~= Seq::<u8>::empty());
        }
        let info = FontInfo::from_data(data.as_slice());
        FontData { data, info }
    }

    /// The offset of a glyph's bit-stream, when the container has the glyph.
    pub fn glyph_data_offset(&self, encoding: u16) -> (r: Option<usize>)
        requires
            self.wf(),
        ensures
            (match r {
                Some(off) => spec_glyph_offset(self.data_spec(), encoding as int) == Some(
                    off as int,
                ),
                None => spec_glyph_offset(self.data_spec(), encoding as int) is None,
            }),
    {
        let data = self.data.as_slice();
        let n = data.len();
        let ghost d = self.data_spec();
        if n < FONT_HEADER_SIZE {
            return None;
        }

        if encoding <= 0xff {
            let mut index: u128 = FONT_HEADER_SIZE as u128;
            if encoding >= 97 {
                index = index + self.info.start_pos_lower_a as u128;
            } else if encoding >= 65 {
                index = index + self.info.start_pos_upper_a as u128;
            }
            let ghost base = index as int;

            loop
                invariant_except_break
                    n == d.len(),
                    data@ == d,
                    d == self.data_spec(),
                    index < 0x2_0000_0000_0000_0000,
                    spec_glyph_offset(d, encoding as int) == scan_byte_records(
                        d,
                        base,
                        encoding as int,
                    ),
                    scan_byte_records(d, index as int, encoding as int) == scan_byte_records(
                        d,
                        base,
                        encoding as int,
                    ),
                ensures
                    scan_byte_records(d, base, encoding as int) is None,
                decreases (if (index as int) < n as int {
                    n as int - index as int
                } else {
                    0int
                }),
            {
                if !(index + 1 < n as u128) {
                    proof {
                        assert(scan_byte_records(d, index as int, encoding as int) is None);
                    }
                    break ;
                }
                proof {
                    assert(index < n as u128);
                }
                let i = index as usize;
                proof {
                    assert(i as int == index as int);
                }
                let glyph_encoding = data[i];
                let glyph_size = data[i + 1];
                if glyph_size == 0 {
                    proof {
                        assert(scan_byte_records(d, index as int, encoding as int) is None);
                    }
                    break ;
                }
                if glyph_encoding as u16 == encoding {
                    proof {
                        assert(scan_byte_records(d, index as int, encoding as int) == Some(
                            index as int + 2,
                        ));
                    }
                    return Some(i + 2);
                }
                proof {
                    assert(scan_byte_records(d, index as int, encoding as int)
                        == scan_byte_records(d, index as int + glyph_size as int, encoding as int));
                }
                index = index + glyph_size as u128;
            }
            return None;
        }

        let unicode_start = self.info.start_pos_unicode;
        if unicode_start == 0 {
            return None;
        }

        let start: u128 = FONT_HEADER_SIZE as u128 + unicode_start as u128;
        let mut font_index: u128 = start;
        let mut lookup_index: u128 = start;
        let mut record_start: u128 = 0;
        let mut jump_found = false;

        loop
            invariant_except_break
                n == d.len(),
                data@ == d,
                encoding > 0xff,
                !jump_found,
                font_index <= usize::MAX as u128,
                lookup_index < 0x1_0000_0000_0000_0000,
                scan_jump(d, font_index as int, lookup_index as int, encoding as int) == scan_jump(
                    d,
                    start as int,
                    start as int,
                    encoding as int,
                ),
            ensures
                jump_found ==> record_start <= usize::MAX as u128 && scan_jump(
                    d,
                    start as int,
                    start as int,
                    encoding as int,
                ) == Some(record_start as int),
                !jump_found ==> scan_jump(d, start as int, start as int, encoding as int) is None,
            decreases (if (lookup_index as int) < n as int {
                n as int - lookup_index as int
            } else {
                0int
            }),
        {
            let ghost fi0 = font_index as int;
            let ghost li0 = lookup_index as int;
            let li_big = lookup_index;
            let jump = read_u16_wide(data, li_big);
            let next_encoding = read_u16_wide(data, li_big + 2);
            let widened = font_index + jump as u128;
            font_index = if widened <= usize::MAX as u128 {
                widened
            } else {
                usize::MAX as u128
            };
            lookup_index = lookup_index + 4;
            if next_encoding >= encoding {
                proof {
                    assert(scan_jump(d, fi0, li0, encoding as int) == Some(font_index as int));
                }
                record_start = font_index;
                jump_found = true;
                break ;
            }
            if lookup_index + 3 >= n as u128 {
                proof {
                    assert(scan_jump(d, fi0, li0, encoding as int) is None);
                }
                break ;
            }
            proof {
                assert(scan_jump(d, fi0, li0, encoding as int) == scan_jump(
                    d,
                    font_index as int,
                    lookup_index as int,
                    encoding as int,
                ));
            }
        }
        if !jump_found {
            return None;
        }

        let mut fi: u128 = record_start;
        loop
            invariant_except_break
                n == d.len(),
                data@ == d,
                d == self.data_spec(),
                fi < 0x2_0000_0000_0000_0000,
                spec_glyph_offset(d, encoding as int) == scan_wide_records(
                    d,
                    record_start as int,
                    encoding as int,
                ),
                scan_wide_records(d, fi as int, encoding as int) == scan_wide_records(
                    d,
                    record_start as int,
                    encoding as int,
                ),
            ensures
                scan_wide_records(d, record_start as int, encoding as int) is None,
            decreases (if (fi as int) < n as int {
                n as int - fi as int
            } else {
                0int
            }),
        {
            if !(fi + 2 < n as u128) {
                proof {
                    assert(scan_wide_records(d, fi as int, encoding as int) is None);
                }
                break ;
            }
            proof {
                assert(fi < n as u128);
            }
            let i = fi as usize;
            proof {
                assert(i as int == fi as int);
            }
            let high = data[i] as u16;
            let low = data[i + 1] as u16;
            proof {
                assert(((high << 8) | low) == high * 256 + low) by (bit_vector)
                    requires
                        high <= 0xff,
                        low <= 0xff,
                ;
            }
            let glyph_encoding = (high << 8) | low;
            if glyph_encoding == 0 {
                proof {
                    assert(scan_wide_records(d, fi as int, encoding as int) is None);
                }
                break ;
            }
            let glyph_size = data[i + 2];
            if glyph_encoding == encoding {
                proof {
                    assert(scan_wide_records(d, fi as int, encoding as int) == Some(
                        fi as int + 3,
                    ));
                }
                return Some(i + 3);
            }
            if glyph_size == 0 {
                proof {
                    assert(scan_wide_records(d, fi as int, encoding as int) is None);
                }
                break ;
            }
            proof {
                assert(scan_wide_records(d, fi as int, encoding as int) == scan_wide_records(
                    d,
                    fi as int + glyph_size as int,
                    encoding as int,
                ));
            }
            fi = fi + glyph_size as u128;
        }
        None
    }
}

} // verus!

verus! {

impl FontData {
    /// Read the metric fields at a glyph's bit-stream offset.
    fn read_glyph_head(&self, start: usize) -> (r: GlyphHead)
        requires
            self.wf(),
        ensures
            r == spec_glyph_head(self.data_spec(), self.info_spec(), start),
            r.cursor.bit_pos < 8,
    {
        let data = self.data.as_slice();
        let mut cur = BitCursor { ptr: start, bit_pos: 0 };
        let w = get_unsigned_bits(data, &mut cur, self.info.bits_per_char_width);
        let h = get_unsigned_bits(data, &mut cur, self.info.bits_per_char_height);
        let xo = get_signed_bits_or_zero(data, &mut cur, self.info.bits_per_char_x);
        let yo = get_signed_bits_or_zero(data, &mut cur, self.info.bits_per_char_y);
        let dl = get_signed_bits_or_zero(data, &mut cur, self.info.bits_per_delta_x);
        GlyphHead { width: w, height: h, x_offset: xo, y_offset: yo, delta_x: dl, cursor: cur }
    }

    /// The metric fields of a glyph, when the container has it.
    pub fn glyph_metrics(&self, encoding: u16) -> (r: Option<GlyphHead>)
        requires
            self.wf(),
        ensures
            (match r {
                Some(head) => spec_glyph_offset(self.data_spec(), encoding as int) matches Some(
                    off,
                ) && head == spec_glyph_head(self.data_spec(), self.info_spec(), off as usize),
                None => spec_glyph_offset(self.data_spec(), encoding as int) is None,
            }),
    {
        match self.glyph_data_offset(encoding) {
            Some(off) => Some(self.read_glyph_head(off)),
            None => None,
        }
    }
}

/// Read a signed bit field, with a zero-width field reading zero.
fn get_signed_bits_or_zero(data: &[u8], cur: &mut BitCursor, cnt: u8) -> (r: i16)
    requires
        cnt <= 8,
        old(cur).bit_pos < 8,
    ensures
        r == signed_field(data@, *old(cur), cnt),
        *final(cur) == bits_next(data@, *old(cur), cnt),
        final(cur).bit_pos < 8,
        -128 <= r <= 127,
{
    if cnt == 0 {
        return 0;
    }
    get_signed_bits(data, cur, cnt)
}

/// One step of the width fold: feed one byte to the UTF-8 decoder, and on
/// a complete codepoint with a glyph add its advance and remember its
/// metrics.
pub open spec fn width_step(
    d: Seq<u8>,
    info: FontInfo,
    st: (u8, u16, int, Option<GlyphHead>),
    b: u8,
) -> (bool, (u8, u16, int, Option<GlyphHead>)) {
    let (us, ue, acc, last) = st;
    let (us2, ue2, res) = utf8_step(us, ue, b);
    match res {
        Utf8Result::End => (true, st),
        Utf8Result::Continue => (false, (us2, ue2, acc, last)),
        Utf8Result::Codepoint(code) => {
            match spec_glyph_offset(d, code as int) {
                Some(off) => {
                    let head = spec_glyph_head(d, info, off as usize);
                    (false, (us2, ue2, acc + head.delta_x, Some(head)))
                },
                None => (false, (us2, ue2, acc, last)),
            }
        },
    }
}

/// The width fold over the bytes from `i`, stopping at a terminator.
pub open spec fn width_fold(
    d: Seq<u8>,
    info: FontInfo,
    bytes: Seq<u8>,
    i: int,
    st: (u8, u16, int, Option<GlyphHead>),
) -> (int, Option<GlyphHead>)
    decreases bytes.len() - i,
{
    if i < 0 || i >= bytes.len() {
        (st.2, st.3)
    } else {
        let (stop, st2) = width_step(d, info, st, bytes[i]);
        if stop {
            (st2.2, st2.3)
        } else {
            width_fold(d, info, bytes, i + 1, st2)
        }
    }
}

/// The measured width of a string: the summed advances, with the last
/// glyph's advance replaced by its width plus side bearing when its width
/// is non-zero, clamped to the display range.
pub open spec fn spec_string_width(d: Seq<u8>, info: FontInfo, bytes: Seq<u8>) -> int {
    let (acc, last) = width_fold(d, info, bytes, 0, (0u8, 0u16, 0int, None));
    let adjusted = match last {
        Some(head) => {
            if head.width != 0 {
                acc - head.delta_x + head.width + head.x_offset
            } else {
                acc
            }
        },
        None => acc,
    };
    if adjusted < 0 {
        0
    } else if adjusted > 0xffff_ffff {
        0xffff_ffff
    } else {
        adjusted
    }
}

impl FontData {
    /// Measure a string: sum the glyph advances up to NUL or LF, with the
    /// trailing glyph measured by its inked width.
    pub fn string_width(&self, text: &str) -> (r: u32)
        requires
            self.wf(),
        ensures
            r == spec_string_width(self.data_spec(), self.info_spec(), text.spec_bytes()),
    {
        let bytes = text.as_bytes();
        let n = bytes.len();
        let ghost d = self.data_spec();
        let ghost info = self.info_spec();

        let mut decoder = Utf8Decoder::new();
        let mut acc: i128 = 0;
        let mut last: Option<GlyphHead> = None;
        let mut i: usize = 0;
        let mut stopped = false;

        while i < n && !stopped
            invariant
                i <= n,
                n == bytes@.len(),
                bytes@ == text.spec_bytes(),
                d == self.data_spec(),
                info == self.info_spec(),
                self.wf(),
                -32768 * (i as int) <= acc <= 32768 * (i as int),
                !stopped ==> width_fold(d, info, bytes@, i as int, (
                    decoder.state_spec(),
                    decoder.encoding_spec(),
                    acc as int,
                    last,
                )) == width_fold(d, info, bytes@, 0, (0u8, 0u16, 0int, None)),
                stopped ==> (acc as int, last) == width_fold(
                    d,
                    info,
                    bytes@,
                    0,
                    (0u8, 0u16, 0int, None),
                ),
            decreases n - i,
        {
            let b = bytes[i];
            let ghost st0 = (decoder.state_spec(), decoder.encoding_spec(), acc as int, last);
            match decoder.next(b) {
                Utf8Result::End => {
                    stopped = true;
                },
                Utf8Result::Continue => {},
                Utf8Result::Codepoint(code) => {
                    match self.glyph_metrics(code) {
                        Some(head) => {
                            acc = acc + head.delta_x as i128;
                            last = Some(head);
                        },
                        None => {},
                    }
                },
            }
            proof {
                assert(width_step(d, info, st0, b) == (stopped, (
                    decoder.state_spec(),
                    decoder.encoding_spec(),
                    acc as int,
                    last,
                )) || stopped);
            }
            i = i + 1;
        }

        let adjusted: i128 = match last {
            Some(head) => {
                if head.width != 0 {
                    acc - head.delta_x as i128 + head.width as i128 + head.x_offset as i128
                } else {
                    acc
                }
            },
            None => acc,
        };
        if adjusted < 0 {
            0
        } else if adjusted > 0xffff_ffff {
            0xffff_ffffu32
        } else {
            adjusted as u32
        }
    }
}

} // verus!

verus! {

/// The rasterizer state: the framebuffer, the bit cursor, and the pen
/// position inside the glyph cell.
pub struct RasterState {
    pub buf: Seq<u8>,
    pub cur: BitCursor,
    pub lx: int,
    pub ly: int,
}

/// One run of `cnt` pixels: drawn row by row inside the cell width,
/// wrapping to the next row; only foreground runs ink pixels. The row
/// index saturates at 255 as in the decoder's byte-sized counters.
pub open spec fn run_spec(
    buf: Seq<u8>,
    w: int,
    lx: int,
    ly: int,
    cnt: int,
    fg: bool,
    tx: int,
    ty: int,
    c: Color,
) -> (Seq<u8>, int, int)
    decreases cnt + 1, (if lx >= w { 1int } else { 0int }),
{
    if w <= 0 || cnt < 0 {
        (buf, lx, ly)
    } else {
        let rem = if w > lx {
            w - lx
        } else {
            0
        };
        let current = if cnt < rem {
            cnt
        } else {
            rem
        };
        let b2 = if fg {
            write_hline(buf, tx + lx, ty + ly, current, c)
        } else {
            buf
        };
        if cnt < rem {
            (b2, lx + cnt, ly)
        } else {
            let ly2 = if ly < 255 {
                ly + 1
            } else {
                255
            };
            run_spec(b2, w, 0, ly2, cnt - rem, fg, tx, ty, c)
        }
    }
}

/// The run pairs of one group: background then foreground, repeated while
/// the continue flag reads one, within a step budget.
pub open spec fn raster_inner(
    d: Seq<u8>,
    w: int,
    a: u8,
    b: u8,
    tx: int,
    ty: int,
    c: Color,
    st: RasterState,
    fuel: int,
) -> RasterState
    decreases fuel,
{
    if fuel <= 0 {
        st
    } else {
        let (b1, lx1, ly1) = run_spec(st.buf, w, st.lx, st.ly, a as int, false, tx, ty, c);
        let (b2, lx2, ly2) = run_spec(b1, w, lx1, ly1, b as int, true, tx, ty, c);
        let flag = bits_value(d, st.cur, 1);
        let cur2 = bits_next(d, st.cur, 1);
        let st2 = RasterState { buf: b2, cur: cur2, lx: lx2, ly: ly2 };
        if flag == 0 {
            st2
        } else {
            raster_inner(d, w, a, b, tx, ty, c, st2, fuel - 1)
        }
    }
}

/// The groups of a glyph bit-stream: each reads its background and
/// foreground run lengths, plays its run pairs, and stops once the pen has
/// left the cell, within a step budget that keeps the decoder total on
/// malformed containers.
pub open spec fn raster_outer(
    d: Seq<u8>,
    info: FontInfo,
    w: int,
    h: int,
    tx: int,
    ty: int,
    c: Color,
    st: RasterState,
    fuel: int,
) -> RasterState
    decreases fuel,
{
    if fuel <= 0 {
        st
    } else {
        let a = bits_value(d, st.cur, info.bits_per_0);
        let c1 = bits_next(d, st.cur, info.bits_per_0);
        let b = bits_value(d, c1, info.bits_per_1);
        let c2 = bits_next(d, c1, info.bits_per_1);
        let st2 = raster_inner(
            d,
            w,
            a,
            b,
            tx,
            ty,
            c,
            RasterState { buf: st.buf, cur: c2, lx: st.lx, ly: st.ly },
            raster_fuel(d),
        );
        if st2.ly >= h {
            st2
        } else {
            raster_outer(d, info, w, h, tx, ty, c, st2, fuel - 1)
        }
    }
}

/// The step budget of the rasterizer loops.
pub open spec fn raster_fuel(d: Seq<u8>) -> int {
    8 * (d.len() as int) + 16
}

/// The framebuffer after drawing one glyph at pen position `(x, y)` (`y`
/// is the baseline), and the pen advance: a missing glyph draws nothing
/// and advances nothing; a zero-width glyph only advances.
pub open spec fn spec_draw_glyph(
    d: Seq<u8>,
    info: FontInfo,
    buf: Seq<u8>,
    x: int,
    y: int,
    enc: int,
    c: Color,
) -> (Seq<u8>, int) {
    match spec_glyph_offset(d, enc) {
        None => (buf, 0),
        Some(off) => {
            let head = spec_glyph_head(d, info, off as usize);
            if head.width == 0 {
                (buf, head.delta_x as int)
            } else {
                let tx = x + head.x_offset;
                let ty = y - (head.height + head.y_offset);
                let st = raster_outer(
                    d,
                    info,
                    head.width as int,
                    head.height as int,
                    tx,
                    ty,
                    c,
                    RasterState { buf, cur: head.cursor, lx: 0, ly: 0 },
                    raster_fuel(d),
                );
                (st.buf, head.delta_x as int)
            }
        },
    }
}

/// Draw one run into the canvas, wrapping at the cell width.
fn decode_run(
    target: &mut Canvas,
    w: u8,
    lx: &mut u8,
    ly: &mut u8,
    cnt: u8,
    fg: bool,
    tx: i64,
    ty: i64,
    color: Color,
) -> (r: ())
    requires
        old(target).wf(),
        w >= 1,
        -0x2_0000_0000 <= tx <= 0x2_0000_0000,
        -0x2_0000_0000 <= ty <= 0x2_0000_0000,
    ensures
        final(target).wf(),
        final(target).same_fonts(old(target)),
        (final(target).pixels(), *final(lx) as int, *final(ly) as int) == run_spec(
            old(target).pixels(),
            w as int,
            *old(lx) as int,
            *old(ly) as int,
            cnt as int,
            fg,
            tx as int,
            ty as int,
            color,
        ),
        final(target).color_spec() == old(target).color_spec(),
        final(target).font_spec() == old(target).font_spec(),
{
    let ghost goal = run_spec(
        old(target).pixels(),
        w as int,
        *old(lx) as int,
        *old(ly) as int,
        cnt as int,
        fg,
        tx as int,
        ty as int,
        color,
    );
    let mut remaining = cnt;
    loop
        invariant_except_break
            target.wf(),
            target.same_fonts(old(target)),
            w >= 1,
            -0x2_0000_0000 <= tx <= 0x2_0000_0000,
            -0x2_0000_0000 <= ty <= 0x2_0000_0000,
            run_spec(
                target.pixels(),
                w as int,
                *lx as int,
                *ly as int,
                remaining as int,
                fg,
                tx as int,
                ty as int,
                color,
            ) == goal,
            target.color_spec() == old(target).color_spec(),
            target.font_spec() == old(target).font_spec(),
        ensures
            target.wf(),
            target.same_fonts(old(target)),
            (target.pixels(), *lx as int, *ly as int) == goal,
            target.color_spec() == old(target).color_spec(),
            target.font_spec() == old(target).font_spec(),
        decreases remaining as int + 1, (if *lx as int >= w as int { 1int } else { 0int }),
    {
        let rem: u8 = if w > *lx {
            w - *lx
        } else {
            0
        };
        let current: u8 = if remaining < rem {
            remaining
        } else {
            rem
        };
        if fg {
            target.hline_at(tx + *lx as i64, ty + *ly as i64, current as u32, color);
        }
        if remaining < rem {
            *lx = *lx + remaining;
            break ;
        }
        remaining = remaining - rem;
        *lx = 0;
        *ly = if *ly < 255 {
            *ly + 1
        } else {
            255
        };
    }
}

impl FontData {
    /// Draw one glyph at pen position `(x, y)` (`y` is the baseline),
    /// returning the pen advance.
    fn draw_glyph(&self, target: &mut Canvas, x: i64, y: i64, encoding: u16, color: Color) -> (dl:
        i16)
        requires
            self.wf(),
            old(target).wf(),
            -0x1_0000_0000 <= x <= 0x1_0000_0000,
            -0x1_0000_0000 <= y <= 0x1_0000_0000,
        ensures
            final(target).wf(),
            final(target).same_fonts(old(target)),
            (final(target).pixels(), dl as int) == spec_draw_glyph(
                self.data_spec(),
                self.info_spec(),
                old(target).pixels(),
                x as int,
                y as int,
                encoding as int,
                color,
            ),
            final(target).color_spec() == old(target).color_spec(),
            final(target).font_spec() == old(target).font_spec(),
    {
        let ghost d = self.data_spec();
        let ghost info = self.info_spec();
        let data = self.data.as_slice();
        let offset = match self.glyph_data_offset(encoding) {
            Some(off) => off,
            None => {
                return 0;
            },
        };
        let head = self.read_glyph_head(offset);
        if head.width == 0 {
            return head.delta_x;
        }
        let w = head.width;
        let h = head.height;
        let tx: i64 = x + head.x_offset as i64;
        let ty: i64 = y - (head.height as i64 + head.y_offset as i64);
        let mut cur = head.cursor;
        let mut lx: u8 = 0;
        let mut ly: u8 = 0;
        let mut fuel: u128 = 8 * (data.len() as u128) + 16;
        proof {
            assert(fuel as int == raster_fuel(d));
        }
        let ghost goal = raster_outer(
            d,
            info,
            w as int,
            h as int,
            tx as int,
            ty as int,
            color,
            RasterState { buf: old(target).pixels(), cur: head.cursor, lx: 0, ly: 0 },
            raster_fuel(d),
        );

        loop
            invariant_except_break
                self.wf(),
                target.wf(),
                target.same_fonts(old(target)),
                d == self.data_spec(),
                info == self.info_spec(),
                data@ == d,
                w >= 1,
                cur.bit_pos < 8,
                -0x2_0000_0000 <= tx <= 0x2_0000_0000,
                -0x2_0000_0000 <= ty <= 0x2_0000_0000,
                raster_outer(
                    d,
                    info,
                    w as int,
                    h as int,
                    tx as int,
                    ty as int,
                    color,
                    RasterState {
                        buf: target.pixels(),
                        cur: cur,
                        lx: lx as int,
                        ly: ly as int,
                    },
                    fuel as int,
                ) == goal,
                target.color_spec() == old(target).color_spec(),
                target.font_spec() == old(target).font_spec(),
            ensures
                target.wf(),
                target.same_fonts(old(target)),
                target.pixels() == goal.buf,
                target.color_spec() == old(target).color_spec(),
                target.font_spec() == old(target).font_spec(),
            decreases fuel,
        {
            if fuel == 0 {
                break ;
            }
            fuel = fuel - 1;
            let a = get_unsigned_bits(data, &mut cur, self.info.bits_per_0);
            let b = get_unsigned_bits(data, &mut cur, self.info.bits_per_1);

            let mut inner_fuel: u128 = 8 * (data.len() as u128) + 16;
            let ghost inner_goal = raster_inner(
                d,
                w as int,
                a,
                b,
                tx as int,
                ty as int,
                color,
                RasterState { buf: target.pixels(), cur: cur, lx: lx as int, ly: ly as int },
                raster_fuel(d),
            );
            loop
                invariant_except_break
                    self.wf(),
                    target.wf(),
                    target.same_fonts(old(target)),
                    d == self.data_spec(),
                    data@ == d,
                    w >= 1,
                    cur.bit_pos < 8,
                    -0x2_0000_0000 <= tx <= 0x2_0000_0000,
                    -0x2_0000_0000 <= ty <= 0x2_0000_0000,
                    raster_inner(
                        d,
                        w as int,
                        a,
                        b,
                        tx as int,
                        ty as int,
                        color,
                        RasterState {
                            buf: target.pixels(),
                            cur: cur,
                            lx: lx as int,
                            ly: ly as int,
                        },
                        inner_fuel as int,
                    ) == inner_goal,
                    target.color_spec() == old(target).color_spec(),
                    target.font_spec() == old(target).font_spec(),
                ensures
                    target.wf(),
                    target.same_fonts(old(target)),
                    cur.bit_pos < 8,
                    (RasterState {
                        buf: target.pixels(),
                        cur: cur,
                        lx: lx as int,
                        ly: ly as int,
                    }) == inner_goal,
                    target.color_spec() == old(target).color_spec(),
                    target.font_spec() == old(target).font_spec(),
                decreases inner_fuel,
            {
                if inner_fuel == 0 {
                    break ;
                }
                inner_fuel = inner_fuel - 1;
                decode_run(target, w, &mut lx, &mut ly, a, false, tx, ty, color);
                decode_run(target, w, &mut lx, &mut ly, b, true, tx, ty, color);
                let flag = get_unsigned_bits(data, &mut cur, 1);
                if flag == 0 {
                    break ;
                }
            }

            if ly >= h {
                break ;
            }
        }
        proof {
            assert(spec_glyph_offset(d, encoding as int) == Some(offset as int));
            assert(head == spec_glyph_head(d, info, offset));
            assert(target.pixels() == goal.buf);
        }
        head.delta_x
    }
}

} // verus!

verus! {

/// Clamp the pen to the range the glyph renderer accepts; positions this
/// far out are entirely off-window either way.
pub open spec fn clamp_pen(v: int) -> int {
    if v < -0x1_0000_0000 {
        -0x1_0000_0000
    } else if v > 0x1_0000_0000 {
        0x1_0000_0000
    } else {
        v
    }
}

/// The string fold: feed bytes to the UTF-8 decoder; each complete
/// codepoint draws its glyph at the pen and advances the pen by the
/// glyph's advance; a NUL or LF stops the walk.
pub open spec fn draw_str_fold(
    d: Seq<u8>,
    info: FontInfo,
    bytes: Seq<u8>,
    i: int,
    us: u8,
    ue: u16,
    buf: Seq<u8>,
    cx: int,
    y: int,
    c: Color,
) -> Seq<u8>
    decreases bytes.len() - i,
{
    if i < 0 || i >= bytes.len() {
        buf
    } else {
        let (us2, ue2, res) = utf8_step(us, ue, bytes[i]);
        match res {
            Utf8Result::End => buf,
            Utf8Result::Continue => draw_str_fold(d, info, bytes, i + 1, us2, ue2, buf, cx, y, c),
            Utf8Result::Codepoint(code) => {
                let (buf2, dl) = spec_draw_glyph(d, info, buf, cx, y, code as int, c);
                draw_str_fold(d, info, bytes, i + 1, us2, ue2, buf2, clamp_pen(cx + dl), y, c)
            },
        }
    }
}

impl FontData {
    /// Draw a string at `(x, y)` (`y` is the baseline): codepoints are
    /// decoded from UTF-8 up to NUL or LF, and each glyph advances the pen
    /// by its advance.
    pub fn draw_str(&self, target: &mut Canvas, x: i32, y: i32, text: &str, color: Color)
        requires
            self.wf(),
            old(target).wf(),
        ensures
            final(target).wf(),
            final(target).same_fonts(old(target)),
            final(target).pixels() == draw_str_fold(
                self.data_spec(),
                self.info_spec(),
                text.spec_bytes(),
                0,
                0,
                0,
                old(target).pixels(),
                x as int,
                y as int,
                color,
            ),
            text.spec_bytes().len() == 0 ==> final(target).pixels() == old(target).pixels(),
            final(target).color_spec() == old(target).color_spec(),
            final(target).font_spec() == old(target).font_spec(),
    {
        let ghost d = self.data_spec();
        let ghost info = self.info_spec();
        let bytes = text.as_bytes();
        let n = bytes.len();
        let mut decoder = Utf8Decoder::new();
        let mut cx: i64 = x as i64;
        let mut i: usize = 0;
        let ghost goal = draw_str_fold(
            d,
            info,
            text.spec_bytes(),
            0,
            0,
            0,
            old(target).pixels(),
            x as int,
            y as int,
            color,
        );

        loop
            invariant_except_break
                self.wf(),
                target.wf(),
                target.same_fonts(old(target)),
                d == self.data_spec(),
                info == self.info_spec(),
                bytes@ == text.spec_bytes(),
                n == bytes@.len(),
                i <= n,
                -0x1_0000_0000 <= cx <= 0x1_0000_0000,
                draw_str_fold(
                    d,
                    info,
                    bytes@,
                    i as int,
                    decoder.state_spec(),
                    decoder.encoding_spec(),
                    target.pixels(),
                    cx as int,
                    y as int,
                    color,
                ) == goal,
                target.color_spec() == old(target).color_spec(),
                target.font_spec() == old(target).font_spec(),
            ensures
                target.wf(),
                target.same_fonts(old(target)),
                target.pixels() == goal,
                target.color_spec() == old(target).color_spec(),
                target.font_spec() == old(target).font_spec(),
            decreases n - i,
        {
            if i >= n {
                break ;
            }
            let b = bytes[i];
            match decoder.next(b) {
                Utf8Result::End => {
                    break ;
                },
                Utf8Result::Continue => {},
                Utf8Result::Codepoint(code) => {
                    let dl = self.draw_glyph(target, cx, y as i64, code, color);
                    let moved = cx + dl as i64;
                    cx = if moved < -0x1_0000_0000 {
                        -0x1_0000_0000
                    } else if moved > 0x1_0000_0000 {
                        0x1_0000_0000
                    } else {
                        moved
                    };
                },
            }
            i = i + 1;
        }
    }
}

/// A string is drawn only up to its first NUL or LF: the fold over the
/// whole byte sequence equals the fold over the prefix ending at the
/// terminator, whatever came after it.
pub proof fn lemma_draw_str_stops_at_terminator(
    d: Seq<u8>,
    info: FontInfo,
    bytes: Seq<u8>,
    k: int,
    j: int,
    us: u8,
    ue: u16,
    buf: Seq<u8>,
    cx: int,
    y: int,
    c: Color,
)
    requires
        0 <= j <= k < bytes.len(),
        bytes[k] == 0 || bytes[k] == 10,
    ensures
        draw_str_fold(d, info, bytes, j, us, ue, buf, cx, y, c) == draw_str_fold(
            d,
            info,
            bytes.take(k + 1),
            j,
            us,
            ue,
            buf,
            cx,
            y,
            c,
        ),
    decreases k - j,
{
    let p = bytes.take(k + 1);
    assert(p[j] == bytes[j]);
    if j == k {
        assert(utf8_step(us, ue, bytes[j]).2 is End);
    } else {
        let (us2, ue2, res) = utf8_step(us, ue, bytes[j]);
        match res {
            Utf8Result::End => {},
            Utf8Result::Continue => {
                lemma_draw_str_stops_at_terminator(
                    d,
                    info,
                    bytes,
                    k,
                    j + 1,
                    us2,
                    ue2,
                    buf,
                    cx,
                    y,
                    c,
                );
            },
            Utf8Result::Codepoint(code) => {
                let (buf2, dl) = spec_draw_glyph(d, info, buf, cx, y, code as int, c);
                lemma_draw_str_stops_at_terminator(
                    d,
                    info,
                    bytes,
                    k,
                    j + 1,
                    us2,
                    ue2,
                    buf2,
                    clamp_pen(cx + dl),
                    y,
                    c,
                );
            },
        }
    }
}

} // verus!

verus! {

/// Text after the first NUL or LF is never drawn: from the initial decoder
/// state, the whole-string fold equals the fold over the prefix that ends
/// at the terminator.
pub proof fn lemma_draw_str_ignores_text_after_terminator(
    d: Seq<u8>,
    info: FontInfo,
    bytes: Seq<u8>,
    k: int,
    buf: Seq<u8>,
    x: int,
    y: int,
    c: Color,
)
    requires
        0 <= k < bytes.len(),
        bytes[k] == 0 || bytes[k] == 10,
    ensures
        draw_str_fold(d, info, bytes, 0, 0, 0, buf, x, y, c) == draw_str_fold(
            d,
            info,
            bytes.take(k + 1),
            0,
            0,
            0,
            buf,
            x,
            y,
            c,
        ),
{
    lemma_draw_str_stops_at_terminator(d, info, bytes, k, 0, 0, 0, buf, x, y, c);
}

} // verus!
