//! A minimal PNG writer for screenshots: 8-bit grayscale, one IDAT chunk
//! with zlib-deflated rows (filter byte 0 before each row), CRC-32 over
//! chunk type and data. The deflate stream comes from an outside
//! compressor; everything around it is specified to the byte.

use vstd::prelude::*;
use vstd::string::StringSliceAdditionalSpecFns;

verus! {

/// One CRC-32 bit step (reflected polynomial 0xEDB88320).
pub open spec fn crc_bit(c: u32) -> u32 {
    if c & 1 != 0 {
        0xEDB88320u32 ^ (c >> 1)
    } else {
        c >> 1
    }
}

/// `k` CRC-32 bit steps.
pub open spec fn crc_bits(c: u32, k: int) -> u32
    decreases k,
{
    if k <= 0 {
        c
    } else {
        crc_bits(crc_bit(c), k - 1)
    }
}

/// Fold one byte into the CRC state.
pub open spec fn crc_byte(c: u32, b: u8) -> u32 {
    crc_bits(c ^ (b as u32), 8)
}

/// The CRC state after the first `i` bytes.
pub open spec fn crc_accum(c: u32, data: Seq<u8>, i: int) -> u32
    decreases i,
{
    if i <= 0 {
        c
    } else {
        crc_byte(crc_accum(c, data, i - 1), data[i - 1])
    }
}

/// The CRC-32 of a byte sequence.
pub open spec fn spec_crc32(data: Seq<u8>) -> u32 {
    crc_accum(0xFFFF_FFFFu32, data, data.len() as int) ^ 0xFFFF_FFFFu32
}

/// The big-endian bytes of a 32-bit value.
pub open spec fn be32(v: u32) -> Seq<u8> {
    seq![
        ((v >> 24) & 0xff) as u8,
        ((v >> 16) & 0xff) as u8,
        ((v >> 8) & 0xff) as u8,
        (v & 0xff) as u8,
    ]
}

/// A whole PNG chunk: length, type, data, and the CRC over type and data.
pub open spec fn chunk_bytes(chunk_type: Seq<u8>, data: Seq<u8>) -> Seq<u8> {
    be32(data.len() as u32) + chunk_type + data + be32(spec_crc32(chunk_type + data))
}

/// The name given to the outside compressor's output: the zlib stream for
/// a byte sequence at a compression level.
pub uninterp spec fn zlib_deflate(data: Seq<u8>, level: int) -> Seq<u8>;

/// Relies on miniz_oxide's compress_to_vec_zlib: the zlib stream is a
/// function of the input bytes and the compression level alone.
#[verifier::external_body]
fn compress_zlib(data: &[u8], level: u8) -> (r: Vec<u8>)
    ensures
        r@ == zlib_deflate(data@, level as int),
{
    miniz_oxide::deflate::compress_to_vec_zlib(data, level)
}

/// The raw scanline stream of a grayscale image: each row prefixed with
/// filter byte 0; rows running past the pixel data are dropped.
pub open spec fn raw_rows(width: int, height: int, data: Seq<u8>, y: int) -> Seq<u8>
    decreases y,
{
    if y <= 0 {
        Seq::empty()
    } else {
        raw_rows(width, height, data, y - 1) + seq![0u8] + (if (y - 1) * width + width
            <= data.len() {
            data.subrange((y - 1) * width, (y - 1) * width + width)
        } else {
            Seq::empty()
        })
    }
}

/// The PNG signature.
pub open spec fn png_signature() -> Seq<u8> {
    seq![0x89u8, 0x50u8, 0x4Eu8, 0x47u8, 0x0Du8, 0x0Au8, 0x1Au8, 0x0Au8]
}

/// The IHDR payload of an 8-bit grayscale image.
pub open spec fn ihdr_payload(width: u32, height: u32) -> Seq<u8> {
    be32(width) + be32(height) + seq![8u8, 0u8, 0u8, 0u8, 0u8]
}

/// A whole grayscale PNG: signature, IHDR, one deflated IDAT, IEND.
pub open spec fn grayscale_png(width: u32, height: u32, data: Seq<u8>, level: int) -> Seq<u8> {
    png_signature() + chunk_bytes(ihdr_tag(), ihdr_payload(width, height)) + chunk_bytes(
        idat_tag(),
        zlib_deflate(raw_rows(width as int, height as int, data, height as int), level),
    ) + chunk_bytes(iend_tag(), Seq::empty())
}

/// The IHDR chunk type.
pub open spec fn ihdr_tag() -> Seq<u8> {
    seq![73u8, 72u8, 68u8, 82u8]
}

/// The IDAT chunk type.
pub open spec fn idat_tag() -> Seq<u8> {
    seq![73u8, 68u8, 65u8, 84u8]
}

/// The IEND chunk type.
pub open spec fn iend_tag() -> Seq<u8> {
    seq![73u8, 69u8, 78u8, 68u8]
}

/// The grayscale expansion of a packed monochrome buffer: bit 1 becomes
/// 0x00 (black), bit 0 becomes 0xFF (white); bits past the buffer read 0.
pub open spec fn unpack_pixel(buffer: Seq<u8>, width: int, x: int, y: int) -> u8 {
    let bit_index = 7 - (x % 8);
    let byte_i = (y * width + x) / 8;
    let bit = if 0 <= byte_i < buffer.len() {
        (buffer[byte_i] >> (bit_index as u32)) & 1
    } else {
        0
    };
    if bit == 1 {
        0u8
    } else {
        255u8
    }
}

/// The CRC-32 of a byte slice.
pub fn crc32(data: &[u8]) -> (r: u32)
    ensures
        r == spec_crc32(data@),
{
    let mut crc: u32 = 0xFFFF_FFFF;
    let n = data.len();
    let mut i: usize = 0;
    while i < n
        invariant
            i <= n,
            n == data@.len(),
            crc == crc_accum(0xFFFF_FFFFu32, data@, i as int),
        decreases n - i,
    {
        let mut c = crc ^ (data[i] as u32);
        let mut k: usize = 0;
        while k < 8
            invariant
                k <= 8,
                c == crc_bits(crc ^ (data@[i as int] as u32), k as int),
                crc == crc_accum(0xFFFF_FFFFu32, data@, i as int),
                i < n == data@.len(),
            decreases 8 - k,
        {
            proof {
                assert(crc_bits(crc ^ (data@[i as int] as u32), k as int + 1) == crc_bit(
                    crc_bits(crc ^ (data@[i as int] as u32), k as int),
                )) by {
                    lemma_crc_bits_snoc(crc ^ (data@[i as int] as u32), k as int);
                }
            }
            if c & 1 != 0 {
                c = 0xEDB88320u32 ^ (c >> 1);
            } else {
                c = c >> 1;
            }
            k = k + 1;
        }
        crc = c;
        i = i + 1;
    }
    crc ^ 0xFFFF_FFFF
}

/// Bit steps compose one at a time from the outside.
proof fn lemma_crc_bits_snoc(c: u32, k: int)
    requires
        k >= 0,
    ensures
        crc_bits(c, k + 1) == crc_bit(crc_bits(c, k)),
    decreases k,
{
    assert(crc_bits(c, k + 1) == crc_bits(crc_bit(c), k));
    if k > 0 {
        lemma_crc_bits_snoc(crc_bit(c), k - 1);
        assert(crc_bits(c, k) == crc_bits(crc_bit(c), k - 1));
    } else {
        assert(crc_bits(crc_bit(c), 0) == crc_bit(c));
        assert(crc_bits(c, 0) == c);
    }
}

/// Append the big-endian bytes of a 32-bit value.
fn push_be32(out: &mut Vec<u8>, v: u32)
    ensures
        final(out)@ == old(out)@ + be32(v),
{
    out.push(((v >> 24) & 0xff) as u8);
    out.push(((v >> 16) & 0xff) as u8);
    out.push(((v >> 8) & 0xff) as u8);
    out.push((v & 0xff) as u8);
    proof {
        assert(final(out)@ =~= old(out)@ + be32(v));
    }
}

/// Append a byte slice.
fn push_slice(out: &mut Vec<u8>, b: &[u8])
    ensures
        final(out)@ == old(out)@ + b@,
{
    let mut i: usize = 0;
    while i < b.len()
        invariant
            i <= b@.len(),
            out@ == old(out)@ + b@.take(i as int),
        decreases b@.len() - i,
    {
        out.push(b[i]);
        proof {
            assert(old(out)@ + b@.take(i as int + 1) =~= (old(out)@ + b@.take(i as int)).push(
                b@[i as int],
            ));
        }
        i = i + 1;
    }
    proof {
        assert(b@.take(b@.len() as int) =~= b@);
    }
}

/// Append one PNG chunk: length, the four type bytes, data and the CRC
/// over type and data.
fn write_chunk(png: &mut Vec<u8>, t0: u8, t1: u8, t2: u8, t3: u8, data: &Vec<u8>)
    requires
        data@.len() <= 0xffff_ffff,
    ensures
        final(png)@ == old(png)@ + chunk_bytes(seq![t0, t1, t2, t3], data@),
{
    push_be32(png, data.len() as u32);
    png.push(t0);
    png.push(t1);
    png.push(t2);
    png.push(t3);
    push_slice(png, data.as_slice());

    let mut crc_data: Vec<u8> = Vec::new();
    crc_data.push(t0);
    crc_data.push(t1);
    crc_data.push(t2);
    crc_data.push(t3);
    push_slice(&mut crc_data, data.as_slice());
    proof {
        assert(crc_data@ =~= seq![t0, t1, t2, t3] + data@);
    }
    let crc = crc32(crc_data.as_slice());
    push_be32(png, crc);
    proof {
        assert(final(png)@ =~= old(png)@ + chunk_bytes(seq![t0, t1, t2, t3], data@));
    }
}

/// Encode an 8-bit grayscale image as a PNG, with each row deflated behind
/// a filter byte of zero. The zlib stream is the outside compressor's
/// output at level 6.
pub fn encode_grayscale(width: u32, height: u32, data: &[u8]) -> (r: Vec<u8>)
    requires
        width as int * height as int + height as int <= usize::MAX,
    ensures
        zlib_deflate(raw_rows(width as int, height as int, data@, height as int), 6).len()
            <= 0xffff_ffff ==> r@ == grayscale_png(width, height, data@, 6),
        zlib_deflate(raw_rows(width as int, height as int, data@, height as int), 6).len()
            > 0xffff_ffff ==> r@ == png_signature() + chunk_bytes(
            ihdr_tag(),
            ihdr_payload(width, height),
        ) + chunk_bytes(idat_tag(), Seq::empty()) + chunk_bytes(iend_tag(), Seq::empty()),
{
    let mut png: Vec<u8> = Vec::new();
    push_slice(
        &mut png,
        &[0x89u8, 0x50u8, 0x4Eu8, 0x47u8, 0x0Du8, 0x0Au8, 0x1Au8, 0x0Au8],
    );
    proof {
        assert(png@ =~= png_signature());
    }

    let mut ihdr: Vec<u8> = Vec::new();
    push_be32(&mut ihdr, width);
    push_be32(&mut ihdr, height);
    ihdr.push(8);
    ihdr.push(0);
    ihdr.push(0);
    ihdr.push(0);
    ihdr.push(0);
    proof {
        assert(ihdr@ =~= ihdr_payload(width, height));
    }
    write_chunk(&mut png, 73, 72, 68, 82, &ihdr);
    proof {
        assert(seq![73u8, 72u8, 68u8, 82u8] =~= ihdr_tag());
    }

    let mut raw_data: Vec<u8> = Vec::new();
    let mut y: usize = 0;
    while y < height as usize
        invariant
            y <= height,
            width as int * height as int + height as int <= usize::MAX,
            raw_data@ == raw_rows(width as int, height as int, data@, y as int),
            raw_data@.len() <= y * (width as int + 1),
        decreases height - y,
    {
        raw_data.push(0);
        proof {
            assert((y as int) * (width as int) + width as int <= usize::MAX) by (nonlinear_arith)
                requires
                    0 <= y < height,
                    width as int * height as int + height as int <= usize::MAX,
            ;
        }
        let row_start: usize = y * width as usize;
        let row_end: usize = row_start + width as usize;
        if row_end <= data.len() {
            let mut x: usize = row_start;
            while x < row_end
                invariant
                    row_start <= x <= row_end,
                    row_end <= data@.len(),
                    raw_data@ == raw_rows(width as int, height as int, data@, y as int) + seq![0u8]
                        + data@.subrange(row_start as int, x as int),
                decreases row_end - x,
            {
                raw_data.push(data[x]);
                proof {
                    assert(data@.subrange(row_start as int, x as int + 1) =~= data@.subrange(
                        row_start as int,
                        x as int,
                    ).push(data@[x as int]));
                }
                x = x + 1;
            }
        } else {
            proof {
                assert(raw_data@ =~= raw_rows(width as int, height as int, data@, y as int)
                    + seq![0u8] + Seq::<u8>::empty());
            }
        }
        proof {
            assert(raw_data@ =~= raw_rows(width as int, height as int, data@, y as int + 1));
            assert(raw_data@.len() <= (y as int + 1) * (width as int + 1)) by (nonlinear_arith)
                requires
                    raw_data@.len() <= (y as int) * (width as int + 1) + 1 + width as int,
                    width >= 0,
                    y >= 0,
            ;
        }
        y = y + 1;
    }

    let compressed = compress_zlib(raw_data.as_slice(), 6);
    let empty: Vec<u8> = Vec::new();
    if compressed.len() > 0xffff_ffff {
        // A zlib stream longer than one chunk can carry cannot be written;
        // the image data is dropped and an empty IDAT marks the failure.
        write_chunk(&mut png, 73, 68, 65, 84, &empty);
        write_chunk(&mut png, 73, 69, 78, 68, &empty);
        proof {
            assert(seq![73u8, 68u8, 65u8, 84u8] =~= idat_tag());
            assert(seq![73u8, 69u8, 78u8, 68u8] =~= iend_tag());
        }
        return png;
    }
    write_chunk(&mut png, 73, 68, 65, 84, &compressed);
    write_chunk(&mut png, 73, 69, 78, 68, &empty);
    proof {
        assert(seq![73u8, 68u8, 65u8, 84u8] =~= idat_tag());
        assert(seq![73u8, 69u8, 78u8, 68u8] =~= iend_tag());
    }
    png
}

} // verus!

verus! {

/// The grayscale expansion of a whole packed monochrome buffer.
pub open spec fn unpacked_gray(buffer: Seq<u8>, width: int, height: int) -> Seq<u8> {
    Seq::new((width * height) as nat, |i: int| unpack_pixel(buffer, width, i % width, i / width))
}

/// Encode a packed monochrome buffer (one bit per pixel, MSB first,
/// row-major) as a grayscale PNG: set bits become black, clear bits white.
pub fn encode_monochrome(width: u32, height: u32, buffer: &[u8]) -> (r: Vec<u8>)
    requires
        0 < width,
        width as int * height as int + height as int <= 0xffff_ffff,
    ensures
        zlib_deflate(
            raw_rows(
                width as int,
                height as int,
                unpacked_gray(buffer@, width as int, height as int),
                height as int,
            ),
            6,
        ).len() <= 0xffff_ffff ==> r@ == grayscale_png(
            width,
            height,
            unpacked_gray(buffer@, width as int, height as int),
            6,
        ),
{
    let mut grayscale: Vec<u8> = Vec::new();
    let mut y: u32 = 0;
    proof {
        assert(width as int * height as int <= 0xffff_ffff);
    }
    while y < height
        invariant
            y <= height,
            0 < width,
            width as int * height as int <= 0xffff_ffff,
            grayscale@.len() == y * width,
            forall|i: int|
                0 <= i < y * width ==> grayscale@[i] == unpack_pixel(
                    buffer@,
                    width as int,
                    i % (width as int),
                    i / (width as int),
                ),
        decreases height - y,
    {
        let mut x: u32 = 0;
        proof {
            assert((y as int) * (width as int) + width as int <= (y as int + 1) * (width as int))
                by (nonlinear_arith);
            assert((y as int + 1) * (width as int) <= width as int * height as int)
                by (nonlinear_arith)
                requires
                    y as int + 1 <= height as int,
                    width as int >= 0,
            ;
        }
        while x < width
            invariant
                x <= width,
                y < height,
                0 < width,
                width as int * height as int <= 0xffff_ffff,
                grayscale@.len() == y * width + x,
                forall|i: int|
                    0 <= i < y * width + x ==> grayscale@[i] == unpack_pixel(
                        buffer@,
                        width as int,
                        i % (width as int),
                        i / (width as int),
                    ),
            decreases width - x,
        {
            proof {
                assert((y as int) * (width as int) + (x as int) < 0x1_0000_0000)
                    by (nonlinear_arith)
                    requires
                        0 <= y < height,
                        0 <= x < width,
                        width as int * height as int <= 0xffff_ffff,
                ;
            }
            let pos: u64 = y as u64 * width as u64 + x as u64;
            let byte_index: u64 = pos / 8;
            let bit_index: u32 = 7 - (x % 8);
            let pixel: u8 = if (byte_index as usize) < buffer.len() {
                (buffer[byte_index as usize] >> bit_index) & 1
            } else {
                0
            };
            grayscale.push(
                if pixel == 1 {
                    0x00u8
                } else {
                    0xFFu8
                },
            );
            proof {
                let w = width as int;
                let i = y as int * w + x as int;
                assert(i % w == x as int && i / w == y as int) by (nonlinear_arith)
                    requires
                        w > 0,
                        0 <= x < w,
                        i == y as int * w + x as int,
                        y >= 0,
                ;
                assert(grayscale@[i] == unpack_pixel(buffer@, w, x as int, y as int));
            }
            x = x + 1;
        }
        proof {
            assert((y as int + 1) * (width as int) == (y as int) * (width as int) + width as int)
                by (nonlinear_arith);
        }
        y = y + 1;
    }
    proof {
        assert(height as int * width as int == width as int * height as int) by (nonlinear_arith);
        assert(grayscale@ =~= unpacked_gray(buffer@, width as int, height as int));
    }
    encode_grayscale(width, height, grayscale.as_slice())
}

} // verus!
