//! Tests for the PNG writer.

use fri3d_runtime::png::crc32;
use fri3d_runtime::png::encode_grayscale;
use fri3d_runtime::png::encode_monochrome;

#[test]
fn crc32_matches_known_vectors() {
    // standard CRC-32 check value
    assert_eq!(crc32(b"123456789"), 0xCBF43926);
    assert_eq!(crc32(b""), 0);
    assert_eq!(crc32(b"IEND"), 0xAE426082);
}

#[test]
fn grayscale_png_has_signature_and_header() {
    let data = [0x00u8, 0xFF, 0xFF, 0x00];
    let png = encode_grayscale(2, 2, &data);
    assert_eq!(&png[0..8], &[0x89, 0x50, 0x4E, 0x47, 0x0D, 0x0A, 0x1A, 0x0A]);
    // IHDR: length 13, type, width 2, height 2, depth 8, grayscale
    assert_eq!(&png[8..12], &[0, 0, 0, 13]);
    assert_eq!(&png[12..16], b"IHDR");
    assert_eq!(&png[16..20], &[0, 0, 0, 2]);
    assert_eq!(&png[20..24], &[0, 0, 0, 2]);
    assert_eq!(png[24], 8);
    assert_eq!(png[25], 0);
    // the document ends with the IEND chunk and its fixed CRC
    let tail = &png[png.len() - 12..];
    assert_eq!(&tail[0..4], &[0, 0, 0, 0]);
    assert_eq!(&tail[4..8], b"IEND");
    assert_eq!(&tail[8..12], &0xAE426082u32.to_be_bytes());
}

#[test]
fn ihdr_crc_is_correct() {
    let png = encode_grayscale(1, 1, &[0x7F]);
    // CRC over chunk type and payload, stored after the 13 payload bytes
    let crc_stored = u32::from_be_bytes([png[29], png[30], png[31], png[32]]);
    assert_eq!(crc_stored, crc32(&png[12..29]));
}

#[test]
fn monochrome_unpacks_msb_first() {
    // 8x1 image, single byte 0b1010_0000: two black pixels at x = 0 and 2
    let png_packed = encode_monochrome(8, 1, &[0b1010_0000]);
    let png_gray = encode_grayscale(
        8,
        1,
        &[0x00, 0xFF, 0x00, 0xFF, 0xFF, 0xFF, 0xFF, 0xFF],
    );
    assert_eq!(png_packed, png_gray);
}
