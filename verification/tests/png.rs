use boon::font::glyph;
use boon::png::{adler32, crc32, encode_png_rgb, write_png_chunk};

#[test]
fn crc32_check_value() {
    assert_eq!(crc32(b"123456789"), 0xCBF4_3926);
    assert_eq!(crc32(b""), 0);
}

#[test]
fn adler32_known_values() {
    assert_eq!(adler32(b"Wikipedia"), 0x11E6_0398);
    assert_eq!(adler32(b""), 1);
}

#[test]
fn end_chunk_has_the_well_known_crc() {
    let mut png = Vec::new();
    write_png_chunk(&mut png, b"IEND", &[]);
    assert_eq!(png, vec![0, 0, 0, 0, b'I', b'E', b'N', b'D', 0xAE, 0x42, 0x60, 0x82]);
}

#[test]
fn one_red_pixel_png() {
    let png = encode_png_rgb(1, 1, &[255, 0, 0]);
    assert_eq!(png.len(), 72);
    assert_eq!(&png[..8], b"\x89PNG\r\n\x1a\n");
    assert_eq!(&png[8..16], &[0, 0, 0, 13, b'I', b'H', b'D', b'R']);
    assert_eq!(&png[16..29], &[0, 0, 0, 1, 0, 0, 0, 1, 8, 2, 0, 0, 0]);
    assert_eq!(&png[29..33], &[0x90, 0x77, 0x53, 0xDE]);
    assert_eq!(&png[33..41], &[0, 0, 0, 15, b'I', b'D', b'A', b'T']);
    let raw = [0u8, 255, 0, 0];
    let mut zlib = vec![0x78, 0x01, 0x01, 0x04, 0x00, 0xFB, 0xFF];
    zlib.extend_from_slice(&raw);
    zlib.extend_from_slice(&adler32(&raw).to_be_bytes());
    assert_eq!(&png[41..56], zlib.as_slice());
    assert_eq!(&png[60..72], &[0, 0, 0, 0, b'I', b'E', b'N', b'D', 0xAE, 0x42, 0x60, 0x82]);
}

#[test]
fn rows_are_split_by_width() {
    let png = encode_png_rgb(1, 2, &[1, 2, 3, 4, 5, 6]);
    let idat = &png[41..];
    assert_eq!(&idat[..7], &[0x78, 0x01, 0x01, 0x08, 0x00, 0xF7, 0xFF]);
    assert_eq!(&idat[7..15], &[0, 1, 2, 3, 0, 4, 5, 6]);
}

#[test]
fn large_images_use_several_stored_blocks() {
    let rgb = vec![7u8; 3 * 30_000];
    let png = encode_png_rgb(30_000, 1, &rgb);
    let idat = &png[41..];
    assert_eq!(&idat[..2], &[0x78, 0x01]);
    assert_eq!(&idat[2..7], &[0x00, 0xFF, 0xFF, 0x00, 0x00]);
    let second = 7 + 65_535;
    assert_eq!(&idat[second..second + 5], &[0x01, 0x92, 0x5F, 0x6D, 0xA0]);
}

#[test]
fn glyphs_ignore_case_and_fall_back() {
    assert_eq!(glyph('a'), glyph('A'));
    assert_eq!(glyph('A'), ["01110", "10001", "10001", "11111", "10001", "10001", "10001"]);
    assert_eq!(glyph(' '), ["00000"; 7]);
    assert_eq!(glyph('%'), ["11111", "00001", "00010", "00100", "00000", "00100", "00100"]);
}
