use rdp_core::error::RdpErrorKind;
use rdp_core::rle::{process_plane, rgb565torgb32, rle_16_decompress, rle_32_decompress};

#[test]
fn rgb565_extremes() {
    let out = rgb565torgb32(&[0x0000, 0xffff, 0x001f]);
    assert_eq!(out.len(), 12);
    assert_eq!(&out[0..4], &[0, 0, 0, 0xff]);
    assert_eq!(&out[4..8], &[0xff, 0xff, 0xff, 0xff]);
    assert_eq!(&out[8..12], &[0xff, 0, 0, 0xff]);
}

#[test]
fn rgb565_alpha_is_always_opaque() {
    let pixels: Vec<u16> = (0..1024u32).map(|i| (i * 37 % 65536) as u16).collect();
    let out = rgb565torgb32(&pixels);
    assert_eq!(out.len(), 4 * pixels.len());
    for i in 0..pixels.len() {
        assert_eq!(out[4 * i + 3], 0xff);
    }
}

#[test]
fn rle16_background_run() {
    let mut out: Vec<u16> = vec![0x5555; 4];
    rle_16_decompress(&[0x04], 4, 1, &mut out).unwrap();
    assert_eq!(out, vec![0, 0, 0, 0]);
}

#[test]
fn rle16_white_run() {
    let mut out: Vec<u16> = vec![0; 4];
    rle_16_decompress(&[0x24], 4, 1, &mut out).unwrap();
    assert_eq!(out, vec![0xffff; 4]);
}

#[test]
fn rle16_colour_run() {
    let mut out: Vec<u16> = vec![0; 4];
    rle_16_decompress(&[0x64, 0x34, 0x12], 4, 1, &mut out).unwrap();
    assert_eq!(out, vec![0x1234; 4]);
}

#[test]
fn rle16_copy_run() {
    let mut out: Vec<u16> = vec![0; 4];
    rle_16_decompress(
        &[0x84, 0x01, 0x00, 0x02, 0x00, 0x03, 0x00, 0x04, 0x00],
        4,
        1,
        &mut out,
    )
    .unwrap();
    assert_eq!(out, vec![1, 2, 3, 4]);
}

#[test]
fn rle16_bicolour_run() {
    let mut out: Vec<u16> = vec![0; 4];
    rle_16_decompress(&[0xe2, 0x11, 0x11, 0x22, 0x22], 4, 1, &mut out).unwrap();
    assert_eq!(out, vec![0x1111, 0x2222, 0x1111, 0x2222]);
}

#[test]
fn rle16_two_lines_background_copies_previous() {
    // A white bottom line, then a background run: the upper line repeats it.
    let mut out: Vec<u16> = vec![0; 8];
    rle_16_decompress(&[0x24, 0x04], 4, 2, &mut out).unwrap();
    assert_eq!(&out[4..8], &[0xffff; 4]);
    assert_eq!(&out[0..4], &[0xffff; 4]);
}

#[test]
fn rle16_overrun_fails_cleanly() {
    let mut out: Vec<u16> = vec![0; 4];
    let err = rle_16_decompress(&[0x28], 4, 1, &mut out).unwrap_err();
    assert_eq!(err.kind(), RdpErrorKind::RleDecode);
}

#[test]
fn rle16_truncated_input_fails_cleanly() {
    let mut out: Vec<u16> = vec![0; 4];
    let err = rle_16_decompress(&[0xf0], 4, 1, &mut out).unwrap_err();
    assert_eq!(err.kind(), RdpErrorKind::InvalidSize);
}

#[test]
fn rle16_garbage_never_overruns() {
    // Pseudo-random opcode streams either decode or fail, never panic.
    let mut seed: u32 = 0x1234_5678;
    for round in 0..64 {
        let mut input = Vec::new();
        for _ in 0..(round + 3) {
            seed = seed.wrapping_mul(1_664_525).wrapping_add(1_013_904_223);
            input.push((seed >> 24) as u8);
        }
        let mut out: Vec<u16> = vec![0; 64];
        let _ = rle_16_decompress(&input, 8, 8, &mut out);
        assert_eq!(out.len(), 64);
    }
}

// One 2x2 plane: a literal bottom line, then one line of signed deltas.
fn plane_2x2() -> Vec<u8> {
    vec![0x20, 10, 20, 0x20, 0x0a, 0x05]
}

#[test]
fn plane_decode_applies_deltas() {
    let mut out: Vec<u8> = vec![0; 16];
    let mut input = plane_2x2();
    input.extend_from_slice(&plane_2x2());
    let p = process_plane(&input, 0, 2, 2, &mut out, 3).unwrap();
    // Bottom line holds the literals, the top line the deltas +5 and -3.
    assert_eq!(out[8 + 3], 10);
    assert_eq!(out[12 + 3], 20);
    assert_eq!(out[0 + 3], 15);
    assert_eq!(out[4 + 3], 17);
    assert_eq!(p, 6);
}

#[test]
fn rle32_decodes_four_planes() {
    let mut input = vec![0x10];
    for _ in 0..4 {
        input.extend_from_slice(&plane_2x2());
    }
    let mut out: Vec<u8> = vec![0; 16];
    rle_32_decompress(&input, 2, 2, &mut out).unwrap();
    // Every channel of a pixel carries the same plane values.
    assert_eq!(&out[8..12], &[10, 10, 10, 10]);
    assert_eq!(&out[12..16], &[20, 20, 20, 20]);
    assert_eq!(&out[0..4], &[15, 15, 15, 15]);
    assert_eq!(&out[4..8], &[17, 17, 17, 17]);
}

#[test]
fn rle32_bad_header_fails() {
    let mut out: Vec<u8> = vec![0; 16];
    let err = rle_32_decompress(&[0x11], 2, 2, &mut out).unwrap_err();
    assert_eq!(err.kind(), RdpErrorKind::RleDecode);
}

// A 64-pixel line: four chunks of one literal and fifteen repeats.
fn line_64(value: u8) -> Vec<u8> {
    let mut v = Vec::new();
    for _ in 0..4 {
        v.push(0x1f);
        v.push(value);
    }
    v
}

// 63 delta lines of zero deltas: each line copies the one below it.
fn zero_delta_lines_64() -> Vec<u8> {
    let mut v = Vec::new();
    for _ in 0..63 {
        for _ in 0..4 {
            v.push(0x01);
        }
    }
    v
}

#[test]
fn bitmap_64x64_delivery_is_opaque() {
    // A compressed 32-bpp 64x64 update whose alpha plane is all 0xff.
    let mut input = vec![0x10];
    for value in [0xff, 0x40, 0x80, 0xc0] {
        input.extend_from_slice(&line_64(value));
        input.extend_from_slice(&zero_delta_lines_64());
    }
    let mut out: Vec<u8> = vec![0; 64 * 64 * 4];
    rle_32_decompress(&input, 64, 64, &mut out).unwrap();
    assert_eq!(out.len(), 16_384);
    for i in 0..(64 * 64) {
        assert_eq!(out[4 * i + 3], 0xff);
        assert_eq!(out[4 * i + 2], 0x40);
        assert_eq!(out[4 * i + 1], 0x80);
        assert_eq!(out[4 * i], 0xc0);
    }
}
