use vnc_server::bytes::{be16, be32, push_be16, push_be32, reverse_bits};
use vnc_server::pixel::can_encode;
use vnc_server::{encode_rect, Rect, VncPixelFormat};

fn rgb565(big_endian: bool) -> VncPixelFormat {
    VncPixelFormat::parse(&[
        16, 16, big_endian as u8, 1, 0, 31, 0, 63, 0, 31, 11, 5, 0, 0, 0, 0,
    ])
}

#[test]
fn integers_are_big_endian() {
    assert_eq!(be16(0x12, 0x34), 0x1234);
    assert_eq!(be32(0x12, 0x34, 0x56, 0x78), 0x1234_5678);
    let mut out = vec![7u8];
    push_be16(&mut out, 0xfedc);
    push_be32(&mut out, 0x0123_4567);
    assert_eq!(out, [7, 0xfe, 0xdc, 0x01, 0x23, 0x45, 0x67]);
}

#[test]
fn bits_are_reversed_as_std_does() {
    for b in 0..=255u8 {
        assert_eq!(reverse_bits(b), b.reverse_bits());
    }
}

#[test]
fn native_format_is_recognised() {
    let native = VncPixelFormat::native();
    assert!(native.is_native());
    assert_eq!(
        VncPixelFormat::parse(&[32, 24, 0, 1, 0, 255, 0, 255, 0, 255, 16, 8, 0, 0, 0, 0]),
        native
    );
    let mut other = native;
    other.big_endian = true;
    assert!(!other.is_native());
    let mut other = native;
    other.r_shift = 0;
    assert!(!other.is_native());
}

#[test]
fn parse_reads_every_field() {
    let format = VncPixelFormat::parse(&[8, 0, 5, 0, 1, 2, 3, 4, 5, 6, 7, 8, 9, 0, 0, 0]);
    assert_eq!(
        format,
        VncPixelFormat {
            bpp: 8,
            big_endian: true,
            r_max: 0x0102,
            g_max: 0x0304,
            b_max: 0x0506,
            r_shift: 7,
            g_shift: 8,
            b_shift: 9,
        }
    );
}

#[test]
fn native_encoding_copies_the_rows_of_the_rectangle() {
    let frame: Vec<u8> = (0..4 * 3 * 4).map(|i| i as u8).collect();
    let mut out = vec![99u8];
    let rect = Rect { x: 1, y: 1, width: 2, height: 2 };
    encode_rect(&frame, 4, rect, &VncPixelFormat::native(), &mut out);
    let mut expected = frame[20..28].to_vec();
    expected.extend_from_slice(&frame[36..44]);
    assert_eq!(out, expected);
}

#[test]
fn sixteen_bit_pixels_are_scaled_and_shifted() {
    let frame = [0x00, 0x80, 0xff, 0, 0xff, 0xff, 0xff, 0];
    let rect = Rect { x: 0, y: 0, width: 2, height: 1 };
    let mut out = Vec::new();
    encode_rect(&frame, 2, rect, &rgb565(false), &mut out);
    // Red 31, green 31 of 63, blue 0: 0xfbe0.
    assert_eq!(out, [0xe0, 0xfb, 0xff, 0xff]);
    encode_rect(&frame, 2, rect, &rgb565(true), &mut out);
    assert_eq!(out, [0xfb, 0xe0, 0xff, 0xff]);
}

#[test]
fn swapped_colours_are_not_the_native_format() {
    let rgbx = VncPixelFormat::parse(&[32, 24, 0, 1, 0, 255, 0, 255, 0, 255, 0, 8, 16, 0, 0, 0]);
    let mut out = Vec::new();
    encode_rect(&[1, 2, 3, 4], 1, Rect::full(1, 1), &rgbx, &mut out);
    assert_eq!(out, [3, 2, 1, 0]);
}

#[test]
fn small_and_large_pixels_take_whole_bytes() {
    let mut format = VncPixelFormat::native();
    format.bpp = 4;
    format.b_max = 3;
    let mut out = Vec::new();
    encode_rect(&[255, 0, 0, 0], 1, Rect::full(1, 1), &format, &mut out);
    assert_eq!(out, [3]);
    format = VncPixelFormat::native();
    format.bpp = 64;
    encode_rect(&[1, 2, 3, 4], 1, Rect::full(1, 1), &format, &mut out);
    assert_eq!(out, [1, 2, 3, 0, 0, 0, 0, 0]);
}

#[test]
fn an_empty_rectangle_encodes_to_nothing() {
    let mut out = vec![1u8, 2, 3];
    encode_rect(&[], 5, Rect::full(5, 0), &rgb565(false), &mut out);
    assert!(out.is_empty());
}

#[test]
fn what_cannot_be_encoded_is_told() {
    let native = VncPixelFormat::native();
    assert!(can_encode(16, 2, Rect::full(2, 2), &native));
    assert!(!can_encode(15, 2, Rect::full(2, 2), &native));
    let mut wide = native;
    wide.r_shift = 32;
    assert!(!can_encode(16, 2, Rect::full(2, 2), &wide));
    assert!(can_encode(16, 2, Rect::full(2, 0), &wide));
    let mut deep = native;
    deep.bpp = 72;
    assert!(!deep.is_convertible());
    assert!(!can_encode(16, 2, Rect::full(2, 2), &deep));
    deep.bpp = 71;
    assert!(can_encode(16, 2, Rect::full(2, 2), &deep));
}

#[test]
fn colours_read_back_from_their_pixels() {
    for format in [rgb565(false), rgb565(true)] {
        for level in 0..=255u8 {
            let (b, g, r) = (level, 255 - level, level / 2);
            let mut out = Vec::new();
            encode_rect(&[b, g, r, 0], 1, Rect::full(1, 1), &format, &mut out);
            let pixel = if format.big_endian {
                u16::from_be_bytes([out[0], out[1]])
            } else {
                u16::from_le_bytes([out[0], out[1]])
            };
            assert_eq!(pixel >> 11, r as u16 * 31 / 255);
            assert_eq!((pixel >> 5) & 63, g as u16 * 63 / 255);
            assert_eq!(pixel & 31, b as u16 * 31 / 255);
        }
    }
}

#[test]
fn every_pixel_of_a_rectangle_is_in_its_place() {
    let frame: Vec<u8> = (0..6 * 5 * 4).map(|i| (i * 7) as u8).collect();
    let rect = Rect { x: 2, y: 1, width: 3, height: 4 };
    for (format, n) in [(VncPixelFormat::native(), 4), (rgb565(false), 2)] {
        let mut out = Vec::new();
        encode_rect(&frame, 6, rect, &format, &mut out);
        assert_eq!(out.len(), 3 * 4 * n);
        for j in 0..4usize {
            for i in 0..3usize {
                let at = ((1 + j) * 6 + 2 + i) * 4;
                let mut single = Vec::new();
                encode_rect(&frame[at..at + 4], 1, Rect::full(1, 1), &format, &mut single);
                assert_eq!(out[(j * 3 + i) * n..(j * 3 + i) * n + n], single);
            }
        }
    }
}
