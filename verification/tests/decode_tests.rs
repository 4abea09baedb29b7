//! End-to-end decode scenarios: one per documented behaviour of the
//! decoder, plus the documented error for each kind of malformed input.

use ppm_decoder::decoder::decode;
use ppm_decoder::image::{DecodeError, Image, Pixel, PixelFormat};

fn decode_bytes(bytes: &[u8]) -> Result<Image, DecodeError> {
    decode(&bytes.to_vec())
}

fn decode_ok(bytes: &[u8]) -> Image {
    decode_bytes(bytes).unwrap()
}

fn px(r: u8, g: u8, b: u8) -> Pixel {
    Pixel { r, g, b }
}

#[test]
fn p3_two_by_two() {
    let img = decode_ok(b"P3\n2 2\n255\n255 0 0 0 255 0 0 0 255 255 255 0\n");
    assert_eq!(img.format, PixelFormat::PixmapAscii);
    assert_eq!(img.width, 2);
    assert_eq!(img.height, 2);
    assert_eq!(img.max_value, 255);
    assert_eq!(img.pixels, vec![px(255, 0, 0), px(0, 255, 0), px(0, 0, 255), px(255, 255, 0)]);
}

#[test]
fn p1_two_samples() {
    let img = decode_ok(b"P1\n2 1\n1 0\n");
    assert_eq!(img.format, PixelFormat::BitmapAscii);
    assert_eq!(img.max_value, 1);
    assert_eq!(img.pixels, vec![px(0, 0, 0), px(255, 255, 255)]);
}

#[test]
fn p2_single_scaled_sample() {
    let img = decode_ok(b"P2\n1 1\n255\n128\n");
    assert_eq!(img.width, 1);
    assert_eq!(img.height, 1);
    assert_eq!(img.pixels, vec![px(128, 128, 128)]);
}

#[test]
fn comment_line_is_skipped() {
    let with_comment = decode_ok(b"P3\n# a comment\n2 1\n255\n10 10 10 20 20 20\n");
    let without = decode_ok(b"P3\n2 1\n255\n10 10 10 20 20 20\n");
    assert_eq!(with_comment.format, without.format);
    assert_eq!(with_comment.width, without.width);
    assert_eq!(with_comment.height, without.height);
    assert_eq!(with_comment.max_value, without.max_value);
    assert_eq!(with_comment.pixels, without.pixels);
}

#[test]
fn p4_single_byte_msb_first() {
    let img = decode_ok(b"P4\n8 1\n\x80");
    assert_eq!(img.format, PixelFormat::BitmapBinary);
    assert_eq!(img.pixels.len(), 8);
    assert_eq!(img.pixels[0], px(0, 0, 0));
    for i in 1..8 {
        assert_eq!(img.pixels[i], px(255, 255, 255));
    }
}

#[test]
fn p4_rows_are_padded_to_whole_bytes() {
    // Four-pixel rows occupy one byte each; the low four bits of every row
    // byte are discarded instead of bleeding into the next row.
    let mut bytes = b"P4\n4 2\n".to_vec();
    bytes.push(0xff);
    bytes.push(0x00);
    let img = decode_ok(&bytes);
    assert_eq!(img.pixels.len(), 8);
    for i in 0..4 {
        assert_eq!(img.pixels[i], px(0, 0, 0));
    }
    for i in 4..8 {
        assert_eq!(img.pixels[i], px(255, 255, 255));
    }
}

#[test]
fn invalid_magic_number() {
    assert!(matches!(decode_bytes(b"XY\n1 1\n255\n0 0 0\n"), Err(DecodeError::InvalidMagicNumber)));
    assert!(matches!(decode_bytes(b"P7\n1 1\n255\n"), Err(DecodeError::InvalidMagicNumber)));
    assert!(matches!(decode_bytes(b""), Err(DecodeError::InvalidMagicNumber)));
    assert!(matches!(decode_bytes(b"P"), Err(DecodeError::InvalidMagicNumber)));
}

#[test]
fn insufficient_ascii_pixel_data() {
    assert!(matches!(
        decode_bytes(b"P2\n2 2\n255\n1 2 3\n"),
        Err(DecodeError::InsufficientPixelData)
    ));
    assert!(matches!(
        decode_bytes(b"P3\n2 1\n255\n10 10 10 20 20\n"),
        Err(DecodeError::InsufficientPixelData)
    ));
}

#[test]
fn insufficient_binary_pixel_data() {
    let mut bytes = b"P6\n2 1\n255\n".to_vec();
    bytes.extend_from_slice(&[1, 2, 3]);
    assert!(matches!(decode_bytes(&bytes), Err(DecodeError::InsufficientPixelData)));
    let mut bitmap = b"P4\n8 2\n".to_vec();
    bitmap.push(0xff);
    assert!(matches!(decode_bytes(&bitmap), Err(DecodeError::InsufficientPixelData)));
}

#[test]
fn decoding_twice_is_identical() {
    let bytes = b"P3\n2 2\n255\n1 2 3 4 5 6 7 8 9 10 11 12\n".to_vec();
    let first = decode(&bytes).unwrap();
    let second = decode(&bytes).unwrap();
    assert_eq!(first.format, second.format);
    assert_eq!(first.width, second.width);
    assert_eq!(first.height, second.height);
    assert_eq!(first.max_value, second.max_value);
    assert_eq!(first.pixels, second.pixels);
}

#[test]
fn pixel_count_always_matches_dimensions() {
    let inputs: Vec<Vec<u8>> = vec![
        b"P1\n3 2\n1 0 1 0 1 0\n".to_vec(),
        b"P2\n2 3\n9\n1 2 3 4 5 6\n".to_vec(),
        b"P3\n1 2\n255\n1 2 3 4 5 6\n".to_vec(),
        b"P4\n9 2\n\x00\x00\x00\x00".to_vec(),
    ];
    for bytes in inputs {
        let img = decode(&bytes).unwrap();
        assert_eq!(img.pixels.len(), (img.width as usize) * (img.height as usize));
    }
}

#[test]
fn truncated_header() {
    assert!(matches!(decode_bytes(b"P3"), Err(DecodeError::TruncatedHeader)));
    assert!(matches!(decode_bytes(b"P3\n2"), Err(DecodeError::TruncatedHeader)));
    assert!(matches!(decode_bytes(b"P2\n2 2\n"), Err(DecodeError::TruncatedHeader)));
    assert!(matches!(decode_bytes(b"P1\n# only a comment\n"), Err(DecodeError::TruncatedHeader)));
}

#[test]
fn malformed_header_token() {
    assert!(matches!(decode_bytes(b"P3\n2 x\n255\n"), Err(DecodeError::MalformedToken)));
    assert!(matches!(decode_bytes(b"P1\n2 1x\n1 0\n"), Err(DecodeError::MalformedToken)));
}

#[test]
fn malformed_pixel_token() {
    assert!(matches!(decode_bytes(b"P1\n2 1\n1 x\n"), Err(DecodeError::MalformedToken)));
    assert!(matches!(
        decode_bytes(b"P2\n1 1\n255\n99999999999999999999\n"),
        Err(DecodeError::MalformedToken)
    ));
}

#[test]
fn out_of_range_max_value() {
    assert!(matches!(decode_bytes(b"P2\n1 1\n0\n5\n"), Err(DecodeError::OutOfRangeMaxValue)));
    assert!(matches!(decode_bytes(b"P3\n1 1\n70000\n1 2 3\n"), Err(DecodeError::OutOfRangeMaxValue)));
}

#[test]
fn tabs_and_carriage_returns_separate_tokens() {
    let img = decode_ok(b"P1\t2\t1\r1 0\n");
    assert_eq!(img.width, 2);
    assert_eq!(img.height, 1);
    assert_eq!(img.pixels, vec![px(0, 0, 0), px(255, 255, 255)]);
}

#[test]
fn comment_between_pixel_tokens() {
    let img = decode_ok(b"P1\n2 1\n1 # interlude\n0\n");
    assert_eq!(img.pixels, vec![px(0, 0, 0), px(255, 255, 255)]);
}

#[test]
fn zero_valued_dimension_tokens_are_skipped() {
    let img = decode_ok(b"P1\n0 2 1\n1 0\n");
    assert_eq!(img.width, 2);
    assert_eq!(img.height, 1);
}

#[test]
fn trailing_bytes_are_ignored() {
    let mut bytes = b"P6\n1 1\n255\n".to_vec();
    bytes.extend_from_slice(&[1, 2, 3, 4, 5]);
    let img = decode_ok(&bytes);
    assert_eq!(img.pixels, vec![px(1, 2, 3)]);
}

#[test]
fn p5_scales_and_clamps() {
    let mut bytes = b"P5\n2 1\n100\n".to_vec();
    bytes.extend_from_slice(&[50, 200]);
    let img = decode_ok(&bytes);
    assert_eq!(img.format, PixelFormat::GraymapBinary);
    assert_eq!(img.pixels, vec![px(128, 128, 128), px(255, 255, 255)]);
}

#[test]
fn p6_passes_bytes_through() {
    let mut bytes = b"P6\n2 1\n255\n".to_vec();
    bytes.extend_from_slice(&[10, 20, 30, 40, 50, 60]);
    let img = decode_ok(&bytes);
    assert_eq!(img.pixels, vec![px(10, 20, 30), px(40, 50, 60)]);
}

#[test]
fn p3_channels_are_not_scaled_and_wrap_at_one_byte() {
    let img = decode_ok(b"P3\n1 1\n100\n300 0 200\n");
    assert_eq!(img.pixels, vec![px(44, 0, 200)]);
}

#[test]
fn whitespace_after_the_single_separator_is_pixel_data() {
    // The header ends after exactly one separator byte; a further line feed
    // belongs to the binary payload and decodes as a sample.
    let mut bytes = b"P5\n1 1\n255\n\n".to_vec();
    bytes.push(65);
    let img = decode_ok(&bytes);
    assert_eq!(img.pixels, vec![px(10, 10, 10)]);
}

#[test]
fn max_value_upper_bound_is_accepted() {
    let img = decode_ok(b"P2\n1 1\n65535\n65535\n");
    assert_eq!(img.max_value, 65535);
    assert_eq!(img.pixels, vec![px(255, 255, 255)]);
}

#[test]
fn any_nonzero_bitmap_sample_is_black() {
    let img = decode_ok(b"P1\n3 1\n2 5 0\n");
    assert_eq!(img.pixels, vec![px(0, 0, 0), px(0, 0, 0), px(255, 255, 255)]);
}

#[test]
fn p4_single_pixel_row() {
    let mut bytes = b"P4\n1 2\n".to_vec();
    bytes.push(0x80);
    bytes.push(0x00);
    let img = decode_ok(&bytes);
    assert_eq!(img.pixels, vec![px(0, 0, 0), px(255, 255, 255)]);
}

#[test]
fn header_tokens_separated_by_spaces_only() {
    let mut bytes = b"P6 1 1 255 ".to_vec();
    bytes.extend_from_slice(&[9, 8, 7]);
    let img = decode_ok(&bytes);
    assert_eq!(img.pixels, vec![px(9, 8, 7)]);
}
