//! Tests of the decoder's parts: the cursor, the header tokenizer, the
//! intensity scaler and the bit accessor.

use ppm_decoder::binary::get_bit_at;
use ppm_decoder::cursor::ByteCursor;
use ppm_decoder::header::parse_header;
use ppm_decoder::image::PixelFormat;
use ppm_decoder::scale::scale_sample;

#[test]
fn get_bit_at_reads_bits_from_least_significant() {
    assert_eq!(get_bit_at(0x80, 7), Ok(true));
    assert_eq!(get_bit_at(0x80, 0), Ok(false));
    assert_eq!(get_bit_at(0x01, 0), Ok(true));
    assert_eq!(get_bit_at(0b0100_0000, 6), Ok(true));
    assert_eq!(get_bit_at(0xff, 8), Err(()));
    assert_eq!(get_bit_at(0x00, 255), Err(()));
}

#[test]
fn scale_sample_rounds_to_nearest() {
    assert_eq!(scale_sample(128, 255), 128);
    assert_eq!(scale_sample(0, 255), 0);
    assert_eq!(scale_sample(255, 255), 255);
    assert_eq!(scale_sample(1, 2), 128);
    assert_eq!(scale_sample(5, 5), 255);
    assert_eq!(scale_sample(50, 100), 128);
    assert_eq!(scale_sample(1, 65535), 0);
}

#[test]
fn scale_sample_clamps_samples_above_max() {
    assert_eq!(scale_sample(200, 100), 255);
    assert_eq!(scale_sample(4_000_000_000, 65535), 255);
}

#[test]
fn cursor_reads_sequentially_and_reports_position() {
    let bytes: Vec<u8> = vec![10, 20, 30];
    let mut cur = ByteCursor::new(&bytes);
    assert_eq!(cur.position(), 0);
    assert_eq!(cur.peek(), Some(10));
    assert_eq!(cur.next_byte(), Some(10));
    assert_eq!(cur.next_byte(), Some(20));
    assert_eq!(cur.position(), 2);
    assert_eq!(cur.next_byte(), Some(30));
    assert_eq!(cur.next_byte(), None);
    assert_eq!(cur.position(), 3);
}

#[test]
fn cursor_seek_repositions() {
    let bytes: Vec<u8> = vec![1, 2, 3, 4];
    let mut cur = ByteCursor::new(&bytes);
    assert_eq!(cur.next_byte(), Some(1));
    cur.seek(3);
    assert_eq!(cur.next_byte(), Some(4));
    assert_eq!(cur.next_byte(), None);
}

#[test]
fn cursor_classifies_bytes() {
    let bytes: Vec<u8> = vec![b' ', b'#', b'5'];
    let mut cur = ByteCursor::new(&bytes);
    assert!(cur.peek_is_whitespace());
    assert!(!cur.peek_is_comment_start());
    cur.next_byte();
    assert!(cur.peek_is_comment_start());
    cur.next_byte();
    assert!(!cur.peek_is_whitespace());
    assert!(!cur.peek_is_comment_start());
}

#[test]
fn format_classification() {
    let ascii = [PixelFormat::BitmapAscii, PixelFormat::GraymapAscii, PixelFormat::PixmapAscii];
    let binary = [PixelFormat::BitmapBinary, PixelFormat::GraymapBinary, PixelFormat::PixmapBinary];
    for fmt in ascii {
        assert!(fmt.is_ascii());
        assert!(!fmt.is_binary());
    }
    for fmt in binary {
        assert!(!fmt.is_ascii());
        assert!(fmt.is_binary());
    }
    assert!(!PixelFormat::Invalid.is_ascii());
    assert!(!PixelFormat::Invalid.is_binary());
    assert!(PixelFormat::GraymapAscii.has_max_value());
    assert!(PixelFormat::PixmapBinary.has_max_value());
    assert!(!PixelFormat::BitmapAscii.has_max_value());
    assert!(!PixelFormat::BitmapBinary.has_max_value());
}

#[test]
fn header_reports_exact_pixel_data_offset() {
    let bytes = b"P6\n2 2\n255\nXXXX".to_vec();
    let hr = parse_header(&bytes).unwrap();
    assert_eq!(hr.pixel_data_offset, 11);
    assert_eq!(hr.header.format, PixelFormat::PixmapBinary);
    assert_eq!(hr.header.width, 2);
    assert_eq!(hr.header.height, 2);
    assert_eq!(hr.header.max_value, 255);
    assert_eq!(hr.header.pixels.len(), 0);
}

#[test]
fn header_stops_at_height_for_bitmaps() {
    let bytes = b"P1\n3 2\n0 1 0 1 0 1\n".to_vec();
    let hr = parse_header(&bytes).unwrap();
    assert_eq!(hr.pixel_data_offset, 7);
    assert_eq!(hr.header.max_value, 1);
}

#[test]
fn header_comment_bytes_count_toward_offset() {
    let bytes = b"P4\n# c\n8 1\n\x80".to_vec();
    let hr = parse_header(&bytes).unwrap();
    assert_eq!(hr.pixel_data_offset, 11);
    assert_eq!(hr.header.width, 8);
    assert_eq!(hr.header.height, 1);
}
