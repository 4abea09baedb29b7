//! The decoder entry point: header parsing, dispatch to the ASCII or
//! binary pixel decoder, and assembly of the resulting image.

use vstd::prelude::*;

use crate::ascii::{decode_ascii_pixels, lemma_ascii_pixels_len, spec_ascii_pixels};
use crate::binary::{decode_binary_pixels, spec_binary_pixels};
use crate::header::{
    parse_header, spec_header_fields_done, spec_header_loop, spec_parse_header,
};
use crate::image::{
    spec_has_max_value, spec_is_ascii, spec_result_view, DecodeError, Image, ImageModel,
    PixelFormat,
};
use crate::tokenize::{lemma_next_uint_advances, SpecIntToken};

verus! {

/// The decode of `s`: the header is parsed, the format's pixel decoder runs
/// from the pixel data offset for `width * height` pixels, and the image is
/// assembled.  A decode is all or nothing: it is either a full image or one
/// of the documented errors.
pub open spec fn spec_decode(s: Seq<u8>) -> Result<ImageModel, DecodeError> {
    match spec_parse_header(s) {
        Err(e) => Err(e),
        Ok(h) => {
            let pixels = if spec_is_ascii(h.format) {
                spec_ascii_pixels(s, h.pixel_data_offset, h.format, h.max_value, h.width * h.height)
            } else {
                spec_binary_pixels(s, h.pixel_data_offset, h.format, h.width, h.height, h.max_value)
            };
            match pixels {
                Err(e) => Err(e),
                Ok(px) => Ok(
                    ImageModel {
                        format: h.format,
                        width: h.width,
                        height: h.height,
                        max_value: h.max_value,
                        pixels: px,
                    },
                ),
            }
        },
    }
}

/// A header the state machine accepts has its fields in range, the given
/// format, and a pixel data offset inside the input.
proof fn lemma_header_loop_ok(s: Seq<u8>, p: nat, fmt: PixelFormat, w: nat, h: nat, m: nat)
    requires
        p <= s.len(),
        fmt != PixelFormat::Invalid,
        w < 0x1_0000_0000,
        h < 0x1_0000_0000,
        m <= 65535,
        !spec_has_max_value(fmt) ==> m == 0,
    ensures
        spec_header_loop(s, p, fmt, w, h, m) matches Ok(hm) ==> {
            &&& hm.format == fmt
            &&& 1 <= hm.width < 0x1_0000_0000
            &&& 1 <= hm.height < 0x1_0000_0000
            &&& 1 <= hm.max_value <= 65535
            &&& (!spec_has_max_value(fmt) ==> hm.max_value == 1)
            &&& hm.pixel_data_offset <= s.len()
        },
    decreases s.len() - p,
{
    if !spec_header_fields_done(fmt, w, h, m) {
        match crate::tokenize::spec_next_uint(s, p) {
            SpecIntToken::Value { v, next } => {
                lemma_next_uint_advances(s, p);
                if w == 0 {
                    lemma_header_loop_ok(s, next, fmt, v, h, m);
                } else if h == 0 {
                    lemma_header_loop_ok(s, next, fmt, w, v, m);
                } else if !(v == 0 || v > 65535) {
                    lemma_header_loop_ok(s, next, fmt, w, h, v);
                }
            },
            _ => {},
        }
    }
}

/// A decode never yields a malformed image: a successful decode satisfies
/// the image invariant, so in particular the pixel count always equals
/// `width * height` — never anything else.
pub proof fn lemma_decode_ok_wf(s: Seq<u8>)
    ensures
        spec_decode(s) matches Ok(m) ==> m.wf(),
{
    match spec_parse_header(s) {
        Ok(h) => {
            let fmt = crate::header::spec_format_of_magic(s[0], s[1]);
            lemma_header_loop_ok(s, 2, fmt, 0, 0, 0);
            if spec_is_ascii(h.format) {
                lemma_ascii_pixels_len(
                    s,
                    h.pixel_data_offset,
                    h.format,
                    h.max_value,
                    h.width * h.height,
                );
            }
        },
        Err(_) => {},
    }
}

/// Decoding is a pure function of the input bytes: two byte sources holding
/// the same bytes decode, with independent cursors, to identical results.
pub proof fn lemma_decode_deterministic(s1: Seq<u8>, s2: Seq<u8>)
    requires
        s1 == s2,
    ensures
        spec_decode(s1) == spec_decode(s2),
{
}

/// Inserting a comment line among the separators that follow the magic
/// number changes nothing about what decoding returns: the same image —
/// pixel for pixel — or the same error.  `c` is the inserted comment: a
/// `#`, a body free of line ends, and the line end that closes it; it goes
/// in at position `p`, with only whitespace between the magic number and
/// `p`.
pub proof fn lemma_decode_comment_insertion(s1: Seq<u8>, s2: Seq<u8>, c: Seq<u8>, p: nat)
    requires
        2 <= p <= s1.len(),
        c.len() >= 2,
        crate::cursor::spec_is_comment_start(c[0]),
        crate::cursor::spec_is_line_end(c[c.len() - 1]),
        forall|i: int| 1 <= i < c.len() - 1 ==> !crate::cursor::spec_is_line_end(c[i]),
        forall|i: int| 2 <= i < p ==> crate::cursor::spec_is_whitespace(s1[i]),
        s2 == s1.take(p as int) + c + s1.skip(p as int),
    ensures
        spec_decode(s2) == spec_decode(s1),
{
    crate::header::lemma_header_comment_insertion(s1, s2, c, p);
    let d = c.len();
    assert forall|i: int| p <= i < s1.len() implies s2[i + d] == s1[i] by {
        assert(s2[i + d] == s1.skip(p as int)[i - p]);
    }
    assert(crate::tokenize::spec_suffixes_agree(s1, s2, d, p));
    match spec_parse_header(s1) {
        Ok(h1) => {
            let off = h1.pixel_data_offset;
            crate::tokenize::lemma_skip_separators_bounds(s1, off);
            crate::tokenize::lemma_shift_skip_separators(s1, s2, d, p, off);
            if spec_is_ascii(h1.format) {
                crate::ascii::lemma_shift_ascii_pixels(
                    s1,
                    s2,
                    d,
                    p,
                    off,
                    off + d,
                    h1.format,
                    h1.max_value,
                    h1.width * h1.height,
                );
            } else {
                crate::binary::lemma_shift_binary_pixels(
                    s1,
                    s2,
                    d,
                    p,
                    off,
                    h1.format,
                    h1.width,
                    h1.height,
                    h1.max_value,
                );
            }
        },
        Err(_) => {},
    }
}

/// Decodes the bytes of a portable pixmap family file, exactly as
/// [`spec_decode`] describes.  On success the image satisfies its
/// invariant; on failure nothing is handed out but the error.
pub fn decode(bytes: &Vec<u8>) -> (r: Result<Image, DecodeError>)
    ensures
        spec_result_view(r) == spec_decode(bytes@),
        r matches Ok(img) ==> img@.wf(),
{
    proof {
        lemma_decode_ok_wf(bytes@);
    }
    let hr = match parse_header(bytes) {
        Ok(hr) => hr,
        Err(e) => {
            return Err(e);
        },
    };
    let fmt = hr.header.format;
    let w = hr.header.width;
    let h = hr.header.height;
    let max = hr.header.max_value;
    let off = hr.pixel_data_offset;
    proof {
        assert((w as u64) * (h as u64) < 0x1_0000_0000_0000_0000) by (nonlinear_arith)
            requires
                (w as u64) < 0x1_0000_0000,
                (h as u64) < 0x1_0000_0000,
        ;
    }
    let count: u64 = (w as u64) * (h as u64);
    let pixels = if fmt.is_ascii() {
        decode_ascii_pixels(bytes, off, fmt, max, count)
    } else {
        decode_binary_pixels(bytes, off, fmt, w, h, max)
    };
    match pixels {
        Ok(pixels) => Ok(Image { format: fmt, width: w, height: h, max_value: max, pixels }),
        Err(e) => Err(e),
    }
}

} // verus!
