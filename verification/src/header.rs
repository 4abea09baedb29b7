//! The header tokenizer: resolves the magic number, width, height and
//! (for graymap and pixmap formats) the max-intensity value, and reports
//! the exact byte offset at which pixel data begins.

use vstd::prelude::*;

use crate::cursor::{spec_is_comment_start, spec_is_line_end, spec_is_whitespace, ByteCursor};
use crate::image::{
    spec_has_max_value, DecodeError, Image, PixelFormat,
};
use crate::tokenize::{
    lemma_next_uint_advances, read_uint_token, spec_next_uint, spec_skip_separators, IntToken,
    SpecIntToken,
};

verus! {

/// The mathematical view of a parsed header.
pub ghost struct HeaderModel {
    /// The format named by the magic number.
    pub format: PixelFormat,
    /// Number of pixel columns.
    pub width: nat,
    /// Number of pixel rows.
    pub height: nat,
    /// The max-intensity value (1, implicitly, for bitmap formats).
    pub max_value: nat,
    /// The byte offset at which pixel data begins: right after the single
    /// separator byte that terminates the last required header token.
    pub pixel_data_offset: nat,
}

/// The format named by a two-byte magic number: `P` followed by a digit
/// `1` through `6`.
pub open spec fn spec_format_of_magic(b0: u8, b1: u8) -> PixelFormat {
    if b0 == 0x50 {
        if b1 == 0x31 {
            PixelFormat::BitmapAscii
        } else if b1 == 0x32 {
            PixelFormat::GraymapAscii
        } else if b1 == 0x33 {
            PixelFormat::PixmapAscii
        } else if b1 == 0x34 {
            PixelFormat::BitmapBinary
        } else if b1 == 0x35 {
            PixelFormat::GraymapBinary
        } else if b1 == 0x36 {
            PixelFormat::PixmapBinary
        } else {
            PixelFormat::Invalid
        }
    } else {
        PixelFormat::Invalid
    }
}

/// The format named by a two-byte magic number.
pub fn format_of_magic(b0: u8, b1: u8) -> (fmt: PixelFormat)
    ensures
        fmt == spec_format_of_magic(b0, b1),
{
    if b0 == 0x50 {
        if b1 == 0x31 {
            PixelFormat::BitmapAscii
        } else if b1 == 0x32 {
            PixelFormat::GraymapAscii
        } else if b1 == 0x33 {
            PixelFormat::PixmapAscii
        } else if b1 == 0x34 {
            PixelFormat::BitmapBinary
        } else if b1 == 0x35 {
            PixelFormat::GraymapBinary
        } else if b1 == 0x36 {
            PixelFormat::PixmapBinary
        } else {
            PixelFormat::Invalid
        }
    } else {
        PixelFormat::Invalid
    }
}

/// True once every required header field is resolved: width and height are
/// nonzero, and so is the max-intensity value where the format carries one.
/// A zero-valued width or height token leaves its field unresolved, and
/// further tokens are read.
pub open spec fn spec_header_fields_done(fmt: PixelFormat, w: nat, h: nat, m: nat) -> bool {
    w > 0 && h > 0 && (!spec_has_max_value(fmt) || m > 0)
}

/// One step of the header state machine, starting at position `p` with the
/// fields resolved so far.  Tokenizing stops the moment every required
/// field is resolved; the position reached at that moment is the pixel
/// data offset.  Running out of input first is a truncated header; a
/// non-integer token is malformed; a max-intensity token outside
/// `1 ..= 65535` is out of range.
pub open spec fn spec_header_loop(
    s: Seq<u8>,
    p: nat,
    fmt: PixelFormat,
    w: nat,
    h: nat,
    m: nat,
) -> Result<HeaderModel, DecodeError>
    decreases s.len() - p,
    via spec_header_loop_decreases
{
    if spec_header_fields_done(fmt, w, h, m) {
        Ok(
            HeaderModel {
                format: fmt,
                width: w,
                height: h,
                max_value: if spec_has_max_value(fmt) {
                    m
                } else {
                    1
                },
                pixel_data_offset: p,
            },
        )
    } else {
        match spec_next_uint(s, p) {
            SpecIntToken::EndOfInput => Err(DecodeError::TruncatedHeader),
            SpecIntToken::Malformed => Err(DecodeError::MalformedToken),
            SpecIntToken::Value { v, next } => {
                if w == 0 {
                    spec_header_loop(s, next, fmt, v, h, m)
                } else if h == 0 {
                    spec_header_loop(s, next, fmt, w, v, m)
                } else {
                    if v == 0 || v > 65535 {
                        Err(DecodeError::OutOfRangeMaxValue)
                    } else {
                        spec_header_loop(s, next, fmt, w, h, v)
                    }
                }
            },
        }
    }
}

#[via_fn]
proof fn spec_header_loop_decreases(s: Seq<u8>, p: nat, fmt: PixelFormat, w: nat, h: nat, m: nat) {
    if p <= s.len() {
        lemma_next_uint_advances(s, p);
    } else {
        crate::tokenize::lemma_skip_separators_bounds(s, s.len());
        assert(crate::tokenize::spec_skip_separators(s, p) == s.len());
    }
}

/// The parsed header of `s`: the magic number is read from the first two
/// bytes, then the header state machine runs from offset 2.  An input
/// shorter than two bytes, like one whose first two bytes name no format,
/// has an invalid magic number.
pub open spec fn spec_parse_header(s: Seq<u8>) -> Result<HeaderModel, DecodeError> {
    if s.len() < 2 {
        Err(DecodeError::InvalidMagicNumber)
    } else {
        let fmt = spec_format_of_magic(s[0], s[1]);
        if fmt == PixelFormat::Invalid {
            Err(DecodeError::InvalidMagicNumber)
        } else {
            spec_header_loop(s, 2, fmt, 0, 0, 0)
        }
    }
}

/// Skipping starts the same from anywhere in a whitespace run.
proof fn lemma_skip_through_whitespace(s: Seq<u8>, x: nat, p: nat)
    requires
        x <= p <= s.len(),
        forall|i: int| x <= i < p ==> spec_is_whitespace(s[i]),
    ensures
        spec_skip_separators(s, x) == spec_skip_separators(s, p),
    decreases p - x,
{
    if x < p {
        lemma_skip_through_whitespace(s, x + 1, p);
    }
}

/// A comment whose body holds no line end before the one at `e - 1` is
/// skipped to exactly `e`.
proof fn lemma_comment_end_of_run(s: Seq<u8>, q: nat, e: nat)
    requires
        q < e <= s.len(),
        forall|i: int| q <= i < e - 1 ==> !spec_is_line_end(s[i]),
        spec_is_line_end(s[e - 1]),
    ensures
        crate::tokenize::spec_comment_end(s, q) == e,
    decreases e - q,
{
    if q < e - 1 {
        lemma_comment_end_of_run(s, q + 1, e);
    }
}

/// Two runs of the header state machine over inputs that agree past `b`,
/// shifted by `d`, from positions whose separator skipping lands on
/// agreeing token starts: they resolve the same fields, fail the same way,
/// and report offsets that differ by exactly `d`.
proof fn lemma_shift_header_loop(
    s1: Seq<u8>,
    s2: Seq<u8>,
    d: nat,
    b: nat,
    p1: nat,
    p2: nat,
    fmt: PixelFormat,
    w: nat,
    h: nat,
    m: nat,
)
    requires
        crate::tokenize::spec_suffixes_agree(s1, s2, d, b),
        p1 <= s1.len(),
        p2 <= s2.len(),
        crate::tokenize::spec_skip_separators(s2, p2) == crate::tokenize::spec_skip_separators(
            s1,
            p1,
        ) + d,
        b <= crate::tokenize::spec_skip_separators(s1, p1),
        !spec_header_fields_done(fmt, w, h, m) || (p2 == p1 + d && b <= p1),
    ensures
        match (spec_header_loop(s1, p1, fmt, w, h, m), spec_header_loop(s2, p2, fmt, w, h, m)) {
            (Ok(h1), Ok(h2)) => {
                &&& h2.format == h1.format
                &&& h2.width == h1.width
                &&& h2.height == h1.height
                &&& h2.max_value == h1.max_value
                &&& h2.pixel_data_offset == h1.pixel_data_offset + d
                &&& b <= h1.pixel_data_offset <= s1.len()
            },
            (Err(e1), Err(e2)) => e1 == e2,
            _ => false,
        },
    decreases s1.len() - p1,
{
    if !spec_header_fields_done(fmt, w, h, m) {
        crate::tokenize::lemma_shift_next_uint(s1, s2, d, b, p1, p2);
        lemma_next_uint_advances(s1, p1);
        match crate::tokenize::spec_next_uint(s1, p1) {
            SpecIntToken::Value { v, next } => {
                crate::tokenize::lemma_skip_separators_bounds(s1, next);
                crate::tokenize::lemma_shift_skip_separators(s1, s2, d, b, next);
                if w == 0 {
                    lemma_shift_header_loop(s1, s2, d, b, next, next + d, fmt, v, h, m);
                } else if h == 0 {
                    lemma_shift_header_loop(s1, s2, d, b, next, next + d, fmt, w, v, m);
                } else if !(v == 0 || v > 65535) {
                    lemma_shift_header_loop(s1, s2, d, b, next, next + d, fmt, w, h, v);
                }
            },
            _ => {},
        }
    }
}

/// Inserting a comment line among the separators that follow the magic
/// number changes nothing about how the header parses — same fields, same
/// failures — except that the pixel data offset moves by exactly the
/// comment's length.  `c` is the inserted comment: a `#`, a body free of
/// line ends, and the line end that closes it; it goes in at position `p`,
/// with only whitespace between the magic number and `p`.
pub proof fn lemma_header_comment_insertion(s1: Seq<u8>, s2: Seq<u8>, c: Seq<u8>, p: nat)
    requires
        2 <= p <= s1.len(),
        c.len() >= 2,
        spec_is_comment_start(c[0]),
        spec_is_line_end(c[c.len() - 1]),
        forall|i: int| 1 <= i < c.len() - 1 ==> !spec_is_line_end(c[i]),
        forall|i: int| 2 <= i < p ==> spec_is_whitespace(s1[i]),
        s2 == s1.take(p as int) + c + s1.skip(p as int),
    ensures
        match (spec_parse_header(s1), spec_parse_header(s2)) {
            (Ok(h1), Ok(h2)) => {
                &&& h2.format == h1.format
                &&& h2.width == h1.width
                &&& h2.height == h1.height
                &&& h2.max_value == h1.max_value
                &&& h2.pixel_data_offset == h1.pixel_data_offset + c.len()
                &&& p <= h1.pixel_data_offset <= s1.len()
            },
            (Err(e1), Err(e2)) => e1 == e2,
            _ => false,
        },
{
    let d = c.len();
    assert forall|i: int| 0 <= i < p implies s2[i] == s1[i] by {
        assert(s2[i] == s1.take(p as int)[i]);
    }
    assert forall|i: int| p <= i < s1.len() implies s2[i + d] == s1[i] by {
        assert(s2[i + d] == s1.skip(p as int)[i - p]);
    }
    assert(crate::tokenize::spec_suffixes_agree(s1, s2, d, p));
    let fmt = spec_format_of_magic(s1[0], s1[1]);
    assert(s2[0] == s1[0] && s2[1] == s1[1]);
    if fmt != PixelFormat::Invalid {
        lemma_skip_through_whitespace(s1, 2, p);
        lemma_skip_through_whitespace(s2, 2, p);
        assert(s2[p as int] == c[0]);
        assert forall|i: int| p + 1 <= i < p + d - 1 implies !spec_is_line_end(
            s2[i],
        ) by {
            assert(s2[i] == c[i - p]);
        }
        assert(s2[p + d - 1] == c[d - 1]);
        lemma_comment_end_of_run(s2, p + 1, p + d);
        crate::tokenize::lemma_shift_skip_separators(s1, s2, d, p, p);
        assert(crate::tokenize::spec_skip_separators(s2, p) == crate::tokenize::spec_skip_separators(
            s2,
            p + d,
        ));
        crate::tokenize::lemma_skip_separators_bounds(s1, p);
        lemma_shift_header_loop(s1, s2, d, p, 2, 2, fmt, 0, 0, 0);
    }
}

/// A parsed header: the byte offset at which pixel data begins, and the
/// image metadata with no pixels decoded yet.
pub struct HeaderParseResult {
    /// The byte offset at which pixel data begins.
    pub pixel_data_offset: usize,
    /// The image metadata; `pixels` is empty.
    pub header: Image,
}

impl View for HeaderParseResult {
    type V = HeaderModel;

    open spec fn view(&self) -> HeaderModel {
        HeaderModel {
            format: self.header.format,
            width: self.header.width as nat,
            height: self.header.height as nat,
            max_value: self.header.max_value as nat,
            pixel_data_offset: self.pixel_data_offset as nat,
        }
    }
}

/// Parses the header of `bytes`, exactly as [`spec_parse_header`]
/// describes.  On success the resolved fields are in range, the reported
/// offset lies within the input, and no pixels have been decoded.
pub fn parse_header(bytes: &Vec<u8>) -> (r: Result<HeaderParseResult, DecodeError>)
    ensures
        match r {
            Ok(hr) => {
                &&& spec_parse_header(bytes@) == Ok::<HeaderModel, DecodeError>(hr@)
                &&& hr.header.pixels@.len() == 0
                &&& hr.pixel_data_offset <= bytes@.len()
                &&& 1 <= hr.header.width
                &&& 1 <= hr.header.height
                &&& 1 <= hr.header.max_value <= 65535
                &&& hr.header.format != PixelFormat::Invalid
                &&& !spec_has_max_value(hr.header.format) ==> hr.header.max_value == 1
            },
            Err(e) => spec_parse_header(bytes@) == Err::<HeaderModel, DecodeError>(e),
        },
{
    let ghost s = bytes@;
    let mut cur = ByteCursor::new(bytes);
    let b0 = match cur.next_byte() {
        Some(b) => b,
        None => {
            return Err(DecodeError::InvalidMagicNumber);
        },
    };
    let b1 = match cur.next_byte() {
        Some(b) => b,
        None => {
            return Err(DecodeError::InvalidMagicNumber);
        },
    };
    let fmt = format_of_magic(b0, b1);
    if fmt == PixelFormat::Invalid {
        return Err(DecodeError::InvalidMagicNumber);
    }
    let mut w: u32 = 0;
    let mut h: u32 = 0;
    let mut m: u32 = 0;
    loop
        invariant
            s == bytes@,
            cur.wf(),
            cur.data() == s,
            fmt != PixelFormat::Invalid,
            m <= 65535,
            !spec_has_max_value(fmt) ==> m == 0,
            spec_parse_header(s) == spec_header_loop(
                s,
                cur.spec_pos(),
                fmt,
                w as nat,
                h as nat,
                m as nat,
            ),
        ensures
            cur.wf(),
            cur.data() == s,
            spec_header_fields_done(fmt, w as nat, h as nat, m as nat),
            m <= 65535,
            !spec_has_max_value(fmt) ==> m == 0,
            spec_parse_header(s) == spec_header_loop(
                s,
                cur.spec_pos(),
                fmt,
                w as nat,
                h as nat,
                m as nat,
            ),
        decreases s.len() - cur.spec_pos(),
    {
        let done = w != 0 && h != 0 && (m != 0 || !fmt.has_max_value());
        if done {
            break ;
        }
        let ghost p_old = cur.spec_pos();
        proof {
            cur.lemma_wf_pos();
            lemma_next_uint_advances(s, p_old);
        }
        match read_uint_token(&mut cur) {
            IntToken::EndOfInput => {
                return Err(DecodeError::TruncatedHeader);
            },
            IntToken::Malformed => {
                return Err(DecodeError::MalformedToken);
            },
            IntToken::Value(x) => {
                if w == 0 {
                    w = x;
                } else if h == 0 {
                    h = x;
                } else {
                    if x == 0 || x > 65535 {
                        return Err(DecodeError::OutOfRangeMaxValue);
                    }
                    m = x;
                }
            },
        }
    }
    let max_value: u32 = if fmt.has_max_value() {
        m
    } else {
        1
    };
    let offset = cur.position();
    proof {
        cur.lemma_wf_pos();
    }
    Ok(
        HeaderParseResult {
            pixel_data_offset: offset,
            header: Image {
                format: fmt,
                width: w,
                height: h,
                max_value,
                pixels: Vec::new(),
            },
        },
    )
}

} // verus!
