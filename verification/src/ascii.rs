//! The ASCII pixel decoder: turns the whitespace/comment-delimited integer
//! tokens that follow the header of a `P1`, `P2` or `P3` file into pixels.

use vstd::prelude::*;

use crate::cursor::ByteCursor;
use crate::image::{spec_is_ascii, DecodeError, Pixel, PixelFormat};
use crate::scale::{scale_sample, spec_scale};
use crate::tokenize::{
    lemma_next_uint_advances, read_uint_token, spec_next_uint, IntToken, SpecIntToken,
};

verus! {

/// The pixel for a bitmap sample: 0 is white, any nonzero value black.
pub open spec fn spec_bitmap_pixel(v: nat) -> Pixel {
    if v == 0 {
        Pixel::spec_gray(255)
    } else {
        Pixel::spec_gray(0)
    }
}

/// The pixel for a graymap sample: the scaled value in all three channels.
pub open spec fn spec_graymap_pixel(v: nat, max: nat) -> Pixel {
    Pixel::spec_gray(spec_scale(v, max))
}

/// The pixel for a pixmap sample triple.  Channels pass through unscaled —
/// the max-intensity value plays no part for pixmaps — and are stored in
/// eight bits, so a sample above 255 keeps only its low byte.
pub open spec fn spec_pixmap_pixel(r: nat, g: nat, b: nat) -> Pixel {
    Pixel { r: (r % 256) as u8, g: (g % 256) as u8, b: (b % 256) as u8 }
}

/// The `count` pixels an ASCII pixel stream yields from position `p`, or
/// the error it runs into: a non-integer token is malformed, and running
/// out of tokens first leaves the pixel data insufficient.  A pixmap pixel
/// takes three consecutive tokens; a bitmap or graymap pixel takes one.
pub open spec fn spec_ascii_pixels(
    s: Seq<u8>,
    p: nat,
    fmt: PixelFormat,
    max: nat,
    count: nat,
) -> Result<Seq<Pixel>, DecodeError>
    decreases count,
{
    if count == 0 {
        Ok(Seq::empty())
    } else {
        match spec_next_uint(s, p) {
            SpecIntToken::EndOfInput => Err(DecodeError::InsufficientPixelData),
            SpecIntToken::Malformed => Err(DecodeError::MalformedToken),
            SpecIntToken::Value { v, next } => {
                if fmt == PixelFormat::PixmapAscii {
                    match spec_next_uint(s, next) {
                        SpecIntToken::EndOfInput => Err(DecodeError::InsufficientPixelData),
                        SpecIntToken::Malformed => Err(DecodeError::MalformedToken),
                        SpecIntToken::Value { v: g, next: n2 } => {
                            match spec_next_uint(s, n2) {
                                SpecIntToken::EndOfInput => Err(
                                    DecodeError::InsufficientPixelData,
                                ),
                                SpecIntToken::Malformed => Err(DecodeError::MalformedToken),
                                SpecIntToken::Value { v: b, next: n3 } => {
                                    match spec_ascii_pixels(s, n3, fmt, max, (count - 1) as nat) {
                                        Ok(rest) => Ok(seq![spec_pixmap_pixel(v, g, b)] + rest),
                                        Err(e) => Err(e),
                                    }
                                },
                            }
                        },
                    }
                } else {
                    let px = if fmt == PixelFormat::BitmapAscii {
                        spec_bitmap_pixel(v)
                    } else {
                        spec_graymap_pixel(v, max)
                    };
                    match spec_ascii_pixels(s, next, fmt, max, (count - 1) as nat) {
                        Ok(rest) => Ok(seq![px] + rest),
                        Err(e) => Err(e),
                    }
                }
            },
        }
    }
}

/// A successful ASCII decode yields exactly the pixel count asked for.
pub proof fn lemma_ascii_pixels_len(s: Seq<u8>, p: nat, fmt: PixelFormat, max: nat, count: nat)
    ensures
        spec_ascii_pixels(s, p, fmt, max, count) matches Ok(px) ==> px.len() == count,
    decreases count,
{
    if count > 0 {
        match spec_next_uint(s, p) {
            SpecIntToken::Value { v, next } => {
                if fmt == PixelFormat::PixmapAscii {
                    match spec_next_uint(s, next) {
                        SpecIntToken::Value { v: g, next: n2 } => {
                            match spec_next_uint(s, n2) {
                                SpecIntToken::Value { v: b, next: n3 } => {
                                    lemma_ascii_pixels_len(s, n3, fmt, max, (count - 1) as nat);
                                },
                                _ => {},
                            }
                        },
                        _ => {},
                    }
                } else {
                    lemma_ascii_pixels_len(s, next, fmt, max, (count - 1) as nat);
                }
            },
            _ => {},
        }
    }
}

/// Two inputs that agree past `b`, shifted by `d`, yield the same ASCII
/// pixels — or the same error — from positions whose separator skipping
/// lands on agreeing token starts.
pub proof fn lemma_shift_ascii_pixels(
    s1: Seq<u8>,
    s2: Seq<u8>,
    d: nat,
    b: nat,
    p1: nat,
    p2: nat,
    fmt: PixelFormat,
    max: nat,
    count: nat,
)
    requires
        crate::tokenize::spec_suffixes_agree(s1, s2, d, b),
        p1 <= s1.len(),
        p2 <= s2.len(),
        crate::tokenize::spec_skip_separators(s2, p2) == crate::tokenize::spec_skip_separators(
            s1,
            p1,
        ) + d,
        b <= crate::tokenize::spec_skip_separators(s1, p1),
    ensures
        spec_ascii_pixels(s2, p2, fmt, max, count) == spec_ascii_pixels(s1, p1, fmt, max, count),
    decreases count,
{
    if count > 0 {
        crate::tokenize::lemma_shift_next_uint(s1, s2, d, b, p1, p2);
        lemma_next_uint_advances(s1, p1);
        match spec_next_uint(s1, p1) {
            SpecIntToken::Value { v, next } => {
                crate::tokenize::lemma_skip_separators_bounds(s1, next);
                crate::tokenize::lemma_shift_skip_separators(s1, s2, d, b, next);
                if fmt == PixelFormat::PixmapAscii {
                    crate::tokenize::lemma_shift_next_uint(s1, s2, d, b, next, next + d);
                    lemma_next_uint_advances(s1, next);
                    match spec_next_uint(s1, next) {
                        SpecIntToken::Value { v: g, next: n2 } => {
                            crate::tokenize::lemma_skip_separators_bounds(s1, n2);
                            crate::tokenize::lemma_shift_skip_separators(s1, s2, d, b, n2);
                            crate::tokenize::lemma_shift_next_uint(s1, s2, d, b, n2, n2 + d);
                            lemma_next_uint_advances(s1, n2);
                            match spec_next_uint(s1, n2) {
                                SpecIntToken::Value { v: bl, next: n3 } => {
                                    crate::tokenize::lemma_skip_separators_bounds(s1, n3);
                                    crate::tokenize::lemma_shift_skip_separators(s1, s2, d, b, n3);
                                    lemma_shift_ascii_pixels(
                                        s1,
                                        s2,
                                        d,
                                        b,
                                        n3,
                                        n3 + d,
                                        fmt,
                                        max,
                                        (count - 1) as nat,
                                    );
                                },
                                _ => {},
                            }
                        },
                        _ => {},
                    }
                } else {
                    lemma_shift_ascii_pixels(s1, s2, d, b, next, next + d, fmt, max, (count
                        - 1) as nat);
                }
            },
            _ => {},
        }
    }
}

/// Reads one sample token, mapping the end of the input to insufficient
/// pixel data and a non-integer token to a malformed one.
fn read_sample(cur: &mut ByteCursor<'_>) -> (r: Result<u32, DecodeError>)
    requires
        old(cur).wf(),
    ensures
        final(cur).wf(),
        final(cur).data() == old(cur).data(),
        match spec_next_uint(old(cur).data(), old(cur).spec_pos()) {
            SpecIntToken::Value { v, next } => {
                &&& r == Ok::<u32, DecodeError>(v as u32)
                &&& final(cur).spec_pos() == next
                &&& old(cur).spec_pos() < next <= old(cur).data().len()
            },
            SpecIntToken::Malformed => r == Err::<u32, DecodeError>(DecodeError::MalformedToken),
            SpecIntToken::EndOfInput => r == Err::<u32, DecodeError>(
                DecodeError::InsufficientPixelData,
            ),
        },
{
    proof {
        cur.lemma_wf_pos();
        lemma_next_uint_advances(old(cur).data(), old(cur).spec_pos());
    }
    match read_uint_token(cur) {
        IntToken::Value(x) => Ok(x),
        IntToken::Malformed => Err(DecodeError::MalformedToken),
        IntToken::EndOfInput => Err(DecodeError::InsufficientPixelData),
    }
}

/// Decodes `count` pixels from the ASCII token stream that starts at
/// `start`, exactly as [`spec_ascii_pixels`] describes.
pub fn decode_ascii_pixels(
    bytes: &Vec<u8>,
    start: usize,
    fmt: PixelFormat,
    max: u32,
    count: u64,
) -> (r: Result<Vec<Pixel>, DecodeError>)
    requires
        start <= bytes@.len(),
        spec_is_ascii(fmt),
        1 <= max,
    ensures
        match r {
            Ok(px) => spec_ascii_pixels(bytes@, start as nat, fmt, max as nat, count as nat) == Ok::<
                Seq<Pixel>,
                DecodeError,
            >(px@),
            Err(e) => spec_ascii_pixels(bytes@, start as nat, fmt, max as nat, count as nat)
                == Err::<Seq<Pixel>, DecodeError>(e),
        },
{
    let ghost s = bytes@;
    let mut cur = ByteCursor::new(bytes);
    cur.seek(start);
    let mut pixels: Vec<Pixel> = Vec::new();
    let mut remaining: u64 = count;
    loop
        invariant
            s == bytes@,
            cur.wf(),
            cur.data() == s,
            spec_is_ascii(fmt),
            1 <= max,
            remaining <= count,
            spec_ascii_pixels(s, start as nat, fmt, max as nat, count as nat) == (
            match spec_ascii_pixels(s, cur.spec_pos(), fmt, max as nat, remaining as nat) {
                Ok(rest) => Ok::<Seq<Pixel>, DecodeError>(pixels@ + rest),
                Err(e) => Err::<Seq<Pixel>, DecodeError>(e),
            }),
        ensures
            remaining == 0,
            spec_ascii_pixels(s, start as nat, fmt, max as nat, count as nat) == Ok::<
                Seq<Pixel>,
                DecodeError,
            >(pixels@),
        decreases remaining,
    {
        if remaining == 0 {
            proof {
                assert(spec_ascii_pixels(s, cur.spec_pos(), fmt, max as nat, 0) == Ok::<
                    Seq<Pixel>,
                    DecodeError,
                >(Seq::<Pixel>::empty()));
                assert(pixels@ + Seq::<Pixel>::empty() =~= pixels@);
            }
            break ;
        }
        let ghost p_old = cur.spec_pos();
        let ghost rem_old = remaining as nat;
        let v = match read_sample(&mut cur) {
            Ok(v) => v,
            Err(e) => {
                return Err(e);
            },
        };
        let px: Pixel = match fmt {
            PixelFormat::PixmapAscii => {
                let g = match read_sample(&mut cur) {
                    Ok(v) => v,
                    Err(e) => {
                        return Err(e);
                    },
                };
                let b = match read_sample(&mut cur) {
                    Ok(v) => v,
                    Err(e) => {
                        return Err(e);
                    },
                };
                Pixel::new((v % 256) as u8, (g % 256) as u8, (b % 256) as u8)
            },
            PixelFormat::BitmapAscii => {
                if v == 0 {
                    Pixel::new(255, 255, 255)
                } else {
                    Pixel::new(0, 0, 0)
                }
            },
            _ => {
                let c = scale_sample(v, max);
                Pixel::new(c, c, c)
            },
        };
        let ghost pixels_old = pixels@;
        pixels.push(px);
        remaining = remaining - 1;
        proof {
            match spec_ascii_pixels(s, cur.spec_pos(), fmt, max as nat, remaining as nat) {
                Ok(rest) => {
                    assert(pixels_old + (seq![px] + rest) =~= pixels@ + rest);
                },
                Err(_) => {},
            }
        }
    }
    Ok(pixels)
}

} // verus!
