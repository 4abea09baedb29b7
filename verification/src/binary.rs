//! The binary pixel decoder: turns the raw bytes that follow the header of
//! a `P4`, `P5` or `P6` file into pixels.
//!
//! A `P6` pixel is three raw bytes, unscaled.  A `P5` sample is one raw
//! byte, scaled.  A `P4` byte packs eight bitmap pixels, most significant
//! bit first, and every row is padded to a whole byte: a row whose width is
//! not a multiple of eight discards the unused low bits of its last byte.

use vstd::prelude::*;

use crate::ascii::spec_graymap_pixel;
use crate::image::{spec_is_binary, DecodeError, Pixel, PixelFormat};
use crate::scale::scale_sample;
use vstd::arithmetic::div_mod::{
    lemma_fundamental_div_mod, lemma_mod_division_less_than_divisor,
};

verus! {

/// Whether bit `n` of `byte` is set, counting from the least significant
/// bit.
pub open spec fn spec_bit_of(byte: u8, n: u8) -> bool {
    byte & (1u8 << n) != 0
}

/// Whether bit `n` of `input` is set, counting from the least significant
/// bit; asking for a bit past the top of the byte is an error.
pub fn get_bit_at(input: u8, n: u8) -> (r: Result<bool, ()>)
    ensures
        n < 8 ==> r == Ok::<bool, ()>(spec_bit_of(input, n)),
        n >= 8 ==> r == Err::<bool, ()>(()),
{
    if n < 8 {
        Ok(input & (1u8 << n) != 0)
    } else {
        Err(())
    }
}

/// The pixels of a binary pixmap stream: pixel `i` is the three raw bytes
/// at `off + 3 * i`, passed through unscaled.
pub open spec fn spec_p6_seq(s: Seq<u8>, off: nat, count: nat) -> Seq<Pixel> {
    Seq::new(
        count,
        |i: int|
            Pixel {
                r: s[off + 3 * i],
                g: s[off + 3 * i + 1],
                b: s[off + 3 * i + 2],
            },
    )
}

/// The pixels of a binary graymap stream: pixel `i` is the raw byte at
/// `off + i`, scaled and replicated into all three channels.
pub open spec fn spec_p5_seq(s: Seq<u8>, off: nat, count: nat, max: nat) -> Seq<Pixel> {
    Seq::new(count, |i: int| spec_graymap_pixel(s[off + i] as nat, max))
}

/// Pixel `i` of a binary bitmap whose rows, `w` pixels wide, each occupy
/// `(w + 7) / 8` whole bytes.  The pixel's bit is read most significant
/// first; a set bit is black, a clear bit white.
pub open spec fn spec_p4_pixel(s: Seq<u8>, off: nat, w: nat, i: int) -> Pixel {
    let bpr = (w + 7) / 8;
    let row = i / (w as int);
    let col = i % (w as int);
    let byte = s[off + row * bpr + col / 8];
    if spec_bit_of(byte, (7 - col % 8) as u8) {
        Pixel::spec_gray(0)
    } else {
        Pixel::spec_gray(255)
    }
}

/// The pixels of a binary bitmap stream, row-major.
pub open spec fn spec_p4_seq(s: Seq<u8>, off: nat, w: nat, h: nat) -> Seq<Pixel> {
    Seq::new(w * h, |i: int| spec_p4_pixel(s, off, w, i))
}

/// The pixels a binary stream yields from offset `off`, or the error it
/// runs into: fewer raw bytes than the dimensions require leave the pixel
/// data insufficient.  Bytes beyond what the dimensions require are
/// ignored.
pub open spec fn spec_binary_pixels(
    s: Seq<u8>,
    off: nat,
    fmt: PixelFormat,
    w: nat,
    h: nat,
    max: nat,
) -> Result<Seq<Pixel>, DecodeError> {
    let avail = s.len() - off;
    if fmt == PixelFormat::PixmapBinary {
        if avail < 3 * (w * h) {
            Err(DecodeError::InsufficientPixelData)
        } else {
            Ok(spec_p6_seq(s, off, w * h))
        }
    } else if fmt == PixelFormat::GraymapBinary {
        if avail < w * h {
            Err(DecodeError::InsufficientPixelData)
        } else {
            Ok(spec_p5_seq(s, off, w * h, max))
        }
    } else {
        let bpr = (w + 7) / 8;
        if avail < h * bpr {
            Err(DecodeError::InsufficientPixelData)
        } else {
            Ok(spec_p4_seq(s, off, w, h))
        }
    }
}

/// The row and byte arithmetic behind a bitmap pixel index: pixel `i` of a
/// `w`-wide, `h`-high bitmap lies in row `i / w` at column `i % w`, and its
/// byte lies strictly inside the `h * bpr` bytes of the payload.
proof fn lemma_p4_pixel_bounds(w: int, h: int, bpr: int, i: int)
    requires
        1 <= w,
        0 <= i < w * h,
        bpr == (w + 7) / 8,
    ensures
        0 <= i / w < h,
        0 <= i % w < w,
        0 <= (i % w) / 8 < bpr,
        0 <= (i / w) * bpr + (i % w) / 8 < h * bpr,
{
    lemma_fundamental_div_mod(i, w);
    lemma_mod_division_less_than_divisor(i, w);
    let row = i / w;
    let col = i % w;
    assert(0 <= row && row < h) by (nonlinear_arith)
        requires
            i == w * row + col,
            0 <= col,
            col < w,
            0 <= i,
            i < w * h,
            1 <= w,
    ;
    lemma_fundamental_div_mod(col, 8);
    lemma_mod_division_less_than_divisor(col, 8);
    lemma_fundamental_div_mod(w + 7, 8);
    lemma_mod_division_less_than_divisor(w + 7, 8);
    assert(row * bpr + bpr <= h * bpr) by (nonlinear_arith)
        requires
            0 <= row,
            row < h,
            bpr >= 0,
    ;
}

/// Two inputs that agree past `b`, shifted by `d`, yield the same binary
/// pixels — or the same error — from offsets that differ by exactly `d`.
pub proof fn lemma_shift_binary_pixels(
    s1: Seq<u8>,
    s2: Seq<u8>,
    d: nat,
    b: nat,
    off: nat,
    fmt: PixelFormat,
    w: nat,
    h: nat,
    max: nat,
)
    requires
        crate::tokenize::spec_suffixes_agree(s1, s2, d, b),
        b <= off <= s1.len(),
    ensures
        spec_binary_pixels(s2, off + d, fmt, w, h, max) == spec_binary_pixels(
            s1,
            off,
            fmt,
            w,
            h,
            max,
        ),
{
    let avail = s1.len() - off;
    assert(s2.len() - (off + d) == avail);
    if fmt == PixelFormat::PixmapBinary {
        if avail >= 3 * (w * h) {
            assert forall|i: int| 0 <= i < w * h implies #[trigger] spec_p6_seq(s2, off + d, w * h)[i]
                == spec_p6_seq(s1, off, w * h)[i] by {
                assert(s2[off + d + 3 * i] == s1[off + 3 * i]);
                assert(s2[off + d + 3 * i + 1] == s1[off + 3 * i + 1]);
                assert(s2[off + d + 3 * i + 2] == s1[off + 3 * i + 2]);
            }
            assert(spec_p6_seq(s2, off + d, w * h) =~= spec_p6_seq(s1, off, w * h));
        }
    } else if fmt == PixelFormat::GraymapBinary {
        if avail >= w * h {
            assert forall|i: int| 0 <= i < w * h implies #[trigger] spec_p5_seq(s2, off + d, w * h, max)[i]
                == spec_p5_seq(s1, off, w * h, max)[i] by {
                assert(s2[off + d + i] == s1[off + i]);
            }
            assert(spec_p5_seq(s2, off + d, w * h, max) =~= spec_p5_seq(s1, off, w * h, max));
        }
    } else {
        let bpr = (w + 7) / 8;
        if avail >= h * bpr {
            assert forall|i: int| 0 <= i < w * h implies #[trigger] spec_p4_pixel(s2, off + d, w, i)
                == spec_p4_pixel(s1, off, w, i) by {
                assert(w >= 1) by (nonlinear_arith)
                    requires
                        0 <= i,
                        i < w * h,
                ;
                lemma_p4_pixel_bounds(w as int, h as int, bpr as int, i);
                let k = (i / (w as int)) * (bpr as int) + (i % (w as int)) / 8;
                assert(s2[off + d + k] == s1[off + k]);
            }
            assert(spec_p4_seq(s2, off + d, w, h) =~= spec_p4_seq(s1, off, w, h));
        }
    }
}

/// `w * h` fits in 64 bits for 32-bit dimensions.
proof fn lemma_count_fits(w: u64, h: u64)
    requires
        w < 0x1_0000_0000,
        h < 0x1_0000_0000,
    ensures
        w * h <= 0xffff_ffff_ffff_ffff,
{
    assert(w * h <= 0xffff_fffe_0000_0001) by (nonlinear_arith)
        requires
            w <= 0xffff_ffff,
            h <= 0xffff_ffff,
    ;
}

/// Decodes the `P6` payload: three raw bytes per pixel.
#[verifier::loop_isolation(false)]
fn decode_p6(bytes: &Vec<u8>, off: usize, w: u32, h: u32) -> (r: Result<Vec<Pixel>, DecodeError>)
    requires
        off <= bytes@.len(),
    ensures
        match r {
            Ok(px) => {
                &&& bytes@.len() - off >= 3 * ((w as nat) * (h as nat))
                &&& px@ == spec_p6_seq(bytes@, off as nat, (w as nat) * (h as nat))
            },
            Err(e) => {
                &&& e == DecodeError::InsufficientPixelData
                &&& bytes@.len() - off < 3 * ((w as nat) * (h as nat))
            },
        },
{
    let ghost s = bytes@;
    let avail: usize = bytes.len() - off;
    proof {
        lemma_count_fits(w as u64, h as u64);
    }
    let count: u64 = (w as u64) * (h as u64);
    proof {
        lemma_fundamental_div_mod(avail as int, 3);
        lemma_mod_division_less_than_divisor(avail as int, 3);
    }
    if count > (avail as u64) / 3 {
        return Err(DecodeError::InsufficientPixelData);
    }
    let count_us: usize = count as usize;
    let mut pixels: Vec<Pixel> = Vec::new();
    let mut i: usize = 0;
    while i < count_us
        invariant
            s == bytes@,
            off <= s.len(),
            count == (w as u64) * (h as u64),
            count_us == count,
            3 * (count as int) <= s.len() - off,
            i <= count_us,
            pixels@.len() == i,
            forall|j: int|
                0 <= j < i ==> #[trigger] pixels@[j] == spec_p6_seq(
                    s,
                    off as nat,
                    count as nat,
                )[j],
        decreases count_us - i,
    {
        let base: usize = off + 3 * i;
        let px = Pixel::new(bytes[base], bytes[base + 1], bytes[base + 2]);
        pixels.push(px);
        i = i + 1;
    }
    proof {
        assert(pixels@ =~= spec_p6_seq(s, off as nat, count as nat));
    }
    Ok(pixels)
}

/// Decodes the `P5` payload: one raw byte per sample, scaled.
#[verifier::loop_isolation(false)]
fn decode_p5(bytes: &Vec<u8>, off: usize, w: u32, h: u32, max: u32) -> (r: Result<
    Vec<Pixel>,
    DecodeError,
>)
    requires
        off <= bytes@.len(),
        1 <= max,
    ensures
        match r {
            Ok(px) => {
                &&& bytes@.len() - off >= (w as nat) * (h as nat)
                &&& px@ == spec_p5_seq(bytes@, off as nat, (w as nat) * (h as nat), max as nat)
            },
            Err(e) => {
                &&& e == DecodeError::InsufficientPixelData
                &&& bytes@.len() - off < (w as nat) * (h as nat)
            },
        },
{
    let ghost s = bytes@;
    let avail: usize = bytes.len() - off;
    proof {
        lemma_count_fits(w as u64, h as u64);
    }
    let count: u64 = (w as u64) * (h as u64);
    if count > (avail as u64) {
        return Err(DecodeError::InsufficientPixelData);
    }
    let count_us: usize = count as usize;
    let mut pixels: Vec<Pixel> = Vec::new();
    let mut i: usize = 0;
    while i < count_us
        invariant
            s == bytes@,
            off <= s.len(),
            1 <= max,
            count == (w as u64) * (h as u64),
            count_us == count,
            count as int <= s.len() - off,
            i <= count_us,
            pixels@.len() == i,
            forall|j: int|
                0 <= j < i ==> #[trigger] pixels@[j] == spec_p5_seq(
                    s,
                    off as nat,
                    count as nat,
                    max as nat,
                )[j],
        decreases count_us - i,
    {
        let c = scale_sample(bytes[off + i] as u32, max);
        pixels.push(Pixel::new(c, c, c));
        i = i + 1;
    }
    proof {
        assert(pixels@ =~= spec_p5_seq(s, off as nat, count as nat, max as nat));
    }
    Ok(pixels)
}

/// Decodes the `P4` payload: one byte per eight bitmap pixels, most
/// significant bit first, each row padded to a whole byte.
#[verifier::loop_isolation(false)]
fn decode_p4(bytes: &Vec<u8>, off: usize, w: u32, h: u32) -> (r: Result<Vec<Pixel>, DecodeError>)
    requires
        off <= bytes@.len(),
    ensures
        match r {
            Ok(px) => {
                &&& bytes@.len() - off >= (h as nat) * (((w as nat) + 7) / 8)
                &&& px@ == spec_p4_seq(bytes@, off as nat, w as nat, h as nat)
            },
            Err(e) => {
                &&& e == DecodeError::InsufficientPixelData
                &&& bytes@.len() - off < (h as nat) * (((w as nat) + 7) / 8)
            },
        },
{
    let ghost s = bytes@;
    let avail: usize = bytes.len() - off;
    let bpr: u64 = ((w as u64) + 7) / 8;
    proof {
        lemma_count_fits(w as u64, h as u64);
        lemma_fundamental_div_mod((w as int) + 7, 8);
        lemma_mod_division_less_than_divisor((w as int) + 7, 8);
        assert(bpr <= 0x2000_0000u64);
        assert((h as u64) * bpr <= 0x2000_0000_0000_0000) by (nonlinear_arith)
            requires
                h < 0x1_0000_0000u64,
                bpr <= 0x2000_0000u64,
        ;
    }
    let need: u64 = (h as u64) * bpr;
    if need > (avail as u64) {
        return Err(DecodeError::InsufficientPixelData);
    }
    let count: u64 = (w as u64) * (h as u64);
    let mut pixels: Vec<Pixel> = Vec::new();
    let mut i: u64 = 0;
    while i < count
        invariant
            s == bytes@,
            off <= s.len(),
            count == (w as u64) * (h as u64),
            bpr == ((w as u64) + 7) / 8,
            need == (h as u64) * bpr,
            need as int <= s.len() - off,
            i <= count,
            pixels@.len() == i,
            forall|j: int|
                0 <= j < i ==> #[trigger] pixels@[j] == spec_p4_seq(
                    s,
                    off as nat,
                    w as nat,
                    h as nat,
                )[j],
        decreases count - i,
    {
        proof {
            assert((w as u64) != 0) by (nonlinear_arith)
                requires
                    count == (w as u64) * (h as u64),
                    count > 0,
            ;
        }
        let row: u64 = i / (w as u64);
        let col: u64 = i % (w as u64);
        proof {
            lemma_p4_pixel_bounds(w as int, h as int, bpr as int, i as int);
        }
        let byte_idx: u64 = (off as u64) + row * bpr + col / 8;
        let byte: u8 = bytes[byte_idx as usize];
        let bit_idx: u8 = (7 - (col % 8)) as u8;
        let black: bool = match get_bit_at(byte, bit_idx) {
            Ok(b) => b,
            Err(_) => vstd::pervasive::unreached(),
        };
        let px = if black {
            Pixel::new(0, 0, 0)
        } else {
            Pixel::new(255, 255, 255)
        };
        pixels.push(px);
        i = i + 1;
    }
    proof {
        assert(pixels@ =~= spec_p4_seq(s, off as nat, w as nat, h as nat));
    }
    Ok(pixels)
}

/// Decodes the binary pixel payload that starts at `off`, exactly as
/// [`spec_binary_pixels`] describes.
pub fn decode_binary_pixels(
    bytes: &Vec<u8>,
    off: usize,
    fmt: PixelFormat,
    w: u32,
    h: u32,
    max: u32,
) -> (r: Result<Vec<Pixel>, DecodeError>)
    requires
        off <= bytes@.len(),
        spec_is_binary(fmt),
        1 <= max,
    ensures
        match r {
            Ok(px) => spec_binary_pixels(bytes@, off as nat, fmt, w as nat, h as nat, max as nat)
                == Ok::<Seq<Pixel>, DecodeError>(px@),
            Err(e) => spec_binary_pixels(bytes@, off as nat, fmt, w as nat, h as nat, max as nat)
                == Err::<Seq<Pixel>, DecodeError>(e),
        },
{
    match fmt {
        PixelFormat::PixmapBinary => decode_p6(bytes, off, w, h),
        PixelFormat::GraymapBinary => decode_p5(bytes, off, w, h, max),
        _ => decode_p4(bytes, off, w, h),
    }
}

} // verus!
