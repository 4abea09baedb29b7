//! The data model: pixel formats, pixels, decoded images and decode errors.

use vstd::prelude::*;

verus! {

/// The format of a portable pixmap family file, determined by the two-byte
/// magic number at the start of the file.  It decides both the header
/// grammar (bitmap formats carry no max-intensity token) and the pixel
/// decoding rule.
#[derive(Clone, Copy, Debug, PartialEq, Eq, Structural)]
pub enum PixelFormat {
    /// `P1`: bitmap data, ASCII encoded.
    BitmapAscii,
    /// `P2`: grayscale data, ASCII encoded.
    GraymapAscii,
    /// `P3`: RGB data, ASCII encoded.
    PixmapAscii,
    /// `P4`: bitmap data, binary encoded (packed bits).
    BitmapBinary,
    /// `P5`: grayscale data, binary encoded (one byte per sample).
    GraymapBinary,
    /// `P6`: RGB data, binary encoded (three bytes per pixel).
    PixmapBinary,
    /// The magic number matched no known format.
    Invalid,
}

/// True for the formats whose header carries a max-intensity token
/// (graymaps and pixmaps); bitmaps have an implicit maximum of 1.
pub open spec fn spec_has_max_value(fmt: PixelFormat) -> bool {
    ||| fmt == PixelFormat::GraymapAscii
    ||| fmt == PixelFormat::PixmapAscii
    ||| fmt == PixelFormat::GraymapBinary
    ||| fmt == PixelFormat::PixmapBinary
}

/// True for the formats whose pixel data is a stream of ASCII integer tokens.
pub open spec fn spec_is_ascii(fmt: PixelFormat) -> bool {
    ||| fmt == PixelFormat::BitmapAscii
    ||| fmt == PixelFormat::GraymapAscii
    ||| fmt == PixelFormat::PixmapAscii
}

/// True for the formats whose pixel data is raw bytes.
pub open spec fn spec_is_binary(fmt: PixelFormat) -> bool {
    ||| fmt == PixelFormat::BitmapBinary
    ||| fmt == PixelFormat::GraymapBinary
    ||| fmt == PixelFormat::PixmapBinary
}

impl PixelFormat {
    /// Whether this format's header carries a max-intensity token.
    pub fn has_max_value(&self) -> (r: bool)
        ensures
            r == spec_has_max_value(*self),
    {
        match self {
            PixelFormat::GraymapAscii => true,
            PixelFormat::PixmapAscii => true,
            PixelFormat::GraymapBinary => true,
            PixelFormat::PixmapBinary => true,
            _ => false,
        }
    }

    /// Whether this format's pixel data is ASCII integer tokens.
    pub fn is_ascii(&self) -> (r: bool)
        ensures
            r == spec_is_ascii(*self),
    {
        match self {
            PixelFormat::BitmapAscii => true,
            PixelFormat::GraymapAscii => true,
            PixelFormat::PixmapAscii => true,
            _ => false,
        }
    }

    /// Whether this format's pixel data is raw bytes.
    pub fn is_binary(&self) -> (r: bool)
        ensures
            r == spec_is_binary(*self),
    {
        match self {
            PixelFormat::BitmapBinary => true,
            PixelFormat::GraymapBinary => true,
            PixelFormat::PixmapBinary => true,
            _ => false,
        }
    }
}

/// One decoded pixel: three 8-bit channels, row-major order, origin
/// top-left.  The alpha channel is constant (fully opaque) for every format,
/// so it is not stored; a presenter building an RGBA buffer appends `0xff`.
#[derive(Clone, Copy, Debug, PartialEq, Eq, Structural)]
pub struct Pixel {
    /// Red channel.
    pub r: u8,
    /// Green channel.
    pub g: u8,
    /// Blue channel.
    pub b: u8,
}

impl Pixel {
    /// Builds a pixel from its three channels.
    pub fn new(r: u8, g: u8, b: u8) -> (p: Pixel)
        ensures
            p == (Pixel { r, g, b }),
    {
        Pixel { r, g, b }
    }

    /// A pixel with all three channels equal: a gray level.
    pub open spec fn spec_gray(c: u8) -> Pixel {
        Pixel { r: c, g: c, b: c }
    }
}

/// Why a decode failed.
#[derive(Clone, Copy, Debug, PartialEq, Eq, Structural)]
pub enum DecodeError {
    /// The byte source could not be opened or read.  Decoding from bytes
    /// already in memory never reports this; callers that read from a file
    /// use it when the read itself fails.
    IoError,
    /// The first two bytes match no known format (or the input is shorter
    /// than two bytes).
    InvalidMagicNumber,
    /// End of input was reached before width, height and (where required)
    /// the max-intensity value were all resolved.
    TruncatedHeader,
    /// A header or pixel token is not a valid non-negative integer.
    MalformedToken,
    /// The header's max-intensity value is outside `1 ..= 65535`.
    OutOfRangeMaxValue,
    /// End of input was reached before `width * height` pixels were produced.
    InsufficientPixelData,
}

/// The mathematical view of a decoded image.
pub ghost struct ImageModel {
    /// The file's format.
    pub format: PixelFormat,
    /// Number of pixel columns.
    pub width: nat,
    /// Number of pixel rows.
    pub height: nat,
    /// The maximum sample intensity the header declared (1, implicitly,
    /// for bitmap formats).
    pub max_value: nat,
    /// The pixels, row-major, origin top-left.
    pub pixels: Seq<Pixel>,
}

impl ImageModel {
    /// What holds of every image a successful decode yields.
    pub open spec fn wf(self) -> bool {
        &&& self.format != PixelFormat::Invalid
        &&& 1 <= self.width < 0x1_0000_0000
        &&& 1 <= self.height < 0x1_0000_0000
        &&& 1 <= self.max_value <= 65535
        &&& (!spec_has_max_value(self.format) ==> self.max_value == 1)
        &&& self.pixels.len() == self.width * self.height
    }
}

/// A fully decoded image.  It is constructed once per decode call and never
/// mutated afterwards; a partially decoded image is never handed out.
#[derive(Clone, Debug)]
pub struct Image {
    /// The file's format.
    pub format: PixelFormat,
    /// Number of pixel columns.
    pub width: u32,
    /// Number of pixel rows.
    pub height: u32,
    /// The maximum sample intensity the header declared (1 for bitmaps).
    pub max_value: u32,
    /// The pixels, row-major, origin top-left; `width * height` of them.
    pub pixels: Vec<Pixel>,
}

impl View for Image {
    type V = ImageModel;

    open spec fn view(&self) -> ImageModel {
        ImageModel {
            format: self.format,
            width: self.width as nat,
            height: self.height as nat,
            max_value: self.max_value as nat,
            pixels: self.pixels@,
        }
    }
}

/// The view of a decode result: the image replaced by its model.
pub open spec fn spec_result_view(r: Result<Image, DecodeError>) -> Result<
    ImageModel,
    DecodeError,
> {
    match r {
        Ok(img) => Ok(img@),
        Err(e) => Err(e),
    }
}

} // verus!
