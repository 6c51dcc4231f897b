//! The bitmap container: the fixed header, the bytes in front of the pixel
//! data, and the pixel data itself.

use crate::error::ImageError;
use vstd::prelude::*;
use vstd::slice::{slice_subrange, slice_to_vec};
use vstd::std_specs::convert::TryFromSpecImpl;

verus! {

/// The length of the fixed part of a bitmap file: 14 bytes of file header and
/// 40 bytes of information header.
pub const HEADER_LEN: usize = 54;

/// The 16-bit little-endian number at `at`.
pub open spec fn le_u16(bytes: Seq<u8>, at: int) -> u16 {
    (bytes[at] + 256 * bytes[at + 1]) as u16
}

/// The 32-bit little-endian number at `at`.
pub open spec fn le_u32(bytes: Seq<u8>, at: int) -> u32 {
    (bytes[at] + 256 * bytes[at + 1] + 65536 * bytes[at + 2] + 16777216 * bytes[at + 3]) as u32
}

/// The 32-bit little-endian number at `at`, read as two's complement.
pub open spec fn le_i32(bytes: Seq<u8>, at: int) -> i32 {
    if le_u32(bytes, at) < 0x8000_0000 {
        le_u32(bytes, at) as i32
    } else {
        (le_u32(bytes, at) - 0x1_0000_0000) as i32
    }
}

/// The four bytes of `value`, least significant first.
pub open spec fn le_bytes_u32(value: u32) -> Seq<u8> {
    seq![
        (value % 256) as u8,
        (value / 256 % 256) as u8,
        (value / 65536 % 256) as u8,
        (value / 16777216) as u8,
    ]
}

/// The filler bytes that end each pixel row so that its length is a multiple
/// of four.
pub open spec fn row_padding(width: u32, bits_per_pixel: u16) -> nat {
    ((4 - (width * (bits_per_pixel / 8)) % 4) % 4) as nat
}

/// The fields of the fixed header, each as the file states it.
pub struct HeaderView {
    pub file_type: Seq<u8>,
    pub file_size: u32,
    pub reserved: Seq<u8>,
    pub data_offset: u32,
    pub header_size: u32,
    pub width: u32,
    pub height: u32,
    pub planes: u16,
    pub bits_per_pixel: u16,
    pub compression: u32,
    pub image_size: u32,
    pub x_pixels_per_meter: i32,
    pub y_pixels_per_meter: i32,
    pub colors_used: u32,
    pub colors_important: u32,
}

/// The header that the first 54 bytes of a file spell out: every field at
/// its fixed offset, little-endian.
pub open spec fn parse_header(bytes: Seq<u8>) -> HeaderView {
    HeaderView {
        file_type: bytes.subrange(0, 2),
        file_size: le_u32(bytes, 2),
        reserved: bytes.subrange(6, 10),
        data_offset: le_u32(bytes, 10),
        header_size: le_u32(bytes, 14),
        width: le_u32(bytes, 18),
        height: le_u32(bytes, 22),
        planes: le_u16(bytes, 26),
        bits_per_pixel: le_u16(bytes, 28),
        compression: le_u32(bytes, 30),
        image_size: le_u32(bytes, 34),
        x_pixels_per_meter: le_i32(bytes, 38),
        y_pixels_per_meter: le_i32(bytes, 42),
        colors_used: le_u32(bytes, 46),
        colors_important: le_u32(bytes, 50),
    }
}

/// Reads the 16-bit little-endian number at `at`.
pub fn read_u16_le(bytes: &[u8], at: usize) -> (value: u16)
    requires
        at + 2 <= bytes.len(),
    ensures
        value == le_u16(bytes@, at as int),
{
    bytes[at] as u16 + 256 * (bytes[at + 1] as u16)
}

/// Reads the 32-bit little-endian number at `at`.
pub fn read_u32_le(bytes: &[u8], at: usize) -> (value: u32)
    requires
        at + 4 <= bytes.len(),
    ensures
        value == le_u32(bytes@, at as int),
{
    bytes[at] as u32 + 256 * (bytes[at + 1] as u32) + 65536 * (bytes[at + 2] as u32)
        + 16777216 * (bytes[at + 3] as u32)
}

/// Reads the 32-bit little-endian two's complement number at `at`.
pub fn read_i32_le(bytes: &[u8], at: usize) -> (value: i32)
    requires
        at + 4 <= bytes.len(),
    ensures
        value == le_i32(bytes@, at as int),
{
    let raw: u32 = read_u32_le(bytes, at);
    if raw < 0x8000_0000 {
        raw as i32
    } else {
        let low: u32 = raw - 0x8000_0000;
        low as i32 - 0x4000_0000 - 0x4000_0000
    }
}

/// The four bytes of `value`, least significant first.
pub fn write_u32_le(value: u32) -> (bytes: Vec<u8>)
    ensures
        bytes@ == le_bytes_u32(value),
{
    let bytes: Vec<u8> = vec![
        (value % 256) as u8,
        (value / 256 % 256) as u8,
        (value / 65536 % 256) as u8,
        (value / 16777216) as u8,
    ];
    assert(bytes@ =~= le_bytes_u32(value));
    bytes
}

/// Four little-endian bytes read back give the number they were made from.
pub proof fn lemma_le_u32_of_bytes(value: u32)
    ensures
        le_bytes_u32(value).len() == 4,
        le_u32(le_bytes_u32(value), 0) == value,
{
}

/// Computes the row padding of an image.
pub fn compute_row_padding(width: u32, bits_per_pixel: u16) -> (padding: u32)
    ensures
        padding == row_padding(width, bits_per_pixel),
        padding <= 3,
{
    let pixel: u64 = (bits_per_pixel / 8) as u64;
    assert(width * pixel <= 0xffff_ffff * 0x1fff) by (nonlinear_arith)
        requires
            width <= 0xffff_ffff,
            pixel <= 0x1fff,
    ;
    let row: u64 = width as u64 * pixel;
    ((4 - row % 4) % 4) as u32
}

#[derive(Debug)]
struct FileHeader {
    file_type: [u8; 2],
    file_size: u32,
    reserved: [u8; 4],
    data_offset: u32,
}

#[derive(Debug)]
struct BMPInformation {
    header_size: u32,
    width: u32,
    height: u32,
    planes: u16,
    bits_per_pixel: u16,
    compression: u32,
    image_size: u32,
    x_pixels_per_meter: i32,
    y_pixels_per_meter: i32,
    colors_used: u32,
    colors_important: u32,
}

/// The fixed header of a bitmap file.
#[derive(Debug)]
pub struct BmpHeader {
    file_header: FileHeader,
    information: BMPInformation,
}

impl View for BmpHeader {
    type V = HeaderView;

    closed spec fn view(&self) -> HeaderView {
        HeaderView {
            file_type: self.file_header.file_type@,
            file_size: self.file_header.file_size,
            reserved: self.file_header.reserved@,
            data_offset: self.file_header.data_offset,
            header_size: self.information.header_size,
            width: self.information.width,
            height: self.information.height,
            planes: self.information.planes,
            bits_per_pixel: self.information.bits_per_pixel,
            compression: self.information.compression,
            image_size: self.information.image_size,
            x_pixels_per_meter: self.information.x_pixels_per_meter,
            y_pixels_per_meter: self.information.y_pixels_per_meter,
            colors_used: self.information.colors_used,
            colors_important: self.information.colors_important,
        }
    }
}

impl BmpHeader {
    /// Reads the header from the first 54 bytes of a file.
    pub fn parse(bytes: &[u8]) -> (header: BmpHeader)
        requires
            bytes.len() >= HEADER_LEN,
        ensures
            header@ == parse_header(bytes@),
    {
        let file_header = FileHeader {
            file_type: [bytes[0], bytes[1]],
            file_size: read_u32_le(bytes, 2),
            reserved: [bytes[6], bytes[7], bytes[8], bytes[9]],
            data_offset: read_u32_le(bytes, 10),
        };
        let information = BMPInformation {
            header_size: read_u32_le(bytes, 14),
            width: read_u32_le(bytes, 18),
            height: read_u32_le(bytes, 22),
            planes: read_u16_le(bytes, 26),
            bits_per_pixel: read_u16_le(bytes, 28),
            compression: read_u32_le(bytes, 30),
            image_size: read_u32_le(bytes, 34),
            x_pixels_per_meter: read_i32_le(bytes, 38),
            y_pixels_per_meter: read_i32_le(bytes, 42),
            colors_used: read_u32_le(bytes, 46),
            colors_important: read_u32_le(bytes, 50),
        };
        let header = BmpHeader { file_header, information };
        assert(header@.file_type =~= bytes@.subrange(0, 2));
        assert(header@.reserved =~= bytes@.subrange(6, 10));
        header
    }

    /// The offset in the file at which the pixel data begins.
    pub fn data_offset(&self) -> (offset: u32)
        ensures
            offset == self@.data_offset,
    {
        self.file_header.data_offset
    }

    /// The image width in pixels.
    pub fn width(&self) -> (width: u32)
        ensures
            width == self@.width,
    {
        self.information.width
    }

    /// The image height in pixels.
    pub fn height(&self) -> (height: u32)
        ensures
            height == self@.height,
    {
        self.information.height
    }

    /// The number of bits that one pixel takes.
    pub fn bits_per_pixel(&self) -> (bits: u16)
        ensures
            bits == self@.bits_per_pixel,
    {
        self.information.bits_per_pixel
    }
}

/// What is derived from the header rather than read from it.
#[derive(Debug)]
pub struct ExtraInfo {
    padding: u32,
}

impl ExtraInfo {
    /// The number of filler bytes at the end of each pixel row.
    pub closed spec fn spec_padding(&self) -> u32 {
        self.padding
    }

    /// The number of filler bytes at the end of each pixel row.
    #[verifier::when_used_as_spec(spec_padding)]
    pub fn padding(&self) -> (padding: u32)
        ensures
            padding == self.spec_padding(),
    {
        self.padding
    }
}

/// A bitmap held in memory: its header, the file's bytes in front of the
/// pixel data, and the pixel data up to the end of the file.
pub struct BmpImage {
    pub header: BmpHeader,
    pub raw_header: Vec<u8>,
    pub raw_body: Vec<u8>,
    pub extra_info: ExtraInfo,
}

/// A bitmap as the contracts see it.
pub struct ImageView {
    /// The fixed header.
    pub header: HeaderView,
    /// The bytes of the file in front of the pixel data.
    pub leading: Seq<u8>,
    /// The pixel data, row padding included, up to the end of the file.
    pub pixels: Seq<u8>,
    /// The number of filler bytes at the end of each pixel row.
    pub padding: nat,
}

impl ImageView {
    /// The row padding is the one that the width and the pixel size call for.
    pub open spec fn wf(self) -> bool {
        self.padding == row_padding(self.header.width, self.header.bits_per_pixel)
    }

    /// The number of bytes that one pixel takes.
    pub open spec fn bytes_per_pixel(self) -> nat {
        (self.header.bits_per_pixel / 8) as nat
    }

    /// The length of one pixel row in the buffer, padding included.
    pub open spec fn stride(self) -> nat {
        (self.header.width * self.bytes_per_pixel() + self.padding) as nat
    }

    /// Whether the pixel buffer holds every row of the image.
    pub open spec fn complete(self) -> bool {
        self.pixels.len() >= self.stride() * self.header.height
    }

    /// Whether pixel byte `i` is a filler byte at the end of a row.
    pub open spec fn in_row_padding(self, i: int) -> bool {
        &&& 0 <= i < self.stride() * self.header.height
        &&& i < self.pixels.len()
        &&& i % (self.stride() as int) >= self.header.width * self.bytes_per_pixel()
    }
}

impl View for BmpImage {
    type V = ImageView;

    open spec fn view(&self) -> ImageView {
        ImageView {
            header: self.header@,
            leading: self.raw_header@,
            pixels: self.raw_body@,
            padding: self.extra_info.padding() as nat,
        }
    }
}

/// Why a file shorter than the fixed header is not read.
pub open spec fn reason_truncated() -> Seq<char> {
    "input shorter than the bitmap header"@
}

/// Whether a file can be taken apart: it holds the fixed header, and the
/// pixel data begins inside the file or at its end.
pub open spec fn readable(bytes: Seq<u8>) -> bool {
    bytes.len() >= HEADER_LEN && le_u32(bytes, 10) <= bytes.len()
}

/// An image owns vectors, and no value of the specification language names
/// one: what `try_from` returns is said by its own contract, in terms of the
/// image's view.
impl TryFromSpecImpl<Vec<u8>> for BmpImage {
    open spec fn obeys_try_from_spec() -> bool {
        false
    }

    open spec fn try_from_spec(value: Vec<u8>) -> Result<Self, Self::Error> {
        Err(ImageError::InvalidFormat)
    }
}

impl TryFrom<Vec<u8>> for BmpImage {
    type Error = ImageError;

    /// Takes a file apart into header, leading bytes and pixel data.
    fn try_from(value: Vec<u8>) -> (r: Result<Self, Self::Error>)
        ensures
            match r {
                Ok(img) => {
                    &&& readable(value@)
                    &&& img@.header == parse_header(value@)
                    &&& img@.leading == value@.subrange(0, le_u32(value@, 10) as int)
                    &&& img@.pixels == value@.subrange(
                        le_u32(value@, 10) as int,
                        value@.len() as int,
                    )
                    &&& img@.wf()
                },
                Err(ImageError::ParseError(reason)) => value@.len() < HEADER_LEN && reason@
                    == reason_truncated(),
                Err(ImageError::InvalidFormat) => value@.len() >= HEADER_LEN && le_u32(value@, 10)
                    > value@.len(),
                Err(ImageError::IoError(_)) => false,
            },
    {
        if value.len() < HEADER_LEN {
            return Err(ImageError::ParseError("input shorter than the bitmap header".to_string()));
        }
        let bytes = value.as_slice();
        let header = BmpHeader::parse(bytes);
        let offset: u32 = header.data_offset();
        if offset as u64 > bytes.len() as u64 {
            return Err(ImageError::InvalidFormat);
        }
        let raw_header = slice_to_vec(slice_subrange(bytes, 0, offset as usize));
        let raw_body = slice_to_vec(slice_subrange(bytes, offset as usize, bytes.len()));
        let extra_info = ExtraInfo {
            padding: compute_row_padding(header.width(), header.bits_per_pixel()),
        };
        Ok(BmpImage { header, raw_header, raw_body, extra_info })
    }
}

} // verus!
