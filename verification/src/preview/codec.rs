//! The calls into `png`, `zune-jpeg` and `image` that read image files.
//!
//! What comes of a PNG or JPEG file depends on the bytes alone and has a name here. What
//! `image` makes of other formats has none: decoders for them can be registered with it
//! while the program runs.
use vstd::prelude::*;
use byteorder::ByteOrder;
use image::error::{
    DecodingError, ImageFormatHint, LimitError, LimitErrorKind, ParameterError, ParameterErrorKind,
    UnsupportedError, UnsupportedErrorKind,
};
use image::{DynamicImage, ImageDecoder, ImageError};
use std::io::Cursor;
use crate::preview::jpeg::{hide_identifier, shown};
use crate::preview::sampling::decodable;
use zune_core::bytestream::{ZByteIoError, ZByteReaderTrait, ZCursor, ZSeekFrom};
use zune_core::colorspace::ColorSpace;
use zune_core::options::DecoderOptions;
use zune_jpeg::JpegDecoder;

verus! {

/// A format that an image file can have.
#[derive(Debug, Clone, Copy, PartialEq, Eq, Structural)]
pub enum ImageKind {
    Png,
    Jpeg,
    Other,
}

/// A pixel format. Samples of more than one byte are big-endian.
#[derive(Debug, Clone, Copy, PartialEq, Eq, Structural)]
pub enum PixelFormat {
    L8,
    La8,
    Rgb8,
    Rgba8,
    L16,
    La16,
    Rgb16,
    Rgba16,
    Rgb32F,
    Rgba32F,
}

impl PixelFormat {
    /// The bytes of a pixel.
    pub open spec fn size(self) -> nat {
        match self {
            PixelFormat::L8 => 1,
            PixelFormat::La8 => 2,
            PixelFormat::Rgb8 => 3,
            PixelFormat::Rgba8 => 4,
            PixelFormat::L16 => 2,
            PixelFormat::La16 => 4,
            PixelFormat::Rgb16 => 6,
            PixelFormat::Rgba16 => 8,
            PixelFormat::Rgb32F => 12,
            PixelFormat::Rgba32F => 16,
        }
    }

    /// The bytes of a sample.
    pub open spec fn sample_size(self) -> nat {
        match self {
            PixelFormat::L8 | PixelFormat::La8 | PixelFormat::Rgb8 | PixelFormat::Rgba8 => 1,
            PixelFormat::L16 | PixelFormat::La16 | PixelFormat::Rgb16 | PixelFormat::Rgba16 => 2,
            PixelFormat::Rgb32F | PixelFormat::Rgba32F => 4,
        }
    }

    /// Does a pixel have an alpha sample?
    pub open spec fn alpha(self) -> bool {
        match self {
            PixelFormat::La8 | PixelFormat::Rgba8 | PixelFormat::La16 | PixelFormat::Rgba16
            | PixelFormat::Rgba32F => true,
            _ => false,
        }
    }

    /// The bytes of a pixel.
    pub fn bytes_per_pixel(self) -> (r: usize)
        ensures
            r == self.size(),
            1 <= r <= 16,
    {
        match self {
            PixelFormat::L8 => 1,
            PixelFormat::La8 => 2,
            PixelFormat::Rgb8 => 3,
            PixelFormat::Rgba8 => 4,
            PixelFormat::L16 => 2,
            PixelFormat::La16 => 4,
            PixelFormat::Rgb16 => 6,
            PixelFormat::Rgba16 => 8,
            PixelFormat::Rgb32F => 12,
            PixelFormat::Rgba32F => 16,
        }
    }

    /// The bytes of a sample.
    pub fn bytes_per_sample(self) -> (r: usize)
        ensures
            r == self.sample_size(),
    {
        match self {
            PixelFormat::L8 | PixelFormat::La8 | PixelFormat::Rgb8 | PixelFormat::Rgba8 => 1,
            PixelFormat::L16 | PixelFormat::La16 | PixelFormat::Rgb16 | PixelFormat::Rgba16 => 2,
            PixelFormat::Rgb32F | PixelFormat::Rgba32F => 4,
        }
    }

    /// Does a pixel have an alpha sample?
    pub fn has_alpha(self) -> (r: bool)
        ensures
            r == self.alpha(),
    {
        match self {
            PixelFormat::La8 | PixelFormat::Rgba8 | PixelFormat::La16 | PixelFormat::Rgba16
            | PixelFormat::Rgba32F => true,
            _ => false,
        }
    }
}

/// The format that the first bytes of a file stand for.
pub uninterp spec fn image_kind(bytes: Seq<u8>) -> Option<ImageKind>;

/// `image::guess_format`: the format depends on the bytes alone; nothing where they stand
/// for none.
#[verifier::external_body]
pub(crate) fn guess_kind(bytes: &[u8]) -> (r: Option<ImageKind>)
    ensures
        r == image_kind(bytes@),
{
    match image::guess_format(bytes) {
        Ok(image::ImageFormat::Png) => Some(ImageKind::Png),
        Ok(image::ImageFormat::Jpeg) => Some(ImageKind::Jpeg),
        Ok(_) => Some(ImageKind::Other),
        Err(_) => None,
    }
}

/// An error of the `png` crate.
#[verifier::external_type_specification]
#[verifier::external_body]
pub struct ExPngError(png::DecodingError);

/// The words in which `image` reports an error of `png`.
pub uninterp spec fn png_error_words(e: png::DecodingError) -> Seq<char>;

/// The display of the `image::ImageError` that `image` makes of an error of `png`, which
/// depends on the error alone.
#[verifier::external_body]
pub(crate) fn png_error_text(e: png::DecodingError) -> (r: String)
    ensures
        r@ == png_error_words(e),
{
    let error = match e {
        png::DecodingError::IoError(e) => ImageError::IoError(e),
        png::DecodingError::Format(_) => ImageError::Decoding(
            DecodingError::new(image::ImageFormat::Png.into(), e),
        ),
        png::DecodingError::Parameter(_) => ImageError::Parameter(
            ParameterError::from_kind(ParameterErrorKind::Generic(e.to_string())),
        ),
        png::DecodingError::LimitsExceeded => ImageError::Limits(
            LimitError::from_kind(LimitErrorKind::InsufficientMemory),
        ),
    };
    error.to_string()
}

/// What the header of a PNG file says.
#[derive(Debug, Clone, Copy, PartialEq, Eq, Structural)]
pub struct PngHeader {
    pub width: u32,
    pub height: u32,
    /// The bytes of a pixel as the file holds it, at least 1.
    pub bytes_per_pixel: usize,
}

/// What the header of a PNG file says, or the words of an error.
pub uninterp spec fn png_header_of(bytes: Seq<u8>, limit: nat) -> Result<PngHeader, Seq<char>>;

/// `png::Decoder::read_header_info` on a decoder with this memory limit: the header
/// depends on the bytes and the limit alone.
#[verifier::external_body]
pub(crate) fn read_png_header(bytes: &[u8], limit: usize) -> (r: Result<
    PngHeader,
    png::DecodingError,
>)
    ensures
        match r {
            Ok(h) => png_header_of(bytes@, limit as nat) == Ok::<PngHeader, Seq<char>>(h),
            Err(e) => png_header_of(bytes@, limit as nat) == Err::<PngHeader, Seq<char>>(
                png_error_words(e),
            ),
        },
{
    let limits = png::Limits { bytes: limit };
    let mut decoder = png::Decoder::new_with_limits(Cursor::new(bytes), limits);
    match decoder.read_header_info() {
        Ok(info) => Ok(
            PngHeader {
                width: info.width,
                height: info.height,
                bytes_per_pixel: info.bytes_per_pixel(),
            },
        ),
        Err(e) => Err(e),
    }
}

/// The color type of decoded PNG pixels.
#[derive(Debug, Clone, Copy, PartialEq, Eq, Structural)]
pub enum PngColor {
    Grayscale,
    Rgb,
    Indexed,
    GrayscaleAlpha,
    Rgba,
}

/// The color type and the bits per sample of a PNG file's pixels with palettes, small
/// depths and transparent colors expanded, or the words of an error.
pub uninterp spec fn png_layout_of(bytes: Seq<u8>, limit: nat) -> Result<
    (PngColor, u8),
    Seq<char>,
>;

/// `png::Reader::output_color_type` of a reader with this memory limit that expands
/// pixels and leaves out color profiles and texts: it depends on the bytes and the limit
/// alone.
#[verifier::external_body]
pub(crate) fn read_png_layout(bytes: &[u8], limit: usize) -> (r: Result<
    (PngColor, u8),
    png::DecodingError,
>)
    ensures
        match r {
            Ok(layout) => png_layout_of(bytes@, limit as nat) == Ok::<(PngColor, u8), Seq<char>>(
                layout,
            ),
            Err(e) => png_layout_of(bytes@, limit as nat) == Err::<(PngColor, u8), Seq<char>>(
                png_error_words(e),
            ),
        },
{
    let limits = png::Limits { bytes: limit };
    let mut decoder = png::Decoder::new_with_limits(Cursor::new(bytes), limits);
    decoder.set_ignore_iccp_chunk(true);
    decoder.set_ignore_text_chunk(true);
    decoder.set_transformations(png::Transformations::EXPAND);
    let (color, depth) = decoder.read_info()?.output_color_type();
    let color = match color {
        png::ColorType::Grayscale => PngColor::Grayscale,
        png::ColorType::Rgb => PngColor::Rgb,
        png::ColorType::Indexed => PngColor::Indexed,
        png::ColorType::GrayscaleAlpha => PngColor::GrayscaleAlpha,
        png::ColorType::Rgba => PngColor::Rgba,
    };
    Ok((color, depth as u8))
}

/// The first `len` bytes of a PNG file's expanded pixels, or the words of an error.
pub uninterp spec fn png_pixels_of(bytes: Seq<u8>, limit: nat, len: nat) -> Result<
    Seq<u8>,
    Seq<char>,
>;

/// `png::Reader::next_frame` of a reader with this memory limit that expands pixels and
/// leaves out color profiles and texts, into a buffer of `len` zeros: the buffer depends
/// on the bytes, the limit and its length alone, and keeps its length.
#[verifier::external_body]
pub(crate) fn read_png_pixels(bytes: &[u8], limit: usize, len: usize) -> (r: Result<
    Vec<u8>,
    png::DecodingError,
>)
    requires
        len <= isize::MAX,
    ensures
        match r {
            Ok(v) => v@.len() == len && png_pixels_of(bytes@, limit as nat, len as nat) == Ok::<
                Seq<u8>,
                Seq<char>,
            >(v@),
            Err(e) => png_pixels_of(bytes@, limit as nat, len as nat) == Err::<
                Seq<u8>,
                Seq<char>,
            >(png_error_words(e)),
        },
{
    let limits = png::Limits { bytes: limit };
    let mut decoder = png::Decoder::new_with_limits(Cursor::new(bytes), limits);
    decoder.set_ignore_iccp_chunk(true);
    decoder.set_ignore_text_chunk(true);
    decoder.set_transformations(png::Transformations::EXPAND);
    let mut buffer = vec![0; len];
    decoder.read_info()?.next_frame(&mut buffer)?;
    Ok(buffer)
}

/// The words in which `image` reports that a file of this kind does not decode.
pub uninterp spec fn decoding_error_words(kind: ImageKind, reason: Seq<char>) -> Seq<char>;

/// The display of an `image::error::DecodingError` for a PNG or JPEG file with this
/// reason.
#[verifier::external_body]
pub(crate) fn decoding_error_text(kind: ImageKind, reason: String) -> (r: String)
    ensures
        r@ == decoding_error_words(kind, reason@),
{
    let format = match kind {
        ImageKind::Png => image::ImageFormat::Png.into(),
        ImageKind::Jpeg => image::ImageFormat::Jpeg.into(),
        ImageKind::Other => ImageFormatHint::Unknown,
    };
    ImageError::Decoding(DecodingError::new(format, reason)).to_string()
}

/// The words in which `image` reports that PNG pixels of this many bits are not supported.
pub uninterp spec fn png_depth_error_words(bits: u8) -> Seq<char>;

/// The display of an `image::error::UnsupportedError` for the color type of a PNG file
/// with this many bits.
#[verifier::external_body]
pub(crate) fn png_depth_error_text(bits: u8) -> (r: String)
    ensures
        r@ == png_depth_error_words(bits),
{
    let kind = UnsupportedErrorKind::Color(image::ExtendedColorType::Unknown(bits));
    let error = UnsupportedError::from_format_and_kind(image::ImageFormat::Png.into(), kind);
    ImageError::Unsupported(error).to_string()
}

/// An error of the `zune-jpeg` crate.
#[verifier::external_type_specification]
#[verifier::external_body]
pub struct ExJpegError(zune_jpeg::errors::DecodeErrors);

/// The words in which `image` reports an error of `zune-jpeg`.
pub uninterp spec fn jpeg_error_words(e: zune_jpeg::errors::DecodeErrors) -> Seq<char>;

/// The display of the `image::ImageError` that `image` makes of an error of `zune-jpeg`,
/// which depends on the error alone.
#[verifier::external_body]
pub(crate) fn jpeg_error_text(e: zune_jpeg::errors::DecodeErrors) -> (r: String)
    ensures
        r@ == jpeg_error_words(e),
{
    ImageError::Decoding(DecodingError::new(image::ImageFormat::Jpeg.into(), e)).to_string()
}

/// A reader error of `zune-core`.
#[verifier::external_type_specification]
#[verifier::external_body]
pub struct ExReadError(ZByteIoError);

/// A reader position of `zune-core`.
#[verifier::external_type_specification]
#[verifier::external_body]
pub struct ExSeekFrom(ZSeekFrom);

/// A reader of `zune-core` over bytes in memory.
#[verifier::external_type_specification]
#[verifier::external_body]
#[verifier::reject_recursive_types(T)]
pub struct ExZCursor<T>(ZCursor<T>);

/// A reader that hides from zune-jpeg each metadata segment of which it would keep a copy.
///
/// zune-jpeg peeks a segment's identifier to tell what it holds. Here the first byte of
/// such an identifier is peeked as a zero, so that the segment is passed over like an
/// unknown one. A segment that zune-jpeg would refuse stays as it is. What is decoded is
/// the same; what it costs is not.
pub struct HideMetadata<'a> {
    pub reader: ZCursor<&'a [u8]>,
}

/// The bytes before and behind the position of a reader.
pub uninterp spec fn reader_halves(reader: ZCursor<&[u8]>) -> (Seq<u8>, Seq<u8>);

/// `zune_core::bytestream::ZCursor::split`: the bytes before and behind the position.
#[verifier::external_body]
fn split_reader<'a>(reader: &'a ZCursor<&[u8]>) -> (r: (&'a [u8], &'a [u8]))
    ensures
        (r.0@, r.1@) == reader_halves(*reader),
{
    reader.split()
}

/// `zune_core::bytestream::ZByteReaderTrait::peek_exact_bytes` of a `ZCursor`: copies the
/// next bytes without passing them, and fails exactly where there are not enough.
#[verifier::external_body]
fn peek_exact(reader: &mut ZCursor<&[u8]>, buf: &mut [u8]) -> (r: Result<(), ZByteIoError>)
    ensures
        reader_halves(*final(reader)) == reader_halves(*old(reader)),
        final(buf)@.len() == old(buf)@.len(),
        r is Ok <==> old(buf)@.len() <= reader_halves(*old(reader)).1.len(),
        r is Ok ==> final(buf)@ == reader_halves(*old(reader)).1.take(old(buf)@.len() as int),
{
    reader.peek_exact_bytes(buf)
}

impl<'a> HideMetadata<'a> {
    /// Copies the next bytes without passing them, as zune-jpeg is to see them.
    fn peek(&mut self, buf: &mut [u8]) -> (r: Result<(), ZByteIoError>)
        ensures
            reader_halves(final(self).reader) == reader_halves(old(self).reader),
            r is Ok <==> old(buf)@.len() <= reader_halves(old(self).reader).1.len(),
            r is Ok ==> final(buf)@ == ({
                let (before, behind) = reader_halves(old(self).reader);
                shown(behind.take(old(buf)@.len() as int), before, behind.len())
            }),
    {
        peek_exact(&mut self.reader, buf)?;
        let (before, behind) = split_reader(&self.reader);
        hide_identifier(buf, before, behind.len());
        Ok(())
    }
}

/// Each method but `peek_exact_bytes` hands its call to the same method of the reader.
impl<'a, 'b> ZByteReaderTrait for &'b mut HideMetadata<'a> {
    #[verifier::external_body]
    fn read_byte_no_error(&mut self) -> u8 {
        self.reader.read_byte_no_error()
    }

    #[verifier::external_body]
    fn read_exact_bytes(&mut self, buf: &mut [u8]) -> Result<(), ZByteIoError> {
        self.reader.read_exact_bytes(buf)
    }

    #[verifier::external_body]
    fn read_bytes(&mut self, buf: &mut [u8]) -> Result<usize, ZByteIoError> {
        self.reader.read_bytes(buf)
    }

    #[verifier::external_body]
    fn peek_bytes(&mut self, buf: &mut [u8]) -> Result<usize, ZByteIoError> {
        self.reader.peek_bytes(buf)
    }

    fn peek_exact_bytes(&mut self, buf: &mut [u8]) -> (r: Result<(), ZByteIoError>)
        ensures
            reader_halves(final(self).reader) == reader_halves(old(self).reader),
            r is Ok <==> old(buf)@.len() <= reader_halves(old(self).reader).1.len(),
            r is Ok ==> final(buf)@ == ({
                let (before, behind) = reader_halves(old(self).reader);
                shown(behind.take(old(buf)@.len() as int), before, behind.len())
            }),
    {
        self.peek(buf)
    }

    #[verifier::external_body]
    fn z_seek(&mut self, from: ZSeekFrom) -> Result<u64, ZByteIoError> {
        self.reader.z_seek(from)
    }

    #[verifier::external_body]
    fn is_eof(&mut self) -> Result<bool, ZByteIoError> {
        self.reader.is_eof()
    }

    #[verifier::external_body]
    fn z_position(&mut self) -> Result<u64, ZByteIoError> {
        self.reader.z_position()
    }

    #[verifier::external_body]
    fn read_remaining(&mut self, sink: &mut Vec<u8>) -> Result<usize, ZByteIoError> {
        self.reader.read_remaining(sink)
    }
}

/// A color space of a JPEG file, as far as it makes a difference.
#[derive(Debug, Clone, Copy, PartialEq, Eq, Structural)]
pub enum JpegColor {
    Luma,
    LumaAlpha,
    Rgba,
    Ycbcr,
    Ycck,
    Other,
}

impl JpegColor {
    /// The bytes of a pixel.
    pub open spec fn size(self) -> nat {
        match self {
            JpegColor::Luma => 1,
            JpegColor::LumaAlpha => 2,
            JpegColor::Rgba => 4,
            JpegColor::Ycbcr | JpegColor::Ycck | JpegColor::Other => 3,
        }
    }
}

/// What the headers of a JPEG file say.
#[derive(Debug, Clone, Copy, PartialEq, Eq, Structural)]
pub struct JpegInfo {
    pub width: u16,
    pub height: u16,
    pub components: u8,
    pub progressive: bool,
    pub color: JpegColor,
    /// Where the header of the first scan ends.
    pub scan_end: usize,
}

/// What the headers of a JPEG file say, or the words of an error.
pub uninterp spec fn jpeg_info_of(bytes: Seq<u8>) -> Result<JpegInfo, Seq<char>>;

/// `zune_jpeg::JpegDecoder::decode_headers` with the options that `image` uses: what the
/// headers say depends on the bytes alone, and the header of the first scan ends within
/// them.
#[verifier::external_body]
pub(crate) fn read_jpeg_info(bytes: &[u8]) -> (r: Result<
    JpegInfo,
    zune_jpeg::errors::DecodeErrors,
>)
    ensures
        match r {
            Ok(info) => jpeg_info_of(bytes@) == Ok::<JpegInfo, Seq<char>>(info) && info.scan_end
                <= bytes@.len(),
            Err(e) => jpeg_info_of(bytes@) == Err::<JpegInfo, Seq<char>>(jpeg_error_words(e)),
        },
{
    let mut hidden = HideMetadata { reader: ZCursor::new(bytes) };
    let options = DecoderOptions::default().jpeg_set_out_colorspace(ColorSpace::RGB)
        .set_strict_mode(false).set_max_width(usize::MAX).set_max_height(usize::MAX);
    let mut decoder = JpegDecoder::new_with_options(&mut hidden, options);
    decoder.decode_headers()?;
    let info = decoder.info().unwrap();
    let color = match decoder.input_colorspace().unwrap() {
        ColorSpace::Luma => JpegColor::Luma,
        ColorSpace::LumaA => JpegColor::LumaAlpha,
        ColorSpace::RGBA => JpegColor::Rgba,
        ColorSpace::YCbCr => JpegColor::Ycbcr,
        ColorSpace::YCCK => JpegColor::Ycck,
        _ => JpegColor::Other,
    };
    Ok(JpegInfo { width: info.width, height: info.height, components: info.components, progressive: info.sof.is_progressive(), color, scan_end: hidden.reader.split().0.len() })
}

/// The pixels of a JPEG file in a buffer of `len` zeros, or the words of an error.
pub uninterp spec fn jpeg_pixels_of(bytes: Seq<u8>, color: JpegColor, len: nat) -> Result<
    Seq<u8>,
    Seq<char>,
>;

/// `zune_jpeg::JpegDecoder::decode_into` a buffer of `len` zeros, with the options that
/// `image` uses and the pixels of this color space: the buffer keeps its length, and what it
/// then holds depends on the bytes alone. zune-jpeg has several ways to compute it, among
/// which the processor decides, and all do the same arithmetic on integers.
///
/// zune-jpeg panics where the bytes of the pixels cannot be counted, and where it has no room
/// for the layout of the file; such files are left out. The first coefficients of blocks are
/// multiplied without a test for overflow: they wrap around, unless the build has overflow
/// checks.
#[verifier::external_body]
pub(crate) fn read_jpeg_pixels(bytes: &[u8], color: JpegColor, len: usize) -> (r: Result<
    Vec<u8>,
    zune_jpeg::errors::DecodeErrors,
>)
    requires
        len <= isize::MAX,
        jpeg_info_of(bytes@) matches Ok(info) ==> {
            &&& color == info.color
            &&& info.width * info.height * color.size() <= usize::MAX
            &&& decodable(bytes@, info)
        },
    ensures
        match r {
            Ok(v) => v@.len() == len && jpeg_pixels_of(bytes@, color, len as nat) == Ok::<
                Seq<u8>,
                Seq<char>,
            >(v@),
            Err(e) => jpeg_pixels_of(bytes@, color, len as nat) == Err::<Seq<u8>, Seq<char>>(
                jpeg_error_words(e),
            ),
        },
{
    let output = match color {
        JpegColor::Luma => ColorSpace::Luma,
        JpegColor::LumaAlpha => ColorSpace::LumaA,
        JpegColor::Rgba => ColorSpace::RGBA,
        JpegColor::Ycbcr | JpegColor::Ycck | JpegColor::Other => ColorSpace::RGB,
    };
    let options = DecoderOptions::default().jpeg_set_out_colorspace(output);
    let options = options.set_strict_mode(false).set_max_width(usize::MAX);
    let options = options.set_max_height(usize::MAX);
    let mut hidden = HideMetadata { reader: ZCursor::new(bytes) };
    let mut buffer = vec![0; len];
    JpegDecoder::new_with_options(&mut hidden, options).decode_into(&mut buffer)?;
    Ok(buffer)
}

/// An error of the `image` crate.
#[verifier::external_type_specification]
#[verifier::external_body]
pub struct ExImageError(ImageError);

/// The words of an error of `image`.
pub uninterp spec fn image_error_words(e: ImageError) -> Seq<char>;

/// The display of an `image::ImageError`, which depends on the error alone.
#[verifier::external_body]
pub(crate) fn image_error_text(e: ImageError) -> (r: String)
    ensures
        r@ == image_error_words(e),
{
    e.to_string()
}

/// `image::ImageReader::into_dimensions` of a reader that guesses the format. Nothing is
/// said of the result: decoders can be registered with `image` while the program runs.
#[verifier::external_body]
pub(crate) fn read_other_dimensions(bytes: &[u8]) -> (r: Option<(u32, u32)>) {
    image::ImageReader::new(Cursor::new(bytes)).with_guessed_format().ok()?.into_dimensions().ok()
}

/// A color type of the `image` crate.
#[verifier::external_type_specification]
#[verifier::external_body]
pub struct ExColorType(image::ColorType);

/// The pixel format that a color type stands for.
pub uninterp spec fn format_of(color: image::ColorType) -> Option<PixelFormat>;

/// The pixel format of the same name as an `image::ColorType`; none for a color type that
/// has no such format.
#[verifier::external_body]
pub(crate) fn pixel_format(color: image::ColorType) -> (r: Option<PixelFormat>)
    ensures
        r == format_of(color),
{
    match color {
        image::ColorType::L8 => Some(PixelFormat::L8),
        image::ColorType::La8 => Some(PixelFormat::La8),
        image::ColorType::Rgb8 => Some(PixelFormat::Rgb8),
        image::ColorType::Rgba8 => Some(PixelFormat::Rgba8),
        image::ColorType::L16 => Some(PixelFormat::L16),
        image::ColorType::La16 => Some(PixelFormat::La16),
        image::ColorType::Rgb16 => Some(PixelFormat::Rgb16),
        image::ColorType::Rgba16 => Some(PixelFormat::Rgba16),
        image::ColorType::Rgb32F => Some(PixelFormat::Rgb32F),
        image::ColorType::Rgba32F => Some(PixelFormat::Rgba32F),
        _ => None,
    }
}

/// The words in which `image` reports that a color type is not supported.
pub uninterp spec fn color_error_words(color: image::ColorType) -> Seq<char>;

/// The display of an `image::error::UnsupportedError` for a color type of a file of
/// unknown format.
#[verifier::external_body]
pub(crate) fn color_error_text(color: image::ColorType) -> (r: String)
    ensures
        r@ == color_error_words(color),
{
    let kind = UnsupportedErrorKind::Color(color.into());
    let error = UnsupportedError::from_format_and_kind(ImageFormatHint::Unknown, kind);
    ImageError::Unsupported(error).to_string()
}

/// The width, the height, the bytes of the decoded pixels and the color type of the
/// decoder that `image::ImageReader::into_decoder` gives for a file under these limits.
/// Nothing is said of the result: decoders can be registered with `image` while the
/// program runs.
#[verifier::external_body]
pub(crate) fn read_other_info(bytes: &[u8], max_side: u32, max_bytes: u64) -> (r: Result<
    (u32, u32, u64, image::ColorType),
    ImageError,
>) {
    let mut reader = image::ImageReader::new(Cursor::new(bytes)).with_guessed_format()?;
    let mut limits = image::Limits::default();
    limits.max_image_width = Some(max_side);
    limits.max_image_height = Some(max_side);
    limits.max_alloc = Some(max_bytes);
    reader.limits(limits);
    let decoder = reader.into_decoder()?;
    let (width, height) = decoder.dimensions();
    Ok((width, height, decoder.total_bytes(), decoder.color_type()))
}

/// `image::ImageDecoder::read_image` of the decoder that `image` gives for a file under
/// these limits, of which the pixels are taken off first. Nothing is said of the result:
/// decoders can be registered with `image` while the program runs.
#[verifier::external_body]
pub(crate) fn read_other_pixels(bytes: &[u8], max_side: u32, max_bytes: u64) -> (r: Result<
    Vec<u8>,
    ImageError,
>)
    requires
        max_bytes <= isize::MAX,
{
    let mut reader = image::ImageReader::new(Cursor::new(bytes)).with_guessed_format()?;
    let mut limits = image::Limits::default();
    limits.max_image_width = Some(max_side);
    limits.max_image_height = Some(max_side);
    limits.max_alloc = Some(max_bytes);
    reader.limits(limits.clone());
    let mut decoder = reader.into_decoder()?;
    limits.reserve(decoder.total_bytes())?;
    decoder.set_limits(limits)?;
    let mut buffer = vec![0; decoder.total_bytes() as usize];
    decoder.read_image(&mut buffer)?;
    Ok(buffer)
}

/// The bytes with those of each sample of `size` bytes in reverse.
pub open spec fn reversed_samples(bytes: Seq<u8>, size: nat) -> Seq<u8> {
    Seq::new(
        bytes.len(),
        |i: int| bytes[i / size as int * size + (size - 1 - i % size as int)],
    )
}

/// `byteorder::NativeEndian::read_u16_into` and `byteorder::BigEndian::write_u16_into`:
/// 16-bit samples in the machine's byte order become big-endian. On some machines that
/// changes nothing, on the others it reverses each sample.
#[verifier::external_body]
pub(crate) fn big_endian_16(bytes: Vec<u8>) -> (r: Vec<u8>)
    requires
        bytes@.len() % 2 == 0,
    ensures
        r@ == bytes@ || r@ == reversed_samples(bytes@, 2),
{
    let mut bytes = bytes;
    let mut samples = vec![0; bytes.len() / 2];
    byteorder::NativeEndian::read_u16_into(&bytes, &mut samples);
    byteorder::BigEndian::write_u16_into(&samples, &mut bytes);
    bytes
}

/// `byteorder::NativeEndian::read_u32_into` and `byteorder::BigEndian::write_u32_into`:
/// 32-bit samples in the machine's byte order become big-endian. On some machines that
/// changes nothing, on the others it reverses each sample.
#[verifier::external_body]
pub(crate) fn big_endian_32(bytes: Vec<u8>) -> (r: Vec<u8>)
    requires
        bytes@.len() % 4 == 0,
    ensures
        r@ == bytes@ || r@ == reversed_samples(bytes@, 4),
{
    let mut bytes = bytes;
    let mut samples = vec![0; bytes.len() / 4];
    byteorder::NativeEndian::read_u32_into(&bytes, &mut samples);
    byteorder::BigEndian::write_u32_into(&samples, &mut bytes);
    bytes
}

/// An image of the `image` crate.
#[verifier::external_type_specification]
#[verifier::external_body]
pub struct ExDynamicImage(image::DynamicImage);

/// The pixel format of an image and its bytes, with big-endian samples.
pub uninterp spec fn pixels_of_image(img: image::DynamicImage) -> (PixelFormat, Seq<u8>);

/// Pixel `i` of `bytes`.
pub open spec fn pixel_at(format: PixelFormat, bytes: Seq<u8>, i: int) -> Seq<u8> {
    bytes.subrange(i * format.size(), (i + 1) * format.size())
}

/// `image::ImageBuffer::from_raw` of one row of 8-bit samples.
#[verifier::external_body]
pub(crate) fn row_of_8(format: PixelFormat, width: u32, row: Vec<u8>) -> (r: image::DynamicImage)
    requires
        format.sample_size() == 1,
        row@.len() == width * format.size(),
    ensures
        pixels_of_image(r) == (format, row@),
{
    let image = match format {
        PixelFormat::L8 => image::ImageBuffer::from_raw(width, 1, row).map(DynamicImage::ImageLuma8),
        PixelFormat::La8 => image::ImageBuffer::from_raw(width, 1, row).map(DynamicImage::ImageLumaA8),
        PixelFormat::Rgb8 => image::ImageBuffer::from_raw(width, 1, row).map(DynamicImage::ImageRgb8),
        _ => image::ImageBuffer::from_raw(width, 1, row).map(DynamicImage::ImageRgba8),
    };
    image.unwrap()
}

/// `image::ImageBuffer::from_raw` of one row of 16-bit samples, which
/// `byteorder::BigEndian::read_u16_into` reads.
#[verifier::external_body]
pub(crate) fn row_of_16(format: PixelFormat, width: u32, row: Vec<u8>) -> (r: image::DynamicImage)
    requires
        format.sample_size() == 2,
        row@.len() == width * format.size(),
    ensures
        pixels_of_image(r) == (format, row@),
{
    let mut data = vec![0; row.len() / 2];
    byteorder::BigEndian::read_u16_into(&row, &mut data);
    let image = match format {
        PixelFormat::L16 => image::ImageBuffer::from_raw(width, 1, data).map(DynamicImage::ImageLuma16),
        PixelFormat::La16 => image::ImageBuffer::from_raw(width, 1, data).map(DynamicImage::ImageLumaA16),
        PixelFormat::Rgb16 => image::ImageBuffer::from_raw(width, 1, data).map(DynamicImage::ImageRgb16),
        _ => image::ImageBuffer::from_raw(width, 1, data).map(DynamicImage::ImageRgba16),
    };
    image.unwrap()
}

/// `image::ImageBuffer::from_raw` of one row of 32-bit floating-point samples, which
/// `byteorder::BigEndian::read_f32_into` reads.
#[verifier::external_body]
pub(crate) fn row_of_32(format: PixelFormat, width: u32, row: Vec<u8>) -> (r: image::DynamicImage)
    requires
        format.sample_size() == 4,
        row@.len() == width * format.size(),
    ensures
        pixels_of_image(r) == (format, row@),
{
    let mut data = vec![Default::default(); row.len() / 4];
    byteorder::BigEndian::read_f32_into(&row, &mut data);
    let image = match format {
        PixelFormat::Rgb32F => image::ImageBuffer::from_raw(width, 1, data).map(DynamicImage::ImageRgb32F),
        _ => image::ImageBuffer::from_raw(width, 1, data).map(DynamicImage::ImageRgba32F),
    };
    image.unwrap()
}

/// The luma that `image` gives a pixel of this format.
pub uninterp spec fn pixel_luma(format: PixelFormat, pixel: Seq<u8>) -> u8;

/// `image::DynamicImage::into_luma8`: the luma of each pixel, which depends on that pixel
/// alone.
#[verifier::external_body]
pub(crate) fn luma_of_image(img: image::DynamicImage) -> (r: Vec<u8>)
    ensures
        r@.len() == pixels_of_image(img).1.len() / pixels_of_image(img).0.size(),
        forall|i: int|
            0 <= i < r@.len() ==> #[trigger] r@[i] == pixel_luma(
                pixels_of_image(img).0,
                pixel_at(pixels_of_image(img).0, pixels_of_image(img).1, i),
            ),
{
    img.into_luma8().into_raw()
}

/// The alpha, as one byte, that `image` gives a pixel of this format.
pub uninterp spec fn pixel_alpha(format: PixelFormat, pixel: Seq<u8>) -> u8;

/// `image::DynamicImage::into_luma_alpha8`: a luma and an alpha for each pixel. The alpha
/// depends on that pixel alone; of the luma nothing is said.
#[verifier::external_body]
pub(crate) fn luma_alpha_of_image(img: image::DynamicImage) -> (r: Vec<u8>)
    ensures
        r@.len() == 2 * (pixels_of_image(img).1.len() / pixels_of_image(img).0.size()),
        forall|i: int|
            0 <= i < r@.len() / 2 ==> #[trigger] r@[2 * i + 1] == pixel_alpha(
                pixels_of_image(img).0,
                pixel_at(pixels_of_image(img).0, pixels_of_image(img).1, i),
            ),
{
    img.into_luma_alpha8().into_raw()
}

/// The layout of pixels that are encoded.
#[derive(Debug, Clone, Copy, PartialEq, Eq, Structural)]
pub enum PngLayout {
    LumaAlpha,
    Rgba,
}

impl PngLayout {
    /// The bytes of a pixel.
    pub open spec fn size(self) -> nat {
        match self {
            PngLayout::LumaAlpha => 2,
            PngLayout::Rgba => 4,
        }
    }
}

/// The PNG file of these pixels, or the words of an error.
pub uninterp spec fn png_file_of(
    layout: PngLayout,
    width: u32,
    height: u32,
    data: Seq<u8>,
) -> Result<Seq<u8>, Seq<char>>;

/// `image::ImageBuffer::write_to` in the PNG format: the file depends on the pixels alone.
#[verifier::external_body]
pub(crate) fn encode_png(layout: PngLayout, width: u32, height: u32, data: Vec<u8>) -> (r: Result<
    Vec<u8>,
    String,
>)
    requires
        data@.len() == width * height * layout.size(),
    ensures
        match r {
            Ok(v) => png_file_of(layout, width, height, data@) == Ok::<Seq<u8>, Seq<char>>(v@),
            Err(e) => png_file_of(layout, width, height, data@) == Err::<Seq<u8>, Seq<char>>(e@),
        },
{
    let mut file = Cursor::new(Vec::new());
    let png = image::ImageFormat::Png;
    let written = match layout {
        PngLayout::LumaAlpha => image::GrayAlphaImage::from_raw(width, height, data).unwrap().write_to(&mut file, png),
        PngLayout::Rgba => image::RgbaImage::from_raw(width, height, data).unwrap().write_to(&mut file, png),
    };
    match written {
        Ok(_) => Ok(file.into_inner()),
        Err(e) => Err(e.to_string()),
    }
}

} // verus!
