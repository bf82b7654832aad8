//! Image files as tips, within limits that are tested before pixels are decoded.
use vstd::prelude::*;
use crate::preview::bitmap::{BitmapView, GrayscaleBitmap};
use crate::preview::codec::{
    big_endian_16, big_endian_32, color_error_text, color_error_words, decoding_error_text,
    decoding_error_words, format_of, guess_kind, image_error_text, image_error_words, image_kind,
    jpeg_error_text, jpeg_info_of, jpeg_pixels_of, luma_alpha_of_image, luma_of_image,
    pixel_alpha, pixel_at, pixel_format, pixel_luma, png_depth_error_text, png_depth_error_words,
    png_error_text, png_header_of, png_layout_of, png_pixels_of, read_jpeg_info, read_jpeg_pixels,
    read_other_dimensions, read_other_info, read_other_pixels, read_png_header, read_png_layout,
    read_png_pixels, reversed_samples, row_of_16, row_of_32, row_of_8, ImageKind, JpegColor,
    JpegInfo, PixelFormat, PngColor, PngHeader,
};
use crate::preview::jpeg::{coefficient_bytes, coefficients_of};
use crate::preview::sampling::{decodable, is_decodable};
use crate::support::bytes::{be_u32, copy_bytes, u32_at};
use crate::support::text::{decimal, push_decimal};

verus! {

/// The longest side of an imported image.
pub const MAX_IMPORT_DIMENSION: u32 = 16384;

/// The most memory that decoding an imported image may take.
pub const MAX_IMPORT_DECODED_BYTES: u64 = 512 * 1024 * 1024;

/// The largest `eXIf` chunk that a PNG file may have before its pixels.
pub const MAX_PNG_EXIF_BYTES: u32 = 64 * 1024;

/// The memory that `png` may take where nothing else is said.
pub const DEFAULT_PNG_LIMIT: usize = 64 * 1024 * 1024;

/// `IDAT`
pub const CHUNK_IDAT: u32 = 0x4944_4154;

/// `eXIf`
pub const CHUNK_EXIF: u32 = 0x6558_4966;

/// A decoded image in its own pixel format.
#[derive(Debug)]
pub struct DecodedImage {
    pub width: u32,
    pub height: u32,
    pub format: PixelFormat,
    pub bytes: Vec<u8>,
}

/// The model of a [`DecodedImage`].
pub struct ImageView {
    pub width: u32,
    pub height: u32,
    pub format: PixelFormat,
    pub bytes: Seq<u8>,
}

impl View for DecodedImage {
    type V = ImageView;

    open spec fn view(&self) -> ImageView {
        ImageView {
            width: self.width,
            height: self.height,
            format: self.format,
            bytes: self.bytes@,
        }
    }
}

impl ImageView {
    /// There are as many bytes as the pixels take.
    pub open spec fn wf(self) -> bool {
        self.bytes.len() == self.width * self.height * self.format.size()
    }
}

/// What a tip keeps of each pixel.
#[derive(Debug, Clone, Copy, PartialEq, Eq, Structural)]
pub enum TipSample {
    /// The alpha where there is one, else the inverted luma: dark is opaque.
    Coverage,
    Luma,
}

/// What a tip keeps of a pixel.
pub open spec fn sample_of(format: PixelFormat, pixel: Seq<u8>, sample: TipSample) -> u8 {
    if sample == TipSample::Coverage && format.alpha() {
        if format == PixelFormat::La8 || format == PixelFormat::Rgba8 {
            pixel.last()
        } else {
            pixel_alpha(format, pixel)
        }
    } else {
        let luma = if format == PixelFormat::L8 {
            pixel[0]
        } else {
            pixel_luma(format, pixel)
        };
        if sample == TipSample::Coverage {
            (255 - luma) as u8
        } else {
            luma
        }
    }
}

/// What a tip keeps of each pixel.
pub open spec fn plane_of(format: PixelFormat, bytes: Seq<u8>, sample: TipSample) -> Seq<u8> {
    Seq::new(
        bytes.len() / format.size(),
        |i: int| sample_of(format, pixel_at(format, bytes, i), sample),
    )
}

/// How many pixels are converted at a time.
pub const CHUNK: usize = 4096;

/// The byte that conversion gives pixel `i`: its alpha or its luma.
spec fn converted(format: PixelFormat, alpha: bool, bytes: Seq<u8>, i: int) -> u8 {
    if alpha {
        pixel_alpha(format, pixel_at(format, bytes, i))
    } else {
        pixel_luma(format, pixel_at(format, bytes, i))
    }
}

/// One byte for each of `width` pixels: the alpha or the luma.
fn convert_chunk(format: PixelFormat, alpha: bool, width: u32, chunk: &[u8]) -> (r: Vec<u8>)
    requires
        chunk@.len() == width * format.size(),
    ensures
        r@.len() == width,
        forall|i: int| 0 <= i < width ==> #[trigger] r@[i] == converted(format, alpha, chunk@, i),
{
    let row: Vec<u8> = copy_bytes(chunk);
    let samples: usize = format.bytes_per_sample();
    let img: image::DynamicImage = if samples == 1 {
        row_of_8(format, width, row)
    } else if samples == 2 {
        row_of_16(format, width, row)
    } else {
        row_of_32(format, width, row)
    };
    proof {
        let size = format.size() as int;
        assert(chunk@.len() / format.size() == width) by (nonlinear_arith)
            requires
                chunk@.len() == width * size,
                size == format.size(),
                size > 0,
        ;
    }
    if alpha {
        let pairs: Vec<u8> = luma_alpha_of_image(img);
        let mut r: Vec<u8> = Vec::with_capacity(width as usize);
        let mut i: usize = 0;
        while i < width as usize
            invariant
                i <= width,
                pairs@.len() == 2 * width,
                r@.len() == i,
                forall|j: int| 0 <= j < i ==> #[trigger] r@[j] == pairs@[2 * j + 1],
            decreases width - i,
        {
            assert(pairs.len() <= usize::MAX);
            r.push(pairs[2 * i + 1]);
            i += 1;
        }
        r
    } else {
        luma_of_image(img)
    }
}

proof fn pixel_bounds(n: nat, size: nat, i: int)
    requires
        0 <= i < n / size,
        size > 0,
    ensures
        0 <= i * size,
        (i + 1) * size <= n,
        i <= i * size,
        (i + 1) * size == i * size + size,
{
    assert(0 <= i * size && (i + 1) * size <= n && i <= i * size && (i + 1) * size == i * size
        + size) by (nonlinear_arith)
        requires
            0 <= i < n / size,
            size > 0,
    ;
}

/// One byte per pixel, written over the front of the buffer.
pub fn tip_plane(image: DecodedImage, sample: TipSample) -> (r: Vec<u8>)
    ensures
        r@ == plane_of(image.format, image.bytes@, sample),
{
    let format: PixelFormat = image.format;
    let size: usize = format.bytes_per_pixel();
    let coverage: bool = sample == TipSample::Coverage;
    let alpha: bool = coverage && format.has_alpha();
    let ghost first = image.bytes@;
    let mut raw: Vec<u8> = image.bytes;
    let pixels: usize = raw.len() / size;
    if alpha && (format == PixelFormat::La8 || format == PixelFormat::Rgba8) {
        keep_last_bytes(&mut raw, size);
        assert(raw@ =~= plane_of(format, first, sample)) by {
            assert forall|i: int| 0 <= i < pixels implies first[i * size + size - 1] == pixel_at(
                format,
                first,
                i,
            ).last() by {
                pixel_bounds(first.len(), size as nat, i);
            }
        }
        return raw;
    }
    if size > 1 {
        convert_pixels(&mut raw, format, alpha);
    } else {
        assert(pixels == raw@.len());
        assert forall|i: int| 0 <= i < pixels implies first[i] == pixel_at(format, first, i)[0] by {
            pixel_bounds(first.len(), 1, i);
            assert(i * 1 == i);
        }
    }
    if coverage && !alpha {
        invert(&mut raw);
    }
    assert(raw@ =~= plane_of(format, first, sample));
    raw
}

/// Each byte becomes 255 minus it.
fn invert(raw: &mut Vec<u8>)
    ensures
        final(raw)@ == Seq::new(old(raw)@.len(), |i: int| (255 - old(raw)@[i]) as u8),
{
    let mut i: usize = 0;
    while i < raw.len()
        invariant
            i <= raw@.len(),
            raw@.len() == old(raw)@.len(),
            forall|j: int| 0 <= j < i ==> #[trigger] raw@[j] == (255 - old(raw)@[j]) as u8,
            forall|j: int| i <= j < raw@.len() ==> #[trigger] raw@[j] == old(raw)@[j],
        decreases raw@.len() - i,
    {
        let v: u8 = raw[i];
        raw[i] = 255 - v;
        i += 1;
    }
    assert(raw@ =~= Seq::new(old(raw)@.len(), |i: int| (255 - old(raw)@[i]) as u8));
}

/// Of each pixel of `size` bytes the last byte is kept.
fn keep_last_bytes(raw: &mut Vec<u8>, size: usize)
    requires
        size > 0,
    ensures
        final(raw)@ == Seq::new(
            old(raw)@.len() / (size as nat),
            |i: int| old(raw)@[i * size + size - 1],
        ),
{
    let pixels: usize = raw.len() / size;
    let ghost first = raw@;
    let mut i: usize = 0;
    while i < pixels
        invariant
            i <= pixels,
            size > 0,
            first == old(raw)@,
            raw@.len() == first.len(),
            pixels == first.len() / (size as nat),
            first.len() <= usize::MAX,
            forall|j: int| 0 <= j < i ==> #[trigger] raw@[j] == first[j * size + size - 1],
            forall|j: int| i <= j < raw@.len() ==> #[trigger] raw@[j] == first[j],
        decreases pixels - i,
    {
        proof {
            pixel_bounds(first.len(), size as nat, i as int);
        }
        let v: u8 = raw[i * size + (size - 1)];
        raw[i] = v;
        i += 1;
    }
    raw.truncate(pixels);
    assert(raw@ =~= Seq::new(first.len() / (size as nat), |i: int| first[i * size + size - 1]));
}

/// Each pixel becomes one byte: its alpha or its luma.
fn convert_pixels(raw: &mut Vec<u8>, format: PixelFormat, alpha: bool)
    ensures
        final(raw)@ == Seq::new(
            old(raw)@.len() / format.size(),
            |i: int| converted(format, alpha, old(raw)@, i),
        ),
{
    let size: usize = format.bytes_per_pixel();
    let pixels: usize = raw.len() / size;
    let ghost first = raw@;
    let mut start: usize = 0;
    assert(0 * size == 0);
    while start < pixels
        invariant
            start <= pixels,
            size == format.size(),
            1 <= size <= 16,
            first == old(raw)@,
            raw@.len() == first.len(),
            pixels == first.len() / (size as nat),
            first.len() <= usize::MAX,
            forall|j: int|
                0 <= j < start ==> #[trigger] raw@[j] == converted(format, alpha, first, j),
            forall|j: int| start * size <= j < raw@.len() ==> #[trigger] raw@[j] == first[j],
        decreases pixels - start,
    {
        let end: usize = if pixels - start > CHUNK {
            start + CHUNK
        } else {
            pixels
        };
        let width: usize = end - start;
        proof {
            pixel_bounds(first.len(), size as nat, start as int);
            pixel_bounds(first.len(), size as nat, end - 1);
            assert(end * size == start * size + width * size) by (nonlinear_arith)
                requires
                    end == start + width,
            ;
            assert(start * size <= end * size) by (nonlinear_arith)
                requires
                    start <= end,
            ;
            assert((end - 1) * size + size == end * size) by (nonlinear_arith);
        }
        let chunk: &[u8] = &raw.as_slice()[start * size..end * size];
        let plane: Vec<u8> = convert_chunk(format, alpha, width as u32, chunk);
        proof {
            assert forall|k: int| 0 <= k < width implies converted(format, alpha, chunk@, k)
                == converted(format, alpha, first, start + k) by {
                pixel_bounds((width * size) as nat, size as nat, k);
                pixel_bounds(first.len(), size as nat, start + k);
                assert((start + k) * size == start * size + k * size) by (nonlinear_arith);
                assert(pixel_at(format, chunk@, k) =~= pixel_at(format, first, start + k));
            }
        }
        write_over(raw, start, &plane);
        proof {
            assert forall|j: int| 0 <= j < end implies #[trigger] raw@[j] == converted(
                format,
                alpha,
                first,
                j,
            ) by {
                if j >= start {
                    assert(raw@[j] == plane@[j - start]);
                }
            }
            assert(end <= end * size) by (nonlinear_arith)
                requires
                    size >= 1,
            ;
        }
        start = end;
    }
    raw.truncate(pixels);
    assert(raw@ =~= Seq::new(
        first.len() / format.size(),
        |i: int| converted(format, alpha, first, i),
    ));
}

/// Writes `bytes` over those from `at` on.
fn write_over(raw: &mut Vec<u8>, at: usize, bytes: &Vec<u8>)
    requires
        at + bytes@.len() <= old(raw)@.len(),
    ensures
        final(raw)@.len() == old(raw)@.len(),
        forall|j: int|
            0 <= j < final(raw)@.len() ==> #[trigger] final(raw)@[j] == if at <= j < at
                + bytes@.len() {
                bytes@[j - at]
            } else {
                old(raw)@[j]
            },
{
    let mut i: usize = 0;
    while i < bytes.len()
        invariant
            i <= bytes@.len(),
            at + bytes@.len() <= raw@.len(),
            raw@.len() == old(raw)@.len(),
            forall|j: int|
                0 <= j < raw@.len() ==> #[trigger] raw@[j] == if at <= j < at + i {
                    bytes@[j - at]
                } else {
                    old(raw)@[j]
                },
        decreases bytes@.len() - i,
    {
        assert(raw.len() <= usize::MAX);
        raw[at + i] = bytes[i];
        i += 1;
    }
}

/// Why an image was not decoded.
#[derive(Debug)]
pub enum GuardedDecodeError {
    /// A side is too long, or decoding takes too much memory.
    TooLarge { width: u32, height: u32 },
    Decode(String),
}

/// The model of a [`GuardedDecodeError`].
pub enum GuardedErrorView {
    TooLarge { width: u32, height: u32 },
    Decode(Seq<char>),
}

impl View for GuardedDecodeError {
    type V = GuardedErrorView;

    open spec fn view(&self) -> GuardedErrorView {
        match *self {
            GuardedDecodeError::TooLarge { width, height } => GuardedErrorView::TooLarge {
                width,
                height,
            },
            GuardedDecodeError::Decode(reason) => GuardedErrorView::Decode(reason@),
        }
    }
}

/// The length of the first `eXIf` chunk from `at` on that is too large and stands before
/// the pixels.
pub open spec fn exif_from(b: Seq<u8>, at: nat) -> Option<u32>
    decreases b.len() + 0x1_0000_0010 - at,
{
    if at + 8 > b.len() {
        None
    } else {
        let len = be_u32(b, at as int);
        let kind = be_u32(b, at as int + 4);
        if kind == CHUNK_IDAT {
            None
        } else if kind == CHUNK_EXIF && len > MAX_PNG_EXIF_BYTES {
            Some(len)
        } else {
            exif_from(b, at + 12 + len as nat)
        }
    }
}

/// The length of the first `eXIf` chunk of a PNG file that is too large and stands before
/// the pixels.
pub fn oversize_exif(bytes: &[u8]) -> (r: Option<u32>)
    ensures
        r == exif_from(bytes@, 8),
{
    let mut at: usize = 8;
    while bytes.len() >= 8 && at <= bytes.len() - 8
        invariant
            exif_from(bytes@, 8) == exif_from(bytes@, at as nat),
        decreases bytes@.len() - at,
    {
        let len: u32 = u32_at(bytes, at);
        let kind: u32 = u32_at(bytes, at + 4);
        if kind == CHUNK_IDAT {
            return None;
        }
        if kind == CHUNK_EXIF && len > MAX_PNG_EXIF_BYTES {
            return Some(len);
        }
        let left: usize = bytes.len() - at - 8;
        if left < 4 || left - 4 < len as usize {
            assert(exif_from(bytes@, at as nat + 12 + len as nat) is None);
            return None;
        }
        at = at + 12 + len as usize;
    }
    None
}

/// The pixel format of decoded PNG pixels.
pub open spec fn png_format_of(color: PngColor, depth: u8) -> Option<PixelFormat> {
    if depth == 8 {
        match color {
            PngColor::Grayscale => Some(PixelFormat::L8),
            PngColor::GrayscaleAlpha => Some(PixelFormat::La8),
            PngColor::Rgb => Some(PixelFormat::Rgb8),
            PngColor::Rgba => Some(PixelFormat::Rgba8),
            PngColor::Indexed => None,
        }
    } else if depth == 16 {
        match color {
            PngColor::Grayscale => Some(PixelFormat::L16),
            PngColor::GrayscaleAlpha => Some(PixelFormat::La16),
            PngColor::Rgb => Some(PixelFormat::Rgb16),
            PngColor::Rgba => Some(PixelFormat::Rgba16),
            PngColor::Indexed => None,
        }
    } else {
        None
    }
}

fn png_format(color: PngColor, depth: u8) -> (r: Option<PixelFormat>)
    ensures
        r == png_format_of(color, depth),
{
    if depth == 8 {
        match color {
            PngColor::Grayscale => Some(PixelFormat::L8),
            PngColor::GrayscaleAlpha => Some(PixelFormat::La8),
            PngColor::Rgb => Some(PixelFormat::Rgb8),
            PngColor::Rgba => Some(PixelFormat::Rgba8),
            PngColor::Indexed => None,
        }
    } else if depth == 16 {
        match color {
            PngColor::Grayscale => Some(PixelFormat::L16),
            PngColor::GrayscaleAlpha => Some(PixelFormat::La16),
            PngColor::Rgb => Some(PixelFormat::Rgb16),
            PngColor::Rgba => Some(PixelFormat::Rgba16),
            PngColor::Indexed => None,
        }
    } else {
        None
    }
}

/// `n`, as far as memory can be addressed.
pub open spec fn addressable(n: u64) -> nat {
    if n <= usize::MAX {
        n as nat
    } else {
        usize::MAX as nat
    }
}

/// `n`, as far as so much memory can be had at once.
pub open spec fn allocatable(n: u64) -> nat {
    if n <= isize::MAX {
        n as nat
    } else {
        isize::MAX as nat
    }
}

/// The bytes that pixels of `size` bytes take.
pub open spec fn image_bytes(width: u32, height: u32, size: nat) -> nat {
    (width * height * size) as nat
}

/// The bytes that pixels of `size` bytes take, where that is within the limit and can be
/// had at once.
fn bounded_image_bytes(width: u32, height: u32, size: usize, max_bytes: u64) -> (r: Option<usize>)
    requires
        size <= 0x1_0000_0000,
    ensures
        r == (if image_bytes(width, height, size as nat) <= allocatable(max_bytes) {
            Some(image_bytes(width, height, size as nat) as usize)
        } else {
            None
        }),
{
    proof {
        assert(width * height <= 0xFFFF_FFFF * 0xFFFF_FFFF) by (nonlinear_arith)
            requires
                0 <= width <= 0xFFFF_FFFF,
                0 <= height <= 0xFFFF_FFFF,
        ;
        assert(width * height * size <= 0xFFFF_FFFF * 0xFFFF_FFFF * 0x1_0000_0000)
            by (nonlinear_arith)
            requires
                0 <= width * height <= 0xFFFF_FFFF * 0xFFFF_FFFF,
                0 <= size <= 0x1_0000_0000,
        ;
    }
    let area: u128 = width as u128 * height as u128;
    let n: u128 = area * size as u128;
    if n <= max_bytes as u128 && n <= isize::MAX as u128 {
        Some(n as usize)
    } else {
        None
    }
}

/// The words for an `eXIf` chunk of `len` bytes.
pub open spec fn exif_reason(len: u32) -> Seq<char> {
    "eXIf chunk is "@ + decimal(len as nat) + " bytes, over the "@ + decimal(
        MAX_PNG_EXIF_BYTES as nat,
    ) + " a tip reads"@
}

/// What becomes of a PNG file whose header is `h`.
pub open spec fn png_decoded(
    bytes: Seq<u8>,
    h: PngHeader,
    max_side: u32,
    max_bytes: u64,
) -> Result<ImageView, GuardedErrorView> {
    let too_large = GuardedErrorView::TooLarge { width: h.width, height: h.height };
    let limit = addressable(max_bytes);
    if h.width > max_side || h.height > max_side {
        Err(too_large)
    } else if image_bytes(h.width, h.height, h.bytes_per_pixel as nat) > max_bytes {
        Err(too_large)
    } else if exif_from(bytes, 8) is Some {
        Err(
            GuardedErrorView::Decode(
                decoding_error_words(ImageKind::Png, exif_reason(exif_from(bytes, 8)->0)),
            ),
        )
    } else {
        match png_layout_of(bytes, limit) {
            Ok((color, depth)) => match png_format_of(color, depth) {
                Some(format) => {
                    let total = image_bytes(h.width, h.height, format.size());
                    if total > allocatable(max_bytes) {
                        Err(too_large)
                    } else {
                        match png_pixels_of(bytes, limit, total) {
                            Ok(pixels) => Ok(
                                ImageView {
                                    width: h.width,
                                    height: h.height,
                                    format,
                                    bytes: pixels,
                                },
                            ),
                            Err(e) => Err(GuardedErrorView::Decode(e)),
                        }
                    }
                },
                None => Err(GuardedErrorView::Decode(png_depth_error_words(depth))),
            },
            Err(e) => Err(GuardedErrorView::Decode(e)),
        }
    }
}

/// What becomes of a PNG file.
pub open spec fn png_result(bytes: Seq<u8>, max_side: u32, max_bytes: u64) -> Result<
    ImageView,
    GuardedErrorView,
> {
    match png_header_of(bytes, addressable(max_bytes)) {
        Ok(h) => png_decoded(bytes, h, max_side, max_bytes),
        Err(e) => Err(GuardedErrorView::Decode(e)),
    }
}

/// Is `r` what `expected` says?
pub open spec fn is_result(
    r: Result<DecodedImage, GuardedDecodeError>,
    expected: Result<ImageView, GuardedErrorView>,
) -> bool {
    match expected {
        Ok(img) => r matches Ok(v) && v@ == img,
        Err(e) => r matches Err(err) && err@ == e,
    }
}

/// Does memory for pixels of `size` bytes fit in `max_bytes`?
fn pixels_fit(width: u32, height: u32, size: usize, max_bytes: u64) -> (r: bool)
    ensures
        r == (image_bytes(width, height, size as nat) <= max_bytes),
{
    proof {
        assert(width * height <= 0xFFFF_FFFF * 0xFFFF_FFFF) by (nonlinear_arith)
            requires
                0 <= width <= 0xFFFF_FFFF,
                0 <= height <= 0xFFFF_FFFF,
        ;
        assert(width * height * size <= 0xFFFF_FFFF * 0xFFFF_FFFF * 0xFFFF_FFFF_FFFF_FFFF)
            by (nonlinear_arith)
            requires
                0 <= width * height <= 0xFFFF_FFFF * 0xFFFF_FFFF,
                0 <= size <= 0xFFFF_FFFF_FFFF_FFFF,
        ;
    }
    let area: u128 = width as u128 * height as u128;
    area * size as u128 <= max_bytes as u128
}

fn exif_error(len: u32) -> (r: GuardedDecodeError)
    ensures
        r@ == GuardedErrorView::Decode(decoding_error_words(ImageKind::Png, exif_reason(len))),
{
    let mut m: String = "eXIf chunk is ".to_owned();
    push_decimal(&mut m, len as u64);
    m.append(" bytes, over the ");
    push_decimal(&mut m, MAX_PNG_EXIF_BYTES as u64);
    m.append(" a tip reads");
    GuardedDecodeError::Decode(decoding_error_text(ImageKind::Png, m))
}

fn memory_limit(max_bytes: u64) -> (r: usize)
    ensures
        r == addressable(max_bytes),
{
    if max_bytes as u128 <= usize::MAX as u128 {
        max_bytes as usize
    } else {
        usize::MAX
    }
}

/// Decodes a PNG file within limits. Its color profile and texts are passed over; an
/// `eXIf` chunk that is too large is an error, because `png` would hold it.
pub fn decode_png(bytes: &[u8], max_side: u32, max_bytes: u64) -> (r: Result<
    DecodedImage,
    GuardedDecodeError,
>)
    ensures
        is_result(r, png_result(bytes@, max_side, max_bytes)),
        r matches Ok(img) ==> img@.wf(),
{
    let limit: usize = memory_limit(max_bytes);
    let h: PngHeader = match read_png_header(bytes, limit) {
        Ok(h) => h,
        Err(e) => {
            return Err(GuardedDecodeError::Decode(png_error_text(e)));
        },
    };
    let width: u32 = h.width;
    let height: u32 = h.height;
    if width > max_side || height > max_side {
        return Err(GuardedDecodeError::TooLarge { width, height });
    }
    if !pixels_fit(width, height, h.bytes_per_pixel, max_bytes) {
        return Err(GuardedDecodeError::TooLarge { width, height });
    }
    if let Some(len) = oversize_exif(bytes) {
        return Err(exif_error(len));
    }
    let (color, depth) = match read_png_layout(bytes, limit) {
        Ok(layout) => layout,
        Err(e) => {
            return Err(GuardedDecodeError::Decode(png_error_text(e)));
        },
    };
    let format: PixelFormat = match png_format(color, depth) {
        Some(format) => format,
        None => {
            return Err(GuardedDecodeError::Decode(png_depth_error_text(depth)));
        },
    };
    let total: usize = match bounded_image_bytes(
        width,
        height,
        format.bytes_per_pixel(),
        max_bytes,
    ) {
        Some(total) => total,
        None => {
            return Err(GuardedDecodeError::TooLarge { width, height });
        },
    };
    match read_png_pixels(bytes, limit, total) {
        Ok(pixels) => Ok(DecodedImage { width, height, format, bytes: pixels }),
        Err(e) => Err(GuardedDecodeError::Decode(png_error_text(e))),
    }
}

/// The pixel format in which a JPEG file of this color space is decoded.
pub open spec fn jpeg_format(color: JpegColor) -> PixelFormat {
    match color {
        JpegColor::Luma => PixelFormat::L8,
        JpegColor::LumaAlpha => PixelFormat::La8,
        JpegColor::Rgba => PixelFormat::Rgba8,
        JpegColor::Ycbcr | JpegColor::Ycck | JpegColor::Other => PixelFormat::Rgb8,
    }
}

/// How a JPEG file is decoded.
#[derive(Debug, Clone, Copy, PartialEq, Eq, Structural)]
pub struct JpegPlan {
    pub width: u32,
    pub height: u32,
    pub color: JpegColor,
    pub format: PixelFormat,
    /// The bytes that the pixels take.
    pub total: usize,
}

/// Why a JPEG file is refused for which zune-jpeg has no room.
pub open spec fn layout_reason() -> Seq<char> {
    "unsupported sampling factors or components"@
}

/// How a JPEG file with these headers is decoded, or why it is not: the pixels and the
/// coefficients that zune-jpeg holds for the whole image count against the limit, and
/// zune-jpeg has room for the file.
pub open spec fn jpeg_planned(
    bytes: Seq<u8>,
    info: JpegInfo,
    max_side: u32,
    max_bytes: u64,
) -> Result<JpegPlan, GuardedErrorView> {
    let width = info.width as u32;
    let height = info.height as u32;
    let format = jpeg_format(info.color);
    let total = image_bytes(width, height, format.size());
    let coefficients = coefficients_of(
        bytes.take(info.scan_end as int),
        info.width,
        info.height,
        info.components,
        info.progressive,
    );
    if width > max_side || height > max_side {
        Err(GuardedErrorView::TooLarge { width, height })
    } else if total + coefficients > max_bytes || total > isize::MAX {
        Err(GuardedErrorView::TooLarge { width, height })
    } else if !decodable(bytes, info) {
        Err(GuardedErrorView::Decode(decoding_error_words(ImageKind::Jpeg, layout_reason())))
    } else {
        Ok(JpegPlan { width, height, color: info.color, format, total: total as usize })
    }
}

/// How a JPEG file is decoded, or why it is not.
pub open spec fn jpeg_plan_of(bytes: Seq<u8>, max_side: u32, max_bytes: u64) -> Result<
    JpegPlan,
    GuardedErrorView,
> {
    match jpeg_info_of(bytes) {
        Ok(info) => jpeg_planned(bytes, info, max_side, max_bytes),
        Err(e) => Err(GuardedErrorView::Decode(e)),
    }
}

/// How a JPEG file with these headers is decoded, or why it is not.
pub fn plan_jpeg(bytes: &[u8], info: &JpegInfo, max_side: u32, max_bytes: u64) -> (r: Result<
    JpegPlan,
    GuardedDecodeError,
>)
    requires
        info.scan_end <= bytes@.len(),
    ensures
        match jpeg_planned(bytes@, *info, max_side, max_bytes) {
            Ok(plan) => r matches Ok(v) && v == plan,
            Err(e) => r matches Err(err) && err@ == e,
        },
        r matches Ok(v) ==> v.total == image_bytes(v.width, v.height, v.format.size()) && v.total
            <= allocatable(max_bytes),
{
    let width: u32 = info.width as u32;
    let height: u32 = info.height as u32;
    if width > max_side || height > max_side {
        return Err(GuardedDecodeError::TooLarge { width, height });
    }
    let format: PixelFormat = match info.color {
        JpegColor::Luma => PixelFormat::L8,
        JpegColor::LumaAlpha => PixelFormat::La8,
        JpegColor::Rgba => PixelFormat::Rgba8,
        JpegColor::Ycbcr | JpegColor::Ycck | JpegColor::Other => PixelFormat::Rgb8,
    };
    let head: &[u8] = &bytes[0..info.scan_end];
    assert(head@ =~= bytes@.take(info.scan_end as int));
    let coefficients: u64 = coefficient_bytes(
        head,
        info.width,
        info.height,
        info.components,
        info.progressive,
    );
    match bounded_image_bytes(width, height, format.bytes_per_pixel(), max_bytes) {
        Some(total) => {
            if total as u128 + coefficients as u128 > max_bytes as u128 {
                return Err(GuardedDecodeError::TooLarge { width, height });
            }
            if !is_decodable(bytes, info) {
                let reason: String = "unsupported sampling factors or components".to_owned();
                return Err(
                    GuardedDecodeError::Decode(decoding_error_text(ImageKind::Jpeg, reason)),
                );
            }
            Ok(JpegPlan { width, height, color: info.color, format, total })
        },
        None => Err(GuardedDecodeError::TooLarge { width, height }),
    }
}

/// What becomes of a JPEG file.
pub open spec fn jpeg_result(bytes: Seq<u8>, max_side: u32, max_bytes: u64) -> Result<
    ImageView,
    GuardedErrorView,
> {
    match jpeg_plan_of(bytes, max_side, max_bytes) {
        Ok(p) => match jpeg_pixels_of(bytes, p.color, p.total as nat) {
            Ok(pixels) => Ok(
                ImageView { width: p.width, height: p.height, format: p.format, bytes: pixels },
            ),
            Err(e) => Err(GuardedErrorView::Decode(e)),
        },
        Err(e) => Err(e),
    }
}

/// Decodes a JPEG file within limits.
pub fn decode_jpeg(bytes: &[u8], max_side: u32, max_bytes: u64) -> (r: Result<
    DecodedImage,
    GuardedDecodeError,
>)
    ensures
        is_result(r, jpeg_result(bytes@, max_side, max_bytes)),
        r matches Ok(img) ==> img@.wf(),
{
    let info: JpegInfo = match read_jpeg_info(bytes) {
        Ok(info) => info,
        Err(e) => {
            return Err(GuardedDecodeError::Decode(jpeg_error_text(e)));
        },
    };
    let plan: JpegPlan = plan_jpeg(bytes, &info, max_side, max_bytes)?;
    match read_jpeg_pixels(bytes, plan.color, plan.total) {
        Ok(pixels) => Ok(
            DecodedImage {
                width: plan.width,
                height: plan.height,
                format: plan.format,
                bytes: pixels,
            },
        ),
        Err(e) => Err(GuardedDecodeError::Decode(jpeg_error_text(e))),
    }
}

/// Is an image within limits, with as many bytes as its pixels take?
pub open spec fn within(img: ImageView, max_side: u32, max_bytes: u64) -> bool {
    &&& img.wf()
    &&& img.width <= max_side
    &&& img.height <= max_side
    &&& img.bytes.len() <= max_bytes
}

proof fn samples_are_whole(area: int, format: PixelFormat)
    requires
        area >= 0,
    ensures
        (area * format.size()) % (format.sample_size() as int) == 0,
{
    let n = format.sample_size() as int;
    let c = format.size() as int / n;
    assert(format.size() == c * n);
    assert(area * (c * n) == (area * c) * n) by (nonlinear_arith);
    vstd::arithmetic::div_mod::lemma_mod_multiples_basic(area * c, n);
}

/// What a decoder says of a file before it decodes it: the size, the bytes of the decoded
/// pixels, and their format or why there is none for it.
#[derive(Debug)]
pub struct OtherInfo {
    pub width: u32,
    pub height: u32,
    pub total: u64,
    pub format: Result<PixelFormat, String>,
}

/// The model of an [`OtherInfo`].
pub struct OtherInfoView {
    pub width: u32,
    pub height: u32,
    pub total: u64,
    pub format: Result<PixelFormat, Seq<char>>,
}

impl View for OtherInfo {
    type V = OtherInfoView;

    open spec fn view(&self) -> OtherInfoView {
        OtherInfoView {
            width: self.width,
            height: self.height,
            total: self.total,
            format: match self.format {
                Ok(format) => Ok(format),
                Err(e) => Err(e@),
            },
        }
    }
}

/// The model of what a decoder says, or of the words of its error.
pub open spec fn other_info_view(info: Result<OtherInfo, String>) -> Result<
    OtherInfoView,
    Seq<char>,
> {
    match info {
        Ok(info) => Ok(info@),
        Err(e) => Err(e@),
    }
}

/// Are the dimensions in a file's header beyond `max_side`?
pub open spec fn oversize(dimensions: Option<(u32, u32)>, max_side: u32) -> bool {
    dimensions matches Some((width, height)) && (width > max_side || height > max_side)
}

/// Tests the dimensions in a file's header, where it has any.
pub fn check_dimensions(dimensions: Option<(u32, u32)>, max_side: u32) -> (r: Result<
    (),
    GuardedDecodeError,
>)
    ensures
        match r {
            Ok(_) => !oversize(dimensions, max_side),
            Err(e) => {
                &&& oversize(dimensions, max_side)
                &&& dimensions matches Some((width, height)) && e@ == (GuardedErrorView::TooLarge {
                    width,
                    height,
                })
            },
        },
{
    if let Some((width, height)) = dimensions {
        if width > max_side || height > max_side {
            return Err(GuardedDecodeError::TooLarge { width, height });
        }
    }
    Ok(())
}

/// The size and the format in which a file is decoded, or why it is not, given what its
/// decoder says.
pub open spec fn other_planned(info: Result<OtherInfoView, Seq<char>>, max_bytes: u64) -> Result<
    (u32, u32, PixelFormat),
    GuardedErrorView,
> {
    match info {
        Ok(info) => if info.total > allocatable(max_bytes) {
            Err(GuardedErrorView::TooLarge { width: info.width, height: info.height })
        } else {
            match info.format {
                Ok(format) => Ok((info.width, info.height, format)),
                Err(e) => Err(GuardedErrorView::Decode(e)),
            }
        },
        Err(e) => Err(GuardedErrorView::Decode(e)),
    }
}

/// The size and the format in which a file is decoded, or why it is not, given what its
/// decoder says.
pub fn plan_other(info: Result<OtherInfo, String>, max_bytes: u64) -> (r: Result<
    (u32, u32, PixelFormat),
    GuardedDecodeError,
>)
    ensures
        match other_planned(other_info_view(info), max_bytes) {
            Ok(plan) => r matches Ok(v) && v == plan,
            Err(e) => r matches Err(err) && err@ == e,
        },
{
    match info {
        Ok(info) => {
            if info.total > allocation_limit(max_bytes) {
                return Err(
                    GuardedDecodeError::TooLarge { width: info.width, height: info.height },
                );
            }
            match info.format {
                Ok(format) => Ok((info.width, info.height, format)),
                Err(e) => Err(GuardedDecodeError::Decode(e)),
            }
        },
        Err(e) => Err(GuardedDecodeError::Decode(e)),
    }
}

fn allocation_limit(max_bytes: u64) -> (r: u64)
    ensures
        r == allocatable(max_bytes),
{
    if max_bytes as u128 <= isize::MAX as u128 {
        max_bytes
    } else {
        isize::MAX as u64
    }
}

/// Can `r` be the image that a decoder's size, format and pixels make? It is where the
/// pixels are as many as the size asks for and within the limits. Samples are big-endian
/// there; those of a decoder are in the machine's order.
pub open spec fn is_other_image(
    width: u32,
    height: u32,
    format: PixelFormat,
    pixels: Seq<u8>,
    max_side: u32,
    max_bytes: u64,
    r: Result<DecodedImage, GuardedDecodeError>,
) -> bool {
    let total = image_bytes(width, height, format.size());
    if width <= max_side && height <= max_side && pixels.len() == total && total <= allocatable(
        max_bytes,
    ) {
        r matches Ok(img) && {
            &&& img.width == width && img.height == height && img.format == format
            &&& img.bytes@ == pixels || img.bytes@ == reversed_samples(
                pixels,
                format.sample_size(),
            )
            &&& format.sample_size() == 1 ==> img.bytes@ == pixels
        }
    } else {
        r matches Err(e) && e@ == (GuardedErrorView::TooLarge { width, height })
    }
}

/// The decoded image that a decoder's word and its pixels make: the pixels where they are
/// as many as its word says, with big-endian samples.
pub fn settle_other(
    width: u32,
    height: u32,
    format: PixelFormat,
    pixels: Vec<u8>,
    max_side: u32,
    max_bytes: u64,
) -> (r: Result<DecodedImage, GuardedDecodeError>)
    ensures
        is_other_image(width, height, format, pixels@, max_side, max_bytes, r),
        r matches Ok(img) ==> within(img@, max_side, max_bytes),
{
    if width > max_side || height > max_side {
        return Err(GuardedDecodeError::TooLarge { width, height });
    }
    match bounded_image_bytes(width, height, format.bytes_per_pixel(), max_bytes) {
        Some(total) => {
            if pixels.len() != total {
                return Err(GuardedDecodeError::TooLarge { width, height });
            }
            proof {
                samples_are_whole(width * height, format);
            }
            let size: usize = format.bytes_per_sample();
            let bytes: Vec<u8> = if size == 1 {
                pixels
            } else if size == 2 {
                big_endian_16(pixels)
            } else {
                big_endian_32(pixels)
            };
            Ok(DecodedImage { width, height, format, bytes })
        },
        None => {
            assert(pixels.len() <= usize::MAX);
            Err(GuardedDecodeError::TooLarge { width, height })
        },
    }
}

/// What the decoder of a file says of it.
fn read_info(bytes: &[u8], max_side: u32, max_bytes: u64) -> (r: Result<OtherInfo, String>)
    ensures
        is_info(other_info_view(r)),
{
    match read_other_info(bytes, max_side, max_bytes) {
        Ok((width, height, total, color)) => {
            let format: Result<PixelFormat, String> = match pixel_format(color) {
                Some(format) => Ok(format),
                None => Err(color_error_text(color)),
            };
            let info: OtherInfo = OtherInfo { width, height, total, format };
            assert(is_format(color, info@.format));
            Ok(info)
        },
        Err(e) => {
            let words: String = image_error_text(e);
            assert(words@ == image_error_words(e));
            Err(words)
        },
    }
}

/// Is this the pixel format of a color type, or the words with which there is none?
pub open spec fn is_format(
    color: image::ColorType,
    format: Result<PixelFormat, Seq<char>>,
) -> bool {
    format == match format_of(color) {
        Some(format) => Ok(format),
        None => Err(color_error_words(color)),
    }
}

/// Are these the words of an error of `image`?
pub open spec fn are_error_words(words: Seq<char>) -> bool {
    exists|e: image::ImageError| words == #[trigger] image_error_words(e)
}

/// Can a decoder of `image` say this? Its format is that of a color type, and its error one
/// of `image`.
pub open spec fn is_info(info: Result<OtherInfoView, Seq<char>>) -> bool {
    match info {
        Ok(info) => exists|color: image::ColorType| #[trigger] is_format(color, info.format),
        Err(words) => are_error_words(words),
    }
}

/// What the decoders that `image` has at the time make of a file: the dimensions that they
/// read, what they say of it, and its pixels. Each is read only where the one before it lets
/// the file pass.
pub struct OtherOutcome {
    pub dimensions: Option<(u32, u32)>,
    pub info: Result<OtherInfoView, Seq<char>>,
    pub pixels: Result<Seq<u8>, Seq<char>>,
}

/// Is `r` what comes of a file with this outcome?
pub open spec fn other_settled(
    o: OtherOutcome,
    max_side: u32,
    max_bytes: u64,
    r: Result<DecodedImage, GuardedDecodeError>,
) -> bool {
    if oversize(o.dimensions, max_side) {
        let (width, height) = o.dimensions->0;
        r matches Err(err) && err@ == (GuardedErrorView::TooLarge { width, height })
    } else {
        match other_planned(o.info, max_bytes) {
            Ok((width, height, format)) => match o.pixels {
                Ok(pixels) => is_other_image(
                    width,
                    height,
                    format,
                    pixels,
                    max_side,
                    max_bytes,
                    r,
                ),
                Err(words) => r matches Err(err) && err@ == GuardedErrorView::Decode(words),
            },
            Err(e) => r matches Err(err) && err@ == e,
        }
    }
}

/// Can the decoders of `image` give this outcome of a file? Of a file whose format is not
/// known they read no dimensions.
pub open spec fn other_outcome_ok(bytes: Seq<u8>, o: OtherOutcome) -> bool {
    &&& dimensions_ok(bytes, o.dimensions)
    &&& is_info(o.info)
    &&& o.pixels matches Err(words) ==> are_error_words(words)
}

/// Can `r` come of a file of another format than PNG and JPEG?
pub open spec fn other_decoded(
    bytes: Seq<u8>,
    max_side: u32,
    max_bytes: u64,
    r: Result<DecodedImage, GuardedDecodeError>,
) -> bool {
    exists|o: OtherOutcome|
        other_outcome_ok(bytes, o) && #[trigger] other_settled(o, max_side, max_bytes, r)
}

/// Decodes a file of another format within limits.
///
/// Which formats there are, and what they decode to, is up to the decoders that `image` has
/// at the time. What is returned for each of their answers is [`other_settled`], which
/// [`check_dimensions`], [`plan_other`] and [`settle_other`] decide.
pub fn decode_other(bytes: &[u8], max_side: u32, max_bytes: u64) -> (r: Result<
    DecodedImage,
    GuardedDecodeError,
>)
    ensures
        other_decoded(bytes@, max_side, max_bytes, r),
        r matches Ok(img) ==> within(img@, max_side, max_bytes),
{
    let dimensions: Option<(u32, u32)> = header_dimensions(bytes);
    let ghost unread = Err::<OtherInfoView, Seq<char>>(image_error_words(arbitrary()));
    let ghost mut o = OtherOutcome { dimensions, info: unread, pixels: Ok(seq![]) };
    if let Err(e) = check_dimensions(dimensions, max_side) {
        let r: Result<DecodedImage, GuardedDecodeError> = Err(e);
        assert(other_settled(o, max_side, max_bytes, r));
        return r;
    }
    let info: Result<OtherInfo, String> = read_info(bytes, max_side, max_bytes);
    proof {
        o = OtherOutcome { info: other_info_view(info), ..o };
    }
    let (width, height, format) = match plan_other(info, max_bytes) {
        Ok(plan) => plan,
        Err(e) => {
            let r: Result<DecodedImage, GuardedDecodeError> = Err(e);
            assert(other_settled(o, max_side, max_bytes, r));
            return r;
        },
    };
    match read_other_pixels(bytes, max_side, allocation_limit(max_bytes)) {
        Ok(pixels) => {
            proof {
                o = OtherOutcome { pixels: Ok(pixels@), ..o };
            }
            let r: Result<DecodedImage, GuardedDecodeError> = settle_other(
                width,
                height,
                format,
                pixels,
                max_side,
                max_bytes,
            );
            assert(other_settled(o, max_side, max_bytes, r));
            r
        },
        Err(e) => {
            proof {
                o = OtherOutcome { pixels: Err(image_error_words(e)), ..o };
            }
            let r: Result<DecodedImage, GuardedDecodeError> = Err(
                GuardedDecodeError::Decode(image_error_text(e)),
            );
            assert(other_settled(o, max_side, max_bytes, r));
            r
        },
    }
}

/// Can `r` come of decoding this file within these limits? What comes of a PNG or JPEG file
/// is fixed; what comes of another is what the decoders that `image` has make of it.
pub open spec fn guarded(
    bytes: Seq<u8>,
    max_side: u32,
    max_bytes: u64,
    r: Result<DecodedImage, GuardedDecodeError>,
) -> bool {
    match image_kind(bytes) {
        Some(ImageKind::Png) => is_result(r, png_result(bytes, max_side, max_bytes)),
        Some(ImageKind::Jpeg) => is_result(r, jpeg_result(bytes, max_side, max_bytes)),
        _ => other_decoded(bytes, max_side, max_bytes, r),
    }
}

/// Decodes an image file whose sides are at most `max_side` and whose decoding takes at
/// most `max_bytes`: the pixels in the file's own format, and the coefficients that
/// zune-jpeg holds for a whole image. That is tested before pixels are decoded.
pub fn decode_guarded(bytes: &[u8], max_side: u32, max_bytes: u64) -> (r: Result<
    DecodedImage,
    GuardedDecodeError,
>)
    ensures
        guarded(bytes@, max_side, max_bytes, r),
        r matches Ok(img) ==> img@.wf(),
{
    match guess_kind(bytes) {
        Some(ImageKind::Png) => decode_png(bytes, max_side, max_bytes),
        Some(ImageKind::Jpeg) => decode_jpeg(bytes, max_side, max_bytes),
        _ => decode_other(bytes, max_side, max_bytes),
    }
}

/// The dimensions in the header of a PNG or JPEG file.
pub open spec fn dimensions_of(bytes: Seq<u8>, kind: ImageKind) -> Option<(u32, u32)> {
    match kind {
        ImageKind::Png => match png_header_of(bytes, DEFAULT_PNG_LIMIT as nat) {
            Ok(h) => Some((h.width, h.height)),
            Err(_) => None,
        },
        ImageKind::Jpeg => match jpeg_info_of(bytes) {
            Ok(info) => Some((info.width as u32, info.height as u32)),
            Err(_) => None,
        },
        ImageKind::Other => None,
    }
}

/// Can `r` be the dimensions in the header of this file? Those of another format than PNG
/// and JPEG are up to the decoders that `image` has at the time.
pub open spec fn dimensions_ok(bytes: Seq<u8>, r: Option<(u32, u32)>) -> bool {
    match image_kind(bytes) {
        Some(ImageKind::Other) => true,
        Some(kind) => r == dimensions_of(bytes, kind),
        None => r is None,
    }
}

/// The dimensions in the header of an image file. No pixels are decoded, and no limits
/// hold.
pub fn header_dimensions(bytes: &[u8]) -> (r: Option<(u32, u32)>)
    ensures
        dimensions_ok(bytes@, r),
{
    match guess_kind(bytes) {
        Some(ImageKind::Png) => match read_png_header(bytes, DEFAULT_PNG_LIMIT) {
            Ok(h) => Some((h.width, h.height)),
            Err(_) => None,
        },
        Some(ImageKind::Jpeg) => match read_jpeg_info(bytes) {
            Ok(info) => Some((info.width as u32, info.height as u32)),
            Err(_) => None,
        },
        Some(ImageKind::Other) => read_other_dimensions(bytes),
        None => None,
    }
}

/// Why an imported image is no tip.
#[derive(Debug)]
pub enum TipImageError {
    /// The bytes did not decode, a PNG file has an `eXIf` chunk over 64 KiB before its
    /// pixels, or a JPEG file has sampling factors that zune-jpeg has no room for.
    Decode(String),
    /// A side over [`MAX_IMPORT_DIMENSION`], or a decode over
    /// [`MAX_IMPORT_DECODED_BYTES`]: the pixels in the file's own format, and the
    /// coefficients of a progressive JPEG file or of a baseline one whose first scan
    /// leaves out a component.
    TooLarge { width: u32, height: u32 },
}

impl TipImageError {
    /// The error in words.
    pub open spec fn message_text(self) -> Seq<char> {
        match self {
            TipImageError::Decode(reason) => reason@,
            TipImageError::TooLarge { width, height } => "image is "@ + decimal(width as nat)
                + "x"@ + decimal(height as nat) + "px; a brush tip must be at most "@ + decimal(
                MAX_IMPORT_DIMENSION as nat,
            ) + "px per side and "@ + decimal(MAX_IMPORT_DECODED_BYTES as nat / 0x10_0000)
                + " MiB to decode"@,
        }
    }

    /// The error in words.
    pub fn message(&self) -> (r: String)
        ensures
            r@ == self.message_text(),
    {
        match self {
            TipImageError::Decode(reason) => reason.clone(),
            TipImageError::TooLarge { width, height } => {
                let mut m: String = "image is ".to_owned();
                push_decimal(&mut m, *width as u64);
                m.append("x");
                push_decimal(&mut m, *height as u64);
                m.append("px; a brush tip must be at most ");
                push_decimal(&mut m, MAX_IMPORT_DIMENSION as u64);
                m.append("px per side and ");
                push_decimal(&mut m, MAX_IMPORT_DECODED_BYTES / 0x10_0000);
                m.append(" MiB to decode");
                m
            },
        }
    }
}

/// Is `r` what becomes of a decoded image, or of the error that came instead?
pub open spec fn tip_image_of(
    decoded: Result<DecodedImage, GuardedDecodeError>,
    r: Result<GrayscaleBitmap, TipImageError>,
) -> bool {
    match decoded {
        Ok(img) => r matches Ok(b) && b@ == (BitmapView {
            width: img.width,
            height: img.height,
            data: plane_of(img.format, img.bytes@, TipSample::Coverage),
        }),
        Err(GuardedDecodeError::TooLarge { width, height }) => r == Err::<
            GrayscaleBitmap,
            TipImageError,
        >(TipImageError::TooLarge { width, height }),
        Err(GuardedDecodeError::Decode(reason)) => r matches Err(TipImageError::Decode(m)) && m@
            == reason@,
    }
}

/// The tip of a decoded image: its coverage.
pub fn tip_image(decoded: Result<DecodedImage, GuardedDecodeError>) -> (r: Result<
    GrayscaleBitmap,
    TipImageError,
>)
    ensures
        tip_image_of(decoded, r),
{
    match decoded {
        Ok(img) => {
            let width: u32 = img.width;
            let height: u32 = img.height;
            Ok(GrayscaleBitmap { width, height, data: tip_plane(img, TipSample::Coverage) })
        },
        Err(GuardedDecodeError::TooLarge { width, height }) => Err(
            TipImageError::TooLarge { width, height },
        ),
        Err(GuardedDecodeError::Decode(reason)) => Err(TipImageError::Decode(reason)),
    }
}

/// An image file as a tip: the alpha where there is one, else the inverted luma.
pub fn decode_tip_image(bytes: &[u8]) -> (r: Result<GrayscaleBitmap, TipImageError>)
    ensures
        exists|decoded: Result<DecodedImage, GuardedDecodeError>|
            guarded(bytes@, MAX_IMPORT_DIMENSION, MAX_IMPORT_DECODED_BYTES, decoded)
                && tip_image_of(decoded, r),
        r matches Ok(b) ==> b@.wf(),
{
    let decoded: Result<DecodedImage, GuardedDecodeError> = decode_guarded(
        bytes,
        MAX_IMPORT_DIMENSION,
        MAX_IMPORT_DECODED_BYTES,
    );
    let ghost first = decoded;
    let r: Result<GrayscaleBitmap, TipImageError> = tip_image(decoded);
    proof {
        assert(guarded(bytes@, MAX_IMPORT_DIMENSION, MAX_IMPORT_DECODED_BYTES, first)
            && tip_image_of(first, r));
        if let Ok(img) = first {
            plane_is_sized(img@);
        }
    }
    r
}

/// A plane has as many bytes as there are pixels.
pub proof fn plane_is_sized(img: ImageView)
    requires
        img.wf(),
    ensures
        plane_of(img.format, img.bytes, TipSample::Coverage).len() == img.width * img.height,
        plane_of(img.format, img.bytes, TipSample::Luma).len() == img.width * img.height,
{
    let area = img.width * img.height;
    let size = img.format.size();
    assert(img.bytes.len() / size == area) by (nonlinear_arith)
        requires
            img.bytes.len() == area * size,
            size > 0,
    ;
}

} // verus!
