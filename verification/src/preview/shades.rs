//! What the pixels of tips, thumbnails and imported images stand for.
use vstd::prelude::*;
use crate::abr::types::TipView;
use crate::fixture::be16;
use crate::preview::bitmap::{
    downsampled, grayscale_of, larger, tip_of_bitmap, BitmapView, GrayscaleBitmap,
};
use crate::preview::codec::{pixel_at, pixel_luma, png_file_of, PixelFormat, PngLayout};
use crate::preview::decode::{
    plane_is_sized, plane_of, sample_of, tip_image_of, DecodedImage, GuardedDecodeError,
    TipImageError, TipSample,
};
use crate::preview::entry::{budgeted, Budget, TipState, MAX_PREVIEW_BYTES};
use crate::preview::procreate::{shape_of, ShapePngError};
use crate::preview::thumbnail::{black_ink, thumbnail_of};

verus! {

/// Samples of 16 bits, the most significant byte first.
pub open spec fn wide_samples(samples: Seq<u16>) -> Seq<u8> {
    Seq::new(
        2 * samples.len(),
        |i: int|
            if i % 2 == 0 {
                (samples[i / 2] / 0x100) as u8
            } else {
                (samples[i / 2] % 0x100) as u8
            },
    )
}

/// The gray of a tip of 16 bits is each sample's high byte, and that of one of 8 bits its
/// samples.
pub proof fn gray_is_the_high_byte(tip: TipView, samples: Seq<u16>)
    ensures
        grayscale_of(tip).width == tip.width,
        grayscale_of(tip).height == tip.height,
        tip.depth == 8 ==> grayscale_of(tip).data == tip.data,
        tip.depth == 16 && tip.data == wide_samples(samples) ==> {
            &&& grayscale_of(tip).data.len() == samples.len()
            &&& forall|i: int|
                0 <= i < samples.len() ==> #[trigger] grayscale_of(tip).data[i] == samples[i]
                    / 0x100
        },
{
    if tip.depth == 16 && tip.data == wide_samples(samples) {
        assert forall|i: int| 0 <= i < samples.len() implies #[trigger] grayscale_of(tip).data[i]
            == samples[i] / 0x100 by {
            assert((2 * i) / 2 == i && (2 * i) % 2 == 0);
        }
    }
}

/// A tip that is no larger than a cell stands in a preview as it is, where the preview may hold
/// it; one without pixels is unavailable.
pub proof fn a_small_tip_is_previewed_as_it_is(budget: Budget, bitmap: BitmapView, max_cell: u32)
    requires
        bitmap.wf(),
        budget.held <= 256 * 1024 * 1024,
    ensures
        ({
            let (tip, after) = budgeted(budget, bitmap, max_cell);
            &&& bitmap.width == 0 || bitmap.height == 0 ==> tip is Unavailable && after == budget
            &&& 0 < bitmap.width <= max_cell && 0 < bitmap.height <= max_cell && budget.held
                + bitmap.data.len() <= MAX_PREVIEW_BYTES ==> {
                &&& tip == TipState::Available(bitmap)
                &&& after.held == budget.held + bitmap.data.len()
                &&& after.over == budget.over
            }
            &&& 0 < bitmap.width <= max_cell && 0 < bitmap.height <= max_cell && budget.held
                + bitmap.data.len() > MAX_PREVIEW_BYTES ==> {
                &&& tip is Unavailable
                &&& after.held == budget.held
                &&& after.over
            }
        }),
{
}

/// A thumbnail is black, with the gray of the scaled tip as alpha: of pixel `i` the first three
/// bytes are 0, and the fourth is the gray.
pub proof fn a_thumbnail_is_black_ink(b: BitmapView, pixels: Seq<u8>)
    requires
        ({
            let small = downsampled(b, 200);
            &&& pixels.len() == 4 * (small.width * small.height)
            &&& forall|i: int|
                0 <= i < small.width * small.height ==> {
                    &&& pixels[4 * i] == 0
                    &&& pixels[4 * i + 1] == 0
                    &&& pixels[4 * i + 2] == 0
                    &&& pixels[4 * i + 3] == #[trigger] small.data[i]
                }
        }),
    ensures
        ({
            let small = downsampled(b, 200);
            match png_file_of(PngLayout::Rgba, small.width, small.height, pixels) {
                Ok(file) => thumbnail_of(b) == Ok::<Seq<u8>, Seq<char>>(file),
                Err(_) => thumbnail_of(b) is Err,
            }
        }),
{
    let small = downsampled(b, 200);
    let ink = black_ink(small);
    assert forall|k: int| 0 <= k < ink.len() implies ink[k] == pixels[k] by {
        let i = k / 4;
        assert(small.data[i] == pixels[4 * i + 3]);
        assert(k == 4 * i + k % 4);
    }
    assert(ink =~= pixels);
}

/// The bytes of a pixel.
pub open spec fn bytes_of(format: PixelFormat) -> int {
    match format {
        PixelFormat::L8 => 1,
        PixelFormat::La8 => 2,
        PixelFormat::Rgb8 => 3,
        PixelFormat::Rgba8 => 4,
        _ => 0,
    }
}

/// The tip of an imported image is its alpha where it has one, and else its luma turned round:
/// black is full ink.
pub proof fn an_image_is_a_tip_by_alpha_or_darkness(
    img: DecodedImage,
    r: Result<GrayscaleBitmap, TipImageError>,
)
    requires
        img@.wf(),
        tip_image_of(Ok(img), r),
    ensures
        r is Ok,
        ({
            let b = r->Ok_0@;
            let n = bytes_of(img.format);
            &&& b.width == img.width
            &&& b.height == img.height
            &&& b.data.len() == img.width * img.height
            &&& forall|i: int|
                0 <= i < b.data.len() ==> {
                    &&& img.format == PixelFormat::L8 ==> #[trigger] b.data[i] == 255 - img.bytes@[i]
                    &&& img.format == PixelFormat::La8 ==> b.data[i] == img.bytes@[2 * i + 1]
                    &&& img.format == PixelFormat::Rgba8 ==> b.data[i] == img.bytes@[4 * i + 3]
                    &&& img.format == PixelFormat::Rgb8 ==> b.data[i] == 255 - pixel_luma(
                        img.format,
                        img.bytes@.subrange(3 * i, 3 * i + 3),
                    )
                }
        }),
{
    plane_is_sized(img@);
    let b = r->Ok_0@;
    assert(b.data == plane_of(img.format, img.bytes@, TipSample::Coverage));
    assert forall|i: int| 0 <= i < b.data.len() implies {
        &&& img.format == PixelFormat::L8 ==> #[trigger] b.data[i] == 255 - img.bytes@[i]
        &&& img.format == PixelFormat::La8 ==> b.data[i] == img.bytes@[2 * i + 1]
        &&& img.format == PixelFormat::Rgba8 ==> b.data[i] == img.bytes@[4 * i + 3]
        &&& img.format == PixelFormat::Rgb8 ==> b.data[i] == 255 - pixel_luma(
            img.format,
            img.bytes@.subrange(3 * i, 3 * i + 3),
        )
    } by {
        pixel_is_inside(img, i);
        assert(b.data[i] == sample_of(
            img.format,
            pixel_at(img.format, img.bytes@, i),
            TipSample::Coverage,
        ));
    }
}

proof fn pixel_is_inside(img: DecodedImage, i: int)
    requires
        img@.wf(),
        0 <= i < img.width * img.height,
    ensures
        bytes_of(img.format) > 0 ==> {
            let n = bytes_of(img.format);
            &&& n * i + n <= img.bytes@.len()
            &&& pixel_at(img.format, img.bytes@, i) == img.bytes@.subrange(n * i, n * i + n)
        },
{
    let n = bytes_of(img.format);
    let area = img.width * img.height;
    if n > 0 {
        assert(img.format.size() == n);
        assert(n * i + n <= area * n) by (nonlinear_arith)
            requires
                i + 1 <= area,
                n > 0,
        ;
        assert(i * n == n * i && (i + 1) * n == n * i + n) by (nonlinear_arith);
    }
}

/// The tip of a shape is its luma: white is full ink.
pub proof fn a_shape_is_a_tip_by_lightness(
    img: DecodedImage,
    r: Result<GrayscaleBitmap, ShapePngError>,
)
    requires
        img@.wf(),
        shape_of(Ok(img), r),
    ensures
        r is Ok,
        ({
            let b = r->Ok_0@;
            &&& b.width == img.width
            &&& b.height == img.height
            &&& b.data.len() == img.width * img.height
            &&& img.format == PixelFormat::L8 ==> forall|i: int|
                0 <= i < b.data.len() ==> #[trigger] b.data[i] == img.bytes@[i]
            &&& img.format == PixelFormat::Rgb8 ==> forall|i: int|
                0 <= i < b.data.len() ==> #[trigger] b.data[i] == pixel_luma(
                    img.format,
                    img.bytes@.subrange(3 * i, 3 * i + 3),
                )
            &&& img.format == PixelFormat::Rgba8 ==> forall|i: int|
                0 <= i < b.data.len() ==> #[trigger] b.data[i] == pixel_luma(
                    img.format,
                    img.bytes@.subrange(4 * i, 4 * i + 4),
                )
        }),
{
    plane_is_sized(img@);
    let b = r->Ok_0@;
    assert(b.data == plane_of(img.format, img.bytes@, TipSample::Luma));
    assert forall|i: int| 0 <= i < b.data.len() implies #[trigger] b.data[i] == sample_of(
        img.format,
        pixel_at(img.format, img.bytes@, i),
        TipSample::Luma,
    ) by {}
    assert forall|i: int| 0 <= i < b.data.len() implies {
        &&& img.format == PixelFormat::L8 ==> #[trigger] b.data[i] == img.bytes@[i]
        &&& img.format == PixelFormat::Rgb8 ==> b.data[i] == pixel_luma(
            img.format,
            img.bytes@.subrange(3 * i, 3 * i + 3),
        )
        &&& img.format == PixelFormat::Rgba8 ==> b.data[i] == pixel_luma(
            img.format,
            img.bytes@.subrange(4 * i, 4 * i + 4),
        )
    } by {
        pixel_is_inside(img, i);
    }
}

} // verus!
