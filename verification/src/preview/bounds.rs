//! The limits that the image of a tip is decoded within.
use vstd::prelude::*;
use crate::preview::codec::{jpeg_info_of, png_header_of};
use crate::preview::decode::{
    addressable, jpeg_format, jpeg_result, png_result, GuardedErrorView, ImageView,
};

verus! {

/// Is this the answer to an image that is too large: its own size?
pub open spec fn is_too_large(
    r: Result<ImageView, GuardedErrorView>,
    width: int,
    height: int,
) -> bool {
    &&& r is Err
    &&& r->Err_0 is TooLarge
    &&& r->Err_0->width == width
    &&& r->Err_0->height == height
}

/// A PNG file with a side that is too long, or with too many bytes of pixels, is refused with
/// its size. One that is decoded has the size in its header and is within the limits.
pub proof fn a_large_png_is_refused(bytes: Seq<u8>, max_side: u32, max_bytes: u64)
    requires
        png_header_of(bytes, addressable(max_bytes)) is Ok,
    ensures
        ({
            let h = png_header_of(bytes, addressable(max_bytes))->Ok_0;
            let r = png_result(bytes, max_side, max_bytes);
            &&& h.width > max_side ==> is_too_large(r, h.width as int, h.height as int)
            &&& h.height > max_side ==> is_too_large(r, h.width as int, h.height as int)
            &&& h.width * h.height * h.bytes_per_pixel > max_bytes ==> is_too_large(
                r,
                h.width as int,
                h.height as int,
            )
            &&& r matches Ok(img) ==> {
                &&& img.width == h.width <= max_side
                &&& img.height == h.height <= max_side
                &&& img.width * img.height * img.format.size() <= max_bytes
            }
        }),
{
}

/// A JPEG file with a side that is too long, or with too many bytes of pixels, is refused with
/// its size. One that is decoded has the size in its header and is within the limits.
pub proof fn a_large_jpeg_is_refused(bytes: Seq<u8>, max_side: u32, max_bytes: u64)
    requires
        jpeg_info_of(bytes) is Ok,
    ensures
        ({
            let info = jpeg_info_of(bytes)->Ok_0;
            let r = jpeg_result(bytes, max_side, max_bytes);
            &&& info.width > max_side ==> is_too_large(r, info.width as int, info.height as int)
            &&& info.height > max_side ==> is_too_large(r, info.width as int, info.height as int)
            &&& info.width * info.height > max_bytes ==> is_too_large(
                r,
                info.width as int,
                info.height as int,
            )
            &&& r matches Ok(img) ==> {
                &&& img.width == info.width
                &&& img.height == info.height
                &&& img.width <= max_side && img.height <= max_side
                &&& img.width * img.height * img.format.size() <= max_bytes
            }
        }),
{
    let info = jpeg_info_of(bytes)->Ok_0;
    let area = info.width * info.height;
    let size = jpeg_format(info.color).size() as int;
    assert(area * size >= area) by (nonlinear_arith)
        requires
            size >= 1,
            area >= 0,
    ;
}

} // verus!
