//! Thumbnails of tips.
use vstd::prelude::*;
use crate::preview::bitmap::{
    downsample, downsampled, downsampled_fits, BitmapView, GrayscaleBitmap,
};
use crate::preview::codec::{encode_png, png_file_of, PngLayout};

verus! {

/// The longer side of a thumbnail at most.
pub const THUMBNAIL_SIDE: u32 = 200;

/// The pixels of a bitmap in black, with its gray as alpha.
pub open spec fn black_ink(b: BitmapView) -> Seq<u8> {
    Seq::new(
        (4 * (b.width * b.height)) as nat,
        |i: int|
            if i % 4 == 3 {
                b.data[i / 4]
            } else {
                0
            },
    )
}

/// The PNG file of the thumbnail of a bitmap, or why there is none.
pub open spec fn thumbnail_of(b: BitmapView) -> Result<Seq<u8>, Seq<char>> {
    let small = downsampled(b, THUMBNAIL_SIDE);
    match png_file_of(PngLayout::Rgba, small.width, small.height, black_ink(small)) {
        Ok(file) => Ok(file),
        Err(e) => Err("thumbnail encoding failed: "@ + e),
    }
}

/// The thumbnail of a bitmap as a PNG file: black ink, the gray as alpha.
pub fn generate_preview_png(bitmap: &GrayscaleBitmap) -> (r: Result<Vec<u8>, String>)
    requires
        bitmap@.width * bitmap@.height <= bitmap@.data.len(),
    ensures
        match thumbnail_of(bitmap@) {
            Ok(file) => r matches Ok(v) && v@ == file,
            Err(e) => r matches Err(m) && m@ == e,
        },
{
    let small: GrayscaleBitmap = downsample(bitmap, THUMBNAIL_SIDE);
    proof {
        downsampled_fits(bitmap@, THUMBNAIL_SIDE);
        assert(small.width * small.height <= 40_000) by (nonlinear_arith)
            requires
                small.width <= 200,
                small.height <= 200,
        ;
    }
    let n: usize = (small.width * small.height) as usize;
    let mut pixels: Vec<u8> = Vec::with_capacity(4 * n);
    let mut i: usize = 0;
    while i < n
        invariant
            i <= n,
            n <= 40_000,
            n == small@.width * small@.height,
            n <= small@.data.len(),
            pixels@.len() == 4 * i,
            forall|k: int| 0 <= k < 4 * i ==> pixels@[k] == #[trigger] black_ink(small@)[k],
        decreases n - i,
    {
        pixels.push(0);
        pixels.push(0);
        pixels.push(0);
        pixels.push(small.data[i]);
        i += 1;
    }
    assert(pixels@ =~= black_ink(small@));
    assert(small.width * small.height * 4 == 4 * (small.width * small.height));
    match encode_png(PngLayout::Rgba, small.width, small.height, pixels) {
        Ok(file) => Ok(file),
        Err(e) => {
            let mut m: String = "thumbnail encoding failed: ".to_owned();
            m.append(e.as_str());
            Err(m)
        },
    }
}

} // verus!
