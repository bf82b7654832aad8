//! Tip bitmaps of `samp` entries: where one stands, how large it is, and its pixels.
//!
//! A bitmap is a rectangle (top, left, bottom, right), a depth, a compression and the
//! pixels: raw, PackBits rows or a zlib stream.
use vstd::prelude::*;
use crate::abr::limits::{MAX_DIMENSION, MAX_TIP_DECODED_BYTES};
use crate::abr::rle::{decode_rle, rle_length_is_exact, rle_of};
use crate::abr::types::{AbrError, AbrErrorView, TipBitmap, TipView};
use crate::support::bytes::copy_bytes;
use crate::support::text::{decimal, push_decimal};
use std::io::Read;

verus! {

/// The bytes between the start of the rectangle and the first pixel.
pub const HEADER_LEN: usize = 19;

/// The header of a bitmap and where in its entry it stands.
#[derive(Debug, Clone, Copy, PartialEq, Eq, Structural)]
pub struct BitmapHeader {
    pub rect_offset: usize,
    pub top: i32,
    pub left: i32,
    pub bottom: i32,
    pub right: i32,
    pub depth: u8,
    pub compression: u8,
}

impl BitmapHeader {
    /// The sides are those of a rectangle that a tip may have.
    pub open spec fn wf(self) -> bool {
        &&& self.rect_offset + HEADER_LEN <= usize::MAX
        &&& 0 <= self.right - self.left <= MAX_DIMENSION
        &&& 0 <= self.bottom - self.top <= MAX_DIMENSION
    }

    pub open spec fn width(self) -> u32 {
        (self.right - self.left) as u32
    }

    pub open spec fn height(self) -> u32 {
        (self.bottom - self.top) as u32
    }
}

/// The error of a broken entry.
pub open spec fn broken(reason: Seq<char>) -> AbrErrorView {
    AbrErrorView::MalformedBlock { offset: 0, reason }
}

/// The error of a broken entry at `offset`.
pub fn entry_err(offset: u64, reason: &str) -> (r: AbrError)
    ensures
        r@ == (AbrErrorView::MalformedBlock { offset, reason: reason@ }),
{
    AbrError::MalformedBlock { offset, reason: reason.to_owned() }
}

pub open spec fn too_short(have: nat, expected: nat, width: u32, height: u32, depth: u8) -> Seq<
    char,
> {
    "pixel data too short: "@ + decimal(have) + " bytes, expected "@ + decimal(expected) + " ("@
        + decimal(width as nat) + "x"@ + decimal(height as nat) + "x"@ + decimal(depth as nat)
        + "bit)"@
}

fn too_short_error(have: usize, expected: usize, width: u32, height: u32, depth: u8) -> (r:
    AbrError)
    ensures
        r@ == broken(too_short(have as nat, expected as nat, width, height, depth)),
{
    let mut m: String = "pixel data too short: ".to_owned();
    push_decimal(&mut m, have as u64);
    m.append(" bytes, expected ");
    push_decimal(&mut m, expected as u64);
    m.append(" (");
    push_decimal(&mut m, width as u64);
    m.append("x");
    push_decimal(&mut m, height as u64);
    m.append("x");
    push_decimal(&mut m, depth as u64);
    m.append("bit)");
    AbrError::MalformedBlock { offset: 0, reason: m }
}

pub open spec fn unknown_compression(compression: u8) -> Seq<char> {
    "unknown compression "@ + decimal(compression as nat)
}

fn unknown_compression_error(compression: u8) -> (r: AbrError)
    ensures
        r@ == broken(unknown_compression(compression)),
{
    let mut m: String = "unknown compression ".to_owned();
    push_decimal(&mut m, compression as u64);
    AbrError::MalformedBlock { offset: 0, reason: m }
}

/// The bytes that the pixels of a bitmap take.
pub open spec fn pixel_bytes(width: u32, height: u32, depth: u8) -> nat {
    (width * height * (depth / 8)) as nat
}

/// The bytes that the pixels of a bitmap take, where a tip may have so many.
pub fn bounded_pixel_bytes(width: u32, height: u32, depth: u8) -> (r: Option<usize>)
    ensures
        r == (if pixel_bytes(width, height, depth) <= MAX_TIP_DECODED_BYTES {
            Some(pixel_bytes(width, height, depth) as usize)
        } else {
            None
        }),
{
    proof {
        assert(width * height <= 0xFFFF_FFFF * 0xFFFF_FFFF) by (nonlinear_arith)
            requires
                0 <= width <= 0xFFFF_FFFF,
                0 <= height <= 0xFFFF_FFFF,
        ;
    }
    let area: u64 = width as u64 * height as u64;
    proof {
        assert(area * (depth / 8) <= 0xFFFF_FFFF_FFFF_FFFF * 31) by (nonlinear_arith)
            requires
                0 <= area <= 0xFFFF_FFFF_FFFF_FFFF,
                0 <= depth / 8 <= 31,
        ;
    }
    let bytes: u128 = area as u128 * (depth / 8) as u128;
    if bytes <= MAX_TIP_DECODED_BYTES as u128 {
        Some(bytes as usize)
    } else {
        None
    }
}

/// The size of a bitmap and where its pixels stand.
#[derive(Debug, Clone, Copy, PartialEq, Eq, Structural)]
pub struct BitmapGeometry {
    pub width: u32,
    pub height: u32,
    pub pixel_start: usize,
    /// The bytes that the pixels take.
    pub expected: usize,
}

pub open spec fn geometry_of(d: Seq<u8>, h: BitmapHeader) -> Result<BitmapGeometry, AbrErrorView> {
    let start = h.rect_offset + HEADER_LEN;
    let expected = pixel_bytes(h.width(), h.height(), h.depth);
    if start >= d.len() {
        Err(broken("bitmap header extends past data end"@))
    } else if expected > MAX_TIP_DECODED_BYTES {
        Err(broken("bitmap byte size out of range"@))
    } else if h.compression == 0 && d.len() - start < expected {
        Err(
            broken(
                too_short((d.len() - start) as nat, expected, h.width(), h.height(), h.depth),
            ),
        )
    } else if h.compression > 2 {
        Err(broken(unknown_compression(h.compression)))
    } else {
        Ok(
            BitmapGeometry {
                width: h.width(),
                height: h.height(),
                pixel_start: start as usize,
                expected: expected as usize,
            },
        )
    }
}

pub fn bitmap_geometry(data: &[u8], header: &BitmapHeader) -> (r: Result<BitmapGeometry, AbrError>)
    requires
        header.wf(),
    ensures
        match r {
            Ok(g) => geometry_of(data@, *header) == Ok::<BitmapGeometry, AbrErrorView>(g),
            Err(e) => geometry_of(data@, *header) == Err::<BitmapGeometry, AbrErrorView>(e@),
        },
{
    let width: u32 = (header.right - header.left) as u32;
    let height: u32 = (header.bottom - header.top) as u32;
    let pixel_start: usize = header.rect_offset + HEADER_LEN;
    if pixel_start >= data.len() {
        return Err(entry_err(0, "bitmap header extends past data end"));
    }
    let available: usize = data.len() - pixel_start;
    let expected: usize = match bounded_pixel_bytes(width, height, header.depth) {
        Some(n) => n,
        None => {
            return Err(entry_err(0, "bitmap byte size out of range"));
        },
    };
    if header.compression == 0 && available < expected {
        return Err(too_short_error(available, expected, width, height, header.depth));
    }
    if header.compression > 2 {
        return Err(unknown_compression_error(header.compression));
    }
    Ok(BitmapGeometry { width, height, pixel_start, expected })
}

/// At most `limit` bytes from the front of the data that a zlib stream holds, or the
/// words of the error that comes before so many are inflated.
pub uninterp spec fn zlib_front(stream: Seq<u8>, limit: nat) -> Result<Seq<u8>, Seq<char>>;

/// `flate2::read::ZlibDecoder`, read to its end behind `Read::take(limit)`: what comes
/// depends on the stream and the limit alone, and is no longer than the limit.
#[verifier::external_body]
fn inflate(stream: &[u8], limit: u64) -> (r: Result<Vec<u8>, String>)
    ensures
        match r {
            Ok(v) => zlib_front(stream@, limit as nat) == Ok::<Seq<u8>, Seq<char>>(v@)
                && v@.len() <= limit,
            Err(e) => zlib_front(stream@, limit as nat) == Err::<Seq<u8>, Seq<char>>(e@),
        },
{
    let mut buf = Vec::new();
    match flate2::read::ZlibDecoder::new(stream).take(limit).read_to_end(&mut buf) {
        Ok(_) => Ok(buf),
        Err(e) => Err(e.to_string()),
    }
}

/// The pixels that an inflated zlib stream stands for.
pub open spec fn zlib_pixels(
    inflated: Result<Seq<u8>, Seq<char>>,
    expected: nat,
    width: u32,
    height: u32,
    depth: u8,
) -> Result<Seq<u8>, AbrErrorView> {
    match inflated {
        Ok(bytes) => if bytes.len() > MAX_TIP_DECODED_BYTES {
            Err(AbrErrorView::Decompression("zlib output exceeds size limit"@))
        } else if bytes.len() < expected {
            Err(broken(too_short(bytes.len(), expected, width, height, depth)))
        } else {
            Ok(bytes.take(expected as int))
        },
        Err(e) => Err(AbrErrorView::Decompression("zlib: "@ + e)),
    }
}

/// The pixels that an inflated zlib stream stands for: its first `expected` bytes.
pub fn settle_zlib(
    inflated: Result<Vec<u8>, String>,
    expected: usize,
    width: u32,
    height: u32,
    depth: u8,
) -> (r: Result<Vec<u8>, AbrError>)
    ensures
        ({
            let model = match inflated {
                Ok(v) => Ok(v@),
                Err(e) => Err(e@),
            };
            match zlib_pixels(model, expected as nat, width, height, depth) {
                Ok(bytes) => r matches Ok(v) && v@ == bytes,
                Err(e) => r matches Err(err) && err@ == e,
            }
        }),
{
    match inflated {
        Ok(bytes) => {
            let mut bytes: Vec<u8> = bytes;
            if bytes.len() > MAX_TIP_DECODED_BYTES {
                return Err(AbrError::Decompression("zlib output exceeds size limit".to_owned()));
            }
            if bytes.len() < expected {
                return Err(too_short_error(bytes.len(), expected, width, height, depth));
            }
            bytes.truncate(expected);
            Ok(bytes)
        },
        Err(e) => {
            let mut m: String = "zlib: ".to_owned();
            m.append(e.as_str());
            Err(AbrError::Decompression(m))
        },
    }
}

/// The pixels of the bitmap with header `h` and size `g` in the entry `d`.
pub open spec fn pixels_of(d: Seq<u8>, h: BitmapHeader, g: BitmapGeometry) -> Result<
    Seq<u8>,
    AbrErrorView,
> {
    let raw = d.skip(g.pixel_start as int);
    if h.compression == 0 {
        Ok(raw.take(g.expected as int))
    } else if h.compression == 1 {
        rle_of(raw, g.height as nat, (g.width * (h.depth / 8)) as nat)
    } else {
        zlib_pixels(
            zlib_front(raw, (MAX_TIP_DECODED_BYTES + 1) as nat),
            g.expected as nat,
            g.width,
            g.height,
            h.depth,
        )
    }
}

/// The tip with header `h` in the entry `d`.
pub open spec fn tip_of(d: Seq<u8>, h: BitmapHeader) -> Result<TipView, AbrErrorView> {
    match geometry_of(d, h) {
        Ok(g) => match pixels_of(d, h, g) {
            Ok(data) => Ok(TipView { width: g.width, height: g.height, depth: h.depth, data }),
            Err(e) => Err(e),
        },
        Err(e) => Err(e),
    }
}

/// The pixels of a decoded tip are exactly as many as its size asks for.
pub proof fn tip_size_is_exact(d: Seq<u8>, h: BitmapHeader)
    requires
        h.wf(),
    ensures
        tip_of(d, h) matches Ok(tip) ==> {
            &&& tip.data.len() == pixel_bytes(tip.width, tip.height, tip.depth)
            &&& tip.data.len() <= MAX_TIP_DECODED_BYTES
        },
{
    match geometry_of(d, h) {
        Ok(g) => {
            rle_length_is_exact(
                d.skip(g.pixel_start as int),
                g.height as nat,
                (g.width * (h.depth / 8)) as nat,
            );
            assert(g.height * (g.width * (h.depth / 8)) == g.width * g.height * (h.depth / 8))
                by (nonlinear_arith);
        },
        Err(_) => {},
    }
}

/// The tip with this header in an entry.
pub fn decode_bitmap(data: &[u8], header: &BitmapHeader) -> (r: Result<TipBitmap, AbrError>)
    requires
        header.wf(),
    ensures
        match tip_of(data@, *header) {
            Ok(tip) => r matches Ok(t) && t@ == tip,
            Err(e) => r matches Err(err) && err@ == e,
        },
{
    let g: BitmapGeometry = bitmap_geometry(data, header)?;
    let raw: &[u8] = &data[g.pixel_start..data.len()];
    assert(raw@ =~= data@.skip(g.pixel_start as int));
    let pixels: Vec<u8> = if header.compression == 0 {
        let front: &[u8] = &raw[0..g.expected];
        assert(front@ =~= raw@.take(g.expected as int));
        copy_bytes(front)
    } else if header.compression == 1 {
        let bpp: usize = (header.depth / 8) as usize;
        proof {
            assert(g.height * g.width * bpp == g.width * g.height * (header.depth / 8))
                by (nonlinear_arith)
                requires
                    bpp == header.depth / 8,
            ;
            assert(g.width * bpp <= 0x7FFF_FFFF) by (nonlinear_arith)
                requires
                    0 <= g.width <= 16384,
                    0 <= bpp <= 31,
            ;
        }
        decode_rle(raw, g.height as usize, g.width as usize, bpp, g.expected)?
    } else {
        let inflated: Result<Vec<u8>, String> = inflate(raw, MAX_TIP_DECODED_BYTES as u64 + 1);
        settle_zlib(inflated, g.expected, g.width, g.height, header.depth)?
    };
    Ok(TipBitmap { width: g.width, height: g.height, depth: header.depth, data: pixels })
}

} // verus!
