//! The entry stream of versions 1 and 2.
//!
//! An entry is a type, a length and that many bytes. Type 2 is a sampled tip: four bytes,
//! a spacing, in version 2 a name, a flag, four short bounds, a rectangle, a depth, a
//! compression and the pixels, raw or as PackBits rows. Every other type is passed over.
use vstd::prelude::*;
use crate::abr::descriptor::{unicode_text, units_at, without_nul};
use crate::abr::limits::{MAX_DIMENSION, MAX_NAME_CODE_UNITS, MAX_TIP_DECODED_BYTES};
use crate::abr::rle::{decode_rle, rle_of};
use crate::abr::samp::{DeferredTip, TipLayout};
use crate::abr::tip::{bounded_pixel_bytes, entry_err, pixel_bytes};
use crate::abr::types::{
    AbrBrush, AbrError, AbrErrorView, AbrVersion, BrushDescriptor, BrushView, TipBitmap, TipView,
};
use crate::support::bytes::{be_u16, be_u32, copy_bytes, fits, u16_at, u32_at};
use crate::support::text::{decimal, utf16_text, views, with_number};

verus! {

/// The error of a broken entry at `offset`.
pub open spec fn broken_at(offset: nat, reason: Seq<char>) -> AbrErrorView {
    AbrErrorView::MalformedBlock { offset: offset as u64, reason }
}

/// The name at `p` and the position behind it.
pub open spec fn name_at(d: Seq<u8>, p: nat, version: AbrVersion) -> Result<
    (Seq<char>, nat),
    AbrErrorView,
> {
    if version != AbrVersion::V2 {
        Ok((seq![], p))
    } else if !fits(d, p, 4) {
        Err(AbrErrorView::InvalidHeader)
    } else {
        let n = be_u32(d, p as int) as nat;
        if n == 0 {
            Ok((seq![], p + 4))
        } else if n > MAX_NAME_CODE_UNITS {
            Err(broken_at(p + 4, "v2 brush name too long"@))
        } else if !fits(d, p + 4, 2 * n) {
            Err(AbrErrorView::InvalidHeader)
        } else {
            Ok((utf16_text(without_nul(units_at(d, p + 4, n))), p + 4 + 2 * n))
        }
    }
}

/// The size, the compression and the pixels' start of a tip.
#[derive(Debug, Clone, Copy, PartialEq, Eq, Structural)]
pub struct StreamHeader {
    pub width: u32,
    pub height: u32,
    pub depth: u8,
    pub compression: u8,
    pub pixel_start: usize,
    /// The bytes that the pixels take.
    pub expected: usize,
}

/// The header at `q`, behind an entry's name; the entry ends at `end`.
pub open spec fn stream_header(d: Seq<u8>, q: nat, end: nat) -> Result<
    StreamHeader,
    AbrErrorView,
> {
    if !fits(d, q, 25) {
        Err(AbrErrorView::InvalidHeader)
    } else {
        let at = q as int;
        let width = be_u32(d, at + 21) as i32 - be_u32(d, at + 13) as i32;
        let height = be_u32(d, at + 17) as i32 - be_u32(d, at + 9) as i32;
        if !(0 <= width <= MAX_DIMENSION && 0 <= height <= MAX_DIMENSION) {
            Err(broken_at(q + 25, "bitmap dimensions out of range"@))
        } else if !fits(d, q + 25, 2) {
            Err(AbrErrorView::InvalidHeader)
        } else {
            let depth = be_u16(d, at + 25);
            if depth != 8 && depth != 16 {
                Err(broken_at(q + 27, "unsupported bitmap depth"@))
            } else if !fits(d, q + 27, 1) {
                Err(AbrErrorView::InvalidHeader)
            } else {
                let expected = pixel_bytes(width as u32, height as u32, depth as u8);
                if expected > MAX_TIP_DECODED_BYTES {
                    Err(broken_at(q + 28, "bitmap byte size out of range"@))
                } else if end > d.len() {
                    Err(broken_at(q + 28, "samp entry length exceeds buffer"@))
                } else if q + 28 > end {
                    Err(broken_at(q + 28, "samp entry length shorter than header"@))
                } else {
                    Ok(
                        StreamHeader {
                            width: width as u32,
                            height: height as u32,
                            depth: depth as u8,
                            compression: d[at + 27],
                            pixel_start: (q + 28) as usize,
                            expected: expected as usize,
                        },
                    )
                }
            }
        }
    }
}

/// The tip that `bytes` hold the pixels of.
pub open spec fn stream_tip(
    bytes: Seq<u8>,
    width: u32,
    height: u32,
    depth: u8,
    compressed: bool,
) -> Result<TipView, AbrErrorView> {
    if compressed {
        match rle_of(bytes, height as nat, (width * (depth / 8)) as nat) {
            Ok(data) => Ok(TipView { width, height, depth, data }),
            Err(e) => Err(e),
        }
    } else {
        Ok(TipView { width, height, depth, data: bytes })
    }
}

/// A tip of the stream: its name, its pixels, or where they stand.
pub struct StreamView {
    pub name: Seq<char>,
    pub tip: TipView,
    pub deferred: Option<DeferredTip>,
}

/// The tip whose pixels fill `start..end`.
pub open spec fn stream_entry(
    d: Seq<u8>,
    name: Seq<char>,
    h: StreamHeader,
    end: nat,
    compressed: bool,
    deferred: bool,
) -> Result<StreamView, AbrErrorView> {
    if deferred {
        Ok(
            StreamView {
                name,
                tip: TipView { width: h.width, height: h.height, depth: h.depth, data: seq![] },
                deferred: Some(
                    DeferredTip {
                        start: h.pixel_start,
                        end: end as usize,
                        layout: TipLayout::Stream {
                            width: h.width,
                            height: h.height,
                            depth: h.depth,
                            compressed,
                        },
                        decoded_len: h.expected,
                    },
                ),
            },
        )
    } else {
        match stream_tip(
            d.subrange(h.pixel_start as int, end as int),
            h.width,
            h.height,
            h.depth,
            compressed,
        ) {
            Ok(tip) => Ok(StreamView { name, tip, deferred: None }),
            Err(e) => Err(e),
        }
    }
}

/// The tip of the type 2 entry whose length stands at `p`, if its compression is known,
/// and the position behind it. Raw pixels end where their size says, PackBits rows where
/// the entry does.
pub open spec fn sampled_entry(d: Seq<u8>, p: nat, version: AbrVersion, deferred: bool) -> Result<
    (Option<StreamView>, nat),
    AbrErrorView,
> {
    if !fits(d, p, 10) {
        Err(AbrErrorView::InvalidHeader)
    } else {
        let end = p + 4 + be_u32(d, p as int) as nat;
        match name_at(d, p + 10, version) {
            Ok((name, q)) => match stream_header(d, q, end) {
                Ok(h) => if h.compression == 0 {
                    let stop = h.pixel_start as nat + h.expected as nat;
                    if stop > d.len() {
                        Err(AbrErrorView::Decompression("truncated raw data"@))
                    } else {
                        match stream_entry(d, name, h, stop, false, deferred) {
                            Ok(tip) => Ok((Some(tip), stop)),
                            Err(e) => Err(e),
                        }
                    }
                } else if h.compression == 1 {
                    match stream_entry(d, name, h, end, true, deferred) {
                        Ok(tip) => Ok((Some(tip), end)),
                        Err(e) => Err(e),
                    }
                } else {
                    Ok((None, end))
                },
                Err(e) => Err(e),
            },
            Err(e) => Err(e),
        }
    }
}

/// The entry at `p` and the position behind it. An entry that is passed over and runs past
/// the end of the data leaves the position at the end.
pub open spec fn entry_at(d: Seq<u8>, p: nat, version: AbrVersion, deferred: bool) -> Result<
    (Option<StreamView>, nat),
    AbrErrorView,
> {
    if !fits(d, p, 2) {
        Err(AbrErrorView::InvalidHeader)
    } else if be_u16(d, p as int) == 2 {
        sampled_entry(d, p + 2, version, deferred)
    } else if !fits(d, p + 2, 4) {
        Err(AbrErrorView::InvalidHeader)
    } else {
        let end = p + 6 + be_u32(d, p as int + 2) as nat;
        Ok(
            (
                None,
                if end <= d.len() {
                    end
                } else {
                    d.len()
                },
            ),
        )
    }
}

/// The tips of `n` entries from `p` on, behind those in `found`.
pub open spec fn entries_from(
    d: Seq<u8>,
    p: nat,
    n: nat,
    version: AbrVersion,
    deferred: bool,
    found: Seq<StreamView>,
) -> Result<Seq<StreamView>, AbrErrorView>
    decreases n,
{
    if n == 0 {
        Ok(found)
    } else {
        match entry_at(d, p, version, deferred) {
            Ok((Some(tip), q)) => entries_from(
                d,
                q,
                (n - 1) as nat,
                version,
                deferred,
                found.push(tip),
            ),
            Ok((None, q)) => entries_from(d, q, (n - 1) as nat, version, deferred, found),
            Err(e) => Err(e),
        }
    }
}

/// The brush of tip `i`.
pub open spec fn stream_brush(tips: Seq<StreamView>, i: int) -> BrushView {
    BrushView {
        id: "brush_"@ + decimal(i as nat),
        name: tips[i].name,
        tip: tips[i].tip,
        descriptor: BrushDescriptor::empty(),
        synthesized: false,
        preset_index: None,
    }
}

/// The brushes of the tips, the last tip first.
pub open spec fn stream_brushes(tips: Seq<StreamView>) -> Seq<BrushView> {
    Seq::new(tips.len(), |j: int| stream_brush(tips, tips.len() - 1 - j))
}

/// Where the pixels of each brush stand, if they are deferred.
pub open spec fn stream_tips(tips: Seq<StreamView>) -> Seq<Option<DeferredTip>> {
    Seq::new(tips.len(), |j: int| tips[tips.len() - 1 - j].deferred)
}

/// A tip of the stream.
struct StreamTip {
    name: String,
    tip: TipBitmap,
    deferred: Option<DeferredTip>,
}

impl View for StreamTip {
    type V = StreamView;

    closed spec fn view(&self) -> StreamView {
        StreamView { name: self.name@, tip: self.tip@, deferred: self.deferred }
    }
}

/// The name of a version 2 entry.
fn read_v2_unicode_name(data: &[u8], p: usize, version: AbrVersion) -> (r: Result<
    (String, usize),
    AbrError,
>)
    requires
        p <= data@.len(),
    ensures
        match name_at(data@, p as nat, version) {
            Ok((name, q)) => r matches Ok(v) && v.0@ == name && v.1 == q && q <= data@.len(),
            Err(e) => r matches Err(err) && err@ == e,
        },
{
    if version != AbrVersion::V2 {
        let name: String = String::new();
        assert(name@ =~= seq![]);
        return Ok((name, p));
    }
    if data.len() - p < 4 {
        return Err(AbrError::InvalidHeader);
    }
    let n: usize = u32_at(data, p) as usize;
    let start: usize = p + 4;
    if n == 0 {
        let name: String = String::new();
        assert(name@ =~= seq![]);
        return Ok((name, start));
    }
    if n > MAX_NAME_CODE_UNITS {
        return Err(entry_err(start as u64, "v2 brush name too long"));
    }
    if data.len() - start < 2 * n {
        return Err(AbrError::InvalidHeader);
    }
    let bytes: &[u8] = &data[start..start + 2 * n];
    assert(units_at(bytes@, 0, bytes@.len() / 2) =~= units_at(data@, start as nat, n as nat));
    Ok((unicode_text(bytes), start + 2 * n))
}

fn read_stream_header(data: &[u8], q: usize, end: u128) -> (r: Result<StreamHeader, AbrError>)
    requires
        q <= data@.len(),
    ensures
        match stream_header(data@, q as nat, end as nat) {
            Ok(h) => r matches Ok(v) && v == h,
            Err(e) => r matches Err(err) && err@ == e,
        },
{
    if data.len() - q < 25 {
        return Err(AbrError::InvalidHeader);
    }
    let top: i32 = u32_at(data, q + 9) as i32;
    let left: i32 = u32_at(data, q + 13) as i32;
    let bottom: i32 = u32_at(data, q + 17) as i32;
    let right: i32 = u32_at(data, q + 21) as i32;
    let width: i64 = right as i64 - left as i64;
    let height: i64 = bottom as i64 - top as i64;
    let max: i64 = MAX_DIMENSION as i64;
    let p: usize = q + 25;
    if width < 0 || height < 0 || width > max || height > max {
        return Err(entry_err(p as u64, "bitmap dimensions out of range"));
    }
    if data.len() - p < 2 {
        return Err(AbrError::InvalidHeader);
    }
    let depth: u16 = u16_at(data, p);
    let p: usize = p + 2;
    if depth != 8 && depth != 16 {
        return Err(entry_err(p as u64, "unsupported bitmap depth"));
    }
    if data.len() - p < 1 {
        return Err(AbrError::InvalidHeader);
    }
    let compression: u8 = data[p];
    let p: usize = p + 1;
    let expected: usize = match bounded_pixel_bytes(width as u32, height as u32, depth as u8) {
        Some(n) => n,
        None => {
            return Err(entry_err(p as u64, "bitmap byte size out of range"));
        },
    };
    if end > data.len() as u128 {
        return Err(entry_err(p as u64, "samp entry length exceeds buffer"));
    }
    if p as u128 > end {
        return Err(entry_err(p as u64, "samp entry length shorter than header"));
    }
    Ok(
        StreamHeader {
            width: width as u32,
            height: height as u32,
            depth: depth as u8,
            compression,
            pixel_start: p,
            expected,
        },
    )
}

/// The tip that `bytes` hold the pixels of.
pub fn decode_stream_tip(bytes: &[u8], width: u32, height: u32, depth: u8, compressed: bool) -> (r:
    Result<TipBitmap, AbrError>)
    requires
        width <= MAX_DIMENSION,
        height <= MAX_DIMENSION,
        depth == 8 || depth == 16,
    ensures
        match stream_tip(bytes@, width, height, depth, compressed) {
            Ok(tip) => r matches Ok(t) && t@ == tip,
            Err(e) => r matches Err(err) && err@ == e,
        },
{
    if compressed {
        let bpp: usize = (depth / 8) as usize;
        proof {
            assert(height * width <= 16384 * 16384) by (nonlinear_arith)
                requires
                    0 <= height <= 16384,
                    0 <= width <= 16384,
            ;
        }
        let area: usize = height as usize * width as usize;
        let expected: usize = if depth == 16 {
            2 * area
        } else {
            area
        };
        assert(width * bpp == width || width * bpp == 2 * width) by (nonlinear_arith)
            requires
                bpp == 1 || bpp == 2,
        ;
        assert(expected == height * width * bpp) by (nonlinear_arith)
            requires
                area == height * width,
                (bpp == 1 && expected == area) || (bpp == 2 && expected == 2 * area),
        ;
        let data: Vec<u8> = decode_rle(bytes, height as usize, width as usize, bpp, expected)?;
        Ok(TipBitmap { width, height, depth, data })
    } else {
        Ok(TipBitmap { width, height, depth, data: copy_bytes(bytes) })
    }
}

fn read_stream_entry(
    data: &[u8],
    name: String,
    h: StreamHeader,
    end: usize,
    compressed: bool,
    deferred: bool,
) -> (r: Result<StreamTip, AbrError>)
    requires
        h.pixel_start <= end <= data@.len(),
        h.width <= MAX_DIMENSION,
        h.height <= MAX_DIMENSION,
        h.depth == 8 || h.depth == 16,
    ensures
        match stream_entry(data@, name@, h, end as nat, compressed, deferred) {
            Ok(tip) => r matches Ok(t) && t@ == tip,
            Err(e) => r matches Err(err) && err@ == e,
        },
{
    if deferred {
        let none: Vec<u8> = Vec::new();
        assert(none@ =~= seq![]);
        return Ok(
            StreamTip {
                name,
                tip: TipBitmap { width: h.width, height: h.height, depth: h.depth, data: none },
                deferred: Some(
                    DeferredTip {
                        start: h.pixel_start,
                        end,
                        layout: TipLayout::Stream {
                            width: h.width,
                            height: h.height,
                            depth: h.depth,
                            compressed,
                        },
                        decoded_len: h.expected,
                    },
                ),
            },
        );
    }
    let tip: TipBitmap = decode_stream_tip(
        &data[h.pixel_start..end],
        h.width,
        h.height,
        h.depth,
        compressed,
    )?;
    Ok(StreamTip { name, tip, deferred: None })
}

fn read_sampled_entry(data: &[u8], p: usize, version: AbrVersion, deferred: bool) -> (r: Result<
    (Option<StreamTip>, usize),
    AbrError,
>)
    requires
        p <= data@.len(),
    ensures
        match sampled_entry(data@, p as nat, version, deferred) {
            Ok((tip, q)) => {
                &&& r matches Ok(v) && v.1 == q && q <= data@.len() && tip == match v.0 {
                    Some(t) => Some(t@),
                    None => None,
                }
            },
            Err(e) => r matches Err(err) && err@ == e,
        },
{
    if data.len() - p < 10 {
        return Err(AbrError::InvalidHeader);
    }
    let end: u128 = p as u128 + 4 + u32_at(data, p) as u128;
    let (name, q) = read_v2_unicode_name(data, p + 10, version)?;
    let h: StreamHeader = read_stream_header(data, q, end)?;
    if h.compression == 0 {
        if h.expected > data.len() - h.pixel_start {
            return Err(AbrError::Decompression("truncated raw data".to_owned()));
        }
        let stop: usize = h.pixel_start + h.expected;
        let tip: StreamTip = read_stream_entry(data, name, h, stop, false, deferred)?;
        Ok((Some(tip), stop))
    } else if h.compression == 1 {
        let tip: StreamTip = read_stream_entry(data, name, h, end as usize, true, deferred)?;
        Ok((Some(tip), end as usize))
    } else {
        Ok((None, end as usize))
    }
}

fn read_entry(data: &[u8], p: usize, version: AbrVersion, deferred: bool) -> (r: Result<
    (Option<StreamTip>, usize),
    AbrError,
>)
    requires
        p <= data@.len(),
    ensures
        match entry_at(data@, p as nat, version, deferred) {
            Ok((tip, q)) => {
                &&& r matches Ok(v) && v.1 == q && q <= data@.len() && tip == match v.0 {
                    Some(t) => Some(t@),
                    None => None,
                }
            },
            Err(e) => r matches Err(err) && err@ == e,
        },
{
    if data.len() - p < 2 {
        return Err(AbrError::InvalidHeader);
    }
    if u16_at(data, p) == 2 {
        return read_sampled_entry(data, p + 2, version, deferred);
    }
    if data.len() - p < 6 {
        return Err(AbrError::InvalidHeader);
    }
    let entry_len: usize = u32_at(data, p + 2) as usize;
    let left: usize = data.len() - p - 6;
    if entry_len <= left {
        Ok((None, p + 6 + entry_len))
    } else {
        Ok((None, data.len()))
    }
}

fn read_entries(data: &[u8], start: usize, count: u16, version: AbrVersion, deferred: bool) -> (r:
    Result<Vec<StreamTip>, AbrError>)
    requires
        start <= data@.len(),
    ensures
        match entries_from(data@, start as nat, count as nat, version, deferred, seq![]) {
            Ok(tips) => r matches Ok(v) && views(v@) == tips,
            Err(e) => r matches Err(err) && err@ == e,
        },
{
    let mut found: Vec<StreamTip> = Vec::new();
    assert(views(found@) =~= seq![]);
    let mut p: usize = start;
    let mut i: u16 = 0;
    while i < count
        invariant
            i <= count,
            p <= data@.len(),
            entries_from(data@, start as nat, count as nat, version, deferred, seq![])
                == entries_from(
                data@,
                p as nat,
                (count - i) as nat,
                version,
                deferred,
                views(found@),
            ),
        decreases count - i,
    {
        let (entry, q) = read_entry(data, p, version, deferred)?;
        if let Some(tip) = entry {
            let ghost before = found@;
            found.push(tip);
            assert(views(found@) =~= views(before).push(tip@));
        }
        p = q;
        i += 1;
    }
    Ok(found)
}

/// The brushes of an entry stream of `brush_count` entries that starts at `start`, the last
/// entry first, and where their pixels stand where they are deferred.
pub fn parse_legacy(
    data: &[u8],
    start: usize,
    brush_count: u16,
    version: AbrVersion,
    deferred: bool,
) -> (r: Result<(Vec<AbrBrush>, Vec<Option<DeferredTip>>), AbrError>)
    requires
        start <= data@.len(),
    ensures
        match entries_from(data@, start as nat, brush_count as nat, version, deferred, seq![]) {
            Ok(tips) => r matches Ok(v) && views(v.0@) == stream_brushes(tips) && v.1@
                == stream_tips(tips),
            Err(e) => r matches Err(err) && err@ == e,
        },
{
    let mut left: Vec<StreamTip> = read_entries(data, start, brush_count, version, deferred)?;
    let ghost s = views(left@);
    let mut brushes: Vec<AbrBrush> = Vec::new();
    let mut tips: Vec<Option<DeferredTip>> = Vec::new();
    assert(s.take(left@.len() as int) =~= s);
    while left.len() > 0
        invariant
            left@.len() + brushes@.len() == s.len(),
            tips@.len() == brushes@.len(),
            views(left@) == s.take(left@.len() as int),
            forall|j: int|
                0 <= j < brushes@.len() ==> (#[trigger] brushes@[j])@ == stream_brush(
                    s,
                    s.len() - 1 - j,
                ),
            forall|j: int|
                0 <= j < tips@.len() ==> #[trigger] tips@[j] == s[s.len() - 1 - j].deferred,
        decreases left@.len(),
    {
        let ghost before = left@;
        match left.pop() {
            Some(entry) => {
                let i: usize = left.len();
                proof {
                    assert(views(before)[i as int] == entry@);
                    assert(s[i as int] == entry@);
                    assert(views(left@) =~= s.take(left@.len() as int));
                }
                let StreamTip { name, tip, deferred } = entry;
                let brush: AbrBrush = AbrBrush {
                    id: with_number("brush_", i as u64),
                    name,
                    tip,
                    descriptor: BrushDescriptor::default(),
                    synthesized: false,
                    preset_index: None,
                };
                assert(brush@ == stream_brush(s, i as int));
                brushes.push(brush);
                tips.push(deferred);
            },
            None => {},
        }
    }
    assert(views(brushes@) =~= stream_brushes(s));
    assert(tips@ =~= stream_tips(s));
    Ok((brushes, tips))
}

} // verus!
