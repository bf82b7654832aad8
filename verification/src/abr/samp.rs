//! The `samp` block: the sampled tips of a pack.
//!
//! An entry is a length and that many bytes, padded to four bytes. It starts with a `$`,
//! the tip's uuid and a zero, and holds a bitmap at an offset that the file's subversion
//! decides. Where the lengths do not frame the block, the uuids do.
use vstd::prelude::*;
use crate::abr::limits::MAX_DIMENSION;
use crate::abr::tip::{
    bitmap_geometry, decode_bitmap, geometry_of, tip_of, BitmapHeader, HEADER_LEN,
};
use crate::abr::types::{AbrVersion, TipBitmap, TipView};
use crate::support::bytes::{be_u16, be_u32, u16_at, u32_at};
use crate::support::text::{text, utf8_lossy, utf8_lossy_text, views};

verus! {

/// Where the rectangle stands in an entry of version 6, subversion 1.
pub const V6_SUB1_RECT_OFFSET: usize = 47;

/// Where the rectangle stands in an entry of subversion 2.
pub const SUB2_RECT_OFFSET: usize = 301;

/// How far into an entry a bitmap header is searched for.
pub const HEADER_SCAN_LIMIT: usize = 2048;

/// Is `b` a hexadecimal digit?
pub open spec fn is_hex(b: u8) -> bool {
    0x30 <= b <= 0x39 || 0x41 <= b <= 0x46 || 0x61 <= b <= 0x66
}

/// Does a uuid stand at `p`: 8, 4, 4, 4 and 12 hexadecimal digits between dashes?
pub open spec fn uuid_at(d: Seq<u8>, p: int) -> bool {
    &&& p + 36 <= d.len()
    &&& forall|k: int|
        p <= k < p + 36 ==> if k == p + 8 || k == p + 13 || k == p + 18 || k == p + 23 {
            #[trigger] d[k] == 0x2D
        } else {
            is_hex(d[k])
        }
}

/// Does an anchor stand at `p`: a `$`, a uuid and a zero?
pub open spec fn anchor_at(d: Seq<u8>, p: int) -> bool {
    &&& p + 38 <= d.len()
    &&& d[p] == 0x24
    &&& uuid_at(d, p + 1)
    &&& d[p + 37] == 0
}

/// The text of the uuid in the anchor at `p`.
pub open spec fn anchor_text(d: Seq<u8>, p: int) -> Seq<char> {
    utf8_lossy_text(d.subrange(p + 1, p + 37))
}

/// The anchors that start before `n`, in order, each with its uuid.
pub open spec fn anchors_below(d: Seq<u8>, n: nat) -> Seq<(usize, Seq<char>)>
    decreases n,
{
    if n == 0 {
        seq![]
    } else if anchor_at(d, n - 1) {
        anchors_below(d, (n - 1) as nat).push(((n - 1) as usize, anchor_text(d, n - 1)))
    } else {
        anchors_below(d, (n - 1) as nat)
    }
}

/// The uuid that an entry starts with.
pub open spec fn entry_uuid(d: Seq<u8>) -> Option<Seq<char>> {
    if anchor_at(d, 0) {
        Some(anchor_text(d, 0))
    } else {
        None
    }
}

/// Does a uuid stand at `start`?
pub fn is_uuid_at(data: &[u8], start: usize) -> (r: bool)
    ensures
        r == uuid_at(data@, start as int),
{
    if data.len() < 36 || start > data.len() - 36 {
        return false;
    }
    let stop: usize = start + 36;
    let mut k: usize = start;
    while k < stop
        invariant
            start <= k <= stop,
            stop == start + 36,
            stop <= data@.len(),
            forall|j: int|
                start <= j < k ==> if j == start + 8 || j == start + 13 || j == start + 18 || j
                    == start + 23 {
                    #[trigger] data@[j] == 0x2D
                } else {
                    is_hex(data@[j])
                },
        decreases stop - k,
    {
        let b: u8 = data[k];
        let at: usize = k - start;
        if at == 8 || at == 13 || at == 18 || at == 23 {
            if b != 0x2D {
                return false;
            }
        } else if !((0x30 <= b && b <= 0x39) || (0x41 <= b && b <= 0x46) || (0x61 <= b && b
            <= 0x66)) {
            return false;
        }
        k += 1;
    }
    true
}

fn is_anchor_at(data: &[u8], p: usize) -> (r: bool)
    ensures
        r == anchor_at(data@, p as int),
{
    data.len() >= 38 && p <= data.len() - 38 && data[p] == 0x24 && is_uuid_at(data, p + 1)
        && data[p + 37] == 0
}

/// Every anchor of a block, in order, with its uuid.
pub fn find_all_uuid_offsets(data: &[u8]) -> (r: Vec<(usize, String)>)
    ensures
        views(r@) == anchors_below(data@, data@.len()),
{
    let mut r: Vec<(usize, String)> = Vec::new();
    assert(views(r@) =~= seq![]);
    let mut i: usize = 0;
    while i < data.len()
        invariant
            i <= data@.len(),
            views(r@) == anchors_below(data@, i as nat),
        decreases data@.len() - i,
    {
        if is_anchor_at(data, i) {
            let uuid: String = utf8_lossy(&data[i + 1..i + 37]);
            let ghost before = r@;
            r.push((i, uuid));
            assert(views(r@) =~= views(before).push((i, uuid@)));
        }
        i += 1;
    }
    r
}

/// The uuid that an entry starts with.
pub fn extract_entry_uuid(data: &[u8]) -> (r: Option<String>)
    ensures
        text(r) == entry_uuid(data@),
{
    if is_anchor_at(data, 0) {
        Some(utf8_lossy(&data[1..37]))
    } else {
        None
    }
}

/// `n` rounded up to a multiple of four.
pub open spec fn padded(n: nat) -> nat {
    (n + 3) / 4 * 4
}

/// The entries that the lengths from `at` on frame, behind those in `found`, and whether
/// they frame the whole block.
pub open spec fn frames_from(d: Seq<u8>, at: nat, found: Seq<(usize, usize)>) -> (
    Seq<(usize, usize)>,
    bool,
)
    decreases d.len() + 4 - at,
{
    if at + 4 > d.len() {
        (found, true)
    } else {
        let end = at + 4 + be_u32(d, at as int) as nat;
        if be_u32(d, at as int) == 0 || end > d.len() {
            (found, false)
        } else {
            frames_from(d, padded(end), found.push(((at + 4) as usize, end as usize)))
        }
    }
}

/// Frames a block by its entry lengths: where each entry starts and ends, and whether
/// the lengths frame the whole block. Where they do not, the entries before the first
/// length that is 0 or too large are given.
pub fn frame_samp_entries_by_length(data: &[u8]) -> (r: (Vec<(usize, usize)>, bool))
    ensures
        (r.0@, r.1) == frames_from(data@, 0, seq![]),
        forall|i: int| 0 <= i < r.0@.len() ==> (#[trigger] r.0@[i]).0 <= r.0@[i].1 <= data@.len(),
{
    let mut found: Vec<(usize, usize)> = Vec::new();
    let mut at: usize = 0;
    assert(found@ =~= seq![]);
    while data.len() >= 4 && at <= data.len() - 4
        invariant
            frames_from(data@, 0, seq![]) == frames_from(data@, at as nat, found@),
            forall|i: int|
                0 <= i < found@.len() ==> (#[trigger] found@[i]).0 <= found@[i].1 <= data@.len(),
        decreases data@.len() + 4 - at,
    {
        let len: usize = u32_at(data, at) as usize;
        let start: usize = at + 4;
        if len == 0 || len > data.len() - start {
            return (found, false);
        }
        let end: usize = start + len;
        found.push((start, end));
        if end > usize::MAX - 3 {
            assert(data.len() <= usize::MAX);
            assert(frames_from(data@, padded(end as nat), found@) == (found@, true));
            return (found, true);
        }
        at = (end + 3) / 4 * 4;
    }
    (found, true)
}

/// Where the rectangle stands in an entry of this version.
pub open spec fn rect_offset_of(version: AbrVersion, subversion: u16) -> Option<usize> {
    if subversion == 1 && version == AbrVersion::V6 {
        Some(V6_SUB1_RECT_OFFSET)
    } else if subversion == 2 && (version == AbrVersion::V6 || version == AbrVersion::V7 || version
        == AbrVersion::V9 || version == AbrVersion::V10) {
        Some(SUB2_RECT_OFFSET)
    } else {
        None
    }
}

/// Where the rectangle stands in an entry of this version, as far as that is known.
pub fn documented_rect_offset(version: AbrVersion, subversion: u16) -> (r: Option<usize>)
    ensures
        r == rect_offset_of(version, subversion),
{
    if subversion == 1 && version == AbrVersion::V6 {
        Some(V6_SUB1_RECT_OFFSET)
    } else if subversion == 2 && (version == AbrVersion::V6 || version == AbrVersion::V7 || version
        == AbrVersion::V9 || version == AbrVersion::V10) {
        Some(SUB2_RECT_OFFSET)
    } else {
        None
    }
}

/// The header whose rectangle stands at `p`.
pub open spec fn header_bytes(d: Seq<u8>, p: int) -> BitmapHeader {
    BitmapHeader {
        rect_offset: p as usize,
        top: be_u32(d, p) as i32,
        left: be_u32(d, p + 4) as i32,
        bottom: be_u32(d, p + 8) as i32,
        right: be_u32(d, p + 12) as i32,
        depth: be_u16(d, p + 16) as u8,
        compression: d[p + 18],
    }
}

/// Can a header stand at `p` whose compression is at most `most`? Its depth is 8 or 16,
/// and its sides are positive and no longer than a tip's.
pub open spec fn plausible(d: Seq<u8>, p: int, most: u8) -> bool {
    let h = header_bytes(d, p);
    &&& be_u16(d, p + 16) == 8 || be_u16(d, p + 16) == 16
    &&& h.compression <= most
    &&& 0 < h.right - h.left <= MAX_DIMENSION
    &&& 0 < h.bottom - h.top <= MAX_DIMENSION
}

/// The header at a known offset, with at least one byte behind it.
pub open spec fn header_at(d: Seq<u8>, p: nat) -> Option<BitmapHeader> {
    if p + HEADER_LEN < d.len() && plausible(d, p as int, 2) {
        Some(header_bytes(d, p as int))
    } else {
        None
    }
}

/// The first plausible header, raw or PackBits, that starts at `p` or later and ends
/// before `limit`.
pub open spec fn header_from(d: Seq<u8>, p: nat, limit: nat) -> Option<BitmapHeader>
    decreases limit - p,
{
    if p + HEADER_LEN > limit {
        None
    } else if plausible(d, p as int, 1) {
        Some(header_bytes(d, p as int))
    } else {
        header_from(d, p + 1, limit)
    }
}

/// The first plausible header in the front of an entry.
pub open spec fn header_found(d: Seq<u8>) -> Option<BitmapHeader> {
    header_from(
        d,
        0,
        if d.len() < HEADER_SCAN_LIMIT {
            d.len()
        } else {
            HEADER_SCAN_LIMIT as nat
        },
    )
}

/// The header of an entry: at the known offset, else the first plausible one.
pub open spec fn header_of(d: Seq<u8>, documented: Option<usize>) -> Option<BitmapHeader> {
    match documented {
        Some(p) => match header_at(d, p as nat) {
            Some(h) => Some(h),
            None => header_found(d),
        },
        None => header_found(d),
    }
}

fn read_plausible(data: &[u8], p: usize, most: u8) -> (r: Option<BitmapHeader>)
    requires
        p + HEADER_LEN <= data@.len(),
    ensures
        r == (if plausible(data@, p as int, most) {
            Some(header_bytes(data@, p as int))
        } else {
            None
        }),
{
    assert(data.len() <= usize::MAX);
    let depth: u16 = u16_at(data, p + 16);
    let compression: u8 = data[p + 18];
    if (depth != 8 && depth != 16) || compression > most {
        return None;
    }
    let top: i32 = u32_at(data, p) as i32;
    let left: i32 = u32_at(data, p + 4) as i32;
    let bottom: i32 = u32_at(data, p + 8) as i32;
    let right: i32 = u32_at(data, p + 12) as i32;
    let w: i64 = right as i64 - left as i64;
    let h: i64 = bottom as i64 - top as i64;
    let max: i64 = MAX_DIMENSION as i64;
    if w <= 0 || h <= 0 || w > max || h > max {
        return None;
    }
    Some(
        BitmapHeader {
            rect_offset: p,
            top,
            left,
            bottom,
            right,
            depth: depth as u8,
            compression,
        },
    )
}

/// The header at a known offset.
pub fn bitmap_header_at(data: &[u8], rect_offset: usize) -> (r: Option<BitmapHeader>)
    ensures
        r == header_at(data@, rect_offset as nat),
{
    if data.len() <= HEADER_LEN || rect_offset >= data.len() - HEADER_LEN {
        return None;
    }
    read_plausible(data, rect_offset, 2)
}

/// The first plausible header in the front of an entry.
pub fn find_bitmap_header(data: &[u8]) -> (r: Option<BitmapHeader>)
    ensures
        r == header_found(data@),
{
    let limit: usize = if data.len() < HEADER_SCAN_LIMIT {
        data.len()
    } else {
        HEADER_SCAN_LIMIT
    };
    let mut p: usize = 0;
    while p + HEADER_LEN <= limit
        invariant
            limit <= data@.len(),
            limit <= HEADER_SCAN_LIMIT,
            p <= limit,
            header_found(data@) == header_from(data@, p as nat, limit as nat),
        decreases limit - p,
    {
        let found: Option<BitmapHeader> = read_plausible(data, p, 1);
        if found.is_some() {
            return found;
        }
        p += 1;
    }
    None
}

/// The header of an entry.
pub fn locate_bitmap_header(data: &[u8], documented: Option<usize>) -> (r: Option<BitmapHeader>)
    ensures
        r == header_of(data@, documented),
        r matches Some(h) ==> h.wf(),
{
    proof {
        assert(data.len() <= usize::MAX);
        header_is_wf(data@, documented);
    }
    if let Some(p) = documented {
        let found: Option<BitmapHeader> = bitmap_header_at(data, p);
        if found.is_some() {
            return found;
        }
    }
    find_bitmap_header(data)
}

proof fn header_from_is_wf(d: Seq<u8>, p: nat, limit: nat)
    requires
        limit <= HEADER_SCAN_LIMIT,
    ensures
        header_from(d, p, limit) matches Some(h) ==> h.wf() && h.width() > 0 && h.height() > 0
            && (h.depth == 8 || h.depth == 16),
    decreases limit - p,
{
    if p + HEADER_LEN <= limit && !plausible(d, p as int, 1) {
        header_from_is_wf(d, p + 1, limit);
    }
}

/// A located header describes a tip of positive size and of depth 8 or 16.
pub proof fn header_is_wf(d: Seq<u8>, documented: Option<usize>)
    requires
        d.len() <= usize::MAX,
    ensures
        header_of(d, documented) matches Some(h) ==> h.wf() && h.width() > 0 && h.height() > 0 && (
        h.depth == 8 || h.depth == 16),
{
    header_from_is_wf(
        d,
        0,
        if d.len() < HEADER_SCAN_LIMIT {
            d.len()
        } else {
            HEADER_SCAN_LIMIT as nat
        },
    );
}

/// How a deferred tip is laid out.
#[derive(Debug, Clone, Copy, PartialEq, Eq, Structural)]
pub enum TipLayout {
    /// An entry of a `samp` block, with this header.
    Entry(BitmapHeader),
    /// The pixels alone, as an entry stream holds them.
    Stream { width: u32, height: u32, depth: u8, compressed: bool },
}

/// A tip that is still to be decoded: where in the file its bytes stand.
#[derive(Debug, Clone, Copy, PartialEq, Eq, Structural)]
pub struct DeferredTip {
    pub start: usize,
    pub end: usize,
    pub layout: TipLayout,
    /// The bytes that the decoded pixels take.
    pub decoded_len: usize,
}

/// A sampled tip. A deferred one has no pixels.
#[derive(Debug)]
pub struct SampEntry {
    pub uuid: Option<String>,
    pub bitmap: TipBitmap,
    pub deferred: Option<DeferredTip>,
}

/// The model of a [`SampEntry`].
pub struct SampView {
    pub uuid: Option<Seq<char>>,
    pub bitmap: TipView,
    pub deferred: Option<DeferredTip>,
}

impl View for SampEntry {
    type V = SampView;

    open spec fn view(&self) -> SampView {
        SampView { uuid: text(self.uuid), bitmap: self.bitmap@, deferred: self.deferred }
    }
}

/// The tip in the entry that fills `start..end` of the file `d`; none where no header is
/// found, or where the header or, in a tip that is not deferred, the pixels do not fit.
#[verifier::opaque]
pub open spec fn samp_entry(
    d: Seq<u8>,
    start: int,
    end: int,
    uuid: Option<Seq<char>>,
    documented: Option<usize>,
    deferred: bool,
) -> Option<SampView> {
    let entry = d.subrange(start, end);
    match header_of(entry, documented) {
        Some(h) => if deferred {
            match geometry_of(entry, h) {
                Ok(g) => Some(
                    SampView {
                        uuid,
                        bitmap: TipView {
                            width: g.width,
                            height: g.height,
                            depth: h.depth,
                            data: seq![],
                        },
                        deferred: Some(
                            DeferredTip {
                                start: start as usize,
                                end: end as usize,
                                layout: TipLayout::Entry(h),
                                decoded_len: g.expected,
                            },
                        ),
                    },
                ),
                Err(_) => None,
            }
        } else {
            match tip_of(entry, h) {
                Ok(bitmap) => Some(SampView { uuid, bitmap, deferred: None }),
                Err(_) => None,
            }
        },
        None => None,
    }
}

fn read_samp_entry(
    file: &[u8],
    start: usize,
    end: usize,
    uuid: Option<String>,
    documented: Option<usize>,
    deferred: bool,
) -> (r: Option<SampEntry>)
    requires
        start <= end <= file@.len(),
    ensures
        match samp_entry(file@, start as int, end as int, text(uuid), documented, deferred) {
            Some(samp) => r matches Some(s) && s@ == samp,
            None => r is None,
        },
{
    proof {
        reveal(samp_entry);
    }
    let entry: &[u8] = &file[start..end];
    let header: BitmapHeader = match locate_bitmap_header(entry, documented) {
        Some(h) => h,
        None => {
            return None;
        },
    };
    if deferred {
        match bitmap_geometry(entry, &header) {
            Ok(g) => {
                let data: Vec<u8> = Vec::new();
                assert(data@ =~= seq![]);
                Some(
                    SampEntry {
                        uuid,
                        bitmap: TipBitmap {
                            width: g.width,
                            height: g.height,
                            depth: header.depth,
                            data,
                        },
                        deferred: Some(
                            DeferredTip {
                                start,
                                end,
                                layout: TipLayout::Entry(header),
                                decoded_len: g.expected,
                            },
                        ),
                    },
                )
            },
            Err(_) => None,
        }
    } else {
        match decode_bitmap(entry, &header) {
            Ok(bitmap) => Some(SampEntry { uuid, bitmap, deferred: None }),
            Err(_) => None,
        }
    }
}

/// Does every frame start with an anchor?
pub open spec fn all_anchored(b: Seq<u8>, frames: Seq<(usize, usize)>) -> bool {
    forall|i: int|
        0 <= i < frames.len() ==> entry_uuid(
            b.subrange((#[trigger] frames[i]).0 as int, frames[i].1 as int),
        ) is Some
}

fn every_body_is_anchored(data: &[u8], frames: &Vec<(usize, usize)>) -> (r: bool)
    requires
        forall|i: int|
            0 <= i < frames@.len() ==> (#[trigger] frames@[i]).0 <= frames@[i].1 <= data@.len(),
    ensures
        r == all_anchored(data@, frames@),
{
    let mut i: usize = 0;
    while i < frames.len()
        invariant
            i <= frames@.len(),
            forall|i: int|
                0 <= i < frames@.len() ==> (#[trigger] frames@[i]).0 <= frames@[i].1
                    <= data@.len(),
            forall|j: int|
                0 <= j < i ==> entry_uuid(
                    data@.subrange((#[trigger] frames@[j]).0 as int, frames@[j].1 as int),
                ) is Some,
        decreases frames@.len() - i,
    {
        let (start, end) = frames[i];
        if extract_entry_uuid(&data[start..end]).is_none() {
            assert(entry_uuid(
                data@.subrange(frames@[i as int].0 as int, frames@[i as int].1 as int),
            ) is None);
            return false;
        }
        i += 1;
    }
    true
}

/// Is the block framed by its lengths? It is where it holds no anchor at all, or where the
/// lengths frame all of it and every entry starts with an anchor.
pub open spec fn framed_by_lengths(b: Seq<u8>) -> bool {
    let (frames, clean) = frames_from(b, 0, seq![]);
    anchors_below(b, b.len()).len() == 0 || (clean && all_anchored(b, frames))
}

/// The tips of the first `n` frames of the block that starts at `base` of the file.
pub open spec fn framed_tips(
    d: Seq<u8>,
    base: int,
    frames: Seq<(usize, usize)>,
    n: nat,
    documented: Option<usize>,
    deferred: bool,
) -> Seq<SampView>
    decreases n,
{
    if n == 0 {
        seq![]
    } else {
        let (start, end) = frames[n - 1];
        let before = framed_tips(d, base, frames, (n - 1) as nat, documented, deferred);
        match samp_entry(
            d,
            base + start,
            base + end,
            entry_uuid(d.subrange(base + start, base + end)),
            documented,
            deferred,
        ) {
            Some(samp) => before.push(samp),
            None => before,
        }
    }
}

/// Where the entry of anchor `i` ends: at the next anchor, or at the end of the block.
pub open spec fn anchored_end(anchors: Seq<(usize, Seq<char>)>, i: int, end: int) -> int {
    if i + 1 < anchors.len() {
        anchors[i + 1].0 as int
    } else {
        end
    }
}

/// The tips of the first `n` anchors of the block of `len` bytes that starts at `base`.
pub open spec fn anchored_tips(
    d: Seq<u8>,
    base: int,
    len: int,
    anchors: Seq<(usize, Seq<char>)>,
    n: nat,
    documented: Option<usize>,
    deferred: bool,
) -> Seq<SampView>
    decreases n,
{
    if n == 0 {
        seq![]
    } else {
        let before = anchored_tips(d, base, len, anchors, (n - 1) as nat, documented, deferred);
        match samp_entry(
            d,
            base + anchors[n - 1].0,
            base + anchored_end(anchors, n - 1, len),
            Some(anchors[n - 1].1),
            documented,
            deferred,
        ) {
            Some(samp) => before.push(samp),
            None => before,
        }
    }
}

/// The tips of the block that fills `base..end` of the file `d`, in order. An entry whose
/// tip is not read is left out.
pub open spec fn samp_tips(
    d: Seq<u8>,
    base: int,
    end: int,
    documented: Option<usize>,
    deferred: bool,
) -> Seq<SampView> {
    let b = d.subrange(base, end);
    if framed_by_lengths(b) {
        let frames = frames_from(b, 0, seq![]).0;
        framed_tips(d, base, frames, frames.len(), documented, deferred)
    } else {
        let anchors = anchors_below(b, b.len());
        anchored_tips(d, base, end - base, anchors, anchors.len(), documented, deferred)
    }
}

fn parse_samp_block_by_lengths(
    file: &[u8],
    base: usize,
    end: usize,
    frames: &Vec<(usize, usize)>,
    documented: Option<usize>,
    deferred: bool,
    tips: &mut Vec<SampEntry>,
)
    requires
        base <= end <= file@.len(),
        forall|i: int|
            0 <= i < frames@.len() ==> (#[trigger] frames@[i]).0 <= frames@[i].1 <= end - base,
    ensures
        views(final(tips)@) == views(old(tips)@) + framed_tips(
            file@,
            base as int,
            frames@,
            frames@.len(),
            documented,
            deferred,
        ),
{
    let ghost first = tips@;
    assert(views(tips@) =~= views(first) + seq![]);
    let mut i: usize = 0;
    while i < frames.len()
        invariant
            i <= frames@.len(),
            base <= end <= file@.len(),
            forall|i: int|
                0 <= i < frames@.len() ==> (#[trigger] frames@[i]).0 <= frames@[i].1 <= end - base,
            views(tips@) == views(first) + framed_tips(
                file@,
                base as int,
                frames@,
                i as nat,
                documented,
                deferred,
            ),
        decreases frames@.len() - i,
    {
        let (from, to) = frames[i];
        let uuid: Option<String> = extract_entry_uuid(&file[base + from..base + to]);
        let ghost before = tips@;
        if let Some(samp) = read_samp_entry(
            file,
            base + from,
            base + to,
            uuid,
            documented,
            deferred,
        ) {
            tips.push(samp);
            assert(views(tips@) =~= views(before).push(samp@));
        }
        assert(views(tips@) =~= views(first) + framed_tips(
            file@,
            base as int,
            frames@,
            (i + 1) as nat,
            documented,
            deferred,
        ));
        i += 1;
    }
}

/// Anchors come in order.
pub proof fn anchors_are_ordered(d: Seq<u8>, n: nat)
    requires
        n <= d.len() <= usize::MAX,
    ensures
        forall|i: int|
            0 <= i < anchors_below(d, n).len() ==> (#[trigger] anchors_below(d, n)[i]).0 < n,
        forall|i: int, j: int|
            0 <= i < j < anchors_below(d, n).len() ==> (#[trigger] anchors_below(d, n)[i]).0 < (
            #[trigger] anchors_below(d, n)[j]).0,
    decreases n,
{
    if n > 0 {
        anchors_are_ordered(d, (n - 1) as nat);
        let before = anchors_below(d, (n - 1) as nat);
        let all = anchors_below(d, n);
        assert forall|i: int| 0 <= i < all.len() implies (#[trigger] all[i]).0 < n by {
            if i < before.len() {
                assert(all[i] == before[i]);
            }
        }
        assert forall|i: int, j: int| 0 <= i < j < all.len() implies (#[trigger] all[i]).0 < (
        #[trigger] all[j]).0 by {
            assert(all[i] == before[i]);
            if j < before.len() {
                assert(all[j] == before[j]);
            }
        }
    }
}

fn parse_samp_block_by_uuids(
    file: &[u8],
    base: usize,
    end: usize,
    anchors: &Vec<(usize, String)>,
    documented: Option<usize>,
    deferred: bool,
    tips: &mut Vec<SampEntry>,
)
    requires
        base <= end <= file@.len(),
        views(anchors@) == anchors_below(
            file@.subrange(base as int, end as int),
            (end - base) as nat,
        ),
    ensures
        views(final(tips)@) == views(old(tips)@) + anchored_tips(
            file@,
            base as int,
            end - base,
            views(anchors@),
            anchors@.len(),
            documented,
            deferred,
        ),
{
    let ghost first = tips@;
    let ghost all = views(anchors@);
    assert(views(tips@) =~= views(first) + seq![]);
    proof {
        anchors_are_ordered(file@.subrange(base as int, end as int), (end - base) as nat);
    }
    let mut i: usize = 0;
    while i < anchors.len()
        invariant
            i <= anchors@.len(),
            base <= end <= file@.len(),
            all == views(anchors@),
            forall|i: int| 0 <= i < all.len() ==> (#[trigger] all[i]).0 < end - base,
            forall|i: int, j: int|
                0 <= i < j < all.len() ==> (#[trigger] all[i]).0 < (#[trigger] all[j]).0,
            views(tips@) == views(first) + anchored_tips(
                file@,
                base as int,
                end - base,
                all,
                i as nat,
                documented,
                deferred,
            ),
        decreases anchors@.len() - i,
    {
        assert(all[i as int] == anchors@[i as int]@);
        let from: usize = anchors[i].0;
        let to: usize = if i + 1 < anchors.len() {
            assert(all[i + 1] == anchors@[i + 1]@);
            anchors[i + 1].0
        } else {
            end - base
        };
        let uuid: Option<String> = Some(anchors[i].1.clone());
        let ghost before = tips@;
        if let Some(samp) = read_samp_entry(
            file,
            base + from,
            base + to,
            uuid,
            documented,
            deferred,
        ) {
            tips.push(samp);
            assert(views(tips@) =~= views(before).push(samp@));
        }
        assert(views(tips@) =~= views(first) + anchored_tips(
            file@,
            base as int,
            end - base,
            all,
            (i + 1) as nat,
            documented,
            deferred,
        ));
        i += 1;
    }
}

/// Appends the tips of the block that fills `base..end` of the file.
pub fn parse_samp_block(
    file: &[u8],
    base: usize,
    end: usize,
    version: AbrVersion,
    subversion: u16,
    deferred: bool,
    tips: &mut Vec<SampEntry>,
)
    requires
        base <= end <= file@.len(),
    ensures
        views(final(tips)@) == views(old(tips)@) + samp_tips(
            file@,
            base as int,
            end as int,
            rect_offset_of(version, subversion),
            deferred,
        ),
{
    let block: &[u8] = &file[base..end];
    let documented: Option<usize> = documented_rect_offset(version, subversion);
    let anchors: Vec<(usize, String)> = find_all_uuid_offsets(block);
    let (frames, clean) = frame_samp_entries_by_length(block);
    assert(anchors@.len() == views(anchors@).len());
    if anchors.len() == 0 || (clean && every_body_is_anchored(block, &frames)) {
        parse_samp_block_by_lengths(file, base, end, &frames, documented, deferred, tips);
    } else {
        parse_samp_block_by_uuids(file, base, end, &anchors, documented, deferred, tips);
    }
}

} // verus!
