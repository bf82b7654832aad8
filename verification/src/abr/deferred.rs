//! Packs whose tips are decoded one at a time.
use vstd::prelude::*;
use crate::abr::legacy::{
    decode_stream_tip, entries_from, entry_at, name_at, stream_brushes, stream_entry, stream_header,
    stream_tip, stream_tips, StreamHeader, StreamView,
};
use crate::abr::limits::MAX_DIMENSION;
use crate::abr::pairing::{
    paired, presets_first, resolve, resolved, resolved_are_resolved, tip_named_is_named, unused,
    unused_are_tips, Info,
};
use crate::abr::parser::{
    at_most, block_keeps_order, blocks_from, header_of as file_header, in_order, infos_of,
    is_stream, order_grows, parse_abr_with, parsed, samps_of, texts, Block, ParsedAbr, ParsedView,
    PatternMode, TipMode, BLOCK_PATT, SIGNATURE,
};
use crate::abr::samp::{
    anchored_end, anchored_tips, anchors_are_ordered, anchors_below, entry_uuid, frames_from,
    framed_tips, header_is_wf, header_of, padded, rect_offset_of, samp_entry, samp_tips,
    DeferredTip, SampView, TipLayout,
};
use crate::abr::rle::rle_length_is_exact;
use crate::abr::tip::{decode_bitmap, pixel_bytes, tip_of, tip_size_is_exact};
use crate::abr::types::{
    AbrBrush, AbrError, AbrErrorView, AbrPack, AbrVersion, BrushView, DroppedTipDetail,
    DroppedTipView, PackView, TipBitmap, TipView,
};
use crate::support::bytes::{be_u32, fits};
use crate::support::text::{text, views};

verus! {

/// The tip whose bytes stand in the file `d` where `t` says.
pub open spec fn tip_at(d: Seq<u8>, t: DeferredTip) -> Result<TipView, AbrErrorView> {
    let bytes = d.subrange(t.start as int, t.end as int);
    match t.layout {
        TipLayout::Entry(h) => tip_of(bytes, h),
        TipLayout::Stream { width, height, depth, compressed } => stream_tip(
            bytes,
            width,
            height,
            depth,
            compressed,
        ),
    }
}

/// The tip's bytes stand in a file of `len` bytes, its size is one that tips have, and
/// raw pixels are as many as it asks for.
pub open spec fn tip_wf(t: DeferredTip, len: nat) -> bool {
    let blank = blank_tip(t);
    &&& t.start <= t.end <= len
    &&& blank.width <= MAX_DIMENSION
    &&& blank.height <= MAX_DIMENSION
    &&& blank.depth == 8 || blank.depth == 16
    &&& t.decoded_len == pixel_bytes(blank.width, blank.height, blank.depth)
    &&& match t.layout {
        TipLayout::Entry(h) => h.wf(),
        TipLayout::Stream { width, height, depth, compressed } => !compressed ==> t.end - t.start
            == t.decoded_len,
    }
}

/// The size and depth of a deferred tip, without pixels.
pub open spec fn blank_tip(t: DeferredTip) -> TipView {
    match t.layout {
        TipLayout::Entry(h) => TipView {
            width: h.width(),
            height: h.height(),
            depth: h.depth,
            data: seq![],
        },
        TipLayout::Stream { width, height, depth, compressed } => TipView {
            width,
            height,
            depth,
            data: seq![],
        },
    }
}

/// A tip's sides and depth are ones that tips have, and its pixels are as many as they ask
/// for.
pub open spec fn sized(tip: TipView) -> bool {
    &&& tip.width <= MAX_DIMENSION
    &&& tip.height <= MAX_DIMENSION
    &&& tip.depth == 8 || tip.depth == 16
    &&& tip.data.len() == pixel_bytes(tip.width, tip.height, tip.depth)
}

/// A deferred tip has its size and no pixels; another has both.
pub open spec fn place_wf(tip: TipView, place: Option<DeferredTip>, len: nat) -> bool {
    match place {
        Some(t) => tip_wf(t, len) && tip == blank_tip(t),
        None => sized(tip),
    }
}

/// All deferred tips are well-formed.
pub open spec fn tips_wf(tips: Seq<Option<DeferredTip>>, len: nat) -> bool {
    forall|i: int| 0 <= i < tips.len() ==> (#[trigger] tips[i] matches Some(t) ==> tip_wf(t, len))
}

/// The tips of all brushes are well-formed.
pub open spec fn brushes_wf(
    brushes: Seq<BrushView>,
    tips: Seq<Option<DeferredTip>>,
    len: nat,
) -> bool {
    &&& tips.len() == brushes.len()
    &&& forall|i: int| 0 <= i < tips.len() ==> place_wf(brushes[i].tip, #[trigger] tips[i], len)
}

/// The tips that no brush uses are well-formed.
pub open spec fn dropped_wf(
    dropped: Seq<DroppedTipView>,
    tips: Seq<Option<DeferredTip>>,
    len: nat,
) -> bool {
    &&& tips.len() == dropped.len()
    &&& forall|i: int|
        0 <= i < tips.len() ==> place_wf(dropped[i].bitmap, #[trigger] tips[i], len)
}

/// What a deferred tip decodes to has its size and depth, and as many pixels as they ask
/// for.
pub proof fn decoded_tip_is_sized(d: Seq<u8>, t: DeferredTip)
    requires
        tip_wf(t, d.len()),
    ensures
        tip_at(d, t) matches Ok(tip) ==> {
            &&& sized(tip)
            &&& tip == (TipView { data: tip.data, ..blank_tip(t) })
            &&& tip.data.len() == t.decoded_len
        },
{
    let bytes = d.subrange(t.start as int, t.end as int);
    match t.layout {
        TipLayout::Entry(h) => {
            tip_size_is_exact(bytes, h);
        },
        TipLayout::Stream { width, height, depth, compressed } => {
            stream_tip_is_sized(bytes, width, height, depth, compressed);
        },
    }
}

proof fn stream_tip_is_sized(
    bytes: Seq<u8>,
    width: u32,
    height: u32,
    depth: u8,
    compressed: bool,
)
    ensures
        compressed ==> (stream_tip(bytes, width, height, depth, compressed) matches Ok(tip)
            ==> tip.data.len() == pixel_bytes(width, height, depth)),
{
    let bpp = depth / 8;
    rle_length_is_exact(bytes, height as nat, (width * bpp) as nat);
    assert(height * (width * bpp) == width * height * bpp) by (nonlinear_arith);
}

pub fn decode_deferred_tip(data: &[u8], tip: &DeferredTip) -> (r: Result<TipBitmap, AbrError>)
    requires
        tip_wf(*tip, data@.len()),
    ensures
        match tip_at(data@, *tip) {
            Ok(t) => r matches Ok(v) && v@ == t,
            Err(e) => r matches Err(err) && err@ == e,
        },
{
    let bytes: &[u8] = &data[tip.start..tip.end];
    match tip.layout {
        TipLayout::Entry(h) => decode_bitmap(bytes, &h),
        TipLayout::Stream { width, height, depth, compressed } => decode_stream_tip(
            bytes,
            width,
            height,
            depth,
            compressed,
        ),
    }
}

spec fn samps_wf(samps: Seq<SampView>, len: nat) -> bool {
    forall|i: int|
        0 <= i < samps.len() ==> place_wf((#[trigger] samps[i]).bitmap, samps[i].deferred, len)
}

proof fn samp_entry_wf(
    d: Seq<u8>,
    start: int,
    end: int,
    uuid: Option<Seq<char>>,
    documented: Option<usize>,
    deferred: bool,
)
    requires
        0 <= start <= end <= d.len() <= usize::MAX,
    ensures
        samp_entry(d, start, end, uuid, documented, deferred) matches Some(s) ==> place_wf(
            s.bitmap,
            s.deferred,
            d.len(),
        ),
{
    reveal(samp_entry);
    let entry = d.subrange(start, end);
    header_is_wf(entry, documented);
    match header_of(entry, documented) {
        Some(h) => {
            tip_size_is_exact(entry, h);
        },
        None => {},
    }
}

/// The frames lie in a block of `len` bytes.
pub open spec fn frames_fit(frames: Seq<(usize, usize)>, len: int) -> bool {
    forall|i: int| 0 <= i < frames.len() ==> (#[trigger] frames[i]).0 <= frames[i].1 <= len
}

/// The lengths of a block frame entries of the block.
pub proof fn frames_wf(b: Seq<u8>, at: nat, found: Seq<(usize, usize)>)
    requires
        b.len() <= usize::MAX,
        frames_fit(found, b.len() as int),
    ensures
        frames_fit(frames_from(b, at, found).0, b.len() as int),
    decreases b.len() + 4 - at,
{
    if at + 4 <= b.len() {
        let end = at + 4 + be_u32(b, at as int) as nat;
        if be_u32(b, at as int) != 0 && end <= b.len() {
            let more = found.push(((at + 4) as usize, end as usize));
            assert(frames_fit(more, b.len() as int));
            frames_wf(b, padded(end), more);
        }
    }
}

proof fn framed_tips_wf(
    d: Seq<u8>,
    base: int,
    end: int,
    frames: Seq<(usize, usize)>,
    n: nat,
    documented: Option<usize>,
    deferred: bool,
)
    requires
        0 <= base <= end <= d.len() <= usize::MAX,
        n <= frames.len(),
        frames_fit(frames, end - base),
    ensures
        samps_wf(framed_tips(d, base, frames, n, documented, deferred), d.len()),
    decreases n,
{
    if n > 0 {
        framed_tips_wf(d, base, end, frames, (n - 1) as nat, documented, deferred);
        let (from, to) = frames[n - 1];
        samp_entry_wf(
            d,
            base + from,
            base + to,
            entry_uuid(d.subrange(base + from, base + to)),
            documented,
            deferred,
        );
    }
}

proof fn anchored_tips_wf(
    d: Seq<u8>,
    base: int,
    end: int,
    anchors: Seq<(usize, Seq<char>)>,
    n: nat,
    documented: Option<usize>,
    deferred: bool,
)
    requires
        0 <= base <= end <= d.len() <= usize::MAX,
        n <= anchors.len(),
        forall|i: int| 0 <= i < anchors.len() ==> (#[trigger] anchors[i]).0 < end - base,
        forall|i: int, j: int|
            0 <= i < j < anchors.len() ==> (#[trigger] anchors[i]).0 < (#[trigger] anchors[j]).0,
    ensures
        samps_wf(
            anchored_tips(d, base, end - base, anchors, n, documented, deferred),
            d.len(),
        ),
    decreases n,
{
    if n > 0 {
        anchored_tips_wf(d, base, end, anchors, (n - 1) as nat, documented, deferred);
        let from = anchors[n - 1].0;
        let to = anchored_end(anchors, n - 1, end - base);
        samp_entry_wf(
            d,
            base + from,
            base + to,
            Some(anchors[n - 1].1),
            documented,
            deferred,
        );
    }
}

proof fn samp_tips_wf(
    d: Seq<u8>,
    base: int,
    end: int,
    documented: Option<usize>,
    deferred: bool,
)
    requires
        0 <= base <= end <= d.len() <= usize::MAX,
    ensures
        samps_wf(samp_tips(d, base, end, documented, deferred), d.len()),
{
    let b = d.subrange(base, end);
    let frames = frames_from(b, 0, seq![]).0;
    frames_wf(b, 0, seq![]);
    framed_tips_wf(d, base, end, frames, frames.len(), documented, deferred);
    let anchors = anchors_below(b, b.len());
    anchors_are_ordered(b, b.len());
    anchored_tips_wf(d, base, end, anchors, anchors.len(), documented, deferred);
}

proof fn samps_of_wf(
    d: Seq<u8>,
    blocks: Seq<Block>,
    n: nat,
    documented: Option<usize>,
    deferred: bool,
)
    requires
        n <= blocks.len(),
        in_order(blocks, d.len()),
        d.len() <= usize::MAX,
    ensures
        samps_wf(samps_of(d, blocks, n, documented, deferred), d.len()),
    decreases n,
{
    if n > 0 {
        reveal(in_order);
        samps_of_wf(d, blocks, (n - 1) as nat, documented, deferred);
        samp_tips_wf(
            d,
            blocks[n - 1].start as int,
            blocks[n - 1].end as int,
            documented,
            deferred,
        );
    }
}

/// The blocks of a file come one behind the other.
pub proof fn blocks_are_in_order(d: Seq<u8>, p: nat, patterns: PatternMode, found: Seq<Block>)
    requires
        p <= d.len() <= usize::MAX,
        in_order(found, p),
    ensures
        blocks_from(d, p, patterns, found) matches Ok(blocks) ==> in_order(blocks, d.len()),
    decreases d.len() - p,
{
    order_grows(found, p, d.len());
    if fits(d, p, 12) && be_u32(d, p as int) == SIGNATURE {
        let start = p + 12;
        let end = start + be_u32(d, p as int + 8) as nat;
        if end <= d.len() {
            let kind = be_u32(d, p as int + 4);
            let block = Block { kind, start: start as usize, end: end as usize };
            let next = at_most(padded(end), d.len());
            block_keeps_order(found, p, block, next);
            if patterns == PatternMode::Skip && kind == BLOCK_PATT {
                blocks_are_in_order(d, next, patterns, found);
            } else {
                blocks_are_in_order(d, next, patterns, found.push(block));
            }
        }
    }
}

proof fn paired_wf(samps: Seq<SampView>, infos: Seq<Info>, len: nat)
    requires
        samps_wf(samps, len),
    ensures
        brushes_wf(paired(samps, infos).brushes, paired(samps, infos).tips, len),
        dropped_wf(paired(samps, infos).dropped, paired(samps, infos).dropped_tips, len),
{
    let pairs = paired(samps, infos);
    let named = resolved(samps, infos, infos.len());
    let left = unused(samps, infos, samps.len());
    resolved_are_resolved(samps, infos, infos.len());
    unused_are_tips(samps, infos, samps.len());
    if presets_first(samps, infos) {
        assert forall|i: int| 0 <= i < pairs.tips.len() implies place_wf(
            pairs.brushes[i].tip,
            #[trigger] pairs.tips[i],
            len,
        ) by {
            let info = infos[named[i] as int];
            tip_named_is_named(samps, samps.len(), info.sampled_data_uuid->0);
            let k = resolve(samps, info)->0;
            assert(place_wf(samps[k as int].bitmap, samps[k as int].deferred, len));
        }
        assert forall|i: int| 0 <= i < pairs.dropped_tips.len() implies place_wf(
            pairs.dropped[i].bitmap,
            #[trigger] pairs.dropped_tips[i],
            len,
        ) by {
            let k = left[i] as int;
            assert(place_wf(samps[k].bitmap, samps[k].deferred, len));
        }
    } else {
        assert forall|i: int| 0 <= i < pairs.tips.len() implies place_wf(
            pairs.brushes[i].tip,
            #[trigger] pairs.tips[i],
            len,
        ) by {
            let k = samps.len() - 1 - i;
            assert(place_wf(samps[k].bitmap, samps[k].deferred, len));
        }
    }
}

spec fn stream_wf(tips: Seq<StreamView>, len: nat) -> bool {
    forall|i: int|
        0 <= i < tips.len() ==> place_wf((#[trigger] tips[i]).tip, tips[i].deferred, len)
}

proof fn stream_entry_wf(
    d: Seq<u8>,
    name: Seq<char>,
    h: StreamHeader,
    end: nat,
    compressed: bool,
    deferred: bool,
)
    requires
        h.pixel_start <= end <= d.len() <= usize::MAX,
        h.width <= MAX_DIMENSION,
        h.height <= MAX_DIMENSION,
        h.depth == 8 || h.depth == 16,
        h.expected == pixel_bytes(h.width, h.height, h.depth),
        !compressed ==> end - h.pixel_start == h.expected,
    ensures
        stream_entry(d, name, h, end, compressed, deferred) matches Ok(s) ==> place_wf(
            s.tip,
            s.deferred,
            d.len(),
        ),
{
    stream_tip_is_sized(
        d.subrange(h.pixel_start as int, end as int),
        h.width,
        h.height,
        h.depth,
        compressed,
    );
}

proof fn entry_wf(d: Seq<u8>, p: nat, version: AbrVersion, deferred: bool)
    requires
        d.len() <= usize::MAX,
    ensures
        entry_at(d, p, version, deferred) matches Ok((Some(s), q)) ==> place_wf(
            s.tip,
            s.deferred,
            d.len(),
        ),
{
    if fits(d, p, 12) {
        let end = p + 6 + be_u32(d, p as int + 2) as nat;
        match name_at(d, p + 12, version) {
            Ok((name, q)) => match stream_header(d, q, end) {
                Ok(h) => {
                    let stop = h.pixel_start as nat + h.expected as nat;
                    if h.compression == 0 && stop <= d.len() {
                        stream_entry_wf(d, name, h, stop, false, deferred);
                    }
                    if h.compression == 1 {
                        stream_entry_wf(d, name, h, end, true, deferred);
                    }
                },
                Err(_) => {},
            },
            Err(_) => {},
        }
    }
}

proof fn entries_wf(
    d: Seq<u8>,
    p: nat,
    n: nat,
    version: AbrVersion,
    deferred: bool,
    found: Seq<StreamView>,
)
    requires
        d.len() <= usize::MAX,
        stream_wf(found, d.len()),
    ensures
        entries_from(d, p, n, version, deferred, found) matches Ok(tips) ==> stream_wf(
            tips,
            d.len(),
        ),
    decreases n,
{
    if n > 0 {
        entry_wf(d, p, version, deferred);
        match entry_at(d, p, version, deferred) {
            Ok((Some(tip), q)) => {
                entries_wf(d, q, (n - 1) as nat, version, deferred, found.push(tip));
            },
            Ok((None, q)) => {
                entries_wf(d, q, (n - 1) as nat, version, deferred, found);
            },
            Err(_) => {},
        }
    }
}

/// The tips of a file that was read are well-formed: a deferred one stands in the file, and
/// the others have as many pixels as their size asks for.
pub proof fn parsed_wf(d: Seq<u8>, mode: TipMode, patterns: PatternMode)
    requires
        d.len() <= usize::MAX,
    ensures
        parsed(d, mode, patterns) matches Ok(p) ==> {
            &&& brushes_wf(p.pack.brushes, p.tips, d.len())
            &&& dropped_wf(p.pack.dropped_tips, p.dropped_tips, d.len())
        },
{
    reveal(parsed);
    match file_header(d) {
        Ok((version, subversion)) => if is_stream(version) {
            let deferred = mode == TipMode::AllDeferred;
            entries_wf(d, 4, subversion as nat, version, deferred, seq![]);
            match entries_from(d, 4, subversion as nat, version, deferred, seq![]) {
                Ok(tips) => {
                    assert forall|i: int| 0 <= i < stream_tips(tips).len() implies place_wf(
                        stream_brushes(tips)[i].tip,
                        #[trigger] stream_tips(tips)[i],
                        d.len(),
                    ) by {
                        let k = tips.len() - 1 - i;
                        assert(place_wf(tips[k].tip, tips[k].deferred, d.len()));
                    }
                },
                Err(_) => {},
            }
        } else {
            assert(in_order(seq![], 4)) by {
                reveal(in_order);
            }
            blocks_are_in_order(d, 4, patterns, seq![]);
            match blocks_from(d, 4, patterns, seq![]) {
                Ok(blocks) => {
                    let documented = rect_offset_of(version, subversion);
                    let deferred = mode != TipMode::Eager;
                    samps_of_wf(d, blocks, blocks.len(), documented, deferred);
                    paired_wf(
                        samps_of(d, blocks, blocks.len(), documented, deferred),
                        infos_of(d, blocks, blocks.len()),
                        d.len(),
                    );
                },
                Err(_) => {},
            }
        },
        Err(_) => {},
    }
}

/// Does a preset name this uuid for its second tip?
pub open spec fn is_dual(dual_uuids: Seq<Option<Seq<char>>>, uuid: Seq<char>) -> bool {
    dual_uuids.contains(Some(uuid))
}

/// The first `n` dropped tips with their pixels.
pub open spec fn settled_dropped(
    d: Seq<u8>,
    dropped: Seq<DroppedTipView>,
    tips: Seq<Option<DeferredTip>>,
    n: nat,
) -> Result<Seq<DroppedTipView>, AbrErrorView>
    decreases n,
{
    if n == 0 {
        Ok(seq![])
    } else {
        match settled_dropped(d, dropped, tips, (n - 1) as nat) {
            Ok(before) => match tips[n - 1] {
                Some(t) => match tip_at(d, t) {
                    Ok(bitmap) => Ok(before.push(DroppedTipView { bitmap, ..dropped[n - 1] })),
                    Err(e) => Err(e),
                },
                None => Ok(before.push(dropped[n - 1])),
            },
            Err(e) => Err(e),
        }
    }
}

/// The first `n` brushes, where those that are second tips of presets have their pixels,
/// and where the pixels of the others stand.
pub open spec fn settled_brushes(
    d: Seq<u8>,
    brushes: Seq<BrushView>,
    tips: Seq<Option<DeferredTip>>,
    dual_uuids: Seq<Option<Seq<char>>>,
    n: nat,
) -> Result<(Seq<BrushView>, Seq<Option<DeferredTip>>), AbrErrorView>
    decreases n,
{
    if n == 0 {
        Ok((seq![], seq![]))
    } else {
        match settled_brushes(d, brushes, tips, dual_uuids, (n - 1) as nat) {
            Ok((done, left)) => match tips[n - 1] {
                Some(t) => if is_dual(dual_uuids, brushes[n - 1].id) {
                    match tip_at(d, t) {
                        Ok(tip) => Ok(
                            (done.push(BrushView { tip, ..brushes[n - 1] }), left.push(None)),
                        ),
                        Err(e) => Err(e),
                    }
                } else {
                    Ok((done.push(brushes[n - 1]), left.push(tips[n - 1])))
                },
                None => Ok((done.push(brushes[n - 1]), left.push(None))),
            },
            Err(e) => Err(e),
        }
    }
}

/// The model of a [`DeferredPack`].
pub struct DeferredView {
    pub pack: PackView,
    /// Where the pixels of each brush stand, if they are deferred.
    pub tips: Seq<Option<DeferredTip>>,
    /// The file.
    pub bytes: Seq<u8>,
}

/// What a file says, with the dropped tips and the second tips of presets decoded.
pub open spec fn settled(d: Seq<u8>, p: ParsedView) -> Result<DeferredView, AbrErrorView> {
    match settled_dropped(d, p.pack.dropped_tips, p.dropped_tips, p.pack.dropped_tips.len()) {
        Ok(dropped_tips) => match settled_brushes(
            d,
            p.pack.brushes,
            p.tips,
            p.dual_uuids,
            p.pack.brushes.len(),
        ) {
            Ok((brushes, tips)) => Ok(
                DeferredView {
                    pack: PackView { brushes, dropped_tips, ..p.pack },
                    tips,
                    bytes: d,
                },
            ),
            Err(e) => Err(e),
        },
        Err(e) => Err(e),
    }
}

/// The deferred pack of a file.
pub open spec fn deferred_of(d: Seq<u8>, patterns: PatternMode) -> Result<
    DeferredView,
    AbrErrorView,
> {
    match parsed(d, TipMode::Deferred, patterns) {
        Ok(p) => settled(d, p),
        Err(e) => Err(e),
    }
}

/// The deferred pack of a file of which no tip is decoded.
pub open spec fn all_deferred_of(d: Seq<u8>) -> Result<DeferredView, AbrErrorView> {
    match parsed(d, TipMode::AllDeferred, PatternMode::Skip) {
        Ok(p) => Ok(DeferredView { pack: p.pack, tips: p.tips, bytes: d }),
        Err(e) => Err(e),
    }
}

/// A pack whose sampled tips are still to be decoded.
///
/// A deferred brush has a tip of the right size and depth without pixels; they come from
/// [`decode_tip`](DeferredPack::decode_tip). The pack borrows the file instead of copying
/// tips out of it.
pub struct DeferredPack<'a> {
    pub pack: AbrPack,
    /// Where the pixels of each brush stand, if they are deferred.
    pub tips: Vec<Option<DeferredTip>>,
    /// The file.
    pub bytes: &'a [u8],
}

impl<'a> View for DeferredPack<'a> {
    type V = DeferredView;

    open spec fn view(&self) -> DeferredView {
        DeferredView { pack: self.pack@, tips: self.tips@, bytes: self.bytes@ }
    }
}

impl DeferredView {
    /// The tips of all brushes are well-formed.
    pub open spec fn wf(self) -> bool {
        brushes_wf(self.pack.brushes, self.tips, self.bytes.len())
    }

    /// Is brush `i` deferred?
    pub open spec fn deferred(self, i: int) -> bool {
        0 <= i < self.tips.len() && self.tips[i] is Some
    }

    /// The tip of brush `i`.
    pub open spec fn tip(self, i: int) -> Result<TipView, AbrErrorView> {
        match self.tips[i] {
            Some(t) => tip_at(self.bytes, t),
            None => Ok(self.pack.brushes[i].tip),
        }
    }

    /// The bytes that the decoded tip of brush `i` takes.
    pub open spec fn tip_len(self, i: int) -> nat {
        match self.tips[i] {
            Some(t) => t.decoded_len as nat,
            None => self.pack.brushes[i].tip.data.len(),
        }
    }
}

impl<'a> DeferredPack<'a> {
    /// Are the pixels of brush `i` still to be decoded?
    pub fn is_deferred(&self, i: usize) -> (r: bool)
        ensures
            r == self@.deferred(i as int),
    {
        i < self.tips.len() && self.tips[i].is_some()
    }

    /// The bytes that the pixels of brush `i` take once they are decoded.
    pub fn tip_decoded_len(&self, i: usize) -> (r: usize)
        requires
            self@.wf(),
            i < self@.pack.brushes.len(),
        ensures
            r == self@.tip_len(i as int),
    {
        assert(self@.pack.brushes[i as int] == self.pack.brushes@[i as int]@);
        match self.tips[i] {
            Some(t) => t.decoded_len,
            None => self.pack.brushes[i].tip.data.len(),
        }
    }

    /// The tip of brush `i`, decoded.
    pub fn decode_tip(&self, i: usize) -> (r: Result<TipBitmap, AbrError>)
        requires
            self@.wf(),
            i < self@.pack.brushes.len(),
        ensures
            match self@.tip(i as int) {
                Ok(tip) => r matches Ok(v) && v@ == tip,
                Err(e) => r matches Err(err) && err@ == e,
            },
    {
        assert(self@.pack.brushes[i as int] == self.pack.brushes@[i as int]@);
        assert(self@.tips[i as int] == self.tips@[i as int]);
        match self.tips[i] {
            Some(t) => decode_deferred_tip(self.bytes, &t),
            None => Ok(self.pack.brushes[i].tip.duplicate()),
        }
    }
}

proof fn dropped_error_stays(
    d: Seq<u8>,
    dropped: Seq<DroppedTipView>,
    tips: Seq<Option<DeferredTip>>,
    m: nat,
    n: nat,
)
    requires
        m <= n,
        settled_dropped(d, dropped, tips, m) is Err,
    ensures
        settled_dropped(d, dropped, tips, n) == settled_dropped(d, dropped, tips, m),
    decreases n,
{
    if m < n {
        dropped_error_stays(d, dropped, tips, m, (n - 1) as nat);
    }
}

proof fn brushes_error_stays(
    d: Seq<u8>,
    brushes: Seq<BrushView>,
    tips: Seq<Option<DeferredTip>>,
    dual_uuids: Seq<Option<Seq<char>>>,
    m: nat,
    n: nat,
)
    requires
        m <= n,
        settled_brushes(d, brushes, tips, dual_uuids, m) is Err,
    ensures
        settled_brushes(d, brushes, tips, dual_uuids, n) == settled_brushes(
            d,
            brushes,
            tips,
            dual_uuids,
            m,
        ),
    decreases n,
{
    if m < n {
        brushes_error_stays(d, brushes, tips, dual_uuids, m, (n - 1) as nat);
    }
}

fn settle_dropped(
    data: &[u8],
    tips: &Vec<Option<DeferredTip>>,
    dropped: &mut Vec<DroppedTipDetail>,
) -> (r: Result<(), AbrError>)
    requires
        tips@.len() == old(dropped)@.len(),
        tips_wf(tips@, data@.len()),
    ensures
        match settled_dropped(data@, views(old(dropped)@), tips@, tips@.len()) {
            Ok(all) => r is Ok && views(final(dropped)@) == all,
            Err(e) => r matches Err(err) && err@ == e,
        },
        final(dropped)@.len() == old(dropped)@.len(),
{
    let ghost first = views(dropped@);
    let mut i: usize = 0;
    assert(views(dropped@).take(0) =~= seq![]);
    while i < tips.len()
        invariant
            i <= tips@.len(),
            tips@.len() == dropped@.len(),
            dropped@.len() == old(dropped)@.len(),
            tips_wf(tips@, data@.len()),
            first == views(old(dropped)@),
            forall|j: int| i <= j < dropped@.len() ==> (#[trigger] dropped@[j])@ == first[j],
            settled_dropped(data@, first, tips@, i as nat) == Ok::<_, AbrErrorView>(
                views(dropped@).take(i as int),
            ),
        decreases tips@.len() - i,
    {
        let ghost before = dropped@;
        assert(before[i as int]@ == first[i as int]);
        if let Some(t) = &tips[i] {
            match decode_deferred_tip(data, t) {
                Ok(bitmap) => {
                    let detail: &mut DroppedTipDetail = &mut dropped[i];
                    detail.bitmap = bitmap;
                },
                Err(e) => {
                    proof {
                        dropped_error_stays(data@, first, tips@, (i + 1) as nat, tips@.len());
                    }
                    return Err(e);
                },
            }
        }
        proof {
            assert(views(dropped@).take(i + 1) =~= views(before).take(i as int).push(
                dropped@[i as int]@,
            ));
        }
        i += 1;
    }
    assert(views(dropped@).take(i as int) =~= views(dropped@));
    Ok(())
}

fn contains_uuid(uuids: &Vec<Option<String>>, uuid: &String) -> (r: bool)
    ensures
        r == is_dual(texts(uuids@), uuid@),
{
    let mut i: usize = 0;
    while i < uuids.len()
        invariant
            i <= uuids@.len(),
            forall|j: int| 0 <= j < i ==> #[trigger] texts(uuids@)[j] != Some(uuid@),
        decreases uuids@.len() - i,
    {
        assert(texts(uuids@)[i as int] == text(uuids@[i as int]));
        if let Some(u) = &uuids[i] {
            if *u == *uuid {
                return true;
            }
        }
        i += 1;
    }
    false
}

fn settle_brushes(
    data: &[u8],
    dual_uuids: &Vec<Option<String>>,
    tips: &mut Vec<Option<DeferredTip>>,
    brushes: &mut Vec<AbrBrush>,
) -> (r: Result<(), AbrError>)
    requires
        brushes_wf(views(old(brushes)@), old(tips)@, data@.len()),
    ensures
        match settled_brushes(
            data@,
            views(old(brushes)@),
            old(tips)@,
            texts(dual_uuids@),
            old(tips)@.len(),
        ) {
            Ok((all, left)) => r is Ok && views(final(brushes)@) == all && final(tips)@ == left,
            Err(e) => r matches Err(err) && err@ == e,
        },
        r is Ok ==> brushes_wf(views(final(brushes)@), final(tips)@, data@.len()),
{
    let ghost first = views(brushes@);
    let ghost places = tips@;
    let ghost duals = texts(dual_uuids@);
    let mut i: usize = 0;
    assert(views(brushes@).take(0) =~= seq![]);
    assert(tips@.take(0) =~= seq![]);
    while i < tips.len()
        invariant
            i <= tips@.len(),
            tips@.len() == brushes@.len(),
            tips@.len() == places.len(),
            brushes@.len() == old(brushes)@.len(),
            brushes_wf(views(brushes@), tips@, data@.len()),
            first == views(old(brushes)@),
            places == old(tips)@,
            duals == texts(dual_uuids@),
            forall|j: int| i <= j < brushes@.len() ==> (#[trigger] brushes@[j])@ == first[j],
            forall|j: int| i <= j < tips@.len() ==> #[trigger] tips@[j] == places[j],
            settled_brushes(data@, first, places, duals, i as nat) == Ok::<_, AbrErrorView>(
                (views(brushes@).take(i as int), tips@.take(i as int)),
            ),
        decreases tips@.len() - i,
    {
        let ghost before = brushes@;
        let ghost tips_before = tips@;
        assert(before[i as int]@ == first[i as int]);
        assert(tips_before[i as int] == places[i as int]);
        assert(place_wf(views(before)[i as int].tip, tips_before[i as int], data@.len()));
        let place: Option<DeferredTip> = tips[i];
        if let Some(t) = &place {
            if contains_uuid(dual_uuids, &brushes[i].id) {
                match decode_deferred_tip(data, t) {
                    Ok(tip) => {
                        proof {
                            decoded_tip_is_sized(data@, *t);
                        }
                        let brush: &mut AbrBrush = &mut brushes[i];
                        brush.tip = tip;
                        tips[i] = None;
                    },
                    Err(e) => {
                        proof {
                            brushes_error_stays(
                                data@,
                                first,
                                places,
                                duals,
                                (i + 1) as nat,
                                places.len(),
                            );
                        }
                        return Err(e);
                    },
                }
            }
        }
        proof {
            assert(views(brushes@).take(i + 1) =~= views(before).take(i as int).push(
                brushes@[i as int]@,
            ));
            assert(tips@.take(i + 1) =~= tips_before.take(i as int).push(tips@[i as int]));
            assert forall|j: int| 0 <= j < tips@.len() implies place_wf(
                views(brushes@)[j].tip,
                #[trigger] tips@[j],
                data@.len(),
            ) by {
                if j != i {
                    assert(place_wf(views(before)[j].tip, tips_before[j], data@.len()));
                }
            }
        }
        i += 1;
    }
    assert(views(brushes@).take(i as int) =~= views(brushes@));
    assert(tips@.take(i as int) =~= tips@);
    Ok(())
}

fn parse_abr_deferred_with(bytes: &[u8], patterns: PatternMode) -> (r: Result<
    DeferredPack<'_>,
    AbrError,
>)
    ensures
        match deferred_of(bytes@, patterns) {
            Ok(p) => r matches Ok(v) && v@ == p && p.wf() && v.pack.counted(),
            Err(e) => r matches Err(err) && err@ == e,
        },
{
    proof {
        assert(bytes.len() <= usize::MAX);
        parsed_wf(bytes@, TipMode::Deferred, patterns);
    }
    let ParsedAbr { mut pack, mut tips, dropped_tips, dual_uuids } = parse_abr_with(
        bytes,
        TipMode::Deferred,
        patterns,
    )?;
    settle_dropped(bytes, &dropped_tips, &mut pack.dropped_tip_details)?;
    settle_brushes(bytes, &dual_uuids, &mut tips, &mut pack.brushes)?;
    Ok(DeferredPack { pack, tips, bytes })
}

/// The pack that a file holds, with sampled tips left to be decoded one at a time.
///
/// Decoded all the same are the tips of an entry stream, those that no brush uses, and the
/// brushes that a preset names for its second tip.
pub fn parse_abr_deferred(bytes: &[u8]) -> (r: Result<DeferredPack<'_>, AbrError>)
    ensures
        match deferred_of(bytes@, PatternMode::Read) {
            Ok(p) => r matches Ok(v) && v@ == p && p.wf() && v.pack.counted(),
            Err(e) => r matches Err(err) && err@ == e,
        },
{
    parse_abr_deferred_with(bytes, PatternMode::Read)
}

/// Like [`parse_abr_deferred`], but patterns are passed over: the pattern lists are empty.
pub fn parse_abr_deferred_without_patterns(bytes: &[u8]) -> (r: Result<DeferredPack<'_>, AbrError>)
    ensures
        match deferred_of(bytes@, PatternMode::Skip) {
            Ok(p) => r matches Ok(v) && v@ == p && p.wf() && v.pack.counted(),
            Err(e) => r matches Err(err) && err@ == e,
        },
{
    parse_abr_deferred_with(bytes, PatternMode::Skip)
}

/// The pack that a file holds, with no tip decoded and patterns passed over.
///
/// A PackBits tip of an entry stream that cannot be decoded is then no error of the pack,
/// but of [`decode_tip`](DeferredPack::decode_tip). A tip that no brush uses has its size
/// and no pixels.
pub fn parse_abr_all_deferred_without_patterns(bytes: &[u8]) -> (r: Result<
    DeferredPack<'_>,
    AbrError,
>)
    ensures
        match all_deferred_of(bytes@) {
            Ok(p) => r matches Ok(v) && v@ == p && p.wf() && v.pack.counted(),
            Err(e) => r matches Err(err) && err@ == e,
        },
{
    proof {
        assert(bytes.len() <= usize::MAX);
        parsed_wf(bytes@, TipMode::AllDeferred, PatternMode::Skip);
    }
    let ParsedAbr { pack, tips, dropped_tips: _, dual_uuids: _ } = parse_abr_with(
        bytes,
        TipMode::AllDeferred,
        PatternMode::Skip,
    )?;
    Ok(DeferredPack { pack, tips, bytes })
}

} // verus!
