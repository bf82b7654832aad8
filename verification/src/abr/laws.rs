//! What holds of packs as a whole.
use vstd::prelude::*;
use crate::abr::deferred::{
    all_deferred_of, blocks_are_in_order, deferred_of, frames_fit, frames_wf, is_dual, parsed_wf,
    settled_brushes, tip_at, DeferredView,
};
use crate::abr::legacy::{entries_from, entry_at, StreamView};
use crate::abr::pairing::{
    computed_of, dangling, dropped_tip, is_used, paired, presets_first, resolve, resolved,
    resolved_are_resolved, tip_named, tip_named_is_named, unsupported_of, unused, unused_are_tips,
    Info,
};
use crate::abr::parser::{
    at_most, blocks_from, desc_error_of, header_of, in_order, infos_of, is_stream, parsed, patts_of,
    raw_desc_of, samps_of, Block, ParsedView, PatternMode, TipMode, BLOCK_PATT, SIGNATURE,
};
use crate::abr::samp::{
    anchored_end, anchored_tips, anchors_are_ordered, anchors_below, entry_uuid, frames_from,
    framed_tips, padded, rect_offset_of, samp_entry, samp_tips, DeferredTip, SampView,
};
use crate::support::bytes::{be_u32, fits};
use crate::abr::types::{
    bare_pack, AbrErrorView, AbrVersion, BrushView, DroppedTipView, PackView, TipView,
};

verus! {

/// Can the pixels of this deferred tip be decoded?
pub open spec fn decodes(d: Seq<u8>, tip: Option<DeferredTip>) -> bool {
    tip matches Some(t) && tip_at(d, t) is Ok
}

/// A deferred tip with its pixels.
pub open spec fn with_pixels(d: Seq<u8>, s: SampView) -> SampView {
    SampView { bitmap: tip_at(d, s.deferred->0)->Ok_0, deferred: None, ..s }
}

/// Those of the deferred tips that can be decoded, with their pixels.
pub open spec fn decodable(d: Seq<u8>, samps: Seq<SampView>) -> Seq<SampView>
    decreases samps.len(),
{
    if samps.len() == 0 {
        seq![]
    } else {
        let before = decodable(d, samps.drop_last());
        if decodes(d, samps.last().deferred) {
            before.push(with_pixels(d, samps.last()))
        } else {
            before
        }
    }
}

proof fn decodable_push(d: Seq<u8>, a: Seq<SampView>, s: SampView)
    ensures
        decodable(d, a.push(s)) == (if decodes(d, s.deferred) {
            decodable(d, a).push(with_pixels(d, s))
        } else {
            decodable(d, a)
        }),
{
    assert(a.push(s).drop_last() =~= a);
}

proof fn decodable_concat(d: Seq<u8>, a: Seq<SampView>, b: Seq<SampView>)
    ensures
        decodable(d, a + b) == decodable(d, a) + decodable(d, b),
    decreases b.len(),
{
    if b.len() == 0 {
        assert(a + b =~= a);
        assert(decodable(d, a) + decodable(d, b) =~= decodable(d, a));
    } else {
        decodable_concat(d, a, b.drop_last());
        assert((a + b).drop_last() =~= a + b.drop_last());
        assert((a + b).last() == b.last());
        assert(decodable(d, a + b) =~= decodable(d, a) + decodable(d, b));
    }
}

proof fn entry_decodes(
    d: Seq<u8>,
    start: int,
    end: int,
    uuid: Option<Seq<char>>,
    documented: Option<usize>,
)
    requires
        0 <= start <= end <= d.len() <= usize::MAX,
    ensures
        samp_entry(d, start, end, uuid, documented, false) == (match samp_entry(
            d,
            start,
            end,
            uuid,
            documented,
            true,
        ) {
            Some(s) => if decodes(d, s.deferred) {
                Some(with_pixels(d, s))
            } else {
                None
            },
            None => None,
        }),
{
    reveal(samp_entry);
}

proof fn framed_decode(
    d: Seq<u8>,
    base: int,
    end: int,
    frames: Seq<(usize, usize)>,
    n: nat,
    documented: Option<usize>,
)
    requires
        0 <= base <= end <= d.len() <= usize::MAX,
        n <= frames.len(),
        frames_fit(frames, end - base),
    ensures
        framed_tips(d, base, frames, n, documented, false) == decodable(
            d,
            framed_tips(d, base, frames, n, documented, true),
        ),
    decreases n,
{
    if n > 0 {
        framed_decode(d, base, end, frames, (n - 1) as nat, documented);
        let (from, to) = frames[n - 1];
        let uuid = entry_uuid(d.subrange(base + from, base + to));
        entry_decodes(d, base + from, base + to, uuid, documented);
        let before = framed_tips(d, base, frames, (n - 1) as nat, documented, true);
        match samp_entry(d, base + from, base + to, uuid, documented, true) {
            Some(s) => {
                decodable_push(d, before, s);
            },
            None => {},
        }
    }
}

proof fn anchored_decode(
    d: Seq<u8>,
    base: int,
    end: int,
    anchors: Seq<(usize, Seq<char>)>,
    n: nat,
    documented: Option<usize>,
)
    requires
        0 <= base <= end <= d.len() <= usize::MAX,
        n <= anchors.len(),
        forall|i: int| 0 <= i < anchors.len() ==> (#[trigger] anchors[i]).0 < end - base,
        forall|i: int, j: int|
            0 <= i < j < anchors.len() ==> (#[trigger] anchors[i]).0 < (#[trigger] anchors[j]).0,
    ensures
        anchored_tips(d, base, end - base, anchors, n, documented, false) == decodable(
            d,
            anchored_tips(d, base, end - base, anchors, n, documented, true),
        ),
    decreases n,
{
    if n > 0 {
        anchored_decode(d, base, end, anchors, (n - 1) as nat, documented);
        let from = anchors[n - 1].0;
        let to = anchored_end(anchors, n - 1, end - base);
        let uuid = Some(anchors[n - 1].1);
        entry_decodes(d, base + from, base + to, uuid, documented);
        let before = anchored_tips(
            d,
            base,
            end - base,
            anchors,
            (n - 1) as nat,
            documented,
            true,
        );
        match samp_entry(d, base + from, base + to, uuid, documented, true) {
            Some(s) => {
                decodable_push(d, before, s);
            },
            None => {},
        }
    }
}

proof fn block_decodes(d: Seq<u8>, base: int, end: int, documented: Option<usize>)
    requires
        0 <= base <= end <= d.len() <= usize::MAX,
    ensures
        samp_tips(d, base, end, documented, false) == decodable(
            d,
            samp_tips(d, base, end, documented, true),
        ),
{
    let b = d.subrange(base, end);
    let frames = frames_from(b, 0, seq![]).0;
    frames_wf(b, 0, seq![]);
    framed_decode(d, base, end, frames, frames.len(), documented);
    let anchors = anchors_below(b, b.len());
    anchors_are_ordered(b, b.len());
    anchored_decode(d, base, end, anchors, anchors.len(), documented);
}

/// The sampled tips of the block format are those deferred tips that can be decoded, with
/// their pixels.
pub proof fn samps_decode(d: Seq<u8>, blocks: Seq<Block>, n: nat, documented: Option<usize>)
    requires
        n <= blocks.len(),
        in_order(blocks, d.len()),
        d.len() <= usize::MAX,
    ensures
        samps_of(d, blocks, n, documented, false) == decodable(
            d,
            samps_of(d, blocks, n, documented, true),
        ),
    decreases n,
{
    if n > 0 {
        reveal(in_order);
        samps_decode(d, blocks, (n - 1) as nat, documented);
        let b = blocks[n - 1];
        block_decodes(d, b.start as int, b.end as int, documented);
        decodable_concat(
            d,
            samps_of(d, blocks, (n - 1) as nat, documented, true),
            samp_tips(d, b.start as int, b.end as int, documented, true),
        );
    }
}

/// Can all of these deferred tips be decoded?
pub open spec fn all_decode(d: Seq<u8>, tips: Seq<Option<DeferredTip>>) -> bool {
    forall|i: int| 0 <= i < tips.len() ==> decodes(d, #[trigger] tips[i])
}

spec fn samps_all_decode(d: Seq<u8>, samps: Seq<SampView>) -> bool {
    forall|i: int| 0 <= i < samps.len() ==> decodes(d, (#[trigger] samps[i]).deferred)
}

proof fn decodable_of_all(d: Seq<u8>, samps: Seq<SampView>)
    requires
        samps_all_decode(d, samps),
    ensures
        decodable(d, samps) == samps.map_values(|s: SampView| with_pixels(d, s)),
    decreases samps.len(),
{
    let f = |s: SampView| with_pixels(d, s);
    if samps.len() > 0 {
        let init = samps.drop_last();
        assert forall|i: int| 0 <= i < init.len() implies decodes(
            d,
            (#[trigger] init[i]).deferred,
        ) by {
            assert(init[i] == samps[i]);
        }
        decodable_of_all(d, init);
        assert(decodes(d, samps[samps.len() - 1].deferred));
        assert(samps.map_values(f) =~= init.map_values(f).push(with_pixels(d, samps.last())));
    } else {
        assert(samps.map_values(f) =~= seq![]);
    }
}

pub(crate) proof fn resolve_ignores_pixels(a: Seq<SampView>, b: Seq<SampView>, n: nat, uuid: Seq<char>)
    requires
        n <= a.len(),
        a.len() == b.len(),
        forall|i: int| 0 <= i < a.len() ==> (#[trigger] a[i]).uuid == b[i].uuid,
    ensures
        tip_named(a, n, uuid) == tip_named(b, n, uuid),
    decreases n,
{
    if n > 0 {
        assert(a[n - 1].uuid == b[n - 1].uuid);
        resolve_ignores_pixels(a, b, (n - 1) as nat, uuid);
    }
}

pub(crate) proof fn resolved_ignores_pixels(a: Seq<SampView>, b: Seq<SampView>, infos: Seq<Info>, n: nat)
    requires
        a.len() == b.len(),
        forall|i: int| 0 <= i < a.len() ==> (#[trigger] a[i]).uuid == b[i].uuid,
    ensures
        resolved(a, infos, n) == resolved(b, infos, n),
        dangling(a, infos, n) == dangling(b, infos, n),
    decreases n,
{
    if n > 0 {
        resolved_ignores_pixels(a, b, infos, (n - 1) as nat);
        match infos[n - 1].sampled_data_uuid {
            Some(uuid) => {
                resolve_ignores_pixels(a, b, a.len(), uuid);
            },
            None => {},
        }
    }
}

proof fn used_ignores_pixels(a: Seq<SampView>, b: Seq<SampView>, infos: Seq<Info>, n: nat, k: nat)
    requires
        a.len() == b.len(),
        forall|i: int| 0 <= i < a.len() ==> (#[trigger] a[i]).uuid == b[i].uuid,
        is_used(a, infos, n, k),
    ensures
        is_used(b, infos, n, k),
{
    let i = choose|i: int| 0 <= i < n && #[trigger] resolve(a, infos[i]) == Some(k);
    resolve_ignores_pixels(a, b, a.len(), infos[i].sampled_data_uuid->0);
    assert(resolve(b, infos[i]) == Some(k));
}

pub(crate) proof fn unused_ignores_pixels(a: Seq<SampView>, b: Seq<SampView>, infos: Seq<Info>, n: nat)
    requires
        a.len() == b.len(),
        forall|i: int| 0 <= i < a.len() ==> (#[trigger] a[i]).uuid == b[i].uuid,
    ensures
        unused(a, infos, n) == unused(b, infos, n),
    decreases n,
{
    if n > 0 {
        unused_ignores_pixels(a, b, infos, (n - 1) as nat);
        let k = (n - 1) as nat;
        if is_used(a, infos, infos.len(), k) {
            used_ignores_pixels(a, b, infos, infos.len(), k);
        }
        if is_used(b, infos, infos.len(), k) {
            used_ignores_pixels(b, a, infos, infos.len(), k);
        }
    }
}

proof fn resolved_has_all(samps: Seq<SampView>, infos: Seq<Info>, n: nat, i: nat)
    requires
        i < n,
        resolve(samps, infos[i as int]) is Some,
    ensures
        resolved(samps, infos, n).contains(i),
    decreases n,
{
    let all = resolved(samps, infos, n);
    if i == n - 1 {
        assert(all.last() == i);
        assert(all[all.len() - 1] == i);
    } else {
        resolved_has_all(samps, infos, (n - 1) as nat, i);
        let before = resolved(samps, infos, (n - 1) as nat);
        let k = choose|k: int| 0 <= k < before.len() && before[k] == i;
        assert(all[k] == i);
    }
}

proof fn unused_has_all(samps: Seq<SampView>, infos: Seq<Info>, n: nat, k: nat)
    requires
        k < n,
        !is_used(samps, infos, infos.len(), k),
    ensures
        unused(samps, infos, n).contains(k),
    decreases n,
{
    let all = unused(samps, infos, n);
    if k == n - 1 {
        assert(all[all.len() - 1] == k);
    } else {
        unused_has_all(samps, infos, (n - 1) as nat, k);
        let before = unused(samps, infos, (n - 1) as nat);
        let j = choose|j: int| 0 <= j < before.len() && before[j] == k;
        assert(all[j] == k);
    }
}

/// Every sampled tip belongs to a brush or is dropped: where all tips of the brushes and
/// all dropped tips can be decoded, all tips can.
proof fn every_tip_is_somewhere(d: Seq<u8>, samps: Seq<SampView>, infos: Seq<Info>)
    requires
        all_decode(d, paired(samps, infos).tips),
        all_decode(d, paired(samps, infos).dropped_tips),
    ensures
        samps_all_decode(d, samps),
{
    let pairs = paired(samps, infos);
    assert forall|k: int| 0 <= k < samps.len() implies decodes(
        d,
        (#[trigger] samps[k]).deferred,
    ) by {
        if presets_first(samps, infos) {
            if is_used(samps, infos, infos.len(), k as nat) {
                let i = choose|i: int|
                    0 <= i < infos.len() && #[trigger] resolve(samps, infos[i]) == Some(k as nat);
                resolved_has_all(samps, infos, infos.len(), i as nat);
                let named = resolved(samps, infos, infos.len());
                let j = choose|j: int| 0 <= j < named.len() && named[j] == i as nat;
                assert(pairs.tips[j] == samps[k].deferred);
            } else {
                unused_has_all(samps, infos, samps.len(), k as nat);
                let left = unused(samps, infos, samps.len());
                let j = choose|j: int| 0 <= j < left.len() && left[j] == k as nat;
                assert(pairs.dropped_tips[j] == samps[k].deferred);
            }
        } else {
            assert(pairs.tips[samps.len() - 1 - k] == samps[k].deferred);
        }
    }
}

/// Pairing with decoded tips differs from pairing with deferred ones in the pixels alone.
proof fn paired_ignores_pixels(d: Seq<u8>, samps: Seq<SampView>, infos: Seq<Info>)
    requires
        samps_all_decode(d, samps),
    ensures
        ({
            let deferred = paired(samps, infos);
            let eager = paired(decodable(d, samps), infos);
            &&& eager.brushes.len() == deferred.brushes.len()
            &&& deferred.tips.len() == deferred.brushes.len()
            &&& forall|i: int|
                0 <= i < eager.brushes.len() ==> (#[trigger] eager.brushes[i]) == (BrushView {
                    tip: tip_at(d, deferred.tips[i]->0)->Ok_0,
                    ..deferred.brushes[i]
                }) && decodes(d, deferred.tips[i])
            &&& eager.dropped.len() == deferred.dropped.len()
            &&& deferred.dropped_tips.len() == deferred.dropped.len()
            &&& forall|i: int|
                0 <= i < eager.dropped.len() ==> decodes(d, deferred.dropped_tips[i]) && {
                    let tip = tip_at(d, deferred.dropped_tips[i]->0)->Ok_0;
                    (#[trigger] eager.dropped[i]) == (DroppedTipView {
                        bitmap: tip,
                        width: tip.width,
                        height: tip.height,
                        ..deferred.dropped[i]
                    })
                }
            &&& eager.skipped == deferred.skipped
        }),
{
    let e = decodable(d, samps);
    decodable_of_all(d, samps);
    assert forall|i: int| 0 <= i < samps.len() implies (#[trigger] samps[i]).uuid == e[i].uuid by {
        assert(e[i] == with_pixels(d, samps[i]));
    }
    resolved_ignores_pixels(samps, e, infos, infos.len());
    unused_ignores_pixels(samps, e, infos, samps.len());
    let deferred = paired(samps, infos);
    let eager = paired(e, infos);
    if presets_first(samps, infos) {
        let named = resolved(samps, infos, infos.len());
        resolved_are_resolved(samps, infos, infos.len());
        assert forall|i: int| 0 <= i < eager.brushes.len() implies (#[trigger] eager.brushes[i])
            == (BrushView {
            tip: tip_at(d, deferred.tips[i]->0)->Ok_0,
            ..deferred.brushes[i]
        }) && decodes(d, deferred.tips[i]) by {
            let info = infos[named[i] as int];
            let uuid = info.sampled_data_uuid->0;
            resolve_ignores_pixels(samps, e, samps.len(), uuid);
            tip_named_is_named(samps, samps.len(), uuid);
            let k = resolve(samps, info)->0;
            assert(e[k as int] == with_pixels(d, samps[k as int]));
            assert(decodes(d, samps[k as int].deferred));
        }
        let left = unused(samps, infos, samps.len());
        unused_are_tips(samps, infos, samps.len());
        assert forall|i: int| 0 <= i < eager.dropped.len() implies decodes(
            d,
            deferred.dropped_tips[i],
        ) && {
            let tip = tip_at(d, deferred.dropped_tips[i]->0)->Ok_0;
            (#[trigger] eager.dropped[i]) == (DroppedTipView {
                bitmap: tip,
                width: tip.width,
                height: tip.height,
                ..deferred.dropped[i]
            })
        } by {
            let k = left[i] as int;
            assert(e[k] == with_pixels(d, samps[k]));
            assert(decodes(d, samps[k].deferred));
        }
    } else {
        assert forall|i: int| 0 <= i < eager.brushes.len() implies (#[trigger] eager.brushes[i])
            == (BrushView {
            tip: tip_at(d, deferred.tips[i]->0)->Ok_0,
            ..deferred.brushes[i]
        }) && decodes(d, deferred.tips[i]) by {
            let k = samps.len() - 1 - i;
            assert(e[k] == with_pixels(d, samps[k]));
            assert(decodes(d, samps[k].deferred));
        }
    }
}

/// A deferred tip of an entry stream with its pixels.
pub open spec fn stream_with_pixels(d: Seq<u8>, s: StreamView) -> StreamView {
    StreamView { tip: tip_at(d, s.deferred->0)->Ok_0, deferred: None, ..s }
}

proof fn entry_of_stream_decodes(d: Seq<u8>, p: nat, version: AbrVersion)
    requires
        d.len() <= usize::MAX,
    ensures
        match entry_at(d, p, version, true) {
            Ok((Some(tip), q)) => {
                &&& tip.deferred is Some
                &&& if decodes(d, tip.deferred) {
                    entry_at(d, p, version, false) == Ok::<_, AbrErrorView>(
                        (Some(stream_with_pixels(d, tip)), q),
                    )
                } else {
                    entry_at(d, p, version, false) is Err
                }
            },
            Ok((None, q)) => entry_at(d, p, version, false) == Ok::<_, AbrErrorView>(
                (None::<StreamView>, q),
            ),
            Err(e) => entry_at(d, p, version, false) == Err::<
                (Option<StreamView>, nat),
                AbrErrorView,
            >(e),
        },
{
}

proof fn entries_keep_found(
    d: Seq<u8>,
    p: nat,
    n: nat,
    version: AbrVersion,
    deferred: bool,
    found: Seq<StreamView>,
)
    ensures
        entries_from(d, p, n, version, deferred, found) matches Ok(tips) ==> {
            &&& found.len() <= tips.len()
            &&& forall|i: int| 0 <= i < found.len() ==> #[trigger] tips[i] == found[i]
        },
    decreases n,
{
    if n > 0 {
        match entry_at(d, p, version, deferred) {
            Ok((Some(tip), q)) => {
                entries_keep_found(d, q, (n - 1) as nat, version, deferred, found.push(tip));
                match entries_from(d, q, (n - 1) as nat, version, deferred, found.push(tip)) {
                    Ok(tips) => {
                        assert forall|i: int| 0 <= i < found.len() implies #[trigger] tips[i]
                            == found[i] by {
                            assert(tips[i] == found.push(tip)[i]);
                        }
                    },
                    Err(_) => {},
                }
            },
            Ok((None, q)) => {
                entries_keep_found(d, q, (n - 1) as nat, version, deferred, found);
            },
            Err(_) => {},
        }
    }
}

spec fn stream_all_decode(d: Seq<u8>, tips: Seq<StreamView>) -> bool {
    forall|i: int| 0 <= i < tips.len() ==> decodes(d, (#[trigger] tips[i]).deferred)
}

spec fn decoded_stream(d: Seq<u8>, tips: Seq<StreamView>) -> Seq<StreamView> {
    Seq::new(tips.len(), |i: int| stream_with_pixels(d, tips[i]))
}

proof fn stream_decodes(
    d: Seq<u8>,
    p: nat,
    n: nat,
    version: AbrVersion,
    found: Seq<StreamView>,
)
    requires
        d.len() <= usize::MAX,
        stream_all_decode(d, found),
    ensures
        match entries_from(d, p, n, version, true, found) {
            Ok(tips) => if stream_all_decode(d, tips) {
                entries_from(d, p, n, version, false, decoded_stream(d, found)) == Ok::<
                    _,
                    AbrErrorView,
                >(decoded_stream(d, tips))
            } else {
                entries_from(d, p, n, version, false, decoded_stream(d, found)) is Err
            },
            Err(_) => entries_from(d, p, n, version, false, decoded_stream(d, found)) is Err,
        },
    decreases n,
{
    if n > 0 {
        entry_of_stream_decodes(d, p, version);
        match entry_at(d, p, version, true) {
            Ok((Some(tip), q)) => {
                let more = found.push(tip);
                entries_keep_found(d, q, (n - 1) as nat, version, true, more);
                if decodes(d, tip.deferred) {
                    assert forall|i: int| 0 <= i < more.len() implies decodes(
                        d,
                        (#[trigger] more[i]).deferred,
                    ) by {
                        if i < found.len() {
                            assert(more[i] == found[i]);
                        }
                    }
                    stream_decodes(d, q, (n - 1) as nat, version, more);
                    assert(decoded_stream(d, more) =~= decoded_stream(d, found).push(
                        stream_with_pixels(d, tip),
                    ));
                } else {
                    match entries_from(d, q, (n - 1) as nat, version, true, more) {
                        Ok(tips) => {
                            assert(more[found.len() as int] == tip);
                            assert(tips[found.len() as int] == tip);
                        },
                        Err(_) => {},
                    }
                }
            },
            Ok((None, q)) => {
                stream_decodes(d, q, (n - 1) as nat, version, found);
            },
            Err(_) => {},
        }
    }
}

/// A file of which every deferred tip can be decoded, read with patterns, is read the same
/// when its tips are decoded at once: each brush has the tip that decoding its deferred tip
/// gives, and nothing else differs.
pub proof fn deferred_tips_are_the_decoded_tips(d: Seq<u8>)
    requires
        d.len() <= usize::MAX,
        parsed(d, TipMode::AllDeferred, PatternMode::Read) is Ok,
        ({
            let p = parsed(d, TipMode::AllDeferred, PatternMode::Read)->Ok_0;
            all_decode(d, p.tips) && all_decode(d, p.dropped_tips)
        }),
    ensures
        parsed(d, TipMode::Eager, PatternMode::Read) is Ok,
        ({
            let p = parsed(d, TipMode::AllDeferred, PatternMode::Read)->Ok_0;
            let e = parsed(d, TipMode::Eager, PatternMode::Read)->Ok_0;
            &&& e.pack.brushes.len() == p.pack.brushes.len()
            &&& forall|i: int|
                0 <= i < e.pack.brushes.len() ==> (#[trigger] e.pack.brushes[i]) == (BrushView {
                    tip: tip_at(d, p.tips[i]->0)->Ok_0,
                    ..p.pack.brushes[i]
                })
            &&& e.pack == (PackView {
                brushes: e.pack.brushes,
                dropped_tips: e.pack.dropped_tips,
                ..p.pack
            })
        }),
{
    reveal(parsed);
    let p = parsed(d, TipMode::AllDeferred, PatternMode::Read)->Ok_0;
    let (version, subversion) = header_of(d)->Ok_0;
    if is_stream(version) {
        let n = subversion as nat;
        let tips = entries_from(d, 4, n, version, true, seq![])->Ok_0;
        assert(decoded_stream(d, seq![]) =~= seq![]);
        stream_decodes(d, 4, n, version, seq![]);
        assert forall|i: int| 0 <= i < tips.len() implies decodes(
            d,
            (#[trigger] tips[i]).deferred,
        ) by {
            assert(p.tips[tips.len() - 1 - i] == tips[i].deferred);
        }
        let e = parsed(d, TipMode::Eager, PatternMode::Read)->Ok_0;
        assert forall|i: int| 0 <= i < e.pack.brushes.len() implies (#[trigger] e.pack.brushes[i])
            == (BrushView {
            tip: tip_at(d, p.tips[i]->0)->Ok_0,
            ..p.pack.brushes[i]
        }) by {
            let k = tips.len() - 1 - i;
            assert(decoded_stream(d, tips)[k] == stream_with_pixels(d, tips[k]));
        }
    } else {
        let blocks = blocks_from(d, 4, PatternMode::Read, seq![])->Ok_0;
        let documented = rect_offset_of(version, subversion);
        assert(in_order(seq![], 4)) by {
            reveal(in_order);
        }
        blocks_are_in_order(d, 4, PatternMode::Read, seq![]);
        samps_decode(d, blocks, blocks.len(), documented);
        let samps = samps_of(d, blocks, blocks.len(), documented, true);
        let infos = infos_of(d, blocks, blocks.len());
        every_tip_is_somewhere(d, samps, infos);
        paired_ignores_pixels(d, samps, infos);
    }
}

/// The blocks that are not `patt` blocks.
pub open spec fn without_patts(blocks: Seq<Block>) -> Seq<Block>
    decreases blocks.len(),
{
    if blocks.len() == 0 {
        seq![]
    } else if blocks.last().kind == BLOCK_PATT {
        without_patts(blocks.drop_last())
    } else {
        without_patts(blocks.drop_last()).push(blocks.last())
    }
}

/// Passing over patterns leaves out the `patt` blocks and no others.
pub proof fn skipping_leaves_out_patts(d: Seq<u8>, p: nat, found: Seq<Block>)
    requires
        p <= d.len(),
    ensures
        blocks_from(d, p, PatternMode::Skip, without_patts(found)) == (match blocks_from(
            d,
            p,
            PatternMode::Read,
            found,
        ) {
            Ok(blocks) => Ok(without_patts(blocks)),
            Err(e) => Err(e),
        }),
    decreases d.len() - p,
{
    if fits(d, p, 12) && be_u32(d, p as int) == SIGNATURE {
        let kind = be_u32(d, p as int + 4);
        let start = p + 12;
        let end = start + be_u32(d, p as int + 8) as nat;
        if end <= d.len() {
            let block = Block { kind, start: start as usize, end: end as usize };
            assert(found.push(block).drop_last() =~= found);
            skipping_leaves_out_patts(d, at_most(padded(end), d.len()), found.push(block));
        }
    }
}

proof fn folds_agree(
    d: Seq<u8>,
    a: Seq<Block>,
    b: Seq<Block>,
    n: nat,
    documented: Option<usize>,
    deferred: bool,
)
    requires
        n <= a.len(),
        n <= b.len(),
        forall|i: int| 0 <= i < n ==> (#[trigger] a[i]) == b[i],
    ensures
        samps_of(d, a, n, documented, deferred) == samps_of(d, b, n, documented, deferred),
        infos_of(d, a, n) == infos_of(d, b, n),
        desc_error_of(d, a, n) == desc_error_of(d, b, n),
        raw_desc_of(d, a, n) == raw_desc_of(d, b, n),
    decreases n,
{
    if n > 0 {
        folds_agree(d, a, b, (n - 1) as nat, documented, deferred);
        assert(a[n - 1] == b[n - 1]);
    }
}

proof fn folds_ignore_patts(
    d: Seq<u8>,
    blocks: Seq<Block>,
    documented: Option<usize>,
    deferred: bool,
)
    ensures
        ({
            let kept = without_patts(blocks);
            &&& samps_of(d, kept, kept.len(), documented, deferred) == samps_of(
                d,
                blocks,
                blocks.len(),
                documented,
                deferred,
            )
            &&& infos_of(d, kept, kept.len()) == infos_of(d, blocks, blocks.len())
            &&& desc_error_of(d, kept, kept.len()) == desc_error_of(d, blocks, blocks.len())
            &&& raw_desc_of(d, kept, kept.len()) == raw_desc_of(d, blocks, blocks.len())
        }),
    decreases blocks.len(),
{
    if blocks.len() > 0 {
        let init = blocks.drop_last();
        folds_ignore_patts(d, init, documented, deferred);
        folds_agree(d, blocks, init, init.len(), documented, deferred);
        let kept = without_patts(blocks);
        let before = without_patts(init);
        if blocks.last().kind != BLOCK_PATT {
            folds_agree(d, kept, before, before.len(), documented, deferred);
        }
    }
}

proof fn kept_has_no_patts(d: Seq<u8>, blocks: Seq<Block>, n: nat)
    requires
        n <= without_patts(blocks).len(),
    ensures
        patts_of(d, without_patts(blocks), n).patterns.len() == 0,
        patts_of(d, without_patts(blocks), n).dropped.len() == 0,
        patts_of(d, without_patts(blocks), n).unreadable.len() == 0,
    decreases n,
{
    if n > 0 {
        kept_has_no_patts(d, blocks, (n - 1) as nat);
        kept_kinds(blocks);
    }
}

proof fn kept_kinds(blocks: Seq<Block>)
    ensures
        forall|i: int|
            0 <= i < without_patts(blocks).len() ==> (#[trigger] without_patts(blocks)[i]).kind
                != BLOCK_PATT,
    decreases blocks.len(),
{
    if blocks.len() > 0 {
        kept_kinds(blocks.drop_last());
        let before = without_patts(blocks.drop_last());
        let all = without_patts(blocks);
        assert forall|i: int| 0 <= i < all.len() implies (#[trigger] all[i]).kind
            != BLOCK_PATT by {
            if i < before.len() {
                assert(all[i] == before[i]);
            }
        }
    }
}

/// Passing over patterns empties the pattern lists and changes nothing else.
pub proof fn patterns_change_nothing_else(d: Seq<u8>, mode: TipMode)
    ensures
        parsed(d, mode, PatternMode::Skip) == (match parsed(d, mode, PatternMode::Read) {
            Ok(p) => Ok(
                ParsedView {
                    pack: PackView {
                        patterns: seq![],
                        dropped_patterns: seq![],
                        unreadable_patt_chunks: seq![],
                        ..p.pack
                    },
                    ..p
                },
            ),
            Err(e) => Err(e),
        }),
{
    reveal(parsed);
    match header_of(d) {
        Ok((version, subversion)) => {
            if !is_stream(version) {
                assert(without_patts(seq![]) =~= seq![]);
                skipping_leaves_out_patts(d, 4, seq![]);
                match blocks_from(d, 4, PatternMode::Read, seq![]) {
                    Ok(blocks) => {
                        let documented = rect_offset_of(version, subversion);
                        let deferred = mode != TipMode::Eager;
                        folds_ignore_patts(d, blocks, documented, deferred);
                        let kept = without_patts(blocks);
                        kept_has_no_patts(d, blocks, kept.len());
                        let patts = patts_of(d, kept, kept.len());
                        assert(patts.patterns =~= seq![]);
                        assert(patts.dropped =~= seq![]);
                        assert(patts.unreadable =~= seq![]);
                    },
                    Err(_) => {},
                }
            } else {
                match parsed(d, mode, PatternMode::Read) {
                    Ok(p) => {
                        assert(p.pack.patterns =~= seq![]);
                    },
                    Err(_) => {},
                }
            }
        },
        Err(_) => {},
    }
}

/// The same of deferred packs: patterns make no difference to brushes and tips.
pub proof fn patterns_change_no_deferred_tip(d: Seq<u8>)
    ensures
        deferred_of(d, PatternMode::Skip) == (match deferred_of(d, PatternMode::Read) {
            Ok(p) => Ok(
                DeferredView {
                    pack: PackView {
                        patterns: seq![],
                        dropped_patterns: seq![],
                        unreadable_patt_chunks: seq![],
                        ..p.pack
                    },
                    ..p
                },
            ),
            Err(e) => Err(e),
        }),
{
    patterns_change_nothing_else(d, TipMode::Deferred);
}

proof fn presets_are_counted(samps: Seq<SampView>, infos: Seq<Info>, n: nat)
    ensures
        resolved(samps, infos, n).len() + dangling(samps, infos, n).len() + computed_of(
            infos,
            n,
        ).len() + unsupported_of(infos, n).len() == n,
    decreases n,
{
    if n > 0 {
        presets_are_counted(samps, infos, (n - 1) as nat);
    }
}

/// Where presets name tips, each preset is one of four things: a brush, skipped for want of
/// its tip, computed, or unsupported.
pub proof fn every_preset_is_accounted_for(samps: Seq<SampView>, infos: Seq<Info>)
    requires
        presets_first(samps, infos),
    ensures
        paired(samps, infos).brushes.len() + paired(samps, infos).skipped.len() + computed_of(
            infos,
            infos.len(),
        ).len() + unsupported_of(infos, infos.len()).len() == infos.len(),
        paired(samps, infos).brushes.len() <= infos.len(),
{
    presets_are_counted(samps, infos, infos.len());
}

proof fn unused_are_unused(samps: Seq<SampView>, infos: Seq<Info>, n: nat)
    ensures
        forall|k: nat|
            #![trigger unused(samps, infos, n).contains(k)]
            unused(samps, infos, n).contains(k) <==> k < n && !is_used(
                samps,
                infos,
                infos.len(),
                k,
            ),
    decreases n,
{
    if n > 0 {
        unused_are_unused(samps, infos, (n - 1) as nat);
        let before = unused(samps, infos, (n - 1) as nat);
        let all = unused(samps, infos, n);
        assert forall|k: nat| #[trigger] all.contains(k) <==> k < n && !is_used(
            samps,
            infos,
            infos.len(),
            k,
        ) by {
            assert(before.contains(k) <==> k < n - 1 && !is_used(samps, infos, infos.len(), k));
            if before.contains(k) {
                let i = choose|i: int| 0 <= i < before.len() && before[i] == k;
                assert(all[i] == k);
            }
            if k == n - 1 && all.len() > before.len() {
                assert(all[before.len() as int] == k);
            }
            if all.contains(k) {
                let i = choose|i: int| 0 <= i < all.len() && all[i] == k;
                if i < before.len() {
                    assert(before[i] == k);
                }
            }
        }
    }
}

/// Where presets name tips, the dropped tips are those that no preset names: a tip is never
/// both a brush's and dropped, nor neither.
pub proof fn a_tip_is_used_or_dropped(samps: Seq<SampView>, infos: Seq<Info>, k: nat)
    requires
        presets_first(samps, infos),
        k < samps.len(),
    ensures
        unused(samps, infos, samps.len()).contains(k) <==> !is_used(
            samps,
            infos,
            infos.len(),
            k,
        ),
        paired(samps, infos).dropped == unused(samps, infos, samps.len()).map_values(
            |k: nat| dropped_tip(samps, infos, k),
        ),
{
    unused_are_unused(samps, infos, samps.len());
}

/// A pack of version 1 or 2 has brushes and no more: no descriptor, no presets that are
/// computed, skipped or unsupported, no patterns, and no dropped tip.
pub proof fn stream_packs_hold_brushes_alone(d: Seq<u8>, mode: TipMode, patterns: PatternMode)
    ensures
        parsed(d, mode, patterns) matches Ok(p) ==> is_stream(p.pack.version) ==> p.pack
            == bare_pack(p.pack.version, p.pack.brushes, p.pack.preset_count),
{
    reveal(parsed);
}

/// Where no preset names a tip, each tip is a brush, and no tip is dropped.
pub proof fn every_tip_is_a_brush(samps: Seq<SampView>, infos: Seq<Info>)
    requires
        !presets_first(samps, infos),
    ensures
        paired(samps, infos).brushes.len() == samps.len(),
        paired(samps, infos).dropped.len() == 0,
        paired(samps, infos).skipped.len() == 0,
{
}

/// Are all of these tips deferred, or none?
spec fn samps_defer(samps: Seq<SampView>, deferred: bool) -> bool {
    forall|i: int| 0 <= i < samps.len() ==> ((#[trigger] samps[i]).deferred is Some <==> deferred)
}

proof fn entry_defers(
    d: Seq<u8>,
    start: int,
    end: int,
    uuid: Option<Seq<char>>,
    documented: Option<usize>,
    deferred: bool,
)
    ensures
        samp_entry(d, start, end, uuid, documented, deferred) matches Some(s) ==> (
        s.deferred is Some <==> deferred),
{
    reveal(samp_entry);
}

proof fn framed_defer(
    d: Seq<u8>,
    base: int,
    frames: Seq<(usize, usize)>,
    n: nat,
    documented: Option<usize>,
    deferred: bool,
)
    ensures
        samps_defer(framed_tips(d, base, frames, n, documented, deferred), deferred),
    decreases n,
{
    if n > 0 {
        framed_defer(d, base, frames, (n - 1) as nat, documented, deferred);
        let (start, end) = frames[n - 1];
        let uuid = entry_uuid(d.subrange(base + start, base + end));
        entry_defers(d, base + start, base + end, uuid, documented, deferred);
    }
}

proof fn anchored_defer(
    d: Seq<u8>,
    base: int,
    len: int,
    anchors: Seq<(usize, Seq<char>)>,
    n: nat,
    documented: Option<usize>,
    deferred: bool,
)
    ensures
        samps_defer(anchored_tips(d, base, len, anchors, n, documented, deferred), deferred),
    decreases n,
{
    if n > 0 {
        anchored_defer(d, base, len, anchors, (n - 1) as nat, documented, deferred);
        entry_defers(
            d,
            base + anchors[n - 1].0,
            base + anchored_end(anchors, n - 1, len),
            Some(anchors[n - 1].1),
            documented,
            deferred,
        );
    }
}

proof fn samps_are_deferred(
    d: Seq<u8>,
    blocks: Seq<Block>,
    n: nat,
    documented: Option<usize>,
    deferred: bool,
)
    ensures
        samps_defer(samps_of(d, blocks, n, documented, deferred), deferred),
    decreases n,
{
    if n > 0 {
        samps_are_deferred(d, blocks, (n - 1) as nat, documented, deferred);
        let block = blocks[n - 1];
        let base = block.start as int;
        let end = block.end as int;
        let b = d.subrange(base, end);
        let frames = frames_from(b, 0, seq![]).0;
        let anchors = anchors_below(b, b.len());
        framed_defer(d, base, frames, frames.len(), documented, deferred);
        anchored_defer(d, base, end - base, anchors, anchors.len(), documented, deferred);
    }
}

spec fn tips_defer(tips: Seq<Option<DeferredTip>>, deferred: bool) -> bool {
    forall|i: int| 0 <= i < tips.len() ==> ((#[trigger] tips[i]) is Some <==> deferred)
}

proof fn pairing_keeps_deferral(samps: Seq<SampView>, infos: Seq<Info>, deferred: bool)
    requires
        samps_defer(samps, deferred),
    ensures
        tips_defer(paired(samps, infos).tips, deferred),
        tips_defer(paired(samps, infos).dropped_tips, deferred),
{
    let pairs = paired(samps, infos);
    resolved_are_resolved(samps, infos, infos.len());
    unused_are_tips(samps, infos, samps.len());
    if presets_first(samps, infos) {
        let named = resolved(samps, infos, infos.len());
        let left = unused(samps, infos, samps.len());
        assert forall|i: int| 0 <= i < pairs.tips.len() implies ((#[trigger] pairs.tips[i]) is Some
            <==> deferred) by {
            let info = infos[named[i] as int];
            tip_named_is_named(samps, samps.len(), info.sampled_data_uuid->0);
            let k = resolve(samps, info)->0;
            assert(samps[k as int].deferred is Some <==> deferred);
        }
        assert forall|i: int| 0 <= i < pairs.dropped_tips.len() implies ((
        #[trigger] pairs.dropped_tips[i]) is Some <==> deferred) by {
            assert(samps[left[i] as int].deferred is Some <==> deferred);
        }
    } else {
        assert forall|i: int| 0 <= i < pairs.tips.len() implies ((#[trigger] pairs.tips[i]) is Some
            <==> deferred) by {
            assert(samps[samps.len() - 1 - i].deferred is Some <==> deferred);
        }
    }
}

spec fn stream_defers(tips: Seq<StreamView>, deferred: bool) -> bool {
    forall|i: int| 0 <= i < tips.len() ==> ((#[trigger] tips[i]).deferred is Some <==> deferred)
}

proof fn entries_are_deferred(
    d: Seq<u8>,
    p: nat,
    n: nat,
    version: AbrVersion,
    deferred: bool,
    found: Seq<StreamView>,
)
    requires
        stream_defers(found, deferred),
    ensures
        entries_from(d, p, n, version, deferred, found) matches Ok(tips) ==> stream_defers(
            tips,
            deferred,
        ),
    decreases n,
{
    if n > 0 {
        match entry_at(d, p, version, deferred) {
            Ok((Some(tip), q)) => {
                entries_are_deferred(d, q, (n - 1) as nat, version, deferred, found.push(tip));
            },
            Ok((None, q)) => {
                entries_are_deferred(d, q, (n - 1) as nat, version, deferred, found);
            },
            Err(_) => {},
        }
    }
}

/// Is a tip of a file of this version deferred?
pub open spec fn defers(version: AbrVersion, mode: TipMode) -> bool {
    if is_stream(version) {
        mode == TipMode::AllDeferred
    } else {
        mode != TipMode::Eager
    }
}

/// The tips of a file are all deferred, or none is, by the file's version and the mode.
pub proof fn all_tips_are_deferred_or_none(d: Seq<u8>, mode: TipMode, patterns: PatternMode)
    ensures
        parsed(d, mode, patterns) matches Ok(p) ==> {
            &&& forall|i: int|
                0 <= i < p.tips.len() ==> ((#[trigger] p.tips[i]) is Some <==> defers(
                    p.pack.version,
                    mode,
                ))
            &&& forall|i: int|
                0 <= i < p.dropped_tips.len() ==> ((#[trigger] p.dropped_tips[i]) is Some
                    <==> defers(p.pack.version, mode))
        },
{
    reveal(parsed);
    match header_of(d) {
        Ok((version, subversion)) => if is_stream(version) {
            let deferred = mode == TipMode::AllDeferred;
            entries_are_deferred(d, 4, subversion as nat, version, deferred, seq![]);
            match parsed(d, mode, patterns) {
                Ok(p) => {
                    let tips = entries_from(
                        d,
                        4,
                        subversion as nat,
                        version,
                        deferred,
                        seq![],
                    )->Ok_0;
                    assert forall|i: int| 0 <= i < p.tips.len() implies ((
                    #[trigger] p.tips[i]) is Some <==> deferred) by {
                        assert(tips[tips.len() - 1 - i].deferred is Some <==> deferred);
                    }
                },
                Err(_) => {},
            }
        } else {
            match blocks_from(d, 4, patterns, seq![]) {
                Ok(blocks) => {
                    let n = blocks.len();
                    let documented = rect_offset_of(version, subversion);
                    let deferred = mode != TipMode::Eager;
                    samps_are_deferred(d, blocks, n, documented, deferred);
                    pairing_keeps_deferral(
                        samps_of(d, blocks, n, documented, deferred),
                        infos_of(d, blocks, n),
                        deferred,
                    );
                },
                Err(_) => {},
            }
        },
        Err(_) => {},
    }
}

/// A preview reads a file without decoding a tip.
pub proof fn no_tip_is_decoded_up_front(d: Seq<u8>)
    ensures
        all_deferred_of(d) matches Ok(p) ==> forall|i: int|
            0 <= i < p.tips.len() ==> #[trigger] p.deferred(i),
{
    all_tips_are_deferred_or_none(d, TipMode::AllDeferred, PatternMode::Skip);
}

proof fn settled_tips(
    d: Seq<u8>,
    brushes: Seq<BrushView>,
    tips: Seq<Option<DeferredTip>>,
    dual_uuids: Seq<Option<Seq<char>>>,
    n: nat,
)
    requires
        settled_brushes(d, brushes, tips, dual_uuids, n) is Ok,
    ensures
        ({
            let (done, left) = settled_brushes(d, brushes, tips, dual_uuids, n)->Ok_0;
            &&& done.len() == n
            &&& left.len() == n
            &&& forall|i: int|
                0 <= i < n ==> {
                    &&& (#[trigger] done[i]).id == brushes[i].id
                    &&& left[i] is Some <==> tips[i] is Some && !is_dual(dual_uuids, brushes[i].id)
                    &&& left[i] is Some ==> left[i] == tips[i]
                    &&& match (left[i], tips[i]) {
                        (None, Some(t)) => tip_at(d, t) == Ok::<TipView, AbrErrorView>(
                            done[i].tip,
                        ),
                        _ => done[i] == brushes[i],
                    }
                }
        }),
    decreases n,
{
    if n > 0 {
        settled_tips(d, brushes, tips, dual_uuids, (n - 1) as nat);
    }
}

/// Decoding some tips up front changes no tip, and leaves no second tip of a preset
/// deferred.
pub proof fn decoding_up_front_changes_no_tip(d: Seq<u8>, patterns: PatternMode)
    requires
        deferred_of(d, patterns) is Ok,
    ensures
        ({
            let p = parsed(d, TipMode::Deferred, patterns)->Ok_0;
            let all = DeferredView { pack: p.pack, tips: p.tips, bytes: d };
            let some = deferred_of(d, patterns)->Ok_0;
            &&& some.pack.brushes.len() == p.pack.brushes.len()
            &&& some.tips.len() == p.pack.brushes.len()
            &&& forall|i: int|
                0 <= i < p.pack.brushes.len() ==> {
                    &&& #[trigger] some.tip(i) == all.tip(i)
                    &&& is_dual(p.dual_uuids, p.pack.brushes[i].id) ==> !some.deferred(i)
                }
        }),
{
    let p = parsed(d, TipMode::Deferred, patterns)->Ok_0;
    settled_tips(d, p.pack.brushes, p.tips, p.dual_uuids, p.pack.brushes.len());
    let all = DeferredView { pack: p.pack, tips: p.tips, bytes: d };
    let some = deferred_of(d, patterns)->Ok_0;
    assert forall|i: int| 0 <= i < p.pack.brushes.len() implies {
        &&& #[trigger] some.tip(i) == all.tip(i)
        &&& is_dual(p.dual_uuids, p.pack.brushes[i].id) ==> !some.deferred(i)
    } by {
        assert(some.pack.brushes[i].id == p.pack.brushes[i].id);
    }
}

/// A pack of version 1 or 2 has no deferred tip, unless all are.
pub proof fn stream_tips_are_decoded_up_front(d: Seq<u8>, patterns: PatternMode)
    requires
        deferred_of(d, patterns) is Ok,
        is_stream(deferred_of(d, patterns)->Ok_0.pack.version),
        d.len() <= usize::MAX,
    ensures
        forall|i: int| !#[trigger] deferred_of(d, patterns)->Ok_0.deferred(i),
{
    let p = parsed(d, TipMode::Deferred, patterns)->Ok_0;
    all_tips_are_deferred_or_none(d, TipMode::Deferred, patterns);
    parsed_wf(d, TipMode::Deferred, patterns);
    settled_tips(d, p.pack.brushes, p.tips, p.dual_uuids, p.pack.brushes.len());
    let some = deferred_of(d, patterns)->Ok_0;
    assert forall|i: int| !#[trigger] some.deferred(i) by {
        if 0 <= i < some.tips.len() {
            assert(some.pack.brushes[i].id == p.pack.brushes[i].id);
            assert(p.tips[i] is None);
        }
    }
}

} // verus!
