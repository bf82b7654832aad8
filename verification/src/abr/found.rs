//! Tips that are found by what they look like.
use vstd::prelude::*;
use crate::abr::samp::{
    anchor_at, anchor_text, anchored_end, anchored_tips, anchors_below, framed_by_lengths,
    header_found, header_from, plausible, samp_entry, samp_tips, HEADER_SCAN_LIMIT,
};
use crate::abr::tip::HEADER_LEN;

verus! {

proof fn search_stops(d: Seq<u8>, from: nat, p: nat, limit: nat)
    requires
        from <= p,
        forall|q: int| from <= q < p ==> !#[trigger] plausible(d, q, 1),
    ensures
        p + HEADER_LEN <= limit && plausible(d, p as int, 1) ==> {
            &&& header_from(d, from, limit) is Some
            &&& header_from(d, from, limit)->0.rect_offset == p as usize
        },
        p + HEADER_LEN > limit ==> header_from(d, from, limit) is None,
    decreases p - from,
{
    if from < p && from + HEADER_LEN <= limit {
        assert(!plausible(d, from as int, 1));
        search_stops(d, from + 1, p, limit);
    }
}

/// Of the places in the front of an entry where a header may stand, the first is taken.
pub proof fn the_first_header_is_taken(d: Seq<u8>, p: usize)
    requires
        p + HEADER_LEN <= d.len(),
        p + HEADER_LEN <= HEADER_SCAN_LIMIT,
        plausible(d, p as int, 1),
        forall|q: int| 0 <= q < p ==> !#[trigger] plausible(d, q, 1),
    ensures
        header_found(d) is Some,
        header_found(d)->0.rect_offset == p,
{
    let limit = if d.len() < HEADER_SCAN_LIMIT {
        d.len()
    } else {
        HEADER_SCAN_LIMIT as nat
    };
    search_stops(d, 0, p as nat, limit);
}

/// An entry in whose front no header may stand has none.
pub proof fn no_header_is_made_up(d: Seq<u8>)
    requires
        forall|q: int| 0 <= q < d.len() ==> !#[trigger] plausible(d, q, 1),
    ensures
        header_found(d) is None,
{
    let limit = if d.len() < HEADER_SCAN_LIMIT {
        d.len()
    } else {
        HEADER_SCAN_LIMIT as nat
    };
    search_stops(d, 0, d.len(), limit);
}

/// Every anchor of a block is found, under its own place and uuid, in order; and nothing else is.
pub proof fn every_anchor_is_found(d: Seq<u8>, n: nat)
    requires
        n <= usize::MAX,
    ensures
        forall|p: int|
            0 <= p < n && #[trigger] anchor_at(d, p) ==> anchors_below(d, n).contains(
                (p as usize, anchor_text(d, p)),
            ),
        forall|k: int|
            0 <= k < anchors_below(d, n).len() ==> {
                let (p, uuid) = #[trigger] anchors_below(d, n)[k];
                p < n && anchor_at(d, p as int) && uuid == anchor_text(d, p as int)
            },
        forall|j: int, k: int|
            0 <= j < k < anchors_below(d, n).len() ==> #[trigger] anchors_below(d, n)[j].0
                < #[trigger] anchors_below(d, n)[k].0,
    decreases n,
{
    if n > 0 {
        every_anchor_is_found(d, (n - 1) as nat);
        let before = anchors_below(d, (n - 1) as nat);
        let all = anchors_below(d, n);
        assert forall|p: int| 0 <= p < n && #[trigger] anchor_at(d, p) implies all.contains(
            (p as usize, anchor_text(d, p)),
        ) by {
            let found = (p as usize, anchor_text(d, p));
            if p < n - 1 {
                assert(before.contains(found));
                let k = choose|k: int| 0 <= k < before.len() && before[k] == found;
                assert(all[k] == found);
            } else {
                assert(all[all.len() - 1] == found);
            }
        }
    }
}

proof fn anchored_are_read(
    d: Seq<u8>,
    base: int,
    len: int,
    anchors: Seq<(usize, Seq<char>)>,
    n: nat,
    documented: Option<usize>,
    deferred: bool,
)
    requires
        n <= anchors.len(),
        forall|i: int|
            0 <= i < n ==> samp_entry(
                d,
                base + (#[trigger] anchors[i]).0,
                base + anchored_end(anchors, i, len),
                Some(anchors[i].1),
                documented,
                deferred,
            ) is Some,
    ensures
        anchored_tips(d, base, len, anchors, n, documented, deferred).len() == n,
        forall|i: int|
            0 <= i < n ==> Some(
                #[trigger] anchored_tips(d, base, len, anchors, n, documented, deferred)[i],
            ) == samp_entry(
                d,
                base + anchors[i].0,
                base + anchored_end(anchors, i, len),
                Some(anchors[i].1),
                documented,
                deferred,
            ),
    decreases n,
{
    if n > 0 {
        anchored_are_read(d, base, len, anchors, (n - 1) as nat, documented, deferred);
        let last = anchors[n - 1];
    }
}

/// Where the lengths of a block do not frame its entries, each entry reaches from its anchor to
/// the next one, the last to the end of the block; the tips come in the order of the anchors,
/// each with the uuid of its own.
pub proof fn anchors_frame_what_lengths_do_not(
    d: Seq<u8>,
    base: int,
    end: int,
    documented: Option<usize>,
    deferred: bool,
)
    requires
        0 <= base <= end <= d.len(),
        !framed_by_lengths(d.subrange(base, end)),
        ({
            let b = d.subrange(base, end);
            let anchors = anchors_below(b, b.len());
            forall|i: int|
                0 <= i < anchors.len() ==> samp_entry(
                    d,
                    base + (#[trigger] anchors[i]).0,
                    base + anchored_end(anchors, i, end - base),
                    Some(anchors[i].1),
                    documented,
                    deferred,
                ) is Some
        }),
    ensures
        ({
            let b = d.subrange(base, end);
            let anchors = anchors_below(b, b.len());
            let tips = samp_tips(d, base, end, documented, deferred);
            &&& tips.len() == anchors.len()
            &&& forall|i: int|
                0 <= i < tips.len() ==> (#[trigger] tips[i]).uuid == Some(anchors[i].1)
            &&& forall|i: int|
                0 <= i < tips.len() - 1 ==> Some(#[trigger] tips[i]) == samp_entry(
                    d,
                    base + anchors[i].0,
                    base + anchors[i + 1].0,
                    Some(anchors[i].1),
                    documented,
                    deferred,
                )
            &&& tips.len() > 0 ==> Some(tips.last()) == samp_entry(
                d,
                base + anchors.last().0,
                end,
                Some(anchors.last().1),
                documented,
                deferred,
            )
        }),
{
    let b = d.subrange(base, end);
    let anchors = anchors_below(b, b.len());
    let tips = samp_tips(d, base, end, documented, deferred);
    anchored_are_read(d, base, end - base, anchors, anchors.len(), documented, deferred);
    assert forall|i: int| 0 <= i < tips.len() implies (#[trigger] tips[i]).uuid == Some(
        anchors[i].1,
    ) by {
        reveal(samp_entry);
    }
}

} // verus!
