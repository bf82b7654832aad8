//! Patterns can be cut out of a file: nothing but the patterns depends on their blocks.
use vstd::prelude::*;
use crate::abr::deferred::{all_deferred_of, frames_fit, frames_wf};
use crate::abr::laws::{
    patterns_change_nothing_else, resolve_ignores_pixels, resolved_ignores_pixels,
    unused_ignores_pixels,
};
use crate::abr::pairing::{
    paired, presets_first, resolve, resolved, resolved_are_resolved, tip_named_is_named, unused,
    unused_are_tips, Info,
};
use crate::abr::parser::{
    at_most, block_data, blocks_from, desc_error_of, header_of, infos_of, is_stream, parsed,
    raw_desc_of, samps_of, Block, PatternMode, TipMode, BLOCK_PATT, SIGNATURE,
};
use crate::abr::samp::{
    anchored_end, anchored_tips, anchors_are_ordered, anchors_below, entry_uuid, frames_from,
    framed_tips, padded, rect_offset_of, samp_entry, samp_tips, DeferredTip, SampView,
};
use crate::support::bytes::{be_u32, fits};

verus! {

/// The bytes from `p` on without the `patt` blocks and the padding behind them.
pub open spec fn cut_from(d: Seq<u8>, p: nat) -> Seq<u8>
    decreases d.len() - p,
{
    if !fits(d, p, 12) || be_u32(d, p as int) != SIGNATURE {
        d.skip(p as int)
    } else {
        let end = p + 12 + be_u32(d, p as int + 8) as nat;
        if end > d.len() {
            d.skip(p as int)
        } else {
            let next = at_most(padded(end), d.len());
            if be_u32(d, p as int + 4) == BLOCK_PATT {
                cut_from(d, next)
            } else {
                d.subrange(p as int, next as int) + cut_from(d, next)
            }
        }
    }
}

/// A file of blocks without its `patt` blocks.
pub open spec fn without_patterns(d: Seq<u8>) -> Seq<u8> {
    d.take(4) + cut_from(d, 4)
}

proof fn cut_is_no_longer(d: Seq<u8>, p: nat)
    requires
        p <= d.len(),
    ensures
        cut_from(d, p).len() <= d.len() - p,
    decreases d.len() - p,
{
    if fits(d, p, 12) && be_u32(d, p as int) == SIGNATURE {
        let end = p + 12 + be_u32(d, p as int + 8) as nat;
        if end <= d.len() {
            cut_is_no_longer(d, at_most(padded(end), d.len()));
        }
    }
}

/// The same block in two files.
spec fn same_block(d: Seq<u8>, a: Block, s: Seq<u8>, b: Block) -> bool {
    &&& a.kind == b.kind
    &&& a.start <= a.end <= d.len()
    &&& b.start <= b.end <= s.len()
    &&& d.subrange(a.start as int, a.end as int) == s.subrange(b.start as int, b.end as int)
}

spec fn same_blocks(d: Seq<u8>, a: Seq<Block>, s: Seq<u8>, b: Seq<Block>) -> bool {
    &&& a.len() == b.len()
    &&& forall|i: int| 0 <= i < a.len() ==> same_block(d, #[trigger] a[i], s, b[i])
}

/// Are two places where the same bytes follow, and blocks are padded alike?
spec fn same_rest(d: Seq<u8>, p: nat, s: Seq<u8>, q: nat) -> bool {
    &&& p <= d.len() <= usize::MAX
    &&& q <= s.len() <= usize::MAX
    &&& s.skip(q as int) == cut_from(d, p)
    &&& (p % 4 == 0 && q % 4 == 0) || (p == d.len() && q == s.len())
}

proof fn rest_is_read_alike(d: Seq<u8>, p: nat, s: Seq<u8>, q: nat, n: nat)
    requires
        same_rest(d, p, s, q),
        n <= d.len() - p,
        cut_from(d, p).len() >= n,
        forall|i: int| 0 <= i < n ==> cut_from(d, p)[i] == d[p + i],
    ensures
        q + n <= s.len(),
        forall|i: int| 0 <= i < n ==> #[trigger] s[q + i] == d[p + i],
        d.subrange(p as int, (p + n) as int) == s.subrange(q as int, (q + n) as int),
        n >= 12 ==> {
            &&& be_u32(s, q as int) == be_u32(d, p as int)
            &&& be_u32(s, q as int + 4) == be_u32(d, p as int + 4)
            &&& be_u32(s, q as int + 8) == be_u32(d, p as int + 8)
        },
{
    assert forall|i: int| 0 <= i < n implies #[trigger] s[q + i] == d[p + i] by {
        assert(s.skip(q as int)[i] == s[q + i]);
    }
    assert(d.subrange(p as int, (p + n) as int) =~= s.subrange(q as int, (q + n) as int));
    if n >= 12 {
        number_moves(d, p as int, s, q as int, 0);
        number_moves(d, p as int, s, q as int, 4);
        number_moves(d, p as int, s, q as int, 8);
    }
}

proof fn number_moves(d: Seq<u8>, p: int, s: Seq<u8>, q: int, k: int)
    requires
        forall|i: int| k <= i < k + 4 ==> #[trigger] s[q + i] == d[p + i],
    ensures
        be_u32(s, q + k) == be_u32(d, p + k),
{
    assert(s[q + k] == d[p + k]);
    assert(s[q + (k + 1)] == d[p + (k + 1)]);
    assert(s[q + (k + 2)] == d[p + (k + 2)]);
    assert(s[q + (k + 3)] == d[p + (k + 3)]);
}

/// The block that starts at `p`.
spec fn block_at(d: Seq<u8>, p: nat) -> Block {
    Block {
        kind: be_u32(d, p as int + 4),
        start: (p + 12) as usize,
        end: (p + 12 + be_u32(d, p as int + 8) as nat) as usize,
    }
}

/// Where the block that starts at `p` ends.
spec fn block_end(d: Seq<u8>, p: nat) -> nat {
    p + 12 + be_u32(d, p as int + 8) as nat
}

/// Where the block behind the one that starts at `p` starts.
spec fn next_block(d: Seq<u8>, p: nat) -> nat {
    at_most(padded(block_end(d, p)), d.len())
}

/// Does a block start at `p` that fits into the file?
spec fn has_block(d: Seq<u8>, p: nat) -> bool {
    fits(d, p, 12) && be_u32(d, p as int) == SIGNATURE && block_end(d, p) <= d.len()
}

proof fn kept_block_moves(d: Seq<u8>, p: nat, s: Seq<u8>, q: nat)
    requires
        same_rest(d, p, s, q),
        has_block(d, p),
        be_u32(d, p as int + 4) != BLOCK_PATT,
    ensures
        has_block(s, q),
        be_u32(s, q as int + 4) == be_u32(d, p as int + 4),
        same_block(d, block_at(d, p), s, block_at(s, q)),
        next_block(s, q) - q == next_block(d, p) - p,
        s.skip(next_block(s, q) as int) == cut_from(d, next_block(d, p)),
{
    let rest = cut_from(d, p);
    let len = be_u32(d, p as int + 8) as nat;
    let next = next_block(d, p);
    let kept = d.subrange(p as int, next as int);
    let n = (next - p) as nat;
    assert(n >= 12 + len);
    assert(rest == kept + cut_from(d, next));
    assert forall|i: int| 0 <= i < n implies rest[i] == d[p + i] by {
        assert(rest[i] == kept[i]);
    }
    rest_is_read_alike(d, p, s, q, n);
    let then = (q + n) as nat;
    assert(d.subrange(p as int + 12, p as int + 12 + len) =~= kept.subrange(12, 12 + len as int));
    assert(s.subrange(q as int + 12, q as int + 12 + len) =~= s.subrange(q as int, then as int).subrange(
        12,
        12 + len as int,
    ));
    assert(s.skip(then as int) =~= cut_from(d, next)) by {
        assert(s.skip(q as int).skip(n as int) =~= s.skip(then as int));
        assert(rest.skip(n as int) =~= cut_from(d, next));
    }
    padding_moves(p, q, 12 + len);
    if padded(block_end(d, p)) > d.len() {
        assert(cut_from(d, next) =~= seq![]);
        assert(then == s.len());
    }
}

proof fn padding_moves(p: nat, q: nat, n: nat)
    requires
        p % 4 == 0,
        q % 4 == 0,
    ensures
        padded(p + n) - p == padded(q + n) - q,
        padded(p + n) % 4 == 0,
        padded(p + n) >= p + n,
{
}

proof fn rest_moves(d: Seq<u8>, p: nat, s: Seq<u8>, q: nat)
    requires
        same_rest(d, p, s, q),
        has_block(d, p),
        be_u32(d, p as int + 4) != BLOCK_PATT,
    ensures
        same_rest(d, next_block(d, p), s, next_block(s, q)),
{
    kept_block_moves(d, p, s, q);
    let next = next_block(d, p);
    padding_moves(p, q, (block_end(d, p) - p) as nat);
    if next % 4 != 0 {
        assert(next == d.len());
        assert(cut_from(d, next) =~= seq![]);
    }
}

proof fn blocks_are_cut(
    d: Seq<u8>,
    p: nat,
    s: Seq<u8>,
    q: nat,
    a: Seq<Block>,
    b: Seq<Block>,
)
    requires
        same_rest(d, p, s, q),
        same_blocks(d, a, s, b),
        blocks_from(d, p, PatternMode::Skip, a) is Ok,
    ensures
        blocks_from(s, q, PatternMode::Skip, b) is Ok,
        same_blocks(
            d,
            blocks_from(d, p, PatternMode::Skip, a)->Ok_0,
            s,
            blocks_from(s, q, PatternMode::Skip, b)->Ok_0,
        ),
    decreases d.len() - p,
{
    if fits(d, p, 12) && be_u32(d, p as int) == SIGNATURE {
        assert(has_block(d, p));
        let next = next_block(d, p);
        if be_u32(d, p as int + 4) == BLOCK_PATT {
            assert(cut_from(d, p) == cut_from(d, next));
            padding_moves(p, q, (block_end(d, p) - p) as nat);
            if next % 4 != 0 {
                assert(next == d.len());
                assert(cut_from(d, next) =~= seq![]);
                assert(s.skip(q as int).len() == 0);
            }
            blocks_are_cut(d, next, s, q, a, b);
        } else {
            kept_block_moves(d, p, s, q);
            rest_moves(d, p, s, q);
            let more = a.push(block_at(d, p));
            let moved = b.push(block_at(s, q));
            assert forall|i: int| 0 <= i < a.len() + 1 implies same_block(
                d,
                #[trigger] more[i],
                s,
                moved[i],
            ) by {
                if i < a.len() {
                    assert(more[i] == a[i]);
                }
            }
            blocks_are_cut(d, next, s, next_block(s, q), more, moved);
        }
    } else {
        let n = (d.len() - p) as nat;
        assert(cut_from(d, p) == d.skip(p as int));
        rest_is_read_alike(d, p, s, q, n);
        assert(s.skip(q as int).len() == n);
    }
}

/// Do two deferred tips stand for the same bytes?
spec fn same_place(
    d: Seq<u8>,
    a: Option<DeferredTip>,
    s: Seq<u8>,
    b: Option<DeferredTip>,
) -> bool {
    match (a, b) {
        (Some(t), Some(u)) => {
            &&& t.layout == u.layout
            &&& t.decoded_len == u.decoded_len
            &&& d.subrange(t.start as int, t.end as int) == s.subrange(
                u.start as int,
                u.end as int,
            )
        },
        (None, None) => true,
        _ => false,
    }
}

spec fn same_samp(d: Seq<u8>, a: SampView, s: Seq<u8>, b: SampView) -> bool {
    &&& a.uuid == b.uuid
    &&& a.bitmap == b.bitmap
    &&& same_place(d, a.deferred, s, b.deferred)
}

spec fn same_samps(d: Seq<u8>, a: Seq<SampView>, s: Seq<u8>, b: Seq<SampView>) -> bool {
    &&& a.len() == b.len()
    &&& forall|i: int| 0 <= i < a.len() ==> same_samp(d, #[trigger] a[i], s, b[i])
}

proof fn entry_moves(
    d: Seq<u8>,
    from: int,
    to: int,
    s: Seq<u8>,
    moved: int,
    uuid: Option<Seq<char>>,
    documented: Option<usize>,
)
    requires
        0 <= from <= to <= d.len() <= usize::MAX,
        0 <= moved <= moved + (to - from) <= s.len() <= usize::MAX,
        d.subrange(from, to) == s.subrange(moved, moved + (to - from)),
    ensures
        match (
            samp_entry(d, from, to, uuid, documented, true),
            samp_entry(s, moved, moved + (to - from), uuid, documented, true),
        ) {
            (Some(a), Some(b)) => same_samp(d, a, s, b),
            (None, None) => true,
            _ => false,
        },
{
    reveal(samp_entry);
}

proof fn samps_grow(
    d: Seq<u8>,
    a: Seq<SampView>,
    x: SampView,
    s: Seq<u8>,
    b: Seq<SampView>,
    y: SampView,
)
    requires
        same_samps(d, a, s, b),
        same_samp(d, x, s, y),
    ensures
        same_samps(d, a.push(x), s, b.push(y)),
{
    assert forall|i: int| 0 <= i < a.len() + 1 implies same_samp(
        d,
        #[trigger] a.push(x)[i],
        s,
        b.push(y)[i],
    ) by {
        if i < a.len() {
            assert(a.push(x)[i] == a[i]);
        }
    }
}

proof fn framed_move(
    d: Seq<u8>,
    base: int,
    s: Seq<u8>,
    moved: int,
    len: int,
    frames: Seq<(usize, usize)>,
    n: nat,
    documented: Option<usize>,
)
    requires
        0 <= base <= base + len <= d.len() <= usize::MAX,
        0 <= moved <= moved + len <= s.len() <= usize::MAX,
        d.subrange(base, base + len) == s.subrange(moved, moved + len),
        n <= frames.len(),
        frames_fit(frames, len),
    ensures
        same_samps(
            d,
            framed_tips(d, base, frames, n, documented, true),
            s,
            framed_tips(s, moved, frames, n, documented, true),
        ),
    decreases n,
{
    if n > 0 {
        framed_move(d, base, s, moved, len, frames, (n - 1) as nat, documented);
        let (from, to) = frames[n - 1];
        let x = d.subrange(base + from, base + to);
        let y = s.subrange(moved + from, moved + to);
        assert(x =~= d.subrange(base, base + len).subrange(from as int, to as int));
        assert(y =~= s.subrange(moved, moved + len).subrange(from as int, to as int));
        let uuid = entry_uuid(x);
        entry_moves(d, base + from, base + to, s, moved + from, uuid, documented);
        match (
            samp_entry(d, base + from, base + to, uuid, documented, true),
            samp_entry(s, moved + from, moved + to, uuid, documented, true),
        ) {
            (Some(a), Some(b)) => {
                samps_grow(
                    d,
                    framed_tips(d, base, frames, (n - 1) as nat, documented, true),
                    a,
                    s,
                    framed_tips(s, moved, frames, (n - 1) as nat, documented, true),
                    b,
                );
            },
            _ => {},
        }
    }
}

proof fn anchored_move(
    d: Seq<u8>,
    base: int,
    s: Seq<u8>,
    moved: int,
    len: int,
    anchors: Seq<(usize, Seq<char>)>,
    n: nat,
    documented: Option<usize>,
)
    requires
        0 <= base <= base + len <= d.len() <= usize::MAX,
        0 <= moved <= moved + len <= s.len() <= usize::MAX,
        d.subrange(base, base + len) == s.subrange(moved, moved + len),
        n <= anchors.len(),
        forall|i: int| 0 <= i < anchors.len() ==> (#[trigger] anchors[i]).0 < len,
        forall|i: int, j: int|
            0 <= i < j < anchors.len() ==> (#[trigger] anchors[i]).0 < (#[trigger] anchors[j]).0,
    ensures
        same_samps(
            d,
            anchored_tips(d, base, len, anchors, n, documented, true),
            s,
            anchored_tips(s, moved, len, anchors, n, documented, true),
        ),
    decreases n,
{
    if n > 0 {
        anchored_move(d, base, s, moved, len, anchors, (n - 1) as nat, documented);
        let from = anchors[n - 1].0;
        let to = anchored_end(anchors, n - 1, len);
        let uuid = Some(anchors[n - 1].1);
        if n < anchors.len() {
            assert(anchors[n - 1].0 < anchors[n as int].0);
        }
        assert(from <= to <= len);
        assert(d.subrange(base + from, base + to) =~= d.subrange(base, base + len).subrange(
            from as int,
            to,
        ));
        assert(s.subrange(moved + from, moved + to) =~= s.subrange(moved, moved + len).subrange(
            from as int,
            to,
        ));
        entry_moves(d, base + from, base + to, s, moved + from, uuid, documented);
        match (
            samp_entry(d, base + from, base + to, uuid, documented, true),
            samp_entry(s, moved + from, moved + to, uuid, documented, true),
        ) {
            (Some(a), Some(b)) => {
                samps_grow(
                    d,
                    anchored_tips(d, base, len, anchors, (n - 1) as nat, documented, true),
                    a,
                    s,
                    anchored_tips(s, moved, len, anchors, (n - 1) as nat, documented, true),
                    b,
                );
            },
            _ => {},
        }
    }
}

proof fn block_moves(d: Seq<u8>, a: Block, s: Seq<u8>, b: Block, documented: Option<usize>)
    requires
        same_block(d, a, s, b),
        d.len() <= usize::MAX,
        s.len() <= usize::MAX,
    ensures
        same_samps(
            d,
            samp_tips(d, a.start as int, a.end as int, documented, true),
            s,
            samp_tips(s, b.start as int, b.end as int, documented, true),
        ),
{
    let block = d.subrange(a.start as int, a.end as int);
    let len = a.end - a.start;
    assert(s.subrange(b.start as int, b.end as int).len() == len);
    let frames = frames_from(block, 0, seq![]).0;
    frames_wf(block, 0, seq![]);
    framed_move(
        d,
        a.start as int,
        s,
        b.start as int,
        len,
        frames,
        frames.len(),
        documented,
    );
    let anchors = anchors_below(block, block.len());
    anchors_are_ordered(block, block.len());
    anchored_move(
        d,
        a.start as int,
        s,
        b.start as int,
        len,
        anchors,
        anchors.len(),
        documented,
    );
}

proof fn contents_move(
    d: Seq<u8>,
    a: Seq<Block>,
    s: Seq<u8>,
    b: Seq<Block>,
    n: nat,
    documented: Option<usize>,
)
    requires
        same_blocks(d, a, s, b),
        n <= a.len(),
        d.len() <= usize::MAX,
        s.len() <= usize::MAX,
    ensures
        same_samps(
            d,
            samps_of(d, a, n, documented, true),
            s,
            samps_of(s, b, n, documented, true),
        ),
        infos_of(d, a, n) == infos_of(s, b, n),
        raw_desc_of(d, a, n) == raw_desc_of(s, b, n),
        desc_error_of(d, a, n) == desc_error_of(s, b, n),
    decreases n,
{
    if n > 0 {
        contents_move(d, a, s, b, (n - 1) as nat, documented);
        assert(same_block(d, a[n - 1], s, b[n - 1]));
        assert(block_data(d, a, n - 1) == block_data(s, b, n - 1));
        block_moves(d, a[n - 1], s, b[n - 1], documented);
        let xs = samps_of(d, a, (n - 1) as nat, documented, true);
        let ys = samps_of(s, b, (n - 1) as nat, documented, true);
        let more = samp_tips(d, a[n - 1].start as int, a[n - 1].end as int, documented, true);
        let then = samp_tips(s, b[n - 1].start as int, b[n - 1].end as int, documented, true);
        assert forall|i: int| 0 <= i < (xs + more).len() implies same_samp(
            d,
            #[trigger] (xs + more)[i],
            s,
            (ys + then)[i],
        ) by {
            if i < xs.len() {
                assert((xs + more)[i] == xs[i]);
            } else {
                assert((xs + more)[i] == more[i - xs.len()]);
            }
        }
    }
}

spec fn same_places(
    d: Seq<u8>,
    a: Seq<Option<DeferredTip>>,
    s: Seq<u8>,
    b: Seq<Option<DeferredTip>>,
) -> bool {
    &&& a.len() == b.len()
    &&& forall|i: int| 0 <= i < a.len() ==> same_place(d, #[trigger] a[i], s, b[i])
}

proof fn pairs_move(
    d: Seq<u8>,
    a: Seq<SampView>,
    s: Seq<u8>,
    b: Seq<SampView>,
    infos: Seq<Info>,
)
    requires
        same_samps(d, a, s, b),
    ensures
        paired(a, infos).brushes == paired(b, infos).brushes,
        paired(a, infos).dropped == paired(b, infos).dropped,
        paired(a, infos).skipped == paired(b, infos).skipped,
        same_places(d, paired(a, infos).tips, s, paired(b, infos).tips),
{
    assert forall|i: int| 0 <= i < a.len() implies (#[trigger] a[i]).uuid == b[i].uuid by {
        assert(same_samp(d, a[i], s, b[i]));
    }
    resolved_ignores_pixels(a, b, infos, infos.len());
    unused_ignores_pixels(a, b, infos, a.len());
    resolved_are_resolved(a, infos, infos.len());
    unused_are_tips(a, infos, a.len());
    let x = paired(a, infos);
    let y = paired(b, infos);
    if presets_first(a, infos) {
        let named = resolved(a, infos, infos.len());
        assert forall|i: int| 0 <= i < named.len() implies x.brushes[i] == y.brushes[i]
            && same_place(d, #[trigger] x.tips[i], s, y.tips[i]) by {
            let info = infos[named[i] as int];
            let uuid = info.sampled_data_uuid->0;
            resolve_ignores_pixels(a, b, a.len(), uuid);
            tip_named_is_named(a, a.len(), uuid);
            let k = resolve(a, info)->0;
            assert(same_samp(d, a[k as int], s, b[k as int]));
        }
        let left = unused(a, infos, a.len());
        assert forall|i: int| 0 <= i < left.len() implies x.dropped[i] == y.dropped[i] by {
            assert(left[i] < a.len());
            assert(same_samp(d, a[left[i] as int], s, b[left[i] as int]));
        }
        assert forall|i: int| 0 <= i < x.brushes.len() implies x.brushes[i] == y.brushes[i] by {
            assert(same_place(d, x.tips[i], s, y.tips[i]));
        }
        assert(x.dropped =~= y.dropped);
        assert(x.skipped =~= y.skipped);
    } else {
        assert forall|i: int| 0 <= i < x.tips.len() implies x.brushes[i] == y.brushes[i]
            && same_place(d, #[trigger] x.tips[i], s, y.tips[i]) by {
            let k = a.len() - 1 - i;
            assert(same_samp(d, a[k], s, b[k]));
        }
        assert forall|i: int| 0 <= i < x.brushes.len() implies x.brushes[i] == y.brushes[i] by {
            assert(same_place(d, x.tips[i], s, y.tips[i]));
        }
    }
    assert(x.brushes =~= y.brushes);
}

/// A file of blocks whose `patt` blocks are cut out holds the same pack but for patterns,
/// with the same tips.
#[verifier::spinoff_prover]
pub proof fn patterns_can_be_cut_out(d: Seq<u8>)
    requires
        d.len() <= usize::MAX,
        all_deferred_of(d) is Ok,
        !is_stream(all_deferred_of(d)->Ok_0.pack.version),
    ensures
        ({
            let p = all_deferred_of(d)->Ok_0;
            all_deferred_of(without_patterns(d)) matches Ok(q) && {
                &&& q.pack == p.pack
                &&& q.tips.len() == p.tips.len()
                &&& forall|i: int| 0 <= i < p.tips.len() ==> #[trigger] q.tip(i) == p.tip(i)
            }
        }),
{
    reveal(parsed);
    let s = without_patterns(d);
    let (version, subversion) = header_of(d)->Ok_0;
    cut_is_no_longer(d, 4);
    assert(forall|i: int| 0 <= i < 4 ==> s[i] == d[i]);
    assert(header_of(s) == header_of(d));
    assert(s.skip(4) =~= cut_from(d, 4));
    let empty: Seq<Block> = seq![];
    blocks_are_cut(d, 4, s, 4, empty, empty);
    let a = blocks_from(d, 4, PatternMode::Skip, seq![])->Ok_0;
    let b = blocks_from(s, 4, PatternMode::Skip, seq![])->Ok_0;
    let n = a.len();
    let documented = rect_offset_of(version, subversion);
    contents_move(d, a, s, b, n, documented);
    let infos = infos_of(d, a, n);
    pairs_move(
        d,
        samps_of(d, a, n, documented, true),
        s,
        samps_of(s, b, n, documented, true),
        infos,
    );
    patterns_change_nothing_else(d, TipMode::AllDeferred);
    patterns_change_nothing_else(s, TipMode::AllDeferred);
    let p = all_deferred_of(d)->Ok_0;
    let q = all_deferred_of(s)->Ok_0;
    assert(q.pack == p.pack);
    assert forall|i: int| 0 <= i < p.tips.len() implies #[trigger] q.tip(i) == p.tip(i) by {
        assert(same_place(d, p.tips[i], s, q.tips[i]));
    }
}

} // verus!
