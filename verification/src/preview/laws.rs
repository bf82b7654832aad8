//! What holds of previews as a whole.
use vstd::prelude::*;
use crate::abr::cut::{patterns_can_be_cut_out, without_patterns};
use crate::abr::deferred::{all_deferred_of, parsed_wf, DeferredView};
use crate::abr::pairing::{computed_of, presets_first, resolved, unsupported_of, Info};
use crate::abr::parser::{
    blocks_from, header_of, infos_of, is_stream, parsed, samps_of, PatternMode, TipMode,
};
use crate::abr::samp::{rect_offset_of, SampView};
use crate::abr::types::{ComputedGeometry, PackView};
use crate::preview::abr_pack::{
    all_made, brush_tip_is_sized, built_as_needed, geometry_of, gray_is_sized,
    is_abr_preview, is_made, listed_rows, ordered_rows, over_budget, progress, row_entry,
    abr_plan, ordered_rows_ok, rows_below, rows_from, row_ok, rows_ok, rows_with_key, Row, Source,
};
use crate::preview::bitmap::{downsampled_fits, grayscale_of, BitmapView, GrayscaleBitmap};
use crate::preview::codec::{image_kind, ImageKind};
use crate::preview::decode::{guarded, DecodedImage, GuardedDecodeError};
use crate::preview::entry::{
    available, budgeted, enough, enough_is_enough, first_available, taken, tip_fits, tips_fit,
    Budget, EntryView, PreviewSet, Take, TipState, MAX_PREVIEW_BYTES,
};
use crate::preview::members::{
    are_member_entries, member_name_of, member_outcome_ok, member_progress, member_shape_of,
    member_step, outcome_ok, outcomes_ok, root_prefixes, shape_view, read_as_needed, Outcome,
    ShapeView,
};
use crate::preview::procreate::{
    shape_of, shape_result, ShapePngError, MAX_ENTRY_BYTES, MAX_PNG_DIMENSION,
};
use crate::preview::synth::{is_steady, shades, steady_tips_are_equal};
use crate::support::text::views;

verus! {

proof fn with_key_of_concat(a: Seq<Row>, b: Seq<Row>, n: nat, key: nat)
    requires
        n <= b.len(),
    ensures
        rows_with_key(a + b, a.len() + n, key) == rows_with_key(a, a.len(), key) + rows_with_key(
            b,
            n,
            key,
        ),
    decreases n,
{
    if n == 0 {
        with_key_of_front(a, b, a.len(), key);
        assert(rows_with_key(a, a.len(), key) + seq![] =~= rows_with_key(a, a.len(), key));
    } else {
        with_key_of_concat(a, b, (n - 1) as nat, key);
        assert((a + b)[a.len() + n - 1] == b[n - 1]);
        assert(rows_with_key(a + b, a.len() + n, key) =~= rows_with_key(a, a.len(), key)
            + rows_with_key(b, n, key));
    }
}

proof fn with_key_of_front(a: Seq<Row>, b: Seq<Row>, n: nat, key: nat)
    requires
        n <= a.len(),
    ensures
        rows_with_key(a + b, n, key) == rows_with_key(a, n, key),
    decreases n,
{
    if n > 0 {
        with_key_of_front(a, b, (n - 1) as nat, key);
        assert((a + b)[n - 1] == a[n - 1]);
    }
}

proof fn with_key_of_push(a: Seq<Row>, row: Row, key: nat)
    ensures
        rows_with_key(a.push(row), a.len() + 1, key) == if row.key == key {
            rows_with_key(a, a.len(), key).push(row)
        } else {
            rows_with_key(a, a.len(), key)
        },
{
    assert(a.push(row) =~= a + seq![row]);
    with_key_of_front(a, seq![row], a.len(), key);
    assert((a + seq![row])[a.len() as int] == row);
}

proof fn with_key_of_bucket(rows: Seq<Row>, n: nat, bucket: nat, key: nat)
    requires
        n <= rows.len(),
    ensures
        ({
            let found = rows_with_key(rows, n, bucket);
            rows_with_key(found, found.len(), key) == if bucket == key {
                found
            } else {
                seq![]
            }
        }),
    decreases n,
{
    if n > 0 {
        with_key_of_bucket(rows, (n - 1) as nat, bucket, key);
        if rows[n - 1].key == bucket {
            with_key_of_push(rows_with_key(rows, (n - 1) as nat, bucket), rows[n - 1], key);
        }
    }
}

proof fn with_key_of_rest(rows: Seq<Row>, n: nat, limit: nat, key: nat)
    requires
        n <= rows.len(),
    ensures
        ({
            let found = rows_from(rows, n, limit);
            rows_with_key(found, found.len(), key) == if key >= limit {
                rows_with_key(rows, n, key)
            } else {
                seq![]
            }
        }),
    decreases n,
{
    if n > 0 {
        with_key_of_rest(rows, (n - 1) as nat, limit, key);
        if rows[n - 1].key >= limit {
            with_key_of_push(rows_from(rows, (n - 1) as nat, limit), rows[n - 1], key);
        }
    }
}

proof fn with_key_of_below(rows: Seq<Row>, limit: nat, key: nat)
    ensures
        ({
            let found = rows_below(rows, limit);
            rows_with_key(found, found.len(), key) == if key < limit {
                rows_with_key(rows, rows.len(), key)
            } else {
                seq![]
            }
        }),
    decreases limit,
{
    if limit > 0 {
        let before = rows_below(rows, (limit - 1) as nat);
        let bucket = rows_with_key(rows, rows.len(), (limit - 1) as nat);
        with_key_of_below(rows, (limit - 1) as nat, key);
        with_key_of_bucket(rows, rows.len(), (limit - 1) as nat, key);
        with_key_of_concat(before, bucket, bucket.len(), key);
        assert(rows_with_key(rows, rows.len(), key) + seq![] =~= rows_with_key(
            rows,
            rows.len(),
            key,
        ));
        assert(seq![] + bucket =~= bucket);
        assert(Seq::<Row>::empty() + seq![] =~= seq![]);
    }
}

/// Ordering the rows of a pack loses none, adds none, and keeps those of one key in their
/// order: sampled brushes, then computed presets, then unsupported ones, each as the pack
/// lists them.
pub proof fn ordering_keeps_rows(pack: PackView, key: nat)
    ensures
        rows_with_key(ordered_rows(pack), ordered_rows(pack).len(), key) == rows_with_key(
            listed_rows(pack),
            listed_rows(pack).len(),
            key,
        ),
{
    let rows = listed_rows(pack);
    let below = rows_below(rows, pack.preset_count);
    let rest = rows_from(rows, rows.len(), pack.preset_count);
    with_key_of_below(rows, pack.preset_count, key);
    with_key_of_rest(rows, rows.len(), pack.preset_count, key);
    with_key_of_concat(below, rest, rest.len(), key);
    let found = rows_with_key(rows, rows.len(), key);
    assert(found + seq![] =~= found);
    assert(seq![] + found =~= found);
}

proof fn bucket_len(rows: Seq<Row>, n: nat, key: nat)
    requires
        n <= rows.len(),
    ensures
        forall|i: int|
            0 <= i < rows_with_key(rows, n, key).len() ==> (#[trigger] rows_with_key(
                rows,
                n,
                key,
            )[i]).key == key,
    decreases n,
{
    if n > 0 {
        bucket_len(rows, (n - 1) as nat, key);
    }
}

/// Are the keys of these rows in order?
pub open spec fn keys_ascend(rows: Seq<Row>) -> bool {
    forall|i: int, j: int| 0 <= i < j < rows.len() ==> rows[i].key <= rows[j].key
}

proof fn below_ascends(rows: Seq<Row>, limit: nat)
    ensures
        keys_ascend(rows_below(rows, limit)),
        forall|i: int|
            0 <= i < rows_below(rows, limit).len() ==> (#[trigger] rows_below(rows, limit)[i]).key
                < limit,
    decreases limit,
{
    if limit > 0 {
        below_ascends(rows, (limit - 1) as nat);
        bucket_len(rows, rows.len(), (limit - 1) as nat);
    }
}

proof fn rest_has_one_key(rows: Seq<Row>, n: nat, limit: nat)
    requires
        n <= rows.len(),
        forall|i: int|
            0 <= i < rows.len() ==> (#[trigger] rows[i]).key < limit || rows[i].key == usize::MAX,
    ensures
        forall|i: int|
            0 <= i < rows_from(rows, n, limit).len() ==> (#[trigger] rows_from(
                rows,
                n,
                limit,
            )[i]).key == usize::MAX,
    decreases n,
{
    if n > 0 {
        rest_has_one_key(rows, (n - 1) as nat, limit);
        assert(rows[n - 1].key < limit || rows[n - 1].key == usize::MAX);
    }
}

proof fn resolved_are_presets(samps: Seq<SampView>, infos: Seq<Info>, n: nat)
    ensures
        forall|i: int|
            0 <= i < resolved(samps, infos, n).len() ==> (#[trigger] resolved(samps, infos, n)[i])
                < n,
    decreases n,
{
    if n > 0 {
        resolved_are_presets(samps, infos, (n - 1) as nat);
        let before = resolved(samps, infos, (n - 1) as nat);
        let all = resolved(samps, infos, n);
        assert forall|i: int| 0 <= i < all.len() implies (#[trigger] all[i]) < n by {
            if i < before.len() {
                assert(all[i] == before[i]);
            }
        }
    }
}

proof fn listed_are_presets(infos: Seq<Info>, n: nat)
    requires
        n <= usize::MAX,
    ensures
        forall|i: int|
            0 <= i < computed_of(infos, n).len() ==> ((#[trigger] computed_of(
                infos,
                n,
            )[i]).preset_index matches Some(k) && k < n),
        forall|i: int|
            0 <= i < unsupported_of(infos, n).len() ==> (#[trigger] unsupported_of(
                infos,
                n,
            )[i]).preset_index < n,
    decreases n,
{
    if n > 0 {
        listed_are_presets(infos, (n - 1) as nat);
    }
}

/// The entries of a file stand in the order of its preset list, and those that have no
/// place in it come last.
pub proof fn entries_follow_the_preset_list(d: Seq<u8>)
    requires
        all_deferred_of(d) is Ok,
        all_deferred_of(d)->Ok_0.pack.preset_count <= usize::MAX,
    ensures
        keys_ascend(ordered_rows(all_deferred_of(d)->Ok_0.pack)),
{
    reveal(parsed);
    let pack = all_deferred_of(d)->Ok_0.pack;
    let rows = listed_rows(pack);
    let limit = pack.preset_count;
    assert forall|i: int| 0 <= i < rows.len() implies (#[trigger] rows[i]).key < limit
        || rows[i].key == usize::MAX by {
        let (version, subversion) = header_of(d)->Ok_0;
        if !is_stream(version) {
            let blocks = blocks_from(d, 4, PatternMode::Skip, seq![])->Ok_0;
            let infos = infos_of(d, blocks, blocks.len());
            let samps = samps_of(
                d,
                blocks,
                blocks.len(),
                rect_offset_of(version, subversion),
                true,
            );
            resolved_are_presets(samps, infos, infos.len());
            listed_are_presets(infos, infos.len());
            if i < pack.brushes.len() {
                if presets_first(samps, infos) {
                    let k = resolved(samps, infos, infos.len())[i];
                    assert(k < infos.len());
                    assert(pack.brushes[i].preset_index == Some(k as usize));
                }
            } else if i < pack.brushes.len() + pack.computed_presets.len() {
                let k = i - pack.brushes.len();
                assert(pack.computed_presets[k] == computed_of(infos, infos.len())[k]);
            } else {
                let k = i - pack.brushes.len() - pack.computed_presets.len();
                assert(pack.unsupported_tips[k] == unsupported_of(infos, infos.len())[k]);
            }
        }
    }
    below_ascends(rows, limit);
    rest_has_one_key(rows, rows.len(), limit);
}

/// Every row is one entry, and the entries are numbered from 0.
pub proof fn each_row_is_one_entry(
    p: DeferredView,
    rows: Seq<Row>,
    n: nat,
    max_cell: u32,
    made: Seq<Option<BitmapView>>,
)
    ensures
        ({
            let entries = progress(p, rows, n, max_cell, made).entries;
            &&& entries.len() == n
            &&& forall|k: int|
                0 <= k < n ==> (#[trigger] entries[k]).index == k && entries[k] == row_entry(
                    p,
                    k as nat,
                    rows[k],
                    max_cell,
                    progress(p, rows, k as nat, max_cell, made).budget,
                    made[k],
                ).0
        }),
    decreases n,
{
    if n > 0 {
        each_row_is_one_entry(p, rows, (n - 1) as nat, max_cell, made);
    }
}

/// What a brush is called and the size that its file declares do not depend on the size of
/// the preview, nor on what else is in it.
pub proof fn declared_size_is_kept(
    p: DeferredView,
    rows: Seq<Row>,
    n: nat,
    a: u32,
    made_a: Seq<Option<BitmapView>>,
    b: u32,
    made_b: Seq<Option<BitmapView>>,
)
    ensures
        forall|k: int|
            0 <= k < n ==> {
                let one = #[trigger] progress(p, rows, n, a, made_a).entries[k];
                let other = progress(p, rows, n, b, made_b).entries[k];
                &&& one.name == other.name
                &&& one.source_dimensions == other.source_dimensions
            },
{
    each_row_is_one_entry(p, rows, n, a, made_a);
    each_row_is_one_entry(p, rows, n, b, made_b);
}

proof fn entries_stay(
    p: DeferredView,
    rows: Seq<Row>,
    n: nat,
    m: nat,
    max_cell: u32,
    made: Seq<Option<BitmapView>>,
) -> (more: Seq<EntryView>)
    requires
        n <= m,
    ensures
        progress(p, rows, m, max_cell, made).entries == progress(
            p,
            rows,
            n,
            max_cell,
            made,
        ).entries + more,
    decreases m,
{
    if n == m {
        let entries = progress(p, rows, n, max_cell, made).entries;
        assert(entries + seq![] =~= entries);
        seq![]
    } else {
        let first = progress(p, rows, n, max_cell, made).entries;
        let before = entries_stay(p, rows, n, (m - 1) as nat, max_cell, made);
        let last = progress(p, rows, m, max_cell, made).entries.last();
        assert(first + before.push(last) =~= (first + before).push(last));
        before.push(last)
    }
}

/// Building no more entries than are needed returns what building all of them does.
pub proof fn built_entries_suffice(
    p: DeferredView,
    rows: Seq<Row>,
    built: nat,
    max_cell: u32,
    made: Seq<Option<BitmapView>>,
    take: Take,
)
    requires
        built_as_needed(p, rows, built, max_cell, made, take),
    ensures
        taken(progress(p, rows, built, max_cell, made).entries, take) == taken(
            progress(p, rows, rows.len(), max_cell, made).entries,
            take,
        ),
{
    if built < rows.len() {
        let more = entries_stay(p, rows, built, rows.len(), max_cell, made);
        enough_is_enough(progress(p, rows, built, max_cell, made).entries, more, take);
    }
}

proof fn steady_progress<S: Fn(ComputedGeometry, u32, u32, u32) -> u8>(
    shade: S,
    p: DeferredView,
    rows: Seq<Row>,
    n: nat,
    max_cell: u32,
    a: Seq<Option<BitmapView>>,
    b: Seq<Option<BitmapView>>,
)
    requires
        is_steady(shade),
        all_made(shade, p, rows, n, max_cell, a),
        all_made(shade, p, rows, n, max_cell, b),
    ensures
        progress(p, rows, n, max_cell, a) == progress(p, rows, n, max_cell, b),
    decreases n,
{
    if n > 0 {
        steady_progress(shade, p, rows, (n - 1) as nat, max_cell, a, b);
        let row = rows[n - 1];
        match geometry_of(p.pack, row) {
            Some(geom) => {
                if !progress(p, rows, (n - 1) as nat, max_cell, a).budget.over {
                    assert(is_made(shade, geom, a[n - 1]));
                    assert(is_made(shade, geom, b[n - 1]));
                    steady_tips_are_equal(shade, geom, a[n - 1]->0, b[n - 1]->0);
                }
            },
            None => {},
        }
    }
}

/// The limited preview of a pack is the first available entries of the full one, where
/// computed tips are made the same every time.
pub proof fn limited_is_the_front_of_the_full<
    S: Fn(ComputedGeometry, u32, u32, u32) -> u8,
>(
    full: PreviewSet,
    limited: PreviewSet,
    built: nat,
    p: DeferredView,
    max_cell: u32,
    n: usize,
    shade: S,
)
    requires
        is_steady(shade),
        is_abr_preview(full, ordered_rows(p.pack).len(), p, max_cell, Take::All, shade),
        is_abr_preview(limited, built, p, max_cell, Take::FirstAvailable(n), shade),
    ensures
        views(limited.entries@) == first_available(views(full.entries@), n as nat),
{
    let rows = ordered_rows(p.pack);
    let take = Take::FirstAvailable(n);
    let a = choose|made: Seq<Option<BitmapView>>|
        {
            &&& all_made(shade, p, rows, rows.len(), max_cell, made)
            &&& built_as_needed(p, rows, rows.len(), max_cell, made, Take::All)
            &&& views(full.entries@) == taken(
                (#[trigger] progress(p, rows, rows.len(), max_cell, made)).entries,
                Take::All,
            )
        };
    let b = choose|made: Seq<Option<BitmapView>>|
        {
            &&& all_made(shade, p, rows, built, max_cell, made)
            &&& built_as_needed(p, rows, built, max_cell, made, take)
            &&& views(limited.entries@) == taken(
                (#[trigger] progress(p, rows, built, max_cell, made)).entries,
                take,
            )
        };
    steady_progress(shade, p, rows, built, max_cell, a, b);
    if built < rows.len() {
        let more = entries_stay(p, rows, built, rows.len(), max_cell, a);
        enough_is_enough(progress(p, rows, built, max_cell, a).entries, more, take);
    }
}

/// The bytes that the available tips of these entries hold.
pub open spec fn held_bytes(entries: Seq<EntryView>) -> nat
    decreases entries.len(),
{
    if entries.len() == 0 {
        0
    } else {
        held_bytes(entries.drop_last()) + (match entries.last().tip {
            TipState::Available(bitmap) => bitmap.data.len(),
            TipState::Unavailable(_) => 0,
        })
    }
}

proof fn budgeted_fits(budget: Budget, bitmap: BitmapView, max_cell: u32)
    requires
        bitmap.wf(),
        max_cell >= 1,
    ensures
        tip_fits(budgeted(budget, bitmap, max_cell).0, max_cell),
{
    downsampled_fits(bitmap, max_cell);
}

proof fn progress_fits<S: Fn(ComputedGeometry, u32, u32, u32) -> u8>(
    shade: S,
    p: DeferredView,
    rows: Seq<Row>,
    n: nat,
    max_cell: u32,
    made: Seq<Option<BitmapView>>,
)
    requires
        p.wf(),
        shades(shade),
        n <= rows.len(),
        rows_ok(p.pack, rows),
        max_cell >= 1,
        all_made(shade, p, rows, n, max_cell, made),
    ensures
        tips_fit(progress(p, rows, n, max_cell, made).entries, max_cell),
        progress(p, rows, n, max_cell, made).budget.wf(),
        held_bytes(progress(p, rows, n, max_cell, made).entries) == progress(
            p,
            rows,
            n,
            max_cell,
            made,
        ).budget.held,
    decreases n,
{
    if n > 0 {
        progress_fits(shade, p, rows, (n - 1) as nat, max_cell, made);
        let before = progress(p, rows, (n - 1) as nat, max_cell, made);
        let after = progress(p, rows, n, max_cell, made);
        assert(after.entries.drop_last() =~= before.entries);
        let row = rows[n - 1];
        match row.source {
            Source::Sampled(i) => {
                brush_tip_is_sized(p, i as int);
                match p.tip(i as int) {
                    Ok(tip) => {
                        gray_is_sized(tip);
                        budgeted_fits(before.budget, grayscale_of(tip), max_cell);
                    },
                    Err(_) => {},
                }
            },
            Source::Computed(_) => {
                if geometry_of(p.pack, row) is Some && !before.budget.over {
                    let geom = geometry_of(p.pack, row)->0;
                    assert(is_made(shade, geom, made[n - 1]));
                    match made[n - 1] {
                        Some(b) => {
                            budgeted_fits(before.budget, b, max_cell);
                        },
                        None => {},
                    }
                }
            },
            Source::Unsupported(_) => {},
        }
    }
}

proof fn first_available_fit(entries: Seq<EntryView>, n: nat, max_cell: u32)
    requires
        tips_fit(entries, max_cell),
    ensures
        tips_fit(first_available(entries, n), max_cell),
        held_bytes(first_available(entries, n)) <= held_bytes(entries),
    decreases entries.len(),
{
    if entries.len() > 0 {
        let init = entries.drop_last();
        assert forall|k: int| 0 <= k < init.len() implies tip_fits(
            (#[trigger] init[k]).tip,
            max_cell,
        ) by {
            assert(init[k] == entries[k]);
        }
        first_available_fit(init, n, max_cell);
        let before = first_available(init, n);
        assert(before.push(entries.last()).drop_last() =~= before);
        assert(tip_fits(entries[entries.len() - 1].tip, max_cell));
    }
}

/// The available tips of a preview fit into a cell, have no side that is 0, and together
/// hold no more bytes than a preview may.
pub proof fn available_tips_fit<S: Fn(ComputedGeometry, u32, u32, u32) -> u8>(
    d: Seq<u8>,
    set: PreviewSet,
    built: nat,
    max_cell: u32,
    take: Take,
    shade: S,
)
    requires
        d.len() <= usize::MAX,
        shades(shade),
        abr_plan(d, max_cell) is Ok,
        is_abr_preview(set, built, abr_plan(d, max_cell)->Ok_0, max_cell, take, shade),
    ensures
        tips_fit(views(set.entries@), max_cell),
        held_bytes(views(set.entries@)) <= MAX_PREVIEW_BYTES,
{
    let p = abr_plan(d, max_cell)->Ok_0;
    let rows = ordered_rows(p.pack);
    parsed_wf(d, TipMode::AllDeferred, PatternMode::Skip);
    ordered_rows_ok(p.pack);
    let made = choose|made: Seq<Option<BitmapView>>|
        {
            &&& all_made(shade, p, rows, built, max_cell, made)
            &&& built_as_needed(p, rows, built, max_cell, made, take)
            &&& views(set.entries@) == taken(
                (#[trigger] progress(p, rows, built, max_cell, made)).entries,
                take,
            )
        };
    progress_fits(shade, p, rows, built, max_cell, made);
    match take {
        Take::All => {},
        Take::FirstAvailable(n) => {
            first_available_fit(
                progress(p, rows, built, max_cell, made).entries,
                n as nat,
                max_cell,
            );
        },
    }
}

proof fn over_stays(
    p: DeferredView,
    rows: Seq<Row>,
    n: nat,
    m: nat,
    max_cell: u32,
    made: Seq<Option<BitmapView>>,
)
    requires
        n <= m,
        progress(p, rows, n, max_cell, made).budget.over,
    ensures
        progress(p, rows, m, max_cell, made).budget.over,
    decreases m,
{
    if n < m {
        over_stays(p, rows, n, (m - 1) as nat, max_cell, made);
    }
}

/// Once a tip is over the budget, so is every later one that there is to render, and none
/// is available.
pub proof fn nothing_after_the_budget(
    p: DeferredView,
    rows: Seq<Row>,
    n: nat,
    max_cell: u32,
    made: Seq<Option<BitmapView>>,
    i: int,
    j: int,
)
    requires
        0 <= i < j < n,
        progress(p, rows, n, max_cell, made).entries[i].tip == over_budget(),
    ensures
        !available(progress(p, rows, n, max_cell, made).entries[j]),
        rows[j].source is Sampled || geometry_of(p.pack, rows[j]) is Some ==> progress(
            p,
            rows,
            n,
            max_cell,
            made,
        ).entries[j].tip == over_budget(),
{
    each_row_is_one_entry(p, rows, n, max_cell, made);
    over_stays(p, rows, (i + 1) as nat, j as nat, max_cell, made);
}

/// Every member of an archive is one entry, and the entries are numbered from 0.
pub proof fn each_member_is_one_entry(
    file: Seq<u8>,
    prefixes: Seq<Seq<char>>,
    n: nat,
    max_cell: u32,
    outcomes: Seq<Outcome>,
)
    ensures
        ({
            let entries = member_progress(file, prefixes, n, max_cell, outcomes).entries;
            &&& entries.len() == n
            &&& forall|k: int|
                0 <= k < n ==> (#[trigger] entries[k]).index == k && entries[k] == member_step(
                    file,
                    k as nat,
                    prefixes[k],
                    outcomes[k],
                    max_cell,
                    member_progress(file, prefixes, k as nat, max_cell, outcomes).budget,
                ).0
        }),
    decreases n,
{
    reveal(member_step);
    if n > 0 {
        each_member_is_one_entry(file, prefixes, (n - 1) as nat, max_cell, outcomes);
    }
}

/// What a member is called and the size that its shape declares do not depend on the size
/// of the preview, nor on what else is in it.
pub proof fn declared_shape_is_kept(
    file: Seq<u8>,
    prefixes: Seq<Seq<char>>,
    n: nat,
    a: u32,
    outcomes_a: Seq<Outcome>,
    b: u32,
    outcomes_b: Seq<Outcome>,
)
    requires
        forall|k: int| 0 <= k < n ==> (#[trigger] outcomes_a[k]).header == outcomes_b[k].header,
    ensures
        forall|k: int|
            0 <= k < n ==> {
                let one = #[trigger] member_progress(file, prefixes, n, a, outcomes_a).entries[k];
                let other = member_progress(file, prefixes, n, b, outcomes_b).entries[k];
                &&& one.name == other.name
                &&& one.source_dimensions == other.source_dimensions
            },
{
    reveal(member_step);
    each_member_is_one_entry(file, prefixes, n, a, outcomes_a);
    each_member_is_one_entry(file, prefixes, n, b, outcomes_b);
    assert forall|k: int| 0 <= k < n implies {
        let one = #[trigger] member_progress(file, prefixes, n, a, outcomes_a).entries[k];
        let other = member_progress(file, prefixes, n, b, outcomes_b).entries[k];
        &&& one.name == other.name
        &&& one.source_dimensions == other.source_dimensions
    } by {
        assert(outcomes_a[k].header == outcomes_b[k].header);
    }
}

proof fn member_entries_stay(
    file: Seq<u8>,
    prefixes: Seq<Seq<char>>,
    n: nat,
    m: nat,
    max_cell: u32,
    outcomes: Seq<Outcome>,
) -> (more: Seq<EntryView>)
    requires
        n <= m,
    ensures
        member_progress(file, prefixes, m, max_cell, outcomes).entries == member_progress(
            file,
            prefixes,
            n,
            max_cell,
            outcomes,
        ).entries + more,
    decreases m,
{
    let first = member_progress(file, prefixes, n, max_cell, outcomes).entries;
    if n == m {
        assert(first + seq![] =~= first);
        seq![]
    } else {
        let before = member_entries_stay(file, prefixes, n, (m - 1) as nat, max_cell, outcomes);
        let last = member_progress(file, prefixes, m, max_cell, outcomes).entries.last();
        assert(first + before.push(last) =~= (first + before).push(last));
        before.push(last)
    }
}

/// Reading no more members than are needed returns what reading all of them does.
pub proof fn read_members_suffice(
    file: Seq<u8>,
    prefixes: Seq<Seq<char>>,
    built: nat,
    max_cell: u32,
    outcomes: Seq<Outcome>,
    take: Take,
)
    requires
        read_as_needed(file, prefixes, built, max_cell, outcomes, take),
    ensures
        taken(member_progress(file, prefixes, built, max_cell, outcomes).entries, take) == taken(
            member_progress(file, prefixes, prefixes.len(), max_cell, outcomes).entries,
            take,
        ),
{
    if built < prefixes.len() {
        let more = member_entries_stay(
            file,
            prefixes,
            built,
            prefixes.len(),
            max_cell,
            outcomes,
        );
        enough_is_enough(
            member_progress(file, prefixes, built, max_cell, outcomes).entries,
            more,
            take,
        );
    }
}

proof fn member_progress_fits(
    file: Seq<u8>,
    prefixes: Seq<Seq<char>>,
    n: nat,
    max_cell: u32,
    outcomes: Seq<Outcome>,
)
    requires
        max_cell >= 1,
        outcomes_ok(file, prefixes, n, max_cell, outcomes),
    ensures
        tips_fit(member_progress(file, prefixes, n, max_cell, outcomes).entries, max_cell),
        member_progress(file, prefixes, n, max_cell, outcomes).budget.wf(),
        held_bytes(member_progress(file, prefixes, n, max_cell, outcomes).entries)
            == member_progress(file, prefixes, n, max_cell, outcomes).budget.held,
    decreases n,
{
    reveal(member_step);
    reveal(member_outcome_ok);
    if n > 0 {
        member_progress_fits(file, prefixes, (n - 1) as nat, max_cell, outcomes);
        let before = member_progress(file, prefixes, (n - 1) as nat, max_cell, outcomes);
        let after = member_progress(file, prefixes, n, max_cell, outcomes);
        assert(after.entries.drop_last() =~= before.entries);
        let prefix = prefixes[n - 1];
        let o = outcomes[n - 1];
        assert(member_outcome_ok(file, prefix, before.budget.over, o));
        match o.shape {
            ShapeView::Tip(b) => {
                if b.wf() {
                    budgeted_fits(before.budget, b, max_cell);
                }
            },
            _ => {},
        }
    }
}

/// The available tips of an archive's members fit into a cell, have no side that is 0, and
/// together hold no more bytes than a preview may.
pub proof fn available_shapes_fit(
    entries: Seq<EntryView>,
    built: nat,
    file: Seq<u8>,
    prefixes: Seq<Seq<char>>,
    max_cell: u32,
    take: Take,
)
    requires
        max_cell >= 1,
        are_member_entries(entries, built, file, prefixes, max_cell, take),
    ensures
        tips_fit(entries, max_cell),
        held_bytes(entries) <= MAX_PREVIEW_BYTES,
{
    let outcomes = choose|outcomes: Seq<Outcome>|
        {
            &&& outcomes_ok(file, prefixes, built, max_cell, outcomes)
            &&& read_as_needed(file, prefixes, built, max_cell, outcomes, take)
            &&& entries == taken(
                (#[trigger] member_progress(file, prefixes, built, max_cell, outcomes)).entries,
                take,
            )
        };
    member_progress_fits(file, prefixes, built, max_cell, outcomes);
    match take {
        Take::All => {},
        Take::FirstAvailable(n) => {
            first_available_fit(
                member_progress(file, prefixes, built, max_cell, outcomes).entries,
                n as nat,
                max_cell,
            );
        },
    }
}

proof fn member_over_stays(
    file: Seq<u8>,
    prefixes: Seq<Seq<char>>,
    n: nat,
    m: nat,
    max_cell: u32,
    outcomes: Seq<Outcome>,
)
    requires
        n <= m,
        member_progress(file, prefixes, n, max_cell, outcomes).budget.over,
    ensures
        member_progress(file, prefixes, m, max_cell, outcomes).budget.over,
    decreases m,
{
    reveal(member_step);
    if n < m {
        member_over_stays(file, prefixes, n, (m - 1) as nat, max_cell, outcomes);
    }
}

/// Once a member's tip is over the budget, so is every later one that there is to decode,
/// and none is available.
pub proof fn no_member_after_the_budget(
    file: Seq<u8>,
    prefixes: Seq<Seq<char>>,
    n: nat,
    max_cell: u32,
    outcomes: Seq<Outcome>,
    i: int,
    j: int,
)
    requires
        0 <= i < j < n,
        member_progress(file, prefixes, n, max_cell, outcomes).entries[i].tip == over_budget(),
    ensures
        !available(member_progress(file, prefixes, n, max_cell, outcomes).entries[j]),
        member_name_of(file, prefixes[j]) is Ok && (member_shape_of(file, prefixes[j]) matches Some(
            Ok(_),
        )) ==> member_progress(file, prefixes, n, max_cell, outcomes).entries[j].tip
            == over_budget(),
{
    reveal(member_step);
    each_member_is_one_entry(file, prefixes, n, max_cell, outcomes);
    member_over_stays(file, prefixes, (i + 1) as nat, j as nat, max_cell, outcomes);
}

/// Do two packs hold the same, with the same tips?
spec fn same_tips(p: DeferredView, q: DeferredView) -> bool {
    &&& q.pack == p.pack
    &&& p.tips.len() == p.pack.brushes.len()
    &&& q.tips.len() == p.tips.len()
    &&& forall|i: int| 0 <= i < p.tips.len() ==> #[trigger] q.tip(i) == p.tip(i)
}

proof fn same_tips_same_progress(
    p: DeferredView,
    q: DeferredView,
    rows: Seq<Row>,
    n: nat,
    max_cell: u32,
    made: Seq<Option<BitmapView>>,
)
    requires
        same_tips(p, q),
        rows_ok(p.pack, rows),
        n <= rows.len(),
    ensures
        progress(p, rows, n, max_cell, made) == progress(q, rows, n, max_cell, made),
    decreases n,
{
    if n > 0 {
        same_tips_same_progress(p, q, rows, (n - 1) as nat, max_cell, made);
        assert(row_ok(p.pack, rows[n - 1]));
        match rows[n - 1].source {
            Source::Sampled(i) => {
                assert(q.tip(i as int) == p.tip(i as int));
            },
            _ => {},
        }
    }
}

proof fn same_tips_same_preview<S: Fn(ComputedGeometry, u32, u32, u32) -> u8>(
    p: DeferredView,
    q: DeferredView,
    set: PreviewSet,
    built: nat,
    max_cell: u32,
    take: Take,
    shade: S,
)
    requires
        same_tips(p, q),
        is_abr_preview(set, built, p, max_cell, take, shade),
    ensures
        is_abr_preview(set, built, q, max_cell, take, shade),
{
    let rows = ordered_rows(p.pack);
    ordered_rows_ok(p.pack);
    let made = choose|made: Seq<Option<BitmapView>>|
        {
            &&& all_made(shade, p, rows, built, max_cell, made)
            &&& built_as_needed(p, rows, built, max_cell, made, take)
            &&& views(set.entries@) == taken(
                (#[trigger] progress(p, rows, built, max_cell, made)).entries,
                take,
            )
        };
    assert forall|n: nat| n <= rows.len() implies #[trigger] progress(q, rows, n, max_cell, made)
        == progress(p, rows, n, max_cell, made) by {
        same_tips_same_progress(p, q, rows, n, max_cell, made);
    }
    assert forall|k: int|
        0 <= k < built && (#[trigger] geometry_of(q.pack, rows[k])) is Some && !progress(
            q,
            rows,
            k as nat,
            max_cell,
            made,
        ).budget.over implies is_made(shade, geometry_of(q.pack, rows[k])->0, made[k]) by {
        assert(progress(q, rows, k as nat, max_cell, made) == progress(
            p,
            rows,
            k as nat,
            max_cell,
            made,
        ));
        assert(geometry_of(p.pack, rows[k]) is Some);
    }
    assert(all_made(shade, q, rows, built, max_cell, made));
    assert(built_as_needed(q, rows, built, max_cell, made, take)) by {
        assert forall|n: nat| n < built implies !enough(
            (#[trigger] progress(q, rows, n, max_cell, made)).entries,
            take,
        ) by {
            assert(progress(q, rows, n, max_cell, made) == progress(p, rows, n, max_cell, made));
        }
    }
    assert(views(set.entries@) == taken(progress(q, rows, built, max_cell, made).entries, take));
}

/// Cutting the `patt` blocks out of a file changes no preview of it: what can come of the
/// one file can come of the other.
pub proof fn cutting_patterns_changes_no_preview<S: Fn(ComputedGeometry, u32, u32, u32) -> u8>(
    d: Seq<u8>,
    set: PreviewSet,
    built: nat,
    max_cell: u32,
    take: Take,
    shade: S,
)
    requires
        d.len() <= usize::MAX,
        abr_plan(d, max_cell) is Ok,
        !is_stream(abr_plan(d, max_cell)->Ok_0.pack.version),
    ensures
        abr_plan(without_patterns(d), max_cell) is Ok,
        is_abr_preview(set, built, abr_plan(d, max_cell)->Ok_0, max_cell, take, shade)
            <==> is_abr_preview(
            set,
            built,
            abr_plan(without_patterns(d), max_cell)->Ok_0,
            max_cell,
            take,
            shade,
        ),
{
    patterns_can_be_cut_out(d);
    parsed_wf(d, TipMode::AllDeferred, PatternMode::Skip);
    let p = abr_plan(d, max_cell)->Ok_0;
    let q = abr_plan(without_patterns(d), max_cell)->Ok_0;
    assert(same_tips(p, q));
    assert(same_tips(q, p)) by {
        assert forall|i: int| 0 <= i < q.tips.len() implies #[trigger] p.tip(i) == q.tip(i) by {
            assert(q.tip(i) == p.tip(i));
        }
    }
    if is_abr_preview(set, built, p, max_cell, take, shade) {
        same_tips_same_preview(p, q, set, built, max_cell, take, shade);
    }
    if is_abr_preview(set, built, q, max_cell, take, shade) {
        same_tips_same_preview(q, p, set, built, max_cell, take, shade);
    }
}

/// Is what this file decodes to up to its bytes alone? It is with a PNG or JPEG file; other
/// formats are up to the decoders that `image` has at the time.
pub open spec fn is_fixed(bytes: Seq<u8>) -> bool {
    image_kind(bytes) == Some(ImageKind::Png) || image_kind(bytes) == Some(ImageKind::Jpeg)
}

/// Are the shapes of these members PNG or JPEG files, as far as there are any?
pub open spec fn shapes_are_fixed(file: Seq<u8>, prefixes: Seq<Seq<char>>) -> bool {
    forall|k: int|
        0 <= k < prefixes.len() ==> (member_shape_of(file, #[trigger] prefixes[k]) matches Some(
            Ok(bytes),
        ) ==> is_fixed(bytes))
}

/// A PNG or JPEG file reads as one thing.
proof fn fixed_reads_as_one_thing(bytes: Seq<u8>, a: Outcome, b: Outcome)
    requires
        is_fixed(bytes),
        outcome_ok(bytes, a),
        outcome_ok(bytes, b),
    ensures
        a == b,
{
    let x = choose|r: Result<GrayscaleBitmap, ShapePngError>|
        {
            &&& #[trigger] shape_result(bytes, r)
            &&& shape_view(r) == a.shape
            &&& r matches Ok(b) ==> b@.wf()
        };
    let y = choose|r: Result<GrayscaleBitmap, ShapePngError>|
        {
            &&& #[trigger] shape_result(bytes, r)
            &&& shape_view(r) == b.shape
            &&& r matches Ok(b) ==> b@.wf()
        };
    let first = choose|decoded: Result<DecodedImage, GuardedDecodeError>|
        guarded(bytes, MAX_PNG_DIMENSION, MAX_ENTRY_BYTES as u64, decoded) && shape_of(decoded, x);
    let second = choose|decoded: Result<DecodedImage, GuardedDecodeError>|
        guarded(bytes, MAX_PNG_DIMENSION, MAX_ENTRY_BYTES as u64, decoded) && shape_of(decoded, y);
    match (first, second) {
        (Ok(v), Ok(w)) => {
            assert(v@ == w@);
            assert(v.bytes@ == v@.bytes && w.bytes@ == w@.bytes);
        },
        (Err(v), Err(w)) => {
            assert(v@ == w@);
        },
        _ => {},
    }
    assert(shape_view(x) == shape_view(y));
}

proof fn fixed_members_progress_alike(
    file: Seq<u8>,
    prefixes: Seq<Seq<char>>,
    n: nat,
    max_cell: u32,
    a: Seq<Outcome>,
    b: Seq<Outcome>,
)
    requires
        n <= prefixes.len(),
        shapes_are_fixed(file, prefixes),
        outcomes_ok(file, prefixes, n, max_cell, a),
        outcomes_ok(file, prefixes, n, max_cell, b),
    ensures
        member_progress(file, prefixes, n, max_cell, a) == member_progress(
            file,
            prefixes,
            n,
            max_cell,
            b,
        ),
    decreases n,
{
    if n > 0 {
        reveal(member_step);
        reveal(member_outcome_ok);
        fixed_members_progress_alike(file, prefixes, (n - 1) as nat, max_cell, a, b);
        let over = member_progress(file, prefixes, (n - 1) as nat, max_cell, a).budget.over;
        let prefix = prefixes[n - 1];
        assert(member_outcome_ok(file, prefix, over, a[n - 1]));
        assert(member_outcome_ok(file, prefix, over, b[n - 1]));
        match member_shape_of(file, prefix) {
            Some(Ok(bytes)) => {
                assert(is_fixed(bytes));
                if !over && member_name_of(file, prefix) is Ok {
                    fixed_reads_as_one_thing(bytes, a[n - 1], b[n - 1]);
                }
            },
            _ => {},
        }
    }
}

/// The limited preview of an archive whose shapes are PNG or JPEG files is the first
/// available entries of the full one.
pub proof fn limited_members_are_the_front_of_all(
    full: Seq<EntryView>,
    limited: Seq<EntryView>,
    built: nat,
    file: Seq<u8>,
    prefixes: Seq<Seq<char>>,
    max_cell: u32,
    n: usize,
)
    requires
        shapes_are_fixed(file, prefixes),
        are_member_entries(full, prefixes.len(), file, prefixes, max_cell, Take::All),
        are_member_entries(limited, built, file, prefixes, max_cell, Take::FirstAvailable(n)),
    ensures
        limited == first_available(full, n as nat),
{
    let take = Take::FirstAvailable(n);
    let a = choose|outcomes: Seq<Outcome>|
        {
            &&& outcomes_ok(file, prefixes, prefixes.len(), max_cell, outcomes)
            &&& read_as_needed(file, prefixes, prefixes.len(), max_cell, outcomes, Take::All)
            &&& full == taken(
                (#[trigger] member_progress(
                    file,
                    prefixes,
                    prefixes.len(),
                    max_cell,
                    outcomes,
                )).entries,
                Take::All,
            )
        };
    let b = choose|outcomes: Seq<Outcome>|
        {
            &&& outcomes_ok(file, prefixes, built, max_cell, outcomes)
            &&& read_as_needed(file, prefixes, built, max_cell, outcomes, take)
            &&& limited == taken(
                (#[trigger] member_progress(file, prefixes, built, max_cell, outcomes)).entries,
                take,
            )
        };
    fixed_members_progress_alike(file, prefixes, built, max_cell, a, b);
    if built < prefixes.len() {
        let more = member_entries_stay(file, prefixes, built, prefixes.len(), max_cell, a);
        enough_is_enough(
            member_progress(file, prefixes, built, max_cell, a).entries,
            more,
            take,
        );
    }
}

/// The limited preview of a brush whose shape is a PNG or JPEG file is the full one where its
/// tip is available and the limit is not 0, and empty otherwise.
pub proof fn a_limited_brush_is_whole_or_nothing(
    full: Seq<EntryView>,
    limited: Seq<EntryView>,
    built: nat,
    file: Seq<u8>,
    max_cell: u32,
    n: usize,
)
    requires
        shapes_are_fixed(file, root_prefixes()),
        are_member_entries(full, 1, file, root_prefixes(), max_cell, Take::All),
        are_member_entries(
            limited,
            built,
            file,
            root_prefixes(),
            max_cell,
            Take::FirstAvailable(n),
        ),
    ensures
        full.len() == 1,
        limited == if n >= 1 && available(full[0]) {
            full
        } else {
            seq![]
        },
{
    assert(root_prefixes().len() == 1);
    limited_members_are_the_front_of_all(
        full,
        limited,
        built,
        file,
        root_prefixes(),
        max_cell,
        n,
    );
    let a = choose|outcomes: Seq<Outcome>|
        {
            &&& outcomes_ok(file, root_prefixes(), 1, max_cell, outcomes)
            &&& read_as_needed(file, root_prefixes(), 1, max_cell, outcomes, Take::All)
            &&& full == taken(
                (#[trigger] member_progress(file, root_prefixes(), 1, max_cell, outcomes)).entries,
                Take::All,
            )
        };
    each_member_is_one_entry(file, root_prefixes(), 1, max_cell, a);
    assert(full.drop_last() =~= seq![]);
    assert(first_available(full.drop_last(), n as nat) =~= seq![]);
    assert(Seq::<EntryView>::empty().push(full[0]) =~= full);
}

} // verus!
