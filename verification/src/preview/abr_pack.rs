//! Previews of Photoshop packs.
//!
//! Every sampled brush, computed preset and unsupported preset of a pack is one entry, in
//! the order of the preset list. Brushes without a preset come last. Entries of the same
//! preset are sampled ones, then computed ones, then unsupported ones.
use vstd::prelude::*;
use crate::abr::deferred::{
    all_deferred_of, decoded_tip_is_sized, parse_abr_all_deferred_without_patterns, place_wf, sized,
    DeferredPack, DeferredView,
};
use crate::abr::types::{
    AbrBrush, AbrPack, ComputedGeometry, ComputedPreset, PackView, TipView,
    UnsupportedTipPresetDetail,
};
use crate::preview::bitmap::{grayscale_of, to_grayscale, BitmapView, GrayscaleBitmap};
use crate::preview::entry::{
    budgeted, check_max_cell, dimensions, enough, is_enough, keep_entry, render_tip,
    taken, tip_kind, tip_kind_text, Budget, EntryView, PreviewEntry,
    PreviewError, PreviewOptions, PreviewSet, ReasonView, SourceDimensions, Take, TipPreview,
    TipState, UnavailableReason,
};
use crate::preview::synth::{
    can_synthesize, is_shaded, shades, synthesizable, synthesize_computed_tip,
};
use crate::support::text::views;

verus! {

/// Where an entry comes from: a place in one of the lists of a pack.
#[derive(Debug, Clone, Copy, PartialEq, Eq, Structural)]
pub enum Source {
    Sampled(usize),
    Computed(usize),
    Unsupported(usize),
}

/// An entry that is still to be made.
#[derive(Debug, Clone, Copy, PartialEq, Eq, Structural)]
pub struct Row {
    /// The place in the preset list, `usize::MAX` where there is none.
    pub key: usize,
    pub source: Source,
}

/// The place in the preset list as a key.
pub open spec fn key_of(index: Option<usize>) -> usize {
    match index {
        Some(i) => i,
        None => usize::MAX,
    }
}

/// The rows of a pack: its brushes, its computed presets and its unsupported ones.
pub open spec fn listed_rows(pack: PackView) -> Seq<Row> {
    let brushes = Seq::new(
        pack.brushes.len(),
        |i: int|
            Row {
                key: key_of(pack.brushes[i].preset_index),
                source: Source::Sampled(i as usize),
            },
    );
    let computed = Seq::new(
        pack.computed_presets.len(),
        |i: int|
            Row {
                key: key_of(pack.computed_presets[i].preset_index),
                source: Source::Computed(i as usize),
            },
    );
    let unsupported = Seq::new(
        pack.unsupported_tips.len(),
        |i: int|
            Row {
                key: pack.unsupported_tips[i].preset_index as usize,
                source: Source::Unsupported(i as usize),
            },
    );
    brushes + computed + unsupported
}

/// Those of the first `n` rows that have this key.
pub open spec fn rows_with_key(rows: Seq<Row>, n: nat, key: nat) -> Seq<Row>
    decreases n,
{
    if n == 0 {
        seq![]
    } else if rows[n - 1].key == key {
        rows_with_key(rows, (n - 1) as nat, key).push(rows[n - 1])
    } else {
        rows_with_key(rows, (n - 1) as nat, key)
    }
}

/// The rows whose key is below `limit`, by key; those of one key in their order.
pub open spec fn rows_below(rows: Seq<Row>, limit: nat) -> Seq<Row>
    decreases limit,
{
    if limit == 0 {
        seq![]
    } else {
        rows_below(rows, (limit - 1) as nat) + rows_with_key(
            rows,
            rows.len(),
            (limit - 1) as nat,
        )
    }
}

/// Those of the first `n` rows whose key is `limit` or above.
pub open spec fn rows_from(rows: Seq<Row>, n: nat, limit: nat) -> Seq<Row>
    decreases n,
{
    if n == 0 {
        seq![]
    } else if rows[n - 1].key >= limit {
        rows_from(rows, (n - 1) as nat, limit).push(rows[n - 1])
    } else {
        rows_from(rows, (n - 1) as nat, limit)
    }
}

/// The rows in the order of the preset list, those without a place in it last.
pub open spec fn ordered_rows(pack: PackView) -> Seq<Row> {
    let rows = listed_rows(pack);
    rows_below(rows, pack.preset_count) + rows_from(rows, rows.len(), pack.preset_count)
}

/// Does the row name a place in a list of the pack?
pub open spec fn row_ok(pack: PackView, row: Row) -> bool {
    match row.source {
        Source::Sampled(i) => i < pack.brushes.len(),
        Source::Computed(i) => i < pack.computed_presets.len(),
        Source::Unsupported(i) => i < pack.unsupported_tips.len(),
    }
}

pub open spec fn rows_ok(pack: PackView, rows: Seq<Row>) -> bool {
    forall|i: int| 0 <= i < rows.len() ==> row_ok(pack, #[trigger] rows[i])
}

fn list_rows(pack: &AbrPack) -> (rows: Vec<Row>)
    ensures
        rows@ == listed_rows(pack@),
        rows_ok(pack@, rows@),
{
    let mut rows: Vec<Row> = Vec::new();
    let mut i: usize = 0;
    while i < pack.brushes.len()
        invariant
            i <= pack.brushes@.len(),
            rows@ == listed_rows(pack@).take(i as int),
            rows_ok(pack@, rows@),
        decreases pack.brushes@.len() - i,
    {
        assert(pack@.brushes[i as int] == pack.brushes@[i as int]@);
        let key: usize = match pack.brushes[i].preset_index {
            Some(k) => k,
            None => usize::MAX,
        };
        rows.push(Row { key, source: Source::Sampled(i) });
        i += 1;
        assert(rows@ =~= listed_rows(pack@).take(i as int));
    }
    let ghost first = pack.brushes@.len();
    let mut j: usize = 0;
    while j < pack.computed_presets.len()
        invariant
            j <= pack.computed_presets@.len(),
            first == pack@.brushes.len(),
            rows@ == listed_rows(pack@).take(first + j),
            rows_ok(pack@, rows@),
        decreases pack.computed_presets@.len() - j,
    {
        assert(pack@.computed_presets[j as int] == pack.computed_presets@[j as int]@);
        let key: usize = match pack.computed_presets[j].preset_index {
            Some(k) => k,
            None => usize::MAX,
        };
        rows.push(Row { key, source: Source::Computed(j) });
        j += 1;
        assert(rows@ =~= listed_rows(pack@).take(first + j));
    }
    let ghost second = first + pack.computed_presets@.len();
    let mut k: usize = 0;
    while k < pack.unsupported_tip_presets.len()
        invariant
            k <= pack.unsupported_tip_presets@.len(),
            second == pack@.brushes.len() + pack@.computed_presets.len(),
            rows@ == listed_rows(pack@).take(second + k),
            rows_ok(pack@, rows@),
        decreases pack.unsupported_tip_presets@.len() - k,
    {
        assert(pack@.unsupported_tips[k as int] == pack.unsupported_tip_presets@[k as int]@);
        rows.push(
            Row {
                key: pack.unsupported_tip_presets[k].preset_index,
                source: Source::Unsupported(k),
            },
        );
        k += 1;
        assert(rows@ =~= listed_rows(pack@).take(second + k));
    }
    assert(rows@ =~= listed_rows(pack@));
    rows
}

/// Each of the first buckets holds the rows with its key among the first `n`.
spec fn buckets_are(buckets: Seq<Vec<Row>>, rows: Seq<Row>, n: nat) -> bool {
    forall|k: int|
        0 <= k < buckets.len() ==> (#[trigger] buckets[k])@ == rows_with_key(rows, n, k as nat)
}

proof fn rows_with_key_ok(pack: PackView, rows: Seq<Row>, n: nat, key: nat)
    requires
        rows_ok(pack, rows),
        n <= rows.len(),
    ensures
        rows_ok(pack, rows_with_key(rows, n, key)),
    decreases n,
{
    if n > 0 {
        rows_with_key_ok(pack, rows, (n - 1) as nat, key);
        assert(row_ok(pack, rows[n - 1]));
    }
}

proof fn rows_from_ok(pack: PackView, rows: Seq<Row>, n: nat, limit: nat)
    requires
        rows_ok(pack, rows),
        n <= rows.len(),
    ensures
        rows_ok(pack, rows_from(rows, n, limit)),
    decreases n,
{
    if n > 0 {
        rows_from_ok(pack, rows, (n - 1) as nat, limit);
        assert(row_ok(pack, rows[n - 1]));
    }
}

proof fn rows_below_ok(pack: PackView, rows: Seq<Row>, limit: nat)
    requires
        rows_ok(pack, rows),
    ensures
        rows_ok(pack, rows_below(rows, limit)),
    decreases limit,
{
    if limit > 0 {
        rows_below_ok(pack, rows, (limit - 1) as nat);
        rows_with_key_ok(pack, rows, rows.len(), (limit - 1) as nat);
    }
}

/// The rows of a pack name places in its lists.
pub proof fn ordered_rows_ok(pack: PackView)
    ensures
        rows_ok(pack, listed_rows(pack)),
        rows_ok(pack, ordered_rows(pack)),
{
    let rows = listed_rows(pack);
    assert forall|i: int| 0 <= i < rows.len() implies row_ok(pack, #[trigger] rows[i]) by {}
    rows_below_ok(pack, rows, pack.preset_count);
    rows_from_ok(pack, rows, rows.len(), pack.preset_count);
}

fn order_rows(pack: &AbrPack) -> (rows: Vec<Row>)
    ensures
        rows@ == ordered_rows(pack@),
        rows_ok(pack@, rows@),
{
    let listed: Vec<Row> = list_rows(pack);
    let limit: usize = pack.preset_count;
    let mut buckets: Vec<Vec<Row>> = Vec::new();
    let mut b: usize = 0;
    while b < limit
        invariant
            b <= limit,
            buckets@.len() == b,
            buckets_are(buckets@, listed@, 0),
        decreases limit - b,
    {
        let bucket: Vec<Row> = Vec::new();
        assert(bucket@ =~= seq![]);
        buckets.push(bucket);
        b += 1;
    }
    let mut rest: Vec<Row> = Vec::new();
    assert(rest@ =~= seq![]);
    let mut i: usize = 0;
    while i < listed.len()
        invariant
            i <= listed@.len(),
            buckets@.len() == limit,
            buckets_are(buckets@, listed@, i as nat),
            rest@ == rows_from(listed@, i as nat, limit as nat),
        decreases listed@.len() - i,
    {
        let row: Row = listed[i];
        let ghost before = buckets@;
        if row.key < limit {
            let bucket: &mut Vec<Row> = &mut buckets[row.key];
            bucket.push(row);
        } else {
            rest.push(row);
        }
        proof {
            assert forall|k: int| 0 <= k < buckets@.len() implies (#[trigger] buckets@[k])@
                == rows_with_key(listed@, (i + 1) as nat, k as nat) by {
                assert(before[k]@ == rows_with_key(listed@, i as nat, k as nat));
            }
        }
        i += 1;
    }
    let mut rows: Vec<Row> = Vec::new();
    assert(rows@ =~= seq![]);
    let mut k: usize = 0;
    while k < limit
        invariant
            k <= limit,
            buckets@.len() == limit,
            buckets_are(buckets@, listed@, listed@.len()),
            rows@ == rows_below(listed@, k as nat),
        decreases limit - k,
    {
        assert(buckets@[k as int]@ == rows_with_key(listed@, listed@.len(), k as nat));
        append_rows(&mut rows, &buckets[k]);
        k += 1;
    }
    append_rows(&mut rows, &rest);
    proof {
        ordered_rows_ok(pack@);
    }
    rows
}

fn append_rows(rows: &mut Vec<Row>, more: &Vec<Row>)
    ensures
        final(rows)@ == old(rows)@ + more@,
{
    let mut i: usize = 0;
    assert(rows@ =~= old(rows)@ + more@.take(0));
    while i < more.len()
        invariant
            i <= more@.len(),
            rows@ == old(rows)@ + more@.take(i as int),
        decreases more@.len() - i,
    {
        rows.push(more[i]);
        i += 1;
        assert(rows@ =~= old(rows)@ + more@.take(i as int));
    }
    assert(more@.take(more@.len() as int) =~= more@);
}

/// The tip that is over the budget.
pub open spec fn over_budget() -> TipState {
    TipState::Unavailable(ReasonView::OverBudget)
}

/// The tip of a preset whose kind is not supported.
pub open spec fn unsupported(kind: Seq<char>) -> TipState {
    TipState::Unavailable(ReasonView::UnsupportedTipKind(kind))
}

/// The geometry that a row's tip is made from, where it is made from one.
pub open spec fn geometry_of(pack: PackView, row: Row) -> Option<ComputedGeometry> {
    match row.source {
        Source::Computed(i) => match pack.computed_presets[i as int].descriptor.computed {
            Some(geom) => if synthesizable(geom) {
                Some(geom)
            } else {
                None
            },
            None => None,
        },
        _ => None,
    }
}

/// The entry of a row and the budget after it. `made` is what a computed tip was rendered
/// to.
pub open spec fn row_entry(
    p: DeferredView,
    index: nat,
    row: Row,
    max_cell: u32,
    budget: Budget,
    made: Option<BitmapView>,
) -> (EntryView, Budget) {
    match row.source {
        Source::Sampled(i) => {
            let brush = p.pack.brushes[i as int];
            let (tip, after) = if budget.over {
                (over_budget(), budget)
            } else {
                match p.tip(i as int) {
                    Ok(tip) => budgeted(budget, grayscale_of(tip), max_cell),
                    Err(e) => (TipState::Unavailable(ReasonView::Corrupt(e.message())), budget),
                }
            };
            (
                EntryView {
                    index,
                    name: if brush.name.len() == 0 {
                        brush.id
                    } else {
                        brush.name
                    },
                    tip,
                    source_dimensions: dimensions(brush.tip.width, brush.tip.height),
                },
                after,
            )
        },
        Source::Computed(i) => {
            let preset = p.pack.computed_presets[i as int];
            let (tip, after) = if geometry_of(p.pack, row) is None {
                (unsupported("computed"@), budget)
            } else if budget.over {
                (over_budget(), budget)
            } else {
                match made {
                    Some(bitmap) => budgeted(budget, bitmap, max_cell),
                    None => (unsupported("computed"@), budget),
                }
            };
            (EntryView { index, name: preset.name, tip, source_dimensions: None }, after)
        },
        Source::Unsupported(i) => {
            let preset = p.pack.unsupported_tips[i as int];
            (
                EntryView {
                    index,
                    name: preset.name,
                    tip: unsupported(tip_kind_text(preset.tip_shape, preset.shape_tip_family)),
                    source_dimensions: None,
                },
                budget,
            )
        },
    }
}

/// The entries of the first rows, and the budget after them.
pub struct Progress {
    pub entries: Seq<EntryView>,
    pub budget: Budget,
}

/// The entries of the first `n` rows. `made` is what each computed tip was rendered to.
pub open spec fn progress(
    p: DeferredView,
    rows: Seq<Row>,
    n: nat,
    max_cell: u32,
    made: Seq<Option<BitmapView>>,
) -> Progress
    decreases n,
{
    if n == 0 {
        Progress { entries: seq![], budget: Budget { held: 0, over: false } }
    } else {
        let before = progress(p, rows, (n - 1) as nat, max_cell, made);
        let (entry, budget) = row_entry(
            p,
            (n - 1) as nat,
            rows[n - 1],
            max_cell,
            before.budget,
            made[n - 1],
        );
        Progress { entries: before.entries.push(entry), budget }
    }
}

/// The model of an optional bitmap.
pub open spec fn bitmap_view(b: Option<GrayscaleBitmap>) -> Option<BitmapView> {
    match b {
        Some(b) => Some(b@),
        None => None,
    }
}

/// Can `made` be what a geometry was rendered to?
pub open spec fn is_made<S: Fn(ComputedGeometry, u32, u32, u32) -> u8>(
    shade: S,
    geom: ComputedGeometry,
    made: Option<BitmapView>,
) -> bool {
    made matches Some(b) && is_shaded(shade, geom, b)
}

/// Can `made` be what the function made of the computed tips of the first `n` rows? It is
/// asked for those that the budget allows.
pub open spec fn all_made<S: Fn(ComputedGeometry, u32, u32, u32) -> u8>(
    shade: S,
    p: DeferredView,
    rows: Seq<Row>,
    n: nat,
    max_cell: u32,
    made: Seq<Option<BitmapView>>,
) -> bool {
    &&& made.len() >= n
    &&& forall|k: int|
        0 <= k < n && (#[trigger] geometry_of(p.pack, rows[k])) is Some && !progress(
            p,
            rows,
            k as nat,
            max_cell,
            made,
        ).budget.over ==> is_made(shade, geometry_of(p.pack, rows[k])->0, made[k])
}

/// Are these the entries that are built: all, or so many that no more are needed, and not
/// one that is not?
pub open spec fn built_as_needed(
    p: DeferredView,
    rows: Seq<Row>,
    built: nat,
    max_cell: u32,
    made: Seq<Option<BitmapView>>,
    take: Take,
) -> bool {
    &&& built <= rows.len()
    &&& built == rows.len() || enough(progress(p, rows, built, max_cell, made).entries, take)
    &&& forall|n: nat|
        n < built ==> !enough((#[trigger] progress(p, rows, n, max_cell, made)).entries, take)
}

fn sampled_entry(
    deferred: &DeferredPack<'_>,
    index: usize,
    i: usize,
    max_cell: u32,
    budget: &mut Budget,
) -> (r: PreviewEntry)
    requires
        deferred@.wf(),
        i < deferred@.pack.brushes.len(),
        old(budget).wf(),
    ensures
        (r@, *final(budget)) == row_entry(
            deferred@,
            index as nat,
            Row { key: 0, source: Source::Sampled(i) },
            max_cell,
            *old(budget),
            None,
        ),
        final(budget).wf(),
{
    let brush: &AbrBrush = &deferred.pack.brushes[i];
    assert(deferred@.pack.brushes[i as int] == brush@);
    let name: String = if brush.name.as_str().is_empty() {
        brush.id.clone()
    } else {
        brush.name.clone()
    };
    let tip: TipPreview = if budget.over {
        TipPreview::Unavailable(UnavailableReason::OverBudget)
    } else {
        match deferred.decode_tip(i) {
            Ok(tip) => {
                proof {
                    brush_tip_is_sized(deferred@, i as int);
                }
                let gray: GrayscaleBitmap = to_grayscale(&tip);
                assert(gray@.wf()) by {
                    gray_is_sized(tip@);
                }
                render_tip(&gray, max_cell, budget)
            },
            Err(e) => TipPreview::Unavailable(UnavailableReason::Corrupt(e.message())),
        }
    };
    PreviewEntry {
        index,
        name,
        tip,
        source_dimensions: SourceDimensions::new(brush.tip.width, brush.tip.height),
    }
}

/// The decoded tip of a brush has as many pixels as its size asks for.
pub proof fn brush_tip_is_sized(p: DeferredView, i: int)
    requires
        p.wf(),
        0 <= i < p.pack.brushes.len(),
    ensures
        p.tip(i) matches Ok(tip) ==> sized(tip) && tip.width == p.pack.brushes[i].tip.width
            && tip.height == p.pack.brushes[i].tip.height,
{
    assert(place_wf(
        p.pack.brushes[i].tip,
        p.tips[i],
        p.bytes.len(),
    ));
    match p.tips[i] {
        Some(t) => {
            decoded_tip_is_sized(p.bytes, t);
        },
        None => {},
    }
}

/// The gray of a tip has one byte per pixel.
pub proof fn gray_is_sized(tip: TipView)
    requires
        sized(tip),
    ensures
        grayscale_of(tip).wf(),
{
    let area = tip.width * tip.height;
    if tip.depth == 16 {
        assert(tip.depth / 8 == 2);
        assert(area * 2 / 2 == area);
    } else {
        assert(tip.depth / 8 == 1);
        assert(area * 1 == area);
    }
}

/// The entry of a row, given what its computed tip was rendered to. A sampled tip is
/// decoded and scaled here, so that only the rows that are asked for are decoded.
pub fn abr_entry(
    deferred: &DeferredPack<'_>,
    index: usize,
    row: Row,
    max_cell: u32,
    budget: &mut Budget,
    made: Option<GrayscaleBitmap>,
) -> (r: PreviewEntry)
    requires
        deferred@.wf(),
        row_ok(deferred@.pack, row),
        old(budget).wf(),
        made matches Some(b) ==> b@.wf(),
    ensures
        (r@, *final(budget)) == row_entry(
            deferred@,
            index as nat,
            row,
            max_cell,
            *old(budget),
            bitmap_view(made),
        ),
        final(budget).wf(),
{
    match row.source {
        Source::Sampled(i) => sampled_entry(deferred, index, i, max_cell, budget),
        Source::Computed(i) => {
            let preset: &ComputedPreset = &deferred.pack.computed_presets[i];
            assert(deferred@.pack.computed_presets[i as int] == preset@);
            let synthesized: bool = match &preset.descriptor.computed {
                Some(geom) => can_synthesize(geom),
                None => false,
            };
            let tip: TipPreview = if !synthesized {
                TipPreview::Unavailable(
                    UnavailableReason::UnsupportedTipKind("computed".to_owned()),
                )
            } else if budget.over {
                TipPreview::Unavailable(UnavailableReason::OverBudget)
            } else {
                match &made {
                    Some(bitmap) => render_tip(bitmap, max_cell, budget),
                    None => TipPreview::Unavailable(
                        UnavailableReason::UnsupportedTipKind("computed".to_owned()),
                    ),
                }
            };
            PreviewEntry { index, name: preset.name.clone(), tip, source_dimensions: None }
        },
        Source::Unsupported(i) => {
            let preset: &UnsupportedTipPresetDetail = &deferred.pack.unsupported_tip_presets[i];
            assert(deferred@.pack.unsupported_tips[i as int] == preset@);
            PreviewEntry {
                index,
                name: preset.name.clone(),
                tip: TipPreview::Unavailable(
                    UnavailableReason::UnsupportedTipKind(
                        tip_kind(preset.tip_shape, preset.shape_tip_family),
                    ),
                ),
                source_dimensions: None,
            }
        },
    }
}

/// The geometry that a row's tip is made from, where it is made from one.
fn row_geometry(pack: &AbrPack, row: Row) -> (r: Option<ComputedGeometry>)
    requires
        row_ok(pack@, row),
    ensures
        r == geometry_of(pack@, row),
{
    match row.source {
        Source::Computed(i) => {
            assert(pack@.computed_presets[i as int] == pack.computed_presets@[i as int]@);
            match pack.computed_presets[i].descriptor.computed {
                Some(geom) => {
                    if can_synthesize(&geom) {
                        Some(geom)
                    } else {
                        None
                    }
                },
                None => None,
            }
        },
        _ => None,
    }
}

proof fn progress_agrees(
    p: DeferredView,
    rows: Seq<Row>,
    n: nat,
    max_cell: u32,
    a: Seq<Option<BitmapView>>,
    b: Seq<Option<BitmapView>>,
)
    requires
        n <= a.len(),
        n <= b.len(),
        forall|i: int| 0 <= i < n ==> a[i] == b[i],
    ensures
        progress(p, rows, n, max_cell, a) == progress(p, rows, n, max_cell, b),
    decreases n,
{
    if n > 0 {
        progress_agrees(p, rows, (n - 1) as nat, max_cell, a, b);
        assert(a[n - 1] == b[n - 1]);
    }
}

/// One more computed tip: what held of the rows before still does.
proof fn made_grows<S: Fn(ComputedGeometry, u32, u32, u32) -> u8>(
    shade: S,
    p: DeferredView,
    rows: Seq<Row>,
    n: nat,
    max_cell: u32,
    made: Seq<Option<BitmapView>>,
    more: Option<BitmapView>,
)
    requires
        made.len() == n,
        all_made(shade, p, rows, n, max_cell, made),
        geometry_of(p.pack, rows[n as int]) is Some && !progress(
            p,
            rows,
            n,
            max_cell,
            made,
        ).budget.over ==> is_made(shade, geometry_of(p.pack, rows[n as int])->0, more),
    ensures
        all_made(shade, p, rows, n + 1, max_cell, made.push(more)),
        forall|m: nat|
            m <= n ==> #[trigger] progress(p, rows, m, max_cell, made.push(more)) == progress(
                p,
                rows,
                m,
                max_cell,
                made,
            ),
{
    let all = made.push(more);
    assert forall|m: nat| m <= n implies #[trigger] progress(p, rows, m, max_cell, all) == progress(
        p,
        rows,
        m,
        max_cell,
        made,
    ) by {
        progress_agrees(p, rows, m, max_cell, all, made);
    }
    assert forall|k: int|
        0 <= k < n + 1 && (#[trigger] geometry_of(p.pack, rows[k])) is Some && !progress(
            p,
            rows,
            k as nat,
            max_cell,
            all,
        ).budget.over implies is_made(shade, geometry_of(p.pack, rows[k])->0, all[k]) by {
        assert(progress(p, rows, k as nat, max_cell, all) == progress(
            p,
            rows,
            k as nat,
            max_cell,
            made,
        ));
        if k < n {
            assert(all[k] == made[k]);
        } else {
            assert(all[k] == more);
        }
    }
}

/// The pack whose entries a preview shows, or why there is no preview.
pub open spec fn abr_plan(bytes: Seq<u8>, max_cell: u32) -> Result<DeferredView, Seq<char>> {
    if max_cell == 0 {
        Err("max_cell must be at least 1"@)
    } else {
        match all_deferred_of(bytes) {
            Ok(p) => Ok(p),
            Err(e) => Err(e.message()),
        }
    }
}

/// Can this be the preview of a pack, with so many entries built?
pub open spec fn is_abr_preview<S: Fn(ComputedGeometry, u32, u32, u32) -> u8>(
    set: PreviewSet,
    built: nat,
    p: DeferredView,
    max_cell: u32,
    take: Take,
    shade: S,
) -> bool {
    let rows = ordered_rows(p.pack);
    &&& set.set_name is None
    &&& exists|made: Seq<Option<BitmapView>>|
        {
            &&& all_made(shade, p, rows, built, max_cell, made)
            &&& built_as_needed(p, rows, built, max_cell, made, take)
            &&& views(set.entries@) == taken(
                (#[trigger] progress(p, rows, built, max_cell, made)).entries,
                take,
            )
        }
}

/// The entries of a pack that `take` asks for, and how many were built for them. `shade`
/// gives the gray of a pixel of a computed tip.
pub fn abr<S: Fn(ComputedGeometry, u32, u32, u32) -> u8>(
    bytes: &[u8],
    opts: PreviewOptions,
    take: Take,
    shade: &S,
) -> (r: Result<(PreviewSet, usize), PreviewError>)
    requires
        shades(*shade),
    ensures
        match abr_plan(bytes@, opts.max_cell) {
            Ok(p) => r matches Ok(v) && is_abr_preview(
                v.0,
                v.1 as nat,
                p,
                opts.max_cell,
                take,
                *shade,
            ),
            Err(e) => r matches Err(m) && m.0@ == e,
        },
{
    let max_cell: u32 = check_max_cell(opts)?;
    let deferred: DeferredPack<'_> = match parse_abr_all_deferred_without_patterns(bytes) {
        Ok(deferred) => deferred,
        Err(e) => {
            return Err(PreviewError(e.message()));
        },
    };
    let rows: Vec<Row> = order_rows(&deferred.pack);
    let ghost p = deferred@;
    let ghost mut made: Seq<Option<BitmapView>> = seq![];
    let mut budget: Budget = Budget { held: 0, over: false };
    let mut entries: Vec<PreviewEntry> = Vec::new();
    assert(views(entries@) =~= seq![]);
    let mut i: usize = 0;
    while i < rows.len() && !is_enough(
        &entries,
        take,
        Ghost(progress(p, rows@, i as nat, max_cell, made).entries),
    )
        invariant
            i <= rows@.len(),
            shades(*shade),
            p == deferred@,
            p.wf(),
            rows@ == ordered_rows(p.pack),
            rows_ok(p.pack, rows@),
            made.len() == i,
            budget.wf(),
            all_made(*shade, p, rows@, i as nat, max_cell, made),
            budget == progress(p, rows@, i as nat, max_cell, made).budget,
            views(entries@) == taken(progress(p, rows@, i as nat, max_cell, made).entries, take),
            forall|n: nat|
                n < i ==> !enough(
                    (#[trigger] progress(p, rows@, n, max_cell, made)).entries,
                    take,
                ),
        decreases rows@.len() - i,
    {
        let row: Row = rows[i];
        assert(row_ok(p.pack, rows@[i as int]));
        let bitmap: Option<GrayscaleBitmap> = match row_geometry(&deferred.pack, row) {
            Some(geom) => {
                if budget.over {
                    None
                } else {
                    synthesize_computed_tip(&geom, shade)
                }
            },
            None => None,
        };
        let ghost now = progress(p, rows@, i as nat, max_cell, made);
        let ghost more = bitmap_view(bitmap);
        proof {
            made_grows(*shade, p, rows@, i as nat, max_cell, made, more);
        }
        let entry: PreviewEntry = abr_entry(&deferred, i, row, max_cell, &mut budget, bitmap);
        proof {
            made = made.push(more);
            assert(progress(p, rows@, i as nat, max_cell, made) == now);
            assert(made[i as int] == more);
            assert(progress(p, rows@, (i + 1) as nat, max_cell, made).entries
                == now.entries.push(entry@));
        }
        keep_entry(&mut entries, entry, take, Ghost(now.entries));
        i += 1;
    }
    let set: PreviewSet = PreviewSet { set_name: None, entries };
    assert(is_abr_preview(set, i as nat, p, max_cell, take, *shade)) by {
        assert(views(set.entries@) == taken(
            progress(p, rows@, i as nat, max_cell, made).entries,
            take,
        ));
    }
    Ok((set, i))
}

/// The tips of a pack: one entry for each brush and each preset without one, in order.
///
/// Sampled tips are decoded one at a time and scaled at once. A sampled tip that cannot be
/// decoded is a corrupt entry; only raw pixels of an entry stream that run past the end of
/// the file fail the whole preview. `shade` gives the gray of a pixel of a computed tip.
pub fn preview_abr<S: Fn(ComputedGeometry, u32, u32, u32) -> u8>(
    bytes: &[u8],
    opts: PreviewOptions,
    shade: &S,
) -> (r: Result<PreviewSet, PreviewError>)
    requires
        shades(*shade),
    ensures
        match abr_plan(bytes@, opts.max_cell) {
            Ok(p) => r matches Ok(set) && is_abr_preview(
                set,
                ordered_rows(p.pack).len(),
                p,
                opts.max_cell,
                Take::All,
                *shade,
            ),
            Err(e) => r matches Err(m) && m.0@ == e,
        },
{
    let (set, _built) = abr(bytes, opts, Take::All, shade)?;
    Ok(set)
}

/// The first `n` entries of [`preview_abr`] whose tip is available, with the indices that
/// they have there. No entry after them is built.
pub fn preview_abr_first_available<S: Fn(ComputedGeometry, u32, u32, u32) -> u8>(
    bytes: &[u8],
    opts: PreviewOptions,
    n: usize,
    shade: &S,
) -> (r: Result<PreviewSet, PreviewError>)
    requires
        shades(*shade),
    ensures
        match abr_plan(bytes@, opts.max_cell) {
            Ok(p) => r matches Ok(set) && exists|built: nat|
                is_abr_preview(
                    set,
                    built,
                    p,
                    opts.max_cell,
                    Take::FirstAvailable(n),
                    *shade,
                ),
            Err(e) => r matches Err(m) && m.0@ == e,
        },
{
    let (set, built) = abr(bytes, opts, Take::FirstAvailable(n), shade)?;
    proof {
        let p = abr_plan(bytes@, opts.max_cell)->Ok_0;
        assert(is_abr_preview(
            set,
            built as nat,
            p,
            opts.max_cell,
            Take::FirstAvailable(n),
            *shade,
        ));
    }
    Ok(set)
}

} // verus!
