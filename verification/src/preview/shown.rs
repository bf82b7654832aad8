//! What the entries of a preview show of the brushes of a file.
use vstd::arithmetic::power2::pow2;
use vstd::prelude::*;
use crate::abr::deferred::DeferredView;
use crate::preview::abr_pack::{progress, row_entry, Row, Source};
use crate::preview::archive::{EventView, PlistView};
use crate::preview::bitmap::{downsampled, BitmapView};
use crate::preview::entry::{
    Budget, EntryView, ReasonView, TipState, MAX_PREVIEW_BYTES,
};
use crate::preview::members::{member_entry_of, without_slashes, Outcome, ShapeView};
use crate::preview::placement::in_proportion;
use crate::preview::procreate::{
    brush_name_of, brushset_of, first_fault, first_non_text, member_of, PlistFault, MAX_PLIST_DEPTH,
};
use crate::preview::synth::canvas_side;
use crate::support::double::{scaled, scaled_is_near, Double, DIGITS};

verus! {

/// The bytes of the tips that are shown.
pub open spec fn shown_bytes(entries: Seq<EntryView>) -> nat
    decreases entries.len(),
{
    if entries.len() == 0 {
        0
    } else {
        shown_bytes(entries.drop_last()) + match entries.last().tip {
            TipState::Available(b) => b.data.len(),
            TipState::Unavailable(_) => 0,
        }
    }
}

/// The tips of a preview hold no more bytes than a preview may, and what is held is what the
/// entries show.
pub proof fn the_budget_counts_what_is_shown(
    p: DeferredView,
    rows: Seq<Row>,
    n: nat,
    max_cell: u32,
    made: Seq<Option<BitmapView>>,
)
    ensures
        ({
            let after = progress(p, rows, n, max_cell, made);
            &&& shown_bytes(after.entries) == after.budget.held
            &&& shown_bytes(after.entries) <= MAX_PREVIEW_BYTES
        }),
    decreases n,
{
    if n > 0 {
        the_budget_counts_what_is_shown(p, rows, (n - 1) as nat, max_cell, made);
        let before = progress(p, rows, (n - 1) as nat, max_cell, made);
        let after = progress(p, rows, n, max_cell, made);
        assert(after.entries.drop_last() =~= before.entries);
    }
}

/// The entry of a brush has the brush's name, or its id where it has no name, and the size of
/// its tip where that is not empty.
pub proof fn a_brush_is_shown_under_its_name(
    p: DeferredView,
    index: nat,
    key: usize,
    i: usize,
    max_cell: u32,
    budget: Budget,
    made: Option<BitmapView>,
)
    ensures
        ({
            let brush = p.pack.brushes[i as int];
            let row = Row { key, source: Source::Sampled(i) };
            let entry = row_entry(p, index, row, max_cell, budget, made).0;
            &&& entry.index == index
            &&& brush.name != Seq::<char>::empty() ==> entry.name == brush.name
            &&& brush.name == Seq::<char>::empty() ==> entry.name == brush.id
            &&& entry.source_dimensions is Some <==> brush.tip.width * brush.tip.height != 0
            &&& entry.source_dimensions matches Some((w, h)) ==> w == brush.tip.width && h
                == brush.tip.height
        }),
{
    let brush = p.pack.brushes[i as int];
    if brush.name.len() == 0 {
        assert(brush.name =~= Seq::<char>::empty());
    }
    let w = brush.tip.width;
    let h = brush.tip.height;
    assert(w * h != 0 <==> w > 0 && h > 0) by (nonlinear_arith)
        requires
            w >= 0,
            h >= 0,
    ;
}

/// The entry of a preset without a bitmap has its name and no size. A tip that cannot be made is
/// said to be unsupported.
pub proof fn a_preset_without_a_bitmap_is_shown(
    p: DeferredView,
    index: nat,
    row: Row,
    max_cell: u32,
    budget: Budget,
    made: Option<BitmapView>,
)
    ensures
        ({
            let (entry, after) = row_entry(p, index, row, max_cell, budget, made);
            match row.source {
                Source::Sampled(_) => true,
                Source::Computed(i) => {
                    let preset = p.pack.computed_presets[i as int];
                    &&& entry.name == preset.name
                    &&& entry.source_dimensions is None
                    &&& preset.descriptor.computed is None || made is None && !budget.over
                        ==> entry.tip == TipState::Unavailable(
                        ReasonView::UnsupportedTipKind("computed"@),
                    )
                },
                Source::Unsupported(i) => {
                    &&& entry.name == p.pack.unsupported_tips[i as int].name
                    &&& entry.source_dimensions is None
                    &&& entry.tip is Unavailable
                    &&& entry.tip->Unavailable_0 is UnsupportedTipKind
                    &&& after == budget
                },
            }
        }),
{
}

/// The entry of a member has the name in its archive, or that of its directory; the root is
/// called `Brush`.
pub proof fn a_member_is_shown_under_its_name(
    index: nat,
    dir: Seq<char>,
    name: Result<Option<Seq<char>>, Seq<char>>,
    shape: Option<Result<Seq<u8>, Seq<char>>>,
    o: Outcome,
    max_cell: u32,
    budget: Budget,
)
    requires
        dir.len() > 0,
        dir.last() != '/',
    ensures
        ({
            let prefix = dir + "/"@;
            let entry = member_entry_of(index, prefix, name, shape, o, max_cell, budget).0;
            &&& entry.index == index
            &&& name matches Ok(Some(said)) ==> entry.name == said
            &&& !(name matches Ok(Some(_))) ==> entry.name == dir
        }),
        ({
            let root = Seq::<char>::empty();
            let entry = member_entry_of(index, root, name, shape, o, max_cell, budget).0;
            &&& name matches Ok(Some(said)) ==> entry.name == said
            &&& !(name matches Ok(Some(_))) ==> entry.name == "Brush"@
        }),
{
    reveal_strlit("/");
    let prefix = dir + "/"@;
    assert(prefix.drop_last() =~= dir);
    reveal_with_fuel(without_slashes, 3);
}

/// The tip of a member is there only where its archive and its shape can be read and it is not
/// empty. What cannot be read is the reason that is given.
pub proof fn a_member_shows_its_shape(
    index: nat,
    prefix: Seq<char>,
    name: Result<Option<Seq<char>>, Seq<char>>,
    shape: Option<Result<Seq<u8>, Seq<char>>>,
    o: Outcome,
    max_cell: u32,
    budget: Budget,
)
    requires
        budget.held == 0,
        !budget.over,
    ensures
        ({
            let entry = member_entry_of(index, prefix, name, shape, o, max_cell, budget).0;
            &&& name matches Err(e) ==> entry.tip == TipState::Unavailable(ReasonView::Corrupt(e))
            &&& name is Ok && shape is None ==> entry.tip == TipState::Unavailable(
                ReasonView::NoShapePng,
            )
            &&& name is Ok && shape == Some(Err::<Seq<u8>, Seq<char>>(shape->0->Err_0))
                ==> entry.tip == TipState::Unavailable(ReasonView::Corrupt(shape->0->Err_0))
            &&& name is Ok && shape is Some && shape->0 is Ok ==> match o.shape {
                ShapeView::Tip(b) => b.width > 0 && b.height > 0 && downsampled(
                    b,
                    max_cell,
                ).data.len() <= MAX_PREVIEW_BYTES ==> entry.tip == TipState::Available(
                    downsampled(b, max_cell),
                ),
                ShapeView::TooLarge { width, height } => entry.tip == TipState::Unavailable(
                    ReasonView::TooLarge { width, height },
                ),
                ShapeView::Corrupt(e) => entry.tip == TipState::Unavailable(
                    ReasonView::Corrupt(e),
                ),
            }
            &&& entry.source_dimensions is Some ==> entry.source_dimensions == o.header
        }),
{
}

/// A bitmap that is too large for a cell is scaled in proportion: its longer side becomes the
/// cell's, and the other follows.
pub proof fn a_scaled_tip_keeps_its_proportions(b: BitmapView, max_cell: u32)
    requires
        max_cell > 0,
        b.width > max_cell || b.height > max_cell,
    ensures
        ({
            let r = downsampled(b, max_cell);
            let longer = if b.width > b.height {
                b.width as nat
            } else {
                b.height as nat
            };
            &&& in_proportion(r.width as nat, b.width as nat, max_cell as nat, longer)
            &&& in_proportion(r.height as nat, b.height as nat, max_cell as nat, longer)
        }),
{
    let longer = if b.width > b.height {
        b.width as nat
    } else {
        b.height as nat
    };
    a_side_follows(b.width as nat, max_cell as nat, longer);
    a_side_follows(b.height as nat, max_cell as nat, longer);
}

proof fn a_side_follows(x: nat, n: nat, d: nat)
    requires
        0 < n < d <= u32::MAX,
        x <= d,
    ensures
        ({
            let r = scaled(x, n, d);
            let side = if r > 1 {
                r
            } else {
                1
            };
            side <= u32::MAX && in_proportion(side, x, n, d)
        }),
{
    scaled_is_near(x, n, d);
    let r = scaled(x, n, d);
    assert(r <= n) by (nonlinear_arith)
        requires
            0x4_0000 * (2 * (d * r) - 2 * (x * n) - d) <= d,
            x <= d,
            d > 0,
    ;
    if r == 0 {
        assert(d * 0 == 0 && d * 1 == d);
    }
}

proof fn all_are_texts(values: Seq<PlistView>, n: nat)
    requires
        n <= values.len(),
        forall|i: int| 0 <= i < n ==> #[trigger] values[i] is Text,
    ensures
        first_non_text(values, n) is None,
    decreases n,
{
    if n > 0 {
        all_are_texts(values, (n - 1) as nat);
    }
}

/// A set lists the texts under `brushes` in their order, and is called what stands under `name`
/// where that is a text.
pub proof fn a_set_lists_its_members(
    dict: Map<Seq<char>, PlistView>,
    name: Seq<char>,
    members: Seq<Seq<char>>,
)
    requires
        dict.contains_key("brushes"@),
        dict["brushes"@] == PlistView::Array(
            Seq::new(members.len(), |i: int| PlistView::Text(members[i])),
        ),
    ensures
        ({
            let set = brushset_of(PlistView::Dictionary(dict));
            &&& set is Ok
            &&& set->Ok_0.1 == members
            &&& dict.contains_key("name"@) && dict["name"@] == PlistView::Text(name)
                ==> set->Ok_0.0 == Some(name)
            &&& !dict.contains_key("name"@) || !(dict["name"@] is Text) ==> set->Ok_0.0 is None
        }),
{
    let values = Seq::new(members.len(), |i: int| PlistView::Text(members[i]));
    all_are_texts(values, values.len());
    assert(Seq::new(values.len(), |i: int| values[i]->Text_0) =~= members);
}

/// A set that lists anything but texts is refused.
pub proof fn a_set_lists_texts_alone(
    dict: Map<Seq<char>, PlistView>,
    values: Seq<PlistView>,
    i: int,
)
    requires
        dict.contains_key("brushes"@),
        dict["brushes"@] == PlistView::Array(values),
        0 <= i < values.len(),
        !(values[i] is Text),
    ensures
        brushset_of(PlistView::Dictionary(dict)) is Err,
{
    a_non_text_is_found(values, values.len(), i);
}

proof fn a_non_text_is_found(values: Seq<PlistView>, n: nat, i: int)
    requires
        0 <= i < n <= values.len(),
        !(values[i] is Text),
    ensures
        first_non_text(values, n) is Some,
    decreases n,
{
    if i < n - 1 {
        a_non_text_is_found(values, (n - 1) as nat, i);
    }
}

/// The name of a brush is the object that the settings refer to, unless that is `$null`.
pub proof fn a_brush_name_is_referred_to(
    root: Map<Seq<char>, PlistView>,
    objects: Seq<PlistView>,
    settings: Map<Seq<char>, PlistView>,
    at: u64,
    name: Seq<char>,
)
    requires
        root.contains_key("$objects"@),
        root["$objects"@] == PlistView::Array(objects),
        objects.len() > 1,
        objects[1] == PlistView::Dictionary(settings),
        settings.contains_key("name"@),
        settings["name"@] == PlistView::Uid(at),
        at < objects.len(),
        objects[at as int] == PlistView::Text(name),
    ensures
        brush_name_of(PlistView::Dictionary(root)) is Ok,
        name != "$null"@ ==> brush_name_of(PlistView::Dictionary(root))->Ok_0 == Some(name),
        name == "$null"@ ==> brush_name_of(PlistView::Dictionary(root))->Ok_0 is None,
{
}

/// A directory of an archive is a member if and only if it lies at the top and holds an entry
/// `Brush.archive`.
pub proof fn a_member_holds_an_archive(name: Seq<char>, dir: Seq<char>)
    ensures
        member_of(name) == Some(dir) <==> name == dir + "/Brush.archive"@ && dir.len() > 0
            && !dir.contains('/'),
{
    let suffix = "/Brush.archive"@;
    let n = name.len() - suffix.len();
    if n > 0 {
        assert(name =~= name.take(n) + name.skip(n));
    }
    if name == dir + suffix {
        assert(name.take(dir.len() as int) =~= dir);
        assert(name.skip(dir.len() as int) =~= suffix);
    }
}

proof fn starts_nest(events: Seq<EventView>, depth: nat)
    requires
        forall|i: int| 0 <= i < events.len() ==> #[trigger] events[i] is Start,
        depth <= MAX_PLIST_DEPTH,
    ensures
        depth + events.len() > MAX_PLIST_DEPTH ==> first_fault(events, depth) == Some(
            PlistFault::TooDeep,
        ),
        depth + events.len() <= MAX_PLIST_DEPTH ==> first_fault(events, depth) is None,
    decreases events.len(),
{
    if events.len() > 0 && depth < MAX_PLIST_DEPTH {
        starts_nest(events.drop_first(), depth + 1);
    }
}

/// A property list may nest 64 deep and no deeper.
pub proof fn lists_nest_so_deep(events: Seq<EventView>)
    requires
        forall|i: int| 0 <= i < events.len() ==> #[trigger] events[i] is Start,
    ensures
        events.len() <= 64 <==> first_fault(events, 0) is None,
        events.len() > 64 ==> first_fault(events, 0) == Some(PlistFault::TooDeep),
{
    starts_nest(events, 0);
}

/// A group that has ended does not count for how deep those behind it nest.
pub proof fn groups_side_by_side_do_not_nest(events: Seq<EventView>, depth: nat)
    requires
        depth < MAX_PLIST_DEPTH,
    ensures
        first_fault(seq![EventView::Start, EventView::End] + events, depth) == first_fault(
            events,
            depth,
        ),
        first_fault(seq![EventView::Leaf] + events, depth) == first_fault(events, depth),
{
    let both = seq![EventView::Start, EventView::End] + events;
    assert(both.drop_first().drop_first() =~= events);
    assert(both.drop_first()[0] == EventView::End);
    assert((seq![EventView::Leaf] + events).drop_first() =~= events);
    reveal_with_fuel(first_fault, 3);
}

/// The canvas of a computed tip is the diameter in whole pixels, none of them cut off, with a
/// pixel on each side. The diameter has `e` for its exponent and `f` for its fraction.
pub proof fn a_canvas_holds_the_diameter(diameter: Double, e: nat, f: nat)
    requires
        f < DIGITS,
        e < 12,
        diameter.bits == (1023 + e) * DIGITS + f,
    ensures
        (canvas_side(diameter) - 3) * DIGITS < (DIGITS + f) * pow2(e) <= (canvas_side(diameter) - 2)
            * DIGITS,
{
    let d = DIGITS as int;
    let bits = diameter.bits as int;
    assert(bits / d == 1023 + e && bits % d == f) by (nonlinear_arith)
        requires
            bits == (1023 + e) * d + f,
            0 <= f < d,
    ;
    let u = (DIGITS + f) * pow2(e);
    let side = canvas_side(diameter) - 2;
    assert(u >= 0) by (nonlinear_arith)
        requires
            u == (DIGITS + f) * pow2(e),
            DIGITS + f >= 0,
            pow2(e) >= 0,
    ;
    assert(side == (u + d - 1) / d);
    assert((side - 1) * d < u <= side * d) by (nonlinear_arith)
        requires
            side == (u + d - 1) / d,
            d > 0,
    ;
}

} // verus!
