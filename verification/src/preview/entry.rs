//! Preview entries, and the memory that the tips of one preview may hold.
use vstd::prelude::*;
use crate::abr::types::{ShapeTipFamily, TipShape};
use crate::preview::bitmap::{downsample, downsampled, BitmapView, GrayscaleBitmap};
use crate::support::text::views;

verus! {

/// The most bytes that the available tips of one preview hold.
pub const MAX_PREVIEW_BYTES: usize = 256 * 1024 * 1024;

/// How a preview is made.
#[derive(Debug, Clone, Copy, PartialEq, Eq, Structural)]
pub struct PreviewOptions {
    /// The longest side of a tip, at least 1.
    pub max_cell: u32,
}

/// The dimensions that a file declares for a tip, whatever the size of its preview.
#[derive(Debug, Clone, Copy, PartialEq, Eq)]
pub struct SourceDimensions {
    width: u32,
    height: u32,
}

impl View for SourceDimensions {
    type V = (u32, u32);

    closed spec fn view(&self) -> (u32, u32) {
        (self.width, self.height)
    }
}

/// The dimensions, where neither is 0.
pub open spec fn dimensions(width: u32, height: u32) -> Option<(u32, u32)> {
    if width > 0 && height > 0 {
        Some((width, height))
    } else {
        None
    }
}

/// The model of optional dimensions.
pub open spec fn dimensions_view(d: Option<SourceDimensions>) -> Option<(u32, u32)> {
    match d {
        Some(d) => Some(d@),
        None => None,
    }
}

impl SourceDimensions {
    #[verifier::type_invariant]
    spec fn nonzero(self) -> bool {
        self.width > 0 && self.height > 0
    }

    /// The dimensions, where neither is 0.
    pub fn new(width: u32, height: u32) -> (r: Option<SourceDimensions>)
        ensures
            dimensions_view(r) == dimensions(width, height),
    {
        if width > 0 && height > 0 {
            Some(SourceDimensions { width, height })
        } else {
            None
        }
    }

    pub fn width(self) -> (r: u32)
        ensures
            r == self@.0,
            r > 0,
    {
        proof {
            use_type_invariant(self);
        }
        self.width
    }

    pub fn height(self) -> (r: u32)
        ensures
            r == self@.1,
            r > 0,
    {
        proof {
            use_type_invariant(self);
        }
        self.height
    }
}

/// Why a brush has no tip in a preview.
#[derive(Debug, Clone, PartialEq, Eq)]
pub enum UnavailableReason {
    NoShapePng,
    UnsupportedTipKind(String),
    Corrupt(String),
    /// A side or the memory to decode is over a limit.
    TooLarge { width: u32, height: u32 },
    /// The tips before it hold all the bytes that a preview may.
    OverBudget,
}

/// The model of an [`UnavailableReason`].
pub enum ReasonView {
    NoShapePng,
    UnsupportedTipKind(Seq<char>),
    Corrupt(Seq<char>),
    TooLarge { width: u32, height: u32 },
    OverBudget,
}

impl View for UnavailableReason {
    type V = ReasonView;

    open spec fn view(&self) -> ReasonView {
        match *self {
            UnavailableReason::NoShapePng => ReasonView::NoShapePng,
            UnavailableReason::UnsupportedTipKind(kind) => ReasonView::UnsupportedTipKind(kind@),
            UnavailableReason::Corrupt(reason) => ReasonView::Corrupt(reason@),
            UnavailableReason::TooLarge { width, height } => ReasonView::TooLarge {
                width,
                height,
            },
            UnavailableReason::OverBudget => ReasonView::OverBudget,
        }
    }
}

/// The tip of a brush, or why there is none.
#[derive(Debug, Clone)]
pub enum TipPreview {
    /// A bitmap whose sides are not 0.
    Available(GrayscaleBitmap),
    Unavailable(UnavailableReason),
}

/// The model of a [`TipPreview`].
pub enum TipState {
    Available(BitmapView),
    Unavailable(ReasonView),
}

impl View for TipPreview {
    type V = TipState;

    open spec fn view(&self) -> TipState {
        match *self {
            TipPreview::Available(bitmap) => TipState::Available(bitmap@),
            TipPreview::Unavailable(reason) => TipState::Unavailable(reason@),
        }
    }
}

/// One brush of a preview.
#[derive(Debug, Clone)]
pub struct PreviewEntry {
    /// The brush's place in the file.
    pub index: usize,
    pub name: String,
    pub tip: TipPreview,
    /// The dimensions of the tip in the file, where it has any.
    pub source_dimensions: Option<SourceDimensions>,
}

/// The model of a [`PreviewEntry`].
pub struct EntryView {
    pub index: nat,
    pub name: Seq<char>,
    pub tip: TipState,
    pub source_dimensions: Option<(u32, u32)>,
}

impl View for PreviewEntry {
    type V = EntryView;

    open spec fn view(&self) -> EntryView {
        EntryView {
            index: self.index as nat,
            name: self.name@,
            tip: self.tip@,
            source_dimensions: dimensions_view(self.source_dimensions),
        }
    }
}

/// The brushes of a file.
#[derive(Debug, Clone)]
pub struct PreviewSet {
    pub set_name: Option<String>,
    pub entries: Vec<PreviewEntry>,
}

/// Why there is no preview of a file.
#[derive(Debug)]
pub struct PreviewError(pub String);

impl PreviewError {
    /// The error in words.
    pub fn message(&self) -> (r: String)
        ensures
            r@ == self.0@,
    {
        self.0.clone()
    }
}

/// The bytes that the tips of a preview hold so far, and whether one was too many.
#[derive(Debug, Clone, Copy, PartialEq, Eq, Structural)]
pub struct Budget {
    pub held: usize,
    pub over: bool,
}

impl Budget {
    /// What is held is within the limit.
    pub open spec fn wf(self) -> bool {
        self.held <= MAX_PREVIEW_BYTES
    }
}

/// A tip as it stands in a preview: scaled, or unavailable where it has no pixels.
pub open spec fn scaled_tip(bitmap: BitmapView, max_cell: u32) -> TipState {
    if bitmap.width == 0 || bitmap.height == 0 {
        TipState::Unavailable(ReasonView::Corrupt("tip has zero area"@))
    } else {
        TipState::Available(downsampled(bitmap, max_cell))
    }
}

/// A tip as the budget lets it stand, and the budget after it. The first tip that does not
/// fit is over it, and it stays so.
pub open spec fn charged(budget: Budget, tip: TipState) -> (TipState, Budget) {
    match tip {
        TipState::Available(bitmap) => if budget.held + bitmap.data.len() > MAX_PREVIEW_BYTES {
            (TipState::Unavailable(ReasonView::OverBudget), Budget { over: true, ..budget })
        } else {
            (
                tip,
                Budget { held: (budget.held + bitmap.data.len()) as usize, ..budget },
            )
        },
        TipState::Unavailable(_) => (tip, budget),
    }
}

/// A bitmap as it stands in a preview under a budget.
pub open spec fn budgeted(budget: Budget, bitmap: BitmapView, max_cell: u32) -> (
    TipState,
    Budget,
) {
    charged(budget, scaled_tip(bitmap, max_cell))
}

/// A bitmap as it stands in a preview under a budget.
pub fn render_tip(bitmap: &GrayscaleBitmap, max_cell: u32, budget: &mut Budget) -> (r: TipPreview)
    requires
        bitmap@.wf(),
        old(budget).wf(),
    ensures
        (r@, *final(budget)) == budgeted(*old(budget), bitmap@, max_cell),
        final(budget).wf(),
{
    if bitmap.width == 0 || bitmap.height == 0 {
        return TipPreview::Unavailable(
            UnavailableReason::Corrupt("tip has zero area".to_owned()),
        );
    }
    let small: GrayscaleBitmap = downsample(bitmap, max_cell);
    if small.data.len() > MAX_PREVIEW_BYTES - budget.held {
        budget.over = true;
        TipPreview::Unavailable(UnavailableReason::OverBudget)
    } else {
        budget.held = budget.held + small.data.len();
        TipPreview::Available(small)
    }
}

/// Is the entry's tip available?
pub open spec fn available(entry: EntryView) -> bool {
    entry.tip is Available
}

/// Is a tip one that a preview may hold: with one byte per pixel, and no side that is 0 or
/// longer than `max_cell`?
pub open spec fn tip_fits(tip: TipState, max_cell: u32) -> bool {
    match tip {
        TipState::Available(b) => b.wf() && 0 < b.width <= max_cell && 0 < b.height <= max_cell,
        TipState::Unavailable(_) => true,
    }
}

/// Does every tip fit?
pub open spec fn tips_fit(entries: Seq<EntryView>, max_cell: u32) -> bool {
    forall|k: int| 0 <= k < entries.len() ==> tip_fits((#[trigger] entries[k]).tip, max_cell)
}

/// The first entry whose tip does not fit.
pub fn find_misfit(set: &PreviewSet, max_cell: u32) -> (r: Option<usize>)
    ensures
        match r {
            Some(i) => {
                &&& i < set.entries@.len()
                &&& !tip_fits(set.entries@[i as int]@.tip, max_cell)
                &&& tips_fit(views(set.entries@).take(i as int), max_cell)
            },
            None => tips_fit(views(set.entries@), max_cell),
        },
{
    let mut i: usize = 0;
    while i < set.entries.len()
        invariant
            i <= set.entries@.len(),
            tips_fit(views(set.entries@).take(i as int), max_cell),
        decreases set.entries@.len() - i,
    {
        let fits: bool = match &set.entries[i].tip {
            TipPreview::Available(b) => {
                assert(b.width * b.height <= 0xFFFF_FFFF * 0xFFFF_FFFF) by (nonlinear_arith)
                    requires
                        b.width <= 0xFFFF_FFFF,
                        b.height <= 0xFFFF_FFFF,
                ;
                0 < b.width && b.width <= max_cell && 0 < b.height && b.height <= max_cell
                    && b.data.len() as u128 == b.width as u128 * b.height as u128
            },
            TipPreview::Unavailable(_) => true,
        };
        if !fits {
            return Some(i);
        }
        assert(views(set.entries@).take(i + 1) =~= views(set.entries@).take(i as int).push(
            set.entries@[i as int]@,
        ));
        i += 1;
    }
    assert(views(set.entries@).take(i as int) =~= views(set.entries@));
    None
}

/// Which entries a preview returns.
#[derive(Debug, Clone, Copy, PartialEq, Eq, Structural)]
pub enum Take {
    All,
    /// The first so many whose tip is available.
    FirstAvailable(usize),
}

/// The first `n` entries whose tip is available.
pub open spec fn first_available(entries: Seq<EntryView>, n: nat) -> Seq<EntryView>
    decreases entries.len(),
{
    if entries.len() == 0 {
        seq![]
    } else {
        let before = first_available(entries.drop_last(), n);
        if before.len() < n && available(entries.last()) {
            before.push(entries.last())
        } else {
            before
        }
    }
}

/// The entries that are returned.
pub open spec fn taken(entries: Seq<EntryView>, take: Take) -> Seq<EntryView> {
    match take {
        Take::All => entries,
        Take::FirstAvailable(n) => first_available(entries, n as nat),
    }
}

/// Are the first entries enough, so that no more need to be built?
pub open spec fn enough(entries: Seq<EntryView>, take: Take) -> bool {
    take matches Take::FirstAvailable(n) && first_available(entries, n as nat).len() >= n
}

/// More entries behind those that are enough change nothing.
pub proof fn enough_is_enough(entries: Seq<EntryView>, more: Seq<EntryView>, take: Take)
    requires
        enough(entries, take),
    ensures
        taken(entries + more, take) == taken(entries, take),
        enough(entries + more, take),
    decreases more.len(),
{
    if more.len() == 0 {
        assert(entries + more =~= entries);
    } else {
        enough_is_enough(entries, more.drop_last(), take);
        assert((entries + more).drop_last() =~= entries + more.drop_last());
    }
}

/// The returned entries are entries, in their order, and available where only such are
/// returned.
pub proof fn taken_are_entries(entries: Seq<EntryView>, n: nat)
    ensures
        first_available(entries, n).len() <= n,
        forall|k: int|
            0 <= k < first_available(entries, n).len() ==> {
                &&& entries.contains(#[trigger] first_available(entries, n)[k])
                &&& available(first_available(entries, n)[k])
            },
    decreases entries.len(),
{
    if entries.len() > 0 {
        let init = entries.drop_last();
        taken_are_entries(init, n);
        let before = first_available(init, n);
        let all = first_available(entries, n);
        assert forall|k: int| 0 <= k < all.len() implies entries.contains(#[trigger] all[k])
            && available(all[k]) by {
            if k < before.len() {
                assert(all[k] == before[k]);
                let j = choose|j: int| 0 <= j < init.len() && init[j] == before[k];
                assert(entries[j] == all[k]);
            } else {
                assert(entries[entries.len() - 1] == all[k]);
            }
        }
    }
}

/// Adds an entry where it is one of those that are returned.
pub(crate) fn keep_entry(
    kept: &mut Vec<PreviewEntry>,
    entry: PreviewEntry,
    take: Take,
    Ghost(entries): Ghost<Seq<EntryView>>,
)
    requires
        views(old(kept)@) == taken(entries, take),
        !enough(entries, take),
    ensures
        views(final(kept)@) == taken(entries.push(entry@), take),
{
    let ghost before = kept@;
    proof {
        assert(entries.push(entry@).drop_last() =~= entries);
        assert(views(before).len() == before.len());
    }
    let keep: bool = match take {
        Take::All => true,
        Take::FirstAvailable(_) => match &entry.tip {
            TipPreview::Available(_) => true,
            TipPreview::Unavailable(_) => false,
        },
    };
    if keep {
        let ghost added = entry@;
        kept.push(entry);
        assert(views(kept@) =~= views(before).push(added));
    }
}

/// Are the entries that were kept all that are returned?
pub(crate) fn is_enough(kept: &Vec<PreviewEntry>, take: Take, Ghost(entries): Ghost<Seq<EntryView>>) -> (r:
    bool)
    requires
        views(kept@) == taken(entries, take),
    ensures
        r == enough(entries, take),
{
    assert(views(kept@).len() == kept@.len());
    match take {
        Take::All => false,
        Take::FirstAvailable(n) => kept.len() >= n,
    }
}

/// Is `max_cell` one that previews can have?
pub fn check_max_cell(opts: PreviewOptions) -> (r: Result<u32, PreviewError>)
    ensures
        opts.max_cell == 0 ==> (r matches Err(e) && e.0@ == "max_cell must be at least 1"@),
        opts.max_cell > 0 ==> r == Ok::<u32, PreviewError>(opts.max_cell),
{
    if opts.max_cell == 0 {
        return Err(PreviewError("max_cell must be at least 1".to_owned()));
    }
    Ok(opts.max_cell)
}

/// The name of a tip shape.
pub open spec fn shape_name_text(shape: TipShape) -> Seq<char> {
    match shape {
        TipShape::RoundPoint => "RoundPoint"@,
        TipShape::RoundBlunt => "RoundBlunt"@,
        TipShape::RoundCurve => "RoundCurve"@,
        TipShape::RoundAngle => "RoundAngle"@,
        TipShape::RoundFan => "RoundFan"@,
        TipShape::FlatPoint => "FlatPoint"@,
        TipShape::FlatBlunt => "FlatBlunt"@,
        TipShape::FlatCurve => "FlatCurve"@,
        TipShape::FlatAngle => "FlatAngle"@,
        TipShape::FlatFan => "FlatFan"@,
        TipShape::ErodiblePoint => "ErodiblePoint"@,
        TipShape::ErodibleFlat => "ErodibleFlat"@,
        TipShape::ErodibleRound => "ErodibleRound"@,
        TipShape::ErodibleSquare => "ErodibleSquare"@,
        TipShape::ErodibleTriangle => "ErodibleTriangle"@,
        TipShape::AirbrushTip => "AirbrushTip"@,
    }
}

/// What kind of tip an unsupported preset has: its shape, else its family.
pub open spec fn tip_kind_text(shape: Option<TipShape>, family: Option<ShapeTipFamily>) -> Seq<
    char,
> {
    match shape {
        Some(shape) => shape_name_text(shape),
        None => match family {
            Some(ShapeTipFamily::Bristle) => "bristle"@,
            Some(ShapeTipFamily::Erodible) => "erodible"@,
            None => "shape tip"@,
        },
    }
}

/// What kind of tip an unsupported preset has: its shape, else its family.
pub fn tip_kind(shape: Option<TipShape>, family: Option<ShapeTipFamily>) -> (r: String)
    ensures
        r@ == tip_kind_text(shape, family),
{
    let kind: &str = match shape {
        Some(shape) => match shape {
            TipShape::RoundPoint => "RoundPoint",
            TipShape::RoundBlunt => "RoundBlunt",
            TipShape::RoundCurve => "RoundCurve",
            TipShape::RoundAngle => "RoundAngle",
            TipShape::RoundFan => "RoundFan",
            TipShape::FlatPoint => "FlatPoint",
            TipShape::FlatBlunt => "FlatBlunt",
            TipShape::FlatCurve => "FlatCurve",
            TipShape::FlatAngle => "FlatAngle",
            TipShape::FlatFan => "FlatFan",
            TipShape::ErodiblePoint => "ErodiblePoint",
            TipShape::ErodibleFlat => "ErodibleFlat",
            TipShape::ErodibleRound => "ErodibleRound",
            TipShape::ErodibleSquare => "ErodibleSquare",
            TipShape::ErodibleTriangle => "ErodibleTriangle",
            TipShape::AirbrushTip => "AirbrushTip",
        },
        None => match family {
            Some(ShapeTipFamily::Bristle) => "bristle",
            Some(ShapeTipFamily::Erodible) => "erodible",
            None => "shape tip",
        },
    };
    kind.to_owned()
}

} // verus!
