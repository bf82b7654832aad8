//! Previews of Procreate archives: a `.brush`, and the members of a `.brushset`.
use vstd::prelude::*;
use crate::preview::archive::{
    archive_file, entry_count_of, entry_size, entry_size_of, open_archive, result_view,
    zip_error_of,
};
use crate::preview::bitmap::{BitmapView, GrayscaleBitmap};
use crate::preview::decode::{dimensions_ok, header_dimensions};
use crate::preview::entry::{
    budgeted, check_max_cell, dimensions, enough, is_enough, keep_entry, render_tip, taken, Budget,
    EntryView, PreviewEntry, PreviewError, PreviewOptions, PreviewSet, ReasonView, SourceDimensions,
    Take, TipPreview, TipState, UnavailableReason,
};
use crate::preview::procreate::{
    brush_name, brushset_of, decode_tip_png, entry_bytes, guarded_plist, members_below,
    members_in_zip_order, name_in, parse_brushset_plist, read_zip_entry, shape_result,
    ShapePngError, Zip,
};
use crate::support::text::{text, views};

verus! {

/// A text without the slashes at its end.
pub open spec fn without_slashes(s: Seq<char>) -> Seq<char>
    decreases s.len(),
{
    if s.len() > 0 && s.last() == '/' {
        without_slashes(s.drop_last())
    } else {
        s
    }
}

proof fn slashes_are_dropped(s: Seq<char>, keep: int)
    requires
        0 <= keep <= s.len(),
        forall|i: int| keep <= i < s.len() ==> s[i] == '/',
        keep > 0 ==> s[keep - 1] != '/',
    ensures
        without_slashes(s) == s.take(keep),
    decreases s.len(),
{
    if keep < s.len() {
        slashes_are_dropped(s.drop_last(), keep);
        assert(s.drop_last().take(keep) =~= s.take(keep));
    } else {
        assert(s.take(keep) =~= s);
    }
}

fn trim_slashes(s: &str) -> (r: String)
    ensures
        r@ == without_slashes(s@),
{
    let mut keep: usize = 0;
    let mut count: usize = 0;
    let len: usize = s.unicode_len();
    for c in it: s.chars()
        invariant
            it.seq() == s@,
            len == s@.len(),
            count == it.index(),
            keep <= count,
            forall|i: int| keep <= i < count ==> s@[i] == '/',
            keep > 0 ==> s@[keep - 1] != '/',
    {
        count = count + 1;
        if c != '/' {
            keep = count;
        }
    }
    proof {
        slashes_are_dropped(s@, keep as int);
    }
    let r: &str = s.substring_char(0, keep);
    assert(r@ =~= s@.take(keep as int));
    r.to_owned()
}

/// The name of a member that has none of its own: its directory, or `Brush`.
pub open spec fn fallback_name(prefix: Seq<char>) -> Seq<char> {
    if prefix.len() == 0 {
        "Brush"@
    } else {
        without_slashes(prefix)
    }
}

/// The name in the archive of a member, or why it cannot be read.
pub open spec fn member_name_of(file: Seq<u8>, prefix: Seq<char>) -> Result<
    Option<Seq<char>>,
    Seq<char>,
> {
    match entry_bytes(file, prefix + "Brush.archive"@) {
        Ok(bytes) => name_in(bytes),
        Err(e) => Err(e),
    }
}

/// The shape of a member, if it has one, or why it cannot be read.
pub open spec fn member_shape_of(file: Seq<u8>, prefix: Seq<char>) -> Option<
    Result<Seq<u8>, Seq<char>>,
> {
    let path = prefix + "Shape.png"@;
    if entry_size_of(file, path) is Some {
        Some(entry_bytes(file, path))
    } else {
        None
    }
}

/// What a shape decodes to.
pub enum ShapeView {
    Tip(BitmapView),
    TooLarge { width: u32, height: u32 },
    Corrupt(Seq<char>),
}

/// The model of what a shape decodes to.
pub open spec fn shape_view(r: Result<GrayscaleBitmap, ShapePngError>) -> ShapeView {
    match r {
        Ok(b) => ShapeView::Tip(b@),
        Err(ShapePngError::TooLarge { width, height }) => ShapeView::TooLarge { width, height },
        Err(ShapePngError::Corrupt(reason)) => ShapeView::Corrupt(reason@),
    }
}

/// What reading a shape gives: its dimensions, and what it decodes to. Both are fixed for
/// PNG and JPEG files; for other formats the decoders at hand decide.
pub struct Outcome {
    pub header: Option<(u32, u32)>,
    pub shape: ShapeView,
}

/// Can this be the outcome of reading a shape with these bytes?
pub open spec fn outcome_ok(bytes: Seq<u8>, o: Outcome) -> bool {
    &&& dimensions_ok(bytes, o.header)
    &&& exists|r: Result<GrayscaleBitmap, ShapePngError>|
        {
            &&& #[trigger] shape_result(bytes, r)
            &&& shape_view(r) == o.shape
            &&& r matches Ok(b) ==> b@.wf()
        }
}

/// The tip that a shape decodes to, under a budget.
pub open spec fn shape_tip_of(budget: Budget, shape: ShapeView, max_cell: u32) -> (
    TipState,
    Budget,
) {
    match shape {
        ShapeView::Tip(bitmap) => budgeted(budget, bitmap, max_cell),
        ShapeView::TooLarge { width, height } => (
            TipState::Unavailable(ReasonView::TooLarge { width, height }),
            budget,
        ),
        ShapeView::Corrupt(reason) => (TipState::Unavailable(ReasonView::Corrupt(reason)), budget),
    }
}

/// The entry of a member, given its name, its shape and what that reads as, and the budget
/// after it.
pub open spec fn member_entry_of(
    index: nat,
    prefix: Seq<char>,
    name: Result<Option<Seq<char>>, Seq<char>>,
    shape: Option<Result<Seq<u8>, Seq<char>>>,
    o: Outcome,
    max_cell: u32,
    budget: Budget,
) -> (EntryView, Budget) {
    let source_dimensions = match shape {
        Some(Ok(_)) => match o.header {
            Some((width, height)) => dimensions(width, height),
            None => None,
        },
        _ => None,
    };
    let (tip, after) = match name {
        Ok(_) => match shape {
            Some(Ok(_)) => if budget.over {
                (TipState::Unavailable(ReasonView::OverBudget), budget)
            } else {
                shape_tip_of(budget, o.shape, max_cell)
            },
            Some(Err(reason)) => (TipState::Unavailable(ReasonView::Corrupt(reason)), budget),
            None => (TipState::Unavailable(ReasonView::NoShapePng), budget),
        },
        Err(reason) => (TipState::Unavailable(ReasonView::Corrupt(reason)), budget),
    };
    (
        EntryView {
            index,
            name: match name {
                Ok(Some(name)) => name,
                _ => fallback_name(prefix),
            },
            tip,
            source_dimensions,
        },
        after,
    )
}

/// The entry of a member of an archive, and the budget after it.
#[verifier::opaque]
pub open spec fn member_step(
    file: Seq<u8>,
    index: nat,
    prefix: Seq<char>,
    o: Outcome,
    max_cell: u32,
    budget: Budget,
) -> (EntryView, Budget) {
    member_entry_of(
        index,
        prefix,
        member_name_of(file, prefix),
        member_shape_of(file, prefix),
        o,
        max_cell,
        budget,
    )
}

/// Can this be the outcome of reading the shape of a member? Nothing is asked of it where
/// the member has none, or where its tip is over the budget.
#[verifier::opaque]
pub open spec fn member_outcome_ok(file: Seq<u8>, prefix: Seq<char>, over: bool, o: Outcome) -> bool {
    match member_shape_of(file, prefix) {
        Some(Ok(bytes)) => if over || member_name_of(file, prefix) is Err {
            dimensions_ok(bytes, o.header)
        } else {
            outcome_ok(bytes, o)
        },
        _ => true,
    }
}

fn member_archive(zip: &mut Zip<'_>, prefix: &str) -> (r: Result<Option<String>, String>)
    ensures
        match member_name_of(archive_file(*old(zip)), prefix@) {
            Ok(name) => r matches Ok(v) && text(v) == name,
            Err(e) => r matches Err(m) && m@ == e,
        },
        archive_file(*final(zip)) == archive_file(*old(zip)),
{
    let mut path: String = prefix.to_owned();
    path.append("Brush.archive");
    let bytes: Vec<u8> = read_zip_entry(zip, path.as_str())?;
    brush_name(bytes.as_slice())
}

fn member_shape(zip: &mut Zip<'_>, prefix: &str) -> (r: Option<Result<Vec<u8>, String>>)
    ensures
        match r {
            Some(out) => member_shape_of(archive_file(*old(zip)), prefix@) == Some(
                result_view(out),
            ),
            None => member_shape_of(archive_file(*old(zip)), prefix@) is None,
        },
        archive_file(*final(zip)) == archive_file(*old(zip)),
{
    let mut path: String = prefix.to_owned();
    path.append("Shape.png");
    if entry_size(zip, path.as_str()).is_some() {
        Some(read_zip_entry(zip, path.as_str()))
    } else {
        None
    }
}

/// The tip that a shape decodes to, under a budget.
pub fn shape_tip(
    shape: Result<GrayscaleBitmap, ShapePngError>,
    max_cell: u32,
    budget: &mut Budget,
) -> (r: TipPreview)
    requires
        shape matches Ok(b) ==> b@.wf(),
        old(budget).wf(),
    ensures
        (r@, *final(budget)) == shape_tip_of(*old(budget), shape_view(shape), max_cell),
        final(budget).wf(),
{
    match shape {
        Ok(bitmap) => render_tip(&bitmap, max_cell, budget),
        Err(ShapePngError::TooLarge { width, height }) => TipPreview::Unavailable(
            UnavailableReason::TooLarge { width, height },
        ),
        Err(ShapePngError::Corrupt(reason)) => TipPreview::Unavailable(
            UnavailableReason::Corrupt(reason),
        ),
    }
}

/// The entry of a member of an archive. A member is always an entry: where its archive
/// cannot be read, it has the name of its directory, and its shape still tells its size.
fn member_entry(
    zip: &mut Zip<'_>,
    index: usize,
    prefix: &str,
    max_cell: u32,
    budget: &mut Budget,
) -> (r: (PreviewEntry, Ghost<Outcome>))
    requires
        old(budget).wf(),
    ensures
        member_outcome_ok(archive_file(*old(zip)), prefix@, old(budget).over, r.1@),
        (r.0@, *final(budget)) == member_step(
            archive_file(*old(zip)),
            index as nat,
            prefix@,
            r.1@,
            max_cell,
            *old(budget),
        ),
        final(budget).wf(),
        archive_file(*final(zip)) == archive_file(*old(zip)),
{
    proof {
        reveal(member_step);
        reveal(member_outcome_ok);
    }
    let fallback: String = if prefix.is_empty() {
        "Brush".to_owned()
    } else {
        trim_slashes(prefix)
    };
    let archive: Result<Option<String>, String> = member_archive(zip, prefix);
    let shape: Option<Result<Vec<u8>, String>> = member_shape(zip, prefix);
    let ghost none = ShapeView::Corrupt(seq![]);
    let ghost mut outcome = Outcome { header: None, shape: none };
    let mut source_dimensions: Option<SourceDimensions> = None;
    if let Some(Ok(bytes)) = &shape {
        let header: Option<(u32, u32)> = header_dimensions(bytes.as_slice());
        if let Some((width, height)) = header {
            source_dimensions = SourceDimensions::new(width, height);
        }
        proof {
            outcome = Outcome { header, shape: none };
        }
    }
    let (name, tip): (String, TipPreview) = match archive {
        Ok(name) => {
            let tip: TipPreview = match shape {
                Some(Ok(bytes)) => {
                    if budget.over {
                        TipPreview::Unavailable(UnavailableReason::OverBudget)
                    } else {
                        let decoded: Result<GrayscaleBitmap, ShapePngError> = decode_tip_png(
                            bytes.as_slice(),
                        );
                        proof {
                            outcome = Outcome { header: outcome.header, shape: shape_view(decoded) };
                            assert(shape_result(bytes@, decoded));
                            assert(outcome_ok(bytes@, outcome));
                        }
                        shape_tip(decoded, max_cell, budget)
                    }
                },
                Some(Err(reason)) => TipPreview::Unavailable(UnavailableReason::Corrupt(reason)),
                None => TipPreview::Unavailable(UnavailableReason::NoShapePng),
            };
            let name: String = match name {
                Some(name) => name,
                None => fallback,
            };
            (name, tip)
        },
        Err(reason) => (
            fallback,
            TipPreview::Unavailable(UnavailableReason::Corrupt(reason)),
        ),
    };
    (PreviewEntry { index, name, tip, source_dimensions }, Ghost(outcome))
}

/// The entries of the first members, and the budget after them.
pub struct MemberProgress {
    pub entries: Seq<EntryView>,
    pub budget: Budget,
}

/// The entries of the first `n` members, given what their shapes read as.
pub open spec fn member_progress(
    file: Seq<u8>,
    prefixes: Seq<Seq<char>>,
    n: nat,
    max_cell: u32,
    outcomes: Seq<Outcome>,
) -> MemberProgress
    decreases n,
{
    if n == 0 {
        MemberProgress { entries: seq![], budget: Budget { held: 0, over: false } }
    } else {
        let before = member_progress(file, prefixes, (n - 1) as nat, max_cell, outcomes);
        let (entry, budget) = member_step(
            file,
            (n - 1) as nat,
            prefixes[n - 1],
            outcomes[n - 1],
            max_cell,
            before.budget,
        );
        MemberProgress { entries: before.entries.push(entry), budget }
    }
}

/// Can these be the outcomes of the first `n` members?
pub open spec fn outcomes_ok(
    file: Seq<u8>,
    prefixes: Seq<Seq<char>>,
    n: nat,
    max_cell: u32,
    outcomes: Seq<Outcome>,
) -> bool {
    &&& outcomes.len() >= n
    &&& forall|k: int|
        0 <= k < n ==> member_outcome_ok(
            file,
            #[trigger] prefixes[k],
            member_progress(file, prefixes, k as nat, max_cell, outcomes).budget.over,
            outcomes[k],
        )
}

/// Are these the members that are read: all, or so many that no more are needed, and not
/// one that is not?
pub open spec fn read_as_needed(
    file: Seq<u8>,
    prefixes: Seq<Seq<char>>,
    built: nat,
    max_cell: u32,
    outcomes: Seq<Outcome>,
    take: Take,
) -> bool {
    &&& built <= prefixes.len()
    &&& built == prefixes.len() || enough(
        member_progress(file, prefixes, built, max_cell, outcomes).entries,
        take,
    )
    &&& forall|n: nat|
        n < built ==> !enough(
            (#[trigger] member_progress(file, prefixes, n, max_cell, outcomes)).entries,
            take,
        )
}

/// Can these be the entries of the members of an archive, with so many read?
pub open spec fn are_member_entries(
    entries: Seq<EntryView>,
    built: nat,
    file: Seq<u8>,
    prefixes: Seq<Seq<char>>,
    max_cell: u32,
    take: Take,
) -> bool {
    exists|outcomes: Seq<Outcome>|
        {
            &&& outcomes_ok(file, prefixes, built, max_cell, outcomes)
            &&& read_as_needed(file, prefixes, built, max_cell, outcomes, take)
            &&& entries == taken(
                (#[trigger] member_progress(file, prefixes, built, max_cell, outcomes)).entries,
                take,
            )
        }
}

proof fn member_progress_agrees(
    file: Seq<u8>,
    prefixes: Seq<Seq<char>>,
    n: nat,
    max_cell: u32,
    a: Seq<Outcome>,
    b: Seq<Outcome>,
)
    requires
        n <= a.len(),
        n <= b.len(),
        forall|i: int| 0 <= i < n ==> a[i] == b[i],
    ensures
        member_progress(file, prefixes, n, max_cell, a) == member_progress(
            file,
            prefixes,
            n,
            max_cell,
            b,
        ),
    decreases n,
{
    if n > 0 {
        member_progress_agrees(file, prefixes, (n - 1) as nat, max_cell, a, b);
        assert(a[n - 1] == b[n - 1]);
    }
}

proof fn outcomes_grow(
    file: Seq<u8>,
    prefixes: Seq<Seq<char>>,
    n: nat,
    max_cell: u32,
    outcomes: Seq<Outcome>,
    more: Outcome,
)
    requires
        outcomes.len() == n,
        outcomes_ok(file, prefixes, n, max_cell, outcomes),
        member_outcome_ok(
            file,
            prefixes[n as int],
            member_progress(file, prefixes, n, max_cell, outcomes).budget.over,
            more,
        ),
    ensures
        outcomes_ok(file, prefixes, n + 1, max_cell, outcomes.push(more)),
        forall|m: nat|
            m <= n ==> #[trigger] member_progress(
                file,
                prefixes,
                m,
                max_cell,
                outcomes.push(more),
            ) == member_progress(file, prefixes, m, max_cell, outcomes),
{
    let all = outcomes.push(more);
    assert forall|m: nat| m <= n implies #[trigger] member_progress(
        file,
        prefixes,
        m,
        max_cell,
        all,
    ) == member_progress(file, prefixes, m, max_cell, outcomes) by {
        member_progress_agrees(file, prefixes, m, max_cell, all, outcomes);
    }
    assert forall|k: int| 0 <= k < n + 1 implies member_outcome_ok(
        file,
        #[trigger] prefixes[k],
        member_progress(file, prefixes, k as nat, max_cell, all).budget.over,
        all[k],
    ) by {
        assert(member_progress(file, prefixes, k as nat, max_cell, all) == member_progress(
            file,
            prefixes,
            k as nat,
            max_cell,
            outcomes,
        ));
        if k < n {
            assert(all[k] == outcomes[k]);
        } else {
            assert(all[k] == more);
        }
    }
}

/// The entries of the members of an archive that `take` asks for, and how many were read
/// for them.
fn member_entries(zip: &mut Zip<'_>, prefixes: &Vec<String>, max_cell: u32, take: Take) -> (r: (
    Vec<PreviewEntry>,
    usize,
))
    ensures
        are_member_entries(
            views(r.0@),
            r.1 as nat,
            archive_file(*old(zip)),
            views(prefixes@),
            max_cell,
            take,
        ),
{
    let ghost file = archive_file(*zip);
    let ghost paths = views(prefixes@);
    let ghost mut outcomes: Seq<Outcome> = seq![];
    let mut budget: Budget = Budget { held: 0, over: false };
    let mut entries: Vec<PreviewEntry> = Vec::new();
    assert(views(entries@) =~= seq![]);
    let mut i: usize = 0;
    while i < prefixes.len() && !is_enough(
        &entries,
        take,
        Ghost(member_progress(file, paths, i as nat, max_cell, outcomes).entries),
    )
        invariant
            i <= prefixes@.len(),
            paths == views(prefixes@),
            file == archive_file(*old(zip)),
            archive_file(*zip) == file,
            outcomes.len() == i,
            budget.wf(),
            outcomes_ok(file, paths, i as nat, max_cell, outcomes),
            budget == member_progress(file, paths, i as nat, max_cell, outcomes).budget,
            views(entries@) == taken(
                member_progress(file, paths, i as nat, max_cell, outcomes).entries,
                take,
            ),
            forall|n: nat|
                n < i ==> !enough(
                    (#[trigger] member_progress(file, paths, n, max_cell, outcomes)).entries,
                    take,
                ),
        decreases prefixes@.len() - i,
    {
        let ghost now = member_progress(file, paths, i as nat, max_cell, outcomes);
        assert(paths[i as int] == prefixes@[i as int]@);
        let (entry, outcome) = member_entry(
            zip,
            i,
            prefixes[i].as_str(),
            max_cell,
            &mut budget,
        );
        proof {
            outcomes_grow(file, paths, i as nat, max_cell, outcomes, outcome@);
            outcomes = outcomes.push(outcome@);
            assert(member_progress(file, paths, i as nat, max_cell, outcomes) == now);
            assert(outcomes[i as int] == outcome@);
            assert(member_progress(file, paths, (i + 1) as nat, max_cell, outcomes).entries
                == now.entries.push(entry@));
        }
        keep_entry(&mut entries, entry, take, Ghost(now.entries));
        i += 1;
    }
    assert(views(entries@) == taken(
        member_progress(file, paths, i as nat, max_cell, outcomes).entries,
        take,
    ));
    (entries, i)
}

/// The set name and the members' prefixes of a `.brushset`, or why there is no preview.
pub open spec fn brushset_plan(file: Seq<u8>, max_cell: u32) -> Result<
    (Option<Seq<char>>, Seq<Seq<char>>),
    Seq<char>,
> {
    if max_cell == 0 {
        Err("max_cell must be at least 1"@)
    } else {
        match zip_error_of(file) {
            Some(e) => Err("failed to open zip: "@ + e),
            None => if entry_size_of(file, "brushset.plist"@) is Some {
                match entry_bytes(file, "brushset.plist"@) {
                    Ok(bytes) => match guarded_plist(bytes, "brushset.plist"@) {
                        Ok(tree) => match brushset_of(tree) {
                            Ok((name, members)) => Ok((name, prefixes_of(members))),
                            Err(e) => Err(e),
                        },
                        Err(e) => Err(e),
                    },
                    Err(e) => Err(e),
                }
            } else {
                let members = members_below(file, entry_count_of(file));
                if members.len() == 0 {
                    Err("no brushes found"@)
                } else {
                    Ok((None, prefixes_of(members)))
                }
            },
        }
    }
}

/// The paths of members, each with a slash behind it.
pub open spec fn prefixes_of(members: Seq<Seq<char>>) -> Seq<Seq<char>> {
    Seq::new(members.len(), |i: int| members[i] + "/"@)
}

fn with_slashes(members: Vec<String>) -> (r: Vec<String>)
    ensures
        views(r@) == prefixes_of(views(members@)),
{
    let mut r: Vec<String> = Vec::with_capacity(members.len());
    let mut i: usize = 0;
    while i < members.len()
        invariant
            i <= members@.len(),
            r@.len() == i,
            forall|j: int| 0 <= j < i ==> (#[trigger] r@[j])@ == members@[j]@ + "/"@,
        decreases members@.len() - i,
    {
        let mut prefix: String = members[i].clone();
        prefix.append("/");
        r.push(prefix);
        i += 1;
    }
    assert(views(r@) =~= prefixes_of(views(members@)));
    r
}

fn open_zip(bytes: &[u8]) -> (r: Result<Zip<'_>, PreviewError>)
    ensures
        match r {
            Ok(zip) => zip_error_of(bytes@) is None && archive_file(zip) == bytes@,
            Err(m) => zip_error_of(bytes@) matches Some(e) && m.0@ == "failed to open zip: "@ + e,
        },
{
    match open_archive(bytes) {
        Ok(zip) => Ok(zip),
        Err(e) => {
            let mut m: String = "failed to open zip: ".to_owned();
            m.append(e.as_str());
            Err(PreviewError(m))
        },
    }
}

/// The set name and the members' prefixes of an open `.brushset`.
fn set_members(zip: &mut Zip<'_>, max_cell: u32) -> (r: Result<
    (Option<String>, Vec<String>),
    PreviewError,
>)
    requires
        max_cell > 0,
        zip_error_of(archive_file(*old(zip))) is None,
    ensures
        match brushset_plan(archive_file(*old(zip)), max_cell) {
            Ok((name, prefixes)) => r matches Ok(v) && text(v.0) == name && views(v.1@)
                == prefixes,
            Err(e) => r matches Err(m) && m.0@ == e,
        },
        archive_file(*final(zip)) == archive_file(*old(zip)),
{
    if entry_size(zip, "brushset.plist").is_some() {
        let bytes: Vec<u8> = match read_zip_entry(zip, "brushset.plist") {
            Ok(bytes) => bytes,
            Err(e) => {
                return Err(PreviewError(e));
            },
        };
        match parse_brushset_plist(bytes.as_slice()) {
            Ok((name, members)) => Ok((name, with_slashes(members))),
            Err(e) => Err(PreviewError(e)),
        }
    } else {
        let members: Vec<String> = members_in_zip_order(zip);
        assert(views(members@).len() == members@.len());
        if members.len() == 0 {
            return Err(PreviewError("no brushes found".to_owned()));
        }
        Ok((None, with_slashes(members)))
    }
}

/// The entries of a `.brushset` that `take` asks for, and how many members were read for
/// them.
pub fn brushset(bytes: &[u8], opts: PreviewOptions, take: Take) -> (r: Result<
    (PreviewSet, usize),
    PreviewError,
>)
    ensures
        match brushset_plan(bytes@, opts.max_cell) {
            Ok((name, prefixes)) => {
                &&& r matches Ok(v) && text(v.0.set_name) == name && are_member_entries(
                    views(v.0.entries@),
                    v.1 as nat,
                    bytes@,
                    prefixes,
                    opts.max_cell,
                    take,
                )
            },
            Err(e) => r matches Err(m) && m.0@ == e,
        },
{
    let max_cell: u32 = check_max_cell(opts)?;
    let mut zip: Zip<'_> = open_zip(bytes)?;
    let (set_name, prefixes) = set_members(&mut zip, max_cell)?;
    let (entries, built) = member_entries(&mut zip, &prefixes, max_cell, take);
    Ok((PreviewSet { set_name, entries }, built))
}

/// The tips of a `.brushset`.
///
/// With a `brushset.plist` the set name and the order of the members come from it. Without
/// one the members are the directories with a `Brush.archive`, in the order of the archive,
/// and the set has no name.
pub fn preview_brushset(bytes: &[u8], opts: PreviewOptions) -> (r: Result<
    PreviewSet,
    PreviewError,
>)
    ensures
        match brushset_plan(bytes@, opts.max_cell) {
            Ok((name, prefixes)) => {
                &&& r matches Ok(set) && text(set.set_name) == name && are_member_entries(
                    views(set.entries@),
                    prefixes.len(),
                    bytes@,
                    prefixes,
                    opts.max_cell,
                    Take::All,
                )
            },
            Err(e) => r matches Err(m) && m.0@ == e,
        },
{
    let (set, _built) = brushset(bytes, opts, Take::All)?;
    Ok(set)
}

/// The first `n` entries of [`preview_brushset`] whose tip is available, with the indices
/// that they have there. No member after them is read.
pub fn preview_brushset_first_available(bytes: &[u8], opts: PreviewOptions, n: usize) -> (r: Result<
    PreviewSet,
    PreviewError,
>)
    ensures
        match brushset_plan(bytes@, opts.max_cell) {
            Ok((name, prefixes)) => {
                &&& r matches Ok(set) && text(set.set_name) == name && exists|built: nat|
                    are_member_entries(
                        views(set.entries@),
                        built,
                        bytes@,
                        prefixes,
                        opts.max_cell,
                        Take::FirstAvailable(n),
                    )
            },
            Err(e) => r matches Err(m) && m.0@ == e,
        },
{
    let (set, built) = brushset(bytes, opts, Take::FirstAvailable(n))?;
    proof {
        let (name, prefixes) = brushset_plan(bytes@, opts.max_cell)->Ok_0;
        assert(are_member_entries(
            views(set.entries@),
            built as nat,
            bytes@,
            prefixes,
            opts.max_cell,
            Take::FirstAvailable(n),
        ));
    }
    Ok(set)
}

/// Why there is no preview of a `.brush`, if there is none.
pub open spec fn brush_fault(file: Seq<u8>, max_cell: u32) -> Option<Seq<char>> {
    if max_cell == 0 {
        Some("max_cell must be at least 1"@)
    } else {
        match zip_error_of(file) {
            Some(e) => Some("failed to open zip: "@ + e),
            None => if entry_size_of(file, "Brush.archive"@) is None {
                Some("Brush.archive not found"@)
            } else {
                None
            },
        }
    }
}

/// The prefixes of the one member of a `.brush`, which stands at the root.
pub open spec fn root_prefixes() -> Seq<Seq<char>> {
    seq![seq![]]
}

/// The entry of a `.brush` if `take` asks for it, and whether it was read.
pub fn brush(bytes: &[u8], opts: PreviewOptions, take: Take) -> (r: Result<
    (PreviewSet, usize),
    PreviewError,
>)
    ensures
        match brush_fault(bytes@, opts.max_cell) {
            Some(e) => r matches Err(m) && m.0@ == e,
            None => {
                &&& r matches Ok(v) && v.0.set_name is None && are_member_entries(
                    views(v.0.entries@),
                    v.1 as nat,
                    bytes@,
                    root_prefixes(),
                    opts.max_cell,
                    take,
                )
            },
        },
{
    let max_cell: u32 = check_max_cell(opts)?;
    let mut zip: Zip<'_> = open_zip(bytes)?;
    if entry_size(&mut zip, "Brush.archive").is_none() {
        return Err(PreviewError("Brush.archive not found".to_owned()));
    }
    let mut prefixes: Vec<String> = Vec::new();
    let root: String = String::new();
    assert(root@ =~= seq![]);
    prefixes.push(root);
    assert(views(prefixes@) =~= root_prefixes());
    let (entries, built) = member_entries(&mut zip, &prefixes, max_cell, take);
    Ok((PreviewSet { set_name: None, entries }, built))
}

/// The tip of a `.brush`: one entry, read from the root of the archive.
pub fn preview_brush(bytes: &[u8], opts: PreviewOptions) -> (r: Result<PreviewSet, PreviewError>)
    ensures
        match brush_fault(bytes@, opts.max_cell) {
            Some(e) => r matches Err(m) && m.0@ == e,
            None => {
                &&& r matches Ok(set) && set.set_name is None && are_member_entries(
                    views(set.entries@),
                    1,
                    bytes@,
                    root_prefixes(),
                    opts.max_cell,
                    Take::All,
                )
            },
        },
{
    let (set, _built) = brush(bytes, opts, Take::All)?;
    Ok(set)
}

/// [`preview_brush`] limited to available tips: its entry where the tip is available and
/// `n` is not 0. With an `n` of 0 the tip is not decoded.
pub fn preview_brush_first_available(bytes: &[u8], opts: PreviewOptions, n: usize) -> (r: Result<
    PreviewSet,
    PreviewError,
>)
    ensures
        match brush_fault(bytes@, opts.max_cell) {
            Some(e) => r matches Err(m) && m.0@ == e,
            None => {
                &&& r matches Ok(set) && set.set_name is None && exists|built: nat|
                    are_member_entries(
                        views(set.entries@),
                        built,
                        bytes@,
                        root_prefixes(),
                        opts.max_cell,
                        Take::FirstAvailable(n),
                    )
            },
        },
{
    let (set, built) = brush(bytes, opts, Take::FirstAvailable(n))?;
    proof {
        assert(are_member_entries(
            views(set.entries@),
            built as nat,
            bytes@,
            root_prefixes(),
            opts.max_cell,
            Take::FirstAvailable(n),
        ));
    }
    Ok(set)
}

} // verus!
