//! Procreate's `.brush` and `.brushset` archives: entries, property lists and shapes, each
//! within limits.
use vstd::prelude::*;
use crate::preview::archive::{
    all_contents, archive_file, array_of, contents, dictionary_of, entries, entry_count,
    entry_count_of, entry_front, entry_front_of, entry_name, entry_name_of, entry_of, entry_size,
    entry_size_of, events_failed, events_left, events_of, next_event, open_events, plist_of,
    read_plist, result_view, text_of, uid_of, EventView, PlistEvent, PlistEvents, PlistView,
};
use crate::preview::bitmap::{BitmapView, GrayscaleBitmap};
use crate::preview::decode::{
    decode_guarded, guarded, plane_is_sized, plane_of, tip_plane, DecodedImage, GuardedDecodeError,
    TipSample,
};
use crate::support::text::{decimal, push_decimal, text, views};
use std::io::Cursor;

verus! {

/// The largest entry of an archive.
pub const MAX_ENTRY_BYTES: usize = 256 * 1024 * 1024;

/// The longest side of a shape.
pub const MAX_PNG_DIMENSION: u32 = 16384;

/// The largest property list.
pub const MAX_PLIST_BYTES: usize = 16 * 1024 * 1024;

/// The deepest nesting of a property list.
pub const MAX_PLIST_DEPTH: usize = 64;

/// A zip archive in memory.
pub type Zip<'a> = zip::ZipArchive<Cursor<&'a [u8]>>;

/// The bytes of an entry that is found with a declared size, or not.
pub open spec fn settled_entry(
    path: Seq<char>,
    size: Option<u64>,
    front: Option<Result<Seq<u8>, Seq<char>>>,
) -> Result<Seq<u8>, Seq<char>> {
    match size {
        Some(n) => if n > MAX_ENTRY_BYTES {
            Err(path + ": declared size "@ + decimal(n as nat) + " exceeds limit"@)
        } else {
            match front {
                Some(Ok(bytes)) => if bytes.len() > MAX_ENTRY_BYTES {
                    Err(path + ": entry exceeds size limit"@)
                } else {
                    Ok(bytes)
                },
                Some(Err(e)) => Err("failed to read "@ + path + ": "@ + e),
                None => Err(path + " not found"@),
            }
        },
        None => Err(path + " not found"@),
    }
}

/// The bytes of the entry at a path of an archive, or why it cannot be read.
pub open spec fn entry_bytes(file: Seq<u8>, path: Seq<char>) -> Result<Seq<u8>, Seq<char>> {
    settled_entry(
        path,
        entry_size_of(file, path),
        entry_front_of(file, path, (MAX_ENTRY_BYTES + 1) as nat),
    )
}

/// What was read of an entry, if it is within the limit.
pub fn settle_entry(path: &str, front: Option<Result<Vec<u8>, String>>, size: u64) -> (r: Result<
    Vec<u8>,
    String,
>)
    requires
        size <= MAX_ENTRY_BYTES,
    ensures
        result_view(r) == settled_entry(
            path@,
            Some(size),
            match front {
                Some(out) => Some(result_view(out)),
                None => None,
            },
        ),
{
    match front {
        Some(Ok(bytes)) => {
            if bytes.len() > MAX_ENTRY_BYTES {
                let mut m: String = path.to_owned();
                m.append(": entry exceeds size limit");
                return Err(m);
            }
            Ok(bytes)
        },
        Some(Err(e)) => {
            let mut m: String = "failed to read ".to_owned();
            m.append(path);
            m.append(": ");
            m.append(e.as_str());
            Err(m)
        },
        None => {
            let mut m: String = path.to_owned();
            m.append(" not found");
            Err(m)
        },
    }
}

/// The bytes of the entry at a path of an archive.
///
/// The declared size can be anything, so that what is read is limited apart from it.
pub fn read_zip_entry(zip: &mut Zip<'_>, path: &str) -> (r: Result<Vec<u8>, String>)
    ensures
        result_view(r) == entry_bytes(archive_file(*old(zip)), path@),
        archive_file(*final(zip)) == archive_file(*old(zip)),
{
    match entry_size(zip, path) {
        Some(size) => {
            if size > MAX_ENTRY_BYTES as u64 {
                let mut m: String = path.to_owned();
                m.append(": declared size ");
                push_decimal(&mut m, size);
                m.append(" exceeds limit");
                return Err(m);
            }
            let front: Option<Result<Vec<u8>, String>> = entry_front(
                zip,
                path,
                MAX_ENTRY_BYTES as u64 + 1,
            );
            settle_entry(path, front, size)
        },
        None => {
            let mut m: String = path.to_owned();
            m.append(" not found");
            Err(m)
        },
    }
}

/// Why the events of a property list end the reading of it.
pub enum PlistFault {
    TooDeep,
    Failed(Seq<char>),
}

/// The first fault in `events`, which start at nesting `depth`.
pub open spec fn first_fault(events: Seq<EventView>, depth: nat) -> Option<PlistFault>
    decreases events.len(),
{
    if events.len() == 0 {
        None
    } else {
        match events[0] {
            EventView::Start => if depth + 1 > MAX_PLIST_DEPTH {
                Some(PlistFault::TooDeep)
            } else {
                first_fault(events.drop_first(), depth + 1)
            },
            EventView::End => first_fault(
                events.drop_first(),
                if depth > 0 {
                    (depth - 1) as nat
                } else {
                    0
                },
            ),
            EventView::Leaf => first_fault(events.drop_first(), depth),
            EventView::Failed(e) => Some(PlistFault::Failed(e)),
        }
    }
}

/// The contents of a property list of `len` bytes, given its first fault and what it reads
/// as.
pub open spec fn settled_plist(
    len: nat,
    label: Seq<char>,
    fault: Option<PlistFault>,
    read: Result<PlistView, Seq<char>>,
) -> Result<PlistView, Seq<char>> {
    if len > MAX_PLIST_BYTES {
        Err(label + ": plist size "@ + decimal(len) + " exceeds limit"@)
    } else {
        match fault {
            Some(PlistFault::TooDeep) => Err(label + ": plist nesting depth exceeds limit"@),
            Some(PlistFault::Failed(e)) => Err("failed to parse "@ + label + ": "@ + e),
            None => match read {
                Ok(tree) => Ok(tree),
                Err(e) => Err("failed to parse "@ + label + ": "@ + e),
            },
        }
    }
}

/// The contents of a property list, or why it cannot be read.
pub open spec fn guarded_plist(bytes: Seq<u8>, label: Seq<char>) -> Result<PlistView, Seq<char>> {
    settled_plist(bytes.len(), label, first_fault(events_of(bytes), 0), plist_of(bytes))
}

/// The model of a property list that was read.
pub open spec fn plist_view(r: Result<plist::Value, String>) -> Result<PlistView, Seq<char>> {
    match r {
        Ok(value) => Ok(contents(value)),
        Err(e) => Err(e@),
    }
}

fn parse_failure(label: &str, reason: &str) -> (r: String)
    ensures
        r@ == "failed to parse "@ + label@ + ": "@ + reason@,
{
    let mut m: String = "failed to parse ".to_owned();
    m.append(label);
    m.append(": ");
    m.append(reason);
    m
}

/// Reads a property list within limits. Its nesting is tested as a stream first: a list
/// that is nested too deeply is never built.
pub fn parse_plist_guarded(bytes: &[u8], label: &str) -> (r: Result<plist::Value, String>)
    ensures
        plist_view(r) == guarded_plist(bytes@, label@),
{
    if bytes.len() > MAX_PLIST_BYTES {
        let mut m: String = label.to_owned();
        m.append(": plist size ");
        push_decimal(&mut m, bytes.len() as u64);
        m.append(" exceeds limit");
        return Err(m);
    }
    let mut depth: usize = 0;
    let mut events: PlistEvents<'_> = open_events(bytes);
    loop
        invariant_except_break
            bytes@.len() <= MAX_PLIST_BYTES,
            depth <= MAX_PLIST_DEPTH,
            !events_failed(events),
            first_fault(events_of(bytes@), 0) == first_fault(events_left(events), depth as nat),
        ensures
            first_fault(events_of(bytes@), 0) is None,
        decreases events_left(events).len(),
    {
        match next_event(&mut events) {
            Some(PlistEvent::Start) => {
                depth = depth + 1;
                if depth > MAX_PLIST_DEPTH {
                    let mut m: String = label.to_owned();
                    m.append(": plist nesting depth exceeds limit");
                    return Err(m);
                }
            },
            Some(PlistEvent::End) => {
                if depth > 0 {
                    depth = depth - 1;
                }
            },
            Some(PlistEvent::Leaf) => {},
            Some(PlistEvent::Failed(e)) => {
                return Err(parse_failure(label, e.as_str()));
            },
            None => {
                break;
            },
        }
    }
    match read_plist(bytes) {
        Ok(value) => Ok(value),
        Err(e) => Err(parse_failure(label, e.as_str())),
    }
}

/// The value under a key of a dictionary.
pub open spec fn value_at(dict: Map<Seq<char>, PlistView>, key: Seq<char>) -> Option<PlistView> {
    if dict.contains_key(key) {
        Some(dict[key])
    } else {
        None
    }
}

/// The text under a key of a dictionary.
pub open spec fn text_at(dict: Map<Seq<char>, PlistView>, key: Seq<char>) -> Option<Seq<char>> {
    match value_at(dict, key) {
        Some(PlistView::Text(s)) => Some(s),
        _ => None,
    }
}

/// The array under a key of a dictionary.
pub open spec fn array_at(dict: Map<Seq<char>, PlistView>, key: Seq<char>) -> Option<
    Seq<PlistView>,
> {
    match value_at(dict, key) {
        Some(PlistView::Array(values)) => Some(values),
        _ => None,
    }
}

/// The first of the first `n` values that is no text.
pub open spec fn first_non_text(values: Seq<PlistView>, n: nat) -> Option<nat>
    decreases n,
{
    if n == 0 {
        None
    } else {
        match first_non_text(values, (n - 1) as nat) {
            Some(i) => Some(i),
            None => if values[n - 1] is Text {
                None
            } else {
                Some((n - 1) as nat)
            },
        }
    }
}

/// The set name and the members that the contents of a `brushset.plist` declare.
pub open spec fn brushset_of(tree: PlistView) -> Result<
    (Option<Seq<char>>, Seq<Seq<char>>),
    Seq<char>,
> {
    match tree {
        PlistView::Dictionary(dict) => match array_at(dict, "brushes"@) {
            Some(values) => match first_non_text(values, values.len()) {
                Some(i) => Err("brushset.plist brushes["@ + decimal(i) + "] is not a string"@),
                None => Ok(
                    (
                        text_at(dict, "name"@),
                        Seq::new(values.len(), |i: int| values[i]->Text_0),
                    ),
                ),
            },
            None => Err("brushset.plist missing brushes array"@),
        },
        _ => Err("brushset.plist root is not a dictionary"@),
    }
}

/// The model of a set's name and members.
pub open spec fn brushset_view(r: Result<(Option<String>, Vec<String>), String>) -> Result<
    (Option<Seq<char>>, Seq<Seq<char>>),
    Seq<char>,
> {
    match r {
        Ok((name, members)) => Ok((text(name), views(members@))),
        Err(e) => Err(e@),
    }
}

fn text_under(dict: &plist::Dictionary, key: &str) -> (r: Option<String>)
    ensures
        text(r) == text_at(entries(*dict), key@),
{
    match entry_of(dict, key) {
        Some(value) => match text_of(value) {
            Some(s) => Some(s.to_owned()),
            None => None,
        },
        None => None,
    }
}

fn array_under<'a>(dict: &'a plist::Dictionary, key: &str) -> (r: Option<&'a Vec<plist::Value>>)
    ensures
        match array_at(entries(*dict), key@) {
            Some(values) => r matches Some(v) && all_contents(v@) == values,
            None => r is None,
        },
{
    match entry_of(dict, key) {
        Some(value) => array_of(value),
        None => None,
    }
}

proof fn first_non_text_stays(values: Seq<PlistView>, m: nat, n: nat)
    requires
        m <= n,
        first_non_text(values, m) is Some,
    ensures
        first_non_text(values, n) == first_non_text(values, m),
    decreases n,
{
    if m < n {
        first_non_text_stays(values, m, (n - 1) as nat);
    }
}

/// The set name and the members that the contents of a `brushset.plist` declare.
pub fn brushset_members(value: &plist::Value) -> (r: Result<(Option<String>, Vec<String>), String>)
    ensures
        brushset_view(r) == brushset_of(contents(*value)),
{
    let dict: &plist::Dictionary = match dictionary_of(value) {
        Some(dict) => dict,
        None => {
            return Err("brushset.plist root is not a dictionary".to_owned());
        },
    };
    let name: Option<String> = text_under(dict, "name");
    let array: &Vec<plist::Value> = match array_under(dict, "brushes") {
        Some(array) => array,
        None => {
            return Err("brushset.plist missing brushes array".to_owned());
        },
    };
    let ghost values = all_contents(array@);
    let mut members: Vec<String> = Vec::new();
    let mut i: usize = 0;
    while i < array.len()
        invariant
            i <= array@.len(),
            values == all_contents(array@),
            members@.len() == i,
            first_non_text(values, i as nat) is None,
            forall|j: int| 0 <= j < i ==> (#[trigger] members@[j])@ == values[j]->Text_0,
            contents(*value) is Dictionary,
            array_at(contents(*value)->Dictionary_0, "brushes"@) == Some(values),
        decreases array@.len() - i,
    {
        assert(values[i as int] == contents(array@[i as int]));
        match text_of(&array[i]) {
            Some(s) => {
                members.push(s.to_owned());
            },
            None => {
                proof {
                    first_non_text_stays(values, (i + 1) as nat, values.len());
                }
                let mut m: String = "brushset.plist brushes[".to_owned();
                push_decimal(&mut m, i as u64);
                m.append("] is not a string");
                return Err(m);
            },
        }
        i += 1;
    }
    assert(views(members@) =~= Seq::new(values.len(), |i: int| values[i]->Text_0));
    Ok((name, members))
}

/// The set name and the members that a `brushset.plist` declares, in its order.
pub fn parse_brushset_plist(bytes: &[u8]) -> (r: Result<(Option<String>, Vec<String>), String>)
    ensures
        brushset_view(r) == (match guarded_plist(bytes@, "brushset.plist"@) {
            Ok(tree) => brushset_of(tree),
            Err(e) => Err(e),
        }),
{
    let value: plist::Value = parse_plist_guarded(bytes, "brushset.plist")?;
    brushset_members(&value)
}

/// The objects of a keyed archive and the settings among them, which are object 1.
pub open spec fn objects_and_main(tree: PlistView) -> Result<
    (Seq<PlistView>, Map<Seq<char>, PlistView>),
    Seq<char>,
> {
    match tree {
        PlistView::Dictionary(root) => match array_at(root, "$objects"@) {
            Some(objects) => if objects.len() > 1 && objects[1] is Dictionary {
                Ok((objects, objects[1]->Dictionary_0))
            } else {
                Err("$objects[1] is not a dictionary"@)
            },
            None => Err("Brush.archive missing $objects array"@),
        },
        _ => Err("Brush.archive root is not a dictionary"@),
    }
}

/// The objects of a keyed archive and the settings among them. Every field of the settings
/// that is no number names one of the objects.
pub fn archive_objects_and_main(value: &plist::Value) -> (r: Result<
    (&[plist::Value], &plist::Dictionary),
    String,
>)
    ensures
        match objects_and_main(contents(*value)) {
            Ok((objects, main)) => r matches Ok(v) && all_contents(v.0@) == objects && entries(
                *v.1,
            ) == main,
            Err(e) => r matches Err(m) && m@ == e,
        },
{
    let root: &plist::Dictionary = match dictionary_of(value) {
        Some(dict) => dict,
        None => {
            return Err("Brush.archive root is not a dictionary".to_owned());
        },
    };
    let objects: &Vec<plist::Value> = match array_under(root, "$objects") {
        Some(array) => array,
        None => {
            return Err("Brush.archive missing $objects array".to_owned());
        },
    };
    assert(all_contents(objects@).len() == objects@.len());
    if objects.len() > 1 {
        assert(all_contents(objects@)[1] == contents(objects@[1]));
        if let Some(main) = dictionary_of(&objects[1]) {
            return Ok((objects.as_slice(), main));
        }
    }
    Err("$objects[1] is not a dictionary".to_owned())
}

/// The text that a field of the settings names. `$null` stands for none.
pub open spec fn resolved_text(
    objects: Seq<PlistView>,
    main: Map<Seq<char>, PlistView>,
    key: Seq<char>,
) -> Option<Seq<char>> {
    match value_at(main, key) {
        Some(PlistView::Uid(uid)) => if uid < objects.len() {
            match objects[uid as int] {
                PlistView::Text(s) => if s == "$null"@ {
                    None
                } else {
                    Some(s)
                },
                _ => None,
            }
        } else {
            None
        },
        _ => None,
    }
}

/// The text that a field of the settings names.
pub fn resolve_string(objects: &[plist::Value], main_dict: &plist::Dictionary, key: &str) -> (r:
    Option<String>)
    ensures
        text(r) == resolved_text(all_contents(objects@), entries(*main_dict), key@),
{
    assert(all_contents(objects@).len() == objects@.len());
    if let Some(value) = entry_of(main_dict, key) {
        if let Some(uid) = uid_of(value) {
            if (uid as u128) < objects.len() as u128 {
                let i: usize = uid as usize;
                assert(all_contents(objects@)[i as int] == contents(objects@[i as int]));
                if let Some(s) = text_of(&objects[i]) {
                    let s: String = s.to_owned();
                    if s != "$null".to_owned() {
                        return Some(s);
                    }
                }
            }
        }
    }
    None
}

/// The name in the contents of a `Brush.archive`, if there is one.
pub open spec fn brush_name_of(tree: PlistView) -> Result<Option<Seq<char>>, Seq<char>> {
    match objects_and_main(tree) {
        Ok((objects, main)) => Ok(resolved_text(objects, main, "name"@)),
        Err(e) => Err(e),
    }
}

/// The name in a `Brush.archive`, if there is one.
pub open spec fn name_in(bytes: Seq<u8>) -> Result<Option<Seq<char>>, Seq<char>> {
    match guarded_plist(bytes, "Brush.archive"@) {
        Ok(tree) => brush_name_of(tree),
        Err(e) => Err(e),
    }
}

/// The name in the contents of a `Brush.archive`, if there is one.
pub fn name_of_archive(value: &plist::Value) -> (r: Result<Option<String>, String>)
    ensures
        match brush_name_of(contents(*value)) {
            Ok(name) => r matches Ok(v) && text(v) == name,
            Err(e) => r matches Err(m) && m@ == e,
        },
{
    let (objects, main) = archive_objects_and_main(value)?;
    Ok(resolve_string(objects, main, "name"))
}

/// The name in a `Brush.archive`, if there is one.
pub fn brush_name(archive_bytes: &[u8]) -> (r: Result<Option<String>, String>)
    ensures
        match name_in(archive_bytes@) {
            Ok(name) => r matches Ok(v) && text(v) == name,
            Err(e) => r matches Err(m) && m@ == e,
        },
{
    let value: plist::Value = parse_plist_guarded(archive_bytes, "Brush.archive")?;
    name_of_archive(&value)
}

/// The directory that an entry name makes a member: the name ends with `/Brush.archive`,
/// and what comes before is not empty and holds no slash.
pub open spec fn member_of(name: Seq<char>) -> Option<Seq<char>> {
    let suffix = "/Brush.archive"@;
    let n = name.len() - suffix.len();
    if n > 0 && name.skip(n) == suffix && !name.take(n).contains('/') {
        Some(name.take(n))
    } else {
        None
    }
}

fn has_slash(s: &str) -> (r: bool)
    ensures
        r == s@.contains('/'),
{
    let mut found: bool = false;
    for c in it: s.chars()
        invariant
            it.seq() == s@,
            found == s@.take(it.index() as int).contains('/'),
    {
        proof {
            let before = s@.take(it.index() as int);
            let now = s@.take(it.index() + 1);
            assert(now =~= before.push(c));
            if before.contains('/') {
                let j = choose|j: int| 0 <= j < before.len() && before[j] == '/';
                assert(now[j] == '/');
            }
            if c == '/' {
                assert(now[before.len() as int] == '/');
            }
            if now.contains('/') {
                let j = choose|j: int| 0 <= j < now.len() && now[j] == '/';
                if j < before.len() {
                    assert(before[j] == '/');
                }
            }
        }
        if c == '/' {
            found = true;
        }
    }
    assert(s@.take(s@.len() as int) =~= s@);
    found
}

/// The directory that an entry name makes a member.
pub fn member_name(name: &str) -> (r: Option<String>)
    ensures
        text(r) == member_of(name@),
{
    let suffix: &str = "/Brush.archive";
    let len: usize = name.unicode_len();
    let tail: usize = suffix.unicode_len();
    if len <= tail {
        return None;
    }
    let n: usize = len - tail;
    let end: &str = name.substring_char(n, len);
    assert(end@ =~= name@.skip(n as int));
    if end.to_owned() != suffix.to_owned() {
        return None;
    }
    let dir: &str = name.substring_char(0, n);
    assert(dir@ =~= name@.take(n as int));
    if has_slash(dir) {
        return None;
    }
    Some(dir.to_owned())
}

/// The members among the first `n` entries of an archive.
pub open spec fn members_below(file: Seq<u8>, n: nat) -> Seq<Seq<char>>
    decreases n,
{
    if n == 0 {
        seq![]
    } else {
        let before = members_below(file, (n - 1) as nat);
        match entry_name_of(file, (n - 1) as nat) {
            Some(name) => match member_of(name) {
                Some(dir) => before.push(dir),
                None => before,
            },
            None => before,
        }
    }
}

/// The members of a set without a `brushset.plist`: every directory `d` with an entry
/// `d/Brush.archive`, in the order of the archive's directory.
pub fn members_in_zip_order(zip: &mut Zip<'_>) -> (r: Vec<String>)
    ensures
        views(r@) == members_below(
            archive_file(*old(zip)),
            entry_count_of(archive_file(*old(zip))),
        ),
        *final(zip) == *old(zip),
{
    let ghost file = archive_file(*zip);
    let count: usize = entry_count(zip);
    let mut members: Vec<String> = Vec::new();
    assert(views(members@) =~= seq![]);
    let mut i: usize = 0;
    while i < count
        invariant
            i <= count,
            *zip == *old(zip),
            file == archive_file(*zip),
            views(members@) == members_below(file, i as nat),
        decreases count - i,
    {
        if let Some(name) = entry_name(zip, i) {
            if let Some(dir) = member_name(name) {
                let ghost before = members@;
                members.push(dir);
                assert(views(members@) =~= views(before).push(dir@));
            }
        }
        i += 1;
    }
    members
}

/// Why a `Shape.png` is no tip.
#[derive(Debug, Clone, PartialEq, Eq)]
pub enum ShapePngError {
    TooLarge { width: u32, height: u32 },
    Corrupt(String),
}

impl ShapePngError {
    /// The error in words.
    pub open spec fn message_text(self) -> Seq<char> {
        match self {
            ShapePngError::TooLarge { width, height } => "Shape.png is "@ + decimal(width as nat)
                + "x"@ + decimal(height as nat)
                + "px; the maximum supported brush-tip dimension is "@ + decimal(
                MAX_PNG_DIMENSION as nat,
            ) + "px"@,
            ShapePngError::Corrupt(reason) => reason@,
        }
    }

    /// The error in words.
    pub fn message(&self) -> (r: String)
        ensures
            r@ == self.message_text(),
    {
        match self {
            ShapePngError::TooLarge { width, height } => {
                let mut m: String = "Shape.png is ".to_owned();
                push_decimal(&mut m, *width as u64);
                m.append("x");
                push_decimal(&mut m, *height as u64);
                m.append("px; the maximum supported brush-tip dimension is ");
                push_decimal(&mut m, MAX_PNG_DIMENSION as u64);
                m.append("px");
                m
            },
            ShapePngError::Corrupt(reason) => reason.clone(),
        }
    }
}

/// Is `r` the tip of a decoded shape, or of the error that came instead?
pub open spec fn shape_of(
    decoded: Result<DecodedImage, GuardedDecodeError>,
    r: Result<GrayscaleBitmap, ShapePngError>,
) -> bool {
    match decoded {
        Ok(img) => r matches Ok(b) && b@ == (BitmapView {
            width: img.width,
            height: img.height,
            data: plane_of(img.format, img.bytes@, TipSample::Luma),
        }),
        Err(GuardedDecodeError::TooLarge { width, height }) => r == Err::<
            GrayscaleBitmap,
            ShapePngError,
        >(ShapePngError::TooLarge { width, height }),
        Err(GuardedDecodeError::Decode(reason)) => r matches Err(ShapePngError::Corrupt(m)) && m@
            == "failed to decode Shape.png: "@ + reason@,
    }
}

/// The tip of a decoded shape: its luma, as white is full ink.
pub fn shape_bitmap(decoded: Result<DecodedImage, GuardedDecodeError>) -> (r: Result<
    GrayscaleBitmap,
    ShapePngError,
>)
    ensures
        shape_of(decoded, r),
{
    match decoded {
        Ok(img) => {
            let width: u32 = img.width;
            let height: u32 = img.height;
            Ok(GrayscaleBitmap { width, height, data: tip_plane(img, TipSample::Luma) })
        },
        Err(GuardedDecodeError::TooLarge { width, height }) => Err(
            ShapePngError::TooLarge { width, height },
        ),
        Err(GuardedDecodeError::Decode(reason)) => {
            let mut m: String = "failed to decode Shape.png: ".to_owned();
            m.append(reason.as_str());
            Err(ShapePngError::Corrupt(m))
        },
    }
}

/// Can `r` be the tip of a shape with these bytes?
pub open spec fn shape_result(bytes: Seq<u8>, r: Result<GrayscaleBitmap, ShapePngError>) -> bool {
    exists|decoded: Result<DecodedImage, GuardedDecodeError>|
        guarded(bytes, MAX_PNG_DIMENSION, MAX_ENTRY_BYTES as u64, decoded) && shape_of(decoded, r)
}

/// A `Shape.png` as a tip. Whether it is too large is decided before pixels are decoded.
pub fn decode_tip_png(bytes: &[u8]) -> (r: Result<GrayscaleBitmap, ShapePngError>)
    ensures
        shape_result(bytes@, r),
        r matches Ok(b) ==> b@.wf(),
{
    let decoded: Result<DecodedImage, GuardedDecodeError> = decode_guarded(
        bytes,
        MAX_PNG_DIMENSION,
        MAX_ENTRY_BYTES as u64,
    );
    let ghost first = decoded;
    let r: Result<GrayscaleBitmap, ShapePngError> = shape_bitmap(decoded);
    proof {
        assert(guarded(bytes@, MAX_PNG_DIMENSION, MAX_ENTRY_BYTES as u64, first) && shape_of(
            first,
            r,
        ));
        if let Ok(img) = first {
            plane_is_sized(img@);
        }
    }
    r
}

} // verus!
