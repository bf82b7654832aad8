//! The calls into `zip` and `plist` that read Procreate's archives.
//!
//! What comes of them depends on the bytes of the file alone.
use vstd::prelude::*;
use crate::preview::procreate::first_fault;
use std::io::{Cursor, Read};

verus! {

/// A reader of std over bytes in memory.
#[verifier::external_type_specification]
#[verifier::external_body]
#[verifier::reject_recursive_types(T)]
pub struct ExCursor<T>(Cursor<T>);

/// An archive of the `zip` crate.
#[verifier::external_type_specification]
#[verifier::external_body]
#[verifier::reject_recursive_types(R)]
pub struct ExZipArchive<R>(zip::ZipArchive<R>);

/// The file that an archive was opened on.
pub uninterp spec fn archive_file(zip: zip::ZipArchive<Cursor<&[u8]>>) -> Seq<u8>;

/// The words of the error with which a file is no zip archive; nothing where it is one.
pub uninterp spec fn zip_error_of(file: Seq<u8>) -> Option<Seq<char>>;

/// `zip::ZipArchive::new`: whether a file is an archive depends on its bytes alone.
#[verifier::external_body]
pub(crate) fn open_archive(file: &[u8]) -> (r: Result<zip::ZipArchive<Cursor<&[u8]>>, String>)
    ensures
        match r {
            Ok(zip) => zip_error_of(file@) is None && archive_file(zip) == file@,
            Err(e) => zip_error_of(file@) == Some(e@),
        },
{
    match zip::ZipArchive::new(Cursor::new(file)) {
        Ok(zip) => Ok(zip),
        Err(e) => Err(e.to_string()),
    }
}

/// The declared size of the entry at a path of an archive, if there is one.
pub uninterp spec fn entry_size_of(file: Seq<u8>, path: Seq<char>) -> Option<u64>;

/// `zip::ZipArchive::by_name` and `zip::read::ZipFile::size`: nothing where the entry is
/// not found or cannot be opened. The archive stays on its file.
#[verifier::external_body]
pub(crate) fn entry_size(zip: &mut zip::ZipArchive<Cursor<&[u8]>>, path: &str) -> (r: Option<u64>)
    ensures
        r == entry_size_of(archive_file(*old(zip)), path@),
        archive_file(*final(zip)) == archive_file(*old(zip)),
{
    match zip.by_name(path) {
        Ok(entry) => Some(entry.size()),
        Err(_) => None,
    }
}

/// At most `limit` bytes from the front of the entry at a path of an archive, or the words
/// of the error that comes before so many are read; nothing where the entry cannot be
/// opened.
pub uninterp spec fn entry_front_of(file: Seq<u8>, path: Seq<char>, limit: nat) -> Option<
    Result<Seq<u8>, Seq<char>>,
>;

/// The model of a result.
pub open spec fn result_view(r: Result<Vec<u8>, String>) -> Result<Seq<u8>, Seq<char>> {
    match r {
        Ok(v) => Ok(v@),
        Err(e) => Err(e@),
    }
}

/// `zip::ZipArchive::by_name`, read to its end behind `Read::take(limit)`. The archive
/// stays on its file.
#[verifier::external_body]
pub(crate) fn entry_front(
    zip: &mut zip::ZipArchive<Cursor<&[u8]>>,
    path: &str,
    limit: u64,
) -> (r: Option<Result<Vec<u8>, String>>)
    ensures
        match r {
            Some(out) => entry_front_of(archive_file(*old(zip)), path@, limit as nat) == Some(
                result_view(out),
            ),
            None => entry_front_of(archive_file(*old(zip)), path@, limit as nat) is None,
        },
        archive_file(*final(zip)) == archive_file(*old(zip)),
{
    match zip.by_name(path) {
        Ok(entry) => {
            let mut data = Vec::new();
            match entry.take(limit).read_to_end(&mut data) {
                Ok(_) => Some(Ok(data)),
                Err(e) => Some(Err(e.to_string())),
            }
        },
        Err(_) => None,
    }
}

/// The number of entries of an archive.
pub uninterp spec fn entry_count_of(file: Seq<u8>) -> nat;

/// `zip::ZipArchive::len`.
#[verifier::external_body]
pub(crate) fn entry_count(zip: &zip::ZipArchive<Cursor<&[u8]>>) -> (r: usize)
    ensures
        r == entry_count_of(archive_file(*zip)),
{
    zip.len()
}

/// The name of entry `i` of an archive, in the order of its directory.
pub uninterp spec fn entry_name_of(file: Seq<u8>, i: nat) -> Option<Seq<char>>;

/// `zip::ZipArchive::name_for_index`.
#[verifier::external_body]
pub(crate) fn entry_name<'a>(zip: &'a zip::ZipArchive<Cursor<&[u8]>>, i: usize) -> (r: Option<
    &'a str,
>)
    ensures
        match r {
            Some(name) => entry_name_of(archive_file(*zip), i as nat) == Some(name@),
            None => entry_name_of(archive_file(*zip), i as nat) is None,
        },
{
    zip.name_for_index(i)
}

/// An event of a property list that is read as a stream.
#[derive(Debug)]
pub enum PlistEvent {
    /// An array or a dictionary starts.
    Start,
    /// The innermost one ends.
    End,
    /// A value that holds no others.
    Leaf,
    /// The list cannot be read further, for this reason.
    Failed(String),
}

/// The model of a [`PlistEvent`].
pub enum EventView {
    Start,
    End,
    Leaf,
    Failed(Seq<char>),
}

impl View for PlistEvent {
    type V = EventView;

    open spec fn view(&self) -> EventView {
        match *self {
            PlistEvent::Start => EventView::Start,
            PlistEvent::End => EventView::End,
            PlistEvent::Leaf => EventView::Leaf,
            PlistEvent::Failed(reason) => EventView::Failed(reason@),
        }
    }
}

/// The events of a property list that are still to be read.
#[verifier::external_body]
pub struct PlistEvents<'a> {
    reader: plist::stream::Reader<Cursor<&'a [u8]>>,
}

/// The events that are still to be read.
pub uninterp spec fn events_left(events: PlistEvents<'_>) -> Seq<EventView>;

/// Was a failure read, behind which there is nothing to read?
pub uninterp spec fn events_failed(events: PlistEvents<'_>) -> bool;

/// The events of a property list, in order, up to the first failure.
pub uninterp spec fn events_of(bytes: Seq<u8>) -> Seq<EventView>;

/// `plist::stream::Reader::new`: the events depend on the bytes alone.
#[verifier::external_body]
pub(crate) fn open_events(bytes: &[u8]) -> (r: PlistEvents<'_>)
    ensures
        events_left(r) == events_of(bytes@),
        !events_failed(r),
{
    PlistEvents { reader: plist::stream::Reader::new(Cursor::new(bytes)) }
}

/// `Iterator::next` of a `plist::stream::Reader`: the first event that is left, if there is
/// one. The others are then left. It may panic behind a failure.
#[verifier::external_body]
pub(crate) fn next_event(events: &mut PlistEvents<'_>) -> (r: Option<PlistEvent>)
    requires
        !events_failed(*old(events)),
    ensures
        events_failed(*final(events)) <==> (r matches Some(PlistEvent::Failed(_))),
        match r {
            Some(event) => {
                &&& events_left(*old(events)).len() > 0
                &&& event@ == events_left(*old(events))[0]
                &&& events_left(*final(events)) == events_left(*old(events)).drop_first()
            },
            None => events_left(*old(events)).len() == 0,
        },
{
    match events.reader.next()? {
        Ok(plist::stream::Event::StartArray(_)) => Some(PlistEvent::Start),
        Ok(plist::stream::Event::StartDictionary(_)) => Some(PlistEvent::Start),
        Ok(plist::stream::Event::EndCollection) => Some(PlistEvent::End),
        Ok(_) => Some(PlistEvent::Leaf),
        Err(e) => Some(PlistEvent::Failed(e.to_string())),
    }
}

/// A value of the `plist` crate.
#[verifier::external_type_specification]
#[verifier::external_body]
pub struct ExPlistValue(plist::Value);

/// A dictionary of the `plist` crate.
#[verifier::external_type_specification]
#[verifier::external_body]
pub struct ExPlistDictionary(plist::Dictionary);

/// The contents of a property list.
pub enum PlistView {
    Dictionary(Map<Seq<char>, PlistView>),
    Array(Seq<PlistView>),
    Text(Seq<char>),
    Uid(u64),
    Other,
}

/// The contents of a value.
pub uninterp spec fn contents(value: plist::Value) -> PlistView;

/// The contents of the values of a dictionary, by key.
pub uninterp spec fn entries(dict: plist::Dictionary) -> Map<Seq<char>, PlistView>;

/// The contents of values.
pub open spec fn all_contents(values: Seq<plist::Value>) -> Seq<PlistView> {
    Seq::new(values.len(), |i: int| contents(values[i]))
}

/// The contents of a property list, or the words of an error.
pub uninterp spec fn plist_of(bytes: Seq<u8>) -> Result<PlistView, Seq<char>>;

/// `plist::Value::from_reader`: the value depends on the bytes alone. A list that is nested
/// deeply is left out: to drop its value takes as much stack.
#[verifier::external_body]
pub(crate) fn read_plist(bytes: &[u8]) -> (r: Result<plist::Value, String>)
    requires
        first_fault(events_of(bytes@), 0) is None,
    ensures
        match r {
            Ok(value) => plist_of(bytes@) == Ok::<PlistView, Seq<char>>(contents(value)),
            Err(e) => plist_of(bytes@) == Err::<PlistView, Seq<char>>(e@),
        },
{
    match plist::Value::from_reader(Cursor::new(bytes)) {
        Ok(value) => Ok(value),
        Err(e) => Err(e.to_string()),
    }
}

/// `plist::Value::as_dictionary`.
#[verifier::external_body]
pub(crate) fn dictionary_of(value: &plist::Value) -> (r: Option<&plist::Dictionary>)
    ensures
        match r {
            Some(dict) => contents(*value) == PlistView::Dictionary(entries(*dict)),
            None => !(contents(*value) is Dictionary),
        },
{
    value.as_dictionary()
}

/// `plist::Value::as_array`.
#[verifier::external_body]
pub(crate) fn array_of(value: &plist::Value) -> (r: Option<&Vec<plist::Value>>)
    ensures
        match r {
            Some(array) => contents(*value) == PlistView::Array(all_contents(array@)),
            None => !(contents(*value) is Array),
        },
{
    value.as_array()
}

/// `plist::Value::as_string`.
#[verifier::external_body]
pub(crate) fn text_of(value: &plist::Value) -> (r: Option<&str>)
    ensures
        match r {
            Some(s) => contents(*value) == PlistView::Text(s@),
            None => !(contents(*value) is Text),
        },
{
    value.as_string()
}

/// `plist::Value::as_uid` and `plist::Uid::get`.
#[verifier::external_body]
pub(crate) fn uid_of(value: &plist::Value) -> (r: Option<u64>)
    ensures
        match r {
            Some(uid) => contents(*value) == PlistView::Uid(uid),
            None => !(contents(*value) is Uid),
        },
{
    value.as_uid().map(|uid| uid.get())
}

/// `plist::Dictionary::get`.
#[verifier::external_body]
pub(crate) fn entry_of<'a>(dict: &'a plist::Dictionary, key: &str) -> (r: Option<&'a plist::Value>)
    ensures
        match r {
            Some(value) => entries(*dict).contains_key(key@) && entries(*dict)[key@] == contents(
                *value,
            ),
            None => !entries(*dict).contains_key(key@),
        },
{
    dict.get(key)
}

} // verus!
