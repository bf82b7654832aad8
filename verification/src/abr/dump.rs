//! Every item of a `desc` block, as it stands there.
//!
//! Where an item cannot be read, what was read before it stands. A value of an unknown
//! type ends the walk, because nothing says where it ends.
use vstd::prelude::*;
use crate::abr::descriptor::{
    bytes_read, double_read, enum_read, flag_read, i32_read, item_head, object_head, raw_read,
    read_bytes, read_double, read_enum, read_flag, read_i32, read_item_head, read_object_head,
    read_raw, read_u32, read_unicode_string, tag_bytes, tag_text, u32_read, unicode_read, DescError,
    Read, MAX_DESCRIPTOR_DEPTH, TAG_BOOL, TAG_DOUB, TAG_ENUM, TAG_LONG, TAG_OBJC, TAG_TDTA,
    TAG_TEXT, TAG_UNTF, TAG_VLLS,
};
use crate::abr::preset::{read_root_head, root_head};
use crate::support::bytes::{same_bytes, ByteReader};
use crate::support::double::Double;
use crate::support::text::{ascii, utf8_lossy, utf8_lossy_text, views};

verus! {

/// Everything that a `desc` block holds.
#[derive(Debug)]
pub struct DescriptorDump {
    pub presets: Vec<PresetDump>,
    /// Where a value of an unknown type ended the walk.
    pub unknown_type_stop: Option<UnknownTypeStop>,
}

/// Where a value of an unknown type ended the walk.
#[derive(Debug)]
pub struct UnknownTypeStop {
    pub preset_index: usize,
    pub depth: usize,
    pub key: String,
    pub tag: String,
}

/// A preset, or another item of the root object or element of its list. Presets are numbered
/// as in the preset list, and the others behind them.
#[derive(Debug)]
pub struct PresetDump {
    pub index: usize,
    pub items: Vec<DumpItem>,
}

/// An item: its key, type and value, and how deep it stands.
#[derive(Debug)]
pub struct DumpItem {
    pub key: String,
    pub type_tag: String,
    pub depth: usize,
    pub value: DumpValue,
}

/// A value by its type.
#[derive(Debug)]
pub enum DumpValue {
    Bool(bool),
    Long(i32),
    Doub(Double),
    Text(String),
    Enum { enum_type: String, enum_value: String },
    UnitFloat { unit: String, number: Double },
    List(Vec<DumpValue>),
    Objc { class_id: String, items: Vec<DumpItem> },
    Tdta { tdta_len: usize },
    Unknown { tag: String },
}

/// The model of a [`DumpItem`].
pub struct ItemView {
    pub key: Seq<char>,
    pub type_tag: Seq<char>,
    pub depth: nat,
    pub value: ValueView,
}

/// The model of a [`DumpValue`].
pub enum ValueView {
    Bool(bool),
    Long(i32),
    Doub(Double),
    Text(Seq<char>),
    Enum { enum_type: Seq<char>, enum_value: Seq<char> },
    UnitFloat { unit: Seq<char>, number: Double },
    List(Seq<ValueView>),
    Objc { class_id: Seq<char>, items: Seq<ItemView> },
    Tdta { tdta_len: nat },
    Unknown { tag: Seq<char> },
}

pub open spec fn value_view(v: DumpValue) -> ValueView
    decreases v,
{
    match v {
        DumpValue::Bool(b) => ValueView::Bool(b),
        DumpValue::Long(n) => ValueView::Long(n),
        DumpValue::Doub(n) => ValueView::Doub(n),
        DumpValue::Text(s) => ValueView::Text(s@),
        DumpValue::Enum { enum_type, enum_value } => ValueView::Enum {
            enum_type: enum_type@,
            enum_value: enum_value@,
        },
        DumpValue::UnitFloat { unit, number } => ValueView::UnitFloat { unit: unit@, number },
        DumpValue::List(list) => ValueView::List(
            Seq::new(
                list@.len(),
                |i: int|
                    if 0 <= i < list@.len() {
                        value_view(list@[i])
                    } else {
                        arbitrary()
                    },
            ),
        ),
        DumpValue::Objc { class_id, items } => ValueView::Objc {
            class_id: class_id@,
            items: Seq::new(
                items@.len(),
                |i: int|
                    if 0 <= i < items@.len() {
                        item_view(items@[i])
                    } else {
                        arbitrary()
                    },
            ),
        },
        DumpValue::Tdta { tdta_len } => ValueView::Tdta { tdta_len: tdta_len as nat },
        DumpValue::Unknown { tag } => ValueView::Unknown { tag: tag@ },
    }
}

pub open spec fn item_view(item: DumpItem) -> ItemView
    decreases item,
{
    ItemView {
        key: item.key@,
        type_tag: item.type_tag@,
        depth: item.depth as nat,
        value: value_view(item.value),
    }
}

pub open spec fn value_views(list: Seq<DumpValue>) -> Seq<ValueView> {
    Seq::new(list.len(), |i: int| value_view(list[i]))
}

pub open spec fn item_views(items: Seq<DumpItem>) -> Seq<ItemView> {
    Seq::new(items.len(), |i: int| item_view(items[i]))
}

impl View for DumpValue {
    type V = ValueView;

    open spec fn view(&self) -> ValueView {
        value_view(*self)
    }
}

impl View for DumpItem {
    type V = ItemView;

    open spec fn view(&self) -> ItemView {
        item_view(*self)
    }
}

/// The model of an [`UnknownTypeStop`].
pub struct StopView {
    pub preset_index: nat,
    pub depth: nat,
    pub key: Seq<char>,
    pub tag: Seq<char>,
}

impl View for UnknownTypeStop {
    type V = StopView;

    open spec fn view(&self) -> StopView {
        StopView {
            preset_index: self.preset_index as nat,
            depth: self.depth as nat,
            key: self.key@,
            tag: self.tag@,
        }
    }
}

pub open spec fn stop_view(stop: Option<UnknownTypeStop>) -> Option<StopView> {
    match stop {
        Some(s) => Some(s@),
        None => None,
    }
}

/// The text of a tag.
pub open spec fn tag_chars(tag: u32) -> Seq<char> {
    utf8_lossy_text(tag_bytes(tag))
}

/// What a read gives, and whether a value of an unknown type ended the walk there.
pub type Walked<T> = Read<(T, Option<StopView>)>;

/// A value that did not end the walk.
pub open spec fn plain<T>(read: Read<T>, f: spec_fn(T) -> ValueView) -> Walked<ValueView> {
    match read {
        (Ok(v), q) => (Ok((f(v), None)), q),
        (Err(e), q) => (Err(e), q),
    }
}

/// A unit and a number.
pub open spec fn unit_number_read(d: Seq<u8>, p: nat) -> Read<(Seq<u8>, Double)> {
    match bytes_read(d, p, 4) {
        (Ok(unit), q) => match double_read(d, q) {
            (Ok(number), q) => (Ok((unit, number)), q),
            (Err(e), q) => (Err(e), q),
        },
        (Err(e), q) => (Err(e), q),
    }
}

/// The value of type `tag` under `key`, at `depth` in preset `index`.
pub open spec fn dump_value(
    d: Seq<u8>,
    p: nat,
    tag: u32,
    depth: nat,
    key: Seq<u8>,
    index: nat,
) -> Walked<ValueView>
    decreases MAX_DESCRIPTOR_DEPTH + 1 - depth, 0nat,
{
    if depth > MAX_DESCRIPTOR_DEPTH {
        (Err(DescError::TooDeep), p)
    } else if tag == TAG_BOOL {
        plain(flag_read(d, p), |v: bool| ValueView::Bool(v))
    } else if tag == TAG_LONG {
        plain(i32_read(d, p), |v: i32| ValueView::Long(v))
    } else if tag == TAG_DOUB {
        plain(double_read(d, p), |v: Double| ValueView::Doub(v))
    } else if tag == TAG_TEXT {
        plain(unicode_read(d, p), |v: Seq<char>| ValueView::Text(v))
    } else if tag == TAG_ENUM {
        plain(
            enum_read(d, p),
            |v: (Seq<u8>, Seq<u8>)|
                ValueView::Enum {
                    enum_type: utf8_lossy_text(v.0),
                    enum_value: utf8_lossy_text(v.1),
                },
        )
    } else if tag == TAG_UNTF {
        plain(
            unit_number_read(d, p),
            |v: (Seq<u8>, Double)|
                ValueView::UnitFloat { unit: utf8_lossy_text(v.0), number: v.1 },
        )
    } else if tag == TAG_VLLS {
        match u32_read(d, p) {
            (Ok(count), q) => match dump_elements(
                d,
                q,
                count as nat,
                depth + 1,
                key,
                index,
                seq![],
            ) {
                (Ok((list, stop)), q) => (Ok((ValueView::List(list), stop)), q),
                (Err(e), q) => (Err(e), q),
            },
            (Err(e), q) => (Err(e), q),
        }
    } else if tag == TAG_OBJC {
        match object_head(d, p) {
            (Ok((class, count)), q) => match dump_items(
                d,
                q,
                count as nat,
                depth + 1,
                index,
                seq![],
            ) {
                (Ok((items, stop)), q) => (
                    Ok((ValueView::Objc { class_id: utf8_lossy_text(class), items }, stop)),
                    q,
                ),
                (Err(e), q) => (Err(e), q),
            },
            (Err(e), q) => (Err(e), q),
        }
    } else if tag == TAG_TDTA {
        plain(raw_read(d, p), |v: Seq<u8>| ValueView::Tdta { tdta_len: v.len() })
    } else {
        (
            Ok(
                (
                    ValueView::Unknown { tag: tag_chars(tag) },
                    Some(
                        StopView {
                            preset_index: index,
                            depth,
                            key: utf8_lossy_text(key),
                            tag: tag_chars(tag),
                        },
                    ),
                ),
            ),
            p,
        )
    }
}

/// `n` list elements, behind those in `done`.
pub open spec fn dump_elements(
    d: Seq<u8>,
    p: nat,
    n: nat,
    depth: nat,
    key: Seq<u8>,
    index: nat,
    done: Seq<ValueView>,
) -> Walked<Seq<ValueView>>
    decreases MAX_DESCRIPTOR_DEPTH + 1 - depth, n + 1,
{
    if n == 0 {
        (Ok((done, None)), p)
    } else {
        match u32_read(d, p) {
            (Ok(tag), q) => match dump_value(d, q, tag, depth, key, index) {
                (Ok((v, Some(stop))), q) => (Ok((done.push(v), Some(stop))), q),
                (Ok((v, None)), q) => dump_elements(
                    d,
                    q,
                    (n - 1) as nat,
                    depth,
                    key,
                    index,
                    done.push(v),
                ),
                (Err(e), q) => (Err(e), q),
            },
            (Err(e), q) => (Err(e), q),
        }
    }
}

/// `n` items, behind those in `done`.
pub open spec fn dump_items(
    d: Seq<u8>,
    p: nat,
    n: nat,
    depth: nat,
    index: nat,
    done: Seq<ItemView>,
) -> Walked<Seq<ItemView>>
    decreases MAX_DESCRIPTOR_DEPTH + 1 - depth, n + 1,
{
    if n == 0 {
        (Ok((done, None)), p)
    } else {
        match item_head(d, p) {
            (Ok((key, tag)), q) => match dump_value(d, q, tag, depth, key, index) {
                (Ok((value, stop)), q) => {
                    let item = ItemView {
                        key: utf8_lossy_text(key),
                        type_tag: tag_chars(tag),
                        depth,
                        value,
                    };
                    if stop is Some {
                        (Ok((done.push(item), stop)), q)
                    } else {
                        dump_items(d, q, (n - 1) as nat, depth, index, done.push(item))
                    }
                },
                (Err(e), q) => (Err(e), q),
            },
            (Err(e), q) => (Err(e), q),
        }
    }
}

/// The result and the stop are as `expected` says.
pub open spec fn walks<T: View>(
    before: ByteReader<'_>,
    then: ByteReader<'_>,
    out: Result<T, DescError>,
    stop: Option<UnknownTypeStop>,
    expected: Walked<T::V>,
) -> bool {
    &&& then.wf()
    &&& then.data == before.data
    &&& expected.1 == then.pos
    &&& match out {
        Ok(v) => expected.0 == Ok::<_, DescError>((v@, stop_view(stop))),
        Err(e) => expected.0 == Err::<(T::V, Option<StopView>), DescError>(e) && stop is None,
    }
}

fn read_unit_number(r: &mut ByteReader<'_>) -> (o: Result<(String, Double), DescError>)
    requires
        old(r).wf(),
    ensures
        final(r).wf(),
        final(r).data == old(r).data,
        ({
            let expected = unit_number_read(old(r).data@, old(r).pos as nat);
            &&& expected.1 == final(r).pos
            &&& match expected.0 {
                Ok((unit, number)) => o matches Ok(v) && v.0@ == utf8_lossy_text(unit) && v.1
                    == number,
                Err(e) => o == Err::<(String, Double), DescError>(e),
            }
        }),
{
    let unit: &[u8] = read_bytes(r, 4)?;
    let number: Double = read_double(r)?;
    Ok((utf8_lossy(unit), number))
}

/// A value that holds no other values, if the type is that of one.
pub open spec fn is_leaf(tag: u32) -> bool {
    tag != TAG_VLLS && tag != TAG_OBJC
}

fn read_leaf(
    r: &mut ByteReader<'_>,
    tag: u32,
    depth: usize,
    key: &[u8],
    index: usize,
    stop: &mut Option<UnknownTypeStop>,
) -> (o: Result<DumpValue, DescError>)
    requires
        old(r).wf(),
        *old(stop) is None,
        depth <= MAX_DESCRIPTOR_DEPTH,
        is_leaf(tag),
    ensures
        walks(
            *old(r),
            *final(r),
            o,
            *final(stop),
            dump_value(old(r).data@, old(r).pos as nat, tag, depth as nat, key@, index as nat),
        ),
{
    if tag == TAG_BOOL {
        Ok(DumpValue::Bool(read_flag(r)?))
    } else if tag == TAG_LONG {
        Ok(DumpValue::Long(read_i32(r)?))
    } else if tag == TAG_DOUB {
        Ok(DumpValue::Doub(read_double(r)?))
    } else if tag == TAG_TEXT {
        Ok(DumpValue::Text(read_unicode_string(r)?))
    } else if tag == TAG_ENUM {
        let (kind, value) = read_enum(r)?;
        Ok(DumpValue::Enum { enum_type: utf8_lossy(kind), enum_value: utf8_lossy(value) })
    } else if tag == TAG_UNTF {
        let (unit, number) = read_unit_number(r)?;
        Ok(DumpValue::UnitFloat { unit, number })
    } else if tag == TAG_TDTA {
        let raw: &[u8] = read_raw(r)?;
        Ok(DumpValue::Tdta { tdta_len: raw.len() })
    } else {
        *stop = Some(
            UnknownTypeStop {
                preset_index: index,
                depth,
                key: utf8_lossy(key),
                tag: tag_text(tag),
            },
        );
        Ok(DumpValue::Unknown { tag: tag_text(tag) })
    }
}

fn read_value(
    r: &mut ByteReader<'_>,
    tag: u32,
    depth: usize,
    key: &[u8],
    index: usize,
    stop: &mut Option<UnknownTypeStop>,
) -> (o: Result<DumpValue, DescError>)
    requires
        old(r).wf(),
        *old(stop) is None,
    ensures
        walks(
            *old(r),
            *final(r),
            o,
            *final(stop),
            dump_value(old(r).data@, old(r).pos as nat, tag, depth as nat, key@, index as nat),
        ),
    decreases MAX_DESCRIPTOR_DEPTH + 1 - depth, 0nat,
{
    if depth > MAX_DESCRIPTOR_DEPTH {
        return Err(DescError::TooDeep);
    }
    if tag == TAG_VLLS {
        let count: u32 = read_u32(r)?;
        let list: Vec<DumpValue> = read_elements(r, count, depth + 1, key, index, stop)?;
        let value: DumpValue = DumpValue::List(list);
        assert(value@->List_0 =~= value_views(list@));
        return Ok(value);
    }
    if tag == TAG_OBJC {
        let (class, count) = read_object_head(r)?;
        let items: Vec<DumpItem> = read_items(r, count, depth + 1, index, stop)?;
        let value: DumpValue = DumpValue::Objc { class_id: utf8_lossy(class), items };
        assert(value@->items =~= item_views(items@));
        return Ok(value);
    }
    read_leaf(r, tag, depth, key, index, stop)
}

fn read_elements(
    r: &mut ByteReader<'_>,
    count: u32,
    depth: usize,
    key: &[u8],
    index: usize,
    stop: &mut Option<UnknownTypeStop>,
) -> (o: Result<Vec<DumpValue>, DescError>)
    requires
        old(r).wf(),
        *old(stop) is None,
        depth <= MAX_DESCRIPTOR_DEPTH + 1,
    ensures
        final(r).wf(),
        final(r).data == old(r).data,
        ({
            let expected = dump_elements(
                old(r).data@,
                old(r).pos as nat,
                count as nat,
                depth as nat,
                key@,
                index as nat,
                seq![],
            );
            &&& expected.1 == final(r).pos
            &&& match o {
                Ok(v) => expected.0 == Ok::<_, DescError>(
                    (value_views(v@), stop_view(*final(stop))),
                ),
                Err(e) => expected.0 == Err::<(Seq<ValueView>, Option<StopView>), DescError>(e)
                    && *final(stop) is None,
            }
        }),
    decreases MAX_DESCRIPTOR_DEPTH + 1 - depth, 1nat,
{
    let mut list: Vec<DumpValue> = Vec::new();
    assert(value_views(list@) =~= seq![]);
    let mut i: u32 = 0;
    while i < count
        invariant
            i <= count,
            r.wf(),
            r.data == old(r).data,
            *stop is None,
            depth <= MAX_DESCRIPTOR_DEPTH + 1,
            dump_elements(
                old(r).data@,
                old(r).pos as nat,
                count as nat,
                depth as nat,
                key@,
                index as nat,
                seq![],
            ) == dump_elements(
                r.data@,
                r.pos as nat,
                (count - i) as nat,
                depth as nat,
                key@,
                index as nat,
                value_views(list@),
            ),
        decreases count - i,
    {
        let tag: u32 = read_u32(r)?;
        let value: DumpValue = read_value(r, tag, depth, key, index, stop)?;
        let ghost before = list@;
        list.push(value);
        assert(value_views(list@) =~= value_views(before).push(value@));
        if stop.is_some() {
            return Ok(list);
        }
        i += 1;
    }
    Ok(list)
}

fn read_items(
    r: &mut ByteReader<'_>,
    count: u32,
    depth: usize,
    index: usize,
    stop: &mut Option<UnknownTypeStop>,
) -> (o: Result<Vec<DumpItem>, DescError>)
    requires
        old(r).wf(),
        *old(stop) is None,
        depth <= MAX_DESCRIPTOR_DEPTH + 1,
    ensures
        final(r).wf(),
        final(r).data == old(r).data,
        ({
            let expected = dump_items(
                old(r).data@,
                old(r).pos as nat,
                count as nat,
                depth as nat,
                index as nat,
                seq![],
            );
            &&& expected.1 == final(r).pos
            &&& match o {
                Ok(v) => expected.0 == Ok::<_, DescError>(
                    (item_views(v@), stop_view(*final(stop))),
                ),
                Err(e) => expected.0 == Err::<(Seq<ItemView>, Option<StopView>), DescError>(e)
                    && *final(stop) is None,
            }
        }),
    decreases MAX_DESCRIPTOR_DEPTH + 1 - depth, 1nat,
{
    let mut items: Vec<DumpItem> = Vec::new();
    assert(item_views(items@) =~= seq![]);
    let mut i: u32 = 0;
    while i < count
        invariant
            i <= count,
            r.wf(),
            r.data == old(r).data,
            *stop is None,
            depth <= MAX_DESCRIPTOR_DEPTH + 1,
            dump_items(
                old(r).data@,
                old(r).pos as nat,
                count as nat,
                depth as nat,
                index as nat,
                seq![],
            ) == dump_items(
                r.data@,
                r.pos as nat,
                (count - i) as nat,
                depth as nat,
                index as nat,
                item_views(items@),
            ),
        decreases count - i,
    {
        let (key, tag) = read_item_head(r)?;
        let value: DumpValue = read_value(r, tag, depth, key, index, stop)?;
        let item: DumpItem = DumpItem {
            key: utf8_lossy(key),
            type_tag: tag_text(tag),
            depth,
            value,
        };
        let ghost before = items@;
        items.push(item);
        assert(item_views(items@) =~= item_views(before).push(item@));
        if stop.is_some() {
            return Ok(items);
        }
        i += 1;
    }
    Ok(items)
}

/// The model of a [`PresetDump`].
pub struct PresetDumpView {
    pub index: nat,
    pub items: Seq<ItemView>,
}

impl View for PresetDump {
    type V = PresetDumpView;

    open spec fn view(&self) -> PresetDumpView {
        PresetDumpView { index: self.index as nat, items: item_views(self.items@) }
    }
}

/// The model of a [`DescriptorDump`].
pub struct DumpView {
    pub presets: Seq<PresetDumpView>,
    pub stop: Option<StopView>,
}

impl View for DescriptorDump {
    type V = DumpView;

    open spec fn view(&self) -> DumpView {
        DumpView { presets: views(self.presets@), stop: stop_view(self.unknown_type_stop) }
    }
}

/// The items of a preset: those of the object at `p`.
pub open spec fn object_items(d: Seq<u8>, p: nat, index: nat) -> Walked<Seq<ItemView>> {
    match object_head(d, p) {
        (Ok((_, count)), q) => dump_items(d, q, count as nat, 0, index, seq![]),
        (Err(e), q) => (Err(e), q),
    }
}

/// One item with this key and type.
pub open spec fn single_item(d: Seq<u8>, p: nat, key: Seq<u8>, tag: u32, index: nat) -> Walked<
    Seq<ItemView>,
> {
    match dump_value(d, p, tag, 0, key, index) {
        (Ok((value, stop)), q) => (
            Ok(
                (
                    seq![
                        ItemView {
                            key: utf8_lossy_text(key),
                            type_tag: tag_chars(tag),
                            depth: 0,
                            value,
                        },
                    ],
                    stop,
                ),
            ),
            q,
        ),
        (Err(e), q) => (Err(e), q),
    }
}

/// What was walked over so far: the presets, and what else the root holds.
pub struct WalkView {
    pub presets: Seq<Seq<ItemView>>,
    pub others: Seq<Seq<ItemView>>,
    pub stop: Option<StopView>,
}

impl WalkView {
    /// The number of an entry that comes next and stays the last: presets are numbered from
    /// 0, and the others behind them.
    pub open spec fn next_index(self, preset: bool) -> nat {
        if preset {
            self.presets.len()
        } else {
            self.presets.len() + self.others.len()
        }
    }
}

/// The walk with one more entry, and where it goes on. Where the entry cannot be read, the
/// walk ends without it; where it was stopped, it ends with it.
pub open spec fn with_entry(w: WalkView, preset: bool, entry: Walked<Seq<ItemView>>) -> (
    WalkView,
    Option<nat>,
) {
    match entry {
        (Ok((items, stop)), q) => (
            if preset {
                WalkView { presets: w.presets.push(items), stop, ..w }
            } else {
                WalkView { others: w.others.push(items), stop, ..w }
            },
            if stop is Some {
                None
            } else {
                Some(q)
            },
        ),
        (Err(_), _) => (w, None),
    }
}

/// One element of the preset list: an object is a preset, any other element stands by itself
/// under the list's key.
pub open spec fn with_element(d: Seq<u8>, p: nat, tag: u32, w: WalkView) -> (
    WalkView,
    Option<nat>,
) {
    if tag == TAG_OBJC {
        with_entry(w, true, object_items(d, p, w.next_index(true)))
    } else {
        with_entry(w, false, single_item(d, p, ascii("Brsh"), tag, w.next_index(false)))
    }
}

/// The walk after `n` elements of the preset list.
pub open spec fn walk_elements(d: Seq<u8>, p: nat, n: nat, w: WalkView) -> (WalkView, Option<nat>)
    decreases n,
{
    if n == 0 {
        (w, Some(p))
    } else {
        match u32_read(d, p) {
            (Ok(tag), q) => match with_element(d, q, tag, w) {
                (w, Some(q)) => walk_elements(d, q, (n - 1) as nat, w),
                (w, None) => (w, None),
            },
            (Err(_), _) => (w, None),
        }
    }
}

/// The walk after `n` items of the root object, and where it ends if it reaches their end.
pub open spec fn walk_items(d: Seq<u8>, p: nat, n: nat, w: WalkView) -> (WalkView, Option<nat>)
    decreases n,
{
    if n == 0 {
        (w, Some(p))
    } else {
        match item_head(d, p) {
            (Ok((key, tag)), q) => if key == ascii("Brsh") && tag == TAG_VLLS {
                match u32_read(d, q) {
                    (Ok(count), q) => match walk_elements(d, q, count as nat, w) {
                        (w, Some(q)) => walk_items(d, q, (n - 1) as nat, w),
                        (w, None) => (w, None),
                    },
                    (Err(_), _) => (w, None),
                }
            } else {
                match with_entry(w, false, single_item(d, q, key, tag, w.next_index(false))) {
                    (w, Some(q)) => walk_items(d, q, (n - 1) as nat, w),
                    (w, None) => (w, None),
                }
            },
            (Err(_), _) => (w, None),
        }
    }
}

/// The walk over a `desc` block, and where it ends if it reaches the end of the root object.
pub open spec fn walk_of(d: Seq<u8>) -> (WalkView, Option<nat>) {
    let empty = WalkView { presets: seq![], others: seq![], stop: None };
    match root_head(d) {
        (Ok(_), q) => match u32_read(d, q) {
            (Ok(count), q) => walk_items(d, q, count as nat, empty),
            (Err(_), _) => (empty, None),
        },
        (Err(_), _) => (empty, None),
    }
}

/// Entries with their places as numbers.
pub open spec fn numbered(entries: Seq<Seq<ItemView>>) -> Seq<PresetDumpView> {
    Seq::new(entries.len(), |i: int| PresetDumpView { index: i as nat, items: entries[i] })
}

/// Everything that a `desc` block holds, as far as it can be read: the presets, with the
/// numbers that they have in the preset list, and behind them what else the root holds.
pub open spec fn dump_of(d: Seq<u8>) -> DumpView {
    let w = walk_of(d).0;
    DumpView { presets: numbered(w.presets + w.others), stop: w.stop }
}

/// What was walked over so far.
struct Walk {
    presets: Vec<Vec<DumpItem>>,
    others: Vec<Vec<DumpItem>>,
    stop: Option<UnknownTypeStop>,
}

/// The models of lists of items.
pub open spec fn list_views(lists: Seq<Vec<DumpItem>>) -> Seq<Seq<ItemView>> {
    Seq::new(lists.len(), |i: int| item_views(lists[i]@))
}

impl View for Walk {
    type V = WalkView;

    closed spec fn view(&self) -> WalkView {
        WalkView {
            presets: list_views(self.presets@),
            others: list_views(self.others@),
            stop: stop_view(self.stop),
        }
    }
}

proof fn value_ends_behind(d: Seq<u8>, p: nat, tag: u32, depth: nat, key: Seq<u8>, index: nat)
    ensures
        dump_value(d, p, tag, depth, key, index) matches (Ok(_), q) ==> p <= q,
    decreases MAX_DESCRIPTOR_DEPTH + 1 - depth, 0nat,
{
    if depth <= MAX_DESCRIPTOR_DEPTH {
        if tag == TAG_VLLS {
            match u32_read(d, p) {
                (Ok(count), q) => {
                    elements_end_behind(d, q, count as nat, depth + 1, key, index, seq![]);
                },
                _ => {},
            }
        } else if tag == TAG_OBJC {
            match object_head(d, p) {
                (Ok((_, count)), q) => {
                    items_end_behind(d, q, count as nat, depth + 1, index, seq![]);
                },
                _ => {},
            }
        }
    }
}

proof fn elements_end_behind(
    d: Seq<u8>,
    p: nat,
    n: nat,
    depth: nat,
    key: Seq<u8>,
    index: nat,
    done: Seq<ValueView>,
)
    ensures
        dump_elements(d, p, n, depth, key, index, done) matches (Ok(_), q) ==> p <= q,
    decreases MAX_DESCRIPTOR_DEPTH + 1 - depth, n + 1,
{
    if n > 0 {
        match u32_read(d, p) {
            (Ok(tag), q) => {
                value_ends_behind(d, q, tag, depth, key, index);
                match dump_value(d, q, tag, depth, key, index) {
                    (Ok((v, None)), q) => {
                        elements_end_behind(
                            d,
                            q,
                            (n - 1) as nat,
                            depth,
                            key,
                            index,
                            done.push(v),
                        );
                    },
                    _ => {},
                }
            },
            _ => {},
        }
    }
}

proof fn items_end_behind(
    d: Seq<u8>,
    p: nat,
    n: nat,
    depth: nat,
    index: nat,
    done: Seq<ItemView>,
)
    ensures
        dump_items(d, p, n, depth, index, done) matches (Ok(_), q) ==> p <= q,
    decreases MAX_DESCRIPTOR_DEPTH + 1 - depth, n + 1,
{
    if n > 0 {
        match item_head(d, p) {
            (Ok((key, tag)), q) => {
                value_ends_behind(d, q, tag, depth, key, index);
                match dump_value(d, q, tag, depth, key, index) {
                    (Ok((value, None)), q) => {
                        let item = ItemView {
                            key: utf8_lossy_text(key),
                            type_tag: tag_chars(tag),
                            depth,
                            value,
                        };
                        items_end_behind(d, q, (n - 1) as nat, depth, index, done.push(item));
                    },
                    _ => {},
                }
            },
            _ => {},
        }
    }
}

fn read_single_item(
    r: &mut ByteReader<'_>,
    key: &[u8],
    tag: u32,
    index: usize,
    stop: &mut Option<UnknownTypeStop>,
) -> (o: Result<Vec<DumpItem>, DescError>)
    requires
        old(r).wf(),
        *old(stop) is None,
    ensures
        final(r).wf(),
        final(r).data == old(r).data,
        ({
            let expected = single_item(old(r).data@, old(r).pos as nat, key@, tag, index as nat);
            &&& expected.1 == final(r).pos
            &&& match o {
                Ok(v) => expected.0 == Ok::<_, DescError>(
                    (item_views(v@), stop_view(*final(stop))),
                ),
                Err(e) => expected.0 == Err::<(Seq<ItemView>, Option<StopView>), DescError>(e)
                    && *final(stop) is None,
            }
        }),
{
    let value: DumpValue = read_value(r, tag, 0, key, index, stop)?;
    let item: DumpItem = DumpItem {
        key: utf8_lossy(key),
        type_tag: tag_text(tag),
        depth: 0,
        value,
    };
    let mut items: Vec<DumpItem> = Vec::new();
    items.push(item);
    assert(item_views(items@) =~= seq![item@]);
    Ok(items)
}

fn read_preset(r: &mut ByteReader<'_>, index: usize, stop: &mut Option<UnknownTypeStop>) -> (o:
    Result<Vec<DumpItem>, DescError>)
    requires
        old(r).wf(),
        *old(stop) is None,
    ensures
        final(r).wf(),
        final(r).data == old(r).data,
        ({
            let expected = object_items(old(r).data@, old(r).pos as nat, index as nat);
            &&& expected.1 == final(r).pos
            &&& match o {
                Ok(v) => expected.0 == Ok::<_, DescError>(
                    (item_views(v@), stop_view(*final(stop))),
                ),
                Err(e) => expected.0 == Err::<(Seq<ItemView>, Option<StopView>), DescError>(e)
                    && *final(stop) is None,
            }
        }),
{
    let (_class, count) = read_object_head(r)?;
    read_items(r, count, 0, index, stop)
}

/// Adds an entry; is the walk to go on?
fn add_entry(
    w: &mut Walk,
    preset: bool,
    entry: Result<Vec<DumpItem>, DescError>,
    stop: Option<UnknownTypeStop>,
    Ghost(expected): Ghost<Walked<Seq<ItemView>>>,
) -> (go_on: bool)
    requires
        match entry {
            Ok(v) => expected.0 == Ok::<_, DescError>((item_views(v@), stop_view(stop))),
            Err(e) => expected.0 is Err,
        },
    ensures
        final(w)@ == with_entry(old(w)@, preset, expected).0,
        go_on == (with_entry(old(w)@, preset, expected).1 is Some),
        go_on ==> with_entry(old(w)@, preset, expected).1 == Some(expected.1),
        go_on ==> final(w).stop is None,
{
    match entry {
        Ok(items) => {
            let ghost added = item_views(items@);
            if preset {
                let ghost before = w.presets@;
                w.presets.push(items);
                assert(list_views(w.presets@) =~= list_views(before).push(added));
            } else {
                let ghost before = w.others@;
                w.others.push(items);
                assert(list_views(w.others@) =~= list_views(before).push(added));
            }
            let go_on: bool = stop.is_none();
            w.stop = stop;
            go_on
        },
        Err(_) => false,
    }
}

/// Reads an item that stands by itself; is the walk to go on?
fn walk_other(r: &mut ByteReader<'_>, key: &[u8], tag: u32, w: &mut Walk) -> (go_on: bool)
    requires
        old(r).wf(),
        old(w).stop is None,
        old(w).presets@.len() + old(w).others@.len() < old(r).pos,
    ensures
        final(r).wf(),
        final(r).data == old(r).data,
        go_on ==> final(w).presets@.len() + final(w).others@.len() <= final(r).pos,
        ({
            let expected = with_entry(
                old(w)@,
                false,
                single_item(
                    old(r).data@,
                    old(r).pos as nat,
                    key@,
                    tag,
                    old(w)@.next_index(false),
                ),
            );
            &&& final(w)@ == expected.0
            &&& go_on == expected.1 is Some
            &&& go_on ==> expected.1 == Some(final(r).pos as nat)
            &&& go_on ==> final(w).stop is None
        }),
{
    let index: usize = w.presets.len() + w.others.len();
    let ghost expected = single_item(r.data@, r.pos as nat, key@, tag, index as nat);
    let mut stop: Option<UnknownTypeStop> = None;
    let entry: Result<Vec<DumpItem>, DescError> = read_single_item(r, key, tag, index, &mut stop);
    let go_on: bool = add_entry(w, false, entry, stop, Ghost(expected));
    proof {
        value_ends_behind(r.data@, old(r).pos as nat, tag, 0, key@, index as nat);
    }
    assert(w@.presets.len() == w.presets@.len() && w@.others.len() == w.others@.len());
    go_on
}

/// Reads an element of the preset list; is the walk to go on?
fn walk_element(r: &mut ByteReader<'_>, tag: u32, w: &mut Walk) -> (go_on: bool)
    requires
        old(r).wf(),
        old(w).stop is None,
        old(w).presets@.len() + old(w).others@.len() < old(r).pos,
    ensures
        final(r).wf(),
        final(r).data == old(r).data,
        go_on ==> final(w).presets@.len() + final(w).others@.len() <= final(r).pos,
        ({
            let expected = with_element(old(r).data@, old(r).pos as nat, tag, old(w)@);
            &&& final(w)@ == expected.0
            &&& go_on == expected.1 is Some
            &&& go_on ==> expected.1 == Some(final(r).pos as nat)
            &&& go_on ==> final(w).stop is None
        }),
{
    if tag == TAG_OBJC {
        let index: usize = w.presets.len();
        let ghost expected = object_items(r.data@, r.pos as nat, index as nat);
        let mut stop: Option<UnknownTypeStop> = None;
        let entry: Result<Vec<DumpItem>, DescError> = read_preset(r, index, &mut stop);
        let go_on: bool = add_entry(w, true, entry, stop, Ghost(expected));
        proof {
            match object_head(r.data@, old(r).pos as nat) {
                (Ok((_, count)), q) => {
                    items_end_behind(r.data@, q, count as nat, 0, index as nat, seq![]);
                },
                _ => {},
            }
        }
        assert(w@.presets.len() == w.presets@.len() && w@.others.len() == w.others@.len());
        return go_on;
    }
    walk_other(r, "Brsh".as_bytes(), tag, w)
}
fn walk_list(r: &mut ByteReader<'_>, count: u32, w: &mut Walk) -> (go_on: bool)
    requires
        old(r).wf(),
        old(w).stop is None,
        old(w).presets@.len() + old(w).others@.len() <= old(r).pos,
    ensures
        final(r).wf(),
        final(r).data == old(r).data,
        go_on ==> final(w).presets@.len() + final(w).others@.len() <= final(r).pos,
        ({
            let expected = walk_elements(
                old(r).data@,
                old(r).pos as nat,
                count as nat,
                old(w)@,
            );
            &&& final(w)@ == expected.0
            &&& go_on == expected.1 is Some
            &&& go_on ==> expected.1 == Some(final(r).pos as nat)
            &&& go_on ==> final(w).stop is None
        }),
{
    let mut i: u32 = 0;
    while i < count
        invariant
            i <= count,
            r.wf(),
            r.data == old(r).data,
            w.stop is None,
            w.presets@.len() + w.others@.len() <= r.pos,
            walk_elements(old(r).data@, old(r).pos as nat, count as nat, old(w)@)
                == walk_elements(r.data@, r.pos as nat, (count - i) as nat, w@),
        decreases count - i,
    {
        let tag: u32 = match read_u32(r) {
            Ok(tag) => tag,
            Err(_) => {
                return false;
            },
        };
        if !walk_element(r, tag, w) {
            return false;
        }
        i += 1;
    }
    true
}

fn walk_root(r: &mut ByteReader<'_>, count: u32, w: &mut Walk)
    requires
        old(r).wf(),
        old(w).stop is None,
        old(w).presets@.len() + old(w).others@.len() <= old(r).pos,
    ensures
        final(w)@ == walk_items(old(r).data@, old(r).pos as nat, count as nat, old(w)@).0,
{
    let mut i: u32 = 0;
    while i < count
        invariant
            i <= count,
            r.wf(),
            r.data == old(r).data,
            w.stop is None,
            w.presets@.len() + w.others@.len() <= r.pos,
            walk_items(old(r).data@, old(r).pos as nat, count as nat, old(w)@) == walk_items(
                r.data@,
                r.pos as nat,
                (count - i) as nat,
                w@,
            ),
        decreases count - i,
    {
        let (key, tag) = match read_item_head(r) {
            Ok(head) => head,
            Err(_) => {
                return ;
            },
        };
        if same_bytes(key, "Brsh".as_bytes()) && tag == TAG_VLLS {
            let elements: u32 = match read_u32(r) {
                Ok(n) => n,
                Err(_) => {
                    return ;
                },
            };
            if !walk_list(r, elements, w) {
                return ;
            }
        } else {
            if !walk_other(r, key, tag, w) {
                return ;
            }
        }
        i += 1;
    }
}

/// Numbers the presets, and the others behind them.
fn number_entries(presets: Vec<Vec<DumpItem>>, others: Vec<Vec<DumpItem>>) -> (r: Vec<PresetDump>)
    ensures
        views(r@) == numbered(list_views(presets@) + list_views(others@)),
{
    let ghost all = list_views(presets@) + list_views(others@);
    let mut r: Vec<PresetDump> = Vec::new();
    assert(views(r@) =~= numbered(all.take(0)));
    let ghost n = presets@.len() as int;
    assert(list_views(presets@) =~= all.subrange(0, n));
    assert(list_views(others@) =~= all.subrange(n, n + others@.len()));
    append_entries(&mut r, presets, Ghost(all));
    append_entries(&mut r, others, Ghost(all));
    assert(all.take(all.len() as int) =~= all);
    r
}

fn append_entries(
    r: &mut Vec<PresetDump>,
    lists: Vec<Vec<DumpItem>>,
    Ghost(all): Ghost<Seq<Seq<ItemView>>>,
)
    requires
        old(r)@.len() + lists@.len() <= all.len(),
        views(old(r)@) == numbered(all.take(old(r)@.len() as int)),
        list_views(lists@) == all.subrange(
            old(r)@.len() as int,
            (old(r)@.len() + lists@.len()) as int,
        ),
    ensures
        final(r)@.len() == old(r)@.len() + lists@.len(),
        views(final(r)@) == numbered(all.take(final(r)@.len() as int)),
{
    let ghost first = r@.len();
    let ghost given = lists@;
    assert forall|k: int| 0 <= k < given.len() implies item_views((#[trigger] given[k])@)
        == all[first + k] by {
        assert(list_views(given)[k] == all.subrange(
            first as int,
            (first + given.len()) as int,
        )[k]);
    }
    let mut left: Vec<Vec<DumpItem>> = lists;
    let mut back: Vec<Vec<DumpItem>> = Vec::new();
    while left.len() > 0
        invariant
            left@.len() + back@.len() == given.len(),
            left@ == given.take(left@.len() as int),
            forall|k: int| 0 <= k < back@.len() ==> back@[k] == given[given.len() - 1 - k],
        decreases left@.len(),
    {
        if let Some(items) = left.pop() {
            back.push(items);
        }
        assert(left@ =~= given.take(left@.len() as int));
    }
    while back.len() > 0
        invariant
            r@.len() + back@.len() == first + given.len(),
            r@.len() >= first,
            first + given.len() <= all.len(),
            forall|k: int| 0 <= k < back@.len() ==> back@[k] == given[given.len() - 1 - k],
            forall|k: int|
                0 <= k < given.len() ==> item_views((#[trigger] given[k])@) == all[first + k],
            views(r@) == numbered(all.take(r@.len() as int)),
        decreases back@.len(),
    {
        if let Some(items) = back.pop() {
            let ghost before = r@;
            let ghost k = r@.len() - first;
            let entry: PresetDump = PresetDump { index: r.len(), items };
            assert(given[k] == items);
            assert(entry@.items == all[first + k]);
            r.push(entry);
            assert(views(r@) =~= views(before).push(entry@));
            assert(views(r@) =~= numbered(all.take(r@.len() as int)));
        }
    }
}

/// Everything that a `desc` block holds, as far as it can be read.
pub fn dump_descriptors(data: &[u8]) -> (r: DescriptorDump)
    ensures
        r@ == dump_of(data@),
{
    let mut w: Walk = Walk { presets: Vec::new(), others: Vec::new(), stop: None };
    assert(list_views(w.presets@) =~= seq![]);
    assert(list_views(w.others@) =~= seq![]);
    let mut r: ByteReader<'_> = ByteReader::new(data);
    if read_root_head(&mut r).is_ok() {
        if let Ok(count) = read_u32(&mut r) {
            walk_root(&mut r, count, &mut w);
        }
    }
    DescriptorDump {
        presets: number_entries(w.presets, w.others),
        unknown_type_stop: w.stop,
    }
}

} // verus!
