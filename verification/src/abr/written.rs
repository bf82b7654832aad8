//! Descriptors as they are written: keys, items, objects and whole `desc` blocks.
use vstd::prelude::*;
use vstd::utf8::{decode_utf8, encode_utf8, encode_utf8_decode_utf8};
use crate::abr::descriptor::{
    double_read, enum_read, flag_read, i32_read, id_read, item_head, object_head, raw_read,
    skip_value, u32_read, unicode_read, unit_float_read, units_at, without_nul, DescError,
    MAX_DESCRIPTOR_STRING_LEN, TAG_BOOL, TAG_DOUB, TAG_ENUM, TAG_LONG, TAG_OBJC, TAG_TDTA,
    TAG_TEXT, TAG_UNTF, TAG_VLLS,
};
use crate::abr::local::stands_at;
use crate::abr::order::{are_items, is_item, joined, key_of};
use crate::fixture::{be16, be32, be64, key_bytes, ostype_bytes};
use crate::round_trip::{
    double_is_read, key_is_read_back, ostype_is_read_back, readable, stands_parts, tags,
    u32_is_read, unit_float_is_read,
};
use crate::support::double::Double;
use crate::support::text::{ascii, utf16_text};

verus! {

/// Is `k` a way to write `key`: behind its length, or as four bytes behind a length of 0?
pub open spec fn is_key(k: Seq<u8>, key: Seq<u8>) -> bool {
    (k == key_bytes(key) && readable(key)) || (k == ostype_bytes(key) && key.len() == 4)
}

/// A flag under a key: a byte.
pub open spec fn flag_item(k: Seq<u8>, v: u8) -> Seq<u8> {
    k + (ascii("bool") + seq![v])
}

/// A number with a unit under a key.
pub open spec fn percent_item(k: Seq<u8>, unit: Seq<u8>, v: Double) -> Seq<u8> {
    k + (ascii("UntF") + (unit + be64(v.bits)))
}

/// A number under a key.
pub open spec fn number_item(k: Seq<u8>, v: Double) -> Seq<u8> {
    k + (ascii("doub") + be64(v.bits))
}

/// An integer under a key.
pub open spec fn integer_item(k: Seq<u8>, n: i32) -> Seq<u8> {
    k + (ascii("long") + be32(n as u32))
}

/// An enumerated value under a key: its type and its value, written as keys.
pub open spec fn choice_item(k: Seq<u8>, kind: Seq<u8>, value: Seq<u8>) -> Seq<u8> {
    k + (ascii("enum") + (kind + value))
}

/// UTF-16 code units, the most significant byte first.
pub open spec fn utf16_bytes(units: Seq<u16>) -> Seq<u8> {
    Seq::new(
        2 * units.len(),
        |i: int|
            if i % 2 == 0 {
                (units[i / 2] / 0x100) as u8
            } else {
                (units[i / 2] % 0x100) as u8
            },
    )
}

/// Code units behind their count.
pub open spec fn unicode_bytes(units: Seq<u16>) -> Seq<u8> {
    be32(units.len() as u32) + utf16_bytes(units)
}

/// A text under a key.
pub open spec fn text_item(k: Seq<u8>, units: Seq<u16>) -> Seq<u8> {
    k + (ascii("TEXT") + unicode_bytes(units))
}

/// Raw data under a key.
pub open spec fn raw_item(k: Seq<u8>, data: Seq<u8>) -> Seq<u8> {
    k + (ascii("tdta") + (be32(data.len() as u32) + data))
}

/// The head of an object: a class name, a class id written as a key, and the item count.
pub open spec fn object_start(name: Seq<u16>, class: Seq<u8>, count: nat) -> Seq<u8> {
    unicode_bytes(name) + (class + be32(count as u32))
}

/// An object with these items.
pub open spec fn object_bytes(name: Seq<u16>, class: Seq<u8>, items: Seq<Seq<u8>>) -> Seq<u8> {
    object_start(name, class, items.len()) + joined(items)
}

/// An object under a key.
pub open spec fn object_item(
    k: Seq<u8>,
    name: Seq<u16>,
    class: Seq<u8>,
    items: Seq<Seq<u8>>,
) -> Seq<u8> {
    k + (ascii("Objc") + object_bytes(name, class, items))
}

/// A list under a key, of elements that are a type and a value each.
pub open spec fn list_item(k: Seq<u8>, elements: Seq<Seq<u8>>) -> Seq<u8> {
    k + (ascii("VlLs") + (be32(elements.len() as u32) + joined(elements)))
}

/// Texts of literals that differ have bytes that differ.
pub proof fn literals_differ()
    ensures
        forall|a: &str, b: &str| #![trigger ascii(a), ascii(b)] ascii(a) == ascii(b) ==> a@ == b@,
{
    assert forall|a: &str, b: &str| #![trigger ascii(a), ascii(b)] ascii(a) == ascii(b) implies a@
        == b@ by {
        encode_utf8_decode_utf8(a@);
        encode_utf8_decode_utf8(b@);
    }
}

pub(crate) proof fn whole_stands(x: Seq<u8>)
    ensures
        stands_at(x, 0, x),
{
    assert(x.subrange(0, x.len() as int) =~= x);
}

pub(crate) proof fn key_is_read(d: Seq<u8>, p: nat, k: Seq<u8>, key: Seq<u8>)
    requires
        is_key(k, key),
        stands_at(d, p, k),
    ensures
        id_read(d, p) == (Ok::<Seq<u8>, DescError>(key), p + k.len()),
{
    if k == key_bytes(key) && readable(key) {
        key_is_read_back(d, p, key);
    } else {
        ostype_is_read_back(d, p, key);
    }
}

pub(crate) proof fn parts(d: Seq<u8>, p: nat, a: Seq<u8>, b: Seq<u8>)
    requires
        stands_at(d, p, a + b),
    ensures
        stands_at(d, p, a),
        stands_at(d, p + a.len(), b),
{
    stands_parts(d, p, a, b);
}

pub(crate) proof fn head_is_read(d: Seq<u8>, p: nat, k: Seq<u8>, key: Seq<u8>, tag: u32, rest: Seq<u8>)
    requires
        is_key(k, key),
        stands_at(d, p, k + (be32(tag) + rest)),
    ensures
        item_head(d, p) == (Ok::<(Seq<u8>, u32), DescError>((key, tag)), p + k.len() + 4),
        stands_at(d, p + k.len() + 4, rest),
{
    parts(d, p, k, be32(tag) + rest);
    key_is_read(d, p, k, key);
    parts(d, p + k.len(), be32(tag), rest);
    u32_is_read(d, p + k.len(), tag);
}

pub(crate) proof fn unicode_is_read(d: Seq<u8>, p: nat, units: Seq<u16>)
    requires
        units.len() <= MAX_DESCRIPTOR_STRING_LEN,
        stands_at(d, p, unicode_bytes(units)),
    ensures
        unicode_read(d, p) == (
            Ok::<Seq<char>, DescError>(utf16_text(without_nul(units))),
            p + unicode_bytes(units).len(),
        ),
{
    let b = utf16_bytes(units);
    parts(d, p, be32(units.len() as u32), b);
    u32_is_read(d, p, units.len() as u32);
    let q = p + 4;
    let n = units.len();
    if n > 0 {
        let all = d.subrange(q as int, (q + b.len()) as int);
        assert forall|i: int| 0 <= i < n implies #[trigger] units_at(d, q, n)[i] == units[i] by {
            assert(all[2 * i] == d[q + 2 * i] && all[2 * i + 1] == d[q + 2 * i + 1]);
            assert(b[2 * i] == (units[i] / 0x100) as u8);
            assert((2 * i + 1) / 2 == i && (2 * i + 1) % 2 == 1);
            assert(b[2 * i + 1] == (units[i] % 0x100) as u8);
        }
        assert(units_at(d, q, n) =~= units);
    } else {
        assert(without_nul(units) =~= seq![]);
        assert(utf16_text(without_nul(units)) =~= seq![]);
    }
}

pub(crate) proof fn object_start_is_read(
    d: Seq<u8>,
    p: nat,
    name: Seq<u16>,
    class: Seq<u8>,
    id: Seq<u8>,
    count: nat,
)
    requires
        name.len() <= MAX_DESCRIPTOR_STRING_LEN,
        is_key(class, id),
        count <= u32::MAX,
        stands_at(d, p, object_start(name, class, count)),
    ensures
        object_head(d, p) == (
            Ok::<(Seq<u8>, u32), DescError>((id, count as u32)),
            p + object_start(name, class, count).len(),
        ),
{
    parts(d, p, unicode_bytes(name), class + be32(count as u32));
    unicode_is_read(d, p, name);
    let q = p + unicode_bytes(name).len();
    parts(d, q, class, be32(count as u32));
    key_is_read(d, q, class, id);
    u32_is_read(d, q + class.len(), count as u32);
}

/// An item's head is its key and its type, and its value stands behind them.
proof fn item_starts(x: Seq<u8>, k: Seq<u8>, key: Seq<u8>, tag: u32, word: Seq<u8>, rest: Seq<u8>)
    requires
        is_key(k, key),
        word == be32(tag),
        x == k + (word + rest),
    ensures
        item_head(x, 0) == (Ok::<(Seq<u8>, u32), DescError>((key, tag)), k.len() + 4),
        stands_at(x, k.len() + 4, rest),
        x.len() == k.len() + 4 + rest.len(),
{
    whole_stands(x);
    head_is_read(x, 0, k, key, tag, rest);
}

/// A value of a plain type is passed over where it is read.
proof fn leaf_is_passed(x: Seq<u8>, q: nat, tag: u32, end: nat)
    requires
        (tag == TAG_UNTF && unit_float_read(x, q).0 is Ok && unit_float_read(x, q).1 == end) || (
        tag == TAG_DOUB && double_read(x, q).0 is Ok && double_read(x, q).1 == end) || (tag
            == TAG_LONG && i32_read(x, q).0 is Ok && i32_read(x, q).1 == end) || (tag == TAG_ENUM
            && enum_read(x, q).0 is Ok && enum_read(x, q).1 == end) || (tag == TAG_TEXT
            && unicode_read(x, q).0 is Ok && unicode_read(x, q).1 == end) || (tag == TAG_TDTA
            && raw_read(x, q).0 is Ok && raw_read(x, q).1 == end) || (tag == TAG_BOOL && flag_read(
            x,
            q,
        ).0 is Ok && flag_read(x, q).1 == end),
    ensures
        skip_value(x, q, tag, 0).0 is Ok,
        skip_value(x, q, tag, 0).1 == end,
{
}

/// An item whose value fills it is well formed.
proof fn item_fills(x: Seq<u8>, q: nat, key: Seq<u8>, tag: u32)
    requires
        item_head(x, 0) == (Ok::<(Seq<u8>, u32), DescError>((key, tag)), q),
        skip_value(x, q, tag, 0).0 is Ok,
        skip_value(x, q, tag, 0).1 == x.len(),
    ensures
        is_item(x),
        key_of(x) == key,
{
    reveal(is_item);
    reveal(key_of);
}

/// A flag that was written is a well-formed item, and is read back.
#[verifier::spinoff_prover]
#[verifier::rlimit(30)]
pub proof fn flag_item_is_read(k: Seq<u8>, key: Seq<u8>, v: u8)
    requires
        is_key(k, key),
    ensures
        ({
            let x = flag_item(k, v);
            let q = k.len() + 4;
            &&& is_item(x)
            &&& key_of(x) == key
            &&& item_head(x, 0) == (Ok::<(Seq<u8>, u32), DescError>((key, TAG_BOOL)), q)
            &&& flag_read(x, q) == (Ok::<bool, DescError>(v != 0), x.len())
        }),
{
    tags();
    let x = flag_item(k, v);
    let rest = seq![v];
    let q = k.len() + 4;
    item_starts(x, k, key, TAG_BOOL, ascii("bool"), rest);
    assert(x.subrange(q as int, (q + 1) as int)[0] == x[q as int]);
    leaf_is_passed(x, q, TAG_BOOL, x.len());
    item_fills(x, q, key, TAG_BOOL);
}

/// A number with a unit that was written is a well-formed item, and is read back.
#[verifier::spinoff_prover]
#[verifier::rlimit(30)]
pub proof fn percent_item_is_read(k: Seq<u8>, key: Seq<u8>, unit: Seq<u8>, v: Double)
    requires
        is_key(k, key),
        unit.len() == 4,
    ensures
        ({
            let x = percent_item(k, unit, v);
            let q = k.len() + 4;
            &&& is_item(x)
            &&& key_of(x) == key
            &&& item_head(x, 0) == (Ok::<(Seq<u8>, u32), DescError>((key, TAG_UNTF)), q)
            &&& unit_float_read(x, q) == (Ok::<Double, DescError>(v), x.len())
        }),
{
    tags();
    let x = percent_item(k, unit, v);
    let rest = unit + be64(v.bits);
    let q = k.len() + 4;
    item_starts(x, k, key, TAG_UNTF, ascii("UntF"), rest);
    unit_float_is_read(x, q, unit, v);
    leaf_is_passed(x, q, TAG_UNTF, x.len());
    item_fills(x, q, key, TAG_UNTF);
}

/// A number that was written is a well-formed item, and is read back.
#[verifier::spinoff_prover]
#[verifier::rlimit(30)]
pub proof fn number_item_is_read(k: Seq<u8>, key: Seq<u8>, v: Double)
    requires
        is_key(k, key),
    ensures
        ({
            let x = number_item(k, v);
            let q = k.len() + 4;
            &&& is_item(x)
            &&& key_of(x) == key
            &&& item_head(x, 0) == (Ok::<(Seq<u8>, u32), DescError>((key, TAG_DOUB)), q)
            &&& double_read(x, q) == (Ok::<Double, DescError>(v), x.len())
        }),
{
    tags();
    let x = number_item(k, v);
    let rest = be64(v.bits);
    let q = k.len() + 4;
    item_starts(x, k, key, TAG_DOUB, ascii("doub"), rest);
    double_is_read(x, q, v.bits);
    leaf_is_passed(x, q, TAG_DOUB, x.len());
    item_fills(x, q, key, TAG_DOUB);
}

/// An integer that was written is a well-formed item, and is read back.
#[verifier::spinoff_prover]
#[verifier::rlimit(30)]
pub proof fn integer_item_is_read(k: Seq<u8>, key: Seq<u8>, n: i32)
    requires
        is_key(k, key),
    ensures
        ({
            let x = integer_item(k, n);
            let q = k.len() + 4;
            &&& is_item(x)
            &&& key_of(x) == key
            &&& item_head(x, 0) == (Ok::<(Seq<u8>, u32), DescError>((key, TAG_LONG)), q)
            &&& i32_read(x, q) == (Ok::<i32, DescError>(n), x.len())
        }),
{
    tags();
    let x = integer_item(k, n);
    let rest = be32(n as u32);
    let q = k.len() + 4;
    item_starts(x, k, key, TAG_LONG, ascii("long"), rest);
    u32_is_read(x, q, n as u32);
    assert((n as u32) as i32 == n) by (bit_vector);
    leaf_is_passed(x, q, TAG_LONG, x.len());
    item_fills(x, q, key, TAG_LONG);
}

/// An enumerated value that was written is a well-formed item, and is read back.
#[verifier::spinoff_prover]
#[verifier::rlimit(30)]
pub proof fn choice_item_is_read(k: Seq<u8>, key: Seq<u8>, a: Seq<u8>, kind: Seq<u8>, b: Seq<u8>, value: Seq<u8>)
    requires
        is_key(k, key),
        is_key(a, kind),
        is_key(b, value),
    ensures
        ({
            let x = choice_item(k, a, b);
            let q = k.len() + 4;
            &&& is_item(x)
            &&& key_of(x) == key
            &&& item_head(x, 0) == (Ok::<(Seq<u8>, u32), DescError>((key, TAG_ENUM)), q)
            &&& enum_read(x, q) == (Ok::<(Seq<u8>, Seq<u8>), DescError>((kind, value)), x.len())
        }),
{
    tags();
    let x = choice_item(k, a, b);
    let rest = a + b;
    let q = k.len() + 4;
    item_starts(x, k, key, TAG_ENUM, ascii("enum"), rest);
    parts(x, q, a, b);
    key_is_read(x, q, a, kind);
    key_is_read(x, q + a.len(), b, value);
    leaf_is_passed(x, q, TAG_ENUM, x.len());
    item_fills(x, q, key, TAG_ENUM);
}

/// A text that was written is a well-formed item, and is read back.
#[verifier::spinoff_prover]
#[verifier::rlimit(30)]
pub proof fn text_item_is_read(k: Seq<u8>, key: Seq<u8>, units: Seq<u16>)
    requires
        is_key(k, key),
        units.len() <= MAX_DESCRIPTOR_STRING_LEN,
    ensures
        ({
            let x = text_item(k, units);
            let q = k.len() + 4;
            &&& is_item(x)
            &&& key_of(x) == key
            &&& item_head(x, 0) == (Ok::<(Seq<u8>, u32), DescError>((key, TAG_TEXT)), q)
            &&& unicode_read(x, q) == (
                Ok::<Seq<char>, DescError>(utf16_text(without_nul(units))),
                x.len(),
            )
        }),
{
    tags();
    let x = text_item(k, units);
    let rest = unicode_bytes(units);
    let q = k.len() + 4;
    item_starts(x, k, key, TAG_TEXT, ascii("TEXT"), rest);
    unicode_is_read(x, q, units);
    leaf_is_passed(x, q, TAG_TEXT, x.len());
    item_fills(x, q, key, TAG_TEXT);
}

/// Raw data that was written is a well-formed item, and is read back.
#[verifier::spinoff_prover]
#[verifier::rlimit(30)]
pub proof fn raw_item_is_read(k: Seq<u8>, key: Seq<u8>, data: Seq<u8>)
    requires
        is_key(k, key),
        data.len() <= MAX_DESCRIPTOR_STRING_LEN,
    ensures
        ({
            let x = raw_item(k, data);
            let q = k.len() + 4;
            &&& is_item(x)
            &&& key_of(x) == key
            &&& item_head(x, 0) == (Ok::<(Seq<u8>, u32), DescError>((key, TAG_TDTA)), q)
            &&& raw_read(x, q) == (Ok::<Seq<u8>, DescError>(data), x.len())
        }),
{
    tags();
    let x = raw_item(k, data);
    let rest = be32(data.len() as u32) + data;
    let q = k.len() + 4;
    item_starts(x, k, key, TAG_TDTA, ascii("tdta"), rest);
    parts(x, q, be32(data.len() as u32), data);
    u32_is_read(x, q, data.len() as u32);
    leaf_is_passed(x, q, TAG_TDTA, x.len());
    item_fills(x, q, key, TAG_TDTA);
}

/// An object that was written has its key and its type.
pub(crate) proof fn object_item_has_its_head(
    k: Seq<u8>,
    key: Seq<u8>,
    name: Seq<u16>,
    class: Seq<u8>,
    items: Seq<Seq<u8>>,
)
    requires
        is_key(k, key),
    ensures
        ({
            let x = object_item(k, name, class, items);
            let q = k.len() + 4;
            &&& key_of(x) == key
            &&& item_head(x, 0) == (Ok::<(Seq<u8>, u32), DescError>((key, TAG_OBJC)), q)
            &&& stands_at(x, q, object_bytes(name, class, items))
        }),
{
    tags();
    let x = object_item(k, name, class, items);
    whole_stands(x);
    head_is_read(x, 0, k, key, TAG_OBJC, object_bytes(name, class, items));
    reveal(key_of);
}

/// Is this an element of a preset list: an object with these items?
pub open spec fn is_preset(e: Seq<u8>, items: Seq<Seq<u8>>) -> bool {
    exists|name: Seq<u16>, class: Seq<u8>, id: Seq<u8>|
        {
            &&& e == ascii("Objc") + #[trigger] object_bytes(name, class, items)
            &&& #[trigger] is_key(class, id)
            &&& name.len() <= MAX_DESCRIPTOR_STRING_LEN
            &&& items.len() <= u32::MAX
        }
}

/// Is this the head of a root object: a version, a class name and a class id? A name of no
/// code units is a length of 0; one of a single code unit is a zero.
pub open spec fn is_root(root: Seq<u8>) -> bool {
    exists|version: u32, name: Seq<u16>, class: Seq<u8>, id: Seq<u8>|
        {
            &&& root == #[trigger] be32(version) + (#[trigger] unicode_bytes(name) + class)
            &&& #[trigger] is_key(class, id)
            &&& name.len() <= MAX_DESCRIPTOR_STRING_LEN
            &&& name.len() == 1 ==> name[0] == 0
        }
}

/// Are these elements of a preset list with these items?
pub open spec fn are_presets(elements: Seq<Seq<u8>>, presets: Seq<Seq<Seq<u8>>>) -> bool {
    &&& elements.len() == presets.len() <= u32::MAX
    &&& forall|i: int| 0 <= i < elements.len() ==> is_preset(#[trigger] elements[i], presets[i])
}

/// Are these items of a root object beside its preset list?
pub open spec fn are_others(items: Seq<Seq<u8>>) -> bool {
    &&& are_items(items)
    &&& forall|i: int| 0 <= i < items.len() ==> key_of(#[trigger] items[i]) != ascii("Brsh")
}

/// The bytes of a `desc` block: a root object with a preset list, and with other items
/// before and behind it.
pub open spec fn block_bytes(
    root: Seq<u8>,
    before: Seq<Seq<u8>>,
    list: Seq<u8>,
    behind: Seq<Seq<u8>>,
    tail: Seq<u8>,
) -> Seq<u8> {
    root + (be32((before.len() + 1 + behind.len()) as u32) + (joined(before) + (list + (joined(
        behind,
    ) + tail))))
}

/// Is `d` a `desc` block with these presets, each given by its items?
pub open spec fn is_block(d: Seq<u8>, presets: Seq<Seq<Seq<u8>>>) -> bool {
    exists|
        root: Seq<u8>,
        before: Seq<Seq<u8>>,
        k: Seq<u8>,
        elements: Seq<Seq<u8>>,
        behind: Seq<Seq<u8>>,
        tail: Seq<u8>,
    |
        {
            &&& d == #[trigger] block_bytes(root, before, list_item(k, elements), behind, tail)
            &&& is_root(root)
            &&& are_others(before)
            &&& is_key(k, ascii("Brsh"))
            &&& are_presets(elements, presets)
            &&& are_others(behind)
            &&& before.len() + 1 + behind.len() <= u32::MAX
        }
}

/// Are the items of each preset well formed?
pub open spec fn are_all_items(presets: Seq<Seq<Seq<u8>>>) -> bool {
    forall|i: int| 0 <= i < presets.len() ==> are_items(#[trigger] presets[i])
}

} // verus!
