//! A dump gives back each item of a `desc` block as it was written.
use vstd::prelude::*;
use crate::abr::blocks::block_stands;
use crate::abr::descriptor::{
    bytes_read, double_read, enum_read, flag_read, i32_read, item_head, object_head, raw_read,
    skip_elements, skip_items, skip_value, tag_bytes, u32_read, unicode_read, without_nul,
    DescError, MAX_DESCRIPTOR_DEPTH, MAX_DESCRIPTOR_STRING_LEN, TAG_BOOL, TAG_DOUB, TAG_ENUM,
    TAG_LONG, TAG_OBJC, TAG_TDTA, TAG_TEXT, TAG_UNTF, TAG_VLLS,
};
use crate::abr::dump::{
    dump_elements, dump_items, dump_of, dump_value, numbered, object_items, single_item, tag_chars,
    unit_number_read, walk_elements, walk_items, walk_of, with_element, with_entry, ItemView,
    PresetDumpView, ValueView, WalkView,
};
use crate::abr::local::{
    heads_move, ids_move, leaves_move, skip_moves, stands_at, texts_move, unit_numbers_move,
};
use crate::abr::order::{are_items, is_item, joined, key_of, parts_stand};
use crate::abr::written::{
    are_all_items, are_others, are_presets, block_bytes, choice_item, choice_item_is_read,
    flag_item, flag_item_is_read, head_is_read, integer_item, integer_item_is_read, is_block,
    is_key, is_preset, is_root, list_item, number_item, number_item_is_read, object_bytes,
    object_item, object_item_has_its_head, object_start, object_start_is_read, parts, percent_item,
    percent_item_is_read, raw_item, raw_item_is_read, text_item, text_item_is_read, whole_stands,
};
use crate::fixture::{be32, be64};
use crate::round_trip::{double_is_read, tags, u32_is_read};
use crate::support::double::Double;
use crate::support::text::{ascii, utf16_text, utf8_lossy_text};

verus! {

/// Is a walked value whole: read to `end`, with nothing that ended the walk?
pub open spec fn is_whole<T, S>(walked: (Result<(T, Option<S>), DescError>, nat), end: nat) -> bool {
    walked matches (Ok((_, None)), q) && q == end
}

proof fn value_is_dumped(
    d: Seq<u8>,
    p: nat,
    x: Seq<u8>,
    i: nat,
    tag: u32,
    depth: nat,
    key: Seq<u8>,
    index: nat,
    other: Seq<u8>,
    n: nat,
)
    requires
        stands_at(d, p, x),
        skip_value(x, i, tag, depth).0 is Ok,
    ensures
        is_whole(dump_value(d, p + i, tag, depth, key, index), p + skip_value(x, i, tag, depth).1),
        is_whole(dump_value(x, i, tag, depth, other, n), skip_value(x, i, tag, depth).1),
        dump_value(d, p + i, tag, depth, key, index).0 == dump_value(x, i, tag, depth, other, n).0,
    decreases MAX_DESCRIPTOR_DEPTH + 1 - depth, 0nat,
{
    leaves_move(d, p, x, i);
    texts_move(d, p, x, i);
    ids_move(d, p, x, i);
    heads_move(d, p, x, i);
    unit_numbers_move(d, p, x, i);
    if tag == TAG_VLLS {
        let (count, q) = u32_read(x, i);
        let c = count->Ok_0 as nat;
        elements_are_dumped(d, p, x, q, c, depth + 1, key, index, other, n, seq![]);
    } else if tag == TAG_OBJC {
        let (head, q) = object_head(x, i);
        let c = head->Ok_0.1 as nat;
        items_are_dumped(d, p, x, q, c, depth + 1, index, n, seq![]);
    }
}

proof fn elements_are_dumped(
    d: Seq<u8>,
    p: nat,
    x: Seq<u8>,
    i: nat,
    c: nat,
    depth: nat,
    key: Seq<u8>,
    index: nat,
    other: Seq<u8>,
    n: nat,
    done: Seq<ValueView>,
)
    requires
        stands_at(d, p, x),
        skip_elements(x, i, c, depth).0 is Ok,
    ensures
        is_whole(
            dump_elements(d, p + i, c, depth, key, index, done),
            p + skip_elements(x, i, c, depth).1,
        ),
        is_whole(
            dump_elements(x, i, c, depth, other, n, done),
            skip_elements(x, i, c, depth).1,
        ),
        dump_elements(d, p + i, c, depth, key, index, done).0 == dump_elements(
            x,
            i,
            c,
            depth,
            other,
            n,
            done,
        ).0,
    decreases MAX_DESCRIPTOR_DEPTH + 1 - depth, c + 1,
{
    if c > 0 {
        leaves_move(d, p, x, i);
        let (tag, q) = u32_read(x, i);
        value_is_dumped(d, p, x, q, tag->Ok_0, depth, key, index, other, n);
        let (v, at) = dump_value(x, q, tag->Ok_0, depth, other, n);
        elements_are_dumped(
            d,
            p,
            x,
            at,
            (c - 1) as nat,
            depth,
            key,
            index,
            other,
            n,
            done.push(v->Ok_0.0),
        );
    }
}

proof fn items_are_dumped(
    d: Seq<u8>,
    p: nat,
    x: Seq<u8>,
    i: nat,
    c: nat,
    depth: nat,
    index: nat,
    n: nat,
    done: Seq<ItemView>,
)
    requires
        stands_at(d, p, x),
        skip_items(x, i, c, depth).0 is Ok,
    ensures
        is_whole(
            dump_items(d, p + i, c, depth, index, done),
            p + skip_items(x, i, c, depth).1,
        ),
        is_whole(dump_items(x, i, c, depth, n, done), skip_items(x, i, c, depth).1),
        dump_items(d, p + i, c, depth, index, done).0 == dump_items(x, i, c, depth, n, done).0,
    decreases MAX_DESCRIPTOR_DEPTH + 1 - depth, c + 1,
{
    if c > 0 {
        heads_move(d, p, x, i);
        let (head, q) = item_head(x, i);
        let (key, tag) = head->Ok_0;
        value_is_dumped(d, p, x, q, tag, depth, key, index, key, n);
        let (v, at) = dump_value(x, q, tag, depth, key, n);
        let item = ItemView {
            key: utf8_lossy_text(key),
            type_tag: tag_chars(tag),
            depth,
            value: v->Ok_0.0,
        };
        items_are_dumped(d, p, x, at, (c - 1) as nat, depth, index, n, done.push(item));
    }
}

/// Is an item well formed at this depth: a key, a known type and a value that fills it?
#[verifier::opaque]
pub open spec fn is_item_at(x: Seq<u8>, depth: nat) -> bool {
    let (head, q) = item_head(x, 0);
    &&& head is Ok
    &&& skip_value(x, q, head->Ok_0.1, depth).0 is Ok
    &&& skip_value(x, q, head->Ok_0.1, depth).1 == x.len()
}

/// Are the items well formed at this depth?
pub open spec fn are_items_at(items: Seq<Seq<u8>>, depth: nat) -> bool {
    forall|i: int| 0 <= i < items.len() ==> is_item_at(#[trigger] items[i], depth)
}

/// What a dump holds of an item that stands at this depth: what it holds of the item alone.
#[verifier::opaque]
pub open spec fn dumped(x: Seq<u8>, depth: nat) -> ItemView {
    dump_items(x, 0, 1, depth, 0, seq![]).0->Ok_0.0[0]
}

/// What a dump holds of items that stand at this depth.
pub open spec fn all_dumped(items: Seq<Seq<u8>>, depth: nat) -> Seq<ItemView> {
    Seq::new(items.len(), |i: int| dumped(items[i], depth))
}

proof fn dumped_is_its_value(x: Seq<u8>, depth: nat, key: Seq<u8>, tag: u32, q: nat)
    requires
        item_head(x, 0) == (Ok::<(Seq<u8>, u32), DescError>((key, tag)), q),
        skip_value(x, q, tag, depth).0 is Ok,
    ensures
        is_whole(dump_value(x, q, tag, depth, key, 0), skip_value(x, q, tag, depth).1),
        dumped(x, depth) == (ItemView {
            key: utf8_lossy_text(key),
            type_tag: tag_chars(tag),
            depth,
            value: dump_value(x, q, tag, depth, key, 0).0->Ok_0.0,
        }),
{
    whole_stands(x);
    value_is_dumped(x, 0, x, q, tag, depth, key, 0, key, 0);
    let (v, at) = dump_value(x, q, tag, depth, key, 0);
    let item = ItemView {
        key: utf8_lossy_text(key),
        type_tag: tag_chars(tag),
        depth,
        value: v->Ok_0.0,
    };
    let none: Seq<ItemView> = seq![];
    reveal(dumped);
    assert(dump_items(x, at, 0, depth, 0, none.push(item)).0->Ok_0.0 == none.push(item));
    assert(dump_items(x, 0, 1, depth, 0, none) == dump_items(x, at, 0, depth, 0, none.push(item)));
    assert(none.push(item)[0] == item);
}

proof fn an_item_is_dumped(
    d: Seq<u8>,
    p: nat,
    x: Seq<u8>,
    n: nat,
    depth: nat,
    index: nat,
    done: Seq<ItemView>,
)
    requires
        is_item_at(x, depth),
        stands_at(d, p, x),
        n > 0,
    ensures
        dump_items(d, p, n, depth, index, done) == dump_items(
            d,
            p + x.len(),
            (n - 1) as nat,
            depth,
            index,
            done.push(dumped(x, depth)),
        ),
{
    reveal(is_item_at);
    let (head, q) = item_head(x, 0);
    let (key, tag) = head->Ok_0;
    heads_move(d, p, x, 0);
    value_is_dumped(d, p, x, q, tag, depth, key, index, key, 0);
    dumped_is_its_value(x, depth, key, tag, q);
    assert(item_head(d, p) == (Ok::<(Seq<u8>, u32), DescError>((key, tag)), p + q));
}

proof fn joined_items_are_dumped(
    d: Seq<u8>,
    p: nat,
    items: Seq<Seq<u8>>,
    depth: nat,
    index: nat,
    done: Seq<ItemView>,
)
    requires
        are_items_at(items, depth),
        stands_at(d, p, joined(items)),
    ensures
        is_whole(dump_items(d, p, items.len(), depth, index, done), p + joined(items).len()),
        dump_items(d, p, items.len(), depth, index, done).0->Ok_0.0 == done + all_dumped(
            items,
            depth,
        ),
    decreases items.len(),
{
    if items.len() == 0 {
        assert(done + all_dumped(items, depth) =~= done);
    } else {
        let x = items[0];
        let rest = items.drop_first();
        assert(is_item_at(x, depth));
        assert forall|i: int| 0 <= i < rest.len() implies is_item_at(#[trigger] rest[i], depth) by {
            assert(rest[i] == items[i + 1]);
        }
        parts_stand(d, p, x, joined(rest));
        an_item_is_dumped(d, p, x, items.len(), depth, index, done);
        let item = dumped(x, depth);
        joined_items_are_dumped(d, p + x.len(), rest, depth, index, done.push(item));
        assert(done.push(item) + all_dumped(rest, depth) =~= done + all_dumped(items, depth));
    }
}

proof fn items_stand_alone(items: Seq<Seq<u8>>)
    requires
        are_items(items),
    ensures
        are_items_at(items, 0),
{
    assert forall|i: int| 0 <= i < items.len() implies is_item_at(#[trigger] items[i], 0) by {
        assert(is_item(items[i]));
        reveal(is_item);
        reveal(is_item_at);
    }
}

/// What a dump holds of items that each stand by themselves.
pub open spec fn single_dumped(items: Seq<Seq<u8>>) -> Seq<Seq<ItemView>> {
    Seq::new(items.len(), |i: int| seq![dumped(items[i], 0)])
}

proof fn an_other_is_walked(d: Seq<u8>, p: nat, x: Seq<u8>, n: nat, w: WalkView)
    requires
        is_item(x),
        key_of(x) != ascii("Brsh"),
        stands_at(d, p, x),
        w.stop is None,
        n > 0,
    ensures
        walk_items(d, p, n, w) == walk_items(
            d,
            p + x.len(),
            (n - 1) as nat,
            WalkView { others: w.others.push(seq![dumped(x, 0)]), ..w },
        ),
{
    reveal(is_item);
    reveal(key_of);
    let (head, q) = item_head(x, 0);
    let (key, tag) = head->Ok_0;
    heads_move(d, p, x, 0);
    let index = w.next_index(false);
    value_is_dumped(d, p, x, q, tag, 0, key, index, key, 0);
    dumped_is_its_value(x, 0, key, tag, q);
    assert(item_head(d, p) == (Ok::<(Seq<u8>, u32), DescError>((key, tag)), p + q));
}

proof fn others_are_walked(d: Seq<u8>, p: nat, items: Seq<Seq<u8>>, n: nat, w: WalkView)
    requires
        are_others(items),
        stands_at(d, p, joined(items)),
        w.stop is None,
        items.len() <= n,
    ensures
        walk_items(d, p, n, w) == walk_items(
            d,
            p + joined(items).len(),
            (n - items.len()) as nat,
            WalkView { others: w.others + single_dumped(items), ..w },
        ),
    decreases items.len(),
{
    if items.len() == 0 {
        assert(w.others + single_dumped(items) =~= w.others);
    } else {
        let x = items[0];
        let rest = items.drop_first();
        parts_stand(d, p, x, joined(rest));
        assert(is_item(x) && key_of(x) != ascii("Brsh"));
        assert forall|i: int| 0 <= i < rest.len() implies is_item(#[trigger] rest[i]) by {
            assert(rest[i] == items[i + 1]);
        }
        assert forall|i: int| 0 <= i < rest.len() implies key_of(#[trigger] rest[i]) != ascii(
            "Brsh",
        ) by {
            assert(rest[i] == items[i + 1]);
        }
        an_other_is_walked(d, p, x, n, w);
        let then = WalkView { others: w.others.push(seq![dumped(x, 0)]), ..w };
        others_are_walked(d, p + x.len(), rest, (n - 1) as nat, then);
        assert(then.others + single_dumped(rest) =~= w.others + single_dumped(items));
    }
}

/// What a dump holds of presets.
pub open spec fn presets_dumped(presets: Seq<Seq<Seq<u8>>>) -> Seq<Seq<ItemView>> {
    Seq::new(presets.len(), |i: int| all_dumped(presets[i], 0))
}

proof fn a_preset_is_walked(d: Seq<u8>, p: nat, e: Seq<u8>, items: Seq<Seq<u8>>, w: WalkView)
    requires
        is_preset(e, items),
        are_items(items),
        stands_at(d, p, e),
        w.stop is None,
    ensures
        u32_read(d, p) == (Ok::<u32, DescError>(TAG_OBJC), p + 4),
        with_element(d, p + 4, TAG_OBJC, w) == (
            WalkView { presets: w.presets.push(all_dumped(items, 0)), ..w },
            Some((p + e.len()) as nat),
        ),
{
    let (name, class, id) = choose|name: Seq<u16>, class: Seq<u8>, id: Seq<u8>|
        {
            &&& e == ascii("Objc") + #[trigger] object_bytes(name, class, items)
            &&& #[trigger] is_key(class, id)
            &&& name.len() <= MAX_DESCRIPTOR_STRING_LEN
            &&& items.len() <= u32::MAX
        };
    tags();
    let body = object_bytes(name, class, items);
    parts(d, p, be32(TAG_OBJC), body);
    u32_is_read(d, p, TAG_OBJC);
    let start = object_start(name, class, items.len());
    parts(d, p + 4, start, joined(items));
    object_start_is_read(d, p + 4, name, class, id, items.len());
    items_stand_alone(items);
    let none: Seq<ItemView> = seq![];
    joined_items_are_dumped(d, p + 4 + start.len(), items, 0, w.next_index(true), none);
    assert(none + all_dumped(items, 0) =~= all_dumped(items, 0));
}

#[verifier::spinoff_prover]
#[verifier::rlimit(30)]
proof fn presets_are_walked(
    d: Seq<u8>,
    p: nat,
    elements: Seq<Seq<u8>>,
    presets: Seq<Seq<Seq<u8>>>,
    w: WalkView,
)
    requires
        are_presets(elements, presets),
        are_all_items(presets),
        stands_at(d, p, joined(elements)),
        w.stop is None,
    ensures
        walk_elements(d, p, elements.len(), w) == (
            WalkView { presets: w.presets + presets_dumped(presets), ..w },
            Some((p + joined(elements).len()) as nat),
        ),
    decreases elements.len(),
{
    if elements.len() == 0 {
        assert(w.presets + presets_dumped(presets) =~= w.presets);
    } else {
        let e = elements[0];
        let rest = elements.drop_first();
        let more = presets.drop_first();
        parts_stand(d, p, e, joined(rest));
        assert(is_preset(e, presets[0]));
        assert(are_items(presets[0]));
        a_preset_is_walked(d, p, e, presets[0], w);
        assert forall|i: int| 0 <= i < rest.len() implies is_preset(#[trigger] rest[i], more[i]) by {
            assert(rest[i] == elements[i + 1] && more[i] == presets[i + 1]);
        }
        assert forall|i: int| 0 <= i < more.len() implies are_items(#[trigger] more[i]) by {
            assert(more[i] == presets[i + 1]);
        }
        let then = WalkView { presets: w.presets.push(all_dumped(presets[0], 0)), ..w };
        presets_are_walked(d, p + e.len(), rest, more, then);
        assert(then.presets + presets_dumped(more) =~= w.presets + presets_dumped(presets));
    }
}

proof fn list_is_walked(
    d: Seq<u8>,
    q: nat,
    k: Seq<u8>,
    elements: Seq<Seq<u8>>,
    presets: Seq<Seq<Seq<u8>>>,
    n: nat,
    w: WalkView,
)
    requires
        is_key(k, ascii("Brsh")),
        are_presets(elements, presets),
        are_all_items(presets),
        stands_at(d, q, list_item(k, elements)),
        w.stop is None,
        n > 0,
    ensures
        walk_items(d, q, n, w) == walk_items(
            d,
            q + list_item(k, elements).len(),
            (n - 1) as nat,
            WalkView { presets: w.presets + presets_dumped(presets), ..w },
        ),
{
    tags();
    let body = be32(elements.len() as u32) + joined(elements);
    head_is_read(d, q, k, ascii("Brsh"), TAG_VLLS, body);
    let at = q + k.len() + 4;
    parts(d, at, be32(elements.len() as u32), joined(elements));
    u32_is_read(d, at, elements.len() as u32);
    presets_are_walked(d, at + 4, elements, presets, w);
    assert(at + 4 + joined(elements).len() == q + list_item(k, elements).len());
}

/// A dump of a block holds every preset under its number, with every item in its place; no
/// other entry comes before them, and nothing ends the walk.
pub proof fn every_item_is_dumped(d: Seq<u8>, presets: Seq<Seq<Seq<u8>>>)
    requires
        is_block(d, presets),
        are_all_items(presets),
    ensures
        dump_of(d).stop is None,
        dump_of(d).presets.len() >= presets.len(),
        forall|i: int|
            0 <= i < presets.len() ==> {
                &&& (#[trigger] dump_of(d).presets[i]).index == i
                &&& dump_of(d).presets[i].items == all_dumped(presets[i], 0)
            },
{
    let (root, before, k, elements, behind, tail) = choose|
        root: Seq<u8>,
        before: Seq<Seq<u8>>,
        k: Seq<u8>,
        elements: Seq<Seq<u8>>,
        behind: Seq<Seq<u8>>,
        tail: Seq<u8>,
    |
        {
            &&& d == #[trigger] block_bytes(root, before, list_item(k, elements), behind, tail)
            &&& is_root(root)
            &&& are_others(before)
            &&& is_key(k, ascii("Brsh"))
            &&& are_presets(elements, presets)
            &&& are_others(behind)
            &&& before.len() + 1 + behind.len() <= u32::MAX
        };
    let list = list_item(k, elements);
    let count = before.len() + 1 + behind.len();
    block_stands(root, before, list, behind, tail);
    let p = root.len() + 4;
    let q = p + joined(before).len();
    let empty = WalkView { presets: seq![], others: seq![], stop: None };
    others_are_walked(d, p, before, count, empty);
    let first = WalkView { others: empty.others + single_dumped(before), ..empty };
    list_is_walked(d, q, k, elements, presets, (behind.len() + 1) as nat, first);
    let second = WalkView { presets: first.presets + presets_dumped(presets), ..first };
    others_are_walked(d, q + list.len(), behind, behind.len(), second);
    let third = WalkView { others: second.others + single_dumped(behind), ..second };
    assert(walk_of(d).0 == third);
    assert(third.presets =~= presets_dumped(presets));
    assert forall|i: int| 0 <= i < presets.len() implies {
        &&& (#[trigger] dump_of(d).presets[i]).index == i
        &&& dump_of(d).presets[i].items == all_dumped(presets[i], 0)
    } by {
        assert((third.presets + third.others)[i] == presets_dumped(presets)[i]);
    }
}

/// The text of a type.
pub proof fn types_are_named()
    ensures
        tag_chars(TAG_BOOL) == utf8_lossy_text(ascii("bool")),
        tag_chars(TAG_LONG) == utf8_lossy_text(ascii("long")),
        tag_chars(TAG_DOUB) == utf8_lossy_text(ascii("doub")),
        tag_chars(TAG_TEXT) == utf8_lossy_text(ascii("TEXT")),
        tag_chars(TAG_ENUM) == utf8_lossy_text(ascii("enum")),
        tag_chars(TAG_UNTF) == utf8_lossy_text(ascii("UntF")),
        tag_chars(TAG_OBJC) == utf8_lossy_text(ascii("Objc")),
        tag_chars(TAG_VLLS) == utf8_lossy_text(ascii("VlLs")),
        tag_chars(TAG_TDTA) == utf8_lossy_text(ascii("tdta")),
{
    tags();
    assert forall|t: u32| #[trigger] tag_bytes(t) == be32(t) by {
        assert(tag_bytes(t) =~= be32(t));
    }
}

proof fn unit_is_read(x: Seq<u8>, q: nat, unit: Seq<u8>, v: Double)
    requires
        unit.len() == 4,
        stands_at(x, q, unit + be64(v.bits)),
    ensures
        unit_number_read(x, q) == (Ok::<(Seq<u8>, Double), DescError>((unit, v)), q + 12),
{
    parts(x, q, unit, be64(v.bits));
    double_is_read(x, q + 4, v.bits);
}

/// A value of a plain type is passed over the same at every depth.
proof fn leaf_is_passed_at(x: Seq<u8>, q: nat, tag: u32, depth: nat)
    requires
        depth <= MAX_DESCRIPTOR_DEPTH,
        tag != TAG_VLLS,
        tag != TAG_OBJC,
    ensures
        skip_value(x, q, tag, depth) == skip_value(x, q, tag, 0),
{
}

/// A flag is dumped as it was written, under its key and its type, at whatever depth it stands.
pub proof fn flag_is_dumped(k: Seq<u8>, key: Seq<u8>, v: u8, depth: nat)
    requires
        is_key(k, key),
        depth <= MAX_DESCRIPTOR_DEPTH,
    ensures
        is_item_at(flag_item(k, v), depth),
        dumped(flag_item(k, v), depth) == (ItemView {
            key: utf8_lossy_text(key),
            type_tag: utf8_lossy_text(ascii("bool")),
            depth,
            value: ValueView::Bool(v != 0),
        }),
{
    types_are_named();
    flag_item_is_read(k, key, v);
    let x = flag_item(k, v);
    let q = k.len() + 4;
    leaf_is_passed_at(x, q, TAG_BOOL, depth);
    dumped_is_its_value(x, depth, key, TAG_BOOL, q);
    reveal(is_item_at);
}

/// An integer is dumped as it was written, under its key and its type, at whatever depth it stands.
pub proof fn integer_is_dumped(k: Seq<u8>, key: Seq<u8>, n: i32, depth: nat)
    requires
        is_key(k, key),
        depth <= MAX_DESCRIPTOR_DEPTH,
    ensures
        is_item_at(integer_item(k, n), depth),
        dumped(integer_item(k, n), depth) == (ItemView {
            key: utf8_lossy_text(key),
            type_tag: utf8_lossy_text(ascii("long")),
            depth,
            value: ValueView::Long(n),
        }),
{
    types_are_named();
    integer_item_is_read(k, key, n);
    let x = integer_item(k, n);
    let q = k.len() + 4;
    leaf_is_passed_at(x, q, TAG_LONG, depth);
    dumped_is_its_value(x, depth, key, TAG_LONG, q);
    reveal(is_item_at);
}

/// A number is dumped as it was written, under its key and its type, at whatever depth it stands.
pub proof fn number_is_dumped(k: Seq<u8>, key: Seq<u8>, v: Double, depth: nat)
    requires
        is_key(k, key),
        depth <= MAX_DESCRIPTOR_DEPTH,
    ensures
        is_item_at(number_item(k, v), depth),
        dumped(number_item(k, v), depth) == (ItemView {
            key: utf8_lossy_text(key),
            type_tag: utf8_lossy_text(ascii("doub")),
            depth,
            value: ValueView::Doub(v),
        }),
{
    types_are_named();
    number_item_is_read(k, key, v);
    let x = number_item(k, v);
    let q = k.len() + 4;
    leaf_is_passed_at(x, q, TAG_DOUB, depth);
    dumped_is_its_value(x, depth, key, TAG_DOUB, q);
    reveal(is_item_at);
}

/// A text is dumped as it was written, under its key and its type, at whatever depth it stands.
pub proof fn text_is_dumped(k: Seq<u8>, key: Seq<u8>, units: Seq<u16>, depth: nat)
    requires
        is_key(k, key),
        units.len() <= MAX_DESCRIPTOR_STRING_LEN,
        depth <= MAX_DESCRIPTOR_DEPTH,
    ensures
        is_item_at(text_item(k, units), depth),
        dumped(text_item(k, units), depth) == (ItemView {
            key: utf8_lossy_text(key),
            type_tag: utf8_lossy_text(ascii("TEXT")),
            depth,
            value: ValueView::Text(utf16_text(without_nul(units))),
        }),
{
    types_are_named();
    text_item_is_read(k, key, units);
    let x = text_item(k, units);
    let q = k.len() + 4;
    leaf_is_passed_at(x, q, TAG_TEXT, depth);
    dumped_is_its_value(x, depth, key, TAG_TEXT, q);
    reveal(is_item_at);
}

/// An enumerated value is dumped as it was written, under its key and its type, at whatever depth it stands.
pub proof fn choice_is_dumped(k: Seq<u8>, key: Seq<u8>, a: Seq<u8>, kind: Seq<u8>, b: Seq<u8>, value: Seq<u8>, depth: nat)
    requires
        is_key(k, key),
        is_key(a, kind),
        is_key(b, value),
        depth <= MAX_DESCRIPTOR_DEPTH,
    ensures
        is_item_at(choice_item(k, a, b), depth),
        dumped(choice_item(k, a, b), depth) == (ItemView {
            key: utf8_lossy_text(key),
            type_tag: utf8_lossy_text(ascii("enum")),
            depth,
            value: ValueView::Enum {
                enum_type: utf8_lossy_text(kind),
                enum_value: utf8_lossy_text(value),
            },
        }),
{
    types_are_named();
    choice_item_is_read(k, key, a, kind, b, value);
    let x = choice_item(k, a, b);
    let q = k.len() + 4;
    leaf_is_passed_at(x, q, TAG_ENUM, depth);
    dumped_is_its_value(x, depth, key, TAG_ENUM, q);
    reveal(is_item_at);
}

/// A number with a unit is dumped as it was written, under its key and its type, at whatever depth it stands.
pub proof fn percent_is_dumped(k: Seq<u8>, key: Seq<u8>, unit: Seq<u8>, v: Double, depth: nat)
    requires
        is_key(k, key),
        unit.len() == 4,
        depth <= MAX_DESCRIPTOR_DEPTH,
    ensures
        is_item_at(percent_item(k, unit, v), depth),
        dumped(percent_item(k, unit, v), depth) == (ItemView {
            key: utf8_lossy_text(key),
            type_tag: utf8_lossy_text(ascii("UntF")),
            depth,
            value: ValueView::UnitFloat { unit: utf8_lossy_text(unit), number: v },
        }),
{
    types_are_named();
    percent_item_is_read(k, key, unit, v);
    tags();
    let x = percent_item(k, unit, v);
    let rest = unit + be64(v.bits);
    whole_stands(x);
    head_is_read(x, 0, k, key, TAG_UNTF, rest);
    unit_is_read(x, k.len() + 4, unit, v);
    let x = percent_item(k, unit, v);
    let q = k.len() + 4;
    leaf_is_passed_at(x, q, TAG_UNTF, depth);
    dumped_is_its_value(x, depth, key, TAG_UNTF, q);
    reveal(is_item_at);
}

/// Raw data is dumped with its length, under its key and its type, at whatever depth it stands.
pub proof fn raw_is_dumped(k: Seq<u8>, key: Seq<u8>, data: Seq<u8>, depth: nat)
    requires
        is_key(k, key),
        data.len() <= MAX_DESCRIPTOR_STRING_LEN,
        depth <= MAX_DESCRIPTOR_DEPTH,
    ensures
        is_item_at(raw_item(k, data), depth),
        dumped(raw_item(k, data), depth) == (ItemView {
            key: utf8_lossy_text(key),
            type_tag: utf8_lossy_text(ascii("tdta")),
            depth,
            value: ValueView::Tdta { tdta_len: data.len() },
        }),
{
    types_are_named();
    raw_item_is_read(k, key, data);
    let x = raw_item(k, data);
    let q = k.len() + 4;
    leaf_is_passed_at(x, q, TAG_TDTA, depth);
    dumped_is_its_value(x, depth, key, TAG_TDTA, q);
    reveal(is_item_at);
}

/// An object is dumped with its class and its items, which stand one deeper.
pub proof fn object_is_dumped(
    k: Seq<u8>,
    key: Seq<u8>,
    name: Seq<u16>,
    class: Seq<u8>,
    id: Seq<u8>,
    items: Seq<Seq<u8>>,
    depth: nat,
)
    requires
        is_key(k, key),
        name.len() <= MAX_DESCRIPTOR_STRING_LEN,
        is_key(class, id),
        items.len() <= u32::MAX,
        depth <= MAX_DESCRIPTOR_DEPTH,
        are_items_at(items, depth + 1),
    ensures
        is_item_at(object_item(k, name, class, items), depth),
        dumped(object_item(k, name, class, items), depth) == (ItemView {
            key: utf8_lossy_text(key),
            type_tag: utf8_lossy_text(ascii("Objc")),
            depth,
            value: ValueView::Objc {
                class_id: utf8_lossy_text(id),
                items: all_dumped(items, depth + 1),
            },
        }),
{
    let x = object_item(k, name, class, items);
    let q = k.len() + 4;
    object_item_has_its_head(k, key, name, class, items);
    assert(ascii("Objc").len() == 4) by {
        tags();
    }
    assert(tag_chars(TAG_OBJC) == utf8_lossy_text(ascii("Objc"))) by {
        types_are_named();
    }
    assert(x.len() == q + object_bytes(name, class, items).len());
    object_is_walked(x, q, key, name, class, id, items, depth);
    whole_item_is_dumped(x, q, key, TAG_OBJC, depth);
}

proof fn whole_item_is_dumped(x: Seq<u8>, q: nat, key: Seq<u8>, tag: u32, depth: nat)
    requires
        item_head(x, 0) == (Ok::<(Seq<u8>, u32), DescError>((key, tag)), q),
        skip_value(x, q, tag, depth) == (Ok::<(), DescError>(()), x.len()),
    ensures
        is_item_at(x, depth),
        dumped(x, depth) == (ItemView {
            key: utf8_lossy_text(key),
            type_tag: tag_chars(tag),
            depth,
            value: dump_value(x, q, tag, depth, key, 0).0->Ok_0.0,
        }),
{
    reveal(is_item_at);
    dumped_is_its_value(x, depth, key, tag, q);
}

proof fn object_is_walked(
    x: Seq<u8>,
    q: nat,
    key: Seq<u8>,
    name: Seq<u16>,
    class: Seq<u8>,
    id: Seq<u8>,
    items: Seq<Seq<u8>>,
    depth: nat,
)
    requires
        name.len() <= MAX_DESCRIPTOR_STRING_LEN,
        is_key(class, id),
        items.len() <= u32::MAX,
        depth <= MAX_DESCRIPTOR_DEPTH,
        are_items_at(items, depth + 1),
        stands_at(x, q, object_bytes(name, class, items)),
    ensures
        skip_value(x, q, TAG_OBJC, depth) == (
            Ok::<(), DescError>(()),
            q + object_bytes(name, class, items).len(),
        ),
        dump_value(x, q, TAG_OBJC, depth, key, 0).0 is Ok,
        dump_value(x, q, TAG_OBJC, depth, key, 0).0->Ok_0.0 == (ValueView::Objc {
            class_id: utf8_lossy_text(id),
            items: all_dumped(items, depth + 1),
        }),
{
    let start = object_start(name, class, items.len());
    parts(x, q, start, joined(items));
    object_start_is_read(x, q, name, class, id, items.len());
    let at = q + start.len();
    let none: Seq<ItemView> = seq![];
    joined_items_are_dumped(x, at, items, depth + 1, 0, none);
    assert(none + all_dumped(items, depth + 1) =~= all_dumped(items, depth + 1));
    joined_items_are_passed(x, at, items, depth + 1);
}

proof fn joined_items_are_passed(d: Seq<u8>, p: nat, items: Seq<Seq<u8>>, depth: nat)
    requires
        are_items_at(items, depth),
        stands_at(d, p, joined(items)),
    ensures
        skip_items(d, p, items.len(), depth) == (Ok::<(), DescError>(()), p + joined(items).len()),
    decreases items.len(),
{
    if items.len() > 0 {
        let x = items[0];
        let rest = items.drop_first();
        assert(is_item_at(x, depth));
        assert forall|i: int| 0 <= i < rest.len() implies is_item_at(#[trigger] rest[i], depth) by {
            assert(rest[i] == items[i + 1]);
        }
        parts_stand(d, p, x, joined(rest));
        reveal(is_item_at);
        let (head, q) = item_head(x, 0);
        heads_move(d, p, x, 0);
        skip_moves(d, p, x, q, head->Ok_0.1, depth);
        joined_items_are_passed(d, p + x.len(), rest, depth);
    }
}

/// Is this an element of a list at this depth: a known type and a value that fills it?
#[verifier::opaque]
pub open spec fn is_element_at(e: Seq<u8>, depth: nat) -> bool {
    let (tag, q) = u32_read(e, 0);
    &&& tag is Ok
    &&& skip_value(e, q, tag->Ok_0, depth).0 is Ok
    &&& skip_value(e, q, tag->Ok_0, depth).1 == e.len()
}

/// Are these elements of a list at this depth?
pub open spec fn are_elements_at(elements: Seq<Seq<u8>>, depth: nat) -> bool {
    forall|i: int| 0 <= i < elements.len() ==> is_element_at(#[trigger] elements[i], depth)
}

/// What a dump holds of the elements of a list under a key: the values that they have as items
/// under that key.
pub open spec fn elements_dumped(k: Seq<u8>, elements: Seq<Seq<u8>>, depth: nat) -> Seq<ValueView> {
    Seq::new(elements.len(), |i: int| dumped(k + elements[i], depth).value)
}

proof fn an_element_is_an_item(k: Seq<u8>, key: Seq<u8>, e: Seq<u8>, depth: nat)
    requires
        is_key(k, key),
        is_element_at(e, depth),
    ensures
        ({
            let tag = u32_read(e, 0).0->Ok_0;
            let x = k + e;
            &&& item_head(x, 0) == (Ok::<(Seq<u8>, u32), DescError>((key, tag)), k.len() + 4)
            &&& dumped(x, depth).value == dump_value(e, 4, tag, depth, key, 0).0->Ok_0.0
        }),
{
    reveal(is_element_at);
    let x = k + e;
    let tag = u32_read(e, 0).0->Ok_0;
    whole_stands(x);
    parts(x, 0, k, e);
    crate::abr::written::key_is_read(x, 0, k, key);
    leaves_move(x, k.len(), e, 0);
    skip_moves(x, k.len(), e, 4, tag, depth);
    value_is_dumped(x, k.len(), e, 4, tag, depth, key, 0, key, 0);
    dumped_is_its_value(x, depth, key, tag, k.len() + 4);
}

proof fn an_element_is_walked(
    d: Seq<u8>,
    p: nat,
    k: Seq<u8>,
    key: Seq<u8>,
    e: Seq<u8>,
    n: nat,
    depth: nat,
    done: Seq<ValueView>,
)
    requires
        is_key(k, key),
        is_element_at(e, depth),
        stands_at(d, p, e),
        n > 0,
    ensures
        dump_elements(d, p, n, depth, key, 0, done) == dump_elements(
            d,
            p + e.len(),
            (n - 1) as nat,
            depth,
            key,
            0,
            done.push(dumped(k + e, depth).value),
        ),
        skip_elements(d, p, n, depth) == skip_elements(d, p + e.len(), (n - 1) as nat, depth),
{
    an_element_is_an_item(k, key, e, depth);
    reveal(is_element_at);
    let tag = u32_read(e, 0).0->Ok_0;
    leaves_move(d, p, e, 0);
    skip_moves(d, p, e, 4, tag, depth);
    value_is_dumped(d, p, e, 4, tag, depth, key, 0, key, 0);
}

proof fn joined_elements_are_walked(
    d: Seq<u8>,
    p: nat,
    k: Seq<u8>,
    key: Seq<u8>,
    elements: Seq<Seq<u8>>,
    depth: nat,
    done: Seq<ValueView>,
)
    requires
        is_key(k, key),
        are_elements_at(elements, depth),
        stands_at(d, p, joined(elements)),
    ensures
        is_whole(
            dump_elements(d, p, elements.len(), depth, key, 0, done),
            p + joined(elements).len(),
        ),
        dump_elements(d, p, elements.len(), depth, key, 0, done).0->Ok_0.0 == done
            + elements_dumped(k, elements, depth),
        skip_elements(d, p, elements.len(), depth) == (
            Ok::<(), DescError>(()),
            p + joined(elements).len(),
        ),
    decreases elements.len(),
{
    if elements.len() == 0 {
        assert(done + elements_dumped(k, elements, depth) =~= done);
    } else {
        let e = elements[0];
        let rest = elements.drop_first();
        assert(is_element_at(e, depth));
        assert forall|i: int| 0 <= i < rest.len() implies is_element_at(
            #[trigger] rest[i],
            depth,
        ) by {
            assert(rest[i] == elements[i + 1]);
        }
        parts_stand(d, p, e, joined(rest));
        an_element_is_walked(d, p, k, key, e, elements.len(), depth, done);
        let more = done.push(dumped(k + e, depth).value);
        joined_elements_are_walked(d, p + e.len(), k, key, rest, depth, more);
        assert(more + elements_dumped(k, rest, depth) =~= done + elements_dumped(
            k,
            elements,
            depth,
        ));
    }
}

/// A list is dumped with its elements in their order, each with the value that it has as an item
/// one deeper.
pub proof fn list_is_dumped(k: Seq<u8>, key: Seq<u8>, elements: Seq<Seq<u8>>, depth: nat)
    requires
        is_key(k, key),
        elements.len() <= u32::MAX,
        depth <= MAX_DESCRIPTOR_DEPTH,
        are_elements_at(elements, depth + 1),
    ensures
        is_item_at(list_item(k, elements), depth),
        dumped(list_item(k, elements), depth) == (ItemView {
            key: utf8_lossy_text(key),
            type_tag: utf8_lossy_text(ascii("VlLs")),
            depth,
            value: ValueView::List(elements_dumped(k, elements, depth + 1)),
        }),
{
    let x = list_item(k, elements);
    let q = k.len() + 4;
    let body = be32(elements.len() as u32) + joined(elements);
    assert(ascii("VlLs") == be32(TAG_VLLS)) by {
        tags();
    }
    assert(tag_chars(TAG_VLLS) == utf8_lossy_text(ascii("VlLs"))) by {
        types_are_named();
    }
    whole_stands(x);
    head_is_read(x, 0, k, key, TAG_VLLS, body);
    assert(x.len() == q + body.len());
    list_body_is_walked(x, q, k, key, elements, depth);
    whole_item_is_dumped(x, q, key, TAG_VLLS, depth);
}

proof fn list_body_is_walked(
    x: Seq<u8>,
    q: nat,
    k: Seq<u8>,
    key: Seq<u8>,
    elements: Seq<Seq<u8>>,
    depth: nat,
)
    requires
        is_key(k, key),
        elements.len() <= u32::MAX,
        depth <= MAX_DESCRIPTOR_DEPTH,
        are_elements_at(elements, depth + 1),
        stands_at(x, q, be32(elements.len() as u32) + joined(elements)),
    ensures
        skip_value(x, q, TAG_VLLS, depth) == (
            Ok::<(), DescError>(()),
            q + 4 + joined(elements).len(),
        ),
        dump_value(x, q, TAG_VLLS, depth, key, 0).0 is Ok,
        dump_value(x, q, TAG_VLLS, depth, key, 0).0->Ok_0.0 == ValueView::List(
            elements_dumped(k, elements, depth + 1),
        ),
{
    parts(x, q, be32(elements.len() as u32), joined(elements));
    u32_is_read(x, q, elements.len() as u32);
    let none: Seq<ValueView> = seq![];
    joined_elements_are_walked(x, q + 4, k, key, elements, depth + 1, none);
    let list = elements_dumped(k, elements, depth + 1);
    assert(none + list =~= list);
}

} // verus!
