//! A `desc` block that was written is read: each preset by its own items.
use vstd::prelude::*;
use crate::abr::descriptor::{
    id_from, id_read, item_head, object_head, skip_value, u32_read, unicode_from, DescError,
    MAX_DESCRIPTOR_STRING_LEN, TAG_OBJC, TAG_VLLS,
};
use crate::abr::local::{item_head_moves, skip_moves, stands_at};
use crate::abr::order::{
    all_kept, are_items, is_item, joined, joined_preset_is_read, kept_of, key_of, parts_stand,
    with_kept,
};
use crate::abr::preset::{
    info_of, preset_list, preset_read, presets_of, root_head, root_items, BrushDescInfo, PresetItem,
};
use crate::abr::written::{
    are_all_items, are_others, are_presets, block_bytes, head_is_read, is_block, is_key, is_preset,
    is_root, key_is_read, list_item, object_bytes, object_start, object_start_is_read, parts,
    unicode_bytes, unicode_is_read, whole_stands,
};
use crate::fixture::{be16, be32};
use crate::round_trip::{tags, u32_is_read};
use crate::support::bytes::{be_u16, be_u32, fits};
use crate::support::text::ascii;

verus! {

/// What is kept of one item more.
pub(crate) proof fn kept_after(items: Seq<Seq<u8>>, x: Seq<u8>)
    ensures
        all_kept(items.push(x)) == with_kept(all_kept(items), x),
    decreases items.len(),
{
    let all = items.push(x);
    if items.len() == 0 {
        assert(all.drop_first() =~= seq![]);
        assert(all_kept(all.drop_first()) =~= seq![]);
        assert(all_kept(all) =~= with_kept(all_kept(items), x));
    } else {
        assert(all.drop_first() =~= items.drop_first().push(x));
        kept_after(items.drop_first(), x);
        assert(all_kept(all) =~= with_kept(all_kept(items), x));
    }
}

/// Items with one more.
pub(crate) proof fn more_items(items: Seq<Seq<u8>>, x: Seq<u8>)
    requires
        are_items(items),
        is_item(x),
    ensures
        are_items(items.push(x)),
{
    let all = items.push(x);
    assert forall|i: int| 0 <= i < all.len() implies is_item(#[trigger] all[i]) by {
        if i < items.len() {
            assert(all[i] == items[i]);
        }
    }
}

proof fn root_is_read(d: Seq<u8>, root: Seq<u8>)
    requires
        is_root(root),
        stands_at(d, 0, root),
    ensures
        root_head(d) == (Ok::<(), DescError>(()), root.len()),
{
    let (version, name, class, id) = choose|
        version: u32,
        name: Seq<u16>,
        class: Seq<u8>,
        id: Seq<u8>,
    |
        {
            &&& root == #[trigger] be32(version) + (#[trigger] unicode_bytes(name) + class)
            &&& #[trigger] is_key(class, id)
            &&& name.len() <= MAX_DESCRIPTOR_STRING_LEN
            &&& name.len() == 1 ==> name[0] == 0
        };
    let rest = unicode_bytes(name) + class;
    parts(d, 0, be32(version), rest);
    u32_is_read(d, 0, version);
    parts(d, 4, unicode_bytes(name), class);
    let units = crate::abr::written::utf16_bytes(name);
    parts(d, 4, be32(name.len() as u32), units);
    u32_is_read(d, 4, name.len() as u32);
    unicode_is_read(d, 4, name);
    let q = 4 + unicode_bytes(name).len();
    key_is_read(d, q, class, id);
    if name.len() == 1 {
        assert(units[0] == 0 && units[1] == 0);
        let all = d.subrange(8, 10);
        assert(all == units);
        assert(d[8] == all[0] && d[9] == all[1]);
        assert(be_u16(d, 8) == 0);
    }
}

proof fn an_other_is_passed(
    d: Seq<u8>,
    p: nat,
    x: Seq<u8>,
    n: nat,
    found: Seq<BrushDescInfo<Seq<char>>>,
)
    requires
        is_item(x),
        key_of(x) != ascii("Brsh"),
        stands_at(d, p, x),
        n > 0,
    ensures
        root_items(d, p, n, found) == root_items(d, p + x.len(), (n - 1) as nat, found),
{
    reveal(is_item);
    reveal(key_of);
    let (head, q) = item_head(x, 0);
    item_head_moves(d, p, x, 0);
    skip_moves(d, p, x, q, head->Ok_0.1, 0);
}

proof fn others_are_passed(
    d: Seq<u8>,
    p: nat,
    items: Seq<Seq<u8>>,
    n: nat,
    found: Seq<BrushDescInfo<Seq<char>>>,
)
    requires
        are_others(items),
        stands_at(d, p, joined(items)),
        items.len() <= n,
    ensures
        root_items(d, p, n, found) == root_items(
            d,
            p + joined(items).len(),
            (n - items.len()) as nat,
            found,
        ),
    decreases items.len(),
{
    if items.len() > 0 {
        let x = items[0];
        let rest = items.drop_first();
        parts_stand(d, p, x, joined(rest));
        assert(is_item(x) && key_of(x) != ascii("Brsh"));
        assert forall|i: int| 0 <= i < rest.len() implies is_item(#[trigger] rest[i]) by {
            assert(rest[i] == items[i + 1]);
        }
        assert forall|i: int| 0 <= i < rest.len() implies key_of(#[trigger] rest[i]) != ascii(
            "Brsh",
        ) by {
            assert(rest[i] == items[i + 1]);
        }
        an_other_is_passed(d, p, x, n, found);
        others_are_passed(d, p + x.len(), rest, (n - 1) as nat, found);
    }
}

/// What is said of presets by their items.
pub open spec fn infos_of_items(presets: Seq<Seq<Seq<u8>>>) -> Seq<BrushDescInfo<Seq<char>>> {
    Seq::new(presets.len(), |i: int| info_of(all_kept(presets[i])))
}

proof fn object_stands(
    d: Seq<u8>,
    p: nat,
    name: Seq<u16>,
    class: Seq<u8>,
    id: Seq<u8>,
    items: Seq<Seq<u8>>,
)
    requires
        name.len() <= MAX_DESCRIPTOR_STRING_LEN,
        is_key(class, id),
        items.len() <= u32::MAX,
        are_items(items),
        stands_at(d, p, object_bytes(name, class, items)),
    ensures
        preset_read(d, p).0 is Ok,
        preset_read(d, p).0->Ok_0 == info_of(all_kept(items)),
        preset_read(d, p).1 == p + object_bytes(name, class, items).len(),
{
    let start = object_start(name, class, items.len());
    whole_stands(start);
    object_start_is_read(start, 0, name, class, id, items.len());
    joined_preset_is_read(d, p, start, items);
}

proof fn preset_is_read(d: Seq<u8>, p: nat, e: Seq<u8>, items: Seq<Seq<u8>>)
    requires
        is_preset(e, items),
        are_items(items),
        stands_at(d, p, e),
    ensures
        u32_read(d, p) == (Ok::<u32, DescError>(TAG_OBJC), p + 4),
        preset_read(d, p + 4).0 is Ok,
        preset_read(d, p + 4).0->Ok_0 == info_of(all_kept(items)),
        preset_read(d, p + 4).1 == p + e.len(),
{
    let (name, class, id) = choose|name: Seq<u16>, class: Seq<u8>, id: Seq<u8>|
        {
            &&& e == ascii("Objc") + #[trigger] object_bytes(name, class, items)
            &&& #[trigger] is_key(class, id)
            &&& name.len() <= MAX_DESCRIPTOR_STRING_LEN
            &&& items.len() <= u32::MAX
        };
    let body = object_bytes(name, class, items);
    assert(ascii("Objc") == be32(TAG_OBJC)) by {
        tags();
    }
    parts(d, p, be32(TAG_OBJC), body);
    assert(u32_read(d, p) == (Ok::<u32, DescError>(TAG_OBJC), p + 4)) by {
        u32_is_read(d, p, TAG_OBJC);
    }
    object_stands(d, p + 4, name, class, id, items);
    assert(e.len() == 4 + body.len()) by {
        tags();
    }
}

proof fn list_is_read(
    d: Seq<u8>,
    p: nat,
    elements: Seq<Seq<u8>>,
    presets: Seq<Seq<Seq<u8>>>,
    found: Seq<BrushDescInfo<Seq<char>>>,
)
    requires
        are_presets(elements, presets),
        are_all_items(presets),
        stands_at(d, p, joined(elements)),
    ensures
        preset_list(d, p, elements.len(), found) == (
            Ok::<Seq<BrushDescInfo<Seq<char>>>, DescError>(found + infos_of_items(presets)),
            p + joined(elements).len(),
        ),
    decreases elements.len(),
{
    if elements.len() == 0 {
        assert(found + infos_of_items(presets) =~= found);
    } else {
        let e = elements[0];
        let rest = elements.drop_first();
        let more = presets.drop_first();
        parts_stand(d, p, e, joined(rest));
        assert(is_preset(e, presets[0]));
        assert(are_items(presets[0]));
        preset_is_read(d, p, e, presets[0]);
        assert forall|i: int| 0 <= i < rest.len() implies is_preset(#[trigger] rest[i], more[i]) by {
            assert(rest[i] == elements[i + 1] && more[i] == presets[i + 1]);
        }
        assert forall|i: int| 0 <= i < more.len() implies are_items(#[trigger] more[i]) by {
            assert(more[i] == presets[i + 1]);
        }
        let info = info_of(all_kept(presets[0]));
        list_is_read(d, p + e.len(), rest, more, found.push(info));
        assert(found.push(info) + infos_of_items(more) =~= found + infos_of_items(presets));
    }
}

proof fn root_list_is_read(
    d: Seq<u8>,
    q: nat,
    k: Seq<u8>,
    elements: Seq<Seq<u8>>,
    presets: Seq<Seq<Seq<u8>>>,
    n: nat,
)
    requires
        is_key(k, ascii("Brsh")),
        are_presets(elements, presets),
        are_all_items(presets),
        stands_at(d, q, list_item(k, elements)),
        n > 0,
    ensures
        root_items(d, q, n, seq![]) == root_items(
            d,
            q + list_item(k, elements).len(),
            (n - 1) as nat,
            infos_of_items(presets),
        ),
{
    tags();
    let body = be32(elements.len() as u32) + joined(elements);
    head_is_read(d, q, k, ascii("Brsh"), TAG_VLLS, body);
    let at = q + k.len() + 4;
    parts(d, at, be32(elements.len() as u32), joined(elements));
    u32_is_read(d, at, elements.len() as u32);
    list_is_read(d, at + 4, elements, presets, seq![]);
    assert(seq![] + infos_of_items(presets) =~= infos_of_items(presets));
    assert(at + 4 + joined(elements).len() == q + list_item(k, elements).len());
}

/// Where the parts of a block stand.
pub(crate) proof fn block_stands(
    root: Seq<u8>,
    before: Seq<Seq<u8>>,
    list: Seq<u8>,
    behind: Seq<Seq<u8>>,
    tail: Seq<u8>,
)
    requires
        is_root(root),
        before.len() + 1 + behind.len() <= u32::MAX,
    ensures
        ({
            let d = block_bytes(root, before, list, behind, tail);
            let count = before.len() + 1 + behind.len();
            let p = root.len();
            let q = p + 4 + joined(before).len();
            &&& root_head(d) == (Ok::<(), DescError>(()), p)
            &&& u32_read(d, p) == (Ok::<u32, DescError>(count as u32), p + 4)
            &&& stands_at(d, p + 4, joined(before))
            &&& stands_at(d, q, list)
            &&& stands_at(d, q + list.len(), joined(behind))
        }),
{
    let d = block_bytes(root, before, list, behind, tail);
    let count = before.len() + 1 + behind.len();
    let last = joined(behind) + tail;
    let rest = joined(before) + (list + last);
    whole_stands(d);
    parts(d, 0, root, be32(count as u32) + rest);
    root_is_read(d, root);
    let p = root.len();
    parts(d, p, be32(count as u32), rest);
    u32_is_read(d, p, count as u32);
    parts(d, p + 4, joined(before), list + last);
    let q = p + 4 + joined(before).len();
    parts(d, q, list, last);
    parts(d, q + list.len(), joined(behind), tail);
}

/// Each preset of a block is read by its own items.
pub(crate) proof fn block_is_read(d: Seq<u8>, presets: Seq<Seq<Seq<u8>>>)
    requires
        is_block(d, presets),
        are_all_items(presets),
    ensures
        presets_of(d) == Ok::<Seq<BrushDescInfo<Seq<char>>>, DescError>(infos_of_items(presets)),
{
    let (root, before, k, elements, behind, tail) = choose|
        root: Seq<u8>,
        before: Seq<Seq<u8>>,
        k: Seq<u8>,
        elements: Seq<Seq<u8>>,
        behind: Seq<Seq<u8>>,
        tail: Seq<u8>,
    |
        {
            &&& d == #[trigger] block_bytes(root, before, list_item(k, elements), behind, tail)
            &&& is_root(root)
            &&& are_others(before)
            &&& is_key(k, ascii("Brsh"))
            &&& are_presets(elements, presets)
            &&& are_others(behind)
            &&& before.len() + 1 + behind.len() <= u32::MAX
        };
    reveal(presets_of);
    let list = list_item(k, elements);
    let count = before.len() + 1 + behind.len();
    block_stands(root, before, list, behind, tail);
    let p = root.len() + 4;
    let q = p + joined(before).len();
    others_are_passed(d, p, before, count, seq![]);
    root_list_is_read(d, q, k, elements, presets, (behind.len() + 1) as nat);
    let infos = infos_of_items(presets);
    others_are_passed(d, q + list.len(), behind, behind.len(), infos);
}

} // verus!
