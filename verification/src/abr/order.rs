//! The order of a preset's items makes no difference.
use vstd::prelude::*;
use crate::abr::descriptor::{item_head, object_head, skip_value};
use crate::abr::local::{
    item_head_moves, object_head_moves, preset_item_moves, skip_moves, stands_at,
};
use crate::abr::ordinals::preset_item_passes;
use crate::abr::preset::{
    control, empty_tip, flag_of, info_of, integer, integer_of, is_on, jitter, last_blend_mode,
    last_count, last_dual, last_flag, last_integer, last_name, last_percent, last_texture,
    last_variance, percent_of, preset_item, preset_items, preset_read, preset_tip, variance_of,
    FlagKey, InnerBrush, IntegerKey, PercentKey, PresetItem, Txtr, VarianceKey,
};
use crate::abr::types::DualBrush;
use crate::support::text::ascii;

verus! {

/// The bytes of items, one behind the other.
pub open spec fn joined(items: Seq<Seq<u8>>) -> Seq<u8>
    decreases items.len(),
{
    if items.len() == 0 {
        seq![]
    } else {
        items[0] + joined(items.drop_first())
    }
}

/// The key of an item.
#[verifier::opaque]
pub open spec fn key_of(item: Seq<u8>) -> Seq<u8> {
    item_head(item, 0).0->Ok_0.0
}

/// Is an item well formed: a key, a known type and a value of that type that fills it?
#[verifier::opaque]
pub open spec fn is_item(item: Seq<u8>) -> bool {
    let (head, q) = item_head(item, 0);
    &&& head is Ok
    &&& skip_value(item, q, head->Ok_0.1, 0).0 is Ok
    &&& skip_value(item, q, head->Ok_0.1, 0).1 == item.len()
}

pub open spec fn are_items(items: Seq<Seq<u8>>) -> bool {
    forall|i: int| 0 <= i < items.len() ==> is_item(#[trigger] items[i])
}

/// Have no two items the same key?
pub open spec fn keys_differ(items: Seq<Seq<u8>>) -> bool {
    forall|i: int, j: int|
        0 <= i < j < items.len() ==> key_of(#[trigger] items[i]) != key_of(#[trigger] items[j])
}

/// What is kept of an item.
#[verifier::opaque]
pub open spec fn kept_of(item: Seq<u8>) -> Option<PresetItem<Seq<char>>> {
    let (head, q) = item_head(item, 0);
    match preset_item(item, q, head->Ok_0.0, head->Ok_0.1) {
        Some((Ok(kept), _)) => Some(kept),
        _ => None,
    }
}

/// What is kept of items.
pub open spec fn all_kept(items: Seq<Seq<u8>>) -> Seq<PresetItem<Seq<char>>>
    decreases items.len(),
{
    if items.len() == 0 {
        seq![]
    } else {
        match kept_of(items[0]) {
            Some(kept) => seq![kept] + all_kept(items.drop_first()),
            None => all_kept(items.drop_first()),
        }
    }
}

/// `kept` with what is kept of one more item.
pub open spec fn with_kept(kept: Seq<PresetItem<Seq<char>>>, item: Seq<u8>) -> Seq<
    PresetItem<Seq<char>>,
> {
    match kept_of(item) {
        Some(v) => kept.push(v),
        None => kept,
    }
}

pub(crate) proof fn an_item_is_read(
    d: Seq<u8>,
    p: nat,
    x: Seq<u8>,
    n: nat,
    kept: Seq<PresetItem<Seq<char>>>,
)
    requires
        is_item(x),
        stands_at(d, p, x),
        n > 0,
    ensures
        preset_items(d, p, n, kept) == preset_items(
            d,
            p + x.len(),
            (n - 1) as nat,
            with_kept(kept, x),
        ),
{
    reveal(is_item);
    reveal(kept_of);
    let (head, q) = item_head(x, 0);
    let (key, tag) = head->Ok_0;
    item_head_moves(d, p, x, 0);
    skip_moves(d, p, x, q, tag, 0);
    preset_item_moves(d, p, x, q, key, tag);
    preset_item_passes(x, q, key, tag);
    assert(item_head(d, p) == (head, p + q));
    let there = preset_item(d, p + q, key, tag);
    let here = preset_item(x, q, key, tag);
    assert(there is Some <==> here is Some);
}

pub(crate) proof fn joined_items_are_read(
    d: Seq<u8>,
    p: nat,
    items: Seq<Seq<u8>>,
    kept: Seq<PresetItem<Seq<char>>>,
)
    requires
        are_items(items),
        stands_at(d, p, joined(items)),
    ensures
        preset_items(d, p, items.len(), kept).0 is Ok,
        preset_items(d, p, items.len(), kept).0->Ok_0 == kept + all_kept(items),
        preset_items(d, p, items.len(), kept).1 == p + joined(items).len(),
    decreases items.len(),
{
    if items.len() == 0 {
        assert(kept + all_kept(items) =~= kept);
    } else {
        let x = items[0];
        let rest = items.drop_first();
        assert(is_item(x));
        assert forall|i: int| 0 <= i < rest.len() implies is_item(#[trigger] rest[i]) by {
            assert(rest[i] == items[i + 1]);
        }
        parts_stand(d, p, x, joined(rest));
        an_item_is_read(d, p, x, items.len(), kept);
        let more = with_kept(kept, x);
        joined_items_are_read(d, p + x.len(), rest, more);
        assert(more + all_kept(rest) =~= kept + all_kept(items));
    }
}

/// What an item is for: each has its own key.
pub enum Slot {
    Name,
    SampledData,
    Tip,
    Dual,
    Texture,
    BlendMode,
    Count,
    Flag(FlagKey),
    Percent(PercentKey),
    Variance(VarianceKey),
    Integer(IntegerKey),
}

pub open spec fn slot_of(item: PresetItem<Seq<char>>) -> Slot {
    match item {
        PresetItem::Name(_) => Slot::Name,
        PresetItem::SampledData(_) => Slot::SampledData,
        PresetItem::Tip(_) => Slot::Tip,
        PresetItem::Dual(_, _) => Slot::Dual,
        PresetItem::Texture(_) => Slot::Texture,
        PresetItem::BlendMode(_) => Slot::BlendMode,
        PresetItem::Count(_) => Slot::Count,
        PresetItem::Flag(k, _) => Slot::Flag(k),
        PresetItem::Percent(k, _) => Slot::Percent(k),
        PresetItem::Variance(k, _) => Slot::Variance(k),
        PresetItem::Integer(k, _) => Slot::Integer(k),
    }
}

proof fn flags_have_one_key(a: Seq<u8>, b: Seq<u8>)
    requires
        flag_of(a) is Some,
        flag_of(a) == flag_of(b),
    ensures
        a == b,
{
    reveal(flag_of);
}

proof fn percents_have_one_key(a: Seq<u8>, b: Seq<u8>)
    requires
        percent_of(a) is Some,
        percent_of(a) == percent_of(b),
    ensures
        a == b,
{
    reveal(percent_of);
}

proof fn variances_have_one_key(a: Seq<u8>, b: Seq<u8>)
    requires
        variance_of(a) is Some,
        variance_of(a) == variance_of(b),
    ensures
        a == b,
{
    reveal(variance_of);
}

proof fn integers_have_one_key(a: Seq<u8>, b: Seq<u8>)
    requires
        integer_of(a) is Some,
        integer_of(a) == integer_of(b),
    ensures
        a == b,
{
    reveal(integer_of);
}

/// Is this the key of a slot?
pub open spec fn is_key_of(key: Seq<u8>, slot: Slot) -> bool {
    match slot {
        Slot::Name => key == ascii("Nm  "),
        Slot::SampledData => key == ascii("sampledData"),
        Slot::Tip => key == ascii("Brsh"),
        Slot::Dual => key == ascii("dualBrush"),
        Slot::Texture => key == ascii("Txtr"),
        Slot::BlendMode => key == ascii("textureBlendMode"),
        Slot::Count => key == ascii("Cnt "),
        Slot::Flag(k) => flag_of(key) == Some(k),
        Slot::Percent(k) => percent_of(key) == Some(k),
        Slot::Variance(k) => variance_of(key) == Some(k),
        Slot::Integer(k) => integer_of(key) == Some(k),
    }
}

pub(crate) proof fn kept_has_its_key(x: Seq<u8>)
    requires
        kept_of(x) is Some,
    ensures
        is_key_of(key_of(x), slot_of(kept_of(x)->0)),
{
    reveal(kept_of);
    reveal(key_of);
}

/// A slot belongs to one key.
proof fn slots_have_one_key(a: Seq<u8>, b: Seq<u8>)
    requires
        kept_of(a) is Some,
        kept_of(b) is Some,
        slot_of(kept_of(a)->0) == slot_of(kept_of(b)->0),
    ensures
        key_of(a) == key_of(b),
{
    kept_has_its_key(a);
    kept_has_its_key(b);
    let x = key_of(a);
    let y = key_of(b);
    match slot_of(kept_of(a)->0) {
        Slot::Flag(_) => {
            flags_have_one_key(x, y);
        },
        Slot::Percent(_) => {
            percents_have_one_key(x, y);
        },
        Slot::Variance(_) => {
            variances_have_one_key(x, y);
        },
        Slot::Integer(_) => {
            integers_have_one_key(x, y);
        },
        _ => {},
    }
}

/// The last item with this slot.
pub open spec fn last_in(items: Seq<PresetItem<Seq<char>>>, slot: Slot) -> Option<
    PresetItem<Seq<char>>,
>
    decreases items.len(),
{
    if items.len() == 0 {
        None
    } else if slot_of(items.last()) == slot {
        Some(items.last())
    } else {
        last_in(items.drop_last(), slot)
    }
}

proof fn last_in_is_there(items: Seq<PresetItem<Seq<char>>>, slot: Slot)
    ensures
        last_in(items, slot) matches Some(v) ==> items.contains(v) && slot_of(v) == slot,
        last_in(items, slot) is None ==> forall|i: int|
            0 <= i < items.len() ==> slot_of(#[trigger] items[i]) != slot,
    decreases items.len(),
{
    if items.len() > 0 {
        let init = items.drop_last();
        last_in_is_there(init, slot);
        if slot_of(items.last()) == slot {
            assert(items[items.len() - 1] == items.last());
        } else {
            match last_in(init, slot) {
                Some(v) => {
                    let k = choose|k: int| 0 <= k < init.len() && init[k] == v;
                    assert(items[k] == v);
                },
                None => {
                    assert forall|i: int| 0 <= i < items.len() implies slot_of(
                        #[trigger] items[i],
                    ) != slot by {
                        if i < init.len() {
                            assert(init[i] == items[i]);
                        }
                    }
                },
            }
        }
    }
}

proof fn flag_is_last(items: Seq<PresetItem<Seq<char>>>, k: FlagKey)
    ensures
        last_flag(items, k) == (match last_in(items, Slot::Flag(k)) {
            Some(PresetItem::Flag(_, v)) => Some(v),
            _ => None,
        }),
    decreases items.len(),
{
    reveal(last_flag);
    if items.len() > 0 {
        flag_is_last(items.drop_last(), k);
    }
}

proof fn percent_is_last(items: Seq<PresetItem<Seq<char>>>, k: PercentKey)
    ensures
        last_percent(items, k) == (match last_in(items, Slot::Percent(k)) {
            Some(PresetItem::Percent(_, v)) => Some(v),
            _ => None,
        }),
    decreases items.len(),
{
    reveal(last_percent);
    if items.len() > 0 {
        percent_is_last(items.drop_last(), k);
    }
}

proof fn variance_is_last(items: Seq<PresetItem<Seq<char>>>, k: VarianceKey)
    ensures
        last_variance(items, k) == (match last_in(items, Slot::Variance(k)) {
            Some(PresetItem::Variance(_, v)) => Some(v),
            _ => None,
        }),
    decreases items.len(),
{
    reveal(last_variance);
    if items.len() > 0 {
        variance_is_last(items.drop_last(), k);
    }
}

proof fn integer_is_last(items: Seq<PresetItem<Seq<char>>>, k: IntegerKey)
    ensures
        last_integer(items, k) == (match last_in(items, Slot::Integer(k)) {
            Some(PresetItem::Integer(_, v)) => Some(v),
            _ => None,
        }),
    decreases items.len(),
{
    reveal(last_integer);
    if items.len() > 0 {
        integer_is_last(items.drop_last(), k);
    }
}

proof fn single_values_are_last(items: Seq<PresetItem<Seq<char>>>)
    ensures
        last_name(items) == (match last_in(items, Slot::Name) {
            Some(PresetItem::Name(v)) => v,
            _ => seq![],
        }),
        last_count(items) == (match last_in(items, Slot::Count) {
            Some(PresetItem::Count(v)) => Some(v),
            _ => None,
        }),
        last_blend_mode(items) == (match last_in(items, Slot::BlendMode) {
            Some(PresetItem::BlendMode(v)) => Some(v),
            _ => None,
        }),
        last_texture(items) == (match last_in(items, Slot::Texture) {
            Some(PresetItem::Texture(v)) => v,
            _ => Txtr { name: None, id: None },
        }),
        last_dual(items) == (match last_in(items, Slot::Dual) {
            Some(PresetItem::Dual(on, v)) => (on, v),
            _ => (false, DualBrush::empty()),
        }),
    decreases items.len(),
{
    reveal(last_name);
    reveal(last_count);
    reveal(last_blend_mode);
    reveal(last_texture);
    reveal(last_dual);
    if items.len() > 0 {
        single_values_are_last(items.drop_last());
    }
}

/// Have no two items the same slot?
pub open spec fn slots_differ(items: Seq<PresetItem<Seq<char>>>) -> bool {
    forall|i: int, j: int|
        0 <= i < j < items.len() ==> slot_of(#[trigger] items[i]) != slot_of(#[trigger] items[j])
}

/// The tip of a preset with at most one tip object and one `sampledData` item.
spec fn tip_from(
    tip: Option<PresetItem<Seq<char>>>,
    data: Option<PresetItem<Seq<char>>>,
) -> InnerBrush<Seq<char>> {
    let t = match tip {
        Some(PresetItem::Tip(t)) => t,
        _ => empty_tip(false),
    };
    match data {
        Some(PresetItem::SampledData(v)) => InnerBrush { uuid: Some(v), ..t },
        _ => t,
    }
}

proof fn tip_is_from_two(items: Seq<PresetItem<Seq<char>>>)
    requires
        slots_differ(items),
    ensures
        preset_tip(items) == tip_from(
            last_in(items, Slot::Tip),
            last_in(items, Slot::SampledData),
        ),
    decreases items.len(),
{
    reveal(preset_tip);
    if items.len() > 0 {
        let init = items.drop_last();
        assert forall|i: int, j: int| 0 <= i < j < init.len() implies slot_of(#[trigger] init[i])
            != slot_of(#[trigger] init[j]) by {
            assert(init[i] == items[i] && init[j] == items[j]);
        }
        tip_is_from_two(init);
        last_in_is_there(init, Slot::Tip);
        last_in_is_there(init, Slot::SampledData);
        let last = items.last();
        if slot_of(last) == Slot::Tip || slot_of(last) == Slot::SampledData {
            match last_in(init, slot_of(last)) {
                Some(v) => {
                    let k = choose|k: int| 0 <= k < init.len() && init[k] == v;
                    assert(slot_of(items[k]) != slot_of(items[items.len() - 1]));
                },
                None => {},
            }
        }
    }
}

/// Where every slot holds the same, the presets are the same.
proof fn lookups_say_it_all(a: Seq<PresetItem<Seq<char>>>, b: Seq<PresetItem<Seq<char>>>)
    requires
        preset_tip(a) == preset_tip(b),
        last_name(a) == last_name(b),
        last_count(a) == last_count(b),
        last_blend_mode(a) == last_blend_mode(b),
        last_texture(a) == last_texture(b),
        last_dual(a) == last_dual(b),
        forall|k: FlagKey| #[trigger] last_flag(a, k) == last_flag(b, k),
        forall|k: PercentKey| #[trigger] last_percent(a, k) == last_percent(b, k),
        forall|k: VarianceKey| #[trigger] last_variance(a, k) == last_variance(b, k),
        forall|k: IntegerKey| #[trigger] last_integer(a, k) == last_integer(b, k),
    ensures
        info_of(a) == info_of(b),
{
    assert forall|k: FlagKey| #[trigger] is_on(a, k) == is_on(b, k) by {
        assert(last_flag(a, k) == last_flag(b, k));
    }
    assert forall|k: VarianceKey| #[trigger] jitter(a, k) == jitter(b, k) by {
        assert(last_variance(a, k) == last_variance(b, k));
    }
    assert forall|k: VarianceKey| #[trigger] control(a, k) == control(b, k) by {
        assert(last_variance(a, k) == last_variance(b, k));
    }
    assert forall|k: IntegerKey| #[trigger] integer(a, k) == integer(b, k) by {
        assert(last_integer(a, k) == last_integer(b, k));
    }
}

proof fn slots_hold_the_same(
    a: Seq<PresetItem<Seq<char>>>,
    b: Seq<PresetItem<Seq<char>>>,
    slot: Slot,
)
    requires
        slots_differ(b),
        forall|v: PresetItem<Seq<char>>| #[trigger] a.contains(v) <==> b.contains(v),
    ensures
        last_in(a, slot) == last_in(b, slot),
{
    last_in_is_there(a, slot);
    last_in_is_there(b, slot);
    match (last_in(a, slot), last_in(b, slot)) {
        (Some(x), Some(y)) => {
            assert(a.contains(x));
            let i = choose|i: int| 0 <= i < b.len() && b[i] == x;
            let j = choose|j: int| 0 <= j < b.len() && b[j] == y;
            if i < j {
                assert(slot_of(b[i]) != slot_of(b[j]));
            } else if j < i {
                assert(slot_of(b[j]) != slot_of(b[i]));
            }
        },
        (Some(x), None) => {
            assert(a.contains(x));
            let i = choose|i: int| 0 <= i < b.len() && b[i] == x;
            assert(slot_of(b[i]) != slot);
        },
        (None, Some(y)) => {
            assert(a.contains(y));
            let i = choose|i: int| 0 <= i < a.len() && a[i] == y;
            assert(slot_of(a[i]) != slot);
        },
        (None, None) => {},
    }
}

/// Items with slots of their own say the same in every order.
proof fn slots_say_it_all(a: Seq<PresetItem<Seq<char>>>, b: Seq<PresetItem<Seq<char>>>)
    requires
        slots_differ(a),
        slots_differ(b),
        forall|v: PresetItem<Seq<char>>| #[trigger] a.contains(v) <==> b.contains(v),
    ensures
        info_of(a) == info_of(b),
{
    single_values_are_last(a);
    single_values_are_last(b);
    tip_is_from_two(a);
    tip_is_from_two(b);
    slots_hold_the_same(a, b, Slot::Tip);
    slots_hold_the_same(a, b, Slot::SampledData);
    slots_hold_the_same(a, b, Slot::Name);
    slots_hold_the_same(a, b, Slot::Count);
    slots_hold_the_same(a, b, Slot::BlendMode);
    slots_hold_the_same(a, b, Slot::Texture);
    slots_hold_the_same(a, b, Slot::Dual);
    assert forall|k: FlagKey| #[trigger] last_flag(a, k) == last_flag(b, k) by {
        flag_is_last(a, k);
        flag_is_last(b, k);
        slots_hold_the_same(a, b, Slot::Flag(k));
    }
    assert forall|k: PercentKey| #[trigger] last_percent(a, k) == last_percent(b, k) by {
        percent_is_last(a, k);
        percent_is_last(b, k);
        slots_hold_the_same(a, b, Slot::Percent(k));
    }
    assert forall|k: VarianceKey| #[trigger] last_variance(a, k) == last_variance(b, k) by {
        variance_is_last(a, k);
        variance_is_last(b, k);
        slots_hold_the_same(a, b, Slot::Variance(k));
    }
    assert forall|k: IntegerKey| #[trigger] last_integer(a, k) == last_integer(b, k) by {
        integer_is_last(a, k);
        integer_is_last(b, k);
        slots_hold_the_same(a, b, Slot::Integer(k));
    }
    lookups_say_it_all(a, b);
}

proof fn kept_are_of_items(items: Seq<Seq<u8>>)
    ensures
        forall|v: PresetItem<Seq<char>>| #[trigger]
            all_kept(items).contains(v) <==> exists|i: int|
                0 <= i < items.len() && kept_of(#[trigger] items[i]) == Some(v),
    decreases items.len(),
{
    if items.len() > 0 {
        let rest = items.drop_first();
        kept_are_of_items(rest);
        let all = all_kept(items);
        assert forall|v: PresetItem<Seq<char>>| #[trigger] all.contains(v) <==> exists|i: int|
            0 <= i < items.len() && kept_of(#[trigger] items[i]) == Some(v) by {
            if all.contains(v) {
                let k = choose|k: int| 0 <= k < all.len() && all[k] == v;
                if kept_of(items[0]) is Some && k == 0 {
                    assert(kept_of(items[0]) == Some(v));
                } else {
                    let j = if kept_of(items[0]) is Some {
                        k - 1
                    } else {
                        k
                    };
                    assert(all_kept(rest)[j] == v);
                    assert(all_kept(rest).contains(v));
                    let i = choose|i: int|
                        0 <= i < rest.len() && kept_of(#[trigger] rest[i]) == Some(v);
                    assert(items[i + 1] == rest[i]);
                }
            }
            if exists|i: int| 0 <= i < items.len() && kept_of(#[trigger] items[i]) == Some(v) {
                let i = choose|i: int|
                    0 <= i < items.len() && kept_of(#[trigger] items[i]) == Some(v);
                if i == 0 {
                    assert(all[0] == v);
                } else {
                    assert(rest[i - 1] == items[i]);
                    assert(all_kept(rest).contains(v));
                    let j = choose|j: int| 0 <= j < all_kept(rest).len() && all_kept(rest)[j] == v;
                    if kept_of(items[0]) is Some {
                        assert(all[j + 1] == v);
                    } else {
                        assert(all[j] == v);
                    }
                }
            }
        }
    }
}

proof fn kept_slots_differ(items: Seq<Seq<u8>>)
    requires
        keys_differ(items),
    ensures
        slots_differ(all_kept(items)),
    decreases items.len(),
{
    if items.len() > 0 {
        let rest = items.drop_first();
        assert forall|i: int, j: int| 0 <= i < j < rest.len() implies key_of(#[trigger] rest[i])
            != key_of(#[trigger] rest[j]) by {
            assert(rest[i] == items[i + 1] && rest[j] == items[j + 1]);
        }
        kept_slots_differ(rest);
        kept_are_of_items(rest);
        let all = all_kept(items);
        let more = all_kept(rest);
        if kept_of(items[0]) is Some {
            assert forall|i: int, j: int| 0 <= i < j < all.len() implies slot_of(#[trigger] all[i])
                != slot_of(#[trigger] all[j]) by {
                assert(all[j] == more[j - 1]);
                if i == 0 {
                    assert(more.contains(all[j]));
                    let k = choose|k: int|
                        0 <= k < rest.len() && kept_of(#[trigger] rest[k]) == Some(all[j]);
                    assert(items[k + 1] == rest[k]);
                    if slot_of(all[0]) == slot_of(all[j]) {
                        slots_have_one_key(items[0], items[k + 1]);
                    }
                } else {
                    assert(all[i] == more[i - 1]);
                }
            }
        }
    }
}

proof fn reordered_keys_differ(a: Seq<Seq<u8>>, b: Seq<Seq<u8>>)
    requires
        keys_differ(a),
        a.to_multiset() == b.to_multiset(),
    ensures
        keys_differ(b),
        a.len() == b.len(),
        forall|x: Seq<u8>| #[trigger] a.contains(x) <==> b.contains(x),
{
    a.to_multiset_ensures();
    b.to_multiset_ensures();
    assert forall|x: Seq<u8>| #[trigger] a.contains(x) <==> b.contains(x) by {
        assert(a.contains(x) <==> a.to_multiset().count(x) > 0);
        assert(b.contains(x) <==> b.to_multiset().count(x) > 0);
    }
    assert(a.no_duplicates()) by {
        assert forall|i: int, j: int|
            0 <= i < a.len() && 0 <= j < a.len() && i != j implies a[i] != a[j] by {
            if i < j {
                assert(key_of(a[i]) != key_of(a[j]));
            } else {
                assert(key_of(a[j]) != key_of(a[i]));
            }
        }
    }
    a.lemma_multiset_has_no_duplicates();
    b.lemma_multiset_has_no_duplicates_conv();
    assert forall|i: int, j: int| 0 <= i < j < b.len() implies key_of(#[trigger] b[i]) != key_of(
        #[trigger] b[j],
    ) by {
        assert(b[i] != b[j]);
        assert(b.contains(b[i]) && b.contains(b[j]));
        assert(a.contains(b[i]) && a.contains(b[j]));
        let k = choose|k: int| 0 <= k < a.len() && a[k] == b[i];
        let l = choose|l: int| 0 <= l < a.len() && a[l] == b[j];
        if k < l {
            assert(key_of(a[k]) != key_of(a[l]));
        } else {
            assert(key_of(a[l]) != key_of(a[k]));
        }
    }
}

proof fn reordered_items_say_the_same(items: Seq<Seq<u8>>, reordered: Seq<Seq<u8>>)
    requires
        are_items(items),
        keys_differ(items),
        items.to_multiset() == reordered.to_multiset(),
    ensures
        are_items(reordered),
        reordered.len() == items.len(),
        info_of(all_kept(items)) == info_of(all_kept(reordered)),
{
    reordered_keys_differ(items, reordered);
    assert forall|i: int| 0 <= i < reordered.len() implies is_item(#[trigger] reordered[i]) by {
        assert(reordered.contains(reordered[i]));
        assert(items.contains(reordered[i]));
        let k = choose|k: int| 0 <= k < items.len() && items[k] == reordered[i];
        assert(is_item(items[k]));
    }
    let a = all_kept(items);
    let b = all_kept(reordered);
    kept_are_of_items(items);
    kept_are_of_items(reordered);
    kept_slots_differ(items);
    kept_slots_differ(reordered);
    assert forall|v: PresetItem<Seq<char>>| #[trigger] a.contains(v) <==> b.contains(v) by {
        if a.contains(v) {
            let i = choose|i: int| 0 <= i < items.len() && kept_of(#[trigger] items[i]) == Some(v);
            assert(items.contains(items[i]));
            let j = choose|j: int| 0 <= j < reordered.len() && reordered[j] == items[i];
            assert(kept_of(reordered[j]) == Some(v));
        }
        if b.contains(v) {
            let i = choose|i: int|
                0 <= i < reordered.len() && kept_of(#[trigger] reordered[i]) == Some(v);
            assert(reordered.contains(reordered[i]));
            assert(items.contains(reordered[i]));
            let j = choose|j: int| 0 <= j < items.len() && items[j] == reordered[i];
            assert(kept_of(items[j]) == Some(v));
        }
    }
    slots_say_it_all(a, b);
}

pub(crate) proof fn joined_preset_is_read(d: Seq<u8>, p: nat, head: Seq<u8>, items: Seq<Seq<u8>>)
    requires
        object_head(head, 0).0 matches Ok((_, count)) && count == items.len(),
        object_head(head, 0).1 == head.len(),
        are_items(items),
        stands_at(d, p, head + joined(items)),
    ensures
        preset_read(d, p).0 is Ok,
        preset_read(d, p).0->Ok_0 == info_of(all_kept(items)),
        preset_read(d, p).1 == p + head.len() + joined(items).len(),
{
    reveal(preset_read);
    parts_stand(d, p, head, joined(items));
    object_head_moves(d, p, head, 0);
    joined_items_are_read(d, p + head.len(), items, seq![]);
    assert(seq![] + all_kept(items) =~= all_kept(items));
}

/// A preset with the same head and the same items in another order is read the same, where
/// the items are well formed and have keys of their own.
pub proof fn item_order_changes_no_preset(
    d: Seq<u8>,
    p: nat,
    e: Seq<u8>,
    q: nat,
    head: Seq<u8>,
    items: Seq<Seq<u8>>,
    reordered: Seq<Seq<u8>>,
)
    requires
        object_head(head, 0).0 matches Ok((_, count)) && count == items.len(),
        object_head(head, 0).1 == head.len(),
        are_items(items),
        keys_differ(items),
        items.to_multiset() == reordered.to_multiset(),
        stands_at(d, p, head + joined(items)),
        stands_at(e, q, head + joined(reordered)),
    ensures
        preset_read(d, p).0 is Ok,
        preset_read(d, p).0 == preset_read(e, q).0,
        preset_read(d, p).1 == p + head.len() + joined(items).len(),
        preset_read(e, q).1 == q + head.len() + joined(reordered).len(),
{
    reordered_items_say_the_same(items, reordered);
    joined_preset_is_read(d, p, head, items);
    joined_preset_is_read(e, q, head, reordered);
}

pub(crate) proof fn parts_stand(d: Seq<u8>, p: nat, x: Seq<u8>, y: Seq<u8>)
    requires
        stands_at(d, p, x + y),
    ensures
        stands_at(d, p, x),
        stands_at(d, p + x.len(), y),
{
    let all = d.subrange(p as int, (p + (x + y).len()) as int);
    assert(d.subrange(p as int, (p + x.len()) as int) =~= all.subrange(0, x.len() as int));
    assert(all.subrange(0, x.len() as int) =~= x);
    let q = p + x.len();
    assert(d.subrange(q as int, (q + y.len()) as int) =~= all.subrange(
        x.len() as int,
        all.len() as int,
    ));
    assert(all.subrange(x.len() as int, all.len() as int) =~= y);
}

} // verus!
