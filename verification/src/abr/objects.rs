//! What the items of a nested object say, one after the other.
use vstd::prelude::*;
use crate::abr::descriptor::{item_head, object_head, skip_items, skip_value, DescError};
use crate::abr::local::{
    dual_step_moves, heads_move, leaves_move, skip_moves, stands_at, texts_move, tip_step_moves,
};
use crate::abr::order::{are_items, is_item, joined, parts_stand};
use crate::abr::ordinals::{dual_step_passes, tip_step_passes};
use crate::abr::preset::{
    brvr_items, brvr_read, brvr_step, dual_items, dual_read, dual_step, empty_tip, family_of,
    settled_dual, tip_items, tip_read, tip_step, txtr_items, txtr_read, txtr_step, BrVr, DualState,
    Flow, InnerBrush, Txtr,
};
use crate::abr::types::{DualBrush, ShapeTipFamily};
use crate::abr::written::{is_key, object_bytes, object_start, object_start_is_read};
use crate::abr::descriptor::MAX_DESCRIPTOR_STRING_LEN;
use crate::support::text::ascii;

verus! {

proof fn rest_are_items(items: Seq<Seq<u8>>)
    requires
        are_items(items),
        items.len() > 0,
    ensures
        is_item(items[0]),
        are_items(items.drop_first()),
{
    let rest = items.drop_first();
    assert forall|i: int| 0 <= i < rest.len() implies is_item(#[trigger] rest[i]) by {
        assert(rest[i] == items[i + 1]);
    }
}

/// What a dynamics object says after one more item.
pub open spec fn brvr_after(s: BrVr, x: Seq<u8>) -> BrVr {
    let (head, q) = item_head(x, 0);
    brvr_step(x, q, head->Ok_0.0, head->Ok_0.1, s).0->Next_0
}

/// What a dynamics object says after more items.
pub open spec fn brvr_fold(s: BrVr, items: Seq<Seq<u8>>) -> BrVr
    decreases items.len(),
{
    if items.len() == 0 {
        s
    } else {
        brvr_fold(brvr_after(s, items[0]), items.drop_first())
    }
}

pub(crate) proof fn brvr_folds_last(s: BrVr, items: Seq<Seq<u8>>, x: Seq<u8>)
    ensures
        brvr_fold(s, items.push(x)) == brvr_after(brvr_fold(s, items), x),
    decreases items.len(),
{
    let all = items.push(x);
    if items.len() == 0 {
        assert(all.drop_first() =~= seq![]);
        assert(brvr_fold(brvr_after(s, x), all.drop_first()) == brvr_after(s, x));
    } else {
        assert(all.drop_first() =~= items.drop_first().push(x));
        brvr_folds_last(brvr_after(s, items[0]), items.drop_first(), x);
    }
}

#[verifier::spinoff_prover]
#[verifier::rlimit(30)]
proof fn brvr_items_fold(d: Seq<u8>, p: nat, s: BrVr, items: Seq<Seq<u8>>)
    requires
        are_items(items),
        stands_at(d, p, joined(items)),
    ensures
        brvr_items(d, p, items.len(), s) == (
            Ok::<BrVr, DescError>(brvr_fold(s, items)),
            p + joined(items).len(),
        ),
    decreases items.len(),
{
    if items.len() > 0 {
        let x = items[0];
        let rest = items.drop_first();
        rest_are_items(items);
        parts_stand(d, p, x, joined(rest));
        reveal(is_item);
        let (head, q) = item_head(x, 0);
        let (key, tag) = head->Ok_0;
        heads_move(d, p, x, 0);
        skip_moves(d, p, x, q, tag, 0);
        leaves_move(d, p, x, q);
        assert(brvr_step(x, q, key, tag, s).0 is Next);
        assert(brvr_step(x, q, key, tag, s).1 == x.len());
        assert(brvr_step(d, p + q, key, tag, s) == (
            brvr_step(x, q, key, tag, s).0,
            p + x.len(),
        ));
        brvr_items_fold(d, p + x.len(), brvr_after(s, x), rest);
    }
}

pub(crate) proof fn brvr_object_is_read(
    d: Seq<u8>,
    p: nat,
    name: Seq<u16>,
    class: Seq<u8>,
    id: Seq<u8>,
    items: Seq<Seq<u8>>,
)
    requires
        name.len() <= MAX_DESCRIPTOR_STRING_LEN,
        is_key(class, id),
        items.len() <= u32::MAX,
        are_items(items),
        stands_at(d, p, object_bytes(name, class, items)),
    ensures
        brvr_read(d, p).0 == Ok::<BrVr, DescError>(brvr_fold(BrVr { control: None, jitter_pct: None }, items)),
{
    reveal(brvr_read);
    let start = object_start(name, class, items.len());
    parts_stand(d, p, start, joined(items));
    object_start_is_read(d, p, name, class, id, items.len());
    brvr_items_fold(d, p + start.len(), BrVr { control: None, jitter_pct: None }, items);
}

/// What a texture object says after one more item.
pub open spec fn txtr_after(s: Txtr<Seq<char>>, x: Seq<u8>) -> Txtr<Seq<char>> {
    let (head, q) = item_head(x, 0);
    txtr_step(x, q, head->Ok_0.0, head->Ok_0.1, s).0->Next_0
}

/// What a texture object says after more items.
pub open spec fn txtr_fold(s: Txtr<Seq<char>>, items: Seq<Seq<u8>>) -> Txtr<Seq<char>>
    decreases items.len(),
{
    if items.len() == 0 {
        s
    } else {
        txtr_fold(txtr_after(s, items[0]), items.drop_first())
    }
}

pub(crate) proof fn txtr_folds_last(s: Txtr<Seq<char>>, items: Seq<Seq<u8>>, x: Seq<u8>)
    ensures
        txtr_fold(s, items.push(x)) == txtr_after(txtr_fold(s, items), x),
    decreases items.len(),
{
    let all = items.push(x);
    if items.len() == 0 {
        assert(all.drop_first() =~= seq![]);
        assert(txtr_fold(txtr_after(s, x), all.drop_first()) == txtr_after(s, x));
    } else {
        assert(all.drop_first() =~= items.drop_first().push(x));
        txtr_folds_last(txtr_after(s, items[0]), items.drop_first(), x);
    }
}

#[verifier::spinoff_prover]
#[verifier::rlimit(30)]
proof fn txtr_items_fold(d: Seq<u8>, p: nat, s: Txtr<Seq<char>>, items: Seq<Seq<u8>>)
    requires
        are_items(items),
        stands_at(d, p, joined(items)),
    ensures
        txtr_items(d, p, items.len(), s) == (
            Ok::<Txtr<Seq<char>>, DescError>(txtr_fold(s, items)),
            p + joined(items).len(),
        ),
    decreases items.len(),
{
    if items.len() > 0 {
        let x = items[0];
        let rest = items.drop_first();
        rest_are_items(items);
        parts_stand(d, p, x, joined(rest));
        reveal(is_item);
        let (head, q) = item_head(x, 0);
        let (key, tag) = head->Ok_0;
        heads_move(d, p, x, 0);
        skip_moves(d, p, x, q, tag, 0);
        texts_move(d, p, x, q);
        assert(txtr_step(x, q, key, tag, s).0 is Next);
        assert(txtr_step(x, q, key, tag, s).1 == x.len());
        assert(txtr_step(d, p + q, key, tag, s) == (
            txtr_step(x, q, key, tag, s).0,
            p + x.len(),
        ));
        txtr_items_fold(d, p + x.len(), txtr_after(s, x), rest);
    }
}

pub(crate) proof fn txtr_object_is_read(
    d: Seq<u8>,
    p: nat,
    name: Seq<u16>,
    class: Seq<u8>,
    id: Seq<u8>,
    items: Seq<Seq<u8>>,
)
    requires
        name.len() <= MAX_DESCRIPTOR_STRING_LEN,
        is_key(class, id),
        items.len() <= u32::MAX,
        are_items(items),
        stands_at(d, p, object_bytes(name, class, items)),
    ensures
        txtr_read(d, p).0 == Ok::<Txtr<Seq<char>>, DescError>(txtr_fold(Txtr { name: None, id: None }, items)),
{
    reveal(txtr_read);
    let start = object_start(name, class, items.len());
    parts_stand(d, p, start, joined(items));
    object_start_is_read(d, p, name, class, id, items.len());
    txtr_items_fold(d, p + start.len(), Txtr { name: None, id: None }, items);
}

/// What a tip object says after one more item.
pub open spec fn tip_after(family: Option<ShapeTipFamily>, s: InnerBrush<Seq<char>>, x: Seq<u8>) -> InnerBrush<Seq<char>> {
    let (head, q) = item_head(x, 0);
    tip_step(x, q, family, head->Ok_0.0, head->Ok_0.1, s).0->Next_0
}

/// What a tip object says after more items.
pub open spec fn tip_fold(family: Option<ShapeTipFamily>, s: InnerBrush<Seq<char>>, items: Seq<Seq<u8>>) -> InnerBrush<Seq<char>>
    decreases items.len(),
{
    if items.len() == 0 {
        s
    } else {
        tip_fold(family, tip_after(family, s, items[0]), items.drop_first())
    }
}

pub(crate) proof fn tip_folds_last(family: Option<ShapeTipFamily>, s: InnerBrush<Seq<char>>, items: Seq<Seq<u8>>, x: Seq<u8>)
    ensures
        tip_fold(family, s, items.push(x)) == tip_after(family, tip_fold(family, s, items), x),
    decreases items.len(),
{
    let all = items.push(x);
    if items.len() == 0 {
        assert(all.drop_first() =~= seq![]);
        assert(tip_fold(family, tip_after(family, s, x), all.drop_first()) == tip_after(family, s, x));
    } else {
        assert(all.drop_first() =~= items.drop_first().push(x));
        tip_folds_last(family, tip_after(family, s, items[0]), items.drop_first(), x);
    }
}

#[verifier::spinoff_prover]
#[verifier::rlimit(30)]
proof fn tip_items_fold(d: Seq<u8>, p: nat, family: Option<ShapeTipFamily>, s: InnerBrush<Seq<char>>, items: Seq<Seq<u8>>)
    requires
        are_items(items),
        stands_at(d, p, joined(items)),
    ensures
        tip_items(d, p, items.len(), family, s) == (
            Ok::<InnerBrush<Seq<char>>, DescError>(tip_fold(family, s, items)),
            p + joined(items).len(),
        ),
    decreases items.len(),
{
    if items.len() > 0 {
        let x = items[0];
        let rest = items.drop_first();
        rest_are_items(items);
        parts_stand(d, p, x, joined(rest));
        reveal(is_item);
        let (head, q) = item_head(x, 0);
        let (key, tag) = head->Ok_0;
        heads_move(d, p, x, 0);
        skip_moves(d, p, x, q, tag, 0);
        tip_step_passes(x, q, family, key, tag, s);
        tip_step_moves(d, p, x, q, family, key, tag, s);
        tip_items_fold(d, p + x.len(), family, tip_after(family, s, x), rest);
    }
}

pub(crate) proof fn tip_object_is_read(
    d: Seq<u8>,
    p: nat,
    name: Seq<u16>,
    class: Seq<u8>,
    id: Seq<u8>,
    items: Seq<Seq<u8>>,
)
    requires
        name.len() <= MAX_DESCRIPTOR_STRING_LEN,
        is_key(class, id),
        items.len() <= u32::MAX,
        are_items(items),
        stands_at(d, p, object_bytes(name, class, items)),
    ensures
        tip_read(d, p).0 == Ok::<InnerBrush<Seq<char>>, DescError>(
            tip_fold(family_of(id), empty_tip(id == ascii("computedBrush")), items),
        ),
{
    reveal(tip_read);
    let start = object_start(name, class, items.len());
    parts_stand(d, p, start, joined(items));
    object_start_is_read(d, p, name, class, id, items.len());
    tip_items_fold(d, p + start.len(), family_of(id), empty_tip(id == ascii("computedBrush")), items);
}

/// What a dual brush object says after one more item.
pub open spec fn dual_after(s: DualState, x: Seq<u8>) -> DualState {
    let (head, q) = item_head(x, 0);
    dual_step(x, q, head->Ok_0.0, head->Ok_0.1, s).0->Next_0
}

/// What a dual brush object says after more items.
pub open spec fn dual_fold(s: DualState, items: Seq<Seq<u8>>) -> DualState
    decreases items.len(),
{
    if items.len() == 0 {
        s
    } else {
        dual_fold(dual_after(s, items[0]), items.drop_first())
    }
}

pub(crate) proof fn dual_folds_last(s: DualState, items: Seq<Seq<u8>>, x: Seq<u8>)
    ensures
        dual_fold(s, items.push(x)) == dual_after(dual_fold(s, items), x),
    decreases items.len(),
{
    let all = items.push(x);
    if items.len() == 0 {
        assert(all.drop_first() =~= seq![]);
        assert(dual_fold(dual_after(s, x), all.drop_first()) == dual_after(s, x));
    } else {
        assert(all.drop_first() =~= items.drop_first().push(x));
        dual_folds_last(dual_after(s, items[0]), items.drop_first(), x);
    }
}

#[verifier::spinoff_prover]
#[verifier::rlimit(30)]
proof fn dual_items_fold(d: Seq<u8>, p: nat, s: DualState, items: Seq<Seq<u8>>)
    requires
        are_items(items),
        stands_at(d, p, joined(items)),
    ensures
        dual_items(d, p, items.len(), s) == (
            Ok::<DualState, DescError>(dual_fold(s, items)),
            p + joined(items).len(),
        ),
    decreases items.len(),
{
    if items.len() > 0 {
        let x = items[0];
        let rest = items.drop_first();
        rest_are_items(items);
        parts_stand(d, p, x, joined(rest));
        reveal(is_item);
        let (head, q) = item_head(x, 0);
        let (key, tag) = head->Ok_0;
        heads_move(d, p, x, 0);
        skip_moves(d, p, x, q, tag, 0);
        dual_step_passes(x, q, key, tag, s);
        dual_step_moves(d, p, x, q, key, tag, s);
        dual_items_fold(d, p + x.len(), dual_after(s, x), rest);
    }
}

pub(crate) proof fn dual_object_is_read(
    d: Seq<u8>,
    p: nat,
    name: Seq<u16>,
    class: Seq<u8>,
    id: Seq<u8>,
    items: Seq<Seq<u8>>,
)
    requires
        name.len() <= MAX_DESCRIPTOR_STRING_LEN,
        is_key(class, id),
        items.len() <= u32::MAX,
        are_items(items),
        stands_at(d, p, object_bytes(name, class, items)),
    ensures
        dual_read(d, p).0 == Ok::<DualState, DescError>(
            settled_dual(dual_fold((false, DualBrush::empty()), items)),
        ),
{
    reveal(dual_read);
    let start = object_start(name, class, items.len());
    parts_stand(d, p, start, joined(items));
    object_start_is_read(d, p, name, class, id, items.len());
    dual_items_fold(d, p + start.len(), (false, DualBrush::empty()), items);
}

} // verus!
