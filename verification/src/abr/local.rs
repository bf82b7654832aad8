//! What is read of a value depends on its own bytes alone, wherever in a descriptor they
//! stand.
use vstd::prelude::*;
use crate::abr::descriptor::{
    byte_read, bytes_read, double_read, enum_read, flag_read, i32_read, id_read, item_head,
    object_head, raw_read, skip_elements, skip_items, skip_value, u32_read, unicode_read,
    unit_float_read, units_at, Read, MAX_DESCRIPTOR_DEPTH, TAG_OBJC, TAG_VLLS,
};
use crate::abr::dump::unit_number_read;
use crate::abr::ordinals::{dual_step_passes, object_passes, tip_step_passes};
use crate::abr::preset::{
    brvr_items, brvr_read, brvr_step, dual_items, dual_read, dual_step, empty_tip, family_of,
    preset_item, tip_items, tip_read, tip_step, txtr_items, txtr_read, txtr_step, BrVr, DualState,
    Flow, InnerBrush, Txtr,
};
use crate::abr::types::{DualBrush, ShapeTipFamily};
use crate::support::bytes::{be_u16, be_u32, be_u64, fits};
use crate::support::text::ascii;

verus! {

/// Do the bytes `x` stand at `p`?
pub open spec fn stands_at(d: Seq<u8>, p: nat, x: Seq<u8>) -> bool {
    p + x.len() <= d.len() && d.subrange(p as int, (p + x.len()) as int) == x
}

/// A read with its position moved by `p`.
pub open spec fn moved<T>(read: Read<T>, p: nat) -> Read<T> {
    (read.0, read.1 + p)
}

/// Is a read that succeeds the same where its bytes were moved to?
pub open spec fn moves<T>(there: Read<T>, here: Read<T>, p: nat) -> bool {
    here.0 is Ok ==> there == moved(here, p)
}

pub(crate) proof fn numbers_move(d: Seq<u8>, p: nat, x: Seq<u8>, i: nat)
    requires
        stands_at(d, p, x),
    ensures
        fits(x, i, 1) ==> d[(p + i) as int] == x[i as int],
        fits(x, i, 2) ==> be_u16(d, (p + i) as int) == be_u16(x, i as int),
        fits(x, i, 4) ==> be_u32(d, (p + i) as int) == be_u32(x, i as int),
        fits(x, i, 8) ==> be_u64(d, (p + i) as int) == be_u64(x, i as int),
{
    assert forall|k: int| 0 <= k < x.len() implies #[trigger] x[k] == d[p + k] by {
        assert(d.subrange(p as int, (p + x.len()) as int)[k] == d[p + k]);
    }
    let i = i as int;
    if i + 1 <= x.len() {
        assert(x[i] == d[p + i]);
    }
    if i + 2 <= x.len() {
        assert(x[i + 1] == d[p + (i + 1)]);
    }
    if i + 4 <= x.len() {
        assert(x[i + 2] == d[p + (i + 2)]);
        assert(x[i + 3] == d[p + (i + 3)]);
    }
    if i + 8 <= x.len() {
        assert(x[i + 4] == d[p + (i + 4)]);
        assert(x[i + 5] == d[p + (i + 5)]);
        assert(x[i + 6] == d[p + (i + 6)]);
        assert(x[i + 7] == d[p + (i + 7)]);
    }
}

pub(crate) proof fn leaves_move(d: Seq<u8>, p: nat, x: Seq<u8>, i: nat)
    requires
        stands_at(d, p, x),
    ensures
        moves(byte_read(d, p + i), byte_read(x, i), p),
        moves(flag_read(d, p + i), flag_read(x, i), p),
        moves(u32_read(d, p + i), u32_read(x, i), p),
        moves(i32_read(d, p + i), i32_read(x, i), p),
        moves(double_read(d, p + i), double_read(x, i), p),
        moves(unit_float_read(d, p + i), unit_float_read(x, i), p),
{
    numbers_move(d, p, x, i);
    numbers_move(d, p, x, i + 4);
}

proof fn bytes_move(d: Seq<u8>, p: nat, x: Seq<u8>, i: nat, n: nat)
    requires
        stands_at(d, p, x),
    ensures
        moves(bytes_read(d, p + i, n), bytes_read(x, i, n), p),
{
    if fits(x, i, n) {
        assert(x.subrange(i as int, (i + n) as int) =~= d.subrange((p + i) as int, (p + i + n) as int));
    }
}

pub(crate) proof fn unit_numbers_move(d: Seq<u8>, p: nat, x: Seq<u8>, i: nat)
    requires
        stands_at(d, p, x),
    ensures
        moves(unit_number_read(d, p + i), unit_number_read(x, i), p),
        unit_number_read(x, i).0 is Ok <==> unit_float_read(x, i).0 is Ok,
        unit_number_read(x, i).0 is Ok ==> unit_number_read(x, i).1 == unit_float_read(x, i).1,
{
    bytes_move(d, p, x, i, 4);
    leaves_move(d, p, x, i + 4);
}

pub(crate) proof fn texts_move(d: Seq<u8>, p: nat, x: Seq<u8>, i: nat)
    requires
        stands_at(d, p, x),
    ensures
        moves(unicode_read(d, p + i), unicode_read(x, i), p),
{
    leaves_move(d, p, x, i);
    match u32_read(x, i) {
        (Ok(len), q) => {
            let n = len as nat;
            if fits(x, q, 2 * n) {
                assert forall|k: int| 0 <= k < n implies #[trigger] units_at(x, q, n)[k]
                    == units_at(d, p + q, n)[k] by {
                    numbers_move(d, p, x, (q + 2 * k) as nat);
                }
                assert(units_at(x, q, n) =~= units_at(d, p + q, n));
            }
        },
        _ => {},
    }
}

pub(crate) proof fn ids_move(d: Seq<u8>, p: nat, x: Seq<u8>, i: nat)
    requires
        stands_at(d, p, x),
    ensures
        moves(id_read(d, p + i), id_read(x, i), p),
        moves(raw_read(d, p + i), raw_read(x, i), p),
{
    leaves_move(d, p, x, i);
    match u32_read(x, i) {
        (Ok(len), q) => {
            bytes_move(d, p, x, q, len as nat);
            bytes_move(d, p, x, q, 4);
        },
        _ => {},
    }
}

pub(crate) proof fn heads_move(d: Seq<u8>, p: nat, x: Seq<u8>, i: nat)
    requires
        stands_at(d, p, x),
    ensures
        moves(enum_read(d, p + i), enum_read(x, i), p),
        moves(item_head(d, p + i), item_head(x, i), p),
        moves(object_head(d, p + i), object_head(x, i), p),
{
    ids_move(d, p, x, i);
    match id_read(x, i) {
        (Ok(_), q) => {
            ids_move(d, p, x, q);
            leaves_move(d, p, x, q);
        },
        _ => {},
    }
    texts_move(d, p, x, i);
    match unicode_read(x, i) {
        (Ok(_), q) => {
            ids_move(d, p, x, q);
            match id_read(x, q) {
                (Ok(_), at) => {
                    leaves_move(d, p, x, at);
                },
                _ => {},
            }
        },
        _ => {},
    }
}

/// An item's head is read the same wherever it stands.
pub proof fn item_head_moves(d: Seq<u8>, p: nat, x: Seq<u8>, i: nat)
    requires
        stands_at(d, p, x),
    ensures
        moves(item_head(d, p + i), item_head(x, i), p),
{
    heads_move(d, p, x, i);
}

/// An object's head is read the same wherever it stands.
pub proof fn object_head_moves(d: Seq<u8>, p: nat, x: Seq<u8>, i: nat)
    requires
        stands_at(d, p, x),
    ensures
        moves(object_head(d, p + i), object_head(x, i), p),
{
    heads_move(d, p, x, i);
}

/// A value is passed over the same wherever it stands.
pub proof fn skip_moves(d: Seq<u8>, p: nat, x: Seq<u8>, i: nat, tag: u32, depth: nat)
    requires
        stands_at(d, p, x),
    ensures
        moves(skip_value(d, p + i, tag, depth), skip_value(x, i, tag, depth), p),
    decreases MAX_DESCRIPTOR_DEPTH + 1 - depth, 0nat,
{
    if depth <= MAX_DESCRIPTOR_DEPTH {
        leaves_move(d, p, x, i);
        texts_move(d, p, x, i);
        ids_move(d, p, x, i);
        heads_move(d, p, x, i);
        if tag == TAG_VLLS {
            match u32_read(x, i) {
                (Ok(count), q) => {
                    skip_elements_moves(d, p, x, q, count as nat, depth + 1);
                },
                _ => {},
            }
        } else if tag == TAG_OBJC {
            match object_head(x, i) {
                (Ok((_, count)), q) => {
                    skip_items_moves(d, p, x, q, count as nat, depth + 1);
                },
                _ => {},
            }
        }
    }
}

proof fn skip_elements_moves(d: Seq<u8>, p: nat, x: Seq<u8>, i: nat, n: nat, depth: nat)
    requires
        stands_at(d, p, x),
    ensures
        moves(skip_elements(d, p + i, n, depth), skip_elements(x, i, n, depth), p),
    decreases MAX_DESCRIPTOR_DEPTH + 1 - depth, n + 1,
{
    if n > 0 {
        leaves_move(d, p, x, i);
        match u32_read(x, i) {
            (Ok(tag), q) => {
                skip_moves(d, p, x, q, tag, depth);
                skip_elements_moves(
                    d,
                    p,
                    x,
                    skip_value(x, q, tag, depth).1,
                    (n - 1) as nat,
                    depth,
                );
            },
            _ => {},
        }
    }
}

pub(crate) proof fn skip_items_moves(d: Seq<u8>, p: nat, x: Seq<u8>, i: nat, n: nat, depth: nat)
    requires
        stands_at(d, p, x),
    ensures
        moves(skip_items(d, p + i, n, depth), skip_items(x, i, n, depth), p),
    decreases MAX_DESCRIPTOR_DEPTH + 1 - depth, n + 1,
{
    if n > 0 {
        heads_move(d, p, x, i);
        match item_head(x, i) {
            (Ok((_, tag)), q) => {
                skip_moves(d, p, x, q, tag, depth);
                skip_items_moves(
                    d,
                    p,
                    x,
                    skip_value(x, q, tag, depth).1,
                    (n - 1) as nat,
                    depth,
                );
            },
            _ => {},
        }
    }
}

pub(crate) proof fn brvr_items_move(d: Seq<u8>, p: nat, x: Seq<u8>, i: nat, n: nat, b: BrVr)
    requires
        stands_at(d, p, x),
        skip_items(x, i, n, 0).0 is Ok,
    ensures
        brvr_items(d, p + i, n, b) == moved(brvr_items(x, i, n, b), p),
    decreases n,
{
    if n > 0 {
        heads_move(d, p, x, i);
        let (head, q) = item_head(x, i);
        let (key, tag) = head->Ok_0;
        leaves_move(d, p, x, q);
        skip_moves(d, p, x, q, tag, 0);
        match brvr_step(x, q, key, tag, b) {
            (Flow::Next(then), at) => {
                assert(at == skip_value(x, q, tag, 0).1);
                assert(brvr_step(d, p + q, key, tag, b) == (Flow::Next(then), p + at));
                brvr_items_move(d, p, x, at, (n - 1) as nat, then);
            },
            _ => {},
        }
    }
}

proof fn brvr_moves(d: Seq<u8>, p: nat, x: Seq<u8>, i: nat)
    requires
        stands_at(d, p, x),
        skip_value(x, i, TAG_OBJC, 0).0 is Ok,
    ensures
        brvr_read(d, p + i) == moved(brvr_read(x, i), p),
{
    reveal(brvr_read);
    object_passes(x, i);
    heads_move(d, p, x, i);
    let (head, q) = object_head(x, i);
    brvr_items_move(
        d,
        p,
        x,
        q,
        head->Ok_0.1 as nat,
        BrVr { control: None, jitter_pct: None },
    );
}

pub(crate) proof fn txtr_items_move(d: Seq<u8>, p: nat, x: Seq<u8>, i: nat, n: nat, t: Txtr<Seq<char>>)
    requires
        stands_at(d, p, x),
        skip_items(x, i, n, 0).0 is Ok,
    ensures
        txtr_items(d, p + i, n, t) == moved(txtr_items(x, i, n, t), p),
    decreases n,
{
    if n > 0 {
        heads_move(d, p, x, i);
        let (head, q) = item_head(x, i);
        let (key, tag) = head->Ok_0;
        texts_move(d, p, x, q);
        skip_moves(d, p, x, q, tag, 0);
        match txtr_step(x, q, key, tag, t) {
            (Flow::Next(then), at) => {
                assert(at == skip_value(x, q, tag, 0).1);
                assert(txtr_step(d, p + q, key, tag, t) == (Flow::Next(then), p + at));
                txtr_items_move(d, p, x, at, (n - 1) as nat, then);
            },
            _ => {},
        }
    }
}

proof fn txtr_moves(d: Seq<u8>, p: nat, x: Seq<u8>, i: nat)
    requires
        stands_at(d, p, x),
        skip_value(x, i, TAG_OBJC, 0).0 is Ok,
    ensures
        txtr_read(d, p + i) == moved(txtr_read(x, i), p),
{
    reveal(txtr_read);
    object_passes(x, i);
    heads_move(d, p, x, i);
    let (head, q) = object_head(x, i);
    txtr_items_move(d, p, x, q, head->Ok_0.1 as nat, Txtr { name: None, id: None });
}

pub(crate) proof fn tip_step_moves(
    d: Seq<u8>,
    p: nat,
    x: Seq<u8>,
    i: nat,
    family: Option<ShapeTipFamily>,
    key: Seq<u8>,
    tag: u32,
    t: InnerBrush<Seq<char>>,
)
    requires
        stands_at(d, p, x),
        skip_value(x, i, tag, 0).0 is Ok,
    ensures
        tip_step(d, p + i, family, key, tag, t) == (
            tip_step(x, i, family, key, tag, t).0,
            tip_step(x, i, family, key, tag, t).1 + p,
        ),
{
    reveal(tip_step);
    leaves_move(d, p, x, i);
    texts_move(d, p, x, i);
    skip_moves(d, p, x, i, tag, 0);
}

pub(crate) proof fn tip_items_move(
    d: Seq<u8>,
    p: nat,
    x: Seq<u8>,
    i: nat,
    n: nat,
    family: Option<ShapeTipFamily>,
    t: InnerBrush<Seq<char>>,
)
    requires
        stands_at(d, p, x),
        skip_items(x, i, n, 0).0 is Ok,
    ensures
        tip_items(d, p + i, n, family, t) == moved(tip_items(x, i, n, family, t), p),
    decreases n,
{
    if n > 0 {
        heads_move(d, p, x, i);
        let (head, q) = item_head(x, i);
        let (key, tag) = head->Ok_0;
        tip_step_passes(x, q, family, key, tag, t);
        tip_step_moves(d, p, x, q, family, key, tag, t);
        match tip_step(x, q, family, key, tag, t) {
            (Flow::Next(then), at) => {
                tip_items_move(d, p, x, at, (n - 1) as nat, family, then);
            },
            _ => {},
        }
    }
}

proof fn tip_moves(d: Seq<u8>, p: nat, x: Seq<u8>, i: nat)
    requires
        stands_at(d, p, x),
        skip_value(x, i, TAG_OBJC, 0).0 is Ok,
    ensures
        tip_read(d, p + i) == moved(tip_read(x, i), p),
{
    reveal(tip_read);
    object_passes(x, i);
    heads_move(d, p, x, i);
    let (head, q) = object_head(x, i);
    let class = head->Ok_0.0;
    tip_items_move(
        d,
        p,
        x,
        q,
        head->Ok_0.1 as nat,
        family_of(class),
        empty_tip(class == ascii("computedBrush")),
    );
}

pub(crate) proof fn dual_step_moves(
    d: Seq<u8>,
    p: nat,
    x: Seq<u8>,
    i: nat,
    key: Seq<u8>,
    tag: u32,
    s: DualState,
)
    requires
        stands_at(d, p, x),
        skip_value(x, i, tag, 0).0 is Ok,
    ensures
        dual_step(d, p + i, key, tag, s) == (
            dual_step(x, i, key, tag, s).0,
            dual_step(x, i, key, tag, s).1 + p,
        ),
{
    reveal(dual_step);
    leaves_move(d, p, x, i);
    heads_move(d, p, x, i);
    skip_moves(d, p, x, i, tag, 0);
    if tag == TAG_OBJC {
        tip_moves(d, p, x, i);
        brvr_moves(d, p, x, i);
    }
}

pub(crate) proof fn dual_items_move(d: Seq<u8>, p: nat, x: Seq<u8>, i: nat, n: nat, s: DualState)
    requires
        stands_at(d, p, x),
        skip_items(x, i, n, 0).0 is Ok,
    ensures
        dual_items(d, p + i, n, s) == moved(dual_items(x, i, n, s), p),
    decreases n,
{
    if n > 0 {
        heads_move(d, p, x, i);
        let (head, q) = item_head(x, i);
        let (key, tag) = head->Ok_0;
        dual_step_passes(x, q, key, tag, s);
        dual_step_moves(d, p, x, q, key, tag, s);
        match dual_step(x, q, key, tag, s) {
            (Flow::Next(then), at) => {
                dual_items_move(d, p, x, at, (n - 1) as nat, then);
            },
            _ => {},
        }
    }
}

proof fn dual_moves(d: Seq<u8>, p: nat, x: Seq<u8>, i: nat)
    requires
        stands_at(d, p, x),
        skip_value(x, i, TAG_OBJC, 0).0 is Ok,
    ensures
        dual_read(d, p + i) == moved(dual_read(x, i), p),
{
    reveal(dual_read);
    object_passes(x, i);
    heads_move(d, p, x, i);
    let (head, q) = object_head(x, i);
    dual_items_move(d, p, x, q, head->Ok_0.1 as nat, (false, DualBrush::empty()));
}

/// An item of a preset is read the same wherever it stands, where it can be passed over.
pub proof fn preset_item_moves(d: Seq<u8>, p: nat, x: Seq<u8>, i: nat, key: Seq<u8>, tag: u32)
    requires
        stands_at(d, p, x),
        skip_value(x, i, tag, 0).0 is Ok,
    ensures
        preset_item(d, p + i, key, tag) == match preset_item(x, i, key, tag) {
            Some(read) => Some(moved(read, p)),
            None => None,
        },
{
    leaves_move(d, p, x, i);
    texts_move(d, p, x, i);
    heads_move(d, p, x, i);
    if tag == TAG_OBJC {
        tip_moves(d, p, x, i);
        dual_moves(d, p, x, i);
        txtr_moves(d, p, x, i);
        brvr_moves(d, p, x, i);
    }
}

} // verus!
