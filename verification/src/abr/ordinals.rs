//! The presets of a descriptor and the entries of its dump have the same numbers.
//!
//! Both readers pass over the same bytes: a value that is dumped without a stop ends where
//! passing over it ends, and where every reader of presets ends that takes it apart.
use vstd::prelude::*;
use crate::abr::descriptor::{
    item_head, object_head, skip_elements, skip_items, skip_value, u32_read, Read,
    MAX_DESCRIPTOR_DEPTH, TAG_OBJC, TAG_VLLS,
};
use crate::abr::dump::{
    dump_elements, dump_items, dump_of, dump_value, object_items, single_item, tag_chars,
    walk_elements, walk_items, walk_of, with_element, with_entry, DumpView, ItemView, StopView,
    ValueView, WalkView, Walked,
};
use crate::abr::pairing::{
    computed_of, paired, preset_brush, presets_first, resolved, resolved_are_resolved, tip_brush,
    unsupported_of, Info,
};
use crate::abr::parser::{
    block_data, blocks_from, header_of, infos_of, is_stream, parsed, raw_desc_of, samps_of, Block,
    PatternMode, TipMode, BLOCK_DESC,
};
use crate::abr::preset::{
    brvr_items, brvr_read, brvr_step, dual_items, dual_read, dual_step, empty_tip, family_of,
    info_of, last_name, preset_item,
    preset_items, preset_list, preset_read, presets_of, root_head, root_items, tip_items, tip_read,
    tip_step, txtr_items, txtr_read, txtr_step, BrVr, BrushDescInfo, DualState, Flow, InnerBrush,
    PresetItem, Txtr,
};
use crate::abr::samp::{rect_offset_of, SampView};
use crate::abr::types::{DualBrush, ShapeTipFamily};
use crate::support::text::{ascii, utf8_lossy_text};

verus! {

/// Passing over something succeeds and ends at `q`.
pub open spec fn passes<T>(read: Read<T>, q: nat) -> bool {
    read.0 is Ok && read.1 == q
}

proof fn value_is_passed(d: Seq<u8>, p: nat, tag: u32, depth: nat, key: Seq<u8>, index: nat)
    ensures
        dump_value(d, p, tag, depth, key, index) matches (Ok((_, None)), q) ==> passes(
            skip_value(d, p, tag, depth),
            q,
        ),
    decreases MAX_DESCRIPTOR_DEPTH + 1 - depth, 0nat,
{
    if depth <= MAX_DESCRIPTOR_DEPTH {
        if tag == TAG_VLLS {
            match u32_read(d, p) {
                (Ok(count), q) => {
                    elements_are_passed(d, q, count as nat, depth + 1, key, index, seq![]);
                },
                _ => {},
            }
        } else if tag == TAG_OBJC {
            match object_head(d, p) {
                (Ok((_, count)), q) => {
                    items_are_passed(d, q, count as nat, depth + 1, index, seq![]);
                },
                _ => {},
            }
        }
    }
}

proof fn elements_are_passed(
    d: Seq<u8>,
    p: nat,
    n: nat,
    depth: nat,
    key: Seq<u8>,
    index: nat,
    done: Seq<ValueView>,
)
    ensures
        dump_elements(d, p, n, depth, key, index, done) matches (Ok((_, None)), q) ==> passes(
            skip_elements(d, p, n, depth),
            q,
        ),
    decreases MAX_DESCRIPTOR_DEPTH + 1 - depth, n + 1,
{
    if n > 0 {
        match u32_read(d, p) {
            (Ok(tag), q) => {
                value_is_passed(d, q, tag, depth, key, index);
                match dump_value(d, q, tag, depth, key, index) {
                    (Ok((v, None)), q) => {
                        elements_are_passed(
                            d,
                            q,
                            (n - 1) as nat,
                            depth,
                            key,
                            index,
                            done.push(v),
                        );
                    },
                    _ => {},
                }
            },
            _ => {},
        }
    }
}

proof fn items_are_passed(
    d: Seq<u8>,
    p: nat,
    n: nat,
    depth: nat,
    index: nat,
    done: Seq<ItemView>,
)
    ensures
        dump_items(d, p, n, depth, index, done) matches (Ok((_, None)), q) ==> passes(
            skip_items(d, p, n, depth),
            q,
        ),
    decreases MAX_DESCRIPTOR_DEPTH + 1 - depth, n + 1,
{
    if n > 0 {
        match item_head(d, p) {
            (Ok((key, tag)), q) => {
                value_is_passed(d, q, tag, depth, key, index);
                match dump_value(d, q, tag, depth, key, index) {
                    (Ok((value, None)), q) => {
                        let item = ItemView {
                            key: utf8_lossy_text(key),
                            type_tag: tag_chars(tag),
                            depth,
                            value,
                        };
                        items_are_passed(d, q, (n - 1) as nat, depth, index, done.push(item));
                    },
                    _ => {},
                }
            },
            _ => {},
        }
    }
}

proof fn value_passes_higher(d: Seq<u8>, p: nat, tag: u32, depth: nat, up: nat)
    requires
        up <= depth,
        skip_value(d, p, tag, depth).0 is Ok,
    ensures
        skip_value(d, p, tag, up) == skip_value(d, p, tag, depth),
    decreases MAX_DESCRIPTOR_DEPTH + 1 - depth, 0nat,
{
    if tag == TAG_VLLS {
        match u32_read(d, p) {
            (Ok(count), q) => {
                elements_pass_higher(d, q, count as nat, depth + 1, up + 1);
            },
            _ => {},
        }
    } else if tag == TAG_OBJC {
        match object_head(d, p) {
            (Ok((_, count)), q) => {
                items_pass_higher(d, q, count as nat, depth + 1, up + 1);
            },
            _ => {},
        }
    }
}

proof fn elements_pass_higher(d: Seq<u8>, p: nat, n: nat, depth: nat, up: nat)
    requires
        up <= depth,
        skip_elements(d, p, n, depth).0 is Ok,
    ensures
        skip_elements(d, p, n, up) == skip_elements(d, p, n, depth),
    decreases MAX_DESCRIPTOR_DEPTH + 1 - depth, n + 1,
{
    if n > 0 {
        match u32_read(d, p) {
            (Ok(tag), q) => {
                value_passes_higher(d, q, tag, depth, up);
                elements_pass_higher(d, skip_value(d, q, tag, depth).1, (n - 1) as nat, depth, up);
            },
            _ => {},
        }
    }
}

proof fn items_pass_higher(d: Seq<u8>, p: nat, n: nat, depth: nat, up: nat)
    requires
        up <= depth,
        skip_items(d, p, n, depth).0 is Ok,
    ensures
        skip_items(d, p, n, up) == skip_items(d, p, n, depth),
    decreases MAX_DESCRIPTOR_DEPTH + 1 - depth, n + 1,
{
    if n > 0 {
        match item_head(d, p) {
            (Ok((_, tag)), q) => {
                value_passes_higher(d, q, tag, depth, up);
                items_pass_higher(d, skip_value(d, q, tag, depth).1, (n - 1) as nat, depth, up);
            },
            _ => {},
        }
    }
}

/// The object at `p`, as its items at depth 0 are passed over.
pub(crate) proof fn object_passes(d: Seq<u8>, p: nat)
    requires
        skip_value(d, p, TAG_OBJC, 0).0 is Ok,
    ensures
        ({
            let (head, q) = object_head(d, p);
            &&& head is Ok
            &&& skip_items(d, q, head->Ok_0.1 as nat, 0) == skip_value(d, p, TAG_OBJC, 0)
        }),
{
    let (head, q) = object_head(d, p);
    if head is Ok {
        items_pass_higher(d, q, head->Ok_0.1 as nat, 1, 0);
    }
}

proof fn brvr_passes_items(d: Seq<u8>, p: nat, n: nat, b: BrVr)
    requires
        skip_items(d, p, n, 0).0 is Ok,
    ensures
        passes(brvr_items(d, p, n, b), skip_items(d, p, n, 0).1),
    decreases n,
{
    if n > 0 {
        let (head, q) = item_head(d, p);
        let (key, tag) = head->Ok_0;
        let next = skip_value(d, q, tag, 0).1;
        match brvr_step(d, q, key, tag, b) {
            (Flow::Next(b), at) => {
                assert(at == next);
                brvr_passes_items(d, next, (n - 1) as nat, b);
            },
            _ => {},
        }
    }
}

pub(crate) proof fn brvr_passes(d: Seq<u8>, p: nat)
    requires
        skip_value(d, p, TAG_OBJC, 0).0 is Ok,
    ensures
        passes(brvr_read(d, p), skip_value(d, p, TAG_OBJC, 0).1),
{
    reveal(brvr_read);
    object_passes(d, p);
    let (head, q) = object_head(d, p);
    brvr_passes_items(d, q, head->Ok_0.1 as nat, BrVr { control: None, jitter_pct: None });
}

proof fn txtr_passes_items(d: Seq<u8>, p: nat, n: nat, t: Txtr<Seq<char>>)
    requires
        skip_items(d, p, n, 0).0 is Ok,
    ensures
        passes(txtr_items(d, p, n, t), skip_items(d, p, n, 0).1),
    decreases n,
{
    if n > 0 {
        let (head, q) = item_head(d, p);
        let (key, tag) = head->Ok_0;
        let next = skip_value(d, q, tag, 0).1;
        match txtr_step(d, q, key, tag, t) {
            (Flow::Next(t), at) => {
                assert(at == next);
                txtr_passes_items(d, next, (n - 1) as nat, t);
            },
            _ => {},
        }
    }
}

pub(crate) proof fn txtr_passes(d: Seq<u8>, p: nat)
    requires
        skip_value(d, p, TAG_OBJC, 0).0 is Ok,
    ensures
        passes(txtr_read(d, p), skip_value(d, p, TAG_OBJC, 0).1),
{
    reveal(txtr_read);
    object_passes(d, p);
    let (head, q) = object_head(d, p);
    txtr_passes_items(d, q, head->Ok_0.1 as nat, Txtr { name: None, id: None });
}

pub(crate) proof fn tip_step_passes(
    d: Seq<u8>,
    p: nat,
    family: Option<ShapeTipFamily>,
    key: Seq<u8>,
    tag: u32,
    t: InnerBrush<Seq<char>>,
)
    requires
        skip_value(d, p, tag, 0).0 is Ok,
    ensures
        tip_step(d, p, family, key, tag, t).0 is Next,
        tip_step(d, p, family, key, tag, t).1 == skip_value(d, p, tag, 0).1,
{
    reveal(tip_step);
}

proof fn tip_passes_items(
    d: Seq<u8>,
    p: nat,
    n: nat,
    family: Option<ShapeTipFamily>,
    t: InnerBrush<Seq<char>>,
)
    requires
        skip_items(d, p, n, 0).0 is Ok,
    ensures
        passes(tip_items(d, p, n, family, t), skip_items(d, p, n, 0).1),
    decreases n,
{
    if n > 0 {
        let (head, q) = item_head(d, p);
        let (key, tag) = head->Ok_0;
        tip_step_passes(d, q, family, key, tag, t);
        match tip_step(d, q, family, key, tag, t) {
            (Flow::Next(t), next) => {
                tip_passes_items(d, next, (n - 1) as nat, family, t);
            },
            _ => {},
        }
    }
}

pub(crate) proof fn tip_passes(d: Seq<u8>, p: nat)
    requires
        skip_value(d, p, TAG_OBJC, 0).0 is Ok,
    ensures
        passes(tip_read(d, p), skip_value(d, p, TAG_OBJC, 0).1),
{
    reveal(tip_read);
    object_passes(d, p);
    let (head, q) = object_head(d, p);
    let class = head->Ok_0.0;
    tip_passes_items(
        d,
        q,
        head->Ok_0.1 as nat,
        family_of(class),
        empty_tip(class == ascii("computedBrush")),
    );
}

pub(crate) proof fn dual_step_passes(d: Seq<u8>, p: nat, key: Seq<u8>, tag: u32, s: DualState)
    requires
        skip_value(d, p, tag, 0).0 is Ok,
    ensures
        dual_step(d, p, key, tag, s).0 is Next,
        dual_step(d, p, key, tag, s).1 == skip_value(d, p, tag, 0).1,
{
    reveal(dual_step);
    if tag == TAG_OBJC {
        tip_passes(d, p);
        brvr_passes(d, p);
    }
}

proof fn dual_passes_items(d: Seq<u8>, p: nat, n: nat, s: DualState)
    requires
        skip_items(d, p, n, 0).0 is Ok,
    ensures
        passes(dual_items(d, p, n, s), skip_items(d, p, n, 0).1),
    decreases n,
{
    if n > 0 {
        let (head, q) = item_head(d, p);
        let (key, tag) = head->Ok_0;
        dual_step_passes(d, q, key, tag, s);
        match dual_step(d, q, key, tag, s) {
            (Flow::Next(s), next) => {
                dual_passes_items(d, next, (n - 1) as nat, s);
            },
            _ => {},
        }
    }
}

pub(crate) proof fn dual_passes(d: Seq<u8>, p: nat)
    requires
        skip_value(d, p, TAG_OBJC, 0).0 is Ok,
    ensures
        passes(dual_read(d, p), skip_value(d, p, TAG_OBJC, 0).1),
{
    reveal(dual_read);
    object_passes(d, p);
    let (head, q) = object_head(d, p);
    dual_passes_items(
        d,
        q,
        head->Ok_0.1 as nat,
        (false, DualBrush::empty()),
    );
}

pub(crate) proof fn preset_item_passes(d: Seq<u8>, p: nat, key: Seq<u8>, tag: u32)
    requires
        skip_value(d, p, tag, 0).0 is Ok,
    ensures
        preset_item(d, p, key, tag) matches Some(read) ==> passes(read, skip_value(d, p, tag, 0).1),
{
    if tag == TAG_OBJC {
        tip_passes(d, p);
        dual_passes(d, p);
        txtr_passes(d, p);
        brvr_passes(d, p);
    }
}

/// Is a preset's name among its dumped items? A preset without one has an empty name.
pub open spec fn is_dumped_name(items: Seq<ItemView>, name: Seq<char>) -> bool {
    name == Seq::<char>::empty() || exists|k: int|
        {
            &&& 0 <= k < items.len()
            &&& (#[trigger] items[k]).key == utf8_lossy_text(ascii("Nm  "))
            &&& items[k].value == ValueView::Text(name)
        }
}

proof fn names_stay_dumped(items: Seq<ItemView>, item: ItemView, name: Seq<char>)
    requires
        is_dumped_name(items, name),
    ensures
        is_dumped_name(items.push(item), name),
{
    if name != Seq::<char>::empty() {
        let k = choose|k: int|
            {
                &&& 0 <= k < items.len()
                &&& (#[trigger] items[k]).key == utf8_lossy_text(ascii("Nm  "))
                &&& items[k].value == ValueView::Text(name)
            };
        assert(items.push(item)[k] == items[k]);
    }
}

#[verifier::spinoff_prover]
#[verifier::rlimit(30)]
proof fn items_are_read_and_dumped(
    d: Seq<u8>,
    p: nat,
    n: nat,
    index: nat,
    done: Seq<ItemView>,
    kept: Seq<PresetItem<Seq<char>>>,
)
    requires
        dump_items(d, p, n, 0, index, done) matches (Ok((_, None)), _),
        is_dumped_name(done, last_name(kept)),
    ensures
        passes(preset_items(d, p, n, kept), dump_items(d, p, n, 0, index, done).1),
        is_dumped_name(
            dump_items(d, p, n, 0, index, done).0->Ok_0.0,
            last_name(preset_items(d, p, n, kept).0->Ok_0),
        ),
    decreases n,
{
    reveal(last_name);
    if n > 0 {
        let (head, q) = item_head(d, p);
        let (key, tag) = head->Ok_0;
        let (dumped, next) = dump_value(d, q, tag, 0, key, index);
        let value = dumped->Ok_0.0;
        let item = ItemView {
            key: utf8_lossy_text(key),
            type_tag: tag_chars(tag),
            depth: 0,
            value,
        };
        value_is_passed(d, q, tag, 0, key, index);
        preset_item_passes(d, q, key, tag);
        names_stay_dumped(done, item, last_name(kept));
        match preset_item(d, q, key, tag) {
            Some((Ok(read), at)) => {
                let more = kept.push(read);
                assert(more.drop_last() =~= kept);
                if read is Name {
                    assert(done.push(item)[done.len() as int] == item);
                    assert(is_dumped_name(done.push(item), last_name(more)));
                } else {
                    assert(last_name(more) == last_name(kept));
                }
                items_are_read_and_dumped(
                    d,
                    next,
                    (n - 1) as nat,
                    index,
                    done.push(item),
                    more,
                );
            },
            _ => {
                items_are_read_and_dumped(
                    d,
                    next,
                    (n - 1) as nat,
                    index,
                    done.push(item),
                    kept,
                );
            },
        }
    }
}

proof fn stop_is_at_index(d: Seq<u8>, p: nat, tag: u32, depth: nat, key: Seq<u8>, index: nat)
    ensures
        dump_value(d, p, tag, depth, key, index) matches (Ok((_, Some(stop))), _)
            ==> stop.preset_index == index,
    decreases MAX_DESCRIPTOR_DEPTH + 1 - depth, 0nat,
{
    if depth <= MAX_DESCRIPTOR_DEPTH {
        if tag == TAG_VLLS {
            match u32_read(d, p) {
                (Ok(count), q) => {
                    elements_stop_at_index(d, q, count as nat, depth + 1, key, index, seq![]);
                },
                _ => {},
            }
        } else if tag == TAG_OBJC {
            match object_head(d, p) {
                (Ok((_, count)), q) => {
                    items_stop_at_index(d, q, count as nat, depth + 1, index, seq![]);
                },
                _ => {},
            }
        }
    }
}

proof fn elements_stop_at_index(
    d: Seq<u8>,
    p: nat,
    n: nat,
    depth: nat,
    key: Seq<u8>,
    index: nat,
    done: Seq<ValueView>,
)
    ensures
        dump_elements(d, p, n, depth, key, index, done) matches (Ok((_, Some(stop))), _)
            ==> stop.preset_index == index,
    decreases MAX_DESCRIPTOR_DEPTH + 1 - depth, n + 1,
{
    if n > 0 {
        match u32_read(d, p) {
            (Ok(tag), q) => {
                stop_is_at_index(d, q, tag, depth, key, index);
                match dump_value(d, q, tag, depth, key, index) {
                    (Ok((v, None)), q) => {
                        elements_stop_at_index(
                            d,
                            q,
                            (n - 1) as nat,
                            depth,
                            key,
                            index,
                            done.push(v),
                        );
                    },
                    _ => {},
                }
            },
            _ => {},
        }
    }
}

proof fn items_stop_at_index(
    d: Seq<u8>,
    p: nat,
    n: nat,
    depth: nat,
    index: nat,
    done: Seq<ItemView>,
)
    ensures
        dump_items(d, p, n, depth, index, done) matches (Ok((_, Some(stop))), _)
            ==> stop.preset_index == index,
    decreases MAX_DESCRIPTOR_DEPTH + 1 - depth, n + 1,
{
    if n > 0 {
        match item_head(d, p) {
            (Ok((key, tag)), q) => {
                stop_is_at_index(d, q, tag, depth, key, index);
                match dump_value(d, q, tag, depth, key, index) {
                    (Ok((value, None)), q) => {
                        let item = ItemView {
                            key: utf8_lossy_text(key),
                            type_tag: tag_chars(tag),
                            depth,
                            value,
                        };
                        items_stop_at_index(d, q, (n - 1) as nat, depth, index, done.push(item));
                    },
                    _ => {},
                }
            },
            _ => {},
        }
    }
}

/// Is entry `k` the one in which a value of an unknown type ended a walk?
pub open spec fn stops_at(stop: Option<StopView>, k: int) -> bool {
    stop matches Some(s) && s.preset_index == k
}

/// Has preset `k` of a walk the name of preset `k` of these?
pub open spec fn is_walked(w: WalkView, infos: Seq<BrushDescInfo<Seq<char>>>, k: int) -> bool {
    k < infos.len() && is_dumped_name(w.presets[k], infos[k].name)
}

/// Do the presets of a walk have the places and the names of these presets? The one that the
/// walk stopped in need not.
pub open spec fn are_walked(w: WalkView, infos: Seq<BrushDescInfo<Seq<char>>>) -> bool {
    forall|k: int|
        0 <= k < w.presets.len() && !stops_at(w.stop, k) ==> #[trigger] is_walked(w, infos, k)
}

proof fn more_presets_are_walked(
    w: WalkView,
    infos: Seq<BrushDescInfo<Seq<char>>>,
    all: Seq<BrushDescInfo<Seq<char>>>,
)
    requires
        are_walked(w, infos),
        infos.is_prefix_of(all),
    ensures
        are_walked(w, all),
{
    assert forall|k: int| 0 <= k < w.presets.len() && !stops_at(w.stop, k) implies #[trigger] is_walked(
        w,
        all,
        k,
    ) by {
        assert(is_walked(w, infos, k));
        assert(all.subrange(0, infos.len() as int)[k] == infos[k]);
    }
}

proof fn root_keeps_presets(
    d: Seq<u8>,
    p: nat,
    n: nat,
    found: Seq<BrushDescInfo<Seq<char>>>,
)
    ensures
        root_items(d, p, n, found).0 matches Ok(all) ==> found.is_prefix_of(all),
    decreases n,
{
    if n > 0 {
        match item_head(d, p) {
            (Ok((key, tag)), q) => if key == ascii("Brsh") && tag == TAG_VLLS {
                match u32_read(d, q) {
                    (Ok(count), q) => {
                        list_keeps_presets(d, q, count as nat, found);
                        match preset_list(d, q, count as nat, found) {
                            (Ok(more), q) => {
                                root_keeps_presets(d, q, (n - 1) as nat, more);
                            },
                            _ => {},
                        }
                    },
                    _ => {},
                }
            } else {
                root_keeps_presets(d, skip_value(d, q, tag, 0).1, (n - 1) as nat, found);
            },
            _ => {},
        }
    }
}

proof fn list_keeps_presets(
    d: Seq<u8>,
    p: nat,
    n: nat,
    found: Seq<BrushDescInfo<Seq<char>>>,
)
    ensures
        preset_list(d, p, n, found).0 matches Ok(all) ==> found.is_prefix_of(all),
    decreases n,
{
    if n > 0 {
        match u32_read(d, p) {
            (Ok(tag), q) => if tag == TAG_OBJC {
                match preset_read(d, q) {
                    (Ok(info), q) => {
                        list_keeps_presets(d, q, (n - 1) as nat, found.push(info));
                    },
                    _ => {},
                }
            } else {
                list_keeps_presets(d, skip_value(d, q, tag, 0).1, (n - 1) as nat, found);
            },
            _ => {},
        }
    }
}

/// An entry that ends the walk changes nothing of the presets before it.
proof fn last_entry_is_walked(
    w: WalkView,
    preset: bool,
    entry: Walked<Seq<ItemView>>,
    infos: Seq<BrushDescInfo<Seq<char>>>,
)
    requires
        w.stop is None,
        are_walked(w, infos),
        with_entry(w, preset, entry).1 is None,
        entry.0 matches Ok((_, Some(stop))) ==> stop.preset_index == w.next_index(preset),
    ensures
        are_walked(with_entry(w, preset, entry).0, infos),
{
    let then = with_entry(w, preset, entry).0;
    assert forall|k: int| 0 <= k < then.presets.len() && !stops_at(then.stop, k) implies #[trigger] is_walked(
        then,
        infos,
        k,
    ) by {
        assert(!stops_at(w.stop, k));
        assert(then.presets[k] == w.presets[k]);
        assert(is_walked(w, infos, k));
    }
}

#[verifier::spinoff_prover]
#[verifier::rlimit(30)]
proof fn list_is_walked(
    d: Seq<u8>,
    p: nat,
    n: nat,
    w: WalkView,
    found: Seq<BrushDescInfo<Seq<char>>>,
)
    requires
        w.stop is None,
        w.presets.len() == found.len(),
        are_walked(w, found),
    ensures
        ({
            let (then, next) = walk_elements(d, p, n, w);
            let (read, q) = preset_list(d, p, n, found);
            &&& read matches Ok(all) ==> are_walked(then, all)
            &&& next is Some ==> {
                &&& then.stop is None
                &&& read matches Ok(all) && all.len() == then.presets.len()
                &&& next == Some(q)
            }
        }),
    decreases n,
{
    if n > 0 {
        match u32_read(d, p) {
            (Ok(tag), q) => {
                let (then, next) = with_element(d, q, tag, w);
                list_keeps_presets(d, p, n, found);
                if tag == TAG_OBJC {
                    let entry = object_items(d, q, w.next_index(true));
                    match object_head(d, q) {
                        (Ok((_, count)), at) => {
                            let count = count as nat;
                            let first = w.presets.len();
                            items_stop_at_index(d, at, count, 0, first, seq![]);
                            if next is Some {
                                reveal(last_name);
                                assert(is_dumped_name(
                                    seq![],
                                    last_name(Seq::<PresetItem<Seq<char>>>::empty()),
                                ));
                                items_are_read_and_dumped(d, at, count, first, seq![], seq![]);
                                reveal(preset_read);
                                let info = info_of(preset_items(d, at, count, seq![]).0->Ok_0);
                                let more = found.push(info);
                                assert forall|k: int|
                                    0 <= k < then.presets.len() && !stops_at(
                                        then.stop,
                                        k,
                                    ) implies #[trigger] is_walked(then, more, k) by {
                                    if k < first {
                                        assert(then.presets[k] == w.presets[k]);
                                        assert(!stops_at(w.stop, k));
                                        assert(is_walked(w, found, k));
                                        assert(more[k] == found[k]);
                                    }
                                }
                                list_is_walked(d, next->0, (n - 1) as nat, then, more);
                            }
                        },
                        _ => {},
                    }
                    if next is None {
                        last_entry_is_walked(w, true, entry, found);
                        match preset_list(d, p, n, found).0 {
                            Ok(all) => {
                                more_presets_are_walked(then, found, all);
                            },
                            _ => {},
                        }
                    }
                } else {
                    let index = w.next_index(false);
                    let entry = single_item(d, q, ascii("Brsh"), tag, index);
                    stop_is_at_index(d, q, tag, 0, ascii("Brsh"), index);
                    value_is_passed(d, q, tag, 0, ascii("Brsh"), index);
                    if next is Some {
                        other_is_walked(w, entry, found);
                        list_is_walked(d, next->0, (n - 1) as nat, then, found);
                    } else {
                        last_entry_is_walked(w, false, entry, found);
                        match preset_list(d, p, n, found).0 {
                            Ok(all) => {
                                more_presets_are_walked(then, found, all);
                            },
                            _ => {},
                        }
                    }
                }
            },
            _ => {},
        }
    }
}

proof fn other_is_walked(
    w: WalkView,
    entry: Walked<Seq<ItemView>>,
    infos: Seq<BrushDescInfo<Seq<char>>>,
)
    requires
        w.stop is None,
        are_walked(w, infos),
        with_entry(w, false, entry).1 is Some,
    ensures
        are_walked(with_entry(w, false, entry).0, infos),
        with_entry(w, false, entry).0.stop is None,
{
    let then = with_entry(w, false, entry).0;
    assert forall|k: int| 0 <= k < then.presets.len() && !stops_at(then.stop, k) implies #[trigger] is_walked(
        then,
        infos,
        k,
    ) by {
        assert(!stops_at(w.stop, k));
        assert(then.presets[k] == w.presets[k]);
        assert(is_walked(w, infos, k));
    }
}

proof fn root_is_walked(
    d: Seq<u8>,
    p: nat,
    n: nat,
    w: WalkView,
    found: Seq<BrushDescInfo<Seq<char>>>,
)
    requires
        w.stop is None,
        w.presets.len() == found.len(),
        are_walked(w, found),
    ensures
        ({
            let (then, next) = walk_items(d, p, n, w);
            let (read, q) = root_items(d, p, n, found);
            &&& read matches Ok(all) ==> are_walked(then, all)
            &&& next is Some ==> {
                &&& then.stop is None
                &&& read matches Ok(all) && all.len() == then.presets.len()
                &&& next == Some(q)
            }
        }),
    decreases n,
{
    if n > 0 {
        root_keeps_presets(d, p, n, found);
        match item_head(d, p) {
            (Ok((key, tag)), q) => if key == ascii("Brsh") && tag == TAG_VLLS {
                match u32_read(d, q) {
                    (Ok(count), q) => {
                        list_is_walked(d, q, count as nat, w, found);
                        let (then, next) = walk_elements(d, q, count as nat, w);
                        match preset_list(d, q, count as nat, found) {
                            (Ok(more), at) => {
                                if next is Some {
                                    root_is_walked(d, at, (n - 1) as nat, then, more);
                                } else {
                                    root_keeps_presets(d, at, (n - 1) as nat, more);
                                    match root_items(d, p, n, found).0 {
                                        Ok(all) => {
                                            more_presets_are_walked(then, more, all);
                                        },
                                        _ => {},
                                    }
                                }
                            },
                            _ => {},
                        }
                    },
                    _ => {},
                }
            } else {
                let index = w.next_index(false);
                let entry = single_item(d, q, key, tag, index);
                let (then, next) = with_entry(w, false, entry);
                stop_is_at_index(d, q, tag, 0, key, index);
                value_is_passed(d, q, tag, 0, key, index);
                if next is Some {
                    other_is_walked(w, entry, found);
                    root_is_walked(d, next->0, (n - 1) as nat, then, found);
                } else {
                    last_entry_is_walked(w, false, entry, found);
                    match root_items(d, p, n, found).0 {
                        Ok(all) => {
                            more_presets_are_walked(then, found, all);
                        },
                        _ => {},
                    }
                }
            },
            _ => {},
        }
    }
}

/// Has the dump an entry with this number that holds this name?
pub open spec fn is_dumped(dump: DumpView, k: int, name: Seq<char>) -> bool {
    &&& 0 <= k < dump.presets.len()
    &&& dump.presets[k].index == k
    &&& is_dumped_name(dump.presets[k].items, name)
}

/// The entry of the preset in place `k` of the preset list has the number `k` in the dump,
/// whatever else the block holds. In a block that cannot be read to its end this holds of the
/// presets that the dump has, but for the one that it stopped in.
pub proof fn preset_ordinals_are_dump_ordinals(d: Seq<u8>, k: int)
    requires
        presets_of(d) is Ok,
        0 <= k < walk_of(d).0.presets.len(),
        !stops_at(dump_of(d).stop, k),
    ensures
        k < presets_of(d)->Ok_0.len(),
        is_dumped(dump_of(d), k, presets_of(d)->Ok_0[k].name),
{
    block_is_walked(d);
    assert(is_walked(walk_of(d).0, presets_of(d)->Ok_0, k));
    assert(walk_of(d).0.presets[k] == dump_of(d).presets[k].items);
}

proof fn block_is_walked(d: Seq<u8>)
    ensures
        presets_of(d) matches Ok(infos) ==> are_walked(walk_of(d).0, infos),
        walk_of(d).1 is Some ==> {
            &&& walk_of(d).0.stop is None
            &&& presets_of(d) matches Ok(infos) && infos.len() == walk_of(d).0.presets.len()
        },
{
    reveal(presets_of);
    let empty = WalkView { presets: seq![], others: seq![], stop: None };
    match root_head(d) {
        (Ok(_), q) => match u32_read(d, q) {
            (Ok(count), q) => {
                root_is_walked(d, q, count as nat, empty, seq![]);
            },
            _ => {},
        },
        _ => {},
    }
}

/// A block that is dumped to its end is read to its end: every preset has an entry in the
/// dump with its place in the preset list as number, and the presets come first there.
pub proof fn every_preset_is_dumped(d: Seq<u8>)
    requires
        walk_of(d).1 is Some,
    ensures
        presets_of(d) is Ok,
        presets_of(d)->Ok_0.len() == walk_of(d).0.presets.len(),
        forall|k: int|
            0 <= k < presets_of(d)->Ok_0.len() ==> is_dumped(
                dump_of(d),
                k,
                (#[trigger] presets_of(d)->Ok_0[k]).name,
            ),
{
    block_is_walked(d);
    assert forall|k: int| 0 <= k < presets_of(d)->Ok_0.len() implies is_dumped(
        dump_of(d),
        k,
        (#[trigger] presets_of(d)->Ok_0[k]).name,
    ) by {
        preset_ordinals_are_dump_ordinals(d, k);
    }
}

/// The number of `desc` blocks among the first `n` blocks.
pub open spec fn desc_count(blocks: Seq<Block>, n: nat) -> nat
    decreases n,
{
    if n == 0 {
        0
    } else {
        desc_count(blocks, (n - 1) as nat) + if blocks[n - 1].kind == BLOCK_DESC {
            1nat
        } else {
            0nat
        }
    }
}

proof fn one_descriptor_has_all_presets(d: Seq<u8>, blocks: Seq<Block>, n: nat)
    ensures
        desc_count(blocks, n) == 0 ==> infos_of(d, blocks, n) == Seq::<Info>::empty()
            && raw_desc_of(d, blocks, n) is None,
        desc_count(blocks, n) == 1 ==> {
            &&& raw_desc_of(d, blocks, n) matches Some(b) && {
                presets_of(b) matches Ok(infos) ==> infos_of(d, blocks, n) == infos
            }
        },
    decreases n,
{
    if n > 0 {
        one_descriptor_has_all_presets(d, blocks, (n - 1) as nat);
        match presets_of(block_data(d, blocks, n - 1)) {
            Ok(infos) => {
                assert(Seq::<Info>::empty() + infos =~= infos);
            },
            _ => {},
        }
    }
}

proof fn listed_have_preset_names(infos: Seq<Info>, n: nat)
    requires
        n <= infos.len() <= usize::MAX,
    ensures
        forall|i: int|
            0 <= i < computed_of(infos, n).len() ==> ((#[trigger] computed_of(
                infos,
                n,
            )[i]).preset_index matches Some(k) && k < n && computed_of(infos, n)[i].name
                == infos[k as int].name),
        forall|i: int|
            0 <= i < unsupported_of(infos, n).len() ==> {
                &&& (#[trigger] unsupported_of(infos, n)[i]).preset_index < n
                &&& unsupported_of(infos, n)[i].name == infos[unsupported_of(
                    infos,
                    n,
                )[i].preset_index as int].name
            },
    decreases n,
{
    if n > 0 {
        listed_have_preset_names(infos, (n - 1) as nat);
    }
}

proof fn brushes_have_preset_names(samps: Seq<SampView>, infos: Seq<Info>)
    requires
        infos.len() <= usize::MAX,
    ensures
        forall|i: int|
            0 <= i < paired(samps, infos).brushes.len() ==> ((#[trigger] paired(
                samps,
                infos,
            ).brushes[i]).preset_index matches Some(k) ==> k < infos.len() && paired(
                samps,
                infos,
            ).brushes[i].name == infos[k as int].name),
{
    let brushes = paired(samps, infos).brushes;
    resolved_are_resolved(samps, infos, infos.len());
    assert forall|i: int| 0 <= i < brushes.len() implies ((
    #[trigger] brushes[i]).preset_index matches Some(k) ==> k < infos.len() && brushes[i].name
        == infos[k as int].name) by {
        if presets_first(samps, infos) {
            let k = resolved(samps, infos, infos.len())[i];
            assert(brushes[i] == preset_brush(samps, infos, k));
        } else {
            assert(brushes[i] == tip_brush(samps, infos, samps.len() - 1 - i));
        }
    }
}

/// In a file with one `desc` block that is dumped to its end, the preset index of a brush, of
/// a computed preset and of an unsupported one is the number of the entry in the dump that
/// holds its name.
pub proof fn preset_indices_are_dump_numbers(d: Seq<u8>, mode: TipMode, patterns: PatternMode)
    requires
        parsed(d, mode, patterns) is Ok,
        blocks_from(d, 4, patterns, seq![]) is Ok,
        ({
            let blocks = blocks_from(d, 4, patterns, seq![])->Ok_0;
            let pack = parsed(d, mode, patterns)->Ok_0.pack;
            &&& desc_count(blocks, blocks.len()) == 1
            &&& pack.preset_count <= usize::MAX
            &&& pack.raw_desc_block matches Some(b) && walk_of(b).1 is Some
        }),
    ensures
        ({
            let pack = parsed(d, mode, patterns)->Ok_0.pack;
            let dump = dump_of(pack.raw_desc_block->0);
            &&& forall|i: int|
                0 <= i < pack.brushes.len() ==> ((#[trigger] pack.brushes[i]).preset_index matches Some(
                    k,
                ) ==> is_dumped(dump, k as int, pack.brushes[i].name))
            &&& forall|i: int|
                0 <= i < pack.computed_presets.len() ==> ((
                #[trigger] pack.computed_presets[i]).preset_index matches Some(k) && is_dumped(
                    dump,
                    k as int,
                    pack.computed_presets[i].name,
                ))
            &&& forall|i: int|
                0 <= i < pack.unsupported_tips.len() ==> is_dumped(
                    dump,
                    (#[trigger] pack.unsupported_tips[i]).preset_index as int,
                    pack.unsupported_tips[i].name,
                )
        }),
{
    reveal(parsed);
    let (version, subversion) = header_of(d)->Ok_0;
    if !is_stream(version) {
        let blocks = blocks_from(d, 4, patterns, seq![])->Ok_0;
        let n = blocks.len();
        let pack = parsed(d, mode, patterns)->Ok_0.pack;
        let b = pack.raw_desc_block->0;
        let infos = infos_of(d, blocks, n);
        let samps = samps_of(
            d,
            blocks,
            n,
            rect_offset_of(version, subversion),
            mode != TipMode::Eager,
        );
        every_preset_is_dumped(b);
        one_descriptor_has_all_presets(d, blocks, n);
        listed_have_preset_names(infos, infos.len());
        brushes_have_preset_names(samps, infos);
        let dump = dump_of(b);
        assert forall|k: int| 0 <= k < infos.len() implies is_dumped(
            dump,
            k,
            (#[trigger] infos[k]).name,
        ) by {
            assert(presets_of(b)->Ok_0[k] == infos[k]);
        }
        assert forall|i: int| 0 <= i < pack.computed_presets.len() implies ((
        #[trigger] pack.computed_presets[i]).preset_index matches Some(k) && is_dumped(
            dump,
            k as int,
            pack.computed_presets[i].name,
        )) by {
            assert(pack.computed_presets[i] == computed_of(infos, infos.len())[i]);
        }
        assert forall|i: int| 0 <= i < pack.unsupported_tips.len() implies is_dumped(
            dump,
            (#[trigger] pack.unsupported_tips[i]).preset_index as int,
            pack.unsupported_tips[i].name,
        ) by {
            assert(pack.unsupported_tips[i] == unsupported_of(infos, infos.len())[i]);
        }
    }
}

} // verus!
