//! The dual brush of a preset, its texture, its name and its uuid are read back.
use vstd::prelude::*;
use crate::abr::blocks::{kept_after, more_items};
use crate::abr::descriptor::{item_head, without_nul, MAX_DESCRIPTOR_STRING_LEN};
use crate::abr::inner::{no_tip, one_tip_is_said, tip_of, TipObject};
use crate::abr::nested::{dynamics_items, dynamics_say};
use crate::abr::objects::{
    brvr_object_is_read, dual_after, dual_fold, dual_folds_last, dual_object_is_read,
    tip_object_is_read, txtr_after, txtr_fold, txtr_folds_last, txtr_object_is_read,
};
use crate::abr::order::{all_kept, are_items, is_item, kept_of, with_kept};
use crate::abr::preset::{
    descriptor_of, dual_step, gate, info_of, preset_tip, settled_dual, with_tip, BrVr,
    BrushDescInfo, DualState, FlagKey, InnerBrush, PresetItem, Txtr,
};
use crate::abr::settings::{
    differ_by, differ_by_what_is_kept, flag_keys, is_said, item_says, lookups_after, preset_in,
    preset_is_said, said,
};
use crate::abr::types::{BrushDescriptor, DualBrush};
use crate::abr::written::{
    choice_item, choice_item_is_read, flag_item, flag_item_is_read, is_key, literals_differ,
    number_item, number_item_is_read, object_item, object_item_has_its_head, percent_item,
    percent_item_is_read, text_item, text_item_is_read,
};
use crate::support::double::Double;
use crate::support::text::{ascii, utf16_text, utf8_lossy_text};

verus! {

/// What the last dual brush of a preset says.
proof fn dual_says(s: Seq<PresetItem<Seq<char>>>, on: bool, v: DualBrush<Seq<char>>)
    ensures
        ({
            let was = info_of(s);
            let now = info_of(s.push(PresetItem::<Seq<char>>::Dual(on, v)));
            let a = now.descriptor;
            let b = was.descriptor;
            &&& now == (BrushDescInfo { descriptor: a, dual_brush_uuid: v.uuid, ..was })
            &&& a.spacing_pct == b.spacing_pct
            &&& a.computed == b.computed
            &&& a.diameter_px == b.diameter_px
            &&& a.scatter_amount_pct == b.scatter_amount_pct
            &&& a.size_jitter_pct == b.size_jitter_pct
            &&& a.angle_control == b.angle_control
            &&& a.angle_jitter_pct == b.angle_jitter_pct
            &&& a.pressure_size_control == b.pressure_size_control
            &&& a.pressure_opacity_control == b.pressure_opacity_control
            &&& a.opacity_jitter_pct == b.opacity_jitter_pct
            &&& a.flow_jitter_pct == b.flow_jitter_pct
            &&& a.wetness_jitter_pct == b.wetness_jitter_pct
            &&& a.mix_jitter_pct == b.mix_jitter_pct
            &&& a.shape_angle_deg == b.shape_angle_deg
            &&& a.shape_roundness_pct == b.shape_roundness_pct
            &&& a.scatter_count == b.scatter_count
            &&& a.scatter_both_axes == b.scatter_both_axes
            &&& a.count_jitter_pct == b.count_jitter_pct
            &&& a.minimum_diameter_pct == b.minimum_diameter_pct
            &&& a.roundness_jitter_pct == b.roundness_jitter_pct
            &&& a.minimum_roundness_pct == b.minimum_roundness_pct
            &&& a.flip_x_jitter == b.flip_x_jitter
            &&& a.flip_y_jitter == b.flip_y_jitter
            &&& a.tip_flip_x == b.tip_flip_x
            &&& a.tip_flip_y == b.tip_flip_y
            &&& a.texture_pattern_id == b.texture_pattern_id
            &&& a.texture_pattern_name == b.texture_pattern_name
            &&& a.texture_depth_pct == b.texture_depth_pct
            &&& a.texture_minimum_depth_pct == b.texture_minimum_depth_pct
            &&& a.texture_scale_pct == b.texture_scale_pct
            &&& a.texture_invert == b.texture_invert
            &&& a.texture_each_tip == b.texture_each_tip
            &&& a.texture_blend_mode == b.texture_blend_mode
            &&& a.texture_depth_jitter_pct == b.texture_depth_jitter_pct
            &&& a.texture_brightness == b.texture_brightness
            &&& a.texture_contrast == b.texture_contrast
            &&& a.use_dual_brush == on
            &&& a.dual == gate(on, Some(v))
            &&& a.wet_edges == b.wet_edges
            &&& a.noise == b.noise
            &&& a.buildup == b.buildup
            &&& a.use_color_dynamics == b.use_color_dynamics
            &&& a.color_hue_jitter_pct == b.color_hue_jitter_pct
            &&& a.color_saturation_jitter_pct == b.color_saturation_jitter_pct
            &&& a.color_brightness_jitter_pct == b.color_brightness_jitter_pct
            &&& a.color_purity_pct == b.color_purity_pct
            &&& a.color_fg_bg_jitter_pct == b.color_fg_bg_jitter_pct
            &&& a.color_dynamics_per_tip == b.color_dynamics_per_tip
            &&& a.use_brush_pose == b.use_brush_pose
            &&& a.brush_projection == b.brush_projection
        }),
{
    lookups_after(s, PresetItem::<Seq<char>>::Dual(on, v));
}

/// A dual brush object as it is written: its key, class name, class id and items. Its last two
/// items are the switch of its scatter and its own switch.
pub struct DualObject {
    pub k: Seq<u8>,
    pub name: Seq<u16>,
    pub class: Seq<u8>,
    pub id: Seq<u8>,
    pub inner: Seq<Seq<u8>>,
    pub scatter_key: Seq<u8>,
    pub scatter: u8,
    pub switch_key: Seq<u8>,
    pub switch: u8,
}

impl DualObject {
    pub open spec fn ok(self) -> bool {
        &&& is_key(self.k, ascii("dualBrush"))
        &&& self.name.len() <= MAX_DESCRIPTOR_STRING_LEN
        &&& is_key(self.class, self.id)
        &&& self.inner.len() + 2 <= u32::MAX
        &&& are_items(self.inner)
        &&& is_key(self.scatter_key, ascii("useScatter"))
        &&& is_key(self.switch_key, ascii("useDualBrush"))
    }

    pub open spec fn items(self) -> Seq<Seq<u8>> {
        self.inner.push(flag_item(self.scatter_key, self.scatter)).push(
            flag_item(self.switch_key, self.switch),
        )
    }

    pub open spec fn bytes(self) -> Seq<u8> {
        object_item(self.k, self.name, self.class, self.items())
    }

    /// The object with an item more.
    pub open spec fn with(self, y: Seq<u8>) -> DualObject {
        DualObject { inner: self.inner.push(y), ..self }
    }
}

proof fn dual_keys_differ()
    ensures
        ascii("useDualBrush") != ascii("Brsh"),
        ascii("useDualBrush") != ascii("useScatter"),
        ascii("useDualBrush") != ascii("scatterDynamics"),
        ascii("useDualBrush") != ascii("countDynamics"),
        ascii("useDualBrush") != ascii("Cnt "),
        ascii("useDualBrush") != ascii("bothAxes"),
        ascii("useDualBrush") != ascii("Spcn"),
        ascii("useDualBrush") != ascii("BlnM"),
        ascii("useDualBrush") != ascii("Flip"),
        ascii("useDualBrush") != ascii("dualBrush"),
        ascii("Brsh") != ascii("useScatter"),
        ascii("Brsh") != ascii("scatterDynamics"),
        ascii("Brsh") != ascii("countDynamics"),
        ascii("Brsh") != ascii("Cnt "),
        ascii("Brsh") != ascii("bothAxes"),
        ascii("Brsh") != ascii("Spcn"),
        ascii("Brsh") != ascii("BlnM"),
        ascii("Brsh") != ascii("Flip"),
        ascii("Brsh") != ascii("dualBrush"),
        ascii("useScatter") != ascii("scatterDynamics"),
        ascii("useScatter") != ascii("countDynamics"),
        ascii("useScatter") != ascii("Cnt "),
        ascii("useScatter") != ascii("bothAxes"),
        ascii("useScatter") != ascii("Spcn"),
        ascii("useScatter") != ascii("BlnM"),
        ascii("useScatter") != ascii("Flip"),
        ascii("useScatter") != ascii("dualBrush"),
        ascii("scatterDynamics") != ascii("countDynamics"),
        ascii("scatterDynamics") != ascii("Cnt "),
        ascii("scatterDynamics") != ascii("bothAxes"),
        ascii("scatterDynamics") != ascii("Spcn"),
        ascii("scatterDynamics") != ascii("BlnM"),
        ascii("scatterDynamics") != ascii("Flip"),
        ascii("scatterDynamics") != ascii("dualBrush"),
        ascii("countDynamics") != ascii("Cnt "),
        ascii("countDynamics") != ascii("bothAxes"),
        ascii("countDynamics") != ascii("Spcn"),
        ascii("countDynamics") != ascii("BlnM"),
        ascii("countDynamics") != ascii("Flip"),
        ascii("countDynamics") != ascii("dualBrush"),
        ascii("Cnt ") != ascii("bothAxes"),
        ascii("Cnt ") != ascii("Spcn"),
        ascii("Cnt ") != ascii("BlnM"),
        ascii("Cnt ") != ascii("Flip"),
        ascii("Cnt ") != ascii("dualBrush"),
        ascii("bothAxes") != ascii("Spcn"),
        ascii("bothAxes") != ascii("BlnM"),
        ascii("bothAxes") != ascii("Flip"),
        ascii("bothAxes") != ascii("dualBrush"),
        ascii("Spcn") != ascii("BlnM"),
        ascii("Spcn") != ascii("Flip"),
        ascii("Spcn") != ascii("dualBrush"),
        ascii("BlnM") != ascii("Flip"),
        ascii("BlnM") != ascii("dualBrush"),
        ascii("Flip") != ascii("dualBrush"),
{
    literals_differ();
    reveal_strlit("useDualBrush");
    reveal_strlit("Brsh");
    reveal_strlit("useScatter");
    reveal_strlit("scatterDynamics");
    reveal_strlit("countDynamics");
    reveal_strlit("Cnt ");
    reveal_strlit("bothAxes");
    reveal_strlit("Spcn");
    reveal_strlit("BlnM");
    reveal_strlit("Flip");
    reveal_strlit("dualBrush");
    assert("Brsh"@[0] == 'B' && "Brsh"@[1] == 'r');
    assert("Cnt "@[0] == 'C' && "Cnt "@[1] == 'n');
    assert("Spcn"@[0] == 'S' && "Spcn"@[1] == 'p');
    assert("BlnM"@[0] == 'B' && "BlnM"@[1] == 'l');
    assert("Flip"@[0] == 'F' && "Flip"@[1] == 'l');
}

/// What the items of a dual brush say before its switches.
pub open spec fn said_before(t: DualObject) -> DualState {
    dual_fold((false, DualBrush::empty()), t.inner)
}

/// A dual brush as its switches let it stand.
pub open spec fn switched(s: DualState, scatter: bool, on: bool) -> DualBrush<Seq<char>> {
    settled_dual((on, DualBrush { use_scatter: scatter, ..s.1 })).1
}

proof fn switches_say(t: DualObject)
    requires
        t.ok(),
    ensures
        are_items(t.items()),
        settled_dual(dual_fold((false, DualBrush::empty()), t.items())) == (
            t.switch != 0,
            switched(said_before(t), t.scatter != 0, t.switch != 0),
        ),
{
    dual_keys_differ();
    let none: DualState = (false, DualBrush::empty());
    let a = flag_item(t.scatter_key, t.scatter);
    let b = flag_item(t.switch_key, t.switch);
    flag_item_is_read(t.scatter_key, ascii("useScatter"), t.scatter);
    flag_item_is_read(t.switch_key, ascii("useDualBrush"), t.switch);
    more_items(t.inner, a);
    more_items(t.inner.push(a), b);
    dual_folds_last(none, t.inner, a);
    dual_folds_last(none, t.inner.push(a), b);
    let s = said_before(t);
    assert(dual_after(s, a) == (s.0, DualBrush { use_scatter: t.scatter != 0, ..s.1 })) by {
        reveal(dual_step);
    }
    let s = dual_after(s, a);
    assert(dual_after(s, b) == (t.switch != 0, s.1)) by {
        reveal(dual_step);
    }
}

proof fn a_dual_is_said(d: Seq<u8>, i: int, items: Seq<Seq<u8>>, t: DualObject)
    requires
        t.ok(),
        preset_in(d, i, items.push(t.bytes())),
    ensures
        is_said(d, i),
        said(d, i) == info_of(
            all_kept(items).push(
                PresetItem::<Seq<char>>::Dual(
                    t.switch != 0,
                    switched(said_before(t), t.scatter != 0, t.switch != 0),
                ),
            ),
        ),
{
    dual_keys_differ();
    switches_say(t);
    let x = t.bytes();
    object_item_has_its_head(t.k, ascii("dualBrush"), t.name, t.class, t.items());
    dual_object_is_read(x, t.k.len() + 4, t.name, t.class, t.id, t.items());
    assert(kept_of(x) == Some(
        PresetItem::<Seq<char>>::Dual(
            t.switch != 0,
            switched(said_before(t), t.scatter != 0, t.switch != 0),
        ),
    )) by {
        reveal(kept_of);
    }
    kept_after(items, x);
    preset_is_said(d, i, items.push(x));
}

/// Is preset `i` of `d` a preset that ends with this dual brush, and preset `j` of `e` the same
/// with one item more in the dual brush?
pub open spec fn duals_differ_by(
    d: Seq<u8>,
    i: int,
    e: Seq<u8>,
    j: int,
    items: Seq<Seq<u8>>,
    t: DualObject,
    y: Seq<u8>,
) -> bool {
    &&& t.ok()
    &&& t.inner.len() + 3 <= u32::MAX
    &&& preset_in(d, i, items.push(t.bytes()))
    &&& preset_in(e, j, items.push(t.with(y).bytes()))
}

/// A dual brush is there exactly where its switch is on.
pub proof fn a_dual_brush_is_there_if_it_is_on(
    d: Seq<u8>,
    i: int,
    items: Seq<Seq<u8>>,
    t: DualObject,
)
    requires
        t.ok(),
        preset_in(d, i, items.push(t.bytes())),
    ensures
        is_said(d, i),
        said(d, i).descriptor.use_dual_brush == (t.switch != 0),
        said(d, i).descriptor.dual is Some == (t.switch != 0),
        t.switch != 0 ==> said(d, i).descriptor.dual->0.use_scatter == (t.scatter != 0),
        t.switch != 0 ==> said(d, i).dual_brush_uuid == said(d, i).descriptor.dual->0.uuid,
        t.switch == 0 ==> said(d, i).dual_brush_uuid is None,
        t.switch != 0 && t.scatter == 0 ==> {
            let dual = said(d, i).descriptor.dual->0;
            &&& dual.scatter_count is None
            &&& dual.scatter_both_axes is None
            &&& dual.scatter_amount_pct is None
            &&& dual.count_jitter_pct is None
        },
{
    a_dual_is_said(d, i, items, t);
    dual_says(
        all_kept(items),
        t.switch != 0,
        switched(said_before(t), t.scatter != 0, t.switch != 0),
    );
}

/// `now` is `was` with this dual brush.
pub open spec fn with_dual(was: BrushDescInfo<Seq<char>>, dual: DualBrush<Seq<char>>) -> BrushDescInfo<
    Seq<char>,
> {
    BrushDescInfo {
        descriptor: BrushDescriptor { dual: Some(dual), ..was.descriptor },
        dual_brush_uuid: dual.uuid,
        ..was
    }
}

proof fn duals_are_said(
    d: Seq<u8>,
    i: int,
    e: Seq<u8>,
    j: int,
    items: Seq<Seq<u8>>,
    t: DualObject,
    y: Seq<u8>,
)
    requires
        duals_differ_by(d, i, e, j, items, t, y),
        is_item(y),
    ensures
        t.switch != 0 ==> said(d, i).descriptor.dual == Some(
            switched(said_before(t), t.scatter != 0, true),
        ),
        t.switch != 0 ==> said(e, j) == with_dual(
            said(d, i),
            switched(dual_after(said_before(t), y), t.scatter != 0, true),
        ),
        t.switch == 0 ==> said(e, j) == said(d, i),
{
    more_items(t.inner, y);
    a_dual_is_said(d, i, items, t);
    a_dual_is_said(e, j, items, t.with(y));
    dual_folds_last((false, DualBrush::empty()), t.inner, y);
    let s = all_kept(items);
    let on = t.switch != 0;
    let a = switched(said_before(t), t.scatter != 0, on);
    let b = switched(dual_after(said_before(t), y), t.scatter != 0, on);
    two_duals_say(s, on, a, b);
}

/// What two dual brushes say of one preset.
proof fn two_duals_say(
    s: Seq<PresetItem<Seq<char>>>,
    on: bool,
    a: DualBrush<Seq<char>>,
    b: DualBrush<Seq<char>>,
)
    requires
        !on ==> a.uuid is None && b.uuid is None,
    ensures
        ({
            let was = info_of(s.push(PresetItem::<Seq<char>>::Dual(on, a)));
            let now = info_of(s.push(PresetItem::<Seq<char>>::Dual(on, b)));
            &&& on ==> was.descriptor.dual == Some(a)
            &&& on ==> now == with_dual(was, b)
            &&& !on ==> now == was
        }),
{
    dual_says(s, on, a);
    dual_says(s, on, b);
    let was = info_of(s.push(PresetItem::<Seq<char>>::Dual(on, a))).descriptor;
    let now = info_of(s.push(PresetItem::<Seq<char>>::Dual(on, b))).descriptor;
    assert(now == (BrushDescriptor { dual: now.dual, ..was }));
}

/// The spacing of a dual brush is read back, and is the whole difference that it makes.
pub proof fn a_dual_spacing_is_read_back(
    d: Seq<u8>,
    i: int,
    e: Seq<u8>,
    j: int,
    items: Seq<Seq<u8>>,
    t: DualObject,
    k: Seq<u8>,
    key: Seq<u8>,
    unit: Seq<u8>,
    v: Double,
)
    requires
        is_key(k, key),
        unit.len() == 4,
        duals_differ_by(d, i, e, j, items, t, percent_item(k, unit, v)),
    ensures
        key == ascii("Spcn") && t.switch != 0 ==> said(e, j) == with_dual(
            said(d, i),
            DualBrush { scatter_spacing_pct: Some(v), ..said(d, i).descriptor.dual->0 },
        ),
        t.switch == 0 ==> said(e, j) == said(d, i),
{
    dual_keys_differ();
    let y = percent_item(k, unit, v);
    percent_item_is_read(k, key, unit, v);
    duals_are_said(d, i, e, j, items, t, y);
    reveal(dual_step);
}

/// The count of a dual brush is read back, where its scatter is on, and is the whole
/// difference that it makes.
pub proof fn a_dual_count_is_read_back(
    d: Seq<u8>,
    i: int,
    e: Seq<u8>,
    j: int,
    items: Seq<Seq<u8>>,
    t: DualObject,
    k: Seq<u8>,
    key: Seq<u8>,
    v: Double,
)
    requires
        is_key(k, key),
        duals_differ_by(d, i, e, j, items, t, number_item(k, v)),
    ensures
        key == ascii("Cnt ") && t.switch != 0 ==> said(e, j) == with_dual(
            said(d, i),
            DualBrush { scatter_count: if t.scatter != 0 {
                    Some(v)
                } else {
                    None
                }, ..said(d, i).descriptor.dual->0 },
        ),
        t.switch == 0 ==> said(e, j) == said(d, i),
{
    dual_keys_differ();
    let y = number_item(k, v);
    number_item_is_read(k, key, v);
    duals_are_said(d, i, e, j, items, t, y);
    reveal(dual_step);
}

/// A flag of a dual brush is read back under its key, and is the whole difference that it
/// makes.
pub proof fn a_dual_flag_is_read_back(
    d: Seq<u8>,
    i: int,
    e: Seq<u8>,
    j: int,
    items: Seq<Seq<u8>>,
    t: DualObject,
    k: Seq<u8>,
    key: Seq<u8>,
    v: u8,
)
    requires
        is_key(k, key),
        duals_differ_by(d, i, e, j, items, t, flag_item(k, v)),
    ensures
        key == ascii("bothAxes") && t.switch != 0 ==> said(e, j) == with_dual(
            said(d, i),
            DualBrush { scatter_both_axes: if t.scatter != 0 {
                    Some(v != 0)
                } else {
                    None
                }, ..said(d, i).descriptor.dual->0 },
        ),
        key == ascii("Flip") && t.switch != 0 ==> said(e, j) == with_dual(
            said(d, i),
            DualBrush { flip: Some(v != 0), ..said(d, i).descriptor.dual->0 },
        ),
        t.switch == 0 ==> said(e, j) == said(d, i),
{
    dual_keys_differ();
    let y = flag_item(k, v);
    flag_item_is_read(k, key, v);
    duals_are_said(d, i, e, j, items, t, y);
    reveal(dual_step);
}

/// The blend mode of a dual brush is read back, and is the whole difference that it makes.
pub proof fn a_dual_blend_mode_is_read_back(
    d: Seq<u8>,
    i: int,
    e: Seq<u8>,
    j: int,
    items: Seq<Seq<u8>>,
    t: DualObject,
    k: Seq<u8>,
    key: Seq<u8>,
    a: Seq<u8>,
    kind: Seq<u8>,
    b: Seq<u8>,
    value: Seq<u8>,
)
    requires
        is_key(k, key),
        is_key(a, kind),
        is_key(b, value),
        duals_differ_by(d, i, e, j, items, t, choice_item(k, a, b)),
    ensures
        key == ascii("BlnM") && t.switch != 0 ==> said(e, j) == with_dual(
            said(d, i),
            DualBrush { blend_mode: Some(utf8_lossy_text(value)), ..said(d, i).descriptor.dual->0 },
        ),
        t.switch == 0 ==> said(e, j) == said(d, i),
{
    dual_keys_differ();
    let y = choice_item(k, a, b);
    choice_item_is_read(k, key, a, kind, b, value);
    duals_are_said(d, i, e, j, items, t, y);
    reveal(dual_step);
}

/// The jitter of a dynamics object of a dual brush is read back under its key, where its scatter
/// is on, and is the whole difference that it makes.
pub proof fn dual_dynamics_are_read_back(
    d: Seq<u8>,
    i: int,
    e: Seq<u8>,
    j: int,
    items: Seq<Seq<u8>>,
    t: DualObject,
    k: Seq<u8>,
    key: Seq<u8>,
    name: Seq<u16>,
    class: Seq<u8>,
    id: Seq<u8>,
    inner: Seq<Seq<u8>>,
    a: Seq<u8>,
    control: i32,
    b: Seq<u8>,
    unit: Seq<u8>,
    jitter: Double,
)
    requires
        is_key(k, key),
        name.len() <= MAX_DESCRIPTOR_STRING_LEN,
        is_key(class, id),
        inner.len() + 2 <= u32::MAX,
        are_items(inner),
        is_key(a, ascii("bVTy")),
        is_key(b, ascii("jitter")),
        unit.len() == 4,
        is_item(object_item(k, name, class, dynamics_items(inner, a, control, b, unit, jitter))),
        duals_differ_by(d, i, e, j, items, t, object_item(k, name, class, dynamics_items(inner, a, control, b, unit, jitter))),
    ensures
        key == ascii("scatterDynamics") && t.switch != 0 ==> said(e, j) == with_dual(
            said(d, i),
            DualBrush { scatter_amount_pct: if t.scatter != 0 {
                    Some(jitter)
                } else {
                    None
                }, ..said(d, i).descriptor.dual->0 },
        ),
        key == ascii("countDynamics") && t.switch != 0 ==> said(e, j) == with_dual(
            said(d, i),
            DualBrush { count_jitter_pct: if t.scatter != 0 {
                    Some(jitter)
                } else {
                    None
                }, ..said(d, i).descriptor.dual->0 },
        ),
        t.switch == 0 ==> said(e, j) == said(d, i),
{
    dual_keys_differ();
    let y = object_item(k, name, class, dynamics_items(inner, a, control, b, unit, jitter));
    let all = dynamics_items(inner, a, control, b, unit, jitter);
    dynamics_say(inner, a, control, b, unit, jitter, BrVr { control: None, jitter_pct: None });
    object_item_has_its_head(k, key, name, class, all);
    brvr_object_is_read(y, k.len() + 4, name, class, id, all);
    duals_are_said(d, i, e, j, items, t, y);
    reveal(dual_step);
}

/// The tip of a dual brush says there what it says as the tip of a preset.
pub proof fn a_dual_tip_is_read_as_a_tip(
    d: Seq<u8>,
    i: int,
    e: Seq<u8>,
    j: int,
    items: Seq<Seq<u8>>,
    t: DualObject,
    tip: TipObject,
    f: Seq<u8>,
    l: int,
    others: Seq<Seq<u8>>,
)
    requires
        tip.ok(),
        is_item(tip.bytes()),
        duals_differ_by(d, i, e, j, items, t, tip.bytes()),
        no_tip(others),
        preset_in(f, l, others.push(tip.bytes())),
    ensures
        t.switch != 0 ==> said(e, j) == with_dual(
            said(d, i),
            DualBrush {
                uuid: said(f, l).sampled_data_uuid,
                spacing_pct: said(f, l).descriptor.spacing_pct,
                computed: said(f, l).descriptor.computed,
                diameter_px: said(f, l).descriptor.diameter_px,
                shape_angle_deg: said(f, l).descriptor.shape_angle_deg,
                shape_roundness_pct: said(f, l).descriptor.shape_roundness_pct,
                tip_flip_x: said(f, l).descriptor.tip_flip_x,
                tip_flip_y: said(f, l).descriptor.tip_flip_y,
                ..said(d, i).descriptor.dual->0
            },
        ),
{
    dual_keys_differ();
    let y = tip.bytes();
    one_tip_is_said(f, l, others, tip);
    crate::abr::inner::tip_says(all_kept(others), tip_of(tip));
    object_item_has_its_head(tip.k, ascii("Brsh"), tip.name, tip.class, tip.inner);
    tip_object_is_read(y, tip.k.len() + 4, tip.name, tip.class, tip.id, tip.inner);
    duals_are_said(d, i, e, j, items, t, y);
    let s = said_before(t);
    assert(dual_after(s, y) == (s.0, with_tip(s.1, tip_of(tip)))) by {
        reveal(dual_step);
    }
}

proof fn texture_keys_differ()
    ensures
        ascii("Nm  ") != ascii("Idnt"),
        ascii("Txtr") != ascii("Brsh"),
        ascii("Txtr") != ascii("dualBrush"),
        ascii("Nm  ") != ascii("sampledData"),
{
    literals_differ();
    reveal_strlit("Nm  ");
    reveal_strlit("Idnt");
    reveal_strlit("Txtr");
    reveal_strlit("Brsh");
    reveal_strlit("dualBrush");
    reveal_strlit("sampledData");
    assert("Nm  "@[0] == 'N' && "Idnt"@[0] == 'I' && "Txtr"@[0] == 'T' && "Brsh"@[0] == 'B');
}

/// The name and the id of a texture's pattern are read back, where the texture is on, and are
/// the whole difference that they make.
pub proof fn a_texture_is_read_back(
    d: Seq<u8>,
    i: int,
    e: Seq<u8>,
    j: int,
    items: Seq<Seq<u8>>,
    k: Seq<u8>,
    name: Seq<u16>,
    class: Seq<u8>,
    id: Seq<u8>,
    inner: Seq<Seq<u8>>,
    a: Seq<u8>,
    pattern_name: Seq<u16>,
    b: Seq<u8>,
    pattern_id: Seq<u16>,
    s: Seq<u8>,
    on: u8,
)
    requires
        is_key(k, ascii("Txtr")),
        is_key(s, ascii("useTexture")),
        name.len() <= MAX_DESCRIPTOR_STRING_LEN,
        is_key(class, id),
        inner.len() + 2 <= u32::MAX,
        are_items(inner),
        is_key(a, ascii("Nm  ")),
        is_key(b, ascii("Idnt")),
        pattern_name.len() <= MAX_DESCRIPTOR_STRING_LEN,
        pattern_id.len() <= MAX_DESCRIPTOR_STRING_LEN,
        differ_by(
            d,
            i,
            e,
            j,
            items,
            object_item(
                k,
                name,
                class,
                inner.push(text_item(a, pattern_name)).push(text_item(b, pattern_id)),
            ),
            flag_item(s, on),
        ),
    ensures
        said(e, j) == ({
            let was = said(d, i);
            BrushDescInfo {
                descriptor: BrushDescriptor {
                    texture_pattern_id: if on != 0 {
                        Some(utf16_text(without_nul(pattern_id)))
                    } else {
                        None
                    },
                    texture_pattern_name: if on != 0 {
                        Some(utf16_text(without_nul(pattern_name)))
                    } else {
                        None
                    },
                    ..was.descriptor
                },
                ..was
            }
        }),
{
    texture_keys_differ();
    flag_keys();
    let p = text_item(a, pattern_name);
    let q = text_item(b, pattern_id);
    let all = inner.push(p).push(q);
    let x = object_item(k, name, class, all);
    text_item_is_read(a, ascii("Nm  "), pattern_name);
    text_item_is_read(b, ascii("Idnt"), pattern_id);
    more_items(inner, p);
    more_items(inner.push(p), q);
    let none = Txtr::<Seq<char>> { name: None, id: None };
    txtr_folds_last(none, inner, p);
    txtr_folds_last(none, inner.push(p), q);
    object_item_has_its_head(k, ascii("Txtr"), name, class, all);
    txtr_object_is_read(x, k.len() + 4, name, class, id, all);
    let said_texture = Txtr {
        name: Some(utf16_text(without_nul(pattern_name))),
        id: Some(utf16_text(without_nul(pattern_id))),
    };
    assert(txtr_fold(none, all) == said_texture);
    assert(kept_of(x) == Some(PresetItem::<Seq<char>>::Texture(said_texture))) by {
        reveal(kept_of);
    }
    differ_by_what_is_kept(d, i, e, j, items, x, s, ascii("useTexture"), on);
    item_says(all_kept(items), kept_of(x)->0, FlagKey::UseTexture, on != 0);
}

/// What a text of a preset itself says.
proof fn text_says(s: Seq<PresetItem<Seq<char>>>, x: PresetItem<Seq<char>>)
    requires
        x is Name || x is SampledData,
    ensures
        ({
            let was = info_of(s);
            let now = info_of(s.push(x));
            let a = now.descriptor;
            let b = was.descriptor;
            &&& x is Name ==> now == (BrushDescInfo { descriptor: a, name: x->Name_0, ..was })
            &&& x is SampledData ==> now == (BrushDescInfo {
                descriptor: a,
                sampled_data_uuid: Some(x->SampledData_0),
                ..was
            })
            &&& a.spacing_pct == b.spacing_pct
            &&& a.computed == b.computed
            &&& a.diameter_px == b.diameter_px
            &&& a.scatter_amount_pct == b.scatter_amount_pct
            &&& a.size_jitter_pct == b.size_jitter_pct
            &&& a.angle_control == b.angle_control
            &&& a.angle_jitter_pct == b.angle_jitter_pct
            &&& a.pressure_size_control == b.pressure_size_control
            &&& a.pressure_opacity_control == b.pressure_opacity_control
            &&& a.opacity_jitter_pct == b.opacity_jitter_pct
            &&& a.flow_jitter_pct == b.flow_jitter_pct
            &&& a.wetness_jitter_pct == b.wetness_jitter_pct
            &&& a.mix_jitter_pct == b.mix_jitter_pct
            &&& a.shape_angle_deg == b.shape_angle_deg
            &&& a.shape_roundness_pct == b.shape_roundness_pct
            &&& a.scatter_count == b.scatter_count
            &&& a.scatter_both_axes == b.scatter_both_axes
            &&& a.count_jitter_pct == b.count_jitter_pct
            &&& a.minimum_diameter_pct == b.minimum_diameter_pct
            &&& a.roundness_jitter_pct == b.roundness_jitter_pct
            &&& a.minimum_roundness_pct == b.minimum_roundness_pct
            &&& a.flip_x_jitter == b.flip_x_jitter
            &&& a.flip_y_jitter == b.flip_y_jitter
            &&& a.tip_flip_x == b.tip_flip_x
            &&& a.tip_flip_y == b.tip_flip_y
            &&& a.texture_pattern_id == b.texture_pattern_id
            &&& a.texture_pattern_name == b.texture_pattern_name
            &&& a.texture_depth_pct == b.texture_depth_pct
            &&& a.texture_minimum_depth_pct == b.texture_minimum_depth_pct
            &&& a.texture_scale_pct == b.texture_scale_pct
            &&& a.texture_invert == b.texture_invert
            &&& a.texture_each_tip == b.texture_each_tip
            &&& a.texture_blend_mode == b.texture_blend_mode
            &&& a.texture_depth_jitter_pct == b.texture_depth_jitter_pct
            &&& a.texture_brightness == b.texture_brightness
            &&& a.texture_contrast == b.texture_contrast
            &&& a.use_dual_brush == b.use_dual_brush
            &&& a.dual == b.dual
            &&& a.wet_edges == b.wet_edges
            &&& a.noise == b.noise
            &&& a.buildup == b.buildup
            &&& a.use_color_dynamics == b.use_color_dynamics
            &&& a.color_hue_jitter_pct == b.color_hue_jitter_pct
            &&& a.color_saturation_jitter_pct == b.color_saturation_jitter_pct
            &&& a.color_brightness_jitter_pct == b.color_brightness_jitter_pct
            &&& a.color_purity_pct == b.color_purity_pct
            &&& a.color_fg_bg_jitter_pct == b.color_fg_bg_jitter_pct
            &&& a.color_dynamics_per_tip == b.color_dynamics_per_tip
            &&& a.use_brush_pose == b.use_brush_pose
            &&& a.brush_projection == b.brush_projection
        }),
{
    lookups_after(s, x);
    if x is SampledData {
        assert(preset_tip(s.push(x)) == (InnerBrush {
            uuid: Some(x->SampledData_0),
            ..preset_tip(s)
        })) by {
            reveal(preset_tip);
            assert(s.push(x).drop_last() =~= s);
        }
    }
}

/// The name of a preset and the uuid of its tip are read back, and are the whole difference that
/// they make.
pub proof fn a_name_is_read_back(
    d: Seq<u8>,
    i: int,
    e: Seq<u8>,
    j: int,
    items: Seq<Seq<u8>>,
    k: Seq<u8>,
    key: Seq<u8>,
    units: Seq<u16>,
)
    requires
        is_key(k, key),
        units.len() <= MAX_DESCRIPTOR_STRING_LEN,
        preset_in(d, i, items),
        preset_in(e, j, items.push(text_item(k, units))),
    ensures
        key == ascii("Nm  ") ==> said(e, j) == (BrushDescInfo {
            name: utf16_text(without_nul(units)),
            ..said(d, i)
        }),
        key == ascii("sampledData") ==> said(e, j) == (BrushDescInfo {
            sampled_data_uuid: Some(utf16_text(without_nul(units))),
            ..said(d, i)
        }),
        key != ascii("Nm  ") && key != ascii("sampledData") ==> said(e, j) == said(d, i),
{
    texture_keys_differ();
    let x = text_item(k, units);
    text_item_is_read(k, key, units);
    preset_is_said(d, i, items);
    kept_after(items, x);
    preset_is_said(e, j, items.push(x));
    let v = utf16_text(without_nul(units));
    if key == ascii("Nm  ") {
        assert(kept_of(x) == Some(PresetItem::<Seq<char>>::Name(v))) by {
            reveal(kept_of);
        }
        text_says(all_kept(items), PresetItem::Name(v));
    } else if key == ascii("sampledData") {
        assert(kept_of(x) == Some(PresetItem::<Seq<char>>::SampledData(v))) by {
            reveal(kept_of);
        }
        text_says(all_kept(items), PresetItem::SampledData(v));
    } else {
        assert(kept_of(x) is None) by {
            reveal(kept_of);
        }
    }
}

} // verus!
