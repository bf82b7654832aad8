//! The tip of a preset is read back: its geometry, its flips, its shape and its uuid.
use vstd::prelude::*;
use crate::abr::blocks::{kept_after, more_items};
use crate::abr::descriptor::{item_head, skip_value, without_nul, MAX_DESCRIPTOR_STRING_LEN};
use crate::abr::objects::{tip_after, tip_fold, tip_folds_last, tip_object_is_read};
use crate::abr::order::{
    all_kept, are_items, is_item, is_key_of, kept_has_its_key, kept_of, key_of, slot_of, with_kept,
};
use crate::abr::ordinals::tip_step_passes;
use crate::abr::preset::{
    descriptor_of, empty_tip, family_of, geometry_of, info_of, merged_tips, preset_tip, tip_step,
    BrushDescInfo, Flow, GeometryKey, InnerBrush, PresetItem,
};
use crate::abr::settings::{is_said, lookups_after, preset_in, preset_is_said, said};
use crate::abr::types::{BrushDescriptor, ComputedGeometry, ShapeTipFamily, TipShape};
use crate::abr::written::{
    flag_item, flag_item_is_read, integer_item, integer_item_is_read, is_key, literals_differ,
    object_item, object_item_has_its_head, percent_item, percent_item_is_read, text_item,
    text_item_is_read,
};
use crate::support::double::Double;
use crate::support::text::{ascii, utf16_text};

verus! {

/// Is there no tip and no uuid among these items?
pub open spec fn no_tip(items: Seq<Seq<u8>>) -> bool {
    forall|i: int|
        0 <= i < items.len() ==> key_of(#[trigger] items[i]) != ascii("Brsh") && key_of(items[i])
            != ascii("sampledData")
}

proof fn no_tip_is_kept(items: Seq<Seq<u8>>)
    requires
        no_tip(items),
    ensures
        preset_tip(all_kept(items)) == empty_tip(false),
    decreases items.len(),
{
    if items.len() == 0 {
        reveal(preset_tip);
    } else {
        let init = items.drop_last();
        let x = items.last();
        assert(init.push(x) =~= items);
        assert forall|i: int| 0 <= i < init.len() implies key_of(#[trigger] init[i]) != ascii("Brsh")
            && key_of(init[i]) != ascii("sampledData") by {
            assert(init[i] == items[i]);
        }
        no_tip_is_kept(init);
        kept_after(init, x);
        assert(items[items.len() - 1] == x);
        if kept_of(x) is Some {
            kept_has_its_key(x);
            lookups_after(all_kept(init), kept_of(x)->0);
        }
    }
}

/// What the first tip of a preset says.
pub(crate) proof fn tip_says(s: Seq<PresetItem<Seq<char>>>, t: InnerBrush<Seq<char>>)
    requires
        preset_tip(s) == empty_tip(false),
    ensures
        ({
            let was = info_of(s);
            let now = info_of(s.push(PresetItem::<Seq<char>>::Tip(t)));
            let a = now.descriptor;
            let b = was.descriptor;
            &&& now == (BrushDescInfo {
                descriptor: a,
                sampled_data_uuid: t.uuid,
                has_shape_tip: t.has_shape_tip,
                shape_tip_family: t.shape_tip_family,
                tip_shape: t.tip_shape,
                ..was
            })
            &&& a.spacing_pct == t.spacing_pct
            &&& a.computed == t.computed
            &&& a.diameter_px == t.diameter_px
            &&& a.scatter_amount_pct == b.scatter_amount_pct
            &&& a.size_jitter_pct == b.size_jitter_pct
            &&& a.angle_control == b.angle_control
            &&& a.angle_jitter_pct == b.angle_jitter_pct
            &&& a.pressure_size_control == b.pressure_size_control
            &&& a.pressure_opacity_control == b.pressure_opacity_control
            &&& a.opacity_jitter_pct == b.opacity_jitter_pct
            &&& a.flow_jitter_pct == b.flow_jitter_pct
            &&& a.wetness_jitter_pct == b.wetness_jitter_pct
            &&& a.mix_jitter_pct == b.mix_jitter_pct
            &&& a.shape_angle_deg == t.sampled_angle_deg
            &&& a.shape_roundness_pct == t.sampled_roundness_pct
            &&& a.scatter_count == b.scatter_count
            &&& a.scatter_both_axes == b.scatter_both_axes
            &&& a.count_jitter_pct == b.count_jitter_pct
            &&& a.minimum_diameter_pct == b.minimum_diameter_pct
            &&& a.roundness_jitter_pct == b.roundness_jitter_pct
            &&& a.minimum_roundness_pct == b.minimum_roundness_pct
            &&& a.flip_x_jitter == b.flip_x_jitter
            &&& a.flip_y_jitter == b.flip_y_jitter
            &&& a.tip_flip_x == t.sampled_flip_x
            &&& a.tip_flip_y == t.sampled_flip_y
            &&& a.texture_pattern_id == b.texture_pattern_id
            &&& a.texture_pattern_name == b.texture_pattern_name
            &&& a.texture_depth_pct == b.texture_depth_pct
            &&& a.texture_minimum_depth_pct == b.texture_minimum_depth_pct
            &&& a.texture_scale_pct == b.texture_scale_pct
            &&& a.texture_invert == b.texture_invert
            &&& a.texture_each_tip == b.texture_each_tip
            &&& a.texture_blend_mode == b.texture_blend_mode
            &&& a.texture_depth_jitter_pct == b.texture_depth_jitter_pct
            &&& a.texture_brightness == b.texture_brightness
            &&& a.texture_contrast == b.texture_contrast
            &&& a.use_dual_brush == b.use_dual_brush
            &&& a.dual == b.dual
            &&& a.wet_edges == b.wet_edges
            &&& a.noise == b.noise
            &&& a.buildup == b.buildup
            &&& a.use_color_dynamics == b.use_color_dynamics
            &&& a.color_hue_jitter_pct == b.color_hue_jitter_pct
            &&& a.color_saturation_jitter_pct == b.color_saturation_jitter_pct
            &&& a.color_brightness_jitter_pct == b.color_brightness_jitter_pct
            &&& a.color_purity_pct == b.color_purity_pct
            &&& a.color_fg_bg_jitter_pct == b.color_fg_bg_jitter_pct
            &&& a.color_dynamics_per_tip == b.color_dynamics_per_tip
            &&& a.use_brush_pose == b.use_brush_pose
            &&& a.brush_projection == b.brush_projection
        }),
{
    let x = PresetItem::<Seq<char>>::Tip(t);
    lookups_after(s, x);
    assert(preset_tip(s.push(x)) == t) by {
        reveal(preset_tip);
        assert(s.push(x).drop_last() =~= s);
        assert(merged_tips(empty_tip(false), t) == t);
    }
}

proof fn tip_is_kept(
    k: Seq<u8>,
    name: Seq<u16>,
    class: Seq<u8>,
    id: Seq<u8>,
    inner: Seq<Seq<u8>>,
)
    requires
        is_key(k, ascii("Brsh")),
        name.len() <= MAX_DESCRIPTOR_STRING_LEN,
        is_key(class, id),
        inner.len() <= u32::MAX,
        are_items(inner),
    ensures
        kept_of(object_item(k, name, class, inner)) == Some(
            PresetItem::<Seq<char>>::Tip(
                tip_fold(family_of(id), empty_tip(id == ascii("computedBrush")), inner),
            ),
        ),
{
    let x = object_item(k, name, class, inner);
    object_item_has_its_head(k, ascii("Brsh"), name, class, inner);
    tip_object_is_read(x, k.len() + 4, name, class, id, inner);
    reveal(kept_of);
}

proof fn tip_stays_computed(
    family: Option<ShapeTipFamily>,
    t: InnerBrush<Seq<char>>,
    items: Seq<Seq<u8>>,
)
    requires
        are_items(items),
    ensures
        (tip_fold(family, t, items).computed is Some) == (t.computed is Some),
    decreases items.len(),
{
    if items.len() > 0 {
        let x = items[0];
        let rest = items.drop_first();
        assert(is_item(x));
        assert forall|i: int| 0 <= i < rest.len() implies is_item(#[trigger] rest[i]) by {
            assert(rest[i] == items[i + 1]);
        }
        assert((tip_after(family, t, x).computed is Some) == (t.computed is Some)) by {
            reveal(is_item);
            let (head, q) = item_head(x, 0);
            tip_step_passes(x, q, family, head->Ok_0.0, head->Ok_0.1, t);
            reveal(tip_step);
        }
        tip_stays_computed(family, tip_after(family, t, x), rest);
    }
}

/// A tip object as it is written: its key, class name, class id and items.
pub struct TipObject {
    pub k: Seq<u8>,
    pub name: Seq<u16>,
    pub class: Seq<u8>,
    pub id: Seq<u8>,
    pub inner: Seq<Seq<u8>>,
}

impl TipObject {
    pub open spec fn ok(self) -> bool {
        &&& is_key(self.k, ascii("Brsh"))
        &&& self.name.len() <= MAX_DESCRIPTOR_STRING_LEN
        &&& is_key(self.class, self.id)
        &&& self.inner.len() < u32::MAX
        &&& are_items(self.inner)
    }

    pub open spec fn bytes(self) -> Seq<u8> {
        object_item(self.k, self.name, self.class, self.inner)
    }

    /// The object with an item more.
    pub open spec fn with(self, y: Seq<u8>) -> TipObject {
        TipObject { inner: self.inner.push(y), ..self }
    }

    /// Is the tip computed rather than sampled?
    pub open spec fn computed(self) -> bool {
        self.id == ascii("computedBrush")
    }
}

/// What a tip object says.
pub open spec fn tip_of(t: TipObject) -> InnerBrush<Seq<char>> {
    tip_fold(family_of(t.id), empty_tip(t.computed()), t.inner)
}

/// Is preset `i` of `d` a preset whose only tip is `t`, and preset `j` of `e` the same with one
/// item more in its tip?
pub open spec fn tips_differ_by(
    d: Seq<u8>,
    i: int,
    e: Seq<u8>,
    j: int,
    items: Seq<Seq<u8>>,
    t: TipObject,
    y: Seq<u8>,
) -> bool {
    &&& t.ok()
    &&& no_tip(items)
    &&& preset_in(d, i, items.push(t.bytes()))
    &&& preset_in(e, j, items.push(t.with(y).bytes()))
}

/// A preset with one tip says what its tip says.
pub(crate) proof fn one_tip_is_said(d: Seq<u8>, i: int, items: Seq<Seq<u8>>, t: TipObject)
    requires
        is_key(t.k, ascii("Brsh")),
        t.name.len() <= MAX_DESCRIPTOR_STRING_LEN,
        is_key(t.class, t.id),
        t.inner.len() <= u32::MAX,
        are_items(t.inner),
        no_tip(items),
        preset_in(d, i, items.push(t.bytes())),
    ensures
        is_said(d, i),
        said(d, i) == info_of(all_kept(items).push(PresetItem::<Seq<char>>::Tip(tip_of(t)))),
        preset_tip(all_kept(items)) == empty_tip(false),
        (tip_of(t).computed is Some) == t.computed(),
{
    tip_is_kept(t.k, t.name, t.class, t.id, t.inner);
    kept_after(items, t.bytes());
    preset_is_said(d, i, items.push(t.bytes()));
    no_tip_is_kept(items);
    tip_stays_computed(family_of(t.id), empty_tip(t.computed()), t.inner);
}

proof fn tips_are_said(
    d: Seq<u8>,
    i: int,
    e: Seq<u8>,
    j: int,
    items: Seq<Seq<u8>>,
    t: TipObject,
    y: Seq<u8>,
)
    requires
        tips_differ_by(d, i, e, j, items, t, y),
        is_item(y),
    ensures
        ({
            let s = all_kept(items);
            let after = tip_after(family_of(t.id), tip_of(t), y);
            &&& is_said(d, i)
            &&& is_said(e, j)
            &&& said(d, i) == info_of(s.push(PresetItem::<Seq<char>>::Tip(tip_of(t))))
            &&& said(e, j) == info_of(s.push(PresetItem::<Seq<char>>::Tip(after)))
            &&& preset_tip(s) == empty_tip(false)
            &&& (tip_of(t).computed is Some) == t.computed()
        }),
{
    more_items(t.inner, y);
    one_tip_is_said(d, i, items, t);
    one_tip_is_said(e, j, items, t.with(y));
    tip_folds_last(family_of(t.id), empty_tip(t.computed()), t.inner, y);
}

proof fn tip_keys_differ()
    ensures
        ascii("Spcn") != ascii("Dmtr"),
        ascii("Spcn") != ascii("Hrdn"),
        ascii("Spcn") != ascii("Angl"),
        ascii("Spcn") != ascii("Rndn"),
        ascii("Spcn") != ascii("sampledData"),
        ascii("Spcn") != ascii("flipX"),
        ascii("Spcn") != ascii("flipY"),
        ascii("Spcn") != ascii("Shp "),
        ascii("Dmtr") != ascii("Hrdn"),
        ascii("Dmtr") != ascii("Angl"),
        ascii("Dmtr") != ascii("Rndn"),
        ascii("Dmtr") != ascii("sampledData"),
        ascii("Dmtr") != ascii("flipX"),
        ascii("Dmtr") != ascii("flipY"),
        ascii("Dmtr") != ascii("Shp "),
        ascii("Hrdn") != ascii("Angl"),
        ascii("Hrdn") != ascii("Rndn"),
        ascii("Hrdn") != ascii("sampledData"),
        ascii("Hrdn") != ascii("flipX"),
        ascii("Hrdn") != ascii("flipY"),
        ascii("Hrdn") != ascii("Shp "),
        ascii("Angl") != ascii("Rndn"),
        ascii("Angl") != ascii("sampledData"),
        ascii("Angl") != ascii("flipX"),
        ascii("Angl") != ascii("flipY"),
        ascii("Angl") != ascii("Shp "),
        ascii("Rndn") != ascii("sampledData"),
        ascii("Rndn") != ascii("flipX"),
        ascii("Rndn") != ascii("flipY"),
        ascii("Rndn") != ascii("Shp "),
        ascii("sampledData") != ascii("flipX"),
        ascii("sampledData") != ascii("flipY"),
        ascii("sampledData") != ascii("Shp "),
        ascii("flipX") != ascii("flipY"),
        ascii("flipX") != ascii("Shp "),
        ascii("flipY") != ascii("Shp "),
{
    literals_differ();
    reveal_strlit("Spcn");
    reveal_strlit("Dmtr");
    reveal_strlit("Hrdn");
    reveal_strlit("Angl");
    reveal_strlit("Rndn");
    reveal_strlit("sampledData");
    reveal_strlit("flipX");
    reveal_strlit("flipY");
    reveal_strlit("Shp ");
    assert("Spcn"@[0] == 'S' && "Spcn"@[1] == 'p');
    assert("Dmtr"@[0] == 'D' && "Dmtr"@[1] == 'm');
    assert("Hrdn"@[0] == 'H' && "Hrdn"@[1] == 'r');
    assert("Angl"@[0] == 'A' && "Angl"@[1] == 'n');
    assert("Rndn"@[0] == 'R' && "Rndn"@[1] == 'n');
    assert("flipX"@[4] == 'X');
    assert("flipY"@[4] == 'Y');
    assert("Shp "@[0] == 'S' && "Shp "@[1] == 'h');
}

proof fn tip_after_number(
    family: Option<ShapeTipFamily>,
    t: InnerBrush<Seq<char>>,
    k: Seq<u8>,
    key: Seq<u8>,
    unit: Seq<u8>,
    v: Double,
)
    requires
        is_key(k, key),
        unit.len() == 4,
    ensures
        ({
            let after = tip_after(family, t, percent_item(k, unit, v));
            &&& key == ascii("Spcn") ==> after == (InnerBrush { spacing_pct: Some(v), ..t })
            &&& key == ascii("Dmtr") ==> after == (InnerBrush {
                diameter_px: Some(v),
                computed: match t.computed {
                    Some(g) => Some(ComputedGeometry { diameter_px: Some(v), ..g }),
                    None => None,
                },
                ..t
            })
            &&& key == ascii("Hrdn") ==> after == (InnerBrush {
                computed: match t.computed {
                    Some(g) => Some(ComputedGeometry { hardness_pct: Some(v), ..g }),
                    None => None,
                },
                ..t
            })
            &&& key == ascii("Angl") ==> after == (match t.computed {
                Some(g) => InnerBrush {
                    computed: Some(ComputedGeometry { angle_deg: Some(v), ..g }),
                    ..t
                },
                None => InnerBrush { sampled_angle_deg: Some(v), ..t },
            })
            &&& key == ascii("Rndn") ==> after == (match t.computed {
                Some(g) => InnerBrush {
                    computed: Some(ComputedGeometry { roundness_pct: Some(v), ..g }),
                    ..t
                },
                None => InnerBrush { sampled_roundness_pct: Some(v), ..t },
            })
        }),
{
    tip_keys_differ();
    percent_item_is_read(k, key, unit, v);
    reveal(tip_step);
}

/// A number of a tip is read back under its key, and is the whole difference that it makes. A
/// computed tip keeps its geometry together, and a sampled one has no hardness.
pub proof fn a_tip_number_is_read_back(
    d: Seq<u8>,
    i: int,
    e: Seq<u8>,
    j: int,
    items: Seq<Seq<u8>>,
    t: TipObject,
    k: Seq<u8>,
    key: Seq<u8>,
    unit: Seq<u8>,
    v: Double,
)
    requires
        is_key(k, key),
        unit.len() == 4,
        tips_differ_by(d, i, e, j, items, t, percent_item(k, unit, v)),
    ensures
        key == ascii("Spcn") ==> said(e, j) == ({
            let was = said(d, i);
            BrushDescInfo {
                descriptor: BrushDescriptor {
                    spacing_pct: Some(v),
                    ..was.descriptor
                },
                ..was
            }
        }),
        key == ascii("Dmtr") && t.computed() ==> said(e, j) == ({
            let was = said(d, i);
            BrushDescInfo {
                descriptor: BrushDescriptor {
                    diameter_px: Some(v),
                    computed: Some(ComputedGeometry { diameter_px: Some(v), ..was.descriptor.computed->0 }),
                    ..was.descriptor
                },
                ..was
            }
        }),
        key == ascii("Dmtr") && !t.computed() ==> said(e, j) == ({
            let was = said(d, i);
            BrushDescInfo {
                descriptor: BrushDescriptor {
                    diameter_px: Some(v),
                    ..was.descriptor
                },
                ..was
            }
        }),
        key == ascii("Hrdn") && t.computed() ==> said(e, j) == ({
            let was = said(d, i);
            BrushDescInfo {
                descriptor: BrushDescriptor {
                    computed: Some(ComputedGeometry { hardness_pct: Some(v), ..was.descriptor.computed->0 }),
                    ..was.descriptor
                },
                ..was
            }
        }),
        key == ascii("Hrdn") && !t.computed() ==> said(e, j) == said(d, i),
        key == ascii("Angl") && t.computed() ==> said(e, j) == ({
            let was = said(d, i);
            BrushDescInfo {
                descriptor: BrushDescriptor {
                    computed: Some(ComputedGeometry { angle_deg: Some(v), ..was.descriptor.computed->0 }),
                    ..was.descriptor
                },
                ..was
            }
        }),
        key == ascii("Angl") && !t.computed() ==> said(e, j) == ({
            let was = said(d, i);
            BrushDescInfo {
                descriptor: BrushDescriptor {
                    shape_angle_deg: Some(v),
                    ..was.descriptor
                },
                ..was
            }
        }),
        key == ascii("Rndn") && t.computed() ==> said(e, j) == ({
            let was = said(d, i);
            BrushDescInfo {
                descriptor: BrushDescriptor {
                    computed: Some(ComputedGeometry { roundness_pct: Some(v), ..was.descriptor.computed->0 }),
                    ..was.descriptor
                },
                ..was
            }
        }),
        key == ascii("Rndn") && !t.computed() ==> said(e, j) == ({
            let was = said(d, i);
            BrushDescInfo {
                descriptor: BrushDescriptor {
                    shape_roundness_pct: Some(v),
                    ..was.descriptor
                },
                ..was
            }
        }),
{
    tip_keys_differ();
    let y = percent_item(k, unit, v);
    percent_item_is_read(k, key, unit, v);
    tip_after_number(family_of(t.id), tip_of(t), k, key, unit, v);
    tips_are_said(d, i, e, j, items, t, y);
    let s = all_kept(items);
    let after = tip_after(family_of(t.id), tip_of(t), y);
    tip_says(s, tip_of(t));
    tip_says(s, after);
}

/// A flip of a sampled tip is read back under its key, and is the whole difference that it
/// makes. A computed tip has none.
pub proof fn a_tip_flip_is_read_back(
    d: Seq<u8>,
    i: int,
    e: Seq<u8>,
    j: int,
    items: Seq<Seq<u8>>,
    t: TipObject,
    k: Seq<u8>,
    key: Seq<u8>,
    v: u8,
)
    requires
        is_key(k, key),
        tips_differ_by(d, i, e, j, items, t, flag_item(k, v)),
    ensures
        key == ascii("flipX") && !t.computed() ==> said(e, j) == ({
            let was = said(d, i);
            BrushDescInfo {
                descriptor: BrushDescriptor {
                    tip_flip_x: Some(v != 0),
                    ..was.descriptor
                },
                ..was
            }
        }),
        key == ascii("flipY") && !t.computed() ==> said(e, j) == ({
            let was = said(d, i);
            BrushDescInfo {
                descriptor: BrushDescriptor {
                    tip_flip_y: Some(v != 0),
                    ..was.descriptor
                },
                ..was
            }
        }),
        (key == ascii("flipX") || key == ascii("flipY")) && t.computed() ==> said(e, j) == said(d, i),
{
    tip_keys_differ();
    let y = flag_item(k, v);
    flag_item_is_read(k, key, v);
    tips_are_said(d, i, e, j, items, t, y);
    let s = all_kept(items);
    let after = tip_after(family_of(t.id), tip_of(t), y);
    tip_says(s, tip_of(t));
    tip_says(s, after);
    reveal(tip_step);
}

/// The uuid of a tip is read back, and is the whole difference that it makes.
pub proof fn a_tip_uuid_is_read_back(
    d: Seq<u8>,
    i: int,
    e: Seq<u8>,
    j: int,
    items: Seq<Seq<u8>>,
    t: TipObject,
    k: Seq<u8>,
    key: Seq<u8>,
    units: Seq<u16>,
)
    requires
        is_key(k, key),
        units.len() <= MAX_DESCRIPTOR_STRING_LEN,
        tips_differ_by(d, i, e, j, items, t, text_item(k, units)),
    ensures
        key == ascii("sampledData") ==> said(e, j) == ({
            let was = said(d, i);
            BrushDescInfo {
                sampled_data_uuid: Some(utf16_text(without_nul(units))),
                ..was
            }
        }),
{
    tip_keys_differ();
    let y = text_item(k, units);
    text_item_is_read(k, key, units);
    tips_are_said(d, i, e, j, items, t, y);
    let s = all_kept(items);
    let after = tip_after(family_of(t.id), tip_of(t), y);
    tip_says(s, tip_of(t));
    tip_says(s, after);
    reveal(tip_step);
}

proof fn family_names_differ()
    ensures
        ascii("dBrush") != ascii("dTips"),
{
    literals_differ();
    reveal_strlit("dBrush");
    reveal_strlit("dTips");
}

/// The shape of a tip is read back in the family that its class names, and is the whole
/// difference that it makes.
pub proof fn a_tip_shape_is_read_back(
    d: Seq<u8>,
    i: int,
    e: Seq<u8>,
    j: int,
    items: Seq<Seq<u8>>,
    t: TipObject,
    k: Seq<u8>,
    key: Seq<u8>,
    index: i32,
)
    requires
        is_key(k, key),
        tips_differ_by(d, i, e, j, items, t, integer_item(k, index)),
    ensures
        key == ascii("Shp ") && t.id == ascii("dBrush") && index == 0 ==> said(e, j) == ({
            let was = said(d, i);
            BrushDescInfo {
                has_shape_tip: true,
                shape_tip_family: Some(ShapeTipFamily::Bristle),
                tip_shape: Some(TipShape::RoundPoint),
                ..was
            }
        }),
        key == ascii("Shp ") && t.id == ascii("dBrush") && index == 1 ==> said(e, j) == ({
            let was = said(d, i);
            BrushDescInfo {
                has_shape_tip: true,
                shape_tip_family: Some(ShapeTipFamily::Bristle),
                tip_shape: Some(TipShape::RoundBlunt),
                ..was
            }
        }),
        key == ascii("Shp ") && t.id == ascii("dBrush") && index == 2 ==> said(e, j) == ({
            let was = said(d, i);
            BrushDescInfo {
                has_shape_tip: true,
                shape_tip_family: Some(ShapeTipFamily::Bristle),
                tip_shape: Some(TipShape::RoundCurve),
                ..was
            }
        }),
        key == ascii("Shp ") && t.id == ascii("dBrush") && index == 3 ==> said(e, j) == ({
            let was = said(d, i);
            BrushDescInfo {
                has_shape_tip: true,
                shape_tip_family: Some(ShapeTipFamily::Bristle),
                tip_shape: Some(TipShape::RoundAngle),
                ..was
            }
        }),
        key == ascii("Shp ") && t.id == ascii("dBrush") && index == 4 ==> said(e, j) == ({
            let was = said(d, i);
            BrushDescInfo {
                has_shape_tip: true,
                shape_tip_family: Some(ShapeTipFamily::Bristle),
                tip_shape: Some(TipShape::RoundFan),
                ..was
            }
        }),
        key == ascii("Shp ") && t.id == ascii("dBrush") && index == 5 ==> said(e, j) == ({
            let was = said(d, i);
            BrushDescInfo {
                has_shape_tip: true,
                shape_tip_family: Some(ShapeTipFamily::Bristle),
                tip_shape: Some(TipShape::FlatPoint),
                ..was
            }
        }),
        key == ascii("Shp ") && t.id == ascii("dBrush") && index == 6 ==> said(e, j) == ({
            let was = said(d, i);
            BrushDescInfo {
                has_shape_tip: true,
                shape_tip_family: Some(ShapeTipFamily::Bristle),
                tip_shape: Some(TipShape::FlatBlunt),
                ..was
            }
        }),
        key == ascii("Shp ") && t.id == ascii("dBrush") && index == 7 ==> said(e, j) == ({
            let was = said(d, i);
            BrushDescInfo {
                has_shape_tip: true,
                shape_tip_family: Some(ShapeTipFamily::Bristle),
                tip_shape: Some(TipShape::FlatCurve),
                ..was
            }
        }),
        key == ascii("Shp ") && t.id == ascii("dBrush") && index == 8 ==> said(e, j) == ({
            let was = said(d, i);
            BrushDescInfo {
                has_shape_tip: true,
                shape_tip_family: Some(ShapeTipFamily::Bristle),
                tip_shape: Some(TipShape::FlatAngle),
                ..was
            }
        }),
        key == ascii("Shp ") && t.id == ascii("dBrush") && index == 9 ==> said(e, j) == ({
            let was = said(d, i);
            BrushDescInfo {
                has_shape_tip: true,
                shape_tip_family: Some(ShapeTipFamily::Bristle),
                tip_shape: Some(TipShape::FlatFan),
                ..was
            }
        }),
        key == ascii("Shp ") && t.id == ascii("dBrush") && !(0 <= index < 10) ==> said(e, j) == ({
            let was = said(d, i);
            BrushDescInfo {
                has_shape_tip: true,
                shape_tip_family: Some(ShapeTipFamily::Bristle),
                tip_shape: None,
                ..was
            }
        }),
        key == ascii("Shp ") && t.id == ascii("dTips") && index == 0 ==> said(e, j) == ({
            let was = said(d, i);
            BrushDescInfo {
                has_shape_tip: true,
                shape_tip_family: Some(ShapeTipFamily::Erodible),
                tip_shape: Some(TipShape::ErodiblePoint),
                ..was
            }
        }),
        key == ascii("Shp ") && t.id == ascii("dTips") && index == 1 ==> said(e, j) == ({
            let was = said(d, i);
            BrushDescInfo {
                has_shape_tip: true,
                shape_tip_family: Some(ShapeTipFamily::Erodible),
                tip_shape: Some(TipShape::ErodibleFlat),
                ..was
            }
        }),
        key == ascii("Shp ") && t.id == ascii("dTips") && index == 2 ==> said(e, j) == ({
            let was = said(d, i);
            BrushDescInfo {
                has_shape_tip: true,
                shape_tip_family: Some(ShapeTipFamily::Erodible),
                tip_shape: Some(TipShape::ErodibleRound),
                ..was
            }
        }),
        key == ascii("Shp ") && t.id == ascii("dTips") && index == 3 ==> said(e, j) == ({
            let was = said(d, i);
            BrushDescInfo {
                has_shape_tip: true,
                shape_tip_family: Some(ShapeTipFamily::Erodible),
                tip_shape: Some(TipShape::ErodibleSquare),
                ..was
            }
        }),
        key == ascii("Shp ") && t.id == ascii("dTips") && index == 4 ==> said(e, j) == ({
            let was = said(d, i);
            BrushDescInfo {
                has_shape_tip: true,
                shape_tip_family: Some(ShapeTipFamily::Erodible),
                tip_shape: Some(TipShape::ErodibleTriangle),
                ..was
            }
        }),
        key == ascii("Shp ") && t.id == ascii("dTips") && index == 5 ==> said(e, j) == ({
            let was = said(d, i);
            BrushDescInfo {
                has_shape_tip: true,
                shape_tip_family: Some(ShapeTipFamily::Erodible),
                tip_shape: Some(TipShape::AirbrushTip),
                ..was
            }
        }),
        key == ascii("Shp ") && t.id == ascii("dTips") && !(0 <= index < 6) ==> said(e, j) == ({
            let was = said(d, i);
            BrushDescInfo {
                has_shape_tip: true,
                shape_tip_family: Some(ShapeTipFamily::Erodible),
                tip_shape: None,
                ..was
            }
        }),
        key == ascii("Shp ") && t.id != ascii("dBrush") && t.id != ascii("dTips") ==> said(e, j) == ({
            let was = said(d, i);
            BrushDescInfo {
                has_shape_tip: true,
                shape_tip_family: None,
                tip_shape: None,
                ..was
            }
        }),
{
    tip_keys_differ();
    let y = integer_item(k, index);
    integer_item_is_read(k, key, index);
    family_names_differ();
    tips_are_said(d, i, e, j, items, t, y);
    let s = all_kept(items);
    let after = tip_after(family_of(t.id), tip_of(t), y);
    tip_says(s, tip_of(t));
    tip_says(s, after);
    reveal(tip_step);
}

} // verus!
