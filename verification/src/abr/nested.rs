//! Settings of a preset that are objects, texts and switches are read back by their names.
use vstd::prelude::*;
use crate::abr::blocks::kept_after;
use crate::abr::descriptor::{without_nul, MAX_DESCRIPTOR_STRING_LEN, TAG_LONG, TAG_UNTF};
use crate::abr::objects::{
    brvr_after, brvr_fold, brvr_folds_last, brvr_object_is_read, txtr_after, txtr_fold,
    txtr_folds_last, txtr_object_is_read,
};
use crate::abr::order::{all_kept, are_items, is_item, kept_of, with_kept};
use crate::abr::preset::{
    brvr_step, descriptor_of, flag_of, gate, info_of, variance_of, BrVr, BrushDescInfo, FlagKey,
    PresetItem, Txtr, VarianceKey,
};
use crate::abr::settings::{
    differ_by, differ_by_what_is_kept, flag_is_kept, flag_keys, is_said, item_says, lookups_after,
    preset_in, preset_is_said, said, variance_keys,
};
use crate::abr::types::BrushDescriptor;
use crate::abr::written::{
    choice_item, choice_item_is_read, flag_item, integer_item, integer_item_is_read, is_key,
    literals_differ, number_item, number_item_is_read, object_bytes, object_item,
    object_item_has_its_head, percent_item, percent_item_is_read, text_item, text_item_is_read,
};
use crate::support::double::Double;
use crate::support::text::{ascii, utf16_text, utf8_lossy_text};

verus! {

/// The items of a dynamics object that ends with a control and a jitter.
pub open spec fn dynamics_items(
    inner: Seq<Seq<u8>>,
    a: Seq<u8>,
    control: i32,
    b: Seq<u8>,
    unit: Seq<u8>,
    jitter: Double,
) -> Seq<Seq<u8>> {
    inner.push(integer_item(a, control)).push(percent_item(b, unit, jitter))
}

pub(crate) proof fn dynamics_say(
    inner: Seq<Seq<u8>>,
    a: Seq<u8>,
    control: i32,
    b: Seq<u8>,
    unit: Seq<u8>,
    jitter: Double,
    none: BrVr,
)
    requires
        are_items(inner),
        is_key(a, ascii("bVTy")),
        is_key(b, ascii("jitter")),
        unit.len() == 4,
    ensures
        are_items(dynamics_items(inner, a, control, b, unit, jitter)),
        brvr_fold(none, dynamics_items(inner, a, control, b, unit, jitter)) == (BrVr {
            control: Some(control),
            jitter_pct: Some(jitter),
        }),
{
    literals_differ();
    reveal_strlit("bVTy");
    reveal_strlit("jitter");
    let x = integer_item(a, control);
    let y = percent_item(b, unit, jitter);
    integer_item_is_read(a, ascii("bVTy"), control);
    percent_item_is_read(b, ascii("jitter"), unit, jitter);
    crate::abr::blocks::more_items(inner, x);
    crate::abr::blocks::more_items(inner.push(x), y);
    brvr_folds_last(none, inner, x);
    brvr_folds_last(none, inner.push(x), y);
    let s = brvr_fold(none, inner);
    assert(brvr_after(s, x).control == Some(control));
    assert(brvr_after(brvr_after(s, x), y).jitter_pct == Some(jitter));
}

proof fn variances_are_no_other_objects(key: Seq<u8>)
    requires
        variance_of(key) is Some,
    ensures
        key != ascii("Brsh"),
        key != ascii("dualBrush"),
        key != ascii("Txtr"),
{
    reveal(variance_of);
    literals_differ();
    reveal_strlit("Brsh");
    reveal_strlit("dualBrush");
    reveal_strlit("Txtr");
    assert("Brsh"@[0] == 'B' && "Txtr"@[0] == 'T');
    reveal_strlit("szVr");
    reveal_strlit("opVr");
    reveal_strlit("prVr");
    reveal_strlit("wtVr");
    reveal_strlit("mxVr");
    reveal_strlit("angleDynamics");
    reveal_strlit("scatterDynamics");
    reveal_strlit("countDynamics");
    reveal_strlit("roundnessDynamics");
    reveal_strlit("clVr");
    reveal_strlit("textureDepthDynamics");
    assert("szVr"@[0] == 's');
    assert("opVr"@[0] == 'o');
    assert("prVr"@[0] == 'p');
    assert("wtVr"@[0] == 'w');
    assert("mxVr"@[0] == 'm');
    assert("clVr"@[0] == 'c');
}

proof fn dynamics_are_kept(
    k: Seq<u8>,
    key: Seq<u8>,
    name: Seq<u16>,
    class: Seq<u8>,
    id: Seq<u8>,
    inner: Seq<Seq<u8>>,
)
    requires
        is_key(k, key),
        name.len() <= MAX_DESCRIPTOR_STRING_LEN,
        is_key(class, id),
        inner.len() <= u32::MAX,
        are_items(inner),
        variance_of(key) is Some,
    ensures
        kept_of(object_item(k, name, class, inner)) == Some(
            PresetItem::<Seq<char>>::Variance(
                variance_of(key)->0,
                brvr_fold(BrVr { control: None, jitter_pct: None }, inner),
            ),
        ),
{
    let x = object_item(k, name, class, inner);
    object_item_has_its_head(k, key, name, class, inner);
    brvr_object_is_read(x, k.len() + 4, name, class, id, inner);
    variances_are_no_other_objects(key);
    reveal(kept_of);
}

/// The jitter and the control of a dynamics object are read back under its key, where its
/// switch is on, and are the whole difference that it makes.
pub proof fn dynamics_are_read_back(
    d: Seq<u8>,
    i: int,
    e: Seq<u8>,
    j: int,
    items: Seq<Seq<u8>>,
    k: Seq<u8>,
    key: Seq<u8>,
    name: Seq<u16>,
    class: Seq<u8>,
    id: Seq<u8>,
    inner: Seq<Seq<u8>>,
    a: Seq<u8>,
    control: i32,
    b: Seq<u8>,
    unit: Seq<u8>,
    jitter: Double,
    s: Seq<u8>,
    switch: Seq<u8>,
    on: u8,
)
    requires
        is_key(k, key),
        is_key(s, switch),
        name.len() <= MAX_DESCRIPTOR_STRING_LEN,
        is_key(class, id),
        inner.len() + 2 <= u32::MAX,
        are_items(inner),
        is_key(a, ascii("bVTy")),
        is_key(b, ascii("jitter")),
        unit.len() == 4,
        differ_by(d, i, e, j, items, object_item(k, name, class, dynamics_items(inner, a, control, b, unit, jitter)), flag_item(s, on)),
    ensures
        key == ascii("szVr") && switch == ascii("useTipDynamics") ==> said(e, j) == ({
            let was = said(d, i);
            BrushDescInfo {
                descriptor: BrushDescriptor {
                    size_jitter_pct: if on != 0 {
                        Some(jitter)
                    } else {
                        None
                    },
                    pressure_size_control: if on != 0 {
                        Some(control)
                    } else {
                        None
                    },
                    ..was.descriptor
                },
                ..was
            }
        }),
        key == ascii("opVr") && switch == ascii("usePaintDynamics") ==> said(e, j) == ({
            let was = said(d, i);
            BrushDescInfo {
                descriptor: BrushDescriptor {
                    opacity_jitter_pct: if on != 0 {
                        Some(jitter)
                    } else {
                        None
                    },
                    pressure_opacity_control: if on != 0 {
                        Some(control)
                    } else {
                        None
                    },
                    ..was.descriptor
                },
                ..was
            }
        }),
        key == ascii("prVr") && switch == ascii("usePaintDynamics") ==> said(e, j) == ({
            let was = said(d, i);
            BrushDescInfo {
                descriptor: BrushDescriptor {
                    flow_jitter_pct: if on != 0 {
                        Some(jitter)
                    } else {
                        None
                    },
                    ..was.descriptor
                },
                ..was
            }
        }),
        key == ascii("wtVr") && switch == ascii("usePaintDynamics") ==> said(e, j) == ({
            let was = said(d, i);
            BrushDescInfo {
                descriptor: BrushDescriptor {
                    wetness_jitter_pct: if on != 0 {
                        Some(jitter)
                    } else {
                        None
                    },
                    ..was.descriptor
                },
                ..was
            }
        }),
        key == ascii("mxVr") && switch == ascii("usePaintDynamics") ==> said(e, j) == ({
            let was = said(d, i);
            BrushDescInfo {
                descriptor: BrushDescriptor {
                    mix_jitter_pct: if on != 0 {
                        Some(jitter)
                    } else {
                        None
                    },
                    ..was.descriptor
                },
                ..was
            }
        }),
        key == ascii("angleDynamics") && switch == ascii("useTipDynamics") ==> said(e, j) == ({
            let was = said(d, i);
            BrushDescInfo {
                descriptor: BrushDescriptor {
                    angle_jitter_pct: if on != 0 {
                        Some(jitter)
                    } else {
                        None
                    },
                    angle_control: if on != 0 {
                        Some(control)
                    } else {
                        None
                    },
                    ..was.descriptor
                },
                ..was
            }
        }),
        key == ascii("scatterDynamics") && switch == ascii("useScatter") ==> said(e, j) == ({
            let was = said(d, i);
            BrushDescInfo {
                descriptor: BrushDescriptor {
                    scatter_amount_pct: if on != 0 {
                        Some(jitter)
                    } else {
                        None
                    },
                    ..was.descriptor
                },
                ..was
            }
        }),
        key == ascii("countDynamics") && switch == ascii("useScatter") ==> said(e, j) == ({
            let was = said(d, i);
            BrushDescInfo {
                descriptor: BrushDescriptor {
                    count_jitter_pct: if on != 0 {
                        Some(jitter)
                    } else {
                        None
                    },
                    ..was.descriptor
                },
                ..was
            }
        }),
        key == ascii("roundnessDynamics") && switch == ascii("useTipDynamics") ==> said(e, j) == ({
            let was = said(d, i);
            BrushDescInfo {
                descriptor: BrushDescriptor {
                    roundness_jitter_pct: if on != 0 {
                        Some(jitter)
                    } else {
                        None
                    },
                    ..was.descriptor
                },
                ..was
            }
        }),
        key == ascii("clVr") && switch == ascii("useColorDynamics") ==> said(e, j) == ({
            let was = said(d, i);
            BrushDescInfo {
                descriptor: BrushDescriptor {
                    color_fg_bg_jitter_pct: if on != 0 {
                        Some(jitter)
                    } else {
                        None
                    },
                    ..was.descriptor
                },
                ..was
            }
        }),
        key == ascii("textureDepthDynamics") && switch == ascii("useTexture") ==> said(e, j) == ({
            let was = said(d, i);
            BrushDescInfo {
                descriptor: BrushDescriptor {
                    texture_depth_jitter_pct: if on != 0 {
                        Some(jitter)
                    } else {
                        None
                    },
                    ..was.descriptor
                },
                ..was
            }
        }),
{
    let all = dynamics_items(inner, a, control, b, unit, jitter);
    let x = object_item(k, name, class, all);
    dynamics_say(inner, a, control, b, unit, jitter, BrVr { control: None, jitter_pct: None });
    flag_keys();
    variance_keys();
    if variance_of(key) is Some {
        dynamics_are_kept(k, key, name, class, id, all);
    }
    let kept = all_kept(items);
    if key == ascii("szVr") && switch == ascii("useTipDynamics") {
        differ_by_what_is_kept(d, i, e, j, items, x, s, switch, on);
        item_says(kept, kept_of(x)->0, FlagKey::UseTipDynamics, on != 0);
    }
    if key == ascii("opVr") && switch == ascii("usePaintDynamics") {
        differ_by_what_is_kept(d, i, e, j, items, x, s, switch, on);
        item_says(kept, kept_of(x)->0, FlagKey::UsePaintDynamics, on != 0);
    }
    if key == ascii("prVr") && switch == ascii("usePaintDynamics") {
        differ_by_what_is_kept(d, i, e, j, items, x, s, switch, on);
        item_says(kept, kept_of(x)->0, FlagKey::UsePaintDynamics, on != 0);
    }
    if key == ascii("wtVr") && switch == ascii("usePaintDynamics") {
        differ_by_what_is_kept(d, i, e, j, items, x, s, switch, on);
        item_says(kept, kept_of(x)->0, FlagKey::UsePaintDynamics, on != 0);
    }
    if key == ascii("mxVr") && switch == ascii("usePaintDynamics") {
        differ_by_what_is_kept(d, i, e, j, items, x, s, switch, on);
        item_says(kept, kept_of(x)->0, FlagKey::UsePaintDynamics, on != 0);
    }
    if key == ascii("angleDynamics") && switch == ascii("useTipDynamics") {
        differ_by_what_is_kept(d, i, e, j, items, x, s, switch, on);
        item_says(kept, kept_of(x)->0, FlagKey::UseTipDynamics, on != 0);
    }
    if key == ascii("scatterDynamics") && switch == ascii("useScatter") {
        differ_by_what_is_kept(d, i, e, j, items, x, s, switch, on);
        item_says(kept, kept_of(x)->0, FlagKey::UseScatter, on != 0);
    }
    if key == ascii("countDynamics") && switch == ascii("useScatter") {
        differ_by_what_is_kept(d, i, e, j, items, x, s, switch, on);
        item_says(kept, kept_of(x)->0, FlagKey::UseScatter, on != 0);
    }
    if key == ascii("roundnessDynamics") && switch == ascii("useTipDynamics") {
        differ_by_what_is_kept(d, i, e, j, items, x, s, switch, on);
        item_says(kept, kept_of(x)->0, FlagKey::UseTipDynamics, on != 0);
    }
    if key == ascii("clVr") && switch == ascii("useColorDynamics") {
        differ_by_what_is_kept(d, i, e, j, items, x, s, switch, on);
        item_says(kept, kept_of(x)->0, FlagKey::UseColorDynamics, on != 0);
    }
    if key == ascii("textureDepthDynamics") && switch == ascii("useTexture") {
        differ_by_what_is_kept(d, i, e, j, items, x, s, switch, on);
        item_says(kept, kept_of(x)->0, FlagKey::UseTexture, on != 0);
    }
}

/// The scatter count is read back, where scatter is on, and is the whole difference that it
/// makes.
pub proof fn a_count_is_read_back(
    d: Seq<u8>,
    i: int,
    e: Seq<u8>,
    j: int,
    items: Seq<Seq<u8>>,
    k: Seq<u8>,
    key: Seq<u8>,
    v: Double,
    s: Seq<u8>,
    switch: Seq<u8>,
    on: u8,
)
    requires
        is_key(k, key),
        is_key(s, switch),
        differ_by(d, i, e, j, items, number_item(k, v), flag_item(s, on)),
    ensures
        key == ascii("Cnt ") && switch == ascii("useScatter") ==> said(e, j) == ({
            let was = said(d, i);
            BrushDescInfo {
                descriptor: BrushDescriptor {
                    scatter_count: if on != 0 {
                        Some(v)
                    } else {
                        None
                    },
                    ..was.descriptor
                },
                ..was
            }
        }),
{
    let x = number_item(k, v);
    flag_keys();
    literals_differ();
    reveal_strlit("Cnt ");
    if key == ascii("Cnt ") && switch == ascii("useScatter") {
        number_item_is_read(k, key, v);
        reveal(kept_of);
        differ_by_what_is_kept(d, i, e, j, items, x, s, switch, on);
        item_says(all_kept(items), kept_of(x)->0, FlagKey::UseScatter, on != 0);
    }
}

/// The value of the texture's blend mode is read back, where the texture is on, and is the
/// whole difference that it makes.
pub proof fn a_blend_mode_is_read_back(
    d: Seq<u8>,
    i: int,
    e: Seq<u8>,
    j: int,
    items: Seq<Seq<u8>>,
    k: Seq<u8>,
    key: Seq<u8>,
    a: Seq<u8>,
    kind: Seq<u8>,
    b: Seq<u8>,
    value: Seq<u8>,
    s: Seq<u8>,
    switch: Seq<u8>,
    on: u8,
)
    requires
        is_key(k, key),
        is_key(s, switch),
        is_key(a, kind),
        is_key(b, value),
        differ_by(d, i, e, j, items, choice_item(k, a, b), flag_item(s, on)),
    ensures
        key == ascii("textureBlendMode") && switch == ascii("useTexture") ==> said(e, j) == ({
            let was = said(d, i);
            BrushDescInfo {
                descriptor: BrushDescriptor {
                    texture_blend_mode: if on != 0 {
                        Some(utf8_lossy_text(value))
                    } else {
                        None
                    },
                    ..was.descriptor
                },
                ..was
            }
        }),
{
    let x = choice_item(k, a, b);
    flag_keys();
    literals_differ();
    reveal_strlit("Cnt ");
    if key == ascii("textureBlendMode") && switch == ascii("useTexture") {
        choice_item_is_read(k, key, a, kind, b, value);
        reveal(kept_of);
        differ_by_what_is_kept(d, i, e, j, items, x, s, switch, on);
        item_says(all_kept(items), kept_of(x)->0, FlagKey::UseTexture, on != 0);
    }
}

proof fn plain_flag_says(s: Seq<PresetItem<Seq<char>>>, k: FlagKey, v: bool)
    requires
        k == FlagKey::WetEdges || k == FlagKey::Noise || k == FlagKey::BuildUp || k == FlagKey::UseBrushPose || k == FlagKey::BrushProjection,
    ensures
        ({
            let was = info_of(s);
            let now = info_of(s.push(PresetItem::<Seq<char>>::Flag(k, v)));
            let a = now.descriptor;
            let b = was.descriptor;
            &&& now == (BrushDescInfo { descriptor: a, ..was })
            &&& a.spacing_pct == b.spacing_pct
            &&& a.computed == b.computed
            &&& a.diameter_px == b.diameter_px
            &&& a.scatter_amount_pct == b.scatter_amount_pct
            &&& a.size_jitter_pct == b.size_jitter_pct
            &&& a.angle_control == b.angle_control
            &&& a.angle_jitter_pct == b.angle_jitter_pct
            &&& a.pressure_size_control == b.pressure_size_control
            &&& a.pressure_opacity_control == b.pressure_opacity_control
            &&& a.opacity_jitter_pct == b.opacity_jitter_pct
            &&& a.flow_jitter_pct == b.flow_jitter_pct
            &&& a.wetness_jitter_pct == b.wetness_jitter_pct
            &&& a.mix_jitter_pct == b.mix_jitter_pct
            &&& a.shape_angle_deg == b.shape_angle_deg
            &&& a.shape_roundness_pct == b.shape_roundness_pct
            &&& a.scatter_count == b.scatter_count
            &&& a.scatter_both_axes == b.scatter_both_axes
            &&& a.count_jitter_pct == b.count_jitter_pct
            &&& a.minimum_diameter_pct == b.minimum_diameter_pct
            &&& a.roundness_jitter_pct == b.roundness_jitter_pct
            &&& a.minimum_roundness_pct == b.minimum_roundness_pct
            &&& a.flip_x_jitter == b.flip_x_jitter
            &&& a.flip_y_jitter == b.flip_y_jitter
            &&& a.tip_flip_x == b.tip_flip_x
            &&& a.tip_flip_y == b.tip_flip_y
            &&& a.texture_pattern_id == b.texture_pattern_id
            &&& a.texture_pattern_name == b.texture_pattern_name
            &&& a.texture_depth_pct == b.texture_depth_pct
            &&& a.texture_minimum_depth_pct == b.texture_minimum_depth_pct
            &&& a.texture_scale_pct == b.texture_scale_pct
            &&& a.texture_invert == b.texture_invert
            &&& a.texture_each_tip == b.texture_each_tip
            &&& a.texture_blend_mode == b.texture_blend_mode
            &&& a.texture_depth_jitter_pct == b.texture_depth_jitter_pct
            &&& a.texture_brightness == b.texture_brightness
            &&& a.texture_contrast == b.texture_contrast
            &&& a.use_dual_brush == b.use_dual_brush
            &&& a.dual == b.dual
            &&& a.wet_edges == (if k == FlagKey::WetEdges {
                v
            } else {
                b.wet_edges
            })
            &&& a.noise == (if k == FlagKey::Noise {
                v
            } else {
                b.noise
            })
            &&& a.buildup == (if k == FlagKey::BuildUp {
                v
            } else {
                b.buildup
            })
            &&& a.use_color_dynamics == b.use_color_dynamics
            &&& a.color_hue_jitter_pct == b.color_hue_jitter_pct
            &&& a.color_saturation_jitter_pct == b.color_saturation_jitter_pct
            &&& a.color_brightness_jitter_pct == b.color_brightness_jitter_pct
            &&& a.color_purity_pct == b.color_purity_pct
            &&& a.color_fg_bg_jitter_pct == b.color_fg_bg_jitter_pct
            &&& a.color_dynamics_per_tip == b.color_dynamics_per_tip
            &&& a.use_brush_pose == (if k == FlagKey::UseBrushPose {
                v
            } else {
                b.use_brush_pose
            })
            &&& a.brush_projection == (if k == FlagKey::BrushProjection {
                v
            } else {
                b.brush_projection
            })
        }),
{
    lookups_after(s, PresetItem::<Seq<char>>::Flag(k, v));
}

/// A flag that no switch governs is read back under its key, and is the whole difference that
/// it makes.
pub proof fn a_plain_flag_is_read_back(
    d: Seq<u8>,
    i: int,
    e: Seq<u8>,
    j: int,
    items: Seq<Seq<u8>>,
    k: Seq<u8>,
    key: Seq<u8>,
    v: u8,
)
    requires
        is_key(k, key),
        preset_in(d, i, items),
        preset_in(e, j, items.push(flag_item(k, v))),
    ensures
        key == ascii("Wtdg") ==> said(e, j) == ({
            let was = said(d, i);
            BrushDescInfo {
                descriptor: BrushDescriptor {
                    wet_edges: v != 0,
                    ..was.descriptor
                },
                ..was
            }
        }),
        key == ascii("Nose") ==> said(e, j) == ({
            let was = said(d, i);
            BrushDescInfo {
                descriptor: BrushDescriptor {
                    noise: v != 0,
                    ..was.descriptor
                },
                ..was
            }
        }),
        key == ascii("Rpt ") ==> said(e, j) == ({
            let was = said(d, i);
            BrushDescInfo {
                descriptor: BrushDescriptor {
                    buildup: v != 0,
                    ..was.descriptor
                },
                ..was
            }
        }),
        key == ascii("useBrushPose") ==> said(e, j) == ({
            let was = said(d, i);
            BrushDescInfo {
                descriptor: BrushDescriptor {
                    use_brush_pose: v != 0,
                    ..was.descriptor
                },
                ..was
            }
        }),
        key == ascii("brushProjection") ==> said(e, j) == ({
            let was = said(d, i);
            BrushDescInfo {
                descriptor: BrushDescriptor {
                    brush_projection: v != 0,
                    ..was.descriptor
                },
                ..was
            }
        }),
{
    flag_keys();
    flag_is_kept(k, key, v);
    preset_is_said(d, i, items);
    kept_after(items, flag_item(k, v));
    preset_is_said(e, j, items.push(flag_item(k, v)));
    let kept = all_kept(items);
    if key == ascii("Wtdg") {
        plain_flag_says(kept, FlagKey::WetEdges, v != 0);
    }
    if key == ascii("Nose") {
        plain_flag_says(kept, FlagKey::Noise, v != 0);
    }
    if key == ascii("Rpt ") {
        plain_flag_says(kept, FlagKey::BuildUp, v != 0);
    }
    if key == ascii("useBrushPose") {
        plain_flag_says(kept, FlagKey::UseBrushPose, v != 0);
    }
    if key == ascii("brushProjection") {
        plain_flag_says(kept, FlagKey::BrushProjection, v != 0);
    }
}

proof fn switch_says(s: Seq<PresetItem<Seq<char>>>, k: FlagKey, on: bool)
    requires
        crate::abr::settings::is_switch(k),
        on,
    ensures
        ({
            let was = info_of(s.push(PresetItem::<Seq<char>>::Flag(k, on)));
            let now = info_of(s.push(PresetItem::<Seq<char>>::Flag(k, false)));
            let a = now.descriptor;
            let b = was.descriptor;
            &&& now == (BrushDescInfo { descriptor: a, ..was })
            &&& a.spacing_pct == b.spacing_pct
            &&& a.computed == b.computed
            &&& a.diameter_px == b.diameter_px
            &&& a.scatter_amount_pct == (if k == FlagKey::UseScatter {
                None
            } else {
                b.scatter_amount_pct
            })
            &&& a.size_jitter_pct == (if k == FlagKey::UseTipDynamics {
                None
            } else {
                b.size_jitter_pct
            })
            &&& a.angle_control == (if k == FlagKey::UseTipDynamics {
                None
            } else {
                b.angle_control
            })
            &&& a.angle_jitter_pct == (if k == FlagKey::UseTipDynamics {
                None
            } else {
                b.angle_jitter_pct
            })
            &&& a.pressure_size_control == (if k == FlagKey::UseTipDynamics {
                None
            } else {
                b.pressure_size_control
            })
            &&& a.pressure_opacity_control == (if k == FlagKey::UsePaintDynamics {
                None
            } else {
                b.pressure_opacity_control
            })
            &&& a.opacity_jitter_pct == (if k == FlagKey::UsePaintDynamics {
                None
            } else {
                b.opacity_jitter_pct
            })
            &&& a.flow_jitter_pct == (if k == FlagKey::UsePaintDynamics {
                None
            } else {
                b.flow_jitter_pct
            })
            &&& a.wetness_jitter_pct == (if k == FlagKey::UsePaintDynamics {
                None
            } else {
                b.wetness_jitter_pct
            })
            &&& a.mix_jitter_pct == (if k == FlagKey::UsePaintDynamics {
                None
            } else {
                b.mix_jitter_pct
            })
            &&& a.shape_angle_deg == b.shape_angle_deg
            &&& a.shape_roundness_pct == b.shape_roundness_pct
            &&& a.scatter_count == (if k == FlagKey::UseScatter {
                None
            } else {
                b.scatter_count
            })
            &&& a.scatter_both_axes == (if k == FlagKey::UseScatter {
                None
            } else {
                b.scatter_both_axes
            })
            &&& a.count_jitter_pct == (if k == FlagKey::UseScatter {
                None
            } else {
                b.count_jitter_pct
            })
            &&& a.minimum_diameter_pct == (if k == FlagKey::UseTipDynamics {
                None
            } else {
                b.minimum_diameter_pct
            })
            &&& a.roundness_jitter_pct == (if k == FlagKey::UseTipDynamics {
                None
            } else {
                b.roundness_jitter_pct
            })
            &&& a.minimum_roundness_pct == (if k == FlagKey::UseTipDynamics {
                None
            } else {
                b.minimum_roundness_pct
            })
            &&& a.flip_x_jitter == (if k == FlagKey::UseTipDynamics {
                None
            } else {
                b.flip_x_jitter
            })
            &&& a.flip_y_jitter == (if k == FlagKey::UseTipDynamics {
                None
            } else {
                b.flip_y_jitter
            })
            &&& a.tip_flip_x == b.tip_flip_x
            &&& a.tip_flip_y == b.tip_flip_y
            &&& a.texture_pattern_id == (if k == FlagKey::UseTexture {
                None
            } else {
                b.texture_pattern_id
            })
            &&& a.texture_pattern_name == (if k == FlagKey::UseTexture {
                None
            } else {
                b.texture_pattern_name
            })
            &&& a.texture_depth_pct == (if k == FlagKey::UseTexture {
                None
            } else {
                b.texture_depth_pct
            })
            &&& a.texture_minimum_depth_pct == (if k == FlagKey::UseTexture {
                None
            } else {
                b.texture_minimum_depth_pct
            })
            &&& a.texture_scale_pct == (if k == FlagKey::UseTexture {
                None
            } else {
                b.texture_scale_pct
            })
            &&& a.texture_invert == (if k == FlagKey::UseTexture {
                None
            } else {
                b.texture_invert
            })
            &&& a.texture_each_tip == (if k == FlagKey::UseTexture {
                None
            } else {
                b.texture_each_tip
            })
            &&& a.texture_blend_mode == (if k == FlagKey::UseTexture {
                None
            } else {
                b.texture_blend_mode
            })
            &&& a.texture_depth_jitter_pct == (if k == FlagKey::UseTexture {
                None
            } else {
                b.texture_depth_jitter_pct
            })
            &&& a.texture_brightness == (if k == FlagKey::UseTexture {
                None
            } else {
                b.texture_brightness
            })
            &&& a.texture_contrast == (if k == FlagKey::UseTexture {
                None
            } else {
                b.texture_contrast
            })
            &&& a.use_dual_brush == b.use_dual_brush
            &&& a.dual == b.dual
            &&& a.wet_edges == b.wet_edges
            &&& a.noise == b.noise
            &&& a.buildup == b.buildup
            &&& a.use_color_dynamics == (k != FlagKey::UseColorDynamics && b.use_color_dynamics)
            &&& k == FlagKey::UseColorDynamics ==> b.use_color_dynamics
            &&& a.color_hue_jitter_pct == (if k == FlagKey::UseColorDynamics {
                None
            } else {
                b.color_hue_jitter_pct
            })
            &&& a.color_saturation_jitter_pct == (if k == FlagKey::UseColorDynamics {
                None
            } else {
                b.color_saturation_jitter_pct
            })
            &&& a.color_brightness_jitter_pct == (if k == FlagKey::UseColorDynamics {
                None
            } else {
                b.color_brightness_jitter_pct
            })
            &&& a.color_purity_pct == (if k == FlagKey::UseColorDynamics {
                None
            } else {
                b.color_purity_pct
            })
            &&& a.color_fg_bg_jitter_pct == (if k == FlagKey::UseColorDynamics {
                None
            } else {
                b.color_fg_bg_jitter_pct
            })
            &&& a.color_dynamics_per_tip == (if k == FlagKey::UseColorDynamics {
                None
            } else {
                b.color_dynamics_per_tip
            })
            &&& a.use_brush_pose == b.use_brush_pose
            &&& a.brush_projection == b.brush_projection
        }),
{
    lookups_after(s, PresetItem::<Seq<char>>::Flag(k, on));
    lookups_after(s, PresetItem::<Seq<char>>::Flag(k, false));
}

/// A switch that is off hides the settings that it governs, and nothing else.
pub proof fn a_switch_hides_what_it_governs(
    d: Seq<u8>,
    i: int,
    e: Seq<u8>,
    j: int,
    items: Seq<Seq<u8>>,
    k: Seq<u8>,
    key: Seq<u8>,
    on: u8,
)
    requires
        is_key(k, key),
        on != 0,
        preset_in(d, i, items.push(flag_item(k, on))),
        preset_in(e, j, items.push(flag_item(k, 0))),
    ensures
        key == ascii("useColorDynamics") ==> said(d, i).descriptor.use_color_dynamics,
        key == ascii("useTipDynamics") ==> said(e, j) == ({
            let was = said(d, i);
            BrushDescInfo {
                descriptor: BrushDescriptor {
                    size_jitter_pct: None,
                    angle_control: None,
                    angle_jitter_pct: None,
                    pressure_size_control: None,
                    minimum_diameter_pct: None,
                    roundness_jitter_pct: None,
                    minimum_roundness_pct: None,
                    flip_x_jitter: None,
                    flip_y_jitter: None,
                    ..was.descriptor
                },
                ..was
            }
        }),
        key == ascii("useScatter") ==> said(e, j) == ({
            let was = said(d, i);
            BrushDescInfo {
                descriptor: BrushDescriptor {
                    scatter_amount_pct: None,
                    scatter_count: None,
                    scatter_both_axes: None,
                    count_jitter_pct: None,
                    ..was.descriptor
                },
                ..was
            }
        }),
        key == ascii("usePaintDynamics") ==> said(e, j) == ({
            let was = said(d, i);
            BrushDescInfo {
                descriptor: BrushDescriptor {
                    pressure_opacity_control: None,
                    opacity_jitter_pct: None,
                    flow_jitter_pct: None,
                    wetness_jitter_pct: None,
                    mix_jitter_pct: None,
                    ..was.descriptor
                },
                ..was
            }
        }),
        key == ascii("useTexture") ==> said(e, j) == ({
            let was = said(d, i);
            BrushDescInfo {
                descriptor: BrushDescriptor {
                    texture_pattern_id: None,
                    texture_pattern_name: None,
                    texture_depth_pct: None,
                    texture_minimum_depth_pct: None,
                    texture_scale_pct: None,
                    texture_invert: None,
                    texture_each_tip: None,
                    texture_blend_mode: None,
                    texture_depth_jitter_pct: None,
                    texture_brightness: None,
                    texture_contrast: None,
                    ..was.descriptor
                },
                ..was
            }
        }),
        key == ascii("useColorDynamics") ==> said(e, j) == ({
            let was = said(d, i);
            BrushDescInfo {
                descriptor: BrushDescriptor {
                    color_hue_jitter_pct: None,
                    color_saturation_jitter_pct: None,
                    color_brightness_jitter_pct: None,
                    color_purity_pct: None,
                    color_fg_bg_jitter_pct: None,
                    color_dynamics_per_tip: None,
                    use_color_dynamics: false,
                    ..was.descriptor
                },
                ..was
            }
        }),
{
    flag_keys();
    flag_is_kept(k, key, on);
    flag_is_kept(k, key, 0);
    kept_after(items, flag_item(k, on));
    kept_after(items, flag_item(k, 0));
    preset_is_said(d, i, items.push(flag_item(k, on)));
    preset_is_said(e, j, items.push(flag_item(k, 0)));
    let kept = all_kept(items);
    if key == ascii("useTipDynamics") {
        switch_says(kept, FlagKey::UseTipDynamics, true);
    }
    if key == ascii("useScatter") {
        switch_says(kept, FlagKey::UseScatter, true);
    }
    if key == ascii("usePaintDynamics") {
        switch_says(kept, FlagKey::UsePaintDynamics, true);
    }
    if key == ascii("useTexture") {
        switch_says(kept, FlagKey::UseTexture, true);
    }
    if key == ascii("useColorDynamics") {
        switch_says(kept, FlagKey::UseColorDynamics, true);
    }
}

} // verus!
