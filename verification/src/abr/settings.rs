//! Each setting of a preset is read back by its name, and changes nothing else.
//!
//! The laws compare two blocks: one whose preset has some items, and one whose preset has an
//! item more. A setting that a switch governs is looked at with the switch behind it.
use vstd::prelude::*;
use crate::abr::blocks::{block_is_read, infos_of_items, kept_after, more_items};
use crate::abr::order::{all_kept, are_items, is_item, kept_of, with_kept};
use crate::abr::preset::{
    control, descriptor_of, flag_of, gate, info_of, integer, integer_of, is_on, jitter, last_blend_mode,
    last_count, last_dual, last_flag, last_integer, last_name, last_percent, last_texture,
    last_variance, percent_of, preset_item, preset_tip, presets_of, variance_of, BrVr,
    BrushDescInfo, FlagKey, IntegerKey, PercentKey, PresetItem, Txtr, VarianceKey,
};
use crate::abr::types::BrushDescriptor;
use crate::abr::written::{
    are_all_items, choice_item, choice_item_is_read, flag_item, flag_item_is_read, integer_item,
    integer_item_is_read, is_block, is_key, literals_differ, number_item, number_item_is_read,
    percent_item, percent_item_is_read, text_item, text_item_is_read,
};
use crate::support::double::Double;
use crate::support::text::{ascii, utf8_lossy_text};

verus! {

/// Is `d` a `desc` block whose preset `i` has these items?
pub open spec fn preset_in(d: Seq<u8>, i: int, items: Seq<Seq<u8>>) -> bool {
    exists|presets: Seq<Seq<Seq<u8>>>|
        {
            &&& #[trigger] is_block(d, presets)
            &&& are_all_items(presets)
            &&& 0 <= i < presets.len()
            &&& presets[i] == items
        }
}

/// What is read of preset `i` of a block.
pub open spec fn said(d: Seq<u8>, i: int) -> BrushDescInfo<Seq<char>> {
    presets_of(d)->Ok_0[i]
}

/// Is preset `i` of a block read?
pub open spec fn is_said(d: Seq<u8>, i: int) -> bool {
    presets_of(d) matches Ok(infos) && 0 <= i < infos.len()
}

pub(crate) proof fn preset_is_said(d: Seq<u8>, i: int, items: Seq<Seq<u8>>)
    requires
        preset_in(d, i, items),
    ensures
        is_said(d, i),
        said(d, i) == info_of(all_kept(items)),
{
    let presets = choose|presets: Seq<Seq<Seq<u8>>>|
        {
            &&& #[trigger] is_block(d, presets)
            &&& are_all_items(presets)
            &&& 0 <= i < presets.len()
            &&& presets[i] == items
        };
    block_is_read(d, presets);
    assert(infos_of_items(presets)[i] == info_of(all_kept(presets[i])));
}

/// What is looked up among kept items after one more.
pub(crate) proof fn lookups_after(s: Seq<PresetItem<Seq<char>>>, v: PresetItem<Seq<char>>)
    ensures
        forall|k: FlagKey| #[trigger]
            last_flag(s.push(v), k) == (if v is Flag && v->Flag_0 == k {
                Some(v->Flag_1)
            } else {
                last_flag(s, k)
            }),
        forall|k: PercentKey| #[trigger]
            last_percent(s.push(v), k) == (if v is Percent && v->Percent_0 == k {
                Some(v->Percent_1)
            } else {
                last_percent(s, k)
            }),
        forall|k: VarianceKey| #[trigger]
            last_variance(s.push(v), k) == (if v is Variance && v->Variance_0 == k {
                Some(v->Variance_1)
            } else {
                last_variance(s, k)
            }),
        forall|k: IntegerKey| #[trigger]
            last_integer(s.push(v), k) == (if v is Integer && v->Integer_0 == k {
                Some(v->Integer_1)
            } else {
                last_integer(s, k)
            }),
        !(v is Name) ==> last_name(s.push(v)) == last_name(s),
        v is Name ==> last_name(s.push(v)) == v->Name_0,
        !(v is Count) ==> last_count(s.push(v)) == last_count(s),
        v is Count ==> last_count(s.push(v)) == Some(v->Count_0),
        !(v is BlendMode) ==> last_blend_mode(s.push(v)) == last_blend_mode(s),
        v is BlendMode ==> last_blend_mode(s.push(v)) == Some(v->BlendMode_0),
        !(v is Texture) ==> last_texture(s.push(v)) == last_texture(s),
        v is Texture ==> last_texture(s.push(v)) == v->Texture_0,
        !(v is Dual) ==> last_dual(s.push(v)) == last_dual(s),
        v is Dual ==> last_dual(s.push(v)) == (v->Dual_0, v->Dual_1),
        !(v is Tip) && !(v is SampledData) ==> preset_tip(s.push(v)) == preset_tip(s),
{
    reveal(last_flag);
    reveal(last_percent);
    reveal(last_variance);
    reveal(last_integer);
    reveal(last_name);
    reveal(last_count);
    reveal(last_blend_mode);
    reveal(last_texture);
    reveal(last_dual);
    reveal(preset_tip);
    assert(s.push(v).drop_last() =~= s);
}

pub(crate) proof fn percent_keys()
    ensures
        percent_of(ascii("minimumDiameter")) == Some(PercentKey::MinimumDiameter),
        percent_of(ascii("minimumRoundness")) == Some(PercentKey::MinimumRoundness),
        percent_of(ascii("H   ")) == Some(PercentKey::Hue),
        percent_of(ascii("Strt")) == Some(PercentKey::Saturation),
        percent_of(ascii("Brgh")) == Some(PercentKey::Brightness),
        percent_of(ascii("purity")) == Some(PercentKey::Purity),
        percent_of(ascii("textureDepth")) == Some(PercentKey::TextureDepth),
        percent_of(ascii("minimumDepth")) == Some(PercentKey::MinimumDepth),
        percent_of(ascii("textureScale")) == Some(PercentKey::TextureScale),
{
    reveal(percent_of);
    literals_differ();
    reveal_strlit("minimumDiameter");
    reveal_strlit("minimumRoundness");
    reveal_strlit("H   ");
    reveal_strlit("Strt");
    reveal_strlit("Brgh");
    reveal_strlit("purity");
    reveal_strlit("textureDepth");
    reveal_strlit("minimumDepth");
    reveal_strlit("textureScale");
    assert("H   "@[0] == 'H');
    assert("Strt"@[0] == 'S');
    assert("Brgh"@[0] == 'B');
    assert("textureDepth"@[0] == 't' && "textureDepth"@[7] == 'D');
    assert("minimumDepth"@[0] == 'm');
    assert("textureScale"@[0] == 't' && "textureScale"@[7] == 'S');
}

pub(crate) proof fn flag_keys()
    ensures
        flag_of(ascii("useTipDynamics")) == Some(FlagKey::UseTipDynamics),
        flag_of(ascii("useScatter")) == Some(FlagKey::UseScatter),
        flag_of(ascii("usePaintDynamics")) == Some(FlagKey::UsePaintDynamics),
        flag_of(ascii("useTexture")) == Some(FlagKey::UseTexture),
        flag_of(ascii("useColorDynamics")) == Some(FlagKey::UseColorDynamics),
        flag_of(ascii("bothAxes")) == Some(FlagKey::BothAxes),
        flag_of(ascii("flipX")) == Some(FlagKey::FlipX),
        flag_of(ascii("flipY")) == Some(FlagKey::FlipY),
        flag_of(ascii("InvT")) == Some(FlagKey::InvertTexture),
        flag_of(ascii("TxtC")) == Some(FlagKey::TextureEachTip),
        flag_of(ascii("colorDynamicsPerTip")) == Some(FlagKey::ColorPerTip),
        flag_of(ascii("Wtdg")) == Some(FlagKey::WetEdges),
        flag_of(ascii("Nose")) == Some(FlagKey::Noise),
        flag_of(ascii("Rpt ")) == Some(FlagKey::BuildUp),
        flag_of(ascii("useBrushPose")) == Some(FlagKey::UseBrushPose),
        flag_of(ascii("brushProjection")) == Some(FlagKey::BrushProjection),
{
    reveal(flag_of);
    literals_differ();
    reveal_strlit("useTipDynamics");
    reveal_strlit("useScatter");
    reveal_strlit("usePaintDynamics");
    reveal_strlit("useTexture");
    reveal_strlit("useColorDynamics");
    reveal_strlit("bothAxes");
    reveal_strlit("flipX");
    reveal_strlit("flipY");
    reveal_strlit("InvT");
    reveal_strlit("TxtC");
    reveal_strlit("colorDynamicsPerTip");
    reveal_strlit("Wtdg");
    reveal_strlit("Nose");
    reveal_strlit("Rpt ");
    reveal_strlit("useBrushPose");
    reveal_strlit("brushProjection");
    assert("useScatter"@[3] == 'S');
    assert("useTexture"@[3] == 'T');
    assert("usePaintDynamics"@[3] == 'P');
    assert("useColorDynamics"@[3] == 'C');
    assert("flipX"@[4] == 'X');
    assert("flipY"@[4] == 'Y');
    assert("InvT"@[0] == 'I');
    assert("TxtC"@[0] == 'T');
    assert("Wtdg"@[0] == 'W');
    assert("Nose"@[0] == 'N');
    assert("Rpt "@[0] == 'R');
}

pub(crate) proof fn variance_keys()
    ensures
        variance_of(ascii("szVr")) == Some(VarianceKey::Size),
        variance_of(ascii("opVr")) == Some(VarianceKey::Opacity),
        variance_of(ascii("prVr")) == Some(VarianceKey::Flow),
        variance_of(ascii("wtVr")) == Some(VarianceKey::Wetness),
        variance_of(ascii("mxVr")) == Some(VarianceKey::Mix),
        variance_of(ascii("angleDynamics")) == Some(VarianceKey::Angle),
        variance_of(ascii("scatterDynamics")) == Some(VarianceKey::Scatter),
        variance_of(ascii("countDynamics")) == Some(VarianceKey::Count),
        variance_of(ascii("roundnessDynamics")) == Some(VarianceKey::Roundness),
        variance_of(ascii("clVr")) == Some(VarianceKey::Color),
        variance_of(ascii("textureDepthDynamics")) == Some(VarianceKey::TextureDepth),
{
    reveal(variance_of);
    literals_differ();
    reveal_strlit("szVr");
    reveal_strlit("opVr");
    reveal_strlit("prVr");
    reveal_strlit("wtVr");
    reveal_strlit("mxVr");
    reveal_strlit("angleDynamics");
    reveal_strlit("scatterDynamics");
    reveal_strlit("countDynamics");
    reveal_strlit("roundnessDynamics");
    reveal_strlit("clVr");
    reveal_strlit("textureDepthDynamics");
    assert("szVr"@[0] == 's');
    assert("opVr"@[0] == 'o');
    assert("prVr"@[0] == 'p');
    assert("wtVr"@[0] == 'w');
    assert("mxVr"@[0] == 'm');
    assert("clVr"@[0] == 'c');
    assert("angleDynamics"@[0] == 'a');
    assert("countDynamics"@[0] == 'c');
}

proof fn integer_keys()
    ensures
        integer_of(ascii("textureBrightness")) == Some(IntegerKey::TextureBrightness),
        integer_of(ascii("textureContrast")) == Some(IntegerKey::TextureContrast),
{
    reveal(integer_of);
    literals_differ();
    reveal_strlit("textureBrightness");
    reveal_strlit("textureContrast");
}

/// Is this a switch, which governs other settings?
pub open spec fn is_switch(k: FlagKey) -> bool {
    k == FlagKey::UseTipDynamics || k == FlagKey::UseScatter || k == FlagKey::UsePaintDynamics || k
        == FlagKey::UseTexture || k == FlagKey::UseColorDynamics
}

/// What an item says that is neither a switch nor a tip nor a dual brush, with a switch
/// behind it.
pub(crate) proof fn item_says(s: Seq<PresetItem<Seq<char>>>, x: PresetItem<Seq<char>>, k: FlagKey, on: bool)
    requires
        is_switch(k),
        !(x is Tip || x is SampledData || x is Dual || x is Name),
        x is Flag ==> !is_switch(x->Flag_0),
    ensures
        ({
            let f = PresetItem::<Seq<char>>::Flag(k, on);
            let was = info_of(s.push(f));
            let now = info_of(s.push(x).push(f));
            let a = now.descriptor;
            let b = was.descriptor;
            &&& now == (BrushDescInfo { descriptor: a, ..was })
            &&& a.spacing_pct == b.spacing_pct
            &&& a.computed == b.computed
            &&& a.diameter_px == b.diameter_px
            &&& a.scatter_amount_pct == (if x is Variance && x->Variance_0 == VarianceKey::Scatter && k == FlagKey::UseScatter {
                gate(on, x->Variance_1.jitter_pct)
            } else if x is Variance && x->Variance_0 == VarianceKey::Scatter {
                a.scatter_amount_pct
            } else {
                b.scatter_amount_pct
            })
            &&& a.size_jitter_pct == (if x is Variance && x->Variance_0 == VarianceKey::Size && k == FlagKey::UseTipDynamics {
                gate(on, x->Variance_1.jitter_pct)
            } else if x is Variance && x->Variance_0 == VarianceKey::Size {
                a.size_jitter_pct
            } else {
                b.size_jitter_pct
            })
            &&& a.angle_control == (if x is Variance && x->Variance_0 == VarianceKey::Angle && k == FlagKey::UseTipDynamics {
                gate(on, x->Variance_1.control)
            } else if x is Variance && x->Variance_0 == VarianceKey::Angle {
                a.angle_control
            } else {
                b.angle_control
            })
            &&& a.angle_jitter_pct == (if x is Variance && x->Variance_0 == VarianceKey::Angle && k == FlagKey::UseTipDynamics {
                gate(on, x->Variance_1.jitter_pct)
            } else if x is Variance && x->Variance_0 == VarianceKey::Angle {
                a.angle_jitter_pct
            } else {
                b.angle_jitter_pct
            })
            &&& a.pressure_size_control == (if x is Variance && x->Variance_0 == VarianceKey::Size && k == FlagKey::UseTipDynamics {
                gate(on, x->Variance_1.control)
            } else if x is Variance && x->Variance_0 == VarianceKey::Size {
                a.pressure_size_control
            } else {
                b.pressure_size_control
            })
            &&& a.pressure_opacity_control == (if x is Variance && x->Variance_0 == VarianceKey::Opacity && k == FlagKey::UsePaintDynamics {
                gate(on, x->Variance_1.control)
            } else if x is Variance && x->Variance_0 == VarianceKey::Opacity {
                a.pressure_opacity_control
            } else {
                b.pressure_opacity_control
            })
            &&& a.opacity_jitter_pct == (if x is Variance && x->Variance_0 == VarianceKey::Opacity && k == FlagKey::UsePaintDynamics {
                gate(on, x->Variance_1.jitter_pct)
            } else if x is Variance && x->Variance_0 == VarianceKey::Opacity {
                a.opacity_jitter_pct
            } else {
                b.opacity_jitter_pct
            })
            &&& a.flow_jitter_pct == (if x is Variance && x->Variance_0 == VarianceKey::Flow && k == FlagKey::UsePaintDynamics {
                gate(on, x->Variance_1.jitter_pct)
            } else if x is Variance && x->Variance_0 == VarianceKey::Flow {
                a.flow_jitter_pct
            } else {
                b.flow_jitter_pct
            })
            &&& a.wetness_jitter_pct == (if x is Variance && x->Variance_0 == VarianceKey::Wetness && k == FlagKey::UsePaintDynamics {
                gate(on, x->Variance_1.jitter_pct)
            } else if x is Variance && x->Variance_0 == VarianceKey::Wetness {
                a.wetness_jitter_pct
            } else {
                b.wetness_jitter_pct
            })
            &&& a.mix_jitter_pct == (if x is Variance && x->Variance_0 == VarianceKey::Mix && k == FlagKey::UsePaintDynamics {
                gate(on, x->Variance_1.jitter_pct)
            } else if x is Variance && x->Variance_0 == VarianceKey::Mix {
                a.mix_jitter_pct
            } else {
                b.mix_jitter_pct
            })
            &&& a.shape_angle_deg == b.shape_angle_deg
            &&& a.shape_roundness_pct == b.shape_roundness_pct
            &&& a.scatter_count == (if x is Count && k == FlagKey::UseScatter {
                gate(on, Some(x->Count_0))
            } else if x is Count {
                a.scatter_count
            } else {
                b.scatter_count
            })
            &&& a.scatter_both_axes == (if x is Flag && x->Flag_0 == FlagKey::BothAxes && k == FlagKey::UseScatter {
                gate(on, Some(x->Flag_1))
            } else if x is Flag && x->Flag_0 == FlagKey::BothAxes {
                a.scatter_both_axes
            } else {
                b.scatter_both_axes
            })
            &&& a.count_jitter_pct == (if x is Variance && x->Variance_0 == VarianceKey::Count && k == FlagKey::UseScatter {
                gate(on, x->Variance_1.jitter_pct)
            } else if x is Variance && x->Variance_0 == VarianceKey::Count {
                a.count_jitter_pct
            } else {
                b.count_jitter_pct
            })
            &&& a.minimum_diameter_pct == (if x is Percent && x->Percent_0 == PercentKey::MinimumDiameter && k == FlagKey::UseTipDynamics {
                gate(on, Some(x->Percent_1))
            } else if x is Percent && x->Percent_0 == PercentKey::MinimumDiameter {
                a.minimum_diameter_pct
            } else {
                b.minimum_diameter_pct
            })
            &&& a.roundness_jitter_pct == (if x is Variance && x->Variance_0 == VarianceKey::Roundness && k == FlagKey::UseTipDynamics {
                gate(on, x->Variance_1.jitter_pct)
            } else if x is Variance && x->Variance_0 == VarianceKey::Roundness {
                a.roundness_jitter_pct
            } else {
                b.roundness_jitter_pct
            })
            &&& a.minimum_roundness_pct == (if x is Percent && x->Percent_0 == PercentKey::MinimumRoundness && k == FlagKey::UseTipDynamics {
                gate(on, Some(x->Percent_1))
            } else if x is Percent && x->Percent_0 == PercentKey::MinimumRoundness {
                a.minimum_roundness_pct
            } else {
                b.minimum_roundness_pct
            })
            &&& a.flip_x_jitter == (if x is Flag && x->Flag_0 == FlagKey::FlipX && k == FlagKey::UseTipDynamics {
                gate(on, Some(x->Flag_1))
            } else if x is Flag && x->Flag_0 == FlagKey::FlipX {
                a.flip_x_jitter
            } else {
                b.flip_x_jitter
            })
            &&& a.flip_y_jitter == (if x is Flag && x->Flag_0 == FlagKey::FlipY && k == FlagKey::UseTipDynamics {
                gate(on, Some(x->Flag_1))
            } else if x is Flag && x->Flag_0 == FlagKey::FlipY {
                a.flip_y_jitter
            } else {
                b.flip_y_jitter
            })
            &&& a.tip_flip_x == b.tip_flip_x
            &&& a.tip_flip_y == b.tip_flip_y
            &&& a.texture_pattern_id == (if x is Texture && k == FlagKey::UseTexture {
                gate(on, x->Texture_0.id)
            } else if x is Texture {
                a.texture_pattern_id
            } else {
                b.texture_pattern_id
            })
            &&& a.texture_pattern_name == (if x is Texture && k == FlagKey::UseTexture {
                gate(on, x->Texture_0.name)
            } else if x is Texture {
                a.texture_pattern_name
            } else {
                b.texture_pattern_name
            })
            &&& a.texture_depth_pct == (if x is Percent && x->Percent_0 == PercentKey::TextureDepth && k == FlagKey::UseTexture {
                gate(on, Some(x->Percent_1))
            } else if x is Percent && x->Percent_0 == PercentKey::TextureDepth {
                a.texture_depth_pct
            } else {
                b.texture_depth_pct
            })
            &&& a.texture_minimum_depth_pct == (if x is Percent && x->Percent_0 == PercentKey::MinimumDepth && k == FlagKey::UseTexture {
                gate(on, Some(x->Percent_1))
            } else if x is Percent && x->Percent_0 == PercentKey::MinimumDepth {
                a.texture_minimum_depth_pct
            } else {
                b.texture_minimum_depth_pct
            })
            &&& a.texture_scale_pct == (if x is Percent && x->Percent_0 == PercentKey::TextureScale && k == FlagKey::UseTexture {
                gate(on, Some(x->Percent_1))
            } else if x is Percent && x->Percent_0 == PercentKey::TextureScale {
                a.texture_scale_pct
            } else {
                b.texture_scale_pct
            })
            &&& a.texture_invert == (if x is Flag && x->Flag_0 == FlagKey::InvertTexture && k == FlagKey::UseTexture {
                gate(on, Some(x->Flag_1))
            } else if x is Flag && x->Flag_0 == FlagKey::InvertTexture {
                a.texture_invert
            } else {
                b.texture_invert
            })
            &&& a.texture_each_tip == (if x is Flag && x->Flag_0 == FlagKey::TextureEachTip && k == FlagKey::UseTexture {
                gate(on, Some(x->Flag_1))
            } else if x is Flag && x->Flag_0 == FlagKey::TextureEachTip {
                a.texture_each_tip
            } else {
                b.texture_each_tip
            })
            &&& a.texture_blend_mode == (if x is BlendMode && k == FlagKey::UseTexture {
                gate(on, Some(x->BlendMode_0))
            } else if x is BlendMode {
                a.texture_blend_mode
            } else {
                b.texture_blend_mode
            })
            &&& a.texture_depth_jitter_pct == (if x is Variance && x->Variance_0 == VarianceKey::TextureDepth && k == FlagKey::UseTexture {
                gate(on, x->Variance_1.jitter_pct)
            } else if x is Variance && x->Variance_0 == VarianceKey::TextureDepth {
                a.texture_depth_jitter_pct
            } else {
                b.texture_depth_jitter_pct
            })
            &&& a.texture_brightness == (if x is Integer && x->Integer_0 == IntegerKey::TextureBrightness && k == FlagKey::UseTexture {
                gate(on, Some(x->Integer_1 as i64))
            } else if x is Integer && x->Integer_0 == IntegerKey::TextureBrightness {
                a.texture_brightness
            } else {
                b.texture_brightness
            })
            &&& a.texture_contrast == (if x is Integer && x->Integer_0 == IntegerKey::TextureContrast && k == FlagKey::UseTexture {
                gate(on, Some(x->Integer_1 as i64))
            } else if x is Integer && x->Integer_0 == IntegerKey::TextureContrast {
                a.texture_contrast
            } else {
                b.texture_contrast
            })
            &&& a.use_dual_brush == b.use_dual_brush
            &&& a.dual == b.dual
            &&& a.wet_edges == (if x is Flag && x->Flag_0 == FlagKey::WetEdges {
                x->Flag_1
            } else {
                b.wet_edges
            })
            &&& a.noise == (if x is Flag && x->Flag_0 == FlagKey::Noise {
                x->Flag_1
            } else {
                b.noise
            })
            &&& a.buildup == (if x is Flag && x->Flag_0 == FlagKey::BuildUp {
                x->Flag_1
            } else {
                b.buildup
            })
            &&& a.use_color_dynamics == b.use_color_dynamics
            &&& a.color_hue_jitter_pct == (if x is Percent && x->Percent_0 == PercentKey::Hue && k == FlagKey::UseColorDynamics {
                gate(on, Some(x->Percent_1))
            } else if x is Percent && x->Percent_0 == PercentKey::Hue {
                a.color_hue_jitter_pct
            } else {
                b.color_hue_jitter_pct
            })
            &&& a.color_saturation_jitter_pct == (if x is Percent && x->Percent_0 == PercentKey::Saturation && k == FlagKey::UseColorDynamics {
                gate(on, Some(x->Percent_1))
            } else if x is Percent && x->Percent_0 == PercentKey::Saturation {
                a.color_saturation_jitter_pct
            } else {
                b.color_saturation_jitter_pct
            })
            &&& a.color_brightness_jitter_pct == (if x is Percent && x->Percent_0 == PercentKey::Brightness && k == FlagKey::UseColorDynamics {
                gate(on, Some(x->Percent_1))
            } else if x is Percent && x->Percent_0 == PercentKey::Brightness {
                a.color_brightness_jitter_pct
            } else {
                b.color_brightness_jitter_pct
            })
            &&& a.color_purity_pct == (if x is Percent && x->Percent_0 == PercentKey::Purity && k == FlagKey::UseColorDynamics {
                gate(on, Some(x->Percent_1))
            } else if x is Percent && x->Percent_0 == PercentKey::Purity {
                a.color_purity_pct
            } else {
                b.color_purity_pct
            })
            &&& a.color_fg_bg_jitter_pct == (if x is Variance && x->Variance_0 == VarianceKey::Color && k == FlagKey::UseColorDynamics {
                gate(on, x->Variance_1.jitter_pct)
            } else if x is Variance && x->Variance_0 == VarianceKey::Color {
                a.color_fg_bg_jitter_pct
            } else {
                b.color_fg_bg_jitter_pct
            })
            &&& a.color_dynamics_per_tip == (if x is Flag && x->Flag_0 == FlagKey::ColorPerTip && k == FlagKey::UseColorDynamics {
                gate(on, Some(x->Flag_1))
            } else if x is Flag && x->Flag_0 == FlagKey::ColorPerTip {
                a.color_dynamics_per_tip
            } else {
                b.color_dynamics_per_tip
            })
            &&& a.use_brush_pose == (if x is Flag && x->Flag_0 == FlagKey::UseBrushPose {
                x->Flag_1
            } else {
                b.use_brush_pose
            })
            &&& a.brush_projection == (if x is Flag && x->Flag_0 == FlagKey::BrushProjection {
                x->Flag_1
            } else {
                b.brush_projection
            })
        }),
{
    let f = PresetItem::<Seq<char>>::Flag(k, on);
    lookups_after(s, x);
    lookups_after(s.push(x), f);
    lookups_after(s, f);
}

pub(crate) proof fn percent_is_kept(k: Seq<u8>, key: Seq<u8>, unit: Seq<u8>, v: Double)
    requires
        is_key(k, key),
        unit.len() == 4,
    ensures
        is_item(percent_item(k, unit, v)),
        kept_of(percent_item(k, unit, v)) == (match percent_of(key) {
            Some(f) => Some(PresetItem::<Seq<char>>::Percent(f, v)),
            None => None,
        }),
{
    percent_item_is_read(k, key, unit, v);
    reveal(kept_of);
}

pub(crate) proof fn flag_is_kept(k: Seq<u8>, key: Seq<u8>, v: u8)
    requires
        is_key(k, key),
    ensures
        is_item(flag_item(k, v)),
        kept_of(flag_item(k, v)) == (match flag_of(key) {
            Some(f) => Some(PresetItem::<Seq<char>>::Flag(f, v != 0)),
            None => None,
        }),
{
    flag_item_is_read(k, key, v);
    reveal(kept_of);
}

pub(crate) proof fn integer_is_kept(k: Seq<u8>, key: Seq<u8>, v: i32)
    requires
        is_key(k, key),
    ensures
        is_item(integer_item(k, v)),
        kept_of(integer_item(k, v)) == (match integer_of(key) {
            Some(f) => Some(PresetItem::<Seq<char>>::Integer(f, v)),
            None => None,
        }),
{
    integer_item_is_read(k, key, v);
    reveal(kept_of);
}

/// What is kept of items, an item and a switch.
pub(crate) proof fn kept_with_switch(items: Seq<Seq<u8>>, x: Seq<u8>, s: Seq<u8>)
    ensures
        all_kept(items.push(x).push(s)) == with_kept(with_kept(all_kept(items), x), s),
        all_kept(items.push(s)) == with_kept(all_kept(items), s),
{
    kept_after(items, x);
    kept_after(items.push(x), s);
    kept_after(items, s);
}

/// Is preset `i` of `d` a preset with these items and the switch, and preset `j` of `e` one
/// with the item `x` before the switch?
pub open spec fn differ_by(
    d: Seq<u8>,
    i: int,
    e: Seq<u8>,
    j: int,
    items: Seq<Seq<u8>>,
    x: Seq<u8>,
    switch: Seq<u8>,
) -> bool {
    &&& preset_in(d, i, items.push(switch))
    &&& preset_in(e, j, items.push(x).push(switch))
}

pub(crate) proof fn differ_by_what_is_kept(
    d: Seq<u8>,
    i: int,
    e: Seq<u8>,
    j: int,
    items: Seq<Seq<u8>>,
    x: Seq<u8>,
    s: Seq<u8>,
    key: Seq<u8>,
    on: u8,
)
    requires
        is_key(s, key),
        differ_by(d, i, e, j, items, x, flag_item(s, on)),
        kept_of(x) is Some,
        flag_of(key) is Some,
    ensures
        ({
            let f = PresetItem::<Seq<char>>::Flag(flag_of(key)->0, on != 0);
            &&& is_said(d, i)
            &&& is_said(e, j)
            &&& said(d, i) == info_of(all_kept(items).push(f))
            &&& said(e, j) == info_of(all_kept(items).push(kept_of(x)->0).push(f))
        }),
{
    flag_is_kept(s, key, on);
    kept_with_switch(items, x, flag_item(s, on));
    preset_is_said(d, i, items.push(flag_item(s, on)));
    preset_is_said(e, j, items.push(x).push(flag_item(s, on)));
}

/// A percentage is read back under its key, where its switch is on, and is the whole
/// difference that it makes.
pub proof fn a_percentage_is_read_back(
    d: Seq<u8>,
    i: int,
    e: Seq<u8>,
    j: int,
    items: Seq<Seq<u8>>,
    k: Seq<u8>,
    key: Seq<u8>,
    unit: Seq<u8>,
    v: Double,
    s: Seq<u8>,
    switch: Seq<u8>,
    on: u8,
)
    requires
        is_key(k, key),
        is_key(s, switch),
        unit.len() == 4,
        differ_by(d, i, e, j, items, percent_item(k, unit, v), flag_item(s, on)),
    ensures
        key == ascii("minimumDiameter") && switch == ascii("useTipDynamics") ==> said(e, j) == ({
            let was = said(d, i);
            BrushDescInfo {
                descriptor: BrushDescriptor {
                    minimum_diameter_pct: if on != 0 {
                        Some(v)
                    } else {
                        None
                    },
                    ..was.descriptor
                },
                ..was
            }
        }),
        key == ascii("minimumRoundness") && switch == ascii("useTipDynamics") ==> said(e, j) == ({
            let was = said(d, i);
            BrushDescInfo {
                descriptor: BrushDescriptor {
                    minimum_roundness_pct: if on != 0 {
                        Some(v)
                    } else {
                        None
                    },
                    ..was.descriptor
                },
                ..was
            }
        }),
        key == ascii("H   ") && switch == ascii("useColorDynamics") ==> said(e, j) == ({
            let was = said(d, i);
            BrushDescInfo {
                descriptor: BrushDescriptor {
                    color_hue_jitter_pct: if on != 0 {
                        Some(v)
                    } else {
                        None
                    },
                    ..was.descriptor
                },
                ..was
            }
        }),
        key == ascii("Strt") && switch == ascii("useColorDynamics") ==> said(e, j) == ({
            let was = said(d, i);
            BrushDescInfo {
                descriptor: BrushDescriptor {
                    color_saturation_jitter_pct: if on != 0 {
                        Some(v)
                    } else {
                        None
                    },
                    ..was.descriptor
                },
                ..was
            }
        }),
        key == ascii("Brgh") && switch == ascii("useColorDynamics") ==> said(e, j) == ({
            let was = said(d, i);
            BrushDescInfo {
                descriptor: BrushDescriptor {
                    color_brightness_jitter_pct: if on != 0 {
                        Some(v)
                    } else {
                        None
                    },
                    ..was.descriptor
                },
                ..was
            }
        }),
        key == ascii("purity") && switch == ascii("useColorDynamics") ==> said(e, j) == ({
            let was = said(d, i);
            BrushDescInfo {
                descriptor: BrushDescriptor {
                    color_purity_pct: if on != 0 {
                        Some(v)
                    } else {
                        None
                    },
                    ..was.descriptor
                },
                ..was
            }
        }),
        key == ascii("textureDepth") && switch == ascii("useTexture") ==> said(e, j) == ({
            let was = said(d, i);
            BrushDescInfo {
                descriptor: BrushDescriptor {
                    texture_depth_pct: if on != 0 {
                        Some(v)
                    } else {
                        None
                    },
                    ..was.descriptor
                },
                ..was
            }
        }),
        key == ascii("minimumDepth") && switch == ascii("useTexture") ==> said(e, j) == ({
            let was = said(d, i);
            BrushDescInfo {
                descriptor: BrushDescriptor {
                    texture_minimum_depth_pct: if on != 0 {
                        Some(v)
                    } else {
                        None
                    },
                    ..was.descriptor
                },
                ..was
            }
        }),
        key == ascii("textureScale") && switch == ascii("useTexture") ==> said(e, j) == ({
            let was = said(d, i);
            BrushDescInfo {
                descriptor: BrushDescriptor {
                    texture_scale_pct: if on != 0 {
                        Some(v)
                    } else {
                        None
                    },
                    ..was.descriptor
                },
                ..was
            }
        }),
{
    let x = percent_item(k, unit, v);
    flag_keys();
    percent_keys();
    percent_is_kept(k, key, unit, v);
    let kept = all_kept(items);
    if key == ascii("minimumDiameter") && switch == ascii("useTipDynamics") {
        differ_by_what_is_kept(d, i, e, j, items, x, s, switch, on);
        item_says(kept, kept_of(x)->0, FlagKey::UseTipDynamics, on != 0);
    }
    if key == ascii("minimumRoundness") && switch == ascii("useTipDynamics") {
        differ_by_what_is_kept(d, i, e, j, items, x, s, switch, on);
        item_says(kept, kept_of(x)->0, FlagKey::UseTipDynamics, on != 0);
    }
    if key == ascii("H   ") && switch == ascii("useColorDynamics") {
        differ_by_what_is_kept(d, i, e, j, items, x, s, switch, on);
        item_says(kept, kept_of(x)->0, FlagKey::UseColorDynamics, on != 0);
    }
    if key == ascii("Strt") && switch == ascii("useColorDynamics") {
        differ_by_what_is_kept(d, i, e, j, items, x, s, switch, on);
        item_says(kept, kept_of(x)->0, FlagKey::UseColorDynamics, on != 0);
    }
    if key == ascii("Brgh") && switch == ascii("useColorDynamics") {
        differ_by_what_is_kept(d, i, e, j, items, x, s, switch, on);
        item_says(kept, kept_of(x)->0, FlagKey::UseColorDynamics, on != 0);
    }
    if key == ascii("purity") && switch == ascii("useColorDynamics") {
        differ_by_what_is_kept(d, i, e, j, items, x, s, switch, on);
        item_says(kept, kept_of(x)->0, FlagKey::UseColorDynamics, on != 0);
    }
    if key == ascii("textureDepth") && switch == ascii("useTexture") {
        differ_by_what_is_kept(d, i, e, j, items, x, s, switch, on);
        item_says(kept, kept_of(x)->0, FlagKey::UseTexture, on != 0);
    }
    if key == ascii("minimumDepth") && switch == ascii("useTexture") {
        differ_by_what_is_kept(d, i, e, j, items, x, s, switch, on);
        item_says(kept, kept_of(x)->0, FlagKey::UseTexture, on != 0);
    }
    if key == ascii("textureScale") && switch == ascii("useTexture") {
        differ_by_what_is_kept(d, i, e, j, items, x, s, switch, on);
        item_says(kept, kept_of(x)->0, FlagKey::UseTexture, on != 0);
    }
}

/// A flag is read back under its key, where its switch is on, and is the whole difference
/// that it makes.
pub proof fn a_flag_is_read_back(
    d: Seq<u8>,
    i: int,
    e: Seq<u8>,
    j: int,
    items: Seq<Seq<u8>>,
    k: Seq<u8>,
    key: Seq<u8>,
    v: u8,
    s: Seq<u8>,
    switch: Seq<u8>,
    on: u8,
)
    requires
        is_key(k, key),
        is_key(s, switch),
        differ_by(d, i, e, j, items, flag_item(k, v), flag_item(s, on)),
    ensures
        key == ascii("bothAxes") && switch == ascii("useScatter") ==> said(e, j) == ({
            let was = said(d, i);
            BrushDescInfo {
                descriptor: BrushDescriptor {
                    scatter_both_axes: if on != 0 {
                        Some(v != 0)
                    } else {
                        None
                    },
                    ..was.descriptor
                },
                ..was
            }
        }),
        key == ascii("flipX") && switch == ascii("useTipDynamics") ==> said(e, j) == ({
            let was = said(d, i);
            BrushDescInfo {
                descriptor: BrushDescriptor {
                    flip_x_jitter: if on != 0 {
                        Some(v != 0)
                    } else {
                        None
                    },
                    ..was.descriptor
                },
                ..was
            }
        }),
        key == ascii("flipY") && switch == ascii("useTipDynamics") ==> said(e, j) == ({
            let was = said(d, i);
            BrushDescInfo {
                descriptor: BrushDescriptor {
                    flip_y_jitter: if on != 0 {
                        Some(v != 0)
                    } else {
                        None
                    },
                    ..was.descriptor
                },
                ..was
            }
        }),
        key == ascii("InvT") && switch == ascii("useTexture") ==> said(e, j) == ({
            let was = said(d, i);
            BrushDescInfo {
                descriptor: BrushDescriptor {
                    texture_invert: if on != 0 {
                        Some(v != 0)
                    } else {
                        None
                    },
                    ..was.descriptor
                },
                ..was
            }
        }),
        key == ascii("TxtC") && switch == ascii("useTexture") ==> said(e, j) == ({
            let was = said(d, i);
            BrushDescInfo {
                descriptor: BrushDescriptor {
                    texture_each_tip: if on != 0 {
                        Some(v != 0)
                    } else {
                        None
                    },
                    ..was.descriptor
                },
                ..was
            }
        }),
        key == ascii("colorDynamicsPerTip") && switch == ascii("useColorDynamics") ==> said(e, j) == ({
            let was = said(d, i);
            BrushDescInfo {
                descriptor: BrushDescriptor {
                    color_dynamics_per_tip: if on != 0 {
                        Some(v != 0)
                    } else {
                        None
                    },
                    ..was.descriptor
                },
                ..was
            }
        }),
{
    let x = flag_item(k, v);
    flag_keys();
    flag_is_kept(k, key, v);
    let kept = all_kept(items);
    if key == ascii("bothAxes") && switch == ascii("useScatter") {
        differ_by_what_is_kept(d, i, e, j, items, x, s, switch, on);
        item_says(kept, kept_of(x)->0, FlagKey::UseScatter, on != 0);
    }
    if key == ascii("flipX") && switch == ascii("useTipDynamics") {
        differ_by_what_is_kept(d, i, e, j, items, x, s, switch, on);
        item_says(kept, kept_of(x)->0, FlagKey::UseTipDynamics, on != 0);
    }
    if key == ascii("flipY") && switch == ascii("useTipDynamics") {
        differ_by_what_is_kept(d, i, e, j, items, x, s, switch, on);
        item_says(kept, kept_of(x)->0, FlagKey::UseTipDynamics, on != 0);
    }
    if key == ascii("InvT") && switch == ascii("useTexture") {
        differ_by_what_is_kept(d, i, e, j, items, x, s, switch, on);
        item_says(kept, kept_of(x)->0, FlagKey::UseTexture, on != 0);
    }
    if key == ascii("TxtC") && switch == ascii("useTexture") {
        differ_by_what_is_kept(d, i, e, j, items, x, s, switch, on);
        item_says(kept, kept_of(x)->0, FlagKey::UseTexture, on != 0);
    }
    if key == ascii("colorDynamicsPerTip") && switch == ascii("useColorDynamics") {
        differ_by_what_is_kept(d, i, e, j, items, x, s, switch, on);
        item_says(kept, kept_of(x)->0, FlagKey::UseColorDynamics, on != 0);
    }
}

/// An integer is read back under its key, where its switch is on, and is the whole
/// difference that it makes.
pub proof fn an_integer_is_read_back(
    d: Seq<u8>,
    i: int,
    e: Seq<u8>,
    j: int,
    items: Seq<Seq<u8>>,
    k: Seq<u8>,
    key: Seq<u8>,
    v: i32,
    s: Seq<u8>,
    switch: Seq<u8>,
    on: u8,
)
    requires
        is_key(k, key),
        is_key(s, switch),
        differ_by(d, i, e, j, items, integer_item(k, v), flag_item(s, on)),
    ensures
        key == ascii("textureBrightness") && switch == ascii("useTexture") ==> said(e, j) == ({
            let was = said(d, i);
            BrushDescInfo {
                descriptor: BrushDescriptor {
                    texture_brightness: if on != 0 {
                        Some(v as i64)
                    } else {
                        None
                    },
                    ..was.descriptor
                },
                ..was
            }
        }),
        key == ascii("textureContrast") && switch == ascii("useTexture") ==> said(e, j) == ({
            let was = said(d, i);
            BrushDescInfo {
                descriptor: BrushDescriptor {
                    texture_contrast: if on != 0 {
                        Some(v as i64)
                    } else {
                        None
                    },
                    ..was.descriptor
                },
                ..was
            }
        }),
{
    let x = integer_item(k, v);
    flag_keys();
    integer_keys();
    integer_is_kept(k, key, v);
    let kept = all_kept(items);
    if key == ascii("textureBrightness") && switch == ascii("useTexture") {
        differ_by_what_is_kept(d, i, e, j, items, x, s, switch, on);
        item_says(kept, kept_of(x)->0, FlagKey::UseTexture, on != 0);
    }
    if key == ascii("textureContrast") && switch == ascii("useTexture") {
        differ_by_what_is_kept(d, i, e, j, items, x, s, switch, on);
        item_says(kept, kept_of(x)->0, FlagKey::UseTexture, on != 0);
    }
}

} // verus!
