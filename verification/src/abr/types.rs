//! The contents of a brush pack.
use vstd::prelude::*;
use crate::support::bytes::copy_bytes;
use crate::support::double::Double;
use crate::support::text::{copy_text, decimal, push_decimal, text, views};

verus! {

/// The geometry of a procedural tip, each value as far as the file holds it.
#[derive(Debug, Clone, Copy, PartialEq, Eq, Structural)]
pub struct ComputedGeometry {
    /// `Dmtr`: diameter in pixels.
    pub diameter_px: Option<Double>,
    /// `Hrdn`: hardness in percent.
    pub hardness_pct: Option<Double>,
    /// `Angl`: angle in degrees.
    pub angle_deg: Option<Double>,
    /// `Rndn`: roundness in percent.
    pub roundness_pct: Option<Double>,
}

impl ComputedGeometry {
    /// No value for any key.
    pub open spec fn empty() -> ComputedGeometry {
        ComputedGeometry {
            diameter_px: None,
            hardness_pct: None,
            angle_deg: None,
            roundness_pct: None,
        }
    }
}

impl Default for ComputedGeometry {
    /// No value for any key.
    fn default() -> (r: ComputedGeometry)
        ensures
            r == ComputedGeometry::empty(),
    {
        ComputedGeometry {
            diameter_px: None,
            hardness_pct: None,
            angle_deg: None,
            roundness_pct: None,
        }
    }
}

/// The family of dynamic tips that a preset with a `Shp ` key belongs to.
#[derive(Debug, Clone, Copy, PartialEq, Eq, Structural)]
pub enum ShapeTipFamily {
    /// Class `dBrush`: bristle tips.
    Bristle,
    /// Class `dTips`: erodible and airbrush tips.
    Erodible,
}

/// The shape of a dynamic tip: the `Shp ` number read within its family.
#[derive(Debug, Clone, Copy, PartialEq, Eq, Structural)]
pub enum TipShape {
    /// Bristle 0.
    RoundPoint,
    /// Bristle 1.
    RoundBlunt,
    /// Bristle 2.
    RoundCurve,
    /// Bristle 3.
    RoundAngle,
    /// Bristle 4.
    RoundFan,
    /// Bristle 5.
    FlatPoint,
    /// Bristle 6.
    FlatBlunt,
    /// Bristle 7.
    FlatCurve,
    /// Bristle 8.
    FlatAngle,
    /// Bristle 9.
    FlatFan,
    /// Erodible 0.
    ErodiblePoint,
    /// Erodible 1.
    ErodibleFlat,
    /// Erodible 2.
    ErodibleRound,
    /// Erodible 3.
    ErodibleSquare,
    /// Erodible 4.
    ErodibleTriangle,
    /// Erodible 5, which is the airbrush tip and no erodible shape.
    AirbrushTip,
}

/// Why a pattern record was dropped.
#[derive(Debug, Clone, Copy, PartialEq, Eq, Structural)]
pub enum DroppedPatternReason {
    /// The header names an image mode that patterns are not read in.
    UnsupportedImageMode(u32),
    /// The header was read and the body was not.
    Undecodable,
}

/// The version of a pack's file format.
#[derive(Debug, Clone, Copy, PartialEq, Eq, Structural)]
pub enum AbrVersion {
    /// Entry stream: sampled tips without names.
    V1,
    /// Entry stream with a name per entry.
    V2,
    /// Block format.
    V6,
    /// Block format.
    V7,
    /// Block format.
    V9,
    /// Block format.
    V10,
}

impl AbrVersion {
    /// The name of the version.
    pub open spec fn name_text(self) -> Seq<char> {
        match self {
            AbrVersion::V1 => "v1"@,
            AbrVersion::V2 => "v2"@,
            AbrVersion::V6 => "v6"@,
            AbrVersion::V7 => "v7"@,
            AbrVersion::V9 => "v9"@,
            AbrVersion::V10 => "v10"@,
        }
    }

    /// The name of the version: `v1`, `v2`, `v6`, `v7`, `v9` or `v10`.
    pub fn name(&self) -> (r: String)
        ensures
            r@ == self.name_text(),
    {
        match self {
            AbrVersion::V1 => "v1".to_owned(),
            AbrVersion::V2 => "v2".to_owned(),
            AbrVersion::V6 => "v6".to_owned(),
            AbrVersion::V7 => "v7".to_owned(),
            AbrVersion::V9 => "v9".to_owned(),
            AbrVersion::V10 => "v10".to_owned(),
        }
    }
}

/// The `dualBrush` section of a preset: a second tip and the scatter that drives it.
///
/// `S` is the type of its texts: `String`, or the characters in a model.
#[derive(Debug, Clone, PartialEq, Eq)]
pub struct DualBrush<S = String> {
    /// `Brsh` > `sampledData`: the secondary tip's uuid, absent for a computed tip.
    pub uuid: Option<S>,
    /// `Brsh` > `Spcn`: the secondary tip's spacing.
    pub spacing_pct: Option<Double>,
    /// Present exactly when the secondary tip's class is `computedBrush`.
    pub computed: Option<ComputedGeometry>,
    /// `Brsh` > `Dmtr`.
    pub diameter_px: Option<Double>,
    /// `Brsh` > `Angl` of a sampled secondary tip.
    pub shape_angle_deg: Option<Double>,
    /// `Brsh` > `Rndn` of a sampled secondary tip.
    pub shape_roundness_pct: Option<Double>,
    /// `Brsh` > `flipX` of a sampled secondary tip.
    pub tip_flip_x: Option<bool>,
    /// `Brsh` > `flipY` of a sampled secondary tip.
    pub tip_flip_y: Option<bool>,
    /// `useScatter`, which governs the four fields below.
    pub use_scatter: bool,
    /// `Cnt `.
    pub scatter_count: Option<Double>,
    /// `bothAxes`.
    pub scatter_both_axes: Option<bool>,
    /// `scatterDynamics` jitter.
    pub scatter_amount_pct: Option<Double>,
    /// `countDynamics` jitter.
    pub count_jitter_pct: Option<Double>,
    /// `dualBrush` > `Spcn`, a key apart from the secondary tip's own.
    pub scatter_spacing_pct: Option<Double>,
    /// The value id of `BlnM`: how the secondary tip is laid over the primary.
    pub blend_mode: Option<S>,
    /// `Flip`.
    pub flip: Option<bool>,
}

impl DualBrush<Seq<char>> {
    /// No value for any key.
    pub open spec fn empty() -> DualBrush<Seq<char>> {
        DualBrush {
            uuid: None,
            spacing_pct: None,
            computed: None,
            diameter_px: None,
            shape_angle_deg: None,
            shape_roundness_pct: None,
            tip_flip_x: None,
            tip_flip_y: None,
            use_scatter: false,
            scatter_count: None,
            scatter_both_axes: None,
            scatter_amount_pct: None,
            count_jitter_pct: None,
            scatter_spacing_pct: None,
            blend_mode: None,
            flip: None,
        }
    }
}

impl View for DualBrush {
    type V = DualBrush<Seq<char>>;

    open spec fn view(&self) -> DualBrush<Seq<char>> {
        DualBrush {
            uuid: text(self.uuid),
            spacing_pct: self.spacing_pct,
            computed: self.computed,
            diameter_px: self.diameter_px,
            shape_angle_deg: self.shape_angle_deg,
            shape_roundness_pct: self.shape_roundness_pct,
            tip_flip_x: self.tip_flip_x,
            tip_flip_y: self.tip_flip_y,
            use_scatter: self.use_scatter,
            scatter_count: self.scatter_count,
            scatter_both_axes: self.scatter_both_axes,
            scatter_amount_pct: self.scatter_amount_pct,
            count_jitter_pct: self.count_jitter_pct,
            scatter_spacing_pct: self.scatter_spacing_pct,
            blend_mode: text(self.blend_mode),
            flip: self.flip,
        }
    }
}

impl Default for DualBrush {
    /// No value for any key.
    fn default() -> (r: DualBrush)
        ensures
            r@ == DualBrush::<Seq<char>>::empty(),
    {
        DualBrush {
            uuid: None,
            spacing_pct: None,
            computed: None,
            diameter_px: None,
            shape_angle_deg: None,
            shape_roundness_pct: None,
            tip_flip_x: None,
            tip_flip_y: None,
            use_scatter: false,
            scatter_count: None,
            scatter_both_axes: None,
            scatter_amount_pct: None,
            count_jitter_pct: None,
            scatter_spacing_pct: None,
            blend_mode: None,
            flip: None,
        }
    }
}

impl DualBrush {
    /// A copy.
    pub fn duplicate(&self) -> (r: DualBrush)
        ensures
            r@ == self@,
    {
        DualBrush {
            uuid: copy_text(&self.uuid),
            blend_mode: copy_text(&self.blend_mode),
            ..*self
        }
    }
}

/// The dynamics of one preset. A field is `None` where the file holds no value for it.
///
/// `S` is the type of its texts: `String`, or the characters in a model.
#[derive(Debug, Clone, PartialEq, Eq)]
pub struct BrushDescriptor<S = String> {
    /// `Spcn` of the inner tip: spacing in percent of the tip diameter.
    pub spacing_pct: Option<Double>,
    /// Present exactly when the inner tip's class is `computedBrush`, also when it
    /// names no geometry.
    pub computed: Option<ComputedGeometry>,
    /// `Dmtr` of the inner tip: diameter in pixels, for sampled and computed tips.
    pub diameter_px: Option<Double>,
    /// `scatterDynamics` jitter, under `useScatter`.
    pub scatter_amount_pct: Option<Double>,
    /// `szVr` jitter, under `useTipDynamics`.
    pub size_jitter_pct: Option<Double>,
    /// `angleDynamics` control, under `useTipDynamics`: 6 is direction, 3 pen tilt.
    pub angle_control: Option<i32>,
    /// `angleDynamics` jitter, under `useTipDynamics`.
    pub angle_jitter_pct: Option<Double>,
    /// `szVr` control, under `useTipDynamics`: 2 is pen pressure.
    pub pressure_size_control: Option<i32>,
    /// `opVr` control, under `usePaintDynamics`: 2 is pen pressure.
    pub pressure_opacity_control: Option<i32>,
    /// `opVr` jitter, under `usePaintDynamics`.
    pub opacity_jitter_pct: Option<Double>,
    /// `prVr` jitter, under `usePaintDynamics`.
    pub flow_jitter_pct: Option<Double>,
    /// `wtVr` jitter, under `usePaintDynamics`.
    pub wetness_jitter_pct: Option<Double>,
    /// `mxVr` jitter, under `usePaintDynamics`.
    pub mix_jitter_pct: Option<Double>,
    /// `Angl` of a sampled inner tip, in degrees.
    pub shape_angle_deg: Option<Double>,
    /// `Rndn` of a sampled inner tip, in percent.
    pub shape_roundness_pct: Option<Double>,
    /// `Cnt `, under `useScatter`.
    pub scatter_count: Option<Double>,
    /// `bothAxes`, under `useScatter`.
    pub scatter_both_axes: Option<bool>,
    /// `countDynamics` jitter, under `useScatter`.
    pub count_jitter_pct: Option<Double>,
    /// `minimumDiameter`, under `useTipDynamics`.
    pub minimum_diameter_pct: Option<Double>,
    /// `roundnessDynamics` jitter, under `useTipDynamics`.
    pub roundness_jitter_pct: Option<Double>,
    /// `minimumRoundness`, under `useTipDynamics`.
    pub minimum_roundness_pct: Option<Double>,
    /// `flipX` of the preset, under `useTipDynamics`.
    pub flip_x_jitter: Option<bool>,
    /// `flipY` of the preset, under `useTipDynamics`.
    pub flip_y_jitter: Option<bool>,
    /// `flipX` of a sampled inner tip.
    pub tip_flip_x: Option<bool>,
    /// `flipY` of a sampled inner tip.
    pub tip_flip_y: Option<bool>,
    /// `Txtr` > `Idnt`: the id of the texture's pattern record, under `useTexture`.
    pub texture_pattern_id: Option<S>,
    /// `Txtr` > `Nm  `, under `useTexture`.
    pub texture_pattern_name: Option<S>,
    /// `textureDepth`, under `useTexture`.
    pub texture_depth_pct: Option<Double>,
    /// `minimumDepth`, under `useTexture`.
    pub texture_minimum_depth_pct: Option<Double>,
    /// `textureScale`, under `useTexture`.
    pub texture_scale_pct: Option<Double>,
    /// `InvT`, under `useTexture`.
    pub texture_invert: Option<bool>,
    /// `TxtC`, under `useTexture`. An absent key stays absent: `false` has a meaning
    /// of its own.
    pub texture_each_tip: Option<bool>,
    /// The value id of `textureBlendMode`, under `useTexture`.
    pub texture_blend_mode: Option<S>,
    /// `textureDepthDynamics` jitter, under `useTexture`.
    pub texture_depth_jitter_pct: Option<Double>,
    /// `textureBrightness`, under `useTexture`.
    pub texture_brightness: Option<i64>,
    /// `textureContrast`, under `useTexture`.
    pub texture_contrast: Option<i64>,
    /// `dualBrush` > `useDualBrush`.
    pub use_dual_brush: bool,
    /// The `dualBrush` section, present exactly when `use_dual_brush` is set.
    pub dual: Option<DualBrush<S>>,
    /// `Wtdg`.
    pub wet_edges: bool,
    /// `Nose`.
    pub noise: bool,
    /// `Rpt `.
    pub buildup: bool,
    /// `useColorDynamics`, which governs the six fields below.
    pub use_color_dynamics: bool,
    /// `H   `, under `useColorDynamics`.
    pub color_hue_jitter_pct: Option<Double>,
    /// `Strt`, under `useColorDynamics`.
    pub color_saturation_jitter_pct: Option<Double>,
    /// `Brgh`, under `useColorDynamics`.
    pub color_brightness_jitter_pct: Option<Double>,
    /// `purity`, under `useColorDynamics`.
    pub color_purity_pct: Option<Double>,
    /// `clVr` jitter, under `useColorDynamics`.
    pub color_fg_bg_jitter_pct: Option<Double>,
    /// `colorDynamicsPerTip`, under `useColorDynamics`.
    pub color_dynamics_per_tip: Option<bool>,
    /// `useBrushPose`.
    pub use_brush_pose: bool,
    /// `brushProjection`.
    pub brush_projection: bool,
}

impl BrushDescriptor<Seq<char>> {
    /// No value for any key.
    pub open spec fn empty() -> BrushDescriptor<Seq<char>> {
        BrushDescriptor {
            spacing_pct: None,
            computed: None,
            diameter_px: None,
            scatter_amount_pct: None,
            size_jitter_pct: None,
            angle_control: None,
            angle_jitter_pct: None,
            pressure_size_control: None,
            pressure_opacity_control: None,
            opacity_jitter_pct: None,
            flow_jitter_pct: None,
            wetness_jitter_pct: None,
            mix_jitter_pct: None,
            shape_angle_deg: None,
            shape_roundness_pct: None,
            scatter_count: None,
            scatter_both_axes: None,
            count_jitter_pct: None,
            minimum_diameter_pct: None,
            roundness_jitter_pct: None,
            minimum_roundness_pct: None,
            flip_x_jitter: None,
            flip_y_jitter: None,
            tip_flip_x: None,
            tip_flip_y: None,
            texture_pattern_id: None,
            texture_pattern_name: None,
            texture_depth_pct: None,
            texture_minimum_depth_pct: None,
            texture_scale_pct: None,
            texture_invert: None,
            texture_each_tip: None,
            texture_blend_mode: None,
            texture_depth_jitter_pct: None,
            texture_brightness: None,
            texture_contrast: None,
            use_dual_brush: false,
            dual: None,
            wet_edges: false,
            noise: false,
            buildup: false,
            use_color_dynamics: false,
            color_hue_jitter_pct: None,
            color_saturation_jitter_pct: None,
            color_brightness_jitter_pct: None,
            color_purity_pct: None,
            color_fg_bg_jitter_pct: None,
            color_dynamics_per_tip: None,
            use_brush_pose: false,
            brush_projection: false,
        }
    }
}

impl View for BrushDescriptor {
    type V = BrushDescriptor<Seq<char>>;

    open spec fn view(&self) -> BrushDescriptor<Seq<char>> {
        BrushDescriptor {
            spacing_pct: self.spacing_pct,
            computed: self.computed,
            diameter_px: self.diameter_px,
            scatter_amount_pct: self.scatter_amount_pct,
            size_jitter_pct: self.size_jitter_pct,
            angle_control: self.angle_control,
            angle_jitter_pct: self.angle_jitter_pct,
            pressure_size_control: self.pressure_size_control,
            pressure_opacity_control: self.pressure_opacity_control,
            opacity_jitter_pct: self.opacity_jitter_pct,
            flow_jitter_pct: self.flow_jitter_pct,
            wetness_jitter_pct: self.wetness_jitter_pct,
            mix_jitter_pct: self.mix_jitter_pct,
            shape_angle_deg: self.shape_angle_deg,
            shape_roundness_pct: self.shape_roundness_pct,
            scatter_count: self.scatter_count,
            scatter_both_axes: self.scatter_both_axes,
            count_jitter_pct: self.count_jitter_pct,
            minimum_diameter_pct: self.minimum_diameter_pct,
            roundness_jitter_pct: self.roundness_jitter_pct,
            minimum_roundness_pct: self.minimum_roundness_pct,
            flip_x_jitter: self.flip_x_jitter,
            flip_y_jitter: self.flip_y_jitter,
            tip_flip_x: self.tip_flip_x,
            tip_flip_y: self.tip_flip_y,
            texture_pattern_id: text(self.texture_pattern_id),
            texture_pattern_name: text(self.texture_pattern_name),
            texture_depth_pct: self.texture_depth_pct,
            texture_minimum_depth_pct: self.texture_minimum_depth_pct,
            texture_scale_pct: self.texture_scale_pct,
            texture_invert: self.texture_invert,
            texture_each_tip: self.texture_each_tip,
            texture_blend_mode: text(self.texture_blend_mode),
            texture_depth_jitter_pct: self.texture_depth_jitter_pct,
            texture_brightness: self.texture_brightness,
            texture_contrast: self.texture_contrast,
            use_dual_brush: self.use_dual_brush,
            dual: match self.dual {
                Some(dual) => Some(dual@),
                None => None,
            },
            wet_edges: self.wet_edges,
            noise: self.noise,
            buildup: self.buildup,
            use_color_dynamics: self.use_color_dynamics,
            color_hue_jitter_pct: self.color_hue_jitter_pct,
            color_saturation_jitter_pct: self.color_saturation_jitter_pct,
            color_brightness_jitter_pct: self.color_brightness_jitter_pct,
            color_purity_pct: self.color_purity_pct,
            color_fg_bg_jitter_pct: self.color_fg_bg_jitter_pct,
            color_dynamics_per_tip: self.color_dynamics_per_tip,
            use_brush_pose: self.use_brush_pose,
            brush_projection: self.brush_projection,
        }
    }
}

impl Default for BrushDescriptor {
    /// No value for any key.
    fn default() -> (r: BrushDescriptor)
        ensures
            r@ == BrushDescriptor::<Seq<char>>::empty(),
    {
        BrushDescriptor {
            spacing_pct: None,
            computed: None,
            diameter_px: None,
            scatter_amount_pct: None,
            size_jitter_pct: None,
            angle_control: None,
            angle_jitter_pct: None,
            pressure_size_control: None,
            pressure_opacity_control: None,
            opacity_jitter_pct: None,
            flow_jitter_pct: None,
            wetness_jitter_pct: None,
            mix_jitter_pct: None,
            shape_angle_deg: None,
            shape_roundness_pct: None,
            scatter_count: None,
            scatter_both_axes: None,
            count_jitter_pct: None,
            minimum_diameter_pct: None,
            roundness_jitter_pct: None,
            minimum_roundness_pct: None,
            flip_x_jitter: None,
            flip_y_jitter: None,
            tip_flip_x: None,
            tip_flip_y: None,
            texture_pattern_id: None,
            texture_pattern_name: None,
            texture_depth_pct: None,
            texture_minimum_depth_pct: None,
            texture_scale_pct: None,
            texture_invert: None,
            texture_each_tip: None,
            texture_blend_mode: None,
            texture_depth_jitter_pct: None,
            texture_brightness: None,
            texture_contrast: None,
            use_dual_brush: false,
            dual: None,
            wet_edges: false,
            noise: false,
            buildup: false,
            use_color_dynamics: false,
            color_hue_jitter_pct: None,
            color_saturation_jitter_pct: None,
            color_brightness_jitter_pct: None,
            color_purity_pct: None,
            color_fg_bg_jitter_pct: None,
            color_dynamics_per_tip: None,
            use_brush_pose: false,
            brush_projection: false,
        }
    }
}

impl BrushDescriptor {
    /// A copy.
    pub fn duplicate(&self) -> (r: BrushDescriptor)
        ensures
            r@ == self@,
    {
        BrushDescriptor {
            texture_pattern_id: copy_text(&self.texture_pattern_id),
            texture_pattern_name: copy_text(&self.texture_pattern_name),
            texture_blend_mode: copy_text(&self.texture_blend_mode),
            dual: match &self.dual {
                Some(dual) => Some(dual.duplicate()),
                None => None,
            },
            ..*self
        }
    }
}

/// The pixels of a tip.
#[derive(Debug, Clone)]
pub struct TipBitmap {
    pub width: u32,
    pub height: u32,
    /// Bits per sample, 8 or 16.
    pub depth: u8,
    /// The samples row by row, 255 for full ink; 16-bit samples are big-endian pairs.
    pub data: Vec<u8>,
}

/// The model of a [`TipBitmap`].
pub struct TipView {
    pub width: u32,
    pub height: u32,
    pub depth: u8,
    pub data: Seq<u8>,
}

impl View for TipBitmap {
    type V = TipView;

    open spec fn view(&self) -> TipView {
        TipView { width: self.width, height: self.height, depth: self.depth, data: self.data@ }
    }
}

impl TipBitmap {
    /// A copy.
    pub fn duplicate(&self) -> (r: TipBitmap)
        ensures
            r@ == self@,
    {
        TipBitmap {
            width: self.width,
            height: self.height,
            depth: self.depth,
            data: copy_bytes(self.data.as_slice()),
        }
    }
}

/// A brush of a pack.
#[derive(Debug, Clone)]
pub struct AbrBrush {
    /// The tip's uuid, with a counter behind it from the second use on, or
    /// `brush_` and a number.
    pub id: String,
    /// The preset's name, or empty.
    pub name: String,
    pub tip: TipBitmap,
    /// The preset's dynamics, all absent where no preset belongs to the brush.
    pub descriptor: BrushDescriptor,
    /// `false` for every brush that was read from a file.
    pub synthesized: bool,
    /// The preset's place in the preset list, where one belongs to the brush.
    pub preset_index: Option<usize>,
}

/// The model of an [`AbrBrush`].
pub struct BrushView {
    pub id: Seq<char>,
    pub name: Seq<char>,
    pub tip: TipView,
    pub descriptor: BrushDescriptor<Seq<char>>,
    pub synthesized: bool,
    pub preset_index: Option<usize>,
}

impl View for AbrBrush {
    type V = BrushView;

    open spec fn view(&self) -> BrushView {
        BrushView {
            id: self.id@,
            name: self.name@,
            tip: self.tip@,
            descriptor: self.descriptor@,
            synthesized: self.synthesized,
            preset_index: self.preset_index,
        }
    }
}

/// A sampled tip that no brush uses.
#[derive(Debug, Clone)]
pub struct DroppedTipDetail {
    pub uuid: Option<String>,
    pub width: u32,
    pub height: u32,
    /// The names of the presets that use the tip as their second tip, each once, in
    /// the order of the preset list.
    pub owner_preset_names: Vec<String>,
    pub bitmap: TipBitmap,
}

/// The model of a [`DroppedTipDetail`].
pub struct DroppedTipView {
    pub uuid: Option<Seq<char>>,
    pub width: u32,
    pub height: u32,
    pub owner_preset_names: Seq<Seq<char>>,
    pub bitmap: TipView,
}

impl View for DroppedTipDetail {
    type V = DroppedTipView;

    open spec fn view(&self) -> DroppedTipView {
        DroppedTipView {
            uuid: text(self.uuid),
            width: self.width,
            height: self.height,
            owner_preset_names: views(self.owner_preset_names@),
            bitmap: self.bitmap@,
        }
    }
}

/// A preset whose tip uuid belongs to no tip of the file.
#[derive(Debug, Clone)]
pub struct SkippedPresetDetail {
    pub name: String,
    pub uuid: String,
}

/// The model of a [`SkippedPresetDetail`].
pub struct SkippedPresetView {
    pub name: Seq<char>,
    pub uuid: Seq<char>,
}

impl View for SkippedPresetDetail {
    type V = SkippedPresetView;

    open spec fn view(&self) -> SkippedPresetView {
        SkippedPresetView { name: self.name@, uuid: self.uuid@ }
    }
}

/// A pattern record whose header was read and whose pattern was not.
#[derive(Debug, Clone)]
pub struct DroppedPatternDetail {
    /// The record's number over all pattern blocks of the file.
    pub record_index: usize,
    pub id: String,
    /// The image mode in the header.
    pub mode: u32,
    pub reason: DroppedPatternReason,
}

/// The model of a [`DroppedPatternDetail`].
pub struct DroppedPatternView {
    pub record_index: nat,
    pub id: Seq<char>,
    pub mode: u32,
    pub reason: DroppedPatternReason,
}

impl View for DroppedPatternDetail {
    type V = DroppedPatternView;

    open spec fn view(&self) -> DroppedPatternView {
        DroppedPatternView {
            record_index: self.record_index as nat,
            id: self.id@,
            mode: self.mode,
            reason: self.reason,
        }
    }
}

/// A chunk of a pattern block whose header was not read.
#[derive(Debug, Clone, Copy, PartialEq, Eq, Structural)]
pub struct UnreadablePattChunk {
    /// The number of the pattern block in the file.
    pub block_index: usize,
    /// Where the chunk's length field stands in the block.
    pub offset: usize,
    /// The length in that field.
    pub declared_length: usize,
}

impl View for UnreadablePattChunk {
    type V = UnreadablePattChunk;

    open spec fn view(&self) -> UnreadablePattChunk {
        *self
    }
}

/// A preset with neither a sampled tip nor a computed one.
#[derive(Debug, Clone)]
pub struct UnsupportedTipPresetDetail {
    pub name: String,
    /// The preset's place in the preset list.
    pub preset_index: usize,
    /// Does the inner tip hold a `Shp ` key?
    pub has_shape_tip: bool,
    pub shape_tip_family: Option<ShapeTipFamily>,
    pub tip_shape: Option<TipShape>,
}

/// The model of an [`UnsupportedTipPresetDetail`].
pub struct UnsupportedTipView {
    pub name: Seq<char>,
    pub preset_index: nat,
    pub has_shape_tip: bool,
    pub shape_tip_family: Option<ShapeTipFamily>,
    pub tip_shape: Option<TipShape>,
}

impl View for UnsupportedTipPresetDetail {
    type V = UnsupportedTipView;

    open spec fn view(&self) -> UnsupportedTipView {
        UnsupportedTipView {
            name: self.name@,
            preset_index: self.preset_index as nat,
            has_shape_tip: self.has_shape_tip,
            shape_tip_family: self.shape_tip_family,
            tip_shape: self.tip_shape,
        }
    }
}

/// A preset with a procedural tip.
#[derive(Debug, Clone)]
pub struct ComputedPreset {
    pub name: String,
    /// The preset's dynamics; `descriptor.computed` is present.
    pub descriptor: BrushDescriptor,
    /// The preset's place in the preset list.
    pub preset_index: Option<usize>,
}

/// The model of a [`ComputedPreset`].
pub struct ComputedPresetView {
    pub name: Seq<char>,
    pub descriptor: BrushDescriptor<Seq<char>>,
    pub preset_index: Option<usize>,
}

impl View for ComputedPreset {
    type V = ComputedPresetView;

    open spec fn view(&self) -> ComputedPresetView {
        ComputedPresetView {
            name: self.name@,
            descriptor: self.descriptor@,
            preset_index: self.preset_index,
        }
    }
}

/// A texture pattern as one gray plane.
#[derive(Debug, Clone)]
pub struct AbrPattern {
    pub id: String,
    pub name: String,
    pub width: u32,
    pub height: u32,
    /// The image mode of the record: 1 grayscale, 2 indexed, 3 RGB.
    pub mode: u32,
    /// The luma of each pixel, row by row, `width * height` bytes.
    pub gray: Vec<u8>,
}

/// The model of an [`AbrPattern`].
pub struct PatternView {
    pub id: Seq<char>,
    pub name: Seq<char>,
    pub width: u32,
    pub height: u32,
    pub mode: u32,
    pub gray: Seq<u8>,
}

impl View for AbrPattern {
    type V = PatternView;

    open spec fn view(&self) -> PatternView {
        PatternView {
            id: self.id@,
            name: self.name@,
            width: self.width,
            height: self.height,
            mode: self.mode,
            gray: self.gray@,
        }
    }
}

/// A brush pack.
#[derive(Debug, Clone)]
pub struct AbrPack {
    pub version: AbrVersion,
    pub brushes: Vec<AbrBrush>,
    /// The number of presets that the file declares.
    ///
    /// In the block format that is the length of the preset list. Where presets name
    /// sampled tips it is at least `brushes.len()`; where none does, each sampled tip
    /// is a brush, and there may be more of them than presets. In an entry stream it
    /// is the entry count of the header.
    pub preset_count: usize,
    /// The bytes of the first `desc` block.
    pub raw_desc_block: Option<Vec<u8>>,
    pub computed_presets: Vec<ComputedPreset>,
    pub patterns: Vec<AbrPattern>,
    /// The length of `dropped_pattern_details`.
    pub dropped_pattern_count: usize,
    pub dropped_pattern_details: Vec<DroppedPatternDetail>,
    /// The length of `unreadable_patt_chunks`.
    pub unreadable_patt_chunk_count: usize,
    pub unreadable_patt_chunks: Vec<UnreadablePattChunk>,
    /// The length of `dropped_tip_details`.
    pub dropped_samp_count: usize,
    /// The length of `skipped_preset_details`.
    pub skipped_preset_count: usize,
    pub dropped_tip_details: Vec<DroppedTipDetail>,
    pub skipped_preset_details: Vec<SkippedPresetDetail>,
    /// The length of `unsupported_tip_presets`.
    pub unsupported_tip_count: usize,
    pub unsupported_tip_presets: Vec<UnsupportedTipPresetDetail>,
    /// Why the first `desc` block that could not be read could not.
    pub desc_parse_error: Option<String>,
}

/// The model of an [`AbrPack`]. The counts are the lengths of the lists.
pub struct PackView {
    pub version: AbrVersion,
    pub brushes: Seq<BrushView>,
    pub preset_count: nat,
    pub raw_desc_block: Option<Seq<u8>>,
    pub computed_presets: Seq<ComputedPresetView>,
    pub patterns: Seq<PatternView>,
    pub dropped_patterns: Seq<DroppedPatternView>,
    pub unreadable_patt_chunks: Seq<UnreadablePattChunk>,
    pub dropped_tips: Seq<DroppedTipView>,
    pub skipped_presets: Seq<SkippedPresetView>,
    pub unsupported_tips: Seq<UnsupportedTipView>,
    pub desc_parse_error: Option<Seq<char>>,
}

impl View for AbrPack {
    type V = PackView;

    open spec fn view(&self) -> PackView {
        PackView {
            version: self.version,
            brushes: views(self.brushes@),
            preset_count: self.preset_count as nat,
            raw_desc_block: match self.raw_desc_block {
                Some(bytes) => Some(bytes@),
                None => None,
            },
            computed_presets: views(self.computed_presets@),
            patterns: views(self.patterns@),
            dropped_patterns: views(self.dropped_pattern_details@),
            unreadable_patt_chunks: views(self.unreadable_patt_chunks@),
            dropped_tips: views(self.dropped_tip_details@),
            skipped_presets: views(self.skipped_preset_details@),
            unsupported_tips: views(self.unsupported_tip_presets@),
            desc_parse_error: text(self.desc_parse_error),
        }
    }
}

impl AbrPack {
    /// Each count is the length of the list that it counts.
    pub open spec fn counted(self) -> bool {
        &&& self.dropped_pattern_count == self.dropped_pattern_details@.len()
        &&& self.unreadable_patt_chunk_count == self.unreadable_patt_chunks@.len()
        &&& self.dropped_samp_count == self.dropped_tip_details@.len()
        &&& self.skipped_preset_count == self.skipped_preset_details@.len()
        &&& self.unsupported_tip_count == self.unsupported_tip_presets@.len()
    }
}

/// A pack of `version` with `brushes` and `preset_count`, and nothing else.
pub open spec fn bare_pack(
    version: AbrVersion,
    brushes: Seq<BrushView>,
    preset_count: nat,
) -> PackView {
    PackView {
        version,
        brushes,
        preset_count,
        raw_desc_block: None,
        computed_presets: seq![],
        patterns: seq![],
        dropped_patterns: seq![],
        unreadable_patt_chunks: seq![],
        dropped_tips: seq![],
        skipped_presets: seq![],
        unsupported_tips: seq![],
        desc_parse_error: None,
    }
}

impl Default for AbrPack {
    /// No brushes, no presets, nothing else, version 10.
    fn default() -> (r: AbrPack)
        ensures
            r@ == bare_pack(AbrVersion::V10, seq![], 0),
            r.counted(),
    {
        let r: AbrPack = AbrPack {
            version: AbrVersion::V10,
            brushes: Vec::new(),
            preset_count: 0,
            raw_desc_block: None,
            computed_presets: Vec::new(),
            patterns: Vec::new(),
            dropped_pattern_count: 0,
            dropped_pattern_details: Vec::new(),
            unreadable_patt_chunk_count: 0,
            unreadable_patt_chunks: Vec::new(),
            dropped_samp_count: 0,
            skipped_preset_count: 0,
            dropped_tip_details: Vec::new(),
            skipped_preset_details: Vec::new(),
            unsupported_tip_count: 0,
            unsupported_tip_presets: Vec::new(),
            desc_parse_error: None,
        };
        assert(views(r.brushes@) =~= seq![]);
        assert(views(r.computed_presets@) =~= seq![]);
        assert(views(r.patterns@) =~= seq![]);
        assert(views(r.dropped_pattern_details@) =~= seq![]);
        assert(views(r.unreadable_patt_chunks@) =~= seq![]);
        assert(views(r.dropped_tip_details@) =~= seq![]);
        assert(views(r.skipped_preset_details@) =~= seq![]);
        assert(views(r.unsupported_tip_presets@) =~= seq![]);
        r
    }
}

/// Why a pack could not be read.
#[derive(Debug)]
pub enum AbrError {
    /// The header was read and names this version, which is not supported.
    UnsupportedVersion(u16),
    InvalidHeader,
    MalformedBlock { offset: u64, reason: String },
    Decompression(String),
}

/// The model of an [`AbrError`].
pub enum AbrErrorView {
    UnsupportedVersion(u16),
    InvalidHeader,
    MalformedBlock { offset: u64, reason: Seq<char> },
    Decompression(Seq<char>),
}

impl View for AbrError {
    type V = AbrErrorView;

    open spec fn view(&self) -> AbrErrorView {
        match *self {
            AbrError::UnsupportedVersion(major) => AbrErrorView::UnsupportedVersion(major),
            AbrError::InvalidHeader => AbrErrorView::InvalidHeader,
            AbrError::MalformedBlock { offset, reason } => AbrErrorView::MalformedBlock {
                offset,
                reason: reason@,
            },
            AbrError::Decompression(reason) => AbrErrorView::Decompression(reason@),
        }
    }
}

impl AbrErrorView {
    /// The error in words.
    pub open spec fn message(self) -> Seq<char> {
        match self {
            AbrErrorView::UnsupportedVersion(major) => "unsupported ABR version "@ + decimal(
                major as nat,
            ) + ": the header reads fine, this version is not supported"@,
            AbrErrorView::InvalidHeader => "invalid or truncated ABR file header"@,
            AbrErrorView::MalformedBlock { offset, reason } => "malformed block at offset "@
                + decimal(offset as nat) + ": "@ + reason,
            AbrErrorView::Decompression(reason) => "decompression failed: "@ + reason,
        }
    }
}

impl AbrError {
    /// The error in words.
    pub fn message(&self) -> (r: String)
        ensures
            r@ == self@.message(),
    {
        match self {
            AbrError::UnsupportedVersion(major) => {
                let mut r: String = "unsupported ABR version ".to_owned();
                push_decimal(&mut r, *major as u64);
                r.append(": the header reads fine, this version is not supported");
                r
            },
            AbrError::InvalidHeader => "invalid or truncated ABR file header".to_owned(),
            AbrError::MalformedBlock { offset, reason } => {
                let mut r: String = "malformed block at offset ".to_owned();
                push_decimal(&mut r, *offset);
                r.append(": ");
                r.append(reason.as_str());
                r
            },
            AbrError::Decompression(reason) => {
                let mut r: String = "decompression failed: ".to_owned();
                r.append(reason.as_str());
                r
            },
        }
    }
}

} // verus!
