//! Brush presets: what the `desc` block of a pack says of each brush.
//!
//! The block holds a root object whose `Brsh` list has one object per preset. Of a
//! preset only the known items are kept. An item with an unknown key is read past; where
//! that fails, the object ends there and what was read of it stands.
use vstd::prelude::*;
use crate::abr::descriptor::{
    double_read, enum_read, flag_read, i32_read, id_from, id_read, item_head, object_head,
    read_double, read_enum, read_flag, read_i32, read_id, read_id_from, read_item_head,
    read_object_head, read_u32, read_unicode_string, read_unit_float, reads, skip_descriptor_value,
    skip_value, u32_read, unicode_from, unicode_read, unit_float_read, DescError, Read, TAG_BOOL,
    TAG_DOUB, TAG_ENUM, TAG_LONG, TAG_OBJC, TAG_TEXT, TAG_UNTF, TAG_VLLS,
};
use crate::abr::descriptor::{past, read_unicode_string_from};
use crate::abr::types::{
    BrushDescriptor, ComputedGeometry, DualBrush, ShapeTipFamily, TipShape,
};
use crate::support::bytes::{be_u16, fits, same_bytes, ByteReader};
use crate::support::double::Double;
use crate::support::text::{ascii, copy_text, text, utf8_lossy, utf8_lossy_text, views};

verus! {

/// How the reading of an object goes on after an item.
pub enum Flow<S> {
    /// With the next item.
    Next(S),
    /// Not at all: the object ends here.
    Stop(S),
    /// Not at all: the object cannot be read.
    Fail(DescError),
}

/// The flow that a step with result `out` stands for: `true` is to go on.
pub open spec fn flow<S>(out: Result<bool, DescError>, state: S) -> Flow<S> {
    match out {
        Ok(true) => Flow::Next(state),
        Ok(false) => Flow::Stop(state),
        Err(e) => Flow::Fail(e),
    }
}

/// The step's result, state and position are as `expected` says.
pub open spec fn steps<S>(
    before: ByteReader<'_>,
    then: ByteReader<'_>,
    out: Result<bool, DescError>,
    state: S,
    expected: (Flow<S>, nat),
) -> bool {
    &&& then.wf()
    &&& then.data == before.data
    &&& expected == (flow(out, state), then.pos as nat)
}

/// An unknown item: read past, or the object's end where that fails.
pub open spec fn skip_step<S>(d: Seq<u8>, p: nat, tag: u32, state: S) -> (Flow<S>, nat) {
    match skip_value(d, p, tag, 0) {
        (Ok(_), q) => (Flow::Next(state), q),
        (Err(_), q) => (Flow::Stop(state), q),
    }
}

fn skip_item(r: &mut ByteReader<'_>, tag: u32) -> (go_on: bool)
    requires
        old(r).wf(),
    ensures
        final(r).wf(),
        final(r).data == old(r).data,
        go_on == skip_value(old(r).data@, old(r).pos as nat, tag, 0).0 is Ok,
        final(r).pos as nat == skip_value(old(r).data@, old(r).pos as nat, tag, 0).1,
{
    match skip_descriptor_value(r, tag, 0) {
        Ok(_) => true,
        Err(_) => false,
    }
}

/// A dynamics object: what drives a property and how far it jitters.
#[derive(Debug, Clone, Copy, PartialEq, Eq, Structural)]
pub struct BrVr {
    /// `bVTy`
    pub control: Option<i32>,
    /// `jitter`
    pub jitter_pct: Option<Double>,
}

impl View for BrVr {
    type V = BrVr;

    open spec fn view(&self) -> BrVr {
        *self
    }
}

pub open spec fn brvr_step(d: Seq<u8>, p: nat, key: Seq<u8>, tag: u32, b: BrVr) -> (
    Flow<BrVr>,
    nat,
) {
    if key == ascii("bVTy") && tag == TAG_LONG {
        match i32_read(d, p) {
            (Ok(v), q) => (Flow::Next(BrVr { control: Some(v), ..b }), q),
            (Err(e), q) => (Flow::Fail(e), q),
        }
    } else if key == ascii("jitter") && tag == TAG_UNTF {
        match unit_float_read(d, p) {
            (Ok(v), q) => (Flow::Next(BrVr { jitter_pct: Some(v), ..b }), q),
            (Err(e), q) => (Flow::Fail(e), q),
        }
    } else {
        skip_step(d, p, tag, b)
    }
}

pub open spec fn brvr_items(d: Seq<u8>, p: nat, n: nat, b: BrVr) -> Read<BrVr>
    decreases n,
{
    if n == 0 {
        (Ok(b), p)
    } else {
        match item_head(d, p) {
            (Ok((key, tag)), q) => match brvr_step(d, q, key, tag, b) {
                (Flow::Next(b), q) => brvr_items(d, q, (n - 1) as nat, b),
                (Flow::Stop(b), q) => (Ok(b), q),
                (Flow::Fail(e), q) => (Err(e), q),
            },
            (Err(e), q) => (Err(e), q),
        }
    }
}

/// A dynamics object. The last of several equal keys counts.
#[verifier::opaque]
pub open spec fn brvr_read(d: Seq<u8>, p: nat) -> Read<BrVr> {
    match object_head(d, p) {
        (Ok((_, count)), q) => brvr_items(
            d,
            q,
            count as nat,
            BrVr { control: None, jitter_pct: None },
        ),
        (Err(e), q) => (Err(e), q),
    }
}

fn read_brvr_item(r: &mut ByteReader<'_>, key: &[u8], tag: u32, b: &mut BrVr) -> (o: Result<
    bool,
    DescError,
>)
    requires
        old(r).wf(),
    ensures
        steps(
            *old(r),
            *final(r),
            o,
            *final(b),
            brvr_step(old(r).data@, old(r).pos as nat, key@, tag, *old(b)),
        ),
{
    if same_bytes(key, "bVTy".as_bytes()) && tag == TAG_LONG {
        b.control = Some(read_i32(r)?);
    } else if same_bytes(key, "jitter".as_bytes()) && tag == TAG_UNTF {
        b.jitter_pct = Some(read_unit_float(r)?);
    } else {
        return Ok(skip_item(r, tag));
    }
    Ok(true)
}

fn parse_brvr(r: &mut ByteReader<'_>) -> (o: Result<BrVr, DescError>)
    requires
        old(r).wf(),
    ensures
        reads(*old(r), *final(r), o, brvr_read(old(r).data@, old(r).pos as nat)),
{
    reveal(brvr_read);
    let (_class, count) = read_object_head(r)?;
    let mut b: BrVr = BrVr { control: None, jitter_pct: None };
    let mut i: u32 = 0;
    while i < count
        invariant
            i <= count,
            r.wf(),
            r.data == old(r).data,
            brvr_read(old(r).data@, old(r).pos as nat) == brvr_items(
                r.data@,
                r.pos as nat,
                (count - i) as nat,
                b,
            ),
        decreases count - i,
    {
        let (key, tag) = read_item_head(r)?;
        if !read_brvr_item(r, key, tag, &mut b)? {
            return Ok(b);
        }
        i += 1;
    }
    Ok(b)
}

/// The texture of a preset: its pattern's name and id.
#[derive(Debug, Clone)]
pub struct Txtr<S = String> {
    /// `Nm  `
    pub name: Option<S>,
    /// `Idnt`
    pub id: Option<S>,
}

impl View for Txtr {
    type V = Txtr<Seq<char>>;

    open spec fn view(&self) -> Txtr<Seq<char>> {
        Txtr { name: text(self.name), id: text(self.id) }
    }
}

pub open spec fn txtr_step(
    d: Seq<u8>,
    p: nat,
    key: Seq<u8>,
    tag: u32,
    t: Txtr<Seq<char>>,
) -> (Flow<Txtr<Seq<char>>>, nat) {
    if key == ascii("Nm  ") && tag == TAG_TEXT {
        match unicode_read(d, p) {
            (Ok(v), q) => (Flow::Next(Txtr { name: Some(v), ..t }), q),
            (Err(e), q) => (Flow::Fail(e), q),
        }
    } else if key == ascii("Idnt") && tag == TAG_TEXT {
        match unicode_read(d, p) {
            (Ok(v), q) => (Flow::Next(Txtr { id: Some(v), ..t }), q),
            (Err(e), q) => (Flow::Fail(e), q),
        }
    } else {
        skip_step(d, p, tag, t)
    }
}

pub open spec fn txtr_items(d: Seq<u8>, p: nat, n: nat, t: Txtr<Seq<char>>) -> Read<
    Txtr<Seq<char>>,
>
    decreases n,
{
    if n == 0 {
        (Ok(t), p)
    } else {
        match item_head(d, p) {
            (Ok((key, tag)), q) => match txtr_step(d, q, key, tag, t) {
                (Flow::Next(t), q) => txtr_items(d, q, (n - 1) as nat, t),
                (Flow::Stop(t), q) => (Ok(t), q),
                (Flow::Fail(e), q) => (Err(e), q),
            },
            (Err(e), q) => (Err(e), q),
        }
    }
}

/// A texture object. The last of several equal keys counts.
#[verifier::opaque]
pub open spec fn txtr_read(d: Seq<u8>, p: nat) -> Read<Txtr<Seq<char>>> {
    match object_head(d, p) {
        (Ok((_, count)), q) => txtr_items(d, q, count as nat, Txtr { name: None, id: None }),
        (Err(e), q) => (Err(e), q),
    }
}

fn read_txtr_item(r: &mut ByteReader<'_>, key: &[u8], tag: u32, t: &mut Txtr) -> (o: Result<
    bool,
    DescError,
>)
    requires
        old(r).wf(),
    ensures
        steps(
            *old(r),
            *final(r),
            o,
            final(t)@,
            txtr_step(old(r).data@, old(r).pos as nat, key@, tag, old(t)@),
        ),
{
    if same_bytes(key, "Nm  ".as_bytes()) && tag == TAG_TEXT {
        t.name = Some(read_unicode_string(r)?);
    } else if same_bytes(key, "Idnt".as_bytes()) && tag == TAG_TEXT {
        t.id = Some(read_unicode_string(r)?);
    } else {
        return Ok(skip_item(r, tag));
    }
    Ok(true)
}

fn parse_txtr(r: &mut ByteReader<'_>) -> (o: Result<Txtr, DescError>)
    requires
        old(r).wf(),
    ensures
        reads(*old(r), *final(r), o, txtr_read(old(r).data@, old(r).pos as nat)),
{
    reveal(txtr_read);
    let (_class, count) = read_object_head(r)?;
    let mut t: Txtr = Txtr { name: None, id: None };
    let mut i: u32 = 0;
    while i < count
        invariant
            i <= count,
            r.wf(),
            r.data == old(r).data,
            txtr_read(old(r).data@, old(r).pos as nat) == txtr_items(
                r.data@,
                r.pos as nat,
                (count - i) as nat,
                t@,
            ),
        decreases count - i,
    {
        let (key, tag) = read_item_head(r)?;
        if !read_txtr_item(r, key, tag, &mut t)? {
            return Ok(t);
        }
        i += 1;
    }
    Ok(t)
}

/// The shape that a `Shp ` number stands for within its family.
pub open spec fn tip_shape_of(family: Option<ShapeTipFamily>, index: i32) -> Option<TipShape> {
    match family {
        Some(ShapeTipFamily::Bristle) => match index {
            0 => Some(TipShape::RoundPoint),
            1 => Some(TipShape::RoundBlunt),
            2 => Some(TipShape::RoundCurve),
            3 => Some(TipShape::RoundAngle),
            4 => Some(TipShape::RoundFan),
            5 => Some(TipShape::FlatPoint),
            6 => Some(TipShape::FlatBlunt),
            7 => Some(TipShape::FlatCurve),
            8 => Some(TipShape::FlatAngle),
            9 => Some(TipShape::FlatFan),
            _ => None,
        },
        Some(ShapeTipFamily::Erodible) => match index {
            0 => Some(TipShape::ErodiblePoint),
            1 => Some(TipShape::ErodibleFlat),
            2 => Some(TipShape::ErodibleRound),
            3 => Some(TipShape::ErodibleSquare),
            4 => Some(TipShape::ErodibleTriangle),
            5 => Some(TipShape::AirbrushTip),
            _ => None,
        },
        None => None,
    }
}

/// The shape that a `Shp ` number stands for within its family.
pub fn tip_shape_for(family: Option<ShapeTipFamily>, index: i32) -> (r: Option<TipShape>)
    ensures
        r == tip_shape_of(family, index),
{
    match family {
        Some(ShapeTipFamily::Bristle) => match index {
            0 => Some(TipShape::RoundPoint),
            1 => Some(TipShape::RoundBlunt),
            2 => Some(TipShape::RoundCurve),
            3 => Some(TipShape::RoundAngle),
            4 => Some(TipShape::RoundFan),
            5 => Some(TipShape::FlatPoint),
            6 => Some(TipShape::FlatBlunt),
            7 => Some(TipShape::FlatCurve),
            8 => Some(TipShape::FlatAngle),
            9 => Some(TipShape::FlatFan),
            _ => None,
        },
        Some(ShapeTipFamily::Erodible) => match index {
            0 => Some(TipShape::ErodiblePoint),
            1 => Some(TipShape::ErodibleFlat),
            2 => Some(TipShape::ErodibleRound),
            3 => Some(TipShape::ErodibleSquare),
            4 => Some(TipShape::ErodibleTriangle),
            5 => Some(TipShape::AirbrushTip),
            _ => None,
        },
        None => None,
    }
}

/// The tip object of a preset or of its dual brush.
#[derive(Debug, Clone)]
pub struct InnerBrush<S = String> {
    /// `sampledData`
    pub uuid: Option<S>,
    /// `Spcn`
    pub spacing_pct: Option<Double>,
    /// Present exactly when the class is `computedBrush`.
    pub computed: Option<ComputedGeometry>,
    /// `Dmtr`
    pub diameter_px: Option<Double>,
    /// `Angl`, of a tip that is not computed.
    pub sampled_angle_deg: Option<Double>,
    /// `Rndn`, of a tip that is not computed.
    pub sampled_roundness_pct: Option<Double>,
    /// `flipX`, of a tip that is not computed.
    pub sampled_flip_x: Option<bool>,
    /// `flipY`, of a tip that is not computed.
    pub sampled_flip_y: Option<bool>,
    /// Is there a `Shp ` key?
    pub has_shape_tip: bool,
    /// The family that the class stands for, where there is a `Shp ` key.
    pub shape_tip_family: Option<ShapeTipFamily>,
    /// The shape that a `long` under the `Shp ` key stands for.
    pub tip_shape: Option<TipShape>,
}

impl View for InnerBrush {
    type V = InnerBrush<Seq<char>>;

    open spec fn view(&self) -> InnerBrush<Seq<char>> {
        InnerBrush {
            uuid: text(self.uuid),
            spacing_pct: self.spacing_pct,
            computed: self.computed,
            diameter_px: self.diameter_px,
            sampled_angle_deg: self.sampled_angle_deg,
            sampled_roundness_pct: self.sampled_roundness_pct,
            sampled_flip_x: self.sampled_flip_x,
            sampled_flip_y: self.sampled_flip_y,
            has_shape_tip: self.has_shape_tip,
            shape_tip_family: self.shape_tip_family,
            tip_shape: self.tip_shape,
        }
    }
}

/// A tip object with no items, computed or not.
pub open spec fn empty_tip(computed: bool) -> InnerBrush<Seq<char>> {
    InnerBrush {
        uuid: None,
        spacing_pct: None,
        computed: if computed {
            Some(ComputedGeometry::empty())
        } else {
            None
        },
        diameter_px: None,
        sampled_angle_deg: None,
        sampled_roundness_pct: None,
        sampled_flip_x: None,
        sampled_flip_y: None,
        has_shape_tip: false,
        shape_tip_family: None,
        tip_shape: None,
    }
}

fn new_tip(computed: bool) -> (r: InnerBrush)
    ensures
        r@ == empty_tip(computed),
{
    InnerBrush {
        uuid: None,
        spacing_pct: None,
        computed: if computed {
            Some(ComputedGeometry::default())
        } else {
            None
        },
        diameter_px: None,
        sampled_angle_deg: None,
        sampled_roundness_pct: None,
        sampled_flip_x: None,
        sampled_flip_y: None,
        has_shape_tip: false,
        shape_tip_family: None,
        tip_shape: None,
    }
}

/// The family that a class id stands for.
pub open spec fn family_of(class: Seq<u8>) -> Option<ShapeTipFamily> {
    if class == ascii("dBrush") {
        Some(ShapeTipFamily::Bristle)
    } else if class == ascii("dTips") {
        Some(ShapeTipFamily::Erodible)
    } else {
        None
    }
}

/// A number of the tip's geometry. A computed tip has a hardness; the angle and
/// roundness of other tips are kept apart from a computed tip's geometry.
pub enum GeometryKey {
    /// `Dmtr`
    Diameter,
    /// `Hrdn`
    Hardness,
    /// `Angl`
    Angle,
    /// `Rndn`
    Roundness,
}

pub open spec fn geometry_of(key: Seq<u8>, computed: bool) -> Option<GeometryKey> {
    if key == ascii("Dmtr") {
        Some(GeometryKey::Diameter)
    } else if computed && key == ascii("Hrdn") {
        Some(GeometryKey::Hardness)
    } else if key == ascii("Angl") {
        Some(GeometryKey::Angle)
    } else if key == ascii("Rndn") {
        Some(GeometryKey::Roundness)
    } else {
        None
    }
}

fn geometry_key(key: &[u8], computed: bool) -> (r: Option<GeometryKey>)
    ensures
        r == geometry_of(key@, computed),
{
    if same_bytes(key, "Dmtr".as_bytes()) {
        Some(GeometryKey::Diameter)
    } else if computed && same_bytes(key, "Hrdn".as_bytes()) {
        Some(GeometryKey::Hardness)
    } else if same_bytes(key, "Angl".as_bytes()) {
        Some(GeometryKey::Angle)
    } else if same_bytes(key, "Rndn".as_bytes()) {
        Some(GeometryKey::Roundness)
    } else {
        None
    }
}

pub open spec fn with_geometry(t: InnerBrush<Seq<char>>, key: GeometryKey, v: Double) -> InnerBrush<
    Seq<char>,
> {
    match t.computed {
        Some(g) => match key {
            GeometryKey::Diameter => InnerBrush {
                computed: Some(ComputedGeometry { diameter_px: Some(v), ..g }),
                diameter_px: Some(v),
                ..t
            },
            GeometryKey::Hardness => InnerBrush {
                computed: Some(ComputedGeometry { hardness_pct: Some(v), ..g }),
                ..t
            },
            GeometryKey::Angle => InnerBrush {
                computed: Some(ComputedGeometry { angle_deg: Some(v), ..g }),
                ..t
            },
            GeometryKey::Roundness => InnerBrush {
                computed: Some(ComputedGeometry { roundness_pct: Some(v), ..g }),
                ..t
            },
        },
        None => match key {
            GeometryKey::Diameter => InnerBrush { diameter_px: Some(v), ..t },
            GeometryKey::Hardness => t,
            GeometryKey::Angle => InnerBrush { sampled_angle_deg: Some(v), ..t },
            GeometryKey::Roundness => InnerBrush { sampled_roundness_pct: Some(v), ..t },
        },
    }
}

fn set_geometry(t: &mut InnerBrush, key: GeometryKey, v: Double)
    ensures
        final(t)@ == with_geometry(old(t)@, key, v),
{
    match t.computed {
        Some(g) => match key {
            GeometryKey::Diameter => {
                t.computed = Some(ComputedGeometry { diameter_px: Some(v), ..g });
                t.diameter_px = Some(v);
            },
            GeometryKey::Hardness => {
                t.computed = Some(ComputedGeometry { hardness_pct: Some(v), ..g });
            },
            GeometryKey::Angle => {
                t.computed = Some(ComputedGeometry { angle_deg: Some(v), ..g });
            },
            GeometryKey::Roundness => {
                t.computed = Some(ComputedGeometry { roundness_pct: Some(v), ..g });
            },
        },
        None => match key {
            GeometryKey::Diameter => {
                t.diameter_px = Some(v);
            },
            GeometryKey::Hardness => {},
            GeometryKey::Angle => {
                t.sampled_angle_deg = Some(v);
            },
            GeometryKey::Roundness => {
                t.sampled_roundness_pct = Some(v);
            },
        },
    }
}

/// A `Shp ` item. Its number counts where it is a `long`; where that number is cut off,
/// the object ends.
pub open spec fn shape_step(
    d: Seq<u8>,
    p: nat,
    family: Option<ShapeTipFamily>,
    tag: u32,
    t: InnerBrush<Seq<char>>,
) -> (Flow<InnerBrush<Seq<char>>>, nat) {
    let t = InnerBrush { has_shape_tip: true, shape_tip_family: family, ..t };
    if tag == TAG_LONG {
        match i32_read(d, p) {
            (Ok(index), q) => (
                Flow::Next(InnerBrush { tip_shape: tip_shape_of(family, index), ..t }),
                q,
            ),
            (Err(_), q) => (Flow::Stop(t), q),
        }
    } else {
        skip_step(d, p, tag, t)
    }
}

#[verifier::opaque]
pub open spec fn tip_step(
    d: Seq<u8>,
    p: nat,
    family: Option<ShapeTipFamily>,
    key: Seq<u8>,
    tag: u32,
    t: InnerBrush<Seq<char>>,
) -> (Flow<InnerBrush<Seq<char>>>, nat) {
    if key == ascii("sampledData") && tag == TAG_TEXT {
        match unicode_read(d, p) {
            (Ok(v), q) => (Flow::Next(InnerBrush { uuid: Some(v), ..t }), q),
            (Err(e), q) => (Flow::Fail(e), q),
        }
    } else if key == ascii("Spcn") && tag == TAG_UNTF {
        match unit_float_read(d, p) {
            (Ok(v), q) => (Flow::Next(InnerBrush { spacing_pct: Some(v), ..t }), q),
            (Err(e), q) => (Flow::Fail(e), q),
        }
    } else if tag == TAG_UNTF && geometry_of(key, t.computed is Some) is Some {
        match unit_float_read(d, p) {
            (Ok(v), q) => (
                Flow::Next(with_geometry(t, geometry_of(key, t.computed is Some)->0, v)),
                q,
            ),
            (Err(e), q) => (Flow::Fail(e), q),
        }
    } else if t.computed is None && tag == TAG_BOOL && key == ascii("flipX") {
        match flag_read(d, p) {
            (Ok(v), q) => (Flow::Next(InnerBrush { sampled_flip_x: Some(v), ..t }), q),
            (Err(e), q) => (Flow::Fail(e), q),
        }
    } else if t.computed is None && tag == TAG_BOOL && key == ascii("flipY") {
        match flag_read(d, p) {
            (Ok(v), q) => (Flow::Next(InnerBrush { sampled_flip_y: Some(v), ..t }), q),
            (Err(e), q) => (Flow::Fail(e), q),
        }
    } else if key == ascii("Shp ") {
        shape_step(d, p, family, tag, t)
    } else {
        skip_step(d, p, tag, t)
    }
}

pub open spec fn tip_items(
    d: Seq<u8>,
    p: nat,
    n: nat,
    family: Option<ShapeTipFamily>,
    t: InnerBrush<Seq<char>>,
) -> Read<InnerBrush<Seq<char>>>
    decreases n,
{
    if n == 0 {
        (Ok(t), p)
    } else {
        match item_head(d, p) {
            (Ok((key, tag)), q) => match tip_step(d, q, family, key, tag, t) {
                (Flow::Next(t), q) => tip_items(d, q, (n - 1) as nat, family, t),
                (Flow::Stop(t), q) => (Ok(t), q),
                (Flow::Fail(e), q) => (Err(e), q),
            },
            (Err(e), q) => (Err(e), q),
        }
    }
}

/// A tip object. The last of several equal keys counts.
#[verifier::opaque]
pub open spec fn tip_read(d: Seq<u8>, p: nat) -> Read<InnerBrush<Seq<char>>> {
    match object_head(d, p) {
        (Ok((class, count)), q) => tip_items(
            d,
            q,
            count as nat,
            family_of(class),
            empty_tip(class == ascii("computedBrush")),
        ),
        (Err(e), q) => (Err(e), q),
    }
}

fn read_tip_item(
    r: &mut ByteReader<'_>,
    family: Option<ShapeTipFamily>,
    key: &[u8],
    tag: u32,
    t: &mut InnerBrush,
) -> (o: Result<bool, DescError>)
    requires
        old(r).wf(),
    ensures
        steps(
            *old(r),
            *final(r),
            o,
            final(t)@,
            tip_step(old(r).data@, old(r).pos as nat, family, key@, tag, old(t)@),
        ),
{
    reveal(tip_step);
    let computed: bool = t.computed.is_some();
    if same_bytes(key, "sampledData".as_bytes()) && tag == TAG_TEXT {
        t.uuid = Some(read_unicode_string(r)?);
        return Ok(true);
    }
    if same_bytes(key, "Spcn".as_bytes()) && tag == TAG_UNTF {
        t.spacing_pct = Some(read_unit_float(r)?);
        return Ok(true);
    }
    if tag == TAG_UNTF {
        if let Some(field) = geometry_key(key, computed) {
            let v: Double = read_unit_float(r)?;
            set_geometry(t, field, v);
            return Ok(true);
        }
    }
    if !computed && tag == TAG_BOOL && same_bytes(key, "flipX".as_bytes()) {
        t.sampled_flip_x = Some(read_flag(r)?);
        return Ok(true);
    }
    if !computed && tag == TAG_BOOL && same_bytes(key, "flipY".as_bytes()) {
        t.sampled_flip_y = Some(read_flag(r)?);
        return Ok(true);
    }
    if same_bytes(key, "Shp ".as_bytes()) {
        t.has_shape_tip = true;
        t.shape_tip_family = family;
        if tag == TAG_LONG {
            return match read_i32(r) {
                Ok(index) => {
                    t.tip_shape = tip_shape_for(family, index);
                    Ok(true)
                },
                Err(_) => Ok(false),
            };
        }
    }
    Ok(skip_item(r, tag))
}

fn parse_inner_brush(r: &mut ByteReader<'_>) -> (o: Result<InnerBrush, DescError>)
    requires
        old(r).wf(),
    ensures
        reads(*old(r), *final(r), o, tip_read(old(r).data@, old(r).pos as nat)),
{
    reveal(tip_read);
    let (class, count) = read_object_head(r)?;
    let family: Option<ShapeTipFamily> = if same_bytes(class, "dBrush".as_bytes()) {
        Some(ShapeTipFamily::Bristle)
    } else if same_bytes(class, "dTips".as_bytes()) {
        Some(ShapeTipFamily::Erodible)
    } else {
        None
    };
    let mut t: InnerBrush = new_tip(same_bytes(class, "computedBrush".as_bytes()));
    let mut i: u32 = 0;
    while i < count
        invariant
            i <= count,
            r.wf(),
            r.data == old(r).data,
            tip_read(old(r).data@, old(r).pos as nat) == tip_items(
                r.data@,
                r.pos as nat,
                (count - i) as nat,
                family,
                t@,
            ),
        decreases count - i,
    {
        let (key, tag) = read_item_head(r)?;
        if !read_tip_item(r, family, key, tag, &mut t)? {
            return Ok(t);
        }
        i += 1;
    }
    Ok(t)
}

/// What a dual brush object has said so far: its switch and its section.
pub type DualState = (bool, DualBrush<Seq<char>>);

/// The section with its tip replaced by `t`.
pub open spec fn with_tip(s: DualBrush<Seq<char>>, t: InnerBrush<Seq<char>>) -> DualBrush<
    Seq<char>,
> {
    DualBrush {
        uuid: t.uuid,
        spacing_pct: t.spacing_pct,
        computed: t.computed,
        diameter_px: t.diameter_px,
        shape_angle_deg: t.sampled_angle_deg,
        shape_roundness_pct: t.sampled_roundness_pct,
        tip_flip_x: t.sampled_flip_x,
        tip_flip_y: t.sampled_flip_y,
        ..s
    }
}

#[verifier::opaque]
pub open spec fn dual_step(d: Seq<u8>, p: nat, key: Seq<u8>, tag: u32, s: DualState) -> (
    Flow<DualState>,
    nat,
) {
    if key == ascii("useDualBrush") && tag == TAG_BOOL {
        match flag_read(d, p) {
            (Ok(v), q) => (Flow::Next((v, s.1)), q),
            (Err(e), q) => (Flow::Fail(e), q),
        }
    } else if key == ascii("Brsh") && tag == TAG_OBJC {
        match tip_read(d, p) {
            (Ok(t), q) => (Flow::Next((s.0, with_tip(s.1, t))), q),
            (Err(e), q) => (Flow::Fail(e), q),
        }
    } else if key == ascii("useScatter") && tag == TAG_BOOL {
        match flag_read(d, p) {
            (Ok(v), q) => (Flow::Next((s.0, DualBrush { use_scatter: v, ..s.1 })), q),
            (Err(e), q) => (Flow::Fail(e), q),
        }
    } else if key == ascii("scatterDynamics") && tag == TAG_OBJC {
        match brvr_read(d, p) {
            (Ok(b), q) => (
                Flow::Next((s.0, DualBrush { scatter_amount_pct: b.jitter_pct, ..s.1 })),
                q,
            ),
            (Err(e), q) => (Flow::Fail(e), q),
        }
    } else if key == ascii("countDynamics") && tag == TAG_OBJC {
        match brvr_read(d, p) {
            (Ok(b), q) => (
                Flow::Next((s.0, DualBrush { count_jitter_pct: b.jitter_pct, ..s.1 })),
                q,
            ),
            (Err(e), q) => (Flow::Fail(e), q),
        }
    } else if key == ascii("Cnt ") && tag == TAG_DOUB {
        match double_read(d, p) {
            (Ok(v), q) => (Flow::Next((s.0, DualBrush { scatter_count: Some(v), ..s.1 })), q),
            (Err(e), q) => (Flow::Fail(e), q),
        }
    } else if key == ascii("bothAxes") && tag == TAG_BOOL {
        match flag_read(d, p) {
            (Ok(v), q) => (Flow::Next((s.0, DualBrush { scatter_both_axes: Some(v), ..s.1 })), q),
            (Err(e), q) => (Flow::Fail(e), q),
        }
    } else if key == ascii("Spcn") && tag == TAG_UNTF {
        match unit_float_read(d, p) {
            (Ok(v), q) => (
                Flow::Next((s.0, DualBrush { scatter_spacing_pct: Some(v), ..s.1 })),
                q,
            ),
            (Err(e), q) => (Flow::Fail(e), q),
        }
    } else if key == ascii("BlnM") && tag == TAG_ENUM {
        match enum_read(d, p) {
            (Ok((_, v)), q) => (
                Flow::Next((s.0, DualBrush { blend_mode: Some(utf8_lossy_text(v)), ..s.1 })),
                q,
            ),
            (Err(e), q) => (Flow::Fail(e), q),
        }
    } else if key == ascii("Flip") && tag == TAG_BOOL {
        match flag_read(d, p) {
            (Ok(v), q) => (Flow::Next((s.0, DualBrush { flip: Some(v), ..s.1 })), q),
            (Err(e), q) => (Flow::Fail(e), q),
        }
    } else {
        skip_step(d, p, tag, s)
    }
}

pub open spec fn dual_items(d: Seq<u8>, p: nat, n: nat, s: DualState) -> Read<DualState>
    decreases n,
{
    if n == 0 {
        (Ok(s), p)
    } else {
        match item_head(d, p) {
            (Ok((key, tag)), q) => match dual_step(d, q, key, tag, s) {
                (Flow::Next(s), q) => dual_items(d, q, (n - 1) as nat, s),
                (Flow::Stop(s), q) => (Ok(s), q),
                (Flow::Fail(e), q) => (Err(e), q),
            },
            (Err(e), q) => (Err(e), q),
        }
    }
}

/// The section as its switches let it stand: no scatter without `useScatter`, no uuid
/// without `useDualBrush`.
pub open spec fn settled_dual(s: DualState) -> DualState {
    (
        s.0,
        DualBrush {
            uuid: gate(s.0, s.1.uuid),
            scatter_amount_pct: gate(s.1.use_scatter, s.1.scatter_amount_pct),
            scatter_count: gate(s.1.use_scatter, s.1.scatter_count),
            scatter_both_axes: gate(s.1.use_scatter, s.1.scatter_both_axes),
            count_jitter_pct: gate(s.1.use_scatter, s.1.count_jitter_pct),
            ..s.1
        },
    )
}

/// A dual brush object. The last of several equal keys counts.
#[verifier::opaque]
pub open spec fn dual_read(d: Seq<u8>, p: nat) -> Read<DualState> {
    match object_head(d, p) {
        (Ok((_, count)), q) => match dual_items(d, q, count as nat, (false, DualBrush::empty())) {
            (Ok(s), q) => (Ok(settled_dual(s)), q),
            (Err(e), q) => (Err(e), q),
        },
        (Err(e), q) => (Err(e), q),
    }
}

fn set_dual_tip(s: &mut DualBrush, t: InnerBrush)
    ensures
        final(s)@ == with_tip(old(s)@, t@),
{
    s.uuid = t.uuid;
    s.spacing_pct = t.spacing_pct;
    s.computed = t.computed;
    s.diameter_px = t.diameter_px;
    s.shape_angle_deg = t.sampled_angle_deg;
    s.shape_roundness_pct = t.sampled_roundness_pct;
    s.tip_flip_x = t.sampled_flip_x;
    s.tip_flip_y = t.sampled_flip_y;
}

fn read_dual_item(
    r: &mut ByteReader<'_>,
    key: &[u8],
    tag: u32,
    on: &mut bool,
    s: &mut DualBrush,
) -> (o: Result<bool, DescError>)
    requires
        old(r).wf(),
    ensures
        steps(
            *old(r),
            *final(r),
            o,
            (*final(on), final(s)@),
            dual_step(old(r).data@, old(r).pos as nat, key@, tag, (*old(on), old(s)@)),
        ),
{
    reveal(dual_step);
    if same_bytes(key, "useDualBrush".as_bytes()) && tag == TAG_BOOL {
        *on = read_flag(r)?;
    } else if same_bytes(key, "Brsh".as_bytes()) && tag == TAG_OBJC {
        let t: InnerBrush = parse_inner_brush(r)?;
        set_dual_tip(s, t);
    } else if same_bytes(key, "useScatter".as_bytes()) && tag == TAG_BOOL {
        s.use_scatter = read_flag(r)?;
    } else if same_bytes(key, "scatterDynamics".as_bytes()) && tag == TAG_OBJC {
        let b: BrVr = parse_brvr(r)?;
        s.scatter_amount_pct = b.jitter_pct;
    } else if same_bytes(key, "countDynamics".as_bytes()) && tag == TAG_OBJC {
        let b: BrVr = parse_brvr(r)?;
        s.count_jitter_pct = b.jitter_pct;
    } else if same_bytes(key, "Cnt ".as_bytes()) && tag == TAG_DOUB {
        s.scatter_count = Some(read_double(r)?);
    } else if same_bytes(key, "bothAxes".as_bytes()) && tag == TAG_BOOL {
        s.scatter_both_axes = Some(read_flag(r)?);
    } else if same_bytes(key, "Spcn".as_bytes()) && tag == TAG_UNTF {
        s.scatter_spacing_pct = Some(read_unit_float(r)?);
    } else if same_bytes(key, "BlnM".as_bytes()) && tag == TAG_ENUM {
        let (_kind, value) = read_enum(r)?;
        s.blend_mode = Some(utf8_lossy(value));
    } else if same_bytes(key, "Flip".as_bytes()) && tag == TAG_BOOL {
        s.flip = Some(read_flag(r)?);
    } else {
        return Ok(skip_item(r, tag));
    }
    Ok(true)
}

fn settle_dual(on: bool, mut s: DualBrush) -> (r: DualBrush)
    ensures
        (on, r@) == settled_dual((on, s@)),
{
    if !s.use_scatter {
        s.scatter_amount_pct = None;
        s.scatter_count = None;
        s.scatter_both_axes = None;
        s.count_jitter_pct = None;
    }
    if !on {
        s.uuid = None;
    }
    s
}

fn read_dual_items(r: &mut ByteReader<'_>, count: u32) -> (o: Result<(bool, DualBrush), DescError>)
    requires
        old(r).wf(),
    ensures
        reads(
            *old(r),
            *final(r),
            o,
            dual_items(
                old(r).data@,
                old(r).pos as nat,
                count as nat,
                (false, DualBrush::empty()),
            ),
        ),
{
    let mut on: bool = false;
    let mut s: DualBrush = DualBrush::default();
    let mut i: u32 = 0;
    while i < count
        invariant
            i <= count,
            r.wf(),
            r.data == old(r).data,
            dual_items(
                old(r).data@,
                old(r).pos as nat,
                count as nat,
                (false, DualBrush::empty()),
            ) == dual_items(r.data@, r.pos as nat, (count - i) as nat, (on, s@)),
        decreases count - i,
    {
        let (key, tag) = read_item_head(r)?;
        if !read_dual_item(r, key, tag, &mut on, &mut s)? {
            return Ok((on, s));
        }
        i += 1;
    }
    Ok((on, s))
}

fn parse_dual_brush(r: &mut ByteReader<'_>) -> (o: Result<(bool, DualBrush), DescError>)
    requires
        old(r).wf(),
    ensures
        reads(*old(r), *final(r), o, dual_read(old(r).data@, old(r).pos as nat)),
{
    reveal(dual_read);
    let (_class, count) = read_object_head(r)?;
    let (on, s) = read_dual_items(r, count)?;
    Ok((on, settle_dual(on, s)))
}

/// The `bool` items of a preset.
#[derive(Debug, Clone, Copy, PartialEq, Eq, Structural)]
pub enum FlagKey {
    /// `useTipDynamics`.
    UseTipDynamics,
    /// `useScatter`.
    UseScatter,
    /// `usePaintDynamics`.
    UsePaintDynamics,
    /// `bothAxes`.
    BothAxes,
    /// `flipX`.
    FlipX,
    /// `flipY`.
    FlipY,
    /// `useTexture`.
    UseTexture,
    /// `useColorDynamics`.
    UseColorDynamics,
    /// `colorDynamicsPerTip`.
    ColorPerTip,
    /// `useBrushPose`.
    UseBrushPose,
    /// `brushProjection`.
    BrushProjection,
    /// `Wtdg`.
    WetEdges,
    /// `Nose`.
    Noise,
    /// `Rpt `.
    BuildUp,
    /// `InvT`.
    InvertTexture,
    /// `TxtC`.
    TextureEachTip,
}

/// The FlagKey of an item's key.
#[verifier::opaque]
pub open spec fn flag_of(key: Seq<u8>) -> Option<FlagKey> {
    if key == ascii("useTipDynamics") {
        Some(FlagKey::UseTipDynamics)
    } else if key == ascii("useScatter") {
        Some(FlagKey::UseScatter)
    } else if key == ascii("usePaintDynamics") {
        Some(FlagKey::UsePaintDynamics)
    } else if key == ascii("bothAxes") {
        Some(FlagKey::BothAxes)
    } else if key == ascii("flipX") {
        Some(FlagKey::FlipX)
    } else if key == ascii("flipY") {
        Some(FlagKey::FlipY)
    } else if key == ascii("useTexture") {
        Some(FlagKey::UseTexture)
    } else if key == ascii("useColorDynamics") {
        Some(FlagKey::UseColorDynamics)
    } else if key == ascii("colorDynamicsPerTip") {
        Some(FlagKey::ColorPerTip)
    } else if key == ascii("useBrushPose") {
        Some(FlagKey::UseBrushPose)
    } else if key == ascii("brushProjection") {
        Some(FlagKey::BrushProjection)
    } else if key == ascii("Wtdg") {
        Some(FlagKey::WetEdges)
    } else if key == ascii("Nose") {
        Some(FlagKey::Noise)
    } else if key == ascii("Rpt ") {
        Some(FlagKey::BuildUp)
    } else if key == ascii("InvT") {
        Some(FlagKey::InvertTexture)
    } else if key == ascii("TxtC") {
        Some(FlagKey::TextureEachTip)
    } else {
        None
    }
}

fn flag_key(key: &[u8]) -> (r: Option<FlagKey>)
    ensures
        r == flag_of(key@),
{
    reveal(flag_of);
    if same_bytes(key, "useTipDynamics".as_bytes()) {
        Some(FlagKey::UseTipDynamics)
    } else if same_bytes(key, "useScatter".as_bytes()) {
        Some(FlagKey::UseScatter)
    } else if same_bytes(key, "usePaintDynamics".as_bytes()) {
        Some(FlagKey::UsePaintDynamics)
    } else if same_bytes(key, "bothAxes".as_bytes()) {
        Some(FlagKey::BothAxes)
    } else if same_bytes(key, "flipX".as_bytes()) {
        Some(FlagKey::FlipX)
    } else if same_bytes(key, "flipY".as_bytes()) {
        Some(FlagKey::FlipY)
    } else if same_bytes(key, "useTexture".as_bytes()) {
        Some(FlagKey::UseTexture)
    } else if same_bytes(key, "useColorDynamics".as_bytes()) {
        Some(FlagKey::UseColorDynamics)
    } else if same_bytes(key, "colorDynamicsPerTip".as_bytes()) {
        Some(FlagKey::ColorPerTip)
    } else if same_bytes(key, "useBrushPose".as_bytes()) {
        Some(FlagKey::UseBrushPose)
    } else if same_bytes(key, "brushProjection".as_bytes()) {
        Some(FlagKey::BrushProjection)
    } else if same_bytes(key, "Wtdg".as_bytes()) {
        Some(FlagKey::WetEdges)
    } else if same_bytes(key, "Nose".as_bytes()) {
        Some(FlagKey::Noise)
    } else if same_bytes(key, "Rpt ".as_bytes()) {
        Some(FlagKey::BuildUp)
    } else if same_bytes(key, "InvT".as_bytes()) {
        Some(FlagKey::InvertTexture)
    } else if same_bytes(key, "TxtC".as_bytes()) {
        Some(FlagKey::TextureEachTip)
    } else {
        None
    }
}

/// The `UntF` items of a preset.
#[derive(Debug, Clone, Copy, PartialEq, Eq, Structural)]
pub enum PercentKey {
    /// `minimumDiameter`.
    MinimumDiameter,
    /// `minimumRoundness`.
    MinimumRoundness,
    /// `H   `.
    Hue,
    /// `Strt`.
    Saturation,
    /// `Brgh`.
    Brightness,
    /// `purity`.
    Purity,
    /// `textureDepth`.
    TextureDepth,
    /// `minimumDepth`.
    MinimumDepth,
    /// `textureScale`.
    TextureScale,
}

/// The PercentKey of an item's key.
#[verifier::opaque]
pub open spec fn percent_of(key: Seq<u8>) -> Option<PercentKey> {
    if key == ascii("minimumDiameter") {
        Some(PercentKey::MinimumDiameter)
    } else if key == ascii("minimumRoundness") {
        Some(PercentKey::MinimumRoundness)
    } else if key == ascii("H   ") {
        Some(PercentKey::Hue)
    } else if key == ascii("Strt") {
        Some(PercentKey::Saturation)
    } else if key == ascii("Brgh") {
        Some(PercentKey::Brightness)
    } else if key == ascii("purity") {
        Some(PercentKey::Purity)
    } else if key == ascii("textureDepth") {
        Some(PercentKey::TextureDepth)
    } else if key == ascii("minimumDepth") {
        Some(PercentKey::MinimumDepth)
    } else if key == ascii("textureScale") {
        Some(PercentKey::TextureScale)
    } else {
        None
    }
}

fn percent_key(key: &[u8]) -> (r: Option<PercentKey>)
    ensures
        r == percent_of(key@),
{
    reveal(percent_of);
    if same_bytes(key, "minimumDiameter".as_bytes()) {
        Some(PercentKey::MinimumDiameter)
    } else if same_bytes(key, "minimumRoundness".as_bytes()) {
        Some(PercentKey::MinimumRoundness)
    } else if same_bytes(key, "H   ".as_bytes()) {
        Some(PercentKey::Hue)
    } else if same_bytes(key, "Strt".as_bytes()) {
        Some(PercentKey::Saturation)
    } else if same_bytes(key, "Brgh".as_bytes()) {
        Some(PercentKey::Brightness)
    } else if same_bytes(key, "purity".as_bytes()) {
        Some(PercentKey::Purity)
    } else if same_bytes(key, "textureDepth".as_bytes()) {
        Some(PercentKey::TextureDepth)
    } else if same_bytes(key, "minimumDepth".as_bytes()) {
        Some(PercentKey::MinimumDepth)
    } else if same_bytes(key, "textureScale".as_bytes()) {
        Some(PercentKey::TextureScale)
    } else {
        None
    }
}

/// The dynamics objects of a preset.
#[derive(Debug, Clone, Copy, PartialEq, Eq, Structural)]
pub enum VarianceKey {
    /// `szVr`.
    Size,
    /// `opVr`.
    Opacity,
    /// `prVr`.
    Flow,
    /// `wtVr`.
    Wetness,
    /// `mxVr`.
    Mix,
    /// `angleDynamics`.
    Angle,
    /// `scatterDynamics`.
    Scatter,
    /// `countDynamics`.
    Count,
    /// `roundnessDynamics`.
    Roundness,
    /// `clVr`.
    Color,
    /// `textureDepthDynamics`.
    TextureDepth,
}

/// The VarianceKey of an item's key.
#[verifier::opaque]
pub open spec fn variance_of(key: Seq<u8>) -> Option<VarianceKey> {
    if key == ascii("szVr") {
        Some(VarianceKey::Size)
    } else if key == ascii("opVr") {
        Some(VarianceKey::Opacity)
    } else if key == ascii("prVr") {
        Some(VarianceKey::Flow)
    } else if key == ascii("wtVr") {
        Some(VarianceKey::Wetness)
    } else if key == ascii("mxVr") {
        Some(VarianceKey::Mix)
    } else if key == ascii("angleDynamics") {
        Some(VarianceKey::Angle)
    } else if key == ascii("scatterDynamics") {
        Some(VarianceKey::Scatter)
    } else if key == ascii("countDynamics") {
        Some(VarianceKey::Count)
    } else if key == ascii("roundnessDynamics") {
        Some(VarianceKey::Roundness)
    } else if key == ascii("clVr") {
        Some(VarianceKey::Color)
    } else if key == ascii("textureDepthDynamics") {
        Some(VarianceKey::TextureDepth)
    } else {
        None
    }
}

fn variance_key(key: &[u8]) -> (r: Option<VarianceKey>)
    ensures
        r == variance_of(key@),
{
    reveal(variance_of);
    if same_bytes(key, "szVr".as_bytes()) {
        Some(VarianceKey::Size)
    } else if same_bytes(key, "opVr".as_bytes()) {
        Some(VarianceKey::Opacity)
    } else if same_bytes(key, "prVr".as_bytes()) {
        Some(VarianceKey::Flow)
    } else if same_bytes(key, "wtVr".as_bytes()) {
        Some(VarianceKey::Wetness)
    } else if same_bytes(key, "mxVr".as_bytes()) {
        Some(VarianceKey::Mix)
    } else if same_bytes(key, "angleDynamics".as_bytes()) {
        Some(VarianceKey::Angle)
    } else if same_bytes(key, "scatterDynamics".as_bytes()) {
        Some(VarianceKey::Scatter)
    } else if same_bytes(key, "countDynamics".as_bytes()) {
        Some(VarianceKey::Count)
    } else if same_bytes(key, "roundnessDynamics".as_bytes()) {
        Some(VarianceKey::Roundness)
    } else if same_bytes(key, "clVr".as_bytes()) {
        Some(VarianceKey::Color)
    } else if same_bytes(key, "textureDepthDynamics".as_bytes()) {
        Some(VarianceKey::TextureDepth)
    } else {
        None
    }
}

/// The `long` items of a preset.
#[derive(Debug, Clone, Copy, PartialEq, Eq, Structural)]
pub enum IntegerKey {
    /// `textureBrightness`.
    TextureBrightness,
    /// `textureContrast`.
    TextureContrast,
}

/// The IntegerKey of an item's key.
#[verifier::opaque]
pub open spec fn integer_of(key: Seq<u8>) -> Option<IntegerKey> {
    if key == ascii("textureBrightness") {
        Some(IntegerKey::TextureBrightness)
    } else if key == ascii("textureContrast") {
        Some(IntegerKey::TextureContrast)
    } else {
        None
    }
}

fn integer_key(key: &[u8]) -> (r: Option<IntegerKey>)
    ensures
        r == integer_of(key@),
{
    reveal(integer_of);
    if same_bytes(key, "textureBrightness".as_bytes()) {
        Some(IntegerKey::TextureBrightness)
    } else if same_bytes(key, "textureContrast".as_bytes()) {
        Some(IntegerKey::TextureContrast)
    } else {
        None
    }
}

/// An item of a preset that is kept.
#[derive(Debug, Clone)]
pub enum PresetItem<S = String> {
    /// `Nm  `
    Name(S),
    /// `sampledData`
    SampledData(S),
    /// `Brsh`
    Tip(InnerBrush<S>),
    /// `dualBrush`
    Dual(bool, DualBrush<S>),
    /// `Txtr`
    Texture(Txtr<S>),
    /// `textureBlendMode`
    BlendMode(S),
    /// `Cnt `
    Count(Double),
    Flag(FlagKey, bool),
    Percent(PercentKey, Double),
    Variance(VarianceKey, BrVr),
    Integer(IntegerKey, i32),
}

impl View for PresetItem {
    type V = PresetItem<Seq<char>>;

    open spec fn view(&self) -> PresetItem<Seq<char>> {
        match *self {
            PresetItem::Name(v) => PresetItem::Name(v@),
            PresetItem::SampledData(v) => PresetItem::SampledData(v@),
            PresetItem::Tip(v) => PresetItem::Tip(v@),
            PresetItem::Dual(on, v) => PresetItem::Dual(on, v@),
            PresetItem::Texture(v) => PresetItem::Texture(v@),
            PresetItem::BlendMode(v) => PresetItem::BlendMode(v@),
            PresetItem::Count(v) => PresetItem::Count(v),
            PresetItem::Flag(k, v) => PresetItem::Flag(k, v),
            PresetItem::Percent(k, v) => PresetItem::Percent(k, v),
            PresetItem::Variance(k, v) => PresetItem::Variance(k, v),
            PresetItem::Integer(k, v) => PresetItem::Integer(k, v),
        }
    }
}

/// A value under a key: a kept item, or `None` where it is to be read past.
pub open spec fn preset_item(d: Seq<u8>, p: nat, key: Seq<u8>, tag: u32) -> Option<
    Read<PresetItem<Seq<char>>>,
> {
    if tag == TAG_TEXT && key == ascii("Nm  ") {
        Some(
            match unicode_read(d, p) {
                (Ok(v), q) => (Ok(PresetItem::Name(v)), q),
                (Err(e), q) => (Err(e), q),
            },
        )
    } else if tag == TAG_TEXT && key == ascii("sampledData") {
        Some(
            match unicode_read(d, p) {
                (Ok(v), q) => (Ok(PresetItem::SampledData(v)), q),
                (Err(e), q) => (Err(e), q),
            },
        )
    } else if tag == TAG_OBJC && key == ascii("Brsh") {
        Some(
            match tip_read(d, p) {
                (Ok(v), q) => (Ok(PresetItem::Tip(v)), q),
                (Err(e), q) => (Err(e), q),
            },
        )
    } else if tag == TAG_OBJC && key == ascii("dualBrush") {
        Some(
            match dual_read(d, p) {
                (Ok((on, v)), q) => (Ok(PresetItem::Dual(on, v)), q),
                (Err(e), q) => (Err(e), q),
            },
        )
    } else if tag == TAG_OBJC && key == ascii("Txtr") {
        Some(
            match txtr_read(d, p) {
                (Ok(v), q) => (Ok(PresetItem::Texture(v)), q),
                (Err(e), q) => (Err(e), q),
            },
        )
    } else if tag == TAG_ENUM && key == ascii("textureBlendMode") {
        Some(
            match enum_read(d, p) {
                (Ok((_, v)), q) => (Ok(PresetItem::BlendMode(utf8_lossy_text(v))), q),
                (Err(e), q) => (Err(e), q),
            },
        )
    } else if tag == TAG_DOUB && key == ascii("Cnt ") {
        Some(
            match double_read(d, p) {
                (Ok(v), q) => (Ok(PresetItem::Count(v)), q),
                (Err(e), q) => (Err(e), q),
            },
        )
    } else if tag == TAG_BOOL && flag_of(key) is Some {
        Some(
            match flag_read(d, p) {
                (Ok(v), q) => (Ok(PresetItem::Flag(flag_of(key)->0, v)), q),
                (Err(e), q) => (Err(e), q),
            },
        )
    } else if tag == TAG_UNTF && percent_of(key) is Some {
        Some(
            match unit_float_read(d, p) {
                (Ok(v), q) => (Ok(PresetItem::Percent(percent_of(key)->0, v)), q),
                (Err(e), q) => (Err(e), q),
            },
        )
    } else if tag == TAG_OBJC && variance_of(key) is Some {
        Some(
            match brvr_read(d, p) {
                (Ok(v), q) => (Ok(PresetItem::Variance(variance_of(key)->0, v)), q),
                (Err(e), q) => (Err(e), q),
            },
        )
    } else if tag == TAG_LONG && integer_of(key) is Some {
        Some(
            match i32_read(d, p) {
                (Ok(v), q) => (Ok(PresetItem::Integer(integer_of(key)->0, v)), q),
                (Err(e), q) => (Err(e), q),
            },
        )
    } else {
        None
    }
}

/// The kept items among `n` items, behind those in `kept`.
pub open spec fn preset_items(
    d: Seq<u8>,
    p: nat,
    n: nat,
    kept: Seq<PresetItem<Seq<char>>>,
) -> Read<Seq<PresetItem<Seq<char>>>>
    decreases n,
{
    if n == 0 {
        (Ok(kept), p)
    } else {
        match item_head(d, p) {
            (Ok((key, tag)), q) => match preset_item(d, q, key, tag) {
                Some((Ok(item), q)) => preset_items(d, q, (n - 1) as nat, kept.push(item)),
                Some((Err(e), q)) => (Err(e), q),
                None => match skip_value(d, q, tag, 0) {
                    (Ok(_), q) => preset_items(d, q, (n - 1) as nat, kept),
                    (Err(_), q) => (Ok(kept), q),
                },
            },
            (Err(e), q) => (Err(e), q),
        }
    }
}

fn read_preset_item(r: &mut ByteReader<'_>, key: &[u8], tag: u32) -> (o: Option<
    Result<PresetItem, DescError>,
>)
    requires
        old(r).wf(),
    ensures
        match o {
            Some(out) => {
                &&& preset_item(old(r).data@, old(r).pos as nat, key@, tag) is Some
                &&& reads(
                    *old(r),
                    *final(r),
                    out,
                    preset_item(old(r).data@, old(r).pos as nat, key@, tag)->0,
                )
            },
            None => {
                &&& preset_item(old(r).data@, old(r).pos as nat, key@, tag) is None
                &&& *final(r) == *old(r)
            },
        },
{
    if tag == TAG_TEXT {
        if same_bytes(key, "Nm  ".as_bytes()) {
            return Some(
                match read_unicode_string(r) {
                    Ok(v) => Ok(PresetItem::Name(v)),
                    Err(e) => Err(e),
                },
            );
        }
        if same_bytes(key, "sampledData".as_bytes()) {
            return Some(
                match read_unicode_string(r) {
                    Ok(v) => Ok(PresetItem::SampledData(v)),
                    Err(e) => Err(e),
                },
            );
        }
        return None;
    }
    if tag == TAG_OBJC {
        if same_bytes(key, "Brsh".as_bytes()) {
            return Some(
                match parse_inner_brush(r) {
                    Ok(v) => Ok(PresetItem::Tip(v)),
                    Err(e) => Err(e),
                },
            );
        }
        if same_bytes(key, "dualBrush".as_bytes()) {
            return Some(
                match parse_dual_brush(r) {
                    Ok((on, v)) => Ok(PresetItem::Dual(on, v)),
                    Err(e) => Err(e),
                },
            );
        }
        if same_bytes(key, "Txtr".as_bytes()) {
            return Some(
                match parse_txtr(r) {
                    Ok(v) => Ok(PresetItem::Texture(v)),
                    Err(e) => Err(e),
                },
            );
        }
        return match variance_key(key) {
            Some(k) => Some(
                match parse_brvr(r) {
                    Ok(v) => Ok(PresetItem::Variance(k, v)),
                    Err(e) => Err(e),
                },
            ),
            None => None,
        };
    }
    if tag == TAG_ENUM {
        if same_bytes(key, "textureBlendMode".as_bytes()) {
            return Some(
                match read_enum(r) {
                    Ok((_, v)) => Ok(PresetItem::BlendMode(utf8_lossy(v))),
                    Err(e) => Err(e),
                },
            );
        }
        return None;
    }
    if tag == TAG_DOUB {
        if same_bytes(key, "Cnt ".as_bytes()) {
            return Some(
                match read_double(r) {
                    Ok(v) => Ok(PresetItem::Count(v)),
                    Err(e) => Err(e),
                },
            );
        }
        return None;
    }
    if tag == TAG_BOOL {
        return match flag_key(key) {
            Some(k) => Some(
                match read_flag(r) {
                    Ok(v) => Ok(PresetItem::Flag(k, v)),
                    Err(e) => Err(e),
                },
            ),
            None => None,
        };
    }
    if tag == TAG_UNTF {
        return match percent_key(key) {
            Some(k) => Some(
                match read_unit_float(r) {
                    Ok(v) => Ok(PresetItem::Percent(k, v)),
                    Err(e) => Err(e),
                },
            ),
            None => None,
        };
    }
    if tag == TAG_LONG {
        return match integer_key(key) {
            Some(k) => Some(
                match read_i32(r) {
                    Ok(v) => Ok(PresetItem::Integer(k, v)),
                    Err(e) => Err(e),
                },
            ),
            None => None,
        };
    }
    None
}

/// The value of the last flag of this key.
#[verifier::opaque]
pub open spec fn last_flag(items: Seq<PresetItem<Seq<char>>>, key: FlagKey) -> Option<bool>
    decreases items.len(),
{
    if items.len() == 0 {
        None
    } else {
        match items.last() {
            PresetItem::Flag(k, v) => if k == key {
                Some(v)
            } else {
                last_flag(items.drop_last(), key)
            },
            _ => last_flag(items.drop_last(), key),
        }
    }
}

fn find_last_flag(items: &Vec<PresetItem>, key: FlagKey) -> (r: Option<bool>)
    ensures
        r == last_flag(views(items@), key),
{
    reveal(last_flag);
    let mut r: Option<bool> = None;
    let mut i: usize = 0;
    while i < items.len()
        invariant
            i <= items@.len(),
            r == last_flag(views(items@).take(i as int), key),
        decreases items@.len() - i,
    {
        proof {
            reveal(last_flag);
            assert(views(items@).take(i + 1).drop_last() =~= views(items@).take(i as int));
        }
        match &items[i] {
            PresetItem::Flag(k, v) => {
                if *k == key {
                    r = Some(*v);
                }
            },
            _ => {},
        }
        i += 1;
    }
    proof {
        assert(views(items@).take(i as int) =~= views(items@));
    }
    r
}

/// The value of the last number of this key.
#[verifier::opaque]
pub open spec fn last_percent(items: Seq<PresetItem<Seq<char>>>, key: PercentKey) -> Option<Double>
    decreases items.len(),
{
    if items.len() == 0 {
        None
    } else {
        match items.last() {
            PresetItem::Percent(k, v) => if k == key {
                Some(v)
            } else {
                last_percent(items.drop_last(), key)
            },
            _ => last_percent(items.drop_last(), key),
        }
    }
}

fn find_last_percent(items: &Vec<PresetItem>, key: PercentKey) -> (r: Option<Double>)
    ensures
        r == last_percent(views(items@), key),
{
    reveal(last_percent);
    let mut r: Option<Double> = None;
    let mut i: usize = 0;
    while i < items.len()
        invariant
            i <= items@.len(),
            r == last_percent(views(items@).take(i as int), key),
        decreases items@.len() - i,
    {
        proof {
            reveal(last_percent);
            assert(views(items@).take(i + 1).drop_last() =~= views(items@).take(i as int));
        }
        match &items[i] {
            PresetItem::Percent(k, v) => {
                if *k == key {
                    r = Some(*v);
                }
            },
            _ => {},
        }
        i += 1;
    }
    proof {
        assert(views(items@).take(i as int) =~= views(items@));
    }
    r
}

/// The last dynamics object of this key.
#[verifier::opaque]
pub open spec fn last_variance(items: Seq<PresetItem<Seq<char>>>, key: VarianceKey) -> Option<BrVr>
    decreases items.len(),
{
    if items.len() == 0 {
        None
    } else {
        match items.last() {
            PresetItem::Variance(k, v) => if k == key {
                Some(v)
            } else {
                last_variance(items.drop_last(), key)
            },
            _ => last_variance(items.drop_last(), key),
        }
    }
}

fn find_last_variance(items: &Vec<PresetItem>, key: VarianceKey) -> (r: Option<BrVr>)
    ensures
        r == last_variance(views(items@), key),
{
    reveal(last_variance);
    let mut r: Option<BrVr> = None;
    let mut i: usize = 0;
    while i < items.len()
        invariant
            i <= items@.len(),
            r == last_variance(views(items@).take(i as int), key),
        decreases items@.len() - i,
    {
        proof {
            reveal(last_variance);
            assert(views(items@).take(i + 1).drop_last() =~= views(items@).take(i as int));
        }
        match &items[i] {
            PresetItem::Variance(k, v) => {
                if *k == key {
                    r = Some(*v);
                }
            },
            _ => {},
        }
        i += 1;
    }
    proof {
        assert(views(items@).take(i as int) =~= views(items@));
    }
    r
}

/// The value of the last integer of this key.
#[verifier::opaque]
pub open spec fn last_integer(items: Seq<PresetItem<Seq<char>>>, key: IntegerKey) -> Option<i32>
    decreases items.len(),
{
    if items.len() == 0 {
        None
    } else {
        match items.last() {
            PresetItem::Integer(k, v) => if k == key {
                Some(v)
            } else {
                last_integer(items.drop_last(), key)
            },
            _ => last_integer(items.drop_last(), key),
        }
    }
}

fn find_last_integer(items: &Vec<PresetItem>, key: IntegerKey) -> (r: Option<i32>)
    ensures
        r == last_integer(views(items@), key),
{
    reveal(last_integer);
    let mut r: Option<i32> = None;
    let mut i: usize = 0;
    while i < items.len()
        invariant
            i <= items@.len(),
            r == last_integer(views(items@).take(i as int), key),
        decreases items@.len() - i,
    {
        proof {
            reveal(last_integer);
            assert(views(items@).take(i + 1).drop_last() =~= views(items@).take(i as int));
        }
        match &items[i] {
            PresetItem::Integer(k, v) => {
                if *k == key {
                    r = Some(*v);
                }
            },
            _ => {},
        }
        i += 1;
    }
    proof {
        assert(views(items@).take(i as int) =~= views(items@));
    }
    r
}

/// The preset's last name, or no characters.
#[verifier::opaque]
pub open spec fn last_name(items: Seq<PresetItem<Seq<char>>>) -> Seq<char>
    decreases items.len(),
{
    if items.len() == 0 {
        seq![]
    } else {
        match items.last() {
            PresetItem::Name(v) => v,
            _ => last_name(items.drop_last()),
        }
    }
}

/// The preset's last scatter count.
#[verifier::opaque]
pub open spec fn last_count(items: Seq<PresetItem<Seq<char>>>) -> Option<Double>
    decreases items.len(),
{
    if items.len() == 0 {
        None
    } else {
        match items.last() {
            PresetItem::Count(v) => Some(v),
            _ => last_count(items.drop_last()),
        }
    }
}

/// The preset's last texture blend mode.
#[verifier::opaque]
pub open spec fn last_blend_mode(items: Seq<PresetItem<Seq<char>>>) -> Option<Seq<char>>
    decreases items.len(),
{
    if items.len() == 0 {
        None
    } else {
        match items.last() {
            PresetItem::BlendMode(v) => Some(v),
            _ => last_blend_mode(items.drop_last()),
        }
    }
}

/// The preset's last texture.
#[verifier::opaque]
pub open spec fn last_texture(items: Seq<PresetItem<Seq<char>>>) -> Txtr<Seq<char>>
    decreases items.len(),
{
    if items.len() == 0 {
        Txtr { name: None, id: None }
    } else {
        match items.last() {
            PresetItem::Texture(v) => v,
            _ => last_texture(items.drop_last()),
        }
    }
}

/// The preset's last dual brush, or one that is switched off.
#[verifier::opaque]
pub open spec fn last_dual(items: Seq<PresetItem<Seq<char>>>) -> DualState
    decreases items.len(),
{
    if items.len() == 0 {
        (false, DualBrush::empty())
    } else {
        match items.last() {
            PresetItem::Dual(on, v) => (on, v),
            _ => last_dual(items.drop_last()),
        }
    }
}

/// `a`, or `b` where `a` is absent.
pub open spec fn either<T>(a: Option<T>, b: Option<T>) -> Option<T> {
    match a {
        Some(v) => Some(v),
        None => b,
    }
}

/// What `a` says, and what `b` says where `a` is silent.
pub open spec fn merged_tips(a: InnerBrush<Seq<char>>, b: InnerBrush<Seq<char>>) -> InnerBrush<
    Seq<char>,
> {
    InnerBrush {
        uuid: either(a.uuid, b.uuid),
        spacing_pct: either(a.spacing_pct, b.spacing_pct),
        computed: either(a.computed, b.computed),
        diameter_px: either(a.diameter_px, b.diameter_px),
        sampled_angle_deg: either(a.sampled_angle_deg, b.sampled_angle_deg),
        sampled_roundness_pct: either(a.sampled_roundness_pct, b.sampled_roundness_pct),
        sampled_flip_x: either(a.sampled_flip_x, b.sampled_flip_x),
        sampled_flip_y: either(a.sampled_flip_y, b.sampled_flip_y),
        has_shape_tip: a.has_shape_tip || b.has_shape_tip,
        shape_tip_family: either(a.shape_tip_family, b.shape_tip_family),
        tip_shape: either(a.tip_shape, b.tip_shape),
    }
}

/// The tip of a preset: of several tip objects the first that holds a value counts. A
/// `sampledData` item of the preset itself sets the uuid.
#[verifier::opaque]
pub open spec fn preset_tip(items: Seq<PresetItem<Seq<char>>>) -> InnerBrush<Seq<char>>
    decreases items.len(),
{
    if items.len() == 0 {
        empty_tip(false)
    } else {
        match items.last() {
            PresetItem::Tip(t) => merged_tips(preset_tip(items.drop_last()), t),
            PresetItem::SampledData(v) => InnerBrush {
                uuid: Some(v),
                ..preset_tip(items.drop_last())
            },
            _ => preset_tip(items.drop_last()),
        }
    }
}

fn first_of<T: Copy>(a: Option<T>, b: Option<T>) -> (r: Option<T>)
    ensures
        r == either(a, b),
{
    match a {
        Some(v) => Some(v),
        None => b,
    }
}

fn merge_tip(t: &mut InnerBrush, other: &InnerBrush)
    ensures
        final(t)@ == merged_tips(old(t)@, other@),
{
    if t.uuid.is_none() {
        t.uuid = copy_text(&other.uuid);
    }
    t.spacing_pct = first_of(t.spacing_pct, other.spacing_pct);
    t.computed = first_of(t.computed, other.computed);
    t.diameter_px = first_of(t.diameter_px, other.diameter_px);
    t.sampled_angle_deg = first_of(t.sampled_angle_deg, other.sampled_angle_deg);
    t.sampled_roundness_pct = first_of(t.sampled_roundness_pct, other.sampled_roundness_pct);
    t.sampled_flip_x = first_of(t.sampled_flip_x, other.sampled_flip_x);
    t.sampled_flip_y = first_of(t.sampled_flip_y, other.sampled_flip_y);
    t.has_shape_tip = t.has_shape_tip || other.has_shape_tip;
    t.shape_tip_family = first_of(t.shape_tip_family, other.shape_tip_family);
    t.tip_shape = first_of(t.tip_shape, other.tip_shape);
}

/// The items of a preset that are not looked up by a key.
struct PresetParts {
    name: String,
    tip: InnerBrush,
    dual_on: bool,
    dual: DualBrush,
    texture: Txtr,
    blend_mode: Option<String>,
    count: Option<Double>,
}

fn preset_parts(items: &Vec<PresetItem>) -> (r: PresetParts)
    ensures
        r.name@ == last_name(views(items@)),
        r.tip@ == preset_tip(views(items@)),
        (r.dual_on, r.dual@) == last_dual(views(items@)),
        r.texture@ == last_texture(views(items@)),
        text(r.blend_mode) == last_blend_mode(views(items@)),
        r.count == last_count(views(items@)),
{
    reveal(last_name);
    reveal(last_count);
    reveal(last_blend_mode);
    reveal(last_texture);
    reveal(last_dual);
    reveal(preset_tip);
    let mut name: String = String::new();
    let mut tip: InnerBrush = new_tip(false);
    let mut dual_on: bool = false;
    let mut dual: DualBrush = DualBrush::default();
    let mut texture: Txtr = Txtr { name: None, id: None };
    let mut blend_mode: Option<String> = None;
    let mut count: Option<Double> = None;
    proof {
        assert(name@ =~= seq![]);
        assert(views(items@).take(0) =~= seq![]);
    }
    let mut i: usize = 0;
    while i < items.len()
        invariant
            i <= items@.len(),
            name@ == last_name(views(items@).take(i as int)),
            tip@ == preset_tip(views(items@).take(i as int)),
            (dual_on, dual@) == last_dual(views(items@).take(i as int)),
            texture@ == last_texture(views(items@).take(i as int)),
            text(blend_mode) == last_blend_mode(views(items@).take(i as int)),
            count == last_count(views(items@).take(i as int)),
        decreases items@.len() - i,
    {
        proof {
            reveal(last_name);
            reveal(last_count);
            reveal(last_blend_mode);
            reveal(last_texture);
            reveal(last_dual);
            reveal(preset_tip);
            assert(views(items@).take(i + 1).drop_last() =~= views(items@).take(i as int));
            assert(views(items@).take(i + 1).last() == items@[i as int]@);
        }
        match &items[i] {
            PresetItem::Name(v) => {
                name = v.clone();
            },
            PresetItem::SampledData(v) => {
                tip.uuid = Some(v.clone());
            },
            PresetItem::Tip(v) => {
                merge_tip(&mut tip, v);
            },
            PresetItem::Dual(on, v) => {
                dual_on = *on;
                dual = v.duplicate();
            },
            PresetItem::Texture(v) => {
                texture = Txtr { name: copy_text(&v.name), id: copy_text(&v.id) };
            },
            PresetItem::BlendMode(v) => {
                blend_mode = Some(v.clone());
            },
            PresetItem::Count(v) => {
                count = Some(*v);
            },
            _ => {},
        }
        i += 1;
    }
    proof {
        assert(views(items@).take(i as int) =~= views(items@));
    }
    PresetParts { name, tip, dual_on, dual, texture, blend_mode, count }
}

/// What a pack's descriptor says of one preset.
#[derive(Debug, Clone)]
pub struct BrushDescInfo<S = String> {
    pub name: S,
    /// The uuid of the preset's sampled tip.
    pub sampled_data_uuid: Option<S>,
    /// The uuid of the sampled tip of an enabled dual brush.
    pub dual_brush_uuid: Option<S>,
    /// Does the tip hold a `Shp ` key?
    pub has_shape_tip: bool,
    pub shape_tip_family: Option<ShapeTipFamily>,
    pub tip_shape: Option<TipShape>,
    pub descriptor: BrushDescriptor<S>,
}

impl View for BrushDescInfo {
    type V = BrushDescInfo<Seq<char>>;

    open spec fn view(&self) -> BrushDescInfo<Seq<char>> {
        BrushDescInfo {
            name: self.name@,
            sampled_data_uuid: text(self.sampled_data_uuid),
            dual_brush_uuid: text(self.dual_brush_uuid),
            has_shape_tip: self.has_shape_tip,
            shape_tip_family: self.shape_tip_family,
            tip_shape: self.tip_shape,
            descriptor: self.descriptor@,
        }
    }
}

/// `value` where its switch is on.
pub open spec fn gate<T>(on: bool, value: Option<T>) -> Option<T> {
    if on {
        value
    } else {
        None
    }
}

fn gated<T>(on: bool, value: Option<T>) -> (r: Option<T>)
    ensures
        r == gate(on, value),
{
    if on {
        value
    } else {
        None
    }
}

/// Is the last flag of this key set?
pub open spec fn is_on(items: Seq<PresetItem<Seq<char>>>, key: FlagKey) -> bool {
    last_flag(items, key) == Some(true)
}

/// The jitter of the last dynamics object of this key.
pub open spec fn jitter(items: Seq<PresetItem<Seq<char>>>, key: VarianceKey) -> Option<Double> {
    match last_variance(items, key) {
        Some(b) => b.jitter_pct,
        None => None,
    }
}

/// The control of the last dynamics object of this key.
pub open spec fn control(items: Seq<PresetItem<Seq<char>>>, key: VarianceKey) -> Option<i32> {
    match last_variance(items, key) {
        Some(b) => b.control,
        None => None,
    }
}

/// The last integer of this key.
pub open spec fn integer(items: Seq<PresetItem<Seq<char>>>, key: IntegerKey) -> Option<i64> {
    match last_integer(items, key) {
        Some(v) => Some(v as i64),
        None => None,
    }
}

/// The dynamics that the items of a preset describe.
pub open spec fn descriptor_of(items: Seq<PresetItem<Seq<char>>>) -> BrushDescriptor<Seq<char>> {
    let tip = preset_tip(items);
    let tip_on = is_on(items, FlagKey::UseTipDynamics);
    let scatter_on = is_on(items, FlagKey::UseScatter);
    let paint_on = is_on(items, FlagKey::UsePaintDynamics);
    let texture_on = is_on(items, FlagKey::UseTexture);
    let color_on = is_on(items, FlagKey::UseColorDynamics);
    let dual = last_dual(items);
    BrushDescriptor {
        spacing_pct: tip.spacing_pct,
        computed: tip.computed,
        diameter_px: tip.diameter_px,
        scatter_amount_pct: gate(scatter_on, jitter(items, VarianceKey::Scatter)),
        size_jitter_pct: gate(tip_on, jitter(items, VarianceKey::Size)),
        angle_control: gate(tip_on, control(items, VarianceKey::Angle)),
        angle_jitter_pct: gate(tip_on, jitter(items, VarianceKey::Angle)),
        pressure_size_control: gate(tip_on, control(items, VarianceKey::Size)),
        pressure_opacity_control: gate(paint_on, control(items, VarianceKey::Opacity)),
        opacity_jitter_pct: gate(paint_on, jitter(items, VarianceKey::Opacity)),
        flow_jitter_pct: gate(paint_on, jitter(items, VarianceKey::Flow)),
        wetness_jitter_pct: gate(paint_on, jitter(items, VarianceKey::Wetness)),
        mix_jitter_pct: gate(paint_on, jitter(items, VarianceKey::Mix)),
        shape_angle_deg: tip.sampled_angle_deg,
        shape_roundness_pct: tip.sampled_roundness_pct,
        scatter_count: gate(scatter_on, last_count(items)),
        scatter_both_axes: gate(scatter_on, last_flag(items, FlagKey::BothAxes)),
        count_jitter_pct: gate(scatter_on, jitter(items, VarianceKey::Count)),
        minimum_diameter_pct: gate(tip_on, last_percent(items, PercentKey::MinimumDiameter)),
        roundness_jitter_pct: gate(tip_on, jitter(items, VarianceKey::Roundness)),
        minimum_roundness_pct: gate(tip_on, last_percent(items, PercentKey::MinimumRoundness)),
        flip_x_jitter: gate(tip_on, last_flag(items, FlagKey::FlipX)),
        flip_y_jitter: gate(tip_on, last_flag(items, FlagKey::FlipY)),
        tip_flip_x: tip.sampled_flip_x,
        tip_flip_y: tip.sampled_flip_y,
        texture_pattern_id: gate(texture_on, last_texture(items).id),
        texture_pattern_name: gate(texture_on, last_texture(items).name),
        texture_depth_pct: gate(texture_on, last_percent(items, PercentKey::TextureDepth)),
        texture_minimum_depth_pct: gate(texture_on, last_percent(items, PercentKey::MinimumDepth)),
        texture_scale_pct: gate(texture_on, last_percent(items, PercentKey::TextureScale)),
        texture_invert: gate(texture_on, last_flag(items, FlagKey::InvertTexture)),
        texture_each_tip: gate(texture_on, last_flag(items, FlagKey::TextureEachTip)),
        texture_blend_mode: gate(texture_on, last_blend_mode(items)),
        texture_depth_jitter_pct: gate(texture_on, jitter(items, VarianceKey::TextureDepth)),
        texture_brightness: gate(texture_on, integer(items, IntegerKey::TextureBrightness)),
        texture_contrast: gate(texture_on, integer(items, IntegerKey::TextureContrast)),
        use_dual_brush: dual.0,
        dual: gate(dual.0, Some(dual.1)),
        wet_edges: is_on(items, FlagKey::WetEdges),
        noise: is_on(items, FlagKey::Noise),
        buildup: is_on(items, FlagKey::BuildUp),
        use_color_dynamics: color_on,
        color_hue_jitter_pct: gate(color_on, last_percent(items, PercentKey::Hue)),
        color_saturation_jitter_pct: gate(color_on, last_percent(items, PercentKey::Saturation)),
        color_brightness_jitter_pct: gate(color_on, last_percent(items, PercentKey::Brightness)),
        color_purity_pct: gate(color_on, last_percent(items, PercentKey::Purity)),
        color_fg_bg_jitter_pct: gate(color_on, jitter(items, VarianceKey::Color)),
        color_dynamics_per_tip: gate(color_on, last_flag(items, FlagKey::ColorPerTip)),
        use_brush_pose: is_on(items, FlagKey::UseBrushPose),
        brush_projection: is_on(items, FlagKey::BrushProjection),
    }
}

/// What the items of a preset say.
pub open spec fn info_of(items: Seq<PresetItem<Seq<char>>>) -> BrushDescInfo<Seq<char>> {
    let tip = preset_tip(items);
    BrushDescInfo {
        name: last_name(items),
        sampled_data_uuid: tip.uuid,
        dual_brush_uuid: last_dual(items).1.uuid,
        has_shape_tip: tip.has_shape_tip,
        shape_tip_family: tip.shape_tip_family,
        tip_shape: tip.tip_shape,
        descriptor: descriptor_of(items),
    }
}

fn flag_on(items: &Vec<PresetItem>, key: FlagKey) -> (r: bool)
    ensures
        r == is_on(views(items@), key),
{
    match find_last_flag(items, key) {
        Some(on) => on,
        None => false,
    }
}

fn jitter_value(items: &Vec<PresetItem>, key: VarianceKey) -> (r: Option<Double>)
    ensures
        r == jitter(views(items@), key),
{
    match find_last_variance(items, key) {
        Some(b) => b.jitter_pct,
        None => None,
    }
}

fn control_value(items: &Vec<PresetItem>, key: VarianceKey) -> (r: Option<i32>)
    ensures
        r == control(views(items@), key),
{
    match find_last_variance(items, key) {
        Some(b) => b.control,
        None => None,
    }
}

fn integer_value(items: &Vec<PresetItem>, key: IntegerKey) -> (r: Option<i64>)
    ensures
        r == integer(views(items@), key),
{
    match find_last_integer(items, key) {
        Some(v) => Some(v as i64),
        None => None,
    }
}

fn preset_info(items: &Vec<PresetItem>) -> (r: BrushDescInfo)
    ensures
        r@ == info_of(views(items@)),
{
    let PresetParts { name, tip, dual_on, dual, texture, blend_mode, count } = preset_parts(items);
    let tip_on: bool = flag_on(items, FlagKey::UseTipDynamics);
    let scatter_on: bool = flag_on(items, FlagKey::UseScatter);
    let paint_on: bool = flag_on(items, FlagKey::UsePaintDynamics);
    let texture_on: bool = flag_on(items, FlagKey::UseTexture);
    let color_on: bool = flag_on(items, FlagKey::UseColorDynamics);
    let dual_brush_uuid: Option<String> = copy_text(&dual.uuid);
    let descriptor: BrushDescriptor = BrushDescriptor {
        spacing_pct: tip.spacing_pct,
        computed: tip.computed,
        diameter_px: tip.diameter_px,
        scatter_amount_pct: gated(scatter_on, jitter_value(items, VarianceKey::Scatter)),
        size_jitter_pct: gated(tip_on, jitter_value(items, VarianceKey::Size)),
        angle_control: gated(tip_on, control_value(items, VarianceKey::Angle)),
        angle_jitter_pct: gated(tip_on, jitter_value(items, VarianceKey::Angle)),
        pressure_size_control: gated(tip_on, control_value(items, VarianceKey::Size)),
        pressure_opacity_control: gated(paint_on, control_value(items, VarianceKey::Opacity)),
        opacity_jitter_pct: gated(paint_on, jitter_value(items, VarianceKey::Opacity)),
        flow_jitter_pct: gated(paint_on, jitter_value(items, VarianceKey::Flow)),
        wetness_jitter_pct: gated(paint_on, jitter_value(items, VarianceKey::Wetness)),
        mix_jitter_pct: gated(paint_on, jitter_value(items, VarianceKey::Mix)),
        shape_angle_deg: tip.sampled_angle_deg,
        shape_roundness_pct: tip.sampled_roundness_pct,
        scatter_count: gated(scatter_on, count),
        scatter_both_axes: gated(scatter_on, find_last_flag(items, FlagKey::BothAxes)),
        count_jitter_pct: gated(scatter_on, jitter_value(items, VarianceKey::Count)),
        minimum_diameter_pct: gated(tip_on, find_last_percent(items, PercentKey::MinimumDiameter)),
        roundness_jitter_pct: gated(tip_on, jitter_value(items, VarianceKey::Roundness)),
        minimum_roundness_pct: gated(tip_on, find_last_percent(items, PercentKey::MinimumRoundness)),
        flip_x_jitter: gated(tip_on, find_last_flag(items, FlagKey::FlipX)),
        flip_y_jitter: gated(tip_on, find_last_flag(items, FlagKey::FlipY)),
        tip_flip_x: tip.sampled_flip_x,
        tip_flip_y: tip.sampled_flip_y,
        texture_pattern_id: gated(texture_on, texture.id),
        texture_pattern_name: gated(texture_on, texture.name),
        texture_depth_pct: gated(texture_on, find_last_percent(items, PercentKey::TextureDepth)),
        texture_minimum_depth_pct: gated(texture_on, find_last_percent(items, PercentKey::MinimumDepth)),
        texture_scale_pct: gated(texture_on, find_last_percent(items, PercentKey::TextureScale)),
        texture_invert: gated(texture_on, find_last_flag(items, FlagKey::InvertTexture)),
        texture_each_tip: gated(texture_on, find_last_flag(items, FlagKey::TextureEachTip)),
        texture_blend_mode: gated(texture_on, blend_mode),
        texture_depth_jitter_pct: gated(texture_on, jitter_value(items, VarianceKey::TextureDepth)),
        texture_brightness: gated(texture_on, integer_value(items, IntegerKey::TextureBrightness)),
        texture_contrast: gated(texture_on, integer_value(items, IntegerKey::TextureContrast)),
        use_dual_brush: dual_on,
        dual: if dual_on { Some(dual) } else { None },
        wet_edges: flag_on(items, FlagKey::WetEdges),
        noise: flag_on(items, FlagKey::Noise),
        buildup: flag_on(items, FlagKey::BuildUp),
        use_color_dynamics: color_on,
        color_hue_jitter_pct: gated(color_on, find_last_percent(items, PercentKey::Hue)),
        color_saturation_jitter_pct: gated(color_on, find_last_percent(items, PercentKey::Saturation)),
        color_brightness_jitter_pct: gated(color_on, find_last_percent(items, PercentKey::Brightness)),
        color_purity_pct: gated(color_on, find_last_percent(items, PercentKey::Purity)),
        color_fg_bg_jitter_pct: gated(color_on, jitter_value(items, VarianceKey::Color)),
        color_dynamics_per_tip: gated(color_on, find_last_flag(items, FlagKey::ColorPerTip)),
        use_brush_pose: flag_on(items, FlagKey::UseBrushPose),
        brush_projection: flag_on(items, FlagKey::BrushProjection),
    };
    assert(descriptor@ == descriptor_of(views(items@)));
    BrushDescInfo {
        name,
        sampled_data_uuid: tip.uuid,
        dual_brush_uuid,
        has_shape_tip: tip.has_shape_tip,
        shape_tip_family: tip.shape_tip_family,
        tip_shape: tip.tip_shape,
        descriptor,
    }
}

/// A preset object.
#[verifier::opaque]
pub open spec fn preset_read(d: Seq<u8>, p: nat) -> Read<BrushDescInfo<Seq<char>>> {
    match object_head(d, p) {
        (Ok((_, count)), q) => match preset_items(d, q, count as nat, seq![]) {
            (Ok(items), q) => (Ok(info_of(items)), q),
            (Err(e), q) => (Err(e), q),
        },
        (Err(e), q) => (Err(e), q),
    }
}

fn read_preset_items(r: &mut ByteReader<'_>, count: u32) -> (o: Result<Vec<PresetItem>, DescError>)
    requires
        old(r).wf(),
    ensures
        final(r).wf(),
        final(r).data == old(r).data,
        preset_items(old(r).data@, old(r).pos as nat, count as nat, seq![]) == (
            match o {
                Ok(items) => Ok(views(items@)),
                Err(e) => Err(e),
            },
            final(r).pos as nat,
        ),
{
    let mut items: Vec<PresetItem> = Vec::new();
    assert(views(items@) =~= seq![]);
    let mut i: u32 = 0;
    while i < count
        invariant
            i <= count,
            r.wf(),
            r.data == old(r).data,
            preset_items(old(r).data@, old(r).pos as nat, count as nat, seq![]) == preset_items(
                r.data@,
                r.pos as nat,
                (count - i) as nat,
                views(items@),
            ),
        decreases count - i,
    {
        let (key, tag) = read_item_head(r)?;
        match read_preset_item(r, key, tag) {
            Some(Ok(item)) => {
                let ghost before = items@;
                items.push(item);
                assert(views(items@) =~= views(before).push(item@));
            },
            Some(Err(e)) => {
                return Err(e);
            },
            None => {
                if !skip_item(r, tag) {
                    return Ok(items);
                }
            },
        }
        i += 1;
    }
    Ok(items)
}

fn parse_brush_preset_objc(r: &mut ByteReader<'_>) -> (o: Result<BrushDescInfo, DescError>)
    requires
        old(r).wf(),
    ensures
        reads(*old(r), *final(r), o, preset_read(old(r).data@, old(r).pos as nat)),
{
    reveal(preset_read);
    let (_class, count) = read_object_head(r)?;
    let items: Vec<PresetItem> = read_preset_items(r, count)?;
    Ok(preset_info(&items))
}

/// The presets of a list of `n` elements, behind those in `found`. An element that
/// cannot be read ends the list.
pub open spec fn preset_list(
    d: Seq<u8>,
    p: nat,
    n: nat,
    found: Seq<BrushDescInfo<Seq<char>>>,
) -> Read<Seq<BrushDescInfo<Seq<char>>>>
    decreases n,
{
    if n == 0 {
        (Ok(found), p)
    } else {
        match u32_read(d, p) {
            (Ok(tag), q) => if tag == TAG_OBJC {
                match preset_read(d, q) {
                    (Ok(info), q) => preset_list(d, q, (n - 1) as nat, found.push(info)),
                    (Err(_), q) => (Ok(found), q),
                }
            } else {
                match skip_value(d, q, tag, 0) {
                    (Ok(_), q) => preset_list(d, q, (n - 1) as nat, found),
                    (Err(_), q) => (Ok(found), q),
                }
            },
            (Err(e), q) => (Err(e), q),
        }
    }
}

/// The presets in `n` items of the root object, behind those in `found`.
pub open spec fn root_items(
    d: Seq<u8>,
    p: nat,
    n: nat,
    found: Seq<BrushDescInfo<Seq<char>>>,
) -> Read<Seq<BrushDescInfo<Seq<char>>>>
    decreases n,
{
    if n == 0 {
        (Ok(found), p)
    } else {
        match item_head(d, p) {
            (Ok((key, tag)), q) => if key == ascii("Brsh") && tag == TAG_VLLS {
                match u32_read(d, q) {
                    (Ok(count), q) => match preset_list(d, q, count as nat, found) {
                        (Ok(found), q) => root_items(d, q, (n - 1) as nat, found),
                        (Err(e), q) => (Err(e), q),
                    },
                    (Err(e), q) => (Err(e), q),
                }
            } else {
                match skip_value(d, q, tag, 0) {
                    (Ok(_), q) => root_items(d, q, (n - 1) as nat, found),
                    (Err(_), q) => (Ok(found), q),
                }
            },
            (Err(e), q) => (Err(e), q),
        }
    }
}

/// The head of a `desc` block: a format version, the root's class name and class id.
///
/// Photoshop's blocks hold the name's length and the name. Others hold a count of 1
/// before the descriptor, or a length of 0, behind which the id's length stands.
pub open spec fn root_head(d: Seq<u8>) -> Read<()> {
    match u32_read(d, 0) {
        (Ok(_), q) => match u32_read(d, q) {
            (Ok(first), q) => if first == 0 {
                match u32_read(d, q) {
                    (Ok(len), q) => past(id_from(d, q, len)),
                    (Err(e), q) => (Err(e), q),
                }
            } else if first == 1 {
                if !fits(d, q, 2) {
                    (Err(DescError::UnexpectedEof), d.len())
                } else if be_u16(d, q as int) == 0 {
                    past(id_read(d, q + 2))
                } else {
                    past(id_read(d, q))
                }
            } else {
                match unicode_from(d, q, first as nat) {
                    (Ok(_), q) => past(id_read(d, q)),
                    (Err(e), q) => (Err(e), q),
                }
            },
            (Err(e), q) => (Err(e), q),
        },
        (Err(e), q) => (Err(e), q),
    }
}

/// The presets that a `desc` block describes.
#[verifier::opaque]
pub open spec fn presets_of(d: Seq<u8>) -> Result<Seq<BrushDescInfo<Seq<char>>>, DescError> {
    match root_head(d) {
        (Ok(_), q) => match u32_read(d, q) {
            (Ok(count), q) => root_items(d, q, count as nat, seq![]).0,
            (Err(e), _) => Err(e),
        },
        (Err(e), _) => Err(e),
    }
}

pub(crate) fn read_root_head(r: &mut ByteReader<'_>) -> (o: Result<(), DescError>)
    requires
        old(r).wf(),
        old(r).pos == 0,
    ensures
        reads(*old(r), *final(r), o, root_head(old(r).data@)),
{
    let _version: u32 = read_u32(r)?;
    let first: u32 = read_u32(r)?;
    if first == 0 {
        let len: u32 = read_u32(r)?;
        let _class: &[u8] = read_id_from(r, len)?;
    } else if first == 1 {
        let start: usize = r.pos;
        let unit: u16 = r.read_u16().ok_or(DescError::UnexpectedEof)?;
        if unit != 0 {
            r.pos = start;
        }
        let _class: &[u8] = read_id(r)?;
    } else {
        let _name: String = read_unicode_string_from(r, first)?;
        let _class: &[u8] = read_id(r)?;
    }
    Ok(())
}

fn read_preset_list(r: &mut ByteReader<'_>, count: u32, found: &mut Vec<BrushDescInfo>) -> (o:
    Result<(), DescError>)
    requires
        old(r).wf(),
    ensures
        final(r).wf(),
        final(r).data == old(r).data,
        preset_list(old(r).data@, old(r).pos as nat, count as nat, views(old(found)@)) == (
            match o {
                Ok(_) => Ok(views(final(found)@)),
                Err(e) => Err(e),
            },
            final(r).pos as nat,
        ),
{
    let mut i: u32 = 0;
    while i < count
        invariant
            i <= count,
            r.wf(),
            r.data == old(r).data,
            preset_list(old(r).data@, old(r).pos as nat, count as nat, views(old(found)@))
                == preset_list(r.data@, r.pos as nat, (count - i) as nat, views(found@)),
        decreases count - i,
    {
        let tag: u32 = read_u32(r)?;
        if tag == TAG_OBJC {
            match parse_brush_preset_objc(r) {
                Ok(info) => {
                    let ghost before = found@;
                    found.push(info);
                    assert(views(found@) =~= views(before).push(info@));
                },
                Err(_) => {
                    return Ok(());
                },
            }
        } else if !skip_item(r, tag) {
            return Ok(());
        }
        i += 1;
    }
    Ok(())
}

/// The presets that a `desc` block describes.
pub fn extract_all_brush_info_inner(data: &[u8]) -> (o: Result<Vec<BrushDescInfo>, DescError>)
    ensures
        presets_of(data@) == (match o {
            Ok(infos) => Ok(views(infos@)),
            Err(e) => Err(e),
        }),
{
    reveal(presets_of);
    let mut r: ByteReader<'_> = ByteReader::new(data);
    read_root_head(&mut r)?;
    let count: u32 = read_u32(&mut r)?;
    let mut found: Vec<BrushDescInfo> = Vec::new();
    assert(views(found@) =~= seq![]);
    let mut i: u32 = 0;
    while i < count
        invariant
            i <= count,
            r.wf(),
            r.data == data,
            presets_of(data@) == root_items(
                data@,
                r.pos as nat,
                (count - i) as nat,
                views(found@),
            ).0,
        decreases count - i,
    {
        let (key, tag) = read_item_head(&mut r)?;
        if same_bytes(key, "Brsh".as_bytes()) && tag == TAG_VLLS {
            let elements: u32 = read_u32(&mut r)?;
            read_preset_list(&mut r, elements, &mut found)?;
        } else if !skip_item(&mut r, tag) {
            return Ok(found);
        }
        i += 1;
    }
    Ok(found)
}

/// The presets that a `desc` block describes, none where it cannot be read.
pub fn extract_all_brush_info(data: &[u8]) -> (r: Vec<BrushDescInfo>)
    ensures
        views(r@) == (match presets_of(data@) {
            Ok(infos) => infos,
            Err(_) => seq![],
        }),
{
    match extract_all_brush_info_inner(data) {
        Ok(infos) => infos,
        Err(_) => {
            let none: Vec<BrushDescInfo> = Vec::new();
            assert(views(none@) =~= seq![]);
            none
        },
    }
}

/// The name of the first preset that a `desc` block describes.
pub fn extract_brush_name(data: &[u8]) -> (r: Option<String>)
    ensures
        text(r) == (match presets_of(data@) {
            Ok(infos) => if infos.len() > 0 {
                Some(infos[0].name)
            } else {
                None
            },
            Err(_) => None,
        }),
{
    let infos: Vec<BrushDescInfo> = extract_all_brush_info(data);
    let ghost all = views(infos@);
    assert(all.len() == infos@.len());
    if infos.len() == 0 {
        None
    } else {
        assert(all[0] == infos@[0]@);
        assert(presets_of(data@) is Ok);
        Some(infos[0].name.clone())
    }
}

} // verus!
