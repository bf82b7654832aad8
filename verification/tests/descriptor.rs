//! Presets as the descriptor of a pack states them.
use brushkit::abr::descriptor::{
    read_id, read_id_from, read_unicode_string, read_unicode_string_from, skip_descriptor_value,
    MAX_DESCRIPTOR_DEPTH, MAX_DESCRIPTOR_STRING_LEN, TAG_OBJC, TAG_TDTA,
};
use brushkit::abr::preset::{
    extract_all_brush_info, extract_all_brush_info_inner, extract_brush_name,
};
use brushkit::abr::ComputedGeometry;
use brushkit::fixture::{write_bool, write_brvr, write_doub_ostype, write_key, write_unit_float};
use brushkit::support::bytes::ByteReader;
use brushkit::support::double::Double;
use byteorder::{BigEndian, WriteBytesExt};

fn double(v: f64) -> Double {
    Double { bits: v.to_bits() }
}

fn build_test_desc_block(name: &str) -> Vec<u8> {
    let mut buf = Vec::new();

    buf.write_u32::<BigEndian>(16).unwrap();

    buf.write_u32::<BigEndian>(1).unwrap();
    buf.write_u16::<BigEndian>(0).unwrap();

    buf.write_u32::<BigEndian>(0).unwrap();
    buf.extend_from_slice(b"null");

    buf.write_u32::<BigEndian>(1).unwrap();

    buf.write_u32::<BigEndian>(0).unwrap();
    buf.extend_from_slice(b"Brsh");
    buf.extend_from_slice(b"VlLs");
    buf.write_u32::<BigEndian>(1).unwrap();

    buf.extend_from_slice(b"Objc");

    buf.write_u32::<BigEndian>(1).unwrap();
    buf.write_u16::<BigEndian>(0).unwrap();

    buf.write_u32::<BigEndian>(11).unwrap();
    buf.extend_from_slice(b"brushPreset");

    buf.write_u32::<BigEndian>(1).unwrap();
    buf.write_u32::<BigEndian>(0).unwrap();
    buf.extend_from_slice(b"Nm  ");
    buf.extend_from_slice(b"TEXT");

    let utf16: Vec<u16> = name.encode_utf16().collect();
    buf.write_u32::<BigEndian>(utf16.len() as u32 + 1).unwrap();
    for ch in &utf16 {
        buf.write_u16::<BigEndian>(*ch).unwrap();
    }
    buf.write_u16::<BigEndian>(0).unwrap();

    buf
}

fn build_computed_desc_block(name: &str) -> Vec<u8> {
    let mut buf = Vec::new();

    buf.write_u32::<BigEndian>(16).unwrap();
    buf.write_u32::<BigEndian>(1).unwrap();
    buf.write_u16::<BigEndian>(0).unwrap();
    buf.write_u32::<BigEndian>(0).unwrap();
    buf.extend_from_slice(b"null");
    buf.write_u32::<BigEndian>(1).unwrap();

    buf.write_u32::<BigEndian>(0).unwrap();
    buf.extend_from_slice(b"Brsh");
    buf.extend_from_slice(b"VlLs");
    buf.write_u32::<BigEndian>(1).unwrap();

    buf.extend_from_slice(b"Objc");
    buf.write_u32::<BigEndian>(1).unwrap();
    buf.write_u16::<BigEndian>(0).unwrap();
    buf.write_u32::<BigEndian>(11).unwrap();
    buf.extend_from_slice(b"brushPreset");
    buf.write_u32::<BigEndian>(2).unwrap();

    buf.write_u32::<BigEndian>(0).unwrap();
    buf.extend_from_slice(b"Nm  ");
    buf.extend_from_slice(b"TEXT");
    let utf16: Vec<u16> = name.encode_utf16().collect();
    buf.write_u32::<BigEndian>(utf16.len() as u32 + 1).unwrap();
    for ch in &utf16 {
        buf.write_u16::<BigEndian>(*ch).unwrap();
    }
    buf.write_u16::<BigEndian>(0).unwrap();

    buf.write_u32::<BigEndian>(0).unwrap();
    buf.extend_from_slice(b"Brsh");
    buf.extend_from_slice(b"Objc");
    buf.write_u32::<BigEndian>(1).unwrap();
    buf.write_u16::<BigEndian>(0).unwrap();
    buf.write_u32::<BigEndian>(13).unwrap();
    buf.extend_from_slice(b"computedBrush");
    buf.write_u32::<BigEndian>(5).unwrap();
    write_unit_float(&mut buf, b"Dmtr", b"#Pxl", double(30.0));
    write_unit_float(&mut buf, b"Hrdn", b"#Prc", double(80.0));
    write_unit_float(&mut buf, b"Angl", b"#Ang", double(45.0));
    write_unit_float(&mut buf, b"Rndn", b"#Prc", double(60.0));
    write_unit_float(&mut buf, b"Spcn", b"#Prc", double(25.0));

    buf
}

fn build_sampled_shape_desc_block(name: &str, angl: f64, rndn: f64) -> Vec<u8> {
    let mut buf = Vec::new();

    buf.write_u32::<BigEndian>(16).unwrap();
    buf.write_u32::<BigEndian>(1).unwrap();
    buf.write_u16::<BigEndian>(0).unwrap();
    buf.write_u32::<BigEndian>(0).unwrap();
    buf.extend_from_slice(b"null");
    buf.write_u32::<BigEndian>(1).unwrap();

    buf.write_u32::<BigEndian>(0).unwrap();
    buf.extend_from_slice(b"Brsh");
    buf.extend_from_slice(b"VlLs");
    buf.write_u32::<BigEndian>(1).unwrap();

    buf.extend_from_slice(b"Objc");
    buf.write_u32::<BigEndian>(1).unwrap();
    buf.write_u16::<BigEndian>(0).unwrap();
    buf.write_u32::<BigEndian>(11).unwrap();
    buf.extend_from_slice(b"brushPreset");
    buf.write_u32::<BigEndian>(2).unwrap();

    buf.write_u32::<BigEndian>(0).unwrap();
    buf.extend_from_slice(b"Nm  ");
    buf.extend_from_slice(b"TEXT");
    let utf16: Vec<u16> = name.encode_utf16().collect();
    buf.write_u32::<BigEndian>(utf16.len() as u32 + 1).unwrap();
    for ch in &utf16 {
        buf.write_u16::<BigEndian>(*ch).unwrap();
    }
    buf.write_u16::<BigEndian>(0).unwrap();

    buf.write_u32::<BigEndian>(0).unwrap();
    buf.extend_from_slice(b"Brsh");
    buf.extend_from_slice(b"Objc");
    buf.write_u32::<BigEndian>(1).unwrap();
    buf.write_u16::<BigEndian>(0).unwrap();
    buf.write_u32::<BigEndian>(12).unwrap();
    buf.extend_from_slice(b"sampledBrush");
    buf.write_u32::<BigEndian>(3).unwrap();
    write_unit_float(&mut buf, b"Dmtr", b"#Pxl", double(30.0));
    write_unit_float(&mut buf, b"Angl", b"#Ang", double(angl));
    write_unit_float(&mut buf, b"Rndn", b"#Prc", double(rndn));

    buf
}

fn build_flip_jitter_desc_block(use_tip_dynamics: bool) -> Vec<u8> {
    let mut buf = Vec::new();

    buf.write_u32::<BigEndian>(16).unwrap();
    buf.write_u32::<BigEndian>(1).unwrap();
    buf.write_u16::<BigEndian>(0).unwrap();
    buf.write_u32::<BigEndian>(0).unwrap();
    buf.extend_from_slice(b"null");
    buf.write_u32::<BigEndian>(1).unwrap();

    buf.write_u32::<BigEndian>(0).unwrap();
    buf.extend_from_slice(b"Brsh");
    buf.extend_from_slice(b"VlLs");
    buf.write_u32::<BigEndian>(1).unwrap();

    buf.extend_from_slice(b"Objc");
    buf.write_u32::<BigEndian>(1).unwrap();
    buf.write_u16::<BigEndian>(0).unwrap();
    buf.write_u32::<BigEndian>(11).unwrap();
    buf.extend_from_slice(b"brushPreset");
    buf.write_u32::<BigEndian>(3).unwrap();

    write_bool(&mut buf, b"useTipDynamics", use_tip_dynamics);
    write_bool(&mut buf, b"flipX", true);
    write_bool(&mut buf, b"flipY", true);

    buf
}

fn build_roundness_dynamics_desc_block(use_tip_dynamics: bool) -> Vec<u8> {
    let mut buf = Vec::new();

    buf.write_u32::<BigEndian>(16).unwrap();
    buf.write_u32::<BigEndian>(1).unwrap();
    buf.write_u16::<BigEndian>(0).unwrap();
    buf.write_u32::<BigEndian>(0).unwrap();
    buf.extend_from_slice(b"null");
    buf.write_u32::<BigEndian>(1).unwrap();

    buf.write_u32::<BigEndian>(0).unwrap();
    buf.extend_from_slice(b"Brsh");
    buf.extend_from_slice(b"VlLs");
    buf.write_u32::<BigEndian>(1).unwrap();

    buf.extend_from_slice(b"Objc");
    buf.write_u32::<BigEndian>(1).unwrap();
    buf.write_u16::<BigEndian>(0).unwrap();
    buf.write_u32::<BigEndian>(11).unwrap();
    buf.extend_from_slice(b"brushPreset");
    buf.write_u32::<BigEndian>(3).unwrap();

    write_bool(&mut buf, b"useTipDynamics", use_tip_dynamics);
    write_brvr(&mut buf, b"roundnessDynamics", 0, double(53.0));
    write_key(&mut buf, b"minimumRoundness");
    buf.extend_from_slice(b"UntF");
    buf.extend_from_slice(b"#Prc");
    buf.write_f64::<BigEndian>(25.0).unwrap();

    buf
}

fn build_paint_dynamics_jitter_desc_block(use_paint_dynamics: bool) -> Vec<u8> {
    let mut buf = Vec::new();

    buf.write_u32::<BigEndian>(16).unwrap();
    buf.write_u32::<BigEndian>(1).unwrap();
    buf.write_u16::<BigEndian>(0).unwrap();
    buf.write_u32::<BigEndian>(0).unwrap();
    buf.extend_from_slice(b"null");
    buf.write_u32::<BigEndian>(1).unwrap();

    buf.write_u32::<BigEndian>(0).unwrap();
    buf.extend_from_slice(b"Brsh");
    buf.extend_from_slice(b"VlLs");
    buf.write_u32::<BigEndian>(1).unwrap();

    buf.extend_from_slice(b"Objc");
    buf.write_u32::<BigEndian>(1).unwrap();
    buf.write_u16::<BigEndian>(0).unwrap();
    buf.write_u32::<BigEndian>(11).unwrap();
    buf.extend_from_slice(b"brushPreset");
    buf.write_u32::<BigEndian>(4).unwrap();

    write_bool(&mut buf, b"usePaintDynamics", use_paint_dynamics);
    write_brvr(&mut buf, b"prVr", 0, double(41.0));
    write_brvr(&mut buf, b"wtVr", 0, double(7.0));
    write_brvr(&mut buf, b"mxVr", 0, double(3.0));

    buf
}

fn build_sampled_flip_desc_block() -> Vec<u8> {
    let mut buf = Vec::new();

    buf.write_u32::<BigEndian>(16).unwrap();
    buf.write_u32::<BigEndian>(1).unwrap();
    buf.write_u16::<BigEndian>(0).unwrap();
    buf.write_u32::<BigEndian>(0).unwrap();
    buf.extend_from_slice(b"null");
    buf.write_u32::<BigEndian>(1).unwrap();

    buf.write_u32::<BigEndian>(0).unwrap();
    buf.extend_from_slice(b"Brsh");
    buf.extend_from_slice(b"VlLs");
    buf.write_u32::<BigEndian>(1).unwrap();

    buf.extend_from_slice(b"Objc");
    buf.write_u32::<BigEndian>(1).unwrap();
    buf.write_u16::<BigEndian>(0).unwrap();
    buf.write_u32::<BigEndian>(11).unwrap();
    buf.extend_from_slice(b"brushPreset");
    buf.write_u32::<BigEndian>(1).unwrap();

    buf.write_u32::<BigEndian>(0).unwrap();
    buf.extend_from_slice(b"Brsh");
    buf.extend_from_slice(b"Objc");
    buf.write_u32::<BigEndian>(1).unwrap();
    buf.write_u16::<BigEndian>(0).unwrap();
    buf.write_u32::<BigEndian>(12).unwrap();
    buf.extend_from_slice(b"sampledBrush");
    buf.write_u32::<BigEndian>(2).unwrap();
    write_unit_float(&mut buf, b"Dmtr", b"#Pxl", double(30.0));
    write_bool(&mut buf, b"flipX", true);

    buf
}

fn build_brush_projection_desc_block(value: bool) -> Vec<u8> {
    let mut buf = Vec::new();

    buf.write_u32::<BigEndian>(16).unwrap();
    buf.write_u32::<BigEndian>(1).unwrap();
    buf.write_u16::<BigEndian>(0).unwrap();
    buf.write_u32::<BigEndian>(0).unwrap();
    buf.extend_from_slice(b"null");
    buf.write_u32::<BigEndian>(1).unwrap();

    buf.write_u32::<BigEndian>(0).unwrap();
    buf.extend_from_slice(b"Brsh");
    buf.extend_from_slice(b"VlLs");
    buf.write_u32::<BigEndian>(1).unwrap();

    buf.extend_from_slice(b"Objc");
    buf.write_u32::<BigEndian>(1).unwrap();
    buf.write_u16::<BigEndian>(0).unwrap();
    buf.write_u32::<BigEndian>(11).unwrap();
    buf.extend_from_slice(b"brushPreset");
    buf.write_u32::<BigEndian>(1).unwrap();

    write_bool(&mut buf, b"brushProjection", value);

    buf
}

fn build_dynamics_desc_block(
    name: &str,
    use_tip_dynamics: bool,
    use_scatter: bool,
    use_paint_dynamics: bool,
    sz_control: i32,
    op_control: i32,
) -> Vec<u8> {
    let mut buf = Vec::new();

    buf.write_u32::<BigEndian>(16).unwrap();
    buf.write_u32::<BigEndian>(1).unwrap();
    buf.write_u16::<BigEndian>(0).unwrap();
    buf.write_u32::<BigEndian>(0).unwrap();
    buf.extend_from_slice(b"null");
    buf.write_u32::<BigEndian>(1).unwrap();

    buf.write_u32::<BigEndian>(0).unwrap();
    buf.extend_from_slice(b"Brsh");
    buf.extend_from_slice(b"VlLs");
    buf.write_u32::<BigEndian>(1).unwrap();

    buf.extend_from_slice(b"Objc");
    buf.write_u32::<BigEndian>(1).unwrap();
    buf.write_u16::<BigEndian>(0).unwrap();
    buf.write_u32::<BigEndian>(11).unwrap();
    buf.extend_from_slice(b"brushPreset");
    buf.write_u32::<BigEndian>(9).unwrap();

    buf.write_u32::<BigEndian>(0).unwrap();
    buf.extend_from_slice(b"Nm  ");
    buf.extend_from_slice(b"TEXT");
    let utf16: Vec<u16> = name.encode_utf16().collect();
    buf.write_u32::<BigEndian>(utf16.len() as u32 + 1).unwrap();
    for ch in &utf16 {
        buf.write_u16::<BigEndian>(*ch).unwrap();
    }
    buf.write_u16::<BigEndian>(0).unwrap();

    write_bool(&mut buf, b"useTipDynamics", use_tip_dynamics);
    write_bool(&mut buf, b"useScatter", use_scatter);
    write_bool(&mut buf, b"usePaintDynamics", use_paint_dynamics);

    write_brvr(&mut buf, b"szVr", sz_control, double(50.0));
    write_brvr(&mut buf, b"opVr", op_control, double(35.0));
    write_brvr(&mut buf, b"angleDynamics", 6, double(40.0));
    write_brvr(&mut buf, b"scatterDynamics", 0, double(80.0));

    write_key(&mut buf, b"minimumDiameter");
    buf.extend_from_slice(b"UntF");
    buf.extend_from_slice(b"#Prc");
    buf.write_f64::<BigEndian>(40.0).unwrap();

    buf
}

fn build_scatter_count_desc_block(use_scatter: bool) -> Vec<u8> {
    let mut buf = Vec::new();

    buf.write_u32::<BigEndian>(16).unwrap();
    buf.write_u32::<BigEndian>(1).unwrap();
    buf.write_u16::<BigEndian>(0).unwrap();
    buf.write_u32::<BigEndian>(0).unwrap();
    buf.extend_from_slice(b"null");
    buf.write_u32::<BigEndian>(1).unwrap();

    buf.write_u32::<BigEndian>(0).unwrap();
    buf.extend_from_slice(b"Brsh");
    buf.extend_from_slice(b"VlLs");
    buf.write_u32::<BigEndian>(1).unwrap();

    buf.extend_from_slice(b"Objc");
    buf.write_u32::<BigEndian>(1).unwrap();
    buf.write_u16::<BigEndian>(0).unwrap();
    buf.write_u32::<BigEndian>(11).unwrap();
    buf.extend_from_slice(b"brushPreset");
    buf.write_u32::<BigEndian>(5).unwrap();

    buf.write_u32::<BigEndian>(0).unwrap();
    buf.extend_from_slice(b"Nm  ");
    buf.extend_from_slice(b"TEXT");
    let utf16: Vec<u16> = "Scatter".encode_utf16().collect();
    buf.write_u32::<BigEndian>(utf16.len() as u32 + 1).unwrap();
    for ch in &utf16 {
        buf.write_u16::<BigEndian>(*ch).unwrap();
    }
    buf.write_u16::<BigEndian>(0).unwrap();

    write_bool(&mut buf, b"useScatter", use_scatter);
    write_doub_ostype(&mut buf, b"Cnt ", double(3.0));
    write_bool(&mut buf, b"bothAxes", false);
    write_brvr(&mut buf, b"countDynamics", 0, double(25.0));

    buf
}

fn write_enum(buf: &mut Vec<u8>, key: &[u8], enum_type: &[u8], enum_value: &[u8]) {
    write_key(buf, key);
    buf.extend_from_slice(b"enum");
    write_key(buf, enum_type);
    write_key(buf, enum_value);
}

fn write_long(buf: &mut Vec<u8>, key: &[u8], val: i32) {
    write_key(buf, key);
    buf.extend_from_slice(b"long");
    buf.write_i32::<BigEndian>(val).unwrap();
}

fn write_text(buf: &mut Vec<u8>, key: &[u8], text: &str) {
    write_key(buf, key);
    buf.extend_from_slice(b"TEXT");
    let utf16: Vec<u16> = text.encode_utf16().collect();
    buf.write_u32::<BigEndian>(utf16.len() as u32 + 1).unwrap();
    for ch in &utf16 {
        buf.write_u16::<BigEndian>(*ch).unwrap();
    }
    buf.write_u16::<BigEndian>(0).unwrap();
}

fn write_txtr(buf: &mut Vec<u8>, name: &str, id: &str) {
    write_key(buf, b"Txtr");
    buf.extend_from_slice(b"Objc");
    buf.write_u32::<BigEndian>(1).unwrap();
    buf.write_u16::<BigEndian>(0).unwrap();
    write_key(buf, b"Ptrn");
    buf.write_u32::<BigEndian>(2).unwrap();
    write_text(buf, b"Nm  ", name);
    write_text(buf, b"Idnt", id);
}

fn build_texture_desc_block(use_texture: bool) -> Vec<u8> {
    let mut buf = Vec::new();

    buf.write_u32::<BigEndian>(16).unwrap();
    buf.write_u32::<BigEndian>(1).unwrap();
    buf.write_u16::<BigEndian>(0).unwrap();
    buf.write_u32::<BigEndian>(0).unwrap();
    buf.extend_from_slice(b"null");
    buf.write_u32::<BigEndian>(1).unwrap();

    buf.write_u32::<BigEndian>(0).unwrap();
    buf.extend_from_slice(b"Brsh");
    buf.extend_from_slice(b"VlLs");
    buf.write_u32::<BigEndian>(1).unwrap();

    buf.extend_from_slice(b"Objc");
    buf.write_u32::<BigEndian>(1).unwrap();
    buf.write_u16::<BigEndian>(0).unwrap();
    buf.write_u32::<BigEndian>(11).unwrap();
    buf.extend_from_slice(b"brushPreset");
    buf.write_u32::<BigEndian>(13).unwrap();

    write_text(&mut buf, b"Nm  ", "Textured");

    write_bool(&mut buf, b"useTexture", use_texture);
    write_bool(&mut buf, b"TxtC", true);
    write_bool(&mut buf, b"interpretation", true);
    write_enum(&mut buf, b"textureBlendMode", b"BlnM", b"height");
    write_key(&mut buf, b"textureDepth");
    buf.extend_from_slice(b"UntF");
    buf.extend_from_slice(b"#Prc");
    buf.write_f64::<BigEndian>(100.0).unwrap();
    write_key(&mut buf, b"minimumDepth");
    buf.extend_from_slice(b"UntF");
    buf.extend_from_slice(b"#Prc");
    buf.write_f64::<BigEndian>(0.0).unwrap();
    write_brvr(&mut buf, b"textureDepthDynamics", 0, double(0.0));
    write_txtr(
        &mut buf,
        "Kafelki z wzorem drzewa 4",
        "92150a0d-bc3e-9349-adc8-869fb042a4b0",
    );
    write_key(&mut buf, b"textureScale");
    buf.extend_from_slice(b"UntF");
    buf.extend_from_slice(b"#Prc");
    buf.write_f64::<BigEndian>(100.0).unwrap();
    write_bool(&mut buf, b"InvT", false);
    write_long(&mut buf, b"textureBrightness", 0);
    write_long(&mut buf, b"textureContrast", 0);

    buf
}

#[test]
fn texture_section_is_parsed() {
    let data = build_texture_desc_block(true);
    let infos = extract_all_brush_info(&data);
    assert_eq!(infos.len(), 1);
    let d = &infos[0].descriptor;
    assert_eq!(
        d.texture_pattern_id.as_deref(),
        Some("92150a0d-bc3e-9349-adc8-869fb042a4b0")
    );
    assert_eq!(
        d.texture_pattern_name.as_deref(),
        Some("Kafelki z wzorem drzewa 4")
    );
    assert_eq!(d.texture_depth_pct, Some(double(100.0)));
    assert_eq!(d.texture_minimum_depth_pct, Some(double(0.0)));
    assert_eq!(d.texture_scale_pct, Some(double(100.0)));
    assert_eq!(d.texture_invert, Some(false));
    assert_eq!(d.texture_each_tip, Some(true));
    assert_eq!(d.texture_blend_mode.as_deref(), Some("height"));
    assert_eq!(d.texture_depth_jitter_pct, Some(double(0.0)));
    assert_eq!(d.texture_brightness, Some(0));
    assert_eq!(d.texture_contrast, Some(0));
}

#[test]
fn texture_gated_off_when_use_texture_false() {
    let data = build_texture_desc_block(false);
    let infos = extract_all_brush_info(&data);
    assert_eq!(infos.len(), 1);
    let d = &infos[0].descriptor;
    assert!(d.texture_pattern_id.is_none());
    assert!(d.texture_pattern_name.is_none());
    assert!(d.texture_depth_pct.is_none());
    assert!(d.texture_minimum_depth_pct.is_none());
    assert!(d.texture_scale_pct.is_none());
    assert!(d.texture_invert.is_none());
    assert!(d.texture_each_tip.is_none());
    assert!(d.texture_blend_mode.is_none());
    assert!(d.texture_depth_jitter_pct.is_none());
    assert!(d.texture_brightness.is_none());
    assert!(d.texture_contrast.is_none());
}

#[test]
fn no_texture_keys_yields_none() {
    let data = build_test_desc_block("x");
    let infos = extract_all_brush_info(&data);
    assert_eq!(infos.len(), 1);
    let d = &infos[0].descriptor;
    assert!(d.texture_pattern_id.is_none());
    assert!(d.texture_pattern_name.is_none());
    assert!(d.texture_depth_pct.is_none());
    assert!(d.texture_minimum_depth_pct.is_none());
    assert!(d.texture_scale_pct.is_none());
    assert!(d.texture_invert.is_none());
    assert!(d.texture_each_tip.is_none());
    assert!(d.texture_blend_mode.is_none());
    assert!(d.texture_depth_jitter_pct.is_none());
    assert!(d.texture_brightness.is_none());
    assert!(d.texture_contrast.is_none());
}

#[test]
fn scatter_count_and_both_axes_are_parsed() {
    let data = build_scatter_count_desc_block(true);
    let infos = extract_all_brush_info(&data);
    assert_eq!(infos.len(), 1);
    let d = &infos[0].descriptor;
    assert_eq!(d.scatter_count, Some(double(3.0)));
    assert_eq!(d.scatter_both_axes, Some(false));
}

#[test]
fn scatter_count_gated_off_when_use_scatter_false() {
    let data = build_scatter_count_desc_block(false);
    let infos = extract_all_brush_info(&data);
    assert_eq!(infos.len(), 1);
    let d = &infos[0].descriptor;
    assert!(d.scatter_count.is_none());
    assert!(d.scatter_both_axes.is_none());
}

#[test]
fn count_jitter_is_parsed() {
    let data = build_scatter_count_desc_block(true);
    let infos = extract_all_brush_info(&data);
    assert_eq!(infos.len(), 1);
    assert_eq!(infos[0].descriptor.count_jitter_pct, Some(double(25.0)));
}

#[test]
fn count_jitter_gated_off_when_use_scatter_false() {
    let data = build_scatter_count_desc_block(false);
    let infos = extract_all_brush_info(&data);
    assert_eq!(infos.len(), 1);
    assert!(infos[0].descriptor.count_jitter_pct.is_none());
}

#[test]
fn dynamics_blocks_are_parsed() {
    let data = build_dynamics_desc_block("Dynamic", true, true, false, 0, 0);
    let infos = extract_all_brush_info(&data);
    assert_eq!(infos.len(), 1);
    let d = &infos[0].descriptor;
    assert_eq!(d.scatter_amount_pct, Some(double(80.0)));
    assert_eq!(d.size_jitter_pct, Some(double(50.0)));
    assert_eq!(d.angle_control, Some(6));
    assert_eq!(d.angle_jitter_pct, Some(double(40.0)));
    assert_eq!(d.minimum_diameter_pct, Some(double(40.0)));
}

#[test]
fn dynamics_gated_off_when_enabling_bool_false() {
    let data = build_dynamics_desc_block("Gated", false, false, false, 0, 0);
    let infos = extract_all_brush_info(&data);
    assert_eq!(infos.len(), 1);
    let d = &infos[0].descriptor;
    assert!(d.scatter_amount_pct.is_none());
    assert!(d.size_jitter_pct.is_none());
    assert!(d.angle_control.is_none());
    assert!(d.angle_jitter_pct.is_none());
    assert!(d.minimum_diameter_pct.is_none());
}

#[test]
fn flip_jitter_surfaces_under_tip_dynamics_gate() {
    let data = build_flip_jitter_desc_block(true);
    let infos = extract_all_brush_info(&data);
    assert_eq!(infos.len(), 1);
    assert_eq!(infos[0].descriptor.flip_x_jitter, Some(true));
    assert_eq!(infos[0].descriptor.flip_y_jitter, Some(true));
}

#[test]
fn flip_jitter_gated_off_when_use_tip_dynamics_false() {
    let data = build_flip_jitter_desc_block(false);
    let infos = extract_all_brush_info(&data);
    assert_eq!(infos.len(), 1);
    assert!(infos[0].descriptor.flip_x_jitter.is_none());
    assert!(infos[0].descriptor.flip_y_jitter.is_none());
}

#[test]
fn roundness_dynamics_surface_under_tip_dynamics_gate() {
    let data = build_roundness_dynamics_desc_block(true);
    let infos = extract_all_brush_info(&data);
    assert_eq!(infos.len(), 1);
    assert_eq!(infos[0].descriptor.roundness_jitter_pct, Some(double(53.0)));
    assert_eq!(infos[0].descriptor.minimum_roundness_pct, Some(double(25.0)));
}

#[test]
fn roundness_dynamics_gated_off_when_use_tip_dynamics_false() {
    let data = build_roundness_dynamics_desc_block(false);
    let infos = extract_all_brush_info(&data);
    assert_eq!(infos.len(), 1);
    assert!(infos[0].descriptor.roundness_jitter_pct.is_none());
    assert!(infos[0].descriptor.minimum_roundness_pct.is_none());
}

#[test]
fn paint_dynamics_jitters_surface_under_paint_dynamics_gate() {
    let data = build_paint_dynamics_jitter_desc_block(true);
    let infos = extract_all_brush_info(&data);
    assert_eq!(infos.len(), 1);
    assert_eq!(infos[0].descriptor.flow_jitter_pct, Some(double(41.0)));
    assert_eq!(infos[0].descriptor.wetness_jitter_pct, Some(double(7.0)));
    assert_eq!(infos[0].descriptor.mix_jitter_pct, Some(double(3.0)));
}

#[test]
fn paint_dynamics_jitters_gated_off_when_paint_dynamics_false() {
    let data = build_paint_dynamics_jitter_desc_block(false);
    let infos = extract_all_brush_info(&data);
    assert_eq!(infos.len(), 1);
    assert!(infos[0].descriptor.flow_jitter_pct.is_none());
    assert!(infos[0].descriptor.wetness_jitter_pct.is_none());
    assert!(infos[0].descriptor.mix_jitter_pct.is_none());
}

#[test]
fn sampled_tip_flip_is_independent_of_jitter_flips() {
    let data = build_sampled_flip_desc_block();
    let infos = extract_all_brush_info(&data);
    assert_eq!(infos.len(), 1);
    let d = &infos[0].descriptor;
    assert_eq!(d.tip_flip_x, Some(true));
    assert!(d.tip_flip_y.is_none());
    assert!(d.flip_x_jitter.is_none());
    assert!(d.flip_y_jitter.is_none());
}

#[test]
fn brush_projection_is_parsed_when_present() {
    let data = build_brush_projection_desc_block(true);
    let infos = extract_all_brush_info(&data);
    assert_eq!(infos.len(), 1);
    assert!(infos[0].descriptor.brush_projection);
}

#[test]
fn brush_projection_defaults_false_when_absent() {
    let data = build_test_desc_block("NoProjection");
    let infos = extract_all_brush_info(&data);
    assert_eq!(infos.len(), 1);
    assert!(!infos[0].descriptor.brush_projection);
}

#[test]
fn pressure_controls_are_parsed() {
    let data = build_dynamics_desc_block("Pressure", true, false, true, 2, 2);
    let infos = extract_all_brush_info(&data);
    assert_eq!(infos.len(), 1);
    let d = &infos[0].descriptor;
    assert_eq!(d.pressure_size_control, Some(2));
    assert_eq!(d.pressure_opacity_control, Some(2));
}

#[test]
fn pressure_controls_gated_off_when_enabling_bool_false() {
    let data = build_dynamics_desc_block("Gated", false, false, false, 2, 2);
    let infos = extract_all_brush_info(&data);
    assert_eq!(infos.len(), 1);
    let d = &infos[0].descriptor;
    assert!(d.pressure_size_control.is_none());
    assert!(d.pressure_opacity_control.is_none());
}

#[test]
fn opacity_jitter_is_parsed() {
    let data = build_dynamics_desc_block("Paint", false, false, true, 0, 0);
    let infos = extract_all_brush_info(&data);
    assert_eq!(infos.len(), 1);
    assert_eq!(infos[0].descriptor.opacity_jitter_pct, Some(double(35.0)));
}

#[test]
fn opacity_jitter_gated_off_when_paint_dynamics_false() {
    let data = build_dynamics_desc_block("Gated", false, false, false, 0, 0);
    let infos = extract_all_brush_info(&data);
    assert_eq!(infos.len(), 1);
    assert!(infos[0].descriptor.opacity_jitter_pct.is_none());
}

#[test]
fn absent_paint_dynamics_yields_no_opacity_control() {
    let data = build_test_desc_block("x");
    let infos = extract_all_brush_info(&data);
    assert_eq!(infos.len(), 1);
    assert!(infos[0].descriptor.pressure_opacity_control.is_none());
}

#[test]
fn no_dynamics_blocks_yields_none() {
    let data = build_test_desc_block("x");
    let infos = extract_all_brush_info(&data);
    assert_eq!(infos.len(), 1);
    let d = &infos[0].descriptor;
    assert!(d.scatter_amount_pct.is_none());
    assert!(d.size_jitter_pct.is_none());
    assert!(d.angle_control.is_none());
    assert!(d.angle_jitter_pct.is_none());
}

#[test]
fn computed_brush_geometry_is_parsed() {
    let data = build_computed_desc_block("Procedural");
    let infos = extract_all_brush_info(&data);
    assert_eq!(infos.len(), 1);
    let info = &infos[0];
    assert_eq!(info.name, "Procedural");
    assert!(info.sampled_data_uuid.is_none());
    assert_eq!(info.descriptor.spacing_pct, Some(double(25.0)));
    assert_eq!(
        info.descriptor.computed,
        Some(ComputedGeometry {
            diameter_px: Some(double(30.0)),
            hardness_pct: Some(double(80.0)),
            angle_deg: Some(double(45.0)),
            roundness_pct: Some(double(60.0)),
        })
    );
    assert_eq!(info.descriptor.diameter_px, Some(double(30.0)));
}

#[test]
fn sampled_brush_has_no_computed_geometry() {
    let data = build_test_desc_block("Sampled");
    let infos = extract_all_brush_info(&data);
    assert_eq!(infos.len(), 1);
    assert!(infos[0].descriptor.computed.is_none());
}

#[test]
fn sampled_brush_shape_is_parsed() {
    let data = build_sampled_shape_desc_block("Sampled", 45.0, 30.0);
    let infos = extract_all_brush_info(&data);
    assert_eq!(infos.len(), 1);
    let d = &infos[0].descriptor;
    assert_eq!(d.shape_angle_deg, Some(double(45.0)));
    assert_eq!(d.shape_roundness_pct, Some(double(30.0)));
    assert_eq!(d.diameter_px, Some(double(30.0)));
    assert!(d.computed.is_none());
}

#[test]
fn test_extract_brush_name_ascii() {
    let data = build_test_desc_block("My Brush");
    let name = extract_brush_name(&data);
    assert_eq!(name, Some("My Brush".to_string()));
}

#[test]
fn test_extract_brush_name_unicode() {
    let data = build_test_desc_block("P\u{0119}dzel");
    let name = extract_brush_name(&data);
    assert_eq!(name, Some("P\u{0119}dzel".to_string()));
}

#[test]
fn test_extract_brush_name_empty() {
    let name = extract_brush_name(&[0, 0, 0]);
    assert_eq!(name, None);
}

#[test]
fn test_read_id_zero_length() {
    let data = [0u8, 0, 0, 0, b'T', b'E', b'S', b'T'];
    let mut cursor = ByteReader::new(data.as_slice());
    let id = read_id(&mut cursor).unwrap();
    assert_eq!(id, b"TEST");
}

#[test]
fn test_read_id_nonzero_length() {
    let mut data = Vec::new();
    data.write_u32::<BigEndian>(5).unwrap();
    data.extend_from_slice(b"Hello");
    let mut cursor = ByteReader::new(data.as_slice());
    let id = read_id(&mut cursor).unwrap();
    assert_eq!(id, b"Hello");
}

#[test]
fn test_read_unicode_string() {
    let mut data = Vec::new();
    let text = "Test";
    let utf16: Vec<u16> = text.encode_utf16().collect();
    data.write_u32::<BigEndian>(utf16.len() as u32 + 1).unwrap();
    for ch in &utf16 {
        data.write_u16::<BigEndian>(*ch).unwrap();
    }
    data.write_u16::<BigEndian>(0).unwrap();
    let mut cursor = ByteReader::new(data.as_slice());
    let result = read_unicode_string(&mut cursor).unwrap();
    assert_eq!(result, "Test");
}

#[test]
fn test_malformed_unicode_string_too_long() {
    let data: Vec<u8> = Vec::new();
    let mut cursor = ByteReader::new(data.as_slice());
    let res = read_unicode_string_from(&mut cursor, (MAX_DESCRIPTOR_STRING_LEN + 1) as u32);
    assert!(res.is_err());
}

#[test]
fn test_malformed_id_too_long() {
    let data: Vec<u8> = Vec::new();
    let mut cursor = ByteReader::new(data.as_slice());
    let res = read_id_from(&mut cursor, (MAX_DESCRIPTOR_STRING_LEN + 1) as u32);
    assert!(res.is_err());
}

#[test]
fn test_malformed_tdta_too_long() {
    let mut data = Vec::new();
    data.write_u32::<BigEndian>((MAX_DESCRIPTOR_STRING_LEN + 1) as u32)
        .unwrap();
    let mut cursor = ByteReader::new(data.as_slice());
    let res = skip_descriptor_value(&mut cursor, TAG_TDTA, 0);
    assert!(res.is_err());
}

#[test]
fn test_malformed_recursion_too_deep() {
    let data: Vec<u8> = Vec::new();
    let mut cursor = ByteReader::new(data.as_slice());
    let err = skip_descriptor_value(&mut cursor, TAG_OBJC, MAX_DESCRIPTOR_DEPTH + 1)
        .expect_err("expected rejection at excessive depth");
    assert!(err.message().contains("nesting too deep"));
}

#[test]
fn alt_format_zero_class_name_nonzero_class_id() {
    let mut data = Vec::new();
    data.write_u32::<BigEndian>(16).unwrap();
    data.write_u32::<BigEndian>(0).unwrap();
    data.write_u32::<BigEndian>(4).unwrap();
    data.extend_from_slice(b"null");
    data.write_u32::<BigEndian>(0).unwrap();

    let res = extract_all_brush_info_inner(&data);
    assert!(res.is_ok(), "expected Ok, got {res:?}");
    assert!(res.unwrap().is_empty());
}
