//! Packs: header, blocks, sampled tips, and their pairing with presets.
use brushkit::abr::dump::{dump_descriptors, DumpValue};
use brushkit::abr::pairing::{collect_unsupported_tip_presets, pair_brushes, PairedBrushes};
use brushkit::abr::parser::{read_blocks, read_header, PatternMode};
use brushkit::abr::preset::{extract_all_brush_info, BrushDescInfo};
use brushkit::abr::rle::{decode_rle, decode_rle_row};
use brushkit::abr::samp::{
    documented_rect_offset, extract_entry_uuid, find_all_uuid_offsets, find_bitmap_header,
    frame_samp_entries_by_length, is_uuid_at, parse_samp_block, SampEntry, SUB2_RECT_OFFSET,
};
use brushkit::abr::tip::{decode_bitmap, BitmapHeader};
use brushkit::abr::{
    parse_abr, parse_abr_deferred, parse_abr_deferred_without_patterns, AbrError, AbrVersion,
    BrushDescriptor, ComputedGeometry, ShapeTipFamily, TipBitmap,
};
use brushkit::support::double::Double;
use byteorder::{BigEndian, WriteBytesExt};

fn double(v: f64) -> Double {
    Double { bits: v.to_bits() }
}

#[derive(Debug)]
struct FoundBlock {
    block_type: String,
    data: Vec<u8>,
}

fn blocks_of(file: &[u8], patterns: PatternMode) -> Result<Vec<FoundBlock>, AbrError> {
    let blocks = read_blocks(file, 0, patterns)?;
    Ok(blocks
        .iter()
        .map(|b| FoundBlock {
            block_type: String::from_utf8_lossy(&b.kind.to_be_bytes()).into_owned(),
            data: file[b.start..b.end].to_vec(),
        })
        .collect())
}

fn samp_entries(block: &[u8], version: AbrVersion, subversion: u16) -> Vec<Option<SampEntry>> {
    let mut tips = Vec::new();
    parse_samp_block(block, 0, block.len(), version, subversion, false, &mut tips);
    tips.into_iter().map(Some).collect()
}

fn channel_slot(w: u32, h: u32, compression: u8, pixel_data: &[u8]) -> Vec<u8> {
    let mut header = Vec::new();
    header.write_u32::<BigEndian>(8).unwrap();
    for v in [0u32, 0, h, w] {
        header.write_u32::<BigEndian>(v).unwrap();
    }
    header.write_u16::<BigEndian>(8).unwrap();
    header.write_u8(compression).unwrap();
    header.extend_from_slice(pixel_data);

    let mut slot = Vec::new();
    slot.write_u32::<BigEndian>(1).unwrap();
    slot.write_u32::<BigEndian>(header.len() as u32).unwrap();
    slot.extend_from_slice(&header);
    slot
}

fn record_body(
    mode: u32,
    dims: (u32, u32),
    name: &str,
    uuid: &str,
    palette: Option<&[u8; 768]>,
    slots: &[Vec<u8>],
    unwritten_slots: usize,
) -> Vec<u8> {
    let (w, h) = dims;
    let mut r = Vec::new();
    r.write_u32::<BigEndian>(1).unwrap();
    r.write_u32::<BigEndian>(mode).unwrap();
    r.write_u16::<BigEndian>(h as u16).unwrap();
    r.write_u16::<BigEndian>(w as u16).unwrap();

    let utf16: Vec<u16> = name.encode_utf16().chain(std::iter::once(0)).collect();
    r.write_u32::<BigEndian>(utf16.len() as u32).unwrap();
    for u in &utf16 {
        r.write_u16::<BigEndian>(*u).unwrap();
    }

    r.write_u8(uuid.len() as u8).unwrap();
    r.extend_from_slice(uuid.as_bytes());

    if let Some(p) = palette {
        r.extend_from_slice(p);
        r.write_u16::<BigEndian>(256).unwrap();
        r.write_u16::<BigEndian>(255).unwrap();
    }

    r.write_u32::<BigEndian>(3).unwrap();
    r.write_u32::<BigEndian>(0).unwrap();
    for v in [0u32, 0, h, w] {
        r.write_u32::<BigEndian>(v).unwrap();
    }
    r.write_u32::<BigEndian>((slots.len() + unwritten_slots) as u32)
        .unwrap();
    for slot in slots {
        r.extend_from_slice(slot);
    }
    for _ in 0..unwritten_slots {
        r.write_u32::<BigEndian>(0).unwrap();
    }
    r
}

fn record_block(bodies: &[Vec<u8>]) -> Vec<u8> {
    let mut out = Vec::new();
    for body in bodies {
        out.write_u32::<BigEndian>(body.len() as u32).unwrap();
        out.extend_from_slice(body);
        while out.len() % 4 != 0 {
            out.push(0);
        }
    }
    out
}

fn unreadable_chunk() -> Vec<u8> {
    let mut junk = Vec::new();
    junk.write_u32::<BigEndian>(1).unwrap();
    junk.write_u32::<BigEndian>(1).unwrap();
    junk.write_u16::<BigEndian>(2).unwrap();
    junk.write_u16::<BigEndian>(2).unwrap();
    junk.write_u32::<BigEndian>(u32::MAX).unwrap();
    junk
}

fn tiny_bitmap() -> TipBitmap {
    TipBitmap {
        width: 1,
        height: 1,
        depth: 8,
        data: vec![255u8],
    }
}

fn samp(uuid: Option<&str>) -> SampEntry {
    SampEntry {
        uuid: uuid.map(str::to_string),
        bitmap: tiny_bitmap(),
        deferred: None,
    }
}

fn info(name: &str, uuid: Option<&str>, scale: Option<Double>) -> BrushDescInfo {
    BrushDescInfo {
        name: name.to_string(),
        sampled_data_uuid: uuid.map(str::to_string),
        dual_brush_uuid: None,
        has_shape_tip: false,
        shape_tip_family: None,
        tip_shape: None,
        descriptor: BrushDescriptor {
            texture_scale_pct: scale,
            ..Default::default()
        },
    }
}

fn info_dual(name: &str, uuid: Option<&str>, dual_uuid: &str) -> BrushDescInfo {
    BrushDescInfo {
        name: name.to_string(),
        sampled_data_uuid: uuid.map(str::to_string),
        dual_brush_uuid: Some(dual_uuid.to_string()),
        has_shape_tip: false,
        shape_tip_family: None,
        tip_shape: None,
        descriptor: BrushDescriptor::default(),
    }
}

#[test]
fn unsupported_tip_presets_collect_only_presets_with_neither_tip_nor_geometry() {
    let mut computed = info("Computed", None, None);
    computed.descriptor.computed = Some(ComputedGeometry {
        diameter_px: Some(double(30.0)),
        ..Default::default()
    });
    let mut bristle = info("Bristle", None, None);
    bristle.has_shape_tip = true;
    bristle.shape_tip_family = Some(ShapeTipFamily::Bristle);
    let infos = vec![
        info("Resolvable", Some("uuid-x"), None),
        info("Dangling", Some("uuid-missing"), None),
        computed,
        bristle,
    ];

    let collected = collect_unsupported_tip_presets(&infos);
    assert_eq!(
        collected.len(),
        1,
        "only the tip-less, geometry-less preset"
    );
    assert_eq!(collected[0].name, "Bristle");
    assert_eq!(collected[0].preset_index, 3, "ordinal in desc order");
    assert!(collected[0].has_shape_tip);
    assert_eq!(
        collected[0].shape_tip_family,
        Some(ShapeTipFamily::Bristle)
    );
}

#[test]
fn unsupported_tip_preset_without_shape_tip_is_still_collected() {
    let infos = vec![info("Empty", None, None)];
    let collected = collect_unsupported_tip_presets(&infos);
    assert_eq!(collected.len(), 1);
    assert!(!collected[0].has_shape_tip);
    assert!(collected[0].shape_tip_family.is_none());
}

#[test]
fn duplicate_main_uuid_emits_both_presets() {
    let bitmaps = vec![samp(Some("uuid-x"))];
    let infos = vec![
        info("P1", Some("uuid-x"), Some(double(43.0))),
        info("P2", Some("uuid-x"), Some(double(47.0))),
    ];
    let PairedBrushes {
        brushes,
        dropped_samp_count,
        skipped_preset_count,
        ..
    } = pair_brushes(bitmaps, &infos);
    assert_eq!(brushes.len(), 2);
    assert_eq!(brushes[0].name, "P1");
    assert_eq!(brushes[0].descriptor.texture_scale_pct, Some(double(43.0)));
    assert_eq!(brushes[0].id, "uuid-x");
    assert_eq!(brushes[1].name, "P2");
    assert_eq!(brushes[1].descriptor.texture_scale_pct, Some(double(47.0)));
    assert_eq!(brushes[1].id, "uuid-x-2");
    assert_eq!(dropped_samp_count, 0);
    assert_eq!(skipped_preset_count, 0);
}

#[test]
fn dual_only_samp_not_emitted() {
    let bitmaps = vec![samp(Some("uuid-a")), samp(Some("uuid-b"))];
    let infos = vec![info("A", Some("uuid-a"), Some(double(40.0)))];
    let PairedBrushes { brushes, .. } = pair_brushes(bitmaps, &infos);
    assert_eq!(brushes.len(), 1);
    assert_eq!(brushes[0].id, "uuid-a");
    assert_eq!(brushes[0].descriptor.texture_scale_pct, Some(double(40.0)));
}

#[test]
fn no_resolvable_uuids_falls_back_to_index_pairing() {
    let bitmaps = vec![samp(None), samp(None)];
    let infos = vec![info("First", None, None), info("Second", None, None)];
    let PairedBrushes { brushes, .. } = pair_brushes(bitmaps, &infos);
    assert_eq!(brushes.len(), 2);
    assert_eq!(brushes[0].name, "Second");
    assert_eq!(brushes[1].name, "First");
}

#[test]
fn presets_first_preset_index_has_gap_for_skipped() {
    let bitmaps = vec![samp(Some("uuid-a")), samp(Some("uuid-c"))];
    let infos = vec![
        info("A", Some("uuid-a"), None),
        info("B", Some("uuid-y-dangling"), None),
        info("C", Some("uuid-c"), None),
    ];
    let PairedBrushes { brushes, .. } = pair_brushes(bitmaps, &infos);
    assert_eq!(brushes.len(), 2);
    assert_eq!(brushes[0].name, "A");
    assert_eq!(brushes[0].preset_index, Some(0));
    assert_eq!(brushes[1].name, "C");
    assert_eq!(brushes[1].preset_index, Some(2));
}

#[test]
fn fallback_preset_index_is_positional_post_reverse() {
    let bitmaps = vec![samp(None), samp(None)];
    let infos = vec![info("First", None, None), info("Second", None, None)];
    let PairedBrushes { brushes, .. } = pair_brushes(bitmaps, &infos);
    assert_eq!(brushes[0].name, "Second");
    assert_eq!(brushes[0].preset_index, Some(1));
    assert_eq!(brushes[1].name, "First");
    assert_eq!(brushes[1].preset_index, Some(0));
}

#[test]
fn preset_index_aligns_with_dump_ordinals() {
    let samp = build_v10_entry(8, 8, 0xDD);
    let desc = build_mixed_desc_block();
    let mut d = Vec::new();
    d.write_u16::<BigEndian>(10).unwrap();
    d.write_u16::<BigEndian>(2).unwrap();
    d.extend_from_slice(b"8BIM");
    d.extend_from_slice(b"samp");
    d.write_u32::<BigEndian>(samp.len() as u32).unwrap();
    d.extend_from_slice(&samp);
    d.resize(d.len().next_multiple_of(4), 0);
    d.extend_from_slice(b"8BIM");
    d.extend_from_slice(b"desc");
    d.write_u32::<BigEndian>(desc.len() as u32).unwrap();
    d.extend_from_slice(&desc);

    let pack = parse_abr(&d).unwrap();
    let dump = dump_descriptors(pack.raw_desc_block.as_ref().unwrap());

    let name_at = |pi: usize| -> String {
        let preset = dump.presets.iter().find(|p| p.index == pi).unwrap();
        preset
            .items
            .iter()
            .find_map(|it| match &it.value {
                DumpValue::Text(s) if it.key == "Nm  " => Some(s.clone()),
                _ => None,
            })
            .unwrap()
    };

    let b = &pack.brushes[0];
    let pi = b.preset_index.expect("sampled brush has preset_index");
    assert_eq!(name_at(pi), b.name);
    let c = &pack.computed_presets[0];
    let cpi = c.preset_index.expect("computed preset has preset_index");
    assert_eq!(name_at(cpi), c.name);
}

#[test]
fn unresolvable_preset_skipped() {
    let bitmaps = vec![samp(Some("uuid-x"))];
    let infos = vec![
        info("X", Some("uuid-x"), Some(double(50.0))),
        info("Y", Some("uuid-y-dangling"), Some(double(99.0))),
    ];
    let PairedBrushes { brushes, .. } = pair_brushes(bitmaps, &infos);
    assert_eq!(brushes.len(), 1);
    assert_eq!(brushes[0].name, "X");
    assert_eq!(brushes[0].id, "uuid-x");
}

#[test]
fn counts_dropped_dual_only_samps() {
    let bitmaps = vec![samp(Some("uuid-a")), samp(Some("uuid-b"))];
    let infos = vec![info("A", Some("uuid-a"), None)];
    let PairedBrushes {
        dropped_samp_count,
        skipped_preset_count,
        ..
    } = pair_brushes(bitmaps, &infos);
    assert_eq!(dropped_samp_count, 1);
    assert_eq!(skipped_preset_count, 0);
}

#[test]
fn counts_dangling_preset() {
    let bitmaps = vec![samp(Some("uuid-x"))];
    let infos = vec![
        info("X", Some("uuid-x"), None),
        info("Y", Some("uuid-y-dangling"), None),
    ];
    let PairedBrushes {
        dropped_samp_count,
        skipped_preset_count,
        ..
    } = pair_brushes(bitmaps, &infos);
    assert_eq!(dropped_samp_count, 0);
    assert_eq!(skipped_preset_count, 1);
}

#[test]
fn counts_zero_on_fallback() {
    let bitmaps = vec![samp(None), samp(None)];
    let infos = vec![info("First", None, None), info("Second", None, None)];
    let PairedBrushes {
        dropped_samp_count,
        skipped_preset_count,
        ..
    } = pair_brushes(bitmaps, &infos);
    assert_eq!(dropped_samp_count, 0);
    assert_eq!(skipped_preset_count, 0);
}

#[test]
fn attributes_dropped_tip_to_dual_owner() {
    let bitmaps = vec![samp(Some("uuid-a")), samp(Some("uuid-b"))];
    let infos = vec![info_dual("P1", Some("uuid-a"), "uuid-b")];
    let PairedBrushes {
        dropped_tip_details,
        dropped_samp_count,
        skipped_preset_count,
        ..
    } = pair_brushes(bitmaps, &infos);
    assert_eq!(dropped_samp_count, 1);
    assert_eq!(skipped_preset_count, 0);
    assert_eq!(dropped_tip_details.len(), 1);
    assert_eq!(dropped_tip_details[0].uuid.as_deref(), Some("uuid-b"));
    assert_eq!(dropped_tip_details[0].owner_preset_names, vec!["P1"]);
}

#[test]
fn dual_ref_to_emitted_main_tip_not_listed() {
    let bitmaps = vec![samp(Some("uuid-a")), samp(Some("uuid-b"))];
    let infos = vec![
        info_dual("P1", Some("uuid-a"), "uuid-b"),
        info("P2", Some("uuid-b"), None),
    ];
    let PairedBrushes {
        dropped_tip_details,
        dropped_samp_count,
        skipped_preset_count,
        ..
    } = pair_brushes(bitmaps, &infos);
    assert_eq!(dropped_samp_count, 0);
    assert_eq!(skipped_preset_count, 0);
    assert!(dropped_tip_details.is_empty());
}

#[test]
fn dangling_preset_detail_carries_name_and_uuid() {
    let bitmaps = vec![samp(Some("uuid-x"))];
    let infos = vec![
        info("X", Some("uuid-x"), None),
        info("Y", Some("uuid-y-dangling"), None),
    ];
    let PairedBrushes {
        skipped_preset_details,
        ..
    } = pair_brushes(bitmaps, &infos);
    assert_eq!(skipped_preset_details.len(), 1);
    assert_eq!(skipped_preset_details[0].name, "Y");
    assert_eq!(skipped_preset_details[0].uuid, "uuid-y-dangling");
}

#[test]
fn unreferenced_tip_without_owner_has_empty_owners() {
    let bitmaps = vec![samp(Some("uuid-a")), samp(Some("uuid-b"))];
    let infos = vec![info("P1", Some("uuid-a"), None)];
    let PairedBrushes {
        dropped_tip_details,
        ..
    } = pair_brushes(bitmaps, &infos);
    assert_eq!(dropped_tip_details.len(), 1);
    assert_eq!(dropped_tip_details[0].uuid.as_deref(), Some("uuid-b"));
    assert!(dropped_tip_details[0].owner_preset_names.is_empty());
}

#[test]
fn corrupt_desc_block_sets_diagnostic_and_falls_back() {
    let samp = build_v10_entry(8, 8, 0xDD);
    let mut desc = Vec::new();
    desc.write_u32::<BigEndian>(16).unwrap();

    let mut d = Vec::new();
    d.write_u16::<BigEndian>(10).unwrap();
    d.write_u16::<BigEndian>(2).unwrap();
    d.extend_from_slice(b"8BIM");
    d.extend_from_slice(b"samp");
    d.write_u32::<BigEndian>(samp.len() as u32).unwrap();
    d.extend_from_slice(&samp);
    d.resize(d.len().next_multiple_of(4), 0);
    d.extend_from_slice(b"8BIM");
    d.extend_from_slice(b"desc");
    d.write_u32::<BigEndian>(desc.len() as u32).unwrap();
    d.extend_from_slice(&desc);

    let pack = parse_abr(&d).expect("parse_abr returns Ok despite corrupt desc");
    assert!(
        pack.desc_parse_error.is_some(),
        "corrupt desc block sets the diagnostic"
    );
    assert!(
        !pack.brushes.is_empty(),
        "fallback pairing still emits the samp bitmap"
    );
}

#[test]
fn descriptor_defaults_when_no_desc_block() {
    let entry = build_simple_entry(4, 4, 8, 0xAB);
    let mut block = Vec::new();
    block.write_u32::<BigEndian>(entry.len() as u32).unwrap();
    block.extend_from_slice(&entry);

    let mut d = Vec::new();
    d.write_u16::<BigEndian>(6).unwrap();
    d.write_u16::<BigEndian>(1).unwrap();
    d.extend_from_slice(b"8BIM");
    d.extend_from_slice(b"samp");
    d.write_u32::<BigEndian>(block.len() as u32).unwrap();
    d.extend_from_slice(&block);

    let pack = parse_abr(&d).unwrap();
    assert_eq!(pack.brushes.len(), 1);
    assert_eq!(pack.brushes[0].descriptor.spacing_pct, None);
}

#[test]
fn preset_count_v2_counts_skipped_computed_entry() {
    let mut d = Vec::new();
    d.write_u16::<BigEndian>(2).unwrap();
    d.write_u16::<BigEndian>(1).unwrap();
    d.write_u16::<BigEndian>(1).unwrap();
    d.write_u32::<BigEndian>(4).unwrap();
    d.extend_from_slice(&[0u8; 4]);
    let pack = parse_abr(&d).unwrap();
    assert!(pack.brushes.is_empty());
    assert_eq!(pack.preset_count, 1);
    assert!(
        pack.desc_parse_error.is_none(),
        "v2 files carry no desc block"
    );
}

const MIXED_UUID: &str = "a1b2c3d4-e5f6-7890-abcd-ef1234567890";

fn desc_unit(buf: &mut Vec<u8>, key: &[u8; 4], unit: &[u8; 4], val: f64) {
    buf.write_u32::<BigEndian>(0).unwrap();
    buf.extend_from_slice(key);
    buf.extend_from_slice(b"UntF");
    buf.extend_from_slice(unit);
    buf.write_f64::<BigEndian>(val).unwrap();
}

fn desc_name(buf: &mut Vec<u8>, name: &str) {
    buf.write_u32::<BigEndian>(0).unwrap();
    buf.extend_from_slice(b"Nm  ");
    buf.extend_from_slice(b"TEXT");
    let u: Vec<u16> = name.encode_utf16().collect();
    buf.write_u32::<BigEndian>(u.len() as u32 + 1).unwrap();
    for c in &u {
        buf.write_u16::<BigEndian>(*c).unwrap();
    }
    buf.write_u16::<BigEndian>(0).unwrap();
}

fn desc_preset_header(buf: &mut Vec<u8>, item_count: u32) {
    buf.extend_from_slice(b"Objc");
    buf.write_u32::<BigEndian>(1).unwrap();
    buf.write_u16::<BigEndian>(0).unwrap();
    buf.write_u32::<BigEndian>(11).unwrap();
    buf.extend_from_slice(b"brushPreset");
    buf.write_u32::<BigEndian>(item_count).unwrap();
}

fn build_mixed_desc_block() -> Vec<u8> {
    let mut buf = Vec::new();
    buf.write_u32::<BigEndian>(16).unwrap();
    buf.write_u32::<BigEndian>(1).unwrap();
    buf.write_u16::<BigEndian>(0).unwrap();
    buf.write_u32::<BigEndian>(0).unwrap();
    buf.extend_from_slice(b"null");
    buf.write_u32::<BigEndian>(1).unwrap();
    buf.write_u32::<BigEndian>(0).unwrap();
    buf.extend_from_slice(b"Brsh");
    buf.extend_from_slice(b"VlLs");
    buf.write_u32::<BigEndian>(2).unwrap();

    desc_preset_header(&mut buf, 2);
    desc_name(&mut buf, "Sampled");
    buf.write_u32::<BigEndian>(11).unwrap();
    buf.extend_from_slice(b"sampledData");
    buf.extend_from_slice(b"TEXT");
    let u: Vec<u16> = MIXED_UUID.encode_utf16().collect();
    buf.write_u32::<BigEndian>(u.len() as u32 + 1).unwrap();
    for c in &u {
        buf.write_u16::<BigEndian>(*c).unwrap();
    }
    buf.write_u16::<BigEndian>(0).unwrap();

    desc_preset_header(&mut buf, 2);
    desc_name(&mut buf, "Computed");
    buf.write_u32::<BigEndian>(0).unwrap();
    buf.extend_from_slice(b"Brsh");
    buf.extend_from_slice(b"Objc");
    buf.write_u32::<BigEndian>(1).unwrap();
    buf.write_u16::<BigEndian>(0).unwrap();
    buf.write_u32::<BigEndian>(13).unwrap();
    buf.extend_from_slice(b"computedBrush");
    buf.write_u32::<BigEndian>(5).unwrap();
    desc_unit(&mut buf, b"Dmtr", b"#Pxl", 30.0);
    desc_unit(&mut buf, b"Hrdn", b"#Prc", 80.0);
    desc_unit(&mut buf, b"Angl", b"#Ang", 45.0);
    desc_unit(&mut buf, b"Rndn", b"#Prc", 60.0);
    desc_unit(&mut buf, b"Spcn", b"#Prc", 25.0);

    buf
}

#[test]
fn mixed_pack_splits_sampled_and_computed() {
    let samp = build_v10_entry(8, 8, 0xDD);
    let desc = build_mixed_desc_block();

    let mut d = Vec::new();
    d.write_u16::<BigEndian>(10).unwrap();
    d.write_u16::<BigEndian>(2).unwrap();
    d.extend_from_slice(b"8BIM");
    d.extend_from_slice(b"samp");
    d.write_u32::<BigEndian>(samp.len() as u32).unwrap();
    d.extend_from_slice(&samp);
    d.resize(d.len().next_multiple_of(4), 0);
    d.extend_from_slice(b"8BIM");
    d.extend_from_slice(b"desc");
    d.write_u32::<BigEndian>(desc.len() as u32).unwrap();
    d.extend_from_slice(&desc);

    let pack = parse_abr(&d).unwrap();

    assert_eq!(pack.preset_count, 2);
    assert_eq!(pack.brushes.len(), 1);
    assert_eq!(pack.brushes[0].name, "Sampled");
    assert!(!pack.brushes[0].synthesized);
    assert!(pack.brushes[0].descriptor.computed.is_none());

    assert_eq!(pack.computed_presets.len(), 1);
    let cp = &pack.computed_presets[0];
    assert_eq!(cp.name, "Computed");
    assert_eq!(cp.descriptor.spacing_pct, Some(double(25.0)));
    assert_eq!(
        cp.descriptor.computed,
        Some(ComputedGeometry {
            diameter_px: Some(double(30.0)),
            hardness_pct: Some(double(80.0)),
            angle_deg: Some(double(45.0)),
            roundness_pct: Some(double(60.0)),
        })
    );
}

#[test]
fn test_read_header_v6() {
    let data: [u8; 4] = [0, 6, 0, 1];
    let (v, s) = read_header(&data).unwrap();
    assert_eq!(v, AbrVersion::V6);
    assert_eq!(s, 1);
}

#[test]
fn test_read_header_v10() {
    let data: [u8; 4] = [0, 10, 0, 2];
    let (v, _) = read_header(&data).unwrap();
    assert_eq!(v, AbrVersion::V10);
}

#[test]
fn test_read_header_invalid() {
    let data: [u8; 2] = [0, 6];
    assert!(read_header(&data).is_err());
}

#[test]
fn test_parse_abr_v1_empty() {
    let mut d = Vec::new();
    d.write_u16::<BigEndian>(1).unwrap();
    d.write_u16::<BigEndian>(0).unwrap();
    let pack = parse_abr(&d).unwrap();
    assert_eq!(pack.version, AbrVersion::V1);
    assert!(pack.brushes.is_empty());
    assert_eq!(pack.preset_count, 0);
}

#[test]
fn test_parse_abr_v1_sampled_entry_has_no_name_field() {
    let mut d = Vec::new();
    d.write_u16::<BigEndian>(1).unwrap();
    d.write_u16::<BigEndian>(2).unwrap();

    d.write_u16::<BigEndian>(1).unwrap();
    d.write_u32::<BigEndian>(3).unwrap();
    d.extend_from_slice(&[0xAA, 0xBB, 0xCC]);

    d.write_u16::<BigEndian>(2).unwrap();
    d.write_u32::<BigEndian>(36).unwrap();
    d.write_u32::<BigEndian>(16).unwrap();
    d.write_u16::<BigEndian>(25).unwrap();
    d.push(1);
    for v in [0i16, 0, 1, 2] {
        d.write_i16::<BigEndian>(v).unwrap();
    }
    for v in [0i32, 0, 1, 2] {
        d.write_i32::<BigEndian>(v).unwrap();
    }
    d.write_u16::<BigEndian>(8).unwrap();
    d.push(0);
    d.extend_from_slice(&[0x10, 0x20]);

    let pack = parse_abr(&d).unwrap();
    assert_eq!(pack.version, AbrVersion::V1);
    assert_eq!(pack.preset_count, 2);
    assert_eq!(pack.brushes.len(), 1);
    let b = &pack.brushes[0];
    assert_eq!(b.id, "brush_0");
    assert_eq!(b.name, "");
    assert_eq!((b.tip.width, b.tip.height, b.tip.depth), (2, 1, 8));
    assert_eq!(b.tip.data, vec![0x10, 0x20]);
    assert_eq!(b.preset_index, None);
    assert!(!b.synthesized);
}

#[test]
fn test_parse_abr_v9_reaches_block_path() {
    let mut d = Vec::new();
    d.write_u16::<BigEndian>(9).unwrap();
    d.write_u16::<BigEndian>(2).unwrap();
    let pack = parse_abr(&d).unwrap();
    assert_eq!(pack.version, AbrVersion::V9);
    assert!(pack.brushes.is_empty());
}

#[test]
fn test_parse_abr_v7_reaches_block_path() {
    let mut d = Vec::new();
    d.write_u16::<BigEndian>(7).unwrap();
    d.write_u16::<BigEndian>(2).unwrap();
    let pack = parse_abr(&d).unwrap();
    assert_eq!(pack.version, AbrVersion::V7);
    assert!(pack.brushes.is_empty());
}

#[test]
fn test_documented_rect_offset_v7_follows_sub2() {
    assert_eq!(
        documented_rect_offset(AbrVersion::V7, 2),
        Some(SUB2_RECT_OFFSET)
    );
    assert_eq!(documented_rect_offset(AbrVersion::V7, 1), None);
}

#[test]
fn test_parse_abr_unknown_major_is_unsupported() {
    let mut d = Vec::new();
    d.write_u16::<BigEndian>(8).unwrap();
    d.write_u16::<BigEndian>(2).unwrap();
    let err = parse_abr(&d).unwrap_err();
    assert!(
        matches!(err, AbrError::UnsupportedVersion(8)),
        "expected UnsupportedVersion(8), got {err:?}"
    );
    let msg = err.message();
    assert!(msg.contains('8'), "message must name the version: {msg}");
    assert!(
        !msg.contains("invalid"),
        "a version issue must not read as a damaged file: {msg}"
    );
}

#[test]
fn test_parse_abr_truncated_is_invalid_header() {
    let err = parse_abr(&[0, 9]).unwrap_err();
    assert!(
        matches!(err, AbrError::InvalidHeader),
        "expected InvalidHeader, got {err:?}"
    );
    assert!(
        err.message().contains("header"),
        "message must point at the header: {err:?}"
    );
}

#[test]
fn test_parse_abr_foreign_signature_is_invalid_header() {
    let png = b"\x89PNG\r\n\x1a\n\x00\x00\x00\x0dIHDR";
    let err = parse_abr(png).unwrap_err();
    assert!(
        matches!(err, AbrError::InvalidHeader),
        "expected InvalidHeader, got {err:?}"
    );
    let msg = err.message();
    assert!(
        !msg.contains("35152"),
        "a foreign signature must not be reported as a version: {msg}"
    );
}

#[test]
fn test_parse_abr_v2_empty() {
    let mut d = Vec::new();
    d.write_u16::<BigEndian>(2).unwrap();
    d.write_u16::<BigEndian>(0).unwrap();
    let pack = parse_abr(&d).unwrap();
    assert_eq!(pack.version, AbrVersion::V2);
    assert!(pack.brushes.is_empty());
}

#[test]
fn test_parse_abr_empty_v6() {
    let mut d = Vec::new();
    d.write_u16::<BigEndian>(6).unwrap();
    d.write_u16::<BigEndian>(1).unwrap();
    let pack = parse_abr(&d).unwrap();
    assert_eq!(pack.version, AbrVersion::V6);
    assert!(pack.brushes.is_empty());
}

#[test]
fn test_read_blocks_basic() {
    let mut d = Vec::new();
    d.extend_from_slice(b"8BIM");
    d.extend_from_slice(b"test");
    d.write_u32::<BigEndian>(5).unwrap();
    d.extend_from_slice(b"hello");
    let blocks = blocks_of(&d, PatternMode::Read).unwrap();
    assert_eq!(blocks.len(), 1);
    assert_eq!(blocks[0].block_type, "test");
}

#[test]
fn read_blocks_skips_padding_to_four_bytes_between_blocks() {
    let mut d = Vec::new();
    d.extend_from_slice(b"8BIM");
    d.extend_from_slice(b"desc");
    d.write_u32::<BigEndian>(5).unwrap();
    d.extend_from_slice(b"hello");
    d.extend_from_slice(&[0u8; 3]); // pad 17 -> 20
    d.extend_from_slice(b"8BIM");
    d.extend_from_slice(b"samp");
    d.write_u32::<BigEndian>(4).unwrap();
    d.extend_from_slice(b"data");
    let blocks = blocks_of(&d, PatternMode::Read).unwrap();
    let types: Vec<&str> = blocks.iter().map(|b| b.block_type.as_str()).collect();
    assert_eq!(types, ["desc", "samp"]);
    assert_eq!(blocks[1].data, b"data");
}

#[test]
fn read_blocks_accepts_an_unaligned_final_block_without_padding() {
    let mut d = Vec::new();
    d.extend_from_slice(b"8BIM");
    d.extend_from_slice(b"desc");
    d.write_u32::<BigEndian>(5).unwrap();
    d.extend_from_slice(b"hello");
    let blocks = blocks_of(&d, PatternMode::Read).unwrap();
    assert_eq!(blocks.len(), 1);
    assert_eq!(blocks[0].block_type, "desc");
    assert_eq!(blocks[0].data, b"hello");
}

fn push_block(file: &mut Vec<u8>, kind: &[u8; 4], payload: &[u8]) {
    file.extend_from_slice(b"8BIM");
    file.extend_from_slice(kind);
    file.write_u32::<BigEndian>(payload.len() as u32).unwrap();
    file.extend_from_slice(payload);
    file.resize(file.len().next_multiple_of(4), 0);
}

#[test]
fn read_blocks_in_skip_mode_omits_patt_and_keeps_the_walk() {
    let mut d = Vec::new();
    push_block(&mut d, b"patt", b"hello");
    push_block(&mut d, b"samp", b"data");
    d.extend_from_slice(b"8BIM");
    d.extend_from_slice(b"patt");
    d.write_u32::<BigEndian>(3).unwrap();
    d.extend_from_slice(b"end");

    let read = blocks_of(&d, PatternMode::Read).unwrap();
    let types: Vec<&str> = read.iter().map(|b| b.block_type.as_str()).collect();
    assert_eq!(types, ["patt", "samp", "patt"]);

    let skipped = blocks_of(&d, PatternMode::Skip).unwrap();
    assert_eq!(skipped.len(), 1);
    assert_eq!(skipped[0].block_type, "samp");
    assert_eq!(skipped[0].data, b"data");
}

fn gray_record(uuid: &str, pixels: [u8; 4]) -> Vec<u8> {
    let channel = channel_slot(2, 2, 0, &pixels);
    record_body(1, (2, 2), "gray", uuid, None, &[channel], 23)
}

fn v10_header() -> Vec<u8> {
    let mut d = Vec::new();
    d.write_u16::<BigEndian>(10).unwrap();
    d.write_u16::<BigEndian>(2).unwrap();
    d
}

fn pack_with_every_pattern_outcome() -> Vec<u8> {
    let bad_ch = channel_slot(2, 2, 0, &[10, 20, 30, 40]);
    let bad = record_body(4, (2, 2), "unsupported", "uuid-mode4", None, &[bad_ch], 23);
    let patt = record_block(&[
        gray_record("uuid-good", [1, 2, 3, 4]),
        unreadable_chunk(),
        bad,
    ]);

    let mut d = v10_header();
    push_block(&mut d, b"samp", &build_v10_entry(8, 8, 0xDD));
    push_block(&mut d, b"patt", &patt);
    push_block(&mut d, b"desc", &build_mixed_desc_block());
    d
}

#[test]
fn without_patterns_leaves_every_pattern_field_empty_and_the_rest_intact() {
    let d = pack_with_every_pattern_outcome();

    let full = parse_abr(&d).unwrap();
    assert_eq!(full.patterns.len(), 1);
    assert_eq!(full.patterns[0].id, "uuid-good");
    assert_eq!(full.dropped_pattern_count, 1);
    assert_eq!(full.dropped_pattern_details.len(), 1);
    assert_eq!(full.unreadable_patt_chunk_count, 1);
    assert_eq!(full.unreadable_patt_chunks.len(), 1);

    let deferred = parse_abr_deferred(&d).unwrap();
    assert_eq!(deferred.pack.patterns.len(), 1);
    assert_eq!(deferred.pack.dropped_pattern_count, 1);
    assert_eq!(deferred.pack.unreadable_patt_chunk_count, 1);

    let skipped = parse_abr_deferred_without_patterns(&d).unwrap();
    let pack = &skipped.pack;
    assert!(pack.patterns.is_empty());
    assert_eq!(pack.dropped_pattern_count, 0);
    assert!(pack.dropped_pattern_details.is_empty());
    assert_eq!(pack.unreadable_patt_chunk_count, 0);
    assert!(pack.unreadable_patt_chunks.is_empty());

    assert_eq!(pack.version, full.version);
    assert_eq!(pack.preset_count, full.preset_count);
    assert_eq!(pack.raw_desc_block, full.raw_desc_block);
    assert_eq!(pack.computed_presets.len(), full.computed_presets.len());
    assert_eq!(pack.desc_parse_error, full.desc_parse_error);
    assert_eq!(pack.brushes.len(), 1);
    assert_eq!(pack.brushes.len(), full.brushes.len());
    for (i, brush) in full.brushes.iter().enumerate() {
        assert_eq!(pack.brushes[i].id, brush.id);
        assert_eq!(pack.brushes[i].name, brush.name);
        assert!(skipped.is_deferred(i));
        let tip = skipped.decode_tip(i).unwrap();
        assert_eq!(
            (tip.width, tip.height, tip.depth),
            (brush.tip.width, brush.tip.height, brush.tip.depth)
        );
        assert_eq!(tip.data, brush.tip.data);
        assert_eq!(tip.data, deferred.decode_tip(i).unwrap().data);
    }
}

#[test]
fn without_patterns_still_rejects_a_patt_block_that_overruns_the_file() {
    for declared in [u32::MAX, 5] {
        let mut d = v10_header();
        d.extend_from_slice(b"8BIMpatt");
        d.write_u32::<BigEndian>(declared).unwrap();
        d.extend_from_slice(b"1234");

        assert!(
            matches!(parse_abr(&d), Err(AbrError::MalformedBlock { .. })),
            "full parse must reject a patt block claiming {declared} bytes"
        );
        assert!(
            matches!(
                parse_abr_deferred_without_patterns(&d),
                Err(AbrError::MalformedBlock { .. })
            ),
            "skipping parse must reject a patt block claiming {declared} bytes"
        );
    }
}

#[test]
fn without_patterns_walks_unaligned_patt_blocks_to_the_samp_and_desc_behind_them() {
    let mut d = v10_header();
    let mut first = record_block(&[gray_record("uuid-first", [1, 2, 3, 4])]);
    first.push(0);
    assert_eq!(first.len() % 4, 1);
    push_block(&mut d, b"patt", &first);
    let mut second = record_block(&[gray_record("uuid-second", [5, 6, 7, 8])]);
    second.extend_from_slice(&[0, 0, 0]);
    assert_eq!(second.len() % 4, 3);
    push_block(&mut d, b"patt", &second);
    push_block(&mut d, b"samp", &build_v10_entry(8, 8, 0xDD));
    push_block(&mut d, b"desc", &build_mixed_desc_block());
    let mut last = record_block(&[gray_record("uuid-last", [9, 10, 11, 12])]);
    last.extend_from_slice(&[0, 0]);
    d.extend_from_slice(b"8BIMpatt");
    d.write_u32::<BigEndian>(last.len() as u32).unwrap();
    d.extend_from_slice(&last);
    assert_eq!(
        d.len() % 4,
        2,
        "the final block ends unaligned and unpadded"
    );

    let full = parse_abr(&d).unwrap();
    let ids: Vec<&str> = full.patterns.iter().map(|p| p.id.as_str()).collect();
    assert_eq!(ids, ["uuid-first", "uuid-second", "uuid-last"]);
    assert_eq!(full.brushes.len(), 1);

    let skipped = parse_abr_deferred_without_patterns(&d).unwrap();
    assert!(skipped.pack.patterns.is_empty());
    assert_eq!(skipped.pack.preset_count, 2);
    assert_eq!(skipped.pack.computed_presets.len(), 1);
    assert_eq!(skipped.pack.brushes.len(), 1);
    assert_eq!(skipped.pack.brushes[0].name, "Sampled");
    assert_eq!(
        skipped.decode_tip(0).unwrap().data,
        full.brushes[0].tip.data
    );
}

fn build_simple_entry(w: u32, h: u32, depth: u8, val: u8) -> Vec<u8> {
    let mut buf = Vec::new();
    buf.write_u32::<BigEndian>(0).unwrap();
    buf.write_i32::<BigEndian>(0).unwrap();
    buf.write_i32::<BigEndian>(0).unwrap();
    buf.write_i32::<BigEndian>(h as i32).unwrap();
    buf.write_i32::<BigEndian>(w as i32).unwrap();
    buf.write_u16::<BigEndian>(depth as u16).unwrap();
    buf.push(0);
    let bpp = (depth as usize) / 8;
    buf.extend(std::iter::repeat_n(val, (w as usize) * (h as usize) * bpp));
    buf
}

fn build_v10_entry(w: u32, h: u32, val: u8) -> Vec<u8> {
    let mut buf = Vec::new();
    buf.extend_from_slice(b"$a1b2c3d4-e5f6-7890-abcd-ef1234567890\0");
    buf.extend(std::iter::repeat_n(0u8, 200));
    buf.write_i32::<BigEndian>(0).unwrap();
    buf.write_i32::<BigEndian>(0).unwrap();
    buf.write_i32::<BigEndian>(h as i32).unwrap();
    buf.write_i32::<BigEndian>(w as i32).unwrap();
    buf.write_u16::<BigEndian>(8).unwrap();
    buf.push(0);
    buf.extend(std::iter::repeat_n(val, (w as usize) * (h as usize)));
    buf
}

#[test]
fn test_find_bitmap_header_simple() {
    let entry = build_simple_entry(4, 4, 8, 0xAB);
    let h = find_bitmap_header(&entry).unwrap();
    assert_eq!((h.right - h.left) as u32, 4);
    assert_eq!((h.bottom - h.top) as u32, 4);
    assert_eq!(h.depth, 8);
}

#[test]
fn test_find_bitmap_header_v10() {
    let entry = build_v10_entry(64, 64, 0xCC);
    let h = find_bitmap_header(&entry).unwrap();
    assert_eq!((h.right - h.left) as u32, 64);
    assert_eq!((h.bottom - h.top) as u32, 64);
}

#[test]
fn test_parse_samp_simple_v6() {
    let entry = build_simple_entry(4, 4, 8, 0xAB);
    let mut block = Vec::new();
    block.write_u32::<BigEndian>(entry.len() as u32).unwrap();
    block.extend_from_slice(&entry);
    let entries = samp_entries(&block, AbrVersion::V6, 1);
    assert_eq!(entries.len(), 1);
    let b = entries[0].as_ref().unwrap();
    assert_eq!(b.bitmap.width, 4);
    assert_eq!(b.bitmap.height, 4);
    assert!(b.uuid.is_none());
}

#[test]
fn test_parse_samp_v10_uuid() {
    let e1 = build_v10_entry(8, 8, 0xDD);
    let e2 = build_v10_entry(16, 16, 0xEE);

    let mut block = Vec::new();
    block.extend_from_slice(&e1);
    block.extend_from_slice(&[0u8; 6]);
    let mut e2_mod = e2.clone();
    e2_mod[1] = b'b';
    block.extend_from_slice(&e2_mod);

    let entries = samp_entries(&block, AbrVersion::V10, 2);
    assert_eq!(entries.len(), 2);
    assert!(entries[0].is_some());
    assert!(entries[1].is_some());
    assert_eq!(entries[0].as_ref().unwrap().bitmap.width, 8);
    assert_eq!(entries[1].as_ref().unwrap().bitmap.width, 16);
}

fn push_framed(block: &mut Vec<u8>, body: &[u8]) {
    block.write_u32::<BigEndian>(body.len() as u32).unwrap();
    block.extend_from_slice(body);
    block.resize(block.len().next_multiple_of(4), 0);
}

#[test]
fn samp_uuid_bytes_inside_pixels_do_not_move_the_record_boundary() {
    let fake = b"$11111111-1111-1111-1111-111111111111\0";
    let mut e1 = build_v10_entry(8, 8, 0xDD);
    e1[257..257 + fake.len()].copy_from_slice(fake);
    let mut e2 = build_v10_entry(4, 4, 0xEE);
    e2[1] = b'b';

    let mut block = Vec::new();
    push_framed(&mut block, &e1);
    push_framed(&mut block, &e2);

    assert_eq!(find_all_uuid_offsets(&block).len(), 3, "three anchors");

    let entries = samp_entries(&block, AbrVersion::V10, 2);
    assert_eq!(entries.len(), 2);

    let first = entries[0].as_ref().unwrap();
    assert_eq!(
        first.uuid.as_deref(),
        Some("a1b2c3d4-e5f6-7890-abcd-ef1234567890")
    );
    assert_eq!(first.bitmap.width, 8);
    assert_eq!(first.bitmap.data[0], b'$');

    let second = entries[1].as_ref().unwrap();
    assert_eq!(
        second.uuid.as_deref(),
        Some("b1b2c3d4-e5f6-7890-abcd-ef1234567890")
    );
    assert_eq!(second.bitmap.width, 4);
    assert!(second.bitmap.data.iter().all(|&b| b == 0xEE));
}

#[test]
fn samp_broken_length_chain_falls_back_to_anchor_scan() {
    let mut block = Vec::new();
    push_framed(&mut block, &build_v10_entry(8, 8, 0xDD));
    block.write_u32::<BigEndian>(0xFFFF_FFFF).unwrap();
    let mut e2 = build_v10_entry(4, 4, 0xEE);
    e2[1] = b'b';
    block.extend_from_slice(&e2);

    let (frames, clean) = frame_samp_entries_by_length(&block);
    assert!(!clean);
    assert_eq!(frames.len(), 1);

    let entries = samp_entries(&block, AbrVersion::V10, 2);
    assert_eq!(entries.len(), 2);
    assert_eq!(entries[0].as_ref().unwrap().bitmap.width, 8);
    assert_eq!(entries[1].as_ref().unwrap().bitmap.width, 4);
}

#[test]
fn test_is_uuid_at() {
    let data = b"a1b2c3d4-e5f6-7890-abcd-ef1234567890";
    assert!(is_uuid_at(data, 0));
    assert!(!is_uuid_at(b"not-a-uuid-at-all-nope-no", 0));
}

#[test]
fn test_find_all_uuid_offsets() {
    let mut data = Vec::new();
    data.extend_from_slice(b"prefix$a1b2c3d4-e5f6-7890-abcd-ef1234567890\0more");
    let uuids = find_all_uuid_offsets(&data);
    assert_eq!(uuids.len(), 1);
    assert_eq!(uuids[0].1, "a1b2c3d4-e5f6-7890-abcd-ef1234567890");
}

#[test]
fn test_extract_entry_uuid() {
    let data = b"$a1b2c3d4-e5f6-7890-abcd-ef1234567890\0rest";
    let uuid = extract_entry_uuid(data);
    assert_eq!(
        uuid.as_deref(),
        Some("a1b2c3d4-e5f6-7890-abcd-ef1234567890")
    );
}

#[test]
fn test_extract_entry_uuid_absent() {
    assert!(extract_entry_uuid(&[0u8; 40]).is_none());
}

#[test]
fn test_decode_rle_simple() {
    let mut d = Vec::new();
    d.write_u16::<BigEndian>(3).unwrap();
    d.push(1);
    d.push(0xAA);
    d.push(0xBB);
    assert_eq!(decode_rle(&d, 1, 2, 1, 2).unwrap(), vec![0xAA, 0xBB]);
}

#[test]
fn test_decode_rle_repeat() {
    let mut d = Vec::new();
    d.write_u16::<BigEndian>(2).unwrap();
    d.push((-2i8) as u8);
    d.push(0xFF);
    assert_eq!(decode_rle(&d, 1, 3, 1, 3).unwrap(), vec![0xFF, 0xFF, 0xFF]);
}

fn rle(counts: &[u16], rows: &[u8]) -> Vec<u8> {
    let mut d = Vec::new();
    for c in counts {
        d.write_u16::<BigEndian>(*c).unwrap();
    }
    d.extend_from_slice(rows);
    d
}

#[test]
fn rle_rows_decode_from_their_declared_slices() {
    let d = rle(&[3, 2], &[0x00, 0xAA, 0x99, 0x00, 0xBB]);
    assert_eq!(decode_rle(&d, 2, 1, 1, 2).unwrap(), vec![0xAA, 0xBB]);
}

#[test]
fn rle_overlong_run_is_an_error_not_a_spill() {
    let d = rle(&[2, 2], &[0xFE, 0xAA, 0xFE, 0xBB]);
    let err = decode_rle(&d, 2, 2, 1, 4).unwrap_err();
    assert!(err.message().contains("overruns"), "got: {err:?}");
}

#[test]
fn rle_row_shorter_than_its_width_is_truncated() {
    let d = rle(&[1], &[0x00]);
    let err = decode_rle(&d, 1, 2, 1, 2).unwrap_err();
    assert!(err.message().contains("truncated"), "got: {err:?}");
}

#[test]
fn rle_declared_count_past_data_end_is_truncated() {
    let d = rle(&[5], &[0x00, 0xAA]);
    let err = decode_rle(&d, 1, 1, 1, 1).unwrap_err();
    assert!(err.message().contains("truncated"), "got: {err:?}");
}

#[test]
fn rle_sixteen_bit_row_returns_exactly_expected_bytes() {
    let d = rle(&[5], &[0x03, 0x12, 0x34, 0xAB, 0xCD]);
    let out = decode_rle(&d, 1, 2, 2, 4).unwrap();
    assert_eq!(out, vec![0x12, 0x34, 0xAB, 0xCD]);
    assert_eq!(out.len(), 4);
}

#[test]
fn rle_noop_byte_is_consumed_inside_the_row() {
    let d = rle(&[3], &[0x80, 0xFF, 0xAA]);
    assert_eq!(decode_rle(&d, 1, 2, 1, 2).unwrap(), vec![0xAA, 0xAA]);
}

#[test]
fn samp_anchorless_entries_with_unaligned_first_length_decode_all() {
    let e1 = build_simple_entry(4, 4, 8, 0xAA);
    let e2 = build_simple_entry(8, 8, 8, 0xBB);
    let mut block = Vec::new();
    block.write_u32::<BigEndian>(e1.len() as u32).unwrap();
    block.extend_from_slice(&e1);
    block.extend_from_slice(&[0u8; 1]);
    block.write_u32::<BigEndian>(e2.len() as u32).unwrap();
    block.extend_from_slice(&e2);
    let entries = samp_entries(&block, AbrVersion::V6, 1);
    assert_eq!(entries.len(), 2);
    assert_eq!(entries[0].as_ref().unwrap().bitmap.width, 4);
    assert_eq!(entries[1].as_ref().unwrap().bitmap.width, 8);
}

#[test]
fn test_malformed_v2_huge_dimensions() {
    let mut d = Vec::new();
    d.write_u16::<BigEndian>(2).unwrap();
    d.write_u16::<BigEndian>(1).unwrap();
    d.write_u16::<BigEndian>(2).unwrap();
    d.write_u32::<BigEndian>(64).unwrap();
    d.write_u32::<BigEndian>(0).unwrap();
    d.write_u16::<BigEndian>(0).unwrap();
    d.write_u32::<BigEndian>(0).unwrap();
    d.push(0);
    for _ in 0..4 {
        d.write_i16::<BigEndian>(0).unwrap();
    }
    d.write_i32::<BigEndian>(0).unwrap();
    d.write_i32::<BigEndian>(0).unwrap();
    d.write_i32::<BigEndian>(0).unwrap();
    d.write_i32::<BigEndian>(0x4000_0001).unwrap();
    d.write_u16::<BigEndian>(8).unwrap();
    d.push(0);
    assert!(parse_abr(&d).is_err());
}

#[test]
fn test_malformed_v2_dimension_overflow() {
    let mut d = Vec::new();
    d.write_u16::<BigEndian>(2).unwrap();
    d.write_u16::<BigEndian>(1).unwrap();
    d.write_u16::<BigEndian>(2).unwrap();
    d.write_u32::<BigEndian>(64).unwrap();
    d.write_u32::<BigEndian>(0).unwrap();
    d.write_u16::<BigEndian>(0).unwrap();
    d.write_u32::<BigEndian>(0).unwrap();
    d.push(0);
    for _ in 0..4 {
        d.write_i16::<BigEndian>(0).unwrap();
    }
    d.write_i32::<BigEndian>(0).unwrap();
    d.write_i32::<BigEndian>(i32::MIN).unwrap();
    d.write_i32::<BigEndian>(0).unwrap();
    d.write_i32::<BigEndian>(0).unwrap();
    d.write_u16::<BigEndian>(8).unwrap();
    d.push(0);
    assert!(parse_abr(&d).is_err());
}

#[test]
fn test_find_bitmap_header_dimension_overflow() {
    let mut d = Vec::new();
    d.write_i32::<BigEndian>(0).unwrap();
    d.write_i32::<BigEndian>(i32::MIN).unwrap();
    d.write_i32::<BigEndian>(0).unwrap();
    d.write_i32::<BigEndian>(0).unwrap();
    d.write_u16::<BigEndian>(8).unwrap();
    d.push(0);
    assert!(find_bitmap_header(&d).is_none());
}

#[test]
fn test_malformed_v2_huge_name() {
    let mut d = Vec::new();
    d.write_u16::<BigEndian>(2).unwrap();
    d.write_u16::<BigEndian>(1).unwrap();
    d.write_u16::<BigEndian>(2).unwrap();
    d.write_u32::<BigEndian>(64).unwrap();
    d.write_u32::<BigEndian>(0).unwrap();
    d.write_u16::<BigEndian>(0).unwrap();
    d.write_u32::<BigEndian>(0x4000_0000).unwrap();
    assert!(parse_abr(&d).is_err());
}

#[test]
fn test_malformed_v6_oversized_dimensions_truncated() {
    let mut entry = Vec::new();
    entry.write_u32::<BigEndian>(0).unwrap();
    entry.write_i32::<BigEndian>(0).unwrap();
    entry.write_i32::<BigEndian>(0).unwrap();
    entry.write_i32::<BigEndian>(16384).unwrap();
    entry.write_i32::<BigEndian>(16384).unwrap();
    entry.write_u16::<BigEndian>(8).unwrap();
    entry.push(0);
    entry.extend_from_slice(&[0u8; 8]);

    let mut block = Vec::new();
    block.write_u32::<BigEndian>(entry.len() as u32).unwrap();
    block.extend_from_slice(&entry);

    let mut d = Vec::new();
    d.write_u16::<BigEndian>(6).unwrap();
    d.write_u16::<BigEndian>(1).unwrap();
    d.extend_from_slice(b"8BIM");
    d.extend_from_slice(b"samp");
    d.write_u32::<BigEndian>(block.len() as u32).unwrap();
    d.extend_from_slice(&block);

    let pack = parse_abr(&d).unwrap();
    assert!(pack.brushes.is_empty());
}

#[test]
fn test_malformed_truncated_header() {
    let d: [u8; 1] = [0];
    assert!(parse_abr(&d).is_err());
}

fn v2_stream_with_depth(depth: u16) -> Vec<u8> {
    let mut d = Vec::new();
    d.write_u16::<BigEndian>(2).unwrap();
    d.write_u16::<BigEndian>(1).unwrap();
    d.write_u16::<BigEndian>(2).unwrap();
    d.write_u32::<BigEndian>(64).unwrap();
    d.write_u32::<BigEndian>(0).unwrap();
    d.write_u16::<BigEndian>(0).unwrap();
    d.write_u32::<BigEndian>(0).unwrap();
    d.push(0);
    for _ in 0..4 {
        d.write_i16::<BigEndian>(0).unwrap();
    }
    d.write_i32::<BigEndian>(0).unwrap();
    d.write_i32::<BigEndian>(0).unwrap();
    d.write_i32::<BigEndian>(8).unwrap();
    d.write_i32::<BigEndian>(8).unwrap();
    d.write_u16::<BigEndian>(depth).unwrap();
    d.push(0);
    d.extend(std::iter::repeat_n(0u8, 8 * 8));
    d
}

#[test]
fn v2_accepts_depth_8() {
    assert!(parse_abr(&v2_stream_with_depth(8)).is_ok());
}

#[test]
fn v2_rejects_depth_zero() {
    assert!(parse_abr(&v2_stream_with_depth(0)).is_err());
}

#[test]
fn v2_rejects_depth_256() {
    assert!(parse_abr(&v2_stream_with_depth(256)).is_err());
}

fn v2_rle_entry(entry_len: u32) -> Vec<u8> {
    let mut d = Vec::new();
    d.write_u16::<BigEndian>(2).unwrap();
    d.write_u16::<BigEndian>(1).unwrap();
    d.write_u16::<BigEndian>(2).unwrap();
    d.write_u32::<BigEndian>(entry_len).unwrap();
    d.write_u32::<BigEndian>(0).unwrap();
    d.write_u16::<BigEndian>(0).unwrap();
    d.write_u32::<BigEndian>(0).unwrap();
    d.push(0);
    for _ in 0..4 {
        d.write_i16::<BigEndian>(0).unwrap();
    }
    d.write_i32::<BigEndian>(0).unwrap();
    d.write_i32::<BigEndian>(0).unwrap();
    d.write_i32::<BigEndian>(1).unwrap();
    d.write_i32::<BigEndian>(1).unwrap();
    d.write_u16::<BigEndian>(8).unwrap();
    d.push(1);
    d
}

#[test]
fn parse_v2_rle_entry_len_overflow_errors() {
    assert!(parse_abr(&v2_rle_entry(u32::MAX)).is_err());
}

#[test]
fn parse_v2_rle_entry_len_underflow_errors() {
    assert!(parse_abr(&v2_rle_entry(4)).is_err());
}

#[test]
fn raw_entry_copies_only_expected() {
    let header = BitmapHeader {
        rect_offset: 0,
        top: 0,
        left: 0,
        bottom: 2,
        right: 2,
        depth: 8,
        compression: 0,
    };
    let mut data = vec![0u8; 19];
    data.extend(std::iter::repeat_n(0xAB, 1000));
    let tip = decode_bitmap(&data, &header).unwrap();
    assert_eq!(tip.data.len(), 4);
    assert!(tip.data.iter().all(|&b| b == 0xAB));
}

#[test]
fn raw_entry_too_short_errors() {
    let header = BitmapHeader {
        rect_offset: 0,
        top: 0,
        left: 0,
        bottom: 2,
        right: 2,
        depth: 8,
        compression: 0,
    };
    let mut data = vec![0u8; 19];
    data.extend([1u8, 2u8]);
    let err = decode_bitmap(&data, &header).unwrap_err();
    assert!(err.message().contains("too short"), "got: {err:?}");
}

#[test]
fn rle_reservation_bounded() {
    let height = 10_000usize;
    let width = 10_000usize;
    let expected = width * height;
    let data = vec![0u8; height * 2];
    let err = decode_rle(&data, height, width, 1, expected).unwrap_err();
    assert!(err.message().contains("truncated"), "got: {err:?}");
}

#[test]
fn a_row_that_does_not_decode_keeps_what_was_there() {
    let mut out = vec![1, 2, 3];
    assert!(decode_rle_row(&[0x00, 0xAA, 0x05], 0, 4, &mut out).is_err());
    assert_eq!(out[..3], [1, 2, 3]);
    assert!(out.len() <= 7);
    let mut out = vec![1, 2, 3];
    assert!(decode_rle_row(&[0x00, 0xAA, 0x99], 0, 1, &mut out).is_ok());
    assert_eq!(out, [1, 2, 3, 0xAA]);
    assert!(decode_rle_row(&[], 0, 0, &mut out).is_ok());
    assert_eq!(out.len(), 4);
}

#[test]
fn item_order_does_not_change_a_preset() {
    let mut items: Vec<Vec<u8>> = Vec::new();
    let mut name = Vec::new();
    desc_name(&mut name, "Ink");
    items.push(name);
    let mut tip = b"\0\0\0\0BrshObjc\0\0\0\x01\0\0\0\0\0\x0dcomputedBrush\0\0\0\x02".to_vec();
    desc_unit(&mut tip, b"Dmtr", b"#Pxl", 30.0);
    desc_unit(&mut tip, b"Spcn", b"#Prc", 25.0);
    items.push(tip);
    items.push(b"\0\0\0\x0buseScatterXbool\x01".to_vec());
    items.push(b"\0\0\0\x0auseScatterbool\x01".to_vec());
    items.push([&b"\0\0\0\0Cnt doub"[..], &3f64.to_be_bytes()[..]].concat());
    items.push(b"\0\0\0\0Wtdgbool\x01".to_vec());
    let info = |items: &[Vec<u8>]| {
        let mut desc = b"\0\0\0\x10\0\0\0\x01\0\0\0\0\0\0null\0\0\0\x01\0\0\0\0BrshVlLs".to_vec();
        desc.extend_from_slice(&1u32.to_be_bytes());
        desc_preset_header(&mut desc, items.len() as u32);
        desc.extend_from_slice(&items.concat());
        extract_all_brush_info(&desc).remove(0)
    };
    let first = info(&items);
    assert_eq!(first.name, "Ink");
    assert_eq!(first.descriptor.scatter_count, Some(double(3.0)));
    assert_eq!(first.descriptor.diameter_px, Some(double(30.0)));
    assert!(first.descriptor.wet_edges);
    for _ in 0..items.len() {
        items.rotate_left(1);
        let other = info(&items);
        assert_eq!(other.name, first.name);
        assert_eq!(other.descriptor, first.descriptor);
    }
    items.reverse();
    assert_eq!(info(&items).descriptor, first.descriptor);
}
