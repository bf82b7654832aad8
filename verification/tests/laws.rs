//! What holds of packs and previews as a whole, on concrete files.
use brushkit::abr::descriptor::{read_double, read_id, read_item_head, skip_descriptor_value};
use brushkit::abr::pairing::pair_brushes;
use brushkit::abr::pattern::luma;
use brushkit::abr::preset::BrushDescInfo;
use brushkit::abr::samp::SampEntry;
use brushkit::abr::{
    parse_abr, parse_abr_all_deferred_without_patterns, parse_abr_deferred,
    parse_abr_deferred_without_patterns, BrushDescriptor, ComputedGeometry, TipBitmap,
};
use brushkit::fixture::{write_doub_ostype, write_enum, write_key};
use brushkit::preview::entry::{find_misfit, render_tip, Budget};
use brushkit::preview::{
    downsample, preview_abr, preview_abr_first_available, GrayscaleBitmap, PreviewOptions, TipPreview, UnavailableReason,
    MAX_PREVIEW_BYTES,
};
use brushkit::support::bytes::ByteReader;
use brushkit::support::double::Double;

fn black(_: ComputedGeometry, _: u32, _: u32, _: u32) -> u8 {
    255
}

fn v2_abr(tips: &[(u8, bool)]) -> Vec<u8> {
    let mut file = vec![0, 2, 0, tips.len() as u8];
    for &(fill, compressed) in tips {
        let mut entry = vec![0u8; 4 + 2 + 4 + 1 + 8];
        for bound in [0i32, 0, 1, 2] {
            entry.extend_from_slice(&bound.to_be_bytes());
        }
        entry.extend_from_slice(&[0, 8, u8::from(compressed)]);
        if compressed {
            entry.extend_from_slice(&[0, 2, 0xFF, fill]);
        } else {
            entry.extend_from_slice(&[fill, fill]);
        }
        file.extend_from_slice(&[0, 2]);
        file.extend_from_slice(&(entry.len() as u32).to_be_bytes());
        file.extend_from_slice(&entry);
    }
    file
}

fn text(buf: &mut Vec<u8>, key: &[u8], value: &str) {
    write_key(buf, key);
    buf.extend_from_slice(b"TEXT");
    let units: Vec<u16> = value.encode_utf16().chain([0]).collect();
    buf.extend_from_slice(&(units.len() as u32).to_be_bytes());
    for unit in units {
        buf.extend_from_slice(&unit.to_be_bytes());
    }
}

fn object(buf: &mut Vec<u8>, class: &[u8], items: u32) {
    buf.extend_from_slice(b"Objc\0\0\0\x01\0\0");
    write_key(buf, class);
    buf.extend_from_slice(&items.to_be_bytes());
}

const UUID: &str = "a1b2c3d4-e5f6-7890-abcd-ef1234567890";

/// A pack of one tip and four presets: computed, sampled, unsupported, and one whose tip is
/// not there.
fn mixed_pack() -> Vec<u8> {
    let mut desc = b"\0\0\0\x10\0\0\0\x01\0\0\0\0\0\0null\0\0\0\x01\0\0\0\0BrshVlLs".to_vec();
    desc.extend_from_slice(&4u32.to_be_bytes());
    object(&mut desc, b"brushPreset", 2);
    text(&mut desc, b"Nm  ", "Round");
    write_key(&mut desc, b"Brsh");
    object(&mut desc, b"computedBrush", 1);
    write_key(&mut desc, b"Dmtr");
    desc.extend_from_slice(b"UntF#Pxl");
    desc.extend_from_slice(&6f64.to_be_bytes());
    object(&mut desc, b"brushPreset", 2);
    text(&mut desc, b"Nm  ", "Chalk");
    text(&mut desc, b"sampledData", UUID);
    object(&mut desc, b"brushPreset", 1);
    text(&mut desc, b"Nm  ", "Odd");
    object(&mut desc, b"brushPreset", 2);
    text(&mut desc, b"Nm  ", "Lost");
    text(&mut desc, b"sampledData", "missing");

    let mut samp = format!("${UUID}\0").into_bytes();
    samp.extend_from_slice(&[0; 200]);
    for bound in [0i32, 0, 2, 3] {
        samp.extend_from_slice(&bound.to_be_bytes());
    }
    samp.extend_from_slice(&[0, 8, 0, 1, 2, 3, 4, 5, 6]);

    let mut file = vec![0, 10, 0, 2];
    for (kind, payload) in [(b"samp", samp), (b"desc", desc)] {
        file.extend_from_slice(b"8BIM");
        file.extend_from_slice(kind);
        file.extend_from_slice(&(payload.len() as u32).to_be_bytes());
        file.extend_from_slice(&payload);
        file.resize(file.len().next_multiple_of(4), 0);
    }
    file
}

#[test]
fn deferred_tips_are_those_that_are_decoded_at_once() {
    for file in [v2_abr(&[(7, false), (9, true)]), mixed_pack()] {
        let eager = parse_abr(&file).unwrap();
        let lazy = parse_abr_deferred(&file).unwrap();
        let bare = parse_abr_deferred_without_patterns(&file).unwrap();
        let all = parse_abr_all_deferred_without_patterns(&file).unwrap();
        assert!(!eager.brushes.is_empty());
        for pack in [&lazy, &bare, &all] {
            assert_eq!(pack.pack.brushes.len(), eager.brushes.len());
            for (i, brush) in eager.brushes.iter().enumerate() {
                assert_eq!(pack.pack.brushes[i].name, brush.name);
                assert_eq!(pack.tip_decoded_len(i), brush.tip.data.len());
                let tip = pack.decode_tip(i).unwrap();
                assert_eq!((tip.width, tip.height), (brush.tip.width, brush.tip.height));
                assert_eq!(tip.data, brush.tip.data);
                assert_eq!(pack.is_deferred(i), pack.pack.brushes[i].tip.data.is_empty());
            }
        }
        assert!((0..all.pack.brushes.len()).all(|i| all.is_deferred(i)));
    }
}

#[test]
fn entries_follow_the_preset_list_and_each_is_one() {
    let file = mixed_pack();
    let pack = parse_abr(&file).unwrap();
    assert_eq!(pack.preset_count, 4);
    assert_eq!(
        pack.brushes.len()
            + pack.computed_presets.len()
            + pack.unsupported_tip_presets.len()
            + pack.skipped_preset_count,
        pack.preset_count
    );
    let set = preview_abr(&file, PreviewOptions { max_cell: 2 }, &black).unwrap();
    let names: Vec<&str> = set.entries.iter().map(|e| e.name.as_str()).collect();
    assert_eq!(names, ["Round", "Chalk", "Odd"]);
    for (i, entry) in set.entries.iter().enumerate() {
        assert_eq!(entry.index, i);
        if let TipPreview::Available(tip) = &entry.tip {
            assert!(tip.width <= 2 && tip.height <= 2 && tip.width > 0 && tip.height > 0);
            assert_eq!(tip.data.len(), (tip.width * tip.height) as usize);
        }
    }
    assert!(matches!(
        &set.entries[2].tip,
        TipPreview::Unavailable(UnavailableReason::UnsupportedTipKind(kind)) if kind == "shape tip"
    ));
}

#[test]
fn misfits_are_found() {
    let file = mixed_pack();
    let set = preview_abr(&file, PreviewOptions { max_cell: 2 }, &black).unwrap();
    assert_eq!(find_misfit(&set, 2), None);
    assert_eq!(find_misfit(&set, 1), Some(0));
    let mut short = set.clone();
    if let TipPreview::Available(tip) = &mut short.entries[1].tip {
        tip.data.pop();
    }
    assert_eq!(find_misfit(&short, 2), Some(1));
}

#[test]
fn a_limited_preview_is_the_front_of_the_full_one() {
    let file = mixed_pack();
    let opts = PreviewOptions { max_cell: 3 };
    let full = preview_abr(&file, opts, &black).unwrap();
    let first = preview_abr_first_available(&file, opts, 1, &black).unwrap();
    assert_eq!(first.entries.len(), 1);
    assert_eq!((first.entries[0].index, &first.entries[0].name), (0, &full.entries[0].name));
    let both = preview_abr_first_available(&file, opts, 9, &black).unwrap();
    let indices: Vec<usize> = both.entries.iter().map(|e| e.index).collect();
    assert_eq!(indices, [0, 1]);
}

#[test]
fn no_tip_is_available_after_the_budget() {
    let tip = GrayscaleBitmap { width: 4, height: 2, data: vec![3; 8] };
    let mut budget = Budget { held: MAX_PREVIEW_BYTES - 8, over: false };
    assert!(matches!(render_tip(&tip, 8, &mut budget), TipPreview::Available(_)));
    assert_eq!(budget, Budget { held: MAX_PREVIEW_BYTES, over: false });
    assert!(matches!(
        render_tip(&tip, 8, &mut budget),
        TipPreview::Unavailable(UnavailableReason::OverBudget)
    ));
    assert_eq!(budget, Budget { held: MAX_PREVIEW_BYTES, over: true });
}

#[test]
fn tips_that_no_preset_names_are_counted() {
    let samp = |uuid: &str| SampEntry {
        uuid: Some(uuid.to_string()),
        bitmap: TipBitmap { width: 1, height: 1, depth: 8, data: vec![1] },
        deferred: None,
    };
    let info = |name: &str, uuid: &str| BrushDescInfo {
        name: name.to_string(),
        sampled_data_uuid: Some(uuid.to_string()),
        dual_brush_uuid: None,
        has_shape_tip: false,
        shape_tip_family: None,
        tip_shape: None,
        descriptor: BrushDescriptor::default(),
    };
    let paired = pair_brushes(
        vec![samp("a"), samp("b"), samp("c")],
        &vec![info("B", "b"), info("X", "x"), info("B again", "b")],
    );
    let ids: Vec<&str> = paired.brushes.iter().map(|b| b.id.as_str()).collect();
    assert_eq!(ids, ["b", "b-2"]);
    assert_eq!((paired.dropped_samp_count, paired.skipped_preset_count), (2, 1));
}

#[test]
fn written_items_are_read_back() {
    let number = Double { bits: 12.5f64.to_bits() };
    let mut item = Vec::new();
    write_doub_ostype(&mut item, b"Spcn", number);
    let mut reader = ByteReader::new(&item);
    let (key, tag) = read_item_head(&mut reader).unwrap();
    assert_eq!((key, &tag.to_be_bytes()), (&b"Spcn"[..], b"doub"));
    assert_eq!(read_double(&mut reader), Ok(number));
    assert_eq!(reader.pos, item.len());

    let mut item = Vec::new();
    write_enum(&mut item, b"textureBlendMode", b"BlnM", b"height");
    let mut reader = ByteReader::new(&item);
    assert_eq!(read_id(&mut reader), Ok(&b"textureBlendMode"[..]));
    let tag = u32::from_be_bytes(*b"enum");
    let mut reader = ByteReader { data: &item, pos: reader.pos + 4 };
    assert_eq!(skip_descriptor_value(&mut reader, tag, 0), Ok(()));
    assert_eq!(reader.pos, item.len());
}

#[test]
fn luma_is_that_of_doubles() {
    for (r, g, b) in [(0, 0, 0), (255, 255, 255), (255, 0, 0), (1, 2, 3), (254, 253, 252)] {
        let exact = 0.299 * r as f64 + 0.587 * g as f64 + 0.114 * b as f64;
        assert_eq!(luma(r, g, b), exact.round() as u8, "{r} {g} {b}");
    }
}

#[test]
fn sizes_are_scaled_as_doubles_are() {
    for (width, height, max) in [(1000, 333, 7), (16384, 1, 5), (3, 7, 2), (641, 480, 160)] {
        let bitmap = GrayscaleBitmap { width, height, data: vec![1; (width * height) as usize] };
        let small = downsample(&bitmap, max);
        let scale = max as f64 / width.max(height) as f64;
        let side = |v: u32| ((v as f64 * scale).round() as u32).max(1);
        assert_eq!((small.width, small.height), (side(width), side(height)));
        assert_eq!(small.data.len(), (small.width * small.height) as usize);
    }
}

#[test]
fn scaling_down_keeps_the_range_of_samples() {
    for (width, height, max) in [(100, 37, 9), (5, 64, 63), (1, 9, 0), (17, 17, 16)] {
        let data: Vec<u8> = (0..width * height).map(|i| 40 + (i * 31 % 151) as u8).collect();
        let bitmap = GrayscaleBitmap { width, height, data };
        let small = downsample(&bitmap, max);
        assert!(small.width * small.height < width * height);
        let (low, high) = (bitmap.data.iter().min(), bitmap.data.iter().max());
        assert!(small.data.iter().min() >= low && small.data.iter().max() <= high);
    }
}

#[test]
fn names_in_any_bytes_are_read() {
    let mut desc = b"\0\0\0\x10\0\0\0\x01\0\0\0\0\0\0null\0\0\0\x01\0\0\0\0BrshVlLs".to_vec();
    desc.extend_from_slice(&1u32.to_be_bytes());
    object(&mut desc, b"brushPreset", 2);
    write_key(&mut desc, b"Nm  ");
    desc.extend_from_slice(b"TEXT\0\0\0\x03\0A\xD8\0\0\0");
    write_enum(&mut desc, b"b\xFFd", b"x", b"y");
    let infos = brushkit::abr::preset::extract_all_brush_info(&desc);
    assert_eq!(infos[0].name, "A\u{FFFD}");
    let dump = brushkit::abr::dump::dump_descriptors(&desc);
    assert_eq!(dump.presets[0].items[1].key, "b\u{FFFD}d");
}
