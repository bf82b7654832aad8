//! Previews of packs.
use brushkit::abr::{parse_abr, ComputedGeometry};
use brushkit::preview;
use brushkit::preview::abr_pack::abr;
use brushkit::preview::entry::Take;
use brushkit::preview::{
    PreviewError, PreviewOptions, PreviewSet, SourceDimensions, TipPreview, UnavailableReason,
};
use brushkit::support::double::Double;
use byteorder::{BigEndian, WriteBytesExt};

const OPTS: PreviewOptions = PreviewOptions { max_cell: 8 };

const V6_MIN: &[u8] = b"\x00\x06\x00\x018BIMpatt\x00\x00\x00\x00";

/// The gray of a pixel of an elliptical tip.
fn shade(geom: ComputedGeometry, side: u32, x: u32, y: u32) -> u8 {
    let number = |d: Option<Double>, or: f64| d.map_or(or, |d| f64::from_bits(d.bits));
    let diameter = number(geom.diameter_px, 1.0).clamp(1.0, 4096.0);
    let hardness = number(geom.hardness_pct, 100.0).clamp(0.0, 100.0);
    let angle = number(geom.angle_deg, 0.0);
    let roundness = number(geom.roundness_pct, 100.0).clamp(0.0, 100.0);
    let center = side as f64 / 2.0;
    let a = diameter / 2.0;
    let b = (a * roundness / 100.0).max(0.5);
    let core = (hardness / 100.0).min(1.0 - 1.0 / a).max(0.0);
    let (sin, cos) = (-angle).to_radians().sin_cos();
    let k = falloff_k(hardness);
    let dx = (x as f64 + 0.5) - center;
    let dy = (y as f64 + 0.5) - center;
    let u = dx * cos + dy * sin;
    let v = -dx * sin + dy * cos;
    let r = ((u / a).powi(2) + (v / b).powi(2)).sqrt();
    let alpha = if r <= core {
        1.0
    } else if r >= 1.0 {
        0.0
    } else {
        let t = (r - core) / (1.0 - core);
        (-k * t * t).exp()
    };
    (alpha * 255.0).round() as u8
}

fn falloff_k(hardness: f64) -> f64 {
    let h = hardness.clamp(0.0, 50.0);
    2.29 + h / 50.0 * (1.14 - 2.29)
}

fn preview_abr(bytes: &[u8], opts: PreviewOptions) -> Result<PreviewSet, PreviewError> {
    preview::preview_abr(bytes, opts, &shade)
}

fn preview_abr_first_available(
    bytes: &[u8],
    opts: PreviewOptions,
    n: usize,
) -> Result<PreviewSet, PreviewError> {
    preview::preview_abr_first_available(bytes, opts, n, &shade)
}

fn entries_built(bytes: &[u8], take: Take) -> usize {
    abr(bytes, OPTS, take, &shade).unwrap().1
}

/// One sampled tip for [`samp_abr`]: `width` x `height` raw 8-bit pixels of
/// `fill`. A `corrupt` tip declares RLE instead, so its first row byte count
/// (two `fill` bytes) overruns the payload and decoding fails.
struct SampTip {
    width: u32,
    height: u32,
    fill: u8,
    corrupt: bool,
}

/// A v6 `.abr` whose single `samp` block holds `tips` in order. The entries
/// carry no uuid, so the parser lists the brushes in reverse block order.
fn samp_abr(tips: &[SampTip]) -> Vec<u8> {
    let mut payload = Vec::new();
    for tip in tips {
        let mut entry = Vec::new();
        entry.extend_from_slice(&0u32.to_be_bytes());
        for bound in [0, 0, tip.height as i32, tip.width as i32] {
            entry.extend_from_slice(&bound.to_be_bytes());
        }
        entry.extend_from_slice(&8u16.to_be_bytes());
        entry.push(u8::from(tip.corrupt));
        entry.extend(std::iter::repeat_n(
            tip.fill,
            (tip.width * tip.height) as usize,
        ));
        payload.extend_from_slice(&(entry.len() as u32).to_be_bytes());
        payload.extend_from_slice(&entry);
        payload.resize(payload.len().next_multiple_of(4), 0);
    }

    let mut file = Vec::new();
    file.extend_from_slice(&6u16.to_be_bytes());
    file.extend_from_slice(&2u16.to_be_bytes());
    file.extend_from_slice(b"8BIMsamp");
    file.extend_from_slice(&(payload.len() as u32).to_be_bytes());
    file.extend_from_slice(&payload);
    file
}

/// A v2 `.abr` whose entries hold `tips` in order, RLE-compressed with one
/// repeat run per row, so `width` is at most 128. A `corrupt` tip carries only
/// its row byte counts and fails to decode. The parser lists the brushes in
/// reverse entry order.
fn legacy_abr(tips: &[SampTip]) -> Vec<u8> {
    let mut file = Vec::new();
    file.extend_from_slice(&2u16.to_be_bytes());
    file.extend_from_slice(&(tips.len() as u16).to_be_bytes());
    for tip in tips {
        let mut entry = Vec::new();
        // Misc, spacing, an empty name, anti-aliasing and the i16 bounds.
        entry.extend_from_slice(&[0; 4 + 2 + 4 + 1 + 8]);
        for bound in [0, 0, tip.height as i32, tip.width as i32] {
            entry.extend_from_slice(&bound.to_be_bytes());
        }
        entry.extend_from_slice(&8u16.to_be_bytes());
        entry.push(1);
        for _ in 0..tip.height {
            entry.extend_from_slice(&2u16.to_be_bytes());
        }
        if !tip.corrupt {
            for _ in 0..tip.height {
                entry.extend_from_slice(&[(1 - tip.width as i32) as u8, tip.fill]);
            }
        }
        file.extend_from_slice(&2u16.to_be_bytes());
        file.extend_from_slice(&(entry.len() as u32).to_be_bytes());
        file.extend_from_slice(&entry);
    }
    file
}

fn channel_slot(w: u32, h: u32, compression: u8, pixel_data: &[u8]) -> Vec<u8> {
    let mut header = Vec::new();
    header.write_u32::<BigEndian>(8).unwrap();
    for v in [0u32, 0, h, w] {
        header.write_u32::<BigEndian>(v).unwrap();
    }
    header.write_u16::<BigEndian>(8).unwrap();
    header.write_u8(compression).unwrap();
    header.extend_from_slice(pixel_data);

    let mut slot = Vec::new();
    slot.write_u32::<BigEndian>(1).unwrap();
    slot.write_u32::<BigEndian>(header.len() as u32).unwrap();
    slot.extend_from_slice(&header);
    slot
}

fn record_body(
    mode: u32,
    dims: (u32, u32),
    name: &str,
    uuid: &str,
    palette: Option<&[u8; 768]>,
    slots: &[Vec<u8>],
    unwritten_slots: usize,
) -> Vec<u8> {
    let (w, h) = dims;
    let mut r = Vec::new();
    r.write_u32::<BigEndian>(1).unwrap();
    r.write_u32::<BigEndian>(mode).unwrap();
    r.write_u16::<BigEndian>(h as u16).unwrap();
    r.write_u16::<BigEndian>(w as u16).unwrap();

    let utf16: Vec<u16> = name.encode_utf16().chain(std::iter::once(0)).collect();
    r.write_u32::<BigEndian>(utf16.len() as u32).unwrap();
    for u in &utf16 {
        r.write_u16::<BigEndian>(*u).unwrap();
    }

    r.write_u8(uuid.len() as u8).unwrap();
    r.extend_from_slice(uuid.as_bytes());

    if let Some(p) = palette {
        r.extend_from_slice(p);
        r.write_u16::<BigEndian>(256).unwrap();
        r.write_u16::<BigEndian>(255).unwrap();
    }

    r.write_u32::<BigEndian>(3).unwrap();
    r.write_u32::<BigEndian>(0).unwrap();
    for v in [0u32, 0, h, w] {
        r.write_u32::<BigEndian>(v).unwrap();
    }
    r.write_u32::<BigEndian>((slots.len() + unwritten_slots) as u32)
        .unwrap();
    for slot in slots {
        r.extend_from_slice(slot);
    }
    for _ in 0..unwritten_slots {
        r.write_u32::<BigEndian>(0).unwrap();
    }
    r
}

fn record_block(bodies: &[Vec<u8>]) -> Vec<u8> {
    let mut out = Vec::new();
    for body in bodies {
        out.write_u32::<BigEndian>(body.len() as u32).unwrap();
        out.extend_from_slice(body);
        while out.len() % 4 != 0 {
            out.push(0);
        }
    }
    out
}

/// A pack of one 16x8 tip.
fn sampled_tip() -> Vec<u8> {
    samp_abr(&[SampTip { width: 16, height: 8, fill: 0x90, corrupt: false }])
}

/// A pack of one tip and one pattern.
fn pattern_pack() -> Vec<u8> {
    let mut file = sampled_tip();
    let channel = channel_slot(2, 2, 0, &[1, 2, 3, 4]);
    let record = record_body(1, (2, 2), "gray", "uuid-gray", None, &[channel], 23);
    let payload = record_block(&[record]);
    file.extend_from_slice(b"8BIMpatt");
    file.extend_from_slice(&(payload.len() as u32).to_be_bytes());
    file.extend_from_slice(&payload);
    file.resize(file.len().next_multiple_of(4), 0);
    file
}

fn tip(corrupt: bool) -> SampTip {
    SampTip {
        width: 4,
        height: 4,
        fill: 0x80,
        corrupt,
    }
}

#[test]
fn abr_builds_only_the_entries_it_returns() {
    let bytes = samp_abr(&[
        tip(false),
        tip(false),
        tip(false),
        tip(false),
        tip(false),
        tip(false),
    ]);
    assert_eq!(
        entries_built(&bytes, Take::FirstAvailable(2)),
        2
    );
    assert_eq!(
        entries_built(&bytes, Take::FirstAvailable(0)),
        0
    );
    assert_eq!(entries_built(&bytes, Take::All), 6);
}

#[test]
fn abr_failed_decode_does_not_count_toward_n() {
    let bytes = samp_abr(&[tip(false), tip(false), tip(true)]);
    assert!(matches!(
        preview_abr(&bytes, OPTS).unwrap().entries[0].tip,
        TipPreview::Unavailable(UnavailableReason::Corrupt(_))
    ));
    assert_eq!(entries_built(&bytes, Take::FirstAvailable(1)), 2);
    let entries = preview_abr_first_available(&bytes, OPTS, 1).unwrap().entries;
    assert_eq!(entries.len(), 1);
    assert_eq!(entries[0].index, 1);
}

#[test]
fn abr_v2_corrupt_tip_is_one_corrupt_entry() {
    let bytes = legacy_abr(&[tip(false), tip(true), tip(false)]);
    let entries = preview_abr(&bytes, OPTS).unwrap().entries;
    let names: Vec<&str> = entries.iter().map(|e| e.name.as_str()).collect();
    assert_eq!(names, ["brush_2", "brush_1", "brush_0"]);
    assert!(matches!(entries[0].tip, TipPreview::Available(_)));
    assert!(matches!(
        entries[1].tip,
        TipPreview::Unavailable(UnavailableReason::Corrupt(_))
    ));
    assert!(matches!(entries[2].tip, TipPreview::Available(_)));
}

#[test]
fn abr_zero_area_tip_is_unavailable_and_does_not_count_toward_n() {
    let tip = |width, height| SampTip {
        width,
        height,
        fill: 0x80,
        corrupt: false,
    };
    // Legacy entries are listed in reverse, so the drawable tip comes last.
    // A 0x20 tip is taller than max_cell, which downsample would widen to 1.
    let bytes = legacy_abr(&[tip(1, 1), tip(0, 20), tip(0, 1), tip(0, 1), tip(0, 1)]);

    let entries = preview_abr(&bytes, OPTS).unwrap().entries;
    assert_eq!(entries.len(), 5);
    for entry in &entries[..4] {
        assert!(
            matches!(
                &entry.tip,
                TipPreview::Unavailable(UnavailableReason::Corrupt(msg)) if msg == "tip has zero area"
            ),
            "{entry:?}"
        );
    }

    let entries = preview_abr_first_available(&bytes, OPTS, 4)
        .unwrap()
        .entries;
    assert_eq!(entries.len(), 1);
    assert_eq!(entries[0].index, 4);
    assert!(matches!(
        &entries[0].tip,
        TipPreview::Available(b) if (b.width, b.height, b.data.as_slice()) == (1, 1, &[0x80][..])
    ));
}

#[test]
fn every_preset_becomes_one_entry_that_fits_the_cell() {
    for (name, bytes) in [("minimal", V6_MIN.to_vec()), ("patterned", pattern_pack())] {
        let pack = parse_abr(&bytes).unwrap_or_else(|e| panic!("{name}: {e:?}"));
        let expected =
            pack.brushes.len() + pack.computed_presets.len() + pack.unsupported_tip_presets.len();

        let set = preview_abr(&bytes, PreviewOptions { max_cell: 4 })
            .unwrap_or_else(|e| panic!("{name}: {e:?}"));
        assert_eq!(
            set.set_name, None,
            "{name}: an .abr pack carries no set name"
        );
        assert_eq!(
            set.entries.len(),
            expected,
            "{name}: every preset appears exactly once"
        );
        assert_eq!(
            set.entries.iter().map(|e| e.index).collect::<Vec<_>>(),
            (0..expected).collect::<Vec<_>>(),
            "{name}: indices are dense and in order"
        );
        for entry in &set.entries {
            if let TipPreview::Available(tip) = &entry.tip {
                assert!(
                    tip.width <= 4 && tip.height <= 4,
                    "{name}: tip {}x{} exceeds the cell",
                    tip.width,
                    tip.height
                );
                assert_eq!(tip.data.len(), (tip.width * tip.height) as usize);
            }
        }
    }
}

#[test]
fn a_zero_cell_is_rejected() {
    let bytes = V6_MIN.to_vec();
    assert!(
        preview_abr(&bytes, PreviewOptions { max_cell: 0 }).is_err(),
        "max_cell 0 has no valid output size"
    );
}

type Preview = fn(&[u8], PreviewOptions) -> Result<PreviewSet, PreviewError>;
type FirstAvailable = fn(&[u8], PreviewOptions, usize) -> Result<PreviewSet, PreviewError>;


fn is_available(tip: &TipPreview) -> bool {
    matches!(tip, TipPreview::Available(_))
}

/// Asserts that `first` is the first `n` available entries of `full`, entry
/// for entry, with the same set name.
fn assert_first_available(full: &PreviewSet, first: &PreviewSet, n: usize, context: &str) {
    assert_eq!(first.set_name, full.set_name, "{context}: set name");
    let expected: Vec<_> = full
        .entries
        .iter()
        .filter(|entry| is_available(&entry.tip))
        .take(n)
        .collect();
    assert_eq!(
        first.entries.len(),
        expected.len(),
        "{context}: entry count for n = {n}"
    );
    for (got, want) in first.entries.iter().zip(expected) {
        assert_eq!(got.index, want.index, "{context}: n = {n}");
        assert_eq!(got.name, want.name, "{context}: n = {n}");
        assert_eq!(
            got.source_dimensions, want.source_dimensions,
            "{context}: n = {n}"
        );
        let (TipPreview::Available(got), TipPreview::Available(want)) = (&got.tip, &want.tip)
        else {
            panic!("{context}: n = {n}: entry {} is not available", want.index);
        };
        assert!(
            got.width > 0 && got.height > 0,
            "{context}: n = {n}: zero-area tip"
        );
        assert_eq!(
            (got.width, got.height, &got.data),
            (want.width, want.height, &want.data),
            "{context}: n = {n}"
        );
    }
}

/// Checks every `n` from 0 to one past the entry count and returns the full
/// preview.
fn check_every_n(bytes: &[u8], full: Preview, first: FirstAvailable) -> PreviewSet {
    let full = full(bytes, OPTS).unwrap();
    for n in 0..=full.entries.len() + 1 {
        let first = first(bytes, OPTS, n).unwrap();
        assert_first_available(&full, &first, n, "fixture");
    }
    full
}

fn availability(set: &PreviewSet) -> Vec<bool> {
    set.entries
        .iter()
        .map(|entry| is_available(&entry.tip))
        .collect()
}

#[test]
fn abr_returns_the_first_available_tips_of_the_full_preview() {
    let tip = |side: u32, fill: u8, corrupt: bool| SampTip {
        width: side,
        height: side / 2 + 1,
        fill,
        corrupt,
    };
    // The parser lists these brushes in reverse, so the preview starts with
    // the corrupt tip at the end of the block.
    let bytes = samp_abr(&[
        tip(3, 0x20, false),
        tip(12, 0x40, false),
        tip(5, 0x60, true),
        tip(16, 0x80, true),
        tip(7, 0xa0, false),
        tip(20, 0xc0, true),
    ]);
    let full = check_every_n(&bytes, preview_abr, preview_abr_first_available);
    assert_eq!(
        availability(&full),
        vec![false, true, false, false, true, true]
    );

    // The failed first tip is skipped and the next available one takes its place.
    let first = preview_abr_first_available(&bytes, OPTS, 1).unwrap();
    assert_eq!(first.entries.len(), 1);
    assert_eq!(first.entries[0].index, 1);
    let indices: Vec<_> = preview_abr_first_available(&bytes, OPTS, 3)
        .unwrap()
        .entries
        .iter()
        .map(|entry| entry.index)
        .collect();
    assert_eq!(indices, vec![1, 4, 5]);
}

#[test]
fn v2_abr_returns_the_first_available_tips_of_the_full_preview() {
    let tip = |side: u32, fill: u8, corrupt: bool| SampTip {
        width: side,
        height: side / 2 + 1,
        fill,
        corrupt,
    };
    // Listed in reverse, as in the v6 test above.
    let bytes = legacy_abr(&[
        tip(3, 0x20, false),
        tip(12, 0x40, true),
        tip(5, 0x60, false),
        tip(16, 0x80, false),
        tip(7, 0xa0, true),
    ]);
    let full = check_every_n(&bytes, preview_abr, preview_abr_first_available);
    assert_eq!(availability(&full), vec![false, true, true, false, true]);
}

#[test]
fn sampled_abr_dimensions_survive_downsampling() {
    let bytes = sampled_tip();
    for max_cell in [1, 4, 64] {
        let set = preview_abr(&bytes, PreviewOptions { max_cell }).unwrap();
        assert_eq!(set.entries.len(), 1);
        assert_eq!(
            set.entries[0].source_dimensions,
            SourceDimensions::new(16, 8)
        );
        assert!(matches!(set.entries[0].tip, TipPreview::Available(_)));
    }
}

#[test]
fn sampled_dimensions_survive_decode_failure() {
    let mut bytes = sampled_tip();
    bytes[42] = 1; // RLE, with row lengths larger than the remaining payload.
    let set = preview_abr(&bytes, PreviewOptions { max_cell: 8 }).unwrap();
    assert_eq!(set.entries.len(), 1);
    assert_eq!(
        set.entries[0].source_dimensions,
        SourceDimensions::new(16, 8)
    );
    assert!(matches!(
        set.entries[0].tip,
        TipPreview::Unavailable(UnavailableReason::Corrupt(_))
    ));
}

#[test]
fn computed_and_unsupported_previews_have_no_source_raster() {
    // One computed preset, with a diameter and otherwise default geometry.
    let mut descriptor = vec![0, 0, 0, 16, 0, 0, 0, 1, 0, 0, 0, 0, 0, 0];
    descriptor.extend_from_slice(b"null\0\0\0\x01\0\0\0\0BrshVlLs\0\0\0\x01Objc\0\0\0\x01\0\0\0\0\0\x0bbrushPreset\0\0\0\x01\0\0\0\0BrshObjc\0\0\0\x01\0\0\0\0\0\x0dcomputedBrush\0\0\0\x01\0\0\0\0DmtrUntF#Pxl");
    descriptor.extend_from_slice(&30f64.to_be_bytes());
    let mut bytes = vec![0, 6, 0, 2];
    bytes.extend_from_slice(b"8BIMdesc");
    bytes.extend_from_slice(&(descriptor.len() as u32).to_be_bytes());
    bytes.extend_from_slice(&descriptor);
    bytes.resize(bytes.len().next_multiple_of(4), 0);
    let set = preview_abr(&bytes, PreviewOptions { max_cell: 8 }).unwrap();
    assert_eq!(set.entries.len(), 1);
    assert_eq!(set.entries[0].source_dimensions, None);
    assert!(matches!(set.entries[0].tip, TipPreview::Available(_)));

    let class = bytes
        .windows(13)
        .position(|value| value == b"computedBrush")
        .unwrap();
    bytes[class..class + 13].copy_from_slice(b"computedBrusX");
    let set = preview_abr(&bytes, PreviewOptions { max_cell: 8 }).unwrap();
    assert_eq!(set.entries.len(), 1);
    assert_eq!(set.entries[0].source_dimensions, None);
    assert!(matches!(
        set.entries[0].tip,
        TipPreview::Unavailable(UnavailableReason::UnsupportedTipKind(_))
    ));
}

fn without_patterns(bytes: &[u8]) -> (Vec<u8>, usize) {
    let version = u16::from_be_bytes(bytes[..2].try_into().unwrap());
    if matches!(version, 1 | 2) {
        return (bytes.to_vec(), 0);
    }
    let mut stripped = bytes[..4].to_vec();
    let mut offset = 4;
    let mut omitted = 0;
    while offset + 12 <= bytes.len() && &bytes[offset..offset + 4] == b"8BIM" {
        let length =
            u32::from_be_bytes(bytes[offset + 8..offset + 12].try_into().unwrap()) as usize;
        let end = offset + 12 + length;
        assert!(
            end <= bytes.len(),
            "the corpus block must fit inside the file"
        );
        let next = end.next_multiple_of(4).min(bytes.len());
        if &bytes[offset + 4..offset + 8] == b"patt" {
            omitted += 1;
        } else {
            stripped.extend_from_slice(&bytes[offset..next]);
        }
        offset = next;
    }
    stripped.extend_from_slice(&bytes[offset..]);
    (stripped, omitted)
}

fn assert_same_preview(actual: &PreviewSet, expected: &PreviewSet) {
    assert_eq!(actual.set_name, expected.set_name);
    assert_eq!(actual.entries.len(), expected.entries.len());
    for (actual, expected) in actual.entries.iter().zip(&expected.entries) {
        assert_eq!(actual.index, expected.index);
        assert_eq!(actual.name, expected.name);
        assert_eq!(actual.source_dimensions, expected.source_dimensions);
        match (&actual.tip, &expected.tip) {
            (TipPreview::Available(actual), TipPreview::Available(expected)) => {
                assert_eq!(actual.width, expected.width);
                assert_eq!(actual.height, expected.height);
                assert_eq!(actual.data, expected.data);
            }
            (TipPreview::Unavailable(actual), TipPreview::Unavailable(expected)) => {
                assert_eq!(actual, expected);
            }
            _ => panic!("preview availability changed for {}", actual.name),
        }
    }
}

fn check_preview(bytes: &[u8]) -> usize {
    let options = PreviewOptions { max_cell: 160 };
    let original = preview_abr(bytes, options).expect("original pack previews");
    let (stripped, omitted) = without_patterns(bytes);
    let without = preview_abr(&stripped, options).expect("pack without patterns previews");
    assert_same_preview(&original, &without);
    omitted
}

#[test]
fn patterns_do_not_change_preview_output() {
    let bytes = pattern_pack();
    assert!(!parse_abr(&bytes).unwrap().patterns.is_empty());
    assert!(check_preview(&bytes) > 0);
}

#[test]
fn abr_and_preview_are_reachable_through_the_facade() {
    let pack = parse_abr(V6_MIN).expect("minimal v6 pack parses");
    assert!(pack.brushes.is_empty());

    let set =
        preview_abr(V6_MIN, PreviewOptions { max_cell: 64 }).expect("minimal v6 pack previews");
    assert!(set.entries.is_empty());
}
