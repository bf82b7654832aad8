//! Patterns of a pack.
use brushkit::abr::pattern::parse_patt_block;
use brushkit::abr::{parse_abr, DroppedPatternReason};
use byteorder::{BigEndian, WriteBytesExt};

fn packbits_channel(rows: &[Vec<u8>]) -> Vec<u8> {
    let mut counts = Vec::new();
    let mut body = Vec::new();
    for row in rows {
        let mut encoded = Vec::new();
        encoded.push((row.len() - 1) as u8);
        encoded.extend_from_slice(row);
        counts.write_u16::<BigEndian>(encoded.len() as u16).unwrap();
        body.extend_from_slice(&encoded);
    }
    let mut out = counts;
    out.extend_from_slice(&body);
    out
}

fn channel_slot(w: u32, h: u32, compression: u8, pixel_data: &[u8]) -> Vec<u8> {
    let mut header = Vec::new();
    header.write_u32::<BigEndian>(8).unwrap();
    for v in [0u32, 0, h, w] {
        header.write_u32::<BigEndian>(v).unwrap();
    }
    header.write_u16::<BigEndian>(8).unwrap();
    header.write_u8(compression).unwrap();
    header.extend_from_slice(pixel_data);

    let mut slot = Vec::new();
    slot.write_u32::<BigEndian>(1).unwrap();
    slot.write_u32::<BigEndian>(header.len() as u32).unwrap();
    slot.extend_from_slice(&header);
    slot
}

fn record_body(
    mode: u32,
    dims: (u32, u32),
    name: &str,
    uuid: &str,
    palette: Option<&[u8; 768]>,
    slots: &[Vec<u8>],
    unwritten_slots: usize,
) -> Vec<u8> {
    let (w, h) = dims;
    let mut r = Vec::new();
    r.write_u32::<BigEndian>(1).unwrap();
    r.write_u32::<BigEndian>(mode).unwrap();
    r.write_u16::<BigEndian>(h as u16).unwrap();
    r.write_u16::<BigEndian>(w as u16).unwrap();

    let utf16: Vec<u16> = name.encode_utf16().chain(std::iter::once(0)).collect();
    r.write_u32::<BigEndian>(utf16.len() as u32).unwrap();
    for u in &utf16 {
        r.write_u16::<BigEndian>(*u).unwrap();
    }

    r.write_u8(uuid.len() as u8).unwrap();
    r.extend_from_slice(uuid.as_bytes());

    if let Some(p) = palette {
        r.extend_from_slice(p);
        r.write_u16::<BigEndian>(256).unwrap();
        r.write_u16::<BigEndian>(255).unwrap();
    }

    r.write_u32::<BigEndian>(3).unwrap();
    r.write_u32::<BigEndian>(0).unwrap();
    for v in [0u32, 0, h, w] {
        r.write_u32::<BigEndian>(v).unwrap();
    }
    r.write_u32::<BigEndian>((slots.len() + unwritten_slots) as u32)
        .unwrap();
    for slot in slots {
        r.extend_from_slice(slot);
    }
    for _ in 0..unwritten_slots {
        r.write_u32::<BigEndian>(0).unwrap();
    }
    r
}

fn record_block(bodies: &[Vec<u8>]) -> Vec<u8> {
    let mut out = Vec::new();
    for body in bodies {
        out.write_u32::<BigEndian>(body.len() as u32).unwrap();
        out.extend_from_slice(body);
        while out.len() % 4 != 0 {
            out.push(0);
        }
    }
    out
}

fn gray_palette() -> [u8; 768] {
    let mut p = [0u8; 768];
    for i in 0..256 {
        p[i * 3] = i as u8;
        p[i * 3 + 1] = i as u8;
        p[i * 3 + 2] = i as u8;
    }
    p
}

#[test]
fn mode2_indexed_packbits() {
    let palette = gray_palette();
    let rows = vec![vec![10u8, 20], vec![30u8, 40]];
    let channel = channel_slot(2, 2, 1, &packbits_channel(&rows));
    let body = record_body(
        2,
        (2, 2),
        "tex",
        "uuid-indexed",
        Some(&palette),
        &[channel],
        23,
    );
    let block = record_block(&[body]);

    let patterns = parse_patt_block(&block, 0, 0).patterns;
    assert_eq!(patterns.len(), 1);
    let p = &patterns[0];
    assert_eq!(p.mode, 2);
    assert_eq!((p.width, p.height), (2, 2));
    assert_eq!(p.id, "uuid-indexed");
    assert_eq!(p.name, "tex");
    assert_eq!(p.gray, vec![10, 20, 30, 40]);
}

#[test]
fn mode3_rgb_three_raw_channels() {
    let r = channel_slot(2, 2, 0, &[255, 0, 0, 0]);
    let g = channel_slot(2, 2, 0, &[0, 255, 0, 0]);
    let b = channel_slot(2, 2, 0, &[0, 0, 255, 0]);
    let body = record_body(3, (2, 2), "rgb", "uuid-rgb", None, &[r, g, b], 21);
    let block = record_block(&[body]);

    let patterns = parse_patt_block(&block, 0, 0).patterns;
    assert_eq!(patterns.len(), 1);
    let p = &patterns[0];
    assert_eq!(p.mode, 3);
    assert_eq!(p.gray, vec![76, 150, 29, 0]);
}

#[test]
fn mode3_rgb_fourth_plane_ignored() {
    let r = channel_slot(2, 2, 0, &[255, 0, 0, 100]);
    let g = channel_slot(2, 2, 0, &[0, 255, 0, 100]);
    let b = channel_slot(2, 2, 0, &[0, 0, 255, 100]);
    let extra = channel_slot(2, 2, 1, &packbits_channel(&[vec![7, 7], vec![7, 7]]));
    let body = record_body(3, (2, 2), "rgb4", "uuid-rgb4", None, &[r, g, b, extra], 20);
    let block = record_block(&[body]);

    let patterns = parse_patt_block(&block, 0, 0).patterns;
    assert_eq!(patterns.len(), 1);
    let p = &patterns[0];
    assert_eq!(p.mode, 3);
    assert_eq!((p.width, p.height), (2, 2));
    assert_eq!(p.gray, vec![76, 150, 29, 100]);
}

#[test]
fn mode3_rgb_two_planes_rejected() {
    let r = channel_slot(2, 2, 0, &[255, 0, 0, 0]);
    let g = channel_slot(2, 2, 0, &[0, 255, 0, 0]);
    let body = record_body(3, (2, 2), "rgb2", "uuid-rgb2", None, &[r, g], 22);
    let block = record_block(&[body]);

    let parsed = parse_patt_block(&block, 0, 0);
    assert!(parsed.patterns.is_empty());
    assert_eq!(parsed.dropped.len(), 1);
}

#[test]
fn mode1_grayscale_single_raw_channel() {
    let channel = channel_slot(2, 2, 0, &[10, 20, 30, 40]);
    let body = record_body(1, (2, 2), "gray", "uuid-gray", None, &[channel], 23);
    let block = record_block(&[body]);

    let patterns = parse_patt_block(&block, 0, 0).patterns;
    assert_eq!(patterns.len(), 1);
    let p = &patterns[0];
    assert_eq!(p.mode, 1);
    assert_eq!((p.width, p.height), (2, 2));
    assert_eq!(p.id, "uuid-gray");
    assert_eq!(p.gray, vec![10, 20, 30, 40]);
}

#[test]
fn mode1_grayscale_extra_alpha_channel_ignored() {
    let gray = channel_slot(2, 2, 0, &[10, 20, 30, 40]);
    let alpha = channel_slot(2, 2, 0, &[255; 4]);
    let body = record_body(1, (2, 2), "gray", "uuid-gray-a", None, &[gray, alpha], 22);
    let block = record_block(&[body]);

    let patterns = parse_patt_block(&block, 0, 0).patterns;
    assert_eq!(patterns.len(), 1);
    let p = &patterns[0];
    assert_eq!(p.mode, 1);
    assert_eq!(p.gray, vec![10, 20, 30, 40]);
}

#[test]
fn two_records_four_byte_padding() {
    let palette = gray_palette();
    let ch_a = channel_slot(2, 2, 1, &packbits_channel(&[vec![1u8, 2], vec![3u8, 4]]));
    let body_a = record_body(2, (2, 2), "a", "uuid-aaaa", Some(&palette), &[ch_a], 2);
    let ch_b = channel_slot(2, 2, 1, &packbits_channel(&[vec![5u8, 6], vec![7u8, 8]]));
    let body_b = record_body(2, (2, 2), "b", "uuid-bbbb", Some(&palette), &[ch_b], 2);
    let block = record_block(&[body_a, body_b]);

    let patterns = parse_patt_block(&block, 0, 0).patterns;
    assert_eq!(patterns.len(), 2);
    assert_eq!(patterns[0].id, "uuid-aaaa");
    assert_eq!(patterns[0].gray, vec![1, 2, 3, 4]);
    assert_eq!(patterns[1].id, "uuid-bbbb");
    assert_eq!(patterns[1].gray, vec![5, 6, 7, 8]);
}

#[test]
fn records_separated_by_two_and_three_byte_gaps_all_decode() {
    let mut bodies = Vec::new();
    for (uuid, pixels) in [
        ("pad2-aaa", [1u8, 2, 3, 4]),
        ("pad3-bb", [5u8, 6, 7, 8]),
        ("tail-cc", [9u8, 10, 11, 12]),
    ] {
        let channel = channel_slot(2, 2, 0, &pixels);
        bodies.push(record_body(1, (2, 2), "gray", uuid, None, &[channel], 23));
    }
    let gaps: Vec<usize> = bodies.iter().map(|b| (4 - (4 + b.len()) % 4) % 4).collect();
    assert_eq!(gaps[0], 2, "first gap must be the 2-byte case");
    assert_eq!(gaps[1], 3, "second gap must be the 3-byte case");

    let block = record_block(&bodies);
    let outcome = parse_patt_block(&block, 0, 0);

    assert!(outcome.dropped.is_empty(), "no record should be dropped");
    let ids: Vec<&str> = outcome.patterns.iter().map(|p| p.id.as_str()).collect();
    assert_eq!(ids, ["pad2-aaa", "pad3-bb", "tail-cc"]);
    assert_eq!(outcome.patterns[2].gray, vec![9, 10, 11, 12]);
}

#[test]
fn empty_block_yields_no_patterns() {
    assert_eq!(parse_patt_block(&[], 0, 0).patterns.len(), 0);
}

#[test]
fn unsupported_image_mode_is_reported_and_the_healthy_neighbour_survives() {
    let bad_ch = channel_slot(2, 2, 0, &[10, 20, 30, 40]);
    let bad = record_body(4, (2, 2), "unsupported", "uuid-mode4", None, &[bad_ch], 23);
    let good_ch = channel_slot(2, 2, 0, &[1, 2, 3, 4]);
    let good = record_body(1, (2, 2), "fine", "uuid-good", None, &[good_ch], 23);
    let block = record_block(&[bad, good]);

    let outcome = parse_patt_block(&block, 0, 0);
    assert_eq!(outcome.patterns.len(), 1);
    assert_eq!(outcome.patterns[0].id, "uuid-good");
    assert_eq!(outcome.dropped.len(), 1);
    let d = &outcome.dropped[0];
    assert_eq!(d.record_index, 0);
    assert_eq!(d.mode, 4);
    assert_eq!(d.reason, DroppedPatternReason::UnsupportedImageMode(4));
    assert_eq!(d.id, "uuid-mode4");
}

#[test]
fn record_truncated_mid_channel_is_reported_as_undecodable() {
    let ch = channel_slot(2, 2, 0, &[10, 20, 30, 40]);
    let mut body = record_body(1, (2, 2), "cut", "uuid-cut", None, &[ch], 0);
    body.truncate(body.len() - 5);
    let block = record_block(&[body]);

    let outcome = parse_patt_block(&block, 0, 0);
    assert!(outcome.patterns.is_empty());
    assert_eq!(outcome.dropped.len(), 1);
    let d = &outcome.dropped[0];
    assert_eq!(d.record_index, 0);
    assert_eq!(d.reason, DroppedPatternReason::Undecodable);
    assert_eq!(d.mode, 1);
}

fn unreadable_chunk() -> Vec<u8> {
    let mut junk = Vec::new();
    junk.write_u32::<BigEndian>(1).unwrap();
    junk.write_u32::<BigEndian>(1).unwrap();
    junk.write_u16::<BigEndian>(2).unwrap();
    junk.write_u16::<BigEndian>(2).unwrap();
    junk.write_u32::<BigEndian>(u32::MAX).unwrap();
    junk
}

#[test]
fn chunk_with_an_unreadable_header_is_counted_but_is_not_a_drop() {
    let good_ch = channel_slot(2, 2, 0, &[1, 2, 3, 4]);
    let good = record_body(1, (2, 2), "fine", "uuid-good", None, &[good_ch], 23);
    let junk = unreadable_chunk();
    let block = record_block(&[good.clone(), junk.clone(), good.clone()]);

    let outcome = parse_patt_block(&block, 0, 0);
    assert_eq!(outcome.dropped.len(), 0);
    assert_eq!(outcome.patterns.len(), 2);
    assert_eq!(outcome.patterns[0].gray, vec![1, 2, 3, 4]);
    assert_eq!(outcome.patterns[1].gray, vec![1, 2, 3, 4]);

    assert_eq!(outcome.unreadable.len(), 1);
    let u = &outcome.unreadable[0];
    assert_eq!(u.offset, (4 + good.len()).next_multiple_of(4));
    assert_eq!(u.declared_length, junk.len());
    assert_eq!(u.block_index, 0);
}

#[test]
fn multi_block_record_index_counts_unreadable_chunks() {
    let good_ch = channel_slot(2, 2, 0, &[1, 2, 3, 4]);
    let good = record_body(1, (2, 2), "fine", "uuid-good", None, &[good_ch], 23);
    let junk = unreadable_chunk();
    let block_a = record_block(&[good.clone(), junk.clone()]);

    let bad_ch = channel_slot(2, 2, 0, &[10, 20, 30, 40]);
    let bad = record_body(4, (2, 2), "unsupported", "uuid-mode4", None, &[bad_ch], 23);
    let block_b = record_block(&[bad]);

    let mut file = Vec::new();
    file.write_u16::<BigEndian>(10).unwrap();
    file.write_u16::<BigEndian>(2).unwrap();
    for block in [&block_a, &block_b] {
        file.extend_from_slice(b"8BIM");
        file.extend_from_slice(b"patt");
        file.write_u32::<BigEndian>(block.len() as u32).unwrap();
        file.extend_from_slice(block);
    }

    let pack = parse_abr(&file).unwrap();
    assert_eq!(pack.patterns.len(), 1);
    assert_eq!(pack.dropped_pattern_count, 1);
    assert_eq!(pack.dropped_pattern_details[0].record_index, 2);

    assert_eq!(pack.unreadable_patt_chunk_count, 1);
    let u = &pack.unreadable_patt_chunks[0];
    assert_eq!(u.block_index, 0);
    assert_eq!(u.offset, (4 + good.len()).next_multiple_of(4));
    assert_eq!(u.declared_length, junk.len());
}

#[test]
fn undersized_channel_array_length_is_skipped() {
    let palette = gray_palette();
    let mut bad_slot = Vec::new();
    bad_slot.write_u32::<BigEndian>(1).unwrap();
    bad_slot.write_u32::<BigEndian>(0).unwrap();
    bad_slot.extend_from_slice(&[0u8; 23]);
    let body = record_body(2, (2, 2), "bad", "uuid-bad", Some(&palette), &[bad_slot], 0);
    let block = record_block(&[body]);

    let out = parse_patt_block(&block, 0, 0);
    assert!(out.patterns.is_empty());
    assert_eq!(out.dropped.len(), 1, "the record must surface as a drop");
    assert_eq!(out.dropped[0].id, "uuid-bad");
    assert_eq!(out.dropped[0].record_index, 0);
    assert!(
        matches!(out.dropped[0].reason, DroppedPatternReason::Undecodable),
        "mode 2 is supported, so an undersized slot is a body failure: {:?}",
        out.dropped[0].reason
    );
}

#[test]
fn truncated_record_is_skipped() {
    let palette = gray_palette();
    let ch = channel_slot(2, 2, 1, &packbits_channel(&[vec![1u8, 2], vec![3u8, 4]]));
    let body = record_body(2, (2, 2), "t", "uuid-trunc", Some(&palette), &[ch], 2);
    let good = record_body(
        1,
        (2, 2),
        "fine",
        "uuid-good",
        None,
        &[channel_slot(2, 2, 0, &[1, 2, 3, 4])],
        23,
    );
    let mut block = record_block(&[good, body]);
    block.truncate(block.len() - 20);

    let out = parse_patt_block(&block, 0, 0);
    assert_eq!(out.patterns.len(), 1, "the intact record must still decode");
    assert_eq!(out.patterns[0].id, "uuid-good");
    assert!(
        out.dropped.is_empty(),
        "a truncated tail is not a decodable-record loss: {:?}",
        out.dropped
    );
    assert!(
        out.unreadable.is_empty(),
        "nor a chunk whose header we read: {:?}",
        out.unreadable
    );
}

#[test]
fn patt_oversized_name_skips_record() {
    let mut body = Vec::new();
    body.write_u32::<BigEndian>(1).unwrap();
    body.write_u32::<BigEndian>(2).unwrap();
    body.write_u16::<BigEndian>(2).unwrap();
    body.write_u16::<BigEndian>(2).unwrap();
    body.write_u32::<BigEndian>(u32::MAX).unwrap();
    let block = record_block(&[body]);

    let patterns = parse_patt_block(&block, 0, 0).patterns;
    assert!(patterns.is_empty());
}

#[test]
fn patt_oversized_channel_skips_record() {
    let palette = gray_palette();
    let pixels = vec![7u8; 20000];
    let big = channel_slot(20000, 1, 0, &pixels);
    let body = record_body(2, (20000, 1), "big", "uuid-big", Some(&palette), &[big], 0);
    let block = record_block(&[body]);

    let patterns = parse_patt_block(&block, 0, 0).patterns;
    assert!(patterns.is_empty());
}

#[test]
fn patt_short_gray_plane_yields_none_or_valid() {
    let palette = gray_palette();
    let ch0 = channel_slot(1, 1, 0, &[100u8]);
    let ch1 = channel_slot(2, 2, 0, &[1u8, 2, 3, 4]);
    let body = record_body(
        2,
        (2, 2),
        "short",
        "uuid-short",
        Some(&palette),
        &[ch0, ch1],
        0,
    );
    let block = record_block(&[body]);

    let patterns = parse_patt_block(&block, 0, 0).patterns;
    assert!(patterns
        .iter()
        .all(|p| p.gray.len() == (p.width * p.height) as usize));
}

#[test]
fn patt_long_gray_plane_yields_none_or_valid() {
    let palette = gray_palette();
    let ch0 = channel_slot(2, 2, 0, &[1u8, 2, 3, 4]);
    let ch1 = channel_slot(1, 1, 0, &[9u8]);
    let body = record_body(
        2,
        (1, 1),
        "long",
        "uuid-long",
        Some(&palette),
        &[ch0, ch1],
        0,
    );
    let block = record_block(&[body]);

    let patterns = parse_patt_block(&block, 0, 0).patterns;
    assert!(patterns
        .iter()
        .all(|p| p.gray.len() == (p.width * p.height) as usize));
    assert_eq!(patterns.len(), 1);
    assert_eq!(patterns[0].gray.len(), 1);
}
