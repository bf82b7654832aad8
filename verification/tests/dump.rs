//! The raw dump of a descriptor.
use brushkit::abr::descriptor::MAX_DESCRIPTOR_DEPTH;
use brushkit::abr::dump::{dump_descriptors, DescriptorDump, DumpItem, DumpValue};
use brushkit::abr::parse_abr;
use brushkit::abr::preset::extract_all_brush_info;
use brushkit::support::double::Double;
use byteorder::{BigEndian, WriteBytesExt};

fn double(v: f64) -> Double {
    Double { bits: v.to_bits() }
}

fn write_id_4cc(buf: &mut Vec<u8>, code: &[u8; 4]) {
    buf.write_u32::<BigEndian>(0).unwrap();
    buf.extend_from_slice(code);
}

fn write_text_value(buf: &mut Vec<u8>, text: &str) {
    let utf16: Vec<u16> = text.encode_utf16().collect();
    buf.write_u32::<BigEndian>(utf16.len() as u32 + 1).unwrap();
    for ch in &utf16 {
        buf.write_u16::<BigEndian>(*ch).unwrap();
    }
    buf.write_u16::<BigEndian>(0).unwrap();
}

fn write_header_and_brsh_list(buf: &mut Vec<u8>, n: u32) {
    buf.write_u32::<BigEndian>(16).unwrap();
    buf.write_u32::<BigEndian>(1).unwrap();
    buf.write_u16::<BigEndian>(0).unwrap();
    write_id_4cc(buf, b"null");
    buf.write_u32::<BigEndian>(1).unwrap();
    write_id_4cc(buf, b"Brsh");
    buf.extend_from_slice(b"VlLs");
    buf.write_u32::<BigEndian>(n).unwrap();
}

fn write_preset_objc_open(buf: &mut Vec<u8>, class_id: &[u8], n_items: u32) {
    buf.extend_from_slice(b"Objc");
    buf.write_u32::<BigEndian>(1).unwrap();
    buf.write_u16::<BigEndian>(0).unwrap();
    buf.write_u32::<BigEndian>(class_id.len() as u32).unwrap();
    buf.extend_from_slice(class_id);
    buf.write_u32::<BigEndian>(n_items).unwrap();
}

const TDTA_LEN: usize = 7;

const LEVELS: usize = MAX_DESCRIPTOR_DEPTH;

fn build_rich_block() -> Vec<u8> {
    let mut buf = Vec::new();
    write_header_and_brsh_list(&mut buf, 1);
    write_preset_objc_open(&mut buf, b"brushPreset", 3);

    write_id_4cc(&mut buf, b"Nm  ");
    buf.extend_from_slice(b"TEXT");
    write_text_value(&mut buf, "Hi");

    write_id_4cc(&mut buf, b"Brsh");
    buf.extend_from_slice(b"Objc");
    buf.write_u32::<BigEndian>(1).unwrap();
    buf.write_u16::<BigEndian>(0).unwrap();
    let cid = b"sampledBrush";
    buf.write_u32::<BigEndian>(cid.len() as u32).unwrap();
    buf.extend_from_slice(cid);
    buf.write_u32::<BigEndian>(4).unwrap();

    write_id_4cc(&mut buf, b"Spcn");
    buf.extend_from_slice(b"UntF");
    buf.extend_from_slice(b"#Prc");
    buf.write_f64::<BigEndian>(25.0).unwrap();

    write_id_4cc(&mut buf, b"flip");
    buf.extend_from_slice(b"bool");
    buf.write_u8(1).unwrap();

    write_id_4cc(&mut buf, b"mode");
    buf.extend_from_slice(b"enum");
    write_id_4cc(&mut buf, b"blnM");
    write_id_4cc(&mut buf, b"Nrml");

    write_id_4cc(&mut buf, b"list");
    buf.extend_from_slice(b"VlLs");
    buf.write_u32::<BigEndian>(2).unwrap();
    buf.extend_from_slice(b"doub");
    buf.write_f64::<BigEndian>(1.5).unwrap();
    buf.extend_from_slice(b"doub");
    buf.write_f64::<BigEndian>(2.5).unwrap();

    write_id_4cc(&mut buf, b"extD");
    buf.extend_from_slice(b"tdta");
    buf.write_u32::<BigEndian>(TDTA_LEN as u32).unwrap();
    buf.extend_from_slice(&[0xABu8; TDTA_LEN]);

    buf
}

#[test]
fn test_full_capture() {
    let data = build_rich_block();
    let dump = dump_descriptors(&data);
    assert!(dump.unknown_type_stop.is_none());
    assert_eq!(dump.presets.len(), 1);
    let preset = &dump.presets[0];
    assert_eq!(preset.index, 0);
    assert_eq!(preset.items.len(), 3);

    assert_eq!(preset.items[0].key, "Nm  ");
    assert_eq!(preset.items[0].depth, 0);
    assert!(matches!(preset.items[0].value, DumpValue::Text(ref s) if s == "Hi"));

    let brsh = &preset.items[1];
    assert_eq!(brsh.depth, 0);
    let (class_id, items) = match &brsh.value {
        DumpValue::Objc { class_id, items } => (class_id, items),
        other => panic!("expected Objc, got {other:?}"),
    };
    assert_eq!(class_id, "sampledBrush");
    assert_eq!(items.len(), 4);
    for it in items {
        assert_eq!(it.depth, 1, "nested Objc items are depth 1");
    }

    assert_eq!(items[0].key, "Spcn");
    assert!(matches!(
        items[0].value,
        DumpValue::UnitFloat { ref unit, number } if unit == "#Prc" && number == double(25.0)
    ));
    assert!(matches!(items[1].value, DumpValue::Bool(true)));
    assert!(matches!(
        items[2].value,
        DumpValue::Enum { ref enum_type, ref enum_value }
            if enum_type == "blnM" && enum_value == "Nrml"
    ));
    match &items[3].value {
        DumpValue::List(v) => {
            assert_eq!(v.len(), 2);
            assert!(matches!(v[0], DumpValue::Doub(d) if d == double(1.5)));
            assert!(matches!(v[1], DumpValue::Doub(d) if d == double(2.5)));
        }
        other => panic!("expected List, got {other:?}"),
    }

    assert_eq!(preset.items[2].key, "extD");
    assert!(matches!(
        preset.items[2].value,
        DumpValue::Tdta { tdta_len } if tdta_len == TDTA_LEN
    ));
}

#[test]
fn test_unknown_tag_record_and_stop() {
    let mut buf = Vec::new();
    write_header_and_brsh_list(&mut buf, 2);

    write_preset_objc_open(&mut buf, b"brushPreset", 1);
    write_id_4cc(&mut buf, b"Nm  ");
    buf.extend_from_slice(b"TEXT");
    write_text_value(&mut buf, "A");

    write_preset_objc_open(&mut buf, b"brushPreset", 2);
    write_id_4cc(&mut buf, b"Nm  ");
    buf.extend_from_slice(b"TEXT");
    write_text_value(&mut buf, "B");
    write_id_4cc(&mut buf, b"bad ");
    buf.extend_from_slice(b"Xyz1");

    let dump = dump_descriptors(&buf);

    assert_eq!(dump.presets.len(), 2);
    assert_eq!(dump.presets[0].index, 0);
    assert!(matches!(
        dump.presets[0].items[0].value,
        DumpValue::Text(ref s) if s == "A"
    ));

    let stop = dump.unknown_type_stop.as_ref().expect("stop recorded");
    assert_eq!(stop.preset_index, 1);
    assert_eq!(stop.tag, "Xyz1");
    assert_eq!(stop.key, "bad ");

    let p1 = &dump.presets[1];
    let last = p1.items.last().unwrap();
    assert!(matches!(last.value, DumpValue::Unknown { ref tag } if tag == "Xyz1"));
}

fn nested_objc_dump(levels: usize) -> DescriptorDump {
    let mut buf = Vec::new();
    write_header_and_brsh_list(&mut buf, 1);
    write_preset_objc_open(&mut buf, b"brushPreset", 1);
    for _ in 0..levels {
        write_id_4cc(&mut buf, b"deep");
        buf.extend_from_slice(b"Objc");
        buf.write_u32::<BigEndian>(1).unwrap();
        buf.write_u16::<BigEndian>(0).unwrap();
        write_id_4cc(&mut buf, b"x   ");
        buf.write_u32::<BigEndian>(1).unwrap();
    }
    write_id_4cc(&mut buf, b"end ");
    buf.extend_from_slice(b"bool");
    buf.write_u8(0).unwrap();
    dump_descriptors(&buf)
}

fn deepest_objc_depth(items: &[DumpItem]) -> usize {
    items
        .iter()
        .map(|it| match &it.value {
            DumpValue::Objc { items, .. } => it.depth.max(deepest_objc_depth(items)),
            _ => it.depth,
        })
        .max()
        .unwrap_or(0)
}

#[test]
fn test_depth_guard() {
    let dump = nested_objc_dump(MAX_DESCRIPTOR_DEPTH + 1);
    assert!(
        dump.presets.is_empty(),
        "one past the ceiling the guard must abandon the preset, not return \
         a partial one: got {} preset(s)",
        dump.presets.len()
    );
    assert!(
        dump.unknown_type_stop.is_none(),
        "a depth bail is not an unknown-tag stop"
    );

    let runaway = nested_objc_dump(MAX_DESCRIPTOR_DEPTH + 10);
    assert!(
        runaway.presets.is_empty(),
        "deep nesting must stay bounded: got {} preset(s)",
        runaway.presets.len()
    );
}

#[test]
fn test_depth_guard_keeps_nesting_inside_the_ceiling() {
    let dump = nested_objc_dump(LEVELS);
    assert_eq!(
        dump.presets.len(),
        1,
        "nesting inside the ceiling must still capture its preset"
    );
    assert_eq!(
        deepest_objc_depth(&dump.presets[0].items),
        LEVELS,
        "the walk must reach the terminal bool at depth {LEVELS}, the \
         deepest level the guard still allows"
    );
}

#[test]
fn test_garbage_tolerance() {
    let dump = dump_descriptors(&[0, 0, 0]);
    assert!(dump.presets.is_empty());
    assert!(dump.unknown_type_stop.is_none());
}

#[test]
fn a_class_id_behind_its_length_is_passed() {
    let data = b"\0\0\0\x10\0\0\0\0\0\0\0\x04null\0\0\0\x01\0\0\0\0Testbool\x01";
    let dump = dump_descriptors(data);
    assert!(dump.unknown_type_stop.is_none());
    assert_eq!(dump.presets.len(), 1);
    assert_eq!(dump.presets[0].index, 0);
    assert_eq!(dump.presets[0].items.len(), 1);
    let item = &dump.presets[0].items[0];
    assert_eq!((item.key.as_str(), item.type_tag.as_str(), item.depth), ("Test", "bool", 0));
    assert!(matches!(item.value, DumpValue::Bool(true)));
}

fn write_named_preset(buf: &mut Vec<u8>, name: &str) {
    write_preset_objc_open(buf, b"brushPreset", 1);
    write_id_4cc(buf, b"Nm  ");
    buf.extend_from_slice(b"TEXT");
    write_text_value(buf, name);
}

/// A block with an item before the preset list, and an element of the list that is no preset.
fn mixed_block() -> Vec<u8> {
    let mut buf = Vec::new();
    buf.write_u32::<BigEndian>(16).unwrap();
    buf.write_u32::<BigEndian>(1).unwrap();
    buf.write_u16::<BigEndian>(0).unwrap();
    write_id_4cc(&mut buf, b"null");
    buf.write_u32::<BigEndian>(2).unwrap();
    write_id_4cc(&mut buf, b"vers");
    buf.extend_from_slice(b"long");
    buf.write_u32::<BigEndian>(7).unwrap();
    write_id_4cc(&mut buf, b"Brsh");
    buf.extend_from_slice(b"VlLs");
    buf.write_u32::<BigEndian>(3).unwrap();
    write_named_preset(&mut buf, "A");
    buf.extend_from_slice(b"bool\x01");
    write_named_preset(&mut buf, "B");
    buf
}

#[test]
fn presets_are_numbered_before_what_else_there_is() {
    let data = mixed_block();
    let dump = dump_descriptors(&data);
    assert!(dump.unknown_type_stop.is_none());
    let keys: Vec<(usize, &str)> =
        dump.presets.iter().map(|p| (p.index, p.items[0].key.as_str())).collect();
    assert_eq!(keys, [(0, "Nm  "), (1, "Nm  "), (2, "vers"), (3, "Brsh")]);
    assert!(matches!(&dump.presets[1].items[0].value, DumpValue::Text(s) if s == "B"));
    let infos = extract_all_brush_info(&data);
    let names: Vec<&str> = infos.iter().map(|i| i.name.as_str()).collect();
    assert_eq!(names, ["A", "B"]);
}

#[test]
fn preset_indices_find_their_entries_behind_other_items() {
    let desc = mixed_block();
    let mut file = vec![0, 10, 0, 2];
    file.extend_from_slice(b"8BIMdesc");
    file.extend_from_slice(&(desc.len() as u32).to_be_bytes());
    file.extend_from_slice(&desc);
    let pack = parse_abr(&file).unwrap();
    let dump = dump_descriptors(pack.raw_desc_block.as_ref().unwrap());
    assert_eq!(pack.unsupported_tip_presets.len(), 2);
    for preset in &pack.unsupported_tip_presets {
        let entry = dump.presets.iter().find(|p| p.index == preset.preset_index).unwrap();
        assert!(
            matches!(&entry.items[0].value, DumpValue::Text(s) if *s == preset.name),
            "{entry:?}"
        );
    }
}

#[test]
fn a_stop_behind_the_presets_has_the_number_of_its_entry() {
    let mut data = mixed_block();
    let list = data.windows(4).position(|w| w == b"bool").unwrap();
    data[list..list + 4].copy_from_slice(b"Xyz1");
    let dump = dump_descriptors(&data);
    let stop = dump.unknown_type_stop.as_ref().unwrap();
    assert_eq!((stop.preset_index, stop.tag.as_str()), (2, "Xyz1"));
    assert_eq!(dump.presets.len(), 3);
    assert_eq!(dump.presets[2].items[0].key, "Brsh");
}
