//! Every error, and the input that gives it.
use brushkit::abr::descriptor::{
    read_id_from, read_unicode_string_from, skip_descriptor_value, DescError, MAX_DESCRIPTOR_DEPTH,
    MAX_DESCRIPTOR_STRING_LEN, TAG_BOOL, TAG_OBJC, TAG_TDTA,
};
use brushkit::abr::preset::extract_all_brush_info_inner;
use brushkit::abr::rle::decode_rle;
use brushkit::abr::limits::MAX_TIP_DECODED_BYTES;
use brushkit::abr::tip::{decode_bitmap, settle_zlib, BitmapHeader};
use brushkit::abr::{parse_abr, AbrError, AbrVersion};
use brushkit::preview::procreate::{
    brush_name, decode_tip_png, member_name, members_in_zip_order, parse_brushset_plist,
    parse_plist_guarded, read_zip_entry, ShapePngError,
};
use brushkit::preview::{
    decode_tip_image, preview_brush, preview_brushset, PreviewOptions, TipImageError,
};
use brushkit::support::bytes::ByteReader;
use plist::{Dictionary, Uid, Value};
use std::io::{Cursor, Write};

const OPTS: PreviewOptions = PreviewOptions { max_cell: 8 };

fn header(bottom: i32, right: i32, depth: u8, compression: u8) -> BitmapHeader {
    BitmapHeader { rect_offset: 0, top: 0, left: 0, bottom, right, depth, compression }
}

fn tip_error(data: &[u8], header: BitmapHeader) -> String {
    decode_bitmap(data, &header).unwrap_err().message()
}

fn zlib(data: &[u8]) -> Vec<u8> {
    let mut encoder =
        flate2::write::ZlibEncoder::new(Vec::new(), flate2::Compression::default());
    encoder.write_all(data).unwrap();
    encoder.finish().unwrap()
}

fn entry(body: &[u8]) -> Vec<u8> {
    let mut data = vec![0u8; 19];
    data.extend_from_slice(body);
    data
}

fn zip_with(entries: &[(&str, &[u8])]) -> Vec<u8> {
    let mut zw = zip::write::ZipWriter::new(Cursor::new(Vec::new()));
    let opts = zip::write::SimpleFileOptions::default();
    for (path, bytes) in entries {
        zw.start_file(*path, opts).unwrap();
        zw.write_all(bytes).unwrap();
    }
    zw.finish().unwrap().into_inner()
}

fn binary(value: Value) -> Vec<u8> {
    let mut out = Vec::new();
    value.to_writer_binary(&mut out).unwrap();
    out
}

fn dictionary(items: Vec<(&str, Value)>) -> Value {
    let mut dict = Dictionary::new();
    for (key, value) in items {
        dict.insert(key.into(), value);
    }
    Value::Dictionary(dict)
}

#[test]
fn abr_errors_in_words() {
    assert_eq!(
        parse_abr(&[0, 5, 0, 1]).unwrap_err().message(),
        "unsupported ABR version 5: the header reads fine, this version is not supported"
    );
    assert_eq!(
        parse_abr(&[0]).unwrap_err().message(),
        "invalid or truncated ABR file header"
    );
    let overrun = b"\x00\x06\x00\x018BIMsamp\x00\x00\x00\x05abc";
    match parse_abr(overrun).unwrap_err() {
        AbrError::MalformedBlock { offset, reason } => {
            assert_eq!(offset, 4);
            assert_eq!(reason, "block claims 5 bytes but only 3 remain");
        }
        other => panic!("{other:?}"),
    }
}

#[test]
fn versions_by_name() {
    let names: Vec<String> = [
        AbrVersion::V1,
        AbrVersion::V2,
        AbrVersion::V6,
        AbrVersion::V7,
        AbrVersion::V9,
        AbrVersion::V10,
    ]
    .iter()
    .map(|v| v.name())
    .collect();
    assert_eq!(names, ["v1", "v2", "v6", "v7", "v9", "v10"]);
}

#[test]
fn tips_that_do_not_decode() {
    assert_eq!(
        tip_error(&entry(&[1, 2, 3]), header(2, 2, 8, 0)),
        "malformed block at offset 0: pixel data too short: 3 bytes, expected 4 (2x2x8bit)"
    );
    assert_eq!(
        tip_error(&entry(&[0; 4]), header(2, 2, 8, 3)),
        "malformed block at offset 0: unknown compression 3"
    );
    assert_eq!(
        tip_error(&[0; 18], header(2, 2, 8, 0)),
        "malformed block at offset 0: bitmap header extends past data end"
    );
    assert_eq!(
        tip_error(&entry(&[0; 4]), header(16384, 16384, 16, 0)),
        "malformed block at offset 0: bitmap byte size out of range"
    );
    let large = vec![0; MAX_TIP_DECODED_BYTES + 1];
    assert_eq!(
        settle_zlib(Ok(large), 4, 2, 2, 8).unwrap_err().message(),
        "decompression failed: zlib output exceeds size limit"
    );
    assert_eq!(
        tip_error(&entry(&zlib(&[7; 3])), header(2, 2, 8, 2)),
        "malformed block at offset 0: pixel data too short: 3 bytes, expected 4 (2x2x8bit)"
    );
    assert!(tip_error(&entry(b"no stream"), header(2, 2, 8, 2))
        .starts_with("decompression failed: zlib: "));
}

#[test]
fn zlib_tips_are_inflated() {
    let tip = decode_bitmap(&entry(&zlib(&[9, 8, 7, 6])), &header(2, 2, 8, 2)).unwrap();
    assert_eq!((tip.width, tip.height, tip.depth), (2, 2, 8));
    assert_eq!(tip.data, [9, 8, 7, 6]);
    let tip = decode_bitmap(&entry(&zlib(&[9, 8, 7, 6, 5])), &header(2, 2, 8, 2)).unwrap();
    assert_eq!(tip.data, [9, 8, 7, 6]);
}

#[test]
fn rle_rows_that_do_not_decode() {
    let message = |data: &[u8], height: usize, width: usize| {
        decode_rle(data, height, width, 1, height * width).unwrap_err().message()
    };
    assert_eq!(message(&[0], 1, 1), "decompression failed: truncated RLE row byte counts");
    assert_eq!(
        message(&[0, 1, 2], 1, 3),
        "decompression failed: truncated RLE row 0: literal run of 3 exceeds the row's declared \
         bytes"
    );
    assert_eq!(
        message(&[0, 1, 0xFF], 1, 3),
        "decompression failed: truncated RLE row 0: repeat run has no value byte"
    );
    assert_eq!(
        message(&[0, 2, 0xFE, 1], 1, 2),
        "decompression failed: RLE row 0 overruns its width: 3 > 2"
    );
}

#[test]
fn descriptor_errors_in_words() {
    let mut reader = ByteReader::new(&[]);
    let long = MAX_DESCRIPTOR_STRING_LEN as u32 + 1;
    assert_eq!(read_unicode_string_from(&mut reader, long), Err(DescError::StringTooLong));
    assert_eq!(read_id_from(&mut reader, long), Err(DescError::IdTooLong));
    assert_eq!(
        skip_descriptor_value(&mut reader, TAG_OBJC, MAX_DESCRIPTOR_DEPTH + 1),
        Err(DescError::TooDeep)
    );
    assert_eq!(
        skip_descriptor_value(&mut reader, TAG_BOOL, 0),
        Err(DescError::UnexpectedEof)
    );
    let tag = u32::from_be_bytes(*b"Xyz1");
    let unknown = skip_descriptor_value(&mut reader, tag, 0).unwrap_err();
    assert_eq!(unknown, DescError::UnknownTag(tag));
    assert!(unknown.message().contains("Xyz1"), "{}", unknown.message());
    let bytes = long.to_be_bytes();
    let mut reader = ByteReader::new(&bytes);
    assert_eq!(skip_descriptor_value(&mut reader, TAG_TDTA, 0), Err(DescError::TdtaTooLong));
    assert!(extract_all_brush_info_inner(&[0, 0, 0, 16]).is_err());
}

#[test]
fn brushset_plists_that_are_refused() {
    let refused = |value: Value| parse_brushset_plist(&binary(value)).unwrap_err();
    assert_eq!(
        refused(Value::Array(vec![])),
        "brushset.plist root is not a dictionary"
    );
    assert_eq!(
        refused(dictionary(vec![("name", Value::String("S".into()))])),
        "brushset.plist missing brushes array"
    );
    let brushes = Value::Array(vec![Value::String("a".into()), Value::Boolean(true)]);
    assert_eq!(
        refused(dictionary(vec![("brushes", brushes)])),
        "brushset.plist brushes[1] is not a string"
    );
    assert!(parse_brushset_plist(b"no plist").unwrap_err().starts_with("failed to parse brushset.plist: "));
    let unnamed = dictionary(vec![("brushes", Value::Array(vec![Value::String("a".into())]))]);
    assert_eq!(parse_brushset_plist(&binary(unnamed)), Ok((None, vec!["a".to_string()])));
}

#[test]
fn brush_archives_that_are_refused() {
    let refused = |value: Value| brush_name(&binary(value)).unwrap_err();
    assert_eq!(refused(Value::Boolean(true)), "Brush.archive root is not a dictionary");
    assert_eq!(refused(dictionary(vec![])), "Brush.archive missing $objects array");
    let objects = |items: Vec<Value>| dictionary(vec![("$objects", Value::Array(items))]);
    assert_eq!(
        refused(objects(vec![Value::String("$null".into())])),
        "$objects[1] is not a dictionary"
    );
    let null = || Value::String("$null".into());
    let named = |uid: u64| dictionary(vec![("name", Value::Uid(Uid::new(uid)))]);
    assert_eq!(brush_name(&binary(objects(vec![null(), named(0)]))), Ok(None));
    assert_eq!(brush_name(&binary(objects(vec![null(), named(7)]))), Ok(None));
    assert_eq!(
        brush_name(&binary(objects(vec![null(), named(2), Value::String("Ink".into())]))),
        Ok(Some("Ink".to_string()))
    );
}

#[test]
fn plists_are_guarded() {
    let nested = |depth: usize| {
        let mut value = Value::Array(vec![]);
        for _ in 1..depth {
            value = Value::Array(vec![value]);
        }
        binary(value)
    };
    assert!(parse_plist_guarded(&nested(64), "p").is_ok());
    assert_eq!(
        parse_plist_guarded(&nested(65), "p").unwrap_err(),
        "p: plist nesting depth exceeds limit"
    );
    let large = vec![0u8; 16 * 1024 * 1024 + 1];
    assert_eq!(
        parse_plist_guarded(&large, "p").unwrap_err(),
        "p: plist size 16777217 exceeds limit"
    );
}

#[test]
fn archives_that_are_refused() {
    assert!(preview_brush(b"no zip", OPTS).unwrap_err().message().starts_with("failed to open zip: "));
    let empty = zip_with(&[]);
    assert_eq!(preview_brush(&empty, OPTS).unwrap_err().0, "Brush.archive not found");
    assert_eq!(preview_brushset(&empty, OPTS).unwrap_err().0, "no brushes found");
    let zero = PreviewOptions { max_cell: 0 };
    assert_eq!(preview_brush(&empty, zero).unwrap_err().0, "max_cell must be at least 1");
    assert_eq!(preview_brushset(&empty, zero).unwrap_err().0, "max_cell must be at least 1");
}

#[test]
fn entries_of_an_archive_are_read_by_path() {
    let bytes = zip_with(&[
        ("b/Brush.archive", b"two"),
        ("a/Brush.archive", b"one"),
        ("b/Brush.archive.txt", b""),
    ]);
    let mut archive = zip::ZipArchive::new(Cursor::new(&bytes[..])).unwrap();
    assert_eq!(read_zip_entry(&mut archive, "a/Brush.archive"), Ok(b"one".to_vec()));
    assert_eq!(
        read_zip_entry(&mut archive, "c/Brush.archive"),
        Err("c/Brush.archive not found".to_string())
    );
    assert_eq!(members_in_zip_order(&mut archive), ["b", "a"]);
}

#[test]
fn members_are_directories_of_the_root() {
    assert_eq!(member_name("a/Brush.archive").as_deref(), Some("a"));
    assert_eq!(member_name("a/Reset/Brush.archive"), None);
    assert_eq!(member_name("Brush.archive"), None);
    assert_eq!(member_name("a/Shape.png"), None);
}

#[test]
fn images_that_do_not_decode() {
    assert!(matches!(
        decode_tip_png(b"no image"),
        Err(ShapePngError::Corrupt(_))
    ));
    let large = ShapePngError::TooLarge { width: 20000, height: 3 };
    assert_eq!(
        large.message(),
        "Shape.png is 20000x3px; the maximum supported brush-tip dimension is 16384px"
    );
    let large = TipImageError::TooLarge { width: 20000, height: 3 };
    assert_eq!(
        large.message(),
        "image is 20000x3px; a brush tip must be at most 16384px per side and 512 MiB to decode"
    );
    let refused = decode_tip_image(b"\x89PNG\r\n\x1a\n").unwrap_err();
    let words = image::load_from_memory(b"\x89PNG\r\n\x1a\n").unwrap_err().to_string();
    assert_eq!(refused.message(), words);
}
