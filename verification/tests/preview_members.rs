//! Previews of Procreate brushes and brush sets.
use brushkit::preview::entry::Take;
use brushkit::preview::members::brushset;
use brushkit::preview::procreate::{brush_name, MAX_PNG_DIMENSION};
use brushkit::preview::{
    preview_brush, preview_brush_first_available, preview_brushset,
    preview_brushset_first_available, PreviewError, PreviewOptions, PreviewSet, SourceDimensions,
    TipPreview, UnavailableReason, MAX_PREVIEW_BYTES,
};
use image::{DynamicImage, GrayImage, ImageFormat, Luma};
use plist::{Dictionary, Uid, Value};
use std::io::{self, Cursor, Read, Write};

const OPTS: PreviewOptions = PreviewOptions { max_cell: 8 };

/// A tip keeps its size at `max_cell = SIDE`, so each available one holds
/// `SIDE * SIDE` bytes. A large tip reaches the budget in few decodes.
const SIDE: u32 = 1024;
const REFERENCES: usize = 100_000;


/// Deep enough that a tree parse would overflow the stack on `Drop`, so the
/// depth guard must fire before the tree is built.
const STACK_BUSTING_DEPTH: usize = 10_000;


/// One byte more than an entry of an archive may hold.
const OVER: u64 = 256 * 1024 * 1024 + 1;

fn brush_archive(name: &str) -> Vec<u8> {
    let mut settings = Dictionary::new();
    settings.insert("name".into(), Value::Uid(Uid::new(2)));
    let mut top = Dictionary::new();
    top.insert("root".into(), Value::Uid(Uid::new(1)));
    let mut root = Dictionary::new();
    root.insert("$version".into(), Value::Integer(100_000.into()));
    root.insert("$archiver".into(), Value::String("NSKeyedArchiver".into()));
    root.insert(
        "$objects".into(),
        Value::Array(vec![
            Value::String("$null".into()),
            Value::Dictionary(settings),
            Value::String(name.into()),
        ]),
    );
    root.insert("$top".into(), Value::Dictionary(top));
    let mut out = Vec::new();
    Value::Dictionary(root)
        .to_writer_binary(&mut out)
        .expect("binary plist");
    out
}

fn brushset_plist(name: &str, uuids: &[&str]) -> Vec<u8> {
    let mut dict = Dictionary::new();
    dict.insert("name".into(), Value::String(name.into()));
    dict.insert(
        "brushes".into(),
        Value::Array(uuids.iter().map(|u| Value::String((*u).into())).collect()),
    );
    let mut out = Vec::new();
    Value::Dictionary(dict)
        .to_writer_binary(&mut out)
        .expect("binary plist");
    out
}

fn crc32(data: &[u8]) -> u32 {
    let mut crc: u32 = 0xFFFF_FFFF;
    for &b in data {
        crc ^= b as u32;
        for _ in 0..8 {
            let mask = (crc & 1).wrapping_neg();
            crc = (crc >> 1) ^ (0xEDB8_8320 & mask);
        }
    }
    !crc
}

fn adler32(data: &[u8]) -> u32 {
    let (mut a, mut b) = (1u32, 0u32);
    for &byte in data {
        a = (a + byte as u32) % 65521;
        b = (b + a) % 65521;
    }
    (b << 16) | a
}

/// An 8-bit grayscale PNG written by hand, with one stored DEFLATE block. The
/// fuzz seeds embed these bytes, so they must not change when the png encoder
/// does.
fn gray_png(width: u32, height: u32, fill: u8) -> Vec<u8> {
    let mut scanlines = Vec::new();
    for _ in 0..height {
        scanlines.push(0);
        scanlines.extend(std::iter::repeat_n(fill, width as usize));
    }
    let len = u16::try_from(scanlines.len()).expect("scanlines fit one stored block");
    let mut zlib = vec![0x78, 0x01, 1];
    zlib.extend_from_slice(&len.to_le_bytes());
    zlib.extend_from_slice(&(!len).to_le_bytes());
    zlib.extend_from_slice(&scanlines);
    zlib.extend_from_slice(&adler32(&scanlines).to_be_bytes());

    let mut ihdr = Vec::new();
    ihdr.extend_from_slice(&width.to_be_bytes());
    ihdr.extend_from_slice(&height.to_be_bytes());
    ihdr.extend_from_slice(&[8, 0, 0, 0, 0]);

    let mut png = b"\x89PNG\r\n\x1a\n".to_vec();
    for (kind, data) in [(b"IHDR", ihdr), (b"IDAT", zlib), (b"IEND", Vec::new())] {
        png.extend_from_slice(&(data.len() as u32).to_be_bytes());
        let start = png.len();
        png.extend_from_slice(kind);
        png.extend_from_slice(&data);
        let crc = crc32(&png[start..]);
        png.extend_from_slice(&crc.to_be_bytes());
    }
    png
}

fn real_4x4_png() -> Vec<u8> {
    gray_png(4, 4, 128)
}

fn dimension_bomb_png(w: u32, h: u32) -> Vec<u8> {
    let mut png = real_4x4_png();
    // IHDR is the first chunk: 8-byte signature, 4-byte length, 4-byte type,
    // then width and height as the first 8 bytes of its 13-byte payload.
    assert_eq!(
        &png[12..16],
        b"IHDR",
        "gray_png must write IHDR first for these offsets to be right"
    );
    png[16..20].copy_from_slice(&w.to_be_bytes());
    png[20..24].copy_from_slice(&h.to_be_bytes());
    let crc = crc32(&png[12..29]); // chunk type + the 13 IHDR data bytes
    png[29..33].copy_from_slice(&crc.to_be_bytes());
    png
}

/// A baseline JPEG written by hand that declares `width` x `height` with
/// `components` channels (1 is grayscale, 3 is YCbCr) and holds one 8x8 block
/// of scan data per channel. At 8x8 or smaller it decodes to solid mid-gray.
/// Each Huffman table holds one 1-bit code: every block is a zero DC and an
/// immediate end-of-block.
fn baseline_jpeg(width: u32, height: u32, components: u8) -> Vec<u8> {
    let width = u16::try_from(width).expect("JPEG width is 16-bit");
    let height = u16::try_from(height).expect("JPEG height is 16-bit");
    let mut jpeg = vec![0xFF, 0xD8];
    jpeg.extend_from_slice(&[0xFF, 0xDB, 0x00, 0x43, 0x00]);
    jpeg.extend_from_slice(&[1; 64]);
    jpeg.extend_from_slice(&[0xFF, 0xC0, 0x00, 8 + 3 * components, 8]);
    jpeg.extend_from_slice(&height.to_be_bytes());
    jpeg.extend_from_slice(&width.to_be_bytes());
    jpeg.push(components);
    for id in 1..=components {
        jpeg.extend_from_slice(&[id, 0x11, 0]);
    }
    for class in [0x00, 0x10] {
        jpeg.extend_from_slice(&[0xFF, 0xC4, 0x00, 0x14, class, 1]);
        jpeg.extend_from_slice(&[0; 15]);
        jpeg.push(0);
    }
    jpeg.extend_from_slice(&[0xFF, 0xDA, 0x00, 6 + 2 * components, components]);
    for id in 1..=components {
        jpeg.extend_from_slice(&[id, 0x00]);
    }
    jpeg.extend_from_slice(&[0, 0x3F, 0]);
    // Two zero bits per block, padded with one bits to the byte.
    jpeg.extend_from_slice(&[0xFF >> (2 * components), 0xFF, 0xD9]);
    jpeg
}

fn zip_with(entries: &[(&str, &[u8])]) -> Vec<u8> {
    let mut zw = zip::write::ZipWriter::new(Cursor::new(Vec::new()));
    let opts = zip::write::SimpleFileOptions::default();
    for (path, bytes) in entries {
        zw.start_file(*path, opts).expect("start_file");
        zw.write_all(bytes).expect("write entry");
    }
    zw.finish().expect("finish zip").into_inner()
}

/// A [`dimension_bomb_png`] whose header declares RGBA with samples of `depth` bits.
fn rgba_dimension_bomb_png(w: u32, h: u32, depth: u8) -> Vec<u8> {
    let mut png = dimension_bomb_png(w, h);
    png[24] = depth;
    png[25] = 6; // IHDR color type
    let crc = crc32(&png[12..29]);
    png[29..33].copy_from_slice(&crc.to_be_bytes());
    png
}

fn depth_bomb_plist_xml(depth: usize) -> Vec<u8> {
    let mut s = String::from(
        "<?xml version=\"1.0\" encoding=\"UTF-8\"?>\n\
         <!DOCTYPE plist PUBLIC \"-//Apple//DTD PLIST 1.0//EN\" \
         \"http://www.apple.com/DTDs/PropertyList-1.0.dtd\">\n\
         <plist version=\"1.0\">\n",
    );
    s.push_str(&"<array>".repeat(depth));
    s.into_bytes()
}

fn names(set: &PreviewSet) -> Vec<&str> {
    set.entries.iter().map(|e| e.name.as_str()).collect()
}

fn only_tip(set: &PreviewSet) -> &TipPreview {
    assert_eq!(set.entries.len(), 1, "expected a single entry");
    &set.entries[0].tip
}

type Preview = fn(&[u8], PreviewOptions) -> Result<PreviewSet, PreviewError>;
type FirstAvailable = fn(&[u8], PreviewOptions, usize) -> Result<PreviewSet, PreviewError>;


fn is_available(tip: &TipPreview) -> bool {
    matches!(tip, TipPreview::Available(_))
}

/// Asserts that `first` is the first `n` available entries of `full`, entry
/// for entry, with the same set name.
fn assert_first_available(full: &PreviewSet, first: &PreviewSet, n: usize, context: &str) {
    assert_eq!(first.set_name, full.set_name, "{context}: set name");
    let expected: Vec<_> = full
        .entries
        .iter()
        .filter(|entry| is_available(&entry.tip))
        .take(n)
        .collect();
    assert_eq!(
        first.entries.len(),
        expected.len(),
        "{context}: entry count for n = {n}"
    );
    for (got, want) in first.entries.iter().zip(expected) {
        assert_eq!(got.index, want.index, "{context}: n = {n}");
        assert_eq!(got.name, want.name, "{context}: n = {n}");
        assert_eq!(
            got.source_dimensions, want.source_dimensions,
            "{context}: n = {n}"
        );
        let (TipPreview::Available(got), TipPreview::Available(want)) = (&got.tip, &want.tip)
        else {
            panic!("{context}: n = {n}: entry {} is not available", want.index);
        };
        assert!(
            got.width > 0 && got.height > 0,
            "{context}: n = {n}: zero-area tip"
        );
        assert_eq!(
            (got.width, got.height, &got.data),
            (want.width, want.height, &want.data),
            "{context}: n = {n}"
        );
    }
}

/// Checks every `n` from 0 to one past the entry count and returns the full
/// preview.
fn check_every_n(bytes: &[u8], full: Preview, first: FirstAvailable) -> PreviewSet {
    let full = full(bytes, OPTS).unwrap();
    for n in 0..=full.entries.len() + 1 {
        let first = first(bytes, OPTS, n).unwrap();
        assert_first_available(&full, &first, n, "fixture");
    }
    full
}

fn availability(set: &PreviewSet) -> Vec<bool> {
    set.entries
        .iter()
        .map(|entry| is_available(&entry.tip))
        .collect()
}

#[test]
fn brushset_reads_only_the_members_it_returns() {
    let archive = brush_archive("Tip");
    let shape = gray_png(4, 4, 200);
    let plist = brushset_plist("Set", &["a", "b", "c", "d"]);
    let mut files: Vec<(String, &[u8])> = vec![("brushset.plist".into(), &plist)];
    for member in ["a", "b", "c", "d"] {
        files.push((format!("{member}/Brush.archive"), &archive));
        files.push((format!("{member}/Shape.png"), &shape));
    }
    let files: Vec<(&str, &[u8])> = files.iter().map(|(p, b)| (p.as_str(), *b)).collect();
    let bytes = zip_with(&files);
    assert_eq!(
        brushset(&bytes, OPTS, Take::FirstAvailable(1)).unwrap().1,
        1
    );
    assert_eq!(brushset(&bytes, OPTS, Take::All).unwrap().1, 4);
}

#[test]
fn plist_order_wins_over_zip_order() {
    let archive_a = brush_archive("A");
    let archive_b = brush_archive("B");
    assert_eq!(
        brush_name(&archive_a),
        Ok(Some("A".to_string())),
        "the archive builder must produce a readable name"
    );
    let png = real_4x4_png();
    let plist = brushset_plist("My Set", &["uuid-b", "uuid-a"]);

    let bytes = zip_with(&[
        ("brushset.plist", &plist),
        ("uuid-a/Brush.archive", &archive_a),
        ("uuid-a/Shape.png", &png),
        ("uuid-b/Brush.archive", &archive_b),
        ("uuid-b/Shape.png", &png),
    ]);

    let set = preview_brushset(&bytes, PreviewOptions { max_cell: 8 }).expect("set reads");
    assert_eq!(set.set_name, Some("My Set".to_string()));
    assert_eq!(names(&set), vec!["B", "A"]);
}

#[test]
fn no_plist_falls_back_to_zip_order() {
    let archive_a = brush_archive("A");
    let archive_b = brush_archive("B");
    let png = real_4x4_png();

    let bytes = zip_with(&[
        ("A/Brush.archive", &archive_a),
        ("A/Shape.png", &png),
        ("A/Reset/Brush.archive", &archive_a),
        ("A/QuickLook/Thumbnail.png", &png),
        ("B.brush/Brush.archive", &archive_b),
        ("B.brush/Shape.png", &png),
    ]);

    let set = preview_brushset(&bytes, PreviewOptions { max_cell: 8 }).expect("set reads");
    assert_eq!(set.set_name, None, "a set without a plist has no name");
    assert_eq!(
        names(&set),
        vec!["A", "B"],
        "Reset/ and QuickLook/ are not members"
    );
}

#[test]
fn member_without_shape_png_is_unavailable_at_its_index() {
    let png = real_4x4_png();
    let plist = brushset_plist("S", &["u0", "u1", "u2"]);
    let a0 = brush_archive("zero");
    let a1 = brush_archive("one");
    let a2 = brush_archive("two");

    let bytes = zip_with(&[
        ("brushset.plist", &plist),
        ("u0/Brush.archive", &a0),
        ("u0/Shape.png", &png),
        ("u1/Brush.archive", &a1),
        ("u2/Brush.archive", &a2),
        ("u2/Shape.png", &png),
    ]);

    let set = preview_brushset(&bytes, PreviewOptions { max_cell: 8 }).expect("set reads");
    assert_eq!(set.entries.len(), 3);
    assert_eq!(
        set.entries.iter().map(|e| e.index).collect::<Vec<_>>(),
        vec![0, 1, 2]
    );
    assert!(matches!(
        set.entries[1].tip,
        TipPreview::Unavailable(UnavailableReason::NoShapePng)
    ));
    assert!(matches!(set.entries[0].tip, TipPreview::Available(_)));
    assert!(matches!(set.entries[2].tip, TipPreview::Available(_)));
}

#[test]
fn tips_fit_max_cell() {
    let archive = brush_archive("wide");
    let png = gray_png(64, 16, 200);
    let plist = brushset_plist("S", &["u"]);

    let bytes = zip_with(&[
        ("brushset.plist", &plist),
        ("u/Brush.archive", &archive),
        ("u/Shape.png", &png),
    ]);

    let set = preview_brushset(&bytes, PreviewOptions { max_cell: 8 }).expect("set reads");
    let TipPreview::Available(tip) = &set.entries[0].tip else {
        panic!("expected an available tip, got {:?}", set.entries[0].tip);
    };
    assert_eq!(tip.width, 8);
    assert!(tip.height <= 8, "height {} exceeds the cell", tip.height);
    assert_eq!(tip.data.len(), (tip.width * tip.height) as usize);
}

#[test]
fn single_brush_root_layout() {
    let bytes = zip_with(&[
        ("Brush.archive", &brush_archive("Solo")),
        ("Shape.png", &real_4x4_png()),
    ]);

    let set = preview_brush(&bytes, PreviewOptions { max_cell: 8 }).expect("brush reads");
    assert_eq!(set.set_name, None);
    assert_eq!(set.entries.len(), 1);
    assert_eq!(set.entries[0].index, 0);
    assert_eq!(set.entries[0].name, "Solo");
    assert!(matches!(set.entries[0].tip, TipPreview::Available(_)));
}

#[test]
fn brushset_returns_the_first_available_tips_of_the_full_preview() {
    let archive = brush_archive("Tip");
    let small = gray_png(4, 2, 50);
    let large = gray_png(32, 16, 150);
    let square = gray_png(6, 6, 250);
    let idat = small.windows(4).position(|bytes| bytes == b"IDAT").unwrap();
    let corrupt_pixels = &small[..idat + 4];
    let members = ["missing", "pixels", "small", "archive", "large", "square"];
    let plist = brushset_plist("Mixed", &members);
    let bytes = zip_with(&[
        ("brushset.plist", &plist),
        ("missing/Brush.archive", &archive),
        ("pixels/Brush.archive", &archive),
        ("pixels/Shape.png", corrupt_pixels),
        ("small/Brush.archive", &archive),
        ("small/Shape.png", &small),
        ("archive/Brush.archive", b"bad archive"),
        ("archive/Shape.png", &small),
        ("large/Brush.archive", &archive),
        ("large/Shape.png", &large),
        ("square/Brush.archive", &archive),
        ("square/Shape.png", &square),
    ]);
    let full = check_every_n(&bytes, preview_brushset, preview_brushset_first_available);
    assert_eq!(full.set_name.as_deref(), Some("Mixed"));
    assert_eq!(
        availability(&full),
        vec![false, false, true, false, true, true]
    );
}

#[test]
fn brush_returns_its_tip_only_when_available() {
    let archive = brush_archive("Single");
    let available = zip_with(&[
        ("Brush.archive", &archive),
        ("Shape.png", &gray_png(10, 4, 90)),
    ]);
    let full = check_every_n(&available, preview_brush, preview_brush_first_available);
    assert_eq!(availability(&full), vec![true]);

    let missing = zip_with(&[("Brush.archive", &archive)]);
    let full = check_every_n(&missing, preview_brush, preview_brush_first_available);
    assert_eq!(availability(&full), vec![false]);
}

#[test]
fn jpeg_shapes_are_limited_like_png_shapes() {
    let archive = brush_archive("Tip");
    let small = baseline_jpeg(8, 4, 1);
    let color = baseline_jpeg(8, 8, 3);
    let mut odd = color.clone();
    let frame = odd.windows(2).position(|w| w == [0xFF, 0xC0]).unwrap();
    odd[frame + 1] = 0xC2;
    odd[frame + 14] = 0x22;
    let members = ["odd", "small", "missing", "color"];
    let plist = brushset_plist("Pictures", &members);
    let bytes = zip_with(&[
        ("brushset.plist", &plist),
        ("odd/Brush.archive", &archive),
        ("odd/Shape.png", &odd),
        ("small/Brush.archive", &archive),
        ("small/Shape.png", &small),
        ("missing/Brush.archive", &archive),
        ("color/Brush.archive", &archive),
        ("color/Shape.png", &color),
    ]);
    let full = check_every_n(&bytes, preview_brushset, preview_brushset_first_available);
    assert_eq!(availability(&full), vec![false, true, false, true]);

    let single = zip_with(&[("Brush.archive", &archive), ("Shape.png", &color)]);
    let full = check_every_n(&single, preview_brush, preview_brush_first_available);
    assert_eq!(availability(&full), vec![true]);

    let refused = zip_with(&[("Brush.archive", &archive), ("Shape.png", &odd)]);
    let full = check_every_n(&refused, preview_brush, preview_brush_first_available);
    assert_eq!(availability(&full), vec![false]);
}

#[test]
fn dimensions_require_two_positive_sides() {
    assert_eq!(SourceDimensions::new(0, 1), None);
    assert_eq!(SourceDimensions::new(1, 0), None);
    let dimensions = SourceDimensions::new(16, 8).unwrap();
    assert_eq!((dimensions.width(), dimensions.height()), (16, 8));
}

#[test]
fn procreate_dimensions_follow_members_and_survive_pixel_failures() {
    let archive = brush_archive("Same name");
    let shape = gray_png(64, 16, 200);
    // Retain IHDR and the IDAT header, but remove the compressed pixel data.
    let idat = shape.windows(4).position(|bytes| bytes == b"IDAT").unwrap();
    let corrupt_pixels = &shape[..idat + 4];
    let plist = brushset_plist(
        "Sizes",
        &["missing", "valid", "pixels", "header", "large", "archive"],
    );
    let bytes = zip_with(&[
        ("brushset.plist", &plist),
        ("valid/Brush.archive", &archive),
        ("valid/Shape.png", &shape),
        ("missing/Brush.archive", &archive),
        ("pixels/Brush.archive", &archive),
        ("pixels/Shape.png", corrupt_pixels),
        ("header/Brush.archive", &archive),
        ("header/Shape.png", b"bad header"),
        ("large/Brush.archive", &archive),
        ("large/Shape.png", &dimension_bomb_png(60000, 30000)),
        ("archive/Brush.archive", b"bad archive"),
        ("archive/Shape.png", &shape),
    ]);
    for max_cell in [1, 8, 128] {
        let set = preview_brushset(&bytes, PreviewOptions { max_cell }).unwrap();
        assert_eq!(
            set.entries
                .iter()
                .map(|entry| entry.index)
                .collect::<Vec<_>>(),
            vec![0, 1, 2, 3, 4, 5]
        );
        assert_eq!(
            set.entries
                .iter()
                .map(|entry| entry.source_dimensions)
                .collect::<Vec<_>>(),
            vec![
                None,
                SourceDimensions::new(64, 16),
                SourceDimensions::new(64, 16),
                None,
                SourceDimensions::new(60000, 30000),
                SourceDimensions::new(64, 16)
            ]
        );
        assert!(matches!(
            set.entries[0].tip,
            TipPreview::Unavailable(UnavailableReason::NoShapePng)
        ));
        assert!(matches!(set.entries[1].tip, TipPreview::Available(_)));
        assert!(matches!(
            set.entries[2].tip,
            TipPreview::Unavailable(UnavailableReason::Corrupt(_))
        ));
        assert!(matches!(
            set.entries[4].tip,
            TipPreview::Unavailable(UnavailableReason::TooLarge {
                width: 60000,
                height: 30000
            })
        ));
        assert!(matches!(
            set.entries[5].tip,
            TipPreview::Unavailable(UnavailableReason::Corrupt(_))
        ));
    }
}

#[test]
fn one_member_listed_100_000_times_stays_within_the_budget() {
    let mut shape = Cursor::new(Vec::new());
    DynamicImage::from(GrayImage::from_pixel(SIDE, SIDE, Luma([200])))
        .write_to(&mut shape, ImageFormat::Png)
        .expect("encode fixture");
    let archive = brush_archive("Tip");
    let plist = brushset_plist("Set", &vec!["a"; REFERENCES]);
    let bytes = zip_with(&[
        ("brushset.plist", &plist),
        ("a/Brush.archive", &archive),
        ("a/Shape.png", shape.get_ref()),
    ]);

    let entries = preview_brushset(&bytes, PreviewOptions { max_cell: SIDE })
        .unwrap()
        .entries;

    assert_eq!(entries.len(), REFERENCES);
    let fit = MAX_PREVIEW_BYTES / (SIDE * SIDE) as usize;
    let mut held = 0;
    for (i, entry) in entries.iter().enumerate() {
        assert_eq!(entry.index, i);
        match &entry.tip {
            TipPreview::Available(bitmap) if i < fit => held += bitmap.data.len(),
            TipPreview::Unavailable(UnavailableReason::OverBudget) if i >= fit => {}
            tip => panic!("entry {i}: {tip:?}"),
        }
    }
    assert!(held <= MAX_PREVIEW_BYTES);
}

#[test]
fn huge_declared_entry_is_rejected_before_inflate() {
    let mut zw = zip::write::ZipWriter::new(Cursor::new(Vec::new()));
    let opts = zip::write::SimpleFileOptions::default()
        .compression_method(zip::CompressionMethod::Deflated);
    zw.start_file("brushset.plist", opts).expect("start_file");
    io::copy(&mut io::repeat(0u8).take(OVER), &mut zw).expect("stream zeros");
    let zip_bytes = zw.finish().expect("finish zip").into_inner();

    assert!(
        zip_bytes.len() < 8 * 1024 * 1024,
        "zip should stay tiny, got {} bytes",
        zip_bytes.len()
    );

    let err = preview_brushset(&zip_bytes, PreviewOptions { max_cell: 8 })
        .expect_err("oversize entry must be rejected");
    assert!(
        err.0.contains("exceeds"),
        "error must mention the exceeded limit: {err:?}"
    );
}

#[test]
fn png_dimension_bomb_is_rejected_not_allocated() {
    // u32::MAX overflows the output buffer size on 64-bit targets as well.
    for (width, height) in [
        (60000, 60000),
        (u32::MAX, u32::MAX),
        (MAX_PNG_DIMENSION + 1, 1),
        (1, MAX_PNG_DIMENSION + 1),
    ] {
        let zip_bytes = zip_with(&[
            ("Brush.archive", &brush_archive("bomb")),
            ("Shape.png", &dimension_bomb_png(width, height)),
        ]);

        let set = preview_brush(&zip_bytes, PreviewOptions { max_cell: 8 }).expect("brush reads");
        let TipPreview::Unavailable(reason) = only_tip(&set) else {
            panic!("expected Unavailable, got {:?}", only_tip(&set));
        };
        assert_eq!(
            *reason,
            UnavailableReason::TooLarge { width, height },
            "the declared dimensions must be reported, not allocated"
        );
    }
}

#[test]
fn jpeg_dimension_bomb_is_rejected_not_allocated() {
    // Shape.png is sniffed by content, so a JPEG under that name decodes too.
    for (width, height) in [
        (65535, 65535),
        (MAX_PNG_DIMENSION + 1, 1),
        (1, MAX_PNG_DIMENSION + 1),
    ] {
        let zip_bytes = zip_with(&[
            ("Brush.archive", &brush_archive("bomb")),
            ("Shape.png", &baseline_jpeg(width, height, 1)),
        ]);

        let set = preview_brush(&zip_bytes, PreviewOptions { max_cell: 8 }).expect("brush reads");
        let TipPreview::Unavailable(reason) = only_tip(&set) else {
            panic!("expected Unavailable, got {:?}", only_tip(&set));
        };
        assert_eq!(
            *reason,
            UnavailableReason::TooLarge { width, height },
            "the declared dimensions must be reported, not allocated"
        );
    }
}

#[test]
fn image_within_the_dimension_limit_over_the_memory_budget_is_too_large() {
    // 9000x9000 RGBA8 decodes to about 324 MB and 12000x12000 RGB to 432 MB,
    // over the 256 MiB budget with each side under MAX_PNG_DIMENSION. RGBA16
    // at the limit is 2 GiB, past isize::MAX on 32-bit targets.
    for (shape, width, height) in [
        (rgba_dimension_bomb_png(9000, 9000, 8), 9000, 9000),
        (
            rgba_dimension_bomb_png(MAX_PNG_DIMENSION, MAX_PNG_DIMENSION, 16),
            MAX_PNG_DIMENSION,
            MAX_PNG_DIMENSION,
        ),
        (baseline_jpeg(12000, 12000, 3), 12000, 12000),
    ] {
        let zip_bytes = zip_with(&[
            ("Brush.archive", &brush_archive("budget")),
            ("Shape.png", &shape),
        ]);

        let set = preview_brush(&zip_bytes, PreviewOptions { max_cell: 8 }).expect("brush reads");
        let TipPreview::Unavailable(reason) = only_tip(&set) else {
            panic!("expected Unavailable, got {:?}", only_tip(&set));
        };
        assert_eq!(
            *reason,
            UnavailableReason::TooLarge { width, height },
            "an image over the memory budget is too large, not corrupt"
        );
    }
}

#[test]
fn png_at_the_dimension_limit_decodes() {
    for (width, height) in [(MAX_PNG_DIMENSION, 1), (1, MAX_PNG_DIMENSION)] {
        let zip_bytes = zip_with(&[
            ("Brush.archive", &brush_archive("edge")),
            ("Shape.png", &gray_png(width, height, 255)),
        ]);

        let set = preview_brush(&zip_bytes, PreviewOptions { max_cell: 8 }).expect("brush reads");
        assert!(
            matches!(only_tip(&set), TipPreview::Available(_)),
            "a {width}x{height} tip is within the limit, got {:?}",
            only_tip(&set)
        );
    }
}

#[test]
fn depth_bomb_brushset_plist_is_rejected_not_recursed() {
    let zip_bytes = zip_with(&[("brushset.plist", &depth_bomb_plist_xml(STACK_BUSTING_DEPTH))]);

    let err = preview_brushset(&zip_bytes, PreviewOptions { max_cell: 8 })
        .expect_err("depth bomb must be rejected");
    assert!(err.0.contains("depth"), "error must mention depth: {err:?}");
}

#[test]
fn depth_bomb_brush_archive_is_rejected_not_recursed() {
    let zip_bytes = zip_with(&[
        ("Brush.archive", &depth_bomb_plist_xml(STACK_BUSTING_DEPTH)),
        ("Shape.png", &real_4x4_png()),
    ]);

    let set = preview_brush(&zip_bytes, PreviewOptions { max_cell: 8 }).expect("brush reads");
    let TipPreview::Unavailable(UnavailableReason::Corrupt(msg)) = only_tip(&set) else {
        panic!("expected Corrupt, got {:?}", only_tip(&set));
    };
    assert!(msg.contains("depth"), "error must mention depth: {msg}");
}
