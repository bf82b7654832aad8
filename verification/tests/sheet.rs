//! Contact sheets.
use brushkit::preview::label::fit_label;
use brushkit::preview::sheet::{ink_bounds, sheet_can_be_drawn, size_label, LABEL_COLOR};
use brushkit::preview::{
    ContactSheetConfig, GlyphPixel, GrayscaleBitmap, LabelMetrics, SheetBackground, SheetBrush,
};

const METRICS: LabelMetrics = LabelMetrics { line_height: 14, gap: 2, margin_top: 5 };

/// A font whose characters are six pixels wide and seven tall.
fn measure(text: String) -> u32 {
    6 * text.chars().count() as u32
}

fn extents(text: String) -> Vec<u32> {
    (1..=text.chars().count() as u32).map(|n| 6 * n).collect()
}

fn draw(text: String, x: i64, y: i64) -> Vec<GlyphPixel> {
    let mut pixels = Vec::new();
    for i in 0..text.chars().count() as i64 {
        for dy in 0..7 {
            for dx in 0..5 {
                pixels.push(GlyphPixel { x: x + 6 * i + dx, y: y + dy, coverage: 255 });
            }
        }
    }
    pixels
}

fn generate_contact_sheet_png(
    brushes: &[SheetBrush],
    config: &ContactSheetConfig,
) -> Result<Vec<u8>, String> {
    brushkit::preview::generate_contact_sheet_png(
        brushes, config, &METRICS, &measure, &extents, &draw,
    )
}

#[test]
fn checker_background_fill_is_stable() {
    let bitmap = GrayscaleBitmap {
        width: 4,
        height: 4,
        data: vec![0u8; 16],
    };
    let brushes = [SheetBrush {
        name: "x",
        bitmap: &bitmap,
    }];
    let config = ContactSheetConfig {
        cell_size: 40,
        columns: Some(1),
        padding: 4,
        show_names: false,
        show_sizes: false,
        gap: 0,
        background: SheetBackground::Checker,
    };

    let png = generate_contact_sheet_png(&brushes, &config).expect("sheet generated");
    let decoded = image::load_from_memory(&png).expect("decode sheet");
    let luma_a = decoded.to_luma_alpha8();
    let (w, h) = luma_a.dimensions();

    let sq: u32 = 16;
    for y in 0..h.min(sq) {
        for x in 0..w {
            let is_dim = ((x / sq) + (y / sq)) % 2 == 1;
            let v = if is_dim { 232 } else { 255 };
            assert_eq!(
                luma_a.get_pixel(x, y).0,
                [v, 255],
                "checker pixel at ({x},{y}) drifted"
            );
        }
    }
}

fn bitmap(width: u32, height: u32, fill: &[(u32, u32, u8)]) -> GrayscaleBitmap {
    let mut data = vec![0u8; (width * height) as usize];
    for &(x, y, v) in fill {
        data[(y * width + x) as usize] = v;
    }
    GrayscaleBitmap {
        width,
        height,
        data,
    }
}

/// A `w` by `h` block of full ink at the top-left of a `cw` by `ch` canvas.
fn block(cw: u32, ch: u32, w: u32, h: u32) -> GrayscaleBitmap {
    let mut data = vec![0u8; (cw * ch) as usize];
    for y in 0..h {
        for x in 0..w {
            data[(y * cw + x) as usize] = 255;
        }
    }
    GrayscaleBitmap {
        width: cw,
        height: ch,
        data,
    }
}

/// Center `bitmap` on a square canvas of black. A test-local input
/// builder: `ink_bounds` must report the content, not the canvas.
fn pad_to_square(bitmap: &mut GrayscaleBitmap) {
    let width = bitmap.width as usize;
    let height = bitmap.height as usize;
    if width == height || width == 0 || height == 0 || bitmap.data.len() != width * height {
        return;
    }
    let n = width.max(height);
    let left = (n - width) / 2;
    let top = (n - height) / 2;

    let mut out = vec![0u8; n * n];
    for y in 0..height {
        let src = &bitmap.data[y * width..(y + 1) * width];
        let dst_start = (top + y) * n + left;
        out[dst_start..dst_start + width].copy_from_slice(src);
    }

    bitmap.width = n as u32;
    bitmap.height = n as u32;
    bitmap.data = out;
}

#[test]
fn ink_bounds_measures_content_not_canvas() {
    // Landscape content centered on a padded square canvas.
    let mut landscape = block(103, 80, 103, 80);
    pad_to_square(&mut landscape);
    assert_eq!((landscape.width, landscape.height), (103, 103));
    assert_eq!(ink_bounds(&landscape), Some((103, 80)));

    // Portrait content on the same square canvas.
    let mut portrait = block(80, 103, 80, 103);
    pad_to_square(&mut portrait);
    assert_eq!(ink_bounds(&portrait), Some((80, 103)));

    // Content that really fills a square canvas stays square.
    assert_eq!(ink_bounds(&block(64, 64, 64, 64)), Some((64, 64)));
}

#[test]
fn ink_bounds_counts_faint_and_detached_pixels() {
    // A single value-1 pixel in the corner is content.
    assert_eq!(ink_bounds(&bitmap(10, 10, &[(9, 9, 1)])), Some((1, 1)));

    // Two detached specks: the bounds span both.
    assert_eq!(
        ink_bounds(&bitmap(10, 10, &[(1, 2, 1), (7, 5, 255)])),
        Some((7, 4))
    );
}

#[test]
fn ink_bounds_rejects_empty_and_malformed_bitmaps() {
    assert_eq!(ink_bounds(&bitmap(8, 8, &[])), None, "all-zero tip");
    assert_eq!(
        ink_bounds(&GrayscaleBitmap {
            width: 0,
            height: 4,
            data: Vec::new(),
        }),
        None,
        "zero-sized tip"
    );
    assert_eq!(
        ink_bounds(&GrayscaleBitmap {
            width: 4,
            height: 4,
            data: vec![255; 7],
        }),
        None,
        "data length disagrees with dimensions"
    );
}

/// Renders one brush in a 100px cell and counts label text row bands.
fn label_band_count(bitmap: &GrayscaleBitmap, show_sizes: bool) -> usize {
    let brushes = [SheetBrush { name: "x", bitmap }];
    let config = ContactSheetConfig {
        cell_size: 100,
        columns: Some(1),
        padding: 8,
        show_names: false,
        show_sizes,
        gap: 8,
        background: SheetBackground::White,
    };
    let png = generate_contact_sheet_png(&brushes, &config).expect("sheet generated");
    let luma_a = image::load_from_memory(&png)
        .expect("decode sheet")
        .to_luma_alpha8();
    let (w, h) = luma_a.dimensions();
    let mut bands = 0;
    let mut in_band = false;
    for y in 0..h {
        let has_label = (0..w).any(|x| {
            let v = luma_a.get_pixel(x, y).0[0];
            (LABEL_COLOR..255).contains(&v)
        });
        if has_label && !in_band {
            bands += 1;
        }
        in_band = has_label;
    }
    bands
}

#[test]
fn show_sizes_false_draws_no_label_line() {
    let tip = block(32, 32, 20, 12);
    assert_eq!(label_band_count(&tip, false), 0, "no label when sizes off");
    assert_eq!(label_band_count(&tip, true), 1, "one size line when on");
}

#[test]
fn text_feature_forwards_to_preview() {
    let _config: ContactSheetConfig = Default::default();
}

#[test]
fn default_config_is_the_documented_one() {
    let config = ContactSheetConfig::default();
    assert_eq!((config.cell_size, config.columns, config.padding), (120, None, 8));
    assert!(!config.show_names && config.show_sizes);
    assert_eq!((config.gap, config.background), (8, SheetBackground::White));
}

#[test]
fn a_sheet_without_tips_is_one_transparent_pixel() {
    let png = generate_contact_sheet_png(&[], &ContactSheetConfig::default()).unwrap();
    let sheet = image::load_from_memory(&png).unwrap().to_luma_alpha8();
    assert_eq!(sheet.dimensions(), (1, 1));
    assert_eq!(sheet.get_pixel(0, 0).0, [255, 0]);
}

#[test]
fn a_sheet_has_ten_columns_and_margins() {
    let tip = block(4, 4, 4, 4);
    let brushes: Vec<SheetBrush> =
        (0..11).map(|_| SheetBrush { name: "x", bitmap: &tip }).collect();
    let config = ContactSheetConfig {
        cell_size: 20,
        padding: 2,
        show_sizes: false,
        ..ContactSheetConfig::default()
    };
    let png = generate_contact_sheet_png(&brushes, &config).unwrap();
    let sheet = image::load_from_memory(&png).unwrap().to_luma_alpha8();
    assert_eq!(sheet.dimensions(), (2 * 8 + 10 * 20 + 9 * 8, 2 * 8 + 2 * 20 + 8));
    // A tip that fits keeps its size and stands in the middle of its cell.
    assert_eq!(sheet.get_pixel(8 + 8, 8 + 8).0, [0, 255]);
    assert_eq!(sheet.get_pixel(8 + 11, 8 + 11).0, [0, 255]);
    assert_eq!(sheet.get_pixel(8 + 12, 8 + 8).0, [255, 255]);
    assert_eq!(sheet.get_pixel(8 + 7, 8 + 8).0, [255, 255]);
    // The last tip is alone in its row.
    assert_eq!(sheet.get_pixel(8 + 8, 8 + 28 + 8).0, [0, 255]);
    assert_eq!(sheet.get_pixel(8 + 28 + 8, 8 + 28 + 8).0, [255, 255]);
}

#[test]
fn ink_is_blended_over_the_background() {
    let mut tip = block(1, 1, 1, 1);
    tip.data[0] = 128;
    let brushes = [SheetBrush { name: "x", bitmap: &tip }];
    let config = |background| ContactSheetConfig {
        cell_size: 1,
        columns: Some(1),
        padding: 0,
        show_names: false,
        show_sizes: false,
        gap: 0,
        background,
    };
    let pixel = |background| {
        let png = generate_contact_sheet_png(&brushes, &config(background)).unwrap();
        image::load_from_memory(&png).unwrap().to_luma_alpha8().get_pixel(8, 8).0
    };
    assert_eq!(pixel(SheetBackground::White), [127, 255]);
    assert_eq!(pixel(SheetBackground::Transparent), [0, 128]);
}

#[test]
fn sizes_are_those_of_the_ink() {
    assert_eq!(size_label(&block(32, 32, 20, 12)), "20\u{d7}12");
    assert_eq!(size_label(&bitmap(8, 8, &[])), "Empty");
}

#[test]
fn labels_are_cut_to_their_room() {
    let fit = |text: &str, room: u32| fit_label(text, room, &measure, &extents);
    assert_eq!(fit("Pencil", 36), "Pencil");
    assert_eq!(fit("Pencil", 35), "Penc\u{2026}");
    assert_eq!(fit("Soft _Round", 41), "Soft\u{2026}");
    assert_eq!(fit("Pencil", 6), "\u{2026}");
    assert_eq!(fit("Pencil", 5), "");
}

#[test]
fn sheets_that_cannot_be_drawn() {
    let tip = block(4, 4, 4, 4);
    let short = GrayscaleBitmap { width: 4, height: 4, data: vec![255; 15] };
    let drawn = |bitmap: &GrayscaleBitmap, config: &ContactSheetConfig| {
        sheet_can_be_drawn(&[SheetBrush { name: "x", bitmap }], config, &METRICS)
    };
    let config = ContactSheetConfig::default();
    assert!(drawn(&tip, &config));
    assert!(!drawn(&short, &config));
    // Without room for a tip its pixels are not read.
    assert!(drawn(&short, &ContactSheetConfig { padding: 60, ..config }));
    assert!(!drawn(&tip, &ContactSheetConfig { columns: Some(0), ..config }));
    assert!(!drawn(&tip, &ContactSheetConfig { padding: u32::MAX, ..config }));
    assert!(!drawn(&tip, &ContactSheetConfig { cell_size: u32::MAX, ..config }));
}
