//! Tips of imported images.
use brushkit::abr::TipBitmap;
use brushkit::preview::codec::{HideMetadata, JpegColor, JpegInfo, PixelFormat};
use brushkit::preview::decode::{
    check_dimensions, decode_guarded, plan_jpeg, plan_other, settle_other, tip_plane, DecodedImage,
    GuardedDecodeError, OtherInfo, TipSample, MAX_IMPORT_DECODED_BYTES, MAX_IMPORT_DIMENSION,
    MAX_PNG_EXIF_BYTES,
};
use brushkit::preview::procreate::decode_tip_png;
use brushkit::preview::{
    decode_tip_image, downsample, generate_preview_png, tip_bitmap_of, to_grayscale,
    GrayscaleBitmap, TipImageError,
};
use image::{ImageBuffer, ImageFormat, Rgb, Rgba, RgbaImage};
use png::{BitDepth, ColorType};
use std::io::Cursor;
use std::time::{Duration, Instant};
use zune_core::bytestream::ZCursor;
use zune_core::colorspace::ColorSpace;
use zune_core::options::DecoderOptions;

const EXTENDED_XMP: &[u8] = b"http://ns.adobe.com/xmp/extension/\0";

const PARTS: usize = 20_000;

const GUID: [u8; 32] = [b'A'; 32];

const TOTAL_SIZE: u32 = 1_000;

const OFFSET: u32 = 0;

const TOLERANCE: u8 = 8;

/// The bytes of an image in memory with big-endian samples.
fn big_endian(format: PixelFormat, bytes: &[u8]) -> Vec<u8> {
    let sample = match format {
        PixelFormat::L8 | PixelFormat::La8 | PixelFormat::Rgb8 | PixelFormat::Rgba8 => 1,
        PixelFormat::L16 | PixelFormat::La16 | PixelFormat::Rgb16 | PixelFormat::Rgba16 => 2,
        PixelFormat::Rgb32F | PixelFormat::Rgba32F => 4,
    };
    let mut out = bytes.to_vec();
    if 1u16.to_ne_bytes() == 1u16.to_le_bytes() {
        for chunk in out.chunks_mut(sample) {
            chunk.reverse();
        }
    }
    out
}

/// The color type that `image` has for a format.
fn color_type(format: PixelFormat) -> image::ColorType {
    match format {
        PixelFormat::L8 => image::ColorType::L8,
        PixelFormat::La8 => image::ColorType::La8,
        PixelFormat::Rgb8 => image::ColorType::Rgb8,
        PixelFormat::Rgba8 => image::ColorType::Rgba8,
        PixelFormat::L16 => image::ColorType::L16,
        PixelFormat::La16 => image::ColorType::La16,
        PixelFormat::Rgb16 => image::ColorType::Rgb16,
        PixelFormat::Rgba16 => image::ColorType::Rgba16,
        PixelFormat::Rgb32F => image::ColorType::Rgb32F,
        PixelFormat::Rgba32F => image::ColorType::Rgba32F,
    }
}

fn crc32(data: &[u8]) -> u32 {
    let mut crc: u32 = 0xFFFF_FFFF;
    for &b in data {
        crc ^= b as u32;
        for _ in 0..8 {
            let mask = (crc & 1).wrapping_neg();
            crc = (crc >> 1) ^ (0xEDB8_8320 & mask);
        }
    }
    !crc
}

fn adler32(data: &[u8]) -> u32 {
    let (mut a, mut b) = (1u32, 0u32);
    for &byte in data {
        a = (a + byte as u32) % 65521;
        b = (b + a) % 65521;
    }
    (b << 16) | a
}

/// An 8-bit grayscale PNG written by hand, with one stored DEFLATE block. The
/// fuzz seeds embed these bytes, so they must not change when the png encoder
/// does.
fn gray_png(width: u32, height: u32, fill: u8) -> Vec<u8> {
    let mut scanlines = Vec::new();
    for _ in 0..height {
        scanlines.push(0);
        scanlines.extend(std::iter::repeat_n(fill, width as usize));
    }
    let len = u16::try_from(scanlines.len()).expect("scanlines fit one stored block");
    let mut zlib = vec![0x78, 0x01, 1];
    zlib.extend_from_slice(&len.to_le_bytes());
    zlib.extend_from_slice(&(!len).to_le_bytes());
    zlib.extend_from_slice(&scanlines);
    zlib.extend_from_slice(&adler32(&scanlines).to_be_bytes());

    let mut ihdr = Vec::new();
    ihdr.extend_from_slice(&width.to_be_bytes());
    ihdr.extend_from_slice(&height.to_be_bytes());
    ihdr.extend_from_slice(&[8, 0, 0, 0, 0]);

    let mut png = b"\x89PNG\r\n\x1a\n".to_vec();
    for (kind, data) in [(b"IHDR", ihdr), (b"IDAT", zlib), (b"IEND", Vec::new())] {
        png.extend_from_slice(&(data.len() as u32).to_be_bytes());
        let start = png.len();
        png.extend_from_slice(kind);
        png.extend_from_slice(&data);
        let crc = crc32(&png[start..]);
        png.extend_from_slice(&crc.to_be_bytes());
    }
    png
}

fn real_4x4_png() -> Vec<u8> {
    gray_png(4, 4, 128)
}

fn dimension_bomb_png(w: u32, h: u32) -> Vec<u8> {
    let mut png = real_4x4_png();
    // IHDR is the first chunk: 8-byte signature, 4-byte length, 4-byte type,
    // then width and height as the first 8 bytes of its 13-byte payload.
    assert_eq!(
        &png[12..16],
        b"IHDR",
        "gray_png must write IHDR first for these offsets to be right"
    );
    png[16..20].copy_from_slice(&w.to_be_bytes());
    png[20..24].copy_from_slice(&h.to_be_bytes());
    let crc = crc32(&png[12..29]); // chunk type + the 13 IHDR data bytes
    png[29..33].copy_from_slice(&crc.to_be_bytes());
    png
}

/// A [`dimension_bomb_png`] whose header declares RGBA with samples of `depth` bits.
fn rgba_dimension_bomb_png(w: u32, h: u32, depth: u8) -> Vec<u8> {
    let mut png = dimension_bomb_png(w, h);
    png[24] = depth;
    png[25] = 6; // IHDR color type
    let crc = crc32(&png[12..29]);
    png[29..33].copy_from_slice(&crc.to_be_bytes());
    png
}

/// A JPEG file written by hand: `sof` is the marker of its frame header, each component has
/// a byte of `sampling`, and the first scan holds the first `scanned` components. There is
/// one byte of scan data: every block that it holds is zero.
fn hand_written_jpeg(sof: u8, width: u32, height: u32, sampling: &[u8], scanned: u8) -> Vec<u8> {
    let width = u16::try_from(width).expect("JPEG width is 16-bit");
    let height = u16::try_from(height).expect("JPEG height is 16-bit");
    let components = sampling.len() as u8;
    let mut jpeg = vec![0xFF, 0xD8];
    jpeg.extend_from_slice(&[0xFF, 0xDB, 0x00, 0x43, 0x00]);
    jpeg.extend_from_slice(&[1; 64]);
    jpeg.extend_from_slice(&[0xFF, sof, 0x00, 8 + 3 * components, 8]);
    jpeg.extend_from_slice(&height.to_be_bytes());
    jpeg.extend_from_slice(&width.to_be_bytes());
    jpeg.push(components);
    for id in 1..=components {
        jpeg.extend_from_slice(&[id, sampling[id as usize - 1], 0]);
    }
    for class in [0x00, 0x10] {
        jpeg.extend_from_slice(&[0xFF, 0xC4, 0x00, 0x14, class, 1]);
        jpeg.extend_from_slice(&[0; 15]);
        jpeg.push(0);
    }
    jpeg.extend_from_slice(&[0xFF, 0xDA, 0x00, 6 + 2 * scanned, scanned]);
    for id in 1..=scanned {
        jpeg.extend_from_slice(&[id, 0x00]);
    }
    // A progressive file starts with the first coefficient of each block.
    let last = if sof == 0xC2 { 0 } else { 0x3F };
    jpeg.extend_from_slice(&[0, last, 0]);
    // Two zero bits per block, padded with one bits to the byte.
    jpeg.extend_from_slice(&[0xFF >> (2 * scanned), 0xFF, 0xD9]);
    jpeg
}

fn baseline_jpeg(width: u32, height: u32, components: u8) -> Vec<u8> {
    hand_written_jpeg(0xC0, width, height, &vec![0x11; components as usize], components)
}

fn progressive_jpeg(width: u32, height: u32, sampling: &[u8]) -> Vec<u8> {
    hand_written_jpeg(0xC2, width, height, sampling, sampling.len() as u8)
}

/// The size at which a hand-written JPEG of three components is decoded as an import. The
/// decode itself is long at these sizes, and is left out.
fn planned_size(jpeg: &[u8]) -> Result<(u32, u32), GuardedDecodeError> {
    let mut decoder = zune_jpeg::JpegDecoder::new(ZCursor::new(jpeg));
    decoder.decode_headers().expect("the headers are read");
    let headers = decoder.info().expect("the headers are read");
    let info = JpegInfo {
        width: headers.width,
        height: headers.height,
        components: headers.components,
        progressive: headers.sof.is_progressive(),
        color: JpegColor::Other,
        scan_end: jpeg.len() - 3,
    };
    let plan = plan_jpeg(jpeg, &info, MAX_IMPORT_DIMENSION, MAX_IMPORT_DECODED_BYTES)?;
    Ok((plan.width, plan.height))
}

#[test]
fn to_grayscale_16bit_takes_high_byte() {
    let tip = TipBitmap {
        width: 2,
        height: 1,
        depth: 16,
        data: vec![0xAB, 0x12, 0xCD, 0x34],
    };
    let result = to_grayscale(&tip);
    assert_eq!(result.width, 2);
    assert_eq!(result.height, 1);
    assert_eq!(result.data.len(), 2);
    assert_eq!(result.data, vec![0xAB, 0xCD], "must keep the high byte");
}

#[test]
fn downsample_averages_covered_pixels() {
    let bitmap = GrayscaleBitmap {
        width: 4,
        height: 2,
        data: vec![0, 255, 0, 255, 0, 255, 0, 255],
    };
    let small = downsample(&bitmap, 2);
    assert_eq!((small.width, small.height), (2, 1));
    assert_eq!(small.data, vec![127, 127]);
}

#[test]
fn downsample_keeps_a_fitting_bitmap() {
    let bitmap = GrayscaleBitmap {
        width: 3,
        height: 2,
        data: vec![1, 2, 3, 4, 5, 6],
    };
    let same = downsample(&bitmap, 8);
    assert_eq!((same.width, same.height), (3, 2));
    assert_eq!(same.data, bitmap.data);
}

#[test]
fn preview_png_is_200_wide_with_alpha_from_gray() {
    let bitmap = GrayscaleBitmap {
        width: 400,
        height: 100,
        data: vec![200u8; 400 * 100],
    };
    let png = generate_preview_png(&bitmap).unwrap();
    let img = image::load_from_memory(&png).unwrap().to_rgba8();
    assert_eq!((img.width(), img.height()), (200, 50));
    assert!(img.pixels().all(|p| p.0 == [0, 0, 0, 200]));
}

fn rgba_png(width: u32, height: u32, pixels: &[[u8; 4]]) -> Vec<u8> {
    let img: RgbaImage =
        ImageBuffer::from_fn(width, height, |x, y| Rgba(pixels[(y * width + x) as usize]));
    let mut buf = Cursor::new(Vec::new());
    img.write_to(&mut buf, image::ImageFormat::Png).unwrap();
    buf.into_inner()
}

fn luma_png(width: u32, height: u32, luma: &[u8]) -> Vec<u8> {
    let mut buf = Vec::new();
    {
        let mut encoder = png::Encoder::new(&mut buf, width, height);
        encoder.set_color(png::ColorType::Grayscale);
        encoder.set_depth(png::BitDepth::Eight);
        let mut writer = encoder.write_header().unwrap();
        writer.write_image_data(luma).unwrap();
    }
    buf
}

#[test]
fn alpha_channel_becomes_intensity() {
    let png = rgba_png(3, 1, &[[255, 0, 0, 255], [255, 0, 0, 128], [255, 0, 0, 0]]);
    let bitmap = decode_tip_image(&png).unwrap();
    assert_eq!((bitmap.width, bitmap.height), (3, 1));
    assert_eq!(bitmap.data, vec![255, 128, 0]);
}

#[test]
fn opaque_image_inverts_luminance() {
    let png = luma_png(3, 1, &[0, 40, 255]);
    let bitmap = decode_tip_image(&png).unwrap();
    assert_eq!((bitmap.width, bitmap.height), (3, 1));
    assert_eq!(bitmap.data, vec![255, 215, 0]);
}

#[test]
fn oversized_image_is_rejected_with_the_ceiling_message() {
    let over = MAX_IMPORT_DIMENSION + 1;
    let png = luma_png(over, 1, &vec![0u8; over as usize]);
    let err = decode_tip_image(&png).expect_err("over-ceiling image must be rejected");
    assert!(
        matches!(err, TipImageError::TooLarge { width, height } if width == over && height == 1),
        "expected TooLarge, got {err:?}"
    );
    assert!(
        err.message().starts_with("image is "),
        "unexpected message: {err:?}"
    );
}

/// Every decodable pixel format, filled with varied samples, over several
/// conversion chunks.
fn every_format() -> [(PixelFormat, image::DynamicImage); 10] {
    let base = image::DynamicImage::ImageRgba16(ImageBuffer::from_fn(100, 100, |x, y| {
        let i = (y * 100 + x) * 4;
        Rgba([0, 1, 2, 3].map(|c| ((i + c).wrapping_mul(0x9E37_79B9) >> 16) as u16))
    }));
    [
        (PixelFormat::L8, base.to_luma8().into()),
        (PixelFormat::La8, base.to_luma_alpha8().into()),
        (PixelFormat::Rgb8, base.to_rgb8().into()),
        (PixelFormat::Rgba8, base.to_rgba8().into()),
        (PixelFormat::L16, base.to_luma16().into()),
        (PixelFormat::La16, base.to_luma_alpha16().into()),
        (PixelFormat::Rgb16, base.to_rgb16().into()),
        (PixelFormat::Rgb32F, base.to_rgb32f().into()),
        (PixelFormat::Rgba32F, base.to_rgba32f().into()),
        (PixelFormat::Rgba16, base),
    ]
}

#[test]
fn tips_match_image_conversions_for_every_format() {
    for (format, image) in every_format() {
        let name = format!("{:?}", image.color());
        let coverage = if image.color().has_alpha() {
            image.to_luma_alpha8().pixels().map(|p| p.0[1]).collect()
        } else {
            let luma = image.to_luma8().into_raw();
            luma.into_iter().map(|v| 255 - v).collect::<Vec<_>>()
        };
        let luma = image.to_luma8().into_raw();
        let decoded = |image: &image::DynamicImage| DecodedImage {
            width: image.width(),
            height: image.height(),
            format,
            bytes: big_endian(format, image.as_bytes()),
        };
        assert_eq!(
            tip_plane(decoded(&image), TipSample::Coverage),
            coverage,
            "coverage {name}"
        );
        assert_eq!(
            tip_plane(decoded(&image), TipSample::Luma),
            luma,
            "luma {name}"
        );
        if !matches!(format, PixelFormat::Rgb32F | PixelFormat::Rgba32F) {
            let mut png = Cursor::new(Vec::new());
            image.write_to(&mut png, image::ImageFormat::Png).unwrap();
            let png = png.into_inner();
            assert_eq!(
                decode_tip_image(&png).unwrap().data,
                coverage,
                "decode_tip_image {name}"
            );
            assert_eq!(
                decode_tip_png(&png).unwrap().data,
                luma,
                "decode_tip_png {name}"
            );
        }
    }
}

/// `decode_guarded` decodes JPEG with zune-jpeg directly, so it must
/// return the pixels and errors `image` returns for the same bytes.
#[test]
fn jpeg_decodes_as_image_does() {
    let base = image::DynamicImage::ImageRgb8(ImageBuffer::from_fn(37, 23, |x, y| {
        let i = y * 37 + x;
        Rgb([0, 1, 2].map(|c| ((i * 3 + c).wrapping_mul(0x9E37_79B9) >> 24) as u8))
    }));
    let mut gray = Cursor::new(Vec::new());
    base.to_luma8()
        .write_to(&mut gray, image::ImageFormat::Jpeg)
        .unwrap();
    for image in [base.to_luma8().into(), base] {
        let mut jpeg = Cursor::new(Vec::new());
        image.write_to(&mut jpeg, image::ImageFormat::Jpeg).unwrap();
        let jpeg = jpeg.into_inner();
        let expected = image::load_from_memory(&jpeg).unwrap();
        let Ok(decoded) = decode_guarded(&jpeg, 64, u64::MAX) else {
            panic!("{:?} JPEG must decode", image.color());
        };
        assert_eq!((decoded.width, decoded.height), (37, 23));
        assert_eq!(decoded.bytes, expected.as_bytes(), "{:?}", image.color());
    }

    let truncated = [0xFF, 0xD8, 0xFF, 0xDB, 0x00, 0x43, 0x00];
    let expected = image::load_from_memory(&truncated).unwrap_err();
    let Err(GuardedDecodeError::Decode(err)) = decode_guarded(&truncated, 64, u64::MAX) else {
        panic!("a truncated JPEG must not decode");
    };
    assert_eq!(err, expected.to_string());

    // zune-jpeg rejects a kept segment that runs past the end of the input
    // and an extended XMP part with a 39-byte header, as `image` does.
    let mut cases = Vec::new();
    for (name, marker, body) in kept_segments() {
        cases.push((name.to_string(), segment(marker, &body, None), true));
        let past_end = segment(marker, &body, Some(u16::MAX));
        cases.push((format!("{name} past the end"), past_end, false));
    }
    let mut short_part = b"http://ns.adobe.com/xmp/extension/\0".to_vec();
    short_part.resize(short_part.len() + 39, 0);
    let short_part = segment(0xE1, &short_part, None);
    cases.push(("extended XMP with a short header".into(), short_part, false));
    for (name, segment, decodes) in cases {
        let mut jpeg = gray.get_ref().clone();
        jpeg.splice(2..2, segment);
        match (
            image::load_from_memory(&jpeg),
            decode_guarded(&jpeg, 64, u64::MAX),
        ) {
            (Ok(expected), Ok(decoded)) if decodes => {
                assert_eq!(decoded.bytes, expected.as_bytes(), "{name}");
            }
            (Err(expected), Err(GuardedDecodeError::Decode(err))) if !decodes => {
                assert_eq!(err, expected.to_string(), "{name}");
            }
            (expected, decoded) => panic!(
                "{name}: image {:?}, decode_guarded {:?}",
                expected.is_ok(),
                decoded.is_ok()
            ),
        }
    }
}

/// A JPEG segment: `marker`, a length, `declared` or the real one, and
/// `body`.
fn segment(marker: u8, body: &[u8], declared: Option<u16>) -> Vec<u8> {
    let length = declared.unwrap_or_else(|| u16::try_from(2 + body.len()).unwrap());
    let mut segment = vec![0xFF, marker];
    segment.extend_from_slice(&length.to_be_bytes());
    segment.extend_from_slice(body);
    segment
}

/// One segment of each kind that zune-jpeg keeps, with 5 bytes of data, enough for every
/// kind to be kept.
fn kept_segments() -> [(&'static str, u8, Vec<u8>); 7] {
    let with_data = |identifier: &[u8]| [identifier, b"12345"].concat();
    let mut extended_xmp = b"http://ns.adobe.com/xmp/extension/\0".to_vec();
    extended_xmp.extend_from_slice(&[b'G'; 32]);
    extended_xmp.extend_from_slice(&5u32.to_be_bytes());
    extended_xmp.extend_from_slice(&0u32.to_be_bytes());
    [
        ("EXIF", 0xE1, with_data(b"Exif\0\0")),
        ("XMP", 0xE1, with_data(b"http://ns.adobe.com/xap/1.0/\0")),
        ("extended XMP", 0xE1, with_data(&extended_xmp)),
        ("ICC", 0xE2, with_data(b"ICC_PROFILE\0\x01\x01")),
        (
            "gain map",
            0xE2,
            with_data(b"urn:iso:std:iso:ts:21496:-1\0"),
        ),
        ("MPF", 0xE2, with_data(b"MPF\0")),
        ("IPTC", 0xED, with_data(b"Photoshop 3.0\0")),
    ]
}

/// zune-jpeg keeps none of the metadata segments behind `HideMetadata`,
/// and all of them without it.
#[test]
fn jpeg_decoder_keeps_no_metadata() {
    let mut jpeg = Cursor::new(Vec::new());
    image::DynamicImage::ImageLuma8(ImageBuffer::from_pixel(8, 8, image::Luma([0x40])))
        .write_to(&mut jpeg, image::ImageFormat::Jpeg)
        .unwrap();
    let mut jpeg = jpeg.into_inner();
    let metadata: Vec<u8> = kept_segments()
        .iter()
        .flat_map(|(_, marker, body)| segment(*marker, body, None))
        .collect();
    jpeg.splice(2..2, metadata);

    let kept = |info: &zune_jpeg::ImageInfo, icc: Option<Vec<u8>>| {
        [
            ("EXIF", info.exif_data.is_some()),
            ("XMP", info.xmp_data.is_some()),
            ("extended XMP", info.extended_xmp.is_some()),
            ("ICC", icc.is_some()),
            ("gain map", !info.gain_map_info.is_empty()),
            ("MPF", info.multi_picture_information.is_some()),
            ("IPTC", info.iptc_data.is_some()),
        ]
    };
    let options = DecoderOptions::default().set_strict_mode(false);
    let mut plain = zune_jpeg::JpegDecoder::new_with_options(ZCursor::new(&jpeg), options);
    plain.decode_headers().unwrap();
    for (name, kept) in kept(&plain.info().unwrap(), plain.icc_profile()) {
        assert!(kept, "zune-jpeg alone keeps {name}");
    }
    let mut reader = HideMetadata { reader: ZCursor::new(&jpeg) };
    let options = options.jpeg_set_out_colorspace(ColorSpace::Luma);
    let mut hidden = zune_jpeg::JpegDecoder::new_with_options(&mut reader, options);
    hidden.decode_headers().unwrap();
    for (name, kept) in kept(&hidden.info().unwrap(), hidden.icc_profile()) {
        assert!(!kept, "HideMetadata must hide {name}");
    }
}

/// `decode_guarded` decodes PNG with `png` directly, so it must return the
/// pixels and errors `image` returns for the same bytes, including the
/// color types and bit depths EXPAND widens.
#[test]
fn png_decodes_as_image_does() {
    let (width, height) = (37, 23);
    let cases: [(ColorType, BitDepth, u32, &[u8]); 5] = [
        (ColorType::Grayscale, BitDepth::One, 1, &[]),
        (ColorType::Grayscale, BitDepth::Four, 4, &[0, 3]),
        (ColorType::Indexed, BitDepth::Eight, 8, &[0, 64, 128, 192]),
        (ColorType::Rgb, BitDepth::Sixteen, 48, &[0, 7, 0, 7, 0, 7]),
        (ColorType::Rgba, BitDepth::Sixteen, 64, &[]),
    ];
    let mut last = Vec::new();
    for (color, depth, bits_per_pixel, trns) in cases {
        let len = (width * bits_per_pixel).div_ceil(8) * height;
        let data: Vec<u8> = (0..len)
            .map(|i| (i.wrapping_mul(0x9E37_79B9) >> 24) as u8)
            .collect();
        let mut png = Vec::new();
        let mut encoder = png::Encoder::new(&mut png, width, height);
        encoder.set_color(color);
        encoder.set_depth(depth);
        if color == ColorType::Indexed {
            encoder.set_palette((0..=255u8).flat_map(|i| [i, !i, i / 2]).collect::<Vec<_>>());
        }
        if !trns.is_empty() {
            encoder.set_trns(trns);
        }
        let mut writer = encoder.write_header().unwrap();
        writer.write_image_data(&data).unwrap();
        writer.finish().unwrap();

        let name = format!("{color:?} {depth:?}");
        let expected = image::load_from_memory(&png).unwrap();
        let Ok(decoded) = decode_guarded(&png, 64, u64::MAX) else {
            panic!("{name} PNG must decode");
        };
        assert_eq!((decoded.width, decoded.height), (width, height), "{name}");
        assert_eq!(color_type(decoded.format), expected.color(), "{name}");
        assert_eq!(decoded.bytes, big_endian(decoded.format, expected.as_bytes()), "{name}");
        last = png;
    }

    let mut bad_crc = last.clone();
    bad_crc[29] ^= 1;
    for (name, broken) in [("truncated", &last[..20]), ("bad IHDR CRC", &bad_crc[..])] {
        let expected = image::load_from_memory(broken).unwrap_err();
        let Err(GuardedDecodeError::Decode(err)) = decode_guarded(broken, 64, u64::MAX) else {
            panic!("a PNG with {name} must not decode");
        };
        assert_eq!(err, expected.to_string(), "{name}");
    }
}

/// An eXIf chunk before the image data decodes up to
/// `MAX_PNG_EXIF_BYTES`, whatever the pixel format. One after the image
/// data is never read.
#[test]
fn png_exif_decodes_up_to_the_limit() {
    let png = |exif_len: usize, after_image: bool| {
        let mut png = Vec::new();
        let mut encoder = png::Encoder::new(&mut png, 3, 2);
        encoder.set_color(png::ColorType::Rgba);
        encoder.set_depth(png::BitDepth::Sixteen);
        let mut writer = encoder.write_header().unwrap();
        let exif = png::chunk::ChunkType(*b"eXIf");
        if !after_image {
            writer.write_chunk(exif, &vec![0; exif_len]).unwrap();
        }
        writer.write_image_data(&[0x40; 3 * 2 * 8]).unwrap();
        if after_image {
            writer.write_chunk(exif, &vec![0; exif_len]).unwrap();
        }
        writer.finish().unwrap();
        png
    };
    for (exif_len, after_image) in [(MAX_PNG_EXIF_BYTES as usize, false), (MAX_PNG_EXIF_BYTES as usize + 1, true)]
    {
        assert!(
            decode_guarded(&png(exif_len, after_image), 64, u64::MAX).is_ok(),
            "a {exif_len}-byte eXIf, after the image data: {after_image}, must decode"
        );
    }
    let Err(GuardedDecodeError::Decode(err)) =
        decode_guarded(&png(MAX_PNG_EXIF_BYTES as usize + 1, false), 64, u64::MAX)
    else {
        panic!("an eXIf over the limit must not decode");
    };
    assert_eq!(
        err,
        "Format error decoding Png: eXIf chunk is 65537 bytes, over the 65536 a tip reads"
    );
}

#[test]
fn garbage_bytes_report_a_decode_error() {
    let err = decode_tip_image(b"not an image").expect_err("garbage must not decode");
    assert!(matches!(err, TipImageError::Decode(_)), "got {err:?}");
}

#[test]
fn tip_bitmap_of_copies_pixels_and_declares_depth_8() {
    let bitmap = GrayscaleBitmap {
        width: 3,
        height: 2,
        data: vec![0, 17, 255, 128, 1, 0],
    };
    let tip = tip_bitmap_of(&bitmap);
    assert_eq!((tip.width, tip.height), (3, 2));
    assert_eq!(tip.depth, 8, "GrayscaleBitmap is 8-bit by construction");
    assert_eq!(tip.data, bitmap.data, "polarity matches, so no conversion");
}

#[test]
fn tip_bitmap_of_round_trips_an_8_bit_tip() {
    let tip = TipBitmap {
        width: 2,
        height: 2,
        depth: 8,
        data: vec![9, 200, 0, 255],
    };
    let back = tip_bitmap_of(&to_grayscale(&tip));
    assert_eq!((back.width, back.height, back.depth), (2, 2, 8));
    assert_eq!(back.data, tip.data);
}

#[test]
fn imported_image_dimension_bomb_is_rejected_not_allocated() {
    // The IDAT holds 4x4 pixels, so a decode-first path fails on the truncated
    // data instead of the declared size.
    let over = MAX_IMPORT_DIMENSION + 1;
    for (bytes, width, height) in [
        (dimension_bomb_png(60000, 60000), 60000, 60000),
        (dimension_bomb_png(20000, 20000), 20000, 20000),
        (dimension_bomb_png(u32::MAX, u32::MAX), u32::MAX, u32::MAX),
        (dimension_bomb_png(over, 1), over, 1),
        (dimension_bomb_png(1, over), 1, over),
        (baseline_jpeg(65535, 65535, 1), 65535, 65535),
        (baseline_jpeg(over, 1, 1), over, 1),
        (baseline_jpeg(1, over, 3), 1, over),
    ] {
        let err = decode_tip_image(&bytes).expect_err("an oversized image must be rejected");
        assert!(
            matches!(err, TipImageError::TooLarge { width: w, height: h } if (w, h) == (width, height)),
            "{width}x{height}: expected TooLarge with the declared dimensions, got {err:?}"
        );
    }
}

#[test]
fn imported_image_over_the_memory_budget_is_too_large() {
    // Both sides are within MAX_IMPORT_DIMENSION. RGBA8 at the limit decodes to
    // 1 GiB and RGBA16 to 2 GiB, past isize::MAX on 32-bit targets. The PNGs are
    // sized from IHDR, the RGB JPEG (768 MiB) from the decoder.
    let side = MAX_IMPORT_DIMENSION;
    for bytes in [
        rgba_dimension_bomb_png(side, side, 8),
        rgba_dimension_bomb_png(side, side, 16),
        baseline_jpeg(side, side, 3),
    ] {
        let err = decode_tip_image(&bytes).expect_err("an over-budget image must be rejected");
        assert!(
            matches!(err, TipImageError::TooLarge { width, height } if (width, height) == (side, side)),
            "expected TooLarge, got {err:?}"
        );
    }
}

#[test]
fn progressive_jpeg_over_the_budget_with_its_coefficients_is_too_large() {
    // Each decoded image fits the 512 MiB budget, but not with the DCT
    // coefficients a progressive decode holds, 2 bytes per sample: gray
    // 256 + 512 MiB, RGB 192 + 384 MiB. The last one is over by 340 KiB only
    // because a vertical sampling factor of 3 pads its height to 16368 rows.
    for (width, height, sampling) in [
        (MAX_IMPORT_DIMENSION, MAX_IMPORT_DIMENSION, &[0x11][..]),
        (
            MAX_IMPORT_DIMENSION / 2,
            MAX_IMPORT_DIMENSION / 2,
            &[0x11; 3],
        ),
        (3648, 16352, &[0x13; 3]),
    ] {
        let name = format!("{width}x{height} sampling {sampling:x?}");
        // A decoded tip is not printed: at this size it is hundreds of MiB.
        match decode_tip_image(&progressive_jpeg(width, height, sampling)) {
            Err(TipImageError::TooLarge {
                width: w,
                height: h,
            }) => {
                assert_eq!((w, h), (width, height), "{name}: the declared dimensions");
            }
            Err(err) => panic!("{name}: expected TooLarge, got {err:?}"),
            Ok(_) => panic!("{name}: an over-budget progressive JPEG decoded"),
        }
    }
}

#[test]
fn baseline_jpeg_with_a_partial_first_scan_counts_its_coefficients() {
    // zune-jpeg holds every coefficient of a baseline JPEG for the whole
    // decode when its first scan leaves out a component. At 8192x8192 RGB is
    // 192 MiB, which fits the budget, and with 384 MiB of coefficients does
    // not. A gray JPEG after the end of the image, as a gain map is stored,
    // holds a one-component scan that zune-jpeg never reads.
    let side = MAX_IMPORT_DIMENSION / 2;
    let mut jpeg = baseline_jpeg(side, side, 3);
    jpeg.extend_from_slice(&baseline_jpeg(64, 64, 1));
    let tip = decode_tip_image(&jpeg)
        .expect("a baseline JPEG with every component in its first scan decodes");
    assert_eq!((tip.width, tip.height), (side, side));

    // zune-jpeg parses 0xFFC1 as baseline too.
    for sof in [0xC0, 0xC1] {
        match decode_tip_image(&hand_written_jpeg(sof, side, side, &[0x11; 3], 1)) {
            Err(TipImageError::TooLarge { width, height }) => {
                assert_eq!((width, height), (side, side), "SOF {sof:x}");
            }
            Err(err) => panic!("SOF {sof:x}: expected TooLarge, got {err:?}"),
            Ok(_) => {
                panic!("SOF {sof:x}: a partial first scan decoded without its coefficients counted")
            }
        }
    }
}

#[test]
fn frame_header_after_the_first_scan_is_not_counted() {
    // A gray JPEG of 256 MiB followed by a color JPEG of the same size, as an
    // MPF secondary image is stored. zune-jpeg parses one frame header, before
    // the first scan, so the color frame's 1.5 GiB of coefficients never exist.
    let side = MAX_IMPORT_DIMENSION;
    let mut jpeg = baseline_jpeg(side, side, 1);
    jpeg.extend_from_slice(&baseline_jpeg(side, side, 3));
    let tip = decode_tip_image(&jpeg).expect("the gray JPEG fits the budget");
    assert_eq!((tip.width, tip.height), (side, side));
}

#[test]
fn progressive_420_jpeg_is_held_to_the_budget_by_its_real_coefficients() {
    // 4:2:0 codes six blocks per 16x16 MCU, so its coefficients take 3 bytes
    // per pixel next to 3 bytes of RGB. 512 MiB is 5461.3 such rows of 16384.
    let sampling = [0x22, 0x11, 0x11];
    let size = planned_size(&progressive_jpeg(MAX_IMPORT_DIMENSION, 5456, &sampling))
        .expect("a 4:2:0 JPEG within the budget decodes");
    assert_eq!(size, (MAX_IMPORT_DIMENSION, 5456));

    match decode_tip_image(&progressive_jpeg(MAX_IMPORT_DIMENSION, 5472, &sampling)) {
        Err(TipImageError::TooLarge { width, height }) => {
            assert_eq!((width, height), (MAX_IMPORT_DIMENSION, 5472));
        }
        Err(err) => panic!("expected TooLarge, got {err:?}"),
        Ok(_) => panic!("a 4:2:0 JPEG over the budget decoded"),
    }
}

#[test]
fn progressive_jpeg_with_a_second_frame_header_counts_the_larger_one() {
    // The 4:2:0 image that fits the budget above, with a comment after its
    // frame header holding a 4:4:4 frame header of the same size. zune-jpeg
    // skips the comment, but the coefficient count cannot tell which header
    // it parsed, so every component counts at full resolution: 6 bytes per
    // pixel of coefficients.
    let (width, height) = (MAX_IMPORT_DIMENSION, 5456);
    let mut jpeg = progressive_jpeg(width, height, &[0x22, 0x11, 0x11]);
    let mut comment = vec![0xFF, 0xFE, 0x00, 21, 0xFF, 0xC2, 0x00, 17, 8];
    comment.extend_from_slice(&(height as u16).to_be_bytes());
    comment.extend_from_slice(&(width as u16).to_be_bytes());
    comment.extend_from_slice(&[3, 1, 0x22, 0, 2, 0x22, 0, 3, 0x22, 0]);
    let huffman_tables = jpeg
        .windows(2)
        .position(|marker| marker == [0xFF, 0xC4])
        .expect("the fixture has a DHT segment");
    jpeg.splice(huffman_tables..huffman_tables, comment);

    match decode_tip_image(&jpeg) {
        Err(TipImageError::TooLarge {
            width: w,
            height: h,
        }) => assert_eq!((w, h), (width, height)),
        Err(err) => panic!("expected TooLarge, got {err:?}"),
        Ok(_) => panic!("the smaller frame header was counted"),
    }
}

#[test]
fn progressive_frame_header_in_a_skipped_segment_of_a_baseline_jpeg_is_not_counted() {
    // An 8192x8192 RGB baseline JPEG of 192 MiB, which holds no coefficients,
    // with a comment holding a progressive frame header of the same size.
    // zune-jpeg skips the comment. Counted, the header's 384 MiB of
    // coefficients would put the decode over the budget.
    let side = MAX_IMPORT_DIMENSION / 2;
    let mut jpeg = baseline_jpeg(side, side, 3);
    let mut comment = vec![0xFF, 0xFE, 0x00, 21, 0xFF, 0xC2, 0x00, 17, 8];
    comment.extend_from_slice(&(side as u16).to_be_bytes());
    comment.extend_from_slice(&(side as u16).to_be_bytes());
    comment.extend_from_slice(&[3, 1, 0x11, 0, 2, 0x11, 0, 3, 0x11, 0]);
    jpeg.splice(2..2, comment);

    let tip = decode_tip_image(&jpeg).expect("the skipped frame header is not counted");
    assert_eq!((tip.width, tip.height), (side, side));
}

#[test]
fn progressive_frame_header_in_a_baseline_jpeg_with_a_partial_first_scan_is_not_counted() {
    // A 4:2:0 baseline JPEG whose first scan holds only luma, so zune-jpeg
    // holds its coefficients: 3 bytes per pixel next to 3 bytes of RGB, which
    // fits the budget. A comment holds a 4:4:4 progressive frame header of the
    // same size, whose coefficients would not. zune-jpeg parses the baseline
    // one.
    let (width, height) = (MAX_IMPORT_DIMENSION, 5456);
    let mut jpeg = hand_written_jpeg(0xC0, width, height, &[0x22, 0x11, 0x11], 1);
    let mut comment = vec![0xFF, 0xFE, 0x00, 21, 0xFF, 0xC2, 0x00, 17, 8];
    comment.extend_from_slice(&(height as u16).to_be_bytes());
    comment.extend_from_slice(&(width as u16).to_be_bytes());
    comment.extend_from_slice(&[3, 1, 0x22, 0, 2, 0x22, 0, 3, 0x22, 0]);
    jpeg.splice(2..2, comment);

    let tip = decode_tip_image(&jpeg).expect("the progressive frame header is not counted");
    assert_eq!((tip.width, tip.height), (width, height));
}

#[test]
fn baseline_frame_header_in_a_progressive_jpeg_is_not_counted() {
    // `progressive_jpeg_with_a_second_frame_header_counts_the_larger_one`
    // with a first scan of one component and a baseline 4:4:4 frame header in
    // the comment. A baseline frame with a partial first scan would hold its
    // coefficients, but zune-jpeg parses the progressive frame header, so only
    // the 4:2:0 one counts, and the image fits the budget.
    let (width, height) = (MAX_IMPORT_DIMENSION, 5456);
    let mut jpeg = hand_written_jpeg(0xC2, width, height, &[0x22, 0x11, 0x11], 1);
    let mut comment = vec![0xFF, 0xFE, 0x00, 21, 0xFF, 0xC0, 0x00, 17, 8];
    comment.extend_from_slice(&(height as u16).to_be_bytes());
    comment.extend_from_slice(&(width as u16).to_be_bytes());
    comment.extend_from_slice(&[3, 1, 0x22, 0, 2, 0x22, 0, 3, 0x22, 0]);
    jpeg.splice(2..2, comment);

    let size = planned_size(&jpeg).expect("the baseline frame header is not counted");
    assert_eq!(size, (width, height));
}

#[test]
fn frame_header_with_other_components_than_the_parsed_one_is_not_counted() {
    // A 16384x8192 gray progressive JPEG: 128 MiB of pixels and 256 MiB of
    // coefficients. A comment holds a three-component progressive frame header
    // of the same size, whose 768 MiB of coefficients would not fit.
    let (width, height) = (MAX_IMPORT_DIMENSION, MAX_IMPORT_DIMENSION / 2);
    let mut jpeg = progressive_jpeg(width, height, &[0x11]);
    let mut comment = vec![0xFF, 0xFE, 0x00, 21, 0xFF, 0xC2, 0x00, 17, 8];
    comment.extend_from_slice(&(height as u16).to_be_bytes());
    comment.extend_from_slice(&(width as u16).to_be_bytes());
    comment.extend_from_slice(&[3, 1, 0x11, 0, 2, 0x11, 0, 3, 0x11, 0]);
    jpeg.splice(2..2, comment);

    let tip = decode_tip_image(&jpeg).expect("the three-component header is not counted");
    assert_eq!((tip.width, tip.height), (width, height));
}

#[test]
fn frame_header_with_a_field_zune_jpeg_rejects_is_not_counted() {
    // `progressive_jpeg_with_a_second_frame_header_counts_the_larger_one`
    // with a comment per field of the 4:4:4 frame header, each holding the
    // header with that field set to a value zune-jpeg rejects in the image's
    // own frame header.
    let (width, height) = (MAX_IMPORT_DIMENSION, 5456);
    let jpeg = progressive_jpeg(width, height, &[0x22, 0x11, 0x11]);
    let frame = jpeg
        .windows(2)
        .position(|marker| marker == [0xFF, 0xC2])
        .expect("the fixture has a frame header");
    let mut skipped = jpeg.clone();
    for (precision, factors, table, rejection) in [
        (12, 0x22, 0, "8-bit"),
        (8, 0x32, 0, "Horizontal sample is not a power of two"),
        (8, 0x25, 0, "Bogus Vertical Sampling Factor"),
        (8, 0x22, 4, "Too large quantization number"),
    ] {
        let mut header = vec![0xFF, 0xC2, 0x00, 17, precision];
        header.extend_from_slice(&(height as u16).to_be_bytes());
        header.extend_from_slice(&(width as u16).to_be_bytes());
        header.push(3);
        for id in 1..=3 {
            header.extend_from_slice(&[id, factors, table]);
        }

        let mut own = jpeg.clone();
        own.splice(frame..frame + header.len(), header.iter().copied());
        match decode_tip_image(&own) {
            Err(TipImageError::Decode(msg)) => assert!(msg.contains(rejection), "{msg}"),
            other => panic!("{rejection}: expected zune-jpeg to reject it, got {other:?}"),
        }

        let mut comment = vec![0xFF, 0xFE, 0x00, 21];
        comment.extend_from_slice(&header);
        skipped.splice(2..2, comment);
    }

    match planned_size(&skipped) {
        Ok(size) => assert_eq!(size, (width, height)),
        Err(err) => panic!("a rejected frame header was counted, got {err:?}"),
    }
}

#[test]
fn bmp_tip_is_inverted_luma() {
    let rgb = ImageBuffer::from_fn(5, 3, |x, y| Rgb([x as u8 * 40, y as u8 * 90, 17]));
    let mut bmp = Cursor::new(Vec::new());
    rgb.write_to(&mut bmp, ImageFormat::Bmp)
        .expect("encode BMP");
    let expected = image::load_from_memory(bmp.get_ref()).expect("decode BMP");
    let expected: Vec<u8> = expected.to_luma8().iter().map(|v| 255 - v).collect();

    let tip = decode_tip_image(bmp.get_ref()).expect("BMP tip decodes");
    assert_eq!((tip.width, tip.height), (5, 3));
    assert_eq!(tip.data, expected);
}

/// A 24-bit BMP header at the dimension limit, with no pixel data. Its
/// 768 MiB of RGB is over the budget, so it is rejected before any pixels.
#[test]
fn bmp_over_the_memory_budget_is_too_large() {
    let side = MAX_IMPORT_DIMENSION;
    let mut bmp = b"BM".to_vec();
    bmp.extend_from_slice(&54u32.to_le_bytes()); // file size
    bmp.extend_from_slice(&0u32.to_le_bytes()); // reserved
    bmp.extend_from_slice(&54u32.to_le_bytes()); // pixel data offset
    bmp.extend_from_slice(&40u32.to_le_bytes()); // BITMAPINFOHEADER
    bmp.extend_from_slice(&(side as i32).to_le_bytes());
    bmp.extend_from_slice(&(side as i32).to_le_bytes());
    bmp.extend_from_slice(&1u16.to_le_bytes()); // planes
    bmp.extend_from_slice(&24u16.to_le_bytes()); // bits per pixel
    bmp.extend_from_slice(&[0; 24]); // no compression, default sizes and palette

    let err = decode_tip_image(&bmp).expect_err("over the budget");
    assert!(
        matches!(err, TipImageError::TooLarge { width, height } if width == side && height == side),
        "got {err:?}"
    );
}

fn assert_matches_image(bytes: &[u8]) {
    let reference = image::load_from_memory(bytes).unwrap();
    let coverage: Vec<u8> = if reference.color().has_alpha() {
        reference
            .to_luma_alpha8()
            .pixels()
            .map(|p| p.0[1])
            .collect()
    } else {
        reference
            .to_luma8()
            .pixels()
            .map(|p| 255 - p.0[0])
            .collect()
    };
    for (tip, expected) in [
        (decode_tip_image(bytes).unwrap(), coverage),
        (
            decode_tip_png(bytes).unwrap(),
            reference.to_luma8().into_raw(),
        ),
    ] {
        assert_eq!(
            (tip.width, tip.height),
            (reference.width(), reference.height())
        );
        assert_eq!(tip.data, expected);
    }
}

#[test]
fn low_bit_and_indexed_pngs_match_image() {
    for depth in [png::BitDepth::One, png::BitDepth::Two, png::BitDepth::Four] {
        for color in [png::ColorType::Grayscale, png::ColorType::Indexed] {
            for transparent in [false, true] {
                let mut bytes = Vec::new();
                {
                    let mut encoder = png::Encoder::new(&mut bytes, 8, 1);
                    encoder.set_color(color);
                    encoder.set_depth(depth);
                    if color == png::ColorType::Indexed {
                        encoder.set_palette(vec![0, 0, 0, 255, 128, 64]);
                        if transparent {
                            encoder.set_trns(vec![0, 128]);
                        }
                    } else if transparent {
                        encoder.set_trns(vec![0, 1]);
                    }
                    let mut writer = encoder.write_header().unwrap();
                    let data: &[u8] = match depth {
                        png::BitDepth::One => &[0x55],
                        png::BitDepth::Two => &[0x11, 0x11],
                        png::BitDepth::Four => &[0x01; 4],
                        _ => unreachable!(),
                    };
                    writer.write_image_data(data).unwrap();
                }
                assert_matches_image(&bytes);
            }
        }
    }
}

#[test]
fn apng_default_image_matches_image() {
    for separate_default in [false, true] {
        let mut bytes = Vec::new();
        {
            let mut encoder = png::Encoder::new(&mut bytes, 2, 2);
            encoder.set_color(png::ColorType::Grayscale);
            encoder.set_depth(png::BitDepth::Eight);
            encoder
                .set_animated(if separate_default { 1 } else { 2 }, 0)
                .unwrap();
            encoder.set_sep_def_img(separate_default).unwrap();
            let mut writer = encoder.write_header().unwrap();
            writer.write_image_data(&[0x40; 4]).unwrap();
            writer.write_image_data(&[0x80; 4]).unwrap();
        }
        assert_matches_image(&bytes);
    }
}

fn with_incomplete_xmp_parts(jpeg: &[u8], namespace: &[u8], parts: usize) -> Vec<u8> {
    let mut part = vec![0xFF, 0xE1];
    let length = u16::try_from(2 + namespace.len() + GUID.len() + 8).expect("segment fits");
    part.extend_from_slice(&length.to_be_bytes());
    part.extend_from_slice(namespace);
    part.extend_from_slice(&GUID);
    part.extend_from_slice(&TOTAL_SIZE.to_be_bytes());
    part.extend_from_slice(&OFFSET.to_be_bytes());
    let mut out = jpeg[..2].to_vec();
    out.extend_from_slice(&part.repeat(parts));
    out.extend_from_slice(&jpeg[2..]);
    out
}

fn fastest_decode(bytes: &[u8]) -> Duration {
    (0..3)
        .map(|_| {
            let start = Instant::now();
            decode_tip_image(bytes).expect("decodes");
            start.elapsed()
        })
        .min()
        .expect("three runs")
}

#[test]
fn incomplete_extended_xmp_parts_decode_in_linear_time() {
    let jpeg = baseline_jpeg(8, 8, 1);
    let xmp = with_incomplete_xmp_parts(&jpeg, EXTENDED_XMP, PARTS);
    let mut unknown_namespace = EXTENDED_XMP.to_vec();
    unknown_namespace[0] = b'H';
    let unknown = with_incomplete_xmp_parts(&jpeg, &unknown_namespace, PARTS);
    assert_eq!(xmp.len(), unknown.len());

    let unknown_time = fastest_decode(&unknown);
    let xmp_time = fastest_decode(&xmp);
    assert!(
        xmp_time < 3 * unknown_time + Duration::from_millis(100),
        "{PARTS} extended XMP parts took {xmp_time:?}, the same bytes of unknown APP1 segments {unknown_time:?}"
    );
}

/// A baseline grayscale JPEG, 16x8, quality 100: left half black, right half white.
fn half_black() -> Vec<u8> {
    let mut jpeg = Vec::new();
    let pixels = ImageBuffer::from_fn(16, 8, |x, _| image::Luma([if x < 8 { 0u8 } else { 255 }]));
    let encoder = image::codecs::jpeg::JpegEncoder::new_with_quality(&mut jpeg, 100);
    pixels.write_with_encoder(encoder).expect("encode JPEG");
    jpeg
}

#[test]
fn jpeg_tip_decodes_with_inverted_luminance() {
    let tip = decode_tip_image(&half_black()).expect("JPEG tip decodes");
    assert_eq!((tip.width, tip.height), (16, 8));
    assert_eq!(tip.data.len(), 16 * 8);

    // Columns next to the edge at x = 8 may ring, so only the outer ones are checked.
    for (y, row) in tip.data.chunks(16).enumerate() {
        for (x, &v) in row.iter().enumerate() {
            if x < 6 {
                assert!(v >= 255 - TOLERANCE, "black ({x},{y}) is {v}");
            } else if x >= 10 {
                assert!(v <= TOLERANCE, "white ({x},{y}) is {v}");
            }
        }
    }
}

#[test]
fn answers_of_other_decoders_are_settled() {
    assert!(check_dimensions(None, 4).is_ok());
    assert!(check_dimensions(Some((4, 4)), 4).is_ok());
    assert!(matches!(
        check_dimensions(Some((2, 5)), 4),
        Err(GuardedDecodeError::TooLarge { width: 2, height: 5 })
    ));

    let info = |total: u64, format: Result<PixelFormat, String>| {
        Ok(OtherInfo { width: 2, height: 1, total, format })
    };
    assert_eq!(
        plan_other(info(6, Ok(PixelFormat::Rgb8)), 6).unwrap(),
        (2, 1, PixelFormat::Rgb8)
    );
    assert!(matches!(
        plan_other(info(7, Err("no format".to_string())), 6),
        Err(GuardedDecodeError::TooLarge { width: 2, height: 1 })
    ));
    assert!(matches!(
        plan_other(info(6, Err("no format".to_string())), 6),
        Err(GuardedDecodeError::Decode(words)) if words == "no format"
    ));
    assert!(matches!(
        plan_other(Err("no decoder".to_string()), 6),
        Err(GuardedDecodeError::Decode(words)) if words == "no decoder"
    ));

    let tip = settle_other(2, 1, PixelFormat::L8, vec![7, 9], 2, 2).unwrap();
    assert_eq!((tip.width, tip.height, tip.bytes), (2, 1, vec![7, 9]));
    let samples = [0x0102u16, 0x0304].map(u16::to_ne_bytes).concat();
    let tip = settle_other(2, 1, PixelFormat::L16, samples, 2, 4).unwrap();
    assert_eq!(tip.bytes, [1, 2, 3, 4]);
    for (pixels, max_side, max_bytes) in [(vec![7], 2, 2), (vec![7, 9], 1, 2), (vec![7, 9], 2, 1)] {
        assert!(matches!(
            settle_other(2, 1, PixelFormat::L8, pixels, max_side, max_bytes),
            Err(GuardedDecodeError::TooLarge { width: 2, height: 1 })
        ));
    }
}

#[test]
fn a_bitmap_that_fits_is_kept_whatever_it_holds() {
    let short = GrayscaleBitmap { width: 3, height: 2, data: vec![1] };
    let same = downsample(&short, 3);
    assert_eq!((same.width, same.height, same.data), (3, 2, vec![1]));
}
