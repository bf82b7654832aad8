//! JPEG files of every layout: they decode, or there is an error.
use brushkit::preview::codec::{JpegColor, JpegInfo};
use brushkit::preview::decode::{decode_guarded, plan_jpeg, GuardedDecodeError};
use brushkit::preview::sampling::{find_frame, is_decodable};
use brushkit::preview::{decode_tip_image, TipImageError};

/// A frame and its scans.
struct Layout<'a> {
    sof: u8,
    width: u16,
    height: u16,
    /// The sampling factors of each component.
    sampling: &'a [u8],
    /// The components of each scan.
    scans: &'a [&'a [u8]],
    /// The transform of an Adobe segment behind the frame header.
    adobe: Option<u8>,
    /// The transform of an Adobe segment behind the first scan.
    late_adobe: Option<u8>,
}

fn adobe_segment(transform: u8) -> Vec<u8> {
    let mut segment = vec![0xFF, 0xEE, 0x00, 0x0E];
    segment.extend_from_slice(b"Adobe\0");
    segment.extend_from_slice(&[0, 0, 0, 0, 0, transform]);
    segment
}

fn largest(sampling: &[u8]) -> (usize, usize) {
    let h = sampling.iter().map(|f| f >> 4).max().unwrap_or(1);
    let v = sampling.iter().map(|f| f & 15).max().unwrap_or(1);
    (h as usize, v as usize)
}

/// The bytes of zero blocks that zune-jpeg reads for a scan: two bits for a block of a
/// baseline file, one for a progressive one.
fn scan_data(layout: &Layout, scan: &[u8]) -> Vec<u8> {
    let (h, v) = largest(layout.sampling);
    let (width, height) = (layout.width as usize, layout.height as usize);
    let (across, down) = (width.div_ceil(8 * h), height.div_ceil(8 * v));
    let progressive = layout.sof == 0xC2;
    let factors = |c: u8| {
        let f = layout.sampling[c as usize - 1];
        ((f >> 4) as usize, (f & 15) as usize)
    };
    let blocks = if progressive && scan.len() == 1 {
        let (fh, fv) = factors(scan[0]);
        (width * fh).div_ceil(8 * h) * (height * fv).div_ceil(8 * v)
    } else if progressive || scan.len() == layout.sampling.len() {
        across * down * scan.iter().map(|&c| factors(c).0 * factors(c).1).sum::<usize>()
    } else {
        (width * factors(scan[0]).0).div_ceil(8 * h) * down * scan.len()
    };
    let bits = if progressive { blocks } else { 2 * blocks };
    let mut data = vec![0; bits.div_ceil(8)];
    if bits % 8 != 0 {
        *data.last_mut().unwrap() = 0xFF >> (bits % 8);
    }
    data
}

impl Layout<'_> {
    fn jpeg(&self) -> Vec<u8> {
        let mut jpeg = vec![0xFF, 0xD8, 0xFF, 0xDB, 0x00, 0x43, 0x00];
        jpeg.extend_from_slice(&[1; 64]);
        let n = self.sampling.len() as u8;
        jpeg.extend_from_slice(&[0xFF, self.sof, 0x00, 8 + 3 * n, 8]);
        jpeg.extend_from_slice(&self.height.to_be_bytes());
        jpeg.extend_from_slice(&self.width.to_be_bytes());
        jpeg.push(n);
        for (i, factors) in self.sampling.iter().enumerate() {
            jpeg.extend_from_slice(&[i as u8 + 1, *factors, 0]);
        }
        if let Some(transform) = self.adobe {
            jpeg.extend_from_slice(&adobe_segment(transform));
        }
        for class in [0x00, 0x10] {
            jpeg.extend_from_slice(&[0xFF, 0xC4, 0x00, 0x14, class, 1]);
            jpeg.extend_from_slice(&[0; 16]);
        }
        for (i, scan) in self.scans.iter().enumerate() {
            let ns = scan.len() as u8;
            jpeg.extend_from_slice(&[0xFF, 0xDA, 0x00, 6 + 2 * ns, ns]);
            for &c in scan.iter() {
                jpeg.extend_from_slice(&[c, 0x00]);
            }
            jpeg.extend_from_slice(&[0, if self.sof == 0xC2 { 0 } else { 0x3F }, 0]);
            jpeg.extend_from_slice(&scan_data(self, scan));
            if let (0, Some(transform)) = (i, self.late_adobe) {
                jpeg.extend_from_slice(&adobe_segment(transform));
            }
        }
        jpeg.extend_from_slice(&[0xFF, 0xD9]);
        jpeg
    }
}

const REFUSED: &str = "Format error decoding Jpeg: unsupported sampling factors or components";

const ALL: [&[u8]; 4] = [&[1], &[1, 2], &[1, 2, 3], &[1, 2, 3, 4]];

const SINGLES: [&[u8]; 4] = [&[1], &[2], &[3], &[4]];

const FACTORS: [u8; 12] = [
    0x11, 0x12, 0x13, 0x14, 0x21, 0x22, 0x23, 0x24, 0x41, 0x42, 0x43, 0x44,
];

const SIZES: [(u16, u16); 5] = [(8, 8), (16, 16), (9, 31), (33, 7), (40, 40)];

fn layout<'a>(sof: u8, side: u16, sampling: &'a [u8], scans: &'a [&'a [u8]]) -> Layout<'a> {
    Layout { sof, width: side, height: side, sampling, scans, adobe: None, late_adobe: None }
}

fn is_refused(jpeg: &[u8]) -> bool {
    matches!(decode_tip_image(jpeg), Err(TipImageError::Decode(m)) if m == REFUSED)
}

/// What `image` makes of a file is what comes of it here.
fn assert_decodes_alike(jpeg: &[u8]) {
    let ours = decode_guarded(jpeg, 64, 1 << 20).expect("the file decodes");
    let theirs = image::load_from_memory(jpeg).expect("the file decodes");
    assert_eq!((ours.width, ours.height), (theirs.width(), theirs.height()));
    assert_eq!(ours.bytes, theirs.into_bytes());
}

/// Decodes files whose factors are every `step`th choice; each decodes or is an error.
fn decode_layouts(n: usize, step: usize) -> [usize; 3] {
    let mut counts = [0; 3];
    for code in (0..12usize.pow(n as u32)).step_by(step) {
        let sampling: Vec<u8> = (0..n as u32)
            .map(|k| FACTORS[code / 12usize.pow(k) % 12])
            .collect();
        for (width, height) in SIZES {
            for sof in [0xC0, 0xC2] {
                for scans in [&ALL[n - 1..n], &SINGLES[..n]] {
                    for adobe in [None, Some(0), Some(1), Some(2)] {
                        for late_adobe in [None, Some(1)] {
                            let sampling = &sampling;
                            let layout =
                                Layout { sof, width, height, sampling, scans, adobe, late_adobe };
                            match decode_tip_image(&layout.jpeg()) {
                                Ok(tip) => {
                                    assert_eq!((tip.width, tip.height), (width as u32, height as u32));
                                    counts[0] += 1;
                                }
                                Err(TipImageError::Decode(m)) if m == REFUSED => counts[1] += 1,
                                Err(_) => counts[2] += 1,
                            }
                        }
                    }
                }
            }
        }
    }
    counts
}

#[test]
fn gray_layouts_are_never_refused() {
    let counts = decode_layouts(1, 1);
    assert!(counts[0] > 0);
    for sof in [0xC0, 0xC2] {
        for factors in FACTORS {
            let jpeg = layout(sof, 20, &[factors], &SINGLES[..1]).jpeg();
            assert_decodes_alike(&jpeg);
        }
    }
}

#[test]
fn layouts_of_two_components_decode_or_fail() {
    let counts = decode_layouts(2, 5);
    assert!(counts.iter().all(|&n| n > 0), "{counts:?}");
}

#[test]
fn layouts_of_three_components_decode_or_fail() {
    let counts = decode_layouts(3, 67);
    assert!(counts.iter().all(|&n| n > 0), "{counts:?}");
}

#[test]
fn layouts_of_four_components_decode_or_fail() {
    let counts = decode_layouts(4, 701);
    assert!(counts.iter().all(|&n| n > 0), "{counts:?}");
}

#[test]
fn progressive_jpeg_whose_first_component_is_doubled_is_an_error() {
    let mut jpeg = vec![0xFF, 0xD8, 0xFF, 0xDB, 0x00, 0x43, 0x00];
    jpeg.extend_from_slice(&[1; 64]);
    jpeg.extend_from_slice(&[
        0xFF, 0xC2, 0x00, 0x11, 0x08, 0x00, 0x08, 0x00, 0x08, 0x03, 0x01, 0x11, 0x00, 0x02, 0x22,
        0x00, 0x03, 0x11, 0x00, 0xFF, 0xDA, 0x00, 0x0C, 0x03, 0x01, 0x00, 0x02, 0x00, 0x03, 0x00,
        0x00, 0x00, 0x00,
    ]);
    assert!(is_refused(&jpeg));
    for scans in [&ALL[2..3], &SINGLES[..3]] {
        assert!(is_refused(&layout(0xC2, 8, &[0x11, 0x22, 0x11], scans).jpeg()));
    }
}

#[test]
fn baseline_jpeg_in_scans_whose_first_component_is_doubled_is_an_error() {
    for side in [8, 12, 16, 40] {
        let jpeg = layout(0xC0, side, &[0x11, 0x22, 0x11], &SINGLES[..3]).jpeg();
        assert!(is_refused(&jpeg), "{side}");
    }
    // A row of blocks of the first component leaves its plane, though nothing is doubled
    // both ways.
    let mut low = layout(0xC0, 12, &[0x11, 0x21, 0x11], &SINGLES[..3]);
    low.height = 8;
    assert!(is_refused(&low.jpeg()));
}

#[test]
fn baseline_jpeg_in_one_scan_decodes_with_any_order_of_factors() {
    for sampling in [[0x11, 0x22, 0x11], [0x11, 0x21, 0x11], [0x12, 0x21, 0x22]] {
        assert_decodes_alike(&layout(0xC0, 12, &sampling, &ALL[2..3]).jpeg());
    }
}

#[test]
fn jpeg_with_the_usual_factors_decodes_in_one_scan_and_in_several() {
    for sampling in [[0x11, 0x11, 0x11], [0x21, 0x11, 0x11], [0x22, 0x11, 0x11]] {
        for sof in [0xC0, 0xC2] {
            for scans in [&ALL[2..3], &SINGLES[..3]] {
                assert_decodes_alike(&layout(sof, 20, &sampling, scans).jpeg());
            }
        }
    }
}

#[test]
fn progressive_jpeg_of_two_components_that_says_ycck_is_an_error() {
    for n in [1, 2] {
        let mut layout = layout(0xC2, 8, &[0x11, 0x11][..n], &ALL[n - 1..n]);
        layout.adobe = Some(2);
        assert!(is_refused(&layout.jpeg()), "{n}");
        layout.sof = 0xC0;
        assert!(!is_refused(&layout.jpeg()), "{n}");
    }
    let mut three = layout(0xC2, 8, &[0x11, 0x11, 0x11], &ALL[2..3]);
    three.adobe = Some(2);
    assert_decodes_alike(&three.jpeg());
}

#[test]
fn progressive_jpeg_of_four_components_is_an_error_as_ycbcr_with_doubled_rows() {
    let mut four = layout(0xC2, 16, &[0x22, 0x11, 0x11, 0x22], &SINGLES);
    assert_decodes_alike(&four.jpeg());
    four.adobe = Some(1);
    assert!(is_refused(&four.jpeg()));
    four.adobe = Some(2);
    assert_decodes_alike(&four.jpeg());
    four.late_adobe = Some(1);
    assert!(is_refused(&four.jpeg()));
    four.late_adobe = Some(0);
    assert!(!is_refused(&four.jpeg()));
}

#[test]
fn the_frame_header_is_the_one_behind_whole_segments() {
    let usual = layout(0xC0, 8, &[0x22, 0x11, 0x11], &SINGLES[..3]).jpeg();
    let frame = usual.windows(2).position(|w| w == [0xFF, 0xC0]).unwrap() + 2;
    assert_eq!(find_frame(&usual), Some(frame));
    // A comment that holds another frame header is passed over.
    let odd = layout(0xC0, 8, &[0x11, 0x22, 0x11], &SINGLES[..3]).jpeg();
    let inner = &odd[frame - 2..frame + 17];
    let mut jpeg = usual[..2].to_vec();
    jpeg.extend_from_slice(&[0xFF, 0xFE, 0x00, 2 + inner.len() as u8]);
    jpeg.extend_from_slice(inner);
    jpeg.extend_from_slice(&usual[2..]);
    assert_eq!(find_frame(&jpeg), Some(frame + 4 + inner.len()));
    assert_decodes_alike(&jpeg);
    // Fill bytes and stray bytes are no marker.
    let mut filled = usual[..frame - 2].to_vec();
    filled.extend_from_slice(&[0x12, 0xFF, 0x00, 0xC0, 0xFF, 0xFF]);
    filled.extend_from_slice(&usual[frame - 2..]);
    assert_eq!(find_frame(&filled), Some(frame + 6));
    assert_decodes_alike(&filled);
    // Nothing behind the header of a scan, or cut off before it.
    assert_eq!(find_frame(&usual[..frame - 2]), None);
    assert_eq!(find_frame(&[0xFF, 0xD8, 0xFF, 0xDA, 0x00, 0x02, 0xFF, 0xC0]), None);
    assert_eq!(find_frame(&[]), None);
}

#[test]
fn a_plan_names_the_layout_that_is_refused() {
    let jpeg = layout(0xC2, 8, &[0x11, 0x22, 0x11], &ALL[2..3]).jpeg();
    let scan = jpeg.windows(2).position(|w| w == [0xFF, 0xDA]).unwrap();
    let mut info = JpegInfo {
        width: 8,
        height: 8,
        components: 3,
        progressive: true,
        color: JpegColor::Ycbcr,
        scan_end: scan + 14,
    };
    assert!(!is_decodable(&jpeg, &info));
    let refused = plan_jpeg(&jpeg, &info, 8, 1 << 20);
    assert!(matches!(refused, Err(GuardedDecodeError::Decode(m)) if m == REFUSED));
    let small = plan_jpeg(&jpeg, &info, 7, 1 << 20);
    assert!(matches!(small, Err(GuardedDecodeError::TooLarge { width: 8, height: 8 })));
    // In one scan of a baseline file there is room.
    info.progressive = false;
    assert!(is_decodable(&jpeg, &info));
    // A gray file with other factors than one has sides that fit in 16 bits when rounded up.
    let mut wide = layout(0xC0, 8, &[0x22], &SINGLES[..1]);
    wide.width = 65529;
    let gray = JpegInfo {
        width: 65529,
        components: 1,
        color: JpegColor::Luma,
        scan_end: scan + 10 - 6,
        ..info
    };
    assert!(!is_decodable(&wide.jpeg(), &gray));
    wide.width = 65528;
    assert!(is_decodable(&wide.jpeg(), &JpegInfo { width: 65528, ..gray }));
}
