//! JPEG files: which segments are passed over, and how much memory a decode takes.
use vstd::prelude::*;
use crate::support::bytes::{be_u16, same_bytes, u16_at};
use crate::support::text::ascii;

verus! {

/// The bytes that zune-jpeg needs behind the identifier of a segment that it would keep a
/// copy of: EXIF, XMP, extended XMP, a color profile, a gain map, several pictures, IPTC.
/// Nothing for another identifier.
pub open spec fn kept_of(identifier: Seq<u8>) -> Option<u64> {
    if identifier == ascii("http://ns.adobe.com/xmp/extension/\0") {
        Some(40)
    } else if identifier == ascii("Exif\0\0") || identifier == ascii(
        "http://ns.adobe.com/xap/1.0/\0",
    ) || identifier == ascii("ICC_PROFILE\0") || identifier == ascii(
        "urn:iso:std:iso:ts:21496:-1\0",
    ) || identifier == ascii("MPF\0") || identifier == ascii("Photoshop 3.0\0") {
        Some(0)
    } else {
        None
    }
}

/// The bytes that zune-jpeg needs behind the identifier of a segment that it would keep.
pub fn kept_segment(identifier: &[u8]) -> (r: Option<u64>)
    ensures
        r == kept_of(identifier@),
{
    if same_bytes(identifier, "http://ns.adobe.com/xmp/extension/\0".as_bytes()) {
        Some(40)
    } else if same_bytes(identifier, "Exif\0\0".as_bytes()) || same_bytes(
        identifier,
        "http://ns.adobe.com/xap/1.0/\0".as_bytes(),
    ) || same_bytes(identifier, "ICC_PROFILE\0".as_bytes()) || same_bytes(
        identifier,
        "urn:iso:std:iso:ts:21496:-1\0".as_bytes(),
    ) || same_bytes(identifier, "MPF\0".as_bytes()) || same_bytes(
        identifier,
        "Photoshop 3.0\0".as_bytes(),
    ) {
        Some(0)
    } else {
        None
    }
}

/// What zune-jpeg is shown of the identifier of a segment. The bytes before it end with the
/// segment's length, which counts itself; `behind` bytes of the file follow, with the
/// identifier. The first byte is a zero where zune-jpeg would keep a copy of the segment:
/// where the segment holds what is needed and ends within the file.
pub open spec fn shown(identifier: Seq<u8>, before: Seq<u8>, behind: nat) -> Seq<u8> {
    match kept_of(identifier) {
        Some(needed) => if before.len() >= 2 {
            let n = be_u16(before, before.len() - 2);
            if 2 + identifier.len() + needed <= n <= behind + 2 {
                identifier.update(0, 0)
            } else {
                identifier
            }
        } else {
            identifier
        },
        None => identifier,
    }
}

/// Hides the identifier of a segment of which zune-jpeg would keep a copy.
pub fn hide_identifier(identifier: &mut [u8], before: &[u8], behind: usize)
    ensures
        final(identifier)@ == shown(old(identifier)@, before@, behind as nat),
{
    if let Some(needed) = kept_segment(identifier) {
        if before.len() >= 2 {
            let n: u128 = u16_at(before, before.len() - 2) as u128;
            if n >= 2 + identifier.len() as u128 + needed as u128 && n <= behind as u128 + 2 {
                proof {
                    kept_is_named(identifier@);
                }
                identifier[0] = 0;
            }
        }
    }
}

/// An identifier of a segment that zune-jpeg would keep has a first byte.
proof fn kept_is_named(identifier: Seq<u8>)
    requires
        kept_of(identifier) is Some,
    ensures
        identifier.len() > 0,
{
    reveal_strlit("http://ns.adobe.com/xmp/extension/\0");
    reveal_strlit("Exif\0\0");
    reveal_strlit("http://ns.adobe.com/xap/1.0/\0");
    reveal_strlit("ICC_PROFILE\0");
    reveal_strlit("urn:iso:std:iso:ts:21496:-1\0");
    reveal_strlit("MPF\0");
    reveal_strlit("Photoshop 3.0\0");
}

/// Do the bytes end with the header of a scan of `n` components: a marker, the length of
/// the header, the count, two bytes per component and three more?
pub open spec fn ends_with_scan(b: Seq<u8>, n: nat) -> bool {
    let len = 6 + 2 * n;
    let at = b.len() - (len + 2);
    &&& at >= 0
    &&& b[at] == 0xFF
    &&& b[at + 1] == 0xDA
    &&& b[at + 2] == 0
    &&& b[at + 3] == len
    &&& b[at + 4] == n
}

/// The components of the scan whose header ends the bytes: the smallest count that fits,
/// and 1 if none does.
pub open spec fn scan_components_of(b: Seq<u8>) -> u8 {
    if ends_with_scan(b, 1) {
        1
    } else if ends_with_scan(b, 2) {
        2
    } else if ends_with_scan(b, 3) {
        3
    } else if ends_with_scan(b, 4) {
        4
    } else {
        1
    }
}

fn is_scan_end(b: &[u8], n: u8) -> (r: bool)
    requires
        1 <= n <= 4,
    ensures
        r == ends_with_scan(b@, n as nat),
{
    let len: usize = 6 + 2 * n as usize;
    if b.len() < len + 2 {
        return false;
    }
    let at: usize = b.len() - (len + 2);
    b[at] == 0xFF && b[at + 1] == 0xDA && b[at + 2] == 0 && b[at + 3] as usize == len && b[at + 4]
        == n
}

/// The components of the scan whose header ends the bytes. A doubt counts as one.
pub fn scan_components(bytes: &[u8]) -> (r: u8)
    ensures
        r == scan_components_of(bytes@),
{
    if is_scan_end(bytes, 1) {
        1
    } else if is_scan_end(bytes, 2) {
        2
    } else if is_scan_end(bytes, 3) {
        3
    } else if is_scan_end(bytes, 4) {
        4
    } else {
        1
    }
}

/// The horizontal sampling factor of component `i` of a frame header.
pub open spec fn factor_h(h: Seq<u8>, i: int) -> u8 {
    h[8 + 3 * i + 1] / 16
}

/// The vertical sampling factor of component `i` of a frame header.
pub open spec fn factor_v(h: Seq<u8>, i: int) -> u8 {
    h[8 + 3 * i + 1] % 16
}

/// Does zune-jpeg accept component `i`? The factors are 1, 2 or 4 and 1 to 4, and the
/// table is one of four.
pub open spec fn component_ok(h: Seq<u8>, i: int) -> bool {
    &&& factor_h(h, i) == 1 || factor_h(h, i) == 2 || factor_h(h, i) == 4
    &&& 1 <= factor_v(h, i) <= 4
    &&& h[8 + 3 * i + 2] <= 3
}

/// The largest horizontal factor of the first `n` components, at least 1.
pub open spec fn max_h(h: Seq<u8>, n: nat) -> u8
    decreases n,
{
    if n == 0 {
        1
    } else {
        let m = max_h(h, (n - 1) as nat);
        if factor_h(h, n - 1) > m {
            factor_h(h, n - 1)
        } else {
            m
        }
    }
}

/// The largest vertical factor of the first `n` components, at least 1.
pub open spec fn max_v(h: Seq<u8>, n: nat) -> u8
    decreases n,
{
    if n == 0 {
        1
    } else {
        let m = max_v(h, (n - 1) as nat);
        if factor_v(h, n - 1) > m {
            factor_v(h, n - 1)
        } else {
            m
        }
    }
}

/// The blocks that the first `n` components have in a coded unit.
pub open spec fn unit_blocks(h: Seq<u8>, n: nat) -> nat
    decreases n,
{
    if n == 0 {
        0
    } else {
        unit_blocks(h, (n - 1) as nat) + factor_h(h, n - 1) as nat * factor_v(h, n - 1) as nat
    }
}

/// `a / b`, rounded up.
pub open spec fn div_up(a: nat, b: nat) -> nat {
    (a + (b - 1) as nat) / b
}

/// Is this the header of a frame of this size and component count that zune-jpeg accepts?
pub open spec fn frame_ok(h: Seq<u8>, width: u16, height: u16, components: u8) -> bool {
    &&& h.len() >= 8
    &&& h[7] == components
    &&& be_u16(h, 0) == 8 + 3 * components
    &&& h[2] == 8
    &&& be_u16(h, 3) == height
    &&& be_u16(h, 5) == width
    &&& h.len() >= 8 + 3 * components
    &&& forall|i: int| 0 <= i < components ==> #[trigger] component_ok(h, i)
}

/// The bytes of the coefficients of a frame with this header: 64 of two bytes for each
/// block of each coded unit, with each side padded to whole units. Nothing for a header
/// that does not match or that zune-jpeg does not accept.
pub open spec fn frame_bytes(h: Seq<u8>, width: u16, height: u16, components: u8) -> Option<nat> {
    if frame_ok(h, width, height, components) {
        let n = components as nat;
        Some(
            128 * (div_up(width as nat, 8 * max_h(h, n) as nat) * div_up(
                height as nat,
                8 * max_v(h, n) as nat,
            )) * unit_blocks(h, n),
        )
    } else {
        None
    }
}

/// The coefficients of a frame header, which stands behind its marker.
pub fn frame_coefficients(header: &[u8], width: u16, height: u16, components: u8) -> (r: Option<
    u64,
>)
    ensures
        match frame_bytes(header@, width, height, components) {
            Some(n) => r matches Some(v) && v == n,
            None => r is None,
        },
{
    if header.len() < 8 {
        return None;
    }
    let length: usize = 8 + 3 * components as usize;
    if header[7] != components || u16_at(header, 0) as usize != length || header[2] != 8 || u16_at(
        header,
        3,
    ) != height || u16_at(header, 5) != width || header.len() < length {
        return None;
    }
    let mut h_max: u8 = 1;
    let mut v_max: u8 = 1;
    let mut blocks: u64 = 0;
    let mut i: usize = 0;
    while i < components as usize
        invariant
            i <= components,
            header@.len() >= 8 + 3 * components,
            forall|j: int| 0 <= j < i ==> #[trigger] component_ok(header@, j),
            h_max == max_h(header@, i as nat),
            v_max == max_v(header@, i as nat),
            1 <= h_max <= 4,
            1 <= v_max <= 4,
            blocks == unit_blocks(header@, i as nat),
            blocks <= 16 * i,
        decreases components - i,
    {
        let factors: u8 = header[8 + 3 * i + 1];
        let table: u8 = header[8 + 3 * i + 2];
        let h: u8 = factors / 16;
        let v: u8 = factors % 16;
        if !(h == 1 || h == 2 || h == 4) || v < 1 || v > 4 || table > 3 {
            assert(!component_ok(header@, i as int));
            return None;
        }
        assert(1 <= h * v <= 16) by (nonlinear_arith)
            requires
                1 <= h <= 4,
                1 <= v <= 4,
        ;
        if h > h_max {
            h_max = h;
        }
        if v > v_max {
            v_max = v;
        }
        blocks = blocks + h as u64 * v as u64;
        i += 1;
    }
    let unit_w: u64 = 8 * h_max as u64;
    let unit_h: u64 = 8 * v_max as u64;
    let across: u64 = (width as u64 + (unit_w - 1)) / unit_w;
    let down: u64 = (height as u64 + (unit_h - 1)) / unit_h;
    proof {
        assert(across <= 65566) by (nonlinear_arith)
            requires
                across == (width as u64 + (unit_w - 1)) / unit_w as int,
                8 <= unit_w <= 32,
                width <= 65535,
        ;
        assert(down <= 65566) by (nonlinear_arith)
            requires
                down == (height as u64 + (unit_h - 1)) / unit_h as int,
                8 <= unit_h <= 32,
                height <= 65535,
        ;
        assert(across * down <= 65566 * 65566) by (nonlinear_arith)
            requires
                across <= 65566,
                down <= 65566,
        ;
        assert(128 * (across * down) * blocks <= 128 * (65566 * 65566) * 4080) by (nonlinear_arith)
            requires
                across * down <= 65566 * 65566,
                blocks <= 4080,
        ;
    }
    Some(128 * (across * down) * blocks)
}

/// Is this the second byte of the marker of a frame of this type?
pub open spec fn is_frame_marker(b: u8, progressive: bool) -> bool {
    if progressive {
        b == 0xC2
    } else {
        b == 0xC0 || b == 0xC1
    }
}

/// The coefficients of the frame whose marker ends at `i`, 0 where none does.
pub open spec fn bytes_at(
    b: Seq<u8>,
    i: int,
    width: u16,
    height: u16,
    components: u8,
    progressive: bool,
) -> nat {
    if b[i - 1] == 0xFF && is_frame_marker(b[i], progressive) {
        match frame_bytes(b.skip(i + 1), width, height, components) {
            Some(n) => n,
            None => 0,
        }
    } else {
        0
    }
}

/// The most coefficients of a frame whose marker ends before `n`.
pub open spec fn most_before(
    b: Seq<u8>,
    n: nat,
    width: u16,
    height: u16,
    components: u8,
    progressive: bool,
) -> nat
    decreases n,
{
    if n <= 1 {
        0
    } else {
        let m = most_before(b, (n - 1) as nat, width, height, components, progressive);
        let here = bytes_at(b, n - 1, width, height, components, progressive);
        if here > m {
            here
        } else {
            m
        }
    }
}

/// The bytes of the coefficients that zune-jpeg holds for the whole image: those of a
/// progressive file, and of a baseline file whose first scan leaves out a component. `b`
/// ends with the header of the first scan. The largest of several frame headers counts.
pub open spec fn coefficients_of(
    b: Seq<u8>,
    width: u16,
    height: u16,
    components: u8,
    progressive: bool,
) -> nat {
    if !progressive && scan_components_of(b) >= components {
        0
    } else {
        most_before(b, b.len(), width, height, components, progressive)
    }
}

/// The bytes of the coefficients that zune-jpeg holds for the whole image.
pub fn coefficient_bytes(
    to_first_scan: &[u8],
    width: u16,
    height: u16,
    components: u8,
    progressive: bool,
) -> (r: u64)
    ensures
        r == coefficients_of(to_first_scan@, width, height, components, progressive),
{
    let b: &[u8] = to_first_scan;
    if !progressive && scan_components(b) >= components {
        return 0;
    }
    let mut most: u64 = 0;
    let mut i: usize = 1;
    assert(most_before(b@, 1, width, height, components, progressive) == 0);
    while i < b.len()
        invariant
            1 <= i,
            i <= b@.len() || (b@.len() == 0 && i == 1),
            most == most_before(b@, i as nat, width, height, components, progressive),
        decreases b@.len() - i,
    {
        let marker: bool = b[i - 1] == 0xFF && (if progressive {
            b[i] == 0xC2
        } else {
            b[i] == 0xC0 || b[i] == 0xC1
        });
        if marker {
            let rest: &[u8] = &b[i + 1..b.len()];
            assert(rest@ =~= b@.skip(i + 1));
            if let Some(n) = frame_coefficients(rest, width, height, components) {
                if n > most {
                    most = n;
                }
            }
        }
        i += 1;
    }
    assert(most_before(b@, 0, width, height, components, progressive) == 0);
    most
}

} // verus!
