//! JPEG files whose layout zune-jpeg has no room for.
//!
//! zune-jpeg sizes its buffers by the sampling factors of the frame, and trusts that they
//! come in the usual order. The files for which it would leave a buffer are told apart here
//! before their pixels are decoded.
use vstd::prelude::*;
use crate::preview::codec::{JpegColor, JpegInfo};
use crate::preview::jpeg::{
    component_ok, div_up, factor_h, factor_v, frame_bytes, frame_coefficients, frame_ok, max_h, max_v,
    scan_components, scan_components_of,
};
use crate::support::bytes::{be_u16, same_bytes, u16_at};
use crate::support::text::ascii;

verus! {

/// Is this the second byte of a marker: neither a stuffed zero nor another fill byte?
pub open spec fn is_marker(b: u8) -> bool {
    b != 0 && b != 0xFF
}

/// Where the first frame header behind `at` stands, right after its marker. Bytes up to a
/// marker are passed over, and so is each other segment, by its length. There is none
/// behind the header of a scan.
pub open spec fn frame_from(b: Seq<u8>, at: int) -> Option<int>
    decreases b.len() - at,
{
    if at + 1 >= b.len() {
        None
    } else if b[at] != 0xFF || !is_marker(b[at + 1]) {
        frame_from(b, at + 1)
    } else if b[at + 1] == 0xC0 || b[at + 1] == 0xC1 || b[at + 1] == 0xC2 {
        Some(at + 2)
    } else if b[at + 1] == 0xDA || at + 4 > b.len() {
        None
    } else {
        let n = be_u16(b, at + 2);
        if n < 2 || at + 2 + n > b.len() {
            None
        } else {
            frame_from(b, at + 2 + n)
        }
    }
}

/// Where the frame header of a file stands.
pub open spec fn frame_at(b: Seq<u8>) -> Option<int> {
    frame_from(b, 2)
}

/// Finds the frame header of a file.
pub fn find_frame(b: &[u8]) -> (r: Option<usize>)
    ensures
        match frame_at(b@) {
            Some(at) => r matches Some(p) && p == at && at <= b@.len(),
            None => r is None,
        },
{
    let mut at: usize = 2;
    while b.len() >= 2 && at < b.len() - 1
        invariant
            at >= 2,
            frame_from(b@, at as int) == frame_at(b@),
        decreases b@.len() - at,
    {
        let m: u8 = b[at + 1];
        if b[at] != 0xFF || m == 0 || m == 0xFF {
            at += 1;
        } else if m == 0xC0 || m == 0xC1 || m == 0xC2 {
            return Some(at + 2);
        } else {
            if m == 0xDA || b.len() - at < 4 {
                return None;
            }
            let n: usize = u16_at(b, at + 2) as usize;
            if n < 2 || n > b.len() - at - 2 {
                return None;
            }
            at = at + 2 + n;
        }
    }
    None
}

/// Does an Adobe segment start at `i` that says that the color space is YCbCr?
pub open spec fn says_ycbcr_at(b: Seq<u8>, i: int) -> bool {
    &&& 0 <= i
    &&& i + 16 <= b.len()
    &&& b[i] == 0xFF
    &&& b[i + 1] == 0xEE
    &&& b.subrange(i + 4, i + 9) == ascii("Adobe")
    &&& b[i + 15] == 1
}

/// Does an Adobe segment behind `from` say that the color space is YCbCr?
pub open spec fn says_ycbcr(b: Seq<u8>, from: nat) -> bool {
    exists|i: int| from <= i && #[trigger] says_ycbcr_at(b, i)
}

/// Looks for an Adobe segment that says that the color space is YCbCr.
fn find_ycbcr(b: &[u8], from: usize) -> (r: bool)
    ensures
        r == says_ycbcr(b@, from as nat),
{
    let mut i: usize = from;
    while i < b.len() && b.len() - i >= 16
        invariant
            from <= i,
            forall|j: int| from <= j < i ==> !#[trigger] says_ycbcr_at(b@, j),
        decreases b@.len() - i,
    {
        if b[i] == 0xFF && b[i + 1] == 0xEE && b[i + 15] == 1 {
            let name: &[u8] = &b[i + 4..i + 9];
            if same_bytes(name, "Adobe".as_bytes()) {
                assert(says_ycbcr_at(b@, i as int));
                return true;
            }
        }
        assert(!says_ycbcr_at(b@, i as int));
        i += 1;
    }
    false
}

/// The samples in a row of component `i`, as zune-jpeg lays it out: it counts the coded
/// units by the largest factor up to this component.
pub open spec fn row_samples(h: Seq<u8>, i: int, width: u16) -> nat {
    8 * factor_h(h, i) as nat * div_up(width as nat, 8 * max_h(h, (i + 1) as nat) as nat)
}

/// The samples in a row of component `i` of `n`, as they are coded.
pub open spec fn coded_samples(h: Seq<u8>, i: int, n: nat, width: u16) -> nat {
    8 * factor_h(h, i) as nat * div_up(width as nat, 8 * max_h(h, n) as nat)
}

/// How many columns zune-jpeg makes of one of component `i`.
pub open spec fn ratio_h(h: Seq<u8>, i: int, n: nat) -> int {
    max_h(h, n) as int / factor_h(h, i) as int
}

/// How many rows zune-jpeg makes of one of component `i`.
pub open spec fn ratio_v(h: Seq<u8>, i: int, n: nat) -> int {
    max_v(h, n) as int / factor_v(h, i) as int
}

/// Does a component have rows that are doubled, with columns that are kept or doubled?
pub open spec fn doubles_rows(h: Seq<u8>, n: nat) -> bool {
    exists|i: int|
        0 <= i < n && #[trigger] ratio_v(h, i, n) == 2 && (ratio_h(h, i, n) == 1 || ratio_h(
            h,
            i,
            n,
        ) == 2)
}

/// Do two rows of each component that is doubled both ways fit in one of the first
/// component?
pub open spec fn doubled_fits(h: Seq<u8>, n: nat, width: u16) -> bool {
    forall|i: int|
        0 <= i < n && #[trigger] ratio_v(h, i, n) == 2 && ratio_h(h, i, n) == 2 ==> 2 * row_samples(
            h,
            i,
            width,
        ) <= row_samples(h, 0, width)
}

/// Does row of blocks `k` end in the plane, if it starts there?
pub open spec fn block_row_fits(k: nat, v: nat, row: nat, plane: nat) -> bool {
    (k * v) * row < plane ==> (k * v) * row + row <= plane
}

/// Does each row of blocks of component `i` that starts in its plane end there? A plane has
/// the coded samples, in rows that are as long as zune-jpeg lays them out.
pub open spec fn blocks_fit(h: Seq<u8>, i: int, n: nat, width: u16, height: u16) -> bool {
    let v = factor_v(h, i) as nat;
    let row = row_samples(h, i, width);
    let down = div_up(height as nat, 8 * max_v(h, n) as nat);
    let plane = coded_samples(h, i, n, width) * (v * down);
    forall|k: nat| k < down ==> #[trigger] block_row_fits(k, v, row, plane)
}

/// Does zune-jpeg hold the whole image before it makes pixels of it? It does with a
/// progressive file, and with a baseline file whose first scan leaves out a component.
/// `head` ends with the header of the first scan.
pub open spec fn holds_image(head: Seq<u8>, info: JpegInfo) -> bool {
    info.progressive || scan_components_of(head) < info.components
}

/// Does zune-jpeg have room for a file with this frame header?
///
/// - Where it holds the whole image, memory for it can be had, two rows of a component that
///   is doubled both ways are put in one of the first, and each row of blocks of a baseline
///   file stays in its plane.
/// - A progressive file of less than three components is not read as YCbCr, which is what
///   YCCK is taken for where components are missing.
/// - A progressive file of four components whose rows are doubled does not come to be read
///   as YCbCr, which leaves the fourth without samples.
/// - A gray baseline file with other factors than one has sides that can be rounded up to
///   whole blocks in 16 bits.
pub open spec fn has_room(b: Seq<u8>, h: Seq<u8>, info: JpegInfo) -> bool {
    let head = b.take(info.scan_end as int);
    let n = info.components as nat;
    &&& holds_image(head, info) ==> (frame_bytes(h, info.width, info.height, info.components)
        matches Some(held) && held <= isize::MAX)
    &&& holds_image(head, info) ==> doubled_fits(h, n, info.width)
    &&& holds_image(head, info) && !info.progressive ==> forall|i: int|
        0 <= i < n ==> #[trigger] blocks_fit(h, i, n, info.width, info.height)
    &&& info.progressive && info.color == JpegColor::Ycck ==> info.components >= 3
    &&& info.progressive && info.components == 4 && doubles_rows(h, n) ==> info.color
        != JpegColor::Ycbcr && !says_ycbcr(b, info.scan_end as nat)
    &&& !info.progressive && info.color == JpegColor::Luma && (max_h(h, n) != 1 || max_v(h, n)
        != 1) ==> info.width <= 65528 && info.height <= 65528
}

/// Does zune-jpeg have room for a file with these headers?
pub open spec fn decodable(b: Seq<u8>, info: JpegInfo) -> bool {
    let head = b.take(info.scan_end as int);
    match frame_at(head) {
        Some(at) => {
            let h = head.skip(at);
            frame_ok(h, info.width, info.height, info.components) && has_room(b, h, info)
        },
        None => false,
    }
}

/// Are the first `n` components ones that zune-jpeg accepts?
spec fn components_ok(h: Seq<u8>, n: nat) -> bool {
    &&& n <= 255
    &&& h.len() >= 8 + 3 * n
    &&& forall|i: int| 0 <= i < n ==> #[trigger] component_ok(h, i)
}

/// The largest factors of the first components.
fn largest_factors(h: &[u8], n: usize) -> (r: (u8, u8))
    requires
        components_ok(h@, n as nat),
    ensures
        r.0 == max_h(h@, n as nat),
        r.1 == max_v(h@, n as nat),
        1 <= r.0 <= 4,
        1 <= r.1 <= 4,
{
    let mut across: u8 = 1;
    let mut down: u8 = 1;
    let mut i: usize = 0;
    while i < n
        invariant
            i <= n,
            components_ok(h@, n as nat),
            across == max_h(h@, i as nat),
            down == max_v(h@, i as nat),
            1 <= across <= 4,
            1 <= down <= 4,
        decreases n - i,
    {
        assert(component_ok(h@, i as int));
        let factors: u8 = h[8 + 3 * i + 1];
        if factors / 16 > across {
            across = factors / 16;
        }
        if factors % 16 > down {
            down = factors % 16;
        }
        i += 1;
    }
    (across, down)
}

/// The coded units along a side.
fn units(side: u16, factor: u8) -> (r: u64)
    requires
        1 <= factor <= 4,
    ensures
        r == div_up(side as nat, 8 * factor as nat),
        r <= 8192,
{
    let unit: u64 = 8 * factor as u64;
    assert(unit == 8 || unit == 16 || unit == 24 || unit == 32);
    (side as u64 + (unit - 1)) / unit
}

/// The samples in a row of a component, where `largest` is the factor that the coded units
/// are counted by.
fn row_length(h: &[u8], i: usize, largest: u8, width: u16) -> (r: u64)
    requires
        components_ok(h@, (i + 1) as nat),
        1 <= largest <= 4,
    ensures
        r == 8 * factor_h(h@, i as int) as nat * div_up(width as nat, 8 * largest as nat),
        r <= 262144,
{
    assert(component_ok(h@, i as int));
    let f: u64 = (h[8 + 3 * i + 1] / 16) as u64;
    let count: u64 = units(width, largest);
    assert(8 * f * count <= 8 * 4 * 8192) by (nonlinear_arith)
        requires
            f <= 4,
            count <= 8192,
    ;
    8 * f * count
}

/// Tests that two rows of each component that is doubled both ways fit in one of the first.
fn fits_doubled(h: &[u8], n: usize, width: u16) -> (r: bool)
    requires
        n >= 1,
        components_ok(h@, n as nat),
    ensures
        r == doubled_fits(h@, n as nat, width),
{
    let (across, down) = largest_factors(h, n);
    let (first, _) = largest_factors(h, 1);
    let room: u64 = row_length(h, 0, first, width);
    let mut i: usize = 0;
    while i < n
        invariant
            i <= n,
            components_ok(h@, n as nat),
            across == max_h(h@, n as nat),
            down == max_v(h@, n as nat),
            room == row_samples(h@, 0, width),
            forall|j: int|
                0 <= j < i && #[trigger] ratio_v(h@, j, n as nat) == 2 && ratio_h(h@, j, n as nat)
                    == 2 ==> 2 * row_samples(h@, j, width) <= row_samples(h@, 0, width),
        decreases n - i,
    {
        assert(component_ok(h@, i as int));
        let factors: u8 = h[8 + 3 * i + 1];
        if across / (factors / 16) == 2 && down / (factors % 16) == 2 {
            let (largest, _) = largest_factors(h, i + 1);
            if 2 * row_length(h, i, largest, width) > room {
                assert(ratio_v(h@, i as int, n as nat) == 2 && ratio_h(h@, i as int, n as nat) == 2);
                return false;
            }
        }
        i += 1;
    }
    true
}

/// Looks for a component whose rows are doubled, with columns that are kept or doubled.
fn find_doubled_rows(h: &[u8], n: usize) -> (r: bool)
    requires
        components_ok(h@, n as nat),
    ensures
        r == doubles_rows(h@, n as nat),
{
    let (across, down) = largest_factors(h, n);
    let mut i: usize = 0;
    while i < n
        invariant
            i <= n,
            components_ok(h@, n as nat),
            across == max_h(h@, n as nat),
            down == max_v(h@, n as nat),
            forall|j: int|
                0 <= j < i && #[trigger] ratio_v(h@, j, n as nat) == 2 ==> ratio_h(h@, j, n as nat)
                    != 1 && ratio_h(h@, j, n as nat) != 2,
        decreases n - i,
    {
        assert(component_ok(h@, i as int));
        let factors: u8 = h[8 + 3 * i + 1];
        let columns: u8 = across / (factors / 16);
        if down / (factors % 16) == 2 && (columns == 1 || columns == 2) {
            assert(ratio_v(h@, i as int, n as nat) == 2);
            return true;
        }
        i += 1;
    }
    false
}

/// Tests that each row of blocks of a component that starts in its plane ends there.
#[verifier::loop_isolation(false)]
fn fits_blocks(h: &[u8], i: usize, n: usize, width: u16, height: u16) -> (r: bool)
    requires
        i < n,
        components_ok(h@, n as nat),
    ensures
        r == blocks_fit(h@, i as int, n as nat, width, height),
{
    assert(component_ok(h@, i as int));
    let v: u64 = (h[8 + 3 * i + 1] % 16) as u64;
    let (across, tall) = largest_factors(h, n);
    let (largest, _) = largest_factors(h, i + 1);
    let row: u64 = row_length(h, i, largest, width);
    let down: u64 = units(height, tall);
    let coded: u64 = row_length(h, i, across, width);
    assert(v * down <= 4 * 8192) by (nonlinear_arith)
        requires
            v <= 4,
            down <= 8192,
    ;
    assert(coded * (v * down) <= 262144 * 32768) by (nonlinear_arith)
        requires
            coded <= 262144,
            v * down <= 32768,
    ;
    let plane: u64 = coded * (v * down);
    let mut k: u64 = 0;
    while k < down
        invariant
            k <= down <= 8192,
            v <= 4,
            row <= 262144,
            forall|j: nat|
                j < k ==> #[trigger] block_row_fits(j, v as nat, row as nat, plane as nat),
        decreases down - k,
    {
        assert(k * v <= 32768) by (nonlinear_arith)
            requires
                k <= 8192,
                v <= 4,
        ;
        assert((k * v) * row <= 32768 * 262144) by (nonlinear_arith)
            requires
                k * v <= 32768,
                row <= 262144,
        ;
        let at: u64 = k * v * row;
        if at < plane && at + row > plane {
            proof {
                let across_all = coded_samples(h@, i as int, n as nat, width);
                let count = div_up(height as nat, 8 * max_v(h@, n as nat) as nat);
                assert(plane == across_all * (factor_v(h@, i as int) as nat * count));
                assert(row == row_samples(h@, i as int, width));
                assert(!block_row_fits(k as nat, v as nat, row as nat, plane as nat));
            }
            return false;
        }
        k += 1;
    }
    true
}

/// Tests whether zune-jpeg has room for a file with these headers.
#[verifier::loop_isolation(false)]
pub fn is_decodable(bytes: &[u8], info: &JpegInfo) -> (r: bool)
    requires
        info.scan_end <= bytes@.len(),
    ensures
        r == decodable(bytes@, *info),
{
    let head: &[u8] = &bytes[0..info.scan_end];
    assert(head@ =~= bytes@.take(info.scan_end as int));
    let at: usize = match find_frame(head) {
        Some(at) => at,
        None => {
            return false;
        },
    };
    let h: &[u8] = &head[at..head.len()];
    assert(h@ =~= head@.skip(at as int));
    let held: u64 = match frame_coefficients(h, info.width, info.height, info.components) {
        Some(held) => held,
        None => {
            return false;
        },
    };
    let n: usize = info.components as usize;
    assert(components_ok(h@, n as nat));
    if info.progressive || scan_components(head) < info.components {
        if held as u128 > isize::MAX as u128 || (n >= 1 && !fits_doubled(h, n, info.width)) {
            return false;
        }
        if !info.progressive {
            let mut i: usize = 0;
            while i < n
                invariant
                    i <= n,
                    components_ok(h@, n as nat),
                    forall|j: int|
                        0 <= j < i ==> #[trigger] blocks_fit(
                            h@,
                            j,
                            n as nat,
                            info.width,
                            info.height,
                        ),
                decreases n - i,
            {
                if !fits_blocks(h, i, n, info.width, info.height) {
                    assert(!blocks_fit(h@, i as int, n as nat, info.width, info.height));
                    return false;
                }
                i += 1;
            }
        }
    }
    if info.progressive {
        if info.color == JpegColor::Ycck && n < 3 {
            return false;
        }
        return n != 4 || !find_doubled_rows(h, n) || (info.color != JpegColor::Ycbcr
            && !find_ycbcr(bytes, info.scan_end));
    }
    let (across, down) = largest_factors(h, n);
    info.color != JpegColor::Luma || (across == 1 && down == 1) || (info.width <= 65528
        && info.height <= 65528)
}

} // verus!
