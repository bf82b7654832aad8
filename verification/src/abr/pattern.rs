//! The `patt` block: the texture patterns of a pack.
//!
//! A record is a length and that many bytes, padded to four bytes: a header (version,
//! image mode, size, name, id), in indexed mode a palette, a list head and the channels.
//! Grayscale, indexed and RGB patterns become one plane of luma.
use vstd::prelude::*;
use vstd::utf8::{decode_utf8, valid_utf8};
use crate::abr::descriptor::{unicode_text, units_at, without_nul};
use crate::abr::limits::{MAX_DIMENSION, MAX_NAME_CODE_UNITS};
use crate::abr::rle::{decode_rle, rle_of};
use crate::abr::samp::padded;
use crate::abr::types::{
    AbrPattern, DroppedPatternDetail, DroppedPatternReason, DroppedPatternView, PatternView,
    UnreadablePattChunk,
};
use crate::support::bytes::{be_u32, copy_bytes, fits, u32_at};
use crate::support::double::{round_to_double, rounded, rounded_is_near, ulp_is_small};
use crate::support::text::{utf16_text, utf8_strict, views};

verus! {

/// The double nearest to 0.299, in units of 2^-54.
pub const RED_WEIGHT: u64 = 5386305154335113;

/// The double nearest to 0.587, in units of 2^-52.
pub const GREEN_WEIGHT: u64 = 2643612981266481;

/// The double nearest to 0.114, in units of 2^-56.
pub const BLUE_WEIGHT: u64 = 8214565720323785;

/// The sum `0.299 r + 0.587 g + 0.114 b` in double arithmetic, in units of 2^-56.
pub open spec fn luma_sum(r: u8, g: u8, b: u8) -> nat {
    let red = 4 * rounded((r * RED_WEIGHT) as nat);
    let green = 16 * rounded((g * GREEN_WEIGHT) as nat);
    let blue = rounded((b * BLUE_WEIGHT) as nat);
    rounded(rounded(red + green) + blue)
}

/// The Rec. 601 luma of a color: the weighted sum, rounded to an integer.
pub open spec fn luma_of(r: u8, g: u8, b: u8) -> u8 {
    ((luma_sum(r, g, b) + 0x80_0000_0000_0000) / 0x100_0000_0000_0000) as u8
}

proof fn weight_is_near(v: u8, weight: nat)
    requires
        weight < 0x20_0000_0000_0000,
    ensures
        v * weight <= 255 * weight,
        v * weight - 0x800 <= rounded((v * weight) as nat) <= v * weight + 0x800,
{
    assert(v * weight <= 255 * weight) by (nonlinear_arith)
        requires
            v <= 255,
    ;
    rounded_is_near((v * weight) as nat);
    ulp_is_small((v * weight) as nat);
}

proof fn sum_is_near(x: nat)
    requires
        x < 0x1_0000_0000_0000_0000,
    ensures
        x - 0x1000 <= rounded(x) <= x + 0x1000,
{
    rounded_is_near(x);
    ulp_is_small(x);
}

proof fn luma_sum_is_near(r: u8, g: u8, b: u8)
    ensures
        rounded((r * RED_WEIGHT) as nat) < 0x4000_0000_0000_0000,
        rounded((g * GREEN_WEIGHT) as nat) < 0x1000_0000_0000_0000,
        rounded((b * BLUE_WEIGHT) as nat) < 0x2000_0000_0000_0000,
        4 * rounded((r * RED_WEIGHT) as nat) + 16 * rounded((g * GREEN_WEIGHT) as nat)
            < 0xF000_0000_0000_0000,
        rounded(
            4 * rounded((r * RED_WEIGHT) as nat) + 16 * rounded((g * GREEN_WEIGHT) as nat),
        ) + rounded((b * BLUE_WEIGHT) as nat) < 0xFF80_0000_0000_0000,
        luma_sum(r, g, b) < 0xFF80_0000_0000_0000,
        (299 * r + 587 * g + 114 * b) * 0x100_0000_0000_0000 - 100_000_000 <= 1000 * luma_sum(
            r,
            g,
            b,
        ) <= (299 * r + 587 * g + 114 * b) * 0x100_0000_0000_0000 + 100_000_000,
{
    weight_is_near(r, RED_WEIGHT as nat);
    weight_is_near(g, GREEN_WEIGHT as nat);
    weight_is_near(b, BLUE_WEIGHT as nat);
    let red = rounded((r * RED_WEIGHT) as nat);
    let green = rounded((g * GREEN_WEIGHT) as nat);
    let blue = rounded((b * BLUE_WEIGHT) as nat);
    assert(r * RED_WEIGHT == r * 5386305154335113);
    assert(g * GREEN_WEIGHT == g * 2643612981266481);
    assert(b * BLUE_WEIGHT == b * 8214565720323785);
    sum_is_near(4 * red + 16 * green);
    sum_is_near(rounded(4 * red + 16 * green) + blue);
}

/// The luma is an integer nearest to `0.299 r + 0.587 g + 0.114 b`.
pub proof fn luma_is_nearest(r: u8, g: u8, b: u8)
    ensures
        299 * r + 587 * g + 114 * b - 500 <= 1000 * luma_of(r, g, b) <= 299 * r + 587 * g + 114 * b
            + 500,
{
    luma_sum_is_near(r, g, b);
}

/// The luma of a gray is that gray.
pub proof fn luma_of_gray(v: u8)
    ensures
        luma_of(v, v, v) == v,
{
    luma_is_nearest(v, v, v);
    luma_sum_is_near(v, v, v);
}

/// The Rec. 601 luma of a color. Only a sum halfway between two integers depends on how
/// doubles round.
pub fn luma(r: u8, g: u8, b: u8) -> (y: u8)
    ensures
        y == luma_of(r, g, b),
{
    proof {
        luma_is_nearest(r, g, b);
        luma_sum_is_near(r, g, b);
    }
    let weighted: u32 = 299 * r as u32 + 587 * g as u32 + 114 * b as u32;
    if weighted % 1000 != 500 {
        return ((weighted + 500) / 1000) as u8;
    }
    let red: u128 = 4 * round_to_double(r as u128 * RED_WEIGHT as u128);
    let green: u128 = 16 * round_to_double(g as u128 * GREEN_WEIGHT as u128);
    let blue: u128 = round_to_double(b as u128 * BLUE_WEIGHT as u128);
    let sum: u128 = round_to_double(round_to_double(red + green) + blue);
    ((sum + 0x80_0000_0000_0000) / 0x100_0000_0000_0000) as u8
}

/// The header of a record.
pub struct HeaderView {
    pub mode: u32,
    pub name: Seq<char>,
    pub id: Seq<char>,
}

/// The header that a record starts with and the position behind it.
///
/// The size in the header is not kept: a pattern has the size of its channels.
pub open spec fn record_header(d: Seq<u8>) -> Option<(HeaderView, nat)> {
    if !fits(d, 0, 16) {
        None
    } else {
        let n = be_u32(d, 12) as nat;
        if n > MAX_NAME_CODE_UNITS || !fits(d, 16, 2 * n + 1) {
            None
        } else {
            let at = 16 + 2 * n;
            let len = d[at as int] as nat;
            let id = d.subrange(at as int + 1, (at + 1 + len) as int);
            if !fits(d, at + 1, len) || !valid_utf8(id) {
                None
            } else {
                Some(
                    (
                        HeaderView {
                            mode: be_u32(d, 4),
                            name: utf16_text(without_nul(units_at(d, 16, n))),
                            id: decode_utf8(id),
                        },
                        at + 1 + len,
                    ),
                )
            }
        }
    }
}

/// The plane of a channel: raw or PackBits.
pub open spec fn channel_plane(compression: u8, data: Seq<u8>, width: u32, height: u32) -> Option<
    Seq<u8>,
> {
    if compression == 0 {
        if data.len() < width * height {
            None
        } else {
            Some(data.take(width * height))
        }
    } else if compression == 1 {
        match rle_of(data, height as nat, width as nat) {
            Ok(plane) => Some(plane),
            Err(_) => None,
        }
    } else {
        None
    }
}

/// The channels of a record: their planes, and the size of the last one.
pub struct Channels {
    pub planes: Seq<Seq<u8>>,
    pub width: u32,
    pub height: u32,
}

/// The channels in the slots from `p` on, behind those in `c`. A slot is a 0, or a number,
/// a length of at least 23 and that many bytes: a depth, a rectangle, a depth, a
/// compression and the plane.
pub open spec fn slots_from(d: Seq<u8>, p: nat, c: Channels) -> Option<Channels>
    decreases d.len() - p,
{
    if !fits(d, p, 4) {
        Some(c)
    } else if be_u32(d, p as int) == 0 {
        slots_from(d, p + 4, c)
    } else if !fits(d, p + 4, 4) {
        None
    } else {
        let at = p as int + 8;
        let len = be_u32(d, p as int + 4) as nat;
        let width = be_u32(d, at + 16) - be_u32(d, at + 8);
        let height = be_u32(d, at + 12) - be_u32(d, at + 4);
        if len < 23 || !fits(d, p + 8, len) {
            None
        } else if !(0 <= width <= MAX_DIMENSION && 0 <= height <= MAX_DIMENSION) {
            None
        } else {
            match channel_plane(
                d[at + 22],
                d.subrange(at + 23, at + len),
                width as u32,
                height as u32,
            ) {
                Some(plane) => slots_from(
                    d,
                    p + 8 + len,
                    Channels {
                        planes: c.planes.push(plane),
                        width: width as u32,
                        height: height as u32,
                    },
                ),
                None => None,
            }
        }
    }
}

/// Is `mode` grayscale, indexed or RGB?
pub open spec fn supported_mode(mode: u32) -> bool {
    mode == 1 || mode == 2 || mode == 3
}

/// One plane of luma from the channels of a record: the first channel of a grayscale
/// pattern, or of an RGB pattern with one channel; the palette's colors of an indexed
/// pattern; the first three channels of an RGB pattern with more.
pub open spec fn gray_of(mode: u32, palette: Seq<u8>, c: Channels) -> Option<Seq<u8>> {
    let n = (c.width * c.height) as nat;
    let planes = c.planes;
    if mode == 1 || (mode == 3 && planes.len() == 1) {
        if planes.len() >= 1 && planes[0].len() >= n {
            Some(planes[0].take(n as int))
        } else {
            None
        }
    } else if mode == 2 {
        if planes.len() >= 1 && planes[0].len() >= n {
            Some(
                Seq::new(
                    n,
                    |i: int|
                        luma_of(
                            palette[3 * planes[0][i]],
                            palette[3 * planes[0][i] + 1],
                            palette[3 * planes[0][i] + 2],
                        ),
                ),
            )
        } else {
            None
        }
    } else if mode == 3 {
        if planes.len() >= 3 && planes[0].len() >= n && planes[1].len() >= n && planes[2].len()
            >= n {
            Some(Seq::new(n, |i: int| luma_of(planes[0][i], planes[1][i], planes[2][i])))
        } else {
            None
        }
    } else {
        None
    }
}

/// The pattern of a record whose body starts at `p`. In indexed mode the body starts with
/// a palette of 768 bytes and four bytes more. A list head of 28 bytes precedes the slots.
pub open spec fn record_pattern(d: Seq<u8>, h: HeaderView, p: nat) -> Option<PatternView> {
    let q = if h.mode == 2 {
        p + 772
    } else {
        p
    };
    if !fits(d, q, 28) {
        None
    } else {
        match slots_from(d, q + 28, Channels { planes: seq![], width: 0, height: 0 }) {
            Some(c) => match gray_of(h.mode, d.subrange(p as int, p as int + 768), c) {
                Some(gray) => Some(
                    PatternView {
                        id: h.id,
                        name: h.name,
                        width: c.width,
                        height: c.height,
                        mode: h.mode,
                        gray,
                    },
                ),
                None => None,
            },
            None => None,
        }
    }
}

/// What became of the records of a block.
pub struct PattView {
    pub patterns: Seq<PatternView>,
    pub dropped: Seq<DroppedPatternView>,
    pub unreadable: Seq<UnreadablePattChunk>,
}

/// What became of one more record: it is a pattern, or it is dropped, or its header was
/// not read.
pub open spec fn with_record(
    record: Seq<u8>,
    block_index: usize,
    offset: nat,
    index: nat,
    out: PattView,
) -> PattView {
    match record_header(record) {
        Some((h, p)) => match record_pattern(record, h, p) {
            Some(pattern) => PattView { patterns: out.patterns.push(pattern), ..out },
            None => PattView {
                dropped: out.dropped.push(
                    DroppedPatternView {
                        record_index: index,
                        id: h.id,
                        mode: h.mode,
                        reason: if supported_mode(h.mode) {
                            DroppedPatternReason::Undecodable
                        } else {
                            DroppedPatternReason::UnsupportedImageMode(h.mode)
                        },
                    },
                ),
                ..out
            },
        },
        None => PattView {
            unreadable: out.unreadable.push(
                UnreadablePattChunk {
                    block_index,
                    offset: offset as usize,
                    declared_length: record.len() as usize,
                },
            ),
            ..out
        },
    }
}

/// What became of the records from `offset` on, of which the first has number `index`. A
/// length that is too large ends the block.
pub open spec fn records_from(
    d: Seq<u8>,
    block_index: usize,
    offset: nat,
    index: nat,
    out: PattView,
) -> PattView
    decreases d.len() + 4 - offset,
{
    if !fits(d, offset, 4) {
        out
    } else {
        let end = offset + 4 + be_u32(d, offset as int) as nat;
        if end > d.len() {
            out
        } else {
            records_from(
                d,
                block_index,
                padded(end),
                index + 1,
                with_record(
                    d.subrange(offset as int + 4, end as int),
                    block_index,
                    offset,
                    index,
                    out,
                ),
            )
        }
    }
}

/// What became of the records of a block, of which the first has number `index`.
pub open spec fn patt_of(d: Seq<u8>, block_index: usize, index: nat) -> PattView {
    records_from(
        d,
        block_index,
        0,
        index,
        PattView { patterns: seq![], dropped: seq![], unreadable: seq![] },
    )
}

/// The header of a record.
#[derive(Debug)]
pub struct RecordHeader {
    pub mode: u32,
    pub name: String,
    pub id: String,
}

impl View for RecordHeader {
    type V = HeaderView;

    open spec fn view(&self) -> HeaderView {
        HeaderView { mode: self.mode, name: self.name@, id: self.id@ }
    }
}

/// The header that a record starts with, and the position behind it.
pub fn read_record_header(record: &[u8]) -> (r: Option<(RecordHeader, usize)>)
    ensures
        match record_header(record@) {
            Some((h, p)) => r matches Some(v) && v.0@ == h && v.1 == p && p <= record@.len(),
            None => r is None,
        },
{
    if record.len() < 16 {
        return None;
    }
    let mode: u32 = u32_at(record, 4);
    let n: usize = u32_at(record, 12) as usize;
    if n > MAX_NAME_CODE_UNITS || record.len() - 16 < 2 * n + 1 {
        return None;
    }
    let at: usize = 16 + 2 * n;
    let bytes: &[u8] = &record[16..at];
    assert(units_at(bytes@, 0, bytes@.len() / 2) =~= units_at(record@, 16, n as nat));
    let name: String = unicode_text(bytes);
    let len: usize = record[at] as usize;
    if record.len() - (at + 1) < len {
        return None;
    }
    let end: usize = at + 1 + len;
    match utf8_strict(copy_bytes(&record[at + 1..end])) {
        Some(id) => Some((RecordHeader { mode, name, id }, end)),
        None => None,
    }
}

fn decode_channel(compression: u8, data: &[u8], width: u32, height: u32) -> (r: Option<Vec<u8>>)
    requires
        width <= MAX_DIMENSION,
        height <= MAX_DIMENSION,
    ensures
        match channel_plane(compression, data@, width, height) {
            Some(plane) => r matches Some(v) && v@ == plane,
            None => r is None,
        },
{
    proof {
        assert(width * height <= 16384 * 16384) by (nonlinear_arith)
            requires
                width <= 16384,
                height <= 16384,
        ;
        assert(height * width == width * height) by (nonlinear_arith);
    }
    let expected: usize = width as usize * height as usize;
    if compression == 0 {
        if data.len() < expected {
            return None;
        }
        let front: &[u8] = &data[0..expected];
        assert(front@ =~= data@.take(expected as int));
        Some(copy_bytes(front))
    } else if compression == 1 {
        assert(width * 1 == width);
        assert(expected == height * width * 1);
        match decode_rle(data, height as usize, width as usize, 1, expected) {
            Ok(plane) => Some(plane),
            Err(_) => None,
        }
    } else {
        None
    }
}

/// The channels of a record.
struct ChannelPlanes {
    planes: Vec<Vec<u8>>,
    width: u32,
    height: u32,
}

impl View for ChannelPlanes {
    type V = Channels;

    closed spec fn view(&self) -> Channels {
        Channels { planes: views(self.planes@), width: self.width, height: self.height }
    }
}

fn read_channels(record: &[u8], start: usize) -> (r: Option<ChannelPlanes>)
    requires
        start <= record@.len(),
    ensures
        match slots_from(
            record@,
            start as nat,
            Channels { planes: seq![], width: 0, height: 0 },
        ) {
            Some(c) => r matches Some(v) && v@ == c && v.width <= MAX_DIMENSION && v.height
                <= MAX_DIMENSION,
            None => r is None,
        },
{
    let mut c: ChannelPlanes = ChannelPlanes { planes: Vec::new(), width: 0, height: 0 };
    let mut p: usize = start;
    assert(views(c.planes@) =~= seq![]);
    while record.len() - p >= 4
        invariant
            p <= record@.len(),
            c.width <= MAX_DIMENSION,
            c.height <= MAX_DIMENSION,
            slots_from(record@, start as nat, Channels { planes: seq![], width: 0, height: 0 })
                == slots_from(record@, p as nat, c@),
        decreases record@.len() - p,
    {
        if u32_at(record, p) == 0 {
            p += 4;
            continue;
        }
        if record.len() - p < 8 {
            return None;
        }
        let len: usize = u32_at(record, p + 4) as usize;
        let at: usize = p + 8;
        if len < 23 || record.len() - at < len {
            return None;
        }
        let top: u32 = u32_at(record, at + 4);
        let left: u32 = u32_at(record, at + 8);
        let bottom: u32 = u32_at(record, at + 12);
        let right: u32 = u32_at(record, at + 16);
        let compression: u8 = record[at + 22];
        if right < left || bottom < top || right - left > MAX_DIMENSION || bottom - top
            > MAX_DIMENSION {
            return None;
        }
        let width: u32 = right - left;
        let height: u32 = bottom - top;
        match decode_channel(compression, &record[at + 23..at + len], width, height) {
            Some(plane) => {
                let ghost before = c.planes@;
                c.planes.push(plane);
                c.width = width;
                c.height = height;
                assert(views(c.planes@) =~= views(before).push(plane@));
            },
            None => {
                return None;
            },
        }
        p = at + len;
    }
    Some(c)
}

fn indexed_gray(palette: &[u8], indices: &Vec<u8>, n: usize) -> (r: Vec<u8>)
    requires
        palette@.len() == 768,
        n <= indices@.len(),
    ensures
        r@ == Seq::new(
            n as nat,
            |i: int|
                luma_of(
                    palette@[3 * indices@[i]],
                    palette@[3 * indices@[i] + 1],
                    palette@[3 * indices@[i] + 2],
                ),
        ),
{
    let mut gray: Vec<u8> = Vec::with_capacity(n);
    let mut i: usize = 0;
    while i < n
        invariant
            i <= n <= indices@.len(),
            palette@.len() == 768,
            gray@ =~= Seq::new(
                i as nat,
                |i: int|
                    luma_of(
                        palette@[3 * indices@[i]],
                        palette@[3 * indices@[i] + 1],
                        palette@[3 * indices@[i] + 2],
                    ),
            ),
        decreases n - i,
    {
        let base: usize = 3 * indices[i] as usize;
        gray.push(luma(palette[base], palette[base + 1], palette[base + 2]));
        i += 1;
    }
    gray
}

fn rgb_gray(red: &Vec<u8>, green: &Vec<u8>, blue: &Vec<u8>, n: usize) -> (r: Vec<u8>)
    requires
        n <= red@.len(),
        n <= green@.len(),
        n <= blue@.len(),
    ensures
        r@ == Seq::new(n as nat, |i: int| luma_of(red@[i], green@[i], blue@[i])),
{
    let mut gray: Vec<u8> = Vec::with_capacity(n);
    let mut i: usize = 0;
    while i < n
        invariant
            i <= n,
            n <= red@.len(),
            n <= green@.len(),
            n <= blue@.len(),
            gray@ =~= Seq::new(i as nat, |i: int| luma_of(red@[i], green@[i], blue@[i])),
        decreases n - i,
    {
        gray.push(luma(red[i], green[i], blue[i]));
        i += 1;
    }
    gray
}

fn front_of(plane: &Vec<u8>, n: usize) -> (r: Vec<u8>)
    requires
        n <= plane@.len(),
    ensures
        r@ == plane@.take(n as int),
{
    let front: &[u8] = &plane.as_slice()[0..n];
    assert(front@ =~= plane@.take(n as int));
    copy_bytes(front)
}

fn resolve_gray(mode: u32, palette: &[u8], c: &ChannelPlanes) -> (r: Option<Vec<u8>>)
    requires
        mode == 2 ==> palette@.len() == 768,
        c.width <= MAX_DIMENSION,
        c.height <= MAX_DIMENSION,
    ensures
        match gray_of(mode, palette@, c@) {
            Some(gray) => r matches Some(v) && v@ == gray,
            None => r is None,
        },
{
    proof {
        assert(c.width * c.height <= 16384 * 16384) by (nonlinear_arith)
            requires
                c.width <= 16384,
                c.height <= 16384,
        ;
    }
    let n: usize = c.width as usize * c.height as usize;
    let planes: &Vec<Vec<u8>> = &c.planes;
    assert(c@.planes.len() == planes@.len());
    if planes.len() == 0 {
        return None;
    }
    assert(c@.planes[0] == planes@[0]@);
    if planes[0].len() < n {
        return None;
    }
    if mode == 1 || (mode == 3 && planes.len() == 1) {
        return Some(front_of(&planes[0], n));
    }
    if mode == 2 {
        let gray: Vec<u8> = indexed_gray(palette, &planes[0], n);
        assert(gray@ =~= gray_of(mode, palette@, c@)->0);
        return Some(gray);
    }
    if mode == 3 && planes.len() >= 3 {
        assert(c@.planes[1] == planes@[1]@);
        assert(c@.planes[2] == planes@[2]@);
        if planes[1].len() < n || planes[2].len() < n {
            return None;
        }
        let gray: Vec<u8> = rgb_gray(&planes[0], &planes[1], &planes[2], n);
        assert(gray@ =~= gray_of(mode, palette@, c@)->0);
        return Some(gray);
    }
    None
}

/// The pattern of a record whose body starts at `start`.
pub fn parse_record_body(record: &[u8], start: usize, header: &RecordHeader) -> (r: Option<
    AbrPattern,
>)
    requires
        start <= record@.len(),
    ensures
        match record_pattern(record@, header@, start as nat) {
            Some(pattern) => r matches Some(v) && v@ == pattern,
            None => r is None,
        },
{
    let mut q: usize = start;
    if header.mode == 2 {
        if record.len() - start < 772 {
            return None;
        }
        q = start + 772;
    }
    if record.len() - q < 28 {
        return None;
    }
    let palette: &[u8] = if header.mode == 2 {
        &record[start..start + 768]
    } else {
        &record[start..start]
    };
    match read_channels(record, q + 28) {
        Some(c) => match resolve_gray(header.mode, palette, &c) {
            Some(gray) => Some(
                AbrPattern {
                    id: header.id.clone(),
                    name: header.name.clone(),
                    width: c.width,
                    height: c.height,
                    mode: header.mode,
                    gray,
                },
            ),
            None => None,
        },
        None => None,
    }
}

/// Why a record with this header was dropped.
pub fn drop_detail(record_index: usize, header: RecordHeader) -> (r: DroppedPatternDetail)
    ensures
        r@ == (DroppedPatternView {
            record_index: record_index as nat,
            id: header.id@,
            mode: header.mode,
            reason: if supported_mode(header.mode) {
                DroppedPatternReason::Undecodable
            } else {
                DroppedPatternReason::UnsupportedImageMode(header.mode)
            },
        }),
{
    let reason: DroppedPatternReason = if header.mode == 1 || header.mode == 2 || header.mode == 3 {
        DroppedPatternReason::Undecodable
    } else {
        DroppedPatternReason::UnsupportedImageMode(header.mode)
    };
    DroppedPatternDetail { record_index, id: header.id, mode: header.mode, reason }
}

/// What became of the records of a block.
#[derive(Debug)]
pub struct PattBlockOutcome {
    pub patterns: Vec<AbrPattern>,
    pub dropped: Vec<DroppedPatternDetail>,
    pub unreadable: Vec<UnreadablePattChunk>,
}

impl View for PattBlockOutcome {
    type V = PattView;

    open spec fn view(&self) -> PattView {
        PattView {
            patterns: views(self.patterns@),
            dropped: views(self.dropped@),
            unreadable: views(self.unreadable@),
        }
    }
}

fn add_record(
    record: &[u8],
    block_index: usize,
    offset: usize,
    index: usize,
    out: &mut PattBlockOutcome,
)
    ensures
        final(out)@ == with_record(record@, block_index, offset as nat, index as nat, old(out)@),
        final(out).patterns@.len() + final(out).dropped@.len() + final(out).unreadable@.len()
            == old(out).patterns@.len() + old(out).dropped@.len() + old(out).unreadable@.len() + 1,
{
    match read_record_header(record) {
        Some((header, p)) => match parse_record_body(record, p, &header) {
            Some(pattern) => {
                out.patterns.push(pattern);
                assert(views(out.patterns@) =~= views(old(out).patterns@).push(pattern@));
            },
            None => {
                let detail: DroppedPatternDetail = drop_detail(index, header);
                out.dropped.push(detail);
                assert(views(out.dropped@) =~= views(old(out).dropped@).push(detail@));
            },
        },
        None => {
            let chunk: UnreadablePattChunk = UnreadablePattChunk {
                block_index,
                offset,
                declared_length: record.len(),
            };
            out.unreadable.push(chunk);
            assert(views(out.unreadable@) =~= views(old(out).unreadable@).push(chunk@));
        },
    }
}

/// The patterns of a block and what became of its other records. `block_index` is the
/// number of the block in its file, `first_record_index` that of its first record.
pub fn parse_patt_block(data: &[u8], block_index: usize, first_record_index: usize) -> (r:
    PattBlockOutcome)
    requires
        first_record_index + data@.len() <= usize::MAX,
    ensures
        r@ == patt_of(data@, block_index, first_record_index as nat),
        r.patterns@.len() + r.dropped@.len() + r.unreadable@.len() <= data@.len(),
{
    let mut out: PattBlockOutcome = PattBlockOutcome {
        patterns: Vec::new(),
        dropped: Vec::new(),
        unreadable: Vec::new(),
    };
    proof {
        assert(views(out.patterns@) =~= seq![]);
        assert(views(out.dropped@) =~= seq![]);
        assert(views(out.unreadable@) =~= seq![]);
    }
    let mut offset: usize = 0;
    let mut index: usize = first_record_index;
    while data.len() >= 4 && offset <= data.len() - 4
        invariant
            first_record_index + data@.len() <= usize::MAX,
            index - first_record_index <= offset,
            index - first_record_index <= data@.len(),
            out.patterns@.len() + out.dropped@.len() + out.unreadable@.len() == index
                - first_record_index,
            patt_of(data@, block_index, first_record_index as nat) == records_from(
                data@,
                block_index,
                offset as nat,
                index as nat,
                out@,
            ),
        decreases data@.len() + 4 - offset,
    {
        let len: usize = u32_at(data, offset) as usize;
        let start: usize = offset + 4;
        if len > data.len() - start {
            return out;
        }
        let end: usize = start + len;
        add_record(&data[start..end], block_index, offset, index, &mut out);
        index += 1;
        if end > usize::MAX - 3 {
            assert(data.len() <= usize::MAX);
            assert(records_from(
                data@,
                block_index,
                padded(end as nat),
                index as nat,
                out@,
            ) == out@);
            return out;
        }
        offset = (end + 3) / 4 * 4;
    }
    out
}

/// A pattern's plane has as many bytes as its size asks for.
pub proof fn pattern_size_is_exact(d: Seq<u8>, h: HeaderView, p: nat)
    ensures
        record_pattern(d, h, p) matches Some(pattern) ==> pattern.gray.len() == pattern.width
            * pattern.height,
{
}

} // verus!
