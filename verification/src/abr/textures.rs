//! A pattern record that was written is read back: its name, its size and its gray.
use vstd::prelude::*;
use vstd::utf8::{decode_utf8, encode_utf8, encode_utf8_decode_utf8, encode_utf8_valid_utf8, valid_utf8};
use crate::abr::descriptor::{units_at, without_nul};
use crate::abr::limits::{MAX_DIMENSION, MAX_NAME_CODE_UNITS};
use crate::abr::local::stands_at;
use crate::abr::order::joined;
use crate::abr::packed::{is_packed, packed_rows_are_decoded};
use crate::abr::pattern::{
    channel_plane, gray_of, luma_is_nearest, luma_of, patt_of, record_header, record_pattern,
    records_from, slots_from, with_record, Channels, HeaderView, PattView,
};
use crate::abr::rle::rle_of;
use crate::abr::samp::padded;
use crate::abr::types::{DroppedPatternReason, DroppedPatternView, PatternView};
use crate::abr::written::{parts, utf16_bytes, whole_stands};
use crate::fixture::be32;
use crate::round_trip::u32_is_read;
use crate::support::bytes::{be_u16, be_u32, fits};
use crate::support::text::utf16_text;

verus! {

/// The size of a channel: the sides of its rectangle.
pub struct Rect {
    pub top: u32,
    pub left: u32,
    pub bottom: u32,
    pub right: u32,
}

impl Rect {
    /// Is this a rectangle that a pattern may have?
    pub open spec fn ok(self) -> bool {
        &&& 0 <= self.right - self.left <= MAX_DIMENSION
        &&& 0 <= self.bottom - self.top <= MAX_DIMENSION
    }

    pub open spec fn width(self) -> nat {
        (self.right - self.left) as nat
    }

    pub open spec fn height(self) -> nat {
        (self.bottom - self.top) as nat
    }
}

/// Is `data` a way to write a plane of this size: raw, or as PackBits rows?
pub open spec fn is_plane(compression: u8, data: Seq<u8>, width: nat, height: nat, plane: Seq<u8>) -> bool {
    ||| compression == 0 && data == plane && plane.len() == width * height
    ||| compression == 1 && exists|rows: Seq<Seq<u8>>|
        {
            &&& #[trigger] is_packed(data, rows, width)
            &&& rows.len() == height
            &&& plane == joined(rows)
        }
}

/// The head of a channel: a number, a length, a depth, a rectangle, a depth and a compression.
pub open spec fn slot_bytes(
    number: u32,
    depth: Seq<u8>,
    rect: Rect,
    bits: Seq<u8>,
    compression: u8,
    data: Seq<u8>,
) -> Seq<u8> {
    be32(number) + (be32((23 + data.len()) as u32) + (depth + (be32(rect.top) + (be32(rect.left) + (
    be32(rect.bottom) + (be32(rect.right) + (bits + (seq![compression] + data))))))))
}

/// Is `x` a channel with this plane?
pub open spec fn is_channel(x: Seq<u8>, rect: Rect, plane: Seq<u8>) -> bool {
    exists|number: u32, depth: Seq<u8>, bits: Seq<u8>, compression: u8, data: Seq<u8>|
        {
            &&& x == #[trigger] slot_bytes(number, depth, rect, bits, compression, data)
            &&& number != 0
            &&& depth.len() == 4
            &&& bits.len() == 2
            &&& 23 + data.len() <= u32::MAX
            &&& is_plane(compression, data, rect.width(), rect.height(), plane)
        }
}

/// Are these channels with these planes?
pub open spec fn are_channels(channels: Seq<Seq<u8>>, rect: Rect, planes: Seq<Seq<u8>>) -> bool {
    &&& channels.len() == planes.len()
    &&& forall|i: int| 0 <= i < channels.len() ==> is_channel(#[trigger] channels[i], rect, planes[i])
}

proof fn plane_is_read(compression: u8, data: Seq<u8>, rect: Rect, plane: Seq<u8>)
    requires
        rect.ok(),
        data.len() <= usize::MAX,
        is_plane(compression, data, rect.width(), rect.height(), plane),
    ensures
        channel_plane(compression, data, rect.width() as u32, rect.height() as u32) == Some(plane),
{
    let w = rect.width();
    let h = rect.height();
    if compression == 0 {
        assert(data.take((w as u32) * (h as u32)) =~= plane);
    } else {
        let rows = choose|rows: Seq<Seq<u8>>|
            {
                &&& #[trigger] is_packed(data, rows, w)
                &&& rows.len() == h
                &&& plane == joined(rows)
            };
        packed_rows_are_decoded(data, rows, w);
    }
}

proof fn slot_parts_stand(
    d: Seq<u8>,
    p: nat,
    number: u32,
    depth: Seq<u8>,
    rect: Rect,
    bits: Seq<u8>,
    compression: u8,
    data: Seq<u8>,
)
    requires
        stands_at(d, p, slot_bytes(number, depth, rect, bits, compression, data)),
        depth.len() == 4,
        bits.len() == 2,
        23 + data.len() <= u32::MAX,
    ensures
        be_u32(d, p as int) == number,
        be_u32(d, p as int + 4) == 23 + data.len(),
        be_u32(d, p as int + 12) == rect.top,
        be_u32(d, p as int + 16) == rect.left,
        be_u32(d, p as int + 20) == rect.bottom,
        be_u32(d, p as int + 24) == rect.right,
        d[p as int + 30] == compression,
        d.subrange(p as int + 31, p as int + 31 + data.len()) == data,
        p + 31 + data.len() <= d.len(),
        slot_bytes(number, depth, rect, bits, compression, data).len() == 31 + data.len(),
{
    let last = seq![compression] + data;
    let s6 = bits + last;
    let s5 = be32(rect.right) + s6;
    let s4 = be32(rect.bottom) + s5;
    let s3 = be32(rect.left) + s4;
    let s2 = be32(rect.top) + s3;
    let s1 = depth + s2;
    let len = (23 + data.len()) as u32;
    parts(d, p, be32(number), be32(len) + s1);
    u32_is_read(d, p, number);
    parts(d, p + 4, be32(len), s1);
    u32_is_read(d, p + 4, len);
    parts(d, p + 8, depth, s2);
    parts(d, p + 12, be32(rect.top), s3);
    u32_is_read(d, p + 12, rect.top);
    parts(d, p + 16, be32(rect.left), s4);
    u32_is_read(d, p + 16, rect.left);
    parts(d, p + 20, be32(rect.bottom), s5);
    u32_is_read(d, p + 20, rect.bottom);
    parts(d, p + 24, be32(rect.right), s6);
    u32_is_read(d, p + 24, rect.right);
    parts(d, p + 28, bits, last);
    parts(d, p + 30, seq![compression], data);
    assert(d.subrange(p as int + 30, p as int + 31)[0] == d[p as int + 30]);
}

proof fn a_channel_is_read(d: Seq<u8>, p: nat, x: Seq<u8>, rect: Rect, plane: Seq<u8>, c: Channels)
    requires
        rect.ok(),
        is_channel(x, rect, plane),
        stands_at(d, p, x),
        d.len() <= usize::MAX,
    ensures
        x.len() > 0,
        slots_from(d, p, c) == slots_from(
            d,
            p + x.len(),
            Channels {
                planes: c.planes.push(plane),
                width: rect.width() as u32,
                height: rect.height() as u32,
            },
        ),
{
    let (number, depth, bits, compression, data) = choose|
        number: u32,
        depth: Seq<u8>,
        bits: Seq<u8>,
        compression: u8,
        data: Seq<u8>,
    |
        {
            &&& x == #[trigger] slot_bytes(number, depth, rect, bits, compression, data)
            &&& number != 0
            &&& depth.len() == 4
            &&& bits.len() == 2
            &&& 23 + data.len() <= u32::MAX
            &&& is_plane(compression, data, rect.width(), rect.height(), plane)
        };
    slot_parts_stand(d, p, number, depth, rect, bits, compression, data);
    plane_is_read(compression, data, rect, plane);
    let at = p as int + 8;
    assert(d.subrange(at + 23, at + (23 + data.len())) == data);
    assert(fits(d, p, 4) && fits(d, p + 4, 4) && fits(d, p + 8, 23 + data.len()));
    assert(be_u32(d, at + 16) - be_u32(d, at + 8) == rect.width());
    assert(be_u32(d, at + 12) - be_u32(d, at + 4) == rect.height());
}

proof fn channels_are_read(
    d: Seq<u8>,
    p: nat,
    channels: Seq<Seq<u8>>,
    rect: Rect,
    planes: Seq<Seq<u8>>,
    c: Channels,
)
    requires
        rect.ok(),
        are_channels(channels, rect, planes),
        stands_at(d, p, joined(channels)),
        p + joined(channels).len() == d.len(),
        d.len() <= usize::MAX,
    ensures
        slots_from(d, p, c) == Some(
            Channels {
                planes: c.planes + planes,
                width: if planes.len() == 0 {
                    c.width
                } else {
                    rect.width() as u32
                },
                height: if planes.len() == 0 {
                    c.height
                } else {
                    rect.height() as u32
                },
            },
        ),
    decreases channels.len(),
{
    if channels.len() == 0 {
        assert(c.planes + planes =~= c.planes);
    } else {
        let x = channels[0];
        let rest = channels.drop_first();
        let more = planes.drop_first();
        assert(is_channel(x, rect, planes[0]));
        assert forall|i: int| 0 <= i < rest.len() implies is_channel(
            #[trigger] rest[i],
            rect,
            more[i],
        ) by {
            assert(rest[i] == channels[i + 1] && more[i] == planes[i + 1]);
        }
        parts(d, p, x, joined(rest));
        a_channel_is_read(d, p, x, rect, planes[0], c);
        let then = Channels {
            planes: c.planes.push(planes[0]),
            width: rect.width() as u32,
            height: rect.height() as u32,
        };
        channels_are_read(d, p + x.len(), rest, rect, more, then);
        assert(then.planes + more =~= c.planes + planes);
    }
}

/// What stands before the body of a record: a version, an image mode, a size, a name of code
/// units behind their count, and an id behind its length.
pub open spec fn header_bytes(
    version: u32,
    mode: u32,
    size: Seq<u8>,
    name: Seq<u16>,
    id: Seq<char>,
) -> Seq<u8> {
    be32(version) + (be32(mode) + (size + (be32(name.len() as u32) + (utf16_bytes(name) + (seq![
        encode_utf8(id).len() as u8,
    ] + encode_utf8(id))))))
}

/// Can a header be written with this name and this id?
pub open spec fn header_ok(size: Seq<u8>, name: Seq<u16>, id: Seq<char>) -> bool {
    &&& size.len() == 4
    &&& name.len() <= MAX_NAME_CODE_UNITS
    &&& encode_utf8(id).len() <= 255
}

proof fn header_is_read(
    d: Seq<u8>,
    version: u32,
    mode: u32,
    size: Seq<u8>,
    name: Seq<u16>,
    id: Seq<char>,
)
    requires
        header_ok(size, name, id),
        stands_at(d, 0, header_bytes(version, mode, size, name, id)),
    ensures
        record_header(d) == Some(
            (
                HeaderView { mode, name: utf16_text(without_nul(name)), id },
                header_bytes(version, mode, size, name, id).len(),
            ),
        ),
{
    let b = encode_utf8(id);
    let units = utf16_bytes(name);
    let n = name.len();
    let s4 = seq![b.len() as u8] + b;
    let s3 = units + s4;
    let s2 = be32(n as u32) + s3;
    let s1 = size + s2;
    parts(d, 0, be32(version), be32(mode) + s1);
    parts(d, 4, be32(mode), s1);
    u32_is_read(d, 4, mode);
    parts(d, 8, size, s2);
    parts(d, 12, be32(n as u32), s3);
    u32_is_read(d, 12, n as u32);
    parts(d, 16, units, s4);
    let at = 16 + 2 * n;
    parts(d, at, seq![b.len() as u8], b);
    assert(d.subrange(at as int, at as int + 1)[0] == d[at as int]);
    encode_utf8_valid_utf8(id);
    encode_utf8_decode_utf8(id);
    let all = d.subrange(16, at as int);
    assert forall|i: int| 0 <= i < n implies #[trigger] units_at(d, 16, n)[i] == name[i] by {
        assert(all[2 * i] == d[16 + 2 * i] && all[2 * i + 1] == d[16 + 2 * i + 1]);
        assert(units[2 * i] == (name[i] / 0x100) as u8);
        assert((2 * i + 1) / 2 == i && (2 * i + 1) % 2 == 1);
        assert(units[2 * i + 1] == (name[i] % 0x100) as u8);
    }
    assert(units_at(d, 16, n) =~= name);
}

/// What stands between the header of a record and its channels: a palette and four bytes in
/// indexed mode, and a list head.
pub open spec fn middle_bytes(mode: u32, palette: Seq<u8>, head: Seq<u8>) -> Seq<u8> {
    if mode == 2 {
        palette + head
    } else {
        head
    }
}

/// A record of a pattern. `palette` is 768 bytes and four more; `head` is 28 bytes.
pub open spec fn record_bytes(
    header: Seq<u8>,
    mode: u32,
    palette: Seq<u8>,
    head: Seq<u8>,
    channels: Seq<Seq<u8>>,
) -> Seq<u8> {
    header + (middle_bytes(mode, palette, head) + joined(channels))
}

/// A record as it stands in a block: behind its length, and padded to four bytes.
#[verifier::opaque]
pub open spec fn framed(record: Seq<u8>) -> Seq<u8> {
    be32(record.len() as u32) + (record + Seq::new(
        ((4 - record.len() as int % 4) % 4) as nat,
        |i: int| 0u8,
    ))
}

/// Is `gray` the nearest integer to the Rec. 601 luma of a color, or one of the two nearest?
pub open spec fn is_luma(gray: u8, r: u8, g: u8, b: u8) -> bool {
    299 * r + 587 * g + 114 * b - 500 <= 1000 * gray <= 299 * r + 587 * g + 114 * b + 500
}

/// The header, the middle and the channels of a record, as they are written.
pub struct Written {
    pub version: u32,
    pub mode: u32,
    pub size: Seq<u8>,
    pub name: Seq<u16>,
    pub id: Seq<char>,
    pub palette: Seq<u8>,
    pub head: Seq<u8>,
    pub rect: Rect,
    pub channels: Seq<Seq<u8>>,
    /// The planes of the channels.
    pub planes: Seq<Seq<u8>>,
}

impl Written {
    pub open spec fn bytes(self) -> Seq<u8> {
        record_bytes(
            header_bytes(self.version, self.mode, self.size, self.name, self.id),
            self.mode,
            self.palette,
            self.head,
            self.channels,
        )
    }

    /// Can the record be written so, with a length that fits?
    pub open spec fn ok(self) -> bool {
        &&& header_ok(self.size, self.name, self.id)
        &&& self.palette.len() == 772
        &&& self.head.len() == 28
        &&& self.rect.ok()
        &&& are_channels(self.channels, self.rect, self.planes)
        &&& self.bytes().len() <= u32::MAX - 16
        &&& self.bytes().len() <= usize::MAX - 16
    }

    /// The number of pixels.
    pub open spec fn area(self) -> nat {
        self.rect.width() * self.rect.height()
    }

    /// Are there as many channels as the mode asks for?
    pub open spec fn complete(self) -> bool {
        &&& self.mode == 1 || self.mode == 2 ==> self.planes.len() >= 1
        &&& self.mode == 3 ==> self.planes.len() == 1 || self.planes.len() >= 3
        &&& 1 <= self.mode <= 3
    }
}

proof fn joined_len(rows: Seq<Seq<u8>>, width: nat)
    requires
        forall|i: int| 0 <= i < rows.len() ==> (#[trigger] rows[i]).len() == width,
    ensures
        joined(rows).len() == rows.len() * width,
    decreases rows.len(),
{
    if rows.len() > 0 {
        let rest = rows.drop_first();
        assert forall|i: int| 0 <= i < rest.len() implies (#[trigger] rest[i]).len() == width by {
            assert(rest[i] == rows[i + 1]);
        }
        assert(rows[0].len() == width);
        joined_len(rest, width);
        assert(rows.len() * width == (rows.len() - 1) * width + width) by (nonlinear_arith)
            requires
                rows.len() >= 1,
        ;
    } else {
        assert(0 * width == 0);
    }
}

proof fn plane_is_sized(x: Seq<u8>, rect: Rect, plane: Seq<u8>)
    requires
        is_channel(x, rect, plane),
        x.len() <= usize::MAX,
    ensures
        plane.len() == rect.width() * rect.height(),
{
    let (number, depth, bits, compression, data) = choose|
        number: u32,
        depth: Seq<u8>,
        bits: Seq<u8>,
        compression: u8,
        data: Seq<u8>,
    |
        {
            &&& x == #[trigger] slot_bytes(number, depth, rect, bits, compression, data)
            &&& number != 0
            &&& depth.len() == 4
            &&& bits.len() == 2
            &&& 23 + data.len() <= u32::MAX
            &&& is_plane(compression, data, rect.width(), rect.height(), plane)
        };
    let w = rect.width();
    let h = rect.height();
    if compression == 1 {
        let rows = choose|rows: Seq<Seq<u8>>|
            {
                &&& #[trigger] is_packed(data, rows, w)
                &&& rows.len() == h
                &&& plane == joined(rows)
            };
        let (written, tail) = choose|written: Seq<Seq<u8>>, tail: Seq<u8>|
            {
                &&& crate::abr::packed::are_rows(written, rows, w)
                &&& data == crate::abr::packed::table_bytes(written) + #[trigger] (joined(written)
                    + tail)
            };
        assert forall|i: int| 0 <= i < rows.len() implies (#[trigger] rows[i]).len() == w by {
            assert(crate::abr::packed::is_row(written[i], rows[i]));
        }
        joined_len(rows, w);
        assert(h * w == w * h) by (nonlinear_arith);
    }
}

/// The body of a record is read by its channels.
proof fn body_is_read(r: Written)
    requires
        r.ok(),
    ensures
        ({
            let d = r.bytes();
            let p = header_bytes(r.version, r.mode, r.size, r.name, r.id).len();
            let c = Channels {
                planes: r.planes,
                width: if r.planes.len() == 0 {
                    0
                } else {
                    r.rect.width() as u32
                },
                height: if r.planes.len() == 0 {
                    0
                } else {
                    r.rect.height() as u32
                },
            };
            let h = HeaderView { mode: r.mode, name: utf16_text(without_nul(r.name)), id: r.id };
            &&& record_header(d) == Some((h, p))
            &&& record_pattern(d, h, p) == (match gray_of(
                r.mode,
                d.subrange(p as int, p as int + 768),
                c,
            ) {
                Some(gray) => Some(
                    PatternView {
                        id: r.id,
                        name: h.name,
                        width: c.width,
                        height: c.height,
                        mode: r.mode,
                        gray,
                    },
                ),
                None => None,
            })
            &&& r.mode == 2 ==> d.subrange(p as int, p as int + 768) == r.palette.take(768)
        }),
{
    let d = r.bytes();
    let header = header_bytes(r.version, r.mode, r.size, r.name, r.id);
    let middle = middle_bytes(r.mode, r.palette, r.head);
    let p = header.len();
    whole_stands(d);
    parts(d, 0, header, middle + joined(r.channels));
    header_is_read(d, r.version, r.mode, r.size, r.name, r.id);
    parts(d, p, middle, joined(r.channels));
    let q = p + middle.len();
    let none = Channels { planes: seq![], width: 0, height: 0 };
    channels_are_read(d, q, r.channels, r.rect, r.planes, none);
    assert(none.planes + r.planes =~= r.planes);
    if r.mode == 2 {
        parts(d, p, r.palette, r.head);
        let all = d.subrange(p as int, p as int + 772);
        assert(all == r.palette);
        assert(d.subrange(p as int, p as int + 768) =~= all.take(768));
    }
}

pub(crate) proof fn frame_is_read(record: Seq<u8>, block_index: usize, index: nat)
    requires
        record.len() <= u32::MAX - 16,
    ensures
        patt_of(framed(record), block_index, index) == with_record(
            record,
            block_index,
            0,
            index,
            PattView { patterns: seq![], dropped: seq![], unreadable: seq![] },
        ),
{
    reveal(framed);
    let d = framed(record);
    let len = record.len();
    let pad = Seq::new(((4 - len as int % 4) % 4) as nat, |i: int| 0u8);
    whole_stands(d);
    parts(d, 0, be32(len as u32), record + pad);
    u32_is_read(d, 0, len as u32);
    parts(d, 4, record, pad);
    let end = 4 + len;
    assert(d.subrange(4, end as int) == record);
    assert(d.len() == padded(end));
    let none = PattView { patterns: seq![], dropped: seq![], unreadable: seq![] };
    let out = with_record(record, block_index, 0, index, none);
    assert(records_from(d, block_index, padded(end), index + 1, out) == out);
    assert(be_u32(d, 0) == len);
    assert(fits(d, 0, 4));
    assert(records_from(d, block_index, 0, index, none) == records_from(
        d,
        block_index,
        padded(end),
        index + 1,
        out,
    ));
}

/// A pattern record with the channels of its mode is read back: its id, its name and the size
/// of its channels. A gray pattern, or a color one of a single channel, keeps that channel; an
/// indexed one has the luma of the palette's color at three times each index; a color one has
/// the luma of its first three channels.
pub proof fn a_pattern_is_read_back(r: Written, block_index: usize, index: nat)
    requires
        r.ok(),
        r.complete(),
    ensures
        ({
            let out = patt_of(framed(r.bytes()), block_index, index);
            let pattern = out.patterns[0];
            &&& out.patterns.len() == 1
            &&& out.dropped.len() == 0
            &&& out.unreadable.len() == 0
            &&& pattern.id == r.id
            &&& pattern.name == utf16_text(without_nul(r.name))
            &&& pattern.mode == r.mode
            &&& pattern.width == r.rect.right - r.rect.left
            &&& pattern.height == r.rect.bottom - r.rect.top
            &&& pattern.gray.len() == pattern.width * pattern.height
            &&& r.mode == 1 || (r.mode == 3 && r.planes.len() == 1) ==> pattern.gray == r.planes[0]
            &&& r.mode == 2 ==> forall|i: int|
                0 <= i < pattern.gray.len() ==> {
                    let at = 3 * r.planes[0][i] as int;
                    is_luma(
                        #[trigger] pattern.gray[i],
                        r.palette[at],
                        r.palette[at + 1],
                        r.palette[at + 2],
                    )
                }
            &&& r.mode == 3 && r.planes.len() >= 3 ==> forall|i: int|
                0 <= i < pattern.gray.len() ==> is_luma(
                    #[trigger] pattern.gray[i],
                    r.planes[0][i],
                    r.planes[1][i],
                    r.planes[2][i],
                )
        }),
{
    body_is_read(r);
    frame_is_read(r.bytes(), block_index, index);
    let d = r.bytes();
    let p = header_bytes(r.version, r.mode, r.size, r.name, r.id).len();
    gray_is_right(r, d.subrange(p as int, p as int + 768));
}

proof fn gray_is_right(r: Written, palette: Seq<u8>)
    requires
        r.ok(),
        r.complete(),
        r.mode == 2 ==> palette == r.palette.take(768),
    ensures
        ({
            let c = Channels {
                planes: r.planes,
                width: r.rect.width() as u32,
                height: r.rect.height() as u32,
            };
            let gray = gray_of(r.mode, palette, c)->0;
            &&& gray_of(r.mode, palette, c) is Some
            &&& gray.len() == r.area()
            &&& r.mode == 1 || (r.mode == 3 && r.planes.len() == 1) ==> gray == r.planes[0]
            &&& r.mode == 2 ==> forall|i: int|
                0 <= i < gray.len() ==> {
                    let at = 3 * r.planes[0][i] as int;
                    is_luma(#[trigger] gray[i], r.palette[at], r.palette[at + 1], r.palette[at + 2])
                }
            &&& r.mode == 3 && r.planes.len() >= 3 ==> forall|i: int|
                0 <= i < gray.len() ==> is_luma(
                    #[trigger] gray[i],
                    r.planes[0][i],
                    r.planes[1][i],
                    r.planes[2][i],
                )
        }),
{
    let c = Channels {
        planes: r.planes,
        width: r.rect.width() as u32,
        height: r.rect.height() as u32,
    };
    planes_are_sized(r);
    assert(r.planes[0].len() == r.area());
    assert((r.rect.width() as u32) * (r.rect.height() as u32) == r.area());
    let gray = gray_of(r.mode, palette, c)->0;
    if r.mode == 2 {
        assert forall|i: int| 0 <= i < gray.len() implies {
            let at = 3 * r.planes[0][i] as int;
            is_luma(#[trigger] gray[i], r.palette[at], r.palette[at + 1], r.palette[at + 2])
        } by {
            let at = 3 * r.planes[0][i] as int;
            assert(palette[at] == r.palette[at]);
            assert(palette[at + 1] == r.palette[at + 1]);
            assert(palette[at + 2] == r.palette[at + 2]);
            luma_is_nearest(palette[at], palette[at + 1], palette[at + 2]);
        }
    } else if r.mode == 3 && r.planes.len() >= 3 {
        assert(r.planes[1].len() == r.area() && r.planes[2].len() == r.area());
        assert forall|i: int| 0 <= i < gray.len() implies is_luma(
            #[trigger] gray[i],
            r.planes[0][i],
            r.planes[1][i],
            r.planes[2][i],
        ) by {
            luma_is_nearest(r.planes[0][i], r.planes[1][i], r.planes[2][i]);
        }
    } else {
        assert(gray =~= r.planes[0]);
    }
}

proof fn planes_are_sized(r: Written)
    requires
        r.ok(),
    ensures
        forall|i: int| 0 <= i < r.planes.len() ==> (#[trigger] r.planes[i]).len() == r.area(),
{
    assert forall|i: int| 0 <= i < r.planes.len() implies (#[trigger] r.planes[i]).len()
        == r.area() by {
        assert(is_channel(r.channels[i], r.rect, r.planes[i]));
        joined_holds(r.channels, i);
        plane_is_sized(r.channels[i], r.rect, r.planes[i]);
    }
}

proof fn joined_holds(items: Seq<Seq<u8>>, i: int)
    requires
        0 <= i < items.len(),
    ensures
        items[i].len() <= joined(items).len(),
    decreases items.len(),
{
    if i > 0 {
        joined_holds(items.drop_first(), i - 1);
    }
}

/// A record of another image mode, or with too few channels for its mode, is dropped under its
/// number, with its id, its mode and the reason.
pub proof fn a_record_is_dropped_for_its_reason(r: Written, block_index: usize, index: nat)
    requires
        r.ok(),
        !r.complete(),
    ensures
        ({
            let out = patt_of(framed(r.bytes()), block_index, index);
            &&& out.patterns.len() == 0
            &&& out.unreadable.len() == 0
            &&& out.dropped == seq![
                DroppedPatternView {
                    record_index: index,
                    id: r.id,
                    mode: r.mode,
                    reason: if 1 <= r.mode <= 3 {
                        DroppedPatternReason::Undecodable
                    } else {
                        DroppedPatternReason::UnsupportedImageMode(r.mode)
                    },
                },
            ]
        }),
{
    body_is_read(r);
    frame_is_read(r.bytes(), block_index, index);
    let out = patt_of(framed(r.bytes()), block_index, index);
    assert(out.dropped.len() == 1);
    assert(out.dropped =~= seq![out.dropped[0]]);
}

} // verus!
