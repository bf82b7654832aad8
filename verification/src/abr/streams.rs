//! A pack of an old version that was written is read back: each entry with its name and its
//! pixels.
use vstd::prelude::*;
use crate::abr::descriptor::{units_at, without_nul};
use crate::abr::legacy::{
    entries_from, entry_at, name_at, sampled_entry, stream_brushes, stream_entry, stream_header,
    stream_tip, StreamHeader, StreamView,
};
use crate::abr::limits::{MAX_DIMENSION, MAX_NAME_CODE_UNITS, MAX_TIP_DECODED_BYTES};
use crate::abr::local::stands_at;
use crate::abr::order::joined;
use crate::abr::packed::{is_packed, packed_rows_are_decoded};
use crate::abr::packs::{
    byte_is_read, pieces_stand, rect_bytes, rect_is_sized, rect_stands, u16_is_read,
};
use crate::abr::parser::{header_of, parsed, PatternMode, TipMode};
use crate::abr::rle::rle_of;
use crate::abr::tip::pixel_bytes;
use crate::abr::types::{AbrErrorView, AbrVersion, TipView};
use crate::abr::written::{parts, unicode_bytes, utf16_bytes, whole_stands};
use crate::fixture::{be16, be32};
use crate::round_trip::u32_is_read;
use crate::support::bytes::{be_u16, be_u32, fits};
use crate::support::text::{decimal, utf16_text};

verus! {

/// A tip as it is written in an entry stream.
pub struct StreamTipBytes {
    /// What stands before the name.
    pub misc: Seq<u8>,
    pub name: Seq<u16>,
    /// What stands before the rectangle.
    pub filler: Seq<u8>,
    pub top: i32,
    pub left: i32,
    pub bottom: i32,
    pub right: i32,
    pub depth: u16,
    pub compression: u8,
    pub data: Seq<u8>,
    /// The pixels that `data` stands for.
    pub pixels: Seq<u8>,
}

impl StreamTipBytes {
    pub open spec fn width(self) -> nat {
        (self.right - self.left) as nat
    }

    pub open spec fn height(self) -> nat {
        (self.bottom - self.top) as nat
    }

    /// The bytes of a row.
    pub open spec fn row(self) -> nat {
        self.width() * (self.depth / 8) as nat
    }

    /// The name as it is written: version 1 has none.
    pub open spec fn name_bytes(self, named: bool) -> Seq<u8> {
        if named {
            unicode_bytes(self.name)
        } else {
            seq![]
        }
    }

    /// What stands behind the length.
    pub open spec fn body(self, named: bool) -> Seq<u8> {
        self.misc + (self.name_bytes(named) + (self.filler + (rect_bytes(
            self.top,
            self.left,
            self.bottom,
            self.right,
        ) + (be16(self.depth) + (seq![self.compression] + self.data)))))
    }

    pub open spec fn bytes(self, named: bool) -> Seq<u8> {
        be16(2) + (be32(self.body(named).len() as u32) + self.body(named))
    }

    /// Can a tip be written so? Its pixels are raw or PackBits rows.
    pub open spec fn ok(self, named: bool) -> bool {
        &&& self.misc.len() == 6
        &&& self.name.len() <= MAX_NAME_CODE_UNITS
        &&& self.filler.len() == 9
        &&& self.depth == 8 || self.depth == 16
        &&& 0 <= self.right - self.left <= MAX_DIMENSION
        &&& 0 <= self.bottom - self.top <= MAX_DIMENSION
        &&& self.pixels.len() == self.height() * self.row() <= MAX_TIP_DECODED_BYTES
        &&& self.body(named).len() <= 0x7FFF_0000
        &&& {
            ||| self.compression == 0 && self.pixels == self.data
            ||| self.compression == 1 && exists|rows: Seq<Seq<u8>>|
                {
                    &&& #[trigger] is_packed(self.data, rows, self.row())
                    &&& rows.len() == self.height()
                    &&& self.pixels == joined(rows)
                }
        }
    }

    /// The tip that is written.
    pub open spec fn tip(self) -> TipView {
        TipView {
            width: self.width() as u32,
            height: self.height() as u32,
            depth: self.depth as u8,
            data: self.pixels,
        }
    }

    /// The name that is written.
    pub open spec fn text(self, named: bool) -> Seq<char> {
        if named {
            utf16_text(without_nul(self.name))
        } else {
            seq![]
        }
    }
}

proof fn name_is_read(d: Seq<u8>, p: nat, name: Seq<u16>)
    requires
        name.len() <= MAX_NAME_CODE_UNITS,
        stands_at(d, p, unicode_bytes(name)),
    ensures
        name_at(d, p, AbrVersion::V2) == Ok::<(Seq<char>, nat), AbrErrorView>(
            (utf16_text(without_nul(name)), p + unicode_bytes(name).len()),
        ),
{
    let b = utf16_bytes(name);
    let n = name.len();
    parts(d, p, be32(n as u32), b);
    u32_is_read(d, p, n as u32);
    let q = p + 4;
    if n > 0 {
        let all = d.subrange(q as int, (q + b.len()) as int);
        assert forall|i: int| 0 <= i < n implies #[trigger] units_at(d, q, n)[i] == name[i] by {
            assert(all[2 * i] == d[q + 2 * i] && all[2 * i + 1] == d[q + 2 * i + 1]);
            assert(b[2 * i] == (name[i] / 0x100) as u8);
            assert((2 * i + 1) / 2 == i && (2 * i + 1) % 2 == 1);
            assert(b[2 * i + 1] == (name[i] % 0x100) as u8);
        }
        assert(units_at(d, q, n) =~= name);
    } else {
        assert(without_nul(name) =~= seq![]);
        assert(utf16_text(without_nul(name)) =~= seq![]);
    }
}

/// Where the parts of an entry's body stand.
proof fn body_stands(d: Seq<u8>, p: nat, x: StreamTipBytes, named: bool)
    requires
        x.misc.len() == 6,
        x.filler.len() == 9,
        stands_at(d, p, x.body(named)),
    ensures
        ({
            let q = p + 6 + x.name_bytes(named).len();
            &&& stands_at(d, p + 6, x.name_bytes(named))
            &&& be_u32(d, q as int + 9) as i32 == x.top
            &&& be_u32(d, q as int + 13) as i32 == x.left
            &&& be_u32(d, q as int + 17) as i32 == x.bottom
            &&& be_u32(d, q as int + 21) as i32 == x.right
            &&& be_u16(d, q as int + 25) == x.depth
            &&& d[q as int + 27] == x.compression
            &&& stands_at(d, q + 28, x.data)
            &&& x.body(named).len() == 6 + x.name_bytes(named).len() + 28 + x.data.len()
        }),
{
    let rect = rect_bytes(x.top, x.left, x.bottom, x.right);
    rect_is_sized(x.top, x.left, x.bottom, x.right);
    let s4 = seq![x.compression] + x.data;
    let s3 = be16(x.depth) + s4;
    let s2 = rect + s3;
    let s1 = x.filler + s2;
    let q = p + 6 + x.name_bytes(named).len();
    parts(d, p, x.misc, x.name_bytes(named) + s1);
    parts(d, p + 6, x.name_bytes(named), s1);
    parts(d, q, x.filler, s2);
    parts(d, q + 9, rect, s3);
    rect_stands(d, q + 9, x.top, x.left, x.bottom, x.right);
    parts(d, q + 25, be16(x.depth), s4);
    u16_is_read(d, q + 25, x.depth);
    parts(d, q + 27, seq![x.compression], x.data);
    byte_is_read(d, q + 27, x.compression);
}

/// The version of a stream with names, or without.
pub open spec fn stream_version(named: bool) -> AbrVersion {
    if named {
        AbrVersion::V2
    } else {
        AbrVersion::V1
    }
}

proof fn pixels_are_read(x: StreamTipBytes, named: bool)
    requires
        x.ok(named),
    ensures
        stream_tip(
            x.data,
            x.width() as u32,
            x.height() as u32,
            x.depth as u8,
            x.compression == 1,
        ) == Ok::<TipView, AbrErrorView>(x.tip()),
        pixel_bytes(x.width() as u32, x.height() as u32, x.depth as u8) == x.pixels.len(),
{
    let w = x.width();
    let t = x.height();
    let bpp = (x.depth / 8) as nat;
    assert((w as u32) * (t as u32) * ((x.depth as u8) / 8) == t * x.row()) by (nonlinear_arith)
        requires
            x.row() == w * bpp,
            bpp == (x.depth as u8) / 8,
            0 <= w <= 16384,
            0 <= t <= 16384,
    ;
    if x.compression == 1 {
        let rows = choose|rows: Seq<Seq<u8>>|
            {
                &&& #[trigger] is_packed(x.data, rows, x.row())
                &&& rows.len() == x.height()
                &&& x.pixels == joined(rows)
            };
        assert(x.body(named).len() >= x.data.len());
        packed_rows_are_decoded(x.data, rows, x.row());
        assert((w as u32) * ((x.depth as u8) / 8) == x.row());
    }
}

proof fn entry_starts(d: Seq<u8>, p: nat, body: Seq<u8>)
    requires
        body.len() <= 0x7FFF_0000,
        stands_at(d, p, be16(2) + (be32(body.len() as u32) + body)),
    ensures
        be_u16(d, p as int) == 2,
        be_u32(d, p as int + 2) == body.len(),
        stands_at(d, p + 6, body),
{
    parts(d, p, be16(2), be32(body.len() as u32) + body);
    u16_is_read(d, p, 2);
    parts(d, p + 2, be32(body.len() as u32), body);
    u32_is_read(d, p + 2, body.len() as u32);
}

/// The header of an entry with these sides, depth and compression.
spec fn header_written(x: StreamTipBytes, q: nat) -> StreamHeader {
    StreamHeader {
        width: x.width() as u32,
        height: x.height() as u32,
        depth: x.depth as u8,
        compression: x.compression,
        pixel_start: (q + 28) as usize,
        expected: x.pixels.len() as usize,
    }
}

proof fn stream_header_is_read(d: Seq<u8>, q: nat, end: nat, x: StreamTipBytes, named: bool)
    requires
        x.ok(named),
        d.len() <= usize::MAX,
        be_u32(d, q as int + 9) as i32 == x.top,
        be_u32(d, q as int + 13) as i32 == x.left,
        be_u32(d, q as int + 17) as i32 == x.bottom,
        be_u32(d, q as int + 21) as i32 == x.right,
        be_u16(d, q as int + 25) == x.depth,
        d[q as int + 27] == x.compression,
        q + 28 <= end <= d.len(),
    ensures
        stream_header(d, q, end) == Ok::<StreamHeader, AbrErrorView>(header_written(x, q)),
{
    pixels_are_read(x, named);
}

proof fn tip_is_taken(d: Seq<u8>, p: nat, q: nat, end: nat, x: StreamTipBytes, named: bool)
    requires
        x.ok(named),
        d.len() <= usize::MAX,
        p + 10 <= d.len(),
        end == p + 4 + be_u32(d, p as int),
        end == q + 28 + x.data.len(),
        end <= d.len(),
        d.subrange(q as int + 28, end as int) == x.data,
        name_at(d, p + 10, stream_version(named)) == Ok::<(Seq<char>, nat), AbrErrorView>(
            (x.text(named), q),
        ),
        stream_header(d, q, end) == Ok::<StreamHeader, AbrErrorView>(header_written(x, q)),
    ensures
        sampled_entry(d, p, stream_version(named), false) == Ok::<
            (Option<StreamView>, nat),
            AbrErrorView,
        >((Some(StreamView { name: x.text(named), tip: x.tip(), deferred: None }), end)),
{
    pixels_are_read(x, named);
}

proof fn an_entry_is_read(d: Seq<u8>, p: nat, x: StreamTipBytes, named: bool)
    requires
        x.ok(named),
        d.len() <= usize::MAX,
        stands_at(d, p, x.bytes(named)),
    ensures
        entry_at(d, p, stream_version(named), false) == Ok::<
            (Option<StreamView>, nat),
            AbrErrorView,
        >(
            (
                Some(StreamView { name: x.text(named), tip: x.tip(), deferred: None }),
                p + x.bytes(named).len(),
            ),
        ),
{
    let body = x.body(named);
    let len = body.len();
    entry_starts(d, p, body);
    body_stands(d, p + 6, x, named);
    if named {
        name_is_read(d, p + 12, x.name);
    }
    let q = p + 12 + x.name_bytes(named).len();
    let end = p + 6 + len;
    assert(name_at(d, p + 12, stream_version(named)) == Ok::<(Seq<char>, nat), AbrErrorView>(
        (x.text(named), q),
    ));
    assert(end == q + 28 + x.data.len());
    assert(d.subrange(q as int + 28, end as int) == x.data);
    stream_header_is_read(d, q, end, x, named);
    tip_is_taken(d, p + 2, q, end, x, named);
}

/// The entries of a stream, one behind the other.
pub open spec fn stream_data(tips: Seq<StreamTipBytes>, named: bool) -> Seq<u8>
    decreases tips.len(),
{
    if tips.len() == 0 {
        seq![]
    } else {
        tips[0].bytes(named) + stream_data(tips.drop_first(), named)
    }
}

/// The tips that are read of a stream.
pub open spec fn stream_written(tips: Seq<StreamTipBytes>, named: bool) -> Seq<StreamView> {
    Seq::new(
        tips.len(),
        |i: int| StreamView { name: tips[i].text(named), tip: tips[i].tip(), deferred: None },
    )
}

proof fn stream_is_read(
    d: Seq<u8>,
    p: nat,
    tips: Seq<StreamTipBytes>,
    named: bool,
    found: Seq<StreamView>,
)
    requires
        forall|i: int| 0 <= i < tips.len() ==> (#[trigger] tips[i]).ok(named),
        d.len() <= usize::MAX,
        stands_at(d, p, stream_data(tips, named)),
    ensures
        entries_from(d, p, tips.len(), stream_version(named), false, found) == Ok::<
            Seq<StreamView>,
            AbrErrorView,
        >(found + stream_written(tips, named)),
    decreases tips.len(),
{
    if tips.len() == 0 {
        assert(found + stream_written(tips, named) =~= found);
    } else {
        let x = tips[0];
        let rest = tips.drop_first();
        assert(x.ok(named));
        assert forall|i: int| 0 <= i < rest.len() implies (#[trigger] rest[i]).ok(named) by {
            assert(rest[i] == tips[i + 1]);
        }
        parts(d, p, x.bytes(named), stream_data(rest, named));
        an_entry_is_read(d, p, x, named);
        let more = found.push(
            StreamView { name: x.text(named), tip: x.tip(), deferred: None },
        );
        stream_is_read(d, p + x.bytes(named).len(), rest, named, more);
        assert(more + stream_written(rest, named) =~= found + stream_written(tips, named));
    }
}

/// A file with an entry stream: a version, a count and the entries.
#[verifier::opaque]
pub open spec fn stream_file(tips: Seq<StreamTipBytes>, named: bool) -> Seq<u8> {
    be16(
        if named {
            2
        } else {
            1
        },
    ) + (be16(tips.len() as u16) + stream_data(tips, named))
}

/// A pack of an old version has a brush for each entry, the last one first: with the number of
/// the entry as id, its name where the version has names, and its size, depth and pixels.
pub proof fn a_stream_is_read_back(
    tips: Seq<StreamTipBytes>,
    named: bool,
    patterns: PatternMode,
)
    requires
        forall|i: int| 0 <= i < tips.len() ==> (#[trigger] tips[i]).ok(named),
        tips.len() <= u16::MAX,
        stream_file(tips, named).len() <= usize::MAX,
    ensures
        ({
            let pack = parsed(stream_file(tips, named), TipMode::Eager, patterns)->Ok_0.pack;
            &&& parsed(stream_file(tips, named), TipMode::Eager, patterns) is Ok
            &&& pack.version == stream_version(named)
            &&& pack.brushes.len() == tips.len()
            &&& forall|k: int|
                0 <= k < tips.len() ==> {
                    let brush = pack.brushes[tips.len() - 1 - k];
                    &&& brush.tip == (#[trigger] tips[k]).tip()
                    &&& brush.name == tips[k].text(named)
                    &&& brush.id == "brush_"@ + decimal(k as nat)
                    &&& brush.preset_index is None
                }
        }),
{
    let d = stream_file(tips, named);
    stream_head_is_read(tips, named);
    let none: Seq<StreamView> = seq![];
    stream_is_read(d, 4, tips, named, none);
    let written = stream_written(tips, named);
    assert(none + written =~= written);
    reveal(parsed);
    let brushes = stream_brushes(written);
    assert forall|k: int| 0 <= k < tips.len() implies {
        let brush = brushes[tips.len() - 1 - k];
        &&& brush.tip == (#[trigger] tips[k]).tip()
        &&& brush.name == tips[k].text(named)
        &&& brush.id == "brush_"@ + decimal(k as nat)
        &&& brush.preset_index is None
    } by {}
}

proof fn stream_head_is_read(tips: Seq<StreamTipBytes>, named: bool)
    requires
        tips.len() <= u16::MAX,
    ensures
        header_of(stream_file(tips, named)) == Ok::<(AbrVersion, u16), AbrErrorView>(
            (stream_version(named), tips.len() as u16),
        ),
        stands_at(stream_file(tips, named), 4, stream_data(tips, named)),
{
    reveal(stream_file);
    let d = stream_file(tips, named);
    let major: u16 = if named {
        2
    } else {
        1
    };
    let rest = stream_data(tips, named);
    whole_stands(d);
    parts(d, 0, be16(major), be16(tips.len() as u16) + rest);
    u16_is_read(d, 0, major);
    parts(d, 2, be16(tips.len() as u16), rest);
    u16_is_read(d, 2, tips.len() as u16);
}

} // verus!
