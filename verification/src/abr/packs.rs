//! A pack that was written is read back: each tip with its pixels, each preset with its tip.
use vstd::prelude::*;
use crate::abr::limits::{MAX_DIMENSION, MAX_TIP_DECODED_BYTES};
use crate::abr::local::stands_at;
use crate::abr::order::joined;
use crate::abr::packed::{is_packed, packed_rows_are_decoded};
use crate::abr::rle::rle_of;
use crate::abr::pairing::{
    paired, preset_brush, presets_first, resolve, resolved, tip_brush, tip_named,
    tip_named_is_named, Info,
};
use crate::abr::parser::{
    at_most, block_data, block_pack, blocks_from, infos_of, is_stream, parsed, samps_of, Block,
    PatternMode, TipMode, BLOCK_DESC, BLOCK_SAMP, SIGNATURE,
};
use crate::abr::preset::presets_of;
use crate::abr::samp::{
    all_anchored, anchor_at, anchor_text, entry_uuid, framed_by_lengths, framed_tips, frames_from,
    header_at, header_bytes, header_of, is_hex, padded, plausible, rect_offset_of, samp_entry,
    samp_tips, uuid_at, SampView,
};
use crate::abr::textures::framed;
use crate::abr::tip::{geometry_of, pixel_bytes, pixels_of, tip_of, BitmapHeader, HEADER_LEN};
use crate::abr::types::{AbrErrorView, AbrVersion, BrushView, TipView};
use crate::abr::written::{parts, whole_stands};
use crate::fixture::{be16, be32};
use crate::round_trip::u32_is_read;
use crate::support::bytes::{be_u16, be_u32};
use crate::support::text::{ascii, utf8_lossy_text};
use vstd::utf8::is_ascii_chars_encode_utf8;

verus! {

/// Is this a uuid: 8, 4, 4, 4 and 12 hexadecimal digits between dashes?
pub open spec fn is_uuid(b: Seq<u8>) -> bool {
    &&& b.len() == 36
    &&& forall|k: int|
        0 <= k < 36 ==> if k == 8 || k == 13 || k == 18 || k == 23 {
            #[trigger] b[k] == 0x2D
        } else {
            0x30 <= b[k] <= 0x39 || 0x41 <= b[k] <= 0x46 || 0x61 <= b[k] <= 0x66
        }
}

/// A rectangle: its top, left, bottom and right.
#[verifier::opaque]
pub open spec fn rect_bytes(top: i32, left: i32, bottom: i32, right: i32) -> Seq<u8> {
    be32(top as u32) + (be32(left as u32) + (be32(bottom as u32) + be32(right as u32)))
}

/// A tip as it is written in a `samp` block.
pub struct Entry {
    pub uuid: Seq<u8>,
    /// What stands between the uuid and the rectangle.
    pub filler: Seq<u8>,
    pub top: i32,
    pub left: i32,
    pub bottom: i32,
    pub right: i32,
    pub depth: u16,
    pub compression: u8,
    pub data: Seq<u8>,
    /// The pixels that `data` stands for.
    pub pixels: Seq<u8>,
}

impl Entry {
    pub open spec fn width(self) -> nat {
        (self.right - self.left) as nat
    }

    pub open spec fn height(self) -> nat {
        (self.bottom - self.top) as nat
    }

    /// The bytes of a row.
    pub open spec fn row(self) -> nat {
        self.width() * (self.depth / 8) as nat
    }

    /// Can a tip be written so, with its rectangle at `p`? Its pixels are raw or PackBits rows.
    pub open spec fn ok(self, p: nat) -> bool {
        &&& is_uuid(self.uuid)
        &&& 38 + self.filler.len() == p
        &&& self.depth == 8 || self.depth == 16
        &&& 0 < self.right - self.left <= MAX_DIMENSION
        &&& 0 < self.bottom - self.top <= MAX_DIMENSION
        &&& self.pixels.len() == self.height() * self.row() <= MAX_TIP_DECODED_BYTES
        &&& 0 < self.data.len()
        &&& self.bytes().len() < 0x7FFF_0000
        &&& {
            ||| self.compression == 0 && self.data.len() >= self.pixels.len() && self.pixels
                == self.data.take(self.pixels.len() as int)
            ||| self.compression == 1 && exists|rows: Seq<Seq<u8>>|
                {
                    &&& #[trigger] is_packed(self.data, rows, self.row())
                    &&& rows.len() == self.height()
                    &&& self.pixels == joined(rows)
                }
        }
    }

    pub open spec fn bytes(self) -> Seq<u8> {
        seq![0x24u8] + (self.uuid + (seq![0u8] + (self.filler + (rect_bytes(
            self.top,
            self.left,
            self.bottom,
            self.right,
        ) + (be16(self.depth) + (seq![self.compression] + self.data))))))
    }

    /// The tip that is written.
    pub open spec fn tip(self) -> TipView {
        TipView {
            width: self.width() as u32,
            height: self.height() as u32,
            depth: self.depth as u8,
            data: self.pixels,
        }
    }
}

proof fn signs_are_kept(n: i32)
    ensures
        (n as u32) as i32 == n,
{
    assert((n as u32) as i32 == n) by (bit_vector);
}

pub(crate) proof fn byte_is_read(d: Seq<u8>, p: nat, v: u8)
    requires
        stands_at(d, p, seq![v]),
    ensures
        d[p as int] == v,
{
    assert(d.subrange(p as int, p as int + 1)[0] == d[p as int]);
}

pub(crate) proof fn u16_is_read(d: Seq<u8>, p: nat, n: u16)
    requires
        stands_at(d, p, be16(n)),
    ensures
        be_u16(d, p as int) == n,
{
    let b = d.subrange(p as int, p as int + 2);
    assert(b[0] == d[p as int] && b[1] == d[p as int + 1]);
}

proof fn rest_is_read(d: Seq<u8>, p: nat, data: Seq<u8>)
    requires
        stands_at(d, p, data),
        p + data.len() == d.len(),
    ensures
        d.skip(p as int) == data,
{
    assert(d.skip(p as int) =~= d.subrange(p as int, p as int + data.len()));
}

pub(crate) proof fn rect_stands(d: Seq<u8>, p: nat, top: i32, left: i32, bottom: i32, right: i32)
    requires
        stands_at(d, p, rect_bytes(top, left, bottom, right)),
    ensures
        be_u32(d, p as int) as i32 == top,
        be_u32(d, p as int + 4) as i32 == left,
        be_u32(d, p as int + 8) as i32 == bottom,
        be_u32(d, p as int + 12) as i32 == right,
{
    reveal(rect_bytes);
    let s2 = be32(bottom as u32) + be32(right as u32);
    let s1 = be32(left as u32) + s2;
    parts(d, p, be32(top as u32), s1);
    u32_is_read(d, p, top as u32);
    parts(d, p + 4, be32(left as u32), s2);
    u32_is_read(d, p + 4, left as u32);
    parts(d, p + 8, be32(bottom as u32), be32(right as u32));
    u32_is_read(d, p + 8, bottom as u32);
    u32_is_read(d, p + 12, right as u32);
    signs_are_kept(top);
    signs_are_kept(left);
    signs_are_kept(bottom);
    signs_are_kept(right);
}

pub(crate) proof fn rect_is_sized(top: i32, left: i32, bottom: i32, right: i32)
    ensures
        rect_bytes(top, left, bottom, right).len() == 16,
{
    reveal(rect_bytes);
}

pub(crate) proof fn pieces_stand(
    d: Seq<u8>,
    a: Seq<u8>,
    b: Seq<u8>,
    c: Seq<u8>,
    e: Seq<u8>,
    f: Seq<u8>,
    g: Seq<u8>,
    h: Seq<u8>,
    i: Seq<u8>,
)
    requires
        d == a + (b + (c + (e + (f + (g + (h + i)))))),
    ensures
        stands_at(d, 0, a),
        stands_at(d, a.len(), b),
        stands_at(d, a.len() + b.len(), c),
        stands_at(d, a.len() + b.len() + c.len() + e.len(), f),
        stands_at(d, a.len() + b.len() + c.len() + e.len() + f.len(), g),
        stands_at(d, a.len() + b.len() + c.len() + e.len() + f.len() + g.len(), h),
        stands_at(d, a.len() + b.len() + c.len() + e.len() + f.len() + g.len() + h.len(), i),
        d.len() == a.len() + b.len() + c.len() + e.len() + f.len() + g.len() + h.len() + i.len(),
{
    whole_stands(d);
    let s6 = g + (h + i);
    let s5 = f + s6;
    let s4 = e + s5;
    let s3 = c + s4;
    parts(d, 0, a, b + s3);
    parts(d, a.len(), b, s3);
    parts(d, a.len() + b.len(), c, s4);
    let n = a.len() + b.len() + c.len();
    parts(d, n, e, s5);
    parts(d, n + e.len(), f, s6);
    parts(d, n + e.len() + f.len(), g, h + i);
    parts(d, n + e.len() + f.len() + g.len(), h, i);
}

proof fn entry_parts_stand(x: Entry, p: nat)
    requires
        x.uuid.len() == 36,
        38 + x.filler.len() == p,
        p <= 0x7FFF_0000,
    ensures
        ({
            let d = x.bytes();
            let h = BitmapHeader {
                rect_offset: p as usize,
                top: x.top,
                left: x.left,
                bottom: x.bottom,
                right: x.right,
                depth: x.depth as u8,
                compression: x.compression,
            };
            &&& d.len() == p + 19 + x.data.len()
            &&& d[0] == 0x24
            &&& d.subrange(1, 37) == x.uuid
            &&& d[37] == 0
            &&& header_bytes(d, p as int) == h
            &&& be_u16(d, p as int + 16) == x.depth
            &&& d.skip(p as int + 19) == x.data
        }),
{
    let d = x.bytes();
    let rect = rect_bytes(x.top, x.left, x.bottom, x.right);
    rect_is_sized(x.top, x.left, x.bottom, x.right);
    assert(be16(x.depth).len() == 2);
    pieces_stand(
        d,
        seq![0x24u8],
        x.uuid,
        seq![0u8],
        x.filler,
        rect,
        be16(x.depth),
        seq![x.compression],
        x.data,
    );
    rect_stands(d, p, x.top, x.left, x.bottom, x.right);
    byte_is_read(d, 0, 0x24);
    byte_is_read(d, 37, 0);
    u16_is_read(d, p + 16, x.depth);
    byte_is_read(d, p + 18, x.compression);
    rest_is_read(d, p + 19, x.data);
}

/// A tip that was written with its rectangle at the known offset is read back: its uuid, its
/// size, its depth and its pixels.
pub proof fn a_tip_is_read_back(x: Entry, p: usize)
    requires
        x.ok(p as nat),
    ensures
        entry_uuid(x.bytes()) == Some(utf8_lossy_text(x.uuid)),
        header_of(x.bytes(), Some(p)) matches Some(h) && tip_of(x.bytes(), h) == Ok::<
            TipView,
            AbrErrorView,
        >(x.tip()),
{
    let d = x.bytes();
    entry_parts_stand(x, p as nat);
    let uuid = d.subrange(1, 37);
    assert forall|k: int| 1 <= k < 37 implies if k == 9 || k == 14 || k == 19 || k == 24 {
        #[trigger] d[k] == 0x2D
    } else {
        is_hex(d[k])
    } by {
        assert(uuid[k - 1] == d[k]);
        assert(x.uuid[k - 1] == d[k]);
    }
    assert(anchor_at(d, 0));
    let h = header_bytes(d, p as int);
    assert(header_at(d, p as nat) == Some(h));
    let w = x.width();
    let t = x.height();
    let bpp = (x.depth / 8) as nat;
    assert((w as u32) * (t as u32) * ((x.depth as u8) / 8) == t * x.row()) by (nonlinear_arith)
        requires
            x.row() == w * bpp,
            bpp == (x.depth as u8) / 8,
            0 <= w <= 16384,
            0 <= t <= 16384,
    ;
    let g = geometry_of(d, h)->Ok_0;
    assert(geometry_of(d, h) is Ok);
    if x.compression == 1 {
        let rows = choose|rows: Seq<Seq<u8>>|
            {
                &&& #[trigger] is_packed(x.data, rows, x.row())
                &&& rows.len() == x.height()
                &&& x.pixels == joined(rows)
            };
        packed_rows_are_decoded(x.data, rows, x.row());
        assert((w as u32) * ((x.depth as u8) / 8) == x.row());
    }
}

/// Are these tips that can be written with their rectangles at `p`?
pub open spec fn entries_ok(entries: Seq<Entry>, p: nat) -> bool {
    forall|i: int| 0 <= i < entries.len() ==> (#[trigger] entries[i]).ok(p)
}

/// The entries of a `samp` block: each behind its length and padded to four bytes.
pub open spec fn samp_data(entries: Seq<Entry>) -> Seq<u8>
    decreases entries.len(),
{
    if entries.len() == 0 {
        seq![]
    } else {
        framed(entries[0].bytes()) + samp_data(entries.drop_first())
    }
}

/// Where the entries stand from `at` on.
spec fn positions(entries: Seq<Entry>, at: nat) -> Seq<(usize, usize)>
    decreases entries.len(),
{
    if entries.len() == 0 {
        seq![]
    } else {
        let x = entries[0].bytes();
        seq![((at + 4) as usize, (at + 4 + x.len()) as usize)] + positions(
            entries.drop_first(),
            at + framed(x).len(),
        )
    }
}

proof fn rest_are_ok(entries: Seq<Entry>, p: nat)
    requires
        entries_ok(entries, p),
        entries.len() > 0,
    ensures
        entries[0].ok(p),
        entries_ok(entries.drop_first(), p),
{
    let rest = entries.drop_first();
    assert forall|i: int| 0 <= i < rest.len() implies (#[trigger] rest[i]).ok(p) by {
        assert(rest[i] == entries[i + 1]);
    }
}

proof fn frame_stands(b: Seq<u8>, at: nat, x: Seq<u8>)
    requires
        x.len() <= u32::MAX - 16,
        stands_at(b, at, framed(x)),
        at % 4 == 0,
    ensures
        be_u32(b, at as int) == x.len(),
        at + 4 + x.len() <= b.len(),
        b.subrange(at as int + 4, (at + 4 + x.len()) as int) == x,
        padded(at + 4 + x.len()) == at + framed(x).len(),
        (at + framed(x).len()) % 4 == 0,
        framed(x).len() >= 4 + x.len(),
{
    reveal(framed);
    let pad = Seq::new(((4 - x.len() as int % 4) % 4) as nat, |i: int| 0u8);
    parts(b, at, be32(x.len() as u32), x + pad);
    u32_is_read(b, at, x.len() as u32);
    parts(b, at + 4, x, pad);
}

proof fn entries_are_framed(
    b: Seq<u8>,
    at: nat,
    entries: Seq<Entry>,
    p: nat,
    found: Seq<(usize, usize)>,
)
    requires
        entries_ok(entries, p),
        stands_at(b, at, samp_data(entries)),
        at + samp_data(entries).len() == b.len(),
        at % 4 == 0,
    ensures
        frames_from(b, at, found) == (found + positions(entries, at), true),
    decreases entries.len(),
{
    if entries.len() == 0 {
        assert(found + positions(entries, at) =~= found);
    } else {
        rest_are_ok(entries, p);
        let x = entries[0].bytes();
        let rest = entries.drop_first();
        parts(b, at, framed(x), samp_data(rest));
        frame_stands(b, at, x);
        assert(x.len() > 0);
        let more = found.push(((at + 4) as usize, (at + 4 + x.len()) as usize));
        entries_are_framed(b, at + framed(x).len(), rest, p, more);
        assert(more + positions(rest, at + framed(x).len()) =~= found + positions(entries, at));
    }
}

proof fn entries_stand(b: Seq<u8>, at: nat, entries: Seq<Entry>, p: nat, i: int)
    requires
        entries_ok(entries, p),
        stands_at(b, at, samp_data(entries)),
        at % 4 == 0,
        b.len() <= usize::MAX,
        0 <= i < entries.len(),
    ensures
        positions(entries, at).len() == entries.len(),
        ({
            let (start, end) = positions(entries, at)[i];
            &&& start <= end <= b.len()
            &&& b.subrange(start as int, end as int) == entries[i].bytes()
        }),
    decreases entries.len(),
{
    rest_are_ok(entries, p);
    let x = entries[0].bytes();
    let rest = entries.drop_first();
    parts(b, at, framed(x), samp_data(rest));
    frame_stands(b, at, x);
    positions_count(entries, at);
    if i > 0 {
        entries_stand(b, at + framed(x).len(), rest, p, i - 1);
        assert(positions(entries, at)[i] == positions(rest, at + framed(x).len())[i - 1]);
    }
}

proof fn positions_count(entries: Seq<Entry>, at: nat)
    ensures
        positions(entries, at).len() == entries.len(),
    decreases entries.len(),
{
    if entries.len() > 0 {
        positions_count(entries.drop_first(), at + framed(entries[0].bytes()).len());
    }
}

/// The tips that are read of entries.
pub open spec fn samps_written(entries: Seq<Entry>) -> Seq<SampView> {
    Seq::new(
        entries.len(),
        |i: int|
            SampView {
                uuid: Some(utf8_lossy_text(entries[i].uuid)),
                bitmap: entries[i].tip(),
                deferred: None,
            },
    )
}

proof fn entries_are_read(
    d: Seq<u8>,
    base: nat,
    end: nat,
    entries: Seq<Entry>,
    p: usize,
    n: nat,
)
    requires
        entries_ok(entries, p as nat),
        base <= end <= d.len() <= usize::MAX,
        d.subrange(base as int, end as int) == samp_data(entries),
        n <= entries.len(),
    ensures
        framed_tips(d, base as int, positions(entries, 0), n, Some(p), false) == samps_written(
            entries,
        ).take(n as int),
    decreases n,
{
    let b = d.subrange(base as int, end as int);
    if n == 0 {
        assert(samps_written(entries).take(0) =~= seq![]);
    } else {
        let i = n - 1;
        entries_are_read(d, base, end, entries, p, i as nat);
        whole_stands(b);
        entries_stand(b, 0, entries, p as nat, i);
        let (start, stop) = positions(entries, 0)[i];
        assert(d.subrange(base + start, base + stop) =~= b.subrange(start as int, stop as int));
        a_tip_is_read_back(entries[i], p);
        reveal(samp_entry);
        assert(samps_written(entries).take(n as int) =~= samps_written(entries).take(i).push(
            samps_written(entries)[i],
        ));
    }
}

/// The tips of a block are those that were written, in their order.
pub proof fn a_samp_block_is_read_back(
    d: Seq<u8>,
    base: nat,
    end: nat,
    entries: Seq<Entry>,
    p: usize,
)
    requires
        entries_ok(entries, p as nat),
        base <= end <= d.len() <= usize::MAX,
        d.subrange(base as int, end as int) == samp_data(entries),
    ensures
        samp_tips(d, base as int, end as int, Some(p), false) == samps_written(entries),
{
    let b = d.subrange(base as int, end as int);
    whole_stands(b);
    let none: Seq<(usize, usize)> = seq![];
    entries_are_framed(b, 0, entries, p as nat, none);
    let frames = positions(entries, 0);
    assert(none + frames =~= frames);
    positions_count(entries, 0);
    assert forall|i: int| 0 <= i < frames.len() implies entry_uuid(
        b.subrange((#[trigger] frames[i]).0 as int, frames[i].1 as int),
    ) is Some by {
        entries_stand(b, 0, entries, p as nat, i);
        a_tip_is_read_back(entries[i], p);
    }
    assert(all_anchored(b, frames));
    entries_are_read(d, base, end, entries, p, entries.len());
    assert(samps_written(entries).take(entries.len() as int) =~= samps_written(entries));
}

/// A block of a file: a signature, a type, a length and the data, padded to four bytes.
pub open spec fn file_block(kind: &str, data: Seq<u8>) -> Seq<u8> {
    ascii("8BIM") + (ascii(kind) + framed(data))
}

/// A file of blocks: a version, a subversion, a block of tips and a block of presets.
#[verifier::opaque]
pub open spec fn file_bytes(major: u16, minor: u16, samp: Seq<u8>, desc: Seq<u8>) -> Seq<u8> {
    be16(major) + (be16(minor) + (file_block("samp", samp) + file_block("desc", desc)))
}

/// Where the rectangle of a tip stands in a file of this version and subversion.
pub open spec fn rectangle_at(major: u16, minor: u16) -> Option<usize> {
    if major == 6 && minor == 1 {
        Some(47)
    } else if minor == 2 && (major == 6 || major == 7 || major == 9 || major == 10) {
        Some(301)
    } else {
        None
    }
}

proof fn words()
    ensures
        ascii("8BIM") == be32(SIGNATURE),
        ascii("samp") == be32(BLOCK_SAMP),
        ascii("desc") == be32(BLOCK_DESC),
{
    reveal_strlit("8BIM");
    reveal_strlit("samp");
    reveal_strlit("desc");
    is_ascii_chars_encode_utf8("8BIM"@);
    is_ascii_chars_encode_utf8("samp"@);
    is_ascii_chars_encode_utf8("desc"@);
    assert(ascii("8BIM") =~= be32(SIGNATURE));
    assert(ascii("samp") =~= be32(BLOCK_SAMP));
    assert(ascii("desc") =~= be32(BLOCK_DESC));
}

proof fn a_head_is_read(
    d: Seq<u8>,
    p: nat,
    kind: u32,
    len: nat,
    patterns: PatternMode,
    found: Seq<Block>,
)
    requires
        be_u32(d, p as int) == SIGNATURE,
        be_u32(d, p as int + 4) == kind,
        be_u32(d, p as int + 8) == len,
        kind == BLOCK_SAMP || kind == BLOCK_DESC,
        p + 12 + len <= d.len(),
        padded(p + 12 + len) <= d.len(),
    ensures
        blocks_from(d, p, patterns, found) == blocks_from(
            d,
            padded(p + 12 + len),
            patterns,
            found.push(Block { kind, start: (p + 12) as usize, end: (p + 12 + len) as usize }),
        ),
{
}

proof fn a_block_is_found(
    d: Seq<u8>,
    p: nat,
    word: Seq<u8>,
    kind: u32,
    data: Seq<u8>,
    patterns: PatternMode,
    found: Seq<Block>,
)
    requires
        word == be32(kind),
        kind == BLOCK_SAMP || kind == BLOCK_DESC,
        data.len() <= u32::MAX - 16,
        stands_at(d, p, be32(SIGNATURE) + (word + framed(data))),
        p % 4 == 0,
    ensures
        blocks_from(d, p, patterns, found) == blocks_from(
            d,
            p + 8 + framed(data).len(),
            patterns,
            found.push(
                Block { kind, start: (p + 12) as usize, end: (p + 12 + data.len()) as usize },
            ),
        ),
        d.subrange(p as int + 12, p as int + 12 + data.len()) == data,
        p + 12 + data.len() <= d.len(),
        (p + 8 + framed(data).len()) % 4 == 0,
{
    parts(d, p, be32(SIGNATURE), word + framed(data));
    parts(d, p + 4, word, framed(data));
    frame_stands(d, p + 8, data);
    assert(be_u32(d, p as int) == SIGNATURE) by {
        u32_is_read(d, p, SIGNATURE);
    }
    assert(be_u32(d, p as int + 4) == kind) by {
        u32_is_read(d, p + 4, kind);
    }
    a_head_is_read(d, p, kind, data.len(), patterns, found);
}

/// The blocks of a file with a block of tips and a block of presets.
spec fn two_blocks(samp: Seq<u8>, desc: Seq<u8>) -> Seq<Block> {
    let q = 12 + framed(samp).len();
    seq![
        Block { kind: BLOCK_SAMP, start: 16, end: (16 + samp.len()) as usize },
        Block { kind: BLOCK_DESC, start: (q + 12) as usize, end: (q + 12 + desc.len()) as usize },
    ]
}

proof fn blocks_are_found(d: Seq<u8>, samp: Seq<u8>, desc: Seq<u8>, patterns: PatternMode)
    requires
        samp.len() <= 0x7FFF_0000,
        desc.len() <= 0x7FFF_0000,
        d.len() <= usize::MAX,
        stands_at(d, 4, be32(SIGNATURE) + (be32(BLOCK_SAMP) + framed(samp))),
        stands_at(
            d,
            12 + framed(samp).len(),
            be32(SIGNATURE) + (be32(BLOCK_DESC) + framed(desc)),
        ),
        12 + framed(samp).len() + 8 + framed(desc).len() == d.len(),
    ensures
        ({
            let blocks = two_blocks(samp, desc);
            &&& blocks_from(d, 4, patterns, seq![]) == Ok::<Seq<Block>, AbrErrorView>(blocks)
            &&& block_data(d, blocks, 0) == samp
            &&& block_data(d, blocks, 1) == desc
            &&& 12 + framed(samp).len() + 12 + desc.len() <= d.len()
            &&& 16 + samp.len() <= d.len()
        }),
{
    let none: Seq<Block> = seq![];
    a_block_is_found(d, 4, be32(BLOCK_SAMP), BLOCK_SAMP, samp, patterns, none);
    let q = 12 + framed(samp).len();
    let one = none.push(Block { kind: BLOCK_SAMP, start: 16, end: (16 + samp.len()) as usize });
    a_block_is_found(d, q, be32(BLOCK_DESC), BLOCK_DESC, desc, patterns, one);
    let two = one.push(
        Block { kind: BLOCK_DESC, start: (q + 12) as usize, end: (q + 12 + desc.len()) as usize },
    );
    assert(two =~= two_blocks(samp, desc));
    assert(blocks_from(d, d.len(), patterns, two) == Ok::<Seq<Block>, AbrErrorView>(two));
}

proof fn file_has_its_blocks(
    major: u16,
    minor: u16,
    samp: Seq<u8>,
    desc: Seq<u8>,
    patterns: PatternMode,
)
    requires
        samp.len() <= 0x7FFF_0000,
        desc.len() <= 0x7FFF_0000,
        file_bytes(major, minor, samp, desc).len() <= usize::MAX,
    ensures
        ({
            let d = file_bytes(major, minor, samp, desc);
            let blocks = two_blocks(samp, desc);
            &&& blocks_from(d, 4, patterns, seq![]) == Ok::<Seq<Block>, AbrErrorView>(blocks)
            &&& block_data(d, blocks, 0) == samp
            &&& block_data(d, blocks, 1) == desc
            &&& 12 + framed(samp).len() + 12 + desc.len() <= d.len()
            &&& 16 + samp.len() <= d.len()
            &&& be_u16(d, 0) == major
            &&& be_u16(d, 2) == minor
            &&& d.len() >= 4
        }),
{
    reveal(file_bytes);
    let d = file_bytes(major, minor, samp, desc);
    let a = be32(SIGNATURE) + (be32(BLOCK_SAMP) + framed(samp));
    let b = be32(SIGNATURE) + (be32(BLOCK_DESC) + framed(desc));
    assert(file_block("samp", samp) == a && file_block("desc", desc) == b) by {
        words();
    }
    whole_stands(d);
    parts(d, 0, be16(major), be16(minor) + (a + b));
    parts(d, 2, be16(minor), a + b);
    u16_is_read(d, 0, major);
    u16_is_read(d, 2, minor);
    parts(d, 4, a, b);
    assert(a.len() == 8 + framed(samp).len() && b.len() == 8 + framed(desc).len());
    blocks_are_found(d, samp, desc, patterns);
}

proof fn tip_is_found(samps: Seq<SampView>, n: nat, uuid: Seq<char>, k: nat)
    requires
        k < n <= samps.len(),
        samps[k as int].uuid == Some(uuid),
    ensures
        tip_named(samps, n, uuid) is Some,
    decreases n,
{
    if k < n - 1 && samps[n - 1].uuid != Some(uuid) {
        tip_is_found(samps, (n - 1) as nat, uuid, k);
    }
}

proof fn all_are_resolved(samps: Seq<SampView>, infos: Seq<Info>, n: nat)
    requires
        n <= infos.len(),
        forall|i: int| 0 <= i < n ==> resolve(samps, #[trigger] infos[i]) is Some,
    ensures
        resolved(samps, infos, n) == Seq::new(n, |i: int| i as nat),
    decreases n,
{
    if n > 0 {
        all_are_resolved(samps, infos, (n - 1) as nat);
        assert(resolve(samps, infos[n - 1]) is Some);
        assert(resolved(samps, infos, n) =~= Seq::new(n, |i: int| i as nat));
    } else {
        assert(resolved(samps, infos, n) =~= Seq::new(n, |i: int| i as nat));
    }
}

/// Does the preset name this tip?
pub open spec fn names_tip(info: Info, x: Entry) -> bool {
    info.sampled_data_uuid == Some(utf8_lossy_text(x.uuid))
}

/// Have no two tips the same uuid?
pub open spec fn uuids_differ(entries: Seq<Entry>) -> bool {
    forall|i: int, j: int|
        0 <= i < j < entries.len() ==> utf8_lossy_text((#[trigger] entries[i]).uuid)
            != utf8_lossy_text((#[trigger] entries[j]).uuid)
}

/// The version that a number stands for.
pub open spec fn is_version(major: u16, version: AbrVersion) -> bool {
    ||| major == 6 && version == AbrVersion::V6
    ||| major == 7 && version == AbrVersion::V7
    ||| major == 9 && version == AbrVersion::V9
    ||| major == 10 && version == AbrVersion::V10
}

proof fn file_is_parsed(
    major: u16,
    minor: u16,
    entries: Seq<Entry>,
    desc: Seq<u8>,
    patterns: PatternMode,
)
    requires
        rectangle_at(major, minor) is Some,
        entries_ok(entries, rectangle_at(major, minor)->0 as nat),
        samp_data(entries).len() <= 0x7FFF_0000,
        desc.len() <= 0x7FFF_0000,
        file_bytes(major, minor, samp_data(entries), desc).len() <= usize::MAX,
        presets_of(desc) is Ok,
    ensures
        ({
            let d = file_bytes(major, minor, samp_data(entries), desc);
            let p = parsed(d, TipMode::Eager, patterns)->Ok_0;
            let pairs = paired(samps_written(entries), presets_of(desc)->Ok_0);
            &&& parsed(d, TipMode::Eager, patterns) is Ok
            &&& is_version(major, p.pack.version)
            &&& p.pack.brushes == pairs.brushes
            &&& p.pack.preset_count == presets_of(desc)->Ok_0.len()
            &&& p.pack.desc_parse_error is None
            &&& p.pack.raw_desc_block == Some(desc)
            &&& p.pack.patterns.len() == 0
        }),
{
    let samp = samp_data(entries);
    let d = file_bytes(major, minor, samp, desc);
    file_has_its_blocks(major, minor, samp, desc, patterns);
    let blocks = two_blocks(samp, desc);
    let at = rectangle_at(major, minor)->0;
    a_samp_block_is_read_back(d, 16, 16 + samp.len(), entries, at);
    blocks_say(d, blocks, entries, desc, at);
    head_says(d, major, minor);
    file_says_the_rest(d, blocks, desc);
    blocks_make_a_pack(d, blocks, samps_written(entries), presets_of(desc)->Ok_0, at, patterns);
}

proof fn blocks_make_a_pack(
    d: Seq<u8>,
    blocks: Seq<Block>,
    samps: Seq<SampView>,
    infos: Seq<Info>,
    at: usize,
    patterns: PatternMode,
)
    requires
        blocks_from(d, 4, patterns, seq![]) == Ok::<Seq<Block>, AbrErrorView>(blocks),
        crate::abr::parser::header_of(d) matches Ok((version, subversion)) && rect_offset_of(
            version,
            subversion,
        ) == Some(at) && !is_stream(version),
        samps_of(d, blocks, blocks.len(), Some(at), false) == samps,
        infos_of(d, blocks, blocks.len()) == infos,
    ensures
        ({
            let p = parsed(d, TipMode::Eager, patterns)->Ok_0;
            let n = blocks.len();
            &&& parsed(d, TipMode::Eager, patterns) is Ok
            &&& p.pack.version == crate::abr::parser::header_of(d)->Ok_0.0
            &&& p.pack.brushes == paired(samps, infos).brushes
            &&& p.pack.preset_count == infos.len()
            &&& p.pack.desc_parse_error == crate::abr::parser::desc_error_of(d, blocks, n)
            &&& p.pack.raw_desc_block == crate::abr::parser::raw_desc_of(d, blocks, n)
            &&& p.pack.patterns == crate::abr::parser::patts_of(d, blocks, n).patterns
        }),
{
    reveal(parsed);
}

proof fn head_says(d: Seq<u8>, major: u16, minor: u16)
    requires
        d.len() >= 4,
        be_u16(d, 0) == major,
        be_u16(d, 2) == minor,
        rectangle_at(major, minor) is Some,
    ensures
        crate::abr::parser::header_of(d) matches Ok((version, subversion)) && {
            &&& is_version(major, version)
            &&& subversion == minor
            &&& rect_offset_of(version, subversion) == rectangle_at(major, minor)
            &&& !is_stream(version)
        },
{
}

proof fn blocks_say(d: Seq<u8>, blocks: Seq<Block>, entries: Seq<Entry>, desc: Seq<u8>, at: usize)
    requires
        blocks.len() == 2,
        blocks[0].kind == BLOCK_SAMP,
        blocks[1].kind == BLOCK_DESC,
        samp_tips(d, blocks[0].start as int, blocks[0].end as int, Some(at), false)
            == samps_written(entries),
        block_data(d, blocks, 1) == desc,
        presets_of(desc) is Ok,
    ensures
        samps_of(d, blocks, 2, Some(at), false) == samps_written(entries),
        infos_of(d, blocks, 2) == presets_of(desc)->Ok_0,
{
    let none: Seq<SampView> = seq![];
    assert(none + samps_written(entries) =~= samps_written(entries));
    assert(samps_of(d, blocks, 0, Some(at), false) =~= none);
    assert(samps_of(d, blocks, 1, Some(at), false) == samps_written(entries));
    assert(samps_of(d, blocks, 2, Some(at), false) == samps_written(entries));
    let infos = presets_of(desc)->Ok_0;
    let no_info: Seq<Info> = seq![];
    assert(infos_of(d, blocks, 0) =~= no_info);
    assert(infos_of(d, blocks, 1) =~= no_info);
    assert(no_info + infos =~= infos);
    assert(infos_of(d, blocks, 2) == infos);
}

proof fn file_says_the_rest(d: Seq<u8>, blocks: Seq<Block>, desc: Seq<u8>)
    requires
        blocks.len() == 2,
        blocks[0].kind == BLOCK_SAMP,
        blocks[1].kind == BLOCK_DESC,
        block_data(d, blocks, 1) == desc,
        presets_of(desc) is Ok,
    ensures
        crate::abr::parser::desc_error_of(d, blocks, 2) is None,
        crate::abr::parser::raw_desc_of(d, blocks, 2) == Some(desc),
        crate::abr::parser::patts_of(d, blocks, 2).patterns.len() == 0,
{
    assert(crate::abr::parser::desc_error_of(d, blocks, 0) is None);
    assert(crate::abr::parser::desc_error_of(d, blocks, 1) is None);
    assert(crate::abr::parser::raw_desc_of(d, blocks, 0) is None);
    assert(crate::abr::parser::raw_desc_of(d, blocks, 1) is None);
    assert(crate::abr::parser::patts_of(d, blocks, 0).patterns.len() == 0);
    assert(crate::abr::parser::patts_of(d, blocks, 1).patterns.len() == 0);
}

/// A pack whose presets each name one of its tips has a brush for each preset, in the order of
/// the list, with the preset's name and settings and the size, the depth and the pixels of the
/// tip that it names.
pub proof fn each_preset_has_the_tip_that_it_names(
    major: u16,
    minor: u16,
    entries: Seq<Entry>,
    desc: Seq<u8>,
    patterns: PatternMode,
)
    requires
        rectangle_at(major, minor) is Some,
        entries_ok(entries, rectangle_at(major, minor)->0 as nat),
        uuids_differ(entries),
        samp_data(entries).len() <= 0x7FFF_0000,
        desc.len() <= 0x7FFF_0000,
        file_bytes(major, minor, samp_data(entries), desc).len() <= usize::MAX,
        presets_of(desc) is Ok,
        presets_of(desc)->Ok_0.len() > 0,
        forall|i: int|
            0 <= i < presets_of(desc)->Ok_0.len() ==> exists|k: int|
                0 <= k < entries.len() && names_tip(
                    #[trigger] presets_of(desc)->Ok_0[i],
                    #[trigger] entries[k],
                ),
    ensures
        ({
            let d = file_bytes(major, minor, samp_data(entries), desc);
            let infos = presets_of(desc)->Ok_0;
            let pack = parsed(d, TipMode::Eager, patterns)->Ok_0.pack;
            &&& parsed(d, TipMode::Eager, patterns) is Ok
            &&& is_version(major, pack.version)
            &&& pack.preset_count == infos.len()
            &&& pack.brushes.len() == infos.len()
            &&& forall|i: int, k: int|
                0 <= i < infos.len() && 0 <= k < entries.len() && names_tip(
                    #[trigger] infos[i],
                    #[trigger] entries[k],
                ) ==> {
                    &&& pack.brushes[i].name == infos[i].name
                    &&& pack.brushes[i].descriptor == infos[i].descriptor
                    &&& pack.brushes[i].preset_index == Some(i as usize)
                    &&& pack.brushes[i].tip == entries[k].tip()
                }
        }),
{
    let infos = presets_of(desc)->Ok_0;
    let samps = samps_written(entries);
    file_is_parsed(major, minor, entries, desc, patterns);
    assert forall|i: int| 0 <= i < infos.len() implies resolve(samps, #[trigger] infos[i]) is Some by {
        let k = choose|k: int| 0 <= k < entries.len() && names_tip(infos[i], #[trigger] entries[k]);
        tip_is_found(samps, samps.len(), utf8_lossy_text(entries[k].uuid), k as nat);
    }
    all_are_resolved(samps, infos, infos.len());
    assert forall|i: int, k: int|
        0 <= i < infos.len() && 0 <= k < entries.len() && names_tip(
            #[trigger] infos[i],
            #[trigger] entries[k],
        ) implies resolve(samps, infos[i]) == Some(k as nat) by {
        let uuid = utf8_lossy_text(entries[k].uuid);
        tip_named_is_named(samps, samps.len(), uuid);
        assert(resolve(samps, infos[i]) is Some);
        let l = resolve(samps, infos[i])->0 as int;
        assert(samps[l].uuid == Some(uuid));
        if l < k {
            assert(utf8_lossy_text(entries[l].uuid) != utf8_lossy_text(entries[k].uuid));
        } else if k < l {
            assert(utf8_lossy_text(entries[k].uuid) != utf8_lossy_text(entries[l].uuid));
        }
    }
}

/// A pack without presets has a brush for each tip, the last one first.
pub proof fn tips_without_presets_come_last_first(
    major: u16,
    minor: u16,
    entries: Seq<Entry>,
    desc: Seq<u8>,
    patterns: PatternMode,
)
    requires
        rectangle_at(major, minor) is Some,
        entries_ok(entries, rectangle_at(major, minor)->0 as nat),
        samp_data(entries).len() <= 0x7FFF_0000,
        desc.len() <= 0x7FFF_0000,
        file_bytes(major, minor, samp_data(entries), desc).len() <= usize::MAX,
        presets_of(desc) is Ok,
        presets_of(desc)->Ok_0.len() == 0,
    ensures
        ({
            let d = file_bytes(major, minor, samp_data(entries), desc);
            let pack = parsed(d, TipMode::Eager, patterns)->Ok_0.pack;
            &&& parsed(d, TipMode::Eager, patterns) is Ok
            &&& is_version(major, pack.version)
            &&& pack.brushes.len() == entries.len()
            &&& forall|k: int|
                0 <= k < entries.len() ==> {
                    let brush = pack.brushes[entries.len() - 1 - k];
                    &&& brush.tip == (#[trigger] entries[k]).tip()
                    &&& brush.id == utf8_lossy_text(entries[k].uuid)
                    &&& brush.preset_index is None
                }
        }),
{
    file_is_parsed(major, minor, entries, desc, patterns);
    let infos = presets_of(desc)->Ok_0;
    let samps = samps_written(entries);
    assert(resolved(samps, infos, 0).len() == 0);
}

} // verus!
