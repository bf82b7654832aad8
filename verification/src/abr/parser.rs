//! Packs: the header, the blocks, and what they make together.
//!
//! A file starts with a version and a subversion. In versions 1 and 2 the subversion is an
//! entry count and the entries follow. In versions 6, 7, 9 and 10 blocks follow: `8BIM`, a
//! type, a length and that many bytes, padded to four bytes.
use vstd::prelude::*;
use crate::abr::legacy::{entries_from, parse_legacy, stream_brushes, stream_tips};
use crate::abr::pairing::{
    collect_computed_presets, collect_unsupported_tip_presets, computed_of, pair_brushes, paired,
    unsupported_of, Info, PairedBrushes,
};
use crate::abr::pattern::{parse_patt_block, patt_of, PattBlockOutcome, PattView};
use crate::abr::preset::{extract_all_brush_info_inner, presets_of, BrushDescInfo};
use crate::abr::samp::{
    padded, parse_samp_block, rect_offset_of, samp_tips, DeferredTip, SampEntry, SampView,
};
use crate::abr::types::{bare_pack, AbrError, AbrErrorView, AbrPack, AbrVersion, PackView};
use crate::support::bytes::{be_u16, be_u32, copy_bytes, fits, u16_at, u32_at};
use crate::support::text::{decimal, push_decimal, text, views};

verus! {

/// `8BIM`
pub const SIGNATURE: u32 = 0x3842_494D;

/// `samp`
pub const BLOCK_SAMP: u32 = 0x7361_6D70;

/// `desc`
pub const BLOCK_DESC: u32 = 0x6465_7363;

/// `patt`
pub const BLOCK_PATT: u32 = 0x7061_7474;

/// The highest version number that is taken for one.
pub const MAX_PLAUSIBLE_MAJOR: u16 = 16;

/// The version and subversion that a file starts with.
pub open spec fn header_of(d: Seq<u8>) -> Result<(AbrVersion, u16), AbrErrorView> {
    if !fits(d, 0, 4) {
        Err(AbrErrorView::InvalidHeader)
    } else {
        let major = be_u16(d, 0);
        let minor = be_u16(d, 2);
        if major == 1 {
            Ok((AbrVersion::V1, minor))
        } else if major == 2 {
            Ok((AbrVersion::V2, minor))
        } else if major == 6 {
            Ok((AbrVersion::V6, minor))
        } else if major == 7 {
            Ok((AbrVersion::V7, minor))
        } else if major == 9 {
            Ok((AbrVersion::V9, minor))
        } else if major == 10 {
            Ok((AbrVersion::V10, minor))
        } else if 1 <= major <= MAX_PLAUSIBLE_MAJOR {
            Err(AbrErrorView::UnsupportedVersion(major))
        } else {
            Err(AbrErrorView::InvalidHeader)
        }
    }
}

/// The version and subversion that a file starts with.
pub fn read_header(data: &[u8]) -> (r: Result<(AbrVersion, u16), AbrError>)
    ensures
        match header_of(data@) {
            Ok(h) => r matches Ok(v) && v == h,
            Err(e) => r matches Err(err) && err@ == e,
        },
{
    if data.len() < 4 {
        return Err(AbrError::InvalidHeader);
    }
    let major: u16 = u16_at(data, 0);
    let minor: u16 = u16_at(data, 2);
    if major == 1 {
        Ok((AbrVersion::V1, minor))
    } else if major == 2 {
        Ok((AbrVersion::V2, minor))
    } else if major == 6 {
        Ok((AbrVersion::V6, minor))
    } else if major == 7 {
        Ok((AbrVersion::V7, minor))
    } else if major == 9 {
        Ok((AbrVersion::V9, minor))
    } else if major == 10 {
        Ok((AbrVersion::V10, minor))
    } else if 1 <= major && major <= MAX_PLAUSIBLE_MAJOR {
        Err(AbrError::UnsupportedVersion(major))
    } else {
        Err(AbrError::InvalidHeader)
    }
}

/// Are patterns read or passed over?
#[derive(Debug, Clone, Copy, PartialEq, Eq, Structural)]
pub enum PatternMode {
    Read,
    Skip,
}

/// A block: its type and where its data stands in the file.
#[derive(Debug, Clone, Copy, PartialEq, Eq, Structural)]
pub struct Block {
    pub kind: u32,
    pub start: usize,
    pub end: usize,
}

pub open spec fn block_too_long(claimed: nat, remain: nat) -> Seq<char> {
    "block claims "@ + decimal(claimed) + " bytes but only "@ + decimal(remain) + " remain"@
}

/// `a`, but at most `b`.
pub open spec fn at_most(a: nat, b: nat) -> nat {
    if a <= b {
        a
    } else {
        b
    }
}

/// The blocks from `p` on, behind those in `found`. They end where too little is left for
/// a block's head, or where no signature stands.
pub open spec fn blocks_from(d: Seq<u8>, p: nat, patterns: PatternMode, found: Seq<Block>) -> Result<
    Seq<Block>,
    AbrErrorView,
>
    decreases d.len() - p,
{
    if !fits(d, p, 12) || be_u32(d, p as int) != SIGNATURE {
        Ok(found)
    } else {
        let kind = be_u32(d, p as int + 4);
        let start = p + 12;
        let end = start + be_u32(d, p as int + 8) as nat;
        if end > d.len() {
            Err(
                AbrErrorView::MalformedBlock {
                    offset: p as u64,
                    reason: block_too_long((end - start) as nat, (d.len() - start) as nat),
                },
            )
        } else {
            blocks_from(
                d,
                at_most(padded(end), d.len()),
                patterns,
                if patterns == PatternMode::Skip && kind == BLOCK_PATT {
                    found
                } else {
                    found.push(Block { kind, start: start as usize, end: end as usize })
                },
            )
        }
    }
}

/// The blocks lie in the first `n` bytes of a file, one behind the other.
#[verifier::opaque]
pub open spec fn in_order(blocks: Seq<Block>, n: nat) -> bool {
    &&& forall|i: int|
        0 <= i < blocks.len() ==> (#[trigger] blocks[i]).start <= blocks[i].end <= n
    &&& forall|i: int, j: int|
        0 <= i < j < blocks.len() ==> (#[trigger] blocks[i]).end <= (#[trigger] blocks[j]).start
}

/// Blocks in order stay so in a longer file.
pub proof fn order_grows(blocks: Seq<Block>, n: nat, m: nat)
    requires
        in_order(blocks, n),
        n <= m,
    ensures
        in_order(blocks, m),
{
    reveal(in_order);
}

/// One more block behind blocks in order.
pub proof fn block_keeps_order(blocks: Seq<Block>, n: nat, b: Block, m: nat)
    requires
        in_order(blocks, n),
        n <= b.start <= b.end <= m,
    ensures
        in_order(blocks, m),
        in_order(blocks.push(b), m),
{
    reveal(in_order);
    let all = blocks.push(b);
    assert forall|i: int, j: int| 0 <= i < j < all.len() implies (#[trigger] all[i]).end <= (
    #[trigger] all[j]).start by {
        assert(all[i] == blocks[i]);
        if j < blocks.len() {
            assert(all[j] == blocks[j]);
        }
    }
    assert forall|i: int| 0 <= i < all.len() implies (#[trigger] all[i]).start <= all[i].end
        <= m by {
        if i < blocks.len() {
            assert(all[i] == blocks[i]);
        }
    }
}

fn block_too_long_error(offset: usize, claimed: usize, remain: usize) -> (r: AbrError)
    ensures
        r@ == (AbrErrorView::MalformedBlock {
            offset: offset as u64,
            reason: block_too_long(claimed as nat, remain as nat),
        }),
{
    let mut m: String = "block claims ".to_owned();
    push_decimal(&mut m, claimed as u64);
    m.append(" bytes but only ");
    push_decimal(&mut m, remain as u64);
    m.append(" remain");
    AbrError::MalformedBlock { offset: offset as u64, reason: m }
}

/// Where the padding behind `end` ends.
fn padded_end(data: &[u8], end: usize) -> (r: usize)
    requires
        end <= data@.len(),
    ensures
        r == at_most(padded(end as nat), data@.len()),
        end <= r <= data@.len(),
{
    if end > usize::MAX - 3 {
        return data.len();
    }
    let up: usize = (end + 3) / 4 * 4;
    if up <= data.len() {
        up
    } else {
        data.len()
    }
}

/// The blocks of a file from `start` on.
pub fn read_blocks(data: &[u8], start: usize, patterns: PatternMode) -> (r: Result<
    Vec<Block>,
    AbrError,
>)
    requires
        start <= data@.len(),
    ensures
        match blocks_from(data@, start as nat, patterns, seq![]) {
            Ok(blocks) => r matches Ok(v) && v@ == blocks,
            Err(e) => r matches Err(err) && err@ == e,
        },
        r matches Ok(v) ==> in_order(v@, data@.len()),
{
    let mut found: Vec<Block> = Vec::new();
    let mut p: usize = start;
    proof {
        assert(found@ =~= seq![]);
        assert(in_order(found@, p as nat)) by {
            reveal(in_order);
        }
    }
    while data.len() - p >= 12
        invariant
            p <= data@.len(),
            in_order(found@, p as nat),
            blocks_from(data@, start as nat, patterns, seq![]) == blocks_from(
                data@,
                p as nat,
                patterns,
                found@,
            ),
        decreases data@.len() - p,
    {
        if u32_at(data, p) != SIGNATURE {
            proof {
                order_grows(found@, p as nat, data@.len());
            }
            return Ok(found);
        }
        let kind: u32 = u32_at(data, p + 4);
        let len: usize = u32_at(data, p + 8) as usize;
        let from: usize = p + 12;
        if len > data.len() - from {
            return Err(block_too_long_error(p, len, data.len() - from));
        }
        let end: usize = from + len;
        let ghost before = found@;
        if !(patterns == PatternMode::Skip && kind == BLOCK_PATT) {
            found.push(Block { kind, start: from, end });
        }
        let next: usize = padded_end(data, end);
        proof {
            block_keeps_order(
                before,
                p as nat,
                Block { kind, start: from, end },
                next as nat,
            );
        }
        p = next;
    }
    proof {
        order_grows(found@, p as nat, data@.len());
    }
    Ok(found)
}

/// The sampled tips in the first `n` blocks.
pub open spec fn samps_of(
    d: Seq<u8>,
    blocks: Seq<Block>,
    n: nat,
    documented: Option<usize>,
    deferred: bool,
) -> Seq<SampView>
    decreases n,
{
    if n == 0 {
        seq![]
    } else {
        let before = samps_of(d, blocks, (n - 1) as nat, documented, deferred);
        let b = blocks[n - 1];
        if b.kind == BLOCK_SAMP {
            before + samp_tips(d, b.start as int, b.end as int, documented, deferred)
        } else {
            before
        }
    }
}

/// The data of block `i`.
pub open spec fn block_data(d: Seq<u8>, blocks: Seq<Block>, i: int) -> Seq<u8> {
    d.subrange(blocks[i].start as int, blocks[i].end as int)
}

/// The presets in the first `n` blocks. A `desc` block that cannot be read has none.
pub open spec fn infos_of(d: Seq<u8>, blocks: Seq<Block>, n: nat) -> Seq<Info>
    decreases n,
{
    if n == 0 {
        seq![]
    } else {
        let before = infos_of(d, blocks, (n - 1) as nat);
        if blocks[n - 1].kind == BLOCK_DESC {
            match presets_of(block_data(d, blocks, n - 1)) {
                Ok(infos) => before + infos,
                Err(_) => before,
            }
        } else {
            before
        }
    }
}

/// Why the first of the first `n` blocks that is a `desc` block and cannot be read cannot.
pub open spec fn desc_error_of(d: Seq<u8>, blocks: Seq<Block>, n: nat) -> Option<Seq<char>>
    decreases n,
{
    if n == 0 {
        None
    } else {
        match desc_error_of(d, blocks, (n - 1) as nat) {
            Some(e) => Some(e),
            None => if blocks[n - 1].kind == BLOCK_DESC {
                match presets_of(block_data(d, blocks, n - 1)) {
                    Ok(_) => None,
                    Err(e) => Some(e.message_text()),
                }
            } else {
                None
            },
        }
    }
}

/// The data of the first of the first `n` blocks that is a `desc` block.
pub open spec fn raw_desc_of(d: Seq<u8>, blocks: Seq<Block>, n: nat) -> Option<Seq<u8>>
    decreases n,
{
    if n == 0 {
        None
    } else {
        match raw_desc_of(d, blocks, (n - 1) as nat) {
            Some(data) => Some(data),
            None => if blocks[n - 1].kind == BLOCK_DESC {
                Some(block_data(d, blocks, n - 1))
            } else {
                None
            },
        }
    }
}

/// Is block `i` a `patt` block with data?
pub open spec fn is_patt(blocks: Seq<Block>, i: int) -> bool {
    blocks[i].kind == BLOCK_PATT && blocks[i].start < blocks[i].end
}

/// The number of `patt` blocks with data among the first `n` blocks.
pub open spec fn patt_count(blocks: Seq<Block>, n: nat) -> nat
    decreases n,
{
    if n == 0 {
        0
    } else {
        patt_count(blocks, (n - 1) as nat) + if is_patt(blocks, n - 1) {
            1nat
        } else {
            0nat
        }
    }
}

/// The number of records that came to something.
pub open spec fn record_count(out: PattView) -> nat {
    out.patterns.len() + out.dropped.len() + out.unreadable.len()
}

/// What became of the pattern records in the first `n` blocks, numbered over all of them.
pub open spec fn patts_of(d: Seq<u8>, blocks: Seq<Block>, n: nat) -> PattView
    decreases n,
{
    if n == 0 {
        PattView { patterns: seq![], dropped: seq![], unreadable: seq![] }
    } else {
        let before = patts_of(d, blocks, (n - 1) as nat);
        if is_patt(blocks, n - 1) {
            let more = patt_of(
                block_data(d, blocks, n - 1),
                patt_count(blocks, (n - 1) as nat) as usize,
                record_count(before),
            );
            PattView {
                patterns: before.patterns + more.patterns,
                dropped: before.dropped + more.dropped,
                unreadable: before.unreadable + more.unreadable,
            }
        } else {
            before
        }
    }
}

/// Which tips are decoded with the pack?
#[derive(Debug, Clone, Copy, PartialEq, Eq, Structural)]
pub enum TipMode {
    /// All.
    Eager,
    /// Those of an entry stream.
    Deferred,
    /// None.
    AllDeferred,
}

/// What a file says: the pack, where the pixels of its deferred tips stand, and the uuids
/// that presets name for their second tips.
pub struct ParsedView {
    pub pack: PackView,
    pub tips: Seq<Option<DeferredTip>>,
    pub dropped_tips: Seq<Option<DeferredTip>>,
    pub dual_uuids: Seq<Option<Seq<char>>>,
}

/// The uuid of each preset's second tip.
pub open spec fn dual_uuids_of(infos: Seq<Info>) -> Seq<Option<Seq<char>>> {
    Seq::new(infos.len(), |i: int| infos[i].dual_brush_uuid)
}

/// What the blocks of a file say.
pub open spec fn block_pack(
    d: Seq<u8>,
    blocks: Seq<Block>,
    version: AbrVersion,
    subversion: u16,
    deferred: bool,
) -> ParsedView {
    let n = blocks.len();
    let infos = infos_of(d, blocks, n);
    let samps = samps_of(d, blocks, n, rect_offset_of(version, subversion), deferred);
    let pairs = paired(samps, infos);
    let patts = patts_of(d, blocks, n);
    ParsedView {
        pack: PackView {
            version,
            brushes: pairs.brushes,
            preset_count: infos.len(),
            raw_desc_block: raw_desc_of(d, blocks, n),
            computed_presets: computed_of(infos, infos.len()),
            patterns: patts.patterns,
            dropped_patterns: patts.dropped,
            unreadable_patt_chunks: patts.unreadable,
            dropped_tips: pairs.dropped,
            skipped_presets: pairs.skipped,
            unsupported_tips: unsupported_of(infos, infos.len()),
            desc_parse_error: desc_error_of(d, blocks, n),
        },
        tips: pairs.tips,
        dropped_tips: pairs.dropped_tips,
        dual_uuids: dual_uuids_of(infos),
    }
}

/// Is this a version whose files hold an entry stream?
pub open spec fn is_stream(version: AbrVersion) -> bool {
    version == AbrVersion::V1 || version == AbrVersion::V2
}

/// What a file says.
#[verifier::opaque]
pub open spec fn parsed(d: Seq<u8>, mode: TipMode, patterns: PatternMode) -> Result<
    ParsedView,
    AbrErrorView,
> {
    match header_of(d) {
        Ok((version, subversion)) => if is_stream(version) {
            match entries_from(
                d,
                4,
                subversion as nat,
                version,
                mode == TipMode::AllDeferred,
                seq![],
            ) {
                Ok(tips) => Ok(
                    ParsedView {
                        pack: bare_pack(version, stream_brushes(tips), subversion as nat),
                        tips: stream_tips(tips),
                        dropped_tips: seq![],
                        dual_uuids: seq![],
                    },
                ),
                Err(e) => Err(e),
            }
        } else {
            match blocks_from(d, 4, patterns, seq![]) {
                Ok(blocks) => Ok(
                    block_pack(d, blocks, version, subversion, mode != TipMode::Eager),
                ),
                Err(e) => Err(e),
            }
        },
        Err(e) => Err(e),
    }
}

/// What a file says.
pub(crate) struct ParsedAbr {
    pub(crate) pack: AbrPack,
    pub(crate) tips: Vec<Option<DeferredTip>>,
    pub(crate) dropped_tips: Vec<Option<DeferredTip>>,
    pub(crate) dual_uuids: Vec<Option<String>>,
}

/// The texts of optional strings.
pub open spec fn texts(s: Seq<Option<String>>) -> Seq<Option<Seq<char>>> {
    Seq::new(s.len(), |i: int| text(s[i]))
}

impl ParsedAbr {
    /// Its contents are those of the model `p`.
    pub(crate) open(crate) spec fn says(self, p: ParsedView) -> bool {
        &&& self.pack@ == p.pack
        &&& self.pack.counted()
        &&& self.tips@ == p.tips
        &&& self.dropped_tips@ == p.dropped_tips
        &&& texts(self.dual_uuids@) == p.dual_uuids
    }
}

fn collect_samps(
    data: &[u8],
    blocks: &Vec<Block>,
    version: AbrVersion,
    subversion: u16,
    deferred: bool,
) -> (r: Vec<SampEntry>)
    requires
        in_order(blocks@, data@.len()),
    ensures
        views(r@) == samps_of(
            data@,
            blocks@,
            blocks@.len(),
            rect_offset_of(version, subversion),
            deferred,
        ),
{
    let mut samps: Vec<SampEntry> = Vec::new();
    assert(views(samps@) =~= seq![]);
    let mut i: usize = 0;
    while i < blocks.len()
        invariant
            i <= blocks@.len(),
            in_order(blocks@, data@.len()),
            views(samps@) == samps_of(
                data@,
                blocks@,
                i as nat,
                rect_offset_of(version, subversion),
                deferred,
            ),
        decreases blocks@.len() - i,
    {
        reveal(in_order);
        let b: Block = blocks[i];
        if b.kind == BLOCK_SAMP {
            parse_samp_block(data, b.start, b.end, version, subversion, deferred, &mut samps);
        }
        i += 1;
    }
    samps
}

/// The presets of a file, the data of its first `desc` block, and the first error.
struct Descs {
    infos: Vec<BrushDescInfo>,
    raw: Option<Vec<u8>>,
    error: Option<String>,
}

spec fn raw_view(raw: Option<Vec<u8>>) -> Option<Seq<u8>> {
    match raw {
        Some(bytes) => Some(bytes@),
        None => None,
    }
}

fn append_infos(infos: &mut Vec<BrushDescInfo>, more: Vec<BrushDescInfo>)
    ensures
        views(final(infos)@) == views(old(infos)@) + views(more@),
{
    let mut more: Vec<BrushDescInfo> = more;
    let ghost first = infos@;
    let ghost rest = more@;
    infos.append(&mut more);
    assert(infos@ =~= first + rest);
    assert(views(infos@) =~= views(first) + views(rest));
}

fn collect_descs(data: &[u8], blocks: &Vec<Block>) -> (r: Descs)
    requires
        in_order(blocks@, data@.len()),
    ensures
        views(r.infos@) == infos_of(data@, blocks@, blocks@.len()),
        raw_view(r.raw) == raw_desc_of(data@, blocks@, blocks@.len()),
        text(r.error) == desc_error_of(data@, blocks@, blocks@.len()),
{
    let mut infos: Vec<BrushDescInfo> = Vec::new();
    let mut raw: Option<Vec<u8>> = None;
    let mut error: Option<String> = None;
    assert(views(infos@) =~= seq![]);
    let mut i: usize = 0;
    while i < blocks.len()
        invariant
            i <= blocks@.len(),
            in_order(blocks@, data@.len()),
            views(infos@) == infos_of(data@, blocks@, i as nat),
            raw_view(raw) == raw_desc_of(data@, blocks@, i as nat),
            text(error) == desc_error_of(data@, blocks@, i as nat),
        decreases blocks@.len() - i,
    {
        reveal(in_order);
        let b: Block = blocks[i];
        if b.kind == BLOCK_DESC {
            let block: &[u8] = &data[b.start..b.end];
            assert(block@ == block_data(data@, blocks@, i as int));
            match extract_all_brush_info_inner(block) {
                Ok(found) => {
                    append_infos(&mut infos, found);
                },
                Err(e) => {
                    if error.is_none() {
                        error = Some(e.message());
                    }
                },
            }
            if raw.is_none() {
                raw = Some(copy_bytes(block));
            }
        }
        i += 1;
    }
    Descs { infos, raw, error }
}

fn append_patts(out: &mut PattBlockOutcome, more: PattBlockOutcome)
    ensures
        final(out)@ == (PattView {
            patterns: old(out)@.patterns + more@.patterns,
            dropped: old(out)@.dropped + more@.dropped,
            unreadable: old(out)@.unreadable + more@.unreadable,
        }),
{
    let mut more: PattBlockOutcome = more;
    let ghost first = *out;
    let ghost rest = more;
    out.patterns.append(&mut more.patterns);
    out.dropped.append(&mut more.dropped);
    out.unreadable.append(&mut more.unreadable);
    proof {
        assert(out.patterns@ =~= first.patterns@ + rest.patterns@);
        assert(out.dropped@ =~= first.dropped@ + rest.dropped@);
        assert(out.unreadable@ =~= first.unreadable@ + rest.unreadable@);
        assert(views(out.patterns@) =~= views(first.patterns@) + views(rest.patterns@));
        assert(views(out.dropped@) =~= views(first.dropped@) + views(rest.dropped@));
        assert(views(out.unreadable@) =~= views(first.unreadable@) + views(rest.unreadable@));
    }
}

fn collect_patts(data: &[u8], blocks: &Vec<Block>) -> (r: PattBlockOutcome)
    requires
        in_order(blocks@, data@.len()),
    ensures
        r@ == patts_of(data@, blocks@, blocks@.len()),
{
    let mut out: PattBlockOutcome = PattBlockOutcome {
        patterns: Vec::new(),
        dropped: Vec::new(),
        unreadable: Vec::new(),
    };
    proof {
        assert(views(out.patterns@) =~= seq![]);
        assert(views(out.dropped@) =~= seq![]);
        assert(views(out.unreadable@) =~= seq![]);
    }
    let mut seen: usize = 0;
    let mut count: usize = 0;
    let mut i: usize = 0;
    while i < blocks.len()
        invariant
            i <= blocks@.len(),
            in_order(blocks@, data@.len()),
            i > 0 ==> seen <= blocks@[i - 1].end,
            i == 0 ==> seen == 0,
            count <= i,
            count == patt_count(blocks@, i as nat),
            seen == record_count(out@),
            out@ == patts_of(data@, blocks@, i as nat),
        decreases blocks@.len() - i,
    {
        reveal(in_order);
        let b: Block = blocks[i];
        assert(seen <= b.start);
        if b.kind == BLOCK_PATT && b.start < b.end {
            let block: &[u8] = &data[b.start..b.end];
            assert(block@ == block_data(data@, blocks@, i as int));
            let more: PattBlockOutcome = parse_patt_block(block, count, seen);
            seen = seen + more.patterns.len() + more.dropped.len() + more.unreadable.len();
            append_patts(&mut out, more);
            count += 1;
        }
        i += 1;
    }
    out
}

fn collect_dual_uuids(infos: &Vec<BrushDescInfo>) -> (r: Vec<Option<String>>)
    ensures
        texts(r@) == dual_uuids_of(views(infos@)),
{
    let mut r: Vec<Option<String>> = Vec::new();
    let mut i: usize = 0;
    while i < infos.len()
        invariant
            i <= infos@.len(),
            r@.len() == i,
            forall|j: int| 0 <= j < i ==> text(#[trigger] r@[j]) == infos@[j]@.dual_brush_uuid,
        decreases infos@.len() - i,
    {
        r.push(crate::support::text::copy_text(&infos[i].dual_brush_uuid));
        i += 1;
    }
    assert(texts(r@) =~= dual_uuids_of(views(infos@)));
    r
}

fn parse_blocks(
    data: &[u8],
    blocks: &Vec<Block>,
    version: AbrVersion,
    subversion: u16,
    deferred: bool,
) -> (r: ParsedAbr)
    requires
        in_order(blocks@, data@.len()),
    ensures
        r.says(block_pack(data@, blocks@, version, subversion, deferred)),
{
    let samps: Vec<SampEntry> = collect_samps(data, blocks, version, subversion, deferred);
    let Descs { infos, raw, error } = collect_descs(data, blocks);
    let PattBlockOutcome { patterns, dropped, unreadable } = collect_patts(data, blocks);
    let preset_count: usize = infos.len();
    assert(views(infos@).len() == infos@.len());
    let computed_presets = collect_computed_presets(&infos);
    let unsupported_tip_presets = collect_unsupported_tip_presets(&infos);
    let dual_uuids: Vec<Option<String>> = collect_dual_uuids(&infos);
    let PairedBrushes {
        brushes,
        dropped_samp_count,
        skipped_preset_count,
        dropped_tip_details,
        skipped_preset_details,
        tips,
        dropped_tips,
    } = pair_brushes(samps, &infos);
    let pack: AbrPack = AbrPack {
        version,
        brushes,
        preset_count,
        raw_desc_block: raw,
        computed_presets,
        patterns,
        dropped_pattern_count: dropped.len(),
        dropped_pattern_details: dropped,
        unreadable_patt_chunk_count: unreadable.len(),
        unreadable_patt_chunks: unreadable,
        dropped_samp_count,
        skipped_preset_count,
        dropped_tip_details,
        skipped_preset_details,
        unsupported_tip_count: unsupported_tip_presets.len(),
        unsupported_tip_presets,
        desc_parse_error: error,
    };
    ParsedAbr { pack, tips, dropped_tips, dual_uuids }
}

pub(crate) fn parse_abr_with(data: &[u8], mode: TipMode, patterns: PatternMode) -> (r: Result<
    ParsedAbr,
    AbrError,
>)
    ensures
        match parsed(data@, mode, patterns) {
            Ok(p) => r matches Ok(v) && v.says(p),
            Err(e) => r matches Err(err) && err@ == e,
        },
{
    reveal(parsed);
    let (version, subversion) = read_header(data)?;
    if version == AbrVersion::V1 || version == AbrVersion::V2 {
        let (brushes, tips) = parse_legacy(
            data,
            4,
            subversion,
            version,
            mode == TipMode::AllDeferred,
        )?;
        let mut pack: AbrPack = AbrPack::default();
        pack.version = version;
        pack.brushes = brushes;
        pack.preset_count = subversion as usize;
        let r: ParsedAbr = ParsedAbr {
            pack,
            tips,
            dropped_tips: Vec::new(),
            dual_uuids: Vec::new(),
        };
        assert(r.dropped_tips@ =~= seq![]);
        assert(texts(r.dual_uuids@) =~= seq![]);
        return Ok(r);
    }
    let blocks: Vec<Block> = read_blocks(data, 4, patterns)?;
    Ok(parse_blocks(data, &blocks, version, subversion, mode != TipMode::Eager))
}

/// The pack that a file holds, with every tip decoded. A sampled tip of the block format
/// whose pixels cannot be decoded is left out; one of an entry stream is an error.
pub fn parse_abr(bytes: &[u8]) -> (r: Result<AbrPack, AbrError>)
    ensures
        match parsed(bytes@, TipMode::Eager, PatternMode::Read) {
            Ok(p) => r matches Ok(pack) && pack@ == p.pack && pack.counted(),
            Err(e) => r matches Err(err) && err@ == e,
        },
{
    let p: ParsedAbr = parse_abr_with(bytes, TipMode::Eager, PatternMode::Read)?;
    Ok(p.pack)
}

} // verus!
