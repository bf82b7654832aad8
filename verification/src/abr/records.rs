//! Pattern records that stand one behind the other in a block.
use vstd::prelude::*;
use crate::abr::pattern::{patt_of, record_header, records_from, with_record, PattView};
use crate::abr::samp::padded;
use crate::abr::textures::{framed, frame_is_read};
use crate::abr::types::UnreadablePattChunk;
use crate::abr::written::{parts, whole_stands};
use crate::fixture::be32;
use crate::round_trip::u32_is_read;
use crate::support::bytes::{be_u32, fits};

verus! {

/// What cannot be read, in a block with `k` bytes in front of it.
pub open spec fn moved(found: Seq<UnreadablePattChunk>, k: nat) -> Seq<UnreadablePattChunk> {
    Seq::new(
        found.len(),
        |i: int|
            UnreadablePattChunk {
                block_index: found[i].block_index,
                offset: (found[i].offset + k) as usize,
                declared_length: found[i].declared_length,
            },
    )
}

/// Is `all` what became of the records of two blocks, of which the second has `k` bytes in front
/// of it?
pub open spec fn is_both(all: PattView, first: PattView, second: PattView, k: nat) -> bool {
    &&& all.patterns == first.patterns + second.patterns
    &&& all.dropped == first.dropped + second.dropped
    &&& all.unreadable == first.unreadable + moved(second.unreadable, k)
}

proof fn a_record_adds(
    record: Seq<u8>,
    block_index: usize,
    offset: nat,
    k: nat,
    index: nat,
    all: PattView,
    first: PattView,
    second: PattView,
)
    requires
        is_both(all, first, second, k),
        offset + k <= usize::MAX,
    ensures
        is_both(
            with_record(record, block_index, offset + k, index, all),
            first,
            with_record(record, block_index, offset, index, second),
            k,
        ),
{
    let a = with_record(record, block_index, offset + k, index, all);
    let s = with_record(record, block_index, offset, index, second);
    assert(a.patterns =~= first.patterns + s.patterns);
    assert(a.dropped =~= first.dropped + s.dropped);
    assert(a.unreadable =~= first.unreadable + moved(s.unreadable, k));
}

proof fn records_move(
    d: Seq<u8>,
    rest: Seq<u8>,
    k: nat,
    block_index: usize,
    offset: nat,
    index: nat,
    all: PattView,
    first: PattView,
    second: PattView,
)
    requires
        k <= d.len() <= usize::MAX,
        k % 4 == 0,
        rest == d.skip(k as int),
        is_both(all, first, second, k),
    ensures
        is_both(
            records_from(d, block_index, offset + k, index, all),
            first,
            records_from(rest, block_index, offset, index, second),
            k,
        ),
    decreases rest.len() + 4 - offset,
{
    if fits(rest, offset, 4) {
        assert(be_u32(d, (offset + k) as int) == be_u32(rest, offset as int));
        let end = offset + 4 + be_u32(rest, offset as int) as nat;
        if end <= rest.len() {
            let record = rest.subrange(offset as int + 4, end as int);
            assert(d.subrange((offset + k) as int + 4, (end + k) as int) =~= record);
            assert(padded(end + k) == padded(end) + k);
            a_record_adds(record, block_index, offset, k, index, all, first, second);
            records_move(
                d,
                rest,
                k,
                block_index,
                padded(end),
                index + 1,
                with_record(record, block_index, offset + k, index, all),
                first,
                with_record(record, block_index, offset, index, second),
            );
        }
    }
}

proof fn first_is_framed(record: Seq<u8>, rest: Seq<u8>)
    requires
        record.len() <= u32::MAX - 16,
    ensures
        ({
            let d = framed(record) + rest;
            let end = 4 + record.len();
            &&& be_u32(d, 0) == record.len()
            &&& fits(d, 0, end)
            &&& d.subrange(4, end as int) == record
            &&& framed(record).len() == padded(end)
        }),
{
    reveal(framed);
    let d = framed(record) + rest;
    let len = record.len();
    let pad = Seq::new(((4 - len as int % 4) % 4) as nat, |i: int| 0u8);
    assert(d =~= be32(len as u32) + (record + (pad + rest)));
    whole_stands(d);
    parts(d, 0, be32(len as u32), record + (pad + rest));
    u32_is_read(d, 0, len as u32);
    parts(d, 4, record, pad + rest);
}

proof fn first_is_taken(
    d: Seq<u8>,
    record: Seq<u8>,
    block_index: usize,
    index: nat,
    none: PattView,
)
    requires
        be_u32(d, 0) == record.len(),
        fits(d, 0, 4 + record.len()),
        d.subrange(4, 4 + record.len() as int) == record,
    ensures
        records_from(d, block_index, 0, index, none) == records_from(
            d,
            block_index,
            padded(4 + record.len()),
            index + 1,
            with_record(record, block_index, 0, index, none),
        ),
{
}

/// A record in front of others changes nothing of them but their numbers and places: the block
/// gives what the record gives alone, and then what the others give.
pub proof fn records_stand_side_by_side(
    record: Seq<u8>,
    rest: Seq<u8>,
    block_index: usize,
    index: nat,
)
    requires
        record.len() <= u32::MAX - 16,
        framed(record).len() + rest.len() <= usize::MAX,
    ensures
        is_both(
            patt_of(framed(record) + rest, block_index, index),
            patt_of(framed(record), block_index, index),
            patt_of(rest, block_index, index + 1),
            framed(record).len(),
        ),
{
    let one = framed(record);
    let d = one + rest;
    let end = 4 + record.len();
    let none = PattView { patterns: seq![], dropped: seq![], unreadable: seq![] };
    let first = with_record(record, block_index, 0, index, none);
    frame_is_read(record, block_index, index);
    first_is_framed(record, rest);
    first_is_taken(d, record, block_index, index, none);
    assert(d.skip(one.len() as int) =~= rest);
    nothing_adds_nothing(first, none, one.len());
    assert(padded(end) % 4 == 0);
    records_move(d, rest, one.len(), block_index, 0, index + 1, first, first, none);
}

proof fn nothing_adds_nothing(first: PattView, none: PattView, k: nat)
    requires
        none.patterns.len() == 0,
        none.dropped.len() == 0,
        none.unreadable.len() == 0,
    ensures
        is_both(first, first, none, k),
{
    assert(first.patterns + none.patterns =~= first.patterns);
    assert(first.dropped + none.dropped =~= first.dropped);
    assert(first.unreadable + moved(none.unreadable, k) =~= first.unreadable);
}

/// A record that is too short for a header is listed with its block, its place and its length.
pub proof fn a_short_record_is_unreadable(record: Seq<u8>, block_index: usize, index: nat)
    requires
        record.len() < 16,
    ensures
        ({
            let out = patt_of(framed(record), block_index, index);
            &&& out.patterns.len() == 0
            &&& out.dropped.len() == 0
            &&& out.unreadable.len() == 1
            &&& out.unreadable[0].block_index == block_index
            &&& out.unreadable[0].offset == 0
            &&& out.unreadable[0].declared_length == record.len()
        }),
{
    frame_is_read(record, block_index, index);
    assert(record_header(record) is None);
}

} // verus!
