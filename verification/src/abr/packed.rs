//! PackBits rows that were written are decoded to what was written.
use vstd::prelude::*;
use crate::abr::local::stands_at;
use crate::abr::order::joined;
use crate::abr::rle::{repeated, rle_of, row_from, rows_from};
use crate::abr::types::AbrErrorView;
use crate::abr::written::parts;
use crate::fixture::be16;
use crate::support::bytes::be_u16;

verus! {

/// A run of a row.
pub enum Run {
    /// Bytes as they stand.
    Literal(Seq<u8>),
    /// A byte and how often it stands.
    Repeat(u8, nat),
    /// Nothing.
    Pause,
}

/// Can a run be written? It has at most 128 bytes, and one that repeats at least two.
pub open spec fn run_ok(run: Run) -> bool {
    match run {
        Run::Literal(b) => 1 <= b.len() <= 128,
        Run::Repeat(_, n) => 2 <= n <= 128,
        Run::Pause => true,
    }
}

/// A run as it is written.
pub open spec fn run_bytes(run: Run) -> Seq<u8> {
    match run {
        Run::Literal(b) => seq![(b.len() - 1) as u8] + b,
        Run::Repeat(v, n) => seq![(257 - n) as u8, v],
        Run::Pause => seq![128u8],
    }
}

/// The bytes that a run stands for.
pub open spec fn run_pixels(run: Run) -> Seq<u8> {
    match run {
        Run::Literal(b) => b,
        Run::Repeat(v, n) => Seq::new(n, |i: int| v),
        Run::Pause => seq![],
    }
}

/// Runs as they are written.
pub open spec fn row_bytes(runs: Seq<Run>) -> Seq<u8>
    decreases runs.len(),
{
    if runs.len() == 0 {
        seq![]
    } else {
        run_bytes(runs[0]) + row_bytes(runs.drop_first())
    }
}

/// The bytes that runs stand for.
pub open spec fn row_pixels(runs: Seq<Run>) -> Seq<u8>
    decreases runs.len(),
{
    if runs.len() == 0 {
        seq![]
    } else {
        run_pixels(runs[0]) + row_pixels(runs.drop_first())
    }
}

/// Is `b` a way to write the row `pixels`?
pub open spec fn is_row(b: Seq<u8>, pixels: Seq<u8>) -> bool {
    &&& b.len() <= 0xFFFF
    &&& exists|runs: Seq<Run>|
        {
            &&& b == #[trigger] row_bytes(runs)
            &&& pixels == row_pixels(runs)
            &&& forall|i: int| 0 <= i < runs.len() ==> run_ok(#[trigger] runs[i])
        }
}

proof fn runs_are_decoded(s: Seq<u8>, i: nat, runs: Seq<Run>, row: nat, done: Seq<u8>)
    requires
        i + row_bytes(runs).len() == s.len(),
        stands_at(s, i, row_bytes(runs)),
        forall|k: int| 0 <= k < runs.len() ==> run_ok(#[trigger] runs[k]),
    ensures
        ({
            let all = done + row_pixels(runs);
            row_from(s, i, row, all.len(), done) == Ok::<Seq<u8>, AbrErrorView>(all)
        }),
    decreases runs.len(),
{
    let all = done + row_pixels(runs);
    let width = all.len();
    if runs.len() == 0 {
        assert(all =~= done);
    } else {
        let run = runs[0];
        let rest = runs.drop_first();
        assert(run_ok(run));
        assert forall|k: int| 0 <= k < rest.len() implies run_ok(#[trigger] rest[k]) by {
            assert(rest[k] == runs[k + 1]);
        }
        let b = run_bytes(run);
        parts(s, i, b, row_bytes(rest));
        let more = done + run_pixels(run);
        assert(all =~= more + row_pixels(rest));
        runs_are_decoded(s, i + b.len(), rest, row, more);
        let here = s.subrange(i as int, (i + b.len()) as int);
        assert(here[0] == s[i as int]);
        match run {
            Run::Literal(v) => {
                assert(s[i as int] == (v.len() - 1) as u8);
                assert(s.subrange(i as int + 1, (i + 1 + v.len()) as int) =~= v) by {
                    assert forall|k: int| 0 <= k < v.len() implies s[i + 1 + k] == v[k] by {
                        assert(here[k + 1] == b[k + 1]);
                    }
                }
            },
            Run::Repeat(v, n) => {
                assert(here[1] == s[i as int + 1]);
                assert(repeated(v, n) =~= run_pixels(run));
            },
            Run::Pause => {
                assert(more =~= done);
                if done.len() >= width {
                    assert(all =~= done);
                }
            },
        }
    }
}

/// A row is decoded to what was written.
pub proof fn a_row_is_decoded(b: Seq<u8>, pixels: Seq<u8>, row: nat)
    requires
        is_row(b, pixels),
    ensures
        row_from(b, 0, row, pixels.len(), seq![]) == Ok::<Seq<u8>, AbrErrorView>(pixels),
{
    let runs = choose|runs: Seq<Run>|
        {
            &&& b == #[trigger] row_bytes(runs)
            &&& pixels == row_pixels(runs)
            &&& forall|i: int| 0 <= i < runs.len() ==> run_ok(#[trigger] runs[i])
        };
    let none: Seq<u8> = seq![];
    assert(b.subrange(0, b.len() as int) =~= b);
    runs_are_decoded(b, 0, runs, row, none);
    assert(none + row_pixels(runs) =~= pixels);
}

/// The table of the lengths of rows.
pub open spec fn table_bytes(rows: Seq<Seq<u8>>) -> Seq<u8> {
    Seq::new(
        2 * rows.len(),
        |i: int|
            if i % 2 == 0 {
                (rows[i / 2].len() / 0x100) as u8
            } else {
                (rows[i / 2].len() % 0x100) as u8
            },
    )
}

/// Are these rows of `width` bytes, written in this way?
pub open spec fn are_rows(written: Seq<Seq<u8>>, rows: Seq<Seq<u8>>, width: nat) -> bool {
    &&& written.len() == rows.len()
    &&& forall|i: int|
        0 <= i < rows.len() ==> is_row(#[trigger] written[i], rows[i]) && rows[i].len() == width
}

proof fn rows_are_decoded(
    d: Seq<u8>,
    pos: nat,
    written: Seq<Seq<u8>>,
    rows: Seq<Seq<u8>>,
    n: nat,
    width: nat,
    done: Seq<u8>,
)
    requires
        are_rows(written, rows, width),
        n <= rows.len(),
        stands_at(d, 0, table_bytes(written)),
        stands_at(d, pos, joined(written.skip(n as int))),
    ensures
        rows_from(d, rows.len(), n, pos, width, done) == Ok::<Seq<u8>, AbrErrorView>(
            done + joined(rows.skip(n as int)),
        ),
    decreases rows.len() - n,
{
    let left = written.skip(n as int);
    if n == rows.len() {
        assert(rows.skip(n as int) =~= seq![]);
        assert(done + joined(rows.skip(n as int)) =~= done);
    } else {
        let b = written[n as int];
        assert(is_row(b, rows[n as int]));
        assert(left.drop_first() =~= written.skip(n as int + 1));
        assert(left[0] == b);
        parts(d, pos, b, joined(left.drop_first()));
        let table = table_bytes(written);
        let at = d.subrange(0, table.len() as int);
        assert(at[2 * n as int] == d[2 * n as int] && at[2 * n as int + 1] == d[2 * n as int + 1]);
        assert((2 * n + 1) / 2 == n && (2 * n + 1) % 2 == 1);
        assert(be_u16(d, 2 * n as int) == b.len());
        a_row_is_decoded(b, rows[n as int], n);
        let more = done + rows[n as int];
        rows_are_decoded(d, pos + b.len(), written, rows, n + 1, width, more);
        assert(rows.skip(n as int).drop_first() =~= rows.skip(n as int + 1));
        assert(more + joined(rows.skip(n as int + 1)) =~= done + joined(rows.skip(n as int)));
    }
}

/// Is `data` a way to write these rows: a table of lengths and the rows, and anything behind
/// them?
pub open spec fn is_packed(data: Seq<u8>, rows: Seq<Seq<u8>>, width: nat) -> bool {
    exists|written: Seq<Seq<u8>>, tail: Seq<u8>|
        {
            &&& are_rows(written, rows, width)
            &&& data == table_bytes(written) + #[trigger] (joined(written) + tail)
        }
}

/// Rows that were written are decoded to what was written.
pub proof fn packed_rows_are_decoded(data: Seq<u8>, rows: Seq<Seq<u8>>, width: nat)
    requires
        is_packed(data, rows, width),
        data.len() <= usize::MAX,
    ensures
        rle_of(data, rows.len(), width) == Ok::<Seq<u8>, AbrErrorView>(joined(rows)),
{
    let (written, tail) = choose|written: Seq<Seq<u8>>, tail: Seq<u8>|
        {
            &&& are_rows(written, rows, width)
            &&& data == table_bytes(written) + #[trigger] (joined(written) + tail)
        };
    let table = table_bytes(written);
    assert(data.subrange(0, data.len() as int) =~= data);
    parts(data, 0, table, joined(written) + tail);
    parts(data, table.len(), joined(written), tail);
    assert(written.skip(0) =~= written);
    assert(rows.skip(0) =~= rows);
    let none: Seq<u8> = seq![];
    rows_are_decoded(data, table.len(), written, rows, 0, width, none);
    assert(none + joined(rows) =~= joined(rows));
}

} // verus!
