//! PackBits rows, as tips and pattern channels hold them.
//!
//! A table of two-byte row lengths comes first, then the rows. A row is a sequence of
//! runs: a byte below 128 and one literal byte more than it says, or a byte above 128
//! and one byte that stands 257 minus it times. 128 stands for nothing.
use vstd::prelude::*;
use crate::abr::types::{AbrError, AbrErrorView};
use crate::support::bytes::{be_u16, u16_at};
use crate::support::text::{decimal, push_decimal};

verus! {

/// `n` times the byte `v`.
pub open spec fn repeated(v: u8, n: nat) -> Seq<u8> {
    Seq::new(n, |i: int| v)
}

pub open spec fn row_ended(row: nat, produced: nat, width: nat) -> Seq<char> {
    "truncated RLE row "@ + decimal(row) + ": slice ended after "@ + decimal(produced) + " of "@
        + decimal(width) + " bytes"@
}

pub open spec fn literal_cut(row: nat, count: nat) -> Seq<char> {
    "truncated RLE row "@ + decimal(row) + ": literal run of "@ + decimal(count)
        + " exceeds the row's declared bytes"@
}

pub open spec fn repeat_cut(row: nat) -> Seq<char> {
    "truncated RLE row "@ + decimal(row) + ": repeat run has no value byte"@
}

pub open spec fn row_overrun(row: nat, reached: nat, width: nat) -> Seq<char> {
    "RLE row "@ + decimal(row) + " overruns its width: "@ + decimal(reached) + " > "@ + decimal(
        width,
    )
}

pub open spec fn row_missing(row: nat, count: nat, remain: nat) -> Seq<char> {
    "truncated RLE row "@ + decimal(row) + ": declares "@ + decimal(count) + " bytes, "@ + decimal(
        remain,
    ) + " remain"@
}

fn row_ended_error(row: usize, produced: usize, width: usize) -> (r: AbrError)
    ensures
        r@ == AbrErrorView::Decompression(row_ended(row as nat, produced as nat, width as nat)),
{
    let mut m: String = "truncated RLE row ".to_owned();
    push_decimal(&mut m, row as u64);
    m.append(": slice ended after ");
    push_decimal(&mut m, produced as u64);
    m.append(" of ");
    push_decimal(&mut m, width as u64);
    m.append(" bytes");
    AbrError::Decompression(m)
}

fn literal_cut_error(row: usize, count: usize) -> (r: AbrError)
    ensures
        r@ == AbrErrorView::Decompression(literal_cut(row as nat, count as nat)),
{
    let mut m: String = "truncated RLE row ".to_owned();
    push_decimal(&mut m, row as u64);
    m.append(": literal run of ");
    push_decimal(&mut m, count as u64);
    m.append(" exceeds the row's declared bytes");
    AbrError::Decompression(m)
}

fn repeat_cut_error(row: usize) -> (r: AbrError)
    ensures
        r@ == AbrErrorView::Decompression(repeat_cut(row as nat)),
{
    let mut m: String = "truncated RLE row ".to_owned();
    push_decimal(&mut m, row as u64);
    m.append(": repeat run has no value byte");
    AbrError::Decompression(m)
}

fn row_overrun_error(row: usize, reached: usize, width: usize) -> (r: AbrError)
    ensures
        r@ == AbrErrorView::Decompression(row_overrun(row as nat, reached as nat, width as nat)),
{
    let mut m: String = "RLE row ".to_owned();
    push_decimal(&mut m, row as u64);
    m.append(" overruns its width: ");
    push_decimal(&mut m, reached as u64);
    m.append(" > ");
    push_decimal(&mut m, width as u64);
    AbrError::Decompression(m)
}

fn row_missing_error(row: usize, count: usize, remain: usize) -> (r: AbrError)
    ensures
        r@ == AbrErrorView::Decompression(row_missing(row as nat, count as nat, remain as nat)),
{
    let mut m: String = "truncated RLE row ".to_owned();
    push_decimal(&mut m, row as u64);
    m.append(": declares ");
    push_decimal(&mut m, count as u64);
    m.append(" bytes, ");
    push_decimal(&mut m, remain as u64);
    m.append(" remain");
    AbrError::Decompression(m)
}

/// The bytes that the runs of row `row` from `i` on give, behind those in `done`. Bytes
/// of the slice that follow a complete row are ignored.
pub open spec fn row_from(s: Seq<u8>, i: nat, row: nat, width: nat, done: Seq<u8>) -> Result<
    Seq<u8>,
    AbrErrorView,
>
    decreases s.len() - i,
{
    if done.len() >= width {
        Ok(done)
    } else if i >= s.len() {
        Err(AbrErrorView::Decompression(row_ended(row, done.len(), width)))
    } else {
        let n = s[i as int] as nat;
        if n < 128 {
            if i + 1 + n + 1 > s.len() {
                Err(AbrErrorView::Decompression(literal_cut(row, n + 1)))
            } else if done.len() + n + 1 > width {
                Err(AbrErrorView::Decompression(row_overrun(row, done.len() + n + 1, width)))
            } else {
                row_from(
                    s,
                    i + 2 + n,
                    row,
                    width,
                    done + s.subrange(i as int + 1, (i + 2 + n) as int),
                )
            }
        } else if n == 128 {
            row_from(s, i + 1, row, width, done)
        } else {
            let count = (257 - n) as nat;
            if i + 1 >= s.len() {
                Err(AbrErrorView::Decompression(repeat_cut(row)))
            } else if done.len() + count > width {
                Err(AbrErrorView::Decompression(row_overrun(row, done.len() + count, width)))
            } else {
                row_from(s, i + 2, row, width, done + repeated(s[i as int + 1], count))
            }
        }
    }
}

/// The rows from `row` on, whose bytes stand at `pos`, behind those in `done`.
pub open spec fn rows_from(
    d: Seq<u8>,
    height: nat,
    row: nat,
    pos: nat,
    width: nat,
    done: Seq<u8>,
) -> Result<Seq<u8>, AbrErrorView>
    decreases height - row,
{
    if row >= height {
        Ok(done)
    } else {
        let count = be_u16(d, 2 * row as int) as nat;
        if pos + count > d.len() {
            Err(AbrErrorView::Decompression(row_missing(row, count, (d.len() - pos) as nat)))
        } else {
            match row_from(d.subrange(pos as int, (pos + count) as int), 0, row, width, seq![]) {
                Ok(bytes) => rows_from(d, height, row + 1, pos + count, width, done + bytes),
                Err(e) => Err(e),
            }
        }
    }
}

/// The bytes of `height` rows of `width` bytes each.
pub open spec fn rle_of(d: Seq<u8>, height: nat, width: nat) -> Result<Seq<u8>, AbrErrorView> {
    if 2 * height > usize::MAX {
        Err(AbrErrorView::Decompression("RLE row count table too large"@))
    } else if 2 * height > d.len() {
        Err(AbrErrorView::Decompression("truncated RLE row byte counts"@))
    } else {
        rows_from(d, height, 0, 2 * height, width, seq![])
    }
}

/// A decoded row is exactly as wide as it should be.
pub proof fn row_width_is_exact(s: Seq<u8>, i: nat, row: nat, width: nat, done: Seq<u8>)
    requires
        done.len() <= width,
    ensures
        row_from(s, i, row, width, done) matches Ok(bytes) ==> bytes.len() == width,
    decreases s.len() - i,
{
    if done.len() < width && i < s.len() {
        let n = s[i as int] as nat;
        if n < 128 {
            if i + 2 + n <= s.len() && done.len() + n + 1 <= width {
                row_width_is_exact(
                    s,
                    i + 2 + n,
                    row,
                    width,
                    done + s.subrange(i as int + 1, (i + 2 + n) as int),
                );
            }
        } else if n == 128 {
            row_width_is_exact(s, i + 1, row, width, done);
        } else {
            let count = (257 - n) as nat;
            if i + 1 < s.len() && done.len() + count <= width {
                row_width_is_exact(
                    s,
                    i + 2,
                    row,
                    width,
                    done + repeated(s[i as int + 1], count),
                );
            }
        }
    }
}

proof fn rows_len(d: Seq<u8>, height: nat, row: nat, pos: nat, width: nat, done: Seq<u8>)
    requires
        row <= height,
        done.len() == row * width,
    ensures
        rows_from(d, height, row, pos, width, done) matches Ok(bytes) ==> bytes.len() == height
            * width,
    decreases height - row,
{
    if row < height {
        let count = be_u16(d, 2 * row as int) as nat;
        if pos + count <= d.len() {
            let slice = d.subrange(pos as int, (pos + count) as int);
            row_width_is_exact(slice, 0, row, width, seq![]);
            match row_from(slice, 0, row, width, seq![]) {
                Ok(bytes) => {
                    assert((row + 1) * width == row * width + width) by (nonlinear_arith);
                    rows_len(d, height, row + 1, pos + count, width, done + bytes);
                },
                Err(_) => {},
            }
        }
    }
}

/// Decoding that succeeds gives `height * width` bytes.
pub proof fn rle_length_is_exact(d: Seq<u8>, height: nat, width: nat)
    ensures
        rle_of(d, height, width) matches Ok(bytes) ==> bytes.len() == height * width,
{
    assert(0 * width == 0);
    rows_len(d, height, 0, 2 * height, width, seq![]);
}

/// Decodes row `row` from exactly `slice` and appends it. What was there before stays in
/// front, also where the row cannot be decoded.
pub fn decode_rle_row(slice: &[u8], row: usize, row_width: usize, out: &mut Vec<u8>) -> (r: Result<
    (),
    AbrError,
>)
    requires
        row_width <= isize::MAX,
    ensures
        match row_from(slice@, 0, row as nat, row_width as nat, seq![]) {
            Ok(bytes) => r is Ok && final(out)@ == old(out)@ + bytes,
            Err(e) => r matches Err(err) && err@ == e,
        },
        old(out)@.len() <= final(out)@.len() <= old(out)@.len() + row_width,
        final(out)@.take(old(out)@.len() as int) == old(out)@,
{
    let ghost base = out@;
    assert(base.take(base.len() as int) =~= base);
    let ghost mut done: Seq<u8> = seq![];
    let mut i: usize = 0;
    let mut produced: usize = 0;
    assert(out@ =~= base + done);
    while produced < row_width
        invariant
            i <= slice@.len(),
            produced == done.len(),
            produced <= row_width,
            row_width <= isize::MAX,
            base == old(out)@,
            out@ == base + done,
            out@.take(base.len() as int) == base,
            row_from(slice@, 0, row as nat, row_width as nat, seq![]) == row_from(
                slice@,
                i as nat,
                row as nat,
                row_width as nat,
                done,
            ),
        decreases slice@.len() - i,
    {
        if i >= slice.len() {
            return Err(row_ended_error(row, produced, row_width));
        }
        let n: u8 = slice[i];
        i += 1;
        if n < 128 {
            let count: usize = n as usize + 1;
            if count > slice.len() - i {
                return Err(literal_cut_error(row, count));
            }
            if count > row_width - produced {
                return Err(row_overrun_error(row, produced + count, row_width));
            }
            let run: &[u8] = &slice[i..i + count];
            out.extend_from_slice(run);
            proof {
                done = done + run@;
                assert(out@ =~= base + done);
                assert(out@.take(base.len() as int) =~= base);
            }
            produced += count;
            i += count;
        } else if n > 128 {
            let count: usize = 257 - n as usize;
            if i >= slice.len() {
                return Err(repeat_cut_error(row));
            }
            let value: u8 = slice[i];
            if count > row_width - produced {
                return Err(row_overrun_error(row, produced + count, row_width));
            }
            let mut k: usize = 0;
            while k < count
                invariant
                    k <= count,
                    out@ =~= base + done + repeated(value, k as nat),
                decreases count - k,
            {
                out.push(value);
                k += 1;
            }
            proof {
                done = done + repeated(value, count as nat);
                assert(out@ =~= base + done);
                assert(out@.take(base.len() as int) =~= base);
            }
            produced += count;
            i += 1;
        }
    }
    Ok(())
}

/// Decodes `height` rows of `width` pixels of `bytes_per_pixel` bytes each, which is
/// `expected_size` bytes in all.
pub fn decode_rle(
    data: &[u8],
    height: usize,
    width: usize,
    bytes_per_pixel: usize,
    expected_size: usize,
) -> (r: Result<Vec<u8>, AbrError>)
    requires
        width * bytes_per_pixel <= isize::MAX,
        expected_size == height * width * bytes_per_pixel,
    ensures
        match rle_of(data@, height as nat, (width * bytes_per_pixel) as nat) {
            Ok(bytes) => r matches Ok(v) && v@ == bytes && v@.len() == expected_size,
            Err(e) => r matches Err(err) && err@ == e,
        },
{
    if height > usize::MAX / 2 {
        return Err(AbrError::Decompression("RLE row count table too large".to_owned()));
    }
    let counts_len: usize = 2 * height;
    if counts_len > data.len() {
        return Err(AbrError::Decompression("truncated RLE row byte counts".to_owned()));
    }
    let row_width: usize = width * bytes_per_pixel;
    let remaining: usize = data.len() - counts_len;
    let most: usize = if remaining > usize::MAX / 128 {
        usize::MAX
    } else {
        remaining * 128
    };
    let mut out: Vec<u8> = Vec::with_capacity(
        if expected_size < most {
            expected_size
        } else {
            most
        },
    );
    let mut pos: usize = counts_len;
    let mut row: usize = 0;
    while row < height
        invariant
            row <= height,
            height <= usize::MAX / 2,
            counts_len == 2 * height,
            counts_len <= pos <= data@.len(),
            row_width <= isize::MAX,
            row_width == width * bytes_per_pixel,
            rle_of(data@, height as nat, row_width as nat)
                == rows_from(data@, height as nat, row as nat, pos as nat, row_width as nat, out@),
        decreases height - row,
    {
        let count: usize = u16_at(data, 2 * row) as usize;
        if count > data.len() - pos {
            return Err(row_missing_error(row, count, data.len() - pos));
        }
        let slice: &[u8] = &data[pos..pos + count];
        decode_rle_row(slice, row, row_width, &mut out)?;
        pos += count;
        row += 1;
    }
    proof {
        rle_length_is_exact(data@, height as nat, row_width as nat);
        assert(height * width * bytes_per_pixel == height * (width * bytes_per_pixel))
            by (nonlinear_arith);
    }
    Ok(out)
}

} // verus!
