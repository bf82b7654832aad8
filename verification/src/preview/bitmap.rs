//! Gray bitmaps: from tips, back to tips, and smaller.
use vstd::prelude::*;
use crate::abr::types::{TipBitmap, TipView};
use crate::support::bytes::copy_bytes;
use crate::support::double::{
    scale_floor, scale_side, scaled, scaled_fits, scaled_floor, scaled_floor_is_exact,
    scaled_shrinks, DIGITS,
};

verus! {

/// A gray bitmap, row by row, 255 for full ink.
#[derive(Debug, Clone)]
pub struct GrayscaleBitmap {
    pub width: u32,
    pub height: u32,
    pub data: Vec<u8>,
}

/// The model of a [`GrayscaleBitmap`].
pub struct BitmapView {
    pub width: u32,
    pub height: u32,
    pub data: Seq<u8>,
}

impl View for GrayscaleBitmap {
    type V = BitmapView;

    open spec fn view(&self) -> BitmapView {
        BitmapView { width: self.width, height: self.height, data: self.data@ }
    }
}

impl BitmapView {
    /// There is one byte per pixel.
    pub open spec fn wf(self) -> bool {
        self.data.len() == self.width * self.height
    }
}

impl GrayscaleBitmap {
    /// A copy.
    pub fn duplicate(&self) -> (r: GrayscaleBitmap)
        ensures
            r@ == self@,
    {
        GrayscaleBitmap {
            width: self.width,
            height: self.height,
            data: copy_bytes(self.data.as_slice()),
        }
    }
}

/// The gray of a tip: the high bytes of 16-bit samples, else the samples.
pub open spec fn grayscale_of(tip: TipView) -> BitmapView {
    BitmapView {
        width: tip.width,
        height: tip.height,
        data: if tip.depth == 16 {
            Seq::new(tip.data.len() / 2, |i: int| tip.data[2 * i])
        } else {
            tip.data
        },
    }
}

/// The tip that a bitmap is.
pub open spec fn tip_of_bitmap(bitmap: BitmapView) -> TipView {
    TipView { width: bitmap.width, height: bitmap.height, depth: 8, data: bitmap.data }
}

/// The gray of a tip.
pub fn to_grayscale(tip: &TipBitmap) -> (r: GrayscaleBitmap)
    ensures
        r@ == grayscale_of(tip@),
{
    if tip.depth == 16 {
        let n: usize = tip.data.len() / 2;
        assert(2 * n <= tip.data.len());
        let mut data: Vec<u8> = Vec::with_capacity(n);
        let mut i: usize = 0;
        while i < n
            invariant
                i <= n,
                n == tip.data@.len() / 2,
                2 * n <= usize::MAX,
                data@ =~= Seq::new(i as nat, |i: int| tip.data@[2 * i]),
            decreases n - i,
        {
            data.push(tip.data[2 * i]);
            i += 1;
        }
        GrayscaleBitmap { width: tip.width, height: tip.height, data }
    } else {
        GrayscaleBitmap {
            width: tip.width,
            height: tip.height,
            data: copy_bytes(tip.data.as_slice()),
        }
    }
}

/// The tip that a bitmap is. Both are 255 for full ink, so the pixels stay.
pub fn tip_bitmap_of(bitmap: &GrayscaleBitmap) -> (r: TipBitmap)
    ensures
        r@ == tip_of_bitmap(bitmap@),
{
    TipBitmap {
        width: bitmap.width,
        height: bitmap.height,
        depth: 8,
        data: copy_bytes(bitmap.data.as_slice()),
    }
}

/// A bitmap made a tip is the bitmap's gray again, and an 8-bit tip made gray is the
/// gray's tip again.
pub proof fn gray_and_tip_are_inverse(bitmap: BitmapView, tip: TipView)
    ensures
        grayscale_of(tip_of_bitmap(bitmap)) == bitmap,
        tip.depth == 8 ==> tip_of_bitmap(grayscale_of(tip)) == tip,
{
}

/// The larger of two.
pub open spec fn larger(a: nat, b: nat) -> nat {
    if a >= b {
        a
    } else {
        b
    }
}

/// A side of a bitmap of `w` by `h` that is scaled until its larger side is `max`; at
/// least 1.
pub open spec fn small_side(side: u32, w: u32, h: u32, max: u32) -> nat {
    larger(1, scaled(side as nat, max as nat, larger(w as nat, h as nat)))
}

/// The sum of the bytes `from..to` of `data`.
pub open spec fn sum_of(data: Seq<u8>, from: int, to: int) -> nat
    decreases to - from,
{
    if to <= from {
        0
    } else {
        sum_of(data, from, to - 1) + data[to - 1] as nat
    }
}

/// The sum of the pixels in columns `x0..x1` and rows `y0..y1`.
pub open spec fn box_sum(b: BitmapView, x0: nat, x1: nat, y0: nat, y1: nat) -> nat
    decreases y1 - y0,
{
    if y1 <= y0 {
        0
    } else {
        box_sum(b, x0, x1, y0, (y1 - 1) as nat) + sum_of(
            b.data,
            (y1 - 1) * b.width + x0,
            (y1 - 1) * b.width + x1,
        )
    }
}

/// Where destination pixel `i` of `t` starts in a side of `n` source pixels.
pub open spec fn span_start(i: nat, n: u32, t: nat) -> nat {
    scaled_floor(i, n as nat, t)
}

/// Where destination pixel `i` of `t` ends in a side of `n` source pixels.
pub open spec fn span_end(i: nat, n: u32, t: nat) -> nat {
    let end = scaled_floor(i + 1, n as nat, t);
    if end <= n {
        end
    } else {
        n as nat
    }
}

/// The number of positions in a span.
pub open spec fn span_len(i: nat, n: u32, t: nat) -> nat {
    if span_start(i, n, t) < span_end(i, n, t) {
        (span_end(i, n, t) - span_start(i, n, t)) as nat
    } else {
        0
    }
}

/// The mean, rounded down, of the source pixels that destination pixel `(x, y)` of a
/// `tw` by `th` bitmap covers; 0 where it covers none.
pub open spec fn cell_mean(b: BitmapView, x: nat, y: nat, tw: nat, th: nat) -> u8 {
    let count = span_len(x, b.width, tw) * span_len(y, b.height, th);
    if count == 0 {
        0
    } else {
        (box_sum(
            b,
            span_start(x, b.width, tw),
            span_end(x, b.width, tw),
            span_start(y, b.height, th),
            span_end(y, b.height, th),
        ) / count) as u8
    }
}

/// The bitmap at `tw` by `th`, each pixel the mean of those that it covers.
pub open spec fn resampled(b: BitmapView, tw: nat, th: nat) -> Seq<u8> {
    Seq::new(tw * th, |i: int| cell_mean(b, (i % tw as int) as nat, (i / tw as int) as nat, tw, th))
}

/// The bitmap scaled until its larger side is `max_side`, or as it is where it fits. A
/// `max_side` of 0 is taken for 1.
pub open spec fn downsampled(b: BitmapView, max_side: u32) -> BitmapView {
    let max = larger(1, max_side as nat) as u32;
    if b.width <= max && b.height <= max {
        b
    } else {
        let tw = small_side(b.width, b.width, b.height, max);
        let th = small_side(b.height, b.width, b.height, max);
        BitmapView { width: tw as u32, height: th as u32, data: resampled(b, tw, th) }
    }
}

/// Where each destination pixel of a side starts and ends in the source.
spec fn spans_are(v: Seq<(u32, u32)>, n: u32, t: nat) -> bool {
    forall|i: int|
        0 <= i < v.len() ==> {
            &&& (#[trigger] v[i]).1 == span_end(i as nat, n, t)
            &&& v[i].0 == span_start(i as nat, n, t) || (v[i].0 == n && span_start(i as nat, n, t)
                >= n)
        }
}

fn source_spans(n: u32, t: u32) -> (v: Vec<(u32, u32)>)
    requires
        t > 0,
    ensures
        v@.len() == t,
        spans_are(v@, n, t as nat),
{
    let mut v: Vec<(u32, u32)> = Vec::with_capacity(t as usize);
    let mut i: u32 = 0;
    while i < t
        invariant
            t > 0,
            i <= t,
            v@.len() == i,
            spans_are(v@, n, t as nat),
        decreases t - i,
    {
        let start: u128 = scale_floor(i, n, t);
        let end: u128 = scale_floor(i + 1, n, t);
        let from: u32 = if start <= n as u128 {
            start as u32
        } else {
            n
        };
        let to: u32 = if end <= n as u128 {
            end as u32
        } else {
            n
        };
        v.push((from, to));
        i += 1;
    }
    v
}

proof fn sum_is_bounded(data: Seq<u8>, from: int, to: int)
    ensures
        from <= to ==> sum_of(data, from, to) <= 255 * (to - from),
    decreases to - from,
{
    if from < to {
        sum_is_bounded(data, from, to - 1);
    }
}

proof fn box_sum_is_bounded(b: BitmapView, x0: nat, x1: nat, y0: nat, y1: nat)
    requires
        x0 <= x1,
        y0 <= y1,
    ensures
        box_sum(b, x0, x1, y0, y1) <= 255 * ((x1 - x0) * (y1 - y0)),
    decreases y1 - y0,
{
    if y0 < y1 {
        box_sum_is_bounded(b, x0, x1, y0, (y1 - 1) as nat);
        sum_is_bounded(b.data, (y1 - 1) * b.width + x0, (y1 - 1) * b.width + x1);
        assert((x1 - x0) * (y1 - y0) == (x1 - x0) * (y1 - 1 - y0) + (x1 - x0)) by (nonlinear_arith);
    }
}

fn row_sum(data: &Vec<u8>, from: usize, to: usize) -> (r: u64)
    requires
        from <= to <= data@.len(),
        to - from <= u32::MAX,
    ensures
        r == sum_of(data@, from as int, to as int),
        r <= 255 * (to - from),
{
    let mut sum: u64 = 0;
    let mut i: usize = from;
    while i < to
        invariant
            from <= i <= to <= data@.len(),
            to - from <= u32::MAX,
            sum == sum_of(data@, from as int, i as int),
            sum <= 255 * (i - from),
        decreases to - i,
    {
        sum = sum + data[i] as u64;
        i += 1;
    }
    sum
}

fn box_mean(b: &GrayscaleBitmap, x0: u32, x1: u32, y0: u32, y1: u32) -> (r: u8)
    requires
        b@.width * b@.height <= b@.data.len(),
        x0 < x1 <= b.width,
        y0 < y1 <= b.height,
    ensures
        r == (box_sum(b@, x0 as nat, x1 as nat, y0 as nat, y1 as nat) / (((x1 - x0) * (y1
            - y0)) as nat)) as u8,
{
    let ghost area = (x1 - x0) * (y1 - y0);
    proof {
        assert(0 < area <= 0xFFFF_FFFF * 0xFFFF_FFFF) by (nonlinear_arith)
            requires
                area == (x1 - x0) * (y1 - y0),
                0 < x1 - x0 <= 0xFFFF_FFFF,
                0 < y1 - y0 <= 0xFFFF_FFFF,
        ;
    }
    let mut sum: u128 = 0;
    let mut y: u32 = y0;
    while y < y1
        invariant
            b@.width * b@.height <= b@.data.len(),
            x0 < x1 <= b.width,
            y0 <= y <= y1 <= b.height,
            sum == box_sum(b@, x0 as nat, x1 as nat, y0 as nat, y as nat),
            sum <= 0xFE_FFFF_FF01 * (y - y0),
        decreases y1 - y,
    {
        proof {
            assert(b.data.len() <= usize::MAX);
            assert(y * b.width + b.width <= b.width * b.height) by (nonlinear_arith)
                requires
                    y + 1 <= b.height,
            ;
        }
        let base: usize = y as usize * b.width as usize;
        sum = sum + row_sum(&b.data, base + x0 as usize, base + x1 as usize) as u128;
        y += 1;
    }
    proof {
        box_sum_is_bounded(b@, x0 as nat, x1 as nat, y0 as nat, y1 as nat);
        assert(sum / area as u128 <= 255) by (nonlinear_arith)
            requires
                sum <= 255 * area,
                0 < area <= 0xFFFF_FFFF * 0xFFFF_FFFF,
        ;
    }
    let count: u64 = (x1 - x0) as u64 * (y1 - y0) as u64;
    (sum / count as u128) as u8
}

/// The bitmap at `tw` by `th`, each pixel the mean of those that it covers.
pub fn resample(b: &GrayscaleBitmap, tw: u32, th: u32) -> (data: Vec<u8>)
    requires
        b@.width * b@.height <= b@.data.len(),
        tw > 0,
        th > 0,
    ensures
        data@ == resampled(b@, tw as nat, th as nat),
{
    let columns: Vec<(u32, u32)> = source_spans(b.width, tw);
    let rows: Vec<(u32, u32)> = source_spans(b.height, th);
    let mut data: Vec<u8> = Vec::new();
    let mut y: u32 = 0;
    proof {
        assert(0 * tw == 0);
    }
    while y < th
        invariant
            b@.width * b@.height <= b@.data.len(),
            tw > 0,
            y <= th,
            columns@.len() == tw,
            rows@.len() == th,
            spans_are(columns@, b.width, tw as nat),
            spans_are(rows@, b.height, th as nat),
            data@.len() == y * tw,
            forall|i: int|
                0 <= i < data@.len() ==> #[trigger] data@[i] == cell_mean(
                    b@,
                    (i % tw as int) as nat,
                    (i / tw as int) as nat,
                    tw as nat,
                    th as nat,
                ),
        decreases th - y,
    {
        let (y0, y1) = rows[y as usize];
        let mut x: u32 = 0;
        while x < tw
            invariant
                b@.width * b@.height <= b@.data.len(),
                tw > 0,
                y < th,
                x <= tw,
                columns@.len() == tw,
                rows@.len() == th,
                (y0, y1) == rows@[y as int],
                spans_are(columns@, b.width, tw as nat),
                spans_are(rows@, b.height, th as nat),
                data@.len() == y * tw + x,
                forall|i: int|
                    0 <= i < data@.len() ==> #[trigger] data@[i] == cell_mean(
                        b@,
                        (i % tw as int) as nat,
                        (i / tw as int) as nat,
                        tw as nat,
                        th as nat,
                    ),
            decreases tw - x,
        {
            let (x0, x1) = columns[x as usize];
            assert(columns@[x as int] == (x0, x1));
            let value: u8 = if x0 < x1 && y0 < y1 {
                box_mean(b, x0, x1, y0, y1)
            } else {
                0
            };
            proof {
                let i = y * tw + x;
                vstd::arithmetic::div_mod::lemma_fundamental_div_mod_converse(
                    i,
                    tw as int,
                    y as int,
                    x as int,
                );
                mean_of_spans(
                    b@,
                    x as nat,
                    y as nat,
                    tw as nat,
                    th as nat,
                    (x0, x1),
                    (y0, y1),
                );
                assert(value == cell_mean(b@, x as nat, y as nat, tw as nat, th as nat));
            }
            data.push(value);
            x += 1;
        }
        proof {
            assert(y * tw + tw == (y + 1) * tw) by (nonlinear_arith);
        }
        y += 1;
    }
    assert(th * tw == tw * th) by (nonlinear_arith);
    assert(data@ =~= resampled(b@, tw as nat, th as nat));
    data
}

/// The mean over the spans `xs` and `ys` is the pixel's.
proof fn mean_of_spans(
    b: BitmapView,
    x: nat,
    y: nat,
    tw: nat,
    th: nat,
    xs: (u32, u32),
    ys: (u32, u32),
)
    requires
        xs.1 == span_end(x, b.width, tw),
        xs.0 == span_start(x, b.width, tw) || (xs.0 == b.width && span_start(x, b.width, tw)
            >= b.width),
        ys.1 == span_end(y, b.height, th),
        ys.0 == span_start(y, b.height, th) || (ys.0 == b.height && span_start(y, b.height, th)
            >= b.height),
    ensures
        cell_mean(b, x, y, tw, th) == (if xs.0 < xs.1 && ys.0 < ys.1 {
            (box_sum(b, xs.0 as nat, xs.1 as nat, ys.0 as nat, ys.1 as nat) / (((xs.1 - xs.0) * (
            ys.1 - ys.0)) as nat)) as u8
        } else {
            0
        }),
{
    let w = span_len(x, b.width, tw);
    let h = span_len(y, b.height, th);
    if xs.0 < xs.1 && ys.0 < ys.1 {
        assert(w == xs.1 - xs.0);
        assert(h == ys.1 - ys.0);
        assert(w * h > 0) by (nonlinear_arith)
            requires
                w > 0,
                h > 0,
        ;
    } else {
        assert(w == 0 || h == 0);
        assert(w * h == 0) by (nonlinear_arith)
            requires
                w == 0 || h == 0,
        ;
    }
}

/// A scaled bitmap has as many bytes as pixels, no side longer than `max_side`, and no side of
/// length 0 unless it fitted before with one. Its larger side is `max_side` where it did
/// not fit.
pub proof fn downsampled_fits(b: BitmapView, max_side: u32)
    requires
        b.width * b.height <= b.data.len(),
        max_side >= 1,
    ensures
        ({
            let r = downsampled(b, max_side);
            &&& b.wf() ==> r.wf()
            &&& r.width * r.height <= r.data.len()
            &&& r.width <= max_side
            &&& r.height <= max_side
            &&& b.width > 0 ==> r.width > 0
            &&& b.height > 0 ==> r.height > 0
            &&& b.width > max_side && b.width >= b.height ==> r.width == max_side
            &&& b.height > max_side && b.height >= b.width ==> r.height == max_side
            &&& b.width <= max_side && b.height <= max_side ==> r == b
        }),
{
    if b.width > max_side || b.height > max_side {
        let big = larger(b.width as nat, b.height as nat);
        scaled_fits(b.width as nat, max_side as nat, big);
        scaled_fits(b.height as nat, max_side as nat, big);
    }
}

/// Are the bytes `from..to` of `data` all between `low` and `high`?
pub open spec fn between(data: Seq<u8>, from: int, to: int, low: u8, high: u8) -> bool {
    forall|i: int| from <= i < to ==> low <= #[trigger] data[i] <= high
}

proof fn sum_lies_between(data: Seq<u8>, from: int, to: int, low: u8, high: u8)
    requires
        from <= to,
        between(data, from, to, low, high),
    ensures
        low * (to - from) <= sum_of(data, from, to) <= high * (to - from),
    decreases to - from,
{
    if from < to {
        sum_lies_between(data, from, to - 1, low, high);
        assert(low <= data[to - 1] <= high);
        assert(low * (to - from) == low * (to - 1 - from) + low) by (nonlinear_arith);
        assert(high * (to - from) == high * (to - 1 - from) + high) by (nonlinear_arith);
    } else {
        assert(low * 0 == 0 && high * 0 == 0);
    }
}

/// Are the pixels in columns `x0..x1` and rows `y0..y1` all between `low` and `high`?
pub open spec fn box_between(
    b: BitmapView,
    x0: nat,
    x1: nat,
    y0: nat,
    y1: nat,
    low: u8,
    high: u8,
) -> bool {
    forall|y: nat|
        y0 <= y < y1 ==> between(
            b.data,
            #[trigger] (y * b.width) + x0,
            y * b.width + x1,
            low,
            high,
        )
}

proof fn box_sum_lies_between(
    b: BitmapView,
    x0: nat,
    x1: nat,
    y0: nat,
    y1: nat,
    low: u8,
    high: u8,
)
    requires
        x0 <= x1,
        y0 <= y1,
        box_between(b, x0, x1, y0, y1, low, high),
    ensures
        low * ((x1 - x0) * (y1 - y0)) <= box_sum(b, x0, x1, y0, y1) <= high * ((x1 - x0) * (y1
            - y0)),
    decreases y1 - y0,
{
    let w = x1 - x0;
    if y0 < y1 {
        let y = (y1 - 1) as nat;
        box_sum_lies_between(b, x0, x1, y0, y, low, high);
        assert(between(b.data, (y * b.width) + x0, y * b.width + x1, low, high));
        sum_lies_between(b.data, y * b.width + x0, y * b.width + x1, low, high);
        assert(w * (y1 - y0) == w * (y - y0) + w) by (nonlinear_arith)
            requires
                y == y1 - 1,
        ;
        assert(low * (w * (y - y0) + w) == low * (w * (y - y0)) + low * w) by (nonlinear_arith);
        assert(high * (w * (y - y0) + w) == high * (w * (y - y0)) + high * w)
            by (nonlinear_arith);
    } else {
        assert(w * 0 == 0);
        assert(low * 0 == 0 && high * 0 == 0);
    }
}

/// A pixel of a resampled bitmap that covers pixels of the source lies between the smallest
/// and the largest of these.
pub proof fn a_mean_lies_between(
    b: BitmapView,
    x: nat,
    y: nat,
    tw: nat,
    th: nat,
    low: u8,
    high: u8,
)
    requires
        span_len(x, b.width, tw) > 0,
        span_len(y, b.height, th) > 0,
        box_between(
            b,
            span_start(x, b.width, tw),
            span_end(x, b.width, tw),
            span_start(y, b.height, th),
            span_end(y, b.height, th),
            low,
            high,
        ),
    ensures
        low <= cell_mean(b, x, y, tw, th) <= high,
{
    let w = span_len(x, b.width, tw);
    let h = span_len(y, b.height, th);
    let sum = box_sum(
        b,
        span_start(x, b.width, tw),
        span_end(x, b.width, tw),
        span_start(y, b.height, th),
        span_end(y, b.height, th),
    );
    box_sum_lies_between(
        b,
        span_start(x, b.width, tw),
        span_end(x, b.width, tw),
        span_start(y, b.height, th),
        span_end(y, b.height, th),
        low,
        high,
    );
    let count = w * h;
    assert(count > 0) by (nonlinear_arith)
        requires
            count == w * h,
            w > 0,
            h > 0,
    ;
    assert(low <= sum / count <= high) by (nonlinear_arith)
        requires
            low * count <= sum <= high * count,
            count > 0,
    ;
}

/// The sum of `f` over `from..to`.
pub open spec fn total(f: spec_fn(int) -> int, from: int, to: int) -> int
    decreases to - from,
{
    if to <= from {
        0
    } else {
        f(from) + total(f, from + 1, to)
    }
}

/// The sum of the pixels in columns `x0..x1` and rows `y0..y1`.
pub open spec fn pixel_total(b: BitmapView, x0: int, x1: int, y0: int, y1: int) -> int {
    total(|y: int| total(|x: int| b.data[y * b.width + x] as int, x0, x1), y0, y1)
}

proof fn total_splits(f: spec_fn(int) -> int, from: int, to: int)
    requires
        from < to,
    ensures
        total(f, from, to) == total(f, from, to - 1) + f(to - 1),
    decreases to - from,
{
    if from + 1 < to {
        total_splits(f, from + 1, to);
    } else {
        assert(total(f, from + 1, to) == 0);
        assert(total(f, from, to - 1) == 0);
    }
}

proof fn row_total(b: BitmapView, y: int, x0: int, x1: int, f: spec_fn(int) -> int)
    requires
        forall|x: int| #[trigger] f(x) == b.data[y * b.width + x] as int,
        x0 <= x1,
    ensures
        sum_of(b.data, y * b.width + x0, y * b.width + x1) == total(f, x0, x1),
    decreases x1 - x0,
{
    if x0 < x1 {
        row_total(b, y, x0, x1 - 1, f);
        total_splits(f, x0, x1);
    }
}

proof fn box_total(b: BitmapView, x0: nat, x1: nat, y0: nat, y1: nat, g: spec_fn(int) -> int)
    requires
        x0 <= x1,
        y0 <= y1,
        forall|y: int| #[trigger]
            g(y) == total(|x: int| b.data[y * b.width + x] as int, x0 as int, x1 as int),
    ensures
        box_sum(b, x0, x1, y0, y1) == total(g, y0 as int, y1 as int),
    decreases y1 - y0,
{
    if y0 < y1 {
        let y = y1 - 1;
        box_total(b, x0, x1, y0, y as nat, g);
        total_splits(g, y0 as int, y1 as int);
        let f = |x: int| b.data[y * b.width + x] as int;
        row_total(b, y, x0 as int, x1 as int, f);
        assert(g(y) == total(f, x0 as int, x1 as int));
    }
}

/// Pixel `(x, y)` of a bitmap that is scaled to `tw` by `th` is the mean, rounded down, of the
/// source pixels from `x width / tw` to `(x + 1) width / tw` and from `y height / th` to
/// `(y + 1) height / th`. Sides do not grow, and their products are exact as doubles.
pub proof fn a_scaled_pixel_is_a_mean(b: BitmapView, x: nat, y: nat, tw: nat, th: nat)
    requires
        x < tw <= b.width,
        y < th <= b.height,
        tw * b.width <= DIGITS,
        th * b.height <= DIGITS,
    ensures
        ({
            let x0 = x * b.width / tw as int;
            let x1 = (x + 1) * b.width / tw as int;
            let y0 = y * b.height / th as int;
            let y1 = (y + 1) * b.height / th as int;
            let n = (x1 - x0) * (y1 - y0);
            let mean = resampled(b, tw, th)[(y * tw + x) as int];
            &&& n > 0
            &&& x1 <= b.width && y1 <= b.height
            &&& mean * n <= pixel_total(b, x0, x1, y0, y1) < (mean + 1) * n
        }),
{
    span_is_not_empty(x, b.width, tw);
    span_is_not_empty(y, b.height, th);
    span_is_exact(x, b.width, tw);
    span_is_exact(y, b.height, th);
    let x0 = span_start(x, b.width, tw);
    let x1 = span_end(x, b.width, tw);
    let y0 = span_start(y, b.height, th);
    let y1 = span_end(y, b.height, th);
    let g = |y: int| total(|x: int| b.data[y * b.width + x] as int, x0 as int, x1 as int);
    box_total(b, x0, x1, y0, y1, g);
    box_sum_is_bounded(b, x0, x1, y0, y1);
    let sum = box_sum(b, x0, x1, y0, y1) as int;
    let n = (x1 - x0) * (y1 - y0);
    assert(n > 0) by (nonlinear_arith)
        requires
            n == (x1 - x0) * (y1 - y0),
            x1 > x0,
            y1 > y0,
    ;
    assert(0 <= sum / n <= 255 && (sum / n) * n <= sum < (sum / n + 1) * n) by (nonlinear_arith)
        requires
            0 <= sum <= 255 * n,
            n > 0,
    ;
    let at = (y * tw + x) as int;
    assert(0 <= at < tw * th) by (nonlinear_arith)
        requires
            at == y * tw + x,
            0 <= x < tw,
            0 <= y,
            y + 1 <= th,
    ;
    vstd::arithmetic::div_mod::lemma_fundamental_div_mod_converse(at, tw as int, y as int, x as int);
}

/// A span of a side that does not grow, in integers.
proof fn span_is_exact(i: nat, n: u32, t: nat)
    requires
        i < t <= n,
        t * n <= DIGITS,
    ensures
        span_start(i, n, t) == i * n / t as int,
        span_end(i, n, t) == (i + 1) * n / t as int,
{
    let a = i * n;
    let e = (i + 1) * n;
    assert(e <= t * n && a <= t * n && 0 <= a) by (nonlinear_arith)
        requires
            a == i * n,
            e == (i + 1) * n,
            i + 1 <= t,
    ;
    scaled_floor_is_exact(i, n as nat, t);
    scaled_floor_is_exact(i + 1, n as nat, t);
    assert(e / t as int <= n) by (nonlinear_arith)
        requires
            e <= t * n,
            t > 0,
    ;
}

/// A bitmap that keeps its size keeps its pixels.
pub proof fn scaling_to_the_same_size_changes_nothing(b: BitmapView)
    requires
        b.wf(),
        b.width > 0,
        b.height > 0,
        b.width * b.width <= DIGITS,
        b.height * b.height <= DIGITS,
    ensures
        resampled(b, b.width as nat, b.height as nat) == b.data,
{
    let w = b.width as nat;
    let h = b.height as nat;
    let r = resampled(b, w, h);
    assert forall|i: int| 0 <= i < r.len() implies r[i] == b.data[i] by {
        let x = i % w as int;
        let y = i / w as int;
        assert(0 <= x < w && 0 <= y < h && i == y * w + x) by (nonlinear_arith)
            requires
                0 <= i < w * h,
                w > 0,
                x == i % (w as int),
                y == i / (w as int),
        ;
        span_is_exact(x as nat, b.width, w);
        span_is_exact(y as nat, b.height, h);
        assert(x * w / w as int == x && (x + 1) * w / w as int == x + 1) by (nonlinear_arith)
            requires
                w > 0,
        ;
        assert(y * h / h as int == y && (y + 1) * h / h as int == y + 1) by (nonlinear_arith)
            requires
                h > 0,
        ;
        assert(1nat * 1nat == 1);
        let base = y * b.width;
        assert(sum_of(b.data, base + x, base + x) == 0);
        assert(sum_of(b.data, base + x, base + (x + 1)) == b.data[base + x]);
        assert(box_sum(b, x as nat, (x + 1) as nat, y as nat, y as nat) == 0);
        assert(box_sum(b, x as nat, (x + 1) as nat, y as nat, (y + 1) as nat) == b.data[base + x]);
    }
    assert(r =~= b.data);
}

/// A pixel of a side that does not grow covers a pixel of the source.
proof fn span_is_not_empty(i: nat, n: u32, t: nat)
    requires
        i < t <= n,
        t * n <= DIGITS,
    ensures
        span_start(i, n, t) < span_end(i, n, t) <= n,
{
    let a = i * n;
    let e = (i + 1) * n;
    assert(e == a + n && e <= t * n && a <= t * n) by (nonlinear_arith)
        requires
            a == i * n,
            e == (i + 1) * n,
            i + 1 <= t,
    ;
    scaled_floor_is_exact(i, n as nat, t);
    scaled_floor_is_exact(i + 1, n as nat, t);
    let q = a as int / t as int;
    assert(q < n && q + 1 <= e as int / t as int) by (nonlinear_arith)
        requires
            q == a as int / t as int,
            e == a + n,
            e <= t * n,
            0 < t <= n,
            a >= 0,
    ;
}

/// Scaling a bitmap down keeps its samples between the smallest and the largest. The products
/// of old and new sides are exact as doubles.
pub proof fn scaling_down_keeps_the_range(b: BitmapView, max_side: u32, low: u8, high: u8)
    requires
        b.wf(),
        b.width > 0,
        b.height > 0,
        larger(1, max_side as nat) * larger(b.width as nat, b.height as nat) <= DIGITS,
        between(b.data, 0, b.data.len() as int, low, high),
    ensures
        ({
            let r = downsampled(b, max_side);
            between(r.data, 0, r.data.len() as int, low, high)
        }),
{
    let max = larger(1, max_side as nat) as u32;
    if b.width > max || b.height > max {
        let big = larger(b.width as nat, b.height as nat);
        let tw = small_side(b.width, b.width, b.height, max);
        let th = small_side(b.height, b.width, b.height, max);
        scaled_shrinks(b.width as nat, max as nat, big);
        scaled_shrinks(b.height as nat, max as nat, big);
        scaled_fits(b.width as nat, max as nat, big);
        scaled_fits(b.height as nat, max as nat, big);
        assert(tw * b.width <= max * big && th * b.height <= max * big) by (nonlinear_arith)
            requires
                0 <= tw <= max,
                0 <= th <= max,
                0 <= b.width <= big,
                0 <= b.height <= big,
        ;
        let data = resampled(b, tw, th);
        assert forall|i: int| 0 <= i < data.len() implies low <= #[trigger] data[i] <= high by {
            let x = (i % tw as int) as nat;
            let y = (i / tw as int) as nat;
            assert(x < tw && y < th) by (nonlinear_arith)
                requires
                    0 <= i < tw * th,
                    tw > 0,
                    x == i % (tw as int),
                    y == i / (tw as int),
            ;
            span_is_not_empty(x, b.width, tw);
            span_is_not_empty(y, b.height, th);
            let (x0, x1) = (span_start(x, b.width, tw), span_end(x, b.width, tw));
            let (y0, y1) = (span_start(y, b.height, th), span_end(y, b.height, th));
            assert forall|row: nat| y0 <= row < y1 implies between(
                b.data,
                #[trigger] (row * b.width) + x0,
                row * b.width + x1,
                low,
                high,
            ) by {
                assert(0 <= row * b.width && row * b.width + b.width <= b.width * b.height)
                    by (nonlinear_arith)
                    requires
                        row + 1 <= b.height,
                ;
            }
            a_mean_lies_between(b, x, y, tw, th, low, high);
        }
    }
}

/// Scales a bitmap until its larger side is `max_side`; one that fits stays as it is. Each
/// pixel of the result is the mean of the pixels that it covers.
pub fn downsample(bitmap: &GrayscaleBitmap, max_side: u32) -> (r: GrayscaleBitmap)
    requires
        bitmap@.width > larger(1, max_side as nat) || bitmap@.height > larger(1, max_side as nat)
            ==> bitmap@.width * bitmap@.height <= bitmap@.data.len(),
    ensures
        r@ == downsampled(bitmap@, max_side),
{
    let max: u32 = if max_side >= 1 {
        max_side
    } else {
        1
    };
    if bitmap.width <= max && bitmap.height <= max {
        return bitmap.duplicate();
    }
    let big: u32 = if bitmap.width >= bitmap.height {
        bitmap.width
    } else {
        bitmap.height
    };
    let w: u32 = scale_side(bitmap.width, max, big);
    let h: u32 = scale_side(bitmap.height, max, big);
    let tw: u32 = if w >= 1 {
        w
    } else {
        1
    };
    let th: u32 = if h >= 1 {
        h
    } else {
        1
    };
    let data: Vec<u8> = resample(bitmap, tw, th);
    GrayscaleBitmap { width: tw, height: th, data }
}

} // verus!
