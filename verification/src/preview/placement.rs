//! Where a contact sheet draws a tip: inside its own cell, in proportion, in the middle.
use vstd::prelude::*;
use crate::preview::bitmap::{larger, resampled, BitmapView};
use crate::preview::sheet::{
    all_labels, background_alpha, background_gray, background_of, bitmaps_of, blended_alpha,
    blended_gray, cell_height, cell_start, cell_width, columns_of, fit_ratio, fit_side, half_left,
    inked_canvas, is_sheet, label_height, rows_of, sheet_height, sheet_width, side_of, with_cell,
    with_cell_tip, with_cells, with_label, with_tip, CanvasView, CellLabels, ContactSheetConfig,
    GlyphPixel, LabelMetrics, SheetBackground, SheetBrush, LABEL_COLOR, MARGIN,
};
use crate::support::double::{scaled, scaled_fits, scaled_is_near};

verus! {

/// The gray and the alpha of a pixel.
pub open spec fn pixel(c: CanvasView, x: int, y: int) -> (u8, u8) {
    let at = 2 * (y * c.width + x);
    (c.data[at], c.data[at + 1])
}

/// Is there such a pixel?
pub open spec fn on_canvas(c: CanvasView, x: int, y: int) -> bool {
    0 <= x < c.width && 0 <= y < c.height
}

/// A pixel under ink.
pub open spec fn under_ink(p: (u8, u8), color: u8, sa: u8) -> (u8, u8) {
    if sa == 0 {
        p
    } else {
        (blended_gray(p.0, p.1, color, sa) as u8, blended_alpha(p.1, sa) as u8)
    }
}

proof fn pixels_have_places(w: int, x: int, y: int, u: int, v: int)
    requires
        0 <= x < w,
        0 <= u < w,
        y * w + x == v * w + u,
    ensures
        x == u,
        y == v,
{
    if y < v {
        assert(v * w >= y * w + w) by (nonlinear_arith)
            requires
                v >= y + 1,
                w > 0,
        ;
    } else if v < y {
        assert(y * w >= v * w + w) by (nonlinear_arith)
            requires
                y >= v + 1,
                w > 0,
        ;
    }
}

proof fn place_is_inside(w: int, h: int, x: int, y: int)
    requires
        0 <= x < w,
        0 <= y < h,
    ensures
        0 <= y * w + x < w * h,
{
    assert(0 <= y * w && y * w + w <= w * h) by (nonlinear_arith)
        requires
            0 <= y,
            y + 1 <= h,
            w > 0,
    ;
}

/// Ink changes one pixel.
pub proof fn ink_changes_one_pixel(c: CanvasView, x: int, y: int, color: u8, sa: u8, u: int, v: int)
    requires
        c.wf(),
        on_canvas(c, u, v),
    ensures
        inked_canvas(c, x, y, color, sa).wf(),
        inked_canvas(c, x, y, color, sa).width == c.width,
        inked_canvas(c, x, y, color, sa).height == c.height,
        pixel(inked_canvas(c, x, y, color, sa), u, v) == (if u == x && v == y {
            under_ink(pixel(c, u, v), color, sa)
        } else {
            pixel(c, u, v)
        }),
{
    place_is_inside(c.width as int, c.height as int, u, v);
    if on_canvas(c, x, y) {
        place_is_inside(c.width as int, c.height as int, x, y);
        if y * c.width + x == v * c.width + u {
            pixels_have_places(c.width as int, x, y, u, v);
        }
    }
}

/// Is the pixel in the rectangle of `w` by `h` at `(ox, oy)`?
pub open spec fn in_rect(u: int, v: int, ox: int, oy: int, w: int, h: int) -> bool {
    ox <= u < ox + w && oy <= v < oy + h
}

proof fn tip_changes_its_pixels(
    c: CanvasView,
    ink: Seq<u8>,
    tw: nat,
    ox: int,
    oy: int,
    n: nat,
    u: int,
    v: int,
)
    requires
        c.wf(),
        tw > 0,
        on_canvas(c, u, v),
    ensures
        ({
            let r = with_tip(c, ink, tw, ox, oy, n);
            let i = (v - oy) * tw + (u - ox);
            &&& r.wf()
            &&& r.width == c.width
            &&& r.height == c.height
            &&& pixel(r, u, v) == (if ox <= u < ox + tw && oy <= v && i < n {
                under_ink(pixel(c, u, v), 0, ink[i])
            } else {
                pixel(c, u, v)
            })
        }),
    decreases n,
{
    if n > 0 {
        let k = n - 1;
        tip_changes_its_pixels(c, ink, tw, ox, oy, k as nat, u, v);
        let before = with_tip(c, ink, tw, ox, oy, k as nat);
        let x = ox + k % tw as int;
        let y = oy + k / tw as int;
        ink_changes_one_pixel(before, x, y, 0, ink[k], u, v);
        let i = (v - oy) * tw + (u - ox);
        let t = tw as int;
        assert(k == (k / t) * t + k % t && 0 <= k % t < t && k / t >= 0) by (nonlinear_arith)
            requires
                k >= 0,
                t > 0,
        ;
        if u == x && v == y {
            assert((v - oy) * tw == (k / t) * t);
            assert(i == k);
        } else if ox <= u < ox + tw && oy <= v && i == k {
            pixels_have_places(t, u - ox, v - oy, k % t, k / t);
        }
    }
}

/// Labels change the pixels that they cover.
proof fn label_changes_its_pixels(
    c: CanvasView,
    pixels: Seq<GlyphPixel>,
    n: nat,
    u: int,
    v: int,
)
    requires
        c.wf(),
        n <= pixels.len(),
        on_canvas(c, u, v),
    ensures
        ({
            let r = with_label(c, pixels, n);
            &&& r.wf()
            &&& r.width == c.width
            &&& r.height == c.height
            &&& !covers(pixels, u, v) ==> pixel(r, u, v) == pixel(c, u, v)
        }),
    decreases n,
{
    if n > 0 {
        label_changes_its_pixels(c, pixels, (n - 1) as nat, u, v);
        let p = pixels[n - 1];
        ink_changes_one_pixel(
            with_label(c, pixels, (n - 1) as nat),
            p.x as int,
            p.y as int,
            LABEL_COLOR,
            p.coverage,
            u,
            v,
        );
    }
}

/// Does a label cover this pixel?
pub open spec fn covers(pixels: Seq<GlyphPixel>, u: int, v: int) -> bool {
    exists|i: int|
        0 <= i < pixels.len() && (#[trigger] pixels[i]).x == u && pixels[i].y == v
            && pixels[i].coverage > 0
}

/// Ink in front of an opaque pixel: the grays are mixed by the coverage. On a pixel that is not
/// there, the ink stands alone. Full coverage hides what is behind it, and none changes
/// nothing.
pub proof fn ink_is_mixed_by_coverage(p: (u8, u8), color: u8, sa: u8)
    ensures
        sa == 0 ==> under_ink(p, color, sa) == p,
        sa == 255 ==> under_ink(p, color, sa) == (color, 255u8),
        p.1 == 255 ==> under_ink(p, color, sa).1 == 255,
        p.1 == 255 && sa > 0 ==> under_ink(p, color, sa).0 == (color * sa + p.0 * (255 - sa)) / 255,
        p.1 == 0 && sa > 0 ==> under_ink(p, color, sa) == (color, sa),
        under_ink(p, color, sa).1 >= p.1,
        under_ink(p, color, sa).1 >= sa,
{
    let (dl, da) = p;
    if sa > 0 {
        let rest = 255 - sa as int;
        assert(0 <= da * rest <= 255 * rest) by (nonlinear_arith)
            requires
                0 <= da <= 255,
                0 <= rest <= 255,
        ;
        assert(da * rest / 255 + sa >= da) by (nonlinear_arith)
            requires
                rest == 255 - sa,
                0 <= da <= 255,
                0 <= sa <= 255,
        ;
        if sa == 255 {
            assert(da * rest == 0 && dl * da * rest == 0) by (nonlinear_arith)
                requires
                    rest == 0,
            ;
            assert(color * 255 / 255 == color) by (nonlinear_arith);
        }
        if da == 255 {
            assert(255 * rest / 255 == rest) by (nonlinear_arith);
            assert(dl * 255 * rest == (dl * rest) * 255) by (nonlinear_arith);
            assert((dl * rest) * 255 / 255 == dl * rest) by (nonlinear_arith);
            assert((color * sa + dl * rest) / 255 <= 255) by (nonlinear_arith)
                requires
                    0 <= color <= 255,
                    0 <= dl <= 255,
                    0 <= sa <= 255,
                    rest == 255 - sa,
            ;
            assert(0 <= color * sa && 0 <= dl * rest) by (nonlinear_arith)
                requires
                    0 <= color,
                    0 <= dl,
                    0 <= sa,
                    0 <= rest,
            ;
        }
        if da == 0 {
            assert(dl * 0 * rest == 0) by (nonlinear_arith);
            assert(color * sa / sa as int == color) by (nonlinear_arith)
                requires
                    sa > 0,
            ;
        }
    }
}

/// The width that a cell has for its tip: the cell without its padding.
pub open spec fn room_width(config: ContactSheetConfig) -> int {
    config.cell_size - 2 * config.padding
}

/// The height that a cell has for its tip: what its labels leave.
pub open spec fn room_height(config: ContactSheetConfig, m: LabelMetrics) -> int {
    let names: int = if config.show_names {
        m.line_height as int
    } else {
        0
    };
    let sizes: int = if config.show_sizes {
        m.line_height as int
    } else {
        0
    };
    let between: int = if config.show_names && config.show_sizes {
        m.gap as int
    } else {
        0
    };
    let above: int = if config.show_names || config.show_sizes {
        m.margin_top as int
    } else {
        0
    };
    room_width(config) - names - sizes - between - above
}

/// Where the room of the cell behind `n` others starts along a side.
pub open spec fn room_start(n: nat, config: ContactSheetConfig) -> int {
    8 + n * (config.cell_size + config.gap) + config.padding
}

/// The rectangle that a tip is drawn in.
pub struct Place {
    pub left: int,
    pub top: int,
    pub width: nat,
    pub height: nat,
}

/// Where the tip of cell `i` is drawn.
pub open spec fn place_of(
    b: BitmapView,
    i: nat,
    columns: nat,
    config: ContactSheetConfig,
    m: LabelMetrics,
) -> Place {
    let a = cell_width(config);
    let h = cell_height(config, m);
    let ratio = fit_ratio(b.width as nat, b.height as nat, a, h);
    let tw = fit_side(b.width as nat, ratio);
    let th = fit_side(b.height as nat, ratio);
    Place {
        left: (cell_start(i % columns, config) + config.padding + half_left(a, tw)) as int,
        top: (cell_start(i / columns, config) + config.padding + half_left(h, th)) as int,
        width: tw,
        height: th,
    }
}

/// Is `side` what becomes of `x` when `d` becomes `n`: the nearest integer to `x n / d`, up to
/// a share of two to the power of -18 of a unit, and at least 1?
pub open spec fn in_proportion(side: nat, x: nat, n: nat, d: nat) -> bool {
    &&& 0x4_0000 * (2 * (x * n) - 2 * (d * side) - d) <= d
    &&& side == 1 || 0x4_0000 * (2 * (d * side) - 2 * (x * n) - d) <= d
}

proof fn a_side_is_fitted(x: nat, n: nat, d: nat, room: nat)
    requires
        0 < n < d <= u32::MAX,
        x <= u32::MAX,
        room >= 1,
        x * n <= room * d,
    ensures
        1 <= fit_side(x, Some((n, d))) <= room,
        in_proportion(fit_side(x, Some((n, d))), x, n, d),
{
    scaled_is_near(x, n, d);
    let r = scaled(x, n, d);
    assert(r <= room) by (nonlinear_arith)
        requires
            0x4_0000 * (2 * (d * r) - 2 * (x * n) - d) <= d,
            x * n <= room * d,
            d > 0,
    ;
    if r == 0 {
        assert(d * 0 == 0 && d * 1 == d);
    }
}

/// A tip is drawn in the room of its cell, in the middle of it. One that fits keeps its size;
/// of another one side becomes as long as the room, and the other follows in proportion.
pub proof fn a_tip_has_its_place(
    b: BitmapView,
    i: nat,
    columns: nat,
    config: ContactSheetConfig,
    m: LabelMetrics,
)
    requires
        b.width > 0,
        b.height > 0,
        columns > 0,
        room_height(config, m) > 0,
    ensures
        ({
            let p = place_of(b, i, columns, config, m);
            let x = room_start(i % columns, config);
            let y = room_start(i / columns, config);
            let a = room_width(config);
            let h = room_height(config, m);
            &&& p.width >= 1 && p.height >= 1
            &&& x <= p.left && p.left + p.width <= x + a
            &&& y <= p.top && p.top + p.height <= y + h
            &&& 0 <= (x + a - p.left - p.width) - (p.left - x) <= 1
            &&& 0 <= (y + h - p.top - p.height) - (p.top - y) <= 1
            &&& b.width <= a && b.height <= h ==> p.width == b.width && p.height == b.height
            &&& b.width > a || b.height > h ==> {
                ||| p.width == a && in_proportion(
                    p.height,
                    b.height as nat,
                    a as nat,
                    b.width as nat,
                )
                ||| p.height == h && in_proportion(
                    p.width,
                    b.width as nat,
                    h as nat,
                    b.height as nat,
                )
            }
        }),
{
    let a = cell_width(config);
    let h = cell_height(config, m);
    assert(a == room_width(config));
    assert(h == room_height(config, m));
    let w = b.width as nat;
    let t = b.height as nat;
    if a < w && (h >= t || a * t <= h * w) {
        assert(fit_ratio(w, t, a, h) == Some((a, w)));
        scaled_fits(w, a, w);
        assert(t * a <= h * w) by (nonlinear_arith)
            requires
                (h >= t && a < w) || a * t <= h * w,
                a >= 0,
                t >= 0,
                h >= 0,
        ;
        a_side_is_fitted(t, a, w, h);
    } else if h < t {
        assert(fit_ratio(w, t, a, h) == Some((h, t)));
        scaled_fits(t, h, t);
        assert(w * h <= a * t) by (nonlinear_arith)
            requires
                a >= w || a * t > h * w,
                h < t,
                a >= 0,
                w >= 0,
                h >= 0,
        ;
        a_side_is_fitted(w, h, t, a);
    } else {
        assert(fit_ratio(w, t, a, h) is None);
    }
}

/// The coverage that a tip has at a pixel of its place.
pub open spec fn ink_at(b: BitmapView, p: Place, u: int, v: int) -> u8 {
    resampled(b, p.width, p.height)[(v - p.top) * p.width + (u - p.left)]
}

/// Is the pixel in this place?
pub open spec fn in_place(p: Place, u: int, v: int) -> bool {
    in_rect(u, v, p.left, p.top, p.width as int, p.height as int)
}

proof fn cell_tip_changes_its_place(
    c: CanvasView,
    b: BitmapView,
    i: nat,
    columns: nat,
    config: ContactSheetConfig,
    m: LabelMetrics,
    u: int,
    v: int,
)
    requires
        c.wf(),
        on_canvas(c, u, v),
    ensures
        ({
            let r = with_cell_tip(c, b, i, columns, config, m);
            let p = place_of(b, i, columns, config, m);
            &&& r.wf()
            &&& r.width == c.width
            &&& r.height == c.height
            &&& pixel(r, u, v) == (if in_place(p, u, v) {
                under_ink(pixel(c, u, v), 0, ink_at(b, p, u, v))
            } else {
                pixel(c, u, v)
            })
        }),
{
    let p = place_of(b, i, columns, config, m);
    let tw = p.width;
    let th = p.height;
    tip_changes_its_pixels(c, resampled(b, tw, th), tw, p.left, p.top, tw * th, u, v);
    let x = u - p.left;
    let y = v - p.top;
    if 0 <= x < tw && 0 <= y {
        if y < th {
            place_is_inside(tw as int, th as int, x, y);
        } else {
            assert(y * tw >= tw * th) by (nonlinear_arith)
                requires
                    y >= th,
                    tw >= 0,
            ;
        }
    }
}

/// Does a label of a cell cover this pixel?
pub open spec fn labelled(labels: CellLabels, u: int, v: int) -> bool {
    covers(labels.name, u, v) || covers(labels.size, u, v)
}

proof fn cell_changes_its_place(
    c: CanvasView,
    b: BitmapView,
    i: nat,
    columns: nat,
    config: ContactSheetConfig,
    m: LabelMetrics,
    labels: CellLabels,
    u: int,
    v: int,
)
    requires
        c.wf(),
        on_canvas(c, u, v),
    ensures
        ({
            let r = with_cell(c, b, i, columns, config, m, labels);
            let p = place_of(b, i, columns, config, m);
            &&& r.wf()
            &&& r.width == c.width
            &&& r.height == c.height
            &&& !labelled(labels, u, v) ==> pixel(r, u, v) == (if in_place(p, u, v) && room_height(
                config,
                m,
            ) > 0 {
                under_ink(pixel(c, u, v), 0, ink_at(b, p, u, v))
            } else {
                pixel(c, u, v)
            })
        }),
{
    if cell_height(config, m) > 0 {
        cell_tip_changes_its_place(c, b, i, columns, config, m, u, v);
        let tip = with_cell_tip(c, b, i, columns, config, m);
        label_changes_its_pixels(tip, labels.name, labels.name.len(), u, v);
        let named = if config.show_names {
            with_label(tip, labels.name, labels.name.len())
        } else {
            tip
        };
        label_changes_its_pixels(named, labels.size, labels.size.len(), u, v);
    }
}

/// Tips of different cells have no pixel in common.
pub proof fn places_are_apart(
    a: BitmapView,
    i: nat,
    b: BitmapView,
    j: nat,
    columns: nat,
    config: ContactSheetConfig,
    m: LabelMetrics,
    u: int,
    v: int,
)
    requires
        a.width > 0 && a.height > 0,
        b.width > 0 && b.height > 0,
        columns > 0,
        room_height(config, m) > 0,
        i != j,
    ensures
        !(in_place(place_of(a, i, columns, config, m), u, v) && in_place(
            place_of(b, j, columns, config, m),
            u,
            v,
        )),
{
    a_tip_has_its_place(a, i, columns, config, m);
    a_tip_has_its_place(b, j, columns, config, m);
    let step = config.cell_size + config.gap;
    let n = columns as int;
    assert(i == (i as int / n) * n + i as int % n && j == (j as int / n) * n + j as int % n)
        by (nonlinear_arith)
        requires
            n > 0,
    ;
    rooms_are_apart(i % columns, j % columns, config);
    rooms_are_apart(i / columns, j / columns, config);
}

proof fn rooms_are_apart(a: nat, b: nat, config: ContactSheetConfig)
    requires
        room_width(config) > 0,
    ensures
        a < b ==> room_start(a, config) + room_width(config) <= room_start(b, config),
        b < a ==> room_start(b, config) + room_width(config) <= room_start(a, config),
{
    let step = (config.cell_size + config.gap) as int;
    if a < b {
        assert(b * step >= a * step + step) by (nonlinear_arith)
            requires
                b >= a + 1,
                step >= 0,
        ;
    } else if b < a {
        assert(a * step >= b * step + step) by (nonlinear_arith)
            requires
                a >= b + 1,
                step >= 0,
        ;
    }
}

/// Does a label of the first `n` cells cover this pixel?
pub open spec fn any_labelled(labels: Seq<CellLabels>, n: nat, u: int, v: int) -> bool {
    exists|i: int| 0 <= i < n && #[trigger] labelled(labels[i], u, v)
}

/// Has each bitmap a side of at least one pixel?
pub open spec fn all_have_pixels(bitmaps: Seq<BitmapView>) -> bool {
    forall|i: int|
        0 <= i < bitmaps.len() ==> (#[trigger] bitmaps[i]).width > 0 && bitmaps[i].height > 0
}

/// Where the tip of cell `i` of a sheet is drawn.
pub open spec fn place_on_sheet(
    bitmaps: Seq<BitmapView>,
    i: int,
    config: ContactSheetConfig,
    m: LabelMetrics,
) -> Place {
    place_of(bitmaps[i], i as nat, columns_of(bitmaps.len(), config), config, m)
}

proof fn cells_change_their_places(
    c: CanvasView,
    bitmaps: Seq<BitmapView>,
    n: nat,
    config: ContactSheetConfig,
    m: LabelMetrics,
    labels: Seq<CellLabels>,
    u: int,
    v: int,
)
    requires
        c.wf(),
        on_canvas(c, u, v),
        n <= bitmaps.len(),
        all_have_pixels(bitmaps),
        columns_of(bitmaps.len(), config) > 0,
    ensures
        ({
            let r = with_cells(c, bitmaps, n, config, m, labels);
            &&& r.wf()
            &&& r.width == c.width
            &&& r.height == c.height
            &&& !any_labelled(labels, n, u, v) ==> {
                &&& room_height(config, m) <= 0 ==> pixel(r, u, v) == pixel(c, u, v)
                &&& room_height(config, m) > 0 && (forall|i: int|
                    0 <= i < n ==> !in_place(#[trigger] place_on_sheet(bitmaps, i, config, m), u, v))
                    ==> pixel(r, u, v) == pixel(c, u, v)
                &&& room_height(config, m) > 0 ==> forall|i: int|
                    0 <= i < n && in_place(#[trigger] place_on_sheet(bitmaps, i, config, m), u, v)
                        ==> pixel(r, u, v) == under_ink(
                        pixel(c, u, v),
                        0,
                        ink_at(bitmaps[i], place_on_sheet(bitmaps, i, config, m), u, v),
                    )
            }
        }),
    decreases n,
{
    if n > 0 {
        let k = n - 1;
        let columns = columns_of(bitmaps.len(), config);
        cells_change_their_places(c, bitmaps, k as nat, config, m, labels, u, v);
        let before = with_cells(c, bitmaps, k as nat, config, m, labels);
        cell_changes_its_place(
            before,
            bitmaps[k],
            k as nat,
            columns,
            config,
            m,
            labels[k],
            u,
            v,
        );
        if !any_labelled(labels, n, u, v) {
            assert(!labelled(labels[k], u, v));
            if any_labelled(labels, k as nat, u, v) {
                let i = choose|i: int| 0 <= i < k && #[trigger] labelled(labels[i], u, v);
                assert(0 <= i < n && labelled(labels[i], u, v));
            }
            if room_height(config, m) > 0 {
                let last = place_on_sheet(bitmaps, k, config, m);
                if in_place(last, u, v) {
                    assert forall|i: int| 0 <= i < k implies !in_place(
                        #[trigger] place_on_sheet(bitmaps, i, config, m),
                        u,
                        v,
                    ) by {
                        assert(bitmaps[i].width > 0 && bitmaps[k].width > 0);
                        places_are_apart(
                            bitmaps[i],
                            i as nat,
                            bitmaps[k],
                            k as nat,
                            columns,
                            config,
                            m,
                            u,
                            v,
                        );
                    }
                }
            }
        }
    }
}

/// Is `c` a sheet on which the labels cover these pixels, each tip stands in its place and
/// nothing else is drawn?
pub open spec fn is_drawn(
    c: CanvasView,
    bitmaps: Seq<BitmapView>,
    config: ContactSheetConfig,
    m: LabelMetrics,
    labels: Seq<CellLabels>,
) -> bool {
    forall|u: int, v: int|
        #![trigger pixel(c, u, v)]
        on_canvas(c, u, v) && !any_labelled(labels, bitmaps.len(), u, v) ==> {
            let behind = (
                background_gray(config.background, u, v),
                background_alpha(config.background),
            );
            &&& (forall|i: int|
                0 <= i < bitmaps.len() ==> !in_place(
                    #[trigger] place_on_sheet(bitmaps, i, config, m),
                    u,
                    v,
                )) || room_height(config, m) <= 0 ==> pixel(c, u, v) == behind
            &&& room_height(config, m) > 0 ==> forall|i: int|
                0 <= i < bitmaps.len() && in_place(
                    #[trigger] place_on_sheet(bitmaps, i, config, m),
                    u,
                    v,
                ) ==> pixel(c, u, v) == under_ink(
                    behind,
                    0,
                    ink_at(bitmaps[i], place_on_sheet(bitmaps, i, config, m), u, v),
                )
        }
}

proof fn background_has_its_pixels(width: u32, height: u32, background: SheetBackground, u: int, v: int)
    requires
        0 <= u < width,
        0 <= v < height,
    ensures
        background_of(width, height, background).wf(),
        pixel(background_of(width, height, background), u, v) == (
            background_gray(background, u, v),
            background_alpha(background),
        ),
{
    place_is_inside(width as int, height as int, u, v);
    let n = v * width + u;
    vstd::arithmetic::div_mod::lemma_fundamental_div_mod_converse(n, width as int, v, u);
    assert((2 * n) / 2 == n && (2 * n) % 2 == 0 && (2 * n + 1) % 2 == 1);
}

/// On a sheet each tip stands in its own place, black by its coverage, and what neither a tip
/// nor a label covers is the background.
pub proof fn a_sheet_shows_each_tip_in_its_cell<
    W: Fn(String) -> u32,
    E: Fn(String) -> Vec<u32>,
    D: Fn(String, i64, i64) -> Vec<GlyphPixel>,
>(
    measure: W,
    extents: E,
    draw: D,
    brushes: Seq<SheetBrush<'_>>,
    config: ContactSheetConfig,
    m: LabelMetrics,
    c: CanvasView,
)
    requires
        brushes.len() > 0,
        config.columns != Some(0u32),
        sheet_width(brushes.len(), config) <= u32::MAX,
        sheet_height(brushes.len(), config) <= u32::MAX,
        all_have_pixels(bitmaps_of(brushes)),
        is_sheet(measure, extents, draw, brushes, config, m, c),
    ensures
        c.width == sheet_width(brushes.len(), config),
        c.height == sheet_height(brushes.len(), config),
        c.wf(),
        exists|labels: Seq<CellLabels>| #[trigger]
            all_labels(measure, extents, draw, brushes, brushes.len(), config, m, labels) && is_drawn(
                c,
                bitmaps_of(brushes),
                config,
                m,
                labels,
            ),
{
    let n = brushes.len();
    let width = sheet_width(n, config) as u32;
    let height = sheet_height(n, config) as u32;
    let empty = background_of(width, height, config.background);
    let bitmaps = bitmaps_of(brushes);
    let labels = choose|labels: Seq<CellLabels>|
        {
            &&& all_labels(measure, extents, draw, brushes, n, config, m, labels)
            &&& c == #[trigger] with_cells(empty, bitmaps_of(brushes), n, config, m, labels)
        };
    sheet_has_a_side(n, config);
    background_has_its_pixels(width, height, config.background, 0, 0);
    cells_change_their_places(empty, bitmaps, n, config, m, labels, 0, 0);
    assert forall|u: int, v: int| #![trigger pixel(c, u, v)] on_canvas(c, u, v) && !any_labelled(
        labels,
        bitmaps.len(),
        u,
        v,
    ) implies {
        let behind = (
            background_gray(config.background, u, v),
            background_alpha(config.background),
        );
        &&& (forall|i: int|
            0 <= i < bitmaps.len() ==> !in_place(
                #[trigger] place_on_sheet(bitmaps, i, config, m),
                u,
                v,
            )) || room_height(config, m) <= 0 ==> pixel(c, u, v) == behind
        &&& room_height(config, m) > 0 ==> forall|i: int|
            0 <= i < bitmaps.len() && in_place(
                #[trigger] place_on_sheet(bitmaps, i, config, m),
                u,
                v,
            ) ==> pixel(c, u, v) == under_ink(
                behind,
                0,
                ink_at(bitmaps[i], place_on_sheet(bitmaps, i, config, m), u, v),
            )
    } by {
        background_has_its_pixels(width, height, config.background, u, v);
        cells_change_their_places(empty, bitmaps, n, config, m, labels, u, v);
    }
}

proof fn sheet_has_a_side(n: nat, config: ContactSheetConfig)
    requires
        n > 0,
        config.columns != Some(0u32),
    ensures
        columns_of(n, config) > 0,
        sheet_width(n, config) >= 16,
        sheet_height(n, config) >= 16,
{
}

/// The first cell of a sheet starts 8 pixels from its edges, and the sheet ends 8 pixels behind
/// its last column and its last row.
pub proof fn a_sheet_ends_behind_its_cells(count: nat, config: ContactSheetConfig)
    requires
        count > 0,
        config.columns != Some(0u32),
    ensures
        ({
            let columns = columns_of(count, config);
            let across = if count < columns {
                count
            } else {
                columns
            };
            let down = (count - 1) / columns as int + 1;
            let step = (config.cell_size + config.gap) as int;
            &&& config.columns is Some ==> columns == config.columns->0
            &&& config.columns is None ==> columns == if count <= 10 {
                count
            } else {
                10
            }
            &&& sheet_width(count, config) == 8 + (across - 1) * step + config.cell_size + 8
            &&& sheet_height(count, config) == 8 + (down - 1) * step + config.cell_size + 8
        }),
{
    let columns = columns_of(count, config);
    let across = if count < columns {
        count
    } else {
        columns
    };
    let rows = rows_of(count, config);
    let down = (count - 1) / columns as int + 1;
    assert(rows == down) by (nonlinear_arith)
        requires
            rows == (count + columns - 1) / columns as int,
            down == (count - 1) / columns as int + 1,
            columns > 0,
            count > 0,
    ;
    side_is_steps(across, config);
    side_is_steps(rows, config);
}

proof fn side_is_steps(n: nat, config: ContactSheetConfig)
    requires
        n > 0,
    ensures
        side_of(n, config) == 16 + (n - 1) * (config.cell_size + config.gap) + config.cell_size,
{
    let cell = config.cell_size as int;
    let gap = config.gap as int;
    assert(n * cell + (n - 1) * gap == (n - 1) * (cell + gap) + cell) by (nonlinear_arith);
}

/// The background is white, or nothing, or squares of 16 pixels that take turns.
pub proof fn backgrounds_are_what_they_are_called(x: int, y: int)
    requires
        x >= 0,
        y >= 0,
    ensures
        background_gray(SheetBackground::White, x, y) == 255,
        background_alpha(SheetBackground::White) == 255,
        background_gray(SheetBackground::Transparent, x, y) == 255,
        background_alpha(SheetBackground::Transparent) == 0,
        background_alpha(SheetBackground::Checker) == 255,
        x < 16 && y < 16 ==> background_gray(SheetBackground::Checker, x, y) == 255,
        background_gray(SheetBackground::Checker, x, y) == 255 ==> background_gray(
            SheetBackground::Checker,
            x + 16,
            y,
        ) == 232 && background_gray(SheetBackground::Checker, x, y + 16) == 232,
        background_gray(SheetBackground::Checker, x, y) == 232 ==> background_gray(
            SheetBackground::Checker,
            x + 16,
            y,
        ) == 255 && background_gray(SheetBackground::Checker, x, y + 16) == 255,
        background_gray(SheetBackground::Checker, x, y) == 255 || background_gray(
            SheetBackground::Checker,
            x,
            y,
        ) == 232,
{
}

} // verus!
