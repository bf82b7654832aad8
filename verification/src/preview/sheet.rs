//! Contact sheets: tips in a grid, with labels, as a gray and alpha image.
//!
//! What a label looks like is asked of the caller, who has a font: how tall a line is, how
//! a text is shortened to a width, and which pixels it covers.
use vstd::prelude::*;
use crate::preview::label::{fit_label, is_fitted, measures};
use crate::preview::bitmap::{larger, resample, resampled, BitmapView, GrayscaleBitmap};
use crate::preview::codec::{encode_png, png_file_of, PngLayout};
use crate::support::double::{scale_down, scaled};
use crate::support::text::{decimal, push_decimal};

verus! {

/// The space around the cells.
pub const MARGIN: u32 = 8;

/// The gray of labels.
pub const LABEL_COLOR: u8 = 110;

/// What is behind the tips.
#[derive(Debug, Clone, Copy, PartialEq, Eq, Structural)]
pub enum SheetBackground {
    Transparent,
    White,
    Checker,
}

impl Default for SheetBackground {
    fn default() -> (r: SheetBackground)
        ensures
            r == SheetBackground::White,
    {
        SheetBackground::White
    }
}

/// A tip on a sheet.
pub struct SheetBrush<'a> {
    pub name: &'a str,
    pub bitmap: &'a GrayscaleBitmap,
}

/// How a sheet looks.
#[derive(Debug, Clone, Copy, PartialEq, Eq, Structural)]
pub struct ContactSheetConfig {
    pub cell_size: u32,
    pub columns: Option<u32>,
    pub padding: u32,
    pub show_names: bool,
    /// Is there a line with the size of each tip? That is the size of the rectangle that
    /// holds all its ink, whatever the size of its bitmap.
    pub show_sizes: bool,
    pub gap: u32,
    pub background: SheetBackground,
}

impl Default for ContactSheetConfig {
    fn default() -> (r: ContactSheetConfig)
        ensures
            r == (ContactSheetConfig {
                cell_size: 120,
                columns: None,
                padding: 8,
                show_names: false,
                show_sizes: true,
                gap: 8,
                background: SheetBackground::White,
            }),
    {
        ContactSheetConfig {
            cell_size: 120,
            columns: None,
            padding: 8,
            show_names: false,
            show_sizes: true,
            gap: 8,
            background: SheetBackground::White,
        }
    }
}

/// The heights that labels take, in pixels.
#[derive(Debug, Clone, Copy, PartialEq, Eq, Structural)]
pub struct LabelMetrics {
    pub line_height: u32,
    /// Between a name and a size.
    pub gap: u32,
    /// Above the labels.
    pub margin_top: u32,
}

/// A pixel that a label covers, fully at 255.
#[derive(Debug, Clone, Copy, PartialEq, Eq, Structural)]
pub struct GlyphPixel {
    pub x: i64,
    pub y: i64,
    pub coverage: u8,
}

/// Has the bitmap ink at column `x` and row `y`?
pub open spec fn inked(b: BitmapView, x: int, y: int) -> bool {
    &&& 0 <= x < b.width
    &&& 0 <= y < b.height
    &&& b.data[y * b.width + x] > 0
}

/// Are these the columns `x0..=x1` and rows `y0..=y1` of the smallest rectangle that holds
/// all ink?
pub open spec fn is_ink_box(b: BitmapView, x0: int, y0: int, x1: int, y1: int) -> bool {
    &&& forall|x: int, y: int| #[trigger] inked(b, x, y) ==> x0 <= x <= x1 && y0 <= y <= y1
    &&& exists|y: int| #[trigger] inked(b, x0, y)
    &&& exists|y: int| #[trigger] inked(b, x1, y)
    &&& exists|x: int| #[trigger] inked(b, x, y0)
    &&& exists|x: int| #[trigger] inked(b, x, y1)
}

/// Has the bitmap no ink at all, or not one byte per pixel?
pub open spec fn blank(b: BitmapView) -> bool {
    !b.wf() || forall|x: int, y: int| !#[trigger] inked(b, x, y)
}

/// The size of the smallest rectangle that holds all ink.
pub fn ink_bounds(bitmap: &GrayscaleBitmap) -> (r: Option<(u32, u32)>)
    ensures
        match r {
            Some((w, h)) => bitmap@.wf() && exists|x0: int, y0: int, x1: int, y1: int|
                is_ink_box(bitmap@, x0, y0, x1, y1) && w == x1 - x0 + 1 && h == y1 - y0 + 1,
            None => blank(bitmap@),
        },
{
    let width: usize = bitmap.width as usize;
    let height: usize = bitmap.height as usize;
    let ghost b = bitmap@;
    assert(width * height <= 0xFFFF_FFFF * 0xFFFF_FFFF) by (nonlinear_arith)
        requires
            width <= 0xFFFF_FFFF,
            height <= 0xFFFF_FFFF,
    ;
    if width == 0 || height == 0 || bitmap.data.len() as u128 != width as u128 * height as u128 {
        return None;
    }
    let mut found: bool = false;
    let mut x0: usize = 0;
    let mut y0: usize = 0;
    let mut x1: usize = 0;
    let mut y1: usize = 0;
    let mut y: usize = 0;
    while y < height
        invariant
            b == bitmap@,
            b.wf(),
            width == b.width,
            height == b.height,
            y <= height,
            x0 <= x1 < width,
            y0 <= y1,
            y1 <= y,
            found ==> y1 < y,
            !found ==> forall|i: int, j: int| j < y ==> !#[trigger] inked(b, i, j),
            found ==> box_so_far(b, x0 as int, y0 as int, x1 as int, y1 as int, width as int, y as int - 1),
        decreases height - y,
    {
        let mut x: usize = 0;
        while x < width
            invariant
                b == bitmap@,
                b.wf(),
                width == b.width,
                height == b.height,
                y < height,
                x <= width,
                x0 <= x1 < width,
                y0 <= y1 <= y,
                !found ==> forall|i: int, j: int|
                    before(i, j, x as int, y as int) ==> !#[trigger] inked(b, i, j),
                found ==> box_so_far(b, x0 as int, y0 as int, x1 as int, y1 as int, x as int, y as int),
            decreases width - x,
        {
            proof {
                assert(y * width + x < width * height) by (nonlinear_arith)
                    requires
                        x < width,
                        y + 1 <= height,
                ;
                assert(bitmap.data.len() <= usize::MAX);
            }
            let v: u8 = bitmap.data[y * width + x];
            assert(inked(b, x as int, y as int) == (v > 0));
            if v > 0 {
                if !found {
                    found = true;
                    x0 = x;
                    x1 = x;
                    y0 = y;
                    y1 = y;
                } else {
                    if x < x0 {
                        x0 = x;
                    }
                    if x > x1 {
                        x1 = x;
                    }
                    y1 = y;
                }
            }
            x += 1;
        }
        y += 1;
    }
    if !found {
        return None;
    }
    assert(is_ink_box(b, x0 as int, y0 as int, x1 as int, y1 as int));
    Some(((x1 - x0 + 1) as u32, (y1 - y0 + 1) as u32))
}

/// Does the pixel `(i, j)` come before `(x, y)`, row by row?
spec fn before(i: int, j: int, x: int, y: int) -> bool {
    j < y || (j == y && i < x)
}

/// Is this the smallest rectangle that holds the ink before `(x, y)`?
spec fn box_so_far(b: BitmapView, x0: int, y0: int, x1: int, y1: int, x: int, y: int) -> bool {
    &&& forall|i: int, j: int| #[trigger]
        inked(b, i, j) && before(i, j, x, y) ==> x0 <= i <= x1 && y0 <= j <= y1
    &&& exists|j: int| #[trigger] inked(b, x0, j) && before(x0, j, x, y)
    &&& exists|j: int| #[trigger] inked(b, x1, j) && before(x1, j, x, y)
    &&& exists|i: int| #[trigger] inked(b, i, y0) && before(i, y0, x, y)
    &&& exists|i: int| #[trigger] inked(b, i, y1) && before(i, y1, x, y)
}

/// The line with the size of a tip.
pub fn size_label(bitmap: &GrayscaleBitmap) -> (r: String)
    ensures
        is_size_label(bitmap@, r@),
{
    match ink_bounds(bitmap) {
        Some((w, h)) => {
            let mut label: String = String::new();
            push_decimal(&mut label, w as u64);
            label.append("×");
            push_decimal(&mut label, h as u64);
            assert(label@ =~= decimal(w as nat) + "×"@ + decimal(h as nat));
            proof {
                let (x0, y0, x1, y1) = choose|x0: int, y0: int, x1: int, y1: int|
                    is_ink_box(bitmap@, x0, y0, x1, y1) && w == x1 - x0 + 1 && h == y1 - y0 + 1;
                assert(is_ink_box(bitmap@, x0, y0, x1, y1));
            }
            label
        },
        None => "Empty".to_owned(),
    }
}

/// Is this the line with the size of a tip: `Empty`, or the sides of its ink?
pub open spec fn is_size_label(b: BitmapView, label: Seq<char>) -> bool {
    if blank(b) {
        label == "Empty"@
    } else {
        exists|x0: int, y0: int, x1: int, y1: int|
            #![trigger is_ink_box(b, x0, y0, x1, y1)]
            is_ink_box(b, x0, y0, x1, y1) && label == decimal((x1 - x0 + 1) as nat) + "×"@
                + decimal((y1 - y0 + 1) as nat)
    }
}

/// An image of gray and alpha bytes.
#[derive(Debug)]
pub struct Canvas {
    pub width: u32,
    pub height: u32,
    pub data: Vec<u8>,
}

/// The model of a [`Canvas`].
pub struct CanvasView {
    pub width: u32,
    pub height: u32,
    pub data: Seq<u8>,
}

impl View for Canvas {
    type V = CanvasView;

    open spec fn view(&self) -> CanvasView {
        CanvasView { width: self.width, height: self.height, data: self.data@ }
    }
}

impl CanvasView {
    /// There are two bytes per pixel.
    pub open spec fn wf(self) -> bool {
        self.data.len() == 2 * (self.width * self.height)
    }
}

/// The gray of the background at column `x` and row `y`.
pub open spec fn background_gray(background: SheetBackground, x: int, y: int) -> u8 {
    if background == SheetBackground::Checker && (x / 16 + y / 16) % 2 == 1 {
        232
    } else {
        255
    }
}

/// The alpha of the background.
pub open spec fn background_alpha(background: SheetBackground) -> u8 {
    if background == SheetBackground::Transparent {
        0
    } else {
        255
    }
}

/// An empty sheet.
pub open spec fn background_of(width: u32, height: u32, background: SheetBackground) -> CanvasView {
    CanvasView {
        width,
        height,
        data: Seq::new(
            (2 * (width * height)) as nat,
            |i: int|
                if i % 2 == 0 {
                    background_gray(background, (i / 2) % (width as int), (i / 2) / (width as int))
                } else {
                    background_alpha(background)
                },
        ),
    }
}

/// An empty sheet.
pub fn draw_background(width: u32, height: u32, background: SheetBackground) -> (r: Canvas)
    ensures
        r@ == background_of(width, height, background),
        r@.wf(),
{
    let alpha: u8 = if background == SheetBackground::Transparent {
        0
    } else {
        255
    };
    let mut data: Vec<u8> = Vec::new();
    let ghost expected = background_of(width, height, background).data;
    let mut y: u32 = 0;
    assert(0 * width == 0);
    while y < height
        invariant
            y <= height,
            alpha == background_alpha(background),
            data@.len() == 2 * (y * width),
            expected == background_of(width, height, background).data,
            forall|i: int| 0 <= i < data@.len() ==> #[trigger] data@[i] == expected[i],
            data@.len() <= expected.len(),
        decreases height - y,
    {
        let mut x: u32 = 0;
        while x < width
            invariant
                y < height,
                x <= width,
                alpha == background_alpha(background),
                data@.len() == 2 * (y * width + x),
                expected == background_of(width, height, background).data,
                forall|i: int| 0 <= i < data@.len() ==> #[trigger] data@[i] == expected[i],
                data@.len() <= expected.len(),
            decreases width - x,
        {
            proof {
                let n = y * width + x;
                assert(n + 1 <= width * height) by (nonlinear_arith)
                    requires
                        n == y * width + x,
                        x + 1 <= width,
                        y + 1 <= height,
                ;
                vstd::arithmetic::div_mod::lemma_fundamental_div_mod_converse(
                    n,
                    width as int,
                    y as int,
                    x as int,
                );
            }
            let gray: u8 = if background == SheetBackground::Checker && (x / 16 + y / 16) % 2 == 1 {
                232
            } else {
                255
            };
            data.push(gray);
            data.push(alpha);
            x += 1;
        }
        proof {
            assert(y * width + width == (y + 1) * width) by (nonlinear_arith);
        }
        y += 1;
    }
    assert(height * width == width * height) by (nonlinear_arith);
    assert(data@ =~= expected);
    Canvas { width, height, data }
}

/// The alpha of a pixel of alpha `da` under ink of coverage `sa`.
pub open spec fn blended_alpha(da: u8, sa: u8) -> int {
    sa + da * (255 - sa) / 255
}

/// The gray of a pixel of gray `dl` and alpha `da` under ink of gray `color` and coverage
/// `sa`.
pub open spec fn blended_gray(dl: u8, da: u8, color: u8, sa: u8) -> int {
    if blended_alpha(da, sa) == 0 {
        0
    } else {
        (color * sa + dl * da * (255 - sa) / 255) / blended_alpha(da, sa)
    }
}

/// The canvas with ink of gray `color` and coverage `sa` on a pixel; none where the pixel
/// is not on it.
pub open spec fn inked_canvas(c: CanvasView, x: int, y: int, color: u8, sa: u8) -> CanvasView {
    if sa == 0 || !(0 <= x < c.width && 0 <= y < c.height) {
        c
    } else {
        let at = 2 * (y * c.width + x);
        let dl = c.data[at];
        let da = c.data[at + 1];
        CanvasView {
            data: c.data.update(at, blended_gray(dl, da, color, sa) as u8).update(
                at + 1,
                blended_alpha(da, sa) as u8,
            ),
            ..c
        }
    }
}

fn blend_pixel(dl: u8, da: u8, color: u8, sa: u8) -> (r: (u8, u8))
    ensures
        r.0 == blended_gray(dl, da, color, sa) as u8,
        r.1 == blended_alpha(da, sa) as u8,
{
    let rest: u32 = 255 - sa as u32;
    proof {
        assert(da * rest <= 255 * 255) by (nonlinear_arith)
            requires
                0 <= da <= 255,
                0 <= rest <= 255,
        ;
        assert(dl * da <= 255 * 255) by (nonlinear_arith)
            requires
                0 <= da <= 255,
                0 <= dl <= 255,
        ;
        assert(dl * da * rest <= 255 * 255 * 255) by (nonlinear_arith)
            requires
                0 <= dl * da <= 255 * 255,
                0 <= rest <= 255,
        ;
        assert(color * sa <= 255 * 255) by (nonlinear_arith)
            requires
                0 <= color <= 255,
                0 <= sa <= 255,
        ;
    }
    let out_a: u32 = sa as u32 + da as u32 * rest / 255;
    let out_l: u32 = if out_a == 0 {
        0
    } else {
        (color as u32 * sa as u32 + dl as u32 * da as u32 * rest / 255) / out_a
    };
    (out_l as u8, out_a as u8)
}

/// Puts ink of gray `color` and coverage `sa` on a pixel of the canvas.
pub fn put_ink(c: &mut Canvas, x: u32, y: u32, color: u8, sa: u8)
    requires
        old(c)@.wf(),
    ensures
        final(c)@ == inked_canvas(old(c)@, x as int, y as int, color, sa),
        final(c)@.wf(),
        final(c).width == old(c).width,
        final(c).height == old(c).height,
{
    if sa == 0 || x >= c.width || y >= c.height {
        return ;
    }
    proof {
        assert(c.data.len() <= usize::MAX);
        assert(y * c.width + x + 1 <= c.width * c.height) by (nonlinear_arith)
            requires
                x + 1 <= c.width,
                y + 1 <= c.height,
        ;
    }
    let at: usize = 2 * (y as usize * c.width as usize + x as usize);
    let (l, a) = blend_pixel(c.data[at], c.data[at + 1], color, sa);
    c.data[at] = l;
    c.data[at + 1] = a;
}

/// The canvas with the first `n` pixels of a tip's ink, of `tw` columns, at `(ox, oy)`.
pub open spec fn with_tip(
    c: CanvasView,
    ink: Seq<u8>,
    tw: nat,
    ox: int,
    oy: int,
    n: nat,
) -> CanvasView
    decreases n,
{
    if n == 0 {
        c
    } else {
        let i = n - 1;
        inked_canvas(
            with_tip(c, ink, tw, ox, oy, (n - 1) as nat),
            ox + i % tw as int,
            oy + i / tw as int,
            0,
            ink[i],
        )
    }
}

/// The canvas with the first `n` pixels of a label.
pub open spec fn with_label(c: CanvasView, pixels: Seq<GlyphPixel>, n: nat) -> CanvasView
    decreases n,
{
    if n == 0 {
        c
    } else {
        let p = pixels[n - 1];
        inked_canvas(
            with_label(c, pixels, (n - 1) as nat),
            p.x as int,
            p.y as int,
            LABEL_COLOR,
            p.coverage,
        )
    }
}

/// Draws the ink of a tip of `tw` columns and `th` rows at `(ox, oy)`.
fn draw_tip(c: &mut Canvas, ink: &Vec<u8>, tw: u32, th: u32, ox: u64, oy: u64)
    requires
        old(c)@.wf(),
        tw > 0,
        ink@.len() == tw * th,
        ox <= 0xFFFF_FFFF_FFFF,
        oy <= 0xFFFF_FFFF_FFFF,
    ensures
        final(c)@ == with_tip(old(c)@, ink@, tw as nat, ox as int, oy as int, ink@.len()),
        final(c)@.wf(),
        final(c).width == old(c).width,
        final(c).height == old(c).height,
{
    let mut i: usize = 0;
    let mut x: u32 = 0;
    let mut y: u32 = 0;
    while i < ink.len()
        invariant
            i <= ink@.len(),
            c@.wf(),
            c.width == old(c).width,
            c.height == old(c).height,
            tw > 0,
            x < tw,
            y <= th,
            i == y * tw + x,
            ink@.len() == tw * th,
            ox <= 0xFFFF_FFFF_FFFF,
            oy <= 0xFFFF_FFFF_FFFF,
            c@ == with_tip(old(c)@, ink@, tw as nat, ox as int, oy as int, i as nat),
        decreases ink@.len() - i,
    {
        proof {
            vstd::arithmetic::div_mod::lemma_fundamental_div_mod_converse(
                i as int,
                tw as int,
                y as int,
                x as int,
            );
            assert(y < th) by (nonlinear_arith)
                requires
                    y * tw + x < tw * th,
                    x >= 0,
                    tw > 0,
            ;
        }
        let px: u64 = ox + x as u64;
        let py: u64 = oy + y as u64;
        if px < c.width as u64 && py < c.height as u64 {
            put_ink(c, px as u32, py as u32, 0, ink[i]);
        }
        i += 1;
        if x + 1 < tw {
            x = x + 1;
        } else {
            proof {
                assert(y * tw + tw == (y + 1) * tw) by (nonlinear_arith);
            }
            x = 0;
            y = y + 1;
        }
    }
}

/// Draws the pixels of a label.
pub fn draw_label(c: &mut Canvas, pixels: &Vec<GlyphPixel>)
    requires
        old(c)@.wf(),
    ensures
        final(c)@ == with_label(old(c)@, pixels@, pixels@.len()),
        final(c)@.wf(),
        final(c).width == old(c).width,
        final(c).height == old(c).height,
{
    let mut i: usize = 0;
    while i < pixels.len()
        invariant
            i <= pixels@.len(),
            c@.wf(),
            c.width == old(c).width,
            c.height == old(c).height,
            c@ == with_label(old(c)@, pixels@, i as nat),
        decreases pixels@.len() - i,
    {
        let p: GlyphPixel = pixels[i];
        if p.x >= 0 && p.y >= 0 && p.x < c.width as i64 && p.y < c.height as i64 {
            put_ink(c, p.x as u32, p.y as u32, LABEL_COLOR, p.coverage);
        }
        i += 1;
    }
}

/// The columns of a sheet of `count` tips: as many as asked for, else one per tip, at most
/// ten.
pub open spec fn columns_of(count: nat, config: ContactSheetConfig) -> nat {
    match config.columns {
        Some(columns) => columns as nat,
        None => if count < 1 {
            1
        } else if count > 10 {
            10
        } else {
            count
        },
    }
}

/// The rows of a sheet of `count` tips.
pub open spec fn rows_of(count: nat, config: ContactSheetConfig) -> nat {
    let columns = columns_of(count, config);
    ((count + columns - 1) / columns as int) as nat
}

/// The length of a side of `n` cells, with the margins and the gaps.
pub open spec fn side_of(n: nat, config: ContactSheetConfig) -> nat {
    2 * MARGIN as nat + n * config.cell_size as nat + (if n > 0 {
        (n - 1) as nat
    } else {
        0
    }) * config.gap as nat
}

/// The width of a sheet.
pub open spec fn sheet_width(count: nat, config: ContactSheetConfig) -> nat {
    let columns = columns_of(count, config);
    side_of(
        if count < columns {
            count
        } else {
            columns
        },
        config,
    )
}

/// The height of a sheet.
pub open spec fn sheet_height(count: nat, config: ContactSheetConfig) -> nat {
    side_of(rows_of(count, config), config)
}

/// The height that labels take in a cell.
pub open spec fn label_height(config: ContactSheetConfig, m: LabelMetrics) -> nat {
    let lines = (if config.show_names {
        m.line_height as nat
    } else {
        0
    }) + (if config.show_sizes {
        m.line_height as nat
    } else {
        0
    });
    let gap = if config.show_names && config.show_sizes {
        m.gap as nat
    } else {
        0
    };
    lines + gap + label_margin(config, m)
}

/// The space above the labels.
pub open spec fn label_margin(config: ContactSheetConfig, m: LabelMetrics) -> nat {
    if config.show_names || config.show_sizes {
        m.margin_top as nat
    } else {
        0
    }
}

/// Can a sheet be drawn? There is a column, and no length is beyond what counts pixels.
pub open spec fn sheet_fits(count: nat, config: ContactSheetConfig, m: LabelMetrics) -> bool {
    &&& count <= u32::MAX
    &&& config.columns != Some(0u32)
    &&& 2 * config.padding <= u32::MAX
    &&& config.cell_size + config.gap <= u32::MAX
    &&& sheet_width(count, config) <= u32::MAX
    &&& sheet_height(count, config) <= u32::MAX
    &&& 2 * (sheet_width(count, config) * sheet_height(count, config)) <= usize::MAX
    &&& 2 * m.line_height + m.gap + m.margin_top <= u32::MAX
}

/// Do the bitmaps have a byte for each pixel, where there is room to draw them?
pub open spec fn bitmaps_fill(
    brushes: Seq<SheetBrush<'_>>,
    config: ContactSheetConfig,
    m: LabelMetrics,
) -> bool {
    cell_height(config, m) > 0 ==> forall|i: int|
        0 <= i < brushes.len() ==> (#[trigger] brushes[i]).bitmap@.width * brushes[i].bitmap@.height
            <= brushes[i].bitmap@.data.len()
}

/// Where the cell of tip `i` starts along a side: `n` cells before it.
pub open spec fn cell_start(n: nat, config: ContactSheetConfig) -> nat {
    MARGIN as nat + n * (config.cell_size + config.gap) as nat
}

/// The width that a cell has for its tip.
pub open spec fn cell_width(config: ContactSheetConfig) -> nat {
    if config.cell_size > 2 * config.padding {
        (config.cell_size - 2 * config.padding) as nat
    } else {
        0
    }
}

/// The height that a cell has for its tip.
pub open spec fn cell_height(config: ContactSheetConfig, m: LabelMetrics) -> nat {
    if cell_width(config) > label_height(config, m) {
        (cell_width(config) - label_height(config, m)) as nat
    } else {
        0
    }
}

/// The ratio by which a bitmap of `w` by `h` is scaled into `a` by `b` pixels; none where
/// it fits.
pub open spec fn fit_ratio(w: nat, h: nat, a: nat, b: nat) -> Option<(nat, nat)> {
    if a < w && (b >= h || a * h <= b * w) {
        Some((a, w))
    } else if b < h {
        Some((b, h))
    } else {
        None
    }
}

/// A side of a tip on a sheet.
pub open spec fn fit_side(side: nat, ratio: Option<(nat, nat)>) -> nat {
    larger(
        1,
        match ratio {
            Some((n, d)) => scaled(side, n, d),
            None => side,
        },
    )
}

/// Half of what is left of `n` beside `used`.
pub open spec fn half_left(n: nat, used: nat) -> nat {
    if n > used {
        ((n - used) / 2) as nat
    } else {
        0
    }
}

/// The canvas with the tip of cell `i` on it.
pub open spec fn with_cell_tip(
    c: CanvasView,
    b: BitmapView,
    i: nat,
    columns: nat,
    config: ContactSheetConfig,
    m: LabelMetrics,
) -> CanvasView {
    let a = cell_width(config);
    let h = cell_height(config, m);
    let ratio = fit_ratio(b.width as nat, b.height as nat, a, h);
    let tw = fit_side(b.width as nat, ratio);
    let th = fit_side(b.height as nat, ratio);
    with_tip(
        c,
        resampled(b, tw, th),
        tw,
        (cell_start(i % columns, config) + config.padding + half_left(a, tw)) as int,
        (cell_start(i / columns, config) + config.padding + half_left(h, th)) as int,
        tw * th,
    )
}

/// The pixels of the labels of a cell.
pub struct CellLabels {
    pub name: Seq<GlyphPixel>,
    pub size: Seq<GlyphPixel>,
}

/// The canvas with cell `i` on it: the tip, then its name, then its size. A cell without
/// room for a tip stays empty.
pub open spec fn with_cell(
    c: CanvasView,
    b: BitmapView,
    i: nat,
    columns: nat,
    config: ContactSheetConfig,
    m: LabelMetrics,
    labels: CellLabels,
) -> CanvasView {
    if cell_height(config, m) == 0 {
        c
    } else {
        let tip = with_cell_tip(c, b, i, columns, config, m);
        let named = if config.show_names {
            with_label(tip, labels.name, labels.name.len())
        } else {
            tip
        };
        if config.show_sizes {
            with_label(named, labels.size, labels.size.len())
        } else {
            named
        }
    }
}

/// The canvas with the first `n` cells on it.
pub open spec fn with_cells(
    c: CanvasView,
    bitmaps: Seq<BitmapView>,
    n: nat,
    config: ContactSheetConfig,
    m: LabelMetrics,
    labels: Seq<CellLabels>,
) -> CanvasView
    decreases n,
{
    if n == 0 {
        c
    } else {
        with_cell(
            with_cells(c, bitmaps, (n - 1) as nat, config, m, labels),
            bitmaps[n - 1],
            (n - 1) as nat,
            columns_of(bitmaps.len(), config),
            config,
            m,
            labels[n - 1],
        )
    }
}

/// The bitmaps of tips.
pub open spec fn bitmaps_of(brushes: Seq<SheetBrush<'_>>) -> Seq<BitmapView> {
    Seq::new(brushes.len(), |i: int| brushes[i].bitmap@)
}

/// Can `pixels` be those of a text that is shortened to `available` pixels and drawn in
/// the middle of them, from `left` and `top`?
pub open spec fn is_label<
    W: Fn(String) -> u32,
    E: Fn(String) -> Vec<u32>,
    D: Fn(String, i64, i64) -> Vec<GlyphPixel>,
>(
    measure: W,
    extents: E,
    draw: D,
    text: Seq<char>,
    available: nat,
    left: nat,
    top: nat,
    pixels: Seq<GlyphPixel>,
) -> bool {
    exists|shown: String, width: u32, drawn: Vec<GlyphPixel>, x: i64, y: i64|
        {
            &&& #[trigger] is_fitted(measure, extents, text, available as u32, shown@)
            &&& #[trigger] measures(measure, shown@, width)
            &&& x == left + half_left(available, width as nat)
            &&& y == top
            &&& #[trigger] call_ensures(draw, (shown, x, y), drawn)
            &&& drawn@ == pixels
        }
}

/// Can these be the labels of cell `i`?
pub open spec fn are_labels<
    W: Fn(String) -> u32,
    E: Fn(String) -> Vec<u32>,
    D: Fn(String, i64, i64) -> Vec<GlyphPixel>,
>(
    measure: W,
    extents: E,
    draw: D,
    brush: SheetBrush<'_>,
    i: nat,
    columns: nat,
    config: ContactSheetConfig,
    m: LabelMetrics,
    labels: CellLabels,
) -> bool {
    let a = cell_width(config);
    let left = cell_start(i % columns, config) + config.padding as nat;
    let top = cell_start(i / columns, config) + config.padding as nat + cell_height(config, m)
        + label_margin(config, m);
    let below = if config.show_names {
        top + m.line_height as nat + (if config.show_sizes {
            m.gap as nat
        } else {
            0
        })
    } else {
        top
    };
    cell_height(config, m) > 0 ==> {
        &&& config.show_names ==> is_label(measure, extents, draw, brush.name@, a, left, top, labels.name)
        &&& config.show_sizes ==> exists|text: Seq<char>| #[trigger]
            is_size_label(brush.bitmap@, text) && is_label(
                measure,
                extents,
                draw,
                text,
                a,
                left,
                below,
                labels.size,
            )
    }
}

/// Can these be the labels of the first `n` cells?
pub open spec fn all_labels<
    W: Fn(String) -> u32,
    E: Fn(String) -> Vec<u32>,
    D: Fn(String, i64, i64) -> Vec<GlyphPixel>,
>(
    measure: W,
    extents: E,
    draw: D,
    brushes: Seq<SheetBrush<'_>>,
    n: nat,
    config: ContactSheetConfig,
    m: LabelMetrics,
    labels: Seq<CellLabels>,
) -> bool {
    &&& labels.len() >= n
    &&& forall|i: int|
        0 <= i < n ==> are_labels(
            measure,
            extents,
            draw,
            #[trigger] brushes[i],
            i as nat,
            columns_of(brushes.len(), config),
            config,
            m,
            labels[i],
        )
}

/// Can this be the canvas of a sheet?
pub open spec fn is_sheet<
    W: Fn(String) -> u32,
    E: Fn(String) -> Vec<u32>,
    D: Fn(String, i64, i64) -> Vec<GlyphPixel>,
>(
    measure: W,
    extents: E,
    draw: D,
    brushes: Seq<SheetBrush<'_>>,
    config: ContactSheetConfig,
    m: LabelMetrics,
    c: CanvasView,
) -> bool {
    let n = brushes.len();
    let empty = background_of(
        sheet_width(n, config) as u32,
        sheet_height(n, config) as u32,
        config.background,
    );
    exists|labels: Seq<CellLabels>|
        {
            &&& all_labels(measure, extents, draw, brushes, n, config, m, labels)
            &&& c == #[trigger] with_cells(empty, bitmaps_of(brushes), n, config, m, labels)
        }
}

/// Can a sheet of these tips be drawn?
pub fn sheet_can_be_drawn(
    brushes: &[SheetBrush<'_>],
    config: &ContactSheetConfig,
    m: &LabelMetrics,
) -> (r: bool)
    ensures
        r == (sheet_fits(brushes@.len(), *config, *m) && bitmaps_fill(brushes@, *config, *m)),
{
    if brushes.len() > u32::MAX as usize || config.columns == Some(0) || config.padding > u32::MAX
        / 2 || config.cell_size as u64 + config.gap as u64 > u32::MAX as u64 || 2
        * m.line_height as u64 + m.gap as u64 + m.margin_top as u64 > u32::MAX as u64 {
        return false;
    }
    let count: u64 = brushes.len() as u64;
    let columns: u64 = match config.columns {
        Some(columns) => columns as u64,
        None => {
            if count < 1 {
                1
            } else if count > 10 {
                10
            } else {
                count
            }
        },
    };
    let rows: u64 = (count + columns - 1) / columns;
    proof {
        assert(rows <= count + 1) by (nonlinear_arith)
            requires
                rows == (count + columns - 1) / columns as int,
                columns >= 1,
        ;
    }
    let width: u128 = side_length(
        if count < columns {
            count
        } else {
            columns
        },
        config,
    );
    let height: u128 = side_length(rows, config);
    if width > u32::MAX as u128 || height > u32::MAX as u128 {
        return false;
    }
    proof {
        assert(width * height <= 0xFFFF_FFFF * 0xFFFF_FFFF) by (nonlinear_arith)
            requires
                0 <= width <= 0xFFFF_FFFF,
                0 <= height <= 0xFFFF_FFFF,
        ;
    }
    if 2 * (width * height) > usize::MAX as u128 {
        return false;
    }
    if cell_room(config, m) == 0 {
        return true;
    }
    let mut i: usize = 0;
    while i < brushes.len()
        invariant
            i <= brushes@.len(),
            cell_height(*config, *m) > 0,
            forall|k: int|
                0 <= k < i ==> (#[trigger] brushes@[k]).bitmap@.width * brushes@[k].bitmap@.height
                    <= brushes@[k].bitmap@.data.len(),
        decreases brushes@.len() - i,
    {
        let bitmap: &GrayscaleBitmap = brushes[i].bitmap;
        proof {
            assert(bitmap.width * bitmap.height <= 0xFFFF_FFFF * 0xFFFF_FFFF) by (nonlinear_arith)
                requires
                    bitmap.width <= 0xFFFF_FFFF,
                    bitmap.height <= 0xFFFF_FFFF,
            ;
        }
        if bitmap.width as u128 * bitmap.height as u128 > bitmap.data.len() as u128 {
            assert(brushes@[i as int].bitmap == bitmap);
            return false;
        }
        i += 1;
    }
    true
}

/// The length of a side of `n` cells, with the margins and the gaps.
fn side_length(n: u64, config: &ContactSheetConfig) -> (r: u128)
    requires
        n <= 0x1_0000_0000,
    ensures
        r == side_of(n as nat, *config),
{
    let gaps: u64 = if n > 0 {
        n - 1
    } else {
        0
    };
    proof {
        assert(n * config.cell_size <= 0x1_0000_0000 * 0xFFFF_FFFF) by (nonlinear_arith)
            requires
                n <= 0x1_0000_0000,
                config.cell_size <= 0xFFFF_FFFF,
        ;
        assert(gaps * config.gap <= 0x1_0000_0000 * 0xFFFF_FFFF) by (nonlinear_arith)
            requires
                gaps <= 0x1_0000_0000,
                config.gap <= 0xFFFF_FFFF,
        ;
    }
    16 + n as u128 * config.cell_size as u128 + gaps as u128 * config.gap as u128
}

/// The height that a cell has for its tip.
fn cell_room(config: &ContactSheetConfig, m: &LabelMetrics) -> (r: u32)
    requires
        2 * config.padding <= u32::MAX,
        2 * m.line_height + m.gap + m.margin_top <= u32::MAX,
    ensures
        r == cell_height(*config, *m),
{
    if config.cell_size <= 2 * config.padding {
        return 0;
    }
    let width: u32 = config.cell_size - 2 * config.padding;
    let mut labels: u32 = 0;
    if config.show_names {
        labels = labels + m.line_height;
    }
    if config.show_sizes {
        labels = labels + m.line_height;
    }
    if config.show_names && config.show_sizes {
        labels = labels + m.gap;
    }
    if config.show_names || config.show_sizes {
        labels = labels + m.margin_top;
    }
    if width > labels {
        width - labels
    } else {
        0
    }
}

/// The size of a sheet, and its columns.
fn sheet_size(count: u32, config: &ContactSheetConfig, m: &LabelMetrics) -> (r: (u32, u32, u32))
    requires
        count > 0,
        sheet_fits(count as nat, *config, *m),
    ensures
        r.0 == sheet_width(count as nat, *config),
        r.1 == sheet_height(count as nat, *config),
        r.2 == columns_of(count as nat, *config),
        r.2 > 0,
{
    let columns: u32 = match config.columns {
        Some(columns) => columns,
        None => {
            if count > 10 {
                10
            } else {
                count
            }
        },
    };
    let rows: u64 = (count as u64 + (columns as u64 - 1)) / columns as u64;
    let across: u64 = if count < columns {
        count as u64
    } else {
        columns as u64
    };
    proof {
        assert(rows >= 1) by (nonlinear_arith)
            requires
                rows == (count as u64 + (columns as u64 - 1)) / columns as int,
                count >= 1,
                columns >= 1,
        ;
        assert(rows <= count) by (nonlinear_arith)
            requires
                rows == (count as u64 + (columns as u64 - 1)) / columns as int,
                count >= 1,
                columns >= 1,
        ;
        side_is_small(across as nat, *config);
        side_is_small(rows as nat, *config);
    }
    let width: u64 = 16 + across * config.cell_size as u64 + (across - 1) * config.gap as u64;
    let height: u64 = 16 + rows * config.cell_size as u64 + (rows - 1) * config.gap as u64;
    (width as u32, height as u32, columns)
}

proof fn side_is_small(n: nat, config: ContactSheetConfig)
    requires
        1 <= n <= u32::MAX,
    ensures
        n * config.cell_size <= 0xFFFF_FFFF * 0xFFFF_FFFF,
        (n - 1) * config.gap <= 0xFFFF_FFFE * 0xFFFF_FFFF,
        side_of(n, config) == 16 + n * config.cell_size + (n - 1) * config.gap,
        side_of(n, config) <= u32::MAX ==> n * config.cell_size + (n - 1) * config.gap
            <= u32::MAX,
{
    assert(n * config.cell_size <= 0xFFFF_FFFF * 0xFFFF_FFFF) by (nonlinear_arith)
        requires
            n <= 0xFFFF_FFFF,
            config.cell_size <= 0xFFFF_FFFF,
    ;
    assert((n - 1) * config.gap <= 0xFFFF_FFFE * 0xFFFF_FFFF) by (nonlinear_arith)
        requires
            1 <= n <= 0xFFFF_FFFF,
            config.gap <= 0xFFFF_FFFF,
    ;
}

/// Where the cells before `n` end leaves a cell on the sheet.
proof fn cell_is_on_sheet(n: nat, cells: nat, config: ContactSheetConfig)
    requires
        n < cells <= u32::MAX,
        side_of(cells, config) <= u32::MAX,
    ensures
        cell_start(n, config) + config.cell_size + MARGIN <= side_of(cells, config),
{
    side_is_small(cells, config);
    let cell = config.cell_size as int;
    let gap = config.gap as int;
    assert(n * (cell + gap) + cell <= cells * cell + (cells - 1) * gap) by (nonlinear_arith)
        requires
            n + 1 <= cells,
            cell >= 0,
            gap >= 0,
    ;
}

/// A side of a tip on a sheet.
fn fitted_side(side: u32, ratio: Option<(u32, u32)>) -> (r: u32)
    requires
        ratio matches Some((n, d)) ==> 0 < n < d,
    ensures
        r == fit_side(
            side as nat,
            match ratio {
                Some((n, d)) => Some((n as nat, d as nat)),
                None => None,
            },
        ),
        r > 0,
{
    let scaled_side: u32 = match ratio {
        Some((n, d)) => scale_down(side, n, d),
        None => side,
    };
    if scaled_side > 1 {
        scaled_side
    } else {
        1
    }
}

/// Where a cell stands on a sheet, and the room that it has for its tip.
struct Cell {
    x: u64,
    y: u64,
    width: u32,
    height: u32,
}

spec fn is_cell(
    cell: Cell,
    i: nat,
    columns: nat,
    config: ContactSheetConfig,
    m: LabelMetrics,
) -> bool {
    &&& cell.x == cell_start(i % columns, config) + config.padding
    &&& cell.y == cell_start(i / columns, config) + config.padding
    &&& cell.width == cell_width(config)
    &&& cell.height == cell_height(config, m)
    &&& cell.x + cell.width <= u32::MAX
    &&& cell.y + cell.width <= u32::MAX
    &&& 0 < cell.height <= cell.width
}

fn find_cell(i: u32, count: u32, columns: u32, config: &ContactSheetConfig, m: &LabelMetrics) -> (r:
    Option<Cell>)
    requires
        i < count,
        sheet_fits(count as nat, *config, *m),
        columns == columns_of(count as nat, *config),
        columns > 0,
    ensures
        match r {
            Some(cell) => is_cell(cell, i as nat, columns as nat, *config, *m),
            None => cell_height(*config, *m) == 0,
        },
{
    let height: u32 = cell_room(config, m);
    if height == 0 {
        return None;
    }
    let width: u32 = config.cell_size - 2 * config.padding;
    let col: u32 = i % columns;
    let row: u32 = i / columns;
    proof {
        let across = if count < columns {
            count as nat
        } else {
            columns as nat
        };
        let rows = rows_of(count as nat, *config);
        assert(col < across) by (nonlinear_arith)
            requires
                col == i % columns,
                i < count,
                columns > 0,
                across == if count < columns {
                    count as nat
                } else {
                    columns as nat
                },
        ;
        assert(row < rows && rows <= count) by (nonlinear_arith)
            requires
                row == i / columns,
                i < count,
                columns > 0,
                rows == (count + columns - 1) / columns as int,
        ;
        cell_is_on_sheet(col as nat, across, *config);
        cell_is_on_sheet(row as nat, rows, *config);
        assert(col * (config.cell_size + config.gap) <= u32::MAX);
        assert(row * (config.cell_size + config.gap) <= u32::MAX);
    }
    let step: u64 = config.cell_size as u64 + config.gap as u64;
    let x: u64 = 8 + col as u64 * step + config.padding as u64;
    let y: u64 = 8 + row as u64 * step + config.padding as u64;
    Some(Cell { x, y, width, height })
}

fn draw_cell_tip(
    c: &mut Canvas,
    bitmap: &GrayscaleBitmap,
    cell: &Cell,
    Ghost(i): Ghost<nat>,
    Ghost(columns): Ghost<nat>,
    config: &ContactSheetConfig,
    Ghost(m): Ghost<LabelMetrics>,
)
    requires
        old(c)@.wf(),
        bitmap@.width * bitmap@.height <= bitmap@.data.len(),
        is_cell(*cell, i, columns, *config, m),
    ensures
        final(c)@ == with_cell_tip(old(c)@, bitmap@, i, columns, *config, m),
        final(c)@.wf(),
        final(c).width == old(c).width,
        final(c).height == old(c).height,
{
    let w: u32 = bitmap.width;
    let h: u32 = bitmap.height;
    let a: u32 = cell.width;
    let b: u32 = cell.height;
    proof {
        assert(a * h <= 0xFFFF_FFFF * 0xFFFF_FFFF) by (nonlinear_arith)
            requires
                a <= 0xFFFF_FFFF,
                h <= 0xFFFF_FFFF,
        ;
        assert(b * w <= 0xFFFF_FFFF * 0xFFFF_FFFF) by (nonlinear_arith)
            requires
                b <= 0xFFFF_FFFF,
                w <= 0xFFFF_FFFF,
        ;
    }
    let ratio: Option<(u32, u32)> = if a < w && (b >= h || a as u64 * h as u64 <= b as u64
        * w as u64) {
        Some((a, w))
    } else if b < h {
        Some((b, h))
    } else {
        None
    };
    let tw: u32 = fitted_side(w, ratio);
    let th: u32 = fitted_side(h, ratio);
    let ink: Vec<u8> = resample(bitmap, tw, th);
    let ox: u64 = cell.x + (if a > tw {
        (a - tw) / 2
    } else {
        0
    }) as u64;
    let oy: u64 = cell.y + (if b > th {
        (b - th) / 2
    } else {
        0
    }) as u64;
    draw_tip(c, &ink, tw, th, ox, oy);
}

/// Draws a text that is shortened to the width of a cell, in the middle of it.
fn draw_cell_label<
    W: Fn(String) -> u32,
    E: Fn(String) -> Vec<u32>,
    D: Fn(String, i64, i64) -> Vec<GlyphPixel>,
>(
    c: &mut Canvas,
    text: String,
    available: u32,
    left: u64,
    top: u64,
    measure: &W,
    extents: &E,
    draw: &D,
) -> (pixels: Ghost<Seq<GlyphPixel>>)
    requires
        old(c)@.wf(),
        forall|s: String| #[trigger] call_requires(*measure, (s,)),
        forall|s: String| #[trigger] call_requires(*extents, (s,)),
        forall|s: String, x: i64, y: i64| #[trigger] call_requires(*draw, (s, x, y)),
        left + available <= u32::MAX,
        top <= 0xFFFF_FFFF_FFFF,
    ensures
        is_label(*measure, *extents, *draw, text@, available as nat, left as nat, top as nat, pixels@),
        final(c)@ == with_label(old(c)@, pixels@, pixels@.len()),
        final(c)@.wf(),
        final(c).width == old(c).width,
        final(c).height == old(c).height,
{
    let shown: String = fit_label(text.as_str(), available, measure, extents);
    let width: u32 = measure(shown.clone());
    let ghost kept = shown;
    let x: i64 = left as i64 + (if available > width {
        (available - width) / 2
    } else {
        0
    }) as i64;
    let y: i64 = top as i64;
    let drawn: Vec<GlyphPixel> = draw(shown, x, y);
    proof {
        assert(is_fitted(*measure, *extents, text@, (available as nat) as u32, kept@));
        assert(measures(*measure, kept@, width));
        assert(call_ensures(*draw, (kept, x, y), drawn));
    }
    draw_label(c, &drawn);
    Ghost(drawn@)
}

/// Draws the canvas of a sheet. `measure` says how wide a text is, `extents` where each of
/// its characters ends; `draw` gives the pixels of a text at a place.
pub fn draw_sheet<
    W: Fn(String) -> u32,
    E: Fn(String) -> Vec<u32>,
    D: Fn(String, i64, i64) -> Vec<GlyphPixel>,
>(
    brushes: &[SheetBrush<'_>],
    config: &ContactSheetConfig,
    m: &LabelMetrics,
    measure: &W,
    extents: &E,
    draw: &D,
) -> (r: Canvas)
    requires
        brushes@.len() > 0,
        sheet_fits(brushes@.len(), *config, *m),
        bitmaps_fill(brushes@, *config, *m),
        forall|s: String| #[trigger] call_requires(*measure, (s,)),
        forall|s: String| #[trigger] call_requires(*extents, (s,)),
        forall|s: String, x: i64, y: i64| #[trigger] call_requires(*draw, (s, x, y)),
    ensures
        is_sheet(*measure, *extents, *draw, brushes@, *config, *m, r@),
        r@.wf(),
{
    let count: u32 = brushes.len() as u32;
    let (width, height, columns) = sheet_size(count, config, m);
    let mut c: Canvas = draw_background(width, height, config.background);
    let ghost empty = c@;
    let ghost bitmaps = bitmaps_of(brushes@);
    let ghost mut labels: Seq<CellLabels> = seq![];
    let mut i: u32 = 0;
    while i < count
        invariant
            i <= count,
            count == brushes@.len(),
            bitmaps == bitmaps_of(brushes@),
            empty == background_of(
                sheet_width(brushes@.len(), *config) as u32,
                sheet_height(brushes@.len(), *config) as u32,
                config.background,
            ),
            columns == columns_of(count as nat, *config),
            columns > 0,
            sheet_fits(count as nat, *config, *m),
            bitmaps_fill(brushes@, *config, *m),
            forall|s: String| #[trigger] call_requires(*measure, (s,)),
            forall|s: String| #[trigger] call_requires(*extents, (s,)),
            forall|s: String, x: i64, y: i64| #[trigger] call_requires(*draw, (s, x, y)),
            c@.wf(),
            labels.len() == i,
            all_labels(*measure, *extents, *draw, brushes@, i as nat, *config, *m, labels),
            c@ == with_cells(empty, bitmaps, i as nat, *config, *m, labels),
        decreases count - i,
    {
        let brush: &SheetBrush<'_> = &brushes[i as usize];
        let ghost before = c@;
        let ghost mut made = CellLabels { name: seq![], size: seq![] };
        if let Some(cell) = find_cell(i, count, columns, config, m) {
            draw_cell_tip(
                &mut c,
                brush.bitmap,
                &cell,
                Ghost(i as nat),
                Ghost(columns as nat),
                config,
                Ghost(*m),
            );
            let margin: u32 = if config.show_names || config.show_sizes {
                m.margin_top
            } else {
                0
            };
            let mut top: u64 = cell.y + cell.height as u64 + margin as u64;
            if config.show_names {
                let pixels: Ghost<Seq<GlyphPixel>> = draw_cell_label(
                    &mut c,
                    brush.name.to_owned(),
                    cell.width,
                    cell.x,
                    top,
                    measure,
                    extents,
                    draw,
                );
                proof {
                    made = CellLabels { name: pixels@, size: seq![] };
                }
                top = top + m.line_height as u64;
                if config.show_sizes {
                    top = top + m.gap as u64;
                }
            }
            if config.show_sizes {
                let text: String = size_label(brush.bitmap);
                let ghost shown = text@;
                let pixels: Ghost<Seq<GlyphPixel>> = draw_cell_label(
                    &mut c,
                    text,
                    cell.width,
                    cell.x,
                    top,
                    measure,
                    extents,
                    draw,
                );
                proof {
                    assert(is_size_label(brush.bitmap@, shown));
                    made = CellLabels { name: made.name, size: pixels@ };
                }
            }
        }
        proof {
            assert(brushes@[i as int] == *brush);
            assert(bitmaps[i as int] == brush.bitmap@);
            assert(are_labels(
                *measure,
                *extents,
                *draw,
                *brush,
                i as nat,
                columns as nat,
                *config,
                *m,
                made,
            ));
            assert(c@ == with_cell(
                before,
                brush.bitmap@,
                i as nat,
                columns as nat,
                *config,
                *m,
                made,
            ));
            cells_agree(empty, bitmaps, i as nat, *config, *m, labels, labels.push(made));
            let all = labels.push(made);
            assert forall|k: int| 0 <= k < i + 1 implies are_labels(
                *measure,
                *extents,
                *draw,
                #[trigger] brushes@[k],
                k as nat,
                columns as nat,
                *config,
                *m,
                all[k],
            ) by {
                if k < i {
                    assert(all[k] == labels[k]);
                }
            }
            labels = all;
            assert(labels[i as int] == made);
        }
        i += 1;
    }
    assert(is_sheet(*measure, *extents, *draw, brushes@, *config, *m, c@)) by {
        assert(c@ == with_cells(empty, bitmaps, brushes@.len(), *config, *m, labels));
    }
    c
}

proof fn cells_agree(
    c: CanvasView,
    bitmaps: Seq<BitmapView>,
    n: nat,
    config: ContactSheetConfig,
    m: LabelMetrics,
    a: Seq<CellLabels>,
    b: Seq<CellLabels>,
)
    requires
        n <= a.len(),
        n <= b.len(),
        forall|i: int| 0 <= i < n ==> a[i] == b[i],
    ensures
        with_cells(c, bitmaps, n, config, m, a) == with_cells(c, bitmaps, n, config, m, b),
    decreases n,
{
    if n > 0 {
        cells_agree(c, bitmaps, (n - 1) as nat, config, m, a, b);
        assert(a[n - 1] == b[n - 1]);
    }
}

/// The PNG file of a canvas, or why there is none.
pub open spec fn sheet_file(c: CanvasView) -> Result<Seq<u8>, Seq<char>> {
    match png_file_of(PngLayout::LumaAlpha, c.width, c.height, c.data) {
        Ok(file) => Ok(file),
        Err(e) => Err("preview PNG encoding failed: "@ + e),
    }
}

/// The PNG file of a canvas.
pub fn encode_luma_alpha_png(c: Canvas) -> (r: Result<Vec<u8>, String>)
    requires
        c@.wf(),
    ensures
        match sheet_file(c@) {
            Ok(file) => r matches Ok(v) && v@ == file,
            Err(e) => r matches Err(m) && m@ == e,
        },
{
    assert(c.width * c.height * 2 == 2 * (c.width * c.height));
    match encode_png(PngLayout::LumaAlpha, c.width, c.height, c.data) {
        Ok(file) => Ok(file),
        Err(e) => {
            let mut m: String = "preview PNG encoding failed: ".to_owned();
            m.append(e.as_str());
            Err(m)
        },
    }
}

/// The canvas of a sheet without tips: one transparent pixel.
pub open spec fn no_sheet() -> CanvasView {
    CanvasView { width: 1, height: 1, data: seq![255u8, 0u8] }
}

/// The PNG file of a contact sheet. `measure` says how wide a text is, `extents` where
/// each of its characters ends; `draw` gives the pixels of a text at a place; `m` says how tall labels are.
pub fn generate_contact_sheet_png<
    W: Fn(String) -> u32,
    E: Fn(String) -> Vec<u32>,
    D: Fn(String, i64, i64) -> Vec<GlyphPixel>,
>(
    brushes: &[SheetBrush<'_>],
    config: &ContactSheetConfig,
    m: &LabelMetrics,
    measure: &W,
    extents: &E,
    draw: &D,
) -> (r: Result<Vec<u8>, String>)
    requires
        brushes@.len() > 0 ==> sheet_fits(brushes@.len(), *config, *m),
        bitmaps_fill(brushes@, *config, *m),
        forall|s: String| #[trigger] call_requires(*measure, (s,)),
        forall|s: String| #[trigger] call_requires(*extents, (s,)),
        forall|s: String, x: i64, y: i64| #[trigger] call_requires(*draw, (s, x, y)),
    ensures
        exists|c: CanvasView|
            {
                &&& brushes@.len() == 0 ==> c == no_sheet()
                &&& brushes@.len() > 0 ==> is_sheet(*measure, *extents, *draw, brushes@, *config, *m, c)
                &&& match #[trigger] sheet_file(c) {
                    Ok(file) => r matches Ok(v) && v@ == file,
                    Err(e) => r matches Err(text) && text@ == e,
                }
            },
{
    let c: Canvas = if brushes.len() == 0 {
        let mut data: Vec<u8> = Vec::new();
        data.push(255);
        data.push(0);
        assert(data@ =~= seq![255u8, 0u8]);
        assert(1 * 1 == 1int);
        Canvas { width: 1, height: 1, data }
    } else {
        draw_sheet(brushes, config, m, measure, extents, draw)
    };
    let ghost drawn = c@;
    let r: Result<Vec<u8>, String> = encode_luma_alpha_png(c);
    proof {
        let file = sheet_file(drawn);
    }
    r
}

} // verus!
