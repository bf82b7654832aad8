//! Tips of computed brushes: an ellipse on a square canvas.
use vstd::arithmetic::power2::{lemma2_to64, lemma_pow2_strictly_increases, lemma_pow2_unfold, pow2};
use vstd::prelude::*;
use crate::abr::types::ComputedGeometry;
use crate::preview::bitmap::{BitmapView, GrayscaleBitmap};
use crate::support::double::{Double, DIGITS};

verus! {

/// The bits of the double 1.
pub const ONE_BITS: u64 = 0x3FF0_0000_0000_0000;

/// The bits of the double 4096, the longest diameter of a tip.
pub const LONGEST_BITS: u64 = 0x40B0_0000_0000_0000;

/// The bits of the positive infinite double.
pub const INFINITY_BITS: u64 = 0x7FF0_0000_0000_0000;

/// Is a double at least 1? The bits of positive doubles are in the doubles' order, and
/// above the infinite one there are no numbers.
pub open spec fn at_least_one(d: Double) -> bool {
    ONE_BITS <= d.bits <= INFINITY_BITS
}

/// Does the geometry name a diameter of at least 1?
pub open spec fn synthesizable(geom: ComputedGeometry) -> bool {
    geom.diameter_px matches Some(d) && at_least_one(d)
}

/// Can a tip be made from this geometry? It can where the diameter is at least 1.
pub fn can_synthesize(geom: &ComputedGeometry) -> (r: bool)
    ensures
        r == synthesizable(*geom),
{
    match geom.diameter_px {
        Some(d) => ONE_BITS <= d.bits && d.bits <= INFINITY_BITS,
        None => false,
    }
}

/// A double of at least 1, counted in units of which 1 has [`DIGITS`].
pub open spec fn units(d: Double) -> nat {
    ((DIGITS + d.bits as nat % DIGITS as nat) * pow2((d.bits as nat / DIGITS as nat - 1023) as nat))
        as nat
}

/// The side of the canvas of a tip: its diameter, at most 4096 and rounded up, and a pixel
/// on each side.
pub open spec fn canvas_side(diameter: Double) -> nat {
    if diameter.bits >= LONGEST_BITS {
        4098
    } else {
        (units(diameter) + DIGITS as nat - 1) as nat / DIGITS as nat + 2
    }
}

fn find_canvas_side(diameter: Double) -> (r: u32)
    requires
        at_least_one(diameter),
    ensures
        r == canvas_side(diameter),
        3 <= r <= 4098,
{
    if diameter.bits >= LONGEST_BITS {
        return 4098;
    }
    let exponent: u64 = diameter.bits / 0x10_0000_0000_0000 - 1023;
    let significand: u128 = DIGITS + (diameter.bits % 0x10_0000_0000_0000) as u128;
    let mut total: u128 = significand;
    let mut i: u64 = 0;
    proof {
        lemma2_to64();
    }
    while i < exponent
        invariant
            i <= exponent,
            exponent <= 11,
            DIGITS <= significand < 2 * DIGITS,
            total == significand * pow2(i as nat),
            DIGITS <= total <= significand * 2048,
        decreases exponent - i,
    {
        proof {
            lemma_pow2_unfold((i + 1) as nat);
            lemma2_to64();
            if i + 1 < 11 {
                lemma_pow2_strictly_increases((i + 1) as nat, 11);
            }
            assert(significand * (2 * pow2(i as nat)) == 2 * (significand * pow2(i as nat)))
                by (nonlinear_arith);
            assert(significand * pow2((i + 1) as nat) <= significand * 2048) by (nonlinear_arith)
                requires
                    pow2((i + 1) as nat) <= 2048,
            ;
        }
        total = 2 * total;
        i += 1;
    }
    assert(units(diameter) == total);
    ((total + (DIGITS - 1)) / DIGITS) as u32 + 2
}

/// Can `b` be the tip of this geometry? `shade` gives the gray of the pixel in a column and
/// a row of a canvas with a side.
pub open spec fn is_shaded<S: Fn(ComputedGeometry, u32, u32, u32) -> u8>(
    shade: S,
    geom: ComputedGeometry,
    b: BitmapView,
) -> bool {
    let side = canvas_side(geom.diameter_px->0);
    &&& b.width == side
    &&& b.height == side
    &&& b.data.len() == side * side
    &&& forall|i: int|
        0 <= i < b.data.len() ==> call_ensures(
            shade,
            (geom, b.width, (i % side as int) as u32, (i / side as int) as u32),
            #[trigger] b.data[i],
        )
}

/// Does a function shade every pixel of every tip?
pub open spec fn shades<S: Fn(ComputedGeometry, u32, u32, u32) -> u8>(shade: S) -> bool {
    forall|geom: ComputedGeometry, side: u32, x: u32, y: u32| #[trigger]
        call_requires(shade, (geom, side, x, y))
}

/// The tip of a computed brush on its canvas, or `None` where [`can_synthesize`] is false.
/// `shade` gives the gray of a pixel, from the geometry, the side of the canvas, the column
/// and the row.
pub fn synthesize_computed_tip<S: Fn(ComputedGeometry, u32, u32, u32) -> u8>(
    geom: &ComputedGeometry,
    shade: &S,
) -> (r: Option<GrayscaleBitmap>)
    requires
        shades(*shade),
    ensures
        match r {
            Some(b) => synthesizable(*geom) && is_shaded(*shade, *geom, b@),
            None => !synthesizable(*geom),
        },
{
    if !can_synthesize(geom) {
        return None;
    }
    let side: u32 = match geom.diameter_px {
        Some(diameter) => find_canvas_side(diameter),
        None => 0,
    };
    assert(side * side <= 4098 * 4098) by (nonlinear_arith)
        requires
            side <= 4098,
    ;
    let mut data: Vec<u8> = Vec::with_capacity(side as usize * side as usize);
    let mut y: u32 = 0;
    while y < side
        invariant
            y <= side,
            3 <= side <= 4098,
            shades(*shade),
            data@.len() == y * side,
            forall|i: int|
                0 <= i < data@.len() ==> call_ensures(
                    *shade,
                    (*geom, side, (i % side as int) as u32, (i / side as int) as u32),
                    #[trigger] data@[i],
                ),
        decreases side - y,
    {
        let mut x: u32 = 0;
        while x < side
            invariant
                x <= side,
                y < side,
                3 <= side <= 4098,
                shades(*shade),
                data@.len() == y * side + x,
                forall|i: int|
                    0 <= i < data@.len() ==> call_ensures(
                        *shade,
                        (*geom, side, (i % side as int) as u32, (i / side as int) as u32),
                        #[trigger] data@[i],
                    ),
            decreases side - x,
        {
            let gray: u8 = shade(*geom, side, x, y);
            proof {
                vstd::arithmetic::div_mod::lemma_fundamental_div_mod_converse(
                    data@.len() as int,
                    side as int,
                    y as int,
                    x as int,
                );
            }
            data.push(gray);
            x += 1;
        }
        assert(y * side + side == (y + 1) * side) by (nonlinear_arith);
        y += 1;
    }
    Some(GrayscaleBitmap { width: side, height: side, data })
}

/// Does a function shade a pixel the same every time?
pub open spec fn is_steady<S: Fn(ComputedGeometry, u32, u32, u32) -> u8>(shade: S) -> bool {
    forall|geom: ComputedGeometry, side: u32, x: u32, y: u32, a: u8, b: u8|
        #[trigger] call_ensures(shade, (geom, side, x, y), a) && #[trigger] call_ensures(
            shade,
            (geom, side, x, y),
            b,
        ) ==> a == b
}

/// Where a pixel is shaded the same every time, a geometry has one tip.
pub proof fn steady_tips_are_equal<S: Fn(ComputedGeometry, u32, u32, u32) -> u8>(
    shade: S,
    geom: ComputedGeometry,
    a: BitmapView,
    b: BitmapView,
)
    requires
        is_steady(shade),
        is_shaded(shade, geom, a),
        is_shaded(shade, geom, b),
    ensures
        a == b,
{
    assert forall|i: int| 0 <= i < a.data.len() implies a.data[i] == b.data[i] by {
        let x = a.data[i];
        let y = b.data[i];
    }
    assert(a.data =~= b.data);
}

} // verus!
