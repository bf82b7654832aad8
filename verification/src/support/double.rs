//! Binary floating-point numbers by their bits, and the arithmetic on them that sizes
//! and samples images, done in integers.
//!
//! A positive double is an integer of at most 53 binary digits times a power of two. A
//! product, sum or quotient of doubles is the exact result rounded to 53 digits, to the
//! even neighbour where it lies halfway. Here such results are integers in a fixed unit,
//! so that rounding is [`rounded`], or fractions, so that division is [`quotient_scale`]
//! and [`nearest`].
use vstd::prelude::*;

verus! {

/// A 64-bit IEEE 754 number by its bits.
#[derive(Debug, Clone, Copy, PartialEq, Eq, Structural)]
pub struct Double {
    pub bits: u64,
}

impl View for Double {
    type V = Double;

    open spec fn view(&self) -> Double {
        *self
    }
}

/// Two to the power of 52: the least 53-digit number.
pub const DIGITS: u128 = 0x10_0000_0000_0000;

/// The integer nearest to `a / b`, and the even one of two that are equally near.
pub open spec fn nearest(a: nat, b: nat) -> nat {
    if 2 * (a % b) < b || (2 * (a % b) == b && (a / b) % 2 == 0) {
        a / b
    } else {
        a / b + 1
    }
}

/// The value of the last of the 53 leading binary digits of `x`; 1 where there are fewer.
pub open spec fn ulp(x: nat) -> nat
    decreases x,
{
    if x < 2 * DIGITS {
        1
    } else {
        2 * ulp(x / 2)
    }
}

/// `x` rounded to 53 binary digits.
pub open spec fn rounded(x: nat) -> nat {
    nearest(x, ulp(x)) * ulp(x)
}

/// The first of `k`, `2 k`, `4 k`, ... that makes `n / d` a number of 53 digits before the
/// point.
pub open spec fn scale_from(n: nat, d: nat, k: nat) -> nat
    decreases 2 * (d * DIGITS) - n * k,
    when n > 0 && k > 0
    via scale_from_decreases
{
    if n * k >= d * DIGITS {
        k
    } else {
        scale_from(n, d, 2 * k)
    }
}

#[via_fn]
proof fn scale_from_decreases(n: nat, d: nat, k: nat) {
    assert(n * (2 * k) == 2 * (n * k) && n * k > 0) by (nonlinear_arith)
        requires
            n > 0,
            k > 0,
    ;
}

/// The denominator of the double nearest to `n / d`, which is
/// `nearest(n * k, d) / k` with `k` this number.
pub open spec fn quotient_scale(n: nat, d: nat) -> nat {
    scale_from(n, d, 1)
}

/// `x` times the quotient `n / d`, each rounded to a double, and the product rounded to
/// the nearest integer, upward from halfway.
pub open spec fn scaled(x: nat, n: nat, d: nat) -> nat {
    let k = quotient_scale(n, d);
    (2 * rounded(x * nearest(n * k, d)) + k) / (2 * k)
}

/// The product `y * h` divided by `t`, each rounded to a double, without its fraction. The
/// quotient is below 2^52.
pub open spec fn scaled_floor(y: nat, h: nat, t: nat) -> nat {
    let a = rounded(y * h);
    if a == 0 {
        0
    } else {
        let k = quotient_scale(a, t);
        nearest(a * k, t) / k
    }
}

/// The integer nearest to `a / b`.
pub fn divide_nearest(a: u128, b: u128) -> (r: u128)
    requires
        0 < b <= 0x4000_0000_0000_0000_0000_0000_0000_0000,
    ensures
        r == nearest(a as nat, b as nat),
{
    let q: u128 = a / b;
    let rest: u128 = a % b;
    if 2 * rest < b || (2 * rest == b && q % 2 == 0) {
        q
    } else {
        proof {
            assert(q < 0xFFFF_FFFF_FFFF_FFFF_FFFF_FFFF_FFFF_FFFF) by (nonlinear_arith)
                requires
                    q == a / b,
                    a <= 0xFFFF_FFFF_FFFF_FFFF_FFFF_FFFF_FFFF_FFFF,
                    2 * (a % b) >= b,
                    b > 0,
            ;
        }
        q + 1
    }
}

/// How far rounding moves a quotient.
pub proof fn nearest_is_near(a: nat, b: nat)
    requires
        b > 0,
    ensures
        2 * a - b <= 2 * (nearest(a, b) * b) <= 2 * a + b,
{
    let q = a / b;
    assert(a == q * b + a % b && (q + 1) * b == q * b + b) by (nonlinear_arith)
        requires
            b > 0,
            q == a / b,
    ;
}

/// The last digit's value is 1, or small against the number.
pub proof fn ulp_is_small(x: nat)
    ensures
        ulp(x) >= 1,
        ulp(x) == 1 || ulp(x) * DIGITS <= x,
    decreases x,
{
    if x >= 2 * DIGITS {
        ulp_is_small(x / 2);
    }
}

/// How far rounding to 53 digits moves a number.
pub proof fn rounded_is_near(x: nat)
    ensures
        2 * x - ulp(x) <= 2 * rounded(x) <= 2 * x + ulp(x),
        ulp(x) == 1 ==> rounded(x) == x,
{
    ulp_is_small(x);
    nearest_is_near(x, ulp(x));
    if ulp(x) == 1 {
        assert(x % 1 == 0 && x / 1 == x);
    }
}

/// `x` rounded to 53 binary digits.
pub fn round_to_double(x: u128) -> (r: u128)
    requires
        x < 0x100_0000_0000_0000_0000_0000_0000_0000,
    ensures
        r == rounded(x as nat),
        r <= 2 * x,
{
    let mut t: u128 = x;
    let mut u: u128 = 1;
    while t >= 2 * DIGITS
        invariant
            x < 0x100_0000_0000_0000_0000_0000_0000_0000,
            u >= 1,
            t == x / u,
            u * t <= x,
            ulp(x as nat) == u * ulp(t as nat),
        decreases t,
    {
        proof {
            assert(u * (2 * ulp(t as nat / 2)) == (u * 2) * ulp(t as nat / 2))
                by (nonlinear_arith);
            assert(t as int / 2 == x as int / (u * 2)) by {
                vstd::arithmetic::div_mod::lemma_div_denominator(x as int, u as int, 2);
            }
            assert((u * 2) * (t / 2) <= u * t) by (nonlinear_arith)
                requires
                    u >= 1,
                    2 * (t / 2) <= t,
            ;
            assert(u <= x) by (nonlinear_arith)
                requires
                    u * t <= x,
                    t >= 1,
                    u >= 1,
            ;
        }
        t = t / 2;
        u = u * 2;
    }
    proof {
        assert(ulp(t as nat) == 1);
        assert(u * ulp(t as nat) == u) by (nonlinear_arith)
            requires
                ulp(t as nat) == 1,
        ;
        ulp_is_small(x as nat);
        rounded_is_near(x as nat);
        nearest_is_near(x as nat, u as nat);
    }
    let q: u128 = divide_nearest(x, u);
    q * u
}

proof fn scale_is_enough(n: nat, d: nat, k: nat)
    requires
        n > 0,
        k > 0,
        n * k < 2 * (d * DIGITS) || k == 1,
    ensures
        ({
            let r = scale_from(n, d, k);
            r >= 1 && n * r >= d * DIGITS && (n * r < 2 * (d * DIGITS) || r == 1)
        }),
    decreases 2 * (d * DIGITS) - n * k,
{
    if n * k < d * DIGITS {
        assert(n * (2 * k) == 2 * (n * k) && n * k > 0) by (nonlinear_arith)
            requires
                n > 0,
                k > 0,
        ;
        scale_is_enough(n, d, 2 * k);
    }
}

/// The denominator of the double nearest to `n / d`.
pub fn find_quotient_scale(n: u128, d: u128) -> (k: u128)
    requires
        0 < n < 0x1_0000_0000_0000_0000,
        0 < d < 0x1_0000_0000_0000_0000,
    ensures
        k == quotient_scale(n as nat, d as nat),
        k >= 1,
        n * k >= d * DIGITS,
        n * k < 2 * (d * DIGITS) || k == 1,
        k <= 2 * (d * DIGITS),
{
    assert(d * DIGITS <= 0xFFFF_FFFF_FFFF_FFFF * 0x10_0000_0000_0000) by (nonlinear_arith)
        requires
            d <= 0xFFFF_FFFF_FFFF_FFFF,
            DIGITS == 0x10_0000_0000_0000,
    ;
    let goal: u128 = d * DIGITS;
    let mut k: u128 = 1;
    let mut product: u128 = n;
    while product < goal
        invariant
            0 < n,
            0 < d,
            k >= 1,
            goal == d * DIGITS,
            0 < goal <= 0xFFFF_FFFF_FFFF_FFFF * 0x10_0000_0000_0000,
            product == n * k,
            product < 2 * goal || k == 1,
            k <= product,
            k <= 2 * goal,
            quotient_scale(n as nat, d as nat) == scale_from(n as nat, d as nat, k as nat),
        decreases 2 * goal - product,
    {
        proof {
            assert(n * (2 * k) == 2 * (n * k)) by (nonlinear_arith);
        }
        k = 2 * k;
        product = 2 * product;
    }
    k
}

/// The numerator of the double nearest to `n / d` has at most 54 digits.
proof fn numerator_is_small(n: nat, d: nat, k: nat)
    requires
        d > 0,
        n * k < 2 * (d * DIGITS),
    ensures
        nearest(n * k, d) <= 2 * DIGITS,
{
    nearest_is_near(n * k, d);
    let m = nearest(n * k, d);
    assert(m <= 0x20_0000_0000_0000) by (nonlinear_arith)
        requires
            2 * (m * d) <= 2 * (n * k) + d,
            n * k < 2 * (d * 0x10_0000_0000_0000),
            d > 0,
    ;
}

/// Scaling by `n / d`, which is below 1, takes what is at most `d` to at most `n`, and
/// `d` itself to `n`.
pub proof fn scaled_fits(x: nat, n: nat, d: nat)
    requires
        0 < n < d <= u32::MAX,
        x <= d,
    ensures
        scaled(x, n, d) <= n,
        x == d ==> scaled(x, n, d) == n,
{
    let k = quotient_scale(n, d);
    let m = nearest(n * k, d);
    scale_is_enough(n, d, 1);
    assert(k >= 0x10_0000_0000_0000) by (nonlinear_arith)
        requires
            n * k >= d * 0x10_0000_0000_0000,
            0 < n < d,
    ;
    numerator_is_small(n, d, k);
    nearest_is_near(n * k, d);
    let xm = x * m;
    let p = rounded(xm);
    assert(xm <= d * m && xm <= 0xFFFF_FFFF * 0x20_0000_0000_0000) by (nonlinear_arith)
        requires
            xm == x * m,
            x <= d <= 0xFFFF_FFFF,
            m <= 0x20_0000_0000_0000,
    ;
    assert(m * d == d * m) by (nonlinear_arith);
    rounded_is_near(xm);
    ulp_is_small(xm);
    assert(ulp(xm) <= 0x20_0000_0000);
    assert(2 * p < 2 * (n * k) + k);
    assert((2 * p + k) / (2 * k) <= n) by (nonlinear_arith)
        requires
            2 * p < 2 * (n * k) + k,
            k > 0,
    ;
    if x == d {
        assert(2 * p + k >= 2 * (n * k));
        assert((2 * p + k) / (2 * k) >= n) by (nonlinear_arith)
            requires
                2 * p + k >= 2 * (n * k),
                k > 0,
        ;
    }
}

/// Scaling by `n / d`, which is below 1, does not enlarge.
pub proof fn scaled_shrinks(x: nat, n: nat, d: nat)
    requires
        0 < n < d <= u32::MAX,
        x <= u32::MAX,
    ensures
        scaled(x, n, d) <= x,
{
    let k = quotient_scale(n, d);
    let m = nearest(n * k, d);
    scale_is_enough(n, d, 1);
    assert(k >= 0x10_0000_0000_0000) by (nonlinear_arith)
        requires
            n * k >= d * 0x10_0000_0000_0000,
            0 < n < d,
    ;
    numerator_is_small(n, d, k);
    nearest_is_near(n * k, d);
    assert(m <= k) by (nonlinear_arith)
        requires
            2 * (m * d) <= 2 * (n * k) + d,
            n + 1 <= d,
            k >= 1,
            d > 0,
    ;
    let xm = x * m;
    assert(xm <= x * k && xm <= 0xFFFF_FFFF * 0x20_0000_0000_0000) by (nonlinear_arith)
        requires
            xm == x * m,
            x <= 0xFFFF_FFFF,
            m <= k,
            m <= 0x20_0000_0000_0000,
    ;
    let p = rounded(xm);
    rounded_is_near(xm);
    ulp_is_small(xm);
    assert(ulp(xm) <= 0x20_0000_0000);
    assert(2 * p < 2 * (x * k) + k);
    assert((2 * p + k) / (2 * k) <= x) by (nonlinear_arith)
        requires
            2 * p < 2 * (x * k) + k,
            k > 0,
    ;
}

/// `x` times `n / d`, rounded to an integer.
pub fn scale_down(x: u32, n: u32, d: u32) -> (r: u32)
    requires
        0 < n < d,
    ensures
        r == scaled(x as nat, n as nat, d as nat),
        r <= x,
{
    let k: u128 = find_quotient_scale(n as u128, d as u128);
    proof {
        assert(k > 1) by (nonlinear_arith)
            requires
                n * k >= d * 0x10_0000_0000_0000,
                0 < n < d,
        ;
        scaled_shrinks(x as nat, n as nat, d as nat);
        numerator_is_small(n as nat, d as nat, k as nat);
        assert(2 * (d * DIGITS) <= 0x2000_0000_0000_0000_0000_0000) by (nonlinear_arith)
            requires
                d <= 0xFFFF_FFFF,
                DIGITS == 0x10_0000_0000_0000,
        ;
    }
    let m: u128 = divide_nearest(n as u128 * k, d as u128);
    proof {
        assert(x * m <= 0xFFFF_FFFF * 0x20_0000_0000_0000) by (nonlinear_arith)
            requires
                x <= 0xFFFF_FFFF,
                m <= 0x20_0000_0000_0000,
        ;
    }
    let p: u128 = round_to_double(x as u128 * m);
    ((2 * p + k) / (2 * k)) as u32
}

/// `x`, which is at most `d`, times `n / d`, rounded to an integer.
pub fn scale_side(x: u32, n: u32, d: u32) -> (r: u32)
    requires
        0 < n < d,
        x <= d,
    ensures
        r == scaled(x as nat, n as nat, d as nat),
        r <= n,
        x == d ==> r == n,
{
    proof {
        scaled_fits(x as nat, n as nat, d as nat);
    }
    scale_down(x, n, d)
}

/// A scaled integer is the nearest to the product, up to a share of two to the power of -18 of
/// a unit that is lost where doubles are rounded.
pub proof fn scaled_is_near(x: nat, n: nat, d: nat)
    requires
        0 < n < d <= u32::MAX,
        x <= u32::MAX,
    ensures
        0x4_0000 * (2 * (d * scaled(x, n, d)) - 2 * (x * n) - d) <= d,
        0x4_0000 * (2 * (x * n) - 2 * (d * scaled(x, n, d)) - d) <= d,
{
    let k = quotient_scale(n, d);
    let m = nearest(n * k, d);
    let r = scaled(x, n, d);
    scale_is_enough(n, d, 1);
    assert(k >= 0x10_0000_0000_0000) by (nonlinear_arith)
        requires
            n * k >= d * 0x10_0000_0000_0000,
            0 < n < d,
    ;
    numerator_is_small(n, d, k);
    nearest_is_near(n * k, d);
    let xm = x * m;
    let p = rounded(xm);
    assert(xm <= x * 0x20_0000_0000_0000) by (nonlinear_arith)
        requires
            xm == x * m,
            m <= 0x20_0000_0000_0000,
    ;
    rounded_is_near(xm);
    ulp_is_small(xm);
    let u = ulp(xm);
    assert(u <= 2 * x + 1) by (nonlinear_arith)
        requires
            u == 1 || u * 0x10_0000_0000_0000 <= xm,
            xm <= x * 0x20_0000_0000_0000,
    ;
    assert(2 * (k * r) <= 2 * p + k < 2 * (k * r) + 2 * k) by (nonlinear_arith)
        requires
            r == (2 * p + k) / (2 * k),
            k > 0,
    ;
    let xn = x * n;
    // The numerator times `x`, in units of the denominator.
    assert(2 * (xm * d) <= 2 * (xn * k) + x * d && 2 * (xn * k) <= 2 * (xm * d) + x * d)
        by (nonlinear_arith)
        requires
            xm == x * m,
            xn == x * n,
            2 * (n * k) - d <= 2 * (m * d) <= 2 * (n * k) + d,
            x >= 0,
    ;
    let dr = d * r;
    assert(2 * (k * dr) <= 2 * (xn * k) + d * (3 * x + 1) + d * k) by (nonlinear_arith)
        requires
            dr == d * r,
            2 * (k * r) <= 2 * p + k,
            2 * p <= 2 * xm + u,
            u <= 2 * x + 1,
            2 * (xm * d) <= 2 * (xn * k) + x * d,
            d > 0,
    ;
    assert(2 * (xn * k) <= 2 * (k * dr) + d * (3 * x + 1) + d * k) by (nonlinear_arith)
        requires
            dr == d * r,
            2 * p + k <= 2 * (k * r) + 2 * k,
            2 * xm - u <= 2 * p,
            u <= 2 * x + 1,
            2 * (xn * k) <= 2 * (xm * d) + x * d,
            d > 0,
    ;
    assert(d * (3 * x + 1) <= d * 0x4_0000_0000) by (nonlinear_arith)
        requires
            3 * x + 1 <= 0x4_0000_0000,
            d > 0,
    ;
    let over = 2 * dr - 2 * xn - d;
    let under = 2 * xn - 2 * dr - d;
    assert(k * over <= d * 0x4_0000_0000) by (nonlinear_arith)
        requires
            over == 2 * dr - 2 * xn - d,
            2 * (k * dr) <= 2 * (xn * k) + d * 0x4_0000_0000 + d * k,
    ;
    assert(k * under <= d * 0x4_0000_0000) by (nonlinear_arith)
        requires
            under == 2 * xn - 2 * dr - d,
            2 * (xn * k) <= 2 * (k * dr) + d * 0x4_0000_0000 + d * k,
    ;
    assert(0x4_0000 * over <= d) by (nonlinear_arith)
        requires
            k * over <= d * 0x4_0000_0000,
            k >= 0x10_0000_0000_0000,
            d > 0,
    ;
    assert(0x4_0000 * under <= d) by (nonlinear_arith)
        requires
            k * under <= d * 0x4_0000_0000,
            k >= 0x10_0000_0000_0000,
            d > 0,
    ;
}

/// A quotient whose dividend is at most two to the power of 52 loses its fraction and nothing
/// else.
pub proof fn scaled_floor_is_exact(y: nat, h: nat, t: nat)
    requires
        t > 0,
        y * h <= DIGITS,
    ensures
        scaled_floor(y, h, t) == (y * h) / t,
{
    let a = y * h;
    rounded_is_near(a);
    ulp_is_small(a);
    assert(rounded(a) == a);
    let q = a / t;
    if a == 0 {
        assert(q == 0) by (nonlinear_arith)
            requires
                q == 0nat / t,
                t > 0,
        ;
    } else {
        let k = quotient_scale(a, t);
        let m = nearest(a * k, t);
        scale_is_enough(a, t, 1);
        nearest_is_near(a * k, t);
        assert(k >= t) by (nonlinear_arith)
            requires
                a * k >= t * 0x10_0000_0000_0000,
                0 < a <= 0x10_0000_0000_0000,
        ;
        assert(q * t <= a < (q + 1) * t) by (nonlinear_arith)
            requires
                q == a / t,
                t > 0,
        ;
        assert((q * k) * t <= a * k && a * k + k <= ((q + 1) * k) * t) by (nonlinear_arith)
            requires
                q * t <= a,
                a + 1 <= (q + 1) * t,
                k >= 0,
        ;
        assert(q * k <= m) by (nonlinear_arith)
            requires
                2 * (a * k) - t <= 2 * (m * t),
                (q * k) * t <= a * k,
                t > 0,
        ;
        assert(m < (q + 1) * k) by (nonlinear_arith)
            requires
                2 * (m * t) <= 2 * (a * k) + t,
                a * k + k <= ((q + 1) * k) * t,
                k >= t > 0,
        ;
        assert((q + 1) * k == q * k + k) by (nonlinear_arith);
        assert(m / k == q) by {
            vstd::arithmetic::div_mod::lemma_fundamental_div_mod_converse(
                m as int,
                k as int,
                q as int,
                m - q * k,
            );
        }
    }
}

/// `y * h / t` without its fraction.
pub fn scale_floor(y: u32, h: u32, t: u32) -> (r: u128)
    requires
        y <= t,
        t > 0,
    ensures
        r == scaled_floor(y as nat, h as nat, t as nat),
{
    proof {
        assert(y * h <= 0xFFFF_FFFF * 0xFFFF_FFFF) by (nonlinear_arith)
            requires
                y <= 0xFFFF_FFFF,
                h <= 0xFFFF_FFFF,
        ;
        rounded_is_near((y * h) as nat);
        ulp_is_small((y * h) as nat);
        assert(ulp((y * h) as nat) <= 0x1000);
    }
    let a: u128 = round_to_double(y as u128 * h as u128);
    if a == 0 {
        return 0;
    }
    let k: u128 = find_quotient_scale(a, t as u128);
    proof {
        assert(2 * (t * DIGITS) <= 0x2000_0000_0000_0000_0000_0000) by (nonlinear_arith)
            requires
                t <= 0xFFFF_FFFF,
                DIGITS == 0x10_0000_0000_0000,
        ;
        assert(k == 1 ==> a * k == a) by (nonlinear_arith);
    }
    divide_nearest(a * k, t as u128) / k
}

} // verus!
