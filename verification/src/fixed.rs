//! Fixed-point numbers: a quantity `q` is held as the integer `q * ONE`.
//!
//! Lengths are in pixels, angles in degrees; both are held in millionths.

use vstd::prelude::*;

verus! {

/// One whole unit (a pixel, a degree, a ratio of one).
pub const ONE: i64 = 1_000_000;

pub open spec fn abs(v: int) -> int {
    if v < 0 {
        -v
    } else {
        v
    }
}

pub open spec fn min(a: int, b: int) -> int {
    if a < b {
        a
    } else {
        b
    }
}

pub open spec fn max(a: int, b: int) -> int {
    if a < b {
        b
    } else {
        a
    }
}

/// `a / b` without its fractional part.
pub open spec fn quotient_to_zero(a: int, b: int) -> int
    recommends
        b > 0,
{
    if a < 0 {
        -((-a) / b)
    } else {
        a / b
    }
}

/// The nearest integer to `a / b`; halves go away from zero.
pub open spec fn quotient_to_nearest(a: int, b: int) -> int
    recommends
        b > 0,
{
    if a < 0 {
        -((2 * (-a) + b) / (2 * b))
    } else {
        (2 * a + b) / (2 * b)
    }
}

/// The whole part of the fixed-point number `v`.
pub open spec fn whole(v: int) -> int {
    quotient_to_zero(v, ONE as int)
}

/// The whole number nearest to the fixed-point number `v`.
pub open spec fn rounded(v: int) -> int {
    quotient_to_nearest(v, ONE as int)
}

pub fn abs_exec(v: i128) -> (r: i128)
    requires
        v > i128::MIN,
    ensures
        r == abs(v as int),
{
    if v < 0 {
        -v
    } else {
        v
    }
}

pub fn min_exec(a: i64, b: i64) -> (r: i64)
    ensures
        r == min(a as int, b as int),
{
    if a < b {
        a
    } else {
        b
    }
}

pub fn max_exec(a: i64, b: i64) -> (r: i64)
    ensures
        r == max(a as int, b as int),
{
    if a < b {
        b
    } else {
        a
    }
}

/// `a / b` rounded down.
pub fn floor_div(a: i128, b: i128) -> (r: i128)
    requires
        b > 0,
        a > i128::MIN,
    ensures
        r == a as int / b as int,
{
    if a >= 0 {
        a / b
    } else {
        let q: i128 = (-a) / b;
        let m: i128 = (-a) % b;
        proof {
            let n = -(a as int);
            let d = b as int;
            assert(n == d * (n / d) + n % d) by {
                vstd::arithmetic::div_mod::lemma_fundamental_div_mod(n, d);
            }
            assert(0 <= q <= n) by {
                vstd::arithmetic::div_mod::lemma_div_is_ordered_by_denominator(n, 1, d);
                vstd::arithmetic::div_mod::lemma_div_pos_is_pos(n, d);
            }
            if m == 0 {
                assert(a == d * (-q)) by (nonlinear_arith)
                    requires
                        -a == d * q,
                ;
                vstd::arithmetic::div_mod::lemma_fundamental_div_mod_converse(a as int, d, -(q as int), 0);
            } else {
                assert(a == d * (-q - 1) + (d - m)) by (nonlinear_arith)
                    requires
                        -a == d * q + m,
                ;
                vstd::arithmetic::div_mod::lemma_fundamental_div_mod_converse(a as int, d, -(q as int) - 1, d - m);
                assert(q < n) by (nonlinear_arith)
                    requires
                        n == d * q + m,
                        m > 0,
                        d >= 1,
                        q >= 0,
                ;
            }
        }
        if m == 0 {
            -q
        } else {
            -q - 1
        }
    }
}

/// The whole part of `a / b`.
pub fn div_to_zero(a: i128, b: i128) -> (r: i128)
    requires
        b > 0,
        a > i128::MIN,
    ensures
        r == quotient_to_zero(a as int, b as int),
        abs(r as int) <= abs(a as int),
{
    proof {
        vstd::arithmetic::div_mod::lemma_div_is_ordered_by_denominator(abs(a as int), 1, b as int);
        vstd::arithmetic::div_mod::lemma_div_pos_is_pos(abs(a as int), b as int);
    }
    if a < 0 {
        -((-a) / b)
    } else {
        a / b
    }
}

/// The whole part of a fixed-point number.
pub fn whole_part(v: i64) -> (r: i64)
    ensures
        r == whole(v as int),
{
    div_to_zero(v as i128, ONE as i128) as i64
}

/// The nearest whole number to a fixed-point number, halves away from zero.
pub fn round_to_whole(v: i64) -> (r: i64)
    ensures
        r == rounded(v as int),
{
    let one: i128 = ONE as i128;
    let n: i128 = v as i128;
    if n < 0 {
        (-((2 * (-n) + one) / (2 * one))) as i64
    } else {
        ((2 * n + one) / (2 * one)) as i64
    }
}

/// `r` is the integer square root of `n`.
pub open spec fn is_root(r: int, n: int) -> bool {
    &&& 0 <= r
    &&& r * r <= n
    &&& n < (r + 1) * (r + 1)
}

/// The integer square root of `n`.
pub open spec fn root(n: int) -> int {
    choose|r: int| is_root(r, n)
}

/// Only one number is the integer square root of another.
pub proof fn root_is_unique(a: int, b: int, n: int)
    requires
        is_root(a, n),
        is_root(b, n),
    ensures
        a == b,
{
    if a < b {
        assert((a + 1) * (a + 1) <= b * b) by (nonlinear_arith)
            requires
                0 <= a + 1 <= b,
        ;
    }
    if b < a {
        assert((b + 1) * (b + 1) <= a * a) by (nonlinear_arith)
            requires
                0 <= b + 1 <= a,
        ;
    }
}

/// Every number that is not negative has an integer square root.
pub proof fn roots_exist(n: int)
    requires
        n >= 0,
    ensures
        is_root(root(n), n),
    decreases n,
{
    if n == 0 {
        assert(is_root(0, 0));
    } else {
        roots_exist(n - 1);
        let r = root(n - 1);
        if (r + 1) * (r + 1) <= n {
            assert((r + 1) * (r + 1) < (r + 2) * (r + 2)) by (nonlinear_arith)
                requires
                    r >= 0,
            ;
            assert(is_root(r + 1, n));
        } else {
            assert(is_root(r, n));
        }
    }
}

/// The fixed-point number `v` as far as it fits.
pub open spec fn clamped(v: int) -> int {
    if v > i64::MAX {
        i64::MAX as int
    } else if v < i64::MIN {
        i64::MIN as int
    } else {
        v
    }
}

/// A number as far as it fits a fixed-point number.
pub fn clamp_to_fixed(v: i128) -> (r: i64)
    ensures
        r == clamped(v as int),
{
    if v > 0x7fff_ffff_ffff_ffff {
        0x7fff_ffff_ffff_ffff
    } else if v < -0x8000_0000_0000_0000 {
        -0x8000_0000_0000_0000
    } else {
        v as i64
    }
}

/// The pixel that holds the coordinate `v`: its whole part, as far as it fits.
pub open spec fn pixel(v: int) -> int {
    if whole(v) > i32::MAX {
        i32::MAX as int
    } else if whole(v) < i32::MIN {
        i32::MIN as int
    } else {
        whole(v)
    }
}

/// The pixel that holds a coordinate.
pub fn to_pixel(v: i64) -> (r: i32)
    ensures
        r == pixel(v as int),
{
    let w: i64 = whole_part(v);
    if w > 2_147_483_647 {
        2_147_483_647
    } else if w < -2_147_483_648 {
        -2_147_483_648
    } else {
        w as i32
    }
}

/// The pixel that lies nearest to the coordinate `v`, as far as it fits.
pub open spec fn nearest_pixel(v: int) -> int {
    pixel(rounded(v) * ONE)
}

/// The pixel that lies nearest to a coordinate.
pub fn to_nearest_pixel(v: i64) -> (r: i32)
    ensures
        r == nearest_pixel(v as int),
{
    let n: i64 = round_to_whole(v);
    assert(whole(n * ONE) == n) by {
        vstd::arithmetic::div_mod::lemma_div_multiples_vanish(abs(n as int), ONE as int);
    }
    if n > 2_147_483_647 {
        2_147_483_647
    } else if n < -2_147_483_648 {
        -2_147_483_648
    } else {
        n as i32
    }
}

/// A length in pixels as a signed number of the same size.
pub open spec fn as_signed(length: int) -> int {
    if length > 0x7fff_ffff {
        length - 0x1_0000_0000
    } else {
        length
    }
}

/// A length in pixels as a signed number of the same size.
pub fn to_signed(length: u32) -> (r: i32)
    ensures
        r == as_signed(length as int),
{
    if length > 0x7fff_ffff {
        (length as i64 - 0x1_0000_0000) as i32
    } else {
        length as i32
    }
}


/// The whole part of a number lies between it and zero, less than one away from it.
pub proof fn whole_parts_lie_towards_zero(v: int)
    ensures
        v >= 0 ==> 0 <= whole(v) * 1_000_000 <= v < whole(v) * 1_000_000 + 1_000_000,
        v <= 0 ==> whole(v) * 1_000_000 - 1_000_000 < v <= whole(v) * 1_000_000 <= 0,
        whole(-v) == -whole(v),
{
}

/// The whole number nearest to a number is at most a half away, and halves are rounded away from
/// zero.
pub proof fn whole_numbers_are_nearest(v: int)
    ensures
        2 * abs(rounded(v) * 1_000_000 - v) <= 1_000_000,
        v >= 0 ==> rounded(v) * 1_000_000 - v > -500_000,
        v <= 0 ==> rounded(v) * 1_000_000 - v < 500_000,
        rounded(-v) == -rounded(v),
{
    assert(rounded(v) == if v < 0 {
        -((2 * (-v) + 1_000_000) / 2_000_000)
    } else {
        (2 * v + 1_000_000) / 2_000_000
    });
}

/// Quotients are cut off towards zero, less than one away from the fraction.
pub proof fn quotients_are_cut_off(a: int, b: int)
    requires
        b > 0,
    ensures
        a >= 0 ==> 0 <= quotient_to_zero(a, b) * b <= a < (quotient_to_zero(a, b) + 1) * b,
        quotient_to_zero(-a, b) == -quotient_to_zero(a, b),
{
    if a >= 0 {
        let q = a / b;
        assert(0 <= q * b <= a < (q + 1) * b) by (nonlinear_arith)
            requires
                a >= 0,
                b > 0,
                q == a / b,
        ;
    } else {
        assert(0int / b == 0) by (nonlinear_arith)
            requires
                b > 0,
        ;
    }
    assert(0int / b == 0) by (nonlinear_arith)
        requires
            b > 0,
    ;
}

/// Quotients are rounded to a whole number that is at most a half away from the fraction, and halves
/// away from zero.
pub proof fn quotients_are_nearest(a: int, b: int)
    requires
        b > 0,
    ensures
        a >= 0 ==> (2 * quotient_to_nearest(a, b) - 1) * b <= 2 * a < (2 * quotient_to_nearest(a, b)
            + 1) * b,
        a > 0 ==> quotient_to_nearest(-a, b) == -quotient_to_nearest(a, b),
{
    if a >= 0 {
        let n = 2 * a + b;
        let q = n / (2 * b);
        assert((2 * q - 1) * b <= 2 * a < (2 * q + 1) * b) by (nonlinear_arith)
            requires
                a >= 0,
                b > 0,
                n == 2 * a + b,
                q == n / (2 * b),
        ;
    }
}

/// A coordinate lies on the pixel of its whole part, or on the outermost one where there is none so
/// far out.
pub proof fn coordinates_lie_on_pixels(v: int)
    ensures
        i32::MIN <= pixel(v) <= i32::MAX,
        0 <= v < 2_147_483_648_000_000 ==> pixel(v) * 1_000_000 <= v < pixel(v) * 1_000_000 + 1_000_000,
        -2_147_483_648_000_000 <= v <= 0 ==> pixel(v) * 1_000_000 - 1_000_000 < v <= pixel(v)
            * 1_000_000,
        v >= 2_147_483_648_000_000 ==> pixel(v) == 2_147_483_647,
        v < -2_147_483_648_000_000 ==> pixel(v) == -2_147_483_648,
{
}

/// A number that is out of range is held as the nearest that is not.
pub proof fn held_numbers_are_nearest(v: int, w: int)
    requires
        i64::MIN <= w <= i64::MAX,
    ensures
        i64::MIN <= clamped(v) <= i64::MAX,
        abs(clamped(v) - v) <= abs(w - v),
{
}

/// Roots are exact down to the whole number.
pub proof fn roots_are_exact_to_the_whole_number(n: int)
    requires
        n >= 0,
    ensures
        0 <= root(n),
        root(n) * root(n) <= n < (root(n) + 1) * (root(n) + 1),
{
    roots_exist(n);
}

/// As a signed number a length keeps its value where it fits, and otherwise loses a full round.
pub proof fn signed_lengths_differ_by_a_round(length: int)
    requires
        0 <= length <= u32::MAX,
    ensures
        i32::MIN <= as_signed(length) <= i32::MAX,
        as_signed(length) == length || as_signed(length) == length - 4_294_967_296,
{
}

} // verus!
