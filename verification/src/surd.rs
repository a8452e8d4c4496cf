//! Comparing sums with square roots in them, without rounding.

use vstd::prelude::*;

use crate::fixed::{root, roots_exist};
use crate::wide::Integer;

verus! {

/// The square root of `x` is larger than those of `y` and `z` together.
pub open spec fn exceeds_sum(x: int, y: int, z: int) -> bool {
    let t = x - y - z;
    t > 0 && t * t > 4 * (y * z)
}

/// The square root of `x` is at least those of `y` and `z` together.
pub open spec fn reaches_sum(x: int, y: int, z: int) -> bool {
    let t = x - y - z;
    t >= 0 && t * t >= 4 * (y * z)
}

/// The square root of `a`, and `p`, are together at most the square root of `b` and `q`.
pub open spec fn is_at_most(a: int, p: int, b: int, q: int) -> bool {
    let k = q - p;
    if k >= 0 {
        !exceeds_sum(a, b, k * k)
    } else {
        reaches_sum(b, a, k * k)
    }
}

/// The square root of `a`, and `p`, are together at most the fraction `n / d`.
pub open spec fn is_bounded_by(a: int, p: int, n: int, d: int) -> bool {
    let u = n - p * d;
    u >= 0 && a * d * d <= u * u
}

/// Of squares the roots are compared as they are.
pub proof fn squares_compare_by_their_roots(x: int, y: int, z: int)
    requires
        x >= 0,
        y >= 0,
        z >= 0,
    ensures
        exceeds_sum(x * x, y * y, z * z) <==> x > y + z,
        reaches_sum(x * x, y * y, z * z) <==> x >= y + z,
{
    let t = x * x - y * y - z * z;
    let m = 2 * (y * z);
    assert(m >= 0 && 4 * ((y * y) * (z * z)) == m * m) by (nonlinear_arith)
        requires
            m == 2 * (y * z),
            y >= 0,
            z >= 0,
    ;
    let s = y + z;
    assert(x * x - s * s == t - m) by (nonlinear_arith)
        requires
            t == x * x - y * y - z * z,
            m == 2 * (y * z),
            s == y + z,
    ;
    assert(x > s <==> x * x > s * s) by (nonlinear_arith)
        requires
            x >= 0,
            s >= 0,
    ;
    assert(x >= s <==> x * x >= s * s) by (nonlinear_arith)
        requires
            x >= 0,
            s >= 0,
    ;
    assert(t > m <==> (t > 0 && t * t > m * m)) by (nonlinear_arith)
        requires
            m >= 0,
    ;
    assert(t >= m <==> (t >= 0 && t * t >= m * m)) by (nonlinear_arith)
        requires
            m >= 0,
    ;
}

/// A fraction `t / d` that is at least the square root of `b` is at least that of `a` when `k` is
/// added.
proof fn bounds_carry_over(a: int, b: int, k: int, t: int, d: int)
    requires
        a >= 0,
        b >= 0,
        t >= 0,
        d > 0,
        b * (d * d) <= t * t,
        is_at_most(a, 0, b, k),
    ensures
        t + k * d >= 0,
        a * (d * d) <= (t + k * d) * (t + k * d),
{
    let e = d * d;
    let kk = k * k;
    assert(e > 0) by (nonlinear_arith)
        requires
            e == d * d,
            d > 0,
    ;
    let u = t + k * d;
    assert(u * u == t * t + 2 * (t * (k * d)) + kk * e) by (nonlinear_arith)
        requires
            u == t + k * d,
            kk == k * k,
            e == d * d,
    ;
    if k >= 0 {
        let s = a - b - kk;
        assert(t * (k * d) >= 0) by (nonlinear_arith)
            requires
                t >= 0,
                k >= 0,
                d > 0,
        ;
        assert(a * e == s * e + b * e + kk * e) by (nonlinear_arith)
            requires
                s == a - b - kk,
        ;
        if s > 0 {
            let y = 2 * (t * k);
            assert(y >= 0 && y * y == 4 * (kk * (t * t))) by (nonlinear_arith)
                requires
                    y == 2 * (t * k),
                    kk == k * k,
                    t >= 0,
                    k >= 0,
            ;
            assert(s * s <= 4 * (b * kk));
            assert((s * d) * (s * d) == (s * s) * e) by (nonlinear_arith)
                requires
                    e == d * d,
            ;
            assert((s * s) * e <= 4 * (b * kk) * e) by (nonlinear_arith)
                requires
                    s * s <= 4 * (b * kk),
                    e > 0,
            ;
            assert(4 * (b * kk) * e == 4 * (kk * (b * e))) by (nonlinear_arith);
            assert(kk * (b * e) <= kk * (t * t)) by (nonlinear_arith)
                requires
                    b * e <= t * t,
                    kk >= 0,
            ;
            let z = s * d;
            assert(z <= y) by (nonlinear_arith)
                requires
                    z * z <= y * y,
                    y >= 0,
            ;
            assert(z * d <= y * d) by (nonlinear_arith)
                requires
                    z <= y,
                    d > 0,
            ;
            assert(s * e == z * d) by (nonlinear_arith)
                requires
                    z == s * d,
                    e == d * d,
            ;
            assert(y * d == 2 * (t * (k * d))) by (nonlinear_arith)
                requires
                    y == 2 * (t * k),
            ;
        } else {
            assert(s * e <= 0) by (nonlinear_arith)
                requires
                    s <= 0,
                    e > 0,
            ;
        }
        assert(u >= 0) by (nonlinear_arith)
            requires
                u == t + k * d,
                t >= 0,
                k >= 0,
                d > 0,
        ;
    } else {
        let m = -k;
        let s = b - a - kk;
        assert(kk == m * m) by (nonlinear_arith)
            requires
                kk == k * k,
                m == -k,
        ;
        assert(b >= kk);
        assert(kk * e <= b * e) by (nonlinear_arith)
            requires
                kk <= b,
                e > 0,
        ;
        let w = m * d;
        assert(w * w == kk * e) by (nonlinear_arith)
            requires
                w == m * d,
                kk == m * m,
                e == d * d,
        ;
        assert(t >= w) by (nonlinear_arith)
            requires
                w * w <= t * t,
                t >= 0,
        ;
        assert(k * d == -w) by (nonlinear_arith)
            requires
                w == m * d,
                m == -k,
        ;
        if u * u < a * e {
            // 2 * m * u < s * d
            let y = 2 * (m * u);
            assert(y * y == 4 * (kk * (u * u))) by (nonlinear_arith)
                requires
                    y == 2 * (m * u),
                    kk == m * m,
            ;
            assert(kk * (u * u) <= kk * (a * e)) by (nonlinear_arith)
                requires
                    u * u <= a * e,
                    kk >= 0,
            ;
            assert(s * s >= 4 * (a * kk));
            assert((s * s) * e >= 4 * (a * kk) * e) by (nonlinear_arith)
                requires
                    s * s >= 4 * (a * kk),
                    e > 0,
            ;
            assert(4 * (a * kk) * e == 4 * (kk * (a * e))) by (nonlinear_arith);
            let z = s * d;
            assert(z >= 0 && z * z == (s * s) * e) by (nonlinear_arith)
                requires
                    z == s * d,
                    e == d * d,
                    s >= 0,
                    d > 0,
            ;
            assert(y <= z) by (nonlinear_arith)
                requires
                    y * y <= z * z,
                    z >= 0,
            ;
            assert(y * d <= z * d) by (nonlinear_arith)
                requires
                    y <= z,
                    d > 0,
            ;
            assert(z * d == s * e) by (nonlinear_arith)
                requires
                    z == s * d,
                    e == d * d,
            ;
            assert(y * d == 2 * (u * w)) by (nonlinear_arith)
                requires
                    y == 2 * (m * u),
                    w == m * d,
            ;
            assert(t * t == u * u + 2 * (u * w) + w * w) by (nonlinear_arith)
                requires
                    t == u + w,
            ;
            assert(b * e == s * e + a * e + kk * e) by (nonlinear_arith)
                requires
                    s == b - a - kk,
            ;
            assert(false);
        }
    }
}

/// The least number whose square is at least `b * n * n`.
proof fn nearest_above(b: int, n: int) -> (t: int)
    requires
        b >= 0,
        n > 0,
    ensures
        t >= 0,
        b * (n * n) <= t * t <= b * (n * n) + 2 * t,
        t <= n * (b + 1),
{
    let e = n * n;
    let g = b * e;
    assert(g >= 0) by (nonlinear_arith)
        requires
            g == b * e,
            e == n * n,
            b >= 0,
    ;
    roots_exist(g);
    let r = root(g);
    let top = n * (b + 1);
    assert(r < top) by (nonlinear_arith)
        requires
            r * r <= g,
            g == b * (n * n),
            top == n * (b + 1),
            b >= 0,
            n > 0,
            r >= 0,
    {
        if r >= top {
            assert(r * r >= top * top) by (nonlinear_arith)
                requires
                    r >= top,
                    top >= 0,
            ;
            assert(top * top == (n * n) * ((b + 1) * (b + 1))) by (nonlinear_arith)
                requires
                    top == n * (b + 1),
            ;
            assert((n * n) * ((b + 1) * (b + 1)) > (n * n) * b) by (nonlinear_arith)
                requires
                    n > 0,
                    b >= 0,
            ;
        }
    }
    if r * r == g {
        r
    } else {
        assert((r + 1) * (r + 1) == r * r + 2 * r + 1) by (nonlinear_arith);
        r + 1
    }
}

/// Between two sums of which the first is larger lies a fraction.
proof fn a_fraction_lies_between(a: int, b: int, k: int) -> (r: (int, int))
    requires
        a >= 0,
        b >= 0,
        !is_at_most(a, 0, b, k),
    ensures
        r.1 > 0,
        r.0 >= 0,
        b * (r.1 * r.1) <= r.0 * r.0,
        r.0 + k * r.1 < 0 || (r.0 + k * r.1) * (r.0 + k * r.1) < a * (r.1 * r.1),
{
    let kk = k * k;
    if k >= 0 {
        let l = k + 1;
        let c = 8 * (k * b) + 4 * b + 8 * ((b + 1) * (l * l));
        let n = c + 1;
        assert(c >= 0 && k * b >= 0 && (b + 1) * (l * l) >= 0) by (nonlinear_arith)
            requires
                c == 8 * (k * b) + 4 * b + 8 * ((b + 1) * (l * l)),
                k >= 0,
                b >= 0,
        ;
        let t = nearest_above(b, n);
        let e = n * n;
        let g = k * n + 1;
        let s = a - b - kk;
        assert(e > 0 && g > 0) by (nonlinear_arith)
            requires
                e == n * n,
                n > 0,
                g == k * n + 1,
                k >= 0,
        ;
        let x = 2 * (t * g);
        let y = s * e;
        if x >= y {
            assert(y >= 0) by (nonlinear_arith)
                requires
                    y == s * e,
                    s > 0,
                    e > 0,
            ;
            assert(x * x >= y * y) by (nonlinear_arith)
                requires
                    x >= y,
                    y >= 0,
            ;
            let gg = g * g;
            let tt = t * t;
            assert(x * x == 4 * (tt * gg)) by (nonlinear_arith)
                requires
                    x == 2 * (t * g),
                    tt == t * t,
                    gg == g * g,
            ;
            let ee = e * e;
            assert(y * y == (s * s) * ee) by (nonlinear_arith)
                requires
                    y == s * e,
                    ee == e * e,
            ;
            let f = 4 * (b * kk);
            assert(s * s >= f + 1);
            assert((s * s) * ee >= (f + 1) * ee) by (nonlinear_arith)
                requires
                    s * s >= f + 1,
                    ee >= 0,
                    ee == e * e,
            ;
            assert((f + 1) * ee == f * ee + ee) by (nonlinear_arith);
            assert(tt * gg <= (b * e + 2 * t) * gg) by (nonlinear_arith)
                requires
                    tt <= b * e + 2 * t,
                    gg >= 0,
                    gg == g * g,
            ;
            assert((b * e + 2 * t) * gg == b * e * gg + 2 * (t * gg)) by (nonlinear_arith);
            assert(gg == kk * e + 2 * (k * n) + 1) by (nonlinear_arith)
                requires
                    gg == g * g,
                    g == k * n + 1,
                    kk == k * k,
                    e == n * n,
            ;
            let be = b * e;
            let h = kk * e;
            assert(be * (h + 2 * (k * n) + 1) == be * h + 2 * (be * (k * n)) + be)
                by (nonlinear_arith);
            assert(4 * (be * h) == f * ee) by (nonlinear_arith)
                requires
                    be == b * e,
                    h == kk * e,
                    f == 4 * (b * kk),
                    ee == e * e,
            ;
            assert(b * e * gg == be * gg);
            let ne = n * e;
            assert(be * (k * n) == (k * b) * ne) by (nonlinear_arith)
                requires
                    be == b * e,
                    ne == n * e,
            ;
            assert(be <= b * ne) by (nonlinear_arith)
                requires
                    be == b * e,
                    ne == n * e,
                    n >= 1,
                    e > 0,
                    b >= 0,
            ;
            let ll = l * l;
            assert(gg <= ll * e) by (nonlinear_arith)
                requires
                    gg == g * g,
                    ll == l * l,
                    e == n * n,
                    g == k * n + 1,
                    l == k + 1,
                    n >= 1,
                    k >= 0,
            {
                assert(g <= l * n) by (nonlinear_arith)
                    requires
                        g == k * n + 1,
                        l == k + 1,
                        n >= 1,
                ;
                assert(g * g <= (l * n) * (l * n)) by (nonlinear_arith)
                    requires
                        0 <= g <= l * n,
                ;
                assert((l * n) * (l * n) == (l * l) * (n * n)) by (nonlinear_arith);
            }
            assert(t * gg <= (n * (b + 1)) * (ll * e)) by (nonlinear_arith)
                requires
                    0 <= t <= n * (b + 1),
                    0 <= gg <= ll * e,
            ;
            assert((n * (b + 1)) * (ll * e) == ((b + 1) * ll) * ne) by (nonlinear_arith)
                requires
                    ne == n * e,
            ;
            assert(ee <= c * ne) by (nonlinear_arith)
                requires
                    ee <= 8 * ((k * b) * ne) + 4 * (b * ne) + 8 * (((b + 1) * ll) * ne),
                    c == 8 * (k * b) + 4 * b + 8 * ((b + 1) * ll),
            ;
            assert(ee == n * ne && ne > 0) by (nonlinear_arith)
                requires
                    ee == e * e,
                    ne == n * e,
                    e == n * n,
                    n > 0,
            ;
            assert(n * ne == c * ne + ne) by (nonlinear_arith)
                requires
                    n == c + 1,
            ;
            assert(false);
        }
        let u = t + k * n;
        assert(u * u == t * t + 2 * (t * (k * n)) + kk * e) by (nonlinear_arith)
            requires
                u == t + k * n,
                kk == k * k,
                e == n * n,
        ;
        assert(2 * (t * g) == 2 * (t * (k * n)) + 2 * t) by (nonlinear_arith)
            requires
                g == k * n + 1,
        ;
        assert(a * e == s * e + b * e + kk * e) by (nonlinear_arith)
            requires
                s == a - b - kk,
        ;
        (t, n)
    } else {
        let m = -k;
        assert(kk == m * m) by (nonlinear_arith)
            requires
                kk == k * k,
                m == -k,
        ;
        let l = b + 1;
        let c = 4 * (b * l) + 4 * (l * l);
        let n = c + 1;
        assert(c >= 0 && n > 2 * l) by (nonlinear_arith)
            requires
                c == 4 * (b * l) + 4 * (l * l),
                n == c + 1,
                b >= 0,
                l == b + 1,
        ;
        let t = nearest_above(b, n);
        let e = n * n;
        let u = t + k * n;
        let s = b - a - kk;
        assert(e > 0) by (nonlinear_arith)
            requires
                e == n * n,
                n > 0,
        ;
        if u >= 0 && u * u >= a * e {
            let w = m * n;
            assert(u == t - w) by (nonlinear_arith)
                requires
                    u == t + k * n,
                    w == m * n,
                    m == -k,
            ;
            assert(w * w == kk * e) by (nonlinear_arith)
                requires
                    w == m * n,
                    kk == m * m,
                    e == n * n,
            ;
            let v = 2 * (u * w);
            assert(t * t == u * u + v + w * w) by (nonlinear_arith)
                requires
                    t == u + w,
                    v == 2 * (u * w),
            ;
            assert(b * e == s * e + a * e + kk * e) by (nonlinear_arith)
                requires
                    s == b - a - kk,
            ;
            assert(v <= s * e + 2 * t);
            assert(v >= 0) by (nonlinear_arith)
                requires
                    v == 2 * (u * w),
                    u >= 0,
                    w == m * n,
                    m > 0,
                    n > 0,
            ;
            assert(e == n * n);
            if s < 0 {
                assert(s * e <= -e) by (nonlinear_arith)
                    requires
                        s <= -1,
                        e > 0,
                ;
                assert(n * n > 2 * (n * l)) by (nonlinear_arith)
                    requires
                        n > 2 * l,
                        n > 0,
                ;
                assert(false);
            }
            let z = s * e + 2 * t;
            let ee = e * e;
            assert(v * v <= z * z) by (nonlinear_arith)
                requires
                    0 <= v <= z,
            ;
            let uu = u * u;
            assert(v * v == 4 * (uu * (kk * e))) by (nonlinear_arith)
                requires
                    v == 2 * (u * w),
                    uu == u * u,
                    w * w == kk * e,
            ;
            assert(uu * (kk * e) >= (a * e) * (kk * e)) by (nonlinear_arith)
                requires
                    uu >= a * e,
                    kk >= 0,
                    e > 0,
            ;
            let f = 4 * (a * kk);
            assert(4 * ((a * e) * (kk * e)) == f * ee) by (nonlinear_arith)
                requires
                    f == 4 * (a * kk),
                    ee == e * e,
            ;
            assert(f >= s * s + 1);
            assert(f * ee >= (s * s) * ee + ee) by (nonlinear_arith)
                requires
                    f >= s * s + 1,
                    ee >= 0,
                    ee == e * e,
            ;
            let et = e * t;
            let tt = t * t;
            assert(z * z == (s * s) * ee + 4 * (s * et) + 4 * tt) by (nonlinear_arith)
                requires
                    z == s * e + 2 * t,
                    ee == e * e,
                    et == e * t,
                    tt == t * t,
            ;
            assert(et <= e * (n * l)) by (nonlinear_arith)
                requires
                    et == e * t,
                    t <= n * l,
                    e > 0,
            ;
            let enl = e * (n * l);
            assert(s * et <= b * enl) by (nonlinear_arith)
                requires
                    0 <= s <= b,
                    0 <= et <= enl,
            ;
            let nl = n * l;
            assert(tt <= nl * nl) by (nonlinear_arith)
                requires
                    tt == t * t,
                    0 <= t <= nl,
            ;
            assert(nl * nl == e * (l * l)) by (nonlinear_arith)
                requires
                    nl == n * l,
                    e == n * n,
            ;
            assert(e * (l * l) <= (e * n) * (l * l)) by (nonlinear_arith)
                requires
                    n >= 1,
                    e > 0,
            ;
            let en = e * n;
            assert(b * enl == (b * l) * en) by (nonlinear_arith)
                requires
                    enl == e * (n * l),
                    en == e * n,
            ;
            assert(ee <= c * en) by (nonlinear_arith)
                requires
                    ee <= 4 * ((b * l) * en) + 4 * (en * (l * l)),
                    c == 4 * (b * l) + 4 * (l * l),
            ;
            assert(ee == n * en && en > 0) by (nonlinear_arith)
                requires
                    ee == e * e,
                    en == e * n,
                    e == n * n,
                    n > 0,
            ;
            assert(n * en == c * en + en) by (nonlinear_arith)
                requires
                    n == c + 1,
            ;
            assert(false);
        }
        (t, n)
    }
}

/// One sum is at most another exactly when every fraction that bounds the other bounds it.
pub proof fn sums_compare_by_the_fractions_above_them(a: int, p: int, b: int, q: int)
    requires
        a >= 0,
        b >= 0,
    ensures
        is_at_most(a, p, b, q) <==> (forall|n: int, d: int|
            d > 0 && #[trigger] is_bounded_by(b, q, n, d) ==> is_bounded_by(a, p, n, d)),
{
    let k = q - p;
    assert(is_at_most(a, p, b, q) == is_at_most(a, 0, b, k));
    if is_at_most(a, p, b, q) {
        assert forall|n: int, d: int| d > 0 && #[trigger] is_bounded_by(b, q, n, d) implies is_bounded_by(
            a,
            p,
            n,
            d,
        ) by {
            let t = n - q * d;
            assert(b * d * d == b * (d * d) && a * d * d == a * (d * d)) by (nonlinear_arith);
            bounds_carry_over(a, b, k, t, d);
            assert(n - p * d == t + k * d) by (nonlinear_arith)
                requires
                    t == n - q * d,
                    k == q - p,
            ;
        }
    } else {
        let (t, d) = a_fraction_lies_between(a, b, k);
        let n = t + q * d;
        assert(b * d * d == b * (d * d) && a * d * d == a * (d * d)) by (nonlinear_arith);
        assert(n - p * d == t + k * d) by (nonlinear_arith)
            requires
                n == t + q * d,
                k == q - p,
        ;
        assert(is_bounded_by(b, q, n, d));
        assert(!is_bounded_by(a, p, n, d));
    }
}

/// What is at most what is at most a sum is at most the sum.
pub proof fn sums_are_ordered(a: int, p: int, b: int, q: int, c: int, r: int)
    requires
        a >= 0,
        b >= 0,
        c >= 0,
        is_at_most(a, p, b, q),
        is_at_most(b, q, c, r),
    ensures
        is_at_most(a, p, c, r),
{
    sums_compare_by_the_fractions_above_them(a, p, b, q);
    sums_compare_by_the_fractions_above_them(b, q, c, r);
    sums_compare_by_the_fractions_above_them(a, p, c, r);
}

/// Of two sums at least one is at most the other.
pub proof fn sums_are_comparable(a: int, p: int, b: int, q: int)
    requires
        a >= 0,
        b >= 0,
    ensures
        is_at_most(a, p, b, q) || is_at_most(b, q, a, p),
{
    let k = q - p;
    assert(k * k == (-k) * (-k)) by (nonlinear_arith);
    assert(a * (k * k) >= 0 && b * (k * k) >= 0) by (nonlinear_arith)
        requires
            a >= 0,
            b >= 0,
    ;
}

/// Whether the square root of `x` is larger than those of `y` and `z` together.
pub fn does_exceed_sum(x: &Integer, y: &Integer, z: &Integer) -> (r: bool)
    ensures
        r == exceeds_sum(x@, y@, z@),
{
    let t: Integer = x.minus(y).minus(z);
    let four: Integer = Integer::new(4);
    Integer::new(0).is_less(&t) && four.times(&y.times(z)).is_less(&t.times(&t))
}

/// Whether the square root of `x` is at least those of `y` and `z` together.
pub fn does_reach_sum(x: &Integer, y: &Integer, z: &Integer) -> (r: bool)
    ensures
        r == reaches_sum(x@, y@, z@),
{
    let t: Integer = x.minus(y).minus(z);
    let four: Integer = Integer::new(4);
    !t.is_negative() && !t.times(&t).is_less(&four.times(&y.times(z)))
}

/// Whether the square root of `a`, and `p`, are together at most the square root of `b` and `q`.
pub fn are_at_most(a: &Integer, p: &Integer, b: &Integer, q: &Integer) -> (r: bool)
    ensures
        r == is_at_most(a@, p@, b@, q@),
{
    let k: Integer = q.minus(p);
    let kk: Integer = k.times(&k);
    if k.is_negative() {
        does_reach_sum(b, a, &kk)
    } else {
        !does_exceed_sum(a, b, &kk)
    }
}

} // verus!
