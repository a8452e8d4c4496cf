//! Whole numbers of any size, for arithmetic that outgrows the machine's.

use vstd::prelude::*;

use crate::fixed::{is_root, root, root_is_unique};

verus! {

/// What a digit counts for at place `i`: there are 2^32 digits.
pub open spec fn weight(i: nat) -> nat
    decreases i,
{
    if i == 0 {
        1
    } else {
        0x1_0000_0000 * weight((i - 1) as nat)
    }
}

/// The digit at place `i`, zero beyond the last one.
pub open spec fn digit(d: Seq<u32>, i: int) -> nat {
    if 0 <= i < d.len() {
        d[i] as nat
    } else {
        0
    }
}

/// What the first `n` digits, the least of which comes first, count together.
pub open spec fn part(d: Seq<u32>, n: nat) -> nat
    decreases n,
{
    if n == 0 {
        0
    } else {
        part(d, (n - 1) as nat) + digit(d, n - 1) * weight((n - 1) as nat)
    }
}

/// The number with these digits.
pub open spec fn value(d: Seq<u32>) -> nat {
    part(d, d.len())
}

proof fn digits_beyond_count_nothing(d: Seq<u32>, n: nat)
    requires
        n >= d.len(),
    ensures
        part(d, n) == value(d),
    decreases n,
{
    if n > d.len() {
        digits_beyond_count_nothing(d, (n - 1) as nat);
        assert(0 * weight((n - 1) as nat) == 0) by (nonlinear_arith);
    }
}

proof fn parts_go_by_their_digits(d: Seq<u32>, e: Seq<u32>, n: nat)
    requires
        forall|i: int| 0 <= i < n ==> #[trigger] digit(d, i) == digit(e, i),
    ensures
        part(d, n) == part(e, n),
    decreases n,
{
    if n > 0 {
        parts_go_by_their_digits(d, e, (n - 1) as nat);
        assert(digit(d, n - 1) == digit(e, n - 1));
    }
}

proof fn parts_are_bounded(d: Seq<u32>, n: nat)
    ensures
        part(d, n) < weight(n),
    decreases n,
{
    if n > 0 {
        let k = (n - 1) as nat;
        parts_are_bounded(d, k);
        let (p, x, w) = (part(d, k) as int, digit(d, k as int) as int, weight(k) as int);
        assert(p + x * w < 0x1_0000_0000 * w) by (nonlinear_arith)
            requires
                0 <= p < w,
                0 <= x <= 0xffff_ffff,
        ;
    }
}

proof fn parts_grow(d: Seq<u32>, n: nat, m: nat)
    requires
        n <= m,
    ensures
        part(d, n) <= part(d, m),
    decreases m,
{
    if n < m {
        parts_grow(d, n, (m - 1) as nat);
        assert(digit(d, m - 1) * weight((m - 1) as nat) >= 0) by (nonlinear_arith);
    }
}

proof fn weights_multiply(i: nat, j: nat)
    ensures
        weight(i + j) == weight(i) * weight(j),
    decreases j,
{
    if j > 0 {
        weights_multiply(i, (j - 1) as nat);
        let (a, b) = (weight(i) as int, weight((j - 1) as nat) as int);
        assert(0x1_0000_0000 * (a * b) == a * (0x1_0000_0000 * b)) by (nonlinear_arith);
        assert((i + j - 1) as nat == i + (j - 1) as nat);
    } else {
        assert(weight(i) * 1 == weight(i)) by (nonlinear_arith);
    }
}

proof fn pushing_adds_a_digit(d: Seq<u32>, x: u32)
    ensures
        value(d.push(x)) == value(d) + x * weight(d.len()),
        part(d.push(x), d.len()) == value(d),
{
    parts_go_by_their_digits(d, d.push(x), d.len());
}

/// A whole number that is not negative.
#[derive(Debug)]
pub struct Natural {
    digits: Vec<u32>,
}

impl View for Natural {
    type V = nat;

    closed spec fn view(&self) -> nat {
        value(self.digits@)
    }
}

impl Clone for Natural {
    fn clone(&self) -> (r: Self)
        ensures
            r@ == self@,
    {
        let digits: Vec<u32> = self.digits.clone();
        assert(digits@ =~= self.digits@);
        Natural { digits }
    }
}

impl Natural {
    /// The number `n`.
    pub fn new(n: u128) -> (r: Self)
        ensures
            r@ == n,
    {
        let mut digits: Vec<u32> = Vec::new();
        let mut rest: u128 = n;
        assert(n * 1 == n) by (nonlinear_arith);
        while rest > 0
            invariant
                n == value(digits@) + rest * weight(digits@.len()),
            decreases rest,
        {
            let x: u32 = (rest % 0x1_0000_0000) as u32;
            let more: u128 = rest / 0x1_0000_0000;
            proof {
                pushing_adds_a_digit(digits@, x);
                let w = weight(digits@.len()) as int;
                assert(rest * w == x * w + more * (0x1_0000_0000 * w)) by (nonlinear_arith)
                    requires
                        rest == x + 0x1_0000_0000 * more,
                ;
            }
            digits.push(x);
            rest = more;
        }
        assert(0 * weight(digits@.len()) == 0) by (nonlinear_arith);
        Natural { digits }
    }

    /// The digits of the number, the least of which comes first.
    pub fn digits(&self) -> (r: &Vec<u32>)
        ensures
            value(r@) == self@,
    {
        &self.digits
    }

    fn at(&self, i: usize) -> (r: u32)
        ensures
            r == digit(self.digits@, i as int),
    {
        if i < self.digits.len() {
            self.digits[i]
        } else {
            0
        }
    }

    fn longer(&self, other: &Self) -> (r: usize)
        ensures
            r >= self.digits@.len(),
            r >= other.digits@.len(),
            r == self.digits@.len() || r == other.digits@.len(),
    {
        if self.digits.len() < other.digits.len() {
            other.digits.len()
        } else {
            self.digits.len()
        }
    }

    /// The sum of two numbers.
    pub fn plus(&self, other: &Self) -> (r: Self)
        ensures
            r@ == self@ + other@,
    {
        let n: usize = self.longer(other);
        let mut digits: Vec<u32> = Vec::with_capacity(n);
        let mut carry: u64 = 0;
        let mut i: usize = 0;
        while i < n
            invariant
                i <= n,
                digits@.len() == i,
                carry <= 1,
                part(self.digits@, i as nat) + part(other.digits@, i as nat) == value(digits@)
                    + carry * weight(i as nat),
            decreases n - i,
        {
            let (a, b): (u64, u64) = (self.at(i) as u64, other.at(i) as u64);
            let s: u64 = a + b + carry;
            let x: u32 = (s % 0x1_0000_0000) as u32;
            let next: u64 = s / 0x1_0000_0000;
            proof {
                pushing_adds_a_digit(digits@, x);
                let w = weight(i as nat) as int;
                assert(a * w + b * w + carry * w == x * w + next * (0x1_0000_0000 * w))
                    by (nonlinear_arith)
                    requires
                        a + b + carry == x + 0x1_0000_0000 * next,
                ;
            }
            digits.push(x);
            carry = next;
            i = i + 1;
        }
        proof {
            pushing_adds_a_digit(digits@, carry as u32);
            digits_beyond_count_nothing(self.digits@, n as nat);
            digits_beyond_count_nothing(other.digits@, n as nat);
        }
        digits.push(carry as u32);
        Natural { digits }
    }

    /// Whether the number is less than another one.
    pub fn is_less(&self, other: &Self) -> (r: bool)
        ensures
            r == (self@ < other@),
    {
        let n: usize = self.longer(other);
        let mut less: bool = false;
        let mut i: usize = 0;
        while i < n
            invariant
                i <= n,
                less == (part(self.digits@, i as nat) < part(other.digits@, i as nat)),
            decreases n - i,
        {
            let (a, b): (u32, u32) = (self.at(i), other.at(i));
            proof {
                parts_are_bounded(self.digits@, i as nat);
                parts_are_bounded(other.digits@, i as nat);
                let w = weight(i as nat) as int;
                let (p, q) = (
                    part(self.digits@, i as nat) as int,
                    part(other.digits@, i as nat) as int,
                );
                assert(a < b ==> p + a * w < q + b * w) by (nonlinear_arith)
                    requires
                        0 <= p < w,
                        0 <= q < w,
                ;
                assert(b < a ==> q + b * w < p + a * w) by (nonlinear_arith)
                    requires
                        0 <= p < w,
                        0 <= q < w,
                ;
            }
            if a != b {
                less = a < b;
            }
            i = i + 1;
        }
        proof {
            digits_beyond_count_nothing(self.digits@, n as nat);
            digits_beyond_count_nothing(other.digits@, n as nat);
        }
        less
    }

    /// The number without another one that is not greater.
    pub fn minus(&self, other: &Self) -> (r: Self)
        requires
            self@ >= other@,
        ensures
            r@ == self@ - other@,
    {
        let n: usize = self.longer(other);
        let mut digits: Vec<u32> = Vec::with_capacity(n);
        let mut borrow: i64 = 0;
        let mut i: usize = 0;
        while i < n
            invariant
                i <= n,
                digits@.len() == i,
                0 <= borrow <= 1,
                part(self.digits@, i as nat) + borrow * weight(i as nat) == part(
                    other.digits@,
                    i as nat,
                ) + value(digits@),
            decreases n - i,
        {
            let (a, b): (i64, i64) = (self.at(i) as i64, other.at(i) as i64);
            let s: i64 = a - b - borrow;
            let next: i64 = if s < 0 {
                1
            } else {
                0
            };
            let x: u32 = (s + next * 0x1_0000_0000) as u32;
            proof {
                pushing_adds_a_digit(digits@, x);
                let w = weight(i as nat) as int;
                assert(a * w + next * (0x1_0000_0000 * w) == b * w + x * w + borrow * w)
                    by (nonlinear_arith)
                    requires
                        a + 0x1_0000_0000 * next == b + x + borrow,
                ;
            }
            digits.push(x);
            borrow = next;
            i = i + 1;
        }
        proof {
            digits_beyond_count_nothing(self.digits@, n as nat);
            digits_beyond_count_nothing(other.digits@, n as nat);
            parts_are_bounded(digits@, n as nat);
            let w = weight(n as nat) as int;
            assert(borrow == 1 ==> borrow * w == w) by (nonlinear_arith);
            assert(borrow == 0 ==> borrow * w == 0) by (nonlinear_arith);
        }
        Natural { digits }
    }

    /// The number times one digit, moved up by `shift` places.
    fn times_digit(&self, m: u32, shift: usize) -> (r: Self)
        ensures
            r@ == self@ * m * weight(shift as nat),
    {
        let mut digits: Vec<u32> = Vec::new();
        let mut k: usize = 0;
        while k < shift
            invariant
                k <= shift,
                digits@.len() == k,
                value(digits@) == 0,
            decreases shift - k,
        {
            proof {
                pushing_adds_a_digit(digits@, 0);
                assert(0 * weight(digits@.len()) == 0) by (nonlinear_arith);
            }
            digits.push(0);
            k = k + 1;
        }
        let mut carry: u64 = 0;
        let mut i: usize = 0;
        assert(part(self.digits@, 0) * m * weight(shift as nat) == 0) by (nonlinear_arith)
            requires
                part(self.digits@, 0) == 0,
        ;
        assert(0 * weight(shift as nat) == 0) by (nonlinear_arith);
        while i < self.digits.len()
            invariant
                i <= self.digits@.len(),
                digits@.len() == shift + i,
                carry <= 0xffff_ffff,
                part(self.digits@, i as nat) * m * weight(shift as nat) == value(digits@) + carry
                    * weight((shift + i) as nat),
            decreases self.digits@.len() - i,
        {
            let a: u64 = self.digits[i] as u64;
            assert(a * m <= 0xffff_ffff * 0xffff_ffff) by (nonlinear_arith)
                requires
                    0 <= a <= 0xffff_ffff,
                    0 <= m <= 0xffff_ffff,
            ;
            let s: u64 = a * m as u64 + carry;
            let x: u32 = (s % 0x1_0000_0000) as u32;
            let next: u64 = s / 0x1_0000_0000;
            proof {
                pushing_adds_a_digit(digits@, x);
                weights_multiply(shift as nat, i as nat);
                let (p, u, v) = (
                    part(self.digits@, i as nat) as int,
                    weight(shift as nat) as int,
                    weight(i as nat) as int,
                );
                let w = u * v;
                assert((p + a * v) * m * u == p * m * u + (a * m) * w) by (nonlinear_arith)
                    requires
                        w == u * v,
                ;
                assert((a * m) * w + carry * w == x * w + next * (0x1_0000_0000 * w))
                    by (nonlinear_arith)
                    requires
                        a * m + carry == x + 0x1_0000_0000 * next,
                ;
            }
            digits.push(x);
            carry = next;
            i = i + 1;
        }
        proof {
            pushing_adds_a_digit(digits@, carry as u32);
        }
        digits.push(carry as u32);
        Natural { digits }
    }

    /// The product of two numbers.
    pub fn times(&self, other: &Self) -> (r: Self)
        ensures
            r@ == self@ * other@,
    {
        let mut r: Natural = Natural::new(0);
        let mut i: usize = 0;
        assert(self@ * part(other.digits@, 0) == 0) by (nonlinear_arith)
            requires
                part(other.digits@, 0) == 0,
        ;
        while i < other.digits.len()
            invariant
                i <= other.digits@.len(),
                r@ == self@ * part(other.digits@, i as nat),
            decreases other.digits@.len() - i,
        {
            let m: u32 = other.digits[i];
            let row: Natural = self.times_digit(m, i);
            proof {
                let (s, p, w) = (
                    self@ as int,
                    part(other.digits@, i as nat) as int,
                    weight(i as nat) as int,
                );
                assert(s * (p + m * w) == s * p + s * m * w) by (nonlinear_arith);
            }
            r = r.plus(&row);
            i = i + 1;
        }
        r
    }

    /// The number in the machine's size, if it fits.
    pub fn to_u128(&self) -> (r: Option<u128>)
        ensures
            match r {
                Some(n) => n == self@,
                None => self@ > u128::MAX,
            },
    {
        let mut r: u128 = 0;
        let mut factor: u128 = 1;
        let mut i: usize = 0;
        proof {
            reveal_with_fuel(weight, 5);
        }
        while i < self.digits.len()
            invariant
                i <= self.digits@.len(),
                r == part(self.digits@, i as nat),
                i < 4 ==> factor == weight(i as nat),
            decreases self.digits@.len() - i,
        {
            let x: u32 = self.digits[i];
            if i >= 4 {
                if x != 0 {
                    proof {
                        reveal_with_fuel(weight, 5);
                        weights_multiply(4, (i - 4) as nat);
                        parts_grow(self.digits@, (i + 1) as nat, self.digits@.len());
                        let (w, v) = (weight(i as nat) as int, weight((i - 4) as nat) as int);
                        parts_are_bounded(self.digits@, (i - 4) as nat);
                        assert(x * w >= 0x1_0000_0000_0000_0000_0000_0000_0000_0000int)
                            by (nonlinear_arith)
                            requires
                                w == 0x1_0000_0000_0000_0000_0000_0000_0000_0000int * v,
                                v >= 1,
                                x >= 1,
                        ;
                    }
                    return None;
                }
                assert(0 * weight(i as nat) == 0) by (nonlinear_arith);
            } else {
                proof {
                    reveal_with_fuel(weight, 5);
                    parts_are_bounded(self.digits@, (i + 1) as nat);
                    assert(weight((i + 1) as nat) <= 0x1_0000_0000_0000_0000_0000_0000_0000_0000int);
                    assert(x * factor >= 0) by (nonlinear_arith)
                        requires
                            x >= 0,
                            factor >= 0,
                    ;
                    assert(x * factor == factor * x) by (nonlinear_arith);
                }
                r = r + x as u128 * factor;
                if i < 3 {
                    factor = factor * 0x1_0000_0000;
                }
            }
            i = i + 1;
        }
        proof {
            if self.digits@.len() <= 4 {
                reveal_with_fuel(weight, 5);
                parts_are_bounded(self.digits@, self.digits@.len());
            }
        }
        Some(r)
    }

    /// How often another number goes into this one, and what remains.
    pub fn divided(&self, d: &Self) -> (r: (Self, Self))
        requires
            d@ > 0,
        ensures
            r.0@ == self@ / d@,
            r.1@ == self@ % d@,
    {
        let mut steps: Vec<Natural> = Vec::new();
        let mut top: Natural = d.clone();
        while !self.is_less(&top)
            invariant
                d@ > 0,
                top@ > 0,
                forall|k: int| 0 <= k < steps@.len() - 1 ==> steps@[k + 1]@ == 2 * (#[trigger] steps@[k])@,
                steps@.len() > 0 ==> steps@[0]@ == d@ && top@ == 2 * steps@.last()@,
                steps@.len() == 0 ==> top@ == d@,
            ensures
                self@ < top@,
            decreases
                    if top@ <= self@ {
                        self@ - top@ + 1
                    } else {
                        0
                    },
        {
            let twice: Natural = top.plus(&top);
            let ghost before = steps@;
            steps.push(top);
            assert(forall|k: int| 0 <= k < before.len() ==> #[trigger] steps@[k] == before[k]);
            top = twice;
        }
        let one: Natural = Natural::new(1);
        let mut q: Natural = Natural::new(0);
        let mut rest: Natural = self.clone();
        let ghost mut unit = top@ as int;
        let mut i: usize = steps.len();
        assert(0 * unit == 0) by (nonlinear_arith);
        while i > 0
            invariant
                d@ > 0,
                one@ == 1,
                i <= steps@.len(),
                forall|k: int| 0 <= k < steps@.len() - 1 ==> steps@[k + 1]@ == 2 * (#[trigger] steps@[k])@,
                steps@.len() > 0 ==> steps@[0]@ == d@ && top@ == 2 * steps@.last()@,
                steps@.len() == 0 ==> top@ == d@,
                unit == (if i == steps@.len() {
                    top@
                } else {
                    steps@[i as int]@
                }),
                self@ == q@ * unit + rest@,
                rest@ < unit,
            decreases i,
        {
            i = i - 1;
            let ghost half = steps@[i as int]@ as int;
            let ghost had = q@ as int;
            assert(unit == 2 * half);
            assert(had * (2 * half) == (had + had) * half) by (nonlinear_arith);
            q = q.plus(&q);
            if !rest.is_less(&steps[i]) {
                rest = rest.minus(&steps[i]);
                q = q.plus(&one);
                assert((had + had + 1) * half == (had + had) * half + half) by (nonlinear_arith);
            }
            proof {
                unit = half;
            }
        }
        proof {
            vstd::arithmetic::div_mod::lemma_fundamental_div_mod_converse(
                self@ as int,
                d@ as int,
                q@ as int,
                rest@ as int,
            );
            assert(q@ * d@ == d@ * q@) by (nonlinear_arith);
        }
        (q, rest)
    }

    /// The square root of the number, rounded down.
    pub fn square_root(&self) -> (r: Self)
        ensures
            is_root(r@ as int, self@ as int),
            r@ == root(self@ as int),
    {
        let mut steps: Vec<Natural> = Vec::new();
        let mut top: Natural = Natural::new(1);
        while !self.is_less(&top.times(&top))
            invariant
                top@ > 0,
                forall|k: int| 0 <= k < steps@.len() - 1 ==> steps@[k + 1]@ == 2 * (#[trigger] steps@[k])@,
                steps@.len() > 0 ==> steps@[0]@ == 1 && top@ == 2 * steps@.last()@,
                steps@.len() == 0 ==> top@ == 1,
            ensures
                self@ < top@ * top@,
            decreases
                    if top@ <= self@ {
                        self@ - top@ + 1
                    } else {
                        0
                    },
        {
            assert(top@ <= top@ * top@) by (nonlinear_arith)
                requires
                    top@ >= 1,
            ;
            let twice: Natural = top.plus(&top);
            let ghost before = steps@;
            steps.push(top);
            assert(forall|k: int| 0 <= k < before.len() ==> #[trigger] steps@[k] == before[k]);
            top = twice;
        }
        let mut r: Natural = Natural::new(0);
        let ghost mut unit = top@ as int;
        let mut i: usize = steps.len();
        while i > 0
            invariant
                i <= steps@.len(),
                forall|k: int| 0 <= k < steps@.len() - 1 ==> steps@[k + 1]@ == 2 * (#[trigger] steps@[k])@,
                steps@.len() > 0 ==> steps@[0]@ == 1 && top@ == 2 * steps@.last()@,
                steps@.len() == 0 ==> top@ == 1,
                unit == (if i == steps@.len() {
                    top@
                } else {
                    steps@[i as int]@
                }),
                r@ * r@ <= self@,
                self@ < (r@ + unit) * (r@ + unit),
            decreases i,
        {
            i = i - 1;
            let t: Natural = r.plus(&steps[i]);
            assert(unit == 2 * steps@[i as int]@);
            if !self.is_less(&t.times(&t)) {
                r = t;
            }
            proof {
                unit = steps@[i as int]@ as int;
            }
        }
        proof {
            root_is_unique(r@ as int, root(self@ as int), self@ as int);
        }
        r
    }
}

/// The number `v` as far as it and its opposite fit the machine's largest size.
pub open spec fn fitted(v: int) -> int {
    if v > i128::MAX {
        i128::MAX as int
    } else if v < -i128::MAX {
        -i128::MAX
    } else {
        v
    }
}

/// A whole number of either sign.
#[derive(Debug)]
pub struct Integer {
    negative: bool,
    size: Natural,
}

impl View for Integer {
    type V = int;

    closed spec fn view(&self) -> int {
        if self.negative {
            -(self.size@)
        } else {
            self.size@ as int
        }
    }
}

impl Clone for Integer {
    fn clone(&self) -> (r: Self)
        ensures
            r@ == self@,
    {
        Integer { negative: self.negative, size: self.size.clone() }
    }
}

impl Integer {
    /// The number `n`.
    pub fn new(n: i128) -> (r: Self)
        ensures
            r@ == n,
    {
        if n >= 0 {
            Integer { negative: false, size: Natural::new(n as u128) }
        } else {
            Integer { negative: true, size: Natural::new((-(n + 1)) as u128 + 1) }
        }
    }

    /// The number without its sign.
    pub fn magnitude(&self) -> (r: &Natural)
        ensures
            r@ == crate::fixed::abs(self@),
    {
        &self.size
    }

    /// Whether the number is less than zero.
    pub fn is_negative(&self) -> (r: bool)
        ensures
            r == (self@ < 0),
    {
        self.negative && Natural::new(0).is_less(&self.size)
    }

    /// The number with the other sign.
    pub fn opposite(&self) -> (r: Self)
        ensures
            r@ == -self@,
    {
        Integer { negative: !self.negative, size: self.size.clone() }
    }

    /// The number as far as it fits a fixed-point number.
    pub fn to_i64(&self) -> (r: i64)
        ensures
            r == crate::fixed::clamped(self@),
    {
        crate::fixed::clamp_to_fixed(self.to_i128())
    }

    /// The pixel that holds the coordinate: its whole part, as far as it fits.
    pub fn to_pixel(&self) -> (r: i32)
        ensures
            r == crate::fixed::pixel(self@),
    {
        let v: i128 = self.to_i128();
        if v > 0x7fff_ffff_ffff_ffff {
            0x7fff_ffff
        } else if v < -0x7fff_ffff_ffff_ffff {
            -0x8000_0000
        } else {
            crate::fixed::to_pixel(v as i64)
        }
    }

    /// The sum of two numbers.
    pub fn plus(&self, other: &Self) -> (r: Self)
        ensures
            r@ == self@ + other@,
    {
        if self.negative == other.negative {
            Integer { negative: self.negative, size: self.size.plus(&other.size) }
        } else if self.size.is_less(&other.size) {
            Integer { negative: other.negative, size: other.size.minus(&self.size) }
        } else {
            Integer { negative: self.negative, size: self.size.minus(&other.size) }
        }
    }

    /// The difference of two numbers.
    pub fn minus(&self, other: &Self) -> (r: Self)
        ensures
            r@ == self@ - other@,
    {
        self.plus(&other.opposite())
    }

    /// The product of two numbers.
    pub fn times(&self, other: &Self) -> (r: Self)
        ensures
            r@ == self@ * other@,
    {
        proof {
            let (a, b) = (self.size@ as int, other.size@ as int);
            assert((-a) * b == -(a * b) && a * (-b) == -(a * b) && (-a) * (-b) == a * b)
                by (nonlinear_arith);
        }
        Integer { negative: self.negative != other.negative, size: self.size.times(&other.size) }
    }

    /// Whether the number is less than another one.
    pub fn is_less(&self, other: &Self) -> (r: bool)
        ensures
            r == (self@ < other@),
    {
        self.minus(other).is_negative()
    }

    /// The larger of two numbers.
    pub fn at_least(&self, other: &Self) -> (r: Self)
        ensures
            r@ == crate::fixed::max(self@, other@),
    {
        if self.is_less(other) {
            other.clone()
        } else {
            self.clone()
        }
    }

    /// The smaller of two numbers.
    pub fn at_most(&self, other: &Self) -> (r: Self)
        ensures
            r@ == crate::fixed::min(self@, other@),
    {
        if self.is_less(other) {
            self.clone()
        } else {
            other.clone()
        }
    }

    /// The quotient by a positive number, rounded down.
    pub fn over(&self, d: &Self) -> (r: Self)
        requires
            d@ > 0,
        ensures
            r@ == self@ / d@,
    {
        let (q, rest): (Natural, Natural) = self.size.divided(&d.size);
        proof {
            let (n, m) = (self.size@ as int, d@);
            vstd::arithmetic::div_mod::lemma_fundamental_div_mod(n, m);
            if self.negative {
                if rest@ == 0 {
                    assert(-n == m * (-(q@ as int))) by (nonlinear_arith)
                        requires
                            n == m * q@,
                    ;
                    vstd::arithmetic::div_mod::lemma_fundamental_div_mod_converse(
                        -n,
                        m,
                        -(q@ as int),
                        0,
                    );
                } else {
                    assert(-n == m * (-(q@ as int) - 1) + (m - rest@)) by (nonlinear_arith)
                        requires
                            n == m * q@ + rest@,
                    ;
                    vstd::arithmetic::div_mod::lemma_fundamental_div_mod_converse(
                        -n,
                        m,
                        -(q@ as int) - 1,
                        m - rest@,
                    );
                }
            }
        }
        if !self.negative {
            Integer { negative: false, size: q }
        } else if Natural::new(0).is_less(&rest) {
            Integer { negative: true, size: q.plus(&Natural::new(1)) }
        } else {
            Integer { negative: true, size: q }
        }
    }

    /// The square root of a number that is not negative, rounded down.
    pub fn square_root(&self) -> (r: Self)
        requires
            self@ >= 0,
        ensures
            is_root(r@, self@),
            r@ == root(self@),
    {
        Integer { negative: false, size: self.size.square_root() }
    }

    /// The number in the machine's size, as far as it and its opposite fit.
    pub fn to_i128(&self) -> (r: i128)
        ensures
            r == fitted(self@),
    {
        let largest: u128 = 0x7fff_ffff_ffff_ffff_ffff_ffff_ffff_ffff;
        let n: i128 = match self.size.to_u128() {
            Some(n) => if n <= largest {
                n as i128
            } else {
                largest as i128
            },
            None => largest as i128,
        };
        if self.negative {
            -n
        } else {
            n
        }
    }
}

} // verus!
