//! Text for numbers and messages.

use vstd::prelude::*;
use vstd::string::*;

use crate::fixed::{abs, root, ONE};
use crate::wide::{Integer, Natural};

verus! {

/// The character of the decimal digit `d`.
pub open spec fn digit(d: int) -> char
    recommends
        0 <= d < 10,
{
    if d == 0 {
        '0'
    } else if d == 1 {
        '1'
    } else if d == 2 {
        '2'
    } else if d == 3 {
        '3'
    } else if d == 4 {
        '4'
    } else if d == 5 {
        '5'
    } else if d == 6 {
        '6'
    } else if d == 7 {
        '7'
    } else if d == 8 {
        '8'
    } else {
        '9'
    }
}

/// `n` in decimal notation.
pub open spec fn decimal(n: int) -> Seq<char>
    decreases n,
{
    if n < 10 {
        seq![digit(n)]
    } else {
        decimal(n / 10).push(digit(n % 10))
    }
}

/// `n` in decimal notation with a sign where it is negative.
pub open spec fn signed_decimal(n: int) -> Seq<char> {
    if n < 0 {
        "-"@ + decimal(-n)
    } else {
        decimal(n)
    }
}

/// The last `width` decimal digits of `n`, zeros included.
pub open spec fn last_digits(n: int, width: nat) -> Seq<char>
    decreases width,
{
    if width == 0 {
        Seq::empty()
    } else {
        last_digits(n / 10, (width - 1) as nat).push(digit(n % 10))
    }
}

/// `n` in decimal notation, with leading zeros up to `width` digits.
pub open spec fn padded(n: int, width: nat) -> Seq<char>
    decreases width,
{
    if width <= 1 {
        decimal(n)
    } else {
        padded(n / 10, (width - 1) as nat).push(digit(n % 10))
    }
}

/// `a / b` rounded to the nearest integer, halves to the even one.
pub open spec fn nearest_even(a: int, b: int) -> int
    recommends
        a >= 0,
        b > 0,
{
    let q = a / b;
    let twice = 2 * (a % b);
    if twice < b || (twice == b && q % 2 == 0) {
        q
    } else {
        q + 1
    }
}

/// Ten to the power of `k`.
pub open spec fn ten_to(k: nat) -> int
    decreases k,
{
    if k == 0 {
        1
    } else {
        10 * ten_to((k - 1) as nat)
    }
}

/// The fixed-point number `v` with `places` decimals.
pub open spec fn fixed_decimal(v: int, places: nat) -> Seq<char>
    recommends
        places <= 6,
{
    let magnitude = if v < 0 {
        -v
    } else {
        v
    };
    let q = nearest_even(magnitude, ten_to((6 - places) as nat));
    let sign = if v < 0 {
        "-"@
    } else {
        Seq::empty()
    };
    let whole = sign + decimal(q / ten_to(places));
    if places == 0 {
        whole
    } else {
        whole + "."@ + last_digits(q, places)
    }
}

/// `q` units of the last of `places` decimals.
pub open spec fn units_decimal(q: int, places: nat) -> Seq<char> {
    if places == 0 {
        decimal(q)
    } else {
        decimal(q / ten_to(places)) + "."@ + last_digits(q, places)
    }
}

/// `n / d` with `places` decimals, rounded once.
pub open spec fn ratio_decimal(n: int, d: int, places: nat) -> Seq<char>
    recommends
        d > 0,
{
    signed_ratio_decimal(n < 0, abs(n), d, places)
}

/// `n / d` with `places` decimals, rounded once, with a sign where it is wanted.
pub open spec fn signed_ratio_decimal(negative: bool, n: int, d: int, places: nat) -> Seq<char>
    recommends
        n >= 0,
        d > 0,
{
    let sign = if negative {
        "-"@
    } else {
        Seq::empty()
    };
    sign + units_decimal(nearest_even(n * ten_to(places), d), places)
}

/// The square root of `n` as a multiple of `d`, rounded to the nearest integer, halves to the even
/// one.
pub open spec fn nearest_root(n: int, d: int) -> int
    recommends
        n >= 0,
        d > 0,
{
    let q = root(n) / d;
    let half = (2 * q + 1) * d;
    if 4 * n < half * half || (4 * n == half * half && q % 2 == 0) {
        q
    } else {
        q + 1
    }
}

/// The square root of `n` as a multiple of `d` with `places` decimals, rounded once.
pub open spec fn root_decimal(n: int, d: int, places: nat) -> Seq<char>
    recommends
        n >= 0,
        d > 0,
{
    units_decimal(nearest_root(n * ten_to(places) * ten_to(places), d), places)
}

/// The digits of a fraction of `width` digits, without the zeros at its end.
pub open spec fn fraction_digits(n: int, width: nat) -> Seq<char>
    decreases width,
{
    if width == 0 || n == 0 {
        Seq::empty()
    } else if n % 10 == 0 {
        fraction_digits(n / 10, (width - 1) as nat)
    } else {
        last_digits(n, width)
    }
}

/// The fixed-point number `v` with as many decimals as it needs.
pub open spec fn plain_decimal(v: int) -> Seq<char> {
    let magnitude = if v < 0 {
        -v
    } else {
        v
    };
    let sign = if v < 0 {
        "-"@
    } else {
        Seq::empty()
    };
    let whole = sign + decimal(magnitude / ONE as int);
    if magnitude % ONE as int == 0 {
        whole
    } else {
        whole + "."@ + fraction_digits(magnitude % ONE as int, 6)
    }
}

/// The text of one digit.
fn digit_text(d: u8) -> (r: &'static str)
    requires
        d < 10,
    ensures
        r@ == seq![digit(d as int)],
{
    proof {
        reveal_strlit("0");
        reveal_strlit("1");
        reveal_strlit("2");
        reveal_strlit("3");
        reveal_strlit("4");
        reveal_strlit("5");
        reveal_strlit("6");
        reveal_strlit("7");
        reveal_strlit("8");
        reveal_strlit("9");
    }
    match d {
        0 => "0",
        1 => "1",
        2 => "2",
        3 => "3",
        4 => "4",
        5 => "5",
        6 => "6",
        7 => "7",
        8 => "8",
        _ => "9",
    }
}

/// Appends the decimal notation of `n`.
pub fn push_number(s: &mut String, n: u128)
    ensures
        final(s)@ == old(s)@ + decimal(n as int),
    decreases n,
{
    if n < 10 {
        s.append(digit_text(n as u8));
    } else {
        push_number(s, n / 10);
        s.append(digit_text((n % 10) as u8));
        assert(s@ == old(s)@ + decimal(n as int));
    }
}

/// Appends the decimal notation of `n` with its sign.
pub fn push_signed(s: &mut String, n: i64)
    ensures
        final(s)@ == old(s)@ + signed_decimal(n as int),
{
    if n < 0 {
        s.append("-");
        push_number(s, (-(n as i128)) as u128);
        assert(s@ == old(s)@ + signed_decimal(n as int));
    } else {
        push_number(s, n as u128);
    }
}

/// Appends `n` with leading zeros up to `width` digits.
pub fn push_padded(s: &mut String, n: u128, width: u8)
    ensures
        final(s)@ == old(s)@ + padded(n as int, width as nat),
    decreases width,
{
    if width <= 1 {
        push_number(s, n);
    } else {
        push_padded(s, n / 10, width - 1);
        s.append(digit_text((n % 10) as u8));
        assert(s@ == old(s)@ + padded(n as int, width as nat));
    }
}

/// Appends the last `width` digits of `n`.
fn push_last_digits(s: &mut String, n: u128, width: u8)
    ensures
        final(s)@ == old(s)@ + last_digits(n as int, width as nat),
    decreases width,
{
    if width == 0 {
        assert(s@ == old(s)@ + last_digits(n as int, width as nat));
    } else {
        push_last_digits(s, n / 10, width - 1);
        s.append(digit_text((n % 10) as u8));
        assert(s@ == old(s)@ + last_digits(n as int, width as nat));
    }
}

/// Appends the digits of a fraction without the zeros at its end.
fn push_fraction(s: &mut String, n: u128, width: u8)
    ensures
        final(s)@ == old(s)@ + fraction_digits(n as int, width as nat),
    decreases width,
{
    if width == 0 || n == 0 {
        assert(s@ == old(s)@ + fraction_digits(n as int, width as nat));
    } else if n % 10 == 0 {
        push_fraction(s, n / 10, width - 1);
    } else {
        push_last_digits(s, n, width);
    }
}

/// `a / b` rounded to the nearest integer, halves to the even one.
fn divide_to_even(a: u128, b: u128) -> (q: u128)
    requires
        1 < b <= 1_000_000,
    ensures
        q == nearest_even(a as int, b as int),
{
    let q: u128 = a / b;
    let rest: u128 = a % b;
    assert(q < a || q == 0) by (nonlinear_arith)
        requires
            q == a / b,
            b > 1,
            a >= 0,
    ;
    let twice: u128 = 2 * rest;
    if twice < b || (twice == b && q % 2 == 0) {
        q
    } else {
        q + 1
    }
}

proof fn powers_of_ten()
    ensures
        ten_to(0) == 1,
        ten_to(1) == 10,
        ten_to(2) == 100,
        ten_to(4) == 10_000,
        ten_to(5) == 100_000,
        ten_to(6) == 1_000_000,
{
    reveal_with_fuel(ten_to, 8);
}

/// Appends the fixed-point number `v` with `places` decimals.
pub fn push_fixed(s: &mut String, v: i128, places: u8)
    requires
        places <= 2,
        v > i128::MIN,
    ensures
        final(s)@ == old(s)@ + fixed_decimal(v as int, places as nat),
{
    let magnitude: u128 = if v < 0 {
        (-v) as u128
    } else {
        v as u128
    };
    proof {
        powers_of_ten();
    }
    let unit: u128 = if places == 0 {
        1_000_000
    } else if places == 1 {
        100_000
    } else {
        10_000
    };
    let scale: u128 = if places == 0 {
        1
    } else if places == 1 {
        10
    } else {
        100
    };
    let q: u128 = divide_to_even(magnitude, unit);
    let ghost start = s@;
    if v < 0 {
        s.append("-");
    }
    push_number(s, q / scale);
    if places != 0 {
        s.append(".");
        push_last_digits(s, q, places);
    }
    assert(s@ == start + fixed_decimal(v as int, places as nat));
}

fn lowest_digit(rest: &Natural) -> (r: u8)
    requires
        rest@ < 10,
    ensures
        r == rest@,
{
    match rest.to_u128() {
        Some(d) => d as u8,
        None => 0,
    }
}

/// Appends the decimal notation of `n`.
pub fn push_natural(s: &mut String, n: &Natural)
    ensures
        final(s)@ == old(s)@ + decimal(n@ as int),
    decreases n@,
{
    let ten: Natural = Natural::new(10);
    let (q, rest): (Natural, Natural) = n.divided(&ten);
    if !n.is_less(&ten) {
        push_natural(s, &q);
    }
    s.append(digit_text(lowest_digit(&rest)));
    assert(s@ == old(s)@ + decimal(n@ as int));
}

fn push_last_of(s: &mut String, n: &Natural, width: u8)
    ensures
        final(s)@ == old(s)@ + last_digits(n@ as int, width as nat),
    decreases width,
{
    if width > 0 {
        let (q, rest): (Natural, Natural) = n.divided(&Natural::new(10));
        push_last_of(s, &q, width - 1);
        s.append(digit_text(lowest_digit(&rest)));
    }
    assert(s@ == old(s)@ + last_digits(n@ as int, width as nat));
}

fn power_of_ten(places: u8) -> (r: Natural)
    ensures
        r@ == ten_to(places as nat),
        ten_to(places as nat) > 0,
    decreases places,
{
    if places == 0 {
        Natural::new(1)
    } else {
        power_of_ten(places - 1).times(&Natural::new(10))
    }
}

fn push_units(s: &mut String, q: &Natural, places: u8)
    ensures
        final(s)@ == old(s)@ + units_decimal(q@ as int, places as nat),
{
    if places == 0 {
        push_natural(s, q);
    } else {
        let unit: Natural = power_of_ten(places);
        push_natural(s, &q.divided(&unit).0);
        s.append(".");
        push_last_of(s, q, places);
        assert(s@ == old(s)@ + units_decimal(q@ as int, places as nat));
    }
}

fn is_even(n: &Natural) -> (r: bool)
    ensures
        r == (n@ % 2 == 0),
{
    !Natural::new(0).is_less(&n.divided(&Natural::new(2)).1)
}

/// Appends `n / d` with `places` decimals, rounded once.
pub fn push_ratio(s: &mut String, n: &Integer, d: &Integer, places: u8)
    requires
        d@ > 0,
    ensures
        final(s)@ == old(s)@ + ratio_decimal(n@, d@, places as nat),
{
    push_signed_ratio(s, n.is_negative(), n.magnitude(), d.magnitude(), places);
}

/// Appends `n / d` with `places` decimals, rounded once, with a sign where it is wanted.
pub fn push_signed_ratio(s: &mut String, negative: bool, n: &Natural, d: &Natural, places: u8)
    requires
        d@ > 0,
    ensures
        final(s)@ == old(s)@ + signed_ratio_decimal(
            negative,
            n@ as int,
            d@ as int,
            places as nat,
        ),
{
    let (q, rest): (Natural, Natural) = n.times(&power_of_ten(places)).divided(d);
    let twice: Natural = rest.plus(&rest);
    let down: bool = twice.is_less(d) || (!d.is_less(&twice) && is_even(&q));
    if negative {
        s.append("-");
    }
    if down {
        push_units(s, &q, places);
    } else {
        push_units(s, &q.plus(&Natural::new(1)), places);
    }
    assert(s@ == old(s)@ + signed_ratio_decimal(negative, n@ as int, d@ as int, places as nat));
}

/// Appends the square root of `n` as a multiple of `d` with `places` decimals, rounded once.
pub fn push_root(s: &mut String, n: &Integer, d: &Integer, places: u8)
    requires
        n@ >= 0,
        d@ > 0,
    ensures
        final(s)@ == old(s)@ + root_decimal(n@, d@, places as nat),
{
    let under: &Natural = d.magnitude();
    let unit: Natural = power_of_ten(places);
    let full: Natural = n.magnitude().times(&unit).times(&unit);
    let q: Natural = full.square_root().divided(under).0;
    let half: Natural = q.plus(&q).plus(&Natural::new(1)).times(under);
    let square: Natural = half.times(&half);
    let four: Natural = Natural::new(4).times(&full);
    if four.is_less(&square) || (!square.is_less(&four) && is_even(&q)) {
        push_units(s, &q, places);
    } else {
        push_units(s, &q.plus(&Natural::new(1)), places);
    }
}

/// Appends the fixed-point number `v` with as many decimals as it needs.
pub fn push_plain(s: &mut String, v: i64)
    ensures
        final(s)@ == old(s)@ + plain_decimal(v as int),
{
    let magnitude: u128 = if v < 0 {
        (-(v as i128)) as u128
    } else {
        v as u128
    };
    let ghost start = s@;
    if v < 0 {
        s.append("-");
    }
    push_number(s, magnitude / ONE as u128);
    let fraction: u128 = magnitude % ONE as u128;
    if fraction != 0 {
        s.append(".");
        push_fraction(s, fraction, 6);
    }
    assert(s@ == start + plain_decimal(v as int));
}

/// Whether two texts are the same.
pub fn same_text(a: &str, b: &str) -> (r: bool)
    ensures
        r == (a@ == b@),
{
    a.to_owned() == b.to_owned()
}

/// `needle` stands in `text` from place `at` on.
pub open spec fn stands_at(text: Seq<char>, needle: Seq<char>, at: int) -> bool {
    &&& 0 <= at <= text.len() - needle.len()
    &&& text.subrange(at, at + needle.len()) == needle
}

/// `needle` stands somewhere in `text`.
pub open spec fn occurs_in(needle: Seq<char>, text: Seq<char>) -> bool {
    exists|at: int| stands_at(text, needle, at)
}

/// Whether `needle` stands somewhere in `text`.
pub fn contains_text(text: &str, needle: &str) -> (r: bool)
    ensures
        r == occurs_in(needle@, text@),
{
    let n: usize = text.unicode_len();
    let m: usize = needle.unicode_len();
    if m > n {
        return false;
    }
    let wanted: String = needle.to_owned();
    let mut at: usize = 0;
    while at < n - m
        invariant
            n == text@.len(),
            m == needle@.len(),
            m <= n,
            at <= n - m,
            wanted@ == needle@,
            forall|i: int| 0 <= i < at ==> !stands_at(text@, needle@, i),
        decreases n - m - at,
    {
        if text.substring_char(at, at + m).to_owned() == wanted {
            assert(stands_at(text@, needle@, at as int));
            return true;
        }
        at = at + 1;
    }
    let r: bool = text.substring_char(at, at + m).to_owned() == wanted;
    assert(r ==> stands_at(text@, needle@, at as int));
    r
}

/// The code of `c`, that of the small letter where `c` is one of `A` to `Z`.
pub open spec fn ascii_fold(c: char) -> int {
    if 65 <= c as int <= 90 {
        c as int + 32
    } else {
        c as int
    }
}

/// `a` and `b` differ at most in the case of ASCII letters.
pub open spec fn same_ignoring_ascii_case(a: Seq<char>, b: Seq<char>) -> bool {
    &&& a.len() == b.len()
    &&& forall|i: int| 0 <= i < a.len() ==> ascii_fold(#[trigger] a[i]) == ascii_fold(b[i])
}

fn fold_char(c: char) -> (r: u32)
    ensures
        r == ascii_fold(c),
{
    let code: u32 = c as u32;
    if 65 <= code && code <= 90 {
        code + 32
    } else {
        code
    }
}

/// Whether two texts differ at most in the case of ASCII letters.
pub fn same_text_ignoring_case(a: &str, b: &str) -> (r: bool)
    ensures
        r == same_ignoring_ascii_case(a@, b@),
{
    let n: usize = a.unicode_len();
    if n != b.unicode_len() {
        return false;
    }
    let mut i: usize = 0;
    while i < n
        invariant
            n == a@.len(),
            n == b@.len(),
            i <= n,
            forall|j: int| 0 <= j < i ==> ascii_fold(#[trigger] a@[j]) == ascii_fold(b@[j]),
        decreases n - i,
    {
        if fold_char(a.get_char(i)) != fold_char(b.get_char(i)) {
            assert(ascii_fold(a@[i as int]) != ascii_fold(b@[i as int]));
            return false;
        }
        i = i + 1;
    }
    true
}

/// `c` has the Unicode property White_Space.
pub open spec fn is_space(c: char) -> bool {
    let u = c as int;
    ||| 0x9 <= u <= 0xd
    ||| u == 0x20
    ||| u == 0x85
    ||| u == 0xa0
    ||| u == 0x1680
    ||| 0x2000 <= u <= 0x200a
    ||| u == 0x2028
    ||| u == 0x2029
    ||| u == 0x202f
    ||| u == 0x205f
    ||| u == 0x3000
}

/// `s` without white space at its ends.
pub open spec fn trimmed(s: Seq<char>) -> Seq<char>
    decreases s.len(),
{
    if s.len() == 0 {
        s
    } else if is_space(s[0]) {
        trimmed(s.subrange(1, s.len() as int))
    } else if is_space(s.last()) {
        trimmed(s.drop_last())
    } else {
        s
    }
}

/// The parts of `s` between commas.
pub open spec fn comma_parts(s: Seq<char>) -> Seq<Seq<char>>
    decreases s.len(),
{
    if s.len() == 0 {
        seq![Seq::empty()]
    } else {
        let parts = comma_parts(s.drop_last());
        if s.last() == ',' {
            parts.push(Seq::empty())
        } else {
            parts.drop_last().push(parts.last().push(s.last()))
        }
    }
}

/// The parts without white space at their ends, empty ones left out.
pub open spec fn list_entries(parts: Seq<Seq<char>>) -> Seq<Seq<char>>
    decreases parts.len(),
{
    if parts.len() == 0 {
        Seq::empty()
    } else {
        let entries = list_entries(parts.drop_last());
        let entry = trimmed(parts.last());
        if entry.len() == 0 {
            entries
        } else {
            entries.push(entry)
        }
    }
}

/// What a list of texts holds.
pub open spec fn texts(v: Seq<String>) -> Seq<Seq<char>> {
    v.map_values(|s: String| s@)
}

fn is_space_char(c: char) -> (r: bool)
    ensures
        r == is_space(c),
{
    let u: u32 = c as u32;
    (0x9 <= u && u <= 0xd) || u == 0x20 || u == 0x85 || u == 0xa0 || u == 0x1680 || (0x2000 <= u && u
        <= 0x200a) || u == 0x2028 || u == 0x2029 || u == 0x202f || u == 0x205f || u == 0x3000
}

/// The part `from..to` of `s` without white space at its ends.
fn trimmed_part(s: &str, from: usize, to: usize) -> (r: String)
    requires
        from <= to <= s@.len(),
    ensures
        r@ == trimmed(s@.subrange(from as int, to as int)),
{
    let mut a: usize = from;
    let mut b: usize = to;
    while a < b && is_space_char(s.get_char(a))
        invariant
            from <= a <= b <= s@.len(),
            b == to,
            trimmed(s@.subrange(a as int, b as int)) == trimmed(s@.subrange(from as int, to as int)),
        decreases b - a,
    {
        proof {
            let part = s@.subrange(a as int, b as int);
            assert(part.subrange(1, part.len() as int) =~= s@.subrange(a as int + 1, b as int));
        }
        a = a + 1;
    }
    while a < b && is_space_char(s.get_char(b - 1))
        invariant
            a <= b <= s@.len(),
            a < b ==> !is_space(s@[a as int]),
            trimmed(s@.subrange(a as int, b as int)) == trimmed(s@.subrange(from as int, to as int)),
        decreases b - a,
    {
        proof {
            let part = s@.subrange(a as int, b as int);
            assert(part.drop_last() =~= s@.subrange(a as int, b as int - 1));
        }
        b = b - 1;
    }
    s.substring_char(a, b).to_owned()
}

/// The entries of a list written with commas.
pub fn parse_list(s: &str) -> (r: Vec<String>)
    ensures
        texts(r@) == list_entries(comma_parts(s@)),
{
    let n: usize = s.unicode_len();
    let mut r: Vec<String> = Vec::new();
    let mut start: usize = 0;
    let mut i: usize = 0;
    let ghost mut done: Seq<Seq<char>> = Seq::empty();
    assert(texts(r@) =~= list_entries(done));
    assert(s@.subrange(0, 0) =~= Seq::<char>::empty());
    assert(comma_parts(s@.take(0)) =~= done.push(s@.subrange(0, 0)));
    while i < n
        invariant
            n == s@.len(),
            start <= i <= n,
            comma_parts(s@.take(i as int)) == done.push(s@.subrange(start as int, i as int)),
            texts(r@) == list_entries(done),
        decreases n - i,
    {
        let ghost part = s@.subrange(start as int, i as int);
        assert(s@.take(i as int + 1).drop_last() =~= s@.take(i as int));
        assert(done.push(part).drop_last() =~= done);
        if s.get_char(i) == ',' {
            let entry: String = trimmed_part(s, start, i);
            if entry.unicode_len() > 0 {
                let ghost before = r@;
                r.push(entry);
                assert(texts(r@) =~= texts(before).push(entry@));
            }
            proof {
                done = done.push(part);
            }
            start = i + 1;
            assert(s@.subrange(start as int, i as int + 1) =~= Seq::<char>::empty());
        } else {
            assert(s@.subrange(start as int, i as int + 1) =~= part.push(s@[i as int]));
        }
        i = i + 1;
    }
    let ghost part = s@.subrange(start as int, n as int);
    assert(s@.take(n as int) =~= s@);
    assert(done.push(part).drop_last() =~= done);
    let entry: String = trimmed_part(s, start, n);
    if entry.unicode_len() > 0 {
        let ghost before = r@;
        r.push(entry);
        assert(texts(r@) =~= texts(before).push(entry@));
    }
    r
}

/// Whether `a` comes before `b` in the order of their characters.
pub open spec fn text_less(a: Seq<char>, b: Seq<char>) -> bool
    decreases a.len(),
{
    if b.len() == 0 {
        false
    } else if a.len() == 0 {
        true
    } else if a[0] != b[0] {
        (a[0] as u32) < (b[0] as u32)
    } else {
        text_less(a.drop_first(), b.drop_first())
    }
}

/// Whether `a` comes before `b` in the order of their characters.
pub fn text_before(a: &str, b: &str) -> (r: bool)
    ensures
        r == text_less(a@, b@),
{
    let m: usize = a.unicode_len();
    let n: usize = b.unicode_len();
    let mut i: usize = 0;
    assert(a@.skip(0) =~= a@);
    assert(b@.skip(0) =~= b@);
    while i < m && i < n
        invariant
            m == a@.len(),
            n == b@.len(),
            i <= m,
            i <= n,
            text_less(a@, b@) == text_less(a@.skip(i as int), b@.skip(i as int)),
        decreases m - i,
    {
        let c: char = a.get_char(i);
        let d: char = b.get_char(i);
        assert(a@.skip(i as int).drop_first() =~= a@.skip(i as int + 1));
        assert(b@.skip(i as int).drop_first() =~= b@.skip(i as int + 1));
        if c != d {
            return (c as u32) < (d as u32);
        }
        i = i + 1;
    }
    i < n
}

/// No text comes before itself.
pub proof fn text_order_is_irreflexive(a: Seq<char>)
    ensures
        !text_less(a, a),
    decreases a.len(),
{
    if a.len() > 0 {
        text_order_is_irreflexive(a.drop_first());
    }
}

/// What comes before what comes before a text comes before the text.
pub proof fn text_order_is_transitive(a: Seq<char>, b: Seq<char>, c: Seq<char>)
    requires
        text_less(a, b),
        text_less(b, c),
    ensures
        text_less(a, c),
    decreases a.len(),
{
    if a.len() > 0 && a[0] == b[0] && b[0] == c[0] {
        text_order_is_transitive(a.drop_first(), b.drop_first(), c.drop_first());
    }
}

/// A common beginning does not count.
pub proof fn text_order_after_a_prefix(p: Seq<char>, a: Seq<char>, b: Seq<char>)
    ensures
        text_less(p + a, p + b) == text_less(a, b),
    decreases p.len(),
{
    if p.len() == 0 {
        assert(p + a =~= a);
        assert(p + b =~= b);
    } else {
        text_order_after_a_prefix(p.drop_first(), a, b);
        assert((p + a).drop_first() =~= p.drop_first() + a);
        assert((p + b).drop_first() =~= p.drop_first() + b);
    }
}

/// The first difference decides, whatever follows.
pub proof fn text_order_of_prefixes(a: Seq<char>, b: Seq<char>, x: Seq<char>, y: Seq<char>)
    requires
        a.len() == b.len(),
        text_less(a, b),
    ensures
        text_less(a + x, b + y),
    decreases a.len(),
{
    if a[0] == b[0] {
        text_order_of_prefixes(a.drop_first(), b.drop_first(), x, y);
        assert((a + x).drop_first() =~= a.drop_first() + x);
        assert((b + y).drop_first() =~= b.drop_first() + y);
    }
}

/// Numbers of a fixed width come in the order of their values.
pub proof fn padded_order(a: int, b: int, width: nat)
    requires
        0 <= a < b < ten_to(width),
        width > 0,
    ensures
        padded(a, width).len() == width,
        padded(b, width).len() == width,
        text_less(padded(a, width), padded(b, width)),
    decreases width,
{
    if width == 1 {
        assert(ten_to(1) == 10 * ten_to(0));
        let (x, y) = (seq![digit(a)], seq![digit(b)]);
        assert(x[0] != y[0]);
    } else {
        let shorter = (width - 1) as nat;
        assert(ten_to(width) == 10 * ten_to(shorter));
        padded_width(a / 10, shorter);
        padded_width(b / 10, shorter);
        let (x, y) = (padded(a / 10, shorter), padded(b / 10, shorter));
        let (u, v) = (seq![digit(a % 10)], seq![digit(b % 10)]);
        assert(padded(a, width) =~= x + u);
        assert(padded(b, width) =~= y + v);
        if a / 10 < b / 10 {
            padded_order(a / 10, b / 10, shorter);
            text_order_of_prefixes(x, y, u, v);
        } else {
            assert(a / 10 == b / 10);
            assert(u[0] != v[0]);
            assert(text_less(u, v));
            text_order_after_a_prefix(x, u, v);
        }
    }
}

/// A number that fits a width takes just that width.
pub proof fn padded_width(n: int, width: nat)
    requires
        0 <= n < ten_to(width),
        width > 0,
    ensures
        padded(n, width).len() == width,
    decreases width,
{
    if width == 1 {
        assert(ten_to(1) == 10 * ten_to(0));
    } else {
        assert(ten_to(width) == 10 * ten_to((width - 1) as nat));
        padded_width(n / 10, (width - 1) as nat);
    }
}

/// The text with an underscore in place of each `from`.
pub open spec fn underscored(s: Seq<char>, from: char) -> Seq<char> {
    s.map_values(
        |c: char|
            if c == from {
                '_'
            } else {
                c
            },
    )
}

/// The text with an underscore in place of each `from`.
pub fn underscore(s: &str, from: char) -> (r: String)
    ensures
        r@ == underscored(s@, from),
{
    proof {
        reveal_strlit("");
        reveal_strlit("_");
    }
    let n: usize = s.unicode_len();
    let mut r: String = String::from_str("");
    let mut i: usize = 0;
    while i < n
        invariant
            n == s@.len(),
            i <= n,
            "_"@ =~= seq!['_'],
            r@ == underscored(s@.take(i as int), from),
        decreases n - i,
    {
        if s.get_char(i) == from {
            r.append("_");
        } else {
            r.append(s.substring_char(i, i + 1));
        }
        assert(r@ =~= underscored(s@.take(i as int + 1), from));
        i = i + 1;
    }
    assert(s@.take(n as int) =~= s@);
    r
}

/// The text with spaces behind it up to `width` characters.
pub open spec fn left_aligned(s: Seq<char>, width: int) -> Seq<char>
    decreases width - s.len(),
{
    if s.len() >= width {
        s
    } else {
        left_aligned(s.push(' '), width)
    }
}

/// Appends the text and spaces up to `width` characters.
pub fn push_left_aligned(s: &mut String, text: &str, width: usize)
    ensures
        final(s)@ == old(s)@ + left_aligned(text@, width as int),
{
    proof {
        reveal_strlit(" ");
    }
    let mut part: String = text.to_owned();
    let mut n: usize = text.unicode_len();
    while n < width
        invariant
            " "@ =~= seq![' '],
            n == part@.len(),
            left_aligned(part@, width as int) == left_aligned(text@, width as int),
        decreases width - n,
    {
        let ghost before = part@;
        part.append(" ");
        assert(part@ =~= before.push(' '));
        n = n + 1;
    }
    s.append(part.as_str());
}


/// The value of a digit.
pub open spec fn digit_value(c: char) -> int {
    c as int - '0' as int
}

/// The number that some digits stand for.
pub open spec fn number_of(digits: Seq<char>) -> int
    decreases digits.len(),
{
    if digits.len() == 0 {
        0
    } else {
        10 * number_of(digits.drop_last()) + digit_value(digits.last())
    }
}

/// All of these are digits.
pub open spec fn are_digits(s: Seq<char>) -> bool {
    forall|i: int| 0 <= i < s.len() ==> '0' <= #[trigger] s[i] && s[i] <= '9'
}

proof fn one_more_digit(s: Seq<char>, d: int)
    requires
        0 <= d < 10,
        are_digits(s),
    ensures
        number_of(s.push(digit(d))) == 10 * number_of(s) + d,
        are_digits(s.push(digit(d))),
{
    assert(s.push(digit(d)).drop_last() =~= s);
}

/// A number is written in digits that stand for it, without zeros before it.
pub proof fn written_numbers_can_be_read(n: int)
    requires
        n >= 0,
    ensures
        number_of(decimal(n)) == n,
        are_digits(decimal(n)),
        decimal(n).len() > 0,
        n > 0 ==> decimal(n)[0] != '0',
        n < 10 ==> decimal(n).len() == 1,
    decreases n,
{
    if n >= 10 {
        written_numbers_can_be_read(n / 10);
        one_more_digit(decimal(n / 10), n % 10);
    } else {
        one_more_digit(Seq::empty(), n);
        assert(Seq::<char>::empty().push(digit(n)) =~= seq![digit(n)]);
        assert(number_of(Seq::<char>::empty()) == 0);
    }
}

/// The last digits of a number are so many, and stand for what is left of it below that power of
/// ten.
pub proof fn last_digits_are_what_is_left(n: int, width: nat)
    requires
        n >= 0,
    ensures
        last_digits(n, width).len() == width,
        are_digits(last_digits(n, width)),
        0 <= number_of(last_digits(n, width)) < ten_to(width),
        exists|k: int| n == #[trigger] (k * ten_to(width)) + number_of(last_digits(n, width)),
    decreases width,
{
    if width == 0 {
        assert(n == n * ten_to(0) + 0);
    } else {
        let w = (width - 1) as nat;
        last_digits_are_what_is_left(n / 10, w);
        let before = last_digits(n / 10, w);
        one_more_digit(before, n % 10);
        let k = choose|k: int| n / 10 == #[trigger] (k * ten_to(w)) + number_of(before);
        let t = ten_to(w);
        assert(k * (10 * t) == 10 * (k * t)) by (nonlinear_arith);
        assert(n == k * ten_to(width) + number_of(last_digits(n, width)));
    }
}

/// A padded number stands for itself, in at least so many digits.
pub proof fn padded_numbers_can_be_read(n: int, width: nat)
    requires
        n >= 0,
    ensures
        number_of(padded(n, width)) == n,
        are_digits(padded(n, width)),
        padded(n, width).len() >= width,
        n >= ten_to(width) ==> padded(n, width) == decimal(n),
    decreases width,
{
    if width <= 1 {
        written_numbers_can_be_read(n);
    } else {
        padded_numbers_can_be_read(n / 10, (width - 1) as nat);
        one_more_digit(padded(n / 10, (width - 1) as nat), n % 10);
        powers_of_ten_are_positive((width - 1) as nat);
    }
}

proof fn powers_of_ten_are_positive(k: nat)
    ensures
        ten_to(k) >= 1,
    decreases k,
{
    if k > 0 {
        powers_of_ten_are_positive((k - 1) as nat);
    }
}

/// A quotient is rounded to the nearest whole number, and of two equally near ones to the even one.
pub proof fn halves_go_to_even_numbers(a: int, b: int)
    requires
        a >= 0,
        b > 0,
    ensures
        ({
            let q = nearest_even(a, b);
            &&& q >= 0
            &&& -b <= 2 * (a - q * b) <= b
            &&& 2 * (a - q * b) == b || 2 * (a - q * b) == -b ==> q % 2 == 0
        }),
{
    let q = a / b;
    vstd::arithmetic::div_mod::lemma_fundamental_div_mod(a, b);
    vstd::arithmetic::div_mod::lemma_mod_bound(a, b);
    assert(q >= 0) by (nonlinear_arith)
        requires
            a >= 0,
            b > 0,
            q == a / b,
    ;
    assert(b * q == q * b && (q + 1) * b == q * b + b) by (nonlinear_arith);
}

/// `q` is the whole number nearest to `a / b`, and even where two are.
pub open spec fn is_nearest(q: int, a: int, b: int) -> bool {
    &&& -b <= 2 * (a - q * b) <= b
    &&& 2 * (a - q * b) == b || 2 * (a - q * b) == -b ==> q % 2 == 0
}

/// A text is made of a minus sign where it is wanted, digits, a point and so many digits more, and
/// the digits together stand for `q`.
pub open spec fn spells(text: Seq<char>, negative: bool, q: int, places: nat) -> bool {
    exists|whole: Seq<char>, fraction: Seq<char>|
        {
            &&& text == (if negative {
                "-"@
            } else {
                Seq::empty()
            }) + whole + "."@ + fraction
            &&& are_digits(whole) && are_digits(fraction)
            &&& fraction.len() == places
            &&& whole.len() > 0
            &&& #[trigger] number_of(whole) * ten_to(places) + #[trigger] number_of(fraction) == q
        }
}

proof fn units_are_spelled(q: int, places: nat, negative: bool)
    requires
        q >= 0,
        places > 0,
    ensures
        spells(
            (if negative {
                "-"@
            } else {
                Seq::empty()
            }) + units_decimal(q, places),
            negative,
            q,
            places,
        ),
{
    let t = ten_to(places);
    powers_of_ten_are_positive(places);
    let whole = decimal(q / t);
    let fraction = last_digits(q, places);
    assert(q / t >= 0) by (nonlinear_arith)
        requires
            q >= 0,
            t >= 1,
    ;
    written_numbers_can_be_read(q / t);
    last_digits_are_what_is_left(q, places);
    let k = choose|k: int| q == #[trigger] (k * ten_to(places)) + number_of(fraction);
    vstd::arithmetic::div_mod::lemma_fundamental_div_mod_converse(q, t, k, number_of(fraction));
    assert(number_of(whole) * ten_to(places) + number_of(fraction) == q);
    let sign = if negative {
        "-"@
    } else {
        Seq::empty()
    };
    assert(sign + units_decimal(q, places) =~= sign + whole + "."@ + fraction);
}

/// A fixed-point number is written as its nearest multiple of the last place, halves going to even
/// ones: a minus sign where it is negative, what is in front of the point, and after the point so
/// many digits.
pub proof fn fixed_numbers_are_written_to_the_nearest(v: int, places: nat)
    requires
        0 < places <= 6,
    ensures
        ({
            let unit = ten_to((6 - places) as nat);
            let q = nearest_even(abs(v), unit);
            &&& spells(fixed_decimal(v, places), v < 0, q, places)
            &&& is_nearest(q, abs(v), unit)
        }),
{
    let m = if v < 0 {
        -v
    } else {
        v
    };
    let unit = ten_to((6 - places) as nat);
    powers_of_ten_are_positive((6 - places) as nat);
    let q = nearest_even(m, unit);
    halves_go_to_even_numbers(m, unit);
    units_are_spelled(q, places, v < 0);
    let sign = if v < 0 {
        "-"@
    } else {
        Seq::empty()
    };
    assert(fixed_decimal(v, places) =~= sign + units_decimal(q, places));
}

/// A fraction is written as its nearest multiple of the last place.
pub proof fn fractions_are_written_to_the_nearest(n: int, d: int, places: nat)
    requires
        d > 0,
        places > 0,
    ensures
        ({
            let q = nearest_even(abs(n) * ten_to(places), d);
            &&& spells(ratio_decimal(n, d, places), n < 0, q, places)
            &&& is_nearest(q, abs(n) * ten_to(places), d)
        }),
{
    let m = abs(n) * ten_to(places);
    powers_of_ten_are_positive(places);
    let t = ten_to(places);
    assert(abs(n) * t >= 0) by (nonlinear_arith)
        requires
            abs(n) >= 0,
            t >= 1,
    ;
    let q = nearest_even(m, d);
    halves_go_to_even_numbers(m, d);
    units_are_spelled(q, places, n < 0);
}

/// A root as a multiple of `d` is rounded to the nearest whole number: twice the root lies between
/// the odd numbers next to twice the result.
pub proof fn roots_are_rounded_to_the_nearest(n: int, d: int)
    requires
        n >= 0,
        d > 0,
    ensures
        ({
            let q = nearest_root(n, d);
            let (low, high) = ((2 * q - 1) * d, (2 * q + 1) * d);
            &&& q >= 0
            &&& 4 * n <= high * high
            &&& q > 0 ==> low * low <= 4 * n
            &&& 4 * n == high * high ==> q % 2 == 0
            &&& q > 0 && 4 * n == low * low ==> q % 2 == 0
        }),
{
    crate::fixed::roots_exist(n);
    let r = root(n);
    let q = r / d;
    assert(q >= 0 && q * d <= r && r + 1 <= (q + 1) * d) by (nonlinear_arith)
        requires
            r >= 0,
            d > 0,
            q == r / d,
    ;
    let half = (2 * q + 1) * d;
    let below = (2 * q - 1) * d;
    let above = (2 * (q + 1) + 1) * d;
    assert(2 * (q + 1) - 1 == 2 * q + 1);
    let (a, b) = (q * d, (q + 1) * d);
    assert(a >= 0 && a * a <= r * r) by (nonlinear_arith)
        requires
            0 <= q,
            0 < d,
            a == q * d,
            a <= r,
    ;
    assert((r + 1) * (r + 1) <= b * b) by (nonlinear_arith)
        requires
            0 <= r,
            r + 1 <= b,
    ;
    assert(below == 2 * a - d && above == 2 * b + d && half == 2 * a + d) by (nonlinear_arith)
        requires
            below == (2 * q - 1) * d,
            above == (2 * (q + 1) + 1) * d,
            half == (2 * q + 1) * d,
            a == q * d,
            b == (q + 1) * d,
    ;
    assert(q > 0 ==> a >= d) by (nonlinear_arith)
        requires
            a == q * d,
            d > 0,
    ;
    if q > 0 {
        assert(below * below < 4 * (a * a)) by (nonlinear_arith)
            requires
                below == 2 * a - d,
                a >= d,
                d > 0,
        ;
    }
    assert(4 * (b * b) < above * above) by (nonlinear_arith)
        requires
            above == 2 * b + d,
            b >= 0,
            d > 0,
    ;
}

/// What is trimmed neither starts nor ends with a space, and what is cut off is nothing but spaces.
pub proof fn trimming_cuts_off_spaces(s: Seq<char>)
    ensures
        ({
            let t = trimmed(s);
            &&& t.len() > 0 ==> !is_space(t[0]) && !is_space(t.last())
            &&& exists|at: int|
                {
                    &&& 0 <= at <= s.len() - t.len()
                    &&& t == #[trigger] s.subrange(at, at + t.len())
                    &&& forall|i: int| 0 <= i < at ==> is_space(#[trigger] s[i])
                    &&& forall|i: int| at + t.len() <= i < s.len() ==> is_space(#[trigger] s[i])
                }
        }),
    decreases s.len(),
{
    let t = trimmed(s);
    if s.len() == 0 {
        assert(t =~= s.subrange(0, 0int + t.len()));
    } else if is_space(s[0]) {
        let u = s.subrange(1, s.len() as int);
        trimming_cuts_off_spaces(u);
        let at = choose|at: int|
            {
                &&& 0 <= at <= u.len() - t.len()
                &&& t == #[trigger] u.subrange(at, at + t.len())
                &&& forall|i: int| 0 <= i < at ==> is_space(#[trigger] u[i])
                &&& forall|i: int| at + t.len() <= i < u.len() ==> is_space(#[trigger] u[i])
            };
        assert(t =~= s.subrange(at + 1, at + 1 + t.len()));
        assert forall|i: int| 0 <= i < at + 1 implies is_space(#[trigger] s[i]) by {
            if i > 0 {
                assert(u[i - 1] == s[i]);
            }
        }
        assert forall|i: int| at + 1 + t.len() <= i < s.len() implies is_space(#[trigger] s[i]) by {
            assert(u[i - 1] == s[i]);
        }
    } else if is_space(s.last()) {
        let u = s.drop_last();
        trimming_cuts_off_spaces(u);
        let at = choose|at: int|
            {
                &&& 0 <= at <= u.len() - t.len()
                &&& t == #[trigger] u.subrange(at, at + t.len())
                &&& forall|i: int| 0 <= i < at ==> is_space(#[trigger] u[i])
                &&& forall|i: int| at + t.len() <= i < u.len() ==> is_space(#[trigger] u[i])
            };
        assert(t =~= s.subrange(at, at + t.len()));
        assert forall|i: int| 0 <= i < at implies is_space(#[trigger] s[i]) by {
            assert(u[i] == s[i]);
        }
        assert forall|i: int| at + t.len() <= i < s.len() implies is_space(#[trigger] s[i]) by {
            if i < u.len() {
                assert(u[i] == s[i]);
            }
        }
    } else {
        assert(t =~= s.subrange(0, 0int + t.len()));
    }
}

/// Parts put together again with commas between them.
pub open spec fn with_commas(parts: Seq<Seq<char>>) -> Seq<char>
    decreases parts.len(),
{
    if parts.len() == 0 {
        Seq::empty()
    } else if parts.len() == 1 {
        parts[0]
    } else {
        with_commas(parts.drop_last()).push(',') + parts.last()
    }
}

/// The parts of a text hold no comma, and with commas between them they are the text again.
pub proof fn parts_are_what_is_between_commas(s: Seq<char>)
    ensures
        comma_parts(s).len() > 0,
        with_commas(comma_parts(s)) == s,
        forall|i: int| 0 <= i < comma_parts(s).len() ==> !(#[trigger] comma_parts(s)[i]).contains(','),
    decreases s.len(),
{
    if s.len() == 0 {
        assert(with_commas(comma_parts(s)) =~= s);
    } else {
        let t = s.drop_last();
        let before = comma_parts(t);
        let parts = comma_parts(s);
        parts_are_what_is_between_commas(t);
        assert(s =~= t.push(s.last()));
        if s.last() == ',' {
            assert(parts.drop_last() =~= before);
            assert(with_commas(parts) =~= s);
        } else {
            assert(parts.drop_last() =~= before.drop_last());
            if parts.len() == 1 {
                assert(with_commas(parts) =~= s);
            } else {
                assert(with_commas(parts) =~= s);
            }
            assert forall|i: int| 0 <= i < parts.len() implies !(#[trigger] parts[i]).contains(',') by {
                assert(!before[i].contains(','));
                if i < parts.len() - 1 {
                    assert(parts[i] == before[i]);
                } else {
                    let p = parts[i];
                    if p.contains(',') {
                        let k = choose|k: int| 0 <= k < p.len() && p[k] == ',';
                        assert(k < before[i].len());
                        assert(before[i][k] == ',');
                    }
                }
            }
        }
    }
}

/// The entries of a list are its parts, trimmed, but for those of which nothing is left.
pub proof fn entries_are_the_trimmed_parts(parts: Seq<Seq<char>>)
    ensures
        list_entries(parts) == parts.map_values(|p: Seq<char>| trimmed(p)).filter(
            |p: Seq<char>| p.len() > 0,
        ),
    decreases parts.len(),
{
    reveal(Seq::filter);
    let f = |p: Seq<char>| trimmed(p);
    if parts.len() > 0 {
        entries_are_the_trimmed_parts(parts.drop_last());
        assert(parts.map_values(f).drop_last() =~= parts.drop_last().map_values(f));
    }
}

proof fn codes_differ(a: char, b: char)
    requires
        a != b,
    ensures
        a as u32 != b as u32,
{
}

/// Of two different texts one comes before the other.
pub proof fn texts_can_be_ordered(a: Seq<char>, b: Seq<char>)
    ensures
        text_less(a, b) || text_less(b, a) || a == b,
        a.len() > 0 && b.len() > 0 && (a[0] as u32) < (b[0] as u32) ==> text_less(a, b),
    decreases a.len(),
{
    if a.len() == 0 && b.len() == 0 {
        assert(a =~= b);
    } else if a.len() > 0 && b.len() > 0 {
        if a[0] == b[0] {
            let (c, d) = (a.drop_first(), b.drop_first());
            texts_can_be_ordered(c, d);
            assert(text_less(a, b) == text_less(c, d));
            assert(text_less(b, a) == text_less(d, c));
            assert(a =~= seq![a[0]] + c);
            assert(b =~= seq![b[0]] + d);
        } else {
            codes_differ(a[0], b[0]);
        }
    }
}

/// An aligned text is as wide as wanted, or as the text: the text, and then spaces.
pub proof fn aligned_texts_are_filled_with_spaces(s: Seq<char>, width: int)
    ensures
        ({
            let t = left_aligned(s, width);
            &&& t.len() == if s.len() < width {
                width
            } else {
                s.len() as int
            }
            &&& t.take(s.len() as int) == s
            &&& forall|i: int| s.len() <= i < t.len() ==> #[trigger] t[i] == ' '
        }),
    decreases width - s.len(),
{
    if s.len() < width {
        aligned_texts_are_filled_with_spaces(s.push(' '), width);
        let t = left_aligned(s, width);
        let u = s.push(' ');
        assert(t.take(u.len() as int) == u);
        assert forall|i: int| 0 <= i < u.len() implies #[trigger] t[i] == u[i] by {
            assert(t.take(u.len() as int)[i] == u[i]);
        }
        assert(t.take(s.len() as int) =~= s);
    } else {
        assert(s.take(s.len() as int) =~= s);
    }
}

/// Letters of the English alphabet are the same in either case, and all other characters only
/// themselves.
pub proof fn case_is_that_of_english_letters(a: char, b: char)
    ensures
        ascii_fold(a) == ascii_fold(b) <==> a == b || ('A' <= a && a <= 'Z' && b as int == a as int
            + 32) || ('A' <= b && b <= 'Z' && a as int == b as int + 32),
{
}

} // verus!
