//! Sums and spreads of lists of fixed-point numbers.

use vstd::prelude::*;

use crate::wide::Integer;

verus! {

/// The same numbers in a larger type.
pub open spec fn wide(s: Seq<i64>) -> Seq<i128> {
    s.map_values(|x: i64| x as i128)
}

/// The same numbers in a larger type.
pub fn widened(v: &Vec<i64>) -> (r: Vec<i128>)
    ensures
        r@ == wide(v@),
{
    let mut r: Vec<i128> = Vec::with_capacity(v.len());
    let mut i: usize = 0;
    while i < v.len()
        invariant
            i <= v.len(),
            r.len() == i,
            forall|j: int| 0 <= j < i ==> #[trigger] r[j] == v[j],
        decreases v.len() - i,
    {
        r.push(v[i] as i128);
        i = i + 1;
    }
    assert(r@ =~= wide(v@));
    r
}

/// The sum of the list.
pub open spec fn sum(s: Seq<i128>) -> int
    decreases s.len(),
{
    if s.len() == 0 {
        0
    } else {
        sum(s.drop_last()) + s.last()
    }
}

/// The sum of the squares of the list.
pub open spec fn square_sum(s: Seq<i128>) -> int
    decreases s.len(),
{
    if s.len() == 0 {
        0
    } else {
        square_sum(s.drop_last()) + s.last() * s.last()
    }
}

/// The variance of the list times the square of its length.
pub open spec fn spread(s: Seq<i128>) -> int {
    s.len() * square_sum(s) - sum(s) * sum(s)
}

proof fn distance_from_one_is_not_negative(s: Seq<i128>, x: int)
    ensures
        square_sum(s) - 2 * x * sum(s) + s.len() * x * x >= 0,
    decreases s.len(),
{
    if s.len() > 0 {
        let t = s.drop_last();
        distance_from_one_is_not_negative(t, x);
        let a = s.last() as int;
        let q = square_sum(t);
        let u = sum(t);
        let n = t.len() as int;
        assert((q + a * a) - 2 * x * (u + a) + (n + 1) * x * x == (q - 2 * x * u + n * x * x) + (a - x)
            * (a - x)) by (nonlinear_arith);
        assert((a - x) * (a - x) >= 0) by (nonlinear_arith);
        assert(s.len() == n + 1);
    } else {
        assert(0 * x * x == 0) by (nonlinear_arith);
        assert(2 * x * 0 == 0) by (nonlinear_arith);
    }
}

/// A spread is never negative.
pub proof fn spread_is_not_negative(s: Seq<i128>)
    ensures
        spread(s) >= 0,
    decreases s.len(),
{
    if s.len() > 0 {
        let t = s.drop_last();
        spread_is_not_negative(t);
        let x = s.last() as int;
        distance_from_one_is_not_negative(t, x);
        let q = square_sum(t);
        let u = sum(t);
        let n = t.len() as int;
        assert((n + 1) * (q + x * x) - (u + x) * (u + x) == (n * q - u * u) + (q - 2 * x * u + n * x
            * x)) by (nonlinear_arith);
        assert(s.len() == n + 1);
    }
}

/// The sum of the squares of the distances of the list from `x`.
pub open spec fn square_distances(s: Seq<i128>, x: int) -> int
    decreases s.len(),
{
    if s.len() == 0 {
        0
    } else {
        square_distances(s.drop_last(), x) + (s.last() - x) * (s.last() - x)
    }
}

/// The sum of the squares of the distances of all pairs of the list.
pub open spec fn pair_distances(s: Seq<i128>) -> int
    decreases s.len(),
{
    if s.len() == 0 {
        0
    } else {
        pair_distances(s.drop_last()) + square_distances(s.drop_last(), s.last() as int)
    }
}

proof fn square_distances_expand(s: Seq<i128>, x: int)
    ensures
        square_distances(s, x) == square_sum(s) - 2 * x * sum(s) + s.len() * x * x,
        square_distances(s, x) >= 0,
    decreases s.len(),
{
    if s.len() > 0 {
        let t = s.drop_last();
        square_distances_expand(t, x);
        let a = s.last() as int;
        let q = square_sum(t);
        let u = sum(t);
        let n = t.len() as int;
        assert((q + a * a) - 2 * x * (u + a) + (n + 1) * x * x == (q - 2 * x * u + n * x * x) + (a - x)
            * (a - x)) by (nonlinear_arith);
        assert((a - x) * (a - x) >= 0) by (nonlinear_arith);
        assert(s.len() == n + 1);
    } else {
        assert(0 * x * x == 0) by (nonlinear_arith);
        assert(2 * x * 0 == 0) by (nonlinear_arith);
    }
}

/// The spread of a list is the sum of the squares of the distances of all its pairs: it grows with
/// every distance, and it is nothing exactly where all values are the same.
pub proof fn spreads_are_those_of_all_pairs(s: Seq<i128>)
    ensures
        spread(s) == pair_distances(s),
        spread(s) == 0 <==> (forall|i: int, j: int|
            0 <= i < j < s.len() ==> #[trigger] s[i] == #[trigger] s[j]),
    decreases s.len(),
{
    if s.len() > 0 {
        let t = s.drop_last();
        spreads_are_those_of_all_pairs(t);
        let x = s.last() as int;
        square_distances_expand(t, x);
        spread_is_not_negative(t);
        let q = square_sum(t);
        let u = sum(t);
        let n = t.len() as int;
        assert((n + 1) * (q + x * x) - (u + x) * (u + x) == (n * q - u * u) + (q - 2 * x * u + n * x
            * x)) by (nonlinear_arith);
        assert(s.len() == n + 1);
        square_distances_vanish(t, x);
        if spread(s) == 0 {
            assert forall|i: int, j: int| 0 <= i < j < s.len() implies #[trigger] s[i]
                == #[trigger] s[j] by {
                if j < n {
                    assert(t[i] == t[j]);
                } else {
                    assert(t[i] == x);
                }
            }
        }
        if forall|i: int, j: int| 0 <= i < j < s.len() ==> #[trigger] s[i] == #[trigger] s[j] {
            assert forall|i: int, j: int| 0 <= i < j < t.len() implies #[trigger] t[i]
                == #[trigger] t[j] by {
                assert(s[i] == s[j]);
            }
            assert forall|i: int| 0 <= i < t.len() implies #[trigger] t[i] == x by {
                assert(s[i] == s[n]);
            }
        }
    }
}

proof fn square_distances_vanish(s: Seq<i128>, x: int)
    ensures
        square_distances(s, x) == 0 <==> (forall|i: int| 0 <= i < s.len() ==> #[trigger] s[i] == x),
    decreases s.len(),
{
    if s.len() > 0 {
        let t = s.drop_last();
        square_distances_vanish(t, x);
        square_distances_expand(t, x);
        let d = s.last() - x;
        assert(d * d >= 0 && (d * d == 0 <==> d == 0)) by (nonlinear_arith);
        if square_distances(s, x) == 0 {
            assert forall|i: int| 0 <= i < s.len() implies #[trigger] s[i] == x by {
                if i < t.len() {
                    assert(t[i] == x);
                }
            }
        }
        if forall|i: int| 0 <= i < s.len() ==> #[trigger] s[i] == x {
            assert forall|i: int| 0 <= i < t.len() implies #[trigger] t[i] == x by {
                assert(s[i] == x);
            }
            assert(s[s.len() - 1] == x);
        }
    }
}

/// The sum of the list.
pub fn total(v: &Vec<i128>) -> (r: Integer)
    ensures
        r@ == sum(v@),
{
    let mut r: Integer = Integer::new(0);
    let mut i: usize = 0;
    assert(v@.take(0).len() == 0);
    while i < v.len()
        invariant
            i <= v.len(),
            r@ == sum(v@.take(i as int)),
        decreases v.len() - i,
    {
        assert(v@.take(i as int + 1).drop_last() =~= v@.take(i as int));
        r = r.plus(&Integer::new(v[i]));
        i = i + 1;
    }
    assert(v@.take(i as int) =~= v@);
    r
}

/// The spread of the list: its variance times the square of its length.
pub fn spread_of(v: &Vec<i128>) -> (r: Integer)
    ensures
        r@ == spread(v@),
        r@ >= 0,
{
    let s: Integer = total(v);
    let mut q: Integer = Integer::new(0);
    let mut i: usize = 0;
    assert(v@.take(0).len() == 0);
    while i < v.len()
        invariant
            i <= v.len(),
            q@ == square_sum(v@.take(i as int)),
        decreases v.len() - i,
    {
        assert(v@.take(i as int + 1).drop_last() =~= v@.take(i as int));
        let x: Integer = Integer::new(v[i]);
        q = q.plus(&x.times(&x));
        i = i + 1;
    }
    assert(v@.take(i as int) =~= v@);
    proof {
        spread_is_not_negative(v@);
    }
    Integer::new(v.len() as i128).times(&q).minus(&s.times(&s))
}

} // verus!
