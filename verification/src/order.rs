//! Sorting, medians and extremes of lists of keys.

use vstd::prelude::*;

verus! {

/// Item `a` comes before item `b`: by a smaller key, or by its place where the keys are equal.
pub open spec fn precedes(keys: Seq<i128>, a: int, b: int) -> bool {
    keys[a] < keys[b] || (keys[a] == keys[b] && a < b)
}

/// `p` holds the place `k`.
pub open spec fn holds_place(p: Seq<usize>, k: int) -> bool {
    exists|i: int| 0 <= i < p.len() && #[trigger] p[i] == k
}

/// `p` lists the places of `keys` from the smallest key to the largest, equal keys in place order.
pub open spec fn is_ascending_order(keys: Seq<i128>, p: Seq<usize>) -> bool {
    &&& p.len() == keys.len()
    &&& forall|i: int| 0 <= i < p.len() ==> #[trigger] p[i] < keys.len()
    &&& forall|i: int, j: int|
        0 <= i < j < p.len() ==> precedes(keys, #[trigger] p[i] as int, #[trigger] p[j] as int)
    &&& forall|k: int| 0 <= k < keys.len() ==> #[trigger] holds_place(p, k)
}

/// The places of `keys` from the smallest key to the largest, equal keys in place order.
pub open spec fn ascending_order(keys: Seq<i128>) -> Seq<usize> {
    choose|p: Seq<usize>| is_ascending_order(keys, p)
}

/// Only one listing of the places is in ascending order.
pub proof fn ascending_order_is_unique(keys: Seq<i128>, p: Seq<usize>, q: Seq<usize>)
    requires
        is_ascending_order(keys, p),
        is_ascending_order(keys, q),
    ensures
        p == q,
{
    assert forall|i: int| 0 <= i < p.len() implies p[i] == q[i] by {
        ascending_orders_agree(keys, p, q, i);
    }
    assert(p =~= q);
}

proof fn ascending_orders_agree(keys: Seq<i128>, p: Seq<usize>, q: Seq<usize>, i: int)
    requires
        is_ascending_order(keys, p),
        is_ascending_order(keys, q),
        0 <= i < p.len(),
    ensures
        p[i] == q[i],
    decreases i,
{
    assert forall|j: int| 0 <= j < i implies p[j] == q[j] by {
        ascending_orders_agree(keys, p, q, j);
    }
    assert(holds_place(q, p[i] as int));
    assert(holds_place(p, q[i] as int));
    let m = choose|m: int| 0 <= m < q.len() && #[trigger] q[m] == p[i];
    let n = choose|n: int| 0 <= n < p.len() && #[trigger] p[n] == q[i];
    if m < i {
        assert(p[m] == p[i]);
        assert(precedes(keys, p[m] as int, p[i] as int));
    }
    if n < i {
        assert(q[n] == q[i]);
        assert(precedes(keys, q[n] as int, q[i] as int));
    }
    if m > i {
        assert(precedes(keys, q[i] as int, q[m] as int));
        if n > i {
            assert(precedes(keys, p[i] as int, p[n] as int));
        }
    }
}

/// `p` lists the places `lo..hi` of `keys` in ascending order.
spec fn is_sorted_range(keys: Seq<i128>, p: Seq<usize>, lo: int, hi: int) -> bool {
    &&& p.len() == hi - lo
    &&& forall|i: int| 0 <= i < p.len() ==> lo <= #[trigger] p[i] < hi
    &&& forall|i: int, j: int|
        0 <= i < j < p.len() ==> precedes(keys, #[trigger] p[i] as int, #[trigger] p[j] as int)
    &&& forall|k: int| lo <= k < hi ==> #[trigger] holds_place(p, k)
}

fn merge(keys: &Vec<i128>, a: &Vec<usize>, b: &Vec<usize>, Ghost(lo): Ghost<int>, Ghost(mid): Ghost<int>, Ghost(hi): Ghost<int>) -> (r: Vec<usize>)
    requires
        0 <= lo <= mid <= hi <= keys.len(),
        is_sorted_range(keys@, a@, lo, mid),
        is_sorted_range(keys@, b@, mid, hi),
    ensures
        is_sorted_range(keys@, r@, lo, hi),
{
    let mut r: Vec<usize> = Vec::with_capacity(a.len());
    let mut i: usize = 0;
    let mut j: usize = 0;
    while i < a.len() || j < b.len()
        invariant
            0 <= lo <= mid <= hi <= keys.len(),
            is_sorted_range(keys@, a@, lo, mid),
            is_sorted_range(keys@, b@, mid, hi),
            i <= a.len(),
            j <= b.len(),
            r.len() == i + j,
            forall|x: int| 0 <= x < r.len() ==> lo <= #[trigger] r[x] < hi,
            forall|x: int, y: int|
                0 <= x < y < r.len() ==> precedes(keys@, #[trigger] r[x] as int, #[trigger] r[y] as int),
            forall|x: int, y: int|
                0 <= x < r.len() && i <= y < a.len() ==> precedes(
                    keys@,
                    #[trigger] r[x] as int,
                    #[trigger] a[y] as int,
                ),
            forall|x: int, y: int|
                0 <= x < r.len() && j <= y < b.len() ==> precedes(
                    keys@,
                    #[trigger] r[x] as int,
                    #[trigger] b[y] as int,
                ),
            forall|x: int| 0 <= x < i ==> holds_place(r@, #[trigger] a[x] as int),
            forall|x: int| 0 <= x < j ==> holds_place(r@, #[trigger] b[x] as int),
        decreases a.len() - i + b.len() - j,
    {
        let from_a: bool = if i >= a.len() {
            false
        } else if j >= b.len() {
            true
        } else {
            keys[a[i]] <= keys[b[j]]
        };
        let ghost before = r@;
        if from_a {
            let k: usize = a[i];
            r.push(k);
            proof {
                assert forall|x: int| 0 <= x < i + 1 implies holds_place(r@, #[trigger] a[x] as int) by {
                    if x == i {
                        assert(r[r.len() - 1] == a[x]);
                    } else {
                        let z = choose|z: int| 0 <= z < before.len() && #[trigger] before[z] == a[x];
                        assert(r[z] == a[x]);
                    }
                }
                assert forall|x: int| 0 <= x < j implies holds_place(r@, #[trigger] b[x] as int) by {
                    let z = choose|z: int| 0 <= z < before.len() && #[trigger] before[z] == b[x];
                    assert(r[z] == b[x]);
                }
                assert forall|y: int| j <= y < b.len() implies precedes(keys@, k as int, #[trigger] b[y] as int) by {
                    if y > j {
                        assert(precedes(keys@, b[j as int] as int, b[y] as int));
                    }
                    assert(a[i as int] < mid <= b[y]);
                }
            }
            i = i + 1;
        } else {
            let k: usize = b[j];
            r.push(k);
            proof {
                assert forall|x: int| 0 <= x < j + 1 implies holds_place(r@, #[trigger] b[x] as int) by {
                    if x == j {
                        assert(r[r.len() - 1] == b[x]);
                    } else {
                        let z = choose|z: int| 0 <= z < before.len() && #[trigger] before[z] == b[x];
                        assert(r[z] == b[x]);
                    }
                }
                assert forall|x: int| 0 <= x < i implies holds_place(r@, #[trigger] a[x] as int) by {
                    let z = choose|z: int| 0 <= z < before.len() && #[trigger] before[z] == a[x];
                    assert(r[z] == a[x]);
                }
                assert forall|y: int| i <= y < a.len() implies precedes(keys@, k as int, #[trigger] a[y] as int) by {
                    if y > i {
                        assert(precedes(keys@, a[i as int] as int, a[y] as int));
                    }
                }
            }
            j = j + 1;
        }
    }
    proof {
        assert forall|k: int| lo <= k < hi implies #[trigger] holds_place(r@, k) by {
            if k < mid {
                assert(holds_place(a@, k));
                let x = choose|x: int| 0 <= x < a.len() && #[trigger] a[x] == k;
                let z = choose|z: int| 0 <= z < r.len() && #[trigger] r[z] == a[x];
                assert(r[z] == k);
            } else {
                assert(holds_place(b@, k));
                let x = choose|x: int| 0 <= x < b.len() && #[trigger] b[x] == k;
                let z = choose|z: int| 0 <= z < r.len() && #[trigger] r[z] == b[x];
                assert(r[z] == k);
            }
        }
    }
    r
}

fn sort_range(keys: &Vec<i128>, lo: usize, hi: usize) -> (r: Vec<usize>)
    requires
        lo <= hi <= keys.len(),
    ensures
        is_sorted_range(keys@, r@, lo as int, hi as int),
    decreases hi - lo,
{
    if hi - lo == 0 {
        Vec::new()
    } else if hi - lo == 1 {
        let mut r: Vec<usize> = Vec::new();
        r.push(lo);
        assert(r[0] == lo);
        r
    } else {
        let mid: usize = lo + (hi - lo) / 2;
        let a: Vec<usize> = sort_range(keys, lo, mid);
        let b: Vec<usize> = sort_range(keys, mid, hi);
        merge(keys, &a, &b, Ghost(lo as int), Ghost(mid as int), Ghost(hi as int))
    }
}

/// The places of `keys` in ascending order of their keys.
pub fn sort_ascending(keys: &Vec<i128>) -> (r: Vec<usize>)
    ensures
        is_ascending_order(keys@, r@),
        r@ == ascending_order(keys@),
{
    let r: Vec<usize> = sort_range(keys, 0, keys.len());
    proof {
        assert(is_ascending_order(keys@, r@));
        ascending_order_is_unique(keys@, r@, ascending_order(keys@));
    }
    r
}

/// Every list of keys has an ascending order.
pub proof fn ascending_order_exists(keys: Seq<i128>)
    requires
        keys.len() <= usize::MAX,
    ensures
        is_ascending_order(keys, ascending_order(keys)),
    decreases keys.len(),
{
    if keys.len() == 0 {
        assert(is_ascending_order(keys, Seq::<usize>::empty()));
    } else {
        let n = (keys.len() - 1) as int;
        let shorter = keys.drop_last();
        ascending_order_exists(shorter);
        let q = ascending_order(shorter);
        let at = insertion_place(keys, q, q.len());
        let p = q.subrange(0, at).push(n as usize) + q.subrange(at, q.len() as int);
        assert forall|i: int, j: int| 0 <= i < j < p.len() implies precedes(
            keys,
            #[trigger] p[i] as int,
            #[trigger] p[j] as int,
        ) by {
            let a = if i < at { i } else { i - 1 };
            let b = if j < at { j } else { j - 1 };
            if i != at && j != at {
                assert(p[i] == q[a] && p[j] == q[b]);
                assert(precedes(shorter, q[a] as int, q[b] as int));
            } else if j == at {
                assert(p[i] == q[i]);
                assert(keys[q[i] as int] <= keys[n]);
            } else {
                assert(p[j] == q[j - 1]);
                assert(keys[n] < keys[q[j - 1] as int]);
            }
        }
        assert forall|k: int| 0 <= k < keys.len() implies #[trigger] holds_place(p, k) by {
            if k == n {
                assert(p[at] == k);
            } else {
                assert(holds_place(q, k));
                let i = choose|i: int| 0 <= i < q.len() && #[trigger] q[i] == k;
                if i < at {
                    assert(p[i] == k);
                } else {
                    assert(p[i + 1] == k);
                }
            }
        }
        assert(is_ascending_order(keys, p));
    }
}

/// How many of the places in `q` have keys that do not exceed the last key.
proof fn insertion_place(keys: Seq<i128>, q: Seq<usize>, upto: nat) -> (at: int)
    requires
        keys.len() > 0,
        is_ascending_order(keys.drop_last(), q),
        upto <= q.len(),
        forall|i: int| upto <= i < q.len() ==> keys[keys.len() - 1] < keys[#[trigger] q[i] as int],
    ensures
        0 <= at <= q.len(),
        forall|i: int| 0 <= i < at ==> keys[#[trigger] q[i] as int] <= keys[keys.len() - 1],
        forall|i: int| at <= i < q.len() ==> keys[keys.len() - 1] < keys[#[trigger] q[i] as int],
    decreases upto,
{
    if upto == 0 {
        0
    } else if keys[q[upto - 1] as int] <= keys[keys.len() - 1] {
        assert forall|i: int| 0 <= i < upto implies keys[#[trigger] q[i] as int] <= keys[keys.len() - 1] by {
            if i < upto - 1 {
                assert(precedes(keys.drop_last(), q[i] as int, q[upto - 1] as int));
            }
        }
        upto as int
    } else {
        insertion_place(keys, q, (upto - 1) as nat)
    }
}

/// How many of the first `n` items come before item `i`.
pub open spec fn count_before(before: spec_fn(int, int) -> bool, i: int, n: int) -> int
    decreases n,
{
    if n <= 0 {
        0
    } else {
        count_before(before, i, n - 1) + if before(n - 1, i) {
            1int
        } else {
            0
        }
    }
}

/// For each of `n` items how many come before it: keys that put the items in their order.
pub open spec fn ranks(before: spec_fn(int, int) -> bool, n: nat) -> Seq<i128> {
    Seq::new(n, |i: int| count_before(before, i, n as int) as i128)
}

/// Whether an item comes before another is told by an order: of two at most one comes before the
/// other, and of an item that comes before another and any third, the first comes before the third
/// or the third before the second.
pub open spec fn is_weak_order(before: spec_fn(int, int) -> bool, n: int) -> bool {
    &&& forall|i: int, j: int|
        0 <= i < n && 0 <= j < n && #[trigger] before(i, j) ==> !before(j, i)
    &&& forall|i: int, j: int, k: int|
        0 <= i < n && 0 <= j < n && 0 <= k < n && #[trigger] before(i, j) ==> before(i, k)
            || #[trigger] before(k, j)
}

proof fn counts_are_bounded(before: spec_fn(int, int) -> bool, i: int, n: int)
    ensures
        0 <= count_before(before, i, n),
        n >= 0 ==> count_before(before, i, n) <= n,
    decreases n,
{
    if n > 0 {
        counts_are_bounded(before, i, n - 1);
    }
}

proof fn counts_follow(before: spec_fn(int, int) -> bool, n: int, i: int, j: int, upto: int)
    requires
        is_weak_order(before, n),
        0 <= i < n,
        0 <= j < n,
        0 <= upto <= n,
        !before(j, i),
    ensures
        count_before(before, i, upto) <= count_before(before, j, upto),
        before(i, j) && i < upto ==> count_before(before, i, upto) < count_before(before, j, upto),
    decreases upto,
{
    if upto > 0 {
        counts_follow(before, n, i, j, upto - 1);
        let k = upto - 1;
        if before(k, i) {
            assert(before(k, j) || before(j, i));
        }
    }
}

/// In the order of their ranks no item stands behind one that it comes before, and items of which
/// none comes before the other stand in the order of their places.
pub proof fn ranked_items_are_in_order(
    before: spec_fn(int, int) -> bool,
    n: nat,
    a: int,
    b: int,
)
    requires
        is_weak_order(before, n as int),
        n <= usize::MAX,
        0 <= a < b < n,
    ensures
        ({
            let order = ascending_order(ranks(before, n));
            &&& order[a] < n
            &&& order[b] < n
            &&& !before(order[b] as int, order[a] as int)
            &&& before(order[a] as int, order[b] as int) || order[a] < order[b]
        }),
{
    let keys = ranks(before, n);
    let order = ascending_order(keys);
    ascending_order_exists(keys);
    let (i, j) = (order[a] as int, order[b] as int);
    assert(precedes(keys, i, j));
    counts_are_bounded(before, i, n as int);
    counts_are_bounded(before, j, n as int);
    if before(j, i) {
        counts_follow(before, n as int, j, i, n as int);
    } else if !before(i, j) {
        counts_follow(before, n as int, i, j, n as int);
        counts_follow(before, n as int, j, i, n as int);
    }
}

/// A fraction that is larger than another is larger than any third, or the third is larger than
/// the other.
pub proof fn fractions_are_ordered(a: int, x: int, b: int, y: int, c: int, z: int)
    requires
        x > 0,
        y > 0,
        z > 0,
        a * y > b * x,
    ensures
        a * z > c * x || c * y > b * z,
{
    if a * z <= c * x && c * y <= b * z {
        assert(a * z * y <= c * x * y) by (nonlinear_arith)
            requires
                a * z <= c * x,
                y > 0,
        ;
        assert(c * y * x <= b * z * x) by (nonlinear_arith)
            requires
                c * y <= b * z,
                x > 0,
        ;
        assert(a * y * z > b * x * z) by (nonlinear_arith)
            requires
                a * y > b * x,
                z > 0,
        ;
        assert(a * z * y == a * y * z) by (nonlinear_arith);
        assert(c * x * y == c * y * x) by (nonlinear_arith);
        assert(b * z * x == b * x * z) by (nonlinear_arith);
    }
}

/// The ranks of `n` items, given which of two comes before the other.
pub(crate) fn rank_all<F: Fn(usize, usize) -> bool>(
    n: usize,
    comes_before: &F,
    Ghost(before): Ghost<spec_fn(int, int) -> bool>,
) -> (r: Vec<i128>)
    requires
        forall|i: usize, j: usize| i < n && j < n ==> #[trigger] call_requires(*comes_before, (i, j)),
        forall|i: usize, j: usize, r: bool|
            i < n && j < n && #[trigger] call_ensures(*comes_before, (i, j), r) ==> r == before(
                i as int,
                j as int,
            ),
    ensures
        r@ == ranks(before, n as nat),
{
    let mut r: Vec<i128> = Vec::with_capacity(n);
    let mut i: usize = 0;
    while i < n
        invariant
            i <= n,
            r.len() == i,
            forall|i: usize, j: usize| i < n && j < n ==> #[trigger] call_requires(*comes_before, (i, j)),
            forall|i: usize, j: usize, r: bool|
                i < n && j < n && #[trigger] call_ensures(*comes_before, (i, j), r) ==> r == before(
                    i as int,
                    j as int,
                ),
            forall|j: int| 0 <= j < i ==> #[trigger] r[j] == ranks(before, n as nat)[j],
        decreases n - i,
    {
        let mut count: i128 = 0;
        let mut j: usize = 0;
        while j < n
            invariant
                i < n,
                j <= n,
                forall|i: usize, j: usize|
                    i < n && j < n ==> #[trigger] call_requires(*comes_before, (i, j)),
                forall|i: usize, j: usize, r: bool|
                    i < n && j < n && #[trigger] call_ensures(*comes_before, (i, j), r) ==> r
                        == before(i as int, j as int),
                count == count_before(before, i as int, j as int),
                0 <= count <= j,
            decreases n - j,
        {
            if comes_before(j, i) {
                count = count + 1;
            }
            j = j + 1;
        }
        r.push(count);
        i = i + 1;
    }
    assert(r@ =~= ranks(before, n as nat));
    r
}

/// The items at the places `p`, in that order.
pub open spec fn at_places<T>(items: Seq<T>, p: Seq<usize>) -> Seq<T> {
    Seq::new(p.len(), |i: int| items[p[i] as int])
}

/// The items at the places `p`, in that order.
pub fn take_places<T: Copy>(items: &Vec<T>, p: &Vec<usize>) -> (r: Vec<T>)
    requires
        forall|i: int| 0 <= i < p.len() ==> #[trigger] p[i] < items.len(),
    ensures
        r@ == at_places(items@, p@),
{
    let mut r: Vec<T> = Vec::with_capacity(p.len());
    let mut i: usize = 0;
    while i < p.len()
        invariant
            i <= p.len(),
            forall|j: int| 0 <= j < p.len() ==> #[trigger] p[j] < items.len(),
            r.len() == i,
            forall|j: int| 0 <= j < i ==> #[trigger] r[j] == items[p[j] as int],
        decreases p.len() - i,
    {
        r.push(items[p[i]]);
        i = i + 1;
    }
    assert(r@ =~= at_places(items@, p@));
    r
}

/// The values as keys.
pub open spec fn keys_of(values: Seq<i64>) -> Seq<i128> {
    values.map_values(|v: i64| v as i128)
}

/// The values from the smallest to the largest.
pub open spec fn ascending(values: Seq<i64>) -> Seq<i64> {
    at_places(values, ascending_order(keys_of(values)))
}

/// The values from the smallest to the largest.
pub fn sorted(values: &Vec<i64>) -> (r: Vec<i64>)
    ensures
        r@ == ascending(values@),
        r.len() == values.len(),
        forall|i: int, j: int| 0 <= i <= j < r.len() ==> #[trigger] r[i] <= #[trigger] r[j],
        forall|i: int| 0 <= i < r.len() ==> values@.contains(#[trigger] r[i]),
        forall|i: int| 0 <= i < values.len() ==> r@.contains(#[trigger] values[i]),
{
    let mut keys: Vec<i128> = Vec::with_capacity(values.len());
    let mut i: usize = 0;
    while i < values.len()
        invariant
            i <= values.len(),
            keys.len() == i,
            forall|j: int| 0 <= j < i ==> #[trigger] keys[j] == values[j],
        decreases values.len() - i,
    {
        keys.push(values[i] as i128);
        i = i + 1;
    }
    assert(keys@ =~= keys_of(values@));
    let order: Vec<usize> = sort_ascending(&keys);
    let r: Vec<i64> = take_places(values, &order);
    proof {
        assert forall|i: int, j: int| 0 <= i <= j < r.len() implies #[trigger] r[i] <= #[trigger] r[j] by {
            if i < j {
                assert(precedes(keys@, order[i] as int, order[j] as int));
            }
        }
        assert forall|i: int| 0 <= i < values.len() implies r@.contains(#[trigger] values[i]) by {
            assert(holds_place(order@, i));
            let k = choose|k: int| 0 <= k < order.len() && #[trigger] order[k] == i;
            assert(r@[k] == values[i]);
        }
    }
    r
}

/// The middle value in ascending order; the upper one of the two of an even number of values.
pub open spec fn median(values: Seq<i64>) -> i64
    recommends
        values.len() > 0,
{
    ascending(values)[values.len() as int / 2]
}

/// The middle value in ascending order.
pub fn find_median(values: &Vec<i64>) -> (r: i64)
    requires
        values.len() > 0,
    ensures
        r == median(values@),
        values@.contains(r),
{
    let r: Vec<i64> = sorted(values);
    r[values.len() / 2]
}

/// The smallest of the values.
pub open spec fn least(values: Seq<i64>) -> i64
    recommends
        values.len() > 0,
    decreases values.len(),
{
    if values.len() <= 1 {
        values[0]
    } else {
        let rest = least(values.drop_last());
        if values.last() < rest {
            values.last()
        } else {
            rest
        }
    }
}

/// The smallest of the values.
pub fn find_least(values: &Vec<i64>) -> (r: i64)
    requires
        values.len() > 0,
    ensures
        r == least(values@),
        values@.contains(r),
        forall|i: int| 0 <= i < values.len() ==> r <= #[trigger] values[i],
{
    let mut r: i64 = values[0];
    let mut i: usize = 1;
    while i < values.len()
        invariant
            1 <= i <= values.len(),
            r == least(values@.take(i as int)),
            values@.contains(r),
            forall|j: int| 0 <= j < i ==> r <= #[trigger] values[j],
        decreases values.len() - i,
    {
        assert(values@.take(i as int + 1).drop_last() =~= values@.take(i as int));
        assert(values@.contains(values@[i as int]));
        if values[i] < r {
            r = values[i];
        }
        i = i + 1;
    }
    assert(values@.take(i as int) =~= values@);
    r
}

/// The place of the largest of the values, the last of equally large ones.
pub open spec fn last_greatest(values: Seq<i64>) -> int
    recommends
        values.len() > 0,
    decreases values.len(),
{
    if values.len() <= 1 {
        0
    } else {
        let before = last_greatest(values.drop_last());
        if values.last() >= values[before] {
            values.len() - 1
        } else {
            before
        }
    }
}

/// The place of the largest of the values, the last of equally large ones.
pub fn find_last_greatest(values: &Vec<i64>) -> (r: usize)
    requires
        values.len() > 0,
    ensures
        r == last_greatest(values@),
        r < values.len(),
        forall|i: int| 0 <= i < values.len() ==> #[trigger] values[i] <= values[r as int],
        forall|i: int| r < i < values.len() ==> #[trigger] values[i] < values[r as int],
{
    let mut r: usize = 0;
    let mut i: usize = 1;
    while i < values.len()
        invariant
            1 <= i <= values.len(),
            r < i,
            r == last_greatest(values@.take(i as int)),
            forall|j: int| 0 <= j < i ==> #[trigger] values[j] <= values[r as int],
            forall|j: int| r < j < i ==> #[trigger] values[j] < values[r as int],
        decreases values.len() - i,
    {
        assert(values@.take(i as int + 1).drop_last() =~= values@.take(i as int));
        if values[i] >= values[r] {
            r = i;
        }
        i = i + 1;
    }
    assert(values@.take(i as int) =~= values@);
    r
}

/// What is put in order by keys is all there, once each: the places are those of the items, no two
/// the same, and the keys never fall.
pub proof fn ordered_items_are_the_items<T>(items: Seq<T>, keys: Seq<i128>)
    requires
        items.len() == keys.len(),
        keys.len() <= usize::MAX,
    ensures
        ({
            let p = ascending_order(keys);
            let r = at_places(items, p);
            &&& r.len() == items.len()
            &&& p.len() == items.len()
            &&& forall|i: int| 0 <= i < r.len() ==> p[i] < items.len() && #[trigger] r[i]
                == items[p[i] as int]
            &&& forall|i: int, j: int| 0 <= i < j < p.len() ==> #[trigger] p[i] != #[trigger] p[j]
            &&& forall|i: int, j: int|
                0 <= i <= j < p.len() ==> keys[#[trigger] p[i] as int] <= keys[#[trigger] p[j] as int]
            &&& forall|k: int| 0 <= k < items.len() ==> r.contains(#[trigger] items[k])
            &&& forall|i: int| 0 <= i < r.len() ==> items.contains(#[trigger] r[i])
        }),
{
    ascending_order_exists(keys);
    let p = ascending_order(keys);
    let r = at_places(items, p);
    assert forall|i: int, j: int| 0 <= i < j < p.len() implies #[trigger] p[i] != #[trigger] p[j] by {
        assert(precedes(keys, p[i] as int, p[j] as int));
    }
    assert forall|i: int, j: int| 0 <= i <= j < p.len() implies keys[#[trigger] p[i] as int]
        <= keys[#[trigger] p[j] as int] by {
        if i < j {
            assert(precedes(keys, p[i] as int, p[j] as int));
        }
    }
    assert forall|k: int| 0 <= k < items.len() implies r.contains(#[trigger] items[k]) by {
        assert(holds_place(p, k));
        let i = choose|i: int| 0 <= i < p.len() && #[trigger] p[i] == k;
        assert(r[i] == items[k]);
    }
    assert forall|i: int| 0 <= i < r.len() implies items.contains(#[trigger] r[i]) by {
        assert(items[p[i] as int] == r[i]);
    }
}

/// The places at which the values are smaller than `v`.
pub open spec fn places_below(values: Seq<i64>, v: int) -> Set<int> {
    Set::new(|i: int| 0 <= i < values.len() && values[i] < v)
}

/// The places at which the values are larger than `v`.
pub open spec fn places_above(values: Seq<i64>, v: int) -> Set<int> {
    Set::new(|i: int| 0 <= i < values.len() && values[i] > v)
}

/// The median is one of the values, at most half of them are smaller and fewer than half larger.
pub proof fn medians_lie_in_the_middle(values: Seq<i64>)
    requires
        0 < values.len() <= usize::MAX,
    ensures
        values.contains(median(values)),
        places_below(values, median(values) as int).finite(),
        2 * places_below(values, median(values) as int).len() <= values.len(),
        places_above(values, median(values) as int).finite(),
        2 * places_above(values, median(values) as int).len() < values.len(),
{
    let keys = keys_of(values);
    let n = values.len() as int;
    ordered_items_are_the_items(values, keys);
    ascending_order_exists(keys);
    let p = ascending_order(keys);
    let m = median(values) as int;
    let f = |k: int| p[k] as int;
    assert(m == values[p[n / 2] as int]);
    let low = vstd::set_lib::set_int_range(0, n / 2);
    vstd::set_lib::lemma_int_range(0, n / 2);
    vstd::set_lib::lemma_map_size_bound(low, low.map(f), f);
    assert(places_below(values, m).subset_of(low.map(f))) by {
        assert forall|i: int| places_below(values, m).contains(i) implies low.map(f).contains(i) by {
            assert(holds_place(p, i));
            let k = choose|k: int| 0 <= k < p.len() && #[trigger] p[k] == i;
            if k >= n / 2 {
                assert(keys[p[n / 2] as int] <= keys[p[k] as int]);
            }
            assert(low.contains(k) && f(k) == i);
        }
    }
    vstd::set_lib::lemma_len_subset(places_below(values, m), low.map(f));
    let high = vstd::set_lib::set_int_range(n / 2 + 1, n);
    vstd::set_lib::lemma_int_range(n / 2 + 1, n);
    vstd::set_lib::lemma_map_size_bound(high, high.map(f), f);
    assert(places_above(values, m).subset_of(high.map(f))) by {
        assert forall|i: int| places_above(values, m).contains(i) implies high.map(f).contains(i) by {
            assert(holds_place(p, i));
            let k = choose|k: int| 0 <= k < p.len() && #[trigger] p[k] == i;
            if k <= n / 2 {
                assert(keys[p[k] as int] <= keys[p[n / 2] as int]);
            }
            assert(high.contains(k) && f(k) == i);
        }
    }
    vstd::set_lib::lemma_len_subset(places_above(values, m), high.map(f));
}

/// The least value is one of the values, and none is smaller.
pub proof fn least_values_are_least(values: Seq<i64>)
    requires
        values.len() > 0,
    ensures
        values.contains(least(values)),
        forall|i: int| 0 <= i < values.len() ==> least(values) <= #[trigger] values[i],
    decreases values.len(),
{
    if values.len() == 1 {
        assert(values[0] == least(values));
    } else {
        let t = values.drop_last();
        least_values_are_least(t);
        let k = choose|k: int| 0 <= k < t.len() && t[k] == least(t);
        assert(values[k] == least(t));
        assert(values[values.len() - 1] == values.last());
        assert forall|i: int| 0 <= i < values.len() implies least(values) <= #[trigger] values[i] by {
            if i < t.len() {
                assert(t[i] == values[i]);
            }
        }
    }
}

/// The greatest value stands at the place given for it: none is larger, and none behind it is as
/// large.
pub proof fn greatest_values_are_greatest(values: Seq<i64>)
    requires
        values.len() > 0,
    ensures
        0 <= last_greatest(values) < values.len(),
        forall|i: int|
            0 <= i < values.len() ==> #[trigger] values[i] <= values[last_greatest(values)],
        forall|i: int|
            last_greatest(values) < i < values.len() ==> #[trigger] values[i]
                < values[last_greatest(values)],
    decreases values.len(),
{
    if values.len() > 1 {
        let t = values.drop_last();
        greatest_values_are_greatest(t);
        assert forall|i: int| 0 <= i < values.len() implies #[trigger] values[i]
            <= values[last_greatest(values)] by {
            if i < t.len() {
                assert(t[i] == values[i]);
            }
        }
        assert forall|i: int| last_greatest(values) < i < values.len() implies #[trigger] values[i]
            < values[last_greatest(values)] by {
            if i < t.len() {
                assert(t[i] == values[i]);
            }
        }
    }
}


/// Of the values in ascending order the one at place `k` has at most `k` smaller ones, and at most as
/// many larger ones as come behind it.
pub proof fn ranked_values_split_the_others(values: Seq<i64>, k: int)
    requires
        0 <= k < values.len() <= usize::MAX,
    ensures
        ascending(values).len() == values.len(),
        values.contains(ascending(values)[k]),
        places_below(values, ascending(values)[k] as int).finite(),
        places_below(values, ascending(values)[k] as int).len() <= k,
        places_above(values, ascending(values)[k] as int).finite(),
        places_above(values, ascending(values)[k] as int).len() <= values.len() - 1 - k,
{
    let keys = keys_of(values);
    let n = values.len() as int;
    ordered_items_are_the_items(values, keys);
    ascending_order_exists(keys);
    let p = ascending_order(keys);
    let m = ascending(values)[k] as int;
    let f = |j: int| p[j] as int;
    assert(m == values[p[k] as int]);
    let low = vstd::set_lib::set_int_range(0, k);
    vstd::set_lib::lemma_int_range(0, k);
    vstd::set_lib::lemma_map_size_bound(low, low.map(f), f);
    assert(places_below(values, m).subset_of(low.map(f))) by {
        assert forall|i: int| places_below(values, m).contains(i) implies low.map(f).contains(i) by {
            assert(holds_place(p, i));
            let j = choose|j: int| 0 <= j < p.len() && #[trigger] p[j] == i;
            if j >= k {
                assert(keys[p[k] as int] <= keys[p[j] as int]);
            }
            assert(low.contains(j) && f(j) == i);
        }
    }
    vstd::set_lib::lemma_len_subset(places_below(values, m), low.map(f));
    let high = vstd::set_lib::set_int_range(k + 1, n);
    vstd::set_lib::lemma_int_range(k + 1, n);
    vstd::set_lib::lemma_map_size_bound(high, high.map(f), f);
    assert(places_above(values, m).subset_of(high.map(f))) by {
        assert forall|i: int| places_above(values, m).contains(i) implies high.map(f).contains(i) by {
            assert(holds_place(p, i));
            let j = choose|j: int| 0 <= j < p.len() && #[trigger] p[j] == i;
            if j <= k {
                assert(keys[p[j] as int] <= keys[p[k] as int]);
            }
            assert(high.contains(j) && f(j) == i);
        }
    }
    vstd::set_lib::lemma_len_subset(places_above(values, m), high.map(f));
}


/// Items with equal keys keep their order, and one with a smaller key comes first.
pub proof fn equal_items_keep_their_order(keys: Seq<i128>, i: int, j: int)
    requires
        keys.len() <= usize::MAX,
        0 <= i < j < keys.len(),
    ensures
        ({
            let p = ascending_order(keys);
            let (a, b) = (p[i] as int, p[j] as int);
            &&& keys[a] <= keys[b]
            &&& keys[a] == keys[b] ==> a < b
        }),
{
    ascending_order_exists(keys);
    let p = ascending_order(keys);
    assert(precedes(keys, p[i] as int, p[j] as int));
}

} // verus!
