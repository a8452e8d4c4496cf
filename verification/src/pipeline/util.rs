//! What several stages share.

use vstd::prelude::*;
use vstd::string::*;

use super::stage::{
    is_exhausted, CircleFeature, DetectedFeatures, FeaturesView, LinePair, StageOutcome,
};
use crate::fixed::{abs, abs_exec, floor_div, max, root};
use crate::order::{
    ascending_order, at_places, find_median, median, sort_ascending, take_places,
};
use crate::stats::{spread, spread_of, sum, total, wide, widened};
use crate::text::{
    decimal, fixed_decimal, plain_decimal, push_fixed, push_number, push_plain, push_root,
    push_signed_ratio, root_decimal, signed_ratio_decimal,
};
use crate::wide::{fitted, Integer, Natural};

verus! {

/// Padding above the top line, as a fraction of the distance between the lines.
pub const TOP_PADDING_FRAC: i64 = 500_000;

/// A line by the length and the angle of its normal.
#[derive(Debug, Clone, Copy, PartialEq, Eq, Structural)]
pub struct HoughLine {
    pub rho: i64,
    pub theta: i64,
}

/// The lines' distances from the origin as keys.
pub open spec fn rho_keys(lines: Seq<HoughLine>) -> Seq<i128> {
    lines.map_values(|l: HoughLine| l.rho as i128)
}

/// The lines from the nearest to the farthest.
pub open spec fn by_rho(lines: Seq<HoughLine>) -> Seq<HoughLine> {
    at_places(lines, ascending_order(rho_keys(lines)))
}

/// The sum of the lines' distances.
pub open spec fn rho_sum(c: Seq<HoughLine>) -> int
    decreases c.len(),
{
    if c.len() == 0 {
        0
    } else {
        rho_sum(c.drop_last()) + c.last().rho
    }
}

/// The sum of the lines' angles.
pub open spec fn theta_sum(c: Seq<HoughLine>) -> int
    decreases c.len(),
{
    if c.len() == 0 {
        0
    } else {
        theta_sum(c.drop_last()) + c.last().theta
    }
}

/// A line at `rho` belongs to the cluster: it is at most `threshold` from the cluster's mean.
pub open spec fn belongs(c: Seq<HoughLine>, rho: int, threshold: int) -> bool {
    abs(rho * c.len() - rho_sum(c)) <= threshold * c.len()
}

/// The first cluster from `from` on that a line at `rho` belongs to.
pub open spec fn cluster_for(
    clusters: Seq<Seq<HoughLine>>,
    rho: int,
    threshold: int,
    from: int,
) -> Option<int>
    decreases clusters.len() - from,
{
    if from >= clusters.len() {
        None
    } else if belongs(clusters[from], rho, threshold) {
        Some(from)
    } else {
        cluster_for(clusters, rho, threshold, from + 1)
    }
}

/// The clusters of lines that come in the order of their distances: each line joins the first
/// cluster that it belongs to, or starts one of its own.
pub open spec fn clusters_of(lines: Seq<HoughLine>, threshold: int) -> Seq<Seq<HoughLine>>
    decreases lines.len(),
{
    if lines.len() == 0 {
        Seq::empty()
    } else {
        let before = clusters_of(lines.drop_last(), threshold);
        let line = lines.last();
        match cluster_for(before, line.rho as int, threshold, 0) {
            Some(k) => before.update(k, before[k].push(line)),
            None => before.push(seq![line]),
        }
    }
}

/// What a list of clusters holds.
pub open spec fn cluster_view(c: Seq<Vec<HoughLine>>) -> Seq<Seq<HoughLine>> {
    c.map_values(|v: Vec<HoughLine>| v@)
}

/// The sum of the lines' distances.
pub fn sum_rho(c: &Vec<HoughLine>) -> (r: i128)
    ensures
        r == rho_sum(c@),
        -0x8000_0000_0000_0000 * c.len() <= r <= 0x7fff_ffff_ffff_ffff * c.len(),
{
    let mut r: i128 = 0;
    let mut i: usize = 0;
    assert(c@.take(0) =~= Seq::empty());
    while i < c.len()
        invariant
            i <= c.len(),
            r == rho_sum(c@.take(i as int)),
            -0x8000_0000_0000_0000 * i <= r <= 0x7fff_ffff_ffff_ffff * i,
        decreases c.len() - i,
    {
        assert(c@.take(i as int + 1).drop_last() =~= c@.take(i as int));
        r = r + c[i].rho as i128;
        i = i + 1;
    }
    assert(c@.take(i as int) =~= c@);
    r
}

/// The sum of the lines' angles.
pub fn sum_theta(c: &Vec<HoughLine>) -> (r: i128)
    ensures
        r == theta_sum(c@),
        -0x8000_0000_0000_0000 * c.len() <= r <= 0x7fff_ffff_ffff_ffff * c.len(),
{
    let mut r: i128 = 0;
    let mut i: usize = 0;
    assert(c@.take(0) =~= Seq::empty());
    while i < c.len()
        invariant
            i <= c.len(),
            r == theta_sum(c@.take(i as int)),
            -0x8000_0000_0000_0000 * i <= r <= 0x7fff_ffff_ffff_ffff * i,
        decreases c.len() - i,
    {
        assert(c@.take(i as int + 1).drop_last() =~= c@.take(i as int));
        r = r + c[i].theta as i128;
        i = i + 1;
    }
    assert(c@.take(i as int) =~= c@);
    r
}

fn does_belong(c: &Vec<HoughLine>, rho: i64, threshold: i64) -> (r: bool)
    ensures
        r == belongs(c@, rho as int, threshold as int),
{
    let n: Integer = Integer::new(c.len() as i128);
    let d: Integer = Integer::new(rho as i128).times(&n).minus(&Integer::new(sum_rho(c)));
    let limit: Integer = Integer::new(threshold as i128).times(&n);
    if d.is_negative() {
        !limit.is_less(&d.opposite())
    } else {
        !limit.is_less(&d)
    }
}

fn find_cluster(clusters: &Vec<Vec<HoughLine>>, rho: i64, threshold: i64) -> (r: Option<usize>)
    ensures
        cluster_for(cluster_view(clusters@), rho as int, threshold as int, 0) == (match r {
            Some(k) => Some(k as int),
            None => None,
        }),
        r matches Some(k) ==> k < clusters.len(),
{
    let ghost view = cluster_view(clusters@);
    let mut k: usize = 0;
    while k < clusters.len()
        invariant
            k <= clusters.len(),
            view == cluster_view(clusters@),
            cluster_for(view, rho as int, threshold as int, 0) == cluster_for(
                view,
                rho as int,
                threshold as int,
                k as int,
            ),
        decreases clusters.len() - k,
    {
        assert(view[k as int] == clusters[k as int]@);
        if does_belong(&clusters[k], rho, threshold) {
            return Some(k);
        }
        k = k + 1;
    }
    None
}

/// Clusters lines by their distance from the origin.
pub fn cluster_by_rho(lines: &Vec<HoughLine>, threshold: i64) -> (r: Vec<Vec<HoughLine>>)
    ensures
        cluster_view(r@) == clusters_of(by_rho(lines@), threshold as int),
        forall|k: int| 0 <= k < r.len() ==> 0 < (#[trigger] r[k])@.len() <= lines.len(),
        r.len() <= lines.len(),
{
    let mut keys: Vec<i128> = Vec::new();
    let mut k: usize = 0;
    while k < lines.len()
        invariant
            k <= lines.len(),
            keys.len() == k,
            forall|j: int| 0 <= j < k ==> #[trigger] keys[j] == lines[j].rho,
        decreases lines.len() - k,
    {
        keys.push(lines[k].rho as i128);
        k = k + 1;
    }
    assert(keys@ =~= rho_keys(lines@));
    let ranked: Vec<HoughLine> = take_places(lines, &sort_ascending(&keys));
    let mut clusters: Vec<Vec<HoughLine>> = Vec::new();
    let mut i: usize = 0;
    assert(ranked@.take(0) =~= Seq::empty());
    assert(cluster_view(clusters@) =~= Seq::empty());
    while i < ranked.len()
        invariant
            ranked.len() == lines.len(),
            i <= ranked.len(),
            clusters.len() <= i,
            cluster_view(clusters@) == clusters_of(ranked@.take(i as int), threshold as int),
            forall|k: int| 0 <= k < clusters.len() ==> 0 < (#[trigger] clusters[k])@.len() <= i,
        decreases ranked.len() - i,
    {
        let line: HoughLine = ranked[i];
        let ghost before = clusters@;
        let ghost view = cluster_view(clusters@);
        assert(ranked@.take(i as int + 1).drop_last() =~= ranked@.take(i as int));
        match find_cluster(&clusters, line.rho, threshold) {
            Some(at) => {
                let mut cluster: Vec<HoughLine> = Vec::new();
                core::mem::swap(&mut cluster, &mut clusters[at]);
                assert(cluster@ == before[at as int]@);
                cluster.push(line);
                clusters.set(at, cluster);
                assert(cluster_view(clusters@) =~= view.update(at as int, view[at as int].push(line)));
                assert forall|k: int| 0 <= k < clusters.len() implies 0 < (#[trigger] clusters[k])@.len()
                    <= i + 1 by {
                    if k != at {
                        assert(clusters[k] == before[k]);
                    } else {
                        assert(before[k]@.len() <= i);
                    }
                }
            },
            None => {
                let mut cluster: Vec<HoughLine> = Vec::new();
                cluster.push(line);
                let ghost single = cluster@;
                assert(single =~= seq![line]);
                clusters.push(cluster);
                assert(cluster_view(clusters@) =~= view.push(seq![line]));
                assert forall|k: int| 0 <= k < clusters.len() implies 0 < (#[trigger] clusters[k])@.len()
                    <= i + 1 by {
                    if k < before.len() {
                        assert(clusters[k] == before[k]);
                    }
                }
            },
        }
        i = i + 1;
    }
    assert(ranked@.take(i as int) =~= ranked@);
    clusters
}

/// The mean distance and the mean angle of a cluster.
pub open spec fn cluster_mean(c: Seq<HoughLine>) -> (int, int) {
    (rho_sum(c) / c.len() as int, theta_sum(c) / c.len() as int)
}

proof fn means_are_bounded(s: int, n: int)
    requires
        n > 0,
        -0x8000_0000_0000_0000 * n <= s <= 0x7fff_ffff_ffff_ffff * n,
    ensures
        -0x8000_0000_0000_0000 <= s / n <= 0x7fff_ffff_ffff_ffff,
{
    assert(-0x8000_0000_0000_0000 <= s / n <= 0x7fff_ffff_ffff_ffff) by (nonlinear_arith)
        requires
            n > 0,
            -0x8000_0000_0000_0000 * n <= s <= 0x7fff_ffff_ffff_ffff * n,
    ;
}

/// The mean distance and the mean angle of a cluster.
pub fn cluster_average(cluster: &Vec<HoughLine>) -> (r: HoughLine)
    requires
        cluster.len() > 0,
    ensures
        (r.rho as int, r.theta as int) == cluster_mean(cluster@),
{
    let n: i128 = cluster.len() as i128;
    let rho: i128 = sum_rho(cluster);
    let theta: i128 = sum_theta(cluster);
    proof {
        means_are_bounded(rho as int, n as int);
        means_are_bounded(theta as int, n as int);
    }
    HoughLine { rho: floor_div(rho, n) as i64, theta: floor_div(theta, n) as i64 }
}

/// The distances between the lines of a pair at its two ends, together.
pub open spec fn line_distances(lines: LinePair) -> int {
    abs(lines.bottom.y1 - lines.top.y1) + abs(lines.bottom.y2 - lines.top.y2)
}

/// The distances between the lines of a pair at its two ends, together.
pub fn add_line_distances(lines: &LinePair) -> (r: i128)
    ensures
        r == line_distances(*lines),
        0 <= r <= 0x2_0000_0000_0000_0000,
{
    let left: i128 = abs_exec(lines.bottom.y1 as i128 - lines.top.y1 as i128);
    let right: i128 = abs_exec(lines.bottom.y2 as i128 - lines.top.y2 as i128);
    left + right
}

/// The mean distance between the lines of a pair.
pub fn inter_line_distance(lines: &LinePair) -> (r: i128)
    ensures
        r == line_distances(*lines) / 2,
{
    add_line_distances(lines) / 2
}

/// The radii of some knobs.
pub open spec fn knob_radii(knobs: Seq<CircleFeature>) -> Seq<i64> {
    knobs.map_values(|k: CircleFeature| k.radius)
}

/// The horizontal centers of some knobs.
pub open spec fn knob_xs(knobs: Seq<CircleFeature>) -> Seq<i64> {
    knobs.map_values(|k: CircleFeature| k.center_x)
}

/// The vertical centers of some knobs.
pub open spec fn knob_ys(knobs: Seq<CircleFeature>) -> Seq<i64> {
    knobs.map_values(|k: CircleFeature| k.center_y)
}

/// The radii of some knobs.
pub fn collect_radii(knobs: &Vec<CircleFeature>) -> (r: Vec<i64>)
    ensures
        r@ == knob_radii(knobs@),
{
    let mut r: Vec<i64> = Vec::with_capacity(knobs.len());
    let mut i: usize = 0;
    while i < knobs.len()
        invariant
            i <= knobs.len(),
            r.len() == i,
            forall|j: int| 0 <= j < i ==> #[trigger] r[j] == knobs[j].radius,
        decreases knobs.len() - i,
    {
        r.push(knobs[i].radius);
        i = i + 1;
    }
    assert(r@ =~= knob_radii(knobs@));
    r
}

/// The horizontal centers of some knobs.
pub fn collect_xs(knobs: &Vec<CircleFeature>) -> (r: Vec<i64>)
    ensures
        r@ == knob_xs(knobs@),
{
    let mut r: Vec<i64> = Vec::with_capacity(knobs.len());
    let mut i: usize = 0;
    while i < knobs.len()
        invariant
            i <= knobs.len(),
            r.len() == i,
            forall|j: int| 0 <= j < i ==> #[trigger] r[j] == knobs[j].center_x,
        decreases knobs.len() - i,
    {
        r.push(knobs[i].center_x);
        i = i + 1;
    }
    assert(r@ =~= knob_xs(knobs@));
    r
}

/// The vertical centers of some knobs.
pub fn collect_ys(knobs: &Vec<CircleFeature>) -> (r: Vec<i64>)
    ensures
        r@ == knob_ys(knobs@),
{
    let mut r: Vec<i64> = Vec::with_capacity(knobs.len());
    let mut i: usize = 0;
    while i < knobs.len()
        invariant
            i <= knobs.len(),
            r.len() == i,
            forall|j: int| 0 <= j < i ==> #[trigger] r[j] == knobs[j].center_y,
        decreases knobs.len() - i,
    {
        r.push(knobs[i].center_y);
        i = i + 1;
    }
    assert(r@ =~= knob_ys(knobs@));
    r
}

/// The radius in the middle of some knobs.
pub fn median_radius(knobs: &Vec<CircleFeature>) -> (r: i64)
    requires
        knobs.len() > 0,
    ensures
        r == median(knob_radii(knobs@)),
        knob_radii(knobs@).contains(r),
{
    find_median(&collect_radii(knobs))
}

/// The tiles per side for contrast enhancement: one for each 32 pixels, between four and eight.
pub fn enhancement_tiles(side: i32) -> (r: i32)
    requires
        side >= 0,
    ensures
        r == (if side < 128 {
            4
        } else if side >= 256 {
            8
        } else {
            side / 32
        }),
{
    let tiles: i32 = side / 32;
    if tiles < 4 {
        4
    } else if tiles > 8 {
        8
    } else {
        tiles
    }
}

/// How many lines the clusters hold together.
pub open spec fn lines_held(clusters: Seq<Seq<HoughLine>>) -> int
    decreases clusters.len(),
{
    if clusters.len() == 0 {
        0
    } else {
        lines_held(clusters.drop_last()) + clusters.last().len()
    }
}

proof fn growing_a_cluster_adds_a_line(clusters: Seq<Seq<HoughLine>>, k: int, line: HoughLine)
    requires
        0 <= k < clusters.len(),
    ensures
        lines_held(clusters.update(k, clusters[k].push(line))) == lines_held(clusters) + 1,
    decreases clusters.len(),
{
    let grown = clusters.update(k, clusters[k].push(line));
    if k == clusters.len() - 1 {
        assert(grown.drop_last() =~= clusters.drop_last());
    } else {
        growing_a_cluster_adds_a_line(clusters.drop_last(), k, line);
        assert(grown.drop_last() =~= clusters.drop_last().update(k, clusters[k].push(line)));
    }
}

proof fn found_clusters_exist(
    clusters: Seq<Seq<HoughLine>>,
    rho: int,
    threshold: int,
    from: int,
)
    requires
        0 <= from,
    ensures
        cluster_for(clusters, rho, threshold, from) matches Some(k) ==> from <= k < clusters.len(),
    decreases clusters.len() - from,
{
    if from < clusters.len() {
        found_clusters_exist(clusters, rho, threshold, from + 1);
    }
}

/// Clustering loses no line and repeats none.
pub proof fn clusters_hold_every_line(lines: Seq<HoughLine>, threshold: int)
    ensures
        lines_held(clusters_of(lines, threshold)) == lines.len(),
    decreases lines.len(),
{
    if lines.len() > 0 {
        let before = clusters_of(lines.drop_last(), threshold);
        let line = lines.last();
        clusters_hold_every_line(lines.drop_last(), threshold);
        found_clusters_exist(before, line.rho as int, threshold, 0);
        match cluster_for(before, line.rho as int, threshold, 0) {
            Some(k) => {
                growing_a_cluster_adds_a_line(before, k, line);
            },
            None => {
                assert(before.push(seq![line]).drop_last() =~= before);
            },
        }
    }
}

/// The sums of some lines are those of their parts, and of a single line they are its own.
pub proof fn line_sums_add_up(a: Seq<HoughLine>, b: Seq<HoughLine>, line: HoughLine)
    ensures
        rho_sum(a + b) == rho_sum(a) + rho_sum(b),
        theta_sum(a + b) == theta_sum(a) + theta_sum(b),
        rho_sum(seq![line]) == line.rho,
        theta_sum(seq![line]) == line.theta,
    decreases b.len(),
{
    reveal_with_fuel(rho_sum, 2);
    reveal_with_fuel(theta_sum, 2);
    assert(seq![line].drop_last() =~= Seq::<HoughLine>::empty());
    if b.len() == 0 {
        assert(a + b =~= a);
    } else {
        line_sums_add_up(a, b.drop_last(), line);
        assert((a + b).drop_last() =~= a + b.drop_last());
    }
}

proof fn line_sums_are_bounded(c: Seq<HoughLine>, low: int, high: int)
    requires
        forall|i: int| 0 <= i < c.len() ==> low <= (#[trigger] c[i]).rho <= high,
    ensures
        low * c.len() <= rho_sum(c) <= high * c.len(),
    decreases c.len(),
{
    if c.len() > 0 {
        let t = c.drop_last();
        assert forall|i: int| 0 <= i < t.len() implies low <= (#[trigger] t[i]).rho <= high by {
            assert(c[i] == t[i]);
        }
        line_sums_are_bounded(t, low, high);
        assert(low <= c[c.len() - 1].rho <= high);
        assert(low * (t.len() + 1) == low * t.len() + low && high * (t.len() + 1) == high * t.len()
            + high) by (nonlinear_arith);
    } else {
        assert(low * 0 == 0 && high * 0 == 0) by (nonlinear_arith);
    }
}

/// A line belongs to a cluster whose lines all lie within the threshold of it, and to none whose
/// lines all lie farther away on one side.
pub proof fn lines_belong_to_near_clusters(
    c: Seq<HoughLine>,
    rho: int,
    threshold: int,
    low: int,
    high: int,
)
    requires
        c.len() > 0,
        forall|i: int| 0 <= i < c.len() ==> low <= (#[trigger] c[i]).rho <= high,
    ensures
        rho - threshold <= low && high <= rho + threshold ==> belongs(c, rho, threshold),
        high < rho - threshold || low > rho + threshold ==> !belongs(c, rho, threshold),
{
    line_sums_are_bounded(c, low, high);
    let n = c.len() as int;
    let s = rho_sum(c);
    if rho - threshold <= low && high <= rho + threshold {
        assert(rho * n - s <= threshold * n && s - rho * n <= threshold * n) by (nonlinear_arith)
            requires
                low * n <= s <= high * n,
                rho - threshold <= low,
                high <= rho + threshold,
                n > 0,
        ;
    }
    if high < rho - threshold {
        assert(rho * n - s > threshold * n) by (nonlinear_arith)
            requires
                s <= high * n,
                high < rho - threshold,
                n > 0,
        ;
    }
    if low > rho + threshold {
        assert(s - rho * n > threshold * n) by (nonlinear_arith)
            requires
                low * n <= s,
                low > rho + threshold,
                n > 0,
        ;
    }
}

/// A line joins the first cluster that it belongs to, and starts its own where it belongs to none.
pub proof fn lines_join_the_first_cluster(
    clusters: Seq<Seq<HoughLine>>,
    rho: int,
    threshold: int,
    from: int,
)
    requires
        0 <= from,
    ensures
        match cluster_for(clusters, rho, threshold, from) {
            Some(k) => {
                &&& from <= k < clusters.len()
                &&& belongs(clusters[k], rho, threshold)
                &&& forall|j: int|
                    from <= j < k ==> !belongs(#[trigger] clusters[j], rho, threshold)
            },
            None => forall|j: int|
                from <= j < clusters.len() ==> !belongs(#[trigger] clusters[j], rho, threshold),
        },
    decreases clusters.len() - from,
{
    if from < clusters.len() {
        lines_join_the_first_cluster(clusters, rho, threshold, from + 1);
    }
}

/// The lines are clustered from the top of the image down.
pub proof fn lines_are_taken_from_the_top(lines: Seq<HoughLine>)
    requires
        lines.len() <= usize::MAX,
    ensures
        by_rho(lines).len() == lines.len(),
        forall|i: int, j: int|
            0 <= i <= j < lines.len() ==> (#[trigger] by_rho(lines)[i]).rho <= (
            #[trigger] by_rho(lines)[j]).rho,
        forall|i: int| 0 <= i < lines.len() ==> by_rho(lines).contains(#[trigger] lines[i]),
        forall|i: int| 0 <= i < lines.len() ==> lines.contains(#[trigger] by_rho(lines)[i]),
{
    crate::order::ordered_items_are_the_items(lines, rho_keys(lines));
    let p = crate::order::ascending_order(rho_keys(lines));
    assert forall|i: int, j: int| 0 <= i <= j < lines.len() implies (
    #[trigger] by_rho(lines)[i]).rho <= (#[trigger] by_rho(lines)[j]).rho by {
        assert(rho_keys(lines)[p[i] as int] <= rho_keys(lines)[p[j] as int]);
    }
}

/// What a row of knobs has to satisfy.
#[derive(Debug, Clone, Copy, PartialEq, Eq, Structural)]
pub struct SanityThresholds {
    pub y_tolerance_px: i64,
    pub min_x_gap_px: i64,
    pub max_gap_cv: i64,
    pub max_radius_factor: i64,
    pub expected_knobs: usize,
    /// Knobs may overlap.
    pub skip_overlap: bool,
}

/// What was measured of a row of knobs. Gaps and distances are missing for a single knob.
#[derive(Debug, Clone, Copy, PartialEq, Eq)]
pub struct SanityMeasurements {
    pub max_y_dev: i128,
    pub min_x_gap: Option<i128>,
    pub gap_cv: Option<i128>,
    pub min_pair_dist: Option<i128>,
    pub median_r: i64,
    pub r_cv: i128,
}

/// The largest distance of a value from `from`.
pub open spec fn largest_distance(values: Seq<i64>, from: int) -> int
    decreases values.len(),
{
    if values.len() == 0 {
        0
    } else {
        max(largest_distance(values.drop_last(), from), abs(values.last() - from))
    }
}

/// The distances from each value to the next.
pub open spec fn gaps(values: Seq<i64>) -> Seq<i128>
    recommends
        values.len() > 0,
{
    Seq::new((values.len() - 1) as nat, |i: int| (values[i + 1] - values[i]) as i128)
}

/// The smallest of the values.
pub open spec fn least_of(values: Seq<i128>) -> i128
    recommends
        values.len() > 0,
    decreases values.len(),
{
    if values.len() <= 1 {
        values[0]
    } else {
        let rest = least_of(values.drop_last());
        if values.last() < rest {
            values.last()
        } else {
            rest
        }
    }
}

/// The first place from `from` on whose value is less than `limit`.
pub open spec fn first_below(values: Seq<i128>, limit: int, from: int) -> Option<int>
    decreases values.len() - from,
{
    if from >= values.len() {
        None
    } else if values[from] < limit {
        Some(from)
    } else {
        first_below(values, limit, from + 1)
    }
}

/// The square of the distance of two knobs.
pub open spec fn square_distance(a: CircleFeature, b: CircleFeature) -> int {
    (b.center_x - a.center_x) * (b.center_x - a.center_x) + (b.center_y - a.center_y) * (b.center_y
        - a.center_y)
}

/// Two knobs overlap: their centers are nearer than their radii together.
pub open spec fn overlap(a: CircleFeature, b: CircleFeature) -> bool {
    let s = a.radius + b.radius;
    s > 0 && square_distance(a, b) < s * s
}

/// The first knob from `j` on that overlaps knob `i`.
pub open spec fn first_overlap_with(knobs: Seq<CircleFeature>, i: int, j: int) -> Option<int>
    decreases knobs.len() - j,
{
    if j >= knobs.len() {
        None
    } else if overlap(knobs[i], knobs[j]) {
        Some(j)
    } else {
        first_overlap_with(knobs, i, j + 1)
    }
}

/// The first two knobs that overlap, from knob `i` on.
pub open spec fn first_overlap(knobs: Seq<CircleFeature>, i: int) -> Option<(int, int)>
    decreases knobs.len() - i,
{
    if i >= knobs.len() {
        None
    } else {
        match first_overlap_with(knobs, i, i + 1) {
            Some(j) => Some((i, j)),
            None => first_overlap(knobs, i + 1),
        }
    }
}

/// The smallest squared distance of knob `i` from the knobs `i + 1` up to `j`, and `so_far`.
pub open spec fn nearest_after(
    knobs: Seq<CircleFeature>,
    i: int,
    j: int,
    so_far: Option<int>,
) -> Option<int>
    decreases j - i,
{
    if j <= i + 1 {
        so_far
    } else {
        let before = nearest_after(knobs, i, j - 1, so_far);
        let d = square_distance(knobs[i], knobs[j - 1]);
        match before {
            Some(b) if b <= d => Some(b),
            _ => Some(d),
        }
    }
}

/// The smallest squared distance of two knobs, the first of which is before knob `i`.
pub open spec fn nearest_pair(knobs: Seq<CircleFeature>, i: int) -> Option<int>
    decreases i,
{
    if i <= 0 {
        None
    } else {
        nearest_after(knobs, i - 1, knobs.len() as int, nearest_pair(knobs, i - 1))
    }
}

/// The sum of the values, at least a pixel for each of them.
pub open spec fn positive_sum(values: Seq<i128>) -> int {
    max(sum(values), (values.len() * 1_000_000) as int)
}

/// The coefficient of variation: the standard deviation as a share of the mean, which counts as
/// at least one pixel.
pub open spec fn variation(values: Seq<i128>) -> int {
    root(spread(values) * 1_000_000_000_000) / positive_sum(values)
}

/// The coefficient of variation is larger than `limit`.
pub open spec fn varies_more(values: Seq<i128>, limit: int) -> bool {
    let p = limit * positive_sum(values);
    limit < 0 || spread(values) * 1_000_000_000_000 > p * p
}

/// The first knob from `from` on whose radius is off the median by more than the factor.
pub open spec fn first_odd_radius(
    knobs: Seq<CircleFeature>,
    middle: int,
    factor: int,
    from: int,
) -> Option<int>
    decreases knobs.len() - from,
{
    if from >= knobs.len() {
        None
    } else if is_odd_radius(knobs[from].radius as int, middle, factor) {
        Some(from)
    } else {
        first_odd_radius(knobs, middle, factor, from + 1)
    }
}

/// The radius is off the median by more than the factor: it is smaller than the median divided by
/// the factor, or larger than the median times the factor. By a factor of nothing only a median
/// other than nothing is divided, which gives something without bounds.
pub open spec fn is_odd_radius(radius: int, middle: int, factor: int) -> bool {
    let too_small = if factor > 0 {
        radius * factor < middle * 1_000_000
    } else if factor < 0 {
        radius * factor > middle * 1_000_000
    } else {
        middle > 0
    };
    too_small || radius * 1_000_000 > middle * factor
}

/// The median divided by the factor, with one decimal.
pub open spec fn lower_bound(middle: int, factor: int) -> Seq<char> {
    if factor != 0 {
        signed_ratio_decimal((middle < 0) != (factor < 0), abs(middle), abs(factor), 1)
    } else if middle > 0 {
        "inf"@
    } else if middle < 0 {
        "-inf"@
    } else {
        "NaN"@
    }
}

/// The median times the factor, with one decimal.
pub open spec fn upper_bound(middle: int, factor: int) -> Seq<char> {
    signed_ratio_decimal(
        (middle < 0) != (factor < 0),
        abs(middle) * abs(factor),
        1_000_000_000_000,
        1,
    )
}

/// Why the features do not form a plausible row, or what was measured of them.
pub open spec fn validation(f: FeaturesView, t: SanityThresholds) -> Result<
    SanityMeasurements,
    Seq<char>,
> {
    let ys = knob_ys(f.knobs);
    let y_dev = largest_distance(ys, median(ys) as int);
    let gs = gaps(knob_xs(f.knobs));
    let narrow = first_below(gs, t.min_x_gap_px as int, 0);
    let touching = first_overlap(f.knobs, 0);
    let rs = knob_radii(f.knobs);
    let middle = median(rs) as int;
    let factor = t.max_radius_factor as int;
    let odd = first_odd_radius(f.knobs, middle, factor, 0);
    if f.knobs.len() != t.expected_knobs {
        Err(
            "expected "@ + decimal(t.expected_knobs as int) + " knobs, got "@ + decimal(
                f.knobs.len() as int,
            ),
        )
    } else if y_dev > t.y_tolerance_px {
        Err(
            "Y-deviation = "@ + fixed_decimal(y_dev, 1) + "px (max "@ + plain_decimal(
                t.y_tolerance_px as int,
            ) + "px)"@,
        )
    } else if narrow is Some {
        let i = narrow->Some_0;
        Err(
            "knobs "@ + decimal(i) + "/"@ + decimal(i + 1) + " X-gap = "@ + fixed_decimal(
                gs[i] as int,
                1,
            ) + "px (min "@ + plain_decimal(t.min_x_gap_px as int) + "px)"@,
        )
    } else if !t.skip_overlap && touching is Some {
        let (i, j) = touching->Some_0;
        Err(
            "knobs "@ + decimal(i) + "/"@ + decimal(j) + " overlap: dist="@ + root_decimal(
                square_distance(f.knobs[i], f.knobs[j]),
                1_000_000,
                1,
            ) + "px < radii_sum="@ + fixed_decimal(f.knobs[i].radius + f.knobs[j].radius, 1)
                + "px"@,
        )
    } else if gs.len() > 0 && varies_more(gs, t.max_gap_cv as int) {
        Err(
            "X-gap CV = "@ + root_decimal(spread(gs), positive_sum(gs), 2) + " (max "@ + plain_decimal(
                t.max_gap_cv as int,
            ) + ")"@,
        )
    } else if odd is Some {
        let i = odd->Some_0;
        Err(
            "knob "@ + decimal(i) + " radius = "@ + fixed_decimal(f.knobs[i].radius as int, 1)
                + " outside ["@ + lower_bound(middle, factor) + ", "@ + upper_bound(middle, factor)
                + "]"@,
        )
    } else if f.clock.center_x >= f.knobs[0].center_x {
        Err(
            "clock x="@ + fixed_decimal(f.clock.center_x as int, 1)
                + " is not left of first knob x="@ + fixed_decimal(f.knobs[0].center_x as int, 1),
        )
    } else {
        Ok(
            SanityMeasurements {
                max_y_dev: y_dev as i128,
                min_x_gap: if gs.len() > 0 {
                    Some(least_of(gs))
                } else {
                    None
                },
                gap_cv: if gs.len() > 0 {
                    Some(fitted(variation(gs)) as i128)
                } else {
                    None
                },
                min_pair_dist: match nearest_pair(f.knobs, f.knobs.len() as int) {
                    Some(d) => Some(fitted(root(d)) as i128),
                    None => None,
                },
                median_r: middle as i64,
                r_cv: fitted(variation(wide(rs))) as i128,
            },
        )
    }
}

fn find_largest_distance(values: &Vec<i64>, from: i64) -> (r: i128)
    ensures
        r == largest_distance(values@, from as int),
        0 <= r <= 0x1_0000_0000_0000_0000,
{
    let mut r: i128 = 0;
    let mut i: usize = 0;
    assert(values@.take(0) =~= Seq::empty());
    while i < values.len()
        invariant
            i <= values.len(),
            r == largest_distance(values@.take(i as int), from as int),
            0 <= r <= 0x1_0000_0000_0000_0000,
        decreases values.len() - i,
    {
        assert(values@.take(i as int + 1).drop_last() =~= values@.take(i as int));
        let d: i128 = abs_exec(values[i] as i128 - from as i128);
        if r < d {
            r = d;
        }
        i = i + 1;
    }
    assert(values@.take(i as int) =~= values@);
    r
}

fn find_gaps(values: &Vec<i64>) -> (r: Vec<i128>)
    requires
        values.len() > 0,
    ensures
        r@ == gaps(values@),
{
    let mut r: Vec<i128> = Vec::new();
    let mut i: usize = 1;
    while i < values.len()
        invariant
            1 <= i <= values.len(),
            r.len() == i - 1,
            forall|j: int| 0 <= j < i - 1 ==> #[trigger] r[j] == gaps(values@)[j],
        decreases values.len() - i,
    {
        r.push(values[i] as i128 - values[i - 1] as i128);
        i = i + 1;
    }
    assert(r@ =~= gaps(values@));
    r
}

fn find_least_of(values: &Vec<i128>) -> (r: i128)
    requires
        values.len() > 0,
    ensures
        r == least_of(values@),
{
    let mut r: i128 = values[0];
    let mut i: usize = 1;
    while i < values.len()
        invariant
            1 <= i <= values.len(),
            r == least_of(values@.take(i as int)),
        decreases values.len() - i,
    {
        assert(values@.take(i as int + 1).drop_last() =~= values@.take(i as int));
        if values[i] < r {
            r = values[i];
        }
        i = i + 1;
    }
    assert(values@.take(i as int) =~= values@);
    r
}

fn find_first_below(values: &Vec<i128>, limit: i64) -> (r: Option<usize>)
    ensures
        first_below(values@, limit as int, 0) == (match r {
            Some(i) => Some(i as int),
            None => None,
        }),
        r matches Some(i) ==> i < values.len(),
{
    let mut i: usize = 0;
    while i < values.len()
        invariant
            i <= values.len(),
            first_below(values@, limit as int, 0) == first_below(values@, limit as int, i as int),
        decreases values.len() - i,
    {
        if values[i] < limit as i128 {
            return Some(i);
        }
        i = i + 1;
    }
    None
}

fn square_distance_of(a: &CircleFeature, b: &CircleFeature) -> (r: Integer)
    ensures
        r@ == square_distance(*a, *b),
        r@ >= 0,
{
    let dx: Integer = Integer::new(b.center_x as i128 - a.center_x as i128);
    let dy: Integer = Integer::new(b.center_y as i128 - a.center_y as i128);
    assert(dx@ * dx@ >= 0 && dy@ * dy@ >= 0) by (nonlinear_arith);
    dx.times(&dx).plus(&dy.times(&dy))
}

fn do_overlap(a: &CircleFeature, b: &CircleFeature) -> (r: bool)
    ensures
        r == overlap(*a, *b),
{
    let radii: i128 = a.radius as i128 + b.radius as i128;
    let s: Integer = Integer::new(radii);
    radii > 0 && square_distance_of(a, b).is_less(&s.times(&s))
}

fn find_first_overlap(knobs: &Vec<CircleFeature>) -> (r: Option<(usize, usize)>)
    ensures
        first_overlap(knobs@, 0) == (match r {
            Some(p) => Some((p.0 as int, p.1 as int)),
            None => None,
        }),
        r matches Some(p) ==> p.0 < p.1 < knobs.len(),
{
    let mut i: usize = 0;
    while i < knobs.len()
        invariant
            i <= knobs.len(),
            first_overlap(knobs@, 0) == first_overlap(knobs@, i as int),
        decreases knobs.len() - i,
    {
        let mut j: usize = i + 1;
        while j < knobs.len()
            invariant
                i < j <= knobs.len(),
                first_overlap(knobs@, 0) == first_overlap(knobs@, i as int),
                first_overlap_with(knobs@, i as int, i + 1) == first_overlap_with(
                    knobs@,
                    i as int,
                    j as int,
                ),
            decreases knobs.len() - j,
        {
            if do_overlap(&knobs[i], &knobs[j]) {
                return Some((i, j));
            }
            j = j + 1;
        }
        i = i + 1;
    }
    None
}

/// What an optional wide number holds.
spec fn held(n: Option<Integer>) -> Option<int> {
    match n {
        Some(d) => Some(d@),
        None => None,
    }
}

fn find_nearest_pair(knobs: &Vec<CircleFeature>) -> (r: Option<Integer>)
    ensures
        nearest_pair(knobs@, knobs.len() as int) == held(r),
        r matches Some(d) ==> d@ >= 0,
{
    let n: usize = knobs.len();
    let mut best: Option<Integer> = None;
    let mut i: usize = 0;
    while i < n
        invariant
            n == knobs.len(),
            i <= n,
            nearest_pair(knobs@, i as int) == held(best),
            best matches Some(d) ==> d@ >= 0,
        decreases n - i,
    {
        let ghost before = nearest_pair(knobs@, i as int);
        let mut j: usize = i + 1;
        while j < n
            invariant
                n == knobs.len(),
                i < j <= n,
                nearest_after(knobs@, i as int, j as int, before) == held(best),
                best matches Some(d) ==> d@ >= 0,
            decreases n - j,
        {
            let d: Integer = square_distance_of(&knobs[i], &knobs[j]);
            let keep: bool = match &best {
                Some(b) => !d.is_less(b),
                None => false,
            };
            if !keep {
                best = Some(d);
            }
            j = j + 1;
        }
        i = i + 1;
    }
    best
}

/// The sum of the values, at least a pixel for each of them.
fn find_positive_sum(values: &Vec<i128>) -> (r: Integer)
    requires
        values.len() > 0,
    ensures
        r@ == positive_sum(values@),
        r@ > 0,
{
    let floor: Integer = Integer::new(values.len() as i128 * 1_000_000);
    total(values).at_least(&floor)
}

fn find_variation(values: &Vec<i128>) -> (r: i128)
    requires
        values.len() > 0,
    ensures
        r == fitted(variation(values@)),
{
    let unit: Integer = Integer::new(1_000_000_000_000);
    let q: Integer = spread_of(values).times(&unit);
    assert(q@ >= 0);
    q.square_root().over(&find_positive_sum(values)).to_i128()
}

fn do_vary_more(values: &Vec<i128>, limit: i64) -> (r: bool)
    requires
        values.len() > 0,
    ensures
        r == varies_more(values@, limit as int),
{
    let unit: Integer = Integer::new(1_000_000_000_000);
    let p: Integer = Integer::new(limit as i128).times(&find_positive_sum(values));
    limit < 0 || p.times(&p).is_less(&spread_of(values).times(&unit))
}

fn is_off(radius: i64, middle: i64, factor: i64) -> (r: bool)
    ensures
        r == is_odd_radius(radius as int, middle as int, factor as int),
{
    let b: i128 = 0x8000_0000_0000_0000;
    let (r, m, f): (i128, i128, i128) = (radius as i128, middle as i128, factor as i128);
    assert(-(b * b) <= m * f <= b * b && -(b * b) <= r * f <= b * b) by (nonlinear_arith)
        requires
            -b <= m <= b,
            -b <= f <= b,
            -b <= r <= b,
    ;
    assert(b * b == 0x4000_0000_0000_0000_0000_0000_0000_0000) by (nonlinear_arith)
        requires
            b == 0x8000_0000_0000_0000,
    ;
    let too_small: bool = if f > 0 {
        r * f < m * 1_000_000
    } else if f < 0 {
        r * f > m * 1_000_000
    } else {
        m > 0
    };
    too_small || r * 1_000_000 > m * f
}

fn find_odd_radius(knobs: &Vec<CircleFeature>, middle: i64, factor: i64) -> (r: Option<usize>)
    ensures
        first_odd_radius(knobs@, middle as int, factor as int, 0) == (match r {
            Some(i) => Some(i as int),
            None => None,
        }),
        r matches Some(i) ==> i < knobs.len(),
{
    let mut i: usize = 0;
    while i < knobs.len()
        invariant
            i <= knobs.len(),
            first_odd_radius(knobs@, middle as int, factor as int, 0) == first_odd_radius(
                knobs@,
                middle as int,
                factor as int,
                i as int,
            ),
        decreases knobs.len() - i,
    {
        if is_off(knobs[i].radius, middle, factor) {
            return Some(i);
        }
        i = i + 1;
    }
    None
}

fn push_bounds(s: &mut String, middle: i64, factor: i64)
    ensures
        final(s)@ == old(s)@ + lower_bound(middle as int, factor as int) + ", "@ + upper_bound(
            middle as int,
            factor as int,
        ),
{
    let negative: bool = (middle < 0) != (factor < 0);
    let m: Natural = Natural::new(abs_exec(middle as i128) as u128);
    let f: Natural = Natural::new(abs_exec(factor as i128) as u128);
    if factor != 0 {
        push_signed_ratio(s, negative, &m, &f, 1);
    } else if middle > 0 {
        s.append("inf");
    } else if middle < 0 {
        s.append("-inf");
    } else {
        s.append("NaN");
    }
    s.append(", ");
    push_signed_ratio(s, negative, &m.times(&f), &Natural::new(1_000_000_000_000), 1);
}

/// Checks that the features form a plausible row. Returns what was measured of them, or what is
/// wrong with them.
pub fn validate_features(features: &DetectedFeatures, t: &SanityThresholds) -> (r: Result<
    SanityMeasurements,
    String,
>)
    requires
        features@.knobs.len() > 0 || t.expected_knobs > 0,
    ensures
        match validation(features@, *t) {
            Ok(m) => r == Ok::<SanityMeasurements, String>(m),
            Err(text) => r matches Err(e) && e@ == text,
        },
{
    let knobs: &Vec<CircleFeature> = &features.knobs;
    if knobs.len() != t.expected_knobs {
        let mut s: String = String::from_str("expected ");
        push_number(&mut s, t.expected_knobs as u128);
        s.append(" knobs, got ");
        push_number(&mut s, knobs.len() as u128);
        return Err(s);
    }
    let ys: Vec<i64> = collect_ys(knobs);
    let xs: Vec<i64> = collect_xs(knobs);
    let rs: Vec<i64> = collect_radii(knobs);
    let middle_y: i64 = find_median(&ys);
    let y_dev: i128 = find_largest_distance(&ys, middle_y);
    if y_dev > t.y_tolerance_px as i128 {
        let mut s: String = String::from_str("Y-deviation = ");
        push_fixed(&mut s, y_dev, 1);
        s.append("px (max ");
        push_plain(&mut s, t.y_tolerance_px);
        s.append("px)");
        return Err(s);
    }
    let gs: Vec<i128> = find_gaps(&xs);
    if let Some(i) = find_first_below(&gs, t.min_x_gap_px) {
        let mut s: String = String::from_str("knobs ");
        push_number(&mut s, i as u128);
        s.append("/");
        push_number(&mut s, i as u128 + 1);
        s.append(" X-gap = ");
        push_fixed(&mut s, gs[i], 1);
        s.append("px (min ");
        push_plain(&mut s, t.min_x_gap_px);
        s.append("px)");
        return Err(s);
    }
    if !t.skip_overlap {
        if let Some((i, j)) = find_first_overlap(knobs) {
            let a: CircleFeature = knobs[i];
            let b: CircleFeature = knobs[j];
            let mut s: String = String::from_str("knobs ");
            push_number(&mut s, i as u128);
            s.append("/");
            push_number(&mut s, j as u128);
            s.append(" overlap: dist=");
            push_root(&mut s, &square_distance_of(&a, &b), &Integer::new(1_000_000), 1);
            s.append("px < radii_sum=");
            push_fixed(&mut s, a.radius as i128 + b.radius as i128, 1);
            s.append("px");
            return Err(s);
        }
    }
    let mut gap_cv: Option<i128> = None;
    let mut min_x_gap: Option<i128> = None;
    if gs.len() > 0 {
        if do_vary_more(&gs, t.max_gap_cv) {
            let mut s: String = String::from_str("X-gap CV = ");
            push_root(&mut s, &spread_of(&gs), &find_positive_sum(&gs), 2);
            s.append(" (max ");
            push_plain(&mut s, t.max_gap_cv);
            s.append(")");
            return Err(s);
        }
        gap_cv = Some(find_variation(&gs));
        min_x_gap = Some(find_least_of(&gs));
    }
    let middle: i64 = find_median(&rs);
    let factor: i64 = t.max_radius_factor;
    if let Some(i) = find_odd_radius(knobs, middle, factor) {
        let mut s: String = String::from_str("knob ");
        push_number(&mut s, i as u128);
        s.append(" radius = ");
        push_fixed(&mut s, knobs[i].radius as i128, 1);
        s.append(" outside [");
        push_bounds(&mut s, middle, factor);
        s.append("]");
        assert(s@ =~= "knob "@ + decimal(i as int) + " radius = "@ + fixed_decimal(
            knobs[i as int].radius as int,
            1,
        ) + " outside ["@ + lower_bound(middle as int, factor as int) + ", "@ + upper_bound(
            middle as int,
            factor as int,
        ) + "]"@);
        return Err(s);
    }
    if features.clock.center_x >= knobs[0].center_x {
        let mut s: String = String::from_str("clock x=");
        push_fixed(&mut s, features.clock.center_x as i128, 1);
        s.append(" is not left of first knob x=");
        push_fixed(&mut s, knobs[0].center_x as i128, 1);
        return Err(s);
    }
    let min_pair_dist: Option<i128> = match find_nearest_pair(knobs) {
        Some(d) => Some(d.square_root().to_i128()),
        None => None,
    };
    let r_cv: i128 = find_variation(&widened(&rs));
    Ok(
        SanityMeasurements {
            max_y_dev: y_dev,
            min_x_gap,
            gap_cv,
            min_pair_dist,
            median_r: middle,
            r_cv,
        },
    )
}

proof fn none_is_below(values: Seq<i128>, limit: int, from: int, i: int)
    requires
        first_below(values, limit, from) is None,
        0 <= from <= i < values.len(),
    ensures
        values[i] >= limit,
    decreases i - from,
{
    if from < i {
        none_is_below(values, limit, from + 1, i);
    }
}

proof fn none_overlaps_with(knobs: Seq<CircleFeature>, i: int, from: int, j: int)
    requires
        first_overlap_with(knobs, i, from) is None,
        from <= j < knobs.len(),
    ensures
        !overlap(knobs[i], knobs[j]),
    decreases j - from,
{
    if from < j {
        none_overlaps_with(knobs, i, from + 1, j);
    }
}

proof fn none_overlaps(knobs: Seq<CircleFeature>, from: int, i: int, j: int)
    requires
        first_overlap(knobs, from) is None,
        from <= i < j < knobs.len(),
    ensures
        !overlap(knobs[i], knobs[j]),
    decreases i - from,
{
    if from < i {
        none_overlaps(knobs, from + 1, i, j);
    } else {
        none_overlaps_with(knobs, i, i + 1, j);
    }
}

proof fn no_radius_is_odd(knobs: Seq<CircleFeature>, middle: int, factor: int, from: int, i: int)
    requires
        first_odd_radius(knobs, middle, factor, from) is None,
        from <= i < knobs.len(),
    ensures
        !is_odd_radius(knobs[i].radius as int, middle, factor),
    decreases i - from,
{
    if from < i {
        no_radius_is_odd(knobs, middle, factor, from + 1, i);
    }
}

proof fn distances_are_within_the_largest(values: Seq<i64>, from: int, i: int)
    requires
        0 <= i < values.len(),
    ensures
        abs(values[i] - from) <= largest_distance(values, from),
    decreases values.len(),
{
    if i < values.len() - 1 {
        distances_are_within_the_largest(values.drop_last(), from, i);
    }
}

/// Features that pass form a row: as many knobs as expected, each within the tolerance of the
/// median height, each far enough to the right of the one before, with a radius within the
/// factor of the median, none overlapping another unless that is allowed, and the clock to the
/// left of the first.
pub proof fn features_that_pass_form_a_row(f: FeaturesView, t: SanityThresholds)
    requires
        validation(f, t) is Ok,
        t.expected_knobs > 0,
    ensures
        f.knobs.len() == t.expected_knobs,
        forall|i: int|
            0 <= i < f.knobs.len() ==> abs(
                (#[trigger] f.knobs[i]).center_y - median(knob_ys(f.knobs)),
            ) <= t.y_tolerance_px,
        forall|i: int|
            0 <= i < f.knobs.len() - 1 ==> f.knobs[i + 1].center_x - (#[trigger] f.knobs[i]).center_x
                >= t.min_x_gap_px,
        forall|i: int|
            0 <= i < f.knobs.len() ==> !is_odd_radius(
                (#[trigger] f.knobs[i]).radius as int,
                median(knob_radii(f.knobs)) as int,
                t.max_radius_factor as int,
            ),
        !t.skip_overlap ==> forall|i: int, j: int|
            0 <= i < j < f.knobs.len() ==> !overlap(#[trigger] f.knobs[i], #[trigger] f.knobs[j]),
        f.clock.center_x < f.knobs[0].center_x,
{
    let ys = knob_ys(f.knobs);
    let gs = gaps(knob_xs(f.knobs));
    assert forall|i: int| 0 <= i < f.knobs.len() implies abs(
        (#[trigger] f.knobs[i]).center_y - median(ys),
    ) <= t.y_tolerance_px by {
        distances_are_within_the_largest(ys, median(ys) as int, i);
    }
    assert forall|i: int| 0 <= i < f.knobs.len() - 1 implies f.knobs[i + 1].center_x - (
    #[trigger] f.knobs[i]).center_x >= t.min_x_gap_px by {
        none_is_below(gs, t.min_x_gap_px as int, 0, i);
    }
    assert forall|i: int| 0 <= i < f.knobs.len() implies !is_odd_radius(
        (#[trigger] f.knobs[i]).radius as int,
        median(knob_radii(f.knobs)) as int,
        t.max_radius_factor as int,
    ) by {
        no_radius_is_odd(
            f.knobs,
            median(knob_radii(f.knobs)) as int,
            t.max_radius_factor as int,
            0,
            i,
        );
    }
    if !t.skip_overlap {
        assert forall|i: int, j: int| 0 <= i < j < f.knobs.len() implies !overlap(
            #[trigger] f.knobs[i],
            #[trigger] f.knobs[j],
        ) by {
            none_overlaps(f.knobs, 0, i, j);
        }
    }
}

/// The outcome of checking the features: success where they form a plausible row.
pub open spec fn is_check_outcome(f: FeaturesView, t: SanityThresholds, o: StageOutcome) -> bool {
    match validation(f, t) {
        Ok(_) => o is Success,
        Err(text) => is_exhausted(o, text),
    }
}

/// Checks that the features form a plausible row.
pub fn check_features(features: &DetectedFeatures, t: &SanityThresholds) -> (r: StageOutcome)
    requires
        features@.knobs.len() > 0 || t.expected_knobs > 0,
    ensures
        is_check_outcome(features@, *t, r),
{
    match validate_features(features, t) {
        Ok(_) => StageOutcome::Success,
        Err(text) => StageOutcome::Exhausted(text),
    }
}


proof fn the_largest_distance_is_reached(values: Seq<i64>, from: int)
    ensures
        values.len() > 0 ==> exists|i: int|
            0 <= i < values.len() && abs(#[trigger] values[i] - from) == largest_distance(
                values,
                from,
            ),
        largest_distance(values, from) >= 0,
    decreases values.len(),
{
    if values.len() > 0 {
        let t = values.drop_last();
        the_largest_distance_is_reached(t, from);
        let n = t.len() as int;
        if largest_distance(values, from) == abs(values[n] - from) {
        } else {
            let i = choose|i: int|
                0 <= i < t.len() && abs(#[trigger] t[i] - from) == largest_distance(t, from);
            assert(values[i] == t[i]);
        }
    }
}

/// The first value that is below a limit, from a place on, is below it, and none between is; where
/// there is none, none of them is.
pub proof fn the_first_value_below_is_the_first(values: Seq<i128>, limit: int, from: int)
    requires
        0 <= from,
    ensures
        match first_below(values, limit, from) {
            Some(i) => {
                &&& from <= i < values.len() && values[i] < limit
                &&& forall|j: int| from <= j < i ==> #[trigger] values[j] >= limit
            },
            None => forall|j: int| from <= j < values.len() ==> #[trigger] values[j] >= limit,
        },
    decreases values.len() - from,
{
    if from < values.len() && values[from] >= limit {
        the_first_value_below_is_the_first(values, limit, from + 1);
    }
}

/// The first knob with an odd radius, from a place on, has one, and none between has; where there is
/// none, none of them has. Radii are odd that lie outside the middle one divided and multiplied by a
/// positive factor.
pub proof fn the_first_odd_radius_is_the_first(
    knobs: Seq<CircleFeature>,
    middle: int,
    factor: int,
    from: int,
)
    requires
        0 <= from,
        factor > 0,
    ensures
        match first_odd_radius(knobs, middle, factor, from) {
            Some(i) => {
                &&& from <= i < knobs.len()
                &&& knobs[i].radius * factor < middle * 1_000_000 || knobs[i].radius * 1_000_000
                    > middle * factor
                &&& forall|j: int|
                    from <= j < i ==> (#[trigger] knobs[j]).radius * factor >= middle * 1_000_000
                        && knobs[j].radius * 1_000_000 <= middle * factor
            },
            None => forall|j: int|
                from <= j < knobs.len() ==> (#[trigger] knobs[j]).radius * factor >= middle
                    * 1_000_000 && knobs[j].radius * 1_000_000 <= middle * factor,
        },
    decreases knobs.len() - from,
{
    if from < knobs.len() && !is_odd_radius(knobs[from].radius as int, middle, factor) {
        the_first_odd_radius_is_the_first(knobs, middle, factor, from + 1);
    }
}

/// Two circles overlap exactly if their centers are closer than their radii together, whichever is
/// named first.
pub proof fn circles_overlap_where_centers_are_close(a: CircleFeature, b: CircleFeature)
    requires
        a.radius >= 0,
        b.radius >= 0,
    ensures
        ({
            let (dx, dy) = (a.center_x - b.center_x, a.center_y - b.center_y);
            let s = a.radius + b.radius;
            &&& overlap(a, b) <==> dx * dx + dy * dy < s * s
            &&& overlap(a, b) == overlap(b, a)
        }),
{
    let (dx, dy) = (a.center_x - b.center_x, a.center_y - b.center_y);
    let (ex, ey) = (b.center_x - a.center_x, b.center_y - a.center_y);
    let s = a.radius + b.radius;
    assert(dx * dx == ex * ex && dy * dy == ey * ey && dx * dx >= 0 && dy * dy >= 0)
        by (nonlinear_arith)
        requires
            dx == -ex,
            dy == -ey,
    ;
    assert(s == 0 ==> s * s == 0) by (nonlinear_arith);
}

proof fn the_first_overlap_is_one(knobs: Seq<CircleFeature>, i: int, from: int)
    ensures
        first_overlap_with(knobs, i, from) matches Some(j) ==> from <= j < knobs.len() && overlap(
            knobs[i],
            knobs[j],
        ),
    decreases knobs.len() - from,
{
    if from < knobs.len() {
        the_first_overlap_is_one(knobs, i, from + 1);
    }
}

/// Where an overlap is found the two knobs do overlap.
proof fn found_overlaps_are_overlaps(knobs: Seq<CircleFeature>, from: int)
    requires
        0 <= from,
    ensures
        first_overlap(knobs, from) matches Some(p) ==> from <= p.0 < p.1 < knobs.len() && overlap(
            knobs[p.0],
            knobs[p.1],
        ),
    decreases knobs.len() - from,
{
    if from < knobs.len() {
        the_first_overlap_is_one(knobs, from, from + 1);
        found_overlaps_are_overlaps(knobs, from + 1);
    }
}

proof fn gaps_add_up_to_the_whole(values: Seq<i64>, n: int)
    requires
        1 <= n <= values.len(),
    ensures
        sum(gaps(values).take(n - 1)) == values[n - 1] - values[0],
    decreases n,
{
    if n > 1 {
        gaps_add_up_to_the_whole(values, n - 1);
        assert(gaps(values).take(n - 1).drop_last() =~= gaps(values).take(n - 2));
        assert(gaps(values)[n - 2] == values[n - 1] - values[n - 2]);
    } else {
        assert(gaps(values).take(0).len() == 0);
    }
}

/// The gaps of a row add up to the way from the first to the last.
pub proof fn gaps_add_up(values: Seq<i64>)
    requires
        values.len() > 0,
    ensures
        gaps(values).len() == values.len() - 1,
        forall|i: int|
            0 < i < values.len() ==> gaps(values)[i - 1] == #[trigger] values[i] - values[i - 1],
        sum(gaps(values)) == values.last() - values[0],
{
    gaps_add_up_to_the_whole(values, values.len() as int);
    assert(gaps(values).take(values.len() - 1) =~= gaps(values));
    assert forall|i: int| 0 < i < values.len() implies gaps(values)[i - 1] == #[trigger] values[i]
        - values[i - 1] by {
        assert(gaps(values)[i - 1] == values[(i - 1) + 1] - values[i - 1]);
    }
}

/// Values vary more than a limit exactly if their deviation is more than that share of their mean,
/// which counts as at least one pixel. Squared and without fractions: the distances of all pairs, as
/// squares, are more than the square of the limit times the sum.
pub proof fn variation_is_measured_by_the_mean(values: Seq<i128>, limit: int)
    requires
        limit >= 0,
        values.len() > 0,
    ensures
        ({
            let least_sum = 1_000_000 * values.len();
            let m = if sum(values) < least_sum {
                least_sum as int
            } else {
                sum(values)
            };
            &&& varies_more(values, limit) <==> crate::stats::pair_distances(values)
                * 1_000_000_000_000 > (limit * m) * (limit * m)
            &&& variation(values) >= 0
            &&& (variation(values) * m) * (variation(values) * m) <= crate::stats::pair_distances(
                values,
            ) * 1_000_000_000_000
            &&& crate::stats::pair_distances(values) * 1_000_000_000_000 < ((variation(values) + 1)
                * m) * ((variation(values) + 1) * m)
        }),
{
    crate::stats::spreads_are_those_of_all_pairs(values);
    crate::stats::spread_is_not_negative(values);
    let n = spread(values) * 1_000_000_000_000;
    let m = positive_sum(values);
    assert(m > 0);
    crate::fixed::roots_exist(n);
    let r = root(n);
    let v = r / m;
    assert(0 <= v && v * m <= r && r + 1 <= (v + 1) * m) by (nonlinear_arith)
        requires
            r >= 0,
            m > 0,
            v == r / m,
    ;
    let (a, b) = (v * m, (v + 1) * m);
    assert(a >= 0) by (nonlinear_arith)
        requires
            a == v * m,
            v >= 0,
            m > 0,
    ;
    assert(a * a <= r * r) by (nonlinear_arith)
        requires
            0 <= a <= r,
    ;
    assert((r + 1) * (r + 1) <= b * b) by (nonlinear_arith)
        requires
            0 <= r,
            r + 1 <= b,
    ;
}

/// Each knob is within the tolerance of the middle height.
pub open spec fn are_level(knobs: Seq<CircleFeature>, tolerance: int) -> bool {
    let middle = median(knobs.map_values(|k: CircleFeature| k.center_y));
    forall|i: int|
        0 <= i < knobs.len() ==> -tolerance <= (#[trigger] knobs[i]).center_y - middle <= tolerance
}

/// Each knob is so far to the right of the one before.
pub open spec fn are_apart(knobs: Seq<CircleFeature>, gap: int) -> bool {
    forall|i: int|
        0 < i < knobs.len() ==> (#[trigger] knobs[i]).center_x - knobs[i - 1].center_x >= gap
}

/// No two knobs overlap.
pub open spec fn are_disjoint(knobs: Seq<CircleFeature>) -> bool {
    forall|i: int, j: int|
        0 <= i < j < knobs.len() ==> !overlap(#[trigger] knobs[i], #[trigger] knobs[j])
}

/// The gaps between the knobs vary by no more than a share of their mean, which counts as at least a
/// pixel.
pub open spec fn are_even(knobs: Seq<CircleFeature>, share: int) -> bool {
    let n = knobs.len() as int;
    let way = knobs[n - 1].center_x - knobs[0].center_x;
    let m = if way < 1_000_000 * (n - 1) {
        1_000_000 * (n - 1)
    } else {
        way
    };
    n > 1 ==> crate::stats::pair_distances(
        Seq::new((n - 1) as nat, |i: int| (knobs[i + 1].center_x - knobs[i].center_x) as i128),
    ) * 1_000_000_000_000 <= (share * m) * (share * m)
}

/// The radii lie between the middle one divided and multiplied by the factor.
pub open spec fn are_alike(knobs: Seq<CircleFeature>, factor: int) -> bool {
    let middle = median(knobs.map_values(|k: CircleFeature| k.radius));
    forall|i: int|
        0 <= i < knobs.len() ==> (#[trigger] knobs[i]).radius * factor >= middle * 1_000_000
            && knobs[i].radius * 1_000_000 <= middle * factor
}

/// The knobs stand in a row: as many as expected, each within the tolerance of the middle height,
/// each far enough to the right of the one before, no two closer than their radii unless that is
/// allowed, their gaps as even and their radii as alike as asked for, and the clock left of the first.
pub open spec fn stand_in_a_row(f: FeaturesView, t: SanityThresholds) -> bool {
    &&& f.knobs.len() == t.expected_knobs
    &&& are_level(f.knobs, t.y_tolerance_px as int)
    &&& are_apart(f.knobs, t.min_x_gap_px as int)
    &&& t.skip_overlap || are_disjoint(f.knobs)
    &&& are_even(f.knobs, t.max_gap_cv as int)
    &&& are_alike(f.knobs, t.max_radius_factor as int)
    &&& f.clock.center_x < f.knobs[0].center_x
}

/// Features pass exactly if the knobs stand in a row.
pub proof fn features_pass_exactly_if_they_stand_in_a_row(f: FeaturesView, t: SanityThresholds)
    requires
        t.expected_knobs > 0,
        t.y_tolerance_px >= 0,
        t.max_gap_cv >= 0,
        t.max_radius_factor > 0,
    ensures
        validation(f, t) is Ok <==> stand_in_a_row(f, t),
{
    if f.knobs.len() == t.expected_knobs {
        level_rows_are_within_the_tolerance(f.knobs, t.y_tolerance_px as int);
        gaps_are_wide_enough(f.knobs, t.min_x_gap_px as int);
        overlaps_are_found(f.knobs);
        even_gaps_vary_little(f.knobs, t.max_gap_cv as int);
        like_radii_are_not_odd(f.knobs, t.max_radius_factor as int);
    }
}

proof fn even_gaps_vary_little(knobs: Seq<CircleFeature>, share: int)
    requires
        knobs.len() > 0,
        share >= 0,
    ensures
        are_even(knobs, share) <==> !(gaps(knob_xs(knobs)).len() > 0 && varies_more(
            gaps(knob_xs(knobs)),
            share,
        )),
{
    let n = knobs.len() as int;
    let xs = knob_xs(knobs);
    let gs = gaps(xs);
    if n > 1 {
        gaps_add_up(xs);
        variation_is_measured_by_the_mean(gs, share);
        assert(gs =~= Seq::new(
            (n - 1) as nat,
            |i: int| (knobs[i + 1].center_x - knobs[i].center_x) as i128,
        ));
    }
}

proof fn like_radii_are_not_odd(knobs: Seq<CircleFeature>, factor: int)
    requires
        factor > 0,
    ensures
        are_alike(knobs, factor) <==> first_odd_radius(
            knobs,
            median(knob_radii(knobs)) as int,
            factor,
            0,
        ) is None,
{
    let rs = knob_radii(knobs);
    assert(rs =~= knobs.map_values(|k: CircleFeature| k.radius));
    the_first_odd_radius_is_the_first(knobs, median(rs) as int, factor, 0);
}

proof fn level_rows_are_within_the_tolerance(knobs: Seq<CircleFeature>, tolerance: int)
    requires
        knobs.len() > 0,
    ensures
        are_level(knobs, tolerance) <==> largest_distance(
            knob_ys(knobs),
            median(knob_ys(knobs)) as int,
        ) <= tolerance,
{
    let ys = knob_ys(knobs);
    assert(ys =~= knobs.map_values(|k: CircleFeature| k.center_y));
    heights_are_within_the_tolerance(knobs, median(ys) as int, tolerance);
}

proof fn heights_are_within_the_tolerance(knobs: Seq<CircleFeature>, middle: int, tolerance: int)
    requires
        knobs.len() > 0,
    ensures
        largest_distance(knob_ys(knobs), middle) <= tolerance <==> forall|i: int|
            0 <= i < knobs.len() ==> -tolerance <= (#[trigger] knobs[i]).center_y - middle
                <= tolerance,
{
    let ys = knob_ys(knobs);
    the_largest_distance_is_reached(ys, middle);
    let k = choose|i: int|
        0 <= i < ys.len() && abs(#[trigger] ys[i] - middle) == largest_distance(ys, middle);
    assert(ys[k] == knobs[k].center_y);
    assert forall|i: int| 0 <= i < knobs.len() && largest_distance(ys, middle) <= tolerance implies
        -tolerance <= (#[trigger] knobs[i]).center_y - middle <= tolerance by {
        distances_are_within_the_largest(ys, middle, i);
    }
}

proof fn gaps_are_wide_enough(knobs: Seq<CircleFeature>, limit: int)
    requires
        knobs.len() > 0,
    ensures
        first_below(gaps(knob_xs(knobs)), limit, 0) is None <==> are_apart(knobs, limit),
{
    let gs = gaps(knob_xs(knobs));
    the_first_value_below_is_the_first(gs, limit, 0);
    assert forall|i: int| 0 <= i < gs.len() implies #[trigger] gs[i] == knobs[i + 1].center_x
        - knobs[i].center_x by {}
    if first_below(gs, limit, 0) is None {
        assert forall|i: int| 0 < i < knobs.len() implies (#[trigger] knobs[i]).center_x
            - knobs[i - 1].center_x >= limit by {
            assert(gs[i - 1] >= limit);
        }
    } else {
        let i = first_below(gs, limit, 0)->Some_0;
        assert(gs[i] < limit);
        assert(knobs[i + 1].center_x - knobs[(i + 1) - 1].center_x < limit);
    }
}

proof fn overlaps_are_found(knobs: Seq<CircleFeature>)
    ensures
        first_overlap(knobs, 0) is None <==> are_disjoint(knobs),
{
    found_overlaps_are_overlaps(knobs, 0);
    if first_overlap(knobs, 0) is None {
        assert forall|i: int, j: int| 0 <= i < j < knobs.len() implies !overlap(
            #[trigger] knobs[i],
            #[trigger] knobs[j],
        ) by {
            none_overlaps(knobs, 0, i, j);
        }
    }
}

proof fn least_ones_are_least(values: Seq<i128>)
    requires
        values.len() > 0,
    ensures
        values.contains(least_of(values)),
        forall|i: int| 0 <= i < values.len() ==> least_of(values) <= #[trigger] values[i],
    decreases values.len(),
{
    if values.len() > 1 {
        let t = values.drop_last();
        least_ones_are_least(t);
        let k = choose|k: int| 0 <= k < t.len() && t[k] == least_of(t);
        assert(values[k] == t[k]);
        assert(values[values.len() - 1] == values.last());
        assert forall|i: int| 0 <= i < values.len() implies least_of(values) <= #[trigger] values[i] by {
            if i < t.len() {
                assert(t[i] == values[i]);
            }
        }
    } else {
        assert(values[0] == least_of(values));
    }
}

/// The least of some squares of distances from knob `i`: what is there before, or the least to a knob
/// from `i + 1` up to before `j`.
proof fn the_nearest_after_is_nearest(
    knobs: Seq<CircleFeature>,
    i: int,
    j: int,
    so_far: Option<int>,
)
    requires
        0 <= i < j <= knobs.len(),
    ensures
        ({
            let r = nearest_after(knobs, i, j, so_far);
            &&& r is None <==> so_far is None && j == i + 1
            &&& so_far is Some ==> r->Some_0 <= so_far->Some_0
            &&& forall|k: int|
                i < k < j ==> r->Some_0 <= square_distance(knobs[i], #[trigger] knobs[k])
            &&& r is Some ==> r == so_far || exists|k: int|
                i < k < j && r->Some_0 == square_distance(knobs[i], #[trigger] knobs[k])
        }),
    decreases j - i,
{
    if j > i + 1 {
        the_nearest_after_is_nearest(knobs, i, j - 1, so_far);
        let d = square_distance(knobs[i], knobs[j - 1]);
    }
}

proof fn the_nearest_pair_is_nearest(knobs: Seq<CircleFeature>, n: int)
    requires
        0 <= n <= knobs.len(),
    ensures
        ({
            let r = nearest_pair(knobs, n);
            &&& r is None <==> n == 0 || knobs.len() < 2
            &&& forall|i: int, j: int|
                0 <= i < n && i < j < knobs.len() ==> r->Some_0 <= square_distance(
                    #[trigger] knobs[i],
                    #[trigger] knobs[j],
                )
            &&& r is Some ==> exists|i: int, j: int|
                0 <= i < n && i < j < knobs.len() && r->Some_0 == square_distance(
                    #[trigger] knobs[i],
                    #[trigger] knobs[j],
                )
        }),
    decreases n,
{
    if n > 0 {
        the_nearest_pair_is_nearest(knobs, n - 1);
        the_nearest_after_is_nearest(
            knobs,
            n - 1,
            knobs.len() as int,
            nearest_pair(knobs, n - 1),
        );
    }
}

/// The measurements of features that pass: how far the knob farthest from the middle height is from
/// it, the narrowest gap, the middle radius, how uneven gaps and radii are, and how far the nearest
/// two knobs are apart.
pub proof fn measurements_are_those_of_the_row(f: FeaturesView, t: SanityThresholds)
    requires
        validation(f, t) is Ok,
        f.knobs.len() > 1,
    ensures
        ({
            let m = validation(f, t)->Ok_0;
            let ys = f.knobs.map_values(|k: CircleFeature| k.center_y);
            let rs = f.knobs.map_values(|k: CircleFeature| k.radius);
            &&& forall|i: int|
                0 <= i < f.knobs.len() ==> abs((#[trigger] f.knobs[i]).center_y - median(ys))
                    <= m.max_y_dev
            &&& exists|i: int|
                0 <= i < f.knobs.len() && abs((#[trigger] f.knobs[i]).center_y - median(ys))
                    == m.max_y_dev
            &&& m.min_x_gap is Some
            &&& forall|i: int|
                0 < i < f.knobs.len() ==> m.min_x_gap->Some_0 <= (#[trigger] f.knobs[i]).center_x
                    - f.knobs[i - 1].center_x
            &&& exists|i: int|
                0 < i < f.knobs.len() && m.min_x_gap->Some_0 == (#[trigger] f.knobs[i]).center_x
                    - f.knobs[i - 1].center_x
            &&& m.median_r == median(rs)
            &&& m.gap_cv matches Some(v) && v == fitted(variation(gaps(knob_xs(f.knobs))))
            &&& m.r_cv == fitted(variation(wide(rs)))
        }),
{
    let ys = knob_ys(f.knobs);
    let xs = knob_xs(f.knobs);
    let gs = gaps(xs);
    let middle = median(ys) as int;
    assert(ys =~= f.knobs.map_values(|k: CircleFeature| k.center_y));
    assert(knob_radii(f.knobs) =~= f.knobs.map_values(|k: CircleFeature| k.radius));
    let m = validation(f, t)->Ok_0;
    the_largest_distance_is_reached(ys, middle);
    let k = choose|i: int|
        0 <= i < ys.len() && abs(#[trigger] ys[i] - middle) == largest_distance(ys, middle);
    assert(ys[k] == f.knobs[k].center_y);
    assert forall|i: int| 0 <= i < f.knobs.len() implies abs(
        (#[trigger] f.knobs[i]).center_y - middle,
    ) <= m.max_y_dev by {
        distances_are_within_the_largest(ys, middle, i);
    }
    least_ones_are_least(gs);
    let g = choose|g: int| 0 <= g < gs.len() && gs[g] == least_of(gs);
    assert(gs[g] == f.knobs[g + 1].center_x - f.knobs[(g + 1) - 1].center_x);
    assert forall|i: int| 0 < i < f.knobs.len() implies m.min_x_gap->Some_0 <= (
    #[trigger] f.knobs[i]).center_x - f.knobs[i - 1].center_x by {
        assert(gs[i - 1] == f.knobs[(i - 1) + 1].center_x - f.knobs[i - 1].center_x);
    }
}

/// No two knobs are nearer to each other than knobs `i` and `j`.
pub open spec fn are_nearest(knobs: Seq<CircleFeature>, i: int, j: int) -> bool {
    &&& 0 <= i < j < knobs.len()
    &&& forall|k: int, l: int|
        0 <= k < l < knobs.len() ==> square_distance(knobs[i], knobs[j]) <= square_distance(
            #[trigger] knobs[k],
            #[trigger] knobs[l],
        )
}

proof fn nearest_knobs_exist(knobs: Seq<CircleFeature>)
    requires
        knobs.len() > 1,
    ensures
        exists|i: int, j: int| #[trigger]
            are_nearest(knobs, i, j) && nearest_pair(knobs, knobs.len() as int) == Some(
                square_distance(knobs[i], knobs[j]),
            ),
{
    let n = knobs.len() as int;
    the_nearest_pair_is_nearest(knobs, n);
    let r = nearest_pair(knobs, n);
    let (i, j) = choose|i: int, j: int|
        0 <= i < n && i < j < n && r->Some_0 == square_distance(
            #[trigger] knobs[i],
            #[trigger] knobs[j],
        );
    assert(are_nearest(knobs, i, j));
}

/// The nearest two knobs of features that pass are as far apart as measured, down to the millionth.
pub proof fn the_nearest_knobs_are_measured(f: FeaturesView, t: SanityThresholds)
    requires
        validation(f, t) is Ok,
        f.knobs.len() > 1,
    ensures
        exists|i: int, j: int| #[trigger]
            are_nearest(f.knobs, i, j) && validation(f, t)->Ok_0.min_pair_dist == Some(
                fitted(root(square_distance(f.knobs[i], f.knobs[j]))) as i128,
            ),
{
    nearest_knobs_exist(f.knobs);
}

/// The distance of the lines of a pair is the same whichever is above, and grows at either end as
/// the lines move apart there.
pub proof fn line_distances_are_those_at_both_ends(lines: LinePair)
    ensures
        line_distances(lines) == max(lines.bottom.y1 as int, lines.top.y1 as int) - crate::fixed::min(
            lines.bottom.y1 as int,
            lines.top.y1 as int,
        ) + max(lines.bottom.y2 as int, lines.top.y2 as int) - crate::fixed::min(
            lines.bottom.y2 as int,
            lines.top.y2 as int,
        ),
{
}


/// The mean of a cluster is that of its lines, rounded down.
pub proof fn cluster_means_are_those_of_their_lines(c: Seq<HoughLine>)
    requires
        c.len() > 0,
    ensures
        cluster_mean(c).0 * c.len() <= rho_sum(c) < (cluster_mean(c).0 + 1) * c.len(),
        cluster_mean(c).1 * c.len() <= theta_sum(c) < (cluster_mean(c).1 + 1) * c.len(),
{
    means_are_rounded_down(rho_sum(c), c.len() as int);
    means_are_rounded_down(theta_sum(c), c.len() as int);
}

proof fn means_are_rounded_down(a: int, n: int)
    requires
        n > 0,
    ensures
        (a / n) * n <= a < (a / n + 1) * n,
{
    vstd::arithmetic::div_mod::lemma_fundamental_div_mod(a, n);
    vstd::arithmetic::div_mod::lemma_mod_bound(a, n);
    let q = a / n;
    assert(q * n == n * q && (q + 1) * n == n * q + n) by (nonlinear_arith);
}

} // verus!
