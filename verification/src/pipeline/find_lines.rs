//! Finding the two horizontal reference lines of the panel's chrome trim.
//!
//! All pairs of lines are ranked; each attempt takes the next best one, so that stages that fail
//! later lead to other pairs being tried.

use vstd::prelude::*;
use vstd::string::*;

use super::stage::{
    is_exhausted, is_retry, CropRegion, Line, LinePair, PipelineState, StageDescriptor,
    StageOutcome, StateView,
};
use super::util::{
    by_rho, cluster_by_rho, cluster_view, clusters_of, rho_sum, sum_rho, sum_theta,
    theta_sum, HoughLine,
};
use super::ImageOutput;
use crate::draw::{bgr, draw_line, drawing, line_shape, Color, Shape};
use crate::fixed::{abs, abs_exec, clamped, max, max_exec, min};
use crate::order::{
    ascending_order, at_places, fractions_are_ordered, is_weak_order, rank_all, ranks,
    sort_ascending, take_places,
};
use crate::text::{decimal, fixed_decimal, push_fixed, push_number};
use crate::wide::Integer;

verus! {

/// The attempts of the stage.
pub const MAX_RETRIES: u32 = 15;

/// Lines nearer than this are one line.
pub const CLUSTER_RHO_THRESHOLD: i64 = 10_000_000;

/// The least distance of the two reference lines.
pub const MIN_LINE_SEPARATION: i64 = 15_000_000;

/// What the stage says of itself.
pub fn descriptor() -> (r: StageDescriptor)
    ensures
        r.name@ == "FindLines"@,
        r.label@ == "S2:FindLines"@,
        r.fallback matches Some(f) && f@ == "FindStove"@,
{
    StageDescriptor { name: "FindLines", label: "S2:FindLines", fallback: Some("FindStove") }
}

/// The thresholds of an attempt for edges, weak and strong, and for lines. They are relaxed when
/// the five best pairs of lines have been tried.
pub open spec fn thresholds(iteration: int) -> (int, int, int) {
    let step = iteration / 5;
    (max(80 - step * 6, 20), max(200 - step * 14, 60), max(200 - step * 15, 80))
}

/// The thresholds of an attempt for edges, weak and strong, and for lines.
pub fn thresholds_for_iteration(iteration: u32) -> (r: (i64, i64, i64))
    ensures
        (r.0 as int, r.1 as int, r.2 as int) == thresholds(iteration as int),
{
    let step: i64 = (iteration / 5) as i64;
    (max_exec(80 - step * 6, 20), max_exec(200 - step * 14, 60), max_exec(200 - step * 15, 80))
}

/// The lines within fifteen degrees of horizontal.
pub open spec fn horizontals(lines: Seq<HoughLine>) -> Seq<HoughLine>
    decreases lines.len(),
{
    if lines.len() == 0 {
        Seq::empty()
    } else {
        let before = horizontals(lines.drop_last());
        if abs(lines.last().theta - 90_000_000) <= 15_000_000 {
            before.push(lines.last())
        } else {
            before
        }
    }
}

/// A cluster of lines: the sums of their distances and angles, and how many lines it holds.
#[derive(Debug, Clone, Copy, PartialEq, Eq, Structural)]
pub struct ClusterSummary {
    pub rho_sum: i128,
    pub theta_sum: i128,
    pub votes: usize,
}

/// The summaries of the clusters.
pub open spec fn summaries(clusters: Seq<Seq<HoughLine>>) -> Seq<ClusterSummary> {
    clusters.map_values(
        |c: Seq<HoughLine>|
            ClusterSummary {
                rho_sum: rho_sum(c) as i128,
                theta_sum: theta_sum(c) as i128,
                votes: c.len() as usize,
            },
    )
}

/// Two lines that could be the reference lines, the upper one first.
#[derive(Debug, Clone, Copy, PartialEq, Eq, Structural)]
pub struct CandidatePair {
    pub top: ClusterSummary,
    pub bot: ClusterSummary,
}

/// A number as a fraction, or one that is larger than every fraction.
#[verifier::ext_equal]
pub struct Score {
    pub is_endless: bool,
    pub over: int,
    pub under: int,
}

/// How far the lines of a pair are apart, times the votes of both.
pub open spec fn span(p: CandidatePair) -> int {
    p.bot.rho_sum * p.top.votes - p.top.rho_sum * p.bot.votes
}

/// The sum of the distances of a pair from the top, times the votes of both.
pub open spec fn depth(p: CandidatePair) -> int {
    p.bot.rho_sum * p.top.votes + p.top.rho_sum * p.bot.votes
}

/// How far the lines of a pair are turned against each other, times the votes of both.
pub open spec fn turn(p: CandidatePair) -> int {
    abs(p.bot.theta_sum * p.top.votes - p.top.theta_sum * p.bot.votes)
}

/// How well a pair does: four tenths for lying high in the crop, a quarter for being parallel, a
/// fifth for the votes, and the rest for the distance. In a crop without height a pair above it
/// beats every other, and all others lie low and far apart.
pub open spec fn score_pair(p: CandidatePair, crop_height: int, max_votes: int) -> Score {
    let d = p.top.votes * p.bot.votes;
    let h = max(crop_height, 1) * 1_000_000 * d;
    let t = 15_000_000 * d;
    let v = max_votes;
    let high = if crop_height > 0 {
        2 * h - min(depth(p), 2 * h)
    } else {
        0
    };
    let parallel = t - min(turn(p), t);
    let votes = min((p.top.votes + p.bot.votes) as int, 2 * v);
    let apart = if crop_height > 0 {
        min(span(p), h)
    } else {
        h
    };
    Score {
        is_endless: crop_height <= 0 && depth(p) < 0,
        over: 8 * high * t * v + 10 * parallel * h * v + 4 * votes * h * t + 6 * apart * t * v,
        under: 40 * h * t * v,
    }
}

/// One score is higher than another.
pub open spec fn is_higher(a: Score, b: Score) -> bool {
    if a.is_endless || b.is_endless {
        a.is_endless && !b.is_endless
    } else {
        a.over * b.under > b.over * a.under
    }
}

/// The pair of two clusters, if they are far enough apart.
pub open spec fn pair_of(a: ClusterSummary, b: ClusterSummary) -> Option<CandidatePair> {
    let p = if a.rho_sum * b.votes <= b.rho_sum * a.votes {
        CandidatePair { top: a, bot: b }
    } else {
        CandidatePair { top: b, bot: a }
    };
    if span(p) < 15_000_000 * (p.top.votes * p.bot.votes) {
        None
    } else {
        Some(p)
    }
}

/// The pairs of cluster `i` with the clusters `i + 1` up to `upto`.
pub open spec fn pairs_from(s: Seq<ClusterSummary>, i: int, upto: int) -> Seq<CandidatePair>
    decreases upto - i,
{
    if upto <= i + 1 {
        Seq::empty()
    } else {
        let before = pairs_from(s, i, upto - 1);
        match pair_of(s[i], s[upto - 1]) {
            Some(p) => before.push(p),
            None => before,
        }
    }
}

/// All pairs of clusters, the first of which is before `upto`.
pub open spec fn candidate_pairs(s: Seq<ClusterSummary>, upto: int) -> Seq<CandidatePair>
    decreases upto,
{
    if upto <= 0 {
        Seq::empty()
    } else {
        candidate_pairs(s, upto - 1) + pairs_from(s, upto - 1, s.len() as int)
    }
}

/// The most votes of a cluster, at least one.
pub open spec fn most_votes(s: Seq<ClusterSummary>) -> int
    decreases s.len(),
{
    if s.len() == 0 {
        1
    } else {
        max(most_votes(s.drop_last()), s.last().votes as int)
    }
}

/// Which of two pairs does better.
pub open spec fn by_score(
    pairs: Seq<CandidatePair>,
    crop_height: int,
    max_votes: int,
) -> spec_fn(int, int) -> bool {
    |i: int, j: int|
        is_higher(
            score_pair(pairs[i], crop_height, max_votes),
            score_pair(pairs[j], crop_height, max_votes),
        )
}

/// The pairs from the best to the worst.
pub open spec fn best_pairs(
    pairs: Seq<CandidatePair>,
    crop_height: int,
    max_votes: int,
) -> Seq<CandidatePair> {
    at_places(pairs, ascending_order(ranks(by_score(pairs, crop_height, max_votes), pairs.len())))
}

/// All pairs of reference lines among these lines, from the best to the worst.
pub open spec fn ranked_pairs(clusters: Seq<Seq<HoughLine>>, crop_height: int) -> Seq<CandidatePair> {
    let s = summaries(clusters);
    best_pairs(candidate_pairs(s, s.len() as int), crop_height, most_votes(s))
}

proof fn scores_have_positive_parts(p: CandidatePair, crop_height: int, max_votes: int)
    requires
        p.top.votes > 0,
        p.bot.votes > 0,
        max_votes > 0,
    ensures
        score_pair(p, crop_height, max_votes).under > 0,
{
    let d = p.top.votes * p.bot.votes;
    assert(d > 0) by (nonlinear_arith)
        requires
            d == p.top.votes * p.bot.votes,
            p.top.votes > 0,
            p.bot.votes > 0,
    ;
    let h = max(crop_height, 1) * 1_000_000 * d;
    let t = 15_000_000 * d;
    assert(h > 0) by (nonlinear_arith)
        requires
            h == max(crop_height, 1) * 1_000_000 * d,
            max(crop_height, 1) >= 1,
            d > 0,
    ;
    assert(40 * h * t * max_votes > 0) by (nonlinear_arith)
        requires
            h > 0,
            t > 0,
            max_votes > 0,
    ;
}

/// Pairs are ordered by their scores.
pub proof fn scores_are_ordered(pairs: Seq<CandidatePair>, crop_height: int, max_votes: int)
    requires
        max_votes > 0,
        forall|i: int|
            0 <= i < pairs.len() ==> (#[trigger] pairs[i]).top.votes > 0 && pairs[i].bot.votes > 0,
    ensures
        is_weak_order(by_score(pairs, crop_height, max_votes), pairs.len() as int),
{
    let before = by_score(pairs, crop_height, max_votes);
    assert forall|i: int, j: int, k: int|
        0 <= i < pairs.len() && 0 <= j < pairs.len() && 0 <= k < pairs.len() && #[trigger] before(
            i,
            j,
        ) implies before(i, k) || #[trigger] before(k, j) by {
        let a = score_pair(pairs[i], crop_height, max_votes);
        let b = score_pair(pairs[j], crop_height, max_votes);
        let c = score_pair(pairs[k], crop_height, max_votes);
        scores_have_positive_parts(pairs[i], crop_height, max_votes);
        scores_have_positive_parts(pairs[j], crop_height, max_votes);
        scores_have_positive_parts(pairs[k], crop_height, max_votes);
        if !a.is_endless && !b.is_endless && !c.is_endless {
            fractions_are_ordered(a.over, a.under, b.over, b.under, c.over, c.under);
        }
    }
}

fn filter_horizontals(lines: &Vec<HoughLine>) -> (r: Vec<HoughLine>)
    ensures
        r@ == horizontals(lines@),
{
    let mut r: Vec<HoughLine> = Vec::new();
    let mut i: usize = 0;
    assert(lines@.take(0) =~= Seq::empty());
    while i < lines.len()
        invariant
            i <= lines.len(),
            r@ == horizontals(lines@.take(i as int)),
        decreases lines.len() - i,
    {
        assert(lines@.take(i as int + 1).drop_last() =~= lines@.take(i as int));
        if abs_exec(lines[i].theta as i128 - 90_000_000) <= 15_000_000 {
            r.push(lines[i]);
        }
        i = i + 1;
    }
    assert(lines@.take(i as int) =~= lines@);
    r
}

fn summarise(clusters: &Vec<Vec<HoughLine>>) -> (r: Vec<ClusterSummary>)
    requires
        forall|k: int| 0 <= k < clusters.len() ==> 0 < (#[trigger] clusters[k])@.len(),
    ensures
        r@ == summaries(cluster_view(clusters@)),
        forall|k: int| 0 <= k < r.len() ==> (#[trigger] r[k]).votes > 0,
{
    let mut r: Vec<ClusterSummary> = Vec::new();
    let mut i: usize = 0;
    let ghost wanted = summaries(cluster_view(clusters@));
    while i < clusters.len()
        invariant
            forall|k: int| 0 <= k < clusters.len() ==> 0 < (#[trigger] clusters[k])@.len(),
            wanted == summaries(cluster_view(clusters@)),
            i <= clusters.len(),
            r.len() == i,
            forall|k: int| 0 <= k < i ==> #[trigger] r[k] == wanted[k],
            forall|k: int| 0 <= k < i ==> (#[trigger] r[k]).votes > 0,
        decreases clusters.len() - i,
    {
        let c: &Vec<HoughLine> = &clusters[i];
        assert(clusters[i as int]@.len() > 0);
        r.push(ClusterSummary { rho_sum: sum_rho(c), theta_sum: sum_theta(c), votes: c.len() });
        i = i + 1;
    }
    assert(r@ =~= wanted);
    r
}

/// `a * b`.
fn product(a: i128, b: usize) -> (r: Integer)
    ensures
        r@ == a * b,
{
    Integer::new(a).times(&Integer::new(b as i128))
}

fn find_span(p: &CandidatePair) -> (r: Integer)
    ensures
        r@ == span(*p),
{
    product(p.bot.rho_sum, p.top.votes).minus(&product(p.top.rho_sum, p.bot.votes))
}

/// A score with wide parts.
struct WideScore {
    is_endless: bool,
    over: Integer,
    under: Integer,
}

impl WideScore {
    spec fn score(&self) -> Score {
        Score { is_endless: self.is_endless, over: self.over@, under: self.under@ }
    }

    fn does_exceed(&self, other: &Self) -> (r: bool)
        ensures
            r == is_higher(self.score(), other.score()),
    {
        if self.is_endless || other.is_endless {
            self.is_endless && !other.is_endless
        } else {
            other.over.times(&self.under).is_less(&self.over.times(&other.under))
        }
    }
}

fn find_score(p: &CandidatePair, crop_height: u32, max_votes: usize) -> (r: WideScore)
    ensures
        r.score() == score_pair(*p, crop_height as int, max_votes as int),
{
    let d: Integer = product(p.top.votes as i128, p.bot.votes);
    let rows: i128 = if crop_height > 0 {
        crop_height as i128
    } else {
        1
    };
    let h: Integer = Integer::new(rows * 1_000_000).times(&d);
    let t: Integer = Integer::new(15_000_000).times(&d);
    let v: Integer = Integer::new(max_votes as i128);
    let zero: Integer = Integer::new(0);
    let two: Integer = Integer::new(2);
    let depth: Integer = product(p.bot.rho_sum, p.top.votes).plus(
        &product(p.top.rho_sum, p.bot.votes),
    );
    let off: Integer = product(p.bot.theta_sum, p.top.votes).minus(
        &product(p.top.theta_sum, p.bot.votes),
    );
    let turned: Integer = if off.is_negative() {
        off.opposite()
    } else {
        off
    };
    let deep: Integer = two.times(&h);
    let (high, apart): (Integer, Integer) = if crop_height > 0 {
        (deep.minus(&depth.at_most(&deep)), find_span(p).at_most(&h))
    } else {
        (zero, h.clone())
    };
    let parallel: Integer = t.minus(&turned.at_most(&t));
    let votes: Integer = Integer::new(p.top.votes as i128 + p.bot.votes as i128).at_most(
        &two.times(&v),
    );
    let over: Integer = Integer::new(8).times(&high).times(&t).times(&v).plus(
        &Integer::new(10).times(&parallel).times(&h).times(&v),
    ).plus(&Integer::new(4).times(&votes).times(&h).times(&t)).plus(
        &Integer::new(6).times(&apart).times(&t).times(&v),
    );
    let under: Integer = Integer::new(40).times(&h).times(&t).times(&v);
    WideScore { is_endless: crop_height == 0 && depth.is_negative(), over, under }
}

fn find_pair(a: &ClusterSummary, b: &ClusterSummary) -> (r: Option<CandidatePair>)
    ensures
        r == pair_of(*a, *b),
        r matches Some(p) ==> (p.top == *a && p.bot == *b) || (p.top == *b && p.bot == *a),
{
    let swapped: bool = product(b.rho_sum, a.votes).is_less(&product(a.rho_sum, b.votes));
    let p: CandidatePair = if swapped {
        CandidatePair { top: *b, bot: *a }
    } else {
        CandidatePair { top: *a, bot: *b }
    };
    let least: Integer = Integer::new(MIN_LINE_SEPARATION as i128).times(
        &product(p.top.votes as i128, p.bot.votes),
    );
    if find_span(&p).is_less(&least) {
        None
    } else {
        Some(p)
    }
}

/// Both lines of every pair have votes.
spec fn have_votes(pairs: Seq<CandidatePair>) -> bool {
    forall|k: int|
        0 <= k < pairs.len() ==> (#[trigger] pairs[k]).top.votes > 0 && pairs[k].bot.votes > 0
}

fn find_pairs(s: &Vec<ClusterSummary>) -> (r: Vec<CandidatePair>)
    requires
        forall|k: int| 0 <= k < s.len() ==> (#[trigger] s[k]).votes > 0,
    ensures
        r@ == candidate_pairs(s@, s.len() as int),
        have_votes(r@),
{
    let n: usize = s.len();
    let mut r: Vec<CandidatePair> = Vec::new();
    let mut i: usize = 0;
    while i < n
        invariant
            n == s.len(),
            forall|k: int| 0 <= k < s.len() ==> (#[trigger] s[k]).votes > 0,
            i <= n,
            r@ == candidate_pairs(s@, i as int),
            have_votes(r@),
        decreases n - i,
    {
        let ghost before = r@;
        let mut j: usize = i + 1;
        assert(r@ =~= before + pairs_from(s@, i as int, j as int));
        while j < n
            invariant
                n == s.len(),
                forall|k: int| 0 <= k < s.len() ==> (#[trigger] s[k]).votes > 0,
                i < j <= n,
                r@ == before + pairs_from(s@, i as int, j as int),
                have_votes(r@),
            decreases n - j,
        {
            let ghost had = pairs_from(s@, i as int, j as int);
            assert(s[i as int].votes > 0 && s[j as int].votes > 0);
            if let Some(p) = find_pair(&s[i], &s[j]) {
                r.push(p);
                assert(r@ =~= before + had.push(p));
            }
            j = j + 1;
        }
        i = i + 1;
    }
    r
}

fn find_most_votes(s: &Vec<ClusterSummary>) -> (r: usize)
    ensures
        r == most_votes(s@),
        r > 0,
{
    let mut r: usize = 1;
    let mut i: usize = 0;
    assert(s@.take(0) =~= Seq::empty());
    while i < s.len()
        invariant
            i <= s.len(),
            r == most_votes(s@.take(i as int)),
            r > 0,
        decreases s.len() - i,
    {
        assert(s@.take(i as int + 1).drop_last() =~= s@.take(i as int));
        if r < s[i].votes {
            r = s[i].votes;
        }
        i = i + 1;
    }
    assert(s@.take(i as int) =~= s@);
    r
}

fn rank_pairs(pairs: &Vec<CandidatePair>, crop_height: u32, max_votes: usize) -> (r: Vec<
    CandidatePair,
>)
    ensures
        r@ == best_pairs(pairs@, crop_height as int, max_votes as int),
        r.len() == pairs.len(),
        forall|i: int| 0 <= i < r.len() ==> pairs@.contains(#[trigger] r[i]),
{
    let n: usize = pairs.len();
    let mut scores: Vec<WideScore> = Vec::with_capacity(n);
    let mut k: usize = 0;
    while k < n
        invariant
            n == pairs.len(),
            k <= n,
            scores.len() == k,
            forall|j: int|
                0 <= j < k ==> (#[trigger] scores[j]).score() == score_pair(
                    pairs[j],
                    crop_height as int,
                    max_votes as int,
                ),
        decreases n - k,
    {
        scores.push(find_score(&pairs[k], crop_height, max_votes));
        k = k + 1;
    }
    let higher = |i: usize, j: usize| -> (r: bool)
        requires
            i < scores.len(),
            j < scores.len(),
        ensures
            r == is_higher(scores@[i as int].score(), scores@[j as int].score()),
        { scores[i].does_exceed(&scores[j]) };
    let keys: Vec<i128> = rank_all(
        n,
        &higher,
        Ghost(by_score(pairs@, crop_height as int, max_votes as int)),
    );
    let order: Vec<usize> = sort_ascending(&keys);
    let r: Vec<CandidatePair> = take_places(pairs, &order);
    assert forall|i: int| 0 <= i < r.len() implies pairs@.contains(#[trigger] r[i]) by {
        assert(pairs@[order[i] as int] == r[i]);
    }
    r
}

/// The error for a frame without a crop.
pub fn no_crop() -> (r: StageOutcome)
    ensures
        is_exhausted(r, "no crop region from Stage 1"@),
{
    StageOutcome::Exhausted(String::from_str("no crop region from Stage 1"))
}

/// The pair of an attempt: the attempts take the five best pairs in turn, or the last one where
/// there are fewer.
pub open spec fn pair_for_attempt(pairs: Seq<CandidatePair>, iteration: int) -> CandidatePair {
    if iteration % 5 < pairs.len() {
        pairs[iteration % 5]
    } else {
        pairs.last()
    }
}

/// Five attempts in a row share their thresholds and try the five best pairs, one after the
/// other, or the last pair again where there are fewer.
pub proof fn attempts_try_the_best_pairs(pairs: Seq<CandidatePair>, group: int, k: int)
    requires
        pairs.len() > 0,
        group >= 0,
        0 <= k < 5,
    ensures
        thresholds(group * 5 + k) == thresholds(group * 5),
        pair_for_attempt(pairs, group * 5 + k) == pairs[min(k, pairs.len() - 1)],
{
}

/// Later attempts take weaker edges and shorter lines, never stronger or longer ones.
pub proof fn thresholds_only_fall(earlier: int, later: int)
    requires
        0 <= earlier <= later,
    ensures
        thresholds(later).0 <= thresholds(earlier).0,
        thresholds(later).1 <= thresholds(earlier).1,
        thresholds(later).2 <= thresholds(earlier).2,
{
}

/// The reference lines that an attempt may choose from the lines that were found in the crop.
pub open spec fn is_pair_choice(
    lines: Seq<HoughLine>,
    crop_height: int,
    iteration: int,
    r: Result<CandidatePair, StageOutcome>,
) -> bool {
    let near = horizontals(lines);
    let clusters = clusters_of(by_rho(near), 10_000_000);
    let pairs = ranked_pairs(clusters, crop_height);
    let (low, high, hough) = thresholds(iteration);
    if near.len() < 2 {
        r matches Err(o) && is_retry(
            o,
            "found "@ + decimal(near.len() as int) + " horizontal lines (need 2), canny="@
                + decimal(low) + "/"@ + decimal(high) + ", hough="@ + decimal(hough),
        )
    } else if clusters.len() < 2 {
        r matches Err(o) && is_retry(
            o,
            "only "@ + decimal(clusters.len() as int) + " line cluster(s) after merging (need 2)"@,
        )
    } else if pairs.len() == 0 {
        r matches Err(o) && is_retry(
            o,
            decimal(clusters.len() as int) + " clusters but no pair with separation >= 15"@,
        )
    } else {
        r == Ok::<CandidatePair, StageOutcome>(pair_for_attempt(pairs, iteration))
    }
}

/// Chooses the reference lines of an attempt from the lines that were found in the crop.
pub fn choose_pair(lines: &Vec<HoughLine>, crop_height: u32, iteration: u32) -> (r: Result<
    CandidatePair,
    StageOutcome,
>)
    ensures
        is_pair_choice(lines@, crop_height as int, iteration as int, r),
        r matches Ok(p) ==> p.top.votes > 0 && p.bot.votes > 0,
{
    let near: Vec<HoughLine> = filter_horizontals(lines);
    if near.len() < 2 {
        let (low, high, hough) = thresholds_for_iteration(iteration);
        let mut s: String = String::from_str("found ");
        push_number(&mut s, near.len() as u128);
        s.append(" horizontal lines (need 2), canny=");
        push_number(&mut s, low as u128);
        s.append("/");
        push_number(&mut s, high as u128);
        s.append(", hough=");
        push_number(&mut s, hough as u128);
        return Err(StageOutcome::Retry(s));
    }
    let clusters: Vec<Vec<HoughLine>> = cluster_by_rho(&near, CLUSTER_RHO_THRESHOLD);
    assert(cluster_view(clusters@).len() == clusters.len());
    if clusters.len() < 2 {
        let mut s: String = String::from_str("only ");
        push_number(&mut s, clusters.len() as u128);
        s.append(" line cluster(s) after merging (need 2)");
        return Err(StageOutcome::Retry(s));
    }
    let sums: Vec<ClusterSummary> = summarise(&clusters);
    let max_votes: usize = find_most_votes(&sums);
    let pairs: Vec<CandidatePair> = find_pairs(&sums);
    let ranked: Vec<CandidatePair> = rank_pairs(&pairs, crop_height, max_votes);
    if ranked.len() == 0 {
        let mut s: String = String::from_str("");
        proof {
            reveal_strlit("");
        }
        push_number(&mut s, sums.len() as u128);
        s.append(" clusters but no pair with separation >= 15");
        assert(s@ =~= decimal(sums.len() as int) + " clusters but no pair with separation >= 15"@);
        return Err(StageOutcome::Retry(s));
    }
    let idx: usize = (iteration % 5) as usize;
    let at: usize = if idx < ranked.len() {
        idx
    } else {
        ranked.len() - 1
    };
    proof {
        assert(pairs@.contains(ranked@[at as int]));
        let k = choose|k: int| 0 <= k < pairs.len() && pairs@[k] == ranked@[at as int];
        assert(pairs@[k].top.votes > 0);
    }
    Ok(ranked[at])
}

/// `a / b` in the unit of `a` times a billion, rounded down, whatever the sign of `b`.
pub open spec fn over_sine(a: int, sine: int) -> int {
    if sine > 0 {
        a * 1_000_000_000 / sine
    } else {
        (-a) * 1_000_000_000 / (-sine)
    }
}

/// A sine that can be divided by: at least a millionth, in billionths.
pub open spec fn safe_sine(sine: int) -> int {
    if abs(sine) < 1_000 {
        1_000
    } else {
        sine
    }
}

/// The line through the whole width of the crop, as far as its ends fit, given the cosine and the
/// sine of its angle in billionths.
pub open spec fn line_across(rho: int, cosine: int, sine: int, width: int) -> Line {
    Line {
        x1: 0,
        y1: clamped(over_sine(rho, safe_sine(sine))) as i64,
        x2: (width * 1_000_000) as i64,
        y2: clamped(over_sine(rho - width * cosine / 1_000, safe_sine(sine))) as i64,
    }
}

fn divide_by_sine(a: &Integer, sine: i64) -> (r: i64)
    requires
        sine != 0,
    ensures
        r == clamped(over_sine(a@, sine as int)),
{
    let unit: Integer = Integer::new(1_000_000_000);
    let s: Integer = Integer::new(sine as i128);
    let n: Integer = a.times(&unit);
    if sine > 0 {
        n.over(&s).to_i64()
    } else {
        assert((-a@) * 1_000_000_000 == -(a@ * 1_000_000_000)) by (nonlinear_arith);
        n.opposite().over(&s.opposite()).to_i64()
    }
}

/// Turns a line given by its normal into one through the whole width of the crop, given the
/// cosine and the sine of its angle in billionths.
pub fn rho_theta_to_line(rho: i64, cosine: i64, sine: i64, width: u32) -> (r: Line)
    ensures
        r == line_across(rho as int, cosine as int, sine as int, width as int),
{
    let sine: i64 = if -1_000 < sine && sine < 1_000 {
        1_000
    } else {
        sine
    };
    let start: Integer = Integer::new(rho as i128);
    let shift: Integer = Integer::new(width as i128).times(&Integer::new(cosine as i128)).over(
        &Integer::new(1_000),
    );
    Line {
        x1: 0,
        y1: divide_by_sine(&start, sine),
        x2: width as i64 * 1_000_000,
        y2: divide_by_sine(&start.minus(&shift), sine),
    }
}

impl ClusterSummary {
    /// The mean distance of the cluster's lines.
    pub open spec fn spec_rho(&self) -> int {
        clamped(self.rho_sum as int / self.votes as int)
    }

    /// The mean angle of the cluster's lines.
    pub open spec fn spec_theta(&self) -> int {
        clamped(self.theta_sum as int / self.votes as int)
    }

    /// The mean distance of the cluster's lines.
    pub fn rho(&self) -> (r: i64)
        requires
            self.votes > 0,
        ensures
            r == self.spec_rho(),
    {
        Integer::new(self.rho_sum).over(&Integer::new(self.votes as i128)).to_i64()
    }

    /// The mean angle of the cluster's lines.
    pub fn theta(&self) -> (r: i64)
        requires
            self.votes > 0,
        ensures
            r == self.spec_theta(),
    {
        Integer::new(self.theta_sum).over(&Integer::new(self.votes as i128)).to_i64()
    }
}

/// The mean of the mean angles of a pair.
pub open spec fn mean_theta(p: CandidatePair) -> int {
    clamped(
        (p.top.theta_sum * p.bot.votes + p.bot.theta_sum * p.top.votes) / (2 * (p.top.votes
            * p.bot.votes)),
    )
}

/// The reference lines of a pair, and their mean angle.
pub fn line_pair(pair: &CandidatePair, top: Line, bottom: Line) -> (r: LinePair)
    requires
        pair.top.votes > 0,
        pair.bot.votes > 0,
    ensures
        r == (LinePair { top, bottom, avg_theta: mean_theta(*pair) as i64 }),
{
    let sum: Integer = product(pair.top.theta_sum, pair.bot.votes).plus(
        &product(pair.bot.theta_sum, pair.top.votes),
    );
    let d: Integer = Integer::new(2).times(&product(pair.top.votes as i128, pair.bot.votes));
    assert(pair.top.votes * pair.bot.votes > 0) by (nonlinear_arith)
        requires
            pair.top.votes > 0,
            pair.bot.votes > 0,
    ;
    LinePair { top, bottom, avg_theta: sum.over(&d).to_i64() }
}

/// `lines` may be the reference lines of a pair, where `direction` gives the cosine and the sine
/// of an angle in billionths.
pub open spec fn may_be_lines<D: Fn(i64) -> (i64, i64)>(
    direction: D,
    p: CandidatePair,
    width: int,
    lines: LinePair,
) -> bool {
    exists|top: (i64, i64), bottom: (i64, i64)| #[trigger]
        are_lines_towards(direction, p, width, lines, top, bottom)
}

/// `lines` are the reference lines of a pair towards these cosines and sines, which `direction`
/// may give for their angles.
pub open spec fn are_lines_towards<D: Fn(i64) -> (i64, i64)>(
    direction: D,
    p: CandidatePair,
    width: int,
    lines: LinePair,
    top: (i64, i64),
    bottom: (i64, i64),
) -> bool {
    &&& call_ensures(direction, (p.top.spec_theta() as i64,), top)
    &&& call_ensures(direction, (p.bot.spec_theta() as i64,), bottom)
    &&& lines == (LinePair {
        top: line_across(p.top.spec_rho(), top.0 as int, top.1 as int, width),
        bottom: line_across(p.bot.spec_rho(), bottom.0 as int, bottom.1 as int, width),
        avg_theta: mean_theta(p) as i64,
    })
}

/// An attempt goes on from the lines that were found in the crop to this outcome.
pub open spec fn settles_lines<D: Fn(i64) -> (i64, i64)>(
    direction: D,
    before: StateView,
    crop: CropRegion,
    iteration: int,
    found: Seq<HoughLine>,
    choice: Result<CandidatePair, StageOutcome>,
    after: StateView,
    outcome: StageOutcome,
) -> bool {
    &&& is_pair_choice(found, crop.height as int, iteration, choice)
    &&& match choice {
        Err(o) => outcome == o && after == before,
        Ok(pair) => {
            &&& outcome is Success
            &&& after.lines matches Some(lines) && may_be_lines(
                direction,
                pair,
                crop.width as int,
                lines,
            )
            &&& after == (StateView { lines: after.lines, ..before })
        },
    }
}

/// What an attempt may do and return, where `find` gives the lines in the crop for two thresholds
/// of the edges and one of the lines.
pub open spec fn is_attempt<
    E,
    F: Fn(i64, i64, i64) -> Result<Vec<HoughLine>, E>,
    D: Fn(i64) -> (i64, i64),
>(
    before: StateView,
    iteration: int,
    find: F,
    direction: D,
    after: StateView,
    r: Result<(StageOutcome, ImageOutput), E>,
) -> bool {
    let (low, high, hough) = thresholds(iteration);
    let asked = (low as i64, high as i64, hough as i64);
    match before.crop {
        None => {
            &&& r matches Ok(x) && x.1 is Passthrough && is_exhausted(
                x.0,
                "no crop region from Stage 1"@,
            )
            &&& after == before
        },
        Some(crop) => match r {
            Ok((outcome, output)) => {
                &&& output is Passthrough
                &&& exists|found: Vec<HoughLine>, choice: Result<CandidatePair, StageOutcome>|
                    #![trigger settles_lines(
                        direction,
                        before,
                        crop,
                        iteration,
                        found@,
                        choice,
                        after,
                        outcome,
                    )]
                    call_ensures(find, asked, Ok(found)) && settles_lines(
                        direction,
                        before,
                        crop,
                        iteration,
                        found@,
                        choice,
                        after,
                        outcome,
                    )
            },
            Err(e) => after == before && call_ensures(find, asked, Err(e)),
        },
    }
}

/// The stage that finds the reference lines.
#[derive(Debug, Clone, Copy, PartialEq, Eq, Structural)]
pub struct FindLines;

impl FindLines {
    /// An attempt of the stage. `find` gives the lines in the crop, for the two thresholds of the
    /// edges and the one of the lines; `direction` gives the cosine and the sine of an angle, in
    /// billionths. A failed attempt leaves the state as it was; one that succeeds changes the
    /// lines alone. No attempt changes the image.
    pub fn run<
        E,
        F: Fn(i64, i64, i64) -> Result<Vec<HoughLine>, E>,
        D: Fn(i64) -> (i64, i64),
    >(&self, state: &mut PipelineState, iteration: u32, find: &F, direction: &D) -> (r: Result<
        (StageOutcome, ImageOutput),
        E,
    >)
        requires
            forall|low: i64, high: i64, hough: i64| #[trigger]
                call_requires(*find, (low, high, hough)),
            forall|theta: i64| #[trigger] call_requires(*direction, (theta,)),
        ensures
            is_attempt(old(state)@, iteration as int, *find, *direction, final(state)@, r),
            match r {
                Ok((StageOutcome::Success, _)) => final(state)@ == (StateView {
                    lines: final(state)@.lines,
                    ..old(state)@
                }),
                _ => final(state)@ == old(state)@,
            },
    {
        let crop: CropRegion = match state.crop {
            Some(crop) => crop,
            None => return Ok((no_crop(), ImageOutput::Passthrough)),
        };
        let (low, high, hough) = thresholds_for_iteration(iteration);
        let found: Vec<HoughLine> = match find(low, high, hough) {
            Ok(found) => found,
            Err(e) => return Err(e),
        };
        let choice: Result<CandidatePair, StageOutcome> = choose_pair(
            &found,
            crop.height,
            iteration,
        );
        match choice {
            Err(o) => {
                assert(settles_lines(
                    *direction,
                    old(state)@,
                    crop,
                    iteration as int,
                    found@,
                    choice,
                    state@,
                    o,
                ));
                Ok((o, ImageOutput::Passthrough))
            },
            Ok(pair) => {
                let (top_rho, bot_rho): (i64, i64) = (pair.top.rho(), pair.bot.rho());
                let top: (i64, i64) = direction(pair.top.theta());
                let bottom: (i64, i64) = direction(pair.bot.theta());
                let lines: LinePair = line_pair(
                    &pair,
                    rho_theta_to_line(top_rho, top.0, top.1, crop.width),
                    rho_theta_to_line(bot_rho, bottom.0, bottom.1, crop.width),
                );
                assert(are_lines_towards(
                    *direction,
                    pair,
                    crop.width as int,
                    lines,
                    top,
                    bottom,
                ));
                state.lines = Some(lines);
                assert(settles_lines(
                    *direction,
                    old(state)@,
                    crop,
                    iteration as int,
                    found@,
                    choice,
                    state@,
                    StageOutcome::Success,
                ));
                Ok((StageOutcome::Success, ImageOutput::Passthrough))
            },
        }
    }
}

/// An attempt that fails leaves the state as it was, and without a crop it is exhausted; one that
/// succeeds has found both lines and changed nothing else. No attempt changes the image.
pub proof fn attempts_change_the_lines_alone<
    E,
    F: Fn(i64, i64, i64) -> Result<Vec<HoughLine>, E>,
    D: Fn(i64) -> (i64, i64),
>(
    before: StateView,
    iteration: int,
    find: F,
    direction: D,
    after: StateView,
    r: Result<(StageOutcome, ImageOutput), E>,
)
    requires
        is_attempt(before, iteration, find, direction, after, r),
    ensures
        r matches Ok((outcome, output)) ==> {
            &&& output is Passthrough
            &&& !(outcome is Success) ==> after == before
            &&& outcome is Success ==> after.lines is Some && after == (StateView {
                lines: after.lines,
                ..before
            })
        },
        r is Err ==> after == before,
        before.crop is None ==> (r matches Ok(x) && x.0 is Exhausted),
{
}

/// The debug picture of the lines: the top one in green, the bottom one in blue.
pub fn debug_shapes(lines: &LinePair) -> (r: (String, Vec<Shape>))
    ensures
        r.0@ == "S2:FindLines_T"@ + fixed_decimal(lines.top.y1 as int, 0) + "_B"@ + fixed_decimal(
            lines.bottom.y1 as int,
            0,
        ),
        drawing(r.1@) == seq![
            line_shape(lines.top, bgr(0, 255, 0)),
            line_shape(lines.bottom, bgr(255, 0, 0)),
        ],
{
    let mut label: String = String::from_str("S2:FindLines_T");
    push_fixed(&mut label, lines.top.y1 as i128, 0);
    label.append("_B");
    push_fixed(&mut label, lines.bottom.y1 as i128, 0);
    let mut shapes: Vec<Shape> = Vec::new();
    shapes.push(draw_line(&lines.top, Color { blue: 0, green: 255, red: 0 }));
    shapes.push(draw_line(&lines.bottom, Color { blue: 255, green: 0, red: 0 }));
    assert(drawing(shapes@) =~= seq![
        line_shape(lines.top, bgr(0, 255, 0)),
        line_shape(lines.bottom, bgr(255, 0, 0)),
    ]);
    (label, shapes)
}

/// The lines of a pair lie at least fifteen pixels apart.
pub open spec fn are_separated(p: CandidatePair) -> bool {
    span(p) >= 15_000_000 * (p.top.votes * p.bot.votes)
}

proof fn pairs_from_are_separated(s: Seq<ClusterSummary>, i: int, upto: int, k: int)
    requires
        0 <= k < pairs_from(s, i, upto).len(),
    ensures
        are_separated(pairs_from(s, i, upto)[k]),
    decreases upto - i,
{
    if upto > i + 1 {
        let before = pairs_from(s, i, upto - 1);
        if k < before.len() {
            pairs_from_are_separated(s, i, upto - 1, k);
            assert(pairs_from(s, i, upto)[k] == before[k]);
        }
    }
}

proof fn candidates_are_separated(s: Seq<ClusterSummary>, upto: int, k: int)
    requires
        0 <= k < candidate_pairs(s, upto).len(),
    ensures
        are_separated(candidate_pairs(s, upto)[k]),
    decreases upto,
{
    if upto > 0 {
        let before = candidate_pairs(s, upto - 1);
        let more = pairs_from(s, upto - 1, s.len() as int);
        if k < before.len() {
            candidates_are_separated(s, upto - 1, k);
            assert((before + more)[k] == before[k]);
        } else {
            pairs_from_are_separated(s, upto - 1, s.len() as int, k - before.len());
            assert((before + more)[k] == more[k - before.len()]);
        }
    }
}

/// Whatever pair an attempt takes, its lines lie at least fifteen pixels apart.
pub proof fn chosen_lines_are_separated(
    clusters: Seq<Seq<HoughLine>>,
    crop_height: int,
    iteration: int,
)
    requires
        iteration >= 0,
        ranked_pairs(clusters, crop_height).len() > 0,
        candidate_pairs(summaries(clusters), clusters.len() as int).len() <= usize::MAX,
    ensures
        are_separated(pair_for_attempt(ranked_pairs(clusters, crop_height), iteration)),
{
    let s = summaries(clusters);
    let pairs = candidate_pairs(s, s.len() as int);
    let keys = ranks(by_score(pairs, crop_height, most_votes(s)), pairs.len());
    let order = ascending_order(keys);
    crate::order::ascending_order_exists(keys);
    let ranked = ranked_pairs(clusters, crop_height);
    let at = if iteration % 5 < ranked.len() {
        iteration % 5
    } else {
        ranked.len() - 1
    };
    assert(order[at] < pairs.len());
    candidates_are_separated(s, s.len() as int, order[at] as int);
}

/// The lines that count are those within fifteen degrees of the horizontal, in their order.
pub proof fn horizontals_are_nearly_level(lines: Seq<HoughLine>)
    ensures
        horizontals(lines) == lines.filter(
            |l: HoughLine| 75_000_000 <= l.theta && l.theta <= 105_000_000,
        ),
    decreases lines.len(),
{
    reveal(Seq::filter);
    if lines.len() > 0 {
        horizontals_are_nearly_level(lines.drop_last());
    }
}

/// Both lines of a pair have votes.
pub open spec fn is_voted(p: CandidatePair) -> bool {
    p.top.votes > 0 && p.bot.votes > 0
}

/// Two pairs have the same votes.
pub open spec fn same_votes(p: CandidatePair, q: CandidatePair) -> bool {
    p.top.votes == q.top.votes && p.bot.votes == q.bot.votes
}

/// Two pairs lie at the same distances from the top.
pub open spec fn same_places(p: CandidatePair, q: CandidatePair) -> bool {
    p.top.rho_sum == q.top.rho_sum && p.bot.rho_sum == q.bot.rho_sum
}

/// Two pairs have the same angles.
pub open spec fn same_angles(p: CandidatePair, q: CandidatePair) -> bool {
    p.top.theta_sum == q.top.theta_sum && p.bot.theta_sum == q.bot.theta_sum
}

proof fn votes_are_positive(p: CandidatePair, crop_height: int, max_votes: int)
    requires
        is_voted(p),
        crop_height > 0,
        max_votes > 0,
    ensures
        ({
            let d = p.top.votes * p.bot.votes;
            let h = crop_height * 1_000_000 * d;
            &&& d > 0
            &&& h > 0
            &&& 15_000_000 * d > 0
            &&& h * (15_000_000 * d) > 0
            &&& h * max_votes > 0
            &&& 15_000_000 * d * max_votes > 0
            &&& 40 * h * (15_000_000 * d) * max_votes > 0
        }),
{
    let d = p.top.votes * p.bot.votes;
    assert(d > 0) by (nonlinear_arith)
        requires
            d == p.top.votes * p.bot.votes,
            p.top.votes > 0,
            p.bot.votes > 0,
    ;
    let h = crop_height * 1_000_000 * d;
    let t = 15_000_000 * d;
    assert(h > 0) by (nonlinear_arith)
        requires
            h == crop_height * 1_000_000 * d,
            crop_height > 0,
            d > 0,
    ;
    assert(h * t > 0 && h * max_votes > 0 && t * max_votes > 0 && 40 * h * t * max_votes > 0)
        by (nonlinear_arith)
        requires
            h > 0,
            t > 0,
            max_votes > 0,
    ;
}

/// Of two pairs that differ in their angles alone, the one whose lines are turned less against each
/// other scores higher, up to fifteen degrees; between a pair of parallel lines and one of lines
/// turned by fifteen degrees or more lies a quarter of the whole score.
pub proof fn parallel_lines_score_higher(
    p: CandidatePair,
    q: CandidatePair,
    crop_height: int,
    max_votes: int,
)
    requires
        is_voted(p),
        same_votes(p, q),
        same_places(p, q),
        crop_height > 0,
        max_votes > 0,
    ensures
        ({
            let d = p.top.votes * p.bot.votes;
            let a = abs(p.top.theta_sum * p.bot.votes - p.bot.theta_sum * p.top.votes);
            let b = abs(q.top.theta_sum * q.bot.votes - q.bot.theta_sum * q.top.votes);
            let (x, y) = (
                score_pair(p, crop_height, max_votes),
                score_pair(q, crop_height, max_votes),
            );
            &&& a < b && a < 15_000_000 * d ==> is_higher(x, y)
            &&& a >= 15_000_000 * d && b >= 15_000_000 * d ==> !is_higher(x, y) && !is_higher(y, x)
            &&& a == 0 && b >= 15_000_000 * d ==> x.under == y.under && 4 * (x.over - y.over)
                == x.under
        }),
{
    votes_are_positive(p, crop_height, max_votes);
    let d = p.top.votes * p.bot.votes;
    let h = crop_height * 1_000_000 * d;
    let t = 15_000_000 * d;
    let v = max_votes;
    let (x, y) = (score_pair(p, crop_height, v), score_pair(q, crop_height, v));
    let (e, f) = (t - min(turn(p), t), t - min(turn(q), t));
    assert(x.under == y.under && x.under > 0);
    assert(x.over - y.over == 10 * e * h * v - 10 * f * h * v);
    assert(10 * e * h * v - 10 * f * h * v == 10 * (e - f) * (h * v)) by (nonlinear_arith);
    assert(turn(p) < turn(q) && turn(p) < t ==> 10 * (e - f) * (h * v) > 0) by (nonlinear_arith)
        requires
            h * v > 0,
            turn(p) < turn(q) && turn(p) < t ==> e > f,
    ;
    assert(x.over > y.over ==> x.over * y.under > y.over * x.under) by (nonlinear_arith)
        requires
            x.under == y.under,
            x.under > 0,
    ;
    assert(e == t && f == 0 ==> 4 * (10 * (e - f) * (h * v)) == 40 * h * t * v) by (nonlinear_arith);
    assert(e == f ==> 10 * (e - f) * (h * v) == 0) by (nonlinear_arith);
}

/// Of two pairs that differ in their height in the crop alone, the one that lies higher scores
/// higher, as long as its middle lies in the crop; between a pair whose middle lies at the top and
/// one whose middle lies at the bottom or below it lie four tenths of the whole score.
pub proof fn higher_lines_score_higher(
    p: CandidatePair,
    q: CandidatePair,
    crop_height: int,
    max_votes: int,
    down: int,
)
    requires
        is_voted(p),
        same_votes(p, q),
        same_angles(p, q),
        q.top.rho_sum == p.top.rho_sum + down * p.top.votes,
        q.bot.rho_sum == p.bot.rho_sum + down * p.bot.votes,
        down > 0,
        crop_height > 0,
        max_votes > 0,
    ensures
        ({
            let d = p.top.votes * p.bot.votes;
            let whole = 2 * (crop_height * 1_000_000) * d;
            let a = p.top.rho_sum * p.bot.votes + p.bot.rho_sum * p.top.votes;
            let (x, y) = (
                score_pair(p, crop_height, max_votes),
                score_pair(q, crop_height, max_votes),
            );
            &&& a < whole ==> is_higher(x, y)
            &&& a >= whole ==> !is_higher(x, y) && !is_higher(y, x)
            &&& a == 0 && down >= crop_height * 1_000_000 ==> x.under == y.under && 5 * (x.over
                - y.over) == 2 * x.under
        }),
{
    votes_are_positive(p, crop_height, max_votes);
    let (m, n) = (p.top.votes as int, p.bot.votes as int);
    let d = m * n;
    let h = crop_height * 1_000_000 * d;
    let t = 15_000_000 * d;
    let v = max_votes;
    let (x, y) = (score_pair(p, crop_height, v), score_pair(q, crop_height, v));
    let (a, b) = (depth(p), depth(q));
    assert(b == a + 2 * down * d && span(q) == span(p)) by (nonlinear_arith)
        requires
            a == p.bot.rho_sum * m + p.top.rho_sum * n,
            b == q.bot.rho_sum * m + q.top.rho_sum * n,
            q.top.rho_sum == p.top.rho_sum + down * m,
            q.bot.rho_sum == p.bot.rho_sum + down * n,
            span(p) == p.bot.rho_sum * m - p.top.rho_sum * n,
            span(q) == q.bot.rho_sum * m - q.top.rho_sum * n,
            d == m * n,
    ;
    assert(2 * down * d > 0) by (nonlinear_arith)
        requires
            down > 0,
            d > 0,
    ;
    assert(2 * (crop_height * 1_000_000) * d == 2 * h) by (nonlinear_arith)
        requires
            h == crop_height * 1_000_000 * d,
    ;
    let (e, f) = (2 * h - min(a, 2 * h), 2 * h - min(b, 2 * h));
    assert(x.under == y.under && x.under > 0);
    assert(x.over - y.over == 8 * e * t * v - 8 * f * t * v);
    assert(8 * e * t * v - 8 * f * t * v == 8 * (e - f) * (t * v)) by (nonlinear_arith);
    assert(e > f ==> 8 * (e - f) * (t * v) > 0) by (nonlinear_arith)
        requires
            t * v > 0,
    ;
    assert(x.over > y.over ==> x.over * y.under > y.over * x.under) by (nonlinear_arith)
        requires
            x.under == y.under,
            x.under > 0,
    ;
    assert(e == f ==> 8 * (e - f) * (t * v) == 0) by (nonlinear_arith);
    if a == 0 && down >= crop_height * 1_000_000 {
        assert(b >= 2 * h) by (nonlinear_arith)
            requires
                b == 2 * down * d,
                down >= crop_height * 1_000_000,
                h == crop_height * 1_000_000 * d,
                d > 0,
        ;
        assert(5 * (8 * (2 * h) * (t * v)) == 2 * (40 * h * t * v)) by (nonlinear_arith);
    }
}

/// Of two pairs that differ in the distance of their lines alone, moved apart round the same
/// middle, the wider one scores higher as long as the other is narrower than the crop is high: by
/// fifteen hundredths of the whole score for the height of the crop, and in proportion.
pub proof fn wider_pairs_score_higher(
    p: CandidatePair,
    q: CandidatePair,
    crop_height: int,
    max_votes: int,
    apart: int,
)
    requires
        is_voted(p),
        same_votes(p, q),
        same_angles(p, q),
        q.top.rho_sum == p.top.rho_sum - apart * p.top.votes,
        q.bot.rho_sum == p.bot.rho_sum + apart * p.bot.votes,
        apart > 0,
        crop_height > 0,
        max_votes > 0,
    ensures
        ({
            let d = p.top.votes * p.bot.votes;
            let whole = crop_height * 1_000_000 * d;
            let a = p.bot.rho_sum * p.top.votes - p.top.rho_sum * p.bot.votes;
            let (x, y) = (
                score_pair(p, crop_height, max_votes),
                score_pair(q, crop_height, max_votes),
            );
            &&& a < whole ==> is_higher(y, x)
            &&& a >= whole ==> !is_higher(x, y) && !is_higher(y, x)
            &&& a + 2 * apart * d <= whole ==> x.under == y.under && 20 * (crop_height * 1_000_000)
                * (y.over - x.over) == 3 * (2 * apart) * x.under
        }),
{
    votes_are_positive(p, crop_height, max_votes);
    let (m, n) = (p.top.votes as int, p.bot.votes as int);
    let d = m * n;
    let c = crop_height * 1_000_000;
    let h = c * d;
    let t = 15_000_000 * d;
    let v = max_votes;
    let (x, y) = (score_pair(p, crop_height, v), score_pair(q, crop_height, v));
    let (a, b) = (span(p), span(q));
    assert(b == a + 2 * apart * d && depth(q) == depth(p)) by (nonlinear_arith)
        requires
            a == p.bot.rho_sum * m - p.top.rho_sum * n,
            b == q.bot.rho_sum * m - q.top.rho_sum * n,
            depth(p) == p.bot.rho_sum * m + p.top.rho_sum * n,
            depth(q) == q.bot.rho_sum * m + q.top.rho_sum * n,
            q.top.rho_sum == p.top.rho_sum - apart * m,
            q.bot.rho_sum == p.bot.rho_sum + apart * n,
            d == m * n,
    ;
    assert(2 * apart * d > 0) by (nonlinear_arith)
        requires
            apart > 0,
            d > 0,
    ;
    let (e, f) = (min(a, h), min(b, h));
    assert(x.under == y.under && x.under > 0);
    assert(y.over - x.over == 6 * f * t * v - 6 * e * t * v);
    assert(6 * f * t * v - 6 * e * t * v == 6 * (f - e) * (t * v)) by (nonlinear_arith);
    assert(f > e ==> 6 * (f - e) * (t * v) > 0) by (nonlinear_arith)
        requires
            t * v > 0,
    ;
    assert(y.over > x.over ==> y.over * x.under > x.over * y.under) by (nonlinear_arith)
        requires
            x.under == y.under,
            x.under > 0,
    ;
    assert(e == f ==> 6 * (f - e) * (t * v) == 0) by (nonlinear_arith);
    if a + 2 * apart * d <= h {
        assert(20 * c * (6 * (2 * apart * d) * (t * v)) == 3 * (2 * apart) * (40 * (c * d) * t * v))
            by (nonlinear_arith);
    }
}

/// Of two pairs of the same lines the one with more votes scores higher, as long as the other has
/// less than twice the most votes: a fifth of the whole score lies between none and that many.
pub proof fn voted_lines_score_higher(
    p: CandidatePair,
    q: CandidatePair,
    crop_height: int,
    max_votes: int,
    k: int,
)
    requires
        is_voted(p),
        k > 1,
        q.top.votes == k * p.top.votes,
        q.bot.votes == k * p.bot.votes,
        q.top.rho_sum == k * p.top.rho_sum,
        q.bot.rho_sum == k * p.bot.rho_sum,
        q.top.theta_sum == k * p.top.theta_sum,
        q.bot.theta_sum == k * p.bot.theta_sum,
        crop_height > 0,
        max_votes > 0,
    ensures
        ({
            let a = p.top.votes + p.bot.votes;
            let (x, y) = (
                score_pair(p, crop_height, max_votes),
                score_pair(q, crop_height, max_votes),
            );
            &&& a < 2 * max_votes ==> is_higher(y, x)
            &&& a >= 2 * max_votes ==> !is_higher(x, y) && !is_higher(y, x)
            &&& k * a <= 2 * max_votes ==> 10 * max_votes * (y.over * x.under - x.over * y.under)
                == (k - 1) * a * (x.under * y.under)
        }),
{
    votes_are_positive(p, crop_height, max_votes);
    let (m, n) = (p.top.votes as int, p.bot.votes as int);
    let d = m * n;
    let c = crop_height * 1_000_000;
    let h = c * d;
    let t = 15_000_000 * d;
    let v = max_votes;
    let kk = k * k;
    assert(kk > 0) by (nonlinear_arith)
        requires
            kk == k * k,
            k > 1,
    ;
    let (x, y) = (score_pair(p, crop_height, v), score_pair(q, crop_height, v));
    let (mq, nq) = (q.top.votes as int, q.bot.votes as int);
    let dq = mq * nq;
    scaled_products(m, n, k);
    scaled_products(p.bot.rho_sum as int, m, k);
    scaled_products(p.top.rho_sum as int, n, k);
    scaled_products(p.bot.theta_sum as int, m, k);
    scaled_products(p.top.theta_sum as int, n, k);
    let (u, l) = (p.bot.rho_sum * m, p.top.rho_sum * n);
    assert(kk * (u + l) == kk * u + kk * l && kk * (u - l) == kk * u - kk * l) by (nonlinear_arith);
    let w = p.bot.theta_sum * m - p.top.theta_sum * n;
    let wq = q.bot.theta_sum * mq - q.top.theta_sum * nq;
    let (u, l) = (p.bot.theta_sum * m, p.top.theta_sum * n);
    assert(kk * (u - l) == kk * u - kk * l) by (nonlinear_arith);
    assert(wq == kk * w);
    assert(turn(q) == kk * turn(p)) by {
        assert(w >= 0 ==> kk * w >= 0) by (nonlinear_arith)
            requires
                kk > 0,
        ;
        assert(w < 0 ==> kk * w < 0) by (nonlinear_arith)
            requires
                kk > 0,
        ;
        assert(kk * (-w) == -(kk * w)) by (nonlinear_arith);
    }
    let hq = c * dq;
    let tq = 15_000_000 * dq;
    assert(hq == kk * h && tq == kk * t) by (nonlinear_arith)
        requires
            hq == c * dq,
            dq == kk * d,
            h == c * d,
            tq == 15_000_000 * dq,
            t == 15_000_000 * d,
    ;
    let (high, par, apart) = (
        2 * h - min(depth(p), 2 * h),
        t - min(turn(p), t),
        min(span(p), h),
    );
    least_parts_scale(depth(p), 2 * h, kk);
    least_parts_scale(turn(p), t, kk);
    least_parts_scale(span(p), h, kk);
    assert(kk * (2 * h) == 2 * hq) by (nonlinear_arith)
        requires
            hq == kk * h,
    ;
    let (a, b) = (min(m + n, 2 * v), min(mq + nq, 2 * v));
    assert(mq + nq == k * (m + n)) by (nonlinear_arith)
        requires
            mq == k * m,
            nq == k * n,
    ;
    assert(k * (m + n) > m + n) by (nonlinear_arith)
        requires
            k > 1,
            m + n > 0,
    ;
    let highq = 2 * hq - min(depth(q), 2 * hq);
    let parq = tq - min(turn(q), tq);
    let apartq = min(span(q), hq);
    assert(highq == kk * high) by (nonlinear_arith)
        requires
            highq == 2 * hq - kk * min(depth(p), 2 * h),
            high == 2 * h - min(depth(p), 2 * h),
            hq == kk * h,
    ;
    assert(parq == kk * par) by (nonlinear_arith)
        requires
            parq == tq - kk * min(turn(p), t),
            par == t - min(turn(p), t),
            tq == kk * t,
    ;
    assert(apartq == kk * apart);
    let k4 = kk * kk;
    assert(y.under == k4 * x.under) by (nonlinear_arith)
        requires
            y.under == 40 * hq * tq * v,
            x.under == 40 * h * t * v,
            hq == kk * h,
            tq == kk * t,
            k4 == kk * kk,
    ;
    let rest = 8 * high * t * v + 10 * par * h * v + 6 * apart * t * v;
    assert(x.over == rest + 4 * a * h * t);
    assert(8 * highq * tq * v == k4 * (8 * high * t * v)) by (nonlinear_arith)
        requires
            highq == kk * high,
            tq == kk * t,
            k4 == kk * kk,
    ;
    assert(10 * parq * hq * v == k4 * (10 * par * h * v)) by (nonlinear_arith)
        requires
            parq == kk * par,
            hq == kk * h,
            k4 == kk * kk,
    ;
    assert(6 * apartq * tq * v == k4 * (6 * apart * t * v)) by (nonlinear_arith)
        requires
            apartq == kk * apart,
            tq == kk * t,
            k4 == kk * kk,
    ;
    assert(4 * b * hq * tq == k4 * (4 * b * h * t)) by (nonlinear_arith)
        requires
            hq == kk * h,
            tq == kk * t,
            k4 == kk * kk,
    ;
    let (rest8, rest10, rest6) = (8 * high * t * v, 10 * par * h * v, 6 * apart * t * v);
    assert(y.over == k4 * (rest + 4 * b * h * t)) by (nonlinear_arith)
        requires
            y.over == k4 * rest8 + k4 * rest10 + k4 * (4 * b * h * t) + k4 * rest6,
            rest == rest8 + rest10 + rest6,
    ;
    let g = 4 * (b - a) * (h * t);
    assert(y.over == k4 * (x.over + g)) by (nonlinear_arith)
        requires
            y.over == k4 * (rest + 4 * b * h * t),
            x.over == rest + 4 * a * h * t,
            g == 4 * (b - a) * (h * t),
    ;
    assert(k4 > 0 && k4 * x.under > 0) by (nonlinear_arith)
        requires
            kk > 0,
            k4 == kk * kk,
            x.under > 0,
    ;
    assert(y.over * x.under - x.over * y.under == g * (k4 * x.under)) by (nonlinear_arith)
        requires
            y.over == k4 * (x.over + g),
            y.under == k4 * x.under,
    ;
    assert(b > a ==> g > 0) by (nonlinear_arith)
        requires
            g == 4 * (b - a) * (h * t),
            h * t > 0,
    ;
    assert(b == a ==> g == 0) by (nonlinear_arith)
        requires
            g == 4 * (b - a) * (h * t),
    ;
    assert(g > 0 ==> g * (k4 * x.under) > 0) by (nonlinear_arith)
        requires
            k4 * x.under > 0,
    ;
    assert(g == 0 ==> g * (k4 * x.under) == 0) by (nonlinear_arith);
    if k * (m + n) <= 2 * v {
        assert(b == k * (m + n) && a == m + n);
        let s = m + n;
        assert(10 * v * g == (k - 1) * s * x.under) by (nonlinear_arith)
            requires
                g == 4 * (k * s - s) * (h * t),
                x.under == 40 * h * t * v,
        ;
        let (e, f) = (10 * v, k4 * x.under);
        assert(e * (g * f) == (e * g) * f) by (nonlinear_arith);
        let o = (k - 1) * s;
        assert((o * x.under) * f == o * (x.under * f)) by (nonlinear_arith);
    }
}

proof fn scaled_products(a: int, b: int, k: int)
    ensures
        (k * a) * (k * b) == (k * k) * (a * b),
{
    assert((k * a) * (k * b) == (k * k) * (a * b)) by (nonlinear_arith);
}

proof fn least_parts_scale(a: int, b: int, k: int)
    requires
        k > 0,
    ensures
        min(k * a, k * b) == k * min(a, b),
{
    assert(a < b <==> k * a < k * b) by (nonlinear_arith)
        requires
            k > 0,
    ;
}

/// Any two clusters whose means lie at least fifteen pixels apart form a pair, the upper one at its
/// top, and no others do.
pub proof fn separated_clusters_form_pairs(a: ClusterSummary, b: ClusterSummary)
    requires
        a.votes > 0,
        b.votes > 0,
    ensures
        ({
            let apart = b.rho_sum * a.votes - a.rho_sum * b.votes;
            let least = 15_000_000 * (a.votes * b.votes);
            &&& apart >= least ==> pair_of(a, b) == Some(CandidatePair { top: a, bot: b })
            &&& -apart >= least ==> pair_of(a, b) == Some(CandidatePair { top: b, bot: a })
            &&& -least < apart < least ==> pair_of(a, b) is None
        }),
{
    assert(a.votes * b.votes > 0 && a.votes * b.votes == b.votes * a.votes) by (nonlinear_arith)
        requires
            a.votes > 0,
            b.votes > 0,
    ;
}

proof fn pairs_from_hold_every_pair(s: Seq<ClusterSummary>, i: int, j: int, upto: int)
    requires
        0 <= i < j < upto <= s.len(),
    ensures
        pair_of(s[i], s[j]) matches Some(p) ==> pairs_from(s, i, upto).contains(p),
    decreases upto - i,
{
    let before = pairs_from(s, i, upto - 1);
    let all = pairs_from(s, i, upto);
    if let Some(p) = pair_of(s[i], s[j]) {
        if j == upto - 1 {
            assert(all[all.len() - 1] == p);
        } else {
            pairs_from_hold_every_pair(s, i, j, upto - 1);
            let k = choose|k: int| 0 <= k < before.len() && before[k] == p;
            assert(all[k] == p);
        }
    }
}

/// Every pair of clusters that can be formed is among the candidates.
pub proof fn candidates_hold_every_pair(s: Seq<ClusterSummary>, i: int, j: int, upto: int)
    requires
        0 <= i < j < s.len(),
        i < upto <= s.len(),
    ensures
        pair_of(s[i], s[j]) matches Some(p) ==> candidate_pairs(s, upto).contains(p),
    decreases upto,
{
    let before = candidate_pairs(s, upto - 1);
    let more = pairs_from(s, upto - 1, s.len() as int);
    let all = candidate_pairs(s, upto);
    if let Some(p) = pair_of(s[i], s[j]) {
        if i == upto - 1 {
            pairs_from_hold_every_pair(s, i, j, s.len() as int);
            let k = choose|k: int| 0 <= k < more.len() && more[k] == p;
            assert(all[before.len() + k] == p);
        } else {
            candidates_hold_every_pair(s, i, j, upto - 1);
            let k = choose|k: int| 0 <= k < before.len() && before[k] == p;
            assert(all[k] == p);
        }
    }
}

/// In the order in which the pairs are tried none stands behind one that scores lower, all are
/// there, and pairs of the same score stand as they were found.
pub proof fn better_pairs_come_first(
    pairs: Seq<CandidatePair>,
    crop_height: int,
    max_votes: int,
    a: int,
    b: int,
)
    requires
        max_votes > 0,
        forall|i: int| 0 <= i < pairs.len() ==> is_voted(#[trigger] pairs[i]),
        pairs.len() <= usize::MAX,
        0 <= a < b < pairs.len(),
    ensures
        best_pairs(pairs, crop_height, max_votes).len() == pairs.len(),
        !is_higher(
            score_pair(best_pairs(pairs, crop_height, max_votes)[b], crop_height, max_votes),
            score_pair(best_pairs(pairs, crop_height, max_votes)[a], crop_height, max_votes),
        ),
        best_pairs(pairs, crop_height, max_votes).contains(pairs[a]),
        best_pairs(pairs, crop_height, max_votes).contains(pairs[b]),
{
    scores_are_ordered(pairs, crop_height, max_votes);
    let before = by_score(pairs, crop_height, max_votes);
    crate::order::ranked_items_are_in_order(before, pairs.len(), a, b);
    crate::order::ordered_items_are_the_items(pairs, ranks(before, pairs.len()));
}

/// The mean of a cluster whose lines are all the same is that line, and the mean angle of a pair is
/// halfway between those of its clusters, however many lines each of them holds.
pub proof fn clusters_have_the_mean_of_their_lines(p: CandidatePair, a: int, b: int)
    requires
        is_voted(p),
    ensures
        p.top.rho_sum == a * p.top.votes ==> p.top.spec_rho() == clamped(a),
        p.top.theta_sum == a * p.top.votes ==> p.top.spec_theta() == clamped(a),
        p.top.theta_sum == a * p.top.votes && p.bot.theta_sum == b * p.bot.votes ==> mean_theta(p)
            == clamped((a + b) / 2),
{
    let (m, n) = (p.top.votes as int, p.bot.votes as int);
    vstd::arithmetic::div_mod::lemma_div_multiples_vanish(a, m);
    assert(m * a == a * m) by (nonlinear_arith);
    if p.top.theta_sum == a * m && p.bot.theta_sum == b * n {
        let d = m * n;
        assert(d > 0) by (nonlinear_arith)
            requires
                d == m * n,
                m > 0,
                n > 0,
        ;
        assert(a * m * n + b * n * m == d * (a + b)) by (nonlinear_arith)
            requires
                d == m * n,
        ;
        let (q, r) = ((a + b) / 2, (a + b) % 2);
        assert(d * (a + b) == (2 * d) * q + d * r && 0 <= d * r < 2 * d) by (nonlinear_arith)
            requires
                a + b == 2 * q + r,
                0 <= r < 2,
                d > 0,
        ;
        vstd::arithmetic::div_mod::lemma_fundamental_div_mod_converse(
            d * (a + b),
            2 * d,
            q,
            d * r,
        );
    }
}

/// The upper reference line is that of the upper cluster, towards the angle of that cluster, and
/// the lower one that of the lower cluster.
pub proof fn reference_lines_are_those_of_their_clusters<D: Fn(i64) -> (i64, i64)>(
    direction: D,
    p: CandidatePair,
    width: int,
    lines: LinePair,
    upper: HoughLine,
    lower: HoughLine,
    up: (i64, i64),
    low: (i64, i64),
)
    requires
        is_voted(p),
        p.top.rho_sum == upper.rho * p.top.votes,
        p.top.theta_sum == upper.theta * p.top.votes,
        p.bot.rho_sum == lower.rho * p.bot.votes,
        p.bot.theta_sum == lower.theta * p.bot.votes,
        forall|r: (i64, i64)| #[trigger] call_ensures(direction, (upper.theta,), r) ==> r == up,
        forall|r: (i64, i64)| #[trigger] call_ensures(direction, (lower.theta,), r) ==> r == low,
        may_be_lines(direction, p, width, lines),
    ensures
        lines.top == line_across(upper.rho as int, up.0 as int, up.1 as int, width),
        lines.bottom == line_across(lower.rho as int, low.0 as int, low.1 as int, width),
        lines.avg_theta == (upper.theta + lower.theta) / 2,
{
    clusters_have_the_mean_of_their_lines(p, upper.rho as int, lower.rho as int);
    clusters_have_the_mean_of_their_lines(p, upper.theta as int, lower.theta as int);
    let q = CandidatePair { top: p.bot, bot: p.top };
    clusters_have_the_mean_of_their_lines(q, lower.rho as int, upper.rho as int);
    clusters_have_the_mean_of_their_lines(q, lower.theta as int, upper.theta as int);
}

/// A line through the crop lies on the normal that it was given by: at both sides of the crop the
/// distance along the normal is the given one, up to what is lost by rounding down.
pub proof fn lines_across_stand_on_their_normals(rho: int, cosine: int, sine: int, width: int)
    requires
        sine >= 1_000 || sine <= -1_000,
        0 <= width <= u32::MAX,
    ensures
        ({
            let l = line_across(rho, cosine, sine, width);
            let at_end = rho - width * cosine / 1_000;
            &&& l.x1 == 0
            &&& l.x2 == width * 1_000_000
            &&& i64::MIN < l.y1 < i64::MAX ==> -abs(sine) < l.y1 * sine - rho * 1_000_000_000
                < abs(sine)
            &&& i64::MIN < l.y2 < i64::MAX ==> -abs(sine) < l.y2 * sine - at_end * 1_000_000_000
                < abs(sine)
        }),
{
    let at_end = rho - width * cosine / 1_000;
    quotients_are_near(rho, sine);
    quotients_are_near(at_end, sine);
}

proof fn quotients_are_near(a: int, sine: int)
    requires
        sine != 0,
    ensures
        -abs(sine) < over_sine(a, sine) * sine - a * 1_000_000_000 < abs(sine),
{
    let n = a * 1_000_000_000;
    if sine > 0 {
        vstd::arithmetic::div_mod::lemma_fundamental_div_mod(n, sine);
        assert(over_sine(a, sine) * sine == sine * (n / sine)) by (nonlinear_arith)
            requires
                over_sine(a, sine) == n / sine,
        ;
    } else {
        let m = (-a) * 1_000_000_000;
        vstd::arithmetic::div_mod::lemma_fundamental_div_mod(m, -sine);
        let q = over_sine(a, sine);
        assert(q * sine == -((-sine) * q)) by (nonlinear_arith);
    }
}


/// The thresholds start at 80 and 200 for edges and at 200 for lines. Every five attempts they are 6,
/// 14 and 15 less, but never under 20, 60 and 80.
pub proof fn thresholds_fall_by_steps(iteration: int)
    requires
        iteration >= 0,
    ensures
        ({
            let a = thresholds(iteration);
            let b = thresholds(iteration + 5);
            &&& iteration < 5 ==> a == (80int, 200int, 200int)
            &&& b.0 == if a.0 - 6 < 20 {
                20
            } else {
                a.0 - 6
            }
            &&& b.1 == if a.1 - 14 < 60 {
                60
            } else {
                a.1 - 14
            }
            &&& b.2 == if a.2 - 15 < 80 {
                80
            } else {
                a.2 - 15
            }
        }),
{
    assert((iteration + 5) / 5 == iteration / 5 + 1);
}

/// The most votes of a cluster are those of one of them, no other has more, and they count as at
/// least one.
pub proof fn no_cluster_has_more_votes(s: Seq<ClusterSummary>, i: int)
    requires
        0 <= i < s.len(),
    ensures
        most_votes(s) >= 1,
        s[i].votes <= most_votes(s),
        most_votes(s) == 1 || exists|k: int|
            0 <= k < s.len() && (#[trigger] s[k]).votes == most_votes(s),
    decreases s.len(),
{
    let t = s.drop_last();
    let n = t.len() as int;
    if n == 0 {
        assert(most_votes(t) == 1);
        if most_votes(s) > 1 {
            assert(s[0].votes == most_votes(s));
        }
    } else {
        let j = if i < n {
            i
        } else {
            0
        };
        no_cluster_has_more_votes(t, j);
        if i < n {
            assert(t[i] == s[i]);
        }
        if most_votes(s) == s.last().votes {
            assert(s[n].votes == most_votes(s));
        } else if most_votes(t) > 1 {
            let k = choose|k: int| 0 <= k < t.len() && (#[trigger] t[k]).votes == most_votes(t);
            assert(s[k] == t[k]);
        }
    }
}

/// An attempt looks at the lines within fifteen degrees of the horizontal alone, and merges those
/// within ten pixels. It has a pair of lines exactly if two clusters of them lie far enough apart, and
/// asks for another attempt otherwise.
pub proof fn pairs_are_chosen_among_level_lines(
    lines: Seq<HoughLine>,
    crop_height: int,
    iteration: int,
    r: Result<CandidatePair, StageOutcome>,
)
    requires
        is_pair_choice(lines, crop_height, iteration, r),
    ensures
        ({
            let near = lines.filter(|l: HoughLine| 75_000_000 <= l.theta <= 105_000_000);
            let clusters = clusters_of(by_rho(near), 10_000_000);
            let pairs = ranked_pairs(clusters, crop_height);
            &&& r is Ok <==> near.len() >= 2 && clusters.len() >= 2 && pairs.len() > 0
            &&& r matches Ok(p) ==> pairs.contains(p)
            &&& r matches Err(o) ==> o is Retry
        }),
{
    level_lines_are_those_between(lines);
}

proof fn level_lines_are_those_between(lines: Seq<HoughLine>)
    ensures
        horizontals(lines) == lines.filter(|l: HoughLine| 75_000_000 <= l.theta <= 105_000_000),
    decreases lines.len(),
{
    reveal(Seq::filter);
    if lines.len() > 0 {
        level_lines_are_those_between(lines.drop_last());
    }
}

} // verus!
