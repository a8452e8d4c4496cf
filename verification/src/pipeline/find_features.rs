//! Finding the knobs in the knob area by matching a template at many rotations.

use vstd::prelude::*;
use vstd::string::*;

use super::stage::{
    is_exhausted, is_retry, CircleFeature, DetectedFeatures, FeaturesView, KnobSearchArea,
    PipelineState, StageDescriptor, StageOutcome, StateView,
};
use super::ImageOutput;
use crate::annotate::{reach, reach_of};
use crate::draw::{bgr, drawing, Color, Shape, ShapeView};
use crate::fixed::{abs, abs_exec, clamp_to_fixed, clamped, pixel, to_pixel, ONE};
use crate::order::{
    ascending, ascending_order, at_places, find_least, find_median, least, median, precedes,
    sort_ascending, sorted, take_places,
};
use crate::stats::{spread, spread_of, wide, widened};
use crate::text::{decimal, fixed_decimal, push_fixed, push_number};
use crate::wide::Integer;

verus! {

/// How many knobs the stove has.
pub const EXPECTED_KNOBS: usize = 10;

/// The least distance between two accepted matches.
pub const NMS_MIN_DIST: i64 = 15_000_000;

/// The rotations of the knob template, in degrees from zero on.
pub const ROTATION_STEP_DEG: i64 = 10_000_000;

/// A place where the template matches. Scores are in billionths.
#[derive(Debug, Clone, Copy, PartialEq, Eq, Structural)]
pub struct TemplateMatch {
    pub x: i64,
    pub y: i64,
    pub score: i64,
    pub angle: i64,
}

/// A knob with its center and angle.
#[derive(Debug, Clone, Copy, PartialEq, Eq, Structural)]
pub struct KnobMatch {
    pub center_x: i64,
    pub center_y: i64,
    pub angle: i64,
}

/// What the stage says of itself.
pub fn descriptor() -> (r: StageDescriptor)
    ensures
        r.name@ == "FindFeatures"@,
        r.label@ == "S8:FindFeatures"@,
        r.fallback matches Some(f) && f@ == "FindClock"@,
{
    StageDescriptor { name: "FindFeatures", label: "S8:FindFeatures", fallback: Some("FindClock") }
}

/// The attempts of the stage.
pub const MAX_RETRIES: u32 = 30;

/// Keys that put the highest score first.
pub open spec fn score_keys(m: Seq<TemplateMatch>) -> Seq<i128> {
    m.map_values(|t: TemplateMatch| (-t.score) as i128)
}

/// Keys that put the leftmost match first.
pub open spec fn x_keys(m: Seq<TemplateMatch>) -> Seq<i128> {
    m.map_values(|t: TemplateMatch| t.x as i128)
}

/// The matches from the highest score to the lowest.
pub open spec fn best_first(m: Seq<TemplateMatch>) -> Seq<TemplateMatch> {
    at_places(m, ascending_order(score_keys(m)))
}

/// The matches from left to right.
pub open spec fn left_first(m: Seq<TemplateMatch>) -> Seq<TemplateMatch> {
    at_places(m, ascending_order(x_keys(m)))
}

/// The matches from the highest score to the lowest.
pub fn sort_by_score(m: &Vec<TemplateMatch>) -> (r: Vec<TemplateMatch>)
    ensures
        r@ == best_first(m@),
        r.len() == m.len(),
        forall|i: int| 0 <= i < r.len() ==> m@.contains(#[trigger] r[i]),
        forall|i: int, j: int|
            0 <= i <= j < r.len() ==> (#[trigger] r[i]).score >= (#[trigger] r[j]).score,
{
    let mut keys: Vec<i128> = Vec::with_capacity(m.len());
    let mut i: usize = 0;
    while i < m.len()
        invariant
            i <= m.len(),
            keys.len() == i,
            forall|j: int| 0 <= j < i ==> #[trigger] keys[j] == -m[j].score,
        decreases m.len() - i,
    {
        keys.push(-(m[i].score as i128));
        i = i + 1;
    }
    assert(keys@ =~= score_keys(m@));
    let order: Vec<usize> = sort_ascending(&keys);
    let r: Vec<TemplateMatch> = take_places(m, &order);
    proof {
        assert forall|i: int, j: int| 0 <= i <= j < r.len() implies (#[trigger] r[i]).score >= (
        #[trigger] r[j]).score by {
            if i < j {
                assert(precedes(keys@, order[i] as int, order[j] as int));
            }
        }
    }
    r
}

/// The matches from left to right.
pub fn sort_by_x(m: &Vec<TemplateMatch>) -> (r: Vec<TemplateMatch>)
    ensures
        r@ == left_first(m@),
        r.len() == m.len(),
        forall|i: int| 0 <= i < r.len() ==> m@.contains(#[trigger] r[i]),
{
    let mut keys: Vec<i128> = Vec::with_capacity(m.len());
    let mut i: usize = 0;
    while i < m.len()
        invariant
            i <= m.len(),
            keys.len() == i,
            forall|j: int| 0 <= j < i ==> #[trigger] keys[j] == m[j].x,
        decreases m.len() - i,
    {
        keys.push(m[i].x as i128);
        i = i + 1;
    }
    assert(keys@ =~= x_keys(m@));
    let order: Vec<usize> = sort_ascending(&keys);
    take_places(m, &order)
}

/// The match at place `k` of a score map with `cols` columns, for a template of the given size.
pub open spec fn match_at(
    scores: Seq<i64>,
    cols: int,
    width: int,
    height: int,
    angle: i64,
    k: int,
) -> TemplateMatch {
    TemplateMatch {
        x: ((k % cols) * 1_000_000 + width * 500_000) as i64,
        y: ((k / cols) * 1_000_000 + height * 500_000) as i64,
        score: scores[k],
        angle,
    }
}

/// The matches of a score map that reach the threshold, row by row.
pub open spec fn matches_reaching(
    scores: Seq<i64>,
    cols: int,
    threshold: i64,
    width: int,
    height: int,
    angle: i64,
    upto: int,
) -> Seq<TemplateMatch>
    decreases upto,
{
    if upto <= 0 {
        Seq::empty()
    } else {
        let before = matches_reaching(scores, cols, threshold, width, height, angle, upto - 1);
        if scores[upto - 1] >= threshold {
            before.push(match_at(scores, cols, width, height, angle, upto - 1))
        } else {
            before
        }
    }
}

/// Finds the places of a score map, given row by row, that reach the threshold. The matches are
/// the centers of the template there, from the highest score to the lowest.
pub fn find_peaks(
    scores: &Vec<i64>,
    rows: u32,
    cols: u32,
    threshold: i64,
    templ_w: u32,
    templ_h: u32,
    angle: i64,
) -> (r: Vec<TemplateMatch>)
    requires
        scores.len() == rows * cols,
    ensures
        r@ == best_first(
            matches_reaching(
                scores@,
                cols as int,
                threshold,
                templ_w as int,
                templ_h as int,
                angle,
                scores.len() as int,
            ),
        ),
        forall|i: int| 0 <= i < r.len() ==> (#[trigger] r[i]).angle == angle,
{
    let mut found: Vec<TemplateMatch> = Vec::new();
    let mut x: u32 = 0;
    let mut y: u32 = 0;
    let mut k: usize = 0;
    while k < scores.len()
        invariant
            scores.len() == rows * cols,
            k <= scores.len(),
            k == y * cols + x,
            k < scores.len() ==> x < cols && y < rows,
            forall|i: int| 0 <= i < found.len() ==> (#[trigger] found[i]).angle == angle,
            found@ == matches_reaching(
                scores@,
                cols as int,
                threshold,
                templ_w as int,
                templ_h as int,
                angle,
                k as int,
            ),
        decreases scores.len() - k,
    {
        proof {
            vstd::arithmetic::div_mod::lemma_fundamental_div_mod_converse(
                k as int,
                cols as int,
                y as int,
                x as int,
            );
        }
        if scores[k] >= threshold {
            found.push(
                TemplateMatch {
                    x: x as i64 * 1_000_000 + templ_w as i64 * 500_000,
                    y: y as i64 * 1_000_000 + templ_h as i64 * 500_000,
                    score: scores[k],
                    angle,
                },
            );
        }
        k = k + 1;
        if x + 1 == cols {
            proof {
                assert((y + 1) * cols == y * cols + cols) by (nonlinear_arith);
                if k < scores.len() {
                    assert(y + 1 < rows) by (nonlinear_arith)
                        requires
                            (y + 1) * cols < rows * cols,
                            cols > 0,
                    ;
                }
                assert(y + 1 <= rows) by (nonlinear_arith)
                    requires
                        y < rows,
                ;
            }
            x = 0;
            y = y + 1;
        } else {
            x = x + 1;
        }
    }
    let r: Vec<TemplateMatch> = sort_by_score(&found);
    assert forall|i: int| 0 <= i < r.len() implies (#[trigger] r[i]).angle == angle by {
        assert(found@.contains(r[i]));
        let k = choose|k: int| 0 <= k < found.len() && found@[k] == r[i];
        assert(found[k].angle == angle);
    }
    r
}

/// Two matches lie within `distance` of each other.
pub open spec fn is_near(a: TemplateMatch, b: TemplateMatch, distance: int) -> bool {
    (a.x - b.x) * (a.x - b.x) + (a.y - b.y) * (a.y - b.y) < distance * distance
}

/// `m` lies within `distance` of one of `kept`.
pub open spec fn is_near_one(m: TemplateMatch, kept: Seq<TemplateMatch>, distance: int) -> bool {
    exists|i: int| 0 <= i < kept.len() && is_near(m, #[trigger] kept[i], distance)
}

/// The matches that lie within `distance` of no match kept before them.
pub open spec fn survivors(m: Seq<TemplateMatch>, distance: int) -> Seq<TemplateMatch>
    decreases m.len(),
{
    if m.len() == 0 {
        Seq::empty()
    } else {
        let kept = survivors(m.drop_last(), distance);
        if is_near_one(m.last(), kept, distance) {
            kept
        } else {
            kept.push(m.last())
        }
    }
}

fn near(a: TemplateMatch, b: TemplateMatch, distance: i64) -> (r: bool)
    ensures
        r == is_near(a, b, distance as int),
{
    let dx: Integer = Integer::new(a.x as i128 - b.x as i128);
    let dy: Integer = Integer::new(a.y as i128 - b.y as i128);
    let d: Integer = Integer::new(distance as i128);
    dx.times(&dx).plus(&dy.times(&dy)).is_less(&d.times(&d))
}

/// Keeps the matches with the highest scores and drops each one that lies within `min_dist` of
/// one that is kept.
pub fn nms(matches: &Vec<TemplateMatch>, min_dist: i64) -> (r: Vec<TemplateMatch>)
    ensures
        r@ == survivors(best_first(matches@), min_dist as int),
        forall|i: int| 0 <= i < r.len() ==> matches@.contains(#[trigger] r[i]),
{
    let ranked: Vec<TemplateMatch> = sort_by_score(matches);
    let mut kept: Vec<TemplateMatch> = Vec::new();
    let mut i: usize = 0;
    assert(ranked@.take(0) =~= Seq::empty());
    while i < ranked.len()
        invariant
            i <= ranked.len(),
            kept@ == survivors(ranked@.take(i as int), min_dist as int),
            forall|i: int| 0 <= i < ranked.len() ==> matches@.contains(#[trigger] ranked[i]),
            forall|i: int| 0 <= i < kept.len() ==> matches@.contains(#[trigger] kept[i]),
        decreases ranked.len() - i,
    {
        let m: TemplateMatch = ranked[i];
        let mut dominated: bool = false;
        let mut j: usize = 0;
        while j < kept.len()
            invariant
                    j <= kept.len(),
                dominated == exists|q: int|
                    0 <= q < j && is_near(m, #[trigger] kept[q], min_dist as int),
            decreases kept.len() - j,
        {
            if near(m, kept[j], min_dist) {
                assert(is_near(m, kept[j as int], min_dist as int));
                dominated = true;
            }
            j = j + 1;
        }
        assert(dominated == is_near_one(m, kept@, min_dist as int));
        assert(ranked@.take(i as int + 1).drop_last() =~= ranked@.take(i as int));
        if !dominated {
            kept.push(m);
        }
        i = i + 1;
    }
    assert(ranked@.take(i as int) =~= ranked@);
    kept
}

/// Kept matches lie apart: no two of them are within `distance` of each other.
pub proof fn survivors_lie_apart(m: Seq<TemplateMatch>, distance: int)
    ensures
        forall|i: int, j: int|
            0 <= i < j < survivors(m, distance).len() ==> !is_near(
                #[trigger] survivors(m, distance)[i],
                #[trigger] survivors(m, distance)[j],
                distance,
            ),
    decreases m.len(),
{
    if m.len() > 0 {
        survivors_lie_apart(m.drop_last(), distance);
        let kept = survivors(m.drop_last(), distance);
        let all = survivors(m, distance);
        assert forall|i: int, j: int| 0 <= i < j < all.len() implies !is_near(
            #[trigger] all[i],
            #[trigger] all[j],
            distance,
        ) by {
            if j < kept.len() {
                assert(all[i] == kept[i] && all[j] == kept[j]);
            } else {
                assert(all[i] == kept[i]);
                let (a, b) = (kept[i], m.last());
                assert((a.x - b.x) * (a.x - b.x) == (b.x - a.x) * (b.x - a.x)) by (nonlinear_arith);
                assert((a.y - b.y) * (a.y - b.y) == (b.y - a.y) * (b.y - a.y)) by (nonlinear_arith);
            }
        }
    }
}

/// Nothing is lost: every match is kept itself or lies within `distance` of one that is kept.
pub proof fn survivors_stand_for_all(m: Seq<TemplateMatch>, distance: int, i: int)
    requires
        0 <= i < m.len(),
    ensures
        survivors(m, distance).contains(m[i]) || is_near_one(m[i], survivors(m, distance), distance),
    decreases m.len(),
{
    let kept = survivors(m.drop_last(), distance);
    let all = survivors(m, distance);
    if i == m.len() - 1 {
        if !is_near_one(m.last(), kept, distance) {
            assert(all[all.len() - 1] == m[i]);
        }
    } else {
        survivors_stand_for_all(m.drop_last(), distance, i);
        if kept.contains(m[i]) {
            let k = choose|k: int| 0 <= k < kept.len() && kept[k] == m[i];
            assert(all[k] == m[i]);
        } else {
            let k = choose|k: int| 0 <= k < kept.len() && is_near(m[i], #[trigger] kept[k], distance);
            assert(all[k] == kept[k]);
        }
    }
}

/// The vertical positions of the matches.
pub open spec fn heights(m: Seq<TemplateMatch>) -> Seq<i64> {
    m.map_values(|t: TemplateMatch| t.y)
}

/// `values` without those that lie less than `distance` from the last one kept before them.
pub open spec fn thinned(values: Seq<i64>, distance: int) -> Seq<i64>
    decreases values.len(),
{
    if values.len() == 0 {
        values
    } else {
        let kept = thinned(values.drop_last(), distance);
        if kept.len() > 0 && abs(values.last() - kept.last()) < distance {
            kept
        } else {
            kept.push(values.last())
        }
    }
}

/// The matches whose height differs from `height` by less than `reach`.
pub open spec fn at_height(m: Seq<TemplateMatch>, height: int, reach: int) -> Seq<TemplateMatch>
    decreases m.len(),
{
    if m.len() == 0 {
        Seq::empty()
    } else {
        let before = at_height(m.drop_last(), height, reach);
        if abs(m.last().y - height) < reach {
            before.push(m.last())
        } else {
            before
        }
    }
}

/// Each match lies at least `gap` to the right of the one before.
pub open spec fn is_spaced(row: Seq<TemplateMatch>, gap: int) -> bool {
    forall|i: int| 1 <= i < row.len() ==> (#[trigger] row[i]).x - row[i - 1].x >= gap
}

/// The row of `n` matches near `height`: those with the highest scores, from left to right, if
/// there are that many and they lie at least five pixels apart.
pub open spec fn row_at(m: Seq<TemplateMatch>, n: int, height: int, reach: int) -> Option<
    Seq<TemplateMatch>,
> {
    let close = at_height(m, height, reach);
    let row = left_first(best_first(left_first(close)).take(n));
    if close.len() >= n && is_spaced(row, 5_000_000) {
        Some(row)
    } else {
        None
    }
}

/// The flattest of the rows near the given heights, the first of equally flat ones.
pub open spec fn flattest_row(m: Seq<TemplateMatch>, n: int, ys: Seq<i64>, reach: int) -> Option<
    Seq<TemplateMatch>,
>
    decreases ys.len(),
{
    if ys.len() == 0 {
        None
    } else {
        let best = flattest_row(m, n, ys.drop_last(), reach);
        match row_at(m, n, ys.last() as int, reach) {
            None => best,
            Some(row) => match best {
                None => Some(row),
                Some(b) => if spread(wide(heights(row))) < spread(wide(heights(b))) {
                    Some(row)
                } else {
                    Some(b)
                },
            },
        }
    }
}

/// The flattest row of `n` matches: every height at which there is a match is tried, leaving out
/// heights less than three pixels from the last one tried.
pub open spec fn aligned_row(m: Seq<TemplateMatch>, n: int, knob_r: int) -> Option<
    Seq<TemplateMatch>,
> {
    if m.len() < n {
        None
    } else {
        flattest_row(m, n, thinned(ascending(heights(m)), 3_000_000), 3 * knob_r)
    }
}

/// An angle that the knob template is turned by: a multiple of ten degrees below a full turn.
pub open spec fn is_turn(angle: int) -> bool {
    0 <= angle < 360_000_000 && angle % 10_000_000 == 0
}

/// All matches were found at such an angle.
pub open spec fn are_turns(m: Seq<TemplateMatch>) -> bool {
    forall|i: int| 0 <= i < m.len() ==> is_turn((#[trigger] m[i]).angle as int)
}

/// All angles are such angles.
pub open spec fn all_turns(angles: Seq<i64>) -> bool {
    forall|i: int| 0 <= i < angles.len() ==> is_turn(#[trigger] angles[i] as int)
}

proof fn members_are_turns(m: Seq<TemplateMatch>, part: Seq<TemplateMatch>)
    requires
        are_turns(m),
        forall|i: int| 0 <= i < part.len() ==> m.contains(#[trigger] part[i]),
    ensures
        are_turns(part),
{
    assert forall|i: int| 0 <= i < part.len() implies is_turn((#[trigger] part[i]).angle as int) by {
        assert(m.contains(part[i]));
        let k = choose|k: int| 0 <= k < m.len() && m[k] == part[i];
        assert(is_turn(m[k].angle as int));
    }
}

/// The knobs of a row.
pub open spec fn knobs_of(row: Seq<TemplateMatch>) -> Seq<KnobMatch> {
    row.map_values(
        |t: TemplateMatch| KnobMatch { center_x: t.x, center_y: t.y, angle: t.angle },
    )
}

fn heights_of(m: &Vec<TemplateMatch>) -> (r: Vec<i64>)
    ensures
        r@ == heights(m@),
{
    let mut r: Vec<i64> = Vec::with_capacity(m.len());
    let mut i: usize = 0;
    while i < m.len()
        invariant
            i <= m.len(),
            r.len() == i,
            forall|j: int| 0 <= j < i ==> #[trigger] r[j] == m[j].y,
        decreases m.len() - i,
    {
        r.push(m[i].y);
        i = i + 1;
    }
    assert(r@ =~= heights(m@));
    r
}

fn thin_out(values: &Vec<i64>, distance: i64) -> (r: Vec<i64>)
    ensures
        r@ == thinned(values@, distance as int),
        forall|i: int| 0 <= i < r.len() ==> values@.contains(#[trigger] r[i]),
{
    let mut kept: Vec<i64> = Vec::new();
    let mut i: usize = 0;
    assert(values@.take(0) =~= Seq::empty());
    while i < values.len()
        invariant
            i <= values.len(),
            kept@ == thinned(values@.take(i as int), distance as int),
            forall|i: int| 0 <= i < kept.len() ==> values@.contains(#[trigger] kept[i]),
        decreases values.len() - i,
    {
        let v: i64 = values[i];
        assert(values@.contains(values@[i as int]));
        assert(values@.take(i as int + 1).drop_last() =~= values@.take(i as int));
        if kept.len() == 0 || abs_exec(v as i128 - kept[kept.len() - 1] as i128)
            >= distance as i128 {
            kept.push(v);
        }
        i = i + 1;
    }
    assert(values@.take(i as int) =~= values@);
    kept
}

fn matches_at_height(m: &Vec<TemplateMatch>, height: i64, reach: i128) -> (r: Vec<TemplateMatch>)
    ensures
        r@ == at_height(m@, height as int, reach as int),
        forall|i: int| 0 <= i < r.len() ==> m@.contains(#[trigger] r[i]),
{
    let mut close: Vec<TemplateMatch> = Vec::new();
    let mut i: usize = 0;
    assert(m@.take(0) =~= Seq::empty());
    while i < m.len()
        invariant
            i <= m.len(),
            close@ == at_height(m@.take(i as int), height as int, reach as int),
            forall|i: int| 0 <= i < close.len() ==> m@.contains(#[trigger] close[i]),
        decreases m.len() - i,
    {
        assert(m@.contains(m@[i as int]));
        assert(m@.take(i as int + 1).drop_last() =~= m@.take(i as int));
        if abs_exec(m[i].y as i128 - height as i128) < reach {
            close.push(m[i]);
        }
        i = i + 1;
    }
    assert(m@.take(i as int) =~= m@);
    close
}

fn find_row(m: &Vec<TemplateMatch>, n: usize, height: i64, reach: i128) -> (r: Option<
    Vec<TemplateMatch>,
>)
    ensures
        match r {
            Some(row) => row_at(m@, n as int, height as int, reach as int) == Some(row@) && row.len()
                == n && (are_turns(m@) ==> are_turns(row@)),
            None => row_at(m@, n as int, height as int, reach as int) is None,
        },
{
    let close: Vec<TemplateMatch> = matches_at_height(m, height, reach);
    if close.len() < n {
        return None;
    }
    let by_x: Vec<TemplateMatch> = sort_by_x(&close);
    let mut by_score: Vec<TemplateMatch> = sort_by_score(&by_x);
    let ghost ranked = by_score@;
    by_score.truncate(n);
    assert(by_score@ =~= ranked.take(n as int));
    let row: Vec<TemplateMatch> = sort_by_x(&by_score);
    proof {
        if are_turns(m@) {
            members_are_turns(m@, close@);
            members_are_turns(close@, by_x@);
            members_are_turns(by_x@, ranked);
            assert forall|i: int| 0 <= i < by_score.len() implies ranked.contains(
                #[trigger] by_score[i],
            ) by {
                assert(ranked[i] == by_score[i]);
            }
            members_are_turns(ranked, by_score@);
            members_are_turns(by_score@, row@);
        }
    }
    let mut i: usize = 1;
    while i < row.len()
        invariant
            1 <= i,
            i <= row.len() || row.len() == 0,
            are_turns(m@) ==> are_turns(row@),
            row@ == left_first(best_first(left_first(close@)).take(n as int)),
            close@ == at_height(m@, height as int, reach as int),
            forall|j: int| 1 <= j < i ==> (#[trigger] row[j]).x - row[j - 1].x >= 5_000_000,
        decreases row.len() - i,
    {
        if (row[i].x as i128) - (row[i - 1].x as i128) < 5_000_000 {
            assert(!is_spaced(row@, 5_000_000));
            return None;
        }
        i = i + 1;
    }
    assert(is_spaced(row@, 5_000_000));
    Some(row)
}

fn row_spread(row: &Vec<TemplateMatch>) -> (r: Integer)
    ensures
        r@ == spread(wide(heights(row@))),
{
    spread_of(&widened(&heights_of(row)))
}

/// Selects the flattest row of `n` knobs from matches that lie apart.
pub fn select_y_aligned_knobs(matches: &Vec<TemplateMatch>, n: usize, knob_r: i64) -> (r: Option<
    Vec<KnobMatch>,
>)
    requires
        n > 0,
    ensures
        match r {
            Some(knobs) => aligned_row(matches@, n as int, knob_r as int) matches Some(row) && knobs@
                == knobs_of(row) && row.len() == n && (are_turns(matches@) ==> are_turns(row)),
            None => aligned_row(matches@, n as int, knob_r as int) is None,
        },
{
    if matches.len() < n {
        return None;
    }
    let all: Vec<i64> = heights_of(matches);
    let ys: Vec<i64> = thin_out(&sorted(&all), 3_000_000);
    let reach: i128 = 3 * knob_r as i128;
    let mut best: Option<Vec<TemplateMatch>> = None;
    let mut i: usize = 0;
    assert(ys@.take(0) =~= Seq::empty());
    while i < ys.len()
        invariant
            i <= ys.len(),
            reach == 3 * knob_r,
            match best {
                Some(row) => flattest_row(matches@, n as int, ys@.take(i as int), reach as int)
                    == Some(row@) && row.len() == n && (are_turns(matches@) ==> are_turns(row@)),
                None => flattest_row(matches@, n as int, ys@.take(i as int), reach as int) is None,
            },
        decreases ys.len() - i,
    {
        assert(ys@.take(i as int + 1).drop_last() =~= ys@.take(i as int));
        if let Some(row) = find_row(matches, n, ys[i], reach) {
            let is_better: bool = match &best {
                None => true,
                Some(b) => row_spread(&row).is_less(&row_spread(b)),
            };
            if is_better {
                best = Some(row);
            }
        }
        i = i + 1;
    }
    assert(ys@.take(i as int) =~= ys@);
    match best {
        None => None,
        Some(row) => {
            let mut knobs: Vec<KnobMatch> = Vec::with_capacity(row.len());
            let mut k: usize = 0;
            while k < row.len()
                invariant
                    k <= row.len(),
                    knobs.len() == k,
                    forall|j: int| 0 <= j < k ==> #[trigger] knobs[j] == knobs_of(row@)[j],
                decreases row.len() - k,
            {
                knobs.push(
                    KnobMatch { center_x: row[k].x, center_y: row[k].y, angle: row[k].angle },
                );
                k = k + 1;
            }
            assert(knobs@ =~= knobs_of(row@));
            Some(knobs)
        },
    }
}

/// A row that was selected lies in a line from left to right: each knob at least five pixels
/// beyond the one before.
pub proof fn a_selected_row_is_spaced(m: Seq<TemplateMatch>, n: int, knob_r: int)
    ensures
        aligned_row(m, n, knob_r) matches Some(row) ==> is_spaced(row, 5_000_000),
{
    if m.len() >= n {
        flattest_rows_are_spaced(m, n, thinned(ascending(heights(m)), 3_000_000), 3 * knob_r);
    }
}

/// Whether a match lies less than `reach` above or below `height`.
pub open spec fn lies_at(t: TemplateMatch, height: int, reach: int) -> bool {
    height - reach < t.y && t.y < height + reach
}

/// The matches near a height are those above and below it by less than the reach, in their order.
pub proof fn matches_at_a_height_are_near_it(m: Seq<TemplateMatch>, height: int, reach: int)
    ensures
        at_height(m, height, reach) == m.filter(|t: TemplateMatch| lies_at(t, height, reach)),
    decreases m.len(),
{
    reveal(Seq::filter);
    if m.len() > 0 {
        matches_at_a_height_are_near_it(m.drop_last(), height, reach);
    }
}

/// The matches in the order of their scores, or from left to right, are all the matches.
pub proof fn ordered_matches_are_the_matches(m: Seq<TemplateMatch>)
    requires
        m.len() <= usize::MAX,
    ensures
        best_first(m).len() == m.len(),
        forall|i: int, j: int|
            0 <= i <= j < m.len() ==> (#[trigger] best_first(m)[i]).score >= (
            #[trigger] best_first(m)[j]).score,
        forall|t: TemplateMatch| #[trigger] best_first(m).contains(t) <==> m.contains(t),
        left_first(m).len() == m.len(),
        forall|i: int, j: int|
            0 <= i <= j < m.len() ==> (#[trigger] left_first(m)[i]).x <= (
            #[trigger] left_first(m)[j]).x,
        forall|t: TemplateMatch| #[trigger] left_first(m).contains(t) <==> m.contains(t),
{
    crate::order::ordered_items_are_the_items(m, score_keys(m));
    crate::order::ordered_items_are_the_items(m, x_keys(m));
    let (p, q) = (ascending_order(score_keys(m)), ascending_order(x_keys(m)));
    assert forall|i: int, j: int| 0 <= i <= j < m.len() implies (#[trigger] best_first(m)[i]).score
        >= (#[trigger] best_first(m)[j]).score by {
        assert(score_keys(m)[p[i] as int] <= score_keys(m)[p[j] as int]);
    }
    assert forall|i: int, j: int| 0 <= i <= j < m.len() implies (#[trigger] left_first(m)[i]).x <= (
    #[trigger] left_first(m)[j]).x by {
        assert(x_keys(m)[q[i] as int] <= x_keys(m)[q[j] as int]);
    }
    assert forall|t: TemplateMatch| #[trigger] best_first(m).contains(t) <==> m.contains(t) by {
        if m.contains(t) {
            let k = choose|k: int| 0 <= k < m.len() && m[k] == t;
            assert(best_first(m).contains(m[k]));
        }
        if best_first(m).contains(t) {
            let k = choose|k: int| 0 <= k < m.len() && best_first(m)[k] == t;
            assert(m.contains(best_first(m)[k]));
        }
    }
    assert forall|t: TemplateMatch| #[trigger] left_first(m).contains(t) <==> m.contains(t) by {
        if m.contains(t) {
            let k = choose|k: int| 0 <= k < m.len() && m[k] == t;
            assert(left_first(m).contains(m[k]));
        }
        if left_first(m).contains(t) {
            let k = choose|k: int| 0 <= k < m.len() && left_first(m)[k] == t;
            assert(m.contains(left_first(m)[k]));
        }
    }
}

/// A row near a height holds `n` matches that lie near it, each at least five pixels to the right
/// of the one before, and no other match near the height scores higher than one in the row. There
/// is one wherever at least `n` matches lie near the height and any two of them, at different
/// places of the list, at least five pixels apart.
pub proof fn rows_hold_the_best_matches_near_a_height(
    m: Seq<TemplateMatch>,
    n: int,
    height: int,
    reach: int,
)
    requires
        n > 0,
        m.len() <= usize::MAX,
    ensures
        row_at(m, n, height, reach) matches Some(row) ==> {
            &&& row.len() == n
            &&& forall|i: int|
                0 <= i < n ==> m.contains(#[trigger] row[i]) && lies_at(row[i], height, reach)
            &&& forall|i: int| 1 <= i < n ==> (#[trigger] row[i]).x - row[i - 1].x >= 5_000_000
            &&& forall|t: TemplateMatch, i: int|
                m.contains(t) && lies_at(t, height, reach) && !row.contains(t) && 0 <= i < n
                    ==> t.score <= (#[trigger] row[i]).score && #[trigger] m.contains(t)
        },
        row_at(m, n, height, reach) is None ==> {
            let near = m.filter(|t: TemplateMatch| lies_at(t, height, reach));
            near.len() < n || exists|i: int, j: int|
                0 <= i < near.len() && 0 <= j < near.len() && i != j && near[i].x <= near[j].x
                    && (#[trigger] near[j]).x - (#[trigger] near[i]).x < 5_000_000
        },
{
    let close = at_height(m, height, reach);
    matches_at_a_height_are_near_it(m, height, reach);
    near_matches_are_matches(m, height, reach);
    if close.len() >= n {
        ordered_matches_are_the_matches(close);
        let by_x = left_first(close);
        ordered_matches_are_the_matches(by_x);
        let ranked = best_first(by_x);
        let best = ranked.take(n);
        ordered_matches_are_the_matches(best);
        let row = left_first(best);
        assert forall|i: int| 0 <= i < n implies m.contains(#[trigger] row[i]) && lies_at(
            row[i],
            height,
            reach,
        ) by {
            assert(row.contains(row[i]));
            assert(best.contains(row[i]));
            let k = choose|k: int| 0 <= k < best.len() && best[k] == row[i];
            assert(ranked[k] == row[i]);
            assert(ranked.contains(row[i]));
            assert(by_x.contains(row[i]));
            assert(close.contains(row[i]));
        }
        assert forall|t: TemplateMatch, i: int|
            m.contains(t) && lies_at(t, height, reach) && !row.contains(t) && 0 <= i < n implies
            t.score <= (#[trigger] row[i]).score && #[trigger] m.contains(t) by {
            assert(close.contains(t));
            assert(by_x.contains(t));
            assert(ranked.contains(t));
            let k = choose|k: int| 0 <= k < ranked.len() && ranked[k] == t;
            if k < n {
                assert(best[k] == t);
                assert(best.contains(t));
            }
            assert(row.contains(row[i]));
            assert(best.contains(row[i]));
            let l = choose|l: int| 0 <= l < best.len() && best[l] == row[i];
            assert(ranked[l] == row[i]);
            assert(ranked[l].score >= ranked[k].score);
        }
        if !is_spaced(row, 5_000_000) {
            let i = choose|i: int| 1 <= i < row.len() && (#[trigger] row[i]).x - row[i - 1].x < 5_000_000;
            let (a, b) = rows_come_from_different_places(close, n, i);
            assert(row[i - 1].x <= row[i].x);
            assert(close[b].x - close[a].x < 5_000_000);
        }
    }
}

/// The members of a row stand at different places of the list that it is taken from.
proof fn rows_come_from_different_places(close: Seq<TemplateMatch>, n: int, i: int) -> (r: (
    int,
    int,
))
    requires
        1 <= i < n <= close.len() <= usize::MAX,
    ensures
        ({
            let row = left_first(best_first(left_first(close)).take(n));
            &&& 0 <= r.0 < close.len() && 0 <= r.1 < close.len() && r.0 != r.1
            &&& close[r.0] == row[i - 1]
            &&& close[r.1] == row[i]
        }),
{
    let by_x = left_first(close);
    crate::order::ordered_items_are_the_items(close, x_keys(close));
    let p = ascending_order(x_keys(close));
    let ranked = best_first(by_x);
    crate::order::ordered_items_are_the_items(by_x, score_keys(by_x));
    let q = ascending_order(score_keys(by_x));
    let best = ranked.take(n);
    crate::order::ordered_items_are_the_items(best, x_keys(best));
    let r = ascending_order(x_keys(best));
    let row = left_first(best);
    let (c, d) = (r[i - 1] as int, r[i] as int);
    assert(r[i - 1] != r[i]);
    assert(row[i - 1] == best[c] && row[i] == best[d]);
    assert(best[c] == ranked[c] && best[d] == ranked[d]);
    assert(q[c] != q[d]);
    let (e, f) = (q[c] as int, q[d] as int);
    assert(ranked[c] == by_x[e] && ranked[d] == by_x[f]);
    assert(p[e] != p[f]);
    assert(by_x[e] == close[p[e] as int] && by_x[f] == close[p[f] as int]);
    (p[e] as int, p[f] as int)
}

proof fn near_matches_are_matches(m: Seq<TemplateMatch>, height: int, reach: int)
    ensures
        at_height(m, height, reach).len() <= m.len(),
        forall|t: TemplateMatch| #[trigger]
            at_height(m, height, reach).contains(t) <==> m.contains(t) && lies_at(
                t,
                height,
                reach,
            ),
    decreases m.len(),
{
    if m.len() > 0 {
        let rest = m.drop_last();
        near_matches_are_matches(rest, height, reach);
        let close = at_height(m, height, reach);
        let before = at_height(rest, height, reach);
        assert forall|t: TemplateMatch| #[trigger] close.contains(t) <==> m.contains(t) && lies_at(
            t,
            height,
            reach,
        ) by {
            if close.contains(t) {
                let k = choose|k: int| 0 <= k < close.len() && close[k] == t;
                if k < before.len() {
                    assert(before[k] == t);
                    assert(before.contains(t));
                    let l = choose|l: int| 0 <= l < rest.len() && rest[l] == t;
                    assert(m[l] == t);
                } else {
                    assert(m[m.len() - 1] == t);
                }
            }
            if m.contains(t) && lies_at(t, height, reach) {
                let k = choose|k: int| 0 <= k < m.len() && m[k] == t;
                if k < rest.len() {
                    assert(rest[k] == t);
                    assert(before.contains(t));
                    let l = choose|l: int| 0 <= l < before.len() && before[l] == t;
                    assert(close[l] == t);
                } else {
                    assert(close[close.len() - 1] == t);
                }
            }
        }
    }
}

/// One of the heights lies at the value or less than the distance below it.
pub open spec fn is_covered(tried: Seq<i64>, value: int, distance: int) -> bool {
    exists|k: int| 0 <= k < tried.len() && #[trigger] tried[k] <= value < tried[k] + distance
}

/// The values never fall.
pub open spec fn never_falls(values: Seq<i64>) -> bool {
    forall|i: int, j: int| 0 <= i <= j < values.len() ==> #[trigger] values[i] <= #[trigger] values[j]
}

/// The heights lie the distance apart.
pub open spec fn lie_apart(heights: Seq<i64>, distance: int) -> bool {
    forall|j: int, k: int|
        0 <= j < k < heights.len() ==> (#[trigger] heights[k]) - (#[trigger] heights[j]) >= distance
}

proof fn thinned_values_end_low(values: Seq<i64>, distance: int)
    requires
        distance > 0,
        values.len() > 0,
        never_falls(values),
    ensures
        thinned(values, distance).len() > 0,
        thinned(values, distance)[0] == values[0],
        thinned(values, distance).last() <= values.last() < thinned(values, distance).last()
            + distance,
    decreases values.len(),
{
    let rest = values.drop_last();
    if rest.len() > 0 {
        assert(never_falls(rest)) by {
            assert forall|i: int, j: int| 0 <= i <= j < rest.len() implies #[trigger] rest[i]
                <= #[trigger] rest[j] by {
                assert(values[i] <= values[j]);
            }
        }
        thinned_values_end_low(rest, distance);
        assert(values[values.len() - 2] <= values[values.len() - 1]);
        assert(rest.last() == values[values.len() - 2]);
    } else {
        assert(thinned(rest, distance).len() == 0);
    }
}

/// The heights that are tried are among the values, from the least on, and lie the distance apart;
/// every value lies at one of them or less than the distance above it.
pub proof fn tried_heights_cover_all(values: Seq<i64>, distance: int)
    requires
        distance > 0,
        never_falls(values),
    ensures
        values.len() > 0 ==> thinned(values, distance).len() > 0 && thinned(values, distance)[0]
            == values[0],
        forall|k: int|
            0 <= k < thinned(values, distance).len() ==> values.contains(
                #[trigger] thinned(values, distance)[k],
            ),
        lie_apart(thinned(values, distance), distance),
        forall|i: int|
            0 <= i < values.len() ==> is_covered(
                thinned(values, distance),
                #[trigger] values[i] as int,
                distance,
            ),
    decreases values.len(),
{
    if values.len() > 0 {
        let rest = values.drop_last();
        let before = thinned(rest, distance);
        let tried = thinned(values, distance);
        let last = values.last() as int;
        thinned_values_end_low(values, distance);
        assert(never_falls(rest)) by {
            assert forall|i: int, j: int| 0 <= i <= j < rest.len() implies #[trigger] rest[i]
                <= #[trigger] rest[j] by {
                assert(values[i] <= values[j]);
            }
        }
        tried_heights_cover_all(rest, distance);
        assert forall|k: int| 0 <= k < tried.len() implies values.contains(#[trigger] tried[k]) by {
            if k < before.len() {
                assert(rest.contains(before[k]));
                let l = choose|l: int| 0 <= l < rest.len() && rest[l] == before[k];
                assert(values[l] == tried[k]);
            } else {
                assert(values[values.len() - 1] == tried[k]);
            }
        }
        thinned_values_lie_apart(values, distance);
        assert forall|i: int| 0 <= i < values.len() implies is_covered(
            tried,
            #[trigger] values[i] as int,
            distance,
        ) by {
            if i < rest.len() {
                assert(is_covered(before, rest[i] as int, distance));
                let k = choose|k: int|
                    0 <= k < before.len() && #[trigger] before[k] <= rest[i] < before[k] + distance;
                assert(tried[k] == before[k]);
            } else {
                let k = tried.len() - 1;
                assert(tried[k] <= last < tried[k] + distance);
            }
        }
    }
}

proof fn thinned_values_lie_apart(values: Seq<i64>, distance: int)
    requires
        distance > 0,
        values.len() > 0,
        never_falls(values),
    ensures
        lie_apart(thinned(values, distance), distance),
    decreases values.len(),
{
    let rest = values.drop_last();
    let before = thinned(rest, distance);
    let tried = thinned(values, distance);
    if rest.len() > 0 {
        assert(never_falls(rest)) by {
            assert forall|i: int, j: int| 0 <= i <= j < rest.len() implies #[trigger] rest[i]
                <= #[trigger] rest[j] by {
                assert(values[i] <= values[j]);
            }
        }
        thinned_values_lie_apart(rest, distance);
        thinned_values_end_low(rest, distance);
        assert(values[values.len() - 2] <= values[values.len() - 1]);
        let end = before[before.len() - 1];
        assert(end <= values.last());
        assert forall|j: int, k: int| 0 <= j < k < tried.len() implies (#[trigger] tried[k]) - (
        #[trigger] tried[j]) >= distance by {
            if k < before.len() {
                assert(before[k] - before[j] >= distance);
            } else {
                assert(tried[k] - end >= distance);
                if j < before.len() - 1 {
                    assert(end - before[j] >= distance);
                }
            }
        }
    }
}

/// The heights at which rows are tried.
pub open spec fn tried(m: Seq<TemplateMatch>) -> Seq<i64> {
    thinned(ascending(heights(m)), 3_000_000)
}

/// Rows are tried at heights of matches, and every match lies at one of these heights or less than
/// three pixels below it in the image.
pub proof fn rows_are_tried_at_every_match(m: Seq<TemplateMatch>)
    requires
        m.len() <= usize::MAX,
    ensures
        forall|i: int| 0 <= i < m.len() ==> is_covered(tried(m), (#[trigger] m[i]).y as int, 3_000_000),
        forall|h: int|
            0 <= h < tried(m).len() ==> exists|k: int|
                0 <= k < m.len() && (#[trigger] m[k]).y == #[trigger] tried(m)[h],
{
    let values = heights(m);
    let keys = crate::order::keys_of(values);
    let sorted_ys = ascending(values);
    crate::order::ordered_items_are_the_items(values, keys);
    let p = ascending_order(keys);
    assert forall|a: int, b: int| 0 <= a <= b < sorted_ys.len() implies #[trigger] sorted_ys[a]
        <= #[trigger] sorted_ys[b] by {
        assert(keys[p[a] as int] <= keys[p[b] as int]);
    }
    tried_heights_cover_all(sorted_ys, 3_000_000);
    assert forall|i: int| 0 <= i < m.len() implies is_covered(
        tried(m),
        (#[trigger] m[i]).y as int,
        3_000_000,
    ) by {
        assert(sorted_ys.contains(values[i]));
        let a = choose|a: int| 0 <= a < sorted_ys.len() && sorted_ys[a] == values[i];
        assert(is_covered(tried(m), sorted_ys[a] as int, 3_000_000));
    }
    assert forall|h: int| 0 <= h < tried(m).len() implies exists|k: int|
        0 <= k < m.len() && (#[trigger] m[k]).y == #[trigger] tried(m)[h] by {
        assert(sorted_ys.contains(tried(m)[h]));
        let a = choose|a: int| 0 <= a < sorted_ys.len() && sorted_ys[a] == tried(m)[h];
        assert(values.contains(sorted_ys[a]));
        let k = choose|k: int| 0 <= k < values.len() && values[k] == tried(m)[h];
        assert(m[k].y == tried(m)[h]);
    }
}

/// How uneven the heights of a row are: the sum of the squares of the differences of all pairs.
pub open spec fn unevenness(row: Seq<TemplateMatch>) -> int {
    crate::stats::pair_distances(row.map_values(|t: TemplateMatch| t.y as i128))
}

proof fn unevenness_is_spread(row: Seq<TemplateMatch>)
    ensures
        unevenness(row) == spread(wide(heights(row))),
{
    assert(row.map_values(|t: TemplateMatch| t.y as i128) =~= wide(heights(row)));
    crate::stats::spreads_are_those_of_all_pairs(wide(heights(row)));
}

proof fn the_flattest_row_is_flattest(m: Seq<TemplateMatch>, n: int, ys: Seq<i64>, reach: int)
    ensures
        match flattest_row(m, n, ys, reach) {
            Some(row) => {
                &&& exists|k: int|
                    0 <= k < ys.len() && row_at(m, n, #[trigger] ys[k] as int, reach) == Some(row)
                &&& forall|k: int|
                    0 <= k < ys.len() ==> (row_at(m, n, #[trigger] ys[k] as int, reach) matches Some(q)
                        ==> unevenness(row) <= unevenness(q))
            },
            None => forall|k: int|
                0 <= k < ys.len() ==> row_at(m, n, #[trigger] ys[k] as int, reach) is None,
        },
    decreases ys.len(),
{
    if ys.len() > 0 {
        let rest = ys.drop_last();
        the_flattest_row_is_flattest(m, n, rest, reach);
        let last = ys.last();
        assert(ys[ys.len() - 1] == last);
        assert forall|k: int| 0 <= k < rest.len() implies #[trigger] ys[k] == rest[k] by {}
        if let Some(q) = row_at(m, n, last as int, reach) {
            unevenness_is_spread(q);
        }
        match flattest_row(m, n, rest, reach) {
            Some(b) => {
                unevenness_is_spread(b);
                let k = choose|k: int|
                    0 <= k < rest.len() && row_at(m, n, #[trigger] rest[k] as int, reach) == Some(b);
                assert(ys[k] == rest[k]);
            },
            None => {},
        }
        assert forall|k: int| 0 <= k < ys.len() implies match flattest_row(m, n, ys, reach) {
            Some(row) => (row_at(m, n, #[trigger] ys[k] as int, reach) matches Some(q)
                ==> unevenness(row) <= unevenness(q)),
            None => row_at(m, n, ys[k] as int, reach) is None,
        } by {
            if k < rest.len() {
                assert(rest[k] == ys[k]);
            }
        }
    }
}

/// The row that is selected is the flattest of those that can be. It is a row near a height that is
/// tried, within three knob radii of it, and no row near a height that is tried is less uneven. Only
/// where no height that is tried has a row, or there are fewer than `n` matches, is none selected.
pub proof fn the_flattest_row_is_selected(m: Seq<TemplateMatch>, n: int, knob_r: int)
    requires
        0 < n,
    ensures
        m.len() < n ==> aligned_row(m, n, knob_r) is None,
        m.len() >= n ==> match aligned_row(m, n, knob_r) {
            Some(row) => {
                &&& exists|h: int|
                    0 <= h < tried(m).len() && row_at(
                        m,
                        n,
                        #[trigger] tried(m)[h] as int,
                        3 * knob_r,
                    ) == Some(row)
                &&& forall|h: int|
                    0 <= h < tried(m).len() ==> (row_at(
                        m,
                        n,
                        #[trigger] tried(m)[h] as int,
                        3 * knob_r,
                    ) matches Some(q) ==> unevenness(row) <= unevenness(q))
            },
            None => forall|h: int|
                0 <= h < tried(m).len() ==> row_at(
                    m,
                    n,
                    #[trigger] tried(m)[h] as int,
                    3 * knob_r,
                ) is None,
        },
{
    if m.len() >= n {
        the_flattest_row_is_flattest(m, n, tried(m), 3 * knob_r);
    }
}

/// A match that is dropped lies near one that is kept and scores at least as high.
pub proof fn dropped_matches_are_outdone(m: Seq<TemplateMatch>, distance: int, t: TemplateMatch)
    requires
        m.len() <= usize::MAX,
        m.contains(t),
        !survivors(best_first(m), distance).contains(t),
    ensures
        exists|k: TemplateMatch| #[trigger]
            survivors(best_first(m), distance).contains(k) && m.contains(k) && k.score >= t.score && (
            t.x - k.x) * (t.x - k.x) + (t.y - k.y) * (t.y - k.y) < distance * distance,
{
    ordered_matches_are_the_matches(m);
    let ranked = best_first(m);
    assert(ranked.contains(t));
    let k = choose|k: int| 0 <= k < ranked.len() && ranked[k] == t;
    survivors_outdo(ranked, distance, k);
    let kept = survivors(ranked, distance);
    let i = choose|i: int|
        0 <= i < kept.len() && is_near(t, #[trigger] kept[i], distance) && kept[i].score >= t.score
            && ranked.contains(kept[i]);
    assert(m.contains(kept[i]) && kept.contains(kept[i]));
}

proof fn survivors_outdo(m: Seq<TemplateMatch>, distance: int, k: int)
    requires
        0 <= k < m.len(),
        forall|i: int, j: int| 0 <= i <= j < m.len() ==> (#[trigger] m[i]).score >= (#[trigger] m[j]).score,
        !survivors(m, distance).contains(m[k]),
    ensures
        exists|i: int|
            0 <= i < survivors(m, distance).len() && is_near(
                m[k],
                #[trigger] survivors(m, distance)[i],
                distance,
            ) && survivors(m, distance)[i].score >= m[k].score && m.contains(
                survivors(m, distance)[i],
            ),
    decreases m.len(),
{
    let rest = m.drop_last();
    let kept = survivors(rest, distance);
    let all = survivors(m, distance);
    if k == m.len() - 1 {
        if !is_near_one(m.last(), kept, distance) {
            assert(all[all.len() - 1] == m[k]);
        }
        let i = choose|i: int| 0 <= i < kept.len() && is_near(m[k], #[trigger] kept[i], distance);
        survivors_are_members(rest, distance);
        assert(rest.contains(kept[i]));
        let l = choose|l: int| 0 <= l < rest.len() && rest[l] == kept[i];
        assert(m[l] == kept[i] && m[l].score >= m[k].score);
        assert(all[i] == kept[i]);
    } else {
        assert(rest[k] == m[k]);
        if kept.contains(m[k]) {
            let l = choose|l: int| 0 <= l < kept.len() && kept[l] == m[k];
            assert(all[l] == m[k]);
        }
        assert forall|i: int, j: int| 0 <= i <= j < rest.len() implies (#[trigger] rest[i]).score >= (
        #[trigger] rest[j]).score by {
            assert(m[i].score >= m[j].score);
        }
        survivors_outdo(rest, distance, k);
        let i = choose|i: int|
            0 <= i < kept.len() && is_near(rest[k], #[trigger] kept[i], distance) && kept[i].score
                >= rest[k].score && rest.contains(kept[i]);
        let l = choose|l: int| 0 <= l < rest.len() && rest[l] == kept[i];
        assert(m[l] == kept[i]);
        assert(all[i] == kept[i]);
    }
}

proof fn survivors_are_members(m: Seq<TemplateMatch>, distance: int)
    ensures
        forall|i: int|
            0 <= i < survivors(m, distance).len() ==> m.contains(#[trigger] survivors(m, distance)[i]),
    decreases m.len(),
{
    if m.len() > 0 {
        let rest = m.drop_last();
        survivors_are_members(rest, distance);
        let kept = survivors(rest, distance);
        let all = survivors(m, distance);
        assert forall|i: int| 0 <= i < all.len() implies m.contains(#[trigger] all[i]) by {
            if i < kept.len() {
                assert(all[i] == kept[i]);
                assert(rest.contains(kept[i]));
                let l = choose|l: int| 0 <= l < rest.len() && rest[l] == kept[i];
                assert(m[l] == all[i]);
            } else {
                assert(m[m.len() - 1] == all[i]);
            }
        }
    }
}

proof fn flattest_rows_are_spaced(m: Seq<TemplateMatch>, n: int, ys: Seq<i64>, reach: int)
    ensures
        flattest_row(m, n, ys, reach) matches Some(row) ==> is_spaced(row, 5_000_000),
    decreases ys.len(),
{
    if ys.len() > 0 {
        flattest_rows_are_spaced(m, n, ys.drop_last(), reach);
    }
}

/// The sizes at which the templates are tried, one after the other.
pub open spec fn scale_at(i: int) -> int {
    if i == 0 {
        200_000
    } else if i == 1 {
        250_000
    } else if i == 2 {
        300_000
    } else if i == 3 {
        350_000
    } else if i == 4 {
        400_000
    } else if i == 5 {
        450_000
    } else if i == 6 {
        500_000
    } else {
        150_000
    }
}

/// How to look for the knobs in one attempt.
#[derive(Debug, Clone, Copy, PartialEq, Eq, Structural)]
pub struct FeaturePlan {
    /// The factor by which the templates are scaled.
    pub scale: i64,
    /// The least score of a match.
    pub threshold: i64,
    /// The size of the scaled knob template.
    pub knob_width: u32,
    pub knob_height: u32,
}

/// The scale of an attempt: the scales take turns.
pub open spec fn attempt_scale(iteration: int) -> int {
    scale_at(iteration % 8)
}

/// The least score of a match in an attempt: it falls after each turn of the scales.
pub open spec fn attempt_threshold(iteration: int) -> int {
    crate::fixed::max(350_000 - (iteration / 8) * 50_000, 150_000)
}

/// One side of a template after scaling.
pub open spec fn scaled_side(side: int, scale: int) -> int {
    side * scale / 1_000_000
}

/// The size of a template after scaling; nothing is left of one that gets smaller than three
/// pixels.
pub open spec fn scaled_size(width: int, height: int, scale: int) -> (int, int) {
    let w = scaled_side(width, scale);
    let h = scaled_side(height, scale);
    if w < 3 || h < 3 {
        (0, 0)
    } else {
        (w, h)
    }
}

/// The size of a template after scaling.
pub fn resized(width: u32, height: u32, scale: i64) -> (r: (u32, u32))
    requires
        0 <= scale <= ONE,
    ensures
        (r.0 as int, r.1 as int) == scaled_size(width as int, height as int, scale as int),
{
    proof {
        assert(0 <= width * scale <= width * 1_000_000) by (nonlinear_arith)
            requires
                0 <= scale <= 1_000_000,
                0 <= width,
        ;
        assert(0 <= height * scale <= height * 1_000_000) by (nonlinear_arith)
            requires
                0 <= scale <= 1_000_000,
                0 <= height,
        ;
    }
    let w: u64 = (width as u64 * scale as u64) / 1_000_000;
    let h: u64 = (height as u64 * scale as u64) / 1_000_000;
    if w < 3 || h < 3 {
        (0, 0)
    } else {
        (w as u32, h as u32)
    }
}

/// A template can be matched: it is smaller than the image on both sides.
pub fn template_fits(width: u32, height: u32, image_width: u32, image_height: u32) -> (r: bool)
    ensures
        r == (width < image_width && height < image_height),
{
    width < image_width && height < image_height
}

/// The clock template can be matched: it is large enough, and smaller than the image.
pub fn clock_template_fits(width: u32, height: u32, image_width: u32, image_height: u32) -> (r: bool)
    ensures
        r == (width >= 5 && height >= 5 && width < image_width && height < image_height),
{
    width >= 5 && height >= 5 && template_fits(width, height, image_width, image_height)
}

/// How an attempt decides to look for the knobs, given the size of the knob template.
pub open spec fn is_feature_plan(
    templates_loaded: bool,
    search_known: bool,
    knob_width: int,
    knob_height: int,
    iteration: int,
    r: Result<FeaturePlan, StageOutcome>,
) -> bool {
    let scale = attempt_scale(iteration);
    let (w, h) = scaled_size(knob_width, knob_height, scale);
    if !templates_loaded {
        r matches Err(o) && is_exhausted(o, "template images not loaded"@)
    } else if !search_known {
        r matches Err(o) && is_exhausted(o, "missing knob search area"@)
    } else if w < 5 || h < 5 {
        r matches Err(o) && is_retry(
            o,
            "knob template too small at scale "@ + fixed_decimal(scale, 2),
        )
    } else {
        r matches Ok(plan) && plan.scale == scale && plan.threshold == attempt_threshold(iteration)
            && plan.knob_width == w && plan.knob_height == h
    }
}

/// Decides how an attempt looks for the knobs, given the size of the knob template.
pub fn plan_features(
    templates_loaded: bool,
    search_known: bool,
    knob_width: u32,
    knob_height: u32,
    iteration: u32,
) -> (r: Result<FeaturePlan, StageOutcome>)
    ensures
        is_feature_plan(
            templates_loaded,
            search_known,
            knob_width as int,
            knob_height as int,
            iteration as int,
            r,
        ),
{
    if !templates_loaded {
        return Err(StageOutcome::Exhausted(String::from_str("template images not loaded")));
    }
    if !search_known {
        return Err(StageOutcome::Exhausted(String::from_str("missing knob search area")));
    }
    let scale: i64 = match iteration % 8 {
        0 => 200_000,
        1 => 250_000,
        2 => 300_000,
        3 => 350_000,
        4 => 400_000,
        5 => 450_000,
        6 => 500_000,
        _ => 150_000,
    };
    let threshold: i64 = crate::fixed::max_exec(350_000 - (iteration / 8) as i64 * 50_000, 150_000);
    let (w, h) = resized(knob_width, knob_height, scale);
    if w < 5 || h < 5 {
        let mut s: String = String::from_str("knob template too small at scale ");
        push_fixed(&mut s, scale as i128, 2);
        return Err(StageOutcome::Retry(s));
    }
    Ok(FeaturePlan { scale, threshold, knob_width: w, knob_height: h })
}

impl FeaturePlan {
    /// The least score of a match, in billionths.
    pub fn least_score(&self) -> (r: i64)
        ensures
            r == clamped(self.threshold * 1_000),
    {
        clamp_to_fixed(self.threshold as i128 * 1_000)
    }
}

/// The angles that the knob template is turned by.
pub fn rotation_angles() -> (r: Vec<i64>)
    ensures
        r@ == Seq::new(36, |i: int| (i * 10_000_000) as i64),
{
    let mut r: Vec<i64> = Vec::new();
    let mut angle: i64 = 0;
    while angle < 360_000_000
        invariant
            angle == r@.len() * ROTATION_STEP_DEG,
            r@.len() <= 36,
            forall|i: int| 0 <= i < r@.len() ==> #[trigger] r@[i] == i * 10_000_000,
        decreases 360_000_000 - angle,
    {
        r.push(angle);
        angle = angle + ROTATION_STEP_DEG;
    }
    assert(r@ =~= Seq::new(36, |i: int| (i * 10_000_000) as i64));
    r
}

/// The knob matches of an attempt that lie apart, best first; a retry where there are too few.
pub open spec fn are_candidates(
    matches: Seq<TemplateMatch>,
    plan: FeaturePlan,
    r: Result<Vec<TemplateMatch>, StageOutcome>,
) -> bool {
    let kept = survivors(best_first(matches), 15_000_000);
    if matches.len() < 10 {
        r matches Err(o) && is_retry(
            o,
            "found "@ + decimal(matches.len() as int) + " knob matches (need 10), scale="@
                + fixed_decimal(plan.scale as int, 2) + ", threshold="@ + fixed_decimal(
                plan.threshold as int,
                2,
            ),
        )
    } else if kept.len() < 10 {
        r matches Err(o) && is_retry(
            o,
            "only "@ + decimal(kept.len() as int) + " knob matches after NMS (need 10), scale="@
                + fixed_decimal(plan.scale as int, 2),
        )
    } else {
        r matches Ok(v) && v@ == kept
    }
}

/// The knob matches of an attempt that lie apart, best first; a retry where there are too few.
pub fn knob_candidates(matches: &Vec<TemplateMatch>, plan: &FeaturePlan) -> (r: Result<
    Vec<TemplateMatch>,
    StageOutcome,
>)
    ensures
        are_candidates(matches@, *plan, r),
        are_turns(matches@) ==> (r matches Ok(v) ==> are_turns(v@)),
{
    if matches.len() < EXPECTED_KNOBS {
        let mut s: String = String::from_str("found ");
        push_number(&mut s, matches.len() as u128);
        s.append(" knob matches (need 10), scale=");
        push_fixed(&mut s, plan.scale as i128, 2);
        s.append(", threshold=");
        push_fixed(&mut s, plan.threshold as i128, 2);
        return Err(StageOutcome::Retry(s));
    }
    let kept: Vec<TemplateMatch> = nms(matches, NMS_MIN_DIST);
    proof {
        if are_turns(matches@) {
            members_are_turns(matches@, kept@);
        }
    }
    if kept.len() < EXPECTED_KNOBS {
        let mut s: String = String::from_str("only ");
        push_number(&mut s, kept.len() as u128);
        s.append(" knob matches after NMS (need 10), scale=");
        push_fixed(&mut s, plan.scale as i128, 2);
        return Err(StageOutcome::Retry(s));
    }
    Ok(kept)
}

/// The horizontal positions of the knobs in the warped image.
pub open spec fn knob_xs(row: Seq<TemplateMatch>, x_offset: int) -> Seq<i64> {
    row.map_values(|t: TemplateMatch| clamped(t.x + x_offset) as i64)
}

/// The vertical positions of the knobs in the warped image.
pub open spec fn knob_ys(row: Seq<TemplateMatch>, y_offset: int) -> Seq<i64> {
    row.map_values(|t: TemplateMatch| clamped(t.y + y_offset) as i64)
}

/// The clock beside a row of knobs: where it was matched, if that is to the left of the knobs
/// and near their height, and otherwise four knob radii to the left of them.
pub open spec fn clock_beside(
    row: Seq<TemplateMatch>,
    matched: Option<TemplateMatch>,
    x_offset: int,
    y_offset: int,
    knob_r: int,
    clock_r: int,
) -> CircleFeature {
    let left = least(knob_xs(row, x_offset));
    let middle = median(knob_ys(row, y_offset));
    match matched {
        Some(m) if clamped(m.x + x_offset) < left && abs(clamped(m.y + y_offset) - middle) < 4
            * knob_r => CircleFeature {
            center_x: clamped(m.x + x_offset) as i64,
            center_y: clamped(m.y + y_offset) as i64,
            radius: clock_r as i64,
        },
        _ => CircleFeature {
            center_x: clamped(left - 4 * knob_r) as i64,
            center_y: middle,
            radius: clock_r as i64,
        },
    }
}

/// The features of a row of knobs.
pub open spec fn features_of_row(
    row: Seq<TemplateMatch>,
    matched: Option<TemplateMatch>,
    x_offset: int,
    y_offset: int,
    knob_r: int,
    clock_r: int,
) -> FeaturesView {
    FeaturesView {
        clock: clock_beside(row, matched, x_offset, y_offset, knob_r, clock_r),
        knobs: row.map_values(
            |t: TemplateMatch|
                CircleFeature {
                    center_x: clamped(t.x + x_offset) as i64,
                    center_y: clamped(t.y + y_offset) as i64,
                    radius: knob_r as i64,
                },
        ),
        off_angles: row.map_values(|t: TemplateMatch| t.angle),
    }
}

/// Half the knob template's width.
pub open spec fn knob_radius(plan: FeaturePlan) -> int {
    plan.knob_width * 500_000
}

/// The knobs and the clock that an attempt chooses from the candidates, in coordinates of the
/// warped image.
pub open spec fn is_feature_choice(
    candidates: Seq<TemplateMatch>,
    clock_match: Option<TemplateMatch>,
    plan: FeaturePlan,
    clock_width: int,
    clock_height: int,
    search: KnobSearchArea,
    r: Result<FeaturesView, StageOutcome>,
) -> bool {
    match aligned_row(best_first(candidates), 10, knob_radius(plan)) {
        None => r matches Err(o) && is_retry(
            o,
            "could not find 10 Y-aligned knob matches, scale="@ + fixed_decimal(
                plan.scale as int,
                2,
            ),
        ),
        Some(row) => r == Ok::<FeaturesView, StageOutcome>(
            features_of_row(
                row,
                clock_match,
                search.x_min as int,
                search.y_min as int,
                knob_radius(plan),
                crate::fixed::max(clock_width, clock_height) * 500_000,
            ),
        ),
    }
}

/// Chooses the knobs and the clock from the candidates, in coordinates of the warped image.
pub fn choose_features(
    candidates: &Vec<TemplateMatch>,
    clock_match: Option<TemplateMatch>,
    plan: &FeaturePlan,
    clock_width: u32,
    clock_height: u32,
    search: &KnobSearchArea,
) -> (r: Result<DetectedFeatures, StageOutcome>)
    ensures
        is_feature_choice(
            candidates@,
            clock_match,
            *plan,
            clock_width as int,
            clock_height as int,
            *search,
            match r {
                Ok(f) => Ok(f@),
                Err(o) => Err(o),
            },
        ),
        are_turns(candidates@) ==> (r matches Ok(f) ==> all_turns(f.off_angles@)),
{
    let x_offset: i64 = search.x_min;
    let y_offset: i64 = search.y_min;
    let knob_r: i64 = plan.knob_width as i64 * 500_000;
    let side: u32 = if clock_width < clock_height {
        clock_height
    } else {
        clock_width
    };
    let clock_r: i64 = side as i64 * 500_000;
    let ranked: Vec<TemplateMatch> = sort_by_score(candidates);
    proof {
        if are_turns(candidates@) {
            members_are_turns(candidates@, ranked@);
        }
    }
    let row: Vec<KnobMatch> = match select_y_aligned_knobs(&ranked, EXPECTED_KNOBS, knob_r) {
        Some(row) => row,
        None => {
            let mut s: String = String::from_str("could not find 10 Y-aligned knob matches, scale=");
            push_fixed(&mut s, plan.scale as i128, 2);
            return Err(StageOutcome::Retry(s));
        },
    };
    let ghost chosen = aligned_row(ranked@, 10, knob_r as int)->Some_0;
    let ghost wanted = features_of_row(
        chosen,
        clock_match,
        x_offset as int,
        y_offset as int,
        knob_r as int,
        clock_r as int,
    );
    let mut xs: Vec<i64> = Vec::new();
    let mut ys: Vec<i64> = Vec::new();
    let mut knobs: Vec<CircleFeature> = Vec::new();
    let mut off_angles: Vec<i64> = Vec::new();
    let mut i: usize = 0;
    while i < row.len()
        invariant
            i <= row.len(),
            row@ == knobs_of(chosen),
            xs.len() == i,
            ys.len() == i,
            knobs.len() == i,
            off_angles.len() == i,
            wanted == features_of_row(
                chosen,
                clock_match,
                x_offset as int,
                y_offset as int,
                knob_r as int,
                clock_r as int,
            ),
            forall|j: int| 0 <= j < i ==> #[trigger] xs[j] == knob_xs(chosen, x_offset as int)[j],
            forall|j: int| 0 <= j < i ==> #[trigger] ys[j] == knob_ys(chosen, y_offset as int)[j],
            forall|j: int| 0 <= j < i ==> #[trigger] knobs[j] == wanted.knobs[j],
            forall|j: int| 0 <= j < i ==> #[trigger] off_angles[j] == wanted.off_angles[j],
        decreases row.len() - i,
    {
        assert(row[i as int].center_x == chosen[i as int].x);
        let x: i64 = clamp_to_fixed(row[i].center_x as i128 + x_offset as i128);
        let y: i64 = clamp_to_fixed(row[i].center_y as i128 + y_offset as i128);
        xs.push(x);
        ys.push(y);
        knobs.push(CircleFeature { center_x: x, center_y: y, radius: knob_r });
        off_angles.push(row[i].angle);
        i = i + 1;
    }
    assert(xs@ =~= knob_xs(chosen, x_offset as int));
    assert(ys@ =~= knob_ys(chosen, y_offset as int));
    let middle: i64 = find_median(&ys);
    let left: i64 = find_least(&xs);
    let beside: CircleFeature = CircleFeature {
        center_x: clamp_to_fixed(left as i128 - knob_r as i128 * 4),
        center_y: middle,
        radius: clock_r,
    };
    let clock: CircleFeature = match clock_match {
        Some(m) => {
            let x: i64 = clamp_to_fixed(m.x as i128 + x_offset as i128);
            let y: i64 = clamp_to_fixed(m.y as i128 + y_offset as i128);
            if x < left && abs_exec(y as i128 - middle as i128) < knob_r as i128 * 4 {
                CircleFeature { center_x: x, center_y: y, radius: clock_r }
            } else {
                beside
            }
        },
        None => beside,
    };
    let features = DetectedFeatures { clock, knobs, off_angles };
    assert(features@ =~= wanted);
    proof {
        if are_turns(candidates@) {
            assert forall|i: int| 0 <= i < features.off_angles@.len() implies is_turn(
                #[trigger] features.off_angles@[i] as int,
            ) by {
                assert(is_turn(chosen[i].angle as int));
            }
        }
    }
    Ok(features)
}

/// What is drawn for a knob in the knob area, which starts at the offset: a
/// green circle, and a yellow pointer where the direction is known.
pub open spec fn knob_marks(
    knob: CircleFeature,
    direction: Option<(i64, i64)>,
    x_offset: int,
    y_offset: int,
) -> Seq<ShapeView> {
    let x = pixel(knob.center_x - x_offset);
    let y = pixel(knob.center_y - y_offset);
    let radius = pixel(knob.radius as int);
    let circle = seq![
        ShapeView::Circle { x, y, radius, color: bgr(0, 255, 0), thickness: 2, smooth: false },
    ];
    match direction {
        Some((cos, sin)) => circle.push(
            ShapeView::Line {
                x1: x,
                y1: y,
                x2: x + reach(radius, cos as int),
                y2: y + reach(radius, sin as int),
                color: bgr(0, 255, 255),
                thickness: 2,
            },
        ),
        None => circle,
    }
}

/// What is drawn for the first `n` knobs.
pub open spec fn knobs_marks(
    knobs: Seq<CircleFeature>,
    directions: Seq<(i64, i64)>,
    x_offset: int,
    y_offset: int,
    n: nat,
) -> Seq<ShapeView>
    decreases n,
{
    if n == 0 {
        Seq::empty()
    } else {
        let k = n - 1;
        knobs_marks(knobs, directions, x_offset, y_offset, k as nat) + knob_marks(
            knobs[k],
            direction_of(directions, k),
            x_offset,
            y_offset,
        )
    }
}

/// The pointer of a knob ends on a pixel.
pub open spec fn pointer_fits(
    knob: CircleFeature,
    direction: Option<(i64, i64)>,
    x_offset: int,
    y_offset: int,
) -> bool {
    direction matches Some((cos, sin)) ==> {
        let radius = pixel(knob.radius as int);
        let x = pixel(knob.center_x - x_offset) + reach(radius, cos as int);
        let y = pixel(knob.center_y - y_offset) + reach(radius, sin as int);
        i32::MIN <= x <= i32::MAX && i32::MIN <= y <= i32::MAX
    }
}

/// The direction of knob `i`, where it is known.
pub open spec fn direction_of(directions: Seq<(i64, i64)>, i: int) -> Option<(i64, i64)> {
    if i < directions.len() {
        Some(directions[i])
    } else {
        None
    }
}

/// The place of the knob area in the warped image.
pub open spec fn area_offset(search: Option<KnobSearchArea>) -> (int, int) {
    match search {
        Some(s) => (s.x_min as int, s.y_min as int),
        None => (0, 0),
    }
}

/// All pointers end on pixels.
pub open spec fn pointers_fit(
    knobs: Seq<CircleFeature>,
    search: Option<KnobSearchArea>,
    directions: Seq<(i64, i64)>,
) -> bool {
    let (x, y) = area_offset(search);
    forall|i: int|
        0 <= i < knobs.len() ==> pointer_fits(
            #[trigger] knobs[i],
            direction_of(directions, i),
            x,
            y,
        )
}

/// The pixel that lies at `center` in an image that starts at the offset.
fn pixel_in_area(center: i64, offset: i64) -> (r: i32)
    ensures
        r == pixel(center - offset),
{
    Integer::new(center as i128 - offset as i128).to_pixel()
}

fn find_direction(directions: &Vec<(i64, i64)>, i: usize) -> (r: Option<(i64, i64)>)
    ensures
        r == direction_of(directions@, i as int),
{
    if i < directions.len() {
        Some(directions[i])
    } else {
        None
    }
}

fn find_offset(search: &Option<KnobSearchArea>) -> (r: (i64, i64))
    ensures
        (r.0 as int, r.1 as int) == area_offset(*search),
{
    match search {
        Some(s) => (s.x_min, s.y_min),
        None => (0, 0),
    }
}

/// Whether all pointers end on pixels.
pub fn can_mark(
    features: &DetectedFeatures,
    search: &Option<KnobSearchArea>,
    directions: &Vec<(i64, i64)>,
) -> (r: bool)
    ensures
        r == pointers_fit(features.knobs@, *search, directions@),
{
    let (x_offset, y_offset): (i64, i64) = find_offset(search);
    let mut i: usize = 0;
    while i < features.knobs.len()
        invariant
            i <= features.knobs.len(),
            (x_offset as int, y_offset as int) == area_offset(*search),
            forall|j: int|
                0 <= j < i ==> pointer_fits(
                    #[trigger] features.knobs[j],
                    direction_of(directions@, j),
                    x_offset as int,
                    y_offset as int,
                ),
        decreases features.knobs.len() - i,
    {
        let knob: &CircleFeature = &features.knobs[i];
        if let Some(d) = find_direction(directions, i) {
            let radius: i64 = to_pixel(knob.radius) as i64;
            let x: i128 = pixel_in_area(knob.center_x, x_offset) as i128 + reach_of(radius, d.0);
            let y: i128 = pixel_in_area(knob.center_y, y_offset) as i128 + reach_of(radius, d.1);
            if !(-0x8000_0000 <= x && x <= 0x7fff_ffff && -0x8000_0000 <= y && y <= 0x7fff_ffff) {
                assert(!pointer_fits(
                    features.knobs@[i as int],
                    direction_of(directions@, i as int),
                    x_offset as int,
                    y_offset as int,
                ));
                return false;
            }
        }
        i = i + 1;
    }
    true
}

fn mark_knob(
    shapes: &mut Vec<Shape>,
    knob: &CircleFeature,
    direction: Option<(i64, i64)>,
    x_offset: i64,
    y_offset: i64,
)
    requires
        pointer_fits(*knob, direction, x_offset as int, y_offset as int),
    ensures
        drawing(final(shapes)@) == drawing(old(shapes)@) + knob_marks(
            *knob,
            direction,
            x_offset as int,
            y_offset as int,
        ),
{
    let x: i32 = pixel_in_area(knob.center_x, x_offset);
    let y: i32 = pixel_in_area(knob.center_y, y_offset);
    let radius: i32 = to_pixel(knob.radius);
    shapes.push(
        Shape::Circle {
            x,
            y,
            radius,
            color: Color { blue: 0, green: 255, red: 0 },
            thickness: 2,
            smooth: false,
        },
    );
    if let Some(d) = direction {
        let end_x: i32 = (x as i128 + reach_of(radius as i64, d.0)) as i32;
        let end_y: i32 = (y as i128 + reach_of(radius as i64, d.1)) as i32;
        shapes.push(
            Shape::Line {
                x1: x,
                y1: y,
                x2: end_x,
                y2: end_y,
                color: Color { blue: 0, green: 255, red: 255 },
                thickness: 2,
            },
        );
    }
    assert(drawing(shapes@) =~= drawing(old(shapes)@) + knob_marks(
        *knob,
        direction,
        x_offset as int,
        y_offset as int,
    ));
}

/// The matches of a template of this size that `score` may give at an angle, the best first:
/// those that reach the least score of the plan in its map, which is given row by row.
pub open spec fn may_peak<C, T, E, S: Fn(&C, &T) -> Result<(Vec<i64>, u32, u32), E>>(
    score: S,
    plan: FeaturePlan,
    edges: C,
    template: T,
    width: int,
    height: int,
    angle: i64,
    found: Seq<TemplateMatch>,
) -> bool {
    exists|map: Vec<i64>, rows: u32, cols: u32|
        #![trigger call_ensures(score, (&edges, &template), Ok((map, rows, cols)))]
        call_ensures(score, (&edges, &template), Ok((map, rows, cols))) && found == best_first(
            matches_reaching(
                map@,
                cols as int,
                clamped(plan.threshold * 1_000) as i64,
                width,
                height,
                angle,
                map@.len() as int,
            ),
        )
}

/// Every map that `score` gives has its rows and columns.
pub open spec fn gives_maps<C, T, E, S: Fn(&C, &T) -> Result<(Vec<i64>, u32, u32), E>>(
    score: S,
) -> bool {
    &&& forall|edges: &C, template: &T| #[trigger] call_requires(score, (edges, template))
    &&& forall|edges: &C, template: &T, map: Vec<i64>, rows: u32, cols: u32| #[trigger]
        call_ensures(score, (edges, template), Ok((map, rows, cols))) ==> map.len() == rows * cols
}

fn find_matches<C, T, E, S: Fn(&C, &T) -> Result<(Vec<i64>, u32, u32), E>>(
    plan: &FeaturePlan,
    edges: &C,
    template: &T,
    width: u32,
    height: u32,
    angle: i64,
    score: &S,
) -> (r: Result<Vec<TemplateMatch>, E>)
    requires
        gives_maps(*score),
    ensures
        match r {
            Ok(found) => may_peak(
                *score,
                *plan,
                *edges,
                *template,
                width as int,
                height as int,
                angle,
                found@,
            ),
            Err(e) => call_ensures(*score, (edges, template), Err(e)),
        },
        r matches Ok(found) ==> forall|i: int|
            0 <= i < found.len() ==> (#[trigger] found[i]).angle == angle,
{
    match score(edges, template) {
        Ok((map, rows, cols)) => Ok(
            find_peaks(&map, rows, cols, plan.least_score(), width, height, angle),
        ),
        Err(e) => Err(e),
    }
}

/// The matches at one angle, where `turn` gives the knob template turned by it, with its size, if
/// anything is left of it: none where it is not smaller than the image.
pub open spec fn may_match_at<
    C,
    T,
    E,
    R: Fn(&C, i64) -> Result<Option<(T, u32, u32)>, E>,
    S: Fn(&C, &T) -> Result<(Vec<i64>, u32, u32), E>,
>(
    turn: R,
    score: S,
    plan: FeaturePlan,
    edges: C,
    image: (u32, u32),
    angle: i64,
    found: Seq<TemplateMatch>,
) -> bool {
    exists|turned: Option<(T, u32, u32)>|
        #![trigger call_ensures(turn, (&edges, angle), Ok(turned))]
        call_ensures(turn, (&edges, angle), Ok(turned)) && match turned {
            Some((template, w, h)) if w < image.0 && h < image.1 => may_peak(
                score,
                plan,
                edges,
                template,
                w as int,
                h as int,
                angle,
                found,
            ),
            _ => found.len() == 0,
        }
}

/// The matches at the first angles, ten degrees apart, one after the other.
pub open spec fn may_match_all<
    C,
    T,
    E,
    R: Fn(&C, i64) -> Result<Option<(T, u32, u32)>, E>,
    S: Fn(&C, &T) -> Result<(Vec<i64>, u32, u32), E>,
>(
    turn: R,
    score: S,
    plan: FeaturePlan,
    edges: C,
    image: (u32, u32),
    found: Seq<Seq<TemplateMatch>>,
) -> bool {
    forall|i: int|
        0 <= i < found.len() ==> may_match_at(
            turn,
            score,
            plan,
            edges,
            image,
            (i * 10_000_000) as i64,
            #[trigger] found[i],
        )
}

/// Some lists one after the other.
pub open spec fn joined(lists: Seq<Seq<TemplateMatch>>) -> Seq<TemplateMatch>
    decreases lists.len(),
{
    if lists.len() == 0 {
        Seq::empty()
    } else {
        joined(lists.drop_last()) + lists.last()
    }
}

/// The matching at one angle may fail so: where the template is turned, or where it is scored,
/// if it is smaller than the image.
pub open spec fn may_miss_at<
    C,
    T,
    E,
    R: Fn(&C, i64) -> Result<Option<(T, u32, u32)>, E>,
    S: Fn(&C, &T) -> Result<(Vec<i64>, u32, u32), E>,
>(turn: R, score: S, edges: C, image: (u32, u32), angle: i64, error: E) -> bool {
    ||| call_ensures(turn, (&edges, angle), Err(error))
    ||| exists|template: T, w: u32, h: u32|
        #![trigger call_ensures(turn, (&edges, angle), Ok(Some((template, w, h))))]
        call_ensures(turn, (&edges, angle), Ok(Some((template, w, h)))) && w < image.0 && h
            < image.1 && call_ensures(score, (&edges, &template), Err(error))
}

/// The matching may fail so at one of the angles, with matches at those before it.
pub open spec fn may_miss<
    C,
    T,
    E,
    R: Fn(&C, i64) -> Result<Option<(T, u32, u32)>, E>,
    S: Fn(&C, &T) -> Result<(Vec<i64>, u32, u32), E>,
>(
    turn: R,
    score: S,
    plan: FeaturePlan,
    edges: C,
    image: (u32, u32),
    error: E,
) -> bool {
    exists|found: Seq<Seq<TemplateMatch>>| #[trigger]
        may_match_all(turn, score, plan, edges, image, found) && found.len() < 36 && may_miss_at(
            turn,
            score,
            edges,
            image,
            (found.len() * 10_000_000) as i64,
            error,
        )
}

/// The matches at all angles, one after the other.
pub open spec fn may_match_knobs<
    C,
    T,
    E,
    R: Fn(&C, i64) -> Result<Option<(T, u32, u32)>, E>,
    S: Fn(&C, &T) -> Result<(Vec<i64>, u32, u32), E>,
>(
    turn: R,
    score: S,
    plan: FeaturePlan,
    edges: C,
    image: (u32, u32),
    all: Seq<TemplateMatch>,
) -> bool {
    exists|found: Seq<Seq<TemplateMatch>>|
        #![trigger joined(found)]
        found.len() == 36 && all == joined(found) && may_match_all(
            turn,
            score,
            plan,
            edges,
            image,
            found,
        )
}

/// The matches of the knob template at every angle, in the order of the angles. `turn` gives the
/// template turned by an angle, with its size, or nothing where nothing is left of it; `score`
/// gives the map of a template's scores, row by row.
pub fn knob_matches<
    C,
    T,
    E,
    R: Fn(&C, i64) -> Result<Option<(T, u32, u32)>, E>,
    S: Fn(&C, &T) -> Result<(Vec<i64>, u32, u32), E>,
>(
    plan: &FeaturePlan,
    edges: &C,
    image_width: u32,
    image_height: u32,
    turn: &R,
    score: &S,
) -> (r: Result<Vec<TemplateMatch>, E>)
    requires
        forall|edges: &C, angle: i64| #[trigger] call_requires(*turn, (edges, angle)),
        gives_maps(*score),
    ensures
        match r {
            Ok(all) => may_match_knobs(
                *turn,
                *score,
                *plan,
                *edges,
                (image_width, image_height),
                all@,
            ) && are_turns(all@),
            Err(e) => may_miss(*turn, *score, *plan, *edges, (image_width, image_height), e),
        },
{
    let angles: Vec<i64> = rotation_angles();
    let mut all: Vec<TemplateMatch> = Vec::new();
    let ghost mut found: Seq<Seq<TemplateMatch>> = Seq::empty();
    let mut i: usize = 0;
    while i < angles.len()
        invariant
            forall|edges: &C, angle: i64| #[trigger] call_requires(*turn, (edges, angle)),
            gives_maps(*score),
            angles@ == Seq::new(36, |i: int| (i * 10_000_000) as i64),
            i <= angles.len(),
            found.len() == i,
            all@ == joined(found),
            are_turns(all@),
            may_match_all(
                *turn,
                *score,
                *plan,
                *edges,
                (image_width, image_height),
                found,
            ),
        decreases angles.len() - i,
    {
        let angle: i64 = angles[i];
        assert(angle == found.len() * 10_000_000 && is_turn(angle as int));
        let turned: Option<(T, u32, u32)> = match turn(edges, angle) {
            Ok(turned) => turned,
            Err(e) => {
                assert(may_miss_at(
                    *turn,
                    *score,
                    *edges,
                    (image_width, image_height),
                    angle,
                    e,
                ));
                return Err(e);
            },
        };
        let mut more: Vec<TemplateMatch> = Vec::new();
        if let Some((template, w, h)) = &turned {
            if template_fits(*w, *h, image_width, image_height) {
                more = match find_matches(plan, edges, template, *w, *h, angle, score) {
                    Ok(more) => more,
                    Err(e) => {
                        assert(call_ensures(*turn, (edges, angle), Ok(Some((*template, *w, *h)))));
                        assert(may_miss_at(
                            *turn,
                            *score,
                            *edges,
                            (image_width, image_height),
                            angle,
                            e,
                        ));
                        return Err(e);
                    },
                };
            }
        }
        let ghost added = more@;
        assert(may_match_at(
            *turn,
            *score,
            *plan,
            *edges,
            (image_width, image_height),
            angle,
            added,
        ));
        proof {
            assert(found.push(added).drop_last() =~= found);
            found = found.push(added);
        }
        all.append(&mut more);
        i = i + 1;
    }
    Ok(all)
}

/// The clock template can be matched: it is large enough, and smaller than the image.
pub open spec fn is_clock_fit(width: u32, height: u32, image: (u32, u32)) -> bool {
    width >= 5 && height >= 5 && width < image.0 && height < image.1
}

/// The best match of the clock template may be this one: there is none where it cannot be matched.
pub open spec fn may_match_clock<C, T, E, S: Fn(&C, &T) -> Result<(Vec<i64>, u32, u32), E>>(
    score: S,
    plan: FeaturePlan,
    edges: C,
    image: (u32, u32),
    template: T,
    width: u32,
    height: u32,
    best: Option<TemplateMatch>,
) -> bool {
    if is_clock_fit(width, height, image) {
        exists|found: Seq<TemplateMatch>| #[trigger]
            may_peak(
                score,
                plan,
                edges,
                template,
                width as int,
                height as int,
                0,
                found,
            ) && best == (if found.len() == 0 {
                None
            } else {
                Some(found[0])
            })
    } else {
        best is None
    }
}

/// The best match of the clock template, if it is large enough and smaller than the image; `score`
/// gives the map of a template's scores, row by row.
pub fn clock_match<C, T, E, S: Fn(&C, &T) -> Result<(Vec<i64>, u32, u32), E>>(
    plan: &FeaturePlan,
    edges: &C,
    image_width: u32,
    image_height: u32,
    template: &T,
    width: u32,
    height: u32,
    score: &S,
) -> (r: Result<Option<TemplateMatch>, E>)
    requires
        gives_maps(*score),
    ensures
        match r {
            Ok(best) => may_match_clock(
                *score,
                *plan,
                *edges,
                (image_width, image_height),
                *template,
                width,
                height,
                best,
            ),
            Err(e) => is_clock_fit(width, height, (image_width, image_height)) && call_ensures(
                *score,
                (edges, template),
                Err(e),
            ),
        },
{
    if !clock_template_fits(width, height, image_width, image_height) {
        return Ok(None);
    }
    match find_matches(plan, edges, template, width, height, 0, score) {
        Ok(found) => {
            assert(may_peak(
                *score,
                *plan,
                *edges,
                *template,
                width as int,
                height as int,
                0,
                found@,
            ));
            if found.len() == 0 {
                Ok(None)
            } else {
                Ok(Some(found[0]))
            }
        },
        Err(e) => Err(e),
    }
}

/// The stage that finds the knobs and the clock, with the size of the knob template.
#[derive(Debug, Clone, Copy, PartialEq, Eq, Structural)]
pub struct FindFeatures {
    pub templates_loaded: bool,
    pub knob_width: u32,
    pub knob_height: u32,
}

/// What an attempt sees on its way: how it looks for the knobs, the edges in the image and its
/// size, the matches of the knob template and those it keeps, the best match of the clock
/// template, and the size of that template.
pub struct FeatureSearch<C> {
    pub plan: FeaturePlan,
    pub edges: C,
    pub width: u32,
    pub height: u32,
    pub matches: Vec<TemplateMatch>,
    pub candidates: Vec<TemplateMatch>,
    pub clock: Option<TemplateMatch>,
    pub clock_width: u32,
    pub clock_height: u32,
}

impl FindFeatures {
    /// What an attempt may decide on how to look for the knobs.
    pub open spec fn may_plan(
        &self,
        before: StateView,
        iteration: int,
        r: Result<FeaturePlan, StageOutcome>,
    ) -> bool {
        is_feature_plan(
            self.templates_loaded,
            before.knob_search is Some,
            self.knob_width as int,
            self.knob_height as int,
            iteration,
            r,
        )
    }

    /// An attempt may get to the edges in the image so.
    pub open spec fn may_prepare<C, E, P: Fn(&FeaturePlan) -> Result<(C, u32, u32), E>>(
        &self,
        before: StateView,
        iteration: int,
        prepare: P,
        s: FeatureSearch<C>,
    ) -> bool {
        &&& self.may_plan(before, iteration, Ok(s.plan))
        &&& call_ensures(prepare, (&s.plan,), Ok((s.edges, s.width, s.height)))
    }

    /// An attempt may get to the matches of the knob template so.
    pub open spec fn may_find<
        C,
        T,
        E,
        P: Fn(&FeaturePlan) -> Result<(C, u32, u32), E>,
        R: Fn(&C, i64) -> Result<Option<(T, u32, u32)>, E>,
        S: Fn(&C, &T) -> Result<(Vec<i64>, u32, u32), E>,
    >(
        &self,
        before: StateView,
        iteration: int,
        prepare: P,
        turn: R,
        score: S,
        s: FeatureSearch<C>,
    ) -> bool {
        &&& self.may_prepare(before, iteration, prepare, s)
        &&& may_match_knobs(turn, score, s.plan, s.edges, (s.width, s.height), s.matches@)
    }

    /// An attempt may get to the match of the clock template so.
    pub open spec fn may_match<
        C,
        T,
        E,
        P: Fn(&FeaturePlan) -> Result<(C, u32, u32), E>,
        R: Fn(&C, i64) -> Result<Option<(T, u32, u32)>, E>,
        S: Fn(&C, &T) -> Result<(Vec<i64>, u32, u32), E>,
        L: Fn(&C, &FeaturePlan) -> Result<(T, u32, u32), E>,
    >(
        &self,
        before: StateView,
        iteration: int,
        prepare: P,
        turn: R,
        score: S,
        clock: L,
        s: FeatureSearch<C>,
    ) -> bool {
        &&& self.may_find(before, iteration, prepare, turn, score, s)
        &&& are_candidates(s.matches@, s.plan, Ok(s.candidates))
        &&& exists|template: T|
            #![trigger call_ensures(
                clock,
                (&s.edges, &s.plan),
                Ok((template, s.clock_width, s.clock_height)),
            )]
            call_ensures(
                clock,
                (&s.edges, &s.plan),
                Ok((template, s.clock_width, s.clock_height)),
            ) && may_match_clock(
                score,
                s.plan,
                s.edges,
                (s.width, s.height),
                template,
                s.clock_width,
                s.clock_height,
                s.clock,
            )
    }

    /// What an attempt may decide on the matches.
    pub open spec fn may_choose<C>(
        before: StateView,
        s: FeatureSearch<C>,
        r: Result<FeaturesView, StageOutcome>,
    ) -> bool {
        before.knob_search matches Some(search) && is_feature_choice(
            s.candidates@,
            s.clock,
            s.plan,
            s.clock_width as int,
            s.clock_height as int,
            search,
            r,
        )
    }

    /// An attempt may come to this end without success.
    pub open spec fn may_stop<
        C,
        T,
        E,
        P: Fn(&FeaturePlan) -> Result<(C, u32, u32), E>,
        R: Fn(&C, i64) -> Result<Option<(T, u32, u32)>, E>,
        S: Fn(&C, &T) -> Result<(Vec<i64>, u32, u32), E>,
        L: Fn(&C, &FeaturePlan) -> Result<(T, u32, u32), E>,
    >(
        &self,
        before: StateView,
        iteration: int,
        prepare: P,
        turn: R,
        score: S,
        clock: L,
        outcome: StageOutcome,
    ) -> bool {
        ||| self.may_plan(before, iteration, Err(outcome))
        ||| exists|s: FeatureSearch<C>|
            #![trigger self.may_find(before, iteration, prepare, turn, score, s)]
            self.may_find(before, iteration, prepare, turn, score, s) && are_candidates(
                s.matches@,
                s.plan,
                Err(outcome),
            )
        ||| exists|s: FeatureSearch<C>|
            #![trigger self.may_match(before, iteration, prepare, turn, score, clock, s)]
            self.may_match(before, iteration, prepare, turn, score, clock, s)
                && Self::may_choose(before, s, Err(outcome))
    }

    /// An attempt may succeed with these features.
    pub open spec fn may_succeed<
        C,
        T,
        E,
        P: Fn(&FeaturePlan) -> Result<(C, u32, u32), E>,
        R: Fn(&C, i64) -> Result<Option<(T, u32, u32)>, E>,
        S: Fn(&C, &T) -> Result<(Vec<i64>, u32, u32), E>,
        L: Fn(&C, &FeaturePlan) -> Result<(T, u32, u32), E>,
    >(
        &self,
        before: StateView,
        iteration: int,
        prepare: P,
        turn: R,
        score: S,
        clock: L,
        features: FeaturesView,
    ) -> bool {
        exists|s: FeatureSearch<C>|
            #![trigger self.may_match(before, iteration, prepare, turn, score, clock, s)]
            self.may_match(before, iteration, prepare, turn, score, clock, s)
                && Self::may_choose(before, s, Ok(features))
    }

    /// Getting the clock template or scoring it may fail so.
    pub open spec fn clock_may_fail<
        C,
        T,
        E,
        S: Fn(&C, &T) -> Result<(Vec<i64>, u32, u32), E>,
        L: Fn(&C, &FeaturePlan) -> Result<(T, u32, u32), E>,
    >(score: S, clock: L, s: FeatureSearch<C>, error: E) -> bool {
        ||| call_ensures(clock, (&s.edges, &s.plan), Err(error))
        ||| exists|template: T, w: u32, h: u32|
            #![trigger call_ensures(clock, (&s.edges, &s.plan), Ok((template, w, h)))]
            call_ensures(clock, (&s.edges, &s.plan), Ok((template, w, h))) && is_clock_fit(
                w,
                h,
                (s.width, s.height),
            ) && call_ensures(score, (&s.edges, &template), Err(error))
    }

    /// An attempt may fail with this error: that of the edges, of the knob template at one of its
    /// angles, or of the clock template.
    pub open spec fn may_fail<
        C,
        T,
        E,
        P: Fn(&FeaturePlan) -> Result<(C, u32, u32), E>,
        R: Fn(&C, i64) -> Result<Option<(T, u32, u32)>, E>,
        S: Fn(&C, &T) -> Result<(Vec<i64>, u32, u32), E>,
        L: Fn(&C, &FeaturePlan) -> Result<(T, u32, u32), E>,
    >(
        &self,
        before: StateView,
        iteration: int,
        prepare: P,
        turn: R,
        score: S,
        clock: L,
        error: E,
    ) -> bool {
        ||| exists|plan: FeaturePlan|
            #![trigger call_ensures(prepare, (&plan,), Err(error))]
            self.may_plan(before, iteration, Ok(plan)) && call_ensures(
                prepare,
                (&plan,),
                Err(error),
            )
        ||| exists|s: FeatureSearch<C>|
            #![trigger self.may_prepare(before, iteration, prepare, s)]
            self.may_prepare(before, iteration, prepare, s) && may_miss(
                turn,
                score,
                s.plan,
                s.edges,
                (s.width, s.height),
                error,
            )
        ||| exists|s: FeatureSearch<C>|
            #![trigger self.may_find(before, iteration, prepare, turn, score, s)]
            self.may_find(before, iteration, prepare, turn, score, s) && are_candidates(
                s.matches@,
                s.plan,
                Ok(s.candidates),
            ) && Self::clock_may_fail(score, clock, s, error)
    }

    /// An attempt of the stage. `prepare` gives the edges in the image, and its size; `turn` gives
    /// the scaled knob template turned by an angle, with its size, or nothing where nothing is
    /// left of it; `score` gives the map of a template's scores, row by row; `clock` gives the
    /// scaled clock template, with its size. A failed attempt leaves the state as it was; one that
    /// succeeds changes the features alone, and every angle that it notes is a multiple of ten
    /// degrees. No attempt changes the image.
    pub fn run<
        C,
        T,
        E,
        P: Fn(&FeaturePlan) -> Result<(C, u32, u32), E>,
        R: Fn(&C, i64) -> Result<Option<(T, u32, u32)>, E>,
        S: Fn(&C, &T) -> Result<(Vec<i64>, u32, u32), E>,
        L: Fn(&C, &FeaturePlan) -> Result<(T, u32, u32), E>,
    >(
        &self,
        state: &mut PipelineState,
        iteration: u32,
        prepare: &P,
        turn: &R,
        score: &S,
        clock: &L,
    ) -> (r: Result<(StageOutcome, ImageOutput), E>)
        requires
            forall|plan: &FeaturePlan| #[trigger] call_requires(*prepare, (plan,)),
            forall|edges: &C, angle: i64| #[trigger] call_requires(*turn, (edges, angle)),
            gives_maps(*score),
            forall|edges: &C, plan: &FeaturePlan| #[trigger] call_requires(*clock, (edges, plan)),
        ensures
            ({
                let before = old(state)@;
                let after = final(state)@;
                match r {
                    Ok((outcome, output)) => {
                        &&& output is Passthrough
                        &&& match outcome {
                            StageOutcome::Success => {
                                &&& after.features matches Some(features) && self.may_succeed(
                                    before,
                                    iteration as int,
                                    *prepare,
                                    *turn,
                                    *score,
                                    *clock,
                                    features,
                                ) && all_turns(features.off_angles)
                                &&& after == (StateView { features: after.features, ..before })
                            },
                            _ => {
                                &&& self.may_stop(
                                    before,
                                    iteration as int,
                                    *prepare,
                                    *turn,
                                    *score,
                                    *clock,
                                    outcome,
                                )
                                &&& after == before
                            },
                        }
                    },
                    Err(e) => {
                        &&& self.may_fail(
                            before,
                            iteration as int,
                            *prepare,
                            *turn,
                            *score,
                            *clock,
                            e,
                        )
                        &&& after == before
                    },
                }
            }),
    {
        let planned: Result<FeaturePlan, StageOutcome> = plan_features(
            self.templates_loaded,
            state.knob_search.is_some(),
            self.knob_width,
            self.knob_height,
            iteration,
        );
        let plan: FeaturePlan = match planned {
            Ok(plan) => plan,
            Err(outcome) => return Ok((outcome, ImageOutput::Passthrough)),
        };
        let search: KnobSearchArea = state.knob_search.unwrap();
        let ghost before = old(state)@;
        let ghost at = iteration as int;
        let (edges, width, height): (C, u32, u32) = match prepare(&plan) {
            Ok(found) => found,
            Err(e) => return Err(e),
        };
        let none: Vec<TemplateMatch> = Vec::new();
        let ghost mut s: FeatureSearch<C> = FeatureSearch {
            plan,
            edges,
            width,
            height,
            matches: none,
            candidates: none,
            clock: None,
            clock_width: 0,
            clock_height: 0,
        };
        assert(self.may_prepare(before, at, *prepare, s));
        let matches: Vec<TemplateMatch> = match knob_matches(
            &plan,
            &edges,
            width,
            height,
            turn,
            score,
        ) {
            Ok(matches) => matches,
            Err(e) => return Err(e),
        };
        proof {
            s = FeatureSearch { matches, ..s };
        }
        assert(self.may_prepare(before, at, *prepare, s));
        assert(self.may_find(before, at, *prepare, *turn, *score, s));
        let candidates: Vec<TemplateMatch> = match knob_candidates(&matches, &plan) {
            Ok(candidates) => candidates,
            Err(outcome) => return Ok((outcome, ImageOutput::Passthrough)),
        };
        proof {
            s = FeatureSearch { candidates, ..s };
        }
        assert(self.may_prepare(before, at, *prepare, s));
        assert(self.may_find(before, at, *prepare, *turn, *score, s));
        let (template, w, h): (T, u32, u32) = match clock(&edges, &plan) {
            Ok(found) => found,
            Err(e) => {
                assert(Self::clock_may_fail(*score, *clock, s, e));
                return Err(e);
            },
        };
        assert(call_ensures(*clock, (&edges, &plan), Ok((template, w, h))));
        let best: Option<TemplateMatch> = match clock_match(
            &plan,
            &edges,
            width,
            height,
            &template,
            w,
            h,
            score,
        ) {
            Ok(best) => best,
            Err(e) => {
                assert(Self::clock_may_fail(*score, *clock, s, e));
                return Err(e);
            },
        };
        proof {
            s = FeatureSearch { clock: best, clock_width: w, clock_height: h, ..s };
        }
        assert(self.may_prepare(before, at, *prepare, s));
        assert(self.may_find(before, at, *prepare, *turn, *score, s));
        assert(call_ensures(
            *clock,
            (&s.edges, &s.plan),
            Ok((template, s.clock_width, s.clock_height)),
        ));
        assert(may_match_clock(
            *score,
            s.plan,
            s.edges,
            (s.width, s.height),
            template,
            s.clock_width,
            s.clock_height,
            s.clock,
        ));
        assert(self.may_match(before, at, *prepare, *turn, *score, *clock, s));
        match choose_features(&candidates, best, &plan, w, h, &search) {
            Ok(features) => {
                assert(Self::may_choose(before, s, Ok(features@)));
                state.features = Some(features);
                Ok((StageOutcome::Success, ImageOutput::Passthrough))
            },
            Err(outcome) => {
                assert(Self::may_choose(before, s, Err(outcome)));
                Ok((outcome, ImageOutput::Passthrough))
            },
        }
    }
}

/// The debug picture of the knob area: its label, and the knobs with the
/// pointers that were found. `directions` holds the cosine and sine of each
/// knob's angle.
pub fn debug_shapes(
    features: &DetectedFeatures,
    search: &Option<KnobSearchArea>,
    directions: &Vec<(i64, i64)>,
) -> (r: (String, Vec<Shape>))
    requires
        pointers_fit(features.knobs@, *search, directions@),
    ensures
        r.0@ == "S8:FindFeatures_"@ + decimal(features.knobs@.len() as int) + "k_clk"@
            + fixed_decimal(features.clock.center_x as int, 0),
        drawing(r.1@) == knobs_marks(
            features.knobs@,
            directions@,
            area_offset(*search).0,
            area_offset(*search).1,
            features.knobs@.len(),
        ),
{
    let (x_offset, y_offset): (i64, i64) = find_offset(search);
    let mut shapes: Vec<Shape> = Vec::new();
    assert(drawing(shapes@) =~= Seq::<ShapeView>::empty());
    let mut i: usize = 0;
    while i < features.knobs.len()
        invariant
            i <= features.knobs@.len(),
            pointers_fit(features.knobs@, *search, directions@),
            (x_offset as int, y_offset as int) == area_offset(*search),
            drawing(shapes@) == knobs_marks(
                features.knobs@,
                directions@,
                x_offset as int,
                y_offset as int,
                i as nat,
            ),
        decreases features.knobs@.len() - i,
    {
        let direction: Option<(i64, i64)> = find_direction(directions, i);
        assert(pointer_fits(
            features.knobs@[i as int],
            direction,
            x_offset as int,
            y_offset as int,
        ));
        mark_knob(&mut shapes, &features.knobs[i], direction, x_offset, y_offset);
        i = i + 1;
    }
    let mut label: String = String::from_str("S8:FindFeatures_");
    push_number(&mut label, features.knobs.len() as u128);
    label.append("k_clk");
    push_fixed(&mut label, features.clock.center_x as i128, 0);
    (label, shapes)
}


/// Eight attempts in a row try eight scales: from 20 to 50 percent in steps of five, and then 15. The
/// least score starts at 35 percent and is five less after each eight attempts, down to 15.
pub proof fn attempts_try_eight_scales(iteration: int)
    requires
        iteration >= 0,
    ensures
        iteration % 8 < 7 ==> attempt_scale(iteration) == 200_000 + 50_000 * (iteration % 8),
        iteration % 8 == 7 ==> attempt_scale(iteration) == 150_000,
        iteration < 8 ==> attempt_threshold(iteration) == 350_000,
        attempt_threshold(iteration + 8) == if attempt_threshold(iteration) > 150_000 {
            attempt_threshold(iteration) - 50_000
        } else {
            150_000
        },
        iteration % 8 < 7 ==> attempt_threshold(iteration + 1) == attempt_threshold(iteration),
{
}

/// A template is scaled alike on both sides, rounded down; what gets smaller than three pixels on
/// either side is nothing.
pub proof fn both_sides_are_scaled_alike(width: int, height: int, scale: int)
    requires
        width >= 0,
        height >= 0,
        0 <= scale,
    ensures
        ({
            let (w, h) = scaled_size(width, height, scale);
            if width * scale < 3_000_000 || height * scale < 3_000_000 {
                w == 0 && h == 0
            } else {
                &&& 0 <= width * scale - w * 1_000_000 < 1_000_000
                &&& 0 <= height * scale - h * 1_000_000 < 1_000_000
            }
        }),
{
}

/// A match has its center in the middle of the template at its place, and the score there; every
/// place that scores enough gives one.
pub proof fn matches_lie_where_scores_are_high(
    scores: Seq<i64>,
    cols: u32,
    threshold: i64,
    width: u32,
    height: u32,
    angle: i64,
    upto: int,
    x: int,
    y: int,
)
    requires
        0 <= x < cols,
        0 <= y <= u32::MAX,
        y * cols + x < upto <= scores.len(),
        scores[y * cols + x] >= threshold,
    ensures
        matches_reaching(
            scores,
            cols as int,
            threshold,
            width as int,
            height as int,
            angle,
            upto,
        ).contains(
            (TemplateMatch {
                x: ((2 * x + width) * 500_000) as i64,
                y: ((2 * y + height) * 500_000) as i64,
                score: scores[y * cols + x],
                angle,
            }),
        ),
    decreases upto,
{
    let (w, h, c) = (width as int, height as int, cols as int);
    let k = y * c + x;
    let t = TemplateMatch {
        x: ((2 * x + width) * 500_000) as i64,
        y: ((2 * y + height) * 500_000) as i64,
        score: scores[k],
        angle,
    };
    assert(k >= 0) by (nonlinear_arith)
        requires
            k == y * c + x,
            y >= 0,
            c > 0,
            x >= 0,
    ;
    let all = matches_reaching(scores, c, threshold, w, h, angle, upto);
    let before = matches_reaching(scores, c, threshold, w, h, angle, upto - 1);
    if k == upto - 1 {
        vstd::arithmetic::div_mod::lemma_fundamental_div_mod_converse(k, c, y, x);
        assert(all[all.len() - 1] == t);
    } else {
        matches_lie_where_scores_are_high(
            scores,
            cols,
            threshold,
            width,
            height,
            angle,
            upto - 1,
            x,
            y,
        );
        let i = choose|i: int| 0 <= i < before.len() && before[i] == t;
        assert(all[i] == t);
    }
}

/// Every match scores enough, and is turned by the angle that was tried.
pub proof fn matches_score_enough(
    scores: Seq<i64>,
    cols: int,
    threshold: i64,
    width: int,
    height: int,
    angle: i64,
    upto: int,
    i: int,
)
    requires
        0 <= i < matches_reaching(scores, cols, threshold, width, height, angle, upto).len(),
    ensures
        ({
            let t = matches_reaching(scores, cols, threshold, width, height, angle, upto)[i];
            t.score >= threshold && t.angle == angle
        }),
    decreases upto,
{
    let before = matches_reaching(scores, cols, threshold, width, height, angle, upto - 1);
    if upto > 0 && i < before.len() {
        matches_score_enough(scores, cols, threshold, width, height, angle, upto - 1, i);
    }
}

/// The candidates are there exactly if at least ten matches are left of which no two are closer than
/// fifteen pixels.
pub proof fn candidates_lie_fifteen_pixels_apart(
    matches: Seq<TemplateMatch>,
    plan: FeaturePlan,
    r: Result<Vec<TemplateMatch>, StageOutcome>,
)
    requires
        are_candidates(matches, plan, r),
    ensures
        r matches Err(o) ==> o is Retry,
        matches.len() < 10 ==> r is Err,
        r matches Ok(v) ==> v@.len() >= 10 && forall|i: int, j: int|
            0 <= i < j < v@.len() ==> ((#[trigger] v@[i]).x - (#[trigger] v@[j]).x) * (v@[i].x
                - v@[j].x) + (v@[i].y - v@[j].y) * (v@[i].y - v@[j].y) >= 15_000_000 * 15_000_000,
{
    survivors_lie_apart(best_first(matches), 15_000_000);
    if r is Ok {
        let v = r->Ok_0@;
        assert forall|i: int, j: int| 0 <= i < j < v.len() implies ((#[trigger] v[i]).x - (
        #[trigger] v[j]).x) * (v[i].x - v[j].x) + (v[i].y - v[j].y) * (v[i].y - v[j].y) >= 15_000_000
            * 15_000_000 by {
            assert(!is_near(v[i], v[j], 15_000_000));
        }
    }
}

/// The clock that was matched is taken exactly if it lies left of all the knobs, and less than four
/// knob radii from their middle height. Otherwise it is put four radii left of the first, at that
/// height.
pub proof fn clocks_stand_left_of_the_knobs(
    row: Seq<TemplateMatch>,
    matched: Option<TemplateMatch>,
    x_offset: int,
    y_offset: int,
    knob_r: int,
    clock_r: i64,
)
    requires
        0 < row.len() <= usize::MAX,
        forall|i: int|
            0 <= i < row.len() ==> 0 <= (#[trigger] row[i]).x <= 0xffff_ffff_ffff && 0 <= row[i].y
                <= 0xffff_ffff_ffff,
        matched matches Some(m) ==> 0 <= m.x <= 0xffff_ffff_ffff && 0 <= m.y <= 0xffff_ffff_ffff,
        0 <= x_offset <= 0xffff_ffff_ffff,
        0 <= y_offset <= 0xffff_ffff_ffff,
        0 <= knob_r <= 0xffff_ffff_ffff,
    ensures
        ({
            let c = clock_beside(row, matched, x_offset, y_offset, knob_r, clock_r as int);
            let middle = median(
                row.map_values(|t: TemplateMatch| (t.y + y_offset) as i64),
            );
            let is_left = matched matches Some(m) && forall|i: int|
                0 <= i < row.len() ==> m.x < (#[trigger] row[i]).x;
            let is_near = matched matches Some(m) && middle - 4 * knob_r < m.y + y_offset < middle + 4
                * knob_r;
            &&& c.radius == clock_r
            &&& is_left && is_near ==> c.center_x == matched->Some_0.x + x_offset && c.center_y
                == matched->Some_0.y + y_offset
            &&& !(is_left && is_near) ==> c.center_y == middle && (forall|i: int|
                0 <= i < row.len() ==> c.center_x + 4 * knob_r <= (#[trigger] row[i]).x + x_offset)
                && exists|i: int|
                0 <= i < row.len() && c.center_x + 4 * knob_r == (#[trigger] row[i]).x + x_offset
        }),
{
    let xs = knob_xs(row, x_offset);
    let ys = knob_ys(row, y_offset);
    assert(ys =~= row.map_values(|t: TemplateMatch| (t.y + y_offset) as i64));
    assert forall|i: int| 0 <= i < row.len() implies #[trigger] xs[i] == row[i].x + x_offset by {}
    crate::order::least_values_are_least(xs);
    let left = least(xs);
    let k = choose|k: int| 0 <= k < xs.len() && xs[k] == left;
    assert(row[k].x + x_offset == left);
    assert forall|i: int| 0 <= i < row.len() implies left <= (#[trigger] row[i]).x + x_offset by {
        assert(left <= xs[i]);
    }
}

/// The features of a row have its knobs in their order, each moved by where the search area begins,
/// with the same radius, and off at the angle at which it was matched.
pub proof fn features_are_those_of_the_row(
    row: Seq<TemplateMatch>,
    matched: Option<TemplateMatch>,
    x_offset: int,
    y_offset: int,
    knob_r: i64,
    clock_r: int,
    i: int,
)
    requires
        0 <= i < row.len(),
        i64::MIN <= row[i].x + x_offset <= i64::MAX,
        i64::MIN <= row[i].y + y_offset <= i64::MAX,
    ensures
        ({
            let f = features_of_row(row, matched, x_offset, y_offset, knob_r as int, clock_r);
            &&& f.knobs.len() == row.len() && f.off_angles.len() == row.len()
            &&& f.knobs[i].center_x - x_offset == row[i].x
            &&& f.knobs[i].center_y - y_offset == row[i].y
            &&& f.knobs[i].radius == knob_r
            &&& f.off_angles[i] == row[i].angle
            &&& f.clock == clock_beside(row, matched, x_offset, y_offset, knob_r as int, clock_r)
        }),
{
}

/// Ten knobs are chosen. They are as large as half the knob template is wide, and the clock as half
/// of its template's longer side.
pub proof fn features_are_as_large_as_their_templates(
    candidates: Seq<TemplateMatch>,
    clock_match: Option<TemplateMatch>,
    plan: FeaturePlan,
    clock_width: u32,
    clock_height: u32,
    search: KnobSearchArea,
    r: Result<FeaturesView, StageOutcome>,
)
    requires
        is_feature_choice(
            candidates,
            clock_match,
            plan,
            clock_width as int,
            clock_height as int,
            search,
            r,
        ),
    ensures
        r is Ok <==> aligned_row(best_first(candidates), 10, plan.knob_width * 500_000) is Some,
        r matches Err(o) ==> o is Retry,
        r matches Ok(f) ==> {
            &&& 2 * f.clock.radius == 1_000_000 * if clock_width < clock_height {
                clock_height
            } else {
                clock_width
            }
            &&& forall|i: int|
                0 <= i < f.knobs.len() ==> 2 * (#[trigger] f.knobs[i]).radius == 1_000_000
                    * plan.knob_width
        },
{
}

/// Near height `k` of these there is a row, and each row near an earlier height is more uneven.
pub open spec fn is_flatter_than_before(
    m: Seq<TemplateMatch>,
    n: int,
    ys: Seq<i64>,
    reach: int,
    k: int,
) -> bool {
    &&& 0 <= k < ys.len()
    &&& row_at(m, n, ys[k] as int, reach) is Some
    &&& forall|j: int|
        0 <= j < k ==> (row_at(m, n, #[trigger] ys[j] as int, reach) matches Some(q) ==> unevenness(q)
            > unevenness(row_at(m, n, ys[k] as int, reach)->Some_0))
}

proof fn the_first_of_equally_flat_rows_counts(
    m: Seq<TemplateMatch>,
    n: int,
    ys: Seq<i64>,
    reach: int,
)
    requires
        flattest_row(m, n, ys, reach) is Some,
    ensures
        exists|k: int| #[trigger]
            is_flatter_than_before(m, n, ys, reach, k) && flattest_row(m, n, ys, reach) == row_at(
                m,
                n,
                ys[k] as int,
                reach,
            ),
    decreases ys.len(),
{
    let rest = ys.drop_last();
    let last = rest.len() as int;
    the_flattest_row_is_flattest(m, n, rest, reach);
    assert(forall|j: int| 0 <= j < last ==> #[trigger] ys[j] == rest[j]);
    let row = row_at(m, n, ys[last] as int, reach);
    if flattest_row(m, n, rest, reach) is Some {
        let b = flattest_row(m, n, rest, reach)->Some_0;
        unevenness_is_spread(b);
        the_first_of_equally_flat_rows_counts(m, n, rest, reach);
        let k = choose|k: int| #[trigger]
            is_flatter_than_before(m, n, rest, reach, k) && flattest_row(m, n, rest, reach) == row_at(
                m,
                n,
                rest[k] as int,
                reach,
            );
        assert(is_flatter_than_before(m, n, ys, reach, k));
        if row is Some {
            unevenness_is_spread(row->Some_0);
            if unevenness(row->Some_0) < unevenness(b) {
                assert forall|j: int| 0 <= j < last implies (row_at(
                    m,
                    n,
                    #[trigger] ys[j] as int,
                    reach,
                ) matches Some(q) ==> unevenness(q) > unevenness(row->Some_0)) by {
                    assert(rest[j] == ys[j]);
                }
                assert(is_flatter_than_before(m, n, ys, reach, last));
            }
        }
    } else {
        assert forall|j: int| 0 <= j < last implies row_at(m, n, #[trigger] ys[j] as int, reach) is None by {
            assert(rest[j] == ys[j]);
        }
        assert(is_flatter_than_before(m, n, ys, reach, last));
    }
}

/// Of equally flat rows the one near the highest place of the image is selected: the first in the
/// order in which the heights are tried.
pub proof fn the_first_of_equally_flat_rows_is_selected(m: Seq<TemplateMatch>, n: int, knob_r: int)
    requires
        m.len() >= n,
        aligned_row(m, n, knob_r) is Some,
    ensures
        exists|k: int| #[trigger]
            is_flatter_than_before(m, n, tried(m), 3 * knob_r, k) && aligned_row(m, n, knob_r)
                == row_at(m, n, tried(m)[k] as int, 3 * knob_r),
{
    the_first_of_equally_flat_rows_counts(m, n, tried(m), 3 * knob_r);
}

} // verus!
