//! Reading the angle of each knob by comparing it with pictures at known angles.

use vstd::prelude::*;
use vstd::string::*;

use super::detect::Knob;
use super::{FrameState, StageError};
use crate::config::KnobDetection;
use crate::fixed::{pixel, to_pixel};
use crate::text::{decimal, plain_decimal, push_number, push_plain, push_ratio, ratio_decimal};
use crate::wide::Integer;

verus! {

/// How sure an angle reading is.
#[derive(Debug, Clone, Copy, PartialEq, Eq, Structural)]
pub enum Confidence {
    High,
    Low,
    Ambiguous,
}

/// The angle of a knob. Scores are in billionths.
#[derive(Debug, Clone, Copy, PartialEq, Eq, Structural)]
pub struct AngleReading {
    pub angle_deg: i64,
    pub confidence: Confidence,
    pub match_score: i64,
}

/// The part of an image to compare with the templates: what is cut out, and whether it has to be
/// padded to the templates' size.
#[derive(Debug, Clone, Copy, PartialEq, Eq, Structural)]
pub struct CropPlan {
    pub x: i32,
    pub y: i32,
    pub width: i32,
    pub height: i32,
    pub pad: bool,
}

/// The stage that reads the angles.
#[derive(Debug, PartialEq, Eq)]
pub struct Angle {
    /// The angles of the templates that could be loaded.
    pub template_angles: Vec<i64>,
    pub centers_x: Vec<i64>,
    pub center_y: i64,
    pub crop_size: i32,
}

/// The result of comparing with some templates: the best and the second best score, and the
/// angle of the best.
#[verifier::ext_equal]
pub struct Ranking {
    pub best: int,
    pub second: int,
    pub angle: int,
}

/// Compares the scores of the templates in turn. A later template has to score higher to
/// replace an earlier one.
pub open spec fn ranking(angles: Seq<i64>, scores: Seq<i64>) -> Ranking
    decreases scores.len(),
{
    if scores.len() == 0 {
        Ranking { best: -1_000_000_000, second: -1_000_000_000, angle: 0 }
    } else {
        let r = ranking(angles, scores.drop_last());
        let s = scores.last() as int;
        if s > r.best {
            Ranking { best: s, second: r.best, angle: angles[scores.len() - 1] as int }
        } else if s > r.second {
            Ranking { second: s, ..r }
        } else {
            r
        }
    }
}

/// How sure the best score makes a reading: high where it is good and clearly ahead.
pub open spec fn confidence_of(r: Ranking) -> Confidence {
    if r.best > 700_000_000 && r.best - r.second > 100_000_000 {
        Confidence::High
    } else if r.best > 400_000_000 {
        Confidence::Low
    } else {
        Confidence::Ambiguous
    }
}

/// The angle of a knob by the scores of the templates.
pub open spec fn reading_of(angles: Seq<i64>, scores: Seq<i64>) -> AngleReading {
    let ranked = ranking(angles, scores);
    AngleReading {
        angle_deg: ranked.angle as i64,
        confidence: confidence_of(ranked),
        match_score: ranked.best as i64,
    }
}

/// The best and the second best score, and the angle of the best.
fn rank(angles: &Vec<i64>, scores: &Vec<i64>) -> (r: (i64, i64, i64))
    requires
        angles.len() == scores.len(),
    ensures
        ranking(angles@, scores@) == (Ranking {
            best: r.0 as int,
            second: r.1 as int,
            angle: r.2 as int,
        }),
{
    let mut best: i64 = -1_000_000_000;
    let mut second: i64 = -1_000_000_000;
    let mut angle: i64 = 0;
    let mut i: usize = 0;
    assert(scores@.take(0) =~= Seq::empty());
    while i < scores.len()
        invariant
            angles.len() == scores.len(),
            i <= scores.len(),
            ranking(angles@, scores@.take(i as int)) == (Ranking {
                best: best as int,
                second: second as int,
                angle: angle as int,
            }),
        decreases scores.len() - i,
    {
        assert(scores@.take(i as int + 1).drop_last() =~= scores@.take(i as int));
        let s: i64 = scores[i];
        if s > best {
            second = best;
            best = s;
            angle = angles[i];
        } else if s > second {
            second = s;
        }
        i = i + 1;
    }
    assert(scores@.take(i as int) =~= scores@);
    (best, second, angle)
}

/// Reads the angle of a knob from the scores of the templates.
pub fn read_angle(angles: &Vec<i64>, scores: &Vec<i64>) -> (r: AngleReading)
    requires
        angles.len() == scores.len(),
    ensures
        r == reading_of(angles@, scores@),
{
    let (best, second, angle): (i64, i64, i64) = rank(angles, scores);
    let gap: i128 = best as i128 - second as i128;
    let confidence: Confidence = if best > 700_000_000 && gap > 100_000_000 {
        Confidence::High
    } else if best > 400_000_000 {
        Confidence::Low
    } else {
        Confidence::Ambiguous
    };
    AngleReading { angle_deg: angle, confidence, match_score: best }
}

/// The word for a confidence.
pub open spec fn confidence_word(c: Confidence) -> Seq<char> {
    match c {
        Confidence::High => "High"@,
        Confidence::Low => "Low"@,
        Confidence::Ambiguous => "Ambiguous"@,
    }
}

/// The line in the log for the reading of knob `i`.
pub fn log_line(i: usize, angles: &Vec<i64>, scores: &Vec<i64>) -> (r: String)
    requires
        angles.len() == scores.len(),
    ensures
        ({
            let ranked = ranking(angles@, scores@);
            r@ == "    knob "@ + decimal(i + 1) + ": best="@ + plain_decimal(ranked.angle)
                + "° score="@ + ratio_decimal(ranked.best, 1_000_000_000, 2) + " gap="@
                + ratio_decimal(ranked.best - ranked.second, 1_000_000_000, 2) + " "@
                + confidence_word(confidence_of(ranked))
        }),
{
    let (best, second, angle): (i64, i64, i64) = rank(angles, scores);
    let unit: Integer = Integer::new(1_000_000_000);
    let mut s: String = String::from_str("    knob ");
    push_number(&mut s, i as u128 + 1);
    s.append(": best=");
    push_plain(&mut s, angle);
    s.append("° score=");
    push_ratio(&mut s, &Integer::new(best as i128), &unit, 2);
    s.append(" gap=");
    push_ratio(&mut s, &Integer::new(best as i128 - second as i128), &unit, 2);
    s.append(" ");
    match read_angle(angles, scores).confidence {
        Confidence::High => s.append("High"),
        Confidence::Low => s.append("Low"),
        Confidence::Ambiguous => s.append("Ambiguous"),
    }
    s
}

/// The whole degrees of the templates, in the order in which they are loaded.
pub fn template_angles() -> (r: Vec<u32>)
    ensures
        r@ == seq![0u32, 30, 60, 90, 120, 150],
{
    let mut r: Vec<u32> = Vec::new();
    r.push(0);
    r.push(30);
    r.push(60);
    r.push(90);
    r.push(120);
    r.push(150);
    r
}

/// The file of the template for so many degrees.
pub fn template_path(dir: &str, angle: u32) -> (r: String)
    ensures
        r@ == dir@ + "/template_"@ + decimal(angle as int) + "deg.jpg"@,
{
    let mut s: String = String::from_str(dir);
    s.append("/template_");
    push_number(&mut s, angle as u128);
    s.append("deg.jpg");
    s
}

/// The error for a frame without a binary mask.
pub fn no_binary_mask() -> (r: StageError)
    ensures
        r.stage@ == "angle"@,
        r.message@ == "no binary mask"@,
{
    StageError { stage: "angle", message: String::from_str("no binary mask") }
}

impl Angle {
    /// Makes the stage from its settings and the angles of the templates that were loaded.
    pub fn new(kd: &KnobDetection, template_angles: Vec<i64>) -> (r: Self)
        ensures
            r.template_angles == template_angles,
            r.centers_x@ == kd.knob_centers_x@,
            r.center_y == kd.prior_y,
            r.crop_size == kd.knob_crop_size,
    {
        let centers_x: Vec<i64> = kd.knob_centers_x.clone();
        assert(centers_x@ =~= kd.knob_centers_x@);
        Angle { template_angles, centers_x, center_y: kd.prior_y, crop_size: kd.knob_crop_size }
    }

    /// The stretch of length `size` that begins `half` before the center, as far as it lies in
    /// the image, which ends at `limit`.
    pub open spec fn cut(center: int, half: int, size: int, limit: int) -> (int, int) {
        (crate::fixed::max(center - half, 0), crate::fixed::min(center - half + size, limit))
    }

    /// The part of the image around knob `i`: around its calibrated center where that is known.
    /// There is none for a knob that was not found, for a square of negative size, or where less
    /// than half of the square lies in the image.
    pub open spec fn crop(&self, i: int, knob: Knob, image_width: int, image_height: int) -> Option<
        CropPlan,
    > {
        let center_x = pixel(
            if i < self.centers_x.len() {
                self.centers_x[i] as int
            } else {
                knob.x as int
            },
        );
        let size = self.crop_size as int;
        let half = size / 2;
        let (x0, x1) = Self::cut(center_x, half, size, image_width);
        let (y0, y1) = Self::cut(pixel(self.center_y as int), half, size, image_height);
        if knob.synthetic || size < 0 || x1 - x0 < half || y1 - y0 < half {
            None
        } else {
            Some(
                CropPlan {
                    x: x0 as i32,
                    y: y0 as i32,
                    width: (x1 - x0) as i32,
                    height: (y1 - y0) as i32,
                    pad: x1 - x0 != self.crop_size || y1 - y0 != self.crop_size,
                },
            )
        }
    }

    /// The part of the image to compare for knob `i`.
    pub fn plan_crop(&self, i: usize, knob: &Knob, image_width: i32, image_height: i32) -> (r: Option<
        CropPlan,
    >)
        requires
            image_width >= 0,
            image_height >= 0,
        ensures
            r == self.crop(i as int, *knob, image_width as int, image_height as int),
    {
        if knob.synthetic || self.crop_size < 0 {
            return None;
        }
        let center_x: i32 = to_pixel(
            if i < self.centers_x.len() {
                self.centers_x[i]
            } else {
                knob.x
            },
        );
        let center_y: i32 = to_pixel(self.center_y);
        let size: i64 = self.crop_size as i64;
        let half: i64 = size / 2;
        let left: i64 = center_x as i64 - half;
        let top: i64 = center_y as i64 - half;
        let x0: i64 = crate::fixed::max_exec(left, 0);
        let y0: i64 = crate::fixed::max_exec(top, 0);
        let x1: i64 = crate::fixed::min_exec(left + size, image_width as i64);
        let y1: i64 = crate::fixed::min_exec(top + size, image_height as i64);
        let w: i64 = x1 - x0;
        let h: i64 = y1 - y0;
        if w < half || h < half {
            return None;
        }
        Some(
            CropPlan {
                x: x0 as i32,
                y: y0 as i32,
                width: w as i32,
                height: h as i32,
                pad: w != size || h != size,
            },
        )
    }

    /// The readings without any templates: none of any knob.
    pub open spec fn no_readings(count: nat) -> Seq<Option<AngleReading>> {
        Seq::new(count, |i: int| None)
    }

    /// `reading` may be that of knob `i`, where `compare` gives the scores of the templates on a
    /// part of the mask.
    pub open spec fn may_read<M, S: Fn(usize, &M, &CropPlan) -> Result<Vec<i64>, StageError>>(
        &self,
        mask: M,
        size: (i32, i32),
        compare: S,
        i: int,
        knob: Knob,
        reading: Option<AngleReading>,
    ) -> bool {
        match self.crop(i, knob, size.0 as int, size.1 as int) {
            None => reading is None,
            Some(plan) => exists|scores: Vec<i64>|
                #![trigger call_ensures(compare, (i as usize, &mask, &plan), Ok(scores))]
                call_ensures(compare, (i as usize, &mask, &plan), Ok(scores)) && reading == Some(
                    reading_of(self.template_angles@, scores@),
                ),
        }
    }

    /// `readings` may be those of the knobs on a mask of this size.
    pub open spec fn may_read_all<M, S: Fn(usize, &M, &CropPlan) -> Result<Vec<i64>, StageError>>(
        &self,
        mask: M,
        size: (i32, i32),
        compare: S,
        knobs: Seq<Knob>,
        readings: Seq<Option<AngleReading>>,
    ) -> bool {
        &&& readings.len() == knobs.len()
        &&& forall|i: int|
            0 <= i < readings.len() ==> self.may_read(
                mask,
                size,
                compare,
                i,
                knobs[i],
                #[trigger] readings[i],
            )
    }

    /// The comparison of one of the knobs may fail so, with readings of those before it.
    pub open spec fn may_fail<
        M,
        D: Fn(&M) -> (i32, i32),
        S: Fn(usize, &M, &CropPlan) -> Result<Vec<i64>, StageError>,
    >(
        &self,
        mask: M,
        measure: D,
        compare: S,
        knobs: Seq<Knob>,
        error: StageError,
    ) -> bool {
        exists|size: (i32, i32), before: Seq<Option<AngleReading>>|
            #![trigger self.may_read_all(mask, size, compare, knobs.take(before.len() as int), before)]
            call_ensures(measure, (&mask,), size) && before.len() < knobs.len()
                && self.may_read_all(
                mask,
                size,
                compare,
                knobs.take(before.len() as int),
                before,
            ) && self.may_fail_at(
                mask,
                size,
                compare,
                before.len() as int,
                knobs[before.len() as int],
                error,
            )
    }

    /// The comparison of knob `i` may fail so on a mask of this size.
    pub open spec fn may_fail_at<M, S: Fn(usize, &M, &CropPlan) -> Result<Vec<i64>, StageError>>(
        &self,
        mask: M,
        size: (i32, i32),
        compare: S,
        i: int,
        knob: Knob,
        error: StageError,
    ) -> bool {
        self.crop(i, knob, size.0 as int, size.1 as int) matches Some(plan) && call_ensures(
            compare,
            (i as usize, &mask, &plan),
            Err(error),
        )
    }

    /// Reads the angles of the knobs in a frame. `measure` gives the size of the mask, and
    /// `compare` the scores of the templates on a part of it, padded to their size. Without
    /// templates there are no readings. A failure leaves the frame as it was; a success changes
    /// the readings alone.
    pub fn process<
        M,
        D: Fn(&M) -> (i32, i32),
        S: Fn(usize, &M, &CropPlan) -> Result<Vec<i64>, StageError>,
    >(&self, state: &mut FrameState<M>, measure: &D, compare: &S) -> (r: Result<(), StageError>)
        requires
            forall|mask: &M| #[trigger] call_requires(*measure, (mask,)),
            forall|mask: &M, size: (i32, i32)| #[trigger]
                call_ensures(*measure, (mask,), size) ==> size.0 >= 0 && size.1 >= 0,
            forall|i: usize, mask: &M, plan: &CropPlan| #[trigger]
                call_requires(*compare, (i, mask, plan)),
            forall|i: usize, mask: &M, plan: &CropPlan, scores: Vec<i64>| #[trigger]
                call_ensures(*compare, (i, mask, plan), Ok(scores)) ==> scores.len()
                    == self.template_angles.len(),
        ensures
            ({
                let before = *old(state);
                let after = *final(state);
                if self.template_angles@.len() == 0 {
                    &&& r is Ok
                    &&& after.angle_readings@ == Self::no_readings(before.knobs@.len())
                    &&& after == (FrameState { angle_readings: after.angle_readings, ..before })
                } else {
                    match before.debug_edges {
                        None => {
                            &&& r matches Err(err) && err.stage@ == "angle"@ && err.message@
                                == "no binary mask"@
                            &&& after == before
                        },
                        Some(mask) => match r {
                            Ok(_) => {
                                &&& exists|size: (i32, i32)|
                                    #![trigger call_ensures(*measure, (&mask,), size)]
                                    call_ensures(*measure, (&mask,), size) && self.may_read_all(
                                        mask,
                                        size,
                                        *compare,
                                        before.knobs@,
                                        after.angle_readings@,
                                    )
                                &&& after == (FrameState {
                                    angle_readings: after.angle_readings,
                                    ..before
                                })
                            },
                            Err(error) => {
                                &&& self.may_fail(mask, *measure, *compare, before.knobs@, error)
                                &&& after == before
                            },
                        },
                    }
                }
            }),
    {
        let n: usize = state.knobs.len();
        let mut readings: Vec<Option<AngleReading>> = Vec::new();
        if self.template_angles.len() == 0 {
            while readings.len() < n
                invariant
                    readings.len() <= n,
                    forall|j: int| 0 <= j < readings.len() ==> (#[trigger] readings[j]) is None,
                decreases n - readings.len(),
            {
                readings.push(None);
            }
            assert(readings@ =~= Self::no_readings(n as nat));
            state.angle_readings = readings;
            return Ok(());
        }
        let mask: &M = match &state.debug_edges {
            Some(mask) => mask,
            None => return Err(no_binary_mask()),
        };
        let size: (i32, i32) = measure(mask);
        let mut i: usize = 0;
        while i < n
            invariant
                n == state.knobs.len(),
                i <= n,
                readings.len() == i,
                *state == *old(state),
                state.debug_edges == Some(*mask),
                call_ensures(*measure, (mask,), size),
                size.0 >= 0,
                size.1 >= 0,
                self.template_angles.len() > 0,
                forall|i: usize, mask: &M, plan: &CropPlan| #[trigger]
                call_requires(*compare, (i, mask, plan)),
                forall|i: usize, mask: &M, plan: &CropPlan, scores: Vec<i64>| #[trigger]
                    call_ensures(*compare, (i, mask, plan), Ok(scores)) ==> scores.len()
                        == self.template_angles.len(),
                forall|j: int|
                    0 <= j < i ==> self.may_read(
                        *mask,
                        size,
                        *compare,
                        j,
                        state.knobs[j],
                        #[trigger] readings[j],
                    ),
            decreases n - i,
        {
            let knob: &Knob = &state.knobs[i];
            let reading: Option<AngleReading> = match self.plan_crop(i, knob, size.0, size.1) {
                None => None,
                Some(plan) => {
                    let scores: Vec<i64> = match compare(i, mask, &plan) {
                        Ok(scores) => scores,
                        Err(error) => {
                            assert(self.may_fail_at(
                                *mask,
                                size,
                                *compare,
                                i as int,
                                state.knobs@[i as int],
                                error,
                            ));
                            assert(self.may_read_all(
                                *mask,
                                size,
                                *compare,
                                state.knobs@.take(readings@.len() as int),
                                readings@,
                            ));
                            assert(self.may_fail(*mask, *measure, *compare, state.knobs@, error));
                            return Err(error);
                        },
                    };
                    Some(read_angle(&self.template_angles, &scores))
                },
            };
            assert(self.may_read(*mask, size, *compare, i as int, *knob, reading));
            readings.push(reading);
            i = i + 1;
        }
        assert(self.may_read_all(*mask, size, *compare, state.knobs@, readings@));
        state.angle_readings = readings;
        Ok(())
    }
}

/// A knob whose whole square lies in the image is cut out without padding.
pub proof fn whole_squares_need_no_padding(a: Angle, i: int, knob: Knob, width: int, height: int)
    requires
        a.crop_size >= 0,
        0 <= width <= i32::MAX,
        0 <= height <= i32::MAX,
        !knob.synthetic,
        ({
            let half = a.crop_size as int / 2;
            let x = pixel(
                if i < a.centers_x@.len() {
                    a.centers_x@[i] as int
                } else {
                    knob.x as int
                },
            ) - half;
            let y = pixel(a.center_y as int) - half;
            0 <= x && x + a.crop_size <= width && 0 <= y && y + a.crop_size <= height
        }),
    ensures
        a.crop(i, knob, width, height) matches Some(c) && c.width == a.crop_size && c.height
            == a.crop_size && !c.pad,
{
}

/// The part that is cut out for a knob lies in the image and is no larger than the square.
pub proof fn crops_lie_in_the_image(a: Angle, i: int, knob: Knob, width: int, height: int)
    requires
        0 <= width <= i32::MAX,
        0 <= height <= i32::MAX,
    ensures
        a.crop(i, knob, width, height) matches Some(c) ==> {
            &&& 0 <= c.x <= c.x + c.width <= width
            &&& 0 <= c.y <= c.y + c.height <= height
            &&& c.width <= a.crop_size
            &&& c.height <= a.crop_size
        },
{
}

proof fn ranked_scores_are_the_two_best(angles: Seq<i64>, scores: Seq<i64>)
    requires
        angles.len() >= scores.len(),
        scores.len() > 0,
        forall|i: int| 0 <= i < scores.len() ==> #[trigger] scores[i] > -1_000_000_000,
    ensures
        ({
            let r = ranking(angles, scores);
            exists|i: int|
                {
                    &&& 0 <= i < scores.len()
                    &&& #[trigger] scores[i] == r.best
                    &&& angles[i] == r.angle
                    &&& forall|j: int| 0 <= j < i ==> #[trigger] scores[j] < r.best
                    &&& forall|j: int|
                        0 <= j < scores.len() && j != i ==> #[trigger] scores[j] <= r.second
                    &&& scores.len() == 1 ==> r.second == -1_000_000_000
                    &&& scores.len() > 1 ==> exists|j: int|
                        0 <= j < scores.len() && j != i && #[trigger] scores[j] == r.second
                    &&& r.second <= r.best
                }
        }),
    decreases scores.len(),
{
    let rest = scores.drop_last();
    let n = rest.len() as int;
    let r = ranking(angles, scores);
    if n == 0 {
        reveal_with_fuel(ranking, 2);
        assert(scores[0] == r.best);
    } else {
        assert forall|i: int| 0 <= i < n implies #[trigger] rest[i] > -1_000_000_000 by {
            assert(rest[i] == scores[i]);
        }
        ranked_scores_are_the_two_best(angles, rest);
        let before = ranking(angles, rest);
        let i = choose|i: int|
            {
                &&& 0 <= i < rest.len()
                &&& #[trigger] rest[i] == before.best
                &&& angles[i] == before.angle
                &&& forall|j: int| 0 <= j < i ==> #[trigger] rest[j] < before.best
                &&& forall|j: int|
                    0 <= j < rest.len() && j != i ==> #[trigger] rest[j] <= before.second
                &&& rest.len() == 1 ==> before.second == -1_000_000_000
                &&& rest.len() > 1 ==> exists|j: int|
                    0 <= j < rest.len() && j != i && #[trigger] rest[j] == before.second
                &&& before.second <= before.best
            };
        assert(rest[i] == scores[i]);
        assert forall|j: int| 0 <= j < n implies #[trigger] scores[j] <= before.best by {
            assert(rest[j] == scores[j]);
        }
        assert forall|j: int| 0 <= j < n && j != i implies #[trigger] scores[j] <= before.second by {
            assert(rest[j] == scores[j]);
        }
        if scores[n] > before.best {
            assert(scores[n] == r.best);
            assert(scores[i] == r.second);
        } else {
            assert(scores[i] == r.best);
            assert forall|j: int| 0 <= j < i implies #[trigger] scores[j] < r.best by {
                assert(rest[j] == scores[j]);
            }
            if scores[n] > before.second {
                assert(scores[n] == r.second);
            } else {
                if n > 1 {
                    let j = choose|j: int|
                        0 <= j < rest.len() && j != i && #[trigger] rest[j] == before.second;
                    assert(scores[j] == r.second);
                } else {
                    assert(scores[n] > -1_000_000_000);
                }
            }
        }
    }
}

/// A knob is read by the template that scores highest, the first of equal ones. The reading is of
/// high confidence exactly if that score is over seven tenths and every other one is more than a
/// tenth behind, and otherwise of low confidence over four tenths.
pub proof fn knobs_are_read_by_the_best_template(angles: Seq<i64>, scores: Seq<i64>)
    requires
        angles.len() == scores.len(),
        scores.len() > 0,
        forall|i: int| 0 <= i < scores.len() ==> #[trigger] scores[i] > -1_000_000_000,
    ensures
        ({
            let r = reading_of(angles, scores);
            exists|i: int|
                {
                    &&& 0 <= i < scores.len()
                    &&& #[trigger] scores[i] == r.match_score
                    &&& angles[i] == r.angle_deg
                    &&& forall|j: int| 0 <= j < scores.len() ==> #[trigger] scores[j] <= scores[i]
                    &&& forall|j: int| 0 <= j < i ==> #[trigger] scores[j] < scores[i]
                    &&& r.confidence == Confidence::High <==> scores[i] > 700_000_000 && forall|
                        j: int,
                    |
                        0 <= j < scores.len() && j != i ==> scores[i] - #[trigger] scores[j]
                            > 100_000_000
                    &&& r.confidence == Confidence::Ambiguous <==> scores[i] <= 400_000_000
                }
        }),
{
    ranked_scores_are_the_two_best(angles, scores);
    let r = ranking(angles, scores);
    let i = choose|i: int|
        {
            &&& 0 <= i < scores.len()
            &&& #[trigger] scores[i] == r.best
            &&& angles[i] == r.angle
            &&& forall|j: int| 0 <= j < i ==> #[trigger] scores[j] < r.best
            &&& forall|j: int|
                0 <= j < scores.len() && j != i ==> #[trigger] scores[j] <= r.second
            &&& scores.len() == 1 ==> r.second == -1_000_000_000
            &&& scores.len() > 1 ==> exists|j: int|
                0 <= j < scores.len() && j != i && #[trigger] scores[j] == r.second
            &&& r.second <= r.best
        };
    assert(scores[i] == reading_of(angles, scores).match_score);
}

/// Without any template the reading is ambiguous, at no angle and with the lowest score.
pub proof fn nothing_is_read_without_scores(angles: Seq<i64>)
    ensures
        reading_of(angles, Seq::<i64>::empty()) == (AngleReading {
            angle_deg: 0,
            confidence: Confidence::Ambiguous,
            match_score: -1_000_000_000i64,
        }),
{
}

/// A knob that was found is cut out exactly where at least half of its square lies in the image in
/// either direction, and what is cut out are the columns and rows of the square that do; it is
/// padded exactly if some of the square are missing.
pub proof fn crops_show_the_square(a: Angle, i: int, knob: Knob, width: int, height: int, x: int, y: int)
    requires
        a.crop_size >= 0,
        0 <= width <= i32::MAX,
        0 <= height <= i32::MAX,
    ensures
        ({
            let size = a.crop_size as int;
            let left = pixel(
                if i < a.centers_x@.len() {
                    a.centers_x@[i] as int
                } else {
                    knob.x as int
                },
            ) - size / 2;
            let top = pixel(a.center_y as int) - size / 2;
            match a.crop(i, knob, width, height) {
                Some(c) => {
                    &&& !knob.synthetic
                    &&& c.x <= x < c.x + c.width <==> 0 <= x < width && left <= x < left + size
                    &&& c.y <= y < c.y + c.height <==> 0 <= y < height && top <= y < top + size
                    &&& c.width >= size / 2 && c.height >= size / 2
                    &&& c.pad <==> c.width < size || c.height < size
                },
                None => {
                    ||| knob.synthetic
                    ||| size / 2 > 0 && !(0 <= x && x + size / 2 <= width && left <= x && x + size / 2
                        <= left + size)
                    ||| size / 2 > 0 && !(0 <= y && y + size / 2 <= height && top <= y && y + size / 2
                        <= top + size)
                    ||| size / 2 == 0 && (left < 0 || left + size > width || top < 0 || top + size
                        > height)
                },
            }
        }),
{
}

} // verus!
