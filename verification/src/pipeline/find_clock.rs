//! Finding the clock in the band. The knobs lie to the right of it.

use vstd::prelude::*;
use vstd::string::*;

use super::find_features::{resized, scaled_side};
use super::stage::{
    is_exhausted, is_retry, KnobSearchArea, PipelineState, StageDescriptor, StageOutcome,
    StateView,
};
use super::ImageOutput;
use crate::draw::{bgr, drawing, Color, Shape, ShapeView};
use crate::fixed::{clamp_to_fixed, clamped, max, pixel, to_pixel};
use crate::text::{
    decimal, fixed_decimal, push_fixed, push_number, push_ratio, push_signed, ratio_decimal,
    signed_decimal,
};
use crate::wide::Integer;

verus! {

/// The attempts of the stage: each scale twice.
pub const MAX_RETRIES: u32 = 12;

/// The least score of a match, in billionths.
pub const CLOCK_THRESHOLD: i64 = 250_000_000;

/// What the stage says of itself.
pub fn descriptor() -> (r: StageDescriptor)
    ensures
        r.name@ == "FindClock"@,
        r.label@ == "S7:FindClock"@,
        r.fallback matches Some(f) && f@ == "ExtractBand"@,
{
    StageDescriptor { name: "FindClock", label: "S7:FindClock", fallback: Some("ExtractBand") }
}

/// The scale of an attempt: from 15 to 40 percent in steps of five, in turn.
pub open spec fn attempt_scale(iteration: int) -> int {
    150_000 + (iteration % 6) * 50_000
}

/// How to look for the clock in one attempt: the scale, and the template's size at it.
#[derive(Debug, Clone, Copy, PartialEq, Eq, Structural)]
pub struct ClockPlan {
    pub scale: i64,
    pub width: u32,
    pub height: u32,
}

/// How an attempt decides to look for the clock, given the size of the template.
pub open spec fn is_clock_plan(
    search_known: bool,
    template_loaded: bool,
    template_width: int,
    template_height: int,
    iteration: int,
    r: Result<ClockPlan, StageOutcome>,
) -> bool {
    let scale = attempt_scale(iteration);
    let w = scaled_side(template_width, scale);
    let h = scaled_side(template_height, scale);
    if !search_known {
        r matches Err(o) && is_exhausted(o, "missing prior state"@)
    } else if !template_loaded {
        r matches Err(o) && is_exhausted(o, "clock template not loaded"@)
    } else if w < 5 || h < 5 {
        r matches Err(o) && is_retry(
            o,
            "clock template too small at scale "@ + fixed_decimal(scale, 2),
        )
    } else {
        r matches Ok(p) && p.scale == scale && p.width == w && p.height == h
    }
}

/// Decides how an attempt looks for the clock, given the size of the template.
pub fn plan_clock(
    search_known: bool,
    template_loaded: bool,
    template_width: u32,
    template_height: u32,
    iteration: u32,
) -> (r: Result<ClockPlan, StageOutcome>)
    ensures
        is_clock_plan(
            search_known,
            template_loaded,
            template_width as int,
            template_height as int,
            iteration as int,
            r,
        ),
{
    if !search_known {
        return Err(StageOutcome::Exhausted(String::from_str("missing prior state")));
    }
    if !template_loaded {
        return Err(StageOutcome::Exhausted(String::from_str("clock template not loaded")));
    }
    let scale: i64 = 150_000 + (iteration % 6) as i64 * 50_000;
    let (w, h) = resized(template_width, template_height, scale);
    if w < 5 || h < 5 {
        let mut s: String = String::from_str("clock template too small at scale ");
        push_fixed(&mut s, scale as i128, 2);
        return Err(StageOutcome::Retry(s));
    }
    Ok(ClockPlan { scale, width: w, height: h })
}

/// The columns of the band that an attempt decides to search: its left 35 percent. The template
/// has to be smaller than the band.
pub open spec fn is_search_plan(
    plan: ClockPlan,
    band_width: int,
    band_height: int,
    r: Result<u32, StageOutcome>,
) -> bool {
    if plan.width >= band_width || plan.height >= band_height {
        r matches Err(o) && is_retry(
            o,
            "clock template larger than band at scale "@ + fixed_decimal(plan.scale as int, 2),
        )
    } else {
        r matches Ok(w) && w == band_width * 35 / 100
    }
}

/// The columns of the band that are searched.
pub fn plan_search(plan: &ClockPlan, band_width: u32, band_height: u32) -> (r: Result<
    u32,
    StageOutcome,
>)
    ensures
        is_search_plan(*plan, band_width as int, band_height as int, r),
{
    if plan.width >= band_width || plan.height >= band_height {
        let mut s: String = String::from_str("clock template larger than band at scale ");
        push_fixed(&mut s, plan.scale as i128, 2);
        return Err(StageOutcome::Retry(s));
    }
    Ok((band_width as u64 * 35 / 100) as u32)
}

/// The search area with the clock that was matched with its top left corner at `(x, y)` of the
/// band; the knob area begins one and a half of the clock's radii to the right of its center.
pub open spec fn with_clock(ks: KnobSearchArea, x: int, y: int, width: int, height: int) -> KnobSearchArea {
    KnobSearchArea {
        x_min: (knob_area_start(x, width, height) * 1_000_000) as i64,
        clock_center_x: (x * 1_000_000 + width * 500_000) as i64,
        clock_center_y: clamped(y * 1_000_000 + height * 500_000 + ks.y_min) as i64,
        clock_radius: (max(width, height) * 500_000) as i64,
        ..ks
    }
}

/// The first column of the knob area.
pub open spec fn knob_area_start(x: int, width: int, height: int) -> int {
    pixel(x * 1_000_000 + width * 500_000 + max(width, height) * 750_000)
}

/// What an attempt decides on the best match, which scored `score` at `(x, y)`.
pub open spec fn is_clock_place(
    plan: ClockPlan,
    score: int,
    x: int,
    y: int,
    band_width: int,
    search: KnobSearchArea,
    r: Result<KnobSearchArea, StageOutcome>,
) -> bool {
    let start = knob_area_start(x, plan.width as int, plan.height as int);
    if score < 250_000_000 {
        r matches Err(o) && is_retry(
            o,
            "clock match too low: "@ + ratio_decimal(score, 1_000_000_000, 2)
                + " (need 0.25), scale="@ + fixed_decimal(plan.scale as int, 2),
        )
    } else if start >= band_width {
        r matches Err(o) && is_retry(
            o,
            "clock right edge "@ + signed_decimal(start) + " exceeds band width "@ + decimal(
                band_width,
            ),
        )
    } else {
        r == Ok::<KnobSearchArea, StageOutcome>(
            with_clock(search, x, y, plan.width as int, plan.height as int),
        )
    }
}

/// Takes the best match, which scored `score` at `(x, y)`, for the clock.
pub fn place_clock(
    plan: &ClockPlan,
    score: i64,
    x: u32,
    y: u32,
    band_width: u32,
    search: &KnobSearchArea,
) -> (r: Result<KnobSearchArea, StageOutcome>)
    ensures
        is_clock_place(*plan, score as int, x as int, y as int, band_width as int, *search, r),
{
    if score < CLOCK_THRESHOLD {
        let mut s: String = String::from_str("clock match too low: ");
        push_ratio(&mut s, &Integer::new(score as i128), &Integer::new(1_000_000_000), 2);
        s.append(" (need 0.25), scale=");
        push_fixed(&mut s, plan.scale as i128, 2);
        return Err(StageOutcome::Retry(s));
    }
    let side: u32 = if plan.width < plan.height {
        plan.height
    } else {
        plan.width
    };
    let center_x: i64 = x as i64 * 1_000_000 + plan.width as i64 * 500_000;
    let center_y: i64 = y as i64 * 1_000_000 + plan.height as i64 * 500_000;
    let start: i32 = to_pixel(center_x + side as i64 * 750_000);
    if start as i64 >= band_width as i64 {
        let mut s: String = String::from_str("clock right edge ");
        push_signed(&mut s, start as i64);
        s.append(" exceeds band width ");
        push_number(&mut s, band_width as u128);
        return Err(StageOutcome::Retry(s));
    }
    let mut found: KnobSearchArea = *search;
    found.x_min = start as i64 * 1_000_000;
    found.clock_center_x = center_x;
    found.clock_center_y = clamp_to_fixed(center_y as i128 + search.y_min as i128);
    found.clock_radius = side as i64 * 500_000;
    Ok(found)
}

/// The stage that finds the clock, with the size of its template.
#[derive(Debug, Clone, Copy, PartialEq, Eq, Structural)]
pub struct FindClock {
    pub template_loaded: bool,
    pub template_width: u32,
    pub template_height: u32,
}

/// What an attempt sees on its way: how it looks for the clock, the edges in the band and its
/// size, the columns that it searches, and the best match in them.
pub struct ClockSearch<C> {
    pub plan: ClockPlan,
    pub edges: C,
    pub width: u32,
    pub height: u32,
    pub columns: u32,
    pub score: i64,
    pub x: u32,
    pub y: u32,
}

impl FindClock {
    /// What an attempt may decide on how to look for the clock.
    pub open spec fn may_plan(
        &self,
        before: StateView,
        iteration: int,
        r: Result<ClockPlan, StageOutcome>,
    ) -> bool {
        is_clock_plan(
            before.knob_search is Some,
            self.template_loaded,
            self.template_width as int,
            self.template_height as int,
            iteration,
            r,
        )
    }

    /// An attempt may get to the edges in the band so.
    pub open spec fn may_prepare<C, E, P: Fn(&ClockPlan) -> Result<(C, u32, u32), E>>(
        &self,
        before: StateView,
        iteration: int,
        prepare: P,
        s: ClockSearch<C>,
    ) -> bool {
        &&& self.may_plan(before, iteration, Ok(s.plan))
        &&& call_ensures(prepare, (&s.plan,), Ok((s.edges, s.width, s.height)))
    }

    /// An attempt may get to the best match so.
    pub open spec fn may_match<
        C,
        E,
        P: Fn(&ClockPlan) -> Result<(C, u32, u32), E>,
        B: Fn(&C, u32) -> Result<(i64, u32, u32), E>,
    >(&self, before: StateView, iteration: int, prepare: P, best: B, s: ClockSearch<C>) -> bool {
        &&& self.may_prepare(before, iteration, prepare, s)
        &&& is_search_plan(s.plan, s.width as int, s.height as int, Ok(s.columns))
        &&& call_ensures(best, (&s.edges, s.columns), Ok((s.score, s.x, s.y)))
    }

    /// What an attempt may decide on the best match.
    pub open spec fn may_place<C>(
        before: StateView,
        s: ClockSearch<C>,
        r: Result<KnobSearchArea, StageOutcome>,
    ) -> bool {
        before.knob_search matches Some(search) && is_clock_place(
            s.plan,
            s.score as int,
            s.x as int,
            s.y as int,
            s.width as int,
            search,
            r,
        )
    }

    /// An attempt may come to this end without success.
    pub open spec fn may_stop<
        C,
        E,
        P: Fn(&ClockPlan) -> Result<(C, u32, u32), E>,
        B: Fn(&C, u32) -> Result<(i64, u32, u32), E>,
    >(
        &self,
        before: StateView,
        iteration: int,
        prepare: P,
        best: B,
        outcome: StageOutcome,
    ) -> bool {
        ||| self.may_plan(before, iteration, Err(outcome))
        ||| exists|s: ClockSearch<C>|
            #![trigger self.may_prepare(before, iteration, prepare, s)]
            self.may_prepare(before, iteration, prepare, s) && is_search_plan(
                s.plan,
                s.width as int,
                s.height as int,
                Err(outcome),
            )
        ||| exists|s: ClockSearch<C>|
            #![trigger self.may_match(before, iteration, prepare, best, s)]
            self.may_match(before, iteration, prepare, best, s) && Self::may_place(
                before,
                s,
                Err(outcome),
            )
    }

    /// An attempt may succeed with this search area and this image.
    pub open spec fn may_succeed<
        I,
        C,
        E,
        P: Fn(&ClockPlan) -> Result<(C, u32, u32), E>,
        B: Fn(&C, u32) -> Result<(i64, u32, u32), E>,
        K: Fn(i32) -> Result<I, E>,
    >(
        &self,
        before: StateView,
        iteration: int,
        prepare: P,
        best: B,
        cut: K,
        area: KnobSearchArea,
        image: I,
    ) -> bool {
        &&& call_ensures(cut, (pixel(area.x_min as int) as i32,), Ok(image))
        &&& exists|s: ClockSearch<C>|
            #![trigger self.may_match(before, iteration, prepare, best, s)]
            self.may_match(before, iteration, prepare, best, s) && Self::may_place(
                before,
                s,
                Ok(area),
            )
    }

    /// An attempt may fail with this error: that of one of its three parts.
    pub open spec fn may_fail<
        I,
        C,
        E,
        P: Fn(&ClockPlan) -> Result<(C, u32, u32), E>,
        B: Fn(&C, u32) -> Result<(i64, u32, u32), E>,
        K: Fn(i32) -> Result<I, E>,
    >(
        &self,
        before: StateView,
        iteration: int,
        prepare: P,
        best: B,
        cut: K,
        error: E,
    ) -> bool {
        ||| exists|plan: ClockPlan|
            #![trigger call_ensures(prepare, (&plan,), Err(error))]
            self.may_plan(before, iteration, Ok(plan)) && call_ensures(
                prepare,
                (&plan,),
                Err(error),
            )
        ||| exists|s: ClockSearch<C>|
            #![trigger self.may_prepare(before, iteration, prepare, s)]
            self.may_prepare(before, iteration, prepare, s) && is_search_plan(
                s.plan,
                s.width as int,
                s.height as int,
                Ok(s.columns),
            ) && call_ensures(best, (&s.edges, s.columns), Err(error))
        ||| exists|s: ClockSearch<C>, area: KnobSearchArea|
            #![trigger self.may_match(before, iteration, prepare, best, s),
                Self::may_place(before, s, Ok(area))]
            self.may_match(before, iteration, prepare, best, s) && Self::may_place(
                before,
                s,
                Ok(area),
            ) && call_ensures(cut, (pixel(area.x_min as int) as i32,), Err(error))
    }

    /// An attempt of the stage. `prepare` gives the edges in the band and in the scaled template,
    /// with the band's size; `best` gives the score and the place of the best match in so many
    /// columns; `cut` gives the band from a column on. A failed attempt leaves the state and the
    /// image as they were; one that succeeds changes the search area alone.
    pub fn run<
        I,
        C,
        E,
        P: Fn(&ClockPlan) -> Result<(C, u32, u32), E>,
        B: Fn(&C, u32) -> Result<(i64, u32, u32), E>,
        K: Fn(i32) -> Result<I, E>,
    >(
        &self,
        state: &mut PipelineState,
        dst: &mut I,
        iteration: u32,
        prepare: &P,
        best: &B,
        cut: &K,
    ) -> (r: Result<(StageOutcome, ImageOutput), E>)
        requires
            forall|plan: &ClockPlan| #[trigger] call_requires(*prepare, (plan,)),
            forall|edges: &C, columns: u32| #[trigger] call_requires(*best, (edges, columns)),
            forall|x: i32| #[trigger] call_requires(*cut, (x,)),
        ensures
            ({
                let before = old(state)@;
                let after = final(state)@;
                match r {
                    Ok((outcome, output)) => match outcome {
                        StageOutcome::Success => {
                            &&& output is Transformed
                            &&& after.knob_search matches Some(area) && self.may_succeed(
                                before,
                                iteration as int,
                                *prepare,
                                *best,
                                *cut,
                                area,
                                *final(dst),
                            )
                            &&& after == (StateView { knob_search: after.knob_search, ..before })
                        },
                        _ => {
                            &&& output is Passthrough
                            &&& self.may_stop(before, iteration as int, *prepare, *best, outcome)
                            &&& after == before
                            &&& *final(dst) == *old(dst)
                        },
                    },
                    Err(e) => {
                        &&& self.may_fail(before, iteration as int, *prepare, *best, *cut, e)
                        &&& after == before
                        &&& *final(dst) == *old(dst)
                    },
                }
            }),
    {
        let planned: Result<ClockPlan, StageOutcome> = plan_clock(
            state.knob_search.is_some(),
            self.template_loaded,
            self.template_width,
            self.template_height,
            iteration,
        );
        let plan: ClockPlan = match planned {
            Ok(plan) => plan,
            Err(outcome) => return Ok((outcome, ImageOutput::Passthrough)),
        };
        let search: KnobSearchArea = state.knob_search.unwrap();
        let (edges, width, height): (C, u32, u32) = match prepare(&plan) {
            Ok(found) => found,
            Err(e) => return Err(e),
        };
        let mut s: ClockSearch<C> = ClockSearch {
            plan,
            edges,
            width,
            height,
            columns: 0,
            score: 0,
            x: 0,
            y: 0,
        };
        assert(self.may_prepare(old(state)@, iteration as int, *prepare, s));
        s.columns = match plan_search(&plan, width, height) {
            Ok(columns) => columns,
            Err(outcome) => return Ok((outcome, ImageOutput::Passthrough)),
        };
        assert(self.may_prepare(old(state)@, iteration as int, *prepare, s));
        let (score, x, y): (i64, u32, u32) = match best(&s.edges, s.columns) {
            Ok(found) => found,
            Err(e) => return Err(e),
        };
        s.score = score;
        s.x = x;
        s.y = y;
        assert(self.may_prepare(old(state)@, iteration as int, *prepare, s));
        assert(self.may_match(old(state)@, iteration as int, *prepare, *best, s));
        let area: KnobSearchArea = match place_clock(&plan, score, x, y, width, &search) {
            Ok(area) => area,
            Err(outcome) => return Ok((outcome, ImageOutput::Passthrough)),
        };
        assert(Self::may_place(old(state)@, s, Ok(area)));
        match cut(to_pixel(area.x_min)) {
            Ok(image) => *dst = image,
            Err(e) => return Err(e),
        }
        state.knob_search = Some(area);
        Ok((StageOutcome::Success, ImageOutput::Transformed))
    }
}

/// The debug picture of the knob area: a yellow line along its left side.
pub fn debug_shapes(image_height: i32) -> (r: (String, Vec<Shape>))
    ensures
        r.0@ == "S7:FindClock"@,
        drawing(r.1@) == seq![
            ShapeView::Line {
                x1: 0,
                y1: 0,
                x2: 0,
                y2: image_height as int,
                color: bgr(0, 255, 255),
                thickness: 2,
            },
        ],
{
    let mut shapes: Vec<Shape> = Vec::new();
    shapes.push(
        Shape::Line {
            x1: 0,
            y1: 0,
            x2: 0,
            y2: image_height,
            color: Color { blue: 0, green: 255, red: 255 },
            thickness: 2,
        },
    );
    assert(drawing(shapes@) =~= seq![
        ShapeView::Line {
            x1: 0,
            y1: 0,
            x2: 0,
            y2: image_height as int,
            color: bgr(0, 255, 255),
            thickness: 2,
        },
    ]);
    (String::from_str("S7:FindClock"), shapes)
}


/// Six attempts in a row try six scales, from 15 to 40 percent in steps of five, and then the first
/// again.
pub proof fn attempts_try_six_scales(iteration: int)
    requires
        iteration >= 0,
    ensures
        iteration % 6 == 0 ==> attempt_scale(iteration) == 150_000,
        iteration % 6 != 0 ==> attempt_scale(iteration) == attempt_scale(iteration - 1) + 50_000,
        attempt_scale(iteration + 6) == attempt_scale(iteration),
{
}

/// An attempt scales both sides of the template alike and gives way to the next exactly if one of
/// them gets smaller than five pixels.
pub proof fn templates_are_scaled_alike(
    width: int,
    height: int,
    iteration: int,
    r: Result<ClockPlan, StageOutcome>,
)
    requires
        iteration >= 0,
        is_clock_plan(true, true, width, height, iteration, r),
    ensures
        ({
            let s = 150_000 + 50_000 * (iteration % 6);
            match r {
                Ok(p) => {
                    &&& p.scale == s
                    &&& 0 <= width * s - p.width * 1_000_000 < 1_000_000
                    &&& 0 <= height * s - p.height * 1_000_000 < 1_000_000
                    &&& p.width >= 5 && p.height >= 5
                },
                Err(o) => {
                    &&& o is Retry
                    &&& width * s < 5_000_000 || height * s < 5_000_000
                },
            }
        }),
{
    let s = 150_000 + 50_000 * (iteration % 6);
    assert(attempt_scale(iteration) == s);
}

/// The clock is sought in the left 35 percent of the band, where the template is smaller than the
/// band in both directions.
pub proof fn clocks_are_sought_on_the_left(
    plan: ClockPlan,
    band_width: int,
    band_height: int,
    r: Result<u32, StageOutcome>,
)
    requires
        is_search_plan(plan, band_width, band_height, r),
        band_width >= 0,
    ensures
        r is Ok <==> plan.width < band_width && plan.height < band_height,
        r matches Ok(w) ==> 0 <= 35 * band_width - 100 * w < 100,
        r matches Err(o) ==> o is Retry,
{
}

/// The clock has its center in the middle of the match, and half of the match's longer side as its
/// radius; the knobs begin half as far again to the right of it. The height counts from the top of
/// the image, not of the band, and the rest of the area stays as it is.
pub proof fn clocks_lie_in_the_middle_of_their_match(
    ks: KnobSearchArea,
    x: u32,
    y: u32,
    width: u32,
    height: u32,
)
    requires
        0 <= ks.y_min <= 0xffff_ffff_ffff,
    ensures
        ({
            let r = with_clock(ks, x as int, y as int, width as int, height as int);
            let longer = if width < height {
                height
            } else {
                width
            };
            &&& 2 * r.clock_center_x == (2 * x + width) * 1_000_000
            &&& 2 * (r.clock_center_y - ks.y_min) == (2 * y + height) * 1_000_000
            &&& 2 * r.clock_radius == longer * 1_000_000
            &&& r.x_min == 1_000_000 * pixel(r.clock_center_x + r.clock_radius + r.clock_radius / 2)
            &&& r == (KnobSearchArea {
                x_min: r.x_min,
                clock_center_x: r.clock_center_x,
                clock_center_y: r.clock_center_y,
                clock_radius: r.clock_radius,
                ..ks
            })
        }),
{
}

/// A match is taken for the clock exactly if it scores a quarter or more and leaves room for knobs
/// in the band.
pub proof fn good_matches_are_clocks(
    plan: ClockPlan,
    score: int,
    x: int,
    y: int,
    band_width: int,
    search: KnobSearchArea,
    r: Result<KnobSearchArea, StageOutcome>,
)
    requires
        is_clock_place(plan, score, x, y, band_width, search, r),
    ensures
        r is Ok <==> score >= 250_000_000 && pixel(
            x * 1_000_000 + plan.width * 500_000 + if plan.width < plan.height {
                plan.height * 750_000
            } else {
                plan.width * 750_000
            },
        ) < band_width,
        r matches Ok(a) ==> a == with_clock(search, x, y, plan.width as int, plan.height as int),
        r matches Err(o) ==> o is Retry,
{
}

} // verus!
