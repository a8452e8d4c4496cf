//! Removing the keystone distortion that is left, by means of the knobs: they stand in a
//! straight line.

use vstd::prelude::*;
use vstd::string::*;

use super::stage::{
    is_exhausted, is_retry, CircleFeature, DetectedFeatures, FeaturesView, KnobSearchArea,
    PipelineState, StageDescriptor, StageOutcome, StateView,
};
use super::util::{collect_ys, knob_radii, knob_ys, median_radius};
use super::ImageOutput;
use crate::fixed::{abs, clamp_to_fixed, clamped, max, min, pixel};
use crate::order::{
    ascending_order, at_places, find_least, find_median, least, median, sort_ascending, take_places,
};
use crate::text::{decimal, push_number, push_signed, signed_decimal};
use crate::wide::Integer;

verus! {

/// The attempts of the stage.
pub const MAX_RETRIES: u32 = 1;

/// What the stage says of itself.
pub fn descriptor() -> (r: StageDescriptor)
    ensures
        r.name@ == "RefineWarp"@,
        r.label@ == "S11:RefineWarp"@,
        r.fallback matches Some(f) && f@ == "FindFeatures"@,
{
    StageDescriptor { name: "RefineWarp", label: "S11:RefineWarp", fallback: Some("FindFeatures") }
}

/// The label of the stage's debug image.
pub fn debug_label() -> (r: String)
    ensures
        r@ == "S11:RefineWarp"@,
{
    String::from_str("S11:RefineWarp")
}

/// A point in the image.
#[derive(Debug, Clone, Copy, PartialEq, Eq, Structural)]
pub struct ImagePoint {
    pub x: i64,
    pub y: i64,
}

/// How the image is warped: four points, and where they go. Both are given clockwise from the
/// top left.
#[derive(Debug, Clone, Copy, PartialEq, Eq)]
pub struct Quadrilateral {
    pub src: [ImagePoint; 4],
    pub dst: [ImagePoint; 4],
}

/// What the stage knows of the row of knobs.
#[derive(Debug, Clone, Copy, PartialEq, Eq, Structural)]
pub struct KnobRow {
    pub first: CircleFeature,
    pub last: CircleFeature,
    pub median_r: i64,
    pub ideal_y: i64,
    pub min_y: i64,
}

/// The knobs' horizontal centers as keys.
pub open spec fn x_keys(knobs: Seq<CircleFeature>) -> Seq<i128> {
    knobs.map_values(|k: CircleFeature| k.center_x as i128)
}

/// The knobs from left to right.
pub open spec fn left_to_right(knobs: Seq<CircleFeature>) -> Seq<CircleFeature> {
    at_places(knobs, ascending_order(x_keys(knobs)))
}

/// The row that the knobs form.
pub open spec fn row_of(knobs: Seq<CircleFeature>) -> KnobRow {
    let sorted = left_to_right(knobs);
    KnobRow {
        first: sorted[0],
        last: sorted.last(),
        median_r: median(knob_radii(knobs)),
        ideal_y: median(knob_ys(sorted)),
        min_y: least(knob_ys(sorted)),
    }
}

/// The row of knobs that an attempt decides to correct the image by: four knobs at least.
pub open spec fn is_row_choice(
    search_known: bool,
    features: Option<FeaturesView>,
    r: Result<KnobRow, StageOutcome>,
) -> bool {
    if !search_known {
        r matches Err(o) && is_exhausted(o, "no knob search area"@)
    } else {
        match features {
            None => r matches Err(o) && is_exhausted(o, "no features"@),
            Some(f) => if f.knobs.len() < 4 {
                r matches Err(o) && is_exhausted(
                    o,
                    "need >= 4 knobs for homography, got "@ + decimal(f.knobs.len() as int),
                )
            } else {
                r == Ok::<KnobRow, StageOutcome>(row_of(f.knobs))
            },
        }
    }
}

/// The row of knobs to correct the image by: four knobs at least.
pub fn find_row(search_known: bool, features: &Option<DetectedFeatures>) -> (r: Result<
    KnobRow,
    StageOutcome,
>)
    ensures
        is_row_choice(
            search_known,
            match *features {
                Some(f) => Some(f@),
                None => None,
            },
            r,
        ),
{
    if !search_known {
        return Err(StageOutcome::Exhausted(String::from_str("no knob search area")));
    }
    let f: &DetectedFeatures = match features {
        None => return Err(StageOutcome::Exhausted(String::from_str("no features"))),
        Some(f) => f,
    };
    let n: usize = f.knobs.len();
    if n < 4 {
        let mut s: String = String::from_str("need >= 4 knobs for homography, got ");
        push_number(&mut s, n as u128);
        return Err(StageOutcome::Exhausted(s));
    }
    let median_r: i64 = median_radius(&f.knobs);
    let mut keys: Vec<i128> = Vec::new();
    let mut k: usize = 0;
    while k < n
        invariant
            n == f.knobs.len(),
            k <= n,
            keys.len() == k,
            forall|j: int| 0 <= j < k ==> #[trigger] keys[j] == f.knobs[j].center_x,
        decreases n - k,
    {
        keys.push(f.knobs[k].center_x as i128);
        k = k + 1;
    }
    assert(keys@ =~= x_keys(f.knobs@));
    let order: Vec<usize> = sort_ascending(&keys);
    let sorted: Vec<CircleFeature> = take_places(&f.knobs, &order);
    let ys: Vec<i64> = collect_ys(&sorted);
    let ideal_y: i64 = find_median(&ys);
    let min_y: i64 = find_least(&ys);
    Ok(KnobRow { first: sorted[0], last: sorted[n - 1], median_r, ideal_y, min_y })
}

/// The quadrilateral below the first and the last knob, three radii high, and the rectangle that
/// it would be if the knobs stood level.
pub open spec fn is_quadrilateral(row: KnobRow, r: Quadrilateral) -> bool {
    let arm = 3 * row.median_r;
    let left = row.first.center_x;
    let right = row.last.center_x;
    &&& r.src@ == seq![
        ImagePoint { x: left, y: row.first.center_y },
        ImagePoint { x: right, y: row.last.center_y },
        ImagePoint { x: right, y: clamped(row.last.center_y + arm) as i64 },
        ImagePoint { x: left, y: clamped(row.first.center_y + arm) as i64 },
    ]
    &&& r.dst@ == seq![
        ImagePoint { x: left, y: row.ideal_y },
        ImagePoint { x: right, y: row.ideal_y },
        ImagePoint { x: right, y: clamped(row.ideal_y + arm) as i64 },
        ImagePoint { x: left, y: clamped(row.ideal_y + arm) as i64 },
    ]
}

/// The quadrilateral below a row of knobs, and the rectangle that it becomes.
pub fn quadrilateral(row: &KnobRow) -> (r: Quadrilateral)
    ensures
        is_quadrilateral(*row, r),
{
    let arm: i128 = row.median_r as i128 * 3;
    let first: i64 = clamp_to_fixed(row.first.center_y as i128 + arm);
    let last: i64 = clamp_to_fixed(row.last.center_y as i128 + arm);
    let level: i64 = clamp_to_fixed(row.ideal_y as i128 + arm);
    let left: i64 = row.first.center_x;
    let right: i64 = row.last.center_x;
    let r = Quadrilateral {
        src: [
            ImagePoint { x: left, y: row.first.center_y },
            ImagePoint { x: right, y: row.last.center_y },
            ImagePoint { x: right, y: last },
            ImagePoint { x: left, y: first },
        ],
        dst: [
            ImagePoint { x: left, y: row.ideal_y },
            ImagePoint { x: right, y: row.ideal_y },
            ImagePoint { x: right, y: level },
            ImagePoint { x: left, y: level },
        ],
    };
    r
}

/// The part of the warped image that is kept: its top in fixed point, and its size.
#[derive(Debug, Clone, Copy, PartialEq, Eq, Structural)]
pub struct RefinedCrop {
    pub top: i64,
    pub width: i32,
    pub height: i32,
}

/// The error for a transform that could not be computed.
pub fn transform_failed() -> (r: StageOutcome)
    ensures
        is_retry(r, "perspective transform computation failed"@),
{
    StageOutcome::Retry(String::from_str("perspective transform computation failed"))
}

/// The part that an attempt decides to keep of the warped image: what lies within three radii of
/// the knobs above and below, and up to three radii to the right of them.
pub open spec fn is_refined_crop(
    row: KnobRow,
    image_width: int,
    image_height: int,
    r: Result<RefinedCrop, StageOutcome>,
) -> bool {
    let top = max(row.min_y - 3 * row.median_r, 0);
    let bottom = min(row.ideal_y + 3 * row.median_r, image_height * 1_000_000);
    let w = pixel(min(row.last.center_x + 3 * row.median_r, image_width * 1_000_000));
    let h = pixel(bottom - top);
    if w < 50 || h < 20 {
        r matches Err(o) && is_retry(
            o,
            "refined crop too small: "@ + signed_decimal(w) + "x"@ + signed_decimal(h),
        )
    } else {
        r == Ok::<RefinedCrop, StageOutcome>(
            RefinedCrop { top: clamped(top) as i64, width: w as i32, height: h as i32 },
        )
    }
}

/// The part of the warped image that is kept.
pub fn refined_crop(row: &KnobRow, image_width: u32, image_height: u32) -> (r: Result<
    RefinedCrop,
    StageOutcome,
>)
    ensures
        is_refined_crop(*row, image_width as int, image_height as int, r),
{
    let arm: i128 = row.median_r as i128 * 3;
    let top: Integer = Integer::new(row.min_y as i128 - arm).at_least(&Integer::new(0));
    let bottom: Integer = Integer::new(row.ideal_y as i128 + arm).at_most(
        &Integer::new(image_height as i128 * 1_000_000),
    );
    let right: Integer = Integer::new(row.last.center_x as i128 + arm).at_most(
        &Integer::new(image_width as i128 * 1_000_000),
    );
    let w: i32 = right.to_pixel();
    let h: i32 = bottom.minus(&top).to_pixel();
    if w < 50 || h < 20 {
        let mut s: String = String::from_str("refined crop too small: ");
        push_signed(&mut s, w as i64);
        s.append("x");
        push_signed(&mut s, h as i64);
        return Err(StageOutcome::Retry(s));
    }
    Ok(RefinedCrop { top: top.to_i64(), width: w, height: h })
}

/// The search area in the kept part.
pub open spec fn area_in_crop(
    search: Option<KnobSearchArea>,
    crop: RefinedCrop,
) -> Option<KnobSearchArea> {
    match search {
        Some(ks) => Some(KnobSearchArea { y_min: crop.top, x_min: 0, ..ks }),
        None => None,
    }
}

/// Notes where the kept part begins.
pub fn note_crop(search: &mut Option<KnobSearchArea>, crop: &RefinedCrop)
    ensures
        *final(search) == area_in_crop(*old(search), *crop),
{
    if let Some(ks) = *search {
        let mut noted: KnobSearchArea = ks;
        noted.y_min = crop.top;
        noted.x_min = 0;
        *search = Some(noted);
    }
}

/// The stage that removes the keystone distortion.
#[derive(Debug, Clone, Copy, PartialEq, Eq, Structural)]
pub struct RefineWarp;

/// What an attempt sees on its way: the row of knobs, the quadrilateral below it, the warped image
/// and its size, and the part of it that is kept.
pub struct Refinement<C> {
    pub row: KnobRow,
    pub quad: Quadrilateral,
    pub warped: C,
    pub width: u32,
    pub height: u32,
    pub crop: RefinedCrop,
}

impl RefineWarp {
    /// An attempt may get to the quadrilateral so.
    pub open spec fn may_begin<C>(before: StateView, s: Refinement<C>) -> bool {
        &&& is_row_choice(before.knob_search is Some, before.features, Ok(s.row))
        &&& is_quadrilateral(s.row, s.quad)
    }

    /// An attempt may get to the warped image so.
    pub open spec fn may_warp<C, E, W: Fn(&Quadrilateral) -> Result<Option<(C, u32, u32)>, E>>(
        before: StateView,
        warp: W,
        s: Refinement<C>,
    ) -> bool {
        &&& Self::may_begin(before, s)
        &&& call_ensures(warp, (&s.quad,), Ok(Some((s.warped, s.width, s.height))))
    }

    /// An attempt may get to the part that is kept so.
    pub open spec fn may_crop<C, E, W: Fn(&Quadrilateral) -> Result<Option<(C, u32, u32)>, E>>(
        before: StateView,
        warp: W,
        s: Refinement<C>,
    ) -> bool {
        &&& Self::may_warp(before, warp, s)
        &&& is_refined_crop(s.row, s.width as int, s.height as int, Ok(s.crop))
    }

    /// An attempt may come to this end without success.
    pub open spec fn may_stop<C, E, W: Fn(&Quadrilateral) -> Result<Option<(C, u32, u32)>, E>>(
        before: StateView,
        warp: W,
        outcome: StageOutcome,
    ) -> bool {
        ||| is_row_choice(before.knob_search is Some, before.features, Err(outcome))
        ||| is_retry(outcome, "perspective transform computation failed"@) && exists|
            row: KnobRow,
            quad: Quadrilateral,
        |
            #![trigger is_quadrilateral(row, quad)]
            is_row_choice(before.knob_search is Some, before.features, Ok(row))
                && is_quadrilateral(row, quad) && call_ensures(warp, (&quad,), Ok(None))
        ||| exists|s: Refinement<C>|
            #![trigger Self::may_warp(before, warp, s)]
            Self::may_warp(before, warp, s) && is_refined_crop(
                s.row,
                s.width as int,
                s.height as int,
                Err(outcome),
            )
    }

    /// An attempt may succeed with this search area and this image.
    pub open spec fn may_succeed<
        I,
        C,
        E,
        W: Fn(&Quadrilateral) -> Result<Option<(C, u32, u32)>, E>,
        K: Fn(&C, &RefinedCrop) -> Result<I, E>,
    >(
        before: StateView,
        warp: W,
        cut: K,
        search: Option<KnobSearchArea>,
        image: I,
    ) -> bool {
        exists|s: Refinement<C>|
            #![trigger Self::may_crop(before, warp, s)]
            Self::may_crop(before, warp, s) && call_ensures(cut, (&s.warped, &s.crop), Ok(image))
                && search == area_in_crop(before.knob_search, s.crop)
    }

    /// An attempt may fail with this error: that of the warp or that of the cut.
    pub open spec fn may_fail<
        I,
        C,
        E,
        W: Fn(&Quadrilateral) -> Result<Option<(C, u32, u32)>, E>,
        K: Fn(&C, &RefinedCrop) -> Result<I, E>,
    >(before: StateView, warp: W, cut: K, error: E) -> bool {
        ||| exists|row: KnobRow, quad: Quadrilateral|
            #![trigger is_quadrilateral(row, quad)]
            is_row_choice(before.knob_search is Some, before.features, Ok(row))
                && is_quadrilateral(row, quad) && call_ensures(warp, (&quad,), Err(error))
        ||| exists|s: Refinement<C>|
            #![trigger Self::may_crop(before, warp, s)]
            Self::may_crop(before, warp, s) && call_ensures(cut, (&s.warped, &s.crop), Err(error))
    }

    /// An attempt of the stage. `warp` gives the image, warped as the quadrilateral says, with its
    /// size, or nothing where there is no such warp; `cut` gives a part of it. A failed attempt
    /// leaves the state and the image as they were; one that succeeds changes the search area
    /// alone.
    pub fn run<
        I,
        C,
        E,
        W: Fn(&Quadrilateral) -> Result<Option<(C, u32, u32)>, E>,
        K: Fn(&C, &RefinedCrop) -> Result<I, E>,
    >(&self, state: &mut PipelineState, dst: &mut I, warp: &W, cut: &K) -> (r: Result<
        (StageOutcome, ImageOutput),
        E,
    >)
        requires
            forall|quad: &Quadrilateral| #[trigger] call_requires(*warp, (quad,)),
            forall|warped: &C, crop: &RefinedCrop| #[trigger] call_requires(*cut, (warped, crop)),
        ensures
            ({
                let before = old(state)@;
                let after = final(state)@;
                match r {
                    Ok((outcome, output)) => match outcome {
                        StageOutcome::Success => {
                            &&& output is Transformed
                            &&& Self::may_succeed(
                                before,
                                *warp,
                                *cut,
                                after.knob_search,
                                *final(dst),
                            )
                            &&& after == (StateView { knob_search: after.knob_search, ..before })
                        },
                        _ => {
                            &&& output is Passthrough
                            &&& Self::may_stop(before, *warp, outcome)
                            &&& after == before
                            &&& *final(dst) == *old(dst)
                        },
                    },
                    Err(e) => {
                        &&& Self::may_fail(before, *warp, *cut, e)
                        &&& after == before
                        &&& *final(dst) == *old(dst)
                    },
                }
            }),
    {
        let row: KnobRow = match find_row(state.knob_search.is_some(), &state.features) {
            Ok(row) => row,
            Err(outcome) => return Ok((outcome, ImageOutput::Passthrough)),
        };
        let quad: Quadrilateral = quadrilateral(&row);
        let (warped, width, height): (C, u32, u32) = match warp(&quad) {
            Ok(Some(found)) => found,
            Ok(None) => return Ok((transform_failed(), ImageOutput::Passthrough)),
            Err(e) => return Err(e),
        };
        let ghost mut s: Refinement<C> = Refinement {
            row,
            quad,
            warped,
            width,
            height,
            crop: RefinedCrop { top: 0, width: 0, height: 0 },
        };
        assert(Self::may_warp(old(state)@, *warp, s));
        let crop: RefinedCrop = match refined_crop(&row, width, height) {
            Ok(crop) => crop,
            Err(outcome) => return Ok((outcome, ImageOutput::Passthrough)),
        };
        proof {
            s = Refinement { crop, ..s };
        }
        assert(Self::may_warp(old(state)@, *warp, s));
        assert(Self::may_crop(old(state)@, *warp, s));
        match cut(&warped, &crop) {
            Ok(image) => *dst = image,
            Err(e) => return Err(e),
        }
        note_crop(&mut state.knob_search, &crop);
        Ok((StageOutcome::Success, ImageOutput::Transformed))
    }
}


/// The row reaches from the knob farthest to the left to the one farthest to the right. It has the
/// middle radius, the middle height and the least height of all its knobs, whatever their order.
pub proof fn rows_reach_from_the_first_knob_to_the_last(knobs: Seq<CircleFeature>, i: int)
    requires
        0 <= i < knobs.len(),
        knobs.len() <= usize::MAX,
    ensures
        ({
            let row = row_of(knobs);
            &&& knobs.contains(row.first) && knobs.contains(row.last)
            &&& row.first.center_x <= knobs[i].center_x <= row.last.center_x
            &&& row.min_y <= knobs[i].center_y
            &&& exists|j: int| 0 <= j < knobs.len() && (#[trigger] knobs[j]).center_y == row.min_y
            &&& exists|j: int| 0 <= j < knobs.len() && (#[trigger] knobs[j]).center_y == row.ideal_y
            &&& row.median_r == median(knobs.map_values(|k: CircleFeature| k.radius))
            &&& row.ideal_y == median(left_to_right(knobs).map_values(|k: CircleFeature| k.center_y))
        }),
{
    let keys = x_keys(knobs);
    let p = ascending_order(keys);
    let sorted = left_to_right(knobs);
    crate::order::ordered_items_are_the_items(knobs, keys);
    let n = sorted.len() as int;
    let k = choose|k: int| 0 <= k < sorted.len() && sorted[k] == knobs[i];
    assert(knobs.contains(sorted[0]) && knobs.contains(sorted[n - 1]));
    assert(sorted[k] == knobs[p[k] as int]);
    assert(keys[p[0] as int] <= keys[p[k] as int] <= keys[p[n - 1] as int]);
    assert(sorted[0] == knobs[p[0] as int] && sorted[n - 1] == knobs[p[n - 1] as int]);
    let ys = knob_ys(sorted);
    crate::order::least_values_are_least(ys);
    crate::order::medians_lie_in_the_middle(ys);
    assert(ys[k] == knobs[i].center_y);
    let a = choose|a: int| 0 <= a < ys.len() && ys[a] == least(ys);
    assert(sorted[a] == knobs[p[a] as int]);
    assert(knobs[p[a] as int].center_y == row_of(knobs).min_y);
    let b = choose|b: int| 0 <= b < ys.len() && ys[b] == median(ys);
    assert(sorted[b] == knobs[p[b] as int]);
    assert(knobs[p[b] as int].center_y == row_of(knobs).ideal_y);
    assert(ys =~= sorted.map_values(|k: CircleFeature| k.center_y));
    assert(knob_radii(knobs) =~= knobs.map_values(|k: CircleFeature| k.radius));
}

/// The first and the last knob go to the middle height, and points three radii below them go with
/// them; all stay in their columns.
pub proof fn rows_are_levelled(row: KnobRow, q: Quadrilateral)
    requires
        is_quadrilateral(row, q),
        abs(row.first.center_y as int) <= 0xffff_ffff_ffff,
        abs(row.last.center_y as int) <= 0xffff_ffff_ffff,
        abs(row.ideal_y as int) <= 0xffff_ffff_ffff,
        abs(row.median_r as int) <= 0xffff_ffff_ffff,
    ensures
        q.src@.len() == 4,
        q.dst@.len() == 4,
        forall|i: int| 0 <= i < 4 ==> (#[trigger] q.src@[i]).x == q.dst@[i].x,
        q.src@[0].x == row.first.center_x && q.src@[0].y == row.first.center_y,
        q.src@[1].x == row.last.center_x && q.src@[1].y == row.last.center_y,
        q.src@[2].x == q.src@[1].x && q.src@[3].x == q.src@[0].x,
        q.dst@[0].y == row.ideal_y && q.dst@[1].y == row.ideal_y,
        q.src@[3].y - q.src@[0].y == 3 * row.median_r,
        q.src@[2].y - q.src@[1].y == 3 * row.median_r,
        q.dst@[3].y - q.dst@[0].y == 3 * row.median_r,
        q.dst@[2].y - q.dst@[1].y == 3 * row.median_r,
{
}

/// What is cut out reaches from three radii above the highest knob to three below the middle height,
/// and from the left edge to three radii right of the last knob, as far as the image goes. It is
/// refused exactly if it is narrower than 50 pixels or lower than 20.
pub proof fn crops_reach_three_radii_around_the_row(
    row: KnobRow,
    image_width: int,
    image_height: int,
    r: Result<RefinedCrop, StageOutcome>,
)
    requires
        is_refined_crop(row, image_width, image_height, r),
        abs(row.min_y as int) <= 0xffff_ffff_ffff,
        abs(row.median_r as int) <= 0xffff_ffff_ffff,
    ensures
        ({
            let reach = 3 * row.median_r;
            let top = if row.min_y > reach {
                row.min_y - reach
            } else {
                0
            };
            let bottom = if row.ideal_y + reach < image_height * 1_000_000 {
                row.ideal_y + reach
            } else {
                image_height * 1_000_000
            };
            let right = if row.last.center_x + reach < image_width * 1_000_000 {
                row.last.center_x + reach
            } else {
                image_width * 1_000_000
            };
            match r {
                Ok(c) => {
                    &&& c.top == top
                    &&& c.width == pixel(right) && c.width >= 50
                    &&& c.height == pixel(bottom - top) && c.height >= 20
                },
                Err(o) => {
                    &&& o is Retry
                    &&& pixel(right) < 50 || pixel(bottom - top) < 20
                },
            }
        }),
{
}


/// In what is cut out the search area begins at its left edge and as far down as it does; nothing
/// else of the area changes.
pub proof fn search_areas_follow_the_crop(ks: KnobSearchArea, crop: RefinedCrop)
    ensures
        area_in_crop(None, crop) is None,
        area_in_crop(Some(ks), crop) matches Some(a) && a.y_min == crop.top && a.x_min == 0 && a == (
        KnobSearchArea { y_min: a.y_min, x_min: a.x_min, ..ks }),
{
}


/// A row is made of all the knobs where there are four or more; with fewer, or without a search area
/// or features, the stage gives up.
pub proof fn rows_need_four_knobs(
    search_known: bool,
    features: Option<FeaturesView>,
    r: Result<KnobRow, StageOutcome>,
)
    requires
        is_row_choice(search_known, features, r),
    ensures
        r is Ok <==> search_known && (features matches Some(f) && f.knobs.len() > 3),
        r matches Ok(row) ==> row == row_of(features->Some_0.knobs),
        r matches Err(o) ==> o is Exhausted,
{
}

} // verus!
