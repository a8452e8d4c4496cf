//! Finding the top right corner of the oven panel: where the chrome bar above the knobs meets
//! the wall beside them.

use vstd::prelude::*;
use vstd::string::*;

use super::stage::{
    is_exhausted, is_retry, DetectedFeatures, FeaturesView, KnobSearchArea, PipelineState,
    StageDescriptor, StageOutcome, StateView,
};
use super::util::{collect_radii, collect_xs, collect_ys, knob_radii, knob_xs, knob_ys};
use super::ImageOutput;
use crate::draw::{bgr, drawing, Color, Shape, ShapeView};
use crate::fixed::{abs, floor_div, max, min, pixel, to_pixel};
use crate::order::{find_last_greatest, find_median, last_greatest, median};
use crate::text::{push_signed, signed_decimal};
use crate::wide::Integer;

verus! {

/// The attempts of the stage.
pub const MAX_RETRIES: u32 = 5;

/// What the stage says of itself.
pub fn descriptor() -> (r: StageDescriptor)
    ensures
        r.name@ == "FindCorner"@,
        r.label@ == "S10:FindCorner"@,
        r.fallback matches Some(f) && f@ == "FindFeatures"@,
{
    StageDescriptor { name: "FindCorner", label: "S10:FindCorner", fallback: Some("FindFeatures") }
}

/// The rows above the knobs in which the chrome bar is looked for, with what is known of the
/// row of knobs.
#[derive(Debug, Clone, Copy, PartialEq, Eq, Structural)]
pub struct BarBand {
    pub top: i32,
    pub bottom: i32,
    pub median_y: i64,
    pub median_r: i64,
    pub rightmost_x: i64,
}

/// The part of the image in which the wall is looked for.
#[derive(Debug, Clone, Copy, PartialEq, Eq, Structural)]
pub struct WallBand {
    pub left: i32,
    pub right: i32,
    pub top: i32,
    pub bottom: i32,
    pub bar_y: i32,
}

/// The sum of the steepness of the first `width` entries of row `y`.
pub open spec fn row_sum(gradients: Seq<i16>, width: int, y: int, upto: int) -> int
    decreases upto,
{
    if upto <= 0 {
        0
    } else {
        row_sum(gradients, width, y, upto - 1) + abs(gradients[y * width + upto - 1] as int)
    }
}

/// The steepness of each row.
pub open spec fn row_profile(gradients: Seq<i16>, width: int, rows: int) -> Seq<i64> {
    Seq::new(rows as nat, |y: int| row_sum(gradients, width, y, width) as i64)
}

/// The rows in which an attempt decides to look for the chrome bar: from three radii above the
/// knobs to half a radius above them.
pub open spec fn is_bar_plan(
    features: Option<FeaturesView>,
    r: Result<BarBand, StageOutcome>,
) -> bool {
    match features {
        None => r matches Err(o) && is_exhausted(o, "no features from S8"@),
        Some(f) => if f.knobs.len() == 0 {
            r matches Err(o) && is_exhausted(o, "no knobs detected"@)
        } else {
            let y = median(knob_ys(f.knobs)) as int;
            let radius = median(knob_radii(f.knobs)) as int;
            let xs = knob_xs(f.knobs);
            let top = pixel(max(y - 3 * radius, 0));
            let bottom = pixel(max((2 * y - radius) / 2, 0));
            if bottom <= top {
                r matches Err(o) && is_retry(o, "bar search band too narrow"@)
            } else {
                r == Ok::<BarBand, StageOutcome>(
                    BarBand {
                        top: top as i32,
                        bottom: bottom as i32,
                        median_y: y as i64,
                        median_r: radius as i64,
                        rightmost_x: xs[last_greatest(xs)],
                    },
                )
            }
        },
    }
}

/// The rows to search for the chrome bar.
pub fn plan_bar(features: &Option<DetectedFeatures>) -> (r: Result<BarBand, StageOutcome>)
    ensures
        is_bar_plan(
            match *features {
                Some(f) => Some(f@),
                None => None,
            },
            r,
        ),
        r matches Ok(b) ==> 0 <= b.top < b.bottom,
{
    let f: &DetectedFeatures = match features {
        None => return Err(StageOutcome::Exhausted(String::from_str("no features from S8"))),
        Some(f) => f,
    };
    if f.knobs.len() == 0 {
        return Err(StageOutcome::Exhausted(String::from_str("no knobs detected")));
    }
    let xs: Vec<i64> = collect_xs(&f.knobs);
    let ys: Vec<i64> = collect_ys(&f.knobs);
    let rs: Vec<i64> = collect_radii(&f.knobs);
    let y: i64 = find_median(&ys);
    let radius: i64 = find_median(&rs);
    let at: usize = find_last_greatest(&xs);
    let zero: Integer = Integer::new(0);
    let top: i32 = Integer::new(y as i128 - radius as i128 * 3).at_least(&zero).to_pixel();
    let half: i128 = floor_div(2 * y as i128 - radius as i128, 2);
    let bottom: i32 = Integer::new(half).at_least(&zero).to_pixel();
    if bottom <= top {
        return Err(StageOutcome::Retry(String::from_str("bar search band too narrow")));
    }
    Ok(BarBand { top, bottom, median_y: y, median_r: radius, rightmost_x: xs[at] })
}

/// The row with the strongest horizontal edge, the last of equally strong ones. The gradients
/// are given row by row.
pub fn strongest_row(gradients: &Vec<i16>, width: u32, rows: u32) -> (r: usize)
    requires
        gradients.len() == width * rows,
        rows > 0,
    ensures
        r == last_greatest(row_profile(gradients@, width as int, rows as int)),
        r < rows,
{
    let mut profile: Vec<i64> = Vec::new();
    let mut y: u32 = 0;
    while y < rows
        invariant
            gradients.len() == width * rows,
            y <= rows,
            profile.len() == y,
            forall|i: int|
                0 <= i < y ==> #[trigger] profile[i] == row_sum(
                    gradients@,
                    width as int,
                    i,
                    width as int,
                ),
        decreases rows - y,
    {
        let mut sum: i64 = 0;
        let mut x: u32 = 0;
        while x < width
            invariant
                gradients.len() == width * rows,
                y < rows,
                x <= width,
                sum == row_sum(gradients@, width as int, y as int, x as int),
                0 <= sum <= 32768 * x,
            decreases width - x,
        {
            proof {
                assert(y * width + x < width * rows) by (nonlinear_arith)
                    requires
                        0 <= y < rows,
                        0 <= x < width,
                ;
                assert(0 <= y * width) by (nonlinear_arith);
            }
            let g: i64 = gradients[y as usize * width as usize + x as usize] as i64;
            let steep: i64 = if g < 0 {
                -g
            } else {
                g
            };
            sum = sum + steep;
            x = x + 1;
        }
        profile.push(sum);
        y = y + 1;
    }
    assert(profile@ =~= row_profile(gradients@, width as int, rows as int));
    find_last_greatest(&profile)
}

/// Where an attempt decides to look for the wall: from one to five radii to the right of the last
/// knob, and from a radius above the bar, which was found in row `bar_row` of its band, to a
/// radius below the knobs.
pub open spec fn is_wall_plan(
    band: BarBand,
    bar_row: int,
    image_width: int,
    image_height: int,
    r: Result<WallBand, StageOutcome>,
) -> bool {
    let left = pixel(min(band.rightmost_x + band.median_r, image_width * 1_000_000));
    let right = pixel(min(band.rightmost_x + 5 * band.median_r, image_width * 1_000_000));
    let bar_y = band.top + bar_row;
    if right <= left + 5 {
        r matches Err(o) && is_retry(o, "wall search band too narrow"@)
    } else {
        r == Ok::<WallBand, StageOutcome>(
            WallBand {
                left: left as i32,
                right: right as i32,
                top: pixel(max(bar_y * 1_000_000 - band.median_r, 0)) as i32,
                bottom: pixel(min(band.median_y + band.median_r, image_height * 1_000_000)) as i32,
                bar_y: bar_y as i32,
            },
        )
    }
}

/// Where to look for the wall.
pub fn plan_wall(band: &BarBand, bar_row: usize, image_width: u32, image_height: u32) -> (r: Result<
    WallBand,
    StageOutcome,
>)
    requires
        0 <= band.top,
        bar_row < band.bottom - band.top,
    ensures
        is_wall_plan(*band, bar_row as int, image_width as int, image_height as int, r),
        r matches Ok(w) ==> w.left < w.right && 0 <= w.top,
{
    let (x, y, radius): (i128, i128, i128) = (
        band.rightmost_x as i128,
        band.median_y as i128,
        band.median_r as i128,
    );
    let w: Integer = Integer::new(image_width as i128 * 1_000_000);
    let h: Integer = Integer::new(image_height as i128 * 1_000_000);
    let left: i32 = Integer::new(x + radius).at_most(&w).to_pixel();
    let right: i32 = Integer::new(x + radius * 5).at_most(&w).to_pixel();
    if right as i64 <= left as i64 + 5 {
        return Err(StageOutcome::Retry(String::from_str("wall search band too narrow")));
    }
    let bar_y: i64 = band.top as i64 + bar_row as i64;
    let top: i32 = Integer::new(bar_y as i128 * 1_000_000 - radius).at_least(
        &Integer::new(0),
    ).to_pixel();
    let bottom: i32 = Integer::new(y + radius).at_most(&h).to_pixel();
    Ok(WallBand { left, right, top, bottom, bar_y: bar_y as i32 })
}

/// The column with the strongest step from dark to light, the last of equally strong ones. The
/// gradients are given row by row.
pub fn strongest_column(gradients: &Vec<i16>, width: u32, rows: u32) -> (r: usize)
    requires
        gradients.len() == width * rows,
        width > 0,
    ensures
        r == last_greatest(
            super::find_verticals::profile(gradients@, width as int, rows as int),
        ),
        r < width,
{
    let profile: Vec<i64> = super::find_verticals::column_profile(gradients, width, rows);
    find_last_greatest(&profile)
}

/// The search area with the corner that was found in column `wall_col` of the wall's band.
pub open spec fn with_corner(
    search: Option<KnobSearchArea>,
    wall: WallBand,
    wall_col: int,
) -> Option<KnobSearchArea> {
    match search {
        Some(ks) => Some(
            KnobSearchArea {
                corner_x: Some(((wall.left + wall_col) * 1_000_000) as i64),
                corner_y: Some((wall.bar_y * 1_000_000) as i64),
                ..ks
            },
        ),
        None => None,
    }
}

/// Notes the corner that was found in column `wall_col` of the wall's band.
pub fn note_corner(search: &mut Option<KnobSearchArea>, wall: &WallBand, wall_col: usize)
    requires
        wall_col <= 0xffff_ffff,
    ensures
        *final(search) == with_corner(*old(search), *wall, wall_col as int),
{
    if let Some(ks) = *search {
        let mut noted: KnobSearchArea = ks;
        noted.corner_x = Some((wall.left as i64 + wall_col as i64) * 1_000_000);
        noted.corner_y = Some(wall.bar_y as i64 * 1_000_000);
        *search = Some(noted);
    }
}

/// How many rows the part has in which the wall is looked for.
pub open spec fn wall_rows(w: WallBand) -> int {
    max(w.bottom - w.top, 0)
}

/// The stage that finds the corner.
#[derive(Debug, Clone, Copy, PartialEq, Eq, Structural)]
pub struct FindCorner;

/// What an attempt sees on its way: the rows of the bar, the image and its gradients there, the
/// part with the wall, and the gradients there.
pub struct CornerSearch<C> {
    pub band: BarBand,
    pub image: C,
    pub bar: Vec<i16>,
    pub wall: WallBand,
    pub columns: Vec<i16>,
}

impl<C> CornerSearch<C> {
    /// The row of its band in which the bar is.
    pub open spec fn bar_row(self, width: int) -> int {
        last_greatest(row_profile(self.bar@, width, self.band.bottom - self.band.top))
    }

    /// The column of its part in which the wall is.
    pub open spec fn wall_col(self) -> int {
        last_greatest(
            super::find_verticals::profile(
                self.columns@,
                self.wall.right - self.wall.left,
                wall_rows(self.wall),
            ),
        )
    }
}

impl FindCorner {
    /// An attempt may get to the gradients of the bar so.
    pub open spec fn may_begin<C, E, B: Fn(&BarBand) -> Result<(C, Vec<i16>), E>>(
        before: StateView,
        bar: B,
        s: CornerSearch<C>,
    ) -> bool {
        &&& is_bar_plan(before.features, Ok(s.band))
        &&& call_ensures(bar, (&s.band,), Ok((s.image, s.bar)))
    }

    /// An attempt may decide so where to look for the wall.
    pub open spec fn may_plan<C>(
        s: CornerSearch<C>,
        width: int,
        height: int,
        r: Result<WallBand, StageOutcome>,
    ) -> bool {
        is_wall_plan(s.band, s.bar_row(width), width, height, r)
    }

    /// An attempt may come to this end without success.
    pub open spec fn may_stop<C, E, B: Fn(&BarBand) -> Result<(C, Vec<i16>), E>>(
        before: StateView,
        width: int,
        height: int,
        bar: B,
        outcome: StageOutcome,
    ) -> bool {
        ||| is_bar_plan(before.features, Err(outcome))
        ||| exists|s: CornerSearch<C>|
            #![trigger Self::may_begin(before, bar, s)]
            Self::may_begin(before, bar, s) && Self::may_plan(s, width, height, Err(outcome))
    }

    /// An attempt may succeed with this search area.
    pub open spec fn may_succeed<
        C,
        E,
        B: Fn(&BarBand) -> Result<(C, Vec<i16>), E>,
        W: Fn(&C, &WallBand) -> Result<Vec<i16>, E>,
    >(
        before: StateView,
        width: int,
        height: int,
        bar: B,
        wall: W,
        search: Option<KnobSearchArea>,
    ) -> bool {
        exists|s: CornerSearch<C>|
            #![trigger Self::may_begin(before, bar, s)]
            Self::may_begin(before, bar, s) && Self::may_plan(s, width, height, Ok(s.wall))
                && call_ensures(wall, (&s.image, &s.wall), Ok(s.columns)) && search == with_corner(
                before.knob_search,
                s.wall,
                s.wall_col(),
            )
    }

    /// An attempt may fail with this error: that of one of the two gradients.
    pub open spec fn may_fail<
        C,
        E,
        B: Fn(&BarBand) -> Result<(C, Vec<i16>), E>,
        W: Fn(&C, &WallBand) -> Result<Vec<i16>, E>,
    >(before: StateView, width: int, height: int, bar: B, wall: W, error: E) -> bool {
        ||| exists|band: BarBand|
            #![trigger call_ensures(bar, (&band,), Err(error))]
            is_bar_plan(before.features, Ok(band)) && call_ensures(bar, (&band,), Err(error))
        ||| exists|s: CornerSearch<C>|
            #![trigger Self::may_begin(before, bar, s)]
            Self::may_begin(before, bar, s) && Self::may_plan(s, width, height, Ok(s.wall))
                && call_ensures(wall, (&s.image, &s.wall), Err(error))
    }

    /// An attempt of the stage on an image of this size. `bar` gives the image and its vertical
    /// gradients in the rows of the bar, `wall` the horizontal ones in the part with the wall. A
    /// failed attempt leaves the state as it was; one that succeeds changes the search area
    /// alone. No attempt changes the image.
    pub fn run<
        C,
        E,
        B: Fn(&BarBand) -> Result<(C, Vec<i16>), E>,
        W: Fn(&C, &WallBand) -> Result<Vec<i16>, E>,
    >(&self, state: &mut PipelineState, width: u32, height: u32, bar: &B, wall: &W) -> (r: Result<
        (StageOutcome, ImageOutput),
        E,
    >)
        requires
            forall|band: &BarBand| #[trigger] call_requires(*bar, (band,)),
            forall|band: &BarBand, image: C, gradients: Vec<i16>| #[trigger]
                call_ensures(*bar, (band,), Ok((image, gradients))) ==> gradients.len() == width * (
                band.bottom - band.top),
            forall|image: &C, part: &WallBand| #[trigger] call_requires(*wall, (image, part)),
            forall|image: &C, part: &WallBand, gradients: Vec<i16>| #[trigger]
                call_ensures(*wall, (image, part), Ok(gradients)) ==> gradients.len() == (part.right
                    - part.left) * wall_rows(*part),
        ensures
            ({
                let before = old(state)@;
                let after = final(state)@;
                match r {
                    Ok((outcome, output)) => {
                        &&& output is Passthrough
                        &&& match outcome {
                            StageOutcome::Success => {
                                &&& Self::may_succeed(
                                    before,
                                    width as int,
                                    height as int,
                                    *bar,
                                    *wall,
                                    after.knob_search,
                                )
                                &&& after == (StateView {
                                    knob_search: after.knob_search,
                                    ..before
                                })
                            },
                            _ => {
                                &&& Self::may_stop(
                                    before,
                                    width as int,
                                    height as int,
                                    *bar,
                                    outcome,
                                )
                                &&& after == before
                            },
                        }
                    },
                    Err(e) => {
                        &&& Self::may_fail(before, width as int, height as int, *bar, *wall, e)
                        &&& after == before
                    },
                }
            }),
    {
        let band: BarBand = match plan_bar(&state.features) {
            Ok(band) => band,
            Err(outcome) => return Ok((outcome, ImageOutput::Passthrough)),
        };
        let (image, gradients): (C, Vec<i16>) = match bar(&band) {
            Ok(found) => found,
            Err(e) => return Err(e),
        };
        let ghost mut s: CornerSearch<C> = CornerSearch {
            band,
            image,
            bar: gradients,
            wall: WallBand { left: 0, right: 0, top: 0, bottom: 0, bar_y: 0 },
            columns: gradients,
        };
        assert(Self::may_begin(old(state)@, *bar, s));
        let bar_row: usize = strongest_row(&gradients, width, (band.bottom - band.top) as u32);
        let part: WallBand = match plan_wall(&band, bar_row, width, height) {
            Ok(part) => part,
            Err(outcome) => {
                assert(Self::may_plan(s, width as int, height as int, Err(outcome)));
                return Ok((outcome, ImageOutput::Passthrough));
            },
        };
        proof {
            s = CornerSearch { wall: part, ..s };
        }
        assert(Self::may_begin(old(state)@, *bar, s));
        assert(Self::may_plan(s, width as int, height as int, Ok(part)));
        let columns: Vec<i16> = match wall(&image, &part) {
            Ok(columns) => columns,
            Err(e) => return Err(e),
        };
        proof {
            s = CornerSearch { columns, ..s };
        }
        assert(Self::may_begin(old(state)@, *bar, s));
        assert(Self::may_plan(s, width as int, height as int, Ok(part)));
        let rows: u32 = if part.bottom > part.top {
            (part.bottom - part.top) as u32
        } else {
            0
        };
        let column: usize = strongest_column(
            &columns,
            (part.right as i64 - part.left as i64) as u32,
            rows,
        );
        assert(column == s.wall_col());
        note_corner(&mut state.knob_search, &part, column);
        Ok((StageOutcome::Success, ImageOutput::Passthrough))
    }
}

/// A line of the red cross.
pub open spec fn cross_line(x1: int, y1: int, x2: int, y2: int) -> ShapeView {
    ShapeView::Line { x1, y1, x2, y2, color: bgr(0, 0, 255), thickness: 2 }
}

/// The cross at the corner, if there is one, has pixels to lie on.
pub open spec fn cross_fits(search: Option<KnobSearchArea>) -> bool {
    search matches Some(ks) ==> (ks.corner_x matches Some(cx) ==> (ks.corner_y matches Some(cy) ==> {
        &&& i32::MIN <= pixel(cx as int) - 20 && pixel(cx as int) + 20 <= i32::MAX
        &&& i32::MIN <= pixel(cy as int) - 20 && pixel(cy as int) + 20 <= i32::MAX
    }))
}

/// Whether the cross at the corner, if there is one, has pixels to lie on.
pub fn can_cross(search: &Option<KnobSearchArea>) -> (r: bool)
    ensures
        r == cross_fits(*search),
{
    if let Some(ks) = search {
        if let (Some(cx), Some(cy)) = (ks.corner_x, ks.corner_y) {
            let (x, y): (i64, i64) = (to_pixel(cx) as i64, to_pixel(cy) as i64);
            return -0x8000_0000 <= x - 20 && x + 20 <= 0x7fff_ffff && -0x8000_0000 <= y - 20 && y
                + 20 <= 0x7fff_ffff;
        }
    }
    true
}

/// The debug picture of the corner, if there is one: a red cross.
pub fn debug_shapes(search: &Option<KnobSearchArea>) -> (r: Option<(String, Vec<Shape>)>)
    requires
        cross_fits(*search),
    ensures
        match *search {
            Some(ks) => match (ks.corner_x, ks.corner_y) {
                (Some(cx), Some(cy)) => {
                    let x = pixel(cx as int);
                    let y = pixel(cy as int);
                    &&& r matches Some(d)
                    &&& d.0@ == "S10:FindCorner_"@ + signed_decimal(x) + "_"@ + signed_decimal(y)
                    &&& drawing(d.1@) == seq![
                        cross_line(x - 20, y, x + 20, y),
                        cross_line(x, y - 20, x, y + 20),
                    ]
                },
                _ => r is None,
            },
            None => r is None,
        },
{
    match search {
        None => None,
        Some(ks) => match (ks.corner_x, ks.corner_y) {
            (Some(cx), Some(cy)) => {
                let x: i32 = to_pixel(cx);
                let y: i32 = to_pixel(cy);
                let red: Color = Color { blue: 0, green: 0, red: 255 };
                let mut label: String = String::from_str("S10:FindCorner_");
                push_signed(&mut label, x as i64);
                label.append("_");
                push_signed(&mut label, y as i64);
                let mut shapes: Vec<Shape> = Vec::new();
                shapes.push(
                    Shape::Line { x1: x - 20, y1: y, x2: x + 20, y2: y, color: red, thickness: 2 },
                );
                shapes.push(
                    Shape::Line { x1: x, y1: y - 20, x2: x, y2: y + 20, color: red, thickness: 2 },
                );
                assert(drawing(shapes@) =~= seq![
                    cross_line(x - 20, y as int, x + 20, y as int),
                    cross_line(x as int, y - 20, x as int, y + 20),
                ]);
                Some((label, shapes))
            },
            _ => None,
        },
    }
}


/// The strength of a row is the sum of the sizes of all its gradients.
pub proof fn rows_add_up_gradients(gradients: Seq<i16>, width: int, y: int, upto: int)
    requires
        upto >= 0,
    ensures
        row_sum(gradients, width, y, upto) == crate::stats::sum(
            Seq::new(
                upto as nat,
                |x: int|
                    if gradients[y * width + x] < 0 {
                        (-gradients[y * width + x]) as i128
                    } else {
                        gradients[y * width + x] as i128
                    },
            ),
        ),
    decreases upto,
{
    let f = |x: int|
        if gradients[y * width + x] < 0 {
            (-gradients[y * width + x]) as i128
        } else {
            gradients[y * width + x] as i128
        };
    if upto > 0 {
        rows_add_up_gradients(gradients, width, y, upto - 1);
        assert(Seq::new(upto as nat, f).drop_last() =~= Seq::new((upto - 1) as nat, f));
        assert(y * width + upto - 1 == y * width + (upto - 1));
    }
}

/// The bar is sought above the knobs, from three radii to half a radius above their middle height;
/// there is no such band exactly if it has no row. The wall is sought from the knob farthest to the
/// right.
pub proof fn bars_are_sought_above_the_knobs(f: FeaturesView, r: Result<BarBand, StageOutcome>)
    requires
        f.knobs.len() > 0,
        is_bar_plan(Some(f), r),
    ensures
        ({
            let y = median(f.knobs.map_values(|k: super::stage::CircleFeature| k.center_y));
            let radius = median(f.knobs.map_values(|k: super::stage::CircleFeature| k.radius));
            let top = if y > 3 * radius {
                pixel(y - 3 * radius)
            } else {
                0
            };
            let bottom = if 2 * y > radius {
                pixel((2 * y - radius) / 2)
            } else {
                0
            };
            match r {
                Ok(b) => {
                    &&& b.median_y == y && b.median_r == radius
                    &&& b.top == top && b.bottom == bottom && top < bottom
                    &&& exists|i: int|
                        0 <= i < f.knobs.len() && (#[trigger] f.knobs[i]).center_x == b.rightmost_x
                    &&& forall|i: int|
                        0 <= i < f.knobs.len() ==> (#[trigger] f.knobs[i]).center_x <= b.rightmost_x
                },
                Err(_) => bottom <= top,
            }
        }),
{
    let xs = knob_xs(f.knobs);
    crate::order::greatest_values_are_greatest(xs);
    assert(knob_ys(f.knobs) =~= f.knobs.map_values(|k: super::stage::CircleFeature| k.center_y));
    assert(knob_radii(f.knobs) =~= f.knobs.map_values(|k: super::stage::CircleFeature| k.radius));
    if r is Ok {
        assert(f.knobs[last_greatest(xs)].center_x == xs[last_greatest(xs)]);
        assert forall|i: int| 0 <= i < f.knobs.len() implies (#[trigger] f.knobs[i]).center_x
            <= r->Ok_0.rightmost_x by {
            assert(xs[i] == f.knobs[i].center_x);
        }
    }
}

/// The wall is sought to the right of the last knob, from one to five radii away and as far as the
/// image goes, from a radius above the bar to a radius below the knobs; there is no such band exactly
/// if it has no more than five columns.
pub proof fn walls_are_sought_right_of_the_knobs(
    band: BarBand,
    bar_row: int,
    image_width: int,
    image_height: int,
    r: Result<WallBand, StageOutcome>,
)
    requires
        is_wall_plan(band, bar_row, image_width, image_height, r),
        0 <= image_width <= i32::MAX,
        0 <= image_height <= i32::MAX,
        0 <= band.top + bar_row <= i32::MAX,
    ensures
        ({
            let left = pixel(
                if band.rightmost_x + band.median_r < image_width * 1_000_000 {
                    band.rightmost_x + band.median_r
                } else {
                    image_width * 1_000_000
                },
            );
            let right = pixel(
                if band.rightmost_x + 5 * band.median_r < image_width * 1_000_000 {
                    band.rightmost_x + 5 * band.median_r
                } else {
                    image_width * 1_000_000
                },
            );
            match r {
                Ok(w) => {
                    &&& w.left == left && w.right == right && right - left > 5
                    &&& w.bar_y == band.top + bar_row
                    &&& w.top == if w.bar_y * 1_000_000 > band.median_r {
                        pixel(w.bar_y * 1_000_000 - band.median_r)
                    } else {
                        0
                    }
                    &&& w.bottom == if band.median_y + band.median_r < image_height * 1_000_000 {
                        pixel(band.median_y + band.median_r)
                    } else {
                        image_height
                    }
                },
                Err(_) => right - left <= 5,
            }
        }),
{
}

/// The corner lies on the bar's row and in the wall's column; nothing else of the search area
/// changes.
pub proof fn corners_lie_on_bar_and_wall(ks: KnobSearchArea, wall: WallBand, wall_col: int)
    requires
        0 <= wall.left,
        0 <= wall_col <= i32::MAX,
    ensures
        ({
            let r = with_corner(Some(ks), wall, wall_col)->Some_0;
            &&& r.corner_x matches Some(x) && x == wall.left * 1_000_000 + wall_col * 1_000_000
            &&& r.corner_y matches Some(y) && y == wall.bar_y * 1_000_000
            &&& r == (KnobSearchArea { corner_x: r.corner_x, corner_y: r.corner_y, ..ks })
        }),
{
}


/// The bar is in the row with the strongest gradients, and the wall in the column whose gradients add
/// up to the most; of equal ones the last counts.
pub proof fn bar_and_wall_are_strongest<C>(s: CornerSearch<C>, width: int, y: int, x: int)
    requires
        0 <= y < s.band.bottom - s.band.top,
        0 <= x < s.wall.right - s.wall.left,
    ensures
        ({
            let rows = row_profile(s.bar@, width, s.band.bottom - s.band.top);
            let columns = super::find_verticals::profile(
                s.columns@,
                s.wall.right - s.wall.left,
                if s.wall.bottom > s.wall.top {
                    s.wall.bottom - s.wall.top
                } else {
                    0
                },
            );
            &&& 0 <= s.bar_row(width) < s.band.bottom - s.band.top
            &&& rows[y] <= rows[s.bar_row(width)]
            &&& y > s.bar_row(width) ==> rows[y] < rows[s.bar_row(width)]
            &&& 0 <= s.wall_col() < s.wall.right - s.wall.left
            &&& columns[x] <= columns[s.wall_col()]
            &&& x > s.wall_col() ==> columns[x] < columns[s.wall_col()]
        }),
{
    crate::order::greatest_values_are_greatest(
        row_profile(s.bar@, width, s.band.bottom - s.band.top),
    );
    crate::order::greatest_values_are_greatest(
        super::find_verticals::profile(
            s.columns@,
            s.wall.right - s.wall.left,
            wall_rows(s.wall),
        ),
    );
}

} // verus!
