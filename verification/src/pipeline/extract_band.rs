//! Cutting the band with the trim lines and the knobs out of the warped image.

use vstd::prelude::*;
use vstd::string::*;

use super::stage::{
    is_exhausted, is_retry, KnobSearchArea, LinePair, PerspectiveCorrection, PipelineState,
    StageDescriptor, StageOutcome, StateView, VerticalPair,
};
use super::ImageOutput;
use super::util::{add_line_distances, line_distances};
use crate::draw::{bgr, drawing, Color, Shape, ShapeView};
use crate::fixed::{abs, min, pixel};
use crate::text::{push_ratio, ratio_decimal};
use crate::wide::Integer;

verus! {

/// The attempts of the stage.
pub const MAX_RETRIES: u32 = 1;

/// What the stage says of itself.
pub fn descriptor() -> (r: StageDescriptor)
    ensures
        r.name@ == "ExtractBand"@,
        r.label@ == "S6:ExtractBand"@,
        r.fallback matches Some(f) && f@ == "Perspective"@,
{
    StageDescriptor { name: "ExtractBand", label: "S6:ExtractBand", fallback: Some("Perspective") }
}

/// The top of the band, in twentieths: the upper trim line lies half a line distance below the top
/// of the image, and the band begins three tenths above it.
pub open spec fn band_top(lines: LinePair) -> int {
    2 * line_distances(lines)
}

/// The bottom of the band, in twentieths: four line distances below the lower trim line, if the
/// image is that high.
pub open spec fn band_bottom(lines: LinePair, height: int) -> int {
    min(55 * line_distances(lines), 20 * (height * 1_000_000))
}

/// The search area before the clock is known.
pub open spec fn fresh_area(top: int, bottom: int) -> KnobSearchArea {
    KnobSearchArea {
        y_min: top as i64,
        y_max: bottom as i64,
        x_min: 0,
        clock_center_x: 0,
        clock_center_y: 0,
        clock_radius: 0,
        corner_x: None,
        corner_y: None,
    }
}

/// The search area of a band beside these lines.
pub open spec fn area_of(lines: LinePair, perspective: PerspectiveCorrection) -> KnobSearchArea {
    fresh_area(
        band_top(lines) / 20,
        band_bottom(lines, perspective.output_height as int) / 20,
    )
}

/// The height of a band beside these lines, in twentieths.
pub open spec fn band_height(lines: LinePair, perspective: PerspectiveCorrection) -> int {
    band_bottom(lines, perspective.output_height as int) - band_top(lines)
}

/// Where an attempt decides that the band lies in the warped image.
pub open spec fn is_band_plan(
    lines: Option<LinePair>,
    verticals: Option<VerticalPair>,
    perspective: Option<PerspectiveCorrection>,
    r: Result<KnobSearchArea, StageOutcome>,
) -> bool {
    match (lines, verticals, perspective) {
        (Some(l), Some(_), Some(p)) => if band_height(l, p) < 20 * 10_000_000 {
            r matches Err(o) && is_retry(
                o,
                "band too narrow: "@ + ratio_decimal(band_height(l, p), 20_000_000, 0) + "px"@,
            )
        } else {
            r == Ok::<KnobSearchArea, StageOutcome>(area_of(l, p))
        },
        _ => r matches Err(o) && is_exhausted(o, "missing lines, verticals, or perspective"@),
    }
}

fn find_ends(lines: &LinePair, perspective: &PerspectiveCorrection) -> (r: (i128, i128))
    ensures
        r.0 == band_top(*lines),
        r.1 == band_bottom(*lines, perspective.output_height as int),
        0 <= r.0 <= 0x4_0000_0000_0000_0000,
        0 <= r.1 <= 20 * (0xffff_ffff * 1_000_000),
{
    let d: i128 = add_line_distances(lines);
    let below: i128 = 55 * d;
    let height: i128 = 20 * (perspective.output_height as i128 * 1_000_000);
    if below < height {
        (2 * d, below)
    } else {
        (2 * d, height)
    }
}

/// Decides where the band lies in the warped image.
pub fn plan_band(
    lines: &Option<LinePair>,
    verticals: &Option<VerticalPair>,
    perspective: &Option<PerspectiveCorrection>,
) -> (r: Result<KnobSearchArea, StageOutcome>)
    ensures
        is_band_plan(*lines, *verticals, *perspective, r),
{
    let (l, p): (&LinePair, &PerspectiveCorrection) = match (lines, verticals, perspective) {
        (Some(l), Some(_), Some(p)) => (l, p),
        _ => {
            return Err(
                StageOutcome::Exhausted(
                    String::from_str("missing lines, verticals, or perspective"),
                ),
            );
        },
    };
    let (top, bottom): (i128, i128) = find_ends(l, p);
    if bottom - top < 200_000_000 {
        let mut s: String = String::from_str("band too narrow: ");
        push_ratio(&mut s, &Integer::new(bottom - top), &Integer::new(20_000_000), 0);
        s.append("px");
        return Err(StageOutcome::Retry(s));
    }
    Ok(
        KnobSearchArea {
            y_min: (top / 20) as i64,
            y_max: (bottom / 20) as i64,
            x_min: 0,
            clock_center_x: 0,
            clock_center_y: 0,
            clock_radius: 0,
            corner_x: None,
            corner_y: None,
        },
    )
}

/// The rows of the warped image that the band takes: the first one, and their number.
pub fn band_rows(lines: &LinePair, perspective: &PerspectiveCorrection) -> (r: (i32, i32))
    ensures
        r.0 == pixel(band_top(*lines) / 20),
        band_height(*lines, *perspective) >= 0 ==> r.1 == pixel(
            band_height(*lines, *perspective) / 20,
        ),
{
    let (top, bottom): (i128, i128) = find_ends(lines, perspective);
    let height: i128 = if bottom < top {
        0
    } else {
        bottom - top
    };
    (Integer::new(top / 20).to_pixel(), Integer::new(height / 20).to_pixel())
}

/// The stage that cuts out the band.
#[derive(Debug, Clone, Copy, PartialEq, Eq, Structural)]
pub struct ExtractBand;

impl ExtractBand {
    /// An attempt of the stage. `cut` gives so many columns of the warped image, from a row on and
    /// so many rows high. A failed attempt leaves the state and the image as they were; one that
    /// succeeds changes the search area alone.
    pub fn run<I, E, C: Fn(u32, i32, i32) -> Result<I, E>>(
        &self,
        state: &mut PipelineState,
        dst: &mut I,
        cut: &C,
    ) -> (r: Result<(StageOutcome, ImageOutput), E>)
        requires
            forall|width: u32, top: i32, rows: i32| #[trigger]
                call_requires(*cut, (width, top, rows)),
        ensures
            ({
                let before = old(state)@;
                let after = final(state)@;
                match r {
                    Ok((outcome, output)) => match outcome {
                        StageOutcome::Success => {
                            &&& output is Transformed
                            &&& after.knob_search matches Some(area) && is_band_plan(
                                before.lines,
                                before.verticals,
                                before.perspective,
                                Ok(area),
                            ) && cuts_band(*cut, before, Ok(*final(dst)))
                            &&& after == (StateView { knob_search: after.knob_search, ..before })
                        },
                        _ => {
                            &&& output is Passthrough
                            &&& is_band_plan(
                                before.lines,
                                before.verticals,
                                before.perspective,
                                Err(outcome),
                            )
                            &&& after == before
                            &&& *final(dst) == *old(dst)
                        },
                    },
                    Err(e) => {
                        &&& after == before
                        &&& *final(dst) == *old(dst)
                        &&& before.lines is Some && before.perspective is Some
                        &&& is_band_plan(
                            before.lines,
                            before.verticals,
                            before.perspective,
                            Ok(area_of(before.lines->0, before.perspective->0)),
                        )
                        &&& cuts_band(*cut, before, Err(e))
                    },
                }
            }),
    {
        let area: KnobSearchArea = match plan_band(
            &state.lines,
            &state.verticals,
            &state.perspective,
        ) {
            Ok(area) => area,
            Err(outcome) => return Ok((outcome, ImageOutput::Passthrough)),
        };
        let (lines, perspective): (LinePair, PerspectiveCorrection) = (
            state.lines.unwrap(),
            state.perspective.unwrap(),
        );
        let (top, rows): (i32, i32) = band_rows(&lines, &perspective);
        match cut(perspective.output_width, top, rows) {
            Ok(image) => {
                assert(cuts_band(*cut, old(state)@, Ok(image)));
                *dst = image;
            },
            Err(e) => {
                assert(cuts_band(*cut, old(state)@, Err(e)));
                return Err(e);
            },
        }
        state.knob_search = Some(area);
        Ok((StageOutcome::Success, ImageOutput::Transformed))
    }
}

/// `cut` may give this for the band: the whole width, from its first row on.
pub open spec fn cuts_band<I, E, C: Fn(u32, i32, i32) -> Result<I, E>>(
    cut: C,
    before: StateView,
    r: Result<I, E>,
) -> bool {
    before.lines matches Some(l) && before.perspective matches Some(p) && call_ensures(
        cut,
        (
            p.output_width,
            pixel(band_top(l) / 20) as i32,
            pixel(band_height(l, p) / 20) as i32,
        ),
        r,
    )
}

/// A green line across the whole width.
pub open spec fn guide(y: int, width: int) -> ShapeView {
    ShapeView::Line { x1: 0, y1: y, x2: width, y2: y, color: bgr(0, 255, 0), thickness: 1 }
}

/// The debug picture of the band: green lines where the trim lines are.
pub fn debug_shapes(lines: &LinePair, area: &KnobSearchArea, width: i32) -> (r: (String, Vec<Shape>))
    ensures
        ({
            let d = line_distances(*lines);
            &&& r.0@ == "S6:ExtractBand"@
            &&& drawing(r.1@) == seq![
                guide(pixel(d / 4 - area.y_min), width as int),
                guide(pixel(3 * d / 4 - area.y_min), width as int),
            ]
        }),
{
    let d: i128 = add_line_distances(lines);
    let start: i128 = area.y_min as i128;
    let top: i32 = Integer::new(d / 4 - start).to_pixel();
    let bottom: i32 = Integer::new(3 * d / 4 - start).to_pixel();
    let green: Color = Color { blue: 0, green: 255, red: 0 };
    let mut shapes: Vec<Shape> = Vec::new();
    shapes.push(Shape::Line { x1: 0, y1: top, x2: width, y2: top, color: green, thickness: 1 });
    shapes.push(
        Shape::Line { x1: 0, y1: bottom, x2: width, y2: bottom, color: green, thickness: 1 },
    );
    assert(drawing(shapes@) =~= seq![
        guide(top as int, width as int),
        guide(bottom as int, width as int),
    ]);
    (String::from_str("S6:ExtractBand"), shapes)
}


/// The band begins a fifth of the mean distance of the lines below the top and ends at five and a
/// half such distances, or with the image where that is less. It is refused exactly if it is less
/// than ten pixels high.
pub proof fn bands_are_measured_by_the_lines(
    lines: LinePair,
    verticals: VerticalPair,
    p: PerspectiveCorrection,
    r: Result<KnobSearchArea, StageOutcome>,
)
    requires
        is_band_plan(Some(lines), Some(verticals), Some(p), r),
        abs(lines.bottom.y1 - lines.top.y1) <= 0xffff_ffff_ffff,
        abs(lines.bottom.y2 - lines.top.y2) <= 0xffff_ffff_ffff,
        p.output_height >= 0,
    ensures
        ({
            let both = abs(lines.bottom.y1 - lines.top.y1) + abs(lines.bottom.y2 - lines.top.y2);
            let limit = p.output_height * 1_000_000;
            match r {
                Ok(a) => {
                    &&& 0 <= both - 10 * a.y_min < 10
                    &&& 11 * both <= 4 * limit ==> 0 <= 11 * both - 4 * a.y_max < 4
                    &&& 11 * both >= 4 * limit ==> a.y_max == limit
                    &&& 20 * limit - 2 * both >= 200_000_000
                    &&& 53 * both >= 200_000_000
                    &&& a.x_min == 0 && a.clock_radius == 0 && a.clock_center_x == 0
                        && a.clock_center_y == 0
                    &&& a.corner_x is None && a.corner_y is None
                },
                Err(o) => {
                    &&& o is Retry
                    &&& 20 * limit - 2 * both < 200_000_000 || 53 * both < 200_000_000
                },
            }
        }),
{
}

} // verus!
