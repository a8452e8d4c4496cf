//! States in which single stages can be run.
//!
//! Each state holds what its stage needs.

use vstd::prelude::*;
use vstd::string::*;

use super::stage::{
    empty_state, CircleFeature, CropRegion, DetectedFeatures, FeaturesView, KnobSearchArea, Line,
    LinePair, PerspectiveCorrection, PipelineState, StateView, TransformMatrix, VerticalPair,
};
use crate::draw::{bgr, drawing, Color, Shape, ShapeView};
use crate::text::same_text;

verus! {

/// The crop of the sample states.
pub open spec fn sample_crop() -> CropRegion {
    CropRegion { x: 100, y: 200, width: 800, height: 300 }
}

/// The reference lines of the sample states.
pub open spec fn sample_lines() -> LinePair {
    LinePair {
        top: Line { x1: 0, y1: 50_000_000, x2: 800_000_000, y2: 48_000_000 },
        bottom: Line { x1: 0, y1: 100_000_000, x2: 800_000_000, y2: 98_000_000 },
        avg_theta: 90_000_000,
    }
}

/// The edges of the sample states.
pub open spec fn sample_verticals() -> VerticalPair {
    VerticalPair {
        left: Line { x1: 10_000_000, y1: 0, x2: 10_000_000, y2: 300_000_000 },
        right: Line { x1: 790_000_000, y1: 0, x2: 790_000_000, y2: 300_000_000 },
    }
}

/// The search area of the sample states, before and after the clock is found.
pub open spec fn sample_search(with_clock: bool) -> KnobSearchArea {
    KnobSearchArea {
        y_min: 10_000_000,
        y_max: 190_000_000,
        x_min: if with_clock {
            80_000_000
        } else {
            0
        },
        clock_center_x: if with_clock {
            50_000_000
        } else {
            0
        },
        clock_center_y: if with_clock {
            100_000_000
        } else {
            0
        },
        clock_radius: if with_clock {
            25_000_000
        } else {
            0
        },
        corner_x: None,
        corner_y: None,
    }
}

/// Ten evenly spaced knobs.
pub open spec fn sample_features() -> FeaturesView {
    FeaturesView {
        clock: CircleFeature { center_x: 50_000_000, center_y: 100_000_000, radius: 25_000_000 },
        knobs: Seq::new(
            10,
            |i: int|
                CircleFeature {
                    center_x: (120_000_000 + i * 65_000_000) as i64,
                    center_y: 100_000_000,
                    radius: 12_000_000,
                },
        ),
        off_angles: Seq::new(10, |i: int| 90_000_000i64),
    }
}

/// State for FindStove: it needs none.
pub fn state_for_find_stove() -> (r: PipelineState)
    ensures
        r@ == empty_state(),
{
    PipelineState::default()
}

/// State for FindLines: the crop.
pub fn state_for_find_lines() -> (r: PipelineState)
    ensures
        r@ == (StateView { crop: Some(sample_crop()), ..empty_state() }),
{
    let mut s: PipelineState = state_for_find_stove();
    s.crop = Some(CropRegion { x: 100, y: 200, width: 800, height: 300 });
    s
}

/// What FindVerticals needs.
pub open spec fn verticals_input() -> StateView {
    StateView { crop: Some(sample_crop()), lines: Some(sample_lines()), ..empty_state() }
}

/// State for FindVerticals: the crop and the lines.
pub fn state_for_find_verticals() -> (r: PipelineState)
    ensures
        r@ == verticals_input(),
{
    let mut s: PipelineState = state_for_find_lines();
    s.lines = Some(
        LinePair {
            top: Line { x1: 0, y1: 50_000_000, x2: 800_000_000, y2: 48_000_000 },
            bottom: Line { x1: 0, y1: 100_000_000, x2: 800_000_000, y2: 98_000_000 },
            avg_theta: 90_000_000,
        },
    );
    s
}

/// What Perspective needs.
pub open spec fn perspective_input() -> StateView {
    StateView { verticals: Some(sample_verticals()), ..verticals_input() }
}

/// State for Perspective: the crop, the lines and the edges.
pub fn state_for_perspective() -> (r: PipelineState)
    ensures
        r@ == perspective_input(),
{
    let mut s: PipelineState = state_for_find_verticals();
    s.verticals = Some(
        VerticalPair {
            left: Line { x1: 10_000_000, y1: 0, x2: 10_000_000, y2: 300_000_000 },
            right: Line { x1: 790_000_000, y1: 0, x2: 790_000_000, y2: 300_000_000 },
        },
    );
    s
}

/// The rows of the transform that changes nothing.
pub open spec fn is_identity(m: TransformMatrix) -> bool {
    forall|i: int, j: int|
        0 <= i < 3 && 0 <= j < 3 ==> #[trigger] m.0@[i]@[j] == (if i == j {
            0x3ff0_0000_0000_0000u64
        } else {
            0u64
        })
}

/// What WarpCheck needs, for some transform.
pub open spec fn warped_input(p: Option<PerspectiveCorrection>) -> StateView {
    StateView { perspective: p, ..perspective_input() }
}

/// A perspective correction that changes nothing.
pub open spec fn is_sample_perspective(p: Option<PerspectiveCorrection>) -> bool {
    p matches Some(q) && is_identity(q.matrix) && q.output_width == 800 && q.output_height == 200
}

/// State for WarpCheck: the perspective as well.
pub fn state_for_warp_check() -> (r: PipelineState)
    ensures
        is_sample_perspective(r@.perspective),
        r@ == warped_input(r@.perspective),
{
    let mut s: PipelineState = state_for_perspective();
    let one: u64 = 0x3ff0_0000_0000_0000;
    let matrix: TransformMatrix = TransformMatrix([[one, 0, 0], [0, one, 0], [0, 0, one]]);
    assert(is_identity(matrix)) by {
        assert(matrix.0@[0]@ =~= seq![one, 0u64, 0u64]);
        assert(matrix.0@[1]@ =~= seq![0u64, one, 0u64]);
        assert(matrix.0@[2]@ =~= seq![0u64, 0u64, one]);
    }
    s.perspective = Some(
        PerspectiveCorrection { matrix, output_width: 800, output_height: 200 },
    );
    s
}

/// State for ExtractBand: the same.
pub fn state_for_extract_band() -> (r: PipelineState)
    ensures
        is_sample_perspective(r@.perspective),
        r@ == warped_input(r@.perspective),
{
    state_for_warp_check()
}

fn sample_area(with_clock: bool) -> (r: KnobSearchArea)
    ensures
        r == sample_search(with_clock),
{
    if with_clock {
        KnobSearchArea {
            y_min: 10_000_000,
            y_max: 190_000_000,
            x_min: 80_000_000,
            clock_center_x: 50_000_000,
            clock_center_y: 100_000_000,
            clock_radius: 25_000_000,
            corner_x: None,
            corner_y: None,
        }
    } else {
        KnobSearchArea {
            y_min: 10_000_000,
            y_max: 190_000_000,
            x_min: 0,
            clock_center_x: 0,
            clock_center_y: 0,
            clock_radius: 0,
            corner_x: None,
            corner_y: None,
        }
    }
}

/// State for FindClock: the search area as well.
pub fn state_for_find_clock() -> (r: PipelineState)
    ensures
        is_sample_perspective(r@.perspective),
        r@ == (StateView {
            knob_search: Some(sample_search(false)),
            ..warped_input(r@.perspective)
        }),
{
    let mut s: PipelineState = state_for_extract_band();
    s.knob_search = Some(sample_area(false));
    s
}

/// State for FindFeatures: the search area with the clock.
pub fn state_for_find_features() -> (r: PipelineState)
    ensures
        is_sample_perspective(r@.perspective),
        r@ == (StateView {
            knob_search: Some(sample_search(true)),
            ..warped_input(r@.perspective)
        }),
{
    let mut s: PipelineState = state_for_find_clock();
    s.knob_search = Some(sample_area(true));
    s
}

/// Ten evenly spaced knobs.
pub fn mock_features() -> (r: DetectedFeatures)
    ensures
        r@ == sample_features(),
{
    let mut knobs: Vec<CircleFeature> = Vec::new();
    let mut off_angles: Vec<i64> = Vec::new();
    let mut i: usize = 0;
    while i < 10
        invariant
            i <= 10,
            knobs.len() == i,
            off_angles.len() == i,
            forall|j: int| 0 <= j < i ==> #[trigger] knobs[j] == sample_features().knobs[j],
            forall|j: int| 0 <= j < i ==> #[trigger] off_angles[j] == 90_000_000,
        decreases 10 - i,
    {
        knobs.push(
            CircleFeature {
                center_x: 120_000_000 + i as i64 * 65_000_000,
                center_y: 100_000_000,
                radius: 12_000_000,
            },
        );
        off_angles.push(90_000_000);
        i = i + 1;
    }
    let r = DetectedFeatures {
        clock: CircleFeature { center_x: 50_000_000, center_y: 100_000_000, radius: 25_000_000 },
        knobs,
        off_angles,
    };
    assert(r@ =~= sample_features());
    r
}

/// What SanityCheck and FindCorner need.
pub open spec fn features_input(p: Option<PerspectiveCorrection>) -> StateView {
    StateView {
        knob_search: Some(sample_search(true)),
        features: Some(sample_features()),
        ..warped_input(p)
    }
}

/// State for SanityCheck: the features as well.
pub fn state_for_sanity_check() -> (r: PipelineState)
    ensures
        is_sample_perspective(r@.perspective),
        r@ == features_input(r@.perspective),
{
    let mut s: PipelineState = state_for_find_features();
    s.features = Some(mock_features());
    s
}

/// State for FindCorner: the same.
pub fn state_for_find_corner() -> (r: PipelineState)
    ensures
        is_sample_perspective(r@.perspective),
        r@ == features_input(r@.perspective),
{
    state_for_sanity_check()
}

/// What RefineWarp needs.
pub open spec fn corner_input(p: Option<PerspectiveCorrection>) -> StateView {
    StateView {
        knob_search: Some(
            KnobSearchArea {
                corner_x: Some(700_000_000),
                corner_y: Some(10_000_000),
                ..sample_search(true)
            },
        ),
        ..features_input(p)
    }
}

/// State for RefineWarp: the corner as well.
pub fn state_for_refine_warp() -> (r: PipelineState)
    ensures
        is_sample_perspective(r@.perspective),
        r@ == corner_input(r@.perspective),
{
    let mut s: PipelineState = state_for_find_corner();
    let mut area: KnobSearchArea = sample_area(true);
    area.corner_x = Some(700_000_000);
    area.corner_y = Some(10_000_000);
    s.knob_search = Some(area);
    s
}

/// State for FinalDetect: as for FindFeatures, after the refinement.
pub fn state_for_final_detect() -> (r: PipelineState)
    ensures
        is_sample_perspective(r@.perspective),
        r@ == (StateView { features: None, ..corner_input(r@.perspective) }),
{
    let mut s: PipelineState = state_for_refine_warp();
    s.features = None;
    s
}

/// State for FinalCheck: the final features.
pub fn state_for_final_check() -> (r: PipelineState)
    ensures
        is_sample_perspective(r@.perspective),
        r@ == corner_input(r@.perspective),
{
    let mut s: PipelineState = state_for_refine_warp();
    s.features = Some(mock_features());
    s
}

/// The state for the stage of this name.
pub open spec fn is_state_for(name: Seq<char>, s: StateView) -> bool {
    let p = s.perspective;
    let warped = is_sample_perspective(p);
    if name == "FindStove"@ {
        s == empty_state()
    } else if name == "FindLines"@ {
        s == (StateView { crop: Some(sample_crop()), ..empty_state() })
    } else if name == "FindVerticals"@ {
        s == verticals_input()
    } else if name == "Perspective"@ {
        s == perspective_input()
    } else if name == "WarpCheck"@ || name == "ExtractBand"@ {
        warped && s == warped_input(p)
    } else if name == "FindClock"@ {
        warped && s == (StateView { knob_search: Some(sample_search(false)), ..warped_input(p) })
    } else if name == "FindFeatures"@ {
        warped && s == (StateView { knob_search: Some(sample_search(true)), ..warped_input(p) })
    } else if name == "SanityCheck"@ || name == "FindCorner"@ {
        warped && s == features_input(p)
    } else if name == "RefineWarp"@ {
        warped && s == corner_input(p)
    } else if name == "FinalDetect"@ {
        warped && s == (StateView { features: None, ..corner_input(p) })
    } else if name == "FinalCheck"@ {
        warped && s == corner_input(p)
    } else {
        false
    }
}

/// The name is that of a stage.
pub open spec fn is_stage_name(name: Seq<char>) -> bool {
    ||| name == "FindStove"@
    ||| name == "FindLines"@
    ||| name == "FindVerticals"@
    ||| name == "Perspective"@
    ||| name == "WarpCheck"@
    ||| name == "ExtractBand"@
    ||| name == "FindClock"@
    ||| name == "FindFeatures"@
    ||| name == "SanityCheck"@
    ||| name == "FindCorner"@
    ||| name == "RefineWarp"@
    ||| name == "FinalDetect"@
    ||| name == "FinalCheck"@
}

/// The state for the stage of this name, if there is such a stage.
pub fn state_for_stage(name: &str) -> (r: Option<PipelineState>)
    ensures
        match r {
            Some(s) => is_state_for(name@, s@),
            None => !is_stage_name(name@),
        },
{
    if same_text(name, "FindStove") {
        Some(state_for_find_stove())
    } else if same_text(name, "FindLines") {
        Some(state_for_find_lines())
    } else if same_text(name, "FindVerticals") {
        Some(state_for_find_verticals())
    } else if same_text(name, "Perspective") {
        Some(state_for_perspective())
    } else if same_text(name, "WarpCheck") {
        Some(state_for_warp_check())
    } else if same_text(name, "ExtractBand") {
        Some(state_for_extract_band())
    } else if same_text(name, "FindClock") {
        Some(state_for_find_clock())
    } else if same_text(name, "FindFeatures") {
        Some(state_for_find_features())
    } else if same_text(name, "SanityCheck") {
        Some(state_for_sanity_check())
    } else if same_text(name, "FindCorner") {
        Some(state_for_find_corner())
    } else if same_text(name, "RefineWarp") {
        Some(state_for_refine_warp())
    } else if same_text(name, "FinalDetect") {
        Some(state_for_final_detect())
    } else if same_text(name, "FinalCheck") {
        Some(state_for_final_check())
    } else {
        None
    }
}

/// A light line across the whole width.
pub open spec fn chrome_line(y: int, width: int) -> ShapeView {
    ShapeView::Line { x1: 0, y1: y, x2: width, y2: y, color: bgr(220, 220, 220), thickness: 3 }
}

/// The lines of a synthetic image: two light ones across, a third of the way down and a sixth of
/// the height below that.
pub fn synthetic_lines(width: i32, height: i32) -> (r: Vec<Shape>)
    requires
        width >= 0,
        height >= 0,
    ensures
        drawing(r@) == seq![
            chrome_line(height as int / 3, width as int),
            chrome_line(height as int / 3 + height as int / 6, width as int),
        ],
{
    let white: Color = Color { blue: 220, green: 220, red: 220 };
    let top: i32 = height / 3;
    let bottom: i32 = top + height / 6;
    let mut shapes: Vec<Shape> = Vec::new();
    shapes.push(Shape::Line { x1: 0, y1: top, x2: width, y2: top, color: white, thickness: 3 });
    shapes.push(
        Shape::Line { x1: 0, y1: bottom, x2: width, y2: bottom, color: white, thickness: 3 },
    );
    assert(drawing(shapes@) =~= seq![
        chrome_line(height as int / 3, width as int),
        chrome_line(height as int / 3 + height as int / 6, width as int),
    ]);
    shapes
}

} // verus!
