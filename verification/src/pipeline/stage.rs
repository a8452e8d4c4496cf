//! What the calibration stages find and hand on.
//!
//! Lengths are fixed-point pixels and angles fixed-point degrees (see [`crate::fixed`]).

use vstd::prelude::*;

verus! {

/// A rectangular crop region in the full frame.
#[derive(Debug, Clone, Copy, PartialEq, Eq, Structural)]
pub struct CropRegion {
    pub x: u32,
    pub y: u32,
    pub width: u32,
    pub height: u32,
}

/// A line through two endpoints `(x1, y1)` and `(x2, y2)`.
#[derive(Debug, Clone, Copy, PartialEq, Eq, Structural)]
pub struct Line {
    pub x1: i64,
    pub y1: i64,
    pub x2: i64,
    pub y2: i64,
}

/// The two dominant horizontal reference lines from the chrome trim.
#[derive(Debug, Clone, Copy, PartialEq, Eq, Structural)]
pub struct LinePair {
    pub top: Line,
    pub bottom: Line,
    /// Average angle of the normals of the pair in degrees: 90 is horizontal.
    pub avg_theta: i64,
}

/// The two dominant vertical reference lines from the stove panel edges.
#[derive(Debug, Clone, Copy, PartialEq, Eq, Structural)]
pub struct VerticalPair {
    pub left: Line,
    pub right: Line,
}

/// A 3x3 perspective transform, row by row; each entry is the bit pattern of a double.
#[derive(Debug, Clone, Copy, PartialEq, Eq)]
pub struct TransformMatrix(pub [[u64; 3]; 3]);

/// Perspective correction: the transform and the size of the warped image.
#[derive(Debug, Clone, Copy, PartialEq, Eq)]
pub struct PerspectiveCorrection {
    pub matrix: TransformMatrix,
    pub output_width: u32,
    pub output_height: u32,
}

/// The search area for knob detection, from the band and clock stages.
#[derive(Debug, Clone, Copy, PartialEq, Eq)]
pub struct KnobSearchArea {
    /// Top of the knob band in the warped image.
    pub y_min: i64,
    /// Bottom of the knob band in the warped image.
    pub y_max: i64,
    /// Left edge of the knob area (right side of the clock).
    pub x_min: i64,
    /// Clock center in the warped image.
    pub clock_center_x: i64,
    pub clock_center_y: i64,
    pub clock_radius: i64,
    /// Top-right corner of the oven panel.
    pub corner_x: Option<i64>,
    pub corner_y: Option<i64>,
}

/// A detected circular feature (knob or clock).
#[derive(Debug, Clone, Copy, PartialEq, Eq, Structural)]
pub struct CircleFeature {
    pub center_x: i64,
    pub center_y: i64,
    pub radius: i64,
}

/// All detected features in the perspective-corrected image.
#[derive(Debug, PartialEq, Eq)]
pub struct DetectedFeatures {
    pub clock: CircleFeature,
    pub knobs: Vec<CircleFeature>,
    /// The angle at which each knob was found, in the order of `knobs`.
    pub off_angles: Vec<i64>,
}

/// What [`DetectedFeatures`] holds.
#[verifier::ext_equal]
pub struct FeaturesView {
    pub clock: CircleFeature,
    pub knobs: Seq<CircleFeature>,
    pub off_angles: Seq<i64>,
}

impl View for DetectedFeatures {
    type V = FeaturesView;

    open spec fn view(&self) -> FeaturesView {
        FeaturesView { clock: self.clock, knobs: self.knobs@, off_angles: self.off_angles@ }
    }
}

impl Clone for DetectedFeatures {
    fn clone(&self) -> (r: Self)
        ensures
            r@ == self@,
    {
        let r = DetectedFeatures {
            clock: self.clock,
            knobs: self.knobs.clone(),
            off_angles: self.off_angles.clone(),
        };
        assert(r.knobs@ =~= self.knobs@);
        assert(r.off_angles@ =~= self.off_angles@);
        r
    }
}

/// Cumulative pipeline state: each stage populates its field.
#[derive(Debug, PartialEq, Eq)]
pub struct PipelineState {
    pub crop: Option<CropRegion>,
    pub lines: Option<LinePair>,
    pub verticals: Option<VerticalPair>,
    pub perspective: Option<PerspectiveCorrection>,
    pub knob_search: Option<KnobSearchArea>,
    pub features: Option<DetectedFeatures>,
    /// Set once every stage has passed.
    pub validated: bool,
}

/// What [`PipelineState`] holds.
#[verifier::ext_equal]
pub struct StateView {
    pub crop: Option<CropRegion>,
    pub lines: Option<LinePair>,
    pub verticals: Option<VerticalPair>,
    pub perspective: Option<PerspectiveCorrection>,
    pub knob_search: Option<KnobSearchArea>,
    pub features: Option<FeaturesView>,
    pub validated: bool,
}

impl View for PipelineState {
    type V = StateView;

    open spec fn view(&self) -> StateView {
        StateView {
            crop: self.crop,
            lines: self.lines,
            verticals: self.verticals,
            perspective: self.perspective,
            knob_search: self.knob_search,
            features: match self.features {
                Some(f) => Some(f@),
                None => None,
            },
            validated: self.validated,
        }
    }
}

/// The state before any stage has run.
pub open spec fn empty_state() -> StateView {
    StateView {
        crop: None,
        lines: None,
        verticals: None,
        perspective: None,
        knob_search: None,
        features: None,
        validated: false,
    }
}

impl Clone for PipelineState {
    fn clone(&self) -> (r: Self)
        ensures
            r@ == self@,
    {
        let features: Option<DetectedFeatures> = match &self.features {
            Some(f) => Some(f.clone()),
            None => None,
        };
        PipelineState {
            crop: self.crop,
            lines: self.lines,
            verticals: self.verticals,
            perspective: self.perspective,
            knob_search: self.knob_search,
            features,
            validated: self.validated,
        }
    }
}

impl Default for PipelineState {
    fn default() -> (r: Self)
        ensures
            r@ == empty_state(),
    {
        PipelineState {
            crop: None,
            lines: None,
            verticals: None,
            perspective: None,
            knob_search: None,
            features: None,
            validated: false,
        }
    }
}

/// Metadata that each stage declares about itself.
#[derive(Debug, Clone, Copy)]
pub struct StageDescriptor {
    /// Unique name, such as "FindStove", for the cache version and for fallbacks.
    pub name: &'static str,
    /// Display label, such as "S1:FindStove".
    pub label: &'static str,
    /// Name of the stage to fall back to on exhaustion; without one the pipeline fails.
    pub fallback: Option<&'static str>,
}

/// Outcome of running a single stage attempt.
#[derive(Debug, PartialEq, Eq)]
pub enum StageOutcome {
    /// The stage succeeded: advance to the next one.
    Success,
    /// The stage failed but can be retried with different parameters.
    Retry(String),
    /// The stage has nothing left to try: fall back to an earlier one.
    Exhausted(String),
}

/// The outcome asks for another attempt, for this reason.
pub open spec fn is_retry(outcome: StageOutcome, reason: Seq<char>) -> bool {
    outcome matches StageOutcome::Retry(text) && text@ == reason
}

/// The outcome gives up, for this reason.
pub open spec fn is_exhausted(outcome: StageOutcome, reason: Seq<char>) -> bool {
    outcome matches StageOutcome::Exhausted(text) && text@ == reason
}

} // verus!
