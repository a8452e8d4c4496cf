//! A coarse check that the features are geometrically consistent.

use core::marker::PhantomData;

use vstd::prelude::*;
use vstd::string::*;

use super::stage::{is_exhausted, PipelineState, StageDescriptor, StageOutcome, StateView};
use super::util::{check_features, is_check_outcome, SanityThresholds};
use super::{DebugImage, ImageOutput, Stage};

verus! {

/// The thresholds of the check.
pub open spec fn spec_thresholds() -> SanityThresholds {
    SanityThresholds {
        y_tolerance_px: 25_000_000,
        min_x_gap_px: 4_000_000,
        max_gap_cv: 650_000,
        max_radius_factor: 2_000_000,
        expected_knobs: 10,
        skip_overlap: true,
    }
}

/// The thresholds of the check.
pub fn thresholds() -> (r: SanityThresholds)
    ensures
        r == spec_thresholds(),
{
    SanityThresholds {
        y_tolerance_px: 25_000_000,
        min_x_gap_px: 4_000_000,
        max_gap_cv: 650_000,
        max_radius_factor: 2_000_000,
        expected_knobs: 10,
        skip_overlap: true,
    }
}

/// The coarse check, just good enough to go on to the refinement of the perspective.
pub struct SanityCheck<M, E> {
    marker: PhantomData<(M, E)>,
}

impl<M, E> SanityCheck<M, E> {
    /// Makes the stage.
    pub fn new() -> (r: Self)
        ensures
            r.well_formed(),
    {
        SanityCheck { marker: PhantomData }
    }

    /// The stage holds nothing.
    pub closed spec fn well_formed(&self) -> bool {
        self.marker == PhantomData::<(M, E)>
    }
}

/// What the check says of a state.
pub open spec fn is_outcome(state: StateView, o: StageOutcome) -> bool {
    match state.features {
        None => is_exhausted(o, "no features from Stage 8"@),
        Some(f) => is_check_outcome(f, spec_thresholds(), o),
    }
}

/// Checks the features of a state.
pub fn check_state(state: &PipelineState) -> (r: StageOutcome)
    ensures
        is_outcome(state@, r),
{
    match &state.features {
        None => StageOutcome::Exhausted(String::from_str("no features from Stage 8")),
        Some(f) => check_features(f, &thresholds()),
    }
}

impl<M: Default, E> Stage for SanityCheck<M, E> {
    type Image = M;

    type Error = E;

    open spec fn spec_descriptor(&self) -> StageDescriptor {
        StageDescriptor {
            name: "SanityCheck",
            label: "S9:SanityCheck",
            fallback: Some("FindFeatures"),
        }
    }

    open spec fn spec_max_retries(&self) -> u32 {
        1
    }

    open spec fn may_run(
        &self,
        before: StateView,
        src: M,
        raw: M,
        iteration: u32,
        after: StateView,
        dst: M,
        result: Result<(StageOutcome, ImageOutput), E>,
    ) -> bool {
        &&& after == before
        &&& result matches Ok(r)
        &&& is_outcome(before, r.0)
        &&& r.1 is Passthrough
    }

    open spec fn may_show(
        &self,
        state: StateView,
        working: M,
        raw: M,
        result: Result<Option<DebugImage>, E>,
    ) -> bool {
        result matches Ok(image) && image is None
    }

    fn descriptor(&self) -> (r: StageDescriptor) {
        StageDescriptor {
            name: "SanityCheck",
            label: "S9:SanityCheck",
            fallback: Some("FindFeatures"),
        }
    }

    fn run(
        &self,
        state: &mut PipelineState,
        src: &M,
        dst: &mut M,
        raw: &M,
        iteration: u32,
    ) -> (r: Result<(StageOutcome, ImageOutput), E>) {
        Ok((check_state(state), ImageOutput::Passthrough))
    }

    fn max_retries(&self) -> (r: u32) {
        1
    }

    fn debug_image(&self, state: &PipelineState, working: &M, raw: &M) -> (r: Result<
        Option<DebugImage>,
        E,
    >) {
        Ok(None)
    }
}

/// Whether so many edge pixels are plausible for a well-warped image of so many pixels: between
/// two and forty percent of them.
pub fn quick_sanity_check(edge_pixels: u64, total_pixels: u64) -> (r: bool)
    ensures
        r == (total_pixels >= 1 && edge_pixels * 100 >= 2 * total_pixels && edge_pixels * 100 <= 40
            * total_pixels),
{
    let edges: u128 = edge_pixels as u128 * 100;
    let all: u128 = total_pixels as u128;
    total_pixels >= 1 && edges >= 2 * all && edges <= 40 * all
}


/// The first check asks for ten knobs within 25 pixels of their middle height, gaps of four pixels or
/// more that vary by 65 percent at most, and radii between half and twice the middle one.
pub proof fn the_first_check_is_coarse(f: super::stage::FeaturesView)
    requires
        super::util::validation(f, spec_thresholds()) is Ok,
    ensures
        f.knobs.len() == 10,
        forall|i: int|
            0 <= i < 10 ==> -25_000_000 <= (#[trigger] f.knobs[i]).center_y - crate::order::median(
                f.knobs.map_values(|k: super::stage::CircleFeature| k.center_y),
            ) <= 25_000_000,
        forall|i: int|
            0 < i < 10 ==> (#[trigger] f.knobs[i]).center_x - f.knobs[i - 1].center_x >= 4_000_000,
        forall|i: int|
            0 <= i < 10 ==> {
                let middle = crate::order::median(
                    f.knobs.map_values(|k: super::stage::CircleFeature| k.radius),
                );
                2 * (#[trigger] f.knobs[i]).radius >= middle && f.knobs[i].radius <= 2 * middle
            },
        !super::util::varies_more(
            super::util::gaps(super::util::knob_xs(f.knobs)),
            650_000,
        ),
        f.clock.center_x < f.knobs[0].center_x,
{
    super::util::features_pass_exactly_if_they_stand_in_a_row(f, spec_thresholds());
}

/// Features that stand in a row by these limits do pass, overlapping or not.
pub proof fn rows_pass_the_first_check(f: super::stage::FeaturesView, t: SanityThresholds)
    requires
        t.y_tolerance_px == 25_000_000,
        t.min_x_gap_px == 4_000_000,
        t.max_gap_cv == 650_000,
        t.max_radius_factor == 2_000_000,
        t.expected_knobs == 10,
        t.skip_overlap,
        super::util::stand_in_a_row(f, t),
    ensures
        super::util::validation(f, spec_thresholds()) is Ok,
{
    super::util::features_pass_exactly_if_they_stand_in_a_row(f, t);
}

} // verus!
