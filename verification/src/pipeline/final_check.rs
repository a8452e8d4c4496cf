//! The strict check of the final features.

use core::marker::PhantomData;

use vstd::prelude::*;
use vstd::string::*;

use super::stage::{
    is_exhausted, CircleFeature, FeaturesView, PipelineState, StageDescriptor, StageOutcome,
    StateView,
};
use super::util::{
    check_features, first_below, first_odd_radius, gaps, is_check_outcome, knob_radii, knob_xs,
    positive_sum, validation, SanityThresholds,
};
use super::{DebugImage, ImageOutput, Stage};
use crate::order::median;

verus! {

/// The thresholds of the check.
pub open spec fn spec_thresholds() -> SanityThresholds {
    SanityThresholds {
        y_tolerance_px: 6_000_000,
        min_x_gap_px: 30_000_000,
        max_gap_cv: 200_000,
        max_radius_factor: 1_200_000,
        expected_knobs: 10,
        skip_overlap: false,
    }
}

/// The thresholds of the check.
pub fn thresholds() -> (r: SanityThresholds)
    ensures
        r == spec_thresholds(),
{
    SanityThresholds {
        y_tolerance_px: 6_000_000,
        min_x_gap_px: 30_000_000,
        max_gap_cv: 200_000,
        max_radius_factor: 1_200_000,
        expected_knobs: 10,
        skip_overlap: false,
    }
}

/// The stage that decides whether the calibration succeeded: the coarse check with tighter
/// thresholds.
pub struct FinalCheck<M, E> {
    marker: PhantomData<(M, E)>,
}

impl<M, E> FinalCheck<M, E> {
    /// Makes the stage.
    pub fn new() -> (r: Self)
        ensures
            r.well_formed(),
    {
        FinalCheck { marker: PhantomData }
    }

    /// The stage holds nothing.
    pub closed spec fn well_formed(&self) -> bool {
        self.marker == PhantomData::<(M, E)>
    }
}

/// What the check says of a state.
pub open spec fn is_outcome(state: StateView, o: StageOutcome) -> bool {
    match state.features {
        None => is_exhausted(o, "no features from S12"@),
        Some(f) => is_check_outcome(f, spec_thresholds(), o),
    }
}

/// Checks the features of a state.
pub fn check_state(state: &PipelineState) -> (r: StageOutcome)
    ensures
        is_outcome(state@, r),
{
    match &state.features {
        None => StageOutcome::Exhausted(String::from_str("no features from S12")),
        Some(f) => check_features(f, &thresholds()),
    }
}

impl<M: Default, E> Stage for FinalCheck<M, E> {
    type Image = M;

    type Error = E;

    open spec fn spec_descriptor(&self) -> StageDescriptor {
        StageDescriptor {
            name: "FinalCheck",
            label: "S13:FinalCheck",
            fallback: Some("FinalDetect"),
        }
    }

    open spec fn spec_max_retries(&self) -> u32 {
        1
    }

    open spec fn may_run(
        &self,
        before: StateView,
        src: M,
        raw: M,
        iteration: u32,
        after: StateView,
        dst: M,
        result: Result<(StageOutcome, ImageOutput), E>,
    ) -> bool {
        &&& after == before
        &&& result matches Ok(r)
        &&& is_outcome(before, r.0)
        &&& r.1 is Passthrough
    }

    open spec fn may_show(
        &self,
        state: StateView,
        working: M,
        raw: M,
        result: Result<Option<DebugImage>, E>,
    ) -> bool {
        result matches Ok(image) && image is None
    }

    fn descriptor(&self) -> (r: StageDescriptor) {
        StageDescriptor {
            name: "FinalCheck",
            label: "S13:FinalCheck",
            fallback: Some("FinalDetect"),
        }
    }

    fn run(
        &self,
        state: &mut PipelineState,
        src: &M,
        dst: &mut M,
        raw: &M,
        iteration: u32,
    ) -> (r: Result<(StageOutcome, ImageOutput), E>) {
        Ok((check_state(state), ImageOutput::Passthrough))
    }

    fn max_retries(&self) -> (r: u32) {
        1
    }

    fn debug_image(&self, state: &PipelineState, working: &M, raw: &M) -> (r: Result<
        Option<DebugImage>,
        E,
    >) {
        Ok(None)
    }
}

proof fn none_below_more_none_below_less(values: Seq<i128>, more: int, less: int, from: int)
    requires
        less <= more,
        first_below(values, more, from) is None,
    ensures
        first_below(values, less, from) is None,
    decreases values.len() - from,
{
    if from < values.len() {
        none_below_more_none_below_less(values, more, less, from + 1);
    }
}

proof fn even_radii_stay_even(knobs: Seq<CircleFeature>, middle: int, from: int)
    requires
        first_odd_radius(knobs, middle, 1_200_000, from) is None,
    ensures
        first_odd_radius(knobs, middle, 2_000_000, from) is None,
    decreases knobs.len() - from,
{
    if from < knobs.len() {
        even_radii_stay_even(knobs, middle, from + 1);
    }
}

/// Whatever passes the strict check passes the coarse one.
pub proof fn the_strict_check_includes_the_coarse_one(f: FeaturesView)
    requires
        validation(f, spec_thresholds()) is Ok,
    ensures
        validation(f, super::sanity::spec_thresholds()) is Ok,
{
    let gs = gaps(knob_xs(f.knobs));
    none_below_more_none_below_less(gs, 30_000_000, 4_000_000, 0);
    even_radii_stay_even(f.knobs, median(knob_radii(f.knobs)) as int, 0);
    let m = positive_sum(gs);
    assert((200_000 * m) * (200_000 * m) <= (650_000 * m) * (650_000 * m)) by (nonlinear_arith);
}


/// The last check asks for ten knobs within six pixels of their middle height, gaps of thirty pixels
/// or more that vary by a fifth at most, and radii within a fifth of the middle one, none of which
/// overlap.
pub proof fn the_last_check_is_strict(f: FeaturesView)
    requires
        validation(f, spec_thresholds()) is Ok,
    ensures
        f.knobs.len() == 10,
        forall|i: int|
            0 <= i < 10 ==> -6_000_000 <= (#[trigger] f.knobs[i]).center_y - median(
                f.knobs.map_values(|k: CircleFeature| k.center_y),
            ) <= 6_000_000,
        forall|i: int|
            0 < i < 10 ==> (#[trigger] f.knobs[i]).center_x - f.knobs[i - 1].center_x >= 30_000_000,
        forall|i: int, j: int|
            0 <= i < j < 10 ==> !super::util::overlap(#[trigger] f.knobs[i], #[trigger] f.knobs[j]),
        forall|i: int|
            0 <= i < 10 ==> {
                let middle = median(f.knobs.map_values(|k: CircleFeature| k.radius));
                12 * (#[trigger] f.knobs[i]).radius >= 10 * middle && 10 * f.knobs[i].radius <= 12
                    * middle
            },
        !super::util::varies_more(gaps(knob_xs(f.knobs)), 200_000),
        f.clock.center_x < f.knobs[0].center_x,
{
    super::util::features_pass_exactly_if_they_stand_in_a_row(f, spec_thresholds());
}

} // verus!
