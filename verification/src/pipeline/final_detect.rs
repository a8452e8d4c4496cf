//! Finding the features once more, in the refined image.

use std::sync::Arc;

use vstd::prelude::*;
use vstd::string::*;

use super::stage::{PipelineState, StageDescriptor, StageOutcome, StateView};
use super::{DebugImage, ImageOutput, Stage};
use crate::text::{decimal, fixed_decimal, push_fixed, push_number};

verus! {

/// The stage that finds the final features: it forgets the earlier ones and leaves the search to
/// the stage that found those. The refinement has set the offsets of the search area, so the
/// features come in the right coordinates.
pub struct FinalDetect<T> {
    pub inner: Arc<T>,
}

impl<T: Stage> FinalDetect<T> {
    /// Makes the stage from the one that searches.
    pub fn new(inner: Arc<T>) -> (r: Self)
        ensures
            r.inner == inner,
    {
        FinalDetect { inner }
    }
}

/// The state without features.
pub open spec fn without_features(state: StateView) -> StateView {
    StateView { features: None, ..state }
}

/// The label of the debug image of a state.
pub open spec fn label_of(state: StateView) -> Seq<char> {
    let (knobs, clock_x) = match state.features {
        Some(f) => (f.knobs.len() as int, f.clock.center_x as int),
        None => (0, 0),
    };
    "S12:FinalDetect_"@ + decimal(knobs) + "k_clk"@ + fixed_decimal(clock_x, 0)
}

/// The label of the debug image of a state.
pub fn debug_label(state: &PipelineState) -> (r: String)
    ensures
        r@ == label_of(state@),
{
    let (knobs, clock_x): (usize, i64) = match &state.features {
        Some(f) => (f.knobs.len(), f.clock.center_x),
        None => (0, 0),
    };
    let mut s: String = String::from_str("S12:FinalDetect_");
    push_number(&mut s, knobs as u128);
    s.append("k_clk");
    push_fixed(&mut s, clock_x as i128, 0);
    s
}

impl<T: Stage> Stage for FinalDetect<T> {
    type Image = T::Image;

    type Error = T::Error;

    open spec fn spec_descriptor(&self) -> StageDescriptor {
        StageDescriptor {
            name: "FinalDetect",
            label: "S12:FinalDetect",
            fallback: Some("RefineWarp"),
        }
    }

    open spec fn spec_max_retries(&self) -> u32 {
        10
    }

    open spec fn may_run(
        &self,
        before: StateView,
        src: T::Image,
        raw: T::Image,
        iteration: u32,
        after: StateView,
        dst: T::Image,
        result: Result<(StageOutcome, ImageOutput), T::Error>,
    ) -> bool {
        self.inner.may_run(without_features(before), src, raw, iteration, after, dst, result)
    }

    open spec fn may_show(
        &self,
        state: StateView,
        working: T::Image,
        raw: T::Image,
        result: Result<Option<DebugImage>, T::Error>,
    ) -> bool {
        exists|inner: Result<Option<DebugImage>, T::Error>| #[trigger]
            self.inner.may_show(state, working, raw, inner) && (match inner {
                Ok(Some(image)) => result matches Ok(Some(shown)) && shown.0@ == label_of(state)
                    && shown.1 == image.1,
                Ok(None) => result matches Ok(shown) && shown is None,
                Err(e) => result matches Err(f) && f == e,
            })
    }

    fn descriptor(&self) -> (r: StageDescriptor) {
        StageDescriptor {
            name: "FinalDetect",
            label: "S12:FinalDetect",
            fallback: Some("RefineWarp"),
        }
    }

    fn run(
        &self,
        state: &mut PipelineState,
        src: &T::Image,
        dst: &mut T::Image,
        raw: &T::Image,
        iteration: u32,
    ) -> (r: Result<(StageOutcome, ImageOutput), T::Error>) {
        state.features = None;
        assert(state@ == without_features(old(state)@));
        self.inner.run(state, src, dst, raw, iteration)
    }

    fn max_retries(&self) -> (r: u32) {
        10
    }

    fn debug_image(&self, state: &PipelineState, working: &T::Image, raw: &T::Image) -> (r: Result<
        Option<DebugImage>,
        T::Error,
    >) {
        let inner = self.inner.debug_image(state, working, raw);
        assert(self.inner.may_show(state@, *working, *raw, inner));
        match inner {
            Ok(Some(image)) => Ok(Some((debug_label(state), image.1))),
            Ok(None) => Ok(None),
            Err(e) => Err(e),
        }
    }
}


/// The last detection starts without the features of the first, and with all else.
pub proof fn earlier_features_are_forgotten(state: StateView)
    ensures
        without_features(state).features is None,
        state == (StateView { features: state.features, ..without_features(state) }),
{
}

} // verus!
