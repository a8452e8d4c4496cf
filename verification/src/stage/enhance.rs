//! The stage that spreads the contrast of the warped frame.

use vstd::prelude::*;
use vstd::string::*;

use super::{FrameState, StageError};
use crate::config::KnobDetection;

verus! {

/// The stage that spreads the contrast of the warped frame.
#[derive(Debug, Clone, Copy, PartialEq, Eq, Structural)]
pub struct Enhance {
    /// The contrast limit.
    pub clip_limit: i64,
    /// The tiles per side.
    pub grid_size: i32,
}

/// The name of the stage.
pub fn name() -> (r: &'static str)
    ensures
        r@ == "enhance"@,
{
    "enhance"
}

impl Enhance {
    /// The stage with the settings of the knob detection.
    pub fn new(kd: &KnobDetection) -> (r: Self)
        ensures
            r.clip_limit == kd.clahe_clip_limit,
            r.grid_size == kd.clahe_grid_size,
    {
        Enhance { clip_limit: kd.clahe_clip_limit, grid_size: kd.clahe_grid_size }
    }

    /// Enhances a frame; `spread` gives an image with more contrast. A failure leaves the frame
    /// as it was; a success changes the enhanced image alone.
    pub fn process<M, F: Fn(&M) -> Result<M, StageError>>(
        &self,
        state: &mut FrameState<M>,
        spread: &F,
    ) -> (r: Result<(), StageError>)
        requires
            forall|image: &M| #[trigger] call_requires(*spread, (image,)),
        ensures
            match old(state).warped {
                None => {
                    &&& r matches Err(err) && err.stage@ == "enhance"@ && err.message@
                        == "no warped frame"@
                    &&& *final(state) == *old(state)
                },
                Some(warped) => match r {
                    Ok(_) => {
                        &&& final(state).enhanced matches Some(image) && call_ensures(
                            *spread,
                            (&warped,),
                            Ok(image),
                        )
                        &&& *final(state) == (FrameState {
                            enhanced: final(state).enhanced,
                            ..*old(state)
                        })
                    },
                    Err(e) => {
                        &&& call_ensures(*spread, (&warped,), Err(e))
                        &&& *final(state) == *old(state)
                    },
                },
            },
    {
        let image: M = match input(state) {
            Ok(warped) => match spread(warped) {
                Ok(image) => image,
                Err(e) => return Err(e),
            },
            Err(e) => return Err(e),
        };
        state.enhanced = Some(image);
        Ok(())
    }
}

/// The image that is enhanced.
pub fn input<M>(state: &FrameState<M>) -> (r: Result<&M, StageError>)
    ensures
        match (r, state.warped) {
            (Ok(m), Some(warped)) => *m == warped,
            (Err(err), None) => err.stage@ == "enhance"@ && err.message@ == "no warped frame"@,
            _ => false,
        },
{
    match &state.warped {
        Some(m) => Ok(m),
        None => Err(StageError { stage: name(), message: String::from_str("no warped frame") }),
    }
}

} // verus!
