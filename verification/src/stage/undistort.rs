//! The stage that takes the distortion of the lens out of the frame.

use vstd::prelude::*;

use super::{FrameState, StageError};
use crate::config::Calibration;

verus! {

/// The inner geometry of the camera, in pixels.
#[derive(Debug, Clone, Copy, PartialEq, Eq, Structural)]
pub struct Intrinsics {
    pub focal_length: i64,
    /// Twice the place of the optical axis from the left.
    pub twice_center_x: i64,
    /// Twice the place of the optical axis from the top.
    pub twice_center_y: i64,
}

/// The stage that takes the distortion of the lens out of the frame.
#[derive(Debug, Clone, Copy, PartialEq, Eq, Structural)]
pub struct Undistort {
    pub camera: Intrinsics,
    /// The radial distortion, in billionths.
    pub distortion_k1: i64,
}

/// The name of the stage.
pub fn name() -> (r: &'static str)
    ensures
        r@ == "undistort"@,
{
    "undistort"
}

impl Undistort {
    /// The stage, where the lens distorts at all. The frame's width stands
    /// for the focal length, and the optical axis meets its middle.
    pub fn new(calib: &Calibration) -> (r: Option<Self>)
        ensures
            r == if calib.distortion_k1 == 0 {
                None
            } else {
                Some(
                    Undistort {
                        camera: Intrinsics {
                            focal_length: calib.frame_size@[0],
                            twice_center_x: calib.frame_size@[0],
                            twice_center_y: calib.frame_size@[1],
                        },
                        distortion_k1: calib.distortion_k1,
                    },
                )
            },
    {
        if calib.distortion_k1 == 0 {
            return None;
        }
        Some(
            Undistort {
                camera: Intrinsics {
                    focal_length: calib.frame_size[0],
                    twice_center_x: calib.frame_size[0],
                    twice_center_y: calib.frame_size[1],
                },
                distortion_k1: calib.distortion_k1,
            },
        )
    }

    /// Takes the distortion out of a frame; `correct` gives an image without it. A failure leaves
    /// the frame as it was; a success changes the undistorted image alone.
    pub fn process<M, F: Fn(&M) -> Result<M, StageError>>(
        &self,
        state: &mut FrameState<M>,
        correct: &F,
    ) -> (r: Result<(), StageError>)
        requires
            forall|image: &M| #[trigger] call_requires(*correct, (image,)),
        ensures
            match r {
                Ok(_) => {
                    &&& final(state).undistorted matches Some(image) && call_ensures(
                        *correct,
                        (&old(state).raw,),
                        Ok(image),
                    )
                    &&& *final(state) == (FrameState {
                        undistorted: final(state).undistorted,
                        ..*old(state)
                    })
                },
                Err(e) => {
                    &&& call_ensures(*correct, (&old(state).raw,), Err(e))
                    &&& *final(state) == *old(state)
                },
            },
    {
        match correct(&state.raw) {
            Ok(image) => {
                state.undistorted = Some(image);
                Ok(())
            },
            Err(e) => Err(e),
        }
    }
}

} // verus!
