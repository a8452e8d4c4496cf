//! The stage that turns the stove panel to face the viewer.

use vstd::prelude::*;

use super::{FrameState, StageError};
use crate::config::Calibration;
use crate::config::SourcePoints;

verus! {

/// The corners of the panel in the frame, clockwise from the top left.
pub open spec fn panel_corners(points: SourcePoints) -> Seq<[i64; 2]> {
    seq![points.top_left, points.top_right, points.bottom_right, points.bottom_left]
}

/// The corners of an image of this size, clockwise from the top left.
pub open spec fn image_corners(width: i32, height: i32) -> Seq<(i32, i32)> {
    seq![(0, 0), (width, 0), (width, height), (0, height)]
}

/// The stage that turns the stove panel to face the viewer: what shows at the
/// source corners moves to the target corners.
#[derive(Debug, PartialEq, Eq)]
pub struct Warp {
    pub source: Vec<[i64; 2]>,
    pub target: Vec<(i32, i32)>,
    pub dst_w: i32,
    pub dst_h: i32,
}

/// The name of the stage.
pub fn name() -> (r: &'static str)
    ensures
        r@ == "warp"@,
{
    "warp"
}

/// The corners of the panel in the frame, clockwise from the top left.
pub fn source_corners(points: &SourcePoints) -> (r: Vec<[i64; 2]>)
    ensures
        r@ == panel_corners(*points),
{
    let mut r: Vec<[i64; 2]> = Vec::new();
    r.push(points.top_left);
    r.push(points.top_right);
    r.push(points.bottom_right);
    r.push(points.bottom_left);
    assert(r@ =~= panel_corners(*points));
    r
}

/// The corners of an image of this size, clockwise from the top left.
pub fn target_corners(width: i32, height: i32) -> (r: Vec<(i32, i32)>)
    ensures
        r@ == image_corners(width, height),
{
    let mut r: Vec<(i32, i32)> = Vec::new();
    r.push((0, 0));
    r.push((width, 0));
    r.push((width, height));
    r.push((0, height));
    assert(r@ =~= image_corners(width, height));
    r
}

impl Warp {
    /// The stage that fills an image of this size with the calibrated panel.
    pub fn new(calib: &Calibration, dst_w: i32, dst_h: i32) -> (r: Self)
        ensures
            r.source@ == panel_corners(calib.source_points),
            r.target@ == image_corners(dst_w, dst_h),
            r.dst_w == dst_w,
            r.dst_h == dst_h,
    {
        Warp {
            source: source_corners(&calib.source_points),
            target: target_corners(dst_w, dst_h),
            dst_w,
            dst_h,
        }
    }

    /// Warps a frame; `turn` gives an image of the panel. A failure leaves the
    /// frame as it was; a success changes the warped image alone.
    pub fn process<M, F: Fn(&M) -> Result<M, StageError>>(
        &self,
        state: &mut FrameState<M>,
        turn: &F,
    ) -> (r: Result<(), StageError>)
        requires
            forall|image: &M| #[trigger] call_requires(*turn, (image,)),
        ensures
            ({
                let given = match old(state).undistorted {
                    Some(m) => m,
                    None => old(state).raw,
                };
                match r {
                    Ok(_) => {
                        &&& final(state).warped matches Some(image) && call_ensures(
                            *turn,
                            (&given,),
                            Ok(image),
                        )
                        &&& *final(state) == (FrameState {
                            warped: final(state).warped,
                            ..*old(state)
                        })
                    },
                    Err(e) => {
                        &&& call_ensures(*turn, (&given,), Err(e))
                        &&& *final(state) == *old(state)
                    },
                }
            }),
    {
        let image: M = match turn(input(state)) {
            Ok(image) => image,
            Err(e) => return Err(e),
        };
        state.warped = Some(image);
        Ok(())
    }
}

/// The image that is warped: the one without distortion, where there is one.
pub fn input<M>(state: &FrameState<M>) -> (r: &M)
    ensures
        *r == (match state.undistorted {
            Some(m) => m,
            None => state.raw,
        }),
{
    match &state.undistorted {
        Some(m) => m,
        None => &state.raw,
    }
}


/// Each corner of the panel goes to the corner of the image with the same name.
pub proof fn corners_go_to_their_corners(points: SourcePoints, width: i32, height: i32)
    ensures
        ({
            let (s, t) = (panel_corners(points), image_corners(width, height));
            &&& s.len() == 4 && t.len() == 4
            &&& s[0] == points.top_left && t[0] == (0i32, 0i32)
            &&& s[1] == points.top_right && t[1] == (width, 0i32)
            &&& s[2] == points.bottom_right && t[2] == (width, height)
            &&& s[3] == points.bottom_left && t[3] == (0i32, height)
        }),
{
}

} // verus!
