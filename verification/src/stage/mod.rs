//! The stages that a single frame passes through once the camera is calibrated.

pub mod angle;
pub mod annotate;
pub mod detect;
pub mod enhance;
pub mod output;
pub mod reproject;
pub mod sanity;
pub mod undistort;
pub mod warp;

use vstd::prelude::*;
use vstd::string::*;

use angle::AngleReading;
use detect::Knob;
use sanity::SanityResult;

verus! {

/// What has been made of a frame so far. `M` is an image.
pub struct FrameState<M> {
    pub raw: M,
    pub undistorted: Option<M>,
    pub warped: Option<M>,
    pub enhanced: Option<M>,
    pub knobs: Vec<Knob>,
    pub angle_readings: Vec<Option<AngleReading>>,
    pub sanity: Option<SanityResult>,
    pub annotated: Option<M>,
    pub debug_edges: Option<M>,
}

impl<M> FrameState<M> {
    /// A frame as the camera gave it.
    pub fn new(raw: M) -> (r: Self)
        ensures
            r.raw == raw,
            r.undistorted is None,
            r.warped is None,
            r.enhanced is None,
            r.knobs@.len() == 0,
            r.angle_readings@.len() == 0,
            r.sanity is None,
            r.annotated is None,
            r.debug_edges is None,
    {
        FrameState {
            raw,
            undistorted: None,
            warped: None,
            enhanced: None,
            knobs: Vec::new(),
            angle_readings: Vec::new(),
            sanity: None,
            annotated: None,
            debug_edges: None,
        }
    }

    /// The best image that there is of the frame.
    pub fn current_image(&self) -> (r: &M)
        ensures
            *r == (match (self.warped, self.undistorted) {
                (Some(m), _) => m,
                (None, Some(m)) => m,
                (None, None) => self.raw,
            }),
    {
        match &self.warped {
            Some(m) => m,
            None => match &self.undistorted {
                Some(m) => m,
                None => &self.raw,
            },
        }
    }
}

/// A stage that works on a frame in place.
pub trait Stage<M> {
    /// The frames that the stage takes.
    spec fn accepts(&self, state: FrameState<M>) -> bool;

    /// What [`Stage::name`] returns.
    spec fn spec_name(&self) -> &'static str;

    fn name(&self) -> (r: &'static str)
        ensures
            r == self.spec_name(),
    ;

    fn process(&self, state: &mut FrameState<M>) -> (r: Result<(), StageError>)
        requires
            self.accepts(*old(state)),
    ;
}

/// Why a stage gave up on a frame.
#[derive(Debug, PartialEq, Eq)]
pub struct StageError {
    pub stage: &'static str,
    pub message: String,
}

impl StageError {
    /// The message for this error.
    pub open spec fn spec_text(&self) -> Seq<char> {
        "["@ + self.stage@ + "] "@ + self.message@
    }

    /// The message for this error.
    pub fn text(&self) -> (r: String)
        ensures
            r@ == self.spec_text(),
    {
        let mut s: String = String::from_str("[");
        s.append(self.stage);
        s.append("] ");
        s.append(self.message.as_str());
        s
    }
}

} // verus!
