//! Cutting the stove panel out of the frame.

use vstd::prelude::*;
use vstd::string::*;

use super::stage::{
    is_exhausted, CropRegion, PipelineState, StageDescriptor, StageOutcome, StateView,
};
use super::ImageOutput;
use crate::draw::{bgr, drawing, Color, Shape, ShapeView};
use crate::fixed::{as_signed, max, min, min_exec, to_signed};

verus! {

/// The attempts of the stage: up to 400 pixels are added on each side.
pub const MAX_RETRIES: u32 = 20;

/// How many pixels each attempt adds on each side.
pub const MARGIN_STEP: u32 = 20;

/// What the stage says of itself.
pub fn descriptor() -> (r: StageDescriptor)
    ensures
        r.name@ == "FindStove"@,
        r.label@ == "S1:FindStove"@,
        r.fallback is None,
{
    StageDescriptor { name: "FindStove", label: "S1:FindStove", fallback: None }
}

/// The stage that cuts out the panel.
#[derive(Debug, Clone, Copy, PartialEq, Eq, Structural)]
pub struct FindStove {
    pub initial_crop: CropRegion,
}

impl FindStove {
    /// Starts with the part of a frame of 2560 by 1440 pixels that shows the panel.
    pub fn new() -> (r: Self)
        ensures
            r.initial_crop == (CropRegion { x: 1300, y: 830, width: 870, height: 450 }),
    {
        FindStove { initial_crop: CropRegion { x: 1300, y: 830, width: 870, height: 450 } }
    }

    /// Starts with the given part of a frame.
    pub fn with_crop(crop: CropRegion) -> (r: Self)
        ensures
            r.initial_crop == crop,
    {
        FindStove { initial_crop: crop }
    }

    /// The left and right ends, or the top and bottom ends, of the part that an attempt cuts
    /// out: with the margin on both sides, as far as it lies in the frame.
    pub open spec fn reach(start: int, size: int, iteration: int, limit: int) -> (int, int) {
        (max(start - iteration * 20, 0), min(start + size + iteration * 20, limit))
    }

    /// The part of a frame that an attempt cuts out.
    pub open spec fn crop(&self, iteration: int, frame_w: int, frame_h: int) -> CropRegion {
        let c = self.initial_crop;
        let (left, right) = Self::reach(c.x as int, c.width as int, iteration, frame_w);
        let (top, bottom) = Self::reach(c.y as int, c.height as int, iteration, frame_h);
        CropRegion {
            x: left as u32,
            y: top as u32,
            width: (right - left) as u32,
            height: (bottom - top) as u32,
        }
    }

    /// The panel begins inside the frame, and the margins can be added.
    pub open spec fn can_crop(&self, iteration: int, frame_w: int, frame_h: int) -> bool {
        let c = self.initial_crop;
        let (left, right) = Self::reach(c.x as int, c.width as int, iteration, frame_w);
        let (top, bottom) = Self::reach(c.y as int, c.height as int, iteration, frame_h);
        &&& c.x + c.width + iteration * 20 <= u32::MAX
        &&& c.y + c.height + iteration * 20 <= u32::MAX
        &&& left <= right
        &&& top <= bottom
    }

    /// Whether the panel begins inside the frame, and the margins can be added.
    pub fn is_in_frame(&self, iteration: u32, frame_w: u32, frame_h: u32) -> (r: bool)
        ensures
            r == self.can_crop(iteration as int, frame_w as int, frame_h as int),
    {
        let c: CropRegion = self.initial_crop;
        let expand: i64 = iteration as i64 * 20;
        let right: i64 = c.x as i64 + c.width as i64 + expand;
        let bottom: i64 = c.y as i64 + c.height as i64 + expand;
        let left: i64 = if (c.x as i64) < expand {
            0
        } else {
            c.x as i64 - expand
        };
        let top: i64 = if (c.y as i64) < expand {
            0
        } else {
            c.y as i64 - expand
        };
        right <= 0xffff_ffff && bottom <= 0xffff_ffff && left <= min_exec(right, frame_w as i64)
            && top <= min_exec(bottom, frame_h as i64)
    }

    /// The part of a frame that an attempt cuts out.
    pub fn crop_for_iteration(&self, iteration: u32, frame_w: u32, frame_h: u32) -> (r: CropRegion)
        requires
            self.can_crop(iteration as int, frame_w as int, frame_h as int),
        ensures
            r == self.crop(iteration as int, frame_w as int, frame_h as int),
    {
        let c: CropRegion = self.initial_crop;
        let expand: u32 = iteration * MARGIN_STEP;
        let x: u32 = if c.x < expand {
            0
        } else {
            c.x - expand
        };
        let y: u32 = if c.y < expand {
            0
        } else {
            c.y - expand
        };
        let right: u32 = min_exec((c.x + c.width + expand) as i64, frame_w as i64) as u32;
        let bottom: u32 = min_exec((c.y + c.height + expand) as i64, frame_h as i64) as u32;
        CropRegion { x, y, width: right - x, height: bottom - y }
    }

    /// What an attempt decides to cut out of a frame.
    pub open spec fn is_crop_plan(
        &self,
        iteration: int,
        frame_w: int,
        frame_h: int,
        r: Result<CropRegion, StageOutcome>,
    ) -> bool {
        let c = self.crop(iteration, frame_w, frame_h);
        if frame_w == 0 || frame_h == 0 {
            r matches Err(o) && is_exhausted(o, "empty frame (0x0)"@)
        } else if c.width < 100 || c.height < 50 {
            r matches Err(o) && is_exhausted(o, "crop region too small for meaningful detection"@)
        } else {
            r == Ok::<CropRegion, StageOutcome>(c)
        }
    }

    /// Decides what an attempt cuts out of a frame.
    pub fn plan_crop(&self, iteration: u32, frame_w: u32, frame_h: u32) -> (r: Result<
        CropRegion,
        StageOutcome,
    >)
        requires
            frame_w > 0 && frame_h > 0 ==> self.can_crop(
                iteration as int,
                frame_w as int,
                frame_h as int,
            ),
        ensures
            self.is_crop_plan(iteration as int, frame_w as int, frame_h as int, r),
    {
        if frame_w == 0 || frame_h == 0 {
            return Err(StageOutcome::Exhausted(String::from_str("empty frame (0x0)")));
        }
        let crop: CropRegion = self.crop_for_iteration(iteration, frame_w, frame_h);
        if crop.width < 100 || crop.height < 50 {
            return Err(
                StageOutcome::Exhausted(
                    String::from_str("crop region too small for meaningful detection"),
                ),
            );
        }
        Ok(crop)
    }

    /// An attempt of the stage on a frame of this size; `cut` gives a part of the frame. A failed
    /// attempt leaves the state and the image as they were; one that succeeds changes the crop
    /// alone.
    pub fn run<I, E, C: Fn(&CropRegion) -> Result<I, E>>(
        &self,
        state: &mut PipelineState,
        dst: &mut I,
        frame_w: u32,
        frame_h: u32,
        iteration: u32,
        cut: &C,
    ) -> (r: Result<(StageOutcome, ImageOutput), E>)
        requires
            frame_w > 0 && frame_h > 0 ==> self.can_crop(
                iteration as int,
                frame_w as int,
                frame_h as int,
            ),
            forall|crop: &CropRegion| #[trigger] call_requires(*cut, (crop,)),
        ensures
            match r {
                Ok((outcome, output)) => match outcome {
                    StageOutcome::Success => {
                        &&& output is Transformed
                        &&& final(state).crop matches Some(crop) && self.is_crop_plan(
                            iteration as int,
                            frame_w as int,
                            frame_h as int,
                            Ok(crop),
                        ) && call_ensures(*cut, (&crop,), Ok(*final(dst)))
                        &&& final(state)@ == (StateView { crop: final(state).crop, ..old(state)@ })
                    },
                    _ => {
                        &&& output is Passthrough
                        &&& self.is_crop_plan(
                            iteration as int,
                            frame_w as int,
                            frame_h as int,
                            Err(outcome),
                        )
                        &&& final(state)@ == old(state)@
                        &&& *final(dst) == *old(dst)
                    },
                },
                Err(e) => {
                    let crop = self.crop(iteration as int, frame_w as int, frame_h as int);
                    &&& self.is_crop_plan(
                        iteration as int,
                        frame_w as int,
                        frame_h as int,
                        Ok(crop),
                    )
                    &&& call_ensures(*cut, (&crop,), Err(e))
                    &&& final(state)@ == old(state)@
                    &&& *final(dst) == *old(dst)
                },
            },
    {
        let crop: CropRegion = match self.plan_crop(iteration, frame_w, frame_h) {
            Ok(crop) => crop,
            Err(outcome) => return Ok((outcome, ImageOutput::Passthrough)),
        };
        match cut(&crop) {
            Ok(image) => *dst = image,
            Err(e) => return Err(e),
        }
        state.crop = Some(crop);
        Ok((StageOutcome::Success, ImageOutput::Transformed))
    }

    /// What is cut out always lies in the frame, and later attempts never cut out less.
    pub proof fn crops_lie_in_the_frame_and_grow(
        &self,
        iteration: int,
        later: int,
        frame_w: int,
        frame_h: int,
    )
        requires
            0 <= iteration <= later,
            0 <= frame_w <= u32::MAX,
            0 <= frame_h <= u32::MAX,
            self.can_crop(iteration, frame_w, frame_h),
            self.can_crop(later, frame_w, frame_h),
        ensures
            ({
                let a = self.crop(iteration, frame_w, frame_h);
                let b = self.crop(later, frame_w, frame_h);
                &&& a.x + a.width <= frame_w
                &&& a.y + a.height <= frame_h
                &&& b.x <= a.x && a.x + a.width <= b.x + b.width
                &&& b.y <= a.y && a.y + a.height <= b.y + b.height
            }),
    {
    }
}

/// The debug picture of the crop: a green rectangle around it.
pub fn debug_shapes(crop: &CropRegion) -> (r: (String, Vec<Shape>))
    ensures
        r.0@ == "S1:FindStove"@,
        drawing(r.1@) == seq![
            ShapeView::Rectangle {
                x: as_signed(crop.x as int),
                y: as_signed(crop.y as int),
                width: as_signed(crop.width as int),
                height: as_signed(crop.height as int),
                color: bgr(0, 255, 0),
                thickness: 2,
            },
        ],
{
    let mut shapes: Vec<Shape> = Vec::new();
    shapes.push(
        Shape::Rectangle {
            x: to_signed(crop.x),
            y: to_signed(crop.y),
            width: to_signed(crop.width),
            height: to_signed(crop.height),
            color: Color { blue: 0, green: 255, red: 0 },
            thickness: 2,
        },
    );
    assert(drawing(shapes@) =~= seq![
        ShapeView::Rectangle {
            x: as_signed(crop.x as int),
            y: as_signed(crop.y as int),
            width: as_signed(crop.width as int),
            height: as_signed(crop.height as int),
            color: bgr(0, 255, 0),
            thickness: 2,
        },
    ]);
    (String::from_str("S1:FindStove"), shapes)
}


/// Each attempt cuts out the initial region with twenty more pixels on every side, as far as the frame
/// goes.
pub proof fn attempts_widen_the_region(s: FindStove, iteration: int, frame_w: int, frame_h: int, x: int, y: int)
    requires
        iteration >= 0,
        0 <= frame_w <= u32::MAX,
        0 <= frame_h <= u32::MAX,
        s.can_crop(iteration, frame_w, frame_h),
    ensures
        ({
            let c = s.initial_crop;
            let r = s.crop(iteration, frame_w, frame_h);
            &&& r.x <= x < r.x + r.width <==> 0 <= x < frame_w && c.x - 20 * iteration <= x < c.x
                + c.width + 20 * iteration
            &&& r.y <= y < r.y + r.height <==> 0 <= y < frame_h && c.y - 20 * iteration <= y < c.y
                + c.height + 20 * iteration
        }),
{
}

/// A region is taken exactly if it has at least a hundred columns and fifty rows.
pub proof fn regions_are_large_enough(
    s: FindStove,
    iteration: int,
    frame_w: int,
    frame_h: int,
    r: Result<CropRegion, StageOutcome>,
)
    requires
        frame_w > 0,
        frame_h > 0,
        s.is_crop_plan(iteration, frame_w, frame_h, r),
    ensures
        r is Ok <==> s.crop(iteration, frame_w, frame_h).width >= 100 && s.crop(
            iteration,
            frame_w,
            frame_h,
        ).height >= 50,
        r matches Ok(c) ==> c == s.crop(iteration, frame_w, frame_h),
        r matches Err(o) ==> o is Exhausted,
{
}

} // verus!
