//! The stage that maps every pixel of the panel to its place in the raw frame.

use vstd::prelude::*;

use super::undistort::Intrinsics;
use super::warp::image_corners;
use super::warp::panel_corners;
use super::warp::source_corners;
use super::warp::target_corners;
use super::{FrameState, StageError};
use crate::config::Calibration;

verus! {

/// What the stage's map is made from.
#[derive(Debug, PartialEq, Eq)]
pub struct Reproject {
    pub camera: Intrinsics,
    /// The radial distortion, in billionths.
    pub distortion_k1: i64,
    /// The panel's corners in its own plane, one unit per pixel.
    pub panel: Vec<(i32, i32)>,
    /// The same corners in the frame.
    pub frame: Vec<[i64; 2]>,
    pub dst_w: i32,
    pub dst_h: i32,
}

/// The name of the stage.
pub fn name() -> (r: &'static str)
    ensures
        r@ == "reproject"@,
{
    "reproject"
}

/// The inner geometry of the calibrated camera: the frame's width stands for
/// a focal length that is not known, and the optical axis meets the middle.
pub open spec fn camera_of(calib: &Calibration) -> Intrinsics {
    Intrinsics {
        focal_length: if calib.focal_length > 0 {
            calib.focal_length
        } else {
            calib.frame_size@[0]
        },
        twice_center_x: calib.frame_size@[0],
        twice_center_y: calib.frame_size@[1],
    }
}

impl Reproject {
    /// The stage for a panel of this size.
    pub fn new(calib: &Calibration, dst_w: i32, dst_h: i32) -> (r: Self)
        ensures
            r.camera == camera_of(calib),
            r.distortion_k1 == calib.distortion_k1,
            r.panel@ == image_corners(dst_w, dst_h),
            r.frame@ == panel_corners(calib.source_points),
            r.dst_w == dst_w,
            r.dst_h == dst_h,
    {
        let focal_length: i64 = if calib.focal_length > 0 {
            calib.focal_length
        } else {
            calib.frame_size[0]
        };
        Reproject {
            camera: Intrinsics {
                focal_length,
                twice_center_x: calib.frame_size[0],
                twice_center_y: calib.frame_size[1],
            },
            distortion_k1: calib.distortion_k1,
            panel: target_corners(dst_w, dst_h),
            frame: source_corners(&calib.source_points),
            dst_w,
            dst_h,
        }
    }

    /// Maps a frame; `remap` gives an image of the panel. A failure leaves the
    /// frame as it was; a success changes the warped image alone.
    pub fn process<M, F: Fn(&M) -> Result<M, StageError>>(
        &self,
        state: &mut FrameState<M>,
        remap: &F,
    ) -> (r: Result<(), StageError>)
        requires
            forall|image: &M| #[trigger] call_requires(*remap, (image,)),
        ensures
            ({
                let given = old(state).raw;
                match r {
                    Ok(_) => {
                        &&& final(state).warped matches Some(image) && call_ensures(
                            *remap,
                            (&given,),
                            Ok(image),
                        )
                        &&& *final(state) == (FrameState {
                            warped: final(state).warped,
                            ..*old(state)
                        })
                    },
                    Err(e) => {
                        &&& call_ensures(*remap, (&given,), Err(e))
                        &&& *final(state) == *old(state)
                    },
                }
            }),
    {
        let image: M = match remap(&state.raw) {
            Ok(image) => image,
            Err(e) => return Err(e),
        };
        state.warped = Some(image);
        Ok(())
    }
}

/// The pixels of an image of this size, row after row.
pub open spec fn pixel_grid(width: int, height: int) -> Seq<(int, int)> {
    Seq::new((width * height) as nat, |k: int| (k % width, k / width))
}

/// The pixels of an image of this size, row after row.
pub fn world_points(width: i32, height: i32) -> (r: Vec<(i32, i32)>)
    requires
        0 <= width,
        0 <= height,
        width * height <= i32::MAX,
    ensures
        r@.len() == pixel_grid(width as int, height as int).len(),
        forall|k: int|
            0 <= k < r@.len() ==> (#[trigger] r@[k].0 as int, r@[k].1 as int) == pixel_grid(
                width as int,
                height as int,
            )[k],
{
    assert(0 <= width * height) by (nonlinear_arith)
        requires
            0 <= width,
            0 <= height,
    ;
    let total: i32 = width * height;
    let mut r: Vec<(i32, i32)> = Vec::new();
    let mut k: i32 = 0;
    while k < total
        invariant
            0 <= width,
            0 <= height,
            total == width * height,
            0 <= k <= total,
            r@.len() == k,
            forall|j: int|
                0 <= j < k ==> (#[trigger] r@[j].0 as int, r@[j].1 as int) == (
                    j % width as int,
                    j / width as int,
                ),
        decreases total - k,
    {
        assert(width > 0) by (nonlinear_arith)
            requires
                0 <= width,
                0 <= k < width * height,
        ;
        let (w, n): (u32, u32) = (width as u32, k as u32);
        assert(n % w < w && n / w <= n) by (nonlinear_arith)
            requires
                w > 0,
        ;
        r.push(((n % w) as i32, (n / w) as i32));
        k = k + 1;
    }
    r
}

/// The tables that say, for each pixel of the panel, where in the frame it
/// is looked up: across and down, row after row. There are none where some
/// pixel has no place.
pub fn remap_tables<T: Copy>(projected: &Vec<(T, T)>, width: i32, height: i32) -> (r: Option<
    (Vec<T>, Vec<T>),
>)
    requires
        0 <= width,
        0 <= height,
        width * height <= i32::MAX,
    ensures
        match r {
            Some((across, down)) => {
                &&& width * height <= projected@.len()
                &&& across@.len() == width * height
                &&& down@.len() == width * height
                &&& forall|k: int|
                    0 <= k < width * height ==> (#[trigger] across@[k], #[trigger] down@[k])
                        == projected@[k]
            },
            None => projected@.len() < width * height,
        },
{
    assert(0 <= width * height) by (nonlinear_arith)
        requires
            0 <= width,
            0 <= height,
    ;
    let total: usize = (width * height) as usize;
    if projected.len() < total {
        return None;
    }
    let mut across: Vec<T> = Vec::new();
    let mut down: Vec<T> = Vec::new();
    let mut k: usize = 0;
    while k < total
        invariant
            total <= projected@.len(),
            k <= total,
            across@.len() == k,
            down@.len() == k,
            forall|j: int|
                0 <= j < k ==> (#[trigger] across@[j], #[trigger] down@[j]) == projected@[j],
        decreases total - k,
    {
        let p: (T, T) = projected[k];
        across.push(p.0);
        down.push(p.1);
        k = k + 1;
    }
    Some((across, down))
}


/// Every pixel of the image is in the grid once, row after row.
pub proof fn grids_hold_every_pixel(width: int, height: int, x: int, y: int)
    requires
        0 <= x < width,
        0 <= y < height,
    ensures
        pixel_grid(width, height).len() == width * height,
        0 <= y * width + x < width * height,
        pixel_grid(width, height)[y * width + x] == (x, y),
{
    let k = y * width + x;
    assert(0 <= k < width * height) by (nonlinear_arith)
        requires
            k == y * width + x,
            0 <= x < width,
            0 <= y < height,
    ;
    vstd::arithmetic::div_mod::lemma_fundamental_div_mod_converse(k, width, y, x);
}

/// The camera looks through the middle of the frame. Its focal length is the given one, or the width
/// of the frame where none is given.
pub proof fn cameras_look_through_the_middle(calib: &Calibration)
    ensures
        camera_of(calib).twice_center_x == calib.frame_size@[0],
        camera_of(calib).twice_center_y == calib.frame_size@[1],
        calib.focal_length > 0 ==> camera_of(calib).focal_length == calib.focal_length,
        calib.focal_length <= 0 ==> camera_of(calib).focal_length == calib.frame_size@[0],
{
}

} // verus!
