//! Settings for the knob detection, the lamps and the broker.
//!
//! Lengths and fractions are fixed-point numbers (see [`crate::fixed`]).

use vstd::prelude::*;

verus! {

/// The corners of the stove panel in the camera frame.
#[derive(Debug, Clone, Copy, PartialEq, Eq)]
pub struct SourcePoints {
    pub top_left: [i64; 2],
    pub bottom_left: [i64; 2],
    pub top_right: [i64; 2],
    pub bottom_right: [i64; 2],
}

/// How to find the knobs in the warped image.
#[derive(Debug, PartialEq, Eq)]
pub struct KnobDetection {
    /// The contrast limit of the histogram equalization.
    pub clahe_clip_limit: i64,
    /// The tiles per side of the histogram equalization.
    pub clahe_grid_size: i32,
    /// The accumulator resolution of the circle search.
    pub hough_dp: i64,
    /// The least distance of two circles.
    pub hough_min_dist: i64,
    /// The edge threshold of the circle search.
    pub hough_param1: i64,
    /// The accumulator threshold of the circle search.
    pub hough_param2: i64,
    /// The least radius of a knob in pixels.
    pub hough_min_radius: i32,
    /// The largest radius of a knob in pixels.
    pub hough_max_radius: i32,
    /// How many knobs there are.
    pub expected_count: usize,
    /// How far a knob may be off the row.
    pub y_tolerance_px: i64,
    /// How much a knob's radius may differ, as a fraction.
    pub size_tolerance_pct: i64,
    /// How much a gap between knobs may differ, as a fraction.
    pub spacing_tolerance_pct: i64,
    /// The top of the knob band, as a fraction of the height.
    pub y_band_top: i64,
    /// The bottom of the knob band, as a fraction of the height.
    pub y_band_bottom: i64,
    /// Where the first knob is expected.
    pub prior_x_start: i64,
    /// Where the last knob is expected.
    pub prior_x_end: i64,
    /// The height at which the knobs are expected.
    pub prior_y: i64,
    /// How far from its expected place a knob is looked for.
    pub slot_capture_radius: i64,
    /// The calibrated horizontal centers of the knobs, as far as they are known.
    pub knob_centers_x: Vec<i64>,
    /// The side of the square that is cut out around a knob, in pixels.
    pub knob_crop_size: i32,
}

/// The calibration of the camera.
#[derive(Debug, PartialEq, Eq)]
pub struct Calibration {
    pub frame_size: [i64; 2],
    /// The radial distortion of the lens, in billionths.
    pub distortion_k1: i64,
    /// The focal length in pixels; the frame's width stands for it where it is not positive.
    pub focal_length: i64,
    pub source_points: SourcePoints,
    pub knob_detection: KnobDetection,
}

/// Where a dial is in the warped image, and its angle when it is off.
#[derive(Debug, PartialEq, Eq)]
pub struct DialConfig {
    pub label: String,
    pub center_x: u32,
    pub center_y: u32,
    pub radius: u32,
    pub off_angle_deg: i64,
    pub off_tolerance_deg: i64,
}

/// The part of the frame that shows a lamp.
#[derive(Debug, PartialEq, Eq)]
pub struct LedConfig {
    pub label: String,
    pub x: u32,
    pub y: u32,
    pub width: u32,
    pub height: u32,
}

/// Where the readings are sent.
#[derive(Debug, PartialEq, Eq)]
pub struct MqttConfig {
    pub host: String,
    pub port: u16,
    pub keepalive_secs: u64,
    pub user: Option<String>,
    pub pass: Option<String>,
}

/// The contrast limit of the histogram equalization.
pub fn default_clahe_clip() -> (r: i64)
    ensures
        r == 3_000_000,
{
    3_000_000
}

/// The tiles per side of the histogram equalization.
pub fn default_clahe_grid() -> (r: i32)
    ensures
        r == 8,
{
    8
}

/// The accumulator resolution of the circle search.
pub fn default_dp() -> (r: i64)
    ensures
        r == 1_200_000,
{
    1_200_000
}

/// The least distance of two circles.
pub fn default_min_dist() -> (r: i64)
    ensures
        r == 60_000_000,
{
    60_000_000
}

/// The edge threshold of the circle search.
pub fn default_param1() -> (r: i64)
    ensures
        r == 80_000_000,
{
    80_000_000
}

/// The accumulator threshold of the circle search.
pub fn default_param2() -> (r: i64)
    ensures
        r == 35_000_000,
{
    35_000_000
}

/// The least radius of a knob in pixels.
pub fn default_min_r() -> (r: i32)
    ensures
        r == 20,
{
    20
}

/// The largest radius of a knob in pixels.
pub fn default_max_r() -> (r: i32)
    ensures
        r == 50,
{
    50
}

/// How many knobs there are.
pub fn default_count() -> (r: usize)
    ensures
        r == 10,
{
    10
}

/// How far a knob may be off the row.
pub fn default_y_tol() -> (r: i64)
    ensures
        r == 20_000_000,
{
    20_000_000
}

/// How much a knob's radius may differ, as a fraction.
pub fn default_size_tol() -> (r: i64)
    ensures
        r == 400_000,
{
    400_000
}

/// How much a gap between knobs may differ, as a fraction.
pub fn default_spacing_tol() -> (r: i64)
    ensures
        r == 350_000,
{
    350_000
}

/// The top of the knob band, as a fraction of the height.
pub fn default_y_band_top() -> (r: i64)
    ensures
        r == 250_000,
{
    250_000
}

/// The bottom of the knob band, as a fraction of the height.
pub fn default_y_band_bottom() -> (r: i64)
    ensures
        r == 750_000,
{
    750_000
}

/// Where the first knob is expected.
pub fn default_prior_x_start() -> (r: i64)
    ensures
        r == 50_000_000,
{
    50_000_000
}

/// Where the last knob is expected.
pub fn default_prior_x_end() -> (r: i64)
    ensures
        r == 1_150_000_000,
{
    1_150_000_000
}

/// The height at which the knobs are expected.
pub fn default_prior_y() -> (r: i64)
    ensures
        r == 125_000_000,
{
    125_000_000
}

/// How far from its expected place a knob is looked for.
pub fn default_slot_capture_radius() -> (r: i64)
    ensures
        r == 55_000_000,
{
    55_000_000
}

/// The side of the square that is cut out around a knob, in pixels.
pub fn default_crop_size() -> (r: i32)
    ensures
        r == 135,
{
    135
}

impl Default for KnobDetection {
    fn default() -> (r: Self)
        ensures
            r.clahe_clip_limit == 3_000_000,
            r.clahe_grid_size == 8,
            r.hough_dp == 1_200_000,
            r.hough_min_dist == 60_000_000,
            r.hough_param1 == 80_000_000,
            r.hough_param2 == 35_000_000,
            r.hough_min_radius == 20,
            r.hough_max_radius == 50,
            r.expected_count == 10,
            r.y_tolerance_px == 20_000_000,
            r.size_tolerance_pct == 400_000,
            r.spacing_tolerance_pct == 350_000,
            r.y_band_top == 250_000,
            r.y_band_bottom == 750_000,
            r.prior_x_start == 50_000_000,
            r.prior_x_end == 1_150_000_000,
            r.prior_y == 125_000_000,
            r.slot_capture_radius == 55_000_000,
            r.knob_centers_x.len() == 0,
            r.knob_crop_size == 135,
    {
        KnobDetection {
            clahe_clip_limit: default_clahe_clip(),
            clahe_grid_size: default_clahe_grid(),
            hough_dp: default_dp(),
            hough_min_dist: default_min_dist(),
            hough_param1: default_param1(),
            hough_param2: default_param2(),
            hough_min_radius: default_min_r(),
            hough_max_radius: default_max_r(),
            expected_count: default_count(),
            y_tolerance_px: default_y_tol(),
            size_tolerance_pct: default_size_tol(),
            spacing_tolerance_pct: default_spacing_tol(),
            y_band_top: default_y_band_top(),
            y_band_bottom: default_y_band_bottom(),
            prior_x_start: default_prior_x_start(),
            prior_x_end: default_prior_x_end(),
            prior_y: default_prior_y(),
            slot_capture_radius: default_slot_capture_radius(),
            knob_centers_x: Vec::new(),
            knob_crop_size: default_crop_size(),
        }
    }
}

} // verus!
