use oven_vision::annotate::{annotate_frame, can_draw_dial};
use oven_vision::config::{Calibration, DialConfig, KnobDetection, LedConfig, SourcePoints};
use oven_vision::detect::{DialReading, DialState, HeatLevel};
use oven_vision::draw::{Color, Shape};
use oven_vision::stage::angle::{read_angle, template_angles, template_path, Angle, Confidence};
use oven_vision::stage::annotate::Annotate;
use oven_vision::stage::detect::{canny_thresholds, Detect, Ellipse, Knob};
use oven_vision::stage::enhance::Enhance;
use oven_vision::stage::output::{
    describe_stages, frame_path, frame_summary, stage_output, stage_prefix,
};
use oven_vision::stage::reproject::{remap_tables, world_points, Reproject};
use oven_vision::stage::sanity::{Sanity, SanityResult};
use oven_vision::stage::undistort::Undistort;
use oven_vision::stage::warp::Warp;
use oven_vision::stage::{angle, detect, enhance, sanity, warp, FrameState, Stage};
use oven_vision::types::{LedReading, LedState};

const PX: i64 = 1_000_000;

fn settings() -> KnobDetection {
    KnobDetection::default()
}

fn calibration() -> Calibration {
    Calibration {
        frame_size: [2560 * PX, 1440 * PX],
        distortion_k1: -30_000_000,
        focal_length: 0,
        source_points: SourcePoints {
            top_left: [10 * PX, 20 * PX],
            bottom_left: [12 * PX, 220 * PX],
            top_right: [900 * PX, 25 * PX],
            bottom_right: [905 * PX, 230 * PX],
        },
        knob_detection: settings(),
    }
}

fn knob(x: i64, y: i64, radius: i64) -> Knob {
    Knob { x: x * PX, y: y * PX, radius: radius * PX, slot: 0, synthetic: false }
}

fn knob_row() -> Vec<Knob> {
    (0..10)
        .map(|i| Knob {
            x: (50 * PX) + i * 122_222_222,
            y: 125 * PX,
            radius: 30 * PX,
            slot: i as usize,
            synthetic: false,
        })
        .collect()
}

#[test]
fn knobs_take_their_slots() {
    let stage = Detect::new(&settings());
    let found = stage.assign(&vec![knob(60, 120, 30), knob(1140, 130, 34)]);
    assert_eq!(found.len(), 10);
    assert_eq!(found[0].x, 55 * PX);
    assert_eq!(found[9].x, 1145 * PX);
    assert!(!found[0].synthetic && !found[9].synthetic);
    assert!(found[1].synthetic && found[8].synthetic);
    assert!(found.iter().all(|k| k.radius == 34 * PX && k.y == 130 * PX));
    assert_eq!(found[4].slot, 4);
    let nothing = stage.assign(&Vec::new());
    assert!(nothing.iter().all(|k| k.synthetic && k.y == 125 * PX && k.radius == 35 * PX));
}

#[test]
fn the_nearest_candidate_is_taken_once() {
    let stage = Detect::new(&settings());
    let found = stage.assign(&vec![knob(90, 125, 30), knob(52, 125, 30)]);
    assert_eq!(found[0].x, 51 * PX);
    assert!(found[1].synthetic);
}

#[test]
fn places_are_not_rounded() {
    // The second place lies two ninths of a millionth beyond 172.222222.
    let stage = Detect::new(&settings());
    let before = Knob { x: 172_222_217, ..knob(0, 125, 30) };
    let behind = Knob { x: 172_222_227, ..knob(0, 125, 30) };
    let found = stage.assign(&vec![before, behind]);
    assert_eq!(found[1].x, 172_222_224);
    let mut single = settings();
    single.expected_count = 1;
    let alone = Detect::new(&single).assign(&vec![knob(50, 125, 30), knob(0, 125, 30)]);
    assert_eq!(alone.len(), 1);
    assert_eq!((alone[0].x, alone[0].radius, alone[0].synthetic), (0, 30 * PX, true));
    let far = Knob { x: i64::MAX, y: i64::MIN, ..knob(0, 0, 30) };
    assert!(stage.assign(&vec![far]).iter().all(|k| k.synthetic && k.radius == 30 * PX));
}

#[test]
fn outlines_are_filtered() {
    let stage = Detect::new(&settings());
    assert!(!stage.outline_fits(4, 100 * PX));
    assert!(stage.outline_fits(5, 100 * PX));
    assert!(!stage.outline_fits(5, 62 * PX));
    assert!(!stage.outline_fits(5, 786 * PX));
    let round = Ellipse { center_x: 100 * PX, center_y: 125 * PX, width: 60 * PX, height: 56 * PX };
    let taken = stage.candidate(&round, 250).unwrap();
    assert_eq!((taken.x, taken.y, taken.radius), (100 * PX, 125 * PX, 29 * PX));
    let flat = Ellipse { width: 100 * PX, height: 30 * PX, ..round };
    assert!(stage.candidate(&flat, 250).is_none());
    let high = Ellipse { center_y: 60 * PX, ..round };
    assert!(stage.candidate(&high, 250).is_none());
    let tiny = Ellipse { width: 20 * PX, height: 20 * PX, ..round };
    assert!(stage.candidate(&tiny, 250).is_none());
    assert_eq!(detect::no_enhanced_frame().text(), "[detect] no enhanced frame");
    assert_eq!(canny_thresholds(40, 60), (100, 300));
}

#[test]
fn a_straight_row_passes() {
    let result = Sanity::new(&settings()).check(&knob_row());
    assert!(result.ok);
    assert_eq!(result.details, "PASS");
}

#[test]
fn a_crooked_row_is_described() {
    let stage = Sanity::new(&settings());
    let mut knobs = knob_row();
    knobs[0].y = 185 * PX;
    let bent = stage.check(&knobs);
    assert!(!bent.ok && !bent.y_aligned);
    assert_eq!(bent.details, "y_dev=54.0px");
    knobs = knob_row();
    knobs[3].radius = 60 * PX;
    assert_eq!(stage.check(&knobs).details, "size_dev=100%");
    knobs = knob_row();
    knobs[9].x = knobs[8].x;
    let crowded = stage.check(&knobs);
    assert!(!crowded.spacing_uniform);
    assert_eq!(crowded.details, "spacing_dev=100%");
    knobs = knob_row();
    for k in knobs.iter_mut().take(9) {
        k.synthetic = true;
    }
    let lone = stage.check(&knobs);
    assert_eq!(lone.details, "synthetic=9/10");
    assert_eq!(lone.synthetic_count, 9);
    assert!(!lone.ok && !lone.count_ok);
    let mut state: FrameState<Vec<u8>> = FrameState::new(Vec::new());
    state.knobs = knob_row();
    Stage::<Vec<u8>>::process(&stage, &mut state).unwrap();
    assert!(state.sanity.unwrap().ok);
    assert_eq!(sanity::name(), "sanity");
    assert_eq!(Stage::<Vec<u8>>::name(&stage), "sanity");
}

#[test]
fn the_best_template_gives_the_angle() {
    let angles: Vec<i64> = template_angles().iter().map(|a| *a as i64 * PX).collect();
    assert_eq!(template_angles(), vec![0, 30, 60, 90, 120, 150]);
    let clear = read_angle(&angles, &vec![0, 100_000_000, 900_000_000, 0, 0, 0]);
    assert_eq!((clear.angle_deg, clear.confidence, clear.match_score), (60 * PX, Confidence::High, 900_000_000));
    let close = read_angle(&angles, &vec![0, 850_000_000, 900_000_000, 0, 0, 0]);
    assert_eq!(close.confidence, Confidence::Low);
    let weak = read_angle(&angles, &vec![0, 0, 300_000_000, 0, 0, 0]);
    assert_eq!(weak.confidence, Confidence::Ambiguous);
    assert_eq!(template_path("/t", 30), "/t/template_30deg.jpg");
    assert_eq!(angle::no_binary_mask().text(), "[angle] no binary mask");
}

#[test]
fn knobs_are_cut_out_around_their_centers() {
    let mut kd = settings();
    kd.knob_centers_x = vec![200 * PX];
    let stage = Angle::new(&kd, vec![0]);
    let inner = stage.plan_crop(0, &knob(500, 100, 30), 1200, 250).unwrap();
    assert_eq!((inner.x, inner.y, inner.width, inner.height), (133, 58, 135, 135));
    assert!(!inner.pad);
    let other = stage.plan_crop(1, &knob(500, 100, 30), 1200, 250).unwrap();
    assert_eq!(other.x, 433);
    assert!(stage.plan_crop(1, &Knob { synthetic: true, ..knob(500, 100, 30) }, 1200, 250).is_none());
    assert!(stage.plan_crop(1, &knob(1200, 100, 30), 1200, 100).is_none());
}

#[test]
fn the_outer_knobs_are_clipped() {
    let mut kd = settings();
    kd.knob_centers_x = vec![50 * PX, 1169 * PX];
    kd.prior_y = 125 * PX;
    kd.knob_crop_size = 135;
    let stage = Angle::new(&kd, vec![0]);
    let first = stage.plan_crop(0, &knob(50, 125, 30), 1200, 250).unwrap();
    assert_eq!((first.x, first.y, first.width, first.height), (0, 58, 118, 135));
    assert!(first.pad);
    let last = stage.plan_crop(1, &knob(1169, 125, 30), 1200, 250).unwrap();
    assert_eq!((last.x, last.y, last.width, last.height), (1102, 58, 98, 135));
    assert!(last.pad);
}

#[test]
fn frames_show_their_best_image() {
    let mut state: FrameState<u8> = FrameState::new(1);
    assert_eq!(*state.current_image(), 1);
    assert_eq!(*warp::input(&state), 1);
    assert_eq!(enhance::input(&state).unwrap_err().text(), "[enhance] no warped frame");
    state.undistorted = Some(2);
    assert_eq!(*state.current_image(), 2);
    assert_eq!(*warp::input(&state), 2);
    state.warped = Some(3);
    assert_eq!(*state.current_image(), 3);
    assert_eq!(*enhance::input(&state).unwrap(), 3);
    assert_eq!(*stage_output(&state, "reproject"), Some(3));
    assert_eq!(*stage_output(&state, "undistort"), Some(2));
    assert_eq!(*stage_output(&state, "sanity"), None);
    let enhanced = Enhance::new(&settings());
    assert_eq!((enhanced.clip_limit, enhanced.grid_size), (3 * PX, 8));
}

#[test]
fn knobs_and_verdict_are_drawn() {
    let mut state: FrameState<u8> = FrameState::new(0);
    assert_eq!(Annotate.shapes(&state, 250).unwrap_err().text(), "[annotate] no warped frame");
    state.warped = Some(0);
    state.knobs = vec![knob(100, 125, 30), Knob { slot: 1, synthetic: true, ..knob(200, 125, 30) }];
    let shapes = Annotate.shapes(&state, 250).unwrap();
    let orange = Color { blue: 0, green: 128, red: 255 };
    let red = Color { blue: 0, green: 0, red: 255 };
    assert_eq!(shapes.len(), 6);
    assert_eq!(
        shapes[0],
        Shape::Circle { x: 100, y: 125, radius: 30, color: orange, thickness: 2, smooth: true }
    );
    assert_eq!(
        shapes[4],
        Shape::Text {
            text: "?2".to_string(),
            x: 190,
            y: 89,
            size: 40,
            color: red,
            thickness: 1,
            smooth: true,
        }
    );
    assert_eq!(
        shapes[5],
        Shape::Text {
            text: "1/2 real | FAIL | y:? sz:? sp:?".to_string(),
            x: 10,
            y: 240,
            size: 50,
            color: orange,
            thickness: 1,
            smooth: true,
        }
    );
    state.sanity = Some(SanityResult {
        ok: true,
        count_ok: true,
        y_aligned: true,
        size_uniform: true,
        spacing_uniform: false,
        synthetic_count: 1,
        details: "PASS".to_string(),
    });
    let passed = Annotate.shapes(&state, 250).unwrap();
    assert!(matches!(&passed[5], Shape::Text { text, .. } if text == "1/2 real | PASS | y:ok sz:ok sp:FAIL"));
    assert_eq!(frame_summary(&state), "2 knobs | PASS");
    state.sanity = None;
    assert_eq!(frame_summary(&state), "2 knobs | no sanity");
}

#[test]
fn files_are_named_after_frame_and_stage() {
    assert_eq!(stage_prefix("/out", 3, 0, "reproject"), "/out/f03_s1_reproject");
    assert_eq!(frame_path("/out", 12), "/out/frame_0012.jpg");
    assert_eq!(frame_path("/out", 123456), "/out/frame_123456.jpg");
    assert_eq!(describe_stages(&vec!["reproject", "enhance"]), "s1_reproject → s2_enhance");
    assert_eq!(describe_stages(&Vec::new()), "");
}

#[test]
fn the_camera_follows_the_calibration() {
    let mut calib = calibration();
    let straight = Undistort::new(&calib).unwrap();
    assert_eq!(straight.camera.focal_length, 2560 * PX);
    assert_eq!(straight.camera.twice_center_y, 1440 * PX);
    let warp = Warp::new(&calib, 1200, 250);
    assert_eq!(
        warp.source,
        vec![[10 * PX, 20 * PX], [900 * PX, 25 * PX], [905 * PX, 230 * PX], [12 * PX, 220 * PX]]
    );
    assert_eq!(warp.target, vec![(0, 0), (1200, 0), (1200, 250), (0, 250)]);
    assert_eq!(Reproject::new(&calib, 1200, 250).camera.focal_length, 2560 * PX);
    calib.focal_length = 1800 * PX;
    calib.distortion_k1 = 0;
    assert_eq!(Reproject::new(&calib, 1200, 250).camera.focal_length, 1800 * PX);
    assert!(Undistort::new(&calib).is_none());
}

#[test]
fn every_pixel_is_looked_up() {
    let points = world_points(3, 2);
    assert_eq!(points, vec![(0, 0), (1, 0), (2, 0), (0, 1), (1, 1), (2, 1)]);
    let (across, down) = remap_tables(&vec![(1, 2), (3, 4)], 2, 1).unwrap();
    assert_eq!((across, down), (vec![1, 3], vec![2, 4]));
    assert!(remap_tables(&vec![(1, 2)], 2, 1).is_none());
}

#[test]
fn readings_are_drawn() {
    let dial = DialConfig {
        label: "front".to_string(),
        center_x: 100,
        center_y: 80,
        radius: 20,
        off_angle_deg: 0,
        off_tolerance_deg: 25 * PX,
    };
    let led = LedConfig { label: "left".to_string(), x: 10, y: 20, width: 30, height: 15 };
    let reading = DialReading {
        label: "front".to_string(),
        state: DialState::On(HeatLevel::High),
        angle_deg: Some(90 * PX),
        confidence: 200_000_000,
    };
    let lamp = LedReading { label: "left".to_string(), state: LedState::On };
    assert!(can_draw_dial(&reading, &dial, (0, 1_000_000_000)));
    let far = DialConfig { label: "far".to_string(), center_x: u32::MAX, ..dial };
    assert!(!can_draw_dial(&reading, &far, (0, 1_000_000_000)));
    let dial = DialConfig { center_x: 100, ..far };
    let shapes = annotate_frame(
        &vec![reading],
        &vec![lamp],
        &vec![dial],
        &vec![led],
        &vec![(0, 1_000_000_000)],
    );
    let color = |blue, green, red| Color { blue, green, red };
    assert_eq!(
        shapes,
        vec![
            Shape::Circle { x: 100, y: 80, radius: 20, color: color(0, 255, 0), thickness: 1, smooth: false },
            Shape::Line { x1: 100, y1: 80, x2: 100, y2: 100, color: color(0, 0, 255), thickness: 1 },
            Shape::Circle { x: 100, y: 48, radius: 5, color: color(0, 165, 255), thickness: -1, smooth: false },
            Shape::Line { x1: 80, y1: 56, x2: 88, y2: 56, color: color(50, 50, 255), thickness: 1 },
            Shape::Rectangle { x: 10, y: 20, width: 30, height: 15, color: color(255, 0, 255), thickness: 1 },
            Shape::Circle { x: 16, y: 26, radius: 4, color: color(255, 255, 0), thickness: -1, smooth: false },
        ]
    );
}
