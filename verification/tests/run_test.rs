use oven_vision::draw::Shape;
use oven_vision::pipeline::extract_band::ExtractBand;
use oven_vision::pipeline::find_clock::{ClockPlan, FindClock};
use oven_vision::pipeline::find_corner::{BarBand, FindCorner, WallBand};
use oven_vision::pipeline::find_features::{
    clock_match, knob_matches, FeaturePlan, FindFeatures,
};
use oven_vision::pipeline::find_lines::FindLines;
use oven_vision::pipeline::find_stove::FindStove;
use oven_vision::pipeline::perspective::{Perspective, PerspectivePlan};
use oven_vision::pipeline::refine_warp::{Quadrilateral, RefineWarp, RefinedCrop};
use oven_vision::pipeline::stage::{
    CircleFeature, CropRegion, DetectedFeatures, KnobSearchArea, Line, LinePair,
    PerspectiveCorrection, PipelineState, StageOutcome, TransformMatrix, VerticalPair,
};
use oven_vision::pipeline::util::HoughLine;
use oven_vision::pipeline::warp_check::WarpCheck;
use oven_vision::pipeline::ImageOutput;
use oven_vision::config::KnobDetection;
use oven_vision::stage::angle::{Angle, AngleReading, Confidence, CropPlan};
use oven_vision::stage::annotate::{can_annotate, Annotate};
use oven_vision::stage::detect::{Detect, Ellipse, Knob};
use oven_vision::stage::enhance::Enhance;
use oven_vision::stage::{FrameState, StageError};

const PX: i64 = 1_000_000;

type Outcome = Result<(StageOutcome, ImageOutput), String>;

fn passed() -> Outcome {
    Ok((StageOutcome::Success, ImageOutput::Passthrough))
}

fn transformed() -> Outcome {
    Ok((StageOutcome::Success, ImageOutput::Transformed))
}

fn retry(text: &str) -> Outcome {
    Ok((StageOutcome::Retry(text.to_string()), ImageOutput::Passthrough))
}

fn over(text: &str) -> Outcome {
    Ok((StageOutcome::Exhausted(text.to_string()), ImageOutput::Passthrough))
}

fn broken<T>() -> Result<T, String> {
    Err("broken".to_string())
}

fn line(x1: i64, y1: i64, x2: i64, y2: i64) -> Line {
    Line { x1: x1 * PX, y1: y1 * PX, x2: x2 * PX, y2: y2 * PX }
}

fn area() -> KnobSearchArea {
    KnobSearchArea {
        y_min: 8 * PX,
        y_max: 220 * PX,
        x_min: 0,
        clock_center_x: 0,
        clock_center_y: 0,
        clock_radius: 0,
        corner_x: None,
        corner_y: None,
    }
}

fn features() -> DetectedFeatures {
    let knobs: Vec<CircleFeature> = (0..10)
        .map(|i| CircleFeature {
            center_x: (120 + i * 65) * PX,
            center_y: 100 * PX,
            radius: 12 * PX,
        })
        .collect();
    DetectedFeatures {
        clock: CircleFeature { center_x: 50 * PX, center_y: 100 * PX, radius: 20 * PX },
        knobs,
        off_angles: vec![0; 10],
    }
}

/// A state in which every stage has passed.
fn full() -> PipelineState {
    PipelineState {
        crop: Some(CropRegion { x: 1, y: 2, width: 800, height: 300 }),
        lines: Some(LinePair {
            top: line(0, 10, 800, 10),
            bottom: line(0, 50, 800, 50),
            avg_theta: 90 * PX,
        }),
        verticals: Some(VerticalPair {
            left: line(10, 0, 10, 300),
            right: line(790, 0, 790, 300),
        }),
        perspective: Some(PerspectiveCorrection {
            matrix: TransformMatrix([[1; 3]; 3]),
            output_width: 800,
            output_height: 380,
        }),
        knob_search: Some(area()),
        features: Some(features()),
        validated: false,
    }
}

#[test]
fn the_stove_is_cut_out_and_noted() {
    let stage = FindStove::new();
    let cut = |c: &CropRegion| -> Result<u32, String> { Ok(c.width * c.height) };
    let (mut state, mut image) = (full(), 7);
    assert_eq!(stage.run(&mut state, &mut image, 2560, 1440, 0, &cut), transformed());
    let crop = CropRegion { x: 1300, y: 830, width: 870, height: 450 };
    assert_eq!(state, PipelineState { crop: Some(crop), ..full() });
    assert_eq!(image, 870 * 450);

    let (mut state, mut image) = (full(), 7);
    let empty = stage.run(&mut state, &mut image, 0, 0, 0, &cut);
    assert_eq!(empty, over("empty frame (0x0)"));
    let fail = |_: &CropRegion| -> Result<u32, String> { broken() };
    assert_eq!(stage.run(&mut state, &mut image, 2560, 1440, 0, &fail), broken());
    assert_eq!((state, image), (full(), 7));
}

fn hough(rho: i64, theta: i64) -> HoughLine {
    HoughLine { rho: rho * PX, theta: theta * PX }
}

fn towards(theta: i64) -> (i64, i64) {
    assert_eq!(theta, 90 * PX);
    (0, 1_000_000_000)
}

#[test]
fn the_lines_are_noted() {
    let found = |low: i64, high: i64, least: i64| -> Result<Vec<HoughLine>, String> {
        assert_eq!((low, high, least), (74, 186, 185));
        Ok(vec![hough(20, 90), hough(60, 90)])
    };
    let mut state = full();
    assert_eq!(FindLines.run(&mut state, 5, &found, &towards), passed());
    let lines = LinePair {
        top: line(0, 20, 800, 20),
        bottom: line(0, 60, 800, 60),
        avg_theta: 90 * PX,
    };
    assert_eq!(state, PipelineState { lines: Some(lines), ..full() });

    let few = |_: i64, _: i64, _: i64| -> Result<Vec<HoughLine>, String> { Ok(Vec::new()) };
    let mut state = full();
    assert_eq!(
        FindLines.run(&mut state, 0, &few, &towards),
        retry("found 0 horizontal lines (need 2), canny=80/200, hough=200")
    );
    let fail = |_: i64, _: i64, _: i64| -> Result<Vec<HoughLine>, String> { broken() };
    assert_eq!(FindLines.run(&mut state, 0, &fail, &towards), broken());
    assert_eq!(state, full());

    let mut state = PipelineState::default();
    let without = FindLines.run(&mut state, 0, &fail, &towards);
    assert_eq!(without, over("no crop region from Stage 1"));
    assert_eq!(state, PipelineState::default());
}

#[test]
fn the_warp_is_noted() {
    let matrix = TransformMatrix([[9; 3]; 3]);
    let warp = |plan: &PerspectivePlan| -> Result<Option<(i32, TransformMatrix)>, String> {
        Ok(Some((plan.width, matrix)))
    };
    let (mut state, mut image) = (full(), 7);
    assert_eq!(Perspective.run(&mut state, &mut image, 0, &warp), transformed());
    let correction = PerspectiveCorrection { matrix, output_width: 800, output_height: 380 };
    assert_eq!(state, PipelineState { perspective: Some(correction), ..full() });
    assert_eq!(image, 800);

    let (mut state, mut image) = (full(), 7);
    let empty = |_: &PerspectivePlan| -> Result<Option<(i32, TransformMatrix)>, String> {
        Ok(None)
    };
    assert_eq!(
        Perspective.run(&mut state, &mut image, 0, &empty),
        retry("warp produced empty image")
    );
    let fail = |_: &PerspectivePlan| -> Result<Option<(i32, TransformMatrix)>, String> {
        broken()
    };
    assert_eq!(Perspective.run(&mut state, &mut image, 0, &fail), broken());
    assert_eq!((&state, image), (&full(), 7));
    state.verticals = None;
    assert_eq!(
        Perspective.run(&mut state, &mut image, 0, &warp),
        over("missing crop, lines, or verticals from previous stages")
    );
}

#[test]
fn the_warp_is_checked_without_a_trace() {
    let level = || -> Result<Vec<HoughLine>, String> { Ok(vec![hough(10, 91)]) };
    let steep = || -> Result<Vec<HoughLine>, String> { Ok(vec![hough(10, 45)]) };
    let fail = || -> Result<Vec<HoughLine>, String> { broken() };
    let mut state = full();
    assert_eq!(WarpCheck.run(&mut state, false, &level), passed());
    assert_eq!(
        WarpCheck.run(&mut state, false, &steep),
        over("no near-horizontal lines found in warped image")
    );
    assert_eq!(WarpCheck.run(&mut state, true, &fail), over("empty warped image"));
    assert_eq!(WarpCheck.run(&mut state, false, &fail), broken());
    assert_eq!(state, full());
}

#[test]
fn the_band_is_cut_out_and_noted() {
    let cut = |width: u32, top: i32, rows: i32| -> Result<(u32, i32, i32), String> {
        Ok((width, top, rows))
    };
    let old = Some(KnobSearchArea { x_min: 5, corner_x: Some(3), ..area() });
    let before = || PipelineState { knob_search: old, ..full() };
    let (mut state, mut image) = (before(), (0, 0, 0));
    assert_eq!(ExtractBand.run(&mut state, &mut image, &cut), transformed());
    assert_eq!(state, full());
    assert_eq!(image, (800, 8, 212));

    let fail = |_: u32, _: i32, _: i32| -> Result<(u32, i32, i32), String> { broken() };
    let (mut state, mut image) = (before(), (0, 0, 0));
    assert_eq!(ExtractBand.run(&mut state, &mut image, &fail), broken());
    assert_eq!((&state, image), (&before(), (0, 0, 0)));
    state.lines = None;
    assert_eq!(
        ExtractBand.run(&mut state, &mut image, &cut),
        over("missing lines, verticals, or perspective")
    );
}

#[test]
fn the_clock_is_noted() {
    let stage = FindClock { template_loaded: true, template_width: 100, template_height: 100 };
    let band = |plan: &ClockPlan| -> Result<(u32, u32, u32), String> {
        assert_eq!((plan.scale, plan.width, plan.height), (150_000, 15, 15));
        Ok((5, 400, 100))
    };
    let best = |edges: &u32, columns: u32| -> Result<(i64, u32, u32), String> {
        assert_eq!((*edges, columns), (5, 140));
        Ok((300_000_000, 10, 20))
    };
    let cut = |x: i32| -> Result<i32, String> { Ok(x) };
    let (mut state, mut image) = (full(), 7);
    assert_eq!(stage.run(&mut state, &mut image, 6, &band, &best, &cut), transformed());
    let placed = KnobSearchArea {
        x_min: 28 * PX,
        clock_center_x: 17_500_000,
        clock_center_y: 35_500_000,
        clock_radius: 7_500_000,
        ..area()
    };
    assert_eq!(state, PipelineState { knob_search: Some(placed), ..full() });
    assert_eq!(image, 28);

    let (mut state, mut image) = (full(), 7);
    let dim = |_: &u32, _: u32| -> Result<(i64, u32, u32), String> { Ok((0, 0, 0)) };
    assert_eq!(
        stage.run(&mut state, &mut image, 6, &band, &dim, &cut),
        retry("clock match too low: 0.00 (need 0.25), scale=0.15")
    );
    let narrow = |_: &ClockPlan| -> Result<(u32, u32, u32), String> { Ok((5, 15, 100)) };
    assert_eq!(
        stage.run(&mut state, &mut image, 6, &narrow, &best, &cut),
        retry("clock template larger than band at scale 0.15")
    );
    let no_band = |_: &ClockPlan| -> Result<(u32, u32, u32), String> { broken() };
    assert_eq!(stage.run(&mut state, &mut image, 6, &no_band, &best, &cut), broken());
    let no_match = |_: &u32, _: u32| -> Result<(i64, u32, u32), String> { broken() };
    assert_eq!(stage.run(&mut state, &mut image, 6, &band, &no_match, &cut), broken());
    let no_cut = |_: i32| -> Result<i32, String> { broken() };
    assert_eq!(stage.run(&mut state, &mut image, 6, &band, &best, &no_cut), broken());
    assert_eq!((&state, image), (&full(), 7));
    state.knob_search = None;
    assert_eq!(
        stage.run(&mut state, &mut image, 6, &band, &best, &cut),
        over("missing prior state")
    );
}

#[test]
fn the_features_are_noted() {
    type Prepared = Result<(u32, u32, u32), String>;
    type Turned = Result<Option<(i64, u32, u32)>, String>;
    type Map = Result<(Vec<i64>, u32, u32), String>;
    type Clock = Result<(i64, u32, u32), String>;
    let stage = FindFeatures { templates_loaded: true, knob_width: 100, knob_height: 100 };
    let prepare = |plan: &FeaturePlan| -> Prepared {
        assert_eq!(plan.knob_width, 20);
        Ok((5, 800, 200))
    };
    let turn = |_: &u32, angle: i64| -> Turned { Ok(Some((angle, 20, 20))) };
    // The knobs show at thirty degrees, and the clock, which stands for no angle, to their left.
    let score = |edges: &u32, template: &i64| -> Map {
        assert_eq!(*edges, 5);
        let mut map = vec![0; 750 * 100];
        if *template == 30 * PX {
            for i in 0..10 {
                map[82 * 750 + 110 + i * 65] = 500_000_000;
            }
        }
        if *template == -1 {
            map[77 * 750 + 30] = 500_000_000;
        }
        Ok((map, 100, 750))
    };
    let clock = |_: &u32, _: &FeaturePlan| -> Clock { Ok((-1, 40, 30)) };
    let before = || PipelineState { features: None, ..full() };
    let mut state = before();
    assert_eq!(stage.run(&mut state, 0, &prepare, &turn, &score, &clock), passed());
    let mut found = features();
    found.off_angles = vec![30 * PX; 10];
    for knob in found.knobs.iter_mut() {
        knob.radius = 10 * PX;
    }
    assert_eq!(state, PipelineState { features: Some(found), ..full() });

    let mut state = before();
    let dark = |_: &u32, _: &i64| -> Map { Ok((vec![0; 4], 2, 2)) };
    assert_eq!(
        stage.run(&mut state, 0, &prepare, &turn, &dark, &clock),
        retry("found 0 knob matches (need 10), scale=0.20, threshold=0.35")
    );
    let uneven = |_: &u32, template: &i64| -> Map {
        if *template != 0 {
            return Ok((vec![0], 1, 1));
        }
        let mut map = vec![0; 1000 * 1000];
        for i in 0..10 {
            map[i * 65 * 1000 + i * 65] = 500_000_000;
        }
        Ok((map, 1000, 1000))
    };
    assert_eq!(
        stage.run(&mut state, 0, &prepare, &turn, &uneven, &clock),
        retry("could not find 10 Y-aligned knob matches, scale=0.20")
    );
    let no_edges = |_: &FeaturePlan| -> Prepared { broken() };
    assert_eq!(stage.run(&mut state, 0, &no_edges, &turn, &score, &clock), broken());
    let stuck = |_: &u32, _: i64| -> Turned { broken() };
    assert_eq!(stage.run(&mut state, 0, &prepare, &stuck, &score, &clock), broken());
    let no_clock = |_: &u32, _: &FeaturePlan| -> Clock { broken() };
    assert_eq!(stage.run(&mut state, 0, &prepare, &turn, &score, &no_clock), broken());
    assert_eq!(state, before());
    let unloaded = FindFeatures { templates_loaded: false, ..stage };
    assert_eq!(
        unloaded.run(&mut state, 0, &prepare, &turn, &score, &clock),
        over("template images not loaded")
    );
}

#[test]
fn templates_are_matched_at_every_angle() {
    let plan = FeaturePlan { scale: 200_000, threshold: 350_000, knob_width: 20, knob_height: 20 };
    // Nothing is left at ten degrees, and the template is too large at twenty.
    let turn = |edges: &u32, angle: i64| -> Result<Option<(i64, u32, u32)>, String> {
        assert_eq!(*edges, 5);
        match angle / PX {
            10 => Ok(None),
            20 => Ok(Some((angle, 100, 20))),
            _ => Ok(Some((angle, 20, 20))),
        }
    };
    let score = |_: &u32, template: &i64| -> Result<(Vec<i64>, u32, u32), String> {
        match *template / PX {
            0 => Ok((vec![100, 350_000_000, 900_000_000], 1, 3)),
            350 => Ok((vec![400_000_000, 0], 2, 1)),
            20 => broken(),
            _ => Ok((vec![0, 0], 1, 2)),
        }
    };
    let found = knob_matches(&plan, &5, 100, 80, &turn, &score).unwrap();
    let places: Vec<(i64, i64, i64, i64)> =
        found.iter().map(|m| (m.x / PX, m.y / PX, m.score, m.angle / PX)).collect();
    assert_eq!(
        places,
        vec![
            (12, 10, 900_000_000, 0),
            (11, 10, 350_000_000, 0),
            (10, 10, 400_000_000, 350),
        ]
    );
    assert_eq!(knob_matches(&plan, &5, 101, 80, &turn, &score), broken());

    let best = clock_match(&plan, &5, 100, 80, &0, 20, 20, &score).unwrap().unwrap();
    assert_eq!((best.score, best.angle), (900_000_000, 0));
    assert_eq!(clock_match(&plan, &5, 100, 80, &(30 * PX), 20, 20, &score), Ok(None));
    assert_eq!(clock_match(&plan, &5, 100, 80, &(20 * PX), 4, 20, &score), Ok(None));
    assert_eq!(clock_match(&plan, &5, 100, 80, &(20 * PX), 20, 20, &score), broken());
}

#[test]
fn the_corner_is_noted() {
    let bar = |band: &BarBand| -> Result<(u32, Vec<i16>), String> {
        assert_eq!((band.top, band.bottom), (64, 94));
        let mut gradients = vec![0; 800 * 30];
        gradients[800 * 6 + 3] = -90;
        Ok((5, gradients))
    };
    let wall = |image: &u32, wall: &WallBand| -> Result<Vec<i16>, String> {
        assert_eq!((*image, wall.left, wall.right, wall.top, wall.bottom), (5, 717, 765, 58, 112));
        let mut gradients = vec![0; 48 * 54];
        gradients[3] = 90;
        Ok(gradients)
    };
    let mut state = full();
    assert_eq!(FindCorner.run(&mut state, 800, 200, &bar, &wall), passed());
    let placed = KnobSearchArea { corner_x: Some(720 * PX), corner_y: Some(70 * PX), ..area() };
    assert_eq!(state, PipelineState { knob_search: Some(placed), ..full() });

    let mut state = full();
    let shown = |band: &BarBand| -> Result<(u32, Vec<i16>), String> {
        Ok((5, vec![0; 720 * (band.bottom - band.top) as usize]))
    };
    assert_eq!(
        FindCorner.run(&mut state, 720, 200, &shown, &wall),
        retry("wall search band too narrow")
    );
    let no_bar = |_: &BarBand| -> Result<(u32, Vec<i16>), String> { broken() };
    assert_eq!(FindCorner.run(&mut state, 800, 200, &no_bar, &wall), broken());
    let no_wall = |_: &u32, _: &WallBand| -> Result<Vec<i16>, String> { broken() };
    assert_eq!(FindCorner.run(&mut state, 800, 200, &bar, &no_wall), broken());
    assert_eq!(state, full());
    state.features = None;
    assert_eq!(
        FindCorner.run(&mut state, 800, 200, &bar, &wall),
        over("no features from S8")
    );
}

#[test]
fn the_refined_crop_is_noted() {
    type Warped = Result<Option<(u32, u32, u32)>, String>;
    let warp = |quad: &Quadrilateral| -> Warped {
        assert_eq!((quad.src[0].x, quad.src[2].y), (120 * PX, 136 * PX));
        Ok(Some((5, 800, 200)))
    };
    let cut = |warped: &u32, crop: &RefinedCrop| -> Result<(i32, i32), String> {
        assert_eq!((*warped, crop.top), (5, 64 * PX));
        Ok((crop.width, crop.height))
    };
    let old = Some(KnobSearchArea { x_min: 28 * PX, ..area() });
    let before = || PipelineState { knob_search: old, ..full() };
    let (mut state, mut image) = (before(), (0, 0));
    assert_eq!(RefineWarp.run(&mut state, &mut image, &warp, &cut), transformed());
    let placed = KnobSearchArea { y_min: 64 * PX, ..area() };
    assert_eq!(state, PipelineState { knob_search: Some(placed), ..full() });
    assert_eq!(image, (741, 72));

    let (mut state, mut image) = (before(), (0, 0));
    let none = |_: &Quadrilateral| -> Warped { Ok(None) };
    assert_eq!(
        RefineWarp.run(&mut state, &mut image, &none, &cut),
        retry("perspective transform computation failed")
    );
    let narrow = |_: &Quadrilateral| -> Warped { Ok(Some((5, 40, 200))) };
    assert_eq!(
        RefineWarp.run(&mut state, &mut image, &narrow, &cut),
        retry("refined crop too small: 40x72")
    );
    let no_warp = |_: &Quadrilateral| -> Warped { broken() };
    assert_eq!(RefineWarp.run(&mut state, &mut image, &no_warp, &cut), broken());
    let no_cut = |_: &u32, _: &RefinedCrop| -> Result<(i32, i32), String> { broken() };
    assert_eq!(RefineWarp.run(&mut state, &mut image, &warp, &no_cut), broken());
    assert_eq!((&state, image), (&before(), (0, 0)));
    state.knob_search = None;
    assert_eq!(RefineWarp.run(&mut state, &mut image, &warp, &cut), over("no knob search area"));
}

fn knob(x: i64, synthetic: bool) -> Knob {
    Knob { x: x * PX, y: 125 * PX, radius: 30 * PX, slot: 0, synthetic }
}

fn frame(knobs: Vec<Knob>, mask: Option<u32>) -> FrameState<u32> {
    let mut state = FrameState::new(1);
    state.warped = Some(2);
    state.knobs = knobs;
    state.debug_edges = mask;
    state
}

fn fails<T>(stage: &'static str) -> Result<T, StageError> {
    Err(StageError { stage, message: "broken".to_string() })
}

#[test]
fn angles_are_read_of_every_knob() {
    let kd = KnobDetection::default();
    let stage = Angle::new(&kd, vec![0, 30 * PX]);
    let size = |mask: &u32| {
        assert_eq!(*mask, 3);
        (1200, 250)
    };
    let compare = |i: usize, _: &u32, _: &CropPlan| -> Result<Vec<i64>, StageError> {
        Ok(vec![300_000_000, 800_000_000 - 400_000_000 * i as i64])
    };
    let knobs = || vec![knob(172, false), knob(294, true), knob(422, false)];
    let mut state = frame(knobs(), Some(3));
    assert_eq!(stage.process(&mut state, &size, &compare), Ok(()));
    assert_eq!(
        state.angle_readings,
        vec![
            Some(AngleReading {
                angle_deg: 30 * PX,
                confidence: Confidence::High,
                match_score: 800_000_000,
            }),
            None,
            Some(AngleReading {
                angle_deg: 0,
                confidence: Confidence::Ambiguous,
                match_score: 300_000_000,
            }),
        ]
    );

    let fail = |i: usize, _: &u32, _: &CropPlan| -> Result<Vec<i64>, StageError> {
        if i == 2 {
            fails("angle")
        } else {
            Ok(vec![0, 0])
        }
    };
    let mut state = frame(knobs(), Some(3));
    assert_eq!(stage.process(&mut state, &size, &fail), fails("angle"));
    assert!(state.angle_readings.is_empty());
    let mut state = frame(knobs(), None);
    assert_eq!(
        stage.process(&mut state, &size, &compare).unwrap_err().text(),
        "[angle] no binary mask"
    );
    assert!(state.angle_readings.is_empty());

    let mut kd = kd;
    kd.knob_crop_size = -10;
    let inside_out = Angle::new(&kd, vec![0, 30 * PX]);
    let mut state = frame(knobs(), Some(3));
    assert_eq!(inside_out.process(&mut state, &size, &fail), Ok(()));
    assert_eq!(state.angle_readings, vec![None, None, None]);
    state.angle_readings.clear();

    let blind = Angle::new(&kd, Vec::new());
    assert_eq!(blind.process(&mut state, &size, &fail), Ok(()));
    assert_eq!(state.angle_readings, vec![None, None, None]);
}

#[test]
fn images_of_a_frame_are_noted_by_their_stages() {
    let kd = KnobDetection::default();
    let enhance = Enhance::new(&kd);
    let more = |image: &u32| -> Result<u32, StageError> { Ok(image + 40) };
    let fail = |_: &u32| -> Result<u32, StageError> { fails("any") };
    let mut state = frame(Vec::new(), None);
    assert_eq!(enhance.process(&mut state, &fail), fails("any"));
    assert_eq!(state.enhanced, None);
    assert_eq!(enhance.process(&mut state, &more), Ok(()));
    assert_eq!((state.raw, state.warped, state.enhanced), (1, Some(2), Some(42)));

    let detect = Detect::new(&kd);
    type Contours = Result<(Vec<i64>, u32), StageError>;
    // A contour stands for the place of a circle; one in the middle is too short, one has too few
    // points to be measured, and one at the left end is no ellipse.
    let find = |_: &u32| -> Contours { Ok((vec![52, 500, 700, 1148], 250)) };
    let lose = |_: &u32| -> Contours { fails("detect") };
    let count = |x: &i64| if *x == 700 { 4 } else { 40 };
    let measure = |x: &i64| -> Result<i64, StageError> {
        match *x {
            700 | 900 => fails("length"),
            500 => Ok(1),
            _ => Ok(190 * PX),
        }
    };
    let fit = |x: &i64| -> Result<Ellipse, StageError> {
        if *x == 0 || *x == 500 {
            return fails("ellipse");
        }
        Ok(Ellipse { center_x: x * PX, center_y: 125 * PX, width: 60 * PX, height: 60 * PX })
    };
    assert_eq!(detect.process(&mut state, &more, &lose, &count, &measure, &fit), fails("detect"));
    assert_eq!((state.debug_edges, state.knobs.len()), (Some(82), 0));
    state.debug_edges = None;
    assert_eq!(detect.process(&mut state, &fail, &find, &count, &measure, &fit), fails("any"));
    assert_eq!((state.debug_edges, state.knobs.len()), (None, 0));
    let crooked = |_: &u32| -> Contours { Ok((vec![52, 0], 250)) };
    assert_eq!(
        detect.process(&mut state, &more, &crooked, &count, &measure, &fit),
        fails("ellipse")
    );
    let endless = |_: &u32| -> Contours { Ok((vec![52, 900], 250)) };
    assert_eq!(
        detect.process(&mut state, &more, &endless, &count, &measure, &fit),
        fails("length")
    );
    assert_eq!((state.debug_edges, state.knobs.len()), (Some(82), 0));
    assert_eq!(detect.process(&mut state, &more, &find, &count, &measure, &fit), Ok(()));
    assert_eq!((state.debug_edges, state.knobs.len()), (Some(82), kd.expected_count));
    let real: Vec<(usize, i64)> =
        state.knobs.iter().filter(|k| !k.synthetic).map(|k| (k.slot, k.x)).collect();
    assert_eq!(real, vec![(0, 51 * PX), (9, 1149 * PX)]);

    let height = |image: &u32| *image as i32;
    let paint = |image: &u32, shapes: &Vec<Shape>| -> Result<u32, StageError> {
        Ok(image * 1000 + shapes.len() as u32)
    };
    let spill = |_: &u32, _: &Vec<Shape>| -> Result<u32, StageError> { fails("annotate") };
    state.knobs.clear();
    assert!(can_annotate(&vec![knob(172, false), knob(294, true)]));
    let far = Knob { x: i64::MIN, ..knob(0, false) };
    assert!(!can_annotate(&vec![far]));
    assert_eq!(Annotate.process(&mut state, &height, &spill), fails("annotate"));
    assert_eq!(state.annotated, None);
    assert_eq!(Annotate.process(&mut state, &height, &paint), Ok(()));
    assert_eq!((state.warped, state.annotated), (Some(2), Some(2001)));
    state.warped = None;
    assert_eq!(
        Annotate.process(&mut state, &height, &paint).unwrap_err().text(),
        "[annotate] no warped frame"
    );
    assert_eq!(
        enhance.process(&mut state, &more).unwrap_err().text(),
        "[enhance] no warped frame"
    );
    state.enhanced = None;
    assert_eq!(
        detect.process(&mut state, &more, &find, &count, &measure, &fit).unwrap_err().text(),
        "[detect] no enhanced frame"
    );
}
