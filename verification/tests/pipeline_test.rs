use std::sync::atomic::{AtomicU32, Ordering};

use oven_vision::pipeline::cache::{compute_cache_version, CacheError, PipelineCache};
use oven_vision::pipeline::stage::{
    CircleFeature, CropRegion, DetectedFeatures, KnobSearchArea, Line, LinePair,
    PerspectiveCorrection, PipelineState, StageDescriptor, StageOutcome, StateView,
    TransformMatrix, VerticalPair,
};
use oven_vision::pipeline::{
    resolve_fallbacks, warp_frame, DebugImage, FrameAttempts, FrameStep, ImageOutput, Pipeline, PipelineConfig,
    PipelineError, Stage,
};

const PX: i64 = 1_000_000;

type Callback = fn(usize, &str, &[u8]);

trait Mock {
    fn desc(&self) -> StageDescriptor;
    fn attempt(&self, state: &mut PipelineState, src: &Vec<u8>, dst: &mut Vec<u8>, iteration: u32)
        -> Result<(StageOutcome, ImageOutput), String>;
    fn retries(&self) -> u32;
    fn picture(&self) -> Result<Option<DebugImage>, String> {
        Ok(None)
    }
}

struct Boxed(Box<dyn Mock>);

impl Stage for Boxed {
    type Image = Vec<u8>;
    type Error = String;

    fn spec_descriptor(&self) -> StageDescriptor {
        self.0.desc()
    }

    fn spec_max_retries(&self) -> u32 {
        self.0.retries()
    }

    fn may_run(
        &self,
        _before: StateView,
        _src: Vec<u8>,
        _raw: Vec<u8>,
        _iteration: u32,
        _after: StateView,
        _dst: Vec<u8>,
        _result: Result<(StageOutcome, ImageOutput), String>,
    ) -> bool {
        true
    }

    fn may_show(
        &self,
        _state: StateView,
        _working: Vec<u8>,
        _raw: Vec<u8>,
        _result: Result<Option<DebugImage>, String>,
    ) -> bool {
        true
    }

    fn descriptor(&self) -> StageDescriptor {
        self.0.desc()
    }

    fn run(
        &self,
        state: &mut PipelineState,
        src: &Vec<u8>,
        dst: &mut Vec<u8>,
        _raw: &Vec<u8>,
        iteration: u32,
    ) -> Result<(StageOutcome, ImageOutput), String> {
        self.0.attempt(state, src, dst, iteration)
    }

    fn max_retries(&self) -> u32 {
        self.0.retries()
    }

    fn debug_image(
        &self,
        _state: &PipelineState,
        _working: &Vec<u8>,
        _raw: &Vec<u8>,
    ) -> Result<Option<DebugImage>, String> {
        self.0.picture()
    }
}

struct MockStage {
    desc: StageDescriptor,
    populate: fn(&mut PipelineState),
    retries: u32,
}

impl Mock for MockStage {
    fn desc(&self) -> StageDescriptor {
        self.desc
    }
    fn attempt(&self, state: &mut PipelineState, _src: &Vec<u8>, _dst: &mut Vec<u8>, _iteration: u32)
        -> Result<(StageOutcome, ImageOutput), String> {
        (self.populate)(state);
        Ok((StageOutcome::Success, ImageOutput::Passthrough))
    }
    fn retries(&self) -> u32 {
        self.retries
    }
}

struct FailNThenSucceed {
    desc: StageDescriptor,
    fail_count: u32,
    attempts: AtomicU32,
    populate: fn(&mut PipelineState),
    retries: u32,
}

impl Mock for FailNThenSucceed {
    fn desc(&self) -> StageDescriptor {
        self.desc
    }
    fn attempt(&self, state: &mut PipelineState, _src: &Vec<u8>, _dst: &mut Vec<u8>, _iteration: u32)
        -> Result<(StageOutcome, ImageOutput), String> {
        let n = self.attempts.fetch_add(1, Ordering::SeqCst);
        if n < self.fail_count {
            Ok((StageOutcome::Retry(format!("attempt {n}")), ImageOutput::Passthrough))
        } else {
            (self.populate)(state);
            Ok((StageOutcome::Success, ImageOutput::Passthrough))
        }
    }
    fn retries(&self) -> u32 {
        self.retries
    }
}

struct AlwaysFailStage {
    desc: StageDescriptor,
    retries: u32,
}

impl Mock for AlwaysFailStage {
    fn desc(&self) -> StageDescriptor {
        self.desc
    }
    fn attempt(&self, _state: &mut PipelineState, _src: &Vec<u8>, _dst: &mut Vec<u8>, _iteration: u32)
        -> Result<(StageOutcome, ImageOutput), String> {
        Ok((StageOutcome::Retry("always fails".into()), ImageOutput::Passthrough))
    }
    fn retries(&self) -> u32 {
        self.retries
    }
}

fn mock_success(
    name: &'static str,
    label: &'static str,
    fallback: Option<&'static str>,
    populate: fn(&mut PipelineState),
) -> Boxed {
    Boxed(Box::new(MockStage { desc: StageDescriptor { name, label, fallback }, populate, retries: 3 }))
}

fn line(x1: i64, y1: i64, x2: i64, y2: i64) -> Line {
    Line { x1: x1 * PX, y1: y1 * PX, x2: x2 * PX, y2: y2 * PX }
}

fn unit_matrix() -> TransformMatrix {
    let one = 1.0f64.to_bits();
    let zero = 0.0f64.to_bits();
    TransformMatrix([[one, zero, zero], [zero, one, zero], [zero, zero, one]])
}

fn features() -> DetectedFeatures {
    DetectedFeatures {
        clock: CircleFeature { center_x: 50 * PX, center_y: 100 * PX, radius: 25 * PX },
        knobs: (0..10)
            .map(|i| CircleFeature {
                center_x: (120 + i * 65) * PX,
                center_y: 100 * PX,
                radius: 12 * PX,
            })
            .collect(),
        off_angles: vec![90 * PX; 10],
    }
}

fn set_perspective(s: &mut PipelineState) {
    s.perspective = Some(PerspectiveCorrection {
        matrix: unit_matrix(),
        output_width: 800,
        output_height: 200,
    });
}

fn all_success_stages() -> Vec<Boxed> {
    vec![
        mock_success("FindStove", "S1:FindStove", None, |s| {
            s.crop = Some(CropRegion { x: 100, y: 200, width: 800, height: 300 });
        }),
        mock_success("FindLines", "S2:FindLines", Some("FindStove"), |s| {
            s.lines = Some(LinePair {
                top: line(0, 10, 800, 5),
                bottom: line(0, 50, 800, 45),
                avg_theta: 90 * PX,
            });
        }),
        mock_success("FindVerticals", "S3:FindVerticals", Some("FindLines"), |s| {
            s.verticals = Some(VerticalPair {
                left: line(10, 0, 10, 300),
                right: line(790, 0, 790, 300),
            });
        }),
        mock_success("Perspective", "S4:Perspective", Some("FindVerticals"), set_perspective),
        mock_success("WarpCheck", "S5:WarpCheck", Some("FindVerticals"), |_s| {}),
        mock_success("ExtractBand", "S6:ExtractBand", Some("Perspective"), |s| {
            s.knob_search = Some(KnobSearchArea {
                y_min: 10 * PX,
                y_max: 190 * PX,
                x_min: 0,
                clock_center_x: 0,
                clock_center_y: 0,
                clock_radius: 0,
                corner_x: None,
                corner_y: None,
            });
        }),
        mock_success("FindClock", "S7:FindClock", Some("ExtractBand"), |s| {
            if let Some(ks) = s.knob_search.as_mut() {
                ks.x_min = 80 * PX;
                ks.clock_center_x = 50 * PX;
                ks.clock_center_y = 100 * PX;
                ks.clock_radius = 25 * PX;
            }
        }),
        mock_success("FindFeatures", "S8:FindFeatures", Some("FindClock"), |s| {
            s.features = Some(features());
        }),
        mock_success("SanityCheck", "S9:SanityCheck", Some("FindFeatures"), |_s| {}),
        mock_success("FindCorner", "S10:FindCorner", Some("FindFeatures"), |s| {
            if let Some(ks) = s.knob_search.as_mut() {
                ks.corner_x = Some(700 * PX);
                ks.corner_y = Some(10 * PX);
            }
        }),
        mock_success("RefineWarp", "S11:RefineWarp", Some("FindCorner"), |_s| {}),
        mock_success("FinalDetect", "S12:FinalDetect", Some("RefineWarp"), |s| {
            s.features = Some(features());
        }),
        mock_success("FinalCheck", "S13:FinalCheck", Some("FinalDetect"), |s| {
            s.validated = true;
        }),
    ]
}

fn dummy_frame() -> Vec<u8> {
    vec![0; 48]
}

fn test_config() -> PipelineConfig {
    PipelineConfig { cache_path: "pipeline_cache.json".to_string(), max_frame_attempts: 3 }
}

fn pipeline_of(stages: Vec<Boxed>) -> Pipeline<Boxed, Callback> {
    Pipeline::new(stages, test_config(), "")
}

#[test]
fn happy_path_all_stages_succeed() {
    let mut pipeline = pipeline_of(all_success_stages());
    let frame = dummy_frame();

    pipeline.calibrate(&frame).unwrap();

    assert!(pipeline.state().validated);
    assert!(pipeline.state().crop.is_some());
    assert!(pipeline.state().lines.is_some());
    assert!(pipeline.state().perspective.is_some());
    assert!(pipeline.state().features.is_some());
}

#[test]
fn retry_stage_fails_twice_then_succeeds() {
    let mut stages = all_success_stages();
    stages[3] = Boxed(Box::new(FailNThenSucceed {
        desc: StageDescriptor {
            name: "Perspective",
            label: "S4:Perspective",
            fallback: Some("FindVerticals"),
        },
        fail_count: 2,
        attempts: AtomicU32::new(0),
        populate: set_perspective,
        retries: 5,
    }));
    let mut pipeline = pipeline_of(stages);
    let frame = dummy_frame();

    pipeline.calibrate(&frame).unwrap();
    assert!(pipeline.state().validated);
}

#[test]
fn fallback_stage4_exhausted_retries_stage3() {
    let mut stages = all_success_stages();
    stages[3] = Boxed(Box::new(FailNThenSucceed {
        desc: StageDescriptor {
            name: "Perspective",
            label: "S4:Perspective",
            fallback: Some("FindVerticals"),
        },
        fail_count: 3,
        attempts: AtomicU32::new(0),
        populate: set_perspective,
        retries: 5,
    }));
    let mut pipeline = pipeline_of(stages);
    let frame = dummy_frame();

    pipeline.calibrate(&frame).unwrap();
    assert!(pipeline.state().validated);
}

#[test]
fn pipeline_exhausted_returns_error() {
    let mut stages = all_success_stages();
    stages[0] = Boxed(Box::new(AlwaysFailStage {
        desc: StageDescriptor { name: "FindStove", label: "S1:FindStove", fallback: None },
        retries: 2,
    }));
    let mut pipeline = pipeline_of(stages);
    let frame = dummy_frame();

    let err = pipeline.calibrate(&frame).unwrap_err();
    assert!(matches!(err, PipelineError::Exhausted(_)));
}

#[test]
fn cache_saved_after_calibration() {
    let mut pipeline = pipeline_of(all_success_stages());
    pipeline.calibrate(&dummy_frame()).unwrap();
    let entry = pipeline.cache_entry(4, 4);
    assert!(entry.state.validated, "cache file should be written after calibration");
    assert_eq!(entry.frame_width, 4);
    assert_eq!(entry.frame_height, 4);
    assert_eq!(entry.version, compute_cache_version(&all_success_stages()));
    assert_eq!(pipeline.config().cache_path, "pipeline_cache.json");
}

#[test]
fn cache_loads_on_second_run() {
    let mut pipeline = pipeline_of(all_success_stages());
    pipeline.calibrate(&dummy_frame()).unwrap();
    let entry = pipeline.cache_entry(4, 4);

    let mut pipeline2 = pipeline_of(all_success_stages());
    let loaded = pipeline2.try_load_cache(Ok(entry), 4, 4);
    assert!(loaded, "should load from cache");
    assert!(pipeline2.state().validated);
}

fn failing(fallback: Option<&'static str>, index: usize, retries: u32) -> Vec<Boxed> {
    let mut stages = all_success_stages();
    let desc = stages[index].descriptor();
    stages[index] = Boxed(Box::new(AlwaysFailStage {
        desc: StageDescriptor { fallback, ..desc },
        retries,
    }));
    stages
}

#[test]
fn a_stage_without_fallback_ends_the_run() {
    let mut pipeline = pipeline_of(failing(None, 3, 2));
    match pipeline.calibrate(&dummy_frame()) {
        Err(PipelineError::Exhausted(text)) => assert!(text.len() > 0),
        _ => panic!("expected an exhausted pipeline"),
    }
    assert!(!pipeline.state().validated);
    assert!(pipeline.state().verticals.is_some());
    assert!(pipeline.state().perspective.is_none());
}

#[test]
fn exhausting_every_fallback_ends_the_run() {
    let mut pipeline = pipeline_of(failing(Some("FindVerticals"), 3, 2));
    assert!(matches!(pipeline.calibrate(&dummy_frame()), Err(PipelineError::Exhausted(_))));
}

struct Broken;

impl Mock for Broken {
    fn desc(&self) -> StageDescriptor {
        StageDescriptor { name: "FindStove", label: "S1:FindStove", fallback: None }
    }
    fn attempt(&self, _state: &mut PipelineState, _src: &Vec<u8>, _dst: &mut Vec<u8>, _iteration: u32)
        -> Result<(StageOutcome, ImageOutput), String> {
        Err("no image".to_string())
    }
    fn retries(&self) -> u32 {
        3
    }
}

#[test]
fn an_image_error_ends_the_run() {
    let mut stages = all_success_stages();
    stages[0] = Boxed(Box::new(Broken));
    let mut pipeline = pipeline_of(stages);
    let err = pipeline.calibrate(&dummy_frame()).unwrap_err();
    assert!(matches!(&err, PipelineError::Cv(e) if e == "no image"));
    assert_eq!(err.text(), "opencv error: no image");
}

struct Doubling {
    name: &'static str,
    fallback: Option<&'static str>,
    fail_count: u32,
    attempts: AtomicU32,
    seen: &'static std::sync::Mutex<Vec<usize>>,
}

impl Mock for Doubling {
    fn desc(&self) -> StageDescriptor {
        StageDescriptor { name: self.name, label: self.name, fallback: self.fallback }
    }
    fn attempt(&self, state: &mut PipelineState, src: &Vec<u8>, dst: &mut Vec<u8>, _iteration: u32)
        -> Result<(StageOutcome, ImageOutput), String> {
        self.seen.lock().unwrap().push(src.len());
        let n = self.attempts.fetch_add(1, Ordering::SeqCst);
        if n < self.fail_count {
            return Ok((StageOutcome::Exhausted("not yet".to_string()), ImageOutput::Passthrough));
        }
        let mut twice = src.clone();
        twice.extend_from_slice(src);
        *dst = twice;
        state.validated = true;
        Ok((StageOutcome::Success, ImageOutput::Transformed))
    }
    fn retries(&self) -> u32 {
        3
    }
}

static SEEN: std::sync::Mutex<Vec<usize>> = std::sync::Mutex::new(Vec::new());

#[test]
fn a_fallback_gives_back_the_image_of_its_stage() {
    let stages = vec![
        Boxed(Box::new(Doubling {
            name: "A",
            fallback: None,
            fail_count: 0,
            attempts: AtomicU32::new(0),
            seen: &SEEN,
        })),
        Boxed(Box::new(Doubling {
            name: "B",
            fallback: Some("A"),
            fail_count: 1,
            attempts: AtomicU32::new(0),
            seen: &SEEN,
        })),
    ];
    let mut pipeline = pipeline_of(stages);
    pipeline.calibrate(&vec![0, 0, 0]).unwrap();
    assert_eq!(*SEEN.lock().unwrap(), vec![3, 6, 3, 6]);
}

static LEFT: std::sync::Mutex<Vec<usize>> = std::sync::Mutex::new(Vec::new());

fn doubling(name: &'static str, fallback: Option<&'static str>, fail_count: u32) -> Boxed {
    let attempts = AtomicU32::new(0);
    Boxed(Box::new(Doubling { name, fallback, fail_count, attempts, seen: &LEFT }))
}

#[test]
fn a_stage_sees_the_last_image_that_an_earlier_one_left() {
    let stages = vec![
        doubling("A", None, 0),
        mock_success("B", "B", Some("A"), |_s| {}),
        doubling("C", Some("B"), 0),
        doubling("D", Some("B"), 1),
    ];
    let mut pipeline = pipeline_of(stages);
    pipeline.calibrate(&vec![0, 0, 0]).unwrap();
    // The image that C made before the fallback to B is not seen again.
    assert_eq!(*LEFT.lock().unwrap(), vec![3, 6, 12, 6, 12]);
}

struct Counting {
    name: &'static str,
    fallback: Option<&'static str>,
    runs: &'static AtomicU32,
}

impl Mock for Counting {
    fn desc(&self) -> StageDescriptor {
        StageDescriptor { name: self.name, label: self.name, fallback: self.fallback }
    }
    fn attempt(&self, _state: &mut PipelineState, _src: &Vec<u8>, _dst: &mut Vec<u8>, _iteration: u32)
        -> Result<(StageOutcome, ImageOutput), String> {
        self.runs.fetch_add(1, Ordering::SeqCst);
        if self.name == "B" {
            return Ok((StageOutcome::Retry("not yet".to_string()), ImageOutput::Passthrough));
        }
        Ok((StageOutcome::Success, ImageOutput::Passthrough))
    }
    fn retries(&self) -> u32 {
        3
    }
}

static RUNS: AtomicU32 = AtomicU32::new(0);

#[test]
fn a_calibration_makes_a_bounded_number_of_attempts() {
    let stages = vec![
        Boxed(Box::new(Counting { name: "A", fallback: None, runs: &RUNS })),
        Boxed(Box::new(Counting { name: "B", fallback: Some("A"), runs: &RUNS })),
    ];
    assert!(pipeline_of(stages).calibrate(&dummy_frame()).is_err());
    // Three rounds of A and three of B: of 3 * 3 settings times two stages at the most.
    assert_eq!(RUNS.load(Ordering::SeqCst), 12);
}

struct Painter;

impl Mock for Painter {
    fn desc(&self) -> StageDescriptor {
        StageDescriptor { name: "Painter", label: "S1:Painter", fallback: None }
    }
    fn attempt(&self, state: &mut PipelineState, _src: &Vec<u8>, _dst: &mut Vec<u8>, _iteration: u32)
        -> Result<(StageOutcome, ImageOutput), String> {
        state.validated = true;
        Ok((StageOutcome::Success, ImageOutput::Passthrough))
    }
    fn retries(&self) -> u32 {
        3
    }
    fn picture(&self) -> Result<Option<DebugImage>, String> {
        Ok(Some(("S1:Painter".to_string(), vec![1, 2, 3])))
    }
}

fn pictures(filter: &str) -> usize {
    let mut pipeline: Pipeline<Boxed, Callback> =
        Pipeline::new(vec![Boxed(Box::new(Painter))], test_config(), filter);
    pipeline.calibrate(&dummy_frame()).unwrap();
    pipeline.debug_images().len()
}

#[test]
fn the_filter_chooses_the_debug_images() {
    assert_eq!(pictures(""), 1);
    assert_eq!(pictures("all"), 1);
    assert_eq!(pictures("none"), 0);
    assert_eq!(pictures("painter"), 1);
    assert_eq!(pictures("S1"), 1);
    assert_eq!(pictures("FindLines, S2"), 0);
    assert_eq!(pictures("FindLines, S1:P"), 1);
}

static SHOWN: AtomicU32 = AtomicU32::new(0);

#[test]
fn the_callback_gets_the_debug_images() {
    let mut pipeline: Pipeline<Boxed, Callback> =
        Pipeline::new(vec![Boxed(Box::new(Painter))], test_config(), "");
    pipeline.set_debug_image_callback(|index, label, jpeg| {
        assert_eq!((index, label, jpeg), (0, "S1:Painter", &[1u8, 2, 3][..]));
        SHOWN.fetch_add(1, Ordering::SeqCst);
    });
    pipeline.calibrate(&dummy_frame()).unwrap();
    assert_eq!(SHOWN.load(Ordering::SeqCst), 1);
}

#[test]
fn fallbacks_have_to_name_earlier_stages() {
    assert_eq!(
        resolve_fallbacks(&all_success_stages()).unwrap(),
        vec![
            None,
            Some(0),
            Some(1),
            Some(2),
            Some(2),
            Some(3),
            Some(5),
            Some(6),
            Some(7),
            Some(7),
            Some(9),
            Some(10),
            Some(11),
        ]
    );
    assert_eq!(
        resolve_fallbacks(&failing(Some("Nowhere"), 2, 2)).unwrap_err(),
        "stage 'FindVerticals' references unknown fallback 'Nowhere'"
    );
    assert_eq!(
        resolve_fallbacks(&failing(Some("WarpCheck"), 2, 2)).unwrap_err(),
        "stage 'FindVerticals' fallback 'WarpCheck' (idx 4) must precede it (idx 2)"
    );
}

fn exhausted() -> Result<(), PipelineError<String>> {
    Err(PipelineError::Exhausted("nothing found".to_string()))
}

#[test]
fn fresh_frames_are_tried_up_to_the_limit() {
    let (mut attempts, first) = FrameAttempts::begin::<String>(2);
    assert_eq!(first, FrameStep::Calibrate);
    assert_eq!(attempts.after(exhausted()), FrameStep::Calibrate);
    assert_eq!(attempts.attempt, 1);
    assert_eq!(
        attempts.after(exhausted()),
        FrameStep::Finished(Err(PipelineError::Exhausted(
            "all 2 frame attempts exhausted".to_string()
        )))
    );
    let (_, none) = FrameAttempts::begin::<String>(0);
    assert!(matches!(none, FrameStep::Finished(Err(PipelineError::Exhausted(_)))));
}

#[test]
fn a_result_other_than_exhaustion_stands() {
    let (mut attempts, _) = FrameAttempts::begin::<String>(3);
    assert_eq!(attempts.after::<String>(Ok(())), FrameStep::Finished(Ok(())));
    let broken: Result<(), PipelineError<String>> = Err(PipelineError::Cv("bad".to_string()));
    assert!(matches!(attempts.after(broken), FrameStep::Finished(Err(PipelineError::Cv(_)))));
}

#[test]
fn frames_are_warped_by_what_was_found() {
    let mut state = sample_state();
    let plan = warp_frame(&state).unwrap();
    assert_eq!(plan.crop, CropRegion { x: 100, y: 200, width: 800, height: 300 });
    assert_eq!(plan.perspective.output_width, 800);
    state.perspective = None;
    assert_eq!(warp_frame(&state).unwrap_err(), "pipeline state has no perspective");
    state.crop = None;
    assert_eq!(warp_frame(&state).unwrap_err(), "pipeline state has no crop");
}

const TEST_VERSION: u64 = 42;

fn sample_state() -> PipelineState {
    PipelineState {
        crop: Some(CropRegion { x: 100, y: 200, width: 800, height: 300 }),
        lines: Some(LinePair {
            top: line(0, 10, 800, 5),
            bottom: line(0, 50, 800, 45),
            avg_theta: 0,
        }),
        verticals: Some(VerticalPair {
            left: line(10, 0, 10, 300),
            right: line(790, 0, 790, 300),
        }),
        perspective: Some(PerspectiveCorrection {
            matrix: unit_matrix(),
            output_width: 800,
            output_height: 200,
        }),
        knob_search: Some(KnobSearchArea {
            y_min: 10 * PX,
            y_max: 190 * PX,
            x_min: 80 * PX,
            clock_center_x: 50 * PX,
            clock_center_y: 100 * PX,
            clock_radius: 25 * PX,
            corner_x: None,
            corner_y: None,
        }),
        features: Some(features()),
        validated: true,
    }
}

#[test]
fn round_trip_save_load() {
    let state = sample_state();
    let cache = PipelineCache::new(state.clone(), 2560, 1440, TEST_VERSION);

    let loaded = cache.load(2560, 1440, TEST_VERSION).unwrap();
    assert_eq!(loaded, state);
}

#[test]
fn version_mismatch_rejects() {
    let state = sample_state();
    let mut cache = PipelineCache::new(state, 2560, 1440, TEST_VERSION);
    cache.version = 999;

    let err = cache.load(2560, 1440, TEST_VERSION).unwrap_err();
    assert!(matches!(err, CacheError::VersionMismatch { .. }));
    assert_eq!(err.text(), "cache version mismatch: on-disk=999, expected=42");
}

#[test]
fn frame_size_mismatch_rejects() {
    let state = sample_state();
    let cache = PipelineCache::new(state, 2560, 1440, TEST_VERSION);

    let err = cache.load(1920, 1080, TEST_VERSION).unwrap_err();
    assert!(matches!(err, CacheError::FrameSizeMismatch { .. }));
    assert_eq!(err.text(), "frame size mismatch: cached=2560x1440, current=1920x1080");
}

#[test]
fn incomplete_state_rejects() {
    let mut state = sample_state();
    state.validated = false;
    let cache = PipelineCache::new(state, 2560, 1440, TEST_VERSION);

    let err = cache.load(2560, 1440, TEST_VERSION).unwrap_err();
    assert!(matches!(err, CacheError::Incomplete));
    assert_eq!(err.text(), "cached pipeline state is not fully validated");
}

#[test]
fn other_cache_errors_have_texts() {
    assert_eq!(CacheError::Io("gone".to_string()).text(), "cache I/O error: gone");
    assert_eq!(CacheError::Json("bad".to_string()).text(), "cache JSON error: bad");
    let mut pipeline = pipeline_of(all_success_stages());
    assert!(!pipeline.try_load_cache(Err(CacheError::Io("gone".to_string())), 4, 4));
    assert!(!pipeline.state().validated);
}

#[test]
fn the_cache_version_follows_the_stages() {
    let all = all_success_stages();
    let version = compute_cache_version(&all);
    assert_eq!(version, compute_cache_version(&all_success_stages()));
    assert_ne!(version, compute_cache_version(&all_success_stages()[1..]));
}
