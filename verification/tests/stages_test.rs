use std::sync::Arc;

use oven_vision::draw::{Color, Shape};
use oven_vision::pipeline::extract_band::{band_rows, plan_band};
use oven_vision::pipeline::final_check::FinalCheck;
use oven_vision::pipeline::final_detect::FinalDetect;
use oven_vision::pipeline::find_clock::{place_clock, plan_clock, plan_search};
use oven_vision::pipeline::find_corner::{
    note_corner, plan_bar, plan_wall, strongest_column, strongest_row,
};
use oven_vision::pipeline::find_features::{
    choose_features, clock_template_fits, find_peaks, knob_candidates, nms, plan_features,
    resized, rotation_angles, select_y_aligned_knobs, sort_by_score, sort_by_x, template_fits, FeaturePlan, TemplateMatch,
};
use oven_vision::pipeline::find_lines::{choose_pair, line_pair, rho_theta_to_line, thresholds_for_iteration};
use oven_vision::pipeline::find_stove::FindStove;
use oven_vision::pipeline::find_verticals::{
    best_edge, check_source, choose_edges, column_profile, edge_candidates, expected_perpendicular,
    extract_top_peaks, find_edges, leaning_segments, nms_peaks, refine_boundary_slope,
    scale_divisors, scaled_band, strip_around, upright_line, FindVerticals, PeakCandidate,
    ScaledGradients, Segment,
};
use oven_vision::pipeline::perspective::{
    jitter_for_iteration, line_intersection, plan_warp, Crossing,
};
use oven_vision::pipeline::refine_warp::{find_row, note_crop, quadrilateral, refined_crop, ImagePoint};
use oven_vision::pipeline::sanity::{quick_sanity_check, SanityCheck};
use oven_vision::pipeline::stage::{
    CircleFeature, CropRegion, DetectedFeatures, KnobSearchArea, Line, LinePair,
    PerspectiveCorrection, PipelineState, StageOutcome, TransformMatrix, VerticalPair,
};
use oven_vision::pipeline::testdata::{
    mock_features, state_for_final_check, state_for_stage, synthetic_lines,
};
use oven_vision::pipeline::util::{
    check_features, cluster_average, cluster_by_rho, enhancement_tiles, inter_line_distance,
    median_radius, validate_features, HoughLine,
};
use oven_vision::pipeline::warp_check::judge_lines;
use oven_vision::pipeline::{
    extract_band, final_check, find_clock, find_corner, find_features, find_lines, find_stove,
    find_verticals, perspective, refine_warp, sanity, warp_check, ImageOutput, Stage,
};

const PX: i64 = 1_000_000;

fn retry(text: &str) -> StageOutcome {
    StageOutcome::Retry(text.to_string())
}

fn over(text: &str) -> StageOutcome {
    StageOutcome::Exhausted(text.to_string())
}

fn line(x1: i64, y1: i64, x2: i64, y2: i64) -> Line {
    Line { x1: x1 * PX, y1: y1 * PX, x2: x2 * PX, y2: y2 * PX }
}

fn even_lines() -> LinePair {
    LinePair { top: line(0, 0, 1_000_000, 0), bottom: line(0, 40, 1_000_000, 40), ..level_lines() }
}

fn level_lines() -> LinePair {
    LinePair { top: line(0, 10, 800, 10), bottom: line(0, 50, 800, 50), avg_theta: 90 * PX }
}

fn upright_edges() -> VerticalPair {
    VerticalPair { left: line(10, 0, 10, 300), right: line(790, 0, 790, 300) }
}

fn correction(width: u32, height: u32) -> PerspectiveCorrection {
    PerspectiveCorrection {
        matrix: TransformMatrix([[0; 3]; 3]),
        output_width: width,
        output_height: height,
    }
}

fn knob(x: i64, y: i64, r: i64) -> CircleFeature {
    CircleFeature { center_x: x * PX, center_y: y * PX, radius: r * PX }
}

fn row() -> DetectedFeatures {
    DetectedFeatures {
        clock: knob(50, 100, 25),
        knobs: (0..10).map(|i| knob(120 + i * 65, 100, 12)).collect(),
        off_angles: vec![90 * PX; 10],
    }
}

fn area() -> KnobSearchArea {
    KnobSearchArea {
        y_min: 8 * PX,
        y_max: 220 * PX,
        x_min: 0,
        clock_center_x: 0,
        clock_center_y: 0,
        clock_radius: 0,
        corner_x: None,
        corner_y: None,
    }
}

#[test]
fn the_stove_is_cut_out_with_growing_margins() {
    let stage = FindStove::new();
    assert_eq!(
        stage.crop_for_iteration(0, 2560, 1440),
        CropRegion { x: 1300, y: 830, width: 870, height: 450 }
    );
    assert_eq!(
        stage.crop_for_iteration(2, 2560, 1440),
        CropRegion { x: 1260, y: 790, width: 950, height: 530 }
    );
    assert_eq!(
        stage.crop_for_iteration(5, 2200, 1300),
        CropRegion { x: 1200, y: 730, width: 1000, height: 570 }
    );
    assert_eq!(stage.plan_crop(0, 0, 0).unwrap_err(), over("empty frame (0x0)"));
    let small = FindStove::with_crop(CropRegion { x: 0, y: 0, width: 90, height: 40 });
    assert_eq!(
        small.plan_crop(0, 500, 500).unwrap_err(),
        over("crop region too small for meaningful detection")
    );
    assert!(stage.is_in_frame(0, 2560, 1440));
    assert!(!stage.is_in_frame(0, 640, 480));
    assert!(!stage.is_in_frame(u32::MAX, 2560, 1440));
    let (label, shapes) = find_stove::debug_shapes(&stage.initial_crop);
    assert_eq!(label, "S1:FindStove");
    assert_eq!(
        shapes,
        vec![Shape::Rectangle {
            x: 1300,
            y: 830,
            width: 870,
            height: 450,
            color: Color { blue: 0, green: 255, red: 0 },
            thickness: 2,
        }]
    );
}

fn hough(rho: i64, theta: i64) -> HoughLine {
    HoughLine { rho: rho * PX, theta: theta * PX }
}

#[test]
fn line_thresholds_are_relaxed() {
    assert_eq!(thresholds_for_iteration(0), (80, 200, 200));
    assert_eq!(thresholds_for_iteration(4), (80, 200, 200));
    assert_eq!(thresholds_for_iteration(5), (74, 186, 185));
    assert_eq!(thresholds_for_iteration(100), (20, 60, 80));
}

#[test]
fn the_best_pair_of_lines_is_chosen() {
    let lines = vec![hough(20, 90), hough(22, 90), hough(60, 90), hough(200, 92), hough(30, 10)];
    let best = choose_pair(&lines, 300, 0).unwrap();
    assert_eq!((best.top.rho(), best.bot.rho()), (21 * PX, 60 * PX));
    assert_eq!((best.top.theta(), best.bot.theta()), (90 * PX, 90 * PX));
    let next = choose_pair(&lines, 300, 1).unwrap();
    // 0.40 * 0.632 + 0.25 * 0.867 + 0.20 * 0.75 + 0.15 * 0.597, against 0.40 * 0.567
    // + 0.25 * 0.867 + 0.20 * 0.5 + 0.15 * 0.467
    assert_eq!((next.top.rho(), next.bot.rho()), (21 * PX, 200 * PX));
    let far = choose_pair(&lines, 300, 4).unwrap();
    let last = choose_pair(&lines, 300, 3).unwrap();
    assert_eq!(far, last);
}

#[test]
fn missing_lines_are_reported() {
    assert_eq!(
        choose_pair(&vec![hough(20, 90)], 300, 5).unwrap_err(),
        retry("found 1 horizontal lines (need 2), canny=74/186, hough=185")
    );
    assert_eq!(
        choose_pair(&vec![hough(20, 90), hough(25, 91)], 300, 0).unwrap_err(),
        retry("only 1 line cluster(s) after merging (need 2)")
    );
    assert_eq!(
        choose_pair(&vec![hough(20, 90), hough(32, 91)], 300, 0).unwrap_err(),
        retry("2 clusters but no pair with separation >= 15")
    );
    assert_eq!(find_lines::no_crop(), over("no crop region from Stage 1"));
}

#[test]
fn normals_become_lines_across_the_crop() {
    let level = rho_theta_to_line(40 * PX, 0, 1_000_000_000, 800);
    assert_eq!(level, line(0, 40, 800, 40));
    let tilted = rho_theta_to_line(40 * PX, 100_000_000, 500_000_000, 100);
    assert_eq!(tilted, line(0, 80, 100, 60));
    let steep = rho_theta_to_line(PX, 0, 0, 10);
    assert_eq!(steep.y1, 1_000_000 * PX);
    let pair = choose_pair(&vec![hough(20, 90), hough(60, 92)], 300, 0).unwrap();
    assert_eq!(line_pair(&pair, level, tilted).avg_theta, 91 * PX);
    let (label, shapes) = find_lines::debug_shapes(&level_lines());
    assert_eq!(label, "S2:FindLines_T10_B50");
    assert_eq!(shapes.len(), 2);
}

#[test]
fn lines_are_clustered_by_distance() {
    let clusters = cluster_by_rho(&vec![hough(30, 90), hough(10, 88), hough(16, 92)], 10 * PX);
    assert_eq!(clusters, vec![vec![hough(10, 88), hough(16, 92)], vec![hough(30, 90)]]);
    assert_eq!(cluster_average(&clusters[0]), hough(13, 90));
    assert_eq!(inter_line_distance(&level_lines()), 40 * PX as i128);
    assert_eq!(enhancement_tiles(64), 4);
    assert_eq!(enhancement_tiles(200), 6);
    assert_eq!(enhancement_tiles(4000), 8);
}

fn peak(x: i64, size: i64, strongest: i64) -> PeakCandidate {
    PeakCandidate { x_orig: x * PX, size, rows: 1, strongest }
}

#[test]
fn edges_need_an_image_of_some_size() {
    assert_eq!(check_source(false, 800, 300), Some(over("no crop region from Stage 1")));
    assert_eq!(check_source(true, 49, 300), Some(over("source image too small")));
    assert_eq!(check_source(true, 50, 50), None);
    let band = scaled_band(800, 300, 2).unwrap();
    assert_eq!((band.width, band.height, band.y_start, band.y_end), (400, 150, 22, 127));
    assert!(scaled_band(79, 300, 4).is_none());
}

#[test]
fn the_steepest_columns_are_the_peaks() {
    let gradients: Vec<i16> = vec![0, -50, 3, 20, 0, -30, 1, 40];
    assert_eq!(column_profile(&gradients, 4, 2), vec![0, -80, 4, 60]);
    let profile = vec![0, -80, 4, 60, -90, 0, 0, 0, -11, -10];
    assert_eq!(extract_top_peaks(&profile, 2, 2, 1, true), vec![4, 1]);
    assert_eq!(extract_top_peaks(&profile, 2, 3, 1, true), vec![4, 1, 8]);
    assert_eq!(extract_top_peaks(&profile, 2, 3, 1, false), vec![3]);
    assert_eq!(extract_top_peaks(&profile, 2, 3, 5, true), vec![4]);
}

#[test]
fn candidates_come_from_both_sides() {
    let mut profile = vec![0i64; 100];
    profile[10] = -400;
    profile[45] = -900;
    profile[90] = 200;
    let (left, right) = edge_candidates(&profile, 4, 2);
    assert_eq!(left.len(), 1);
    assert_eq!(left[0].x_orig, 20 * PX);
    assert_eq!((left[0].size, left[0].strongest, left[0].rows), (400, 400, 4));
    assert_eq!((right[0].size, right[0].strongest, right[0].rows), (200, 200, 4));
    assert_eq!(right[0].x_orig, 180 * PX);
}

/// A band of two equal rows with a falling and a rising column.
fn band(width: u32, divisor: u32, falling: (usize, i16), rising: (usize, i16)) -> ScaledGradients {
    let mut gradients = vec![0i16; 2 * width as usize];
    for row in 0..2 {
        gradients[row * width as usize + falling.0] = falling.1;
        gradients[row * width as usize + rising.0] = rising.1;
    }
    ScaledGradients { gradients, width, rows: 2, divisor }
}

#[test]
fn edges_are_sought_at_all_sizes() {
    assert_eq!(scale_divisors(), vec![1, 2, 4]);
    let bands = vec![
        band(400, 1, (20, -100), (380, 100)),
        band(200, 2, (10, -80), (180, 120)),
    ];
    // The stronger rising column, twenty pixels away, stands for both.
    assert_eq!(find_edges(&bands, 0).unwrap(), (20, 360));
    assert_eq!(find_edges(&bands, 1).unwrap_err(), over("all 1 candidate pairs exhausted"));
    assert_eq!(
        find_edges(&Vec::new(), 0).unwrap_err(),
        over("no gradient peaks found at any scale")
    );
    // What is exhausted stays so.
    for iteration in [2, 3, 1000, u32::MAX] {
        assert_eq!(
            find_edges(&bands, iteration).unwrap_err(),
            over("all 1 candidate pairs exhausted")
        );
    }
}

type Prepared = Result<(Vec<ScaledGradients>, i64), String>;

fn one_band() -> Prepared {
    Ok((vec![band(400, 1, (20, -100), (380, 100))], 300))
}

fn straight_edge(height: &i64, x: i32, is_left: bool, angle: i64) -> Result<Line, String> {
    assert_eq!(is_left, x == 20);
    assert_eq!(angle, 2 * PX);
    Ok(line(x as i64, 0, x as i64, *height))
}

fn state_with_lines() -> PipelineState {
    let mut state = PipelineState::default();
    state.crop = Some(CropRegion { x: 0, y: 0, width: 400, height: 300 });
    state.lines = Some(LinePair { avg_theta: 92 * PX, ..level_lines() });
    state
}

#[test]
fn an_attempt_at_the_edges_notes_them_and_nothing_else() {
    let mut state = state_with_lines();
    let r = FindVerticals.run(&mut state, 400, 300, 0, &one_band, &straight_edge);
    assert_eq!(r, Ok((StageOutcome::Success, ImageOutput::Passthrough)));
    let mut expected = state_with_lines();
    expected.verticals =
        Some(VerticalPair { left: line(20, 0, 20, 300), right: line(380, 0, 380, 300) });
    assert_eq!(state, expected);
}

#[test]
fn an_attempt_at_the_edges_ends_when_nothing_is_left() {
    for (iteration, width, height, text) in [
        (1, 400, 300, "all 1 candidate pairs exhausted"),
        (7, 400, 300, "all 1 candidate pairs exhausted"),
        (0, 49, 300, "source image too small"),
        (0, 400, 49, "source image too small"),
    ] {
        let mut state = state_with_lines();
        let r = FindVerticals.run(
            &mut state,
            width,
            height,
            iteration,
            &one_band,
            &straight_edge,
        );
        assert_eq!(r, Ok((over(text), ImageOutput::Passthrough)));
        assert_eq!(state, state_with_lines());
    }
    let mut state = PipelineState::default();
    let r = FindVerticals.run(&mut state, 400, 300, 0, &one_band, &straight_edge);
    assert_eq!(r, Ok((over("no crop region from Stage 1"), ImageOutput::Passthrough)));
    assert_eq!(state, PipelineState::default());
}

#[test]
fn a_failed_attempt_at_the_edges_changes_nothing() {
    let broken = || -> Prepared { Err("no gradients".to_string()) };
    let mut state = state_with_lines();
    let r = FindVerticals.run(&mut state, 400, 300, 0, &broken, &straight_edge);
    assert_eq!(r, Err("no gradients".to_string()));
    assert_eq!(state, state_with_lines());
    let crooked = |_height: &i64, x: i32, is_left: bool, _angle: i64| {
        if is_left {
            Ok(line(x as i64, 0, x as i64, 300))
        } else {
            Err("no edge".to_string())
        }
    };
    let r = FindVerticals.run(&mut state, 400, 300, 0, &one_band, &crooked);
    assert_eq!(r, Err("no edge".to_string()));
    assert_eq!(state, state_with_lines());
}

#[test]
fn templates_are_turned_all_round() {
    let angles = rotation_angles();
    assert_eq!(angles.len(), 36);
    assert_eq!((angles[0], angles[1], angles[35]), (0, 10 * PX, 350 * PX));
    assert!(clock_template_fits(5, 5, 6, 6));
    assert!(!clock_template_fits(4, 5, 6, 6));
    assert!(!clock_template_fits(6, 5, 6, 6));
}

#[test]
fn synthetic_images_have_two_lines() {
    let color = Color { blue: 220, green: 220, red: 220 };
    assert_eq!(
        synthetic_lines(640, 480),
        vec![
            Shape::Line { x1: 0, y1: 160, x2: 640, y2: 160, color, thickness: 3 },
            Shape::Line { x1: 0, y1: 240, x2: 640, y2: 240, color, thickness: 3 },
        ]
    );
}

#[test]
fn edges_are_paired_by_strength() {
    let left = vec![peak(10, 50, 50), peak(30, 80, 160), peak(100, 20, 80)];
    let kept = nms_peaks(&left, 30 * PX);
    assert_eq!(kept, vec![peak(30, 80, 160), peak(100, 20, 80)]);
    let right = vec![peak(200, 60, 60)];
    assert_eq!(choose_edges(&left, &right, 0).unwrap(), (30, 200));
    let between = vec![PeakCandidate { x_orig: 29_500_000, ..peak(0, 80, 160) }];
    assert_eq!(choose_edges(&between, &right, 0).unwrap(), (30, 200));
    let nowhere = vec![PeakCandidate { x_orig: i64::MIN, ..peak(0, 80, 160) }];
    assert_eq!(choose_edges(&nowhere, &right, 0).unwrap(), (i32::MIN, 200));
    assert_eq!(
        choose_edges(&left, &right, 1).unwrap_err(),
        over("all 1 candidate pairs exhausted")
    );
    assert_eq!(
        choose_edges(&left, &Vec::new(), 0).unwrap_err(),
        over("no gradient peaks found at any scale")
    );
    assert_eq!(
        choose_edges(&left, &vec![peak(150, 60, 60)], 0).unwrap_err(),
        over("no valid left/right pair meets separation")
    );
}

#[test]
fn edges_take_the_slope_of_the_best_segment() {
    assert_eq!(strip_around(100, 800), Some((75, 50)));
    assert_eq!(strip_around(10, 800), Some((0, 35)));
    assert_eq!(strip_around(0, 9), None);
    let found = vec![
        Segment { x1: 10, y1: 200, x2: 14, y2: 100 },
        Segment { x1: 20, y1: 0, x2: 30, y2: 90 },
        Segment { x1: 25, y1: 10, x2: 25, y2: 60 },
    ];
    let leaning = leaning_segments(&found, true);
    assert_eq!(
        leaning,
        vec![Segment { x1: 14, y1: 100, x2: 10, y2: 200 }, Segment { x1: 25, y1: 10, x2: 25, y2: 60 }]
    );
    let angles = vec![-2_290_610, 0];
    let refined = best_edge(100, 300, 75, &leaning, &angles, -2_000_000);
    assert_eq!(refined, line(89, 100, 85, 200));
    let search = |x: i32, width: i32| -> Result<Vec<Segment>, String> {
        assert_eq!((x, width), (75, 50));
        Ok(found.clone())
    };
    let angle_of = |s: &Segment| if s.x1 == 14 { -2_290_610 } else { 0 };
    let edge = |is_negative: bool| {
        refine_boundary_slope(100, is_negative, 800, 300, -2_000_000, &search, &angle_of)
    };
    assert_eq!(edge(true), Ok(refined));
    assert_eq!(edge(false), Ok(line(95, 0, 105, 90)));
    let none = |_: i32, _: i32| -> Result<Vec<Segment>, String> { Ok(Vec::new()) };
    assert_eq!(
        refine_boundary_slope(100, true, 800, 300, 0, &none, &angle_of),
        Ok(line(100, 0, 100, 300))
    );
    let lost = |_: i32, _: i32| -> Result<Vec<Segment>, String> { Err("lost".to_string()) };
    assert_eq!(
        refine_boundary_slope(100, true, 800, 300, 0, &lost, &angle_of),
        Err("lost".to_string())
    );
    assert_eq!(
        refine_boundary_slope(0, true, 9, 300, 0, &lost, &angle_of),
        Ok(line(0, 0, 0, 300))
    );
    let straight = best_edge(100, 300, 75, &Vec::new(), &Vec::new(), 0);
    assert_eq!(straight, upright_line(100, 300));
    assert_eq!(straight, line(100, 0, 100, 300));
    assert_eq!(expected_perpendicular(&Some(LinePair { avg_theta: 92 * PX, ..level_lines() })), 2 * PX);
    assert_eq!(expected_perpendicular(&None), 0);
    let (label, _) = find_verticals::debug_shapes(&upright_edges());
    assert_eq!(label, "S3:FindVerticals_L10_R790");
}

#[test]
fn lines_cross_in_one_point() {
    let p = line_intersection(&line(0, 0, 10, 10), &line(0, 10, 10, 0)).unwrap();
    assert_eq!((p.x.to_i64(), p.y.to_i64()), (5 * PX, 5 * PX));
    assert!(line_intersection(&line(0, 0, 10, 0), &line(0, 5, 10, 5)).is_none());
    let level = line(0, 0, 10, 0);
    let almost = Line { x1: 0, y1: 2 * PX, x2: PX, y2: 2 * PX + 1 };
    let far = line_intersection(&level, &almost).unwrap();
    assert_eq!((far.x.to_i64(), far.y.to_i64()), (-2_000_000 * PX, 0));
    let same = line_intersection(&almost, &level).unwrap();
    assert_eq!((same.x.to_i64(), same.y.to_i64()), (-2_000_000 * PX, 0));
}

#[test]
fn corners_are_jittered_by_turns() {
    assert_eq!(jitter_for_iteration(0), 0);
    assert_eq!(jitter_for_iteration(1), -1_500_000);
    assert_eq!(jitter_for_iteration(2), 1_500_000);
    assert_eq!(jitter_for_iteration(3), -3_000_000);
    assert_eq!(jitter_for_iteration(60), 22_500_000);
}

#[test]
fn the_panel_is_warped_to_a_rectangle() {
    let crop = Some(CropRegion { x: 100, y: 200, width: 800, height: 300 });
    let plan = plan_warp(&crop, &Some(level_lines()), &Some(upright_edges()), 1).unwrap();
    let places = |p: &[Crossing; 4]| -> Vec<(i64, i64)> {
        p.iter().map(|p| (p.x.to_i64(), p.y.to_i64())).collect()
    };
    assert_eq!(
        places(&plan.src),
        vec![
            (10 * PX, 8_500_000),
            (790 * PX, 8_500_000),
            (790 * PX, 51_500_000),
            (10 * PX, 51_500_000),
        ]
    );
    assert_eq!(
        places(&plan.dst),
        vec![(10 * PX, 20 * PX), (790 * PX, 20 * PX), (790 * PX, 60 * PX), (10 * PX, 60 * PX)]
    );
    assert_eq!((plan.width, plan.height), (800, 380));
    assert_eq!(
        plan_warp(&None, &Some(level_lines()), &Some(upright_edges()), 0).unwrap_err(),
        over("missing crop, lines, or verticals from previous stages")
    );
    let lying = VerticalPair { left: line(0, 5, 10, 5), right: line(0, 6, 10, 6) };
    assert_eq!(
        plan_warp(&crop, &Some(level_lines()), &Some(lying), 0).unwrap_err(),
        retry("horizontal and vertical lines are parallel — no intersection")
    );
    let (end, above) = (1_000_000 * PX, 999_999 * PX);
    let almost = Line { x1: 0, y1: end, x2: end, y2: end - 1 };
    let next = Line { x1: 0, y1: above, x2: end, y2: above - 1 };
    let flat = VerticalPair { left: almost, right: next };
    let distant = plan_warp(&crop, &Some(even_lines()), &Some(flat), 0).unwrap();
    assert_eq!((distant.width, distant.height), (800, i32::MAX));
    assert_eq!(distant.src[0].x.to_i128(), 1_000_000_000_000_000_000_000_000);
    assert_eq!(distant.src[1].x.to_i128(), 999_999_000_000_000_000_000_000);
    let empty = Some(CropRegion { x: 0, y: 0, width: 0, height: 300 });
    assert_eq!(
        plan_warp(&empty, &Some(level_lines()), &Some(upright_edges()), 0).unwrap_err(),
        retry("invalid output dimensions: 0x380")
    );
    assert_eq!(perspective::empty_warp(), retry("warp produced empty image"));
}

#[test]
fn warps_are_noted_in_the_state() {
    let mut state = state_for_final_check();
    state.crop = Some(CropRegion { x: 100, y: 200, width: 800, height: 300 });
    state.lines = Some(level_lines());
    state.verticals = Some(upright_edges());
    let plan = plan_warp(&state.crop, &state.lines, &state.verticals, 0).unwrap();
    perspective::note_warp(&mut state, &plan, TransformMatrix([[7; 3]; 3]));
    let noted = state.perspective.unwrap();
    assert_eq!((noted.output_width, noted.output_height), (800, 380));
    assert_eq!(noted.matrix, TransformMatrix([[7; 3]; 3]));
    let (label, shapes) = perspective::debug_shapes(&state).unwrap();
    assert_eq!(label, "S4:Perspective_800x380");
    assert_eq!(shapes.len(), 2);
    state.verticals = Some(VerticalPair {
        left: Line { x1: 0, y1: 1_000_000 * PX, x2: 1_000_000 * PX, y2: 1_000_000 * PX - 1 },
        right: line(790, 0, 790, 300),
    });
    state.lines = Some(even_lines());
    let (_, distant) = perspective::debug_shapes(&state).unwrap();
    assert!(matches!(distant[0], Shape::Line { y1: i32::MAX, y2: i32::MAX, .. }));
    state.lines = None;
    assert!(perspective::debug_shapes(&state).is_none());
}

#[test]
fn a_warp_is_judged_by_its_lines() {
    assert_eq!(judge_lines(&Vec::new()), StageOutcome::Success);
    assert_eq!(
        judge_lines(&vec![hough(10, 45)]),
        over("no near-horizontal lines found in warped image")
    );
    assert_eq!(judge_lines(&vec![hough(10, 92), hough(20, 88), hough(30, 92), hough(40, 99)]), StageOutcome::Success);
    assert_eq!(
        judge_lines(&vec![hough(10, 93), hough(20, 87), hough(30, 92)]),
        over("mean horizontal slope = 2.7 deg (max 2 deg)")
    );
    assert_eq!(warp_check::empty_image(), over("empty warped image"));
}

#[test]
fn the_band_lies_around_the_trim() {
    let found = plan_band(&Some(level_lines()), &Some(upright_edges()), &Some(correction(800, 380)));
    let band = found.unwrap();
    assert_eq!(band, area());
    assert_eq!(band_rows(&level_lines(), &correction(800, 380)), (8, 212));
    // Less than three millionths short of ten pixels.
    let short = LinePair {
        bottom: Line { y1: 11_886_792, y2: 11_886_792, ..level_lines().bottom },
        ..level_lines()
    };
    assert_eq!(
        plan_band(&Some(short), &Some(upright_edges()), &Some(correction(800, 380))).unwrap_err(),
        retry("band too narrow: 10px")
    );
    let enough = LinePair {
        bottom: Line { y1: 11_886_792, y2: 11_886_793, ..level_lines().bottom },
        ..level_lines()
    };
    assert!(plan_band(&Some(enough), &Some(upright_edges()), &Some(correction(800, 380))).is_ok());
    let cut = plan_band(&Some(level_lines()), &Some(upright_edges()), &Some(correction(800, 16)));
    assert_eq!(cut.unwrap_err(), retry("band too narrow: 8px"));
    assert_eq!(
        plan_band(&None, &Some(upright_edges()), &Some(correction(800, 380))).unwrap_err(),
        over("missing lines, verticals, or perspective")
    );
    let (label, shapes) = extract_band::debug_shapes(&level_lines(), &band, 800);
    assert_eq!(label, "S6:ExtractBand");
    assert!(matches!(shapes[0], Shape::Line { y1: 12, .. }));
    assert!(matches!(shapes[1], Shape::Line { y1: 52, .. }));
}

#[test]
fn the_clock_bounds_the_knob_area() {
    let plan = plan_clock(true, true, 100, 100, 6).unwrap();
    assert_eq!((plan.scale, plan.width, plan.height), (150_000, 15, 15));
    assert_eq!(plan_clock(true, true, 100, 100, 5).unwrap().width, 40);
    assert_eq!(plan_search(&plan, 400, 100).unwrap(), 140);
    let placed = place_clock(&plan, 300_000_000, 10, 20, 400, &area()).unwrap();
    assert_eq!(placed.x_min, 28 * PX);
    assert_eq!(placed.clock_center_x, 17_500_000);
    assert_eq!(placed.clock_center_y, 35_500_000);
    assert_eq!(placed.clock_radius, 7_500_000);
    assert_eq!(plan_clock(false, true, 100, 100, 0).unwrap_err(), over("missing prior state"));
    assert_eq!(plan_clock(true, false, 100, 100, 0).unwrap_err(), over("clock template not loaded"));
    assert_eq!(
        plan_clock(true, true, 20, 100, 0).unwrap_err(),
        retry("clock template too small at scale 0.15")
    );
    assert_eq!(
        plan_search(&plan, 15, 100).unwrap_err(),
        retry("clock template larger than band at scale 0.15")
    );
    assert_eq!(
        place_clock(&plan, 100_000_000, 10, 20, 400, &area()).unwrap_err(),
        retry("clock match too low: 0.10 (need 0.25), scale=0.15")
    );
    // Just above the middle between two hundredths.
    assert_eq!(
        place_clock(&plan, 165_000_000, 10, 20, 400, &area()).unwrap_err(),
        retry("clock match too low: 0.16 (need 0.25), scale=0.15")
    );
    assert_eq!(
        place_clock(&plan, 165_000_001, 10, 20, 400, &area()).unwrap_err(),
        retry("clock match too low: 0.17 (need 0.25), scale=0.15")
    );
    assert_eq!(
        place_clock(&plan, 300_000_000, 10, 20, 28, &area()).unwrap_err(),
        retry("clock right edge 28 exceeds band width 28")
    );
    let (label, shapes) = find_clock::debug_shapes(212);
    assert_eq!(label, "S7:FindClock");
    assert_eq!(shapes.len(), 1);
}

fn at(x: i64, y: i64, score: i64) -> TemplateMatch {
    TemplateMatch { x: x * PX, y: y * PX, score: score * 1_000_000, angle: 0 }
}

#[test]
fn templates_shrink_with_the_attempts() {
    let first = plan_features(true, true, 100, 100, 0).unwrap();
    assert_eq!((first.scale, first.threshold, first.knob_width), (200_000, 350_000, 20));
    let later = plan_features(true, true, 100, 100, 9).unwrap();
    assert_eq!((later.scale, later.threshold, later.knob_width), (250_000, 300_000, 25));
    let last = plan_features(true, true, 100, 100, 40).unwrap();
    assert_eq!(last.threshold, 150_000);
    assert_eq!(first.least_score(), 350_000_000);
    assert_eq!(plan_features(false, true, 100, 100, 0).unwrap_err(), over("template images not loaded"));
    assert_eq!(plan_features(true, false, 100, 100, 0).unwrap_err(), over("missing knob search area"));
    assert_eq!(
        plan_features(true, true, 20, 100, 0).unwrap_err(),
        retry("knob template too small at scale 0.20")
    );
    assert_eq!(resized(100, 50, 300_000), (30, 15));
    assert!(template_fits(20, 20, 21, 21));
    assert!(!template_fits(21, 20, 21, 21));
}

#[test]
fn matches_are_read_from_the_score_map() {
    let scores = vec![100, 400, 350, 900, 0, 360];
    let found = find_peaks(&scores, 2, 3, 350, 11, 20, 30 * PX);
    let places: Vec<(i64, i64, i64)> = found.iter().map(|m| (m.x, m.y, m.score)).collect();
    assert_eq!(
        places,
        vec![
            (5_500_000, 11 * PX, 900),
            (6_500_000, 10 * PX, 400),
            (7_500_000, 11 * PX, 360),
            (7_500_000, 10 * PX, 350),
        ]
    );
    assert_eq!(found[0].angle, 30 * PX);
}

#[test]
fn near_matches_give_way_to_better_ones() {
    let all = vec![at(0, 0, 5), at(10, 0, 9), at(24, 0, 7), at(25, 0, 3)];
    assert_eq!(nms(&all, 15 * PX), vec![at(10, 0, 9), at(25, 0, 3)]);
    assert_eq!(sort_by_score(&all)[0], at(10, 0, 9));
    assert_eq!(sort_by_x(&vec![at(9, 0, 1), at(3, 0, 2)])[0], at(3, 0, 2));
}

#[test]
fn the_levelest_row_is_selected() {
    let mut all: Vec<TemplateMatch> = (0..10).map(|i| at(120 + i * 65, 100, 500)).collect();
    all.push(at(300, 130, 100));
    all.push(at(50, 300, 900));
    let chosen = select_y_aligned_knobs(&all, 10, 12 * PX).unwrap();
    assert_eq!(chosen.len(), 10);
    assert!(chosen.iter().all(|k| k.center_y == 100 * PX));
    assert!(select_y_aligned_knobs(&all[..9].to_vec(), 10, 12 * PX).is_none());
    let crowded: Vec<TemplateMatch> = (0..10).map(|i| at(120 + i * 4, 100, 500)).collect();
    assert!(select_y_aligned_knobs(&crowded, 10, 12 * PX).is_none());
}

#[test]
fn features_lie_where_the_area_lies() {
    let plan = FeaturePlan { scale: 200_000, threshold: 350_000, knob_width: 20, knob_height: 20 };
    let matches: Vec<TemplateMatch> = (0..10).map(|i| at(20 + i * 65, 60, 500)).collect();
    let candidates = knob_candidates(&matches, &plan).unwrap();
    let search = KnobSearchArea {
        x_min: 28 * PX,
        clock_center_x: 17 * PX,
        clock_center_y: 35 * PX,
        clock_radius: 8 * PX,
        ..area()
    };
    let found = choose_features(&candidates, None, &plan, 20, 20, &search).unwrap();
    assert_eq!(found.knobs.len(), 10);
    assert_eq!(found.knobs[0].center_x, 48 * PX);
    assert_eq!(found.knobs[0].center_y, 68 * PX);
    assert_eq!(found.off_angles.len(), 10);
    assert!(found.clock.center_x < found.knobs[0].center_x);
    assert!(matches!(knob_candidates(&matches[..9].to_vec(), &plan), Err(StageOutcome::Retry(_))));
    let doubled: Vec<TemplateMatch> = (0..10).map(|i| at(20 + i, 60, 500)).collect();
    assert!(matches!(knob_candidates(&doubled, &plan), Err(StageOutcome::Retry(_))));
}

#[test]
fn knobs_are_marked_in_the_knob_area() {
    let features = row();
    let search = Some(KnobSearchArea { x_min: 28 * PX, ..area() });
    let directions = vec![(0, 1_000_000_000); 10];
    assert!(find_features::can_mark(&features, &search, &directions));
    let (label, shapes) = find_features::debug_shapes(&features, &search, &directions);
    assert_eq!(label, "S8:FindFeatures_10k_clk50");
    assert_eq!(shapes.len(), 20);
    assert_eq!(
        shapes[0],
        Shape::Circle {
            x: 92,
            y: 92,
            radius: 12,
            color: Color { blue: 0, green: 255, red: 0 },
            thickness: 2,
            smooth: false,
        }
    );
    assert_eq!(
        shapes[1],
        Shape::Line {
            x1: 92,
            y1: 92,
            x2: 92,
            y2: 104,
            color: Color { blue: 0, green: 255, red: 255 },
            thickness: 2,
        }
    );
    let mut far = row();
    far.knobs[3].center_y = i64::MAX;
    assert!(!find_features::can_mark(&far, &search, &directions));
    assert!(find_features::can_mark(&far, &search, &Vec::new()));
}

#[test]
fn the_corner_is_found_above_the_last_knob() {
    let band = plan_bar(&Some(row())).unwrap();
    assert_eq!((band.top, band.bottom), (64, 94));
    assert_eq!((band.median_y, band.median_r, band.rightmost_x), (100 * PX, 12 * PX, 705 * PX));
    assert_eq!(strongest_row(&vec![1, -2, -9, 9, 10, -8], 2, 3), 2);
    let wall = plan_wall(&band, 6, 800, 200).unwrap();
    assert_eq!((wall.left, wall.right, wall.top, wall.bottom, wall.bar_y), (717, 765, 58, 112, 70));
    assert_eq!(strongest_column(&vec![1, 5, -3, 2, 5, -1], 3, 2), 1);
    let mut search = Some(area());
    note_corner(&mut search, &wall, 3);
    assert_eq!(search.unwrap().corner_x, Some(720 * PX));
    assert_eq!(search.unwrap().corner_y, Some(70 * PX));
    assert!(find_corner::can_cross(&search));
    let (label, shapes) = find_corner::debug_shapes(&search).unwrap();
    assert_eq!(label, "S10:FindCorner_720_70");
    assert_eq!(shapes.len(), 2);
    assert!(find_corner::debug_shapes(&None).is_none());
    let nowhere = Some(KnobSearchArea { corner_x: Some(i64::MAX), corner_y: Some(0), ..area() });
    assert!(!find_corner::can_cross(&nowhere));
    assert_eq!(plan_bar(&None).unwrap_err(), over("no features from S8"));
    let none = DetectedFeatures { knobs: Vec::new(), ..row() };
    assert_eq!(plan_bar(&Some(none)).unwrap_err(), over("no knobs detected"));
    let high = DetectedFeatures { knobs: vec![knob(100, 0, 12)], ..row() };
    assert_eq!(plan_bar(&Some(high)).unwrap_err(), retry("bar search band too narrow"));
    assert_eq!(plan_wall(&band, 6, 720, 200).unwrap_err(), retry("wall search band too narrow"));
}

#[test]
fn the_row_is_made_level() {
    let mut tilted = row();
    tilted.knobs[9].center_y = 110 * PX;
    let found = find_row(true, &Some(tilted)).unwrap();
    assert_eq!((found.ideal_y, found.min_y, found.median_r), (100 * PX, 100 * PX, 12 * PX));
    let quad = quadrilateral(&found);
    assert_eq!(quad.src[1], ImagePoint { x: 705 * PX, y: 110 * PX });
    assert_eq!(quad.src[2], ImagePoint { x: 705 * PX, y: 146 * PX });
    assert_eq!(quad.dst[2], ImagePoint { x: 705 * PX, y: 136 * PX });
    let crop = refined_crop(&found, 800, 200).unwrap();
    assert_eq!((crop.top, crop.width, crop.height), (64 * PX, 741, 72));
    let mut search = Some(KnobSearchArea { x_min: 28 * PX, ..area() });
    note_crop(&mut search, &crop);
    assert_eq!((search.unwrap().y_min, search.unwrap().x_min), (64 * PX, 0));
    assert_eq!(refined_crop(&found, 40, 200).unwrap_err(), retry("refined crop too small: 40x72"));
    assert_eq!(find_row(false, &Some(row())).unwrap_err(), over("no knob search area"));
    assert_eq!(find_row(true, &None).unwrap_err(), over("no features"));
    let few = DetectedFeatures { knobs: vec![knob(1, 1, 1)], ..row() };
    assert_eq!(
        find_row(true, &Some(few)).unwrap_err(),
        over("need >= 4 knobs for homography, got 1")
    );
    assert_eq!(refine_warp::transform_failed(), retry("perspective transform computation failed"));
    assert_eq!(refine_warp::debug_label(), "S11:RefineWarp");
    assert_eq!(median_radius(&row().knobs), 12 * PX);
}

fn problem(change: fn(&mut DetectedFeatures)) -> String {
    let mut features = row();
    change(&mut features);
    validate_features(&features, &final_check::thresholds()).unwrap_err()
}

#[test]
fn implausible_rows_are_refused() {
    let measured = validate_features(&row(), &final_check::thresholds()).unwrap();
    assert_eq!(measured.max_y_dev, 0);
    assert_eq!(measured.min_x_gap, Some(65 * PX as i128));
    assert_eq!(measured.gap_cv, Some(0));
    assert_eq!(measured.median_r, 12 * PX);
    assert_eq!(problem(|f| f.knobs.truncate(9)), "expected 10 knobs, got 9");
    assert!(problem(|f| f.knobs[3].center_y = 200 * PX).starts_with("Y-deviation = 100.0px (max "));
    assert_eq!(problem(|f| f.knobs[1].center_x = 130 * PX), "knobs 0/1 X-gap = 10.0px (min 30px)");
    assert_eq!(
        problem(|f| {
            f.knobs[0].radius = 40 * PX;
            f.knobs[1].radius = 40 * PX;
        }),
        "knobs 0/1 overlap: dist=65.0px < radii_sum=80.0px"
    );
    assert!(problem(|f| f.knobs[9].center_x = 950 * PX).starts_with("X-gap CV = 0."));
    assert_eq!(
        problem(|f| f.knobs[2].radius = 20 * PX),
        "knob 2 radius = 20.0 outside [10.0, 14.4]"
    );
    assert_eq!(
        problem(|f| f.clock.center_x = 120 * PX),
        "clock x=120.0 is not left of first knob x=120.0"
    );
}

#[test]
fn the_final_check_is_stricter() {
    let mut crooked = row();
    crooked.knobs[2].radius = 20 * PX;
    assert_eq!(check_features(&crooked, &sanity::thresholds()), StageOutcome::Success);
    assert_eq!(
        check_features(&crooked, &final_check::thresholds()),
        over("knob 2 radius = 20.0 outside [10.0, 14.4]")
    );
    assert_eq!(check_features(&row(), &final_check::thresholds()), StageOutcome::Success);
    let mut far = row();
    far.knobs[0].center_x = i64::MAX;
    assert_eq!(
        check_features(&far, &sanity::thresholds()),
        over("knobs 0/1 X-gap = -9223372036669.8px (min 4px)")
    );
    far.knobs.pop();
    assert_eq!(check_features(&far, &sanity::thresholds()), over("expected 10 knobs, got 9"));
    let mut distant = row();
    distant.clock.center_x = -600_000 * PX;
    assert_eq!(check_features(&distant, &final_check::thresholds()), StageOutcome::Success);
    for k in distant.knobs.iter_mut() {
        k.center_x += 300_000_000_000 * PX;
    }
    assert_eq!(check_features(&distant, &final_check::thresholds()), StageOutcome::Success);
}

#[test]
fn checks_are_stages() {
    let coarse: SanityCheck<Vec<u8>, String> = SanityCheck::new();
    assert_eq!(coarse.descriptor().label, "S9:SanityCheck");
    assert_eq!(coarse.max_retries(), 1);
    let last: FinalCheck<Vec<u8>, String> = FinalCheck::new();
    assert_eq!(last.descriptor().label, "S13:FinalCheck");
    let mut state = state_for_final_check();
    state.features = Some(row());
    state.validated = false;
    let image = Vec::new();
    let (outcome, _) = last.run(&mut state, &image, &mut Vec::new(), &image, 0).unwrap();
    assert_eq!(outcome, StageOutcome::Success);
    assert!(!state.validated);
    state.features = None;
    assert_eq!(final_check::check_state(&state), over("no features from S12"));
    assert!(matches!(sanity::check_state(&state), StageOutcome::Exhausted(_)));
    let again = FinalDetect::new(Arc::new(coarse));
    assert_eq!(again.descriptor().name, "FinalDetect");
}

#[test]
fn edge_density_tells_a_good_warp() {
    assert!(!quick_sanity_check(0, 0));
    assert!(!quick_sanity_check(19, 1000));
    assert!(quick_sanity_check(20, 1000));
    assert!(quick_sanity_check(400, 1000));
    assert!(!quick_sanity_check(401, 1000));
}

#[test]
fn every_stage_has_a_state_to_start_from() {
    for name in [
        "FindStove", "FindLines", "FindVerticals", "Perspective", "WarpCheck", "ExtractBand",
        "FindClock", "FindFeatures", "SanityCheck", "FindCorner", "RefineWarp", "FinalDetect",
        "FinalCheck",
    ] {
        assert!(state_for_stage(name).is_some(), "{name}");
    }
    assert!(state_for_stage("Nothing").is_none());
    assert_eq!(mock_features().knobs.len(), 10);
    let names = [
        find_stove::descriptor(),
        find_lines::descriptor(),
        find_verticals::descriptor(),
        perspective::descriptor(),
        warp_check::descriptor(),
        extract_band::descriptor(),
        find_clock::descriptor(),
        find_features::descriptor(),
        find_corner::descriptor(),
        refine_warp::descriptor(),
    ];
    assert_eq!(names[0].fallback, None);
    assert_eq!(names[3].label, "S4:Perspective");
    assert_eq!(names[9].label, "S11:RefineWarp");
}
