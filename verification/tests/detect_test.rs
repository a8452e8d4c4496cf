use oven_vision::config::DialConfig;
use oven_vision::detect::{
    angular_distance, can_place, classify_dial, default_label, detect_single_template, dial_window,
    read_dial, state_category, template_angles, unavailable, DialDetector, DialReading, DialState,
    DialWindow, HeatLevel, RawReading,
};
use oven_vision::pipeline::testdata::mock_features;

const DEG: i64 = 1_000_000;

#[test]
fn classify_at_off_position() {
    let state = classify_dial(90 * DEG, 90 * DEG, 15 * DEG);
    assert_eq!(state, DialState::Off);
}

#[test]
fn classify_within_tolerance_is_off() {
    let state = classify_dial(100 * DEG, 90 * DEG, 15 * DEG);
    assert_eq!(state, DialState::Off);
}

#[test]
fn classify_at_tolerance_boundary_is_off() {
    let state = classify_dial(105 * DEG, 90 * DEG, 15 * DEG);
    assert_eq!(state, DialState::Off);
}

#[test]
fn classify_90_deg_from_off_is_medium() {
    let state = classify_dial(180 * DEG, 90 * DEG, 15 * DEG);
    assert_eq!(state, DialState::On(HeatLevel::Medium));
}

#[test]
fn classify_at_max_rotation_is_max() {
    let state = classify_dial(180 * DEG, 0, 0);
    assert_eq!(state, DialState::On(HeatLevel::Max));
}

#[test]
fn classify_high_rotation() {
    let state = classify_dial(150 * DEG, 0, 15 * DEG);
    assert_eq!(state, DialState::On(HeatLevel::Max));
}

#[test]
fn classify_small_rotation_is_low() {
    let state = classify_dial(120 * DEG, 90 * DEG, 15 * DEG);
    assert_eq!(state, DialState::On(HeatLevel::Low));
}

#[test]
fn classify_wraparound_off_at_350_detected_at_5() {
    let state = classify_dial(5 * DEG, 350 * DEG, 15 * DEG);
    assert_eq!(state, DialState::Off);
}

#[test]
fn classify_wraparound_off_at_350_detected_at_10() {
    let state = classify_dial(10 * DEG, 350 * DEG, 15 * DEG);
    assert_eq!(state, DialState::On(HeatLevel::Low));
}

#[test]
fn wide_tolerance_covers_noisy_chrome_dials() {
    // With 40° tolerance, a 35° deviation from off should still be Off
    let state = classify_dial(125 * DEG, 90 * DEG, 40 * DEG);
    assert_eq!(state, DialState::Off);
}

#[test]
fn wide_tolerance_still_detects_clearly_on() {
    // 90° from off with 40° tolerance: effective=50, range=140, frac=0.357 → Medium
    let state = classify_dial(180 * DEG, 90 * DEG, 40 * DEG);
    assert_eq!(state, DialState::On(HeatLevel::Medium));
}

#[test]
fn three_quarters_of_the_range_is_high() {
    assert_eq!(classify_dial(100 * DEG, 0, 0), DialState::On(HeatLevel::High));
    assert_eq!(classify_dial(-100 * DEG, 0, 0), DialState::On(HeatLevel::High));
    assert_eq!(classify_dial(45 * DEG, 0, 0), DialState::On(HeatLevel::Medium));
    assert_eq!(classify_dial(44 * DEG, 0, 0), DialState::On(HeatLevel::Low));
}

#[test]
fn angles_are_compared_the_short_way_round() {
    assert_eq!(angular_distance(10 * DEG, 350 * DEG), 20 * DEG);
    assert_eq!(angular_distance(350 * DEG, 10 * DEG), -20 * DEG);
    assert_eq!(angular_distance(725 * DEG, 0), 5 * DEG);
}

fn dial(label: &str) -> DialConfig {
    DialConfig {
        label: label.to_string(),
        center_x: 100,
        center_y: 50,
        radius: 12,
        off_angle_deg: 0,
        off_tolerance_deg: 25 * DEG,
    }
}

fn raw(state: DialState, angle: i64) -> RawReading {
    RawReading { state, angle_deg: Some(angle * DEG), confidence: 900_000_000 }
}

fn cut(w: &DialWindow) -> Result<i32, String> {
    Ok(w.x)
}

fn turn(angle: i64) -> Result<(i64, i32, i32), String> {
    Ok((angle, 20, 20))
}

fn best_at_120(_part: &i32, turned: &i64) -> Result<i64, String> {
    Ok(if *turned == 120 * DEG { 900_000_000 } else { 100_000_000 })
}

#[test]
fn dials_are_read_one_after_the_other() {
    let near = || DialConfig { center_x: 30, ..dial("near") };
    let away = DialConfig { center_x: 1000, ..dial("away") };
    let mut detector = DialDetector::new(vec![near(), away, dial("far")]);
    let readings =
        detector.detect_all_template((400, 200), (20, 20), &cut, &turn, &best_at_120).unwrap();
    let shown: Vec<(&str, Option<i64>, i64)> =
        readings.iter().map(|r| (r.label.as_str(), r.angle_deg, r.confidence)).collect();
    assert_eq!(
        shown,
        vec![
            ("near", Some(120 * DEG), 900_000_000),
            ("away", None, 0),
            ("far", Some(120 * DEG), 900_000_000),
        ]
    );

    // The dial at column 76 cannot be scored; the one before it counts all the same.
    let broken = |part: &i32, turned: &i64| {
        if *part == 76 {
            Err("broken".to_string())
        } else {
            best_at_120(part, turned)
        }
    };
    let mut detector = DialDetector::new(vec![near(), dial("far")]);
    for _ in 0..3 {
        let r = detector.detect_all_template((400, 200), (20, 20), &cut, &turn, &broken);
        assert_eq!(r.unwrap_err(), "broken");
    }
    let after =
        detector.detect_all_template((400, 200), (20, 20), &cut, &turn, &best_at_120).unwrap();
    assert_eq!(after[0].state, DialState::On(HeatLevel::High));
    assert_eq!(after[1].state, DialState::Off);
}

#[test]
fn turned_templates_have_to_fit() {
    // At twenty degrees the template is larger than the part, and is not scored.
    let wide = |angle: i64| -> Result<(i64, i32, i32), String> {
        Ok((angle, if angle == 20 * DEG { 49 } else { 20 }, 20))
    };
    let score = |_: &i32, turned: &i64| -> Result<i64, String> {
        match *turned / DEG {
            20 => Err("too large".to_string()),
            40 => Ok(300_000_000),
            _ => Ok(0),
        }
    };
    let size = ((400, 200), (20, 20));
    let reading =
        detect_single_template(&dial("front"), size.0, size.1, &cut, &wide, &score).unwrap();
    assert_eq!((reading.angle_deg, reading.confidence), (Some(40 * DEG), 300_000_000));
    let r = detect_single_template(&dial("front"), size.0, size.1, &cut, &turn, &score);
    assert_eq!(r, Err("too large".to_string()));
    let lost = |_: &DialWindow| -> Result<i32, String> { Err("no part".to_string()) };
    let r = detect_single_template(&dial("front"), size.0, size.1, &lost, &turn, &score);
    assert_eq!(r, Err("no part".to_string()));
    let r = detect_single_template(&dial("front"), (10, 10), size.1, &lost, &turn, &score);
    assert_eq!(r, Ok(unavailable()));
    assert!(can_place(&dial("front")));
    assert!(!can_place(&DialConfig { center_x: u32::MAX, ..dial("front") }));
}

#[test]
fn a_change_is_believed_after_three_frames() {
    let mut detector = DialDetector::new(vec![dial("front")]);
    let mut states = Vec::new();
    for _ in 0..4 {
        let readings =
            detector.detect_all_template((400, 200), (20, 20), &cut, &turn, &best_at_120).unwrap();
        states.push(readings[0].state);
    }
    assert_eq!(states[0], DialState::Off);
    assert_eq!(states[1], DialState::Off);
    assert_eq!(states[2], DialState::On(HeatLevel::High));
    assert_eq!(states[3], DialState::On(HeatLevel::High));
}

#[test]
fn one_frame_does_not_change_a_dial() {
    let mut detector = DialDetector::new(vec![dial("front")]);
    let off = raw(DialState::Off, 0);
    let on = raw(DialState::On(HeatLevel::Low), 60);
    for _ in 0..3 {
        detector.observe(0, &off);
    }
    assert_eq!(detector.observe(0, &on).state, DialState::Off);
    assert_eq!(detector.observe(0, &off).state, DialState::Off);
    assert_eq!(detector.observe(0, &on).state, DialState::Off);
}

#[test]
fn a_state_changes_exactly_when_three_frames_agree() {
    let low = DialState::On(HeatLevel::Low);
    let high = DialState::On(HeatLevel::High);
    let off = DialState::Off;
    let frames = [
        (high, off),
        (low, off),
        (off, off),
        (low, off),
        (high, off),
        (low, low),
        (high, low),
        (high, low),
        (high, low),
        (off, low),
        (off, low),
        (off, off),
    ];
    let mut detector = DialDetector::new(vec![dial("front"), dial("back")]);
    for (shown, confirmed) in frames {
        assert_eq!(detector.observe(0, &raw(shown, 0)).state, confirmed);
        // The other dial goes its own way.
        assert_eq!(detector.observe(1, &raw(off, 0)).state, off);
    }
}

#[test]
fn frames_count_with_or_without_a_reading() {
    let high = DialState::On(HeatLevel::High);
    let mut detector = DialDetector::new(vec![dial("front")]);
    detector.apply_hysteresis(0, high);
    detector.apply_hysteresis(0, high);
    assert_eq!(detector.observe(0, &raw(high, 0)).state, high);
    detector.apply_hysteresis(0, DialState::Off);
    assert_eq!(detector.observe(0, &raw(DialState::Off, 0)).state, high);
}

#[test]
fn states_fall_into_three_groups() {
    let groups = [
        state_category(DialState::Off),
        state_category(DialState::On(HeatLevel::Low)),
        state_category(DialState::Unavailable),
    ];
    assert!(groups[0] != groups[1] && groups[1] != groups[2] && groups[0] != groups[2]);
    assert_eq!(groups[1], state_category(DialState::On(HeatLevel::Max)));
}

#[test]
fn readings_have_texts() {
    let reading = DialReading {
        label: "front".to_string(),
        state: DialState::On(HeatLevel::High),
        angle_deg: Some(120_450_000),
        confidence: 876_000_000,
    };
    assert_eq!(reading.text(), "front: on (High) (angle=120.4, confidence=0.88)");
    let middling = DialReading { confidence: 865_000_001, ..reading };
    assert_eq!(middling.text(), "front: on (High) (angle=120.4, confidence=0.87)");
    let nothing = DialReading {
        label: "back".to_string(),
        state: DialState::Unavailable,
        angle_deg: None,
        confidence: 0,
    };
    assert_eq!(nothing.text(), "back: unavailable (confidence=0.00)");
    assert_eq!(HeatLevel::Medium.text(), "medium");
}

#[test]
fn detectors_follow_the_found_knobs() {
    let features = mock_features();
    let detector = DialDetector::from_features(&features, None);
    assert_eq!(detector.configs().len(), features.knobs.len());
    let first = &detector.configs()[0];
    assert_eq!(first.label, "oven_left_mode");
    assert_eq!(first.center_x as i64, features.knobs[0].center_x / DEG);
    assert_eq!(first.off_tolerance_deg, 25 * DEG);
    let labels = vec!["A".to_string()];
    let named = DialDetector::from_features(&features, Some(&labels));
    assert_eq!(named.configs()[0].label, "A");
    assert_eq!(named.configs()[1].label, "burner_top_left");
    assert_eq!(default_label(10), "dial_11");
}

#[test]
fn the_best_rotation_gives_the_angle() {
    let angles = template_angles();
    assert_eq!(angles.len(), 18);
    assert_eq!((angles[0], angles[1], angles[17]), (0, 20 * DEG, 340 * DEG));
    let mut scores: Vec<Option<i64>> = vec![Some(100_000_000); angles.len()];
    scores[6] = Some(800_000_000);
    scores[3] = None;
    let reading = read_dial(&dial("front"), &angles, &scores);
    assert_eq!(reading.angle_deg, Some(120 * DEG));
    assert_eq!(reading.state, DialState::On(HeatLevel::High));
    assert_eq!(reading.confidence, 800_000_000);
    let blind = read_dial(&dial("front"), &angles, &vec![None; angles.len()]);
    assert_eq!(blind, RawReading { state: DialState::Off, angle_deg: Some(0), confidence: 0 });
    assert_eq!(
        unavailable(),
        RawReading { state: DialState::Unavailable, angle_deg: None, confidence: 0 }
    );
}

#[test]
fn windows_lie_around_the_dial() {
    let w = dial_window(&dial("front"), 400, 200, 20, 20).unwrap();
    assert_eq!((w.x, w.y, w.width, w.height), (76, 26, 48, 48));
    assert!(dial_window(&dial("front"), 10, 10, 20, 20).is_none());
}
