use oven_vision::calibrate::{
    build_yaml, default_dials, default_leds, parse_args, with_off_angle, Request, DEFAULT_URL,
};
use oven_vision::config::{DialConfig, KnobDetection};
use oven_vision::fixed::{div_to_zero, floor_div, round_to_whole, to_pixel, to_signed, whole_part};
use oven_vision::order::{find_last_greatest, find_least, find_median, sort_ascending, sorted, take_places};
use oven_vision::pipeline::stage::{StageDescriptor, StageOutcome};
use oven_vision::runner::{
    attempt_file, bench_stats, debug_file, find_stage, first_success, format_outcome, stage_row,
    success_line, warmup_runs,
};
use oven_vision::stats::{spread_of, total};
use oven_vision::text::{
    contains_text, parse_list, push_fixed, push_left_aligned, push_number, push_padded, push_plain,
    push_signed, same_text, same_text_ignoring_case, text_before, underscore,
};

fn args(list: &[&str]) -> Vec<String> {
    list.iter().map(|s| s.to_string()).collect()
}

#[test]
fn the_command_line_is_read() {
    let plain = match parse_args(&args(&[])).unwrap() {
        Request::Calibrate(a) => a,
        Request::Help => panic!("help was not asked for"),
    };
    assert_eq!(plain.url, DEFAULT_URL);
    assert_eq!(plain.output, None);
    assert_eq!(plain.reference_path, "calibration_reference.jpg");
    let full = parse_args(&args(&["--url", "u", "--output", "o", "--reference", "r", "--url", "v"]));
    match full.unwrap() {
        Request::Calibrate(a) => {
            assert_eq!((a.url.as_str(), a.output.as_deref(), a.reference_path.as_str()), ("v", Some("o"), "r"));
        }
        Request::Help => panic!("help was not asked for"),
    }
    assert_eq!(parse_args(&args(&["--url", "u", "-h", "--nothing"])).unwrap(), Request::Help);
    assert_eq!(parse_args(&args(&["--help"])).unwrap(), Request::Help);
    assert_eq!(parse_args(&args(&["--url"])).unwrap_err(), "--url requires a value");
    assert_eq!(parse_args(&args(&["--output"])).unwrap_err(), "--output requires a value");
    assert_eq!(parse_args(&args(&["--reference"])).unwrap_err(), "--reference requires a value");
    assert_eq!(parse_args(&args(&["x", "--help"])).unwrap_err(), "unknown argument: x");
}

#[test]
fn the_calibration_file_lists_the_stove() {
    let dials: Vec<DialConfig> = default_dials().iter().take(1).map(|d| with_off_angle(d, 12_340_000)).collect();
    let leds = default_leds();
    let yaml = build_yaml("http://x", &dials, &leds[..1].iter().map(|l| oven_vision::config::LedConfig {
        label: l.label.clone(),
        x: l.x,
        y: l.y,
        width: l.width,
        height: l.height,
    }).collect());
    assert_eq!(
        yaml,
        "go2rtc_url: \"http://x\"\n\nmqtt:\n  host: mosquitto.home\n  port: 1883\n\n\
         poll_interval_secs: 5\n\ndials:\n  - label: \"oven_left_mode\"\n    center_x: 1430\n\
         \x20   center_y: 1059\n    radius: 10\n    off_angle_deg: 12.3\n\
         \x20   off_tolerance_deg: 25.0\n\nleds:\n  - label: \"oven_left_led\"\n    x: 1860\n\
         \x20   y: 1010\n    width: 20\n    height: 15\n"
    );
    assert_eq!(default_dials().len(), 10);
    assert_eq!(default_dials()[9].label, "oven_right_mode");
    assert_eq!(default_dials()[9].off_tolerance_deg, 20_000_000);
    assert_eq!(leds[1].x, 1995);
    let defaults = KnobDetection::default();
    assert_eq!((defaults.clahe_grid_size, defaults.expected_count), (8, 10));
    assert_eq!((defaults.hough_min_radius, defaults.hough_max_radius), (20, 50));
}

fn described(name: &'static str, label: &'static str, fallback: Option<&'static str>) -> StageDescriptor {
    StageDescriptor { name, label, fallback }
}

#[test]
fn stages_are_found_by_name() {
    let stages = vec![
        described("FindStove", "S1:FindStove", None),
        described("FindLines", "S2:FindLines", Some("FindStove")),
    ];
    assert_eq!(find_stage(&stages, "findlines"), Some(1));
    assert_eq!(find_stage(&stages, "FindClock"), None);
    assert_eq!(stage_row(0, &stages[0]), "1    FindStove            S1:FindStove         (none)");
    assert_eq!(stage_row(1, &stages[1]), "2    FindLines            S2:FindLines         FindStove");
}

#[test]
fn runs_are_described() {
    let outcomes = vec![
        StageOutcome::Retry("dark".to_string()),
        StageOutcome::Success,
        StageOutcome::Exhausted("over".to_string()),
    ];
    assert_eq!(format_outcome(&outcomes[0]), "Retry: dark");
    assert_eq!(format_outcome(&outcomes[1]), "Success");
    assert_eq!(format_outcome(&outcomes[2]), "Exhausted: over");
    assert_eq!(first_success(&outcomes), Some(1));
    assert_eq!(first_success(&Vec::new()), None);
    assert_eq!(success_line(Some(1), 4), "first success: iter 1 (of 4 total)");
    assert_eq!(success_line(None, 4), "no successful iteration (ran 4 total)");
    assert_eq!(attempt_file("FindStove", 7, "debug"), "FindStove_007_debug.jpg");
    assert_eq!(debug_file(3, "S1:FindStove"), "003_S1_FindStove.jpg");
    assert_eq!((warmup_runs(1000), warmup_runs(10)), (100, 5));
}

#[test]
fn timings_are_summed_up() {
    let timings: Vec<i64> = (1..=100).rev().collect();
    let stats = bench_stats(&timings);
    assert_eq!((stats.total, stats.mean), (5050, 50));
    assert_eq!((stats.min, stats.p50, stats.p95, stats.p99, stats.max), (1, 51, 96, 100, 100));
    assert_eq!(bench_stats(&vec![7]).p99, 7);
}

fn shown(write: impl Fn(&mut String)) -> String {
    let mut s = String::new();
    write(&mut s);
    s
}

#[test]
fn numbers_are_written_out() {
    assert_eq!(shown(|s| push_number(s, 0)), "0");
    assert_eq!(shown(|s| push_number(s, 12_345)), "12345");
    assert_eq!(shown(|s| push_signed(s, i64::MIN)), "-9223372036854775808");
    assert_eq!(shown(|s| push_padded(s, 7, 3)), "007");
    assert_eq!(shown(|s| push_padded(s, 12_345, 3)), "12345");
    assert_eq!(shown(|s| push_fixed(s, -1_250_000, 1)), "-1.2");
    assert_eq!(shown(|s| push_fixed(s, 1_350_000, 1)), "1.4");
    assert_eq!(shown(|s| push_fixed(s, 2_500_000, 0)), "2");
    assert_eq!(shown(|s| push_plain(s, 650_000)), "0.65");
    assert_eq!(shown(|s| push_plain(s, 25_000_000)), "25");
    assert_eq!(shown(|s| push_left_aligned(s, "ab", 4)), "ab  ");
}

#[test]
fn texts_are_compared() {
    assert!(same_text("a", "a") && !same_text("a", "b"));
    assert!(same_text_ignoring_case("FindStove", "findSTOVE"));
    assert!(!same_text_ignoring_case("Ä", "ä"));
    assert!(contains_text("S1:FindStove", "Find") && !contains_text("abc", "ca"));
    assert!(text_before("a", "ab") && text_before("Z", "a") && !text_before("b", "ab"));
    assert!(!text_before("a", "a"));
    assert_eq!(parse_list(" a, ,b ,"), vec!["a", "b"]);
    assert_eq!(underscore("a:b c", ':'), "a_b c");
}

#[test]
fn lists_are_put_in_order() {
    assert_eq!(sort_ascending(&vec![3, 1, 3, 2]), vec![1, 3, 0, 2]);
    assert_eq!(take_places(&vec!['a', 'b', 'c'], &vec![2, 0]), vec!['c', 'a']);
    assert_eq!(sorted(&vec![3, 1, 2]), vec![1, 2, 3]);
    assert_eq!(find_median(&vec![4, 1, 3, 2]), 3);
    assert_eq!(find_least(&vec![4, 1, 3]), 1);
    assert_eq!(find_last_greatest(&vec![1, 5, 5, 2]), 2);
    assert_eq!(total(&vec![1, 2, 3]).to_i128(), 6);
    assert_eq!(spread_of(&vec![1, 3]).to_i128(), 4);
}

#[test]
fn fixed_point_numbers_are_rounded() {
    assert_eq!(floor_div(-7, 2), -4);
    assert_eq!(div_to_zero(-7, 2), -3);
    assert_eq!((to_signed(7), to_signed(u32::MAX)), (7, -1));
    assert_eq!(whole_part(-1_900_000), -1);
    assert_eq!(round_to_whole(-1_500_000), -2);
    assert_eq!(round_to_whole(1_499_999), 1);
    assert_eq!(to_pixel(i64::MAX), i32::MAX);
    assert_eq!(to_pixel(-2_700_000), -2);
}
