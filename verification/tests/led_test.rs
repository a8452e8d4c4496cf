use oven_vision::config::LedConfig;
use oven_vision::frame::RgbFrame;
use oven_vision::led::{classify_led, detect_leds, rgb_to_hsv, sample_led};
use oven_vision::types::{LedReading, LedState};

fn make_solid_frame(r: u8, g: u8, b: u8, width: u32, height: u32) -> RgbFrame {
    let mut pixels = Vec::new();
    for _ in 0..width * height {
        pixels.push(r);
        pixels.push(g);
        pixels.push(b);
    }
    RgbFrame { width, height, pixels }
}

fn led_config() -> LedConfig {
    LedConfig { label: "test".to_string(), x: 0, y: 0, width: 10, height: 10 }
}

fn mean_hue(hues: &Vec<i64>) -> i64 {
    let (mut sin, mut cos) = (0.0f64, 0.0f64);
    for h in hues {
        let rad = (*h as f64 / 1e6).to_radians();
        sin += rad.sin();
        cos += rad.cos();
    }
    ((sin.atan2(cos).to_degrees() + 360.0) % 360.0 * 1e6).round() as i64
}

fn read(frame: &RgbFrame, configs: Vec<LedConfig>) -> Vec<LedReading> {
    detect_leds(frame, &configs, &mean_hue)
}

fn float_hsv(r: u8, g: u8, b: u8) -> (f64, f64, f64) {
    let (h, s, v) = rgb_to_hsv(r, g, b);
    (h as f64 / 1e6, s as f64 / 1e6, v as f64 / 1e6)
}

#[test]
fn hsv_pure_red() {
    let (h, s, v) = float_hsv(255, 0, 0);
    assert!((h - 0.0).abs() < 1.0, "h={h}");
    assert!((s - 255.0).abs() < 1.0, "s={s}");
    assert!((v - 255.0).abs() < 1.0, "v={v}");
}

#[test]
fn hsv_pure_green() {
    let (h, s, v) = float_hsv(0, 255, 0);
    assert!((h - 120.0).abs() < 1.0, "h={h}");
    assert!((s - 255.0).abs() < 1.0, "s={s}");
    assert!((v - 255.0).abs() < 1.0, "v={v}");
}

#[test]
fn hsv_pure_blue() {
    let (h, s, v) = float_hsv(0, 0, 255);
    assert!((h - 240.0).abs() < 1.0, "h={h}");
    assert!((s - 255.0).abs() < 1.0, "s={s}");
    assert!((v - 255.0).abs() < 1.0, "v={v}");
}

#[test]
fn hsv_white() {
    let (_h, s, v) = float_hsv(255, 255, 255);
    assert!((s - 0.0).abs() < 1.0, "s={s}");
    assert!((v - 255.0).abs() < 1.0, "v={v}");
}

#[test]
fn hsv_black() {
    let (h, s, v) = float_hsv(0, 0, 0);
    assert!((h - 0.0).abs() < 1.0, "h={h}");
    assert!((s - 0.0).abs() < 1.0, "s={s}");
    assert!((v - 0.0).abs() < 1.0, "v={v}");
}

#[test]
fn rgb_to_hsv_pure_red() {
    let (h, s, v) = float_hsv(255, 0, 0);
    assert!((h - 0.0).abs() < 1.0);
    assert!((s - 255.0).abs() < 1.0);
    assert!((v - 255.0).abs() < 1.0);
}

#[test]
fn rgb_to_hsv_pure_green() {
    let (h, s, v) = float_hsv(0, 255, 0);
    assert!((h - 120.0).abs() < 1.0);
    assert!((s - 255.0).abs() < 1.0);
    assert!((v - 255.0).abs() < 1.0);
}

#[test]
fn rgb_to_hsv_pure_blue() {
    let (h, s, v) = float_hsv(0, 0, 255);
    assert!((h - 240.0).abs() < 1.0);
    assert!((s - 255.0).abs() < 1.0);
    assert!((v - 255.0).abs() < 1.0);
}

#[test]
fn rgb_to_hsv_white() {
    let (_, s, v) = float_hsv(255, 255, 255);
    assert!((s - 0.0).abs() < 1.0);
    assert!((v - 255.0).abs() < 1.0);
}

#[test]
fn rgb_to_hsv_black() {
    let (h, s, v) = float_hsv(0, 0, 0);
    assert!((h - 0.0).abs() < 1.0);
    assert!((s - 0.0).abs() < 1.0);
    assert!((v - 0.0).abs() < 1.0);
}

#[test]
fn classify_green_led_as_heating() {
    // Bright green: H~120, S=255, V=255
    let frame = make_solid_frame(0, 255, 0, 10, 10);
    let readings = read(&frame, vec![led_config()]);
    assert_eq!(readings.len(), 1);
    assert_eq!(readings[0].state, LedState::Heating);
}

#[test]
fn classify_orange_led_as_on() {
    // Orange: RGB (255, 140, 0) -> H~33
    let frame = make_solid_frame(255, 140, 0, 10, 10);
    let readings = read(&frame, vec![led_config()]);
    assert_eq!(readings.len(), 1);
    assert_eq!(readings[0].state, LedState::On);
}

#[test]
fn classify_dark_led_as_off() {
    // Very dark pixel
    let frame = make_solid_frame(5, 5, 5, 10, 10);
    let readings = read(&frame, vec![led_config()]);
    assert_eq!(readings.len(), 1);
    assert_eq!(readings[0].state, LedState::Off);
}

#[test]
fn classify_desaturated_bright_as_off() {
    // Bright but desaturated (grayish white)
    let frame = make_solid_frame(200, 200, 200, 10, 10);
    let readings = read(&frame, vec![led_config()]);
    assert_eq!(readings.len(), 1);
    assert_eq!(readings[0].state, LedState::Off);
}

#[test]
fn hsv_of_mixed_colors() {
    assert_eq!(rgb_to_hsv(255, 140, 0), (32_941_176, 255_000_000, 255_000_000));
    assert_eq!(rgb_to_hsv(200, 100, 150), (330_000_000, 127_500_000, 200_000_000));
    assert_eq!(rgb_to_hsv(100, 100, 200), (240_000_000, 127_500_000, 200_000_000));
}

#[test]
fn lamp_colors_have_sharp_limits() {
    let deg = 1_000_000;
    let full = 255 * deg;
    assert_eq!(classify_led(110 * deg, full, full), LedState::Heating);
    assert_eq!(classify_led(160 * deg, full, full), LedState::Heating);
    assert_eq!(classify_led(160 * deg + 1, full, full), LedState::Off);
    assert_eq!(classify_led(10 * deg, full, full), LedState::On);
    assert_eq!(classify_led(60 * deg, full, full), LedState::On);
    assert_eq!(classify_led(60 * deg + 1, full, full), LedState::Off);
    assert_eq!(classify_led(120 * deg, 50 * deg - 1, full), LedState::Off);
    assert_eq!(classify_led(120 * deg, full, 50 * deg - 1), LedState::Off);
    assert_eq!(classify_led(120 * deg, 50 * deg, 50 * deg), LedState::Heating);
}

#[test]
fn lamps_outside_the_frame_are_off() {
    let frame = make_solid_frame(0, 255, 0, 4, 4);
    let outside = LedConfig { label: "far".to_string(), x: 10, y: 10, width: 5, height: 5 };
    let partly = LedConfig { label: "edge".to_string(), x: 3, y: 3, width: 5, height: 5 };
    let readings = read(&frame, vec![outside, partly]);
    assert_eq!(readings[0].state, LedState::Off);
    assert_eq!(readings[0].label, "far");
    assert_eq!(readings[1].state, LedState::Heating);
}

#[test]
fn samples_hold_the_pixels_of_the_region() {
    let mut frame = make_solid_frame(0, 0, 0, 3, 2);
    // The pixel at column 1, row 1 is green, the one to its right is red.
    frame.pixels[13] = 255;
    frame.pixels[15] = 255;
    let cfg = LedConfig { label: "x".to_string(), x: 1, y: 1, width: 2, height: 1 };
    let sample = sample_led(&frame, &cfg).unwrap();
    assert_eq!(sample.hues, vec![120_000_000, 0]);
    assert_eq!(sample.mean_saturation, 255_000_000);
    assert_eq!(sample.mean_value, 255_000_000);
    assert!(frame.check_size());
    assert!(!RgbFrame { width: 3, height: 3, pixels: vec![0; 26] }.check_size());
}

#[test]
fn lamp_states_have_texts() {
    assert_eq!(LedState::Off.text(), "off");
    assert_eq!(LedState::On.text(), "on");
    assert_eq!(LedState::Heating.text(), "heating");
}

#[test]
fn a_lamp_is_read_alike_alone_and_among_others() {
    let mut frame = make_solid_frame(0, 200, 60, 20, 10);
    for y in 0..10 {
        for x in 10..20 {
            let at = 3 * (y * 20 + x);
            frame.pixels[at..at + 3].copy_from_slice(&[250, 150, 20]);
        }
    }
    let lamp = |label: &str, x: u32| LedConfig {
        label: label.to_string(),
        x,
        y: 2,
        width: 5,
        height: 5,
    };
    let all = read(&frame, vec![lamp("green", 1), lamp("orange", 18), lamp("outside", 30)]);
    assert_eq!(all.len(), 3);
    for (i, (label, x)) in [("green", 1), ("orange", 18), ("outside", 30)].into_iter().enumerate() {
        let alone = read(&frame, vec![lamp(label, x)]);
        assert_eq!(alone.len(), 1);
        assert_eq!((&alone[0].label, alone[0].state), (&all[i].label, all[i].state));
    }
    let states: Vec<LedState> = all.iter().map(|r| r.state).collect();
    assert_eq!(states, vec![LedState::Heating, LedState::On, LedState::Off]);
}
