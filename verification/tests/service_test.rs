use oven_vision::capture::{decoded_frame, fetch_frame, CaptureError};
use oven_vision::capture_store::{format_timestamp_filename, is_leap, rotate_files, CaptureStore};
use oven_vision::config::{DialConfig, LedConfig, MqttConfig};
use oven_vision::debug_server::{Body, DebugBoard, DebugState};
use oven_vision::detect::{DialReading, DialState, HeatLevel};
use oven_vision::frame::RgbFrame;
use oven_vision::mqtt::{dial_messages, slug, Message, MqttError, MqttPublisher};
use oven_vision::preprocess::preprocess;
use oven_vision::types::LedState;
use serde_json::Value;

fn reading(label: &str, state: DialState, confidence: i64) -> DialReading {
    DialReading { label: label.to_string(), state, angle_deg: None, confidence }
}

#[test]
fn captures_are_named_by_time() {
    assert_eq!(format_timestamp_filename(0), "1970-01-01T00-00-00_low_confidence.jpg");
    assert_eq!(format_timestamp_filename(951_782_400), "2000-02-29T00-00-00_low_confidence.jpg");
    assert_eq!(format_timestamp_filename(1_775_133_045), "2026-04-02T12-30-45_low_confidence.jpg");
    assert_eq!(format_timestamp_filename(1_767_225_599), "2025-12-31T23-59-59_low_confidence.jpg");
    assert!(is_leap(2000) && is_leap(2024));
    assert!(!is_leap(1900) && !is_leap(2023));
}

#[test]
fn later_captures_have_later_names() {
    let times = [0u64, 59, 86_399, 86_400, 951_782_399, 951_782_400, 1_775_133_045];
    for pair in times.windows(2) {
        assert!(format_timestamp_filename(pair[0]) < format_timestamp_filename(pair[1]));
    }
}

#[test]
fn unsure_frames_are_kept_at_intervals() {
    let mut store = CaptureStore::new("/captures".to_string(), 3, 10, 300_000_000);
    let sure = vec![reading("a", DialState::Off, 300_000_000)];
    let unsure = vec![
        reading("a", DialState::Off, 900_000_000),
        reading("b", DialState::Off, 299_999_999),
    ];
    let second = 1_000_000_000u64;
    assert_eq!(store.maybe_capture(&sure, 0, 0), None);
    assert_eq!(
        store.maybe_capture(&unsure, 5 * second, 0).unwrap(),
        "1970-01-01T00-00-00_low_confidence.jpg"
    );
    store.note_capture(5 * second);
    assert_eq!(store.maybe_capture(&unsure, 15 * second - 1, 10), None);
    assert!(store.maybe_capture(&unsure, 15 * second, 10).is_some());
    assert_eq!(store.maybe_capture(&unsure, 0, 10), None);
}

#[test]
fn the_oldest_captures_go_first() {
    let names: Vec<String> = ["b.jpg", "notes.txt", "a.jpg", ".jpg", "c.jpg", "d.jpg"]
        .iter()
        .map(|s| s.to_string())
        .collect();
    assert_eq!(rotate_files(&names, 2), vec![2, 0]);
    assert_eq!(rotate_files(&names, 4), Vec::<usize>::new());
    assert_eq!(rotate_files(&names, 0), vec![2, 0, 4, 5]);
}

#[test]
fn the_debug_server_shows_the_last_frame() {
    let mut board = DebugBoard::new();
    let elsewhere = DebugState::new(&mut board);
    let state = DebugState::new(&mut board);
    let copy = state.clone();
    let none = state.debug_frame(&board);
    assert_eq!((none.status, none.body), (503, Body::Text("no frame available yet".to_string())));
    state.update_frame(&mut board, vec![1, 2]);
    state.update_frame(&mut board, vec![3]);
    for handle in [&state, &copy] {
        let reply = handle.debug_frame(&board);
        assert_eq!((reply.status, reply.content_type), (200, "image/jpeg"));
        assert_eq!(reply.body, Body::Bytes(vec![3]));
    }
    copy.update_frame(&mut board, vec![4]);
    assert_eq!(state.debug_frame(&board).body, Body::Bytes(vec![4]));
    assert_eq!(elsewhere.debug_frame(&board).status, 503);
}

#[test]
fn the_health_names_what_is_missing() {
    let mut board = DebugBoard::new();
    let state = DebugState::new(&mut board);
    let copy = state.clone();
    let text = |b: &DebugBoard| (copy.health(b).status, copy.health(b).body);
    let unhealthy = |reason: &str| {
        (503, Body::Text(format!("{{\"status\":\"unhealthy\",\"reason\":\"{reason}\"}}")))
    };
    assert_eq!(text(&board), unhealthy("no frames captured yet, MQTT not connected"));
    state.set_mqtt_connected(&mut board, true);
    assert_eq!(text(&board), unhealthy("no frames captured yet"));
    state.set_frames_flowing(&mut board, true);
    assert_eq!(text(&board), (200, Body::Text("{\"status\":\"ok\"}".to_string())));
    state.set_mqtt_connected(&mut board, false);
    assert_eq!(text(&board), unhealthy("MQTT not connected"));
    assert_eq!(state.health(&board).content_type, "application/json");
}

#[test]
fn slugs_fit_topics() {
    assert_eq!(slug("Front Left"), "front_left");
    assert_eq!(slug("ÄRGER  X"), "ärger__x");
    assert_eq!(slug(""), "");
}

fn dial(label: &str) -> DialConfig {
    DialConfig {
        label: label.to_string(),
        center_x: 0,
        center_y: 0,
        radius: 1,
        off_angle_deg: 0,
        off_tolerance_deg: 0,
    }
}

fn text(s: &str) -> Value {
    Value::String(s.to_string())
}

fn object(entries: Vec<(&str, Value)>) -> Value {
    let mut map = serde_json::Map::new();
    for (key, value) in entries {
        map.insert(key.to_string(), value);
    }
    Value::Object(map)
}

fn device() -> Value {
    object(vec![
        ("identifiers", Value::Array(vec![text("oven_vision")])),
        ("name", text("Kitchen Stove")),
        ("model", text("Oven Vision v1")),
        ("manufacturer", text("DIY")),
    ])
}

fn publisher() -> MqttPublisher {
    let config = MqttConfig {
        host: "broker".to_string(),
        port: 1883,
        keepalive_secs: 30,
        user: Some("u".to_string()),
        pass: None,
    };
    MqttPublisher::new(&config).unwrap()
}

#[test]
fn sensors_are_announced_in_json() {
    let mut publisher = publisher();
    let leds = vec![LedConfig {
        label: "Back \"B\"".to_string(),
        x: 0,
        y: 0,
        width: 1,
        height: 1,
    }];
    let messages = publisher.start(&vec![dial("Front Left"), dial("Back \"B\"")], &leds);
    assert!(publisher.started);
    assert_eq!(messages.len(), 6);
    assert!(messages.iter().all(|m| m.retain));
    assert_eq!(messages[0].topic, "oven_vision/availability");
    assert_eq!(messages[0].payload, "online");
    assert_eq!(messages[1].topic, "homeassistant/binary_sensor/oven_vision_front_left/config");
    let binary = object(vec![
        ("name", text("Front Left")),
        ("unique_id", text("oven_vision_front_left")),
        ("state_topic", text("oven_vision/front_left/state")),
        ("payload_on", text("ON")),
        ("payload_off", text("OFF")),
        ("device_class", text("heat")),
        ("availability_topic", text("oven_vision/availability")),
        ("payload_available", text("online")),
        ("payload_not_available", text("offline")),
        ("device", device()),
    ]);
    assert_eq!(messages[1].payload, binary.to_string());
    assert_eq!(messages[2].topic, "homeassistant/sensor/oven_vision_front_left_level/config");
    assert_eq!(messages[5].topic, "homeassistant/sensor/oven_vision_back_\"b\"_mode/config");
    let mode = object(vec![
        ("name", text("Back \"B\" Mode")),
        ("unique_id", text("oven_vision_back_\"b\"_mode")),
        ("state_topic", text("oven_vision/back_\"b\"/mode")),
        ("options", Value::Array(vec![text("off"), text("on"), text("heating")])),
        ("availability_topic", text("oven_vision/availability")),
        ("payload_available", text("online")),
        ("payload_not_available", text("offline")),
        ("device", device()),
    ]);
    assert_eq!(messages[5].payload, mode.to_string());
}

#[test]
fn labels_are_escaped_in_json() {
    let label = "a\"\\\u{1}\u{1f}\n\t\r\u{8}\u{c}\u{7f}é";
    let messages = dial_messages(label, "a", false);
    assert_eq!(messages.len(), 2);
    let parsed: Value = serde_json::from_str(&messages[0].payload).unwrap();
    assert_eq!(parsed.get("name").unwrap(), &text(label));
    assert!(messages[0].payload.contains("\"a\\\"\\\\\\u0001\\u001f\\n\\t\\r\\b\\f\u{7f}é\""));
    let level: Value = serde_json::from_str(&messages[1].payload).unwrap();
    assert_eq!(level.get("unique_id").unwrap(), &text("oven_vision_a_level"));
}

fn message(topic: &str, payload: &str) -> Message {
    Message { topic: topic.to_string(), payload: payload.to_string(), retain: false }
}

#[test]
fn states_are_reported() {
    let publisher = publisher();
    let readings = vec![
        reading("Front Left", DialState::On(HeatLevel::Max), 0),
        reading("Back", DialState::Unavailable, 0),
    ];
    let leds = vec![("Oven".to_string(), LedState::Heating)];
    assert_eq!(
        publisher.publish_states(&readings, &leds),
        vec![
            message("oven_vision/front_left/state", "ON"),
            message("oven_vision/front_left/level", "max"),
            message("oven_vision/back/state", "OFF"),
            message("oven_vision/back/level", "off"),
            message("oven_vision/oven/mode", "heating"),
        ]
    );
    let blind = vec![reading("Back", DialState::Unavailable, 0)];
    let offline = publisher.publish_states(&blind, &leds);
    assert_eq!(offline.len(), 1);
    assert_eq!((offline[0].payload.as_str(), offline[0].retain), ("offline", true));
    assert_eq!(publisher.publish_states(&Vec::new(), &leds).len(), 1);
}

#[test]
fn connections_follow_the_settings() {
    let half = publisher().connection;
    assert_eq!((half.host.as_str(), half.port, half.keepalive_secs), ("broker", 1883, 30));
    assert_eq!(half.client_id, "oven-vision");
    assert_eq!(half.credentials, None);
    assert_eq!(half.capacity, 10);
    assert_eq!(half.last_will.payload, "offline");
    let config = MqttConfig {
        host: "broker".to_string(),
        port: 1,
        keepalive_secs: 5,
        user: Some("u".to_string()),
        pass: Some("p".to_string()),
    };
    let full = MqttPublisher::new(&config).unwrap().connection;
    assert_eq!(full.credentials, Some(("u".to_string(), "p".to_string())));
    assert_eq!(MqttError::Client("full".to_string()).text(), "MQTT client error: full");
    assert_eq!(MqttError::Connection("lost".to_string()).text(), "MQTT connection error: lost");
}

fn png(width: u32, height: u32, color: [u8; 3]) -> Vec<u8> {
    let image = image::RgbImage::from_pixel(width, height, image::Rgb(color));
    let mut bytes = std::io::Cursor::new(Vec::new());
    image::DynamicImage::ImageRgb8(image).write_to(&mut bytes, image::ImageFormat::Png).unwrap();
    bytes.into_inner()
}

#[test]
fn answers_become_frames() {
    let frame = fetch_frame(Ok(png(3, 2, [10, 20, 30]))).unwrap();
    assert_eq!((frame.width, frame.height), (3, 2));
    assert_eq!(frame.pixels, [10u8, 20, 30].repeat(6));
    let broken = fetch_frame(Ok(vec![1, 2, 3])).unwrap_err();
    assert!(matches!(broken, CaptureError::Decode(_)));
    assert!(broken.text().starts_with("image decode failed: "));
    let silent = fetch_frame(Err("timed out".to_string())).unwrap_err();
    assert_eq!(silent.text(), "HTTP request failed: timed out");
    assert_eq!(
        decoded_frame(Err("no".to_string())),
        Err(CaptureError::Decode("no".to_string()))
    );
}

#[test]
fn preprocessing_spreads_and_smooths() {
    let mut pixels = Vec::new();
    for i in 0..64u8 {
        let level = if i % 8 < 4 { 100 } else { 140 };
        pixels.extend_from_slice(&[level, level, level]);
    }
    // A single bright speck in the dark half.
    pixels[3 * 17] = 255;
    pixels[3 * 17 + 1] = 255;
    pixels[3 * 17 + 2] = 255;
    let frame = RgbFrame { width: 8, height: 8, pixels };
    let gray = preprocess(&frame);
    assert_eq!((gray.width, gray.height, gray.pixels.len()), (8, 8, 64));
    assert_eq!(gray.pixels[17], gray.pixels[16]);
    assert!(gray.pixels[0] < gray.pixels[7]);
    // 31 of 64 pixels are dark: 255 * 31 / 64.
    assert_eq!(gray.pixels[0], 123);
    assert_eq!(gray.pixels[7], 251);
}
