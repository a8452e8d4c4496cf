//! Reads the knobs and lamps of a kitchen stove from camera frames.

pub mod annotate;
pub mod calibrate;
pub mod capture;
pub mod capture_store;
pub mod config;
pub mod debug_server;
pub mod detect;
pub mod draw;
pub mod fixed;
pub mod frame;
pub mod json;
pub mod led;
pub mod mqtt;
pub mod order;
pub mod pipeline;
pub mod preprocess;
pub mod runner;
pub mod stage;
pub mod stats;
pub mod surd;
pub mod text;
pub mod types;
pub mod wide;
