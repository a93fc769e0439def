//! Camera-driven control of Key Lights.
//!
//! The crate decides; it performs no input or output of its own. Callers read
//! files, devices and the network, hand the observations in as plain values,
//! and carry out the actions that come back.
pub mod ambient;
pub mod attempt;
pub mod calibration;
pub mod camera;
pub mod change;
pub mod config;
pub mod control;
pub mod daemon;
pub mod domain;
pub mod light;
pub mod lock;
pub mod lux;
pub mod preset;
pub mod retry;
pub mod selection;
pub mod session;
pub mod text;
pub mod text_map;
pub mod time;
