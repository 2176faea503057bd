//! Live hardware telemetry: the metrics acquisition and aggregation core.
//!
//! Sampler output lines are read into metric records, utilization figures are
//! kept in time-windowed series, and snapshots are handed to a consumer that
//! keeps only the latest one.

pub mod collector;
pub mod consumer;
pub mod cpu;
pub mod gpu;
pub mod grammar;
pub mod memory;
pub mod netdisk;
pub mod number;
pub mod numeral;
pub mod series;
pub mod sysinfo;
pub mod text;
pub mod throttle;
