//! Partial-update reconciliation for a live timing feed.
//!
//! The library merges sparse textual delta documents describing a racing
//! session with the most recently known full state of a competitor, and
//! produces a normalized, numeric snapshot. Small textual encodings (gaps,
//! lap times, sector times) are converted to integer millisecond counts,
//! with malformed or absent input degrading to the neutral sentinel 0.

pub mod json;
pub mod models;
pub mod parse;
pub mod reconcile;

pub use models::{
    IntervalToPositionAhead, LastLapTime, Sector, Stint, TimingAppDataDriver, TimingDataDriver,
    TimingDriver, TireDriver,
};
pub use parse::{parse_gap, parse_laptime, parse_sector};
pub use reconcile::{parse_timing_driver, parse_tire_driver};
