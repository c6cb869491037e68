//! Data model: the last-known full state of a competitor as the session
//! store hands it in, and the normalized records the reconcilers hand back.

use vstd::prelude::*;

verus! {

/// Interval to the competitor ahead, as last known (raw string encoding).
pub struct IntervalToPositionAhead {
    pub value: String,
}

/// One sector's last-known raw time string.
pub struct Sector {
    pub value: String,
}

/// The last lap's last-known raw time string.
pub struct LastLapTime {
    pub value: String,
}

/// Last-known full timing state of one competitor. Produced by a prior
/// successful reconciliation or an initial full snapshot, so the core
/// fields are always populated; reconciliation expects three sectors.
pub struct TimingDataDriver {
    pub racing_number: String,
    pub line: i32,
    pub gap_to_leader: String,
    pub interval_to_position_ahead: Option<IntervalToPositionAhead>,
    pub last_lap_time: LastLapTime,
    pub sectors: Vec<Sector>,
}

/// One tire stint: compound identifier, laps run on it, and whether the
/// set was new when fitted.
pub struct Stint {
    pub compound: Option<String>,
    pub total_laps: Option<i32>,
    pub is_new: Option<bool>,
}

/// Last-known full tire state of one competitor: the ordered stints of the
/// session; only the last one matters to the current tire state.
pub struct TimingAppDataDriver {
    pub racing_number: String,
    pub line: i32,
    pub grid_pos: String,
    pub stints: Vec<Stint>,
}

/// Normalized timing snapshot: every time field in integer milliseconds,
/// with 0 as the "unknown / unavailable" sentinel.
pub struct TimingDriver {
    pub nr: String,
    pub lap: Option<i32>,
    pub gap: i64,
    pub leader_gap: i64,
    pub laptime: i64,
    pub sector_1: i64,
    pub sector_2: i64,
    pub sector_3: i64,
}

/// Normalized tire snapshot: current compound (empty string = unknown) and
/// laps on the tire (0 = unknown).
pub struct TireDriver {
    pub nr: String,
    pub lap: Option<i32>,
    pub compound: String,
    pub laps: i32,
}

} // verus!
