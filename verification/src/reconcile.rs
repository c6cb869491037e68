//! Delta reconcilers: merge one partial update document with the last
//! known full state of a competitor into a normalized snapshot, or report
//! that the delta carried nothing worth reconciling.

use vstd::prelude::*;
use serde_json::Value;
use crate::json::{
    probe, probe_stint_compound, probe_stint_laps, str_pointer, last_stint_compound,
    last_stint_laps,
};
use crate::models::{TimingDataDriver, TimingAppDataDriver, TimingDriver, TireDriver, Stint};
use crate::parse::{gap_ms, laptime_ms, sector_ms, parse_gap, parse_laptime, parse_sector};

verus! {

/// Whether the delta carries at least one of the six recognized timing
/// fields.
pub open spec fn timing_has_update(update: Option<&Value>) -> bool {
    ||| probe(update, "/intervalToPositionAhead/value"@) is Some
    ||| probe(update, "/gapToLeader"@) is Some
    ||| probe(update, "/lastLaptime/value"@) is Some
    ||| probe(update, "/sectors/0/value"@) is Some
    ||| probe(update, "/sectors/1/value"@) is Some
    ||| probe(update, "/sectors/2/value"@) is Some
}

/// The raw interval-to-ahead string after the fallback chain: the delta's
/// value if present, else the last-known nested field, else empty.
pub open spec fn resolved_interval(update: Option<&Value>, driver: TimingDataDriver) -> Seq<
    char,
> {
    match probe(update, "/intervalToPositionAhead/value"@) {
        Some(s) => s,
        None => match driver.interval_to_position_ahead {
            Some(i) => i.value@,
            None => Seq::empty(),
        },
    }
}

/// The raw gap-to-leader string: the delta's value if present, else the
/// last-known field.
pub open spec fn resolved_leader_gap(update: Option<&Value>, driver: TimingDataDriver) -> Seq<
    char,
> {
    match probe(update, "/gapToLeader"@) {
        Some(s) => s,
        None => driver.gap_to_leader@,
    }
}

/// The raw last-lap-time string: the delta's value if present, else the
/// last-known field.
pub open spec fn resolved_laptime(update: Option<&Value>, driver: TimingDataDriver) -> Seq<
    char,
> {
    match probe(update, "/lastLaptime/value"@) {
        Some(s) => s,
        None => driver.last_lap_time.value@,
    }
}

/// The delta path of the sector with positional index `i`.
pub open spec fn sector_path(i: int) -> Seq<char> {
    if i == 0 {
        "/sectors/0/value"@
    } else if i == 1 {
        "/sectors/1/value"@
    } else {
        "/sectors/2/value"@
    }
}

/// The raw string of sector `i`: the delta's value if present, else the
/// last-known sector field.
pub open spec fn resolved_sector(
    update: Option<&Value>,
    driver: TimingDataDriver,
    i: int,
) -> Seq<char>
    recommends
        0 <= i < driver.sectors@.len(),
{
    match probe(update, sector_path(i)) {
        Some(s) => s,
        None => driver.sectors@[i].value@,
    }
}

/// Reconciles a timing delta with the last-known timing state.
///
/// Probes the delta at the six recognized locations; when none resolves to
/// a string the delta carries no signal and the result is `None`.
/// Otherwise every output field is rebuilt: each raw string is taken from
/// the delta where present and from the last-known record otherwise, and
/// fed through the matching field parser, so the emitted record is always
/// fully populated.
pub fn parse_timing_driver(
    nr: &String,
    lap: Option<i32>,
    driver: &TimingDataDriver,
    update: Option<&Value>,
) -> (res: Option<TimingDriver>)
    requires
        driver.sectors@.len() >= 3,
    ensures
        res is Some <==> timing_has_update(update),
        res matches Some(rec) ==> {
            &&& rec.nr@ == nr@
            &&& rec.lap == lap
            &&& rec.gap == gap_ms(resolved_interval(update, *driver))
            &&& rec.leader_gap == gap_ms(resolved_leader_gap(update, *driver))
            &&& rec.laptime == laptime_ms(resolved_laptime(update, *driver))
            &&& rec.sector_1 == sector_ms(resolved_sector(update, *driver, 0))
            &&& rec.sector_2 == sector_ms(resolved_sector(update, *driver, 1))
            &&& rec.sector_3 == sector_ms(resolved_sector(update, *driver, 2))
        },
{
    let gap = str_pointer(update, "/intervalToPositionAhead/value");
    let leader_gap = str_pointer(update, "/gapToLeader");
    let laptime = str_pointer(update, "/lastLaptime/value");
    let sector_1 = str_pointer(update, "/sectors/0/value");
    let sector_2 = str_pointer(update, "/sectors/1/value");
    let sector_3 = str_pointer(update, "/sectors/2/value");

    if gap.is_none() && leader_gap.is_none() && laptime.is_none() && sector_1.is_none()
        && sector_2.is_none() && sector_3.is_none() {
        return None;
    }

    let gap_value = match gap {
        Some(s) => s,
        None => match &driver.interval_to_position_ahead {
            Some(i) => i.value.clone(),
            None => String::new(),
        },
    };
    let leader_gap_value = match leader_gap {
        Some(s) => s,
        None => driver.gap_to_leader.clone(),
    };
    let laptime_value = match laptime {
        Some(s) => s,
        None => driver.last_lap_time.value.clone(),
    };
    let sector_1_value = match sector_1 {
        Some(s) => s,
        None => driver.sectors[0].value.clone(),
    };
    let sector_2_value = match sector_2 {
        Some(s) => s,
        None => driver.sectors[1].value.clone(),
    };
    let sector_3_value = match sector_3 {
        Some(s) => s,
        None => driver.sectors[2].value.clone(),
    };

    Some(
        TimingDriver {
            nr: nr.clone(),
            lap,
            gap: parse_gap(gap_value),
            leader_gap: parse_gap(leader_gap_value),
            laptime: parse_laptime(laptime_value),
            sector_1: parse_sector(sector_1_value),
            sector_2: parse_sector(sector_2_value),
            sector_3: parse_sector(sector_3_value),
        },
    )
}

/// Whether the delta's stint list carries a usable last element.
pub open spec fn tire_has_update(update: Option<&Value>) -> bool {
    probe_stint_compound(update) is Some || probe_stint_laps(update) is Some
}

/// The last-known last stint, if the session has recorded any.
pub open spec fn last_stint(driver: TimingAppDataDriver) -> Option<Stint> {
    if driver.stints@.len() == 0 {
        None
    } else {
        Some(driver.stints@.last())
    }
}

/// The current compound after the fallback chain: the delta's value if
/// present, else the last-known stint's compound, else the empty string.
pub open spec fn resolved_compound(update: Option<&Value>, driver: TimingAppDataDriver) -> Seq<
    char,
> {
    match probe_stint_compound(update) {
        Some(s) => s,
        None => match last_stint(driver) {
            Some(st) => match st.compound {
                Some(c) => c@,
                None => Seq::empty(),
            },
            None => Seq::empty(),
        },
    }
}

/// The current laps-on-tire count after the fallback chain: the delta's
/// value if present (degrading to the 0 sentinel when it does not fit the
/// output field), else the last-known stint's count, else 0.
pub open spec fn resolved_laps(update: Option<&Value>, driver: TimingAppDataDriver) -> int {
    match probe_stint_laps(update) {
        Some(v) => if -0x8000_0000 <= v && v <= 0x7fff_ffff {
            v as int
        } else {
            0
        },
        None => match last_stint(driver) {
            Some(st) => match st.total_laps {
                Some(l) => l as int,
                None => 0,
            },
            None => 0,
        },
    }
}

/// Reconciles a tire-stint delta with the last-known tire state.
///
/// Only the last element of the stint list matters. When that element
/// carries neither a compound nor a lap count the result is `None`;
/// otherwise each of the two fields is taken from the delta where present
/// and from the last-known last stint otherwise, defaulting to the empty
/// string and 0.
pub fn parse_tire_driver(
    nr: &String,
    lap: Option<i32>,
    driver: &TimingAppDataDriver,
    update: Option<&Value>,
) -> (res: Option<TireDriver>)
    ensures
        res is Some <==> tire_has_update(update),
        res matches Some(rec) ==> {
            &&& rec.nr@ == nr@
            &&& rec.lap == lap
            &&& rec.compound@ == resolved_compound(update, *driver)
            &&& rec.laps == resolved_laps(update, *driver)
        },
{
    let compound = last_stint_compound(update);
    let laps = last_stint_laps(update);

    if compound.is_none() && laps.is_none() {
        return None;
    }

    let n = driver.stints.len();
    let compound_value = match compound {
        Some(s) => s,
        None => {
            if n == 0 {
                String::new()
            } else {
                match &driver.stints[n - 1].compound {
                    Some(c) => c.clone(),
                    None => String::new(),
                }
            }
        },
    };
    let laps_value = match laps {
        Some(v) => {
            if -0x8000_0000i64 <= v && v <= 0x7fff_ffffi64 {
                v as i32
            } else {
                0
            }
        },
        None => {
            if n == 0 {
                0
            } else {
                match driver.stints[n - 1].total_laps {
                    Some(l) => l,
                    None => 0,
                }
            }
        },
    };

    Some(TireDriver { nr: nr.clone(), lap, compound: compound_value, laps: laps_value })
}

/// Reconciling a timing delta that carries none of the recognized fields
/// yields no update, and reconciling the same delta again against the same
/// last-known record yields none again: an empty delta causes no state
/// drift, however often it is applied.
pub proof fn lemma_timing_empty_delta_idempotent(
    update: Option<&Value>,
    first: Option<TimingDriver>,
    second: Option<TimingDriver>,
)
    requires
        !timing_has_update(update),
        first is Some <==> timing_has_update(update),
        second is Some <==> timing_has_update(update),
    ensures
        first is None,
        second is None,
        first == second,
{
}

/// The tire-stint counterpart: a delta whose stint list carries no usable
/// last element never produces an update, in however many passes.
pub proof fn lemma_tire_empty_delta_idempotent(
    update: Option<&Value>,
    first: Option<TireDriver>,
    second: Option<TireDriver>,
)
    requires
        !tire_has_update(update),
        first is Some <==> tire_has_update(update),
        second is Some <==> tire_has_update(update),
    ensures
        first is None,
        second is None,
        first == second,
{
}

} // verus!
