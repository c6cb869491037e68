use livetiming::{
    parse_timing_driver, parse_tire_driver, IntervalToPositionAhead, LastLapTime, Sector, Stint,
    TimingAppDataDriver, TimingDataDriver,
};
use serde_json::Value;

fn delta(text: &str) -> Value {
    serde_json::from_str(text).unwrap()
}

fn default_sector(value: &str) -> Sector {
    Sector { value: value.to_string() }
}

fn default_driver() -> TimingDataDriver {
    TimingDataDriver {
        racing_number: "1".to_string(),
        line: 1,
        gap_to_leader: "+5.000".to_string(),
        interval_to_position_ahead: Some(IntervalToPositionAhead {
            value: "+0.273".to_string(),
        }),
        last_lap_time: LastLapTime { value: "1:21.000".to_string() },
        sectors: vec![
            default_sector("26.259"),
            default_sector("26.880"),
            default_sector("27.093"),
        ],
    }
}

fn default_stint() -> Stint {
    Stint {
        total_laps: Some(10),
        compound: Some("SOFT".to_string()),
        is_new: None,
    }
}

fn default_tire_driver() -> TimingAppDataDriver {
    TimingAppDataDriver {
        racing_number: "1".to_string(),
        stints: vec![default_stint()],
        line: 1,
        grid_pos: "1".to_string(),
    }
}

#[test]
fn timing_driver_returns_none_when_no_updates() {
    let driver = default_driver();
    let update = delta("{}");
    let result = parse_timing_driver(&"1".to_string(), Some(1), &driver, Some(&update));
    assert!(result.is_none());
}

#[test]
fn timing_driver_parses_partial_update() {
    let driver = default_driver();
    let update = delta("{ \"lastLaptime\": { \"value\": \"1:22.000\" } }");
    let parsed = parse_timing_driver(&"1".to_string(), Some(2), &driver, Some(&update)).unwrap();

    assert_eq!(parsed.laptime, 82000);
    assert_eq!(parsed.gap, 273);
    assert_eq!(parsed.leader_gap, 5000);
}

#[test]
fn timing_driver_carries_sectors_forward() {
    let driver = default_driver();
    let update = delta("{ \"lastLaptime\": { \"value\": \"1:22.000\" } }");
    let parsed = parse_timing_driver(&"1".to_string(), Some(2), &driver, Some(&update)).unwrap();

    assert_eq!(parsed.sector_1, 26259);
    assert_eq!(parsed.sector_2, 26880);
    assert_eq!(parsed.sector_3, 27093);
    assert_eq!(parsed.nr, "1");
    assert_eq!(parsed.lap, Some(2));
}

#[test]
fn timing_driver_takes_update_fields_over_last_known() {
    let driver = default_driver();
    let update = delta(
        "{ \"intervalToPositionAhead\": { \"value\": \"+1.000\" }, \
           \"gapToLeader\": \"+9.500\", \
           \"sectors\": [ { \"value\": \"25.000\" } ] }",
    );
    let parsed = parse_timing_driver(&"1".to_string(), None, &driver, Some(&update)).unwrap();

    assert_eq!(parsed.gap, 1000);
    assert_eq!(parsed.leader_gap, 9500);
    assert_eq!(parsed.sector_1, 25000);
    assert_eq!(parsed.sector_2, 26880);
    assert_eq!(parsed.laptime, 81000);
}

#[test]
fn timing_driver_returns_none_without_delta() {
    let driver = default_driver();
    let result = parse_timing_driver(&"1".to_string(), Some(1), &driver, None);
    assert!(result.is_none());
}

#[test]
fn timing_driver_empty_delta_is_idempotent() {
    let driver = default_driver();
    let update = delta("{}");
    let first = parse_timing_driver(&"1".to_string(), Some(1), &driver, Some(&update));
    let second = parse_timing_driver(&"1".to_string(), Some(1), &driver, Some(&update));
    assert!(first.is_none());
    assert!(second.is_none());
}

#[test]
fn tire_driver_returns_none_when_no_updates() {
    let driver = default_tire_driver();
    let update = delta("{}");
    let result = parse_tire_driver(&"1".to_string(), Some(1), &driver, Some(&update));
    assert!(result.is_none());
}

#[test]
fn tire_driver_parses_update() {
    let driver = default_tire_driver();
    let update = delta("{ \"stints\": [ { \"compound\": \"MEDIUM\", \"totalLaps\": 5 } ] }");
    let parsed = parse_tire_driver(&"1".to_string(), Some(2), &driver, Some(&update)).unwrap();

    assert_eq!(parsed.compound, "MEDIUM");
    assert_eq!(parsed.laps, 5);
}

#[test]
fn tire_driver_returns_none_when_last_stint_is_bare() {
    let driver = default_tire_driver();
    let update = delta("{ \"stints\": [ {} ] }");
    let result = parse_tire_driver(&"1".to_string(), Some(1), &driver, Some(&update));
    assert!(result.is_none());

    let empty_list = delta("{ \"stints\": [] }");
    let result = parse_tire_driver(&"1".to_string(), Some(1), &driver, Some(&empty_list));
    assert!(result.is_none());
}

#[test]
fn tire_driver_falls_back_to_last_known_stint() {
    let driver = default_tire_driver();

    let update = delta("{ \"stints\": [ { \"totalLaps\": 7 } ] }");
    let parsed = parse_tire_driver(&"1".to_string(), None, &driver, Some(&update)).unwrap();
    assert_eq!(parsed.compound, "SOFT");
    assert_eq!(parsed.laps, 7);

    let update = delta("{ \"stints\": [ { \"compound\": \"HARD\" } ] }");
    let parsed = parse_tire_driver(&"1".to_string(), None, &driver, Some(&update)).unwrap();
    assert_eq!(parsed.compound, "HARD");
    assert_eq!(parsed.laps, 10);
}

#[test]
fn tire_driver_out_of_range_lap_count_degrades_to_zero() {
    let driver = default_tire_driver();
    let update = delta("{ \"stints\": [ { \"totalLaps\": 999999999999 } ] }");
    let parsed = parse_tire_driver(&"1".to_string(), None, &driver, Some(&update)).unwrap();
    assert_eq!(parsed.laps, 0);
}

#[test]
fn tire_driver_empty_delta_is_idempotent() {
    let driver = default_tire_driver();
    let update = delta("{}");
    let first = parse_tire_driver(&"1".to_string(), Some(1), &driver, Some(&update));
    let second = parse_tire_driver(&"1".to_string(), Some(1), &driver, Some(&update));
    assert!(first.is_none());
    assert!(second.is_none());
}
