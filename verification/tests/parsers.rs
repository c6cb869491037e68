use livetiming::{parse_gap, parse_laptime, parse_sector};

#[test]
fn parsers_return_zero_on_empty_input() {
    assert_eq!(parse_gap(String::new()), 0);
    assert_eq!(parse_laptime(String::new()), 0);
    assert_eq!(parse_sector(String::new()), 0);
}

#[test]
fn gap_parses_plus_prefixed_seconds() {
    assert_eq!(parse_gap("+0.273".to_string()), 273);
    assert_eq!(parse_gap("+5.000".to_string()), 5000);
    assert_eq!(parse_gap("1.5".to_string()), 1500);
}

#[test]
fn gap_lap_count_markers_yield_zero() {
    assert_eq!(parse_gap("1L".to_string()), 0);
    assert_eq!(parse_gap("20L".to_string()), 0);
    assert_eq!(parse_gap("LAP1".to_string()), 0);
}

#[test]
fn gap_malformed_yields_zero() {
    assert_eq!(parse_gap("abc".to_string()), 0);
    assert_eq!(parse_gap("+".to_string()), 0);
    assert_eq!(parse_gap("1.2.3".to_string()), 0);
}

#[test]
fn gap_negative_seconds() {
    assert_eq!(parse_gap("-0.500".to_string()), -500);
}

#[test]
fn laptime_parses_minutes_and_seconds() {
    assert_eq!(parse_laptime("1:21.306".to_string()), 81306);
    assert_eq!(parse_laptime("0:59.999".to_string()), 59999);
    assert_eq!(parse_laptime("2:00.000".to_string()), 120000);
}

#[test]
fn laptime_truncates_extra_fraction_digits() {
    assert_eq!(parse_laptime("1:21.3067".to_string()), 81306);
}

#[test]
fn laptime_malformed_yields_zero() {
    assert_eq!(parse_laptime("abc".to_string()), 0);
    assert_eq!(parse_laptime("1:2:3".to_string()), 0);
    assert_eq!(parse_laptime("121.306".to_string()), 0);
    assert_eq!(parse_laptime(":5".to_string()), 0);
}

#[test]
fn sector_parses_decimal_seconds() {
    assert_eq!(parse_sector("26.259".to_string()), 26259);
    assert_eq!(parse_sector("0.001".to_string()), 1);
    assert_eq!(parse_sector("5.".to_string()), 5000);
    assert_eq!(parse_sector(".5".to_string()), 500);
}

#[test]
fn sector_malformed_yields_zero() {
    assert_eq!(parse_sector("bad".to_string()), 0);
    assert_eq!(parse_sector(".".to_string()), 0);
    assert_eq!(parse_sector("26,259".to_string()), 0);
}
