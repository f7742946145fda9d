use airq::api::{init_start_time, uptime_secs, CityQuery, ReadingsQuery, StartClock, StatusResponse};
use airq::provider::Provider;

#[test]
fn readings_query_defaults() {
    let q = ReadingsQuery { sensor: None, from: None, to: None };
    assert_eq!(q.bounds(), (0, 0, i64::MAX));
    let q = ReadingsQuery { sensor: Some(77955), from: Some(1_700_000_000), to: Some(1_700_000_600) };
    assert_eq!(q.bounds(), (77955, 1_700_000_000, 1_700_000_600));
}

#[test]
fn city_query_defaults() {
    assert_eq!(CityQuery { city: None, from: None }.event_bounds(), (0, 0));
    assert_eq!(CityQuery { city: Some(3), from: Some(10) }.event_bounds(), (3, 10));
}

#[test]
fn status_from_parts_fills_missing_counters() {
    let s = StatusResponse::from_parts(42, None, None, None, None);
    assert_eq!(s, StatusResponse { uptime_secs: 42, cities: 0, sensors: 0, readings: 0, last_poll: None });
    let s = StatusResponse::from_parts(1, Some(2), Some(3), Some(4), Some(Some(5)));
    assert_eq!(s, StatusResponse { uptime_secs: 1, cities: 2, sensors: 3, readings: 4, last_poll: Some(5) });
}

#[test]
fn start_clock_keeps_the_first_start() {
    let mut c = StartClock::new();
    assert!(c.start.is_none());
    let first = std::time::Instant::now();
    let later = first + std::time::Duration::from_secs(200);
    c.start_at(first);
    c.start_at(later);
    assert_eq!(c.start, Some(first));
}

#[test]
fn init_start_time_is_idempotent() {
    let mut c = StartClock::new();
    assert_eq!(uptime_secs(&c), 0);
    init_start_time(&mut c);
    let first = c.start;
    assert!(first.is_some());
    init_start_time(&mut c);
    assert_eq!(c.start, first);
    assert!(uptime_secs(&c) < 60);
}

#[test]
fn uptime_counts_whole_seconds_since_the_start() {
    let started = std::time::Instant::now() - std::time::Duration::from_millis(2500);
    let c = StartClock { start: Some(started) };
    let up = uptime_secs(&c);
    assert!(up >= 2 && up < 60);
}

#[test]
fn provider_defaults_to_all() {
    assert_eq!(Provider::default(), Provider::All);
    assert_ne!(Provider::OpenMeteo, Provider::SensorCommunity);
}
