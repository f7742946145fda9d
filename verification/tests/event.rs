use airq::event::{event_type_for, is_reportable, tally_anomalies, trigger_channel, EventType};

#[test]
fn no_anomaly_is_normal() {
    let t = tally_anomalies(&vec![(1, false), (2, false), (3, false), (4, false)]);
    assert_eq!(t.event_type, EventType::Normal);
    assert_eq!(t.anomaly_count, 0);
    assert_eq!(t.total_sensors, 4);
    assert!(t.anomaly_sensor_ids.is_empty());
}

#[test]
fn single_spike_is_noise() {
    let t = tally_anomalies(&vec![(1, true), (2, false), (3, false), (4, false)]);
    assert_eq!(t.event_type, EventType::Noise);
    assert_eq!(t.anomaly_count, 1);
    assert_eq!(t.anomaly_sensor_ids, vec![1]);
}

#[test]
fn two_sensors_make_an_event() {
    let t = tally_anomalies(&vec![(1, true), (2, true), (3, false), (4, false), (5, false)]);
    assert_eq!(t.event_type, EventType::Event);
    assert_eq!(t.anomaly_count, 2);
    assert_eq!(t.anomaly_sensor_ids, vec![1, 2]);
}

#[test]
fn majority_is_widespread() {
    let t = tally_anomalies(&vec![(1, true), (2, true), (3, true), (4, false)]);
    assert_eq!(t.event_type, EventType::Widespread);
    assert_eq!(t.anomaly_sensor_ids, vec![1, 2, 3]);
    // Exactly half is not more than half.
    assert_eq!(event_type_for(2, 4), EventType::Event);
    assert_eq!(event_type_for(3, 5), EventType::Widespread);
    assert_eq!(event_type_for(2, 2), EventType::Widespread);
}

#[test]
fn empty_readings_are_normal() {
    let t = tally_anomalies(&vec![]);
    assert_eq!(t.event_type, EventType::Normal);
    assert_eq!(t.total_sensors, 0);
}

#[test]
fn only_events_are_stored() {
    assert!(!is_reportable(EventType::Normal));
    assert!(!is_reportable(EventType::Noise));
    assert!(is_reportable(EventType::Event));
    assert!(is_reportable(EventType::Widespread));
}

#[test]
fn trigger_channel_names() {
    assert_eq!(trigger_channel(true, true), "both");
    assert_eq!(trigger_channel(true, false), "pm25");
    assert_eq!(trigger_channel(false, true), "pm10");
    assert_eq!(trigger_channel(false, false), "none");
}
