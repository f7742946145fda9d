use airq::push::{parse_push, push_response, value_kind, PushPayload, SensorDataValue, ValueKind};

fn value(value_type: &str, value: &str) -> SensorDataValue {
    SensorDataValue { value_type: value_type.to_string(), value: value.to_string() }
}

fn text(o: &Option<String>) -> Option<&str> {
    o.as_deref()
}

#[test]
fn test_parse_push_sds011() {
    let payload = PushPayload {
        sensordatavalues: vec![
            value("SDS_P1", "12.5"),
            value("SDS_P2", "8.3"),
            value("BME280_temperature", "22.1"),
            value("BME280_humidity", "45.0"),
            value("BME280_pressure", "101325"),
        ],
        esp8266id: Some("15072310".into()),
        software_version: Some("NRZ-2020-133".into()),
    };

    let r = parse_push(&payload);
    assert_eq!(r.sensor_id, 15072310);
    assert_eq!(text(&r.pm25), Some("8.3"));
    assert_eq!(text(&r.pm10), Some("12.5"));
    assert_eq!(text(&r.temperature), Some("22.1"));
    assert_eq!(text(&r.humidity), Some("45.0"));
    assert_eq!(text(&r.pressure), Some("101325"));
}

#[test]
fn test_parse_push_no_id() {
    let payload = PushPayload { sensordatavalues: vec![], esp8266id: None, software_version: None };
    let r = parse_push(&payload);
    assert_eq!(r.sensor_id, 0);
}

#[test]
fn test_parse_push_p1_p2_aliases() {
    let payload = PushPayload {
        sensordatavalues: vec![value("P1", "20.0"), value("P2", "10.0")],
        esp8266id: Some("12345".into()),
        software_version: None,
    };
    let r = parse_push(&payload);
    assert!((r.pm25.unwrap().parse::<f64>().unwrap() - 10.0).abs() < 0.01);
    assert!((r.pm10.unwrap().parse::<f64>().unwrap() - 20.0).abs() < 0.01);
}

#[test]
fn test_bashair_full_measurement() {
    let payload = PushPayload {
        sensordatavalues: vec![
            value("SDS_P1", "6.35"),
            value("SDS_P2", "3.83"),
            value("BME280_temperature", "26.43"),
            value("BME280_pressure", "99505.19"),
            value("BME280_humidity", "23.77"),
            value("samples", "1039137"),
            value("min_micro", "27"),
            value("max_micro", "20370"),
            value("interval", "30000"),
            value("signal", "-50"),
        ],
        esp8266id: Some("11545355".into()),
        software_version: Some("NRZ-2020-133".into()),
    };
    assert_eq!(payload.esp8266id.as_deref(), Some("11545355"));
    assert_eq!(payload.software_version.as_deref(), Some("NRZ-2020-133"));
    assert_eq!(payload.sensordatavalues.len(), 10);

    let r = parse_push(&payload);
    assert_eq!(r.sensor_id, 11545355);
    assert_eq!(text(&r.pm25), Some("3.83")); // SDS_P2 = PM2.5
    assert_eq!(text(&r.pm10), Some("6.35")); // SDS_P1 = PM10
    assert_eq!(text(&r.temperature), Some("26.43"));
    assert_eq!(text(&r.humidity), Some("23.77"));
    assert_eq!(text(&r.pressure), Some("99505.19"));
}

#[test]
fn test_bashair_bad_sensor_no_bme280() {
    let payload = PushPayload {
        sensordatavalues: vec![
            value("SDS_P1", "6.35"),
            value("SDS_P2", "3.83"),
            value("samples", "1039137"),
            value("min_micro", "27"),
            value("max_micro", "20370"),
            value("interval", "30000"),
            value("signal", "-50"),
        ],
        esp8266id: Some("11545355".into()),
        software_version: Some("NRZ-2020-133".into()),
    };
    let r = parse_push(&payload);
    assert_eq!(r.sensor_id, 11545355);
    assert_eq!(text(&r.pm25), Some("3.83"));
    assert_eq!(text(&r.pm10), Some("6.35"));
    assert!(r.temperature.is_none()); // no BME280
    assert!(r.humidity.is_none());
    assert!(r.pressure.is_none());
}

#[test]
fn test_unknown_value_types_ignored() {
    let payload = PushPayload {
        sensordatavalues: vec![
            value("SDS_P2", "5.0"),
            value("unknown_sensor", "123"),
            value("GPS_lat", "36.27"),
            value("GPS_lon", "32.30"),
        ],
        esp8266id: Some("99999".into()),
        software_version: None,
    };
    let r = parse_push(&payload);
    assert_eq!(text(&r.pm25), Some("5.0"));
    assert!(r.pm10.is_none());
    assert!(r.temperature.is_none());
}

#[test]
fn test_invalid_values_handled() {
    let payload = PushPayload {
        sensordatavalues: vec![
            value("SDS_P1", "not_a_number"),
            value("SDS_P2", ""),
            value("BME280_temperature", "NaN"),
        ],
        esp8266id: Some("99999".into()),
        software_version: None,
    };
    let r = parse_push(&payload);
    // The texts are handed on as they are; none of them reads as a number.
    assert!(r.pm25.as_deref().map(|s| s.parse::<f64>().ok()).flatten().is_none()); // "" can't parse
    assert!(r.pm10.as_deref().map(|s| s.parse::<f64>().ok()).flatten().is_none()); // "not_a_number" can't parse
}

#[test]
fn later_entries_override_earlier_ones() {
    let payload = PushPayload {
        sensordatavalues: vec![value("SDS_P2", "3.83"), value("P2", "5.50"), value("temperature", "20")],
        esp8266id: Some("11545355".into()),
        software_version: None,
    };
    let r = parse_push(&payload);
    assert_eq!(text(&r.pm25), Some("5.50"));
    assert_eq!(text(&r.temperature), Some("20"));
}

#[test]
fn sensor_id_must_be_a_whole_number() {
    for (id, expected) in [("15072310", 15072310i64), ("-7", -7), ("+12", 12), ("abc", 0), ("", 0), ("12.5", 0), ("99999999999999999999", 0)] {
        let payload = PushPayload { sensordatavalues: vec![], esp8266id: Some(id.into()), software_version: None };
        assert_eq!(parse_push(&payload).sensor_id, expected, "id {id:?}");
    }
}

#[test]
fn push_is_refused_without_an_id() {
    assert!(push_response(0).is_none());
    let ok = push_response(11545355).unwrap();
    assert_eq!(ok.status, "ok");
    assert_eq!(ok.sensor_id, 11545355);
}

#[test]
fn value_kinds_of_board_types() {
    assert_eq!(value_kind("SDS_P1"), Some(ValueKind::Pm10));
    assert_eq!(value_kind("P1"), Some(ValueKind::Pm10));
    assert_eq!(value_kind("SDS_P2"), Some(ValueKind::Pm25));
    assert_eq!(value_kind("BME280_humidity"), Some(ValueKind::Humidity));
    assert_eq!(value_kind("pressure"), Some(ValueKind::Pressure));
    assert_eq!(value_kind("sds_p1"), None);
    assert_eq!(value_kind("samples"), None);
}
