use airq::csv::sensor_csv_fields;

#[test]
fn test_parse_sensor_csv() {
    let csv = "sensor_id;sensor_type;location;lat;lon;timestamp;P1;durP1;ratioP1;P2;durP2;ratioP2\n\
               77955;SDS011;67152;36.266;32.294;2026-03-14T00:02:12;6.25;;;2.97;;\n\
               77955;SDS011;67152;36.266;32.294;2026-03-14T00:04:38;6.55;;;3.72;;";
    let readings = sensor_csv_fields(csv);
    assert_eq!(readings.len(), 2);
    assert_eq!(readings[0].0, "2026-03-14T00:02:12");
    assert!((readings[0].1.parse::<f64>().unwrap() - 2.97).abs() < 0.01); // PM2.5 = P2
    assert!((readings[1].1.parse::<f64>().unwrap() - 3.72).abs() < 0.01);
}

#[test]
fn test_parse_sensor_csv_filters_outliers() {
    let csv = "sensor_id;sensor_type;location;lat;lon;timestamp;P1;durP1;ratioP1;P2;durP2;ratioP2\n\
               1;SDS011;1;0;0;2026-03-14T00:00:00;10;;;999.9;;\n\
               1;SDS011;1;0;0;2026-03-14T00:05:00;10;;;5.0;;";
    let fields = sensor_csv_fields(csv);
    assert_eq!(fields.len(), 2);
    assert_eq!(fields[0].1, "999.9");
    let readings: Vec<(String, f64)> = fields
        .into_iter()
        .filter_map(|(ts, p2)| p2.parse::<f64>().ok().filter(|v| *v > 0.0 && *v < 500.0).map(|v| (ts, v)))
        .collect();
    assert_eq!(readings.len(), 1, "should filter PM2.5 >= 500");
    assert!((readings[0].1 - 5.0).abs() < 0.01);
}

#[test]
fn header_only_or_empty_text_has_no_rows() {
    assert!(sensor_csv_fields("").is_empty());
    assert!(sensor_csv_fields("sensor_id;sensor_type;location;lat;lon;timestamp;P1;durP1;ratioP1;P2").is_empty());
    assert!(sensor_csv_fields("a;b;c;d;e;f;g;h;i;j\n").is_empty());
}

#[test]
fn short_lines_are_skipped_and_crlf_is_handled() {
    let csv = "h\r\n1;2;3;4;5;T1;7;8;9;P1\r\nshort;line\r\n\r\n1;2;3;4;5;T2;7;8;9;P2\r";
    let rows = sensor_csv_fields(csv);
    assert_eq!(rows, vec![("T1".to_string(), "P1".to_string()), ("T2".to_string(), "P2\r".to_string())]);
}

#[test]
fn trailing_newline_adds_no_row() {
    let csv = "h\n1;2;3;4;5;T1;7;8;9;10;11\n";
    let rows = sensor_csv_fields(csv);
    assert_eq!(rows, vec![("T1".to_string(), "10".to_string())]);
}
