use airq::group::{date_key, group_by_key, hour_key, number_repeats};

#[test]
fn lib_test_aggregate_history() {
    let time = vec![
        "2026-03-07T00:00".to_string(),
        "2026-03-07T01:00".to_string(),
        "2026-03-08T00:00".to_string(),
    ];
    let pm2_5 = vec![Some(10.0), Some(20.0), Some(5.0)];
    let pm10: Vec<Option<f64>> = vec![Some(15.0), None, Some(10.0)];

    let keys: Vec<String> = time.iter().map(|t| date_key(t)).collect();
    let daily = group_by_key(&keys);
    assert_eq!(daily.len(), 2);

    let mean = |vals: &[Option<f64>], members: &[usize]| -> Option<f64> {
        let present: Vec<f64> = members.iter().filter_map(|&i| vals.get(i).and_then(|v| *v)).collect();
        if present.is_empty() { None } else { Some(present.iter().sum::<f64>() / present.len() as f64) }
    };

    assert_eq!(daily[0].key, "2026-03-07");
    assert_eq!(mean(&pm2_5, &daily[0].members), Some(15.0));
    assert_eq!(mean(&pm10, &daily[0].members), Some(15.0));

    assert_eq!(daily[1].key, "2026-03-08");
    assert_eq!(mean(&pm2_5, &daily[1].members), Some(5.0));
    assert_eq!(mean(&pm10, &daily[1].members), Some(10.0));
}

#[test]
fn test_aggregate_sensor_to_hourly_median() {
    let readings = vec![
        ("2026-03-14T10:01:00".to_string(), 5.0),
        ("2026-03-14T10:03:00".to_string(), 15.0),
        ("2026-03-14T10:05:00".to_string(), 10.0), // median = 10
        ("2026-03-14T11:01:00".to_string(), 20.0),
    ];
    let keyed: Vec<(String, f64)> =
        readings.iter().filter_map(|(ts, v)| hour_key(ts).map(|k| (k, *v))).collect();
    let keys: Vec<String> = keyed.iter().map(|(k, _)| k.clone()).collect();
    let hourly = group_by_key(&keys);
    let median = |members: &[usize]| -> f64 {
        let mut vals: Vec<f64> = members.iter().map(|&i| keyed[i].1).collect();
        vals.sort_by(|a, b| a.partial_cmp(b).unwrap());
        let mid = vals.len() / 2;
        if vals.len() % 2 == 0 && vals.len() >= 2 { (vals[mid - 1] + vals[mid]) / 2.0 } else { vals[mid] }
    };
    assert_eq!(hourly.len(), 2);
    assert_eq!(hourly[0].key, "2026-03-14T10:00");
    assert!((median(&hourly[0].members) - 10.0).abs() < 0.01, "median of [5,10,15] = 10");
    assert!((median(&hourly[1].members) - 20.0).abs() < 0.01);
}

#[test]
fn date_key_is_text_before_first_t() {
    assert_eq!(date_key("2026-03-07T00:00"), "2026-03-07");
    assert_eq!(date_key("2026-03-07"), "2026-03-07");
    assert_eq!(date_key("T12"), "");
    assert_eq!(date_key(""), "");
    assert_eq!(date_key("aTbTc"), "a");
}

#[test]
fn hour_key_needs_thirteen_bytes() {
    assert_eq!(hour_key("2026-03-14T00:02:12").as_deref(), Some("2026-03-14T00:00"));
    assert_eq!(hour_key("2026-03-14T07").as_deref(), Some("2026-03-14T07:00"));
    assert_eq!(hour_key("2026-03-14T0"), None);
    assert_eq!(hour_key(""), None);
    // Multi-byte characters count by their UTF-8 length.
    assert_eq!(hour_key("\u{00e9}\u{00e9}\u{00e9}\u{00e9}\u{00e9}\u{00e9}x").as_deref(), Some("\u{00e9}\u{00e9}\u{00e9}\u{00e9}\u{00e9}\u{00e9}x:00"));
    assert_eq!(hour_key("\u{00e9}\u{00e9}\u{00e9}\u{00e9}\u{00e9}\u{00e9}"), None);
}

#[test]
fn groups_are_sorted_and_cover_every_position() {
    let keys: Vec<String> = ["b", "a", "c", "a", "b", "b"].iter().map(|s| s.to_string()).collect();
    let groups = group_by_key(&keys);
    let names: Vec<&str> = groups.iter().map(|g| g.key.as_str()).collect();
    assert_eq!(names, vec!["a", "b", "c"]);
    assert_eq!(groups[0].members, vec![1, 3]);
    assert_eq!(groups[1].members, vec![0, 4, 5]);
    assert_eq!(groups[2].members, vec![2]);
    let total: usize = groups.iter().map(|g| g.members.len()).sum();
    assert_eq!(total, keys.len());
    assert!(group_by_key(&Vec::new()).is_empty());
}

#[test]
fn group_order_is_string_order() {
    let keys: Vec<String> = ["ab", "a", "", "B", "\u{00e9}", "b"].iter().map(|s| s.to_string()).collect();
    let groups = group_by_key(&keys);
    let names: Vec<String> = groups.iter().map(|g| g.key.clone()).collect();
    let mut sorted = names.clone();
    sorted.sort();
    assert_eq!(names, sorted);
    assert_eq!(names.len(), 6);
}

#[test]
fn repeated_names_are_numbered() {
    let names: Vec<String> = ["Moscow", "Moscow", "Tver", "Moscow", "Tver"].iter().map(|s| s.to_string()).collect();
    assert_eq!(number_repeats(&names), vec!["Moscow", "Moscow-2", "Tver", "Moscow-3", "Tver-2"]);
    let many: Vec<String> = (0..12).map(|_| "x".to_string()).collect();
    let ids = number_repeats(&many);
    assert_eq!(ids[0], "x");
    assert_eq!(ids[11], "x-12");
    assert!(number_repeats(&Vec::new()).is_empty());
}
