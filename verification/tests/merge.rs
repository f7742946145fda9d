use airq::merge::{merge_source, sensor_discount_pct};

#[test]
fn source_labels() {
    assert_eq!(merge_source(true, true), "sensors+model");
    assert_eq!(merge_source(true, false), "sensors");
    assert_eq!(merge_source(false, true), "model-only");
    assert_eq!(merge_source(false, false), "no-data");
}

#[test]
fn discount_by_sensor_count() {
    assert_eq!(sensor_discount_pct(0), 100);
    assert_eq!(sensor_discount_pct(1), 80);
    assert_eq!(sensor_discount_pct(2), 80);
    assert_eq!(sensor_discount_pct(3), 50);
    assert_eq!(sensor_discount_pct(5), 50);
    assert_eq!(sensor_discount_pct(6), 30);
    assert_eq!(sensor_discount_pct(15), 30);
    assert_eq!(sensor_discount_pct(16), 10);
    assert_eq!(sensor_discount_pct(u32::MAX), 10);
    let mut last = 100;
    for n in 0..40 {
        assert!(sensor_discount_pct(n) <= last);
        last = sensor_discount_pct(n);
    }
}
