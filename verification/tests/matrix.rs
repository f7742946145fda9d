use airq::idx;
use airq::matrix::SignalMatrix;
use airq::signals::N_SIGNALS;

type Row = [f64; N_SIGNALS];

fn sample_row(base: f64) -> Row {
    let mut scores = [0.0; N_SIGNALS];
    for (i, s) in scores.iter_mut().enumerate() {
        *s = base + i as f64;
    }
    scores
}

#[test]
fn test_matrix_empty() {
    let m: SignalMatrix<Row> = SignalMatrix::new();
    assert!(m.is_empty());
    assert_eq!(m.len(), 0);
    assert!(m.latest().is_none());
}

#[test]
fn test_matrix_push_latest() {
    let mut m = SignalMatrix::new();
    let row = sample_row(70.0);
    m.push(1000, row);
    assert_eq!(m.len(), 1);
    let (ts, latest) = m.latest().unwrap();
    assert_eq!(ts, 1000);
    assert_eq!(latest, row);
}

#[test]
fn test_matrix_push_with_meta() {
    let mut m = SignalMatrix::new();
    m.push_with_meta(1000, sample_row(50.0), 5, true);
    assert_eq!(m.sensor_count[0], 5);
    assert!(m.front_detected[0]);
}

#[test]
fn test_matrix_slice() {
    let mut m = SignalMatrix::new();
    for i in 0..10 {
        m.push(i * 3600, sample_row(i as f64 * 10.0));
    }
    // Slice hours 3-6 (timestamps 10800..21600)
    let s = m.slice(10800, 21600);
    assert_eq!(s.len(), 3); // hours 3, 4, 5
    assert_eq!(s.timestamps[0], 10800);
}

#[test]
fn test_matrix_last_hours() {
    let mut m = SignalMatrix::new();
    for i in 0..48 {
        m.push(i * 3600, sample_row(i as f64));
    }
    let last24 = m.last_hours(24);
    assert_eq!(last24.len(), 25); // hours 23..47 inclusive
}

#[test]
fn test_matrix_compact() {
    let mut m = SignalMatrix::new();
    for i in 0..100 {
        m.push(i, sample_row(i as f64));
    }
    m.compact(10);
    assert_eq!(m.len(), 10);
    assert_eq!(m.timestamps[0], 90);
}

#[test]
fn push_keeps_columns_aligned() {
    let mut m = SignalMatrix::with_capacity(4);
    m.push(10, sample_row(1.0));
    m.push_with_meta(20, sample_row(2.0), 3, true);
    assert_eq!(m.timestamps, vec![10, 20]);
    assert_eq!(m.sensor_count, vec![0, 3]);
    assert_eq!(m.front_detected, vec![false, true]);
    assert_eq!(m.data[1][idx::temperature], 3.0);
}

#[test]
fn slice_bounds_are_half_open() {
    let mut m = SignalMatrix::new();
    for t in [0i64, 10, 10, 20, 30] {
        m.push(t, sample_row(t as f64));
    }
    let s = m.slice(10, 30);
    assert_eq!(s.timestamps, vec![10, 10, 20]);
    assert_eq!(s.data.len(), 3);
    assert_eq!(m.slice(31, 40).len(), 0);
    assert_eq!(m.slice(-5, 0).len(), 0);
    assert_eq!(m.slice(i64::MIN, i64::MAX).len(), 5);
    assert_eq!(m.slice(15, 15).len(), 0);
    // A start after the end with no row between them gives an empty window.
    assert_eq!(m.slice(25, 21).len(), 0);
}

#[test]
fn last_hours_of_empty_and_extreme_times() {
    let m: SignalMatrix<Row> = SignalMatrix::default();
    assert!(m.last_hours(24).is_empty());
    let mut m = SignalMatrix::new();
    m.push(i64::MIN, sample_row(0.0));
    m.push(i64::MAX, sample_row(1.0));
    assert_eq!(m.last_hours(1).timestamps, vec![i64::MAX]);
    assert_eq!(m.last_hours(u32::MAX).len(), 1);
}

#[test]
fn last_days_counts_whole_days() {
    let mut m = SignalMatrix::new();
    for i in 0..(24 * 10) {
        m.push(i * 3600, sample_row(0.0));
    }
    assert_eq!(m.last_days(1).len(), 25);
    assert_eq!(m.last_days(7).len(), 24 * 7 + 1);
}

#[test]
fn compact_keeps_short_matrices_and_latest_row() {
    let mut m = SignalMatrix::new();
    for i in 0..5 {
        m.push_with_meta(i, sample_row(i as f64), i as u32, i % 2 == 0);
    }
    m.compact(10);
    assert_eq!(m.len(), 5);
    m.compact(2);
    assert_eq!(m.timestamps, vec![3, 4]);
    assert_eq!(m.sensor_count, vec![3, 4]);
    assert_eq!(m.front_detected, vec![false, true]);
    assert_eq!(m.latest().unwrap().0, 4);
    m.compact(0);
    assert!(m.is_empty());
}

#[test]
fn push_appends_to_uneven_columns() {
    let mut m: SignalMatrix<Row> = SignalMatrix::new();
    m.data.push(sample_row(1.0));
    m.push(60, sample_row(2.0));
    assert_eq!(m.timestamps, vec![60]);
    assert_eq!(m.data.len(), 2);
    assert_eq!(m.data[1], sample_row(2.0));
    assert_eq!(m.sensor_count, vec![0]);
    assert_eq!(m.front_detected, vec![false]);
}
