use airq::idx;
use airq::signals::{signal_index, signal_name, signal_weight, N_SIGNALS, SIGNAL_NAMES, SIGNAL_WEIGHTS};

#[test]
fn test_n_signals() {
    assert_eq!(N_SIGNALS, 11);
}

#[test]
fn test_signal_names() {
    assert_eq!(SIGNAL_NAMES[0], "air");
    assert_eq!(SIGNAL_NAMES[1], "temperature");
    assert_eq!(SIGNAL_NAMES[10], "moon");
    assert_eq!(SIGNAL_NAMES.len(), N_SIGNALS);
}

#[test]
fn test_signal_weights_sum() {
    let sum: f64 = SIGNAL_WEIGHTS.iter().map(|w| *w as f64 / 100.0).sum();
    // moon=0.0, so sum is 0.88 not 1.0. But weighted columns should sum correctly.
    assert!((sum - 0.88).abs() < 0.001, "weights sum: {sum}");
}

#[test]
fn test_idx_constants() {
    assert_eq!(idx::air, 0);
    assert_eq!(idx::temperature, 1);
    assert_eq!(idx::moon, 10);
}

#[test]
fn signal_weights_in_hundredths_sum_to_88() {
    let total: u32 = SIGNAL_WEIGHTS.iter().sum();
    assert_eq!(total, 88);
    assert_eq!(SIGNAL_WEIGHTS[idx::moon], 0);
    assert_eq!(SIGNAL_WEIGHTS[idx::air], 22);
}

#[test]
fn signal_name_and_index_agree() {
    for i in 0..N_SIGNALS {
        assert_eq!(signal_name(i), SIGNAL_NAMES[i]);
        assert_eq!(signal_index(SIGNAL_NAMES[i]), Some(i));
        assert_eq!(signal_weight(i), SIGNAL_WEIGHTS[i]);
    }
    assert_eq!(signal_index("pressure"), Some(idx::pressure));
    assert_eq!(signal_index("nonexistent"), None);
    assert_eq!(signal_index(""), None);
    assert_eq!(signal_index("Air"), None);
}

#[test]
fn idx_constants_name_their_columns() {
    assert_eq!(SIGNAL_NAMES[idx::sea], "sea");
    assert_eq!(SIGNAL_NAMES[idx::uv], "uv");
    assert_eq!(SIGNAL_NAMES[idx::earthquake], "earthquake");
    assert_eq!(SIGNAL_NAMES[idx::fire], "fire");
    assert_eq!(SIGNAL_NAMES[idx::pollen], "pollen");
    assert_eq!(SIGNAL_NAMES[idx::geomagnetic], "geomagnetic");
    assert_eq!(SIGNAL_NAMES[idx::daylight], "daylight");
}
