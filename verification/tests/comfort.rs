use airq::comfort::{air_comfort_score, progress_bar, ComfortScore};

fn score(total: u32) -> ComfortScore {
    ComfortScore { total, air: 0, temperature: 0, wind: 0, uv: 0, pressure: 0, humidity: 0 }
}

#[test]
fn test_progress_bar() {
    let bar = progress_bar(100);
    assert_eq!(bar, "\u{2588}\u{2588}\u{2588}\u{2588}\u{2588}\u{2588}\u{2588}\u{2588}\u{2588}\u{2588}");
    let bar = progress_bar(0);
    assert_eq!(bar, "\u{2591}\u{2591}\u{2591}\u{2591}\u{2591}\u{2591}\u{2591}\u{2591}\u{2591}\u{2591}");
    let bar50 = progress_bar(50);
    assert_eq!(bar50.chars().count(), 10);
}

#[test]
fn progress_bar_rounds_down_and_caps() {
    assert_eq!(progress_bar(59), "\u{2588}\u{2588}\u{2588}\u{2588}\u{2588}\u{2591}\u{2591}\u{2591}\u{2591}\u{2591}");
    assert_eq!(progress_bar(9), progress_bar(0));
    assert_eq!(progress_bar(250), progress_bar(100));
    assert_eq!(progress_bar(u32::MAX).chars().count(), 10);
}

#[test]
fn comfort_labels_by_band() {
    assert_eq!(score(100).label(), "Excellent");
    assert_eq!(score(80).label(), "Excellent");
    assert_eq!(score(79).label(), "Good");
    assert_eq!(score(60).label(), "Good");
    assert_eq!(score(59).label(), "Fair");
    assert_eq!(score(40).label(), "Fair");
    assert_eq!(score(39).label(), "Poor");
    assert_eq!(score(20).label(), "Poor");
    assert_eq!(score(19).label(), "Bad");
    assert_eq!(score(0).label(), "Bad");
    assert_eq!(score(101).label(), "Bad");
    assert_eq!(score(85).emoji(), "\u{1f7e2}");
    assert_eq!(score(5).emoji(), "\u{1f7e4}");
}

#[test]
fn air_comfort_falls_with_aqi() {
    assert_eq!(air_comfort_score(0), 100);
    assert_eq!(air_comfort_score(25), 100);
    assert_eq!(air_comfort_score(26), 80);
    assert_eq!(air_comfort_score(50), 80);
    assert_eq!(air_comfort_score(100), 50);
    assert_eq!(air_comfort_score(200), 20);
    assert_eq!(air_comfort_score(201), 0);
    let mut last = 100;
    for aqi in 0..600 {
        let s = air_comfort_score(aqi);
        assert!(s <= last);
        last = s;
    }
}
