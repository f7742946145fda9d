use airq::group::text_before;
use airq::rank::{average_aqi, rank_descending, sparkline, top_fetch_count};

#[test]
fn ranking_puts_highest_aqi_first_and_keeps_ties_in_order() {
    let aqis = vec![50, 120, 50, 7, 120, 300];
    let order = rank_descending(&aqis);
    assert_eq!(order, vec![5, 1, 4, 0, 2, 3]);
    assert!(rank_descending(&vec![]).is_empty());
    assert_eq!(rank_descending(&vec![9]), vec![0]);
}

#[test]
fn ranking_matches_a_stable_descending_sort() {
    let aqis: Vec<u32> = (0..40u32).map(|i| (i * 37 + 11) % 9).collect();
    let mut expected: Vec<usize> = (0..aqis.len()).collect();
    expected.sort_by(|&a, &b| aqis[b].cmp(&aqis[a]));
    assert_eq!(rank_descending(&aqis), expected);
}

#[test]
fn sparkline_bands() {
    assert_eq!(sparkline(0), "\u{2588}\u{2591}\u{2591}\u{2591}\u{2591}");
    assert_eq!(sparkline(25), "\u{2588}\u{2591}\u{2591}\u{2591}\u{2591}");
    assert_eq!(sparkline(26), "\u{2588}\u{2588}\u{2591}\u{2591}\u{2591}");
    assert_eq!(sparkline(100), "\u{2588}\u{2588}\u{2588}\u{2591}\u{2591}");
    assert_eq!(sparkline(150), "\u{2588}\u{2588}\u{2588}\u{2588}\u{2591}");
    assert_eq!(sparkline(151), "\u{2588}\u{2588}\u{2588}\u{2588}\u{2588}");
    assert_eq!(sparkline(u32::MAX).chars().count(), 5);
}

#[test]
fn fetch_count_is_clamped_and_doubled() {
    assert_eq!(top_fetch_count(0), 10);
    assert_eq!(top_fetch_count(5), 10);
    assert_eq!(top_fetch_count(7), 14);
    assert_eq!(top_fetch_count(15), 30);
    assert_eq!(top_fetch_count(100), 30);
}

#[test]
fn average_of_known_values() {
    assert_eq!(average_aqi(Some(100), Some(51)), Some(75));
    assert_eq!(average_aqi(Some(40), None), Some(40));
    assert_eq!(average_aqi(None, Some(3)), Some(3));
    assert_eq!(average_aqi(None, None), None);
}

#[test]
fn short_names_stop_at_the_first_comma() {
    assert_eq!(text_before("Berlin, Germany", ','), "Berlin");
    assert_eq!(text_before("Tokyo", ','), "Tokyo");
    assert_eq!(text_before(",x", ','), "");
}

#[test]
fn sparkline_grows_with_aqi_and_average_stays_between() {
    let mut last = 0;
    for aqi in 0..400u32 {
        let filled = sparkline(aqi).chars().filter(|&c| c == '\u{2588}').count();
        assert!(filled >= last && (1..=5).contains(&filled));
        last = filled;
    }
    for (a, b) in [(0u32, 0u32), (1, 2), (500, 7), (u32::MAX / 2, u32::MAX / 2)] {
        let m = average_aqi(Some(a), Some(b)).unwrap();
        assert!(a.min(b) <= m && m <= a.max(b));
    }
}
