use airq::calendar::{chrono_date_now, date_minus_days, date_of_clock, date_of_unix_secs, epoch_days_to_date, is_leap};

#[test]
fn test_epoch_days_to_date() {
    assert_eq!(epoch_days_to_date(0), "1970-01-01");
    assert_eq!(epoch_days_to_date(365), "1971-01-01");
    assert_eq!(epoch_days_to_date(730), "1972-01-01"); // leap year
    assert_eq!(epoch_days_to_date(18628), "2021-01-01");
}

#[test]
fn test_date_minus_days() {
    assert_eq!(date_minus_days("2026-03-16", 1), "2026-03-15");
    assert_eq!(date_minus_days("2026-03-01", 1), "2026-02-28");
    assert_eq!(date_minus_days("2026-01-01", 1), "2025-12-31");
}

#[test]
fn test_is_leap() {
    assert!(is_leap(2024));
    assert!(!is_leap(2023));
    assert!(!is_leap(2100));
    assert!(is_leap(2000));
}

#[test]
fn epoch_days_cross_leap_day() {
    // 2024-02-28 is day 19781; the next day is the leap day.
    assert_eq!(epoch_days_to_date(19781), "2024-02-28");
    assert_eq!(epoch_days_to_date(19782), "2024-02-29");
    assert_eq!(epoch_days_to_date(19783), "2024-03-01");
    assert_eq!(epoch_days_to_date(59), "1970-03-01");
}

#[test]
fn date_minus_days_across_years_and_leap_days() {
    assert_eq!(date_minus_days("2024-03-01", 1), "2024-02-29");
    assert_eq!(date_minus_days("2024-03-01", 366), "2023-03-01");
    assert_eq!(date_minus_days("2026-03-16", 0), "2026-03-16");
    assert_eq!(date_minus_days("1970-01-02", 1), "1970-01-01");
    assert_eq!(date_minus_days("2021-01-01", 18628), "1970-01-01");
}

#[test]
fn date_minus_days_clamps_at_epoch() {
    // Days before 1970-01-01 are clamped to the epoch.
    assert_eq!(date_minus_days("1970-01-05", 30), "1970-01-01");
}

#[test]
fn printed_dates_step_back_exactly() {
    for n in [0u64, 1, 59, 365, 730, 18628, 20000] {
        let date = epoch_days_to_date(n);
        for k in [0u32, 1, 7, 31, 365] {
            let expected = epoch_days_to_date(n.saturating_sub(k as u64));
            assert_eq!(date_minus_days(&date, k), expected);
        }
    }
}

#[test]
fn today_is_a_valid_date() {
    let today = chrono_date_now();
    assert_eq!(today.len(), 10);
    assert_eq!(&today[4..5], "-");
    assert_eq!(&today[7..8], "-");
    assert!(today.as_str() >= "1970-01-01");
}

#[test]
fn dates_of_unix_seconds() {
    assert_eq!(date_of_unix_secs(0), "1970-01-01");
    assert_eq!(date_of_unix_secs(86_399), "1970-01-01");
    assert_eq!(date_of_unix_secs(86_400), "1970-01-02");
    assert_eq!(date_of_unix_secs(1_700_000_000), "2023-11-14");
    assert_eq!(date_of_unix_secs(951_782_400), "2000-02-29");
}

#[test]
fn dates_of_clock_readings() {
    assert_eq!(date_of_clock(None), "1970-01-01");
    assert_eq!(date_of_clock(Some(1_700_000_000)), "2023-11-14");
    let secs = std::time::SystemTime::now().duration_since(std::time::UNIX_EPOCH).unwrap().as_secs();
    let before = date_of_unix_secs(secs);
    let today = chrono_date_now();
    let after = date_of_unix_secs(secs + 5);
    assert!(today == before || today == after);
}
