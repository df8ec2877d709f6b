use fasti::calendars::france::exchange;
use fasti::{Date, Month};

fn ymd(y: u16, m: Month, d: u8) -> Date {
    Date::from_ymd(y, m, d).unwrap()
}

/// 2024 Paris exchange holidays.
#[test]
fn france_exchange_holidays_2024() {
    assert!(exchange().is_holiday(ymd(2024, Month::Jan, 1)));
    assert!(exchange().is_holiday(ymd(2024, Month::Mar, 29))); // Good Friday
    assert!(exchange().is_holiday(ymd(2024, Month::Apr, 1))); // Easter Monday
    assert!(exchange().is_holiday(ymd(2024, Month::May, 1)));
    assert!(exchange().is_holiday(ymd(2024, Month::Dec, 24)));
    assert!(exchange().is_holiday(ymd(2024, Month::Dec, 25)));
    assert!(exchange().is_holiday(ymd(2024, Month::Dec, 26)));
    assert!(exchange().is_holiday(ymd(2024, Month::Dec, 31)));
}

/// Exchange excludes civil holidays that Settlement observes.
#[test]
fn france_exchange_excludes_civil_holidays() {
    assert!(!exchange().is_holiday(ymd(2024, Month::May, 8))); // V-E Day
    assert!(!exchange().is_holiday(ymd(2024, Month::May, 9))); // Ascension
    assert!(!exchange().is_holiday(ymd(2024, Month::May, 20))); // Whit Monday
    assert!(!exchange().is_holiday(ymd(2024, Month::Jul, 14))); // Bastille
    assert!(!exchange().is_holiday(ymd(2024, Month::Aug, 15))); // Assumption
    assert!(!exchange().is_holiday(ymd(2024, Month::Nov, 1))); // All Saints'
    assert!(!exchange().is_holiday(ymd(2024, Month::Nov, 11))); // Armistice
}

/// Good Friday shifts with Easter.
#[test]
fn france_exchange_good_friday_shifts() {
    // 2025 Good Friday = April 18.
    assert!(exchange().is_holiday(ymd(2025, Month::Apr, 18)));
    // 2026 Good Friday = April 3.
    assert!(exchange().is_holiday(ymd(2026, Month::Apr, 3)));
}
