use fasti::calendars::us::federal_reserve;
use fasti::{Date, Month};

fn ymd(y: u16, m: Month, d: u8) -> Date {
    Date::from_ymd(y, m, d).unwrap()
}

/// All 11 Federal Reserve holidays for 2024 (same set as Settlement).
#[test]
fn federal_reserve_holidays_2024() {
    assert!(federal_reserve().is_holiday(ymd(2024, Month::Jan, 1)));
    assert!(federal_reserve().is_holiday(ymd(2024, Month::Jan, 15)));
    assert!(federal_reserve().is_holiday(ymd(2024, Month::Feb, 19)));
    assert!(federal_reserve().is_holiday(ymd(2024, Month::May, 27)));
    assert!(federal_reserve().is_holiday(ymd(2024, Month::Jun, 19)));
    assert!(federal_reserve().is_holiday(ymd(2024, Month::Jul, 4)));
    assert!(federal_reserve().is_holiday(ymd(2024, Month::Sep, 2)));
    assert!(federal_reserve().is_holiday(ymd(2024, Month::Oct, 14)));
    assert!(federal_reserve().is_holiday(ymd(2024, Month::Nov, 11)));
    assert!(federal_reserve().is_holiday(ymd(2024, Month::Nov, 28)));
    assert!(federal_reserve().is_holiday(ymd(2024, Month::Dec, 25)));
}

/// Key diff vs Settlement: no Friday observance for Saturday holidays.
#[test]
fn federal_reserve_no_saturday_back_shift() {
    // Jul 4 2026 (Sat): Settlement observes Fri Jul 3; Fed does not.
    assert!(!federal_reserve().is_holiday(ymd(2026, Month::Jul, 3)));
    // Jan 1 2022 (Sat): Settlement observes Fri Dec 31 2021; Fed does not.
    assert!(!federal_reserve().is_holiday(ymd(2021, Month::Dec, 31)));
}

/// Sunday→Monday shifts do apply under Fed Reserve.
#[test]
fn federal_reserve_sunday_forward() {
    // Christmas 2022 (Sun) → observed Mon Dec 26.
    assert!(federal_reserve().is_holiday(ymd(2022, Month::Dec, 26)));
    // Jul 4 2021 (Sun) → observed Mon Jul 5.
    assert!(federal_reserve().is_holiday(ymd(2021, Month::Jul, 5)));
}

/// Pre-1971 Washington's Birthday keeps the full SatBack/SunForward shift.
#[test]
fn federal_reserve_legacy_washington_uses_sat_back() {
    assert!(federal_reserve().is_holiday(ymd(1970, Month::Feb, 23))); // observed
    // The natural Sunday stays a holiday; the Monday is its substitute.
    assert!(federal_reserve().is_holiday(ymd(1970, Month::Feb, 22)));
    // 1969 Feb 22 (Sat) → observed Friday Feb 21 under the legacy rule.
    assert!(federal_reserve().is_holiday(ymd(1969, Month::Feb, 21)));
}

/// Veterans Day 1971-1977 Uniform Monday variant applies identically.
#[test]
fn federal_reserve_veterans_day_uniform_monday() {
    assert!(federal_reserve().is_holiday(ymd(1971, Month::Oct, 25)));
    assert!(federal_reserve().is_holiday(ymd(1977, Month::Oct, 24)));
    assert!(!federal_reserve().is_holiday(ymd(1978, Month::Oct, 23)));
}
