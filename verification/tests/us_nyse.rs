use fasti::calendars::us::nyse;
use fasti::{Date, Month};

fn ymd(y: u16, m: Month, d: u8) -> Date {
    Date::from_ymd(y, m, d).unwrap()
}

/// 2024 nyse() holidays — 10 in total, all on weekdays.
#[test]
fn nyse_holidays_2024() {
    assert!(nyse().is_holiday(ymd(2024, Month::Jan, 1)));
    assert!(nyse().is_holiday(ymd(2024, Month::Jan, 15)));
    assert!(nyse().is_holiday(ymd(2024, Month::Feb, 19)));
    assert!(nyse().is_holiday(ymd(2024, Month::Mar, 29))); // Good Friday
    assert!(nyse().is_holiday(ymd(2024, Month::May, 27)));
    assert!(nyse().is_holiday(ymd(2024, Month::Jun, 19)));
    assert!(nyse().is_holiday(ymd(2024, Month::Jul, 4)));
    assert!(nyse().is_holiday(ymd(2024, Month::Sep, 2)));
    assert!(nyse().is_holiday(ymd(2024, Month::Nov, 28)));
    assert!(nyse().is_holiday(ymd(2024, Month::Dec, 25)));
}

/// Columbus Day and Veterans Day are NOT nyse() holidays.
#[test]
fn nyse_excludes_columbus_and_veterans() {
    assert!(!nyse().is_holiday(ymd(2024, Month::Oct, 14))); // Columbus
    assert!(!nyse().is_holiday(ymd(2024, Month::Nov, 11))); // Veterans
}

/// MLK Day effective for nyse() only from 1998.
#[test]
fn nyse_mlk_effective_from_1998() {
    // 1997 Jan 20: federal MLK but not yet nyse().
    assert!(!nyse().is_holiday(ymd(1997, Month::Jan, 20)));
    // 1998 Jan 19: first nyse() MLK Day.
    assert!(nyse().is_holiday(ymd(1998, Month::Jan, 19)));
}

/// Good Friday is an nyse() closure (Settlement does not observe it).
#[test]
fn nyse_observes_good_friday() {
    assert!(nyse().is_holiday(ymd(2024, Month::Mar, 29)));
    assert!(nyse().is_holiday(ymd(2025, Month::Apr, 18)));
    assert!(nyse().is_holiday(ymd(2026, Month::Apr, 3)));
}

/// New Year's Day: Sunday→Monday only, no Saturday roll back.
#[test]
fn nyse_new_year_sun_forward_only() {
    // 2012-01-01 was a Sunday → observed Mon Jan 2.
    assert!(nyse().is_holiday(ymd(2012, Month::Jan, 2)));
    // 2022-01-01 Sat: nyse() does not observe Fri Dec 31 (Settlement does).
    assert!(!nyse().is_holiday(ymd(2021, Month::Dec, 31)));
}

/// Election days: every year ≤ 1968, then only 1972/1976/1980.
#[test]
fn nyse_election_days() {
    // 1968 Nov 5 (Tuesday) — observed.
    assert!(nyse().is_holiday(ymd(1968, Month::Nov, 5)));
    // 1972 Nov 7 (Tuesday, presidential year) — observed.
    assert!(nyse().is_holiday(ymd(1972, Month::Nov, 7)));
    // 1976 Nov 2 (Tuesday, presidential year) — observed.
    assert!(nyse().is_holiday(ymd(1976, Month::Nov, 2)));
    // 1980 Nov 4 (Tuesday, presidential year) — observed.
    assert!(nyse().is_holiday(ymd(1980, Month::Nov, 4)));
    // 1984 Nov 6 (presidential year, but post-1980) — NOT observed.
    assert!(!nyse().is_holiday(ymd(1984, Month::Nov, 6)));
    // 1970 Nov 3 (non-presidential, post-1968) — NOT observed.
    assert!(!nyse().is_holiday(ymd(1970, Month::Nov, 3)));
}

/// Special closings: verify sample dates against the closing list.
#[test]
fn nyse_special_closings_sample() {
    assert!(nyse().is_holiday(ymd(2025, Month::Jan, 9))); // Carter funeral
    assert!(nyse().is_holiday(ymd(2018, Month::Dec, 5))); // Bush funeral
    assert!(nyse().is_holiday(ymd(2012, Month::Oct, 29))); // Sandy day 1
    assert!(nyse().is_holiday(ymd(2012, Month::Oct, 30))); // Sandy day 2
    assert!(!nyse().is_holiday(ymd(2012, Month::Oct, 31))); // Sandy day 3 — reopened
    assert!(nyse().is_holiday(ymd(2001, Month::Sep, 11)));
    assert!(nyse().is_holiday(ymd(2001, Month::Sep, 14)));
    assert!(!nyse().is_holiday(ymd(2001, Month::Sep, 17))); // Reopened Mon
    assert!(nyse().is_holiday(ymd(1977, Month::Jul, 14))); // Blackout
    assert!(nyse().is_holiday(ymd(1963, Month::Nov, 25))); // Kennedy
}

/// Paperwork Crisis 1968: every Wednesday from Jun 12 to Dec 31.
#[test]
fn nyse_paperwork_crisis_1968() {
    // Jun 12 1968 was a Wednesday — observed.
    assert!(nyse().is_holiday(ymd(1968, Month::Jun, 12)));
    // Jun 11 was a Tuesday — NOT observed.
    assert!(!nyse().is_holiday(ymd(1968, Month::Jun, 11)));
    // Jun 19 was a Wednesday — observed.
    assert!(nyse().is_holiday(ymd(1968, Month::Jun, 19)));
    // Nov 27 1968 was a Wednesday — observed.
    assert!(nyse().is_holiday(ymd(1968, Month::Nov, 27)));
    // 1969: no more Paperwork closures.
    assert!(!nyse().is_holiday(ymd(1969, Month::Jun, 11))); // Wed
    assert!(!nyse().is_holiday(ymd(1969, Month::Jun, 18))); // Wed
}

/// Christmas Eve closures 1954, 1956, 1965 but not other years.
#[test]
fn nyse_christmas_eve_closures() {
    assert!(nyse().is_holiday(ymd(1954, Month::Dec, 24)));
    assert!(nyse().is_holiday(ymd(1956, Month::Dec, 24)));
    assert!(nyse().is_holiday(ymd(1965, Month::Dec, 24)));
    // Not a Christmas Eve closure year.
    assert!(!nyse().is_holiday(ymd(1955, Month::Dec, 24)));
    assert!(!nyse().is_holiday(ymd(2024, Month::Dec, 24)));
}
