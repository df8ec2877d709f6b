use fasti::calendars::us::government_bond;
use fasti::{Date, Month};

fn ymd(y: u16, m: Month, d: u8) -> Date {
    Date::from_ymd(y, m, d).unwrap()
}

/// 2024 Government Bond holidays — Settlement's 11 plus Good Friday.
#[test]
fn govbond_holidays_2024() {
    assert!(government_bond().is_holiday(ymd(2024, Month::Jan, 1)));
    assert!(government_bond().is_holiday(ymd(2024, Month::Jan, 15)));
    assert!(government_bond().is_holiday(ymd(2024, Month::Feb, 19)));
    assert!(government_bond().is_holiday(ymd(2024, Month::Mar, 29))); // Good Friday
    assert!(government_bond().is_holiday(ymd(2024, Month::May, 27)));
    assert!(government_bond().is_holiday(ymd(2024, Month::Jun, 19)));
    assert!(government_bond().is_holiday(ymd(2024, Month::Jul, 4)));
    assert!(government_bond().is_holiday(ymd(2024, Month::Sep, 2)));
    assert!(government_bond().is_holiday(ymd(2024, Month::Oct, 14)));
    assert!(government_bond().is_holiday(ymd(2024, Month::Nov, 11)));
    assert!(government_bond().is_holiday(ymd(2024, Month::Nov, 28)));
    assert!(government_bond().is_holiday(ymd(2024, Month::Dec, 25)));
}

/// Good Friday NFP exception: since 1996, skipped when day ≤ 7.
#[test]
fn good_friday_nfp_exception_since_1996() {
    // 1995 Apr 14 Good Friday (day 14 > 7; also pre-1996) — observed.
    assert!(government_bond().is_holiday(ymd(1995, Month::Apr, 14)));
    // 2024 Mar 29 Good Friday (day 29 > 7) — observed.
    assert!(government_bond().is_holiday(ymd(2024, Month::Mar, 29)));
    // 2026 Good Friday = April 3 (day ≤ 7, post-1996) — NOT observed.
    assert!(!government_bond().is_holiday(ymd(2026, Month::Apr, 3)));
    // 1988 Apr 1 Good Friday — pre-1996, exception does not apply.
    assert!(government_bond().is_holiday(ymd(1988, Month::Apr, 1)));
}

/// Veterans Day is `SunForward` only under govbond.
#[test]
fn govbond_veterans_day_no_saturday_back() {
    // 1994 Nov 11 was Friday — observed natural.
    assert!(government_bond().is_holiday(ymd(1994, Month::Nov, 11)));
    // 1995 Nov 11 (Sat): Settlement observes Fri Nov 10; govbond does not.
    assert!(!government_bond().is_holiday(ymd(1995, Month::Nov, 10)));
    // 1990 Nov 11 was Sunday — observed Monday Nov 12.
    assert!(government_bond().is_holiday(ymd(1990, Month::Nov, 12)));
}

/// New Year's Day is `SunForward` only — no Dec 31 rollback.
#[test]
fn govbond_new_year_sun_forward_only() {
    // Jan 1 2022 (Sat): Settlement observes Fri Dec 31 2021; govbond does not.
    assert!(!government_bond().is_holiday(ymd(2021, Month::Dec, 31)));
    // Jan 1 2023 was Sunday — observed Mon Jan 2.
    assert!(government_bond().is_holiday(ymd(2023, Month::Jan, 2)));
}

/// Special closings: the three historic dates.
#[test]
fn govbond_special_closings() {
    assert!(government_bond().is_holiday(ymd(2018, Month::Dec, 5))); // Bush funeral
    assert!(government_bond().is_holiday(ymd(2012, Month::Oct, 30))); // Sandy day 2
    assert!(!government_bond().is_holiday(ymd(2012, Month::Oct, 29))); // Sandy day 1 — NOT govbond
    assert!(government_bond().is_holiday(ymd(2004, Month::Jun, 11))); // Reagan funeral
}
