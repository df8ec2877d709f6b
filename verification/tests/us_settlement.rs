use fasti::calendars::us::settlement;
use fasti::{Date, Month};

fn ymd(y: u16, m: Month, d: u8) -> Date {
    Date::from_ymd(y, m, d).unwrap()
}

/// 2024 US settlement holidays, verified against OPM's list.
#[test]
fn settlement_holidays_2024() {
    assert!(settlement().is_holiday(ymd(2024, Month::Jan, 1))); // New Year's — Mon
    assert!(settlement().is_holiday(ymd(2024, Month::Jan, 15))); // MLK — Mon
    assert!(settlement().is_holiday(ymd(2024, Month::Feb, 19))); // Presidents' — Mon
    assert!(settlement().is_holiday(ymd(2024, Month::May, 27))); // Memorial — Mon
    assert!(settlement().is_holiday(ymd(2024, Month::Jun, 19))); // Juneteenth — Wed
    assert!(settlement().is_holiday(ymd(2024, Month::Jul, 4))); // Independence — Thu
    assert!(settlement().is_holiday(ymd(2024, Month::Sep, 2))); // Labor — Mon
    assert!(settlement().is_holiday(ymd(2024, Month::Oct, 14))); // Columbus — Mon
    assert!(settlement().is_holiday(ymd(2024, Month::Nov, 11))); // Veterans — Mon
    assert!(settlement().is_holiday(ymd(2024, Month::Nov, 28))); // Thanksgiving — Thu
    assert!(settlement().is_holiday(ymd(2024, Month::Dec, 25))); // Christmas — Wed
}

/// 2024 has no weekend-shifted holidays: count = 11.
#[test]
fn settlement_2024_count_is_eleven() {
    let mut count = 0;
    let mut d = ymd(2024, Month::Jan, 1);
    let last = ymd(2024, Month::Dec, 31);
    while d.serial() <= last.serial() {
        if settlement().is_holiday(d) && !settlement().is_weekend(d) {
            count += 1;
        }
        d = d.add_days(1).unwrap();
    }
    assert_eq!(count, 11);
}

/// MLK effective from 1983 (the market convention, not federal 1986).
#[test]
fn mlk_effective_from_1983() {
    // 1982 third Monday of January is Jan 18 — NOT a holiday.
    assert!(!settlement().is_holiday(ymd(1982, Month::Jan, 18)));
    // 1983 third Monday of January is Jan 17 — first MLK Day.
    assert!(settlement().is_holiday(ymd(1983, Month::Jan, 17)));
    // 1985 (pre-federal-observance but MLK by that convention): Jan 21.
    assert!(settlement().is_holiday(ymd(1985, Month::Jan, 21)));
}

/// Juneteenth effective from 2022 (the market convention, not federal 2021).
#[test]
fn juneteenth_effective_from_2022() {
    assert!(!settlement().is_holiday(ymd(2020, Month::Jun, 19)));
    assert!(!settlement().is_holiday(ymd(2021, Month::Jun, 18)));
    assert!(!settlement().is_holiday(ymd(2021, Month::Jun, 19))); // Saturday
    // 2022-06-19 was Sunday — observed Monday June 20.
    assert!(settlement().is_holiday(ymd(2022, Month::Jun, 20)));
    // 2023-06-19 was Monday — observed natural.
    assert!(settlement().is_holiday(ymd(2023, Month::Jun, 19)));
}

/// Washington's Birthday pre-1971: Feb 22 with weekend shift.
#[test]
fn washington_pre_1971() {
    // 1970: Feb 22 was a Sunday — observed Monday Feb 23.
    assert!(settlement().is_holiday(ymd(1970, Month::Feb, 23)));
    assert!(settlement().is_holiday(ymd(1970, Month::Feb, 22))); // natural date too
    // 1969: Feb 22 was a Saturday — observed Friday Feb 21.
    assert!(settlement().is_holiday(ymd(1969, Month::Feb, 21)));
    // 1971: moves to 3rd Monday (= Feb 15).
    assert!(settlement().is_holiday(ymd(1971, Month::Feb, 15)));
    // 1971 Feb 22 (a Monday, but not the 3rd) — no longer a holiday.
    assert!(!settlement().is_holiday(ymd(1971, Month::Feb, 22)));
}

/// Memorial Day pre-1971: May 30 with weekend shift.
#[test]
fn memorial_day_pre_1971() {
    // 1970: May 30 was a Saturday — observed Friday May 29.
    assert!(settlement().is_holiday(ymd(1970, Month::May, 29)));
    // 1968: May 30 was a Thursday — observed natural.
    assert!(settlement().is_holiday(ymd(1968, Month::May, 30)));
    // 1971: moves to last Monday (= May 31).
    assert!(settlement().is_holiday(ymd(1971, Month::May, 31)));
}

/// Veterans Day 1971–1977: 4th Monday of October; Nov 11 from 1978.
#[test]
fn veterans_day_uniform_monday_act() {
    // 1971: 4th Monday of October is Oct 25.
    assert!(settlement().is_holiday(ymd(1971, Month::Oct, 25)));
    assert!(!settlement().is_holiday(ymd(1971, Month::Nov, 11)));
    // 1977: 4th Monday of October is Oct 24 — last Uniform year.
    assert!(settlement().is_holiday(ymd(1977, Month::Oct, 24)));
    assert!(!settlement().is_holiday(ymd(1977, Month::Nov, 11)));
    // 1978: reverted — Nov 11 (Saturday → Friday Nov 10).
    assert!(settlement().is_holiday(ymd(1978, Month::Nov, 10)));
    assert!(!settlement().is_holiday(ymd(1978, Month::Oct, 23)));
    // Pre-1971: Nov 11 always (1970 Nov 11 was a Wednesday).
    assert!(settlement().is_holiday(ymd(1970, Month::Nov, 11)));
}

/// Columbus Day effective from 1971 by the market convention.
#[test]
fn columbus_effective_from_1971() {
    assert!(!settlement().is_holiday(ymd(1970, Month::Oct, 12))); // 2nd Monday 1970
    assert!(settlement().is_holiday(ymd(1971, Month::Oct, 11))); // 2nd Monday 1971
}

/// Weekend-shift regressions — common observed-date cases.
#[test]
fn weekend_shifts() {
    // Jul 4 2026 (Sat) observed Friday July 3.
    assert!(settlement().is_holiday(ymd(2026, Month::Jul, 3)));
    assert!(settlement().is_holiday(ymd(2026, Month::Jul, 4))); // natural date too
    // Christmas 2022 (Sun) observed Monday Dec 26.
    assert!(settlement().is_holiday(ymd(2022, Month::Dec, 26)));
    assert!(settlement().is_holiday(ymd(2022, Month::Dec, 25))); // natural date too
    // Jan 1 2022 (Sat) observed Friday Dec 31 2021 — cross-year.
    assert!(settlement().is_holiday(ymd(2021, Month::Dec, 31)));
}

#[test]
fn business_day_navigation_around_independence_day() {
    let wed = ymd(2024, Month::Jul, 3);
    assert_eq!(
        settlement().next_business_day(wed),
        Some(ymd(2024, Month::Jul, 5)),
    );
    let fri = ymd(2024, Month::Jul, 5);
    assert_eq!(
        settlement().prev_business_day(fri),
        Some(ymd(2024, Month::Jul, 3)),
    );
}
