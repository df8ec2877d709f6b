use fasti::calendars::us::nerc;
use fasti::{Date, Month};

fn ymd(y: u16, m: Month, d: u8) -> Date {
    Date::from_ymd(y, m, d).unwrap()
}

/// The six 2024 nerc() holidays.
#[test]
fn nerc_holidays_2024() {
    assert!(nerc().is_holiday(ymd(2024, Month::Jan, 1))); // New Year's
    assert!(nerc().is_holiday(ymd(2024, Month::May, 27))); // Memorial Day
    assert!(nerc().is_holiday(ymd(2024, Month::Jul, 4))); // Independence Day
    assert!(nerc().is_holiday(ymd(2024, Month::Sep, 2))); // Labor Day
    assert!(nerc().is_holiday(ymd(2024, Month::Nov, 28))); // Thanksgiving
    assert!(nerc().is_holiday(ymd(2024, Month::Dec, 25))); // Christmas
}

/// nerc() observes no MLK, no Washington's, no Juneteenth, no
/// Columbus, no Veterans Day.
#[test]
fn nerc_excludes_non_peak_holidays() {
    assert!(!nerc().is_holiday(ymd(2024, Month::Jan, 15))); // MLK
    assert!(!nerc().is_holiday(ymd(2024, Month::Feb, 19))); // Washington's
    assert!(!nerc().is_holiday(ymd(2024, Month::Jun, 19))); // Juneteenth
    assert!(!nerc().is_holiday(ymd(2024, Month::Oct, 14))); // Columbus
    assert!(!nerc().is_holiday(ymd(2024, Month::Nov, 11))); // Veterans
}

/// Sunday→Monday shift but Saturday natural dates are NOT observed the
/// prior Friday under NERC. The natural date itself stays a holiday.
#[test]
fn nerc_sunday_forward_only() {
    // Christmas 2022 (Sun) → observed Mon Dec 26; the Sunday itself is
    // still the holiday's natural date.
    assert!(nerc().is_holiday(ymd(2022, Month::Dec, 26)));
    assert!(nerc().is_holiday(ymd(2022, Month::Dec, 25)));
    assert!(!nerc().is_business_day(ymd(2022, Month::Dec, 25)));
    // Jul 4 2026 (Sat) → NO Friday observance under NERC.
    assert!(!nerc().is_holiday(ymd(2026, Month::Jul, 3)));
    // Jul 4 2026 itself is Saturday, not a business day.
    assert!(!nerc().is_business_day(ymd(2026, Month::Jul, 4)));
}
