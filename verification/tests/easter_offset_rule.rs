use fasti::{Date, EasterOffset, Month, Year};

fn ymd(y: u16, m: Month, d: u8) -> Date {
    Date::from_ymd(y, m, d).unwrap()
}

#[test]
fn good_friday_anchors() {
    let rule = EasterOffset::good_friday();
    // 2024 Western Easter Sunday = March 31 → Good Friday = March 29.
    assert!(rule.is_holiday(ymd(2024, Month::Mar, 29)));
    assert!(!rule.is_holiday(ymd(2024, Month::Mar, 28)));
    // 2025 Western Easter Sunday = April 20 → Good Friday = April 18.
    assert!(rule.is_holiday(ymd(2025, Month::Apr, 18)));
    // 2026 Western Easter Sunday = April 5 → Good Friday = April 3.
    assert!(rule.is_holiday(ymd(2026, Month::Apr, 3)));
}

#[test]
fn easter_monday_anchors() {
    let rule = EasterOffset::easter_monday();
    // 2024: Easter Monday = April 1.
    assert!(rule.is_holiday(ymd(2024, Month::Apr, 1)));
    // 2026: Easter Monday = April 6.
    assert!(rule.is_holiday(ymd(2026, Month::Apr, 6)));
}

#[test]
fn ascension_whit_corpus_christi() {
    // 2024: Ascension May 9, Whit Monday May 20, Corpus Christi May 30.
    assert!(EasterOffset::ascension().is_holiday(ymd(2024, Month::May, 9)));
    assert!(EasterOffset::whit_monday().is_holiday(ymd(2024, Month::May, 20)));
    assert!(EasterOffset::corpus_christi().is_holiday(ymd(2024, Month::May, 30)));
}

#[test]
fn orthodox_method() {
    // 2024 Orthodox Easter Sunday = May 5 (Gregorian), Monday = May 6.
    let ortho_sunday = EasterOffset::new_orthodox(0);
    let ortho_monday = EasterOffset::new_orthodox(1);
    assert!(ortho_sunday.is_holiday(ymd(2024, Month::May, 5)));
    assert!(ortho_monday.is_holiday(ymd(2024, Month::May, 6)));
    // Western Easter Monday 2024 was April 1 — not an Orthodox match.
    assert!(!ortho_monday.is_holiday(ymd(2024, Month::Apr, 1)));
}

#[test]
fn easter_offset_year_range_filter() {
    let rule = EasterOffset::good_friday().from_year(Year::new(2025).unwrap());
    // 2024 Good Friday — excluded.
    assert!(!rule.is_holiday(ymd(2024, Month::Mar, 29)));
    // 2025 Good Friday — included.
    assert!(rule.is_holiday(ymd(2025, Month::Apr, 18)));
}

#[test]
fn rejects_unrelated_dates() {
    let rule = EasterOffset::easter_monday();
    // January dates are never Easter.
    assert!(!rule.is_holiday(ymd(2024, Month::Jan, 1)));
    // December dates are never Easter.
    assert!(!rule.is_holiday(ymd(2024, Month::Dec, 25)));
}
