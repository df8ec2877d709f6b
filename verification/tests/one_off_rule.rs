use fasti::{Date, Month, OneOff};

#[test]
fn matches_exact_date_only() {
    let target = Date::from_ymd(2026, Month::Aug, 15).unwrap();
    let rule = OneOff::new(target);
    assert!(rule.is_holiday(target));
    assert!(!rule.is_holiday(Date::from_ymd(2026, Month::Aug, 14).unwrap()));
    assert!(!rule.is_holiday(Date::from_ymd(2026, Month::Aug, 16).unwrap()));
}
