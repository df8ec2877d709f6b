use std::ops::Range;

use fasti::{Date, Month, Span};

fn ymd(y: u16, m: Month, d: u8) -> Date {
    Date::from_ymd(y, m, d).unwrap()
}

#[test]
fn behaves_as_a_half_open_range() {
    let span = Span::from(ymd(2025, Month::Jan, 1)..ymd(2025, Month::Apr, 1));
    assert!(span.contains(&ymd(2025, Month::Jan, 1))); // start included
    assert!(span.contains(&ymd(2025, Month::Mar, 31)));
    assert!(!span.contains(&ymd(2025, Month::Apr, 1))); // end excluded
    assert_eq!(span.days(), 90);
    assert_eq!(
        Range::from(span),
        ymd(2025, Month::Jan, 1)..ymd(2025, Month::Apr, 1)
    );
}

#[test]
fn intersect_shares_days_only() {
    let span = Span::from(ymd(2025, Month::Jan, 1)..ymd(2025, Month::Apr, 1));
    assert_eq!(
        span.intersect(Span::from(
            ymd(2025, Month::Mar, 1)..ymd(2025, Month::Jun, 1)
        )),
        Some(Span::from(
            ymd(2025, Month::Mar, 1)..ymd(2025, Month::Apr, 1)
        )),
    );
    // Disjoint.
    assert_eq!(
        span.intersect(Span::from(
            ymd(2025, Month::Jun, 1)..ymd(2025, Month::Jul, 1)
        )),
        None,
    );
    // Touching at a boundary shares no days.
    assert_eq!(
        span.intersect(Span::from(
            ymd(2025, Month::Apr, 1)..ymd(2025, Month::May, 1)
        )),
        None,
    );
}
