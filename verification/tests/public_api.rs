//! The library as an external consumer sees it: only what the crate root
//! exports is reachable from here.

use std::str::FromStr;

use chrono::NaiveDate;

use fasti::{
    calendars, easter_monday, easter_sunday, Act360, Act365Fixed, ActActICMA, ActActISDA,
    BusinessDayConvention, Calendar, CalendarBuilder, Date, DayCount, EasterMethod, EasterOffset,
    FixedDate, Fraction, Frequency, Generation, LastWeekday, Month, NthWeekday, OneOff, Ordinal,
    Period, Rule, Schedule, ScheduleBuilder, Span, Stepper, Thirty360Bond, Thirty360European,
    Thirty360ISDA, Thirty360US, TimeError, Weekday, Weekend, Year, YearRange,
};

/// A realistic coupon-accrual workflow: build a schedule on a real
/// calendar, walk its periods, accrue each one, and scale a notional by
/// the result without ever touching a float.
#[test]
fn end_to_end_coupon_accrual() -> Result<(), TimeError> {
    let schedule = ScheduleBuilder::new(
        Date::from_ymd(2025, Month::Jan, 15)?,
        Date::from_ymd(2027, Month::Jan, 15)?,
        Period::Months(6),
        calendars::us::settlement(),
    )
    .backwards()
    .with_convention(BusinessDayConvention::ModifiedFollowing)
    .with_termination_convention(BusinessDayConvention::Unadjusted)
    .build()?;

    assert_eq!(schedule.dates().len(), 5);
    assert_eq!(schedule.periods().len(), 4);

    // Every accrual fraction is a positive rational, and the periods
    // tile the schedule without gaps.
    let mut total = Fraction::new(0, 1).expect("0/1 is a valid fraction");
    let mut cursor = schedule.dates()[0];
    for period in schedule.periods() {
        assert_eq!(period.start, cursor);
        let yf = ActActISDA.year_fraction(period.start, period.end);
        assert!(!yf.is_negative() && !yf.is_zero());
        total = total.checked_add(yf).expect("accruals do not overflow i64");
        cursor = period.end;
    }
    assert_eq!(cursor, *schedule.dates().last().expect("non-empty"));

    // Two years of semiannual coupons accrue to two years of ACT/ACT.
    let whole = ActActISDA.year_fraction(schedule.dates()[0], cursor);
    assert_eq!(total.cmp_cross(whole), std::cmp::Ordering::Equal);

    // Scaling a notional by an accrual stays exact: 10_000_000 * n/d.
    let (num, den) = whole.parts();
    // $10,000,000.00 in cents.
    let notional: i128 = 1_000_000_000;
    assert_eq!(notional * i128::from(num) / i128::from(den), notional * 2);
    Ok(())
}

/// Every day-count convention is constructible and callable from
/// outside, including the two that carry parameters.
#[test]
fn every_day_count_is_reachable() -> Result<(), TimeError> {
    let start = Date::from_ymd(2025, Month::Jan, 1)?;
    let end = Date::from_ymd(2025, Month::Jul, 1)?;

    let simple: [&dyn DayCount; 6] = [
        &Act360,
        &Act365Fixed,
        &ActActISDA,
        &Thirty360Bond,
        &Thirty360US,
        &Thirty360European,
    ];
    for dc in simple {
        assert!(!dc.name().is_empty(), "every convention names itself");
        let yf = dc.year_fraction(start, end);
        assert!(!yf.is_negative());
        // Half a year, give or take the convention's own day count.
        assert!(yf.numerator() > 0 && yf.denominator() > 0);
    }

    // Thirty360ISDA binds the termination date at construction.
    let isda = Thirty360ISDA::new(Date::from_ymd(2030, Month::Jan, 1)?);
    assert_eq!(isda.termination(), Date::from_ymd(2030, Month::Jan, 1)?);
    assert!(!isda.year_fraction(start, end).is_negative());

    // ActActICMA binds to a coupon schedule.
    let schedule = ScheduleBuilder::new(
        start,
        Date::from_ymd(2026, Month::Jan, 1)?,
        Period::Months(6),
        calendars::weekends_only(),
    )
    .build()?;
    let icma = ActActICMA::new(Frequency::Semiannual);
    assert_eq!(icma.frequency(), Frequency::Semiannual);
    let bound = icma.bind(&schedule)?;
    assert_eq!(bound.schedule().dates(), schedule.dates());
    assert_eq!(bound.year_fraction(start, end).parts(), (1, 2));
    Ok(())
}

/// Each built-in calendar is usable without setup, and each one disagrees
/// with the bare weekend baseline somewhere.
#[test]
fn built_in_calendars_are_const_and_distinct() -> Result<(), TimeError> {
    let calendars: [(&str, Calendar); 11] = [
        ("TARGET", calendars::target()),
        ("uk::settlement", calendars::uk::settlement()),
        ("us::settlement", calendars::us::settlement()),
        ("us::nyse", calendars::us::nyse()),
        ("us::federal_reserve", calendars::us::federal_reserve()),
        ("us::government_bond", calendars::us::government_bond()),
        ("us::sofr", calendars::us::sofr()),
        ("us::nerc", calendars::us::nerc()),
        ("france::settlement", calendars::france::settlement()),
        ("france::exchange", calendars::france::exchange()),
        ("weekends_only", calendars::weekends_only()),
    ];

    let year = Date::from_ymd(2026, Month::Jan, 1)?..Date::from_ymd(2027, Month::Jan, 1)?;
    for (name, cal) in calendars {
        let holidays = cal.holidays(year.clone()).len();
        if name == "weekends_only" {
            assert_eq!(holidays, 0, "the baseline has no holidays by definition");
        } else {
            assert!(holidays > 0, "{name} declared no 2026 holidays");
        }
    }

    // The null calendar has no weekend either: every day is a business day.
    assert_eq!(calendars::null_calendar().holidays(year.clone()).len(), 0);
    assert_eq!(calendars::null_calendar().business_days(year.clone()).len(), 365);
    Ok(())
}

/// A calendar built at runtime out of every rule variant.
#[test]
fn calendar_builder_composes_every_rule_variant() -> Result<(), TimeError> {
    let owned = CalendarBuilder::new("Test Market", Weekend::sat_sun())
        .with_rule(Rule::Fixed(FixedDate::new(Month::Jan, 1)))
        .with_rule(Rule::NthWeekday(NthWeekday::new(Ordinal::Third, Weekday::Mon, Month::Jan)))
        .with_rule(Rule::LastWeekday(LastWeekday::new(Weekday::Mon, Month::May)))
        .with_rule(Rule::Easter(EasterOffset::new(0)))
        .with_rule(Rule::OneOff(OneOff::new(Date::from_ymd(2026, Month::Sep, 14)?)))
        // Leap days, which only exist in leap years.
        .with_rule(Rule::Fixed(FixedDate::new(Month::Feb, 29)))
        .union(&calendars::us::settlement());

    let cal = owned.view();
    // `union` names the joint calendar after both sides.
    assert_eq!(cal.name, "Test Market + US settlement");
    assert!(cal.is_holiday(Date::from_ymd(2026, Month::Jan, 1)?));
    assert!(cal.is_holiday(Date::from_ymd(2026, Month::Jan, 19)?)); // 3rd Mon
    assert!(cal.is_holiday(Date::from_ymd(2026, Month::May, 25)?)); // last Mon
    assert!(cal.is_holiday(Date::from_ymd(2026, Month::Sep, 14)?)); // one-off
    assert!(cal.is_holiday(Date::from_ymd(2028, Month::Feb, 29)?)); // leap day
    // Inherited from the union with US settlement.
    assert!(cal.is_holiday(Date::from_ymd(2026, Month::Jul, 3)?));
    Ok(())
}

/// Business-day adjustment and advancement over a real calendar.
#[test]
fn business_day_conventions_round_a_holiday() -> Result<(), TimeError> {
    let cal = calendars::us::settlement();
    // Sat 2026-07-04 is observed on Fri 2026-07-03.
    let saturday = Date::from_ymd(2026, Month::Jul, 4)?;
    assert_eq!(saturday.weekday(), Weekday::Sat);
    assert!(cal.is_holiday(Date::from_ymd(2026, Month::Jul, 3)?));

    assert_eq!(
        cal.adjust(saturday, BusinessDayConvention::Following)?,
        Date::from_ymd(2026, Month::Jul, 6)?
    );
    assert_eq!(
        cal.adjust(saturday, BusinessDayConvention::Preceding)?,
        Date::from_ymd(2026, Month::Jul, 2)?
    );
    // ModifiedFollowing may not cross into August, but July has room.
    assert_eq!(
        cal.adjust(saturday, BusinessDayConvention::ModifiedFollowing)?,
        Date::from_ymd(2026, Month::Jul, 6)?
    );
    assert_eq!(
        cal.adjust(saturday, BusinessDayConvention::ModifiedPreceding)?,
        Date::from_ymd(2026, Month::Jul, 2)?
    );
    assert_eq!(cal.adjust(saturday, BusinessDayConvention::Unadjusted)?, saturday);

    let advanced = cal.advance(
        Date::from_ymd(2026, Month::Jul, 1)?,
        Period::Days(2),
        BusinessDayConvention::Following,
        false,
    )?;
    assert!(cal.is_business_day(advanced));
    Ok(())
}

/// Date primitives, parsing, and the arithmetic a caller reaches for first.
#[test]
fn date_primitives_from_outside() -> Result<(), TimeError> {
    let d = Date::from_str("2026-02-28")?;
    assert_eq!(d, Date::from_ymd(2026, Month::Feb, 28)?);
    assert_eq!(d.year(), Year::new(2026)?);
    assert_eq!(d.month(), Month::Feb);
    assert_eq!(d.day(), 28);
    assert_eq!(d.weekday(), Weekday::Sat);
    assert!(d.is_end_of_month());
    assert_eq!(d.add_days(1)?, Date::from_ymd(2026, Month::Mar, 1)?);
    assert_eq!(d.add_months(1)?, Date::from_ymd(2026, Month::Mar, 28)?);
    // `advance` carries the end-of-month flag that `add_months` does not.
    assert_eq!(d.advance(Period::Months(1), true)?, Date::from_ymd(2026, Month::Mar, 31)?);

    // Out-of-range inputs are errors, never panics.
    assert!(Date::from_ymd(1900, Month::Dec, 31).is_err());
    assert!(Date::from_ymd(2026, Month::Feb, 29).is_err());
    assert!(Date::from_str("not-a-date").is_err());
    assert_eq!(Year::new(2200), Err(TimeError::YearOutOfRange));

    // Spans of dates.
    let range = Date::from_ymd(2026, Month::Jan, 1)?..Date::from_ymd(2026, Month::Feb, 1)?;
    assert_eq!(Span::from(range.clone()).days(), 31);
    assert_eq!(calendars::null_calendar().business_days(range.clone()).len(), 31);
    let overlap = Date::from_ymd(2026, Month::Jan, 20)?..Date::from_ymd(2026, Month::Mar, 1)?;
    assert_eq!(
        Span::from(range).intersect(Span::from(overlap)),
        Some(Span::from(
            Date::from_ymd(2026, Month::Jan, 20)?..Date::from_ymd(2026, Month::Feb, 1)?
        ))
    );
    Ok(())
}

/// Easter, period arithmetic, weekends and year ranges — the smaller
/// exports, checked for reachability and one anchored value each.
#[test]
fn supporting_types_are_reachable() -> Result<(), TimeError> {
    // Both return a day-of-year, matching `Date::day_of_year`. Western
    // Easter Sunday 2026 is April 5; Easter Monday is April 6.
    assert_eq!(
        easter_sunday(Year::new(2026)?, EasterMethod::Western),
        Date::from_ymd(2026, Month::Apr, 5)?.day_of_year()
    );
    assert_eq!(
        easter_monday(Year::new(2026)?, EasterMethod::Western),
        Date::from_ymd(2026, Month::Apr, 6)?.day_of_year()
    );
    // Orthodox Easter 2026 falls on the same day; 2024 does not.
    assert_ne!(
        easter_sunday(Year::new(2024)?, EasterMethod::Western),
        easter_sunday(Year::new(2024)?, EasterMethod::Orthodox)
    );

    assert_eq!(Period::Months(12).normalized(), Period::Years(1));
    assert_eq!(Period::Months(6).checked_mul(2), Some(Period::Months(12)));
    assert_eq!(Frequency::Quarterly.per_year(), 4);

    assert!(Weekend::sat_sun().contains(Weekday::Sat));
    assert!(!Weekend::sat_sun().contains(Weekday::Fri));
    assert!(Weekend::from_weekdays(&[Weekday::Fri, Weekday::Sat]).contains(Weekday::Fri));
    assert!(!Weekend::none().contains(Weekday::Sun));

    let years = YearRange::try_between(Year::new(2000)?, Year::new(2030)?)?;
    assert!(years.contains(Year::new(2026)?));
    assert!(!years.contains(Year::new(2031)?));

    assert_eq!(Ordinal::try_from_u8(3)?, Ordinal::Third);
    assert_eq!(Month::try_from_u8(12)?, Month::Dec);
    assert_eq!(Weekday::try_from_u8(1)?, Weekday::Mon);
    Ok(())
}

/// `Generation` — the parameters a schedule was built from — is public
/// so callers can re-derive the coupon lattice a schedule sits on.
#[test]
fn schedule_exposes_its_generation() -> Result<(), TimeError> {
    let start = Date::from_ymd(2025, Month::Mar, 31)?;
    let schedule: Schedule = ScheduleBuilder::new(
        start,
        Date::from_ymd(2026, Month::Mar, 31)?,
        Period::Months(3),
        calendars::weekends_only(),
    )
    .with_end_of_month(true)
    .build()?;

    let generation: Generation = schedule.generation().expect("a generated schedule");
    assert_eq!(generation.tenor, Period::Months(3));
    assert!(generation.end_of_month);
    // The lattice steps in whole months from the anchor, not by chaining.
    assert_eq!(
        Stepper::new(start, generation.tenor, generation.end_of_month).step(1)?,
        Date::from_ymd(2025, Month::Jun, 30)?
    );
    assert_eq!(schedule.reference_dates().len() - 1, schedule.periods().len());
    Ok(())
}

/// The error type is inspectable and carries what a caller needs to fold
/// it into their own error enum.
#[derive(Debug)]
#[allow(dead_code)]
enum DownstreamError {
    Time(TimeError),
}

fn rendered(err: TimeError) -> String {
    err.to_string()
}

#[test]
fn errors_are_usable_downstream() {
    let err = Date::from_ymd(2026, Month::Feb, 30).unwrap_err();
    assert_eq!(err, TimeError::DayOutOfRange);

    // A message, Debug and equality — enough to fold into a downstream
    // error enum without reaching for anything private.
    assert!(!rendered(err).is_empty());
    assert_eq!(err, Date::from_ymd(2026, Month::Feb, 30).unwrap_err());

    let wrapped = DownstreamError::Time(err);
    assert!(matches!(wrapped, DownstreamError::Time(_)));
}

#[test]
fn chrono_conversions_work_at_the_boundary() -> Result<(), TimeError> {
    let naive = NaiveDate::from_ymd_opt(2026, 7, 4).expect("a real date");
    let date: Date = naive.try_into()?;
    assert_eq!(date, Date::from_ymd(2026, Month::Jul, 4)?);
    assert_eq!(NaiveDate::from(date), naive);

    // Outside the supported range the conversion fails rather than
    // saturating or panicking.
    let too_early = NaiveDate::from_ymd_opt(1899, 1, 1).expect("a real date");
    assert!(Date::try_from(too_early).is_err());
    Ok(())
}
