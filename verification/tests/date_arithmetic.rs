use fasti::{Date, Month, Ordinal, Period, TimeError, Weekday};
#[test]
fn epoch_is_1901_01_01_tuesday() {
    let d = Date::min();
    assert_eq!(d.serial(), 0);
    assert_eq!(d.year().get(), 1901);
    assert_eq!(d.month(), Month::Jan);
    assert_eq!(d.day(), 1);
    assert_eq!(d.weekday(), Weekday::Tue);
}

#[test]
fn max_is_2199_12_31() {
    let d = Date::max();
    assert_eq!(d.year().get(), 2199);
    assert_eq!(d.month(), Month::Dec);
    assert_eq!(d.day(), 31);
}

#[test]
fn from_ymd_rejects_out_of_range_year() {
    assert_eq!(
        Date::from_ymd(1900, Month::Jan, 1),
        Err(TimeError::YearOutOfRange)
    );
    assert_eq!(
        Date::from_ymd(2200, Month::Jan, 1),
        Err(TimeError::YearOutOfRange)
    );
}

#[test]
fn from_ymd_rejects_day_zero_and_overflow() {
    assert_eq!(
        Date::from_ymd(2026, Month::Jan, 0),
        Err(TimeError::DayOutOfRange)
    );
    assert_eq!(
        Date::from_ymd(2026, Month::Jan, 32),
        Err(TimeError::DayOutOfRange)
    );
    assert_eq!(
        Date::from_ymd(2026, Month::Apr, 31),
        Err(TimeError::DayOutOfRange)
    );
}

#[test]
fn february_leap_year_behavior() {
    // 2000 is a leap year (divisible by 400).
    assert!(Date::from_ymd(2000, Month::Feb, 29).is_ok());
    // 2100 is NOT a leap year (divisible by 100, not 400).
    assert_eq!(
        Date::from_ymd(2100, Month::Feb, 29),
        Err(TimeError::DayOutOfRange)
    );
    // 2024 is a leap year (divisible by 4, not 100).
    assert!(Date::from_ymd(2024, Month::Feb, 29).is_ok());
    // 2026 is not a leap year.
    assert_eq!(
        Date::from_ymd(2026, Month::Feb, 29),
        Err(TimeError::DayOutOfRange)
    );
}

#[test]
fn known_weekdays() {
    // Anchors independently verifiable.
    assert_eq!(
        Date::from_ymd(1901, Month::Jan, 1).unwrap().weekday(),
        Weekday::Tue,
    );
    assert_eq!(
        Date::from_ymd(2000, Month::Jan, 1).unwrap().weekday(),
        Weekday::Sat,
    );
    assert_eq!(
        Date::from_ymd(2026, Month::Jul, 4).unwrap().weekday(),
        Weekday::Sat,
    );
    assert_eq!(
        Date::from_ymd(2021, Month::Jun, 19).unwrap().weekday(),
        Weekday::Sat,
    );
    assert_eq!(
        Date::from_ymd(2199, Month::Dec, 31).unwrap().weekday(),
        Weekday::Tue,
    );
}

#[test]
fn day_of_year_boundaries() {
    assert_eq!(
        Date::from_ymd(2024, Month::Jan, 1).unwrap().day_of_year(),
        1,
    );
    assert_eq!(
        Date::from_ymd(2024, Month::Dec, 31).unwrap().day_of_year(),
        366, // leap
    );
    assert_eq!(
        Date::from_ymd(2025, Month::Dec, 31).unwrap().day_of_year(),
        365,
    );
}

#[test]
fn add_days_at_boundaries() {
    assert_eq!(Date::min().add_days(-1), Err(TimeError::DateOutOfRange));
    assert_eq!(Date::max().add_days(1), Err(TimeError::DateOutOfRange));
    let d = Date::from_ymd(2026, Month::Feb, 28).unwrap();
    assert_eq!(
        d.add_days(1).unwrap(),
        Date::from_ymd(2026, Month::Mar, 1).unwrap()
    );
    let leap = Date::from_ymd(2024, Month::Feb, 28).unwrap();
    assert_eq!(
        leap.add_days(1).unwrap(),
        Date::from_ymd(2024, Month::Feb, 29).unwrap()
    );
}

#[test]
fn display_is_iso_8601() {
    let d = Date::from_ymd(2026, Month::Jul, 4).unwrap();
    assert_eq!(d.to_string(), "2026-07-04");
}

#[test]
fn weekday_iso_numbering() {
    assert_eq!(Weekday::Mon.get(), 1);
    assert_eq!(Weekday::Sun.get(), 7);
    assert_eq!(Weekday::try_from_u8(1).unwrap(), Weekday::Mon);
    assert_eq!(Weekday::try_from_u8(7).unwrap(), Weekday::Sun);
    assert_eq!(Weekday::try_from_u8(0), Err(TimeError::WeekdayOutOfRange));
    assert_eq!(Weekday::try_from_u8(8), Err(TimeError::WeekdayOutOfRange));
}

#[test]
fn ordinal_display() {
    assert_eq!(Ordinal::First.to_string(), "First");
    assert_eq!(Ordinal::Fifth.to_string(), "Fifth");
}

#[test]
fn from_str_parses_display_output() {
    for (y, m, d) in [
        (1901u16, Month::Jan, 1u8),
        (2026, Month::Jul, 4),
        (2024, Month::Feb, 29),
        (2199, Month::Dec, 31),
    ] {
        let date = Date::from_ymd(y, m, d).unwrap();
        let parsed: Date = date.to_string().parse().unwrap();
        assert_eq!(parsed, date);
    }
}

#[test]
fn from_str_rejects_malformed_strings() {
    for bad in [
        "",
        "2026",
        "2026-07",
        "2026-7-4",    // not zero-padded
        "26-07-04",    // two-digit year
        "2026/07/04",  // wrong separator
        "2026-07-04T", // trailing content
        " 2026-07-04", // leading whitespace
        "2026-07-04 ", // trailing whitespace
        "+026-07-04",  // sign
        "2026-0a-04",  // non-digit
        "٢٠٢٦-07-04",  // non-ASCII digits
    ] {
        assert_eq!(
            bad.parse::<Date>(),
            Err(TimeError::InvalidDateString),
            "{bad:?} should be rejected as malformed",
        );
    }
}

#[test]
fn from_str_surfaces_range_errors_for_well_formed_input() {
    assert_eq!("1900-12-31".parse::<Date>(), Err(TimeError::YearOutOfRange));
    assert_eq!("2200-01-01".parse::<Date>(), Err(TimeError::YearOutOfRange));
    assert_eq!(
        "2026-13-01".parse::<Date>(),
        Err(TimeError::MonthOutOfRange)
    );
    assert_eq!(
        "2026-00-01".parse::<Date>(),
        Err(TimeError::MonthOutOfRange)
    );
    assert_eq!("2026-02-30".parse::<Date>(), Err(TimeError::DayOutOfRange));
    assert_eq!("2026-01-00".parse::<Date>(), Err(TimeError::DayOutOfRange));
}

#[test]
fn to_ymd_matches_individual_accessors() {
    let d = Date::from_ymd(2026, Month::Jul, 4).unwrap();
    let (y, m, dom) = d.to_ymd();
    assert_eq!(y, d.year());
    assert_eq!(m, d.month());
    assert_eq!(dom, d.day());
}

// ---- sampled property checks --------------------------------------

const MAX_SERIAL: u32 = 109_207;

/// A deterministic spread of `n` values in `lo..=hi`.
fn spread(n: u64, lo: i64, hi: i64) -> Vec<i64> {
    let width = (hi - lo + 1) as u64;
    let mut state: u64 = 0x2545_f491_4f6c_dd1d;
    let mut out = vec![lo, hi];
    for _ in 0..n {
        state = state.wrapping_mul(6_364_136_223_846_793_005).wrapping_add(1_442_695_040_888_963_407);
        out.push(lo + ((state >> 17) % width) as i64);
    }
    out
}

fn serials(n: u64) -> Vec<u32> {
    spread(n, 0, i64::from(MAX_SERIAL)).into_iter().map(|s| s as u32).collect()
}

#[test]
fn from_ymd_round_trips() {
    for s in serials(500) {
        let d = Date::from_serial(s).unwrap();
        let (year, month, day) = (d.year().get(), d.month(), d.day());
        let rebuilt = Date::from_ymd(year, month, day).expect("valid ymd");
        assert_eq!(rebuilt.year().get(), year);
        assert_eq!(rebuilt.month(), month);
        assert_eq!(rebuilt.day(), day);
    }
}

#[test]
fn serial_round_trips() {
    for serial in serials(500) {
        let d = Date::from_serial(serial).expect("in range");
        assert_eq!(d.serial(), serial);
        let ymd = Date::from_ymd(d.year().get(), d.month(), d.day()).expect("valid");
        assert_eq!(ymd.serial(), serial);
    }
}

#[test]
fn weekday_advances_by_one_per_day() {
    for serial in serials(500) {
        if serial == MAX_SERIAL {
            continue;
        }
        let today = Date::from_serial(serial).expect("in range");
        let tomorrow = today.add_days(1).expect("in range");
        let expected = match today.weekday() {
            Weekday::Mon => Weekday::Tue,
            Weekday::Tue => Weekday::Wed,
            Weekday::Wed => Weekday::Thu,
            Weekday::Thu => Weekday::Fri,
            Weekday::Fri => Weekday::Sat,
            Weekday::Sat => Weekday::Sun,
            Weekday::Sun => Weekday::Mon,
        };
        assert_eq!(tomorrow.weekday(), expected);
    }
}

#[test]
fn add_days_is_inverse_of_days_since() {
    let all = serials(60);
    for &a_serial in &all {
        for &b_serial in &all {
            let a = Date::from_serial(a_serial).unwrap();
            let b = Date::from_serial(b_serial).unwrap();
            let diff = b.days_since(a);
            assert_eq!(a.add_days(diff).unwrap(), b);
        }
    }
}

#[test]
fn day_of_year_is_consistent() {
    for s in serials(500) {
        let d = Date::from_serial(s).unwrap();
        let year_start = Date::from_ymd(d.year().get(), Month::Jan, 1).expect("valid");
        assert_eq!(u16::try_from(d.days_since(year_start) + 1).unwrap(), d.day_of_year());
    }
}

#[test]
fn month_try_from_u8_round_trips() {
    for m in 1u8..=12 {
        let parsed = Month::try_from_u8(m).expect("1..=12");
        assert_eq!(parsed.get(), m);
    }
}

#[test]
fn weekday_try_from_u8_round_trips() {
    for n in 1u8..=7 {
        let parsed = Weekday::try_from_u8(n).expect("1..=7");
        assert_eq!(parsed.get(), n);
    }
}

#[test]
fn ordinal_try_from_u8_round_trips() {
    for n in 1u8..=5 {
        let parsed = Ordinal::try_from_u8(n).expect("1..=5");
        assert_eq!(parsed.get(), n);
    }
}

#[test]
fn add_days_accepts_iff_result_in_range() {
    let ns: Vec<i64> = spread(40, i64::from(i32::MIN), i64::from(i32::MAX))
        .into_iter()
        .chain(spread(40, -120_000, 120_000))
        .collect();
    for serial in serials(40) {
        for &n in &ns {
            let n = n as i32;
            let d = Date::from_serial(serial).expect("in range");
            let result = d.add_days(n);
            let target = i64::from(serial) + i64::from(n);
            let in_range = (0..=i64::from(MAX_SERIAL)).contains(&target);
            assert_eq!(result.is_ok(), in_range);
            if in_range {
                assert_eq!(
                    result.expect("in-range").serial(),
                    u32::try_from(target).expect("fits in u32"),
                );
            } else {
                assert_eq!(result, Err(TimeError::DateOutOfRange));
            }
        }
    }
}

#[test]
fn to_ymd_round_trips() {
    for serial in serials(500) {
        let d = Date::from_serial(serial).expect("in range");
        let (y, m, dom) = d.to_ymd();
        let rebuilt = Date::from_ymd(y.get(), m, dom).expect("valid");
        assert_eq!(rebuilt.serial(), serial);
    }
}

/// Every date's `to_string` output parses back to the same date.
#[test]
fn display_and_from_str_round_trip() {
    for serial in serials(500) {
        let d = Date::from_serial(serial).expect("in range");
        let parsed: Date = d.to_string().parse().expect("text output is valid");
        assert_eq!(parsed, d);
    }
}

/// `add_months(n)` then `add_months(-n)` round-trips exactly for day ≤ 28 (never clamped).
#[test]
fn add_months_round_trip_on_safe_days() {
    for year in (1910u16..=2190).step_by(7) {
        for month in 1u8..=12 {
            for day in [1u8, 13, 28] {
                for n in spread(12, -500, 500) {
                    let n = n as i32;
                    let parsed_month = Month::try_from_u8(month).expect("1..=12");
                    let start = Date::from_ymd(year, parsed_month, day).expect("valid");
                    if let Ok(stepped) = start.add_months(n) {
                        if let Ok(restored) = stepped.add_months(-n) {
                            assert_eq!(restored, start);
                        }
                    }
                }
            }
        }
    }
}

/// `add_months(n)` equals `add_years(n/12)` then `add_months(n%12)` for day ≤ 28;
/// the year range keeps intermediates in range.
#[test]
fn add_months_decomposes_into_years_plus_months() {
    for year in (1921u16..=2179).step_by(11) {
        for month in [1u8, 2, 6, 11, 12] {
            for day in [1u8, 28] {
                for whole_years in [-20i32, -3, 0, 1, 20] {
                    for extra_months in [-11i32, -1, 0, 5, 11] {
                        let parsed_month = Month::try_from_u8(month).expect("1..=12");
                        let start = Date::from_ymd(year, parsed_month, day).expect("valid");
                        let direct = start.add_months(whole_years * 12 + extra_months);
                        let stepped = start
                            .add_years(whole_years)
                            .and_then(|x| x.add_months(extra_months));
                        assert_eq!(direct, stepped);
                    }
                }
            }
        }
    }
}

/// `add_months` never yields a day past the target month's length.
#[test]
fn add_months_never_exceeds_target_month_length() {
    for serial in serials(200) {
        for n in spread(10, -200, 200) {
            let d = Date::from_serial(serial).expect("in range");
            if let Ok(out) = d.add_months(n as i32) {
                let (y, m, dom) = out.to_ymd();
                assert!(dom <= m.length(y));
                assert!(dom >= 1);
            }
        }
    }
}

/// `end_of_month` is idempotent.
#[test]
fn end_of_month_is_idempotent() {
    for serial in serials(500) {
        let d = Date::from_serial(serial).expect("in range");
        assert_eq!(d.end_of_month(), d.end_of_month().end_of_month());
        assert!(d.end_of_month().is_end_of_month());
    }
}

/// `date + Period::Days(n)` matches `date.add_days(n)`.
#[test]
fn add_period_days_matches_add_days() {
    for serial in serials(100) {
        for n in spread(10, -10_000, 10_000) {
            let start = Date::from_serial(serial).expect("in range");
            assert_eq!(start + Period::Days(n as i32), start.add_days(n as i32));
        }
    }
}

/// `date + Period::Weeks(n)` matches `date.add_days(n * 7)`
/// (modulo overflow on the multiplication).
#[test]
fn add_period_weeks_equals_add_days_times_seven() {
    for serial in serials(100) {
        for n in spread(10, i64::from(i32::MIN / 7), i64::from(i32::MAX / 7))
            .into_iter()
            .chain(spread(10, -20_000, 20_000))
        {
            let n = n as i32;
            let start = Date::from_serial(serial).expect("in range");
            assert_eq!(start + Period::Weeks(n), start.add_days(n * 7));
        }
    }
}

/// `date + Period::Months(n)` matches `date.add_months(n)`.
#[test]
fn add_period_months_matches_add_months() {
    for serial in serials(100) {
        for n in spread(10, -200, 200) {
            let start = Date::from_serial(serial).expect("in range");
            assert_eq!(start + Period::Months(n as i32), start.add_months(n as i32));
        }
    }
}

/// `date + Period::Years(n)` matches `date.add_years(n)`.
#[test]
fn add_period_years_matches_add_years() {
    for serial in serials(100) {
        for n in spread(10, -100, 100) {
            let start = Date::from_serial(serial).expect("in range");
            assert_eq!(start + Period::Years(n as i32), start.add_years(n as i32));
        }
    }
}

/// `(date - period)` equals `(date + (-period))` for every
/// non-`i32::MIN` length.
#[test]
fn sub_period_equals_add_negated_period() {
    for serial in serials(40) {
        for length in spread(20, i64::from(i32::MIN) + 1, i64::from(i32::MAX))
            .into_iter()
            .chain(spread(20, -3000, 3000))
        {
            for unit_idx in 0u8..=3 {
                let length = length as i32;
                let p = match unit_idx {
                    0 => Period::Days(length),
                    1 => Period::Weeks(length),
                    2 => Period::Months(length),
                    _ => Period::Years(length),
                };
                let start = Date::from_serial(serial).expect("in range");
                assert_eq!(start - p, start + (-p));
            }
        }
    }
}


// ---- example-based tests for month/year arithmetic -----------------

#[test]
fn add_months_clamps_to_target_month_length() {
    let jan31 = Date::from_ymd(2026, Month::Jan, 31).unwrap();
    assert_eq!(
        jan31.add_months(1).unwrap(),
        Date::from_ymd(2026, Month::Feb, 28).unwrap()
    );
    // Leap year: Jan 31 2024 + 1M → Feb 29.
    let jan31_leap = Date::from_ymd(2024, Month::Jan, 31).unwrap();
    assert_eq!(
        jan31_leap.add_months(1).unwrap(),
        Date::from_ymd(2024, Month::Feb, 29).unwrap()
    );
    // May 31 + 1M → Jun 30 (no May 31 + 1M = Jun 31).
    let may31 = Date::from_ymd(2026, Month::May, 31).unwrap();
    assert_eq!(
        may31.add_months(1).unwrap(),
        Date::from_ymd(2026, Month::Jun, 30).unwrap()
    );
}

/// Clamp-on-add-months is not composable across end-of-month dates:
/// `Jan 31 → Feb 28 → Mar 28` differs from `Jan 31 → Mar 31`.
#[test]
fn add_months_clamp_is_not_composable_across_eom() {
    let jan31 = Date::from_ymd(2026, Month::Jan, 31).unwrap();
    // Two single-month hops: 31 → 28 → 28. Day-of-month sticks at 28.
    let two_hops = jan31.add_months(1).unwrap().add_months(1).unwrap();
    assert_eq!(two_hops, Date::from_ymd(2026, Month::Mar, 28).unwrap());
    // One two-month hop: 31 → 31 (March has 31 days).
    let single_hop = jan31.add_months(2).unwrap();
    assert_eq!(single_hop, Date::from_ymd(2026, Month::Mar, 31).unwrap());
    // The two paths disagree by 3 days.
    assert_ne!(two_hops, single_hop);
}

#[test]
fn add_months_crosses_year_boundaries() {
    let nov15 = Date::from_ymd(2026, Month::Nov, 15).unwrap();
    assert_eq!(
        nov15.add_months(3).unwrap(),
        Date::from_ymd(2027, Month::Feb, 15).unwrap()
    );
    assert_eq!(
        nov15.add_months(-11).unwrap(),
        Date::from_ymd(2025, Month::Dec, 15).unwrap()
    );
}

#[test]
fn add_months_zero_is_identity() {
    let d = Date::from_ymd(2026, Month::Jul, 4).unwrap();
    assert_eq!(d.add_months(0).unwrap(), d);
}

#[test]
fn add_months_refuses_out_of_range_result() {
    assert_eq!(Date::max().add_months(1), Err(TimeError::DateOutOfRange));
    assert_eq!(Date::min().add_months(-1), Err(TimeError::DateOutOfRange));
}

#[test]
fn add_years_clamps_feb_29_in_non_leap_target() {
    let feb29 = Date::from_ymd(2024, Month::Feb, 29).unwrap();
    assert_eq!(
        feb29.add_years(1).unwrap(),
        Date::from_ymd(2025, Month::Feb, 28).unwrap()
    );
    assert_eq!(
        feb29.add_years(4).unwrap(),
        Date::from_ymd(2028, Month::Feb, 29).unwrap()
    );
}

#[test]
fn end_of_month_examples() {
    // Jan 15 2024 → Jan 31 2024.
    let d = Date::from_ymd(2024, Month::Jan, 15).unwrap();
    assert_eq!(
        d.end_of_month(),
        Date::from_ymd(2024, Month::Jan, 31).unwrap()
    );
    // Feb 10 2024 (leap) → Feb 29 2024.
    let d = Date::from_ymd(2024, Month::Feb, 10).unwrap();
    assert_eq!(
        d.end_of_month(),
        Date::from_ymd(2024, Month::Feb, 29).unwrap()
    );
    // Feb 10 2025 (non-leap) → Feb 28 2025.
    let d = Date::from_ymd(2025, Month::Feb, 10).unwrap();
    assert_eq!(
        d.end_of_month(),
        Date::from_ymd(2025, Month::Feb, 28).unwrap()
    );
    // Dec 31 2199 (max) is already EoM.
    assert_eq!(Date::max().end_of_month(), Date::max());
    // Jan 1 1901 (min) → Jan 31 1901.
    assert_eq!(
        Date::min().end_of_month(),
        Date::from_ymd(1901, Month::Jan, 31).unwrap()
    );
}

#[test]
fn is_end_of_month_examples() {
    assert!(
        Date::from_ymd(2024, Month::Feb, 29)
            .unwrap()
            .is_end_of_month()
    );
    assert!(
        !Date::from_ymd(2024, Month::Feb, 28)
            .unwrap()
            .is_end_of_month()
    );
    assert!(
        Date::from_ymd(2025, Month::Feb, 28)
            .unwrap()
            .is_end_of_month()
    );
    assert!(
        Date::from_ymd(2026, Month::Apr, 30)
            .unwrap()
            .is_end_of_month()
    );
    assert!(
        Date::from_ymd(2026, Month::May, 31)
            .unwrap()
            .is_end_of_month()
    );
}

#[test]
fn add_period_dispatches_by_unit() {
    let start = Date::from_ymd(2026, Month::Jan, 15).unwrap();
    assert_eq!(
        (start + Period::Days(1)).unwrap(),
        Date::from_ymd(2026, Month::Jan, 16).unwrap()
    );
    assert_eq!(
        (start + Period::Weeks(2)).unwrap(),
        Date::from_ymd(2026, Month::Jan, 29).unwrap()
    );
    assert_eq!(
        (start + Period::Months(3)).unwrap(),
        Date::from_ymd(2026, Month::Apr, 15).unwrap()
    );
    assert_eq!(
        (start + Period::Years(1)).unwrap(),
        Date::from_ymd(2027, Month::Jan, 15).unwrap()
    );
}

#[test]
fn sub_period_steps_backward() {
    let start = Date::from_ymd(2026, Month::Jul, 15).unwrap();
    assert_eq!(
        (start - Period::Months(6)).unwrap(),
        Date::from_ymd(2026, Month::Jan, 15).unwrap(),
    );
    // Sub on a negative period steps forward.
    assert_eq!(
        (start - (-Period::Months(6))).unwrap(),
        Date::from_ymd(2027, Month::Jan, 15).unwrap(),
    );
}
