//! Day-count conventions: how many days lie between two dates, and what
//! fraction of a year they make. Every convention is signed by direction:
//! swapping the dates negates both the count and the fraction.

use vstd::prelude::*;

use crate::date::{days_in_month, days_in_year, valid_serial, year_start, ymd_of, Date, Month};
use crate::error::TimeError;
use crate::fraction::{abs_int, is_reduced, reduce, sum_of, Fraction};
use crate::period::{normalized_of, Frequency, Period};
use crate::schedule::{serials, step_serial, Schedule, Stepper};

verus! {

/// A day-count convention.
pub trait DayCount {
    /// The convention's conventional name.
    fn name(&self) -> &'static str;

    /// Days between `start` and `end`, signed by direction.
    fn day_count(&self, start: Date, end: Date) -> i64;

    /// Year fraction between `start` and `end`, signed by direction.
    fn year_fraction(&self, start: Date, end: Date) -> Fraction;
}

/// `days / basis`, reduced.
fn basis_fraction(days: i64, basis: u64) -> (r: Fraction)
    requires
        basis > 0,
    ensures
        r@ == reduce(days as int, basis as int),
{
    match Fraction::new(days, basis) {
        Ok(f) => f,
        Err(_) => Fraction::zero(),
    }
}

/// The actual-days fraction from serial `s` to serial `e` over a fixed
/// `basis` of days a year.
pub open spec fn act_fraction(s: int, e: int, basis: int) -> (int, int) {
    reduce(e - s, basis)
}

/// The 30/360 fraction from serial `s` to serial `e` for an ordered
/// `count`, signed by direction.
pub open spec fn thirty_fraction(s: int, e: int, count: spec_fn(int, int) -> int) -> (int, int) {
    reduce(signed_count(s, e, count), 360)
}

// ---- ACT family ---------------------------------------------------------

/// Actual/360: actual days over a 360-day year.
#[derive(Debug, Clone, Copy, Default, PartialEq, Eq, Hash)]
pub struct Act360;

impl DayCount for Act360 {
    fn name(&self) -> (r: &'static str)
        ensures
            r@ == "Actual/360"@,
    {
        "Actual/360"
    }

    fn day_count(&self, start: Date, end: Date) -> (r: i64)
        ensures
            r == end@ - start@,
    {
        end.days_since(start) as i64
    }

    fn year_fraction(&self, start: Date, end: Date) -> (r: Fraction)
        ensures
            r@ == act_fraction(start@, end@, 360),
    {
        basis_fraction(self.day_count(start, end), 360)
    }
}

/// Actual/365 (Fixed): actual days over a 365-day year.
#[derive(Debug, Clone, Copy, Default, PartialEq, Eq, Hash)]
pub struct Act365Fixed;

impl DayCount for Act365Fixed {
    fn name(&self) -> (r: &'static str)
        ensures
            r@ == "Actual/365 (Fixed)"@,
    {
        "Actual/365 (Fixed)"
    }

    fn day_count(&self, start: Date, end: Date) -> (r: i64)
        ensures
            r == end@ - start@,
    {
        end.days_since(start) as i64
    }

    fn year_fraction(&self, start: Date, end: Date) -> (r: Fraction)
        ensures
            r@ == act_fraction(start@, end@, 365),
    {
        basis_fraction(self.day_count(start, end), 365)
    }
}

/// Actual/Actual (ISDA): the days falling in each calendar year, each
/// over that year's length.
#[derive(Debug, Clone, Copy, Default, PartialEq, Eq, Hash)]
pub struct ActActISDA;

/// The Actual/Actual (ISDA) fraction from serial `s` to serial `e`,
/// signed by direction.
pub open spec fn isda_fraction(s: int, e: int) -> (int, int) {
    if s <= e {
        reduce(isda_parts(s, e).0, isda_parts(s, e).1)
    } else {
        (-reduce(isda_parts(e, s).0, isda_parts(e, s).1).0, reduce(isda_parts(e, s).0, isda_parts(e, s).1).1)
    }
}

/// The unreduced ISDA fraction from serial `s` to serial `e >= s`: whole
/// years in between count 1, the first and last partial years count their
/// days over their own lengths.
pub open spec fn isda_parts(s: int, e: int) -> (int, int) {
    let y1 = ymd_of(s).0;
    let y2 = ymd_of(e).0;
    if s == e {
        (0, 1)
    } else if y1 == y2 {
        (e - s, days_in_year(y1))
    } else {
        let n = y2 - y1 - 1;
        let dib1 = days_in_year(y1);
        let dib2 = days_in_year(y2);
        let a = year_start(y1 + 1) - s;
        let b = e - year_start(y2);
        (n * dib1 * dib2 + a * dib2 + b * dib1, dib1 * dib2)
    }
}

impl ActActISDA {
    /// The ISDA fraction of an ordered span `start <= end`.
    pub fn ordered_year_fraction(start: Date, end: Date) -> (r: Fraction)
        requires
            start@ <= end@,
        ensures
            r@ == reduce(isda_parts(start@, end@).0, isda_parts(start@, end@).1),
    {
        if start.serial() == end.serial() {
            proof {
                assert(crate::fraction::gcd(0, 1) == crate::fraction::gcd(1, 0));
                crate::fraction::lemma_reduce_reduced(0, 1);
            }
            return Fraction::zero();
        }
        let y1 = start.year();
        let y2 = end.year();
        if y1.get() == y2.get() {
            return basis_fraction(end.days_since(start) as i64, y1.length() as u64);
        }
        proof {
            lemma_isda_parts_bounded(start@, end@);
            lemma_isda_years(start@, end@);
        }
        let n: i64 = y2.get() as i64 - y1.get() as i64 - 1;
        let dib1: i64 = y1.length() as i64;
        let dib2: i64 = y2.length() as i64;
        let next_year_start = match Date::from_ymd(y1.get() + 1, Month::Jan, 1) {
            Ok(d) => d,
            Err(_) => return Fraction::zero(),
        };
        let this_year_start = match Date::from_ymd(y2.get(), Month::Jan, 1) {
            Ok(d) => d,
            Err(_) => return Fraction::zero(),
        };
        let a = next_year_start.days_since(start) as i64;
        let b = end.days_since(this_year_start) as i64;
        proof {
            assert(0 <= n <= 298);
            assert(0 < dib1 * dib2 <= 366 * 366) by (nonlinear_arith)
                requires
                    0 < dib1 <= 366,
                    0 < dib2 <= 366,
            ;
            assert(0 <= n * dib1 <= 298 * 366) by (nonlinear_arith)
                requires
                    0 <= n <= 298,
                    0 < dib1 <= 366,
            ;
            assert(0 <= n * dib1 * dib2 <= 298 * 366 * 366) by (nonlinear_arith)
                requires
                    0 <= n <= 298,
                    0 < dib1 <= 366,
                    0 < dib2 <= 366,
            ;
            assert(0 <= a * dib2 <= 366 * 366 && 0 <= b * dib1 <= 366 * 366) by (nonlinear_arith)
                requires
                    0 < a <= 366,
                    0 <= b <= 366,
                    0 < dib1 <= 366,
                    0 < dib2 <= 366,
            ;
        }
        basis_fraction(n * dib1 * dib2 + a * dib2 + b * dib1, (dib1 * dib2) as u64)
    }
}

impl DayCount for ActActISDA {
    fn name(&self) -> (r: &'static str)
        ensures
            r@ == "Actual/Actual (ISDA)"@,
    {
        "Actual/Actual (ISDA)"
    }

    fn day_count(&self, start: Date, end: Date) -> (r: i64)
        ensures
            r == end@ - start@,
    {
        end.days_since(start) as i64
    }

    fn year_fraction(&self, start: Date, end: Date) -> (r: Fraction)
        ensures
            r@ == isda_fraction(start@, end@),
    {
        if start.serial() <= end.serial() {
            ActActISDA::ordered_year_fraction(start, end)
        } else {
            let f = ActActISDA::ordered_year_fraction(end, start);
            proof {
                lemma_isda_parts_bounded(end@, start@);
                crate::fraction::lemma_reduce(
                    isda_parts(end@, start@).0,
                    isda_parts(end@, start@).1,
                );
            }
            match f.checked_neg() {
                Some(g) => g,
                None => Fraction::zero(),
            }
        }
    }
}

/// Distinct years of an ordered span are ordered, and the partial years
/// at either end are proper.
proof fn lemma_isda_years(s: int, e: int)
    requires
        crate::date::valid_serial(s),
        crate::date::valid_serial(e),
        s <= e,
    ensures
        ymd_of(s).0 <= ymd_of(e).0,
        ymd_of(s).0 < ymd_of(e).0 ==> 0 < year_start(ymd_of(s).0 + 1) - s <= 366 && 0 <= e
            - year_start(ymd_of(e).0) <= 366 && year_start(ymd_of(s).0 + 1) <= e,
{
    crate::date::lemma_ymd_of(s);
    crate::date::lemma_ymd_of(e);
    let t1 = ymd_of(s);
    let t2 = ymd_of(e);
    crate::date::lemma_serial_of_bounds(t1.0, t1.1, t1.2);
    crate::date::lemma_serial_of_bounds(t2.0, t2.1, t2.2);
    crate::date::lemma_year_start_step(t1.0);
    crate::date::lemma_year_start_step(t2.0);
    if t2.0 < t1.0 {
        crate::date::lemma_year_start_bounds(t2.0 + 1, t1.0);
    }
    if t1.0 < t2.0 {
        crate::date::lemma_year_start_bounds(t1.0 + 1, t2.0);
    }
}

/// The ISDA numerator is small and the denominator positive.
proof fn lemma_isda_parts_bounded(s: int, e: int)
    requires
        crate::date::valid_serial(s),
        crate::date::valid_serial(e),
        s <= e,
    ensures
        0 <= isda_parts(s, e).0 <= 300 * 366 * 366,
        0 < isda_parts(s, e).1,
{
    crate::date::lemma_ymd_of(s);
    crate::date::lemma_ymd_of(e);
    let t1 = ymd_of(s);
    let t2 = ymd_of(e);
    crate::date::lemma_serial_of_bounds(t1.0, t1.1, t1.2);
    crate::date::lemma_serial_of_bounds(t2.0, t2.1, t2.2);
    if t2.0 < t1.0 {
        crate::date::lemma_year_start_bounds(t2.0 + 1, t1.0);
    }
    if t1.0 < t2.0 {
        crate::date::lemma_year_start_bounds(t1.0 + 1, t2.0);
        crate::date::lemma_year_start_step(t1.0);
        let n = t2.0 - t1.0 - 1;
        let dib1 = days_in_year(t1.0);
        let dib2 = days_in_year(t2.0);
        let a = year_start(t1.0 + 1) - s;
        let b = e - year_start(t2.0);
        assert(0 <= n * dib1 * dib2 + a * dib2 + b * dib1 <= 300 * 366 * 366 && 0 < dib1 * dib2) by (nonlinear_arith)
            requires
                0 <= n <= 298,
                0 < a <= 366,
                0 <= b <= 366,
                365 <= dib1 <= 366,
                365 <= dib2 <= 366,
        ;
    }
}

// ---- 30/360 family ------------------------------------------------------

/// The 30/360 count between two (year, month, day) triples.
pub open spec fn thirty_days(y1: int, m1: int, d1: int, y2: int, m2: int, d2: int) -> int {
    360 * (y2 - y1) + 30 * (m2 - m1) + (d2 - d1)
}

/// `d`, with 31 capped to 30.
pub open spec fn capped(d: int) -> int {
    if d == 31 {
        30
    } else {
        d
    }
}

/// `true` iff the day (y, m, d) is the last day of February.
pub open spec fn last_of_february(y: int, m: int, d: int) -> bool {
    m == 2 && d == days_in_month(y, 2)
}

/// 30/360 Bond Basis count from serial `s` to serial `e >= s`.
pub open spec fn bond_count(s: int, e: int) -> int {
    let (y1, m1, d1) = ymd_of(s);
    let (y2, m2, d2) = ymd_of(e);
    let d1 = capped(d1);
    let d2 = if d2 == 31 && d1 == 30 {
        30
    } else {
        d2
    };
    thirty_days(y1, m1, d1, y2, m2, d2)
}

/// 30/360 US count from serial `s` to serial `e >= s`.
pub open spec fn us_count(s: int, e: int) -> int {
    let (y1, m1, d1) = ymd_of(s);
    let (y2, m2, d2) = ymd_of(e);
    let start_feb = last_of_february(y1, m1, d1);
    let d2 = if start_feb && last_of_february(y2, m2, d2) {
        30
    } else {
        d2
    };
    let d1 = if start_feb {
        30
    } else {
        d1
    };
    let d2 = if d2 == 31 && d1 >= 30 {
        30
    } else {
        d2
    };
    thirty_days(y1, m1, capped(d1), y2, m2, d2)
}

/// 30E/360 (Eurobond Basis) count from serial `s` to serial `e >= s`.
pub open spec fn european_count(s: int, e: int) -> int {
    let (y1, m1, d1) = ymd_of(s);
    let (y2, m2, d2) = ymd_of(e);
    thirty_days(y1, m1, capped(d1), y2, m2, capped(d2))
}

/// 30E/360 (ISDA) count from serial `s` to serial `e >= s`, for a
/// schedule terminating on serial `term`; zero from a date to itself.
pub open spec fn isda_thirty_count(s: int, e: int, term: int) -> int {
    if s == e {
        0
    } else {
        isda_thirty_days(s, e, term)
    }
}

/// The 30E/360 (ISDA) formula from serial `s` to serial `e > s`: the last
/// day of February counts as the 30th, except as the termination date at
/// the end of the period.
pub open spec fn isda_thirty_days(s: int, e: int, term: int) -> int {
    let (y1, m1, d1) = ymd_of(s);
    let (y2, m2, d2) = ymd_of(e);
    let d1 = if last_of_february(y1, m1, d1) {
        30
    } else {
        capped(d1)
    };
    let d2 = if e != term && last_of_february(y2, m2, d2) {
        30
    } else {
        capped(d2)
    };
    thirty_days(y1, m1, d1, y2, m2, d2)
}

/// A count signed by direction: `count(s, e)` forwards, `-count(e, s)`
/// backwards.
pub open spec fn signed_count(s: int, e: int, count: spec_fn(int, int) -> int) -> int {
    if s <= e {
        count(s, e)
    } else {
        -count(e, s)
    }
}

/// A date decomposed for the 30/360 conventions.
#[derive(Clone, Copy)]
struct Thirty360Date {
    date: Date,
    year: i64,
    month: i64,
    day: i64,
    last_of_february: bool,
}

impl Thirty360Date {
    fn of(date: Date) -> (r: Thirty360Date)
        ensures
            r.date == date,
            (r.year as int, r.month as int, r.day as int) == ymd_of(date@),
            r.last_of_february == last_of_february(r.year as int, r.month as int, r.day as int),
            1901 <= r.year <= 2199,
            1 <= r.month <= 12,
            1 <= r.day <= 31,
    {
        let (year, month, day) = date.to_ymd();
        let last = month.get() == 2 && day == Month::Feb.length(year);
        Thirty360Date {
            date,
            year: year.get() as i64,
            month: month.get() as i64,
            day: day as i64,
            last_of_february: last,
        }
    }

    fn days_to(self, d1: i64, end: Thirty360Date, d2: i64) -> (r: i64)
        requires
            1901 <= self.year <= 2199,
            1901 <= end.year <= 2199,
            1 <= self.month <= 12,
            1 <= end.month <= 12,
            0 <= d1 <= 31,
            0 <= d2 <= 31,
        ensures
            r == thirty_days(
                self.year as int,
                self.month as int,
                d1 as int,
                end.year as int,
                end.month as int,
                d2 as int,
            ),
            -120000 <= r <= 120000,
    {
        360 * (end.year - self.year) + 30 * (end.month - self.month) + (d2 - d1)
    }
}

fn cap(d: i64) -> (r: i64)
    ensures
        r == capped(d as int),
{
    if d == 31 {
        30
    } else {
        d
    }
}

/// 30/360 Bond Basis.
#[derive(Debug, Clone, Copy, Default, PartialEq, Eq, Hash)]
pub struct Thirty360Bond;

impl Thirty360Bond {
    fn ordered(start: Date, end: Date) -> (r: i64)
        ensures
            r == bond_count(start@, end@),
            -120000 <= r <= 120000,
    {
        let s = Thirty360Date::of(start);
        let e = Thirty360Date::of(end);
        let d1 = cap(s.day);
        let d2 = if e.day == 31 && d1 == 30 {
            30
        } else {
            e.day
        };
        s.days_to(d1, e, d2)
    }
}

impl DayCount for Thirty360Bond {
    fn name(&self) -> (r: &'static str)
        ensures
            r@ == "30/360 (Bond Basis)"@,
    {
        "30/360 (Bond Basis)"
    }

    fn day_count(&self, start: Date, end: Date) -> (r: i64)
        ensures
            r == signed_count(start@, end@, |s: int, e: int| bond_count(s, e)),
    {
        if start.serial() <= end.serial() {
            Thirty360Bond::ordered(start, end)
        } else {
            -Thirty360Bond::ordered(end, start)
        }
    }

    fn year_fraction(&self, start: Date, end: Date) -> (r: Fraction)
        ensures
            r@ == thirty_fraction(start@, end@, |s: int, e: int| bond_count(s, e)),
    {
        basis_fraction(self.day_count(start, end), 360)
    }
}

/// 30/360 US, with the end-of-February rule.
#[derive(Debug, Clone, Copy, Default, PartialEq, Eq, Hash)]
pub struct Thirty360US;

impl Thirty360US {
    fn ordered(start: Date, end: Date) -> (r: i64)
        ensures
            r == us_count(start@, end@),
            -120000 <= r <= 120000,
    {
        let s = Thirty360Date::of(start);
        let e = Thirty360Date::of(end);
        let d2 = if s.last_of_february && e.last_of_february {
            30
        } else {
            e.day
        };
        let d1 = if s.last_of_february {
            30
        } else {
            s.day
        };
        let d2 = if d2 == 31 && d1 >= 30 {
            30
        } else {
            d2
        };
        s.days_to(cap(d1), e, d2)
    }
}

impl DayCount for Thirty360US {
    fn name(&self) -> (r: &'static str)
        ensures
            r@ == "30/360 (US)"@,
    {
        "30/360 (US)"
    }

    fn day_count(&self, start: Date, end: Date) -> (r: i64)
        ensures
            r == signed_count(start@, end@, |s: int, e: int| us_count(s, e)),
    {
        if start.serial() <= end.serial() {
            Thirty360US::ordered(start, end)
        } else {
            -Thirty360US::ordered(end, start)
        }
    }

    fn year_fraction(&self, start: Date, end: Date) -> (r: Fraction)
        ensures
            r@ == thirty_fraction(start@, end@, |s: int, e: int| us_count(s, e)),
    {
        basis_fraction(self.day_count(start, end), 360)
    }
}

/// 30E/360 (Eurobond Basis).
#[derive(Debug, Clone, Copy, Default, PartialEq, Eq, Hash)]
pub struct Thirty360European;

impl Thirty360European {
    fn ordered(start: Date, end: Date) -> (r: i64)
        ensures
            r == european_count(start@, end@),
            -120000 <= r <= 120000,
    {
        let s = Thirty360Date::of(start);
        let e = Thirty360Date::of(end);
        s.days_to(cap(s.day), e, cap(e.day))
    }
}

impl DayCount for Thirty360European {
    fn name(&self) -> (r: &'static str)
        ensures
            r@ == "30E/360 (Eurobond Basis)"@,
    {
        "30E/360 (Eurobond Basis)"
    }

    fn day_count(&self, start: Date, end: Date) -> (r: i64)
        ensures
            r == signed_count(start@, end@, |s: int, e: int| european_count(s, e)),
    {
        if start.serial() <= end.serial() {
            Thirty360European::ordered(start, end)
        } else {
            -Thirty360European::ordered(end, start)
        }
    }

    fn year_fraction(&self, start: Date, end: Date) -> (r: Fraction)
        ensures
            r@ == thirty_fraction(start@, end@, |s: int, e: int| european_count(s, e)),
    {
        basis_fraction(self.day_count(start, end), 360)
    }
}

/// 30E/360 (ISDA): like the Eurobond basis, but the last day of February
/// counts as the 30th, except when it is the termination date and ends
/// the period.
#[derive(Debug, Clone, Copy, PartialEq, Eq, Hash)]
pub struct Thirty360ISDA {
    termination: Date,
}

impl Thirty360ISDA {
    /// The convention for a schedule terminating on `termination`.
    pub fn new(termination: Date) -> (r: Thirty360ISDA)
        ensures
            r.termination_date() == termination,
    {
        Thirty360ISDA { termination }
    }

    /// The termination date the convention was made with.
    pub closed spec fn termination_date(self) -> Date {
        self.termination
    }

    /// The termination date.
    pub fn termination(&self) -> (r: Date)
        ensures
            r == self.termination_date(),
    {
        self.termination
    }

    fn ordered(&self, start: Date, end: Date) -> (r: i64)
        ensures
            r == isda_thirty_count(start@, end@, self.termination_date()@),
            -120000 <= r <= 120000,
    {
        if start.serial() == end.serial() {
            return 0;
        }
        let s = Thirty360Date::of(start);
        let e = Thirty360Date::of(end);
        let d1 = if s.last_of_february {
            30
        } else {
            cap(s.day)
        };
        let d2 = if e.date.serial() != self.termination.serial() && e.last_of_february {
            30
        } else {
            cap(e.day)
        };
        s.days_to(d1, e, d2)
    }
}

impl DayCount for Thirty360ISDA {
    fn name(&self) -> (r: &'static str)
        ensures
            r@ == "30E/360 (ISDA)"@,
    {
        "30E/360 (ISDA)"
    }

    fn day_count(&self, start: Date, end: Date) -> (r: i64)
        ensures
            r == signed_count(
                start@,
                end@,
                |s: int, e: int| isda_thirty_count(s, e, self.termination_date()@),
            ),
    {
        if start.serial() <= end.serial() {
            self.ordered(start, end)
        } else {
            -self.ordered(end, start)
        }
    }

    fn year_fraction(&self, start: Date, end: Date) -> (r: Fraction)
        ensures
            r@ == thirty_fraction(
                start@,
                end@,
                |s: int, e: int| isda_thirty_count(s, e, self.termination_date()@),
            ),
    {
        basis_fraction(self.day_count(start, end), 360)
    }
}

// ---- ACT/ACT (ICMA) -----------------------------------------------------

#[verifier::opaque]
/// Window `i` of the reference grid: window 0 is the reference period
/// `rs..re`; negative windows step back from `rs`, positive ones forward
/// from `re`, by `period`. `None` when a step leaves the range.
pub open spec fn icma_window(rs: int, re: int, period: Period, eom: bool, i: int) -> Option<
    (int, int),
> {
    if i == 0 {
        Some((rs, re))
    } else if i < 0 {
        match (step_serial(rs, period, eom, i), step_serial(rs, period, eom, i + 1)) {
            (Some(a), Some(b)) => Some((a, b)),
            _ => None,
        }
    } else {
        match (step_serial(re, period, eom, i - 1), step_serial(re, period, eom, i)) {
            (Some(a), Some(b)) => Some((a, b)),
            _ => None,
        }
    }
}

/// The window index, searching down from `i <= 0`, of the first window
/// that does not start after `s`; `None` when a window leaves the range.
pub open spec fn icma_first_window(
    rs: int,
    re: int,
    period: Period,
    eom: bool,
    s: int,
    i: int,
) -> Option<int>
    decreases i + 200000,
{
    if i <= -200000 {
        None
    } else {
        match icma_window(rs, re, period, eom, i) {
            None => None,
            Some(w) => if w.0 > s {
                icma_first_window(rs, re, period, eom, s, i - 1)
            } else {
                Some(i)
            },
        }
    }
}

/// The share of a year that `chunk` makes of `window`: its days over
/// `per_year` times the window's days.
pub open spec fn coupon_share_of(chunk: (int, int), window: (int, int), per_year: int) -> Result<
    (int, int),
    TimeError,
> {
    let wd = window.1 - window.0;
    if wd < 0 {
        Err(TimeError::InvalidReferencePeriod)
    } else if per_year * wd > u64::MAX {
        Err(TimeError::FractionOverflow)
    } else if per_year * wd == 0 {
        Err(TimeError::ZeroDenominator)
    } else {
        Ok(reduce(chunk.1 - chunk.0, per_year * wd))
    }
}

/// The running total `total`, plus the shares of `s..e` falling in window
/// `i` and the windows after it, up to the first window reaching `e`.
pub open spec fn icma_accrue_from(
    rs: int,
    re: int,
    period: Period,
    eom: bool,
    per_year: int,
    s: int,
    e: int,
    i: int,
    total: (int, int),
) -> Result<(int, int), TimeError>
    decreases 200001 - i,
{
    if i >= 200001 {
        Err(TimeError::DateOutOfRange)
    } else {
        match icma_window(rs, re, period, eom, i) {
            None => Err(TimeError::DateOutOfRange),
            Some(w) => {
                let lo = if s >= w.0 {
                    s
                } else {
                    w.0
                };
                let hi = if e <= w.1 {
                    e
                } else {
                    w.1
                };
                let next: Result<(int, int), TimeError> = if lo < hi {
                    match coupon_share_of((lo, hi), w, per_year) {
                        Err(x) => Err(x),
                        Ok(sh) => match sum_of(total, sh) {
                            None => Err(TimeError::FractionOverflow),
                            Some(t) => Ok(t),
                        },
                    }
                } else {
                    Ok(total)
                };
                match next {
                    Err(x) => Err(x),
                    Ok(t) => if w.1 >= e {
                        Ok(t)
                    } else {
                        icma_accrue_from(rs, re, period, eom, per_year, s, e, i + 1, t)
                    },
                }
            },
        }
    }
}

/// The ICMA accrual of `s..e` against the reference period `rs..re`: the
/// shares of every grid window the span meets.
pub open spec fn icma_accrual(
    rs: int,
    re: int,
    period: Period,
    eom: bool,
    per_year: int,
    s: int,
    e: int,
) -> Result<(int, int), TimeError> {
    match icma_first_window(rs, re, period, eom, s, 0) {
        None => Err(TimeError::DateOutOfRange),
        Some(i) => icma_accrue_from(rs, re, period, eom, per_year, s, e, i, (0, 1)),
    }
}

/// Far steps along a non-zero period leave the supported range.
proof fn lemma_step_far(seed: int, step: Period, eom: bool, i: int)
    requires
        valid_serial(seed),
        step.len() != 0,
        i >= 110000 || i <= -110000,
    ensures
        step_serial(seed, step, eom, i) is None,
{
    crate::date::lemma_ymd_of(seed);
    let n = step.len() * i;
    assert(n >= 110000 || n <= -110000) by (nonlinear_arith)
        requires
            step.len() != 0,
            i >= 110000 || i <= -110000,
            n == step.len() * i,
    ;
}

/// Windows far from the reference period leave the supported range.
proof fn lemma_window_far(rs: int, re: int, period: Period, eom: bool, i: int)
    requires
        valid_serial(rs),
        valid_serial(re),
        period.len() != 0,
        i >= 110000 || i <= -110000,
    ensures
        icma_window(rs, re, period, eom, i) is None,
{
    reveal(icma_window);
    if i < 0 {
        lemma_step_far(rs, period, eom, i);
    } else {
        lemma_step_far(re, period, eom, i);
    }
}

/// The grid a reference period spans: steps of `period` either side.
#[derive(Debug, Clone, Copy)]
struct GridShape {
    tenor: Period,
    end_of_month: bool,
}

impl GridShape {
    fn of(frequency: Frequency) -> (r: GridShape)
        ensures
            r.tenor == frequency.period(),
            r.end_of_month,
    {
        GridShape { tenor: Period::from_frequency(frequency), end_of_month: true }
    }
}

/// A reference period with the lattice of notional periods around it.
#[derive(Debug, Clone, Copy)]
struct ReferenceGrid {
    start: Date,
    end: Date,
    period: Period,
    end_of_month: bool,
}

impl ReferenceGrid {
    /// Window `i` of the grid.
    fn window(&self, i: i32) -> (r: Result<(Date, Date), TimeError>)
        ensures
            match icma_window(self.start@, self.end@, self.period, self.end_of_month, i as int) {
                Some(w) => r is Ok && r->Ok_0.0@ == w.0 && r->Ok_0.1@ == w.1,
                None => r == Err::<(Date, Date), TimeError>(TimeError::DateOutOfRange),
            },
    {
        proof {
            reveal(icma_window);
        }
        if i == 0 {
            return Ok((self.start, self.end));
        }
        if i < 0 {
            let stepper = Stepper::new(self.start, self.period, self.end_of_month);
            let a = match stepper.step(i) {
                Ok(d) => d,
                Err(e) => return Err(e),
            };
            let b = match stepper.step(i + 1) {
                Ok(d) => d,
                Err(e) => return Err(e),
            };
            Ok((a, b))
        } else {
            let stepper = Stepper::new(self.end, self.period, self.end_of_month);
            let a = match stepper.step(i - 1) {
                Ok(d) => d,
                Err(e) => return Err(e),
            };
            let b = match stepper.step(i) {
                Ok(d) => d,
                Err(e) => return Err(e),
            };
            Ok((a, b))
        }
    }
}

/// Actual/Actual (ICMA): accrual as a share of the coupon period it falls
/// in, each coupon period worth `1 / frequency` of a year.
#[derive(Debug, Clone, Copy, PartialEq, Eq, Hash, Structural)]
pub struct ActActICMA {
    frequency: Frequency,
}

impl ActActICMA {
    /// The convention for coupons paid at `frequency`.
    pub fn new(frequency: Frequency) -> (r: ActActICMA)
        ensures
            r.frequency_of() == frequency,
    {
        ActActICMA { frequency }
    }

    /// The coupon frequency.
    pub closed spec fn frequency_of(&self) -> Frequency {
        self.frequency
    }

    /// The unbound fraction from serial `s` to serial `e`: one whole coupon
    /// period, `1 / frequency`, signed by direction, and zero for equal
    /// dates.
    pub open spec fn unbound_fraction(&self, s: int, e: int) -> (int, int) {
        if s == e {
            (0, 1)
        } else if s < e {
            reduce(1, self.frequency_of().times_per_year())
        } else {
            reduce(-1, self.frequency_of().times_per_year())
        }
    }

    /// The coupon frequency.
    pub fn frequency(&self) -> (r: Frequency)
        ensures
            r == self.frequency_of(),
    {
        self.frequency
    }

    /// The share `chunk` makes of `window`.
    fn coupon_share(self, chunk: (Date, Date), window: (Date, Date)) -> (r: Result<
        Fraction,
        TimeError,
    >)
        ensures
            match coupon_share_of(
                (chunk.0@, chunk.1@),
                (window.0@, window.1@),
                self.frequency.times_per_year(),
            ) {
                Ok(p) => r is Ok && r->Ok_0@ == p,
                Err(e) => r == Err::<Fraction, TimeError>(e),
            },
    {
        let window_days = window.1.days_since(window.0) as i64;
        if window_days < 0 {
            return Err(TimeError::InvalidReferencePeriod);
        }
        let per_year = self.frequency.per_year() as u64;
        let denominator = match per_year.checked_mul(window_days as u64) {
            Some(d) => d,
            None => return Err(TimeError::FractionOverflow),
        };
        Fraction::new(chunk.1.days_since(chunk.0) as i64, denominator)
    }

    /// Accrue `span` against the grid around `reference`.
    fn accrue(self, span: (Date, Date), reference: (Date, Date), shape: GridShape) -> (r: Result<
        Fraction,
        TimeError,
    >)
        requires
            shape.tenor.len() != 0,
        ensures
            match icma_accrual(
                reference.0@,
                reference.1@,
                shape.tenor,
                shape.end_of_month,
                self.frequency.times_per_year(),
                span.0@,
                span.1@,
            ) {
                Ok(p) => r is Ok && r->Ok_0@ == p,
                Err(e) => r == Err::<Fraction, TimeError>(e),
            },
    {
        let grid = ReferenceGrid {
            start: reference.0,
            end: reference.1,
            period: shape.tenor,
            end_of_month: shape.end_of_month,
        };
        let ghost rs = reference.0@;
        let ghost re = reference.1@;
        let ghost py = self.frequency.times_per_year();
        let ghost s = span.0@;
        let ghost e = span.1@;
        let ghost period = shape.tenor;
        let ghost eom = shape.end_of_month;
        reference.0.serial_in_range();
        reference.1.serial_in_range();
        let mut i: i32 = 0;
        loop
            invariant
                -200000 < i <= 0,
                rs == reference.0@ && re == reference.1@ && s == span.0@ && e == span.1@,
                period == shape.tenor && eom == shape.end_of_month,
                grid.start@ == rs && grid.end@ == re && grid.period == period && grid.end_of_month
                    == eom,
                period.len() != 0,
                valid_serial(rs),
                valid_serial(re),
                span.0@ == s,
                icma_first_window(rs, re, period, eom, s, 0) == icma_first_window(
                    rs,
                    re,
                    period,
                    eom,
                    s,
                    i as int,
                ),
            ensures
                -200000 < i <= 0,
                icma_first_window(rs, re, period, eom, s, 0) == Some(i as int),
            decreases i + 200000,
        {
            let w = match grid.window(i) {
                Ok(w) => w,
                Err(e) => return Err(e),
            };
            if w.0.serial() <= span.0.serial() {
                break;
            }
            proof {
                if i <= -110000 {
                    lemma_window_far(rs, re, period, eom, i as int);
                }
            }
            i = i - 1;
        }
        let mut total = Fraction::zero();
        loop
            invariant
                -200000 < i < 200001,
                rs == reference.0@ && re == reference.1@ && s == span.0@ && e == span.1@,
                period == shape.tenor && eom == shape.end_of_month,
                grid.start@ == rs && grid.end@ == re && grid.period == period && grid.end_of_month
                    == eom,
                period.len() != 0,
                valid_serial(rs),
                valid_serial(re),
                span.0@ == s,
                span.1@ == e,
                py == self.frequency.times_per_year(),
                icma_accrual(rs, re, period, eom, py, s, e) == icma_accrue_from(
                    rs,
                    re,
                    period,
                    eom,
                    py,
                    s,
                    e,
                    i as int,
                    total@,
                ),
            decreases 200001 - i,
        {
            let window = match grid.window(i) {
                Ok(w) => w,
                Err(e) => return Err(e),
            };
            let lo = if span.0.serial() >= window.0.serial() {
                span.0
            } else {
                window.0
            };
            let hi = if span.1.serial() <= window.1.serial() {
                span.1
            } else {
                window.1
            };
            if lo.serial() < hi.serial() {
                let share = match self.coupon_share((lo, hi), window) {
                    Ok(f) => f,
                    Err(e) => return Err(e),
                };
                total = match total.checked_add(share) {
                    Some(t) => t,
                    None => return Err(TimeError::FractionOverflow),
                };
            }
            if window.1.serial() >= span.1.serial() {
                return Ok(total);
            }
            proof {
                if i >= 110000 {
                    lemma_window_far(rs, re, period, eom, i as int);
                }
            }
            i = i + 1;
        }
    }

    /// The ICMA fraction of `start..end` against the reference period
    /// `ref_start..ref_end`, on the convention's own grid; a reference
    /// period whose start is not before its end is refused.
    pub fn year_fraction_with_reference(
        &self,
        start: Date,
        end: Date,
        ref_start: Date,
        ref_end: Date,
    ) -> (r: Result<Fraction, TimeError>)
        ensures
            ref_start@ >= ref_end@ ==> r == Err::<Fraction, TimeError>(
                TimeError::InvalidReferencePeriod,
            ),
            ref_start@ < ref_end@ && start@ == end@ ==> r is Ok && r->Ok_0@ == (0int, 1int),
            ref_start@ < ref_end@ && start@ < end@ ==> match icma_accrual(
                ref_start@,
                ref_end@,
                self.frequency_of().period(),
                true,
                self.frequency_of().times_per_year(),
                start@,
                end@,
            ) {
                Ok(p) => r is Ok && r->Ok_0@ == p,
                Err(e) => r == Err::<Fraction, TimeError>(e),
            },
            ref_start@ < ref_end@ && start@ > end@ ==> match icma_accrual(
                ref_start@,
                ref_end@,
                self.frequency_of().period(),
                true,
                self.frequency_of().times_per_year(),
                end@,
                start@,
            ) {
                Ok(p) => if p.0 == i64::MIN {
                    r == Err::<Fraction, TimeError>(TimeError::FractionOverflow)
                } else {
                    r is Ok && r->Ok_0@ == (-p.0, p.1)
                },
                Err(e) => r == Err::<Fraction, TimeError>(e),
            },
    {
        if ref_start.serial() >= ref_end.serial() {
            return Err(TimeError::InvalidReferencePeriod);
        }
        if start.serial() == end.serial() {
            return Ok(Fraction::zero());
        }
        let shape = GridShape::of(self.frequency);
        if start.serial() < end.serial() {
            self.accrue((start, end), (ref_start, ref_end), shape)
        } else {
            let f = match self.accrue((end, start), (ref_start, ref_end), shape) {
                Ok(f) => f,
                Err(e) => return Err(e),
            };
            match f.checked_neg() {
                Some(g) => Ok(g),
                None => Err(TimeError::FractionOverflow),
            }
        }
    }

    /// Bind the convention to `schedule`, whose reference dates name each
    /// period's notional coupon period. Refused for schedules of fewer
    /// than two dates, and for a generated schedule whose tenor is not the
    /// convention's frequency.
    pub fn bind(self, schedule: &Schedule) -> (r: Result<BoundActActICMA<'_>, TimeError>)
        ensures
            schedule.date_serials().len() < 2 ==> (r matches Err(e) && e
                == TimeError::InvalidReferencePeriod),
            schedule.date_serials().len() >= 2 ==> match schedule.generation_of() {
                Some(g) => if normalized_of(g.tenor) != normalized_of(self.frequency_of().period()) {
                    (r matches Err(e) && e == TimeError::FrequencyMismatch)
                } else {
                    (r matches Ok(b) && b.schedule_of() == schedule && b.frequency_of()
                        == self.frequency_of() && b.tenor_of() == g.tenor && b.end_of_month_of()
                        == g.end_of_month)
                },
                None => (r matches Ok(b) && b.schedule_of() == schedule && b.frequency_of()
                    == self.frequency_of() && b.tenor_of() == self.frequency_of().period()
                    && b.end_of_month_of()),
            },
            r matches Ok(b) ==> b.tenor_of().len() > 0,
    {
        if schedule.len() < 2 {
            return Err(TimeError::InvalidReferencePeriod);
        }
        let shape = match schedule.generation() {
            Some(generation) => {
                if generation.tenor.normalized() != Period::from_frequency(
                    self.frequency,
                ).normalized() {
                    return Err(TimeError::FrequencyMismatch);
                }
                GridShape { tenor: generation.tenor, end_of_month: generation.end_of_month }
            },
            None => GridShape::of(self.frequency),
        };
        Ok(BoundActActICMA { inner: self, schedule, shape })
    }
}

impl DayCount for ActActICMA {
    fn name(&self) -> (r: &'static str)
        ensures
            r@ == "Actual/Actual (ICMA)"@,
    {
        "Actual/Actual (ICMA)"
    }

    fn day_count(&self, start: Date, end: Date) -> (r: i64)
        ensures
            r == end@ - start@,
    {
        end.days_since(start) as i64
    }

    /// Without a schedule every coupon period counts `1 / frequency`,
    /// whatever its length.
    fn year_fraction(&self, start: Date, end: Date) -> (r: Fraction)
        ensures
            r@ == self.unbound_fraction(start@, end@),
    {
        if start.serial() == end.serial() {
            return Fraction::zero();
        }
        let n: i64 = if start.serial() < end.serial() {
            1
        } else {
            -1
        };
        basis_fraction(n, self.frequency.per_year() as u64)
    }
}

/// The ICMA fraction of the part of `s..e` inside a schedule: each coupon
/// period's share accrued against its reference period, falling back to
/// zero where an accrual or the running sum fails.
pub open spec fn bound_total(
    dates: Seq<int>,
    refs: Seq<int>,
    period: Period,
    eom: bool,
    per_year: int,
    s: int,
    e: int,
    k: int,
    total: (int, int),
) -> (int, int)
    decreases dates.len() - k,
{
    if k < 0 || k + 1 >= dates.len() || dates[k] >= e {
        total
    } else {
        let lo = if s >= dates[k] {
            s
        } else {
            dates[k]
        };
        let hi = if e <= dates[k + 1] {
            e
        } else {
            dates[k + 1]
        };
        let next = if lo < hi {
            let accrued = match icma_accrual(refs[k], refs[k + 1], period, eom, per_year, lo, hi) {
                Ok(p) => p,
                Err(_) => (0, 1),
            };
            match sum_of(total, accrued) {
                Some(t) => t,
                None => (0, 1),
            }
        } else {
            total
        };
        bound_total(dates, refs, period, eom, per_year, s, e, k + 1, next)
    }
}

/// The bound ICMA fraction of an ordered span `s <= e`: zero unless it
/// meets the schedule's span, else the accrual of the part inside.
pub open spec fn bound_ordered(
    dates: Seq<int>,
    refs: Seq<int>,
    period: Period,
    eom: bool,
    per_year: int,
    s: int,
    e: int,
) -> (int, int) {
    let first = dates[0];
    let last = dates[dates.len() - 1];
    let lo = if s >= first {
        s
    } else {
        first
    };
    let hi = if e <= last {
        e
    } else {
        last
    };
    if lo < hi {
        bound_total(dates, refs, period, eom, per_year, lo, hi, 0, (0, 1))
    } else {
        (0, 1)
    }
}

/// Actual/Actual (ICMA) bound to a schedule: any span is split at the
/// coupon dates and each piece accrued against its period's reference
/// dates; spans outside the schedule accrue nothing.
#[derive(Clone, Copy)]
pub struct BoundActActICMA<'s> {
    inner: ActActICMA,
    schedule: &'s Schedule,
    shape: GridShape,
}

impl<'s> BoundActActICMA<'s> {
    /// The bound schedule.
    pub closed spec fn schedule_of(&self) -> &'s Schedule {
        self.schedule
    }

    /// The coupon frequency.
    pub closed spec fn frequency_of(&self) -> Frequency {
        self.inner.frequency
    }

    /// The grid's tenor.
    pub closed spec fn tenor_of(&self) -> Period {
        self.shape.tenor
    }

    /// The grid's end-of-month flag.
    pub closed spec fn end_of_month_of(&self) -> bool {
        self.shape.end_of_month
    }

    /// The bound fraction from serial `s` to serial `e`, signed by
    /// direction: zero for equal dates and for a counter whose schedule
    /// or tenor is empty.
    pub open spec fn signed_spec(&self, s: int, e: int) -> (int, int) {
        if !(self.schedule_of().date_serials().len() >= 2 && self.tenor_of().len() != 0) || s == e {
            (0, 1)
        } else if s < e {
            self.ordered_spec(s, e)
        } else {
            (-self.ordered_spec(e, s).0, self.ordered_spec(e, s).1)
        }
    }

    /// The bound fraction of an ordered span.
    pub open spec fn ordered_spec(&self, s: int, e: int) -> (int, int) {
        bound_ordered(
            self.schedule_of().date_serials(),
            self.schedule_of().reference_serials(),
            self.tenor_of(),
            self.end_of_month_of(),
            self.frequency_of().times_per_year(),
            s,
            e,
        )
    }

    /// The coupon frequency.
    pub fn frequency(&self) -> (r: Frequency)
        ensures
            r == self.frequency_of(),
    {
        self.inner.frequency
    }

    /// The bound schedule.
    pub fn schedule(&self) -> (r: &Schedule)
        ensures
            r == self.schedule_of(),
    {
        self.schedule
    }

    fn ordered_year_fraction(&self, start: Date, end: Date) -> (r: Fraction)
        requires
            start@ <= end@,
            self.schedule_of().date_serials().len() >= 2,
            self.tenor_of().len() != 0,
        ensures
            r@ == self.ordered_spec(start@, end@),
    {
        let dates = self.schedule.dates();
        let refs = self.schedule.reference_dates();
        self.schedule.well_formedness();
        let n = dates.len();
        let first = dates[0];
        let last = dates[n - 1];
        let lo = if start.serial() >= first.serial() {
            start
        } else {
            first
        };
        let hi = if end.serial() <= last.serial() {
            end
        } else {
            last
        };
        if lo.serial() >= hi.serial() {
            return Fraction::zero();
        }
        let ghost ds = serials(dates@);
        let ghost rs = serials(refs@);
        let mut total = Fraction::zero();
        let mut k: usize = 0;
        while k + 1 < n
            invariant
                k < n,
                n == dates@.len(),
                n == refs@.len(),
                ds == serials(dates@),
                rs == serials(refs@),
                ds == self.schedule_of().date_serials(),
                rs == self.schedule_of().reference_serials(),
                self.tenor_of().len() != 0,
                lo@ < hi@,
                self.ordered_spec(start@, end@) == bound_total(
                    ds,
                    rs,
                    self.tenor_of(),
                    self.end_of_month_of(),
                    self.frequency_of().times_per_year(),
                    lo@,
                    hi@,
                    k as int,
                    total@,
                ),
            decreases n - k,
        {
            let p0 = dates[k];
            let p1 = dates[k + 1];
            if p0.serial() >= hi.serial() {
                return total;
            }
            let c0 = if lo.serial() >= p0.serial() {
                lo
            } else {
                p0
            };
            let c1 = if hi.serial() <= p1.serial() {
                hi
            } else {
                p1
            };
            if c0.serial() < c1.serial() {
                let accrued = match self.inner.accrue((c0, c1), (refs[k], refs[k + 1]), self.shape) {
                    Ok(f) => f,
                    Err(_) => Fraction::zero(),
                };
                total = match total.checked_add(accrued) {
                    Some(t) => t,
                    None => Fraction::zero(),
                };
            }
            k = k + 1;
        }
        total
    }
}

impl<'s> DayCount for BoundActActICMA<'s> {
    fn name(&self) -> (r: &'static str)
        ensures
            r@ == "Actual/Actual (ICMA)"@,
    {
        "Actual/Actual (ICMA)"
    }

    fn day_count(&self, start: Date, end: Date) -> (r: i64)
        ensures
            r == end@ - start@,
    {
        end.days_since(start) as i64
    }

    fn year_fraction(&self, start: Date, end: Date) -> (r: Fraction)
        ensures
            r@ == self.signed_spec(start@, end@),
    {
        if start.serial() == end.serial() {
            return Fraction::zero();
        }
        if self.schedule.len() < 2 || self.shape.tenor.is_zero() {
            return Fraction::zero();
        }
        if start.serial() < end.serial() {
            self.ordered_year_fraction(start, end)
        } else {
            let f = self.ordered_year_fraction(end, start);
            proof {
                crate::accrual_split::lemma_bound_ordered_nonneg(
                    self.schedule_of().date_serials(),
                    self.schedule_of().reference_serials(),
                    self.tenor_of(),
                    self.end_of_month_of(),
                    self.frequency_of().times_per_year(),
                    end@,
                    start@,
                );
                assert(abs_int(-f@.0) == abs_int(f@.0));
            }
            match f.checked_neg() {
                Some(g) => g,
                None => Fraction::zero(),
            }
        }
    }
}


// ---- Laws ----------------------------------------------------------------

/// The position of serial `x` on a year axis, in units of `1 / 133590`
/// year: its year number plus the part of its year already elapsed.
/// `133590 = 365 * 366` is a common multiple of both year lengths.
pub open spec fn year_position(x: int) -> int {
    let y = ymd_of(x).0;
    let per_day: int = if days_in_year(y) == 366 {
        365
    } else {
        366
    };
    y * 133590 + (x - year_start(y)) * per_day
}

/// Zero over any positive denominator reduces to `0 / 1`.
proof fn lemma_reduce_zero(d: int)
    requires
        d > 0,
    ensures
        reduce(0, d) == (0int, 1int),
{
    assert(crate::fraction::gcd(0, d as nat) == crate::fraction::gcd(d as nat, 0));
    vstd::arithmetic::div_mod::lemma_fundamental_div_mod_converse(0, d, 0, 0);
    vstd::arithmetic::div_mod::lemma_fundamental_div_mod_converse(d, d, 1, 0);
}

/// The ISDA fraction from `s` to `e` is the distance between their year
/// positions.
proof fn lemma_isda_position(s: int, e: int)
    requires
        valid_serial(s),
        valid_serial(e),
        s <= e,
    ensures
        isda_parts(s, e).0 * 133590 == (year_position(e) - year_position(s)) * isda_parts(s, e).1,
        0 < isda_parts(s, e).1 <= 366 * 366,
        -300 * 133590 <= year_position(e) - year_position(s) <= 300 * 133590,
{
    crate::date::lemma_ymd_of(s);
    crate::date::lemma_ymd_of(e);
    let t1 = ymd_of(s);
    let t2 = ymd_of(e);
    crate::date::lemma_serial_of_bounds(t1.0, t1.1, t1.2);
    crate::date::lemma_serial_of_bounds(t2.0, t2.1, t2.2);
    crate::date::lemma_year_start_step(t1.0);
    crate::date::lemma_year_start_step(t2.0);
    lemma_isda_years(s, e);
    lemma_isda_parts_bounded(s, e);
    let d1 = days_in_year(t1.0);
    let d2 = days_in_year(t2.0);
    let k1: int = if d1 == 366 {
        365
    } else {
        366
    };
    let k2: int = if d2 == 366 {
        365
    } else {
        366
    };
    assert(year_position(s) == t1.0 * 133590 + (s - year_start(t1.0)) * k1);
    assert(year_position(e) == t2.0 * 133590 + (e - year_start(t2.0)) * k2);
    if s == e {
    } else if t1.0 == t2.0 {
        assert(isda_parts(s, e) == (e - s, d1));
        let diff = year_position(e) - year_position(s);
        assert((e - s) * 133590 == diff * d1) by (nonlinear_arith)
            requires
                diff == (t2.0 * 133590 + (e - year_start(t2.0)) * k2) - (t1.0 * 133590 + (s
                    - year_start(t1.0)) * k1),
                t1.0 == t2.0,
                d1 == d2,
                d1 == 365 || d1 == 366,
                k1 == if d1 == 366 { 365int } else { 366int },
                k2 == if d2 == 366 { 365int } else { 366int },
        ;
    } else {
        crate::date::lemma_year_start_bounds(t1.0 + 1, t2.0);
        let n = t2.0 - t1.0 - 1;
        let a = year_start(t1.0 + 1) - s;
        let b = e - year_start(t2.0);
        assert(s - year_start(t1.0) == d1 - a);
        assert(isda_parts(s, e) == (n * d1 * d2 + a * d2 + b * d1, d1 * d2));
        let num = isda_parts(s, e).0;
        let den = isda_parts(s, e).1;
        let diff = year_position(e) - year_position(s);
        assert(diff == (n + 1) * 133590 + b * k2 - (d1 - a) * k1) by (nonlinear_arith)
            requires
                diff == (t2.0 * 133590 + b * k2) - (t1.0 * 133590 + (d1 - a) * k1),
                n == t2.0 - t1.0 - 1,
        ;
        assert(num * 133590 == diff * den) by (nonlinear_arith)
            requires
                num == n * d1 * d2 + a * d2 + b * d1,
                den == d1 * d2,
                diff == (n + 1) * 133590 + b * k2 - (d1 - a) * k1,
                d1 == 365 || d1 == 366,
                d2 == 365 || d2 == 366,
                k1 == if d1 == 366 { 365int } else { 366int },
                k2 == if d2 == 366 { 365int } else { 366int },
        ;
    }
}

/// The reduced ISDA fraction is the reduced distance between year
/// positions.
proof fn lemma_isda_value(s: int, e: int)
    requires
        valid_serial(s),
        valid_serial(e),
        s <= e,
    ensures
        reduce(isda_parts(s, e).0, isda_parts(s, e).1) == reduce(
            year_position(e) - year_position(s),
            133590,
        ),
        -300 * 133590 <= year_position(e) - year_position(s) <= 300 * 133590,
{
    lemma_isda_position(s, e);
    crate::fraction::lemma_reduce_equal(
        isda_parts(s, e).0,
        isda_parts(s, e).1,
        year_position(e) - year_position(s),
        133590,
    );
}

/// An ACT convention gives zero for a period from a date to itself.
pub proof fn lemma_act_zero_period(s: int)
    requires
        valid_serial(s),
    ensures
        reduce(0, 360) == (0int, 1int),
        reduce(0, 365) == (0int, 1int),
        reduce(isda_parts(s, s).0, isda_parts(s, s).1) == (0int, 1int),
{
    lemma_reduce_zero(360);
    lemma_reduce_zero(365);
    lemma_reduce_zero(1);
}

/// ACT/360 and ACT/365 (Fixed) are additive: the fraction from `a` to `b`
/// plus the fraction from `b` to `c` is the fraction from `a` to `c`, and
/// the sum never overflows.
pub proof fn lemma_act_additive(a: int, b: int, c: int, basis: int)
    requires
        valid_serial(a),
        valid_serial(b),
        valid_serial(c),
        basis == 360 || basis == 365,
    ensures
        sum_of(reduce(b - a, basis), reduce(c - b, basis)) == Some(reduce(c - a, basis)),
{
    if basis == 360 {
        assert(((b - a) * 360 + (c - b) * 360) * 360 == (c - a) * (360 * 360)) by (nonlinear_arith);
    } else {
        assert(((b - a) * 365 + (c - b) * 365) * 365 == (c - a) * (365 * 365)) by (nonlinear_arith);
    }
    crate::fraction::lemma_sum_values(b - a, basis, c - b, basis, c - a, basis);
}

/// ACT/ACT (ISDA) is additive over ordered dates `a <= b <= c`: each
/// calendar day falls in exactly one year, whichever date splits the span.
pub proof fn lemma_isda_additive(a: int, b: int, c: int)
    requires
        valid_serial(a),
        valid_serial(b),
        valid_serial(c),
        a <= b <= c,
    ensures
        sum_of(
            reduce(isda_parts(a, b).0, isda_parts(a, b).1),
            reduce(isda_parts(b, c).0, isda_parts(b, c).1),
        ) == Some(reduce(isda_parts(a, c).0, isda_parts(a, c).1)),
{
    lemma_isda_value(a, b);
    lemma_isda_value(b, c);
    lemma_isda_value(a, c);
    let u = year_position(b) - year_position(a);
    let v = year_position(c) - year_position(b);
    assert((u * 133590 + v * 133590) * 133590 == (u + v) * (133590 * 133590)) by (nonlinear_arith);
    crate::fraction::lemma_sum_values(u, 133590, v, 133590, u + v, 133590);
}

/// A fixed-basis fraction is signed by direction: reversing the dates
/// negates it, and the two add up to zero.
pub proof fn lemma_basis_reverses(n: int, basis: int)
    requires
        0 < basis <= 366,
    ensures
        reduce(-n, basis) == (-reduce(n, basis).0, reduce(n, basis).1),
        sum_of(reduce(n, basis), reduce(-n, basis)) == Some((0int, 1int)),
{
    crate::fraction::lemma_reduce_negate(n, basis);
    crate::fraction::lemma_reduce(n, basis);
    crate::fraction::lemma_add_negation(reduce(n, basis));
}

/// A count signed by direction negates when the dates swap, for distinct
/// dates or a count that is zero from a date to itself.
pub proof fn lemma_signed_count_reverses(a: int, b: int, count: spec_fn(int, int) -> int)
    requires
        a != b || count(a, a) == 0,
    ensures
        signed_count(a, b, count) == -signed_count(b, a, count),
{
}

/// The 30/360 counts from a date to itself are zero, so every 30/360
/// fraction from a date to itself is zero.
pub proof fn lemma_thirty_counts_vanish(s: int, term: int)
    requires
        valid_serial(s),
    ensures
        bond_count(s, s) == 0,
        us_count(s, s) == 0,
        european_count(s, s) == 0,
        isda_thirty_count(s, s, term) == 0,
{
}

/// An accrual inside the reference period is its days over `per_year`
/// times the reference period's days.
proof fn lemma_icma_single_window(
    rs: int,
    re: int,
    period: Period,
    eom: bool,
    per_year: int,
    s: int,
    e: int,
)
    requires
        valid_serial(rs),
        valid_serial(re),
        rs <= s < e <= re,
        1 <= per_year <= 365,
    ensures
        icma_accrual(rs, re, period, eom, per_year, s, e) == Ok::<(int, int), TimeError>(
            reduce(e - s, per_year * (re - rs)),
        ),
        0 < per_year * (re - rs) <= 365 * 109207,
{
    reveal(icma_window);
    let wd = re - rs;
    assert(0 < per_year * wd <= 365 * 109207) by (nonlinear_arith)
        requires
            1 <= per_year <= 365,
            0 < wd <= 109207,
    ;
    let r = reduce(e - s, per_year * wd);
    crate::fraction::lemma_reduce(e - s, per_year * wd);
    assert(0 * r.1 + r.0 * 1 == r.0 && 1 * r.1 == r.1);
    crate::fraction::lemma_reduce_reduced(r.0, r.1);
    assert(sum_of((0, 1), r) == Some(r));
    assert(icma_first_window(rs, re, period, eom, s, 0) == Some(0int));
}

/// ACT/ACT (ICMA) accrues exactly `1 / frequency` over a regular coupon
/// period, one that is its own reference period.
pub proof fn lemma_icma_regular_period(s: int, e: int, period: Period, eom: bool, per_year: int)
    requires
        valid_serial(s),
        valid_serial(e),
        s < e,
        1 <= per_year <= 365,
    ensures
        icma_accrual(s, e, period, eom, per_year, s, e) == Ok::<(int, int), TimeError>(
            reduce(1, per_year),
        ),
{
    lemma_icma_single_window(s, e, period, eom, per_year, s, e);
    assert((e - s) * per_year == 1 * (per_year * (e - s))) by (nonlinear_arith);
    crate::fraction::lemma_reduce_equal(e - s, per_year * (e - s), 1, per_year);
}

/// ACT/ACT (ICMA) is additive inside one reference period: accruals that
/// split a span at an inner date add up to the accrual of the span.
pub proof fn lemma_icma_additive_within_reference(
    rs: int,
    re: int,
    period: Period,
    eom: bool,
    per_year: int,
    a: int,
    b: int,
    c: int,
)
    requires
        valid_serial(rs),
        valid_serial(re),
        rs <= a < b < c <= re,
        1 <= per_year <= 365,
    ensures
        icma_accrual(rs, re, period, eom, per_year, a, b) is Ok,
        icma_accrual(rs, re, period, eom, per_year, b, c) is Ok,
        icma_accrual(rs, re, period, eom, per_year, a, c) is Ok,
        sum_of(
            icma_accrual(rs, re, period, eom, per_year, a, b)->Ok_0,
            icma_accrual(rs, re, period, eom, per_year, b, c)->Ok_0,
        ) == Some(icma_accrual(rs, re, period, eom, per_year, a, c)->Ok_0),
{
    lemma_icma_single_window(rs, re, period, eom, per_year, a, b);
    lemma_icma_single_window(rs, re, period, eom, per_year, b, c);
    lemma_icma_single_window(rs, re, period, eom, per_year, a, c);
    let d = per_year * (re - rs);
    assert(((b - a) * d + (c - b) * d) * d == (c - a) * (d * d)) by (nonlinear_arith);
    crate::fraction::lemma_sum_values(b - a, d, c - b, d, c - a, d);
}

/// A reduced fraction and its negation add up to zero in either order.
proof fn lemma_negation_cancels(r: (int, int))
    requires
        is_reduced(r.0, r.1),
    ensures
        sum_of(r, (-r.0, r.1)) == Some((0int, 1int)),
        sum_of((-r.0, r.1), r) == Some((0int, 1int)),
{
    crate::fraction::lemma_add_negation(r);
    assert(abs_int(-r.0) == abs_int(r.0));
    crate::fraction::lemma_add_negation((-r.0, r.1));
    assert(-(-r.0) == r.0);
}

/// Reducing a zero count over a positive basis gives `0 / 1`.
proof fn lemma_reduce_zero_count(d: int)
    requires
        d > 0,
    ensures
        reduce(0, d) == (0int, 1int),
{
    crate::fraction::lemma_reduce(0, d);
    crate::accrual_split::lemma_zero_reduced();
    crate::fraction::lemma_reduced_unique(reduce(0, d).0, reduce(0, d).1, 0, 1);
}

/// Every day-count convention is signed by direction and gives zero for
/// equal dates: for each one, the fraction from a date to itself is
/// `0 / 1`, the fractions of `s..e` and `e..s` add up to zero, and the
/// day counts of the two directions are opposite.
pub proof fn lemma_signed_by_direction(
    s: int,
    e: int,
    isda: Thirty360ISDA,
    icma: ActActICMA,
    bound: BoundActActICMA,
)
    requires
        valid_serial(s),
        valid_serial(e),
    ensures
        act_fraction(s, s, 360) == (0int, 1int),
        act_fraction(s, s, 365) == (0int, 1int),
        sum_of(act_fraction(s, e, 360), act_fraction(e, s, 360)) == Some((0int, 1int)),
        sum_of(act_fraction(s, e, 365), act_fraction(e, s, 365)) == Some((0int, 1int)),
        isda_fraction(s, s) == (0int, 1int),
        sum_of(isda_fraction(s, e), isda_fraction(e, s)) == Some((0int, 1int)),
        thirty_fraction(s, s, |x: int, y: int| bond_count(x, y)) == (0int, 1int),
        thirty_fraction(s, s, |x: int, y: int| us_count(x, y)) == (0int, 1int),
        thirty_fraction(s, s, |x: int, y: int| european_count(x, y)) == (0int, 1int),
        thirty_fraction(s, s, |x: int, y: int| isda_thirty_count(x, y, isda.termination_date()@))
            == (0int, 1int),
        sum_of(
            thirty_fraction(s, e, |x: int, y: int| bond_count(x, y)),
            thirty_fraction(e, s, |x: int, y: int| bond_count(x, y)),
        ) == Some((0int, 1int)),
        sum_of(
            thirty_fraction(s, e, |x: int, y: int| us_count(x, y)),
            thirty_fraction(e, s, |x: int, y: int| us_count(x, y)),
        ) == Some((0int, 1int)),
        sum_of(
            thirty_fraction(s, e, |x: int, y: int| european_count(x, y)),
            thirty_fraction(e, s, |x: int, y: int| european_count(x, y)),
        ) == Some((0int, 1int)),
        sum_of(
            thirty_fraction(s, e, |x: int, y: int| isda_thirty_count(x, y, isda.termination_date()@)),
            thirty_fraction(e, s, |x: int, y: int| isda_thirty_count(x, y, isda.termination_date()@)),
        ) == Some((0int, 1int)),
        signed_count(s, e, |x: int, y: int| bond_count(x, y)) == -signed_count(
            e,
            s,
            |x: int, y: int| bond_count(x, y),
        ),
        signed_count(s, e, |x: int, y: int| us_count(x, y)) == -signed_count(
            e,
            s,
            |x: int, y: int| us_count(x, y),
        ),
        signed_count(s, e, |x: int, y: int| european_count(x, y)) == -signed_count(
            e,
            s,
            |x: int, y: int| european_count(x, y),
        ),
        signed_count(s, e, |x: int, y: int| isda_thirty_count(x, y, isda.termination_date()@))
            == -signed_count(
            e,
            s,
            |x: int, y: int| isda_thirty_count(x, y, isda.termination_date()@),
        ),
        icma.unbound_fraction(s, s) == (0int, 1int),
        sum_of(icma.unbound_fraction(s, e), icma.unbound_fraction(e, s)) == Some((0int, 1int)),
        bound.signed_spec(s, s) == (0int, 1int),
        sum_of(bound.signed_spec(s, e), bound.signed_spec(e, s)) == Some((0int, 1int)),
{
    let zero = (0int, 1int);
    crate::accrual_split::lemma_zero_reduced();
    lemma_negation_cancels(zero);
    assert((-zero.0, zero.1) == zero);
    lemma_reduce_zero_count(360);
    lemma_reduce_zero_count(365);
    // ACT/360 and ACT/365F.
    lemma_basis_reverses(e - s, 360);
    lemma_basis_reverses(e - s, 365);
    assert(s - e == -(e - s));
    // ACT/ACT (ISDA).
    if s != e {
        let (lo, hi) = if s < e {
            (s, e)
        } else {
            (e, s)
        };
        lemma_isda_parts_bounded(lo, hi);
        crate::fraction::lemma_reduce(isda_parts(lo, hi).0, isda_parts(lo, hi).1);
        lemma_negation_cancels(reduce(isda_parts(lo, hi).0, isda_parts(lo, hi).1));
    } else {
        lemma_isda_parts_bounded(s, s);
        lemma_isda_position(s, s);
        lemma_reduce_zero_count(isda_parts(s, s).1);
    }
    // The 30/360 family.
    lemma_thirty_counts_vanish(s, isda.termination_date()@);
    let bond = |x: int, y: int| bond_count(x, y);
    let us = |x: int, y: int| us_count(x, y);
    let eu = |x: int, y: int| european_count(x, y);
    let thirty = |x: int, y: int| isda_thirty_count(x, y, isda.termination_date()@);
    lemma_signed_count_reverses(s, e, bond);
    lemma_signed_count_reverses(s, e, us);
    lemma_signed_count_reverses(s, e, eu);
    lemma_signed_count_reverses(s, e, thirty);
    lemma_basis_reverses(signed_count(s, e, bond), 360);
    lemma_basis_reverses(signed_count(s, e, us), 360);
    lemma_basis_reverses(signed_count(s, e, eu), 360);
    lemma_basis_reverses(signed_count(s, e, thirty), 360);
    // ACT/ACT (ICMA), unbound.
    lemma_basis_reverses(1, icma.frequency_of().times_per_year());
    lemma_basis_reverses(-1, icma.frequency_of().times_per_year());
    // ACT/ACT (ICMA), bound to a schedule.
    let (lo, hi) = if s < e {
        (s, e)
    } else {
        (e, s)
    };
    crate::accrual_split::lemma_bound_ordered_nonneg(
        bound.schedule_of().date_serials(),
        bound.schedule_of().reference_serials(),
        bound.tenor_of(),
        bound.end_of_month_of(),
        bound.frequency_of().times_per_year(),
        lo,
        hi,
    );
    lemma_negation_cancels(bound.ordered_spec(lo, hi));
}

/// The day of the month as the 30/360 conventions read it: the 31st
/// counts as the 30th.
pub open spec fn day_at_most_30(d: int) -> int {
    if d > 30 {
        30
    } else {
        d
    }
}

/// The 30/360 US day count from `s` to `e >= s`, by the convention's
/// rules on the two days of the month `D1` and `D2`:
/// - when the start is the last day of February, `D1` counts as 30, and
///   so does `D2` when the end is the last day of February too;
/// - otherwise the end-of-February rule does not touch `D2` at all, and
///   `D1` counts as at most 30;
/// - `D2 = 31` counts as 30 when `D1`, so read, is 30;
/// and the count is `360·Δyear + 30·Δmonth + (D2 − D1)`. So an end on
/// February 28 after an August 31 start counts 178 days.
pub proof fn lemma_us_day_rules(s: int, e: int)
    requires
        valid_serial(s),
        valid_serial(e),
        s <= e,
    ensures
        ({
            let (y1, m1, d1) = ymd_of(s);
            let (y2, m2, d2) = ymd_of(e);
            let feb_start = m1 == 2 && d1 == days_in_month(y1, 2);
            let feb_end = m2 == 2 && d2 == days_in_month(y2, 2);
            let first = if feb_start {
                30
            } else {
                day_at_most_30(d1)
            };
            let second = if feb_start && feb_end {
                30
            } else if d2 == 31 && first == 30 {
                30
            } else {
                d2
            };
            us_count(s, e) == 360 * (y2 - y1) + 30 * (m2 - m1) + (second - first)
        }),
{
    crate::date::lemma_ymd_of(s);
    crate::date::lemma_ymd_of(e);
}

/// The 30E/360 (ISDA) day count from `s` to a later `e`, for a schedule
/// terminating on `term`: the start's day counts as 30 when it is the last
/// day of February and as at most 30 otherwise; the end's day counts as 30
/// when it is the last day of February and not the termination date, and
/// otherwise as at most 30, whether or not it is the termination date. The
/// count is `360·Δyear + 30·Δmonth + (D2 − D1)`.
pub proof fn lemma_isda_thirty_day_rules(s: int, e: int, term: int)
    requires
        valid_serial(s),
        valid_serial(e),
        s < e,
    ensures
        ({
            let (y1, m1, d1) = ymd_of(s);
            let (y2, m2, d2) = ymd_of(e);
            let first = if m1 == 2 && d1 == days_in_month(y1, 2) {
                30
            } else {
                day_at_most_30(d1)
            };
            let second = if m2 == 2 && d2 == days_in_month(y2, 2) && e != term {
                30
            } else {
                day_at_most_30(d2)
            };
            isda_thirty_count(s, e, term) == 360 * (y2 - y1) + 30 * (m2 - m1) + (second - first)
        }),
{
    crate::date::lemma_ymd_of(s);
    crate::date::lemma_ymd_of(e);
}

/// The 30/360 Bond Basis and 30E/360 day counts from `s` to `e >= s`:
/// Bond Basis reads `D1` as at most 30 and `D2 = 31` as 30 only when `D1`
/// so read is 30; 30E/360 reads both days as at most 30. Each count is
/// `360·Δyear + 30·Δmonth + (D2 − D1)`.
pub proof fn lemma_bond_and_european_day_rules(s: int, e: int)
    requires
        valid_serial(s),
        valid_serial(e),
        s <= e,
    ensures
        ({
            let (y1, m1, d1) = ymd_of(s);
            let (y2, m2, d2) = ymd_of(e);
            let first = day_at_most_30(d1);
            &&& bond_count(s, e) == 360 * (y2 - y1) + 30 * (m2 - m1) + ((if d2 == 31 && first
                == 30 {
                30
            } else {
                d2
            }) - first)
            &&& european_count(s, e) == 360 * (y2 - y1) + 30 * (m2 - m1) + (day_at_most_30(d2)
                - first)
        }),
{
    crate::date::lemma_ymd_of(s);
    crate::date::lemma_ymd_of(e);
}

} // verus!
