//! Conversions to and from `chrono`'s [`NaiveDate`](chrono::NaiveDate),
//! [`Weekday`](chrono::Weekday) and [`Month`](chrono::Month). A chrono
//! date converts when its year is supported; every date of this library
//! converts to chrono.

use vstd::prelude::*;

use chrono::Datelike;

use crate::date::{
    month_from_number, serial_of, valid_serial, valid_ymd, weekday_from_number, ymd_of, Date, Month, Weekday,
    FIRST_YEAR, LAST_YEAR,
};
use crate::error::TimeError;

verus! {

/// The year number that a chrono date holds.
pub uninterp spec fn chrono_year_of(d: chrono::NaiveDate) -> i32;

/// The month number, January = 1, that a chrono date holds.
pub uninterp spec fn chrono_month_of(d: chrono::NaiveDate) -> u32;

/// The day of the month that a chrono date holds.
pub uninterp spec fn chrono_day_of(d: chrono::NaiveDate) -> u32;

/// The ISO number, Monday = 1, of a chrono weekday.
pub uninterp spec fn chrono_weekday_number_of(w: chrono::Weekday) -> u32;

/// The number, January = 1, of a chrono month.
pub uninterp spec fn chrono_month_number_of(m: chrono::Month) -> u32;

/// `chrono::Datelike::year` of a chrono date: the year it holds.
#[verifier::external_body]
fn naive_year(d: &chrono::NaiveDate) -> (r: i32)
    ensures
        r == chrono_year_of(*d),
{
    d.year()
}

/// `chrono::Datelike::month`: the month it holds, documented to lie in
/// 1..=12.
#[verifier::external_body]
fn naive_month(d: &chrono::NaiveDate) -> (r: u32)
    ensures
        r == chrono_month_of(*d),
        1 <= r <= 12,
{
    d.month()
}

/// `chrono::Datelike::day`: the day of the month it holds, documented to
/// lie in 1..=31.
#[verifier::external_body]
fn naive_day(d: &chrono::NaiveDate) -> (r: u32)
    ensures
        r == chrono_day_of(*d),
        1 <= r <= 31,
{
    d.day()
}

/// `chrono::NaiveDate::from_ymd_opt`, which the source shows to succeed on
/// every valid Gregorian date of chrono's year range (that range holds
/// 1901..=2199), with a date that holds the given year, month and day. A
/// chrono date is a value determined by its year, month and day (the source
/// packs the year, the day of the year and the year's flags, all fixed by
/// them), so any chrono date holding the same three numbers is this one.
#[verifier::external_body]
fn naive_from_ymd(y: i32, m: u32, d: u32) -> (r: chrono::NaiveDate)
    requires
        valid_ymd(y as int, m as int, d as int),
    ensures
        chrono_year_of(r) == y,
        chrono_month_of(r) == m,
        chrono_day_of(r) == d,
        forall|n: chrono::NaiveDate|
            #![trigger chrono_year_of(n), chrono_month_of(n), chrono_day_of(n)]
            chrono_year_of(n) == y && chrono_month_of(n) == m && chrono_day_of(n) == d ==> n == r,
{
    chrono::NaiveDate::from_ymd_opt(y, m, d).unwrap_or_default()
}

/// `chrono::Weekday::number_from_monday`: Monday = 1 .. Sunday = 7.
#[verifier::external_body]
fn chrono_weekday_number(w: chrono::Weekday) -> (r: u32)
    ensures
        r == chrono_weekday_number_of(w),
        1 <= r <= 7,
{
    w.number_from_monday()
}

/// `TryFrom<u8> for chrono::Weekday`, which the source shows to map
/// 0..=6 to Monday..Sunday, so that the weekday it returns has ISO number
/// `n + 1`.
#[verifier::external_body]
fn chrono_weekday_from_index(n: u8) -> (r: chrono::Weekday)
    requires
        n < 7,
    ensures
        chrono_weekday_number_of(r) == n + 1,
{
    match chrono::Weekday::try_from(n) {
        Ok(w) => w,
        Err(_) => chrono::Weekday::Mon,
    }
}

/// `chrono::Month::number_from_month`: January = 1 .. December = 12.
#[verifier::external_body]
fn chrono_month_number(m: chrono::Month) -> (r: u32)
    ensures
        r == chrono_month_number_of(m),
        1 <= r <= 12,
{
    m.number_from_month()
}

/// `TryFrom<u8> for chrono::Month`, which the source shows to map 1..=12
/// to January..December, so that the month it returns has number `n`.
#[verifier::external_body]
fn chrono_month_from_number(n: u8) -> (r: chrono::Month)
    requires
        1 <= n <= 12,
    ensures
        chrono_month_number_of(r) == n,
{
    match chrono::Month::try_from(n) {
        Ok(m) => m,
        Err(_) => chrono::Month::January,
    }
}

/// What converting the year, month and day numbers `(y, m, d)` yields: the
/// year is checked first, then the day against the month's length.
pub open spec fn parts_outcome(y: int, m: int, d: int) -> Result<Date, TimeError> {
    if !(FIRST_YEAR <= y <= LAST_YEAR) {
        Err(TimeError::YearOutOfRange)
    } else if !valid_ymd(y, m, d) {
        Err(TimeError::DayOutOfRange)
    } else {
        Ok(Date::with_serial(serial_of(y, m, d)))
    }
}

impl Date {
    /// The date with chrono's year, month and day numbers: a year outside
    /// the supported range is refused with `YearOutOfRange`, a day beyond
    /// the month's length with `DayOutOfRange`.
    pub fn from_chrono_parts(year: i32, month: u32, day: u32) -> (r: Result<Date, TimeError>)
        requires
            1 <= month <= 12,
            1 <= day <= 31,
        ensures
            r == parts_outcome(year as int, month as int, day as int),
    {
        if year < 0 || year > 65535 {
            return Err(TimeError::YearOutOfRange);
        }
        let m = match Month::try_from_u8(month as u8) {
            Ok(m) => m,
            Err(e) => return Err(e),
        };
        let r = Date::from_ymd(year as u16, m, day as u8);
        proof {
            if valid_ymd(year as int, month as int, day as int) {
                let s = serial_of(year as int, month as int, day as int);
                Date::lemma_with_serial(s);
                Date::lemma_view_injective(r->Ok_0, Date::with_serial(s));
            }
        }
        r
    }

    /// The chrono date with this date's year, month and day: the only one
    /// holding them.
    pub fn to_chrono(self) -> (r: chrono::NaiveDate)
        ensures
            (chrono_year_of(r) as int, chrono_month_of(r) as int, chrono_day_of(r) as int)
                == ymd_of(self@),
            forall|n: chrono::NaiveDate|
                #![trigger chrono_year_of(n), chrono_month_of(n), chrono_day_of(n)]
                (chrono_year_of(n) as int, chrono_month_of(n) as int, chrono_day_of(n) as int)
                    == ymd_of(self@) ==> n == r,
    {
        let (y, m, d) = self.to_ymd();
        naive_from_ymd(y.get() as i32, m.get() as u32, d as u32)
    }
}

/// A date converted to chrono and back is the same date.
pub proof fn lemma_chrono_round_trip(date: Date)
    requires
        valid_serial(date@),
    ensures
        parts_outcome(ymd_of(date@).0, ymd_of(date@).1, ymd_of(date@).2) == Ok::<Date, TimeError>(
            date,
        ),
{
    crate::date::lemma_ymd_of(date@);
    Date::lemma_with_serial(date@);
    Date::lemma_view_injective(date, Date::with_serial(date@));
}

/// A chrono date that converts to a date of this library converts back to
/// itself: `back`, the chrono date of the converted date (the only chrono
/// date holding its year, month and day), is `naive`.
pub proof fn lemma_naive_round_trip(naive: chrono::NaiveDate, back: chrono::NaiveDate)
    requires
        parts_outcome(
            chrono_year_of(naive) as int,
            chrono_month_of(naive) as int,
            chrono_day_of(naive) as int,
        ) is Ok,
        forall|n: chrono::NaiveDate|
            #![trigger chrono_year_of(n), chrono_month_of(n), chrono_day_of(n)]
            (chrono_year_of(n) as int, chrono_month_of(n) as int, chrono_day_of(n) as int) == ymd_of(
                parts_outcome(
                    chrono_year_of(naive) as int,
                    chrono_month_of(naive) as int,
                    chrono_day_of(naive) as int,
                )->Ok_0@,
            ) ==> n == back,
    ensures
        back == naive,
{
    let y = chrono_year_of(naive) as int;
    let m = chrono_month_of(naive) as int;
    let d = chrono_day_of(naive) as int;
    crate::date::lemma_serial_of_bounds(y, m, d);
    Date::lemma_with_serial(serial_of(y, m, d));
    crate::date::lemma_ymd_of_serial_of(y, m, d);
}

impl TryFrom<chrono::NaiveDate> for Date {
    type Error = TimeError;

    /// The date with chrono's year, month and day, refusing years outside
    /// 1901..=2199 with `YearOutOfRange`.
    fn try_from(naive: chrono::NaiveDate) -> (r: Result<Date, TimeError>)
        ensures
            r == parts_outcome(
                chrono_year_of(naive) as int,
                chrono_month_of(naive) as int,
                chrono_day_of(naive) as int,
            ),
    {
        let year = naive_year(&naive);
        let month = naive_month(&naive);
        let day = naive_day(&naive);
        Date::from_chrono_parts(year, month, day)
    }
}

impl vstd::std_specs::convert::TryFromSpecImpl<chrono::NaiveDate> for Date {
    open spec fn obeys_try_from_spec() -> bool {
        true
    }

    open spec fn try_from_spec(naive: chrono::NaiveDate) -> Result<Date, TimeError> {
        parts_outcome(
            chrono_year_of(naive) as int,
            chrono_month_of(naive) as int,
            chrono_day_of(naive) as int,
        )
    }
}

impl From<Date> for chrono::NaiveDate {
    fn from(date: Date) -> (r: chrono::NaiveDate)
        ensures
            (chrono_year_of(r) as int, chrono_month_of(r) as int, chrono_day_of(r) as int)
                == ymd_of(date@),
            forall|n: chrono::NaiveDate|
                #![trigger chrono_year_of(n), chrono_month_of(n), chrono_day_of(n)]
                (chrono_year_of(n) as int, chrono_month_of(n) as int, chrono_day_of(n) as int)
                    == ymd_of(date@) ==> n == r,
    {
        date.to_chrono()
    }
}

impl vstd::std_specs::convert::FromSpecImpl<Date> for chrono::NaiveDate {
    open spec fn obeys_from_spec() -> bool {
        false
    }

    open spec fn from_spec(v: Date) -> chrono::NaiveDate {
        arbitrary()
    }
}

impl Weekday {
    /// The weekday with chrono's ISO number.
    pub fn from_chrono(w: chrono::Weekday) -> (r: Weekday)
        ensures
            r.number() == chrono_weekday_number_of(w),
    {
        let n = chrono_weekday_number(w);
        match Weekday::try_from_u8(n as u8) {
            Ok(d) => d,
            Err(_) => Weekday::Mon,
        }
    }

    /// The chrono weekday with this weekday's ISO number.
    pub fn to_chrono(self) -> (r: chrono::Weekday)
        ensures
            chrono_weekday_number_of(r) == self.number(),
    {
        chrono_weekday_from_index(self.get() - 1)
    }
}

impl From<chrono::Weekday> for Weekday {
    fn from(w: chrono::Weekday) -> (r: Weekday)
        ensures
            r.number() == chrono_weekday_number_of(w),
    {
        Weekday::from_chrono(w)
    }
}

impl vstd::std_specs::convert::FromSpecImpl<chrono::Weekday> for Weekday {
    open spec fn obeys_from_spec() -> bool {
        true
    }

    open spec fn from_spec(w: chrono::Weekday) -> Weekday {
        weekday_from_number(chrono_weekday_number_of(w) as int)
    }
}

impl From<Weekday> for chrono::Weekday {
    fn from(w: Weekday) -> (r: chrono::Weekday)
        ensures
            chrono_weekday_number_of(r) == w.number(),
    {
        w.to_chrono()
    }
}

impl vstd::std_specs::convert::FromSpecImpl<Weekday> for chrono::Weekday {
    open spec fn obeys_from_spec() -> bool {
        false
    }

    open spec fn from_spec(v: Weekday) -> chrono::Weekday {
        arbitrary()
    }
}

/// A weekday converted to chrono and back is the same weekday.
pub proof fn lemma_weekday_round_trip(w: Weekday, c: chrono::Weekday, back: Weekday)
    requires
        chrono_weekday_number_of(c) == w.number(),
        back.number() == chrono_weekday_number_of(c),
    ensures
        back == w,
{
}

impl Month {
    /// The month with chrono's number.
    pub fn from_chrono(m: chrono::Month) -> (r: Month)
        ensures
            r.number() == chrono_month_number_of(m),
    {
        let n = chrono_month_number(m);
        match Month::try_from_u8(n as u8) {
            Ok(x) => x,
            Err(_) => Month::Jan,
        }
    }

    /// The chrono month with this month's number.
    pub fn to_chrono(self) -> (r: chrono::Month)
        ensures
            chrono_month_number_of(r) == self.number(),
    {
        chrono_month_from_number(self.get())
    }
}

impl From<chrono::Month> for Month {
    fn from(m: chrono::Month) -> (r: Month)
        ensures
            r.number() == chrono_month_number_of(m),
    {
        Month::from_chrono(m)
    }
}

impl vstd::std_specs::convert::FromSpecImpl<chrono::Month> for Month {
    open spec fn obeys_from_spec() -> bool {
        true
    }

    open spec fn from_spec(m: chrono::Month) -> Month {
        month_from_number(chrono_month_number_of(m) as int)
    }
}

impl From<Month> for chrono::Month {
    fn from(m: Month) -> (r: chrono::Month)
        ensures
            chrono_month_number_of(r) == m.number(),
    {
        m.to_chrono()
    }
}

impl vstd::std_specs::convert::FromSpecImpl<Month> for chrono::Month {
    open spec fn obeys_from_spec() -> bool {
        false
    }

    open spec fn from_spec(v: Month) -> chrono::Month {
        arbitrary()
    }
}

/// A month converted to chrono and back is the same month.
pub proof fn lemma_month_round_trip(m: Month, c: chrono::Month, back: Month)
    requires
        chrono_month_number_of(c) == m.number(),
        back.number() == chrono_month_number_of(c),
    ensures
        back == m,
{
}

} // verus!
