//! Dates and their building blocks: [`Date`], [`Year`], [`Month`],
//! [`Weekday`], and [`Ordinal`].
//!
//! A [`Date`] counts days from 1901-01-01 (serial zero); the supported range
//! is 1901-01-01..=2199-12-31. Every operation is stated against the integer
//! model below: `serial_of(y, m, d)` maps a valid (year, month, day) to its
//! serial, and `ymd_of(s)` is its inverse.

use vstd::prelude::*;

use core::ops::{Add, Sub};
use vstd::std_specs::ops::{AddSpecImpl, SubSpecImpl};
use vstd::string::StringSliceAdditionalSpecFns;

use crate::error::TimeError;
use crate::period::{with_length_of, Period};
use crate::text::{four_digits, push_four_digits, push_two_digits, string_of, two_digits};

verus! {

// ---- The integer model --------------------------------------------------

/// The first supported year.
pub const FIRST_YEAR: u16 = 1901;

/// The last supported year.
pub const LAST_YEAR: u16 = 2199;

/// The serial of 2199-12-31, the last supported date.
pub const MAX_SERIAL: u32 = 109207;

/// Gregorian leap-year rule.
pub open spec fn is_leap_year(y: int) -> bool {
    (y % 4 == 0 && y % 100 != 0) || y % 400 == 0
}

/// Number of days in year `y`.
pub open spec fn days_in_year(y: int) -> int {
    if is_leap_year(y) { 366 } else { 365 }
}

/// Number of days in month `m` (1-based) of year `y`.
pub open spec fn days_in_month(y: int, m: int) -> int {
    if m == 2 {
        if is_leap_year(y) { 29 } else { 28 }
    } else if m == 4 || m == 6 || m == 9 || m == 11 {
        30
    } else {
        31
    }
}

/// Leap years in `1..y`.
pub open spec fn leap_years_before(y: int) -> int {
    (y - 1) / 4 - (y - 1) / 100 + (y - 1) / 400
}

/// Serial of January 1 of year `y`.
pub open spec fn year_start(y: int) -> int {
    365 * (y - 1901) + leap_years_before(y) - leap_years_before(1901)
}

/// Days of year `y` that precede the first of month `m`.
pub open spec fn month_start(y: int, m: int) -> int {
    let base: int = if m <= 1 {
        0
    } else if m == 2 {
        31
    } else if m == 3 {
        59
    } else if m == 4 {
        90
    } else if m == 5 {
        120
    } else if m == 6 {
        151
    } else if m == 7 {
        181
    } else if m == 8 {
        212
    } else if m == 9 {
        243
    } else if m == 10 {
        273
    } else if m == 11 {
        304
    } else {
        334
    };
    if m > 2 && is_leap_year(y) { base + 1 } else { base }
}

/// `true` iff (y, m, d) names a day in the supported range.
pub open spec fn valid_ymd(y: int, m: int, d: int) -> bool {
    FIRST_YEAR <= y <= LAST_YEAR && 1 <= m <= 12 && 1 <= d <= days_in_month(y, m)
}

/// Serial of the day (y, m, d).
pub open spec fn serial_of(y: int, m: int, d: int) -> int {
    year_start(y) + month_start(y, m) + d - 1
}

/// `true` iff `s` is the serial of a supported date.
pub open spec fn valid_serial(s: int) -> bool {
    0 <= s <= MAX_SERIAL
}

/// The (year, month, day) whose serial is `s`; unique by
/// [`lemma_serial_of_injective`], and it exists for every valid serial by
/// [`lemma_ymd_of`].
pub open spec fn ymd_of(s: int) -> (int, int, int) {
    choose|y: int, m: int, d: int| valid_ymd(y, m, d) && serial_of(y, m, d) == s
}

/// ISO weekday number (Monday = 1 .. Sunday = 7) of serial `s`;
/// serial zero, 1901-01-01, was a Tuesday.
pub open spec fn weekday_of(s: int) -> int {
    (s + 1) % 7 + 1
}

/// One year further on, year_start grows by the year's length.
pub proof fn lemma_year_start_step(y: int)
    requires
        y >= 1,
    ensures
        year_start(y + 1) == year_start(y) + days_in_year(y),
{
    assert(y / 4 == (y - 1) / 4 + (if y % 4 == 0 { 1int } else { 0 }));
    assert(y / 100 == (y - 1) / 100 + (if y % 100 == 0 { 1int } else { 0 }));
    assert(y / 400 == (y - 1) / 400 + (if y % 400 == 0 { 1int } else { 0 }));
    assert(y % 400 == 0 ==> y % 100 == 0 && y % 4 == 0);
    assert(y % 100 == 0 ==> y % 4 == 0);
}

/// `year_start` is strictly increasing, at 365 or 366 days a year.
pub proof fn lemma_year_start_bounds(a: int, b: int)
    requires
        1 <= a <= b,
    ensures
        365 * (b - a) <= year_start(b) - year_start(a) <= 366 * (b - a),
    decreases b - a,
{
    if a < b {
        lemma_year_start_bounds(a, b - 1);
        lemma_year_start_step(b - 1);
    }
}

/// The month offsets accumulate the month lengths.
pub proof fn lemma_month_start_step(y: int, m: int)
    requires
        1 <= m <= 12,
    ensures
        month_start(y, m) + days_in_month(y, m) == if m == 12 {
            days_in_year(y)
        } else {
            month_start(y, m + 1)
        },
        month_start(y, 1) == 0,
{
}

/// A valid date's serial lies inside its year and month.
pub proof fn lemma_serial_of_bounds(y: int, m: int, d: int)
    requires
        valid_ymd(y, m, d),
    ensures
        year_start(y) <= serial_of(y, m, d) < year_start(y + 1),
        year_start(y) + month_start(y, m) <= serial_of(y, m, d) < year_start(y) + month_start(y, m)
            + days_in_month(y, m),
        valid_serial(serial_of(y, m, d)),
{
    lemma_year_start_step(y);
    lemma_month_start_step(y, m);
    lemma_year_start_bounds(1901, y);
    lemma_year_start_bounds(y + 1, 2200);
    if m < 12 {
        lemma_month_starts_ordered(y, m + 1, 12);
    }
    lemma_month_start_step(y, 12);
}

/// Two valid dates with the same serial are the same date.
pub proof fn lemma_serial_of_injective(y1: int, m1: int, d1: int, y2: int, m2: int, d2: int)
    requires
        valid_ymd(y1, m1, d1),
        valid_ymd(y2, m2, d2),
        serial_of(y1, m1, d1) == serial_of(y2, m2, d2),
    ensures
        y1 == y2 && m1 == m2 && d1 == d2,
{
    lemma_serial_of_bounds(y1, m1, d1);
    lemma_serial_of_bounds(y2, m2, d2);
    if y1 < y2 {
        lemma_year_start_bounds(y1 + 1, y2);
    } else if y2 < y1 {
        lemma_year_start_bounds(y2 + 1, y1);
    }
    assert(y1 == y2);
    if m1 < m2 {
        lemma_month_starts_ordered(y1, m1 + 1, m2);
        lemma_month_start_step(y1, m1);
    } else if m2 < m1 {
        lemma_month_starts_ordered(y1, m2 + 1, m1);
        lemma_month_start_step(y1, m2);
    }
}

/// Any day of an earlier month comes before any day of a later month.
pub proof fn lemma_earlier_month_first(y1: int, m1: int, d1: int, y2: int, m2: int, d2: int)
    requires
        valid_ymd(y1, m1, d1),
        valid_ymd(y2, m2, d2),
        y1 * 12 + m1 < y2 * 12 + m2,
    ensures
        serial_of(y1, m1, d1) < serial_of(y2, m2, d2),
{
    lemma_serial_of_bounds(y1, m1, d1);
    lemma_serial_of_bounds(y2, m2, d2);
    lemma_month_start_step(y1, m1);
    if y1 == y2 {
        lemma_month_starts_ordered(y1, m1 + 1, m2);
    } else {
        assert(y1 < y2);
        if m1 < 12 {
            lemma_month_starts_ordered(y1, m1 + 1, 12);
        }
        lemma_month_start_step(y1, 12);
        lemma_year_start_step(y1);
        lemma_year_start_bounds(y1 + 1, y2);
    }
}

/// Serial order is calendar order: for valid dates, one serial is below
/// another exactly when its (year, month, day) comes first
/// lexicographically.
pub proof fn lemma_serial_order_is_calendar_order(y1: int, m1: int, d1: int, y2: int, m2: int, d2: int)
    requires
        valid_ymd(y1, m1, d1),
        valid_ymd(y2, m2, d2),
    ensures
        serial_of(y1, m1, d1) < serial_of(y2, m2, d2) <==> (y1 < y2 || (y1 == y2 && (m1 < m2 || (m1
            == m2 && d1 < d2)))),
        serial_of(y1, m1, d1) == serial_of(y2, m2, d2) <==> (y1 == y2 && m1 == m2 && d1 == d2),
{
    if y1 * 12 + m1 < y2 * 12 + m2 {
        lemma_earlier_month_first(y1, m1, d1, y2, m2, d2);
    } else if y2 * 12 + m2 < y1 * 12 + m1 {
        lemma_earlier_month_first(y2, m2, d2, y1, m1, d1);
    } else {
        assert(y1 == y2 && m1 == m2);
    }
}

/// Month offsets never decrease within a year.
pub proof fn lemma_month_starts_ordered(y: int, a: int, b: int)
    requires
        1 <= a <= b <= 12,
    ensures
        month_start(y, a) <= month_start(y, b),
    decreases b - a,
{
    if a < b {
        lemma_month_starts_ordered(y, a, b - 1);
        lemma_month_start_step(y, b - 1);
    }
}

/// Every valid serial decomposes into a unique valid (year, month, day),
/// and `ymd_of` names it.
pub proof fn lemma_ymd_of(s: int)
    requires
        valid_serial(s),
    ensures
        valid_ymd(ymd_of(s).0, ymd_of(s).1, ymd_of(s).2),
        serial_of(ymd_of(s).0, ymd_of(s).1, ymd_of(s).2) == s,
{
    let (y, m, d) = decompose_serial(s);
    assert(valid_ymd(y, m, d) && serial_of(y, m, d) == s);
}

/// `ymd_of` inverts `serial_of` on valid dates.
pub proof fn lemma_ymd_of_serial_of(y: int, m: int, d: int)
    requires
        valid_ymd(y, m, d),
    ensures
        ymd_of(serial_of(y, m, d)) == (y, m, d),
{
    let s = serial_of(y, m, d);
    assert(valid_ymd(y, m, d) && serial_of(y, m, d) == s);
    let t = ymd_of(s);
    lemma_serial_of_injective(t.0, t.1, t.2, y, m, d);
}

/// Constructive decomposition of a serial, used to show that `ymd_of` is
/// defined on every valid serial.
proof fn decompose_serial(s: int) -> (r: (int, int, int))
    requires
        valid_serial(s),
    ensures
        valid_ymd(r.0, r.1, r.2),
        serial_of(r.0, r.1, r.2) == s,
{
    lemma_year_start_bounds(1901, 2200);
    let y = find_year(s, 1901);
    lemma_year_start_step(y);
    let m = find_month(y, s - year_start(y), 1);
    lemma_month_start_step(y, m);
    (y, m, s - year_start(y) - month_start(y, m) + 1)
}

/// The year holding serial `s`, searching upwards from `y`.
proof fn find_year(s: int, y: int) -> (r: int)
    requires
        valid_serial(s),
        1901 <= y <= 2199,
        year_start(y) <= s,
    ensures
        1901 <= r <= 2199,
        year_start(r) <= s,
        r == 2199 || s < year_start(r + 1),
    decreases 2199 - y,
{
    if y < 2199 && year_start(y + 1) <= s {
        find_year(s, y + 1)
    } else {
        y
    }
}

/// The month holding day-of-year `doy`, searching upwards from `m`.
proof fn find_month(y: int, doy: int, m: int) -> (r: int)
    requires
        1 <= m <= 12,
        month_start(y, m) <= doy,
    ensures
        1 <= r <= 12,
        month_start(y, r) <= doy,
        r == 12 || doy < month_start(y, r + 1),
    decreases 12 - m,
{
    if m < 12 && month_start(y, m + 1) <= doy {
        find_month(y, doy, m + 1)
    } else {
        m
    }
}

// ---- Year ---------------------------------------------------------------

/// A year in the range 1901..=2199.
#[derive(Debug, Clone, Copy, PartialEq, Eq, PartialOrd, Ord, Hash, Structural)]
pub struct Year {
    value: u16,
}

impl View for Year {
    type V = int;

    closed spec fn view(&self) -> int {
        self.value as int
    }
}

impl Year {
    #[verifier::type_invariant]
    spec fn in_range(self) -> bool {
        FIRST_YEAR <= self.value <= LAST_YEAR
    }

    /// The earliest supported year, 1901.
    pub fn min() -> (y: Year)
        ensures
            y@ == 1901,
    {
        Year { value: FIRST_YEAR }
    }

    /// The latest supported year, 2199.
    pub fn max() -> (y: Year)
        ensures
            y@ == 2199,
    {
        Year { value: LAST_YEAR }
    }

    /// Construct a [`Year`], refusing values outside `1901..=2199`.
    pub fn new(year: u16) -> (r: Result<Year, TimeError>)
        ensures
            FIRST_YEAR <= year <= LAST_YEAR ==> r is Ok && r->Ok_0@ == year,
            !(FIRST_YEAR <= year <= LAST_YEAR) ==> r == Err::<Year, TimeError>(TimeError::YearOutOfRange),
    {
        if year < FIRST_YEAR || year > LAST_YEAR {
            Err(TimeError::YearOutOfRange)
        } else {
            Ok(Year { value: year })
        }
    }

    /// Construct a [`Year`] known to be in range.
    pub fn literal(year: u16) -> (y: Year)
        requires
            FIRST_YEAR <= year <= LAST_YEAR,
        ensures
            y@ == year,
    {
        Year { value: year }
    }

    /// The year as a `u16`.
    pub fn get(self) -> (r: u16)
        ensures
            r == self@,
            FIRST_YEAR <= r <= LAST_YEAR,
    {
        proof {
            use_type_invariant(&self);
        }
        self.value
    }

    /// `true` iff this is a Gregorian leap year.
    pub fn is_leap(self) -> (r: bool)
        ensures
            r == is_leap_year(self@),
    {
        is_leap_u16(self.value)
    }

    /// The year as decimal text.
    pub fn to_string(self) -> (s: String)
        ensures
            s@ == four_digits(self@),
    {
        proof {
            use_type_invariant(&self);
        }
        let mut out: Vec<char> = Vec::new();
        push_four_digits(&mut out, self.value as u64);
        proof {
            assert(out@ =~= four_digits(self@));
        }
        string_of(&out)
    }

    /// Number of days in the year (365 or 366).
    pub fn length(self) -> (r: u16)
        ensures
            r == days_in_year(self@),
    {
        if self.is_leap() {
            366
        } else {
            365
        }
    }
}

fn is_leap_u16(year: u16) -> (r: bool)
    ensures
        r == is_leap_year(year as int),
{
    (year % 4 == 0 && year % 100 != 0) || year % 400 == 0
}

// ---- Month --------------------------------------------------------------

/// A month of the year.
#[derive(Debug, Clone, Copy, PartialEq, Eq, PartialOrd, Ord, Hash, Structural)]
pub enum Month {
    /// January
    Jan,
    /// February
    Feb,
    /// March
    Mar,
    /// April
    Apr,
    /// May
    May,
    /// June
    Jun,
    /// July
    Jul,
    /// August
    Aug,
    /// September
    Sep,
    /// October
    Oct,
    /// November
    Nov,
    /// December
    Dec,
}

/// The month with number `m` (1..=12).
pub open spec fn month_from_number(m: int) -> Month {
    if m == 1 {
        Month::Jan
    } else if m == 2 {
        Month::Feb
    } else if m == 3 {
        Month::Mar
    } else if m == 4 {
        Month::Apr
    } else if m == 5 {
        Month::May
    } else if m == 6 {
        Month::Jun
    } else if m == 7 {
        Month::Jul
    } else if m == 8 {
        Month::Aug
    } else if m == 9 {
        Month::Sep
    } else if m == 10 {
        Month::Oct
    } else if m == 11 {
        Month::Nov
    } else {
        Month::Dec
    }
}

impl Month {
    /// The month's number, January = 1 .. December = 12.
    pub open spec fn number(self) -> int {
        match self {
            Month::Jan => 1,
            Month::Feb => 2,
            Month::Mar => 3,
            Month::Apr => 4,
            Month::May => 5,
            Month::Jun => 6,
            Month::Jul => 7,
            Month::Aug => 8,
            Month::Sep => 9,
            Month::Oct => 10,
            Month::Nov => 11,
            Month::Dec => 12,
        }
    }

    /// Month number, `Jan => 1`, ..., `Dec => 12`.
    pub fn get(self) -> (r: u8)
        ensures
            r == self.number(),
            1 <= r <= 12,
    {
        match self {
            Month::Jan => 1,
            Month::Feb => 2,
            Month::Mar => 3,
            Month::Apr => 4,
            Month::May => 5,
            Month::Jun => 6,
            Month::Jul => 7,
            Month::Aug => 8,
            Month::Sep => 9,
            Month::Oct => 10,
            Month::Nov => 11,
            Month::Dec => 12,
        }
    }

    /// Construct a [`Month`] from its number, refusing anything outside
    /// `1..=12`.
    pub fn try_from_u8(month: u8) -> (r: Result<Month, TimeError>)
        ensures
            1 <= month <= 12 ==> r == Ok::<Month, TimeError>(month_from_number(month as int)),
            !(1 <= month <= 12) ==> r == Err::<Month, TimeError>(TimeError::MonthOutOfRange),
    {
        match month {
            1 => Ok(Month::Jan),
            2 => Ok(Month::Feb),
            3 => Ok(Month::Mar),
            4 => Ok(Month::Apr),
            5 => Ok(Month::May),
            6 => Ok(Month::Jun),
            7 => Ok(Month::Jul),
            8 => Ok(Month::Aug),
            9 => Ok(Month::Sep),
            10 => Ok(Month::Oct),
            11 => Ok(Month::Nov),
            12 => Ok(Month::Dec),
            _ => Err(TimeError::MonthOutOfRange),
        }
    }

    /// The month's three-letter English abbreviation.
    pub open spec fn abbreviation(self) -> Seq<char> {
        match self {
            Month::Jan => "Jan"@,
            Month::Feb => "Feb"@,
            Month::Mar => "Mar"@,
            Month::Apr => "Apr"@,
            Month::May => "May"@,
            Month::Jun => "Jun"@,
            Month::Jul => "Jul"@,
            Month::Aug => "Aug"@,
            Month::Sep => "Sep"@,
            Month::Oct => "Oct"@,
            Month::Nov => "Nov"@,
            Month::Dec => "Dec"@,
        }
    }

    /// The month's three-letter English abbreviation.
    pub fn to_string(self) -> (s: String)
        ensures
            s@ == self.abbreviation(),
    {
        let name: &str = match self {
            Month::Jan => "Jan",
            Month::Feb => "Feb",
            Month::Mar => "Mar",
            Month::Apr => "Apr",
            Month::May => "May",
            Month::Jun => "Jun",
            Month::Jul => "Jul",
            Month::Aug => "Aug",
            Month::Sep => "Sep",
            Month::Oct => "Oct",
            Month::Nov => "Nov",
            Month::Dec => "Dec",
        };
        name.to_owned()
    }

    /// Number of days in this month of `year`.
    pub fn length(self, year: Year) -> (r: u8)
        ensures
            r == days_in_month(year@, self.number()),
            28 <= r <= 31,
    {
        match self {
            Month::Jan | Month::Mar | Month::May | Month::Jul | Month::Aug | Month::Oct
            | Month::Dec => 31,
            Month::Apr | Month::Jun | Month::Sep | Month::Nov => 30,
            Month::Feb => {
                if year.is_leap() {
                    29
                } else {
                    28
                }
            },
        }
    }
}

/// Numbering months and naming them by number are inverse.
pub proof fn lemma_month_number(m: Month)
    ensures
        month_from_number(m.number()) == m,
        1 <= m.number() <= 12,
{
}

// ---- Weekday ------------------------------------------------------------

/// Day of the week, numbered as in ISO 8601: Monday = 1 .. Sunday = 7.
#[derive(Debug, Clone, Copy, PartialEq, Eq, PartialOrd, Ord, Hash, Structural)]
pub enum Weekday {
    /// Monday, ISO 1.
    Mon,
    /// Tuesday, ISO 2.
    Tue,
    /// Wednesday, ISO 3.
    Wed,
    /// Thursday, ISO 4.
    Thu,
    /// Friday, ISO 5.
    Fri,
    /// Saturday, ISO 6.
    Sat,
    /// Sunday, ISO 7.
    Sun,
}

/// The weekday with ISO number `n` (1..=7).
pub open spec fn weekday_from_number(n: int) -> Weekday {
    if n == 1 {
        Weekday::Mon
    } else if n == 2 {
        Weekday::Tue
    } else if n == 3 {
        Weekday::Wed
    } else if n == 4 {
        Weekday::Thu
    } else if n == 5 {
        Weekday::Fri
    } else if n == 6 {
        Weekday::Sat
    } else {
        Weekday::Sun
    }
}

impl Weekday {
    /// The ISO weekday number.
    pub open spec fn number(self) -> int {
        match self {
            Weekday::Mon => 1,
            Weekday::Tue => 2,
            Weekday::Wed => 3,
            Weekday::Thu => 4,
            Weekday::Fri => 5,
            Weekday::Sat => 6,
            Weekday::Sun => 7,
        }
    }

    /// The ISO weekday number: Monday = 1 .. Sunday = 7.
    pub fn get(self) -> (r: u8)
        ensures
            r == self.number(),
            1 <= r <= 7,
    {
        match self {
            Weekday::Mon => 1,
            Weekday::Tue => 2,
            Weekday::Wed => 3,
            Weekday::Thu => 4,
            Weekday::Fri => 5,
            Weekday::Sat => 6,
            Weekday::Sun => 7,
        }
    }

    /// The weekday's three-letter English abbreviation.
    pub open spec fn abbreviation(self) -> Seq<char> {
        match self {
            Weekday::Mon => "Mon"@,
            Weekday::Tue => "Tue"@,
            Weekday::Wed => "Wed"@,
            Weekday::Thu => "Thu"@,
            Weekday::Fri => "Fri"@,
            Weekday::Sat => "Sat"@,
            Weekday::Sun => "Sun"@,
        }
    }

    /// The weekday's three-letter English abbreviation.
    pub fn to_string(self) -> (s: String)
        ensures
            s@ == self.abbreviation(),
    {
        let name: &str = match self {
            Weekday::Mon => "Mon",
            Weekday::Tue => "Tue",
            Weekday::Wed => "Wed",
            Weekday::Thu => "Thu",
            Weekday::Fri => "Fri",
            Weekday::Sat => "Sat",
            Weekday::Sun => "Sun",
        };
        name.to_owned()
    }

    /// Construct a [`Weekday`] from its ISO number, refusing anything
    /// outside `1..=7`.
    pub fn try_from_u8(weekday: u8) -> (r: Result<Weekday, TimeError>)
        ensures
            1 <= weekday <= 7 ==> r == Ok::<Weekday, TimeError>(weekday_from_number(weekday as int)),
            !(1 <= weekday <= 7) ==> r == Err::<Weekday, TimeError>(TimeError::WeekdayOutOfRange),
    {
        match weekday {
            1 => Ok(Weekday::Mon),
            2 => Ok(Weekday::Tue),
            3 => Ok(Weekday::Wed),
            4 => Ok(Weekday::Thu),
            5 => Ok(Weekday::Fri),
            6 => Ok(Weekday::Sat),
            7 => Ok(Weekday::Sun),
            _ => Err(TimeError::WeekdayOutOfRange),
        }
    }
}

/// Numbering weekdays and naming them by number are inverse.
pub proof fn lemma_weekday_number(w: Weekday)
    ensures
        weekday_from_number(w.number()) == w,
        1 <= w.number() <= 7,
{
}

// ---- Ordinal ------------------------------------------------------------

/// An ordinal position within a month, for nth-weekday rules.
#[derive(Debug, Clone, Copy, PartialEq, Eq, PartialOrd, Ord, Hash, Structural)]
pub enum Ordinal {
    /// 1st occurrence.
    First,
    /// 2nd occurrence.
    Second,
    /// 3rd occurrence.
    Third,
    /// 4th occurrence.
    Fourth,
    /// 5th occurrence (absent from some month/weekday pairs).
    Fifth,
}

impl Ordinal {
    /// The ordinal's number, 1..=5.
    pub open spec fn number(self) -> int {
        match self {
            Ordinal::First => 1,
            Ordinal::Second => 2,
            Ordinal::Third => 3,
            Ordinal::Fourth => 4,
            Ordinal::Fifth => 5,
        }
    }

    /// The ordinal's number, 1..=5.
    pub fn get(self) -> (r: u8)
        ensures
            r == self.number(),
            1 <= r <= 5,
    {
        match self {
            Ordinal::First => 1,
            Ordinal::Second => 2,
            Ordinal::Third => 3,
            Ordinal::Fourth => 4,
            Ordinal::Fifth => 5,
        }
    }

    /// The ordinal's English name.
    pub open spec fn name(self) -> Seq<char> {
        match self {
            Ordinal::First => "First"@,
            Ordinal::Second => "Second"@,
            Ordinal::Third => "Third"@,
            Ordinal::Fourth => "Fourth"@,
            Ordinal::Fifth => "Fifth"@,
        }
    }

    /// The ordinal's English name.
    pub fn to_string(self) -> (s: String)
        ensures
            s@ == self.name(),
    {
        let name: &str = match self {
            Ordinal::First => "First",
            Ordinal::Second => "Second",
            Ordinal::Third => "Third",
            Ordinal::Fourth => "Fourth",
            Ordinal::Fifth => "Fifth",
        };
        name.to_owned()
    }

    /// Construct an [`Ordinal`] from its number, refusing anything outside
    /// `1..=5`.
    pub fn try_from_u8(n: u8) -> (r: Result<Ordinal, TimeError>)
        ensures
            1 <= n <= 5 ==> r is Ok && r->Ok_0.number() == n,
            !(1 <= n <= 5) ==> r == Err::<Ordinal, TimeError>(TimeError::OrdinalOutOfRange),
    {
        match n {
            1 => Ok(Ordinal::First),
            2 => Ok(Ordinal::Second),
            3 => Ok(Ordinal::Third),
            4 => Ok(Ordinal::Fourth),
            5 => Ok(Ordinal::Fifth),
            _ => Err(TimeError::OrdinalOutOfRange),
        }
    }
}

// ---- Date ---------------------------------------------------------------

/// A calendar date in the supported range 1901-01-01..=2199-12-31, held as
/// its serial: the count of days since 1901-01-01.
#[derive(Debug, Clone, Copy, PartialEq, Eq, Ord, Hash, Structural)]
pub struct Date {
    serial: u32,
}

impl View for Date {
    type V = int;

    closed spec fn view(&self) -> int {
        self.serial as int
    }
}

/// Serial of January 1 of `year`, computed from the closed form.
fn year_start_u32(year: u16) -> (r: u32)
    requires
        FIRST_YEAR <= year <= LAST_YEAR + 1,
    ensures
        r == year_start(year as int),
{
    proof {
        lemma_year_start_bounds(1901, year as int);
    }
    let y = year as u32;
    365 * (y - 1901) + (y - 1) / 4 + (y - 1) / 400 - (y - 1) / 100 - 460
}

/// Days of the year before the first of month `m`.
fn month_start_u32(leap: bool, m: u8) -> (r: u32)
    requires
        1 <= m <= 12,
    ensures
        forall|y: int| is_leap_year(y) == leap ==> r == month_start(y, m as int),
        r <= 335,
{
    let base: u32 = match m {
        1 => 0,
        2 => 31,
        3 => 59,
        4 => 90,
        5 => 120,
        6 => 151,
        7 => 181,
        8 => 212,
        9 => 243,
        10 => 273,
        11 => 304,
        _ => 334,
    };
    if m > 2 && leap {
        base + 1
    } else {
        base
    }
}

/// The month with number `m`.
fn month_numbered(m: u8) -> (r: Month)
    requires
        1 <= m <= 12,
    ensures
        r.number() == m,
        r == month_from_number(m as int),
{
    match m {
        1 => Month::Jan,
        2 => Month::Feb,
        3 => Month::Mar,
        4 => Month::Apr,
        5 => Month::May,
        6 => Month::Jun,
        7 => Month::Jul,
        8 => Month::Aug,
        9 => Month::Sep,
        10 => Month::Oct,
        11 => Month::Nov,
        _ => Month::Dec,
    }
}

/// The (year, month, day) reached by moving `n` calendar months from the
/// day with serial `s`, with the day clamped to the target month's length.
/// The year may fall outside the supported range.
pub open spec fn months_later(s: int, n: int) -> (int, int, int) {
    let t = ymd_of(s);
    let total = t.0 * 12 + (t.1 - 1) + n;
    let ty = total / 12;
    let tm = total % 12 + 1;
    let dim = days_in_month(ty, tm);
    (ty, tm, if t.2 > dim { dim } else { t.2 })
}

/// `true` iff moving `n` months from serial `s` stays in the supported
/// years.
pub open spec fn months_later_in_range(s: int, n: int) -> bool {
    FIRST_YEAR <= months_later(s, n).0 <= LAST_YEAR
}

/// The ISO 8601 text `YYYY-MM-DD` of a (year, month, day).
pub open spec fn iso_text(t: (int, int, int)) -> Seq<char> {
    four_digits(t.0) + seq!['-'] + two_digits(t.1) + seq!['-'] + two_digits(t.2)
}

/// `true` iff byte `b` is an ASCII digit.
pub open spec fn is_digit(b: u8) -> bool {
    48 <= b <= 57
}

/// `true` iff the bytes have the shape `DDDD-DD-DD` of ASCII digits.
pub open spec fn iso_shaped(b: Seq<u8>) -> bool {
    &&& b.len() == 10
    &&& b[4] == 45 && b[7] == 45
    &&& forall|j: int| 0 <= j < 10 && j != 4 && j != 7 ==> is_digit(#[trigger] b[j])
}

/// The (year, month, day) numbers written in `DDDD-DD-DD` bytes.
pub open spec fn iso_fields(b: Seq<u8>) -> (int, int, int) {
    (
        1000 * (b[0] - 48) + 100 * (b[1] - 48) + 10 * (b[2] - 48) + (b[3] - 48),
        10 * (b[5] - 48) + (b[6] - 48),
        10 * (b[8] - 48) + (b[9] - 48),
    )
}

/// What parsing the bytes `b` as `YYYY-MM-DD` yields: a shape error first,
/// then the month, the year and the day are checked in turn.
pub open spec fn parse_outcome(b: Seq<u8>) -> Result<Date, TimeError> {
    if !iso_shaped(b) {
        Err(TimeError::InvalidDateString)
    } else {
        let (y, m, d) = iso_fields(b);
        if !(1 <= m <= 12) {
            Err(TimeError::MonthOutOfRange)
        } else if !(FIRST_YEAR <= y <= LAST_YEAR) {
            Err(TimeError::YearOutOfRange)
        } else if !valid_ymd(y, m, d) {
            Err(TimeError::DayOutOfRange)
        } else {
            Ok(Date::with_serial(serial_of(y, m, d)))
        }
    }
}

/// The serial reached by stepping serial `s` by period `p`, or `None`
/// when the result leaves the supported range. Months and years clamp the
/// day-of-month to the target month's length.
pub open spec fn shifted_serial(s: int, p: Period) -> Option<int> {
    match p {
        Period::Days(n) => if valid_serial(s + n) {
            Some(s + n)
        } else {
            None
        },
        Period::Weeks(n) => if valid_serial(s + 7 * n) {
            Some(s + 7 * n)
        } else {
            None
        },
        Period::Months(n) => if months_later_in_range(s, n as int) {
            Some(
                serial_of(
                    months_later(s, n as int).0,
                    months_later(s, n as int).1,
                    months_later(s, n as int).2,
                ),
            )
        } else {
            None
        },
        Period::Years(n) => if months_later_in_range(s, 12 * n) {
            Some(
                serial_of(
                    months_later(s, 12 * n).0,
                    months_later(s, 12 * n).1,
                    months_later(s, 12 * n).2,
                ),
            )
        } else {
            None
        },
    }
}

/// `shifted_serial` followed, when `end_of_month` is set, `s` is the last
/// day of its month and `p` counts months or years, by a snap to the last
/// day of the target month.
pub open spec fn advanced_serial(s: int, p: Period, end_of_month: bool) -> Option<int> {
    match shifted_serial(s, p) {
        Some(t) => Some(
            if end_of_month && is_end_of_month_serial(s) && (p is Months || p is Years) {
                end_of_month_of(t)
            } else {
                t
            },
        ),
        None => None,
    }
}

/// The date result that stepping `d` by `p` produces.
pub open spec fn date_plus(d: Date, p: Period) -> Result<Date, TimeError> {
    match shifted_serial(d@, p) {
        Some(t) => Ok(Date::with_serial(t)),
        None => Err(TimeError::DateOutOfRange),
    }
}

/// The date result that stepping `d` back by `p` produces.
pub open spec fn date_minus(d: Date, p: Period) -> Result<Date, TimeError> {
    if p.len() == i32::MIN {
        Err(TimeError::DateOutOfRange)
    } else {
        date_plus(d, with_length_of(p, (-p.len()) as i32))
    }
}

/// The last day of the month that holds serial `s`.
pub open spec fn end_of_month_of(s: int) -> int {
    let t = ymd_of(s);
    serial_of(t.0, t.1, days_in_month(t.0, t.1))
}

/// `true` iff serial `s` is the last day of its month.
pub open spec fn is_end_of_month_serial(s: int) -> bool {
    let t = ymd_of(s);
    t.2 == days_in_month(t.0, t.1)
}

impl Date {
    #[verifier::type_invariant]
    spec fn in_range(self) -> bool {
        self.serial <= MAX_SERIAL
    }

    /// Every date's serial is in the supported range.
    pub fn serial_in_range(&self)
        ensures
            valid_serial(self@),
    {
        proof {
            use_type_invariant(self);
        }
    }

    /// Two dates with the same serial are the same date.
    pub proof fn lemma_view_injective(a: Date, b: Date)
        requires
            a@ == b@,
        ensures
            a == b,
    {
    }

    /// The date with serial `s` (meaningful for valid serials).
    pub closed spec fn with_serial(s: int) -> Date {
        Date { serial: s as u32 }
    }

    /// `with_serial` builds the date with the given serial.
    pub proof fn lemma_with_serial(s: int)
        requires
            valid_serial(s),
        ensures
            Date::with_serial(s)@ == s,
    {
    }

    /// The earliest representable date, 1901-01-01.
    pub fn min() -> (d: Date)
        ensures
            d@ == 0,
    {
        Date { serial: 0 }
    }

    /// The latest representable date, 2199-12-31.
    pub fn max() -> (d: Date)
        ensures
            d@ == MAX_SERIAL,
    {
        Date { serial: MAX_SERIAL }
    }

    /// Construct a [`Date`] from year, month, and day, refusing
    /// out-of-range years, zero days, and days beyond the month's length.
    pub fn from_ymd(year: u16, month: Month, day: u8) -> (r: Result<Date, TimeError>)
        ensures
            valid_ymd(year as int, month.number(), day as int) ==> r is Ok && r->Ok_0@
                == serial_of(year as int, month.number(), day as int),
            !(FIRST_YEAR <= year <= LAST_YEAR) ==> r == Err::<Date, TimeError>(
                TimeError::YearOutOfRange,
            ),
            FIRST_YEAR <= year <= LAST_YEAR && !valid_ymd(year as int, month.number(), day as int)
                ==> r == Err::<Date, TimeError>(TimeError::DayOutOfRange),
    {
        let y = match Year::new(year) {
            Ok(y) => y,
            Err(e) => return Err(e),
        };
        let len = month.length(y);
        if day == 0 || day > len {
            return Err(TimeError::DayOutOfRange);
        }
        let start = year_start_u32(year);
        let offset = month_start_u32(y.is_leap(), month.get());
        proof {
            lemma_serial_of_bounds(year as int, month.number(), day as int);
        }
        Ok(Date { serial: start + offset + day as u32 - 1 })
    }

    /// Construct a [`Date`] from a year, month, and day known to be valid.
    pub fn literal(year: u16, month: Month, day: u8) -> (d: Date)
        requires
            valid_ymd(year as int, month.number(), day as int),
        ensures
            d@ == serial_of(year as int, month.number(), day as int),
    {
        match Date::from_ymd(year, month, day) {
            Ok(d) => d,
            Err(_) => Date { serial: 0 },
        }
    }

    /// Construct a [`Date`] from its serial, refusing values outside the
    /// supported range.
    pub fn from_serial(serial: u32) -> (r: Result<Date, TimeError>)
        ensures
            valid_serial(serial as int) ==> r is Ok && r->Ok_0@ == serial,
            !valid_serial(serial as int) ==> r == Err::<Date, TimeError>(
                TimeError::DateOutOfRange,
            ),
    {
        if serial > MAX_SERIAL {
            Err(TimeError::DateOutOfRange)
        } else {
            Ok(Date { serial })
        }
    }

    /// The serial: days since 1901-01-01.
    pub fn serial(self) -> (r: u32)
        ensures
            r == self@,
            valid_serial(self@),
    {
        proof {
            use_type_invariant(&self);
        }
        self.serial
    }

    /// The [`Year`] component.
    pub fn year(self) -> (r: Year)
        ensures
            r@ == ymd_of(self@).0,
            valid_serial(self@),
            valid_ymd(ymd_of(self@).0, ymd_of(self@).1, ymd_of(self@).2),
            serial_of(ymd_of(self@).0, ymd_of(self@).1, ymd_of(self@).2) == self@,
    {
        proof {
            use_type_invariant(&self);
            lemma_ymd_of(self@);
        }
        let s = self.serial;
        let mut y: u16 = (1901 + s / 366) as u16;
        proof {
            lemma_year_start_bounds(1901, y as int);
        }
        while y < LAST_YEAR && year_start_u32(y + 1) <= s
            invariant
                FIRST_YEAR <= y <= LAST_YEAR,
                year_start(y as int) <= s,
                s <= MAX_SERIAL,
            decreases LAST_YEAR - y,
        {
            y = y + 1;
        }
        proof {
            lemma_year_start_bounds(y as int + 1, 2200);
            let t = ymd_of(s as int);
            lemma_serial_of_bounds(t.0, t.1, t.2);
            if t.0 < y {
                lemma_year_start_bounds(t.0 + 1, y as int);
            } else if t.0 > y {
                lemma_year_start_bounds(y as int + 1, t.0);
            }
        }
        Year { value: y }
    }

    /// Decompose into `(year, month, day-of-month)`.
    pub fn to_ymd(self) -> (r: (Year, Month, u8))
        ensures
            (r.0@, r.1.number(), r.2 as int) == ymd_of(self@),
            valid_serial(self@),
            valid_ymd(ymd_of(self@).0, ymd_of(self@).1, ymd_of(self@).2),
            serial_of(ymd_of(self@).0, ymd_of(self@).1, ymd_of(self@).2) == self@,
    {
        proof {
            use_type_invariant(&self);
        }
        let y = self.year();
        let year = y.get();
        proof {
            lemma_ymd_of(self@);
            let t = ymd_of(self@);
            lemma_serial_of_bounds(t.0, t.1, t.2);
            lemma_year_start_step(year as int);
        }
        let doy = self.serial - year_start_u32(year);
        let leap = y.is_leap();
        let mut m: u8 = 1;
        while m < 12 && month_start_u32(leap, m + 1) <= doy
            invariant
                1 <= m <= 12,
                month_start(year as int, m as int) <= doy,
                is_leap_year(year as int) == leap,
            decreases 12 - m,
        {
            m = m + 1;
        }
        proof {
            lemma_month_start_step(year as int, m as int);
        }
        let day = (doy - month_start_u32(leap, m) + 1) as u8;
        proof {
            lemma_ymd_of_serial_of(year as int, m as int, day as int);
        }
        (y, month_numbered(m), day)
    }

    /// The [`Month`] component.
    pub fn month(self) -> (r: Month)
        ensures
            r.number() == ymd_of(self@).1,
    {
        let (_, m, _) = self.to_ymd();
        m
    }

    /// The day-of-month component, `1..=31`.
    pub fn day(self) -> (r: u8)
        ensures
            r == ymd_of(self@).2,
    {
        let (_, _, d) = self.to_ymd();
        d
    }

    /// The 1-based day of the year, `1..=366`.
    pub fn day_of_year(self) -> (r: u16)
        ensures
            r == self@ - year_start(ymd_of(self@).0) + 1,
            1 <= r <= 366,
    {
        proof {
            use_type_invariant(&self);
            lemma_ymd_of(self@);
            let t = ymd_of(self@);
            lemma_serial_of_bounds(t.0, t.1, t.2);
            lemma_year_start_step(t.0);
        }
        let y = self.year();
        (self.serial - year_start_u32(y.get()) + 1) as u16
    }

    /// The day of the week.
    pub fn weekday(self) -> (r: Weekday)
        ensures
            r.number() == weekday_of(self@),
    {
        proof {
            use_type_invariant(&self);
        }
        match (self.serial + 1) % 7 {
            0 => Weekday::Mon,
            1 => Weekday::Tue,
            2 => Weekday::Wed,
            3 => Weekday::Thu,
            4 => Weekday::Fri,
            5 => Weekday::Sat,
            _ => Weekday::Sun,
        }
    }

    /// Add `n` days, refusing a result outside the supported range.
    pub fn add_days(self, n: i32) -> (r: Result<Date, TimeError>)
        ensures
            valid_serial(self@ + n) ==> r is Ok && r->Ok_0@ == self@ + n,
            !valid_serial(self@ + n) ==> r == Err::<Date, TimeError>(TimeError::DateOutOfRange),
    {
        let target: i64 = self.serial as i64 + n as i64;
        if target < 0 || target > MAX_SERIAL as i64 {
            return Err(TimeError::DateOutOfRange);
        }
        Ok(Date { serial: target as u32 })
    }

    /// Signed difference `self - other` in days.
    pub fn days_since(self, other: Date) -> (r: i32)
        ensures
            r == self@ - other@,
    {
        proof {
            use_type_invariant(&self);
            use_type_invariant(&other);
        }
        (self.serial as i64 - other.serial as i64) as i32
    }

    /// Add `n` calendar months, clamping the day-of-month to the target
    /// month's length; refuses a result outside the supported range.
    pub fn add_months(self, n: i32) -> (r: Result<Date, TimeError>)
        ensures
            months_later_in_range(self@, n as int) ==> r is Ok && r->Ok_0@ == serial_of(
                months_later(self@, n as int).0,
                months_later(self@, n as int).1,
                months_later(self@, n as int).2,
            ),
            !months_later_in_range(self@, n as int) ==> r == Err::<Date, TimeError>(
                TimeError::DateOutOfRange,
            ),
    {
        let (year, month, day) = self.to_ymd();
        proof {
            use_type_invariant(&self);
            lemma_ymd_of(self@);
        }
        let total: i32 = year.get() as i32 * 12 + (month.get() as i32 - 1);
        let shifted = total.checked_add(n);
        let new_total = match shifted {
            Some(t) => t,
            None => return Err(TimeError::DateOutOfRange),
        };
        if new_total < 1901 * 12 || new_total > 2199 * 12 + 11 {
            return Err(TimeError::DateOutOfRange);
        }
        let new_year = (new_total / 12) as u16;
        let new_month = month_numbered((new_total % 12 + 1) as u8);
        let target_year = Year { value: new_year };
        let len = new_month.length(target_year);
        let clamped = if day > len {
            len
        } else {
            day
        };
        proof {
            assert(valid_ymd(new_year as int, new_month.number(), clamped as int));
        }
        Date::from_ymd(new_year, new_month, clamped)
    }

    /// Add `n` calendar years, clamping February 29 to February 28 in a
    /// non-leap target year.
    pub fn add_years(self, n: i32) -> (r: Result<Date, TimeError>)
        ensures
            months_later_in_range(self@, 12 * n) ==> r is Ok && r->Ok_0@ == serial_of(
                months_later(self@, 12 * n).0,
                months_later(self@, 12 * n).1,
                months_later(self@, 12 * n).2,
            ),
            !months_later_in_range(self@, 12 * n) ==> r == Err::<Date, TimeError>(
                TimeError::DateOutOfRange,
            ),
    {
        proof {
            use_type_invariant(&self);
            lemma_ymd_of(self@);
        }
        match n.checked_mul(12) {
            Some(months) => self.add_months(months),
            None => Err(TimeError::DateOutOfRange),
        }
    }

    /// The last day of this date's month.
    pub fn end_of_month(self) -> (r: Date)
        ensures
            r@ == end_of_month_of(self@),
    {
        proof {
            use_type_invariant(&self);
        }
        let (year, month, day) = self.to_ymd();
        let last = month.length(year);
        proof {
            lemma_ymd_of(self@);
            lemma_serial_of_bounds(year@, month.number(), last as int);
        }
        Date { serial: self.serial - (day as u32 - 1) + (last as u32 - 1) }
    }

    /// Step by a period; months and years clamp the day-of-month.
    pub fn plus(self, period: Period) -> (r: Result<Date, TimeError>)
        ensures
            r == date_plus(self, period),
            r is Ok ==> r->Ok_0@ == shifted_serial(self@, period)->Some_0,
    {
        let r = match period {
            Period::Days(n) => self.add_days(n),
            Period::Weeks(n) => match n.checked_mul(7) {
                Some(days) => self.add_days(days),
                None => Err(TimeError::DateOutOfRange),
            },
            Period::Months(n) => self.add_months(n),
            Period::Years(n) => self.add_years(n),
        };
        proof {
            use_type_invariant(&self);
        }
        r
    }

    /// Step back by a period; `i32::MIN` lengths are refused.
    pub fn minus(self, period: Period) -> (r: Result<Date, TimeError>)
        ensures
            r == date_minus(self, period),
    {
        match period.checked_neg() {
            Some(neg) => self.plus(neg),
            None => Err(TimeError::DateOutOfRange),
        }
    }

    /// `self + period`, snapping to the end of the target month when
    /// `end_of_month` is set, `self` is the last day of its month and the
    /// period counts months or years.
    pub fn advance(self, period: Period, end_of_month: bool) -> (r: Result<Date, TimeError>)
        ensures
            advanced_serial(self@, period, end_of_month) is Some ==> r is Ok && r->Ok_0@
                == advanced_serial(self@, period, end_of_month)->Some_0,
            advanced_serial(self@, period, end_of_month) is None ==> r == Err::<Date, TimeError>(
                TimeError::DateOutOfRange,
            ),
    {
        let stepped = match self.plus(period) {
            Ok(d) => d,
            Err(e) => return Err(e),
        };
        let months_or_years = match period {
            Period::Months(_) | Period::Years(_) => true,
            _ => false,
        };
        if end_of_month && self.is_end_of_month() && months_or_years {
            Ok(stepped.end_of_month())
        } else {
            Ok(stepped)
        }
    }

    /// The date as ISO 8601 text, `YYYY-MM-DD`.
    pub fn to_string(self) -> (s: String)
        ensures
            s@ == iso_text(ymd_of(self@)),
    {
        let (y, m, d) = self.to_ymd();
        let mut out: Vec<char> = Vec::new();
        push_four_digits(&mut out, y.get() as u64);
        out.push('-');
        push_two_digits(&mut out, m.get() as u64);
        out.push('-');
        push_two_digits(&mut out, d as u64);
        proof {
            assert(out@ =~= iso_text(ymd_of(self@)));
        }
        string_of(&out)
    }

    /// Parse strict `YYYY-MM-DD` bytes. Text of another shape is refused
    /// with `InvalidDateString`; a month outside 1..=12 with
    /// `MonthOutOfRange`; otherwise the result is that of
    /// [`Date::from_ymd`].
    pub fn parse_iso(bytes: &[u8]) -> (r: Result<Date, TimeError>)
        ensures
            !iso_shaped(bytes@) ==> r == Err::<Date, TimeError>(TimeError::InvalidDateString),
            iso_shaped(bytes@) ==> ({
                let (y, m, d) = iso_fields(bytes@);
                &&& !(1 <= m <= 12) ==> r == Err::<Date, TimeError>(TimeError::MonthOutOfRange)
                &&& (1 <= m <= 12 && valid_ymd(y, m, d)) ==> r is Ok && r->Ok_0@ == serial_of(y, m, d)
                &&& (1 <= m <= 12 && !(FIRST_YEAR <= y <= LAST_YEAR)) ==> r == Err::<Date, TimeError>(
                    TimeError::YearOutOfRange,
                )
                &&& (1 <= m <= 12 && FIRST_YEAR <= y <= LAST_YEAR && !valid_ymd(y, m, d)) ==> r
                    == Err::<Date, TimeError>(TimeError::DayOutOfRange)
            }),
            r == parse_outcome(bytes@),
    {
        if bytes.len() != 10 || bytes[4] != 45 || bytes[7] != 45 {
            return Err(TimeError::InvalidDateString);
        }
        let mut k: usize = 0;
        while k < 10
            invariant
                bytes@.len() == 10,
                k <= 10,
                forall|j: int| 0 <= j < k && j != 4 && j != 7 ==> is_digit(#[trigger] bytes@[j]),
            decreases 10 - k,
        {
            if k != 4 && k != 7 && !(48 <= bytes[k] && bytes[k] <= 57) {
                return Err(TimeError::InvalidDateString);
            }
            k = k + 1;
        }
        let year: u16 = 1000 * (bytes[0] - 48) as u16 + 100 * (bytes[1] - 48) as u16 + 10 * (bytes[2]
            - 48) as u16 + (bytes[3] - 48) as u16;
        let month_num: u8 = 10 * (bytes[5] - 48) + (bytes[6] - 48);
        let day: u8 = 10 * (bytes[8] - 48) + (bytes[9] - 48);
        let month = match Month::try_from_u8(month_num) {
            Ok(m) => m,
            Err(e) => return Err(e),
        };
        let r = Date::from_ymd(year, month, day);
        proof {
            let (y, m, d) = iso_fields(bytes@);
            if valid_ymd(y, m, d) {
                Date::lemma_with_serial(serial_of(y, m, d));
                Date::lemma_view_injective(r->Ok_0, Date::with_serial(serial_of(y, m, d)));
            }
        }
        r
    }

    /// `true` iff this date is the last day of its month.
    pub fn is_end_of_month(self) -> (r: bool)
        ensures
            r == is_end_of_month_serial(self@),
    {
        let (year, month, day) = self.to_ymd();
        day == month.length(year)
    }
}

impl core::str::FromStr for Date {
    type Err = TimeError;

    /// Parse strict `YYYY-MM-DD` text; see [`Date::parse_iso`].
    fn from_str(s: &str) -> (r: Result<Date, TimeError>)
        ensures
            r == parse_outcome(s.spec_bytes()),
    {
        Date::parse_iso(s.as_bytes())
    }
}

impl Add<Period> for Date {
    type Output = Result<Date, TimeError>;

    /// Step a date forward by a period; see [`Date::plus`].
    fn add(self, period: Period) -> (r: Result<Date, TimeError>) {
        self.plus(period)
    }
}

impl AddSpecImpl<Period> for Date {
    open spec fn obeys_add_spec() -> bool {
        true
    }

    open spec fn add_req(self, period: Period) -> bool {
        true
    }

    open spec fn add_spec(self, period: Period) -> Result<Date, TimeError> {
        date_plus(self, period)
    }
}

impl Sub<Period> for Date {
    type Output = Result<Date, TimeError>;

    /// Step a date backward by a period; see [`Date::minus`].
    fn sub(self, period: Period) -> (r: Result<Date, TimeError>) {
        self.minus(period)
    }
}

impl SubSpecImpl<Period> for Date {
    open spec fn obeys_sub_spec() -> bool {
        true
    }

    open spec fn sub_req(self, period: Period) -> bool {
        true
    }

    open spec fn sub_spec(self, period: Period) -> Result<Date, TimeError> {
        date_minus(self, period)
    }
}


// ---- Laws ----------------------------------------------------------------

/// The ASCII bytes of a text made of ASCII characters.
pub open spec fn ascii_bytes(text: Seq<char>) -> Seq<u8> {
    Seq::new(text.len(), |i: int| text[i] as u8)
}

/// Splitting a month count into year and month and joining them again
/// gives the count back.
pub proof fn lemma_month_count(total: int)
    ensures
        (total / 12) * 12 + (total % 12 + 1) - 1 == total,
        0 <= total % 12 < 12,
{
}

/// A month count `y * 12 + (m - 1)` splits back into `y` and `m`.
pub proof fn lemma_month_count_split(y: int, m: int)
    requires
        1 <= m <= 12,
    ensures
        (y * 12 + (m - 1)) / 12 == y,
        (y * 12 + (m - 1)) % 12 + 1 == m,
{
    vstd::arithmetic::div_mod::lemma_fundamental_div_mod_converse(y * 12 + (m - 1), 12, y, m - 1);
}

/// Moving months from a day that is at most the 28th never clamps: the
/// day is kept, and the target is a valid day whose decomposition is the
/// target itself.
proof fn lemma_months_later_unclamped(s: int, n: int)
    requires
        valid_serial(s),
        ymd_of(s).2 <= 28,
        months_later_in_range(s, n),
    ensures
        months_later(s, n).2 == ymd_of(s).2,
        valid_ymd(months_later(s, n).0, months_later(s, n).1, months_later(s, n).2),
        ymd_of(serial_of(months_later(s, n).0, months_later(s, n).1, months_later(s, n).2))
            == months_later(s, n),
        months_later(s, n).0 * 12 + (months_later(s, n).1 - 1) == ymd_of(s).0 * 12 + (ymd_of(
            s,
        ).1 - 1) + n,
{
    lemma_ymd_of(s);
    let t = ymd_of(s);
    let total = t.0 * 12 + (t.1 - 1) + n;
    lemma_month_count(total);
    let r = months_later(s, n);
    assert(days_in_month(r.0, r.1) >= 28);
    lemma_ymd_of_serial_of(r.0, r.1, r.2);
}

/// A day lying between two days of one month is in that month too.
pub proof fn lemma_between_same_month(v: int, u: int, s: int)
    requires
        valid_serial(v),
        valid_serial(s),
        v <= u <= s,
        ymd_of(v).0 == ymd_of(s).0,
        ymd_of(v).1 == ymd_of(s).1,
    ensures
        valid_serial(u),
        ymd_of(u).0 == ymd_of(v).0,
        ymd_of(u).1 == ymd_of(v).1,
{
    lemma_ymd_of(v);
    lemma_ymd_of(s);
    let t = ymd_of(v);
    let w = ymd_of(s);
    let d = t.2 + (u - v);
    assert(valid_ymd(t.0, t.1, d));
    assert(serial_of(t.0, t.1, d) == u);
    lemma_ymd_of_serial_of(t.0, t.1, d);
}

/// A date decomposes into a valid (year, month, day) that rebuilds it:
/// `to_ymd` followed by `from_ymd` gives back the same date.
pub proof fn lemma_ymd_round_trip(s: int)
    requires
        valid_serial(s),
    ensures
        valid_ymd(ymd_of(s).0, ymd_of(s).1, ymd_of(s).2),
        serial_of(ymd_of(s).0, ymd_of(s).1, ymd_of(s).2) == s,
{
    lemma_ymd_of(s);
}

/// The ISO text of every date is `DDDD-DD-DD` in ASCII and reads back as
/// the same year, month and day: `to_string` output parses back to the
/// same date.
pub proof fn lemma_text_round_trip(s: int)
    requires
        valid_serial(s),
    ensures
        iso_shaped(ascii_bytes(iso_text(ymd_of(s)))),
        iso_fields(ascii_bytes(iso_text(ymd_of(s)))) == ymd_of(s),
        parse_outcome(ascii_bytes(iso_text(ymd_of(s)))) == Ok::<Date, TimeError>(
            Date::with_serial(s),
        ),
{
    lemma_ymd_of(s);
    let t = ymd_of(s);
    let b = ascii_bytes(iso_text(t));
    assert(iso_text(t).len() == 10);
    assert(b[0] == 48 + t.0 / 1000);
    assert(b[1] == 48 + t.0 / 100 % 10);
    assert(b[2] == 48 + t.0 / 10 % 10);
    assert(b[3] == 48 + t.0 % 10);
    assert(b[5] == 48 + t.1 / 10);
    assert(b[6] == 48 + t.1 % 10);
    assert(b[8] == 48 + t.2 / 10);
    assert(b[9] == 48 + t.2 % 10);
    assert(b[4] == 45 && b[7] == 45);
    assert(1000 * (t.0 / 1000) + 100 * (t.0 / 100 % 10) + 10 * (t.0 / 10 % 10) + t.0 % 10 == t.0)
        by (nonlinear_arith)
        requires
            0 <= t.0 < 10000,
    ;
    assert(10 * (t.1 / 10) + t.1 % 10 == t.1) by (nonlinear_arith)
        requires
            0 <= t.1,
    ;
    assert(10 * (t.2 / 10) + t.2 % 10 == t.2) by (nonlinear_arith)
        requires
            0 <= t.2,
    ;
}

/// Moving `n` months and then `-n` months gives back the starting date
/// when its day is at most the 28th (so that no clamp happens).
pub proof fn lemma_add_months_round_trip(s: int, n: int)
    requires
        valid_serial(s),
        ymd_of(s).2 <= 28,
        months_later_in_range(s, n),
    ensures
        ({
            let m = months_later(s, n);
            let t = serial_of(m.0, m.1, m.2);
            &&& valid_serial(t)
            &&& months_later_in_range(t, -n)
            &&& serial_of(months_later(t, -n).0, months_later(t, -n).1, months_later(t, -n).2)
                == s
        }),
{
    lemma_ymd_of(s);
    lemma_months_later_unclamped(s, n);
    let m = months_later(s, n);
    let t = serial_of(m.0, m.1, m.2);
    lemma_serial_of_bounds(m.0, m.1, m.2);
    let o = ymd_of(s);
    lemma_month_count_split(o.0, o.1);
}

/// Moving `12 * y + m` months equals moving `y` years and then `m` months,
/// for a day that is at most the 28th and a year step that stays in range.
pub proof fn lemma_add_months_decomposes(s: int, y: int, m: int)
    requires
        valid_serial(s),
        ymd_of(s).2 <= 28,
        months_later_in_range(s, 12 * y),
    ensures
        ({
            let k = months_later(s, 12 * y);
            let t = serial_of(k.0, k.1, k.2);
            &&& valid_serial(t)
            &&& months_later_in_range(t, m) == months_later_in_range(s, 12 * y + m)
            &&& months_later(t, m) == months_later(s, 12 * y + m)
        }),
{
    lemma_ymd_of(s);
    lemma_months_later_unclamped(s, 12 * y);
    let k = months_later(s, 12 * y);
    lemma_serial_of_bounds(k.0, k.1, k.2);
}

/// The end of a month is the end of its own month, and is the last day of
/// that month: `end_of_month` is idempotent.
pub proof fn lemma_end_of_month_idempotent(s: int)
    requires
        valid_serial(s),
    ensures
        valid_serial(end_of_month_of(s)),
        end_of_month_of(end_of_month_of(s)) == end_of_month_of(s),
        is_end_of_month_serial(end_of_month_of(s)),
        ymd_of(end_of_month_of(s)).0 == ymd_of(s).0,
        ymd_of(end_of_month_of(s)).1 == ymd_of(s).1,
{
    lemma_ymd_of(s);
    let t = ymd_of(s);
    let last = days_in_month(t.0, t.1);
    lemma_serial_of_bounds(t.0, t.1, last);
    lemma_ymd_of_serial_of(t.0, t.1, last);
}

/// Stepping by a period agrees with the dedicated operation: days and
/// weeks move the serial by `n` and `7 * n`, months and years move the
/// calendar month, and stepping back is stepping by the negated period.
pub proof fn lemma_period_steps(d: Date, n: i32)
    ensures
        date_plus(d, Period::Days(n)) == (if valid_serial(d@ + n) {
            Ok::<Date, TimeError>(Date::with_serial(d@ + n))
        } else {
            Err(TimeError::DateOutOfRange)
        }),
        date_plus(d, Period::Weeks(n)) == (if valid_serial(d@ + 7 * n) {
            Ok::<Date, TimeError>(Date::with_serial(d@ + 7 * n))
        } else {
            Err(TimeError::DateOutOfRange)
        }),
        date_plus(d, Period::Years(n)) == date_plus(d, Period::Months((12 * n) as i32)) || !(i32::MIN
            <= 12 * n <= i32::MAX),
        n != i32::MIN ==> date_minus(d, Period::Months(n)) == date_plus(d, Period::Months((-n) as i32)),
        n != i32::MIN ==> date_minus(d, Period::Days(n)) == date_plus(d, Period::Days((-n) as i32)),
{
}

} // verus!
