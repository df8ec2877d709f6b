//! [`FixedDate`]: a holiday that falls on one calendar day each year
//! (e.g. July 4), with the direction it moves when that day is a weekend.

use vstd::prelude::*;

use crate::date::{
    lemma_serial_of_bounds, lemma_ymd_of, lemma_ymd_of_serial_of, valid_serial, valid_ymd, ymd_of,
    Date, Month, Weekday, Year, LAST_YEAR,
};
use crate::year_range::YearRange;

verus! {

/// Which way a fixed-date holiday moves when its natural date falls on a
/// Saturday or Sunday. The holiday is observed on the first free weekday
/// in that direction; only the calendar can resolve that day.
#[derive(Debug, Clone, Copy, PartialEq, Eq, Structural)]
pub enum WeekendShift {
    /// Neither day moves; a weekend holiday is lost.
    NoShift,
    /// Both days move forwards.
    Forward,
    /// Sunday moves forwards, Saturday does not.
    SunForward,
    /// Saturday moves backwards, Sunday forwards.
    SatBackSunForward,
}

/// The step (+1 forwards, -1 backwards) in which a holiday on ISO weekday
/// `w` moves under `shift`, if it moves.
pub open spec fn shift_direction(shift: WeekendShift, w: int) -> Option<int> {
    match shift {
        WeekendShift::NoShift => None,
        WeekendShift::Forward => if w == 6 || w == 7 {
            Some(1)
        } else {
            None
        },
        WeekendShift::SunForward => if w == 7 {
            Some(1)
        } else {
            None
        },
        WeekendShift::SatBackSunForward => if w == 7 {
            Some(1)
        } else if w == 6 {
            Some(-1)
        } else {
            None
        },
    }
}

impl WeekendShift {
    /// The step in which a holiday on weekday `w` moves, if it moves.
    pub fn direction(self, w: Weekday) -> (r: Option<i32>)
        ensures
            r matches Some(step) ==> shift_direction(self, w.number()) == Some(step as int),
            r is None ==> shift_direction(self, w.number()) is None,
    {
        match (self, w) {
            (WeekendShift::NoShift, _) => None,
            (_, Weekday::Sun) => Some(1),
            (WeekendShift::Forward, Weekday::Sat) => Some(1),
            (WeekendShift::SatBackSunForward, Weekday::Sat) => Some(-1),
            _ => None,
        }
    }

    /// `true` iff this shift moves some weekend holiday.
    pub fn moves_any(self) -> (r: bool)
        ensures
            r == (self != WeekendShift::NoShift),
    {
        match self {
            WeekendShift::NoShift => false,
            _ => true,
        }
    }
}

/// A fixed-date holiday rule. It matches the natural date only; a
/// substitute day, if the shift grants one, is resolved by the calendar.
#[derive(Debug, Clone, Copy, PartialEq, Eq, Structural)]
pub struct FixedDate {
    month: Month,
    day: u8,
    shift: WeekendShift,
    years: YearRange,
}

impl View for FixedDate {
    type V = (Month, int, WeekendShift, (int, int));

    closed spec fn view(&self) -> (Month, int, WeekendShift, (int, int)) {
        (self.month, self.day as int, self.shift, self.years@)
    }
}

impl FixedDate {
    /// `true` iff serial `s` is this rule's natural date in a year it
    /// covers.
    pub open spec fn holds(self, s: int) -> bool {
        let t = ymd_of(s);
        &&& self@.3.0 <= t.0 <= self@.3.1
        &&& t.1 == self@.0.number()
        &&& t.2 == self@.1
    }

    /// `month`/`day` every year, with no weekend shift.
    pub fn new(month: Month, day: u8) -> (r: FixedDate)
        ensures
            r@ == (month, day as int, WeekendShift::NoShift, (1901int, 2199int)),
    {
        FixedDate { month, day, shift: WeekendShift::NoShift, years: YearRange::always() }
    }

    /// The same rule with weekend shift `shift`.
    pub fn shift(self, shift: WeekendShift) -> (r: FixedDate)
        ensures
            r@ == (self@.0, self@.1, shift, self@.3),
    {
        FixedDate { shift, ..self }
    }

    /// The same rule, active from `year` onwards.
    pub fn from_year(self, year: Year) -> (r: FixedDate)
        ensures
            r@ == (self@.0, self@.1, self@.2, (year@, LAST_YEAR as int)),
    {
        FixedDate { years: YearRange::from_year(year), ..self }
    }

    /// The same rule, active over `range`.
    pub fn years(self, range: YearRange) -> (r: FixedDate)
        ensures
            r@ == (self@.0, self@.1, self@.2, range@),
    {
        FixedDate { years: range, ..self }
    }

    /// The holiday's month.
    pub fn month(&self) -> (r: Month)
        ensures
            r == self@.0,
    {
        self.month
    }

    /// The holiday's day of the month.
    pub fn day(&self) -> (r: u8)
        ensures
            r == self@.1,
    {
        self.day
    }

    /// The direction the holiday moves off a weekend.
    pub fn weekend_shift(&self) -> (r: WeekendShift)
        ensures
            r == self@.2,
    {
        self.shift
    }

    /// The years the rule covers.
    pub fn year_range(&self) -> (r: YearRange)
        ensures
            r@ == self@.3,
    {
        self.years
    }

    /// `true` iff `date` is the rule's natural date in a covered year.
    pub fn is_holiday(&self, date: crate::date::Date) -> (r: bool)
        ensures
            r == self.holds(date@),
    {
        let (y, m, d) = date.to_ymd();
        self.years.contains(y) && m.get() == self.month.get() && d == self.day
    }

    /// The natural date in `year`, if the rule covers the year and the
    /// day exists in it: for a date of `year`, the answer names it exactly
    /// when [`FixedDate::is_holiday`] does.
    pub fn natural_date_in(self, year: Year) -> (r: Option<Date>)
        ensures
            r matches Some(d) ==> valid_serial(d@) && ymd_of(d@).0 == year@ && self.holds(d@),
            forall|s: int|
                valid_serial(s) && ymd_of(s).0 == year@ && #[trigger] self.holds(s) ==> (r matches Some(
                    d,
                ) && d@ == s),
    {
        if !self.years.contains(year) {
            return None;
        }
        let y = year.get();
        let r = match Date::from_ymd(y, self.month, self.day) {
            Ok(d) => Some(d),
            Err(_) => None,
        };
        proof {
            let t = (y as int, self@.0.number(), self@.1);
            if valid_ymd(t.0, t.1, t.2) {
                lemma_ymd_of_serial_of(t.0, t.1, t.2);
                lemma_serial_of_bounds(t.0, t.1, t.2);
            }
            assert forall|s: int|
                valid_serial(s) && ymd_of(s).0 == year@ && #[trigger] self.holds(s) implies (r matches Some(
                    d,
                ) && d@ == s) by {
                lemma_ymd_of(s);
            }
        }
        r
    }
}

} // verus!
