//! [`EasterOffset`]: holidays a fixed number of days from Easter Sunday:
//! Good Friday (-2), Easter Monday (+1), Ascension (+39), Whit Monday
//! (+50), Corpus Christi (+60).

use vstd::prelude::*;

use crate::date::{valid_serial, year_start, ymd_of, Date, Month, Year, LAST_YEAR};
use crate::easter::{easter_monday, easter_monday_doy, EasterMethod};
use crate::year_range::YearRange;

verus! {

/// A holiday `days` days after Easter Sunday (before it when negative).
#[derive(Debug, Clone, Copy, PartialEq, Eq, Structural)]
pub struct EasterOffset {
    days: i16,
    method: EasterMethod,
    years: YearRange,
}

impl View for EasterOffset {
    type V = (int, EasterMethod, (int, int));

    closed spec fn view(&self) -> (int, EasterMethod, (int, int)) {
        (self.days as int, self.method, self.years@)
    }
}

impl EasterOffset {
    /// `true` iff serial `s` lies `days` after Easter Sunday of its own
    /// year, in a covered year.
    pub open spec fn holds(self, s: int) -> bool {
        let y = ymd_of(s).0;
        &&& self@.2.0 <= y <= self@.2.1
        &&& s == year_start(y) + easter_monday_doy(y, self@.1) - 2 + self@.0
    }

    /// `days` after Western Easter Sunday, every year.
    pub fn new(days: i16) -> (r: EasterOffset)
        ensures
            r@ == (days as int, EasterMethod::Western, (1901int, 2199int)),
    {
        EasterOffset { days, method: EasterMethod::Western, years: YearRange::always() }
    }

    /// `days` after Orthodox Easter Sunday, every year.
    pub fn new_orthodox(days: i16) -> (r: EasterOffset)
        ensures
            r@ == (days as int, EasterMethod::Orthodox, (1901int, 2199int)),
    {
        EasterOffset { days, method: EasterMethod::Orthodox, years: YearRange::always() }
    }

    /// Good Friday: two days before Easter Sunday.
    pub fn good_friday() -> (r: EasterOffset)
        ensures
            r@ == (-2int, EasterMethod::Western, (1901int, 2199int)),
    {
        EasterOffset::new(-2)
    }

    /// Easter Sunday itself.
    pub fn easter_sunday() -> (r: EasterOffset)
        ensures
            r@ == (0int, EasterMethod::Western, (1901int, 2199int)),
    {
        EasterOffset::new(0)
    }

    /// Easter Monday.
    pub fn easter_monday() -> (r: EasterOffset)
        ensures
            r@ == (1int, EasterMethod::Western, (1901int, 2199int)),
    {
        EasterOffset::new(1)
    }

    /// Ascension Day: 39 days after Easter Sunday.
    pub fn ascension() -> (r: EasterOffset)
        ensures
            r@ == (39int, EasterMethod::Western, (1901int, 2199int)),
    {
        EasterOffset::new(39)
    }

    /// Whit Monday: 50 days after Easter Sunday.
    pub fn whit_monday() -> (r: EasterOffset)
        ensures
            r@ == (50int, EasterMethod::Western, (1901int, 2199int)),
    {
        EasterOffset::new(50)
    }

    /// Corpus Christi: 60 days after Easter Sunday.
    pub fn corpus_christi() -> (r: EasterOffset)
        ensures
            r@ == (60int, EasterMethod::Western, (1901int, 2199int)),
    {
        EasterOffset::new(60)
    }

    /// The same rule, active from `year` onwards.
    pub fn from_year(self, year: Year) -> (r: EasterOffset)
        ensures
            r@ == (self@.0, self@.1, (year@, LAST_YEAR as int)),
    {
        EasterOffset { years: YearRange::from_year(year), ..self }
    }

    /// The same rule, active over `range`.
    pub fn years(self, range: YearRange) -> (r: EasterOffset)
        ensures
            r@ == (self@.0, self@.1, range@),
    {
        EasterOffset { years: range, ..self }
    }

    /// Offset in days from Easter Sunday.
    pub fn days(&self) -> (r: i16)
        ensures
            r == self@.0,
    {
        self.days
    }

    /// The computus in use.
    pub fn method(&self) -> (r: EasterMethod)
        ensures
            r == self@.1,
    {
        self.method
    }

    /// The years the rule covers.
    pub fn year_range(&self) -> (r: YearRange)
        ensures
            r@ == self@.2,
    {
        self.years
    }

    /// `true` iff `date` is the rule's day in a covered year.
    pub fn is_holiday(&self, date: Date) -> (r: bool)
        ensures
            r == self.holds(date@),
    {
        let year = date.year();
        proof {
            crate::date::lemma_serial_of_bounds(year@, 1, 1);
            crate::date::lemma_year_start_step(year@);
            crate::date::lemma_year_start_bounds(year@ + 1, 2200);
        }
        if !self.years.contains(year) {
            return false;
        }
        let em_doy = easter_monday(year, self.method);
        let jan1 = match Date::from_ymd(year.get(), Month::Jan, 1) {
            Ok(d) => d,
            Err(_) => return false,
        };
        let easter_sun = match jan1.add_days(em_doy as i32 - 2) {
            Ok(d) => d,
            Err(_) => return false,
        };
        let observed = match easter_sun.add_days(self.days as i32) {
            Ok(d) => d,
            Err(_) => return false,
        };
        observed.serial() == date.serial()
    }

    /// The rule's date in `year`, if the rule covers the year and the
    /// offset from that year's Easter stays inside it: for a date of
    /// `year`, the answer names it exactly when [`EasterOffset::is_holiday`]
    /// does.
    pub fn natural_date_in(self, year: Year) -> (r: Option<Date>)
        ensures
            r matches Some(d) ==> valid_serial(d@) && ymd_of(d@).0 == year@ && self.holds(d@),
            forall|s: int|
                valid_serial(s) && ymd_of(s).0 == year@ && #[trigger] self.holds(s) ==> (r matches Some(
                    d,
                ) && d@ == s),
    {
        let ghost c = year_start(year@) + easter_monday_doy(year@, self@.1) - 2 + self@.0;
        assert forall|s: int|
            valid_serial(s) && ymd_of(s).0 == year@ && #[trigger] self.holds(s) implies s == c
            && self@.2.0 <= year@ <= self@.2.1 by {}
        if !self.years.contains(year) {
            return None;
        }
        let y = year.get();
        proof {
            crate::date::lemma_serial_of_bounds(year@, 1, 1);
            crate::date::lemma_year_start_step(year@);
            crate::date::lemma_year_start_bounds(year@ + 1, 2200);
        }
        let em_doy = easter_monday(year, self.method);
        let jan1 = Date::literal(y, Month::Jan, 1);
        let easter_sun = match jan1.add_days(em_doy as i32 - 2) {
            Ok(d) => d,
            Err(_) => return None,
        };
        let observed = match easter_sun.add_days(self.days as i32) {
            Ok(d) => d,
            Err(_) => return None,
        };
        assert(observed@ == c);
        if observed.year().get() == y {
            Some(observed)
        } else {
            None
        }
    }
}

} // verus!
