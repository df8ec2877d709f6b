//! [`OneOff`]: a holiday observed on a single date.

use vstd::prelude::*;

use crate::date::{valid_serial, ymd_of, Date, Year};

verus! {

/// A holiday on one specific date.
#[derive(Debug, Clone, Copy, PartialEq, Eq, Structural)]
pub struct OneOff {
    date: Date,
}

impl View for OneOff {
    type V = int;

    closed spec fn view(&self) -> int {
        self.date@
    }
}

impl OneOff {
    /// `true` iff serial `s` is the rule's date.
    pub open spec fn holds(self, s: int) -> bool {
        s == self@
    }

    /// A holiday on `date`.
    pub fn new(date: Date) -> (r: OneOff)
        ensures
            r@ == date@,
    {
        OneOff { date }
    }

    /// The holiday's date.
    pub fn date(&self) -> (r: Date)
        ensures
            r@ == self@,
    {
        self.date
    }

    /// `true` iff `date` is the rule's date.
    pub fn is_holiday(&self, date: Date) -> (r: bool)
        ensures
            r == self.holds(date@),
    {
        self.date.serial() == date.serial()
    }

    /// The rule's date if it falls in `year`, else `None`: for a date of
    /// `year`, the answer names it exactly when [`OneOff::is_holiday`] does.
    pub fn natural_date(self, year: Year) -> (r: Option<Date>)
        ensures
            r matches Some(d) ==> valid_serial(d@) && ymd_of(d@).0 == year@ && self.holds(d@),
            forall|s: int|
                valid_serial(s) && ymd_of(s).0 == year@ && #[trigger] self.holds(s) ==> (r matches Some(
                    d,
                ) && d@ == s),
    {
        if self.date.year().get() == year.get() {
            Some(self.date)
        } else {
            None
        }
    }
}

} // verus!
