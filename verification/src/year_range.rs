//! [`YearRange`]: the years during which a holiday rule applies, as an
//! inclusive range of [`Year`]s.

use vstd::prelude::*;

use crate::date::{Year, FIRST_YEAR, LAST_YEAR};
use crate::error::TimeError;

verus! {

/// An inclusive range of years.
#[derive(Debug, Clone, Copy, PartialEq, Eq, Structural)]
pub struct YearRange {
    from: Year,
    to: Year,
}

impl View for YearRange {
    type V = (int, int);

    closed spec fn view(&self) -> (int, int) {
        (self.from@, self.to@)
    }
}

impl YearRange {
    /// `true` iff year number `y` lies in the range.
    pub open spec fn includes(self, y: int) -> bool {
        self@.0 <= y <= self@.1
    }

    /// Every supported year.
    pub fn always() -> (r: YearRange)
        ensures
            r@ == (FIRST_YEAR as int, LAST_YEAR as int),
    {
        YearRange { from: Year::min(), to: Year::max() }
    }

    /// `from` onwards.
    pub fn from_year(from: Year) -> (r: YearRange)
        ensures
            r@ == (from@, LAST_YEAR as int),
    {
        YearRange { from, to: Year::max() }
    }

    /// Up to and including `to`.
    pub fn through(to: Year) -> (r: YearRange)
        ensures
            r@ == (FIRST_YEAR as int, to@),
    {
        YearRange { from: Year::min(), to }
    }

    /// `from..=to`, refusing `to < from`.
    pub fn try_between(from: Year, to: Year) -> (r: Result<YearRange, TimeError>)
        ensures
            from@ <= to@ ==> r is Ok && r->Ok_0@ == (from@, to@),
            to@ < from@ ==> r == Err::<YearRange, TimeError>(TimeError::InvalidYearRange),
    {
        if to.get() < from.get() {
            Err(TimeError::InvalidYearRange)
        } else {
            Ok(YearRange { from, to })
        }
    }

    /// Up to and including the year numbered `to`, known to be supported.
    pub fn literal_through(to: u16) -> (r: YearRange)
        requires
            FIRST_YEAR <= to <= LAST_YEAR,
        ensures
            r@ == (FIRST_YEAR as int, to as int),
    {
        YearRange { from: Year::min(), to: Year::literal(to) }
    }

    /// `from..=to` for year numbers known to be supported and ordered.
    pub fn literal_between(from: u16, to: u16) -> (r: YearRange)
        requires
            FIRST_YEAR <= from <= to <= LAST_YEAR,
        ensures
            r@ == (from as int, to as int),
    {
        YearRange { from: Year::literal(from), to: Year::literal(to) }
    }

    /// The first year of the range.
    pub fn start(self) -> (r: Year)
        ensures
            r@ == self@.0,
    {
        self.from
    }

    /// The last year of the range.
    pub fn end(self) -> (r: Year)
        ensures
            r@ == self@.1,
    {
        self.to
    }

    /// `true` iff `year` lies in the range.
    pub fn contains(&self, year: Year) -> (r: bool)
        ensures
            r == self.includes(year@),
    {
        year.get() >= self.from.get() && year.get() <= self.to.get()
    }
}

} // verus!
