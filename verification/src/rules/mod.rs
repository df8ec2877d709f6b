//! Holiday rule primitives and the [`Rule`] enum that dispatches across
//! them: [`FixedDate`], [`NthWeekday`], [`LastWeekday`], [`EasterOffset`],
//! [`OneOff`], and the named predicates of [`CustomRule`].

mod easter_offset;
mod fixed;
mod last_weekday;
mod nth_weekday;
mod one_off;

pub use easter_offset::EasterOffset;
pub use fixed::{shift_direction, FixedDate, WeekendShift};
pub use last_weekday::LastWeekday;
pub use nth_weekday::NthWeekday;
pub use one_off::OneOff;

use vstd::prelude::*;

use crate::calendars::us::{
    election_day, election_day_holds, good_friday_post_1996, good_friday_post_1996_holds,
    paperwork_crisis_1968, paperwork_crisis_1968_holds,
};
use crate::date::{valid_serial, ymd_of, Date, Year};

verus! {

/// Holiday predicates that no rule shape describes, named so that they can
/// be reasoned about.
#[derive(Debug, Clone, Copy, PartialEq, Eq, Structural)]
pub enum CustomRule {
    /// US presidential election days observed by the NYSE.
    ElectionDay,
    /// The Wednesdays of the NYSE 1968 paperwork crisis.
    PaperworkCrisis1968,
    /// Good Friday in US government bond markets from 1996, skipped when it
    /// falls in a month's first seven days.
    GoodFridayPost1996,
}

impl CustomRule {
    /// `true` iff serial `s` satisfies the predicate.
    pub open spec fn holds(self, s: int) -> bool {
        match self {
            CustomRule::ElectionDay => election_day_holds(s),
            CustomRule::PaperworkCrisis1968 => paperwork_crisis_1968_holds(s),
            CustomRule::GoodFridayPost1996 => good_friday_post_1996_holds(s),
        }
    }

    /// Evaluate the predicate on `date`.
    pub fn is_holiday(&self, date: Date) -> (r: bool)
        ensures
            r == self.holds(date@),
    {
        match self {
            CustomRule::ElectionDay => election_day(date),
            CustomRule::PaperworkCrisis1968 => paperwork_crisis_1968(date),
            CustomRule::GoodFridayPost1996 => good_friday_post_1996(date),
        }
    }
}

/// One holiday rule.
#[derive(Debug, Clone, Copy, PartialEq, Eq, Structural)]
pub enum Rule {
    /// A fixed calendar day.
    Fixed(FixedDate),
    /// The nth weekday of a month.
    NthWeekday(NthWeekday),
    /// The last weekday of a month.
    LastWeekday(LastWeekday),
    /// An offset from Easter Sunday.
    Easter(EasterOffset),
    /// A single date.
    OneOff(OneOff),
    /// A named predicate.
    Custom(CustomRule),
}

impl Rule {
    /// `true` iff the rule names serial `s` as a holiday (its natural date).
    pub open spec fn holds(self, s: int) -> bool {
        match self {
            Rule::Fixed(r) => r.holds(s),
            Rule::NthWeekday(r) => r.holds(s),
            Rule::LastWeekday(r) => r.holds(s),
            Rule::Easter(r) => r.holds(s),
            Rule::OneOff(r) => r.holds(s),
            Rule::Custom(r) => r.holds(s),
        }
    }

    /// The rule's weekend shift; only fixed dates carry one.
    pub open spec fn shift(self) -> WeekendShift {
        match self {
            Rule::Fixed(r) => r@.2,
            _ => WeekendShift::NoShift,
        }
    }

    /// The rule's weekend shift; only fixed dates carry one.
    pub fn weekend_shift(&self) -> (r: WeekendShift)
        ensures
            r == self.shift(),
    {
        match self {
            Rule::Fixed(r) => r.weekend_shift(),
            _ => WeekendShift::NoShift,
        }
    }

    /// `true` iff the rule names `date` as a holiday.
    pub fn is_holiday(&self, date: Date) -> (r: bool)
        ensures
            r == self.holds(date@),
    {
        match self {
            Rule::Fixed(r) => r.is_holiday(date),
            Rule::NthWeekday(r) => r.is_holiday(date),
            Rule::LastWeekday(r) => r.is_holiday(date),
            Rule::Easter(r) => r.is_holiday(date),
            Rule::OneOff(r) => r.is_holiday(date),
            Rule::Custom(r) => r.is_holiday(date),
        }
    }

    /// The natural date the rule names in `year`, if any. Every rule but a
    /// named predicate names at most one date a year, and for a date of
    /// `year` the answer names it exactly when [`Rule::is_holiday`] does;
    /// a named predicate describes no date and answers `None`.
    pub fn natural_date_in(&self, year: Year) -> (r: Option<Date>)
        ensures
            self is Custom ==> r is None,
            r matches Some(d) ==> valid_serial(d@) && ymd_of(d@).0 == year@ && self.holds(d@),
            !(self is Custom) ==> forall|s: int|
                valid_serial(s) && ymd_of(s).0 == year@ && #[trigger] self.holds(s) ==> (r matches Some(
                    d,
                ) && d@ == s),
    {
        match self {
            Rule::Fixed(r) => r.natural_date_in(year),
            Rule::NthWeekday(r) => r.natural_date_in(year),
            Rule::LastWeekday(r) => r.natural_date_in(year),
            Rule::Easter(r) => r.natural_date_in(year),
            Rule::OneOff(r) => r.natural_date(year),
            Rule::Custom(_) => None,
        }
    }
}

} // verus!
