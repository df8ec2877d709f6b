//! North American Energy Reliability Council off-peak calendar.

use vstd::prelude::*;

use crate::calendar::Calendar;
use crate::date::{Month, Ordinal, Weekday, Year};
use crate::rules::{FixedDate, LastWeekday, NthWeekday, Rule, WeekendShift};
use crate::weekend::Weekend;
use crate::year_range::YearRange;

verus! {

/// The North American Energy Reliability Council calendar: Saturday and Sunday weekends and the rules below.
pub fn nerc() -> (c: Calendar)
    ensures
        c.name@ == "North American Energy Reliability Council"@,
        forall|n: int| c.weekend.has(n) <==> (n == 6 || n == 7),
        c.rules@.len() == 7,
        ({
            let rules = c.rules@;
            &&& rules[0] matches Rule::Fixed(f) && f@ == (Month::Jan, 1int, WeekendShift::SunForward, (1901int, 2199int))
            &&& rules[1] matches Rule::Fixed(f) && f@ == (Month::May, 30int, WeekendShift::SatBackSunForward, (1901int, 1970int))
            &&& rules[2] matches Rule::LastWeekday(f) && f@ == (Weekday::Mon, Month::May, (1971int, 2199int))
            &&& rules[3] matches Rule::Fixed(f) && f@ == (Month::Jul, 4int, WeekendShift::SunForward, (1901int, 2199int))
            &&& rules[4] matches Rule::NthWeekday(f) && f@ == (Ordinal::First, Weekday::Mon, Month::Sep, (1901int, 2199int))
            &&& rules[5] matches Rule::NthWeekday(f) && f@ == (Ordinal::Fourth, Weekday::Thu, Month::Nov, (1901int, 2199int))
            &&& rules[6] matches Rule::Fixed(f) && f@ == (Month::Dec, 25int, WeekendShift::SunForward, (1901int, 2199int))
        }),
{
    let mut rules: Vec<Rule> = Vec::new();
    rules.push(Rule::Fixed(FixedDate::new(Month::Jan, 1).shift(WeekendShift::SunForward)));
    rules.push(Rule::Fixed(FixedDate::new(Month::May, 30).shift(WeekendShift::SatBackSunForward).years(YearRange::literal_through(1970))));
    rules.push(Rule::LastWeekday(LastWeekday::new(Weekday::Mon, Month::May).from_year(Year::literal(1971))));
    rules.push(Rule::Fixed(FixedDate::new(Month::Jul, 4).shift(WeekendShift::SunForward)));
    rules.push(Rule::NthWeekday(NthWeekday::new(Ordinal::First, Weekday::Mon, Month::Sep)));
    rules.push(Rule::NthWeekday(NthWeekday::new(Ordinal::Fourth, Weekday::Thu, Month::Nov)));
    rules.push(Rule::Fixed(FixedDate::new(Month::Dec, 25).shift(WeekendShift::SunForward)));
    Calendar { name: "North American Energy Reliability Council".to_owned(), weekend: Weekend::sat_sun(), rules }
}

} // verus!
