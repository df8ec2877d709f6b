//! Federal Reserve Bankwire System calendar.

use vstd::prelude::*;

use crate::calendar::Calendar;
use crate::date::{Month, Ordinal, Weekday, Year};
use crate::rules::{FixedDate, LastWeekday, NthWeekday, Rule, WeekendShift};
use crate::weekend::Weekend;
use crate::year_range::YearRange;

verus! {

/// The Federal Reserve Bankwire System calendar: Saturday and Sunday weekends and the rules below.
pub fn federal_reserve() -> (c: Calendar)
    ensures
        c.name@ == "Federal Reserve Bankwire System"@,
        forall|n: int| c.weekend.has(n) <==> (n == 6 || n == 7),
        c.rules@.len() == 15,
        ({
            let rules = c.rules@;
            &&& rules[0] matches Rule::Fixed(f) && f@ == (Month::Jan, 1int, WeekendShift::SunForward, (1901int, 2199int))
            &&& rules[1] matches Rule::NthWeekday(f) && f@ == (Ordinal::Third, Weekday::Mon, Month::Jan, (1983int, 2199int))
            &&& rules[2] matches Rule::Fixed(f) && f@ == (Month::Feb, 22int, WeekendShift::SatBackSunForward, (1901int, 1970int))
            &&& rules[3] matches Rule::NthWeekday(f) && f@ == (Ordinal::Third, Weekday::Mon, Month::Feb, (1971int, 2199int))
            &&& rules[4] matches Rule::Fixed(f) && f@ == (Month::May, 30int, WeekendShift::SatBackSunForward, (1901int, 1970int))
            &&& rules[5] matches Rule::LastWeekday(f) && f@ == (Weekday::Mon, Month::May, (1971int, 2199int))
            &&& rules[6] matches Rule::Fixed(f) && f@ == (Month::Jun, 19int, WeekendShift::SunForward, (2022int, 2199int))
            &&& rules[7] matches Rule::Fixed(f) && f@ == (Month::Jul, 4int, WeekendShift::SunForward, (1901int, 2199int))
            &&& rules[8] matches Rule::NthWeekday(f) && f@ == (Ordinal::First, Weekday::Mon, Month::Sep, (1901int, 2199int))
            &&& rules[9] matches Rule::NthWeekday(f) && f@ == (Ordinal::Second, Weekday::Mon, Month::Oct, (1971int, 2199int))
            &&& rules[10] matches Rule::Fixed(f) && f@ == (Month::Nov, 11int, WeekendShift::SunForward, (1901int, 1970int))
            &&& rules[11] matches Rule::NthWeekday(f) && f@ == (Ordinal::Fourth, Weekday::Mon, Month::Oct, (1971int, 1977int))
            &&& rules[12] matches Rule::Fixed(f) && f@ == (Month::Nov, 11int, WeekendShift::SunForward, (1978int, 2199int))
            &&& rules[13] matches Rule::NthWeekday(f) && f@ == (Ordinal::Fourth, Weekday::Thu, Month::Nov, (1901int, 2199int))
            &&& rules[14] matches Rule::Fixed(f) && f@ == (Month::Dec, 25int, WeekendShift::SunForward, (1901int, 2199int))
        }),
{
    let mut rules: Vec<Rule> = Vec::new();
    rules.push(Rule::Fixed(FixedDate::new(Month::Jan, 1).shift(WeekendShift::SunForward)));
    rules.push(Rule::NthWeekday(NthWeekday::new(Ordinal::Third, Weekday::Mon, Month::Jan).from_year(Year::literal(1983))));
    rules.push(Rule::Fixed(FixedDate::new(Month::Feb, 22).shift(WeekendShift::SatBackSunForward).years(YearRange::literal_through(1970))));
    rules.push(Rule::NthWeekday(NthWeekday::new(Ordinal::Third, Weekday::Mon, Month::Feb).from_year(Year::literal(1971))));
    rules.push(Rule::Fixed(FixedDate::new(Month::May, 30).shift(WeekendShift::SatBackSunForward).years(YearRange::literal_through(1970))));
    rules.push(Rule::LastWeekday(LastWeekday::new(Weekday::Mon, Month::May).from_year(Year::literal(1971))));
    rules.push(Rule::Fixed(FixedDate::new(Month::Jun, 19).shift(WeekendShift::SunForward).from_year(Year::literal(2022))));
    rules.push(Rule::Fixed(FixedDate::new(Month::Jul, 4).shift(WeekendShift::SunForward)));
    rules.push(Rule::NthWeekday(NthWeekday::new(Ordinal::First, Weekday::Mon, Month::Sep)));
    rules.push(Rule::NthWeekday(NthWeekday::new(Ordinal::Second, Weekday::Mon, Month::Oct).from_year(Year::literal(1971))));
    rules.push(Rule::Fixed(FixedDate::new(Month::Nov, 11).shift(WeekendShift::SunForward).years(YearRange::literal_through(1970))));
    rules.push(Rule::NthWeekday(NthWeekday::new(Ordinal::Fourth, Weekday::Mon, Month::Oct).years(YearRange::literal_between(1971, 1977))));
    rules.push(Rule::Fixed(FixedDate::new(Month::Nov, 11).shift(WeekendShift::SunForward).from_year(Year::literal(1978))));
    rules.push(Rule::NthWeekday(NthWeekday::new(Ordinal::Fourth, Weekday::Thu, Month::Nov)));
    rules.push(Rule::Fixed(FixedDate::new(Month::Dec, 25).shift(WeekendShift::SunForward)));
    Calendar { name: "Federal Reserve Bankwire System".to_owned(), weekend: Weekend::sat_sun(), rules }
}

} // verus!
