//! United Kingdom settlement calendar.

use vstd::prelude::*;

use crate::calendar::Calendar;
use crate::date::{Date, Month, Ordinal, Weekday, Year, serial_of};
use crate::easter::EasterMethod;
use crate::rules::{EasterOffset, FixedDate, LastWeekday, NthWeekday, OneOff, Rule, WeekendShift};
use crate::weekend::Weekend;
use crate::year_range::YearRange;

verus! {

/// The UK settlement calendar: Saturday and Sunday weekends and the rules below.
pub fn settlement() -> (c: Calendar)
    ensures
        c.name@ == "UK settlement"@,
        forall|n: int| c.weekend.has(n) <==> (n == 6 || n == 7),
        c.rules@.len() == 24,
        ({
            let rules = c.rules@;
            &&& rules[0] matches Rule::Fixed(f) && f@ == (Month::Jan, 1int, WeekendShift::Forward, (1901int, 2199int))
            &&& rules[1] matches Rule::Easter(f) && f@ == (-2int, EasterMethod::Western, (1901int, 2199int))
            &&& rules[2] matches Rule::Easter(f) && f@ == (1int, EasterMethod::Western, (1901int, 2199int))
            &&& rules[3] matches Rule::NthWeekday(f) && f@ == (Ordinal::First, Weekday::Mon, Month::May, (1901int, 1994int))
            &&& rules[4] matches Rule::NthWeekday(f) && f@ == (Ordinal::First, Weekday::Mon, Month::May, (1996int, 2019int))
            &&& rules[5] matches Rule::NthWeekday(f) && f@ == (Ordinal::First, Weekday::Mon, Month::May, (2021int, 2199int))
            &&& rules[6] matches Rule::OneOff(f) && f@ == serial_of(1995, 5, 8)
            &&& rules[7] matches Rule::OneOff(f) && f@ == serial_of(2020, 5, 8)
            &&& rules[8] matches Rule::LastWeekday(f) && f@ == (Weekday::Mon, Month::May, (1901int, 2001int))
            &&& rules[9] matches Rule::LastWeekday(f) && f@ == (Weekday::Mon, Month::May, (2003int, 2011int))
            &&& rules[10] matches Rule::LastWeekday(f) && f@ == (Weekday::Mon, Month::May, (2013int, 2021int))
            &&& rules[11] matches Rule::LastWeekday(f) && f@ == (Weekday::Mon, Month::May, (2023int, 2199int))
            &&& rules[12] matches Rule::OneOff(f) && f@ == serial_of(2002, 6, 3)
            &&& rules[13] matches Rule::OneOff(f) && f@ == serial_of(2002, 6, 4)
            &&& rules[14] matches Rule::OneOff(f) && f@ == serial_of(2012, 6, 4)
            &&& rules[15] matches Rule::OneOff(f) && f@ == serial_of(2012, 6, 5)
            &&& rules[16] matches Rule::OneOff(f) && f@ == serial_of(2022, 6, 2)
            &&& rules[17] matches Rule::OneOff(f) && f@ == serial_of(2022, 6, 3)
            &&& rules[18] matches Rule::LastWeekday(f) && f@ == (Weekday::Mon, Month::Aug, (1901int, 2199int))
            &&& rules[19] matches Rule::Fixed(f) && f@ == (Month::Dec, 25int, WeekendShift::Forward, (1901int, 2199int))
            &&& rules[20] matches Rule::Fixed(f) && f@ == (Month::Dec, 26int, WeekendShift::Forward, (1901int, 2199int))
            &&& rules[21] matches Rule::OneOff(f) && f@ == serial_of(2022, 9, 19)
            &&& rules[22] matches Rule::OneOff(f) && f@ == serial_of(2023, 5, 8)
            &&& rules[23] matches Rule::OneOff(f) && f@ == serial_of(1999, 12, 31)
        }),
{
    let mut rules: Vec<Rule> = Vec::new();
    rules.push(Rule::Fixed(FixedDate::new(Month::Jan, 1).shift(WeekendShift::Forward)));
    rules.push(Rule::Easter(EasterOffset::good_friday()));
    rules.push(Rule::Easter(EasterOffset::easter_monday()));
    rules.push(Rule::NthWeekday(NthWeekday::new(Ordinal::First, Weekday::Mon, Month::May).years(YearRange::literal_through(1994))));
    rules.push(Rule::NthWeekday(NthWeekday::new(Ordinal::First, Weekday::Mon, Month::May).years(YearRange::literal_between(1996, 2019))));
    rules.push(Rule::NthWeekday(NthWeekday::new(Ordinal::First, Weekday::Mon, Month::May).from_year(Year::literal(2021))));
    rules.push(Rule::OneOff(OneOff::new(Date::literal(1995, Month::May, 8))));
    rules.push(Rule::OneOff(OneOff::new(Date::literal(2020, Month::May, 8))));
    rules.push(Rule::LastWeekday(LastWeekday::new(Weekday::Mon, Month::May).years(YearRange::literal_through(2001))));
    rules.push(Rule::LastWeekday(LastWeekday::new(Weekday::Mon, Month::May).years(YearRange::literal_between(2003, 2011))));
    rules.push(Rule::LastWeekday(LastWeekday::new(Weekday::Mon, Month::May).years(YearRange::literal_between(2013, 2021))));
    rules.push(Rule::LastWeekday(LastWeekday::new(Weekday::Mon, Month::May).from_year(Year::literal(2023))));
    rules.push(Rule::OneOff(OneOff::new(Date::literal(2002, Month::Jun, 3))));
    rules.push(Rule::OneOff(OneOff::new(Date::literal(2002, Month::Jun, 4))));
    rules.push(Rule::OneOff(OneOff::new(Date::literal(2012, Month::Jun, 4))));
    rules.push(Rule::OneOff(OneOff::new(Date::literal(2012, Month::Jun, 5))));
    rules.push(Rule::OneOff(OneOff::new(Date::literal(2022, Month::Jun, 2))));
    rules.push(Rule::OneOff(OneOff::new(Date::literal(2022, Month::Jun, 3))));
    rules.push(Rule::LastWeekday(LastWeekday::new(Weekday::Mon, Month::Aug)));
    rules.push(Rule::Fixed(FixedDate::new(Month::Dec, 25).shift(WeekendShift::Forward)));
    rules.push(Rule::Fixed(FixedDate::new(Month::Dec, 26).shift(WeekendShift::Forward)));
    rules.push(Rule::OneOff(OneOff::new(Date::literal(2022, Month::Sep, 19))));
    rules.push(Rule::OneOff(OneOff::new(Date::literal(2023, Month::May, 8))));
    rules.push(Rule::OneOff(OneOff::new(Date::literal(1999, Month::Dec, 31))));
    Calendar { name: "UK settlement".to_owned(), weekend: Weekend::sat_sun(), rules }
}

} // verus!
