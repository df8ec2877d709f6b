//! The TARGET calendar of euro payments.

use vstd::prelude::*;

use crate::calendar::Calendar;
use crate::date::{Date, Month, Year, serial_of};
use crate::easter::EasterMethod;
use crate::rules::{EasterOffset, FixedDate, OneOff, Rule, WeekendShift};
use crate::weekend::Weekend;

verus! {

/// The TARGET calendar: Saturday and Sunday weekends and the rules below.
pub fn target() -> (c: Calendar)
    ensures
        c.name@ == "TARGET"@,
        forall|n: int| c.weekend.has(n) <==> (n == 6 || n == 7),
        c.rules@.len() == 9,
        ({
            let rules = c.rules@;
            &&& rules[0] matches Rule::Fixed(f) && f@ == (Month::Jan, 1int, WeekendShift::NoShift, (1901int, 2199int))
            &&& rules[1] matches Rule::Easter(f) && f@ == (-2int, EasterMethod::Western, (2000int, 2199int))
            &&& rules[2] matches Rule::Easter(f) && f@ == (1int, EasterMethod::Western, (2000int, 2199int))
            &&& rules[3] matches Rule::Fixed(f) && f@ == (Month::May, 1int, WeekendShift::NoShift, (2000int, 2199int))
            &&& rules[4] matches Rule::Fixed(f) && f@ == (Month::Dec, 25int, WeekendShift::NoShift, (1901int, 2199int))
            &&& rules[5] matches Rule::Fixed(f) && f@ == (Month::Dec, 26int, WeekendShift::NoShift, (2000int, 2199int))
            &&& rules[6] matches Rule::OneOff(f) && f@ == serial_of(1998, 12, 31)
            &&& rules[7] matches Rule::OneOff(f) && f@ == serial_of(1999, 12, 31)
            &&& rules[8] matches Rule::OneOff(f) && f@ == serial_of(2001, 12, 31)
        }),
{
    let mut rules: Vec<Rule> = Vec::new();
    rules.push(Rule::Fixed(FixedDate::new(Month::Jan, 1)));
    rules.push(Rule::Easter(EasterOffset::good_friday().from_year(Year::literal(2000))));
    rules.push(Rule::Easter(EasterOffset::easter_monday().from_year(Year::literal(2000))));
    rules.push(Rule::Fixed(FixedDate::new(Month::May, 1).from_year(Year::literal(2000))));
    rules.push(Rule::Fixed(FixedDate::new(Month::Dec, 25)));
    rules.push(Rule::Fixed(FixedDate::new(Month::Dec, 26).from_year(Year::literal(2000))));
    rules.push(Rule::OneOff(OneOff::new(Date::literal(1998, Month::Dec, 31))));
    rules.push(Rule::OneOff(OneOff::new(Date::literal(1999, Month::Dec, 31))));
    rules.push(Rule::OneOff(OneOff::new(Date::literal(2001, Month::Dec, 31))));
    Calendar { name: "TARGET".to_owned(), weekend: Weekend::sat_sun(), rules }
}

} // verus!
