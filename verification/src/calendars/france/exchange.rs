//! Paris exchange calendar.

use vstd::prelude::*;

use crate::calendar::Calendar;
use crate::date::{Month};
use crate::easter::EasterMethod;
use crate::rules::{EasterOffset, FixedDate, Rule, WeekendShift};
use crate::weekend::Weekend;

verus! {

/// The France exchange calendar: Saturday and Sunday weekends and the rules below.
pub fn exchange() -> (c: Calendar)
    ensures
        c.name@ == "France exchange"@,
        forall|n: int| c.weekend.has(n) <==> (n == 6 || n == 7),
        c.rules@.len() == 8,
        ({
            let rules = c.rules@;
            &&& rules[0] matches Rule::Fixed(f) && f@ == (Month::Jan, 1int, WeekendShift::NoShift, (1901int, 2199int))
            &&& rules[1] matches Rule::Easter(f) && f@ == (-2int, EasterMethod::Western, (1901int, 2199int))
            &&& rules[2] matches Rule::Easter(f) && f@ == (1int, EasterMethod::Western, (1901int, 2199int))
            &&& rules[3] matches Rule::Fixed(f) && f@ == (Month::May, 1int, WeekendShift::NoShift, (1901int, 2199int))
            &&& rules[4] matches Rule::Fixed(f) && f@ == (Month::Dec, 24int, WeekendShift::NoShift, (1901int, 2199int))
            &&& rules[5] matches Rule::Fixed(f) && f@ == (Month::Dec, 25int, WeekendShift::NoShift, (1901int, 2199int))
            &&& rules[6] matches Rule::Fixed(f) && f@ == (Month::Dec, 26int, WeekendShift::NoShift, (1901int, 2199int))
            &&& rules[7] matches Rule::Fixed(f) && f@ == (Month::Dec, 31int, WeekendShift::NoShift, (1901int, 2199int))
        }),
{
    let mut rules: Vec<Rule> = Vec::new();
    rules.push(Rule::Fixed(FixedDate::new(Month::Jan, 1)));
    rules.push(Rule::Easter(EasterOffset::good_friday()));
    rules.push(Rule::Easter(EasterOffset::easter_monday()));
    rules.push(Rule::Fixed(FixedDate::new(Month::May, 1)));
    rules.push(Rule::Fixed(FixedDate::new(Month::Dec, 24)));
    rules.push(Rule::Fixed(FixedDate::new(Month::Dec, 25)));
    rules.push(Rule::Fixed(FixedDate::new(Month::Dec, 26)));
    rules.push(Rule::Fixed(FixedDate::new(Month::Dec, 31)));
    Calendar { name: "France exchange".to_owned(), weekend: Weekend::sat_sun(), rules }
}

} // verus!
