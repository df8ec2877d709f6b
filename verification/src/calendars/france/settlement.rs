//! France settlement calendar.

use vstd::prelude::*;

use crate::calendar::Calendar;
use crate::date::{Month};
use crate::easter::EasterMethod;
use crate::rules::{EasterOffset, FixedDate, Rule, WeekendShift};
use crate::weekend::Weekend;

verus! {

/// The France settlement calendar: Saturday and Sunday weekends and the rules below.
pub fn settlement() -> (c: Calendar)
    ensures
        c.name@ == "France settlement"@,
        forall|n: int| c.weekend.has(n) <==> (n == 6 || n == 7),
        c.rules@.len() == 11,
        ({
            let rules = c.rules@;
            &&& rules[0] matches Rule::Fixed(f) && f@ == (Month::Jan, 1int, WeekendShift::NoShift, (1901int, 2199int))
            &&& rules[1] matches Rule::Easter(f) && f@ == (1int, EasterMethod::Western, (1901int, 2199int))
            &&& rules[2] matches Rule::Fixed(f) && f@ == (Month::May, 1int, WeekendShift::NoShift, (1901int, 2199int))
            &&& rules[3] matches Rule::Fixed(f) && f@ == (Month::May, 8int, WeekendShift::NoShift, (1901int, 2199int))
            &&& rules[4] matches Rule::Easter(f) && f@ == (39int, EasterMethod::Western, (1901int, 2199int))
            &&& rules[5] matches Rule::Easter(f) && f@ == (50int, EasterMethod::Western, (1901int, 2199int))
            &&& rules[6] matches Rule::Fixed(f) && f@ == (Month::Jul, 14int, WeekendShift::NoShift, (1901int, 2199int))
            &&& rules[7] matches Rule::Fixed(f) && f@ == (Month::Aug, 15int, WeekendShift::NoShift, (1901int, 2199int))
            &&& rules[8] matches Rule::Fixed(f) && f@ == (Month::Nov, 1int, WeekendShift::NoShift, (1901int, 2199int))
            &&& rules[9] matches Rule::Fixed(f) && f@ == (Month::Nov, 11int, WeekendShift::NoShift, (1901int, 2199int))
            &&& rules[10] matches Rule::Fixed(f) && f@ == (Month::Dec, 25int, WeekendShift::NoShift, (1901int, 2199int))
        }),
{
    let mut rules: Vec<Rule> = Vec::new();
    rules.push(Rule::Fixed(FixedDate::new(Month::Jan, 1)));
    rules.push(Rule::Easter(EasterOffset::easter_monday()));
    rules.push(Rule::Fixed(FixedDate::new(Month::May, 1)));
    rules.push(Rule::Fixed(FixedDate::new(Month::May, 8)));
    rules.push(Rule::Easter(EasterOffset::ascension()));
    rules.push(Rule::Easter(EasterOffset::whit_monday()));
    rules.push(Rule::Fixed(FixedDate::new(Month::Jul, 14)));
    rules.push(Rule::Fixed(FixedDate::new(Month::Aug, 15)));
    rules.push(Rule::Fixed(FixedDate::new(Month::Nov, 1)));
    rules.push(Rule::Fixed(FixedDate::new(Month::Nov, 11)));
    rules.push(Rule::Fixed(FixedDate::new(Month::Dec, 25)));
    Calendar { name: "France settlement".to_owned(), weekend: Weekend::sat_sun(), rules }
}

} // verus!
