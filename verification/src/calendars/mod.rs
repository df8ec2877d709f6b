//! Built-in calendars, grouped by country or market, plus the
//! market-neutral [`weekends_only`] and [`null_calendar`].

use vstd::prelude::*;

use crate::calendar::Calendar;
use crate::rules::Rule;
use crate::weekend::Weekend;

pub mod france;
mod target;
pub mod uk;
pub mod us;

pub use target::target;

verus! {

/// Saturday and Sunday are the only non-business days.
pub fn weekends_only() -> (c: Calendar)
    ensures
        c.name@ == "Weekends only"@,
        forall|n: int| c.weekend.has(n) <==> (n == 6 || n == 7),
        c.rules@.len() == 0,
{
    Calendar { name: "Weekends only".to_owned(), weekend: Weekend::sat_sun(), rules: Vec::<Rule>::new() }
}

/// Every day is a business day.
pub fn null_calendar() -> (c: Calendar)
    ensures
        c.name@ == "Null calendar"@,
        forall|n: int| !c.weekend.has(n),
        c.rules@.len() == 0,
{
    Calendar { name: "Null calendar".to_owned(), weekend: Weekend::none(), rules: Vec::<Rule>::new() }
}

} // verus!
