//! The `chrono` types that cross this library's boundary, declared so that
//! verified code can hold and pass them; their insides stay opaque.

use vstd::prelude::*;

use chrono::Month as ChronoMonth;
use chrono::Weekday as ChronoWeekday;

verus! {

#[verifier::external_type_specification]
#[verifier::external_body]
pub struct ExNaiveDate(chrono::NaiveDate);

#[verifier::external_type_specification]
#[verifier::external_body]
pub struct ExChronoWeekday(ChronoWeekday);

#[verifier::external_type_specification]
#[verifier::external_body]
pub struct ExChronoMonth(ChronoMonth);

} // verus!
