//! The error type returned by fallible constructors and date arithmetic.

use vstd::prelude::*;

verus! {

/// Errors produced by the library's fallible operations.
#[derive(Debug, Clone, Copy, PartialEq, Eq, Structural)]
pub enum TimeError {
    /// A year outside the supported range 1901–2199.
    YearOutOfRange,
    /// A month number outside 1..=12.
    MonthOutOfRange,
    /// A day-of-month that is zero or exceeds the month's length.
    DayOutOfRange,
    /// An ordinal outside 1..=5.
    OrdinalOutOfRange,
    /// An ISO weekday number outside 1..=7.
    WeekdayOutOfRange,
    /// A date arithmetic result outside the supported serial range.
    DateOutOfRange,
    /// A date string that is not in `YYYY-MM-DD` form.
    InvalidDateString,
    /// A year range whose upper bound is below its lower bound.
    InvalidYearRange,
    /// A period that corresponds to no canonical frequency.
    NonCanonicalPeriod,
    /// A fraction with a zero denominator.
    ZeroDenominator,
    /// A reference period whose start is not strictly before its end, or a
    /// bound schedule with fewer than two dates.
    InvalidReferencePeriod,
    /// Fraction arithmetic that overflowed the `i64`/`u64` representation.
    FractionOverflow,
    /// A day count bound to a schedule whose tenor disagrees with its
    /// coupon frequency.
    FrequencyMismatch,
    /// A schedule whose effective date is not strictly before termination.
    EffectiveAfterTermination,
    /// A zero tenor on a forward or backward generation rule.
    ZeroTenor,
    /// A stub date outside (effective, termination), or stubs out of order.
    StubDateOutOfRange,
    /// Schedule dates that are not strictly increasing after adjustment.
    ScheduleNotMonotonic,
}

impl TimeError {
    /// The human-readable description of the error.
    pub open spec fn message(self) -> Seq<char> {
        match self {
            TimeError::YearOutOfRange => "year out of range: supported range is 1901..=2199"@,
            TimeError::MonthOutOfRange => "month out of range: must be 1..=12"@,
            TimeError::DayOutOfRange => "day out of range for the given month and year"@,
            TimeError::OrdinalOutOfRange => "ordinal out of range: must be 1..=5"@,
            TimeError::WeekdayOutOfRange => "weekday out of range: must be 1..=7 (ISO: Mon=1..Sun=7)"@,
            TimeError::DateOutOfRange => "date arithmetic result out of range"@,
            TimeError::InvalidDateString => "date string is not in YYYY-MM-DD form"@,
            TimeError::InvalidYearRange => "year range upper bound is below lower bound"@,
            TimeError::NonCanonicalPeriod => "period does not correspond to a canonical frequency"@,
            TimeError::ZeroDenominator => "year fraction denominator must be non-zero"@,
            TimeError::InvalidReferencePeriod => "reference period start must be strictly before its end"@,
            TimeError::FractionOverflow => "year-fraction arithmetic overflowed"@,
            TimeError::FrequencyMismatch => "day-count frequency does not match the schedule's tenor"@,
            TimeError::EffectiveAfterTermination => "schedule effective date must be strictly before termination"@,
            TimeError::ZeroTenor => "schedule tenor must be non-zero for Forward/Backward rules"@,
            TimeError::StubDateOutOfRange => "schedule stub date is out of (effective, termination) range"@,
            TimeError::ScheduleNotMonotonic => "schedule dates are not strictly monotonic after adjustment"@,
        }
    }

    /// The human-readable description of the error.
    pub fn to_string(self) -> (s: String)
        ensures
            s@ == self.message(),
    {
        let text: &str = match self {
            TimeError::YearOutOfRange => "year out of range: supported range is 1901..=2199",
            TimeError::MonthOutOfRange => "month out of range: must be 1..=12",
            TimeError::DayOutOfRange => "day out of range for the given month and year",
            TimeError::OrdinalOutOfRange => "ordinal out of range: must be 1..=5",
            TimeError::WeekdayOutOfRange => "weekday out of range: must be 1..=7 (ISO: Mon=1..Sun=7)",
            TimeError::DateOutOfRange => "date arithmetic result out of range",
            TimeError::InvalidDateString => "date string is not in YYYY-MM-DD form",
            TimeError::InvalidYearRange => "year range upper bound is below lower bound",
            TimeError::NonCanonicalPeriod => "period does not correspond to a canonical frequency",
            TimeError::ZeroDenominator => "year fraction denominator must be non-zero",
            TimeError::InvalidReferencePeriod => "reference period start must be strictly before its end",
            TimeError::FractionOverflow => "year-fraction arithmetic overflowed",
            TimeError::FrequencyMismatch => "day-count frequency does not match the schedule's tenor",
            TimeError::EffectiveAfterTermination => "schedule effective date must be strictly before termination",
            TimeError::ZeroTenor => "schedule tenor must be non-zero for Forward/Backward rules",
            TimeError::StubDateOutOfRange => "schedule stub date is out of (effective, termination) range",
            TimeError::ScheduleNotMonotonic => "schedule dates are not strictly monotonic after adjustment",
        };
        text.to_owned()
    }
}

} // verus!
