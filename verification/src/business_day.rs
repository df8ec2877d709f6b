//! [`BusinessDayConvention`]: how to roll a date that is not a business
//! day onto one that is.

use vstd::prelude::*;

verus! {

/// How to roll a non-business date onto a business date; applied by
/// [`Calendar::adjust`](crate::Calendar::adjust).
#[derive(Debug, Clone, Copy, PartialEq, Eq, Hash, Structural)]
pub enum BusinessDayConvention {
    /// Keep the date, even if it is not a business day.
    Unadjusted,
    /// First business day on or after the date.
    Following,
    /// As `Following`, unless that leaves the month; then the first
    /// business day on or before the date.
    ModifiedFollowing,
    /// First business day on or before the date.
    Preceding,
    /// As `Preceding`, unless that leaves the month; then the first
    /// business day on or after the date.
    ModifiedPreceding,
}

impl BusinessDayConvention {
    /// The convention's name.
    pub open spec fn name(self) -> Seq<char> {
        match self {
            BusinessDayConvention::Unadjusted => "Unadjusted"@,
            BusinessDayConvention::Following => "Following"@,
            BusinessDayConvention::ModifiedFollowing => "ModifiedFollowing"@,
            BusinessDayConvention::Preceding => "Preceding"@,
            BusinessDayConvention::ModifiedPreceding => "ModifiedPreceding"@,
        }
    }

    /// The convention's name.
    pub fn to_string(self) -> (s: String)
        ensures
            s@ == self.name(),
    {
        let name: &str = match self {
            BusinessDayConvention::Unadjusted => "Unadjusted",
            BusinessDayConvention::Following => "Following",
            BusinessDayConvention::ModifiedFollowing => "ModifiedFollowing",
            BusinessDayConvention::Preceding => "Preceding",
            BusinessDayConvention::ModifiedPreceding => "ModifiedPreceding",
        };
        name.to_owned()
    }
}

} // verus!
