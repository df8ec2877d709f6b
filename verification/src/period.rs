//! [`Period`] and [`Frequency`]: the building blocks of scheduled date
//! arithmetic. The unit is the enum variant and lengths are signed `i32`,
//! so negative periods are first-class.

use vstd::prelude::*;

use core::ops::{Mul, Neg};
use vstd::std_specs::ops::{MulSpecImpl, NegSpecImpl};

use crate::error::TimeError;
use crate::text::{push_signed, signed_decimal, string_of};

verus! {

// ---- Frequency ----------------------------------------------------------

/// How often cashflows recur per calendar year.
#[derive(Debug, Clone, Copy, PartialEq, Eq, PartialOrd, Ord, Hash, Structural)]
pub enum Frequency {
    /// Once a year.
    Annual,
    /// Twice a year.
    Semiannual,
    /// Every fourth month: 3 times a year.
    EveryFourthMonth,
    /// Every third month: 4 times a year.
    Quarterly,
    /// Every second month: 6 times a year.
    Bimonthly,
    /// Once a month.
    Monthly,
    /// Every fourth week: 13 times a year.
    EveryFourthWeek,
    /// Every second week: 26 times a year.
    Biweekly,
    /// Once a week.
    Weekly,
    /// Once a day.
    Daily,
}

impl Frequency {
    /// Recurrences per year.
    pub open spec fn times_per_year(self) -> int {
        match self {
            Frequency::Annual => 1,
            Frequency::Semiannual => 2,
            Frequency::EveryFourthMonth => 3,
            Frequency::Quarterly => 4,
            Frequency::Bimonthly => 6,
            Frequency::Monthly => 12,
            Frequency::EveryFourthWeek => 13,
            Frequency::Biweekly => 26,
            Frequency::Weekly => 52,
            Frequency::Daily => 365,
        }
    }

    /// The canonical period of one recurrence.
    pub open spec fn period(self) -> Period {
        match self {
            Frequency::Annual => Period::Months(12),
            Frequency::Semiannual => Period::Months(6),
            Frequency::EveryFourthMonth => Period::Months(4),
            Frequency::Quarterly => Period::Months(3),
            Frequency::Bimonthly => Period::Months(2),
            Frequency::Monthly => Period::Months(1),
            Frequency::EveryFourthWeek => Period::Weeks(4),
            Frequency::Biweekly => Period::Weeks(2),
            Frequency::Weekly => Period::Weeks(1),
            Frequency::Daily => Period::Days(1),
        }
    }

    /// The number of recurrences per year. Always positive.
    pub fn per_year(self) -> (r: u16)
        ensures
            r == self.times_per_year(),
            r > 0,
    {
        match self {
            Frequency::Annual => 1,
            Frequency::Semiannual => 2,
            Frequency::EveryFourthMonth => 3,
            Frequency::Quarterly => 4,
            Frequency::Bimonthly => 6,
            Frequency::Monthly => 12,
            Frequency::EveryFourthWeek => 13,
            Frequency::Biweekly => 26,
            Frequency::Weekly => 52,
            Frequency::Daily => 365,
        }
    }

    /// The frequency's name.
    pub open spec fn name(self) -> Seq<char> {
        match self {
            Frequency::Annual => "Annual"@,
            Frequency::Semiannual => "Semiannual"@,
            Frequency::EveryFourthMonth => "EveryFourthMonth"@,
            Frequency::Quarterly => "Quarterly"@,
            Frequency::Bimonthly => "Bimonthly"@,
            Frequency::Monthly => "Monthly"@,
            Frequency::EveryFourthWeek => "EveryFourthWeek"@,
            Frequency::Biweekly => "Biweekly"@,
            Frequency::Weekly => "Weekly"@,
            Frequency::Daily => "Daily"@,
        }
    }

    /// The frequency's name.
    pub fn to_string(self) -> (s: String)
        ensures
            s@ == self.name(),
    {
        let name: &str = match self {
            Frequency::Annual => "Annual",
            Frequency::Semiannual => "Semiannual",
            Frequency::EveryFourthMonth => "EveryFourthMonth",
            Frequency::Quarterly => "Quarterly",
            Frequency::Bimonthly => "Bimonthly",
            Frequency::Monthly => "Monthly",
            Frequency::EveryFourthWeek => "EveryFourthWeek",
            Frequency::Biweekly => "Biweekly",
            Frequency::Weekly => "Weekly",
            Frequency::Daily => "Daily",
        };
        name.to_owned()
    }

    /// The frequency whose canonical period is `period` once normalized;
    /// non-canonical, zero, and negative periods are refused.
    pub fn try_from_period(period: Period) -> (r: Result<Frequency, TimeError>)
        ensures
            r == frequency_of(period),
    {
        match period.normalized() {
            Period::Years(1) => Ok(Frequency::Annual),
            Period::Months(1) => Ok(Frequency::Monthly),
            Period::Months(2) => Ok(Frequency::Bimonthly),
            Period::Months(3) => Ok(Frequency::Quarterly),
            Period::Months(4) => Ok(Frequency::EveryFourthMonth),
            Period::Months(6) => Ok(Frequency::Semiannual),
            Period::Weeks(1) => Ok(Frequency::Weekly),
            Period::Weeks(2) => Ok(Frequency::Biweekly),
            Period::Weeks(4) => Ok(Frequency::EveryFourthWeek),
            Period::Days(1) => Ok(Frequency::Daily),
            _ => Err(TimeError::NonCanonicalPeriod),
        }
    }
}

/// The frequency named by a period, after normalization.
pub open spec fn frequency_of(period: Period) -> Result<Frequency, TimeError> {
    match normalized_of(period) {
        Period::Years(1) => Ok(Frequency::Annual),
        Period::Months(1) => Ok(Frequency::Monthly),
        Period::Months(2) => Ok(Frequency::Bimonthly),
        Period::Months(3) => Ok(Frequency::Quarterly),
        Period::Months(4) => Ok(Frequency::EveryFourthMonth),
        Period::Months(6) => Ok(Frequency::Semiannual),
        Period::Weeks(1) => Ok(Frequency::Weekly),
        Period::Weeks(2) => Ok(Frequency::Biweekly),
        Period::Weeks(4) => Ok(Frequency::EveryFourthWeek),
        Period::Days(1) => Ok(Frequency::Daily),
        _ => Err(TimeError::NonCanonicalPeriod),
    }
}

// ---- Period -------------------------------------------------------------

/// A signed duration tagged by its calendar unit.
#[derive(Debug, Clone, Copy, PartialEq, Eq, Hash, Structural)]
pub enum Period {
    /// Calendar days.
    Days(i32),
    /// Weeks: 7 calendar days.
    Weeks(i32),
    /// Calendar months, of variable length.
    Months(i32),
    /// Calendar years, of variable length.
    Years(i32),
}

/// The period with `p`'s unit and length `n`.
pub open spec fn with_length_of(p: Period, n: i32) -> Period {
    match p {
        Period::Days(_) => Period::Days(n),
        Period::Weeks(_) => Period::Weeks(n),
        Period::Months(_) => Period::Months(n),
        Period::Years(_) => Period::Years(n),
    }
}

/// The canonical form of a period: whole years for multiples of 12
/// months, whole weeks for multiples of 7 days, and `0 Days` for zero.
pub open spec fn normalized_of(p: Period) -> Period {
    if p.len() == 0 {
        Period::Days(0)
    } else {
        match p {
            Period::Months(n) => if n % 12 == 0 {
                Period::Years((n / 12) as i32)
            } else {
                p
            },
            Period::Days(n) => if n % 7 == 0 {
                Period::Weeks((n / 7) as i32)
            } else {
                p
            },
            _ => p,
        }
    }
}

/// Two's-complement negation of an `i32`, as `wrapping_neg` computes it.
pub open spec fn wrapping_neg_i32(n: i32) -> i32 {
    if n == i32::MIN { i32::MIN } else { (-n) as i32 }
}

/// The period with the length negated, wrapping on `i32::MIN`.
pub open spec fn negated(p: Period) -> Period {
    with_length_of(p, wrapping_neg_i32(p.len()))
}

impl Period {
    /// The zero period, `0 Days`.
    pub fn zero() -> (p: Period)
        ensures
            p == Period::Days(0),
    {
        Period::Days(0)
    }

    /// The signed length.
    pub open spec fn len(self) -> i32 {
        match self {
            Period::Days(n) => n,
            Period::Weeks(n) => n,
            Period::Months(n) => n,
            Period::Years(n) => n,
        }
    }

    /// The signed length component.
    pub fn length(self) -> (r: i32)
        ensures
            r == self.len(),
    {
        match self {
            Period::Days(n) => n,
            Period::Weeks(n) => n,
            Period::Months(n) => n,
            Period::Years(n) => n,
        }
    }

    /// `true` iff the period has zero length, whatever its unit.
    pub fn is_zero(self) -> (r: bool)
        ensures
            r == (self.len() == 0),
    {
        self.length() == 0
    }

    /// Replace the length, keeping the unit.
    fn with_length(self, length: i32) -> (r: Period)
        ensures
            r == with_length_of(self, length),
    {
        match self {
            Period::Days(_) => Period::Days(length),
            Period::Weeks(_) => Period::Weeks(length),
            Period::Months(_) => Period::Months(length),
            Period::Years(_) => Period::Years(length),
        }
    }

    /// Canonicalize: `12 Months` becomes `1 Year`, `7 Days` becomes
    /// `1 Week`; other lengths are unchanged and zero becomes `0 Days`.
    pub fn normalized(self) -> (r: Period)
        ensures
            r == normalized_of(self),
    {
        match self {
            Period::Days(0) | Period::Weeks(0) | Period::Months(0) | Period::Years(0) => Period::Days(
                0,
            ),
            Period::Months(n) if n % 12 == 0 => Period::Years(n / 12),
            Period::Days(n) if n % 7 == 0 => Period::Weeks(n / 7),
            other => other,
        }
    }

    /// Negate the length; `None` on overflow (`i32::MIN`).
    pub fn checked_neg(self) -> (r: Option<Period>)
        ensures
            self.len() == i32::MIN ==> r is None,
            self.len() != i32::MIN ==> r == Some(with_length_of(self, (-self.len()) as i32)),
    {
        let n = self.length();
        if n == i32::MIN {
            None
        } else {
            Some(self.with_length(-n))
        }
    }

    /// Scale the length by `n`; `None` on overflow.
    pub fn checked_mul(self, n: i32) -> (r: Option<Period>)
        ensures
            !(i32::MIN <= self.len() * n <= i32::MAX) ==> r is None,
            i32::MIN <= self.len() * n <= i32::MAX ==> r == Some(
                with_length_of(self, (self.len() * n) as i32),
            ),
    {
        match self.length().checked_mul(n) {
            Some(length) => Some(self.with_length(length)),
            None => None,
        }
    }

    /// The unit letter: `D`, `W`, `M` or `Y`.
    pub open spec fn unit_char(self) -> char {
        match self {
            Period::Days(_) => 'D',
            Period::Weeks(_) => 'W',
            Period::Months(_) => 'M',
            Period::Years(_) => 'Y',
        }
    }

    /// The period in short form: the signed length and the unit letter,
    /// as in `3M`, `-1Y` or `14D`.
    pub fn to_string(self) -> (s: String)
        ensures
            s@ == signed_decimal(self.len() as int).push(self.unit_char()),
    {
        let mut out: Vec<char> = Vec::new();
        push_signed(&mut out, self.length() as i64);
        let unit = match self {
            Period::Days(_) => 'D',
            Period::Weeks(_) => 'W',
            Period::Months(_) => 'M',
            Period::Years(_) => 'Y',
        };
        out.push(unit);
        proof {
            assert(out@ =~= signed_decimal(self.len() as int).push(self.unit_char()));
        }
        string_of(&out)
    }

    /// The canonical period of a frequency: `Annual` is `12 Months`.
    pub fn from_frequency(frequency: Frequency) -> (p: Period)
        ensures
            p == frequency.period(),
    {
        match frequency {
            Frequency::Annual => Period::Months(12),
            Frequency::Semiannual => Period::Months(6),
            Frequency::EveryFourthMonth => Period::Months(4),
            Frequency::Quarterly => Period::Months(3),
            Frequency::Bimonthly => Period::Months(2),
            Frequency::Monthly => Period::Months(1),
            Frequency::EveryFourthWeek => Period::Weeks(4),
            Frequency::Biweekly => Period::Weeks(2),
            Frequency::Weekly => Period::Weeks(1),
            Frequency::Daily => Period::Days(1),
        }
    }
}

impl From<Frequency> for Period {
    fn from(frequency: Frequency) -> (p: Period) {
        Period::from_frequency(frequency)
    }
}

impl vstd::std_specs::convert::FromSpecImpl<Frequency> for Period {
    open spec fn obeys_from_spec() -> bool {
        true
    }

    open spec fn from_spec(frequency: Frequency) -> Period {
        frequency.period()
    }
}

impl TryFrom<Period> for Frequency {
    type Error = TimeError;

    fn try_from(period: Period) -> (r: Result<Frequency, TimeError>) {
        Frequency::try_from_period(period)
    }
}

impl vstd::std_specs::convert::TryFromSpecImpl<Period> for Frequency {
    open spec fn obeys_try_from_spec() -> bool {
        true
    }

    open spec fn try_from_spec(period: Period) -> Result<Frequency, TimeError> {
        frequency_of(period)
    }
}

impl Neg for Period {
    type Output = Period;

    /// Negate the length; wraps on `i32::MIN`.
    fn neg(self) -> (r: Period) {
        let n = self.length();
        if n == i32::MIN {
            self
        } else {
            self.with_length(-n)
        }
    }
}

impl NegSpecImpl for Period {
    open spec fn obeys_neg_spec() -> bool {
        true
    }

    open spec fn neg_req(self) -> bool {
        true
    }

    open spec fn neg_spec(self) -> Period {
        negated(self)
    }
}

impl Mul<i32> for Period {
    type Output = Period;

    /// Scale the length by `n`; wraps on overflow.
    fn mul(self, n: i32) -> (r: Period) {
        self.with_length(self.length().wrapping_mul(n))
    }
}

impl MulSpecImpl<i32> for Period {
    open spec fn obeys_mul_spec() -> bool {
        true
    }

    open spec fn mul_req(self, n: i32) -> bool {
        true
    }

    open spec fn mul_spec(self, n: i32) -> Period {
        with_length_of(self, vstd::wrapping::i32_specs::wrapping_mul(self.len(), n))
    }
}

impl Mul<Period> for i32 {
    type Output = Period;

    /// Scalar multiplication with the scalar on the left.
    fn mul(self, period: Period) -> (r: Period) {
        period.with_length(period.length().wrapping_mul(self))
    }
}

impl MulSpecImpl<Period> for i32 {
    open spec fn obeys_mul_spec() -> bool {
        true
    }

    open spec fn mul_req(self, period: Period) -> bool {
        true
    }

    open spec fn mul_spec(self, period: Period) -> Period {
        with_length_of(period, vstd::wrapping::i32_specs::wrapping_mul(period.len(), self))
    }
}

/// Normalizing twice is normalizing once.
pub proof fn lemma_normalized_idempotent(p: Period)
    ensures
        normalized_of(normalized_of(p)) == normalized_of(p),
{
}

/// Every frequency's canonical period maps back to that frequency.
pub proof fn lemma_frequency_period_round_trip(f: Frequency)
    ensures
        frequency_of(f.period()) == Ok::<Frequency, TimeError>(f),
{
}

/// A successful conversion to a frequency names the normalized period.
pub proof fn lemma_frequency_of_normalizes(p: Period)
    ensures
        frequency_of(p) is Ok ==> normalized_of(frequency_of(p)->Ok_0.period()) == normalized_of(p),
{
}

/// Negating twice with the operator is the identity.
pub proof fn lemma_double_negation(p: Period)
    ensures
        negated(negated(p)) == p,
{
}

/// Scaling is the same with the scalar on either side.
pub proof fn lemma_scalar_mul_commutes(p: Period, n: i32)
    ensures
        vstd::std_specs::ops::MulSpec::mul_spec(p, n) == vstd::std_specs::ops::MulSpec::mul_spec(n, p),
{
}

/// Replacing a period's length with its own length gives it back.
pub proof fn lemma_with_length_round_trip(p: Period)
    ensures
        with_length_of(p, p.len()) == p,
{
}

} // verus!
