//! [`NthWeekday`]: holidays on the nth occurrence of a weekday in a month,
//! such as the third Monday of January.

use vstd::prelude::*;

use crate::date::{
    lemma_serial_of_bounds, lemma_ymd_of, lemma_ymd_of_serial_of, valid_serial, weekday_of, ymd_of,
    Date, Month, Ordinal, Weekday, Year, LAST_YEAR,
};
use vstd::arithmetic::div_mod::lemma_fundamental_div_mod_converse;
use crate::year_range::YearRange;

verus! {

/// The day of the month of the `n`th weekday numbered `w` in a month whose
/// first day has weekday number `w1`.
pub open spec fn nth_occurrence_day(w1: int, w: int, n: int) -> int {
    1 + (w + 7 - w1) % 7 + 7 * (n - 1)
}

/// In a month whose first day is serial `f`, day `d` is the `n`th
/// occurrence of weekday `w` exactly when it is the day that
/// `nth_occurrence_day` names.
proof fn lemma_nth_occurrence(f: int, w: int, n: int, d: int)
    requires
        f >= 0,
        1 <= w <= 7,
        1 <= n <= 5,
        d >= 1,
    ensures
        (weekday_of(f + d - 1) == w && (d - 1) / 7 + 1 == n) <==> d == nth_occurrence_day(
            weekday_of(f),
            w,
            n,
        ),
{
    let a = (f + 1) % 7;
    let p = (f + 1) / 7;
    let q = (d - 1) / 7;
    let r = (d - 1) % 7;
    lemma_fundamental_div_mod_converse(f + 1, 7, p, a);
    lemma_fundamental_div_mod_converse(d - 1, 7, q, r);
    // The weekday of day `d` comes from `a + r`.
    if a + r < 7 {
        lemma_fundamental_div_mod_converse(f + d, 7, p + q, a + r);
    } else {
        lemma_fundamental_div_mod_converse(f + d, 7, p + q + 1, a + r - 7);
    }
    // The offset of the first occurrence.
    let o = (w + 7 - (a + 1)) % 7;
    if w + 6 - a < 7 {
        lemma_fundamental_div_mod_converse(w + 6 - a, 7, 0, w + 6 - a);
    } else {
        lemma_fundamental_div_mod_converse(w + 6 - a, 7, 1, w - 1 - a);
    }
    if d == 1 + o + 7 * (n - 1) {
        lemma_fundamental_div_mod_converse(d - 1, 7, n - 1, o);
    }
}

/// The nth occurrence of a weekday in a month.
#[derive(Debug, Clone, Copy, PartialEq, Eq, Structural)]
pub struct NthWeekday {
    n: Ordinal,
    weekday: Weekday,
    month: Month,
    years: YearRange,
}

impl View for NthWeekday {
    type V = (Ordinal, Weekday, Month, (int, int));

    closed spec fn view(&self) -> (Ordinal, Weekday, Month, (int, int)) {
        (self.n, self.weekday, self.month, self.years@)
    }
}

impl NthWeekday {
    /// `true` iff serial `s` is the nth occurrence of the weekday in the
    /// month, in a covered year: day `d` is occurrence `(d - 1) / 7 + 1`.
    pub open spec fn holds(self, s: int) -> bool {
        let t = ymd_of(s);
        &&& self@.3.0 <= t.0 <= self@.3.1
        &&& t.1 == self@.2.number()
        &&& weekday_of(s) == self@.1.number()
        &&& (t.2 - 1) / 7 + 1 == self@.0.number()
    }

    /// The `n`th `weekday` of `month`, every year.
    pub fn new(n: Ordinal, weekday: Weekday, month: Month) -> (r: NthWeekday)
        ensures
            r@ == (n, weekday, month, (1901int, 2199int)),
    {
        NthWeekday { n, weekday, month, years: YearRange::always() }
    }

    /// The same rule, active from `year` onwards.
    pub fn from_year(self, year: Year) -> (r: NthWeekday)
        ensures
            r@ == (self@.0, self@.1, self@.2, (year@, LAST_YEAR as int)),
    {
        NthWeekday { years: YearRange::from_year(year), ..self }
    }

    /// The same rule, active over `range`.
    pub fn years(self, range: YearRange) -> (r: NthWeekday)
        ensures
            r@ == (self@.0, self@.1, self@.2, range@),
    {
        NthWeekday { years: range, ..self }
    }

    /// Which occurrence.
    pub fn n(&self) -> (r: Ordinal)
        ensures
            r == self@.0,
    {
        self.n
    }

    /// The weekday.
    pub fn weekday(&self) -> (r: Weekday)
        ensures
            r == self@.1,
    {
        self.weekday
    }

    /// The month.
    pub fn month(&self) -> (r: Month)
        ensures
            r == self@.2,
    {
        self.month
    }

    /// The years the rule covers.
    pub fn year_range(&self) -> (r: YearRange)
        ensures
            r@ == self@.3,
    {
        self.years
    }

    /// `true` iff `date` is the rule's day in a covered year.
    pub fn is_holiday(&self, date: Date) -> (r: bool)
        ensures
            r == self.holds(date@),
    {
        let (y, m, d) = date.to_ymd();
        if !self.years.contains(y) {
            return false;
        }
        if m.get() != self.month.get() {
            return false;
        }
        if date.weekday().get() != self.weekday.get() {
            return false;
        }
        let occurrence = (d - 1) / 7 + 1;
        occurrence == self.n.get()
    }

    /// The rule's day in `year`, if the rule covers the year and the month
    /// has an `n`th such weekday: for a date of `year`, the answer names it
    /// exactly when [`NthWeekday::is_holiday`] does.
    pub fn natural_date_in(self, year: Year) -> (r: Option<Date>)
        ensures
            r matches Some(d) ==> valid_serial(d@) && ymd_of(d@).0 == year@ && self.holds(d@),
            forall|s: int|
                valid_serial(s) && ymd_of(s).0 == year@ && #[trigger] self.holds(s) ==> (r matches Some(
                    d,
                ) && d@ == s),
    {
        if !self.years.contains(year) {
            return None;
        }
        let y = year.get();
        let len = self.month.length(year);
        let first = Date::literal(y, self.month, 1);
        let w1 = first.weekday().get();
        let w = self.weekday.get();
        let n = self.n.get();
        let offset = (w + 7 - w1) % 7;
        let day = 1 + offset + 7 * (n - 1);
        let ghost f = first@;
        proof {
            lemma_serial_of_bounds(y as int, self@.2.number(), 1);
            assert forall|s: int|
                valid_serial(s) && ymd_of(s).0 == year@ && #[trigger] self.holds(s) implies s == f
                + day - 1 && ymd_of(s).2 == day && day <= len by {
                lemma_ymd_of(s);
                lemma_nth_occurrence(f, w as int, n as int, ymd_of(s).2);
            }
        }
        if day > len {
            return None;
        }
        let d = Date::literal(y, self.month, day);
        proof {
            lemma_ymd_of_serial_of(y as int, self@.2.number(), day as int);
            lemma_nth_occurrence(f, w as int, n as int, day as int);
        }
        Some(d)
    }
}

} // verus!
