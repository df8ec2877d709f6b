//! [`LastWeekday`]: holidays on the last occurrence of a weekday in a
//! month, such as the last Monday of May.

use vstd::prelude::*;

use crate::date::{
    days_in_month, lemma_month_start_step, lemma_serial_of_bounds, lemma_year_start_step,
    lemma_ymd_of, lemma_ymd_of_serial_of, serial_of, valid_serial, valid_ymd, weekday_of, year_start,
    ymd_of, Date, Month, Weekday, Year, LAST_YEAR,
};
use vstd::arithmetic::div_mod::lemma_fundamental_div_mod_converse;
use crate::year_range::YearRange;

verus! {

/// A week after a day in the last week of its month is in another month,
/// or past the supported range.
proof fn lemma_week_later_leaves_month(y: int, m: int, d: int)
    requires
        valid_ymd(y, m, d),
        d + 7 > days_in_month(y, m),
    ensures
        valid_serial(serial_of(y, m, d) + 7) ==> ymd_of(serial_of(y, m, d) + 7).1 != m,
{
    let len = days_in_month(y, m);
    let e = d + 7 - len;
    lemma_month_start_step(y, m);
    if m < 12 {
        assert(serial_of(y, m, d) + 7 == serial_of(y, m + 1, e));
        lemma_ymd_of_serial_of(y, m + 1, e);
    } else {
        lemma_year_start_step(y);
        assert(serial_of(y, m, d) + 7 == serial_of(y + 1, 1, e));
        if y < LAST_YEAR {
            lemma_ymd_of_serial_of(y + 1, 1, e);
        } else {
            assert(year_start(2200) == 109208);
        }
    }
}

/// In a month whose last day, day `len`, is serial `l`, day `d` falls on
/// weekday `w` in the month's last week exactly when it is `len` less the
/// days back from the last day's weekday to `w`.
proof fn lemma_last_occurrence(l: int, len: int, w: int, d: int)
    requires
        l >= 0,
        1 <= w <= 7,
        1 <= d <= len,
    ensures
        (weekday_of(l - (len - d)) == w && d + 7 > len) <==> d == len - (weekday_of(l) + 7 - w)
            % 7,
{
    let a = (l + 1) % 7;
    let p = (l + 1) / 7;
    lemma_fundamental_div_mod_converse(l + 1, 7, p, a);
    let k = len - d;
    let back = (a + 8 - w) % 7;
    if a + 8 - w < 7 {
        lemma_fundamental_div_mod_converse(a + 8 - w, 7, 0, a + 8 - w);
    } else {
        lemma_fundamental_div_mod_converse(a + 8 - w, 7, 1, a + 1 - w);
    }
    if 0 <= k < 7 {
        // The weekday of day `d` comes from `a - k`.
        if a - k >= 0 {
            lemma_fundamental_div_mod_converse(l + 1 - k, 7, p, a - k);
        } else {
            lemma_fundamental_div_mod_converse(l + 1 - k, 7, p - 1, a - k + 7);
        }
    }
}

/// The last occurrence of a weekday in a month.
#[derive(Debug, Clone, Copy, PartialEq, Eq, Structural)]
pub struct LastWeekday {
    weekday: Weekday,
    month: Month,
    years: YearRange,
}

impl View for LastWeekday {
    type V = (Weekday, Month, (int, int));

    closed spec fn view(&self) -> (Weekday, Month, (int, int)) {
        (self.weekday, self.month, self.years@)
    }
}

impl LastWeekday {
    /// `true` iff serial `s` falls on the weekday in the month, in a
    /// covered year, and a week later is another month or out of range.
    pub open spec fn holds(self, s: int) -> bool {
        let t = ymd_of(s);
        &&& self@.2.0 <= t.0 <= self@.2.1
        &&& t.1 == self@.1.number()
        &&& weekday_of(s) == self@.0.number()
        &&& (valid_serial(s + 7) ==> ymd_of(s + 7).1 != self@.1.number())
    }

    /// The last `weekday` of `month`, every year.
    pub fn new(weekday: Weekday, month: Month) -> (r: LastWeekday)
        ensures
            r@ == (weekday, month, (1901int, 2199int)),
    {
        LastWeekday { weekday, month, years: YearRange::always() }
    }

    /// The same rule, active from `year` onwards.
    pub fn from_year(self, year: Year) -> (r: LastWeekday)
        ensures
            r@ == (self@.0, self@.1, (year@, LAST_YEAR as int)),
    {
        LastWeekday { years: YearRange::from_year(year), ..self }
    }

    /// The same rule, active over `range`.
    pub fn years(self, range: YearRange) -> (r: LastWeekday)
        ensures
            r@ == (self@.0, self@.1, range@),
    {
        LastWeekday { years: range, ..self }
    }

    /// The weekday.
    pub fn weekday(&self) -> (r: Weekday)
        ensures
            r == self@.0,
    {
        self.weekday
    }

    /// The month.
    pub fn month(&self) -> (r: Month)
        ensures
            r == self@.1,
    {
        self.month
    }

    /// The years the rule covers.
    pub fn year_range(&self) -> (r: YearRange)
        ensures
            r@ == self@.2,
    {
        self.years
    }

    /// `true` iff `date` is the rule's day in a covered year.
    pub fn is_holiday(&self, date: Date) -> (r: bool)
        ensures
            r == self.holds(date@),
    {
        if !self.years.contains(date.year()) {
            return false;
        }
        if date.month().get() != self.month.get() {
            return false;
        }
        if date.weekday().get() != self.weekday.get() {
            return false;
        }
        match date.add_days(7) {
            Ok(next) => next.month().get() != self.month.get(),
            Err(_) => true,
        }
    }

    /// The rule's day in `year`, if the rule covers the year: for a date of
    /// `year`, the answer names it exactly when [`LastWeekday::is_holiday`]
    /// does.
    pub fn natural_date_in(self, year: Year) -> (r: Option<Date>)
        ensures
            r matches Some(d) ==> valid_serial(d@) && ymd_of(d@).0 == year@ && self.holds(d@),
            forall|s: int|
                valid_serial(s) && ymd_of(s).0 == year@ && #[trigger] self.holds(s) ==> (r matches Some(
                    d,
                ) && d@ == s),
    {
        if !self.years.contains(year) {
            return None;
        }
        let y = year.get();
        let len = self.month.length(year);
        let last = Date::literal(y, self.month, len);
        let wl = last.weekday().get();
        let w = self.weekday.get();
        let back = (wl + 7 - w) % 7;
        let day = len - back;
        let d = Date::literal(y, self.month, day);
        proof {
            let mm = self@.1.number();
            let l = last@;
            lemma_serial_of_bounds(y as int, mm, len as int);
            lemma_ymd_of_serial_of(y as int, mm, day as int);
            lemma_last_occurrence(l, len as int, w as int, day as int);
            lemma_week_later_leaves_month(y as int, mm, day as int);
            assert forall|s: int|
                valid_serial(s) && ymd_of(s).0 == year@ && #[trigger] self.holds(s) implies s
                == d@ by {
                lemma_ymd_of(s);
                let t = ymd_of(s);
                if t.2 + 7 <= len {
                    lemma_serial_of_bounds(t.0, t.1, t.2 + 7);
                    lemma_ymd_of_serial_of(t.0, t.1, t.2 + 7);
                    assert(serial_of(t.0, t.1, t.2 + 7) == s + 7);
                }
                lemma_last_occurrence(l, len as int, w as int, t.2);
            }
        }
        Some(d)
    }
}

} // verus!
