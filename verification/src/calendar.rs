//! [`Calendar`]: a weekend definition plus a list of holiday [`Rule`]s,
//! and the substitute-day resolution that turns a rule's weekend shift
//! into an observed date.
//!
//! A holiday whose natural date falls on a weekend day, and whose rule
//! moves it that way, is owed a substitute: the first free weekday in its
//! direction, free meaning neither a weekend day nor another rule's
//! natural holiday. A weekend is at most two consecutive days, so at most
//! two substitutes queue; a weekday between the weekend and a candidate
//! date that is free absorbs one of them.

use vstd::prelude::*;

use core::ops::Range;

use crate::business_day::BusinessDayConvention;
use crate::date::{valid_serial, weekday_of, ymd_of, Date, MAX_SERIAL};
use crate::date::{advanced_serial, end_of_month_of, shifted_serial};
use crate::error::TimeError;
use crate::period::Period;
use crate::rules::{shift_direction, Rule, WeekendShift};
use crate::weekend::Weekend;

verus! {

/// A business calendar: its name, its weekend days, and its holiday rules.
pub struct Calendar {
    /// Display name.
    pub name: String,
    /// Days of the week that are never business days.
    pub weekend: Weekend,
    /// Holiday rules, each naming a holiday's natural date.
    pub rules: Vec<Rule>,
}

/// The day `i` steps from `near` in direction `step`.
pub open spec fn step_from(near: int, step: int, i: int) -> int {
    if step >= 0 {
        near + i
    } else {
        near - i
    }
}

/// `true` iff the month and year of serials `a` and `b` agree.
pub open spec fn same_month(a: int, b: int) -> bool {
    ymd_of(a).0 == ymd_of(b).0 && ymd_of(a).1 == ymd_of(b).1
}

/// The serial of the first day of the month holding serial `s`.
pub open spec fn start_of_month_of(s: int) -> int {
    s - ymd_of(s).2 + 1
}

impl Calendar {
    /// `true` iff serial `s` falls on a weekend day.
    pub open spec fn weekend_at(&self, s: int) -> bool {
        self.weekend.has(weekday_of(s))
    }

    /// `true` iff some rule names serial `s` as its natural date.
    pub open spec fn natural_at(&self, s: int) -> bool {
        exists|i: int| 0 <= i < self.rules@.len() && #[trigger] self.rules@[i].holds(s)
    }

    /// `true` iff some rule moves off weekends at all.
    pub open spec fn shifts_any(&self) -> bool {
        exists|i: int|
            0 <= i < self.rules@.len() && #[trigger] self.rules@[i].shift() != WeekendShift::NoShift
    }

    /// `true` iff serial `s` is a weekend day carrying a holiday whose rule
    /// moves it in direction `step`.
    pub open spec fn moves_at(&self, s: int, step: int) -> bool {
        &&& self.weekend_at(s)
        &&& exists|i: int|
            #![trigger self.rules@[i]]
            0 <= i < self.rules@.len() && shift_direction(self.rules@[i].shift(), weekday_of(s))
                == Some(step) && self.rules@[i].holds(s)
    }

    /// How many of the weekend days `near - step` and `near` owe a
    /// substitute in direction `step`.
    pub open spec fn owed_count(&self, near: int, step: int) -> int {
        (if valid_serial(near - step) && self.moves_at(near - step, step) {
            1int
        } else {
            0
        }) + (if self.moves_at(near, step) {
            1int
        } else {
            0
        })
    }

    /// `true` iff serial `s` is a supported weekday that no rule names.
    pub open spec fn free_at(&self, s: int) -> bool {
        valid_serial(s) && !self.weekend_at(s) && !self.natural_at(s)
    }

    /// How many of the days 1..k steps from `near` are free.
    pub open spec fn free_count(&self, near: int, step: int, k: int) -> int
        decreases k,
    {
        if k <= 1 {
            0
        } else {
            self.free_count(near, step, k - 1) + (if self.free_at(step_from(near, step, k - 1)) {
                1int
            } else {
                0
            })
        }
    }

    /// `true` iff the weekend `offset` days from serial `s` owes more
    /// substitutes in direction `step` than the free days between it and
    /// `s` absorb.
    pub open spec fn owed_at(&self, s: int, offset: int, step: int) -> bool {
        let near = s + offset;
        let k = if offset >= 0 {
            offset
        } else {
            -offset
        };
        &&& valid_serial(near)
        &&& self.owed_count(near, step) >= 1
        &&& self.free_count(near, step, k) < self.owed_count(near, step)
    }

    /// `true` iff serial `s` is a substitute day: a weekday served by the
    /// weekend before it (moving forwards) or after it (moving backwards).
    pub open spec fn substitute_at(&self, s: int) -> bool {
        let w = weekday_of(s);
        &&& !self.weekend_at(s)
        &&& self.shifts_any()
        &&& (self.owed_at(s, -w, 1) || self.owed_at(s, 6 - w, -1))
    }

    /// `true` iff serial `s` is a holiday: a natural date or a substitute.
    pub open spec fn holiday_at(&self, s: int) -> bool {
        self.natural_at(s) || self.substitute_at(s)
    }

    /// `true` iff serial `s` is neither a weekend day nor a holiday.
    pub open spec fn business_at(&self, s: int) -> bool {
        !self.weekend_at(s) && !self.holiday_at(s)
    }

    /// The first business day at or after serial `t`, if any is supported.
    pub open spec fn first_business_from(&self, t: int) -> Option<int>
        decreases MAX_SERIAL + 1 - t,
    {
        if t > MAX_SERIAL || t < 0 {
            None
        } else if self.business_at(t) {
            Some(t)
        } else {
            self.first_business_from(t + 1)
        }
    }

    /// The last business day at or before serial `t`, if any is supported.
    pub open spec fn last_business_from(&self, t: int) -> Option<int>
        decreases t + 1,
    {
        if t < 0 || t > MAX_SERIAL {
            None
        } else if self.business_at(t) {
            Some(t)
        } else {
            self.last_business_from(t - 1)
        }
    }

    /// Where `convention` rolls serial `s`; `None` when the search leaves
    /// the supported range.
    pub open spec fn adjusted_at(&self, s: int, convention: BusinessDayConvention) -> Option<int> {
        if self.business_at(s) {
            Some(s)
        } else {
            match convention {
                BusinessDayConvention::Unadjusted => Some(s),
                BusinessDayConvention::Following => self.first_business_from(s + 1),
                BusinessDayConvention::Preceding => self.last_business_from(s - 1),
                BusinessDayConvention::ModifiedFollowing => match self.first_business_from(s + 1) {
                    Some(c) => if same_month(c, s) {
                        Some(c)
                    } else {
                        self.last_business_from(s - 1)
                    },
                    None => None,
                },
                BusinessDayConvention::ModifiedPreceding => match self.last_business_from(s - 1) {
                    Some(c) => if same_month(c, s) {
                        Some(c)
                    } else {
                        self.first_business_from(s + 1)
                    },
                    None => None,
                },
            }
        }
    }

    /// The serials in `a..b` that are business days, in order.
    pub open spec fn business_between(&self, a: int, b: int) -> Seq<int>
        decreases b - a,
    {
        if b <= a {
            Seq::empty()
        } else if self.business_at(b - 1) {
            self.business_between(a, b - 1).push(b - 1)
        } else {
            self.business_between(a, b - 1)
        }
    }

    /// The serials in `a..b` that are holidays, in order.
    pub open spec fn holidays_between(&self, a: int, b: int) -> Seq<int>
        decreases b - a,
    {
        if b <= a {
            Seq::empty()
        } else if self.holiday_at(b - 1) {
            self.holidays_between(a, b - 1).push(b - 1)
        } else {
            self.holidays_between(a, b - 1)
        }
    }

    /// `true` iff `date` falls on a weekend day.
    pub fn is_weekend(&self, date: Date) -> (r: bool)
        ensures
            r == self.weekend_at(date@),
    {
        self.weekend.contains(date.weekday())
    }

    /// `true` iff some rule names `date` as its natural date.
    fn is_natural_holiday(&self, date: Date) -> (r: bool)
        ensures
            r == self.natural_at(date@),
    {
        let mut i: usize = 0;
        while i < self.rules.len()
            invariant
                i <= self.rules@.len(),
                forall|j: int| 0 <= j < i ==> !#[trigger] self.rules@[j].holds(date@),
            decreases self.rules@.len() - i,
        {
            if self.rules[i].is_holiday(date) {
                return true;
            }
            i = i + 1;
        }
        false
    }

    /// `true` iff some rule moves off weekends.
    fn has_shifts(&self) -> (r: bool)
        ensures
            r == self.shifts_any(),
    {
        let mut i: usize = 0;
        while i < self.rules.len()
            invariant
                i <= self.rules@.len(),
                forall|j: int|
                    0 <= j < i ==> #[trigger] self.rules@[j].shift() == WeekendShift::NoShift,
            decreases self.rules@.len() - i,
        {
            if self.rules[i].weekend_shift().moves_any() {
                return true;
            }
            i = i + 1;
        }
        false
    }

    /// `true` iff `day` is a weekend day carrying a holiday that moves in
    /// direction `step`.
    fn moves(&self, day: Date, step: i32) -> (r: bool)
        ensures
            r == self.moves_at(day@, step as int),
    {
        if !self.is_weekend(day) {
            return false;
        }
        let w = day.weekday();
        let mut i: usize = 0;
        while i < self.rules.len()
            invariant
                i <= self.rules@.len(),
                w.number() == weekday_of(day@),
                self.weekend_at(day@),
                forall|j: int|
                    #![trigger self.rules@[j]]
                    0 <= j < i ==> !(shift_direction(self.rules@[j].shift(), weekday_of(day@))
                        == Some(step as int) && self.rules@[j].holds(day@)),
            decreases self.rules@.len() - i,
        {
            let rule = self.rules[i];
            let dir = rule.weekend_shift().direction(w);
            let same_direction = match dir {
                Some(d) => d == step,
                None => false,
            };
            if same_direction && rule.is_holiday(day) {
                return true;
            }
            i = i + 1;
        }
        false
    }

    /// `true` iff the weekend `offset` days from `date` owes `date` a
    /// substitute in direction `step`.
    fn owed(&self, date: Date, offset: i32, step: i32) -> (r: bool)
        requires
            -7 <= offset <= 7,
            step == 1 || step == -1,
        ensures
            r == self.owed_at(date@, offset as int, step as int),
    {
        let near = match date.add_days(offset) {
            Ok(d) => d,
            Err(_) => return false,
        };
        let mut count: u32 = 0;
        match near.add_days(-step) {
            Ok(before) => {
                if self.moves(before, step) {
                    count = count + 1;
                }
            },
            Err(_) => {},
        }
        if self.moves(near, step) {
            count = count + 1;
        }
        if count == 0 {
            return false;
        }
        let k: i32 = if offset >= 0 {
            offset
        } else {
            -offset
        };
        let mut free: u32 = 0;
        let mut i: i32 = 1;
        while i < k
            invariant
                1 <= i <= if k >= 1 {
                    k
                } else {
                    1
                },
                k <= 7,
                step == 1 || step == -1,
                free <= i,
                free == self.free_count(near@, step as int, i as int),
            decreases k - i,
        {
            let offset_i = if step > 0 {
                i
            } else {
                -i
            };
            match near.add_days(offset_i) {
                Ok(d) => {
                    if !self.is_weekend(d) && !self.is_natural_holiday(d) {
                        free = free + 1;
                    }
                },
                Err(_) => {},
            }
            i = i + 1;
        }
        free < count
    }

    /// `true` iff `date` is a substitute day owed to a weekend holiday.
    fn is_substitute(&self, date: Date) -> (r: bool)
        ensures
            r == self.substitute_at(date@),
    {
        if self.is_weekend(date) || !self.has_shifts() {
            return false;
        }
        let w = date.weekday().get() as i32;
        self.owed(date, -w, 1) || self.owed(date, 6 - w, -1)
    }

    /// `true` iff `date` is a holiday: a rule's natural date, or the
    /// substitute weekday granted to a holiday that fell on a weekend.
    /// Weekends as such are not holidays.
    pub fn is_holiday(&self, date: Date) -> (r: bool)
        ensures
            r == self.holiday_at(date@),
    {
        self.is_natural_holiday(date) || self.is_substitute(date)
    }

    /// `true` iff `date` is neither a weekend day nor a holiday.
    pub fn is_business_day(&self, date: Date) -> (r: bool)
        ensures
            r == self.business_at(date@),
    {
        !self.is_weekend(date) && !self.is_holiday(date)
    }

    /// The business days in `range`, in order.
    pub fn business_days(&self, range: Range<Date>) -> (r: Vec<Date>)
        ensures
            r@.map_values(|d: Date| d@) == self.business_between(range.start@, range.end@),
    {
        let start = range.start.serial();
        let end = range.end.serial();
        let mut out: Vec<Date> = Vec::new();
        let mut cur = start;
        if end <= start {
            proof {
                assert(out@.map_values(|d: Date| d@) =~= Seq::<int>::empty());
            }
            return out;
        }
        while cur < end
            invariant
                start <= cur <= end,
                end <= MAX_SERIAL,
                out@.map_values(|d: Date| d@) == self.business_between(start as int, cur as int),
            decreases end - cur,
        {
            let day = match Date::from_serial(cur) {
                Ok(d) => d,
                Err(_) => return out,
            };
            let ghost before = out@;
            if self.is_business_day(day) {
                out.push(day);
                proof {
                    assert(out@.map_values(|d: Date| d@) =~= before.map_values(|d: Date| d@).push(
                        cur as int,
                    ));
                }
            }
            cur = cur + 1;
        }
        out
    }

    /// The holidays in `range`, in order.
    pub fn holidays(&self, range: Range<Date>) -> (r: Vec<Date>)
        ensures
            r@.map_values(|d: Date| d@) == self.holidays_between(range.start@, range.end@),
    {
        let start = range.start.serial();
        let end = range.end.serial();
        let mut out: Vec<Date> = Vec::new();
        let mut cur = start;
        if end <= start {
            proof {
                assert(out@.map_values(|d: Date| d@) =~= Seq::<int>::empty());
            }
            return out;
        }
        while cur < end
            invariant
                start <= cur <= end,
                end <= MAX_SERIAL,
                out@.map_values(|d: Date| d@) == self.holidays_between(start as int, cur as int),
            decreases end - cur,
        {
            let day = match Date::from_serial(cur) {
                Ok(d) => d,
                Err(_) => return out,
            };
            let ghost before = out@;
            if self.is_holiday(day) {
                out.push(day);
                proof {
                    assert(out@.map_values(|d: Date| d@) =~= before.map_values(|d: Date| d@).push(
                        cur as int,
                    ));
                }
            }
            cur = cur + 1;
        }
        out
    }

    /// The first business day after `date`, or `None` past the supported
    /// range.
    pub fn next_business_day(&self, date: Date) -> (r: Option<Date>)
        ensures
            match self.first_business_from(date@ + 1) {
                Some(t) => r is Some && r->Some_0@ == t,
                None => r is None,
            },
    {
        let mut d = match date.add_days(1) {
            Ok(d) => d,
            Err(_) => return None,
        };
        while !self.is_business_day(d)
            invariant
                self.first_business_from(date@ + 1) == self.first_business_from(d@),
                valid_serial(d@),
            decreases MAX_SERIAL - d@,
        {
            d = match d.add_days(1) {
                Ok(next) => next,
                Err(_) => {
                    proof {
                        assert(self.first_business_from(d@ + 1) is None);
                    }
                    return None;
                },
            };
        }
        Some(d)
    }

    /// The last business day before `date`, or `None` before the supported
    /// range.
    pub fn prev_business_day(&self, date: Date) -> (r: Option<Date>)
        ensures
            match self.last_business_from(date@ - 1) {
                Some(t) => r is Some && r->Some_0@ == t,
                None => r is None,
            },
    {
        let mut d = match date.add_days(-1) {
            Ok(d) => d,
            Err(_) => return None,
        };
        while !self.is_business_day(d)
            invariant
                self.last_business_from(date@ - 1) == self.last_business_from(d@),
                valid_serial(d@),
            decreases d@,
        {
            d = match d.add_days(-1) {
                Ok(prev) => prev,
                Err(_) => {
                    proof {
                        assert(self.last_business_from(d@ - 1) is None);
                    }
                    return None;
                },
            };
        }
        Some(d)
    }

    /// Roll `date` onto a business day under `convention`; fails only when
    /// the search leaves the supported range.
    pub fn adjust(&self, date: Date, convention: BusinessDayConvention) -> (r: Result<
        Date,
        TimeError,
    >)
        ensures
            match self.adjusted_at(date@, convention) {
                Some(t) => r is Ok && r->Ok_0@ == t,
                None => r == Err::<Date, TimeError>(TimeError::DateOutOfRange),
            },
    {
        if self.is_business_day(date) {
            return Ok(date);
        }
        match convention {
            BusinessDayConvention::Unadjusted => Ok(date),
            BusinessDayConvention::Following => match self.next_business_day(date) {
                Some(d) => Ok(d),
                None => Err(TimeError::DateOutOfRange),
            },
            BusinessDayConvention::Preceding => match self.prev_business_day(date) {
                Some(d) => Ok(d),
                None => Err(TimeError::DateOutOfRange),
            },
            BusinessDayConvention::ModifiedFollowing => {
                let candidate = match self.next_business_day(date) {
                    Some(d) => d,
                    None => return Err(TimeError::DateOutOfRange),
                };
                if candidate.month().get() == date.month().get() && candidate.year().get()
                    == date.year().get() {
                    Ok(candidate)
                } else {
                    match self.prev_business_day(date) {
                        Some(d) => Ok(d),
                        None => Err(TimeError::DateOutOfRange),
                    }
                }
            },
            BusinessDayConvention::ModifiedPreceding => {
                let candidate = match self.prev_business_day(date) {
                    Some(d) => d,
                    None => return Err(TimeError::DateOutOfRange),
                };
                if candidate.month().get() == date.month().get() && candidate.year().get()
                    == date.year().get() {
                    Ok(candidate)
                } else {
                    match self.next_business_day(date) {
                        Some(d) => Ok(d),
                        None => Err(TimeError::DateOutOfRange),
                    }
                }
            },
        }
    }

    /// `date` stepped by `period` (see [`Date::advance`]), then rolled
    /// onto a business day under `convention`.
    pub fn advance(
        &self,
        date: Date,
        period: Period,
        convention: BusinessDayConvention,
        end_of_month: bool,
    ) -> (r: Result<Date, TimeError>)
        ensures
            match advanced_serial(date@, period, end_of_month) {
                Some(t) => match self.adjusted_at(t, convention) {
                    Some(u) => r is Ok && r->Ok_0@ == u,
                    None => r == Err::<Date, TimeError>(TimeError::DateOutOfRange),
                },
                None => r == Err::<Date, TimeError>(TimeError::DateOutOfRange),
            },
    {
        let stepped = match date.advance(period, end_of_month) {
            Ok(d) => d,
            Err(e) => return Err(e),
        };
        self.adjust(stepped, convention)
    }

    /// The first business day of `date`'s month, or `None` if the month has
    /// none.
    pub fn first_business_day_of_month(&self, date: Date) -> (r: Option<Date>)
        ensures
            match self.adjusted_at(start_of_month_of(date@), BusinessDayConvention::Following) {
                Some(t) => if ymd_of(t).1 == ymd_of(date@).1 {
                    r is Some && r->Some_0@ == t
                } else {
                    r is None
                },
                None => r is None,
            },
    {
        let (_, month, day) = date.to_ymd();
        let start = match date.add_days(-(day as i32 - 1)) {
            Ok(d) => d,
            Err(_) => return None,
        };
        match self.adjust(start, BusinessDayConvention::Following) {
            Ok(d) => if d.month().get() == month.get() {
                Some(d)
            } else {
                None
            },
            Err(_) => None,
        }
    }

    /// The last business day of `date`'s month, or `None` if the month has
    /// none.
    pub fn last_business_day_of_month(&self, date: Date) -> (r: Option<Date>)
        ensures
            match self.adjusted_at(end_of_month_of(date@), BusinessDayConvention::Preceding) {
                Some(t) => if ymd_of(t).1 == ymd_of(date@).1 {
                    r is Some && r->Some_0@ == t
                } else {
                    r is None
                },
                None => r is None,
            },
    {
        let month = date.month();
        match self.adjust(date.end_of_month(), BusinessDayConvention::Preceding) {
            Ok(d) => if d.month().get() == month.get() {
                Some(d)
            } else {
                None
            },
            Err(_) => None,
        }
    }
}

/// The forward search from `t` finds the first supported business day at
/// or after `t`, and finds none only when there is none.
pub proof fn lemma_first_business_from(cal: &Calendar, t: int)
    ensures
        match cal.first_business_from(t) {
            Some(u) => t <= u <= MAX_SERIAL && 0 <= u && cal.business_at(u) && forall|v: int|
                t <= v < u ==> !#[trigger] cal.business_at(v),
            None => forall|v: int| 0 <= t <= v <= MAX_SERIAL ==> !#[trigger] cal.business_at(v),
        },
    decreases MAX_SERIAL + 1 - t,
{
    if t > MAX_SERIAL || t < 0 {
    } else if cal.business_at(t) {
    } else {
        lemma_first_business_from(cal, t + 1);
    }
}

/// The backward search from `t` finds the last supported business day at
/// or before `t`, and finds none only when there is none.
pub proof fn lemma_last_business_from(cal: &Calendar, t: int)
    ensures
        match cal.last_business_from(t) {
            Some(u) => 0 <= u <= t && u <= MAX_SERIAL && cal.business_at(u) && forall|v: int|
                u < v <= t ==> !#[trigger] cal.business_at(v),
            None => forall|v: int| 0 <= v <= t <= MAX_SERIAL ==> !#[trigger] cal.business_at(v),
        },
    decreases t + 1,
{
    if t < 0 || t > MAX_SERIAL {
    } else if cal.business_at(t) {
    } else {
        lemma_last_business_from(cal, t - 1);
    }
}

/// Every convention leaves a business day where it is.
pub proof fn lemma_adjust_keeps_business_days(
    cal: &Calendar,
    s: int,
    convention: BusinessDayConvention,
)
    requires
        cal.business_at(s),
    ensures
        cal.adjusted_at(s, convention) == Some(s),
{
}

/// Every convention but `Unadjusted` lands on a business day.
pub proof fn lemma_adjust_lands_on_business_day(
    cal: &Calendar,
    s: int,
    convention: BusinessDayConvention,
)
    requires
        convention != BusinessDayConvention::Unadjusted,
        cal.adjusted_at(s, convention) is Some,
    ensures
        cal.business_at(cal.adjusted_at(s, convention)->Some_0),
{
    lemma_first_business_from(cal, s + 1);
    lemma_last_business_from(cal, s - 1);
}

/// Adjusting twice is adjusting once.
pub proof fn lemma_adjust_idempotent(cal: &Calendar, s: int, convention: BusinessDayConvention)
    requires
        cal.adjusted_at(s, convention) is Some,
    ensures
        cal.adjusted_at(cal.adjusted_at(s, convention)->Some_0, convention) == cal.adjusted_at(
            s,
            convention,
        ),
{
    if convention != BusinessDayConvention::Unadjusted {
        lemma_adjust_lands_on_business_day(cal, s, convention);
    }
}

/// `Following` and `Preceding` move to the nearest business day in their
/// direction: no business day lies strictly between the date and the
/// result.
pub proof fn lemma_adjust_nearest(cal: &Calendar, s: int)
    ensures
        cal.adjusted_at(s, BusinessDayConvention::Following) matches Some(t) ==> s <= t && forall|
            v: int,
        | s <= v < t ==> !#[trigger] cal.business_at(v),
        cal.adjusted_at(s, BusinessDayConvention::Preceding) matches Some(t) ==> t <= s && forall|
            v: int,
        | t < v <= s ==> !#[trigger] cal.business_at(v),
{
    lemma_first_business_from(cal, s + 1);
    lemma_last_business_from(cal, s - 1);
}

/// The modified conventions keep the result in the date's month whenever
/// that month holds a business day and the adjustment succeeds.
pub proof fn lemma_modified_stays_in_month(
    cal: &Calendar,
    s: int,
    v: int,
    convention: BusinessDayConvention,
)
    requires
        convention == BusinessDayConvention::ModifiedFollowing || convention
            == BusinessDayConvention::ModifiedPreceding,
        valid_serial(s),
        valid_serial(v),
        same_month(v, s),
        cal.business_at(v),
        cal.adjusted_at(s, convention) is Some,
    ensures
        same_month(cal.adjusted_at(s, convention)->Some_0, s),
{
    lemma_first_business_from(cal, s + 1);
    lemma_last_business_from(cal, s - 1);
    if !cal.business_at(s) {
        let r = cal.adjusted_at(s, convention)->Some_0;
        if v < s {
            if convention == BusinessDayConvention::ModifiedFollowing && !same_month(
                cal.first_business_from(s + 1)->Some_0,
                s,
            ) {
                crate::date::lemma_between_same_month(v, r, s);
            }
            if convention == BusinessDayConvention::ModifiedPreceding {
                let c = cal.last_business_from(s - 1)->Some_0;
                crate::date::lemma_between_same_month(v, c, s);
            }
        } else {
            if convention == BusinessDayConvention::ModifiedPreceding && !same_month(
                cal.last_business_from(s - 1)->Some_0,
                s,
            ) {
                crate::date::lemma_between_same_month(s, r, v);
            }
            if convention == BusinessDayConvention::ModifiedFollowing {
                let c = cal.first_business_from(s + 1)->Some_0;
                crate::date::lemma_between_same_month(s, c, v);
            }
        }
    }
}

/// Advancing without adjustment and without the end-of-month rule is
/// plain period arithmetic.
pub proof fn lemma_advance_unadjusted(cal: &Calendar, s: int, p: Period)
    ensures
        advanced_serial(s, p, false) == shifted_serial(s, p),
        shifted_serial(s, p) matches Some(t) ==> cal.adjusted_at(t, BusinessDayConvention::Unadjusted)
            == Some(t),
{
}

/// A joint calendar, with the rules of both sides and the weekend days of
/// either, names a date when either side does, has a weekend day where
/// either side has one, and so keeps every date that either side names
/// as a holiday.
pub proof fn lemma_union_holidays(a: &Calendar, b: &Calendar, joint: &Calendar, s: int)
    requires
        joint.rules@ == a.rules@ + b.rules@,
        forall|n: int| joint.weekend.has(n) <==> (a.weekend.has(n) || b.weekend.has(n)),
    ensures
        joint.natural_at(s) <==> (a.natural_at(s) || b.natural_at(s)),
        joint.weekend_at(s) <==> (a.weekend_at(s) || b.weekend_at(s)),
        (a.natural_at(s) || b.natural_at(s)) ==> joint.holiday_at(s),
{
    let la = a.rules@.len();
    if a.natural_at(s) {
        let i = choose|i: int| 0 <= i < a.rules@.len() && #[trigger] a.rules@[i].holds(s);
        assert(joint.rules@[i] == a.rules@[i]);
    }
    if b.natural_at(s) {
        let i = choose|i: int| 0 <= i < b.rules@.len() && #[trigger] b.rules@[i].holds(s);
        assert(joint.rules@[la + i] == b.rules@[i]);
    }
    if joint.natural_at(s) {
        let i = choose|i: int| 0 <= i < joint.rules@.len() && #[trigger] joint.rules@[i].holds(s);
        if i < la {
            assert(a.rules@[i] == joint.rules@[i]);
        } else {
            assert(b.rules@[i - la] == joint.rules@[i]);
        }
    }
}

/// A substitute day is never a weekend day, and a holiday that no rule
/// names is a substitute.
pub proof fn lemma_substitutes_are_weekdays(cal: &Calendar, s: int)
    requires
        cal.holiday_at(s),
        !cal.natural_at(s),
    ensures
        cal.substitute_at(s),
        !cal.weekend_at(s),
{
}

/// None of the first `k - 1` days from `near` in direction `step` being
/// free, the free-day count up to them is zero.
proof fn lemma_no_free_days(cal: &Calendar, near: int, step: int, k: int)
    requires
        forall|j: int| 1 <= j < k ==> !#[trigger] cal.free_at(step_from(near, step, j)),
    ensures
        cal.free_count(near, step, k) == 0,
    decreases k,
{
    if k > 1 {
        lemma_no_free_days(cal, near, step, k - 1);
        assert(!cal.free_at(step_from(near, step, k - 1)));
    }
}

/// The direct reading of substitutes, moving forwards: when a Sunday
/// carries a holiday whose rule moves it forwards, the first free weekday
/// of the week after it (a supported weekday that no rule names) is a
/// substitute holiday.
pub proof fn lemma_sunday_holiday_moves_to_first_free_weekday(cal: &Calendar, near: int, k: int)
    requires
        valid_serial(near),
        weekday_of(near) == 7,
        cal.moves_at(near, 1),
        1 <= k <= 6,
        cal.free_at(near + k),
        forall|j: int| 1 <= j < k ==> !#[trigger] cal.free_at(near + j),
    ensures
        cal.substitute_at(near + k),
        cal.holiday_at(near + k),
{
    let s = near + k;
    let p = (near + 1) / 7;
    vstd::arithmetic::div_mod::lemma_fundamental_div_mod_converse(near + 1, 7, p, 6);
    vstd::arithmetic::div_mod::lemma_fundamental_div_mod_converse(s + 1, 7, p + 1, k - 1);
    assert(weekday_of(s) == k);
    assert forall|j: int| 1 <= j < k implies !#[trigger] cal.free_at(step_from(near, 1, j)) by {
        assert(step_from(near, 1, j) == near + j);
    }
    lemma_no_free_days(cal, near, 1, k);
    let i = choose|i: int|
        #![trigger cal.rules@[i]]
        0 <= i < cal.rules@.len() && shift_direction(cal.rules@[i].shift(), weekday_of(near))
            == Some(1int) && cal.rules@[i].holds(near);
    assert(cal.rules@[i].shift() != WeekendShift::NoShift);
    assert(cal.owed_at(s, -k, 1));
}

/// The direct reading of substitutes, moving backwards: when a Saturday
/// carries a holiday whose rule moves it backwards, the first free weekday
/// before it in its week is a substitute holiday.
pub proof fn lemma_saturday_holiday_moves_to_last_free_weekday(cal: &Calendar, near: int, k: int)
    requires
        valid_serial(near),
        weekday_of(near) == 6,
        cal.moves_at(near, -1),
        1 <= k <= 5,
        cal.free_at(near - k),
        forall|j: int| 1 <= j < k ==> !#[trigger] cal.free_at(near - j),
    ensures
        cal.substitute_at(near - k),
        cal.holiday_at(near - k),
{
    let s = near - k;
    let p = (near + 1) / 7;
    vstd::arithmetic::div_mod::lemma_fundamental_div_mod_converse(near + 1, 7, p, 5);
    vstd::arithmetic::div_mod::lemma_fundamental_div_mod_converse(s + 1, 7, p, 5 - k);
    assert(weekday_of(s) == 6 - k);
    assert forall|j: int| 1 <= j < k implies !#[trigger] cal.free_at(step_from(near, -1, j)) by {
        assert(step_from(near, -1, j) == near - j);
    }
    lemma_no_free_days(cal, near, -1, k);
    let i = choose|i: int|
        #![trigger cal.rules@[i]]
        0 <= i < cal.rules@.len() && shift_direction(cal.rules@[i].shift(), weekday_of(near))
            == Some(-1int) && cal.rules@[i].holds(near);
    assert(cal.rules@[i].shift() != WeekendShift::NoShift);
    assert(cal.owed_at(s, k, -1));
}

/// Business days and holidays never overlap, and every supported day is a
/// weekend day, a holiday, or a business day.
pub proof fn lemma_days_partition(cal: &Calendar, s: int)
    ensures
        cal.business_at(s) <==> !cal.weekend_at(s) && !cal.holiday_at(s),
        cal.business_at(s) ==> !cal.holiday_at(s),
{
}

/// Append the characters of `s` to `out`.
fn push_chars(out: &mut Vec<char>, s: &str)
    ensures
        final(out)@ == old(out)@ + s@,
{
    let ghost start = out@;
    let n = s.unicode_len();
    let mut i: usize = 0;
    while i < n
        invariant
            n == s@.len(),
            i <= n,
            out@ == start + s@.subrange(0, i as int),
        decreases n - i,
    {
        out.push(s.get_char(i));
        i = i + 1;
        proof {
            assert(out@ =~= start + s@.subrange(0, i as int));
        }
    }
    proof {
        assert(s@.subrange(0, n as int) =~= s@);
    }
}

/// The text `a + b`, the name of the union of calendars named `a` and `b`.
fn join_names(a: &str, b: &str) -> (r: String)
    ensures
        r@ == a@ + seq![' ', '+', ' '] + b@,
{
    let mut out: Vec<char> = Vec::new();
    push_chars(&mut out, a);
    out.push(' ');
    out.push('+');
    out.push(' ');
    push_chars(&mut out, b);
    proof {
        assert(out@ =~= a@ + seq![' ', '+', ' '] + b@);
    }
    crate::text::string_of(&out)
}

/// A copy of a list of rules.
fn copy_rules(rules: &Vec<Rule>) -> (r: Vec<Rule>)
    ensures
        r@ == rules@,
{
    let mut out: Vec<Rule> = Vec::new();
    let mut i: usize = 0;
    while i < rules.len()
        invariant
            i <= rules@.len(),
            out@ == rules@.subrange(0, i as int),
        decreases rules@.len() - i,
    {
        out.push(rules[i]);
        i = i + 1;
        proof {
            assert(out@ =~= rules@.subrange(0, i as int));
        }
    }
    proof {
        assert(out@ =~= rules@);
    }
    out
}

/// Builds a [`Calendar`] from a name, a weekend and rules, or from an
/// existing calendar extended with more rules.
pub struct CalendarBuilder {
    name: String,
    weekend: Weekend,
    rules: Vec<Rule>,
}

impl CalendarBuilder {
    /// The builder's name, weekend and rules.
    pub closed spec fn contents(&self) -> (Seq<char>, Weekend, Seq<Rule>) {
        (self.name@, self.weekend, self.rules@)
    }

    /// A builder with a name, a weekend, and no rules.
    pub fn new(name: &str, weekend: Weekend) -> (b: CalendarBuilder)
        ensures
            b.contents() == (name@, weekend, Seq::<Rule>::empty()),
    {
        CalendarBuilder { name: name.to_owned(), weekend, rules: Vec::new() }
    }

    /// A builder holding a copy of `cal`.
    pub fn from_calendar(cal: &Calendar) -> (b: CalendarBuilder)
        ensures
            b.contents() == (cal.name@, cal.weekend, cal.rules@),
    {
        CalendarBuilder { name: cal.name.clone(), weekend: cal.weekend, rules: copy_rules(&cal.rules) }
    }

    /// The same builder under another name.
    pub fn name(self, name: &str) -> (b: CalendarBuilder)
        ensures
            b.contents() == (name@, self.contents().1, self.contents().2),
    {
        CalendarBuilder { name: name.to_owned(), ..self }
    }

    /// The same builder with another weekend.
    pub fn with_weekend(self, weekend: Weekend) -> (b: CalendarBuilder)
        ensures
            b.contents() == (self.contents().0, weekend, self.contents().2),
    {
        CalendarBuilder { weekend, ..self }
    }

    /// The same builder with one more rule.
    pub fn with_rule(self, rule: Rule) -> (b: CalendarBuilder)
        ensures
            b.contents() == (self.contents().0, self.contents().1, self.contents().2.push(rule)),
    {
        let mut rules = self.rules;
        rules.push(rule);
        CalendarBuilder { name: self.name, weekend: self.weekend, rules }
    }

    /// The union with `other`: names joined as `"A + B"`, weekend days of
    /// either, and the rules of both, this builder's first.
    pub fn union(self, other: &Calendar) -> (b: CalendarBuilder)
        ensures
            b.contents().0 == self.contents().0 + seq![' ', '+', ' '] + other.name@,
            forall|n: int| b.contents().1.has(n) <==> (self.contents().1.has(n) || other.weekend.has(n)),
            b.contents().2 == self.contents().2 + other.rules@,
    {
        let name = join_names(self.name.as_str(), other.name.as_str());
        let weekend = self.weekend.union(other.weekend);
        let mut rules = self.rules;
        let ghost first = rules@;
        let mut i: usize = 0;
        while i < other.rules.len()
            invariant
                i <= other.rules@.len(),
                rules@ == first + other.rules@.subrange(0, i as int),
            decreases other.rules@.len() - i,
        {
            rules.push(other.rules[i]);
            i = i + 1;
            proof {
                assert(rules@ =~= first + other.rules@.subrange(0, i as int));
            }
        }
        proof {
            assert(other.rules@.subrange(0, other.rules@.len() as int) =~= other.rules@);
        }
        CalendarBuilder { name, weekend, rules }
    }

    /// The calendar built so far.
    pub fn view(&self) -> (cal: Calendar)
        ensures
            cal.name@ == self.contents().0,
            cal.weekend == self.contents().1,
            cal.rules@ == self.contents().2,
    {
        Calendar { name: self.name.clone(), weekend: self.weekend, rules: copy_rules(&self.rules) }
    }
}

} // verus!
