//! [`Schedule`]: a strictly increasing list of coupon dates with its
//! reference dates, and [`ScheduleBuilder`], which generates one from an
//! effective date, a termination date and a tenor.
//!
//! Generation walks the tenor lattice from one end: the seed (a stub date
//! or the anchor) stepped by `i` tenors for `i = 1, 2, ...`, up to the
//! first step that reaches the other end. Reference dates match the coupon
//! dates except at the ends, where a stub's anchor is replaced by its
//! notional lattice boundary.

use vstd::prelude::*;

use crate::business_day::BusinessDayConvention;
use crate::calendar::Calendar;
use crate::date::{advanced_serial, valid_serial, Date};
use crate::error::TimeError;
use crate::period::{with_length_of, Frequency, Period};
use crate::span::Span;

verus! {

// ---- Sequence helpers ---------------------------------------------------

/// The serials of a list of dates.
pub open spec fn serials(v: Seq<Date>) -> Seq<int> {
    v.map_values(|d: Date| d@)
}

/// Pushing a date pushes its serial.
pub proof fn lemma_serials_push(v: Seq<Date>, d: Date)
    ensures
        serials(v.push(d)) == serials(v).push(d@),
{
    assert(serials(v.push(d)) =~= serials(v).push(d@));
}

/// Replacing a date replaces its serial.
pub proof fn lemma_serials_update(v: Seq<Date>, i: int, d: Date)
    requires
        0 <= i < v.len(),
    ensures
        serials(v.update(i, d)) == serials(v).update(i, d@),
{
    assert(serials(v.update(i, d)) =~= serials(v).update(i, d@));
}

/// `true` iff each element is below the next.
pub open spec fn increasing(s: Seq<int>) -> bool {
    forall|i: int| 0 <= i < s.len() - 1 ==> #[trigger] s[i] < s[i + 1]
}

/// `true` iff the two lists agree everywhere but at their ends.
pub open spec fn interior_matches(d: Seq<int>, r: Seq<int>) -> bool {
    forall|i: int| 1 <= i < d.len() - 1 ==> #[trigger] d[i] == r[i]
}

/// The list in reverse order.
pub open spec fn reversed(s: Seq<int>) -> Seq<int> {
    Seq::new(s.len(), |i: int| s[s.len() - 1 - i])
}

/// In an increasing list, order of positions is order of values.
pub proof fn lemma_increasing_ordered(s: Seq<int>, i: int, j: int)
    requires
        increasing(s),
        0 <= i < j < s.len(),
    ensures
        s[i] < s[j],
    decreases j - i,
{
    if i + 1 < j {
        lemma_increasing_ordered(s, i, j - 1);
        assert(s[j - 1] < s[j]);
    } else {
        assert(s[i] < s[i + 1]);
    }
}

/// The outcome of validating a pair of lists as a schedule.
pub open spec fn validation_error(d: Seq<int>, r: Seq<int>) -> Option<TimeError> {
    if !increasing(d) {
        Some(TimeError::ScheduleNotMonotonic)
    } else if r.len() != d.len() || !increasing(r) || !interior_matches(d, r) {
        Some(TimeError::InvalidReferencePeriod)
    } else {
        None
    }
}

/// The first index from `i` on whose date is not below `x`.
pub open spec fn first_at_or_above(s: Seq<int>, x: int, i: int) -> int
    decreases s.len() - i,
{
    if i >= s.len() || s[i] >= x {
        i
    } else {
        first_at_or_above(s, x, i + 1)
    }
}

/// The first index from `i` on whose date is above `x`.
pub open spec fn first_above(s: Seq<int>, x: int, i: int) -> int
    decreases s.len() - i,
{
    if i >= s.len() || s[i] > x {
        i
    } else {
        first_above(s, x, i + 1)
    }
}

// ---- Generation rules ---------------------------------------------------

/// How a schedule's dates are generated.
#[derive(Debug, Clone, Copy, PartialEq, Eq, Hash, Structural)]
pub enum DateGenerationRule {
    /// Walk forward from the effective date; a stub, if any, at the back.
    Forward,
    /// Walk backward from the termination date; a stub, if any, at the
    /// front.
    Backward,
    /// No intermediate dates: the schedule is effective and termination.
    Zero,
}

/// The lattice a generated schedule was built on.
#[derive(Debug, Clone, Copy, PartialEq, Eq, Structural)]
pub struct Generation {
    /// The step between regular coupon dates.
    pub tenor: Period,
    /// Whether end-of-month seeds stay on month ends.
    pub end_of_month: bool,
}

/// Which way a walk goes.
#[derive(Debug, Clone, Copy, PartialEq, Eq, Structural)]
pub enum Direction {
    /// Towards later dates.
    Forward,
    /// Towards earlier dates.
    Backward,
}

/// The serial `i` steps of `step` from `seed`, snapping to month ends when
/// `end_of_month` is set, the seed is a month end and the step counts months
/// or years; `None` when the scaled step overflows or leaves the range.
pub open spec fn step_serial(seed: int, step: Period, end_of_month: bool, i: int) -> Option<int> {
    if i32::MIN <= step.len() * i <= i32::MAX {
        advanced_serial(seed, with_length_of(step, (step.len() * i) as i32), end_of_month)
    } else {
        None
    }
}

/// `true` iff candidate `c` has reached `stop` walking in `direction`.
pub open spec fn past_stop(c: int, stop: int, direction: Direction) -> bool {
    match direction {
        Direction::Forward => c >= stop,
        Direction::Backward => c <= stop,
    }
}

/// The walk from step `i` on: the candidates before the first one that
/// reaches `stop`, and that one; `None` when a step leaves the range
/// first.
pub open spec fn walk_from(
    seed: int,
    step: Period,
    end_of_month: bool,
    stop: int,
    direction: Direction,
    i: int,
) -> Option<(Seq<int>, int)>
    decreases i32::MAX - i,
{
    if i >= i32::MAX || i < 1 {
        None
    } else {
        match step_serial(seed, step, end_of_month, i) {
            None => None,
            Some(c) => if past_stop(c, stop, direction) {
                Some((Seq::empty(), c))
            } else {
                match walk_from(seed, step, end_of_month, stop, direction, i + 1) {
                    None => None,
                    Some(rest) => Some((seq![c] + rest.0, rest.1)),
                }
            },
        }
    }
}

/// A step of `i32::MAX` tenors always leaves the supported range.
proof fn lemma_step_at_max(seed: int, step: Period, end_of_month: bool)
    requires
        valid_serial(seed),
        step.len() != 0,
    ensures
        step_serial(seed, step, end_of_month, i32::MAX as int) is None,
{
    let n = step.len() * i32::MAX;
    if i32::MIN <= n <= i32::MAX {
        assert(step.len() == 1 || step.len() == -1) by (nonlinear_arith)
            requires
                i32::MIN <= step.len() * i32::MAX <= i32::MAX,
                step.len() != 0,
        ;
        crate::date::lemma_ymd_of(seed);
    }
}

// ---- Stepper ------------------------------------------------------------

/// Steps a seed date along a tenor lattice.
#[derive(Debug, Clone, Copy)]
pub struct Stepper {
    seed: Date,
    step: Period,
    end_of_month: bool,
}

impl View for Stepper {
    type V = (int, Period, bool);

    closed spec fn view(&self) -> (int, Period, bool) {
        (self.seed@, self.step, self.end_of_month)
    }
}

impl Stepper {
    /// A stepper from `seed` by `step`.
    pub fn new(seed: Date, step: Period, end_of_month: bool) -> (r: Stepper)
        ensures
            r@ == (seed@, step, end_of_month),
    {
        Stepper { seed, step, end_of_month }
    }

    /// The seed `i` steps on.
    pub fn step(&self, i: i32) -> (r: Result<Date, TimeError>)
        ensures
            match step_serial(self@.0, self@.1, self@.2, i as int) {
                Some(t) => r is Ok && r->Ok_0@ == t,
                None => r == Err::<Date, TimeError>(TimeError::DateOutOfRange),
            },
    {
        let scaled = match self.step.checked_mul(i) {
            Some(p) => p,
            None => return Err(TimeError::DateOutOfRange),
        };
        self.seed.advance(scaled, self.end_of_month)
    }
}

// ---- Walk ---------------------------------------------------------------

/// A walk along a stepper's lattice towards a stop date.
#[derive(Debug, Clone, Copy)]
pub struct Walk {
    stepper: Stepper,
    stop: Date,
    direction: Direction,
    i: i32,
}

impl Walk {
    /// A walk that starts at the first step.
    pub fn new(stepper: &Stepper, stop: Date, direction: Direction) -> (r: Walk)
        ensures
            r.stepper_view() == stepper@,
            r.stop_serial() == stop@,
            r.direction_of() == direction,
            r.index() == 1,
    {
        Walk { stepper: *stepper, stop, direction, i: 1 }
    }

    /// The stepper's seed, step and flag.
    pub closed spec fn stepper_view(&self) -> (int, Period, bool) {
        self.stepper@
    }

    /// The stop date's serial.
    pub closed spec fn stop_serial(&self) -> int {
        self.stop@
    }

    /// The walk's direction.
    pub closed spec fn direction_of(&self) -> Direction {
        self.direction
    }

    /// The next step index.
    pub closed spec fn index(&self) -> int {
        self.i as int
    }

    /// The next step index.
    pub fn step_index(&self) -> (r: i32)
        ensures
            r == self.index(),
    {
        self.i
    }

    /// `true` iff `candidate` has reached the stop date.
    fn past_stop(&self, candidate: Date) -> (r: bool)
        ensures
            r == past_stop(candidate@, self.stop@, self.direction),
    {
        match self.direction {
            Direction::Forward => candidate.serial() >= self.stop.serial(),
            Direction::Backward => candidate.serial() <= self.stop.serial(),
        }
    }

    /// Walk to the stop: the dates strictly before it. The index is left
    /// on the step that reached the stop.
    pub fn dates(&mut self) -> (r: Result<Vec<Date>, TimeError>)
        requires
            old(self).index() >= 1,
            old(self).stepper_view().1.len() != 0,
        ensures
            final(self).stepper_view() == old(self).stepper_view(),
            final(self).stop_serial() == old(self).stop_serial(),
            final(self).direction_of() == old(self).direction_of(),
            match walk_from(
                old(self).stepper_view().0,
                old(self).stepper_view().1,
                old(self).stepper_view().2,
                old(self).stop_serial(),
                old(self).direction_of(),
                old(self).index(),
            ) {
                Some(w) => r is Ok && serials(r->Ok_0@) == w.0 && step_serial(
                    old(self).stepper_view().0,
                    old(self).stepper_view().1,
                    old(self).stepper_view().2,
                    final(self).index(),
                ) == Some(w.1) && 1 <= final(self).index(),
                None => r == Err::<Vec<Date>, TimeError>(TimeError::DateOutOfRange),
            },
    {
        let ghost seed = self.stepper@.0;
        let ghost step = self.stepper@.1;
        let ghost eom = self.stepper@.2;
        let ghost stop = self.stop@;
        let ghost dir = self.direction;
        let ghost start = self.i as int;
        let mut out: Vec<Date> = Vec::new();
        self.stepper.seed.serial_in_range();
        proof {
            assert(serials(out@) =~= Seq::<int>::empty());
        }
        loop
            invariant
                (seed, step, eom) == old(self).stepper_view(),
                stop == old(self).stop_serial(),
                dir == old(self).direction_of(),
                start == old(self).index(),
                self.stepper@ == (seed, step, eom),
                self.stop@ == stop,
                self.direction == dir,
                1 <= self.i,
                step.len() != 0,
                valid_serial(seed),
                walk_from(seed, step, eom, stop, dir, start) == match walk_from(
                    seed,
                    step,
                    eom,
                    stop,
                    dir,
                    self.i as int,
                ) {
                    Some(w) => Some((serials(out@) + w.0, w.1)),
                    None => None::<(Seq<int>, int)>,
                },
            decreases i32::MAX - self.i,
        {
            let candidate = match self.stepper.step(self.i) {
                Ok(d) => d,
                Err(e) => {
                    proof {
                        if self.i as int >= i32::MAX {
                        }
                    }
                    return Err(e);
                },
            };
            proof {
                lemma_step_at_max(seed, step, eom);
                assert(self.i < i32::MAX);
            }
            if self.past_stop(candidate) {
                proof {
                    assert(serials(out@) + Seq::<int>::empty() =~= serials(out@));
                }
                return Ok(out);
            }
            let ghost before = out@;
            out.push(candidate);
            proof {
                assert(serials(out@) =~= serials(before) + seq![candidate@]);
                match walk_from(seed, step, eom, stop, dir, self.i as int + 1) {
                    Some(w) => {
                        assert(serials(before) + (seq![candidate@] + w.0) =~= serials(out@) + w.0);
                    },
                    None => {},
                }
            }
            self.i = self.i + 1;
        }
    }
}

// ---- Schedule -----------------------------------------------------------

/// A strictly increasing list of coupon dates with a parallel list of
/// reference dates, which differ from the coupon dates only at the ends
/// (a stub's notional boundary).
#[derive(Debug, PartialEq, Eq)]
pub struct Schedule {
    dates: Vec<Date>,
    reference_dates: Vec<Date>,
    generation: Option<Generation>,
}

impl Schedule {
    #[verifier::type_invariant]
    spec fn well_formed(self) -> bool {
        validation_error(serials(self.dates@), serials(self.reference_dates@)) is None
    }

    /// The coupon dates' serials.
    pub closed spec fn date_serials(&self) -> Seq<int> {
        serials(self.dates@)
    }

    /// The reference dates' serials.
    pub closed spec fn reference_serials(&self) -> Seq<int> {
        serials(self.reference_dates@)
    }

    /// The lattice the schedule was generated on, if it was generated.
    pub closed spec fn generation_of(&self) -> Option<Generation> {
        self.generation
    }

    /// The invariant every schedule keeps: strictly increasing dates and
    /// reference dates, of one length, agreeing but at the ends.
    pub fn well_formedness(&self)
        ensures
            validation_error(self.date_serials(), self.reference_serials()) is None,
    {
        proof {
            use_type_invariant(self);
        }
    }

    /// A schedule from coupon dates and reference dates, refused unless the
    /// dates strictly increase (`ScheduleNotMonotonic`) and the reference
    /// dates have the same length, strictly increase and match the dates
    /// but at the ends (`InvalidReferencePeriod`).
    pub fn try_from_lists(dates: Vec<Date>, reference_dates: Vec<Date>) -> (r: Result<
        Schedule,
        TimeError,
    >)
        ensures
            match validation_error(serials(dates@), serials(reference_dates@)) {
                Some(e) => r == Err::<Schedule, TimeError>(e),
                None => r is Ok && r->Ok_0.date_serials() == serials(dates@)
                    && r->Ok_0.reference_serials() == serials(reference_dates@)
                    && r->Ok_0.generation_of() is None,
            },
            r == Schedule::from_lists(dates, reference_dates),
    {
        if !dates_increase(&dates) {
            return Err(TimeError::ScheduleNotMonotonic);
        }
        if reference_dates.len() != dates.len() || !dates_increase(&reference_dates)
            || !interior_agrees(&dates, &reference_dates) {
            return Err(TimeError::InvalidReferencePeriod);
        }
        Ok(Schedule { dates, reference_dates, generation: None })
    }

    /// A schedule whose reference dates are its coupon dates.
    pub fn try_from_dates(dates: Vec<Date>) -> (r: Result<Schedule, TimeError>)
        ensures
            match validation_error(serials(dates@), serials(dates@)) {
                Some(e) => r == Err::<Schedule, TimeError>(e),
                None => r is Ok && r->Ok_0.date_serials() == serials(dates@)
                    && r->Ok_0.reference_serials() == serials(dates@)
                    && r->Ok_0.generation_of() is None,
            },
    {
        let mut refs: Vec<Date> = Vec::new();
        let mut j: usize = 0;
        while j < dates.len()
            invariant
                j <= dates@.len(),
                refs@ == dates@.subrange(0, j as int),
            decreases dates@.len() - j,
        {
            refs.push(dates[j]);
            j = j + 1;
            proof {
                assert(refs@ =~= dates@.subrange(0, j as int));
            }
        }
        proof {
            assert(refs@ =~= dates@);
        }
        Schedule::try_from_lists(dates, refs)
    }

    /// The coupon dates.
    pub fn dates(&self) -> (r: &[Date])
        ensures
            serials(r@) == self.date_serials(),
    {
        self.dates.as_slice()
    }

    /// The reference dates.
    pub fn reference_dates(&self) -> (r: &[Date])
        ensures
            serials(r@) == self.reference_serials(),
    {
        self.reference_dates.as_slice()
    }

    /// The lattice the schedule was generated on, if any.
    pub fn generation(&self) -> (r: Option<Generation>)
        ensures
            r == self.generation_of(),
    {
        self.generation
    }

    /// Number of coupon dates.
    pub fn len(&self) -> (r: usize)
        ensures
            r == self.date_serials().len(),
    {
        self.dates.len()
    }

    /// `true` iff the schedule has no dates.
    pub fn is_empty(&self) -> (r: bool)
        ensures
            r == (self.date_serials().len() == 0),
    {
        self.dates.len() == 0
    }

    /// The accrual periods: each pair of adjacent coupon dates.
    pub fn periods(&self) -> (r: Vec<Span>)
        ensures
            r@.len() == if self.date_serials().len() == 0 {
                0
            } else {
                self.date_serials().len() - 1
            },
            forall|i: int|
                0 <= i < r@.len() ==> (#[trigger] r@[i]).start@ == self.date_serials()[i]
                    && r@[i].end@ == self.date_serials()[i + 1],
    {
        let mut out: Vec<Span> = Vec::new();
        let mut i: usize = 1;
        let n = self.dates.len();
        if n == 0 {
            return out;
        }
        while i < n
            invariant
                1 <= i <= n,
                n == self.dates@.len(),
                out@.len() == i - 1,
                forall|j: int|
                    0 <= j < out@.len() ==> (#[trigger] out@[j]).start@ == self.dates@[j]@
                        && out@[j].end@ == self.dates@[j + 1]@,
            decreases n - i,
        {
            out.push(Span { start: self.dates[i - 1], end: self.dates[i] });
            i = i + 1;
        }
        out
    }

    /// The index of the first date not before `x`.
    fn index_at_or_above(&self, x: Date) -> (r: usize)
        ensures
            r == first_at_or_above(self.date_serials(), x@, 0),
            r <= self.date_serials().len(),
    {
        let mut i: usize = 0;
        while i < self.dates.len() && self.dates[i].serial() < x.serial()
            invariant
                i <= self.dates@.len(),
                first_at_or_above(self.date_serials(), x@, 0) == first_at_or_above(
                    self.date_serials(),
                    x@,
                    i as int,
                ),
            decreases self.dates@.len() - i,
        {
            i = i + 1;
        }
        i
    }

    /// The index of the first date after `x`.
    fn index_above(&self, x: Date) -> (r: usize)
        ensures
            r == first_above(self.date_serials(), x@, 0),
            r <= self.date_serials().len(),
    {
        let mut i: usize = 0;
        while i < self.dates.len() && self.dates[i].serial() <= x.serial()
            invariant
                i <= self.dates@.len(),
                first_above(self.date_serials(), x@, 0) == first_above(
                    self.date_serials(),
                    x@,
                    i as int,
                ),
            decreases self.dates@.len() - i,
        {
            i = i + 1;
        }
        i
    }

    /// The last coupon date strictly before `ref_date`.
    pub fn previous_date(&self, ref_date: Date) -> (r: Option<Date>)
        ensures
            ({
                let k = first_at_or_above(self.date_serials(), ref_date@, 0);
                if k == 0 {
                    r is None
                } else {
                    r is Some && r->Some_0@ == self.date_serials()[k - 1]
                }
            }),
    {
        let idx = self.index_at_or_above(ref_date);
        if idx == 0 {
            None
        } else {
            Some(self.dates[idx - 1])
        }
    }

    /// The first coupon date strictly after `ref_date`.
    pub fn next_date(&self, ref_date: Date) -> (r: Option<Date>)
        ensures
            ({
                let k = first_above(self.date_serials(), ref_date@, 0);
                if k >= self.date_serials().len() {
                    r is None
                } else {
                    r is Some && r->Some_0@ == self.date_serials()[k]
                }
            }),
    {
        let idx = self.index_above(ref_date);
        if idx < self.dates.len() {
            Some(self.dates[idx])
        } else {
            None
        }
    }

    /// The first coupon date on or after `ref_date`.
    pub fn lower_bound(&self, ref_date: Date) -> (r: Option<Date>)
        ensures
            ({
                let k = first_at_or_above(self.date_serials(), ref_date@, 0);
                if k >= self.date_serials().len() {
                    r is None
                } else {
                    r is Some && r->Some_0@ == self.date_serials()[k]
                }
            }),
    {
        let idx = self.index_at_or_above(ref_date);
        if idx < self.dates.len() {
            Some(self.dates[idx])
        } else {
            None
        }
    }

    /// The schedule from the first date on or after `cutoff`.
    pub fn after(&self, cutoff: Date) -> (r: Schedule)
        ensures
            ({
                let k = first_at_or_above(self.date_serials(), cutoff@, 0);
                &&& r.date_serials() == self.date_serials().subrange(k, self.date_serials().len() as int)
                &&& r.reference_serials() == self.reference_serials().subrange(
                    k,
                    self.reference_serials().len() as int,
                )
                &&& r.generation_of() == self.generation_of()
            }),
    {
        proof {
            use_type_invariant(self);
        }
        let idx = self.index_at_or_above(cutoff);
        let dates = copy_range(&self.dates, idx, self.dates.len());
        let refs = copy_range(&self.reference_dates, idx, self.reference_dates.len());
        proof {
            let d = serials(self.dates@);
            let rs = serials(self.reference_dates@);
            assert(serials(dates@) =~= d.subrange(idx as int, d.len() as int));
            assert(serials(refs@) =~= rs.subrange(idx as int, rs.len() as int));
            assert(increasing(serials(dates@)));
            assert(increasing(serials(refs@)));
            assert(interior_matches(serials(dates@), serials(refs@)));
        }
        Schedule { dates, reference_dates: refs, generation: self.generation }
    }

    /// The schedule up to the last date on or before `cutoff`.
    pub fn until(&self, cutoff: Date) -> (r: Schedule)
        ensures
            ({
                let k = first_above(self.date_serials(), cutoff@, 0);
                &&& r.date_serials() == self.date_serials().subrange(0, k)
                &&& r.reference_serials() == self.reference_serials().subrange(0, k)
                &&& r.generation_of() == self.generation_of()
            }),
    {
        proof {
            use_type_invariant(self);
        }
        let idx = self.index_above(cutoff);
        let dates = copy_range(&self.dates, 0, idx);
        let refs = copy_range(&self.reference_dates, 0, idx);
        proof {
            let d = serials(self.dates@);
            let rs = serials(self.reference_dates@);
            assert(serials(dates@) =~= d.subrange(0, idx as int));
            assert(serials(refs@) =~= rs.subrange(0, idx as int));
            assert(increasing(serials(dates@)));
            assert(increasing(serials(refs@)));
            assert(interior_matches(serials(dates@), serials(refs@)));
        }
        Schedule { dates, reference_dates: refs, generation: self.generation }
    }

    /// The same schedule, recorded as generated on `generation`.
    fn with_generation(self, generation: Option<Generation>) -> (r: Schedule)
        ensures
            r.date_serials() == self.date_serials(),
            r.reference_serials() == self.reference_serials(),
            r.generation_of() == generation,
    {
        proof {
            use_type_invariant(&self);
        }
        Schedule { dates: self.dates, reference_dates: self.reference_dates, generation }
    }
}

/// `true` iff the dates strictly increase.
fn dates_increase(v: &Vec<Date>) -> (r: bool)
    ensures
        r == increasing(serials(v@)),
{
    let n = v.len();
    if n == 0 {
        return true;
    }
    let mut i: usize = 1;
    while i < n
        invariant
            1 <= i <= n,
            n == v@.len(),
            forall|j: int| 0 <= j < i - 1 ==> #[trigger] v@[j]@ < v@[j + 1]@,
        decreases n - i,
    {
        if v[i - 1].serial() >= v[i].serial() {
            proof {
                let s = serials(v@);
                assert(s[i - 1] == v@[i - 1]@ && s[(i - 1) + 1] == v@[i as int]@);
            }
            return false;
        }
        i = i + 1;
    }
    proof {
        let s = serials(v@);
        assert forall|j: int| 0 <= j < s.len() - 1 implies #[trigger] s[j] < s[j + 1] by {
            assert(v@[j]@ < v@[j + 1]@);
        }
    }
    true
}

/// `true` iff the lists agree at every position but the first and last.
fn interior_agrees(d: &Vec<Date>, r: &Vec<Date>) -> (b: bool)
    requires
        d@.len() == r@.len(),
    ensures
        b == interior_matches(serials(d@), serials(r@)),
{
    let n = d.len();
    if n < 2 {
        return true;
    }
    let mut i: usize = 1;
    while i < n - 1
        invariant
            1 <= i <= n - 1,
            n == d@.len(),
            n == r@.len(),
            forall|j: int| 1 <= j < i ==> #[trigger] d@[j]@ == r@[j]@,
        decreases n - i,
    {
        if d[i].serial() != r[i].serial() {
            proof {
                assert(serials(d@)[i as int] != serials(r@)[i as int]);
            }
            return false;
        }
        i = i + 1;
    }
    proof {
        assert forall|j: int| 1 <= j < serials(d@).len() - 1 implies #[trigger] serials(d@)[j]
            == serials(r@)[j] by {
            assert(d@[j]@ == r@[j]@);
        }
    }
    true
}

/// The dates at positions `lo..hi`.
fn copy_range(v: &Vec<Date>, lo: usize, hi: usize) -> (r: Vec<Date>)
    requires
        lo <= hi <= v@.len(),
    ensures
        r@ == v@.subrange(lo as int, hi as int),
{
    let mut out: Vec<Date> = Vec::new();
    let mut j: usize = lo;
    while j < hi
        invariant
            lo <= j <= hi,
            hi <= v@.len(),
            out@ == v@.subrange(lo as int, j as int),
        decreases hi - j,
    {
        out.push(v[j]);
        j = j + 1;
        proof {
            assert(out@ =~= v@.subrange(lo as int, j as int));
        }
    }
    out
}

impl Clone for Schedule {
    fn clone(&self) -> (r: Schedule)
        ensures
            r.date_serials() == self.date_serials(),
            r.reference_serials() == self.reference_serials(),
            r.generation_of() == self.generation_of(),
    {
        proof {
            use_type_invariant(self);
        }
        let dates = copy_range(&self.dates, 0, self.dates.len());
        let refs = copy_range(&self.reference_dates, 0, self.reference_dates.len());
        proof {
            assert(dates@ =~= self.dates@);
            assert(refs@ =~= self.reference_dates@);
        }
        Schedule { dates, reference_dates: refs, generation: self.generation }
    }
}

impl Schedule {
    /// The schedule a valid pair of lists makes.
    pub closed spec fn from_lists(dates: Vec<Date>, reference_dates: Vec<Date>) -> Result<
        Schedule,
        TimeError,
    > {
        match validation_error(serials(dates@), serials(reference_dates@)) {
            Some(e) => Err(e),
            None => Ok(Schedule { dates, reference_dates, generation: None }),
        }
    }

    /// The schedule's coupon dates.
    pub closed spec fn date_vec(self) -> Vec<Date> {
        self.dates
    }

    /// The schedule's reference dates.
    pub closed spec fn reference_vec(self) -> Vec<Date> {
        self.reference_dates
    }
}

impl vstd::std_specs::convert::TryFromSpecImpl<(Vec<Date>, Vec<Date>)> for Schedule {
    open spec fn obeys_try_from_spec() -> bool {
        true
    }

    open spec fn try_from_spec(lists: (Vec<Date>, Vec<Date>)) -> Result<Schedule, TimeError> {
        Schedule::from_lists(lists.0, lists.1)
    }
}

impl vstd::std_specs::convert::TryFromSpecImpl<Vec<Date>> for Schedule {
    open spec fn obeys_try_from_spec() -> bool {
        false
    }

    open spec fn try_from_spec(dates: Vec<Date>) -> Result<Schedule, TimeError> {
        Schedule::from_lists(dates, dates)
    }
}

impl vstd::std_specs::convert::FromSpecImpl<Schedule> for Vec<Date> {
    open spec fn obeys_from_spec() -> bool {
        true
    }

    open spec fn from_spec(s: Schedule) -> Vec<Date> {
        s.date_vec()
    }
}

impl vstd::std_specs::convert::FromSpecImpl<Schedule> for (Vec<Date>, Vec<Date>) {
    open spec fn obeys_from_spec() -> bool {
        true
    }

    open spec fn from_spec(s: Schedule) -> (Vec<Date>, Vec<Date>) {
        (s.date_vec(), s.reference_vec())
    }
}

impl TryFrom<Vec<Date>> for Schedule {
    type Error = TimeError;

    /// A schedule whose reference dates are its coupon dates; see
    /// [`Schedule::try_from_dates`].
    fn try_from(dates: Vec<Date>) -> (r: Result<Schedule, TimeError>)
        ensures
            match validation_error(serials(dates@), serials(dates@)) {
                Some(e) => r == Err::<Schedule, TimeError>(e),
                None => r is Ok && r->Ok_0.date_serials() == serials(dates@)
                    && r->Ok_0.reference_serials() == serials(dates@)
                    && r->Ok_0.generation_of() is None,
            },
    {
        Schedule::try_from_dates(dates)
    }
}

impl TryFrom<(Vec<Date>, Vec<Date>)> for Schedule {
    type Error = TimeError;

    fn try_from(lists: (Vec<Date>, Vec<Date>)) -> (r: Result<Schedule, TimeError>) {
        let (dates, reference_dates) = lists;
        Schedule::try_from_lists(dates, reference_dates)
    }
}

impl From<Schedule> for Vec<Date> {
    fn from(s: Schedule) -> (r: Vec<Date>) {
        s.dates
    }
}

impl From<Schedule> for (Vec<Date>, Vec<Date>) {
    fn from(s: Schedule) -> (r: (Vec<Date>, Vec<Date>)) {
        (s.dates, s.reference_dates)
    }
}

impl core::ops::Deref for Schedule {
    type Target = [Date];

    /// The coupon dates, as a slice.
    fn deref(&self) -> (r: &[Date])
        ensures
            serials(r@) == self.date_serials(),
    {
        self.dates.as_slice()
    }
}

// ---- Builder ------------------------------------------------------------

/// The error, if any, that a builder's inputs are refused with.
pub open spec fn input_error(
    effective: int,
    termination: int,
    tenor: Period,
    rule: DateGenerationRule,
    first_date: Option<int>,
    next_to_last: Option<int>,
) -> Option<TimeError> {
    if effective >= termination {
        Some(TimeError::EffectiveAfterTermination)
    } else if rule != DateGenerationRule::Zero && tenor.len() == 0 {
        Some(TimeError::ZeroTenor)
    } else if first_date matches Some(fd) && (fd <= effective || fd >= termination) {
        Some(TimeError::StubDateOutOfRange)
    } else if next_to_last matches Some(nld) && (nld <= effective || nld >= termination) {
        Some(TimeError::StubDateOutOfRange)
    } else if first_date matches Some(fd) && next_to_last matches Some(nld) && fd >= nld {
        Some(TimeError::StubDateOutOfRange)
    } else {
        None
    }
}

/// Builds a [`Schedule`] from an effective date, a termination date, a
/// tenor and a calendar. By default: modified-following interior dates,
/// an unadjusted termination date, backward generation, no end-of-month
/// rule and no stubs.
pub struct ScheduleBuilder {
    effective: Date,
    termination: Date,
    tenor: Period,
    calendar: Calendar,
    convention: BusinessDayConvention,
    termination_convention: BusinessDayConvention,
    rule: DateGenerationRule,
    end_of_month: bool,
    first_date: Option<Date>,
    next_to_last_date: Option<Date>,
}

impl ScheduleBuilder {
    /// The effective date's serial.
    pub closed spec fn effective_serial(&self) -> int {
        self.effective@
    }

    /// The termination date's serial.
    pub closed spec fn termination_serial(&self) -> int {
        self.termination@
    }

    /// The tenor.
    pub closed spec fn tenor_of(&self) -> Period {
        self.tenor
    }

    /// The calendar.
    pub closed spec fn calendar_of(&self) -> &Calendar {
        &self.calendar
    }

    /// The convention for every date but the last.
    pub closed spec fn convention_of(&self) -> BusinessDayConvention {
        self.convention
    }

    /// The convention for the last date.
    pub closed spec fn termination_convention_of(&self) -> BusinessDayConvention {
        self.termination_convention
    }

    /// The generation rule.
    pub closed spec fn rule_of(&self) -> DateGenerationRule {
        self.rule
    }

    /// The end-of-month flag.
    pub closed spec fn end_of_month_of(&self) -> bool {
        self.end_of_month
    }

    /// The first stub date's serial, if any.
    pub closed spec fn first_date_of(&self) -> Option<int> {
        opt_serial(self.first_date)
    }

    /// The next-to-last date's serial, if any.
    pub closed spec fn next_to_last_of(&self) -> Option<int> {
        opt_serial(self.next_to_last_date)
    }

    /// The error the builder's inputs are refused with, if any.
    pub open spec fn refusal(&self) -> Option<TimeError> {
        input_error(
            self.effective_serial(),
            self.termination_serial(),
            self.tenor_of(),
            self.rule_of(),
            self.first_date_of(),
            self.next_to_last_of(),
        )
    }

    /// The unadjusted lists the builder generates.
    pub open spec fn raw_lists(&self) -> Option<(Seq<int>, Seq<int>)> {
        match self.rule_of() {
            DateGenerationRule::Zero => Some(
                (
                    seq![self.effective_serial(), self.termination_serial()],
                    seq![self.effective_serial(), self.termination_serial()],
                ),
            ),
            DateGenerationRule::Forward => generated(
                self.effective_serial(),
                self.first_date_of(),
                self.termination_serial(),
                self.next_to_last_of(),
                self.tenor_of(),
                Direction::Forward,
                self.end_of_month_of(),
            ),
            DateGenerationRule::Backward => if self.tenor_of().len() == i32::MIN {
                None
            } else {
                generated(
                    self.termination_serial(),
                    self.next_to_last_of(),
                    self.effective_serial(),
                    self.first_date_of(),
                    with_length_of(self.tenor_of(), (-self.tenor_of().len()) as i32),
                    Direction::Backward,
                    self.end_of_month_of(),
                )
            },
        }
    }

    /// The lattice a built schedule records.
    pub open spec fn generation_spec(&self) -> Option<Generation> {
        if self.rule_of() == DateGenerationRule::Zero {
            None
        } else {
            Some(Generation { tenor: self.tenor_of(), end_of_month: self.end_of_month_of() })
        }
    }

    /// The coupon dates, reference dates and lattice the builder produces,
    /// or the error it is refused with.
    pub open spec fn outcome(&self) -> Result<(Seq<int>, Seq<int>, Option<Generation>), TimeError> {
        match self.refusal() {
            Some(e) => Err(e),
            None => match self.raw_lists() {
                None => Err(TimeError::DateOutOfRange),
                Some(lists) => match (
                    adjusted_all(
                        self.calendar_of(),
                        lists.0,
                        self.convention_of(),
                        self.termination_convention_of(),
                    ),
                    adjusted_all(
                        self.calendar_of(),
                        lists.1,
                        self.convention_of(),
                        self.termination_convention_of(),
                    ),
                ) {
                    (Some(d), Some(r)) => match validation_error(d, r) {
                        Some(e) => Err(e),
                        None => Ok((d, r, self.generation_spec())),
                    },
                    _ => Err(TimeError::DateOutOfRange),
                },
            },
        }
    }

    /// A builder with the default conventions.
    pub fn new(effective: Date, termination: Date, tenor: Period, calendar: Calendar) -> (b:
        ScheduleBuilder)
        ensures
            b.effective_serial() == effective@,
            b.termination_serial() == termination@,
            b.tenor_of() == tenor,
            b.calendar_of() == calendar,
            b.convention_of() == BusinessDayConvention::ModifiedFollowing,
            b.termination_convention_of() == BusinessDayConvention::Unadjusted,
            b.rule_of() == DateGenerationRule::Backward,
            !b.end_of_month_of(),
            b.first_date_of() is None,
            b.next_to_last_of() is None,
    {
        ScheduleBuilder {
            effective,
            termination,
            tenor,
            calendar,
            convention: BusinessDayConvention::ModifiedFollowing,
            termination_convention: BusinessDayConvention::Unadjusted,
            rule: DateGenerationRule::Backward,
            end_of_month: false,
            first_date: None,
            next_to_last_date: None,
        }
    }

    /// The same builder with the tenor of `frequency`.
    pub fn with_frequency(self, frequency: Frequency) -> (b: ScheduleBuilder)
        ensures
            b.tenor_of() == frequency.period(),
            b.same_but_tenor(&self),
    {
        ScheduleBuilder { tenor: Period::from_frequency(frequency), ..self }
    }

    /// The same builder with interior convention `convention`.
    pub fn with_convention(self, convention: BusinessDayConvention) -> (b: ScheduleBuilder)
        ensures
            b.convention_of() == convention,
            b.same_but_convention(&self),
    {
        ScheduleBuilder { convention, ..self }
    }

    /// The same builder with termination convention `convention`.
    pub fn with_termination_convention(self, convention: BusinessDayConvention) -> (b:
        ScheduleBuilder)
        ensures
            b.termination_convention_of() == convention,
            b.same_but_termination_convention(&self),
    {
        ScheduleBuilder { termination_convention: convention, ..self }
    }

    /// The same builder with generation rule `rule`.
    pub fn with_rule(self, rule: DateGenerationRule) -> (b: ScheduleBuilder)
        ensures
            b.rule_of() == rule,
            b.same_but_rule(&self),
    {
        ScheduleBuilder { rule, ..self }
    }

    /// The same builder with end-of-month flag `end_of_month`.
    pub fn with_end_of_month(self, end_of_month: bool) -> (b: ScheduleBuilder)
        ensures
            b.end_of_month_of() == end_of_month,
            b.same_but_end_of_month(&self),
    {
        ScheduleBuilder { end_of_month, ..self }
    }

    /// The same builder with first (front stub) date `first_date`.
    pub fn with_first_date(self, first_date: Date) -> (b: ScheduleBuilder)
        ensures
            b.first_date_of() == Some(first_date@),
            b.same_but_first_date(&self),
    {
        ScheduleBuilder { first_date: Some(first_date), ..self }
    }

    /// The same builder with next-to-last (back stub) date
    /// `next_to_last_date`.
    pub fn with_next_to_last_date(self, next_to_last_date: Date) -> (b: ScheduleBuilder)
        ensures
            b.next_to_last_of() == Some(next_to_last_date@),
            b.same_but_next_to_last(&self),
    {
        ScheduleBuilder { next_to_last_date: Some(next_to_last_date), ..self }
    }

    /// Generate forwards.
    pub fn forwards(self) -> (b: ScheduleBuilder)
        ensures
            b.rule_of() == DateGenerationRule::Forward,
            b.same_but_rule(&self),
    {
        self.with_rule(DateGenerationRule::Forward)
    }

    /// Generate backwards.
    pub fn backwards(self) -> (b: ScheduleBuilder)
        ensures
            b.rule_of() == DateGenerationRule::Backward,
            b.same_but_rule(&self),
    {
        self.with_rule(DateGenerationRule::Backward)
    }

    /// The builder's inputs, checked.
    fn validate_inputs(&self) -> (r: Result<(), TimeError>)
        ensures
            match self.refusal() {
                Some(e) => r == Err::<(), TimeError>(e),
                None => r is Ok,
            },
    {
        if self.effective.serial() >= self.termination.serial() {
            return Err(TimeError::EffectiveAfterTermination);
        }
        let zero_rule = match self.rule {
            DateGenerationRule::Zero => true,
            _ => false,
        };
        if !zero_rule && self.tenor.is_zero() {
            return Err(TimeError::ZeroTenor);
        }
        match self.first_date {
            Some(fd) => {
                if fd.serial() <= self.effective.serial() || fd.serial() >= self.termination.serial() {
                    return Err(TimeError::StubDateOutOfRange);
                }
            },
            None => {},
        }
        match self.next_to_last_date {
            Some(nld) => {
                if nld.serial() <= self.effective.serial() || nld.serial()
                    >= self.termination.serial() {
                    return Err(TimeError::StubDateOutOfRange);
                }
            },
            None => {},
        }
        match (self.first_date, self.next_to_last_date) {
            (Some(fd), Some(nld)) => {
                if fd.serial() >= nld.serial() {
                    return Err(TimeError::StubDateOutOfRange);
                }
            },
            _ => {},
        }
        Ok(())
    }

    /// Generate, adjust and validate the schedule.
    pub fn build(self) -> (r: Result<Schedule, TimeError>)
        ensures
            match self.outcome() {
                Ok(t) => r is Ok && r->Ok_0.date_serials() == t.0 && r->Ok_0.reference_serials()
                    == t.1 && r->Ok_0.generation_of() == t.2,
                Err(e) => r == Err::<Schedule, TimeError>(e),
            },
    {
        match self.validate_inputs() {
            Ok(()) => {},
            Err(e) => return Err(e),
        }
        let lists = match self.rule {
            DateGenerationRule::Zero => {
                let d = vec![self.effective, self.termination];
                let r = vec![self.effective, self.termination];
                proof {
                    assert(serials(d@) =~= seq![self.effective@, self.termination@]);
                    assert(serials(r@) =~= seq![self.effective@, self.termination@]);
                }
                Ok((d, r))
            },
            DateGenerationRule::Forward => Generator::forward(&self).generate(),
            DateGenerationRule::Backward => match Generator::backward(&self) {
                Ok(g) => g.generate(),
                Err(e) => Err(e),
            },
        };
        let (dates, refs) = match lists {
            Ok(p) => p,
            Err(e) => return Err(e),
        };
        let adjuster = BdcAdjuster::new(&self.calendar, self.convention, self.termination_convention);
        let adjusted_dates = match adjuster.apply(dates) {
            Ok(v) => v,
            Err(e) => return Err(e),
        };
        let adjusted_refs = match adjuster.apply(refs) {
            Ok(v) => v,
            Err(e) => return Err(e),
        };
        let generation = match self.rule {
            DateGenerationRule::Zero => None,
            _ => Some(Generation { tenor: self.tenor, end_of_month: self.end_of_month }),
        };
        match Schedule::try_from_lists(adjusted_dates, adjusted_refs) {
            Ok(s) => Ok(s.with_generation(generation)),
            Err(e) => Err(e),
        }
    }
}

impl ScheduleBuilder {
    /// All settings but the tenor agree.
    pub open spec fn same_but_tenor(&self, o: &ScheduleBuilder) -> bool {
        &&& self.effective_serial() == o.effective_serial()
        &&& self.termination_serial() == o.termination_serial()
        &&& self.calendar_of() == o.calendar_of()
        &&& self.convention_of() == o.convention_of()
        &&& self.termination_convention_of() == o.termination_convention_of()
        &&& self.rule_of() == o.rule_of()
        &&& self.end_of_month_of() == o.end_of_month_of()
        &&& self.first_date_of() == o.first_date_of()
        &&& self.next_to_last_of() == o.next_to_last_of()
    }

    /// All settings but the interior convention agree.
    pub open spec fn same_but_convention(&self, o: &ScheduleBuilder) -> bool {
        &&& self.effective_serial() == o.effective_serial()
        &&& self.termination_serial() == o.termination_serial()
        &&& self.tenor_of() == o.tenor_of()
        &&& self.calendar_of() == o.calendar_of()
        &&& self.termination_convention_of() == o.termination_convention_of()
        &&& self.rule_of() == o.rule_of()
        &&& self.end_of_month_of() == o.end_of_month_of()
        &&& self.first_date_of() == o.first_date_of()
        &&& self.next_to_last_of() == o.next_to_last_of()
    }

    /// All settings but the termination convention agree.
    pub open spec fn same_but_termination_convention(&self, o: &ScheduleBuilder) -> bool {
        &&& self.effective_serial() == o.effective_serial()
        &&& self.termination_serial() == o.termination_serial()
        &&& self.tenor_of() == o.tenor_of()
        &&& self.calendar_of() == o.calendar_of()
        &&& self.convention_of() == o.convention_of()
        &&& self.rule_of() == o.rule_of()
        &&& self.end_of_month_of() == o.end_of_month_of()
        &&& self.first_date_of() == o.first_date_of()
        &&& self.next_to_last_of() == o.next_to_last_of()
    }

    /// All settings but the rule agree.
    pub open spec fn same_but_rule(&self, o: &ScheduleBuilder) -> bool {
        &&& self.effective_serial() == o.effective_serial()
        &&& self.termination_serial() == o.termination_serial()
        &&& self.tenor_of() == o.tenor_of()
        &&& self.calendar_of() == o.calendar_of()
        &&& self.convention_of() == o.convention_of()
        &&& self.termination_convention_of() == o.termination_convention_of()
        &&& self.end_of_month_of() == o.end_of_month_of()
        &&& self.first_date_of() == o.first_date_of()
        &&& self.next_to_last_of() == o.next_to_last_of()
    }

    /// All settings but the end-of-month flag agree.
    pub open spec fn same_but_end_of_month(&self, o: &ScheduleBuilder) -> bool {
        &&& self.effective_serial() == o.effective_serial()
        &&& self.termination_serial() == o.termination_serial()
        &&& self.tenor_of() == o.tenor_of()
        &&& self.calendar_of() == o.calendar_of()
        &&& self.convention_of() == o.convention_of()
        &&& self.termination_convention_of() == o.termination_convention_of()
        &&& self.rule_of() == o.rule_of()
        &&& self.first_date_of() == o.first_date_of()
        &&& self.next_to_last_of() == o.next_to_last_of()
    }

    /// All settings but the first stub date agree.
    pub open spec fn same_but_first_date(&self, o: &ScheduleBuilder) -> bool {
        &&& self.effective_serial() == o.effective_serial()
        &&& self.termination_serial() == o.termination_serial()
        &&& self.tenor_of() == o.tenor_of()
        &&& self.calendar_of() == o.calendar_of()
        &&& self.convention_of() == o.convention_of()
        &&& self.termination_convention_of() == o.termination_convention_of()
        &&& self.rule_of() == o.rule_of()
        &&& self.end_of_month_of() == o.end_of_month_of()
        &&& self.next_to_last_of() == o.next_to_last_of()
    }

    /// All settings but the next-to-last date agree.
    pub open spec fn same_but_next_to_last(&self, o: &ScheduleBuilder) -> bool {
        &&& self.effective_serial() == o.effective_serial()
        &&& self.termination_serial() == o.termination_serial()
        &&& self.tenor_of() == o.tenor_of()
        &&& self.calendar_of() == o.calendar_of()
        &&& self.convention_of() == o.convention_of()
        &&& self.termination_convention_of() == o.termination_convention_of()
        &&& self.rule_of() == o.rule_of()
        &&& self.end_of_month_of() == o.end_of_month_of()
        &&& self.first_date_of() == o.first_date_of()
    }
}

// ---- Generator ----------------------------------------------------------

/// The serial of an optional date.
pub open spec fn opt_serial(o: Option<Date>) -> Option<int> {
    match o {
        Some(d) => Some(d@),
        None => None,
    }
}

/// An optional serial as a list of zero or one serials.
pub open spec fn opt_seq(o: Option<int>) -> Seq<int> {
    match o {
        Some(x) => seq![x],
        None => Seq::empty(),
    }
}

/// The unadjusted coupon dates and reference dates generated from a start
/// anchor `sa` with optional stub `ss`, an end anchor `ea` with optional
/// stub `es`, a step and a direction; both lists come out in chronological
/// order. `None` when a step leaves the supported range.
pub open spec fn generated(
    sa: int,
    ss: Option<int>,
    ea: int,
    es: Option<int>,
    step: Period,
    direction: Direction,
    end_of_month: bool,
) -> Option<(Seq<int>, Seq<int>)> {
    let seed = match ss {
        Some(s) => s,
        None => sa,
    };
    let stop = match es {
        Some(s) => s,
        None => ea,
    };
    match walk_from(seed, step, end_of_month, stop, direction, 1) {
        None => None,
        Some(w) => {
            let out = seq![sa] + opt_seq(ss) + w.0 + opt_seq(es) + seq![ea];
            let first = match ss {
                Some(s) => step_serial(s, step, end_of_month, -1),
                None => Some(sa),
            };
            let last = match es {
                Some(s) => step_serial(s, step, end_of_month, 1),
                None => Some(w.1),
            };
            match (first, last) {
                (Some(f), Some(l)) => {
                    let refs = out.update(0, f).update(out.len() - 1, l);
                    if direction == Direction::Backward {
                        Some((reversed(out), reversed(refs)))
                    } else {
                        Some((out, refs))
                    }
                },
                _ => None,
            }
        },
    }
}

/// The list of dates in reverse order.
fn reverse_dates(v: &Vec<Date>) -> (r: Vec<Date>)
    ensures
        serials(r@) == reversed(serials(v@)),
        r@.len() == v@.len(),
{
    let mut out: Vec<Date> = Vec::new();
    let mut k: usize = v.len();
    while k > 0
        invariant
            k <= v@.len(),
            out@.len() == v@.len() - k,
            forall|j: int| 0 <= j < out@.len() ==> #[trigger] out@[j] == v@[v@.len() - 1 - j],
        decreases k,
    {
        k = k - 1;
        out.push(v[k]);
    }
    proof {
        assert(serials(out@) =~= reversed(serials(v@)));
    }
    out
}

/// Generates the unadjusted dates of a forward or backward schedule.
pub struct Generator {
    start_anchor: Date,
    start_stub: Option<Date>,
    end_anchor: Date,
    end_stub: Option<Date>,
    step: Period,
    direction: Direction,
    end_of_month: bool,
}

impl Generator {
    /// The dates this generator produces.
    pub closed spec fn result(&self) -> Option<(Seq<int>, Seq<int>)> {
        generated(
            self.start_anchor@,
            opt_serial(self.start_stub),
            self.end_anchor@,
            opt_serial(self.end_stub),
            self.step,
            self.direction,
            self.end_of_month,
        )
    }

    /// `true` iff the step is non-zero.
    pub closed spec fn steps(&self) -> bool {
        self.step.len() != 0
    }

    /// Walk forward from the effective date (or the first stub date)
    /// towards the termination date (or the next-to-last date).
    pub fn forward(b: &ScheduleBuilder) -> (g: Generator)
        ensures
            g.result() == generated(
                b.effective_serial(),
                b.first_date_of(),
                b.termination_serial(),
                b.next_to_last_of(),
                b.tenor_of(),
                Direction::Forward,
                b.end_of_month_of(),
            ),
            g.steps() == (b.tenor_of().len() != 0),
    {
        Generator {
            start_anchor: b.effective,
            start_stub: b.first_date,
            end_anchor: b.termination,
            end_stub: b.next_to_last_date,
            step: b.tenor,
            direction: Direction::Forward,
            end_of_month: b.end_of_month,
        }
    }

    /// Walk backward from the termination date (or the next-to-last date)
    /// towards the effective date (or the first stub date); refused when
    /// the tenor cannot be negated.
    pub fn backward(b: &ScheduleBuilder) -> (r: Result<Generator, TimeError>)
        ensures
            b.tenor_of().len() == i32::MIN ==> r == Err::<Generator, TimeError>(
                TimeError::DateOutOfRange,
            ),
            b.tenor_of().len() != i32::MIN ==> r is Ok && r->Ok_0.result() == generated(
                b.termination_serial(),
                b.next_to_last_of(),
                b.effective_serial(),
                b.first_date_of(),
                with_length_of(b.tenor_of(), (-b.tenor_of().len()) as i32),
                Direction::Backward,
                b.end_of_month_of(),
            ) && r->Ok_0.steps() == (b.tenor_of().len() != 0),
    {
        let step = match b.tenor.checked_neg() {
            Some(p) => p,
            None => return Err(TimeError::DateOutOfRange),
        };
        Ok(
            Generator {
                start_anchor: b.termination,
                start_stub: b.next_to_last_date,
                end_anchor: b.effective,
                end_stub: b.first_date,
                step,
                direction: Direction::Backward,
                end_of_month: b.end_of_month,
            },
        )
    }

    /// The unadjusted coupon dates and reference dates, in chronological
    /// order.
    pub fn generate(&self) -> (r: Result<(Vec<Date>, Vec<Date>), TimeError>)
        requires
            self.steps(),
        ensures
            match self.result() {
                Some(p) => r is Ok && serials(r->Ok_0.0@) == p.0 && serials(r->Ok_0.1@) == p.1,
                None => r == Err::<(Vec<Date>, Vec<Date>), TimeError>(TimeError::DateOutOfRange),
            },
    {
        let seed = match self.start_stub {
            Some(s) => s,
            None => self.start_anchor,
        };
        let stop = match self.end_stub {
            Some(s) => s,
            None => self.end_anchor,
        };
        let stepper = Stepper::new(seed, self.step, self.end_of_month);
        let mut out: Vec<Date> = Vec::new();
        out.push(self.start_anchor);
        match self.start_stub {
            Some(s) => out.push(s),
            None => {},
        }
        let ghost head = serials(out@);
        proof {
            assert(head =~= seq![self.start_anchor@] + opt_seq(opt_serial(self.start_stub)));
        }
        let mut walk = Walk::new(&stepper, stop, self.direction);
        let walked = match walk.dates() {
            Ok(v) => v,
            Err(e) => return Err(e),
        };
        let mut k: usize = 0;
        while k < walked.len()
            invariant
                k <= walked@.len(),
                serials(out@) == head + serials(walked@).subrange(0, k as int),
            decreases walked@.len() - k,
        {
            let ghost before = out@;
            out.push(walked[k]);
            k = k + 1;
            proof {
                lemma_serials_push(before, walked@[k - 1]);
                assert(serials(walked@).subrange(0, k as int) =~= serials(walked@).subrange(
                    0,
                    k - 1,
                ).push(walked@[k - 1]@));
                assert(serials(out@) =~= head + serials(walked@).subrange(0, k as int));
            }
        }
        proof {
            assert(serials(walked@).subrange(0, walked@.len() as int) =~= serials(walked@));
        }
        let stopping = match stepper.step(walk.step_index()) {
            Ok(d) => d,
            Err(e) => return Err(e),
        };
        match self.end_stub {
            Some(s) => out.push(s),
            None => {},
        }
        out.push(self.end_anchor);
        let ghost full = serials(out@);
        proof {
            let w = walk_from(seed@, self.step, self.end_of_month, stop@, self.direction, 1)->Some_0;
            assert(full =~= seq![self.start_anchor@] + opt_seq(opt_serial(self.start_stub)) + w.0
                + opt_seq(opt_serial(self.end_stub)) + seq![self.end_anchor@]);
        }
        let mut refs: Vec<Date> = Vec::new();
        let mut j: usize = 0;
        while j < out.len()
            invariant
                j <= out@.len(),
                refs@ == out@.subrange(0, j as int),
            decreases out@.len() - j,
        {
            refs.push(out[j]);
            j = j + 1;
            proof {
                assert(refs@ =~= out@.subrange(0, j as int));
            }
        }
        proof {
            assert(refs@ =~= out@);
        }
        let ghost f: int = match opt_serial(self.start_stub) {
            Some(s) => step_serial(s, self.step, self.end_of_month, -1)->Some_0,
            None => self.start_anchor@,
        };
        match self.start_stub {
            Some(s) => {
                let first = match Stepper::new(s, self.step, self.end_of_month).step(-1) {
                    Ok(d) => d,
                    Err(e) => return Err(e),
                };
                let ghost before = refs@;
                refs[0] = first;
                proof {
                    lemma_serials_update(before, 0, first);
                }
            },
            None => {
                proof {
                    assert(full.update(0, f) =~= full);
                }
            },
        }
        proof {
            assert(serials(refs@) == full.update(0, f));
        }
        let last = match self.end_stub {
            Some(s) => match Stepper::new(s, self.step, self.end_of_month).step(1) {
                Ok(d) => d,
                Err(e) => return Err(e),
            },
            None => stopping,
        };
        let n = refs.len();
        let ghost before = refs@;
        refs[n - 1] = last;
        proof {
            lemma_serials_update(before, n - 1, last);
            assert(serials(refs@) == full.update(0, f).update(full.len() - 1, last@));
        }
        match self.direction {
            Direction::Backward => {
                let rev_out = reverse_dates(&out);
                let rev_refs = reverse_dates(&refs);
                Ok((rev_out, rev_refs))
            },
            Direction::Forward => Ok((out, refs)),
        }
    }
}

// ---- Business-day adjustment --------------------------------------------

/// The convention for position `i` of `n`: the terminal one for the last.
pub open spec fn convention_at(
    i: int,
    n: int,
    interior: BusinessDayConvention,
    terminal: BusinessDayConvention,
) -> BusinessDayConvention {
    if i == n - 1 {
        terminal
    } else {
        interior
    }
}

/// Every serial adjusted on `cal`, the last under `terminal` and the
/// others under `interior`; `None` when some adjustment leaves the range.
pub open spec fn adjusted_all(
    cal: &Calendar,
    s: Seq<int>,
    interior: BusinessDayConvention,
    terminal: BusinessDayConvention,
) -> Option<Seq<int>> {
    if forall|i: int|
        0 <= i < s.len() ==> #[trigger] cal.adjusted_at(
            s[i],
            convention_at(i, s.len() as int, interior, terminal),
        ) is Some {
        Some(
            Seq::new(
                s.len(),
                |i: int|
                    cal.adjusted_at(s[i], convention_at(i, s.len() as int, interior, terminal))->Some_0,
            ),
        )
    } else {
        None
    }
}

/// Adjusts a list of dates onto business days: the last under the
/// terminal convention, the others under the interior one.
pub struct BdcAdjuster<'a> {
    calendar: &'a Calendar,
    interior: BusinessDayConvention,
    terminal: BusinessDayConvention,
}

impl<'a> BdcAdjuster<'a> {
    /// An adjuster on `calendar`.
    pub fn new(
        calendar: &'a Calendar,
        interior: BusinessDayConvention,
        terminal: BusinessDayConvention,
    ) -> (r: BdcAdjuster<'a>)
        ensures
            r.calendar_of() == calendar,
            r.interior_of() == interior,
            r.terminal_of() == terminal,
    {
        BdcAdjuster { calendar, interior, terminal }
    }

    /// The calendar adjusted on.
    pub closed spec fn calendar_of(&self) -> &'a Calendar {
        self.calendar
    }

    /// The convention for all but the last date.
    pub closed spec fn interior_of(&self) -> BusinessDayConvention {
        self.interior
    }

    /// The convention for the last date.
    pub closed spec fn terminal_of(&self) -> BusinessDayConvention {
        self.terminal
    }

    /// Adjust every date.
    pub fn apply(&self, dates: Vec<Date>) -> (r: Result<Vec<Date>, TimeError>)
        ensures
            match adjusted_all(self.calendar_of(), serials(dates@), self.interior_of(), self.terminal_of()) {
                Some(s) => r is Ok && serials(r->Ok_0@) == s,
                None => r == Err::<Vec<Date>, TimeError>(TimeError::DateOutOfRange),
            },
    {
        let n = dates.len();
        let mut out: Vec<Date> = Vec::new();
        let mut i: usize = 0;
        let ghost s = serials(dates@);
        while i < n
            invariant
                n == dates@.len(),
                s == serials(dates@),
                i <= n,
                out@.len() == i,
                forall|j: int|
                    0 <= j < i ==> cal_adjusts(self.calendar, s, j, self.interior, self.terminal, out@[j]@),
            decreases n - i,
        {
            let conv = if i == n - 1 {
                self.terminal
            } else {
                self.interior
            };
            let d = match self.calendar.adjust(dates[i], conv) {
                Ok(d) => d,
                Err(e) => {
                    proof {
                        assert(!(cal_adjusted_some(self.calendar, s, i as int, self.interior, self.terminal)));
                    }
                    return Err(e);
                },
            };
            out.push(d);
            i = i + 1;
        }
        proof {
            assert forall|j: int| 0 <= j < s.len() implies #[trigger] self.calendar.adjusted_at(
                s[j],
                convention_at(j, s.len() as int, self.interior, self.terminal),
            ) is Some by {
                assert(cal_adjusts(self.calendar, s, j, self.interior, self.terminal, out@[j]@));
            }
            assert(serials(out@) =~= adjusted_all(self.calendar, s, self.interior, self.terminal)->Some_0);
        }
        Ok(out)
    }
}

/// Position `j` of `s` adjusts to serial `t`.
pub open spec fn cal_adjusts(
    cal: &Calendar,
    s: Seq<int>,
    j: int,
    interior: BusinessDayConvention,
    terminal: BusinessDayConvention,
    t: int,
) -> bool {
    cal.adjusted_at(s[j], convention_at(j, s.len() as int, interior, terminal)) == Some(t)
}

/// Position `j` of `s` adjusts at all.
pub open spec fn cal_adjusted_some(
    cal: &Calendar,
    s: Seq<int>,
    j: int,
    interior: BusinessDayConvention,
    terminal: BusinessDayConvention,
) -> bool {
    cal.adjusted_at(s[j], convention_at(j, s.len() as int, interior, terminal)) is Some
}

// ---- Laws ----------------------------------------------------------------

/// Generated lists run from the first anchor to the second, in order of
/// the direction, and hold at least those two dates.
proof fn lemma_generated_ends(
    sa: int,
    ss: Option<int>,
    ea: int,
    es: Option<int>,
    step: Period,
    direction: Direction,
    end_of_month: bool,
)
    ensures
        generated(sa, ss, ea, es, step, direction, end_of_month) matches Some(l) ==> {
            let d = l.0;
            &&& d.len() >= 2
            &&& direction == Direction::Forward ==> d[0] == sa && d[d.len() - 1] == ea
            &&& direction == Direction::Backward ==> d[0] == ea && d[d.len() - 1] == sa
        },
{
}

/// A schedule the builder produces has strictly increasing dates, at least
/// two of them, running from the adjusted effective date to the adjusted
/// termination date (both adjustments succeed); every date but the last is
/// a business day unless the convention is `Unadjusted`, and so is the last
/// unless the termination convention is.
pub proof fn lemma_built_schedule(b: &ScheduleBuilder)
    ensures
        b.outcome() matches Ok(t) ==> {
            let d = t.0;
            let cal = b.calendar_of();
            &&& increasing(d)
            &&& d.len() >= 2
            &&& cal.adjusted_at(b.effective_serial(), b.convention_of()) is Some
            &&& cal.adjusted_at(b.termination_serial(), b.termination_convention_of()) is Some
            &&& d[0] == cal.adjusted_at(b.effective_serial(), b.convention_of())->Some_0
            &&& d[d.len() - 1] == cal.adjusted_at(
                b.termination_serial(),
                b.termination_convention_of(),
            )->Some_0
            &&& b.convention_of() != BusinessDayConvention::Unadjusted ==> forall|i: int|
                0 <= i < d.len() - 1 ==> cal.business_at(#[trigger] d[i])
            &&& b.termination_convention_of() != BusinessDayConvention::Unadjusted
                ==> cal.business_at(d[d.len() - 1])
        },
{
    if b.outcome() is Ok {
        let cal = b.calendar_of();
        let raw = b.raw_lists()->Some_0.0;
        lemma_generated_ends(
            b.effective_serial(),
            b.first_date_of(),
            b.termination_serial(),
            b.next_to_last_of(),
            b.tenor_of(),
            Direction::Forward,
            b.end_of_month_of(),
        );
        lemma_generated_ends(
            b.termination_serial(),
            b.next_to_last_of(),
            b.effective_serial(),
            b.first_date_of(),
            with_length_of(b.tenor_of(), (-b.tenor_of().len()) as i32),
            Direction::Backward,
            b.end_of_month_of(),
        );
        assert(raw.len() >= 2);
        assert(raw[0] == b.effective_serial());
        assert(raw[raw.len() - 1] == b.termination_serial());
        let n = raw.len() as int;
        assert(cal.adjusted_at(raw[0], convention_at(0, n, b.convention_of(), b.termination_convention_of())) is Some);
        assert(cal.adjusted_at(raw[n - 1], convention_at(n - 1, n, b.convention_of(), b.termination_convention_of())) is Some);
        let d = b.outcome()->Ok_0.0;
        assert forall|i: int|
            0 <= i < d.len() - 1 && b.convention_of()
                != BusinessDayConvention::Unadjusted implies cal.business_at(#[trigger] d[i]) by {
            assert(cal.adjusted_at(raw[i], convention_at(i, n, b.convention_of(), b.termination_convention_of())) is Some);
            crate::calendar::lemma_adjust_lands_on_business_day(cal, raw[i], b.convention_of());
        }
        if b.termination_convention_of() != BusinessDayConvention::Unadjusted {
            crate::calendar::lemma_adjust_lands_on_business_day(
                cal,
                raw[n - 1],
                b.termination_convention_of(),
            );
        }
    }
}

/// Stepping by a period's negation is stepping the other way.
proof fn lemma_step_negated(x: int, p: Period, eom: bool, i: int)
    requires
        p.len() != i32::MIN,
    ensures
        step_serial(x, with_length_of(p, (-p.len()) as i32), eom, i) == step_serial(x, p, eom, -i),
{
    let q = with_length_of(p, (-p.len()) as i32);
    assert(q.len() == -p.len());
    assert(q.len() * i == p.len() * (-i)) by (nonlinear_arith)
        requires
            q.len() == -p.len(),
    ;
    assert(with_length_of(q, (q.len() * i) as i32) == with_length_of(p, (p.len() * (-i)) as i32));
}

/// The reference dates generated around stubs: a start-side stub date `s`
/// follows the start anchor, and the first reference date is `s` stepped
/// back one step, the start of the stub's notional period; an end-side
/// stub date comes just before the end anchor, and the last reference date
/// is it stepped on one step.
proof fn lemma_generated_stub_references(
    sa: int,
    ss: Option<int>,
    ea: int,
    es: Option<int>,
    step: Period,
    direction: Direction,
    end_of_month: bool,
)
    ensures
        generated(sa, ss, ea, es, step, direction, end_of_month) matches Some(l) ==> {
            let n = l.0.len() as int;
            &&& n >= 2
            &&& l.1.len() == n
            &&& ss matches Some(s) ==> {
                &&& step_serial(s, step, end_of_month, -1) is Some
                &&& direction == Direction::Forward ==> l.0[1] == s && l.1[0] == step_serial(
                    s,
                    step,
                    end_of_month,
                    -1,
                )->Some_0
                &&& direction == Direction::Backward ==> l.0[n - 2] == s && l.1[n - 1]
                    == step_serial(s, step, end_of_month, -1)->Some_0
            }
            &&& es matches Some(s) ==> {
                &&& step_serial(s, step, end_of_month, 1) is Some
                &&& direction == Direction::Forward ==> l.0[n - 2] == s && l.1[n - 1]
                    == step_serial(s, step, end_of_month, 1)->Some_0
                &&& direction == Direction::Backward ==> l.0[1] == s && l.1[0] == step_serial(
                    s,
                    step,
                    end_of_month,
                    1,
                )->Some_0
            }
        },
{
}

/// The reference dates a builder generates around its stubs. With a first
/// date `s`, the schedule's second date is `s` and its first reference
/// date is `s` stepped back one tenor: the start of the front stub's
/// notional period, not the effective date. With a next-to-last date `s`,
/// the next-to-last date is `s` and the last reference date is `s`
/// stepped on one tenor. Unadjusted conventions keep both lists as
/// generated.
pub proof fn lemma_stub_reference_dates(b: &ScheduleBuilder)
    requires
        b.rule_of() != DateGenerationRule::Zero,
    ensures
        b.raw_lists() matches Some(l) ==> {
            let n = l.0.len() as int;
            let eom = b.end_of_month_of();
            &&& n >= 2
            &&& l.1.len() == n
            &&& b.first_date_of() matches Some(s) ==> {
                &&& step_serial(s, b.tenor_of(), eom, -1) is Some
                &&& l.0[1] == s
                &&& l.1[0] == step_serial(s, b.tenor_of(), eom, -1)->Some_0
            }
            &&& b.next_to_last_of() matches Some(s) ==> {
                &&& step_serial(s, b.tenor_of(), eom, 1) is Some
                &&& l.0[n - 2] == s
                &&& l.1[n - 1] == step_serial(s, b.tenor_of(), eom, 1)->Some_0
            }
        },
        b.convention_of() == BusinessDayConvention::Unadjusted
            && b.termination_convention_of() == BusinessDayConvention::Unadjusted ==> (b.outcome() matches Ok(t)
            ==> b.raw_lists() matches Some(l) && t.0 == l.0 && t.1 == l.1),
{
    let eom = b.end_of_month_of();
    let p = b.tenor_of();
    if b.rule_of() == DateGenerationRule::Forward {
        lemma_generated_stub_references(
            b.effective_serial(),
            b.first_date_of(),
            b.termination_serial(),
            b.next_to_last_of(),
            p,
            Direction::Forward,
            eom,
        );
    } else if p.len() != i32::MIN {
        let q = with_length_of(p, (-p.len()) as i32);
        lemma_generated_stub_references(
            b.termination_serial(),
            b.next_to_last_of(),
            b.effective_serial(),
            b.first_date_of(),
            q,
            Direction::Backward,
            eom,
        );
        if let Some(s) = b.first_date_of() {
            lemma_step_negated(s, p, eom, 1);
        }
        if let Some(s) = b.next_to_last_of() {
            lemma_step_negated(s, p, eom, -1);
        }
    }
    if b.convention_of() == BusinessDayConvention::Unadjusted
        && b.termination_convention_of() == BusinessDayConvention::Unadjusted && b.outcome() is Ok {
        let l = b.raw_lists()->Some_0;
        let cal = b.calendar_of();
        assert forall|i: int| 0 <= i < l.0.len() implies #[trigger] cal.adjusted_at(
            l.0[i],
            convention_at(i, l.0.len() as int, BusinessDayConvention::Unadjusted, BusinessDayConvention::Unadjusted),
        ) == Some(l.0[i]) by {}
        assert forall|i: int| 0 <= i < l.1.len() implies #[trigger] cal.adjusted_at(
            l.1[i],
            convention_at(i, l.1.len() as int, BusinessDayConvention::Unadjusted, BusinessDayConvention::Unadjusted),
        ) == Some(l.1[i]) by {}
        let t = b.outcome()->Ok_0;
        assert(t.0 =~= l.0);
        assert(t.1 =~= l.1);
    }
}

} // verus!
