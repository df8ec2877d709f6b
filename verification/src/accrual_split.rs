//! Splitting an Actual/Actual (ICMA) accrual at an inner date: the notional
//! coupon grid around a reference period is ordered, so the shares of two
//! adjacent spans add up to the share of their union, window by window
//! and coupon period by coupon period.

use vstd::prelude::*;

use crate::date::{
    days_in_month, end_of_month_of, is_end_of_month_serial, lemma_end_of_month_idempotent,
    lemma_earlier_month_first, lemma_month_count, lemma_serial_of_bounds, lemma_ymd_of,
    lemma_ymd_of_serial_of,
    months_later, months_later_in_range, serial_of, valid_serial, valid_ymd, ymd_of,
};
use crate::daycount::{
    bound_ordered, bound_total, coupon_share_of, icma_accrual, icma_accrue_from, icma_first_window,
    icma_window,
};
use crate::error::TimeError;
use crate::fraction::{
    is_reduced, lemma_raw_sum_associative, lemma_raw_sum_commutes, lemma_raw_sum_congruent,
    lemma_reduce, lemma_reduced_unique, lemma_same_value_trans, lemma_sum_denotes, raw_sum,
    same_value, sum_of,
};
use crate::period::{with_length_of, Period};
use crate::schedule::{increasing, step_serial};

verus! {

/// Months from year zero to the month of serial `s`.
pub open spec fn month_index(s: int) -> int {
    ymd_of(s).0 * 12 + ymd_of(s).1 - 1
}

/// Moving `n` months lands on a valid day of the month `n` months on.
proof fn lemma_months_later_lands(s: int, n: int)
    requires
        valid_serial(s),
        months_later_in_range(s, n),
    ensures
        valid_ymd(months_later(s, n).0, months_later(s, n).1, months_later(s, n).2),
        valid_serial(serial_of(months_later(s, n).0, months_later(s, n).1, months_later(s, n).2)),
        month_index(serial_of(months_later(s, n).0, months_later(s, n).1, months_later(s, n).2))
            == month_index(s) + n,
{
    lemma_ymd_of(s);
    let t = ymd_of(s);
    lemma_month_count(t.0 * 12 + (t.1 - 1) + n);
    let r = months_later(s, n);
    assert(days_in_month(r.0, r.1) >= 28);
    lemma_serial_of_bounds(r.0, r.1, r.2);
    lemma_ymd_of_serial_of(r.0, r.1, r.2);
}

/// Snapping to the month's end keeps the month.
proof fn lemma_snap_keeps_month(t: int)
    requires
        valid_serial(t),
    ensures
        valid_serial(end_of_month_of(t)),
        month_index(end_of_month_of(t)) == month_index(t),
{
    lemma_end_of_month_idempotent(t);
}

/// A step along a month or year period lands in the month the step
/// count names; a step along days or weeks moves the serial linearly.
proof fn lemma_step_lands(x: int, p: Period, eom: bool, i: int)
    requires
        valid_serial(x),
        step_serial(x, p, eom, i) is Some,
    ensures
        valid_serial(step_serial(x, p, eom, i)->Some_0),
        p is Days ==> step_serial(x, p, eom, i)->Some_0 == x + p.len() * i,
        p is Weeks ==> step_serial(x, p, eom, i)->Some_0 == x + 7 * (p.len() * i),
        p is Months ==> month_index(step_serial(x, p, eom, i)->Some_0) == month_index(x) + p.len()
            * i,
        p is Years ==> month_index(step_serial(x, p, eom, i)->Some_0) == month_index(x) + 12 * (
        p.len() * i),
{
    let n = p.len() * i;
    let q = with_length_of(p, n as i32);
    assert(q.len() == n);
    match q {
        Period::Days(_) => {},
        Period::Weeks(_) => {},
        Period::Months(k) => {
            lemma_months_later_lands(x, k as int);
            let t = serial_of(
                months_later(x, k as int).0,
                months_later(x, k as int).1,
                months_later(x, k as int).2,
            );
            lemma_snap_keeps_month(t);
        },
        Period::Years(k) => {
            lemma_months_later_lands(x, 12 * k);
            let t = serial_of(
                months_later(x, 12 * k).0,
                months_later(x, 12 * k).1,
                months_later(x, 12 * k).2,
            );
            lemma_snap_keeps_month(t);
        },
    }
}

/// Zero steps stay on the seed.
pub proof fn lemma_step_zero(x: int, p: Period, eom: bool)
    requires
        valid_serial(x),
    ensures
        step_serial(x, p, eom, 0) == Some(x),
{
    assert(p.len() * 0 == 0);
    lemma_ymd_of(x);
    let t = ymd_of(x);
    lemma_month_count(t.0 * 12 + (t.1 - 1));
    crate::date::lemma_month_count_split(t.0, t.1);
    lemma_ymd_of_serial_of(t.0, t.1, t.2);
    if is_end_of_month_serial(x) {
        assert(end_of_month_of(x) == x);
    }
}

/// Steps along a positive period strictly increase with the step count.
pub proof fn lemma_step_increasing(x: int, p: Period, eom: bool, i: int, j: int)
    requires
        valid_serial(x),
        p.len() > 0,
        i < j,
        step_serial(x, p, eom, i) is Some,
        step_serial(x, p, eom, j) is Some,
    ensures
        step_serial(x, p, eom, i)->Some_0 < step_serial(x, p, eom, j)->Some_0,
{
    lemma_step_lands(x, p, eom, i);
    lemma_step_lands(x, p, eom, j);
    let u = step_serial(x, p, eom, i)->Some_0;
    let v = step_serial(x, p, eom, j)->Some_0;
    assert(p.len() * i < p.len() * j) by (nonlinear_arith)
        requires
            p.len() > 0,
            i < j,
    ;
    if p is Months || p is Years {
        lemma_ymd_of(u);
        lemma_ymd_of(v);
        lemma_earlier_month_first(ymd_of(u).0, ymd_of(u).1, ymd_of(u).2, ymd_of(v).0, ymd_of(v).1, ymd_of(v).2);
    }
}

// ---- The grid around a reference period ---------------------------------

/// A reference period `rs < re` of valid dates, stepped by a positive
/// period.
pub open spec fn grid_ok(rs: int, re: int, period: Period) -> bool {
    valid_serial(rs) && valid_serial(re) && rs < re && period.len() > 0
}

/// The ends of window `i`: the reference period itself, or two
/// consecutive steps back from `rs` or on from `re`.
proof fn lemma_window_parts(rs: int, re: int, period: Period, eom: bool, i: int)
    requires
        icma_window(rs, re, period, eom, i) is Some,
    ensures
        i == 0 ==> icma_window(rs, re, period, eom, i)->Some_0 == (rs, re),
        i < 0 ==> step_serial(rs, period, eom, i) is Some && step_serial(rs, period, eom, i + 1) is Some
            && icma_window(rs, re, period, eom, i)->Some_0 == (
            step_serial(rs, period, eom, i)->Some_0,
            step_serial(rs, period, eom, i + 1)->Some_0,
        ),
        i > 0 ==> step_serial(re, period, eom, i - 1) is Some && step_serial(re, period, eom, i) is Some
            && icma_window(rs, re, period, eom, i)->Some_0 == (
            step_serial(re, period, eom, i - 1)->Some_0,
            step_serial(re, period, eom, i)->Some_0,
        ),
{
    reveal(icma_window);
}

/// Every window of the grid is nonempty.
proof fn lemma_window_nonempty(rs: int, re: int, period: Period, eom: bool, i: int)
    requires
        grid_ok(rs, re, period),
        icma_window(rs, re, period, eom, i) is Some,
    ensures
        icma_window(rs, re, period, eom, i)->Some_0.0 < icma_window(rs, re, period, eom, i)->Some_0.1,
{
    lemma_window_parts(rs, re, period, eom, i);
    if i < 0 {
        lemma_step_increasing(rs, period, eom, i, i + 1);
    } else if i > 0 {
        lemma_step_increasing(re, period, eom, i - 1, i);
    }
}

/// Windows below the reference period end at or before `rs`.
proof fn lemma_window_below(rs: int, re: int, period: Period, eom: bool, i: int)
    requires
        grid_ok(rs, re, period),
        i < 0,
        icma_window(rs, re, period, eom, i) is Some,
    ensures
        icma_window(rs, re, period, eom, i)->Some_0.1 <= rs,
{
    lemma_window_parts(rs, re, period, eom, i);
    lemma_step_zero(rs, period, eom);
    if i + 1 < 0 {
        lemma_step_increasing(rs, period, eom, i + 1, 0);
    }
}

/// Windows above the reference period start at or after `re`.
proof fn lemma_window_above(rs: int, re: int, period: Period, eom: bool, i: int)
    requires
        grid_ok(rs, re, period),
        i > 0,
        icma_window(rs, re, period, eom, i) is Some,
    ensures
        icma_window(rs, re, period, eom, i)->Some_0.0 >= re,
{
    lemma_window_parts(rs, re, period, eom, i);
    lemma_step_zero(re, period, eom);
    if i - 1 > 0 {
        lemma_step_increasing(re, period, eom, 0, i - 1);
    }
}

/// A later window starts no earlier than an earlier one ends.
proof fn lemma_windows_ordered(rs: int, re: int, period: Period, eom: bool, i: int, j: int)
    requires
        grid_ok(rs, re, period),
        i < j,
        icma_window(rs, re, period, eom, i) is Some,
        icma_window(rs, re, period, eom, j) is Some,
    ensures
        icma_window(rs, re, period, eom, i)->Some_0.1 <= icma_window(rs, re, period, eom, j)->Some_0.0,
{
    lemma_window_parts(rs, re, period, eom, i);
    lemma_window_parts(rs, re, period, eom, j);
    if i < 0 {
        lemma_window_below(rs, re, period, eom, i);
    }
    if j > 0 {
        lemma_window_above(rs, re, period, eom, j);
    }
    if j < 0 && i + 1 < j {
        lemma_step_increasing(rs, period, eom, i + 1, j);
    }
    if i > 0 && i < j - 1 {
        lemma_step_increasing(re, period, eom, i, j - 1);
    }
}

// ---- Shares along the grid ----------------------------------------------

/// The days of `s..e` inside window `w`.
pub open spec fn clip_len(s: int, e: int, w: (int, int)) -> int {
    let lo = if s >= w.0 {
        s
    } else {
        w.0
    };
    let hi = if e <= w.1 {
        e
    } else {
        w.1
    };
    if lo < hi {
        hi - lo
    } else {
        0
    }
}

/// The share of `s..e` in window `t` of the grid, as an unreduced pair.
pub open spec fn window_share(
    rs: int,
    re: int,
    period: Period,
    eom: bool,
    per_year: int,
    s: int,
    e: int,
    t: int,
) -> (int, int) {
    match icma_window(rs, re, period, eom, t) {
        Some(w) => (clip_len(s, e, w), per_year * (w.1 - w.0)),
        None => (0, 1),
    }
}

/// The unreduced sum of the shares that the walk of `s..e` from window
/// `i` meets, up to the first window reaching `e`.
pub open spec fn walk_shares(
    rs: int,
    re: int,
    period: Period,
    eom: bool,
    per_year: int,
    s: int,
    e: int,
    i: int,
) -> (int, int)
    decreases 200001 - i,
{
    if i >= 200001 {
        (0, 1)
    } else {
        match icma_window(rs, re, period, eom, i) {
            None => (0, 1),
            Some(w) => if w.1 >= e {
                window_share(rs, re, period, eom, per_year, s, e, i)
            } else {
                raw_sum(
                    window_share(rs, re, period, eom, per_year, s, e, i),
                    walk_shares(rs, re, period, eom, per_year, s, e, i + 1),
                )
            },
        }
    }
}

/// The unreduced sum of the shares of `s..e` in windows `i` to `j`.
pub open spec fn range_shares(
    rs: int,
    re: int,
    period: Period,
    eom: bool,
    per_year: int,
    s: int,
    e: int,
    i: int,
    j: int,
) -> (int, int)
    decreases j - i + 1,
{
    if j < i {
        (0, 1)
    } else {
        raw_sum(
            window_share(rs, re, period, eom, per_year, s, e, i),
            range_shares(rs, re, period, eom, per_year, s, e, i + 1, j),
        )
    }
}

/// Window shares have positive denominators.
proof fn lemma_share_positive(
    rs: int,
    re: int,
    period: Period,
    eom: bool,
    per_year: int,
    s: int,
    e: int,
    t: int,
)
    requires
        grid_ok(rs, re, period),
        per_year >= 1,
    ensures
        window_share(rs, re, period, eom, per_year, s, e, t).1 > 0,
        window_share(rs, re, period, eom, per_year, s, e, t).0 >= 0,
{
    if icma_window(rs, re, period, eom, t) is Some {
        lemma_window_nonempty(rs, re, period, eom, t);
        let w = icma_window(rs, re, period, eom, t)->Some_0;
        assert(per_year * (w.1 - w.0) > 0) by (nonlinear_arith)
            requires
                per_year >= 1,
                w.1 - w.0 > 0,
        ;
    }
}

/// The sum of two pairs with positive denominators has one too.
proof fn lemma_raw_sum_positive(x: (int, int), y: (int, int))
    requires
        x.1 > 0,
        y.1 > 0,
    ensures
        raw_sum(x, y).1 > 0,
{
    assert(x.1 * y.1 > 0) by (nonlinear_arith)
        requires
            x.1 > 0,
            y.1 > 0,
    ;
}

/// Walk sums have positive denominators.
proof fn lemma_walk_positive(
    rs: int,
    re: int,
    period: Period,
    eom: bool,
    per_year: int,
    s: int,
    e: int,
    i: int,
)
    requires
        grid_ok(rs, re, period),
        per_year >= 1,
    ensures
        walk_shares(rs, re, period, eom, per_year, s, e, i).1 > 0,
    decreases 200001 - i,
{
    if i < 200001 {
        lemma_share_positive(rs, re, period, eom, per_year, s, e, i);
        lemma_walk_positive(rs, re, period, eom, per_year, s, e, i + 1);
        lemma_raw_sum_positive(
            window_share(rs, re, period, eom, per_year, s, e, i),
            walk_shares(rs, re, period, eom, per_year, s, e, i + 1),
        );
    }
}

/// Range sums have positive denominators.
proof fn lemma_range_positive(
    rs: int,
    re: int,
    period: Period,
    eom: bool,
    per_year: int,
    s: int,
    e: int,
    i: int,
    j: int,
)
    requires
        grid_ok(rs, re, period),
        per_year >= 1,
    ensures
        range_shares(rs, re, period, eom, per_year, s, e, i, j).1 > 0,
    decreases j - i + 1,
{
    if i <= j {
        lemma_share_positive(rs, re, period, eom, per_year, s, e, i);
        lemma_range_positive(rs, re, period, eom, per_year, s, e, i + 1, j);
        lemma_raw_sum_positive(
            window_share(rs, re, period, eom, per_year, s, e, i),
            range_shares(rs, re, period, eom, per_year, s, e, i + 1, j),
        );
    }
}


// ---- Walks and ranges of windows ----------------------------------------

/// What one window adds to the running total of an accrual walk.
pub open spec fn accrue_next(s: int, e: int, w: (int, int), per_year: int, total: (int, int)) -> Result<
    (int, int),
    TimeError,
> {
    let lo = if s >= w.0 {
        s
    } else {
        w.0
    };
    let hi = if e <= w.1 {
        e
    } else {
        w.1
    };
    if lo < hi {
        match coupon_share_of((lo, hi), w, per_year) {
            Err(x) => Err(x),
            Ok(sh) => match sum_of(total, sh) {
                None => Err(TimeError::FractionOverflow),
                Some(t) => Ok(t),
            },
        }
    } else {
        Ok(total)
    }
}

/// One accrual step from window `i`: its total, then either the end of
/// the walk or the walk on from the next window.
proof fn lemma_accrue_unfold(
    rs: int,
    re: int,
    period: Period,
    eom: bool,
    per_year: int,
    s: int,
    e: int,
    i: int,
    total: (int, int),
)
    requires
        icma_accrue_from(rs, re, period, eom, per_year, s, e, i, total) is Ok,
    ensures
        i < 200001,
        icma_window(rs, re, period, eom, i) is Some,
        accrue_next(s, e, icma_window(rs, re, period, eom, i)->Some_0, per_year, total) is Ok,
        icma_window(rs, re, period, eom, i)->Some_0.1 >= e ==> icma_accrue_from(
            rs,
            re,
            period,
            eom,
            per_year,
            s,
            e,
            i,
            total,
        ) == accrue_next(s, e, icma_window(rs, re, period, eom, i)->Some_0, per_year, total),
        icma_window(rs, re, period, eom, i)->Some_0.1 < e ==> icma_accrue_from(
            rs,
            re,
            period,
            eom,
            per_year,
            s,
            e,
            i,
            total,
        ) == icma_accrue_from(
            rs,
            re,
            period,
            eom,
            per_year,
            s,
            e,
            i + 1,
            accrue_next(s, e, icma_window(rs, re, period, eom, i)->Some_0, per_year, total)->Ok_0,
        ),
{
}

/// An accrual walk that succeeds meets windows `i..=j`, all of them
/// defined, ending at the first one that reaches `e`.
proof fn lemma_walk_end(
    rs: int,
    re: int,
    period: Period,
    eom: bool,
    per_year: int,
    s: int,
    e: int,
    i: int,
    total: (int, int),
) -> (j: int)
    requires
        icma_accrue_from(rs, re, period, eom, per_year, s, e, i, total) is Ok,
    ensures
        i <= j < 200001,
        forall|t: int| i <= t <= j ==> #[trigger] icma_window(rs, re, period, eom, t) is Some,
        forall|t: int|
            i <= t < j ==> (#[trigger] icma_window(rs, re, period, eom, t))->Some_0.1 < e,
        icma_window(rs, re, period, eom, j)->Some_0.1 >= e,
    decreases 200001 - i,
{
    lemma_accrue_unfold(rs, re, period, eom, per_year, s, e, i, total);
    let w = icma_window(rs, re, period, eom, i)->Some_0;
    if w.1 >= e {
        i
    } else {
        let t = accrue_next(s, e, w, per_year, total)->Ok_0;
        lemma_walk_end(rs, re, period, eom, per_year, s, e, i + 1, t)
    }
}

/// One window's step adds its share to the total, up to the value.
proof fn lemma_next_value(s: int, e: int, w: (int, int), per_year: int, total: (int, int))
    requires
        w.0 < w.1,
        per_year >= 1,
        total.1 > 0,
        accrue_next(s, e, w, per_year, total) is Ok,
    ensures
        accrue_next(s, e, w, per_year, total)->Ok_0.1 > 0,
        same_value(
            accrue_next(s, e, w, per_year, total)->Ok_0,
            raw_sum(total, (clip_len(s, e, w), per_year * (w.1 - w.0))),
        ),
{
    let d = per_year * (w.1 - w.0);
    assert(d > 0) by (nonlinear_arith)
        requires
            per_year >= 1,
            w.1 - w.0 > 0,
            d == per_year * (w.1 - w.0),
    ;
    let here = (clip_len(s, e, w), d);
    let t = accrue_next(s, e, w, per_year, total)->Ok_0;
    if clip_len(s, e, w) > 0 {
        let lo = if s >= w.0 {
            s
        } else {
            w.0
        };
        let hi = if e <= w.1 {
            e
        } else {
            w.1
        };
        assert(lo < hi && hi - lo == clip_len(s, e, w));
        let sh = crate::fraction::reduce(hi - lo, d);
        assert(coupon_share_of((lo, hi), w, per_year) == Ok::<(int, int), TimeError>(sh));
        lemma_reduce(hi - lo, d);
        assert(sum_of(total, sh) == Some(t));
        lemma_sum_denotes(total, sh);
        lemma_raw_sum_congruent(sh, here, total);
        lemma_raw_sum_commutes(sh, total);
        lemma_raw_sum_commutes(here, total);
        lemma_raw_sum_positive(total, sh);
        lemma_raw_sum_positive(total, here);
        lemma_same_value_trans(t, raw_sum(total, sh), raw_sum(total, here));
    } else {
        assert(t == total);
        assert(total.0 * (total.1 * d) == (total.0 * d + 0 * total.1) * total.1) by (nonlinear_arith);
    }
}

/// A successful walk's total is the starting total plus the walk's
/// shares, up to the value.
proof fn lemma_walk_value(
    rs: int,
    re: int,
    period: Period,
    eom: bool,
    per_year: int,
    s: int,
    e: int,
    i: int,
    total: (int, int),
)
    requires
        grid_ok(rs, re, period),
        per_year >= 1,
        total.1 > 0,
        icma_accrue_from(rs, re, period, eom, per_year, s, e, i, total) is Ok,
    ensures
        icma_accrue_from(rs, re, period, eom, per_year, s, e, i, total)->Ok_0.1 > 0,
        same_value(
            icma_accrue_from(rs, re, period, eom, per_year, s, e, i, total)->Ok_0,
            raw_sum(total, walk_shares(rs, re, period, eom, per_year, s, e, i)),
        ),
    decreases 200001 - i,
{
    lemma_accrue_unfold(rs, re, period, eom, per_year, s, e, i, total);
    let w = icma_window(rs, re, period, eom, i)->Some_0;
    lemma_window_nonempty(rs, re, period, eom, i);
    let here = window_share(rs, re, period, eom, per_year, s, e, i);
    lemma_share_positive(rs, re, period, eom, per_year, s, e, i);
    lemma_next_value(s, e, w, per_year, total);
    let t = accrue_next(s, e, w, per_year, total)->Ok_0;
    let r = icma_accrue_from(rs, re, period, eom, per_year, s, e, i, total)->Ok_0;
    if w.1 < e {
        let rest = walk_shares(rs, re, period, eom, per_year, s, e, i + 1);
        lemma_walk_value(rs, re, period, eom, per_year, s, e, i + 1, t);
        lemma_walk_positive(rs, re, period, eom, per_year, s, e, i + 1);
        lemma_raw_sum_congruent(t, raw_sum(total, here), rest);
        lemma_raw_sum_associative(total, here, rest);
        lemma_raw_sum_positive(t, rest);
        lemma_raw_sum_positive(total, here);
        lemma_raw_sum_positive(raw_sum(total, here), rest);
        lemma_same_value_trans(r, raw_sum(t, rest), raw_sum(raw_sum(total, here), rest));
    }
}

/// A walk that meets windows `i..=j` sums the shares of that range.
proof fn lemma_walk_is_range(
    rs: int,
    re: int,
    period: Period,
    eom: bool,
    per_year: int,
    s: int,
    e: int,
    i: int,
    j: int,
)
    requires
        i <= j < 200001,
        forall|t: int| i <= t <= j ==> #[trigger] icma_window(rs, re, period, eom, t) is Some,
        forall|t: int|
            i <= t < j ==> (#[trigger] icma_window(rs, re, period, eom, t))->Some_0.1 < e,
        icma_window(rs, re, period, eom, j)->Some_0.1 >= e,
    ensures
        walk_shares(rs, re, period, eom, per_year, s, e, i) == range_shares(
            rs,
            re,
            period,
            eom,
            per_year,
            s,
            e,
            i,
            j,
        ),
    decreases j - i,
{
    assert(icma_window(rs, re, period, eom, i) is Some);
    let here = window_share(rs, re, period, eom, per_year, s, e, i);
    if i == j {
        assert(range_shares(rs, re, period, eom, per_year, s, e, i + 1, j) == (0int, 1int));
        assert(raw_sum(here, (0, 1)) == here);
    } else {
        assert(icma_window(rs, re, period, eom, i)->Some_0.1 < e);
        lemma_walk_is_range(rs, re, period, eom, per_year, s, e, i + 1, j);
    }
}

/// Summing a range in two parts.
proof fn lemma_range_split(
    rs: int,
    re: int,
    period: Period,
    eom: bool,
    per_year: int,
    s: int,
    e: int,
    i: int,
    m: int,
    j: int,
)
    requires
        i - 1 <= m <= j,
    ensures
        range_shares(rs, re, period, eom, per_year, s, e, i, j) == raw_sum(
            range_shares(rs, re, period, eom, per_year, s, e, i, m),
            range_shares(rs, re, period, eom, per_year, s, e, m + 1, j),
        ),
    decreases m - i + 1,
{
    let whole = range_shares(rs, re, period, eom, per_year, s, e, i, j);
    if m < i {
        assert(raw_sum((0, 1), whole) == whole);
    } else {
        lemma_range_split(rs, re, period, eom, per_year, s, e, i + 1, m, j);
        lemma_raw_sum_associative(
            window_share(rs, re, period, eom, per_year, s, e, i),
            range_shares(rs, re, period, eom, per_year, s, e, i + 1, m),
            range_shares(rs, re, period, eom, per_year, s, e, m + 1, j),
        );
    }
}

/// A range of windows the span does not meet sums to zero.
proof fn lemma_range_zero(
    rs: int,
    re: int,
    period: Period,
    eom: bool,
    per_year: int,
    s: int,
    e: int,
    i: int,
    j: int,
)
    requires
        grid_ok(rs, re, period),
        per_year >= 1,
        forall|t: int|
            i <= t <= j ==> (#[trigger] window_share(rs, re, period, eom, per_year, s, e, t)).0 == 0,
    ensures
        range_shares(rs, re, period, eom, per_year, s, e, i, j).0 == 0,
    decreases j - i + 1,
{
    if i <= j {
        assert(window_share(rs, re, period, eom, per_year, s, e, i).0 == 0);
        lemma_range_zero(rs, re, period, eom, per_year, s, e, i + 1, j);
    }
}

/// Adding a zero leaves the value.
proof fn lemma_add_zero_value(x: (int, int), z: (int, int))
    requires
        z.0 == 0,
    ensures
        same_value(x, raw_sum(x, z)),
        same_value(x, raw_sum(z, x)),
{
    assert(x.0 * (x.1 * z.1) == (x.0 * z.1 + 0 * x.1) * x.1) by (nonlinear_arith);
    assert(x.0 * (z.1 * x.1) == (0 * x.1 + x.0 * z.1) * x.1) by (nonlinear_arith);
}

/// Zero on either side of a sum changes nothing.
proof fn lemma_zero_sides(x: (int, int))
    ensures
        raw_sum((0, 1), x) == x,
        raw_sum(x, (0, 1)) == x,
{
}

/// Sums of equal values are equal values.
proof fn lemma_congruent_both(x: (int, int), x2: (int, int), y: (int, int), y2: (int, int))
    requires
        x.1 > 0,
        x2.1 > 0,
        y.1 > 0,
        y2.1 > 0,
        same_value(x, x2),
        same_value(y, y2),
    ensures
        same_value(raw_sum(x, y), raw_sum(x2, y2)),
{
    lemma_raw_sum_congruent(x, x2, y);
    lemma_raw_sum_congruent(y, y2, x2);
    lemma_raw_sum_commutes(x2, y);
    lemma_raw_sum_commutes(x2, y2);
    lemma_raw_sum_positive(x, y);
    lemma_raw_sum_positive(x2, y);
    lemma_raw_sum_positive(x2, y2);
    lemma_same_value_trans(raw_sum(x, y), raw_sum(x2, y), raw_sum(x2, y2));
}

/// Regrouping the four terms of a sum of two sums.
proof fn lemma_swap_middle(a: (int, int), b: (int, int), c: (int, int), d: (int, int))
    ensures
        raw_sum(raw_sum(a, b), raw_sum(c, d)) == raw_sum(raw_sum(a, c), raw_sum(b, d)),
{
    lemma_raw_sum_associative(a, b, raw_sum(c, d));
    lemma_raw_sum_associative(b, c, d);
    lemma_raw_sum_commutes(b, c);
    lemma_raw_sum_associative(c, b, d);
    lemma_raw_sum_associative(a, c, raw_sum(b, d));
}

/// Window by window, the shares of `a..b` and `b..c` add up to the
/// share of `a..c`.
proof fn lemma_range_additive(
    rs: int,
    re: int,
    period: Period,
    eom: bool,
    per_year: int,
    a: int,
    b: int,
    c: int,
    i: int,
    j: int,
)
    requires
        grid_ok(rs, re, period),
        per_year >= 1,
        a <= b <= c,
    ensures
        same_value(
            range_shares(rs, re, period, eom, per_year, a, c, i, j),
            raw_sum(
                range_shares(rs, re, period, eom, per_year, a, b, i, j),
                range_shares(rs, re, period, eom, per_year, b, c, i, j),
            ),
        ),
    decreases j - i + 1,
{
    if i <= j {
        let z = window_share(rs, re, period, eom, per_year, a, c, i);
        let x = window_share(rs, re, period, eom, per_year, a, b, i);
        let y = window_share(rs, re, period, eom, per_year, b, c, i);
        let rz = range_shares(rs, re, period, eom, per_year, a, c, i + 1, j);
        let rx = range_shares(rs, re, period, eom, per_year, a, b, i + 1, j);
        let ry = range_shares(rs, re, period, eom, per_year, b, c, i + 1, j);
        lemma_share_positive(rs, re, period, eom, per_year, a, c, i);
        lemma_share_positive(rs, re, period, eom, per_year, a, b, i);
        lemma_share_positive(rs, re, period, eom, per_year, b, c, i);
        lemma_range_positive(rs, re, period, eom, per_year, a, c, i + 1, j);
        lemma_range_positive(rs, re, period, eom, per_year, a, b, i + 1, j);
        lemma_range_positive(rs, re, period, eom, per_year, b, c, i + 1, j);
        assert(z.0 == x.0 + y.0 && z.1 == x.1 && z.1 == y.1);
        let dd = z.1;
        assert((x.0 + y.0) * (dd * dd) == (x.0 * dd + y.0 * dd) * dd) by (nonlinear_arith);
        assert(same_value(z, raw_sum(x, y)));
        lemma_range_additive(rs, re, period, eom, per_year, a, b, c, i + 1, j);
        lemma_raw_sum_positive(x, y);
        lemma_raw_sum_positive(rx, ry);
        lemma_congruent_both(z, raw_sum(x, y), rz, raw_sum(rx, ry));
        lemma_swap_middle(x, y, rx, ry);
        assert(range_shares(rs, re, period, eom, per_year, a, c, i, j) == raw_sum(z, rz));
        assert(range_shares(rs, re, period, eom, per_year, a, b, i, j) == raw_sum(x, rx));
        assert(range_shares(rs, re, period, eom, per_year, b, c, i, j) == raw_sum(y, ry));
    } else {
        lemma_zero_sides((0, 1));
    }
}

/// The first window of a walk from `s`, searched down from `i`: at or
/// below `i`, defined, and starting at or before `s`.
proof fn lemma_first_window(
    rs: int,
    re: int,
    period: Period,
    eom: bool,
    s: int,
    i: int,
)
    requires
        icma_first_window(rs, re, period, eom, s, i) is Some,
    ensures
        icma_first_window(rs, re, period, eom, s, i)->Some_0 <= i,
        icma_window(rs, re, period, eom, icma_first_window(rs, re, period, eom, s, i)->Some_0) is Some,
        icma_window(rs, re, period, eom, icma_first_window(rs, re, period, eom, s, i)->Some_0)->Some_0.0
            <= s,
    decreases i + 200000,
{
    if i > -200000 {
        let w = icma_window(rs, re, period, eom, i)->Some_0;
        if w.0 > s {
            lemma_first_window(rs, re, period, eom, s, i - 1);
        }
    }
}

/// A later date's walk starts at the same window or a later one.
proof fn lemma_first_window_monotone(
    rs: int,
    re: int,
    period: Period,
    eom: bool,
    a: int,
    b: int,
    i: int,
)
    requires
        a < b,
        icma_first_window(rs, re, period, eom, a, i) is Some,
        icma_first_window(rs, re, period, eom, b, i) is Some,
    ensures
        icma_first_window(rs, re, period, eom, a, i)->Some_0 <= icma_first_window(
            rs,
            re,
            period,
            eom,
            b,
            i,
        )->Some_0,
    decreases i + 200000,
{
    lemma_first_window(rs, re, period, eom, a, i);
    if i > -200000 {
        let w = icma_window(rs, re, period, eom, i)->Some_0;
        if w.0 > b {
            lemma_first_window_monotone(rs, re, period, eom, a, b, i - 1);
        }
    }
}


/// Actual/Actual (ICMA) against one reference period is additive: the
/// accruals of `a..b` and `b..c` add up to the accrual of `a..c`, whenever
/// all three stay inside the supported dates and their sums fit.
pub proof fn lemma_icma_split(
    rs: int,
    re: int,
    period: Period,
    eom: bool,
    per_year: int,
    a: int,
    b: int,
    c: int,
)
    requires
        valid_serial(rs),
        valid_serial(re),
        rs < re,
        period.len() > 0,
        per_year >= 1,
        a < b < c,
        icma_accrual(rs, re, period, eom, per_year, a, b) is Ok,
        icma_accrual(rs, re, period, eom, per_year, b, c) is Ok,
        icma_accrual(rs, re, period, eom, per_year, a, c) is Ok,
    ensures
        icma_accrual(rs, re, period, eom, per_year, a, b)->Ok_0.1 > 0,
        icma_accrual(rs, re, period, eom, per_year, b, c)->Ok_0.1 > 0,
        icma_accrual(rs, re, period, eom, per_year, a, c)->Ok_0.1 > 0,
        same_value(
            icma_accrual(rs, re, period, eom, per_year, a, c)->Ok_0,
            raw_sum(
                icma_accrual(rs, re, period, eom, per_year, a, b)->Ok_0,
                icma_accrual(rs, re, period, eom, per_year, b, c)->Ok_0,
            ),
        ),
{
    let zero = (0int, 1int);
    let ia = icma_first_window(rs, re, period, eom, a, 0)->Some_0;
    let ib = icma_first_window(rs, re, period, eom, b, 0)->Some_0;
    lemma_first_window(rs, re, period, eom, a, 0);
    lemma_first_window(rs, re, period, eom, b, 0);
    lemma_first_window_monotone(rs, re, period, eom, a, b, 0);
    let ac = icma_accrual(rs, re, period, eom, per_year, a, c)->Ok_0;
    let ab = icma_accrual(rs, re, period, eom, per_year, a, b)->Ok_0;
    let bc = icma_accrual(rs, re, period, eom, per_year, b, c)->Ok_0;
    assert(icma_accrue_from(rs, re, period, eom, per_year, a, c, ia, zero) == Ok::<
        (int, int),
        TimeError,
    >(ac));
    assert(icma_accrue_from(rs, re, period, eom, per_year, a, b, ia, zero) == Ok::<
        (int, int),
        TimeError,
    >(ab));
    assert(icma_accrue_from(rs, re, period, eom, per_year, b, c, ib, zero) == Ok::<
        (int, int),
        TimeError,
    >(bc));
    let j = lemma_walk_end(rs, re, period, eom, per_year, a, c, ia, zero);
    let j1 = lemma_walk_end(rs, re, period, eom, per_year, a, b, ia, zero);
    let j2 = lemma_walk_end(rs, re, period, eom, per_year, b, c, ib, zero);
    // The walk of a..b ends no later than that of a..c.
    if j1 > j {
        assert(icma_window(rs, re, period, eom, j)->Some_0.1 < b);
    }
    // The walk of b..c starts no later than that of a..c ends.
    if ib > j {
        lemma_windows_ordered(rs, re, period, eom, j, ib);
    }
    // Both walks up to c end at the same window.
    if j2 < j {
        assert(icma_window(rs, re, period, eom, j2)->Some_0.1 < c);
    }
    if j2 > j {
        assert(icma_window(rs, re, period, eom, j)->Some_0.1 < c);
    }
    assert(j2 == j);
    lemma_walk_value(rs, re, period, eom, per_year, a, c, ia, zero);
    lemma_walk_value(rs, re, period, eom, per_year, a, b, ia, zero);
    lemma_walk_value(rs, re, period, eom, per_year, b, c, ib, zero);
    lemma_walk_is_range(rs, re, period, eom, per_year, a, c, ia, j);
    lemma_walk_is_range(rs, re, period, eom, per_year, a, b, ia, j1);
    lemma_walk_is_range(rs, re, period, eom, per_year, b, c, ib, j);
    let r_ac = range_shares(rs, re, period, eom, per_year, a, c, ia, j);
    let r_ab = range_shares(rs, re, period, eom, per_year, a, b, ia, j);
    let r_bc = range_shares(rs, re, period, eom, per_year, b, c, ia, j);
    let w_ab = range_shares(rs, re, period, eom, per_year, a, b, ia, j1);
    let w_bc = range_shares(rs, re, period, eom, per_year, b, c, ib, j);
    lemma_zero_sides(r_ac);
    lemma_zero_sides(w_ab);
    lemma_zero_sides(w_bc);
    lemma_range_additive(rs, re, period, eom, per_year, a, b, c, ia, j);
    // Past the end of the walk of a..b, a..b meets no window.
    lemma_range_split(rs, re, period, eom, per_year, a, b, ia, j1, j);
    assert forall|t: int| j1 + 1 <= t <= j implies (#[trigger] window_share(
        rs,
        re,
        period,
        eom,
        per_year,
        a,
        b,
        t,
    )).0 == 0 by {
        assert(icma_window(rs, re, period, eom, t) is Some);
        lemma_windows_ordered(rs, re, period, eom, j1, t);
    }
    lemma_range_zero(rs, re, period, eom, per_year, a, b, j1 + 1, j);
    let tail = range_shares(rs, re, period, eom, per_year, a, b, j1 + 1, j);
    lemma_add_zero_value(w_ab, tail);
    // Before the start of the walk of b..c, b..c meets no window.
    lemma_range_split(rs, re, period, eom, per_year, b, c, ia, ib - 1, j);
    assert forall|t: int| ia <= t <= ib - 1 implies (#[trigger] window_share(
        rs,
        re,
        period,
        eom,
        per_year,
        b,
        c,
        t,
    )).0 == 0 by {
        assert(icma_window(rs, re, period, eom, t) is Some);
        lemma_windows_ordered(rs, re, period, eom, t, ib);
    }
    lemma_range_zero(rs, re, period, eom, per_year, b, c, ia, ib - 1);
    let head = range_shares(rs, re, period, eom, per_year, b, c, ia, ib - 1);
    lemma_add_zero_value(w_bc, head);
    // Chain the values.
    lemma_range_positive(rs, re, period, eom, per_year, a, c, ia, j);
    lemma_range_positive(rs, re, period, eom, per_year, a, b, ia, j);
    lemma_range_positive(rs, re, period, eom, per_year, b, c, ia, j);
    lemma_range_positive(rs, re, period, eom, per_year, a, b, ia, j1);
    lemma_range_positive(rs, re, period, eom, per_year, b, c, ib, j);
    lemma_range_positive(rs, re, period, eom, per_year, a, b, j1 + 1, j);
    lemma_range_positive(rs, re, period, eom, per_year, b, c, ia, ib - 1);
    lemma_same_value_trans(ab, w_ab, r_ab);
    lemma_same_value_trans(bc, w_bc, r_bc);
    lemma_congruent_both(r_ab, ab, r_bc, bc);
    lemma_raw_sum_positive(r_ab, r_bc);
    lemma_raw_sum_positive(ab, bc);
    lemma_same_value_trans(ac, r_ac, raw_sum(r_ab, r_bc));
    lemma_same_value_trans(ac, raw_sum(r_ab, r_bc), raw_sum(ab, bc));
}


/// A successful accrual has a positive denominator.
proof fn lemma_accrual_positive(
    rs: int,
    re: int,
    period: Period,
    eom: bool,
    per_year: int,
    s: int,
    e: int,
)
    requires
        grid_ok(rs, re, period),
        per_year >= 1,
        icma_accrual(rs, re, period, eom, per_year, s, e) is Ok,
    ensures
        icma_accrual(rs, re, period, eom, per_year, s, e)->Ok_0.1 > 0,
{
    let i = icma_first_window(rs, re, period, eom, s, 0)->Some_0;
    lemma_walk_value(rs, re, period, eom, per_year, s, e, i, (0, 1));
}

// ---- Coupon periods of a schedule ---------------------------------------

/// Coupon dates and reference dates of one length, at least two, both
/// strictly increasing, all of them valid.
pub open spec fn schedule_ok(dates: Seq<int>, refs: Seq<int>) -> bool {
    &&& dates.len() >= 2
    &&& refs.len() == dates.len()
    &&& increasing(dates)
    &&& increasing(refs)
    &&& forall|i: int| 0 <= i < dates.len() ==> valid_serial(#[trigger] dates[i])
    &&& forall|i: int| 0 <= i < refs.len() ==> valid_serial(#[trigger] refs[i])
}

/// The part of `s..e` in coupon period `k`, as its two ends.
pub open spec fn period_part(dates: Seq<int>, s: int, e: int, k: int) -> (int, int) {
    (if s >= dates[k] {
        s
    } else {
        dates[k]
    }, if e <= dates[k + 1] {
        e
    } else {
        dates[k + 1]
    })
}

/// `true` iff `s..e` stops before coupon period `k`.
pub open spec fn periods_done(dates: Seq<int>, e: int, k: int) -> bool {
    k < 0 || k + 1 >= dates.len() || dates[k] >= e
}

/// The accrual of coupon period `k`'s part of `s..e` against its
/// reference dates; zero for an empty part or a failed accrual.
pub open spec fn period_accrual(
    dates: Seq<int>,
    refs: Seq<int>,
    period: Period,
    eom: bool,
    per_year: int,
    s: int,
    e: int,
    k: int,
) -> (int, int) {
    let part = period_part(dates, s, e, k);
    if part.0 < part.1 {
        match icma_accrual(refs[k], refs[k + 1], period, eom, per_year, part.0, part.1) {
            Ok(p) => p,
            Err(_) => (0, 1),
        }
    } else {
        (0, 1)
    }
}

/// The unreduced sum of the period accruals of `s..e` from period `k` on.
pub open spec fn periods_sum(
    dates: Seq<int>,
    refs: Seq<int>,
    period: Period,
    eom: bool,
    per_year: int,
    s: int,
    e: int,
    k: int,
) -> (int, int)
    decreases dates.len() - k,
{
    if periods_done(dates, e, k) {
        (0, 1)
    } else {
        raw_sum(
            period_accrual(dates, refs, period, eom, per_year, s, e, k),
            periods_sum(dates, refs, period, eom, per_year, s, e, k + 1),
        )
    }
}

/// `true` iff every nonempty part of `s..e` from period `k` on accrues
/// without failing.
pub open spec fn periods_accrue(
    dates: Seq<int>,
    refs: Seq<int>,
    period: Period,
    eom: bool,
    per_year: int,
    s: int,
    e: int,
    k: int,
) -> bool
    decreases dates.len() - k,
{
    if periods_done(dates, e, k) {
        true
    } else {
        let part = period_part(dates, s, e, k);
        &&& part.0 < part.1 ==> icma_accrual(
            refs[k],
            refs[k + 1],
            period,
            eom,
            per_year,
            part.0,
            part.1,
        ) is Ok
        &&& periods_accrue(dates, refs, period, eom, per_year, s, e, k + 1)
    }
}

/// `true` iff the bound accrual of `s..e` from period `k` and running total
/// `total` never falls back to zero: every nonempty part accrues and every
/// running sum fits.
pub open spec fn bound_exact(
    dates: Seq<int>,
    refs: Seq<int>,
    period: Period,
    eom: bool,
    per_year: int,
    s: int,
    e: int,
    k: int,
    total: (int, int),
) -> bool
    decreases dates.len() - k,
{
    if periods_done(dates, e, k) {
        true
    } else {
        let part = period_part(dates, s, e, k);
        if part.0 < part.1 {
            match icma_accrual(refs[k], refs[k + 1], period, eom, per_year, part.0, part.1) {
                Err(_) => false,
                Ok(p) => match sum_of(total, p) {
                    None => false,
                    Some(t) => bound_exact(dates, refs, period, eom, per_year, s, e, k + 1, t),
                },
            }
        } else {
            bound_exact(dates, refs, period, eom, per_year, s, e, k + 1, total)
        }
    }
}

/// Each coupon period's reference dates make a grid.
proof fn lemma_period_grid(dates: Seq<int>, refs: Seq<int>, period: Period, k: int)
    requires
        schedule_ok(dates, refs),
        period.len() > 0,
        0 <= k,
        k + 1 < dates.len(),
    ensures
        grid_ok(refs[k], refs[k + 1], period),
{
    assert(valid_serial(refs[k]));
    assert(valid_serial(refs[k + 1]));
    assert(refs[k] < refs[k + 1]);
}

/// Period accruals have positive denominators.
proof fn lemma_period_positive(
    dates: Seq<int>,
    refs: Seq<int>,
    period: Period,
    eom: bool,
    per_year: int,
    s: int,
    e: int,
    k: int,
)
    requires
        schedule_ok(dates, refs),
        period.len() > 0,
        per_year >= 1,
        0 <= k,
        k + 1 < dates.len(),
    ensures
        period_accrual(dates, refs, period, eom, per_year, s, e, k).1 > 0,
{
    let part = period_part(dates, s, e, k);
    if part.0 < part.1 && icma_accrual(
        refs[k],
        refs[k + 1],
        period,
        eom,
        per_year,
        part.0,
        part.1,
    ) is Ok {
        lemma_period_grid(dates, refs, period, k);
        lemma_accrual_positive(refs[k], refs[k + 1], period, eom, per_year, part.0, part.1);
    }
}

/// Sums of period accruals have positive denominators.
proof fn lemma_periods_positive(
    dates: Seq<int>,
    refs: Seq<int>,
    period: Period,
    eom: bool,
    per_year: int,
    s: int,
    e: int,
    k: int,
)
    requires
        schedule_ok(dates, refs),
        period.len() > 0,
        per_year >= 1,
    ensures
        periods_sum(dates, refs, period, eom, per_year, s, e, k).1 > 0,
    decreases dates.len() - k,
{
    if !periods_done(dates, e, k) {
        lemma_period_positive(dates, refs, period, eom, per_year, s, e, k);
        lemma_periods_positive(dates, refs, period, eom, per_year, s, e, k + 1);
        lemma_raw_sum_positive(
            period_accrual(dates, refs, period, eom, per_year, s, e, k),
            periods_sum(dates, refs, period, eom, per_year, s, e, k + 1),
        );
    }
}

/// Without a fallback, the bound accrual is the running total plus the
/// period accruals, up to the value, and stays reduced.
proof fn lemma_bound_value(
    dates: Seq<int>,
    refs: Seq<int>,
    period: Period,
    eom: bool,
    per_year: int,
    s: int,
    e: int,
    k: int,
    total: (int, int),
)
    requires
        schedule_ok(dates, refs),
        period.len() > 0,
        per_year >= 1,
        is_reduced(total.0, total.1),
        bound_exact(dates, refs, period, eom, per_year, s, e, k, total),
    ensures
        is_reduced(
            bound_total(dates, refs, period, eom, per_year, s, e, k, total).0,
            bound_total(dates, refs, period, eom, per_year, s, e, k, total).1,
        ),
        same_value(
            bound_total(dates, refs, period, eom, per_year, s, e, k, total),
            raw_sum(total, periods_sum(dates, refs, period, eom, per_year, s, e, k)),
        ),
        periods_accrue(dates, refs, period, eom, per_year, s, e, k),
    decreases dates.len() - k,
{
    let r = bound_total(dates, refs, period, eom, per_year, s, e, k, total);
    if periods_done(dates, e, k) {
        lemma_zero_sides(total);
    } else {
        let part = period_part(dates, s, e, k);
        let x = period_accrual(dates, refs, period, eom, per_year, s, e, k);
        let rest = periods_sum(dates, refs, period, eom, per_year, s, e, k + 1);
        lemma_periods_positive(dates, refs, period, eom, per_year, s, e, k + 1);
        lemma_period_positive(dates, refs, period, eom, per_year, s, e, k);
        if part.0 < part.1 {
            let t = sum_of(total, x)->Some_0;
            lemma_sum_denotes(total, x);
            lemma_bound_value(dates, refs, period, eom, per_year, s, e, k + 1, t);
            assert(r == bound_total(dates, refs, period, eom, per_year, s, e, k + 1, t));
            lemma_raw_sum_congruent(t, raw_sum(total, x), rest);
            lemma_raw_sum_associative(total, x, rest);
            lemma_raw_sum_positive(t, rest);
            lemma_raw_sum_positive(total, x);
            lemma_raw_sum_positive(raw_sum(total, x), rest);
            lemma_same_value_trans(r, raw_sum(t, rest), raw_sum(raw_sum(total, x), rest));
        } else {
            lemma_bound_value(dates, refs, period, eom, per_year, s, e, k + 1, total);
            lemma_zero_sides(rest);
            assert(r == bound_total(dates, refs, period, eom, per_year, s, e, k + 1, total));
        }
    }
}


/// Period by period, the accruals of `a..b` and `b..c` add up to the
/// accrual of `a..c`, whenever none of the three fails.
proof fn lemma_periods_additive(
    dates: Seq<int>,
    refs: Seq<int>,
    period: Period,
    eom: bool,
    per_year: int,
    a: int,
    b: int,
    c: int,
    k: int,
)
    requires
        schedule_ok(dates, refs),
        period.len() > 0,
        per_year >= 1,
        a < b < c,
        0 <= k,
        periods_accrue(dates, refs, period, eom, per_year, a, b, k),
        periods_accrue(dates, refs, period, eom, per_year, b, c, k),
        periods_accrue(dates, refs, period, eom, per_year, a, c, k),
    ensures
        same_value(
            periods_sum(dates, refs, period, eom, per_year, a, c, k),
            raw_sum(
                periods_sum(dates, refs, period, eom, per_year, a, b, k),
                periods_sum(dates, refs, period, eom, per_year, b, c, k),
            ),
        ),
    decreases dates.len() - k,
{
    let zero = (0int, 1int);
    let sac = periods_sum(dates, refs, period, eom, per_year, a, c, k);
    let sab = periods_sum(dates, refs, period, eom, per_year, a, b, k);
    let sbc = periods_sum(dates, refs, period, eom, per_year, b, c, k);
    if periods_done(dates, c, k) {
        assert(periods_done(dates, b, k));
        lemma_zero_sides(zero);
    } else {
        let rac = periods_sum(dates, refs, period, eom, per_year, a, c, k + 1);
        let rab = periods_sum(dates, refs, period, eom, per_year, a, b, k + 1);
        let rbc = periods_sum(dates, refs, period, eom, per_year, b, c, k + 1);
        let xac = period_accrual(dates, refs, period, eom, per_year, a, c, k);
        let xab = period_accrual(dates, refs, period, eom, per_year, a, b, k);
        let xbc = period_accrual(dates, refs, period, eom, per_year, b, c, k);
        lemma_periods_positive(dates, refs, period, eom, per_year, a, c, k + 1);
        lemma_periods_positive(dates, refs, period, eom, per_year, a, b, k + 1);
        lemma_periods_positive(dates, refs, period, eom, per_year, b, c, k + 1);
        lemma_period_positive(dates, refs, period, eom, per_year, a, c, k);
        lemma_period_positive(dates, refs, period, eom, per_year, a, b, k);
        lemma_period_positive(dates, refs, period, eom, per_year, b, c, k);
        lemma_periods_positive(dates, refs, period, eom, per_year, b, c, k);
        lemma_raw_sum_positive(rab, rbc);
        if dates[k] >= b {
            // a..b has ended; a..c and b..c share this period's part.
            assert(sab == zero);
            assert(xac == xbc);
            if k + 2 < dates.len() {
                assert(dates[k] < dates[k + 1]);
            }
            assert(rab == zero);
            lemma_periods_additive(dates, refs, period, eom, per_year, a, b, c, k + 1);
            lemma_zero_sides(rbc);
            lemma_zero_sides(sbc);
            lemma_congruent_both(xac, xbc, rac, rbc);
        } else if dates[k + 1] <= b {
            // b..c has not begun; a..b and a..c share this period's part.
            assert(xab == xac);
            assert(xbc == zero);
            lemma_periods_additive(dates, refs, period, eom, per_year, a, b, c, k + 1);
            lemma_zero_sides(rbc);
            assert(sbc == rbc);
            lemma_congruent_both(xac, xab, rac, raw_sum(rab, rbc));
            lemma_raw_sum_associative(xab, rab, rbc);
        } else {
            // The split falls inside this period.
            let part = period_part(dates, a, c, k);
            lemma_period_grid(dates, refs, period, k);
            lemma_icma_split(refs[k], refs[k + 1], period, eom, per_year, part.0, b, part.1);
            lemma_periods_additive(dates, refs, period, eom, per_year, a, b, c, k + 1);
            lemma_raw_sum_positive(xab, xbc);
            lemma_congruent_both(xac, raw_sum(xab, xbc), rac, raw_sum(rab, rbc));
            lemma_swap_middle(xab, xbc, rab, rbc);
        }
    }
}

/// Actual/Actual (ICMA) bound to a schedule is additive across any split
/// of the schedule's span: for `a < b < c` inside it, the bound fractions
/// of `a..b` and `b..c` add up to that of `a..c`, whenever none of the
/// three accruals falls back to zero (a notional window leaving the
/// supported dates, or a running sum that does not fit); and adding the
/// two fractions, where the sum fits, gives exactly the third.
pub proof fn lemma_bound_icma_additive(
    dates: Seq<int>,
    refs: Seq<int>,
    period: Period,
    eom: bool,
    per_year: int,
    a: int,
    b: int,
    c: int,
)
    requires
        schedule_ok(dates, refs),
        period.len() > 0,
        per_year >= 1,
        dates[0] <= a < b < c <= dates[dates.len() - 1],
        bound_exact(dates, refs, period, eom, per_year, a, b, 0, (0, 1)),
        bound_exact(dates, refs, period, eom, per_year, b, c, 0, (0, 1)),
        bound_exact(dates, refs, period, eom, per_year, a, c, 0, (0, 1)),
    ensures
        same_value(
            bound_ordered(dates, refs, period, eom, per_year, a, c),
            raw_sum(
                bound_ordered(dates, refs, period, eom, per_year, a, b),
                bound_ordered(dates, refs, period, eom, per_year, b, c),
            ),
        ),
        sum_of(
            bound_ordered(dates, refs, period, eom, per_year, a, b),
            bound_ordered(dates, refs, period, eom, per_year, b, c),
        ) is Some ==> sum_of(
            bound_ordered(dates, refs, period, eom, per_year, a, b),
            bound_ordered(dates, refs, period, eom, per_year, b, c),
        ) == Some(bound_ordered(dates, refs, period, eom, per_year, a, c)),
{
    let zero = (0int, 1int);
    assert(is_reduced(0, 1)) by {
        assert(crate::fraction::gcd(0, 1) == 1) by {
            reveal_with_fuel(crate::fraction::gcd, 2);
        }
    }
    let ac = bound_ordered(dates, refs, period, eom, per_year, a, c);
    let ab = bound_ordered(dates, refs, period, eom, per_year, a, b);
    let bc = bound_ordered(dates, refs, period, eom, per_year, b, c);
    assert(ac == bound_total(dates, refs, period, eom, per_year, a, c, 0, zero));
    assert(ab == bound_total(dates, refs, period, eom, per_year, a, b, 0, zero));
    assert(bc == bound_total(dates, refs, period, eom, per_year, b, c, 0, zero));
    lemma_bound_value(dates, refs, period, eom, per_year, a, c, 0, zero);
    lemma_bound_value(dates, refs, period, eom, per_year, a, b, 0, zero);
    lemma_bound_value(dates, refs, period, eom, per_year, b, c, 0, zero);
    let sac = periods_sum(dates, refs, period, eom, per_year, a, c, 0);
    let sab = periods_sum(dates, refs, period, eom, per_year, a, b, 0);
    let sbc = periods_sum(dates, refs, period, eom, per_year, b, c, 0);
    lemma_zero_sides(sac);
    lemma_zero_sides(sab);
    lemma_zero_sides(sbc);
    lemma_periods_positive(dates, refs, period, eom, per_year, a, c, 0);
    lemma_periods_positive(dates, refs, period, eom, per_year, a, b, 0);
    lemma_periods_positive(dates, refs, period, eom, per_year, b, c, 0);
    lemma_periods_additive(dates, refs, period, eom, per_year, a, b, c, 0);
    lemma_congruent_both(sab, ab, sbc, bc);
    lemma_raw_sum_positive(sab, sbc);
    lemma_raw_sum_positive(ab, bc);
    lemma_same_value_trans(ac, sac, raw_sum(sab, sbc));
    lemma_same_value_trans(ac, raw_sum(sab, sbc), raw_sum(ab, bc));
    if sum_of(ab, bc) is Some {
        let r = sum_of(ab, bc)->Some_0;
        lemma_sum_denotes(ab, bc);
        assert(same_value(raw_sum(ab, bc), ac));
        lemma_same_value_trans(r, raw_sum(ab, bc), ac);
        lemma_reduced_unique(r.0, r.1, ac.0, ac.1);
    }
}


// ---- Signs of accruals --------------------------------------------------

/// A reduced pair that is not negative: what every accrual of an ordered
/// span is.
pub open spec fn nonneg_reduced(p: (int, int)) -> bool {
    p.0 >= 0 && is_reduced(p.0, p.1)
}

/// Zero, `0 / 1`, is reduced.
pub proof fn lemma_zero_reduced()
    ensures
        nonneg_reduced((0, 1)),
{
    reveal_with_fuel(crate::fraction::gcd, 2);
}

/// A successful sum of two non-negative reduced pairs is one too.
proof fn lemma_sum_nonneg(a: (int, int), b: (int, int))
    requires
        nonneg_reduced(a),
        nonneg_reduced(b),
        sum_of(a, b) is Some,
    ensures
        nonneg_reduced(sum_of(a, b)->Some_0),
{
    lemma_sum_denotes(a, b);
    let n = a.0 * b.1 + b.0 * a.1;
    assert(n >= 0) by (nonlinear_arith)
        requires
            a.0 >= 0,
            b.0 >= 0,
            a.1 > 0,
            b.1 > 0,
            n == a.0 * b.1 + b.0 * a.1,
    ;
    lemma_reduce(n, a.1 * b.1);
}

/// A successful accrual walk from a non-negative reduced total ends on one.
proof fn lemma_accrue_nonneg(
    rs: int,
    re: int,
    period: Period,
    eom: bool,
    per_year: int,
    s: int,
    e: int,
    i: int,
    total: (int, int),
)
    requires
        per_year >= 1,
        nonneg_reduced(total),
        icma_accrue_from(rs, re, period, eom, per_year, s, e, i, total) is Ok,
    ensures
        nonneg_reduced(icma_accrue_from(rs, re, period, eom, per_year, s, e, i, total)->Ok_0),
    decreases 200001 - i,
{
    lemma_accrue_unfold(rs, re, period, eom, per_year, s, e, i, total);
    let w = icma_window(rs, re, period, eom, i)->Some_0;
    let t = accrue_next(s, e, w, per_year, total)->Ok_0;
    let lo = if s >= w.0 {
        s
    } else {
        w.0
    };
    let hi = if e <= w.1 {
        e
    } else {
        w.1
    };
    if lo < hi {
        let d = per_year * (w.1 - w.0);
        assert(d > 0) by (nonlinear_arith)
            requires
                per_year >= 1,
                w.1 - w.0 >= 0,
                d == per_year * (w.1 - w.0),
                d != 0,
        ;
        let sh = crate::fraction::reduce(hi - lo, d);
        lemma_reduce(hi - lo, d);
        lemma_sum_nonneg(total, sh);
    }
    if w.1 < e {
        lemma_accrue_nonneg(rs, re, period, eom, per_year, s, e, i + 1, t);
    }
}

/// A successful accrual is non-negative and reduced.
proof fn lemma_accrual_nonneg(
    rs: int,
    re: int,
    period: Period,
    eom: bool,
    per_year: int,
    s: int,
    e: int,
)
    requires
        per_year >= 1,
        icma_accrual(rs, re, period, eom, per_year, s, e) is Ok,
    ensures
        nonneg_reduced(icma_accrual(rs, re, period, eom, per_year, s, e)->Ok_0),
{
    lemma_zero_reduced();
    let i = icma_first_window(rs, re, period, eom, s, 0)->Some_0;
    lemma_accrue_nonneg(rs, re, period, eom, per_year, s, e, i, (0, 1));
}

/// The bound accrual from a non-negative reduced total is one too.
proof fn lemma_bound_total_nonneg(
    dates: Seq<int>,
    refs: Seq<int>,
    period: Period,
    eom: bool,
    per_year: int,
    s: int,
    e: int,
    k: int,
    total: (int, int),
)
    requires
        per_year >= 1,
        nonneg_reduced(total),
    ensures
        nonneg_reduced(bound_total(dates, refs, period, eom, per_year, s, e, k, total)),
    decreases dates.len() - k,
{
    if !periods_done(dates, e, k) {
        lemma_zero_reduced();
        let part = period_part(dates, s, e, k);
        let x = period_accrual(dates, refs, period, eom, per_year, s, e, k);
        if part.0 < part.1 {
            if icma_accrual(refs[k], refs[k + 1], period, eom, per_year, part.0, part.1) is Ok {
                lemma_accrual_nonneg(refs[k], refs[k + 1], period, eom, per_year, part.0, part.1);
            }
            if sum_of(total, x) is Some {
                lemma_sum_nonneg(total, x);
            }
            let t = match sum_of(total, x) {
                Some(t) => t,
                None => (0int, 1int),
            };
            lemma_bound_total_nonneg(dates, refs, period, eom, per_year, s, e, k + 1, t);
        } else {
            lemma_bound_total_nonneg(dates, refs, period, eom, per_year, s, e, k + 1, total);
        }
    }
}

/// The bound fraction of an ordered span is reduced and never negative,
/// so it always has a negation.
pub proof fn lemma_bound_ordered_nonneg(
    dates: Seq<int>,
    refs: Seq<int>,
    period: Period,
    eom: bool,
    per_year: int,
    s: int,
    e: int,
)
    requires
        per_year >= 1,
    ensures
        nonneg_reduced(bound_ordered(dates, refs, period, eom, per_year, s, e)),
{
    lemma_zero_reduced();
    let first = dates[0];
    let last = dates[dates.len() - 1];
    let lo = if s >= first {
        s
    } else {
        first
    };
    let hi = if e <= last {
        e
    } else {
        last
    };
    lemma_bound_total_nonneg(dates, refs, period, eom, per_year, lo, hi, 0, (0, 1));
}

} // verus!
