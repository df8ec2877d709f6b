//! The order of dates: earlier dates come first, which is the order of
//! their serials and of their (year, month, day) parts.

use vstd::prelude::*;

use core::cmp::Ordering;
use vstd::std_specs::cmp::{PartialOrdSpec, PartialOrdSpecImpl};

use crate::date::{lemma_serial_order_is_calendar_order, lemma_ymd_of, valid_serial, ymd_of, Date};

verus! {

/// The order of two serials.
pub open spec fn serial_order(a: int, b: int) -> Ordering {
    if a < b {
        Ordering::Less
    } else if a == b {
        Ordering::Equal
    } else {
        Ordering::Greater
    }
}

impl PartialOrd for Date {
    fn partial_cmp(&self, other: &Date) -> (r: Option<Ordering>) {
        let a = self.serial();
        let b = other.serial();
        if a < b {
            Some(Ordering::Less)
        } else if a == b {
            Some(Ordering::Equal)
        } else {
            Some(Ordering::Greater)
        }
    }
}

impl PartialOrdSpecImpl for Date {
    open spec fn obeys_partial_cmp_spec() -> bool {
        true
    }

    open spec fn partial_cmp_spec(&self, other: &Date) -> Option<Ordering> {
        Some(serial_order(self@, other@))
    }
}

/// Dates are ordered by their serials, and so by their (year, month, day)
/// parts lexicographically: `a < b` exactly when `a` falls on an earlier
/// day.
pub proof fn lemma_date_order(a: Date, b: Date)
    requires
        valid_serial(a@),
        valid_serial(b@),
    ensures
        (PartialOrdSpec::partial_cmp_spec(&a, &b) == Some(Ordering::Less)) <==> a@ < b@,
        (PartialOrdSpec::partial_cmp_spec(&a, &b) == Some(Ordering::Equal)) <==> a@ == b@,
        (PartialOrdSpec::partial_cmp_spec(&a, &b) == Some(Ordering::Greater)) <==> a@ > b@,
        a@ < b@ <==> (ymd_of(a@).0 < ymd_of(b@).0 || (ymd_of(a@).0 == ymd_of(b@).0 && (ymd_of(a@).1
            < ymd_of(b@).1 || (ymd_of(a@).1 == ymd_of(b@).1 && ymd_of(a@).2 < ymd_of(b@).2)))),
{
    lemma_ymd_of(a@);
    lemma_ymd_of(b@);
    let t = ymd_of(a@);
    let u = ymd_of(b@);
    lemma_serial_order_is_calendar_order(t.0, t.1, t.2, u.0, u.1, u.2);
}

} // verus!
