//! [`Span`]: a half-open date interval `start..end`.

use vstd::prelude::*;

use core::ops::Range;

use crate::date::Date;

verus! {

/// A half-open date interval: `start` is included, `end` excluded.
#[derive(Debug, Clone, Copy, PartialEq, Eq, Hash, Structural)]
pub struct Span {
    /// First day of the span.
    pub start: Date,
    /// First day after the span.
    pub end: Date,
}

impl Span {
    /// The span `start..end`.
    pub fn new(start: Date, end: Date) -> (r: Span)
        ensures
            r.start == start && r.end == end,
    {
        Span { start, end }
    }

    /// Number of days in the span; negative when `end` precedes `start`.
    pub fn days(self) -> (r: i64)
        ensures
            r == self.end@ - self.start@,
    {
        self.end.days_since(self.start) as i64
    }

    /// `true` iff `date` lies in `start..end`.
    pub fn contains(&self, date: &Date) -> (r: bool)
        ensures
            r == (self.start@ <= date@ < self.end@),
    {
        self.start.serial() <= date.serial() && date.serial() < self.end.serial()
    }

    /// The days both spans share, or `None` when they share none.
    pub fn intersect(self, other: Span) -> (r: Option<Span>)
        ensures
            ({
                let lo = if self.start@ >= other.start@ { self.start } else { other.start };
                let hi = if self.end@ <= other.end@ { self.end } else { other.end };
                if lo@ < hi@ { r == Some(Span { start: lo, end: hi }) } else { r is None }
            }),
    {
        let start = if self.start.serial() >= other.start.serial() {
            self.start
        } else {
            other.start
        };
        let end = if self.end.serial() <= other.end.serial() {
            self.end
        } else {
            other.end
        };
        if start.serial() < end.serial() {
            Some(Span { start, end })
        } else {
            None
        }
    }
}

impl From<Range<Date>> for Span {
    fn from(range: Range<Date>) -> (r: Span) {
        Span { start: range.start, end: range.end }
    }
}

impl vstd::std_specs::convert::FromSpecImpl<Range<Date>> for Span {
    open spec fn obeys_from_spec() -> bool {
        true
    }

    open spec fn from_spec(range: Range<Date>) -> Span {
        Span { start: range.start, end: range.end }
    }
}

impl From<Span> for Range<Date> {
    fn from(span: Span) -> (r: Range<Date>) {
        span.start..span.end
    }
}

impl vstd::std_specs::convert::FromSpecImpl<Span> for Range<Date> {
    open spec fn obeys_from_spec() -> bool {
        true
    }

    open spec fn from_spec(span: Span) -> Range<Date> {
        Range { start: span.start, end: span.end }
    }
}

} // verus!
