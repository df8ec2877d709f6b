//! Dates, calendars, business-day conventions, and day-count fractions,
//! with every operation stated and proved against an integer model.

mod business_day;
mod calendar;
mod chrono_interop;
mod chrono_types;
pub mod calendars;
mod date;
mod date_order;
mod daycount;
mod easter;
mod error;
mod fraction;
mod period;
mod rules;
mod schedule;
mod span;
mod text;
mod weekend;
mod year_range;
mod accrual_split;

pub use business_day::BusinessDayConvention;
pub use calendar::{Calendar, CalendarBuilder};
pub use date::{Date, Month, Ordinal, Weekday, Year};
pub use daycount::{
    Act360, Act365Fixed, ActActICMA, ActActISDA, BoundActActICMA, DayCount, Thirty360Bond, Thirty360European, Thirty360ISDA,
    Thirty360US,
};
pub use easter::{easter_monday, easter_sunday, EasterMethod};
pub use error::TimeError;
pub use fraction::Fraction;
pub use period::{Frequency, Period};
pub use rules::{
    CustomRule, EasterOffset, FixedDate, LastWeekday, NthWeekday, OneOff, Rule, WeekendShift,
};
pub use schedule::{
    BdcAdjuster, DateGenerationRule, Direction, Generation, Generator, Schedule, ScheduleBuilder,
    Stepper, Walk,
};
pub use span::Span;
pub use weekend::Weekend;
pub use year_range::YearRange;
