//! France calendars: settlement and the Paris exchange. French holidays
//! are observed on their natural date; one falling on a weekend is lost.

mod exchange;
mod settlement;

pub use exchange::exchange;
pub use settlement::settlement;
