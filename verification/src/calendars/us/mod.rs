//! United States calendars: settlement, Federal Reserve, NYSE, government
//! bond market, SOFR fixing and NERC, each over a Saturday/Sunday weekend.

mod federal_reserve;
mod government_bond;
mod nerc;
mod nyse;
mod settlement;
mod sofr;

pub use federal_reserve::federal_reserve;
pub use government_bond::{good_friday_post_1996, good_friday_post_1996_holds, government_bond};
pub use nerc::nerc;
pub use nyse::{
    election_day, election_day_holds, nyse, paperwork_crisis_1968, paperwork_crisis_1968_holds,
};
pub use settlement::settlement;
pub use sofr::sofr;
