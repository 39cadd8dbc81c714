//! Collection statistics: the overview and the deep dives.

pub mod agree;
pub mod common;
pub mod rank;
pub mod render;
pub mod report;
pub mod ratings;
pub mod owned;
pub mod players;
pub mod plays;
pub mod tally;
pub mod time;
pub mod year;
