//! The BGG XML API: the collection request, how its answers are handled,
//! and turning the parsed XML into collection items.

pub mod client;
pub mod collection;
pub mod parse;
