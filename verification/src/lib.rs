//! Verified core of a BoardGameGeek collection tool: the collection model,
//! cache merging, list filtering, sorting and column layout, collection
//! statistics, and the small parsers around the BGG API and local config.

pub mod text;
pub mod error;
pub mod model;
pub mod paths;
pub mod clock;
pub mod auth;
pub mod bgg;
pub mod cache;
pub mod cli;
pub mod config;
pub mod list;
pub mod cmd;
pub mod stats;
