//! The decisions behind the commands.

pub mod auth;
pub mod list;
pub mod status;
pub mod sync;
