//! The `list` table: filtering, sorting, columns and layout.

pub mod filter;
pub mod sort;
pub mod rows;
pub mod render;
pub mod columns;
