//! Definitions: tables, indices and triggers.

pub mod index;
pub mod table;
pub mod trigger;
