//! The schema model, records, values and the expression language.

pub mod defs;
pub mod expr;
pub mod inline_pointer;
pub mod named;
pub mod query;
pub mod record;
pub mod ty;
pub mod value;
