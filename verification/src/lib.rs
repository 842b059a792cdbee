//! An embedded record store with schemas defined at run time.
//!
//! * [`bytepack`] is the binary codec: values are packed into a byte buffer
//!   with a fixed region of statically known offsets and an append-only
//!   dynamic region reached through eight-byte pointers.
//! * [`db_core`] holds the schema model, records, values and the typed
//!   expression language.
//! * [`db`] is the record store itself: tables, secondary indices, triggers
//!   and queries.
//! * [`query_parse`] reads the textual query language.

pub mod bytepack;
pub mod db;
pub mod db_core;
pub mod names;
pub mod query_parse;
