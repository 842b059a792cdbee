//! The record store: tables, their records, the indices kept over them,
//! and queries.

pub mod cascade;
pub mod entries;
pub mod error;
pub mod field_type;
pub mod index_ext;
pub mod laws;
pub mod query_ext;
pub mod record_ext;
pub mod rows;
pub mod stored;
pub mod table;
pub mod table_ext;
pub mod tables;
pub mod trigger_laws;

pub use error::{DbError, RegisterErr};
pub use field_type::{FieldType, NumberFieldType};
pub use index_ext::IndexBound;
pub use record_ext::Db;
pub use table::{NamedTable, Table, TableCreateErr, TableField};
pub use tables::DbTables;
