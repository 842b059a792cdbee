//! What the store reports when it refuses an operation.

use vstd::prelude::*;

use crate::bytepack::extern_types::Ulid;
use crate::db_core::ty::{FieldTy, FieldTyView};

verus! {

/// Why an operation on records or indices was refused. The store is left
/// as it was.
#[derive(Debug, PartialEq, Eq)]
#[allow(inconsistent_fields)]
pub enum DbError {
    /// A record that is to be deleted, or that a record to be inserted
    /// refers to, is not there.
    RecordDoesNotExist { table: String, record: Ulid },
    /// A record of that identifier is in the table already. Records are
    /// never overwritten.
    RecordAlreadyExists { table: String, record: Ulid },
    TableDoesNotExist { table: String },
    /// A value of the type `expected` was wanted: as a bound of a lookup,
    /// or as the field of a record by which it is to be indexed.
    WrongType { expected: FieldTy },
}

/// What a [`DbError`] stands for.
#[allow(inconsistent_fields)]
pub enum DbErrorView {
    RecordDoesNotExist { table: Seq<char>, record: Ulid },
    RecordAlreadyExists { table: Seq<char>, record: Ulid },
    TableDoesNotExist { table: Seq<char> },
    WrongType { expected: FieldTyView },
}

impl DeepView for DbError {
    type V = DbErrorView;

    open spec fn deep_view(&self) -> DbErrorView {
        match self {
            DbError::RecordDoesNotExist { table, record } => DbErrorView::RecordDoesNotExist {
                table: table@,
                record: *record,
            },
            DbError::RecordAlreadyExists { table, record } => DbErrorView::RecordAlreadyExists {
                table: table@,
                record: *record,
            },
            DbError::TableDoesNotExist { table } => DbErrorView::TableDoesNotExist {
                table: table@,
            },
            DbError::WrongType { expected } => DbErrorView::WrongType {
                expected: expected.deep_view(),
            },
        }
    }
}

/// Why a table was not registered.
#[derive(Debug, Clone, Copy, PartialEq, Eq, Structural)]
pub enum RegisterErr {
    /// A table of that name is registered with another definition.
    TableExists,
    /// Two fields of the table have the same name.
    DuplicateFieldName,
    /// The fields add up to more than a record's fixed region can hold.
    LayoutTooLarge,
    /// Lookups are wanted by a field whose values are no keys of an
    /// index: it is neither a timestamp nor a reference to a record.
    IndexWithoutKey,
    /// An index of the table would get the name of an index that another
    /// table has.
    IndexNameTaken,
}

} // verus!
