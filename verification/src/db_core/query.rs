//! Queries and what they give.

use vstd::prelude::*;

use crate::db_core::defs::table::TableData;
use crate::db_core::expr::expr::Expr;
use crate::db_core::record::RecordBytes;
use crate::db_core::value::Value;

verus! {

/// A query: the records of one table, those that pass the filter if there
/// is one, gathered by the value of an expression if one is given.
#[derive(Debug, PartialEq, Eq)]
pub struct Query {
    pub table_name: String,
    pub filter: Option<Expr>,
    pub group_by: Option<Expr>,
}

/// What a query gives: records, or groups of records.
#[derive(Debug)]
pub enum QueryResult {
    Records(QueryResultRecords),
    Grouped { groups: Vec<QueryResultGroup> },
}

/// Records, with the layout of their table.
#[derive(Debug)]
pub struct QueryResultRecords {
    pub records: Vec<RecordBytes>,
    pub format: TableData,
}

/// The records for which the grouping expression has the value `group`.
#[derive(Debug)]
pub struct QueryResultGroup {
    pub group: Value,
    pub result: QueryResult,
}

} // verus!
