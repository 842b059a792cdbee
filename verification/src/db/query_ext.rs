//! Running queries.

use vstd::prelude::*;

use crate::bytepack::extern_types::Timestamp;
use crate::db::error::{DbError, DbErrorView};
use crate::db::record_ext::Db;
use crate::db::tables::{table_position, TableStateView};
use crate::db_core::defs::table::{TableData, TableDataView};
use crate::db_core::expr::error::{outcome_view, EvalErrView};
use crate::db_core::expr::eval_ctx::{EvalCtx, EvalCtxView};
use crate::db_core::expr::expr::Expr;
use crate::db_core::named::{Named, NamedView};
use crate::db_core::query::{Query, QueryResult, QueryResultGroup, QueryResultRecords};
use crate::db_core::record::{RecordBytes, RecordBytesView};
use crate::db_core::value::{FieldValueView, Value, ValueView};

verus! {

/// The context in which an expression of a query is evaluated for one
/// record: the record and the layout of its table, both under the
/// table's name, and the time of the query.
pub open spec fn row_ctx(
    name: Seq<char>,
    data: TableDataView,
    row: RecordBytesView,
    now: Timestamp,
) -> EvalCtxView {
    EvalCtxView {
        records: seq![NamedView { name, value: row }],
        tables: seq![NamedView { name, value: data }],
        now,
    }
}

/// Whether a record passes the filter: there is none, or it evaluates to
/// true for the record. A filter that fails, or that gives anything but a
/// boolean, keeps the record out.
pub open spec fn passes(filter: Option<Expr>, ctx: EvalCtxView) -> bool {
    match filter {
        Some(expr) => expr.spec_eval(ctx) == Ok::<ValueView, EvalErrView>(
            ValueView::Field(FieldValueView::Bool(true)),
        ),
        None => true,
    }
}

/// Those of the first `count` records that pass the filter, in order.
pub open spec fn filtered(
    rows: Seq<RecordBytesView>,
    filter: Option<Expr>,
    name: Seq<char>,
    data: TableDataView,
    now: Timestamp,
    count: nat,
) -> Seq<RecordBytesView>
    decreases count,
{
    if count == 0 || count > rows.len() {
        Seq::empty()
    } else {
        let before = filtered(rows, filter, name, data, now, (count - 1) as nat);
        if passes(filter, row_ctx(name, data, rows[count - 1], now)) {
            before.push(rows[count - 1])
        } else {
            before
        }
    }
}

/// A group: the value that its records share, and the records.
pub type GroupView = (ValueView, Seq<RecordBytesView>);

/// The position of the group of the value `key`.
pub open spec fn group_position(groups: Seq<GroupView>, key: ValueView, start: int) -> Option<int>
    decreases groups.len() - start,
{
    if start < 0 || start >= groups.len() {
        None
    } else if groups[start].0 == key {
        Some(start)
    } else {
        group_position(groups, key, start + 1)
    }
}

/// The groups with `row` added to the group of the value `key`, which is
/// appended if it is not there yet.
pub open spec fn with_member(groups: Seq<GroupView>, key: ValueView, row: RecordBytesView) -> Seq<
    GroupView,
> {
    match group_position(groups, key, 0) {
        Some(i) => groups.update(i, (key, groups[i].1.push(row))),
        None => groups.push((key, seq![row])),
    }
}

/// The first `count` records gathered by the value of `group_by`: groups
/// in the order in which their values first occur, records in their own
/// order. A record for which the expression has no value is in no group.
pub open spec fn grouped(
    rows: Seq<RecordBytesView>,
    group_by: Expr,
    name: Seq<char>,
    data: TableDataView,
    now: Timestamp,
    count: nat,
) -> Seq<GroupView>
    decreases count,
{
    if count == 0 || count > rows.len() {
        Seq::empty()
    } else {
        let before = grouped(rows, group_by, name, data, now, (count - 1) as nat);
        match group_by.spec_eval(row_ctx(name, data, rows[count - 1], now)) {
            Ok(key) => with_member(before, key, rows[count - 1]),
            Err(_) => before,
        }
    }
}

/// What a list of groups stands for, where each holds records.
pub open spec fn groups_view(groups: Seq<QueryResultGroup>) -> Seq<GroupView> {
    Seq::new(
        groups.len(),
        |i: int|
            (
                groups[i].group.deep_view(),
                match groups[i].result {
                    QueryResult::Records(found) => found.records.deep_view(),
                    QueryResult::Grouped { .. } => Seq::empty(),
                },
            ),
    )
}

/// Whether every group holds records, laid out as `data` says.
pub open spec fn groups_of_records(groups: Seq<QueryResultGroup>, data: TableDataView) -> bool {
    forall|i: int|
        0 <= i < groups.len() ==> ((#[trigger] groups[i]).result matches QueryResult::Records(found)
            && found.format.deep_view() == data)
}

/// Whether `result` is what the query gives on the table at position `p`
/// at the time `now`: the records that pass the filter, in the order of
/// their identifiers, gathered into groups if the query asks for it.
pub open spec fn is_query_result(
    db: Seq<TableStateView>,
    p: int,
    query: Query,
    now: Timestamp,
    result: QueryResult,
) -> bool {
    let kept = filtered(
        db[p].rows,
        query.filter,
        query.table_name@,
        db[p].data,
        now,
        db[p].rows.len(),
    );
    match query.group_by {
        None => result matches QueryResult::Records(found) && found.records.deep_view() == kept
            && found.format.deep_view() == db[p].data,
        Some(group_by) => result matches QueryResult::Grouped { groups } && groups_of_records(
            groups@,
            db[p].data,
        ) && groups_view(groups@) == grouped(
            kept,
            group_by,
            query.table_name@,
            db[p].data,
            now,
            kept.len(),
        ),
    }
}

impl Db {
    /// Runs `query` at the time `now`.
    pub fn run_query(&self, query: &Query, now: Timestamp) -> (out: Result<QueryResult, DbError>)
        ensures
            match table_position(self.deep_view(), query.table_name@) {
                Some(p) => out matches Ok(result) && is_query_result(
                    self.deep_view(),
                    p,
                    *query,
                    now,
                    result,
                ),
                None => out matches Err(err) && err.deep_view() == (DbErrorView::TableDoesNotExist {
                    table: query.table_name@,
                }),
            },
    {
        let ghost db = self.deep_view();
        let p = match self.tables.position(query.table_name.as_str()) {
            Some(p) => p,
            None => {
                return Err(DbError::TableDoesNotExist { table: query.table_name.clone() });
            },
        };
        let table = &self.tables.tables[p];
        proof {
            assert(db[p as int] == table.deep_view());
        }
        let ghost name = query.table_name@;
        let ghost data = table.data.deep_view();
        let ghost rows = table.rows.deep_view();
        let mut ctx = EvalCtx {
            records: Vec::new(),
            tables: vec![Named { name: query.table_name.clone(), value: table.data.clone() }],
            now,
        };
        proof {
            assert(ctx.tables.deep_view() =~= seq![NamedView { name, value: data }]);
        }
        let mut kept: Vec<RecordBytes> = Vec::new();
        let mut i: usize = 0;
        assert(kept.deep_view() =~= filtered(rows, query.filter, name, data, now, 0));
        while i < table.rows.len()
            invariant
                i <= table.rows@.len(),
                rows == table.rows.deep_view(),
                rows.len() == table.rows@.len(),
                name == query.table_name@,
                ctx.tables.deep_view() == seq![NamedView { name, value: data }],
                ctx.now == now,
                kept.deep_view() == filtered(rows, query.filter, name, data, now, i as nat),
            decreases table.rows@.len() - i,
        {
            let record = &table.rows[i];
            let ghost before = kept.deep_view();
            proof {
                assert(rows[i as int] == record.deep_view());
            }
            let keep = match &query.filter {
                Some(filter) => {
                    ctx.records = vec![
                        Named { name: query.table_name.clone(), value: record.clone() },
                    ];
                    proof {
                        assert(ctx.records.deep_view() =~= seq![
                            NamedView { name, value: record.deep_view() },
                        ]);
                        assert(ctx.deep_view() == row_ctx(name, data, rows[i as int], now));
                    }
                    match filter.eval(&ctx) {
                        Ok(value) => value.same(
                            &Value::Field(crate::db_core::value::FieldValue::Bool(true)),
                        ),
                        Err(_) => false,
                    }
                },
                None => true,
            };
            if keep {
                kept.push(record.clone());
                proof {
                    assert(kept.deep_view() =~= before.push(rows[i as int]));
                }
            }
            i += 1;
        }
        let group_by = match &query.group_by {
            None => {
                return Ok(
                    QueryResult::Records(
                        QueryResultRecords { records: kept, format: table.data.clone() },
                    ),
                );
            },
            Some(group_by) => group_by,
        };
        let ghost chosen = kept.deep_view();
        let mut groups: Vec<QueryResultGroup> = Vec::new();
        let mut j: usize = 0;
        assert(groups_view(groups@) =~= grouped(chosen, *group_by, name, data, now, 0));
        while j < kept.len()
            invariant
                j <= kept@.len(),
                chosen == kept.deep_view(),
                chosen.len() == kept@.len(),
                name == query.table_name@,
                data == table.data.deep_view(),
                ctx.tables.deep_view() == seq![NamedView { name, value: data }],
                ctx.now == now,
                groups_of_records(groups@, data),
                groups_view(groups@) == grouped(chosen, *group_by, name, data, now, j as nat),
            decreases kept@.len() - j,
        {
            let record = &kept[j];
            proof {
                assert(chosen[j as int] == record.deep_view());
            }
            ctx.records = vec![Named { name: query.table_name.clone(), value: record.clone() }];
            proof {
                assert(ctx.records.deep_view() =~= seq![
                    NamedView { name, value: record.deep_view() },
                ]);
                assert(ctx.deep_view() == row_ctx(name, data, chosen[j as int], now));
            }
            match group_by.eval(&ctx) {
                Ok(key) => {
                    add_to_group(&mut groups, key, record.clone(), &table.data);
                },
                Err(_) => {},
            }
            j += 1;
        }
        Ok(QueryResult::Grouped { groups })
    }
}

/// Adds `record` to the group of the value `key`, which is appended if
/// it is not there yet.
pub fn add_to_group(
    groups: &mut Vec<QueryResultGroup>,
    key: Value,
    record: RecordBytes,
    format: &TableData,
)
    requires
        groups_of_records(old(groups)@, format.deep_view()),
    ensures
        groups_of_records(final(groups)@, format.deep_view()),
        groups_view(final(groups)@) == with_member(
            groups_view(old(groups)@),
            key.deep_view(),
            record.deep_view(),
        ),
{
    let ghost before = groups_view(groups@);
    let ghost row = record.deep_view();
    let mut at: Option<usize> = None;
    let mut i: usize = 0;
    while i < groups.len() && at.is_none()
        invariant
            i <= groups@.len(),
            groups@ == old(groups)@,
            before == groups_view(groups@),
            before.len() == groups@.len(),
            at is None ==> group_position(before, key.deep_view(), 0) == group_position(
                before,
                key.deep_view(),
                i as int,
            ),
            at matches Some(k) ==> k < groups@.len() && group_position(
                before,
                key.deep_view(),
                0,
            ) == Some(k as int) && before[k as int].0 == key.deep_view(),
        decreases groups@.len() - i + if at is None { 1int } else { 0int },
    {
        proof {
            assert(before[i as int].0 == groups@[i as int].group.deep_view());
        }
        if groups[i].group.same(&key) {
            at = Some(i);
        } else {
            i += 1;
        }
    }
    if let Some(i) = at {
        let ghost old_groups = groups@;
        proof {
            assert(before[i as int].0 == groups@[i as int].group.deep_view());
            assert(groups@[i as int].result is Records);
        }
        let group = groups.remove(i);
        let QueryResultGroup { group: value, result } = group;
        match result {
            QueryResult::Records(found) => {
                let QueryResultRecords { mut records, format } = found;
                let ghost members = records.deep_view();
                records.push(record);
                proof {
                    assert(members == before[i as int].1);
                    assert(records.deep_view() =~= members.push(row));
                }
                let ghost grown = records;
                groups.insert(
                    i,
                    QueryResultGroup {
                        group: value,
                        result: QueryResult::Records(QueryResultRecords { records, format }),
                    },
                );
                proof {
                    let after = groups_view(groups@);
                    assert(groups@[i as int].group == old_groups[i as int].group);
                    assert(groups@[i as int].result matches QueryResult::Records(f) && f.records
                        == grown);
                    assert(after[i as int].1 == members.push(row));
                    assert(after[i as int].0 == key.deep_view());
                }
            },
            other => {
                groups.insert(i, QueryResultGroup { group: value, result: other });
            },
        }
        proof {
            assert forall|k: int| 0 <= k < groups@.len() && k != i implies groups@[k]
                == old_groups[k] by {}
            let after = groups_view(groups@);
            let want = with_member(before, key.deep_view(), row);
            assert(after.len() == want.len());
            assert forall|k: int| 0 <= k < after.len() implies after[k] == want[k] by {
                if k != i {
                    assert(groups@[k] == old_groups[k]);
                } else {
                    assert(groups@[k].group == old_groups[k].group);
                    assert(after[k].1 =~= before[k].1.push(row));
                }
            }
            assert(after =~= want);
            assert forall|k: int| 0 <= k < groups@.len() implies ((#[trigger] groups@[k]).result matches QueryResult::Records(
                found,
            ) && found.format.deep_view() == format.deep_view()) by {
                if k != i {
                    assert(groups@[k] == old_groups[k]);
                }
            }
        }
    } else {
        let mut records: Vec<RecordBytes> = Vec::new();
        records.push(record);
        let group = QueryResultGroup {
            group: key,
            result: QueryResult::Records(QueryResultRecords { records, format: format.clone() }),
        };
        groups.push(group);
        proof {
            let after = groups_view(groups@);
            let want = with_member(before, key.deep_view(), row);
            assert(records.deep_view() =~= seq![row]);
            assert(after =~= want);
        }
    }
}

} // verus!
