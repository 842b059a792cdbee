//! What holds of the store as a whole.

use vstd::prelude::*;

use crate::bytepack::extern_types::{Timestamp, Ulid};
use crate::db::cascade::{justified, no_dangling, reaches, refers, within};
use crate::db::entries::{entries_sorted, IndexEntry, IndexKey};
use crate::db::error::DbErrorView;
use crate::db::index_ext::{admitted_entries, entry_admitted, entry_value, find_index, find_index_from};
use crate::db::index_ext::{index_names, index_queried, lemma_find_index_from, IndexBoundView};
use crate::db::query_ext::{filtered, group_position, grouped, passes, row_ctx, with_member, GroupView};
use crate::db::record_ext::{db_with_row, insert_refused, index_insert_error, insert_error, lemma_insert_error_stays, row_exists_with};
use crate::db::rows::has_row;
use crate::db::tables::{db_wf, same_schema, table_position, TableStateView};
use crate::db_core::defs::table::TableDataView;
use crate::db_core::expr::error::EvalErrView;
use crate::db_core::expr::expr::Expr;
use crate::db_core::record::RecordBytesView;
use crate::db_core::ty::FieldTyView;
use crate::db_core::value::{FieldValueView, ValueView};

verus! {

/// Where the store is in order, an index is found by its name.
pub proof fn lemma_index_found(db: Seq<TableStateView>, p: int, q: int)
    requires
        db_wf(db),
        0 <= p < db.len(),
        0 <= q < db[p].indices.len(),
    ensures
        find_index(db, db[p].indices[q].def.index_name) == Some((p, q)),
{
    let name = db[p].indices[q].def.index_name;
    lemma_find_index_from(db, name, 0);
    match find_index(db, name) {
        Some((s, t)) => {
            assert(db[s].indices[t].def.index_name == db[p].indices[q].def.index_name);
        },
        None => {
            assert(db[p].indices[q].def.index_name != name);
        },
    }
}

/// Every admitted entry is handed out.
pub proof fn lemma_admitted_entries(
    entries: Seq<IndexEntry>,
    ty: FieldTyView,
    min: IndexBoundView,
    max: IndexBoundView,
    count: nat,
    i: int,
)
    requires
        count <= entries.len(),
        0 <= i < count,
        entry_admitted(entries[i], min, max),
    ensures
        admitted_entries(entries, ty, min, max, count).contains(entry_value(entries[i], ty)),
    decreases count,
{
    let found = admitted_entries(entries, ty, min, max, count);
    let before = admitted_entries(entries, ty, min, max, (count - 1) as nat);
    if i == count - 1 {
        assert(found[found.len() - 1] == entry_value(entries[i], ty));
    } else {
        lemma_admitted_entries(entries, ty, min, max, (count - 1) as nat, i);
        let k = choose|k: int| 0 <= k < before.len() && before[k] == entry_value(entries[i], ty);
        assert(found[k] == before[k]);
    }
}

/// Whatever is handed out is an admitted entry.
pub proof fn lemma_admitted_entries_only(
    entries: Seq<IndexEntry>,
    ty: FieldTyView,
    min: IndexBoundView,
    max: IndexBoundView,
    count: nat,
    k: int,
)
    requires
        count <= entries.len(),
        0 <= k < admitted_entries(entries, ty, min, max, count).len(),
    ensures
        exists|i: int|
            0 <= i < count && entry_admitted(#[trigger] entries[i], min, max) && admitted_entries(
                entries,
                ty,
                min,
                max,
                count,
            )[k] == entry_value(entries[i], ty),
    decreases count,
{
    let found = admitted_entries(entries, ty, min, max, count);
    let before = admitted_entries(entries, ty, min, max, (count - 1) as nat);
    if count > 0 {
        if k < before.len() {
            lemma_admitted_entries_only(entries, ty, min, max, (count - 1) as nat, k);
            assert(found[k] == before[k]);
        } else {
            assert(entry_admitted(entries[count - 1], min, max));
            assert(found[k] == entry_value(entries[count - 1], ty));
        }
    }
}

/// After a record that refers to the record `target` was inserted, a
/// lookup through the index over the referring field gives the pair of
/// `target` and the record's identifier.
pub proof fn lemma_inserted_is_indexed(
    before: Seq<TableStateView>,
    after: Seq<TableStateView>,
    p: int,
    q: int,
    row: RecordBytesView,
    target: Ulid,
    min: IndexBoundView,
    max: IndexBoundView,
)
    requires
        db_wf(before),
        db_wf(after),
        0 <= p < before.len(),
        0 <= q < before[p].indices.len(),
        db_with_row(before, after, p, row),
        before[p].key_of(q, row) == Some(IndexKey::Id(target)),
    ensures
        after[p].indices[q].entries.contains(IndexEntry { key: IndexKey::Id(target), record: row.id }),
        index_queried(after, after[p].indices[q].def.index_name, min, max) matches Ok(found)
            && found.contains(
            entry_value(
                IndexEntry { key: IndexKey::Id(target), record: row.id },
                after[p].field_of(q)->0.ty,
            ),
        ),
{
    let entry = IndexEntry { key: IndexKey::Id(target), record: row.id };
    assert(after[p].indices[q].entries.contains(entry));
    lemma_index_found(after, p, q);
    crate::db::cascade::lemma_same_keys(before, after, p, q);
    let field = after[p].field_of(q)->0;
    let entries = after[p].indices[q].entries;
    let i = choose|i: int| 0 <= i < entries.len() && entries[i] == entry;
    assert(field.ty is RecordId);
    lemma_admitted_entries(
        entries,
        field.ty,
        IndexBoundView::Unbounded,
        IndexBoundView::Unbounded,
        entries.len(),
        i,
    );
}

/// Where the store is in order, no index of a table has an entry for a
/// record that is not in the table: once a record is deleted, no lookup
/// gives a pair with its identifier any more.
pub proof fn lemma_deleted_is_unindexed(
    db: Seq<TableStateView>,
    p: int,
    q: int,
    id: Ulid,
    min: IndexBoundView,
    max: IndexBoundView,
)
    requires
        db_wf(db),
        0 <= p < db.len(),
        0 <= q < db[p].indices.len(),
        !has_row(db[p].rows, id),
    ensures
        forall|e: IndexEntry| db[p].indices[q].entries.contains(e) ==> e.record != id,
        index_queried(db, db[p].indices[q].def.index_name, min, max) matches Ok(found) ==> forall|
            k: int,
        |
            0 <= k < found.len() ==> (#[trigger] found[k]).1 != id,
{
    assert(db[p].wf());
    assert(entries_sorted(db[p].indices[q].entries));
    assert(db[p].entries_sound(q));
    assert forall|e: IndexEntry| db[p].indices[q].entries.contains(e) implies e.record != id by {
        let r = choose|r: RecordBytesView|
            db[p].rows.contains(r) && r.id == e.record && db[p].key_of(q, r) == Some(e.key);
        let w = choose|w: int| 0 <= w < db[p].rows.len() && db[p].rows[w] == r;
        assert(db[p].rows[w].id == r.id);
    }
    lemma_index_found(db, p, q);
    match index_queried(db, db[p].indices[q].def.index_name, min, max) {
        Ok(found) => {
            let entries = db[p].indices[q].entries;
            let ty = db[p].field_of(q)->0.ty;
            assert forall|k: int| 0 <= k < found.len() implies (#[trigger] found[k]).1 != id by {
                if ty is RecordId {
                    lemma_admitted_entries_only(
                        entries,
                        ty,
                        IndexBoundView::Unbounded,
                        IndexBoundView::Unbounded,
                        entries.len(),
                        k,
                    );
                    let i = choose|i: int|
                        0 <= i < entries.len() && entry_admitted(
                            #[trigger] entries[i],
                            IndexBoundView::Unbounded,
                            IndexBoundView::Unbounded,
                        ) && found[k] == entry_value(entries[i], ty);
                    assert(entries.contains(entries[i]));
                } else {
                    lemma_admitted_entries_only(entries, ty, min, max, entries.len(), k);
                    let i = choose|i: int|
                        0 <= i < entries.len() && entry_admitted(#[trigger] entries[i], min, max)
                            && found[k] == entry_value(entries[i], ty);
                    assert(entries.contains(entries[i]));
                }
            }
        },
        Err(_) => {},
    }
}

/// When a record was deleted, every record that does not refer to it, over
/// however many references, is still there.
pub proof fn lemma_unrelated_stays(
    old: Seq<TableStateView>,
    now: Seq<TableStateView>,
    t: int,
    target: Ulid,
    s: int,
    row: RecordBytesView,
)
    requires
        justified(old, now, t, target),
        0 <= s < now.len(),
        old[s].rows.contains(row),
        forall|steps: nat| !reaches(old, s, row.id, t, target, steps),
    ensures
        now[s].rows.contains(row),
{
}

/// When a record was deleted, every other record that refers to no record
/// at all is still there.
pub proof fn lemma_unreferring_stays(
    old: Seq<TableStateView>,
    now: Seq<TableStateView>,
    t: int,
    target: Ulid,
    s: int,
    row: RecordBytesView,
)
    requires
        justified(old, now, t, target),
        0 <= s < now.len(),
        old[s].rows.contains(row),
        s != t || row.id != target,
        forall|m: int, via: Ulid| !refers(old, s, row.id, m, via),
    ensures
        now[s].rows.contains(row),
{
    assert forall|steps: nat| !reaches(old, s, row.id, t, target, steps) by {
        if steps > 0 && reaches(old, s, row.id, t, target, steps) {
            let (m, via) = choose|m: int, via: Ulid|
                0 <= m < old.len() && #[trigger] refers(old, s, row.id, m, via) && reaches(
                    old,
                    m,
                    via,
                    t,
                    target,
                    (steps - 1) as nat,
                );
            assert(false);
        }
    }
    lemma_unrelated_stays(old, now, t, target, s, row);
}

/// When a record was deleted, every record that referred to a record
/// that is gone, over however many references, is gone too.
pub proof fn lemma_cascade(
    old: Seq<TableStateView>,
    now: Seq<TableStateView>,
    t: int,
    target: Ulid,
    s: int,
    row: RecordBytesView,
    steps: nat,
)
    requires
        same_schema(old, now),
        within(old, now),
        no_dangling(old, now),
        forall|p: int| 0 <= p < now.len() ==> (#[trigger] now[p]).indices.len() == old[p].indices.len(),
        0 <= t < old.len(),
        0 <= s < old.len(),
        has_row(old[t].rows, target),
        !has_row(now[t].rows, target),
        old[s].rows.contains(row),
        reaches(old, s, row.id, t, target, steps),
        forall|p: int| 0 <= p < old.len() ==> crate::db::rows::rows_sorted((#[trigger] old[p]).rows),
    ensures
        !now[s].rows.contains(row),
    decreases steps,
{
    if steps == 0 {
        if now[s].rows.contains(row) {
            let w = choose|w: int| 0 <= w < now[s].rows.len() && now[s].rows[w] == row;
            assert(now[t].rows[w].id == target);
            assert(has_row(now[t].rows, target));
        }
    } else {
        let (m, via) = choose|m: int, via: Ulid|
            0 <= m < old.len() && #[trigger] refers(old, s, row.id, m, via) && reaches(
                old,
                m,
                via,
                t,
                target,
                (steps - 1) as nat,
            );
        let (q, r) = choose|q: int, r: RecordBytesView|
            0 <= q < old[s].indices.len() && old[s].refers_to(q, old[m].name) && old[s].rows.contains(
                r,
            ) && r.id == row.id && #[trigger] old[s].key_of(q, r) == Some(IndexKey::Id(via));
        crate::db::rows::lemma_row_by_id(old[s].rows, r, row);
        crate::db::cascade::lemma_same_keys(old, now, s, q);
        assert(old[m].name == now[m].name);
        if now[s].rows.contains(row) {
            // The record that `row` refers to must be gone: then `row` would dangle.
            lemma_reached_is_row(old, m, via, t, target, (steps - 1) as nat);
            let w = choose|w: int| 0 <= w < old[m].rows.len() && old[m].rows[w].id == via;
            let d = old[m].rows[w];
            assert(old[m].rows.contains(d));
            lemma_cascade(old, now, t, target, m, d, (steps - 1) as nat);
            assert(now[s].key_of(q, row) == Some(IndexKey::Id(d.id)));
            assert(false);
        }
    }
}

/// A record from which a chain of references leads to a record that is
/// in its table is itself in its table.
pub proof fn lemma_reached_is_row(
    db: Seq<TableStateView>,
    s: int,
    id: Ulid,
    t: int,
    target: Ulid,
    steps: nat,
)
    requires
        0 <= t < db.len(),
        has_row(db[t].rows, target),
        reaches(db, s, id, t, target, steps),
    ensures
        0 <= s < db.len(),
        has_row(db[s].rows, id),
{
    if steps > 0 {
        let (m, via) = choose|m: int, via: Ulid|
            0 <= m < db.len() && #[trigger] refers(db, s, id, m, via) && reaches(
                db,
                m,
                via,
                t,
                target,
                (steps - 1) as nat,
            );
        let (q, r) = choose|q: int, r: RecordBytesView|
            0 <= q < db[s].indices.len() && db[s].refers_to(q, db[m].name) && db[s].rows.contains(r)
                && r.id == id && #[trigger] db[s].key_of(q, r) == Some(IndexKey::Id(via));
        let w = choose|w: int| 0 <= w < db[s].rows.len() && db[s].rows[w] == r;
        assert(db[s].rows[w].id == id);
    }
}

} // verus!

verus! {

/// A record that refers to a record that is not there is not inserted.
/// Where no index before the referring one refuses the record, the reason
/// given is that the record referred to does not exist.
pub proof fn lemma_dangling_is_refused(
    db: Seq<TableStateView>,
    name: Seq<char>,
    row: RecordBytesView,
    q: int,
    target_table: Seq<char>,
    target: Ulid,
)
    requires
        table_position(db, name) is Some,
        0 <= q < db[table_position(db, name)->0].indices.len(),
        db[table_position(db, name)->0].refers_to(q, target_table),
        db[table_position(db, name)->0].key_of(q, row) == Some(IndexKey::Id(target)),
        !row_exists_with(db, table_position(db, name)->0, row, target_table, target),
    ensures
        insert_refused(db, name, row) is Some,
        !has_row(db[table_position(db, name)->0].rows, row.id) && insert_error(
            db,
            table_position(db, name)->0,
            row,
            q as nat,
        ) is None ==> insert_refused(db, name, row) == Some(
            DbErrorView::RecordDoesNotExist { table: target_table, record: target },
        ),
{
    let p = table_position(db, name)->0;
    let all = db[p].indices.len();
    assert(index_insert_error(db, p, q, row) == Some(
        DbErrorView::RecordDoesNotExist { table: target_table, record: target },
    ));
    assert(insert_error(db, p, row, (q + 1) as nat) is Some);
    lemma_insert_error_stays(db, p, row, (q + 1) as nat, all);
}

/// A query with a filter gives exactly the records of the table for which
/// the filter evaluates to true.
pub proof fn lemma_filter_sound(
    rows: Seq<RecordBytesView>,
    filter: Option<Expr>,
    name: Seq<char>,
    data: TableDataView,
    now: Timestamp,
    count: nat,
)
    requires
        count <= rows.len(),
    ensures
        forall|r: RecordBytesView|
            filtered(rows, filter, name, data, now, count).contains(r) <==> exists|i: int|
                0 <= i < count && #[trigger] rows[i] == r && passes(filter, row_ctx(name, data, r, now)),
    decreases count,
{
    let found = filtered(rows, filter, name, data, now, count);
    if count > 0 {
        let before = filtered(rows, filter, name, data, now, (count - 1) as nat);
        let last = rows[count - 1];
        lemma_filter_sound(rows, filter, name, data, now, (count - 1) as nat);
        assert forall|r: RecordBytesView| found.contains(r) implies exists|i: int|
            0 <= i < count && #[trigger] rows[i] == r && passes(filter, row_ctx(name, data, r, now)) by {
            let k = choose|k: int| 0 <= k < found.len() && found[k] == r;
            if k < before.len() {
                assert(before[k] == r);
                assert(before.contains(r));
                let i = choose|i: int|
                    0 <= i < count - 1 && #[trigger] rows[i] == r && passes(
                        filter,
                        row_ctx(name, data, r, now),
                    );
                assert(0 <= i < count && rows[i] == r);
            } else {
                assert(rows[count - 1] == r);
            }
        }
        assert forall|r: RecordBytesView|
            (exists|i: int|
                0 <= i < count && #[trigger] rows[i] == r && passes(
                    filter,
                    row_ctx(name, data, r, now),
                )) implies found.contains(r) by {
            let i = choose|i: int|
                0 <= i < count && #[trigger] rows[i] == r && passes(filter, row_ctx(name, data, r, now));
            if i < count - 1 {
                assert(before.contains(r));
                let k = choose|k: int| 0 <= k < before.len() && before[k] == r;
                assert(found[k] == r);
            } else {
                assert(found[found.len() - 1] == r);
            }
        }
    }
}

/// A query without a filter gives all records of the table.
pub proof fn lemma_no_filter_keeps_all(
    rows: Seq<RecordBytesView>,
    name: Seq<char>,
    data: TableDataView,
    now: Timestamp,
    count: nat,
)
    requires
        count <= rows.len(),
    ensures
        filtered(rows, None, name, data, now, count) == rows.take(count as int),
    decreases count,
{
    if count > 0 {
        lemma_no_filter_keeps_all(rows, name, data, now, (count - 1) as nat);
        assert(filtered(rows, None, name, data, now, count) =~= rows.take(count as int));
    } else {
        assert(filtered(rows, None, name, data, now, count) =~= rows.take(count as int));
    }
}

/// Whether the values of the groups differ from one another.
pub open spec fn keys_distinct(groups: Seq<GroupView>) -> bool {
    forall|i: int, j: int| 0 <= i < j < groups.len() ==> groups[i].0 != groups[j].0
}

/// The position that `group_position` finds holds the value looked for,
/// and no position from `start` on does if it finds none.
pub proof fn lemma_group_position(groups: Seq<GroupView>, key: ValueView, start: int)
    requires
        0 <= start,
    ensures
        match group_position(groups, key, start) {
            Some(i) => start <= i < groups.len() && groups[i].0 == key,
            None => forall|i: int| start <= i < groups.len() ==> groups[i].0 != key,
        },
    decreases groups.len() - start,
{
    if start < groups.len() && groups[start].0 != key {
        lemma_group_position(groups, key, start + 1);
    }
}

/// Grouping divides the records: the values of the groups differ from one
/// another, every record for which the grouping expression has a value is
/// in the group of that value, and a group holds nothing else.
pub proof fn lemma_grouping(
    rows: Seq<RecordBytesView>,
    group_by: Expr,
    name: Seq<char>,
    data: TableDataView,
    now: Timestamp,
    count: nat,
)
    requires
        count <= rows.len(),
    ensures
        keys_distinct(grouped(rows, group_by, name, data, now, count)),
        forall|i: int, r: RecordBytesView|
            0 <= i < grouped(rows, group_by, name, data, now, count).len() && #[trigger] grouped(
                rows,
                group_by,
                name,
                data,
                now,
                count,
            )[i].1.contains(r) ==> exists|k: int|
                0 <= k < count && #[trigger] rows[k] == r && group_by.spec_eval(
                    row_ctx(name, data, r, now),
                ) == Ok::<ValueView, EvalErrView>(
                    grouped(rows, group_by, name, data, now, count)[i].0,
                ),
        forall|k: int|
            0 <= k < count && (#[trigger] group_by.spec_eval(row_ctx(name, data, rows[k], now))) is Ok
                ==> exists|i: int|
                0 <= i < grouped(rows, group_by, name, data, now, count).len() && (#[trigger] grouped(
                    rows,
                    group_by,
                    name,
                    data,
                    now,
                    count,
                )[i]).0 == group_by.spec_eval(row_ctx(name, data, rows[k], now))->Ok_0 && grouped(
                    rows,
                    group_by,
                    name,
                    data,
                    now,
                    count,
                )[i].1.contains(rows[k]),
    decreases count,
{
    let groups = grouped(rows, group_by, name, data, now, count);
    if count > 0 {
        let before = grouped(rows, group_by, name, data, now, (count - 1) as nat);
        let last = rows[count - 1];
        lemma_grouping(rows, group_by, name, data, now, (count - 1) as nat);
        match group_by.spec_eval(row_ctx(name, data, last, now)) {
            Ok(key) => {
                lemma_group_position(before, key, 0);
                match group_position(before, key, 0) {
                    Some(at) => {
                        assert(groups == before.update(at, (key, before[at].1.push(last))));
                        assert forall|i: int, j: int| 0 <= i < j < groups.len() implies groups[i].0
                            != groups[j].0 by {
                            assert(before[i].0 != before[j].0);
                        }
                        assert forall|i: int, r: RecordBytesView|
                            0 <= i < groups.len() && #[trigger] groups[i].1.contains(r) implies exists|
                            k: int,
                        |
                            0 <= k < count && #[trigger] rows[k] == r && group_by.spec_eval(
                                row_ctx(name, data, r, now),
                            ) == Ok::<ValueView, EvalErrView>(groups[i].0) by {
                            if i == at {
                                let w = choose|w: int|
                                    0 <= w < groups[i].1.len() && groups[i].1[w] == r;
                                if w < before[at].1.len() {
                                    assert(before[at].1[w] == r);
                                    assert(before[at].1.contains(r));
                                    let k = choose|k: int|
                                        0 <= k < count - 1 && #[trigger] rows[k] == r
                                            && group_by.spec_eval(row_ctx(name, data, r, now))
                                            == Ok::<ValueView, EvalErrView>(before[at].0);
                                    assert(0 <= k < count && rows[k] == r);
                                } else {
                                    assert(rows[count - 1] == r);
                                }
                            } else {
                                assert(before[i].1.contains(r));
                                let k = choose|k: int|
                                    0 <= k < count - 1 && #[trigger] rows[k] == r
                                        && group_by.spec_eval(row_ctx(name, data, r, now)) == Ok::<
                                        ValueView,
                                        EvalErrView,
                                    >(before[i].0);
                                assert(0 <= k < count && rows[k] == r);
                            }
                        }
                        assert forall|k: int|
                            0 <= k < count && (#[trigger] group_by.spec_eval(
                                row_ctx(name, data, rows[k], now),
                            )) is Ok implies exists|i: int|
                            0 <= i < groups.len() && (#[trigger] groups[i]).0 == group_by.spec_eval(
                                row_ctx(name, data, rows[k], now),
                            )->Ok_0 && groups[i].1.contains(rows[k]) by {
                            if k < count - 1 {
                                let i = choose|i: int|
                                    0 <= i < before.len() && (#[trigger] before[i]).0
                                        == group_by.spec_eval(
                                        row_ctx(name, data, rows[k], now),
                                    )->Ok_0 && before[i].1.contains(rows[k]);
                                let w = choose|w: int|
                                    0 <= w < before[i].1.len() && before[i].1[w] == rows[k];
                                if i == at {
                                    assert(groups[i].1[w] == rows[k]);
                                }
                                assert(groups[i].0 == before[i].0);
                                assert(groups[i].1.contains(rows[k]));
                            } else {
                                assert(groups[at].1[before[at].1.len() as int] == last);
                                assert(groups[at].0 == key);
                            }
                        }
                    },
                    None => {
                        assert(groups == before.push((key, seq![last])));
                        let n = before.len() as int;
                        assert(groups[n] == (key, seq![last]));
                        assert forall|i: int, j: int| 0 <= i < j < groups.len() implies groups[i].0
                            != groups[j].0 by {
                            if j < n {
                                assert(before[i].0 != before[j].0);
                            } else {
                                assert(before[i].0 != key);
                            }
                        }
                        assert forall|i: int, r: RecordBytesView|
                            0 <= i < groups.len() && #[trigger] groups[i].1.contains(r) implies exists|
                            k: int,
                        |
                            0 <= k < count && #[trigger] rows[k] == r && group_by.spec_eval(
                                row_ctx(name, data, r, now),
                            ) == Ok::<ValueView, EvalErrView>(groups[i].0) by {
                            if i < n {
                                assert(before[i].1.contains(r));
                                let k = choose|k: int|
                                    0 <= k < count - 1 && #[trigger] rows[k] == r
                                        && group_by.spec_eval(row_ctx(name, data, r, now)) == Ok::<
                                        ValueView,
                                        EvalErrView,
                                    >(before[i].0);
                                assert(0 <= k < count && rows[k] == r);
                            } else {
                                let w = choose|w: int|
                                    0 <= w < groups[i].1.len() && groups[i].1[w] == r;
                                assert(rows[count - 1] == r);
                            }
                        }
                        assert forall|k: int|
                            0 <= k < count && (#[trigger] group_by.spec_eval(
                                row_ctx(name, data, rows[k], now),
                            )) is Ok implies exists|i: int|
                            0 <= i < groups.len() && (#[trigger] groups[i]).0 == group_by.spec_eval(
                                row_ctx(name, data, rows[k], now),
                            )->Ok_0 && groups[i].1.contains(rows[k]) by {
                            if k < count - 1 {
                                let i = choose|i: int|
                                    0 <= i < before.len() && (#[trigger] before[i]).0
                                        == group_by.spec_eval(
                                        row_ctx(name, data, rows[k], now),
                                    )->Ok_0 && before[i].1.contains(rows[k]);
                                assert(groups[i] == before[i]);
                            } else {
                                assert(groups[n].1[0] == last);
                                assert(groups[n].1.contains(last));
                            }
                        }
                    },
                }
            },
            Err(_) => {
                assert(groups == before);
                assert forall|i: int, r: RecordBytesView|
                    0 <= i < groups.len() && #[trigger] groups[i].1.contains(r) implies exists|k: int|
                    0 <= k < count && #[trigger] rows[k] == r && group_by.spec_eval(
                        row_ctx(name, data, r, now),
                    ) == Ok::<ValueView, EvalErrView>(groups[i].0) by {
                    let k = choose|k: int|
                        0 <= k < count - 1 && #[trigger] rows[k] == r && group_by.spec_eval(
                            row_ctx(name, data, r, now),
                        ) == Ok::<ValueView, EvalErrView>(before[i].0);
                    assert(0 <= k < count && rows[k] == r);
                }
                assert forall|k: int|
                    0 <= k < count && (#[trigger] group_by.spec_eval(
                        row_ctx(name, data, rows[k], now),
                    )) is Ok implies exists|i: int|
                    0 <= i < groups.len() && (#[trigger] groups[i]).0 == group_by.spec_eval(
                        row_ctx(name, data, rows[k], now),
                    )->Ok_0 && groups[i].1.contains(rows[k]) by {
                    assert(k < count - 1);
                }
            },
        }
    }
}

} // verus!
