//! Inserting records, deleting them, and finding them again.

use vstd::prelude::*;

use crate::bytepack::extern_types::{Timestamp, Ulid};
use crate::bytepack::pack::Unpack;
use crate::db::entries::{entries_sorted, insert_entry, record_key, IndexEntry, IndexKey};
use crate::db::error::{DbError, DbErrorView};
use crate::db::rows::{find_row, has_row, put_row, rows_sorted};
use crate::db::tables::{db_wf, same_schema, table_names, table_position, DbTables, TableState, TableStateView};
use crate::db_core::defs::table::{lemma_indices_of_first, TableFieldData};
use crate::db_core::record::{RecordBytes, RecordBytesView};
use crate::db_core::ty::{FieldTy, FieldTyView};

verus! {

/// Whether the record `id` of the table called `target` is there once
/// `row` is in the table at position `p`.
pub open spec fn row_exists_with(
    db: Seq<TableStateView>,
    p: int,
    row: RecordBytesView,
    target: Seq<char>,
    id: Ulid,
) -> bool {
    ||| target == db[p].name && id == row.id
    ||| table_position(db, target) matches Some(t) && has_row(db[t].rows, id)
}

/// Why `row` cannot be entered in the index at position `q` of the table
/// at position `p`, if it cannot: the indexed field does not decode to a
/// key, or it refers to a record that is not there.
pub open spec fn index_insert_error(
    db: Seq<TableStateView>,
    p: int,
    q: int,
    row: RecordBytesView,
) -> Option<DbErrorView> {
    match db[p].field_of(q) {
        Some(field) => match record_key(row.bytes, field) {
            Some(IndexKey::Id(id)) => match field.ty {
                FieldTyView::RecordId { table_name } => if row_exists_with(
                    db,
                    p,
                    row,
                    table_name,
                    id,
                ) {
                    None
                } else {
                    Some(DbErrorView::RecordDoesNotExist { table: table_name, record: id })
                },
                _ => None,
            },
            Some(IndexKey::Time(_)) => None,
            None => Some(DbErrorView::WrongType { expected: field.ty }),
        },
        None => None,
    }
}

/// The first reason why `row` cannot be entered in one of the first
/// `count` indices of the table at position `p`.
pub open spec fn insert_error(
    db: Seq<TableStateView>,
    p: int,
    row: RecordBytesView,
    count: nat,
) -> Option<DbErrorView>
    decreases count,
{
    if count == 0 {
        None
    } else {
        match insert_error(db, p, row, (count - 1) as nat) {
            Some(err) => Some(err),
            None => index_insert_error(db, p, count - 1, row),
        }
    }
}

/// Why `row` cannot be inserted into the table called `name`, if it
/// cannot: there is no such table, a record of its identifier is there
/// already, or one of the table's indices cannot take it.
pub open spec fn insert_refused(
    db: Seq<TableStateView>,
    name: Seq<char>,
    row: RecordBytesView,
) -> Option<DbErrorView> {
    match table_position(db, name) {
        Some(p) => if has_row(db[p].rows, row.id) {
            Some(DbErrorView::RecordAlreadyExists { table: name, record: row.id })
        } else {
            insert_error(db, p, row, db[p].indices.len())
        },
        None => Some(DbErrorView::TableDoesNotExist { table: name }),
    }
}

/// Whether `after` is the table `before` with `row` put among its records
/// and entered in each of its indices.
pub open spec fn table_with_row(
    before: TableStateView,
    after: TableStateView,
    row: RecordBytesView,
) -> bool {
    &&& after.name == before.name
    &&& after.data == before.data
    &&& after.defs() == before.defs()
    &&& after.indices.len() == before.indices.len()
    &&& forall|r: RecordBytesView| #[trigger]
        after.rows.contains(r) <==> before.rows.contains(r) || r == row
    &&& forall|q: int, e: IndexEntry|
        0 <= q < before.indices.len() ==> (#[trigger] after.indices[q].entries.contains(e) <==> (
        before.indices[q].entries.contains(e) || (before.key_of(q, row) matches Some(key) && e
            == (IndexEntry { key, record: row.id }))))
}

/// Whether `after` is `before` with `row` inserted into the table at
/// position `p`, and nothing else changed.
pub open spec fn db_with_row(
    before: Seq<TableStateView>,
    after: Seq<TableStateView>,
    p: int,
    row: RecordBytesView,
) -> bool {
    &&& after.len() == before.len()
    &&& table_with_row(before[p], after[p], row)
    &&& forall|s: int| 0 <= s < before.len() && s != p ==> after[s] == before[s]
}

impl TableState {
    /// The key under which `record` is to be filed in the index at
    /// position `q`, and the table that the key refers to, if it refers to
    /// one; or the type that the indexed field should have had.
    pub fn key_for(&self, q: usize, record: &RecordBytes) -> (out: Result<IndexKey, FieldTy>)
        requires
            q < self.deep_view().indices.len(),
            self.deep_view().defs() == self.deep_view().data.indices(self.deep_view().name),
        ensures
            self.deep_view().field_of(q as int) matches Some(field) && match out {
                Ok(key) => self.deep_view().key_of(q as int, record.deep_view()) == Some(key),
                Err(ty) => self.deep_view().key_of(q as int, record.deep_view()) is None
                    && ty.deep_view() == field.ty,
            },
    {
        let ghost view = self.deep_view();
        proof {
            lemma_indices_of_first(view.data, view.name, view.data.fields.len());
            assert(view.defs()[q as int] == view.indices[q as int].def);
            assert(view.indices[q as int] == self.indices@[q as int].deep_view());
        }
        let def = &self.indices[q].def;
        match self.data.field(def.field_name.as_str()) {
            Some(field) => match &field.ty {
                FieldTy::RecordId { .. } => match record.unpack::<Ulid>(field.offset) {
                    Some(id) => Ok(IndexKey::Id(id)),
                    None => Err(field.ty.clone()),
                },
                FieldTy::Timestamp => match record.unpack::<Timestamp>(field.offset) {
                    Some(time) => Ok(IndexKey::Time(time)),
                    None => Err(field.ty.clone()),
                },
                other => Err(other.clone()),
            },
            None => {
                assert(false);
                Err(FieldTy::Bool)
            },
        }
    }

    /// The table that the index at position `q` refers to, if it is kept
    /// over references.
    pub fn target_of(&self, q: usize) -> (target: Option<&String>)
        requires
            q < self.deep_view().indices.len(),
        ensures
            match target {
                Some(name) => self.deep_view().refers_to(q as int, name@),
                None => forall|name: Seq<char>| !self.deep_view().refers_to(q as int, name),
            },
    {
        proof {
            assert(self.deep_view().indices[q as int] == self.indices@[q as int].deep_view());
        }
        match self.data.field(self.indices[q].def.field_name.as_str()) {
            Some(field) => match &field.ty {
                FieldTy::RecordId { table_name } => Some(table_name),
                _ => None,
            },
            None => None,
        }
    }

    /// Puts `record` among the records and enters it in every index, under
    /// the keys given.
    pub fn add_record(&mut self, record: RecordBytes, keys: &Vec<IndexKey>)
        requires
            old(self).deep_view().wf(),
            !has_row(old(self).deep_view().rows, record.deep_view().id),
            keys@.len() == old(self).deep_view().indices.len(),
            forall|q: int|
                0 <= q < keys@.len() ==> old(self).deep_view().key_of(q, record.deep_view())
                    == Some(#[trigger] keys@[q]),
        ensures
            final(self).deep_view().wf(),
            table_with_row(old(self).deep_view(), final(self).deep_view(), record.deep_view()),
    {
        let ghost before = self.deep_view();
        let ghost row = record.deep_view();
        let id = record.id();
        put_row(&mut self.rows, record);
        let mut q: usize = 0;
        while q < self.indices.len()
            invariant
                q <= self.indices@.len(),
                id == row.id,
                before.wf(),
                keys@.len() == before.indices.len(),
                forall|k: int|
                    0 <= k < keys@.len() ==> before.key_of(k, row) == Some(#[trigger] keys@[k]),
                self.deep_view().name == before.name,
                self.deep_view().data == before.data,
                self.deep_view().defs() == before.defs(),
                self.deep_view().indices.len() == before.indices.len(),
                rows_sorted(self.deep_view().rows),
                forall|r: RecordBytesView| #[trigger]
                    self.deep_view().rows.contains(r) <==> before.rows.contains(r) || r == row,
                forall|k: int|
                    q <= k < before.indices.len() ==> (#[trigger] self.deep_view().indices[k])
                        == before.indices[k],
                forall|k: int|
                    0 <= k < q ==> entries_sorted((#[trigger] self.deep_view().indices[k]).entries),
                forall|k: int, e: IndexEntry|
                    0 <= k < q ==> (#[trigger] self.deep_view().indices[k].entries.contains(e)
                        <==> (before.indices[k].entries.contains(e) || e == (IndexEntry {
                        key: keys@[k],
                        record: row.id,
                    }))),
            decreases self.indices@.len() - q,
        {
            let ghost mid = self.deep_view();
            let ghost mid_indices = self.indices@;
            proof {
                assert(mid.indices[q as int] == self.indices@[q as int].deep_view());
                assert(before.indices[q as int].entries == self.indices@[q as int].entries@);
                assert(entries_sorted(before.indices[q as int].entries));
            }
            let entry = IndexEntry { key: keys[q], record: id };
            let index = &mut self.indices[q];
            insert_entry(&mut index.entries, entry);
            proof {
                let now = self.deep_view();
                assert forall|k: int| 0 <= k < now.indices.len() && k != q implies now.indices[k]
                    == mid.indices[k] by {
                    assert(self.indices@[k] == mid_indices[k]);
                    assert(mid.indices[k] == mid_indices[k].deep_view());
                }
                assert(now.indices[q as int] == self.indices@[q as int].deep_view());
                assert(now.indices[q as int].def == mid.indices[q as int].def);
                assert(now.defs() =~= before.defs()) by {
                    assert forall|k: int| 0 <= k < now.indices.len() implies now.defs()[k]
                        == before.defs()[k] by {
                        assert(mid.defs()[k] == before.defs()[k]);
                    }
                }
            }
            q += 1;
        }
        proof {
            let after = self.deep_view();
            assert forall|k: int| 0 <= k < after.indices.len() implies {
                &&& entries_sorted(#[trigger] after.indices[k].entries)
                &&& after.entries_sound(k)
                &&& after.rows_indexed(k)
            } by {
                assert(after.indices[k].def == before.indices[k].def) by {
                    assert(after.defs()[k] == before.defs()[k]);
                }
                assert(before.entries_sound(k));
                assert(before.rows_indexed(k));
                assert(entries_sorted(before.indices[k].entries));
                assert forall|e: IndexEntry| #[trigger]
                    after.indices[k].entries.contains(e) implies exists|r: RecordBytesView|
                    after.rows.contains(r) && r.id == e.record && after.key_of(k, r) == Some(
                        e.key,
                    ) by {
                    if before.indices[k].entries.contains(e) {
                        let r = choose|r: RecordBytesView|
                            before.rows.contains(r) && r.id == e.record && before.key_of(k, r)
                                == Some(e.key);
                        assert(after.rows.contains(r));
                    } else {
                        assert(after.rows.contains(row));
                    }
                }
                assert forall|r: RecordBytesView| #[trigger]
                    after.rows.contains(r) implies (after.key_of(k, r) matches Some(key)
                    && after.indices[k].entries.contains(IndexEntry { key, record: r.id })) by {
                    if before.rows.contains(r) {
                        let key = before.key_of(k, r)->0;
                        assert(before.indices[k].entries.contains(
                            IndexEntry { key, record: r.id },
                        ));
                    }
                }
            }
        }
    }
}

} // verus!

verus! {

/// The record store.
#[derive(Debug)]
pub struct Db {
    pub tables: DbTables,
}

impl DeepView for Db {
    type V = Seq<TableStateView>;

    open spec fn deep_view(&self) -> Seq<TableStateView> {
        self.tables.deep_view()
    }
}

/// The error that the outcome of an operation stands for, if it is one.
pub open spec fn error_view<T>(out: Result<T, DbError>) -> Option<DbErrorView> {
    match out {
        Ok(_) => None,
        Err(err) => Some(err.deep_view()),
    }
}

impl Db {
    /// Whether the store is in order: see [`db_wf`]. Every operation keeps
    /// it so.
    pub open spec fn wf(&self) -> bool {
        db_wf(self.deep_view())
    }

    /// An empty store.
    pub fn new() -> (db: Self)
        ensures
            db.wf(),
            db.deep_view().len() == 0,
    {
        Db { tables: DbTables::new() }
    }

    /// Whether the table called `table_name` has a record `id`.
    pub fn has_record(&self, table_name: &str, id: Ulid) -> (found: bool)
        requires
            self.wf(),
        ensures
            found == (table_position(self.deep_view(), table_name@) matches Some(t) && has_row(
                self.deep_view()[t].rows,
                id,
            )),
    {
        match self.tables.position(table_name) {
            Some(t) => {
                proof {
                    assert(self.deep_view()[t as int] == self.tables.tables@[t as int].deep_view());
                }
                find_row(&self.tables.tables[t].rows, id).is_some()
            },
            None => false,
        }
    }

    /// The record `id` of the table called `table_name`.
    pub fn get(&self, table_name: &str, id: Ulid) -> (record: Option<RecordBytes>)
        requires
            self.wf(),
        ensures
            match record {
                Some(r) => r.deep_view().id == id && (table_position(
                    self.deep_view(),
                    table_name@,
                ) matches Some(t) && self.deep_view()[t].rows.contains(r.deep_view())),
                None => !(table_position(self.deep_view(), table_name@) matches Some(t)
                    && has_row(self.deep_view()[t].rows, id)),
            },
    {
        match self.tables.position(table_name) {
            Some(t) => {
                proof {
                    assert(self.deep_view()[t as int] == self.tables.tables@[t as int].deep_view());
                }
                match find_row(&self.tables.tables[t].rows, id) {
                    Some(record) => Some(record.clone()),
                    None => None,
                }
            },
            None => None,
        }
    }

    /// The records of the table called `table_name`, in the order of their
    /// identifiers; nothing if there is no such table.
    pub fn get_all(&self, table_name: &str) -> (records: Option<Vec<RecordBytes>>)
        ensures
            match table_position(self.deep_view(), table_name@) {
                Some(t) => records matches Some(rows) && rows.deep_view() == self.deep_view()[t].rows,
                None => records is None,
            },
    {
        match self.tables.position(table_name) {
            Some(t) => {
                proof {
                    assert(self.deep_view()[t as int] == self.tables.tables@[t as int].deep_view());
                }
                Some(self.tables.tables[t].rows.clone())
            },
            None => None,
        }
    }

    /// The keys under which `record` is to be filed in the indices of the
    /// table at position `p`, or the first reason why it cannot be.
    fn plan_insert(&self, p: usize, record: &RecordBytes) -> (out: Result<Vec<IndexKey>, DbError>)
        requires
            self.wf(),
            p < self.deep_view().len(),
        ensures
            match out {
                Ok(keys) => {
                    &&& insert_error(
                        self.deep_view(),
                        p as int,
                        record.deep_view(),
                        self.deep_view()[p as int].indices.len(),
                    ) is None
                    &&& keys@.len() == self.deep_view()[p as int].indices.len()
                    &&& forall|q: int|
                        0 <= q < keys@.len() ==> self.deep_view()[p as int].key_of(
                            q,
                            record.deep_view(),
                        ) == Some(#[trigger] keys@[q])
                },
                Err(err) => insert_error(
                    self.deep_view(),
                    p as int,
                    record.deep_view(),
                    self.deep_view()[p as int].indices.len(),
                ) == Some(err.deep_view()),
            },
    {
        let ghost db = self.deep_view();
        let ghost row = record.deep_view();
        let table = &self.tables.tables[p];
        proof {
            assert(db[p as int] == table.deep_view());
            assert(db[p as int].wf());
        }
        let mut keys: Vec<IndexKey> = Vec::new();
        let mut q: usize = 0;
        while q < table.indices.len()
            invariant
                q <= table.indices@.len(),
                self.wf(),
                db == self.deep_view(),
                row == record.deep_view(),
                p < db.len(),
                db[p as int] == table.deep_view(),
                db[p as int].wf(),
                keys@.len() == q,
                insert_error(db, p as int, row, q as nat) is None,
                forall|k: int| 0 <= k < q ==> db[p as int].key_of(k, row) == Some(#[trigger] keys@[k]),
            decreases table.indices@.len() - q,
        {
            proof {
                assert(insert_error(db, p as int, row, (q + 1) as nat) == index_insert_error(
                    db,
                    p as int,
                    q as int,
                    row,
                ));
            }
            let key = match table.key_for(q, record) {
                Ok(key) => key,
                Err(expected) => {
                    proof {
                        lemma_insert_error_stays(db, p as int, row, (q + 1) as nat, db[p as int].indices.len());
                    }
                    return Err(DbError::WrongType { expected });
                },
            };
            let target = table.target_of(q);
            proof {
                let field = db[p as int].field_of(q as int)->0;
                assert(record_key(row.bytes, field) == Some(key));
                match field.ty {
                    FieldTyView::RecordId { table_name } => {
                        assert(db[p as int].refers_to(q as int, table_name));
                        assert(target is Some && target->0@ == table_name);
                    },
                    _ => {
                        assert(target is None) by {
                            if target is Some {
                                assert(db[p as int].refers_to(q as int, target->0@));
                            }
                        }
                    },
                }
            }
            match (key, target) {
                (IndexKey::Id(id), Some(target)) => {
                    let exists = (crate::names::str_eq(target.as_str(), table.name.as_str())
                        && id.0 == record.id().0) || self.has_record(target.as_str(), id);
                    proof {
                        assert(exists == row_exists_with(db, p as int, row, target@, id));
                    }
                    if !exists {
                        proof {
                            lemma_insert_error_stays(db, p as int, row, (q + 1) as nat, db[p as int].indices.len());
                        }
                        return Err(
                            DbError::RecordDoesNotExist { table: target.clone(), record: id },
                        );
                    }
                },
                _ => {},
            }
            keys.push(key);
            q += 1;
        }
        Ok(keys)
    }

    /// Inserts `record` into the table called `table_name`, and enters it
    /// in every index of the table. A record that refers to a record that
    /// is not there is refused, and so is one whose indexed fields do not
    /// decode; the store is then left as it was.
    pub fn insert_record(&mut self, table_name: &str, record: &RecordBytes) -> (out: Result<
        (),
        DbError,
    >)
        requires
            old(self).wf(),
        ensures
            final(self).wf(),
            error_view(out) == insert_refused(
                old(self).deep_view(),
                table_name@,
                record.deep_view(),
            ),
            out is Err ==> final(self).deep_view() == old(self).deep_view(),
            out is Ok ==> db_with_row(
                old(self).deep_view(),
                final(self).deep_view(),
                table_position(old(self).deep_view(), table_name@)->0,
                record.deep_view(),
            ),
    {
        let ghost db = self.deep_view();
        let p = match self.tables.position(table_name) {
            Some(p) => p,
            None => {
                return Err(DbError::TableDoesNotExist { table: table_name.to_owned() });
            },
        };
        proof {
            assert(db[p as int] == self.tables.tables@[p as int].deep_view());
            assert(db[p as int].wf());
        }
        if find_row(&self.tables.tables[p].rows, record.id()).is_some() {
            return Err(
                DbError::RecordAlreadyExists { table: table_name.to_owned(), record: record.id() },
            );
        }
        let keys = match self.plan_insert(p, record) {
            Ok(keys) => keys,
            Err(err) => {
                return Err(err);
            },
        };
        let ghost tables_before = self.tables.tables@;
        let table = &mut self.tables.tables[p];
        table.add_record(record.clone(), &keys);
        proof {
            let after = self.deep_view();
            assert(after[p as int] == self.tables.tables@[p as int].deep_view());
            assert forall|s: int| 0 <= s < db.len() && s != p implies after[s] == db[s] by {
                assert(self.tables.tables@[s] == tables_before[s]);
                assert(db[s] == tables_before[s].deep_view());
            }
            lemma_same_schema_wf(db, after, p as int);
        }
        Ok(())
    }
}

/// An error met among the first indices is the error met among all.
pub proof fn lemma_insert_error_stays(
    db: Seq<TableStateView>,
    p: int,
    row: RecordBytesView,
    count: nat,
    all: nat,
)
    requires
        count <= all,
        insert_error(db, p, row, count) is Some,
    ensures
        insert_error(db, p, row, all) == insert_error(db, p, row, count),
    decreases all,
{
    if count < all {
        lemma_insert_error_stays(db, p, row, count, (all - 1) as nat);
    }
}

/// Where one table was replaced by one of the same name, layout and
/// indices that is in order, the whole stays in order.
pub proof fn lemma_same_schema_wf(before: Seq<TableStateView>, after: Seq<TableStateView>, p: int)
    requires
        db_wf(before),
        0 <= p < before.len(),
        after.len() == before.len(),
        after[p].wf(),
        after[p].name == before[p].name,
        after[p].defs() == before[p].defs(),
        after[p].indices.len() == before[p].indices.len(),
        forall|s: int| 0 <= s < before.len() && s != p ==> after[s] == before[s],
    ensures
        db_wf(after),
        table_names(after) == table_names(before),
{
    assert(table_names(after) =~= table_names(before));
    assert forall|a: int, q: int| 0 <= a < after.len() && 0 <= q < after[a].indices.len() implies (
    #[trigger] after[a].indices[q]).def.index_name == before[a].indices[q].def.index_name by {
        if a == p {
            assert(after[p].defs()[q] == before[p].defs()[q]);
            assert(after[p].defs()[q] == after[p].indices[q].def);
            assert(before[p].defs()[q] == before[p].indices[q].def);
        } else {
            assert(after[a] == before[a]);
        }
    }
    assert forall|a: int, q: int, s: int, t: int|
        0 <= a < after.len() && 0 <= q < after[a].indices.len() && 0 <= s < after.len() && 0 <= t
            < after[s].indices.len() && (#[trigger] after[a].indices[q]).def.index_name
            == (#[trigger] after[s].indices[t]).def.index_name implies a == s && q == t by {
        assert(before[a].indices[q].def.index_name == before[s].indices[t].def.index_name);
    }
}

} // verus!
