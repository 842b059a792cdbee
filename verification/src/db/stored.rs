//! What a backing store has to hold of a record, and taking records back
//! from one.
//!
//! The record store keeps its records and index entries in memory. A
//! caller that also keeps them elsewhere writes, for a record inserted,
//! the record and its entries; and removes, for each record that a
//! deletion gives back, the record and its entries. When it starts again
//! it registers the tables and restores their records.

use vstd::prelude::*;

use crate::db::cascade::{gone_listed, is_taken, taken_gone, within};
use crate::db::entries::{IndexEntry, IndexKey};
use crate::db::record_ext::{db_with_row, lemma_same_schema_wf, Db};
use crate::db::rows::{find_row, has_row, lemma_row_by_id};
use crate::db::tables::{db_wf, same_schema, table_position, TableState, TableStateView};
use crate::db_core::record::{RecordBytes, RecordBytesView};

verus! {

/// A place in which a record is filed: the name of an index, and the key
/// in it.
pub type Filing = (String, IndexKey);

/// What a list of places stands for.
pub open spec fn filings_view(places: Seq<Filing>) -> Seq<(Seq<char>, IndexKey)> {
    Seq::new(places.len(), |q: int| (places[q].0@, places[q].1))
}

impl TableStateView {
    /// Whether `row` has a key for every index of the table.
    pub open spec fn has_keys(self, row: RecordBytesView) -> bool {
        forall|q: int| 0 <= q < self.indices.len() ==> (#[trigger] self.key_of(q, row)) is Some
    }

    /// The places in which `row` is filed: one in each index of the table,
    /// in order.
    pub open spec fn filed_under(self, row: RecordBytesView) -> Seq<(Seq<char>, IndexKey)> {
        Seq::new(
            self.indices.len(),
            |q: int| (self.indices[q].def.index_name, self.key_of(q, row)->0),
        )
    }
}

impl TableState {
    /// The keys under which `record` is filed in the indices of the
    /// table, in order; nothing if one of the indexed fields does not
    /// decode to a key.
    pub fn keys_of(&self, record: &RecordBytes) -> (out: Option<Vec<IndexKey>>)
        requires
            self.deep_view().defs() == self.deep_view().data.indices(self.deep_view().name),
        ensures
            match out {
                Some(keys) => {
                    &&& keys@.len() == self.deep_view().indices.len()
                    &&& forall|q: int|
                        0 <= q < keys@.len() ==> self.deep_view().key_of(q, record.deep_view())
                            == Some(#[trigger] keys@[q])
                },
                None => !self.deep_view().has_keys(record.deep_view()),
            },
    {
        let mut keys: Vec<IndexKey> = Vec::new();
        let mut q: usize = 0;
        while q < self.indices.len()
            invariant
                q <= self.indices@.len(),
                self.indices@.len() == self.deep_view().indices.len(),
                self.deep_view().defs() == self.deep_view().data.indices(self.deep_view().name),
                keys@.len() == q,
                forall|k: int|
                    0 <= k < q ==> self.deep_view().key_of(k, record.deep_view()) == Some(
                        #[trigger] keys@[k],
                    ),
            decreases self.indices@.len() - q,
        {
            match self.key_for(q, record) {
                Ok(key) => {
                    keys.push(key);
                },
                Err(_) => {
                    proof {
                        assert(self.deep_view().key_of(q as int, record.deep_view()) is None);
                    }
                    return None;
                },
            }
            q += 1;
        }
        Some(keys)
    }
}

impl Db {
    /// The places in which `record` is filed as a record of the table
    /// called `table_name`: for each index of the table its name and the
    /// key that the record has in it. Nothing if there is no such table,
    /// or if one of the record's indexed fields does not decode to a key.
    pub fn entries_of(&self, table_name: &str, record: &RecordBytes) -> (out: Option<Vec<Filing>>)
        requires
            self.wf(),
        ensures
            match table_position(self.deep_view(), table_name@) {
                Some(p) => if self.deep_view()[p].has_keys(record.deep_view()) {
                    out matches Some(places) && filings_view(places@) == self.deep_view()[p].filed_under(
                        record.deep_view(),
                    )
                } else {
                    out is None
                },
                None => out is None,
            },
    {
        let p = match self.tables.position(table_name) {
            Some(p) => p,
            None => {
                return None;
            },
        };
        let table = &self.tables.tables[p];
        let ghost view = self.deep_view()[p as int];
        let ghost row = record.deep_view();
        proof {
            assert(view == table.deep_view());
            assert(view.wf());
        }
        let keys = match table.keys_of(record) {
            Some(keys) => keys,
            None => {
                return None;
            },
        };
        let mut places: Vec<Filing> = Vec::new();
        let mut q: usize = 0;
        while q < table.indices.len()
            invariant
                q <= table.indices@.len(),
                view == table.deep_view(),
                table.indices@.len() == view.indices.len(),
                keys@.len() == view.indices.len(),
                forall|k: int| 0 <= k < keys@.len() ==> view.key_of(k, row) == Some(#[trigger] keys@[k]),
                places@.len() == q,
                forall|k: int|
                    0 <= k < q ==> (#[trigger] places@[k]).0@ == view.indices[k].def.index_name
                        && places@[k].1 == keys@[k],
            decreases table.indices@.len() - q,
        {
            proof {
                assert(view.indices[q as int] == table.indices@[q as int].deep_view());
            }
            places.push((table.indices[q].def.index_name.clone(), keys[q]));
            q += 1;
        }
        proof {
            assert(view.has_keys(row)) by {
                assert forall|k: int| 0 <= k < view.indices.len() implies (#[trigger] view.key_of(
                    k,
                    row,
                )) is Some by {
                    assert(view.key_of(k, row) == Some(keys@[k]));
                }
            }
            assert(filings_view(places@) =~= view.filed_under(row));
        }
        Some(places)
    }

    /// Takes `record` back into the table called `table_name`, and enters
    /// it in every index of the table, as an insertion does. What the
    /// record refers to is not asked for: a record that was inserted once
    /// comes back whether or not the records that it refers to are back
    /// yet. Tells whether the record was taken: it is not if there is no
    /// such table, if a record of its identifier is there already, or if
    /// one of its indexed fields does not decode to a key; the store is
    /// then left as it was.
    pub fn restore_record(&mut self, table_name: &str, record: &RecordBytes) -> (taken: bool)
        requires
            old(self).wf(),
        ensures
            final(self).wf(),
            taken == (table_position(old(self).deep_view(), table_name@) matches Some(p) && !has_row(
                old(self).deep_view()[p].rows,
                record.deep_view().id,
            ) && old(self).deep_view()[p].has_keys(record.deep_view())),
            !taken ==> final(self).deep_view() == old(self).deep_view(),
            taken ==> db_with_row(
                old(self).deep_view(),
                final(self).deep_view(),
                table_position(old(self).deep_view(), table_name@)->0,
                record.deep_view(),
            ),
    {
        let ghost db = self.deep_view();
        let p = match self.tables.position(table_name) {
            Some(p) => p,
            None => {
                return false;
            },
        };
        proof {
            assert(db[p as int] == self.tables.tables@[p as int].deep_view());
            assert(db[p as int].wf());
        }
        if find_row(&self.tables.tables[p].rows, record.id()).is_some() {
            return false;
        }
        let keys = match self.tables.tables[p].keys_of(record) {
            Some(keys) => keys,
            None => {
                return false;
            },
        };
        proof {
            assert(db[p as int].has_keys(record.deep_view())) by {
                assert forall|k: int| 0 <= k < db[p as int].indices.len() implies (
                #[trigger] db[p as int].key_of(k, record.deep_view())) is Some by {
                    assert(db[p as int].key_of(k, record.deep_view()) == Some(keys@[k]));
                }
            }
        }
        let ghost tables_before = self.tables.tables@;
        let table = &mut self.tables.tables[p];
        table.add_record(record.clone(), &keys);
        proof {
            let after = self.deep_view();
            assert(after[p as int] == self.tables.tables@[p as int].deep_view());
            assert forall|s: int| 0 <= s < db.len() && s != p implies after[s] == db[s] by {
                assert(self.tables.tables@[s] == tables_before[s]);
                assert(db[s] == tables_before[s].deep_view());
            }
            lemma_same_schema_wf(db, after, p as int);
        }
        true
    }
}

/// The entries that a deletion removes are the entries of the records
/// that it gives back: an entry of `old` is gone from `now` exactly if it
/// is the entry of one of the records `taken` in an index of that
/// record's table.
pub proof fn lemma_deleted_entries(
    old: Seq<TableStateView>,
    now: Seq<TableStateView>,
    taken: Seq<(int, RecordBytesView)>,
    p: int,
    q: int,
    e: IndexEntry,
)
    requires
        db_wf(old),
        db_wf(now),
        same_schema(old, now),
        within(old, now),
        taken_gone(old, now, taken),
        gone_listed(old, now, taken),
        0 <= p < old.len(),
        0 <= q < old[p].indices.len(),
    ensures
        (old[p].indices[q].entries.contains(e) && !now[p].indices[q].entries.contains(e)) <==> (
        exists|i: int|
            0 <= i < taken.len() && (#[trigger] taken[i]).0 == p && taken[i].1.id == e.record
                && old[p].key_of(q, taken[i].1) == Some(e.key)),
{
    assert(old[p].wf());
    assert(now[p].wf());
    assert(now[p].defs().len() == old[p].defs().len());
    assert(now[p].indices.len() == old[p].indices.len());
    assert(now[p].defs()[q] == now[p].indices[q].def);
    assert(old[p].defs()[q] == old[p].indices[q].def);
    assert(forall|r: RecordBytesView| now[p].key_of(q, r) == old[p].key_of(q, r));
    if old[p].indices[q].entries.contains(e) && !now[p].indices[q].entries.contains(e) {
        assert(old[p].entries_sound(q));
        let r = choose|r: RecordBytesView|
            old[p].rows.contains(r) && r.id == e.record && old[p].key_of(q, r) == Some(e.key);
        assert(!now[p].rows.contains(r)) by {
            if now[p].rows.contains(r) {
                assert(now[p].rows_indexed(q));
            }
        }
        assert(is_taken(taken, p, r.id));
        let i = choose|i: int|
            0 <= i < taken.len() && (#[trigger] taken[i]).0 == p && taken[i].1.id == r.id;
        lemma_row_by_id(old[p].rows, r, taken[i].1);
    }
    if exists|i: int|
        0 <= i < taken.len() && (#[trigger] taken[i]).0 == p && taken[i].1.id == e.record
            && old[p].key_of(q, taken[i].1) == Some(e.key) {
        let i = choose|i: int|
            0 <= i < taken.len() && (#[trigger] taken[i]).0 == p && taken[i].1.id == e.record
                && old[p].key_of(q, taken[i].1) == Some(e.key);
        assert(old[p].rows_indexed(q));
        assert(old[p].indices[q].entries.contains(e));
        if now[p].indices[q].entries.contains(e) {
            assert(now[p].entries_sound(q));
            let r = choose|r: RecordBytesView|
                now[p].rows.contains(r) && r.id == e.record && now[p].key_of(q, r) == Some(e.key);
            let w = choose|w: int| 0 <= w < now[p].rows.len() && now[p].rows[w] == r;
            assert(has_row(now[p].rows, e.record));
        }
    }
}

} // verus!
