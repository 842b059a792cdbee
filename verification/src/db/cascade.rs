//! Deleting a record together with every record that refers to it.
//!
//! A deleted record is taken out of its table first. Then its entries are
//! removed from the indices of its table, and every index kept over
//! references to its table gives up the entries filed under the record's
//! identifier. The records that those entries named are taken out of their
//! table in turn and wait to be dealt with in the same way.

use vstd::prelude::*;

use crate::bytepack::extern_types::Ulid;
use crate::db::entries::{entries_sorted, remove_entry, remove_key, IndexEntry, IndexKey};
use crate::db::error::{DbError, DbErrorView};
use crate::db::record_ext::Db;
use crate::db::tables::table_position;
use crate::db::rows::{has_row, lemma_row_by_id, rows_sorted, take_row};
use crate::db::tables::{db_wf, same_schema, TableState, TableStateView};
use crate::db_core::record::{RecordBytes, RecordBytesView};

verus! {

/// A record that was taken out of the table at the position given.
pub type Taken = (usize, RecordBytes);

/// What a list of taken records stands for.
pub open spec fn taken_view(taken: Seq<Taken>) -> Seq<(int, RecordBytesView)> {
    Seq::new(taken.len(), |i: int| (taken[i].0 as int, taken[i].1.deep_view()))
}

/// Whether the record `id` of the table at position `t` is among `taken`.
pub open spec fn is_taken(taken: Seq<(int, RecordBytesView)>, t: int, id: Ulid) -> bool {
    exists|i: int| 0 <= i < taken.len() && (#[trigger] taken[i]).0 == t && taken[i].1.id == id
}

/// Whether every record and entry of `now` is one of `old`.
pub open spec fn within(old: Seq<TableStateView>, now: Seq<TableStateView>) -> bool {
    &&& forall|p: int, r: RecordBytesView|
        0 <= p < now.len() && #[trigger] now[p].rows.contains(r) ==> old[p].rows.contains(r)
    &&& forall|p: int, q: int, e: IndexEntry|
        0 <= p < now.len() && 0 <= q < now[p].indices.len()
            && #[trigger] now[p].indices[q].entries.contains(e)
            ==> old[p].indices[q].entries.contains(e)
}

/// Whether all records and entries stand in order.
pub open spec fn all_sorted(now: Seq<TableStateView>) -> bool {
    &&& forall|p: int| 0 <= p < now.len() ==> rows_sorted(#[trigger] now[p].rows)
    &&& forall|p: int, q: int|
        0 <= p < now.len() && 0 <= q < now[p].indices.len() ==> entries_sorted(
            #[trigger] now[p].indices[q].entries,
        )
}

/// Whether every record is entered in every index of its table.
pub open spec fn all_indexed(now: Seq<TableStateView>) -> bool {
    forall|p: int, q: int|
        0 <= p < now.len() && 0 <= q < now[p].indices.len() ==> #[trigger] now[p].rows_indexed(q)
}

/// Whether every entry names a record that is in its table or among
/// `taken`.
pub open spec fn entries_alive(now: Seq<TableStateView>, taken: Seq<(int, RecordBytesView)>) -> bool {
    forall|p: int, q: int, e: IndexEntry|
        0 <= p < now.len() && 0 <= q < now[p].indices.len()
            && #[trigger] now[p].indices[q].entries.contains(e) ==> has_row(
            now[p].rows,
            e.record,
        ) || is_taken(taken, p, e.record)
}

/// Whether no entry of an index kept over references to the table at
/// position `t` is filed under `id`.
pub open spec fn unreferenced(now: Seq<TableStateView>, t: int, id: Ulid) -> bool {
    forall|p: int, q: int, e: IndexEntry|
        0 <= p < now.len() && 0 <= q < now[p].indices.len() && now[p].refers_to(q, now[t].name)
            && #[trigger] now[p].indices[q].entries.contains(e) ==> e.key != IndexKey::Id(id)
}

/// Whether every record that is gone and not among `taken` is referred to
/// by no entry any more.
pub open spec fn settled(
    old: Seq<TableStateView>,
    now: Seq<TableStateView>,
    taken: Seq<(int, RecordBytesView)>,
) -> bool {
    forall|t: int, d: RecordBytesView|
        0 <= t < now.len() && #[trigger] old[t].rows.contains(d) && !now[t].rows.contains(d)
            && !is_taken(taken, t, d.id) ==> unreferenced(now, t, d.id)
}

/// Whether each of `taken` is a record of `old` that is gone from `now`.
pub open spec fn taken_gone(
    old: Seq<TableStateView>,
    now: Seq<TableStateView>,
    taken: Seq<(int, RecordBytesView)>,
) -> bool {
    forall|i: int|
        0 <= i < taken.len() ==> {
            &&& 0 <= (#[trigger] taken[i]).0 < now.len()
            &&& old[taken[i].0].rows.contains(taken[i].1)
            &&& !has_row(now[taken[i].0].rows, taken[i].1.id)
        }
}

/// What holds while records are being deleted: the tables are those of
/// `old`, nothing was added, every record left is entered in its indices,
/// every entry left names a record that is left or still waits among
/// `taken`, and every record that is gone and does not wait is referred to
/// by no entry.
pub open spec fn cascading(
    old: Seq<TableStateView>,
    now: Seq<TableStateView>,
    taken: Seq<(int, RecordBytesView)>,
) -> bool {
    &&& same_schema(old, now)
    &&& forall|p: int| 0 <= p < now.len() ==> (#[trigger] now[p]).indices.len() == old[p].indices.len()
    &&& within(old, now)
    &&& all_sorted(now)
    &&& all_indexed(now)
    &&& entries_alive(now, taken)
    &&& settled(old, now, taken)
    &&& taken_gone(old, now, taken)
}

/// Whether every record of `before` that is gone from `after` is among
/// `taken`.
pub open spec fn gone_listed(
    before: Seq<TableStateView>,
    after: Seq<TableStateView>,
    taken: Seq<(int, RecordBytesView)>,
) -> bool {
    forall|p: int, r: RecordBytesView|
        0 <= p < before.len() && #[trigger] before[p].rows.contains(r) && !after[p].rows.contains(r)
            ==> is_taken(taken, p, r.id)
}

/// Whether `long` begins with `short`.
pub open spec fn begins_with(
    long: Seq<(int, RecordBytesView)>,
    short: Seq<(int, RecordBytesView)>,
) -> bool {
    short.len() <= long.len() && forall|i: int| 0 <= i < short.len() ==> long[i] == short[i]
}

/// Records that are gone after one step or after the next are gone after
/// both, and listed where the later list begins with the earlier.
pub proof fn lemma_gone_listed(
    a: Seq<TableStateView>,
    b: Seq<TableStateView>,
    c: Seq<TableStateView>,
    first: Seq<(int, RecordBytesView)>,
    both: Seq<(int, RecordBytesView)>,
)
    requires
        a.len() == b.len(),
        b.len() == c.len(),
        gone_listed(a, b, first),
        gone_listed(b, c, both),
        begins_with(both, first),
    ensures
        gone_listed(a, c, both),
{
    assert forall|p: int, r: RecordBytesView|
        0 <= p < a.len() && #[trigger] a[p].rows.contains(r) && !c[p].rows.contains(r) implies is_taken(
        both,
        p,
        r.id,
    ) by {
        if !b[p].rows.contains(r) {
            let i = choose|i: int|
                0 <= i < first.len() && (#[trigger] first[i]).0 == p && first[i].1.id == r.id;
            assert(both[i] == first[i]);
        }
    }
}

impl TableState {
    /// Removes `entry` from the index at position `b`.
    pub fn drop_entry(&mut self, b: usize, entry: IndexEntry)
        requires
            b < old(self).deep_view().indices.len(),
            entries_sorted(old(self).deep_view().indices[b as int].entries),
        ensures
            final(self).deep_view().name == old(self).deep_view().name,
            final(self).deep_view().data == old(self).deep_view().data,
            final(self).deep_view().rows == old(self).deep_view().rows,
            final(self).deep_view().defs() == old(self).deep_view().defs(),
            final(self).deep_view().indices.len() == old(self).deep_view().indices.len(),
            forall|q: int|
                0 <= q < old(self).deep_view().indices.len() && q != b ==> (
                #[trigger] final(self).deep_view().indices[q]) == old(self).deep_view().indices[q],
            final(self).deep_view().indices[b as int].def == old(self).deep_view().indices[b as int].def,
            entries_sorted(final(self).deep_view().indices[b as int].entries),
            forall|e: IndexEntry|
                final(self).deep_view().indices[b as int].entries.contains(e) <==> old(
                    self,
                ).deep_view().indices[b as int].entries.contains(e) && e != entry,
    {
        let ghost before = self.deep_view();
        let ghost indices_before = self.indices@;
        proof {
            assert(before.indices[b as int] == self.indices@[b as int].deep_view());
        }
        let index = &mut self.indices[b];
        remove_entry(&mut index.entries, entry);
        proof {
            let after = self.deep_view();
            assert(after.indices[b as int] == self.indices@[b as int].deep_view());
            assert forall|q: int| 0 <= q < before.indices.len() && q != b implies (
            #[trigger] after.indices[q]) == before.indices[q] by {
                assert(self.indices@[q] == indices_before[q]);
                assert(before.indices[q] == indices_before[q].deep_view());
            }
            assert(after.defs() =~= before.defs());
        }
    }

    /// Removes from the index at position `b` every entry filed under
    /// `key`, takes the records that those entries named out of the table,
    /// and returns them.
    pub fn detach(&mut self, b: usize, key: IndexKey) -> (taken: Vec<RecordBytes>)
        requires
            b < old(self).deep_view().indices.len(),
            entries_sorted(old(self).deep_view().indices[b as int].entries),
            rows_sorted(old(self).deep_view().rows),
        ensures
            final(self).deep_view().name == old(self).deep_view().name,
            final(self).deep_view().data == old(self).deep_view().data,
            final(self).deep_view().defs() == old(self).deep_view().defs(),
            final(self).deep_view().indices.len() == old(self).deep_view().indices.len(),
            forall|q: int|
                0 <= q < old(self).deep_view().indices.len() && q != b ==> (
                #[trigger] final(self).deep_view().indices[q]) == old(self).deep_view().indices[q],
            final(self).deep_view().indices[b as int].def == old(self).deep_view().indices[b as int].def,
            entries_sorted(final(self).deep_view().indices[b as int].entries),
            rows_sorted(final(self).deep_view().rows),
            forall|e: IndexEntry|
                final(self).deep_view().indices[b as int].entries.contains(e) <==> old(
                    self,
                ).deep_view().indices[b as int].entries.contains(e) && e.key != key,
            forall|r: RecordBytesView| #[trigger]
                final(self).deep_view().rows.contains(r) <==> old(self).deep_view().rows.contains(
                    r,
                ) && !old(self).deep_view().indices[b as int].entries.contains(
                    IndexEntry { key, record: r.id },
                ),
            forall|i: int|
                0 <= i < taken@.len() ==> {
                    &&& old(self).deep_view().rows.contains((#[trigger] taken@[i]).deep_view())
                    &&& old(self).deep_view().indices[b as int].entries.contains(
                        IndexEntry { key, record: taken@[i].deep_view().id },
                    )
                },
            forall|r: RecordBytesView|
                old(self).deep_view().rows.contains(r) && old(
                    self,
                ).deep_view().indices[b as int].entries.contains(
                    IndexEntry { key, record: r.id },
                ) ==> exists|i: int| 0 <= i < taken@.len() && (#[trigger] taken@[i]).deep_view() == r,
            final(self).deep_view().rows.len() + taken@.len() == old(self).deep_view().rows.len(),
    {
        let ghost before = self.deep_view();
        let ghost indices_before = self.indices@;
        proof {
            assert(before.indices[b as int] == self.indices@[b as int].deep_view());
        }
        let index = &mut self.indices[b];
        let ids = remove_key(&mut index.entries, key);
        proof {
            let mid = self.deep_view();
            assert(mid.indices[b as int] == self.indices@[b as int].deep_view());
            assert forall|q: int| 0 <= q < before.indices.len() && q != b implies (
            #[trigger] mid.indices[q]) == before.indices[q] by {
                assert(self.indices@[q] == indices_before[q]);
                assert(before.indices[q] == indices_before[q].deep_view());
            }
            assert(mid.defs() =~= before.defs());
        }
        let ghost mid = self.deep_view();
        let ghost old_entries = before.indices[b as int].entries;
        let mut taken: Vec<RecordBytes> = Vec::new();
        let mut i: usize = 0;
        while i < ids.len()
            invariant
                i <= ids@.len(),
                self.deep_view().name == before.name,
                self.deep_view().data == before.data,
                self.deep_view().indices == mid.indices,
                rows_sorted(before.rows),
                rows_sorted(self.deep_view().rows),
                forall|id: Ulid| ids@.contains(id) <==> old_entries.contains(IndexEntry { key, record: id }),
                forall|x: int, y: int| 0 <= x < y < ids@.len() ==> ids@[x].0 < ids@[y].0,
                forall|r: RecordBytesView| #[trigger]
                    self.deep_view().rows.contains(r) <==> before.rows.contains(r) && !(exists|k: int|
                        0 <= k < i && ids@[k] == r.id),
                forall|k: int|
                    0 <= k < taken@.len() ==> {
                        &&& before.rows.contains((#[trigger] taken@[k]).deep_view())
                        &&& exists|j: int| 0 <= j < i && ids@[j] == taken@[k].deep_view().id
                    },
                forall|r: RecordBytesView|
                    before.rows.contains(r) && (exists|k: int| 0 <= k < i && ids@[k] == r.id)
                        ==> exists|k: int| 0 <= k < taken@.len() && (#[trigger] taken@[k]).deep_view() == r,
                self.deep_view().rows.len() + taken@.len() == before.rows.len(),
            decreases ids@.len() - i,
        {
            let ghost rows_before = self.deep_view().rows;
            let ghost taken_before = taken@;
            let id = ids[i];
            match take_row(&mut self.rows, id) {
                Some(row) => {
                    taken.push(row);
                    proof {
                        let rows_now = self.deep_view().rows;
                        let r0 = row.deep_view();
                        assert(taken@[taken_before.len() as int] == row);
                        assert forall|r: RecordBytesView| #[trigger]
                            rows_now.contains(r) <==> before.rows.contains(r) && !(exists|k: int|
                                0 <= k < i + 1 && ids@[k] == r.id) by {
                            if rows_now.contains(r) {
                                assert(rows_before.contains(r) && r.id != id);
                                if exists|k: int| 0 <= k < i + 1 && ids@[k] == r.id {
                                    let k = choose|k: int| 0 <= k < i + 1 && ids@[k] == r.id;
                                    assert(k < i);
                                }
                            }
                            if before.rows.contains(r) && !(exists|k: int|
                                0 <= k < i + 1 && ids@[k] == r.id) {
                                assert(!(exists|k: int| 0 <= k < i && ids@[k] == r.id)) by {
                                    if exists|k: int| 0 <= k < i && ids@[k] == r.id {
                                        let k = choose|k: int| 0 <= k < i && ids@[k] == r.id;
                                        assert(0 <= k < i + 1 && ids@[k] == r.id);
                                    }
                                }
                                assert(rows_before.contains(r));
                                assert(r.id != id) by {
                                    if r.id == id {
                                        assert(0 <= i < i + 1 && ids@[i as int] == r.id);
                                    }
                                }
                            }
                        }
                        assert forall|k: int| 0 <= k < taken@.len() implies {
                            &&& before.rows.contains((#[trigger] taken@[k]).deep_view())
                            &&& exists|j: int| 0 <= j < i + 1 && ids@[j] == taken@[k].deep_view().id
                        } by {
                            if k < taken_before.len() {
                                assert(taken@[k] == taken_before[k]);
                                let j = choose|j: int|
                                    0 <= j < i && ids@[j] == taken_before[k].deep_view().id;
                                assert(0 <= j < i + 1);
                            } else {
                                assert(rows_before.contains(r0));
                                assert(ids@[i as int] == r0.id);
                            }
                        }
                        assert forall|r: RecordBytesView|
                            before.rows.contains(r) && (exists|k: int|
                                0 <= k < i + 1 && ids@[k] == r.id) implies exists|k: int|
                            0 <= k < taken@.len() && (#[trigger] taken@[k]).deep_view() == r by {
                            let j = choose|j: int| 0 <= j < i + 1 && ids@[j] == r.id;
                            if j < i {
                                let k = choose|k: int|
                                    0 <= k < taken_before.len() && (
                                    #[trigger] taken_before[k]).deep_view() == r;
                                assert(taken@[k] == taken_before[k]);
                            } else {
                                assert(before.rows.contains(r0));
                                lemma_row_by_id(before.rows, r, r0);
                                assert(taken@[taken_before.len() as int].deep_view() == r);
                            }
                        }
                    }
                },
                None => {
                    proof {
                        let rows_now = self.deep_view().rows;
                        assert(rows_now == rows_before);
                        assert forall|r: RecordBytesView| #[trigger]
                            rows_now.contains(r) <==> before.rows.contains(r) && !(exists|k: int|
                                0 <= k < i + 1 && ids@[k] == r.id) by {
                            if rows_now.contains(r) {
                                let w = choose|w: int| 0 <= w < rows_before.len() && rows_before[w] == r;
                                assert(rows_before[w].id != id);
                                if exists|k: int| 0 <= k < i + 1 && ids@[k] == r.id {
                                    let k = choose|k: int| 0 <= k < i + 1 && ids@[k] == r.id;
                                    assert(k < i);
                                }
                            }
                            if before.rows.contains(r) && !(exists|k: int|
                                0 <= k < i + 1 && ids@[k] == r.id) {
                                assert(!(exists|k: int| 0 <= k < i && ids@[k] == r.id)) by {
                                    if exists|k: int| 0 <= k < i && ids@[k] == r.id {
                                        let k = choose|k: int| 0 <= k < i && ids@[k] == r.id;
                                        assert(0 <= k < i + 1 && ids@[k] == r.id);
                                    }
                                }
                            }
                        }
                        assert forall|k: int| 0 <= k < taken@.len() implies {
                            &&& before.rows.contains((#[trigger] taken@[k]).deep_view())
                            &&& exists|j: int| 0 <= j < i + 1 && ids@[j] == taken@[k].deep_view().id
                        } by {
                            let j = choose|j: int| 0 <= j < i && ids@[j] == taken@[k].deep_view().id;
                            assert(0 <= j < i + 1);
                        }
                        assert forall|r: RecordBytesView|
                            before.rows.contains(r) && (exists|k: int|
                                0 <= k < i + 1 && ids@[k] == r.id) implies exists|k: int|
                            0 <= k < taken@.len() && (#[trigger] taken@[k]).deep_view() == r by {
                            let j = choose|j: int| 0 <= j < i + 1 && ids@[j] == r.id;
                            if j == i {
                                // The record cannot be among the rows: a record of
                                // this identifier was looked for and not found.
                                if rows_before.contains(r) {
                                    let w = choose|w: int|
                                        0 <= w < rows_before.len() && rows_before[w] == r;
                                    assert(rows_before[w].id == id);
                                    assert(false);
                                } else {
                                    let x = choose|x: int| 0 <= x < i && ids@[x] == r.id;
                                    assert(ids@[x].0 < ids@[i as int].0);
                                    assert(false);
                                }
                            }
                        }
                    }
                },
            }
            i += 1;
        }
        proof {
            let after = self.deep_view();
            assert forall|r: RecordBytesView| #[trigger]
                after.rows.contains(r) <==> before.rows.contains(r) && !old_entries.contains(
                    IndexEntry { key, record: r.id },
                ) by {
                if before.rows.contains(r) && old_entries.contains(IndexEntry { key, record: r.id }) {
                    assert(ids@.contains(r.id));
                    let k = choose|k: int| 0 <= k < ids@.len() && ids@[k] == r.id;
                    assert(0 <= k < i && ids@[k] == r.id);
                }
                if exists|k: int| 0 <= k < i && ids@[k] == r.id {
                    let k = choose|k: int| 0 <= k < i && ids@[k] == r.id;
                    assert(ids@.contains(r.id));
                }
            }
            assert forall|k: int| 0 <= k < taken@.len() implies old_entries.contains(
                IndexEntry { key, record: (#[trigger] taken@[k]).deep_view().id },
            ) by {
                let j = choose|j: int| 0 <= j < i && ids@[j] == taken@[k].deep_view().id;
                assert(ids@.contains(taken@[k].deep_view().id));
            }
            assert forall|r: RecordBytesView|
                before.rows.contains(r) && old_entries.contains(
                    IndexEntry { key, record: r.id },
                ) implies exists|k: int| 0 <= k < taken@.len() && (#[trigger] taken@[k]).deep_view() == r by {
                assert(ids@.contains(r.id));
                let j = choose|j: int| 0 <= j < ids@.len() && ids@[j] == r.id;
                assert(0 <= j < i && ids@[j] == r.id);
            }
            assert(after.defs() =~= before.defs());
        }
        taken
    }
}

} // verus!

verus! {

/// The number of records in all tables.
pub open spec fn total_rows(db: Seq<TableStateView>) -> nat
    decreases db.len(),
{
    if db.len() == 0 {
        0
    } else {
        total_rows(db.drop_last()) + db.last().rows.len()
    }
}

/// Replacing one table changes the number of records by the difference
/// between the two.
pub proof fn lemma_total_rows_update(db: Seq<TableStateView>, a: int, table: TableStateView)
    requires
        0 <= a < db.len(),
    ensures
        total_rows(db.update(a, table)) + db[a].rows.len() == total_rows(db) + table.rows.len(),
    decreases db.len(),
{
    let after = db.update(a, table);
    if a == db.len() - 1 {
        assert(after.drop_last() =~= db.drop_last());
    } else {
        lemma_total_rows_update(db.drop_last(), a, table);
        assert(after.drop_last() =~= db.drop_last().update(a, table));
    }
}

/// Whether the record `id` has no entry left in the first `upto` indices
/// of its own table, the one at position `t`.
pub open spec fn own_cleared(now: Seq<TableStateView>, t: int, id: Ulid, upto: int) -> bool {
    forall|q: int, e: IndexEntry|
        0 <= q < upto && q < now[t].indices.len() && #[trigger] now[t].indices[q].entries.contains(
            e,
        ) ==> e.record != id
}

/// Whether no index before position `b` of the table at position `a`, nor
/// any index of a table before that, has an entry left that refers to the
/// record `id` of the table at position `t`.
pub open spec fn refs_cleared(now: Seq<TableStateView>, t: int, id: Ulid, a: int, b: int) -> bool {
    forall|p: int, q: int, e: IndexEntry|
        0 <= p < now.len() && 0 <= q < now[p].indices.len() && (p < a || (p == a && q < b))
            && now[p].refers_to(q, now[t].name) && #[trigger] now[p].indices[q].entries.contains(
            e,
        ) ==> e.key != IndexKey::Id(id)
}

/// How many indices of the record's own table have been dealt with when
/// the index at position `b` of the table at position `a` is next.
pub open spec fn own_upto(now: Seq<TableStateView>, t: int, a: int, b: int) -> int {
    if a > t {
        now[t].indices.len() as int
    } else if a == t {
        b
    } else {
        0
    }
}

/// What holds while the record `d`, taken out of the table at position
/// `t`, is being dealt with, and the index at position `b` of the table at
/// position `a` is next.
pub open spec fn dealing(
    old: Seq<TableStateView>,
    now: Seq<TableStateView>,
    taken: Seq<(int, RecordBytesView)>,
    t: int,
    d: RecordBytesView,
    a: int,
    b: int,
) -> bool {
    &&& db_wf(old)
    &&& 0 <= t < now.len()
    &&& cascading(old, now, taken.push((t, d)))
    &&& own_cleared(now, t, d.id, own_upto(now, t, a, b))
    &&& refs_cleared(now, t, d.id, a, b)
}

} // verus!

verus! {

/// Whether `after` is `before` but for the table at position `a`, which
/// kept its name, its layout and its index definitions, and but for the
/// index at position `b` of that table, its other indices.
pub open spec fn only_index_changed(
    before: Seq<TableStateView>,
    after: Seq<TableStateView>,
    a: int,
    b: int,
) -> bool {
    &&& after.len() == before.len()
    &&& forall|s: int| 0 <= s < before.len() && s != a ==> (#[trigger] after[s]) == before[s]
    &&& after[a].name == before[a].name
    &&& after[a].data == before[a].data
    &&& after[a].defs() == before[a].defs()
    &&& after[a].indices.len() == before[a].indices.len()
    &&& forall|q: int|
        0 <= q < before[a].indices.len() && q != b ==> (#[trigger] after[a].indices[q])
            == before[a].indices[q]
    &&& after[a].indices[b].def == before[a].indices[b].def
}

/// Keys are read off the layout and the index definitions alone.
pub proof fn lemma_same_keys(
    before: Seq<TableStateView>,
    after: Seq<TableStateView>,
    p: int,
    q: int,
)
    requires
        0 <= p < before.len(),
        after.len() == before.len(),
        0 <= q < before[p].indices.len(),
        after[p].indices.len() == before[p].indices.len(),
        after[p].data == before[p].data,
        after[p].name == before[p].name,
        after[p].defs() == before[p].defs(),
    ensures
        after[p].field_of(q) == before[p].field_of(q),
        forall|r: RecordBytesView| after[p].key_of(q, r) == before[p].key_of(q, r),
        forall|name: Seq<char>| after[p].refers_to(q, name) == before[p].refers_to(q, name),
{
    assert(after[p].defs()[q] == before[p].defs()[q]);
    assert(after[p].defs()[q] == after[p].indices[q].def);
    assert(before[p].defs()[q] == before[p].indices[q].def);
}

/// Removing a deleted record's own entry from an index of its table keeps
/// what holds while records are being deleted.
#[verifier::rlimit(40)]
pub proof fn lemma_own_step(
    old: Seq<TableStateView>,
    before: Seq<TableStateView>,
    after: Seq<TableStateView>,
    taken: Seq<(int, RecordBytesView)>,
    t: int,
    d: RecordBytesView,
    b: int,
    key: IndexKey,
)
    requires
        db_wf(old),
        cascading(old, before, taken),
        0 <= t < before.len(),
        0 <= b < before[t].indices.len(),
        old[t].rows.contains(d),
        !has_row(before[t].rows, d.id),
        before[t].key_of(b, d) == Some(key),
        own_cleared(before, t, d.id, b),
        only_index_changed(before, after, t, b),
        after[t].rows == before[t].rows,
        entries_sorted(after[t].indices[b].entries),
        forall|e: IndexEntry|
            after[t].indices[b].entries.contains(e) <==> before[t].indices[b].entries.contains(e)
                && e != (IndexEntry { key, record: d.id }),
    ensures
        cascading(old, after, taken),
        own_cleared(after, t, d.id, b + 1),
        within(before, after),
{
    assert forall|p: int, q: int| 0 <= p < after.len() && 0 <= q < after[p].indices.len() implies {
        &&& after[p].field_of(q) == before[p].field_of(q)
        &&& forall|r: RecordBytesView| after[p].key_of(q, r) == before[p].key_of(q, r)
        &&& forall|name: Seq<char>| after[p].refers_to(q, name) == before[p].refers_to(q, name)
    } by {
        lemma_same_keys(before, after, p, q);
    }
    assert forall|p: int| 0 <= p < after.len() implies (#[trigger] after[p]).rows == before[p].rows by {}
    assert(within(before, after)) by {
        assert forall|p: int, q: int, e: IndexEntry|
            0 <= p < after.len() && 0 <= q < after[p].indices.len()
                && #[trigger] after[p].indices[q].entries.contains(e) implies before[p].indices[q].entries.contains(
            e,
        ) by {
            if p == t && q == b {
            } else if p == t {
                assert(after[t].indices[q] == before[t].indices[q]);
            }
        }
    }
    assert(same_schema(old, after)) by {
        assert forall|p: int| 0 <= p < old.len() implies {
            &&& (#[trigger] old[p]).name == after[p].name
            &&& old[p].data == after[p].data
            &&& old[p].defs() == after[p].defs()
        } by {
            assert(old[p].name == before[p].name);
        }
    }
    assert(within(old, after)) by {
        assert forall|p: int, q: int, e: IndexEntry|
            0 <= p < after.len() && 0 <= q < after[p].indices.len()
                && #[trigger] after[p].indices[q].entries.contains(e) implies old[p].indices[q].entries.contains(
            e,
        ) by {
            assert(before[p].indices[q].entries.contains(e));
        }
    }
    assert(all_sorted(after)) by {
        assert forall|p: int, q: int|
            0 <= p < after.len() && 0 <= q < after[p].indices.len() implies entries_sorted(
            #[trigger] after[p].indices[q].entries,
        ) by {
            if p == t && q == b {
            } else if p == t {
                assert(after[t].indices[q] == before[t].indices[q]);
                assert(entries_sorted(before[p].indices[q].entries));
            } else {
                assert(entries_sorted(before[p].indices[q].entries));
            }
        }
        assert forall|p: int| 0 <= p < after.len() implies rows_sorted(#[trigger] after[p].rows) by {
            assert(rows_sorted(before[p].rows));
        }
    }
    assert(all_indexed(after)) by {
        assert forall|p: int, q: int|
            0 <= p < after.len() && 0 <= q < after[p].indices.len() implies #[trigger] after[p].rows_indexed(
            q,
        ) by {
            assert(before[p].rows_indexed(q));
            assert forall|r: RecordBytesView| #[trigger]
                after[p].rows.contains(r) implies (after[p].key_of(q, r) matches Some(k)
                && after[p].indices[q].entries.contains(IndexEntry { key: k, record: r.id })) by {
                assert(before[p].rows.contains(r));
                let k = before[p].key_of(q, r)->0;
                assert(before[p].indices[q].entries.contains(IndexEntry { key: k, record: r.id }));
                if p == t && q == b {
                    assert(r.id != d.id) by {
                        let w = choose|w: int| 0 <= w < before[t].rows.len() && before[t].rows[w] == r;
                        assert(before[t].rows[w].id == r.id);
                    }
                } else if p == t {
                    assert(after[t].indices[q] == before[t].indices[q]);
                }
            }
        }
    }
    assert(entries_alive(after, taken)) by {
        assert forall|p: int, q: int, e: IndexEntry|
            0 <= p < after.len() && 0 <= q < after[p].indices.len()
                && #[trigger] after[p].indices[q].entries.contains(e) implies has_row(
            after[p].rows,
            e.record,
        ) || is_taken(taken, p, e.record) by {
            assert(before[p].indices[q].entries.contains(e));
        }
    }
    assert(settled(old, after, taken)) by {
        assert forall|s: int, x: RecordBytesView|
            0 <= s < after.len() && #[trigger] old[s].rows.contains(x) && !after[s].rows.contains(x)
                && !is_taken(taken, s, x.id) implies unreferenced(after, s, x.id) by {
            assert(unreferenced(before, s, x.id));
            assert forall|p: int, q: int, e: IndexEntry|
                0 <= p < after.len() && 0 <= q < after[p].indices.len() && after[p].refers_to(
                    q,
                    after[s].name,
                ) && #[trigger] after[p].indices[q].entries.contains(e) implies e.key
                != IndexKey::Id(x.id) by {
                assert(before[p].indices[q].entries.contains(e));
                assert(before[p].refers_to(q, before[s].name));
            }
        }
    }
    assert(taken_gone(old, after, taken)) by {
        assert forall|i: int| 0 <= i < taken.len() implies {
            &&& 0 <= (#[trigger] taken[i]).0 < after.len()
            &&& old[taken[i].0].rows.contains(taken[i].1)
            &&& !has_row(after[taken[i].0].rows, taken[i].1.id)
        } by {
            assert(after[taken[i].0].rows == before[taken[i].0].rows);
        }
    }
    assert(own_cleared(after, t, d.id, b + 1)) by {
        assert forall|q: int, e: IndexEntry|
            0 <= q < b + 1 && q < after[t].indices.len()
                && #[trigger] after[t].indices[q].entries.contains(e) implies e.record != d.id by {
            if q < b {
                assert(after[t].indices[q] == before[t].indices[q]);
                assert(before[t].indices[q].entries.contains(e));
            } else if e.record == d.id {
                assert(before[t].indices[b].entries.contains(e));
                assert(old[t].indices[b].entries.contains(e));
                assert(old[t].entries_sound(b));
                let r = choose|r: RecordBytesView|
                    old[t].rows.contains(r) && r.id == e.record && old[t].key_of(b, r) == Some(
                        e.key,
                    );
                lemma_row_by_id(old[t].rows, r, d);
                lemma_same_keys(old, before, t, b);
                assert(e.key == key);
            }
        }
    }
}

/// Taking out the records that refer to a deleted record keeps what holds
/// while records are being deleted, with the records taken out waiting.
#[verifier::rlimit(40)]
pub proof fn lemma_incoming_step(
    old: Seq<TableStateView>,
    before: Seq<TableStateView>,
    after: Seq<TableStateView>,
    taken: Seq<(int, RecordBytesView)>,
    more: Seq<(int, RecordBytesView)>,
    a: int,
    b: int,
    key: IndexKey,
)
    requires
        db_wf(old),
        cascading(old, before, taken),
        0 <= a < before.len(),
        0 <= b < before[a].indices.len(),
        only_index_changed(before, after, a, b),
        entries_sorted(after[a].indices[b].entries),
        rows_sorted(after[a].rows),
        forall|e: IndexEntry|
            after[a].indices[b].entries.contains(e) <==> before[a].indices[b].entries.contains(e)
                && e.key != key,
        forall|r: RecordBytesView| #[trigger]
            after[a].rows.contains(r) <==> before[a].rows.contains(r)
                && !before[a].indices[b].entries.contains(IndexEntry { key, record: r.id }),
        forall|i: int|
            0 <= i < more.len() ==> (#[trigger] more[i]).0 == a && before[a].rows.contains(
                more[i].1,
            ) && before[a].indices[b].entries.contains(IndexEntry { key, record: more[i].1.id }),
        forall|r: RecordBytesView|
            before[a].rows.contains(r) && before[a].indices[b].entries.contains(
                IndexEntry { key, record: r.id },
            ) ==> exists|i: int| 0 <= i < more.len() && (#[trigger] more[i]).1 == r,
    ensures
        cascading(old, after, taken + more),
        within(before, after),
{
    let all = taken + more;
    assert forall|i: int| 0 <= i < taken.len() implies all[i] == taken[i] by {}
    assert forall|i: int| 0 <= i < more.len() implies all[taken.len() + i] == more[i] by {}
    assert forall|p: int, id: Ulid| is_taken(taken, p, id) implies is_taken(all, p, id) by {
        let i = choose|i: int| 0 <= i < taken.len() && (#[trigger] taken[i]).0 == p && taken[i].1.id == id;
        assert(all[i].0 == p && all[i].1.id == id);
    }
    assert forall|p: int, q: int| 0 <= p < after.len() && 0 <= q < after[p].indices.len() implies {
        &&& after[p].field_of(q) == before[p].field_of(q)
        &&& forall|r: RecordBytesView| after[p].key_of(q, r) == before[p].key_of(q, r)
        &&& forall|name: Seq<char>| after[p].refers_to(q, name) == before[p].refers_to(q, name)
    } by {
        lemma_same_keys(before, after, p, q);
    }
    assert(within(before, after)) by {
        assert forall|p: int, q: int, e: IndexEntry|
            0 <= p < after.len() && 0 <= q < after[p].indices.len()
                && #[trigger] after[p].indices[q].entries.contains(e) implies before[p].indices[q].entries.contains(
            e,
        ) by {
            if p == a && q == b {
            } else if p == a {
                assert(after[a].indices[q] == before[a].indices[q]);
            }
        }
        assert forall|p: int, r: RecordBytesView|
            0 <= p < after.len() && #[trigger] after[p].rows.contains(r) implies before[p].rows.contains(
            r,
        ) by {}
    }
    assert(same_schema(old, after)) by {
        assert forall|p: int| 0 <= p < old.len() implies {
            &&& (#[trigger] old[p]).name == after[p].name
            &&& old[p].data == after[p].data
            &&& old[p].defs() == after[p].defs()
        } by {
            assert(old[p].name == before[p].name);
        }
    }
    assert(within(old, after)) by {
        assert forall|p: int, q: int, e: IndexEntry|
            0 <= p < after.len() && 0 <= q < after[p].indices.len()
                && #[trigger] after[p].indices[q].entries.contains(e) implies old[p].indices[q].entries.contains(
            e,
        ) by {
            assert(before[p].indices[q].entries.contains(e));
        }
        assert forall|p: int, r: RecordBytesView|
            0 <= p < after.len() && #[trigger] after[p].rows.contains(r) implies old[p].rows.contains(
            r,
        ) by {
            assert(before[p].rows.contains(r));
        }
    }
    assert(all_sorted(after)) by {
        assert forall|p: int, q: int|
            0 <= p < after.len() && 0 <= q < after[p].indices.len() implies entries_sorted(
            #[trigger] after[p].indices[q].entries,
        ) by {
            if p == a && q == b {
            } else if p == a {
                assert(after[a].indices[q] == before[a].indices[q]);
                assert(entries_sorted(before[p].indices[q].entries));
            } else {
                assert(entries_sorted(before[p].indices[q].entries));
            }
        }
        assert forall|p: int| 0 <= p < after.len() implies rows_sorted(#[trigger] after[p].rows) by {
            if p != a {
                assert(rows_sorted(before[p].rows));
            }
        }
    }
    assert(all_indexed(after)) by {
        assert forall|p: int, q: int|
            0 <= p < after.len() && 0 <= q < after[p].indices.len() implies #[trigger] after[p].rows_indexed(
            q,
        ) by {
            assert(before[p].rows_indexed(q));
            assert forall|r: RecordBytesView| #[trigger]
                after[p].rows.contains(r) implies (after[p].key_of(q, r) matches Some(k)
                && after[p].indices[q].entries.contains(IndexEntry { key: k, record: r.id })) by {
                assert(before[p].rows.contains(r));
                let k = before[p].key_of(q, r)->0;
                assert(before[p].indices[q].entries.contains(IndexEntry { key: k, record: r.id }));
                if p == a && q == b {
                } else if p == a {
                    assert(after[a].indices[q] == before[a].indices[q]);
                }
            }
        }
    }
    assert(entries_alive(after, all)) by {
        assert forall|p: int, q: int, e: IndexEntry|
            0 <= p < after.len() && 0 <= q < after[p].indices.len()
                && #[trigger] after[p].indices[q].entries.contains(e) implies has_row(
            after[p].rows,
            e.record,
        ) || is_taken(all, p, e.record) by {
            assert(before[p].indices[q].entries.contains(e));
            if has_row(before[p].rows, e.record) {
                let w = choose|w: int| 0 <= w < before[p].rows.len() && before[p].rows[w].id == e.record;
                let r = before[p].rows[w];
                assert(before[p].rows.contains(r));
                if p == a && !after[a].rows.contains(r) {
                    let i = choose|i: int| 0 <= i < more.len() && (#[trigger] more[i]).1 == r;
                    assert(all[taken.len() + i] == more[i]);
                    assert(is_taken(all, p, e.record));
                } else {
                    assert(after[p].rows.contains(r));
                    let v = choose|v: int| 0 <= v < after[p].rows.len() && after[p].rows[v] == r;
                    assert(after[p].rows[v].id == e.record);
                }
            }
        }
    }
    assert(settled(old, after, all)) by {
        assert forall|s: int, x: RecordBytesView|
            0 <= s < after.len() && #[trigger] old[s].rows.contains(x) && !after[s].rows.contains(x)
                && !is_taken(all, s, x.id) implies unreferenced(after, s, x.id) by {
            if before[s].rows.contains(x) {
                assert(s == a);
                let i = choose|i: int| 0 <= i < more.len() && (#[trigger] more[i]).1 == x;
                assert(all[taken.len() + i] == more[i]);
                assert(is_taken(all, s, x.id));
            }
            assert(!is_taken(taken, s, x.id));
            assert(unreferenced(before, s, x.id));
            assert forall|p: int, q: int, e: IndexEntry|
                0 <= p < after.len() && 0 <= q < after[p].indices.len() && after[p].refers_to(
                    q,
                    after[s].name,
                ) && #[trigger] after[p].indices[q].entries.contains(e) implies e.key
                != IndexKey::Id(x.id) by {
                assert(before[p].indices[q].entries.contains(e));
                assert(before[p].refers_to(q, before[s].name));
            }
        }
    }
    assert(taken_gone(old, after, all)) by {
        assert forall|i: int| 0 <= i < all.len() implies {
            &&& 0 <= (#[trigger] all[i]).0 < after.len()
            &&& old[all[i].0].rows.contains(all[i].1)
            &&& !has_row(after[all[i].0].rows, all[i].1.id)
        } by {
            if i < taken.len() {
                assert(all[i] == taken[i]);
                let p = taken[i].0;
                if has_row(after[p].rows, taken[i].1.id) {
                    let v = choose|v: int| 0 <= v < after[p].rows.len() && after[p].rows[v].id == taken[i].1.id;
                    assert(after[p].rows.contains(after[p].rows[v]));
                    assert(before[p].rows.contains(after[p].rows[v]));
                    let w = choose|w: int| 0 <= w < before[p].rows.len() && before[p].rows[w] == after[p].rows[v];
                    assert(before[p].rows[w].id == taken[i].1.id);
                }
            } else {
                let j = i - taken.len();
                assert(all[i] == more[j]);
                let r = more[j].1;
                assert(before[a].rows.contains(r));
                if has_row(after[a].rows, r.id) {
                    let v = choose|v: int| 0 <= v < after[a].rows.len() && after[a].rows[v].id == r.id;
                    let r2 = after[a].rows[v];
                    assert(after[a].rows.contains(r2));
                    assert(before[a].rows.contains(r2));
                    assert(rows_sorted(before[a].rows));
                    lemma_row_by_id(before[a].rows, r, r2);
                }
            }
        }
    }
}

} // verus!

verus! {

/// A record that was dealt with completely no longer waits.
pub proof fn lemma_dealt_with(
    old: Seq<TableStateView>,
    now: Seq<TableStateView>,
    taken: Seq<(int, RecordBytesView)>,
    t: int,
    d: RecordBytesView,
)
    requires
        dealing(old, now, taken, t, d, now.len() as int, 0),
    ensures
        cascading(old, now, taken),
{
    let with = taken.push((t, d));
    assert(with[taken.len() as int] == (t, d));
    assert forall|i: int| 0 <= i < taken.len() implies with[i] == taken[i] by {}
    assert(taken_gone(old, now, with));
    assert(!has_row(now[t].rows, d.id) && old[t].rows.contains(d)) by {
        assert(with[taken.len() as int].0 == t);
    }
    assert forall|p: int, id: Ulid| is_taken(with, p, id) && !(p == t && id == d.id) implies is_taken(
        taken,
        p,
        id,
    ) by {
        let i = choose|i: int| 0 <= i < with.len() && (#[trigger] with[i]).0 == p && with[i].1.id == id;
        assert(i < taken.len());
        assert(taken[i].0 == p && taken[i].1.id == id);
    }
    assert(entries_alive(now, taken)) by {
        assert forall|p: int, q: int, e: IndexEntry|
            0 <= p < now.len() && 0 <= q < now[p].indices.len()
                && #[trigger] now[p].indices[q].entries.contains(e) implies has_row(
            now[p].rows,
            e.record,
        ) || is_taken(taken, p, e.record) by {
            if p == t && e.record == d.id {
                assert(own_upto(now, t, now.len() as int, 0) == now[t].indices.len());
                assert(own_cleared(now, t, d.id, now[t].indices.len() as int));
                assert(now[t].indices[q].entries.contains(e));
                assert(e.record != d.id);
            } else if !has_row(now[p].rows, e.record) {
                assert(is_taken(with, p, e.record));
                assert(is_taken(taken, p, e.record));
            }
        }
    }
    assert(settled(old, now, taken)) by {
        assert forall|s: int, x: RecordBytesView|
            0 <= s < now.len() && #[trigger] old[s].rows.contains(x) && !now[s].rows.contains(x)
                && !is_taken(taken, s, x.id) implies unreferenced(now, s, x.id) by {
            if s == t && x.id == d.id {
            } else {
                assert(!is_taken(with, s, x.id));
            }
        }
    }
    assert(taken_gone(old, now, taken)) by {
        assert forall|i: int| 0 <= i < taken.len() implies {
            &&& 0 <= (#[trigger] taken[i]).0 < now.len()
            &&& old[taken[i].0].rows.contains(taken[i].1)
            &&& !has_row(now[taken[i].0].rows, taken[i].1.id)
        } by {
            assert(with[i] == taken[i]);
        }
    }
}

/// Once no record waits any more, the store is in order again, and no
/// record that is left refers to one that is gone.
pub proof fn lemma_cascade_done(old: Seq<TableStateView>, now: Seq<TableStateView>)
    requires
        db_wf(old),
        cascading(old, now, Seq::empty()),
    ensures
        db_wf(now),
        no_dangling(old, now),
{
    let none = Seq::<(int, RecordBytesView)>::empty();
    assert(crate::db::tables::table_names(now) =~= crate::db::tables::table_names(old));
    assert forall|p: int, q: int| 0 <= p < now.len() && 0 <= q < now[p].indices.len() implies (
    #[trigger] now[p].indices[q]).def == old[p].indices[q].def by {
        assert(now[p].defs()[q] == old[p].defs()[q]);
        assert(now[p].defs()[q] == now[p].indices[q].def);
        assert(old[p].defs()[q] == old[p].indices[q].def);
    }
    assert(crate::db::tables::index_names_distinct(now)) by {
        assert forall|p: int, q: int, s: int, t: int|
            0 <= p < now.len() && 0 <= q < now[p].indices.len() && 0 <= s < now.len() && 0 <= t
                < now[s].indices.len() && (#[trigger] now[p].indices[q]).def.index_name == (
            #[trigger] now[s].indices[t]).def.index_name implies p == s && q == t by {
            assert(old[p].indices[q].def.index_name == old[s].indices[t].def.index_name);
        }
    }
    assert forall|p: int| 0 <= p < now.len() implies (#[trigger] now[p]).wf() by {
        assert(old[p].wf());
        assert(now[p].name == old[p].name);
        assert forall|q: int| 0 <= q < now[p].indices.len() implies {
            &&& entries_sorted(#[trigger] now[p].indices[q].entries)
            &&& now[p].entries_sound(q)
            &&& now[p].rows_indexed(q)
        } by {
            lemma_same_keys(old, now, p, q);
            assert(now[p].rows_indexed(q));
            assert(old[p].entries_sound(q));
            assert forall|e: IndexEntry| #[trigger]
                now[p].indices[q].entries.contains(e) implies exists|r: RecordBytesView|
                now[p].rows.contains(r) && r.id == e.record && now[p].key_of(q, r) == Some(
                    e.key,
                ) by {
                assert(old[p].indices[q].entries.contains(e));
                let r = choose|r: RecordBytesView|
                    old[p].rows.contains(r) && r.id == e.record && old[p].key_of(q, r) == Some(
                        e.key,
                    );
                assert(has_row(now[p].rows, e.record)) by {
                    assert(!is_taken(none, p, e.record));
                }
                let v = choose|v: int| 0 <= v < now[p].rows.len() && now[p].rows[v].id == e.record;
                let r2 = now[p].rows[v];
                assert(now[p].rows.contains(r2));
                assert(old[p].rows.contains(r2));
                lemma_row_by_id(old[p].rows, r, r2);
            }
        }
    }
    assert(no_dangling(old, now)) by {
        assert forall|t: int, d: RecordBytesView, p: int, q: int, r: RecordBytesView|
            0 <= t < now.len() && #[trigger] old[t].rows.contains(d) && !now[t].rows.contains(d)
                && 0 <= p < now.len() && 0 <= q < now[p].indices.len() && now[p].refers_to(
                q,
                now[t].name,
            ) && #[trigger] now[p].rows.contains(r) implies #[trigger] now[p].key_of(q, r) != Some(
            IndexKey::Id(d.id),
        ) by {
            assert(!is_taken(none, t, d.id));
            assert(unreferenced(now, t, d.id));
            assert(now[p].rows_indexed(q));
            if now[p].key_of(q, r) == Some(IndexKey::Id(d.id)) {
                assert(now[p].indices[q].entries.contains(
                    IndexEntry { key: IndexKey::Id(d.id), record: r.id },
                ));
            }
        }
    }
}

/// Whether no record that is left in `now` refers, through an indexed
/// field, to a record of `old` that is gone from `now`: whatever referred
/// to a deleted record was deleted with it.
pub open spec fn no_dangling(old: Seq<TableStateView>, now: Seq<TableStateView>) -> bool {
    forall|t: int, d: RecordBytesView, p: int, q: int, r: RecordBytesView|
        0 <= t < now.len() && #[trigger] old[t].rows.contains(d) && !now[t].rows.contains(d) && 0
            <= p < now.len() && 0 <= q < now[p].indices.len() && now[p].refers_to(q, now[t].name)
            && #[trigger] now[p].rows.contains(r) ==> #[trigger] now[p].key_of(q, r) != Some(
            IndexKey::Id(d.id),
        )
}

} // verus!

verus! {

/// Whether every index of `after` refers to the table that the index at
/// its place in `before` refers to.
pub open spec fn same_refs(before: Seq<TableStateView>, after: Seq<TableStateView>) -> bool {
    &&& after.len() == before.len()
    &&& forall|p: int| 0 <= p < after.len() ==> (#[trigger] after[p]).indices.len() == before[p].indices.len()
    &&& forall|p: int| 0 <= p < after.len() ==> (#[trigger] after[p]).name == before[p].name
    &&& forall|p: int, q: int, name: Seq<char>|
        0 <= p < after.len() && 0 <= q < after[p].indices.len() ==> #[trigger] after[p].refers_to(
            q,
            name,
        ) == before[p].refers_to(q, name)
}

impl Db {
    /// Removes the entry of the deleted record `d` from the index at
    /// position `b` of its own table, the one at position `t`.
    #[verifier::rlimit(40)]
    fn own_step(
        &mut self,
        t: usize,
        b: usize,
        d: &RecordBytes,
        Ghost(old_db): Ghost<Seq<TableStateView>>,
        Ghost(held): Ghost<Seq<(int, RecordBytesView)>>,
        Ghost(origin): Ghost<(int, Ulid)>,
    )
        requires
            db_wf(old_db),
            cascading(old_db, old(self).deep_view(), held),
            justified(old_db, old(self).deep_view(), origin.0, origin.1),
            t < old(self).deep_view().len(),
            b < old(self).deep_view()[t as int].indices.len(),
            old_db[t as int].rows.contains(d.deep_view()),
            !has_row(old(self).deep_view()[t as int].rows, d.deep_view().id),
            own_cleared(old(self).deep_view(), t as int, d.deep_view().id, b as int),
        ensures
            cascading(old_db, final(self).deep_view(), held),
            justified(old_db, final(self).deep_view(), origin.0, origin.1),
            own_cleared(final(self).deep_view(), t as int, d.deep_view().id, b + 1),
            within(old(self).deep_view(), final(self).deep_view()),
            same_refs(old(self).deep_view(), final(self).deep_view()),
            total_rows(final(self).deep_view()) == total_rows(old(self).deep_view()),
            forall|s: int|
                0 <= s < old(self).deep_view().len() ==> (#[trigger] final(self).deep_view()[s]).rows
                    == old(self).deep_view()[s].rows,
    {
        let ghost start = self.deep_view();
        let ghost row = d.deep_view();
        let ghost tables_before = self.tables.tables@;
        let id = d.id();
        proof {
            assert(start[t as int] == self.tables.tables@[t as int].deep_view());
            assert(old_db[t as int].wf());
            assert(all_sorted(start));
            assert(entries_sorted(start[t as int].indices[b as int].entries));
            assert(entries_sorted(old_db[t as int].indices[b as int].entries));
            assert(old_db[t as int].rows_indexed(b as int));
            lemma_same_keys(old_db, start, t as int, b as int);
        }
        match self.tables.tables[t].key_for(b, d) {
            Ok(key) => {
                let table = &mut self.tables.tables[t];
                table.drop_entry(b, IndexEntry { key, record: id });
                proof {
                    let after = self.deep_view();
                    assert(after[t as int] == self.tables.tables@[t as int].deep_view());
                    assert forall|s: int| 0 <= s < start.len() && s != t implies (
                    #[trigger] after[s]) == start[s] by {
                        assert(self.tables.tables@[s] == tables_before[s]);
                        assert(start[s] == tables_before[s].deep_view());
                    }
                    lemma_own_step(old_db, start, after, held, t as int, row, b as int, key);
                    lemma_justified_same_rows(old_db, start, after, origin.0, origin.1);
                    assert(after =~= start.update(t as int, after[t as int]));
                    lemma_total_rows_update(start, t as int, after[t as int]);
                    lemma_same_refs(start, after, t as int, b as int);
                }
            },
            Err(_) => {
                proof {
                    assert(false);
                }
            },
        }
    }

    /// Takes out every record that the index at position `b` of the table
    /// at position `a` files under the identifier of the deleted record
    /// `d`, and adds them to `waiting`. The index is kept over references
    /// to the table of `d`, the one at position `t`.
    #[verifier::rlimit(40)]
    fn incoming_step(
        &mut self,
        a: usize,
        b: usize,
        t: usize,
        d: &RecordBytes,
        waiting: &mut Vec<Taken>,
        Ghost(old_db): Ghost<Seq<TableStateView>>,
        Ghost(origin): Ghost<(int, Ulid)>,
    )
        requires
            db_wf(old_db),
            cascading(
                old_db,
                old(self).deep_view(),
                taken_view(old(waiting)@).push((t as int, d.deep_view())),
            ),
            justified(old_db, old(self).deep_view(), origin.0, origin.1),
            a < old(self).deep_view().len(),
            t < old(self).deep_view().len(),
            b < old(self).deep_view()[a as int].indices.len(),
            old(self).deep_view()[a as int].refers_to(
                b as int,
                old(self).deep_view()[t as int].name,
            ),
        ensures
            cascading(
                old_db,
                final(self).deep_view(),
                taken_view(final(waiting)@).push((t as int, d.deep_view())),
            ),
            justified(old_db, final(self).deep_view(), origin.0, origin.1),
            within(old(self).deep_view(), final(self).deep_view()),
            same_refs(old(self).deep_view(), final(self).deep_view()),
            forall|e: IndexEntry|
                final(self).deep_view()[a as int].indices[b as int].entries.contains(e) ==> e.key
                    != IndexKey::Id(d.deep_view().id),
            total_rows(final(self).deep_view()) + final(waiting)@.len() == total_rows(
                old(self).deep_view(),
            ) + old(waiting)@.len(),
            gone_listed(old(self).deep_view(), final(self).deep_view(), taken_view(final(waiting)@)),
            begins_with(taken_view(final(waiting)@), taken_view(old(waiting)@)),
    {
        let ghost mid = self.deep_view();
        let ghost row = d.deep_view();
        let ghost waiting_before = taken_view(waiting@);
        let ghost held = waiting_before.push((t as int, row));
        let ghost tables_before = self.tables.tables@;
        let id = d.id();
        proof {
            assert(held[waiting_before.len() as int] == (t as int, row));
            assert(mid[a as int] == self.tables.tables@[a as int].deep_view());
            assert(all_sorted(mid));
            assert(entries_sorted(mid[a as int].indices[b as int].entries));
            assert(rows_sorted(mid[a as int].rows));
            assert(old_db[held[waiting_before.len() as int].0].rows.contains(row));
            assert(!has_row(mid[t as int].rows, row.id));
            assert(!mid[t as int].rows.contains(row)) by {
                if mid[t as int].rows.contains(row) {
                    let w = choose|w: int|
                        0 <= w < mid[t as int].rows.len() && mid[t as int].rows[w] == row;
                    assert(mid[t as int].rows[w].id == row.id);
                }
            }
        }
        let table = &mut self.tables.tables[a];
        let taken = table.detach(b, IndexKey::Id(id));
        let ghost after = self.deep_view();
        let ghost more = Seq::new(taken@.len(), |i: int| (a as int, taken@[i].deep_view()));
        proof {
            assert(after[a as int] == self.tables.tables@[a as int].deep_view());
            assert forall|s: int| 0 <= s < mid.len() && s != a implies (#[trigger] after[s])
                == mid[s] by {
                assert(self.tables.tables@[s] == tables_before[s]);
                assert(mid[s] == tables_before[s].deep_view());
            }
            assert forall|r: RecordBytesView|
                mid[a as int].rows.contains(r) && mid[a as int].indices[b as int].entries.contains(
                    IndexEntry { key: IndexKey::Id(id), record: r.id },
                ) implies exists|i: int| 0 <= i < more.len() && (#[trigger] more[i]).1 == r by {
                let i = choose|i: int| 0 <= i < taken@.len() && (#[trigger] taken@[i]).deep_view() == r;
                assert(more[i].1 == r);
            }
            lemma_incoming_step(
                old_db,
                mid,
                after,
                held,
                more,
                a as int,
                b as int,
                IndexKey::Id(id),
            );
            lemma_justified_step(
                old_db,
                mid,
                after,
                a as int,
                b as int,
                t as int,
                row,
                origin.0,
                origin.1,
            );
            assert(after =~= mid.update(a as int, after[a as int]));
            lemma_total_rows_update(mid, a as int, after[a as int]);
            lemma_same_refs(mid, after, a as int, b as int);
        }
        let mut i: usize = 0;
        while i < taken.len()
            invariant
                i <= taken@.len(),
                more == Seq::new(taken@.len(), |k: int| (a as int, taken@[k].deep_view())),
                taken_view(waiting@) == waiting_before + more.take(i as int),
                waiting@.len() == waiting_before.len() + i,
            decreases taken@.len() - i,
        {
            let ghost waiting_mid = waiting@;
            waiting.push((a, taken[i].clone()));
            proof {
                let now = taken_view(waiting@);
                let want = waiting_before + more.take(i + 1);
                assert(now.len() == want.len());
                assert forall|k: int| 0 <= k < now.len() implies now[k] == want[k] by {
                    if k < waiting_mid.len() {
                        assert(waiting@[k] == waiting_mid[k]);
                        assert(taken_view(waiting_mid)[k] == (waiting_before + more.take(
                            i as int,
                        ))[k]);
                    } else {
                        assert(want[k] == more[i as int]);
                    }
                }
                assert(now =~= want);
            }
            i += 1;
        }
        proof {
            assert(more.take(i as int) =~= more);
            let one = held + more;
            let other = taken_view(waiting@).push((t as int, row));
            let n = waiting_before.len() as int;
            assert forall|k: int| 0 <= k < one.len() implies other.contains(#[trigger] one[k]) by {
                if k < n {
                    assert(other[k] == one[k]);
                } else if k == n {
                    assert(other[other.len() - 1] == one[k]);
                } else {
                    assert(other[k - 1] == one[k]);
                }
            }
            assert forall|k: int| 0 <= k < other.len() implies one.contains(#[trigger] other[k]) by {
                if k < n {
                    assert(one[k] == other[k]);
                } else if k == other.len() - 1 {
                    assert(one[n] == other[k]);
                } else {
                    assert(one[k + 1] == other[k]);
                }
            }
            lemma_reordered(old_db, after, one, other);
            lemma_taken_listed(mid, after, waiting_before, more, a as int);
        }
    }

    /// Deals with the index at position `b` of the table at position `a`
    /// for the deleted record `d` of the table at position `t`: if the
    /// index belongs to the record's own table, the record's entry leaves
    /// it; if it is kept over references to the record's table, the
    /// records filed under the record's identifier are taken out of their
    /// table and added to `waiting`.
    #[verifier::rlimit(40)]
    fn cascade_index(
        &mut self,
        a: usize,
        b: usize,
        t: usize,
        d: &RecordBytes,
        waiting: &mut Vec<Taken>,
        Ghost(old_db): Ghost<Seq<TableStateView>>,
        Ghost(origin): Ghost<(int, Ulid)>,
    )
        requires
            dealing(
                old_db,
                old(self).deep_view(),
                taken_view(old(waiting)@),
                t as int,
                d.deep_view(),
                a as int,
                b as int,
            ),
            justified(old_db, old(self).deep_view(), origin.0, origin.1),
            a < old(self).deep_view().len(),
            b < old(self).deep_view()[a as int].indices.len(),
        ensures
            justified(old_db, final(self).deep_view(), origin.0, origin.1),
            dealing(
                old_db,
                final(self).deep_view(),
                taken_view(final(waiting)@),
                t as int,
                d.deep_view(),
                a as int,
                b + 1,
            ),
            total_rows(final(self).deep_view()) + final(waiting)@.len() == total_rows(
                old(self).deep_view(),
            ) + old(waiting)@.len(),
            within(old(self).deep_view(), final(self).deep_view()),
            final(self).deep_view().len() == old(self).deep_view().len(),
            gone_listed(old(self).deep_view(), final(self).deep_view(), taken_view(final(waiting)@)),
            begins_with(taken_view(final(waiting)@), taken_view(old(waiting)@)),
    {
        let ghost start = self.deep_view();
        let ghost row = d.deep_view();
        let ghost waiting_before = taken_view(waiting@);
        let ghost held = taken_view(waiting@).push((t as int, row));
        proof {
            assert(held[taken_view(waiting@).len() as int] == (t as int, row));
            assert(old_db[held[taken_view(waiting@).len() as int].0].rows.contains(row));
            assert(!has_row(start[t as int].rows, row.id));
            assert(start[a as int] == self.tables.tables@[a as int].deep_view());
            assert(start[t as int] == self.tables.tables@[t as int].deep_view());
        }
        let incoming = match self.tables.tables[a].target_of(b) {
            Some(target) => crate::names::str_eq(
                target.as_str(),
                self.tables.tables[t].name.as_str(),
            ),
            None => false,
        };
        proof {
            assert(incoming == start[a as int].refers_to(b as int, start[t as int].name)) by {
                if !incoming && start[a as int].refers_to(b as int, start[t as int].name) {
                    assert(false);
                }
            }
        }
        if a == t {
            self.own_step(t, b, d, Ghost(old_db), Ghost(held), Ghost(origin));
        }
        let ghost mid = self.deep_view();
        proof {
            assert(same_refs(start, mid));
            assert(within(start, mid));
            assert(own_cleared(mid, t as int, row.id, own_upto(mid, t as int, a as int, b + 1)));
            assert(refs_cleared(mid, t as int, row.id, a as int, b as int)) by {
                assert forall|p: int, q: int, e: IndexEntry|
                    0 <= p < mid.len() && 0 <= q < mid[p].indices.len() && (p < a || (p == a && q
                        < b)) && mid[p].refers_to(q, mid[t as int].name)
                        && #[trigger] mid[p].indices[q].entries.contains(e) implies e.key
                    != IndexKey::Id(row.id) by {
                    assert(start[p].indices[q].entries.contains(e));
                    assert(start[p].refers_to(q, start[t as int].name));
                }
            }
        }
        proof {
            assert forall|s: int| 0 <= s < start.len() implies (#[trigger] mid[s]).rows
                == start[s].rows by {}
            assert(gone_listed(start, mid, waiting_before));
        }
        if incoming {
            self.incoming_step(a, b, t, d, waiting, Ghost(old_db), Ghost(origin));
            proof {
                let now = self.deep_view();
                lemma_within_trans(start, mid, now);
                lemma_gone_listed(start, mid, now, waiting_before, taken_view(waiting@));
                assert(own_cleared(now, t as int, row.id, own_upto(now, t as int, a as int, b + 1))) by {
                    assert forall|q: int, e: IndexEntry|
                        0 <= q < own_upto(now, t as int, a as int, b + 1) && q < now[t as int].indices.len()
                            && #[trigger] now[t as int].indices[q].entries.contains(e) implies e.record
                        != row.id by {
                        assert(mid[t as int].indices[q].entries.contains(e));
                    }
                }
                assert(refs_cleared(now, t as int, row.id, a as int, b + 1)) by {
                    assert forall|p: int, q: int, e: IndexEntry|
                        0 <= p < now.len() && 0 <= q < now[p].indices.len() && (p < a || (p == a && q
                            < b + 1)) && now[p].refers_to(q, now[t as int].name)
                            && #[trigger] now[p].indices[q].entries.contains(e) implies e.key
                        != IndexKey::Id(row.id) by {
                        if p == a && q == b {
                        } else {
                            assert(mid[p].indices[q].entries.contains(e));
                            assert(mid[p].refers_to(q, mid[t as int].name));
                        }
                    }
                }
            }
        } else {
            proof {
                assert(refs_cleared(mid, t as int, row.id, a as int, b + 1));
            }
        }
    }
}

/// Where only the table at position `a` lost records, and each of them is
/// among `more`, every record that is gone is among those that waited
/// before with `more` behind them.
pub proof fn lemma_taken_listed(
    before: Seq<TableStateView>,
    after: Seq<TableStateView>,
    waiting: Seq<(int, RecordBytesView)>,
    more: Seq<(int, RecordBytesView)>,
    a: int,
)
    requires
        0 <= a < before.len(),
        after.len() == before.len(),
        forall|s: int| 0 <= s < before.len() && s != a ==> (#[trigger] after[s]) == before[s],
        forall|i: int| 0 <= i < more.len() ==> (#[trigger] more[i]).0 == a,
        forall|r: RecordBytesView|
            #[trigger] before[a].rows.contains(r) && !after[a].rows.contains(r) ==> exists|i: int|
                0 <= i < more.len() && (#[trigger] more[i]).1 == r,
    ensures
        gone_listed(before, after, waiting + more),
        begins_with(waiting + more, waiting),
{
    let listed = waiting + more;
    assert forall|p: int, r: RecordBytesView|
        0 <= p < before.len() && #[trigger] before[p].rows.contains(r) && !after[p].rows.contains(
            r,
        ) implies is_taken(listed, p, r.id) by {
        assert(p == a);
        let i = choose|i: int| 0 <= i < more.len() && (#[trigger] more[i]).1 == r;
        assert(listed[waiting.len() + i] == more[i]);
    }
    assert forall|i: int| 0 <= i < waiting.len() implies listed[i] == waiting[i] by {}
}

/// What holds while records are being deleted does not depend on the
/// order in which the records taken out wait.
pub proof fn lemma_reordered(
    old: Seq<TableStateView>,
    now: Seq<TableStateView>,
    taken: Seq<(int, RecordBytesView)>,
    other: Seq<(int, RecordBytesView)>,
)
    requires
        cascading(old, now, taken),
        forall|i: int| 0 <= i < taken.len() ==> other.contains(#[trigger] taken[i]),
        forall|i: int| 0 <= i < other.len() ==> taken.contains(#[trigger] other[i]),
    ensures
        cascading(old, now, other),
{
    assert forall|p: int, id: Ulid| is_taken(taken, p, id) == is_taken(other, p, id) by {
        if is_taken(taken, p, id) {
            let i = choose|i: int| 0 <= i < taken.len() && (#[trigger] taken[i]).0 == p && taken[i].1.id == id;
            assert(other.contains(taken[i]));
            let j = choose|j: int| 0 <= j < other.len() && other[j] == taken[i];
            assert(other[j].0 == p && other[j].1.id == id);
        }
        if is_taken(other, p, id) {
            let i = choose|i: int| 0 <= i < other.len() && (#[trigger] other[i]).0 == p && other[i].1.id == id;
            assert(taken.contains(other[i]));
            let j = choose|j: int| 0 <= j < taken.len() && taken[j] == other[i];
            assert(taken[j].0 == p && taken[j].1.id == id);
        }
    }
    assert(taken_gone(old, now, other)) by {
        assert forall|i: int| 0 <= i < other.len() implies {
            &&& 0 <= (#[trigger] other[i]).0 < now.len()
            &&& old[other[i].0].rows.contains(other[i].1)
            &&& !has_row(now[other[i].0].rows, other[i].1.id)
        } by {
            assert(taken.contains(other[i]));
            let j = choose|j: int| 0 <= j < taken.len() && taken[j] == other[i];
            assert(0 <= taken[j].0 < now.len());
        }
    }
}

/// Where one index changed, every index refers to the table that it
/// referred to before.
pub proof fn lemma_same_refs(before: Seq<TableStateView>, after: Seq<TableStateView>, a: int, b: int)
    requires
        0 <= a < before.len(),
        0 <= b < before[a].indices.len(),
        only_index_changed(before, after, a, b),
    ensures
        same_refs(before, after),
{
    assert forall|p: int, q: int, name: Seq<char>|
        0 <= p < after.len() && 0 <= q < after[p].indices.len() implies #[trigger] after[p].refers_to(
        q,
        name,
    ) == before[p].refers_to(q, name) by {
        lemma_same_keys(before, after, p, q);
    }
}

} // verus!

verus! {

/// Right after a record was taken out of its table, what holds while
/// records are being deleted holds, with that record waiting.
pub proof fn lemma_first_taken(
    old: Seq<TableStateView>,
    now: Seq<TableStateView>,
    p: int,
    d: RecordBytesView,
)
    requires
        db_wf(old),
        0 <= p < old.len(),
        now.len() == old.len(),
        forall|s: int| 0 <= s < old.len() && s != p ==> (#[trigger] now[s]) == old[s],
        now[p].name == old[p].name,
        now[p].data == old[p].data,
        now[p].indices == old[p].indices,
        rows_sorted(now[p].rows),
        old[p].rows.contains(d),
        forall|r: RecordBytesView| #[trigger]
            now[p].rows.contains(r) <==> old[p].rows.contains(r) && r.id != d.id,
    ensures
        cascading(old, now, seq![(p, d)]),
{
    let taken = seq![(p, d)];
    assert(taken[0] == (p, d));
    assert forall|s: int| 0 <= s < old.len() implies (#[trigger] now[s]).indices == old[s].indices by {}
    assert forall|s: int| 0 <= s < old.len() implies (#[trigger] now[s]).defs() == old[s].defs() by {}
    assert forall|s: int, q: int| 0 <= s < now.len() && 0 <= q < now[s].indices.len() implies {
        &&& entries_sorted(#[trigger] now[s].indices[q].entries)
        &&& old[s].entries_sound(q)
        &&& old[s].rows_indexed(q)
        &&& now[s].indices[q] == old[s].indices[q]
    } by {
        assert(old[s].wf());
        assert(entries_sorted(old[s].indices[q].entries));
    }
    assert(all_sorted(now)) by {
        assert forall|s: int| 0 <= s < now.len() implies rows_sorted(#[trigger] now[s].rows) by {
            assert(old[s].wf());
        }
    }
    assert(all_indexed(now)) by {
        assert forall|s: int, q: int|
            0 <= s < now.len() && 0 <= q < now[s].indices.len() implies #[trigger] now[s].rows_indexed(
            q,
        ) by {
            assert(entries_sorted(now[s].indices[q].entries));
            lemma_same_keys(old, now, s, q);
            assert forall|r: RecordBytesView| #[trigger]
                now[s].rows.contains(r) implies (now[s].key_of(q, r) matches Some(k)
                && now[s].indices[q].entries.contains(IndexEntry { key: k, record: r.id })) by {
                assert(old[s].rows.contains(r));
            }
        }
    }
    assert(entries_alive(now, taken)) by {
        assert forall|s: int, q: int, e: IndexEntry|
            0 <= s < now.len() && 0 <= q < now[s].indices.len()
                && #[trigger] now[s].indices[q].entries.contains(e) implies has_row(
            now[s].rows,
            e.record,
        ) || is_taken(taken, s, e.record) by {
            assert(entries_sorted(now[s].indices[q].entries));
            assert(old[s].indices[q].entries.contains(e));
            let r = choose|r: RecordBytesView|
                old[s].rows.contains(r) && r.id == e.record && old[s].key_of(q, r) == Some(e.key);
            if s == p && r.id == d.id {
                assert(taken[0].0 == s && taken[0].1.id == e.record);
            } else {
                assert(now[s].rows.contains(r));
                let v = choose|v: int| 0 <= v < now[s].rows.len() && now[s].rows[v] == r;
                assert(now[s].rows[v].id == e.record);
            }
        }
    }
    assert(settled(old, now, taken)) by {
        assert forall|s: int, x: RecordBytesView|
            0 <= s < now.len() && #[trigger] old[s].rows.contains(x) && !now[s].rows.contains(x)
                && !is_taken(taken, s, x.id) implies unreferenced(now, s, x.id) by {
            assert(s == p && x.id == d.id);
            assert(taken[0].0 == s && taken[0].1.id == x.id);
        }
    }
    assert(taken_gone(old, now, taken)) by {
        assert forall|i: int| 0 <= i < taken.len() implies {
            &&& 0 <= (#[trigger] taken[i]).0 < now.len()
            &&& old[taken[i].0].rows.contains(taken[i].1)
            &&& !has_row(now[taken[i].0].rows, taken[i].1.id)
        } by {
            if has_row(now[p].rows, d.id) {
                let v = choose|v: int| 0 <= v < now[p].rows.len() && now[p].rows[v].id == d.id;
                assert(now[p].rows.contains(now[p].rows[v]));
            }
        }
    }
    assert(within(old, now));
}

impl Db {
    /// Deals with the deleted record `d` of the table at position `t`:
    /// goes through every index of every table, in order.
    #[verifier::rlimit(40)]
    fn deal_with(
        &mut self,
        t: usize,
        d: &RecordBytes,
        waiting: &mut Vec<Taken>,
        Ghost(old_db): Ghost<Seq<TableStateView>>,
        Ghost(origin): Ghost<(int, Ulid)>,
    )
        requires
            db_wf(old_db),
            t < old(self).deep_view().len(),
            cascading(
                old_db,
                old(self).deep_view(),
                taken_view(old(waiting)@).push((t as int, d.deep_view())),
            ),
            justified(old_db, old(self).deep_view(), origin.0, origin.1),
        ensures
            justified(old_db, final(self).deep_view(), origin.0, origin.1),
            cascading(old_db, final(self).deep_view(), taken_view(final(waiting)@)),
            total_rows(final(self).deep_view()) + final(waiting)@.len() == total_rows(
                old(self).deep_view(),
            ) + old(waiting)@.len(),
            within(old(self).deep_view(), final(self).deep_view()),
            final(self).deep_view().len() == old(self).deep_view().len(),
            gone_listed(old(self).deep_view(), final(self).deep_view(), taken_view(final(waiting)@)),
            begins_with(taken_view(final(waiting)@), taken_view(old(waiting)@)),
    {
        let ghost row = d.deep_view();
        let ghost first = self.deep_view();
        let ghost waiting_first = taken_view(waiting@);
        let ghost rows_before = total_rows(self.deep_view()) + waiting@.len();
        let count = self.tables.tables.len();
        let mut a: usize = 0;
        while a < count
            invariant
                a <= count,
                count == self.deep_view().len(),
                row == d.deep_view(),
                dealing(old_db, self.deep_view(), taken_view(waiting@), t as int, row, a as int, 0),
                justified(old_db, self.deep_view(), origin.0, origin.1),
                total_rows(self.deep_view()) + waiting@.len() == rows_before,
                within(first, self.deep_view()),
                first.len() == count,
                forall|s: int| 0 <= s < count ==> (#[trigger] first[s]).indices.len() == old_db[s].indices.len(),
                gone_listed(first, self.deep_view(), taken_view(waiting@)),
                begins_with(taken_view(waiting@), waiting_first),
            decreases count - a,
        {
            let indices = self.tables.tables[a].indices.len();
            proof {
                assert(self.deep_view()[a as int] == self.tables.tables@[a as int].deep_view());
                assert(old_db[a as int].indices.len() == indices);
            }
            let mut b: usize = 0;
            while b < indices
                invariant
                    b <= indices,
                    a < count,
                    count == self.deep_view().len(),
                    indices == old_db[a as int].indices.len(),
                    row == d.deep_view(),
                    dealing(
                        old_db,
                        self.deep_view(),
                        taken_view(waiting@),
                        t as int,
                        row,
                        a as int,
                        b as int,
                    ),
                    justified(old_db, self.deep_view(), origin.0, origin.1),
                    total_rows(self.deep_view()) + waiting@.len() == rows_before,
                    within(first, self.deep_view()),
                    first.len() == count,
                    forall|s: int| 0 <= s < count ==> (#[trigger] first[s]).indices.len() == old_db[s].indices.len(),
                    gone_listed(first, self.deep_view(), taken_view(waiting@)),
                    begins_with(taken_view(waiting@), waiting_first),
                decreases indices - b,
            {
                let ghost here = self.deep_view();
                let ghost waiting_here = taken_view(waiting@);
                self.cascade_index(a, b, t, d, waiting, Ghost(old_db), Ghost(origin));
                proof {
                    lemma_within_trans(first, here, self.deep_view());
                    lemma_gone_listed(
                        first,
                        here,
                        self.deep_view(),
                        waiting_here,
                        taken_view(waiting@),
                    );
                }
                b += 1;
            }
            proof {
                let now = self.deep_view();
                assert(own_cleared(now, t as int, row.id, own_upto(now, t as int, a + 1, 0)));
                assert(refs_cleared(now, t as int, row.id, a + 1, 0));
            }
            a += 1;
        }
        proof {
            lemma_dealt_with(old_db, self.deep_view(), taken_view(waiting@), t as int, row);
        }
    }

    /// Deletes the record `record_id` of the table called `table_name`,
    /// and with it every record that refers to it, and every record that
    /// refers to one of those, and so on. Nothing is added, the tables
    /// stay as they are, and the indices hold what the records left say.
    /// The records that were deleted are returned, each with the position
    /// of its table.
    #[verifier::rlimit(40)]
    pub fn delete_record(&mut self, table_name: &str, record_id: Ulid) -> (out: Result<
        Vec<Taken>,
        DbError,
    >)
        requires
            old(self).wf(),
        ensures
            final(self).wf(),
            match table_position(old(self).deep_view(), table_name@) {
                Some(p) => if has_row(old(self).deep_view()[p].rows, record_id) {
                    &&& out matches Ok(deleted)
                    &&& taken_gone(
                        old(self).deep_view(),
                        final(self).deep_view(),
                        taken_view(deleted@),
                    )
                    &&& gone_listed(
                        old(self).deep_view(),
                        final(self).deep_view(),
                        taken_view(deleted@),
                    )
                    &&& total_rows(final(self).deep_view()) + deleted@.len() == total_rows(
                        old(self).deep_view(),
                    )
                    &&& same_schema(old(self).deep_view(), final(self).deep_view())
                    &&& within(old(self).deep_view(), final(self).deep_view())
                    &&& !has_row(final(self).deep_view()[p].rows, record_id)
                    &&& no_dangling(old(self).deep_view(), final(self).deep_view())
                    &&& justified(old(self).deep_view(), final(self).deep_view(), p, record_id)
                } else {
                    &&& crate::db::record_ext::error_view(out) == Some(
                        DbErrorView::RecordDoesNotExist { table: table_name@, record: record_id },
                    )
                    &&& final(self).deep_view() == old(self).deep_view()
                },
                None => {
                    &&& crate::db::record_ext::error_view(out) == Some(
                        DbErrorView::TableDoesNotExist { table: table_name@ },
                    )
                    &&& final(self).deep_view() == old(self).deep_view()
                },
            },
    {
        let ghost old_db = self.deep_view();
        let p = match self.tables.position(table_name) {
            Some(p) => p,
            None => {
                return Err(DbError::TableDoesNotExist { table: table_name.to_owned() });
            },
        };
        proof {
            assert(old_db[p as int] == self.tables.tables@[p as int].deep_view());
            assert(old_db[p as int].wf());
        }
        let ghost tables_before = self.tables.tables@;
        let table = &mut self.tables.tables[p];
        let record = match take_row(&mut table.rows, record_id) {
            Some(record) => record,
            None => {
                proof {
                    let now = self.deep_view();
                    assert(now[p as int] == self.tables.tables@[p as int].deep_view());
                    assert(now[p as int] == old_db[p as int]);
                    assert forall|s: int| 0 <= s < old_db.len() implies now[s] == old_db[s] by {
                        if s != p {
                            assert(self.tables.tables@[s] == tables_before[s]);
                            assert(old_db[s] == tables_before[s].deep_view());
                        }
                    }
                    assert(now =~= old_db);
                }
                return Err(
                    DbError::RecordDoesNotExist { table: table_name.to_owned(), record: record_id },
                );
            },
        };
        let mut waiting: Vec<Taken> = Vec::new();
        proof {
            let now = self.deep_view();
            assert(now[p as int] == self.tables.tables@[p as int].deep_view());
            assert forall|s: int| 0 <= s < old_db.len() && s != p implies (#[trigger] now[s])
                == old_db[s] by {
                assert(self.tables.tables@[s] == tables_before[s]);
                assert(old_db[s] == tables_before[s].deep_view());
            }
            assert(has_row(old_db[p as int].rows, record_id)) by {
                let w = choose|w: int|
                    0 <= w < old_db[p as int].rows.len() && old_db[p as int].rows[w]
                        == record.deep_view();
                assert(old_db[p as int].rows[w].id == record_id);
            }
            lemma_first_taken(old_db, now, p as int, record.deep_view());
            assert(justified(old_db, now, p as int, record_id)) by {
                assert forall|s: int, x: RecordBytesView|
                    0 <= s < now.len() && #[trigger] old_db[s].rows.contains(x) && !now[s].rows.contains(
                        x,
                    ) implies exists|steps: nat| reaches(old_db, s, x.id, p as int, record_id, steps) by {
                    assert(s == p && x.id == record_id);
                    assert(reaches(old_db, s, x.id, p as int, record_id, 0));
                }
            }
            let first = seq![(p as int, record.deep_view())];
            assert(first[0].0 == p);
            assert(!has_row(now[first[0].0].rows, first[0].1.id));
        }
        waiting.push((p, record));
        let mut deleted: Vec<Taken> = Vec::new();
        proof {
            let now = self.deep_view();
            assert(taken_view(waiting@) =~= seq![(p as int, record.deep_view())]);
            assert(taken_view(deleted@) + taken_view(waiting@) =~= taken_view(waiting@));
            assert(taken_view(waiting@)[0] == (p as int, record.deep_view()));
            assert(now =~= old_db.update(p as int, now[p as int]));
            lemma_total_rows_update(old_db, p as int, now[p as int]);
            assert(old_db =~= old_db.update(p as int, old_db[p as int]));
            lemma_total_rows_update(old_db, p as int, old_db[p as int]);
        }
        while waiting.len() > 0
            invariant
                db_wf(old_db),
                p < old_db.len(),
                cascading(old_db, self.deep_view(), taken_view(waiting@)),
                justified(old_db, self.deep_view(), p as int, record_id),
                !has_row(self.deep_view()[p as int].rows, record_id),
                taken_gone(old_db, self.deep_view(), taken_view(deleted@)),
                gone_listed(
                    old_db,
                    self.deep_view(),
                    taken_view(deleted@) + taken_view(waiting@),
                ),
                total_rows(self.deep_view()) + waiting@.len() + deleted@.len() == total_rows(old_db),
            decreases total_rows(self.deep_view()) + waiting@.len(),
        {
            let ghost before = taken_view(waiting@);
            let ghost done = taken_view(deleted@);
            let ghost here = self.deep_view();
            let ghost rows_at = self.deep_view()[p as int].rows;
            let (t, d) = waiting.pop().unwrap();
            let ghost rest = taken_view(waiting@);
            proof {
                assert(before =~= taken_view(waiting@).push((t as int, d.deep_view())));
                assert(before[before.len() - 1] == (t as int, d.deep_view()));
            }
            self.deal_with(t, &d, &mut waiting, Ghost(old_db), Ghost((p as int, record_id)));
            let ghost row = d.deep_view();
            deleted.push((t, d));
            proof {
                let now = self.deep_view();
                assert(within(old_db, now));
                assert forall|r: RecordBytesView| now[p as int].rows.contains(r) implies rows_at.contains(
                    r,
                ) by {}
                lemma_stays_gone(rows_at, now[p as int].rows, record_id);
                lemma_listed_on(
                    old_db,
                    here,
                    now,
                    done,
                    rest,
                    (t as int, row),
                    taken_view(waiting@),
                );
                assert(taken_view(deleted@) =~= done.push((t as int, row)));
            }
        }
        proof {
            assert(taken_view(waiting@) =~= Seq::<(int, RecordBytesView)>::empty());
            assert(taken_view(deleted@) + taken_view(waiting@) =~= taken_view(deleted@));
            lemma_cascade_done(old_db, self.deep_view());
        }
        Ok(deleted)
    }
}

/// Once the record `next` is dealt with, the records deleted so far and
/// those that wait are again all that is gone.
pub proof fn lemma_listed_on(
    old: Seq<TableStateView>,
    here: Seq<TableStateView>,
    now: Seq<TableStateView>,
    done: Seq<(int, RecordBytesView)>,
    rest: Seq<(int, RecordBytesView)>,
    next: (int, RecordBytesView),
    waiting: Seq<(int, RecordBytesView)>,
)
    requires
        old.len() == here.len(),
        here.len() == now.len(),
        within(here, now),
        taken_gone(old, here, done),
        taken_gone(old, here, rest.push(next)),
        gone_listed(old, here, done + rest.push(next)),
        gone_listed(here, now, waiting),
        begins_with(waiting, rest),
    ensures
        taken_gone(old, now, done.push(next)),
        gone_listed(old, now, done.push(next) + waiting),
{
    let all = done.push(next) + waiting;
    let before = done + rest.push(next);
    assert forall|i: int| 0 <= i < done.push(next).len() implies {
        &&& 0 <= (#[trigger] done.push(next)[i]).0 < now.len()
        &&& old[done.push(next)[i].0].rows.contains(done.push(next)[i].1)
        &&& !has_row(now[done.push(next)[i].0].rows, done.push(next)[i].1.id)
    } by {
        let x = done.push(next)[i];
        if i < done.len() {
            assert(x == done[i]);
        } else {
            assert(x == rest.push(next)[rest.len() as int]);
        }
        assert(!has_row(here[x.0].rows, x.1.id));
        assert forall|r: RecordBytesView| now[x.0].rows.contains(r) implies here[x.0].rows.contains(
            r,
        ) by {}
        lemma_stays_gone(here[x.0].rows, now[x.0].rows, x.1.id);
    }
    assert forall|p: int, r: RecordBytesView|
        0 <= p < old.len() && #[trigger] old[p].rows.contains(r) && !now[p].rows.contains(r) implies is_taken(
        all,
        p,
        r.id,
    ) by {
        if !here[p].rows.contains(r) {
            let i = choose|i: int|
                0 <= i < before.len() && (#[trigger] before[i]).0 == p && before[i].1.id == r.id;
            if i < done.len() {
                assert(all[i] == before[i]);
            } else if i < done.len() + rest.len() {
                assert(before[i] == rest[i - done.len()]);
                assert(all[i + 1] == waiting[i - done.len()]);
            } else {
                assert(before[i] == next);
                assert(all[done.len() as int] == next);
            }
        } else {
            let i = choose|i: int|
                0 <= i < waiting.len() && (#[trigger] waiting[i]).0 == p && waiting[i].1.id == r.id;
            assert(all[done.len() + 1 + i] == waiting[i]);
        }
    }
}

/// What is within what is within a third is within the third.
pub proof fn lemma_within_trans(
    a: Seq<TableStateView>,
    b: Seq<TableStateView>,
    c: Seq<TableStateView>,
)
    requires
        within(a, b),
        within(b, c),
        a.len() == b.len(),
        b.len() == c.len(),
        forall|p: int| 0 <= p < a.len() ==> (#[trigger] a[p]).indices.len() == b[p].indices.len(),
        forall|p: int| 0 <= p < a.len() ==> (#[trigger] b[p]).indices.len() == c[p].indices.len(),
    ensures
        within(a, c),
{
    assert forall|p: int, r: RecordBytesView|
        0 <= p < c.len() && #[trigger] c[p].rows.contains(r) implies a[p].rows.contains(r) by {
        assert(b[p].rows.contains(r));
    }
    assert forall|p: int, q: int, e: IndexEntry|
        0 <= p < c.len() && 0 <= q < c[p].indices.len() && #[trigger] c[p].indices[q].entries.contains(
            e,
        ) implies a[p].indices[q].entries.contains(e) by {
        assert(b[p].indices.len() == c[p].indices.len());
        assert(b[p].indices[q].entries.contains(e));
    }
}

/// A record that is gone does not come back while nothing is added.
pub proof fn lemma_stays_gone(earlier: Seq<RecordBytesView>, later: Seq<RecordBytesView>, id: Ulid)
    requires
        !has_row(earlier, id),
        forall|r: RecordBytesView| later.contains(r) ==> earlier.contains(r),
    ensures
        !has_row(later, id),
{
    if has_row(later, id) {
        let v = choose|v: int| 0 <= v < later.len() && later[v].id == id;
        assert(later.contains(later[v]));
        assert(earlier.contains(later[v]));
        let w = choose|w: int| 0 <= w < earlier.len() && earlier[w] == later[v];
        assert(earlier[w].id == id);
    }
}

} // verus!

verus! {

/// Whether the record `id` of the table at position `s` refers, through
/// an indexed field, to the record `target` of the table at position `t`.
pub open spec fn refers(db: Seq<TableStateView>, s: int, id: Ulid, t: int, target: Ulid) -> bool {
    &&& 0 <= s < db.len()
    &&& 0 <= t < db.len()
    &&& exists|q: int, r: RecordBytesView|
        0 <= q < db[s].indices.len() && db[s].refers_to(q, db[t].name) && db[s].rows.contains(r)
            && r.id == id && #[trigger] db[s].key_of(q, r) == Some(IndexKey::Id(target))
}

/// Whether a chain of `steps` references leads from the record `id` of the
/// table at position `s` to the record `target` of the table at position
/// `t`.
pub open spec fn reaches(
    db: Seq<TableStateView>,
    s: int,
    id: Ulid,
    t: int,
    target: Ulid,
    steps: nat,
) -> bool
    decreases steps,
{
    if steps == 0 {
        s == t && id == target
    } else {
        exists|m: int, via: Ulid|
            0 <= m < db.len() && #[trigger] refers(db, s, id, m, via) && reaches(
                db,
                m,
                via,
                t,
                target,
                (steps - 1) as nat,
            )
    }
}

/// Whether every record of `old` that is gone from `now` is the record
/// `target` of the table at position `t`, or referred to it through a
/// chain of references: nothing was deleted without cause.
pub open spec fn justified(
    old: Seq<TableStateView>,
    now: Seq<TableStateView>,
    t: int,
    target: Ulid,
) -> bool {
    forall|s: int, d: RecordBytesView|
        0 <= s < now.len() && #[trigger] old[s].rows.contains(d) && !now[s].rows.contains(d)
            ==> exists|steps: nat| reaches(old, s, d.id, t, target, steps)
}

/// Where no table lost a record, nothing more needs a cause.
pub proof fn lemma_justified_same_rows(
    old: Seq<TableStateView>,
    before: Seq<TableStateView>,
    after: Seq<TableStateView>,
    t: int,
    target: Ulid,
)
    requires
        justified(old, before, t, target),
        after.len() == before.len(),
        forall|s: int| 0 <= s < before.len() ==> (#[trigger] after[s]).rows == before[s].rows,
    ensures
        justified(old, after, t, target),
{
    assert forall|s: int, d: RecordBytesView|
        0 <= s < after.len() && #[trigger] old[s].rows.contains(d) && !after[s].rows.contains(
            d,
        ) implies exists|steps: nat| reaches(old, s, d.id, t, target, steps) by {
        assert(after[s].rows == before[s].rows);
    }
}

/// The records taken out because they referred to a deleted record were
/// deleted with cause.
pub proof fn lemma_justified_step(
    old: Seq<TableStateView>,
    before: Seq<TableStateView>,
    after: Seq<TableStateView>,
    a: int,
    b: int,
    m: int,
    d: RecordBytesView,
    t: int,
    target: Ulid,
)
    requires
        db_wf(old),
        same_schema(old, before),
        within(old, before),
        justified(old, before, t, target),
        0 <= a < before.len(),
        0 <= m < before.len(),
        0 <= b < before[a].indices.len(),
        before[a].indices.len() == old[a].indices.len(),
        old[m].rows.contains(d),
        !before[m].rows.contains(d),
        before[a].refers_to(b, before[m].name),
        after.len() == before.len(),
        forall|s: int| 0 <= s < before.len() && s != a ==> (#[trigger] after[s]) == before[s],
        forall|r: RecordBytesView| #[trigger]
            after[a].rows.contains(r) <==> before[a].rows.contains(r)
                && !before[a].indices[b].entries.contains(
                IndexEntry { key: IndexKey::Id(d.id), record: r.id },
            ),
    ensures
        justified(old, after, t, target),
{
    assert forall|s: int, x: RecordBytesView|
        0 <= s < after.len() && #[trigger] old[s].rows.contains(x) && !after[s].rows.contains(
            x,
        ) implies exists|steps: nat| reaches(old, s, x.id, t, target, steps) by {
        if before[s].rows.contains(x) {
            // Taken out in this step: it was filed under the deleted record.
            assert(s == a);
            let e = IndexEntry { key: IndexKey::Id(d.id), record: x.id };
            assert(before[a].indices[b].entries.contains(e));
            assert(old[a].indices[b].entries.contains(e));
            assert(old[a].wf());
            assert(entries_sorted(old[a].indices[b].entries));
            assert(old[a].entries_sound(b));
            let r = choose|r: RecordBytesView|
                old[a].rows.contains(r) && r.id == e.record && old[a].key_of(b, r) == Some(e.key);
            lemma_same_keys(old, before, a, b);
            assert(old[m].name == before[m].name);
            assert(old[a].refers_to(b, old[m].name));
            assert(refers(old, a, x.id, m, d.id));
            let steps = choose|steps: nat| reaches(old, m, d.id, t, target, steps);
            assert(reaches(old, a, x.id, t, target, steps + 1));
        }
    }
}

} // verus!
