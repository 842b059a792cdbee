//! What the triggers of a table say, and that inserting and deleting do
//! what they say.
//!
//! The store does not keep a list of triggers to go through: it goes
//! through the indices. The laws here tie the two together. A table's
//! triggers name exactly the indices that an insertion into the table
//! enters a record in, the indices that a deletion removes the record's
//! own entry from, and the indices that it clears of what was filed under
//! the record's identifier.

use vstd::prelude::*;

use crate::bytepack::extern_types::Ulid;
use crate::db::cascade::no_dangling;
use crate::db::entries::{IndexEntry, IndexKey};
use crate::db::record_ext::db_with_row;
use crate::db::rows::has_row;
use crate::db::table_ext::{db_triggers, index_triggers, table_triggers, triggers_for};
use crate::db::tables::{db_wf, table_names, TableStateView};
use crate::db_core::defs::index::TableTriggerView;
use crate::db_core::defs::table::lemma_indices_of_first;
use crate::db_core::defs::trigger::{DbTriggerView, TriggerActionView};
use crate::db_core::record::RecordBytesView;
use crate::db_core::ty::FieldTyView;

verus! {

/// What is in two sequences put together is in one of them.
pub proof fn lemma_concat_contains<T>(a: Seq<T>, b: Seq<T>, t: T)
    ensures
        (a + b).contains(t) <==> a.contains(t) || b.contains(t),
{
    if a.contains(t) {
        let i = choose|i: int| 0 <= i < a.len() && a[i] == t;
        assert((a + b)[i] == t);
    }
    if b.contains(t) {
        let i = choose|i: int| 0 <= i < b.len() && b[i] == t;
        assert((a + b)[a.len() + i] == t);
    }
    if (a + b).contains(t) {
        let i = choose|i: int| 0 <= i < (a + b).len() && (a + b)[i] == t;
        if i < a.len() {
            assert(a[i] == t);
        } else {
            assert(b[i - a.len()] == t);
        }
    }
}

/// The triggers picked for a table are those of the pairs that name it.
pub proof fn lemma_triggers_for(
    pairs: Seq<TableTriggerView>,
    table: Seq<char>,
    count: nat,
    t: DbTriggerView,
)
    requires
        count <= pairs.len(),
    ensures
        triggers_for(pairs, table, count).contains(t) <==> exists|i: int|
            0 <= i < count && (#[trigger] pairs[i]).table_name == table && pairs[i].trigger == t,
    decreases count,
{
    if count > 0 {
        lemma_triggers_for(pairs, table, (count - 1) as nat, t);
        let before = triggers_for(pairs, table, (count - 1) as nat);
        let last = pairs[count - 1];
        let one = seq![last.trigger];
        assert(one.contains(t) <==> last.trigger == t) by {
            if last.trigger == t {
                assert(one[0] == t);
            }
        }
        lemma_concat_contains(before, one, t);
        assert(before.push(last.trigger) =~= before + one);
        if triggers_for(pairs, table, count).contains(t) {
            if before.contains(t) {
                let i = choose|i: int|
                    0 <= i < count - 1 && (#[trigger] pairs[i]).table_name == table
                        && pairs[i].trigger == t;
                assert(0 <= i < count && pairs[i].table_name == table && pairs[i].trigger == t);
            } else {
                assert(pairs[count - 1].table_name == table && pairs[count - 1].trigger == t);
            }
        }
        if exists|i: int|
            0 <= i < count && (#[trigger] pairs[i]).table_name == table && pairs[i].trigger == t {
            let i = choose|i: int|
                0 <= i < count && (#[trigger] pairs[i]).table_name == table && pairs[i].trigger
                    == t;
            if i < count - 1 {
                assert(before.contains(t));
            }
        }
    }
}

/// The triggers of a table's indices are those of one of its indices.
pub proof fn lemma_table_triggers(
    state: TableStateView,
    table: Seq<char>,
    count: nat,
    t: DbTriggerView,
)
    requires
        count <= state.indices.len(),
    ensures
        table_triggers(state, table, count).contains(t) <==> exists|q: int|
            0 <= q < count && (#[trigger] index_triggers(state, q, table)).contains(t),
    decreases count,
{
    if count > 0 {
        lemma_table_triggers(state, table, (count - 1) as nat, t);
        let before = table_triggers(state, table, (count - 1) as nat);
        let last = index_triggers(state, count - 1, table);
        lemma_concat_contains(before, last, t);
        if before.contains(t) {
            let q = choose|q: int|
                0 <= q < count - 1 && (#[trigger] index_triggers(state, q, table)).contains(t);
            assert(0 <= q < count && index_triggers(state, q, table).contains(t));
        }
        if exists|q: int| 0 <= q < count && (#[trigger] index_triggers(state, q, table)).contains(t) {
            let q = choose|q: int|
                0 <= q < count && (#[trigger] index_triggers(state, q, table)).contains(t);
            if q < count - 1 {
                assert(before.contains(t));
            }
        }
    }
}

/// The triggers of a store are those of one of its tables' indices.
pub proof fn lemma_db_triggers(
    db: Seq<TableStateView>,
    table: Seq<char>,
    count: nat,
    t: DbTriggerView,
)
    requires
        count <= db.len(),
    ensures
        db_triggers(db, table, count).contains(t) <==> exists|p: int, q: int|
            0 <= p < count && 0 <= q < db[p].indices.len() && (#[trigger] index_triggers(
                db[p],
                q,
                table,
            )).contains(t),
    decreases count,
{
    if count > 0 {
        lemma_db_triggers(db, table, (count - 1) as nat, t);
        let before = db_triggers(db, table, (count - 1) as nat);
        let state = db[count - 1];
        let last = table_triggers(state, table, state.indices.len());
        lemma_concat_contains(before, last, t);
        lemma_table_triggers(state, table, state.indices.len(), t);
        if before.contains(t) {
            let (p, q) = choose|p: int, q: int|
                0 <= p < count - 1 && 0 <= q < db[p].indices.len() && (#[trigger] index_triggers(
                    db[p],
                    q,
                    table,
                )).contains(t);
            assert(0 <= p < count && 0 <= q < db[p].indices.len() && index_triggers(
                db[p],
                q,
                table,
            ).contains(t));
        }
        if last.contains(t) {
            let q = choose|q: int|
                0 <= q < state.indices.len() && (#[trigger] index_triggers(state, q, table)).contains(
                    t,
                );
            assert(0 <= count - 1 < count && 0 <= q < db[count - 1].indices.len()
                && index_triggers(db[count - 1], q, table).contains(t));
        }
        if exists|p: int, q: int|
            0 <= p < count && 0 <= q < db[p].indices.len() && (#[trigger] index_triggers(
                db[p],
                q,
                table,
            )).contains(t) {
            let (p, q) = choose|p: int, q: int|
                0 <= p < count && 0 <= q < db[p].indices.len() && (#[trigger] index_triggers(
                    db[p],
                    q,
                    table,
                )).contains(t);
            if p < count - 1 {
                assert(before.contains(t));
            } else {
                assert(last.contains(t));
            }
        }
    }
}

/// The trigger that enters an inserted record in the index called `name`.
pub open spec fn enters(name: Seq<char>) -> DbTriggerView {
    DbTriggerView::OnInsert(TriggerActionView::InsertIntoIndex { index_name: name })
}

/// The trigger that removes a deleted record's own entry from the index
/// called `name`.
pub open spec fn removes(name: Seq<char>) -> DbTriggerView {
    DbTriggerView::OnDelete(TriggerActionView::DeleteValueFromIndex { index_name: name })
}

/// The trigger that clears the index called `name` of what is filed under
/// a deleted record's identifier.
pub open spec fn clears(name: Seq<char>) -> DbTriggerView {
    DbTriggerView::OnDelete(TriggerActionView::DeleteKeyFromIndex { index_name: name })
}

/// What the index at position `q` of the table at position `p` attaches
/// to the table called `table`: entering and removing if it is an index
/// of that table, and clearing if it is kept over references to it.
pub proof fn lemma_index_triggers(db: Seq<TableStateView>, p: int, q: int, table: Seq<char>)
    requires
        db_wf(db),
        0 <= p < db.len(),
        0 <= q < db[p].indices.len(),
    ensures
        forall|name: Seq<char>| #[trigger]
            index_triggers(db[p], q, table).contains(enters(name)) <==> db[p].name == table
                && db[p].indices[q].def.index_name == name,
        forall|name: Seq<char>| #[trigger]
            index_triggers(db[p], q, table).contains(removes(name)) <==> db[p].name == table
                && db[p].indices[q].def.index_name == name,
        forall|name: Seq<char>| #[trigger]
            index_triggers(db[p], q, table).contains(clears(name)) <==> db[p].refers_to(q, table)
                && db[p].indices[q].def.index_name == name,
{
    let state = db[p];
    assert(state.wf());
    lemma_indices_of_first(state.data, state.name, state.data.fields.len());
    assert(state.defs()[q] == state.indices[q].def);
    let def = state.indices[q].def;
    let field = state.field_of(q)->0;
    let pairs = def.triggers(field.ty);
    assert(index_triggers(state, q, table) == triggers_for(pairs, table, pairs.len()));
    assert forall|name: Seq<char>|
        (#[trigger] index_triggers(state, q, table).contains(enters(name)) <==> state.name == table
            && def.index_name == name) by {
        lemma_triggers_for(pairs, table, pairs.len(), enters(name));
        if state.name == table && def.index_name == name {
            assert(pairs[0].table_name == table && pairs[0].trigger == enters(name));
        }
    }
    assert forall|name: Seq<char>|
        (#[trigger] index_triggers(state, q, table).contains(removes(name)) <==> state.name
            == table && def.index_name == name) by {
        lemma_triggers_for(pairs, table, pairs.len(), removes(name));
        if state.name == table && def.index_name == name {
            assert(pairs[1].table_name == table && pairs[1].trigger == removes(name));
        }
    }
    assert forall|name: Seq<char>|
        (#[trigger] index_triggers(state, q, table).contains(clears(name)) <==> state.refers_to(
            q,
            table,
        ) && def.index_name == name) by {
        lemma_triggers_for(pairs, table, pairs.len(), clears(name));
        if state.refers_to(q, table) && def.index_name == name {
            assert(pairs[2].table_name == table && pairs[2].trigger == clears(name));
        }
    }
}

/// What the triggers of the table at position `t` say of the index at
/// position `q` of the table at position `p`: they enter inserted records
/// in it, and remove the entries of deleted ones from it, exactly if it
/// is an index of that table; and they clear it exactly if it is kept
/// over references to that table.
pub proof fn lemma_triggers_name_indices(db: Seq<TableStateView>, t: int, p: int, q: int)
    requires
        db_wf(db),
        0 <= t < db.len(),
        0 <= p < db.len(),
        0 <= q < db[p].indices.len(),
    ensures
        db_triggers(db, db[t].name, db.len()).contains(enters(db[p].indices[q].def.index_name))
            <==> p == t,
        db_triggers(db, db[t].name, db.len()).contains(removes(db[p].indices[q].def.index_name))
            <==> p == t,
        db_triggers(db, db[t].name, db.len()).contains(clears(db[p].indices[q].def.index_name))
            <==> db[p].refers_to(q, db[t].name),
{
    let table = db[t].name;
    let name = db[p].indices[q].def.index_name;
    let all = db_triggers(db, table, db.len());
    lemma_db_triggers(db, table, db.len(), enters(name));
    lemma_db_triggers(db, table, db.len(), removes(name));
    lemma_db_triggers(db, table, db.len(), clears(name));
    lemma_index_triggers(db, p, q, table);
    assert(table_names(db)[p] == db[p].name);
    assert(table_names(db)[t] == table);
    assert forall|a: int, b: int| 0 <= a < db.len() && 0 <= b < db[a].indices.len() implies ((
    #[trigger] index_triggers(db[a], b, table)).contains(enters(name)) ==> a == p && b == q)
        && (index_triggers(db[a], b, table).contains(removes(name)) ==> a == p && b == q) && (
    index_triggers(db[a], b, table).contains(clears(name)) ==> a == p && b == q) by {
        lemma_index_triggers(db, a, b, table);
        if index_triggers(db[a], b, table).contains(enters(name)) || index_triggers(
            db[a],
            b,
            table,
        ).contains(removes(name)) || index_triggers(db[a], b, table).contains(clears(name)) {
            assert(db[a].indices[b].def.index_name == db[p].indices[q].def.index_name);
        }
    }
    if p == t {
        assert(index_triggers(db[p], q, table).contains(enters(name)));
        assert(index_triggers(db[p], q, table).contains(removes(name)));
    }
    if db[p].refers_to(q, table) {
        assert(index_triggers(db[p], q, table).contains(clears(name)));
    }
}

/// Inserting does what the triggers say: a record inserted into the table
/// at position `t` is entered in the index at position `q` of the table
/// at position `p` exactly if a trigger of its table says so, and nothing
/// else changes in any index.
pub proof fn lemma_insert_follows_triggers(
    before: Seq<TableStateView>,
    after: Seq<TableStateView>,
    t: int,
    row: RecordBytesView,
    p: int,
    q: int,
    e: IndexEntry,
)
    requires
        db_wf(before),
        0 <= t < before.len(),
        db_with_row(before, after, t, row),
        0 <= p < before.len(),
        0 <= q < before[p].indices.len(),
    ensures
        after[p].indices[q].entries.contains(e) <==> before[p].indices[q].entries.contains(e) || (
        db_triggers(before, before[t].name, before.len()).contains(
            enters(before[p].indices[q].def.index_name),
        ) && before[p].key_of(q, row) == Some(e.key) && e.record == row.id),
{
    lemma_triggers_name_indices(before, t, p, q);
}

/// Deleting does what the triggers say: once the record `id` of the table
/// at position `t` is deleted, an index that a trigger of its table
/// removes the record's entry from holds no entry of the record, and an
/// index that a trigger of its table clears holds nothing filed under the
/// record's identifier.
pub proof fn lemma_delete_follows_triggers(
    old: Seq<TableStateView>,
    now: Seq<TableStateView>,
    t: int,
    d: RecordBytesView,
    p: int,
    q: int,
    e: IndexEntry,
)
    requires
        db_wf(old),
        db_wf(now),
        crate::db::tables::same_schema(old, now),
        no_dangling(old, now),
        0 <= t < old.len(),
        old[t].rows.contains(d),
        !has_row(now[t].rows, d.id),
        0 <= p < old.len(),
        0 <= q < old[p].indices.len(),
        now[p].indices[q].entries.contains(e),
    ensures
        db_triggers(old, old[t].name, old.len()).contains(
            removes(old[p].indices[q].def.index_name),
        ) ==> e.record != d.id,
        db_triggers(old, old[t].name, old.len()).contains(clears(old[p].indices[q].def.index_name))
            ==> e.key != IndexKey::Id(d.id),
{
    lemma_triggers_name_indices(old, t, p, q);
    assert(now[p].wf());
    assert(now[p].defs().len() == old[p].defs().len());
    assert(now[p].defs()[q] == now[p].indices[q].def);
    assert(old[p].defs()[q] == old[p].indices[q].def);
    assert(now[p].entries_sound(q));
    let r = choose|r: RecordBytesView|
        now[p].rows.contains(r) && r.id == e.record && now[p].key_of(q, r) == Some(e.key);
    if p == t && e.record == d.id {
        let w = choose|w: int| 0 <= w < now[p].rows.len() && now[p].rows[w] == r;
        assert(has_row(now[t].rows, d.id));
    }
    if old[p].refers_to(q, old[t].name) && e.key == IndexKey::Id(d.id) {
        assert(!now[t].rows.contains(d)) by {
            if now[t].rows.contains(d) {
                let w = choose|w: int| 0 <= w < now[t].rows.len() && now[t].rows[w] == d;
                assert(has_row(now[t].rows, d.id));
            }
        }
        assert(now[p].refers_to(q, now[t].name));
        assert(now[p].key_of(q, r) != Some(IndexKey::Id(d.id)));
    }
}

} // verus!
