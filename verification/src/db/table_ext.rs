//! Registering tables, removing them, and what the schema derives.

use vstd::prelude::*;

use crate::db::error::RegisterErr;
use crate::db::record_ext::Db;
use crate::db::tables::{db_wf, registered, table_names, table_position, DbTables, TableState, TableStateView};
use crate::db_core::defs::index::{table_triggers_view, IndexDef, IndexDefView, TableTriggerView};
use crate::db_core::defs::table::{TableData, TableDef};
use crate::db_core::defs::trigger::{DbTrigger, DbTriggerView};
use crate::db_core::named::Named;
use crate::db_core::ty::FieldTyView;
use crate::names::str_eq;

verus! {

/// Those of the first `count` of `pairs` that are attached to the table
/// called `table`, in order.
pub open spec fn triggers_for(pairs: Seq<TableTriggerView>, table: Seq<char>, count: nat) -> Seq<
    DbTriggerView,
>
    decreases count,
{
    if count == 0 || count > pairs.len() {
        Seq::empty()
    } else {
        let before = triggers_for(pairs, table, (count - 1) as nat);
        if pairs[count - 1].table_name == table {
            before.push(pairs[count - 1].trigger)
        } else {
            before
        }
    }
}

/// The triggers that the index at position `q` of `state` attaches to the
/// table called `table`.
pub open spec fn index_triggers(state: TableStateView, q: int, table: Seq<char>) -> Seq<DbTriggerView> {
    match state.field_of(q) {
        Some(field) => {
            let pairs = state.indices[q].def.triggers(field.ty);
            triggers_for(pairs, table, pairs.len())
        },
        None => Seq::empty(),
    }
}

/// The triggers that the first `count` indices of `state` attach to the
/// table called `table`, in the order of the indices.
pub open spec fn table_triggers(state: TableStateView, table: Seq<char>, count: nat) -> Seq<
    DbTriggerView,
>
    decreases count,
{
    if count == 0 || count > state.indices.len() {
        Seq::empty()
    } else {
        table_triggers(state, table, (count - 1) as nat) + index_triggers(state, count - 1, table)
    }
}

/// The triggers that the indices of the first `count` tables attach to the
/// table called `table`, in the order of the tables.
pub open spec fn db_triggers(db: Seq<TableStateView>, table: Seq<char>, count: nat) -> Seq<
    DbTriggerView,
>
    decreases count,
{
    if count == 0 || count > db.len() {
        Seq::empty()
    } else {
        db_triggers(db, table, (count - 1) as nat) + table_triggers(
            db[count - 1],
            table,
            db[count - 1].indices.len(),
        )
    }
}

/// The definitions of the indices of the first `count` tables, in order.
pub open spec fn db_indices(db: Seq<TableStateView>, count: nat) -> Seq<IndexDefView>
    decreases count,
{
    if count == 0 || count > db.len() {
        Seq::empty()
    } else {
        db_indices(db, (count - 1) as nat) + db[count - 1].defs()
    }
}

impl DbTables {
    /// The triggers attached to the table called `table_name`: what the
    /// store does when a record of that table is inserted or deleted, in
    /// the order in which it does it. They are derived from the indices of
    /// all tables, whenever they are asked for.
    pub fn triggers(&self, table_name: &str) -> (triggers: Vec<DbTrigger>)
        ensures
            triggers.deep_view() == db_triggers(
                self.deep_view(),
                table_name@,
                self.deep_view().len(),
            ),
    {
        let ghost db = self.deep_view();
        let mut result: Vec<DbTrigger> = Vec::new();
        let mut p: usize = 0;
        assert(result.deep_view() =~= db_triggers(db, table_name@, 0));
        while p < self.tables.len()
            invariant
                p <= self.tables@.len(),
                db == self.deep_view(),
                db.len() == self.tables@.len(),
                result.deep_view() == db_triggers(db, table_name@, p as nat),
            decreases self.tables@.len() - p,
        {
            let table = &self.tables[p];
            let ghost state = table.deep_view();
            let ghost before_table = result.deep_view();
            proof {
                assert(db[p as int] == state);
            }
            let mut q: usize = 0;
            assert(result.deep_view() =~= before_table + table_triggers(state, table_name@, 0));
            while q < table.indices.len()
                invariant
                    q <= table.indices@.len(),
                    state == table.deep_view(),
                    state.indices.len() == table.indices@.len(),
                    result.deep_view() == before_table + table_triggers(
                        state,
                        table_name@,
                        q as nat,
                    ),
                decreases table.indices@.len() - q,
            {
                let index = &table.indices[q];
                let ghost before_index = result.deep_view();
                proof {
                    assert(state.indices[q as int] == index.deep_view());
                }
                match table.data.field(index.def.field_name.as_str()) {
                    Some(field) => {
                        let pairs = index.def.triggers(&field.ty);
                        let ghost views = table_triggers_view(pairs@);
                        let mut k: usize = 0;
                        assert(result.deep_view() =~= before_index + triggers_for(
                            views,
                            table_name@,
                            0,
                        ));
                        while k < pairs.len()
                            invariant
                                k <= pairs@.len(),
                                views == table_triggers_view(pairs@),
                                views.len() == pairs@.len(),
                                result.deep_view() == before_index + triggers_for(
                                    views,
                                    table_name@,
                                    k as nat,
                                ),
                            decreases pairs@.len() - k,
                        {
                            let ghost before_pair = result.deep_view();
                            if str_eq(pairs[k].0.as_str(), table_name) {
                                result.push(pairs[k].1.clone());
                                proof {
                                    assert(result.deep_view() =~= before_pair.push(
                                        views[k as int].trigger,
                                    ));
                                    assert(result.deep_view() =~= before_index + triggers_for(
                                        views,
                                        table_name@,
                                        (k + 1) as nat,
                                    ));
                                }
                            }
                            k += 1;
                        }
                        proof {
                            assert(result.deep_view() =~= before_table + table_triggers(
                                state,
                                table_name@,
                                (q + 1) as nat,
                            ));
                        }
                    },
                    None => {
                        proof {
                            assert(result.deep_view() =~= before_table + table_triggers(
                                state,
                                table_name@,
                                (q + 1) as nat,
                            ));
                        }
                    },
                }
                q += 1;
            }
            p += 1;
        }
        result
    }

    /// The definitions of all indices, in the order of the tables and of
    /// their fields.
    pub fn indices(&self) -> (indices: Vec<IndexDef>)
        ensures
            indices.deep_view() == db_indices(self.deep_view(), self.deep_view().len()),
    {
        let ghost db = self.deep_view();
        let mut result: Vec<IndexDef> = Vec::new();
        let mut p: usize = 0;
        assert(result.deep_view() =~= db_indices(db, 0));
        while p < self.tables.len()
            invariant
                p <= self.tables@.len(),
                db == self.deep_view(),
                db.len() == self.tables@.len(),
                result.deep_view() == db_indices(db, p as nat),
            decreases self.tables@.len() - p,
        {
            let table = &self.tables[p];
            let ghost state = table.deep_view();
            let ghost before_table = result.deep_view();
            proof {
                assert(db[p as int] == state);
            }
            let mut q: usize = 0;
            assert(result.deep_view() =~= before_table + state.defs().take(0));
            while q < table.indices.len()
                invariant
                    q <= table.indices@.len(),
                    state == table.deep_view(),
                    state.indices.len() == table.indices@.len(),
                    result.deep_view() == before_table + state.defs().take(q as int),
                decreases table.indices@.len() - q,
            {
                proof {
                    assert(state.indices[q as int] == table.indices@[q as int].deep_view());
                }
                let ghost before_index = result.deep_view();
                result.push(table.indices[q].def.clone());
                proof {
                    assert(result.deep_view() =~= before_index.push(state.defs()[q as int]));
                    assert(result.deep_view() =~= before_table + state.defs().take(q + 1));
                }
                q += 1;
            }
            proof {
                assert(state.defs().take(q as int) =~= state.defs());
            }
            p += 1;
        }
        result
    }
}

impl Db {
    /// Registers a table. A table that is registered already is accepted
    /// again with the same definition, and nothing changes.
    pub fn register_table(&mut self, table: Named<TableDef>) -> (out: Result<(), RegisterErr>)
        requires
            old(self).wf(),
        ensures
            final(self).wf(),
            match registered(old(self).deep_view(), table.name@, table.value.deep_view()) {
                Ok(db) => out is Ok && final(self).deep_view() == db,
                Err(err) => out == Err::<(), RegisterErr>(err) && final(self).deep_view() == old(
                    self,
                ).deep_view(),
            },
    {
        let Named { name, value } = table;
        self.tables.register_table(name.as_str(), value)
    }

    /// Removes the table called `table_name` with its records and the
    /// entries of its indices, and says whether there was one.
    pub fn delete_table(&mut self, table_name: &str) -> (removed: bool)
        requires
            old(self).wf(),
        ensures
            final(self).wf(),
            match table_position(old(self).deep_view(), table_name@) {
                Some(p) => removed && final(self).deep_view() == old(self).deep_view().remove(p),
                None => !removed && final(self).deep_view() == old(self).deep_view(),
            },
    {
        self.tables.remove_table(table_name)
    }

    /// The names of the tables, in ascending order: each name once, as a
    /// map ordered by name gives them.
    pub fn table_names(&self) -> (names: Vec<String>)
        requires
            self.wf(),
        ensures
            crate::names::names_ascending(names.deep_view()),
            names@.len() == self.deep_view().len(),
            forall|name: Seq<char>|
                names.deep_view().contains(name) <==> table_names(self.deep_view()).contains(
                    name,
                ),
    {
        self.tables.table_names()
    }

    /// The layout of the table called `name`.
    pub fn table(&self, name: &str) -> (table: Option<TableData>)
        ensures
            match table_position(self.deep_view(), name@) {
                Some(p) => table matches Some(data) && data.deep_view() == self.deep_view()[p].data,
                None => table is None,
            },
    {
        match self.tables.table(name) {
            Some(data) => Some(data.clone()),
            None => None,
        }
    }
}

} // verus!
