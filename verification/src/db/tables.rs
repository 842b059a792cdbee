//! The tables of a store, each with its layout, its records and the
//! entries of its indices.

use vstd::prelude::*;

use crate::db::entries::{entries_sorted, record_key, IndexEntry, IndexKey};
use crate::db::error::RegisterErr;
use crate::db::rows::{has_row, rows_sorted};
use crate::db_core::defs::index::{IndexDef, IndexDefView};
use crate::db_core::defs::table::{TableData, TableDataView, TableDef, TableFieldDataView};
use crate::db_core::defs::trigger::{DbTrigger, DbTriggerView, TriggerAction, TriggerActionView};
use crate::db_core::record::{RecordBytes, RecordBytesView};
use crate::db_core::ty::{FieldTy, FieldTyView};
use crate::names::str_eq;

verus! {

/// An index with what is entered in it.
#[derive(Debug)]
pub struct IndexState {
    pub def: IndexDef,
    pub entries: Vec<IndexEntry>,
}

/// What an [`IndexState`] stands for.
pub struct IndexStateView {
    pub def: IndexDefView,
    pub entries: Seq<IndexEntry>,
}

impl DeepView for IndexState {
    type V = IndexStateView;

    open spec fn deep_view(&self) -> IndexStateView {
        IndexStateView { def: self.def.deep_view(), entries: self.entries@ }
    }
}

/// A table with its records and indices.
#[derive(Debug)]
pub struct TableState {
    pub name: String,
    pub data: TableData,
    pub rows: Vec<RecordBytes>,
    pub indices: Vec<IndexState>,
}

/// What a [`TableState`] stands for.
pub struct TableStateView {
    pub name: Seq<char>,
    pub data: TableDataView,
    pub rows: Seq<RecordBytesView>,
    pub indices: Seq<IndexStateView>,
}

impl DeepView for TableState {
    type V = TableStateView;

    open spec fn deep_view(&self) -> TableStateView {
        TableStateView {
            name: self.name@,
            data: self.data.deep_view(),
            rows: self.rows.deep_view(),
            indices: self.indices.deep_view(),
        }
    }
}

impl TableStateView {
    /// The definitions of the table's indices, in order.
    pub open spec fn defs(self) -> Seq<IndexDefView> {
        Seq::new(self.indices.len(), |q: int| self.indices[q].def)
    }

    /// The field that the index at position `q` is kept over.
    pub open spec fn field_of(self, q: int) -> Option<TableFieldDataView> {
        self.data.field(self.indices[q].def.field_name)
    }

    /// The key under which `row` is filed in the index at position `q`.
    pub open spec fn key_of(self, q: int, row: RecordBytesView) -> Option<IndexKey> {
        match self.field_of(q) {
            Some(field) => record_key(row.bytes, field),
            None => None,
        }
    }

    /// Whether the index at position `q` is kept over references to
    /// records of the table called `target`.
    pub open spec fn refers_to(self, q: int, target: Seq<char>) -> bool {
        self.field_of(q) matches Some(field) && field.ty == (FieldTyView::RecordId {
            table_name: target,
        })
    }

    /// Every entry of the index at position `q` names a record of the
    /// table whose indexed field holds the entry's key.
    pub open spec fn entries_sound(self, q: int) -> bool {
        forall|e: IndexEntry| #[trigger]
            self.indices[q].entries.contains(e) ==> exists|r: RecordBytesView|
                self.rows.contains(r) && r.id == e.record && self.key_of(q, r) == Some(e.key)
    }

    /// Every record of the table is entered in the index at position `q`,
    /// under the key that its indexed field holds.
    pub open spec fn rows_indexed(self, q: int) -> bool {
        forall|r: RecordBytesView| #[trigger]
            self.rows.contains(r) ==> (self.key_of(q, r) matches Some(key)
                && self.indices[q].entries.contains(IndexEntry { key, record: r.id }))
    }

    /// Whether the table is in order: no two of its fields have the same
    /// name, it has the indices that its layout calls for, its records
    /// and entries are sorted, and its indices hold exactly what its
    /// records say.
    pub open spec fn wf(self) -> bool {
        &&& crate::names::distinct_names(self.data.names())
        &&& self.defs() == self.data.indices(self.name)
        &&& rows_sorted(self.rows)
        &&& forall|q: int|
            0 <= q < self.indices.len() ==> {
                &&& entries_sorted(#[trigger] self.indices[q].entries)
                &&& self.entries_sound(q)
                &&& self.rows_indexed(q)
            }
    }
}

/// The tables of a store, in the order in which they were registered.
#[derive(Debug)]
pub struct DbTables {
    pub tables: Vec<TableState>,
}

/// What a [`DbTables`] stands for.
pub type DbView = Seq<TableStateView>;

impl DeepView for DbTables {
    type V = Seq<TableStateView>;

    open spec fn deep_view(&self) -> Seq<TableStateView> {
        self.tables.deep_view()
    }
}

/// The position of the table called `name`.
pub open spec fn table_position(db: Seq<TableStateView>, name: Seq<char>) -> Option<int> {
    crate::names::find_name(table_names(db), name)
}

/// The names of the tables, in order.
pub open spec fn table_names(db: Seq<TableStateView>) -> Seq<Seq<char>> {
    Seq::new(db.len(), |p: int| db[p].name)
}

/// Whether no two indices anywhere have the same name.
pub open spec fn index_names_distinct(db: Seq<TableStateView>) -> bool {
    forall|p: int, q: int, s: int, t: int|
        0 <= p < db.len() && 0 <= q < db[p].indices.len() && 0 <= s < db.len() && 0 <= t
            < db[s].indices.len() && (#[trigger] db[p].indices[q]).def.index_name
            == (#[trigger] db[s].indices[t]).def.index_name ==> p == s && q == t
}

/// Whether the tables are in order: no two have the same name, no two
/// indices have the same name, and each table is in order.
pub open spec fn db_wf(db: Seq<TableStateView>) -> bool {
    &&& crate::names::distinct_names(table_names(db))
    &&& index_names_distinct(db)
    &&& forall|p: int| 0 <= p < db.len() ==> (#[trigger] db[p]).wf()
}

/// Whether two states have the same tables with the same layouts and the
/// same indices, whatever they hold.
pub open spec fn same_schema(a: Seq<TableStateView>, b: Seq<TableStateView>) -> bool {
    &&& a.len() == b.len()
    &&& forall|p: int|
        0 <= p < a.len() ==> {
            &&& (#[trigger] a[p]).name == b[p].name
            &&& a[p].data == b[p].data
            &&& a[p].defs() == b[p].defs()
        }
}

impl DbTables {
    /// No tables.
    pub fn new() -> (tables: Self)
        ensures
            tables.deep_view().len() == 0,
            db_wf(tables.deep_view()),
    {
        DbTables { tables: Vec::new() }
    }

    /// The position of the table called `name`.
    pub fn position(&self, name: &str) -> (pos: Option<usize>)
        ensures
            match pos {
                Some(p) => table_position(self.deep_view(), name@) == Some(p as int) && p
                    < self.deep_view().len() && self.deep_view()[p as int].name == name@,
                None => table_position(self.deep_view(), name@) is None && forall|p: int|
                    0 <= p < self.deep_view().len() ==> self.deep_view()[p].name != name@,
            },
    {
        let ghost names = table_names(self.deep_view());
        let mut i: usize = 0;
        while i < self.tables.len()
            invariant
                i <= self.tables@.len(),
                names == table_names(self.deep_view()),
                names.len() == self.tables@.len(),
                forall|j: int| 0 <= j < i ==> names[j] != name@,
            decreases self.tables@.len() - i,
        {
            proof {
                assert(names[i as int] == self.tables@[i as int].name@);
            }
            if str_eq(self.tables[i].name.as_str(), name) {
                proof {
                    crate::names::lemma_find_skips(names, name@, i as int);
                }
                return Some(i);
            }
            i += 1;
        }
        proof {
            crate::names::lemma_find_skips(names, name@, i as int);
            assert forall|p: int| 0 <= p < self.deep_view().len() implies self.deep_view()[p].name
                != name@ by {
                assert(names[p] != name@);
            }
        }
        None
    }

    /// The layout of the table called `name`.
    pub fn table<'a>(&'a self, name: &str) -> (table: Option<&'a TableData>)
        ensures
            match table_position(self.deep_view(), name@) {
                Some(p) => table matches Some(data) && data.deep_view() == self.deep_view()[p].data,
                None => table is None,
            },
    {
        match self.position(name) {
            Some(p) => {
                proof {
                    assert(self.deep_view()[p as int] == self.tables@[p as int].deep_view());
                }
                Some(&self.tables[p].data)
            },
            None => None,
        }
    }

    /// The names of the tables, in ascending order: each name once, as a
    /// map ordered by name gives them.
    pub fn table_names(&self) -> (names: Vec<String>)
        requires
            db_wf(self.deep_view()),
        ensures
            crate::names::names_ascending(names.deep_view()),
            names@.len() == self.deep_view().len(),
            forall|name: Seq<char>|
                names.deep_view().contains(name) <==> table_names(self.deep_view()).contains(
                    name,
                ),
    {
        let ghost all = table_names(self.deep_view());
        let mut names: Vec<String> = Vec::new();
        let mut i: usize = 0;
        while i < self.tables.len()
            invariant
                i <= self.tables@.len(),
                all == table_names(self.deep_view()),
                all.len() == self.tables@.len(),
                crate::names::distinct_names(all),
                names@.len() == i,
                crate::names::names_ascending(names.deep_view()),
                forall|name: Seq<char>|
                    names.deep_view().contains(name) <==> exists|j: int|
                        0 <= j < i && #[trigger] all[j] == name,
            decreases self.tables@.len() - i,
        {
            let ghost before = names.deep_view();
            let name = self.tables[i].name.clone();
            proof {
                assert(all[i as int] == self.deep_view()[i as int].name);
                assert(self.deep_view()[i as int] == self.tables@[i as int].deep_view());
                assert(name@ == all[i as int]);
                if before.contains(name@) {
                    let j = choose|j: int| 0 <= j < i && #[trigger] all[j] == name@;
                    assert(all[j] != all[i as int]);
                }
            }
            crate::names::insert_name(&mut names, name);
            proof {
                let after = names.deep_view();
                assert forall|n: Seq<char>| after.contains(n) <==> exists|j: int|
                    0 <= j < i + 1 && #[trigger] all[j] == n by {
                    if after.contains(n) {
                        if before.contains(n) {
                            let j = choose|j: int| 0 <= j < i && #[trigger] all[j] == n;
                            assert(0 <= j < i + 1 && all[j] == n);
                        } else {
                            assert(all[i as int] == n);
                        }
                    }
                    if exists|j: int| 0 <= j < i + 1 && #[trigger] all[j] == n {
                        let j = choose|j: int| 0 <= j < i + 1 && #[trigger] all[j] == n;
                        if j < i {
                            assert(before.contains(n));
                        }
                    }
                }
            }
            i += 1;
        }
        proof {
            assert forall|name: Seq<char>| names.deep_view().contains(name) <==> all.contains(
                name,
            ) by {
                if names.deep_view().contains(name) {
                    let j = choose|j: int| 0 <= j < i && #[trigger] all[j] == name;
                    assert(all.contains(name));
                }
                if all.contains(name) {
                    let j = choose|j: int| 0 <= j < all.len() && all[j] == name;
                    assert(0 <= j < i && all[j] == name);
                }
            }
        }
        names
    }
}

} // verus!

verus! {

/// A table as it is right after it was registered: laid out as `def`
/// says, with the indices that the layout calls for, and nothing in it.
pub open spec fn fresh_table(name: Seq<char>, def: crate::db_core::defs::table::TableDefView) -> TableStateView {
    let data = def.layout();
    TableStateView {
        name,
        data,
        rows: Seq::empty(),
        indices: Seq::new(
            data.indices(name).len(),
            |q: int| IndexStateView { def: data.indices(name)[q], entries: Seq::empty() },
        ),
    }
}

/// What registering a table comes to. A table that is registered already
/// is accepted again with the same definition, and nothing changes. A new
/// table is appended, empty, unless its layout is too large, two of its
/// fields have the same name, lookups are wanted by a field that has no
/// key, or one of its indices would share its name with another index.
pub open spec fn registered(
    db: Seq<TableStateView>,
    name: Seq<char>,
    def: crate::db_core::defs::table::TableDefView,
) -> Result<Seq<TableStateView>, RegisterErr> {
    match table_position(db, name) {
        Some(p) => if def.fits() && db[p].data == def.layout() {
            Ok(db)
        } else {
            Err(RegisterErr::TableExists)
        },
        None => if !def.fits() {
            Err(RegisterErr::LayoutTooLarge)
        } else if !def.names_distinct() {
            Err(RegisterErr::DuplicateFieldName)
        } else if !def.indexed_fields_have_keys() {
            Err(RegisterErr::IndexWithoutKey)
        } else if !index_names_distinct(db.push(fresh_table(name, def))) {
            Err(RegisterErr::IndexNameTaken)
        } else {
            Ok(db.push(fresh_table(name, def)))
        },
    }
}

impl DbTables {
    /// Whether an index of the name given exists.
    pub fn has_index(&self, index_name: &str) -> (found: bool)
        ensures
            found == exists|p: int, q: int|
                0 <= p < self.deep_view().len() && 0 <= q < self.deep_view()[p].indices.len()
                    && (#[trigger] self.deep_view()[p].indices[q]).def.index_name == index_name@,
    {
        let ghost db = self.deep_view();
        let mut p: usize = 0;
        while p < self.tables.len()
            invariant
                p <= self.tables@.len(),
                db == self.deep_view(),
                db.len() == self.tables@.len(),
                forall|a: int, b: int|
                    0 <= a < p && 0 <= b < db[a].indices.len() ==> (#[trigger] db[a].indices[b]).def.index_name
                        != index_name@,
            decreases self.tables@.len() - p,
        {
            let table = &self.tables[p];
            proof {
                assert(db[p as int] == table.deep_view());
            }
            let mut q: usize = 0;
            while q < table.indices.len()
                invariant
                    q <= table.indices@.len(),
                    db == self.deep_view(),
                    db[p as int] == table.deep_view(),
                    p < db.len(),
                    forall|b: int|
                        0 <= b < q ==> (#[trigger] db[p as int].indices[b]).def.index_name
                            != index_name@,
                decreases table.indices@.len() - q,
            {
                proof {
                    assert(db[p as int].indices[q as int] == table.indices@[q as int].deep_view());
                }
                if str_eq(table.indices[q].def.index_name.as_str(), index_name) {
                    assert(db[p as int].indices[q as int].def.index_name == index_name@);
                    return true;
                }
                q += 1;
            }
            p += 1;
        }
        false
    }

    /// Registers the table `name`, laid out as `def` says.
    pub fn register_table(&mut self, name: &str, def: TableDef) -> (out: Result<(), RegisterErr>)
        requires
            db_wf(old(self).deep_view()),
        ensures
            db_wf(final(self).deep_view()),
            match registered(old(self).deep_view(), name@, def.deep_view()) {
                Ok(db) => out is Ok && final(self).deep_view() == db,
                Err(err) => out == Err::<(), RegisterErr>(err) && final(self).deep_view() == old(
                    self,
                ).deep_view(),
            },
    {
        let ghost db = self.deep_view();
        let fits = def.fits();
        match self.position(name) {
            Some(p) => {
                proof {
                    assert(db[p as int] == self.tables@[p as int].deep_view());
                }
                if !fits {
                    return Err(RegisterErr::TableExists);
                }
                let data = TableData::new(def);
                if self.tables[p].data.same(&data) {
                    Ok(())
                } else {
                    Err(RegisterErr::TableExists)
                }
            },
            None => {
                if !fits {
                    return Err(RegisterErr::LayoutTooLarge);
                }
                if !def.names_distinct() {
                    return Err(RegisterErr::DuplicateFieldName);
                }
                if !def.indexed_fields_have_keys() {
                    return Err(RegisterErr::IndexWithoutKey);
                }
                proof {
                    assert(def.deep_view().layout().names() =~= def.deep_view().names());
                }
                let ghost fresh = fresh_table(name@, def.deep_view());
                let data = TableData::new(def);
                let defs = data.indices(name);
                let mut indices: Vec<IndexState> = Vec::new();
                let mut taken = false;
                let mut q: usize = 0;
                while q < defs.len()
                    invariant
                        q <= defs@.len(),
                        db == self.deep_view(),
                        defs.deep_view() == data.deep_view().indices(name@),
                        indices@.len() == q,
                        forall|b: int|
                            0 <= b < q ==> (#[trigger] indices@[b]).deep_view() == (IndexStateView {
                                def: defs@[b].deep_view(),
                                entries: Seq::empty(),
                            }),
                        !taken ==> forall|b: int|
                            0 <= b < q ==> !#[trigger] clashes(db, defs.deep_view(), b),
                        taken ==> exists|b: int|
                            0 <= b < q && #[trigger] clashes(db, defs.deep_view(), b),
                    decreases defs@.len() - q,
                {
                    let index_def = &defs[q];
                    let mut clash = self.has_index(index_def.index_name.as_str());
                    let mut c: usize = 0;
                    while c < q
                        invariant
                            c <= q,
                            q < defs@.len(),
                            index_def == defs@[q as int],
                            clash == ((exists|s: int, t: int|
                                0 <= s < db.len() && 0 <= t < db[s].indices.len()
                                    && (#[trigger] db[s].indices[t]).def.index_name
                                    == index_def.index_name@) || (exists|d: int|
                                0 <= d < c && (#[trigger] defs.deep_view()[d]).index_name
                                    == index_def.index_name@)),
                        decreases q - c,
                    {
                        proof {
                            assert(defs.deep_view()[c as int] == defs@[c as int].deep_view());
                        }
                        if str_eq(defs[c].index_name.as_str(), index_def.index_name.as_str()) {
                            clash = true;
                        }
                        c += 1;
                    }
                    proof {
                        assert(defs.deep_view()[q as int] == defs@[q as int].deep_view());
                        assert(clash == clashes(db, defs.deep_view(), q as int));
                    }
                    if clash {
                        taken = true;
                    }
                    indices.push(IndexState { def: index_def.clone(), entries: Vec::new() });
                    q += 1;
                }
                let table = TableState { name: name.to_owned(), data, rows: Vec::new(), indices };
                proof {
                    assert(table.indices.deep_view() =~= fresh.indices) by {
                        assert forall|b: int| 0 <= b < fresh.indices.len() implies table.indices.deep_view()[b]
                            == fresh.indices[b] by {
                            assert(defs.deep_view()[b] == defs@[b].deep_view());
                        }
                    }
                    assert(table.rows.deep_view() =~= fresh.rows);
                    assert(table.deep_view() == fresh);
                    assert(fresh.defs() =~= fresh.data.indices(name@));
                    lemma_fresh_table(db, name@, fresh, taken, defs.deep_view());
                }
                if taken {
                    return Err(RegisterErr::IndexNameTaken);
                }
                self.tables.push(table);
                proof {
                    assert(self.tables.deep_view() =~= db.push(fresh));
                }
                Ok(())
            },
        }
    }

    /// Removes the table called `name` with all that it holds, and says
    /// whether there was one.
    pub fn remove_table(&mut self, table_name: &str) -> (removed: bool)
        requires
            db_wf(old(self).deep_view()),
        ensures
            db_wf(final(self).deep_view()),
            match table_position(old(self).deep_view(), table_name@) {
                Some(p) => removed && final(self).deep_view() == old(self).deep_view().remove(p),
                None => !removed && final(self).deep_view() == old(self).deep_view(),
            },
    {
        let ghost db = self.deep_view();
        match self.position(table_name) {
            Some(p) => {
                self.tables.remove(p);
                proof {
                    let after = self.tables.deep_view();
                    assert(after =~= db.remove(p as int)) by {
                        assert forall|i: int| 0 <= i < after.len() implies after[i] == db.remove(
                            p as int,
                        )[i] by {
                            if i < p {
                                assert(self.tables@[i] == old(self).tables@[i]);
                            } else {
                                assert(self.tables@[i] == old(self).tables@[i + 1]);
                            }
                        }
                    }
                    lemma_remove_keeps_wf(db, p as int);
                }
                true
            },
            None => false,
        }
    }
}

/// Whether the name of the definition at position `b` is that of an index
/// of `db`, or of a definition before it.
pub open spec fn clashes(db: Seq<TableStateView>, defs: Seq<IndexDefView>, b: int) -> bool {
    ||| exists|s: int, t: int|
        0 <= s < db.len() && 0 <= t < db[s].indices.len() && (#[trigger] db[s].indices[t]).def.index_name
            == defs[b].index_name
    ||| exists|c: int| 0 <= c < b && (#[trigger] defs[c]).index_name == defs[b].index_name
}

/// A freshly registered table is in order, and the tables with it are in
/// order exactly if none of its index names was taken.
pub proof fn lemma_fresh_table(
    db: Seq<TableStateView>,
    name: Seq<char>,
    fresh: TableStateView,
    taken: bool,
    defs: Seq<IndexDefView>,
)
    requires
        db_wf(db),
        table_position(db, name) is None,
        fresh.name == name,
        fresh.rows.len() == 0,
        crate::names::distinct_names(fresh.data.names()),
        fresh.defs() == fresh.data.indices(name),
        fresh.defs() == defs,
        forall|q: int| 0 <= q < fresh.indices.len() ==> (#[trigger] fresh.indices[q]).entries.len() == 0,
        !taken ==> forall|b: int| 0 <= b < defs.len() ==> !#[trigger] clashes(db, defs, b),
        taken ==> exists|b: int| 0 <= b < defs.len() && #[trigger] clashes(db, defs, b),
    ensures
        fresh.wf(),
        taken == !index_names_distinct(db.push(fresh)),
        !taken ==> db_wf(db.push(fresh)),
{
    let all = db.push(fresh);
    let n = db.len() as int;
    assert(all[n] == fresh);
    assert forall|p: int| 0 <= p < db.len() implies all[p] == db[p] by {}
    assert forall|q: int| 0 <= q < fresh.indices.len() implies fresh.indices[q].def == defs[q] by {
        assert(fresh.defs()[q] == defs[q]);
    }
    if taken {
        let b = choose|b: int| 0 <= b < defs.len() && #[trigger] clashes(db, defs, b);
        if exists|s: int, t: int|
            0 <= s < db.len() && 0 <= t < db[s].indices.len() && (#[trigger] db[s].indices[t]).def.index_name
                == defs[b].index_name {
            let (s, t) = choose|s: int, t: int|
                0 <= s < db.len() && 0 <= t < db[s].indices.len() && (#[trigger] db[s].indices[t]).def.index_name
                    == defs[b].index_name;
            assert(all[n].indices[b].def.index_name == all[s].indices[t].def.index_name);
            assert(!index_names_distinct(all));
        } else {
            let c = choose|c: int|
                0 <= c < b && (#[trigger] defs[c]).index_name == defs[b].index_name;
            assert(all[n].indices[b].def.index_name == all[n].indices[c].def.index_name);
            assert(!index_names_distinct(all));
        }
    } else {
        assert forall|p: int, q: int, s: int, t: int|
            0 <= p < all.len() && 0 <= q < all[p].indices.len() && 0 <= s < all.len() && 0 <= t
                < all[s].indices.len() && (#[trigger] all[p].indices[q]).def.index_name
                == (#[trigger] all[s].indices[t]).def.index_name implies p == s && q == t by {
            if p < n && s < n {
                assert(db[p].indices[q].def.index_name == db[s].indices[t].def.index_name);
            } else if p == n && s < n {
                assert(db[s].indices[t].def.index_name == defs[q].index_name);
                assert(clashes(db, defs, q));
            } else if p < n && s == n {
                assert(db[p].indices[q].def.index_name == defs[t].index_name);
                assert(clashes(db, defs, t));
            } else {
                if q < t {
                    assert(defs[q].index_name == defs[t].index_name);
                    assert(clashes(db, defs, t));
                } else if t < q {
                    assert(defs[t].index_name == defs[q].index_name);
                    assert(clashes(db, defs, q));
                }
            }
        }
        assert(crate::names::distinct_names(table_names(all))) by {
            crate::names::lemma_find_name(table_names(db), name);
            assert forall|i: int, j: int| 0 <= i < j < all.len() implies table_names(all)[i]
                != table_names(all)[j] by {
                if j < n {
                    assert(table_names(db)[i] != table_names(db)[j]);
                } else {
                    assert(table_names(db)[i] != name);
                }
            }
        }
    }
}

/// What is left when a table is removed is in order.
pub proof fn lemma_remove_keeps_wf(db: Seq<TableStateView>, p: int)
    requires
        db_wf(db),
        0 <= p < db.len(),
    ensures
        db_wf(db.remove(p)),
{
    let rest = db.remove(p);
    assert forall|i: int| 0 <= i < rest.len() implies rest[i] == db[if i < p {
        i
    } else {
        i + 1
    }] by {}
    assert forall|i: int, j: int| 0 <= i < j < rest.len() implies table_names(rest)[i]
        != table_names(rest)[j] by {
        let a = if i < p { i } else { i + 1 };
        let b = if j < p { j } else { j + 1 };
        assert(table_names(db)[a] != table_names(db)[b]);
    }
    assert forall|a: int, q: int, s: int, t: int|
        0 <= a < rest.len() && 0 <= q < rest[a].indices.len() && 0 <= s < rest.len() && 0 <= t
            < rest[s].indices.len() && (#[trigger] rest[a].indices[q]).def.index_name
            == (#[trigger] rest[s].indices[t]).def.index_name implies a == s && q == t by {
        let a2 = if a < p { a } else { a + 1 };
        let s2 = if s < p { s } else { s + 1 };
        assert(db[a2].indices[q].def.index_name == db[s2].indices[t].def.index_name);
    }
}

} // verus!
