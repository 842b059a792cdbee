//! Looking records up through an index.

use vstd::prelude::*;

use crate::bytepack::extern_types::{Timestamp, Ulid};
use crate::db::entries::{IndexEntry, IndexKey};
use crate::db::error::{DbError, DbErrorView};
use crate::db::record_ext::Db;
use crate::db::tables::{TableState, TableStateView};
use crate::db_core::ty::{FieldTy, FieldTyView};
use crate::db_core::value::{FieldValue, FieldValueView};
use crate::names::{find_name, lemma_find_skips, str_eq};

verus! {

/// One end of a range of keys.
#[derive(Debug, PartialEq, Eq)]
pub enum IndexBound {
    /// No limit.
    Unbounded,
    /// The value given, and the value itself counts.
    Included(FieldValue),
    /// The value given, and the value itself does not count.
    Excluded(FieldValue),
}

/// What an [`IndexBound`] stands for.
pub enum IndexBoundView {
    Unbounded,
    Included(FieldValueView),
    Excluded(FieldValueView),
}

impl DeepView for IndexBound {
    type V = IndexBoundView;

    open spec fn deep_view(&self) -> IndexBoundView {
        match self {
            IndexBound::Unbounded => IndexBoundView::Unbounded,
            IndexBound::Included(value) => IndexBoundView::Included(value.deep_view()),
            IndexBound::Excluded(value) => IndexBoundView::Excluded(value.deep_view()),
        }
    }
}

impl IndexBoundView {
    /// Whether the bound is a limit of the type `ty`, or none at all.
    pub open spec fn fits(self, ty: FieldTyView) -> bool {
        match self {
            IndexBoundView::Unbounded => true,
            IndexBoundView::Included(value) => value.ty() == ty,
            IndexBoundView::Excluded(value) => value.ty() == ty,
        }
    }

    /// Whether the time `secs` is not below the bound.
    pub open spec fn admits_from(self, secs: int) -> bool {
        match self {
            IndexBoundView::Included(FieldValueView::Timestamp(limit)) => limit.0 <= secs,
            IndexBoundView::Excluded(FieldValueView::Timestamp(limit)) => limit.0 < secs,
            _ => true,
        }
    }

    /// Whether the time `secs` is not above the bound.
    pub open spec fn admits_upto(self, secs: int) -> bool {
        match self {
            IndexBoundView::Included(FieldValueView::Timestamp(limit)) => secs <= limit.0,
            IndexBoundView::Excluded(FieldValueView::Timestamp(limit)) => secs < limit.0,
            _ => true,
        }
    }
}

impl IndexBound {
    /// Whether the bound is a limit of the type `ty`, or none at all.
    pub fn fits(&self, ty: &FieldTy) -> (fits: bool)
        ensures
            fits == self.deep_view().fits(ty.deep_view()),
    {
        match self {
            IndexBound::Unbounded => true,
            IndexBound::Included(value) => value.ty().same(ty),
            IndexBound::Excluded(value) => value.ty().same(ty),
        }
    }

    /// Whether the time `secs` is not below the bound.
    pub fn admits_from(&self, secs: i64) -> (admits: bool)
        ensures
            admits == self.deep_view().admits_from(secs as int),
    {
        match self {
            IndexBound::Included(FieldValue::Timestamp(limit)) => limit.0 <= secs,
            IndexBound::Excluded(FieldValue::Timestamp(limit)) => limit.0 < secs,
            _ => true,
        }
    }

    /// Whether the time `secs` is not above the bound.
    pub fn admits_upto(&self, secs: i64) -> (admits: bool)
        ensures
            admits == self.deep_view().admits_upto(secs as int),
    {
        match self {
            IndexBound::Included(FieldValue::Timestamp(limit)) => secs <= limit.0,
            IndexBound::Excluded(FieldValue::Timestamp(limit)) => secs < limit.0,
            _ => true,
        }
    }
}

/// The names of the table's indices, in order.
pub open spec fn index_names(table: TableStateView) -> Seq<Seq<char>> {
    Seq::new(table.indices.len(), |q: int| table.indices[q].def.index_name)
}

/// The first index called `name`, looking at the tables from position
/// `start` on: the positions of its table and of the index in the table.
pub open spec fn find_index_from(db: Seq<TableStateView>, name: Seq<char>, start: int) -> Option<
    (int, int),
>
    decreases db.len() - start,
{
    if start < 0 || start >= db.len() {
        None
    } else {
        match find_name(index_names(db[start]), name) {
            Some(q) => Some((start, q)),
            None => find_index_from(db, name, start + 1),
        }
    }
}

/// The first index called `name`.
pub open spec fn find_index(db: Seq<TableStateView>, name: Seq<char>) -> Option<(int, int)> {
    find_index_from(db, name, 0)
}

/// What `find_index_from` finds is an index of the name looked for.
pub proof fn lemma_find_index_from(db: Seq<TableStateView>, name: Seq<char>, start: int)
    requires
        0 <= start,
    ensures
        match find_index_from(db, name, start) {
            Some((p, q)) => start <= p < db.len() && 0 <= q < db[p].indices.len()
                && db[p].indices[q].def.index_name == name,
            None => forall|p: int, q: int|
                start <= p < db.len() && 0 <= q < db[p].indices.len() ==> (
                #[trigger] db[p].indices[q]).def.index_name != name,
        },
    decreases db.len() - start,
{
    if start < db.len() {
        crate::names::lemma_find_name(index_names(db[start]), name);
        match find_name(index_names(db[start]), name) {
            Some(q) => {
                assert(index_names(db[start])[q] == db[start].indices[q].def.index_name);
            },
            None => {
                lemma_find_index_from(db, name, start + 1);
                if find_index_from(db, name, start + 1) is None {
                    assert forall|p: int, q: int|
                        start <= p < db.len() && 0 <= q < db[p].indices.len() implies (
                    #[trigger] db[p].indices[q]).def.index_name != name by {
                        if p == start {
                            assert(index_names(db[start])[q] == db[start].indices[q].def.index_name);
                            assert(index_names(db[start])[q] != name);
                        }
                    }
                }
            },
        }
    }
}

/// The entry as it is handed out: the key as a value of the indexed
/// field's type, and the identifier of the record filed under it.
pub open spec fn entry_value(entry: IndexEntry, ty: FieldTyView) -> (FieldValueView, Ulid) {
    match entry.key {
        IndexKey::Id(id) => (
            FieldValueView::RecordId {
                id,
                table_name: match ty {
                    FieldTyView::RecordId { table_name } => table_name,
                    _ => Seq::empty(),
                },
            },
            entry.record,
        ),
        IndexKey::Time(time) => (FieldValueView::Timestamp(time), entry.record),
    }
}

/// Whether an entry lies within the bounds of a lookup. Entries filed
/// under an identifier always do: identifiers are not looked up by range.
pub open spec fn entry_admitted(entry: IndexEntry, min: IndexBoundView, max: IndexBoundView) -> bool {
    match entry.key {
        IndexKey::Id(_) => true,
        IndexKey::Time(time) => min.admits_from(time.0 as int) && max.admits_upto(time.0 as int),
    }
}

/// Those of the first `count` entries that lie within the bounds, as they
/// are handed out, in order.
pub open spec fn admitted_entries(
    entries: Seq<IndexEntry>,
    ty: FieldTyView,
    min: IndexBoundView,
    max: IndexBoundView,
    count: nat,
) -> Seq<(FieldValueView, Ulid)>
    decreases count,
{
    if count == 0 || count > entries.len() {
        Seq::empty()
    } else {
        let before = admitted_entries(entries, ty, min, max, (count - 1) as nat);
        if entry_admitted(entries[count - 1], min, max) {
            before.push(entry_value(entries[count - 1], ty))
        } else {
            before
        }
    }
}

/// What a lookup through the index called `name` gives: every entry of an
/// index kept over references, whatever the bounds; of any other index,
/// the entries within the bounds, which must be of the type of the
/// indexed field.
pub open spec fn index_queried(
    db: Seq<TableStateView>,
    name: Seq<char>,
    min: IndexBoundView,
    max: IndexBoundView,
) -> Result<Seq<(FieldValueView, Ulid)>, DbErrorView> {
    match find_index(db, name) {
        Some((p, q)) => match db[p].field_of(q) {
            Some(field) => {
                let entries = db[p].indices[q].entries;
                if field.ty is RecordId {
                    Ok(
                        admitted_entries(
                            entries,
                            field.ty,
                            IndexBoundView::Unbounded,
                            IndexBoundView::Unbounded,
                            entries.len(),
                        ),
                    )
                } else if !min.fits(field.ty) || !max.fits(field.ty) {
                    Err(DbErrorView::WrongType { expected: field.ty })
                } else {
                    Ok(admitted_entries(entries, field.ty, min, max, entries.len()))
                }
            },
            None => Err(DbErrorView::TableDoesNotExist { table: name }),
        },
        None => Err(DbErrorView::TableDoesNotExist { table: name }),
    }
}

/// What a list of entries handed out stands for.
pub open spec fn handed_out(entries: Seq<(FieldValue, Ulid)>) -> Seq<(FieldValueView, Ulid)> {
    Seq::new(entries.len(), |i: int| (entries[i].0.deep_view(), entries[i].1))
}

/// What the outcome of a lookup stands for.
pub open spec fn lookup_view(out: Result<Vec<(FieldValue, Ulid)>, DbError>) -> Result<
    Seq<(FieldValueView, Ulid)>,
    DbErrorView,
> {
    match out {
        Ok(entries) => Ok(handed_out(entries@)),
        Err(err) => Err(err.deep_view()),
    }
}

impl TableState {
    /// The position of the first index called `name`.
    pub fn index_position(&self, name: &str) -> (pos: Option<usize>)
        ensures
            match pos {
                Some(q) => find_name(index_names(self.deep_view()), name@) == Some(q as int) && q
                    < self.deep_view().indices.len(),
                None => find_name(index_names(self.deep_view()), name@) is None,
            },
    {
        let ghost names = index_names(self.deep_view());
        let mut q: usize = 0;
        while q < self.indices.len()
            invariant
                q <= self.indices@.len(),
                names == index_names(self.deep_view()),
                names.len() == self.indices@.len(),
                forall|j: int| 0 <= j < q ==> names[j] != name@,
            decreases self.indices@.len() - q,
        {
            proof {
                assert(self.deep_view().indices[q as int] == self.indices@[q as int].deep_view());
                assert(names[q as int] == self.indices@[q as int].def.index_name@);
            }
            if str_eq(self.indices[q].def.index_name.as_str(), name) {
                proof {
                    lemma_find_skips(names, name@, q as int);
                }
                return Some(q);
            }
            q += 1;
        }
        proof {
            lemma_find_skips(names, name@, q as int);
        }
        None
    }
}

impl Db {
    /// The first index called `name`: the positions of its table and of
    /// the index in the table.
    pub fn locate_index(&self, name: &str) -> (pos: Option<(usize, usize)>)
        ensures
            match pos {
                Some((p, q)) => find_index(self.deep_view(), name@) == Some((p as int, q as int))
                    && p < self.deep_view().len() && q < self.deep_view()[p as int].indices.len(),
                None => find_index(self.deep_view(), name@) is None,
            },
    {
        let ghost db = self.deep_view();
        let mut p: usize = 0;
        while p < self.tables.tables.len()
            invariant
                p <= self.tables.tables@.len(),
                db == self.deep_view(),
                db.len() == self.tables.tables@.len(),
                find_index(db, name@) == find_index_from(db, name@, p as int),
            decreases self.tables.tables@.len() - p,
        {
            proof {
                assert(db[p as int] == self.tables.tables@[p as int].deep_view());
            }
            match self.tables.tables[p].index_position(name) {
                Some(q) => {
                    return Some((p, q));
                },
                None => {},
            }
            p += 1;
        }
        None
    }

    /// The entries of the index called `index_name`, each as the value
    /// under which a record is filed and the record's identifier, in the
    /// order of the keys. Of an index kept over references, all entries
    /// are given, whatever the bounds. Of any other index, the entries
    /// between `min` and `max` are given.
    pub fn index_query(&self, index_name: &str, min: &IndexBound, max: &IndexBound) -> (out: Result<
        Vec<(FieldValue, Ulid)>,
        DbError,
    >)
        ensures
            lookup_view(out) == index_queried(
                self.deep_view(),
                index_name@,
                min.deep_view(),
                max.deep_view(),
            ),
    {
        let ghost db = self.deep_view();
        let (p, q) = match self.locate_index(index_name) {
            Some(pos) => pos,
            None => {
                return Err(DbError::TableDoesNotExist { table: index_name.to_owned() });
            },
        };
        let table = &self.tables.tables[p];
        proof {
            assert(db[p as int] == table.deep_view());
            assert(db[p as int].indices[q as int] == table.indices@[q as int].deep_view());
        }
        let index = &table.indices[q];
        let field = match table.data.field(index.def.field_name.as_str()) {
            Some(field) => field,
            None => {
                return Err(DbError::TableDoesNotExist { table: index_name.to_owned() });
            },
        };
        let unbounded = IndexBound::Unbounded;
        let (low, high) = match &field.ty {
            FieldTy::RecordId { .. } => (&unbounded, &unbounded),
            other => {
                if !min.fits(other) || !max.fits(other) {
                    return Err(DbError::WrongType { expected: other.clone() });
                }
                (min, max)
            },
        };
        let ghost ty = field.ty.deep_view();
        let ghost entries = index.entries@;
        let mut found: Vec<(FieldValue, Ulid)> = Vec::new();
        let mut i: usize = 0;
        assert(handed_out(found@) =~= admitted_entries(
            entries,
            ty,
            low.deep_view(),
            high.deep_view(),
            0,
        ));
        while i < index.entries.len()
            invariant
                i <= index.entries@.len(),
                entries == index.entries@,
                ty == field.ty.deep_view(),
                handed_out(found@) == admitted_entries(
                    entries,
                    ty,
                    low.deep_view(),
                    high.deep_view(),
                    i as nat,
                ),
            decreases index.entries@.len() - i,
        {
            let entry = index.entries[i];
            let ghost before = handed_out(found@);
            match entry.key {
                IndexKey::Id(id) => {
                    let table_name = match &field.ty {
                        FieldTy::RecordId { table_name } => table_name.clone(),
                        _ => String::new(),
                    };
                    found.push((FieldValue::RecordId { id, table_name }, entry.record));
                    assert(handed_out(found@) =~= before.push(entry_value(entry, ty)));
                },
                IndexKey::Time(time) => {
                    if low.admits_from(time.0) && high.admits_upto(time.0) {
                        found.push((FieldValue::Timestamp(time), entry.record));
                        assert(handed_out(found@) =~= before.push(entry_value(entry, ty)));
                    }
                },
            }
            i += 1;
        }
        Ok(found)
    }
}

} // verus!
