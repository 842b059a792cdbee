//! What an expression is evaluated against.

use vstd::prelude::*;

use crate::bytepack::extern_types::Timestamp;
use crate::db_core::defs::table::{TableData, TableDataView};
use crate::db_core::expr::error::{DidYouMeanHint, DidYouMeanHintView};
use crate::db_core::named::{names_of, Named, NamedView};
use crate::db_core::record::{RecordBytes, RecordBytesView};
use crate::names::{distinct_names, find_name, lemma_find_name, lemma_find_skips, str_eq};

verus! {

/// The records that the names in an expression stand for, the layouts of
/// their tables, and the time that counts as now. A context is meant to
/// hold each name once (`wf`), and then every entry is found by its name;
/// where a name occurs more than once, the first entry counts.
#[derive(Debug)]
pub struct EvalCtx {
    pub records: Vec<Named<RecordBytes>>,
    pub tables: Vec<Named<TableData>>,
    pub now: Timestamp,
}

/// What an [`EvalCtx`] stands for.
pub struct EvalCtxView {
    pub records: Seq<NamedView<RecordBytesView>>,
    pub tables: Seq<NamedView<TableDataView>>,
    pub now: Timestamp,
}

impl DeepView for EvalCtx {
    type V = EvalCtxView;

    open spec fn deep_view(&self) -> EvalCtxView {
        EvalCtxView {
            records: self.records.deep_view(),
            tables: self.tables.deep_view(),
            now: self.now,
        }
    }
}

/// The names of `items`, in order.
pub open spec fn view_names<V>(items: Seq<NamedView<V>>) -> Seq<Seq<char>> {
    Seq::new(items.len(), |i: int| items[i].name)
}

/// The first of `items` that is called `name`.
pub open spec fn find_named<V>(items: Seq<NamedView<V>>, name: Seq<char>) -> Option<V> {
    match find_name(view_names(items), name) {
        Some(i) => Some(items[i].value),
        None => None,
    }
}

/// Whether each name occurs once among `items`, as the keys of a map do.
pub open spec fn named_once<V>(items: Seq<NamedView<V>>) -> bool {
    distinct_names(view_names(items))
}

/// Where each name occurs once, every item is the one found by its name.
pub proof fn lemma_found_by_name<V>(items: Seq<NamedView<V>>, i: int)
    requires
        named_once(items),
        0 <= i < items.len(),
    ensures
        find_named(items, items[i].name) == Some(items[i].value),
{
    let names = view_names(items);
    assert(names[i] == items[i].name);
    lemma_find_name(names, items[i].name);
    let found = find_name(names, items[i].name)->0;
    if found < i {
        assert(names[found] != names[i]);
    }
}

impl EvalCtxView {
    /// Whether the context is a map from names to records and one from
    /// names to layouts: each name occurs once in either.
    pub open spec fn wf(self) -> bool {
        named_once(self.records) && named_once(self.tables)
    }

    /// The record that `name` stands for.
    pub open spec fn record(self, name: Seq<char>) -> Option<RecordBytesView> {
        find_named(self.records, name)
    }

    /// The layout of the table called `name`.
    pub open spec fn table(self, name: Seq<char>) -> Option<TableDataView> {
        find_named(self.tables, name)
    }

    /// Whether the table at position `i` has a record loaded and a field
    /// called `name`.
    pub open spec fn offers_field(self, i: int, name: Seq<char>) -> bool {
        &&& self.record(self.tables[i].name) is Some
        &&& self.tables[i].value.index_of_field(name) is Some
    }

    /// The hint for the unknown table `name`, looking at the tables from
    /// position `start` on: the first table with a record loaded that has a
    /// field of that name.
    pub open spec fn hint_from(self, name: Seq<char>, start: int) -> DidYouMeanHintView
        decreases self.tables.len() - start,
    {
        if start < 0 || start >= self.tables.len() {
            DidYouMeanHintView::NoHint
        } else if self.offers_field(start, name) {
            DidYouMeanHintView::TableWithField {
                table_name: self.tables[start].name,
                field_name: name,
            }
        } else {
            self.hint_from(name, start + 1)
        }
    }

    /// The hint for the unknown table `name`.
    pub open spec fn hint(self, name: Seq<char>) -> DidYouMeanHintView {
        self.hint_from(name, 0)
    }
}

/// The first of `items` that is called `name`.
pub fn lookup<'a, T: DeepView>(items: &'a Vec<Named<T>>, name: &str) -> (found: Option<&'a T>)
    ensures
        found.deep_view() == find_named(items.deep_view(), name@),
{
    let ghost names = view_names(items.deep_view());
    let mut i: usize = 0;
    while i < items.len()
        invariant
            i <= items@.len(),
            names == view_names(items.deep_view()),
            names.len() == items@.len(),
            forall|j: int| 0 <= j < i ==> names[j] != name@,
        decreases items@.len() - i,
    {
        proof {
            assert(names[i as int] == items@[i as int].name@);
        }
        if str_eq(items[i].name.as_str(), name) {
            proof {
                lemma_find_skips(names, name@, i as int);
                assert(items.deep_view()[i as int].value == items@[i as int].value.deep_view());
            }
            return Some(&items[i].value);
        }
        i += 1;
    }
    proof {
        lemma_find_skips(names, name@, i as int);
    }
    None
}

impl EvalCtx {
    /// The record that `name` stands for.
    pub fn record<'a>(&'a self, name: &str) -> (record: Option<&'a RecordBytes>)
        ensures
            record.deep_view() == self.deep_view().record(name@),
    {
        lookup(&self.records, name)
    }

    /// The layout of the table called `name`.
    pub fn table<'a>(&'a self, name: &str) -> (table: Option<&'a TableData>)
        ensures
            table.deep_view() == self.deep_view().table(name@),
    {
        lookup(&self.tables, name)
    }

    /// The hint for the unknown table `name`: the first table with a
    /// record loaded that has a field of that name.
    pub fn hint(&self, name: &str) -> (hint: DidYouMeanHint)
        ensures
            hint.deep_view() == self.deep_view().hint(name@),
    {
        let ghost view = self.deep_view();
        let mut i: usize = 0;
        while i < self.tables.len()
            invariant
                i <= self.tables@.len(),
                view == self.deep_view(),
                view.tables.len() == self.tables@.len(),
                view.hint(name@) == view.hint_from(name@, i as int),
            decreases self.tables@.len() - i,
        {
            let table = &self.tables[i];
            proof {
                assert(view.tables[i as int] == table.deep_view());
            }
            if self.record(table.name.as_str()).is_some() && table.value.has_field(name) {
                return DidYouMeanHint::TableWithField {
                    table_name: table.name.clone(),
                    field_name: name.to_owned(),
                };
            }
            i += 1;
        }
        DidYouMeanHint::NoHint
    }
}

impl Default for EvalCtx {
    /// No records, no tables, and the epoch for now.
    fn default() -> (ctx: Self)
        ensures
            ctx.records@.len() == 0,
            ctx.tables@.len() == 0,
            ctx.now == Timestamp(0),
    {
        EvalCtx { records: Vec::new(), tables: Vec::new(), now: Timestamp(0) }
    }
}

} // verus!
