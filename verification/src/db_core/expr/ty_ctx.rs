//! What an expression is typed against.

use vstd::prelude::*;

use crate::db_core::defs::table::{TableData, TableDataView};
use crate::db_core::expr::eval_ctx::{find_named, lookup, named_once};
use crate::db_core::named::{Named, NamedView};

verus! {

/// The layouts of the tables that an expression may name. A context is
/// meant to hold each name once (`wf`), and then every layout is found by
/// its name; where a name occurs more than once, the first entry counts.
#[derive(Debug)]
pub struct TyCtx {
    pub tables: Vec<Named<TableData>>,
}

/// What a [`TyCtx`] stands for.
pub struct TyCtxView {
    pub tables: Seq<NamedView<TableDataView>>,
}

impl DeepView for TyCtx {
    type V = TyCtxView;

    open spec fn deep_view(&self) -> TyCtxView {
        TyCtxView { tables: self.tables.deep_view() }
    }
}

impl TyCtxView {
    /// Whether the context is a map from names to layouts: each name
    /// occurs once.
    pub open spec fn wf(self) -> bool {
        named_once(self.tables)
    }

    /// The layout of the table called `name`.
    pub open spec fn table(self, name: Seq<char>) -> Option<TableDataView> {
        find_named(self.tables, name)
    }
}

impl TyCtx {
    /// The layout of the table called `name`.
    pub fn table<'a>(&'a self, name: &str) -> (table: Option<&'a TableData>)
        ensures
            table.deep_view() == self.deep_view().table(name@),
    {
        lookup(&self.tables, name)
    }
}

impl Default for TyCtx {
    fn default() -> (ctx: Self)
        ensures
            ctx.tables@.len() == 0,
    {
        TyCtx { tables: Vec::new() }
    }
}

} // verus!
