//! Secondary indices, as the schema derives them.

use vstd::prelude::*;

use crate::db_core::defs::trigger::{DbTrigger, DbTriggerView, TriggerAction, TriggerActionView};
use crate::db_core::ty::{FieldTy, FieldTyView};

verus! {

/// What becomes of the records that refer to a record when it is deleted.
#[derive(Debug, Clone, Copy, PartialEq, Eq, Structural)]
pub enum IndexOnDelete {
    /// Nothing: the index serves lookups only.
    NoAction,
    /// They are deleted too.
    Cascade,
    /// Their reference is cleared. No schema derives this policy, and the
    /// store does not carry it out.
    SetNone,
}

/// A secondary index over one field of one table.
#[derive(Debug, PartialEq, Eq)]
pub struct IndexDef {
    pub index_name: String,
    pub table_name: String,
    pub field_name: String,
    pub on_delete: IndexOnDelete,
}

/// What an [`IndexDef`] stands for.
pub struct IndexDefView {
    pub index_name: Seq<char>,
    pub table_name: Seq<char>,
    pub field_name: Seq<char>,
    pub on_delete: IndexOnDelete,
}

impl DeepView for IndexDef {
    type V = IndexDefView;

    open spec fn deep_view(&self) -> IndexDefView {
        IndexDefView {
            index_name: self.index_name@,
            table_name: self.table_name@,
            field_name: self.field_name@,
            on_delete: self.on_delete,
        }
    }
}

impl Clone for IndexDef {
    fn clone(&self) -> (copy: Self)
        ensures
            copy.deep_view() == self.deep_view(),
    {
        IndexDef {
            index_name: self.index_name.clone(),
            table_name: self.table_name.clone(),
            field_name: self.field_name.clone(),
            on_delete: self.on_delete,
        }
    }
}

/// A trigger together with the name of the table it is attached to.
pub struct TableTriggerView {
    pub table_name: Seq<char>,
    pub trigger: DbTriggerView,
}

impl IndexDefView {
    /// The triggers that keep this index up to date, given the type of the
    /// indexed field: on the owning table, one that enters an inserted
    /// record and one that removes a deleted record's entry; and, where the
    /// field refers to another table, one on that table that deals with the
    /// records referring to a deleted one.
    pub open spec fn triggers(self, field_ty: FieldTyView) -> Seq<TableTriggerView> {
        let own = seq![
            TableTriggerView {
                table_name: self.table_name,
                trigger: DbTriggerView::OnInsert(
                    TriggerActionView::InsertIntoIndex { index_name: self.index_name },
                ),
            },
            TableTriggerView {
                table_name: self.table_name,
                trigger: DbTriggerView::OnDelete(
                    TriggerActionView::DeleteValueFromIndex { index_name: self.index_name },
                ),
            },
        ];
        match field_ty {
            FieldTyView::RecordId { table_name } => own.push(
                TableTriggerView {
                    table_name,
                    trigger: DbTriggerView::OnDelete(
                        TriggerActionView::DeleteKeyFromIndex { index_name: self.index_name },
                    ),
                },
            ),
            _ => own,
        }
    }
}

/// What a list of triggers with their tables stands for.
pub open spec fn table_triggers_view(triggers: Seq<(String, DbTrigger)>) -> Seq<TableTriggerView> {
    Seq::new(
        triggers.len(),
        |i: int| TableTriggerView { table_name: triggers[i].0@, trigger: triggers[i].1.deep_view() },
    )
}

impl IndexDef {
    pub fn new(index_name: String, table: String, field: String, on_delete: IndexOnDelete) -> (index:
        Self)
        ensures
            index.index_name == index_name,
            index.table_name == table,
            index.field_name == field,
            index.on_delete == on_delete,
    {
        IndexDef { index_name, table_name: table, field_name: field, on_delete }
    }

    pub fn name(&self) -> (name: &String)
        ensures
            name == self.index_name,
    {
        &self.index_name
    }

    /// The triggers that keep this index up to date, each with the name of
    /// the table it belongs to. `target_field_ty` is the type of the
    /// indexed field.
    pub fn triggers(&self, target_field_ty: &FieldTy) -> (triggers: Vec<(String, DbTrigger)>)
        ensures
            table_triggers_view(triggers@) == self.deep_view().triggers(
                target_field_ty.deep_view(),
            ),
    {
        let mut result: Vec<(String, DbTrigger)> = Vec::new();
        result.push(
            (
                self.table_name.clone(),
                DbTrigger::OnInsert(
                    TriggerAction::InsertIntoIndex { index_name: self.index_name.clone() },
                ),
            ),
        );
        result.push(
            (
                self.table_name.clone(),
                DbTrigger::OnDelete(
                    TriggerAction::DeleteValueFromIndex { index_name: self.index_name.clone() },
                ),
            ),
        );
        if let FieldTy::RecordId { table_name } = target_field_ty {
            result.push(
                (
                    table_name.clone(),
                    DbTrigger::OnDelete(
                        TriggerAction::DeleteKeyFromIndex { index_name: self.index_name.clone() },
                    ),
                ),
            );
        }
        assert(table_triggers_view(result@) =~= self.deep_view().triggers(
            target_field_ty.deep_view(),
        ));
        result
    }
}

} // verus!
