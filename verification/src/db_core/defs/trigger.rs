//! What happens when a record is inserted or deleted.

use vstd::prelude::*;

verus! {

/// A reaction attached to a table.
#[derive(Debug, PartialEq, Eq)]
pub enum DbTrigger {
    /// Runs after a record was inserted into the table.
    OnInsert(TriggerAction),
    /// Runs after a record was deleted from the table.
    OnDelete(TriggerAction),
}

/// What a trigger does.
#[derive(Debug, PartialEq, Eq)]
pub enum TriggerAction {
    /// Prints a line, for debugging.
    Println { text: String },
    /// Enters the record under the value of the indexed field.
    InsertIntoIndex { index_name: String },
    /// Removes the record's own entry from the index.
    DeleteValueFromIndex { index_name: String },
    /// Removes every entry filed under the record's identifier, and deals
    /// with the records that those entries name as the index says.
    DeleteKeyFromIndex { index_name: String },
}

/// What a [`TriggerAction`] stands for.
pub enum TriggerActionView {
    Println { text: Seq<char> },
    InsertIntoIndex { index_name: Seq<char> },
    DeleteValueFromIndex { index_name: Seq<char> },
    DeleteKeyFromIndex { index_name: Seq<char> },
}

/// What a [`DbTrigger`] stands for.
pub enum DbTriggerView {
    OnInsert(TriggerActionView),
    OnDelete(TriggerActionView),
}

impl DeepView for TriggerAction {
    type V = TriggerActionView;

    open spec fn deep_view(&self) -> TriggerActionView {
        match self {
            TriggerAction::Println { text } => TriggerActionView::Println { text: text@ },
            TriggerAction::InsertIntoIndex { index_name } => TriggerActionView::InsertIntoIndex {
                index_name: index_name@,
            },
            TriggerAction::DeleteValueFromIndex { index_name } => {
                TriggerActionView::DeleteValueFromIndex { index_name: index_name@ }
            },
            TriggerAction::DeleteKeyFromIndex { index_name } => {
                TriggerActionView::DeleteKeyFromIndex { index_name: index_name@ }
            },
        }
    }
}

impl DeepView for DbTrigger {
    type V = DbTriggerView;

    open spec fn deep_view(&self) -> DbTriggerView {
        match self {
            DbTrigger::OnInsert(action) => DbTriggerView::OnInsert(action.deep_view()),
            DbTrigger::OnDelete(action) => DbTriggerView::OnDelete(action.deep_view()),
        }
    }
}

impl Clone for TriggerAction {
    fn clone(&self) -> (copy: Self)
        ensures
            copy.deep_view() == self.deep_view(),
    {
        match self {
            TriggerAction::Println { text } => TriggerAction::Println { text: text.clone() },
            TriggerAction::InsertIntoIndex { index_name } => TriggerAction::InsertIntoIndex {
                index_name: index_name.clone(),
            },
            TriggerAction::DeleteValueFromIndex { index_name } => {
                TriggerAction::DeleteValueFromIndex { index_name: index_name.clone() }
            },
            TriggerAction::DeleteKeyFromIndex { index_name } => {
                TriggerAction::DeleteKeyFromIndex { index_name: index_name.clone() }
            },
        }
    }
}

impl Clone for DbTrigger {
    fn clone(&self) -> (copy: Self)
        ensures
            copy.deep_view() == self.deep_view(),
    {
        match self {
            DbTrigger::OnInsert(action) => DbTrigger::OnInsert(action.clone()),
            DbTrigger::OnDelete(action) => DbTrigger::OnDelete(action.clone()),
        }
    }
}

} // verus!
