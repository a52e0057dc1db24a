//! Changes of rows, as listeners hear of them.
use vstd::prelude::*;
use crate::value::{EngineRow, PrimaryKey, ValueModel};

verus! {

/// A change of a row.
#[derive(Clone, Debug, PartialEq, Eq)]
pub enum ChangeEvent {
    RowInserted { table: String, pk: PrimaryKey, row: EngineRow },
    RowDeleted { table: String, pk: PrimaryKey, row: EngineRow },
    RowUpdated { table: String, pk: PrimaryKey, old_row: EngineRow, new_row: EngineRow },
}

/// What a [`ChangeEvent`] is, mathematically.
#[verifier::ext_equal]
pub enum EventModel {
    RowInserted { table: Seq<char>, pk: Seq<ValueModel>, row: Seq<ValueModel> },
    RowDeleted { table: Seq<char>, pk: Seq<ValueModel>, row: Seq<ValueModel> },
    RowUpdated {
        table: Seq<char>,
        pk: Seq<ValueModel>,
        old_row: Seq<ValueModel>,
        new_row: Seq<ValueModel>,
    },
}

impl DeepView for ChangeEvent {
    type V = EventModel;

    open spec fn deep_view(&self) -> EventModel {
        match self {
            ChangeEvent::RowInserted { table, pk, row } => EventModel::RowInserted {
                table: table@,
                pk: pk.deep_view(),
                row: row.deep_view(),
            },
            ChangeEvent::RowDeleted { table, pk, row } => EventModel::RowDeleted {
                table: table@,
                pk: pk.deep_view(),
                row: row.deep_view(),
            },
            ChangeEvent::RowUpdated { table, pk, old_row, new_row } => EventModel::RowUpdated {
                table: table@,
                pk: pk.deep_view(),
                old_row: old_row.deep_view(),
                new_row: new_row.deep_view(),
            },
        }
    }
}

/// The table of a change.
pub open spec fn event_table(e: EventModel) -> Seq<char> {
    match e {
        EventModel::RowInserted { table, .. } => table,
        EventModel::RowDeleted { table, .. } => table,
        EventModel::RowUpdated { table, .. } => table,
    }
}

/// The primary key of the row that changed.
pub open spec fn event_key(e: EventModel) -> Seq<ValueModel> {
    match e {
        EventModel::RowInserted { pk, .. } => pk,
        EventModel::RowDeleted { pk, .. } => pk,
        EventModel::RowUpdated { pk, .. } => pk,
    }
}

/// The rows that a change took away or put in.
pub open spec fn event_rows(e: EventModel) -> Seq<Seq<ValueModel>> {
    match e {
        EventModel::RowInserted { row, .. } => seq![row],
        EventModel::RowDeleted { row, .. } => seq![row],
        EventModel::RowUpdated { old_row, new_row, .. } => seq![old_row, new_row],
    }
}

impl ChangeEvent {
    /// The table of the change.
    pub fn table(&self) -> (r: &str)
        ensures
            r@ == event_table(self.deep_view()),
    {
        match self {
            ChangeEvent::RowInserted { table, .. } => table.as_str(),
            ChangeEvent::RowDeleted { table, .. } => table.as_str(),
            ChangeEvent::RowUpdated { table, .. } => table.as_str(),
        }
    }

    /// The primary key of the row that changed.
    pub fn pk(&self) -> (r: &PrimaryKey)
        ensures
            r.deep_view() == event_key(self.deep_view()),
    {
        match self {
            ChangeEvent::RowInserted { pk, .. } => pk,
            ChangeEvent::RowDeleted { pk, .. } => pk,
            ChangeEvent::RowUpdated { pk, .. } => pk,
        }
    }
}

/// An object that hears of changes.
pub trait ChangeListener {
    fn on_change(&self, event: ChangeEvent);
}

} // verus!
