//! The join algorithms behind one interface.
use vstd::prelude::*;
use crate::operators::nested_loop_join::{
    self, apply_full_join, apply_inner_join, apply_left_join, apply_right_join,
};
use crate::predicate::{JoinedRowState, StateModel};
use crate::query::{ColumnRef, JoinKind, QualifiedColumn};
use crate::value::{EngineRow, ValueModel};

verus! {

/// What a join of the given kind gives.
pub open spec fn joined_by(
    kind: JoinKind,
    states: Seq<StateModel>,
    rows: Seq<Seq<ValueModel>>,
    table: Seq<char>,
    left: ColumnRef,
    right: ColumnRef,
    template: StateModel,
) -> Seq<StateModel> {
    match kind {
        JoinKind::Inner => nested_loop_join::inner_join(states, rows, table, left, right),
        JoinKind::Left => nested_loop_join::left_join(states, rows, table, left, right),
        JoinKind::Right => nested_loop_join::right_join(
            states,
            rows,
            table,
            left,
            right,
            template,
        ),
        JoinKind::Full => nested_loop_join::full_join(states, rows, table, left, right, template),
    }
}

/// A way to carry out a join. Every way receives the same parameters; one that
/// has no use for the template leaves it aside.
pub trait JoinAlgorithm {
    /// The kind of join that the algorithm carries out.
    spec fn kind(&self) -> JoinKind;

    fn apply(
        &self,
        partial_results: &[JoinedRowState],
        right_rows: &[EngineRow],
        right_table: &str,
        left_qc: &QualifiedColumn,
        right_qc: &QualifiedColumn,
        template: &JoinedRowState,
    ) -> (r: Vec<JoinedRowState>)
        ensures
            r.deep_view() == joined_by(
                self.kind(),
                partial_results.deep_view(),
                right_rows.deep_view(),
                right_table@,
                left_qc.deep_view(),
                right_qc.deep_view(),
                template.deep_view(),
            ),
    ;
}

/// Inner join by nested loops: only rows with a matching value survive.
pub struct NestedLoopInner;

impl JoinAlgorithm for NestedLoopInner {
    open spec fn kind(&self) -> JoinKind {
        JoinKind::Inner
    }

    fn apply(
        &self,
        partial_results: &[JoinedRowState],
        right_rows: &[EngineRow],
        right_table: &str,
        left_qc: &QualifiedColumn,
        right_qc: &QualifiedColumn,
        template: &JoinedRowState,
    ) -> (r: Vec<JoinedRowState>) {
        apply_inner_join(partial_results, right_rows, right_table, left_qc, right_qc)
    }
}

/// Left join by nested loops: what has no match is kept, without a right row.
pub struct NestedLoopLeft;

impl JoinAlgorithm for NestedLoopLeft {
    open spec fn kind(&self) -> JoinKind {
        JoinKind::Left
    }

    fn apply(
        &self,
        partial_results: &[JoinedRowState],
        right_rows: &[EngineRow],
        right_table: &str,
        left_qc: &QualifiedColumn,
        right_qc: &QualifiedColumn,
        template: &JoinedRowState,
    ) -> (r: Vec<JoinedRowState>) {
        apply_left_join(partial_results, right_rows, right_table, left_qc, right_qc)
    }
}

/// Right join by nested loops: a right row without a match is kept.
pub struct NestedLoopRight;

impl JoinAlgorithm for NestedLoopRight {
    open spec fn kind(&self) -> JoinKind {
        JoinKind::Right
    }

    fn apply(
        &self,
        partial_results: &[JoinedRowState],
        right_rows: &[EngineRow],
        right_table: &str,
        left_qc: &QualifiedColumn,
        right_qc: &QualifiedColumn,
        template: &JoinedRowState,
    ) -> (r: Vec<JoinedRowState>) {
        apply_right_join(partial_results, right_rows, right_table, left_qc, right_qc, template)
    }
}

/// Full join by nested loops: what has no match is kept from both sides.
pub struct NestedLoopFull;

impl JoinAlgorithm for NestedLoopFull {
    open spec fn kind(&self) -> JoinKind {
        JoinKind::Full
    }

    fn apply(
        &self,
        partial_results: &[JoinedRowState],
        right_rows: &[EngineRow],
        right_table: &str,
        left_qc: &QualifiedColumn,
        right_qc: &QualifiedColumn,
        template: &JoinedRowState,
    ) -> (r: Vec<JoinedRowState>) {
        apply_full_join(partial_results, right_rows, right_table, left_qc, right_qc, template)
    }
}

} // verus!
