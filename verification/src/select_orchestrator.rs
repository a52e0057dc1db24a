//! The last stages of a selection: rows that are sorted, or groups that are
//! computed.
use vstd::prelude::*;
use crate::error::{EngineError, ErrorModel};
use crate::float::{self, FloatOp};
use crate::join_builder::JoinedRowStates;
use crate::operators::aggregate::{self, Aggregator};
use crate::operators::sorter::{self, Sorter};
use crate::plain::{self, Plain};
use crate::predicate::{CacheModel, EvalContext, StateModel};
use crate::query::{
    ColumnRef, EngineResult, OptionsModel, PredicateModel, QualifiedColumn, QualifiedPredicate,
    SelectOptions,
};
use crate::select_pipeline::{self, build_sorted_projection_rows, filter_joined_rows};
use crate::store::RowModel;
use crate::store_helpers;

verus! {

/// How far a selection has come: joined rows that are still to be grouped, or
/// its result.
pub enum SelectStageOutput {
    Joined(JoinedRowStates),
    Final(EngineResult),
}

/// A stage, by its contents.
pub enum StageModel {
    Joined(Seq<StateModel>),
    Final(Seq<RowModel>),
}

impl DeepView for SelectStageOutput {
    type V = StageModel;

    open spec fn deep_view(&self) -> StageModel {
        match self {
            SelectStageOutput::Joined(states) => StageModel::Joined(states.deep_view()),
            SelectStageOutput::Final(result) => StageModel::Final(result.deep_view()),
        }
    }
}

/// A selection groups its rows.
pub open spec fn groups(options: OptionsModel) -> bool {
    options.group_by.len() > 0 || options.aggregates.len() > 0
}

/// The joined rows that meet a condition, if there is one.
pub open spec fn filtered(
    states: Seq<StateModel>,
    predicate: Option<PredicateModel>,
    cache: CacheModel,
) -> Seq<StateModel> {
    match predicate {
        None => states,
        Some(p) => store_helpers::kept(states, select_pipeline::meets(p, cache)),
    }
}

/// The rows of a selection that does not group.
pub open spec fn plain_rows(
    states: Seq<StateModel>,
    projection: Seq<ColumnRef>,
    options: OptionsModel,
) -> Result<Seq<RowModel>, ErrorModel> {
    match plain::collected(states, select_pipeline::keyed_row(projection, options.order_by)) {
        Err(e) => Err(e),
        Ok(keyed) => Ok(
            sorter::sorter_output(
                options.order_by,
                options.distinct,
                options.limit,
                options.offset,
                keyed,
            ),
        ),
    }
}

/// Where a selection stands after filter and sorting.
pub open spec fn staged(
    states: Seq<StateModel>,
    projection: Seq<ColumnRef>,
    predicate: Option<PredicateModel>,
    options: OptionsModel,
    cache: CacheModel,
) -> Result<StageModel, ErrorModel> {
    let states = filtered(states, predicate, cache);
    if groups(options) {
        Ok(StageModel::Joined(states))
    } else {
        match plain_rows(states, projection, options) {
            Err(e) => Err(e),
            Ok(rows) => Ok(StageModel::Final(rows)),
        }
    }
}

/// Filters joined rows, and sorts and projects them unless they are to be
/// grouped.
pub fn execute_select_pipeline(
    partial_results: JoinedRowStates,
    projection: &Vec<QualifiedColumn>,
    predicate: Option<&QualifiedPredicate>,
    options: &SelectOptions,
    context: &EvalContext,
) -> (r: Result<SelectStageOutput, EngineError>)
    ensures
        plain::outcome(r) == staged(
            partial_results.deep_view(),
            projection.deep_view(),
            predicate.deep_view(),
            options.deep_view(),
            context.deep_view(),
        ),
{
    let partial_results = match predicate {
        Some(qpred) => filter_joined_rows(&partial_results, qpred, context),
        None => partial_results,
    };
    assert(options.group_by.len() == options.group_by.deep_view().len());
    assert(options.aggregates.len() == options.aggregates.deep_view().len());
    let needs_grouping = options.group_by.len() > 0 || options.aggregates.len() > 0;
    if needs_grouping {
        return Ok(SelectStageOutput::Joined(partial_results));
    }
    match build_sorted_projection_rows(&partial_results, projection, &options.order_by) {
        Ok(keyed) => {
            let rows = Sorter::new(
                options.order_by.duplicate(),
                options.distinct,
                options.limit,
                options.offset,
                keyed,
            ).execute();
            Ok(SelectStageOutput::Final(EngineResult::new(rows)))
        },
        Err(e) => Err(e),
    }
}

/// The rows of a selection that groups.
pub open spec fn grouped_rows<F: Fn(FloatOp) -> u64>(
    f: F,
    states: Seq<StateModel>,
    options: OptionsModel,
) -> Result<Seq<RowModel>, ErrorModel> {
    aggregate::aggregate_output(
        f,
        options.group_by,
        options.aggregates,
        options.having,
        options.order_by,
        options.limit,
        options.offset,
        states,
    )
}

/// Groups joined rows.
pub fn finalize_grouped_result<F: Fn(FloatOp) -> u64>(
    partial_results: JoinedRowStates,
    options: &SelectOptions,
    float: &F,
) -> (r: Result<EngineResult, EngineError>)
    requires
        float::is_float_unit(*float),
    ensures
        plain::outcome(r) == grouped_rows(
            *float,
            partial_results.deep_view(),
            options.deep_view(),
        ),
{
    let aggregator = Aggregator::new(
        options.group_by.duplicate(),
        options.aggregates.duplicate(),
        options.having.duplicate(),
        options.order_by.duplicate(),
        options.limit,
        options.offset,
        partial_results,
    );
    match aggregator.execute(float) {
        Ok(rows) => Ok(EngineResult::new(rows)),
        Err(e) => Err(e),
    }
}

/// The result of a selection on joined rows.
pub open spec fn selected_rows<F: Fn(FloatOp) -> u64>(
    f: F,
    states: Seq<StateModel>,
    projection: Seq<ColumnRef>,
    predicate: Option<PredicateModel>,
    options: OptionsModel,
    cache: CacheModel,
) -> Result<Seq<RowModel>, ErrorModel> {
    match staged(states, projection, predicate, options, cache) {
        Err(e) => Err(e),
        Ok(StageModel::Final(rows)) => Ok(rows),
        Ok(StageModel::Joined(states)) => grouped_rows(f, states, options),
    }
}

/// The result of a selection on joined rows.
pub fn finish_select<F: Fn(FloatOp) -> u64>(
    partial_results: JoinedRowStates,
    projection: &Vec<QualifiedColumn>,
    predicate: Option<&QualifiedPredicate>,
    options: &SelectOptions,
    context: &EvalContext,
    float: &F,
) -> (r: Result<EngineResult, EngineError>)
    requires
        float::is_float_unit(*float),
    ensures
        plain::outcome(r) == selected_rows(
            *float,
            partial_results.deep_view(),
            projection.deep_view(),
            predicate.deep_view(),
            options.deep_view(),
            context.deep_view(),
        ),
{
    match execute_select_pipeline(partial_results, projection, predicate, options, context) {
        Ok(SelectStageOutput::Final(result)) => Ok(result),
        Ok(SelectStageOutput::Joined(states)) => finalize_grouped_result(states, options, float),
        Err(e) => Err(e),
    }
}

} // verus!
