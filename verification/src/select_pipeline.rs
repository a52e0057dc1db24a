//! The stages of a selection: joined rows, their filter, and the rows that are
//! projected and keyed for sorting.
use vstd::prelude::*;
use crate::error::{self, EngineError, ErrorModel};
use crate::join_builder::{
    self, apply_join, build_join_template, collect_table_rows_map, collect_tables,
    seed_joined_row_states, JoinedRowStates, RowsModel, TableRows,
};
use crate::operators::sorter::{KeyedModel, KeyedRow};
use crate::plain::{self, no_items, push_back, Plain};
use crate::predicate::{
    self, eval_predicate, CacheModel, EvalContext, JoinedRowState, RowContext, StateModel,
};
use crate::projection::{self, read_cells};
use crate::query::{
    ColumnRef, JoinClause, JoinModel, OrderBy, OrderModel, PredicateModel, QualifiedColumn,
    QualifiedPredicate,
};
use crate::schema;
use crate::store::{RowStore, Trees};
use crate::store_helpers;

verus! {

/// Joins, one after the other.
pub open spec fn joins_applied(
    joins: Seq<JoinModel>,
    rows: RowsModel,
    template: StateModel,
    states: Seq<StateModel>,
) -> Seq<StateModel>
    decreases joins.len(),
{
    if joins.len() == 0 {
        states
    } else {
        joins_applied(
            joins.drop_first(),
            rows,
            template,
            join_builder::join_applied(joins[0], rows, template, states),
        )
    }
}

/// Joins, one after the other.
pub fn apply_joins(
    joins: &Vec<JoinClause>,
    table_rows_map: &TableRows,
    template: &JoinedRowState,
    partial_results: JoinedRowStates,
) -> (r: JoinedRowStates)
    ensures
        r.deep_view() == joins_applied(
            joins.deep_view(),
            table_rows_map.deep_view(),
            template.deep_view(),
            partial_results.deep_view(),
        ),
{
    let ghost all = joins.deep_view();
    let ghost rows = table_rows_map.deep_view();
    let ghost wanted = joins_applied(
        all,
        rows,
        template.deep_view(),
        partial_results.deep_view(),
    );
    let mut states = partial_results;
    let mut i: usize = 0;
    proof {
        assert(all.skip(0) =~= all);
    }
    while i < joins.len()
        invariant
            i <= joins.len(),
            all == joins.deep_view(),
            rows == table_rows_map.deep_view(),
            wanted == joins_applied(
                all.skip(i as int),
                rows,
                template.deep_view(),
                states.deep_view(),
            ),
        decreases joins.len() - i,
    {
        proof {
            assert(all.skip(i as int)[0] == joins@[i as int].deep_view());
            assert(all.skip(i as int).drop_first() =~= all.skip(i + 1));
        }
        states = apply_join(&joins[i], table_rows_map, template, &states);
        i += 1;
    }
    states
}

/// The joined rows of a selection, before any filter.
pub open spec fn materialized(trees: Trees, base: Seq<char>, joins: Seq<JoinModel>) -> Seq<
    StateModel,
> {
    let tables = join_builder::tables_read(base, Seq::empty(), joins);
    let rows = join_builder::rows_by_table(trees, tables);
    let template = join_builder::template_of(tables);
    joins_applied(joins, rows, template, join_builder::seeded(base, rows, template))
}

/// The joined rows of a selection, if the rows of its tables can be listed.
pub open spec fn joined_rows(trees: Trees, base: Seq<char>, joins: Seq<JoinModel>) -> Result<
    Seq<StateModel>,
    ErrorModel,
> {
    if join_builder::all_listed(trees, join_builder::tables_read(base, Seq::empty(), joins)) {
        Ok(materialized(trees, base, joins))
    } else {
        Err(schema::no_primary_key())
    }
}

/// The joined rows of a selection, before any filter.
pub fn materialize_joined_rows<TX: RowStore>(
    tx: &TX,
    base_table: &str,
    joins: &Vec<JoinClause>,
) -> (r: Result<JoinedRowStates, EngineError>)
    ensures
        error::settles(r, tx.sound(), joined_rows(tx.trees(), base_table@, joins.deep_view())),
{
    let tables = collect_tables(base_table, &no_items(), joins);
    let table_rows_map = match collect_table_rows_map(tx, &tables) {
        Ok(map) => map,
        Err(e) => {
            return Err(e);
        },
    };
    let template = build_join_template(&tables);
    let states = seed_joined_row_states(base_table, &table_rows_map, &template);
    Ok(apply_joins(joins, &table_rows_map, &template, states))
}

/// Joined rows meet a condition, with the results of its subqueries.
pub open spec fn meets(p: PredicateModel, cache: CacheModel) -> spec_fn(StateModel) -> bool {
    |state: StateModel| predicate::holds(p, state, cache)
}

/// The joined rows that meet a condition.
pub fn filter_joined_rows(
    partial_results: &JoinedRowStates,
    predicate: &QualifiedPredicate,
    context: &EvalContext,
) -> (r: JoinedRowStates)
    ensures
        r.deep_view() == store_helpers::kept(
            partial_results.deep_view(),
            meets(predicate.deep_view(), context.deep_view()),
        ),
{
    let ghost all = partial_results.deep_view();
    let ghost p = meets(predicate.deep_view(), context.deep_view());
    let mut out: JoinedRowStates = no_items();
    let mut i: usize = 0;
    while i < partial_results.len()
        invariant
            i <= partial_results.len(),
            all == partial_results.deep_view(),
            p == meets(predicate.deep_view(), context.deep_view()),
            out.deep_view() == store_helpers::kept(all.take(i as int), p),
        decreases partial_results.len() - i,
    {
        proof {
            assert(all.take(i + 1).drop_last() =~= all.take(i as int));
            assert(all.take(i + 1).last() == partial_results@[i as int].deep_view());
        }
        if eval_predicate(predicate, &RowContext::Joined(&partial_results[i]), context) {
            push_back(&mut out, partial_results[i].duplicate());
        }
        i += 1;
    }
    proof {
        assert(all.take(i as int) =~= all);
    }
    out
}

/// The columns that rows are sorted by.
pub open spec fn sort_columns(order_by: Seq<OrderModel>) -> Seq<ColumnRef> {
    order_by.map_values(|o: OrderModel| o.expr)
}

/// The columns that rows are sorted by.
fn columns_sorted_by(order_by: &Vec<OrderBy>) -> (r: Vec<QualifiedColumn>)
    ensures
        r.deep_view() == sort_columns(order_by.deep_view()),
{
    let ghost wanted = sort_columns(order_by.deep_view());
    let mut out: Vec<QualifiedColumn> = no_items();
    let mut i: usize = 0;
    while i < order_by.len()
        invariant
            i <= order_by.len(),
            wanted == sort_columns(order_by.deep_view()),
            out.deep_view() == wanted.take(i as int),
        decreases order_by.len() - i,
    {
        push_back(&mut out, order_by[i].expr.duplicate());
        proof {
            assert(order_by.deep_view()[i as int] == order_by@[i as int].deep_view());
            assert(out.deep_view() =~= wanted.take(i + 1));
        }
        i += 1;
    }
    proof {
        assert(wanted.take(i as int) =~= wanted);
    }
    out
}

/// What is projected of joined rows, with the values to sort it by.
pub open spec fn keyed_row(
    projection: Seq<ColumnRef>,
    order_by: Seq<OrderModel>,
) -> spec_fn(StateModel) -> Result<KeyedModel, ErrorModel> {
    |state: StateModel|
        match projection::cells(state, projection, "projection references unknown table "@) {
            Err(e) => Err(e),
            Ok(row) => match projection::cells(
                state,
                sort_columns(order_by),
                "ORDER BY references unknown table "@,
            ) {
                Err(e) => Err(e),
                Ok(keys) => Ok((keys, row)),
            },
        }
}

/// What is projected of joined rows, with the values to sort it by.
pub fn build_sorted_projection_rows(
    partial_results: &JoinedRowStates,
    projection: &Vec<QualifiedColumn>,
    order_by: &Vec<OrderBy>,
) -> (r: Result<Vec<KeyedRow>, EngineError>)
    ensures
        plain::outcome(r) == plain::collected(
            partial_results.deep_view(),
            keyed_row(projection.deep_view(), order_by.deep_view()),
        ),
{
    let ghost all = partial_results.deep_view();
    let ghost f = keyed_row(projection.deep_view(), order_by.deep_view());
    let columns = columns_sorted_by(order_by);
    let mut keyed: Vec<KeyedRow> = no_items();
    let mut i: usize = 0;
    while i < partial_results.len()
        invariant
            i <= partial_results.len(),
            all == partial_results.deep_view(),
            f == keyed_row(projection.deep_view(), order_by.deep_view()),
            columns.deep_view() == sort_columns(order_by.deep_view()),
            plain::collected(all.take(i as int), f) == Ok::<Seq<KeyedModel>, ErrorModel>(
                keyed.deep_view(),
            ),
        decreases partial_results.len() - i,
    {
        let state = &partial_results[i];
        proof {
            plain::lemma_collected_step(all, f, i as int);
            assert(all[i as int] == state.deep_view());
        }
        let row = match read_cells(state, projection, "projection references unknown table ") {
            Ok(row) => row,
            Err(e) => {
                return Err(e);
            },
        };
        let keys = match read_cells(state, &columns, "ORDER BY references unknown table ") {
            Ok(keys) => keys,
            Err(e) => {
                return Err(e);
            },
        };
        push_back(&mut keyed, (keys, row));
        i += 1;
    }
    proof {
        assert(all.take(i as int) =~= all);
    }
    Ok(keyed)
}

} // verus!
