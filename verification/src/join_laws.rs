//! Where the rows of joined rows come from.
use vstd::prelude::*;
use crate::join_builder::{self, RowsModel};
use crate::operators::nested_loop_join;
use crate::predicate::StateModel;
use crate::query::{ColumnRef, JoinKind, JoinModel, JoinOnModel};
use crate::select_pipeline;
use crate::store::{RowModel, Trees};

verus! {

/// Every row in joined rows is one of its table.
pub open spec fn drawn(state: StateModel, rows: RowsModel) -> bool {
    forall|t: Seq<char>|
        state.contains_key(t) && (#[trigger] state[t]) is Some ==> join_builder::rows_in(
            rows,
            t,
        ).contains(state[t]->0)
}

/// Every row in all joined rows is one of its table.
pub open spec fn all_drawn(states: Seq<StateModel>, rows: RowsModel) -> bool {
    forall|i: int| 0 <= i < states.len() ==> drawn(#[trigger] states[i], rows)
}

/// The rows of a list are rows of a table.
pub open spec fn rows_from(list: Seq<RowModel>, table: Seq<char>, rows: RowsModel) -> bool {
    forall|i: int|
        0 <= i < list.len() ==> join_builder::rows_in(rows, table).contains(#[trigger] list[i])
}

proof fn lemma_drawn_insert(
    state: StateModel,
    table: Seq<char>,
    row: Option<RowModel>,
    rows: RowsModel,
)
    requires
        drawn(state, rows),
        row is Some ==> join_builder::rows_in(rows, table).contains(row->0),
    ensures
        drawn(state.insert(table, row), rows),
{
    let next = state.insert(table, row);
    assert forall|t: Seq<char>|
        next.contains_key(t) && (#[trigger] next[t]) is Some implies join_builder::rows_in(
        rows,
        t,
    ).contains(next[t]->0) by {
        if t != table {
            assert(state[t] is Some);
        }
    }
}

proof fn lemma_drawn_push(states: Seq<StateModel>, state: StateModel, rows: RowsModel)
    requires
        all_drawn(states, rows),
        drawn(state, rows),
    ensures
        all_drawn(states.push(state), rows),
{
}

proof fn lemma_drawn_concat(a: Seq<StateModel>, b: Seq<StateModel>, rows: RowsModel)
    requires
        all_drawn(a, rows),
        all_drawn(b, rows),
    ensures
        all_drawn(a + b, rows),
{
    let both = a + b;
    assert forall|i: int| 0 <= i < both.len() implies drawn(#[trigger] both[i], rows) by {
        if i < a.len() {
            assert(both[i] == a[i]);
        } else {
            assert(both[i] == b[i - a.len()]);
        }
    }
}

proof fn lemma_shorter(states: Seq<StateModel>, rows: RowsModel)
    requires
        all_drawn(states, rows),
        states.len() > 0,
    ensures
        all_drawn(states.drop_last(), rows),
        drawn(states.last(), rows),
{
    let rest = states.drop_last();
    assert forall|i: int| 0 <= i < rest.len() implies drawn(#[trigger] rest[i], rows) by {
        assert(rest[i] == states[i]);
    }
    assert(drawn(states[states.len() - 1], rows));
}

proof fn lemma_shorter_list(list: Seq<RowModel>, table: Seq<char>, rows: RowsModel)
    requires
        rows_from(list, table, rows),
        list.len() > 0,
    ensures
        rows_from(list.drop_last(), table, rows),
        join_builder::rows_in(rows, table).contains(list.last()),
{
    let rest = list.drop_last();
    assert forall|i: int| 0 <= i < rest.len() implies join_builder::rows_in(rows, table).contains(
        #[trigger] rest[i],
    ) by {
        assert(rest[i] == list[i]);
    }
    assert(join_builder::rows_in(rows, table).contains(list[list.len() - 1]));
}

proof fn lemma_with_matches(
    state: StateModel,
    list: Seq<RowModel>,
    table: Seq<char>,
    left: ColumnRef,
    right: ColumnRef,
    rows: RowsModel,
)
    requires
        drawn(state, rows),
        rows_from(list, table, rows),
    ensures
        all_drawn(nested_loop_join::with_matches(state, list, table, left, right), rows),
    decreases list.len(),
{
    if list.len() > 0 {
        lemma_shorter_list(list, table, rows);
        lemma_with_matches(state, list.drop_last(), table, left, right, rows);
        lemma_drawn_insert(state, table, Some(list.last()), rows);
        lemma_drawn_push(
            nested_loop_join::with_matches(state, list.drop_last(), table, left, right),
            state.insert(table, Some(list.last())),
            rows,
        );
    }
}

proof fn lemma_inner_join(
    states: Seq<StateModel>,
    list: Seq<RowModel>,
    table: Seq<char>,
    left: ColumnRef,
    right: ColumnRef,
    rows: RowsModel,
)
    requires
        all_drawn(states, rows),
        rows_from(list, table, rows),
    ensures
        all_drawn(nested_loop_join::inner_join(states, list, table, left, right), rows),
    decreases states.len(),
{
    if states.len() > 0 {
        lemma_shorter(states, rows);
        lemma_inner_join(states.drop_last(), list, table, left, right, rows);
        lemma_with_matches(states.last(), list, table, left, right, rows);
        lemma_drawn_concat(
            nested_loop_join::inner_join(states.drop_last(), list, table, left, right),
            nested_loop_join::with_matches(states.last(), list, table, left, right),
            rows,
        );
    }
}

proof fn lemma_left_join(
    states: Seq<StateModel>,
    list: Seq<RowModel>,
    table: Seq<char>,
    left: ColumnRef,
    right: ColumnRef,
    rows: RowsModel,
)
    requires
        all_drawn(states, rows),
        rows_from(list, table, rows),
    ensures
        all_drawn(nested_loop_join::left_join(states, list, table, left, right), rows),
    decreases states.len(),
{
    if states.len() > 0 {
        lemma_shorter(states, rows);
        lemma_left_join(states.drop_last(), list, table, left, right, rows);
        lemma_with_matches(states.last(), list, table, left, right, rows);
        lemma_drawn_insert(states.last(), table, None, rows);
        lemma_drawn_concat(
            nested_loop_join::left_join(states.drop_last(), list, table, left, right),
            nested_loop_join::with_matches_or_none(states.last(), list, table, left, right),
            rows,
        );
    }
}

proof fn lemma_states_with(
    states: Seq<StateModel>,
    row: RowModel,
    table: Seq<char>,
    left: ColumnRef,
    right: ColumnRef,
    rows: RowsModel,
)
    requires
        all_drawn(states, rows),
        join_builder::rows_in(rows, table).contains(row),
    ensures
        all_drawn(nested_loop_join::states_with(states, row, table, left, right), rows),
    decreases states.len(),
{
    if states.len() > 0 {
        lemma_shorter(states, rows);
        lemma_states_with(states.drop_last(), row, table, left, right, rows);
        lemma_drawn_insert(states.last(), table, Some(row), rows);
        lemma_drawn_push(
            nested_loop_join::states_with(states.drop_last(), row, table, left, right),
            states.last().insert(table, Some(row)),
            rows,
        );
    }
}

proof fn lemma_right_join(
    states: Seq<StateModel>,
    list: Seq<RowModel>,
    table: Seq<char>,
    left: ColumnRef,
    right: ColumnRef,
    template: StateModel,
    rows: RowsModel,
)
    requires
        all_drawn(states, rows),
        drawn(template, rows),
        rows_from(list, table, rows),
    ensures
        all_drawn(
            nested_loop_join::right_join(states, list, table, left, right, template),
            rows,
        ),
    decreases list.len(),
{
    if list.len() > 0 {
        lemma_shorter_list(list, table, rows);
        lemma_right_join(states, list.drop_last(), table, left, right, template, rows);
        lemma_states_with(states, list.last(), table, left, right, rows);
        lemma_drawn_insert(template, table, Some(list.last()), rows);
        lemma_drawn_concat(
            nested_loop_join::right_join(states, list.drop_last(), table, left, right, template),
            nested_loop_join::states_with_or_alone(
                states,
                list.last(),
                table,
                left,
                right,
                template,
            ),
            rows,
        );
    }
}

proof fn lemma_rows_alone(
    states: Seq<StateModel>,
    list: Seq<RowModel>,
    table: Seq<char>,
    left: ColumnRef,
    right: ColumnRef,
    template: StateModel,
    rows: RowsModel,
)
    requires
        drawn(template, rows),
        rows_from(list, table, rows),
    ensures
        all_drawn(
            nested_loop_join::rows_alone(states, list, table, left, right, template),
            rows,
        ),
    decreases list.len(),
{
    if list.len() > 0 {
        lemma_shorter_list(list, table, rows);
        lemma_rows_alone(states, list.drop_last(), table, left, right, template, rows);
        lemma_drawn_insert(template, table, Some(list.last()), rows);
        lemma_drawn_push(
            nested_loop_join::rows_alone(states, list.drop_last(), table, left, right, template),
            template.insert(table, Some(list.last())),
            rows,
        );
    }
}

/// Law: a join makes joined rows of rows of the tables alone.
pub proof fn law_join_draws_rows(
    join: JoinModel,
    rows: RowsModel,
    template: StateModel,
    states: Seq<StateModel>,
)
    requires
        all_drawn(states, rows),
        drawn(template, rows),
    ensures
        all_drawn(join_builder::join_applied(join, rows, template, states), rows),
{
    let table = join.right_table;
    let list = join_builder::rows_in(rows, table);
    assert(rows_from(list, table, rows));
    match join.on {
        JoinOnModel::ColumnEq { left, right } => match join.kind {
            JoinKind::Inner => {
                lemma_inner_join(states, list, table, left, right, rows);
            },
            JoinKind::Left => {
                lemma_left_join(states, list, table, left, right, rows);
            },
            JoinKind::Right => {
                lemma_right_join(states, list, table, left, right, template, rows);
            },
            JoinKind::Full => {
                lemma_left_join(states, list, table, left, right, rows);
                lemma_rows_alone(states, list, table, left, right, template, rows);
                lemma_drawn_concat(
                    nested_loop_join::left_join(states, list, table, left, right),
                    nested_loop_join::rows_alone(states, list, table, left, right, template),
                    rows,
                );
            },
        },
    }
}

proof fn lemma_joins_applied(
    joins: Seq<JoinModel>,
    rows: RowsModel,
    template: StateModel,
    states: Seq<StateModel>,
)
    requires
        all_drawn(states, rows),
        drawn(template, rows),
    ensures
        all_drawn(select_pipeline::joins_applied(joins, rows, template, states), rows),
    decreases joins.len(),
{
    if joins.len() > 0 {
        law_join_draws_rows(joins[0], rows, template, states);
        lemma_joins_applied(
            joins.drop_first(),
            rows,
            template,
            join_builder::join_applied(joins[0], rows, template, states),
        );
    }
}

/// Joins up to a limit draw their rows from the tables.
pub proof fn lemma_joined_within_limit(
    joins: Seq<JoinModel>,
    rows: RowsModel,
    template: StateModel,
    states: Seq<StateModel>,
)
    requires
        all_drawn(states, rows),
        drawn(template, rows),
    ensures
        join_builder::joined_within_limit(joins, rows, template, states) matches Ok(joined)
            ==> all_drawn(joined, rows),
    decreases joins.len(),
{
    if joins.len() > 0 {
        law_join_draws_rows(joins[0], rows, template, states);
        lemma_joined_within_limit(
            joins.drop_first(),
            rows,
            template,
            join_builder::join_applied(joins[0], rows, template, states),
        );
    }
}

proof fn lemma_spread(state: StateModel, table: Seq<char>, list: Seq<RowModel>, rows: RowsModel)
    requires
        drawn(state, rows),
        rows_from(list, table, rows),
    ensures
        all_drawn(join_builder::spread(state, table, list), rows),
{
    let all = join_builder::spread(state, table, list);
    assert forall|i: int| 0 <= i < all.len() implies drawn(#[trigger] all[i], rows) by {
        lemma_drawn_insert(state, table, Some(list[i]), rows);
    }
}

proof fn lemma_spread_all(
    states: Seq<StateModel>,
    table: Seq<char>,
    list: Seq<RowModel>,
    rows: RowsModel,
)
    requires
        all_drawn(states, rows),
        rows_from(list, table, rows),
    ensures
        all_drawn(join_builder::spread_all(states, table, list), rows),
    decreases states.len(),
{
    if states.len() > 0 {
        lemma_shorter(states, rows);
        lemma_spread_all(states.drop_last(), table, list, rows);
        lemma_spread(states.last(), table, list, rows);
        lemma_drawn_concat(
            join_builder::spread_all(states.drop_last(), table, list),
            join_builder::spread(states.last(), table, list),
            rows,
        );
    }
}

/// Further tables add rows of theirs alone.
pub proof fn lemma_expanded(states: Seq<StateModel>, from_tables: Seq<Seq<char>>, rows: RowsModel)
    requires
        all_drawn(states, rows),
    ensures
        join_builder::expanded(states, from_tables, rows) matches Ok(more) ==> all_drawn(
            more,
            rows,
        ),
    decreases from_tables.len(),
{
    if from_tables.len() > 0 {
        let source = join_builder::rows_in(rows, from_tables[0]);
        assert(rows_from(source, from_tables[0], rows));
        lemma_spread_all(states, from_tables[0], source, rows);
        lemma_expanded(
            join_builder::spread_all(states, from_tables[0], source),
            from_tables.drop_first(),
            rows,
        );
    }
}

/// The states of the base table hold its rows alone.
pub proof fn lemma_seeded(base: Seq<char>, rows: RowsModel, tables: Seq<Seq<char>>)
    ensures
        drawn(join_builder::template_of(tables), rows),
        all_drawn(
            join_builder::seeded(base, rows, join_builder::template_of(tables)),
            rows,
        ),
{
    let template = join_builder::template_of(tables);
    let source = join_builder::rows_in(rows, base);
    assert(rows_from(source, base, rows));
    lemma_spread(template, base, source, rows);
}

/// Law: the joined rows of a selection are made of rows of its tables alone.
pub proof fn law_selection_draws_rows(trees: Trees, base: Seq<char>, joins: Seq<JoinModel>)
    ensures
        all_drawn(
            select_pipeline::materialized(trees, base, joins),
            join_builder::rows_by_table(
                trees,
                join_builder::tables_read(base, Seq::empty(), joins),
            ),
        ),
{
    let tables = join_builder::tables_read(base, Seq::empty(), joins);
    let rows = join_builder::rows_by_table(trees, tables);
    let template = join_builder::template_of(tables);
    lemma_seeded(base, rows, tables);
    lemma_joins_applied(joins, rows, template, join_builder::seeded(base, rows, template));
}

} // verus!
