//! What rows that a condition hides cannot do: they leave no trace in the result
//! of a selection, nor do changes of them.
use vstd::prelude::*;
use crate::access_control;
use crate::join_builder::{self, RowsModel};
use crate::join_laws;
use crate::operators::nested_loop_join;
use crate::predicate::StateModel;
use crate::query::{ColumnRef, JoinKind, JoinModel, JoinOnModel, PredicateModel};
use crate::select_pipeline;
use crate::store::RowModel;
use crate::store_helpers::{kept, lemma_kept_all, lemma_kept_concat, lemma_kept_none};
use crate::subscriptions;

verus! {

/// Conditions on the rows of tables, each of which hides the rows that do not
/// meet it.
pub type Hiding = Map<Seq<char>, PredicateModel>;

/// A row of a table is not hidden.
pub open spec fn row_shown(hiding: Hiding, table: Seq<char>) -> spec_fn(RowModel) -> bool {
    |row: RowModel|
        hiding.contains_key(table) ==> access_control::row_meets(hiding[table], table, row)
}

/// The row of a table in joined rows is hidden.
pub open spec fn is_hidden_in(hiding: Hiding, state: StateModel, table: Seq<char>) -> bool {
    hiding.contains_key(table) && state.contains_key(table) && state[table] is Some
        && !access_control::row_meets(hiding[table], table, state[table]->0)
}

/// None of the joined rows is hidden.
pub open spec fn shown(hiding: Hiding) -> spec_fn(StateModel) -> bool {
    |state: StateModel| forall|t: Seq<char>| !#[trigger] is_hidden_in(hiding, state, t)
}

/// A table has no row in joined rows that may be hidden.
pub open spec fn is_free(hiding: Hiding, state: StateModel, table: Seq<char>) -> bool {
    hiding.contains_key(table) && state.contains_key(table) ==> state[table] is None
}

/// All joined rows have no row of a table that may be hidden.
pub open spec fn all_free(hiding: Hiding, states: Seq<StateModel>, table: Seq<char>) -> bool {
    forall|i: int| 0 <= i < states.len() ==> is_free(hiding, #[trigger] states[i], table)
}

/// Joining in a row hides exactly what was hidden, and the row.
proof fn lemma_insert(hiding: Hiding, state: StateModel, table: Seq<char>, row: RowModel)
    requires
        is_free(hiding, state, table),
    ensures
        shown(hiding)(state.insert(table, Some(row))) == (shown(hiding)(state) && row_shown(
            hiding,
            table,
        )(row)),
{
    let next = state.insert(table, Some(row));
    assert forall|t: Seq<char>| t != table implies #[trigger] is_hidden_in(hiding, next, t)
        == is_hidden_in(hiding, state, t) by {}
    assert(is_hidden_in(hiding, next, table) == !row_shown(hiding, table)(row));
    assert(!is_hidden_in(hiding, state, table));
    if shown(hiding)(state) && row_shown(hiding, table)(row) {
        assert forall|t: Seq<char>| !#[trigger] is_hidden_in(hiding, next, t) by {
            if t != table {
                assert(!is_hidden_in(hiding, state, t));
            }
        }
    }
    if shown(hiding)(next) {
        assert forall|t: Seq<char>| !#[trigger] is_hidden_in(hiding, state, t) by {
            if t != table {
                assert(!is_hidden_in(hiding, next, t));
            }
        }
    }
}

proof fn lemma_insert_none(hiding: Hiding, state: StateModel, table: Seq<char>)
    requires
        is_free(hiding, state, table),
    ensures
        shown(hiding)(state.insert(table, None)) == shown(hiding)(state),
{
    let next = state.insert(table, None::<RowModel>);
    assert forall|t: Seq<char>| #[trigger] is_hidden_in(hiding, next, t) == is_hidden_in(
        hiding,
        state,
        t,
    ) by {}
    if shown(hiding)(next) {
        assert forall|t: Seq<char>| !#[trigger] is_hidden_in(hiding, state, t) by {
            assert(!is_hidden_in(hiding, next, t));
        }
    }
}

proof fn lemma_with_matches(
    hiding: Hiding,
    state: StateModel,
    rows: Seq<RowModel>,
    table: Seq<char>,
    left: ColumnRef,
    right: ColumnRef,
)
    requires
        is_free(hiding, state, table),
    ensures
        kept(
            nested_loop_join::with_matches(state, rows, table, left, right),
            shown(hiding),
        ) == (if shown(hiding)(state) {
            nested_loop_join::with_matches(
                state,
                kept(rows, row_shown(hiding, table)),
                table,
                left,
                right,
            )
        } else {
            Seq::empty()
        }),
    decreases rows.len(),
{
    if rows.len() > 0 {
        let rest = rows.drop_last();
        let row = rows.last();
        lemma_with_matches(hiding, state, rest, table, left, right);
        lemma_insert(hiding, state, table, row);
        let before = nested_loop_join::with_matches(state, rest, table, left, right);
        let next = state.insert(table, Some(row));
        assert(before.push(next).drop_last() =~= before);
        let seen = kept(rest, row_shown(hiding, table));
        assert(seen.push(row).drop_last() =~= seen);
    }
}

proof fn lemma_inner(
    hiding: Hiding,
    states: Seq<StateModel>,
    rows: Seq<RowModel>,
    table: Seq<char>,
    left: ColumnRef,
    right: ColumnRef,
)
    requires
        all_free(hiding, states, table),
    ensures
        kept(nested_loop_join::inner_join(states, rows, table, left, right), shown(hiding))
            == nested_loop_join::inner_join(
            kept(states, shown(hiding)),
            kept(rows, row_shown(hiding, table)),
            table,
            left,
            right,
        ),
    decreases states.len(),
{
    if states.len() > 0 {
        let rest = states.drop_last();
        let last = states.last();
        assert(states[states.len() - 1] == last);
        assert forall|i: int| 0 <= i < rest.len() implies is_free(
            hiding,
            #[trigger] rest[i],
            table,
        ) by {
            assert(rest[i] == states[i]);
        }
        lemma_inner(hiding, rest, rows, table, left, right);
        lemma_with_matches(hiding, last, rows, table, left, right);
        lemma_kept_concat(
            nested_loop_join::inner_join(rest, rows, table, left, right),
            nested_loop_join::with_matches(last, rows, table, left, right),
            shown(hiding),
        );
        let before = kept(rest, shown(hiding));
        assert(before.push(last).drop_last() =~= before);
        let seen = kept(rows, row_shown(hiding, table));
        assert(nested_loop_join::inner_join(before, seen, table, left, right) + Seq::empty()
            =~= nested_loop_join::inner_join(before, seen, table, left, right));
    }
}

proof fn lemma_matches_or_none(
    hiding: Hiding,
    state: StateModel,
    rows: Seq<RowModel>,
    table: Seq<char>,
    left: ColumnRef,
    right: ColumnRef,
)
    requires
        !hiding.contains_key(table),
    ensures
        kept(
            nested_loop_join::with_matches_or_none(state, rows, table, left, right),
            shown(hiding),
        ) == (if shown(hiding)(state) {
            nested_loop_join::with_matches_or_none(state, rows, table, left, right)
        } else {
            Seq::empty()
        }),
{
    let matched = nested_loop_join::with_matches(state, rows, table, left, right);
    lemma_with_matches(hiding, state, rows, table, left, right);
    assert forall|i: int| 0 <= i < rows.len() implies row_shown(hiding, table)(
        #[trigger] rows[i],
    ) by {}
    lemma_kept_all(rows, row_shown(hiding, table));
    lemma_insert_none(hiding, state, table);
    if matched.len() == 0 {
        let alone = seq![state.insert(table, None::<RowModel>)];
        assert(nested_loop_join::with_matches_or_none(state, rows, table, left, right) == alone);
        if shown(hiding)(state) {
            lemma_kept_all(alone, shown(hiding));
        } else {
            lemma_kept_none(alone, shown(hiding));
        }
    }
}

proof fn lemma_left(
    hiding: Hiding,
    states: Seq<StateModel>,
    rows: Seq<RowModel>,
    table: Seq<char>,
    left: ColumnRef,
    right: ColumnRef,
)
    requires
        !hiding.contains_key(table),
    ensures
        kept(nested_loop_join::left_join(states, rows, table, left, right), shown(hiding))
            == nested_loop_join::left_join(
            kept(states, shown(hiding)),
            rows,
            table,
            left,
            right,
        ),
    decreases states.len(),
{
    if states.len() > 0 {
        let rest = states.drop_last();
        let last = states.last();
        lemma_left(hiding, rest, rows, table, left, right);
        lemma_matches_or_none(hiding, last, rows, table, left, right);
        lemma_kept_concat(
            nested_loop_join::left_join(rest, rows, table, left, right),
            nested_loop_join::with_matches_or_none(last, rows, table, left, right),
            shown(hiding),
        );
        let before = kept(rest, shown(hiding));
        assert(before.push(last).drop_last() =~= before);
        assert(nested_loop_join::left_join(before, rows, table, left, right) + Seq::empty()
            =~= nested_loop_join::left_join(before, rows, table, left, right));
    }
}

/// The states that a row joins are hidden exactly if the row is.
proof fn lemma_states_with(
    hiding: Hiding,
    states: Seq<StateModel>,
    row: RowModel,
    table: Seq<char>,
    left: ColumnRef,
    right: ColumnRef,
)
    requires
        all_free(hiding, states, table),
        forall|i: int| 0 <= i < states.len() ==> shown(hiding)(#[trigger] states[i]),
    ensures
        ({
            let joined = nested_loop_join::states_with(states, row, table, left, right);
            forall|i: int|
                0 <= i < joined.len() ==> shown(hiding)(#[trigger] joined[i]) == row_shown(
                    hiding,
                    table,
                )(row)
        }),
    decreases states.len(),
{
    if states.len() > 0 {
        let rest = states.drop_last();
        let last = states.last();
        assert(states[states.len() - 1] == last);
        assert forall|i: int| 0 <= i < rest.len() implies is_free(hiding, #[trigger] rest[i], table)
            && shown(hiding)(rest[i]) by {
            assert(rest[i] == states[i]);
        }
        lemma_states_with(hiding, rest, row, table, left, right);
        lemma_insert(hiding, last, table, row);
        let before = nested_loop_join::states_with(rest, row, table, left, right);
        let joined = nested_loop_join::states_with(states, row, table, left, right);
        assert forall|i: int| 0 <= i < joined.len() implies shown(hiding)(#[trigger] joined[i])
            == row_shown(hiding, table)(row) by {
            if i < before.len() {
                assert(joined[i] == before[i]);
            }
        }
    }
}

proof fn lemma_right(
    hiding: Hiding,
    states: Seq<StateModel>,
    rows: Seq<RowModel>,
    table: Seq<char>,
    left: ColumnRef,
    right: ColumnRef,
    template: StateModel,
)
    requires
        all_free(hiding, states, table),
        forall|i: int| 0 <= i < states.len() ==> shown(hiding)(#[trigger] states[i]),
        is_free(hiding, template, table),
        shown(hiding)(template),
    ensures
        kept(
            nested_loop_join::right_join(states, rows, table, left, right, template),
            shown(hiding),
        ) == nested_loop_join::right_join(
            states,
            kept(rows, row_shown(hiding, table)),
            table,
            left,
            right,
            template,
        ),
    decreases rows.len(),
{
    if rows.len() > 0 {
        let rest = rows.drop_last();
        let row = rows.last();
        lemma_right(hiding, states, rest, table, left, right, template);
        lemma_states_with(hiding, states, row, table, left, right);
        lemma_insert(hiding, template, table, row);
        let added = nested_loop_join::states_with_or_alone(
            states,
            row,
            table,
            left,
            right,
            template,
        );
        let before = nested_loop_join::right_join(states, rest, table, left, right, template);
        lemma_kept_concat(before, added, shown(hiding));
        let seen = kept(rest, row_shown(hiding, table));
        assert(seen.push(row).drop_last() =~= seen);
        let met = nested_loop_join::right_join(states, seen, table, left, right, template);
        if row_shown(hiding, table)(row) {
            lemma_kept_all(added, shown(hiding));
        } else {
            lemma_kept_none(added, shown(hiding));
            assert(met + Seq::empty() =~= met);
        }
    }
}

/// Two stores hold the same rows that are not hidden.
pub open spec fn same_shown(hiding: Hiding, a: RowsModel, b: RowsModel) -> bool {
    forall|t: Seq<char>| #[trigger]
        kept(join_builder::rows_in(a, t), row_shown(hiding, t)) == kept(
            join_builder::rows_in(b, t),
            row_shown(hiding, t),
        )
}

/// The rows of some tables.
pub open spec fn of_tables(rows: RowsModel, drawn: Set<Seq<char>>) -> RowsModel {
    Map::new(
        |t: Seq<char>| rows.contains_key(t) && drawn.contains(t),
        |t: Seq<char>| rows[t],
    )
}

/// Rows of tables that were not joined in are free.
proof fn lemma_free(
    hiding: Hiding,
    states: Seq<StateModel>,
    rows: RowsModel,
    drawn: Set<Seq<char>>,
    table: Seq<char>,
)
    requires
        join_laws::all_drawn(states, of_tables(rows, drawn)),
        hiding.contains_key(table) ==> !drawn.contains(table),
    ensures
        all_free(hiding, states, table),
{
    assert forall|i: int| 0 <= i < states.len() implies is_free(
        hiding,
        #[trigger] states[i],
        table,
    ) by {
        let state = states[i];
        assert(join_laws::drawn(state, of_tables(rows, drawn)));
        if hiding.contains_key(table) && state.contains_key(table) && state[table] is Some {
            assert(join_builder::rows_in(of_tables(rows, drawn), table).contains(
                state[table]->0,
            ));
            assert(false);
        }
    }
}

/// Where no table with hidden rows was joined in, nothing is hidden.
proof fn lemma_nothing_hidden(
    hiding: Hiding,
    states: Seq<StateModel>,
    rows: RowsModel,
    drawn: Set<Seq<char>>,
)
    requires
        join_laws::all_drawn(states, of_tables(rows, drawn)),
        forall|t: Seq<char>| #[trigger] hiding.contains_key(t) ==> !drawn.contains(t),
    ensures
        forall|i: int| 0 <= i < states.len() ==> shown(hiding)(#[trigger] states[i]),
        kept(states, shown(hiding)) == states,
{
    assert forall|i: int| 0 <= i < states.len() implies shown(hiding)(#[trigger] states[i]) by {
        assert forall|t: Seq<char>| !#[trigger] is_hidden_in(hiding, states[i], t) by {
            if hiding.contains_key(t) {
                lemma_free(hiding, states, rows, drawn, t);
                assert(is_free(hiding, states[i], t));
            }
        }
    }
    lemma_kept_all(states, shown(hiding));
}

/// Drawing from more tables.
proof fn lemma_drawn_more(
    states: Seq<StateModel>,
    rows: RowsModel,
    drawn: Set<Seq<char>>,
    table: Seq<char>,
)
    requires
        join_laws::all_drawn(states, of_tables(rows, drawn)),
    ensures
        join_laws::all_drawn(states, of_tables(rows, drawn.insert(table))),
{
    let less = of_tables(rows, drawn);
    let more = of_tables(rows, drawn.insert(table));
    assert forall|i: int| 0 <= i < states.len() implies join_laws::drawn(
        #[trigger] states[i],
        more,
    ) by {
        assert(join_laws::drawn(states[i], less));
        assert forall|t: Seq<char>|
            states[i].contains_key(t) && (#[trigger] states[i][t]) is Some implies join_builder::rows_in(
            more,
            t,
        ).contains(states[i][t]->0) by {
            assert(join_builder::rows_in(less, t).contains(states[i][t]->0));
        }
    }
}

/// No table has a row in joined rows.
pub open spec fn is_blank(template: StateModel) -> bool {
    forall|t: Seq<char>| template.contains_key(t) ==> (#[trigger] template[t]) is None
}

/// One join of the rows of two stores that hold the same rows that are not
/// hidden.
proof fn lemma_join(
    hiding: Hiding,
    join: JoinModel,
    a: RowsModel,
    b: RowsModel,
    template: StateModel,
    x: Seq<StateModel>,
    y: Seq<StateModel>,
    drawn: Set<Seq<char>>,
)
    requires
        same_shown(hiding, a, b),
        is_blank(template),
        forall|t: Seq<char>| #[trigger]
            hiding.contains_key(t) ==> subscriptions::is_required(
                drawn.contains(t),
                seq![join],
                t,
            ),
        join_laws::all_drawn(x, of_tables(a, drawn)),
        join_laws::all_drawn(y, of_tables(b, drawn)),
        kept(x, shown(hiding)) == kept(y, shown(hiding)),
    ensures
        ({
            let next_x = join_builder::join_applied(join, a, template, x);
            let next_y = join_builder::join_applied(join, b, template, y);
            &&& kept(next_x, shown(hiding)) == kept(next_y, shown(hiding))
            &&& join_laws::all_drawn(next_x, of_tables(a, drawn.insert(join.right_table)))
            &&& join_laws::all_drawn(next_y, of_tables(b, drawn.insert(join.right_table)))
        }),
{
    let table = join.right_table;
    let all_a = join_builder::rows_in(a, table);
    let all_b = join_builder::rows_in(b, table);
    assert(kept(all_a, row_shown(hiding, table)) == kept(all_b, row_shown(hiding, table)));
    lemma_drawn_join(join, a, template, x, drawn);
    lemma_drawn_join(join, b, template, y, drawn);
    let JoinOnModel::ColumnEq { left, right } = join.on;
    assert forall|t: Seq<char>| #[trigger] hiding.contains_key(t) implies (match join.kind {
        JoinKind::Inner => !(drawn.contains(t) && table == t),
        JoinKind::Left => table != t,
        JoinKind::Right => !drawn.contains(t),
        JoinKind::Full => !drawn.contains(t) && table != t,
    }) by {
        assert(subscriptions::is_required(drawn.contains(t), seq![join], t));
    }
    if !hiding.contains_key(table) {
        lemma_kept_all(all_a, row_shown(hiding, table));
        lemma_kept_all(all_b, row_shown(hiding, table));
    }
    match join.kind {
        JoinKind::Inner => {
            lemma_free(hiding, x, a, drawn, table);
            lemma_free(hiding, y, b, drawn, table);
            lemma_inner(hiding, x, all_a, table, left, right);
            lemma_inner(hiding, y, all_b, table, left, right);
        },
        JoinKind::Left => {
            assert(!hiding.contains_key(table));
            lemma_left(hiding, x, all_a, table, left, right);
            lemma_left(hiding, y, all_b, table, left, right);
        },
        JoinKind::Right => {
            lemma_nothing_hidden(hiding, x, a, drawn);
            lemma_nothing_hidden(hiding, y, b, drawn);
            lemma_free(hiding, x, a, drawn, table);
            assert(shown(hiding)(template)) by {
                assert forall|t: Seq<char>| !#[trigger] is_hidden_in(hiding, template, t) by {
                    if template.contains_key(t) {
                        assert(template[t] is None);
                    }
                }
            }
            assert(is_free(hiding, template, table)) by {
                if template.contains_key(table) {
                    assert(template[table] is None);
                }
            }
            lemma_right(hiding, x, all_a, table, left, right, template);
            lemma_right(hiding, x, all_b, table, left, right, template);
        },
        JoinKind::Full => {
            lemma_nothing_hidden(hiding, x, a, drawn);
            lemma_nothing_hidden(hiding, y, b, drawn);
            assert(!hiding.contains_key(table));
        },
    }
}

proof fn lemma_drawn_join(
    join: JoinModel,
    rows: RowsModel,
    template: StateModel,
    states: Seq<StateModel>,
    drawn: Set<Seq<char>>,
)
    requires
        is_blank(template),
        join_laws::all_drawn(states, of_tables(rows, drawn)),
    ensures
        join_laws::all_drawn(
            join_builder::join_applied(join, rows, template, states),
            of_tables(rows, drawn.insert(join.right_table)),
        ),
{
    let more = of_tables(rows, drawn.insert(join.right_table));
    lemma_drawn_more(states, rows, drawn, join.right_table);
    assert(join_laws::drawn(template, more));
    join_laws::law_join_draws_rows(join, more, template, states);
    assert(join_builder::rows_in(more, join.right_table) == join_builder::rows_in(
        rows,
        join.right_table,
    ));
    assert(join_builder::join_applied(join, more, template, states) == join_builder::join_applied(
        join,
        rows,
        template,
        states,
    ));
}

proof fn lemma_joins(
    hiding: Hiding,
    joins: Seq<JoinModel>,
    a: RowsModel,
    b: RowsModel,
    template: StateModel,
    x: Seq<StateModel>,
    y: Seq<StateModel>,
    drawn: Set<Seq<char>>,
)
    requires
        same_shown(hiding, a, b),
        is_blank(template),
        forall|t: Seq<char>| #[trigger]
            hiding.contains_key(t) ==> subscriptions::is_required(drawn.contains(t), joins, t),
        join_laws::all_drawn(x, of_tables(a, drawn)),
        join_laws::all_drawn(y, of_tables(b, drawn)),
        kept(x, shown(hiding)) == kept(y, shown(hiding)),
    ensures
        kept(select_pipeline::joins_applied(joins, a, template, x), shown(hiding)) == kept(
            select_pipeline::joins_applied(joins, b, template, y),
            shown(hiding),
        ),
    decreases joins.len(),
{
    if joins.len() > 0 {
        let join = joins[0];
        let more = drawn.insert(join.right_table);
        assert forall|t: Seq<char>| #[trigger]
            hiding.contains_key(t) implies subscriptions::is_required(
            drawn.contains(t),
            seq![join],
            t,
        ) && subscriptions::is_required(more.contains(t), joins.drop_first(), t) by {
            assert(subscriptions::is_required(drawn.contains(t), joins, t));
            assert(seq![join][0] == join);
            assert(seq![join].drop_first() =~= Seq::empty());
            assert(more.contains(t) == (drawn.contains(t) || join.right_table == t));
            reveal_with_fuel(subscriptions::is_required, 2);
        }
        lemma_join(hiding, join, a, b, template, x, y, drawn);
        lemma_joins(
            hiding,
            joins.drop_first(),
            a,
            b,
            template,
            join_builder::join_applied(join, a, template, x),
            join_builder::join_applied(join, b, template, y),
            more,
        );
    }
}

/// The states of the rows of a table that are not hidden.
proof fn lemma_spread(
    hiding: Hiding,
    template: StateModel,
    table: Seq<char>,
    rows: Seq<RowModel>,
)
    requires
        is_blank(template),
    ensures
        kept(join_builder::spread(template, table, rows), shown(hiding)) == join_builder::spread(
            template,
            table,
            kept(rows, row_shown(hiding, table)),
        ),
    decreases rows.len(),
{
    let all = join_builder::spread(template, table, rows);
    if rows.len() > 0 {
        let rest = rows.drop_last();
        let row = rows.last();
        lemma_spread(hiding, template, table, rest);
        assert(all.drop_last() =~= join_builder::spread(template, table, rest));
        assert(all.last() == template.insert(table, Some(row)));
        assert(is_free(hiding, template, table)) by {
            if template.contains_key(table) {
                assert(template[table] is None);
            }
        }
        assert(shown(hiding)(template)) by {
            assert forall|t: Seq<char>| !#[trigger] is_hidden_in(hiding, template, t) by {
                if template.contains_key(t) {
                    assert(template[t] is None);
                }
            }
        }
        lemma_insert(hiding, template, table, row);
        let seen = kept(rest, row_shown(hiding, table));
        assert(join_builder::spread(template, table, seen.push(row)) =~= join_builder::spread(
            template,
            table,
            seen,
        ).push(all.last()));
    } else {
        assert(join_builder::spread(template, table, kept(rows, row_shown(hiding, table)))
            =~= Seq::empty());
        assert(all =~= Seq::empty());
    }
}

/// Law: the joined rows of which nothing is hidden depend on the rows alone that
/// are not hidden, where all hidden ones are of tables that are joined in once
/// at most and never optional.
pub proof fn law_hidden_rows_leave_no_trace(
    hiding: Hiding,
    base: Seq<char>,
    joins: Seq<JoinModel>,
    a: RowsModel,
    b: RowsModel,
    template: StateModel,
)
    requires
        same_shown(hiding, a, b),
        is_blank(template),
        forall|t: Seq<char>| #[trigger]
            hiding.contains_key(t) ==> subscriptions::is_required(base == t, joins, t),
    ensures
        kept(
            select_pipeline::joins_applied(
                joins,
                a,
                template,
                join_builder::seeded(base, a, template),
            ),
            shown(hiding),
        ) == kept(
            select_pipeline::joins_applied(
                joins,
                b,
                template,
                join_builder::seeded(base, b, template),
            ),
            shown(hiding),
        ),
{
    let drawn = Set::<Seq<char>>::empty().insert(base);
    let x = join_builder::seeded(base, a, template);
    let y = join_builder::seeded(base, b, template);
    lemma_spread(hiding, template, base, join_builder::rows_in(a, base));
    lemma_spread(hiding, template, base, join_builder::rows_in(b, base));
    assert(kept(join_builder::rows_in(a, base), row_shown(hiding, base)) == kept(
        join_builder::rows_in(b, base),
        row_shown(hiding, base),
    ));
    lemma_seeded_drawn(base, a, template);
    lemma_seeded_drawn(base, b, template);
    assert forall|t: Seq<char>| #[trigger]
        hiding.contains_key(t) implies subscriptions::is_required(drawn.contains(t), joins, t) by {
        assert(drawn.contains(t) == (base == t));
    }
    lemma_joins(hiding, joins, a, b, template, x, y, drawn);
}

proof fn lemma_seeded_drawn(base: Seq<char>, rows: RowsModel, template: StateModel)
    requires
        is_blank(template),
    ensures
        join_laws::all_drawn(
            join_builder::seeded(base, rows, template),
            of_tables(rows, Set::<Seq<char>>::empty().insert(base)),
        ),
{
    let only = of_tables(rows, Set::<Seq<char>>::empty().insert(base));
    let states = join_builder::seeded(base, rows, template);
    let list = join_builder::rows_in(rows, base);
    assert forall|i: int| 0 <= i < states.len() implies join_laws::drawn(
        #[trigger] states[i],
        only,
    ) by {
        assert(states[i] == template.insert(base, Some(list[i])));
        assert forall|t: Seq<char>|
            states[i].contains_key(t) && (#[trigger] states[i][t]) is Some implies join_builder::rows_in(
            only,
            t,
        ).contains(states[i][t]->0) by {
            if t != base {
                assert(template[t] is None);
            } else {
                assert(join_builder::rows_in(only, base) == list);
                assert(list.contains(list[i]));
            }
        }
    }
}

} // verus!
