//! Joins by nested loops.
//!
//! The rows joined so far stand side by side in one state per combination; a
//! join adds a row of one more table to each state, or the note that there is
//! none.
use vstd::prelude::*;
use crate::plain::{no_items, push_back, Plain};
use crate::predicate::{self, JoinedRowState, RowContext, StateModel};
use crate::query::{ColumnRef, QualifiedColumn};
use crate::value::{EngineRow, ValueModel};

verus! {

/// Whether a row joins a state: both columns are there, and hold the same value.
pub open spec fn rows_match(
    state: StateModel,
    row: Seq<ValueModel>,
    left: ColumnRef,
    right: ColumnRef,
) -> bool {
    &&& predicate::column_value(state, left) is Some
    &&& right.column_index < row.len()
    &&& predicate::column_value(state, left)->0 == row[right.column_index as int]
}

/// `state` with each row that joins it, in the order of the rows.
pub open spec fn with_matches(
    state: StateModel,
    rows: Seq<Seq<ValueModel>>,
    table: Seq<char>,
    left: ColumnRef,
    right: ColumnRef,
) -> Seq<StateModel>
    decreases rows.len(),
{
    if rows.len() == 0 {
        Seq::empty()
    } else {
        let before = with_matches(state, rows.drop_last(), table, left, right);
        if rows_match(state, rows.last(), left, right) {
            before.push(state.insert(table, Some(rows.last())))
        } else {
            before
        }
    }
}

/// Each state that `row` joins, with the row, in the order of the states.
pub open spec fn states_with(
    states: Seq<StateModel>,
    row: Seq<ValueModel>,
    table: Seq<char>,
    left: ColumnRef,
    right: ColumnRef,
) -> Seq<StateModel>
    decreases states.len(),
{
    if states.len() == 0 {
        Seq::empty()
    } else {
        let before = states_with(states.drop_last(), row, table, left, right);
        if rows_match(states.last(), row, left, right) {
            before.push(states.last().insert(table, Some(row)))
        } else {
            before
        }
    }
}

/// The inner join: every state with every row that joins it.
pub open spec fn inner_join(
    states: Seq<StateModel>,
    rows: Seq<Seq<ValueModel>>,
    table: Seq<char>,
    left: ColumnRef,
    right: ColumnRef,
) -> Seq<StateModel>
    decreases states.len(),
{
    if states.len() == 0 {
        Seq::empty()
    } else {
        inner_join(states.drop_last(), rows, table, left, right) + with_matches(
            states.last(),
            rows,
            table,
            left,
            right,
        )
    }
}

/// A state with the rows that join it, or with the note that none does.
pub open spec fn with_matches_or_none(
    state: StateModel,
    rows: Seq<Seq<ValueModel>>,
    table: Seq<char>,
    left: ColumnRef,
    right: ColumnRef,
) -> Seq<StateModel> {
    let matched = with_matches(state, rows, table, left, right);
    if matched.len() == 0 {
        seq![state.insert(table, None)]
    } else {
        matched
    }
}

/// The left join: the inner join, and each state that no row joins.
pub open spec fn left_join(
    states: Seq<StateModel>,
    rows: Seq<Seq<ValueModel>>,
    table: Seq<char>,
    left: ColumnRef,
    right: ColumnRef,
) -> Seq<StateModel>
    decreases states.len(),
{
    if states.len() == 0 {
        Seq::empty()
    } else {
        left_join(states.drop_last(), rows, table, left, right) + with_matches_or_none(
            states.last(),
            rows,
            table,
            left,
            right,
        )
    }
}

/// A row with the states that it joins, or alone beside the template.
pub open spec fn states_with_or_alone(
    states: Seq<StateModel>,
    row: Seq<ValueModel>,
    table: Seq<char>,
    left: ColumnRef,
    right: ColumnRef,
    template: StateModel,
) -> Seq<StateModel> {
    let matched = states_with(states, row, table, left, right);
    if matched.len() == 0 {
        seq![template.insert(table, Some(row))]
    } else {
        matched
    }
}

/// The right join: row by row the states that it joins, and each row that
/// joins none.
pub open spec fn right_join(
    states: Seq<StateModel>,
    rows: Seq<Seq<ValueModel>>,
    table: Seq<char>,
    left: ColumnRef,
    right: ColumnRef,
    template: StateModel,
) -> Seq<StateModel>
    decreases rows.len(),
{
    if rows.len() == 0 {
        Seq::empty()
    } else {
        right_join(states, rows.drop_last(), table, left, right, template) + states_with_or_alone(
            states,
            rows.last(),
            table,
            left,
            right,
            template,
        )
    }
}

/// The rows that join no state, each beside the template.
pub open spec fn rows_alone(
    states: Seq<StateModel>,
    rows: Seq<Seq<ValueModel>>,
    table: Seq<char>,
    left: ColumnRef,
    right: ColumnRef,
    template: StateModel,
) -> Seq<StateModel>
    decreases rows.len(),
{
    if rows.len() == 0 {
        Seq::empty()
    } else {
        let before = rows_alone(states, rows.drop_last(), table, left, right, template);
        if exists|i: int|
            0 <= i < states.len() && rows_match(#[trigger] states[i], rows.last(), left, right) {
            before
        } else {
            before.push(template.insert(table, Some(rows.last())))
        }
    }
}

/// The full join: the left join, and the rows that join no state.
pub open spec fn full_join(
    states: Seq<StateModel>,
    rows: Seq<Seq<ValueModel>>,
    table: Seq<char>,
    left: ColumnRef,
    right: ColumnRef,
    template: StateModel,
) -> Seq<StateModel> {
    left_join(states, rows, table, left, right) + rows_alone(
        states,
        rows,
        table,
        left,
        right,
        template,
    )
}

/// Whether `row` joins `state`.
fn values_match(
    state: &JoinedRowState,
    row: &EngineRow,
    left: &QualifiedColumn,
    right: &QualifiedColumn,
) -> (r: bool)
    ensures
        r == rows_match(
            state.deep_view(),
            row.deep_view(),
            left.deep_view(),
            right.deep_view(),
        ),
{
    let context = RowContext::Joined(state);
    match context.value_of(left) {
        Some(v) => right.column_index < row.len() && v.same(&row[right.column_index]),
        None => false,
    }
}

/// Adds `state` with a row of `table`.
fn push_joined(
    results: &mut Vec<JoinedRowState>,
    state: &JoinedRowState,
    table: &str,
    row: &EngineRow,
)
    ensures
        final(results).deep_view() == old(results).deep_view().push(
            state.deep_view().insert(table@, Some(row.deep_view())),
        ),
{
    let mut joined = state.duplicate();
    joined.insert(table.to_string(), Some(row.duplicate()));
    push_back(results, joined);
}

/// Adds `state` without a row of `table`.
fn push_unmatched(results: &mut Vec<JoinedRowState>, state: &JoinedRowState, table: &str)
    ensures
        final(results).deep_view() == old(results).deep_view().push(
            state.deep_view().insert(table@, None),
        ),
{
    let mut joined = state.duplicate();
    joined.insert(table.to_string(), None);
    push_back(results, joined);
}

/// Adds `state` with each row that joins it, and says whether there is one.
fn push_matches(
    results: &mut Vec<JoinedRowState>,
    state: &JoinedRowState,
    rows: &[EngineRow],
    table: &str,
    left: &QualifiedColumn,
    right: &QualifiedColumn,
) -> (any: bool)
    ensures
        final(results).deep_view() == old(results).deep_view() + with_matches(
            state.deep_view(),
            rows.deep_view(),
            table@,
            left.deep_view(),
            right.deep_view(),
        ),
        any == (with_matches(
            state.deep_view(),
            rows.deep_view(),
            table@,
            left.deep_view(),
            right.deep_view(),
        ).len() > 0),
{
    let ghost before = results.deep_view();
    let ghost all = rows.deep_view();
    let ghost s = state.deep_view();
    let mut any = false;
    let mut i: usize = 0;
    proof {
        assert(before =~= before + with_matches(
            s,
            all.take(0),
            table@,
            left.deep_view(),
            right.deep_view(),
        ));
    }
    while i < rows.len()
        invariant
            i <= rows.len(),
            all == rows.deep_view(),
            s == state.deep_view(),
            results.deep_view() == before + with_matches(
                s,
                all.take(i as int),
                table@,
                left.deep_view(),
                right.deep_view(),
            ),
            any == (with_matches(
                s,
                all.take(i as int),
                table@,
                left.deep_view(),
                right.deep_view(),
            ).len() > 0),
        decreases rows.len() - i,
    {
        let ghost so_far = with_matches(
            s,
            all.take(i as int),
            table@,
            left.deep_view(),
            right.deep_view(),
        );
        proof {
            assert(all.take(i + 1).drop_last() =~= all.take(i as int));
            assert(all.take(i + 1).last() == rows@[i as int].deep_view());
        }
        if values_match(state, &rows[i], left, right) {
            push_joined(results, state, table, &rows[i]);
            any = true;
            proof {
                let added = s.insert(table@, Some(rows@[i as int].deep_view()));
                assert((before + so_far).push(added) =~= before + so_far.push(added));
            }
        }
        i += 1;
    }
    proof {
        assert(all.take(i as int) =~= all);
    }
    any
}

/// Adds each state that `row` joins, with the row, and says whether there is one.
fn push_states_with(
    results: &mut Vec<JoinedRowState>,
    states: &[JoinedRowState],
    row: &EngineRow,
    table: &str,
    left: &QualifiedColumn,
    right: &QualifiedColumn,
) -> (any: bool)
    ensures
        final(results).deep_view() == old(results).deep_view() + states_with(
            states.deep_view(),
            row.deep_view(),
            table@,
            left.deep_view(),
            right.deep_view(),
        ),
        any == (states_with(
            states.deep_view(),
            row.deep_view(),
            table@,
            left.deep_view(),
            right.deep_view(),
        ).len() > 0),
{
    let ghost before = results.deep_view();
    let ghost all = states.deep_view();
    let ghost r = row.deep_view();
    let mut any = false;
    let mut i: usize = 0;
    proof {
        assert(before =~= before + states_with(
            all.take(0),
            r,
            table@,
            left.deep_view(),
            right.deep_view(),
        ));
    }
    while i < states.len()
        invariant
            i <= states.len(),
            all == states.deep_view(),
            r == row.deep_view(),
            results.deep_view() == before + states_with(
                all.take(i as int),
                r,
                table@,
                left.deep_view(),
                right.deep_view(),
            ),
            any == (states_with(
                all.take(i as int),
                r,
                table@,
                left.deep_view(),
                right.deep_view(),
            ).len() > 0),
        decreases states.len() - i,
    {
        let ghost so_far = states_with(
            all.take(i as int),
            r,
            table@,
            left.deep_view(),
            right.deep_view(),
        );
        proof {
            assert(all.take(i + 1).drop_last() =~= all.take(i as int));
            assert(all.take(i + 1).last() == states@[i as int].deep_view());
        }
        if values_match(&states[i], row, left, right) {
            push_joined(results, &states[i], table, row);
            any = true;
            proof {
                let added = states@[i as int].deep_view().insert(table@, Some(r));
                assert((before + so_far).push(added) =~= before + so_far.push(added));
            }
        }
        i += 1;
    }
    proof {
        assert(all.take(i as int) =~= all);
    }
    any
}

/// The inner join of the states with the rows of `right_table`.
pub fn apply_inner_join(
    partial_results: &[JoinedRowState],
    right_rows: &[EngineRow],
    right_table: &str,
    left_qc: &QualifiedColumn,
    right_qc: &QualifiedColumn,
) -> (r: Vec<JoinedRowState>)
    ensures
        r.deep_view() == inner_join(
            partial_results.deep_view(),
            right_rows.deep_view(),
            right_table@,
            left_qc.deep_view(),
            right_qc.deep_view(),
        ),
{
    let ghost states = partial_results.deep_view();
    let ghost rows = right_rows.deep_view();
    let mut results: Vec<JoinedRowState> = no_items();
    let mut i: usize = 0;
    while i < partial_results.len()
        invariant
            i <= partial_results.len(),
            states == partial_results.deep_view(),
            rows == right_rows.deep_view(),
            results.deep_view() == inner_join(
                states.take(i as int),
                rows,
                right_table@,
                left_qc.deep_view(),
                right_qc.deep_view(),
            ),
        decreases partial_results.len() - i,
    {
        push_matches(
            &mut results,
            &partial_results[i],
            right_rows,
            right_table,
            left_qc,
            right_qc,
        );
        proof {
            assert(states.take(i + 1).drop_last() =~= states.take(i as int));
            assert(states.take(i + 1).last() == partial_results@[i as int].deep_view());
        }
        i += 1;
    }
    proof {
        assert(states.take(i as int) =~= states);
    }
    results
}

/// The left join of the states with the rows of `right_table`.
pub fn apply_left_join(
    partial_results: &[JoinedRowState],
    right_rows: &[EngineRow],
    right_table: &str,
    left_qc: &QualifiedColumn,
    right_qc: &QualifiedColumn,
) -> (r: Vec<JoinedRowState>)
    ensures
        r.deep_view() == left_join(
            partial_results.deep_view(),
            right_rows.deep_view(),
            right_table@,
            left_qc.deep_view(),
            right_qc.deep_view(),
        ),
{
    let ghost states = partial_results.deep_view();
    let ghost rows = right_rows.deep_view();
    let mut results: Vec<JoinedRowState> = no_items();
    let mut i: usize = 0;
    while i < partial_results.len()
        invariant
            i <= partial_results.len(),
            states == partial_results.deep_view(),
            rows == right_rows.deep_view(),
            results.deep_view() == left_join(
                states.take(i as int),
                rows,
                right_table@,
                left_qc.deep_view(),
                right_qc.deep_view(),
            ),
        decreases partial_results.len() - i,
    {
        let ghost before = results.deep_view();
        let ghost state = partial_results@[i as int].deep_view();
        let matched = push_matches(
            &mut results,
            &partial_results[i],
            right_rows,
            right_table,
            left_qc,
            right_qc,
        );
        if !matched {
            push_unmatched(&mut results, &partial_results[i], right_table);
        }
        proof {
            assert(states.take(i + 1).drop_last() =~= states.take(i as int));
            assert(states.take(i + 1).last() == state);
            assert(results.deep_view() =~= before + with_matches_or_none(
                state,
                rows,
                right_table@,
                left_qc.deep_view(),
                right_qc.deep_view(),
            ));
        }
        i += 1;
    }
    proof {
        assert(states.take(i as int) =~= states);
    }
    results
}

/// The right join of the states with the rows of `right_table`; `template`
/// stands beside a row that joins no state.
pub fn apply_right_join(
    partial_results: &[JoinedRowState],
    right_rows: &[EngineRow],
    right_table: &str,
    left_qc: &QualifiedColumn,
    right_qc: &QualifiedColumn,
    template: &JoinedRowState,
) -> (r: Vec<JoinedRowState>)
    ensures
        r.deep_view() == right_join(
            partial_results.deep_view(),
            right_rows.deep_view(),
            right_table@,
            left_qc.deep_view(),
            right_qc.deep_view(),
            template.deep_view(),
        ),
{
    let ghost states = partial_results.deep_view();
    let ghost rows = right_rows.deep_view();
    let mut results: Vec<JoinedRowState> = no_items();
    let mut i: usize = 0;
    while i < right_rows.len()
        invariant
            i <= right_rows.len(),
            states == partial_results.deep_view(),
            rows == right_rows.deep_view(),
            results.deep_view() == right_join(
                states,
                rows.take(i as int),
                right_table@,
                left_qc.deep_view(),
                right_qc.deep_view(),
                template.deep_view(),
            ),
        decreases right_rows.len() - i,
    {
        let ghost before = results.deep_view();
        let ghost row = right_rows@[i as int].deep_view();
        let any = push_states_with(
            &mut results,
            partial_results,
            &right_rows[i],
            right_table,
            left_qc,
            right_qc,
        );
        if !any {
            push_joined(&mut results, template, right_table, &right_rows[i]);
        }
        proof {
            assert(rows.take(i + 1).drop_last() =~= rows.take(i as int));
            assert(rows.take(i + 1).last() == row);
            assert(results.deep_view() =~= before + states_with_or_alone(
                states,
                row,
                right_table@,
                left_qc.deep_view(),
                right_qc.deep_view(),
                template.deep_view(),
            ));
        }
        i += 1;
    }
    proof {
        assert(rows.take(i as int) =~= rows);
    }
    results
}

/// Whether `row` joins one of the states.
fn joins_any(
    states: &[JoinedRowState],
    row: &EngineRow,
    left: &QualifiedColumn,
    right: &QualifiedColumn,
) -> (r: bool)
    ensures
        r == exists|i: int|
            0 <= i < states.deep_view().len() && rows_match(
                #[trigger] states.deep_view()[i],
                row.deep_view(),
                left.deep_view(),
                right.deep_view(),
            ),
{
    let mut i: usize = 0;
    while i < states.len()
        invariant
            i <= states.len(),
            forall|j: int|
                0 <= j < i ==> !rows_match(
                    #[trigger] states.deep_view()[j],
                    row.deep_view(),
                    left.deep_view(),
                    right.deep_view(),
                ),
        decreases states.len() - i,
    {
        assert(states.deep_view()[i as int] == states@[i as int].deep_view());
        if values_match(&states[i], row, left, right) {
            return true;
        }
        i += 1;
    }
    false
}

/// The full join of the states with the rows of `right_table`; `template`
/// stands beside a row that joins no state.
pub fn apply_full_join(
    partial_results: &[JoinedRowState],
    right_rows: &[EngineRow],
    right_table: &str,
    left_qc: &QualifiedColumn,
    right_qc: &QualifiedColumn,
    template: &JoinedRowState,
) -> (r: Vec<JoinedRowState>)
    ensures
        r.deep_view() == full_join(
            partial_results.deep_view(),
            right_rows.deep_view(),
            right_table@,
            left_qc.deep_view(),
            right_qc.deep_view(),
            template.deep_view(),
        ),
{
    let ghost states = partial_results.deep_view();
    let ghost rows = right_rows.deep_view();
    let mut results = apply_left_join(partial_results, right_rows, right_table, left_qc, right_qc);
    let ghost joined = results.deep_view();
    let mut i: usize = 0;
    proof {
        assert(joined =~= joined + rows_alone(
            states,
            rows.take(0),
            right_table@,
            left_qc.deep_view(),
            right_qc.deep_view(),
            template.deep_view(),
        ));
    }
    while i < right_rows.len()
        invariant
            i <= right_rows.len(),
            states == partial_results.deep_view(),
            rows == right_rows.deep_view(),
            results.deep_view() == joined + rows_alone(
                states,
                rows.take(i as int),
                right_table@,
                left_qc.deep_view(),
                right_qc.deep_view(),
                template.deep_view(),
            ),
        decreases right_rows.len() - i,
    {
        let ghost before = results.deep_view();
        let ghost so_far = rows_alone(
            states,
            rows.take(i as int),
            right_table@,
            left_qc.deep_view(),
            right_qc.deep_view(),
            template.deep_view(),
        );
        proof {
            assert(rows.take(i + 1).drop_last() =~= rows.take(i as int));
            assert(rows.take(i + 1).last() == right_rows@[i as int].deep_view());
        }
        if !joins_any(partial_results, &right_rows[i], left_qc, right_qc) {
            push_joined(&mut results, template, right_table, &right_rows[i]);
            proof {
                let added = template.deep_view().insert(
                    right_table@,
                    Some(right_rows@[i as int].deep_view()),
                );
                assert((joined + so_far).push(added) =~= joined + so_far.push(added));
            }
        }
        i += 1;
    }
    proof {
        assert(rows.take(i as int) =~= rows);
    }
    results
}

/// Law: what the inner join gives, the left join gives too.
pub proof fn law_left_join_holds_inner(
    states: Seq<StateModel>,
    rows: Seq<Seq<ValueModel>>,
    table: Seq<char>,
    left: ColumnRef,
    right: ColumnRef,
)
    ensures
        forall|s: StateModel| #[trigger]
            inner_join(states, rows, table, left, right).contains(s) ==> left_join(
                states,
                rows,
                table,
                left,
                right,
            ).contains(s),
    decreases states.len(),
{
    if states.len() > 0 {
        let init = states.drop_last();
        law_left_join_holds_inner(init, rows, table, left, right);
        let i0 = inner_join(init, rows, table, left, right);
        let l0 = left_join(init, rows, table, left, right);
        let m = with_matches(states.last(), rows, table, left, right);
        let n = with_matches_or_none(states.last(), rows, table, left, right);
        assert forall|s: StateModel| (i0 + m).contains(s) implies (l0 + n).contains(s) by {
            let k = choose|k: int| 0 <= k < (i0 + m).len() && (i0 + m)[k] == s;
            if k < i0.len() {
                assert(i0[k] == s);
                assert(i0.contains(s));
                let h = choose|h: int| 0 <= h < l0.len() && l0[h] == s;
                assert((l0 + n)[h] == s);
            } else {
                assert(n == m);
                assert((l0 + n)[l0.len() + (k - i0.len())] == s);
            }
        }
    }
}

/// `joined` says what `state` says, but for the joined table.
pub open spec fn extends(joined: StateModel, state: StateModel, table: Seq<char>) -> bool {
    joined == state.insert(table, joined[table])
}

/// Law: the left join keeps every state; only what it says of the joined
/// table is new.
pub proof fn law_left_join_keeps_left(
    states: Seq<StateModel>,
    rows: Seq<Seq<ValueModel>>,
    table: Seq<char>,
    left: ColumnRef,
    right: ColumnRef,
    at: int,
)
    requires
        0 <= at < states.len(),
    ensures
        exists|k: int|
            0 <= k < left_join(states, rows, table, left, right).len() && extends(
                #[trigger] left_join(states, rows, table, left, right)[k],
                states[at],
                table,
            ),
    decreases states.len(),
{
    let init = states.drop_last();
    let l0 = left_join(init, rows, table, left, right);
    let n = with_matches_or_none(states.last(), rows, table, left, right);
    if at < init.len() {
        law_left_join_keeps_left(init, rows, table, left, right, at);
        let k = choose|k: int| 0 <= k < l0.len() && extends(#[trigger] l0[k], init[at], table);
        assert(left_join(states, rows, table, left, right)[k] == l0[k]);
    } else {
        lemma_matches_extend(states.last(), rows, table, left, right);
        assert(left_join(states, rows, table, left, right)[l0.len() as int] == n[0]);
    }
}

proof fn lemma_matches_extend(
    state: StateModel,
    rows: Seq<Seq<ValueModel>>,
    table: Seq<char>,
    left: ColumnRef,
    right: ColumnRef,
)
    ensures
        with_matches(state, rows, table, left, right).len() > 0 ==> extends(
            with_matches(state, rows, table, left, right)[0],
            state,
            table,
        ),
        extends(with_matches_or_none(state, rows, table, left, right)[0], state, table),
    decreases rows.len(),
{
    let m = with_matches(state, rows, table, left, right);
    if rows.len() > 0 {
        lemma_matches_extend(state, rows.drop_last(), table, left, right);
        let before = with_matches(state, rows.drop_last(), table, left, right);
        if before.len() > 0 {
            assert(m[0] == before[0]);
        } else if m.len() > 0 {
            assert(m[0] == state.insert(table, Some(rows.last())));
        }
    }
    if m.len() == 0 {
        assert(with_matches_or_none(state, rows, table, left, right)[0] == state.insert(
            table,
            None,
        ));
    }
}

/// Law: the right join gives every row of the joined table.
pub proof fn law_right_join_keeps_right(
    states: Seq<StateModel>,
    rows: Seq<Seq<ValueModel>>,
    table: Seq<char>,
    left: ColumnRef,
    right: ColumnRef,
    template: StateModel,
    at: int,
)
    requires
        0 <= at < rows.len(),
    ensures
        exists|k: int|
            0 <= k < right_join(states, rows, table, left, right, template).len()
                && (#[trigger] right_join(states, rows, table, left, right, template)[k])[table]
                == Some(rows[at]),
    decreases rows.len(),
{
    let init = rows.drop_last();
    let r0 = right_join(states, init, table, left, right, template);
    let n = states_with_or_alone(states, rows.last(), table, left, right, template);
    if at < init.len() {
        law_right_join_keeps_right(states, init, table, left, right, template, at);
        let k = choose|k: int|
            0 <= k < r0.len() && (#[trigger] r0[k])[table] == Some(init[at]);
        assert(right_join(states, rows, table, left, right, template)[k] == r0[k]);
    } else {
        lemma_states_with_hold(states, rows.last(), table, left, right);
        assert(right_join(states, rows, table, left, right, template)[r0.len() as int] == n[0]);
    }
}

proof fn lemma_states_with_hold(
    states: Seq<StateModel>,
    row: Seq<ValueModel>,
    table: Seq<char>,
    left: ColumnRef,
    right: ColumnRef,
)
    ensures
        forall|k: int|
            0 <= k < states_with(states, row, table, left, right).len() ==> (#[trigger] states_with(
                states,
                row,
                table,
                left,
                right,
            )[k])[table] == Some(row),
    decreases states.len(),
{
    if states.len() > 0 {
        lemma_states_with_hold(states.drop_last(), row, table, left, right);
    }
}

} // verus!
