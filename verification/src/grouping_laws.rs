//! What groups and aggregates are, in terms of the values of the joined rows.
use vstd::prelude::*;
use crate::condition_laws::{self, value_at};
use crate::error::ErrorModel;
use crate::float::{self, FloatOp};
use crate::operators::aggregate::{self, AggModel};
use crate::operators::sorter;
use crate::predicate::{self, CacheModel, StateModel};
use crate::query::{AggregateModel, ColumnRef, HavingModel, OptionsModel, OrderModel};
use crate::result_laws::{self, is_slice, is_sorting, knows, order_directions, shown_row};
use crate::select_orchestrator;
use crate::sorting;
use crate::store::RowModel;
use crate::value::{self, ValueModel};
use crate::value_laws::{self, comes_before};

verus! {

/// The value of a column in joined rows.
pub open spec fn held(state: StateModel, column: ColumnRef) -> Option<ValueModel> {
    value_at(state, column.table, column.column_index as int)
}

/// The numbers that a column holds, as doubles, in the order of the joined rows:
/// a whole number as the double nearest to it, a double as it is.
pub open spec fn doubles<F: Fn(FloatOp) -> u64>(
    f: F,
    states: Seq<StateModel>,
    column: ColumnRef,
) -> Seq<u64>
    decreases states.len(),
{
    if states.len() == 0 {
        Seq::empty()
    } else {
        let before = doubles(f, states.drop_last(), column);
        match held(states.last(), column) {
            Some(ValueModel::Integer(i)) => before.push(
                float::float_value(f, FloatOp::OfInteger(i)),
            ),
            Some(ValueModel::Float(b)) => before.push(b),
            _ => before,
        }
    }
}

/// The sum of doubles, from zero and from left to right.
pub open spec fn total<F: Fn(FloatOp) -> u64>(f: F, list: Seq<u64>) -> u64
    decreases list.len(),
{
    if list.len() == 0 {
        0
    } else {
        float::float_value(f, FloatOp::Sum(total(f, list.drop_last()), list.last()))
    }
}

/// What an aggregate gives for joined rows.
pub open spec fn value_over<F: Fn(FloatOp) -> u64>(
    f: F,
    a: AggregateModel,
    states: Seq<StateModel>,
) -> ValueModel {
    aggregate::aggregate_value(f, aggregate::aggregate_over(f, a, states))
}

/// Law: SUM is the sum of all the numbers that the column holds, whole numbers
/// and doubles alike, added up as doubles from left to right.
pub proof fn law_sum_adds_numbers<F: Fn(FloatOp) -> u64>(
    f: F,
    states: Seq<StateModel>,
    column: ColumnRef,
)
    ensures
        value_over(f, AggregateModel::Sum(column), states) == ValueModel::Float(
            total(f, doubles(f, states, column)),
        ),
    decreases states.len(),
{
    if states.len() > 0 {
        let rest = states.drop_last();
        law_sum_adds_numbers(f, rest, column);
        let before = doubles(f, rest, column);
        let after = doubles(f, states, column);
        if after.len() > before.len() {
            assert(after.drop_last() =~= before);
        }
        assert(aggregate::aggregate_over(f, AggregateModel::Sum(column), rest) is Sum) by {
            lemma_shape(f, AggregateModel::Sum(column), rest);
        }
    }
}

/// An aggregate is of its own shape all along.
proof fn lemma_shape<F: Fn(FloatOp) -> u64>(f: F, a: AggregateModel, states: Seq<StateModel>)
    ensures
        ({
            let m = aggregate::aggregate_over(f, a, states);
            match a {
                AggregateModel::Count(_) => m is Count,
                AggregateModel::Sum(_) => m is Sum,
                AggregateModel::Min(_) => m is Min,
                AggregateModel::Max(_) => m is Max,
                AggregateModel::Avg(_) => m is Avg,
            }
        }),
    decreases states.len(),
{
    if states.len() > 0 {
        lemma_shape(f, a, states.drop_last());
    }
}

/// Law: one more number is added to a SUM, a double as it is and a whole number
/// as the nearest double; one more value that is no number changes nothing.
pub proof fn law_sum_grows_by_number<F: Fn(FloatOp) -> u64>(
    f: F,
    states: Seq<StateModel>,
    column: ColumnRef,
    state: StateModel,
    sum: u64,
)
    requires
        value_over(f, AggregateModel::Sum(column), states) == ValueModel::Float(sum),
    ensures
        value_over(f, AggregateModel::Sum(column), states.push(state)) == ValueModel::Float(
            match held(state, column) {
                Some(ValueModel::Float(b)) => float::float_value(f, FloatOp::Sum(sum, b)),
                Some(ValueModel::Integer(i)) => float::float_value(
                    f,
                    FloatOp::Sum(sum, float::float_value(f, FloatOp::OfInteger(i))),
                ),
                _ => sum,
            },
        ),
{
    law_sum_adds_numbers(f, states, column);
    law_sum_adds_numbers(f, states.push(state), column);
    assert(states.push(state).drop_last() =~= states);
    let before = doubles(f, states, column);
    let after = doubles(f, states.push(state), column);
    if after.len() > before.len() {
        assert(after.drop_last() =~= before);
    }
}

proof fn lemma_average<F: Fn(FloatOp) -> u64>(f: F, states: Seq<StateModel>, column: ColumnRef)
    ensures
        aggregate::aggregate_over(f, AggregateModel::Avg(column), states) == (AggModel::Avg {
            sum: total(f, doubles(f, states, column)),
            count: doubles(f, states, column).len(),
        }),
        doubles(f, states, column).len() <= states.len(),
    decreases states.len(),
{
    if states.len() > 0 {
        let rest = states.drop_last();
        lemma_average(f, rest, column);
        let before = doubles(f, rest, column);
        let after = doubles(f, states, column);
        if after.len() > before.len() {
            assert(after.drop_last() =~= before);
        }
    }
}

/// Law: AVG is the sum of the numbers that the column holds divided by how many
/// they are; NULL if there are none.
pub proof fn law_average_divides_sum<F: Fn(FloatOp) -> u64>(
    f: F,
    states: Seq<StateModel>,
    column: ColumnRef,
)
    requires
        states.len() <= u64::MAX,
    ensures
        ({
            let list = doubles(f, states, column);
            value_over(f, AggregateModel::Avg(column), states) == if list.len() == 0 {
                ValueModel::Null
            } else {
                ValueModel::Float(
                    float::float_value(
                        f,
                        FloatOp::Quotient(
                            total(f, list),
                            float::float_value(f, FloatOp::OfCount(list.len() as u64)),
                        ),
                    ),
                )
            }
        }),
{
    lemma_average(f, states, column);
}

/// The joined rows whose column holds a value that is not NULL.
pub open spec fn holding(states: Seq<StateModel>, column: ColumnRef) -> Seq<StateModel> {
    states.filter(
        |state: StateModel|
            held(state, column) is Some && held(state, column) != Some(ValueModel::Null),
    )
}

proof fn lemma_count<F: Fn(FloatOp) -> u64>(
    f: F,
    states: Seq<StateModel>,
    column: Option<ColumnRef>,
)
    ensures
        aggregate::aggregate_over(f, AggregateModel::Count(column), states) == AggModel::Count(
            match column {
                None => states.len(),
                Some(c) => holding(states, c).len(),
            },
        ),
    decreases states.len(),
{
    reveal(Seq::filter);
    if states.len() > 0 {
        lemma_count(f, states.drop_last(), column);
    }
}

/// Law: COUNT(*) is the number of joined rows, COUNT of a column the number of
/// those in which it holds a value that is not NULL.
pub proof fn law_count_counts<F: Fn(FloatOp) -> u64>(
    f: F,
    states: Seq<StateModel>,
    column: ColumnRef,
)
    requires
        states.len() <= i64::MAX,
    ensures
        value_over(f, AggregateModel::Count(None), states) == ValueModel::Integer(
            states.len() as i64,
        ),
        value_over(f, AggregateModel::Count(Some(column)), states) == ValueModel::Integer(
            holding(states, column).len() as i64,
        ),
{
    lemma_count(f, states, None);
    lemma_count(f, states, Some(column));
    states.lemma_filter_len(
        |state: StateModel|
            held(state, column) is Some && held(state, column) != Some(ValueModel::Null),
    );
}

/// `v` is held by the column in the joined rows at some place.
pub open spec fn is_held(states: Seq<StateModel>, column: ColumnRef, v: ValueModel) -> bool {
    exists|i: int| 0 <= i < states.len() && held(#[trigger] states[i], column) == Some(v)
}

proof fn lemma_held_step(states: Seq<StateModel>, column: ColumnRef, v: ValueModel)
    requires
        states.len() > 0,
    ensures
        is_held(states, column, v) <==> is_held(states.drop_last(), column, v) || held(
            states.last(),
            column,
        ) == Some(v),
{
    let rest = states.drop_last();
    if is_held(states, column, v) {
        let i = choose|i: int|
            0 <= i < states.len() && held(#[trigger] states[i], column) == Some(v);
        if i < rest.len() {
            assert(held(rest[i], column) == Some(v));
        }
    }
    if is_held(rest, column, v) {
        let i = choose|i: int| 0 <= i < rest.len() && held(#[trigger] rest[i], column) == Some(v);
        assert(held(states[i], column) == Some(v));
    }
    if held(states.last(), column) == Some(v) {
        assert(held(states[states.len() - 1], column) == Some(v));
    }
}

/// `m` is held and none that is held comes before it, or, for the greatest,
/// after it.
pub open spec fn is_extreme(
    states: Seq<StateModel>,
    column: ColumnRef,
    m: ValueModel,
    least: bool,
) -> bool {
    &&& is_held(states, column, m)
    &&& forall|v: ValueModel| #[trigger]
        is_held(states, column, v) ==> if least {
            !comes_before(v, m)
        } else {
            !comes_before(m, v)
        }
}

proof fn lemma_extreme<F: Fn(FloatOp) -> u64>(
    f: F,
    states: Seq<StateModel>,
    column: ColumnRef,
    least: bool,
)
    ensures
        ({
            let a = if least {
                AggregateModel::Min(column)
            } else {
                AggregateModel::Max(column)
            };
            let best = match aggregate::aggregate_over(f, a, states) {
                AggModel::Min(b) if least => Some(b),
                AggModel::Max(b) if !least => Some(b),
                _ => None,
            };
            match best {
                Some(Some(m)) => is_extreme(states, column, m, least),
                Some(None) => forall|v: ValueModel| !(#[trigger] is_held(states, column, v)),
                None => false,
            }
        }),
    decreases states.len(),
{
    if states.len() > 0 {
        let rest = states.drop_last();
        lemma_extreme(f, rest, column, least);
        value::law_value_order_total();
        let less = value::value_less();
        assert forall|v: ValueModel| #[trigger]
            is_held(states, column, v) <==> is_held(rest, column, v) || held(states.last(), column)
                == Some(v) by {
            lemma_held_step(states, column, v);
        }
        assert forall|v: ValueModel, w: ValueModel| #[trigger] comes_before(v, w) == less(v, w) by {
            value_laws::law_values_are_ordered(v, w);
        }
        if let Some(x) = held(states.last(), column) {
            assert(is_held(states, column, x));
            assert(!comes_before(x, x)) by {
                assert(!less(x, x));
            }
        }
    }
}

/// Law: MIN is a value that the column holds and none that it holds comes before
/// it; MAX is one that comes before none of them. Where the column holds nothing
/// both are NULL.
pub proof fn law_extremes<F: Fn(FloatOp) -> u64>(
    f: F,
    states: Seq<StateModel>,
    column: ColumnRef,
)
    ensures
        ({
            let least = value_over(f, AggregateModel::Min(column), states);
            let greatest = value_over(f, AggregateModel::Max(column), states);
            if exists|v: ValueModel| #[trigger] is_held(states, column, v) {
                is_extreme(states, column, least, true) && is_extreme(
                    states,
                    column,
                    greatest,
                    false,
                )
            } else {
                least is Null && greatest is Null
            }
        }),
{
    lemma_extreme(f, states, column, true);
    lemma_extreme(f, states, column, false);
}

/// The tables of the columns that are grouped by are among the joined ones.
pub open spec fn all_grouped(states: Seq<StateModel>, group_by: Seq<ColumnRef>) -> bool {
    forall|i: int| 0 <= i < states.len() ==> knows(#[trigger] states[i], group_by)
}

/// The joined rows that show a key in the columns that are grouped by.
pub open spec fn group_of(
    states: Seq<StateModel>,
    group_by: Seq<ColumnRef>,
    key: RowModel,
) -> Seq<StateModel> {
    states.filter(|state: StateModel| shown_row(state, group_by) == key)
}

/// The row of a group: its key, then each aggregate over its joined rows.
pub open spec fn row_of_group<F: Fn(FloatOp) -> u64>(
    f: F,
    states: Seq<StateModel>,
    group_by: Seq<ColumnRef>,
    aggregates: Seq<AggregateModel>,
    key: RowModel,
) -> RowModel {
    key + Seq::new(
        aggregates.len(),
        |k: int| value_over(f, aggregates[k], group_of(states, group_by, key)),
    )
}

/// `firsts` lists the places at which a key is shown for the first time.
pub open spec fn is_key_places(
    firsts: Seq<int>,
    states: Seq<StateModel>,
    group_by: Seq<ColumnRef>,
) -> bool {
    result_laws::is_first_places(firsts, result_laws::shown_rows(states, group_by))
}

proof fn lemma_group_keys(states: Seq<StateModel>, group_by: Seq<ColumnRef>)
    requires
        all_grouped(states, group_by),
    ensures
        aggregate::group_keys(states, group_by) == Ok::<Seq<RowModel>, ErrorModel>(
            result_laws::shown_rows(states, group_by),
        ),
    decreases states.len(),
{
    let wanted = result_laws::shown_rows(states, group_by);
    if states.len() == 0 {
        assert(wanted =~= Seq::empty());
    } else {
        let rest = states.drop_last();
        assert forall|i: int| 0 <= i < rest.len() implies knows(#[trigger] rest[i], group_by) by {
            assert(rest[i] == states[i]);
        }
        lemma_group_keys(rest, group_by);
        assert(knows(states[states.len() - 1], group_by));
        result_laws::law_columns_are_shown(states.last(), group_by, aggregate::group_context());
        assert(wanted =~= result_laws::shown_rows(rest, group_by).push(
            shown_row(states.last(), group_by),
        ));
    }
}

proof fn lemma_members(states: Seq<StateModel>, group_by: Seq<ColumnRef>, key: RowModel)
    ensures
        aggregate::members(states, result_laws::shown_rows(states, group_by), key) == group_of(
            states,
            group_by,
            key,
        ),
    decreases states.len(),
{
    reveal(Seq::filter);
    let keys = result_laws::shown_rows(states, group_by);
    if states.len() > 0 {
        assert(keys.drop_last() =~= result_laws::shown_rows(states.drop_last(), group_by));
        lemma_members(states.drop_last(), group_by, key);
    } else {
        assert(states =~= Seq::empty());
    }
}

/// The distinct keys are those at their first places.
proof fn lemma_key_places(keys: Seq<RowModel>) -> (q: Seq<int>)
    ensures
        result_laws::is_first_places(q, keys),
        aggregate::distinct_keys(keys) == Seq::new(q.len(), |k: int| keys[q[k]]),
    decreases keys.len(),
{
    if keys.len() == 0 {
        let q = Seq::<int>::empty();
        assert(aggregate::distinct_keys(keys) =~= Seq::new(q.len(), |k: int| keys[q[k]]));
        q
    } else {
        let init = keys.drop_last();
        let n = keys.len() - 1;
        let q = lemma_key_places(init);
        let before = aggregate::distinct_keys(init);
        aggregate::lemma_distinct_keys(init);
        assert forall|k: int| 0 <= k < q.len() implies 0 <= #[trigger] q[k] < n && init[q[k]]
            == keys[q[k]] by {
            assert(q.contains(q[k]));
        }
        assert(before =~= Seq::new(q.len(), |k: int| keys[q[k]]));
        let is_new = forall|j: int| 0 <= j < n ==> keys[j] != keys[n];
        assert(before.contains(keys.last()) == !is_new) by {
            assert(before.contains(keys.last()) <==> init.contains(keys.last()));
            if init.contains(keys.last()) {
                let j = choose|j: int| 0 <= j < init.len() && init[j] == keys.last();
                assert(keys[j] == keys[n]);
            }
            if !is_new {
                let j = choose|j: int| 0 <= j < n && keys[j] == keys[n];
                assert(init[j] == keys.last());
            }
        }
        let next = if is_new {
            q.push(n)
        } else {
            q
        };
        assert forall|i: int| #[trigger]
            next.contains(i) <==> 0 <= i < keys.len() && forall|j: int|
                0 <= j < i ==> keys[j] != keys[i] by {
            assert(q.contains(i) <==> 0 <= i < init.len() && forall|j: int|
                0 <= j < i ==> init[j] != init[i]);
            if next.contains(i) {
                let k = choose|k: int| 0 <= k < next.len() && next[k] == i;
                if k < q.len() {
                    assert(q[k] == i);
                    assert(q.contains(i));
                    assert forall|j: int| 0 <= j < i implies keys[j] != keys[i] by {
                        assert(init[j] != init[i]);
                    }
                }
            }
            if 0 <= i < keys.len() && forall|j: int| 0 <= j < i ==> keys[j] != keys[i] {
                if i < n {
                    assert forall|j: int| 0 <= j < i implies init[j] != init[i] by {
                        assert(keys[j] != keys[i]);
                    }
                    assert(q.contains(i));
                    let k = choose|k: int| 0 <= k < q.len() && q[k] == i;
                    assert(next[k] == i);
                } else {
                    assert(next[q.len() as int] == i);
                }
            }
        }
        assert(aggregate::distinct_keys(keys) =~= Seq::new(next.len(), |k: int| keys[next[k]]));
        next
    }
}

proof fn lemma_all_kept<F: Fn(FloatOp) -> u64>(
    f: F,
    groups: Seq<(Seq<ValueModel>, Seq<AggModel>)>,
    group_by: Seq<ColumnRef>,
)
    ensures
        aggregate::kept_rows(f, groups, None, group_by) == Seq::new(
            groups.len(),
            |k: int| aggregate::group_row(f, groups[k]),
        ),
    decreases groups.len(),
{
    let wanted = Seq::new(groups.len(), |k: int| aggregate::group_row(f, groups[k]));
    if groups.len() == 0 {
        assert(wanted =~= Seq::empty());
    } else {
        lemma_all_kept(f, groups.drop_last(), group_by);
        let before = Seq::new(
            groups.drop_last().len(),
            |k: int| aggregate::group_row(f, groups.drop_last()[k]),
        );
        assert(wanted =~= before.push(aggregate::group_row(f, groups.last())));
    }
}

/// Law: a grouping gives one row for each key that the joined rows show, in the
/// order in which the keys first occur: the key, then each aggregate over the
/// joined rows that show it.
pub proof fn law_grouping_makes_rows<F: Fn(FloatOp) -> u64>(
    f: F,
    states: Seq<StateModel>,
    group_by: Seq<ColumnRef>,
    aggregates: Seq<AggregateModel>,
)
    requires
        all_grouped(states, group_by),
    ensures
        exists|firsts: Seq<int>| #[trigger]
            is_key_places(firsts, states, group_by) && aggregate::aggregate_output(
                f,
                group_by,
                aggregates,
                None,
                Seq::empty(),
                None,
                None,
                states,
            ) == Ok::<Seq<RowModel>, ErrorModel>(
                Seq::new(
                    firsts.len(),
                    |k: int|
                        row_of_group(
                            f,
                            states,
                            group_by,
                            aggregates,
                            shown_row(states[firsts[k]], group_by),
                        ),
                ),
            ),
{
    lemma_group_keys(states, group_by);
    let keys = result_laws::shown_rows(states, group_by);
    let firsts = lemma_key_places(keys);
    assert(is_key_places(firsts, states, group_by));
    let groups = aggregate::groups_of(f, aggregates, states, keys);
    lemma_all_kept(f, groups, group_by);
    let rows = aggregate::kept_rows(f, groups, None, group_by);
    assert(sorting::sliced(rows, None, None) =~= rows);
    let wanted = Seq::new(
        firsts.len(),
        |k: int|
            row_of_group(
                f,
                states,
                group_by,
                aggregates,
                shown_row(states[firsts[k]], group_by),
            ),
    );
    assert forall|k: int| 0 <= k < firsts.len() implies #[trigger] rows[k] == wanted[k] by {
        assert(firsts.contains(firsts[k]));
        let key = shown_row(states[firsts[k]], group_by);
        assert(keys[firsts[k]] == key);
        lemma_members(states, group_by, key);
        assert(groups[k].0 == key);
        assert(rows[k] =~= wanted[k]);
    }
    assert(rows =~= wanted);
}

proof fn lemma_kept_filters<F: Fn(FloatOp) -> u64>(
    f: F,
    groups: Seq<(Seq<ValueModel>, Seq<AggModel>)>,
    having: HavingModel,
    group_by: Seq<ColumnRef>,
)
    ensures
        aggregate::kept_rows(f, groups, Some(having), group_by) == aggregate::kept_rows(
            f,
            groups,
            None,
            group_by,
        ).filter(|row: RowModel| predicate::group_holds(having, row, group_by)),
    decreases groups.len(),
{
    reveal(Seq::filter);
    if groups.len() > 0 {
        lemma_kept_filters(f, groups.drop_last(), having, group_by);
        let all = aggregate::kept_rows(f, groups, None, group_by);
        assert(all.drop_last() =~= aggregate::kept_rows(f, groups.drop_last(), None, group_by));
    }
}

/// Law: HAVING keeps the rows of the groups that meet its condition, and no
/// others.
pub proof fn law_having_filters_groups<F: Fn(FloatOp) -> u64>(
    f: F,
    states: Seq<StateModel>,
    group_by: Seq<ColumnRef>,
    aggregates: Seq<AggregateModel>,
    having: HavingModel,
)
    requires
        all_grouped(states, group_by),
    ensures
        ({
            let all = aggregate::aggregate_output(
                f,
                group_by,
                aggregates,
                None,
                Seq::empty(),
                None,
                None,
                states,
            );
            all is Ok && aggregate::aggregate_output(
                f,
                group_by,
                aggregates,
                Some(having),
                Seq::empty(),
                None,
                None,
                states,
            ) == Ok::<Seq<RowModel>, ErrorModel>(
                all->Ok_0.filter(|row: RowModel| predicate::group_holds(having, row, group_by)),
            )
        }),
{
    lemma_group_keys(states, group_by);
    let keys = result_laws::shown_rows(states, group_by);
    let groups = aggregate::groups_of(f, aggregates, states, keys);
    lemma_kept_filters(f, groups, having, group_by);
    let all = aggregate::kept_rows(f, groups, None, group_by);
    let some = aggregate::kept_rows(f, groups, Some(having), group_by);
    assert(sorting::sliced(all, None, None) =~= all);
    assert(sorting::sliced(some, None, None) =~= some);
}

/// The place in a group's row that a column is sorted by: the first at which it
/// is grouped by; if there is none, that of the first aggregate of it.
pub open spec fn is_sort_place(
    column: ColumnRef,
    group_by: Seq<ColumnRef>,
    aggregates: Seq<AggregateModel>,
    n: int,
) -> bool {
    if group_by.contains(column) {
        &&& 0 <= n < group_by.len()
        &&& group_by[n] == column
        &&& forall|j: int| 0 <= j < n ==> group_by[j] != column
    } else {
        let m = n - group_by.len();
        &&& 0 <= m < aggregates.len()
        &&& is_of(aggregates[m], column)
        &&& forall|j: int| 0 <= j < m ==> !is_of(aggregates[j], column)
    }
}

/// An aggregate of a column.
pub open spec fn is_of(a: AggregateModel, column: ColumnRef) -> bool {
    a == AggregateModel::Count(Some(column)) || a == AggregateModel::Sum(column) || a
        == AggregateModel::Min(column) || a == AggregateModel::Max(column) || a
        == AggregateModel::Avg(column)
}

proof fn lemma_aggregate_place(aggregates: Seq<AggregateModel>, column: ColumnRef)
    ensures
        match aggregate::aggregate_place(aggregates, column) {
            Some(m) => 0 <= m < aggregates.len() && is_of(aggregates[m], column) && forall|j: int|
                0 <= j < m ==> !is_of(aggregates[j], column),
            None => forall|j: int| 0 <= j < aggregates.len() ==> !is_of(aggregates[j], column),
        },
    decreases aggregates.len(),
{
    if aggregates.len() > 0 && !is_of(aggregates[0], column) {
        let rest = aggregates.drop_first();
        lemma_aggregate_place(rest, column);
        assert forall|j: int| 0 < j < aggregates.len() implies aggregates[j] == rest[j - 1] by {}
        match aggregate::aggregate_place(rest, column) {
            Some(m) => {
                assert(rest[m] == aggregates[m + 1]);
                assert forall|j: int| 0 <= j < m + 1 implies !is_of(aggregates[j], column) by {
                    if j > 0 {
                        assert(!is_of(rest[j - 1], column));
                    }
                }
            },
            None => {
                assert forall|j: int| 0 <= j < aggregates.len() implies !is_of(
                    aggregates[j],
                    column,
                ) by {
                    if j > 0 {
                        assert(!is_of(rest[j - 1], column));
                    }
                }
            },
        }
    }
}

proof fn lemma_sort_place(
    column: ColumnRef,
    group_by: Seq<ColumnRef>,
    aggregates: Seq<AggregateModel>,
    n: int,
)
    requires
        is_sort_place(column, group_by, aggregates, n),
    ensures
        aggregate::sort_place(column, group_by, aggregates) == Some(n),
{
    condition_laws::lemma_column_place(group_by, column);
    lemma_aggregate_place(aggregates, column);
    if group_by.contains(column) {
        let j = choose|j: int| 0 <= j < group_by.len() && group_by[j] == column;
        let k = predicate::column_place(group_by, column)->0;
        assert(group_by[k] == column);
        assert(k == n);
    } else {
        if let Some(k) = predicate::column_place(group_by, column) {
            assert(group_by.contains(group_by[k]));
        }
        let m = n - group_by.len();
        let k = aggregate::aggregate_place(aggregates, column)->0;
        assert(is_of(aggregates[k], column));
        assert(k == m);
    }
}

/// Rows, as a list of places has them.
pub open spec fn rows_at(rows: Seq<RowModel>, p: Seq<int>) -> Seq<RowModel> {
    Seq::new(p.len(), |k: int| rows[p[k]])
}

/// The values of rows at given places.
pub open spec fn keys_at(rows: Seq<RowModel>, places: Seq<int>) -> Seq<RowModel> {
    Seq::new(
        rows.len(),
        |i: int| Seq::new(places.len(), |k: int| rows[i][places[k]]),
    )
}

proof fn lemma_row_lengths<F: Fn(FloatOp) -> u64>(
    f: F,
    groups: Seq<(Seq<ValueModel>, Seq<AggModel>)>,
    having: Option<HavingModel>,
    group_by: Seq<ColumnRef>,
    n: nat,
)
    requires
        forall|k: int|
            0 <= k < groups.len() ==> (#[trigger] groups[k]).0.len() + groups[k].1.len() == n,
    ensures
        forall|i: int|
            0 <= i < aggregate::kept_rows(f, groups, having, group_by).len() ==> (
            #[trigger] aggregate::kept_rows(f, groups, having, group_by)[i]).len() == n,
    decreases groups.len(),
{
    if groups.len() > 0 {
        let rest = groups.drop_last();
        assert forall|k: int| 0 <= k < rest.len() implies (#[trigger] rest[k]).0.len()
            + rest[k].1.len() == n by {
            assert(rest[k] == groups[k]);
        }
        lemma_row_lengths(f, rest, having, group_by, n);
        let last = groups[groups.len() - 1];
        assert(last.0.len() + last.1.len() == n);
        let before = aggregate::kept_rows(f, rest, having, group_by);
        let all = aggregate::kept_rows(f, groups, having, group_by);
        assert forall|i: int| 0 <= i < all.len() implies (#[trigger] all[i]).len() == n by {
            if i < before.len() {
                assert(all[i] == before[i]);
            } else {
                assert(all[i] == aggregate::group_row(f, groups.last()));
            }
        }
    }
}

/// Law: the rows of groups are sorted by the columns of the ORDER BY clause, in
/// their directions, and rows that agree in all of them stay as they stood.
pub proof fn law_groups_are_sorted<F: Fn(FloatOp) -> u64>(
    f: F,
    states: Seq<StateModel>,
    group_by: Seq<ColumnRef>,
    aggregates: Seq<AggregateModel>,
    having: Option<HavingModel>,
    order_by: Seq<OrderModel>,
    places: Seq<int>,
)
    requires
        all_grouped(states, group_by),
        order_by.len() > 0,
        places.len() == order_by.len(),
        forall|k: int|
            0 <= k < order_by.len() ==> is_sort_place(
                (#[trigger] order_by[k]).expr,
                group_by,
                aggregates,
                places[k],
            ),
    ensures
        ({
            let unsorted = aggregate::aggregate_output(
                f,
                group_by,
                aggregates,
                having,
                Seq::empty(),
                None,
                None,
                states,
            );
            &&& unsorted is Ok
            &&& exists|p: Seq<int>| #[trigger]
                is_sorting(p, keys_at(unsorted->Ok_0, places), order_directions(order_by))
                    && aggregate::aggregate_output(
                    f,
                    group_by,
                    aggregates,
                    having,
                    order_by,
                    None,
                    None,
                    states,
                ) == Ok::<Seq<RowModel>, ErrorModel>(
                    rows_at(unsorted->Ok_0, p),
                )
        }),
{
    lemma_group_keys(states, group_by);
    let ks = result_laws::shown_rows(states, group_by);
    let groups = aggregate::groups_of(f, aggregates, states, ks);
    let rows = aggregate::kept_rows(f, groups, having, group_by);
    aggregate::lemma_distinct_keys(ks);
    assert forall|k: int| 0 <= k < groups.len() implies (#[trigger] groups[k]).0.len()
        + groups[k].1.len() == group_by.len() + aggregates.len() by {
        let key = aggregate::distinct_keys(ks)[k];
        assert(aggregate::distinct_keys(ks).contains(key));
        assert(ks.contains(key));
    }
    lemma_row_lengths(f, groups, having, group_by, group_by.len() + aggregates.len());
    assert(sorting::sliced(rows, None, None) =~= rows);
    assert forall|k: int| 0 <= k < order_by.len() implies aggregate::sort_place(
        (#[trigger] order_by[k]).expr,
        group_by,
        aggregates,
    ) == Some(places[k]) && 0 <= places[k] < group_by.len() + aggregates.len() by {
        lemma_sort_place(order_by[k].expr, group_by, aggregates, places[k]);
    }
    let keyed = rows.map_values(
        |row: Seq<ValueModel>|
            (aggregate::group_sort_key(row, order_by, group_by, aggregates), row),
    );
    let keys = keys_at(rows, places);
    assert forall|i: int| 0 <= i < rows.len() implies #[trigger] sorter::keys_of(keyed)[i]
        == keys[i] by {
        assert forall|k: int| 0 <= k < order_by.len() implies sorter::keys_of(keyed)[i][k]
            == keys[i][k] by {
            assert(aggregate::sort_place(order_by[k].expr, group_by, aggregates) == Some(
                places[k],
            ));
            assert(rows[i].len() == group_by.len() + aggregates.len());
        }
        assert(sorter::keys_of(keyed)[i] =~= keys[i]);
    }
    assert(sorter::keys_of(keyed) =~= keys);
    let directions = order_directions(order_by);
    assert(sorter::directions_of(order_by) =~= directions);
    result_laws::lemma_sort_order(keys, directions);
    let p = sorting::sort_order(keys, directions);
    let sorted = sorter::sorted_rows(keyed, directions);
    assert forall|k: int| 0 <= k < p.len() implies 0 <= #[trigger] p[k] < rows.len() by {
        assert(p.contains(p[k]));
    }
    assert(sorting::sliced(sorted, None, None) =~= sorted);
    let wanted = rows_at(rows, p);
    assert(sorted =~= wanted);
    assert(is_sorting(p, keys, directions));
    assert(aggregate::all_sortable(order_by, group_by, aggregates));
    assert(aggregate::aggregate_output(
        f,
        group_by,
        aggregates,
        having,
        order_by,
        None,
        None,
        states,
    ) == Ok::<Seq<RowModel>, ErrorModel>(wanted));
    let unsorted = aggregate::aggregate_output(
        f,
        group_by,
        aggregates,
        having,
        Seq::empty(),
        None,
        None,
        states,
    );
    assert(unsorted == Ok::<Seq<RowModel>, ErrorModel>(rows));
    assert(is_sorting(p, keys_at(unsorted->Ok_0, places), order_directions(order_by)));
}

/// Law: LIMIT and OFFSET slice the rows of groups as they do others.
pub proof fn law_groups_are_sliced<F: Fn(FloatOp) -> u64>(
    f: F,
    states: Seq<StateModel>,
    group_by: Seq<ColumnRef>,
    aggregates: Seq<AggregateModel>,
    having: Option<HavingModel>,
    order_by: Seq<OrderModel>,
    limit: Option<usize>,
    offset: Option<usize>,
)
    ensures
        ({
            let all = aggregate::aggregate_output(
                f,
                group_by,
                aggregates,
                having,
                order_by,
                None,
                None,
                states,
            );
            let part = aggregate::aggregate_output(
                f,
                group_by,
                aggregates,
                having,
                order_by,
                limit,
                offset,
                states,
            );
            match (part, all) {
                (Ok(part), Ok(all)) => is_slice(part, all, limit, offset),
                (Err(e), Err(d)) => e == d,
                _ => false,
            }
        }),
{
    assert forall|rows: Seq<RowModel>| #[trigger] sorting::sliced(rows, None, None) == rows by {
        assert(rows.skip(0) =~= rows);
    }
    assert forall|rows: Seq<RowModel>| is_slice(
        #[trigger] sorting::sliced(rows, limit, offset),
        rows,
        limit,
        offset,
    ) by {}
}

/// Law: a selection that groups or aggregates gives the rows of the groups of
/// its joined rows, kept, sorted and sliced as its clauses say.
pub proof fn law_grouped_selection<F: Fn(FloatOp) -> u64>(
    f: F,
    states: Seq<StateModel>,
    columns: Seq<ColumnRef>,
    options: OptionsModel,
    cache: CacheModel,
)
    requires
        !result_laws::is_plain(options),
    ensures
        select_orchestrator::selected_rows(f, states, columns, None, options, cache)
            == aggregate::aggregate_output(
            f,
            options.group_by,
            options.aggregates,
            options.having,
            options.order_by,
            options.limit,
            options.offset,
            states,
        ),
{
}

} // verus!
