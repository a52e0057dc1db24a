//! What a selection makes of joined rows: which it keeps, what it shows of
//! them, and in which order.
use vstd::prelude::*;
use crate::condition_laws::value_at;
use crate::error::ErrorModel;
use crate::float::FloatOp;
use crate::operators::sorter::{self, KeyedModel};
use crate::order::Comparison;
use crate::plain;
use crate::predicate::{self, CacheModel, StateModel};
use crate::projection;
use crate::query::{ColumnRef, OptionsModel, OrderModel, PredicateModel, SortDirection};
use crate::select_orchestrator;
use crate::select_pipeline;
use crate::sorting;
use crate::store::RowModel;
use crate::store_helpers;
use crate::value::ValueModel;
use crate::value_laws::{self, comes_before};

verus! {

/// What is shown of a column: its value, or NULL where there is none.
pub open spec fn shown(state: StateModel, column: ColumnRef) -> ValueModel {
    match value_at(state, column.table, column.column_index as int) {
        Some(v) => v,
        None => ValueModel::Null,
    }
}

/// What is shown of columns.
pub open spec fn shown_row(state: StateModel, columns: Seq<ColumnRef>) -> RowModel {
    Seq::new(columns.len(), |k: int| shown(state, columns[k]))
}

/// What is shown of columns of each of the joined rows.
pub open spec fn shown_rows(states: Seq<StateModel>, columns: Seq<ColumnRef>) -> Seq<RowModel> {
    Seq::new(states.len(), |i: int| shown_row(states[i], columns))
}

/// The tables of all columns are among the joined ones.
pub open spec fn knows(state: StateModel, columns: Seq<ColumnRef>) -> bool {
    forall|k: int| 0 <= k < columns.len() ==> state.contains_key((#[trigger] columns[k]).table)
}

/// The columns that are sorted by.
pub open spec fn order_columns(order_by: Seq<OrderModel>) -> Seq<ColumnRef> {
    Seq::new(order_by.len(), |k: int| order_by[k].expr)
}

/// All joined rows know the columns that are shown and sorted by.
pub open spec fn all_known(
    states: Seq<StateModel>,
    columns: Seq<ColumnRef>,
    order_by: Seq<OrderModel>,
) -> bool {
    forall|i: int|
        0 <= i < states.len() ==> knows(#[trigger] states[i], columns) && knows(
            states[i],
            order_columns(order_by),
        )
}

/// Law: of each column what the joined rows hold of it is shown, NULL where
/// they hold nothing.
pub proof fn law_columns_are_shown(state: StateModel, columns: Seq<ColumnRef>, context: Seq<char>)
    requires
        knows(state, columns),
    ensures
        projection::cells(state, columns, context) == Ok::<RowModel, ErrorModel>(
            shown_row(state, columns),
        ),
    decreases columns.len(),
{
    if columns.len() == 0 {
        assert(shown_row(state, columns) =~= Seq::empty());
    } else {
        let rest = columns.drop_last();
        assert forall|k: int| 0 <= k < rest.len() implies state.contains_key(
            (#[trigger] rest[k]).table,
        ) by {
            assert(rest[k] == columns[k]);
        }
        law_columns_are_shown(state, rest, context);
        assert(state.contains_key(columns[columns.len() - 1].table));
        assert(shown_row(state, columns) =~= shown_row(state, rest).push(
            shown(state, columns.last()),
        ));
    }
}

/// Law: a column of a table that is not among the joined ones is an error.
pub proof fn law_unknown_column_is_refused(
    state: StateModel,
    columns: Seq<ColumnRef>,
    context: Seq<char>,
)
    requires
        !knows(state, columns),
    ensures
        projection::cells(state, columns, context) is Err,
    decreases columns.len(),
{
    let k = choose|k: int|
        0 <= k < columns.len() && !state.contains_key((#[trigger] columns[k]).table);
    if k < columns.len() - 1 {
        let rest = columns.drop_last();
        assert(rest[k] == columns[k]);
        law_unknown_column_is_refused(state, rest, context);
    }
}

/// The first place at which two sort keys differ has, in `a`, the value that
/// its direction puts first.
pub open spec fn sorts_at(
    a: Seq<ValueModel>,
    b: Seq<ValueModel>,
    directions: Seq<SortDirection>,
    m: int,
) -> bool {
    &&& 0 <= m < directions.len()
    &&& forall|j: int| 0 <= j < m ==> a[j] == b[j]
    &&& match directions[m] {
        SortDirection::Asc => comes_before(a[m], b[m]),
        SortDirection::Desc => comes_before(b[m], a[m]),
    }
}

/// One sort key comes before another.
pub open spec fn sorts_before(
    a: Seq<ValueModel>,
    b: Seq<ValueModel>,
    directions: Seq<SortDirection>,
) -> bool {
    exists|m: int| #[trigger] sorts_at(a, b, directions, m)
}

/// `p` lists the places of `keys`, each once, so that the keys are sorted and
/// equal ones stay as they stood.
pub open spec fn is_sorting(
    p: Seq<int>,
    keys: Seq<Seq<ValueModel>>,
    directions: Seq<SortDirection>,
) -> bool {
    &&& p.no_duplicates()
    &&& forall|i: int| #[trigger] p.contains(i) <==> 0 <= i < keys.len()
    &&& forall|k: int, l: int|
        0 <= k < l < p.len() ==> sorts_before(
            keys[#[trigger] p[k]],
            keys[#[trigger] p[l]],
            directions,
        ) || (keys[p[k]] == keys[p[l]] && p[k] < p[l])
}

/// Keys of one length compare by the first place that differs.
proof fn lemma_keys_compare(
    a: Seq<ValueModel>,
    b: Seq<ValueModel>,
    directions: Seq<SortDirection>,
    from: int,
)
    requires
        a.len() == directions.len(),
        b.len() == directions.len(),
        0 <= from <= directions.len(),
        forall|j: int| 0 <= j < from ==> a[j] == b[j],
    ensures
        sorting::compared_from(a, b, directions, from) == Comparison::Less ==> sorts_before(
            a,
            b,
            directions,
        ),
        sorting::compared_from(a, b, directions, from) == Comparison::Equal ==> a == b,
    decreases directions.len() - from,
{
    if from < directions.len() {
        let x = a[from];
        let y = b[from];
        value_laws::law_values_are_ordered(x, y);
        value_laws::law_values_are_ordered(y, x);
        value_laws::law_one_value_comes_first(x, y);
        if x == y {
            lemma_keys_compare(a, b, directions, from + 1);
        } else if sorting::compared_from(a, b, directions, from) == Comparison::Less {
            assert(sorts_at(a, b, directions, from));
        }
    } else {
        assert(a =~= b);
    }
}

/// Sorting by keys of one length is what it should be.
pub proof fn lemma_sort_order(keys: Seq<Seq<ValueModel>>, directions: Seq<SortDirection>)
    requires
        forall|i: int| 0 <= i < keys.len() ==> (#[trigger] keys[i]).len() == directions.len(),
    ensures
        is_sorting(sorting::sort_order(keys, directions), keys, directions),
{
    let p = sorting::sort_order(keys, directions);
    sorting::law_sort_order(keys, directions);
    assert forall|k: int, l: int| 0 <= k < l < p.len() implies sorts_before(
        keys[#[trigger] p[k]],
        keys[#[trigger] p[l]],
        directions,
    ) || (keys[p[k]] == keys[p[l]] && p[k] < p[l]) by {
        assert(sorting::precedes(keys, directions, p[k], p[l]));
        lemma_keys_compare(keys[p[k]], keys[p[l]], directions, 0);
    }
    assert forall|k: int, l: int| 0 <= k < p.len() && 0 <= l < p.len() && k != l implies p[k]
        != p[l] by {
        sorting::law_precedes_total(keys, directions, p[k], p[k], p[k]);
        if k < l {
            assert(sorting::precedes(keys, directions, p[k], p[l]));
        } else {
            assert(sorting::precedes(keys, directions, p[l], p[k]));
        }
    }
    assert forall|i: int| #[trigger] p.contains(i) <==> 0 <= i < keys.len() by {
        if p.contains(i) {
            let k = choose|k: int| 0 <= k < p.len() && p[k] == i;
            assert(0 <= p[k] < keys.len());
        }
    }
}

/// The directions that are sorted in.
pub open spec fn order_directions(order_by: Seq<OrderModel>) -> Seq<SortDirection> {
    Seq::new(order_by.len(), |k: int| order_by[k].direction)
}

/// What joined rows are sorted by.
pub open spec fn sort_keys(states: Seq<StateModel>, order_by: Seq<OrderModel>) -> Seq<
    Seq<ValueModel>,
> {
    Seq::new(states.len(), |i: int| shown_row(states[i], order_columns(order_by)))
}

/// A selection without condition that does not group gives what its columns show,
/// each with its sort key, to the sorter.
proof fn lemma_keyed(
    states: Seq<StateModel>,
    columns: Seq<ColumnRef>,
    order_by: Seq<OrderModel>,
)
    requires
        all_known(states, columns, order_by),
    ensures
        plain::collected(states, select_pipeline::keyed_row(columns, order_by)) == Ok::<
            Seq<KeyedModel>,
            ErrorModel,
        >(
            Seq::new(
                states.len(),
                |i: int|
                    (
                        shown_row(states[i], order_columns(order_by)),
                        shown_row(states[i], columns),
                    ),
            ),
        ),
    decreases states.len(),
{
    let wanted = Seq::new(
        states.len(),
        |i: int|
            (shown_row(states[i], order_columns(order_by)), shown_row(states[i], columns)),
    );
    if states.len() == 0 {
        assert(wanted =~= Seq::empty());
    } else {
        let rest = states.drop_last();
        let n = states.len() - 1;
        assert forall|i: int| 0 <= i < rest.len() implies knows(#[trigger] rest[i], columns)
            && knows(rest[i], order_columns(order_by)) by {
            assert(rest[i] == states[i]);
        }
        lemma_keyed(rest, columns, order_by);
        assert(knows(states[n], columns) && knows(states[n], order_columns(order_by)));
        assert(select_pipeline::sort_columns(order_by) =~= order_columns(order_by));
        law_columns_are_shown(states[n], columns, "projection references unknown table "@);
        law_columns_are_shown(
            states[n],
            order_columns(order_by),
            "ORDER BY references unknown table "@,
        );
        let before = Seq::new(
            rest.len(),
            |i: int| (shown_row(rest[i], order_columns(order_by)), shown_row(rest[i], columns)),
        );
        assert(wanted =~= before.push(wanted[n]));
    }
}

/// The options without a slice.
pub open spec fn unsliced(options: OptionsModel) -> OptionsModel {
    OptionsModel { limit: None, offset: None, ..options }
}

/// Neither grouped nor aggregated.
pub open spec fn is_plain(options: OptionsModel) -> bool {
    options.group_by.len() == 0 && options.aggregates.len() == 0
}

/// Law: a selection shows the columns it names of every joined row, sorted by
/// the columns of its ORDER BY clause: ascending where it says ASC, descending
/// where it says DESC, the first column that differs decides, and rows that
/// agree in all of them stay in the order in which they stood. Without such a
/// clause all stay in that order.
pub proof fn law_rows_are_sorted<F: Fn(FloatOp) -> u64>(
    f: F,
    states: Seq<StateModel>,
    columns: Seq<ColumnRef>,
    options: OptionsModel,
    cache: CacheModel,
)
    requires
        is_plain(options),
        !options.distinct,
        options.limit is None,
        options.offset is None,
        all_known(states, columns, options.order_by),
    ensures
        exists|p: Seq<int>| #[trigger]
            is_sorting(
                p,
                sort_keys(states, options.order_by),
                order_directions(options.order_by),
            ) && select_orchestrator::selected_rows(f, states, columns, None, options, cache)
                == Ok::<Seq<RowModel>, ErrorModel>(
                Seq::new(p.len(), |k: int| shown_row(states[p[k]], columns)),
            ),
{
    let order_by = options.order_by;
    let keys = sort_keys(states, order_by);
    let directions = order_directions(order_by);
    lemma_keyed(states, columns, order_by);
    let keyed = plain::collected(states, select_pipeline::keyed_row(columns, order_by))->Ok_0;
    let result = select_orchestrator::selected_rows(f, states, columns, None, options, cache);
    assert(sorter::keys_of(keyed) =~= keys);
    assert(sorter::directions_of(order_by) =~= directions);
    if order_by.len() == 0 {
        let p = Seq::new(states.len(), |i: int| i);
        assert forall|i: int| #[trigger] p.contains(i) <==> 0 <= i < keys.len() by {
            if 0 <= i < keys.len() {
                assert(p[i] == i);
            }
        }
        assert forall|k: int, l: int| 0 <= k < l < p.len() implies sorts_before(
            keys[#[trigger] p[k]],
            keys[#[trigger] p[l]],
            directions,
        ) || (keys[p[k]] == keys[p[l]] && p[k] < p[l]) by {
            assert(keys[k] =~= keys[l]);
        }
        assert(is_sorting(p, keys, directions));
        assert(result->Ok_0 =~= Seq::new(p.len(), |k: int| shown_row(states[p[k]], columns)));
    } else {
        lemma_sort_order(keys, directions);
        let p = sorting::sort_order(keys, directions);
        assert forall|k: int| 0 <= k < p.len() implies 0 <= #[trigger] p[k] < keys.len() by {
            assert(p.contains(p[k]));
        }
        assert(result->Ok_0 =~= Seq::new(p.len(), |k: int| shown_row(states[p[k]], columns)));
    }
}

/// The joined rows that meet a condition, in order.
pub open spec fn meeting(
    states: Seq<StateModel>,
    condition: PredicateModel,
    cache: CacheModel,
) -> Seq<StateModel> {
    states.filter(|state: StateModel| predicate::holds(condition, state, cache))
}

proof fn lemma_kept_is_filtered<A>(list: Seq<A>, p: spec_fn(A) -> bool, q: spec_fn(A) -> bool)
    requires
        forall|a: A| #[trigger] p(a) == q(a),
    ensures
        store_helpers::kept(list, p) == list.filter(q),
    decreases list.len(),
{
    reveal(Seq::filter);
    if list.len() > 0 {
        lemma_kept_is_filtered(list.drop_last(), p, q);
    } else {
        assert(list =~= Seq::empty());
    }
}

/// Filtering keeps the joined rows that meet the condition.
pub proof fn lemma_meeting(
    states: Seq<StateModel>,
    condition: PredicateModel,
    cache: CacheModel,
)
    ensures
        select_orchestrator::filtered(states, Some(condition), cache) == meeting(
            states,
            condition,
            cache,
        ),
{
    lemma_kept_is_filtered(
        states,
        select_pipeline::meets(condition, cache),
        |state: StateModel| predicate::holds(condition, state, cache),
    );
}

/// Law: a selection with a condition is that without one, of the joined rows
/// that meet it.
pub proof fn law_condition_filters<F: Fn(FloatOp) -> u64>(
    f: F,
    states: Seq<StateModel>,
    columns: Seq<ColumnRef>,
    condition: PredicateModel,
    options: OptionsModel,
    cache: CacheModel,
)
    ensures
        select_orchestrator::selected_rows(f, states, columns, Some(condition), options, cache)
            == select_orchestrator::selected_rows(
            f,
            meeting(states, condition, cache),
            columns,
            None,
            options,
            cache,
        ),
{
    lemma_meeting(states, condition, cache);
}

/// `part` is what is left of `all` from the offset on, no more than the limit.
pub open spec fn is_slice<A>(
    part: Seq<A>,
    all: Seq<A>,
    limit: Option<usize>,
    offset: Option<usize>,
) -> bool {
    let skipped = match offset {
        Some(n) => n as int,
        None => 0,
    };
    let left = if skipped < all.len() {
        all.len() - skipped
    } else {
        0
    };
    &&& part.len() == match limit {
        Some(n) if n < left => n as int,
        _ => left,
    }
    &&& forall|k: int| 0 <= k < part.len() ==> #[trigger] part[k] == all[k + skipped]
}

/// Law: OFFSET leaves out as many rows as it says, LIMIT gives no more than it
/// says of the rest. What is left is as it would be without them.
pub proof fn law_limit_and_offset_slice<F: Fn(FloatOp) -> u64>(
    f: F,
    states: Seq<StateModel>,
    columns: Seq<ColumnRef>,
    options: OptionsModel,
    cache: CacheModel,
)
    ensures
        ({
            let all = select_orchestrator::selected_rows(
                f,
                states,
                columns,
                None,
                unsliced(options),
                cache,
            );
            let part = select_orchestrator::selected_rows(f, states, columns, None, options, cache);
            match (part, all) {
                (Ok(part), Ok(all)) => is_slice(part, all, options.limit, options.offset),
                (Err(e), Err(d)) => e == d,
                _ => false,
            }
        }),
{
    let all = select_orchestrator::selected_rows(
        f,
        states,
        columns,
        None,
        unsliced(options),
        cache,
    );
    if all is Ok {
        lemma_sliced(all->Ok_0, options.limit, options.offset);
        assert forall|rows: Seq<RowModel>| #[trigger]
            sorting::sliced(rows, None, None) == rows by {
            assert(rows.skip(0) =~= rows);
        }
    }
}

proof fn lemma_sliced<A>(rows: Seq<A>, limit: Option<usize>, offset: Option<usize>)
    ensures
        is_slice(sorting::sliced(rows, limit, offset), rows, limit, offset),
{
}

/// `q` lists the places at which a row stands for the first time.
pub open spec fn is_first_places(q: Seq<int>, rows: Seq<RowModel>) -> bool {
    &&& forall|k: int, l: int| 0 <= k < l < q.len() ==> #[trigger] q[k] < #[trigger] q[l]
    &&& forall|i: int| #[trigger]
        q.contains(i) <==> 0 <= i < rows.len() && forall|j: int| 0 <= j < i ==> rows[j] != rows[i]
}

/// What is kept of a list of rows are those at their first places.
proof fn lemma_first_places(list: Seq<KeyedModel>) -> (q: Seq<int>)
    ensures
        is_first_places(q, Seq::new(list.len(), |i: int| list[i].1)),
        sorter::distinct_rows(list) == Seq::new(q.len(), |k: int| list[q[k]]),
    decreases list.len(),
{
    let rows = Seq::new(list.len(), |i: int| list[i].1);
    if list.len() == 0 {
        let q = Seq::<int>::empty();
        assert(sorter::distinct_rows(list) =~= Seq::new(q.len(), |k: int| list[q[k]]));
        q
    } else {
        let rest = list.drop_last();
        let n = list.len() - 1;
        let init = Seq::new(rest.len(), |i: int| rest[i].1);
        let q = lemma_first_places(rest);
        let before = sorter::distinct_rows(rest);
        assert forall|k: int| 0 <= k < q.len() implies 0 <= #[trigger] q[k] < n && rest[q[k]]
            == list[q[k]] by {
            assert(q.contains(q[k]));
        }
        assert(before =~= Seq::new(q.len(), |k: int| list[q[k]]));
        let is_new = forall|j: int| 0 <= j < n ==> rows[j] != rows[n];
        assert(sorter::holds_row(before, list.last().1) == !is_new) by {
            sorter::law_distinct_rows(rest);
            assert(sorter::holds_row(rest, list.last().1) == sorter::holds_row(
                before,
                list.last().1,
            ));
            if sorter::holds_row(rest, list.last().1) {
                let j = choose|j: int| 0 <= j < rest.len() && (#[trigger] rest[j]).1
                    == list.last().1;
                assert(rows[j] == rows[n]);
            }
            if !is_new {
                let j = choose|j: int| 0 <= j < n && rows[j] == rows[n];
                assert(rest[j].1 == list.last().1);
            }
        }
        assert forall|i: int| 0 <= i < n implies (forall|j: int| 0 <= j < i ==> init[j] != init[i])
            == (forall|j: int| 0 <= j < i ==> rows[j] != #[trigger] rows[i]) by {
            assert forall|j: int| 0 <= j < n implies init[j] == rows[j] by {}
            if forall|j: int| 0 <= j < i ==> init[j] != init[i] {
                assert forall|j: int| 0 <= j < i implies rows[j] != rows[i] by {
                    assert(init[j] != init[i]);
                }
            }
            if forall|j: int| 0 <= j < i ==> rows[j] != rows[i] {
                assert forall|j: int| 0 <= j < i implies init[j] != init[i] by {
                    assert(rows[j] != rows[i]);
                }
            }
        }
        let next = if is_new {
            q.push(n)
        } else {
            q
        };
        assert forall|i: int| #[trigger]
            next.contains(i) <==> 0 <= i < rows.len() && forall|j: int|
                0 <= j < i ==> rows[j] != rows[i] by {
            assert(q.contains(i) <==> 0 <= i < init.len() && forall|j: int|
                0 <= j < i ==> init[j] != init[i]);
            if next.contains(i) {
                let k = choose|k: int| 0 <= k < next.len() && next[k] == i;
                if k < q.len() {
                    assert(q[k] == i);
                    assert(q.contains(i));
                    assert(rows[i] == init[i]);
                }
            }
            if 0 <= i < rows.len() && forall|j: int| 0 <= j < i ==> rows[j] != rows[i] {
                if i < n {
                    assert(rows[i] == init[i]);
                    assert(q.contains(i));
                    let k = choose|k: int| 0 <= k < q.len() && q[k] == i;
                    assert(next[k] == i);
                } else {
                    assert(is_new);
                    assert(next[q.len() as int] == i);
                }
            }
        }
        assert(sorter::distinct_rows(list) =~= Seq::new(next.len(), |k: int| list[next[k]]));
        next
    }
}

/// Law: DISTINCT leaves out of the joined rows those that show what one before
/// them shows, and changes nothing else.
pub proof fn law_distinct_drops_repetitions<F: Fn(FloatOp) -> u64>(
    f: F,
    states: Seq<StateModel>,
    columns: Seq<ColumnRef>,
    options: OptionsModel,
    cache: CacheModel,
)
    requires
        is_plain(options),
        options.distinct,
        all_known(states, columns, options.order_by),
    ensures
        exists|q: Seq<int>| #[trigger]
            is_first_places(q, shown_rows(states, columns))
                && select_orchestrator::selected_rows(f, states, columns, None, options, cache)
                == select_orchestrator::selected_rows(
                f,
                Seq::new(q.len(), |k: int| states[q[k]]),
                columns,
                None,
                OptionsModel { distinct: false, ..options },
                cache,
            ),
{
    let order_by = options.order_by;
    lemma_keyed(states, columns, order_by);
    let keyed = plain::collected(states, select_pipeline::keyed_row(columns, order_by))->Ok_0;
    let q = lemma_first_places(keyed);
    let rows = shown_rows(states, columns);
    assert(Seq::new(keyed.len(), |i: int| keyed[i].1) =~= rows);
    assert(is_first_places(q, rows));
    let fewer = Seq::new(q.len(), |k: int| states[q[k]]);
    assert forall|k: int| 0 <= k < q.len() implies 0 <= #[trigger] q[k] < states.len() by {
        assert(q.contains(q[k]));
    }
    assert forall|i: int| 0 <= i < fewer.len() implies knows(#[trigger] fewer[i], columns)
        && knows(fewer[i], order_columns(order_by)) by {
        assert(0 <= q[i] < states.len());
        assert(fewer[i] == states[q[i]]);
    }
    lemma_keyed(fewer, columns, order_by);
    let kept = plain::collected(fewer, select_pipeline::keyed_row(columns, order_by))->Ok_0;
    assert(kept =~= sorter::distinct_rows(keyed));
}

} // verus!
