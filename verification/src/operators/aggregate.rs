//! Grouping and aggregation.
use vstd::prelude::*;
use crate::error::{schema_mismatch, EngineError, ErrorModel};
use crate::float::{self, compute, FloatOp};
use crate::operators::sorter::{self, directions, sort_keyed, KeyedRow};
use crate::order::{self, Comparison};
use crate::plain::{self, no_items, push_back, Plain};
use crate::predicate::{
    self, eval_having_predicate, find_place, JoinedRowState, RowContext, StateModel,
};
use crate::projection::{self, read_cells};
use crate::query::{
    Aggregate, AggregateModel, ColumnRef, HavingModel, HavingPredicate, OrderBy, OrderModel,
    QualifiedColumn,
};
use crate::sorting::{self, slice_rows};
use crate::value::{self, EngineRow, EngineValue, ValueModel};

verus! {

/// Joined rows as the aggregator reads them.
pub type PartialRow = JoinedRowState;

/// What an aggregate has come to so far.
enum AggState {
    Count(u64),
    Sum(u64),
    Min(Option<EngineValue>),
    Max(Option<EngineValue>),
    Avg { sum: u64, count: u64 },
}

/// What an aggregate has come to so far, mathematically.
#[verifier::ext_equal]
pub enum AggModel {
    Count(nat),
    Sum(u64),
    Min(Option<ValueModel>),
    Max(Option<ValueModel>),
    Avg { sum: u64, count: nat },
}

impl DeepView for AggState {
    type V = AggModel;

    closed spec fn deep_view(&self) -> AggModel {
        match self {
            AggState::Count(c) => AggModel::Count(*c as nat),
            AggState::Sum(s) => AggModel::Sum(*s),
            AggState::Min(v) => AggModel::Min(v.deep_view()),
            AggState::Max(v) => AggModel::Max(v.deep_view()),
            AggState::Avg { sum, count } => AggModel::Avg { sum: *sum, count: *count as nat },
        }
    }
}

/// The column that an aggregate reads, if it reads one.
pub open spec fn aggregate_column(a: AggregateModel) -> Option<ColumnRef> {
    match a {
        AggregateModel::Count(column) => column,
        AggregateModel::Sum(column) => Some(column),
        AggregateModel::Min(column) => Some(column),
        AggregateModel::Max(column) => Some(column),
        AggregateModel::Avg(column) => Some(column),
    }
}

/// What an aggregate is before the first row.
pub open spec fn aggregate_start(a: AggregateModel) -> AggModel {
    match a {
        AggregateModel::Count(_) => AggModel::Count(0),
        AggregateModel::Sum(_) => AggModel::Sum(0),
        AggregateModel::Min(_) => AggModel::Min(None),
        AggregateModel::Max(_) => AggModel::Max(None),
        AggregateModel::Avg(_) => AggModel::Avg { sum: 0, count: 0 },
    }
}

/// A value as a double, if it is a number.
pub open spec fn number_of<F: Fn(FloatOp) -> u64>(f: F, v: ValueModel) -> Option<u64> {
    match v {
        ValueModel::Integer(i) => Some(float::float_value(f, FloatOp::OfInteger(i))),
        ValueModel::Float(b) => Some(b),
        _ => None,
    }
}

/// What an aggregate becomes with one more row, whose column holds `v`.
pub open spec fn aggregate_step<F: Fn(FloatOp) -> u64>(
    f: F,
    a: AggregateModel,
    state: AggModel,
    v: Option<ValueModel>,
) -> AggModel {
    match (a, state) {
        (AggregateModel::Count(column), AggModel::Count(c)) => if column is None || (v is Some && v
            != Some(ValueModel::Null)) {
            AggModel::Count(c + 1)
        } else {
            state
        },
        (AggregateModel::Sum(_), AggModel::Sum(s)) => match v {
            Some(x) => match number_of(f, x) {
                Some(n) => AggModel::Sum(float::float_value(f, FloatOp::Sum(s, n))),
                None => state,
            },
            None => state,
        },
        (AggregateModel::Min(_), AggModel::Min(best)) => match (v, best) {
            (Some(x), Some(y)) => if order::comparison(x, y, value::value_less())
                == Comparison::Less {
                AggModel::Min(Some(x))
            } else {
                state
            },
            (Some(x), None) => AggModel::Min(Some(x)),
            (None, _) => state,
        },
        (AggregateModel::Max(_), AggModel::Max(best)) => match (v, best) {
            (Some(x), Some(y)) => if order::comparison(x, y, value::value_less())
                == Comparison::Greater {
                AggModel::Max(Some(x))
            } else {
                state
            },
            (Some(x), None) => AggModel::Max(Some(x)),
            (None, _) => state,
        },
        (AggregateModel::Avg(_), AggModel::Avg { sum, count }) => match v {
            Some(x) => match number_of(f, x) {
                Some(n) => AggModel::Avg {
                    sum: float::float_value(f, FloatOp::Sum(sum, n)),
                    count: count + 1,
                },
                None => state,
            },
            None => state,
        },
        _ => state,
    }
}

/// The value that an aggregate reads from joined rows.
pub open spec fn aggregate_input(a: AggregateModel, state: StateModel) -> Option<ValueModel> {
    match aggregate_column(a) {
        Some(column) => predicate::column_value(state, column),
        None => None,
    }
}

/// What an aggregate comes to over joined rows.
pub open spec fn aggregate_over<F: Fn(FloatOp) -> u64>(
    f: F,
    a: AggregateModel,
    states: Seq<StateModel>,
) -> AggModel
    decreases states.len(),
{
    if states.len() == 0 {
        aggregate_start(a)
    } else {
        aggregate_step(
            f,
            a,
            aggregate_over(f, a, states.drop_last()),
            aggregate_input(a, states.last()),
        )
    }
}

/// The value of an aggregate.
pub open spec fn aggregate_value<F: Fn(FloatOp) -> u64>(f: F, state: AggModel) -> ValueModel {
    match state {
        AggModel::Count(c) => ValueModel::Integer((c as u64) as i64),
        AggModel::Sum(s) => ValueModel::Float(s),
        AggModel::Min(Some(v)) => v,
        AggModel::Min(None) => ValueModel::Null,
        AggModel::Max(Some(v)) => v,
        AggModel::Max(None) => ValueModel::Null,
        AggModel::Avg { sum, count } => if count == 0 {
            ValueModel::Null
        } else {
            ValueModel::Float(
                float::float_value(
                    f,
                    FloatOp::Quotient(
                        sum,
                        float::float_value(f, FloatOp::OfCount(count as u64)),
                    ),
                ),
            )
        },
    }
}

/// How many rows an aggregate has counted.
spec fn rows_counted(state: AggModel) -> nat {
    match state {
        AggModel::Count(c) => c,
        AggModel::Avg { count, .. } => count,
        _ => 0,
    }
}

proof fn lemma_rows_counted<F: Fn(FloatOp) -> u64>(
    f: F,
    a: AggregateModel,
    states: Seq<StateModel>,
)
    ensures
        rows_counted(aggregate_over(f, a, states)) <= states.len(),
    decreases states.len(),
{
    if states.len() > 0 {
        lemma_rows_counted(f, a, states.drop_last());
    }
}

/// A value as a double, if it is a number.
fn to_double<F: Fn(FloatOp) -> u64>(float: &F, v: &EngineValue) -> (r: Option<u64>)
    requires
        float::is_float_unit(*float),
    ensures
        r == number_of(*float, v.deep_view()),
{
    match v {
        EngineValue::Integer(i) => Some(compute(float, FloatOp::OfInteger(*i))),
        EngineValue::Float(b) => Some(*b),
        _ => None,
    }
}

impl AggState {
    fn new_for(agg: &Aggregate) -> (r: AggState)
        ensures
            r.deep_view() == aggregate_start(agg.deep_view()),
    {
        match agg {
            Aggregate::Count(_) => AggState::Count(0),
            Aggregate::Sum(_) => AggState::Sum(0),
            Aggregate::Min(_) => AggState::Min(None),
            Aggregate::Max(_) => AggState::Max(None),
            Aggregate::Avg(_) => AggState::Avg { sum: 0, count: 0 },
        }
    }

    /// Takes one more row into account, whose column holds `value`.
    fn update<F: Fn(FloatOp) -> u64>(
        &mut self,
        agg: &Aggregate,
        value: Option<&EngineValue>,
        float: &F,
    )
        requires
            float::is_float_unit(*float),
            rows_counted(old(self).deep_view()) < u64::MAX,
        ensures
            final(self).deep_view() == aggregate_step(
                *float,
                agg.deep_view(),
                old(self).deep_view(),
                value.deep_view(),
            ),
    {
        match (agg, &*self) {
            (Aggregate::Count(column), AggState::Count(c)) => {
                let counts = match (column, value) {
                    (None, _) => true,
                    (Some(_), Some(EngineValue::Null)) => false,
                    (Some(_), Some(_)) => true,
                    (Some(_), None) => false,
                };
                if counts {
                    let more: u64 = *c + 1;
                    *self = AggState::Count(more);
                }
            },
            (Aggregate::Sum(_), AggState::Sum(s)) => {
                if let Some(v) = value {
                    if let Some(n) = to_double(float, v) {
                        let sum: u64 = compute(float, FloatOp::Sum(*s, n));
                        *self = AggState::Sum(sum);
                    }
                }
            },
            (Aggregate::Min(_), AggState::Min(best)) => {
                if let Some(v) = value {
                    let better = match best {
                        Some(b) => matches!(v.compare(b), Comparison::Less),
                        None => true,
                    };
                    if better {
                        *self = AggState::Min(Some(v.duplicate()));
                    }
                }
            },
            (Aggregate::Max(_), AggState::Max(best)) => {
                if let Some(v) = value {
                    let better = match best {
                        Some(b) => matches!(v.compare(b), Comparison::Greater),
                        None => true,
                    };
                    if better {
                        *self = AggState::Max(Some(v.duplicate()));
                    }
                }
            },
            (Aggregate::Avg(_), AggState::Avg { sum, count }) => {
                if let Some(v) = value {
                    if let Some(n) = to_double(float, v) {
                        let total: u64 = compute(float, FloatOp::Sum(*sum, n));
                        let more: u64 = *count + 1;
                        *self = AggState::Avg { sum: total, count: more };
                    }
                }
            },
            _ => {},
        }
    }

    fn finish<F: Fn(FloatOp) -> u64>(&self, float: &F) -> (r: EngineValue)
        requires
            float::is_float_unit(*float),
        ensures
            r.deep_view() == aggregate_value(*float, self.deep_view()),
    {
        match self {
            AggState::Count(c) => EngineValue::Integer(*c as i64),
            AggState::Sum(s) => EngineValue::Float(*s),
            AggState::Min(Some(v)) => v.duplicate(),
            AggState::Min(None) => EngineValue::Null,
            AggState::Max(Some(v)) => v.duplicate(),
            AggState::Max(None) => EngineValue::Null,
            AggState::Avg { sum, count } => {
                if *count == 0 {
                    EngineValue::Null
                } else {
                    let n: u64 = compute(float, FloatOp::OfCount(*count));
                    EngineValue::Float(compute(float, FloatOp::Quotient(*sum, n)))
                }
            },
        }
    }
}

/// What a grouping error says before the table's name.
pub open spec fn group_context() -> Seq<char> {
    "group_by references unknown table "@
}

/// The values by which each of the joined rows is grouped.
pub open spec fn group_keys(states: Seq<StateModel>, group_by: Seq<ColumnRef>) -> Result<
    Seq<Seq<ValueModel>>,
    ErrorModel,
>
    decreases states.len(),
{
    if states.len() == 0 {
        Ok(Seq::empty())
    } else {
        match group_keys(states.drop_last(), group_by) {
            Err(e) => Err(e),
            Ok(before) => match projection::cells(states.last(), group_by, group_context()) {
                Err(e) => Err(e),
                Ok(key) => Ok(before.push(key)),
            },
        }
    }
}

proof fn lemma_group_keys_prefix(states: Seq<StateModel>, group_by: Seq<ColumnRef>, n: int)
    requires
        0 <= n <= states.len(),
        group_keys(states.take(n), group_by) is Err,
    ensures
        group_keys(states, group_by) == group_keys(states.take(n), group_by),
    decreases states.len() - n,
{
    if n < states.len() {
        assert(states.take(n + 1).drop_last() =~= states.take(n));
        lemma_group_keys_prefix(states, group_by, n + 1);
    } else {
        assert(states.take(n) =~= states);
    }
}

/// The keys, each at its first occurrence.
pub open spec fn distinct_keys(keys: Seq<Seq<ValueModel>>) -> Seq<Seq<ValueModel>>
    decreases keys.len(),
{
    if keys.len() == 0 {
        Seq::empty()
    } else {
        let before = distinct_keys(keys.drop_last());
        if before.contains(keys.last()) {
            before
        } else {
            before.push(keys.last())
        }
    }
}

/// The joined rows that are grouped under `key`.
pub open spec fn members(
    states: Seq<StateModel>,
    keys: Seq<Seq<ValueModel>>,
    key: Seq<ValueModel>,
) -> Seq<StateModel>
    decreases states.len(),
{
    if states.len() == 0 || keys.len() == 0 {
        Seq::empty()
    } else {
        let before = members(states.drop_last(), keys.drop_last(), key);
        if keys.last() == key {
            before.push(states.last())
        } else {
            before
        }
    }
}

/// What each aggregate comes to over joined rows.
pub open spec fn aggregates_over<F: Fn(FloatOp) -> u64>(
    f: F,
    aggregates: Seq<AggregateModel>,
    states: Seq<StateModel>,
) -> Seq<AggModel> {
    Seq::new(aggregates.len(), |j: int| aggregate_over(f, aggregates[j], states))
}

/// The groups, in the order in which they first occur, each with what its
/// aggregates come to.
pub open spec fn groups_of<F: Fn(FloatOp) -> u64>(
    f: F,
    aggregates: Seq<AggregateModel>,
    states: Seq<StateModel>,
    keys: Seq<Seq<ValueModel>>,
) -> Seq<(Seq<ValueModel>, Seq<AggModel>)> {
    distinct_keys(keys).map_values(
        |key: Seq<ValueModel>|
            (key, aggregates_over(f, aggregates, members(states, keys, key))),
    )
}

/// The keys at their first occurrence are the keys, each once.
pub proof fn lemma_distinct_keys(keys: Seq<Seq<ValueModel>>)
    ensures
        distinct_keys(keys).no_duplicates(),
        forall|key: Seq<ValueModel>| #[trigger]
            distinct_keys(keys).contains(key) <==> keys.contains(key),
    decreases keys.len(),
{
    if keys.len() > 0 {
        let init = keys.drop_last();
        let before = distinct_keys(init);
        let after = distinct_keys(keys);
        lemma_distinct_keys(init);
        assert forall|key: Seq<ValueModel>| #[trigger]
            after.contains(key) <==> keys.contains(key) by {
            if keys.contains(key) {
                let i = choose|i: int| 0 <= i < keys.len() && keys[i] == key;
                if i < init.len() {
                    assert(init[i] == key);
                    assert(before.contains(key));
                    let k = choose|k: int| 0 <= k < before.len() && before[k] == key;
                    assert(after[k] == key);
                } else if !before.contains(key) {
                    assert(after[before.len() as int] == key);
                }
            }
            if after.contains(key) {
                let k = choose|k: int| 0 <= k < after.len() && after[k] == key;
                if k < before.len() {
                    assert(before[k] == key);
                    assert(before.contains(key));
                    let i = choose|i: int| 0 <= i < init.len() && init[i] == key;
                    assert(keys[i] == key);
                } else {
                    assert(keys[keys.len() - 1] == key);
                }
            }
        }
    }
}

/// Nothing is grouped under a key that does not occur.
pub proof fn lemma_no_members(
    states: Seq<StateModel>,
    keys: Seq<Seq<ValueModel>>,
    key: Seq<ValueModel>,
)
    requires
        !keys.contains(key),
    ensures
        members(states, keys, key).len() == 0,
    decreases states.len(),
{
    if states.len() > 0 && keys.len() > 0 {
        assert(keys[keys.len() - 1] != key);
        assert(!keys.drop_last().contains(key)) by {
            if keys.drop_last().contains(key) {
                let i = choose|i: int|
                    0 <= i < keys.drop_last().len() && keys.drop_last()[i] == key;
                assert(keys[i] == key);
            }
        }
        lemma_no_members(states.drop_last(), keys.drop_last(), key);
    }
}

proof fn lemma_members_len(
    states: Seq<StateModel>,
    keys: Seq<Seq<ValueModel>>,
    key: Seq<ValueModel>,
)
    ensures
        members(states, keys, key).len() <= states.len(),
    decreases states.len(),
{
    if states.len() > 0 && keys.len() > 0 {
        lemma_members_len(states.drop_last(), keys.drop_last(), key);
    }
}

/// What aggregates become with one more row.
spec fn stepped<F: Fn(FloatOp) -> u64>(
    f: F,
    aggregates: Seq<AggregateModel>,
    before: Seq<AggModel>,
    state: StateModel,
) -> Seq<AggModel> {
    Seq::new(
        aggregates.len(),
        |j: int|
            aggregate_step(f, aggregates[j], before[j], aggregate_input(aggregates[j], state)),
    )
}

/// One more row of a group that is there already changes that group alone.
proof fn lemma_groups_update<F: Fn(FloatOp) -> u64>(
    f: F,
    aggregates: Seq<AggregateModel>,
    states: Seq<StateModel>,
    keys: Seq<Seq<ValueModel>>,
    state: StateModel,
    g: int,
)
    requires
        states.len() == keys.len(),
        0 <= g < distinct_keys(keys).len(),
    ensures
        groups_of(f, aggregates, states.push(state), keys.push(distinct_keys(keys)[g]))
            == groups_of(f, aggregates, states, keys).update(
            g,
            (
                distinct_keys(keys)[g],
                stepped(f, aggregates, groups_of(f, aggregates, states, keys)[g].1, state),
            ),
        ),
{
    let ds = distinct_keys(keys);
    let key = ds[g];
    let keys2 = keys.push(key);
    let states2 = states.push(state);
    lemma_distinct_keys(keys);
    assert(keys2.drop_last() =~= keys);
    assert(states2.drop_last() =~= states);
    assert(ds.contains(key));
    assert(distinct_keys(keys2) == ds);
    let old_groups = groups_of(f, aggregates, states, keys);
    let new_groups = groups_of(f, aggregates, states2, keys2);
    let wanted = old_groups.update(g, (key, stepped(f, aggregates, old_groups[g].1, state)));
    assert forall|h: int| 0 <= h < new_groups.len() implies new_groups[h] == wanted[h] by {
        if h == g {
            let m = members(states, keys, key);
            assert(members(states2, keys2, key) == m.push(state));
            assert(m.push(state).drop_last() =~= m);
            assert(new_groups[g].1 =~= stepped(f, aggregates, old_groups[g].1, state));
        } else {
            assert(ds[h] != key);
            assert(members(states2, keys2, ds[h]) == members(states, keys, ds[h]));
        }
    }
    assert(new_groups =~= wanted);
}

/// A row of a group that is not there yet adds that group.
proof fn lemma_groups_push<F: Fn(FloatOp) -> u64>(
    f: F,
    aggregates: Seq<AggregateModel>,
    states: Seq<StateModel>,
    keys: Seq<Seq<ValueModel>>,
    state: StateModel,
    key: Seq<ValueModel>,
)
    requires
        states.len() == keys.len(),
        !distinct_keys(keys).contains(key),
    ensures
        groups_of(f, aggregates, states.push(state), keys.push(key)) == groups_of(
            f,
            aggregates,
            states,
            keys,
        ).push(
            (
                key,
                stepped(
                    f,
                    aggregates,
                    Seq::new(aggregates.len(), |j: int| aggregate_start(aggregates[j])),
                    state,
                ),
            ),
        ),
{
    let ds = distinct_keys(keys);
    let keys2 = keys.push(key);
    let states2 = states.push(state);
    lemma_distinct_keys(keys);
    assert(keys2.drop_last() =~= keys);
    assert(states2.drop_last() =~= states);
    assert(distinct_keys(keys2) == ds.push(key));
    let starts = Seq::new(aggregates.len(), |j: int| aggregate_start(aggregates[j]));
    let new_groups = groups_of(f, aggregates, states2, keys2);
    let wanted = groups_of(f, aggregates, states, keys).push(
        (key, stepped(f, aggregates, starts, state)),
    );
    assert forall|h: int| 0 <= h < new_groups.len() implies new_groups[h] == wanted[h] by {
        if h == ds.len() {
            lemma_no_members(states, keys, key);
            let m = members(states, keys, key);
            assert(members(states2, keys2, key) == m.push(state));
            assert(m.push(state).drop_last() =~= m);
            assert forall|j: int| 0 <= j < aggregates.len() implies #[trigger] aggregate_over(
                f,
                aggregates[j],
                m,
            ) == aggregate_start(aggregates[j]) by {}
            assert forall|j: int| 0 <= j < aggregates.len() implies new_groups[h].1[j] == stepped(
                f,
                aggregates,
                starts,
                state,
            )[j] by {
                assert(aggregate_over(f, aggregates[j], m) == starts[j]);
            }
            assert(new_groups[h].1 =~= stepped(f, aggregates, starts, state));
        } else {
            assert(ds.contains(ds[h]));
            assert(ds[h] != key);
            assert(members(states2, keys2, ds[h]) == members(states, keys, ds[h]));
        }
    }
    assert(new_groups =~= wanted);
}

type Group = (Vec<EngineValue>, Vec<AggState>);

/// What aggregates become with one more row.
fn step_all<F: Fn(FloatOp) -> u64>(
    aggregates: &Vec<Aggregate>,
    before: Vec<AggState>,
    state: &PartialRow,
    float: &F,
) -> (r: Vec<AggState>)
    requires
        float::is_float_unit(*float),
        before.deep_view().len() == aggregates.deep_view().len(),
        forall|j: int|
            0 <= j < before.deep_view().len() ==> rows_counted(#[trigger] before.deep_view()[j]) < u64::MAX,
    ensures
        r.deep_view() == stepped(
            *float,
            aggregates.deep_view(),
            before.deep_view(),
            state.deep_view(),
        ),
{
    let ghost old_states = before.deep_view();
    let ghost all = aggregates.deep_view();
    let ghost wanted = stepped(*float, all, old_states, state.deep_view());
    let mut states = before;
    let context = RowContext::Joined(state);
    let mut j: usize = 0;
    while j < aggregates.len()
        invariant
            j <= aggregates.len(),
            float::is_float_unit(*float),
            all == aggregates.deep_view(),
            states.len() == aggregates.len(),
            old_states.len() == aggregates.len(),
            context.state() == state.deep_view(),
            wanted == stepped(*float, all, old_states, state.deep_view()),
            forall|k: int|
                0 <= k < old_states.len() ==> rows_counted(#[trigger] old_states[k]) < u64::MAX,
            forall|k: int| 0 <= k < j ==> states.deep_view()[k] == wanted[k],
            forall|k: int| j <= k < states.len() ==> states.deep_view()[k] == old_states[k],
        decreases aggregates.len() - j,
    {
        let agg = &aggregates[j];
        let value: Option<&EngineValue> = match agg {
            Aggregate::Count(None) => None,
            Aggregate::Count(Some(qc)) => context.value_of(qc),
            Aggregate::Sum(qc) => context.value_of(qc),
            Aggregate::Min(qc) => context.value_of(qc),
            Aggregate::Max(qc) => context.value_of(qc),
            Aggregate::Avg(qc) => context.value_of(qc),
        };
        let ghost before_step = states.deep_view();
        proof {
            assert(all[j as int] == agg.deep_view());
            assert(value.deep_view() == aggregate_input(all[j as int], state.deep_view()));
            assert(before_step[j as int] == old_states[j as int]);
            assert(states@[j as int].deep_view() == before_step[j as int]);
        }
        states[j].update(agg, value, float);
        proof {
            assert(states.deep_view() =~= before_step.update(j as int, wanted[j as int]));
        }
        j += 1;
    }
    proof {
        assert(states.deep_view() =~= wanted);
    }
    states
}

/// The place of the group with the given key.
fn find_group(groups: &Vec<Group>, key: &Vec<EngineValue>) -> (r: Option<usize>)
    ensures
        match r {
            Some(g) => g < groups.len() && groups.deep_view()[g as int].0 == key.deep_view(),
            None => forall|g: int|
                0 <= g < groups.len() ==> (#[trigger] groups.deep_view()[g]).0 != key.deep_view(),
        },
{
    let mut g: usize = 0;
    while g < groups.len()
        invariant
            g <= groups.len(),
            forall|h: int|
                0 <= h < g ==> (#[trigger] groups.deep_view()[h]).0 != key.deep_view(),
        decreases groups.len() - g,
    {
        assert(groups.deep_view()[g as int] == groups@[g as int].deep_view());
        if groups[g].0.same(key) {
            return Some(g);
        }
        g += 1;
    }
    None
}

/// Groups joined rows.
fn group_rows<F: Fn(FloatOp) -> u64>(
    group_by: &Vec<QualifiedColumn>,
    aggregates: &Vec<Aggregate>,
    input: &Vec<PartialRow>,
    float: &F,
) -> (r: Result<Vec<Group>, EngineError>)
    requires
        float::is_float_unit(*float),
    ensures
        match group_keys(input.deep_view(), group_by.deep_view()) {
            Ok(keys) => r is Ok && r->Ok_0.deep_view() == groups_of(
                *float,
                aggregates.deep_view(),
                input.deep_view(),
                keys,
            ),
            Err(e) => r is Err && r->Err_0.deep_view() == e,
        },
{
    let ghost states = input.deep_view();
    let ghost columns = group_by.deep_view();
    let ghost aggs = aggregates.deep_view();
    let mut groups: Vec<Group> = no_items();
    let ghost mut keys: Seq<Seq<ValueModel>> = Seq::empty();
    let mut i: usize = 0;
    proof {
        assert(groups_of(*float, aggs, states.take(0), keys) =~= Seq::empty());
    }
    while i < input.len()
        invariant
            i <= input.len(),
            float::is_float_unit(*float),
            states == input.deep_view(),
            columns == group_by.deep_view(),
            aggs == aggregates.deep_view(),
            keys.len() == i,
            group_keys(states.take(i as int), columns) == Ok::<
                Seq<Seq<ValueModel>>,
                ErrorModel,
            >(keys),
            groups.deep_view() == groups_of(*float, aggs, states.take(i as int), keys),
        decreases input.len() - i,
    {
        let ghost seen = states.take(i as int);
        proof {
            assert(states.take(i + 1) =~= seen.push(states[i as int]));
            assert(states.take(i + 1).drop_last() =~= seen);
        }
        let key = match read_cells(&input[i], group_by, "group_by references unknown table ") {
            Ok(key) => key,
            Err(e) => {
                proof {
                    lemma_group_keys_prefix(states, columns, i + 1);
                }
                return Err(e);
            },
        };
        let ghost k = key.deep_view();
        match find_group(&groups, &key) {
            Some(g) => {
                let ghost before = groups.deep_view();
                proof {
                    assert(before.len() == distinct_keys(keys).len());
                    assert(before[g as int].0 == distinct_keys(keys)[g as int]);
                    lemma_groups_update(*float, aggs, seen, keys, states[i as int], g as int);
                    assert forall|j: int| 0 <= j < aggs.len() implies rows_counted(
                        #[trigger] before[g as int].1[j],
                    ) < u64::MAX by {
                        let m = members(seen, keys, k);
                        lemma_rows_counted(*float, aggs[j], m);
                        lemma_members_len(seen, keys, k);
                    }
                }
                let (old_key, old_states) = groups.remove(g);
                proof {
                    assert(old_key.deep_view() == before[g as int].0);
                    assert(old_states.deep_view() == before[g as int].1);
                }
                let states_after = step_all(aggregates, old_states, &input[i], float);
                let ghost group = (k, states_after.deep_view());
                groups.insert(g, (old_key, states_after));
                proof {
                    assert(groups.deep_view() =~= before.update(g as int, group));
                }
            },
            None => {
                proof {
                    let before = groups.deep_view();
                    assert forall|g: int| 0 <= g < distinct_keys(keys).len() implies distinct_keys(
                        keys,
                    )[g] != k by {
                        assert(before[g].0 == distinct_keys(keys)[g]);
                    }
                    lemma_groups_push(*float, aggs, seen, keys, states[i as int], k);
                }
                let starts = start_all(aggregates);
                let states_after = step_all(aggregates, starts, &input[i], float);
                push_back(&mut groups, (key, states_after));
            },
        }
        proof {
            keys = keys.push(k);
        }
        i += 1;
    }
    proof {
        assert(states.take(i as int) =~= states);
    }
    Ok(groups)
}

/// What each aggregate is before the first row.
fn start_all(aggregates: &Vec<Aggregate>) -> (r: Vec<AggState>)
    ensures
        r.deep_view() == Seq::new(
            aggregates.deep_view().len(),
            |j: int| aggregate_start(aggregates.deep_view()[j]),
        ),
{
    let ghost wanted = Seq::new(
        aggregates.deep_view().len(),
        |j: int| aggregate_start(aggregates.deep_view()[j]),
    );
    let mut out: Vec<AggState> = no_items();
    let mut j: usize = 0;
    while j < aggregates.len()
        invariant
            j <= aggregates.len(),
            wanted == Seq::new(
                aggregates.deep_view().len(),
                |j: int| aggregate_start(aggregates.deep_view()[j]),
            ),
            out.deep_view() == wanted.take(j as int),
        decreases aggregates.len() - j,
    {
        push_back(&mut out, AggState::new_for(&aggregates[j]));
        proof {
            assert(out.deep_view() =~= wanted.take(j + 1));
        }
        j += 1;
    }
    proof {
        assert(wanted.take(j as int) =~= wanted);
    }
    out
}

/// The row of a group: the values that were grouped by, then the aggregates.
pub open spec fn group_row<F: Fn(FloatOp) -> u64>(
    f: F,
    group: (Seq<ValueModel>, Seq<AggModel>),
) -> Seq<ValueModel> {
    group.0 + group.1.map_values(|a: AggModel| aggregate_value(f, a))
}

/// The rows of the groups that meet the condition, if there is one.
pub open spec fn kept_rows<F: Fn(FloatOp) -> u64>(
    f: F,
    groups: Seq<(Seq<ValueModel>, Seq<AggModel>)>,
    having: Option<HavingModel>,
    group_by: Seq<ColumnRef>,
) -> Seq<Seq<ValueModel>>
    decreases groups.len(),
{
    if groups.len() == 0 {
        Seq::empty()
    } else {
        let before = kept_rows(f, groups.drop_last(), having, group_by);
        let row = group_row(f, groups.last());
        if having is None || predicate::group_holds(having->0, row, group_by) {
            before.push(row)
        } else {
            before
        }
    }
}

/// The first aggregate that reads `column`.
pub open spec fn aggregate_place(aggregates: Seq<AggregateModel>, column: ColumnRef) -> Option<int>
    decreases aggregates.len(),
{
    if aggregates.len() == 0 {
        None
    } else if aggregate_column(aggregates[0]) == Some(column) {
        Some(0)
    } else {
        match aggregate_place(aggregates.drop_first(), column) {
            Some(i) => Some(i + 1),
            None => None,
        }
    }
}

/// The place of a group's row that a column sorts by: where it was grouped
/// by, or else the first aggregate that reads it.
pub open spec fn sort_place(
    column: ColumnRef,
    group_by: Seq<ColumnRef>,
    aggregates: Seq<AggregateModel>,
) -> Option<int> {
    match predicate::column_place(group_by, column) {
        Some(i) => Some(i),
        None => match aggregate_place(aggregates, column) {
            Some(i) => Some(group_by.len() + i),
            None => None,
        },
    }
}

/// Whether every column to sort by has a place.
pub open spec fn all_sortable(
    order_by: Seq<OrderModel>,
    group_by: Seq<ColumnRef>,
    aggregates: Seq<AggregateModel>,
) -> bool {
    forall|k: int|
        0 <= k < order_by.len() ==> sort_place(
            (#[trigger] order_by[k]).expr,
            group_by,
            aggregates,
        ) is Some
}

/// The sort key of a group's row.
pub open spec fn group_sort_key(
    row: Seq<ValueModel>,
    order_by: Seq<OrderModel>,
    group_by: Seq<ColumnRef>,
    aggregates: Seq<AggregateModel>,
) -> Seq<ValueModel> {
    order_by.map_values(
        |o: OrderModel| sorting::key_part(row, sort_place(o.expr, group_by, aggregates)->0),
    )
}

/// What an aggregator gives: the rows of the groups that meet the condition,
/// sorted and sliced.
pub open spec fn aggregate_output<F: Fn(FloatOp) -> u64>(
    f: F,
    group_by: Seq<ColumnRef>,
    aggregates: Seq<AggregateModel>,
    having: Option<HavingModel>,
    order_by: Seq<OrderModel>,
    limit: Option<usize>,
    offset: Option<usize>,
    input: Seq<StateModel>,
) -> Result<Seq<Seq<ValueModel>>, ErrorModel> {
    match group_keys(input, group_by) {
        Err(e) => Err(e),
        Ok(keys) => {
            let rows = kept_rows(f, groups_of(f, aggregates, input, keys), having, group_by);
            if order_by.len() == 0 {
                Ok(sorting::sliced(rows, limit, offset))
            } else if !all_sortable(order_by, group_by, aggregates) {
                Err(
                    ErrorModel::SchemaMismatch(
                        "ORDER BY references unknown group or aggregate column"@,
                    ),
                )
            } else {
                let keyed = rows.map_values(
                    |row: Seq<ValueModel>|
                        (group_sort_key(row, order_by, group_by, aggregates), row),
                );
                Ok(
                    sorting::sliced(
                        sorter::sorted_rows(keyed, sorter::directions_of(order_by)),
                        limit,
                        offset,
                    ),
                )
            }
        },
    }
}

/// The place of the first aggregate that reads `column`.
pub fn find_aggregate(aggregates: &Vec<Aggregate>, column: &QualifiedColumn) -> (r: Option<usize>)
    ensures
        match r {
            Some(i) => aggregate_place(aggregates.deep_view(), column.deep_view()) == Some(
                i as int,
            ) && i < aggregates.len(),
            None => aggregate_place(aggregates.deep_view(), column.deep_view()) is None,
        },
{
    let ghost all = aggregates.deep_view();
    let ghost c = column.deep_view();
    let mut i: usize = 0;
    proof {
        assert(all.skip(0) =~= all);
    }
    while i < aggregates.len()
        invariant
            i <= aggregates.len(),
            all == aggregates.deep_view(),
            c == column.deep_view(),
            aggregate_place(all, c) == match aggregate_place(all.skip(i as int), c) {
                Some(k) => Some(k + i),
                None => None::<int>,
            },
        decreases aggregates.len() - i,
    {
        proof {
            assert(all.skip(i as int)[0] == aggregates@[i as int].deep_view());
            assert(all.skip(i as int).drop_first() =~= all.skip(i + 1));
        }
        let reads = match &aggregates[i] {
            Aggregate::Count(None) => false,
            Aggregate::Count(Some(qc)) => qc.same(column),
            Aggregate::Sum(qc) => qc.same(column),
            Aggregate::Min(qc) => qc.same(column),
            Aggregate::Max(qc) => qc.same(column),
            Aggregate::Avg(qc) => qc.same(column),
        };
        if reads {
            return Some(i);
        }
        i += 1;
    }
    assert(all.skip(i as int).len() == 0);
    None
}

/// A place of a group's row.
enum Place {
    /// Among the values that were grouped by.
    Group(usize),
    /// Among the aggregates.
    Aggregate(usize),
}

impl Place {
    spec fn position(&self, group_by: Seq<ColumnRef>) -> int {
        match self {
            Place::Group(i) => *i as int,
            Place::Aggregate(i) => group_by.len() + *i,
        }
    }
}

/// The place that a column sorts by.
fn find_sort_place(
    column: &QualifiedColumn,
    group_by: &Vec<QualifiedColumn>,
    aggregates: &Vec<Aggregate>,
) -> (r: Option<Place>)
    ensures
        match r {
            Some(place) => sort_place(
                column.deep_view(),
                group_by.deep_view(),
                aggregates.deep_view(),
            ) == Some(place.position(group_by.deep_view())),
            None => sort_place(
                column.deep_view(),
                group_by.deep_view(),
                aggregates.deep_view(),
            ) is None,
        },
{
    match find_place(group_by, column) {
        Some(i) => Some(Place::Group(i)),
        None => match find_aggregate(aggregates, column) {
            Some(i) => Some(Place::Aggregate(i)),
            None => None,
        },
    }
}

/// The places to sort by; `None` where a column has none.
fn sort_places(
    order_by: &Vec<OrderBy>,
    group_by: &Vec<QualifiedColumn>,
    aggregates: &Vec<Aggregate>,
) -> (r: Option<Vec<Place>>)
    ensures
        match r {
            Some(places) => {
                &&& all_sortable(
                    order_by.deep_view(),
                    group_by.deep_view(),
                    aggregates.deep_view(),
                )
                &&& places.len() == order_by.len()
                &&& forall|k: int|
                    0 <= k < places.len() ==> sort_place(
                        order_by.deep_view()[k].expr,
                        group_by.deep_view(),
                        aggregates.deep_view(),
                    ) == Some((#[trigger] places@[k]).position(group_by.deep_view()))
            },
            None => !all_sortable(
                order_by.deep_view(),
                group_by.deep_view(),
                aggregates.deep_view(),
            ),
        },
{
    let ghost all = order_by.deep_view();
    let mut places: Vec<Place> = Vec::new();
    let mut k: usize = 0;
    while k < order_by.len()
        invariant
            k <= order_by.len(),
            places.len() == k,
            all == order_by.deep_view(),
            forall|j: int|
                0 <= j < k ==> sort_place(
                    (#[trigger] all[j]).expr,
                    group_by.deep_view(),
                    aggregates.deep_view(),
                ) is Some,
            forall|j: int|
                0 <= j < k ==> sort_place(
                    all[j].expr,
                    group_by.deep_view(),
                    aggregates.deep_view(),
                ) == Some((#[trigger] places@[j]).position(group_by.deep_view())),
        decreases order_by.len() - k,
    {
        assert(all[k as int].expr == order_by@[k as int].expr.deep_view());
        match find_sort_place(&order_by[k].expr, group_by, aggregates) {
            Some(place) => {
                places.push(place);
            },
            None => {
                return None;
            },
        }
        k += 1;
    }
    Some(places)
}

/// The sort key of a group's row.
fn sort_key(row: &EngineRow, places: &Vec<Place>, groups: usize) -> (r: Vec<EngineValue>)
    ensures
        r.deep_view() == Seq::new(
            places@.len(),
            |k: int|
                sorting::key_part(
                    row.deep_view(),
                    match places@[k] {
                        Place::Group(i) => i as int,
                        Place::Aggregate(i) => groups + i,
                    },
                ),
        ),
{
    let ghost wanted = Seq::new(
        places@.len(),
        |k: int|
            sorting::key_part(
                row.deep_view(),
                match places@[k] {
                    Place::Group(i) => i as int,
                    Place::Aggregate(i) => groups + i,
                },
            ),
    );
    let mut out: Vec<EngineValue> = no_items();
    let mut k: usize = 0;
    while k < places.len()
        invariant
            k <= places.len(),
            wanted == Seq::new(
                places@.len(),
                |k: int|
                    sorting::key_part(
                        row.deep_view(),
                        match places@[k] {
                            Place::Group(i) => i as int,
                            Place::Aggregate(i) => groups + i,
                        },
                    ),
            ),
            out.deep_view() == wanted.take(k as int),
        decreases places.len() - k,
    {
        let value = match &places[k] {
            Place::Group(i) => if *i < row.len() {
                row[*i].duplicate()
            } else {
                EngineValue::Null
            },
            Place::Aggregate(i) => if *i < row.len() && groups < row.len() - *i {
                row[groups + *i].duplicate()
            } else {
                EngineValue::Null
            },
        };
        push_back(&mut out, value);
        proof {
            assert(out.deep_view() =~= wanted.take(k + 1));
        }
        k += 1;
    }
    proof {
        assert(wanted.take(k as int) =~= wanted);
    }
    out
}

/// The row of a group.
fn finish_group<F: Fn(FloatOp) -> u64>(group: &Group, float: &F) -> (r: EngineRow)
    requires
        float::is_float_unit(*float),
    ensures
        r.deep_view() == group_row(*float, group.deep_view()),
{
    let mut row = group.0.duplicate();
    let ghost head = group.0.deep_view();
    let ghost tail = group.1.deep_view().map_values(|a: AggModel| aggregate_value(*float, a));
    let mut j: usize = 0;
    proof {
        assert(head =~= head + tail.take(0));
    }
    while j < group.1.len()
        invariant
            j <= group.1.len(),
            float::is_float_unit(*float),
            tail == group.1.deep_view().map_values(|a: AggModel| aggregate_value(*float, a)),
            row.deep_view() == head + tail.take(j as int),
        decreases group.1.len() - j,
    {
        push_back(&mut row, group.1[j].finish(float));
        proof {
            assert(row.deep_view() =~= head + tail.take(j + 1));
        }
        j += 1;
    }
    proof {
        assert(tail.take(j as int) =~= tail);
    }
    row
}

/// The rows of the groups that meet the condition.
fn finish_groups<F: Fn(FloatOp) -> u64>(
    groups: &Vec<Group>,
    having: &Option<HavingPredicate>,
    group_by: &Vec<QualifiedColumn>,
    float: &F,
) -> (r: Vec<EngineRow>)
    requires
        float::is_float_unit(*float),
    ensures
        r.deep_view() == kept_rows(
            *float,
            groups.deep_view(),
            having.deep_view(),
            group_by.deep_view(),
        ),
{
    let ghost all = groups.deep_view();
    let mut rows: Vec<EngineRow> = no_items();
    let mut g: usize = 0;
    while g < groups.len()
        invariant
            g <= groups.len(),
            float::is_float_unit(*float),
            all == groups.deep_view(),
            rows.deep_view() == kept_rows(
                *float,
                all.take(g as int),
                having.deep_view(),
                group_by.deep_view(),
            ),
        decreases groups.len() - g,
    {
        let row = finish_group(&groups[g], float);
        proof {
            assert(all.take(g + 1).drop_last() =~= all.take(g as int));
            assert(all.take(g + 1).last() == groups@[g as int].deep_view());
        }
        let keep = match having {
            Some(p) => eval_having_predicate(p, &row, group_by),
            None => true,
        };
        if keep {
            push_back(&mut rows, row);
        }
        g += 1;
    }
    proof {
        assert(all.take(g as int) =~= all);
    }
    rows
}

/// Groups joined rows, and computes aggregates over the groups.
pub struct Aggregator {
    pub group_by: Vec<QualifiedColumn>,
    pub aggregates: Vec<Aggregate>,
    pub having: Option<HavingPredicate>,
    pub order_by: Vec<OrderBy>,
    pub limit: Option<usize>,
    pub offset: Option<usize>,
    pub input: Vec<PartialRow>,
}

impl Aggregator {
    pub fn new(
        group_by: Vec<QualifiedColumn>,
        aggregates: Vec<Aggregate>,
        having: Option<HavingPredicate>,
        order_by: Vec<OrderBy>,
        limit: Option<usize>,
        offset: Option<usize>,
        input: Vec<PartialRow>,
    ) -> (r: Aggregator)
        ensures
            r == (Aggregator { group_by, aggregates, having, order_by, limit, offset, input }),
    {
        Aggregator { group_by, aggregates, having, order_by, limit, offset, input }
    }

    /// The rows of the groups: the values grouped by, then the aggregates.
    pub fn execute<F: Fn(FloatOp) -> u64>(self, float: &F) -> (r: Result<
        Vec<EngineRow>,
        EngineError,
    >)
        requires
            float::is_float_unit(*float),
        ensures
            plain::outcome(r) == aggregate_output(
                *float,
                self.group_by.deep_view(),
                self.aggregates.deep_view(),
                self.having.deep_view(),
                self.order_by.deep_view(),
                self.limit,
                self.offset,
                self.input.deep_view(),
            ),
    {
        let groups = match group_rows(&self.group_by, &self.aggregates, &self.input, float) {
            Ok(groups) => groups,
            Err(e) => {
                return Err(e);
            },
        };
        let rows = finish_groups(&groups, &self.having, &self.group_by, float);
        if self.order_by.len() == 0 {
            return Ok(slice_rows(&rows, self.limit, self.offset));
        }
        let places = match sort_places(&self.order_by, &self.group_by, &self.aggregates) {
            Some(places) => places,
            None => {
                return Err(
                    schema_mismatch("ORDER BY references unknown group or aggregate column"),
                );
            },
        };
        let ghost columns = self.group_by.deep_view();
        let ghost aggs = self.aggregates.deep_view();
        let ghost orders = self.order_by.deep_view();
        let ghost all = rows.deep_view();
        let ghost wanted = all.map_values(
            |row: Seq<ValueModel>| (group_sort_key(row, orders, columns, aggs), row),
        );
        let mut keyed: Vec<KeyedRow> = no_items();
        let mut i: usize = 0;
        while i < rows.len()
            invariant
                i <= rows.len(),
                columns == self.group_by.deep_view(),
                columns.len() == self.group_by.len(),
                aggs == self.aggregates.deep_view(),
                orders == self.order_by.deep_view(),
                all == rows.deep_view(),
                wanted == all.map_values(
                    |row: Seq<ValueModel>| (group_sort_key(row, orders, columns, aggs), row),
                ),
                places.len() == orders.len(),
                forall|k: int|
                    0 <= k < places.len() ==> sort_place(orders[k].expr, columns, aggs) == Some(
                        (#[trigger] places@[k]).position(columns),
                    ),
                keyed.deep_view() == wanted.take(i as int),
            decreases rows.len() - i,
        {
            let key = sort_key(&rows[i], &places, self.group_by.len());
            proof {
                let row = rows@[i as int].deep_view();
                let gk = group_sort_key(row, orders, columns, aggs);
                assert forall|k: int| 0 <= k < gk.len() implies gk[k] == key.deep_view()[k] by {
                    let place = places@[k];
                    assert(sort_place(orders[k].expr, columns, aggs) == Some(
                        place.position(columns),
                    ));
                }
                assert(key.deep_view() =~= gk);
            }
            push_back(&mut keyed, (key, rows[i].duplicate()));
            proof {
                assert(keyed.deep_view() =~= wanted.take(i + 1));
            }
            i += 1;
        }
        proof {
            assert(wanted.take(i as int) =~= wanted);
        }
        let order = directions(&self.order_by);
        let sorted = sort_keyed(&keyed, &order);
        Ok(slice_rows(&sorted, self.limit, self.offset))
    }
}

} // verus!
