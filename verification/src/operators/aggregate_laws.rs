//! What groups and aggregates are.
use vstd::prelude::*;
use crate::float::FloatOp;
use crate::operators::aggregate::{self, AggModel};
use crate::predicate::StateModel;
use crate::query::{AggregateModel, ColumnRef};
use crate::value::{self, ValueModel};

verus! {

/// Law: there is one group for each key that occurs.
pub proof fn law_one_group_per_key<F: Fn(FloatOp) -> u64>(
    f: F,
    aggregates: Seq<AggregateModel>,
    states: Seq<StateModel>,
    keys: Seq<Seq<ValueModel>>,
)
    ensures
        ({
            let groups = aggregate::groups_of(f, aggregates, states, keys);
            &&& forall|i: int, j: int|
                0 <= i < j < groups.len() ==> (#[trigger] groups[i]).0 != (#[trigger] groups[j]).0
            &&& forall|i: int| 0 <= i < groups.len() ==> keys.contains((#[trigger] groups[i]).0)
            &&& forall|k: int|
                0 <= k < keys.len() ==> exists|i: int|
                    0 <= i < groups.len() && (#[trigger] groups[i]).0 == #[trigger] keys[k]
        }),
{
    let groups = aggregate::groups_of(f, aggregates, states, keys);
    let distinct = aggregate::distinct_keys(keys);
    aggregate::lemma_distinct_keys(keys);
    assert forall|i: int| 0 <= i < groups.len() implies keys.contains((#[trigger] groups[i]).0) by {
        assert(distinct.contains(distinct[i]));
    }
    assert forall|k: int| 0 <= k < keys.len() implies exists|i: int|
        0 <= i < groups.len() && (#[trigger] groups[i]).0 == #[trigger] keys[k] by {
        assert(keys.contains(keys[k]));
        assert(distinct.contains(keys[k]));
        let i = choose|i: int| 0 <= i < distinct.len() && distinct[i] == keys[k];
        assert(groups[i].0 == keys[k]);
    }
}

/// How many joined rows are grouped under some keys.
pub open spec fn grouped_under(
    list: Seq<Seq<ValueModel>>,
    states: Seq<StateModel>,
    keys: Seq<Seq<ValueModel>>,
) -> nat
    decreases list.len(),
{
    if list.len() == 0 {
        0
    } else {
        grouped_under(list.drop_last(), states, keys) + aggregate::members(
            states,
            keys,
            list.last(),
        ).len()
    }
}

/// One more joined row counts under its own key alone.
proof fn lemma_grouped_under(
    list: Seq<Seq<ValueModel>>,
    states: Seq<StateModel>,
    keys: Seq<Seq<ValueModel>>,
)
    requires
        list.no_duplicates(),
        states.len() == keys.len(),
        keys.len() > 0,
    ensures
        grouped_under(list, states, keys) == grouped_under(
            list,
            states.drop_last(),
            keys.drop_last(),
        ) + if list.contains(keys.last()) {
            1nat
        } else {
            0
        },
    decreases list.len(),
{
    if list.len() > 0 {
        let rest = list.drop_last();
        let key = keys.last();
        lemma_grouped_under(rest, states, keys);
        if list.last() == key {
            assert(list[list.len() - 1] == key);
            if rest.contains(key) {
                let i = choose|i: int| 0 <= i < rest.len() && rest[i] == key;
                assert(list[i] == list[list.len() - 1]);
            }
        } else if list.contains(key) {
            let i = choose|i: int| 0 <= i < list.len() && list[i] == key;
            assert(rest[i] == key);
        } else if rest.contains(key) {
            let i = choose|i: int| 0 <= i < rest.len() && rest[i] == key;
            assert(list[i] == key);
        }
    }
}

/// Law: grouping loses no joined row, and counts none twice.
pub proof fn law_groups_share_out_rows(states: Seq<StateModel>, keys: Seq<Seq<ValueModel>>)
    requires
        states.len() == keys.len(),
    ensures
        grouped_under(aggregate::distinct_keys(keys), states, keys) == states.len(),
    decreases states.len(),
{
    if states.len() > 0 {
        let init = keys.drop_last();
        let key = keys.last();
        let before = aggregate::distinct_keys(init);
        law_groups_share_out_rows(states.drop_last(), init);
        aggregate::lemma_distinct_keys(init);
        if before.contains(key) {
            lemma_grouped_under(before, states, keys);
        } else {
            let list = before.push(key);
            lemma_grouped_under(before, states, keys);
            assert(list.drop_last() =~= before);
            assert(!init.contains(key));
            aggregate::lemma_no_members(states.drop_last(), init, key);
        }
    }
}

/// Law: a count without a column counts the joined rows.
pub proof fn law_count_counts_rows<F: Fn(FloatOp) -> u64>(f: F, states: Seq<StateModel>)
    ensures
        aggregate::aggregate_over(f, AggregateModel::Count(None), states) == AggModel::Count(
            states.len(),
        ),
    decreases states.len(),
{
    if states.len() > 0 {
        law_count_counts_rows(f, states.drop_last());
    }
}

/// The value of a column in the joined rows at a place.
pub open spec fn input_at(a: AggregateModel, states: Seq<StateModel>, i: int) -> Option<ValueModel> {
    aggregate::aggregate_input(a, states[i])
}

/// Law: the minimum is one of the values, and none is smaller; there is none if
/// there are no values.
pub proof fn law_minimum_is_least<F: Fn(FloatOp) -> u64>(
    f: F,
    column: ColumnRef,
    states: Seq<StateModel>,
)
    ensures
        ({
            let a = AggregateModel::Min(column);
            match aggregate::aggregate_over(f, a, states) {
                AggModel::Min(Some(m)) => (exists|i: int|
                    0 <= i < states.len() && #[trigger] input_at(a, states, i) == Some(m)) && (
                forall|i: int|
                    0 <= i < states.len() ==> (#[trigger] input_at(a, states, i) matches Some(v)
                        ==> !(value::value_less())(v, m))),
                AggModel::Min(None) => forall|i: int|
                    0 <= i < states.len() ==> #[trigger] input_at(a, states, i) is None,
                _ => false,
            }
        }),
    decreases states.len(),
{
    value::law_value_order_total();
    let a = AggregateModel::Min(column);
    let less = value::value_less();
    if states.len() > 0 {
        let init = states.drop_last();
        let n = states.len() - 1;
        law_minimum_is_least(f, column, init);
        assert forall|i: int| 0 <= i < n implies #[trigger] input_at(a, init, i) == input_at(
            a,
            states,
            i,
        ) by {}
        assert(input_at(a, states, n) == aggregate::aggregate_input(a, states.last()));
        if let AggModel::Min(Some(m)) = aggregate::aggregate_over(f, a, states) {
            if aggregate::aggregate_over(f, a, init) == AggModel::Min(Some(m)) {
                let i = choose|i: int|
                    0 <= i < init.len() && #[trigger] input_at(a, init, i) == Some(m);
                assert(input_at(a, states, i) == Some(m));
            } else {
                assert(input_at(a, states, n) == Some(m));
            }
            assert forall|i: int|
                0 <= i < states.len() implies (#[trigger] input_at(a, states, i) matches Some(v)
                ==> !less(v, m)) by {
                if i < n {
                    assert(input_at(a, init, i) == input_at(a, states, i));
                }
            }
        } else {
            assert forall|i: int| 0 <= i < states.len() implies #[trigger] input_at(
                a,
                states,
                i,
            ) is None by {
                if i < n {
                    assert(input_at(a, init, i) is None);
                }
            }
        }
    }
}

/// Law: the maximum is one of the values, and none is greater; there is none if
/// there are no values.
pub proof fn law_maximum_is_greatest<F: Fn(FloatOp) -> u64>(
    f: F,
    column: ColumnRef,
    states: Seq<StateModel>,
)
    ensures
        ({
            let a = AggregateModel::Max(column);
            match aggregate::aggregate_over(f, a, states) {
                AggModel::Max(Some(m)) => (exists|i: int|
                    0 <= i < states.len() && #[trigger] input_at(a, states, i) == Some(m)) && (
                forall|i: int|
                    0 <= i < states.len() ==> (#[trigger] input_at(a, states, i) matches Some(v)
                        ==> !(value::value_less())(m, v))),
                AggModel::Max(None) => forall|i: int|
                    0 <= i < states.len() ==> #[trigger] input_at(a, states, i) is None,
                _ => false,
            }
        }),
    decreases states.len(),
{
    value::law_value_order_total();
    let a = AggregateModel::Max(column);
    let less = value::value_less();
    if states.len() > 0 {
        let init = states.drop_last();
        let n = states.len() - 1;
        law_maximum_is_greatest(f, column, init);
        assert forall|i: int| 0 <= i < n implies #[trigger] input_at(a, init, i) == input_at(
            a,
            states,
            i,
        ) by {}
        assert(input_at(a, states, n) == aggregate::aggregate_input(a, states.last()));
        if let AggModel::Max(Some(m)) = aggregate::aggregate_over(f, a, states) {
            if aggregate::aggregate_over(f, a, init) == AggModel::Max(Some(m)) {
                let i = choose|i: int|
                    0 <= i < init.len() && #[trigger] input_at(a, init, i) == Some(m);
                assert(input_at(a, states, i) == Some(m));
            } else {
                assert(input_at(a, states, n) == Some(m));
            }
            assert forall|i: int|
                0 <= i < states.len() implies (#[trigger] input_at(a, states, i) matches Some(v)
                ==> !less(m, v)) by {
                if i < n {
                    assert(input_at(a, init, i) == input_at(a, states, i));
                }
            }
        } else {
            assert forall|i: int| 0 <= i < states.len() implies #[trigger] input_at(
                a,
                states,
                i,
            ) is None by {
                if i < n {
                    assert(input_at(a, init, i) is None);
                }
            }
        }
    }
}

} // verus!
