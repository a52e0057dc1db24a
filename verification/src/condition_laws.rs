//! What conditions on rows and on groups ask.
use vstd::prelude::*;
use crate::predicate::{self, CacheModel, StateModel};
use crate::query::{ColumnRef, GroupRef, HavingModel, OperandModel, PredicateModel, QueryModel};
use crate::value::ValueModel;
use crate::value_laws::{self, comes_before};

verus! {

/// The value at a place of the row that joined rows hold of a table: there is
/// one where the table is among them, has a row, and the row reaches that far.
pub open spec fn value_at(state: StateModel, table: Seq<char>, i: int) -> Option<ValueModel> {
    if state.contains_key(table) && state[table] is Some && 0 <= i < state[table]->0.len() {
        Some(state[table]->0[i])
    } else {
        None
    }
}

/// The value of an operand: of a column what the rows hold, of a literal itself.
pub open spec fn value_read(state: StateModel, operand: OperandModel) -> Option<ValueModel> {
    match operand {
        OperandModel::Column(c) => value_at(state, c.table, c.column_index as int),
        OperandModel::Value(v) => Some(v),
    }
}

/// Law: a comparison holds exactly if both values are there and stand as it
/// says: equal, distinct, one before the other, or not after it.
pub proof fn law_comparisons(a: OperandModel, b: OperandModel, state: StateModel, cache: CacheModel)
    ensures
        ({
            let x = value_read(state, a);
            let y = value_read(state, b);
            let both = x is Some && y is Some;
            &&& predicate::holds(PredicateModel::Equals(a, b), state, cache) <==> both && x->0
                == y->0
            &&& predicate::holds(PredicateModel::NotEquals(a, b), state, cache) <==> both && x->0
                != y->0
            &&& predicate::holds(PredicateModel::LessThan(a, b), state, cache) <==> both
                && comes_before(x->0, y->0)
            &&& predicate::holds(PredicateModel::LessThanOrEquals(a, b), state, cache) <==> both
                && (comes_before(x->0, y->0) || x->0 == y->0)
            &&& predicate::holds(PredicateModel::GreaterThan(a, b), state, cache) <==> both
                && comes_before(y->0, x->0)
            &&& predicate::holds(PredicateModel::GreaterThanOrEquals(a, b), state, cache) <==> both
                && (comes_before(y->0, x->0) || x->0 == y->0)
        }),
{
    let x = value_read(state, a);
    let y = value_read(state, b);
    if x is Some && y is Some {
        value_laws::law_values_are_ordered(x->0, y->0);
        value_laws::law_values_are_ordered(y->0, x->0);
        value_laws::law_one_value_comes_first(x->0, y->0);
    }
}

/// Law: IS NULL holds where the value is missing or NULL, IS NOT NULL where it
/// is there and not NULL.
pub proof fn law_null_tests(c: ColumnRef, state: StateModel, cache: CacheModel)
    ensures
        ({
            let v = value_at(state, c.table, c.column_index as int);
            let null = v is None || v == Some(ValueModel::Null);
            &&& predicate::holds(PredicateModel::IsNull(c), state, cache) <==> null
            &&& predicate::holds(PredicateModel::IsNotNull(c), state, cache) <==> !null
        }),
{
}

/// Law: IN holds where the value is there and one of those listed, NOT IN where
/// it is there and none of them.
pub proof fn law_in_list(
    c: ColumnRef,
    list: Seq<ValueModel>,
    state: StateModel,
    cache: CacheModel,
)
    ensures
        ({
            let v = value_at(state, c.table, c.column_index as int);
            let found = exists|i: int| 0 <= i < list.len() && Some(#[trigger] list[i]) == v;
            &&& predicate::holds(
                PredicateModel::InList { expr: c, list, negated: false },
                state,
                cache,
            ) <==> v is Some && found
            &&& predicate::holds(
                PredicateModel::InList { expr: c, list, negated: true },
                state,
                cache,
            ) <==> v is Some && !found
        }),
{
    let v = value_at(state, c.table, c.column_index as int);
    if v is Some {
        if list.contains(v->0) {
            let i = choose|i: int| 0 <= i < list.len() && list[i] == v->0;
            assert(Some(list[i]) == v);
        }
        if exists|i: int| 0 <= i < list.len() && Some(#[trigger] list[i]) == v {
            let i = choose|i: int| 0 <= i < list.len() && Some(#[trigger] list[i]) == v;
            assert(list[i] == v->0);
        }
    }
}

/// Law: IN with a subquery holds where the value is there and one of those that
/// the subquery gave, NOT IN where it is there and none of them.
pub proof fn law_in_subquery(
    c: ColumnRef,
    q: QueryModel,
    state: StateModel,
    cache: CacheModel,
)
    requires
        cache.contains_key(q),
    ensures
        ({
            let v = value_at(state, c.table, c.column_index as int);
            let given = cache[q];
            let found = exists|i: int| 0 <= i < given.len() && Some(#[trigger] given[i]) == v;
            &&& predicate::holds(
                PredicateModel::InSubquery { expr: c, subquery: Box::new(q), negated: false },
                state,
                cache,
            ) <==> v is Some && found
            &&& predicate::holds(
                PredicateModel::InSubquery { expr: c, subquery: Box::new(q), negated: true },
                state,
                cache,
            ) <==> v is Some && !found
        }),
{
    law_in_list(c, cache[q], state, cache);
}

/// Law: AND holds where both conditions do, OR where one does, NOT where its
/// condition does not.
pub proof fn law_connectives(
    a: PredicateModel,
    b: PredicateModel,
    state: StateModel,
    cache: CacheModel,
)
    ensures
        ({
            let p = predicate::holds(a, state, cache);
            let q = predicate::holds(b, state, cache);
            &&& predicate::holds(PredicateModel::And(Box::new(a), Box::new(b)), state, cache) == (p
                && q)
            &&& predicate::holds(PredicateModel::Or(Box::new(a), Box::new(b)), state, cache) == (p
                || q)
            &&& predicate::holds(PredicateModel::Not(Box::new(a)), state, cache) == !p
        }),
{
}

/// `v` is what a group's row holds of what a condition names: of a column that
/// was grouped by the value at its first place, of an aggregate the value that
/// many places behind the grouped columns.
pub open spec fn is_group_value(
    of: GroupRef,
    row: Seq<ValueModel>,
    group_by: Seq<ColumnRef>,
    v: ValueModel,
) -> bool {
    match of {
        GroupRef::Column(c) => exists|i: int|
            0 <= i < group_by.len() && i < row.len() && #[trigger] group_by[i] == c && row[i] == v
                && forall|j: int| 0 <= j < i ==> group_by[j] != c,
        GroupRef::AggregateIndex(n) => group_by.len() + n < row.len() && row[group_by.len() + n]
            == v,
    }
}

/// The place of a column is the first at which it stands.
pub proof fn lemma_column_place(columns: Seq<ColumnRef>, c: ColumnRef)
    ensures
        match predicate::column_place(columns, c) {
            Some(i) => 0 <= i < columns.len() && columns[i] == c && forall|j: int|
                0 <= j < i ==> columns[j] != c,
            None => forall|j: int| 0 <= j < columns.len() ==> columns[j] != c,
        },
    decreases columns.len(),
{
    if columns.len() > 0 && columns[0] != c {
        let rest = columns.drop_first();
        lemma_column_place(rest, c);
        match predicate::column_place(rest, c) {
            Some(k) => {
                assert(rest[k] == columns[k + 1]);
                assert forall|j: int| 0 <= j < k + 1 implies columns[j] != c by {
                    if j > 0 {
                        assert(rest[j - 1] == columns[j]);
                    }
                }
            },
            None => {
                assert forall|j: int| 0 <= j < columns.len() implies columns[j] != c by {
                    if j > 0 {
                        assert(rest[j - 1] == columns[j]);
                    }
                }
            },
        }
    }
}

/// What a group's row holds is what its condition looks at.
proof fn lemma_group_value(of: GroupRef, row: Seq<ValueModel>, group_by: Seq<ColumnRef>)
    ensures
        forall|v: ValueModel| #[trigger]
            is_group_value(of, row, group_by, v) <==> predicate::group_value(of, row, group_by)
                == Some(v),
{
    if let GroupRef::Column(c) = of {
        lemma_column_place(group_by, c);
        assert forall|v: ValueModel| #[trigger]
            is_group_value(of, row, group_by, v) <==> predicate::group_value(of, row, group_by)
                == Some(v) by {
            if is_group_value(of, row, group_by, v) {
                let i = choose|i: int|
                    0 <= i < group_by.len() && i < row.len() && #[trigger] group_by[i] == c
                        && row[i] == v && forall|j: int| 0 <= j < i ==> group_by[j] != c;
                let k = predicate::column_place(group_by, c)->0;
                assert(group_by[k] == c);
                assert(k == i);
            }
            if predicate::group_value(of, row, group_by) == Some(v) {
                let k = predicate::column_place(group_by, c)->0;
                assert(group_by[k] == c);
            }
        }
    }
}

/// Law: a comparison of a HAVING clause holds exactly if what it names is there
/// in the group's row and stands to the value as it says.
pub proof fn law_group_comparisons(
    of: GroupRef,
    w: ValueModel,
    row: Seq<ValueModel>,
    group_by: Seq<ColumnRef>,
    v: ValueModel,
)
    requires
        is_group_value(of, row, group_by, v),
    ensures
        predicate::group_holds(HavingModel::Equals(of, w), row, group_by) <==> v == w,
        predicate::group_holds(HavingModel::NotEquals(of, w), row, group_by) <==> v != w,
        predicate::group_holds(HavingModel::LessThan(of, w), row, group_by) <==> comes_before(v, w),
        predicate::group_holds(HavingModel::LessThanOrEquals(of, w), row, group_by) <==> (
        comes_before(v, w) || v == w),
        predicate::group_holds(HavingModel::GreaterThan(of, w), row, group_by) <==> comes_before(
            w,
            v,
        ),
        predicate::group_holds(HavingModel::GreaterThanOrEquals(of, w), row, group_by) <==> (
        comes_before(w, v) || v == w),
        predicate::group_holds(HavingModel::IsNull(of), row, group_by) <==> v is Null,
        predicate::group_holds(HavingModel::IsNotNull(of), row, group_by) <==> !(v is Null),
{
    lemma_group_value(of, row, group_by);
    value_laws::law_values_are_ordered(v, w);
    value_laws::law_values_are_ordered(w, v);
    value_laws::law_one_value_comes_first(v, w);
}

/// Law: where a group's row holds nothing of what a condition names, no
/// comparison holds, and it counts as NULL.
pub proof fn law_missing_group_value(
    of: GroupRef,
    w: ValueModel,
    row: Seq<ValueModel>,
    group_by: Seq<ColumnRef>,
)
    requires
        forall|v: ValueModel| !(#[trigger] is_group_value(of, row, group_by, v)),
    ensures
        !predicate::group_holds(HavingModel::Equals(of, w), row, group_by),
        !predicate::group_holds(HavingModel::NotEquals(of, w), row, group_by),
        !predicate::group_holds(HavingModel::LessThan(of, w), row, group_by),
        !predicate::group_holds(HavingModel::LessThanOrEquals(of, w), row, group_by),
        !predicate::group_holds(HavingModel::GreaterThan(of, w), row, group_by),
        !predicate::group_holds(HavingModel::GreaterThanOrEquals(of, w), row, group_by),
        predicate::group_holds(HavingModel::IsNull(of), row, group_by),
        !predicate::group_holds(HavingModel::IsNotNull(of), row, group_by),
{
    lemma_group_value(of, row, group_by);
    if predicate::group_value(of, row, group_by) is Some {
        assert(is_group_value(
            of,
            row,
            group_by,
            predicate::group_value(of, row, group_by)->0,
        ));
    }
}

/// Law: on groups too AND, OR and NOT are what they say.
pub proof fn law_group_connectives(
    a: HavingModel,
    b: HavingModel,
    row: Seq<ValueModel>,
    group_by: Seq<ColumnRef>,
)
    ensures
        ({
            let p = predicate::group_holds(a, row, group_by);
            let q = predicate::group_holds(b, row, group_by);
            &&& predicate::group_holds(HavingModel::And(Box::new(a), Box::new(b)), row, group_by)
                == (p && q)
            &&& predicate::group_holds(HavingModel::Or(Box::new(a), Box::new(b)), row, group_by)
                == (p || q)
            &&& predicate::group_holds(HavingModel::Not(Box::new(a)), row, group_by) == !p
        }),
{
}

} // verus!
