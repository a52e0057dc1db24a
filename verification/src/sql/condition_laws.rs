//! What the conditions of statements ask of rows and groups.
use vstd::prelude::*;
use crate::condition_laws::{self, is_group_value, value_at};
use crate::predicate::{self, CacheModel, StateModel};
use crate::operators::aggregate;
use crate::query::{AggregateModel, ColumnRef, GroupRef, PredicateModel, QueryModel};
use crate::schema_resolver::SchemaResolver;
use crate::sql::error::Refusal;
use crate::sql::having::{self, HavingScope};
use crate::sql::helpers::{self, Aliases, Tables};
use crate::sql::mapper::ValueMapper;
use crate::sql::select;
use crate::sql::syntax::{
    SqlBinaryOp, SqlExpr, SqlFunction, SqlFunctionArg, SqlFunctionArgs, SqlQuery, SqlUnaryOp,
};
use crate::value::ValueModel;
use crate::value_laws::comes_before;

verus! {

/// The value of one side of a comparison in joined rows: of a literal the value
/// that it maps to, of a name what the rows hold of the column that it stands
/// for. `None` where they hold nothing.
pub open spec fn side_value<M: ValueMapper>(
    e: SqlExpr,
    aliases: Aliases,
    tables: Tables,
    mapper: M,
    state: StateModel,
) -> Result<Option<ValueModel>, Refusal> {
    match e {
        SqlExpr::Value(_) => match mapper.mapped(e) {
            Ok(v) => Ok(Some(v)),
            Err(r) => Err(r),
        },
        SqlExpr::Identifier(_) | SqlExpr::CompoundIdentifier(_) => match helpers::local_column(
            e,
            aliases,
            tables,
        ) {
            Ok(c) => Ok(value_at(state, c.table, c.column_index as int)),
            Err(r) => Err(r),
        },
        _ => Err(Refusal::UnsupportedStatement),
    }
}

/// How a comparison wants two values to stand to each other.
pub open spec fn stand(op: SqlBinaryOp, a: ValueModel, b: ValueModel) -> bool {
    match op {
        SqlBinaryOp::Eq => a == b,
        SqlBinaryOp::NotEq => a != b,
        SqlBinaryOp::Lt => comes_before(a, b),
        SqlBinaryOp::LtEq => comes_before(a, b) || a == b,
        SqlBinaryOp::Gt => comes_before(b, a),
        SqlBinaryOp::GtEq => comes_before(b, a) || a == b,
        _ => false,
    }
}

/// An operator that compares two values.
pub open spec fn is_comparison(op: SqlBinaryOp) -> bool {
    op == SqlBinaryOp::Eq || op == SqlBinaryOp::NotEq || op == SqlBinaryOp::Lt || op
        == SqlBinaryOp::LtEq || op == SqlBinaryOp::Gt || op == SqlBinaryOp::GtEq
}

/// Two expressions with an operator between them.
pub open spec fn binary(left: SqlExpr, op: SqlBinaryOp, right: SqlExpr) -> SqlExpr {
    SqlExpr::BinaryOp { left: Box::new(left), op, right: Box::new(right) }
}

/// Law: joined rows meet `a op b` exactly if they hold both values and these
/// stand to each other as the operator says: `=` equal, `<>` distinct, `<` the
/// left before the right, `<=` before it or equal, `>` the right before the
/// left, `>=` before it or equal. It is refused exactly where one side is.
pub proof fn law_comparison_compares<R: SchemaResolver, M: ValueMapper>(
    left: SqlExpr,
    op: SqlBinaryOp,
    right: SqlExpr,
    aliases: Aliases,
    tables: Tables,
    resolver: R,
    mapper: M,
    state: StateModel,
    cache: CacheModel,
)
    requires
        is_comparison(op),
    ensures
        ({
            let x = side_value(left, aliases, tables, mapper, state);
            let y = side_value(right, aliases, tables, mapper, state);
            match select::predicate_of(binary(left, op, right), aliases, tables, resolver, mapper) {
                Ok(p) => x is Ok && y is Ok && (predicate::holds(p, state, cache) <==> (
                x->Ok_0 is Some && y->Ok_0 is Some && stand(op, x->Ok_0->0, y->Ok_0->0))),
                Err(_) => x is Err || y is Err,
            }
        }),
{
    let a = select::operand_of(left, aliases, tables, mapper);
    let b = select::operand_of(right, aliases, tables, mapper);
    if a is Ok && b is Ok {
        condition_laws::law_comparisons(a->Ok_0, b->Ok_0, state, cache);
    }
}

/// Whether joined rows meet a condition that is not refused.
pub open spec fn is_met<R: SchemaResolver, M: ValueMapper>(
    e: SqlExpr,
    aliases: Aliases,
    tables: Tables,
    resolver: R,
    mapper: M,
    state: StateModel,
    cache: CacheModel,
) -> bool {
    let p = select::predicate_of(e, aliases, tables, resolver, mapper);
    p is Ok && predicate::holds(p->Ok_0, state, cache)
}

/// Law: `a <= b` is met exactly where `a < b` or `a = b` is, and `a >= b` where
/// `a > b` or `a = b` is; `a > b` is met exactly where `b < a` is. Where both
/// values are there, `a <> b` is met exactly where `a = b` is not, `a <= b`
/// where `a > b` is not, and `a >= b` where `a < b` is not.
pub proof fn law_comparisons_relate<R: SchemaResolver, M: ValueMapper>(
    a: SqlExpr,
    b: SqlExpr,
    aliases: Aliases,
    tables: Tables,
    resolver: R,
    mapper: M,
    state: StateModel,
    cache: CacheModel,
)
    ensures
        ({
            let met = |x: SqlExpr, op: SqlBinaryOp, y: SqlExpr|
                is_met(binary(x, op, y), aliases, tables, resolver, mapper, state, cache);
            let x = side_value(a, aliases, tables, mapper, state);
            let y = side_value(b, aliases, tables, mapper, state);
            &&& met(a, SqlBinaryOp::LtEq, b) == (met(a, SqlBinaryOp::Lt, b) || met(
                a,
                SqlBinaryOp::Eq,
                b,
            ))
            &&& met(a, SqlBinaryOp::GtEq, b) == (met(a, SqlBinaryOp::Gt, b) || met(
                a,
                SqlBinaryOp::Eq,
                b,
            ))
            &&& met(a, SqlBinaryOp::Gt, b) == met(b, SqlBinaryOp::Lt, a)
            &&& met(a, SqlBinaryOp::Eq, b) == met(b, SqlBinaryOp::Eq, a)
            &&& (x matches Ok(Some(_)) && y matches Ok(Some(_))) ==> {
                &&& met(a, SqlBinaryOp::NotEq, b) == !met(a, SqlBinaryOp::Eq, b)
                &&& met(a, SqlBinaryOp::LtEq, b) == !met(a, SqlBinaryOp::Gt, b)
                &&& met(a, SqlBinaryOp::GtEq, b) == !met(a, SqlBinaryOp::Lt, b)
            }
        }),
{
    law_comparison_compares(a, SqlBinaryOp::Eq, b, aliases, tables, resolver, mapper, state, cache);
    law_comparison_compares(
        a,
        SqlBinaryOp::NotEq,
        b,
        aliases,
        tables,
        resolver,
        mapper,
        state,
        cache,
    );
    law_comparison_compares(a, SqlBinaryOp::Lt, b, aliases, tables, resolver, mapper, state, cache);
    law_comparison_compares(
        a,
        SqlBinaryOp::LtEq,
        b,
        aliases,
        tables,
        resolver,
        mapper,
        state,
        cache,
    );
    law_comparison_compares(a, SqlBinaryOp::Gt, b, aliases, tables, resolver, mapper, state, cache);
    law_comparison_compares(
        a,
        SqlBinaryOp::GtEq,
        b,
        aliases,
        tables,
        resolver,
        mapper,
        state,
        cache,
    );
    law_comparison_compares(b, SqlBinaryOp::Lt, a, aliases, tables, resolver, mapper, state, cache);
    law_comparison_compares(b, SqlBinaryOp::Eq, a, aliases, tables, resolver, mapper, state, cache);
    let x = side_value(a, aliases, tables, mapper, state);
    let y = side_value(b, aliases, tables, mapper, state);
    if x matches Ok(Some(_)) && y matches Ok(Some(_)) {
        crate::value_laws::law_one_value_comes_first(x->Ok_0->0, y->Ok_0->0);
    }
}

/// Law: `a AND b` is met exactly where both conditions are, `a OR b` where one of
/// them is, and `NOT a` where `a` is not. Each is refused where one of its
/// conditions is.
pub proof fn law_connectives_connect<R: SchemaResolver, M: ValueMapper>(
    a: SqlExpr,
    b: SqlExpr,
    aliases: Aliases,
    tables: Tables,
    resolver: R,
    mapper: M,
    state: StateModel,
    cache: CacheModel,
)
    ensures
        ({
            let t = |e: SqlExpr| select::predicate_of(e, aliases, tables, resolver, mapper);
            let both = binary(a, SqlBinaryOp::And, b);
            let either = binary(a, SqlBinaryOp::Or, b);
            let neither = SqlExpr::UnaryOp { op: SqlUnaryOp::Not, expr: Box::new(a) };
            &&& t(both) is Ok <==> t(a) is Ok && t(b) is Ok
            &&& t(either) is Ok <==> t(a) is Ok && t(b) is Ok
            &&& t(neither) is Ok <==> t(a) is Ok
            &&& t(a) is Ok ==> predicate::holds(t(neither)->Ok_0, state, cache)
                == !predicate::holds(t(a)->Ok_0, state, cache)
            &&& t(a) is Ok && t(b) is Ok ==> {
                let p = predicate::holds(t(a)->Ok_0, state, cache);
                let q = predicate::holds(t(b)->Ok_0, state, cache);
                &&& predicate::holds(t(both)->Ok_0, state, cache) == (p && q)
                &&& predicate::holds(t(either)->Ok_0, state, cache) == (p || q)
            }
        }),
{
    let both = binary(a, SqlBinaryOp::And, b);
    let either = binary(a, SqlBinaryOp::Or, b);
    let neither = SqlExpr::UnaryOp { op: SqlUnaryOp::Not, expr: Box::new(a) };
    let t = |e: SqlExpr| select::predicate_of(e, aliases, tables, resolver, mapper);
    assert(t(both) is Ok <==> t(a) is Ok && t(b) is Ok);
    assert(t(either) is Ok <==> t(a) is Ok && t(b) is Ok);
    assert(t(neither) is Ok <==> t(a) is Ok);
    if t(a) is Ok && t(b) is Ok {
        condition_laws::law_connectives(t(a)->Ok_0, t(b)->Ok_0, state, cache);
    }
    if t(a) is Ok {
        condition_laws::law_connectives(t(a)->Ok_0, t(a)->Ok_0, state, cache);
    }
}

/// Law: `IS NULL` is met where the rows hold no value of the column or NULL,
/// `IS NOT NULL` where they hold another value.
pub proof fn law_null_tests_test<R: SchemaResolver, M: ValueMapper>(
    e: SqlExpr,
    c: ColumnRef,
    aliases: Aliases,
    tables: Tables,
    resolver: R,
    mapper: M,
    state: StateModel,
    cache: CacheModel,
)
    requires
        helpers::local_column(e, aliases, tables) == Ok::<ColumnRef, Refusal>(c),
    ensures
        ({
            let v = value_at(state, c.table, c.column_index as int);
            let null = v is None || v == Some(ValueModel::Null);
            &&& is_met(
                SqlExpr::IsNull(Box::new(e)),
                aliases,
                tables,
                resolver,
                mapper,
                state,
                cache,
            ) == null
            &&& is_met(
                SqlExpr::IsNotNull(Box::new(e)),
                aliases,
                tables,
                resolver,
                mapper,
                state,
                cache,
            ) == !null
        }),
{
    condition_laws::law_null_tests(c, state, cache);
    assert(select::predicate_of(SqlExpr::IsNull(Box::new(e)), aliases, tables, resolver, mapper)
        == Ok::<PredicateModel, Refusal>(PredicateModel::IsNull(c)));
    assert(select::predicate_of(
        SqlExpr::IsNotNull(Box::new(e)),
        aliases,
        tables,
        resolver,
        mapper,
    ) == Ok::<PredicateModel, Refusal>(PredicateModel::IsNotNull(c)));
}

proof fn lemma_listed<M: ValueMapper>(list: Seq<SqlExpr>, mapper: M)
    ensures
        match select::listed(list, mapper) {
            Ok(values) => values.len() == list.len() && forall|i: int|
                0 <= i < list.len() ==> #[trigger] list[i] is Value && mapper.mapped(list[i])
                    == Ok::<ValueModel, Refusal>(values[i]),
            Err(_) => exists|i: int|
                0 <= i < list.len() && (!(#[trigger] list[i] is Value) || mapper.mapped(
                    list[i],
                ) is Err),
        },
    decreases list.len(),
{
    if list.len() > 0 {
        let rest = list.drop_last();
        let n = list.len() - 1;
        lemma_listed(rest, mapper);
        match select::listed(rest, mapper) {
            Err(_) => {
                let i = choose|i: int|
                    0 <= i < rest.len() && (!(#[trigger] rest[i] is Value) || mapper.mapped(
                        rest[i],
                    ) is Err);
                assert(list[i] == rest[i]);
            },
            Ok(before) => {
                if select::listed(list, mapper) is Err {
                    assert(!(list[n] is Value) || mapper.mapped(list[n]) is Err);
                } else {
                    let values = select::listed(list, mapper)->Ok_0;
                    assert forall|i: int| 0 <= i < list.len() implies #[trigger] list[i] is Value
                        && mapper.mapped(list[i]) == Ok::<ValueModel, Refusal>(values[i]) by {
                        if i < n {
                            assert(rest[i] == list[i]);
                        }
                    }
                }
            },
        }
    }
}

/// Law: `IN` with a list of literals is met where the rows hold a value of the
/// column and it is that of one of the literals, `NOT IN` where they hold one
/// and it is that of none.
pub proof fn law_in_list_looks_up<R: SchemaResolver, M: ValueMapper>(
    e: SqlExpr,
    list: Vec<SqlExpr>,
    c: ColumnRef,
    aliases: Aliases,
    tables: Tables,
    resolver: R,
    mapper: M,
    state: StateModel,
    cache: CacheModel,
)
    requires
        helpers::local_column(e, aliases, tables) == Ok::<ColumnRef, Refusal>(c),
        forall|i: int|
            0 <= i < list@.len() ==> #[trigger] list@[i] is Value && mapper.mapped(list@[i]) is Ok,
    ensures
        ({
            let v = value_at(state, c.table, c.column_index as int);
            let found = exists|i: int|
                0 <= i < list@.len() && v is Some && mapper.mapped(#[trigger] list@[i]) == Ok::<
                    ValueModel,
                    Refusal,
                >(v->0);
            &&& is_met(
                SqlExpr::InList { expr: Box::new(e), list, negated: false },
                aliases,
                tables,
                resolver,
                mapper,
                state,
                cache,
            ) == (v is Some && found)
            &&& is_met(
                SqlExpr::InList { expr: Box::new(e), list, negated: true },
                aliases,
                tables,
                resolver,
                mapper,
                state,
                cache,
            ) == (v is Some && !found)
        }),
{
    lemma_listed(list@, mapper);
    let values = select::listed(list@, mapper)->Ok_0;
    let v = value_at(state, c.table, c.column_index as int);
    condition_laws::law_in_list(c, values, state, cache);
    let plain = SqlExpr::InList { expr: Box::new(e), list, negated: false };
    let not = SqlExpr::InList { expr: Box::new(e), list, negated: true };
    assert(select::predicate_of(plain, aliases, tables, resolver, mapper) == Ok::<
        PredicateModel,
        Refusal,
    >(PredicateModel::InList { expr: c, list: values, negated: false }));
    assert(select::predicate_of(not, aliases, tables, resolver, mapper) == Ok::<
        PredicateModel,
        Refusal,
    >(PredicateModel::InList { expr: c, list: values, negated: true }));
    if v is Some {
        if exists|i: int| 0 <= i < values.len() && Some(#[trigger] values[i]) == v {
            let i = choose|i: int| 0 <= i < values.len() && Some(#[trigger] values[i]) == v;
            assert(mapper.mapped(list@[i]) == Ok::<ValueModel, Refusal>(v->0));
        }
        if exists|i: int|
            0 <= i < list@.len() && mapper.mapped(#[trigger] list@[i]) == Ok::<
                ValueModel,
                Refusal,
            >(v->0) {
            let i = choose|i: int|
                0 <= i < list@.len() && mapper.mapped(#[trigger] list@[i]) == Ok::<
                    ValueModel,
                    Refusal,
                >(v->0);
            assert(list@[i] is Value);
            assert(Some(values[i]) == v);
        }
    }
}

/// Law: `IN` with a SELECT is met where the rows hold a value of the column and
/// it is one of those that the SELECT gave, `NOT IN` where they hold one and it
/// is none of them.
pub proof fn law_in_select_looks_up<R: SchemaResolver, M: ValueMapper>(
    e: SqlExpr,
    subquery: SqlQuery,
    c: ColumnRef,
    q: QueryModel,
    aliases: Aliases,
    tables: Tables,
    resolver: R,
    mapper: M,
    state: StateModel,
    cache: CacheModel,
)
    requires
        helpers::local_column(e, aliases, tables) == Ok::<ColumnRef, Refusal>(c),
        subquery.body is Select,
        select::query_of(subquery, resolver, mapper) == Ok::<QueryModel, Refusal>(q),
        cache.contains_key(q),
    ensures
        ({
            let v = value_at(state, c.table, c.column_index as int);
            let given = cache[q];
            let found = exists|i: int| 0 <= i < given.len() && Some(#[trigger] given[i]) == v;
            &&& is_met(
                SqlExpr::InSubquery {
                    expr: Box::new(e),
                    subquery: Box::new(subquery),
                    negated: false,
                },
                aliases,
                tables,
                resolver,
                mapper,
                state,
                cache,
            ) == (v is Some && found)
            &&& is_met(
                SqlExpr::InSubquery {
                    expr: Box::new(e),
                    subquery: Box::new(subquery),
                    negated: true,
                },
                aliases,
                tables,
                resolver,
                mapper,
                state,
                cache,
            ) == (v is Some && !found)
        }),
{
    condition_laws::law_in_subquery(c, q, state, cache);
    let plain = SqlExpr::InSubquery {
        expr: Box::new(e),
        subquery: Box::new(subquery),
        negated: false,
    };
    let not = SqlExpr::InSubquery {
        expr: Box::new(e),
        subquery: Box::new(subquery),
        negated: true,
    };
    assert(select::predicate_of(plain, aliases, tables, resolver, mapper) == Ok::<
        PredicateModel,
        Refusal,
    >(PredicateModel::InSubquery { expr: c, subquery: Box::new(q), negated: false }));
    assert(select::predicate_of(not, aliases, tables, resolver, mapper) == Ok::<
        PredicateModel,
        Refusal,
    >(PredicateModel::InSubquery { expr: c, subquery: Box::new(q), negated: true }));
}

/// Law: a group's row meets a comparison of a HAVING clause exactly if the value
/// that it holds of the left side stands to the literal on the right as the
/// operator says.
pub proof fn law_having_compares<M: ValueMapper>(
    left: SqlExpr,
    op: SqlBinaryOp,
    right: SqlExpr,
    scope: HavingScope,
    mapper: M,
    of: GroupRef,
    w: ValueModel,
    row: Seq<ValueModel>,
    group_by: Seq<ColumnRef>,
    v: ValueModel,
)
    requires
        is_comparison(op),
        having::group_ref(left, scope) == Ok::<GroupRef, Refusal>(of),
        right is Value,
        mapper.mapped(right) == Ok::<ValueModel, Refusal>(w),
        is_group_value(of, row, group_by, v),
    ensures
        match having::having_of(binary(left, op, right), scope, mapper) {
            Ok(p) => predicate::group_holds(p, row, group_by) == stand(op, v, w),
            Err(_) => false,
        },
{
    condition_laws::law_group_comparisons(of, w, row, group_by, v);
}

/// Law: in a HAVING clause too AND, OR and NOT are what they say, and so are the
/// NULL tests.
pub proof fn law_having_connects<M: ValueMapper>(
    a: SqlExpr,
    b: SqlExpr,
    scope: HavingScope,
    mapper: M,
    row: Seq<ValueModel>,
    group_by: Seq<ColumnRef>,
)
    ensures
        ({
            let t = |e: SqlExpr| having::having_of(e, scope, mapper);
            let both = binary(a, SqlBinaryOp::And, b);
            let either = binary(a, SqlBinaryOp::Or, b);
            let neither = SqlExpr::UnaryOp { op: SqlUnaryOp::Not, expr: Box::new(a) };
            &&& t(both) is Ok <==> t(a) is Ok && t(b) is Ok
            &&& t(either) is Ok <==> t(a) is Ok && t(b) is Ok
            &&& t(neither) is Ok <==> t(a) is Ok
            &&& t(a) is Ok ==> predicate::group_holds(t(neither)->Ok_0, row, group_by)
                == !predicate::group_holds(t(a)->Ok_0, row, group_by)
            &&& t(a) is Ok && t(b) is Ok ==> {
                let p = predicate::group_holds(t(a)->Ok_0, row, group_by);
                let q = predicate::group_holds(t(b)->Ok_0, row, group_by);
                &&& predicate::group_holds(t(both)->Ok_0, row, group_by) == (p && q)
                &&& predicate::group_holds(t(either)->Ok_0, row, group_by) == (p || q)
            }
        }),
{
    let both = binary(a, SqlBinaryOp::And, b);
    let either = binary(a, SqlBinaryOp::Or, b);
    let neither = SqlExpr::UnaryOp { op: SqlUnaryOp::Not, expr: Box::new(a) };
    let t = |e: SqlExpr| having::having_of(e, scope, mapper);
    assert(t(both) is Ok <==> t(a) is Ok && t(b) is Ok);
    assert(t(either) is Ok <==> t(a) is Ok && t(b) is Ok);
    assert(t(neither) is Ok <==> t(a) is Ok);
    if t(a) is Ok && t(b) is Ok {
        condition_laws::law_group_connectives(t(a)->Ok_0, t(b)->Ok_0, row, group_by);
    }
    if t(a) is Ok {
        condition_laws::law_group_connectives(t(a)->Ok_0, t(a)->Ok_0, row, group_by);
    }
}

/// Law: the NULL tests of a HAVING clause ask whether the value that a group's
/// row holds is NULL.
pub proof fn law_having_tests_null<M: ValueMapper>(
    e: SqlExpr,
    scope: HavingScope,
    mapper: M,
    of: GroupRef,
    row: Seq<ValueModel>,
    group_by: Seq<ColumnRef>,
    v: ValueModel,
)
    requires
        having::group_ref(e, scope) == Ok::<GroupRef, Refusal>(of),
        is_group_value(of, row, group_by, v),
    ensures
        match having::having_of(SqlExpr::IsNull(Box::new(e)), scope, mapper) {
            Ok(p) => predicate::group_holds(p, row, group_by) == (v is Null),
            Err(_) => false,
        },
        match having::having_of(SqlExpr::IsNotNull(Box::new(e)), scope, mapper) {
            Ok(p) => predicate::group_holds(p, row, group_by) == !(v is Null),
            Err(_) => false,
        },
{
    condition_laws::law_group_comparisons(of, v, row, group_by, v);
}

/// An aggregate is what a call of a function asks for. The argument is a column,
/// or `None` for `*`.
pub open spec fn is_asked(
    a: AggregateModel,
    function: Seq<char>,
    argument: Option<ColumnRef>,
) -> bool {
    match (a, argument) {
        (AggregateModel::Count(None), None) => function == "count"@,
        (AggregateModel::Count(Some(c)), Some(d)) => function == "count"@ && c == d,
        (AggregateModel::Sum(c), Some(d)) => function == "sum"@ && c == d,
        (AggregateModel::Min(c), Some(d)) => function == "min"@ && c == d,
        (AggregateModel::Max(c), Some(d)) => function == "max"@ && c == d,
        (AggregateModel::Avg(c), Some(d)) => function == "avg"@ && c == d,
        _ => false,
    }
}

/// An aggregate is computed of a column.
pub open spec fn is_over(a: AggregateModel, c: ColumnRef) -> bool {
    match a {
        AggregateModel::Count(d) => d == Some(c),
        AggregateModel::Sum(d) => d == c,
        AggregateModel::Min(d) => d == c,
        AggregateModel::Max(d) => d == c,
        AggregateModel::Avg(d) => d == c,
    }
}

proof fn lemma_call_place(
    aggregates: Seq<AggregateModel>,
    function: Seq<char>,
    argument: Option<ColumnRef>,
)
    ensures
        match having::call_place(aggregates, function, argument) {
            Some(i) => 0 <= i < aggregates.len() && is_asked(aggregates[i], function, argument)
                && forall|j: int|
                0 <= j < i ==> !is_asked(#[trigger] aggregates[j], function, argument),
            None => forall|j: int|
                0 <= j < aggregates.len() ==> !is_asked(
                    #[trigger] aggregates[j],
                    function,
                    argument,
                ),
        },
    decreases aggregates.len(),
{
    if aggregates.len() > 0 {
        let rest = aggregates.drop_first();
        lemma_call_place(rest, function, argument);
        assert(is_asked(aggregates[0], function, argument) == having::is_call_of(
            aggregates[0],
            function,
            argument,
        ));
        assert forall|j: int| 0 < j < aggregates.len() implies aggregates[j] == #[trigger] rest[j
            - 1] by {}
        assert forall|j: int| 0 < j < aggregates.len() implies rest[j - 1]
            == #[trigger] aggregates[j] by {}
    }
}

proof fn lemma_aggregate_place(aggregates: Seq<AggregateModel>, c: ColumnRef)
    ensures
        match aggregate::aggregate_place(aggregates, c) {
            Some(i) => 0 <= i < aggregates.len() && is_over(aggregates[i], c) && forall|j: int|
                0 <= j < i ==> !is_over(#[trigger] aggregates[j], c),
            None => forall|j: int|
                0 <= j < aggregates.len() ==> !is_over(#[trigger] aggregates[j], c),
        },
    decreases aggregates.len(),
{
    if aggregates.len() > 0 {
        let rest = aggregates.drop_first();
        lemma_aggregate_place(rest, c);
        assert forall|j: int| 0 < j < aggregates.len() implies rest[j - 1]
            == #[trigger] aggregates[j] by {}
    }
}

/// Law: a call in a HAVING clause is the first aggregate of the projection that
/// is the same call, of the same column or of `*`. Where there is none, or the
/// column is not known, it is refused.
pub proof fn law_having_calls(f: SqlFunction, args: Vec<SqlFunctionArg>, scope: HavingScope)
    requires
        scope.aggregates.len() <= usize::MAX,
        f.args == SqlFunctionArgs::List(args),
        args@.len() == 1,
        args@[0] is Expr || args@[0] is Wildcard,
    ensures
        ({
            let function = having::function_name(f);
            let column = helpers::local_column(*(args@[0]->Expr_0), scope.aliases, scope.tables);
            let argument = if args@[0] is Wildcard {
                None
            } else {
                Some(column->Ok_0)
            };
            match having::group_ref(SqlExpr::Function(f), scope) {
                Ok(GroupRef::AggregateIndex(i)) => (args@[0] is Expr ==> column is Ok) && i
                    < scope.aggregates.len() && is_asked(
                    scope.aggregates[i as int],
                    function,
                    argument,
                ) && forall|j: int|
                    0 <= j < i ==> !is_asked(#[trigger] scope.aggregates[j], function, argument),
                Ok(GroupRef::Column(_)) => false,
                Err(_) => (args@[0] is Expr && column is Err) || forall|j: int|
                    0 <= j < scope.aggregates.len() ==> !is_asked(
                        #[trigger] scope.aggregates[j],
                        function,
                        argument,
                    ),
            }
        }),
{
    let column = helpers::local_column(*(args@[0]->Expr_0), scope.aliases, scope.tables);
    let argument = if args@[0] is Wildcard {
        None
    } else {
        Some(column->Ok_0)
    };
    lemma_call_place(scope.aggregates, having::function_name(f), argument);
}

/// Law: a name in a HAVING clause that the projection gave to a column is the
/// first aggregate of that column, or else the column itself. Any other name is
/// the column that it stands for.
pub proof fn law_having_names(s: String, parts: Vec<String>, scope: HavingScope)
    requires
        scope.aggregates.len() <= usize::MAX,
    ensures
        ({
            let given = having::group_ref(SqlExpr::Identifier(s), scope);
            let c = scope.names[s@];
            let own = helpers::local_column(SqlExpr::Identifier(s), scope.aliases, scope.tables);
            &&& scope.names.contains_key(s@) ==> match given {
                Ok(GroupRef::AggregateIndex(i)) => i < scope.aggregates.len() && is_over(
                    scope.aggregates[i as int],
                    c,
                ) && forall|j: int| 0 <= j < i ==> !is_over(#[trigger] scope.aggregates[j], c),
                Ok(GroupRef::Column(d)) => d == c && forall|j: int|
                    0 <= j < scope.aggregates.len() ==> !is_over(#[trigger] scope.aggregates[j], c),
                Err(_) => false,
            }
            &&& !scope.names.contains_key(s@) ==> match (given, own) {
                (Ok(GroupRef::Column(d)), Ok(o)) => d == o,
                (Err(_), Err(_)) => true,
                _ => false,
            }
        }),
        ({
            let e = SqlExpr::CompoundIdentifier(parts);
            match (
                having::group_ref(e, scope),
                helpers::local_column(e, scope.aliases, scope.tables),
            ) {
                (Ok(GroupRef::Column(d)), Ok(o)) => d == o,
                (Err(_), Err(_)) => true,
                _ => false,
            }
        }),
{
    lemma_aggregate_place(scope.aggregates, scope.names[s@]);
}

} // verus!
