//! How the answers of calls relate to each other and to what is asked.
use vstd::prelude::*;
use crate::assignment_laws;
use crate::condition_laws;
use crate::error::EngineError;
use crate::float::{self, FloatOp};
use crate::order::Comparison;
use crate::plain;
use crate::predicate::{self, EvalContext, RowContext};
use crate::query::{QualifiedOperand, QualifiedPredicate, UpdateExprModel, UpdateValueExpr};
use crate::schema::TableSchema;
use crate::schema_resolver::SchemaResolver;
use crate::sql::condition_laws::{self as sql_condition_laws, binary, is_comparison, stand};
use crate::sql::error::TranslateError;
use crate::sql::mapper::ValueMapper;
use crate::sql::name_map::NameMap;
use crate::sql::select;
use crate::sql::syntax::{SqlBinaryOp, SqlExpr};
use crate::update_expr;
use crate::value::{EngineRow, EngineValue, ValueModel};
use crate::value_laws::{self, comes_before};

verus! {

/// Law: of two values compared either way round, the answers are opposite: less
/// exactly if the one comes before the other, equal exactly if they are the same.
pub proof fn law_compared_values(
    a: EngineValue,
    b: EngineValue,
    c: Comparison,
    d: Comparison,
)
    requires
        call_ensures(EngineValue::compare, (&a, &b), c),
        call_ensures(EngineValue::compare, (&b, &a), d),
    ensures
        c == Comparison::Less <==> comes_before(a.deep_view(), b.deep_view()),
        c == Comparison::Equal <==> a.deep_view() == b.deep_view(),
        c == Comparison::Less <==> d == Comparison::Greater,
        c == Comparison::Equal <==> d == Comparison::Equal,
{
    value_laws::law_values_are_ordered(a.deep_view(), b.deep_view());
    value_laws::law_values_are_ordered(b.deep_view(), a.deep_view());
    value_laws::law_one_value_comes_first(a.deep_view(), b.deep_view());
    value_laws::law_one_value_comes_first(b.deep_view(), a.deep_view());
}

/// Law: evaluated on any rows, a comparison of two values answers how they stand,
/// and of the six comparisons each answers as its name says.
pub proof fn law_evaluated_comparisons(
    v: EngineValue,
    w: EngineValue,
    rows: RowContext<'_>,
    context: EvalContext,
    equal: bool,
    distinct: bool,
    less: bool,
    at_most: bool,
    greater: bool,
    at_least: bool,
)
    requires
        ({
            let a = QualifiedOperand::Value(v);
            let b = QualifiedOperand::Value(w);
            let at = (&rows, &context);
            &&& call_ensures(
                predicate::eval_predicate,
                (&QualifiedPredicate::Equals(a, b), at.0, at.1),
                equal,
            )
            &&& call_ensures(
                predicate::eval_predicate,
                (&QualifiedPredicate::NotEquals(a, b), at.0, at.1),
                distinct,
            )
            &&& call_ensures(
                predicate::eval_predicate,
                (&QualifiedPredicate::LessThan(a, b), at.0, at.1),
                less,
            )
            &&& call_ensures(
                predicate::eval_predicate,
                (&QualifiedPredicate::LessThanOrEquals(a, b), at.0, at.1),
                at_most,
            )
            &&& call_ensures(
                predicate::eval_predicate,
                (&QualifiedPredicate::GreaterThan(a, b), at.0, at.1),
                greater,
            )
            &&& call_ensures(
                predicate::eval_predicate,
                (&QualifiedPredicate::GreaterThanOrEquals(a, b), at.0, at.1),
                at_least,
            )
        }),
    ensures
        equal <==> v.deep_view() == w.deep_view(),
        distinct <==> !equal,
        less <==> comes_before(v.deep_view(), w.deep_view()),
        greater <==> comes_before(w.deep_view(), v.deep_view()),
        at_most <==> less || equal,
        at_least <==> greater || equal,
        at_most <==> !greater,
{
    let a = QualifiedOperand::Value(v);
    let b = QualifiedOperand::Value(w);
    condition_laws::law_comparisons(
        a.deep_view(),
        b.deep_view(),
        rows.state(),
        context.deep_view(),
    );
    value_laws::law_one_value_comes_first(v.deep_view(), w.deep_view());
    value_laws::law_one_value_comes_first(w.deep_view(), v.deep_view());
}

/// Law: evaluated on the same rows, AND, OR and NOT of conditions answer as the
/// answers of the conditions say.
pub proof fn law_evaluated_connectives(
    p: QualifiedPredicate,
    q: QualifiedPredicate,
    rows: RowContext<'_>,
    context: EvalContext,
    of_p: bool,
    of_q: bool,
    both: bool,
    either: bool,
    not: bool,
)
    requires
        call_ensures(predicate::eval_predicate, (&p, &rows, &context), of_p),
        call_ensures(predicate::eval_predicate, (&q, &rows, &context), of_q),
        call_ensures(
            predicate::eval_predicate,
            (&QualifiedPredicate::And(Box::new(p), Box::new(q)), &rows, &context),
            both,
        ),
        call_ensures(
            predicate::eval_predicate,
            (&QualifiedPredicate::Or(Box::new(p), Box::new(q)), &rows, &context),
            either,
        ),
        call_ensures(
            predicate::eval_predicate,
            (&QualifiedPredicate::Not(Box::new(p)), &rows, &context),
            not,
        ),
    ensures
        both == (of_p && of_q),
        either == (of_p || of_q),
        not == !of_p,
{
}

/// Law: the difference of two whole numbers is computed from the left one less
/// the right one: it is the whole part of the difference of the doubles that they
/// are, and so with the sum and the product.
pub proof fn law_evaluated_arithmetic<F: Fn(FloatOp) -> u64>(
    f: F,
    row: EngineRow,
    table: &str,
    i: i64,
    j: i64,
    sum: Result<EngineValue, EngineError>,
    difference: Result<EngineValue, EngineError>,
    product: Result<EngineValue, EngineError>,
)
    requires
        ({
            let left = UpdateValueExpr::Value(EngineValue::Integer(i));
            let right = UpdateValueExpr::Value(EngineValue::Integer(j));
            &&& call_ensures(
                update_expr::evaluate_update_expr::<F>,
                (&row, &UpdateValueExpr::Add(Box::new(left), Box::new(right)), table, None, &f),
                sum,
            )
            &&& call_ensures(
                update_expr::evaluate_update_expr::<F>,
                (
                    &row,
                    &UpdateValueExpr::Subtract(Box::new(left), Box::new(right)),
                    table,
                    None,
                    &f,
                ),
                difference,
            )
            &&& call_ensures(
                update_expr::evaluate_update_expr::<F>,
                (
                    &row,
                    &UpdateValueExpr::Multiply(Box::new(left), Box::new(right)),
                    table,
                    None,
                    &f,
                ),
                product,
            )
        }),
    ensures
        ({
            let x = float::float_value(f, FloatOp::OfInteger(i));
            let y = float::float_value(f, FloatOp::OfInteger(j));
            let whole = |d: u64|
                ValueModel::Integer(float::float_value(f, FloatOp::ToInteger(d)) as i64);
            &&& sum matches Ok(v) && v.deep_view() == whole(
                float::float_value(f, FloatOp::Sum(x, y)),
            )
            &&& difference matches Ok(v) && v.deep_view() == whole(
                float::float_value(f, FloatOp::Difference(x, y)),
            )
            &&& product matches Ok(v) && v.deep_view() == whole(
                float::float_value(f, FloatOp::Product(x, y)),
            )
        }),
{
    let a = ValueModel::Integer(i);
    let b = ValueModel::Integer(j);
    let x = float::float_value(f, FloatOp::OfInteger(i));
    let y = float::float_value(f, FloatOp::OfInteger(j));
    let left = UpdateExprModel::Value(a);
    let right = UpdateExprModel::Value(b);
    assert(UpdateValueExpr::Value(EngineValue::Integer(i)).deep_view() == left);
    assert(UpdateValueExpr::Value(EngineValue::Integer(j)).deep_view() == right);
    assignment_laws::law_arithmetic(
        f,
        row.deep_view(),
        left,
        right,
        table@,
        None,
        a,
        b,
        x,
        y,
    );
}

/// Law: a comparison in a statement is translated into a condition that, put to
/// any rows, answers how the values of its two sides stand; it is refused exactly
/// where one side is.
pub proof fn law_translated_comparisons<R: SchemaResolver, M: ValueMapper>(
    left: SqlExpr,
    op: SqlBinaryOp,
    right: SqlExpr,
    aliases: NameMap<String>,
    tables: NameMap<TableSchema>,
    resolver: R,
    mapper: M,
    translated: Result<QualifiedPredicate, TranslateError>,
    rows: RowContext<'_>,
    context: EvalContext,
    answer: bool,
)
    requires
        is_comparison(op),
        call_ensures(
            select::expr_to_qualified_predicate::<R, M>,
            (&binary(left, op, right), &aliases, &tables, &resolver, &mapper),
            translated,
        ),
        translated matches Ok(p) ==> call_ensures(
            predicate::eval_predicate,
            (&p, &rows, &context),
            answer,
        ),
    ensures
        ({
            let x = sql_condition_laws::side_value(
                left,
                aliases.deep_view(),
                tables.deep_view(),
                mapper,
                rows.state(),
            );
            let y = sql_condition_laws::side_value(
                right,
                aliases.deep_view(),
                tables.deep_view(),
                mapper,
                rows.state(),
            );
            &&& translated is Ok <==> x is Ok && y is Ok
            &&& translated is Ok ==> (answer <==> x->Ok_0 is Some && y->Ok_0 is Some && stand(
                op,
                x->Ok_0->0,
                y->Ok_0->0,
            ))
        }),
{
    sql_condition_laws::law_comparison_compares(
        left,
        op,
        right,
        aliases.deep_view(),
        tables.deep_view(),
        resolver,
        mapper,
        rows.state(),
        context.deep_view(),
    );
    let model = plain::outcome(translated);
    assert(model == select::predicate_of(
        binary(left, op, right),
        aliases.deep_view(),
        tables.deep_view(),
        resolver,
        mapper,
    ));
}

} // verus!
