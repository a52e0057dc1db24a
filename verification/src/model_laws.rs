//! Conditions, expressions and values mean what their names say.
use vstd::prelude::*;
use crate::query::{
    Aggregate, AggregateModel, ColumnRef, GroupRef, HavingModel, HavingPredicate, OperandModel,
    PredicateModel, QualifiedColumn, QualifiedOperand, QualifiedPredicate, RefOrAgg,
    UpdateExprModel, UpdateValueExpr,
};
use crate::value::{EngineValue, ValueModel};

verus! {

/// Law: a value is of its kind and holds what it was made of.
pub proof fn law_values_mean(i: i64, b: u64, s: String, u: [u8; 16], bytes: Vec<u8>)
    ensures
        EngineValue::Null.deep_view() == ValueModel::Null,
        EngineValue::Integer(i).deep_view() == ValueModel::Integer(i),
        EngineValue::Float(b).deep_view() == ValueModel::Float(b),
        EngineValue::Text(s).deep_view() == ValueModel::Text(s@),
        EngineValue::Uuid(u).deep_view() == ValueModel::Uuid(u@),
        EngineValue::Blob(bytes).deep_view() == ValueModel::Blob(bytes@),
        EngineValue::Json(s).deep_view() == ValueModel::Json(s@),
{
}

/// Law: an operand is the column or the value that it names, and a column is that
/// of its table and place.
pub proof fn law_operands_mean(c: QualifiedColumn, v: EngineValue)
    ensures
        c.deep_view() == (ColumnRef { table: c.table@, column_index: c.column_index }),
        QualifiedOperand::Column(c).deep_view() == OperandModel::Column(c.deep_view()),
        QualifiedOperand::Value(v).deep_view() == OperandModel::Value(v.deep_view()),
        RefOrAgg::Column(c).deep_view() == GroupRef::Column(c.deep_view()),
{
}

/// Law: a condition asks what its name says, of its operands in their order.
pub proof fn law_conditions_mean(
    a: QualifiedOperand,
    b: QualifiedOperand,
    c: QualifiedColumn,
    list: Vec<EngineValue>,
    negated: bool,
    p: QualifiedPredicate,
    q: QualifiedPredicate,
)
    ensures
        QualifiedPredicate::Equals(a, b).deep_view() == PredicateModel::Equals(
            a.deep_view(),
            b.deep_view(),
        ),
        QualifiedPredicate::NotEquals(a, b).deep_view() == PredicateModel::NotEquals(
            a.deep_view(),
            b.deep_view(),
        ),
        QualifiedPredicate::LessThan(a, b).deep_view() == PredicateModel::LessThan(
            a.deep_view(),
            b.deep_view(),
        ),
        QualifiedPredicate::LessThanOrEquals(a, b).deep_view() == PredicateModel::LessThanOrEquals(
            a.deep_view(),
            b.deep_view(),
        ),
        QualifiedPredicate::GreaterThan(a, b).deep_view() == PredicateModel::GreaterThan(
            a.deep_view(),
            b.deep_view(),
        ),
        QualifiedPredicate::GreaterThanOrEquals(a, b).deep_view() == PredicateModel::GreaterThanOrEquals(
            a.deep_view(),
            b.deep_view(),
        ),
        QualifiedPredicate::IsNull(c).deep_view() == PredicateModel::IsNull(c.deep_view()),
        QualifiedPredicate::IsNotNull(c).deep_view() == PredicateModel::IsNotNull(c.deep_view()),
        (QualifiedPredicate::InList { expr: c, list, negated }).deep_view() == (
        PredicateModel::InList { expr: c.deep_view(), list: list.deep_view(), negated }),
        QualifiedPredicate::And(Box::new(p), Box::new(q)).deep_view() == PredicateModel::And(
            Box::new(p.deep_view()),
            Box::new(q.deep_view()),
        ),
        QualifiedPredicate::Or(Box::new(p), Box::new(q)).deep_view() == PredicateModel::Or(
            Box::new(p.deep_view()),
            Box::new(q.deep_view()),
        ),
        QualifiedPredicate::Not(Box::new(p)).deep_view() == PredicateModel::Not(
            Box::new(p.deep_view()),
        ),
{
}

/// Law: a condition on a group asks what its name says.
pub proof fn law_group_conditions_mean(
    of: RefOrAgg,
    v: EngineValue,
    p: HavingPredicate,
    q: HavingPredicate,
)
    ensures
        HavingPredicate::Equals(of, v).deep_view() == HavingModel::Equals(
            of.deep_view(),
            v.deep_view(),
        ),
        HavingPredicate::NotEquals(of, v).deep_view() == HavingModel::NotEquals(
            of.deep_view(),
            v.deep_view(),
        ),
        HavingPredicate::LessThan(of, v).deep_view() == HavingModel::LessThan(
            of.deep_view(),
            v.deep_view(),
        ),
        HavingPredicate::LessThanOrEquals(of, v).deep_view() == HavingModel::LessThanOrEquals(
            of.deep_view(),
            v.deep_view(),
        ),
        HavingPredicate::GreaterThan(of, v).deep_view() == HavingModel::GreaterThan(
            of.deep_view(),
            v.deep_view(),
        ),
        HavingPredicate::GreaterThanOrEquals(of, v).deep_view() == HavingModel::GreaterThanOrEquals(
            of.deep_view(),
            v.deep_view(),
        ),
        HavingPredicate::IsNull(of).deep_view() == HavingModel::IsNull(of.deep_view()),
        HavingPredicate::IsNotNull(of).deep_view() == HavingModel::IsNotNull(of.deep_view()),
        HavingPredicate::And(Box::new(p), Box::new(q)).deep_view() == HavingModel::And(
            Box::new(p.deep_view()),
            Box::new(q.deep_view()),
        ),
        HavingPredicate::Or(Box::new(p), Box::new(q)).deep_view() == HavingModel::Or(
            Box::new(p.deep_view()),
            Box::new(q.deep_view()),
        ),
        HavingPredicate::Not(Box::new(p)).deep_view() == HavingModel::Not(Box::new(p.deep_view())),
{
}

/// Law: an expression of an assignment computes what its name says, of its two
/// sides in their order.
pub proof fn law_expressions_mean(
    v: EngineValue,
    c: QualifiedColumn,
    a: UpdateValueExpr,
    b: UpdateValueExpr,
)
    ensures
        UpdateValueExpr::Value(v).deep_view() == UpdateExprModel::Value(v.deep_view()),
        UpdateValueExpr::Column(c).deep_view() == UpdateExprModel::Column(c.deep_view()),
        UpdateValueExpr::Add(Box::new(a), Box::new(b)).deep_view() == UpdateExprModel::Add(
            Box::new(a.deep_view()),
            Box::new(b.deep_view()),
        ),
        UpdateValueExpr::Subtract(Box::new(a), Box::new(b)).deep_view() == UpdateExprModel::Subtract(
            Box::new(a.deep_view()),
            Box::new(b.deep_view()),
        ),
        UpdateValueExpr::Multiply(Box::new(a), Box::new(b)).deep_view() == UpdateExprModel::Multiply(
            Box::new(a.deep_view()),
            Box::new(b.deep_view()),
        ),
        UpdateValueExpr::Divide(Box::new(a), Box::new(b)).deep_view() == UpdateExprModel::Divide(
            Box::new(a.deep_view()),
            Box::new(b.deep_view()),
        ),
{
}

/// Law: an aggregate is that of its name, over its column.
pub proof fn law_aggregates_mean(c: QualifiedColumn)
    ensures
        Aggregate::Count(None).deep_view() == AggregateModel::Count(None),
        Aggregate::Count(Some(c)).deep_view() == AggregateModel::Count(Some(c.deep_view())),
        Aggregate::Sum(c).deep_view() == AggregateModel::Sum(c.deep_view()),
        Aggregate::Min(c).deep_view() == AggregateModel::Min(c.deep_view()),
        Aggregate::Max(c).deep_view() == AggregateModel::Max(c.deep_view()),
        Aggregate::Avg(c).deep_view() == AggregateModel::Avg(c.deep_view()),
{
}

} // verus!
