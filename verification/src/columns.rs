//! The columns that queries and conditions name.
use vstd::prelude::*;
use crate::plain::{push_back, Plain};
use crate::query::{
    Aggregate, AggregateModel, AssignmentModel, ColumnRef, EngineQuery, GroupRef, HavingModel,
    HavingPredicate, JoinClause, JoinModel, JoinOn, JoinOnModel, OperandModel, OptionsModel,
    OrderBy, OrderModel, PredicateModel, QualifiedColumn, QualifiedOperand, QualifiedPredicate,
    QueryModel, RefOrAgg, SelectOptions, UpdateAssignment, UpdateExprModel, UpdateValueExpr,
};

verus! {

/// A part of a query that names columns.
pub trait NamesColumns: DeepView {
    /// The columns that are named, from left to right.
    spec fn named(part: Self::V) -> Seq<ColumnRef>;

    /// Adds the columns that are named.
    fn gather(&self, out: &mut Vec<QualifiedColumn>)
        ensures
            final(out).deep_view() == old(out).deep_view() + Self::named(self.deep_view()),
    ;
}

/// The columns that the parts of a list name.
pub open spec fn named_by_all<T: NamesColumns>(list: Seq<T::V>) -> Seq<ColumnRef>
    decreases list.len(),
{
    if list.len() == 0 {
        Seq::empty()
    } else {
        named_by_all::<T>(list.drop_last()) + T::named(list.last())
    }
}

/// Adds the columns that the parts of a list name.
fn gather_all<T: NamesColumns>(list: &Vec<T>, out: &mut Vec<QualifiedColumn>)
    ensures
        final(out).deep_view() == old(out).deep_view() + named_by_all::<T>(list.deep_view()),
{
    let ghost all = list.deep_view();
    let ghost first = out.deep_view();
    let mut i: usize = 0;
    proof {
        assert(first + named_by_all::<T>(all.take(0)) =~= first);
    }
    while i < list.len()
        invariant
            i <= list.len(),
            all == list.deep_view(),
            out.deep_view() == first + named_by_all::<T>(all.take(i as int)),
        decreases list.len() - i,
    {
        list[i].gather(out);
        proof {
            assert(all.take(i + 1).drop_last() =~= all.take(i as int));
            assert(all.take(i + 1).last() == list@[i as int].deep_view());
            assert(out.deep_view() =~= first + named_by_all::<T>(all.take(i + 1)));
        }
        i += 1;
    }
    proof {
        assert(all.take(i as int) =~= all);
    }
}

impl NamesColumns for QualifiedColumn {
    open spec fn named(part: ColumnRef) -> Seq<ColumnRef> {
        seq![part]
    }

    fn gather(&self, out: &mut Vec<QualifiedColumn>) {
        let ghost before = out.deep_view();
        push_back(out, self.duplicate());
        proof {
            assert(out.deep_view() =~= before + Self::named(self.deep_view()));
        }
    }
}

impl NamesColumns for QualifiedOperand {
    open spec fn named(part: OperandModel) -> Seq<ColumnRef> {
        match part {
            OperandModel::Column(column) => seq![column],
            OperandModel::Value(_) => Seq::empty(),
        }
    }

    fn gather(&self, out: &mut Vec<QualifiedColumn>) {
        let ghost before = out.deep_view();
        match self {
            QualifiedOperand::Column(column) => column.gather(out),
            QualifiedOperand::Value(_) => {
                assert(out.deep_view() =~= before + Seq::empty());
            },
        }
    }
}

impl NamesColumns for JoinClause {
    open spec fn named(part: JoinModel) -> Seq<ColumnRef> {
        match part.on {
            JoinOnModel::ColumnEq { left, right } => seq![left, right],
        }
    }

    fn gather(&self, out: &mut Vec<QualifiedColumn>) {
        let ghost before = out.deep_view();
        match &self.on {
            JoinOn::ColumnEq { left, right } => {
                left.gather(out);
                right.gather(out);
                proof {
                    assert(out.deep_view() =~= before + seq![left.deep_view(), right.deep_view()]);
                }
            },
        }
    }
}

impl NamesColumns for Aggregate {
    open spec fn named(part: AggregateModel) -> Seq<ColumnRef> {
        match part {
            AggregateModel::Count(None) => Seq::empty(),
            AggregateModel::Count(Some(column)) => seq![column],
            AggregateModel::Sum(column) => seq![column],
            AggregateModel::Min(column) => seq![column],
            AggregateModel::Max(column) => seq![column],
            AggregateModel::Avg(column) => seq![column],
        }
    }

    fn gather(&self, out: &mut Vec<QualifiedColumn>) {
        let ghost before = out.deep_view();
        match self {
            Aggregate::Count(None) => {
                assert(out.deep_view() =~= before + Seq::empty());
            },
            Aggregate::Count(Some(column)) => column.gather(out),
            Aggregate::Sum(column) => column.gather(out),
            Aggregate::Min(column) => column.gather(out),
            Aggregate::Max(column) => column.gather(out),
            Aggregate::Avg(column) => column.gather(out),
        }
    }
}

impl NamesColumns for OrderBy {
    open spec fn named(part: OrderModel) -> Seq<ColumnRef> {
        seq![part.expr]
    }

    fn gather(&self, out: &mut Vec<QualifiedColumn>) {
        self.expr.gather(out);
    }
}

impl NamesColumns for RefOrAgg {
    open spec fn named(part: GroupRef) -> Seq<ColumnRef> {
        match part {
            GroupRef::Column(column) => seq![column],
            GroupRef::AggregateIndex(_) => Seq::empty(),
        }
    }

    fn gather(&self, out: &mut Vec<QualifiedColumn>) {
        let ghost before = out.deep_view();
        match self {
            RefOrAgg::Column(column) => column.gather(out),
            RefOrAgg::AggregateIndex(_) => {
                assert(out.deep_view() =~= before + Seq::empty());
            },
        }
    }
}

/// The columns that a condition on groups names.
pub open spec fn having_columns(p: HavingModel) -> Seq<ColumnRef>
    decreases p,
{
    match p {
        HavingModel::Equals(of, _) => RefOrAgg::named(of),
        HavingModel::NotEquals(of, _) => RefOrAgg::named(of),
        HavingModel::LessThan(of, _) => RefOrAgg::named(of),
        HavingModel::LessThanOrEquals(of, _) => RefOrAgg::named(of),
        HavingModel::GreaterThan(of, _) => RefOrAgg::named(of),
        HavingModel::GreaterThanOrEquals(of, _) => RefOrAgg::named(of),
        HavingModel::IsNull(of) => RefOrAgg::named(of),
        HavingModel::IsNotNull(of) => RefOrAgg::named(of),
        HavingModel::And(a, b) => having_columns(*a) + having_columns(*b),
        HavingModel::Or(a, b) => having_columns(*a) + having_columns(*b),
        HavingModel::Not(a) => having_columns(*a),
    }
}

fn gather_having(p: &HavingPredicate, out: &mut Vec<QualifiedColumn>)
    ensures
        final(out).deep_view() == old(out).deep_view() + having_columns(p.deep_view()),
    decreases p,
{
    let ghost before = out.deep_view();
    match p {
        HavingPredicate::Equals(of, _) => of.gather(out),
        HavingPredicate::NotEquals(of, _) => of.gather(out),
        HavingPredicate::LessThan(of, _) => of.gather(out),
        HavingPredicate::LessThanOrEquals(of, _) => of.gather(out),
        HavingPredicate::GreaterThan(of, _) => of.gather(out),
        HavingPredicate::GreaterThanOrEquals(of, _) => of.gather(out),
        HavingPredicate::IsNull(of) => of.gather(out),
        HavingPredicate::IsNotNull(of) => of.gather(out),
        HavingPredicate::And(a, b) => {
            gather_having(a, out);
            gather_having(b, out);
        },
        HavingPredicate::Or(a, b) => {
            gather_having(a, out);
            gather_having(b, out);
        },
        HavingPredicate::Not(a) => gather_having(a, out),
    }
    proof {
        assert(out.deep_view() =~= before + having_columns(p.deep_view()));
    }
}

impl NamesColumns for SelectOptions {
    open spec fn named(part: OptionsModel) -> Seq<ColumnRef> {
        named_by_all::<JoinClause>(part.joins) + named_by_all::<Aggregate>(part.aggregates)
            + part.group_by + named_by_all::<OrderBy>(part.order_by) + (match part.having {
            Some(p) => having_columns(p),
            None => Seq::empty(),
        })
    }

    fn gather(&self, out: &mut Vec<QualifiedColumn>) {
        let ghost before = out.deep_view();
        gather_all(&self.joins, out);
        gather_all(&self.aggregates, out);
        gather_columns(&self.group_by, out);
        gather_all(&self.order_by, out);
        if let Some(p) = &self.having {
            gather_having(p, out);
        }
        proof {
            assert(out.deep_view() =~= before + Self::named(self.deep_view()));
        }
    }
}

proof fn lemma_columns_themselves(list: Seq<ColumnRef>)
    ensures
        named_by_all::<QualifiedColumn>(list) == list,
    decreases list.len(),
{
    if list.len() > 0 {
        lemma_columns_themselves(list.drop_last());
        assert(list.drop_last() + seq![list.last()] =~= list);
    }
}

/// Adds columns.
fn gather_columns(list: &Vec<QualifiedColumn>, out: &mut Vec<QualifiedColumn>)
    ensures
        final(out).deep_view() == old(out).deep_view() + list.deep_view(),
{
    proof {
        lemma_columns_themselves(list.deep_view());
    }
    gather_all(list, out);
}

/// The columns that an expression names.
pub open spec fn expr_columns(e: UpdateExprModel) -> Seq<ColumnRef>
    decreases e,
{
    match e {
        UpdateExprModel::Value(_) => Seq::empty(),
        UpdateExprModel::Column(column) => seq![column],
        UpdateExprModel::Add(a, b) => expr_columns(*a) + expr_columns(*b),
        UpdateExprModel::Subtract(a, b) => expr_columns(*a) + expr_columns(*b),
        UpdateExprModel::Multiply(a, b) => expr_columns(*a) + expr_columns(*b),
        UpdateExprModel::Divide(a, b) => expr_columns(*a) + expr_columns(*b),
    }
}

fn gather_expr(e: &UpdateValueExpr, out: &mut Vec<QualifiedColumn>)
    ensures
        final(out).deep_view() == old(out).deep_view() + expr_columns(e.deep_view()),
    decreases e,
{
    let ghost before = out.deep_view();
    match e {
        UpdateValueExpr::Value(_) => {},
        UpdateValueExpr::Column(column) => column.gather(out),
        UpdateValueExpr::Add(a, b) => {
            gather_expr(a, out);
            gather_expr(b, out);
        },
        UpdateValueExpr::Subtract(a, b) => {
            gather_expr(a, out);
            gather_expr(b, out);
        },
        UpdateValueExpr::Multiply(a, b) => {
            gather_expr(a, out);
            gather_expr(b, out);
        },
        UpdateValueExpr::Divide(a, b) => {
            gather_expr(a, out);
            gather_expr(b, out);
        },
    }
    proof {
        assert(out.deep_view() =~= before + expr_columns(e.deep_view()));
    }
}

/// The columns that assignments to a table name.
pub open spec fn assigned_columns(table: Seq<char>, list: Seq<AssignmentModel>) -> Seq<ColumnRef>
    decreases list.len(),
{
    if list.len() == 0 {
        Seq::empty()
    } else {
        assigned_columns(table, list.drop_last()).push(
            ColumnRef { table, column_index: list.last().column_index },
        ) + expr_columns(list.last().value)
    }
}

fn gather_assigned(table: &String, list: &Vec<UpdateAssignment>, out: &mut Vec<QualifiedColumn>)
    ensures
        final(out).deep_view() == old(out).deep_view() + assigned_columns(table@, list.deep_view()),
{
    let ghost all = list.deep_view();
    let ghost first = out.deep_view();
    let mut i: usize = 0;
    proof {
        assert(first + assigned_columns(table@, all.take(0)) =~= first);
    }
    while i < list.len()
        invariant
            i <= list.len(),
            all == list.deep_view(),
            out.deep_view() == first + assigned_columns(table@, all.take(i as int)),
        decreases list.len() - i,
    {
        let a = &list[i];
        push_back(out, QualifiedColumn { table: table.clone(), column_index: a.column_index });
        gather_expr(&a.value, out);
        proof {
            assert(all.take(i + 1).drop_last() =~= all.take(i as int));
            assert(all.take(i + 1).last() == a.deep_view());
            assert(out.deep_view() =~= first + assigned_columns(table@, all.take(i + 1)));
        }
        i += 1;
    }
    proof {
        assert(all.take(i as int) =~= all);
    }
}

/// The columns that a condition names, those of its subqueries included.
pub open spec fn predicate_columns(p: PredicateModel) -> Seq<ColumnRef>
    decreases p,
{
    match p {
        PredicateModel::Equals(a, b) => QualifiedOperand::named(a) + QualifiedOperand::named(b),
        PredicateModel::NotEquals(a, b) => QualifiedOperand::named(a) + QualifiedOperand::named(b),
        PredicateModel::LessThan(a, b) => QualifiedOperand::named(a) + QualifiedOperand::named(b),
        PredicateModel::LessThanOrEquals(a, b) => QualifiedOperand::named(a)
            + QualifiedOperand::named(b),
        PredicateModel::GreaterThan(a, b) => QualifiedOperand::named(a) + QualifiedOperand::named(
            b,
        ),
        PredicateModel::GreaterThanOrEquals(a, b) => QualifiedOperand::named(a)
            + QualifiedOperand::named(b),
        PredicateModel::IsNull(column) => seq![column],
        PredicateModel::IsNotNull(column) => seq![column],
        PredicateModel::InList { expr, .. } => seq![expr],
        PredicateModel::InSubquery { expr, subquery, .. } => seq![expr] + query_columns(*subquery),
        PredicateModel::And(a, b) => predicate_columns(*a) + predicate_columns(*b),
        PredicateModel::Or(a, b) => predicate_columns(*a) + predicate_columns(*b),
        PredicateModel::Not(a) => predicate_columns(*a),
    }
}

/// The columns that a query names, those of its subqueries included.
pub open spec fn query_columns(q: QueryModel) -> Seq<ColumnRef>
    decreases q,
{
    match q {
        QueryModel::Select { projection, predicate, options, .. } => projection + (
        match predicate {
            Some(p) => predicate_columns(p),
            None => Seq::empty(),
        }) + SelectOptions::named(options),
        QueryModel::Insert { .. } => Seq::empty(),
        QueryModel::Update { table, assignments, predicate, joins, returning, .. } =>
            assigned_columns(table, assignments) + (match predicate {
            Some(p) => predicate_columns(p),
            None => Seq::empty(),
        }) + named_by_all::<JoinClause>(joins) + (match returning {
            Some(columns) => columns,
            None => Seq::empty(),
        }),
        QueryModel::Delete { predicate, returning, .. } => (match predicate {
            Some(p) => predicate_columns(p),
            None => Seq::empty(),
        }) + (match returning {
            Some(columns) => columns,
            None => Seq::empty(),
        }),
    }
}

/// Adds the columns that a condition names, those of its subqueries included.
pub fn gather_predicate(p: &QualifiedPredicate, out: &mut Vec<QualifiedColumn>)
    ensures
        final(out).deep_view() == old(out).deep_view() + predicate_columns(p.deep_view()),
    decreases p,
{
    let ghost before = out.deep_view();
    match p {
        QualifiedPredicate::Equals(a, b) => {
            a.gather(out);
            b.gather(out);
        },
        QualifiedPredicate::NotEquals(a, b) => {
            a.gather(out);
            b.gather(out);
        },
        QualifiedPredicate::LessThan(a, b) => {
            a.gather(out);
            b.gather(out);
        },
        QualifiedPredicate::LessThanOrEquals(a, b) => {
            a.gather(out);
            b.gather(out);
        },
        QualifiedPredicate::GreaterThan(a, b) => {
            a.gather(out);
            b.gather(out);
        },
        QualifiedPredicate::GreaterThanOrEquals(a, b) => {
            a.gather(out);
            b.gather(out);
        },
        QualifiedPredicate::IsNull(column) => column.gather(out),
        QualifiedPredicate::IsNotNull(column) => column.gather(out),
        QualifiedPredicate::InList { expr, .. } => expr.gather(out),
        QualifiedPredicate::InSubquery { expr, subquery, .. } => {
            expr.gather(out);
            gather_query(subquery, out);
        },
        QualifiedPredicate::And(a, b) => {
            gather_predicate(a, out);
            gather_predicate(b, out);
        },
        QualifiedPredicate::Or(a, b) => {
            gather_predicate(a, out);
            gather_predicate(b, out);
        },
        QualifiedPredicate::Not(a) => gather_predicate(a, out),
    }
    proof {
        assert(out.deep_view() =~= before + predicate_columns(p.deep_view()));
    }
}

/// Adds the columns that a query names, those of its subqueries included.
pub fn gather_query(q: &EngineQuery, out: &mut Vec<QualifiedColumn>)
    ensures
        final(out).deep_view() == old(out).deep_view() + query_columns(q.deep_view()),
    decreases q,
{
    let ghost before = out.deep_view();
    match q {
        EngineQuery::Select { projection, predicate, options, .. } => {
            gather_columns(projection, out);
            if let Some(p) = predicate {
                gather_predicate(p, out);
            }
            options.gather(out);
        },
        EngineQuery::Insert { .. } => {},
        EngineQuery::Update { table, assignments, predicate, joins, returning, .. } => {
            gather_assigned(table, assignments, out);
            if let Some(p) = predicate {
                gather_predicate(p, out);
            }
            gather_all(joins, out);
            if let Some(columns) = returning {
                gather_columns(columns, out);
            }
        },
        EngineQuery::Delete { predicate, returning, .. } => {
            if let Some(p) = predicate {
                gather_predicate(p, out);
            }
            if let Some(columns) = returning {
                gather_columns(columns, out);
            }
        },
    }
    proof {
        assert(out.deep_view() =~= before + query_columns(q.deep_view()));
    }
}

} // verus!
