//! Queries: what is read, written, updated or deleted.
use vstd::prelude::*;
use crate::plain::{contains_text, no_items, one_item, push_back, same_text, Plain};
use crate::value::{EngineRow, EngineValue, ValueModel};

verus! {

/// A column of a table, by the table's name and the column's place.
#[derive(Clone, Debug, PartialEq, Eq, Hash)]
pub struct QualifiedColumn {
    pub table: String,
    pub column_index: usize,
}

#[verifier::ext_equal]
pub struct ColumnRef {
    pub table: Seq<char>,
    pub column_index: usize,
}

impl DeepView for QualifiedColumn {
    type V = ColumnRef;

    open spec fn deep_view(&self) -> ColumnRef {
        ColumnRef { table: self.table@, column_index: self.column_index }
    }
}

impl Plain for QualifiedColumn {
    fn duplicate(&self) -> (r: Self) {
        QualifiedColumn { table: self.table.clone(), column_index: self.column_index }
    }

    fn same(&self, other: &Self) -> (r: bool) {
        self.column_index == other.column_index && same_text(
            self.table.as_str(),
            other.table.as_str(),
        )
    }
}

/// An expression that gives a column its new value.
#[derive(Debug, PartialEq, Eq)]
pub enum UpdateValueExpr {
    Value(EngineValue),
    Column(QualifiedColumn),
    Add(Box<UpdateValueExpr>, Box<UpdateValueExpr>),
    Subtract(Box<UpdateValueExpr>, Box<UpdateValueExpr>),
    Multiply(Box<UpdateValueExpr>, Box<UpdateValueExpr>),
    Divide(Box<UpdateValueExpr>, Box<UpdateValueExpr>),
}

#[verifier::ext_equal]
pub enum UpdateExprModel {
    Value(ValueModel),
    Column(ColumnRef),
    Add(Box<UpdateExprModel>, Box<UpdateExprModel>),
    Subtract(Box<UpdateExprModel>, Box<UpdateExprModel>),
    Multiply(Box<UpdateExprModel>, Box<UpdateExprModel>),
    Divide(Box<UpdateExprModel>, Box<UpdateExprModel>),
}

pub open spec fn update_expr_model(x: UpdateValueExpr) -> UpdateExprModel
    decreases x,
{
    match x {
        UpdateValueExpr::Value(value) => UpdateExprModel::Value(value.deep_view()),
        UpdateValueExpr::Column(column) => UpdateExprModel::Column(column.deep_view()),
        UpdateValueExpr::Add(left, right) => UpdateExprModel::Add(Box::new(update_expr_model(*left)), Box::new(update_expr_model(*right))),
        UpdateValueExpr::Subtract(left, right) => UpdateExprModel::Subtract(Box::new(update_expr_model(*left)), Box::new(update_expr_model(*right))),
        UpdateValueExpr::Multiply(left, right) => UpdateExprModel::Multiply(Box::new(update_expr_model(*left)), Box::new(update_expr_model(*right))),
        UpdateValueExpr::Divide(left, right) => UpdateExprModel::Divide(Box::new(update_expr_model(*left)), Box::new(update_expr_model(*right))),
    }
}

impl DeepView for UpdateValueExpr {
    type V = UpdateExprModel;

    open spec fn deep_view(&self) -> UpdateExprModel {
        update_expr_model(*self)
    }
}

impl Clone for UpdateValueExpr {
    fn clone(&self) -> (r: Self)
        ensures
            r.deep_view() == self.deep_view(),
    {
        self.duplicate()
    }
}

impl Plain for UpdateValueExpr {
    fn duplicate(&self) -> (r: Self)
        decreases self,
    {
        match self {
            UpdateValueExpr::Value(value) => UpdateValueExpr::Value(value.duplicate()),
            UpdateValueExpr::Column(column) => UpdateValueExpr::Column(column.duplicate()),
            UpdateValueExpr::Add(left, right) => UpdateValueExpr::Add(Box::new((**left).duplicate()), Box::new((**right).duplicate())),
            UpdateValueExpr::Subtract(left, right) => UpdateValueExpr::Subtract(Box::new((**left).duplicate()), Box::new((**right).duplicate())),
            UpdateValueExpr::Multiply(left, right) => UpdateValueExpr::Multiply(Box::new((**left).duplicate()), Box::new((**right).duplicate())),
            UpdateValueExpr::Divide(left, right) => UpdateValueExpr::Divide(Box::new((**left).duplicate()), Box::new((**right).duplicate())),
        }
    }

    fn same(&self, other: &Self) -> (r: bool)
        decreases self,
    {
        match (self, other) {
            (UpdateValueExpr::Value(a_value), UpdateValueExpr::Value(b_value)) => a_value.same(b_value),
            (UpdateValueExpr::Column(a_column), UpdateValueExpr::Column(b_column)) => a_column.same(b_column),
            (UpdateValueExpr::Add(a_left, a_right), UpdateValueExpr::Add(b_left, b_right)) => (**a_left).same(&**b_left) && (**a_right).same(&**b_right),
            (UpdateValueExpr::Subtract(a_left, a_right), UpdateValueExpr::Subtract(b_left, b_right)) => (**a_left).same(&**b_left) && (**a_right).same(&**b_right),
            (UpdateValueExpr::Multiply(a_left, a_right), UpdateValueExpr::Multiply(b_left, b_right)) => (**a_left).same(&**b_left) && (**a_right).same(&**b_right),
            (UpdateValueExpr::Divide(a_left, a_right), UpdateValueExpr::Divide(b_left, b_right)) => (**a_left).same(&**b_left) && (**a_right).same(&**b_right),
            _ => false,
        }
    }
}

/// The new value of one column.
#[derive(Clone, Debug, PartialEq, Eq)]
pub struct UpdateAssignment {
    pub column_index: usize,
    pub value: UpdateValueExpr,
}

#[verifier::ext_equal]
pub struct AssignmentModel {
    pub column_index: usize,
    pub value: UpdateExprModel,
}

impl DeepView for UpdateAssignment {
    type V = AssignmentModel;

    open spec fn deep_view(&self) -> AssignmentModel {
        AssignmentModel {
            column_index: self.column_index,
            value: self.value.deep_view(),
        }
    }
}

impl Plain for UpdateAssignment {
    fn duplicate(&self) -> (r: Self) {
        UpdateAssignment {
            column_index: self.column_index,
            value: self.value.duplicate(),
        }
    }

    fn same(&self, other: &Self) -> (r: bool) {
        self.column_index == other.column_index
            && self.value.same(&other.value)
    }
}

impl UpdateAssignment {
    /// Assigns a plain value.
    pub fn value(column_index: usize, value: EngineValue) -> (r: UpdateAssignment)
        ensures
            r.deep_view() == (AssignmentModel {
                column_index,
                value: UpdateExprModel::Value(value.deep_view()),
            }),
    {
        UpdateAssignment { column_index, value: UpdateValueExpr::Value(value) }
    }
}

/// Which rows a join keeps.
#[derive(Clone, Copy, Debug, PartialEq, Eq, Structural)]
pub enum JoinKind {
    Inner,
    Left,
    Right,
    Full,
}

impl DeepView for JoinKind {
    type V = JoinKind;

    open spec fn deep_view(&self) -> JoinKind {
        *self
    }
}

impl Plain for JoinKind {
    fn duplicate(&self) -> (r: Self) {
        *self
    }

    fn same(&self, other: &Self) -> (r: bool) {
        *self == *other
    }
}

/// When two rows join.
#[derive(Clone, Debug, PartialEq, Eq)]
pub enum JoinOn {
    ColumnEq { left: QualifiedColumn, right: QualifiedColumn },
}

#[verifier::ext_equal]
pub enum JoinOnModel {
    ColumnEq { left: ColumnRef, right: ColumnRef },
}

impl DeepView for JoinOn {
    type V = JoinOnModel;

    open spec fn deep_view(&self) -> JoinOnModel {
        match self {
            JoinOn::ColumnEq { left, right } => JoinOnModel::ColumnEq { left: left.deep_view(), right: right.deep_view() },
        }
    }
}

impl Plain for JoinOn {
    fn duplicate(&self) -> (r: Self) {
        match self {
            JoinOn::ColumnEq { left, right } => JoinOn::ColumnEq { left: left.duplicate(), right: right.duplicate() },
        }
    }

    fn same(&self, other: &Self) -> (r: bool) {
        match (self, other) {
            (JoinOn::ColumnEq { left: a_left, right: a_right }, JoinOn::ColumnEq { left: b_left, right: b_right }) => a_left.same(b_left) && a_right.same(b_right),
        }
    }
}

/// A join with one more table.
#[derive(Clone, Debug, PartialEq, Eq)]
pub struct JoinClause {
    pub kind: JoinKind,
    pub left_table: String,
    pub right_table: String,
    pub on: JoinOn,
}

#[verifier::ext_equal]
pub struct JoinModel {
    pub kind: JoinKind,
    pub left_table: Seq<char>,
    pub right_table: Seq<char>,
    pub on: JoinOnModel,
}

impl DeepView for JoinClause {
    type V = JoinModel;

    open spec fn deep_view(&self) -> JoinModel {
        JoinModel {
            kind: self.kind,
            left_table: self.left_table@,
            right_table: self.right_table@,
            on: self.on.deep_view(),
        }
    }
}

impl Plain for JoinClause {
    fn duplicate(&self) -> (r: Self) {
        JoinClause {
            kind: self.kind,
            left_table: self.left_table.clone(),
            right_table: self.right_table.clone(),
            on: self.on.duplicate(),
        }
    }

    fn same(&self, other: &Self) -> (r: bool) {
        self.kind == other.kind
            && same_text(self.left_table.as_str(), other.left_table.as_str())
            && same_text(self.right_table.as_str(), other.right_table.as_str())
            && self.on.same(&other.on)
    }
}

/// A value computed over a group of rows.
#[derive(Clone, Debug, PartialEq, Eq)]
pub enum Aggregate {
    Count(Option<QualifiedColumn>),
    Sum(QualifiedColumn),
    Min(QualifiedColumn),
    Max(QualifiedColumn),
    Avg(QualifiedColumn),
}

#[verifier::ext_equal]
pub enum AggregateModel {
    Count(Option<ColumnRef>),
    Sum(ColumnRef),
    Min(ColumnRef),
    Max(ColumnRef),
    Avg(ColumnRef),
}

impl DeepView for Aggregate {
    type V = AggregateModel;

    open spec fn deep_view(&self) -> AggregateModel {
        match self {
            Aggregate::Count(column) => AggregateModel::Count(column.deep_view()),
            Aggregate::Sum(column) => AggregateModel::Sum(column.deep_view()),
            Aggregate::Min(column) => AggregateModel::Min(column.deep_view()),
            Aggregate::Max(column) => AggregateModel::Max(column.deep_view()),
            Aggregate::Avg(column) => AggregateModel::Avg(column.deep_view()),
        }
    }
}

impl Plain for Aggregate {
    fn duplicate(&self) -> (r: Self) {
        match self {
            Aggregate::Count(column) => Aggregate::Count(column.duplicate()),
            Aggregate::Sum(column) => Aggregate::Sum(column.duplicate()),
            Aggregate::Min(column) => Aggregate::Min(column.duplicate()),
            Aggregate::Max(column) => Aggregate::Max(column.duplicate()),
            Aggregate::Avg(column) => Aggregate::Avg(column.duplicate()),
        }
    }

    fn same(&self, other: &Self) -> (r: bool) {
        match (self, other) {
            (Aggregate::Count(a_column), Aggregate::Count(b_column)) => a_column.same(b_column),
            (Aggregate::Sum(a_column), Aggregate::Sum(b_column)) => a_column.same(b_column),
            (Aggregate::Min(a_column), Aggregate::Min(b_column)) => a_column.same(b_column),
            (Aggregate::Max(a_column), Aggregate::Max(b_column)) => a_column.same(b_column),
            (Aggregate::Avg(a_column), Aggregate::Avg(b_column)) => a_column.same(b_column),
            _ => false,
        }
    }
}

/// Whether small values come first or last.
#[derive(Clone, Copy, Debug, PartialEq, Eq, Structural)]
pub enum SortDirection {
    Asc,
    Desc,
}

impl DeepView for SortDirection {
    type V = SortDirection;

    open spec fn deep_view(&self) -> SortDirection {
        *self
    }
}

impl Plain for SortDirection {
    fn duplicate(&self) -> (r: Self) {
        *self
    }

    fn same(&self, other: &Self) -> (r: bool) {
        *self == *other
    }
}

/// A column to sort by.
#[derive(Clone, Debug, PartialEq, Eq)]
pub struct OrderBy {
    pub expr: QualifiedColumn,
    pub direction: SortDirection,
}

#[verifier::ext_equal]
pub struct OrderModel {
    pub expr: ColumnRef,
    pub direction: SortDirection,
}

impl DeepView for OrderBy {
    type V = OrderModel;

    open spec fn deep_view(&self) -> OrderModel {
        OrderModel {
            expr: self.expr.deep_view(),
            direction: self.direction,
        }
    }
}

impl Plain for OrderBy {
    fn duplicate(&self) -> (r: Self) {
        OrderBy {
            expr: self.expr.duplicate(),
            direction: self.direction,
        }
    }

    fn same(&self, other: &Self) -> (r: bool) {
        self.expr.same(&other.expr)
            && self.direction == other.direction
    }
}

/// A side of a comparison.
#[derive(Clone, Debug, PartialEq, Eq)]
pub enum QualifiedOperand {
    Column(QualifiedColumn),
    Value(EngineValue),
}

#[verifier::ext_equal]
pub enum OperandModel {
    Column(ColumnRef),
    Value(ValueModel),
}

impl DeepView for QualifiedOperand {
    type V = OperandModel;

    open spec fn deep_view(&self) -> OperandModel {
        match self {
            QualifiedOperand::Column(column) => OperandModel::Column(column.deep_view()),
            QualifiedOperand::Value(value) => OperandModel::Value(value.deep_view()),
        }
    }
}

impl Plain for QualifiedOperand {
    fn duplicate(&self) -> (r: Self) {
        match self {
            QualifiedOperand::Column(column) => QualifiedOperand::Column(column.duplicate()),
            QualifiedOperand::Value(value) => QualifiedOperand::Value(value.duplicate()),
        }
    }

    fn same(&self, other: &Self) -> (r: bool) {
        match (self, other) {
            (QualifiedOperand::Column(a_column), QualifiedOperand::Column(b_column)) => a_column.same(b_column),
            (QualifiedOperand::Value(a_value), QualifiedOperand::Value(b_value)) => a_value.same(b_value),
            _ => false,
        }
    }
}

/// A condition on the columns of joined rows.
#[derive(Debug, PartialEq, Eq)]
pub enum QualifiedPredicate {
    Equals(QualifiedOperand, QualifiedOperand),
    NotEquals(QualifiedOperand, QualifiedOperand),
    LessThan(QualifiedOperand, QualifiedOperand),
    LessThanOrEquals(QualifiedOperand, QualifiedOperand),
    GreaterThan(QualifiedOperand, QualifiedOperand),
    GreaterThanOrEquals(QualifiedOperand, QualifiedOperand),
    IsNull(QualifiedColumn),
    IsNotNull(QualifiedColumn),
    InList { expr: QualifiedColumn, list: Vec<EngineValue>, negated: bool },
    InSubquery { expr: QualifiedColumn, subquery: Box<EngineQuery>, negated: bool },
    And(Box<QualifiedPredicate>, Box<QualifiedPredicate>),
    Or(Box<QualifiedPredicate>, Box<QualifiedPredicate>),
    Not(Box<QualifiedPredicate>),
}

#[verifier::ext_equal]
pub enum PredicateModel {
    Equals(OperandModel, OperandModel),
    NotEquals(OperandModel, OperandModel),
    LessThan(OperandModel, OperandModel),
    LessThanOrEquals(OperandModel, OperandModel),
    GreaterThan(OperandModel, OperandModel),
    GreaterThanOrEquals(OperandModel, OperandModel),
    IsNull(ColumnRef),
    IsNotNull(ColumnRef),
    InList { expr: ColumnRef, list: Seq<ValueModel>, negated: bool },
    InSubquery { expr: ColumnRef, subquery: Box<QueryModel>, negated: bool },
    And(Box<PredicateModel>, Box<PredicateModel>),
    Or(Box<PredicateModel>, Box<PredicateModel>),
    Not(Box<PredicateModel>),
}

pub open spec fn predicate_model(x: QualifiedPredicate) -> PredicateModel
    decreases x,
{
    match x {
        QualifiedPredicate::Equals(left, right) => PredicateModel::Equals(left.deep_view(), right.deep_view()),
        QualifiedPredicate::NotEquals(left, right) => PredicateModel::NotEquals(left.deep_view(), right.deep_view()),
        QualifiedPredicate::LessThan(left, right) => PredicateModel::LessThan(left.deep_view(), right.deep_view()),
        QualifiedPredicate::LessThanOrEquals(left, right) => PredicateModel::LessThanOrEquals(left.deep_view(), right.deep_view()),
        QualifiedPredicate::GreaterThan(left, right) => PredicateModel::GreaterThan(left.deep_view(), right.deep_view()),
        QualifiedPredicate::GreaterThanOrEquals(left, right) => PredicateModel::GreaterThanOrEquals(left.deep_view(), right.deep_view()),
        QualifiedPredicate::IsNull(column) => PredicateModel::IsNull(column.deep_view()),
        QualifiedPredicate::IsNotNull(column) => PredicateModel::IsNotNull(column.deep_view()),
        QualifiedPredicate::InList { expr, list, negated } => PredicateModel::InList { expr: expr.deep_view(), list: list.deep_view(), negated: negated },
        QualifiedPredicate::InSubquery { expr, subquery, negated } => PredicateModel::InSubquery { expr: expr.deep_view(), subquery: Box::new(query_model(*subquery)), negated: negated },
        QualifiedPredicate::And(left, right) => PredicateModel::And(Box::new(predicate_model(*left)), Box::new(predicate_model(*right))),
        QualifiedPredicate::Or(left, right) => PredicateModel::Or(Box::new(predicate_model(*left)), Box::new(predicate_model(*right))),
        QualifiedPredicate::Not(inner) => PredicateModel::Not(Box::new(predicate_model(*inner))),
    }
}

impl DeepView for QualifiedPredicate {
    type V = PredicateModel;

    open spec fn deep_view(&self) -> PredicateModel {
        predicate_model(*self)
    }
}

impl Clone for QualifiedPredicate {
    fn clone(&self) -> (r: Self)
        ensures
            r.deep_view() == self.deep_view(),
    {
        self.duplicate()
    }
}

impl Plain for QualifiedPredicate {
    fn duplicate(&self) -> (r: Self)
        decreases self,
    {
        match self {
            QualifiedPredicate::Equals(left, right) => QualifiedPredicate::Equals(left.duplicate(), right.duplicate()),
            QualifiedPredicate::NotEquals(left, right) => QualifiedPredicate::NotEquals(left.duplicate(), right.duplicate()),
            QualifiedPredicate::LessThan(left, right) => QualifiedPredicate::LessThan(left.duplicate(), right.duplicate()),
            QualifiedPredicate::LessThanOrEquals(left, right) => QualifiedPredicate::LessThanOrEquals(left.duplicate(), right.duplicate()),
            QualifiedPredicate::GreaterThan(left, right) => QualifiedPredicate::GreaterThan(left.duplicate(), right.duplicate()),
            QualifiedPredicate::GreaterThanOrEquals(left, right) => QualifiedPredicate::GreaterThanOrEquals(left.duplicate(), right.duplicate()),
            QualifiedPredicate::IsNull(column) => QualifiedPredicate::IsNull(column.duplicate()),
            QualifiedPredicate::IsNotNull(column) => QualifiedPredicate::IsNotNull(column.duplicate()),
            QualifiedPredicate::InList { expr, list, negated } => QualifiedPredicate::InList { expr: expr.duplicate(), list: list.duplicate(), negated: *negated },
            QualifiedPredicate::InSubquery { expr, subquery, negated } => QualifiedPredicate::InSubquery { expr: expr.duplicate(), subquery: Box::new((**subquery).duplicate()), negated: *negated },
            QualifiedPredicate::And(left, right) => QualifiedPredicate::And(Box::new((**left).duplicate()), Box::new((**right).duplicate())),
            QualifiedPredicate::Or(left, right) => QualifiedPredicate::Or(Box::new((**left).duplicate()), Box::new((**right).duplicate())),
            QualifiedPredicate::Not(inner) => QualifiedPredicate::Not(Box::new((**inner).duplicate())),
        }
    }

    fn same(&self, other: &Self) -> (r: bool)
        decreases self,
    {
        match (self, other) {
            (QualifiedPredicate::Equals(a_left, a_right), QualifiedPredicate::Equals(b_left, b_right)) => a_left.same(b_left) && a_right.same(b_right),
            (QualifiedPredicate::NotEquals(a_left, a_right), QualifiedPredicate::NotEquals(b_left, b_right)) => a_left.same(b_left) && a_right.same(b_right),
            (QualifiedPredicate::LessThan(a_left, a_right), QualifiedPredicate::LessThan(b_left, b_right)) => a_left.same(b_left) && a_right.same(b_right),
            (QualifiedPredicate::LessThanOrEquals(a_left, a_right), QualifiedPredicate::LessThanOrEquals(b_left, b_right)) => a_left.same(b_left) && a_right.same(b_right),
            (QualifiedPredicate::GreaterThan(a_left, a_right), QualifiedPredicate::GreaterThan(b_left, b_right)) => a_left.same(b_left) && a_right.same(b_right),
            (QualifiedPredicate::GreaterThanOrEquals(a_left, a_right), QualifiedPredicate::GreaterThanOrEquals(b_left, b_right)) => a_left.same(b_left) && a_right.same(b_right),
            (QualifiedPredicate::IsNull(a_column), QualifiedPredicate::IsNull(b_column)) => a_column.same(b_column),
            (QualifiedPredicate::IsNotNull(a_column), QualifiedPredicate::IsNotNull(b_column)) => a_column.same(b_column),
            (QualifiedPredicate::InList { expr: a_expr, list: a_list, negated: a_negated }, QualifiedPredicate::InList { expr: b_expr, list: b_list, negated: b_negated }) => a_expr.same(b_expr) && a_list.same(b_list) && *a_negated == *b_negated,
            (QualifiedPredicate::InSubquery { expr: a_expr, subquery: a_subquery, negated: a_negated }, QualifiedPredicate::InSubquery { expr: b_expr, subquery: b_subquery, negated: b_negated }) => a_expr.same(b_expr) && (**a_subquery).same(&**b_subquery) && *a_negated == *b_negated,
            (QualifiedPredicate::And(a_left, a_right), QualifiedPredicate::And(b_left, b_right)) => (**a_left).same(&**b_left) && (**a_right).same(&**b_right),
            (QualifiedPredicate::Or(a_left, a_right), QualifiedPredicate::Or(b_left, b_right)) => (**a_left).same(&**b_left) && (**a_right).same(&**b_right),
            (QualifiedPredicate::Not(a_inner), QualifiedPredicate::Not(b_inner)) => (**a_inner).same(&**b_inner),
            _ => false,
        }
    }
}

/// What a condition on a group looks at.
#[derive(Clone, Debug, PartialEq, Eq)]
pub enum RefOrAgg {
    Column(QualifiedColumn),
    AggregateIndex(usize),
}

#[verifier::ext_equal]
pub enum GroupRef {
    Column(ColumnRef),
    AggregateIndex(usize),
}

impl DeepView for RefOrAgg {
    type V = GroupRef;

    open spec fn deep_view(&self) -> GroupRef {
        match self {
            RefOrAgg::Column(column) => GroupRef::Column(column.deep_view()),
            RefOrAgg::AggregateIndex(index) => GroupRef::AggregateIndex(*index),
        }
    }
}

impl Plain for RefOrAgg {
    fn duplicate(&self) -> (r: Self) {
        match self {
            RefOrAgg::Column(column) => RefOrAgg::Column(column.duplicate()),
            RefOrAgg::AggregateIndex(index) => RefOrAgg::AggregateIndex(*index),
        }
    }

    fn same(&self, other: &Self) -> (r: bool) {
        match (self, other) {
            (RefOrAgg::Column(a_column), RefOrAgg::Column(b_column)) => a_column.same(b_column),
            (RefOrAgg::AggregateIndex(a_index), RefOrAgg::AggregateIndex(b_index)) => *a_index == *b_index,
            _ => false,
        }
    }
}

/// A condition on a group of rows.
#[derive(Debug, PartialEq, Eq)]
pub enum HavingPredicate {
    Equals(RefOrAgg, EngineValue),
    NotEquals(RefOrAgg, EngineValue),
    LessThan(RefOrAgg, EngineValue),
    LessThanOrEquals(RefOrAgg, EngineValue),
    GreaterThan(RefOrAgg, EngineValue),
    GreaterThanOrEquals(RefOrAgg, EngineValue),
    IsNull(RefOrAgg),
    IsNotNull(RefOrAgg),
    And(Box<HavingPredicate>, Box<HavingPredicate>),
    Or(Box<HavingPredicate>, Box<HavingPredicate>),
    Not(Box<HavingPredicate>),
}

#[verifier::ext_equal]
pub enum HavingModel {
    Equals(GroupRef, ValueModel),
    NotEquals(GroupRef, ValueModel),
    LessThan(GroupRef, ValueModel),
    LessThanOrEquals(GroupRef, ValueModel),
    GreaterThan(GroupRef, ValueModel),
    GreaterThanOrEquals(GroupRef, ValueModel),
    IsNull(GroupRef),
    IsNotNull(GroupRef),
    And(Box<HavingModel>, Box<HavingModel>),
    Or(Box<HavingModel>, Box<HavingModel>),
    Not(Box<HavingModel>),
}

pub open spec fn having_model(x: HavingPredicate) -> HavingModel
    decreases x,
{
    match x {
        HavingPredicate::Equals(of, value) => HavingModel::Equals(of.deep_view(), value.deep_view()),
        HavingPredicate::NotEquals(of, value) => HavingModel::NotEquals(of.deep_view(), value.deep_view()),
        HavingPredicate::LessThan(of, value) => HavingModel::LessThan(of.deep_view(), value.deep_view()),
        HavingPredicate::LessThanOrEquals(of, value) => HavingModel::LessThanOrEquals(of.deep_view(), value.deep_view()),
        HavingPredicate::GreaterThan(of, value) => HavingModel::GreaterThan(of.deep_view(), value.deep_view()),
        HavingPredicate::GreaterThanOrEquals(of, value) => HavingModel::GreaterThanOrEquals(of.deep_view(), value.deep_view()),
        HavingPredicate::IsNull(of) => HavingModel::IsNull(of.deep_view()),
        HavingPredicate::IsNotNull(of) => HavingModel::IsNotNull(of.deep_view()),
        HavingPredicate::And(left, right) => HavingModel::And(Box::new(having_model(*left)), Box::new(having_model(*right))),
        HavingPredicate::Or(left, right) => HavingModel::Or(Box::new(having_model(*left)), Box::new(having_model(*right))),
        HavingPredicate::Not(inner) => HavingModel::Not(Box::new(having_model(*inner))),
    }
}

impl DeepView for HavingPredicate {
    type V = HavingModel;

    open spec fn deep_view(&self) -> HavingModel {
        having_model(*self)
    }
}

impl Clone for HavingPredicate {
    fn clone(&self) -> (r: Self)
        ensures
            r.deep_view() == self.deep_view(),
    {
        self.duplicate()
    }
}

impl Plain for HavingPredicate {
    fn duplicate(&self) -> (r: Self)
        decreases self,
    {
        match self {
            HavingPredicate::Equals(of, value) => HavingPredicate::Equals(of.duplicate(), value.duplicate()),
            HavingPredicate::NotEquals(of, value) => HavingPredicate::NotEquals(of.duplicate(), value.duplicate()),
            HavingPredicate::LessThan(of, value) => HavingPredicate::LessThan(of.duplicate(), value.duplicate()),
            HavingPredicate::LessThanOrEquals(of, value) => HavingPredicate::LessThanOrEquals(of.duplicate(), value.duplicate()),
            HavingPredicate::GreaterThan(of, value) => HavingPredicate::GreaterThan(of.duplicate(), value.duplicate()),
            HavingPredicate::GreaterThanOrEquals(of, value) => HavingPredicate::GreaterThanOrEquals(of.duplicate(), value.duplicate()),
            HavingPredicate::IsNull(of) => HavingPredicate::IsNull(of.duplicate()),
            HavingPredicate::IsNotNull(of) => HavingPredicate::IsNotNull(of.duplicate()),
            HavingPredicate::And(left, right) => HavingPredicate::And(Box::new((**left).duplicate()), Box::new((**right).duplicate())),
            HavingPredicate::Or(left, right) => HavingPredicate::Or(Box::new((**left).duplicate()), Box::new((**right).duplicate())),
            HavingPredicate::Not(inner) => HavingPredicate::Not(Box::new((**inner).duplicate())),
        }
    }

    fn same(&self, other: &Self) -> (r: bool)
        decreases self,
    {
        match (self, other) {
            (HavingPredicate::Equals(a_of, a_value), HavingPredicate::Equals(b_of, b_value)) => a_of.same(b_of) && a_value.same(b_value),
            (HavingPredicate::NotEquals(a_of, a_value), HavingPredicate::NotEquals(b_of, b_value)) => a_of.same(b_of) && a_value.same(b_value),
            (HavingPredicate::LessThan(a_of, a_value), HavingPredicate::LessThan(b_of, b_value)) => a_of.same(b_of) && a_value.same(b_value),
            (HavingPredicate::LessThanOrEquals(a_of, a_value), HavingPredicate::LessThanOrEquals(b_of, b_value)) => a_of.same(b_of) && a_value.same(b_value),
            (HavingPredicate::GreaterThan(a_of, a_value), HavingPredicate::GreaterThan(b_of, b_value)) => a_of.same(b_of) && a_value.same(b_value),
            (HavingPredicate::GreaterThanOrEquals(a_of, a_value), HavingPredicate::GreaterThanOrEquals(b_of, b_value)) => a_of.same(b_of) && a_value.same(b_value),
            (HavingPredicate::IsNull(a_of), HavingPredicate::IsNull(b_of)) => a_of.same(b_of),
            (HavingPredicate::IsNotNull(a_of), HavingPredicate::IsNotNull(b_of)) => a_of.same(b_of),
            (HavingPredicate::And(a_left, a_right), HavingPredicate::And(b_left, b_right)) => (**a_left).same(&**b_left) && (**a_right).same(&**b_right),
            (HavingPredicate::Or(a_left, a_right), HavingPredicate::Or(b_left, b_right)) => (**a_left).same(&**b_left) && (**a_right).same(&**b_right),
            (HavingPredicate::Not(a_inner), HavingPredicate::Not(b_inner)) => (**a_inner).same(&**b_inner),
            _ => false,
        }
    }
}

/// Joins, grouping, sorting and slicing of a selection.
#[derive(Clone, Debug, PartialEq, Eq)]
pub struct SelectOptions {
    pub joins: Vec<JoinClause>,
    pub aggregates: Vec<Aggregate>,
    pub group_by: Vec<QualifiedColumn>,
    pub order_by: Vec<OrderBy>,
    pub limit: Option<usize>,
    pub offset: Option<usize>,
    pub distinct: bool,
    pub having: Option<HavingPredicate>,
}

#[verifier::ext_equal]
pub struct OptionsModel {
    pub joins: Seq<JoinModel>,
    pub aggregates: Seq<AggregateModel>,
    pub group_by: Seq<ColumnRef>,
    pub order_by: Seq<OrderModel>,
    pub limit: Option<usize>,
    pub offset: Option<usize>,
    pub distinct: bool,
    pub having: Option<HavingModel>,
}

impl DeepView for SelectOptions {
    type V = OptionsModel;

    open spec fn deep_view(&self) -> OptionsModel {
        OptionsModel {
            joins: self.joins.deep_view(),
            aggregates: self.aggregates.deep_view(),
            group_by: self.group_by.deep_view(),
            order_by: self.order_by.deep_view(),
            limit: self.limit.deep_view(),
            offset: self.offset.deep_view(),
            distinct: self.distinct,
            having: self.having.deep_view(),
        }
    }
}

impl Plain for SelectOptions {
    fn duplicate(&self) -> (r: Self) {
        SelectOptions {
            joins: self.joins.duplicate(),
            aggregates: self.aggregates.duplicate(),
            group_by: self.group_by.duplicate(),
            order_by: self.order_by.duplicate(),
            limit: self.limit.duplicate(),
            offset: self.offset.duplicate(),
            distinct: self.distinct,
            having: self.having.duplicate(),
        }
    }

    fn same(&self, other: &Self) -> (r: bool) {
        self.joins.same(&other.joins)
            && self.aggregates.same(&other.aggregates)
            && self.group_by.same(&other.group_by)
            && self.order_by.same(&other.order_by)
            && self.limit.same(&other.limit)
            && self.offset.same(&other.offset)
            && self.distinct == other.distinct
            && self.having.same(&other.having)
    }
}

/// The options that change nothing.
pub open spec fn no_options() -> OptionsModel {
    OptionsModel {
        joins: Seq::empty(),
        aggregates: Seq::empty(),
        group_by: Seq::empty(),
        order_by: Seq::empty(),
        limit: None,
        offset: None,
        distinct: false,
        having: None,
    }
}

impl Default for SelectOptions {
    fn default() -> (r: Self)
        ensures
            r.deep_view() == no_options(),
    {
        SelectOptions {
            joins: no_items(),
            aggregates: no_items(),
            group_by: no_items(),
            order_by: no_items(),
            limit: None,
            offset: None,
            distinct: false,
            having: None,
        }
    }
}
/// A query.
#[derive(Debug, PartialEq, Eq)]
pub enum EngineQuery {
    Select {
        table: String,
        projection: Vec<QualifiedColumn>,
        predicate: Option<QualifiedPredicate>,
        options: Box<SelectOptions>,
    },
    Insert { table: String, row: EngineRow },
    Update {
        table: String,
        assignments: Vec<UpdateAssignment>,
        predicate: Option<QualifiedPredicate>,
        joins: Vec<JoinClause>,
        from_tables: Vec<String>,
        returning: Option<Vec<QualifiedColumn>>,
    },
    Delete {
        table: String,
        predicate: Option<QualifiedPredicate>,
        returning: Option<Vec<QualifiedColumn>>,
    },
}

#[verifier::ext_equal]
pub enum QueryModel {
    Select {
        table: Seq<char>,
        projection: Seq<ColumnRef>,
        predicate: Option<PredicateModel>,
        options: OptionsModel,
    },
    Insert { table: Seq<char>, row: Seq<ValueModel> },
    Update {
        table: Seq<char>,
        assignments: Seq<AssignmentModel>,
        predicate: Option<PredicateModel>,
        joins: Seq<JoinModel>,
        from_tables: Seq<Seq<char>>,
        returning: Option<Seq<ColumnRef>>,
    },
    Delete {
        table: Seq<char>,
        predicate: Option<PredicateModel>,
        returning: Option<Seq<ColumnRef>>,
    },
}

pub open spec fn query_model(x: EngineQuery) -> QueryModel
    decreases x,
{
    match x {
        EngineQuery::Select { table, projection, predicate, options } => QueryModel::Select {
            table: table@,
            projection: projection.deep_view(),
            predicate: match predicate {
                Some(p) => Some(predicate_model(p)),
                None => None,
            },
            options: options.deep_view(),
        },
        EngineQuery::Insert { table, row } => QueryModel::Insert {
            table: table@,
            row: row.deep_view(),
        },
        EngineQuery::Update { table, assignments, predicate, joins, from_tables, returning } =>
            QueryModel::Update {
            table: table@,
            assignments: assignments.deep_view(),
            predicate: match predicate {
                Some(p) => Some(predicate_model(p)),
                None => None,
            },
            joins: joins.deep_view(),
            from_tables: from_tables.deep_view(),
            returning: returning.deep_view(),
        },
        EngineQuery::Delete { table, predicate, returning } => QueryModel::Delete {
            table: table@,
            predicate: match predicate {
                Some(p) => Some(predicate_model(p)),
                None => None,
            },
            returning: returning.deep_view(),
        },
    }
}

impl DeepView for EngineQuery {
    type V = QueryModel;

    open spec fn deep_view(&self) -> QueryModel {
        query_model(*self)
    }
}

impl Clone for EngineQuery {
    fn clone(&self) -> (r: Self)
        ensures
            r.deep_view() == self.deep_view(),
    {
        self.duplicate()
    }
}

impl Plain for EngineQuery {
    fn duplicate(&self) -> (r: Self)
        decreases self,
    {
        match self {
            EngineQuery::Select { table, projection, predicate, options } => EngineQuery::Select {
                table: table.clone(),
                projection: projection.duplicate(),
                predicate: match predicate {
                    Some(p) => Some(p.duplicate()),
                    None => None,
                },
                options: Box::new((**options).duplicate()),
            },
            EngineQuery::Insert { table, row } => EngineQuery::Insert {
                table: table.clone(),
                row: row.duplicate(),
            },
            EngineQuery::Update { table, assignments, predicate, joins, from_tables, returning } =>
                EngineQuery::Update {
                table: table.clone(),
                assignments: assignments.duplicate(),
                predicate: match predicate {
                    Some(p) => Some(p.duplicate()),
                    None => None,
                },
                joins: joins.duplicate(),
                from_tables: from_tables.duplicate(),
                returning: returning.duplicate(),
            },
            EngineQuery::Delete { table, predicate, returning } => EngineQuery::Delete {
                table: table.clone(),
                predicate: match predicate {
                    Some(p) => Some(p.duplicate()),
                    None => None,
                },
                returning: returning.duplicate(),
            },
        }
    }

    fn same(&self, other: &Self) -> (r: bool)
        decreases self,
    {
        match (self, other) {
            (
                EngineQuery::Select { table, projection, predicate, options },
                EngineQuery::Select {
                    table: b_table,
                    projection: b_projection,
                    predicate: b_predicate,
                    options: b_options,
                },
            ) => {
                let same_predicate = match (predicate, b_predicate) {
                    (Some(p), Some(q)) => p.same(q),
                    (None, None) => true,
                    _ => false,
                };
                same_predicate && same_text(table.as_str(), b_table.as_str()) && projection.same(
                    b_projection,
                ) && (**options).same(&**b_options)
            },
            (
                EngineQuery::Insert { table, row },
                EngineQuery::Insert { table: b_table, row: b_row },
            ) => same_text(table.as_str(), b_table.as_str()) && row.same(b_row),
            (
                EngineQuery::Update { table, assignments, predicate, joins, from_tables, returning },
                EngineQuery::Update {
                    table: b_table,
                    assignments: b_assignments,
                    predicate: b_predicate,
                    joins: b_joins,
                    from_tables: b_from_tables,
                    returning: b_returning,
                },
            ) => {
                let same_predicate = match (predicate, b_predicate) {
                    (Some(p), Some(q)) => p.same(q),
                    (None, None) => true,
                    _ => false,
                };
                same_predicate && same_text(table.as_str(), b_table.as_str()) && assignments.same(
                    b_assignments,
                ) && joins.same(b_joins) && from_tables.same(b_from_tables) && returning.same(
                    b_returning,
                )
            },
            (
                EngineQuery::Delete { table, predicate, returning },
                EngineQuery::Delete {
                    table: b_table,
                    predicate: b_predicate,
                    returning: b_returning,
                },
            ) => {
                let same_predicate = match (predicate, b_predicate) {
                    (Some(p), Some(q)) => p.same(q),
                    (None, None) => true,
                    _ => false,
                };
                same_predicate && same_text(table.as_str(), b_table.as_str()) && returning.same(
                    b_returning,
                )
            },
            _ => false,
        }
    }
}

/// The rows that a query gives back.
#[derive(Clone, Debug, PartialEq, Eq)]
pub struct EngineResult {
    pub rows: Vec<EngineRow>,
}

impl DeepView for EngineResult {
    type V = Seq<Seq<ValueModel>>;

    open spec fn deep_view(&self) -> Seq<Seq<ValueModel>> {
        self.rows.deep_view()
    }
}

impl Plain for EngineResult {
    fn duplicate(&self) -> (r: Self) {
        EngineResult { rows: self.rows.duplicate() }
    }

    fn same(&self, other: &Self) -> (r: bool) {
        self.rows.same(&other.rows)
    }
}

impl EngineResult {
    pub fn new(rows: Vec<EngineRow>) -> (r: EngineResult)
        ensures
            r.deep_view() == rows.deep_view(),
    {
        EngineResult { rows }
    }
}

impl Default for EngineResult {
    fn default() -> (r: Self)
        ensures
            r.deep_view() == Seq::<Seq<ValueModel>>::empty(),
    {
        EngineResult { rows: no_items() }
    }
}

/// `names` with `name` at the end, unless it is there already.
pub open spec fn with_name(names: Seq<Seq<char>>, name: Seq<char>) -> Seq<Seq<char>> {
    if names.contains(name) {
        names
    } else {
        names.push(name)
    }
}

/// `names` with the tables of each join, in the order in which they first occur.
pub open spec fn with_joined(names: Seq<Seq<char>>, joins: Seq<JoinModel>) -> Seq<Seq<char>>
    decreases joins.len(),
{
    if joins.len() == 0 {
        names
    } else {
        let before = with_joined(names, joins.drop_last());
        with_name(with_name(before, joins.last().left_table), joins.last().right_table)
    }
}

/// `names` with more names, each unless it is there already.
pub open spec fn with_names(names: Seq<Seq<char>>, more: Seq<Seq<char>>) -> Seq<Seq<char>>
    decreases more.len(),
{
    if more.len() == 0 {
        names
    } else {
        with_name(with_names(names, more.drop_last()), more.last())
    }
}

/// The tables whose rows a query reads or changes itself, in the order in which
/// they first occur.
pub open spec fn source_tables(q: QueryModel) -> Seq<Seq<char>> {
    match q {
        QueryModel::Select { table, options, .. } => with_joined(seq![table], options.joins),
        QueryModel::Insert { table, .. } => seq![table],
        QueryModel::Update { table, joins, from_tables, .. } => with_names(
            with_joined(seq![table], joins),
            from_tables,
        ),
        QueryModel::Delete { table, .. } => seq![table],
    }
}

/// The tables that a query refers to, those of its subqueries last, in the
/// order in which they first occur.
pub open spec fn query_tables(q: QueryModel) -> Seq<Seq<char>>
    decreases q,
{
    match q {
        QueryModel::Select { predicate: Some(p), .. } => with_names(
            source_tables(q),
            subquery_tables(p),
        ),
        QueryModel::Update { predicate: Some(p), .. } => with_names(
            source_tables(q),
            subquery_tables(p),
        ),
        QueryModel::Delete { predicate: Some(p), .. } => with_names(
            source_tables(q),
            subquery_tables(p),
        ),
        _ => source_tables(q),
    }
}

/// The tables that the subqueries of a condition refer to, in the order in
/// which they first occur.
pub open spec fn subquery_tables(p: PredicateModel) -> Seq<Seq<char>>
    decreases p,
{
    match p {
        PredicateModel::InSubquery { subquery, .. } => query_tables(*subquery),
        PredicateModel::And(a, b) => with_names(subquery_tables(*a), subquery_tables(*b)),
        PredicateModel::Or(a, b) => with_names(subquery_tables(*a), subquery_tables(*b)),
        PredicateModel::Not(a) => subquery_tables(*a),
        _ => Seq::empty(),
    }
}

/// Adds a copy of `name` at the end, unless it is there already.
pub fn add_name(names: &mut Vec<String>, name: &str)
    ensures
        final(names).deep_view() == with_name(old(names).deep_view(), name@),
{
    if !contains_text(names, name) {
        push_back(names, name.to_string());
    }
}

/// Adds copies of names at the end, each unless it is there already.
pub fn add_names(names: &mut Vec<String>, more: &Vec<String>)
    ensures
        final(names).deep_view() == with_names(old(names).deep_view(), more.deep_view()),
{
    let ghost all = more.deep_view();
    let mut i: usize = 0;
    while i < more.len()
        invariant
            i <= more.len(),
            all == more.deep_view(),
            names.deep_view() == with_names(old(names).deep_view(), all.take(i as int)),
        decreases more.len() - i,
    {
        add_name(names, more[i].as_str());
        proof {
            assert(all.take(i + 1).drop_last() =~= all.take(i as int));
        }
        i += 1;
    }
    proof {
        assert(all.take(i as int) =~= all);
    }
}

/// Adds copies of the names of the tables of each join at the end, each unless
/// it is there already.
pub fn add_joined(names: &mut Vec<String>, joins: &Vec<JoinClause>)
    ensures
        final(names).deep_view() == with_joined(old(names).deep_view(), joins.deep_view()),
{
    let ghost all = joins.deep_view();
    let mut i: usize = 0;
    while i < joins.len()
        invariant
            i <= joins.len(),
            all == joins.deep_view(),
            names.deep_view() == with_joined(old(names).deep_view(), all.take(i as int)),
        decreases joins.len() - i,
    {
        add_name(names, joins[i].left_table.as_str());
        add_name(names, joins[i].right_table.as_str());
        proof {
            assert(all.take(i + 1).drop_last() =~= all.take(i as int));
        }
        i += 1;
    }
    proof {
        assert(all.take(i as int) =~= all);
    }
}

impl QualifiedPredicate {
    /// All tables that the subqueries of the condition refer to, each once.
    pub fn subquery_tables(&self) -> (r: Vec<String>)
        ensures
            r.deep_view() == subquery_tables(self.deep_view()),
        decreases self,
    {
        match self {
            QualifiedPredicate::InSubquery { subquery, .. } => (**subquery).tables(),
            QualifiedPredicate::And(a, b) => {
                let mut tables = (**a).subquery_tables();
                add_names(&mut tables, &(**b).subquery_tables());
                tables
            },
            QualifiedPredicate::Or(a, b) => {
                let mut tables = (**a).subquery_tables();
                add_names(&mut tables, &(**b).subquery_tables());
                tables
            },
            QualifiedPredicate::Not(a) => (**a).subquery_tables(),
            _ => no_items(),
        }
    }
}

impl EngineQuery {
    /// A selection of columns of one table, with nothing else to it.
    pub fn select_simple(
        table: String,
        projection: Vec<usize>,
        predicate: Option<QualifiedPredicate>,
    ) -> (r: EngineQuery)
        ensures
            r.deep_view() == (QueryModel::Select {
                table: table@,
                projection: Seq::new(
                    projection@.len(),
                    |i: int| ColumnRef { table: table@, column_index: projection@[i] },
                ),
                predicate: predicate.deep_view(),
                options: no_options(),
            }),
    {
        let mut columns: Vec<QualifiedColumn> = no_items();
        let mut i: usize = 0;
        while i < projection.len()
            invariant
                i <= projection.len(),
                columns.deep_view() == Seq::new(
                    i as nat,
                    |j: int| ColumnRef { table: table@, column_index: projection@[j] },
                ),
            decreases projection.len() - i,
        {
            push_back(
                &mut columns,
                QualifiedColumn { table: table.clone(), column_index: projection[i] },
            );
            proof {
                assert(columns.deep_view() =~= Seq::new(
                    (i + 1) as nat,
                    |j: int| ColumnRef { table: table@, column_index: projection@[j] },
                ));
            }
            i += 1;
        }
        EngineQuery::Select {
            table,
            projection: columns,
            predicate,
            options: Box::new(SelectOptions::default()),
        }
    }

    /// The tables whose rows the query reads or changes itself, each once.
    pub fn source_tables(&self) -> (r: Vec<String>)
        ensures
            r.deep_view() == source_tables(self.deep_view()),
    {
        match self {
            EngineQuery::Select { table, options, .. } => {
                let mut tables: Vec<String> = one_item(table.clone());
                add_joined(&mut tables, &options.joins);
                tables
            },
            EngineQuery::Insert { table, .. } => one_item(table.clone()),
            EngineQuery::Update { table, joins, from_tables, .. } => {
                let mut tables: Vec<String> = one_item(table.clone());
                add_joined(&mut tables, joins);
                add_names(&mut tables, from_tables);
                tables
            },
            EngineQuery::Delete { table, .. } => one_item(table.clone()),
        }
    }

    /// All tables that the query refers to, each once.
    pub fn tables(&self) -> (r: Vec<String>)
        ensures
            r.deep_view() == query_tables(self.deep_view()),
        decreases self,
    {
        let mut tables = self.source_tables();
        match self {
            EngineQuery::Select { predicate: Some(p), .. } => {
                add_names(&mut tables, &p.subquery_tables());
            },
            EngineQuery::Update { predicate: Some(p), .. } => {
                add_names(&mut tables, &p.subquery_tables());
            },
            EngineQuery::Delete { predicate: Some(p), .. } => {
                add_names(&mut tables, &p.subquery_tables());
            },
            _ => {},
        }
        tables
    }
}

proof fn lemma_with_joined_distinct(names: Seq<Seq<char>>, joins: Seq<JoinModel>)
    requires
        names.no_duplicates(),
    ensures
        with_joined(names, joins).no_duplicates(),
    decreases joins.len(),
{
    if joins.len() > 0 {
        lemma_with_joined_distinct(names, joins.drop_last());
    }
}

proof fn lemma_with_names_distinct(names: Seq<Seq<char>>, more: Seq<Seq<char>>)
    requires
        names.no_duplicates(),
    ensures
        with_names(names, more).no_duplicates(),
    decreases more.len(),
{
    if more.len() > 0 {
        lemma_with_names_distinct(names, more.drop_last());
    }
}

/// A name is in a list with more names if it is in the list or one of them.
pub proof fn lemma_with_names_has(names: Seq<Seq<char>>, more: Seq<Seq<char>>, name: Seq<char>)
    ensures
        with_names(names, more).contains(name) <==> (names.contains(name) || more.contains(name)),
    decreases more.len(),
{
    if more.len() > 0 {
        let before = with_names(names, more.drop_last());
        let last = more.last();
        lemma_with_names_has(names, more.drop_last(), name);
        assert(before.push(last).last() == last);
        if more.contains(name) {
            let i = choose|i: int| 0 <= i < more.len() && more[i] == name;
            if i < more.len() - 1 {
                assert(more.drop_last()[i] == name);
            }
        }
        if more.drop_last().contains(name) {
            let i = choose|i: int| 0 <= i < more.len() - 1 && more.drop_last()[i] == name;
            assert(more[i] == name);
        }
        assert(more[more.len() - 1] == last);
        if before.contains(name) {
            let i = choose|i: int| 0 <= i < before.len() && before[i] == name;
            assert(before.push(last)[i] == name);
        }
        if before.push(last).contains(name) {
            let i = choose|i: int| 0 <= i < before.push(last).len() && before.push(last)[i] == name;
            if i < before.len() {
                assert(before[i] == name);
            }
        }
    }
}

/// Law: a query names no table twice.
pub proof fn law_query_tables_distinct(q: QueryModel)
    ensures
        query_tables(q).no_duplicates(),
{
    match q {
        QueryModel::Select { table, options, predicate, .. } => {
            lemma_with_joined_distinct(seq![table], options.joins);
            if let Some(p) = predicate {
                lemma_with_names_distinct(source_tables(q), subquery_tables(p));
            }
        },
        QueryModel::Update { table, joins, from_tables, predicate, .. } => {
            lemma_with_joined_distinct(seq![table], joins);
            lemma_with_names_distinct(with_joined(seq![table], joins), from_tables);
            if let Some(p) = predicate {
                lemma_with_names_distinct(source_tables(q), subquery_tables(p));
            }
        },
        QueryModel::Delete { predicate, .. } => {
            if let Some(p) = predicate {
                lemma_with_names_distinct(source_tables(q), subquery_tables(p));
            }
        },
        QueryModel::Insert { .. } => {},
    }
}

} // verus!
