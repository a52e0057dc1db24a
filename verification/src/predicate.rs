//! Whether rows and groups meet a condition.
use vstd::prelude::*;
use crate::name_table::{self, NameTable};
use crate::order::{self, Comparison};
use crate::plain::{no_items, same_text, Plain};
use crate::query::{
    ColumnRef, EngineQuery, GroupRef, HavingModel, HavingPredicate, OperandModel, PredicateModel,
    QualifiedColumn, QualifiedOperand, QualifiedPredicate, QueryModel, RefOrAgg,
};
use crate::schema::{IndexModel, IndexSchema};
use crate::value::{self, EngineKey, EngineRow, EngineValue, ValueModel};

verus! {

/// The rows of several tables side by side: for each table a row, or `None`
/// where a join found none.
pub type JoinedRowState = NameTable<Option<EngineRow>>;

/// Joined rows, mathematically.
pub type StateModel = Map<Seq<char>, Option<Seq<ValueModel>>>;

/// What subqueries gave: the first value of each row.
#[derive(Clone, Debug)]
pub struct EvalContext {
    subqueries: Vec<(EngineQuery, Vec<EngineValue>)>,
}

/// The values that each subquery gave.
pub type CacheModel = Map<QueryModel, Seq<ValueModel>>;

impl DeepView for EvalContext {
    type V = CacheModel;

    closed spec fn deep_view(&self) -> CacheModel {
        name_table::first_map(self.subqueries.deep_view())
    }
}

impl EvalContext {
    /// No subquery has been run.
    pub fn empty() -> (r: EvalContext)
        ensures
            r.deep_view() == CacheModel::empty(),
    {
        EvalContext { subqueries: no_items() }
    }

    fn position(&self, query: &EngineQuery) -> (r: Option<usize>)
        ensures
            match r {
                Some(i) => i < self.subqueries.len() && self.subqueries.deep_view()[i as int].0
                    == query.deep_view() && forall|j: int|
                    0 <= j < i ==> (#[trigger] self.subqueries.deep_view()[j]).0
                        != query.deep_view(),
                None => forall|j: int|
                    0 <= j < self.subqueries.len() ==> (#[trigger] self.subqueries.deep_view()[j]).0
                        != query.deep_view(),
            },
    {
        let mut i: usize = 0;
        while i < self.subqueries.len()
            invariant
                i <= self.subqueries.len(),
                forall|j: int|
                    0 <= j < i ==> (#[trigger] self.subqueries.deep_view()[j]).0
                        != query.deep_view(),
            decreases self.subqueries.len() - i,
        {
            assert(self.subqueries.deep_view()[i as int].0
                == self.subqueries@[i as int].0.deep_view());
            if self.subqueries[i].0.same(query) {
                return Some(i);
            }
            i += 1;
        }
        None
    }

    /// What a subquery gave, if it has been run.
    pub fn get(&self, query: &EngineQuery) -> (r: Option<&Vec<EngineValue>>)
        ensures
            match r {
                Some(v) => self.deep_view().contains_key(query.deep_view()) && v.deep_view()
                    == self.deep_view()[query.deep_view()],
                None => !self.deep_view().contains_key(query.deep_view()),
            },
    {
        match self.position(query) {
            Some(i) => {
                proof {
                    name_table::lemma_first_map_at(self.subqueries.deep_view(), i as int);
                }
                Some(&self.subqueries[i].1)
            },
            None => {
                proof {
                    name_table::lemma_first_map_absent(
                        self.subqueries.deep_view(),
                        query.deep_view(),
                    );
                }
                None
            },
        }
    }

    /// Keeps what a subquery gave that has not been run before.
    pub fn record(&mut self, query: EngineQuery, values: Vec<EngineValue>)
        requires
            !old(self).deep_view().contains_key(query.deep_view()),
        ensures
            final(self).deep_view() == old(self).deep_view().insert(
                query.deep_view(),
                values.deep_view(),
            ),
    {
        let ghost entries = self.subqueries.deep_view();
        let ghost q = query.deep_view();
        proof {
            assert forall|j: int| 0 <= j < entries.len() implies (#[trigger] entries[j]).0 != q by {
                if entries[j].0 == q {
                    name_table::lemma_first_map_has(entries, j);
                }
            }
            name_table::lemma_first_map_push(entries, q, values.deep_view());
        }
        crate::plain::push_back(&mut self.subqueries, (query, values));
    }
}

/// The value of a column in joined rows: none where the table is missing,
/// where it has no row, or where the row ends before the column.
pub open spec fn column_value(state: StateModel, column: ColumnRef) -> Option<ValueModel> {
    if state.contains_key(column.table) {
        match state[column.table] {
            Some(row) => if column.column_index < row.len() {
                Some(row[column.column_index as int])
            } else {
                None
            },
            None => None,
        }
    } else {
        None
    }
}

pub open spec fn operand_value(state: StateModel, operand: OperandModel) -> Option<ValueModel> {
    match operand {
        OperandModel::Column(column) => column_value(state, column),
        OperandModel::Value(value) => Some(value),
    }
}

/// How two values compare, where both are there.
pub open spec fn compared(a: Option<ValueModel>, b: Option<ValueModel>) -> Option<Comparison> {
    match (a, b) {
        (Some(x), Some(y)) => Some(order::comparison(x, y, value::value_less())),
        _ => None,
    }
}

/// Whether joined rows meet a condition. A comparison with a value that is
/// not there fails; a subquery that has not been run gave nothing.
pub open spec fn holds(p: PredicateModel, state: StateModel, cache: CacheModel) -> bool
    decreases p,
{
    match p {
        PredicateModel::Equals(a, b) => compared(operand_value(state, a), operand_value(state, b))
            == Some(Comparison::Equal),
        PredicateModel::NotEquals(a, b) => {
            let c = compared(operand_value(state, a), operand_value(state, b));
            c is Some && c != Some(Comparison::Equal)
        },
        PredicateModel::LessThan(a, b) => compared(
            operand_value(state, a),
            operand_value(state, b),
        ) == Some(Comparison::Less),
        PredicateModel::LessThanOrEquals(a, b) => {
            let c = compared(operand_value(state, a), operand_value(state, b));
            c is Some && c != Some(Comparison::Greater)
        },
        PredicateModel::GreaterThan(a, b) => compared(
            operand_value(state, a),
            operand_value(state, b),
        ) == Some(Comparison::Greater),
        PredicateModel::GreaterThanOrEquals(a, b) => {
            let c = compared(operand_value(state, a), operand_value(state, b));
            c is Some && c != Some(Comparison::Less)
        },
        PredicateModel::IsNull(column) => {
            let v = column_value(state, column);
            v is None || v == Some(ValueModel::Null)
        },
        PredicateModel::IsNotNull(column) => {
            let v = column_value(state, column);
            v is Some && v != Some(ValueModel::Null)
        },
        PredicateModel::InList { expr, list, negated } => match column_value(state, expr) {
            Some(v) => list.contains(v) != negated,
            None => false,
        },
        PredicateModel::InSubquery { expr, subquery, negated } => match column_value(state, expr) {
            Some(v) => (cache.contains_key(*subquery) && cache[*subquery].contains(v)) != negated,
            None => false,
        },
        PredicateModel::And(a, b) => holds(*a, state, cache) && holds(*b, state, cache),
        PredicateModel::Or(a, b) => holds(*a, state, cache) || holds(*b, state, cache),
        PredicateModel::Not(a) => !holds(*a, state, cache),
    }
}

/// The rows that a condition is put to.
pub enum RowContext<'a> {
    Joined(&'a JoinedRowState),
    Single(&'a str, &'a EngineRow),
}

/// A single row of a table, as joined rows.
pub open spec fn single_state(table: Seq<char>, row: Seq<ValueModel>) -> StateModel {
    StateModel::empty().insert(table, Some(row))
}

impl<'a> RowContext<'a> {
    pub open spec fn state(&self) -> StateModel {
        match self {
            RowContext::Joined(state) => state.deep_view(),
            RowContext::Single(table, row) => single_state(table@, row.deep_view()),
        }
    }

    /// The value of a column.
    pub fn value_of(&self, column: &QualifiedColumn) -> (r: Option<&EngineValue>)
        ensures
            r.deep_view() == column_value(self.state(), column.deep_view()),
    {
        let row: &EngineRow = match self {
            RowContext::Joined(state) => match state.get(column.table.as_str()) {
                Some(Some(row)) => row,
                _ => {
                    return None;
                },
            },
            RowContext::Single(table, row) => {
                if !same_text(column.table.as_str(), table) {
                    return None;
                }
                row
            },
        };
        if column.column_index < row.len() {
            Some(&row[column.column_index])
        } else {
            None
        }
    }

    fn operand<'b>(&'b self, operand: &'b QualifiedOperand) -> (r: Option<&'b EngineValue>)
        ensures
            r.deep_view() == operand_value(self.state(), operand.deep_view()),
    {
        match operand {
            QualifiedOperand::Column(column) => self.value_of(column),
            QualifiedOperand::Value(value) => Some(value),
        }
    }
}

fn compare_values(a: Option<&EngineValue>, b: Option<&EngineValue>) -> (r: Option<Comparison>)
    ensures
        r == compared(a.deep_view(), b.deep_view()),
{
    match (a, b) {
        (Some(x), Some(y)) => Some(x.compare(y)),
        _ => None,
    }
}

/// Whether a list holds a value.
pub fn contains_value(list: &Vec<EngineValue>, v: &EngineValue) -> (r: bool)
    ensures
        r == list.deep_view().contains(v.deep_view()),
{
    let mut i: usize = 0;
    while i < list.len()
        invariant
            i <= list.len(),
            forall|j: int| 0 <= j < i ==> list.deep_view()[j] != v.deep_view(),
        decreases list.len() - i,
    {
        if list[i].same(v) {
            assert(list.deep_view()[i as int] == v.deep_view());
            return true;
        }
        assert(list.deep_view()[i as int] == list@[i as int].deep_view());
        i += 1;
    }
    false
}

fn is_null(v: &EngineValue) -> (r: bool)
    ensures
        r == (v.deep_view() == ValueModel::Null),
{
    match v {
        EngineValue::Null => true,
        _ => false,
    }
}

/// Whether rows meet a condition.
pub fn eval_predicate(
    predicate: &QualifiedPredicate,
    rows: &RowContext<'_>,
    context: &EvalContext,
) -> (r: bool)
    ensures
        r == holds(predicate.deep_view(), rows.state(), context.deep_view()),
    decreases predicate,
{
    match predicate {
        QualifiedPredicate::Equals(a, b) => {
            let c = compare_values(rows.operand(a), rows.operand(b));
            matches!(c, Some(Comparison::Equal))
        },
        QualifiedPredicate::NotEquals(a, b) => {
            let c = compare_values(rows.operand(a), rows.operand(b));
            matches!(c, Some(Comparison::Less) | Some(Comparison::Greater))
        },
        QualifiedPredicate::LessThan(a, b) => {
            let c = compare_values(rows.operand(a), rows.operand(b));
            matches!(c, Some(Comparison::Less))
        },
        QualifiedPredicate::LessThanOrEquals(a, b) => {
            let c = compare_values(rows.operand(a), rows.operand(b));
            matches!(c, Some(Comparison::Less) | Some(Comparison::Equal))
        },
        QualifiedPredicate::GreaterThan(a, b) => {
            let c = compare_values(rows.operand(a), rows.operand(b));
            matches!(c, Some(Comparison::Greater))
        },
        QualifiedPredicate::GreaterThanOrEquals(a, b) => {
            let c = compare_values(rows.operand(a), rows.operand(b));
            matches!(c, Some(Comparison::Greater) | Some(Comparison::Equal))
        },
        QualifiedPredicate::IsNull(column) => match rows.value_of(column) {
            Some(v) => is_null(v),
            None => true,
        },
        QualifiedPredicate::IsNotNull(column) => match rows.value_of(column) {
            Some(v) => !is_null(v),
            None => false,
        },
        QualifiedPredicate::InList { expr, list, negated } => match rows.value_of(expr) {
            Some(v) => contains_value(list, v) != *negated,
            None => false,
        },
        QualifiedPredicate::InSubquery { expr, subquery, negated } => match rows.value_of(expr) {
            Some(v) => {
                let found = match context.get(subquery) {
                    Some(values) => contains_value(values, v),
                    None => false,
                };
                found != *negated
            },
            None => false,
        },
        QualifiedPredicate::And(a, b) => eval_predicate(a, rows, context) && eval_predicate(
            b,
            rows,
            context,
        ),
        QualifiedPredicate::Or(a, b) => eval_predicate(a, rows, context) || eval_predicate(
            b,
            rows,
            context,
        ),
        QualifiedPredicate::Not(a) => !eval_predicate(a, rows, context),
    }
}

/// An operand is a value, or a column of that table.
pub open spec fn operand_within(operand: OperandModel, table: Seq<char>) -> bool {
    match operand {
        OperandModel::Column(column) => column.table == table,
        OperandModel::Value(_) => true,
    }
}

/// A condition looks at columns of one table alone, and has no subqueries: a
/// row of that table decides it.
pub open spec fn within_table(p: PredicateModel, table: Seq<char>) -> bool
    decreases p,
{
    match p {
        PredicateModel::Equals(a, b) => operand_within(a, table) && operand_within(b, table),
        PredicateModel::NotEquals(a, b) => operand_within(a, table) && operand_within(b, table),
        PredicateModel::LessThan(a, b) => operand_within(a, table) && operand_within(b, table),
        PredicateModel::LessThanOrEquals(a, b) => operand_within(a, table) && operand_within(
            b,
            table,
        ),
        PredicateModel::GreaterThan(a, b) => operand_within(a, table) && operand_within(b, table),
        PredicateModel::GreaterThanOrEquals(a, b) => operand_within(a, table) && operand_within(
            b,
            table,
        ),
        PredicateModel::IsNull(column) => column.table == table,
        PredicateModel::IsNotNull(column) => column.table == table,
        PredicateModel::InList { expr, .. } => expr.table == table,
        PredicateModel::InSubquery { .. } => false,
        PredicateModel::And(a, b) => within_table(*a, table) && within_table(*b, table),
        PredicateModel::Or(a, b) => within_table(*a, table) && within_table(*b, table),
        PredicateModel::Not(a) => within_table(*a, table),
    }
}

fn operand_is_within(operand: &QualifiedOperand, table: &str) -> (r: bool)
    ensures
        r == operand_within(operand.deep_view(), table@),
{
    match operand {
        QualifiedOperand::Column(column) => same_text(column.table.as_str(), table),
        QualifiedOperand::Value(_) => true,
    }
}

/// Whether a condition looks at columns of one table alone, and has no
/// subqueries.
pub fn is_within_table(predicate: &QualifiedPredicate, table: &str) -> (r: bool)
    ensures
        r == within_table(predicate.deep_view(), table@),
    decreases predicate,
{
    match predicate {
        QualifiedPredicate::Equals(a, b) => operand_is_within(a, table) && operand_is_within(
            b,
            table,
        ),
        QualifiedPredicate::NotEquals(a, b) => operand_is_within(a, table) && operand_is_within(
            b,
            table,
        ),
        QualifiedPredicate::LessThan(a, b) => operand_is_within(a, table) && operand_is_within(
            b,
            table,
        ),
        QualifiedPredicate::LessThanOrEquals(a, b) => operand_is_within(a, table)
            && operand_is_within(b, table),
        QualifiedPredicate::GreaterThan(a, b) => operand_is_within(a, table) && operand_is_within(
            b,
            table,
        ),
        QualifiedPredicate::GreaterThanOrEquals(a, b) => operand_is_within(a, table)
            && operand_is_within(b, table),
        QualifiedPredicate::IsNull(column) => same_text(column.table.as_str(), table),
        QualifiedPredicate::IsNotNull(column) => same_text(column.table.as_str(), table),
        QualifiedPredicate::InList { expr, .. } => same_text(expr.table.as_str(), table),
        QualifiedPredicate::InSubquery { .. } => false,
        QualifiedPredicate::And(a, b) => is_within_table(a, table) && is_within_table(b, table),
        QualifiedPredicate::Or(a, b) => is_within_table(a, table) && is_within_table(b, table),
        QualifiedPredicate::Not(a) => is_within_table(a, table),
    }
}

/// Law: a condition on one table is met by joined rows exactly if the row of
/// that table meets it.
pub proof fn law_row_decides(
    p: PredicateModel,
    table: Seq<char>,
    state: StateModel,
    row: Seq<ValueModel>,
    cache: CacheModel,
    other: CacheModel,
)
    requires
        within_table(p, table),
        state.contains_key(table),
        state[table] == Some(row),
    ensures
        holds(p, state, cache) == holds(p, single_state(table, row), other),
    decreases p,
{
    match p {
        PredicateModel::And(a, b) => {
            law_row_decides(*a, table, state, row, cache, other);
            law_row_decides(*b, table, state, row, cache, other);
        },
        PredicateModel::Or(a, b) => {
            law_row_decides(*a, table, state, row, cache, other);
            law_row_decides(*b, table, state, row, cache, other);
        },
        PredicateModel::Not(a) => {
            law_row_decides(*a, table, state, row, cache, other);
        },
        _ => {},
    }
}

/// The key that an index must have for a row to meet a condition: there is
/// one where the condition asks that the only column of the index equal a
/// value.
pub open spec fn index_key_for(p: PredicateModel, index: IndexModel) -> Option<Seq<ValueModel>> {
    match p {
        PredicateModel::Equals(OperandModel::Column(column), OperandModel::Value(value)) => {
            if column.table == index.table_name && index.column_indices == seq![
                column.column_index,
            ] {
                Some(seq![value])
            } else {
                None
            }
        },
        _ => None,
    }
}

/// Law: where a condition fixes an index key, a row of the table meets the
/// condition exactly if the index files it under that key.
pub proof fn law_index_key_decides(
    p: PredicateModel,
    index: IndexModel,
    row: Seq<ValueModel>,
    cache: CacheModel,
)
    requires
        index_key_for(p, index) is Some,
    ensures
        holds(p, single_state(index.table_name, row), cache) <==> crate::schema::picked(
            row,
            index.column_indices,
        ) == Some(index_key_for(p, index)->0),
{
    let columns = index.column_indices;
    assert(columns.len() == 1);
    let wanted = index_key_for(p, index)->0;
    if columns[0] < row.len() {
        assert(crate::schema::picked(row, columns)->0 =~= seq![row[columns[0] as int]]);
        assert(wanted[0] == row[columns[0] as int] ==> wanted =~= seq![row[columns[0] as int]]);
        assert(seq![row[columns[0] as int]][0] == row[columns[0] as int]);
    } else {
        assert(!(columns[0] < row.len()));
        assert(crate::schema::picked(row, columns) is None);
    }
}

impl QualifiedPredicate {
    /// Whether a row of a table meets the condition.
    pub fn matches_row(&self, table: &str, row: &EngineRow) -> (r: bool)
        ensures
            r == holds(
                self.deep_view(),
                single_state(table@, row.deep_view()),
                CacheModel::empty(),
            ),
    {
        eval_predicate(self, &RowContext::Single(table, row), &EvalContext::empty())
    }

    /// Whether a row of a table meets the condition, given what its
    /// subqueries gave.
    pub fn matches_row_with_ctx(&self, table: &str, row: &EngineRow, context: &EvalContext) -> (r:
        bool)
        ensures
            r == holds(
                self.deep_view(),
                single_state(table@, row.deep_view()),
                context.deep_view(),
            ),
    {
        eval_predicate(self, &RowContext::Single(table, row), context)
    }

    /// The key that `index` must have for a row to meet the condition.
    pub fn index_key_for(&self, index: &IndexSchema) -> (r: Option<EngineKey>)
        ensures
            r.deep_view() == index_key_for(self.deep_view(), index.deep_view()),
    {
        proof {
            let columns = index.column_indices.deep_view();
            assert(columns.len() == 1 ==> columns =~= seq![columns[0]]);
        }
        match self {
            QualifiedPredicate::Equals(
                QualifiedOperand::Column(column),
                QualifiedOperand::Value(value),
            ) => {
                if same_text(column.table.as_str(), index.table_name.as_str())
                    && index.column_indices.len() == 1 && index.column_indices[0]
                    == column.column_index {
                    Some(EngineKey::from_values(crate::plain::one_item(value.duplicate())))
                } else {
                    None
                }
            },
            _ => None,
        }
    }
}

/// Where a column stands among the columns of a grouping.
pub open spec fn column_place(columns: Seq<ColumnRef>, column: ColumnRef) -> Option<int>
    decreases columns.len(),
{
    if columns.len() == 0 {
        None
    } else if columns[0] == column {
        Some(0)
    } else {
        match column_place(columns.drop_first(), column) {
            Some(i) => Some(i + 1),
            None => None,
        }
    }
}

/// The place of the first column equal to `column`.
pub fn find_place(columns: &Vec<QualifiedColumn>, column: &QualifiedColumn) -> (r: Option<usize>)
    ensures
        match r {
            Some(i) => column_place(columns.deep_view(), column.deep_view()) == Some(i as int) && i
                < columns.len(),
            None => column_place(columns.deep_view(), column.deep_view()) is None,
        },
{
    let ghost cs = columns.deep_view();
    let ghost c = column.deep_view();
    let mut i: usize = 0;
    proof {
        assert(cs.skip(0) =~= cs);
    }
    while i < columns.len()
        invariant
            i <= columns.len(),
            cs == columns.deep_view(),
            c == column.deep_view(),
            column_place(cs, c) == match column_place(cs.skip(i as int), c) {
                Some(k) => Some(k + i),
                None => None::<int>,
            },
        decreases columns.len() - i,
    {
        let ghost rest = cs.skip(i as int);
        assert(rest[0] == columns@[i as int].deep_view());
        assert(rest.drop_first() =~= cs.skip(i + 1));
        if columns[i].same(column) {
            return Some(i);
        }
        i += 1;
    }
    assert(cs.skip(i as int).len() == 0);
    None
}

/// What a condition on a group looks at: the group's row holds first the
/// values that were grouped by, then the aggregates.
pub open spec fn group_value(
    of: GroupRef,
    row: Seq<ValueModel>,
    group_by: Seq<ColumnRef>,
) -> Option<ValueModel> {
    let place = match of {
        GroupRef::Column(column) => column_place(group_by, column),
        GroupRef::AggregateIndex(i) => Some(group_by.len() + i),
    };
    match place {
        Some(i) => if i < row.len() {
            Some(row[i])
        } else {
            None
        },
        None => None,
    }
}

/// Whether a group's row meets a condition.
pub open spec fn group_holds(
    p: HavingModel,
    row: Seq<ValueModel>,
    group_by: Seq<ColumnRef>,
) -> bool
    decreases p,
{
    match p {
        HavingModel::Equals(of, v) => compared(group_value(of, row, group_by), Some(v)) == Some(
            Comparison::Equal,
        ),
        HavingModel::NotEquals(of, v) => {
            let c = compared(group_value(of, row, group_by), Some(v));
            c is Some && c != Some(Comparison::Equal)
        },
        HavingModel::LessThan(of, v) => compared(group_value(of, row, group_by), Some(v)) == Some(
            Comparison::Less,
        ),
        HavingModel::LessThanOrEquals(of, v) => {
            let c = compared(group_value(of, row, group_by), Some(v));
            c is Some && c != Some(Comparison::Greater)
        },
        HavingModel::GreaterThan(of, v) => compared(group_value(of, row, group_by), Some(v))
            == Some(Comparison::Greater),
        HavingModel::GreaterThanOrEquals(of, v) => {
            let c = compared(group_value(of, row, group_by), Some(v));
            c is Some && c != Some(Comparison::Less)
        },
        HavingModel::IsNull(of) => {
            let v = group_value(of, row, group_by);
            v is None || v == Some(ValueModel::Null)
        },
        HavingModel::IsNotNull(of) => {
            let v = group_value(of, row, group_by);
            v is Some && v != Some(ValueModel::Null)
        },
        HavingModel::And(a, b) => group_holds(*a, row, group_by) && group_holds(*b, row, group_by),
        HavingModel::Or(a, b) => group_holds(*a, row, group_by) || group_holds(*b, row, group_by),
        HavingModel::Not(a) => !group_holds(*a, row, group_by),
    }
}

fn value_of_group<'a>(of: &RefOrAgg, row: &'a EngineRow, group_by: &Vec<QualifiedColumn>) -> (r:
    Option<&'a EngineValue>)
    ensures
        r.deep_view() == group_value(of.deep_view(), row.deep_view(), group_by.deep_view()),
{
    match of {
        RefOrAgg::Column(column) => match find_place(group_by, column) {
            Some(i) => if i < row.len() {
                Some(&row[i])
            } else {
                None
            },
            None => None,
        },
        RefOrAgg::AggregateIndex(i) => {
            if *i < row.len() && group_by.len() < row.len() - *i {
                Some(&row[group_by.len() + *i])
            } else {
                None
            }
        },
    }
}

/// Whether a group's row meets a condition.
pub fn eval_having_predicate(
    predicate: &HavingPredicate,
    row: &EngineRow,
    group_by: &Vec<QualifiedColumn>,
) -> (r: bool)
    ensures
        r == group_holds(predicate.deep_view(), row.deep_view(), group_by.deep_view()),
    decreases predicate,
{
    match predicate {
        HavingPredicate::Equals(of, v) => {
            let c = compare_values(value_of_group(of, row, group_by), Some(v));
            matches!(c, Some(Comparison::Equal))
        },
        HavingPredicate::NotEquals(of, v) => {
            let c = compare_values(value_of_group(of, row, group_by), Some(v));
            matches!(c, Some(Comparison::Less) | Some(Comparison::Greater))
        },
        HavingPredicate::LessThan(of, v) => {
            let c = compare_values(value_of_group(of, row, group_by), Some(v));
            matches!(c, Some(Comparison::Less))
        },
        HavingPredicate::LessThanOrEquals(of, v) => {
            let c = compare_values(value_of_group(of, row, group_by), Some(v));
            matches!(c, Some(Comparison::Less) | Some(Comparison::Equal))
        },
        HavingPredicate::GreaterThan(of, v) => {
            let c = compare_values(value_of_group(of, row, group_by), Some(v));
            matches!(c, Some(Comparison::Greater))
        },
        HavingPredicate::GreaterThanOrEquals(of, v) => {
            let c = compare_values(value_of_group(of, row, group_by), Some(v));
            matches!(c, Some(Comparison::Greater) | Some(Comparison::Equal))
        },
        HavingPredicate::IsNull(of) => match value_of_group(of, row, group_by) {
            Some(v) => is_null(v),
            None => true,
        },
        HavingPredicate::IsNotNull(of) => match value_of_group(of, row, group_by) {
            Some(v) => !is_null(v),
            None => false,
        },
        HavingPredicate::And(a, b) => eval_having_predicate(a, row, group_by)
            && eval_having_predicate(b, row, group_by),
        HavingPredicate::Or(a, b) => eval_having_predicate(a, row, group_by)
            || eval_having_predicate(b, row, group_by),
        HavingPredicate::Not(a) => !eval_having_predicate(a, row, group_by),
    }
}

} // verus!
