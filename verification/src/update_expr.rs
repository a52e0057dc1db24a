//! The values that assignments and RETURNING clauses compute.
use vstd::prelude::*;
use crate::error::{EngineError, ErrorModel};
use crate::float::{self, compute, FloatOp};
use crate::plain::{self, no_items, push_back, same_text, Plain};
use crate::predicate::{JoinedRowState, StateModel};
use crate::query::{
    AssignmentModel, ColumnRef, QualifiedColumn, UpdateAssignment, UpdateExprModel,
    UpdateValueExpr,
};
use crate::render::{self, show_value};
use crate::store::RowModel;
use crate::text::{self, decimal, joined, joined3};
use crate::value::{EngineRow, EngineValue, ValueModel};

verus! {

/// A column of a row, by its place.
pub open spec fn column_in_row(row: RowModel, i: usize) -> Result<ValueModel, ErrorModel> {
    if i < row.len() {
        Ok(row[i as int])
    } else {
        Err(
            ErrorModel::SchemaMismatch(
                "column index "@ + text::decimal_text(i as nat) + " is out of bounds"@,
            ),
        )
    }
}

/// The value of a column: in the row of the target table, or in the rows that
/// are joined to it.
pub open spec fn column_value(
    row: RowModel,
    column: ColumnRef,
    target: Seq<char>,
    joined: Option<StateModel>,
) -> Result<ValueModel, ErrorModel> {
    if column.table == target {
        column_in_row(row, column.column_index)
    } else {
        match joined {
            None => Err(
                ErrorModel::SchemaMismatch(
                    "column "@ + column.table + "."@ + text::decimal_text(
                        column.column_index as nat,
                    ) + " requires join context"@,
                ),
            ),
            Some(state) => if state.contains_key(column.table) && state[column.table] is Some {
                column_in_row(state[column.table]->Some_0, column.column_index)
            } else {
                Err(
                    ErrorModel::SchemaMismatch(
                        "join table "@ + column.table + " has no row for expression"@,
                    ),
                )
            },
        }
    }
}

/// A number as a double, `op` being the operator that wants it.
pub open spec fn number_of<F: Fn(FloatOp) -> u64>(f: F, v: ValueModel, op: Seq<char>) -> Result<
    u64,
    ErrorModel,
> {
    match v {
        ValueModel::Integer(i) => Ok(float::float_value(f, FloatOp::OfInteger(i))),
        ValueModel::Float(b) => Ok(b),
        _ => Err(
            ErrorModel::TypeMismatch(
                "operator "@ + op + " requires numeric values, got "@ + render::value_text(v),
            ),
        ),
    }
}

/// A sum, a difference or a product.
pub enum Arithmetic {
    Add,
    Subtract,
    Multiply,
}

/// The sign of an operation.
pub open spec fn sign(op: Arithmetic) -> Seq<char> {
    match op {
        Arithmetic::Add => "+"@,
        Arithmetic::Subtract => "-"@,
        Arithmetic::Multiply => "*"@,
    }
}

/// The operation on two doubles.
pub open spec fn operation(op: Arithmetic, a: u64, b: u64) -> FloatOp {
    match op {
        Arithmetic::Add => FloatOp::Sum(a, b),
        Arithmetic::Subtract => FloatOp::Difference(a, b),
        Arithmetic::Multiply => FloatOp::Product(a, b),
    }
}

/// What an operation gives on two values. NULL gives NULL; two integers give
/// an integer, by way of doubles.
pub open spec fn combined<F: Fn(FloatOp) -> u64>(
    f: F,
    op: Arithmetic,
    left: ValueModel,
    right: ValueModel,
) -> Result<ValueModel, ErrorModel> {
    if left is Null || right is Null {
        Ok(ValueModel::Null)
    } else {
        match number_of(f, left, sign(op)) {
            Err(e) => Err(e),
            Ok(a) => match number_of(f, right, sign(op)) {
                Err(e) => Err(e),
                Ok(b) => {
                    let output = float::float_value(f, operation(op, a, b));
                    if left is Integer && right is Integer {
                        Ok(
                            ValueModel::Integer(
                                float::float_value(f, FloatOp::ToInteger(output)) as i64,
                            ),
                        )
                    } else {
                        Ok(ValueModel::Float(output))
                    }
                },
            },
        }
    }
}

/// What a division gives on two values: always a double.
pub open spec fn divided<F: Fn(FloatOp) -> u64>(f: F, left: ValueModel, right: ValueModel) -> Result<
    ValueModel,
    ErrorModel,
> {
    if right == ValueModel::Integer(0) || (right is Float && float::is_zero(right->Float_0)) {
        Err(ErrorModel::TypeMismatch("division by zero"@))
    } else {
        match number_of(f, left, "/"@) {
            Err(e) => Err(e),
            Ok(a) => match number_of(f, right, "/"@) {
                Err(e) => Err(e),
                Ok(b) => Ok(ValueModel::Float(float::float_value(f, FloatOp::Quotient(a, b)))),
            },
        }
    }
}

/// The value of an expression.
pub open spec fn expr_value<F: Fn(FloatOp) -> u64>(
    f: F,
    row: RowModel,
    e: UpdateExprModel,
    target: Seq<char>,
    joined: Option<StateModel>,
) -> Result<ValueModel, ErrorModel>
    decreases e,
{
    match e {
        UpdateExprModel::Value(v) => Ok(v),
        UpdateExprModel::Column(column) => column_value(row, column, target, joined),
        UpdateExprModel::Add(left, right) => match expr_value(f, row, *left, target, joined) {
            Err(e) => Err(e),
            Ok(a) => match expr_value(f, row, *right, target, joined) {
                Err(e) => Err(e),
                Ok(b) => combined(f, Arithmetic::Add, a, b),
            },
        },
        UpdateExprModel::Subtract(left, right) => match expr_value(f, row, *left, target, joined) {
            Err(e) => Err(e),
            Ok(a) => match expr_value(f, row, *right, target, joined) {
                Err(e) => Err(e),
                Ok(b) => combined(f, Arithmetic::Subtract, a, b),
            },
        },
        UpdateExprModel::Multiply(left, right) => match expr_value(f, row, *left, target, joined) {
            Err(e) => Err(e),
            Ok(a) => match expr_value(f, row, *right, target, joined) {
                Err(e) => Err(e),
                Ok(b) => combined(f, Arithmetic::Multiply, a, b),
            },
        },
        UpdateExprModel::Divide(left, right) => match expr_value(f, row, *left, target, joined) {
            Err(e) => Err(e),
            Ok(a) => match expr_value(f, row, *right, target, joined) {
                Err(e) => Err(e),
                Ok(b) => divided(f, a, b),
            },
        },
    }
}

fn read_column(row: &EngineRow, i: usize) -> (r: Result<EngineValue, EngineError>)
    ensures
        plain::outcome(r) == column_in_row(row.deep_view(), i),
{
    if i < row.len() {
        Ok(row[i].duplicate())
    } else {
        Err(
            EngineError::SchemaMismatch(
                joined3("column index ", decimal(i as u64).as_str(), " is out of bounds"),
            ),
        )
    }
}

/// The value of a column.
fn evaluate_column(
    row: &EngineRow,
    column: &QualifiedColumn,
    target_table: &str,
    joined_state: Option<&JoinedRowState>,
) -> (r: Result<EngineValue, EngineError>)
    ensures
        plain::outcome(r) == column_value(
            row.deep_view(),
            column.deep_view(),
            target_table@,
            joined_state.deep_view(),
        ),
{
    if same_text(column.table.as_str(), target_table) {
        return read_column(row, column.column_index);
    }
    match joined_state {
        None => {
            let name = joined3(
                "column ",
                column.table.as_str(),
                ".",
            );
            let text = joined3(
                name.as_str(),
                decimal(column.column_index as u64).as_str(),
                " requires join context",
            );
            Err(EngineError::SchemaMismatch(text))
        },
        Some(state) => match state.get(column.table.as_str()) {
            Some(Some(found)) => read_column(found, column.column_index),
            _ => Err(
                EngineError::SchemaMismatch(
                    joined3("join table ", column.table.as_str(), " has no row for expression"),
                ),
            ),
        },
    }
}

/// A number as a double.
fn engine_value_to_float<F: Fn(FloatOp) -> u64>(value: &EngineValue, op: &str, float: &F) -> (r: Result<
    u64,
    EngineError,
>)
    requires
        float::is_float_unit(*float),
    ensures
        plain::outcome(r) == number_of(*float, value.deep_view(), op@),
{
    match value {
        EngineValue::Integer(i) => Ok(compute(float, FloatOp::OfInteger(*i))),
        EngineValue::Float(b) => Ok(*b),
        other => {
            let text = joined3("operator ", op, " requires numeric values, got ");
            Err(EngineError::TypeMismatch(joined(text.as_str(), show_value(other).as_str())))
        },
    }
}

/// What an operation gives on two values.
fn combine<F: Fn(FloatOp) -> u64>(
    op: Arithmetic,
    left: &EngineValue,
    right: &EngineValue,
    float: &F,
) -> (r: Result<EngineValue, EngineError>)
    requires
        float::is_float_unit(*float),
    ensures
        plain::outcome(r) == combined(*float, op, left.deep_view(), right.deep_view()),
{
    if matches!(left, EngineValue::Null) || matches!(right, EngineValue::Null) {
        return Ok(EngineValue::Null);
    }
    let text = match op {
        Arithmetic::Add => "+",
        Arithmetic::Subtract => "-",
        Arithmetic::Multiply => "*",
    };
    let a: u64 = match engine_value_to_float(left, text, float) {
        Ok(a) => a,
        Err(e) => {
            return Err(e);
        },
    };
    let b: u64 = match engine_value_to_float(right, text, float) {
        Ok(b) => b,
        Err(e) => {
            return Err(e);
        },
    };
    let output: u64 = match op {
        Arithmetic::Add => compute(float, FloatOp::Sum(a, b)),
        Arithmetic::Subtract => compute(float, FloatOp::Difference(a, b)),
        Arithmetic::Multiply => compute(float, FloatOp::Product(a, b)),
    };
    match (left, right) {
        (EngineValue::Integer(_), EngineValue::Integer(_)) => Ok(
            EngineValue::Integer(compute(float, FloatOp::ToInteger(output)) as i64),
        ),
        _ => Ok(EngineValue::Float(output)),
    }
}

/// What a division gives on two values.
fn divide<F: Fn(FloatOp) -> u64>(left: &EngineValue, right: &EngineValue, float: &F) -> (r: Result<
    EngineValue,
    EngineError,
>)
    requires
        float::is_float_unit(*float),
    ensures
        plain::outcome(r) == divided(*float, left.deep_view(), right.deep_view()),
{
    let zero = match right {
        EngineValue::Integer(i) => *i == 0,
        EngineValue::Float(b) => *b == 0 || *b == 0x8000_0000_0000_0000,
        _ => false,
    };
    if zero {
        return Err(EngineError::TypeMismatch("division by zero".to_string()));
    }
    let a: u64 = match engine_value_to_float(left, "/", float) {
        Ok(a) => a,
        Err(e) => {
            return Err(e);
        },
    };
    match engine_value_to_float(right, "/", float) {
        Ok(b) => Ok(EngineValue::Float(compute(float, FloatOp::Quotient(a, b)))),
        Err(e) => Err(e),
    }
}

/// The value of an expression.
pub fn evaluate_update_expr<F: Fn(FloatOp) -> u64>(
    row: &EngineRow,
    expr: &UpdateValueExpr,
    target_table: &str,
    joined_state: Option<&JoinedRowState>,
    float: &F,
) -> (r: Result<EngineValue, EngineError>)
    requires
        float::is_float_unit(*float),
    ensures
        plain::outcome(r) == expr_value(
            *float,
            row.deep_view(),
            expr.deep_view(),
            target_table@,
            joined_state.deep_view(),
        ),
    decreases expr,
{
    match expr {
        UpdateValueExpr::Value(value) => Ok(value.duplicate()),
        UpdateValueExpr::Column(column) => evaluate_column(row, column, target_table, joined_state),
        UpdateValueExpr::Add(left, right) => {
            let a = match evaluate_update_expr(row, left, target_table, joined_state, float) {
                Ok(a) => a,
                Err(e) => {
                    return Err(e);
                },
            };
            let b = match evaluate_update_expr(row, right, target_table, joined_state, float) {
                Ok(b) => b,
                Err(e) => {
                    return Err(e);
                },
            };
            combine(Arithmetic::Add, &a, &b, float)
        },
        UpdateValueExpr::Subtract(left, right) => {
            let a = match evaluate_update_expr(row, left, target_table, joined_state, float) {
                Ok(a) => a,
                Err(e) => {
                    return Err(e);
                },
            };
            let b = match evaluate_update_expr(row, right, target_table, joined_state, float) {
                Ok(b) => b,
                Err(e) => {
                    return Err(e);
                },
            };
            combine(Arithmetic::Subtract, &a, &b, float)
        },
        UpdateValueExpr::Multiply(left, right) => {
            let a = match evaluate_update_expr(row, left, target_table, joined_state, float) {
                Ok(a) => a,
                Err(e) => {
                    return Err(e);
                },
            };
            let b = match evaluate_update_expr(row, right, target_table, joined_state, float) {
                Ok(b) => b,
                Err(e) => {
                    return Err(e);
                },
            };
            combine(Arithmetic::Multiply, &a, &b, float)
        },
        UpdateValueExpr::Divide(left, right) => {
            let a = match evaluate_update_expr(row, left, target_table, joined_state, float) {
                Ok(a) => a,
                Err(e) => {
                    return Err(e);
                },
            };
            let b = match evaluate_update_expr(row, right, target_table, joined_state, float) {
                Ok(b) => b,
                Err(e) => {
                    return Err(e);
                },
            };
            divide(&a, &b, float)
        },
    }
}

/// A row with the assignments made, all of them from the row as it was.
pub open spec fn assigned<F: Fn(FloatOp) -> u64>(
    f: F,
    row: RowModel,
    assignments: Seq<AssignmentModel>,
    target: Seq<char>,
    joined: Option<StateModel>,
    so_far: RowModel,
) -> Result<RowModel, ErrorModel>
    decreases assignments.len(),
{
    if assignments.len() == 0 {
        Ok(so_far)
    } else {
        let a = assignments[0];
        match expr_value(f, row, a.value, target, joined) {
            Err(e) => Err(e),
            Ok(value) => if a.column_index < so_far.len() {
                assigned(
                    f,
                    row,
                    assignments.drop_first(),
                    target,
                    joined,
                    so_far.update(a.column_index as int, value),
                )
            } else {
                Err(
                    ErrorModel::SchemaMismatch(
                        "update index "@ + text::decimal_text(a.column_index as nat)
                            + " is out of bounds"@,
                    ),
                )
            },
        }
    }
}

/// A row with the assignments made.
pub fn apply_assignments<F: Fn(FloatOp) -> u64>(
    row: &EngineRow,
    assignments: &Vec<UpdateAssignment>,
    target_table: &str,
    joined_state: Option<&JoinedRowState>,
    float: &F,
) -> (r: Result<EngineRow, EngineError>)
    requires
        float::is_float_unit(*float),
    ensures
        plain::outcome(r) == assigned(
            *float,
            row.deep_view(),
            assignments.deep_view(),
            target_table@,
            joined_state.deep_view(),
            row.deep_view(),
        ),
{
    let ghost all = assignments.deep_view();
    let ghost start = row.deep_view();
    let ghost joined = joined_state.deep_view();
    let ghost wanted = assigned(*float, start, all, target_table@, joined, start);
    let mut updated = row.duplicate();
    let mut i: usize = 0;
    proof {
        assert(all.skip(0) =~= all);
    }
    while i < assignments.len()
        invariant
            i <= assignments.len(),
            all == assignments.deep_view(),
            start == row.deep_view(),
            joined == joined_state.deep_view(),
            float::is_float_unit(*float),
            wanted == assigned(
                *float,
                row.deep_view(),
                assignments.deep_view(),
                target_table@,
                joined_state.deep_view(),
                row.deep_view(),
            ),
            wanted == assigned(
                *float,
                start,
                all.skip(i as int),
                target_table@,
                joined,
                updated.deep_view(),
            ),
        decreases assignments.len() - i,
    {
        let assignment = &assignments[i];
        proof {
            assert(all.skip(i as int)[0] == assignment.deep_view());
            assert(all.skip(i as int).drop_first() =~= all.skip(i + 1));
            assert(updated.len() == updated.deep_view().len());
        }
        match evaluate_update_expr(row, &assignment.value, target_table, joined_state, float) {
            Ok(value) => {
                let place: usize = assignment.column_index;
                if place < updated.len() {
                    let ghost before = updated.deep_view();
                    updated.set(place, value);
                    proof {
                        assert(updated.deep_view() =~= before.update(
                            place as int,
                            value.deep_view(),
                        ));
                    }
                } else {
                    return Err(
                        EngineError::SchemaMismatch(
                            joined3(
                                "update index ",
                                decimal(place as u64).as_str(),
                                " is out of bounds",
                            ),
                        ),
                    );
                }
            },
            Err(e) => {
                return Err(e);
            },
        }
        i += 1;
    }
    Ok(updated)
}

/// The columns of a row that a RETURNING clause gives back.
pub open spec fn returned_row(table: Seq<char>, row: RowModel, columns: Seq<ColumnRef>) -> Result<
    RowModel,
    ErrorModel,
> {
    plain::collected(columns, |c: ColumnRef| column_value(row, c, table, None))
}

/// The columns of a row that a RETURNING clause gives back.
pub fn evaluate_returning_row(table_name: &str, row: &EngineRow, columns: &Vec<QualifiedColumn>) -> (r:
    Result<EngineRow, EngineError>)
    ensures
        plain::outcome(r) == returned_row(table_name@, row.deep_view(), columns.deep_view()),
{
    let ghost all = columns.deep_view();
    let ghost values = row.deep_view();
    let ghost f = |c: ColumnRef| column_value(values, c, table_name@, None);
    let mut out: EngineRow = no_items();
    let mut i: usize = 0;
    proof {
        assert(all.take(0) =~= Seq::empty());
    }
    while i < columns.len()
        invariant
            i <= columns.len(),
            all == columns.deep_view(),
            values == row.deep_view(),
            f == (|c: ColumnRef| column_value(values, c, table_name@, None)),
            plain::collected(all.take(i as int), f) == Ok::<Seq<ValueModel>, ErrorModel>(
                out.deep_view(),
            ),
        decreases columns.len() - i,
    {
        proof {
            plain::lemma_collected_step(all, f, i as int);
            assert(all[i as int] == columns@[i as int].deep_view());
            assert(f(all[i as int]) == column_value(
                values,
                columns@[i as int].deep_view(),
                table_name@,
                None,
            ));
        }
        match evaluate_column(row, &columns[i], table_name, None) {
            Ok(value) => {
                push_back(&mut out, value);
            },
            Err(e) => {
                return Err(e);
            },
        }
        i += 1;
    }
    proof {
        assert(all.take(i as int) =~= all);
    }
    Ok(out)
}

} // verus!
