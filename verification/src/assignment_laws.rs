//! What assignments compute and change.
use vstd::prelude::*;
use crate::condition_laws::value_at;
use crate::error::ErrorModel;
use crate::float::{self, FloatOp};
use crate::plain;
use crate::predicate::StateModel;
use crate::query::{AssignmentModel, ColumnRef, UpdateExprModel};
use crate::store::RowModel;
use crate::update_expr;
use crate::value::ValueModel;

verus! {

/// A number as a double: a whole number as the nearest one, a double as it is.
pub open spec fn as_double<F: Fn(FloatOp) -> u64>(f: F, v: ValueModel) -> Option<u64> {
    match v {
        ValueModel::Integer(i) => Some(float::float_value(f, FloatOp::OfInteger(i))),
        ValueModel::Float(b) => Some(b),
        _ => None,
    }
}

/// A double as the result of arithmetic on two values: cut down to a whole
/// number where both are whole numbers.
pub open spec fn as_result<F: Fn(FloatOp) -> u64>(
    f: F,
    a: ValueModel,
    b: ValueModel,
    result: u64,
) -> ValueModel {
    if a is Integer && b is Integer {
        ValueModel::Integer(float::float_value(f, FloatOp::ToInteger(result)) as i64)
    } else {
        ValueModel::Float(result)
    }
}

/// The two sides of an operation.
pub open spec fn sides<F: Fn(FloatOp) -> u64>(
    f: F,
    row: RowModel,
    left: UpdateExprModel,
    right: UpdateExprModel,
    target: Seq<char>,
    joined: Option<StateModel>,
    a: ValueModel,
    b: ValueModel,
) -> bool {
    &&& update_expr::expr_value(f, row, left, target, joined) == Ok::<ValueModel, ErrorModel>(a)
    &&& update_expr::expr_value(f, row, right, target, joined) == Ok::<ValueModel, ErrorModel>(b)
}

/// Law: the sum, the difference and the product of two numbers are those of the
/// doubles that they are, left and right as they stand, and whole where both
/// numbers are.
pub proof fn law_arithmetic<F: Fn(FloatOp) -> u64>(
    f: F,
    row: RowModel,
    left: UpdateExprModel,
    right: UpdateExprModel,
    target: Seq<char>,
    joined: Option<StateModel>,
    a: ValueModel,
    b: ValueModel,
    x: u64,
    y: u64,
)
    requires
        sides(f, row, left, right, target, joined, a, b),
        as_double(f, a) == Some(x),
        as_double(f, b) == Some(y),
    ensures
        update_expr::expr_value(
            f,
            row,
            UpdateExprModel::Add(Box::new(left), Box::new(right)),
            target,
            joined,
        ) == Ok::<ValueModel, ErrorModel>(
            as_result(f, a, b, float::float_value(f, FloatOp::Sum(x, y))),
        ),
        update_expr::expr_value(
            f,
            row,
            UpdateExprModel::Subtract(Box::new(left), Box::new(right)),
            target,
            joined,
        ) == Ok::<ValueModel, ErrorModel>(
            as_result(f, a, b, float::float_value(f, FloatOp::Difference(x, y))),
        ),
        update_expr::expr_value(
            f,
            row,
            UpdateExprModel::Multiply(Box::new(left), Box::new(right)),
            target,
            joined,
        ) == Ok::<ValueModel, ErrorModel>(
            as_result(f, a, b, float::float_value(f, FloatOp::Product(x, y))),
        ),
{
}

/// Law: NULL on either side makes a sum, a difference and a product NULL.
pub proof fn law_null_spreads<F: Fn(FloatOp) -> u64>(
    f: F,
    row: RowModel,
    left: UpdateExprModel,
    right: UpdateExprModel,
    target: Seq<char>,
    joined: Option<StateModel>,
    a: ValueModel,
    b: ValueModel,
)
    requires
        sides(f, row, left, right, target, joined, a, b),
        a is Null || b is Null,
    ensures
        update_expr::expr_value(
            f,
            row,
            UpdateExprModel::Add(Box::new(left), Box::new(right)),
            target,
            joined,
        ) == Ok::<ValueModel, ErrorModel>(ValueModel::Null),
        update_expr::expr_value(
            f,
            row,
            UpdateExprModel::Subtract(Box::new(left), Box::new(right)),
            target,
            joined,
        ) == Ok::<ValueModel, ErrorModel>(ValueModel::Null),
        update_expr::expr_value(
            f,
            row,
            UpdateExprModel::Multiply(Box::new(left), Box::new(right)),
            target,
            joined,
        ) == Ok::<ValueModel, ErrorModel>(ValueModel::Null),
{
}

/// Law: a value that is neither a number nor NULL cannot be added, subtracted or
/// multiplied, whichever side it stands on, unless the other side is NULL.
pub proof fn law_only_numbers_are_added<F: Fn(FloatOp) -> u64>(
    f: F,
    row: RowModel,
    left: UpdateExprModel,
    right: UpdateExprModel,
    target: Seq<char>,
    joined: Option<StateModel>,
    a: ValueModel,
    b: ValueModel,
)
    requires
        sides(f, row, left, right, target, joined, a, b),
        !(a is Null) && !(b is Null),
        as_double(f, a) is None || as_double(f, b) is None,
    ensures
        update_expr::expr_value(
            f,
            row,
            UpdateExprModel::Add(Box::new(left), Box::new(right)),
            target,
            joined,
        ) matches Err(ErrorModel::TypeMismatch(_)),
        update_expr::expr_value(
            f,
            row,
            UpdateExprModel::Subtract(Box::new(left), Box::new(right)),
            target,
            joined,
        ) matches Err(ErrorModel::TypeMismatch(_)),
        update_expr::expr_value(
            f,
            row,
            UpdateExprModel::Multiply(Box::new(left), Box::new(right)),
            target,
            joined,
        ) matches Err(ErrorModel::TypeMismatch(_)),
{
}

/// A zero: the whole number, or a double of either sign.
pub open spec fn is_zero(v: ValueModel) -> bool {
    v == ValueModel::Integer(0) || v == ValueModel::Float(0) || v == ValueModel::Float(
        0x8000_0000_0000_0000,
    )
}

/// Law: the quotient of two numbers is that of the doubles that they are, the
/// left by the right; there is none by zero, nor of what is no number.
pub proof fn law_division<F: Fn(FloatOp) -> u64>(
    f: F,
    row: RowModel,
    left: UpdateExprModel,
    right: UpdateExprModel,
    target: Seq<char>,
    joined: Option<StateModel>,
    a: ValueModel,
    b: ValueModel,
)
    requires
        sides(f, row, left, right, target, joined, a, b),
    ensures
        match update_expr::expr_value(
            f,
            row,
            UpdateExprModel::Divide(Box::new(left), Box::new(right)),
            target,
            joined,
        ) {
            Ok(v) => !is_zero(b) && as_double(f, a) is Some && as_double(f, b) is Some && v
                == ValueModel::Float(
                float::float_value(
                    f,
                    FloatOp::Quotient(as_double(f, a)->0, as_double(f, b)->0),
                ),
            ),
            Err(ErrorModel::TypeMismatch(_)) => is_zero(b) || as_double(f, a) is None || as_double(
                f,
                b,
            ) is None,
            Err(_) => false,
        },
{
}

/// Law: an operation fails where one of its sides does.
pub proof fn law_failing_side_fails<F: Fn(FloatOp) -> u64>(
    f: F,
    row: RowModel,
    left: UpdateExprModel,
    right: UpdateExprModel,
    target: Seq<char>,
    joined: Option<StateModel>,
)
    requires
        update_expr::expr_value(f, row, left, target, joined) is Err || update_expr::expr_value(
            f,
            row,
            right,
            target,
            joined,
        ) is Err,
    ensures
        ({
            let l = Box::new(left);
            let r = Box::new(right);
            &&& update_expr::expr_value(f, row, UpdateExprModel::Add(l, r), target, joined) is Err
            &&& update_expr::expr_value(
                f,
                row,
                UpdateExprModel::Subtract(l, r),
                target,
                joined,
            ) is Err
            &&& update_expr::expr_value(
                f,
                row,
                UpdateExprModel::Multiply(l, r),
                target,
                joined,
            ) is Err
            &&& update_expr::expr_value(f, row, UpdateExprModel::Divide(l, r), target, joined) is Err
        }),
{
}

/// Law: a literal is its value. A column of the table that is updated is what
/// the row holds of it, one of another table what the joined rows hold of it;
/// where they hold nothing it is an error.
pub proof fn law_operands<F: Fn(FloatOp) -> u64>(
    f: F,
    row: RowModel,
    v: ValueModel,
    column: ColumnRef,
    target: Seq<char>,
    joined: Option<StateModel>,
)
    ensures
        update_expr::expr_value(f, row, UpdateExprModel::Value(v), target, joined) == Ok::<
            ValueModel,
            ErrorModel,
        >(v),
        ({
            let i = column.column_index as int;
            let found = if column.table == target {
                if i < row.len() {
                    Some(row[i])
                } else {
                    None
                }
            } else {
                match joined {
                    Some(state) => value_at(state, column.table, i),
                    None => None,
                }
            };
            match update_expr::expr_value(
                f,
                row,
                UpdateExprModel::Column(column),
                target,
                joined,
            ) {
                Ok(w) => found == Some(w),
                Err(_) => found is None,
            }
        }),
{
}

/// The last of the assignments to a column stands at `k`.
pub open spec fn is_last_for(assignments: Seq<AssignmentModel>, column: int, k: int) -> bool {
    &&& 0 <= k < assignments.len()
    &&& assignments[k].column_index == column
    &&& forall|j: int| k < j < assignments.len() ==> assignments[j].column_index != column
}

/// All assignments can be made.
pub open spec fn is_assignable<F: Fn(FloatOp) -> u64>(
    f: F,
    row: RowModel,
    assignments: Seq<AssignmentModel>,
    target: Seq<char>,
    joined: Option<StateModel>,
) -> bool {
    forall|k: int|
        0 <= k < assignments.len() ==> (#[trigger] assignments[k]).column_index < row.len()
            && update_expr::expr_value(f, row, assignments[k].value, target, joined) is Ok
}

proof fn lemma_assigned<F: Fn(FloatOp) -> u64>(
    f: F,
    row: RowModel,
    assignments: Seq<AssignmentModel>,
    target: Seq<char>,
    joined: Option<StateModel>,
    so_far: RowModel,
)
    requires
        so_far.len() == row.len(),
    ensures
        update_expr::assigned(f, row, assignments, target, joined, so_far) is Ok <==> is_assignable(
            f,
            row,
            assignments,
            target,
            joined,
        ),
        update_expr::assigned(f, row, assignments, target, joined, so_far) matches Ok(after) ==> {
            &&& after.len() == row.len()
            &&& forall|c: int, k: int|
                #[trigger] is_last_for(assignments, c, k) ==> 0 <= c < row.len() && Ok::<
                    ValueModel,
                    ErrorModel,
                >(after[c]) == update_expr::expr_value(
                    f,
                    row,
                    assignments[k].value,
                    target,
                    joined,
                )
            &&& forall|c: int|
                0 <= c < row.len() && (forall|k: int|
                    0 <= k < assignments.len() ==> (#[trigger] assignments[k]).column_index != c)
                    ==> #[trigger] after[c] == so_far[c]
        },
    decreases assignments.len(),
{
    if assignments.len() > 0 {
        let a = assignments[0];
        let rest = assignments.drop_first();
        assert forall|k: int| 0 < k < assignments.len() implies assignments[k] == #[trigger] rest[k
            - 1] by {}
        if a.column_index < row.len() && update_expr::expr_value(
            f,
            row,
            a.value,
            target,
            joined,
        ) is Ok {
            let value = update_expr::expr_value(f, row, a.value, target, joined)->Ok_0;
            let next = so_far.update(a.column_index as int, value);
            lemma_assigned(f, row, rest, target, joined, next);
            assert(is_assignable(f, row, rest, target, joined) == is_assignable(
                f,
                row,
                assignments,
                target,
                joined,
            )) by {
                if is_assignable(f, row, rest, target, joined) {
                    assert forall|k: int| 0 <= k < assignments.len() implies (
                    #[trigger] assignments[k]).column_index < row.len() && update_expr::expr_value(
                        f,
                        row,
                        assignments[k].value,
                        target,
                        joined,
                    ) is Ok by {
                        if k > 0 {
                            assert(rest[k - 1] == assignments[k]);
                        }
                    }
                }
                if is_assignable(f, row, assignments, target, joined) {
                    assert forall|k: int| 0 <= k < rest.len() implies (
                    #[trigger] rest[k]).column_index < row.len() && update_expr::expr_value(
                        f,
                        row,
                        rest[k].value,
                        target,
                        joined,
                    ) is Ok by {
                        assert(rest[k] == assignments[k + 1]);
                    }
                }
            }
            if let Ok(after) = update_expr::assigned(
                f,
                row,
                assignments,
                target,
                joined,
                so_far,
            ) {
                assert forall|c: int, k: int| #[trigger] is_last_for(assignments, c, k) implies 0
                    <= c < row.len() && Ok::<ValueModel, ErrorModel>(after[c])
                    == update_expr::expr_value(f, row, assignments[k].value, target, joined) by {
                    if k > 0 {
                        assert forall|j: int| k - 1 < j < rest.len() implies rest[j].column_index
                            != c by {
                            assert(rest[j] == assignments[j + 1]);
                        }
                        assert(is_last_for(rest, c, k - 1));
                    } else {
                        assert forall|j: int| 0 <= j < rest.len() implies (
                        #[trigger] rest[j]).column_index != c by {
                            assert(rest[j] == assignments[j + 1]);
                        }
                        assert(after[c] == next[c]);
                    }
                }
                assert forall|c: int|
                    0 <= c < row.len() && (forall|k: int|
                        0 <= k < assignments.len() ==> (#[trigger] assignments[k]).column_index
                            != c) implies #[trigger] after[c] == so_far[c] by {
                    assert(assignments[0].column_index != c);
                    assert forall|j: int| 0 <= j < rest.len() implies (
                    #[trigger] rest[j]).column_index != c by {
                        assert(rest[j] == assignments[j + 1]);
                    }
                    assert(after[c] == next[c]);
                }
            }
        } else {
            assert(!is_assignable(f, row, assignments, target, joined)) by {
                if is_assignable(f, row, assignments, target, joined) {
                    assert(assignments[0].column_index < row.len());
                }
            }
        }
    }
}

/// Law: assignments give a row in which each column that is assigned to holds
/// the value of the last assignment to it, computed from the row as it was, and
/// every other column what it held. They fail exactly if the value of one of
/// them cannot be computed or its column lies beyond the row.
pub proof fn law_assignments_change_their_columns<F: Fn(FloatOp) -> u64>(
    f: F,
    row: RowModel,
    assignments: Seq<AssignmentModel>,
    target: Seq<char>,
    joined: Option<StateModel>,
)
    ensures
        match update_expr::assigned(f, row, assignments, target, joined, row) {
            Ok(after) => {
                &&& is_assignable(f, row, assignments, target, joined)
                &&& after.len() == row.len()
                &&& forall|c: int, k: int|
                    #[trigger] is_last_for(assignments, c, k) ==> Ok::<ValueModel, ErrorModel>(
                        after[c],
                    ) == update_expr::expr_value(f, row, assignments[k].value, target, joined)
                &&& forall|c: int|
                    0 <= c < row.len() && (forall|k: int|
                        0 <= k < assignments.len() ==> (#[trigger] assignments[k]).column_index
                            != c) ==> #[trigger] after[c] == row[c]
            },
            Err(_) => !is_assignable(f, row, assignments, target, joined),
        },
{
    lemma_assigned(f, row, assignments, target, joined, row);
}

/// Law: RETURNING gives of each column that it names what the row holds of it.
pub proof fn law_returning_shows_columns(
    table: Seq<char>,
    row: RowModel,
    columns: Seq<ColumnRef>,
)
    requires
        forall|k: int|
            0 <= k < columns.len() ==> (#[trigger] columns[k]).table == table
                && columns[k].column_index < row.len(),
    ensures
        update_expr::returned_row(table, row, columns) == Ok::<RowModel, ErrorModel>(
            Seq::new(columns.len(), |k: int| row[columns[k].column_index as int]),
        ),
    decreases columns.len(),
{
    let f = |c: ColumnRef| update_expr::column_value(row, c, table, None);
    let wanted = Seq::new(columns.len(), |k: int| row[columns[k].column_index as int]);
    if columns.len() == 0 {
        assert(wanted =~= Seq::empty());
    } else {
        let rest = columns.drop_last();
        assert forall|k: int| 0 <= k < rest.len() implies (#[trigger] rest[k]).table == table
            && rest[k].column_index < row.len() by {
            assert(rest[k] == columns[k]);
        }
        law_returning_shows_columns(table, row, rest);
        let last = columns[columns.len() - 1];
        assert(last.table == table && last.column_index < row.len());
        assert(plain::collected(rest, f)->Ok_0 == Seq::new(
            rest.len(),
            |k: int| row[rest[k].column_index as int],
        ));
        assert(wanted =~= Seq::new(rest.len(), |k: int| row[rest[k].column_index as int]).push(
            row[last.column_index as int],
        ));
    }
}

} // verus!
