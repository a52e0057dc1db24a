//! Reading columns out of joined rows.
use vstd::prelude::*;
use crate::error::{EngineError, ErrorModel};
use crate::operators::scan;
use crate::plain::{self, no_items, push_back, Plain};
use crate::predicate::{JoinedRowState, StateModel};
use crate::query::{ColumnRef, QualifiedColumn};
use crate::text::joined;
use crate::value::{EngineRow, EngineValue, ValueModel};

verus! {

/// The values of columns in joined rows. A table without a row, and a row
/// that ends before the column, give NULL; a table that is not among the
/// joined ones is an error, which `context` opens.
pub open spec fn cells(
    state: StateModel,
    columns: Seq<ColumnRef>,
    context: Seq<char>,
) -> Result<Seq<ValueModel>, ErrorModel>
    decreases columns.len(),
{
    if columns.len() == 0 {
        Ok(Seq::empty())
    } else {
        match cells(state, columns.drop_last(), context) {
            Err(e) => Err(e),
            Ok(before) => {
                let column = columns.last();
                if !state.contains_key(column.table) {
                    Err(ErrorModel::SchemaMismatch(context + column.table))
                } else {
                    Ok(
                        before.push(
                            match state[column.table] {
                                Some(row) => scan::cell(row, column.column_index),
                                None => ValueModel::Null,
                            },
                        ),
                    )
                }
            },
        }
    }
}

proof fn lemma_cells_prefix(
    state: StateModel,
    columns: Seq<ColumnRef>,
    context: Seq<char>,
    n: int,
)
    requires
        0 <= n <= columns.len(),
        cells(state, columns.take(n), context) is Err,
    ensures
        cells(state, columns, context) == cells(state, columns.take(n), context),
    decreases columns.len() - n,
{
    if n < columns.len() {
        assert(columns.take(n + 1).drop_last() =~= columns.take(n));
        lemma_cells_prefix(state, columns, context, n + 1);
    } else {
        assert(columns.take(n) =~= columns);
    }
}

/// There are as many values as columns.
pub proof fn lemma_cells_len(state: StateModel, columns: Seq<ColumnRef>, context: Seq<char>)
    ensures
        cells(state, columns, context) matches Ok(values) ==> values.len() == columns.len(),
    decreases columns.len(),
{
    if columns.len() > 0 {
        lemma_cells_len(state, columns.drop_last(), context);
    }
}

/// The value of a column in joined rows.
fn read_cell(state: &JoinedRowState, column: &QualifiedColumn, context: &str) -> (r: Result<
    EngineValue,
    EngineError,
>)
    ensures
        match r {
            Ok(v) => state.deep_view().contains_key(column.table@) && v.deep_view() == (
            match state.deep_view()[column.table@] {
                Some(row) => scan::cell(row, column.column_index),
                None => ValueModel::Null,
            }),
            Err(e) => !state.deep_view().contains_key(column.table@) && e.deep_view()
                == ErrorModel::SchemaMismatch(context@ + column.table@),
        },
{
    match state.get(column.table.as_str()) {
        Some(Some(row)) => if column.column_index < row.len() {
            Ok(row[column.column_index].duplicate())
        } else {
            Ok(EngineValue::Null)
        },
        Some(None) => Ok(EngineValue::Null),
        None => Err(EngineError::SchemaMismatch(joined(context, column.table.as_str()))),
    }
}

/// The values of columns in joined rows.
pub fn read_cells(
    state: &JoinedRowState,
    columns: &Vec<QualifiedColumn>,
    context: &str,
) -> (r: Result<EngineRow, EngineError>)
    ensures
        plain::outcome(r) == cells(state.deep_view(), columns.deep_view(), context@),
{
    let ghost all = columns.deep_view();
    let ghost s = state.deep_view();
    let mut out: EngineRow = no_items();
    let mut i: usize = 0;
    while i < columns.len()
        invariant
            i <= columns.len(),
            all == columns.deep_view(),
            s == state.deep_view(),
            cells(s, all.take(i as int), context@) == Ok::<Seq<ValueModel>, ErrorModel>(
                out.deep_view(),
            ),
        decreases columns.len() - i,
    {
        proof {
            assert(all.take(i + 1).drop_last() =~= all.take(i as int));
            assert(all.take(i + 1).last() == columns@[i as int].deep_view());
        }
        match read_cell(state, &columns[i], context) {
            Ok(v) => {
                push_back(&mut out, v);
            },
            Err(e) => {
                proof {
                    lemma_cells_prefix(s, all, context@, i + 1);
                }
                return Err(e);
            },
        }
        i += 1;
    }
    proof {
        assert(all.take(i as int) =~= all);
    }
    Ok(out)
}

} // verus!
