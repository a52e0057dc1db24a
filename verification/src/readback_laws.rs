//! What a selection reads of what was written before it.
use vstd::prelude::*;
use crate::catalog::{self, CatalogModel};
use crate::consistency::{self, as_entry, has_entry};
use crate::database_laws::{self, database_kept, table_kept};
use crate::error::ErrorModel;
use crate::executor::{self, UpdatePlan, Written};
use crate::float::FloatOp;
use crate::join_builder;
use crate::operators::{scan, sorter};
use crate::persistence;
use crate::plain;
use crate::planner;
use crate::predicate::{self, CacheModel, StateModel};
use crate::projection;
use crate::query::{
    AssignmentModel, ColumnRef, JoinModel, OptionsModel, PredicateModel, QueryModel,
};
use crate::schema;
use crate::select_orchestrator;
use crate::select_pipeline;
use crate::store::{self, KeyModel, RowModel, Trees};
use crate::store_helpers;
use crate::update_expr;
use crate::value::ValueModel;

verus! {

/// A selection with no more to it than its table, its columns and its condition.
pub open spec fn plain_selection(
    table: Seq<char>,
    projection: Seq<ColumnRef>,
    predicate: Option<PredicateModel>,
) -> QueryModel {
    QueryModel::Select {
        table,
        projection,
        predicate,
        options: OptionsModel {
            joins: Seq::empty(),
            aggregates: Seq::empty(),
            group_by: Seq::empty(),
            order_by: Seq::empty(),
            limit: None,
            offset: None,
            distinct: false,
            having: None,
        },
    }
}

/// An UPDATE of one table alone.
pub open spec fn plain_update(
    table: Seq<char>,
    assignments: Seq<AssignmentModel>,
    predicate: Option<PredicateModel>,
    returning: Option<Seq<ColumnRef>>,
) -> QueryModel {
    QueryModel::Update {
        table,
        assignments,
        predicate,
        joins: Seq::empty(),
        from_tables: Seq::empty(),
        returning,
    }
}

/// A condition runs no query of its own.
pub open spec fn without_subqueries(p: PredicateModel) -> bool
    decreases p,
{
    match p {
        PredicateModel::InSubquery { .. } => false,
        PredicateModel::And(a, b) => without_subqueries(*a) && without_subqueries(*b),
        PredicateModel::Or(a, b) => without_subqueries(*a) && without_subqueries(*b),
        PredicateModel::Not(a) => without_subqueries(*a),
        _ => true,
    }
}

/// All columns are those of one table.
pub open spec fn columns_within(columns: Seq<ColumnRef>, table: Seq<char>) -> bool {
    forall|i: int| 0 <= i < columns.len() ==> (#[trigger] columns[i]).table == table
}

/// The values of a row in columns of its table.
pub open spec fn values_in(columns: Seq<ColumnRef>) -> spec_fn(RowModel) -> RowModel {
    |row: RowModel| columns.map_values(|column: ColumnRef| scan::cell(row, column.column_index))
}

/// A row of one table, as joined rows.
pub open spec fn as_single(table: Seq<char>) -> spec_fn(RowModel) -> StateModel {
    |row: RowModel| predicate::single_state(table, row)
}

pub proof fn lemma_nothing_run<F: Fn(FloatOp) -> u64>(
    f: F,
    c: CatalogModel,
    p: PredicateModel,
    cache: CacheModel,
    trees: Trees,
)
    requires
        without_subqueries(p),
    ensures
        planner::subqueries_run(f, c, p, cache, trees) == (Written {
            result: Ok::<CacheModel, ErrorModel>(cache),
            trees,
            events: Seq::empty(),
        }),
    decreases p,
{
    match p {
        PredicateModel::And(a, b) => {
            lemma_nothing_run(f, c, *a, cache, trees);
            lemma_nothing_run(f, c, *b, cache, trees);
        },
        PredicateModel::Or(a, b) => {
            lemma_nothing_run(f, c, *a, cache, trees);
            lemma_nothing_run(f, c, *b, cache, trees);
        },
        PredicateModel::Not(a) => {
            lemma_nothing_run(f, c, *a, cache, trees);
        },
        _ => {},
    }
}

proof fn lemma_cells(table: Seq<char>, row: RowModel, columns: Seq<ColumnRef>, context: Seq<char>)
    requires
        columns_within(columns, table),
    ensures
        projection::cells(predicate::single_state(table, row), columns, context) == Ok::<
            Seq<ValueModel>,
            ErrorModel,
        >(values_in(columns)(row)),
    decreases columns.len(),
{
    if columns.len() == 0 {
        assert(values_in(columns)(row) =~= Seq::empty());
    } else {
        let rest = columns.drop_last();
        assert forall|i: int| 0 <= i < rest.len() implies (#[trigger] rest[i]).table == table by {
            assert(rest[i] == columns[i]);
        }
        lemma_cells(table, row, rest, context);
        assert(columns[columns.len() - 1].table == table);
        assert(values_in(columns)(row) =~= values_in(rest)(row).push(
            scan::cell(row, columns.last().column_index),
        ));
    }
}

/// The states of rows that meet a condition are those of the rows that do.
proof fn lemma_filtered(
    list: Seq<(KeyModel, RowModel)>,
    table: Seq<char>,
    predicate: Option<PredicateModel>,
)
    ensures
        ({
            let p = |entry: (KeyModel, RowModel)|
                store_helpers::meets(predicate, table, entry.1);
            select_orchestrator::filtered(
                join_builder::rows_only(list).map_values(as_single(table)),
                predicate,
                CacheModel::empty(),
            ) == join_builder::rows_only(store_helpers::kept(list, p)).map_values(as_single(table))
        }),
    decreases list.len(),
{
    let p = |entry: (KeyModel, RowModel)| store_helpers::meets(predicate, table, entry.1);
    let states = join_builder::rows_only(list).map_values(as_single(table));
    let kept = store_helpers::kept(list, p);
    if list.len() > 0 {
        let rest = list.drop_last();
        lemma_filtered(rest, table, predicate);
        assert(states.drop_last() =~= join_builder::rows_only(rest).map_values(as_single(table)));
        assert(states.last() == predicate::single_state(table, list.last().1));
        let before = store_helpers::kept(rest, p);
        assert(join_builder::rows_only(before.push(list.last())).map_values(as_single(table))
            =~= join_builder::rows_only(before).map_values(as_single(table)).push(states.last()));
        assert(states =~= states.drop_last().push(states.last()));
    } else {
        assert(states =~= Seq::empty());
        assert(join_builder::rows_only(kept).map_values(as_single(table)) =~= Seq::empty());
    }
}

proof fn lemma_keyed(rows: Seq<RowModel>, table: Seq<char>, projection: Seq<ColumnRef>)
    requires
        columns_within(projection, table),
    ensures
        ({
            let keyed = plain::collected(
                rows.map_values(as_single(table)),
                select_pipeline::keyed_row(projection, Seq::empty()),
            );
            &&& keyed is Ok
            &&& keyed->Ok_0.len() == rows.len()
            &&& forall|i: int|
                0 <= i < rows.len() ==> (#[trigger] keyed->Ok_0[i]).1 == values_in(projection)(
                    rows[i],
                )
        }),
    decreases rows.len(),
{
    let states = rows.map_values(as_single(table));
    let key = select_pipeline::keyed_row(projection, Seq::empty());
    if rows.len() > 0 {
        let rest = rows.drop_last();
        lemma_keyed(rest, table, projection);
        assert(states.drop_last() =~= rest.map_values(as_single(table)));
        lemma_cells(table, rows.last(), projection, "projection references unknown table "@);
        assert(select_pipeline::sort_columns(Seq::empty()) =~= Seq::empty());
        lemma_cells(table, rows.last(), Seq::empty(), "ORDER BY references unknown table "@);
        assert(states.last() == predicate::single_state(table, rows.last()));
        let before = plain::collected(states.drop_last(), key)->Ok_0;
        let keyed = plain::collected(states, key)->Ok_0;
        assert forall|i: int| 0 <= i < rows.len() implies (#[trigger] keyed[i]).1 == values_in(
            projection,
        )(rows[i]) by {
            if i < rest.len() {
                assert(keyed[i] == before[i]);
                assert(rest[i] == rows[i]);
            }
        }
    }
}

/// Each row of a table that is read alone is a state of its own.
proof fn lemma_states(trees: Trees, table: Seq<char>)
    ensures
        select_pipeline::materialized(trees, table, Seq::empty()) == join_builder::rows_only(
            store::table_rows(trees, table),
        ).map_values(as_single(table)),
{
    let none = Seq::<JoinModel>::empty();
    let tables = join_builder::tables_read(table, Seq::empty(), none);
    assert(tables =~= seq![table]);
    assert(tables[0] == table);
    let template = join_builder::template_of(tables);
    let states = select_pipeline::materialized(trees, table, none);
    let rows = join_builder::rows_only(store::table_rows(trees, table));
    let single = rows.map_values(as_single(table));
    assert forall|i: int| 0 <= i < states.len() implies #[trigger] states[i] == single[i] by {
        assert(template.insert(table, Some(rows[i])) =~= predicate::single_state(table, rows[i]));
    }
    assert(states =~= single);
}

/// Law: a selection from one table gives the columns it names of all the rows
/// that meet its condition, in the order of their keys, and changes nothing. It
/// is refused where the table holds a row under a key that is no primary key.
pub proof fn law_selection_reads_rows<F: Fn(FloatOp) -> u64>(
    f: F,
    c: CatalogModel,
    trees: Trees,
    table: Seq<char>,
    projection: Seq<ColumnRef>,
    predicate: Option<PredicateModel>,
)
    requires
        columns_within(projection, table),
        predicate matches Some(p) ==> without_subqueries(p),
    ensures
        planner::run_of(f, c, plain_selection(table, projection, predicate), trees) == (Written {
            result: match store_helpers::rows_found(trees, table, predicate) {
                Err(e) => Err(e),
                Ok(rows) => Ok::<Seq<RowModel>, ErrorModel>(
                    join_builder::rows_only(rows).map_values(values_in(projection)),
                ),
            },
            trees,
            events: Seq::empty(),
        }),
{
    let tables = join_builder::tables_read(table, Seq::empty(), Seq::empty());
    assert(tables =~= seq![table]);
    assert(tables[0] == table);
    if let Some(p) = predicate {
        lemma_nothing_run(f, c, p, CacheModel::empty(), trees);
    }
    let list = store::table_rows(trees, table);
    lemma_states(trees, table);
    lemma_filtered(list, table, predicate);
    let found = join_builder::rows_only(store_helpers::matching_rows(trees, table, predicate));
    lemma_keyed(found, table, projection);
    let keyed = plain::collected(
        found.map_values(as_single(table)),
        select_pipeline::keyed_row(projection, Seq::empty()),
    )->Ok_0;
    assert(sorter::sorter_output(Seq::empty(), false, None, None, keyed) =~= found.map_values(
        values_in(projection),
    ));
}

/// The rows that meet a condition are the rows of the table that do.
pub proof fn lemma_matching(
    trees: Trees,
    table: Seq<char>,
    predicate: Option<PredicateModel>,
    entry: (KeyModel, RowModel),
)
    requires
        trees.dom().finite(),
    ensures
        store_helpers::matching_rows(trees, table, predicate).contains(entry) <==> has_entry(
            trees,
            table,
            entry,
        ) && store_helpers::meets(predicate, table, entry.1),
{
    let rows = store_helpers::matching_rows(trees, table, predicate);
    let list = store::table_rows(trees, table);
    let p = |e: (KeyModel, RowModel)| store_helpers::meets(predicate, table, e.1);
    consistency::lemma_tree_listed(trees, persistence::rows_of(table));
    if rows.contains(entry) {
        let i = choose|i: int| 0 <= i < rows.len() && rows[i] == entry;
        store_helpers::lemma_kept_holds(list, p, i);
        let at = store_helpers::lemma_kept_member(list, p, i);
        assert(trees.contains_key((persistence::rows_of(table), list[at].0)));
    }
    if has_entry(trees, table, entry) && store_helpers::meets(predicate, table, entry.1) {
        assert(trees.contains_key((persistence::rows_of(table), entry.0)));
        let at = choose|at: int| 0 <= at < list.len() && (#[trigger] list[at]).0 == entry.0;
        assert(list[at] == entry);
        let i = store_helpers::lemma_kept_contains(list, p, at);
        assert(rows[i] == entry);
    }
}

/// Law: after an insert, the rows that meet a condition are those that met it
/// before and, if it meets it, the row that was put in.
pub proof fn law_insert_is_read_back<F: Fn(FloatOp) -> u64>(
    f: F,
    c: CatalogModel,
    trees: Trees,
    table: Seq<char>,
    row: RowModel,
    predicate: Option<PredicateModel>,
)
    requires
        database_kept(c, trees),
        planner::run_of(f, c, QueryModel::Insert { table, row }, trees).result is Ok,
    ensures
        ({
            let after = planner::run_of(f, c, QueryModel::Insert { table, row }, trees).trees;
            let pk = schema::primary_key_of(c.tables[table], row);
            &&& pk is Ok
            &&& forall|e: (KeyModel, RowModel)| #[trigger]
                store_helpers::matching_rows(after, table, predicate).contains(e) <==> (
                store_helpers::matching_rows(trees, table, predicate).contains(e) || (e == (
                    pk->Ok_0,
                    row,
                ) && store_helpers::meets(predicate, table, row)))
        }),
{
    let after = executor::inserted(c, trees, table, row).trees;
    assert(table_kept(c, trees, table));
    consistency::law_insert_keeps_table(c, trees, table, row);
    let pk = schema::primary_key_of(c.tables[table], row)->Ok_0;
    assert forall|e: (KeyModel, RowModel)| #[trigger]
        store_helpers::matching_rows(after, table, predicate).contains(e) <==> (
        store_helpers::matching_rows(trees, table, predicate).contains(e) || (e == (pk, row)
            && store_helpers::meets(predicate, table, row))) by {
        lemma_matching(after, table, predicate, e);
        lemma_matching(trees, table, predicate, e);
        assert(store::row_at(after, table, e.0) == if e.0 == pk {
            Some(row)
        } else {
            store::row_at(trees, table, e.0)
        });
    }
}

/// Law: a row that was put in is selected: a selection from its table whose
/// condition it meets gives its columns.
pub proof fn law_inserted_row_is_selected<F: Fn(FloatOp) -> u64>(
    f: F,
    c: CatalogModel,
    trees: Trees,
    table: Seq<char>,
    row: RowModel,
    projection: Seq<ColumnRef>,
    predicate: Option<PredicateModel>,
)
    requires
        database_kept(c, trees),
        planner::run_of(f, c, QueryModel::Insert { table, row }, trees).result is Ok,
        columns_within(projection, table),
        predicate matches Some(p) ==> without_subqueries(p),
        store_helpers::meets(predicate, table, row),
    ensures
        ({
            let after = planner::run_of(f, c, QueryModel::Insert { table, row }, trees).trees;
            let q = plain_selection(table, projection, predicate);
            &&& planner::run_of(f, c, q, after).result is Ok
            &&& planner::run_of(f, c, q, after).result->Ok_0.contains(values_in(projection)(row))
        }),
{
    let after = planner::run_of(f, c, QueryModel::Insert { table, row }, trees).trees;
    law_insert_is_read_back(f, c, trees, table, row, predicate);
    law_selection_reads_rows(f, c, after, table, projection, predicate);
    database_laws::law_query_keeps_database(f, c, QueryModel::Insert { table, row }, trees);
    consistency::lemma_keys_fit(after, table, c.tables[table]);
    let pk = schema::primary_key_of(c.tables[table], row)->Ok_0;
    let found = store_helpers::matching_rows(after, table, predicate);
    assert(found.contains((pk, row)));
    let i = choose|i: int| 0 <= i < found.len() && found[i] == (pk, row);
    let rows = join_builder::rows_only(found).map_values(values_in(projection));
    assert(rows[i] == values_in(projection)(row));
}

/// Law: after a delete, the rows that meet any condition are those that met it
/// before and did not meet the condition of the delete.
pub proof fn law_delete_is_read_back<F: Fn(FloatOp) -> u64>(
    f: F,
    c: CatalogModel,
    trees: Trees,
    table: Seq<char>,
    gone: Option<PredicateModel>,
    returning: Option<Seq<ColumnRef>>,
    predicate: Option<PredicateModel>,
)
    requires
        database_kept(c, trees),
        planner::run_of(
            f,
            c,
            QueryModel::Delete { table, predicate: gone, returning },
            trees,
        ).result is Ok,
    ensures
        ({
            let after = planner::run_of(
                f,
                c,
                QueryModel::Delete { table, predicate: gone, returning },
                trees,
            ).trees;
            forall|e: (KeyModel, RowModel)| #[trigger]
                store_helpers::matching_rows(after, table, predicate).contains(e) <==> (
                store_helpers::matching_rows(trees, table, predicate).contains(e)
                    && !store_helpers::meets(gone, table, e.1))
        }),
{
    let after = executor::deleted(c, trees, table, gone, returning).trees;
    assert(table_kept(c, trees, table));
    consistency::law_delete_keeps_table(c, trees, table, gone, returning);
    let list = store_helpers::matching_rows(trees, table, gone);
    consistency::lemma_matching_rows(trees, table, gone);
    assert forall|e: (KeyModel, RowModel)| #[trigger]
        store_helpers::matching_rows(after, table, predicate).contains(e) <==> (
        store_helpers::matching_rows(trees, table, predicate).contains(e)
            && !store_helpers::meets(gone, table, e.1)) by {
        lemma_matching(after, table, predicate, e);
        lemma_matching(trees, table, predicate, e);
        lemma_matching(trees, table, gone, e);
        assert(store::row_at(after, table, e.0) == if consistency::listed(list, e.0) {
            None
        } else {
            store::row_at(trees, table, e.0)
        });
        if has_entry(trees, table, e) && consistency::listed(list, e.0) {
            let i = choose|i: int| 0 <= i < list.len() && (#[trigger] list[i]).0 == e.0;
            let entry = as_entry();
            assert(store::row_at(trees, table, entry(list[i]).0) == Some(entry(list[i]).1));
            assert(list[i] == e);
            assert(list.contains(e));
        }
        if list.contains(e) {
            let i = choose|i: int| 0 <= i < list.len() && list[i] == e;
            assert(list[i].0 == e.0);
        }
    }
}

/// Law: what was deleted is not selected: a selection with the condition of a
/// delete gives no rows after it.
pub proof fn law_deleted_rows_are_not_selected<F: Fn(FloatOp) -> u64>(
    f: F,
    c: CatalogModel,
    trees: Trees,
    table: Seq<char>,
    gone: Option<PredicateModel>,
    returning: Option<Seq<ColumnRef>>,
    projection: Seq<ColumnRef>,
)
    requires
        database_kept(c, trees),
        planner::run_of(
            f,
            c,
            QueryModel::Delete { table, predicate: gone, returning },
            trees,
        ).result is Ok,
        columns_within(projection, table),
        gone matches Some(p) ==> without_subqueries(p),
    ensures
        ({
            let after = planner::run_of(
                f,
                c,
                QueryModel::Delete { table, predicate: gone, returning },
                trees,
            ).trees;
            planner::run_of(f, c, plain_selection(table, projection, gone), after).result == Ok::<
                Seq<RowModel>,
                ErrorModel,
            >(Seq::empty())
        }),
{
    let after = executor::deleted(c, trees, table, gone, returning).trees;
    assert(table_kept(c, trees, table));
    consistency::law_delete_keeps_table(c, trees, table, gone, returning);
    law_delete_is_read_back(f, c, trees, table, gone, returning, gone);
    law_selection_reads_rows(f, c, after, table, projection, gone);
    consistency::lemma_keys_fit(after, table, c.tables[table]);
    let found = store_helpers::matching_rows(after, table, gone);
    if found.len() > 0 {
        assert(found.contains(found[0]));
        lemma_matching(after, table, gone, found[0]);
        assert(false);
    }
    assert(join_builder::rows_only(found).map_values(values_in(projection)) =~= Seq::empty());
}

/// What an UPDATE of one table makes of a row: its new key and its new form.
pub open spec fn new_entry<F: Fn(FloatOp) -> u64>(
    f: F,
    c: CatalogModel,
    table: Seq<char>,
    assignments: Seq<AssignmentModel>,
    row: RowModel,
) -> (KeyModel, RowModel) {
    let new_row = update_expr::assigned(f, row, assignments, table, None, row)->Ok_0;
    (schema::primary_key_of(c.tables[table], new_row)->Ok_0, new_row)
}

/// An entry is what an UPDATE makes of a row that meets its condition.
pub open spec fn comes_of_update<F: Fn(FloatOp) -> u64>(
    f: F,
    c: CatalogModel,
    trees: Trees,
    table: Seq<char>,
    assignments: Seq<AssignmentModel>,
    predicate: Option<PredicateModel>,
    entry: (KeyModel, RowModel),
) -> bool {
    exists|old_pk: KeyModel, old_row: RowModel|
        #![trigger store_helpers::matching_rows(trees, table, predicate).contains((old_pk, old_row))]
        store_helpers::matching_rows(trees, table, predicate).contains((old_pk, old_row)) && entry
            == new_entry(f, c, table, assignments, old_row)
}

/// Without assignments a row comes of itself.
proof fn lemma_unchanged<F: Fn(FloatOp) -> u64>(
    f: F,
    c: CatalogModel,
    trees: Trees,
    table: Seq<char>,
    assignments: Seq<AssignmentModel>,
    predicate: Option<PredicateModel>,
    e: (KeyModel, RowModel),
)
    requires
        trees.dom().finite(),
        consistency::rows_fit(trees, table, c.tables[table]),
        assignments.len() == 0,
    ensures
        comes_of_update(f, c, trees, table, assignments, predicate, e) <==> has_entry(
            trees,
            table,
            e,
        ) && store_helpers::meets(predicate, table, e.1),
{
    let found = store_helpers::matching_rows(trees, table, predicate);
    lemma_matching(trees, table, predicate, e);
    if comes_of_update(f, c, trees, table, assignments, predicate, e) {
        let (old_pk, old_row) = choose|old_pk: KeyModel, old_row: RowModel|
            #![trigger found.contains((old_pk, old_row))]
            found.contains((old_pk, old_row)) && e == new_entry(f, c, table, assignments, old_row);
        lemma_matching(trees, table, predicate, (old_pk, old_row));
        assert(consistency::row_fits(trees, table, c.tables[table], old_pk));
    }
    if has_entry(trees, table, e) && store_helpers::meets(predicate, table, e.1) {
        assert(consistency::row_fits(trees, table, c.tables[table], e.0));
        assert(found.contains((e.0, e.1)));
    }
}

/// What an update makes of the rows that it is for comes of the rows that meet
/// its condition.
proof fn lemma_update_entry<F: Fn(FloatOp) -> u64>(
    f: F,
    plan: UpdatePlan,
    c: CatalogModel,
    trees: Trees,
    table: Seq<char>,
    predicate: Option<PredicateModel>,
    e: (KeyModel, RowModel),
)
    requires
        trees.dom().finite(),
        plan.schema == c.tables[table],
        plan.table == table,
    ensures
        ({
            let rows = executor::alone(store_helpers::matching_rows(trees, table, predicate));
            &&& consistency::is_replaced(f, plan, rows, e) <==> comes_of_update(
                f,
                c,
                trees,
                table,
                plan.assignments,
                predicate,
                e,
            )
            &&& has_entry(trees, table, e) ==> (executor::has_key(rows, e.0)
                <==> store_helpers::meets(predicate, table, e.1))
        }),
{
    let found = store_helpers::matching_rows(trees, table, predicate);
    let rows = executor::alone(found);
    if consistency::is_replaced(f, plan, rows, e) {
        let i = choose|i: int|
            0 <= i < rows.len() && #[trigger] consistency::replaced_entry(f, plan, rows[i]) == e;
        assert(found.contains((found[i].0, found[i].1)));
    }
    if comes_of_update(f, c, trees, table, plan.assignments, predicate, e) {
        let (old_pk, old_row) = choose|old_pk: KeyModel, old_row: RowModel|
            #![trigger found.contains((old_pk, old_row))]
            found.contains((old_pk, old_row)) && e == new_entry(
                f,
                c,
                table,
                plan.assignments,
                old_row,
            );
        let i = choose|i: int| 0 <= i < found.len() && found[i] == (old_pk, old_row);
        assert(consistency::replaced_entry(f, plan, rows[i]) == e);
    }
    if has_entry(trees, table, e) {
        lemma_matching(trees, table, predicate, e);
        if executor::has_key(rows, e.0) {
            let i = choose|i: int| 0 <= i < rows.len() && (#[trigger] rows[i]).0 == e.0;
            assert(found.contains(found[i]));
            lemma_matching(trees, table, predicate, found[i]);
            assert(found[i] == e);
        }
        if store_helpers::meets(predicate, table, e.1) {
            let i = choose|i: int| 0 <= i < found.len() && found[i] == e;
            assert(rows[i].0 == e.0);
        }
    }
}

/// Law: after an UPDATE of one table, the table holds the rows that did not meet
/// its condition, as they were, the others in their new form, and no more.
pub proof fn law_update_is_read_back<F: Fn(FloatOp) -> u64>(
    f: F,
    c: CatalogModel,
    trees: Trees,
    table: Seq<char>,
    assignments: Seq<AssignmentModel>,
    predicate: Option<PredicateModel>,
    returning: Option<Seq<ColumnRef>>,
)
    requires
        database_kept(c, trees),
        planner::run_of(
            f,
            c,
            plain_update(table, assignments, predicate, returning),
            trees,
        ).result is Ok,
    ensures
        ({
            let after = planner::run_of(
                f,
                c,
                plain_update(table, assignments, predicate, returning),
                trees,
            ).trees;
            forall|e: (KeyModel, RowModel)| #[trigger]
                store_helpers::matching_rows(after, table, None).contains(e) <==> (
                store_helpers::matching_rows(trees, table, None).contains(e)
                    && !store_helpers::meets(predicate, table, e.1)) || comes_of_update(
                    f,
                    c,
                    trees,
                    table,
                    assignments,
                    predicate,
                    e,
                )
        }),
{
    let none = Seq::<JoinModel>::empty();
    let names = Seq::<Seq<char>>::empty();
    let after = executor::updated(
        f,
        c,
        trees,
        table,
        assignments,
        predicate,
        none,
        names,
        returning,
    ).trees;
    let schema = c.tables[table];
    let indexes = catalog::indexes_of(c.indexes, table);
    let plan = UpdatePlan { schema, table, indexes, assignments, returning };
    assert(table_kept(c, trees, table));
    consistency::law_update_keeps_table(
        f,
        c,
        trees,
        table,
        assignments,
        predicate,
        none,
        names,
        returning,
    );
    let found = store_helpers::matching_rows(trees, table, predicate);
    let rows = executor::alone(found);
    assert forall|e: (KeyModel, RowModel)| #[trigger]
        store_helpers::matching_rows(after, table, None).contains(e) <==> (
        store_helpers::matching_rows(trees, table, None).contains(e) && !store_helpers::meets(
            predicate,
            table,
            e.1,
        )) || comes_of_update(f, c, trees, table, assignments, predicate, e) by {
        lemma_matching(after, table, None, e);
        lemma_matching(trees, table, None, e);
        lemma_matching(trees, table, predicate, e);
        if assignments.len() == 0 {
            lemma_unchanged(f, c, trees, table, assignments, predicate, e);
        } else {
            lemma_update_entry(f, plan, c, trees, table, predicate, e);
            assert(has_entry(after, table, e) <==> (has_entry(trees, table, e)
                && !executor::has_key(rows, e.0)) || consistency::is_replaced(f, plan, rows, e));
        }
    }
}

} // verus!
