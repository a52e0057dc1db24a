//! Writing rows: inserts, deletes and updates in a transaction.
use vstd::prelude::*;
use crate::catalog::{self, CatalogModel, EngineCatalog};
use crate::change_event::{ChangeEvent, EventModel};
use crate::error::{self, schema_mismatch, EngineError, ErrorModel};
use crate::float::{self, FloatOp};
use crate::join_builder::{
    self, apply_join_clauses, build_join_template, collect_table_rows_map, collect_tables,
    expand_with_from_tables, seed_joined_row_states, JoinedRowStates,
};
use crate::patch::{self, TransactionPatch};
use crate::plain::{self, no_items, push_back, Plain};
use crate::predicate::{CacheModel, EvalContext, JoinedRowState, StateModel};
use crate::query::{
    AssignmentModel, ColumnRef, JoinClause, JoinModel, PredicateModel, QualifiedColumn,
    QualifiedPredicate, UpdateAssignment,
};
use crate::schema::{self, IndexModel, IndexSchema, TableModel, TableSchema};
use crate::select_orchestrator;
use crate::select_pipeline::filter_joined_rows;
use crate::store::{
    self, commit, Changes, EngineStore, KeyModel, NamedTreeEngineTransaction,
    NamedTreeProvider, RowModel,
    RowStore, Trees, TreeView,
};
use crate::store_helpers::{self, collect_table_rows, delete_row, IndexMaintainer};
use crate::transaction_lifecycle::{self, TransactionLifecycle, TransactionState};
use crate::update_expr::{self, apply_assignments, evaluate_returning_row};
use crate::value::{EngineRow, PrimaryKey};

verus! {

/// What a write gives: its result, the trees after it, and the changes that
/// listeners hear of.
#[verifier::ext_equal]
pub struct Written<T> {
    pub result: Result<T, ErrorModel>,
    pub trees: Trees,
    pub events: Seq<EventModel>,
}

/// A write that is refused.
pub open spec fn refused<T>(e: ErrorModel, trees: Trees) -> Written<T> {
    Written { result: Err(e), trees, events: Seq::empty() }
}

/// A row put into a table and its indexes.
pub open spec fn row_added(
    trees: Trees,
    table: Seq<char>,
    pk: KeyModel,
    row: RowModel,
    indexes: Seq<IndexModel>,
) -> (Result<(), ErrorModel>, Trees) {
    store_helpers::entries_added(store::with_row(trees, table, pk, row), indexes, row, pk)
}

/// What inserting a row gives.
pub open spec fn inserted(c: CatalogModel, trees: Trees, table: Seq<char>, row: RowModel) -> Written<()> {
    match catalog::table_of(c, table) {
        Err(e) => refused(e, trees),
        Ok(t) => match schema::row_check(t, row) {
            Err(e) => refused(e, trees),
            Ok(_) => match schema::primary_key_of(t, row) {
                Err(e) => refused(e, trees),
                Ok(pk) => if store::row_at(trees, table, pk) is Some {
                    refused(ErrorModel::DuplicatePrimaryKey(pk), trees)
                } else {
                    let indexes = catalog::indexes_of(c.indexes, table);
                    match store_helpers::unique_check(trees, indexes, row, pk) {
                        Err(e) => refused(e, trees),
                        Ok(_) => {
                            let (result, after) = row_added(trees, table, pk, row, indexes);
                            Written {
                                result,
                                trees: after,
                                events: if result is Ok {
                                    seq![EventModel::RowInserted { table, pk, row }]
                                } else {
                                    Seq::empty()
                                },
                            }
                        },
                    }
                },
            },
        },
    }
}

/// What a statement gives back of a row, if it gives rows back.
pub open spec fn given_back(
    table: Seq<char>,
    row: RowModel,
    returning: Option<Seq<ColumnRef>>,
    out: Seq<RowModel>,
) -> Result<Seq<RowModel>, ErrorModel> {
    match returning {
        None => Ok(out),
        Some(columns) => match update_expr::returned_row(table, row, columns) {
            Err(e) => Err(e),
            Ok(values) => Ok(out.push(values)),
        },
    }
}

/// Deleting rows, one after the other.
pub open spec fn deleting(
    rows: Seq<(KeyModel, RowModel)>,
    trees: Trees,
    table: Seq<char>,
    indexes: Seq<IndexModel>,
    returning: Option<Seq<ColumnRef>>,
    out: Seq<RowModel>,
    events: Seq<EventModel>,
) -> Written<Seq<RowModel>>
    decreases rows.len(),
{
    if rows.len() == 0 {
        Written { result: Ok(out), trees, events }
    } else {
        let (pk, row) = rows[0];
        match given_back(table, row, returning, out) {
            Err(e) => refused(e, trees),
            Ok(out) => {
                let (result, after) = store_helpers::row_deleted(trees, table, pk, row, indexes);
                match result {
                    Err(e) => refused(e, after),
                    Ok(_) => deleting(
                        rows.drop_first(),
                        after,
                        table,
                        indexes,
                        returning,
                        out,
                        events.push(EventModel::RowDeleted { table, pk, row }),
                    ),
                }
            },
        }
    }
}

/// What deleting the rows that meet a condition gives.
pub open spec fn deleted(
    c: CatalogModel,
    trees: Trees,
    table: Seq<char>,
    predicate: Option<PredicateModel>,
    returning: Option<Seq<ColumnRef>>,
) -> Written<Seq<RowModel>> {
    match catalog::table_of(c, table) {
        Err(e) => refused(e, trees),
        Ok(_) => match store_helpers::rows_found(trees, table, predicate) {
            Err(e) => refused(e, trees),
            Ok(rows) => deleting(
                rows,
                trees,
                table,
                catalog::indexes_of(c.indexes, table),
                returning,
                Seq::empty(),
                Seq::empty(),
            ),
        },
    }
}

/// A row to update, with the rows that are joined to it.
pub type UpdateModel = (KeyModel, RowModel, Option<StateModel>);

/// What an UPDATE does, but for the rows.
#[verifier::ext_equal]
pub struct UpdatePlan {
    pub schema: TableModel,
    pub table: Seq<char>,
    pub indexes: Seq<IndexModel>,
    pub assignments: Seq<AssignmentModel>,
    pub returning: Option<Seq<ColumnRef>>,
}

/// A row replaced by its new form: the result is its new primary key.
pub open spec fn row_replaced(
    plan: UpdatePlan,
    trees: Trees,
    old_pk: KeyModel,
    old_row: RowModel,
    new_row: RowModel,
) -> (Result<KeyModel, ErrorModel>, Trees) {
    match schema::row_check(plan.schema, new_row) {
        Err(e) => (Err(e), trees),
        Ok(_) => match schema::primary_key_of(plan.schema, new_row) {
            Err(e) => (Err(e), trees),
            Ok(pk) => if pk != old_pk && store::row_at(trees, plan.table, pk) is Some {
                (Err(ErrorModel::DuplicatePrimaryKey(pk)), trees)
            } else {
                let (gone, after) = store_helpers::row_deleted(
                    trees,
                    plan.table,
                    old_pk,
                    old_row,
                    plan.indexes,
                );
                match gone {
                    Err(e) => (Err(e), after),
                    Ok(_) => match store_helpers::unique_check(after, plan.indexes, new_row, pk) {
                        Err(e) => (Err(e), after),
                        Ok(_) => {
                            let (added, last) = row_added(
                                after,
                                plan.table,
                                pk,
                                new_row,
                                plan.indexes,
                            );
                            match added {
                                Err(e) => (Err(e), last),
                                Ok(_) => (Ok(pk), last),
                            }
                        },
                    },
                }
            },
        },
    }
}

/// Updating rows, one after the other.
pub open spec fn updating<F: Fn(FloatOp) -> u64>(
    f: F,
    plan: UpdatePlan,
    rows: Seq<UpdateModel>,
    trees: Trees,
    out: Seq<RowModel>,
    events: Seq<EventModel>,
) -> Written<Seq<RowModel>>
    decreases rows.len(),
{
    if rows.len() == 0 {
        Written { result: Ok(out), trees, events }
    } else {
        let (old_pk, old_row, joined) = rows[0];
        match update_expr::assigned(
            f,
            old_row,
            plan.assignments,
            plan.table,
            joined,
            old_row,
        ) {
            Err(e) => refused(e, trees),
            Ok(new_row) => {
                let (result, after) = row_replaced(plan, trees, old_pk, old_row, new_row);
                match result {
                    Err(e) => refused(e, after),
                    Ok(pk) => match given_back(plan.table, new_row, plan.returning, out) {
                        Err(e) => refused(e, after),
                        Ok(out) => updating(
                            f,
                            plan,
                            rows.drop_first(),
                            after,
                            out,
                            events.push(
                                EventModel::RowUpdated {
                                    table: plan.table,
                                    pk,
                                    old_row,
                                    new_row,
                                },
                            ),
                        ),
                    },
                }
            },
        }
    }
}

/// One of the rows to update has that primary key.
pub open spec fn has_key(rows: Seq<UpdateModel>, pk: KeyModel) -> bool {
    exists|i: int| 0 <= i < rows.len() && (#[trigger] rows[i]).0 == pk
}

/// The rows of the target table in joined rows. None may be there twice.
pub open spec fn targets(
    states: Seq<StateModel>,
    schema: TableModel,
    table: Seq<char>,
    so_far: Seq<UpdateModel>,
) -> Result<Seq<UpdateModel>, ErrorModel>
    decreases states.len(),
{
    if states.len() == 0 {
        Ok(so_far)
    } else if !(states[0].contains_key(table) && states[0][table] is Some) {
        targets(states.drop_first(), schema, table, so_far)
    } else {
        let row = states[0][table]->Some_0;
        match schema::primary_key_of(schema, row) {
            Err(e) => Err(e),
            Ok(pk) => if has_key(so_far, pk) {
                Err(
                    ErrorModel::SchemaMismatch("UPDATE JOIN matched target row more than once"@),
                )
            } else {
                targets(
                    states.drop_first(),
                    schema,
                    table,
                    so_far.push((pk, row, Some(states[0]))),
                )
            },
        }
    }
}

/// The rows that an UPDATE with joins or further tables changes.
pub open spec fn join_targets(
    trees: Trees,
    schema: TableModel,
    table: Seq<char>,
    joins: Seq<JoinModel>,
    from_tables: Seq<Seq<char>>,
    predicate: Option<PredicateModel>,
) -> Result<Seq<UpdateModel>, ErrorModel> {
    let tables = join_builder::tables_read(table, from_tables, joins);
    let rows = join_builder::rows_by_table(trees, tables);
    let template = join_builder::template_of(tables);
    if !join_builder::all_listed(trees, tables) {
        Err(schema::no_primary_key())
    } else {
    match join_builder::expanded(
        join_builder::seeded(table, rows, template),
        from_tables,
        rows,
    ) {
        Err(e) => Err(e),
        Ok(states) => match join_builder::joined_within_limit(joins, rows, template, states) {
            Err(e) => Err(e),
            Ok(states) => targets(
                select_orchestrator::filtered(states, predicate, CacheModel::empty()),
                schema,
                table,
                Seq::empty(),
            ),
        },
    }
    }
}

/// Rows without rows joined to them.
pub open spec fn alone(rows: Seq<(KeyModel, RowModel)>) -> Seq<UpdateModel> {
    rows.map_values(|entry: (KeyModel, RowModel)| (entry.0, entry.1, None::<StateModel>))
}

/// The rows that an UPDATE changes.
pub open spec fn update_targets(
    trees: Trees,
    schema: TableModel,
    table: Seq<char>,
    joins: Seq<JoinModel>,
    from_tables: Seq<Seq<char>>,
    predicate: Option<PredicateModel>,
) -> Result<Seq<UpdateModel>, ErrorModel> {
    if joins.len() == 0 && from_tables.len() == 0 {
        match store_helpers::rows_found(trees, table, predicate) {
            Err(e) => Err(e),
            Ok(rows) => Ok(alone(rows)),
        }
    } else {
        join_targets(trees, schema, table, joins, from_tables, predicate)
    }
}

/// What an UPDATE gives.
pub open spec fn updated<F: Fn(FloatOp) -> u64>(
    f: F,
    c: CatalogModel,
    trees: Trees,
    table: Seq<char>,
    assignments: Seq<AssignmentModel>,
    predicate: Option<PredicateModel>,
    joins: Seq<JoinModel>,
    from_tables: Seq<Seq<char>>,
    returning: Option<Seq<ColumnRef>>,
) -> Written<Seq<RowModel>> {
    match catalog::table_of(c, table) {
        Err(e) => refused(e, trees),
        Ok(schema) => if assignments.len() == 0 {
            Written { result: Ok(Seq::empty()), trees, events: Seq::empty() }
        } else {
            match update_targets(trees, schema, table, joins, from_tables, predicate) {
                Err(e) => refused(e, trees),
                Ok(rows) => updating(
                    f,
                    UpdatePlan {
                        schema,
                        table,
                        indexes: catalog::indexes_of(c.indexes, table),
                        assignments,
                        returning,
                    },
                    rows,
                    trees,
                    Seq::empty(),
                    Seq::empty(),
                ),
            }
        },
    }
}

/// A write gave what it should, or the store below, which is not sound, failed.
pub open spec fn writes<T: DeepView>(
    r: Result<T, EngineError>,
    sound: bool,
    trees: Trees,
    events: Seq<EventModel>,
    before: Seq<EventModel>,
    exact: Written<T::V>,
) -> bool {
    (error::is_fault(r) && !sound && events == before) || (plain::outcome(r) == exact.result
        && trees == exact.trees && events == before + exact.events)
}

/// Puts a row into a table and its indexes.
fn add_row<'s, S: EngineStore>(
    tx: &mut NamedTreeEngineTransaction<'s, S>,
    table_name: &str,
    pk: &PrimaryKey,
    row: &EngineRow,
    indexes: &Vec<IndexSchema>,
) -> (r: Result<(), EngineError>)
    ensures
        final(tx).sound() == old(tx).sound(),
        final(tx).base() == old(tx).base(),
        store::settles_with(
            r,
            old(tx).sound(),
            final(tx).trees(),
            row_added(
                old(tx).trees(),
                table_name@,
                pk.deep_view(),
                row.deep_view(),
                indexes.deep_view(),
            ),
        ),
{
    match tx.insert_table_row(table_name, pk.duplicate(), row.duplicate()) {
        Ok(()) => {},
        Err(e) => {
            return Err(e);
        },
    }
    IndexMaintainer::insert_entries(tx, indexes, row, pk)
}

/// Adds what a statement gives back of a row.
fn give_back(
    table_name: &str,
    row: &EngineRow,
    returning: &Option<Vec<QualifiedColumn>>,
    out: &mut Vec<EngineRow>,
) -> (r: Result<(), EngineError>)
    ensures
        match given_back(table_name@, row.deep_view(), returning.deep_view(), old(out).deep_view()) {
            Ok(rows) => r is Ok && final(out).deep_view() == rows,
            Err(e) => r matches Err(x) && x.deep_view() == e,
        },
{
    if let Some(columns) = returning {
        match evaluate_returning_row(table_name, row, columns) {
            Ok(values) => {
                push_back(out, values);
            },
            Err(e) => {
                return Err(e);
            },
        }
    }
    Ok(())
}

/// A row to update, with the rows that are joined to it.
pub struct UpdateTarget {
    pub pk: PrimaryKey,
    pub row: EngineRow,
    pub joined: Option<JoinedRowState>,
}

impl DeepView for UpdateTarget {
    type V = UpdateModel;

    open spec fn deep_view(&self) -> UpdateModel {
        (self.pk.deep_view(), self.row.deep_view(), self.joined.deep_view())
    }
}

fn find_key(rows: &Vec<UpdateTarget>, pk: &PrimaryKey) -> (r: bool)
    ensures
        r == has_key(rows.deep_view(), pk.deep_view()),
{
    let ghost all = rows.deep_view();
    let mut i: usize = 0;
    while i < rows.len()
        invariant
            i <= rows.len(),
            all == rows.deep_view(),
            forall|j: int| 0 <= j < i ==> (#[trigger] all[j]).0 != pk.deep_view(),
        decreases rows.len() - i,
    {
        assert(all[i as int].0 == rows@[i as int].pk.deep_view());
        if rows[i].pk.same(pk) {
            return true;
        }
        i += 1;
    }
    false
}

/// The rows that an UPDATE with joins or further tables changes.
fn collect_join_update_rows<TX: RowStore>(
    tx: &TX,
    table: &TableSchema,
    table_name: &str,
    joins: &Vec<JoinClause>,
    from_tables: &Vec<String>,
    predicate: Option<&QualifiedPredicate>,
) -> (r: Result<Vec<UpdateTarget>, EngineError>)
    ensures
        error::settles(
            r,
            tx.sound(),
            join_targets(
                tx.trees(),
                table.deep_view(),
                table_name@,
                joins.deep_view(),
                from_tables.deep_view(),
                predicate.deep_view(),
            ),
        ),
{
    let all_tables = collect_tables(table_name, from_tables, joins);
    let table_rows_map = match collect_table_rows_map(tx, &all_tables) {
        Ok(map) => map,
        Err(e) => {
            return Err(e);
        },
    };
    let template = build_join_template(&all_tables);
    let states = seed_joined_row_states(table_name, &table_rows_map, &template);
    let states = match expand_with_from_tables(states, from_tables, &table_rows_map) {
        Ok(states) => states,
        Err(e) => {
            return Err(e);
        },
    };
    let states = match apply_join_clauses(joins, &table_rows_map, &template, states) {
        Ok(states) => states,
        Err(e) => {
            return Err(e);
        },
    };
    let states = match predicate {
        Some(pred) => filter_joined_rows(&states, pred, &EvalContext::empty()),
        None => states,
    };
    collect_targets(&states, table, table_name)
}

/// The rows of the target table in joined rows.
fn collect_targets(states: &JoinedRowStates, table: &TableSchema, table_name: &str) -> (r: Result<
    Vec<UpdateTarget>,
    EngineError,
>)
    ensures
        plain::outcome(r) == targets(
            states.deep_view(),
            table.deep_view(),
            table_name@,
            Seq::empty(),
        ),
{
    let ghost all = states.deep_view();
    let ghost schema = table.deep_view();
    let ghost wanted = targets(all, schema, table_name@, Seq::empty());
    let mut matched: Vec<UpdateTarget> = no_items();
    let mut i: usize = 0;
    proof {
        assert(all.skip(0) =~= all);
    }
    while i < states.len()
        invariant
            i <= states.len(),
            all == states.deep_view(),
            schema == table.deep_view(),
            wanted == targets(
                states.deep_view(),
                table.deep_view(),
                table_name@,
                Seq::empty(),
            ),
            wanted == targets(all.skip(i as int), schema, table_name@, matched.deep_view()),
        decreases states.len() - i,
    {
        let state = &states[i];
        proof {
            assert(all.skip(i as int)[0] == state.deep_view());
            assert(all.skip(i as int).drop_first() =~= all.skip(i + 1));
        }
        if let Some(Some(row)) = state.get(table_name) {
            let pk = match table.primary_key(row) {
                Ok(pk) => pk,
                Err(e) => {
                    return Err(e);
                },
            };
            if find_key(&matched, &pk) {
                return Err(schema_mismatch("UPDATE JOIN matched target row more than once"));
            }
            let copy = state.duplicate();
            let ghost joined = Some(copy).deep_view();
            assert(joined == Some(state.deep_view()));
            push_back(&mut matched, UpdateTarget { pk, row: row.duplicate(), joined: Some(copy) });
        }
        i += 1;
    }
    Ok(matched)
}

/// Rows without rows joined to them.
fn without_joins(rows: &Vec<(PrimaryKey, EngineRow)>) -> (r: Vec<UpdateTarget>)
    ensures
        r.deep_view() == alone(rows.deep_view()),
{
    let ghost wanted = alone(rows.deep_view());
    let mut out: Vec<UpdateTarget> = no_items();
    let mut i: usize = 0;
    while i < rows.len()
        invariant
            i <= rows.len(),
            wanted == alone(rows.deep_view()),
            out.deep_view() == wanted.take(i as int),
        decreases rows.len() - i,
    {
        let target = UpdateTarget {
            pk: rows[i].0.duplicate(),
            row: rows[i].1.duplicate(),
            joined: None,
        };
        proof {
            assert(rows.deep_view()[i as int] == (
                rows@[i as int].0.deep_view(),
                rows@[i as int].1.deep_view(),
            ));
            assert(target.joined.deep_view() == None::<StateModel>);
        }
        push_back(&mut out, target);
        proof {
            assert(out.deep_view() =~= wanted.take(i + 1));
        }
        i += 1;
    }
    proof {
        assert(wanted.take(i as int) =~= wanted);
    }
    out
}

/// The rows that an UPDATE changes.
fn collect_update_rows<TX: RowStore>(
    tx: &TX,
    table: &TableSchema,
    table_name: &str,
    joins: &Vec<JoinClause>,
    from_tables: &Vec<String>,
    predicate: Option<&QualifiedPredicate>,
) -> (r: Result<Vec<UpdateTarget>, EngineError>)
    ensures
        error::settles(
            r,
            tx.sound(),
            update_targets(
                tx.trees(),
                table.deep_view(),
                table_name@,
                joins.deep_view(),
                from_tables.deep_view(),
                predicate.deep_view(),
            ),
        ),
{
    assert(joins.len() == joins.deep_view().len());
    assert(from_tables.len() == from_tables.deep_view().len());
    if joins.len() == 0 && from_tables.len() == 0 {
        match collect_table_rows(tx, table_name, predicate) {
            Ok(rows) => Ok(without_joins(&rows)),
            Err(e) => Err(e),
        }
    } else {
        collect_join_update_rows(tx, table, table_name, joins, from_tables, predicate)
    }
}

/// Replaces a row by its new form, and gives its new primary key.
fn replace_row<'s, S: EngineStore>(
    tx: &mut NamedTreeEngineTransaction<'s, S>,
    table: &TableSchema,
    table_name: &str,
    indexes: &Vec<IndexSchema>,
    old_pk: &PrimaryKey,
    old_row: &EngineRow,
    new_row: &EngineRow,
    Ghost(plan): Ghost<UpdatePlan>,
) -> (r: Result<PrimaryKey, EngineError>)
    requires
        plan.schema == table.deep_view(),
        plan.table == table_name@,
        plan.indexes == indexes.deep_view(),
    ensures
        final(tx).sound() == old(tx).sound(),
        final(tx).base() == old(tx).base(),
        store::settles_with(
            r,
            old(tx).sound(),
            final(tx).trees(),
            row_replaced(
                plan,
                old(tx).trees(),
                old_pk.deep_view(),
                old_row.deep_view(),
                new_row.deep_view(),
            ),
        ),
{
    match table.validate_row(new_row) {
        Ok(()) => {},
        Err(e) => {
            return Err(e);
        },
    }
    let new_pk = match table.primary_key(new_row) {
        Ok(new_pk) => new_pk,
        Err(e) => {
            return Err(e);
        },
    };
    if !new_pk.same(old_pk) {
        match tx.get_table_row(table_name, &new_pk) {
            Ok(None) => {},
            Ok(Some(_)) => {
                return Err(EngineError::DuplicatePrimaryKey(new_pk));
            },
            Err(e) => {
                return Err(e);
            },
        }
    }
    match delete_row(tx, table_name, old_pk, old_row, indexes) {
        Ok(()) => {},
        Err(e) => {
            return Err(e);
        },
    }
    match IndexMaintainer::ensure_unique(tx, indexes, new_row, &new_pk) {
        Ok(()) => {},
        Err(e) => {
            return Err(e);
        },
    }
    match add_row(tx, table_name, &new_pk, new_row, indexes) {
        Ok(()) => Ok(new_pk),
        Err(e) => Err(e),
    }
}

/// Deletes rows one after the other.
fn delete_rows<'s, S: EngineStore>(
    tx: &mut NamedTreeEngineTransaction<'s, S>,
    rows: &Vec<(PrimaryKey, EngineRow)>,
    table_name: &str,
    indexes: &Vec<IndexSchema>,
    returning: &Option<Vec<QualifiedColumn>>,
) -> (r: Result<(Vec<EngineRow>, Vec<ChangeEvent>), EngineError>)
    ensures
        final(tx).sound() == old(tx).sound(),
        final(tx).base() == old(tx).base(),
        ({
            let exact = deleting(
                rows.deep_view(),
                old(tx).trees(),
                table_name@,
                indexes.deep_view(),
                returning.deep_view(),
                Seq::empty(),
                Seq::empty(),
            );
            (error::is_fault(r) && !old(tx).sound()) || (final(tx).trees() == exact.trees && match r {
                Ok((out, events)) => exact.result == Ok::<Seq<RowModel>, ErrorModel>(
                    out.deep_view(),
                ) && events.deep_view() == exact.events,
                Err(e) => exact.result == Err::<Seq<RowModel>, ErrorModel>(e.deep_view())
                    && exact.events == Seq::<EventModel>::empty(),
            })
        }),
{
    let ghost all = rows.deep_view();
    let ghost exact = deleting(
        all,
        tx.trees(),
        table_name@,
        indexes.deep_view(),
        returning.deep_view(),
        Seq::empty(),
        Seq::empty(),
    );
    let mut out: Vec<EngineRow> = no_items();
    let mut events: Vec<ChangeEvent> = no_items();
    let mut i: usize = 0;
    proof {
        assert(all.skip(0) =~= all);
    }
    while i < rows.len()
        invariant
            i <= rows.len(),
            all == rows.deep_view(),
            tx.sound() == old(tx).sound(),
            tx.base() == old(tx).base(),
            exact == deleting(
                rows.deep_view(),
                old(tx).trees(),
                table_name@,
                indexes.deep_view(),
                returning.deep_view(),
                Seq::empty(),
                Seq::empty(),
            ),
            exact == deleting(
                all.skip(i as int),
                tx.trees(),
                table_name@,
                indexes.deep_view(),
                returning.deep_view(),
                out.deep_view(),
                events.deep_view(),
            ),
        decreases rows.len() - i,
    {
        let pk = &rows[i].0;
        let row = &rows[i].1;
        proof {
            assert(all.skip(i as int)[0] == (pk.deep_view(), row.deep_view()));
            assert(all.skip(i as int).drop_first() =~= all.skip(i + 1));
        }
        match give_back(table_name, row, returning, &mut out) {
            Ok(()) => {},
            Err(e) => {
                return Err(e);
            },
        }
        match delete_row(tx, table_name, pk, row, indexes) {
            Ok(()) => {},
            Err(e) => {
                return Err(e);
            },
        }
        push_back(
            &mut events,
            ChangeEvent::RowDeleted {
                table: table_name.to_string(),
                pk: pk.duplicate(),
                row: row.duplicate(),
            },
        );
        i += 1;
    }
    Ok((out, events))
}

/// Updates rows one after the other.
fn update_rows<'s, S: EngineStore, F: Fn(FloatOp) -> u64>(
    tx: &mut NamedTreeEngineTransaction<'s, S>,
    rows: &Vec<UpdateTarget>,
    table: &TableSchema,
    table_name: &str,
    indexes: &Vec<IndexSchema>,
    assignments: &Vec<UpdateAssignment>,
    returning: &Option<Vec<QualifiedColumn>>,
    float: &F,
    Ghost(plan): Ghost<UpdatePlan>,
) -> (r: Result<(Vec<EngineRow>, Vec<ChangeEvent>), EngineError>)
    requires
        float::is_float_unit(*float),
        plan == (UpdatePlan {
            schema: table.deep_view(),
            table: table_name@,
            indexes: indexes.deep_view(),
            assignments: assignments.deep_view(),
            returning: returning.deep_view(),
        }),
    ensures
        final(tx).sound() == old(tx).sound(),
        final(tx).base() == old(tx).base(),
        ({
            let exact = updating(
                *float,
                plan,
                rows.deep_view(),
                old(tx).trees(),
                Seq::empty(),
                Seq::empty(),
            );
            (error::is_fault(r) && !old(tx).sound()) || (final(tx).trees() == exact.trees && match r {
                Ok((out, events)) => exact.result == Ok::<Seq<RowModel>, ErrorModel>(
                    out.deep_view(),
                ) && events.deep_view() == exact.events,
                Err(e) => exact.result == Err::<Seq<RowModel>, ErrorModel>(e.deep_view())
                    && exact.events == Seq::<EventModel>::empty(),
            })
        }),
{
    let ghost all = rows.deep_view();
    let ghost exact = updating(*float, plan, all, tx.trees(), Seq::empty(), Seq::empty());
    let mut out: Vec<EngineRow> = no_items();
    let mut events: Vec<ChangeEvent> = no_items();
    let mut i: usize = 0;
    proof {
        assert(all.skip(0) =~= all);
    }
    while i < rows.len()
        invariant
            i <= rows.len(),
            all == rows.deep_view(),
            float::is_float_unit(*float),
            plan == (UpdatePlan {
                schema: table.deep_view(),
                table: table_name@,
                indexes: indexes.deep_view(),
                assignments: assignments.deep_view(),
                returning: returning.deep_view(),
            }),
            tx.sound() == old(tx).sound(),
            tx.base() == old(tx).base(),
            exact == updating(
                *float,
                plan,
                rows.deep_view(),
                old(tx).trees(),
                Seq::empty(),
                Seq::empty(),
            ),
            exact == updating(
                *float,
                plan,
                all.skip(i as int),
                tx.trees(),
                out.deep_view(),
                events.deep_view(),
            ),
        decreases rows.len() - i,
    {
        let target = &rows[i];
        proof {
            assert(all.skip(i as int)[0] == target.deep_view());
            assert(all.skip(i as int).drop_first() =~= all.skip(i + 1));
        }
        let joined: Option<&JoinedRowState> = match &target.joined {
            Some(state) => Some(state),
            None => None,
        };
        assert(joined.deep_view() == target.joined.deep_view());
        let new_row = match apply_assignments(
            &target.row,
            assignments,
            table_name,
            joined,
            float,
        ) {
            Ok(new_row) => new_row,
            Err(e) => {
                return Err(e);
            },
        };
        let pk = match replace_row(
            tx,
            table,
            table_name,
            indexes,
            &target.pk,
            &target.row,
            &new_row,
            Ghost(plan),
        ) {
            Ok(pk) => pk,
            Err(e) => {
                return Err(e);
            },
        };
        match give_back(table_name, &new_row, returning, &mut out) {
            Ok(()) => {},
            Err(e) => {
                return Err(e);
            },
        }
        push_back(
            &mut events,
            ChangeEvent::RowUpdated {
                table: table_name.to_string(),
                pk,
                old_row: target.row.duplicate(),
                new_row,
            },
        );
        i += 1;
    }
    Ok((out, events))
}

/// A write transaction: the store and the catalog it works on, the changes that
/// have not been made yet, and what listeners will hear once they are.
pub struct EngineWriteTxn<'db, S> {
    pub store: &'db mut S,
    pub catalog: &'db EngineCatalog,
    pub lifecycle: TransactionLifecycle<Changes>,
    pub pending_events: Vec<ChangeEvent>,
}

/// The trees as a transaction sees them.
pub open spec fn seen_in<S: NamedTreeProvider>(store: S, lifecycle: TransactionLifecycle<Changes>) -> Trees {
    match transaction_lifecycle::held(lifecycle) {
        Some(changes) => store::seen(store, changes),
        None => store.trees(),
    }
}

/// A transaction has been committed or rolled back.
pub open spec fn has_ended(lifecycle: TransactionLifecycle<Changes>) -> bool {
    match transaction_lifecycle::stands(lifecycle) {
        TransactionState::Committed | TransactionState::RolledBack => true,
        _ => false,
    }
}

/// What a transaction that has ended answers to an insert.
pub open spec fn late_insert(c: CatalogModel, table: Seq<char>, row: RowModel) -> ErrorModel {
    match catalog::table_of(c, table) {
        Err(e) => e,
        Ok(t) => match schema::row_check(t, row) {
            Err(e) => e,
            Ok(_) => match schema::primary_key_of(t, row) {
                Err(e) => e,
                Ok(_) => transaction_lifecycle::finalized(),
            },
        },
    }
}

/// What a transaction that has ended answers to a delete or an update.
pub open spec fn late_change(c: CatalogModel, table: Seq<char>) -> ErrorModel {
    match catalog::table_of(c, table) {
        Err(e) => e,
        Ok(_) => transaction_lifecycle::finalized(),
    }
}

/// What inserting a row and giving it back gives.
pub open spec fn inserted_returning(
    c: CatalogModel,
    trees: Trees,
    table: Seq<char>,
    row: RowModel,
    returning: Option<Seq<ColumnRef>>,
) -> Written<Seq<RowModel>> {
    let written = inserted(c, trees, table, row);
    Written {
        result: match written.result {
            Err(e) => Err(e),
            Ok(_) => given_back(table, row, returning, Seq::empty()),
        },
        trees: written.trees,
        events: written.events,
    }
}

impl<'db, S: EngineStore> EngineWriteTxn<'db, S> {
    /// The trees as the transaction sees them.
    pub open spec fn contents(&self) -> Trees {
        seen_in(*self.store, self.lifecycle)
    }

    /// The transaction has been committed or rolled back.
    pub open spec fn ended(&self) -> bool {
        has_ended(self.lifecycle)
    }

    /// A transaction that has not begun.
    pub fn new(store: &'db mut S, catalog: &'db EngineCatalog) -> (r: EngineWriteTxn<'db, S>)
        ensures
            *r.store == *old(store),
            *final(r.store) == *final(store),
            r.catalog == catalog,
            r.lifecycle is Uninitialized,
            r.pending_events.deep_view() == Seq::<EventModel>::empty(),
    {
        EngineWriteTxn {
            store,
            catalog,
            lifecycle: TransactionLifecycle::new(),
            pending_events: no_items(),
        }
    }

    /// Takes the changes out, to work with them.
    fn begin(&mut self) -> (r: Result<Changes, EngineError>)
        ensures
            final(self).store == old(self).store,
            final(self).catalog == old(self).catalog,
            final(self).pending_events == old(self).pending_events,
            match r {
                Ok(changes) => !old(self).ended() && store::seen(*old(self).store, changes) == old(
                    self
                ).contents(),
                Err(e) => old(self).ended() && e.deep_view() == transaction_lifecycle::finalized()
                    && final(self).lifecycle == old(self).lifecycle,
            },
    {
        let begin = || -> (r: Result<Changes, EngineError>)
            ensures
                r matches Ok(changes) && changes.deep_view() == Map::<
                    (Seq<char>, KeyModel),
                    Option<RowModel>,
                >::empty(),
            { Ok(TransactionPatch::new()) };
        match self.lifecycle.transaction(begin) {
            Ok(held) => {
                let mut changes: Changes = TransactionPatch::new();
                std::mem::swap(&mut changes, held);
                proof {
                    patch::law_empty_patch(old(self).store.trees());
                }
                Ok(changes)
            },
            Err(e) => Err(e),
        }
    }

    /// Puts a row into a table and its indexes.
    pub fn insert(&mut self, table_name: &str, row: EngineRow) -> (r: Result<(), EngineError>)
        ensures
            final(self).store == old(self).store,
            final(self).catalog == old(self).catalog,
            final(self).ended() == old(self).ended(),
            old(self).ended() ==> plain::outcome(r) == Err::<(), ErrorModel>(late_insert(
                old(self).catalog.deep_view(),
                table_name@,
                row.deep_view(),
            )) && final(self).contents() == old(self).contents()
                && final(self).pending_events.deep_view() == old(self).pending_events.deep_view(),
            !old(self).ended() ==> writes(
                r,
                (*old(self).store).sound(),
                final(self).contents(),
                final(self).pending_events.deep_view(),
                old(self).pending_events.deep_view(),
                inserted(
                    old(self).catalog.deep_view(),
                    old(self).contents(),
                    table_name@,
                    row.deep_view(),
                ),
            ),
    {
        let table = match self.catalog.table(table_name) {
            Ok(table) => table,
            Err(e) => {
                return Err(e);
            },
        };
        match table.validate_row(&row) {
            Ok(()) => {},
            Err(e) => {
                return Err(e);
            },
        }
        let pk = match table.primary_key(&row) {
            Ok(pk) => pk,
            Err(e) => {
                return Err(e);
            },
        };
        let indexes = self.catalog.indexes_for_table(table_name);
        let changes = match self.begin() {
            Ok(changes) => changes,
            Err(e) => {
                return Err(e);
            },
        };
        let mut tx = NamedTreeEngineTransaction::new(&*self.store, changes);
        let done = insert_new_row(&mut tx, table_name, &pk, &row, &indexes);
        let changes = tx.into_changes();
        self.lifecycle = TransactionLifecycle::Active(changes);
        match done {
            Ok(()) => {
                push_back(
                    &mut self.pending_events,
                    ChangeEvent::RowInserted { table: table_name.to_string(), pk, row },
                );
                proof {
                    let before = old(self).pending_events.deep_view();
                    let event = EventModel::RowInserted {
                        table: table_name@,
                        pk: pk.deep_view(),
                        row: row.deep_view(),
                    };
                    assert(before.push(event) =~= before + seq![event]);
                }
                Ok(())
            },
            Err(e) => Err(e),
        }
    }

    /// Puts a row into a table and gives it back, if it is asked for.
    pub fn insert_returning(
        &mut self,
        table_name: &str,
        row: EngineRow,
        returning: &Option<Vec<QualifiedColumn>>,
    ) -> (r: Result<Vec<EngineRow>, EngineError>)
        ensures
            final(self).store == old(self).store,
            final(self).catalog == old(self).catalog,
            final(self).ended() == old(self).ended(),
            old(self).ended() ==> plain::outcome(r) == Err::<Seq<RowModel>, ErrorModel>(late_insert(
                old(self).catalog.deep_view(),
                table_name@,
                row.deep_view(),
            )) && final(self).contents() == old(self).contents()
                && final(self).pending_events.deep_view() == old(self).pending_events.deep_view(),
            !old(self).ended() ==> writes(
                r,
                (*old(self).store).sound(),
                final(self).contents(),
                final(self).pending_events.deep_view(),
                old(self).pending_events.deep_view(),
                inserted_returning(
                    old(self).catalog.deep_view(),
                    old(self).contents(),
                    table_name@,
                    row.deep_view(),
                    returning.deep_view(),
                ),
            ),
    {
        let inserted_row = row.duplicate();
        match self.insert(table_name, row) {
            Ok(()) => {},
            Err(e) => {
                return Err(e);
            },
        }
        let mut out: Vec<EngineRow> = no_items();
        match give_back(table_name, &inserted_row, returning, &mut out) {
            Ok(()) => Ok(out),
            Err(e) => Err(e),
        }
    }

    /// Deletes the rows of a table that meet a condition.
    pub fn delete(
        &mut self,
        table_name: &str,
        predicate: Option<&QualifiedPredicate>,
        returning: &Option<Vec<QualifiedColumn>>,
    ) -> (r: Result<Vec<EngineRow>, EngineError>)
        ensures
            final(self).store == old(self).store,
            final(self).catalog == old(self).catalog,
            final(self).ended() == old(self).ended(),
            old(self).ended() ==> plain::outcome(r) == Err::<Seq<RowModel>, ErrorModel>(late_change(
                old(self).catalog.deep_view(),
                table_name@,
            )) && final(self).contents() == old(self).contents()
                && final(self).pending_events.deep_view() == old(self).pending_events.deep_view(),
            !old(self).ended() ==> writes(
                r,
                (*old(self).store).sound(),
                final(self).contents(),
                final(self).pending_events.deep_view(),
                old(self).pending_events.deep_view(),
                deleted(
                    old(self).catalog.deep_view(),
                    old(self).contents(),
                    table_name@,
                    predicate.deep_view(),
                    returning.deep_view(),
                ),
            ),
    {
        match self.catalog.table(table_name) {
            Ok(_) => {},
            Err(e) => {
                return Err(e);
            },
        }
        let indexes = self.catalog.indexes_for_table(table_name);
        let changes = match self.begin() {
            Ok(changes) => changes,
            Err(e) => {
                return Err(e);
            },
        };
        let mut tx = NamedTreeEngineTransaction::new(&*self.store, changes);
        let done = match collect_table_rows(&tx, table_name, predicate) {
            Ok(rows) => delete_rows(&mut tx, &rows, table_name, &indexes, returning),
            Err(e) => Err(e),
        };
        let changes = tx.into_changes();
        self.lifecycle = TransactionLifecycle::Active(changes);
        match done {
            Ok((rows, events)) => {
                append_events(&mut self.pending_events, events);
                Ok(rows)
            },
            Err(e) => Err(e),
        }
    }

    /// Updates the rows of a table that meet a condition.
    pub fn update<F: Fn(FloatOp) -> u64>(
        &mut self,
        table_name: &str,
        assignments: &Vec<UpdateAssignment>,
        predicate: Option<&QualifiedPredicate>,
        joins: &Vec<JoinClause>,
        from_tables: &Vec<String>,
        returning: &Option<Vec<QualifiedColumn>>,
        float: &F,
    ) -> (r: Result<Vec<EngineRow>, EngineError>)
        requires
            float::is_float_unit(*float),
        ensures
            final(self).store == old(self).store,
            final(self).catalog == old(self).catalog,
            final(self).ended() == old(self).ended(),
            old(self).ended() ==> final(self).contents() == old(self).contents()
                && final(self).pending_events.deep_view() == old(self).pending_events.deep_view()
                && plain::outcome(r) == (if catalog::table_of(
                old(self).catalog.deep_view(),
                table_name@,
            ) is Ok && assignments.deep_view().len() == 0 {
                Ok(Seq::<RowModel>::empty())
            } else {
                Err(late_change(old(self).catalog.deep_view(), table_name@))
            }),
            !old(self).ended() ==> writes(
                r,
                (*old(self).store).sound(),
                final(self).contents(),
                final(self).pending_events.deep_view(),
                old(self).pending_events.deep_view(),
                updated(
                    *float,
                    old(self).catalog.deep_view(),
                    old(self).contents(),
                    table_name@,
                    assignments.deep_view(),
                    predicate.deep_view(),
                    joins.deep_view(),
                    from_tables.deep_view(),
                    returning.deep_view(),
                ),
            ),
    {
        let table = match self.catalog.table(table_name) {
            Ok(table) => table.duplicate(),
            Err(e) => {
                return Err(e);
            },
        };
        assert(assignments.len() == assignments.deep_view().len());
        if assignments.len() == 0 {
            return Ok(no_items());
        }
        let indexes = self.catalog.indexes_for_table(table_name);
        let changes = match self.begin() {
            Ok(changes) => changes,
            Err(e) => {
                return Err(e);
            },
        };
        let ghost plan = UpdatePlan {
            schema: table.deep_view(),
            table: table_name@,
            indexes: indexes.deep_view(),
            assignments: assignments.deep_view(),
            returning: returning.deep_view(),
        };
        let mut tx = NamedTreeEngineTransaction::new(&*self.store, changes);
        let done = match collect_update_rows(
            &tx,
            &table,
            table_name,
            joins,
            from_tables,
            predicate,
        ) {
            Ok(rows) => update_rows(
                &mut tx,
                &rows,
                &table,
                table_name,
                &indexes,
                assignments,
                returning,
                float,
                Ghost(plan),
            ),
            Err(e) => Err(e),
        };
        let changes = tx.into_changes();
        self.lifecycle = TransactionLifecycle::Active(changes);
        match done {
            Ok((rows, events)) => {
                append_events(&mut self.pending_events, events);
                Ok(rows)
            },
            Err(e) => Err(e),
        }
    }

    /// Makes the changes, and gives what listeners are to hear.
    pub fn commit(self) -> (r: Result<Vec<ChangeEvent>, EngineError>)
        ensures
            (*final(self.store)).sound() == (*old(self.store)).sound(),
            match r {
                Ok(events) => (*final(self.store)).trees() == seen_in(*old(self.store), self.lifecycle) && events.deep_view()
                    == self.pending_events.deep_view(),
                Err(_) => error::is_fault(r) && !(*old(self.store)).sound() && (*final(
                    self.store
                )).trees() == (*old(self.store)).trees(),
            },
    {
        let mut txn = self;
        match txn.lifecycle.take_for_commit() {
            Some(changes) => match commit(txn.store, changes) {
                Ok(()) => Ok(txn.pending_events),
                Err(e) => Err(e),
            },
            None => Ok(txn.pending_events),
        }
    }

    /// Forgets the changes.
    pub fn rollback(self) -> (r: Result<(), EngineError>)
        ensures
            r is Ok,
            *final(self.store) == *old(self.store),
    {
        let mut txn = self;
        let _ = txn.lifecycle.take_for_rollback();
        Ok(())
    }
}

/// Adds events to those that are pending.
pub fn append_events(pending: &mut Vec<ChangeEvent>, more: Vec<ChangeEvent>)
    ensures
        final(pending).deep_view() == old(pending).deep_view() + more.deep_view(),
{
    let ghost before = pending.deep_view();
    let ghost added = more.deep_view();
    let mut more = more;
    pending.append(&mut more);
    proof {
        assert(pending.deep_view() =~= before + added);
    }
}

/// Puts a row whose key is new into a table and its indexes.
fn insert_new_row<'s, S: EngineStore>(
    tx: &mut NamedTreeEngineTransaction<'s, S>,
    table_name: &str,
    pk: &PrimaryKey,
    row: &EngineRow,
    indexes: &Vec<IndexSchema>,
) -> (r: Result<(), EngineError>)
    ensures
        final(tx).sound() == old(tx).sound(),
        final(tx).base() == old(tx).base(),
        store::settles_with(
            r,
            old(tx).sound(),
            final(tx).trees(),
            if store::row_at(old(tx).trees(), table_name@, pk.deep_view()) is Some {
                (Err(ErrorModel::DuplicatePrimaryKey(pk.deep_view())), old(tx).trees())
            } else {
                match store_helpers::unique_check(
                    old(tx).trees(),
                    indexes.deep_view(),
                    row.deep_view(),
                    pk.deep_view(),
                ) {
                    Err(e) => (Err(e), old(tx).trees()),
                    Ok(_) => row_added(
                        old(tx).trees(),
                        table_name@,
                        pk.deep_view(),
                        row.deep_view(),
                        indexes.deep_view(),
                    ),
                }
            },
        ),
{
    match tx.get_table_row(table_name, pk) {
        Ok(None) => {},
        Ok(Some(_)) => {
            return Err(EngineError::DuplicatePrimaryKey(pk.duplicate()));
        },
        Err(e) => {
            return Err(e);
        },
    }
    match IndexMaintainer::ensure_unique(tx, indexes, row, pk) {
        Ok(()) => {},
        Err(e) => {
            return Err(e);
        },
    }
    add_row(tx, table_name, pk, row, indexes)
}

} // verus!
