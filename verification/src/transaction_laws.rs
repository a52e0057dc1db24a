//! What a transaction sees, and what becomes of one that has ended.
use vstd::prelude::*;
use crate::access_control::ScopeModel;
use crate::backend_contract::{self, BackendCapability, TransactionContract};
use crate::catalog::CatalogModel;
use crate::engine::{self, EngineDatabase};
use crate::error::{EngineError, ErrorModel};
use crate::executor::{self, Written};
use crate::facade::{self, Database, DatabaseError, FacadeStore, Transaction};
use crate::float::FloatOp;
use crate::patch;
use crate::planner;
use crate::query::{ColumnRef, EngineResult, QueryModel};
use crate::sql::ir::StatementModel;
use crate::store::{Changes, EngineStore, KeyModel, NamedTreeProvider, RowModel, Trees};
use crate::subscriptions::SubscriptionId;
use crate::table_laws;
use crate::transaction_lifecycle::{self, TransactionLifecycle, TransactionState};
use crate::update_expr;

verus! {

/// Law: a transaction is there while it is active, and has ended once it was
/// committed or rolled back.
pub proof fn law_lifecycle(t: TransactionLifecycle<Changes>)
    ensures
        match t {
            TransactionLifecycle::Uninitialized => transaction_lifecycle::stands(t)
                == TransactionState::Uninitialized && transaction_lifecycle::held(t) is None
                && !executor::has_ended(t),
            TransactionLifecycle::Active(changes) => transaction_lifecycle::stands(t)
                == TransactionState::Active && transaction_lifecycle::held(t) == Some(changes)
                && !executor::has_ended(t),
            TransactionLifecycle::Committed => transaction_lifecycle::stands(t)
                == TransactionState::Committed && transaction_lifecycle::held(t) is None
                && executor::has_ended(t),
            TransactionLifecycle::RolledBack => transaction_lifecycle::stands(t)
                == TransactionState::RolledBack && transaction_lifecycle::held(t) is None
                && executor::has_ended(t),
        },
{
}

/// Law: an active transaction sees what it wrote last at each place, what it took
/// out it does not see, and all else as it is in the store. One that is not
/// active sees the store.
pub proof fn law_transaction_sees<S: NamedTreeProvider>(
    store: S,
    t: TransactionLifecycle<Changes>,
    place: (Seq<char>, KeyModel),
)
    ensures
        ({
            let seen = patch::lookup(executor::seen_in(store, t), place);
            match t {
                TransactionLifecycle::Active(changes) => seen == if changes.deep_view().contains_key(
                    place,
                ) {
                    changes.deep_view()[place]
                } else {
                    patch::lookup(store.trees(), place)
                },
                _ => seen == patch::lookup(store.trees(), place),
            }
        }),
{
}

/// Law: a transaction that has ended takes no writes: on a table that is not
/// there, and with a row that does not fit, it says so, and else that it has
/// ended.
pub proof fn law_ended_transaction_refuses(c: CatalogModel, table: Seq<char>, row: RowModel)
    ensures
        !c.tables.contains_key(table) ==> executor::late_change(c, table)
            == ErrorModel::TableNotFound(table) && executor::late_insert(c, table, row)
            == ErrorModel::TableNotFound(table),
        c.tables.contains_key(table) ==> executor::late_change(c, table)
            == ErrorModel::SchemaMismatch("transaction already finalized"@),
        c.tables.contains_key(table) && table_laws::is_row_of(c.tables[table], row) && (exists|
            key: KeyModel,
        | #[trigger] table_laws::is_key_of(c.tables[table], row, key)) ==> executor::late_insert(
            c,
            table,
            row,
        ) == ErrorModel::SchemaMismatch("transaction already finalized"@),
{
    if c.tables.contains_key(table) {
        table_laws::law_row_fits(c.tables[table], row);
        table_laws::law_primary_key(c.tables[table], row);
    }
}

/// Law: a write in a transaction gives what the same query gives that is run on
/// its own, and where it succeeds changes the same; a selection is no write.
pub proof fn law_write_in_transaction<F: Fn(FloatOp) -> u64>(
    f: F,
    c: CatalogModel,
    trees: Trees,
    q: QueryModel,
)
    ensures
        ({
            let alone = planner::run_of(f, c, q, trees);
            match facade::write_of(f, c, trees, q) {
                None => q is Select,
                Some(w) => !(q is Select) && w.result == alone.result && (w.result is Ok ==> w.trees
                    == alone.trees && w.events == alone.events),
            }
        }),
{
}

/// Law: an insert that gives its row back puts it in as any other does, and gives
/// the columns asked for of that row alone; it gives no rows where none are asked
/// for.
pub proof fn law_insert_gives_back(
    c: CatalogModel,
    trees: Trees,
    table: Seq<char>,
    row: RowModel,
    returning: Option<Seq<ColumnRef>>,
)
    ensures
        ({
            let plain_insert = executor::inserted(c, trees, table, row);
            let insert = executor::inserted_returning(c, trees, table, row, returning);
            &&& insert.trees == plain_insert.trees
            &&& insert.events == plain_insert.events
            &&& plain_insert.result is Err ==> insert.result is Err
            &&& plain_insert.result is Ok ==> match returning {
                None => insert.result == Ok::<Seq<RowModel>, ErrorModel>(Seq::empty()),
                Some(columns) => match update_expr::returned_row(table, row, columns) {
                    Ok(values) => insert.result == Ok::<Seq<RowModel>, ErrorModel>(seq![values]),
                    Err(_) => insert.result is Err,
                },
            }
        }),
{
    if let Some(columns) = returning {
        if let Ok(values) = update_expr::returned_row(table, row, columns) {
            assert(Seq::<RowModel>::empty().push(values) =~= seq![values]);
        }
    }
}

/// Law: a statement that is no selection cannot be followed: it is refused, and
/// the database stays as it is.
pub proof fn law_selections_alone_are_followed<S: FacadeStore, F: Fn(FloatOp) -> u64, P>(
    r: Result<(SubscriptionId, EngineResult), DatabaseError>,
    before: Database<S, F, P>,
    after: Database<S, F, P>,
    statement: StatementModel,
    scope: ScopeModel,
)
    requires
        facade::statement_subscribed(r, before, after, statement, scope),
    ensures
        !(statement matches StatementModel::Query(q) && q is Select) ==> r is Err && after
            == before,
{
}

/// Law: over a sound store, who follows a query that goes through gets a number
/// of its own and its first results, which are then the last ones that it was
/// told; the subscriptions from before stay. A query that fails is not followed.
pub proof fn law_query_is_followed<S: EngineStore, F: Fn(FloatOp) -> u64>(
    r: Result<(SubscriptionId, EngineResult), EngineError>,
    before: EngineDatabase<S, F>,
    after: EngineDatabase<S, F>,
    q: QueryModel,
    scope: ScopeModel,
)
    requires
        engine::follows(r, before, after, q, scope),
        before.sound(),
    ensures
        ({
            let ran = engine::scoped_run(
                before.kernel.float,
                before.known(),
                q,
                scope,
                before.trees(),
            );
            let old_list = before.subscriptions.deep_view().subscriptions;
            let new_list = after.subscriptions.deep_view().subscriptions;
            &&& match (r, ran.result) {
                (Ok((id, results)), Ok(rows)) => {
                    &&& results.deep_view() == rows
                    &&& id.deep_view() == before.subscriptions.deep_view().next_id
                    &&& after.subscriptions.deep_view().next_id > id.deep_view()
                    &&& new_list.len() == old_list.len() + 1
                    &&& new_list.last().id == id.deep_view()
                    &&& new_list.last().query == q
                    &&& new_list.last().scope == scope
                    &&& new_list.last().last_results == Some(rows)
                    &&& forall|k: int|
                        0 <= k < old_list.len() ==> #[trigger] new_list[k] == old_list[k]
                },
                (Err(e), Err(x)) => e.deep_view() == x && new_list == old_list,
                _ => false,
            }
            &&& after.trees() == ran.trees
            &&& after.unheard() == before.unheard() + ran.events
        }),
{
}

/// Law: over a sound store a write in a transaction answers as it turns out, and
/// the transaction then sees what came of it; its changes are to be told after
/// those from before.
pub proof fn law_write_answers<'db, S: FacadeStore, F: Fn(FloatOp) -> u64>(
    r: Result<EngineResult, DatabaseError>,
    before: Transaction<'db, S, F>,
    after: Transaction<'db, S, F>,
    exact: Written<Seq<RowModel>>,
)
    requires
        facade::wrote(r, before, after, exact),
        (*before.inner.inner.store).sound(),
    ensures
        match (r, exact.result) {
            (Ok(rows), Ok(given)) => rows.deep_view() == given,
            (Err(e), Err(x)) => e.deep_view() == facade::in_words(x),
            _ => false,
        },
        after.inner.inner.contents() == exact.trees,
        after.inner.inner.pending_events.deep_view()
            == before.inner.inner.pending_events.deep_view() + exact.events,
{
}

/// Law: a write whose rows are not asked for changes the same, and succeeds where
/// it would.
pub proof fn law_rows_not_asked_for(written: Written<Seq<RowModel>>)
    ensures
        ({
            let quiet = engine::rows_dropped(written);
            &&& quiet.trees == written.trees
            &&& quiet.events == written.events
            &&& match (quiet.result, written.result) {
                (Ok(_), Ok(_)) => true,
                (Err(e), Err(x)) => e == x,
                _ => false,
            }
        }),
{
}

/// Law: a backend may not claim to write all trees as one and to write several
/// not as one; all else it may claim.
pub proof fn law_backend_promises(c: TransactionContract)
    ensures
        backend_contract::is_consistent(c) <==> !(c.atomicity
            == BackendCapability::MultiTreeAtomicity && !c.multi_tree_write_atomicity),
{
}

} // verus!
