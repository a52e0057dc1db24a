//! The database: tables, queries, transactions and subscriptions over a store.
use vstd::prelude::*;
use crate::access_control::{self, ScopeModel, SyncScope};
use crate::catalog::{self, CatalogModel};
use crate::change_event::{ChangeEvent, EventModel};
use crate::error::{self, EngineError, ErrorModel};
use crate::executor::{self, append_events, EngineWriteTxn, Written};
use crate::float::{self, FloatOp};
use crate::plain::{self, no_items, Plain};
use crate::planner::{self, EngineKernel};
use crate::query::{
    self, ColumnRef, EngineQuery, EngineResult, JoinClause, JoinModel, QualifiedColumn,
    QualifiedPredicate, QueryModel, UpdateAssignment,
};
use crate::schema::{IndexSchema, TableModel, TableSchema};
use crate::store::{EngineStore, NamedTreeProvider, RowModel, Trees};
use crate::store_helpers;
use crate::subscriptions::{
    self, RegistryModel, SubscriptionId, SubscriptionModel, SubscriptionRegistry,
};
use crate::value::EngineRow;

verus! {

/// A database over a store.
pub struct EngineDatabase<S, F> {
    pub kernel: EngineKernel<S, F>,
    pub subscriptions: SubscriptionRegistry,
}

/// The first of some tables that a scope does not reach.
pub open spec fn first_unreached(tables: Seq<Seq<char>>, scope: ScopeModel) -> Option<Seq<char>>
    decreases tables.len(),
{
    if tables.len() == 0 {
        None
    } else if !access_control::reaches(scope, tables[0]) {
        Some(tables[0])
    } else {
        first_unreached(tables.drop_first(), scope)
    }
}

/// The first of some tables that a scope does not reach.
fn find_unreached(tables: &Vec<String>, scope: &SyncScope) -> (r: Option<String>)
    ensures
        r.deep_view() == first_unreached(tables.deep_view(), scope.deep_view()),
{
    let ghost all = tables.deep_view();
    let mut i: usize = 0;
    proof {
        assert(all.skip(0) =~= all);
    }
    while i < tables.len()
        invariant
            i <= tables.len(),
            all == tables.deep_view(),
            first_unreached(all, scope.deep_view()) == first_unreached(
                all.skip(i as int),
                scope.deep_view(),
            ),
        decreases tables.len() - i,
    {
        proof {
            assert(all.skip(i as int)[0] == tables@[i as int]@);
            assert(all.skip(i as int).drop_first() =~= all.skip(i + 1));
        }
        if !scope.can_access(tables[i].as_str()) {
            return Some(tables[i].clone());
        }
        i += 1;
    }
    None
}

/// What a query gives a peer: the tables out of its scope are not there for it,
/// nor are the rows that do not meet the conditions of the scope.
pub open spec fn scoped_run<F: Fn(FloatOp) -> u64>(
    f: F,
    c: CatalogModel,
    q: QueryModel,
    scope: ScopeModel,
    trees: Trees,
) -> Written<Seq<RowModel>> {
    match first_unreached(query::query_tables(q), scope) {
        Some(table) => executor::refused(ErrorModel::TableNotFound(table), trees),
        None => planner::run_of(f, c, access_control::scoped_query(scope, q), trees),
    }
}

/// A query of a peer gave what it should, or the store below, which is not sound,
/// failed. A query that refers to a table out of scope does not reach the store.
pub open spec fn ran_scoped<F: Fn(FloatOp) -> u64>(
    f: F,
    c: CatalogModel,
    q: QueryModel,
    scope: ScopeModel,
    r: Result<EngineResult, EngineError>,
    sound: bool,
    before: (Trees, Seq<EventModel>),
    after: (Trees, Seq<EventModel>),
) -> bool {
    match first_unreached(query::query_tables(q), scope) {
        Some(table) => plain::outcome(r) == Err::<Seq<RowModel>, ErrorModel>(
            ErrorModel::TableNotFound(table),
        ) && after == before,
        None => planner::ran(
            f,
            c,
            access_control::scoped_query(scope, q),
            r,
            sound,
            before,
            after,
        ),
    }
}

/// What computing subscriptions again does: what subscribers are to be told,
/// the subscriptions after it, and the trees and changes that their queries
/// leave behind.
#[verifier::ext_equal]
pub struct Recomputed {
    pub told: Seq<(nat, Result<Seq<RowModel>, ErrorModel>)>,
    pub subscriptions: Seq<SubscriptionModel>,
    pub trees: Trees,
    pub events: Seq<EventModel>,
}

/// Computing subscriptions again, one after the other. A subscriber is told of
/// results that differ from the last ones, and of an error.
pub open spec fn recomputed<F: Fn(FloatOp) -> u64>(
    f: F,
    c: CatalogModel,
    ids: Seq<nat>,
    so_far: Recomputed,
) -> Recomputed
    decreases ids.len(),
{
    if ids.len() == 0 {
        so_far
    } else {
        let id = ids[0];
        let next = match subscriptions::found(so_far.subscriptions, id) {
            None => so_far,
            Some(s) => {
                let ran = scoped_run(f, c, s.query, s.scope, so_far.trees);
                let trees = ran.trees;
                let events = so_far.events + ran.events;
                match ran.result {
                    Ok(rows) => if s.last_results == Some(rows) {
                        Recomputed {
                            told: so_far.told,
                            subscriptions: so_far.subscriptions,
                            trees,
                            events,
                        }
                    } else {
                        Recomputed {
                            told: so_far.told.push((id, Ok(rows))),
                            subscriptions: subscriptions::results_updated(
                                so_far.subscriptions,
                                id,
                                rows,
                            ),
                            trees,
                            events,
                        }
                    },
                    Err(e) => Recomputed {
                        told: so_far.told.push((id, Err(e))),
                        subscriptions: so_far.subscriptions,
                        trees,
                        events,
                    },
                }
            },
        };
        recomputed(f, c, ids.drop_first(), next)
    }
}

/// Computing subscriptions again after changes, one change after the other.
pub open spec fn delivered<F: Fn(FloatOp) -> u64>(
    f: F,
    c: CatalogModel,
    changes: Seq<EventModel>,
    so_far: Recomputed,
) -> Recomputed
    decreases changes.len(),
{
    if changes.len() == 0 {
        so_far
    } else {
        let next = recomputed(
            f,
            c,
            subscriptions::numbers(
                store_helpers::kept(
                    so_far.subscriptions,
                    subscriptions::affected_by(changes[0]),
                ),
            ),
            Recomputed { told: Seq::empty(), ..so_far },
        );
        delivered(
            f,
            c,
            changes.drop_first(),
            Recomputed { told: so_far.told + next.told, ..next },
        )
    }
}

/// What subscribers are told, by their numbers.
pub open spec fn told_model(
    told: Seq<(SubscriptionId, Result<EngineResult, EngineError>)>,
) -> Seq<(nat, Result<Seq<RowModel>, ErrorModel>)> {
    told.map_values(
        |t: (SubscriptionId, Result<EngineResult, EngineError>)|
            (t.0.deep_view(), plain::outcome(t.1)),
    )
}

/// What subscribers are to be told, and the subscriptions after it.
#[verifier::ext_equal]
pub struct Tidings {
    pub told: Seq<(nat, Result<Seq<RowModel>, ErrorModel>)>,
    pub subscriptions: Seq<SubscriptionModel>,
}

/// A subscription's query was run again. Its subscriber is told of results that
/// differ from the last ones, which they replace, and of an error, which leaves
/// the last results.
pub open spec fn tidings_of(
    id: nat,
    outcome: Result<Seq<RowModel>, ErrorModel>,
    so_far: Tidings,
) -> Tidings {
    match subscriptions::found(so_far.subscriptions, id) {
        None => so_far,
        Some(s) => match outcome {
            Ok(rows) => if s.last_results == Some(rows) {
                so_far
            } else {
                Tidings {
                    told: so_far.told.push((id, Ok(rows))),
                    subscriptions: subscriptions::results_updated(
                        so_far.subscriptions,
                        id,
                        rows,
                    ),
                }
            },
            Err(e) => Tidings {
                told: so_far.told.push((id, Err(e))),
                subscriptions: so_far.subscriptions,
            },
        },
    }
}

/// The queries of subscriptions were run again, one after the other, whatever
/// came of the others.
pub open spec fn all_tidings(
    ids: Seq<nat>,
    outcomes: Seq<Result<Seq<RowModel>, ErrorModel>>,
    so_far: Tidings,
) -> Tidings
    decreases ids.len(),
{
    if ids.len() == 0 {
        so_far
    } else {
        tidings_of(
            ids.last(),
            outcomes.last(),
            all_tidings(ids.drop_last(), outcomes.drop_last(), so_far),
        )
    }
}

/// The numbers of the subscriptions that a change affects.
pub open spec fn affected_ids(list: Seq<SubscriptionModel>, e: EventModel) -> Seq<nat> {
    subscriptions::numbers(store_helpers::kept(list, subscriptions::affected_by(e)))
}

/// The queries of all subscriptions that a change affects were run again, each
/// once, and nobody else's: there are outcomes of which the tidings come.
pub open spec fn is_retold(e: EventModel, before: Tidings, after: Tidings) -> bool {
    exists|outcomes: Seq<Result<Seq<RowModel>, ErrorModel>>|
        outcomes.len() == affected_ids(before.subscriptions, e).len() && after
            == #[trigger] all_tidings(
            affected_ids(before.subscriptions, e),
            outcomes,
            before,
        )
}

/// Changes were delivered, one after the other.
pub open spec fn all_retold(changes: Seq<EventModel>, before: Tidings, after: Tidings) -> bool
    decreases changes.len(),
{
    if changes.len() == 0 {
        after == before
    } else {
        exists|next: Tidings|
            all_retold(changes.drop_last(), before, next) && #[trigger] is_retold(
                changes.last(),
                next,
                after,
            )
    }
}

/// A query is followed from now on, or refused.
pub open spec fn follows<S: EngineStore, F: Fn(FloatOp) -> u64>(
    r: Result<(SubscriptionId, EngineResult), EngineError>,
    old_db: EngineDatabase<S, F>,
    new_db: EngineDatabase<S, F>,
    q: QueryModel,
    scope: ScopeModel,
) -> bool {
    let before = old_db.subscriptions.deep_view();
    let after = new_db.subscriptions.deep_view();
    let exact = scoped_run(old_db.kernel.float, old_db.known(), q, scope, old_db.trees());
    (error::is_fault(r) && !old_db.sound() && first_unreached(query::query_tables(q), scope) is None
        && after == before && planner::continues(new_db.unheard(), old_db.unheard())
        && planner::broke_off(
        old_db.kernel.float,
        old_db.known(),
        access_control::scoped_query(scope, q),
        old_db.trees(),
        new_db.trees(),
        new_db.unheard().skip(old_db.unheard().len() as int),
    )) || (new_db.trees() == exact.trees
        && new_db.unheard() == old_db.unheard() + exact.events && match exact.result {
        Ok(rows) => (r matches Ok((id, results)) && id.deep_view() == before.next_id
            && results.deep_view() == rows) && after == (RegistryModel {
            subscriptions: before.subscriptions.push(
                SubscriptionModel { id: before.next_id, query: q, scope, last_results: Some(rows) },
            ),
            next_id: before.next_id + 1,
        }),
        Err(e) => (r matches Err(x) && x.deep_view() == e) && after == before,
    })
}

impl<S: EngineStore, F: Fn(FloatOp) -> u64> EngineDatabase<S, F> {
    /// Queries can be run, and subscriptions have numbers of their own.
    pub open spec fn ready(&self) -> bool {
        self.kernel.ready() && subscriptions::numbered(self.subscriptions.deep_view())
    }

    /// The trees of the store.
    pub open spec fn trees(&self) -> Trees {
        self.kernel.store.trees()
    }

    /// The store never fails.
    pub open spec fn sound(&self) -> bool {
        self.kernel.store.sound()
    }

    /// The tables and indexes that are known.
    pub open spec fn known(&self) -> CatalogModel {
        self.kernel.catalog.deep_view()
    }

    /// The changes that listeners have not heard of.
    pub open spec fn unheard(&self) -> Seq<EventModel> {
        self.kernel.events.deep_view()
    }

    /// A database whose store is taken to hold no tables.
    pub fn new(store: S, float: F) -> (r: EngineDatabase<S, F>)
        requires
            float::is_float_unit(float),
        ensures
            r.ready(),
            r.kernel.store == store,
            r.kernel.float == float,
            r.known() == catalog::empty_catalog(),
            r.unheard() == Seq::<EventModel>::empty(),
            r.subscriptions.deep_view() == subscriptions::no_subscriptions(),
    {
        EngineDatabase {
            kernel: EngineKernel::new(store, float),
            subscriptions: SubscriptionRegistry::new(),
        }
    }

    /// A database with the tables that its store keeps.
    pub fn open(store: S, float: F) -> (r: Result<EngineDatabase<S, F>, EngineError>)
        requires
            float::is_float_unit(float),
        ensures
            match r {
                Ok(db) => db.ready() && db.kernel.store == store && db.kernel.float == float
                    && catalog::loaded_catalog(store.trees()) == Ok::<CatalogModel, ErrorModel>(
                    db.known(),
                ) && db.unheard() == Seq::<EventModel>::empty()
                    && db.subscriptions.deep_view() == subscriptions::no_subscriptions(),
                Err(e) => (error::is_fault(r) && !store.sound()) || catalog::loaded_catalog(
                    store.trees(),
                ) == Err::<CatalogModel, ErrorModel>(e.deep_view()),
            },
    {
        match EngineKernel::open(store, float) {
            Ok(kernel) => Ok(EngineDatabase { kernel, subscriptions: SubscriptionRegistry::new() }),
            Err(e) => Err(e),
        }
    }

    /// The store.
    pub fn store(&self) -> (r: &S)
        ensures
            *r == self.kernel.store,
    {
        &self.kernel.store
    }

    /// Takes over the tables that the store keeps.
    pub fn reload_schema(&mut self) -> (r: Result<(), EngineError>)
        ensures
            final(self).kernel.store == old(self).kernel.store,
            final(self).kernel.float == old(self).kernel.float,
            final(self).kernel.events == old(self).kernel.events,
            final(self).subscriptions == old(self).subscriptions,
            match r {
                Ok(_) => catalog::loaded_catalog(old(self).trees()) == Ok::<
                    CatalogModel,
                    ErrorModel,
                >(final(self).known()),
                Err(e) => final(self).known() == old(self).known() && ((error::is_fault(r) && !old(
                    self
                ).sound()) || catalog::loaded_catalog(old(self).trees()) == Err::<
                    CatalogModel,
                    ErrorModel,
                >(e.deep_view())),
            },
    {
        self.kernel.load_schema()
    }

    /// Registers a table.
    pub fn register_table(&mut self, schema: TableSchema) -> (r: Result<(), EngineError>)
        ensures
            final(self).kernel.float == old(self).kernel.float,
            final(self).kernel.events == old(self).kernel.events,
            final(self).subscriptions == old(self).subscriptions,
            final(self).sound() == old(self).sound(),
            catalog::registers(
                r,
                old(self).sound(),
                old(self).trees(),
                final(self).known(),
                final(self).trees(),
                catalog::table_registered(old(self).trees(), old(self).known(), schema.deep_view()),
            ),
    {
        self.kernel.register_table(schema)
    }

    /// Drops a table with its rows and indexes.
    pub fn drop_table(&mut self, table_name: &str) -> (r: Result<(), EngineError>)
        ensures
            final(self).kernel.float == old(self).kernel.float,
            final(self).kernel.events == old(self).kernel.events,
            final(self).subscriptions == old(self).subscriptions,
            final(self).sound() == old(self).sound(),
            catalog::registers(
                r,
                old(self).sound(),
                old(self).trees(),
                final(self).known(),
                final(self).trees(),
                catalog::table_dropped(old(self).trees(), old(self).known(), table_name@),
            ),
    {
        self.kernel.drop_table(table_name)
    }

    /// Registers an index.
    pub fn register_index(&mut self, schema: IndexSchema) -> (r: Result<(), EngineError>)
        ensures
            final(self).kernel.float == old(self).kernel.float,
            final(self).kernel.events == old(self).kernel.events,
            final(self).subscriptions == old(self).subscriptions,
            final(self).sound() == old(self).sound(),
            catalog::registers(
                r,
                old(self).sound(),
                old(self).trees(),
                final(self).known(),
                final(self).trees(),
                catalog::index_registered(old(self).trees(), old(self).known(), schema.deep_view()),
            ),
    {
        self.kernel.register_index(schema)
    }

    /// Drops an index.
    pub fn drop_index(&mut self, index_name: &str) -> (r: Result<(), EngineError>)
        ensures
            final(self).kernel.float == old(self).kernel.float,
            final(self).kernel.events == old(self).kernel.events,
            final(self).subscriptions == old(self).subscriptions,
            final(self).sound() == old(self).sound(),
            catalog::registers(
                r,
                old(self).sound(),
                old(self).trees(),
                final(self).known(),
                final(self).trees(),
                catalog::index_dropped(old(self).trees(), old(self).known(), index_name@),
            ),
    {
        self.kernel.drop_index(index_name)
    }

    /// A transaction that has not begun.
    pub fn transaction(&mut self) -> (r: EngineTransaction<'_, S, F>)
        ensures
            *r.inner.store == old(self).kernel.store,
            *final(r.inner.store) == final(self).kernel.store,
            r.inner.catalog == &old(self).kernel.catalog,
            r.inner.lifecycle is Uninitialized,
            r.inner.pending_events.deep_view() == Seq::<EventModel>::empty(),
            r.float == &old(self).kernel.float,
            *r.events == old(self).kernel.events,
            *final(r.events) == final(self).kernel.events,
            final(self).kernel.catalog == old(self).kernel.catalog,
            final(self).kernel.float == old(self).kernel.float,
            final(self).subscriptions == old(self).subscriptions,
    {
        EngineTransaction {
            inner: EngineWriteTxn::new(&mut self.kernel.store, &self.kernel.catalog),
            float: &self.kernel.float,
            events: &mut self.kernel.events,
        }
    }

    /// The table of that name, if there is one.
    pub fn describe_table(&self, table_name: &str) -> (r: Option<TableSchema>)
        ensures
            r.deep_view() == match catalog::table_of(self.known(), table_name@) {
                Ok(table) => Some(table),
                Err(_) => None::<TableModel>,
            },
    {
        match self.kernel.table(table_name) {
            Ok(table) => Some(table.duplicate()),
            Err(_) => None,
        }
    }

    /// Runs a query. A statement that fails changes nothing.
    pub fn execute(&mut self, query: &EngineQuery) -> (r: Result<EngineResult, EngineError>)
        requires
            old(self).ready(),
        ensures
            final(self).ready(),
            final(self).kernel.catalog == old(self).kernel.catalog,
            final(self).kernel.float == old(self).kernel.float,
            final(self).subscriptions == old(self).subscriptions,
            final(self).sound() == old(self).sound(),
            planner::ran(
                old(self).kernel.float,
                old(self).known(),
                query.deep_view(),
                r,
                old(self).sound(),
                (old(self).trees(), old(self).unheard()),
                (final(self).trees(), final(self).unheard()),
            ),
            r is Err && !(query.deep_view() is Select) ==> final(self).trees() == old(self).trees()
                && final(self).unheard() == old(self).unheard(),
    {
        self.kernel.run(query)
    }

    /// The rows of one table that meet a condition.
    pub fn select(
        &self,
        table_name: &str,
        projection: &Vec<usize>,
        predicate: Option<&QualifiedPredicate>,
    ) -> (r: Result<EngineResult, EngineError>)
        ensures
            error::settles(
                r,
                self.sound(),
                planner::read_of(
                    self.known(),
                    self.trees(),
                    table_name@,
                    projection@,
                    predicate.deep_view(),
                ),
            ),
    {
        self.kernel.read(table_name, projection, predicate)
    }

    /// Follows a query, and gives its first results. A query that refers to a
    /// table out of scope is refused.
    pub fn subscribe(&mut self, query: &EngineQuery, scope: &SyncScope) -> (r: Result<
        (SubscriptionId, EngineResult),
        EngineError,
    >)
        requires
            old(self).ready(),
            subscriptions::has_number(old(self).subscriptions.deep_view()),
        ensures
            final(self).ready(),
            final(self).kernel.catalog == old(self).kernel.catalog,
            final(self).kernel.float == old(self).kernel.float,
            final(self).sound() == old(self).sound(),
            follows(r, *old(self), *final(self), query.deep_view(), scope.deep_view()),
            first_unreached(query::query_tables(query.deep_view()), scope.deep_view()) is Some
                ==> *final(self) == *old(self),
    {
        match self.execute_with_scope(query, scope) {
            Ok(results) => {
                let id = self.subscriptions.register(
                    query.duplicate(),
                    scope.duplicate(),
                    results.duplicate(),
                );
                Ok((id, results))
            },
            Err(e) => Err(e),
        }
    }

    /// Stops following a query.
    pub fn unsubscribe(&mut self, id: SubscriptionId) -> (r: Result<(), EngineError>)
        ensures
            r is Ok,
            final(self).kernel == old(self).kernel,
            old(self).ready() ==> final(self).ready(),
            final(self).subscriptions.deep_view() == (RegistryModel {
                subscriptions: store_helpers::kept(
                    old(self).subscriptions.deep_view().subscriptions,
                    subscriptions::numbered_otherwise(id.deep_view()),
                ),
                next_id: old(self).subscriptions.deep_view().next_id,
            }),
    {
        self.subscriptions.unregister(id);
        Ok(())
    }

    /// Runs a query for a peer: it finds no table out of scope, and sees no row
    /// that does not meet the conditions of the scope.
    pub fn execute_with_scope(&mut self, query: &EngineQuery, scope: &SyncScope) -> (r: Result<
        EngineResult,
        EngineError,
    >)
        requires
            old(self).ready(),
        ensures
            final(self).ready(),
            final(self).kernel.catalog == old(self).kernel.catalog,
            final(self).kernel.float == old(self).kernel.float,
            final(self).subscriptions == old(self).subscriptions,
            final(self).sound() == old(self).sound(),
            ran_scoped(
                old(self).kernel.float,
                old(self).known(),
                query.deep_view(),
                scope.deep_view(),
                r,
                old(self).sound(),
                (old(self).trees(), old(self).unheard()),
                (final(self).trees(), final(self).unheard()),
            ),
            first_unreached(query::query_tables(query.deep_view()), scope.deep_view()) is Some
                ==> *final(self) == *old(self),
    {
        let tables = query.tables();
        match find_unreached(&tables, scope) {
            Some(table) => Err(EngineError::TableNotFound(table)),
            None => self.kernel.run(&scope.narrow_query(query)),
        }
    }

    /// Hands out the changes that listeners have not heard of.
    pub fn take_events(&mut self) -> (r: Vec<ChangeEvent>)
        ensures
            r.deep_view() == old(self).unheard(),
            final(self).unheard() == Seq::<EventModel>::empty(),
            final(self).kernel.store == old(self).kernel.store,
            final(self).kernel.catalog == old(self).kernel.catalog,
            final(self).kernel.float == old(self).kernel.float,
            final(self).subscriptions == old(self).subscriptions,
    {
        self.kernel.take_events()
    }

    /// Computes again the subscriptions that a change may have altered, and
    /// gives what their subscribers are to be told: results that differ from
    /// the last ones, and errors.
    pub fn recompute_affected_subscriptions(&mut self, event: &ChangeEvent) -> (r: Vec<
        (SubscriptionId, Result<EngineResult, EngineError>),
    >)
        requires
            old(self).ready(),
        ensures
            final(self).ready(),
            final(self).kernel.catalog == old(self).kernel.catalog,
            final(self).kernel.float == old(self).kernel.float,
            final(self).sound() == old(self).sound(),
            final(self).subscriptions.deep_view().next_id == old(
                self
            ).subscriptions.deep_view().next_id,
            is_retold(
                event.deep_view(),
                (Tidings {
                    told: Seq::empty(),
                    subscriptions: old(self).subscriptions.deep_view().subscriptions,
                }),
                (Tidings {
                    told: told_model(r@),
                    subscriptions: final(self).subscriptions.deep_view().subscriptions,
                }),
            ),
            old(self).sound() ==> recomputed(
                old(self).kernel.float,
                old(self).known(),
                subscriptions::numbers(
                    store_helpers::kept(
                        old(self).subscriptions.deep_view().subscriptions,
                        subscriptions::affected_by(event.deep_view()),
                    ),
                ),
                (Recomputed {
                    told: Seq::empty(),
                    subscriptions: old(self).subscriptions.deep_view().subscriptions,
                    trees: old(self).trees(),
                    events: old(self).unheard(),
                }),
            ) == (Recomputed {
                told: told_model(r@),
                subscriptions: final(self).subscriptions.deep_view().subscriptions,
                trees: final(self).trees(),
                events: final(self).unheard(),
            }),
    {
        let affected = self.subscriptions.affected_by_change(event);
        let ghost ids = affected.deep_view();
        let ghost f = self.kernel.float;
        let ghost c = self.known();
        let ghost wanted = recomputed(
            f,
            c,
            ids,
            Recomputed {
                told: Seq::empty(),
                subscriptions: self.subscriptions.deep_view().subscriptions,
                trees: self.trees(),
                events: self.unheard(),
            },
        );
        let mut told: Vec<(SubscriptionId, Result<EngineResult, EngineError>)> = Vec::new();
        let mut i: usize = 0;
        let ghost start = Tidings {
            told: Seq::empty(),
            subscriptions: self.subscriptions.deep_view().subscriptions,
        };
        let ghost mut outcomes: Seq<Result<Seq<RowModel>, ErrorModel>> = Seq::empty();
        proof {
            assert(ids.skip(0) =~= ids);
            assert(told_model(told@) =~= Seq::empty());
        }
        while i < affected.len()
            invariant
                i <= affected.len(),
                outcomes.len() == i,
                all_tidings(ids.take(i as int), outcomes, start) == (Tidings {
                    told: told_model(told@),
                    subscriptions: self.subscriptions.deep_view().subscriptions,
                }),
                ids == affected.deep_view(),
                self.ready(),
                self.kernel.catalog == old(self).kernel.catalog,
                self.kernel.float == old(self).kernel.float,
                self.sound() == old(self).sound(),
                self.subscriptions.deep_view().next_id == old(
                    self
                ).subscriptions.deep_view().next_id,
                f == self.kernel.float,
                c == self.known(),
                self.sound() ==> wanted == recomputed(
                    f,
                    c,
                    ids.skip(i as int),
                    Recomputed {
                        told: told_model(told@),
                        subscriptions: self.subscriptions.deep_view().subscriptions,
                        trees: self.trees(),
                        events: self.unheard(),
                    },
                ),
            decreases affected.len() - i,
        {
            let id = affected[i];
            let ghost before = told@;
            let ghost mut outcome: Result<Seq<RowModel>, ErrorModel> = Ok(Seq::empty());
            let ghost reached = outcomes;
            proof {
                assert(ids.skip(i as int)[0] == id.deep_view());
                assert(ids.skip(i as int).drop_first() =~= ids.skip(i + 1));
                assert(ids.take(i + 1).drop_last() =~= ids.take(i as int));
                assert(ids.take(i + 1).last() == id.deep_view());
            }
            let followed = match self.subscriptions.get(id) {
                Some(sub) => Some(
                    (sub.query.duplicate(), sub.scope.duplicate(), sub.last_results.duplicate()),
                ),
                None => None,
            };
            if let Some((query, scope, last)) = followed {
                match self.execute_with_scope(&query, &scope) {
                    Ok(results) => {
                        proof {
                            outcome = Ok(results.deep_view());
                        }
                        let changed = match &last {
                            None => true,
                            Some(old_results) => !old_results.same(&results),
                        };
                        if changed {
                            let ghost told_of = results.deep_view();
                            self.subscriptions.update_last_results(id, results.duplicate());
                            told.push((id, Ok(results)));
                            proof {
                                assert(told_model(told@) =~= told_model(before).push(
                                    (id.deep_view(), Ok(told_of)),
                                ));
                            }
                        }
                    },
                    Err(e) => {
                        let ghost told_of = e.deep_view();
                        proof {
                            outcome = Err(told_of);
                        }
                        told.push((id, Err(e)));
                        proof {
                            assert(told_model(told@) =~= told_model(before).push(
                                (id.deep_view(), Err(told_of)),
                            ));
                        }
                    },
                }
            }
            proof {
                outcomes = reached.push(outcome);
                assert(outcomes.drop_last() =~= reached);
            }
            i += 1;
        }
        proof {
            assert(ids.take(i as int) =~= ids);
            let e = event.deep_view();
            assert(ids == affected_ids(start.subscriptions, e));
            assert(all_tidings(affected_ids(start.subscriptions, e), outcomes, start) == (Tidings {
                told: told_model(told@),
                subscriptions: self.subscriptions.deep_view().subscriptions,
            }));
        }
        told
    }
}

impl<S: EngineStore, F: Fn(FloatOp) -> u64> EngineDatabase<S, F> {
    /// Hands out the changes that listeners have not heard of, and what the
    /// subscribers are to be told because of them.
    pub fn tell_subscribers(&mut self) -> (r: (
        Vec<ChangeEvent>,
        Vec<(SubscriptionId, Result<EngineResult, EngineError>)>,
    ))
        requires
            old(self).ready(),
        ensures
            final(self).ready(),
            final(self).kernel.catalog == old(self).kernel.catalog,
            final(self).kernel.float == old(self).kernel.float,
            final(self).sound() == old(self).sound(),
            final(self).subscriptions.deep_view().next_id == old(
                self
            ).subscriptions.deep_view().next_id,
            r.0.deep_view() == old(self).unheard(),
            all_retold(
                old(self).unheard(),
                (Tidings {
                    told: Seq::empty(),
                    subscriptions: old(self).subscriptions.deep_view().subscriptions,
                }),
                (Tidings {
                    told: told_model(r.1@),
                    subscriptions: final(self).subscriptions.deep_view().subscriptions,
                }),
            ),
            old(self).sound() ==> delivered(
                old(self).kernel.float,
                old(self).known(),
                old(self).unheard(),
                (Recomputed {
                    told: Seq::empty(),
                    subscriptions: old(self).subscriptions.deep_view().subscriptions,
                    trees: old(self).trees(),
                    events: Seq::empty(),
                }),
            ) == (Recomputed {
                told: told_model(r.1@),
                subscriptions: final(self).subscriptions.deep_view().subscriptions,
                trees: final(self).trees(),
                events: final(self).unheard(),
            }),
    {
        let changes = self.take_events();
        let ghost all = changes.deep_view();
        let ghost f = self.kernel.float;
        let ghost c = self.known();
        let ghost wanted = delivered(
            f,
            c,
            all,
            Recomputed {
                told: Seq::empty(),
                subscriptions: self.subscriptions.deep_view().subscriptions,
                trees: self.trees(),
                events: Seq::empty(),
            },
        );
        let mut told: Vec<(SubscriptionId, Result<EngineResult, EngineError>)> = Vec::new();
        let mut i: usize = 0;
        let ghost start = Tidings {
            told: Seq::empty(),
            subscriptions: self.subscriptions.deep_view().subscriptions,
        };
        proof {
            assert(all.skip(0) =~= all);
            assert(told_model(told@) =~= Seq::empty());
        }
        while i < changes.len()
            invariant
                i <= changes.len(),
                all_retold(
                    all.take(i as int),
                    start,
                    Tidings {
                        told: told_model(told@),
                        subscriptions: self.subscriptions.deep_view().subscriptions,
                    },
                ),
                all == changes.deep_view(),
                self.ready(),
                self.kernel.catalog == old(self).kernel.catalog,
                self.kernel.float == old(self).kernel.float,
                self.sound() == old(self).sound(),
                self.subscriptions.deep_view().next_id == old(
                    self
                ).subscriptions.deep_view().next_id,
                f == self.kernel.float,
                c == self.known(),
                self.sound() ==> wanted == delivered(
                    f,
                    c,
                    all.skip(i as int),
                    Recomputed {
                        told: told_model(told@),
                        subscriptions: self.subscriptions.deep_view().subscriptions,
                        trees: self.trees(),
                        events: self.unheard(),
                    },
                ),
            decreases changes.len() - i,
        {
            let ghost before = told@;
            proof {
                assert(all.skip(i as int)[0] == changes@[i as int].deep_view());
                assert(all.skip(i as int).drop_first() =~= all.skip(i + 1));
            }
            let ghost first = self.subscriptions.deep_view().subscriptions;
            let mut more = self.recompute_affected_subscriptions(&changes[i]);
            let ghost added = more@;
            told.append(&mut more);
            proof {
                assert(all.take(i + 1).drop_last() =~= all.take(i as int));
                assert(all.take(i + 1).last() == changes@[i as int].deep_view());
                lemma_retold_after(
                    all[i as int],
                    first,
                    told_model(before),
                    Tidings {
                        told: told_model(added),
                        subscriptions: self.subscriptions.deep_view().subscriptions,
                    },
                );
                assert(told_model(told@) =~= told_model(before) + told_model(added));
            }
            i += 1;
        }
        proof {
            assert(all.take(i as int) =~= all);
        }
        (changes, told)
    }
}

/// What was told before does not matter.
proof fn lemma_tidings_after(
    ids: Seq<nat>,
    outcomes: Seq<Result<Seq<RowModel>, ErrorModel>>,
    list: Seq<SubscriptionModel>,
    told: Seq<(nat, Result<Seq<RowModel>, ErrorModel>)>,
)
    ensures
        ({
            let alone = all_tidings(
                ids,
                outcomes,
                Tidings { told: Seq::empty(), subscriptions: list },
            );
            all_tidings(ids, outcomes, Tidings { told, subscriptions: list }) == (Tidings {
                told: told + alone.told,
                subscriptions: alone.subscriptions,
            })
        }),
    decreases ids.len(),
{
    let alone = all_tidings(ids, outcomes, Tidings { told: Seq::empty(), subscriptions: list });
    let after = all_tidings(ids, outcomes, Tidings { told, subscriptions: list });
    if ids.len() > 0 {
        lemma_tidings_after(ids.drop_last(), outcomes.drop_last(), list, told);
    }
    assert(after.told =~= told + alone.told);
}

proof fn lemma_retold_after(
    e: EventModel,
    list: Seq<SubscriptionModel>,
    told: Seq<(nat, Result<Seq<RowModel>, ErrorModel>)>,
    after: Tidings,
)
    requires
        is_retold(e, Tidings { told: Seq::empty(), subscriptions: list }, after),
    ensures
        is_retold(
            e,
            Tidings { told, subscriptions: list },
            Tidings { told: told + after.told, subscriptions: after.subscriptions },
        ),
{
    let ids = affected_ids(list, e);
    let start = Tidings { told: Seq::empty(), subscriptions: list };
    let outcomes = choose|outcomes: Seq<Result<Seq<RowModel>, ErrorModel>>|
        outcomes.len() == ids.len() && after == #[trigger] all_tidings(ids, outcomes, start);
    lemma_tidings_after(ids, outcomes, list, told);
    let later = Tidings { told, subscriptions: list };
    assert(all_tidings(affected_ids(later.subscriptions, e), outcomes, later) == (Tidings {
        told: told + after.told,
        subscriptions: after.subscriptions,
    }));
}

/// A transaction of a database.
pub struct EngineTransaction<'db, S, F> {
    pub inner: EngineWriteTxn<'db, S>,
    pub float: &'db F,
    pub events: &'db mut Vec<ChangeEvent>,
}

/// A write whose rows are not asked for.
pub open spec fn rows_dropped(written: Written<Seq<RowModel>>) -> Written<()> {
    Written {
        result: match written.result {
            Ok(_) => Ok(()),
            Err(e) => Err(e),
        },
        trees: written.trees,
        events: written.events,
    }
}

impl<'db, S: EngineStore, F: Fn(FloatOp) -> u64> EngineTransaction<'db, S, F> {
    /// The transaction has not ended, and there is arithmetic for it.
    pub open spec fn is_open(&self) -> bool {
        !self.inner.ended() && float::is_float_unit(*self.float)
    }

    /// Puts a row into a table.
    pub fn insert_row(&mut self, table_name: &str, row: EngineRow) -> (r: Result<(), EngineError>)
        requires
            old(self).is_open(),
        ensures
            final(self).is_open(),
            final(self).inner.store == old(self).inner.store,
            final(self).inner.catalog == old(self).inner.catalog,
            final(self).float == old(self).float,
            final(self).events == old(self).events,
            executor::writes(
                r,
                (*old(self).inner.store).sound(),
                final(self).inner.contents(),
                final(self).inner.pending_events.deep_view(),
                old(self).inner.pending_events.deep_view(),
                executor::inserted(
                    old(self).inner.catalog.deep_view(),
                    old(self).inner.contents(),
                    table_name@,
                    row.deep_view(),
                ),
            ),
    {
        self.inner.insert(table_name, row)
    }

    /// Deletes the rows of a table that meet a condition.
    pub fn delete_rows(&mut self, table_name: &str, predicate: Option<&QualifiedPredicate>) -> (r:
        Result<(), EngineError>)
        requires
            old(self).is_open(),
        ensures
            final(self).is_open(),
            final(self).inner.store == old(self).inner.store,
            final(self).inner.catalog == old(self).inner.catalog,
            final(self).float == old(self).float,
            final(self).events == old(self).events,
            executor::writes(
                r,
                (*old(self).inner.store).sound(),
                final(self).inner.contents(),
                final(self).inner.pending_events.deep_view(),
                old(self).inner.pending_events.deep_view(),
                rows_dropped(
                    executor::deleted(
                        old(self).inner.catalog.deep_view(),
                        old(self).inner.contents(),
                        table_name@,
                        predicate.deep_view(),
                        None::<Seq<ColumnRef>>,
                    ),
                ),
            ),
    {
        match self.inner.delete(table_name, predicate, &None) {
            Ok(_) => Ok(()),
            Err(e) => Err(e),
        }
    }

    /// Deletes the rows of a table that meet a condition, and gives columns of
    /// them back.
    pub fn delete_rows_with_returning(
        &mut self,
        table_name: &str,
        predicate: Option<&QualifiedPredicate>,
        returning: &Option<Vec<QualifiedColumn>>,
    ) -> (r: Result<EngineResult, EngineError>)
        requires
            old(self).is_open(),
        ensures
            final(self).is_open(),
            final(self).inner.store == old(self).inner.store,
            final(self).inner.catalog == old(self).inner.catalog,
            final(self).float == old(self).float,
            final(self).events == old(self).events,
            executor::writes(
                r,
                (*old(self).inner.store).sound(),
                final(self).inner.contents(),
                final(self).inner.pending_events.deep_view(),
                old(self).inner.pending_events.deep_view(),
                executor::deleted(
                    old(self).inner.catalog.deep_view(),
                    old(self).inner.contents(),
                    table_name@,
                    predicate.deep_view(),
                    returning.deep_view(),
                ),
            ),
    {
        match self.inner.delete(table_name, predicate, returning) {
            Ok(rows) => Ok(EngineResult::new(rows)),
            Err(e) => Err(e),
        }
    }

    /// Updates the rows of a table that meet a condition.
    pub fn update_rows(
        &mut self,
        table_name: &str,
        assignments: &Vec<UpdateAssignment>,
        predicate: Option<&QualifiedPredicate>,
    ) -> (r: Result<(), EngineError>)
        requires
            old(self).is_open(),
        ensures
            final(self).is_open(),
            final(self).inner.store == old(self).inner.store,
            final(self).inner.catalog == old(self).inner.catalog,
            final(self).float == old(self).float,
            final(self).events == old(self).events,
            executor::writes(
                r,
                (*old(self).inner.store).sound(),
                final(self).inner.contents(),
                final(self).inner.pending_events.deep_view(),
                old(self).inner.pending_events.deep_view(),
                rows_dropped(
                    executor::updated(
                        *old(self).float,
                        old(self).inner.catalog.deep_view(),
                        old(self).inner.contents(),
                        table_name@,
                        assignments.deep_view(),
                        predicate.deep_view(),
                        Seq::<JoinModel>::empty(),
                        Seq::<Seq<char>>::empty(),
                        None::<Seq<ColumnRef>>,
                    ),
                ),
            ),
    {
        self.update_rows_with_sources(table_name, assignments, predicate, &no_items(), &no_items())
    }

    /// Updates the rows of a table that meet a condition on joined rows.
    pub fn update_rows_with_joins(
        &mut self,
        table_name: &str,
        assignments: &Vec<UpdateAssignment>,
        predicate: Option<&QualifiedPredicate>,
        joins: &Vec<JoinClause>,
    ) -> (r: Result<(), EngineError>)
        requires
            old(self).is_open(),
        ensures
            final(self).is_open(),
            final(self).inner.store == old(self).inner.store,
            final(self).inner.catalog == old(self).inner.catalog,
            final(self).float == old(self).float,
            final(self).events == old(self).events,
            executor::writes(
                r,
                (*old(self).inner.store).sound(),
                final(self).inner.contents(),
                final(self).inner.pending_events.deep_view(),
                old(self).inner.pending_events.deep_view(),
                rows_dropped(
                    executor::updated(
                        *old(self).float,
                        old(self).inner.catalog.deep_view(),
                        old(self).inner.contents(),
                        table_name@,
                        assignments.deep_view(),
                        predicate.deep_view(),
                        joins.deep_view(),
                        Seq::<Seq<char>>::empty(),
                        None::<Seq<ColumnRef>>,
                    ),
                ),
            ),
    {
        self.update_rows_with_sources(table_name, assignments, predicate, joins, &no_items())
    }

    /// Updates the rows of a table that meet a condition on joined rows and
    /// the rows of further tables.
    pub fn update_rows_with_sources(
        &mut self,
        table_name: &str,
        assignments: &Vec<UpdateAssignment>,
        predicate: Option<&QualifiedPredicate>,
        joins: &Vec<JoinClause>,
        from_tables: &Vec<String>,
    ) -> (r: Result<(), EngineError>)
        requires
            old(self).is_open(),
        ensures
            final(self).is_open(),
            final(self).inner.store == old(self).inner.store,
            final(self).inner.catalog == old(self).inner.catalog,
            final(self).float == old(self).float,
            final(self).events == old(self).events,
            executor::writes(
                r,
                (*old(self).inner.store).sound(),
                final(self).inner.contents(),
                final(self).inner.pending_events.deep_view(),
                old(self).inner.pending_events.deep_view(),
                rows_dropped(
                    executor::updated(
                        *old(self).float,
                        old(self).inner.catalog.deep_view(),
                        old(self).inner.contents(),
                        table_name@,
                        assignments.deep_view(),
                        predicate.deep_view(),
                        joins.deep_view(),
                        from_tables.deep_view(),
                        None::<Seq<ColumnRef>>,
                    ),
                ),
            ),
    {
        match self.inner.update(
            table_name,
            assignments,
            predicate,
            joins,
            from_tables,
            &None,
            self.float,
        ) {
            Ok(_) => Ok(()),
            Err(e) => Err(e),
        }
    }

    /// Updates rows, and gives columns of them back.
    pub fn update_rows_with_sources_and_returning(
        &mut self,
        table_name: &str,
        assignments: &Vec<UpdateAssignment>,
        predicate: Option<&QualifiedPredicate>,
        joins: &Vec<JoinClause>,
        from_tables: &Vec<String>,
        returning: &Option<Vec<QualifiedColumn>>,
    ) -> (r: Result<EngineResult, EngineError>)
        requires
            old(self).is_open(),
        ensures
            final(self).is_open(),
            final(self).inner.store == old(self).inner.store,
            final(self).inner.catalog == old(self).inner.catalog,
            final(self).float == old(self).float,
            final(self).events == old(self).events,
            executor::writes(
                r,
                (*old(self).inner.store).sound(),
                final(self).inner.contents(),
                final(self).inner.pending_events.deep_view(),
                old(self).inner.pending_events.deep_view(),
                executor::updated(
                    *old(self).float,
                    old(self).inner.catalog.deep_view(),
                    old(self).inner.contents(),
                    table_name@,
                    assignments.deep_view(),
                    predicate.deep_view(),
                    joins.deep_view(),
                    from_tables.deep_view(),
                    returning.deep_view(),
                ),
            ),
    {
        match self.inner.update(
            table_name,
            assignments,
            predicate,
            joins,
            from_tables,
            returning,
            self.float,
        ) {
            Ok(rows) => Ok(EngineResult::new(rows)),
            Err(e) => Err(e),
        }
    }

    /// Makes the changes, and keeps them for the listeners.
    pub fn commit(self) -> (r: Result<(), EngineError>)
        ensures
            (*final(self.inner.store)).sound() == (*old(self.inner.store)).sound(),
            match r {
                Ok(_) => (*final(self.inner.store)).trees() == executor::seen_in(
                    *old(self.inner.store),
                    self.inner.lifecycle,
                ) && (*final(self.events)).deep_view() == (*old(self.events)).deep_view()
                    + self.inner.pending_events.deep_view(),
                Err(_) => error::is_fault(r) && !(*old(self.inner.store)).sound() && (*final(
                    self.inner.store
                )).trees() == (*old(self.inner.store)).trees() && *final(self.events) == *old(
                    self.events
                ),
            },
    {
        let EngineTransaction { inner, float: _, events } = self;
        match inner.commit() {
            Ok(done) => {
                append_events(events, done);
                Ok(())
            },
            Err(e) => Err(e),
        }
    }

    /// Forgets the changes.
    pub fn rollback(self) -> (r: Result<(), EngineError>)
        ensures
            r is Ok,
            *final(self.inner.store) == *old(self.inner.store),
            *final(self.events) == *old(self.events),
    {
        let EngineTransaction { inner, float: _, events: _ } = self;
        inner.rollback()
    }
}

} // verus!
