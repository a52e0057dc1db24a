//! The outermost layer: a database that takes SQL, and its transactions.
use vstd::prelude::*;
use crate::access_control::{self, SyncScope};
use crate::catalog::{self, CatalogModel, EngineCatalog, Registered};
use crate::change_event::{ChangeEvent, EventModel};
use crate::engine::{self, EngineDatabase, EngineTransaction, Recomputed, Tidings};
use crate::error::{self, EngineError, ErrorModel};
use crate::executor::{self, Written};
use crate::float::{self, FloatOp};
use crate::in_memory::InMemoryNamedBTree;
use crate::plain::{no_items, Plain};
use crate::planner;
use crate::query::{EngineQuery, EngineResult, QualifiedPredicate, QueryModel};
use crate::schema::{IndexSchema, TableModel, TableSchema};
use crate::schema_resolver::SchemaResolver;
use crate::sql::convert;
use crate::sql::error as translate_error;
use crate::sql::helpers;
use crate::sql::ir::{CanonicalStatement, DdlModel, DdlOp, StatementModel};
use crate::sql::mapper::{DefaultValueMapper, ValueMapper};
use crate::sql::translate::{self, parse_and_translate, parse_and_translate_statement};
use crate::store::{EngineStore, NamedTreeProvider, RowModel, Trees};
use crate::store_helpers;
use crate::subscriptions::{self, RegistryModel, SubscriptionId};
use crate::text::joined;
use crate::value::{EngineKey, EngineRow, EngineValue};

verus! {

/// What the database refuses, in words.
#[derive(Clone, Debug, PartialEq, Eq)]
pub enum DatabaseError {
    Engine(String),
    Other(String),
}

/// What a [`DatabaseError`] is, mathematically.
#[verifier::ext_equal]
pub enum DatabaseErrorModel {
    Engine(Seq<char>),
    Other(Seq<char>),
}

impl DeepView for DatabaseError {
    type V = DatabaseErrorModel;

    open spec fn deep_view(&self) -> DatabaseErrorModel {
        match self {
            DatabaseError::Engine(s) => DatabaseErrorModel::Engine(s@),
            DatabaseError::Other(s) => DatabaseErrorModel::Other(s@),
        }
    }
}

/// What the error says.
pub open spec fn database_error_text(e: DatabaseErrorModel) -> Seq<char> {
    match e {
        DatabaseErrorModel::Engine(s) => "engine error: "@ + s,
        DatabaseErrorModel::Other(s) => s,
    }
}

/// The words for an error of the engine.
pub open spec fn in_words(e: ErrorModel) -> DatabaseErrorModel {
    DatabaseErrorModel::Engine(error::error_text(e))
}

impl DatabaseError {
    /// The words for an error of the engine.
    pub fn of_engine(e: EngineError) -> (r: DatabaseError)
        ensures
            r.deep_view() == in_words(e.deep_view()),
    {
        DatabaseError::Engine(e.message())
    }

    /// What the error says.
    pub fn message(&self) -> (r: String)
        ensures
            r@ == database_error_text(self.deep_view()),
    {
        match self {
            DatabaseError::Engine(s) => joined("engine error: ", s.as_str()),
            DatabaseError::Other(s) => s.clone(),
        }
    }
}

/// A result of the engine, with its error put into words.
pub open spec fn lifts<T>(r: Result<T, DatabaseError>, inner: Result<T, EngineError>) -> bool {
    match (r, inner) {
        (Ok(a), Ok(b)) => a == b,
        (Err(x), Err(e)) => x.deep_view() == in_words(e.deep_view()),
        _ => false,
    }
}

/// Puts the error of the engine into words.
fn lift<T>(inner: Result<T, EngineError>) -> (r: Result<T, DatabaseError>)
    ensures
        lifts(r, inner),
{
    match inner {
        Ok(t) => Ok(t),
        Err(e) => Err(DatabaseError::of_engine(e)),
    }
}

/// The words for a fault of the backing store.
pub open spec fn is_fault_in_words(e: DatabaseError) -> bool {
    exists|fault: Seq<char>| #[trigger]
        in_words(ErrorModel::StoreError(fault)) == e.deep_view()
}

/// A row.
pub type Row = Vec<EngineValue>;

/// The store of a database in memory.
pub type InMemoryEngineStore = InMemoryNamedBTree<EngineKey, EngineRow>;

/// What a store needs to stand below a database.
pub trait FacadeStore: EngineStore {

}

impl<T: EngineStore> FacadeStore for T {

}

/// A database that takes SQL: the engine, and the way it reads literals.
pub struct Database<S, F, P> {
    pub engine: EngineDatabase<S, F>,
    pub mapper: DefaultValueMapper<P>,
}

/// The schema of a table that a catalog holds.
pub open spec fn described_in(c: CatalogModel, name: Seq<char>) -> Option<TableModel> {
    match catalog::table_of(c, name) {
        Ok(table) => Some(table),
        Err(_) => None,
    }
}

impl SchemaResolver for EngineCatalog {
    open spec fn described(&self, name: Seq<char>) -> Option<TableModel> {
        described_in(self.deep_view(), name)
    }

    fn describe_table(&self, name: &str) -> (r: Option<TableSchema>) {
        match self.table(name) {
            Ok(table) => Some(table.duplicate()),
            Err(_) => None,
        }
    }
}

impl<S: FacadeStore, F: Fn(FloatOp) -> u64, P: Fn(&str) -> Result<u64, String>> SchemaResolver
    for Database<S, F, P> {
    open spec fn described(&self, name: Seq<char>) -> Option<TableModel> {
        described_in(self.engine.known(), name)
    }

    fn describe_table(&self, name: &str) -> (r: Option<TableSchema>) {
        self.engine.describe_table(name)
    }
}

/// A query ran, and its error was put into words.
pub open spec fn query_ran<S: FacadeStore, F: Fn(FloatOp) -> u64, P>(
    r: Result<EngineResult, DatabaseError>,
    before: Database<S, F, P>,
    after: Database<S, F, P>,
    q: QueryModel,
) -> bool {
    &&& after.engine.kernel.catalog == before.engine.kernel.catalog
    &&& exists|x: Result<EngineResult, EngineError>| #[trigger]
        lifts(r, x) && planner::ran(
            before.engine.kernel.float,
            before.engine.known(),
            q,
            x,
            before.engine.sound(),
            (before.engine.trees(), before.engine.unheard()),
            (after.engine.trees(), after.engine.unheard()),
        )
}

/// A query of a peer ran, and its error was put into words.
pub open spec fn scoped_query_ran<S: FacadeStore, F: Fn(FloatOp) -> u64, P>(
    r: Result<EngineResult, DatabaseError>,
    before: Database<S, F, P>,
    after: Database<S, F, P>,
    q: QueryModel,
    scope: access_control::ScopeModel,
) -> bool {
    &&& after.engine.kernel.catalog == before.engine.kernel.catalog
    &&& exists|x: Result<EngineResult, EngineError>| #[trigger]
        lifts(r, x) && engine::ran_scoped(
            before.engine.kernel.float,
            before.engine.known(),
            q,
            scope,
            x,
            before.engine.sound(),
            (before.engine.trees(), before.engine.unheard()),
            (after.engine.trees(), after.engine.unheard()),
        )
}

/// A change of the schema was made, and its error was put into words.
pub open spec fn schema_changed<S: FacadeStore, F: Fn(FloatOp) -> u64, P>(
    r: Result<(), DatabaseError>,
    before: Database<S, F, P>,
    after: Database<S, F, P>,
    exact: Registered,
) -> bool {
    &&& after.engine.kernel.events == before.engine.kernel.events
    &&& exists|x: Result<(), EngineError>| #[trigger]
        lifts(r, x) && catalog::registers(
            x,
            before.engine.sound(),
            before.engine.trees(),
            after.engine.known(),
            after.engine.trees(),
            exact,
        )
}

/// What a schema change gives.
pub open spec fn ddl_of(op: DdlModel, trees: Trees, known: CatalogModel) -> Registered {
    match op {
        DdlModel::CreateTable(table, _) => catalog::table_registered(trees, known, table),
        DdlModel::DropTable(name, _) => catalog::table_dropped(trees, known, name),
        DdlModel::CreateIndex(index) => catalog::index_registered(trees, known, index),
        DdlModel::DropIndex(name) => catalog::index_dropped(trees, known, name),
    }
}

/// A result without rows, if there is one.
pub open spec fn no_rows(r: Result<EngineResult, DatabaseError>) -> Result<(), DatabaseError> {
    match r {
        Ok(_) => Ok(()),
        Err(e) => Err(e),
    }
}

/// A statement ran, and its error was put into words.
pub open spec fn statement_ran<S: FacadeStore, F: Fn(FloatOp) -> u64, P>(
    r: Result<EngineResult, DatabaseError>,
    before: Database<S, F, P>,
    after: Database<S, F, P>,
    statement: StatementModel,
) -> bool {
    match statement {
        StatementModel::Query(q) => query_ran(r, before, after, q),
        StatementModel::Ddl(op) => (r matches Ok(result) ==> result.deep_view() == Seq::<
            RowModel,
        >::empty()) && schema_changed(
            no_rows(r),
            before,
            after,
            ddl_of(op, before.engine.trees(), before.engine.known()),
        ),
    }
}

/// The fixed parts of a database.
pub open spec fn same_parts<S: FacadeStore, F: Fn(FloatOp) -> u64, P>(
    before: Database<S, F, P>,
    after: Database<S, F, P>,
) -> bool {
    &&& after.mapper == before.mapper
    &&& after.engine.kernel.float == before.engine.kernel.float
    &&& after.engine.sound() == before.engine.sound()
}

impl<F: Fn(FloatOp) -> u64, P: Fn(&str) -> Result<u64, String>> Database<
    InMemoryEngineStore,
    F,
    P,
> {
    /// An empty database in memory.
    pub fn open_in_memory_sync(float: F, parse_float: P) -> (r: Self)
        requires
            float::is_float_unit(float),
            helpers::is_float_parser(parse_float),
        ensures
            r.ready(),
            r.engine.trees() == Trees::empty(),
            r.engine.known() == catalog::empty_catalog(),
            r.engine.sound(),
            r.engine.unheard() == Seq::<EventModel>::empty(),
            r.engine.subscriptions.deep_view() == subscriptions::no_subscriptions(),
            r.engine.kernel.float == float,
            r.mapper.parse_float == parse_float,
    {
        Database::from_store(InMemoryNamedBTree::new(), float, parse_float)
    }

    /// An empty database in memory.
    pub fn open_in_memory(float: F, parse_float: P) -> (r: Result<Self, DatabaseError>)
        requires
            float::is_float_unit(float),
            helpers::is_float_parser(parse_float),
        ensures
            r matches Ok(db) && db.ready() && db.engine.trees() == Trees::empty()
                && db.engine.known() == catalog::empty_catalog() && db.engine.sound()
                && db.engine.unheard() == Seq::<EventModel>::empty()
                && db.engine.subscriptions.deep_view() == subscriptions::no_subscriptions()
                && db.engine.kernel.float == float && db.mapper.parse_float == parse_float,
    {
        Ok(Database::open_in_memory_sync(float, parse_float))
    }
}

impl<S: FacadeStore, F: Fn(FloatOp) -> u64, P: Fn(&str) -> Result<u64, String>> Database<
    S,
    F,
    P,
> {
    /// Queries can be run, and literals can be read.
    pub open spec fn ready(&self) -> bool {
        self.engine.ready() && self.mapper.ready()
    }

    /// A database whose store is taken to hold no tables.
    pub fn from_store(store: S, float: F, parse_float: P) -> (r: Self)
        requires
            float::is_float_unit(float),
            helpers::is_float_parser(parse_float),
        ensures
            r.ready(),
            r.engine.kernel.store == store,
            r.engine.kernel.float == float,
            r.mapper.parse_float == parse_float,
            r.engine.known() == catalog::empty_catalog(),
            r.engine.unheard() == Seq::<EventModel>::empty(),
            r.engine.subscriptions.deep_view() == subscriptions::no_subscriptions(),
    {
        Database {
            engine: EngineDatabase::new(store, float),
            mapper: DefaultValueMapper { parse_float },
        }
    }

    /// A database with the tables that its store keeps.
    pub fn open_with_store(store: S, float: F, parse_float: P) -> (r: Result<Self, DatabaseError>)
        requires
            float::is_float_unit(float),
            helpers::is_float_parser(parse_float),
        ensures
            match r {
                Ok(db) => db.ready() && db.engine.kernel.store == store
                    && db.engine.kernel.float == float && db.mapper.parse_float == parse_float
                    && catalog::loaded_catalog(store.trees()) == Ok::<CatalogModel, ErrorModel>(
                    db.engine.known(),
                ) && db.engine.unheard() == Seq::<EventModel>::empty()
                    && db.engine.subscriptions.deep_view() == subscriptions::no_subscriptions(),
                Err(e) => (is_fault_in_words(e) && !store.sound()) || (catalog::loaded_catalog(
                    store.trees(),
                ) matches Err(x) && e.deep_view() == in_words(x)),
            },
    {
        match EngineDatabase::open(store, float) {
            Ok(engine) => Ok(Database { engine, mapper: DefaultValueMapper { parse_float } }),
            Err(e) => Err(DatabaseError::of_engine(e)),
        }
    }

    /// The table of that name, if there is one.
    pub fn describe_table(&self, table_name: &str) -> (r: Option<TableSchema>)
        ensures
            r.deep_view() == described_in(self.engine.known(), table_name@),
    {
        self.engine.describe_table(table_name)
    }

    /// Registers a table.
    pub fn register_table(&mut self, schema: TableSchema) -> (r: Result<(), DatabaseError>)
        ensures
            same_parts(*old(self), *final(self)),
            final(self).engine.subscriptions == old(self).engine.subscriptions,
            schema_changed(
                r,
                *old(self),
                *final(self),
                catalog::table_registered(
                    old(self).engine.trees(),
                    old(self).engine.known(),
                    schema.deep_view(),
                ),
            ),
    {
        let done = self.engine.register_table(schema);
        lift(done)
    }

    /// Drops a table with its rows and indexes.
    pub fn drop_table(&mut self, table_name: &str) -> (r: Result<(), DatabaseError>)
        ensures
            same_parts(*old(self), *final(self)),
            final(self).engine.subscriptions == old(self).engine.subscriptions,
            schema_changed(
                r,
                *old(self),
                *final(self),
                catalog::table_dropped(
                    old(self).engine.trees(),
                    old(self).engine.known(),
                    table_name@,
                ),
            ),
    {
        let done = self.engine.drop_table(table_name);
        lift(done)
    }

    /// Registers an index.
    pub fn register_index(&mut self, schema: IndexSchema) -> (r: Result<(), DatabaseError>)
        ensures
            same_parts(*old(self), *final(self)),
            final(self).engine.subscriptions == old(self).engine.subscriptions,
            schema_changed(
                r,
                *old(self),
                *final(self),
                catalog::index_registered(
                    old(self).engine.trees(),
                    old(self).engine.known(),
                    schema.deep_view(),
                ),
            ),
    {
        let done = self.engine.register_index(schema);
        lift(done)
    }

    /// Drops an index.
    pub fn drop_index(&mut self, index_name: &str) -> (r: Result<(), DatabaseError>)
        ensures
            same_parts(*old(self), *final(self)),
            final(self).engine.subscriptions == old(self).engine.subscriptions,
            schema_changed(
                r,
                *old(self),
                *final(self),
                catalog::index_dropped(
                    old(self).engine.trees(),
                    old(self).engine.known(),
                    index_name@,
                ),
            ),
    {
        let done = self.engine.drop_index(index_name);
        lift(done)
    }

    /// Runs a query.
    pub fn execute_query(&mut self, query: &EngineQuery) -> (r: Result<EngineResult, DatabaseError>)
        requires
            old(self).ready(),
        ensures
            final(self).ready(),
            same_parts(*old(self), *final(self)),
            final(self).engine.subscriptions == old(self).engine.subscriptions,
            query_ran(r, *old(self), *final(self), query.deep_view()),
    {
        let done = self.engine.execute(query);
        lift(done)
    }

    /// Runs the first statement of an SQL text.
    pub fn execute_sql(&mut self, sql: &str) -> (r: Result<EngineResult, DatabaseError>)
        requires
            old(self).ready(),
        ensures
            final(self).ready(),
            same_parts(*old(self), *final(self)),
            final(self).engine.subscriptions == old(self).engine.subscriptions,
            match translate::parsed_statement(
                convert::statements_in(sql@),
                *old(self),
                old(self).mapper,
            ) {
                Err(refusal) => (r matches Err(e) && e.deep_view() == DatabaseErrorModel::Other(
                    translate_error::refusal_text(refusal),
                )) && *final(self) == *old(self),
                Ok(statement) => statement_ran(r, *old(self), *final(self), statement),
            },
    {
        match parse_and_translate_statement(sql, &*self, &self.mapper) {
            Ok(statement) => self.execute_statement(statement),
            Err(e) => Err(DatabaseError::Other(e.message())),
        }
    }

    /// Runs a statement. Whether a table may exist already, or may be missing,
    /// is not looked at.
    pub fn execute_statement(&mut self, statement: CanonicalStatement) -> (r: Result<
        EngineResult,
        DatabaseError,
    >)
        requires
            old(self).ready(),
        ensures
            final(self).ready(),
            same_parts(*old(self), *final(self)),
            final(self).engine.subscriptions == old(self).engine.subscriptions,
            statement_ran(r, *old(self), *final(self), statement.deep_view()),
    {
        let done = match statement {
            CanonicalStatement::Query(query) => {
                return self.execute_query(&query);
            },
            CanonicalStatement::Ddl(DdlOp::CreateTable(schema, _)) => self.register_table(schema),
            CanonicalStatement::Ddl(DdlOp::DropTable(name, _)) => self.drop_table(name.as_str()),
            CanonicalStatement::Ddl(DdlOp::CreateIndex(schema)) => self.register_index(schema),
            CanonicalStatement::Ddl(DdlOp::DropIndex(name)) => self.drop_index(name.as_str()),
        };
        match done {
            Ok(()) => Ok(EngineResult::new(no_items())),
            Err(e) => Err(e),
        }
    }

    /// Begins a transaction.
    pub fn transaction(&mut self) -> (r: Transaction<'_, S, F>)
        ensures
            *r.inner.inner.store == old(self).engine.kernel.store,
            *final(r.inner.inner.store) == final(self).engine.kernel.store,
            r.inner.inner.catalog == &old(self).engine.kernel.catalog,
            r.inner.inner.lifecycle is Uninitialized,
            r.inner.inner.pending_events.deep_view() == Seq::<EventModel>::empty(),
            r.inner.float == &old(self).engine.kernel.float,
            *r.inner.events == old(self).engine.kernel.events,
            *final(r.inner.events) == final(self).engine.kernel.events,
            final(self).engine.kernel.catalog == old(self).engine.kernel.catalog,
            final(self).engine.kernel.float == old(self).engine.kernel.float,
            final(self).engine.subscriptions == old(self).engine.subscriptions,
            final(self).mapper == old(self).mapper,
    {
        Transaction { inner: self.engine.transaction() }
    }

    /// Follows a query, and gives its first results.
    pub fn subscribe_query(&mut self, query: &EngineQuery, scope: Option<SyncScope>) -> (r: Result<
        (SubscriptionId, EngineResult),
        DatabaseError,
    >)
        requires
            old(self).ready(),
            subscriptions::has_number(old(self).engine.subscriptions.deep_view()),
        ensures
            final(self).ready(),
            same_parts(*old(self), *final(self)),
            final(self).engine.kernel.catalog == old(self).engine.kernel.catalog,
            subscribed(
                r,
                *old(self),
                *final(self),
                query.deep_view(),
                match scope {
                    Some(s) => s.deep_view(),
                    None => access_control::everything(),
                },
            ),
    {
        let scope = match scope {
            Some(scope) => scope,
            None => SyncScope::default(),
        };
        let done = self.engine.subscribe(query, &scope);
        lift(done)
    }

    /// Follows the first statement of an SQL text, which must be a selection.
    pub fn subscribe_sql(&mut self, sql: &str, scope: Option<SyncScope>) -> (r: Result<
        (SubscriptionId, EngineResult),
        DatabaseError,
    >)
        requires
            old(self).ready(),
            subscriptions::has_number(old(self).engine.subscriptions.deep_view()),
        ensures
            final(self).ready(),
            same_parts(*old(self), *final(self)),
            final(self).engine.kernel.catalog == old(self).engine.kernel.catalog,
            match translate::parsed_statement(
                convert::statements_in(sql@),
                *old(self),
                old(self).mapper,
            ) {
                Err(refusal) => (r matches Err(e) && e.deep_view() == DatabaseErrorModel::Other(
                    translate_error::refusal_text(refusal),
                )) && *final(self) == *old(self),
                Ok(statement) => statement_subscribed(
                    r,
                    *old(self),
                    *final(self),
                    statement,
                    match scope {
                        Some(s) => s.deep_view(),
                        None => access_control::everything(),
                    },
                ),
            },
    {
        match parse_and_translate_statement(sql, &*self, &self.mapper) {
            Ok(statement) => self.subscribe_statement(statement, scope),
            Err(e) => Err(DatabaseError::Other(e.message())),
        }
    }

    /// Follows a statement, which must be a selection.
    pub fn subscribe_statement(&mut self, statement: CanonicalStatement, scope: Option<SyncScope>) -> (r:
        Result<(SubscriptionId, EngineResult), DatabaseError>)
        requires
            old(self).ready(),
            subscriptions::has_number(old(self).engine.subscriptions.deep_view()),
        ensures
            final(self).ready(),
            same_parts(*old(self), *final(self)),
            final(self).engine.kernel.catalog == old(self).engine.kernel.catalog,
            statement_subscribed(
                r,
                *old(self),
                *final(self),
                statement.deep_view(),
                match scope {
                    Some(s) => s.deep_view(),
                    None => access_control::everything(),
                },
            ),
    {
        if let CanonicalStatement::Query(query) = &statement {
            if let EngineQuery::Select { .. } = query {
                return self.subscribe_query(query, scope);
            }
        }
        Err(DatabaseError::Other("subscribe_sql only accepts SELECT statements".to_string()))
    }

    /// Follows a query of a peer that may see everything.
    pub fn subscribe_unrestricted(&mut self, query: &EngineQuery) -> (r: Result<
        (SubscriptionId, EngineResult),
        DatabaseError,
    >)
        requires
            old(self).ready(),
            subscriptions::has_number(old(self).engine.subscriptions.deep_view()),
        ensures
            final(self).ready(),
            same_parts(*old(self), *final(self)),
            final(self).engine.kernel.catalog == old(self).engine.kernel.catalog,
            subscribed(
                r,
                *old(self),
                *final(self),
                query.deep_view(),
                access_control::everything(),
            ),
    {
        self.subscribe_query(query, None)
    }

    /// Stops following a query.
    pub fn unsubscribe(&mut self, id: SubscriptionId) -> (r: Result<(), DatabaseError>)
        ensures
            r is Ok,
            final(self).mapper == old(self).mapper,
            final(self).engine.kernel == old(self).engine.kernel,
            old(self).ready() ==> final(self).ready(),
            final(self).engine.subscriptions.deep_view() == (RegistryModel {
                subscriptions: store_helpers::kept(
                    old(self).engine.subscriptions.deep_view().subscriptions,
                    subscriptions::numbered_otherwise(id.deep_view()),
                ),
                next_id: old(self).engine.subscriptions.deep_view().next_id,
            }),
    {
        let done = self.engine.unsubscribe(id);
        lift(done)
    }

    /// Runs a query for a peer: it finds no table out of scope, and sees no row
    /// that does not meet the conditions of the scope.
    pub fn execute_with_scope(&mut self, query: &EngineQuery, scope: &SyncScope) -> (r: Result<
        EngineResult,
        DatabaseError,
    >)
        requires
            old(self).ready(),
        ensures
            final(self).ready(),
            same_parts(*old(self), *final(self)),
            final(self).engine.subscriptions == old(self).engine.subscriptions,
            scoped_query_ran(
                r,
                *old(self),
                *final(self),
                query.deep_view(),
                scope.deep_view(),
            ),
    {
        let done = self.engine.execute_with_scope(query, scope);
        lift(done)
    }

    /// Hands out the changes that listeners have not heard of, and what the
    /// subscribers are to be told because of them.
    pub fn tell_subscribers(&mut self) -> (r: (
        Vec<ChangeEvent>,
        Vec<(SubscriptionId, Result<EngineResult, EngineError>)>,
    ))
        requires
            old(self).ready(),
        ensures
            final(self).ready(),
            same_parts(*old(self), *final(self)),
            final(self).engine.kernel.catalog == old(self).engine.kernel.catalog,
            r.0.deep_view() == old(self).engine.unheard(),
            engine::all_retold(
                old(self).engine.unheard(),
                (Tidings {
                    told: Seq::empty(),
                    subscriptions: old(self).engine.subscriptions.deep_view().subscriptions,
                }),
                (Tidings {
                    told: engine::told_model(r.1@),
                    subscriptions: final(self).engine.subscriptions.deep_view().subscriptions,
                }),
            ),
            old(self).engine.sound() ==> engine::delivered(
                old(self).engine.kernel.float,
                old(self).engine.known(),
                old(self).engine.unheard(),
                (Recomputed {
                    told: Seq::empty(),
                    subscriptions: old(self).engine.subscriptions.deep_view().subscriptions,
                    trees: old(self).engine.trees(),
                    events: Seq::empty(),
                }),
            ) == (Recomputed {
                told: engine::told_model(r.1@),
                subscriptions: final(self).engine.subscriptions.deep_view().subscriptions,
                trees: final(self).engine.trees(),
                events: final(self).engine.unheard(),
            }),
    {
        self.engine.tell_subscribers()
    }

    /// Hands out the changes that listeners have not heard of.
    pub fn take_events(&mut self) -> (r: Vec<ChangeEvent>)
        ensures
            r.deep_view() == old(self).engine.unheard(),
            final(self).engine.unheard() == Seq::<EventModel>::empty(),
            final(self).engine.kernel.store == old(self).engine.kernel.store,
            final(self).engine.kernel.catalog == old(self).engine.kernel.catalog,
            final(self).engine.kernel.float == old(self).engine.kernel.float,
            final(self).engine.subscriptions == old(self).engine.subscriptions,
            final(self).mapper == old(self).mapper,
    {
        self.engine.take_events()
    }
}

/// A query is followed, and its error was put into words.
pub open spec fn subscribed<S: FacadeStore, F: Fn(FloatOp) -> u64, P>(
    r: Result<(SubscriptionId, EngineResult), DatabaseError>,
    before: Database<S, F, P>,
    after: Database<S, F, P>,
    q: QueryModel,
    scope: access_control::ScopeModel,
) -> bool {
    exists|x: Result<(SubscriptionId, EngineResult), EngineError>| #[trigger]
        lifts(r, x) && engine::follows(x, before.engine, after.engine, q, scope)
}

/// A statement is followed if it is a selection, and refused if not.
pub open spec fn statement_subscribed<S: FacadeStore, F: Fn(FloatOp) -> u64, P>(
    r: Result<(SubscriptionId, EngineResult), DatabaseError>,
    before: Database<S, F, P>,
    after: Database<S, F, P>,
    statement: StatementModel,
    scope: access_control::ScopeModel,
) -> bool {
    match statement {
        StatementModel::Query(q) if q is Select => subscribed(r, before, after, q, scope),
        _ => (r matches Err(e) && e.deep_view() == DatabaseErrorModel::Other(
            "subscribe_sql only accepts SELECT statements"@,
        )) && after == before,
    }
}

/// A transaction of a database.
pub struct Transaction<'db, S, F> {
    pub inner: EngineTransaction<'db, S, F>,
}

/// A write in a transaction, with its error put into words.
pub open spec fn wrote<'db, T: DeepView, S: FacadeStore, F: Fn(FloatOp) -> u64>(
    r: Result<T, DatabaseError>,
    before: Transaction<'db, S, F>,
    after: Transaction<'db, S, F>,
    exact: Written<T::V>,
) -> bool {
    exists|x: Result<T, EngineError>| #[trigger]
        lifts(r, x) && executor::writes(
            x,
            (*before.inner.inner.store).sound(),
            after.inner.inner.contents(),
            after.inner.inner.pending_events.deep_view(),
            before.inner.inner.pending_events.deep_view(),
            exact,
        )
}

/// The fixed parts of a transaction.
pub open spec fn same_transaction<'db, S: FacadeStore, F: Fn(FloatOp) -> u64>(
    before: Transaction<'db, S, F>,
    after: Transaction<'db, S, F>,
) -> bool {
    &&& after.inner.inner.store == before.inner.inner.store
    &&& after.inner.inner.catalog == before.inner.inner.catalog
    &&& after.inner.float == before.inner.float
    &&& after.inner.events == before.inner.events
}

/// What a query that is no selection does in a transaction.
pub open spec fn write_of<F: Fn(FloatOp) -> u64>(
    f: F,
    c: CatalogModel,
    trees: Trees,
    q: QueryModel,
) -> Option<Written<Seq<RowModel>>> {
    match q {
        QueryModel::Insert { table, row } => Some(
            planner::without_rows(executor::inserted(c, trees, table, row)),
        ),
        QueryModel::Update { table, assignments, predicate, joins, from_tables, returning } => Some(
            executor::updated(
                f,
                c,
                trees,
                table,
                assignments,
                predicate,
                joins,
                from_tables,
                returning,
            ),
        ),
        QueryModel::Delete { table, predicate, returning } => Some(
            executor::deleted(c, trees, table, predicate, returning),
        ),
        QueryModel::Select { .. } => None,
    }
}

impl<'db, S: FacadeStore, F: Fn(FloatOp) -> u64> Transaction<'db, S, F> {
    /// The tables and indexes that are known.
    pub fn catalog(&self) -> (r: &'db EngineCatalog)
        ensures
            r == self.inner.inner.catalog,
    {
        self.inner.inner.catalog
    }

    /// Puts a row into a table.
    pub fn insert_row(&mut self, table: &str, row: Row) -> (r: Result<(), DatabaseError>)
        requires
            old(self).inner.is_open(),
        ensures
            final(self).inner.is_open(),
            same_transaction(*old(self), *final(self)),
            wrote(
                r,
                *old(self),
                *final(self),
                executor::inserted(
                    old(self).inner.inner.catalog.deep_view(),
                    old(self).inner.inner.contents(),
                    table@,
                    row.deep_view(),
                ),
            ),
    {
        let done = self.inner.insert_row(table, row);
        lift(done)
    }

    /// Runs the first statement of an SQL text, which must be an insert, an update
    /// or a delete.
    pub fn execute_sql<R: SchemaResolver, P: Fn(&str) -> Result<u64, String>>(
        &mut self,
        resolver: &R,
        sql: &str,
        mapper: &DefaultValueMapper<P>,
    ) -> (r: Result<EngineResult, DatabaseError>)
        requires
            old(self).inner.is_open(),
            mapper.ready(),
        ensures
            final(self).inner.is_open(),
            same_transaction(*old(self), *final(self)),
            match translate::as_query(
                translate::parsed_statement(convert::statements_in(sql@), *resolver, *mapper),
            ) {
                Err(refusal) => (r matches Err(e) && e.deep_view() == DatabaseErrorModel::Other(
                    translate_error::refusal_text(refusal),
                )) && *final(self) == *old(self),
                Ok(q) => match write_of(
                    *old(self).inner.float,
                    old(self).inner.inner.catalog.deep_view(),
                    old(self).inner.inner.contents(),
                    q,
                ) {
                    None => (r matches Err(e) && e.deep_view() == DatabaseErrorModel::Other(
                        "SELECT inside transaction not supported; use Database::execute_sql instead"@,
                    )) && *final(self) == *old(self),
                    Some(exact) => wrote(r, *old(self), *final(self), exact),
                },
            },
    {
        match parse_and_translate(sql, resolver, mapper) {
            Err(e) => Err(DatabaseError::Other(e.message())),
            Ok(query) => self.execute(&query),
        }
    }

    /// Runs a query, which must be an insert, an update or a delete.
    pub fn execute(&mut self, query: &EngineQuery) -> (r: Result<EngineResult, DatabaseError>)
        requires
            old(self).inner.is_open(),
        ensures
            final(self).inner.is_open(),
            same_transaction(*old(self), *final(self)),
            match write_of(
                *old(self).inner.float,
                old(self).inner.inner.catalog.deep_view(),
                old(self).inner.inner.contents(),
                query.deep_view(),
            ) {
                None => (r matches Err(e) && e.deep_view() == DatabaseErrorModel::Other(
                    "SELECT inside transaction not supported; use Database::execute_sql instead"@,
                )) && *final(self) == *old(self),
                Some(exact) => wrote(r, *old(self), *final(self), exact),
            },
    {
        match query {
            EngineQuery::Insert { table, row } => {
                let done = self.inner.insert_row(table.as_str(), row.duplicate());
                let done = match done {
                    Ok(()) => Ok(EngineResult::new(no_items())),
                    Err(e) => Err(e),
                };
                lift(done)
            },
            EngineQuery::Update { table, assignments, predicate, joins, from_tables, returning } => {
                let condition: Option<&QualifiedPredicate> = match predicate {
                    Some(p) => Some(p),
                    None => None,
                };
                let done = self.inner.update_rows_with_sources_and_returning(
                    table.as_str(),
                    assignments,
                    condition,
                    joins,
                    from_tables,
                    returning,
                );
                lift(done)
            },
            EngineQuery::Delete { table, predicate, returning } => {
                let condition: Option<&QualifiedPredicate> = match predicate {
                    Some(p) => Some(p),
                    None => None,
                };
                let done = self.inner.delete_rows_with_returning(
                    table.as_str(),
                    condition,
                    returning,
                );
                lift(done)
            },
            EngineQuery::Select { .. } => Err(
                DatabaseError::Other(
                    "SELECT inside transaction not supported; use Database::execute_sql instead".to_string(),
                ),
            ),
        }
    }

    /// Makes the changes.
    pub fn commit(self) -> (r: Result<(), DatabaseError>)
        ensures
            (*final(self.inner.inner.store)).sound() == (*old(self.inner.inner.store)).sound(),
            match r {
                Ok(_) => (*final(self.inner.inner.store)).trees() == executor::seen_in(
                    *old(self.inner.inner.store),
                    self.inner.inner.lifecycle,
                ) && (*final(self.inner.events)).deep_view() == (*old(
                    self.inner.events
                )).deep_view() + self.inner.inner.pending_events.deep_view(),
                Err(e) => is_fault_in_words(e) && !(*old(self.inner.inner.store)).sound() && (*final(
                    self.inner.inner.store
                )).trees() == (*old(self.inner.inner.store)).trees() && *final(self.inner.events)
                    == *old(self.inner.events),
            },
    {
        let Transaction { inner } = self;
        let done = inner.commit();
        lift(done)
    }

    /// Forgets the changes.
    pub fn rollback(self) -> (r: Result<(), DatabaseError>)
        ensures
            r is Ok,
            *final(self.inner.inner.store) == *old(self.inner.inner.store),
            *final(self.inner.events) == *old(self.inner.events),
    {
        let Transaction { inner } = self;
        let done = inner.rollback();
        lift(done)
    }

    /// Ends the transaction by what came of the work in it: success makes the
    /// changes, an error forgets them.
    pub fn settle<T>(self, out: Result<T, DatabaseError>) -> (r: Result<T, DatabaseError>)
        ensures
            match out {
                Ok(v) => match r {
                    Ok(x) => x == v && (*final(self.inner.inner.store)).trees()
                        == executor::seen_in(
                        *old(self.inner.inner.store),
                        self.inner.inner.lifecycle,
                    ) && (*final(self.inner.events)).deep_view() == (*old(
                        self.inner.events
                    )).deep_view() + self.inner.inner.pending_events.deep_view(),
                    Err(e) => is_fault_in_words(e) && !(*old(self.inner.inner.store)).sound() && (
                    *final(self.inner.inner.store)).trees() == (*old(
                        self.inner.inner.store
                    )).trees() && *final(self.inner.events) == *old(self.inner.events),
                },
                Err(e) => r == Err::<T, DatabaseError>(e) && *final(self.inner.inner.store)
                    == *old(self.inner.inner.store) && *final(self.inner.events) == *old(
                    self.inner.events
                ),
            },
    {
        match out {
            Ok(v) => match self.commit() {
                Ok(()) => Ok(v),
                Err(e) => Err(e),
            },
            Err(e) => {
                let _ = self.rollback();
                Err(e)
            },
        }
    }
}

} // verus!
