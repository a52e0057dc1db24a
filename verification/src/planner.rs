//! Running queries: a store, the catalog of its tables, and the way from a
//! query to its result.
use vstd::prelude::*;
use crate::catalog::{self, CatalogModel, EngineCatalog};
use crate::change_event::{ChangeEvent, EventModel};
use crate::error::{self, EngineError, ErrorModel};
use crate::executor::{self, EngineWriteTxn, Written};
use crate::float::{self, FloatOp};
use crate::join_builder;
use crate::patch;
use crate::plain::{self, no_items, push_back, Plain};
use crate::predicate::{self, CacheModel, EvalContext};
use crate::query::{
    EngineQuery, EngineResult, PredicateModel, QualifiedColumn, QualifiedPredicate, QueryModel,
    SelectOptions,
};
use crate::schema::{self, IndexModel, IndexSchema, TableModel, TableSchema};
use crate::select_orchestrator::{self, finish_select};
use crate::select_pipeline::{self, materialize_joined_rows};
use crate::store::{EngineStore, NamedTreeProvider, RowModel, Trees};
use crate::store_helpers::{
    self, collect_table_rows, lookup_index_row_pks, materialize_rows_by_primary_keys,
};
use crate::value::{EngineRow, EngineValue, ValueModel};

verus! {

/// The outcome of a statement that is made whole or not at all.
pub open spec fn whole<T>(written: Written<T>, before: Trees) -> Written<T> {
    match written.result {
        Ok(_) => written,
        Err(e) => executor::refused(e, before),
    }
}

/// The outcome of an insert: it gives no rows.
pub open spec fn without_rows(written: Written<()>) -> Written<Seq<RowModel>> {
    Written {
        result: match written.result {
            Ok(_) => Ok(Seq::empty()),
            Err(e) => Err(e),
        },
        trees: written.trees,
        events: written.events,
    }
}

/// The first value of each row that has one.
pub open spec fn first_values(rows: Seq<RowModel>) -> Seq<ValueModel>
    decreases rows.len(),
{
    if rows.len() == 0 {
        Seq::empty()
    } else {
        let before = first_values(rows.drop_last());
        if rows.last().len() == 0 {
            before
        } else {
            before.push(rows.last()[0])
        }
    }
}

/// What a query gives.
pub open spec fn run_of<F: Fn(FloatOp) -> u64>(
    f: F,
    c: CatalogModel,
    q: QueryModel,
    trees: Trees,
) -> Written<Seq<RowModel>>
    decreases q,
{
    match q {
        QueryModel::Insert { table, row } => without_rows(
            whole(executor::inserted(c, trees, table, row), trees),
        ),
        QueryModel::Select { table, projection, predicate, options } => {
            let tables = join_builder::tables_read(table, Seq::empty(), options.joins);
            if !join_builder::all_listed(trees, tables) {
                executor::refused(schema::no_primary_key(), trees)
            } else {
                let states = select_pipeline::materialized(trees, table, options.joins);
                let cached = match predicate {
                    None => Written {
                        result: Ok(CacheModel::empty()),
                        trees,
                        events: Seq::empty(),
                    },
                    Some(p) => subqueries_run(f, c, p, CacheModel::empty(), trees),
                };
                Written {
                    result: match cached.result {
                        Err(e) => Err(e),
                        Ok(cache) => select_orchestrator::selected_rows(
                            f,
                            states,
                            projection,
                            predicate,
                            options,
                            cache,
                        ),
                    },
                    trees: cached.trees,
                    events: cached.events,
                }
            }
        },
        QueryModel::Update { table, assignments, predicate, joins, from_tables, returning } =>
            whole(
            executor::updated(
                f,
                c,
                trees,
                table,
                assignments,
                predicate,
                joins,
                from_tables,
                returning,
            ),
            trees,
        ),
        QueryModel::Delete { table, predicate, returning } => whole(
            executor::deleted(c, trees, table, predicate, returning),
            trees,
        ),
    }
}

/// What the subqueries of a condition give, each run once, from left to right.
pub open spec fn subqueries_run<F: Fn(FloatOp) -> u64>(
    f: F,
    c: CatalogModel,
    p: PredicateModel,
    cache: CacheModel,
    trees: Trees,
) -> Written<CacheModel>
    decreases p,
{
    match p {
        PredicateModel::InSubquery { expr, subquery, negated } => if cache.contains_key(*subquery) {
            Written { result: Ok(cache), trees, events: Seq::empty() }
        } else {
            let ran = run_of(f, c, *subquery, trees);
            Written {
                result: match ran.result {
                    Err(e) => Err(e),
                    Ok(rows) => Ok(cache.insert(*subquery, first_values(rows))),
                },
                trees: ran.trees,
                events: ran.events,
            }
        },
        PredicateModel::And(left, right) => {
            let first = subqueries_run(f, c, *left, cache, trees);
            match first.result {
                Err(_) => first,
                Ok(cache) => {
                    let second = subqueries_run(f, c, *right, cache, first.trees);
                    Written {
                        result: second.result,
                        trees: second.trees,
                        events: first.events + second.events,
                    }
                },
            }
        },
        PredicateModel::Or(left, right) => {
            let first = subqueries_run(f, c, *left, cache, trees);
            match first.result {
                Err(_) => first,
                Ok(cache) => {
                    let second = subqueries_run(f, c, *right, cache, first.trees);
                    Written {
                        result: second.result,
                        trees: second.trees,
                        events: first.events + second.events,
                    }
                },
            }
        },
        PredicateModel::Not(inner) => subqueries_run(f, c, *inner, cache, trees),
        _ => Written { result: Ok(cache), trees, events: Seq::empty() },
    }
}

/// What is projected of rows.
pub open spec fn projected_rows(rows: Seq<RowModel>, projection: Seq<usize>) -> Result<
    Seq<RowModel>,
    ErrorModel,
> {
    plain::collected(rows, |row: RowModel| catalog::projected_row(row, projection))
}

/// The rows that an index gives for a condition on a table, if there is such
/// an index and it gives any.
pub open spec fn indexed_rows(
    c: CatalogModel,
    trees: Trees,
    table: Seq<char>,
    predicate: Option<PredicateModel>,
) -> Result<Option<Seq<RowModel>>, ErrorModel> {
    match predicate {
        None => Ok(None),
        Some(p) => match catalog::index_for(catalog::indexes_of(c.indexes, table), p) {
            None => Ok(None),
            Some(index) => match store_helpers::looked_up(trees, index, p) {
                Err(e) => Err(e),
                Ok(keys) => {
                    let rows = store_helpers::rows_under(trees, table, keys);
                    if rows.len() == 0 {
                        Ok(None)
                    } else {
                        Ok(Some(rows))
                    }
                },
            },
        },
    }
}

/// What a read of one table gives: from an index that gives rows, or else from
/// a scan.
pub open spec fn read_of(
    c: CatalogModel,
    trees: Trees,
    table: Seq<char>,
    projection: Seq<usize>,
    predicate: Option<PredicateModel>,
) -> Result<Seq<RowModel>, ErrorModel> {
    match catalog::table_of(c, table) {
        Err(e) => Err(e),
        Ok(_) => match indexed_rows(c, trees, table, predicate) {
            Err(e) => Err(e),
            Ok(Some(rows)) => projected_rows(rows, projection),
            Ok(None) => match store_helpers::rows_found(trees, table, predicate) {
                Err(e) => Err(e),
                Ok(rows) => projected_rows(join_builder::rows_only(rows), projection),
            },
        },
    }
}

/// Changes that follow others: those others come first.
pub open spec fn continues(events: Seq<EventModel>, first: Seq<EventModel>) -> bool {
    first.len() <= events.len() && events.take(first.len() as int) == first
}

proof fn lemma_continues(events: Seq<EventModel>, a: Seq<EventModel>, b: Seq<EventModel>)
    ensures
        continues(a, a),
        a.skip(a.len() as int) == Seq::<EventModel>::empty(),
        continues(events, a + b) ==> continues(events, a) && continues(
            events.skip(a.len() as int),
            b,
        ) && events.skip(a.len() as int).skip(b.len() as int) == events.skip(
            (a + b).len() as int,
        ),
{
    assert(a.take(a.len() as int) =~= a);
    if continues(events, a + b) {
        let both = events.take((a + b).len() as int);
        assert(events.take(a.len() as int) =~= both.take(a.len() as int));
        assert((a + b).take(a.len() as int) =~= a);
        assert(events.skip(a.len() as int).take(b.len() as int) =~= both.skip(a.len() as int));
        assert((a + b).skip(a.len() as int) =~= b);
        assert(events.skip(a.len() as int).skip(b.len() as int) =~= events.skip(
            (a + b).len() as int,
        ));
    }
}

/// What a query may leave that a fault of the store broke off. A statement leaves
/// everything as it was. So does a selection, but for what its subqueries did
/// that had come to their end.
pub open spec fn broke_off<F: Fn(FloatOp) -> u64>(
    f: F,
    c: CatalogModel,
    q: QueryModel,
    before: Trees,
    trees: Trees,
    events: Seq<EventModel>,
) -> bool
    decreases q,
{
    (trees == before && events.len() == 0) || (q matches QueryModel::Select {
        predicate: Some(p),
        ..
    } && condition_broke_off(f, c, p, CacheModel::empty(), before, trees, events))
}

/// What the subqueries of a condition may leave that a fault of the store broke
/// off.
pub open spec fn condition_broke_off<F: Fn(FloatOp) -> u64>(
    f: F,
    c: CatalogModel,
    p: PredicateModel,
    cache: CacheModel,
    before: Trees,
    trees: Trees,
    events: Seq<EventModel>,
) -> bool
    decreases p,
{
    match p {
        PredicateModel::InSubquery { expr, subquery, negated } => broke_off(
            f,
            c,
            *subquery,
            before,
            trees,
            events,
        ),
        PredicateModel::And(left, right) => {
            let first = subqueries_run(f, c, *left, cache, before);
            condition_broke_off(f, c, *left, cache, before, trees, events) || (first.result is Ok
                && continues(events, first.events) && condition_broke_off(
                f,
                c,
                *right,
                first.result->Ok_0,
                first.trees,
                trees,
                events.skip(first.events.len() as int),
            ))
        },
        PredicateModel::Or(left, right) => {
            let first = subqueries_run(f, c, *left, cache, before);
            condition_broke_off(f, c, *left, cache, before, trees, events) || (first.result is Ok
                && continues(events, first.events) && condition_broke_off(
                f,
                c,
                *right,
                first.result->Ok_0,
                first.trees,
                trees,
                events.skip(first.events.len() as int),
            ))
        },
        PredicateModel::Not(inner) => condition_broke_off(
            f,
            c,
            *inner,
            cache,
            before,
            trees,
            events,
        ),
        _ => false,
    }
}

proof fn lemma_index_for_key(indexes: Seq<IndexModel>, p: PredicateModel)
    ensures
        catalog::index_for(indexes, p) matches Some(index)
            ==> predicate::index_key_for(p, index) is Some,
    decreases indexes.len(),
{
    if indexes.len() > 0 {
        lemma_index_for_key(indexes.drop_first(), p);
    }
}

fn keep_first_values(rows: &Vec<EngineRow>) -> (r: Vec<EngineValue>)
    ensures
        r.deep_view() == first_values(rows.deep_view()),
{
    let ghost all = rows.deep_view();
    let mut out: Vec<EngineValue> = no_items();
    let mut i: usize = 0;
    while i < rows.len()
        invariant
            i <= rows.len(),
            all == rows.deep_view(),
            out.deep_view() == first_values(all.take(i as int)),
        decreases rows.len() - i,
    {
        proof {
            assert(all.take(i + 1).drop_last() =~= all.take(i as int));
            assert(all.take(i + 1).last() == rows@[i as int].deep_view());
            assert(rows@[i as int].deep_view().len() == rows@[i as int].len());
        }
        if rows[i].len() > 0 {
            push_back(&mut out, rows[i][0].duplicate());
        }
        i += 1;
    }
    proof {
        assert(all.take(i as int) =~= all);
    }
    out
}

/// What is projected of rows.
fn project_rows(rows: &Vec<EngineRow>, projection: &Vec<usize>) -> (r: Result<
    EngineResult,
    EngineError,
>)
    ensures
        plain::outcome(r) == projected_rows(rows.deep_view(), projection@),
{
    let ghost all = rows.deep_view();
    let ghost f = |row: RowModel| catalog::projected_row(row, projection@);
    let mut out: Vec<EngineRow> = no_items();
    let mut i: usize = 0;
    while i < rows.len()
        invariant
            i <= rows.len(),
            all == rows.deep_view(),
            f == (|row: RowModel| catalog::projected_row(row, projection@)),
            plain::collected(all.take(i as int), f) == Ok::<Seq<RowModel>, ErrorModel>(
                out.deep_view(),
            ),
        decreases rows.len() - i,
    {
        proof {
            plain::lemma_collected_step(all, f, i as int);
            assert(f(all[i as int]) == catalog::projected_row(
                rows@[i as int].deep_view(),
                projection@,
            ));
        }
        match catalog::project_row(&rows[i], projection) {
            Ok(row) => {
                push_back(&mut out, row);
            },
            Err(e) => {
                return Err(e);
            },
        }
        i += 1;
    }
    proof {
        assert(all.take(i as int) =~= all);
    }
    Ok(EngineResult::new(out))
}

/// A store with the catalog of its tables, the arithmetic on doubles that
/// queries use, and the changes that listeners have not heard of yet.
pub struct EngineKernel<S, F> {
    pub store: S,
    pub catalog: EngineCatalog,
    pub float: F,
    pub events: Vec<ChangeEvent>,
}

impl<S: EngineStore, F: Fn(FloatOp) -> u64> EngineKernel<S, F> {
    /// Queries can be run: there is arithmetic for them.
    pub open spec fn ready(&self) -> bool {
        float::is_float_unit(self.float)
    }

    /// A store whose catalog is taken to be empty.
    pub fn new(store: S, float: F) -> (r: EngineKernel<S, F>)
        ensures
            r.store == store,
            r.float == float,
            r.catalog.deep_view() == catalog::empty_catalog(),
            r.events.deep_view() == Seq::<EventModel>::empty(),
    {
        EngineKernel { store, catalog: EngineCatalog::new(), float, events: no_items() }
    }

    /// A store with the catalog that it keeps.
    pub fn open(store: S, float: F) -> (r: Result<EngineKernel<S, F>, EngineError>)
        ensures
            match r {
                Ok(kernel) => kernel.store == store && kernel.float == float
                    && catalog::loaded_catalog(store.trees()) == Ok::<CatalogModel, ErrorModel>(
                    kernel.catalog.deep_view(),
                ) && kernel.events.deep_view() == Seq::<EventModel>::empty(),
                Err(e) => (error::is_fault(r) && !store.sound()) || catalog::loaded_catalog(
                    store.trees(),
                ) == Err::<CatalogModel, ErrorModel>(e.deep_view()),
            },
    {
        let mut kernel = EngineKernel::new(store, float);
        match kernel.load_schema() {
            Ok(()) => Ok(kernel),
            Err(e) => Err(e),
        }
    }

    /// Takes over the catalog that the store keeps.
    pub fn load_schema(&mut self) -> (r: Result<(), EngineError>)
        ensures
            final(self).store == old(self).store,
            final(self).float == old(self).float,
            final(self).events == old(self).events,
            match r {
                Ok(_) => catalog::loaded_catalog(old(self).store.trees()) == Ok::<
                    CatalogModel,
                    ErrorModel,
                >(final(self).catalog.deep_view()),
                Err(e) => final(self).catalog.deep_view() == old(self).catalog.deep_view() && ((
                error::is_fault(r) && !old(self).store.sound()) || catalog::loaded_catalog(
                    old(self).store.trees(),
                ) == Err::<CatalogModel, ErrorModel>(e.deep_view())),
            },
    {
        self.catalog.load_from_store(&self.store)
    }

    /// The table of that name.
    pub fn table(&self, table_name: &str) -> (r: Result<&TableSchema, EngineError>)
        ensures
            match r {
                Ok(table) => catalog::table_of(self.catalog.deep_view(), table_name@) == Ok::<
                    TableModel,
                    ErrorModel,
                >(table.deep_view()),
                Err(e) => catalog::table_of(self.catalog.deep_view(), table_name@) == Err::<
                    TableModel,
                    ErrorModel,
                >(e.deep_view()),
            },
    {
        self.catalog.table(table_name)
    }

    /// Registers a table.
    pub fn register_table(&mut self, schema: TableSchema) -> (r: Result<(), EngineError>)
        ensures
            final(self).float == old(self).float,
            final(self).events == old(self).events,
            final(self).store.sound() == old(self).store.sound(),
            catalog::registers(
                r,
                old(self).store.sound(),
                old(self).store.trees(),
                final(self).catalog.deep_view(),
                final(self).store.trees(),
                catalog::table_registered(
                    old(self).store.trees(),
                    old(self).catalog.deep_view(),
                    schema.deep_view(),
                ),
            ),
    {
        self.catalog.register_table(&mut self.store, schema)
    }

    /// Drops a table with its rows and indexes.
    pub fn drop_table(&mut self, table_name: &str) -> (r: Result<(), EngineError>)
        ensures
            final(self).float == old(self).float,
            final(self).events == old(self).events,
            final(self).store.sound() == old(self).store.sound(),
            catalog::registers(
                r,
                old(self).store.sound(),
                old(self).store.trees(),
                final(self).catalog.deep_view(),
                final(self).store.trees(),
                catalog::table_dropped(
                    old(self).store.trees(),
                    old(self).catalog.deep_view(),
                    table_name@,
                ),
            ),
    {
        self.catalog.drop_table(&mut self.store, table_name)
    }

    /// Registers an index.
    pub fn register_index(&mut self, schema: IndexSchema) -> (r: Result<(), EngineError>)
        ensures
            final(self).float == old(self).float,
            final(self).events == old(self).events,
            final(self).store.sound() == old(self).store.sound(),
            catalog::registers(
                r,
                old(self).store.sound(),
                old(self).store.trees(),
                final(self).catalog.deep_view(),
                final(self).store.trees(),
                catalog::index_registered(
                    old(self).store.trees(),
                    old(self).catalog.deep_view(),
                    schema.deep_view(),
                ),
            ),
    {
        self.catalog.register_index(&mut self.store, schema)
    }

    /// Drops an index.
    pub fn drop_index(&mut self, index_name: &str) -> (r: Result<(), EngineError>)
        ensures
            final(self).float == old(self).float,
            final(self).events == old(self).events,
            final(self).store.sound() == old(self).store.sound(),
            catalog::registers(
                r,
                old(self).store.sound(),
                old(self).store.trees(),
                final(self).catalog.deep_view(),
                final(self).store.trees(),
                catalog::index_dropped(
                    old(self).store.trees(),
                    old(self).catalog.deep_view(),
                    index_name@,
                ),
            ),
    {
        self.catalog.drop_index(&mut self.store, index_name)
    }

    /// A transaction that has not begun.
    pub fn writer(&mut self) -> (r: EngineWriteTxn<'_, S>)
        ensures
            *r.store == old(self).store,
            *final(r.store) == final(self).store,
            r.catalog == &old(self).catalog,
            r.lifecycle is Uninitialized,
            r.pending_events.deep_view() == Seq::<EventModel>::empty(),
            final(self).catalog == old(self).catalog,
            final(self).float == old(self).float,
            final(self).events == old(self).events,
    {
        EngineWriteTxn::new(&mut self.store, &self.catalog)
    }

    /// The rows of one table that meet a condition.
    pub fn read(
        &self,
        table_name: &str,
        projection: &Vec<usize>,
        predicate: Option<&QualifiedPredicate>,
    ) -> (r: Result<EngineResult, EngineError>)
        ensures
            error::settles(
                r,
                self.store.sound(),
                read_of(
                    self.catalog.deep_view(),
                    self.store.trees(),
                    table_name@,
                    projection@,
                    predicate.deep_view(),
                ),
            ),
    {
        match self.catalog.table(table_name) {
            Ok(_) => {},
            Err(e) => {
                return Err(e);
            },
        }
        let tx = self.store.engine_transaction();
        proof {
            patch::law_empty_patch(self.store.trees());
        }
        if let Some(p) = predicate {
            if let Some(index) = self.catalog.find_index_for_predicate(table_name, p) {
                proof {
                    lemma_index_for_key(
                        catalog::indexes_of(self.catalog.deep_view().indexes, table_name@),
                        p.deep_view(),
                    );
                }
                let row_pks = match lookup_index_row_pks(&tx, &index, p) {
                    Ok(row_pks) => row_pks,
                    Err(e) => {
                        return Err(e);
                    },
                };
                let rows = match materialize_rows_by_primary_keys(&tx, table_name, &row_pks) {
                    Ok(rows) => rows,
                    Err(e) => {
                        return Err(e);
                    },
                };
                assert(rows.len() == rows.deep_view().len());
                if rows.len() > 0 {
                    return project_rows(&rows, projection);
                }
            }
        }
        match collect_table_rows(&tx, table_name, predicate) {
            Ok(entries) => project_rows(&join_builder::only_rows(&entries), projection),
            Err(e) => Err(e),
        }
    }

    /// Runs the subqueries of a condition that have not been run yet.
    fn run_subqueries(&mut self, predicate: &QualifiedPredicate, context: &mut EvalContext) -> (r:
        Result<(), EngineError>)
        requires
            old(self).ready(),
        ensures
            final(self).catalog == old(self).catalog,
            final(self).float == old(self).float,
            final(self).store.sound() == old(self).store.sound(),
            ({
                let exact = subqueries_run(
                    old(self).float,
                    old(self).catalog.deep_view(),
                    predicate.deep_view(),
                    old(context).deep_view(),
                    old(self).store.trees(),
                );
                (error::is_fault(r) && !old(self).store.sound() && continues(
                    final(self).events.deep_view(),
                    old(self).events.deep_view(),
                ) && condition_broke_off(
                    old(self).float,
                    old(self).catalog.deep_view(),
                    predicate.deep_view(),
                    old(context).deep_view(),
                    old(self).store.trees(),
                    final(self).store.trees(),
                    final(self).events.deep_view().skip(
                        old(self).events.deep_view().len() as int,
                    ),
                )) || (final(self).store.trees()
                    == exact.trees && final(self).events.deep_view() == old(
                    self
                ).events.deep_view() + exact.events && match r {
                    Ok(_) => exact.result == Ok::<CacheModel, ErrorModel>(
                        final(context).deep_view(),
                    ),
                    Err(e) => exact.result == Err::<CacheModel, ErrorModel>(e.deep_view()),
                })
            }),
        decreases predicate,
    {
        let ghost before = self.events.deep_view();
        proof {
            assert(before + Seq::<EventModel>::empty() =~= before);
            lemma_continues(before, before, Seq::empty());
        }
        match predicate {
            QualifiedPredicate::InSubquery { expr: _, subquery, negated: _ } => {
                if context.get(&**subquery).is_some() {
                    return Ok(());
                }
                match self.run(&**subquery) {
                    Ok(result) => {
                        let values = keep_first_values(&result.rows);
                        context.record((**subquery).duplicate(), values);
                        Ok(())
                    },
                    Err(e) => Err(e),
                }
            },
            QualifiedPredicate::And(left, right) | QualifiedPredicate::Or(left, right) => {
                match self.run_subqueries(&**left, context) {
                    Ok(()) => {},
                    Err(e) => {
                        return Err(e);
                    },
                }
                let ghost middle = self.events.deep_view();
                let done = self.run_subqueries(&**right, context);
                proof {
                    let first = subqueries_run(
                        old(self).float,
                        old(self).catalog.deep_view(),
                        left.deep_view(),
                        old(context).deep_view(),
                        old(self).store.trees(),
                    );
                    assert(middle == before + first.events);
                    lemma_continues(self.events.deep_view(), before, first.events);
                    assert forall|a: Seq<EventModel>, b: Seq<EventModel>|
                        (before + a) + b == #[trigger] (before + (a + b)) by {
                        assert((before + a) + b =~= before + (a + b));
                    }
                }
                done
            },
            QualifiedPredicate::Not(inner) => self.run_subqueries(&**inner, context),
            _ => Ok(()),
        }
    }

    /// The rows of a selection.
    fn read_extended(
        &mut self,
        base_table: &str,
        projection: &Vec<QualifiedColumn>,
        predicate: Option<&QualifiedPredicate>,
        options: &SelectOptions,
        Ghost(query): Ghost<QueryModel>,
    ) -> (r: Result<EngineResult, EngineError>)
        requires
            old(self).ready(),
            query == (QueryModel::Select {
                table: base_table@,
                projection: projection.deep_view(),
                predicate: predicate.deep_view(),
                options: options.deep_view(),
            }),
        ensures
            final(self).catalog == old(self).catalog,
            final(self).float == old(self).float,
            final(self).store.sound() == old(self).store.sound(),
            ran(
                old(self).float,
                old(self).catalog.deep_view(),
                query,
                r,
                old(self).store.sound(),
                (old(self).store.trees(), old(self).events.deep_view()),
                (final(self).store.trees(), final(self).events.deep_view()),
            ),
        decreases predicate,
    {
        let ghost before = self.events.deep_view();
        proof {
            assert(before + Seq::<EventModel>::empty() =~= before);
            lemma_continues(before, before, Seq::empty());
            patch::law_empty_patch(self.store.trees());
        }
        let tx = self.store.engine_transaction();
        let states = match materialize_joined_rows(&tx, base_table, &options.joins) {
            Ok(states) => states,
            Err(e) => {
                return Err(e);
            },
        };
        let mut context = EvalContext::empty();
        if let Some(p) = predicate {
            match self.run_subqueries(p, &mut context) {
                Ok(()) => {},
                Err(e) => {
                    return Err(e);
                },
            }
        }
        finish_select(states, projection, predicate, options, &context, &self.float)
    }

    /// Runs a query. A statement that fails changes nothing.
    pub fn run(&mut self, query: &EngineQuery) -> (r: Result<EngineResult, EngineError>)
        requires
            old(self).ready(),
        ensures
            final(self).catalog == old(self).catalog,
            final(self).float == old(self).float,
            final(self).store.sound() == old(self).store.sound(),
            ran(
                old(self).float,
                old(self).catalog.deep_view(),
                query.deep_view(),
                r,
                old(self).store.sound(),
                (old(self).store.trees(), old(self).events.deep_view()),
                (final(self).store.trees(), final(self).events.deep_view()),
            ),
            r is Err && !(query.deep_view() is Select) ==> final(self).store.trees() == old(
                self
            ).store.trees() && final(self).events.deep_view() == old(self).events.deep_view(),
        decreases query,
    {
        let ghost before = self.events.deep_view();
        proof {
            assert(before + Seq::<EventModel>::empty() =~= before);
            lemma_continues(before, before, Seq::empty());
        }
        match query {
            EngineQuery::Insert { table, row } => {
                let mut writer = self.writer();
                match writer.insert(table.as_str(), row.duplicate()) {
                    Ok(()) => {
                        let done = writer.commit();
                        self.settle(done, EngineResult::default())
                    },
                    Err(error) => {
                        let _ = writer.rollback();
                        Err(error)
                    },
                }
            },
            EngineQuery::Select { table, projection, predicate, options } => {
                let condition: Option<&QualifiedPredicate> = match predicate {
                    Some(p) => Some(p),
                    None => None,
                };
                self.read_extended(
                    table.as_str(),
                    projection,
                    condition,
                    &**options,
                    Ghost(query.deep_view()),
                )
            },
            EngineQuery::Update { table, assignments, predicate, joins, from_tables, returning } => {
                let condition: Option<&QualifiedPredicate> = match predicate {
                    Some(p) => Some(p),
                    None => None,
                };
                let mut writer = EngineWriteTxn::new(&mut self.store, &self.catalog);
                match writer.update(
                    table.as_str(),
                    assignments,
                    condition,
                    joins,
                    from_tables,
                    returning,
                    &self.float,
                ) {
                    Ok(rows) => {
                        let done = writer.commit();
                        self.settle(done, EngineResult::new(rows))
                    },
                    Err(error) => {
                        let _ = writer.rollback();
                        Err(error)
                    },
                }
            },
            EngineQuery::Delete { table, predicate, returning } => {
                let condition: Option<&QualifiedPredicate> = match predicate {
                    Some(p) => Some(p),
                    None => None,
                };
                let mut writer = self.writer();
                match writer.delete(table.as_str(), condition, returning) {
                    Ok(rows) => {
                        let done = writer.commit();
                        self.settle(done, EngineResult::new(rows))
                    },
                    Err(error) => {
                        let _ = writer.rollback();
                        Err(error)
                    },
                }
            },
        }
    }

    /// Keeps the changes of a commit for the listeners.
    fn settle(&mut self, done: Result<Vec<ChangeEvent>, EngineError>, result: EngineResult) -> (r: Result<
        EngineResult,
        EngineError,
    >)
        ensures
            final(self).store == old(self).store,
            final(self).catalog == old(self).catalog,
            final(self).float == old(self).float,
            match done {
                Ok(events) => r == Ok::<EngineResult, EngineError>(result) && final(
                    self
                ).events.deep_view() == old(self).events.deep_view() + events.deep_view(),
                Err(e) => r == Err::<EngineResult, EngineError>(e) && final(self).events == old(
                    self
                ).events,
            },
    {
        match done {
            Ok(events) => {
                executor::append_events(&mut self.events, events);
                Ok(result)
            },
            Err(e) => Err(e),
        }
    }

    /// Hands out the changes that listeners have not heard of.
    pub fn take_events(&mut self) -> (r: Vec<ChangeEvent>)
        ensures
            r == old(self).events,
            final(self).events.deep_view() == Seq::<EventModel>::empty(),
            final(self).store == old(self).store,
            final(self).catalog == old(self).catalog,
            final(self).float == old(self).float,
    {
        let mut events: Vec<ChangeEvent> = no_items();
        std::mem::swap(&mut events, &mut self.events);
        events
    }
}

/// A query gave what it should, or the store below, which is not sound, failed.
pub open spec fn ran<F: Fn(FloatOp) -> u64>(
    f: F,
    c: CatalogModel,
    q: QueryModel,
    r: Result<EngineResult, EngineError>,
    sound: bool,
    before: (Trees, Seq<EventModel>),
    after: (Trees, Seq<EventModel>),
) -> bool {
    let exact = run_of(f, c, q, before.0);
    (error::is_fault(r) && !sound && continues(after.1, before.1) && broke_off(
        f,
        c,
        q,
        before.0,
        after.0,
        after.1.skip(before.1.len() as int),
    )) || (plain::outcome(r) == exact.result && after.0 == exact.trees && after.1 == before.1
        + exact.events)
}

} // verus!
