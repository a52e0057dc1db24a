//! What selections see: the rows of their tables, as far as no condition screens
//! them, and nothing else.
use vstd::prelude::*;
use crate::access_control::{self, ScopeModel};
use crate::catalog::CatalogModel;
use crate::change_event::EventModel;
use crate::float::FloatOp;
use crate::hiding_laws::{self, Hiding};
use crate::join_builder;
use crate::planner;
use crate::predicate::{self, CacheModel, StateModel};
use crate::query::{self, PredicateModel, QueryModel};
use crate::select_orchestrator;
use crate::select_pipeline;
use crate::store::{self, KeyModel, RowModel, Trees};
use crate::store_helpers;
use crate::subscriptions;

verus! {

/// A query reads and does not write: it is a selection, and so are its
/// subqueries.
pub open spec fn reads_only(q: QueryModel) -> bool
    decreases q,
{
    match q {
        QueryModel::Select { predicate: Some(p), .. } => condition_reads(p),
        QueryModel::Select { predicate: None, .. } => true,
        _ => false,
    }
}

/// The subqueries of a condition read and do not write.
pub open spec fn condition_reads(p: PredicateModel) -> bool
    decreases p,
{
    match p {
        PredicateModel::InSubquery { subquery, .. } => reads_only(*subquery),
        PredicateModel::And(a, b) => condition_reads(*a) && condition_reads(*b),
        PredicateModel::Or(a, b) => condition_reads(*a) && condition_reads(*b),
        PredicateModel::Not(a) => condition_reads(*a),
        _ => true,
    }
}

/// Trees hold the same rows of some tables.
pub open spec fn same_rows(a: Trees, b: Trees, tables: Seq<Seq<char>>) -> bool {
    forall|t: Seq<char>| #[trigger]
        tables.contains(t) ==> store::table_rows(a, t) == store::table_rows(b, t)
}

/// Law: a query that reads only leaves the trees as they are, and nobody hears
/// of it.
pub proof fn law_read_changes_nothing<F: Fn(FloatOp) -> u64>(
    f: F,
    c: CatalogModel,
    q: QueryModel,
    trees: Trees,
)
    requires
        reads_only(q),
    ensures
        planner::run_of(f, c, q, trees).trees == trees,
        planner::run_of(f, c, q, trees).events == Seq::<EventModel>::empty(),
    decreases q,
{
    if let QueryModel::Select { predicate: Some(p), .. } = q {
        lemma_condition_changes_nothing(f, c, p, CacheModel::empty(), trees);
    }
}

/// A condition whose subqueries read only leaves the trees as they are.
pub proof fn lemma_condition_changes_nothing<F: Fn(FloatOp) -> u64>(
    f: F,
    c: CatalogModel,
    p: PredicateModel,
    cache: CacheModel,
    trees: Trees,
)
    requires
        condition_reads(p),
    ensures
        planner::subqueries_run(f, c, p, cache, trees).trees == trees,
        planner::subqueries_run(f, c, p, cache, trees).events == Seq::<EventModel>::empty(),
    decreases p,
{
    match p {
        PredicateModel::InSubquery { subquery, .. } => {
            law_read_changes_nothing(f, c, *subquery, trees);
        },
        PredicateModel::And(a, b) => {
            lemma_condition_changes_nothing(f, c, *a, cache, trees);
            if let Ok(more) = planner::subqueries_run(f, c, *a, cache, trees).result {
                lemma_condition_changes_nothing(f, c, *b, more, trees);
            }
        },
        PredicateModel::Or(a, b) => {
            lemma_condition_changes_nothing(f, c, *a, cache, trees);
            if let Ok(more) = planner::subqueries_run(f, c, *a, cache, trees).result {
                lemma_condition_changes_nothing(f, c, *b, more, trees);
            }
        },
        PredicateModel::Not(a) => {
            lemma_condition_changes_nothing(f, c, *a, cache, trees);
        },
        _ => {},
    }
}

/// Law: a query that reads only leaves everything as it was also where a fault of
/// the store breaks it off.
pub proof fn law_broken_read_changes_nothing<F: Fn(FloatOp) -> u64>(
    f: F,
    c: CatalogModel,
    q: QueryModel,
    before: Trees,
    trees: Trees,
    events: Seq<EventModel>,
)
    requires
        reads_only(q),
        planner::broke_off(f, c, q, before, trees, events),
    ensures
        trees == before,
        events == Seq::<EventModel>::empty(),
    decreases q,
{
    if let QueryModel::Select { predicate: Some(p), .. } = q {
        if !(trees == before && events.len() == 0) {
            lemma_broken_condition(f, c, p, CacheModel::empty(), before, trees, events);
        }
    }
}

proof fn lemma_broken_condition<F: Fn(FloatOp) -> u64>(
    f: F,
    c: CatalogModel,
    p: PredicateModel,
    cache: CacheModel,
    before: Trees,
    trees: Trees,
    events: Seq<EventModel>,
)
    requires
        condition_reads(p),
        planner::condition_broke_off(f, c, p, cache, before, trees, events),
    ensures
        trees == before,
        events == Seq::<EventModel>::empty(),
    decreases p,
{
    match p {
        PredicateModel::InSubquery { subquery, .. } => {
            law_broken_read_changes_nothing(f, c, *subquery, before, trees, events);
        },
        PredicateModel::And(a, b) | PredicateModel::Or(a, b) => {
            if planner::condition_broke_off(f, c, *a, cache, before, trees, events) {
                lemma_broken_condition(f, c, *a, cache, before, trees, events);
            } else {
                let first = planner::subqueries_run(f, c, *a, cache, before);
                lemma_condition_changes_nothing(f, c, *a, cache, before);
                assert(events.skip(0) =~= events);
                lemma_broken_condition(
                    f,
                    c,
                    *b,
                    first.result->Ok_0,
                    first.trees,
                    trees,
                    events,
                );
            }
        },
        PredicateModel::Not(a) => {
            lemma_broken_condition(f, c, *a, cache, before, trees, events);
        },
        _ => {},
    }
}

/// Law: what a query gives that reads only depends on the rows of the tables
/// that it refers to, and on nothing else that is stored.
pub proof fn law_read_sees_its_tables<F: Fn(FloatOp) -> u64>(
    f: F,
    c: CatalogModel,
    q: QueryModel,
    a: Trees,
    b: Trees,
)
    requires
        reads_only(q),
        same_rows(a, b, query::query_tables(q)),
    ensures
        planner::run_of(f, c, q, a).result == planner::run_of(f, c, q, b).result,
    decreases q,
{
    if let QueryModel::Select { table, predicate, options, .. } = q {
        let sources = query::source_tables(q);
        let tables = join_builder::tables_read(table, Seq::empty(), options.joins);
        assert(query::with_names(seq![table], Seq::empty()) =~= seq![table]);
        assert(tables == sources);
        if let Some(p) = predicate {
            lemma_same_rows_parts(a, b, sources, query::subquery_tables(p));
        }
        assert(join_builder::rows_by_table(a, tables) =~= join_builder::rows_by_table(b, tables));
        assert(select_pipeline::materialized(a, table, options.joins)
            == select_pipeline::materialized(b, table, options.joins));
        if let Some(p) = predicate {
            lemma_condition_sees_its_tables(f, c, p, CacheModel::empty(), a, b);
        }
    }
}

pub proof fn lemma_condition_sees_its_tables<F: Fn(FloatOp) -> u64>(
    f: F,
    c: CatalogModel,
    p: PredicateModel,
    cache: CacheModel,
    a: Trees,
    b: Trees,
)
    requires
        condition_reads(p),
        same_rows(a, b, query::subquery_tables(p)),
    ensures
        planner::subqueries_run(f, c, p, cache, a).result == planner::subqueries_run(
            f,
            c,
            p,
            cache,
            b,
        ).result,
    decreases p,
{
    match p {
        PredicateModel::InSubquery { subquery, .. } => {
            law_read_sees_its_tables(f, c, *subquery, a, b);
        },
        PredicateModel::And(x, y) => {
            lemma_same_rows_parts(a, b, query::subquery_tables(*x), query::subquery_tables(*y));
            lemma_condition_changes_nothing(f, c, *x, cache, a);
            lemma_condition_changes_nothing(f, c, *x, cache, b);
            lemma_condition_sees_its_tables(f, c, *x, cache, a, b);
            if let Ok(more) = planner::subqueries_run(f, c, *x, cache, a).result {
                lemma_condition_sees_its_tables(f, c, *y, more, a, b);
            }
        },
        PredicateModel::Or(x, y) => {
            lemma_same_rows_parts(a, b, query::subquery_tables(*x), query::subquery_tables(*y));
            lemma_condition_changes_nothing(f, c, *x, cache, a);
            lemma_condition_changes_nothing(f, c, *x, cache, b);
            lemma_condition_sees_its_tables(f, c, *x, cache, a, b);
            if let Ok(more) = planner::subqueries_run(f, c, *x, cache, a).result {
                lemma_condition_sees_its_tables(f, c, *y, more, a, b);
            }
        },
        PredicateModel::Not(x) => {
            lemma_condition_sees_its_tables(f, c, *x, cache, a, b);
        },
        _ => {},
    }
}

proof fn lemma_same_rows_parts(a: Trees, b: Trees, left: Seq<Seq<char>>, right: Seq<Seq<char>>)
    requires
        same_rows(a, b, query::with_names(left, right)),
    ensures
        same_rows(a, b, left),
        same_rows(a, b, right),
{
    assert forall|t: Seq<char>| #[trigger] left.contains(t) implies store::table_rows(a, t)
        == store::table_rows(b, t) by {
        query::lemma_with_names_has(left, right, t);
        assert(query::with_names(left, right).contains(t));
    }
    assert forall|t: Seq<char>| #[trigger] right.contains(t) implies store::table_rows(a, t)
        == store::table_rows(b, t) by {
        query::lemma_with_names_has(left, right, t);
        assert(query::with_names(left, right).contains(t));
    }
}

/// A condition of a scope screens the rows of a table: a selection under the
/// scope sees no row of the table that does not meet it.
pub open spec fn is_screened(scope: ScopeModel, q: QueryModel, table: Seq<char>) -> bool {
    &&& query::query_tables(q).contains(table)
    &&& scope.filters.contains_key(table)
    &&& predicate::within_table(scope.filters[table], table)
    &&& subscriptions::sees_met_rows_only(q, table)
}

/// Trees hold the same rows of a table, as far as a selection under a scope sees
/// them, and both let them be listed or neither does.
pub open spec fn seen_alike(
    scope: ScopeModel,
    q: QueryModel,
    a: Trees,
    b: Trees,
    table: Seq<char>,
) -> bool {
    store::table_rows(a, table) == store::table_rows(b, table) || (is_screened(scope, q, table)
        && store_helpers::matching_rows(a, table, Some(scope.filters[table]))
        == store_helpers::matching_rows(b, table, Some(scope.filters[table]))
        && store::keys_fit(store::table_rows(a, table)) == store::keys_fit(
        store::table_rows(b, table),
    ))
}

/// The conditions of a scope that screen rows from a selection.
pub open spec fn screens(scope: ScopeModel, q: QueryModel) -> Hiding {
    Map::new(|t: Seq<char>| is_screened(scope, q, t), |t: Seq<char>| scope.filters[t])
}

/// The rows of entries that meet a condition.
proof fn lemma_rows_kept(
    list: Seq<(KeyModel, RowModel)>,
    hiding: Hiding,
    table: Seq<char>,
)
    requires
        hiding.contains_key(table),
    ensures
        ({
            let p = |entry: (KeyModel, RowModel)|
                store_helpers::meets(Some(hiding[table]), table, entry.1);
            store_helpers::kept(
                join_builder::rows_only(list),
                hiding_laws::row_shown(hiding, table),
            ) == join_builder::rows_only(store_helpers::kept(list, p))
        }),
    decreases list.len(),
{
    let p = |entry: (KeyModel, RowModel)|
        store_helpers::meets(Some(hiding[table]), table, entry.1);
    let rows = join_builder::rows_only(list);
    if list.len() > 0 {
        let rest = list.drop_last();
        lemma_rows_kept(rest, hiding, table);
        assert(rows.drop_last() =~= join_builder::rows_only(rest));
        assert(rows.last() == list.last().1);
        let before = store_helpers::kept(rest, p);
        assert(join_builder::rows_only(before.push(list.last())) =~= join_builder::rows_only(
            before,
        ).push(rows.last()));
        assert(hiding_laws::row_shown(hiding, table)(rows.last()) == p(list.last()));
    } else {
        assert(rows =~= Seq::empty());
        assert(join_builder::rows_only(store_helpers::kept(list, p)) =~= Seq::empty());
    }
}

/// Joined rows meet a condition, where there is one.
pub open spec fn admitted(p: Option<PredicateModel>, cache: CacheModel) -> spec_fn(StateModel) -> bool {
    |state: StateModel| access_control::admits(p, state, cache)
}

proof fn lemma_filtered(
    states: Seq<StateModel>,
    p: Option<PredicateModel>,
    cache: CacheModel,
)
    ensures
        select_orchestrator::filtered(states, p, cache) == store_helpers::kept(
            states,
            admitted(p, cache),
        ),
    decreases states.len(),
{
    match p {
        None => {
            store_helpers::lemma_kept_all(states, admitted(p, cache));
        },
        Some(q) => {
            if states.len() > 0 {
                lemma_filtered(states.drop_last(), p, cache);
            }
        },
    }
}

/// A source of a selection is a table that it refers to.
proof fn lemma_sources(q: QueryModel, table: Seq<char>)
    requires
        q is Select,
    ensures
        query::source_tables(q).contains(table) ==> query::query_tables(q).contains(table),
        subscriptions::sees_met_rows_only(q, table) && query::query_tables(q).contains(table)
            ==> query::source_tables(q).contains(table),
        q->Select_predicate matches Some(p) ==> (query::subquery_tables(p).contains(table)
            ==> query::query_tables(q).contains(table)),
{
    if let QueryModel::Select { predicate: Some(p), .. } = q {
        query::lemma_with_names_has(query::source_tables(q), query::subquery_tables(p), table);
    }
}

/// What meets the condition of a narrowed selection is not screened.
proof fn lemma_admitted_is_shown(
    scope: ScopeModel,
    q: QueryModel,
    state: StateModel,
    cache: CacheModel,
)
    requires
        q is Select,
        access_control::admits(
            access_control::scoped_query(scope, q)->Select_predicate,
            state,
            cache,
        ),
    ensures
        hiding_laws::shown(screens(scope, access_control::scoped_query(scope, q)))(state),
{
    let narrow = access_control::scoped_query(scope, q);
    let hiding = screens(scope, narrow);
    let sources = query::source_tables(q);
    assert(query::source_tables(narrow) == sources);
    let inner = match q->Select_predicate {
        Some(p) => Some(access_control::scoped_predicate(scope, p)),
        None => None,
    };
    access_control::law_scope_hides_rows(scope.filters, sources, inner, state, cache);
    assert forall|t: Seq<char>| !#[trigger] hiding_laws::is_hidden_in(hiding, state, t) by {
        if hiding.contains_key(t) && state.contains_key(t) && state[t] is Some {
            assert(is_screened(scope, narrow, t));
            lemma_sources(narrow, t);
            let i = choose|i: int| 0 <= i < sources.len() && sources[i] == t;
            assert(predicate::holds(scope.filters[sources[i]], state, cache));
            predicate::law_row_decides(
                scope.filters[t],
                t,
                state,
                state[t]->0,
                cache,
                CacheModel::empty(),
            );
        }
    }
}

/// Law: what a selection gives under a scope depends on the rows of its tables
/// that the conditions of the scope do not screen from it, and on nothing else
/// that is stored.
pub proof fn law_scoped_read_sees_met_rows<F: Fn(FloatOp) -> u64>(
    f: F,
    c: CatalogModel,
    scope: ScopeModel,
    q: QueryModel,
    a: Trees,
    b: Trees,
)
    requires
        reads_only(access_control::scoped_query(scope, q)),
        forall|t: Seq<char>| #[trigger]
            query::query_tables(access_control::scoped_query(scope, q)).contains(t) ==> seen_alike(
                scope,
                access_control::scoped_query(scope, q),
                a,
                b,
                t,
            ),
    ensures
        planner::run_of(f, c, access_control::scoped_query(scope, q), a).result == planner::run_of(
            f,
            c,
            access_control::scoped_query(scope, q),
            b,
        ).result,
{
    let narrow = access_control::scoped_query(scope, q);
    let hiding = screens(scope, narrow);
    if let QueryModel::Select { table, projection, predicate, options } = narrow {
        let tables = join_builder::tables_read(table, Seq::empty(), options.joins);
        assert(query::with_names(seq![table], Seq::empty()) =~= seq![table]);
        assert(tables == query::source_tables(narrow));
        assert forall|t: Seq<char>| #[trigger] tables.contains(t) implies store::keys_fit(
            store::table_rows(a, t),
        ) == store::keys_fit(store::table_rows(b, t)) by {
            lemma_sources(narrow, t);
            assert(seen_alike(scope, narrow, a, b, t));
        }
        assert(join_builder::all_listed(a, tables) == join_builder::all_listed(b, tables));
        let rows_a = join_builder::rows_by_table(a, tables);
        let rows_b = join_builder::rows_by_table(b, tables);
        let template = join_builder::template_of(tables);
        assert forall|t: Seq<char>| #[trigger]
            store_helpers::kept(
                join_builder::rows_in(rows_a, t),
                hiding_laws::row_shown(hiding, t),
            ) == store_helpers::kept(
            join_builder::rows_in(rows_b, t),
            hiding_laws::row_shown(hiding, t),
        ) by {
            if tables.contains(t) {
                lemma_sources(narrow, t);
                assert(seen_alike(scope, narrow, a, b, t));
                if store::table_rows(a, t) != store::table_rows(b, t) {
                    lemma_rows_kept(store::table_rows(a, t), hiding, t);
                    lemma_rows_kept(store::table_rows(b, t), hiding, t);
                }
            }
        }
        assert forall|t: Seq<char>| #[trigger]
            hiding.contains_key(t) implies subscriptions::is_required(
            table == t,
            options.joins,
            t,
        ) by {
            assert(is_screened(scope, narrow, t));
        }
        hiding_laws::law_hidden_rows_leave_no_trace(
            hiding,
            table,
            options.joins,
            rows_a,
            rows_b,
            template,
        );
        let x = select_pipeline::materialized(a, table, options.joins);
        let y = select_pipeline::materialized(b, table, options.joins);
        if let Some(p) = predicate {
            assert forall|t: Seq<char>| #[trigger]
                query::subquery_tables(p).contains(t) implies store::table_rows(a, t)
                == store::table_rows(b, t) by {
                lemma_sources(narrow, t);
                assert(seen_alike(scope, narrow, a, b, t));
            }
            lemma_condition_sees_its_tables(f, c, p, CacheModel::empty(), a, b);
        }
        let cached = match predicate {
            None => Ok(CacheModel::empty()),
            Some(p) => planner::subqueries_run(f, c, p, CacheModel::empty(), a).result,
        };
        if let Ok(cache) = cached {
            let met = admitted(predicate, cache);
            assert forall|state: StateModel| #[trigger] met(state) implies hiding_laws::shown(
                hiding,
            )(state) by {
                lemma_admitted_is_shown(scope, q, state, cache);
            }
            store_helpers::lemma_kept_twice(x, hiding_laws::shown(hiding), met);
            store_helpers::lemma_kept_twice(y, hiding_laws::shown(hiding), met);
            lemma_filtered(x, predicate, cache);
            lemma_filtered(y, predicate, cache);
            assert(select_orchestrator::filtered(x, predicate, cache)
                == select_orchestrator::filtered(y, predicate, cache));
        }
    }
}

} // verus!
