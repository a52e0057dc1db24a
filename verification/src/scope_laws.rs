//! What a peer may see: the tables, rows and changes that its scope leaves.
use vstd::prelude::*;
use crate::access_control::{self, admits, ScopeModel, SyncScope};
use crate::catalog::CatalogModel;
use crate::change_event::{self, EventModel};
use crate::columns::{predicate_columns, NamesColumns};
use crate::engine;
use crate::error::ErrorModel;
use crate::facade::{self, Database, DatabaseError, FacadeStore};
use crate::float::FloatOp;
use crate::planner;
use crate::predicate::{self, CacheModel, StateModel};
use crate::query::{
    self, ColumnRef, EngineResult, OperandModel, PredicateModel, QualifiedOperand,
    QualifiedPredicate, QueryModel,
};
use crate::schema::TableModel;
use crate::selection_laws::{self, joins_table};
use crate::store::Trees;
use crate::subscriptions::{self, SubscriptionModel};
use crate::table_laws;
use crate::value::ValueModel;

verus! {

/// Law: without named tables every table is reached, else the named ones alone.
pub proof fn law_tables_reached(scope: ScopeModel, table: Seq<char>, named: Seq<char>)
    ensures
        scope.allowed.contains(table) ==> access_control::reaches(scope, table),
        scope.allowed.contains(named) && !scope.allowed.contains(table)
            ==> !access_control::reaches(scope, table),
        (forall|t: Seq<char>| !(#[trigger] scope.allowed.contains(t)))
            ==> access_control::reaches(scope, table),
{
    if forall|t: Seq<char>| !(#[trigger] scope.allowed.contains(t)) {
        assert(scope.allowed =~= Set::empty());
    }
}

/// A row alone decides the condition that a scope has on its table.
pub open spec fn is_decided(scope: ScopeModel, table: Seq<char>) -> bool {
    scope.filters.contains_key(table) && predicate::within_table(scope.filters[table], table)
}

/// Law: that a row came or went is seen where the table is reached and the row
/// meets the condition of the scope on it, if there is one that a row alone
/// decides.
pub proof fn law_row_changes_seen(
    scope: ScopeModel,
    table: Seq<char>,
    pk: Seq<ValueModel>,
    row: Seq<ValueModel>,
)
    ensures
        ({
            let seen = access_control::reaches(scope, table) && (is_decided(scope, table)
                ==> table_laws::row_meets(Some(scope.filters[table]), table, row));
            &&& access_control::visible(scope, EventModel::RowInserted { table, pk, row }) == seen
            &&& access_control::visible(scope, EventModel::RowDeleted { table, pk, row }) == seen
        }),
{
    let inserted = EventModel::RowInserted { table, pk, row };
    let deleted = EventModel::RowDeleted { table, pk, row };
    assert(predicate::single_state(table, row) =~= table_laws::alone(table, row));
    if is_decided(scope, table) {
        let p = scope.filters[table];
        assert(access_control::row_meets(p, table, row) == table_laws::row_meets(
            Some(p),
            table,
            row,
        ));
        assert(access_control::row_meets(p, table, change_event::event_rows(inserted)[0])
            == access_control::row_meets(p, table, row));
        assert(access_control::row_meets(p, table, change_event::event_rows(deleted)[0])
            == access_control::row_meets(p, table, row));
    }
}

/// Law: that a row changed is seen where its coming or its going would be: where
/// the old row or the new one may be seen.
pub proof fn law_row_updates_seen(
    scope: ScopeModel,
    table: Seq<char>,
    pk: Seq<ValueModel>,
    old_row: Seq<ValueModel>,
    new_row: Seq<ValueModel>,
)
    ensures
        access_control::visible(scope, EventModel::RowUpdated { table, pk, old_row, new_row })
            == (access_control::visible(scope, EventModel::RowDeleted { table, pk, row: old_row })
            || access_control::visible(scope, EventModel::RowInserted { table, pk, row: new_row })),
{
    law_row_changes_seen(scope, table, pk, old_row);
    law_row_changes_seen(scope, table, pk, new_row);
    let e = EventModel::RowUpdated { table, pk, old_row, new_row };
    assert(predicate::single_state(table, old_row) =~= table_laws::alone(table, old_row));
    assert(predicate::single_state(table, new_row) =~= table_laws::alone(table, new_row));
    if is_decided(scope, table) {
        let p = scope.filters[table];
        assert(access_control::row_meets(p, table, change_event::event_rows(e)[0])
            == access_control::row_meets(p, table, old_row));
        assert(access_control::row_meets(p, table, change_event::event_rows(e)[1])
            == access_control::row_meets(p, table, new_row));
    }
}

/// An operand is of a table: a literal, or a column of it.
pub open spec fn is_of(a: OperandModel, table: Seq<char>) -> bool {
    a matches OperandModel::Column(c) ==> c.table == table
}

/// Law: a row of a table decides a comparison of literals and columns of that
/// table, the tests of such a column, and conditions made of these; it decides
/// nothing on another table's columns and no subquery.
pub proof fn law_row_decides(
    a: OperandModel,
    b: OperandModel,
    c: ColumnRef,
    list: Seq<ValueModel>,
    q: QueryModel,
    negated: bool,
    table: Seq<char>,
)
    ensures
        ({
            let within = |p: PredicateModel| predicate::within_table(p, table);
            let both = is_of(a, table) && is_of(b, table);
            &&& within(PredicateModel::Equals(a, b)) == both
            &&& within(PredicateModel::NotEquals(a, b)) == both
            &&& within(PredicateModel::LessThan(a, b)) == both
            &&& within(PredicateModel::LessThanOrEquals(a, b)) == both
            &&& within(PredicateModel::GreaterThan(a, b)) == both
            &&& within(PredicateModel::GreaterThanOrEquals(a, b)) == both
            &&& within(PredicateModel::IsNull(c)) == (c.table == table)
            &&& within(PredicateModel::IsNotNull(c)) == (c.table == table)
            &&& within(PredicateModel::InList { expr: c, list, negated }) == (c.table == table)
            &&& !within(
                PredicateModel::InSubquery { expr: c, subquery: Box::new(q), negated },
            )
        }),
{
}

/// Law: a row decides a condition made of two exactly if it decides both.
pub proof fn law_row_decides_parts(p: PredicateModel, q: PredicateModel, table: Seq<char>)
    ensures
        ({
            let within = |p: PredicateModel| predicate::within_table(p, table);
            &&& within(PredicateModel::And(Box::new(p), Box::new(q))) == (within(p) && within(q))
            &&& within(PredicateModel::Or(Box::new(p), Box::new(q))) == (within(p) && within(q))
            &&& within(PredicateModel::Not(Box::new(p))) == within(p)
        }),
{
}

/// Law: the tables whose rows a query reads or changes itself are its own table,
/// those of its joins, and those beside it.
pub proof fn law_source_tables(q: QueryModel, t: Seq<char>)
    ensures
        query::source_tables(q).contains(t) <==> match q {
            QueryModel::Select { table, options, .. } => t == table || joins_table(
                options.joins,
                t,
            ),
            QueryModel::Insert { table, .. } => t == table,
            QueryModel::Update { table, joins, from_tables, .. } => t == table || joins_table(
                joins,
                t,
            ) || from_tables.contains(t),
            QueryModel::Delete { table, .. } => t == table,
        },
{
    let table = match q {
        QueryModel::Select { table, .. } => table,
        QueryModel::Insert { table, .. } => table,
        QueryModel::Update { table, .. } => table,
        QueryModel::Delete { table, .. } => table,
    };
    let first = seq![table];
    assert(first.contains(t) <==> t == table) by {
        assert(first[0] == table);
    }
    match q {
        QueryModel::Select { options, .. } => {
            selection_laws::lemma_with_joined(first, options.joins, t);
        },
        QueryModel::Update { joins, from_tables, .. } => {
            selection_laws::lemma_with_joined(first, joins, t);
            selection_laws::lemma_with_names(query::with_joined(first, joins), from_tables, t);
        },
        _ => {},
    }
}

/// The condition of a query.
pub open spec fn condition_of(q: QueryModel) -> Option<PredicateModel> {
    match q {
        QueryModel::Select { predicate, .. } => predicate,
        QueryModel::Insert { .. } => None,
        QueryModel::Update { predicate, .. } => predicate,
        QueryModel::Delete { predicate, .. } => predicate,
    }
}

/// A condition has a subquery that refers to a table.
pub open spec fn asks_of(p: PredicateModel, t: Seq<char>) -> bool
    decreases p,
{
    match p {
        PredicateModel::InSubquery { subquery, .. } => refers_to(*subquery, t),
        PredicateModel::And(a, b) => asks_of(*a, t) || asks_of(*b, t),
        PredicateModel::Or(a, b) => asks_of(*a, t) || asks_of(*b, t),
        PredicateModel::Not(a) => asks_of(*a, t),
        _ => false,
    }
}

/// A query refers to a table: it reads or changes its rows, or a subquery does.
pub open spec fn refers_to(q: QueryModel, t: Seq<char>) -> bool
    decreases q,
{
    query::source_tables(q).contains(t) || match q {
        QueryModel::Select { predicate: Some(p), .. } => asks_of(p, t),
        QueryModel::Update { predicate: Some(p), .. } => asks_of(p, t),
        QueryModel::Delete { predicate: Some(p), .. } => asks_of(p, t),
        _ => false,
    }
}

proof fn lemma_subquery_tables(p: PredicateModel, t: Seq<char>)
    ensures
        query::subquery_tables(p).contains(t) <==> asks_of(p, t),
    decreases p,
{
    match p {
        PredicateModel::InSubquery { subquery, .. } => {
            law_query_tables(*subquery, t);
        },
        PredicateModel::And(a, b) => {
            lemma_subquery_tables(*a, t);
            lemma_subquery_tables(*b, t);
            selection_laws::lemma_with_names(
                query::subquery_tables(*a),
                query::subquery_tables(*b),
                t,
            );
        },
        PredicateModel::Or(a, b) => {
            lemma_subquery_tables(*a, t);
            lemma_subquery_tables(*b, t);
            selection_laws::lemma_with_names(
                query::subquery_tables(*a),
                query::subquery_tables(*b),
                t,
            );
        },
        PredicateModel::Not(a) => {
            lemma_subquery_tables(*a, t);
        },
        _ => {},
    }
}

/// Law: the tables of a query are those that it, or one of its subqueries, reads
/// or changes.
pub proof fn law_query_tables(q: QueryModel, t: Seq<char>)
    ensures
        query::query_tables(q).contains(t) <==> refers_to(q, t),
    decreases q,
{
    match q {
        QueryModel::Select { predicate: Some(p), .. } => {
            lemma_subquery_tables(p, t);
            selection_laws::lemma_with_names(query::source_tables(q), query::subquery_tables(p), t);
        },
        QueryModel::Update { predicate: Some(p), .. } => {
            lemma_subquery_tables(p, t);
            selection_laws::lemma_with_names(query::source_tables(q), query::subquery_tables(p), t);
        },
        QueryModel::Delete { predicate: Some(p), .. } => {
            lemma_subquery_tables(p, t);
            selection_laws::lemma_with_names(query::source_tables(q), query::subquery_tables(p), t);
        },
        _ => {},
    }
}

proof fn lemma_first_unreached(tables: Seq<Seq<char>>, scope: ScopeModel)
    ensures
        match engine::first_unreached(tables, scope) {
            Some(t) => tables.contains(t) && !access_control::reaches(scope, t),
            None => forall|t: Seq<char>| #[trigger]
                tables.contains(t) ==> access_control::reaches(scope, t),
        },
    decreases tables.len(),
{
    if tables.len() > 0 {
        let rest = tables.drop_first();
        lemma_first_unreached(rest, scope);
        assert(tables[0] == tables.first());
        assert forall|t: Seq<char>| rest.contains(t) implies #[trigger] tables.contains(t) by {
            let i = choose|i: int| 0 <= i < rest.len() && rest[i] == t;
            assert(tables[i + 1] == t);
        }
        assert forall|t: Seq<char>| #[trigger] tables.contains(t) implies t == tables[0]
            || rest.contains(t) by {
            let i = choose|i: int| 0 <= i < tables.len() && tables[i] == t;
            if i > 0 {
                assert(rest[i - 1] == t);
            }
        }
    }
}

/// Law: a query of a peer that refers to a table out of its scope is refused, as
/// if such a table were not there, and changes nothing; any other is run as the
/// scope narrows it.
pub proof fn law_tables_out_of_scope<F: Fn(FloatOp) -> u64>(
    f: F,
    c: CatalogModel,
    q: QueryModel,
    scope: ScopeModel,
    trees: Trees,
    t: Seq<char>,
)
    ensures
        ({
            let ran = engine::scoped_run(f, c, q, scope, trees);
            let refused = ran.trees == trees && ran.events.len() == 0 && (ran.result matches Err(
                ErrorModel::TableNotFound(u),
            ) && refers_to(q, u) && !access_control::reaches(scope, u));
            &&& refers_to(q, t) && !access_control::reaches(scope, t) ==> refused
            &&& refused || ran == planner::run_of(
                f,
                c,
                access_control::scoped_query(scope, q),
                trees,
            )
        }),
{
    let tables = query::query_tables(q);
    lemma_first_unreached(tables, scope);
    law_query_tables(q, t);
    if let Some(u) = engine::first_unreached(tables, scope) {
        law_query_tables(q, u);
    }
}

/// Joined rows meet every condition that a scope has on the tables that a query
/// reads or changes itself.
pub open spec fn rows_allowed(
    scope: ScopeModel,
    q: QueryModel,
    state: StateModel,
    cache: CacheModel,
) -> bool {
    forall|t: Seq<char>| #[trigger]
        query::source_tables(q).contains(t) && scope.filters.contains_key(t) ==> predicate::holds(
            scope.filters[t],
            state,
            cache,
        )
}

proof fn lemma_narrowed(
    scope: ScopeModel,
    q: QueryModel,
    p: Option<PredicateModel>,
    state: StateModel,
    cache: CacheModel,
)
    ensures
        admits(
            access_control::narrowed(scope.filters, query::source_tables(q), p),
            state,
            cache,
        ) <==> admits(p, state, cache) && rows_allowed(scope, q, state, cache),
{
    let tables = query::source_tables(q);
    access_control::law_scope_hides_rows(scope.filters, tables, p, state, cache);
    if rows_allowed(scope, q, state, cache) {
        assert forall|i: int|
            0 <= i < tables.len() && scope.filters.contains_key(
                #[trigger] tables[i],
            ) implies predicate::holds(scope.filters[tables[i]], state, cache) by {
            assert(tables.contains(tables[i]));
        }
    } else {
        let t = choose|t: Seq<char>| #[trigger]
            tables.contains(t) && scope.filters.contains_key(t) && !predicate::holds(
                scope.filters[t],
                state,
                cache,
            );
        let i = choose|i: int| 0 <= i < tables.len() && tables[i] == t;
        assert(scope.filters.contains_key(tables[i]));
    }
}

/// The condition of a query whose subqueries are narrowed by a scope.
pub open spec fn condition_within(scope: ScopeModel, q: QueryModel) -> Option<PredicateModel> {
    match condition_of(q) {
        Some(p) => Some(access_control::scoped_predicate(scope, p)),
        None => None,
    }
}

/// Law: under a scope a query is about the same tables and columns, and of the
/// rows that meet its condition about those alone that meet every condition of
/// the scope on the tables that it reads or changes. An INSERT stays as it is.
pub proof fn law_query_is_narrowed(
    scope: ScopeModel,
    q: QueryModel,
    state: StateModel,
    cache: CacheModel,
)
    ensures
        ({
            let narrow = access_control::scoped_query(scope, q);
            &&& match (q, narrow) {
                (
                    QueryModel::Select { table, projection, options, .. },
                    QueryModel::Select { table: t, projection: s, options: o, .. },
                ) => t == table && s == projection && o == options,
                (
                    QueryModel::Update { table, assignments, joins, from_tables, returning, .. },
                    QueryModel::Update {
                        table: t,
                        assignments: a,
                        joins: j,
                        from_tables: u,
                        returning: r,
                        ..
                    },
                ) => t == table && a == assignments && j == joins && u == from_tables && r
                    == returning,
                (
                    QueryModel::Delete { table, returning, .. },
                    QueryModel::Delete { table: t, returning: r, .. },
                ) => t == table && r == returning,
                (QueryModel::Insert { .. }, QueryModel::Insert { .. }) => narrow == q,
                _ => false,
            }
            &&& !(q is Insert) ==> (admits(condition_of(narrow), state, cache) <==> admits(
                condition_within(scope, q),
                state,
                cache,
            ) && rows_allowed(scope, q, state, cache))
        }),
{
    lemma_narrowed(scope, q, condition_within(scope, q), state, cache);
}

/// A condition has no subqueries.
pub open spec fn is_plain(p: PredicateModel) -> bool
    decreases p,
{
    match p {
        PredicateModel::InSubquery { .. } => false,
        PredicateModel::And(a, b) => is_plain(*a) && is_plain(*b),
        PredicateModel::Or(a, b) => is_plain(*a) && is_plain(*b),
        PredicateModel::Not(a) => is_plain(*a),
        _ => true,
    }
}

/// Law: a scope leaves a condition without subqueries as it is.
pub proof fn law_plain_condition_stays(scope: ScopeModel, p: PredicateModel)
    requires
        is_plain(p),
    ensures
        access_control::scoped_predicate(scope, p) == p,
    decreases p,
{
    match p {
        PredicateModel::And(a, b) => {
            law_plain_condition_stays(scope, *a);
            law_plain_condition_stays(scope, *b);
        },
        PredicateModel::Or(a, b) => {
            law_plain_condition_stays(scope, *a);
            law_plain_condition_stays(scope, *b);
        },
        PredicateModel::Not(a) => {
            law_plain_condition_stays(scope, *a);
        },
        _ => {},
    }
}

/// Law: a subquery sees what the scope leaves of its own tables, wherever in a
/// condition it stands.
pub proof fn law_subqueries_are_narrowed(
    scope: ScopeModel,
    expr: ColumnRef,
    q: QueryModel,
    negated: bool,
    a: PredicateModel,
    b: PredicateModel,
)
    ensures
        ({
            let narrow = |p: PredicateModel| access_control::scoped_predicate(scope, p);
            &&& narrow(PredicateModel::InSubquery { expr, subquery: Box::new(q), negated }) == (
            PredicateModel::InSubquery {
                expr,
                subquery: Box::new(access_control::scoped_query(scope, q)),
                negated,
            })
            &&& narrow(PredicateModel::And(Box::new(a), Box::new(b))) == PredicateModel::And(
                Box::new(narrow(a)),
                Box::new(narrow(b)),
            )
            &&& narrow(PredicateModel::Or(Box::new(a), Box::new(b))) == PredicateModel::Or(
                Box::new(narrow(a)),
                Box::new(narrow(b)),
            )
            &&& narrow(PredicateModel::Not(Box::new(a))) == PredicateModel::Not(
                Box::new(narrow(a)),
            )
        }),
{
}

/// A condition without subqueries compares or tests a column.
pub open spec fn looks_at(p: PredicateModel, c: ColumnRef) -> bool
    decreases p,
{
    match p {
        PredicateModel::Equals(a, b) => a == OperandModel::Column(c) || b == OperandModel::Column(
            c,
        ),
        PredicateModel::NotEquals(a, b) => a == OperandModel::Column(c) || b
            == OperandModel::Column(c),
        PredicateModel::LessThan(a, b) => a == OperandModel::Column(c) || b
            == OperandModel::Column(c),
        PredicateModel::LessThanOrEquals(a, b) => a == OperandModel::Column(c) || b
            == OperandModel::Column(c),
        PredicateModel::GreaterThan(a, b) => a == OperandModel::Column(c) || b
            == OperandModel::Column(c),
        PredicateModel::GreaterThanOrEquals(a, b) => a == OperandModel::Column(c) || b
            == OperandModel::Column(c),
        PredicateModel::IsNull(column) => column == c,
        PredicateModel::IsNotNull(column) => column == c,
        PredicateModel::InList { expr, .. } => expr == c,
        PredicateModel::InSubquery { expr, .. } => expr == c,
        PredicateModel::And(a, b) => looks_at(*a, c) || looks_at(*b, c),
        PredicateModel::Or(a, b) => looks_at(*a, c) || looks_at(*b, c),
        PredicateModel::Not(a) => looks_at(*a, c),
    }
}

proof fn lemma_joined(a: Seq<ColumnRef>, b: Seq<ColumnRef>, c: ColumnRef)
    ensures
        (a + b).contains(c) <==> a.contains(c) || b.contains(c),
{
    if a.contains(c) {
        let i = choose|i: int| 0 <= i < a.len() && a[i] == c;
        assert((a + b)[i] == c);
    }
    if b.contains(c) {
        let i = choose|i: int| 0 <= i < b.len() && b[i] == c;
        assert((a + b)[a.len() + i] == c);
    }
    if (a + b).contains(c) {
        let i = choose|i: int| 0 <= i < (a + b).len() && (a + b)[i] == c;
        if i < a.len() {
            assert(a[i] == c);
        } else {
            assert(b[i - a.len()] == c);
        }
    }
}

proof fn lemma_operands(a: OperandModel, b: OperandModel, c: ColumnRef)
    ensures
        (QualifiedOperand::named(a)
            + QualifiedOperand::named(b)).contains(
            c,
        ) <==> a == OperandModel::Column(c) || b == OperandModel::Column(c),
{
    let x = QualifiedOperand::named(a);
    let y = QualifiedOperand::named(b);
    lemma_joined(x, y, c);
    if a is Column {
        assert(x[0] == a->Column_0);
    }
    if b is Column {
        assert(y[0] == b->Column_0);
    }
}

/// Law: the columns of a condition without subqueries are those that it compares
/// or tests.
pub proof fn law_condition_columns(p: PredicateModel, c: ColumnRef)
    requires
        is_plain(p),
    ensures
        predicate_columns(p).contains(c) <==> looks_at(p, c),
    decreases p,
{
    match p {
        PredicateModel::Equals(a, b) => lemma_operands(a, b, c),
        PredicateModel::NotEquals(a, b) => lemma_operands(a, b, c),
        PredicateModel::LessThan(a, b) => lemma_operands(a, b, c),
        PredicateModel::LessThanOrEquals(a, b) => lemma_operands(a, b, c),
        PredicateModel::GreaterThan(a, b) => lemma_operands(a, b, c),
        PredicateModel::GreaterThanOrEquals(a, b) => lemma_operands(a, b, c),
        PredicateModel::IsNull(column) => {
            assert(seq![column][0] == column);
        },
        PredicateModel::IsNotNull(column) => {
            assert(seq![column][0] == column);
        },
        PredicateModel::InList { expr, .. } => {
            assert(seq![expr][0] == expr);
        },
        PredicateModel::And(a, b) => {
            law_condition_columns(*a, c);
            law_condition_columns(*b, c);
            lemma_joined(predicate_columns(*a), predicate_columns(*b), c);
        },
        PredicateModel::Or(a, b) => {
            law_condition_columns(*a, c);
            law_condition_columns(*b, c);
            lemma_joined(predicate_columns(*a), predicate_columns(*b), c);
        },
        PredicateModel::Not(a) => {
            law_condition_columns(*a, c);
        },
        _ => {},
    }
}

/// Law: a scope fits schemas where every table with a condition is known and so
/// is every column that the condition compares or tests.
pub proof fn law_scope_fits(scope: ScopeModel, schemas: Map<Seq<char>, TableModel>)
    requires
        forall|t: Seq<char>| #[trigger]
            scope.filters.contains_key(t) ==> is_plain(scope.filters[t]),
    ensures
        access_control::is_compatible(scope, schemas) <==> forall|t: Seq<char>| #[trigger]
            scope.filters.contains_key(t) ==> schemas.contains_key(t) && forall|c: ColumnRef|
                #[trigger] looks_at(scope.filters[t], c) ==> schemas.contains_key(c.table)
                    && c.column_index < schemas[c.table].columns.len(),
{
    assert forall|t: Seq<char>| #[trigger]
        scope.filters.contains_key(t) implies access_control::all_there(
        predicate_columns(scope.filters[t]),
        schemas,
    ) == (forall|c: ColumnRef| #[trigger]
        looks_at(scope.filters[t], c) ==> schemas.contains_key(c.table) && c.column_index
            < schemas[c.table].columns.len()) by {
        let p = scope.filters[t];
        let columns = predicate_columns(p);
        if access_control::all_there(columns, schemas) {
            assert forall|c: ColumnRef| #[trigger] looks_at(p, c) implies schemas.contains_key(
                c.table,
            ) && c.column_index < schemas[c.table].columns.len() by {
                law_condition_columns(p, c);
                let i = choose|i: int| 0 <= i < columns.len() && columns[i] == c;
                assert(access_control::is_there(columns[i], schemas));
            }
        } else {
            let i = choose|i: int|
                0 <= i < columns.len() && !access_control::is_there(#[trigger] columns[i], schemas);
            law_condition_columns(p, columns[i]);
            assert(looks_at(p, columns[i]));
        }
    }
}

/// Law: a change leaves a subscription alone whose query, as its scope narrows
/// it, does not refer to the table, and one that does not reach it. Of a
/// selection from one table, a change that its scope hides does so too.
pub proof fn law_others_are_left_alone(
    s: SubscriptionModel,
    e: EventModel,
    t: Seq<char>,
)
    requires
        t == change_event::event_table(e),
    ensures
        !refers_to(access_control::scoped_query(s.scope, s.query), t)
            ==> !subscriptions::is_affected(s, e),
        refers_to(s.query, t) && !access_control::reaches(s.scope, t)
            ==> !subscriptions::is_affected(s, e),
        (s.query matches QueryModel::Select { table, predicate, options, .. } && table == t
            && options.joins.len() == 0 && (predicate matches Some(p) ==> is_plain(p)) && (
        forall|u: Seq<char>| #[trigger]
            s.scope.filters.contains_key(u) ==> is_plain(s.scope.filters[u])))
            && !access_control::visible(s.scope, e) ==> !subscriptions::is_affected(s, e),
{
    let narrow = access_control::scoped_query(s.scope, s.query);
    law_query_tables(narrow, t);
    law_query_tables(s.query, t);
    if s.query matches QueryModel::Select { table, predicate, options, .. } && table == t
        && options.joins.len() == 0 && (predicate matches Some(p) ==> is_plain(p)) && (forall|
        u: Seq<char>,
    | #[trigger] s.scope.filters.contains_key(u) ==> is_plain(s.scope.filters[u])) {
        law_source_tables(s.query, t);
        let start = match condition_of(s.query) {
            Some(p) => Some(access_control::scoped_predicate(s.scope, p)),
            None => None,
        };
        if let Some(p) = condition_of(s.query) {
            law_plain_condition_stays(s.scope, p);
        }
        lemma_narrowed_plain(s.scope, query::source_tables(s.query), start);
        if let Some(p) = condition_of(narrow) {
            lemma_plain_asks_nothing(p, t);
            lemma_subquery_tables(p, t);
        }
    }
}

proof fn lemma_plain_asks_nothing(p: PredicateModel, t: Seq<char>)
    requires
        is_plain(p),
    ensures
        !asks_of(p, t),
    decreases p,
{
    match p {
        PredicateModel::And(a, b) => {
            lemma_plain_asks_nothing(*a, t);
            lemma_plain_asks_nothing(*b, t);
        },
        PredicateModel::Or(a, b) => {
            lemma_plain_asks_nothing(*a, t);
            lemma_plain_asks_nothing(*b, t);
        },
        PredicateModel::Not(a) => {
            lemma_plain_asks_nothing(*a, t);
        },
        _ => {},
    }
}

proof fn lemma_narrowed_plain(
    scope: ScopeModel,
    tables: Seq<Seq<char>>,
    p: Option<PredicateModel>,
)
    requires
        p matches Some(x) ==> is_plain(x),
        forall|u: Seq<char>| #[trigger]
            scope.filters.contains_key(u) ==> is_plain(scope.filters[u]),
    ensures
        access_control::narrowed(scope.filters, tables, p) matches Some(x) ==> is_plain(x),
    decreases tables.len(),
{
    if tables.len() > 0 {
        lemma_narrowed_plain(scope, tables.drop_last(), p);
    }
}

/// Law: what is told of a scope that does not fit schemas is what is wrong with
/// it: a table with a condition that is not known, or a column that the condition
/// compares or tests whose table is not known or does not have it. Of a scope
/// that fits nothing is told.
pub proof fn law_misfit_is_told(
    scope: ScopeModel,
    schemas: Map<Seq<char>, TableModel>,
    e: ErrorModel,
)
    requires
        access_control::is_incompatibility(scope, schemas, e),
        forall|t: Seq<char>| #[trigger]
            scope.filters.contains_key(t) ==> is_plain(scope.filters[t]),
    ensures
        !access_control::is_compatible(scope, schemas),
        match e {
            ErrorModel::TableNotFound(t) => !schemas.contains_key(t) && (
            scope.filters.contains_key(t) || exists|u: Seq<char>, c: ColumnRef|
                scope.filters.contains_key(u) && #[trigger] looks_at(scope.filters[u], c) && c.table
                    == t),
            ErrorModel::SchemaMismatch(_) => exists|u: Seq<char>, c: ColumnRef|
                scope.filters.contains_key(u) && #[trigger] looks_at(scope.filters[u], c)
                    && schemas.contains_key(c.table) && c.column_index
                    >= schemas[c.table].columns.len(),
            _ => false,
        },
{
    let u = choose|u: Seq<char>| #[trigger]
        scope.filters.contains_key(u) && if schemas.contains_key(u) {
            exists|i: int|
                0 <= i < predicate_columns(scope.filters[u]).len() && access_control::is_fault_of(
                    #[trigger] predicate_columns(scope.filters[u])[i],
                    schemas,
                    e,
                )
        } else {
            e == ErrorModel::TableNotFound(u)
        };
    if schemas.contains_key(u) {
        let columns = predicate_columns(scope.filters[u]);
        let i = choose|i: int|
            0 <= i < columns.len() && access_control::is_fault_of(#[trigger] columns[i], schemas, e);
        law_condition_columns(scope.filters[u], columns[i]);
        assert(columns.contains(columns[i]));
        assert(looks_at(scope.filters[u], columns[i]));
        assert(!access_control::is_there(columns[i], schemas));
    }
}

/// Law: over a sound store a peer's query answers as it turns out under its
/// scope: with its rows, or with its error in words. The database then holds what
/// came of it, and listeners are to hear of its changes after those from before.
pub proof fn law_scoped_statement<S: FacadeStore, F: Fn(FloatOp) -> u64, P>(
    r: Result<EngineResult, DatabaseError>,
    before: Database<S, F, P>,
    after: Database<S, F, P>,
    q: QueryModel,
    scope: ScopeModel,
)
    requires
        facade::scoped_query_ran(r, before, after, q, scope),
        before.engine.sound(),
    ensures
        ({
            let ran = engine::scoped_run(
                before.engine.kernel.float,
                before.engine.known(),
                q,
                scope,
                before.engine.trees(),
            );
            &&& match (r, ran.result) {
                (Ok(rows), Ok(exact)) => rows.deep_view() == exact,
                (Err(e), Err(x)) => e.deep_view() == facade::in_words(x),
                _ => false,
            }
            &&& after.engine.known() == before.engine.known()
            &&& after.engine.trees() == ran.trees
            &&& after.engine.unheard() == before.engine.unheard() + ran.events
        }),
{
    if engine::first_unreached(query::query_tables(q), scope) is Some {
        assert(before.engine.unheard() + Seq::<EventModel>::empty() =~= before.engine.unheard());
    }
}

/// Law: a change tells its table, its key, and the rows that came or went.
pub proof fn law_changes_tell(
    table: Seq<char>,
    pk: Seq<ValueModel>,
    a: Seq<ValueModel>,
    b: Seq<ValueModel>,
)
    ensures
        ({
            let inserted = EventModel::RowInserted { table, pk, row: a };
            let deleted = EventModel::RowDeleted { table, pk, row: a };
            let updated = EventModel::RowUpdated { table, pk, old_row: a, new_row: b };
            &&& change_event::event_table(inserted) == table && change_event::event_key(inserted)
                == pk && change_event::event_rows(inserted) == seq![a]
            &&& change_event::event_table(deleted) == table && change_event::event_key(deleted)
                == pk && change_event::event_rows(deleted) == seq![a]
            &&& change_event::event_table(updated) == table && change_event::event_key(updated)
                == pk && change_event::event_rows(updated) == seq![a, b]
        }),
{
}

/// Law: a subscription is about the tables that its query, as its scope narrows
/// it, refers to.
pub proof fn law_subscriptions_about(s: SubscriptionModel, t: Seq<char>)
    ensures
        subscriptions::about(t)(s) <==> refers_to(
            access_control::scoped_query(s.scope, s.query),
            t,
        ),
{
    law_query_tables(access_control::scoped_query(s.scope, s.query), t);
}

/// Law: a scope to which a table was added reaches it, those that it named
/// before, and no others.
pub proof fn law_allowed_table_is_reached(
    scope: SyncScope,
    table: String,
    after: SyncScope,
    other: &str,
    reached: bool,
)
    requires
        call_ensures(SyncScope::allow_table, (scope, table), after),
        call_ensures(SyncScope::can_access, (&after, other), reached),
    ensures
        reached <==> other@ == table@ || scope.deep_view().allowed.contains(other@),
{
    assert(after.deep_view().allowed.contains(table@));
}

/// Law: a condition that was given to a scope is the one that it has on that
/// table; those on other tables stay.
pub proof fn law_given_condition_is_kept(
    scope: SyncScope,
    table: String,
    filter: QualifiedPredicate,
    after: SyncScope,
    asked: &str,
    found: Option<&QualifiedPredicate>,
    before: Option<&QualifiedPredicate>,
)
    requires
        call_ensures(SyncScope::add_filter, (scope, table, filter), after),
        call_ensures(SyncScope::filter_for, (&after, asked), found),
        call_ensures(SyncScope::filter_for, (&scope, asked), before),
    ensures
        asked@ == table@ ==> (found matches Some(p) && p.deep_view() == filter.deep_view()),
        asked@ != table@ ==> found.deep_view() == before.deep_view(),
{
}

} // verus!
