//! What a peer may see: the tables it can reach, and conditions on their rows.
use vstd::prelude::*;
use crate::change_event::{self, ChangeEvent, EventModel};
use crate::columns::{gather_predicate, predicate_columns};
use crate::error::{EngineError, ErrorModel};
use crate::name_table::NameTable;
use crate::plain::{contains_text, no_items, Plain};
use crate::predicate::{
    self, eval_predicate, is_within_table, CacheModel, EvalContext, RowContext, StateModel,
};
use crate::query::{
    self, add_name, ColumnRef, EngineQuery, PredicateModel, QualifiedColumn, QualifiedPredicate,
    QueryModel,
};
use crate::schema::{TableModel, TableSchema};
use crate::text::{self, decimal, joined, joined3};
use crate::value::{EngineRow, ValueModel};

verus! {

/// The tables that a peer may reach, all of them if none is named, and
/// conditions on the rows of tables.
#[derive(Clone, Debug)]
pub struct SyncScope {
    allowed_tables: Vec<String>,
    table_filters: NameTable<QualifiedPredicate>,
}

/// What a [`SyncScope`] is, mathematically.
#[verifier::ext_equal]
pub struct ScopeModel {
    pub allowed: Set<Seq<char>>,
    pub filters: Map<Seq<char>, PredicateModel>,
}

impl DeepView for SyncScope {
    type V = ScopeModel;

    closed spec fn deep_view(&self) -> ScopeModel {
        ScopeModel {
            allowed: self.allowed_tables.deep_view().to_set(),
            filters: self.table_filters.deep_view(),
        }
    }
}

/// The scope of a peer that may see everything.
pub open spec fn everything() -> ScopeModel {
    ScopeModel { allowed: Set::empty(), filters: Map::empty() }
}

/// A scope reaches a table.
pub open spec fn reaches(scope: ScopeModel, table: Seq<char>) -> bool {
    scope.allowed.is_empty() || scope.allowed.contains(table)
}

/// A change is hidden by the condition on its table: none of its rows meets it.
/// A condition that the row alone does not decide is taken to be met.
pub open spec fn hides(scope: ScopeModel, e: EventModel) -> bool {
    let table = change_event::event_table(e);
    scope.filters.contains_key(table) && predicate::within_table(scope.filters[table], table)
        && forall|i: int|
        0 <= i < change_event::event_rows(e).len() ==> !#[trigger] row_meets(
            scope.filters[table],
            table,
            change_event::event_rows(e)[i],
        )
}

/// A change can be seen: its table is reached, and the condition on the table
/// does not hide it.
pub open spec fn visible(scope: ScopeModel, e: EventModel) -> bool {
    reaches(scope, change_event::event_table(e)) && !hides(scope, e)
}

/// A row of a table meets a condition.
pub open spec fn row_meets(p: PredicateModel, table: Seq<char>, row: Seq<ValueModel>) -> bool {
    predicate::holds(p, predicate::single_state(table, row), CacheModel::empty())
}

fn meets_filter(filter: &QualifiedPredicate, table: &str, row: &EngineRow) -> (r: bool)
    ensures
        r == row_meets(filter.deep_view(), table@, row.deep_view()),
{
    eval_predicate(filter, &RowContext::Single(table, row), &EvalContext::empty())
}

/// A condition and one more.
pub open spec fn conjoined(p: Option<PredicateModel>, q: PredicateModel) -> PredicateModel {
    match p {
        None => q,
        Some(p) => PredicateModel::And(Box::new(p), Box::new(q)),
    }
}

/// A condition, and those on the rows of some tables.
pub open spec fn narrowed(
    filters: Map<Seq<char>, PredicateModel>,
    tables: Seq<Seq<char>>,
    p: Option<PredicateModel>,
) -> Option<PredicateModel>
    decreases tables.len(),
{
    if tables.len() == 0 {
        p
    } else {
        let before = narrowed(filters, tables.drop_last(), p);
        if filters.contains_key(tables.last()) {
            Some(conjoined(before, filters[tables.last()]))
        } else {
            before
        }
    }
}

/// A query that sees no rows but those that meet the conditions of a scope.
pub open spec fn scoped_query(scope: ScopeModel, q: QueryModel) -> QueryModel
    decreases q,
{
    let sources = query::source_tables(q);
    match q {
        QueryModel::Select { table, projection, predicate, options } => QueryModel::Select {
            table,
            projection,
            predicate: narrowed(
                scope.filters,
                sources,
                match predicate {
                    Some(p) => Some(scoped_predicate(scope, p)),
                    None => None,
                },
            ),
            options,
        },
        QueryModel::Update { table, assignments, predicate, joins, from_tables, returning } =>
            QueryModel::Update {
            table,
            assignments,
            predicate: narrowed(
                scope.filters,
                sources,
                match predicate {
                    Some(p) => Some(scoped_predicate(scope, p)),
                    None => None,
                },
            ),
            joins,
            from_tables,
            returning,
        },
        QueryModel::Delete { table, predicate, returning } => QueryModel::Delete {
            table,
            predicate: narrowed(
                scope.filters,
                sources,
                match predicate {
                    Some(p) => Some(scoped_predicate(scope, p)),
                    None => None,
                },
            ),
            returning,
        },
        QueryModel::Insert { .. } => q,
    }
}

/// A condition whose subqueries see no rows but those that meet the conditions
/// of a scope.
pub open spec fn scoped_predicate(scope: ScopeModel, p: PredicateModel) -> PredicateModel
    decreases p,
{
    match p {
        PredicateModel::InSubquery { expr, subquery, negated } => PredicateModel::InSubquery {
            expr,
            subquery: Box::new(scoped_query(scope, *subquery)),
            negated,
        },
        PredicateModel::And(a, b) => PredicateModel::And(
            Box::new(scoped_predicate(scope, *a)),
            Box::new(scoped_predicate(scope, *b)),
        ),
        PredicateModel::Or(a, b) => PredicateModel::Or(
            Box::new(scoped_predicate(scope, *a)),
            Box::new(scoped_predicate(scope, *b)),
        ),
        PredicateModel::Not(a) => PredicateModel::Not(Box::new(scoped_predicate(scope, *a))),
        _ => p,
    }
}

/// A column is one of a known table.
pub open spec fn is_there(column: ColumnRef, schemas: Map<Seq<char>, TableModel>) -> bool {
    schemas.contains_key(column.table) && column.column_index < schemas[column.table].columns.len()
}

/// All columns are those of known tables.
pub open spec fn all_there(
    columns: Seq<ColumnRef>,
    schemas: Map<Seq<char>, TableModel>,
) -> bool {
    forall|i: int| 0 <= i < columns.len() ==> is_there(#[trigger] columns[i], schemas)
}

/// The conditions of a scope are compatible with schemas: each is on a table
/// that is known, and all columns that it names are there.
pub open spec fn is_compatible(scope: ScopeModel, schemas: Map<Seq<char>, TableModel>) -> bool {
    forall|table: Seq<char>| #[trigger]
        scope.filters.contains_key(table) ==> schemas.contains_key(table) && all_there(
            predicate_columns(scope.filters[table]),
            schemas,
        )
}

/// The message on a column that its table does not have.
pub open spec fn missing_column(column: ColumnRef) -> Seq<char> {
    "table "@ + column.table + " has no column "@ + text::decimal_text(column.column_index as nat)
}

/// What is wrong with a column: its table is not known, or does not have it.
pub open spec fn is_fault_of(
    column: ColumnRef,
    schemas: Map<Seq<char>, TableModel>,
    e: ErrorModel,
) -> bool {
    !is_there(column, schemas) && e == if schemas.contains_key(column.table) {
        ErrorModel::SchemaMismatch(missing_column(column))
    } else {
        ErrorModel::TableNotFound(column.table)
    }
}

/// An error says where a scope is not compatible with schemas: a table with a
/// condition is not known, or the condition on a known one names a column that
/// is not there.
pub open spec fn is_incompatibility(
    scope: ScopeModel,
    schemas: Map<Seq<char>, TableModel>,
    e: ErrorModel,
) -> bool {
    exists|table: Seq<char>| #[trigger]
        scope.filters.contains_key(table) && if schemas.contains_key(table) {
            exists|i: int|
                0 <= i < predicate_columns(scope.filters[table]).len() && is_fault_of(
                    #[trigger] predicate_columns(scope.filters[table])[i],
                    schemas,
                    e,
                )
        } else {
            e == ErrorModel::TableNotFound(table)
        }
}

/// Whether all columns are those of known tables.
fn check_columns(columns: &Vec<QualifiedColumn>, schemas: &NameTable<TableSchema>) -> (r: Result<
    (),
    EngineError,
>)
    ensures
        match r {
            Ok(_) => all_there(columns.deep_view(), schemas.deep_view()),
            Err(e) => exists|i: int|
                0 <= i < columns.deep_view().len() && is_fault_of(
                    #[trigger] columns.deep_view()[i],
                    schemas.deep_view(),
                    e.deep_view(),
                ),
        },
{
    let ghost all = columns.deep_view();
    let mut i: usize = 0;
    while i < columns.len()
        invariant
            i <= columns.len(),
            all == columns.deep_view(),
            forall|j: int| 0 <= j < i ==> is_there(#[trigger] all[j], schemas.deep_view()),
        decreases columns.len() - i,
    {
        let column = &columns[i];
        assert(all[i as int] == column.deep_view());
        match schemas.get(column.table.as_str()) {
            None => {
                let e = EngineError::TableNotFound(column.table.clone());
                assert(is_fault_of(all[i as int], schemas.deep_view(), e.deep_view()));
                return Err(e);
            },
            Some(schema) => {
                assert(schema.columns.deep_view().len() == schema.columns.len());
                if column.column_index >= schema.columns.len() {
                    let name = joined3("table ", column.table.as_str(), " has no column ");
                    let e = EngineError::SchemaMismatch(
                        joined(name.as_str(), decimal(column.column_index as u64).as_str()),
                    );
                    assert(is_fault_of(all[i as int], schemas.deep_view(), e.deep_view()));
                    return Err(e);
                }
            },
        }
        i += 1;
    }
    Ok(())
}

impl SyncScope {
    /// The scope of a peer that may see everything.
    pub fn unrestricted() -> (r: SyncScope)
        ensures
            r.deep_view() == everything(),
    {
        let r = SyncScope { allowed_tables: no_items(), table_filters: NameTable::new() };
        assert(r.deep_view().allowed =~= Set::empty());
        r
    }

    /// A scope of tables, with no condition on their rows.
    pub fn new(allowed_tables: Vec<String>) -> (r: SyncScope)
        ensures
            r.deep_view() == (ScopeModel {
                allowed: allowed_tables.deep_view().to_set(),
                filters: Map::empty(),
            }),
    {
        SyncScope { allowed_tables, table_filters: NameTable::new() }
    }

    /// The scope with one more table.
    pub fn allow_table(self, table: String) -> (r: SyncScope)
        ensures
            r.deep_view() == (ScopeModel {
                allowed: self.deep_view().allowed.insert(table@),
                filters: self.deep_view().filters,
            }),
    {
        let mut scope = self;
        let ghost before = scope.allowed_tables.deep_view();
        add_name(&mut scope.allowed_tables, table.as_str());
        proof {
            let after = scope.allowed_tables.deep_view();
            assert forall|name: Seq<char>| after.contains(name) <==> (before.contains(name) || name
                == table@) by {
                if before.contains(name) {
                    let i = choose|i: int| 0 <= i < before.len() && before[i] == name;
                    assert(after[i] == name);
                }
                if name == table@ && !before.contains(table@) {
                    assert(after[before.len() as int] == name);
                }
            }
            assert(after.to_set() =~= before.to_set().insert(table@));
        }
        scope
    }

    /// The scope with a condition on the rows of a table, in place of the one
    /// that was there.
    pub fn add_filter(self, table: String, filter: QualifiedPredicate) -> (r: SyncScope)
        ensures
            r.deep_view() == (ScopeModel {
                allowed: self.deep_view().allowed,
                filters: self.deep_view().filters.insert(table@, filter.deep_view()),
            }),
    {
        let mut scope = self;
        scope.table_filters.insert(table, filter);
        scope
    }

    /// Whether the scope reaches a table. One that names no table reaches all.
    pub fn can_access(&self, table: &str) -> (r: bool)
        ensures
            r == reaches(self.deep_view(), table@),
    {
        proof {
            let names = self.allowed_tables.deep_view();
            if names.len() > 0 {
                assert(names.contains(names[0]));
                assert(names.to_set().contains(names[0]));
            } else {
                assert(names.to_set() =~= Set::empty());
            }
        }
        self.allowed_tables.len() == 0 || contains_text(&self.allowed_tables, table)
    }

    /// The condition on the rows of a table, if there is one.
    pub fn filter_for(&self, table: &str) -> (r: Option<&QualifiedPredicate>)
        ensures
            match r {
                Some(filter) => self.deep_view().filters.contains_key(table@)
                    && filter.deep_view() == self.deep_view().filters[table@],
                None => !self.deep_view().filters.contains_key(table@),
            },
    {
        self.table_filters.get(table)
    }

    /// Whether the condition on its table hides a change.
    pub fn hides(&self, event: &ChangeEvent) -> (r: bool)
        ensures
            r == hides(self.deep_view(), event.deep_view()),
    {
        let ghost e = event.deep_view();
        let table = event.table();
        match self.filter_for(table) {
            Some(filter) => if is_within_table(filter, table) {
                match event {
                    ChangeEvent::RowInserted { row, .. } => {
                        assert(change_event::event_rows(e)[0] == row.deep_view());
                        !meets_filter(filter, table, row)
                    },
                    ChangeEvent::RowDeleted { row, .. } => {
                        assert(change_event::event_rows(e)[0] == row.deep_view());
                        !meets_filter(filter, table, row)
                    },
                    ChangeEvent::RowUpdated { old_row, new_row, .. } => {
                        assert(change_event::event_rows(e)[0] == old_row.deep_view());
                        assert(change_event::event_rows(e)[1] == new_row.deep_view());
                        !meets_filter(filter, table, old_row) && !meets_filter(
                            filter,
                            table,
                            new_row,
                        )
                    },
                }
            } else {
                false
            },
            None => false,
        }
    }

    /// Whether a change can be seen: its table is reached, and the row meets the
    /// condition on the table, before the change or after it.
    pub fn matches(&self, event: &ChangeEvent) -> (r: bool)
        ensures
            r == visible(self.deep_view(), event.deep_view()),
    {
        self.can_access(event.table()) && !self.hides(event)
    }

    /// A condition, and those of the scope on the rows of some tables.
    fn narrow(&self, tables: &Vec<String>, predicate: Option<QualifiedPredicate>) -> (r: Option<
        QualifiedPredicate,
    >)
        ensures
            r.deep_view() == narrowed(
                self.deep_view().filters,
                tables.deep_view(),
                predicate.deep_view(),
            ),
    {
        let ghost all = tables.deep_view();
        let ghost first = predicate.deep_view();
        let mut out = predicate;
        let mut i: usize = 0;
        while i < tables.len()
            invariant
                i <= tables.len(),
                all == tables.deep_view(),
                out.deep_view() == narrowed(self.deep_view().filters, all.take(i as int), first),
            decreases tables.len() - i,
        {
            proof {
                assert(all.take(i + 1).drop_last() =~= all.take(i as int));
                assert(all.take(i + 1).last() == tables@[i as int]@);
            }
            if let Some(filter) = self.filter_for(tables[i].as_str()) {
                out = match out {
                    None => Some(filter.duplicate()),
                    Some(p) => Some(
                        QualifiedPredicate::And(Box::new(p), Box::new(filter.duplicate())),
                    ),
                };
            }
            i += 1;
        }
        proof {
            assert(all.take(i as int) =~= all);
        }
        out
    }

    /// The query that sees no rows but those that meet the conditions of the
    /// scope.
    pub fn narrow_query(&self, query: &EngineQuery) -> (r: EngineQuery)
        ensures
            r.deep_view() == scoped_query(self.deep_view(), query.deep_view()),
        decreases query,
    {
        let sources = query.source_tables();
        match query {
            EngineQuery::Select { table, projection, predicate, options } => {
                let inner = match predicate {
                    Some(p) => Some(self.narrow_predicate(p)),
                    None => None,
                };
                EngineQuery::Select {
                    table: table.clone(),
                    projection: projection.duplicate(),
                    predicate: self.narrow(&sources, inner),
                    options: Box::new((**options).duplicate()),
                }
            },
            EngineQuery::Update { table, assignments, predicate, joins, from_tables, returning } => {
                let inner = match predicate {
                    Some(p) => Some(self.narrow_predicate(p)),
                    None => None,
                };
                EngineQuery::Update {
                    table: table.clone(),
                    assignments: assignments.duplicate(),
                    predicate: self.narrow(&sources, inner),
                    joins: joins.duplicate(),
                    from_tables: from_tables.duplicate(),
                    returning: returning.duplicate(),
                }
            },
            EngineQuery::Delete { table, predicate, returning } => {
                let inner = match predicate {
                    Some(p) => Some(self.narrow_predicate(p)),
                    None => None,
                };
                EngineQuery::Delete {
                    table: table.clone(),
                    predicate: self.narrow(&sources, inner),
                    returning: returning.duplicate(),
                }
            },
            EngineQuery::Insert { .. } => query.duplicate(),
        }
    }

    fn narrow_predicate(&self, predicate: &QualifiedPredicate) -> (r: QualifiedPredicate)
        ensures
            r.deep_view() == scoped_predicate(self.deep_view(), predicate.deep_view()),
        decreases predicate,
    {
        match predicate {
            QualifiedPredicate::InSubquery { expr, subquery, negated } => {
                QualifiedPredicate::InSubquery {
                    expr: expr.duplicate(),
                    subquery: Box::new(self.narrow_query(subquery)),
                    negated: *negated,
                }
            },
            QualifiedPredicate::And(a, b) => QualifiedPredicate::And(
                Box::new(self.narrow_predicate(a)),
                Box::new(self.narrow_predicate(b)),
            ),
            QualifiedPredicate::Or(a, b) => QualifiedPredicate::Or(
                Box::new(self.narrow_predicate(a)),
                Box::new(self.narrow_predicate(b)),
            ),
            QualifiedPredicate::Not(a) => QualifiedPredicate::Not(
                Box::new(self.narrow_predicate(a)),
            ),
            _ => predicate.duplicate(),
        }
    }

    /// Whether every condition is on a table that is known, and names columns
    /// that are there.
    pub fn validate(&self, schemas: &NameTable<TableSchema>) -> (r: Result<(), EngineError>)
        ensures
            r is Ok <==> is_compatible(self.deep_view(), schemas.deep_view()),
            r matches Err(e) ==> is_incompatibility(
                self.deep_view(),
                schemas.deep_view(),
                e.deep_view(),
            ),
    {
        let ghost filters = self.deep_view().filters;
        let ghost known = schemas.deep_view();
        let names = self.table_filters.names();
        let ghost all = names.deep_view();
        let mut i: usize = 0;
        while i < names.len()
            invariant
                i <= names.len(),
                all == names.deep_view(),
                filters == self.deep_view().filters,
                known == schemas.deep_view(),
                forall|name: Seq<char>| #[trigger]
                    filters.contains_key(name) <==> all.contains(name),
                forall|j: int|
                    0 <= j < i ==> known.contains_key(#[trigger] all[j]) && all_there(
                        predicate_columns(filters[all[j]]),
                        known,
                    ),
            decreases names.len() - i,
        {
            let name = names[i].as_str();
            proof {
                assert(all[i as int] == name@);
                assert(filters.contains_key(name@));
            }
            if !schemas.contains_key(name) {
                return Err(EngineError::TableNotFound(name.to_string()));
            }
            if let Some(filter) = self.filter_for(name) {
                let mut columns: Vec<QualifiedColumn> = no_items();
                gather_predicate(filter, &mut columns);
                proof {
                    assert(columns.deep_view() =~= predicate_columns(filters[name@]));
                }
                if let Err(e) = check_columns(&columns, schemas) {
                    return Err(e);
                }
            }
            i += 1;
        }
        proof {
            assert forall|name: Seq<char>| #[trigger]
                filters.contains_key(name) implies known.contains_key(name) && all_there(
                predicate_columns(filters[name]),
                known,
            ) by {
                let j = choose|j: int| 0 <= j < all.len() && all[j] == name;
                assert(known.contains_key(all[j]));
            }
        }
        Ok(())
    }

    /// A copy of the scope.
    pub fn duplicate(&self) -> (r: SyncScope)
        ensures
            r.deep_view() == self.deep_view(),
    {
        SyncScope {
            allowed_tables: self.allowed_tables.duplicate(),
            table_filters: self.table_filters.duplicate(),
        }
    }
}

impl Default for SyncScope {
    /// The scope of a peer that may see everything.
    fn default() -> (r: Self)
        ensures
            r.deep_view() == everything(),
    {
        SyncScope::unrestricted()
    }
}

/// Law: a peer that may see everything reaches every table.
pub proof fn law_everything_reaches(table: Seq<char>)
    ensures
        reaches(everything(), table),
{
}

/// Law: once a table is named, exactly the named tables are reached.
pub proof fn law_named_tables_only(scope: ScopeModel, named: Seq<char>, table: Seq<char>)
    ensures
        reaches(
            ScopeModel { allowed: scope.allowed.insert(named), filters: scope.filters },
            table,
        ) <==> (table == named || scope.allowed.contains(table)),
{
    assert(scope.allowed.insert(named).contains(named));
}

/// Joined rows meet a condition, where there is one.
pub open spec fn admits(p: Option<PredicateModel>, state: StateModel, cache: CacheModel) -> bool {
    match p {
        None => true,
        Some(p) => predicate::holds(p, state, cache),
    }
}

/// Law: rows are seen under a scope exactly if they meet the condition of the
/// query and every condition of the scope on its tables.
pub proof fn law_scope_hides_rows(
    filters: Map<Seq<char>, PredicateModel>,
    tables: Seq<Seq<char>>,
    p: Option<PredicateModel>,
    state: StateModel,
    cache: CacheModel,
)
    ensures
        admits(narrowed(filters, tables, p), state, cache) <==> (admits(p, state, cache) && forall|
            i: int,
        |
            0 <= i < tables.len() && filters.contains_key(tables[i]) ==> predicate::holds(
                filters[#[trigger] tables[i]],
                state,
                cache,
            )),
    decreases tables.len(),
{
    if tables.len() > 0 {
        let before = tables.drop_last();
        let last = tables.last();
        law_scope_hides_rows(filters, before, p, state, cache);
        assert forall|i: int| 0 <= i < before.len() implies before[i] == tables[i] by {}
        if admits(narrowed(filters, tables, p), state, cache) {
            assert(admits(narrowed(filters, before, p), state, cache));
            assert forall|i: int|
                0 <= i < tables.len() && filters.contains_key(
                    #[trigger] tables[i],
                ) implies predicate::holds(filters[tables[i]], state, cache) by {
                if i < before.len() {
                    assert(before[i] == tables[i]);
                }
            }
        } else if filters.contains_key(last) && admits(narrowed(filters, before, p), state, cache) {
            assert(tables[tables.len() - 1] == last);
            assert(!predicate::holds(filters[last], state, cache));
        } else if admits(p, state, cache) {
            let i = choose|i: int|
                0 <= i < before.len() && filters.contains_key(before[i]) && !predicate::holds(
                    filters[#[trigger] before[i]],
                    state,
                    cache,
                );
            assert(tables[i] == before[i]);
        }
    }
}

proof fn lemma_nothing_narrowed(
    filters: Map<Seq<char>, PredicateModel>,
    tables: Seq<Seq<char>>,
    p: Option<PredicateModel>,
)
    requires
        filters == Map::<Seq<char>, PredicateModel>::empty(),
    ensures
        narrowed(filters, tables, p) == p,
    decreases tables.len(),
{
    if tables.len() > 0 {
        lemma_nothing_narrowed(filters, tables.drop_last(), p);
    }
}

/// Law: a scope without conditions on rows leaves a query as it is.
pub proof fn law_no_filters_no_change(scope: ScopeModel, q: QueryModel)
    requires
        scope.filters == Map::<Seq<char>, PredicateModel>::empty(),
    ensures
        scoped_query(scope, q) == q,
    decreases q,
{
    let sources = query::source_tables(q);
    match q {
        QueryModel::Select { predicate, .. } => {
            if let Some(p) = predicate {
                lemma_no_filters_condition(scope, p);
            }
            lemma_nothing_narrowed(scope.filters, sources, predicate);
        },
        QueryModel::Update { predicate, .. } => {
            if let Some(p) = predicate {
                lemma_no_filters_condition(scope, p);
            }
            lemma_nothing_narrowed(scope.filters, sources, predicate);
        },
        QueryModel::Delete { predicate, .. } => {
            if let Some(p) = predicate {
                lemma_no_filters_condition(scope, p);
            }
            lemma_nothing_narrowed(scope.filters, sources, predicate);
        },
        QueryModel::Insert { .. } => {},
    }
}

proof fn lemma_no_filters_condition(scope: ScopeModel, p: PredicateModel)
    requires
        scope.filters == Map::<Seq<char>, PredicateModel>::empty(),
    ensures
        scoped_predicate(scope, p) == p,
    decreases p,
{
    match p {
        PredicateModel::InSubquery { subquery, .. } => {
            law_no_filters_no_change(scope, *subquery);
        },
        PredicateModel::And(a, b) => {
            lemma_no_filters_condition(scope, *a);
            lemma_no_filters_condition(scope, *b);
        },
        PredicateModel::Or(a, b) => {
            lemma_no_filters_condition(scope, *a);
            lemma_no_filters_condition(scope, *b);
        },
        PredicateModel::Not(a) => {
            lemma_no_filters_condition(scope, *a);
        },
        _ => {},
    }
}

} // verus!
