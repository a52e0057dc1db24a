//! Putting the rows of several tables side by side.
use vstd::prelude::*;
use crate::error::{self, EngineError, ErrorModel};
use crate::name_table::NameTable;
use crate::operators::join_algorithm::{
    self, JoinAlgorithm, NestedLoopFull, NestedLoopInner, NestedLoopLeft, NestedLoopRight,
};
use crate::plain::{self, no_items, push_back, Plain};
use crate::predicate::{JoinedRowState, StateModel};
use crate::query::{self, add_joined, add_names, JoinClause, JoinKind, JoinModel, JoinOn, JoinOnModel};
use crate::schema;
use crate::store::{self, KeyModel, RowModel, RowStore, Trees, TreeView};
use crate::text::{self, decimal, joined3};
use crate::value::{EngineRow, PrimaryKey};

verus! {

/// Rows of several tables side by side.
pub type JoinedRowStates = Vec<JoinedRowState>;

/// The rows of each table.
pub type TableRows = NameTable<Vec<EngineRow>>;

/// The rows of each table, mathematically.
pub type RowsModel = Map<Seq<char>, Seq<RowModel>>;

/// How many joined rows there may be.
pub const MAX_JOIN_STATES: usize = 100_000;

/// The error for too many joined rows.
pub open spec fn too_many(len: nat) -> ErrorModel {
    ErrorModel::QueryLimitExceeded(
        "join state size "@ + text::decimal_text(len)
            + " exceeded max 100000; refine joins/predicates"@,
    )
}

/// Refuses more joined rows than there may be.
fn ensure_join_state_limit(len: usize) -> (r: Result<(), EngineError>)
    ensures
        plain::outcome(r) == if len > MAX_JOIN_STATES {
            Err(too_many(len as nat))
        } else {
            Ok::<(), ErrorModel>(())
        },
{
    if len > MAX_JOIN_STATES {
        return Err(
            EngineError::QueryLimitExceeded(
                joined3(
                    "join state size ",
                    decimal(len as u64).as_str(),
                    " exceeded max 100000; refine joins/predicates",
                ),
            ),
        );
    }
    Ok(())
}

/// All tables that are read, each once.
pub open spec fn tables_read(
    base: Seq<char>,
    from_tables: Seq<Seq<char>>,
    joins: Seq<JoinModel>,
) -> Seq<Seq<char>> {
    query::with_joined(query::with_names(seq![base], from_tables), joins)
}

/// All tables that are read, each once.
pub fn collect_tables(base_table: &str, from_tables: &Vec<String>, joins: &Vec<JoinClause>) -> (r: Vec<
    String,
>)
    ensures
        r.deep_view() == tables_read(base_table@, from_tables.deep_view(), joins.deep_view()),
{
    let mut tables: Vec<String> = plain::one_item(base_table.to_string());
    proof {
        assert(tables.deep_view() =~= seq![base_table@]);
    }
    add_names(&mut tables, from_tables);
    add_joined(&mut tables, joins);
    tables
}

/// No table has a row.
pub open spec fn template_of(tables: Seq<Seq<char>>) -> StateModel {
    Map::new(|t: Seq<char>| tables.contains(t), |t: Seq<char>| None)
}

/// The state in which no table has a row.
pub fn build_join_template(tables: &Vec<String>) -> (r: JoinedRowState)
    ensures
        r.deep_view() == template_of(tables.deep_view()),
{
    let ghost all = tables.deep_view();
    let mut template: JoinedRowState = NameTable::new();
    let mut i: usize = 0;
    proof {
        assert(template.deep_view() =~= template_of(all.take(0)));
    }
    while i < tables.len()
        invariant
            i <= tables.len(),
            all == tables.deep_view(),
            template.deep_view() == template_of(all.take(i as int)),
        decreases tables.len() - i,
    {
        let ghost before = template.deep_view();
        template.insert(tables[i].clone(), None);
        proof {
            let next = all.take(i + 1);
            assert(all[i as int] == tables@[i as int]@);
            assert(next =~= all.take(i as int).push(all[i as int]));
            assert forall|t: Seq<char>| next.contains(t) <==> (all.take(i as int).contains(t) || t
                == all[i as int]) by {
                if all.take(i as int).contains(t) {
                    let j = choose|j: int| 0 <= j < i && all.take(i as int)[j] == t;
                    assert(next[j] == t);
                }
                if t == all[i as int] {
                    assert(next[i as int] == t);
                }
                if next.contains(t) {
                    let j = choose|j: int| 0 <= j < next.len() && next[j] == t;
                    if j < i {
                        assert(all.take(i as int)[j] == t);
                    }
                }
            }
            assert(template.deep_view() =~= template_of(next));
        }
        i += 1;
    }
    proof {
        assert(all.take(i as int) =~= all);
    }
    template
}

/// The rows of a list of entries.
pub open spec fn rows_only(entries: Seq<(KeyModel, RowModel)>) -> Seq<RowModel> {
    entries.map_values(|entry: (KeyModel, RowModel)| entry.1)
}

pub fn only_rows(entries: &Vec<(PrimaryKey, EngineRow)>) -> (r: Vec<EngineRow>)
    ensures
        r.deep_view() == rows_only(entries.deep_view()),
{
    let ghost wanted = rows_only(entries.deep_view());
    let mut out: Vec<EngineRow> = no_items();
    let mut i: usize = 0;
    while i < entries.len()
        invariant
            i <= entries.len(),
            wanted == rows_only(entries.deep_view()),
            out.deep_view() == wanted.take(i as int),
        decreases entries.len() - i,
    {
        push_back(&mut out, entries[i].1.duplicate());
        proof {
            assert(entries.deep_view()[i as int].1 == entries@[i as int].1.deep_view());
            assert(out.deep_view() =~= wanted.take(i + 1));
        }
        i += 1;
    }
    proof {
        assert(wanted.take(i as int) =~= wanted);
    }
    out
}

/// The rows of tables.
pub open spec fn rows_by_table(trees: Trees, tables: Seq<Seq<char>>) -> RowsModel {
    Map::new(
        |t: Seq<char>| tables.contains(t),
        |t: Seq<char>| rows_only(store::table_rows(trees, t)),
    )
}

/// The rows of all tables of a list can be listed.
pub open spec fn all_listed(trees: Trees, tables: Seq<Seq<char>>) -> bool {
    forall|t: Seq<char>| #[trigger]
        tables.contains(t) ==> store::keys_fit(store::table_rows(trees, t))
}

/// The rows of tables, if they can be listed.
pub open spec fn tables_listed(trees: Trees, tables: Seq<Seq<char>>) -> Result<
    RowsModel,
    ErrorModel,
> {
    if all_listed(trees, tables) {
        Ok(rows_by_table(trees, tables))
    } else {
        Err(schema::no_primary_key())
    }
}

/// The rows of tables.
pub fn collect_table_rows_map<TX: RowStore>(tx: &TX, tables: &Vec<String>) -> (r: Result<
    TableRows,
    EngineError,
>)
    ensures
        error::settles(
            r,
            tx.sound(),
            tables_listed(tx.trees(), tables.deep_view()),
        ),
{
    let ghost all = tables.deep_view();
    let mut map: TableRows = NameTable::new();
    let mut i: usize = 0;
    proof {
        assert(map.deep_view() =~= rows_by_table(tx.trees(), all.take(0)));
    }
    while i < tables.len()
        invariant
            i <= tables.len(),
            all == tables.deep_view(),
            map.deep_view() == rows_by_table(tx.trees(), all.take(i as int)),
            all_listed(tx.trees(), all.take(i as int)),
        decreases tables.len() - i,
    {
        match tx.range_table_rows(tables[i].as_str()) {
            Ok(entries) => {
                map.insert(tables[i].clone(), only_rows(&entries));
            },
            Err(e) => {
                assert(all[i as int] == tables@[i as int]@);
                assert(all.contains(all[i as int]));
                return Err(e);
            },
        }
        proof {
            let next = all.take(i + 1);
            assert(all[i as int] == tables@[i as int]@);
            assert forall|t: Seq<char>| next.contains(t) <==> (all.take(i as int).contains(t) || t
                == all[i as int]) by {
                if all.take(i as int).contains(t) {
                    let j = choose|j: int| 0 <= j < i && all.take(i as int)[j] == t;
                    assert(next[j] == t);
                }
                if t == all[i as int] {
                    assert(next[i as int] == t);
                }
                if next.contains(t) {
                    let j = choose|j: int| 0 <= j < next.len() && next[j] == t;
                    if j < i {
                        assert(all.take(i as int)[j] == t);
                    }
                }
            }
            assert(map.deep_view() =~= rows_by_table(tx.trees(), next));
        }
        i += 1;
    }
    proof {
        assert(all.take(i as int) =~= all);
    }
    Ok(map)
}

/// A state once for each row, with that row in a table.
pub open spec fn spread(state: StateModel, table: Seq<char>, rows: Seq<RowModel>) -> Seq<StateModel> {
    rows.map_values(|row: RowModel| state.insert(table, Some(row)))
}

/// The rows of a table; one of which nothing is known has none.
pub open spec fn rows_in(rows: RowsModel, table: Seq<char>) -> Seq<RowModel> {
    if rows.contains_key(table) {
        rows[table]
    } else {
        Seq::empty()
    }
}

/// A state for each row of the base table.
pub open spec fn seeded(base: Seq<char>, rows: RowsModel, template: StateModel) -> Seq<StateModel> {
    spread(template, base, rows_in(rows, base))
}

/// Adds the states of [`spread`].
fn push_spread(out: &mut JoinedRowStates, state: &JoinedRowState, table: &str, rows: &Vec<EngineRow>)
    ensures
        final(out).deep_view() == old(out).deep_view() + spread(
            state.deep_view(),
            table@,
            rows.deep_view(),
        ),
{
    let ghost before = out.deep_view();
    let ghost wanted = spread(state.deep_view(), table@, rows.deep_view());
    let mut i: usize = 0;
    proof {
        assert(before =~= before + wanted.take(0));
    }
    while i < rows.len()
        invariant
            i <= rows.len(),
            wanted == spread(state.deep_view(), table@, rows.deep_view()),
            out.deep_view() == before + wanted.take(i as int),
        decreases rows.len() - i,
    {
        let mut next = state.duplicate();
        let row = rows[i].duplicate();
        let ghost placed = Some(row).deep_view();
        next.insert(table.to_string(), Some(row));
        proof {
            assert(rows.deep_view()[i as int] == rows@[i as int].deep_view());
            assert(placed == Some(rows.deep_view()[i as int]));
        }
        push_back(out, next);
        proof {
            assert(out.deep_view() =~= before + wanted.take(i + 1));
        }
        i += 1;
    }
    proof {
        assert(wanted.take(i as int) =~= wanted);
    }
}

/// A state for each row of the base table.
pub fn seed_joined_row_states(
    base_table: &str,
    table_rows_map: &TableRows,
    template: &JoinedRowState,
) -> (r: JoinedRowStates)
    ensures
        r.deep_view() == seeded(
            base_table@,
            table_rows_map.deep_view(),
            template.deep_view(),
        ),
{
    let mut out: JoinedRowStates = no_items();
    if let Some(rows) = table_rows_map.get(base_table) {
        push_spread(&mut out, template, base_table, rows);
    }
    proof {
        assert(out.deep_view() =~= seeded(
            base_table@,
            table_rows_map.deep_view(),
            template.deep_view(),
        ));
    }
    out
}

/// Each state once for each row of a table.
pub open spec fn spread_all(states: Seq<StateModel>, table: Seq<char>, rows: Seq<RowModel>) -> Seq<
    StateModel,
>
    decreases states.len(),
{
    if states.len() == 0 {
        Seq::empty()
    } else {
        spread_all(states.drop_last(), table, rows) + spread(states.last(), table, rows)
    }
}

/// Law: a table with `n` rows makes `n` states of each.
pub proof fn law_spread_multiplies(states: Seq<StateModel>, table: Seq<char>, rows: Seq<RowModel>)
    ensures
        spread_all(states, table, rows).len() == states.len() * rows.len(),
    decreases states.len(),
{
    if states.len() > 0 {
        law_spread_multiplies(states.drop_last(), table, rows);
        let n = rows.len();
        let m = states.len();
        assert((m - 1) * n + n == m * n) by (nonlinear_arith);
    }
}

/// States with the rows of further tables: every combination, up to the
/// greatest number that there may be.
pub open spec fn expanded(
    states: Seq<StateModel>,
    from_tables: Seq<Seq<char>>,
    rows: RowsModel,
) -> Result<Seq<StateModel>, ErrorModel>
    decreases from_tables.len(),
{
    if from_tables.len() == 0 {
        Ok(states)
    } else {
        let source = rows_in(rows, from_tables[0]);
        if source.len() == 0 {
            Ok(Seq::empty())
        } else {
            let next = spread_all(states, from_tables[0], source);
            if next.len() > MAX_JOIN_STATES {
                Err(too_many(next.len()))
            } else {
                expanded(next, from_tables.drop_first(), rows)
            }
        }
    }
}

/// States with the rows of further tables.
pub fn expand_with_from_tables(
    partial_results: JoinedRowStates,
    from_tables: &Vec<String>,
    table_rows_map: &TableRows,
) -> (r: Result<JoinedRowStates, EngineError>)
    ensures
        plain::outcome(r) == expanded(
            partial_results.deep_view(),
            from_tables.deep_view(),
            table_rows_map.deep_view(),
        ),
{
    let ghost all = from_tables.deep_view();
    let ghost rows = table_rows_map.deep_view();
    let ghost wanted = expanded(partial_results.deep_view(), all, rows);
    let mut states = partial_results;
    let mut i: usize = 0;
    proof {
        assert(all.skip(0) =~= all);
    }
    while i < from_tables.len()
        invariant
            i <= from_tables.len(),
            all == from_tables.deep_view(),
            rows == table_rows_map.deep_view(),
            wanted == expanded(
                partial_results.deep_view(),
                from_tables.deep_view(),
                table_rows_map.deep_view(),
            ),
            wanted == expanded(states.deep_view(), all.skip(i as int), rows),
        decreases from_tables.len() - i,
    {
        let table = &from_tables[i];
        proof {
            assert(all.skip(i as int)[0] == table@);
            assert(all.skip(i as int).drop_first() =~= all.skip(i + 1));
        }
        let source: Vec<EngineRow> = match table_rows_map.get(table.as_str()) {
            Some(source) => source.duplicate(),
            None => no_items(),
        };
        assert(source.len() == source.deep_view().len());
        if source.len() == 0 {
            return Ok(no_items());
        }
        let ghost before = states.deep_view();
        let mut next: JoinedRowStates = no_items();
        let mut k: usize = 0;
        while k < states.len()
            invariant
                k <= states.len(),
                before == states.deep_view(),
                next.deep_view() == spread_all(
                    before.take(k as int),
                    table@,
                    source.deep_view(),
                ),
            decreases states.len() - k,
        {
            proof {
                assert(before.take(k + 1).drop_last() =~= before.take(k as int));
                assert(before.take(k + 1).last() == states@[k as int].deep_view());
            }
            push_spread(&mut next, &states[k], table.as_str(), &source);
            k += 1;
        }
        proof {
            assert(before.take(k as int) =~= before);
            assert(next.len() == next.deep_view().len());
        }
        match ensure_join_state_limit(next.len()) {
            Ok(()) => {},
            Err(e) => {
                return Err(e);
            },
        }
        states = next;
        i += 1;
    }
    Ok(states)
}

/// One join.
pub open spec fn join_applied(
    join: JoinModel,
    rows: RowsModel,
    template: StateModel,
    states: Seq<StateModel>,
) -> Seq<StateModel> {
    match join.on {
        JoinOnModel::ColumnEq { left, right } => join_algorithm::joined_by(
            join.kind,
            states,
            rows_in(rows, join.right_table),
            join.right_table,
            left,
            right,
            template,
        ),
    }
}

/// One join.
pub fn apply_join(
    join: &JoinClause,
    table_rows_map: &TableRows,
    template: &JoinedRowState,
    partial_results: &JoinedRowStates,
) -> (r: JoinedRowStates)
    ensures
        r.deep_view() == join_applied(
            join.deep_view(),
            table_rows_map.deep_view(),
            template.deep_view(),
            partial_results.deep_view(),
        ),
{
    let right_table = join.right_table.as_str();
    let right_rows: Vec<EngineRow> = match table_rows_map.get(right_table) {
        Some(rows) => rows.duplicate(),
        None => no_items(),
    };
    let states = partial_results.as_slice();
    let rows = right_rows.as_slice();
    proof {
        assert(states.deep_view() =~= partial_results.deep_view());
        assert(rows.deep_view() =~= right_rows.deep_view());
    }
    match &join.on {
        JoinOn::ColumnEq { left, right } => match join.kind {
            JoinKind::Inner => NestedLoopInner.apply(
                states,
                rows,
                right_table,
                left,
                right,
                template,
            ),
            JoinKind::Left => NestedLoopLeft.apply(
                states,
                rows,
                right_table,
                left,
                right,
                template,
            ),
            JoinKind::Right => NestedLoopRight.apply(
                states,
                rows,
                right_table,
                left,
                right,
                template,
            ),
            JoinKind::Full => NestedLoopFull.apply(
                states,
                rows,
                right_table,
                left,
                right,
                template,
            ),
        },
    }
}

/// Joins, one after the other, up to the greatest number of states that there
/// may be.
pub open spec fn joined_within_limit(
    joins: Seq<JoinModel>,
    rows: RowsModel,
    template: StateModel,
    states: Seq<StateModel>,
) -> Result<Seq<StateModel>, ErrorModel>
    decreases joins.len(),
{
    if joins.len() == 0 {
        Ok(states)
    } else {
        let next = join_applied(joins[0], rows, template, states);
        if next.len() > MAX_JOIN_STATES {
            Err(too_many(next.len()))
        } else {
            joined_within_limit(joins.drop_first(), rows, template, next)
        }
    }
}

/// Joins, one after the other.
pub fn apply_join_clauses(
    joins: &Vec<JoinClause>,
    table_rows_map: &TableRows,
    template: &JoinedRowState,
    partial_results: JoinedRowStates,
) -> (r: Result<JoinedRowStates, EngineError>)
    ensures
        plain::outcome(r) == joined_within_limit(
            joins.deep_view(),
            table_rows_map.deep_view(),
            template.deep_view(),
            partial_results.deep_view(),
        ),
{
    let ghost all = joins.deep_view();
    let ghost rows = table_rows_map.deep_view();
    let ghost wanted = joined_within_limit(
        all,
        rows,
        template.deep_view(),
        partial_results.deep_view(),
    );
    let mut states = partial_results;
    let mut i: usize = 0;
    proof {
        assert(all.skip(0) =~= all);
    }
    while i < joins.len()
        invariant
            i <= joins.len(),
            all == joins.deep_view(),
            rows == table_rows_map.deep_view(),
            wanted == joined_within_limit(
                joins.deep_view(),
                table_rows_map.deep_view(),
                template.deep_view(),
                partial_results.deep_view(),
            ),
            wanted == joined_within_limit(
                all.skip(i as int),
                rows,
                template.deep_view(),
                states.deep_view(),
            ),
        decreases joins.len() - i,
    {
        proof {
            assert(all.skip(i as int)[0] == joins@[i as int].deep_view());
            assert(all.skip(i as int).drop_first() =~= all.skip(i + 1));
        }
        let next = apply_join(&joins[i], table_rows_map, template, &states);
        assert(next.len() == next.deep_view().len());
        match ensure_join_state_limit(next.len()) {
            Ok(()) => {},
            Err(e) => {
                return Err(e);
            },
        }
        states = next;
        i += 1;
    }
    Ok(states)
}

/// Law: joins that go through stay within the greatest number of states.
pub proof fn law_joins_stay_within_limit(
    joins: Seq<JoinModel>,
    rows: RowsModel,
    template: StateModel,
    states: Seq<StateModel>,
)
    requires
        states.len() <= MAX_JOIN_STATES,
    ensures
        joined_within_limit(joins, rows, template, states) matches Ok(r) ==> r.len()
            <= MAX_JOIN_STATES,
    decreases joins.len(),
{
    if joins.len() > 0 {
        let next = join_applied(joins[0], rows, template, states);
        if next.len() <= MAX_JOIN_STATES {
            law_joins_stay_within_limit(joins.drop_first(), rows, template, next);
        }
    }
}

} // verus!
