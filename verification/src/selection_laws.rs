//! What selections and updates read: the tables, their joins, and subqueries.
use vstd::prelude::*;
use crate::catalog::CatalogModel;
use crate::error::ErrorModel;
use crate::executor::{self, UpdateModel};
use crate::float::FloatOp;
use crate::join_builder::{self, RowsModel};
use crate::planner;
use crate::predicate::{CacheModel, StateModel};
use crate::query::{self, ColumnRef, JoinModel, OptionsModel, PredicateModel, QueryModel};
use crate::read_laws;
use crate::readback_laws::{self, without_subqueries};
use crate::result_laws;
use crate::schema::TableModel;
use crate::select_orchestrator;
use crate::select_pipeline;
use crate::store::{self, KeyModel, RowModel, Trees};
use crate::table_laws::{self, is_key_of};
use crate::value::ValueModel;

verus! {

/// A table is read: it is the first one, one of those beside it, or one of a join.
pub open spec fn is_read(
    table: Seq<char>,
    beside: Seq<Seq<char>>,
    joins: Seq<JoinModel>,
    t: Seq<char>,
) -> bool {
    ||| t == table
    ||| beside.contains(t)
    ||| exists|k: int|
        0 <= k < joins.len() && ((#[trigger] joins[k]).right_table == t || joins[k].left_table == t)
}

proof fn lemma_with_name(names: Seq<Seq<char>>, name: Seq<char>, t: Seq<char>)
    ensures
        query::with_name(names, name).contains(t) <==> names.contains(t) || t == name,
{
    let after = query::with_name(names, name);
    if names.contains(t) {
        let i = choose|i: int| 0 <= i < names.len() && names[i] == t;
        assert(after[i] == t);
    }
    if !names.contains(name) {
        assert(after[names.len() as int] == name);
        if after.contains(t) && t != name {
            let i = choose|i: int| 0 <= i < after.len() && after[i] == t;
            assert(names[i] == t);
        }
    }
}

/// Names that are added are there, with those from before.
pub proof fn lemma_with_names(names: Seq<Seq<char>>, more: Seq<Seq<char>>, t: Seq<char>)
    ensures
        query::with_names(names, more).contains(t) <==> names.contains(t) || more.contains(t),
    decreases more.len(),
{
    if more.len() > 0 {
        let rest = more.drop_last();
        lemma_with_names(names, rest, t);
        lemma_with_name(query::with_names(names, rest), more.last(), t);
        if more.contains(t) {
            let i = choose|i: int| 0 <= i < more.len() && more[i] == t;
            if i < rest.len() {
                assert(rest[i] == t);
            }
        }
        if rest.contains(t) {
            let i = choose|i: int| 0 <= i < rest.len() && rest[i] == t;
            assert(more[i] == t);
        }
        assert(more[more.len() - 1] == more.last());
    }
}

/// A join is of a table.
pub open spec fn joins_table(joins: Seq<JoinModel>, t: Seq<char>) -> bool {
    exists|k: int|
        0 <= k < joins.len() && ((#[trigger] joins[k]).right_table == t || joins[k].left_table == t)
}

/// The tables of joins are there, with those from before.
pub proof fn lemma_with_joined(names: Seq<Seq<char>>, joins: Seq<JoinModel>, t: Seq<char>)
    ensures
        query::with_joined(names, joins).contains(t) <==> names.contains(t) || joins_table(
            joins,
            t,
        ),
    decreases joins.len(),
{
    if joins.len() > 0 {
        let rest = joins.drop_last();
        let last = joins[joins.len() - 1];
        lemma_with_joined(names, rest, t);
        let before = query::with_joined(names, rest);
        lemma_with_name(before, last.left_table, t);
        lemma_with_name(query::with_name(before, last.left_table), last.right_table, t);
        if joins_table(joins, t) {
            let k = choose|k: int|
                0 <= k < joins.len() && ((#[trigger] joins[k]).right_table == t
                    || joins[k].left_table == t);
            if k < rest.len() {
                assert(rest[k] == joins[k]);
            }
        }
        if joins_table(rest, t) {
            let k = choose|k: int|
                0 <= k < rest.len() && ((#[trigger] rest[k]).right_table == t || rest[k].left_table
                    == t);
            assert(joins[k] == rest[k]);
        }
    }
}

/// Law: the tables that are read are the first one, those beside it, and those of
/// the joins.
pub proof fn law_tables_read(
    table: Seq<char>,
    beside: Seq<Seq<char>>,
    joins: Seq<JoinModel>,
    t: Seq<char>,
)
    ensures
        join_builder::tables_read(table, beside, joins).contains(t) <==> is_read(
            table,
            beside,
            joins,
            t,
        ),
{
    let first = seq![table];
    assert(first.contains(t) <==> t == table) by {
        assert(first[0] == table);
    }
    lemma_with_names(first, beside, t);
    lemma_with_joined(query::with_names(first, beside), joins, t);
}

/// `rows` holds the rows of every table that is read, in the order of the table.
pub open spec fn are_rows(
    rows: RowsModel,
    trees: Trees,
    table: Seq<char>,
    beside: Seq<Seq<char>>,
    joins: Seq<JoinModel>,
) -> bool {
    &&& forall|t: Seq<char>| #[trigger]
        rows.contains_key(t) <==> is_read(table, beside, joins, t)
    &&& forall|t: Seq<char>|
        rows.contains_key(t) ==> (#[trigger] rows[t]).len() == store::table_rows(trees, t).len()
            && forall|i: int|
            0 <= i < rows[t].len() ==> #[trigger] rows[t][i] == store::table_rows(trees, t)[i].1
}

/// No table that is read has a row yet, and there are no others.
pub open spec fn is_template(
    template: StateModel,
    table: Seq<char>,
    beside: Seq<Seq<char>>,
    joins: Seq<JoinModel>,
) -> bool {
    &&& forall|t: Seq<char>| #[trigger]
        template.contains_key(t) <==> is_read(table, beside, joins, t)
    &&& forall|t: Seq<char>| template.contains_key(t) ==> #[trigger] template[t] is None
}

/// The rows of the first table, each beside the template.
pub open spec fn first_states(
    rows: Seq<RowModel>,
    table: Seq<char>,
    template: StateModel,
) -> Seq<StateModel> {
    Seq::new(rows.len(), |i: int| template.insert(table, Some(rows[i])))
}

proof fn lemma_start(trees: Trees, table: Seq<char>, beside: Seq<Seq<char>>, joins: Seq<JoinModel>)
    ensures
        ({
            let tables = join_builder::tables_read(table, beside, joins);
            let rows = join_builder::rows_by_table(trees, tables);
            let template = join_builder::template_of(tables);
            &&& are_rows(rows, trees, table, beside, joins)
            &&& is_template(template, table, beside, joins)
            &&& rows.contains_key(table)
            &&& join_builder::seeded(table, rows, template) == first_states(
                rows[table],
                table,
                template,
            )
        }),
{
    let tables = join_builder::tables_read(table, beside, joins);
    let rows = join_builder::rows_by_table(trees, tables);
    let template = join_builder::template_of(tables);
    assert forall|t: Seq<char>| #[trigger]
        tables.contains(t) <==> is_read(table, beside, joins, t) by {
        law_tables_read(table, beside, joins, t);
    }
    assert(is_read(table, beside, joins, table));
    assert forall|t: Seq<char>| #[trigger]
        rows.contains_key(t) <==> is_read(table, beside, joins, t) by {
        assert(tables.contains(t) <==> is_read(table, beside, joins, t));
    }
    assert forall|t: Seq<char>| #[trigger]
        template.contains_key(t) <==> is_read(table, beside, joins, t) by {
        assert(tables.contains(t) <==> is_read(table, beside, joins, t));
    }
    assert(join_builder::seeded(table, rows, template) =~= first_states(
        rows[table],
        table,
        template,
    ));
}

/// The rows of all tables that are read are stored under primary keys.
pub open spec fn all_listable(
    trees: Trees,
    table: Seq<char>,
    beside: Seq<Seq<char>>,
    joins: Seq<JoinModel>,
) -> bool {
    forall|t: Seq<char>, key: KeyModel, row: RowModel|
        is_read(table, beside, joins, t) && #[trigger] table_laws::is_stored(trees, t, key, row)
            ==> key.len() == 1 && (key[0] is Uuid || key[0] is Integer)
}

proof fn lemma_all_listed(
    trees: Trees,
    table: Seq<char>,
    beside: Seq<Seq<char>>,
    joins: Seq<JoinModel>,
)
    requires
        trees.dom().finite(),
        all_listable(trees, table, beside, joins),
    ensures
        join_builder::all_listed(trees, join_builder::tables_read(table, beside, joins)),
{
    let tables = join_builder::tables_read(table, beside, joins);
    assert forall|t: Seq<char>| #[trigger] tables.contains(t) implies store::keys_fit(
        store::table_rows(trees, t),
    ) by {
        law_tables_read(table, beside, joins, t);
        table_laws::law_rows_are_listed(trees, t);
        let list = store::table_rows(trees, t);
        assert forall|i: int| 0 <= i < list.len() implies crate::value::is_primary_key(
            (#[trigger] list[i]).0,
        ) by {
            assert(list.contains((list[i].0, list[i].1)));
            assert(table_laws::is_stored(trees, t, list[i].0, list[i].1));
        }
    }
}

/// Law: a SELECT without subqueries starts from the rows of its table, joins them
/// with those of the other tables as its joins say, and goes on from there. It
/// changes nothing.
pub proof fn law_selection_joins_rows<F: Fn(FloatOp) -> u64>(
    f: F,
    c: CatalogModel,
    trees: Trees,
    table: Seq<char>,
    columns: Seq<ColumnRef>,
    p: Option<PredicateModel>,
    options: OptionsModel,
)
    requires
        trees.dom().finite(),
        all_listable(trees, table, Seq::empty(), options.joins),
        p matches Some(q) ==> without_subqueries(q),
    ensures
        ({
            let done = planner::run_of(
                f,
                c,
                QueryModel::Select { table, projection: columns, predicate: p, options },
                trees,
            );
            &&& done.trees == trees
            &&& done.events.len() == 0
            &&& exists|rows: RowsModel, template: StateModel|
                are_rows(rows, trees, table, Seq::empty(), options.joins) && is_template(
                    template,
                    table,
                    Seq::empty(),
                    options.joins,
                ) && done.result == select_orchestrator::selected_rows(
                    f,
                    #[trigger] select_pipeline::joins_applied(
                        options.joins,
                        rows,
                        template,
                        first_states(rows[table], table, template),
                    ),
                    columns,
                    p,
                    options,
                    CacheModel::empty(),
                )
        }),
{
    let tables = join_builder::tables_read(table, Seq::empty(), options.joins);
    let rows = join_builder::rows_by_table(trees, tables);
    let template = join_builder::template_of(tables);
    lemma_start(trees, table, Seq::empty(), options.joins);
    lemma_all_listed(trees, table, Seq::empty(), options.joins);
    if let Some(q) = p {
        readback_laws::lemma_nothing_run(f, c, q, CacheModel::empty(), trees);
    }
    assert(select_pipeline::materialized(trees, table, options.joins)
        == select_pipeline::joins_applied(
        options.joins,
        rows,
        template,
        first_states(rows[table], table, template),
    ));
}

/// The first values of rows, all of which have one.
pub open spec fn are_firsts(values: Seq<ValueModel>, rows: Seq<RowModel>) -> bool {
    values.len() == rows.len() && forall|i: int|
        0 <= i < rows.len() ==> rows[i].len() > 0 && #[trigger] values[i] == rows[i][0]
}

proof fn lemma_first_values(rows: Seq<RowModel>)
    requires
        forall|i: int| 0 <= i < rows.len() ==> (#[trigger] rows[i]).len() > 0,
    ensures
        are_firsts(planner::first_values(rows), rows),
    decreases rows.len(),
{
    if rows.len() > 0 {
        let rest = rows.drop_last();
        assert forall|i: int| 0 <= i < rest.len() implies (#[trigger] rest[i]).len() > 0 by {
            assert(rest[i] == rows[i]);
        }
        lemma_first_values(rest);
        assert(rows[rows.len() - 1].len() > 0);
        let values = planner::first_values(rows);
        let before = planner::first_values(rest);
        assert forall|i: int| 0 <= i < rows.len() implies rows[i].len() > 0 && #[trigger] values[i]
            == rows[i][0] by {
            if i < rest.len() {
                assert(values[i] == before[i]);
                assert(rest[i] == rows[i]);
                assert(rest[i].len() > 0);
            }
        }
    }
}

/// Law: IN with a subquery compares with the first values of the rows that the
/// subquery gives when it is run; where it fails, so does the selection.
pub proof fn law_subquery_gives_values<F: Fn(FloatOp) -> u64>(
    f: F,
    c: CatalogModel,
    trees: Trees,
    table: Seq<char>,
    columns: Seq<ColumnRef>,
    options: OptionsModel,
    expr: ColumnRef,
    q: QueryModel,
    negated: bool,
)
    requires
        trees.dom().finite(),
        all_listable(trees, table, Seq::empty(), options.joins),
        planner::run_of(f, c, q, trees).result matches Ok(rows) ==> forall|i: int|
            0 <= i < rows.len() ==> (#[trigger] rows[i]).len() > 0,
    ensures
        ({
            let p = PredicateModel::InSubquery { expr, subquery: Box::new(q), negated };
            let inner = planner::run_of(f, c, q, trees);
            let done = planner::run_of(
                f,
                c,
                QueryModel::Select { table, projection: columns, predicate: Some(p), options },
                trees,
            );
            match inner.result {
                Err(e) => done.result == Err::<Seq<RowModel>, ErrorModel>(e),
                Ok(rows) => exists|cache: CacheModel|
                    cache.contains_key(q) && are_firsts(#[trigger] cache[q], rows) && done.result
                        == select_orchestrator::selected_rows(
                        f,
                        select_pipeline::materialized(trees, table, options.joins),
                        columns,
                        Some(p),
                        options,
                        cache,
                    ),
            }
        }),
{
    let p = PredicateModel::InSubquery { expr, subquery: Box::new(q), negated };
    let inner = planner::run_of(f, c, q, trees);
    lemma_all_listed(trees, table, Seq::empty(), options.joins);
    let cached = planner::subqueries_run(f, c, p, CacheModel::empty(), trees);
    if let Ok(rows) = inner.result {
        lemma_first_values(rows);
        let cache = CacheModel::empty().insert(q, planner::first_values(rows));
        assert(cached.result == Ok::<CacheModel, ErrorModel>(cache));
        assert(are_firsts(cache[q], rows));
    }
}

/// Law: tables beside the first one add every combination with their rows, and
/// nothing else.
pub proof fn law_tables_beside_combine(
    states: Seq<StateModel>,
    table: Seq<char>,
    rows: RowsModel,
    made: StateModel,
)
    requires
        rows.contains_key(table),
    ensures
        join_builder::expanded(states, seq![table], rows) matches Ok(all) ==> all.len()
            == states.len() * rows[table].len() && (all.contains(made) <==> exists|
            i: int,
            j: int,
        |
            0 <= i < states.len() && 0 <= j < rows[table].len() && made
                == (#[trigger] states[i]).insert(table, Some(#[trigger] rows[table][j]))),
        join_builder::expanded(states, seq![table], rows) is Err ==> states.len()
            * rows[table].len() > 100_000,
        join_builder::expanded(states, Seq::empty(), rows) == Ok::<Seq<StateModel>, ErrorModel>(
            states,
        ),
{
    let list = rows[table];
    let one = seq![table];
    assert(one.drop_first() =~= Seq::empty());
    reveal_with_fuel(join_builder::expanded, 2);
    join_builder::law_spread_multiplies(states, table, list);
    lemma_spread(states, table, list, made);
    if list.len() == 0 {
        assert(states.len() * list.len() == 0) by (nonlinear_arith)
            requires
                list.len() == 0,
        ;
    }
}

proof fn lemma_spread(
    states: Seq<StateModel>,
    table: Seq<char>,
    list: Seq<RowModel>,
    made: StateModel,
)
    ensures
        join_builder::spread_all(states, table, list).contains(made) <==> exists|i: int, j: int|
            0 <= i < states.len() && 0 <= j < list.len() && made == (#[trigger] states[i]).insert(
                table,
                Some(#[trigger] list[j]),
            ),
    decreases states.len(),
{
    if states.len() > 0 {
        let rest = states.drop_last();
        let n = states.len() - 1;
        lemma_spread(rest, table, list, made);
        let before = join_builder::spread_all(rest, table, list);
        let own = join_builder::spread(states.last(), table, list);
        let all = before + own;
        if all.contains(made) {
            let k = choose|k: int| 0 <= k < all.len() && all[k] == made;
            if k < before.len() {
                assert(before[k] == made);
                let (i, j) = choose|i: int, j: int|
                    0 <= i < rest.len() && 0 <= j < list.len() && made == (
                    #[trigger] rest[i]).insert(table, Some(#[trigger] list[j]));
                assert(states[i] == rest[i]);
                assert(made == states[i].insert(table, Some(list[j])));
            } else {
                assert(own[k - before.len()] == made);
                assert(made == states[n].insert(table, Some(list[k - before.len()])));
            }
        }
        if exists|i: int, j: int|
            0 <= i < states.len() && 0 <= j < list.len() && made == (#[trigger] states[i]).insert(
                table,
                Some(#[trigger] list[j]),
            ) {
            let (i, j) = choose|i: int, j: int|
                0 <= i < states.len() && 0 <= j < list.len() && made == (
                #[trigger] states[i]).insert(table, Some(#[trigger] list[j]));
            if i < n {
                assert(rest[i] == states[i]);
                assert(made == rest[i].insert(table, Some(list[j])));
                let k = choose|k: int| 0 <= k < before.len() && before[k] == made;
                assert(all[k] == made);
            } else {
                assert(own[j] == made);
                assert(all[before.len() + j] == made);
            }
        }
    }
}

/// What is to be updated for joined rows: the row that they hold of the table,
/// under its primary key, with all of them.
pub open spec fn is_target(
    u: UpdateModel,
    schema: TableModel,
    table: Seq<char>,
    state: StateModel,
) -> bool {
    &&& state.contains_key(table)
    &&& state[table] == Some(u.1)
    &&& is_key_of(schema, u.1, u.0)
    &&& u.2 == Some(state)
}

/// The joined rows hold a row of the table.
pub open spec fn has_row(state: StateModel, table: Seq<char>) -> bool {
    state.contains_key(table) && state[table] is Some
}

/// `q` lists the places of the joined rows that hold a row of the table.
pub open spec fn are_row_places(q: Seq<int>, states: Seq<StateModel>, table: Seq<char>) -> bool {
    &&& forall|k: int, l: int| 0 <= k < l < q.len() ==> #[trigger] q[k] < #[trigger] q[l]
    &&& forall|i: int| #[trigger]
        q.contains(i) <==> 0 <= i < states.len() && has_row(states[i], table)
}

proof fn lemma_targets(
    states: Seq<StateModel>,
    schema: TableModel,
    table: Seq<char>,
    so_far: Seq<UpdateModel>,
) -> (q: Seq<int>)
    ensures
        are_row_places(q, states, table),
        executor::targets(states, schema, table, so_far) matches Ok(list) ==> {
            &&& list.len() == so_far.len() + q.len()
            &&& list.take(so_far.len() as int) == so_far
            &&& forall|k: int|
                0 <= k < q.len() ==> is_target(
                    list.skip(so_far.len() as int)[k],
                    schema,
                    table,
                    states[#[trigger] q[k]],
                )
        },
    decreases states.len(),
{
    if states.len() == 0 {
        assert(so_far.take(so_far.len() as int) =~= so_far);
        Seq::empty()
    } else {
        let rest = states.drop_first();
        let head = states[0];
        let has = has_row(head, table);
        let next = if has && crate::schema::primary_key_of(schema, head[table]->0) is Ok {
            so_far.push(
                (
                    crate::schema::primary_key_of(schema, head[table]->0)->Ok_0,
                    head[table]->0,
                    Some(head),
                ),
            )
        } else {
            so_far
        };
        let later = lemma_targets(rest, schema, table, next);
        let moved = Seq::new(later.len(), |k: int| later[k] + 1);
        let q = if has {
            seq![0int] + moved
        } else {
            moved
        };
        assert forall|k: int| 0 <= k < later.len() implies 0 <= #[trigger] later[k]
            < rest.len() by {
            assert(later.contains(later[k]));
        }
        assert forall|i: int| #[trigger]
            q.contains(i) <==> 0 <= i < states.len() && has_row(states[i], table) by {
            if q.contains(i) {
                let k = choose|k: int| 0 <= k < q.len() && q[k] == i;
                let m = if has {
                    k - 1
                } else {
                    k
                };
                if m >= 0 {
                    assert(later.contains(later[m]));
                    assert(rest[later[m]] == states[i]);
                }
            }
            if 0 <= i < states.len() && has_row(states[i], table) {
                if i == 0 {
                    assert(q[0] == 0);
                } else {
                    assert(rest[i - 1] == states[i]);
                    assert(later.contains(i - 1));
                    let m = choose|m: int| 0 <= m < later.len() && later[m] == i - 1;
                    assert(q[if has {
                        m + 1
                    } else {
                        m
                    }] == i);
                }
            }
        }
        if let Ok(list) = executor::targets(states, schema, table, so_far) {
            let n = so_far.len() as int;
            if has {
                table_laws::law_primary_key(schema, head[table]->0);
                assert(list.take(n) =~= list.take(n + 1).take(n));
                assert(next.take(n) =~= so_far);
                assert(list[n] == list.take(n + 1)[n]);
                assert forall|k: int| 0 <= k < q.len() implies is_target(
                    list.skip(n)[k],
                    schema,
                    table,
                    states[#[trigger] q[k]],
                ) by {
                    if k > 0 {
                        assert(list.skip(n)[k] == list.skip(n + 1)[k - 1]);
                        assert(rest[later[k - 1]] == states[q[k]]);
                    } else {
                        assert(list.skip(n)[0] == list[n]);
                    }
                }
            } else {
                assert forall|k: int| 0 <= k < q.len() implies is_target(
                    list.skip(n)[k],
                    schema,
                    table,
                    states[#[trigger] q[k]],
                ) by {
                    assert(rest[later[k]] == states[q[k]]);
                }
            }
        }
        q
    }
}

/// `list` are the rows to update: those of the table in the joined rows that meet
/// the condition, none twice.
pub open spec fn are_targets(
    list: Seq<UpdateModel>,
    trees: Trees,
    schema: TableModel,
    table: Seq<char>,
    joins: Seq<JoinModel>,
    beside: Seq<Seq<char>>,
    p: Option<PredicateModel>,
    rows: RowsModel,
    template: StateModel,
    wide: Seq<StateModel>,
    q: Seq<int>,
) -> bool {
    let joined = select_pipeline::joins_applied(joins, rows, template, wide);
    let states = match p {
        None => joined,
        Some(p) => result_laws::meeting(joined, p, CacheModel::empty()),
    };
    &&& are_rows(rows, trees, table, beside, joins)
    &&& is_template(template, table, beside, joins)
    &&& join_builder::expanded(first_states(rows[table], table, template), beside, rows) == Ok::<
        Seq<StateModel>,
        ErrorModel,
    >(wide)
    &&& are_row_places(q, states, table)
    &&& list.len() == q.len()
    &&& forall|k: int|
        0 <= k < q.len() ==> is_target(list[k], schema, table, states[#[trigger] q[k]])
    &&& forall|k: int, l: int|
        0 <= k < l < list.len() ==> (#[trigger] list[k]).0 != (#[trigger] list[l]).0
}

/// Law: an UPDATE with joins or tables beside its own changes, for each of the
/// joined rows that meet its condition and hold a row of the table, that row,
/// with the others at hand; none twice.
pub proof fn law_joined_update_targets(
    trees: Trees,
    schema: TableModel,
    table: Seq<char>,
    joins: Seq<JoinModel>,
    beside: Seq<Seq<char>>,
    p: Option<PredicateModel>,
)
    requires
        joins.len() > 0 || beside.len() > 0,
    ensures
        executor::update_targets(trees, schema, table, joins, beside, p) matches Ok(list)
            ==> exists|
            rows: RowsModel,
            template: StateModel,
            wide: Seq<StateModel>,
            q: Seq<int>,
        | #[trigger]
            are_targets(
                list,
                trees,
                schema,
                table,
                joins,
                beside,
                p,
                rows,
                template,
                wide,
                q,
            ),
{
    if let Ok(list) = executor::update_targets(trees, schema, table, joins, beside, p) {
        let tables = join_builder::tables_read(table, beside, joins);
        let rows = join_builder::rows_by_table(trees, tables);
        let template = join_builder::template_of(tables);
        lemma_start(trees, table, beside, joins);
        let first = first_states(rows[table], table, template);
        let wide = join_builder::expanded(first, beside, rows)->Ok_0;
        let within = join_builder::joined_within_limit(joins, rows, template, wide)->Ok_0;
        lemma_within(joins, rows, template, wide);
        let joined = select_pipeline::joins_applied(joins, rows, template, wide);
        let states = select_orchestrator::filtered(joined, p, CacheModel::empty());
        if let Some(condition) = p {
            result_laws::lemma_meeting(joined, condition, CacheModel::empty());
        }
        let q = lemma_targets(states, schema, table, Seq::empty());
        assert(list.skip(0) =~= list);
        lemma_targets_apart(states, schema, table, Seq::empty());
        assert(are_targets(
            list,
            trees,
            schema,
            table,
            joins,
            beside,
            p,
            rows,
            template,
            wide,
            q,
        ));
    }
}

/// Within the limit, joins are made as they are without one.
proof fn lemma_within(
    joins: Seq<JoinModel>,
    rows: RowsModel,
    template: StateModel,
    states: Seq<StateModel>,
)
    ensures
        join_builder::joined_within_limit(joins, rows, template, states) matches Ok(joined)
            ==> joined == select_pipeline::joins_applied(joins, rows, template, states),
    decreases joins.len(),
{
    if joins.len() > 0 {
        lemma_within(
            joins.drop_first(),
            rows,
            template,
            join_builder::join_applied(joins[0], rows, template, states),
        );
    }
}

proof fn lemma_targets_apart(
    states: Seq<StateModel>,
    schema: TableModel,
    table: Seq<char>,
    so_far: Seq<UpdateModel>,
)
    requires
        forall|k: int, l: int|
            0 <= k < l < so_far.len() ==> (#[trigger] so_far[k]).0 != (#[trigger] so_far[l]).0,
    ensures
        executor::targets(states, schema, table, so_far) matches Ok(list) ==> forall|
            k: int,
            l: int,
        |
            0 <= k < l < list.len() ==> (#[trigger] list[k]).0 != (#[trigger] list[l]).0,
    decreases states.len(),
{
    if states.len() > 0 {
        let head = states[0];
        let rest = states.drop_first();
        if has_row(head, table) {
            if let Ok(pk) = crate::schema::primary_key_of(schema, head[table]->0) {
                if !executor::has_key(so_far, pk) {
                    let next = so_far.push((pk, head[table]->0, Some(head)));
                    assert forall|k: int, l: int| 0 <= k < l < next.len() implies (
                    #[trigger] next[k]).0 != (#[trigger] next[l]).0 by {
                        assert(next[k] == so_far[k]);
                        if l < so_far.len() {
                            assert(next[l] == so_far[l]);
                        } else {
                            assert(so_far[k].0 != pk);
                        }
                    }
                    lemma_targets_apart(rest, schema, table, next);
                }
            }
        } else {
            lemma_targets_apart(rest, schema, table, so_far);
        }
    }
}

/// Law: joins of an UPDATE are made one after the other. Where one of them gives
/// more than a hundred thousand joined rows the UPDATE is refused, else it goes on
/// with what the join gives.
pub proof fn law_join_limit(
    joins: Seq<JoinModel>,
    rows: RowsModel,
    template: StateModel,
    states: Seq<StateModel>,
)
    ensures
        joins.len() == 0 ==> join_builder::joined_within_limit(joins, rows, template, states)
            == Ok::<Seq<StateModel>, ErrorModel>(states),
        joins.len() > 0 ==> ({
            let next = join_builder::join_applied(joins[0], rows, template, states);
            let made = join_builder::joined_within_limit(joins, rows, template, states);
            &&& next.len() > 100_000 ==> (made matches Err(ErrorModel::QueryLimitExceeded(_)))
            &&& next.len() <= 100_000 ==> made == join_builder::joined_within_limit(
                joins.drop_first(),
                rows,
                template,
                next,
            )
        }),
{
}

/// Law: the combinations with the rows of a table come in the order of what is
/// combined, and for each of these in the order of the rows.
pub proof fn law_combinations_in_order(
    states: Seq<StateModel>,
    table: Seq<char>,
    rows: Seq<RowModel>,
    i: int,
    j: int,
)
    requires
        0 <= i < states.len(),
        0 <= j < rows.len(),
    ensures
        ({
            let all = join_builder::spread_all(states, table, rows);
            &&& 0 <= i * rows.len() + j < all.len()
            &&& all[i * rows.len() + j] == states[i].insert(table, Some(rows[j]))
        }),
    decreases states.len(),
{
    let rest = states.drop_last();
    let n = rows.len();
    let m = states.len();
    join_builder::law_spread_multiplies(states, table, rows);
    join_builder::law_spread_multiplies(rest, table, rows);
    if i < rest.len() {
        law_combinations_in_order(rest, table, rows, i, j);
        assert(rest[i] == states[i]);
    } else {
        assert(i == m - 1);
        assert(states.last() == states[i]);
    }
    assert(0 <= i * n + j < m * n) by (nonlinear_arith)
        requires
            0 <= i < m,
            0 <= j < n,
    ;
}

/// Law: tables beside the first one are combined one after the other; a table
/// without rows leaves nothing to combine.
pub proof fn law_tables_beside_in_turn(
    states: Seq<StateModel>,
    table: Seq<char>,
    others: Seq<Seq<char>>,
    rows: RowsModel,
)
    requires
        rows.contains_key(table),
    ensures
        ({
            let all = join_builder::expanded(states, seq![table] + others, rows);
            let next = join_builder::spread_all(states, table, rows[table]);
            if rows[table].len() == 0 {
                all == Ok::<Seq<StateModel>, ErrorModel>(Seq::empty())
            } else if next.len() <= 100_000 {
                all == join_builder::expanded(next, others, rows)
            } else {
                all matches Err(ErrorModel::QueryLimitExceeded(_))
            }
        }),
{
    assert((seq![table] + others).drop_first() =~= others);
}

/// A subquery stands somewhere in a condition.
pub open spec fn has_subquery(p: PredicateModel, q: QueryModel) -> bool
    decreases p,
{
    match p {
        PredicateModel::InSubquery { subquery, .. } => *subquery == q,
        PredicateModel::And(a, b) => has_subquery(*a, q) || has_subquery(*b, q),
        PredicateModel::Or(a, b) => has_subquery(*a, q) || has_subquery(*b, q),
        PredicateModel::Not(a) => has_subquery(*a, q),
        _ => false,
    }
}

/// What is known of subqueries is what they give.
pub open spec fn is_right<F: Fn(FloatOp) -> u64>(
    f: F,
    c: CatalogModel,
    cache: CacheModel,
    trees: Trees,
) -> bool {
    forall|q: QueryModel| #[trigger]
        cache.contains_key(q) ==> (planner::run_of(f, c, q, trees).result matches Ok(rows)
            && cache[q] == planner::first_values(rows))
}

proof fn lemma_subqueries<F: Fn(FloatOp) -> u64>(
    f: F,
    c: CatalogModel,
    p: PredicateModel,
    cache: CacheModel,
    trees: Trees,
    q: QueryModel,
)
    requires
        read_laws::condition_reads(p),
        is_right(f, c, cache, trees),
    ensures
        match planner::subqueries_run(f, c, p, cache, trees).result {
            Ok(known) => is_right(f, c, known, trees) && (has_subquery(p, q)
                ==> known.contains_key(q)) && (cache.contains_key(q) ==> known.contains_key(q)),
            Err(e) => exists|s: QueryModel| #[trigger]
                has_subquery(p, s) && planner::run_of(f, c, s, trees).result == Err::<
                    Seq<RowModel>,
                    ErrorModel,
                >(e),
        },
    decreases p, 1int,
{
    match p {
        PredicateModel::InSubquery { subquery, .. } => {
            assert(has_subquery(p, *subquery));
        },
        PredicateModel::And(a, b) => {
            lemma_two_parts(f, c, p, *a, *b, cache, trees, q);
        },
        PredicateModel::Or(a, b) => {
            lemma_two_parts(f, c, p, *a, *b, cache, trees, q);
        },
        PredicateModel::Not(a) => {
            lemma_subqueries(f, c, *a, cache, trees, q);
            if let Err(e) = planner::subqueries_run(f, c, *a, cache, trees).result {
                let s = choose|s: QueryModel| #[trigger]
                    has_subquery(*a, s) && planner::run_of(f, c, s, trees).result == Err::<
                        Seq<RowModel>,
                        ErrorModel,
                    >(e);
                assert(has_subquery(p, s));
            }
        },
        _ => {},
    }
}

proof fn lemma_two_parts<F: Fn(FloatOp) -> u64>(
    f: F,
    c: CatalogModel,
    p: PredicateModel,
    a: PredicateModel,
    b: PredicateModel,
    cache: CacheModel,
    trees: Trees,
    q: QueryModel,
)
    requires
        p == PredicateModel::And(Box::new(a), Box::new(b)) || p == PredicateModel::Or(
            Box::new(a),
            Box::new(b),
        ),
        read_laws::condition_reads(p),
        is_right(f, c, cache, trees),
    ensures
        match planner::subqueries_run(f, c, p, cache, trees).result {
            Ok(known) => is_right(f, c, known, trees) && (has_subquery(p, q)
                ==> known.contains_key(q)) && (cache.contains_key(q) ==> known.contains_key(q)),
            Err(e) => exists|s: QueryModel| #[trigger]
                has_subquery(p, s) && planner::run_of(f, c, s, trees).result == Err::<
                    Seq<RowModel>,
                    ErrorModel,
                >(e),
        },
    decreases p, 0int,
{
    assert(decreases_to!(p => a) && decreases_to!(p => b)) by {
        match p {
            PredicateModel::And(x, y) => {
                assert(decreases_to!(p => *x) && decreases_to!(p => *y));
            },
            PredicateModel::Or(x, y) => {
                assert(decreases_to!(p => *x) && decreases_to!(p => *y));
            },
            _ => {},
        }
    }
    lemma_subqueries(f, c, a, cache, trees, q);
    read_laws::lemma_condition_changes_nothing(f, c, a, cache, trees);
    let first = planner::subqueries_run(f, c, a, cache, trees);
    match first.result {
        Ok(next) => {
            lemma_subqueries(f, c, b, next, trees, q);
            if let Err(e) = planner::subqueries_run(f, c, b, next, trees).result {
                let s = choose|s: QueryModel| #[trigger]
                    has_subquery(b, s) && planner::run_of(f, c, s, trees).result == Err::<
                        Seq<RowModel>,
                        ErrorModel,
                    >(e);
                assert(has_subquery(p, s));
            }
        },
        Err(e) => {
            let s = choose|s: QueryModel| #[trigger]
                has_subquery(a, s) && planner::run_of(f, c, s, trees).result == Err::<
                    Seq<RowModel>,
                    ErrorModel,
                >(e);
            assert(has_subquery(p, s));
        },
    }
}

/// Law: before a condition is asked, all its subqueries are run, wherever in it
/// they stand: of each the first values of the rows that it gives are known. The
/// condition fails where one of them does.
pub proof fn law_all_subqueries_are_run<F: Fn(FloatOp) -> u64>(
    f: F,
    c: CatalogModel,
    p: PredicateModel,
    trees: Trees,
    q: QueryModel,
)
    requires
        read_laws::condition_reads(p),
    ensures
        match planner::subqueries_run(f, c, p, CacheModel::empty(), trees).result {
            Ok(known) => has_subquery(p, q) ==> known.contains_key(q) && (planner::run_of(
                f,
                c,
                q,
                trees,
            ).result matches Ok(rows) && ((forall|i: int|
                0 <= i < rows.len() ==> (#[trigger] rows[i]).len() > 0) ==> are_firsts(
                known[q],
                rows,
            ))),
            Err(e) => exists|s: QueryModel| #[trigger]
                has_subquery(p, s) && planner::run_of(f, c, s, trees).result == Err::<
                    Seq<RowModel>,
                    ErrorModel,
                >(e),
        },
{
    lemma_subqueries(f, c, p, CacheModel::empty(), trees, q);
    if let Ok(known) = planner::subqueries_run(f, c, p, CacheModel::empty(), trees).result {
        if has_subquery(p, q) {
            let rows = planner::run_of(f, c, q, trees).result->Ok_0;
            if forall|i: int| 0 <= i < rows.len() ==> (#[trigger] rows[i]).len() > 0 {
                lemma_first_values(rows);
            }
        }
    }
}

} // verus!
