//! What listeners hear of: every change of a row.
use vstd::prelude::*;
use crate::access_control;
use crate::catalog::{self, CatalogModel};
use crate::change_event::{self, EventModel};
use crate::consistency;
use crate::database_laws::{self, database_kept, table_kept};
use crate::executor::{self, UpdateModel, UpdatePlan, Written};
use crate::float::FloatOp;
use crate::in_memory;
use crate::name_table;
use crate::ordered_map::{self, OrderedKey};
use crate::patch;
use crate::persistence;
use crate::planner;
use crate::query::{self, AssignmentModel, ColumnRef, JoinModel, PredicateModel, QueryModel};
use crate::read_laws::{law_read_sees_its_tables, reads_only};
use crate::readback_laws;
use crate::schema::IndexModel;
use crate::store::{self, KeyModel, RowModel, Trees};
use crate::store_helpers;
use crate::value::{self, EngineKey};

verus! {

/// Some change is one of that table.
pub open spec fn heard_of(events: Seq<EventModel>, table: Seq<char>) -> bool {
    exists|i: int|
        0 <= i < events.len() && #[trigger] change_event::event_table(events[i]) == table
}

proof fn lemma_deleting_heard(
    rows: Seq<(KeyModel, RowModel)>,
    trees: Trees,
    table: Seq<char>,
    indexes: Seq<IndexModel>,
    returning: Option<Seq<ColumnRef>>,
    out: Seq<RowModel>,
    events: Seq<EventModel>,
)
    ensures
        ({
            let done = executor::deleting(rows, trees, table, indexes, returning, out, events);
            done.result is Ok ==> {
                &&& rows.len() > 0 || heard_of(events, table) ==> heard_of(done.events, table)
                &&& rows.len() == 0 ==> done.trees == trees
            }
        }),
    decreases rows.len(),
{
    if rows.len() > 0 {
        let (pk, row) = rows[0];
        if let Ok(more) = executor::given_back(table, row, returning, out) {
            let (result, after) = store_helpers::row_deleted(trees, table, pk, row, indexes);
            let heard = events.push(EventModel::RowDeleted { table, pk, row });
            assert(change_event::event_table(heard[events.len() as int]) == table);
            lemma_deleting_heard(
                rows.drop_first(),
                after,
                table,
                indexes,
                returning,
                more,
                heard,
            );
        }
    }
}

proof fn lemma_updating_heard<F: Fn(FloatOp) -> u64>(
    f: F,
    plan: UpdatePlan,
    rows: Seq<UpdateModel>,
    trees: Trees,
    out: Seq<RowModel>,
    events: Seq<EventModel>,
)
    ensures
        ({
            let done = executor::updating(f, plan, rows, trees, out, events);
            done.result is Ok ==> {
                &&& rows.len() > 0 || heard_of(events, plan.table) ==> heard_of(
                    done.events,
                    plan.table,
                )
                &&& rows.len() == 0 ==> done.trees == trees
            }
        }),
    decreases rows.len(),
{
    if rows.len() > 0 {
        let (old_pk, old_row, joined) = rows[0];
        if let Ok(new_row) = crate::update_expr::assigned(
            f,
            old_row,
            plan.assignments,
            plan.table,
            joined,
            old_row,
        ) {
            let (result, after) = executor::row_replaced(plan, trees, old_pk, old_row, new_row);
            if let Ok(pk) = result {
                if let Ok(more) = executor::given_back(plan.table, new_row, plan.returning, out) {
                    let heard = events.push(
                        EventModel::RowUpdated { table: plan.table, pk, old_row, new_row },
                    );
                    assert(change_event::event_table(heard[events.len() as int]) == plan.table);
                    lemma_updating_heard(f, plan, rows.drop_first(), after, more, heard);
                }
            }
        }
    }
}

/// A change of the trees of one table leaves the rows of the others.
proof fn lemma_other_rows(
    after: Trees,
    trees: Trees,
    table: Seq<char>,
    indexes: Seq<IndexModel>,
    other: Seq<char>,
)
    requires
        consistency::same_outside(after, trees, table, indexes),
        other != table,
    ensures
        store::table_rows(after, other) == store::table_rows(trees, other),
{
    let tree = persistence::rows_of(other);
    assert(!consistency::is_of_table(tree, table, indexes)) by {
        persistence::law_trees_apart(other, table);
        assert forall|i: int| 0 <= i < indexes.len() implies tree != persistence::entries_of(
            (#[trigger] indexes[i]).name,
        ) by {
            persistence::law_trees_apart(other, indexes[i].name);
        }
    }
    let a = in_memory::tree_map(after, tree);
    let b = in_memory::tree_map(trees, tree);
    assert forall|k: KeyModel| #[trigger] a.contains_key(k) <==> b.contains_key(k) by {
        assert(patch::lookup(after, (tree, k)) == patch::lookup(trees, (tree, k)));
    }
    assert forall|k: KeyModel| a.contains_key(k) implies #[trigger] a[k] == b[k] by {
        assert(patch::lookup(after, (tree, k)) == patch::lookup(trees, (tree, k)));
    }
    assert(a =~= b);
}

/// Law: listeners hear of every statement that changes the rows of a table.
pub proof fn law_changed_rows_are_heard_of<F: Fn(FloatOp) -> u64>(
    f: F,
    c: CatalogModel,
    statement: QueryModel,
    trees: Trees,
    table: Seq<char>,
)
    requires
        database_kept(c, trees),
        !(statement is Select),
    ensures
        ({
            let done = planner::run_of(f, c, statement, trees);
            heard_of(done.events, table) || store::table_rows(done.trees, table)
                == store::table_rows(trees, table)
        }),
{
    let done = planner::run_of(f, c, statement, trees);
    if done.result is Ok {
        match statement {
            QueryModel::Insert { table: target, row } => {
                consistency::law_insert_keeps_table(c, trees, target, row);
                let indexes = catalog::indexes_of(c.indexes, target);
                if table == target {
                    assert(change_event::event_table(done.events[0]) == table);
                } else {
                    lemma_other_rows(done.trees, trees, target, indexes, table);
                }
            },
            QueryModel::Delete { table: target, predicate, returning } => {
                consistency::law_delete_keeps_table(c, trees, target, predicate, returning);
                let indexes = catalog::indexes_of(c.indexes, target);
                if table == target {
                    lemma_deleting_heard(
                        store_helpers::matching_rows(trees, target, predicate),
                        trees,
                        target,
                        indexes,
                        returning,
                        Seq::empty(),
                        Seq::empty(),
                    );
                } else {
                    lemma_other_rows(done.trees, trees, target, indexes, table);
                }
            },
            QueryModel::Update {
                table: target,
                assignments,
                predicate,
                joins,
                from_tables,
                returning,
            } => {
                consistency::law_update_keeps_table(
                    f,
                    c,
                    trees,
                    target,
                    assignments,
                    predicate,
                    joins,
                    from_tables,
                    returning,
                );
                let schema = c.tables[target];
                let indexes = catalog::indexes_of(c.indexes, target);
                if table == target {
                    if let Ok(rows) = executor::update_targets(
                        trees,
                        schema,
                        target,
                        joins,
                        from_tables,
                        predicate,
                    ) {
                        let plan = UpdatePlan {
                            schema,
                            table: target,
                            indexes,
                            assignments,
                            returning,
                        };
                        lemma_updating_heard(f, plan, rows, trees, Seq::empty(), Seq::empty());
                    }
                } else {
                    lemma_other_rows(done.trees, trees, target, indexes, table);
                }
            },
            QueryModel::Select { .. } => {},
        }
    }
}

/// Law: where a statement changes what a query gives that reads only, listeners
/// hear of a change of one of the tables that the query refers to.
pub proof fn law_changed_result_is_heard_of<F: Fn(FloatOp) -> u64>(
    f: F,
    c: CatalogModel,
    statement: QueryModel,
    trees: Trees,
    q: QueryModel,
) -> (table: Seq<char>)
    requires
        database_kept(c, trees),
        !(statement is Select),
        reads_only(q),
    ensures
        ({
            let done = planner::run_of(f, c, statement, trees);
            planner::run_of(f, c, q, done.trees).result == planner::run_of(f, c, q, trees).result
                || (heard_of(done.events, table) && query::query_tables(q).contains(table))
        }),
{
    let done = planner::run_of(f, c, statement, trees);
    let tables = query::query_tables(q);
    if exists|t: Seq<char>| #[trigger] tables.contains(t) && heard_of(done.events, t) {
        choose|t: Seq<char>| #[trigger] tables.contains(t) && heard_of(done.events, t)
    } else {
        assert forall|t: Seq<char>| #[trigger] tables.contains(t) implies store::table_rows(
            done.trees,
            t,
        ) == store::table_rows(trees, t) by {
            law_changed_rows_are_heard_of(f, c, statement, trees, t);
        }
        law_read_sees_its_tables(f, c, q, done.trees, trees);
        Seq::empty()
    }
}

/// No row of a change of a table meets a condition.
pub open spec fn is_unseen(e: EventModel, table: Seq<char>, p: PredicateModel) -> bool {
    change_event::event_table(e) == table ==> forall|i: int|
        0 <= i < change_event::event_rows(e).len() ==> !#[trigger] access_control::row_meets(
            p,
            table,
            change_event::event_rows(e)[i],
        )
}

/// No row of any change of a table meets a condition.
pub open spec fn all_unseen(
    events: Seq<EventModel>,
    table: Seq<char>,
    p: PredicateModel,
) -> bool {
    forall|j: int| 0 <= j < events.len() ==> is_unseen(#[trigger] events[j], table, p)
}

/// Listeners hear of each row that is deleted.
proof fn lemma_deleting_events(
    rows: Seq<(KeyModel, RowModel)>,
    trees: Trees,
    table: Seq<char>,
    indexes: Seq<IndexModel>,
    returning: Option<Seq<ColumnRef>>,
    out: Seq<RowModel>,
    events: Seq<EventModel>,
)
    ensures
        ({
            let done = executor::deleting(rows, trees, table, indexes, returning, out, events);
            done.result is Ok ==> {
                &&& done.events.len() == events.len() + rows.len()
                &&& forall|i: int|
                    0 <= i < events.len() ==> #[trigger] done.events[i] == events[i]
                &&& forall|i: int|
                    0 <= i < rows.len() ==> done.events[events.len() + i]
                        == (EventModel::RowDeleted {
                        table,
                        pk: (#[trigger] rows[i]).0,
                        row: rows[i].1,
                    })
            }
        }),
    decreases rows.len(),
{
    if rows.len() > 0 {
        let (pk, row) = rows[0];
        if let Ok(more) = executor::given_back(table, row, returning, out) {
            let after = store_helpers::row_deleted(trees, table, pk, row, indexes).1;
            let heard = events.push(EventModel::RowDeleted { table, pk, row });
            let rest = rows.drop_first();
            lemma_deleting_events(rest, after, table, indexes, returning, more, heard);
            let done = executor::deleting(rows, trees, table, indexes, returning, out, events);
            if done.result is Ok {
                assert forall|i: int| 0 <= i < events.len() implies #[trigger] done.events[i]
                    == events[i] by {
                    assert(heard[i] == events[i]);
                }
                assert forall|i: int| 0 <= i < rows.len() implies done.events[events.len() + i]
                    == (EventModel::RowDeleted {
                    table,
                    pk: (#[trigger] rows[i]).0,
                    row: rows[i].1,
                }) by {
                    if i == 0 {
                        assert(done.events[events.len() as int] == heard[events.len() as int]);
                    } else {
                        assert(rest[i - 1] == rows[i]);
                        assert(done.events[heard.len() + (i - 1)] == done.events[events.len()
                            + i]);
                    }
                }
            }
        }
    }
}

/// Listeners hear of each row that is updated.
proof fn lemma_updating_events<F: Fn(FloatOp) -> u64>(
    f: F,
    plan: UpdatePlan,
    rows: Seq<UpdateModel>,
    trees: Trees,
    out: Seq<RowModel>,
    events: Seq<EventModel>,
)
    ensures
        ({
            let done = executor::updating(f, plan, rows, trees, out, events);
            done.result is Ok ==> {
                &&& done.events.len() == events.len() + rows.len()
                &&& forall|i: int|
                    0 <= i < events.len() ==> #[trigger] done.events[i] == events[i]
                &&& forall|i: int|
                    0 <= i < rows.len() ==> done.events[events.len() + i]
                        == (EventModel::RowUpdated {
                        table: plan.table,
                        pk: consistency::replaced_entry(f, plan, #[trigger] rows[i]).0,
                        old_row: rows[i].1,
                        new_row: consistency::replaced_entry(f, plan, rows[i]).1,
                    })
            }
        }),
    decreases rows.len(),
{
    if rows.len() > 0 {
        let (old_pk, old_row, joined) = rows[0];
        if let Ok(new_row) = crate::update_expr::assigned(
            f,
            old_row,
            plan.assignments,
            plan.table,
            joined,
            old_row,
        ) {
            let (result, after) = executor::row_replaced(plan, trees, old_pk, old_row, new_row);
            if let Ok(pk) = result {
                if let Ok(more) = executor::given_back(plan.table, new_row, plan.returning, out) {
                    let heard = events.push(
                        EventModel::RowUpdated { table: plan.table, pk, old_row, new_row },
                    );
                    let rest = rows.drop_first();
                    lemma_updating_events(f, plan, rest, after, more, heard);
                    let done = executor::updating(f, plan, rows, trees, out, events);
                    if done.result is Ok {
                        assert forall|i: int| 0 <= i < events.len() implies
                            #[trigger] done.events[i] == events[i] by {
                            assert(heard[i] == events[i]);
                        }
                        assert forall|i: int| 0 <= i < rows.len() implies done.events[events.len()
                            + i] == (EventModel::RowUpdated {
                            table: plan.table,
                            pk: consistency::replaced_entry(f, plan, #[trigger] rows[i]).0,
                            old_row: rows[i].1,
                            new_row: consistency::replaced_entry(f, plan, rows[i]).1,
                        }) by {
                            if i == 0 {
                                assert(done.events[events.len() as int]
                                    == heard[events.len() as int]);
                            } else {
                                assert(rest[i - 1] == rows[i]);
                                assert(done.events[heard.len() + (i - 1)]
                                    == done.events[events.len() + i]);
                            }
                        }
                    }
                }
            }
        }
    }
}

/// Lists of the rows that meet a condition are equal if they hold the same.
proof fn lemma_matching_alike(a: Trees, b: Trees, table: Seq<char>, p: PredicateModel)
    requires
        a.dom().finite(),
        b.dom().finite(),
        forall|e: (KeyModel, RowModel)| #[trigger]
            store_helpers::matching_rows(a, table, Some(p)).contains(e)
                <==> store_helpers::matching_rows(b, table, Some(p)).contains(e),
    ensures
        store_helpers::matching_rows(a, table, Some(p)) == store_helpers::matching_rows(
            b,
            table,
            Some(p),
        ),
{
    let x = store_helpers::matching_rows(a, table, Some(p));
    let y = store_helpers::matching_rows(b, table, Some(p));
    let less = value::key_less();
    <EngineKey as OrderedKey>::before_total();
    consistency::lemma_matching_rows(a, table, Some(p));
    consistency::lemma_matching_rows(b, table, Some(p));
    ordered_map::lemma_ascending_map(x, less);
    ordered_map::lemma_ascending_map(y, less);
    let m = name_table::first_map(x);
    let n = name_table::first_map(y);
    assert forall|k: KeyModel| #[trigger] m.contains_key(k) implies n.contains_key(k) && m[k]
        == n[k] by {
        let i = choose|i: int| 0 <= i < x.len() && (#[trigger] x[i]).0 == k;
        assert(x.contains(x[i]));
        let j = choose|j: int| 0 <= j < y.len() && y[j] == x[i];
        assert(y[j].0 == k);
    }
    assert forall|k: KeyModel| #[trigger] n.contains_key(k) implies m.contains_key(k) by {
        let i = choose|i: int| 0 <= i < y.len() && (#[trigger] y[i]).0 == k;
        assert(y.contains(y[i]));
        assert(x.contains(y[i]));
        let j = choose|j: int| 0 <= j < x.len() && x[j] == y[i];
        assert(x[j].0 == k);
    }
    assert(m =~= n);
    ordered_map::law_listing_unique(x, y, less);
}

/// A delete of rows that do not meet a condition leaves those that do.
proof fn lemma_unseen_delete(
    c: CatalogModel,
    trees: Trees,
    table: Seq<char>,
    gone: Option<PredicateModel>,
    returning: Option<Seq<ColumnRef>>,
    p: PredicateModel,
)
    requires
        database_kept(c, trees),
        executor::deleted(c, trees, table, gone, returning).result is Ok,
        all_unseen(executor::deleted(c, trees, table, gone, returning).events, table, p),
    ensures
        store_helpers::matching_rows(
            executor::deleted(c, trees, table, gone, returning).trees,
            table,
            Some(p),
        ) == store_helpers::matching_rows(trees, table, Some(p)),
{
    let done = executor::deleted(c, trees, table, gone, returning);
    let after = done.trees;
    assert(table_kept(c, trees, table));
    consistency::law_delete_keeps_table(c, trees, table, gone, returning);
    let list = store_helpers::matching_rows(trees, table, gone);
    let indexes = catalog::indexes_of(c.indexes, table);
    lemma_deleting_events(list, trees, table, indexes, returning, Seq::empty(), Seq::empty());
    consistency::lemma_matching_rows(trees, table, gone);
    assert forall|e: (KeyModel, RowModel)| #[trigger]
        store_helpers::matching_rows(after, table, Some(p)).contains(e)
            <==> store_helpers::matching_rows(trees, table, Some(p)).contains(e) by {
        readback_laws::lemma_matching(after, table, Some(p), e);
        readback_laws::lemma_matching(trees, table, Some(p), e);
        assert(store::row_at(after, table, e.0) == if consistency::listed(list, e.0) {
            None
        } else {
            store::row_at(trees, table, e.0)
        });
        if consistency::has_entry(trees, table, e) && consistency::listed(list, e.0) {
            let i = choose|i: int| 0 <= i < list.len() && (#[trigger] list[i]).0 == e.0;
            let entry = consistency::as_entry();
            assert(store::row_at(trees, table, entry(list[i]).0) == Some(entry(list[i]).1));
            let heard = done.events[i];
            assert(is_unseen(heard, table, p));
            assert(change_event::event_rows(heard)[0] == list[i].1);
            assert(!access_control::row_meets(p, table, change_event::event_rows(heard)[0]));
        }
    }
    lemma_matching_alike(after, trees, table, p);
}

/// An update of rows that do not meet a condition, before or after it, leaves
/// those that do.
proof fn lemma_unseen_update<F: Fn(FloatOp) -> u64>(
    f: F,
    c: CatalogModel,
    trees: Trees,
    table: Seq<char>,
    assignments: Seq<AssignmentModel>,
    predicate: Option<PredicateModel>,
    joins: Seq<JoinModel>,
    from_tables: Seq<Seq<char>>,
    returning: Option<Seq<ColumnRef>>,
    p: PredicateModel,
)
    requires
        database_kept(c, trees),
        ({
            let done = executor::updated(
                f,
                c,
                trees,
                table,
                assignments,
                predicate,
                joins,
                from_tables,
                returning,
            );
            done.result is Ok && all_unseen(done.events, table, p)
        }),
    ensures
        store_helpers::matching_rows(
            executor::updated(
                f,
                c,
                trees,
                table,
                assignments,
                predicate,
                joins,
                from_tables,
                returning,
            ).trees,
            table,
            Some(p),
        ) == store_helpers::matching_rows(trees, table, Some(p)),
{
    let done = executor::updated(
        f,
        c,
        trees,
        table,
        assignments,
        predicate,
        joins,
        from_tables,
        returning,
    );
    let after = done.trees;
    assert(table_kept(c, trees, table));
    consistency::law_update_keeps_table(
        f,
        c,
        trees,
        table,
        assignments,
        predicate,
        joins,
        from_tables,
        returning,
    );
    let schema = c.tables[table];
    let indexes = catalog::indexes_of(c.indexes, table);
    if assignments.len() > 0 {
        consistency::lemma_update_targets(trees, schema, table, joins, from_tables, predicate);
        let rows = executor::update_targets(
            trees,
            schema,
            table,
            joins,
            from_tables,
            predicate,
        )->Ok_0;
        let plan = UpdatePlan { schema, table, indexes, assignments, returning };
        lemma_updating_events(f, plan, rows, trees, Seq::empty(), Seq::empty());
        assert forall|i: int| 0 <= i < rows.len() implies !access_control::row_meets(
            p,
            table,
            (#[trigger] rows[i]).1,
        ) && !access_control::row_meets(
            p,
            table,
            consistency::replaced_entry(f, plan, rows[i]).1,
        ) by {
            let heard = done.events[i];
            assert(done.events[0 + i] == heard);
            assert(is_unseen(heard, table, p));
            assert(change_event::event_rows(heard)[0] == rows[i].1);
            assert(change_event::event_rows(heard)[1] == consistency::replaced_entry(
                f,
                plan,
                rows[i],
            ).1);
            assert(!access_control::row_meets(p, table, change_event::event_rows(heard)[0]));
            assert(!access_control::row_meets(p, table, change_event::event_rows(heard)[1]));
        }
        assert forall|e: (KeyModel, RowModel)| #[trigger]
            store_helpers::matching_rows(after, table, Some(p)).contains(e)
                <==> store_helpers::matching_rows(trees, table, Some(p)).contains(e) by {
            readback_laws::lemma_matching(after, table, Some(p), e);
            readback_laws::lemma_matching(trees, table, Some(p), e);
            assert(consistency::has_entry(after, table, e) <==> (consistency::has_entry(
                trees,
                table,
                e,
            ) && !executor::has_key(rows, e.0)) || consistency::is_replaced(f, plan, rows, e));
            if access_control::row_meets(p, table, e.1) {
                if consistency::is_replaced(f, plan, rows, e) {
                    let i = choose|i: int|
                        0 <= i < rows.len() && #[trigger] consistency::replaced_entry(
                            f,
                            plan,
                            rows[i],
                        ) == e;
                    assert(false);
                }
                if consistency::has_entry(trees, table, e) && executor::has_key(rows, e.0) {
                    let i = choose|i: int| 0 <= i < rows.len() && (#[trigger] rows[i]).0 == e.0;
                    let entry = consistency::target_entry();
                    assert(store::row_at(trees, table, entry(rows[i]).0) == Some(
                        entry(rows[i]).1,
                    ));
                    assert(false);
                }
            }
        }
        lemma_matching_alike(after, trees, table, p);
    }
}

/// A statement whose changes of a table do not meet a condition leaves the rows
/// that do.
pub proof fn lemma_unseen_change<F: Fn(FloatOp) -> u64>(
    f: F,
    c: CatalogModel,
    statement: QueryModel,
    trees: Trees,
    table: Seq<char>,
    p: PredicateModel,
)
    requires
        database_kept(c, trees),
        !(statement is Select),
        all_unseen(planner::run_of(f, c, statement, trees).events, table, p),
    ensures
        store_helpers::matching_rows(
            planner::run_of(f, c, statement, trees).trees,
            table,
            Some(p),
        ) == store_helpers::matching_rows(trees, table, Some(p)),
        store::keys_fit(store::table_rows(planner::run_of(f, c, statement, trees).trees, table))
            == store::keys_fit(store::table_rows(trees, table)),
{
    let done = planner::run_of(f, c, statement, trees);
    law_changed_rows_are_heard_of(f, c, statement, trees, table);
    if c.tables.contains_key(table) {
        database_laws::law_query_keeps_database(f, c, statement, trees);
        consistency::lemma_keys_fit(trees, table, c.tables[table]);
        consistency::lemma_keys_fit(done.trees, table, c.tables[table]);
    }
    if store::table_rows(done.trees, table) != store::table_rows(trees, table) {
        let j = choose|j: int|
            0 <= j < done.events.len() && #[trigger] change_event::event_table(done.events[j])
                == table;
        match statement {
            QueryModel::Insert { table: target, row } => {
                assert(target == table);
                readback_laws::law_insert_is_read_back(f, c, trees, table, row, Some(p));
                consistency::law_insert_keeps_table(c, trees, table, row);
                assert(is_unseen(done.events[0], table, p));
                assert(change_event::event_rows(done.events[0])[0] == row);
                assert(!access_control::row_meets(
                    p,
                    table,
                    change_event::event_rows(done.events[0])[0],
                ));
                lemma_matching_alike(done.trees, trees, table, p);
            },
            QueryModel::Delete { table: target, predicate, returning } => {
                let indexes = catalog::indexes_of(c.indexes, target);
                lemma_deleting_events(
                    store_helpers::matching_rows(trees, target, predicate),
                    trees,
                    target,
                    indexes,
                    returning,
                    Seq::empty(),
                    Seq::empty(),
                );
                assert(done.events[0 + j] == done.events[j]);
                let rows = store_helpers::matching_rows(trees, target, predicate);
                assert(rows[j] == rows[j]);
                assert(target == table);
                lemma_unseen_delete(c, trees, table, predicate, returning, p);
            },
            QueryModel::Update {
                table: target,
                assignments,
                predicate,
                joins,
                from_tables,
                returning,
            } => {
                let schema = c.tables[target];
                let indexes = catalog::indexes_of(c.indexes, target);
                let rows = executor::update_targets(
                    trees,
                    schema,
                    target,
                    joins,
                    from_tables,
                    predicate,
                )->Ok_0;
                let plan = UpdatePlan { schema, table: target, indexes, assignments, returning };
                lemma_updating_events(f, plan, rows, trees, Seq::empty(), Seq::empty());
                assert(done.events[0 + j] == done.events[j]);
                assert(rows[j] == rows[j]);
                assert(target == table);
                lemma_unseen_update(
                    f,
                    c,
                    trees,
                    table,
                    assignments,
                    predicate,
                    joins,
                    from_tables,
                    returning,
                    p,
                );
            },
            QueryModel::Select { .. } => {},
        }
    }
}

/// What a write does in a transaction.
pub open spec fn write_of<F: Fn(FloatOp) -> u64>(
    f: F,
    c: CatalogModel,
    write: QueryModel,
    contents: Trees,
) -> Written<Seq<RowModel>> {
    match write {
        QueryModel::Insert { table, row } => planner::without_rows(
            executor::inserted(c, contents, table, row),
        ),
        QueryModel::Update { table, assignments, predicate, joins, from_tables, returning } =>
            executor::updated(
            f,
            c,
            contents,
            table,
            assignments,
            predicate,
            joins,
            from_tables,
            returning,
        ),
        QueryModel::Delete { table, predicate, returning } => executor::deleted(
            c,
            contents,
            table,
            predicate,
            returning,
        ),
        QueryModel::Select { .. } => planner::run_of(f, c, write, contents),
    }
}

/// What the writes of a transaction do, one after the other, up to one that
/// fails: the contents that a commit stores, and the changes that it keeps for
/// the listeners.
pub open spec fn writes_of<F: Fn(FloatOp) -> u64>(
    f: F,
    c: CatalogModel,
    writes: Seq<QueryModel>,
    contents: Trees,
) -> Written<()>
    decreases writes.len(),
{
    if writes.len() == 0 {
        Written { result: Ok(()), trees: contents, events: Seq::empty() }
    } else {
        let first = write_of(f, c, writes[0], contents);
        match first.result {
            Err(e) => Written { result: Err(e), trees: first.trees, events: first.events },
            Ok(_) => {
                let rest = writes_of(f, c, writes.drop_first(), first.trees);
                Written {
                    result: rest.result,
                    trees: rest.trees,
                    events: first.events + rest.events,
                }
            },
        }
    }
}

} // verus!
