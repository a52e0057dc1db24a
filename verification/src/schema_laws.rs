//! What is known of tables: one that is registered stays as it is until it is
//! dropped.
use vstd::prelude::*;
use crate::catalog::{self, CatalogModel};
use crate::catalog_laws;
use crate::change_event::EventModel;
use crate::change_laws::write_of;
use crate::codec::Encoded;
use crate::consistency;
use crate::error::ErrorModel;
use crate::executor::{self, UpdateModel, UpdatePlan};
use crate::float::FloatOp;
use crate::patch;
use crate::persistence;
use crate::plain;
use crate::planner;
use crate::predicate::CacheModel;
use crate::query::{ColumnRef, PredicateModel, QueryModel};
use crate::schema::{self, IndexModel, IndexSchema, TableModel, TableSchema};
use crate::store::{self, KeyModel, RowModel, Trees};
use crate::store_helpers;
use crate::update_expr;
use crate::value::ValueModel;

verus! {

/// A tree that keeps schemas.
pub open spec fn is_of_schemas(tree: Seq<char>) -> bool {
    tree == persistence::table_schemas() || tree == persistence::index_schemas()
}

/// The schemas that trees keep are as before.
pub open spec fn keeps_schemas(after: Trees, trees: Trees) -> bool {
    &&& trees.dom().finite() ==> after.dom().finite()
    &&& forall|q: (Seq<char>, KeyModel)|
        is_of_schemas(q.0) ==> #[trigger] patch::lookup(after, q) == patch::lookup(trees, q)
}

proof fn lemma_twice(last: Trees, after: Trees, trees: Trees)
    requires
        keeps_schemas(last, after),
        keeps_schemas(after, trees),
    ensures
        keeps_schemas(last, trees),
{
    assert forall|q: (Seq<char>, KeyModel)| is_of_schemas(q.0) implies #[trigger] patch::lookup(
        last,
        q,
    ) == patch::lookup(trees, q) by {
        assert(patch::lookup(last, q) == patch::lookup(after, q));
    }
}

/// Putting in or taking out rows and entries leaves the schemas.
proof fn lemma_place(trees: Trees, place: (Seq<char>, KeyModel), row: RowModel)
    requires
        !is_of_schemas(place.0),
    ensures
        keeps_schemas(trees.insert(place, row), trees),
        keeps_schemas(trees.remove(place), trees),
{
    assert(trees.insert(place, row).dom() =~= trees.dom().insert(place));
    assert(trees.remove(place).dom() =~= trees.dom().remove(place));
}

proof fn lemma_added(trees: Trees, indexes: Seq<IndexModel>, row: RowModel, pk: KeyModel)
    ensures
        keeps_schemas(store_helpers::entries_added(trees, indexes, row, pk).1, trees),
    decreases indexes.len(),
{
    if indexes.len() > 0 {
        if let Ok(key) = schema::index_key_of(indexes[0], row) {
            let next = store::with_entry(trees, indexes[0], key, pk);
            persistence::law_trees_apart(indexes[0].name, indexes[0].name);
            lemma_place(trees, store::entry_place(indexes[0], key, pk), Seq::empty());
            lemma_added(next, indexes.drop_first(), row, pk);
            lemma_twice(
                store_helpers::entries_added(trees, indexes, row, pk).1,
                next,
                trees,
            );
        }
    }
}

proof fn lemma_removed(trees: Trees, indexes: Seq<IndexModel>, row: RowModel, pk: KeyModel)
    ensures
        keeps_schemas(store_helpers::entries_removed(trees, indexes, row, pk).1, trees),
    decreases indexes.len(),
{
    if indexes.len() > 0 {
        if let Ok(key) = schema::index_key_of(indexes[0], row) {
            let next = store::without_entry(trees, indexes[0], key, pk);
            persistence::law_trees_apart(indexes[0].name, indexes[0].name);
            lemma_place(trees, store::entry_place(indexes[0], key, pk), Seq::empty());
            lemma_removed(next, indexes.drop_first(), row, pk);
            lemma_twice(
                store_helpers::entries_removed(trees, indexes, row, pk).1,
                next,
                trees,
            );
        }
    }
}

proof fn lemma_row_added(
    trees: Trees,
    table: Seq<char>,
    pk: KeyModel,
    row: RowModel,
    indexes: Seq<IndexModel>,
)
    ensures
        keeps_schemas(executor::row_added(trees, table, pk, row, indexes).1, trees),
{
    let next = store::with_row(trees, table, pk, row);
    persistence::law_trees_apart(table, table);
    lemma_place(trees, (persistence::rows_of(table), pk), row);
    lemma_added(next, indexes, row, pk);
    lemma_twice(executor::row_added(trees, table, pk, row, indexes).1, next, trees);
}

proof fn lemma_row_deleted(
    trees: Trees,
    table: Seq<char>,
    pk: KeyModel,
    row: RowModel,
    indexes: Seq<IndexModel>,
)
    ensures
        keeps_schemas(store_helpers::row_deleted(trees, table, pk, row, indexes).1, trees),
{
    let next = store::without_row(trees, table, pk);
    persistence::law_trees_apart(table, table);
    lemma_place(trees, (persistence::rows_of(table), pk), row);
    lemma_removed(next, indexes, row, pk);
    lemma_twice(store_helpers::row_deleted(trees, table, pk, row, indexes).1, next, trees);
}

proof fn lemma_deleting(
    rows: Seq<(KeyModel, RowModel)>,
    trees: Trees,
    table: Seq<char>,
    indexes: Seq<IndexModel>,
    returning: Option<Seq<ColumnRef>>,
    out: Seq<RowModel>,
    events: Seq<EventModel>,
)
    ensures
        keeps_schemas(
            executor::deleting(rows, trees, table, indexes, returning, out, events).trees,
            trees,
        ),
    decreases rows.len(),
{
    if rows.len() > 0 {
        let (pk, row) = rows[0];
        if let Ok(more) = executor::given_back(table, row, returning, out) {
            let (result, after) = store_helpers::row_deleted(trees, table, pk, row, indexes);
            lemma_row_deleted(trees, table, pk, row, indexes);
            if result is Ok {
                let heard = events.push(EventModel::RowDeleted { table, pk, row });
                lemma_deleting(rows.drop_first(), after, table, indexes, returning, more, heard);
                lemma_twice(
                    executor::deleting(rows, trees, table, indexes, returning, out, events).trees,
                    after,
                    trees,
                );
            }
        }
    }
}

proof fn lemma_row_replaced(
    plan: UpdatePlan,
    trees: Trees,
    old_pk: KeyModel,
    old_row: RowModel,
    new_row: RowModel,
)
    ensures
        keeps_schemas(
            executor::row_replaced(plan, trees, old_pk, old_row, new_row).1,
            trees,
        ),
{
    let (gone, after) = store_helpers::row_deleted(
        trees,
        plan.table,
        old_pk,
        old_row,
        plan.indexes,
    );
    lemma_row_deleted(trees, plan.table, old_pk, old_row, plan.indexes);
    if let Ok(pk) = schema::primary_key_of(plan.schema, new_row) {
        let last = executor::row_added(after, plan.table, pk, new_row, plan.indexes).1;
        lemma_row_added(after, plan.table, pk, new_row, plan.indexes);
        lemma_twice(last, after, trees);
    }
}

proof fn lemma_updating<F: Fn(FloatOp) -> u64>(
    f: F,
    plan: UpdatePlan,
    rows: Seq<UpdateModel>,
    trees: Trees,
    out: Seq<RowModel>,
    events: Seq<EventModel>,
)
    ensures
        keeps_schemas(executor::updating(f, plan, rows, trees, out, events).trees, trees),
    decreases rows.len(),
{
    if rows.len() > 0 {
        let (old_pk, old_row, joined) = rows[0];
        if let Ok(new_row) = update_expr::assigned(
            f,
            old_row,
            plan.assignments,
            plan.table,
            joined,
            old_row,
        ) {
            let (result, after) = executor::row_replaced(plan, trees, old_pk, old_row, new_row);
            lemma_row_replaced(plan, trees, old_pk, old_row, new_row);
            if let Ok(pk) = result {
                if let Ok(more) = executor::given_back(plan.table, new_row, plan.returning, out) {
                    let heard = events.push(
                        EventModel::RowUpdated { table: plan.table, pk, old_row, new_row },
                    );
                    lemma_updating(f, plan, rows.drop_first(), after, more, heard);
                    lemma_twice(
                        executor::updating(f, plan, rows, trees, out, events).trees,
                        after,
                        trees,
                    );
                }
            }
        }
    }
}

/// Law: a write in a transaction leaves all schemas, whether it succeeds or not.
pub proof fn law_write_leaves_schemas<F: Fn(FloatOp) -> u64>(
    f: F,
    c: CatalogModel,
    write: QueryModel,
    trees: Trees,
)
    ensures
        keeps_schemas(write_of(f, c, write, trees).trees, trees),
    decreases write, 1int,
{
    match write {
        QueryModel::Insert { table, row } => {
            if let Ok(t) = catalog::table_of(c, table) {
                if let Ok(pk) = schema::primary_key_of(t, row) {
                    let indexes = catalog::indexes_of(c.indexes, table);
                    lemma_row_added(trees, table, pk, row, indexes);
                }
            }
        },
        QueryModel::Delete { table, predicate, returning } => {
            lemma_deleting(
                store_helpers::matching_rows(trees, table, predicate),
                trees,
                table,
                catalog::indexes_of(c.indexes, table),
                returning,
                Seq::empty(),
                Seq::empty(),
            );
        },
        QueryModel::Update { table, assignments, predicate, joins, from_tables, returning } => {
            if let Ok(schema) = catalog::table_of(c, table) {
                if let Ok(rows) = executor::update_targets(
                    trees,
                    schema,
                    table,
                    joins,
                    from_tables,
                    predicate,
                ) {
                    let plan = UpdatePlan {
                        schema,
                        table,
                        indexes: catalog::indexes_of(c.indexes, table),
                        assignments,
                        returning,
                    };
                    lemma_updating(f, plan, rows, trees, Seq::empty(), Seq::empty());
                }
            }
        },
        QueryModel::Select { predicate, .. } => {
            if let Some(p) = predicate {
                lemma_subqueries(f, c, p, CacheModel::empty(), trees);
            }
        },
    }
}

/// Law: a query leaves all schemas, whether it succeeds or not.
pub proof fn law_query_leaves_schemas<F: Fn(FloatOp) -> u64>(
    f: F,
    c: CatalogModel,
    q: QueryModel,
    trees: Trees,
)
    ensures
        keeps_schemas(planner::run_of(f, c, q, trees).trees, trees),
    decreases q, 2int,
{
    law_write_leaves_schemas(f, c, q, trees);
}

proof fn lemma_subqueries<F: Fn(FloatOp) -> u64>(
    f: F,
    c: CatalogModel,
    p: PredicateModel,
    cache: CacheModel,
    trees: Trees,
)
    ensures
        keeps_schemas(planner::subqueries_run(f, c, p, cache, trees).trees, trees),
    decreases p, 0int,
{
    match p {
        PredicateModel::InSubquery { subquery, .. } => {
            law_query_leaves_schemas(f, c, *subquery, trees);
        },
        PredicateModel::And(a, b) => {
            let first = planner::subqueries_run(f, c, *a, cache, trees);
            lemma_subqueries(f, c, *a, cache, trees);
            if let Ok(more) = first.result {
                lemma_subqueries(f, c, *b, more, first.trees);
                lemma_twice(
                    planner::subqueries_run(f, c, *b, more, first.trees).trees,
                    first.trees,
                    trees,
                );
            }
        },
        PredicateModel::Or(a, b) => {
            let first = planner::subqueries_run(f, c, *a, cache, trees);
            lemma_subqueries(f, c, *a, cache, trees);
            if let Ok(more) = first.result {
                lemma_subqueries(f, c, *b, more, first.trees);
                lemma_twice(
                    planner::subqueries_run(f, c, *b, more, first.trees).trees,
                    first.trees,
                    trees,
                );
            }
        },
        PredicateModel::Not(a) => {
            lemma_subqueries(f, c, *a, cache, trees);
        },
        _ => {},
    }
}

/// A call of a database that may change what it knows or stores.
pub enum Call {
    RegisterTable(TableModel),
    DropTable(Seq<char>),
    RegisterIndex(IndexModel),
    DropIndex(Seq<char>),
    Run(QueryModel),
    /// A write of a transaction that is committed.
    Write(QueryModel),
    Reload,
}

/// What is known and stored after a call.
pub open spec fn call_done<F: Fn(FloatOp) -> u64>(
    f: F,
    call: Call,
    c: CatalogModel,
    trees: Trees,
) -> (CatalogModel, Trees) {
    match call {
        Call::RegisterTable(table) => {
            let (_, known, after) = catalog::table_registered(trees, c, table);
            (known, after)
        },
        Call::DropTable(name) => {
            let (_, known, after) = catalog::table_dropped(trees, c, name);
            (known, after)
        },
        Call::RegisterIndex(index) => {
            let (_, known, after) = catalog::index_registered(trees, c, index);
            (known, after)
        },
        Call::DropIndex(name) => {
            let (_, known, after) = catalog::index_dropped(trees, c, name);
            (known, after)
        },
        Call::Run(q) => (c, planner::run_of(f, c, q, trees).trees),
        Call::Write(q) => (c, write_of(f, c, q, trees).trees),
        Call::Reload => match catalog::loaded_catalog(trees) {
            Ok(known) => (known, trees),
            Err(_) => (c, trees),
        },
    }
}

/// What is known and stored after calls, one after the other.
pub open spec fn calls_done<F: Fn(FloatOp) -> u64>(
    f: F,
    calls: Seq<Call>,
    c: CatalogModel,
    trees: Trees,
) -> (CatalogModel, Trees)
    decreases calls.len(),
{
    if calls.len() == 0 {
        (c, trees)
    } else {
        let (known, after) = call_done(f, calls[0], c, trees);
        calls_done(f, calls.drop_first(), known, after)
    }
}

/// A call does not drop a table, and registers nothing that is too large to be
/// stored.
pub open spec fn spares(call: Call, table: Seq<char>) -> bool {
    match call {
        Call::RegisterTable(t) => <TableSchema as Encoded>::fits(t),
        Call::RegisterIndex(i) => <IndexSchema as Encoded>::fits(i),
        Call::DropTable(name) => name != table,
        _ => true,
    }
}

/// A schema of a table of that name is stored under a key.
pub open spec fn is_stored_at(trees: Trees, k: KeyModel, name: Seq<char>) -> bool {
    let place = (persistence::table_schemas(), k);
    trees.contains_key(place) && (persistence::kept_schema::<TableSchema>(
        trees[place],
        persistence::no_table(),
    ) matches Ok(table) && table.name == name)
}

/// A table is known and stored as it is, and no other schema of its name is stored.
pub open spec fn is_settled(c: CatalogModel, trees: Trees, table: TableModel) -> bool {
    let place = (persistence::table_schemas(), persistence::schema_key(table.name));
    &&& trees.dom().finite()
    &&& catalog::table_of(c, table.name) == Ok::<TableModel, ErrorModel>(table)
    &&& trees.contains_key(place)
    &&& persistence::kept_schema::<TableSchema>(trees[place], persistence::no_table()) == Ok::<
        TableModel,
        ErrorModel,
    >(table)
    &&& forall|k: KeyModel| #[trigger]
        is_stored_at(trees, k, table.name) ==> k == persistence::schema_key(table.name)
}

proof fn lemma_collected<A, B, E>(list: Seq<A>, f: spec_fn(A) -> Result<B, E>)
    requires
        plain::collected(list, f) is Ok,
    ensures
        plain::collected(list, f)->Ok_0.len() == list.len(),
        forall|i: int|
            0 <= i < list.len() ==> f(list[i]) == Ok::<B, E>(
                #[trigger] plain::collected(list, f)->Ok_0[i],
            ),
    decreases list.len(),
{
    if list.len() > 0 {
        let rest = list.drop_last();
        lemma_collected(rest, f);
        assert forall|i: int| 0 <= i < list.len() implies f(list[i]) == Ok::<B, E>(
            #[trigger] plain::collected(list, f)->Ok_0[i],
        ) by {
            if i < rest.len() {
                assert(rest[i] == list[i]);
                assert(plain::collected(list, f)->Ok_0[i] == plain::collected(rest, f)->Ok_0[i]);
            }
        }
    }
}

proof fn lemma_by_name(tables: Seq<TableModel>, name: Seq<char>)
    ensures
        catalog::tables_by_name(tables).contains_key(name) ==> exists|i: int|
            0 <= i < tables.len() && (#[trigger] tables[i]).name == name
                && catalog::tables_by_name(tables)[name] == tables[i],
        forall|i: int|
            0 <= i < tables.len() && (#[trigger] tables[i]).name == name
                ==> catalog::tables_by_name(tables).contains_key(name),
    decreases tables.len(),
{
    if tables.len() > 0 {
        let rest = tables.drop_last();
        let by_name = catalog::tables_by_name(tables);
        lemma_by_name(rest, name);
        if by_name.contains_key(name) {
            if tables.last().name == name {
                assert(tables[tables.len() - 1].name == name);
            } else {
                let i = choose|i: int|
                    0 <= i < rest.len() && (#[trigger] rest[i]).name == name
                        && catalog::tables_by_name(rest)[name] == rest[i];
                assert(tables[i] == rest[i]);
            }
        }
        assert forall|i: int| 0 <= i < tables.len() && (#[trigger] tables[i]).name == name implies
            by_name.contains_key(name) by {
            if i < rest.len() {
                assert(rest[i] == tables[i]);
            }
        }
    }
}

/// The tables that are loaded are those that are stored.
proof fn lemma_loaded_is_stored(trees: Trees, name: Seq<char>)
    requires
        trees.dom().finite(),
        catalog::loaded_catalog(trees) is Ok,
    ensures
        ({
            let tables = catalog::loaded_catalog(trees)->Ok_0.tables;
            &&& forall|k: KeyModel| #[trigger]
                is_stored_at(trees, k, name) ==> tables.contains_key(name)
            &&& tables.contains_key(name) ==> exists|k: KeyModel| #[trigger]
                is_stored_at(trees, k, name) && persistence::kept_schema::<TableSchema>(
                    trees[(persistence::table_schemas(), k)],
                    persistence::no_table(),
                ) == Ok::<TableModel, ErrorModel>(tables[name])
        }),
{
    let tree = persistence::table_schemas();
    let list = store::tree_listing(trees, tree);
    let f = |entry: (Seq<ValueModel>, Seq<ValueModel>)|
        persistence::kept_schema::<TableSchema>(entry.1, persistence::no_table());
    consistency::lemma_tree_listed(trees, tree);
    lemma_collected(list, f);
    let tables = plain::collected(list, f)->Ok_0;
    lemma_by_name(tables, name);
    assert forall|k: KeyModel| #[trigger] is_stored_at(trees, k, name) implies
        catalog::tables_by_name(tables).contains_key(name) by {
        let i = choose|i: int| 0 <= i < list.len() && (#[trigger] list[i]).0 == k;
        assert(f(list[i]) == Ok::<TableModel, ErrorModel>(tables[i]));
    }
    if catalog::tables_by_name(tables).contains_key(name) {
        let i = choose|i: int|
            0 <= i < tables.len() && (#[trigger] tables[i]).name == name
                && catalog::tables_by_name(tables)[name] == tables[i];
        assert(f(list[i]) == Ok::<TableModel, ErrorModel>(tables[i]));
        assert(trees.contains_key((tree, list[i].0)));
        assert(is_stored_at(trees, list[i].0, name));
    }
}

/// A table that is stored is loaded, where anything is.
proof fn lemma_loaded(c: CatalogModel, trees: Trees, table: TableModel)
    requires
        is_settled(c, trees, table),
    ensures
        catalog::loaded_catalog(trees) matches Ok(d) ==> is_settled(d, trees, table),
{
    if let Ok(d) = catalog::loaded_catalog(trees) {
        lemma_loaded_is_stored(trees, table.name);
        assert(is_stored_at(trees, persistence::schema_key(table.name), table.name));
    }
}

/// What is stored of schemas under a key is left, or taken out where it is not that
/// of a table.
spec fn is_left(after: Trees, trees: Trees, k: KeyModel, table: Seq<char>) -> bool {
    let q = (persistence::table_schemas(), k);
    patch::lookup(after, q) == patch::lookup(trees, q) || (k != persistence::schema_key(table)
        && patch::lookup(after, q) is None)
}

/// A table stays as it is where no more schemas are stored and its own is left.
proof fn lemma_still_settled(c: CatalogModel, after: Trees, trees: Trees, table: TableModel)
    requires
        is_settled(c, trees, table),
        after.dom().finite(),
        forall|k: KeyModel| #[trigger] is_left(after, trees, k, table.name),
    ensures
        is_settled(c, after, table),
{
    let tree = persistence::table_schemas();
    let key = persistence::schema_key(table.name);
    assert(is_left(after, trees, key, table.name));
    assert forall|k: KeyModel| #[trigger] is_stored_at(after, k, table.name) implies k == key by {
        assert(is_left(after, trees, k, table.name));
        assert(patch::lookup(after, (tree, k)) == patch::lookup(trees, (tree, k)));
        assert(is_stored_at(trees, k, table.name));
    }
}

proof fn lemma_kept_settled(c: CatalogModel, after: Trees, trees: Trees, table: TableModel)
    requires
        is_settled(c, trees, table),
        keeps_schemas(after, trees),
    ensures
        is_settled(c, after, table),
{
    assert forall|k: KeyModel| #[trigger] is_left(after, trees, k, table.name) by {
        let q = (persistence::table_schemas(), k);
        assert(patch::lookup(after, q) == patch::lookup(trees, q));
    }
    lemma_still_settled(c, after, trees, table);
}

proof fn lemma_other_registered(
    d: CatalogModel,
    trees: Trees,
    other: TableModel,
    table: TableModel,
)
    requires
        is_settled(d, trees, table),
        <TableSchema as Encoded>::fits(other),
        other.name != table.name,
    ensures
        is_settled(
            CatalogModel { tables: d.tables.insert(other.name, other), ..d },
            trees.insert(
                (persistence::table_schemas(), persistence::schema_key(other.name)),
                persistence::schema_row::<TableSchema>(other),
            ),
            table,
        ),
{
    let tree = persistence::table_schemas();
    let place = (tree, persistence::schema_key(other.name));
    let after = trees.insert(place, persistence::schema_row::<TableSchema>(other));
    persistence::law_schema_kept::<TableSchema>(other, persistence::no_table());
    assert(persistence::schema_key(other.name)[0] != persistence::schema_key(table.name)[0]);
    assert(after.dom() =~= trees.dom().insert(place));
    assert forall|k: KeyModel| #[trigger] is_stored_at(after, k, table.name) implies k
        == persistence::schema_key(table.name) by {
        assert((tree, k) != place);
        assert(is_stored_at(trees, k, table.name));
    }
}

proof fn lemma_call<F: Fn(FloatOp) -> u64>(
    f: F,
    call: Call,
    c: CatalogModel,
    trees: Trees,
    table: TableModel,
)
    requires
        is_settled(c, trees, table),
        spares(call, table.name),
    ensures
        ({
            let (known, after) = call_done(f, call, c, trees);
            is_settled(known, after, table)
        }),
{
    let (known, after) = call_done(f, call, c, trees);
    lemma_loaded(c, trees, table);
    match call {
        Call::RegisterTable(t) => {
            if catalog::table_registered(trees, c, t).0 is Ok {
                let d = catalog::loaded_catalog(trees)->Ok_0;
                assert(t.name != table.name);
                lemma_other_registered(d, trees, t, table);
            }
        },
        Call::DropTable(name) => {
            if catalog::table_dropped(trees, c, name).0 is Ok {
                let d = catalog::loaded_catalog(trees)->Ok_0;
                let gone = catalog::indexes_of(d.indexes, name);
                catalog_laws::law_table_cleared(trees, name, gone);
                persistence::law_trees_apart(name, name);
                assert(persistence::schema_key(name)[0] != persistence::schema_key(
                    table.name,
                )[0]);
                assert forall|k: KeyModel| #[trigger] is_left(after, trees, k, table.name) by {
                    let q = (persistence::table_schemas(), k);
                    assert forall|i: int| 0 <= i < gone.len() implies !catalog_laws::is_of_index(
                        q,
                        #[trigger] gone[i],
                    ) by {
                        persistence::law_trees_apart(gone[i].name, gone[i].name);
                    }
                    assert(!catalog_laws::is_of_indexes(q, gone));
                    assert(patch::lookup(after, q) == if catalog_laws::is_of_table(q, name, gone) {
                        None
                    } else {
                        patch::lookup(trees, q)
                    });
                }
                lemma_still_settled(d, after, trees, table);
            }
        },
        Call::RegisterIndex(i) => {
            if catalog::index_registered(trees, c, i).0 is Ok {
                let d = catalog::loaded_catalog(trees)->Ok_0;
                let place = (persistence::index_schemas(), persistence::schema_key(i.name));
                persistence::law_trees_apart(i.name, i.name);
                assert(after.dom() =~= trees.dom().insert(place));
                lemma_still_settled(d, after, trees, table);
            }
        },
        Call::DropIndex(name) => {
            if catalog::index_dropped(trees, c, name).0 is Ok {
                let d = catalog::loaded_catalog(trees)->Ok_0;
                let index = catalog::index_named(d.indexes, name)->0;
                catalog_laws::law_index_cleared(trees, index);
                persistence::law_trees_apart(index.name, index.name);
                assert forall|k: KeyModel| #[trigger] is_left(after, trees, k, table.name) by {
                    let q = (persistence::table_schemas(), k);
                    assert(patch::lookup(after, q) == patch::lookup(trees, q));
                }
                lemma_still_settled(d, after, trees, table);
            }
        },
        Call::Run(q) => {
            law_query_leaves_schemas(f, c, q, trees);
            lemma_kept_settled(c, after, trees, table);
        },
        Call::Write(q) => {
            law_write_leaves_schemas(f, c, q, trees);
            lemma_kept_settled(c, after, trees, table);
        },
        Call::Reload => {},
    }
}

proof fn lemma_calls<F: Fn(FloatOp) -> u64>(
    f: F,
    calls: Seq<Call>,
    c: CatalogModel,
    trees: Trees,
    table: TableModel,
)
    requires
        is_settled(c, trees, table),
        forall|i: int| 0 <= i < calls.len() ==> spares(#[trigger] calls[i], table.name),
    ensures
        ({
            let (known, after) = calls_done(f, calls, c, trees);
            is_settled(known, after, table)
        }),
    decreases calls.len(),
{
    if calls.len() > 0 {
        let (known, after) = call_done(f, calls[0], c, trees);
        let rest = calls.drop_first();
        assert forall|i: int| 0 <= i < rest.len() implies spares(
            #[trigger] rest[i],
            table.name,
        ) by {
            assert(rest[i] == calls[i + 1]);
        }
        lemma_call(f, calls[0], c, trees, table);
        lemma_calls(f, rest, known, after, table);
    }
}

/// Law: a table that was registered is described as it was registered, whatever
/// the store held and whatever calls come in between, as long as none of them
/// drops it.
pub proof fn law_registered_table_is_described<F: Fn(FloatOp) -> u64>(
    f: F,
    trees: Trees,
    before: CatalogModel,
    table: TableModel,
    calls: Seq<Call>,
)
    requires
        trees.dom().finite(),
        <TableSchema as Encoded>::fits(table),
        catalog::table_registered(trees, before, table).0 is Ok,
        forall|i: int| 0 <= i < calls.len() ==> spares(#[trigger] calls[i], table.name),
    ensures
        ({
            let (_, known, after) = catalog::table_registered(trees, before, table);
            catalog::table_of(calls_done(f, calls, known, after).0, table.name) == Ok::<
                TableModel,
                ErrorModel,
            >(table)
        }),
{
    let (_, known, after) = catalog::table_registered(trees, before, table);
    let tree = persistence::table_schemas();
    let key = persistence::schema_key(table.name);
    persistence::law_schema_kept::<TableSchema>(table, persistence::no_table());
    lemma_loaded_is_stored(trees, table.name);
    assert(after.dom() =~= trees.dom().insert((tree, key)));
    assert forall|k: KeyModel| #[trigger] is_stored_at(after, k, table.name) implies k == key by {
        if k != key {
            assert(is_stored_at(trees, k, table.name));
        }
    }
    lemma_calls(f, calls, known, after, table);
}

/// A call that neither registers or drops anything nor loads what is stored.
pub open spec fn leaves_catalog(call: Call) -> bool {
    call is Run || call is Write
}

/// Law: a new database describes no table, whatever its store holds and whatever
/// queries are run, until a schema is loaded or registered.
pub proof fn law_new_database_describes_nothing<F: Fn(FloatOp) -> u64>(
    f: F,
    trees: Trees,
    calls: Seq<Call>,
    name: Seq<char>,
)
    requires
        forall|i: int| 0 <= i < calls.len() ==> leaves_catalog(#[trigger] calls[i]),
    ensures
        catalog::table_of(calls_done(f, calls, catalog::empty_catalog(), trees).0, name) == Err::<
            TableModel,
            ErrorModel,
        >(ErrorModel::TableNotFound(name)),
    decreases calls.len(),
{
    if calls.len() > 0 {
        let rest = calls.drop_first();
        assert(leaves_catalog(calls[0]));
        assert forall|i: int| 0 <= i < rest.len() implies leaves_catalog(#[trigger] rest[i]) by {
            assert(rest[i] == calls[i + 1]);
        }
        let after = call_done(f, calls[0], catalog::empty_catalog(), trees).1;
        law_new_database_describes_nothing(f, after, rest, name);
    }
}

} // verus!
