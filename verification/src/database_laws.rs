//! What every query keeps of a database, and what an index is for.
use vstd::prelude::*;
use crate::catalog::{self, CatalogModel};
use crate::consistency::{self, distinct_names, well_kept};
use crate::error::ErrorModel;
use crate::executor;
use crate::float::FloatOp;
use crate::join_builder;
use crate::name_table;
use crate::order;
use crate::ordered_map::{self, OrderedKey};
use crate::patch;
use crate::persistence;
use crate::planner;
use crate::predicate::{self, CacheModel};
use crate::query::{PredicateModel, QueryModel};
use crate::schema::{self, IndexModel};
use crate::store::{self, KeyModel, RowModel, Trees};
use crate::store_helpers;
use crate::value::{self, EngineKey};

verus! {

/// A database is in order: so is every table, and no two indexes have one name.
pub open spec fn database_kept(c: CatalogModel, trees: Trees) -> bool {
    &&& trees.dom().finite()
    &&& distinct_names(c.indexes)
    &&& forall|table: Seq<char>| #[trigger] c.tables.contains_key(table) ==> table_kept(
        c,
        trees,
        table,
    )
}

/// A table of a database is in order.
pub open spec fn table_kept(c: CatalogModel, trees: Trees, table: Seq<char>) -> bool {
    well_kept(trees, table, c.tables[table], catalog::indexes_of(c.indexes, table))
}

/// Indexes of different tables have different names.
proof fn lemma_names_apart(c: CatalogModel, a: Seq<char>, b: Seq<char>, i: int, j: int)
    requires
        distinct_names(c.indexes),
        a != b,
        0 <= i < catalog::indexes_of(c.indexes, a).len(),
        0 <= j < catalog::indexes_of(c.indexes, b).len(),
    ensures
        catalog::indexes_of(c.indexes, a)[i].name != catalog::indexes_of(c.indexes, b)[j].name,
{
    let p = catalog::belongs_to(a);
    let q = catalog::belongs_to(b);
    let x = store_helpers::lemma_kept_member(c.indexes, p, i);
    let y = store_helpers::lemma_kept_member(c.indexes, q, j);
    store_helpers::lemma_kept_holds(c.indexes, p, i);
    store_helpers::lemma_kept_holds(c.indexes, q, j);
    assert(x != y);
    if x < y {
        assert(c.indexes[x].name != c.indexes[y].name);
    } else {
        assert(c.indexes[y].name != c.indexes[x].name);
    }
}

/// A statement on one table leaves the others in order.
proof fn lemma_other_table(
    c: CatalogModel,
    after: Trees,
    trees: Trees,
    table: Seq<char>,
    other: Seq<char>,
)
    requires
        distinct_names(c.indexes),
        after.dom().finite(),
        consistency::same_outside(after, trees, table, catalog::indexes_of(c.indexes, table)),
        table != other,
        table_kept(c, trees, other),
    ensures
        table_kept(c, after, other),
{
    let changed = catalog::indexes_of(c.indexes, table);
    let indexes = catalog::indexes_of(c.indexes, other);
    let schema = c.tables[other];
    let rows = persistence::rows_of(other);
    assert(!consistency::is_of_table(rows, table, changed)) by {
        persistence::law_trees_apart(other, table);
        assert forall|i: int| 0 <= i < changed.len() implies rows != persistence::entries_of(
            (#[trigger] changed[i]).name,
        ) by {
            persistence::law_trees_apart(other, changed[i].name);
        }
    }
    assert forall|pk: KeyModel| #[trigger] store::row_at(after, other, pk) == store::row_at(
        trees,
        other,
        pk,
    ) by {
        assert(patch::lookup(after, (rows, pk)) == patch::lookup(trees, (rows, pk)));
    }
    assert forall|i: int, k: KeyModel| 0 <= i < indexes.len() implies (#[trigger]
    after.contains_key((persistence::entries_of(indexes[i].name), k)) <==> trees.contains_key(
        (persistence::entries_of(indexes[i].name), k),
    )) by {
        let tree = persistence::entries_of(indexes[i].name);
        assert(!consistency::is_of_table(tree, table, changed)) by {
            persistence::law_trees_apart(table, indexes[i].name);
            assert forall|j: int| 0 <= j < changed.len() implies tree != persistence::entries_of(
                (#[trigger] changed[j]).name,
            ) by {
                lemma_names_apart(c, other, table, i, j);
                persistence::law_trees_apart(indexes[i].name, changed[j].name);
            }
        }
        assert(patch::lookup(after, (tree, k)) == patch::lookup(trees, (tree, k)));
    }
    assert forall|i: int| 0 <= i < indexes.len() implies indexes.contains(
        #[trigger] indexes[i],
    ) by {}
    consistency::lemma_well_kept_alike(after, trees, other, schema, indexes, indexes);
}

/// A statement that leaves its table in order leaves the database in order.
proof fn lemma_database(c: CatalogModel, after: Trees, trees: Trees, table: Seq<char>)
    requires
        database_kept(c, trees),
        table_kept(c, after, table),
        consistency::same_outside(after, trees, table, catalog::indexes_of(c.indexes, table)),
    ensures
        database_kept(c, after),
{
    assert forall|other: Seq<char>| #[trigger] c.tables.contains_key(other) implies table_kept(
        c,
        after,
        other,
    ) by {
        if other != table {
            lemma_other_table(c, after, trees, table, other);
        }
    }
}

/// Law: a query, whatever comes of it, leaves a database in order that was in
/// order.
pub proof fn law_query_keeps_database<F: Fn(FloatOp) -> u64>(
    f: F,
    c: CatalogModel,
    q: QueryModel,
    trees: Trees,
)
    requires
        database_kept(c, trees),
    ensures
        database_kept(c, planner::run_of(f, c, q, trees).trees),
    decreases q,
{
    match q {
        QueryModel::Insert { table, row } => {
            let done = executor::inserted(c, trees, table, row);
            if done.result is Ok {
                assert(c.tables.contains_key(table));
                consistency::law_insert_keeps_table(c, trees, table, row);
                lemma_database(c, done.trees, trees, table);
            }
        },
        QueryModel::Select { table, projection, predicate, options } => {
            if let Some(p) = predicate {
                lemma_subqueries_keep(f, c, p, CacheModel::empty(), trees);
            }
        },
        QueryModel::Update { table, assignments, predicate, joins, from_tables, returning } => {
            let done = executor::updated(
                f,
                c,
                trees,
                table,
                assignments,
                predicate,
                joins,
                from_tables,
                returning,
            );
            if done.result is Ok {
                assert(c.tables.contains_key(table));
                consistency::law_update_keeps_table(
                    f,
                    c,
                    trees,
                    table,
                    assignments,
                    predicate,
                    joins,
                    from_tables,
                    returning,
                );
                lemma_database(c, done.trees, trees, table);
            }
        },
        QueryModel::Delete { table, predicate, returning } => {
            let done = executor::deleted(c, trees, table, predicate, returning);
            if done.result is Ok {
                assert(c.tables.contains_key(table));
                consistency::law_delete_keeps_table(c, trees, table, predicate, returning);
                lemma_database(c, done.trees, trees, table);
            }
        },
    }
}

pub proof fn lemma_subqueries_keep<F: Fn(FloatOp) -> u64>(
    f: F,
    c: CatalogModel,
    p: PredicateModel,
    cache: CacheModel,
    trees: Trees,
)
    requires
        database_kept(c, trees),
    ensures
        database_kept(c, planner::subqueries_run(f, c, p, cache, trees).trees),
    decreases p,
{
    match p {
        PredicateModel::InSubquery { expr, subquery, negated } => {
            law_query_keeps_database(f, c, *subquery, trees);
        },
        PredicateModel::And(left, right) => {
            lemma_subqueries_keep(f, c, *left, cache, trees);
            let first = planner::subqueries_run(f, c, *left, cache, trees);
            if let Ok(more) = first.result {
                lemma_subqueries_keep(f, c, *right, more, first.trees);
            }
        },
        PredicateModel::Or(left, right) => {
            lemma_subqueries_keep(f, c, *left, cache, trees);
            let first = planner::subqueries_run(f, c, *left, cache, trees);
            if let Ok(more) = first.result {
                lemma_subqueries_keep(f, c, *right, more, first.trees);
            }
        },
        PredicateModel::Not(inner) => {
            lemma_subqueries_keep(f, c, *inner, cache, trees);
        },
        _ => {},
    }
}

/// Law: a statement that fails leaves the trees as they were, and nobody hears
/// of it.
pub proof fn law_failure_changes_nothing<F: Fn(FloatOp) -> u64>(
    f: F,
    c: CatalogModel,
    q: QueryModel,
    trees: Trees,
)
    requires
        !(q is Select),
        planner::run_of(f, c, q, trees).result is Err,
    ensures
        planner::run_of(f, c, q, trees).trees == trees,
        planner::run_of(f, c, q, trees).events.len() == 0,
{
}

/// Keys with one beginning are ordered by what follows it.
proof fn lemma_lex_prefix<A>(a: Seq<A>, x: Seq<A>, y: Seq<A>, less: spec_fn(A, A) -> bool)
    requires
        order::strict_total(less),
        order::lex_less(a + x, a + y, less),
    ensures
        order::lex_less(x, y, less),
    decreases a.len(),
{
    if a.len() == 0 {
        assert(a + x =~= x);
        assert(a + y =~= y);
    } else {
        assert((a + x).drop_first() =~= a.drop_first() + x);
        assert((a + y).drop_first() =~= a.drop_first() + y);
        assert((a + x)[0] == a[0] && (a + y)[0] == a[0]);
        assert(!less(a[0], a[0]));
        lemma_lex_prefix(a.drop_first(), x, y, less);
    }
}

/// An entry of an index, parted.
pub open spec fn parted(index: IndexModel) -> spec_fn((KeyModel, RowModel)) -> (KeyModel, KeyModel) {
    |entry: (KeyModel, RowModel)| schema::split_entry(index, entry.0)
}

/// The primary keys under one index key come in order.
proof fn lemma_keys_in_order(list: Seq<(KeyModel, RowModel)>, index: IndexModel, key: KeyModel)
    requires
        ordered_map::ascending(list, value::key_less()),
    ensures
        ({
            let keys = store_helpers::keys_under(list.map_values(parted(index)), key);
            forall|i: int, j: int|
                0 <= i < j < keys.len() ==> value::key_less()(
                    #[trigger] keys[i],
                    #[trigger] keys[j],
                )
        }),
    decreases list.len(),
{
    let f = parted(index);
    let p = store_helpers::filed_under(key);
    let less = value::key_less();
    let all = list.map_values(f);
    let keys = store_helpers::keys_under(all, key);
    if list.len() > 0 {
        let rest = list.drop_last();
        assert(all.drop_last() =~= rest.map_values(f));
        assert forall|i: int, j: int| 0 <= i < j < rest.len() implies less(
            (#[trigger] rest[i]).0,
            (#[trigger] rest[j]).0,
        ) by {
            assert(less(list[i].0, list[j].0));
        }
        lemma_keys_in_order(rest, index, key);
        let shorter = store_helpers::keys_under(all.drop_last(), key);
        let kept = store_helpers::kept(all.drop_last(), p);
        let (last_key, last_pk) = all.last();
        if last_key == key {
            assert(keys =~= shorter.push(last_pk));
            assert forall|i: int| 0 <= i < shorter.len() implies less(
                #[trigger] shorter[i],
                last_pk,
            ) by {
                let at = store_helpers::lemma_kept_member(all.drop_last(), p, i);
                store_helpers::lemma_kept_holds(all.drop_last(), p, i);
                let composite = list[at].0;
                let last = list[list.len() - 1].0;
                assert(less(composite, last));
                assert(kept[i] == schema::split_entry(index, composite));
                assert(composite =~= key + shorter[i]);
                assert(last =~= key + last_pk);
                value::law_value_order_total();
                lemma_lex_prefix(key, shorter[i], last_pk, value::value_less());
            }
        } else {
            assert(keys =~= shorter);
        }
    }
}

/// The rows under primary keys that all have one.
proof fn lemma_rows_under(trees: Trees, table: Seq<char>, keys: Seq<KeyModel>)
    requires
        forall|i: int|
            0 <= i < keys.len() ==> store::row_at(trees, table, #[trigger] keys[i]) is Some,
    ensures
        store_helpers::rows_under(trees, table, keys) == keys.map_values(
            |pk: KeyModel| store::row_at(trees, table, pk)->0,
        ),
    decreases keys.len(),
{
    let f = |pk: KeyModel| store::row_at(trees, table, pk)->0;
    if keys.len() > 0 {
        let rest = keys.drop_last();
        assert forall|i: int| 0 <= i < rest.len() implies store::row_at(
            trees,
            table,
            #[trigger] rest[i],
        ) is Some by {
            assert(rest[i] == keys[i]);
        }
        lemma_rows_under(trees, table, rest);
        assert(store::row_at(trees, table, keys[keys.len() - 1]) is Some);
        assert(keys.map_values(f) =~= rest.map_values(f).push(f(keys.last())));
    } else {
        assert(keys.map_values(f) =~= Seq::empty());
    }
}

/// What an index gives for a condition: the rows that meet it, in the order of
/// their primary keys.
proof fn lemma_index_rows(
    trees: Trees,
    table: Seq<char>,
    index: IndexModel,
    p: PredicateModel,
)
    requires
        trees.dom().finite(),
        consistency::in_step(trees, table, index),
        index.table_name == table,
        predicate::index_key_for(p, index) is Some,
        store::entries_fit(store::index_entries(trees, index)),
    ensures
        store_helpers::looked_up(trees, index, p) is Ok,
        store_helpers::rows_under(
            trees,
            table,
            store_helpers::looked_up(trees, index, p)->Ok_0,
        ) == join_builder::rows_only(store_helpers::matching_rows(trees, table, Some(p))),
{
    let key = predicate::index_key_for(p, index)->0;
    let less = value::key_less();
    let tree = persistence::entries_of(index.name);
    let list = store::tree_listing(trees, tree);
    let entries = store::index_entries(trees, index);
    let filed = store_helpers::filed_under(key);
    consistency::lemma_tree_listed(trees, tree);
    assert(entries =~= list.map_values(parted(index)));
    let keys = store_helpers::keys_under(entries, key);
    lemma_keys_in_order(list, index, key);
    let row_of = |pk: KeyModel| store::row_at(trees, table, pk)->0;
    let pairs = keys.map_values(|pk: KeyModel| (pk, row_of(pk)));
    let rows = store_helpers::matching_rows(trees, table, Some(p));
    consistency::lemma_matching_rows(trees, table, Some(p));
    <EngineKey as OrderedKey>::before_total();
    // Every key has a row with the index key.
    assert forall|i: int| 0 <= i < keys.len() implies store::row_at(
        trees,
        table,
        #[trigger] keys[i],
    ) is Some && schema::index_key_of(index, row_of(keys[i])) == Ok::<KeyModel, ErrorModel>(
        key,
    ) by {
        let at = store_helpers::lemma_kept_member(entries, filed, i);
        store_helpers::lemma_kept_holds(entries, filed, i);
        assert(trees.contains_key((tree, list[at].0)));
        assert(consistency::entry_backed(trees, table, index, list[at].0));
    }
    lemma_rows_under(trees, table, keys);
    assert(ordered_map::ascending(pairs, less));
    assert forall|row: RowModel|
        store_helpers::meets(Some(p), table, row) <==> #[trigger] schema::index_key_of(
            index,
            row,
        ) == Ok::<KeyModel, ErrorModel>(key) by {
        predicate::law_index_key_decides(p, index, row, CacheModel::empty());
    }
    // Both lists are listings of one map.
    ordered_map::lemma_ascending_map(pairs, less);
    ordered_map::lemma_ascending_map(rows, less);
    let x = name_table::first_map(pairs);
    let y = name_table::first_map(rows);
    let list_rows = store::table_rows(trees, table);
    let meets = |entry: (KeyModel, RowModel)| store_helpers::meets(Some(p), table, entry.1);
    consistency::lemma_tree_listed(trees, persistence::rows_of(table));
    assert forall|pk: KeyModel| #[trigger] x.contains_key(pk) implies y.contains_key(pk) && x[pk]
        == y[pk] by {
        let i = choose|i: int| 0 <= i < pairs.len() && (#[trigger] pairs[i]).0 == pk;
        assert(keys[i] == pk);
        let row = row_of(pk);
        assert(schema::index_key_of(index, row) == Ok::<KeyModel, ErrorModel>(key));
        assert(trees.contains_key((persistence::rows_of(table), pk)));
        let at = choose|at: int| 0 <= at < list_rows.len() && (#[trigger] list_rows[at]).0 == pk;
        assert(list_rows[at] == (pk, row));
        let j = store_helpers::lemma_kept_contains(list_rows, meets, at);
        assert(rows[j] == (pk, row));
    }
    assert forall|pk: KeyModel| #[trigger] y.contains_key(pk) implies x.contains_key(pk) by {
        let j = choose|j: int| 0 <= j < rows.len() && (#[trigger] rows[j]).0 == pk;
        let row = rows[j].1;
        let at = store_helpers::lemma_kept_member(list_rows, meets, j);
        store_helpers::lemma_kept_holds(list_rows, meets, j);
        assert(trees.contains_key((persistence::rows_of(table), list_rows[at].0)));
        assert(store::row_at(trees, table, pk) == Some(row));
        assert(schema::index_key_of(index, row) == Ok::<KeyModel, ErrorModel>(key));
        assert(consistency::row_entered(trees, table, index, pk));
        let e = consistency::lemma_entry_listed(trees, index, row, pk);
        let i = store_helpers::lemma_kept_contains(entries, filed, e);
        assert(keys[i] == pk);
        assert(pairs[i].0 == pk);
    }
    assert(x =~= y);
    ordered_map::law_listing_unique(pairs, rows, less);
    assert(keys.map_values(row_of) =~= join_builder::rows_only(rows)) by {
        assert forall|i: int| 0 <= i < keys.len() implies keys.map_values(row_of)[i]
            == join_builder::rows_only(rows)[i] by {
            assert(pairs[i] == rows[i]);
        }
    }
}

proof fn lemma_index_for(indexes: Seq<IndexModel>, p: PredicateModel) -> (i: int)
    requires
        catalog::index_for(indexes, p) is Some,
    ensures
        0 <= i < indexes.len(),
        catalog::index_for(indexes, p) == Some(indexes[i]),
        predicate::index_key_for(p, indexes[i]) is Some,
    decreases indexes.len(),
{
    if predicate::index_key_for(p, indexes[0]) is Some {
        0
    } else {
        lemma_index_for(indexes.drop_first(), p) + 1
    }
}

/// Law: an index changes nothing but the way: a read of a table that is in
/// order gives the rows that a scan gives, in the same order.
pub proof fn law_index_read_is_scan(
    c: CatalogModel,
    trees: Trees,
    table: Seq<char>,
    projection: Seq<usize>,
    predicate: Option<PredicateModel>,
)
    requires
        c.tables.contains_key(table),
        table_kept(c, trees, table),
    ensures
        planner::read_of(c, trees, table, projection, predicate) == planner::projected_rows(
            join_builder::rows_only(store_helpers::matching_rows(trees, table, predicate)),
            projection,
        ),
{
    let indexes = catalog::indexes_of(c.indexes, table);
    consistency::lemma_keys_fit(trees, table, c.tables[table]);
    if let Some(p) = predicate {
        if catalog::index_for(indexes, p) is Some {
            let i = lemma_index_for(indexes, p);
            store_helpers::lemma_kept_holds(c.indexes, catalog::belongs_to(table), i);
            assert(consistency::in_step(trees, table, indexes[i]));
            consistency::lemma_entries_fit(trees, table, c.tables[table], indexes[i]);
            lemma_index_rows(trees, table, indexes[i], p);
        }
    }
}

} // verus!
