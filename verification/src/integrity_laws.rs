//! The whole database: what every operation on it keeps.
use vstd::prelude::*;
use crate::catalog::{self, CatalogModel};
use crate::catalog_laws::{self, is_filed, schemas_filed};
use crate::codec::Encoded;
use crate::consistency;
use crate::database_laws::{self, database_kept, table_kept};
use crate::executor;
use crate::float::FloatOp;
use crate::in_memory;
use crate::patch;
use crate::persistence;
use crate::planner;
use crate::predicate::CacheModel;
use crate::query::{PredicateModel, QueryModel};
use crate::schema::{IndexModel, IndexSchema, TableModel, TableSchema};
use crate::store::{self, KeyModel, Trees};
use crate::store_helpers;

verus! {

/// Every index is one of a table that is known.
pub open spec fn indexes_homed(c: CatalogModel) -> bool {
    forall|i: int|
        0 <= i < c.indexes.len() ==> c.tables.contains_key((#[trigger] c.indexes[i]).table_name)
}

/// A row is one of a table that is known.
pub open spec fn row_homed(c: CatalogModel, trees: Trees, table: Seq<char>, pk: KeyModel) -> bool {
    trees.contains_key((persistence::rows_of(table), pk)) ==> c.tables.contains_key(table)
}

/// An entry is one of an index that is known.
pub open spec fn entry_homed(c: CatalogModel, trees: Trees, index: Seq<char>, k: KeyModel) -> bool {
    trees.contains_key((persistence::entries_of(index), k)) ==> catalog::has_index(
        c.indexes,
        index,
    )
}

/// There are no rows but those of tables that are known, and no entries but
/// those of indexes that are known.
pub open spec fn nothing_stray(c: CatalogModel, trees: Trees) -> bool {
    &&& forall|table: Seq<char>, pk: KeyModel| #[trigger] row_homed(c, trees, table, pk)
    &&& forall|index: Seq<char>, k: KeyModel| #[trigger] entry_homed(c, trees, index, k)
}

/// A database is as it should be: the catalog is the one that is stored, every
/// table is in order, and there is nothing else.
pub open spec fn is_whole(c: CatalogModel, trees: Trees) -> bool {
    &&& database_kept(c, trees)
    &&& schemas_filed(trees)
    &&& is_filed(c, trees)
    &&& indexes_homed(c)
    &&& nothing_stray(c, trees)
}

/// Law: a database without tables over an empty store is whole.
pub proof fn law_empty_database_is_whole()
    ensures
        is_whole(catalog::empty_catalog(), Map::empty()),
{
    let c = catalog::empty_catalog();
    let trees: Trees = Map::empty();
    assert forall|k: KeyModel| #[trigger] catalog_laws::table_filed(trees, k) by {}
    assert forall|k: KeyModel| #[trigger] catalog_laws::index_filed(trees, k) by {}
}

/// The same tables and indexes, the indexes in any order.
pub open spec fn same_members(c: CatalogModel, d: CatalogModel) -> bool {
    &&& d.tables == c.tables
    &&& forall|x: IndexModel| #[trigger] d.indexes.contains(x) <==> c.indexes.contains(x)
}

proof fn lemma_has_index(indexes: Seq<IndexModel>, x: IndexModel)
    requires
        indexes.contains(x),
    ensures
        catalog::has_index(indexes, x.name),
{
    let i = choose|i: int| 0 <= i < indexes.len() && indexes[i] == x;
    assert(indexes[i].name == x.name);
}

/// A table is in order under a catalog with the same indexes of it.
proof fn lemma_table_kept_alike(
    c: CatalogModel,
    d: CatalogModel,
    after: Trees,
    trees: Trees,
    table: Seq<char>,
)
    requires
        table_kept(c, trees, table),
        after.dom().finite(),
        consistency::distinct_names(d.indexes),
        d.tables[table] == c.tables[table],
        forall|x: IndexModel| #[trigger]
            d.indexes.contains(x) && x.table_name == table ==> c.indexes.contains(x),
        forall|pk: KeyModel| #[trigger]
            store::row_at(after, table, pk) == store::row_at(trees, table, pk),
        forall|x: IndexModel, k: KeyModel| #[trigger]
            d.indexes.contains(x) && x.table_name == table ==> #[trigger] after.contains_key(
                (persistence::entries_of(x.name), k),
            ) == trees.contains_key((persistence::entries_of(x.name), k)),
    ensures
        table_kept(d, after, table),
{
    let p = catalog::belongs_to(table);
    let indexes = catalog::indexes_of(c.indexes, table);
    let others = catalog::indexes_of(d.indexes, table);
    catalog_laws::lemma_kept_members(c.indexes, p);
    catalog_laws::lemma_kept_members(d.indexes, p);
    assert forall|i: int| 0 <= i < others.len() implies indexes.contains(#[trigger] others[i]) by {
        assert(others.contains(others[i]));
    }
    assert forall|i: int, k: KeyModel| 0 <= i < others.len() implies (#[trigger]
    after.contains_key((persistence::entries_of(others[i].name), k)) <==> trees.contains_key(
        (persistence::entries_of(others[i].name), k),
    )) by {
        assert(others.contains(others[i]));
        assert(d.indexes.contains(others[i]) && others[i].table_name == table);
    }
    consistency::lemma_well_kept_alike(
        after,
        trees,
        table,
        c.tables[table],
        indexes,
        others,
    );
}

/// The order of the indexes in a catalog does not matter.
proof fn lemma_reordered(c: CatalogModel, d: CatalogModel, trees: Trees)
    requires
        is_whole(c, trees),
        same_members(c, d),
        is_filed(d, trees),
    ensures
        is_whole(d, trees),
{
    assert forall|table: Seq<char>| #[trigger] d.tables.contains_key(table) implies table_kept(
        d,
        trees,
        table,
    ) by {
        assert(table_kept(c, trees, table));
        lemma_table_kept_alike(c, d, trees, trees, table);
    }
    assert forall|i: int| 0 <= i < d.indexes.len() implies d.tables.contains_key(
        (#[trigger] d.indexes[i]).table_name,
    ) by {
        assert(d.indexes.contains(d.indexes[i]));
        let j = choose|j: int| 0 <= j < c.indexes.len() && c.indexes[j] == d.indexes[i];
        assert(c.tables.contains_key(c.indexes[j].table_name));
    }
    assert forall|table: Seq<char>, pk: KeyModel| #[trigger] row_homed(d, trees, table, pk) by {
        assert(row_homed(c, trees, table, pk));
    }
    assert forall|index: Seq<char>, k: KeyModel| #[trigger] entry_homed(d, trees, index, k) by {
        assert(entry_homed(c, trees, index, k));
        if catalog::has_index(c.indexes, index) {
            let i = choose|i: int|
                0 <= i < c.indexes.len() && (#[trigger] c.indexes[i]).name == index;
            assert(c.indexes.contains(c.indexes[i]));
            lemma_has_index(d.indexes, c.indexes[i]);
        }
    }
}

/// Law: a whole database is whole under the catalog that its store keeps.
pub proof fn law_reload_keeps_whole(c: CatalogModel, trees: Trees)
    requires
        is_whole(c, trees),
    ensures
        catalog::loaded_catalog(trees) matches Ok(d) && is_whole(d, trees) && same_members(c, d),
{
    catalog_laws::law_loaded_is_filed(trees);
    let d = catalog::loaded_catalog(trees)->Ok_0;
    catalog_laws::lemma_same_catalog(d, c, trees);
    lemma_reordered(c, d, trees);
}

/// A statement on a table that is known leaves the schemas alone, and nothing
/// stray behind.
proof fn lemma_statement(c: CatalogModel, after: Trees, trees: Trees, table: Seq<char>)
    requires
        is_whole(c, trees),
        c.tables.contains_key(table),
        database_kept(c, after),
        consistency::same_outside(after, trees, table, catalog::indexes_of(c.indexes, table)),
    ensures
        is_whole(c, after),
{
    let indexes = catalog::indexes_of(c.indexes, table);
    let table_tree = persistence::table_schemas();
    let index_tree = persistence::index_schemas();
    assert(!consistency::is_of_table(table_tree, table, indexes)
        && !consistency::is_of_table(index_tree, table, indexes)) by {
        persistence::law_trees_apart(table, table);
        assert forall|i: int| 0 <= i < indexes.len() implies table_tree != persistence::entries_of(
            (#[trigger] indexes[i]).name,
        ) && index_tree != persistence::entries_of(indexes[i].name) by {
            persistence::law_trees_apart(indexes[i].name, indexes[i].name);
        }
    }
    assert forall|k: KeyModel| #[trigger] catalog_laws::table_filed(after, k) by {
        assert(catalog_laws::table_filed(trees, k));
        assert(patch::lookup(after, (table_tree, k)) == patch::lookup(trees, (table_tree, k)));
    }
    assert forall|k: KeyModel| #[trigger] catalog_laws::index_filed(after, k) by {
        assert(catalog_laws::index_filed(trees, k));
        assert(patch::lookup(after, (index_tree, k)) == patch::lookup(trees, (index_tree, k)));
    }
    lemma_filed_alike(c, after, trees);
    assert forall|t: Seq<char>, pk: KeyModel| #[trigger] row_homed(c, after, t, pk) by {
        assert(row_homed(c, trees, t, pk));
        if t != table {
            let q = (persistence::rows_of(t), pk);
            assert(!consistency::is_of_table(q.0, table, indexes)) by {
                persistence::law_trees_apart(t, table);
                assert forall|i: int| 0 <= i < indexes.len() implies q.0
                    != persistence::entries_of((#[trigger] indexes[i]).name) by {
                    persistence::law_trees_apart(t, indexes[i].name);
                }
            }
            assert(patch::lookup(after, q) == patch::lookup(trees, q));
        }
    }
    assert forall|index: Seq<char>, k: KeyModel| #[trigger] entry_homed(c, after, index, k) by {
        assert(entry_homed(c, trees, index, k));
        let q = (persistence::entries_of(index), k);
        if catalog::has_index(indexes, index) {
            let i = choose|i: int| 0 <= i < indexes.len() && (#[trigger] indexes[i]).name == index;
            let at = store_helpers::lemma_kept_member(c.indexes, catalog::belongs_to(table), i);
            assert(c.indexes[at].name == index);
        } else {
            assert(!consistency::is_of_table(q.0, table, indexes)) by {
                persistence::law_trees_apart(table, index);
                assert forall|i: int| 0 <= i < indexes.len() implies q.0
                    != persistence::entries_of((#[trigger] indexes[i]).name) by {
                    persistence::law_trees_apart(index, indexes[i].name);
                }
            }
            assert(patch::lookup(after, q) == patch::lookup(trees, q));
        }
    }
}

/// Where the trees of the schemas are the same, so is what is filed.
proof fn lemma_filed_alike(c: CatalogModel, after: Trees, trees: Trees)
    requires
        is_filed(c, trees),
        forall|k: KeyModel| #[trigger]
            patch::lookup(after, (persistence::table_schemas(), k)) == patch::lookup(
                trees,
                (persistence::table_schemas(), k),
            ),
        forall|k: KeyModel| #[trigger]
            patch::lookup(after, (persistence::index_schemas(), k)) == patch::lookup(
                trees,
                (persistence::index_schemas(), k),
            ),
    ensures
        is_filed(c, after),
{
    let table_tree = persistence::table_schemas();
    let index_tree = persistence::index_schemas();
    assert forall|name: Seq<char>| #[trigger] c.tables.contains_key(name) <==> after.contains_key(
        (table_tree, persistence::schema_key(name)),
    ) by {
        let k = persistence::schema_key(name);
        assert(patch::lookup(after, (table_tree, k)) == patch::lookup(trees, (table_tree, k)));
    }
    assert forall|name: Seq<char>| #[trigger]
        c.tables.contains_key(name) implies persistence::kept_schema::<TableSchema>(
        after[(table_tree, persistence::schema_key(name))],
        persistence::no_table(),
    ) == Ok::<TableModel, crate::error::ErrorModel>(c.tables[name]) by {
        let k = persistence::schema_key(name);
        assert(patch::lookup(after, (table_tree, k)) == patch::lookup(trees, (table_tree, k)));
    }
    assert forall|x: IndexModel| #[trigger]
        c.indexes.contains(x) <==> catalog_laws::index_kept(after, x) by {
        let k = persistence::schema_key(x.name);
        assert(patch::lookup(after, (index_tree, k)) == patch::lookup(trees, (index_tree, k)));
        assert(c.indexes.contains(x) <==> catalog_laws::index_kept(trees, x));
    }
}

/// Law: a query, whatever comes of it, leaves a whole database whole.
pub proof fn law_query_keeps_whole<F: Fn(FloatOp) -> u64>(
    f: F,
    c: CatalogModel,
    q: QueryModel,
    trees: Trees,
)
    requires
        is_whole(c, trees),
    ensures
        is_whole(c, planner::run_of(f, c, q, trees).trees),
    decreases q,
{
    database_laws::law_query_keeps_database(f, c, q, trees);
    match q {
        QueryModel::Insert { table, row } => {
            let done = executor::inserted(c, trees, table, row);
            if done.result is Ok {
                consistency::law_insert_keeps_table(c, trees, table, row);
                lemma_statement(c, done.trees, trees, table);
            }
        },
        QueryModel::Select { predicate, .. } => {
            if let Some(p) = predicate {
                lemma_subqueries_keep_whole(f, c, p, CacheModel::empty(), trees);
            }
        },
        QueryModel::Update { table, assignments, predicate, joins, from_tables, returning } => {
            let done = executor::updated(
                f,
                c,
                trees,
                table,
                assignments,
                predicate,
                joins,
                from_tables,
                returning,
            );
            if done.result is Ok {
                consistency::law_update_keeps_table(
                    f,
                    c,
                    trees,
                    table,
                    assignments,
                    predicate,
                    joins,
                    from_tables,
                    returning,
                );
                lemma_statement(c, done.trees, trees, table);
            }
        },
        QueryModel::Delete { table, predicate, returning } => {
            let done = executor::deleted(c, trees, table, predicate, returning);
            if done.result is Ok {
                consistency::law_delete_keeps_table(c, trees, table, predicate, returning);
                lemma_statement(c, done.trees, trees, table);
            }
        },
    }
}

proof fn lemma_subqueries_keep_whole<F: Fn(FloatOp) -> u64>(
    f: F,
    c: CatalogModel,
    p: PredicateModel,
    cache: CacheModel,
    trees: Trees,
)
    requires
        is_whole(c, trees),
    ensures
        is_whole(c, planner::subqueries_run(f, c, p, cache, trees).trees),
    decreases p,
{
    match p {
        PredicateModel::InSubquery { subquery, .. } => {
            law_query_keeps_whole(f, c, *subquery, trees);
        },
        PredicateModel::And(left, right) => {
            lemma_subqueries_keep_whole(f, c, *left, cache, trees);
            let first = planner::subqueries_run(f, c, *left, cache, trees);
            if let Ok(more) = first.result {
                lemma_subqueries_keep_whole(f, c, *right, more, first.trees);
            }
        },
        PredicateModel::Or(left, right) => {
            lemma_subqueries_keep_whole(f, c, *left, cache, trees);
            let first = planner::subqueries_run(f, c, *left, cache, trees);
            if let Ok(more) = first.result {
                lemma_subqueries_keep_whole(f, c, *right, more, first.trees);
            }
        },
        PredicateModel::Not(inner) => {
            lemma_subqueries_keep_whole(f, c, *inner, cache, trees);
        },
        _ => {},
    }
}

/// Law: registering a table leaves a whole database whole, whatever comes of it.
pub proof fn law_register_table_keeps_whole(c: CatalogModel, trees: Trees, table: TableModel)
    requires
        is_whole(c, trees),
        <TableSchema as Encoded>::fits(table),
    ensures
        ({
            let (_, known, after) = catalog::table_registered(trees, c, table);
            is_whole(known, after)
        }),
{
    let (result, known, after) = catalog::table_registered(trees, c, table);
    law_reload_keeps_whole(c, trees);
    let d = catalog::loaded_catalog(trees)->Ok_0;
    if result is Ok {
        catalog_laws::law_registered_table_is_loaded(trees, c, table);
        catalog_laws::law_loaded_is_filed(after);
        let place = (persistence::table_schemas(), persistence::schema_key(table.name));
        assert(after == trees.insert(place, persistence::schema_row::<TableSchema>(table)));
        assert forall|t: Seq<char>, k: KeyModel|
            patch::lookup(after, #[trigger] row_place(t, k)) == patch::lookup(
                trees,
                row_place(t, k),
            ) by {
            persistence::law_trees_apart(t, t);
        }
        assert forall|t: Seq<char>, k: KeyModel|
            patch::lookup(after, #[trigger] entry_place(t, k)) == patch::lookup(
                trees,
                entry_place(t, k),
            ) by {
            persistence::law_trees_apart(t, t);
        }
        assert forall|t: Seq<char>| #[trigger] known.tables.contains_key(t) implies table_kept(
            known,
            after,
            t,
        ) by {
            if t == table.name {
                lemma_new_table(d, known, after, trees, table);
            } else {
                assert(d.tables.contains_key(t));
                assert(table_kept(d, trees, t));
                lemma_alike(d, known, after, trees, t);
            }
        }
        assert forall|t: Seq<char>, pk: KeyModel| #[trigger] row_homed(known, after, t, pk) by {
            assert(row_homed(d, trees, t, pk));
            assert(patch::lookup(after, row_place(t, pk)) == patch::lookup(
                trees,
                row_place(t, pk),
            ));
        }
        assert forall|index: Seq<char>, k: KeyModel| #[trigger]
            entry_homed(known, after, index, k) by {
            assert(entry_homed(d, trees, index, k));
            assert(patch::lookup(after, entry_place(index, k)) == patch::lookup(
                trees,
                entry_place(index, k),
            ));
        }
        assert forall|i: int| 0 <= i < known.indexes.len() implies known.tables.contains_key(
            (#[trigger] known.indexes[i]).table_name,
        ) by {
            assert(d.tables.contains_key(d.indexes[i].table_name));
        }
    }
}

/// The place of a row.
pub open spec fn row_place(table: Seq<char>, pk: KeyModel) -> (Seq<char>, KeyModel) {
    (persistence::rows_of(table), pk)
}

/// The place of an entry.
pub open spec fn entry_place(index: Seq<char>, k: KeyModel) -> (Seq<char>, KeyModel) {
    (persistence::entries_of(index), k)
}

/// A new table is in order: there are no rows of it, and no indexes.
proof fn lemma_new_table(
    d: CatalogModel,
    known: CatalogModel,
    after: Trees,
    trees: Trees,
    table: TableModel,
)
    requires
        is_whole(d, trees),
        !d.tables.contains_key(table.name),
        known.tables == d.tables.insert(table.name, table),
        known.indexes == d.indexes,
        after.dom().finite(),
        forall|t: Seq<char>, k: KeyModel|
            patch::lookup(after, #[trigger] row_place(t, k)) == patch::lookup(
                trees,
                row_place(t, k),
            ),
    ensures
        table_kept(known, after, table.name),
{
    let indexes = catalog::indexes_of(known.indexes, table.name);
    catalog_laws::lemma_kept_members(d.indexes, catalog::belongs_to(table.name));
    if indexes.len() > 0 {
        assert(indexes.contains(indexes[0]));
        let i = choose|i: int| 0 <= i < d.indexes.len() && d.indexes[i] == indexes[0];
        assert(d.tables.contains_key(d.indexes[i].table_name));
    }
    assert forall|pk: KeyModel| #[trigger]
        consistency::row_fits(after, table.name, table, pk) by {
        assert(row_homed(d, trees, table.name, pk));
        assert(patch::lookup(after, row_place(table.name, pk)) == patch::lookup(
            trees,
            row_place(table.name, pk),
        ));
    }
}

/// A table whose rows and entries are the same is in order alike.
proof fn lemma_alike(
    d: CatalogModel,
    known: CatalogModel,
    after: Trees,
    trees: Trees,
    table: Seq<char>,
)
    requires
        table_kept(d, trees, table),
        after.dom().finite(),
        consistency::distinct_names(known.indexes),
        known.tables[table] == d.tables[table],
        forall|x: IndexModel| #[trigger]
            known.indexes.contains(x) && x.table_name == table ==> d.indexes.contains(x),
        forall|k: KeyModel|
            patch::lookup(after, #[trigger] row_place(table, k)) == patch::lookup(
                trees,
                row_place(table, k),
            ),
        forall|x: IndexModel, k: KeyModel| #[trigger]
            known.indexes.contains(x) && x.table_name == table ==> patch::lookup(
                after,
                #[trigger] entry_place(x.name, k),
            ) == patch::lookup(trees, entry_place(x.name, k)),
    ensures
        table_kept(known, after, table),
{
    assert forall|pk: KeyModel| #[trigger] store::row_at(after, table, pk) == store::row_at(
        trees,
        table,
        pk,
    ) by {
        assert(patch::lookup(after, row_place(table, pk)) == patch::lookup(
            trees,
            row_place(table, pk),
        ));
    }
    assert forall|x: IndexModel, k: KeyModel| #[trigger]
        known.indexes.contains(x) && x.table_name == table implies #[trigger] after.contains_key(
        (persistence::entries_of(x.name), k),
    ) == trees.contains_key((persistence::entries_of(x.name), k)) by {
        assert(patch::lookup(after, entry_place(x.name, k)) == patch::lookup(
            trees,
            entry_place(x.name, k),
        ));
    }
    lemma_table_kept_alike(d, known, after, trees, table);
}

/// Law: registering an index of a table without rows leaves a whole database
/// whole, whatever comes of it.
pub proof fn law_register_index_keeps_whole(c: CatalogModel, trees: Trees, index: IndexModel)
    requires
        is_whole(c, trees),
        <IndexSchema as Encoded>::fits(index),
        forall|pk: KeyModel| #[trigger] store::row_at(trees, index.table_name, pk) is None,
    ensures
        ({
            let (_, known, after) = catalog::index_registered(trees, c, index);
            is_whole(known, after)
        }),
{
    let (result, known, after) = catalog::index_registered(trees, c, index);
    law_reload_keeps_whole(c, trees);
    let d = catalog::loaded_catalog(trees)->Ok_0;
    if result is Ok {
        catalog_laws::law_registered_index_is_loaded(trees, c, index);
        let place = (persistence::index_schemas(), persistence::schema_key(index.name));
        assert(after == trees.insert(place, persistence::schema_row::<IndexSchema>(index)));
        catalog_laws::lemma_kept_members(d.indexes, catalog::called_otherwise(index.name));
        let left = catalog::without_index(d.indexes, index.name);
        assert(known.indexes == left.push(index));
        assert forall|x: IndexModel| #[trigger] known.indexes.contains(x) <==> (x == index
            || d.indexes.contains(x)) by {
            if known.indexes.contains(x) && x != index {
                let i = choose|i: int| 0 <= i < known.indexes.len() && known.indexes[i] == x;
                assert(left[i] == x);
                assert(left.contains(x));
            }
            if d.indexes.contains(x) {
                lemma_has_index(d.indexes, x);
                assert(left.contains(x));
                let i = choose|i: int| 0 <= i < left.len() && left[i] == x;
                assert(known.indexes[i] == x);
            }
            assert(known.indexes[left.len() as int] == index);
        }
        assert forall|t: Seq<char>, k: KeyModel|
            patch::lookup(after, #[trigger] row_place(t, k)) == patch::lookup(
                trees,
                row_place(t, k),
            ) by {
            persistence::law_trees_apart(t, t);
        }
        assert forall|t: Seq<char>, k: KeyModel|
            patch::lookup(after, #[trigger] entry_place(t, k)) == patch::lookup(
                trees,
                entry_place(t, k),
            ) by {
            persistence::law_trees_apart(t, t);
        }
        assert forall|t: Seq<char>| #[trigger] known.tables.contains_key(t) implies table_kept(
            known,
            after,
            t,
        ) by {
            assert(table_kept(d, trees, t));
            if t == index.table_name {
                lemma_new_index(d, known, after, trees, index);
            } else {
                lemma_alike(d, known, after, trees, t);
            }
        }
        assert forall|t: Seq<char>, pk: KeyModel| #[trigger] row_homed(known, after, t, pk) by {
            assert(row_homed(d, trees, t, pk));
            assert(patch::lookup(after, row_place(t, pk)) == patch::lookup(
                trees,
                row_place(t, pk),
            ));
        }
        assert forall|name: Seq<char>, k: KeyModel| #[trigger]
            entry_homed(known, after, name, k) by {
            assert(entry_homed(d, trees, name, k));
            assert(patch::lookup(after, entry_place(name, k)) == patch::lookup(
                trees,
                entry_place(name, k),
            ));
            if catalog::has_index(d.indexes, name) {
                let i = choose|i: int|
                    0 <= i < d.indexes.len() && (#[trigger] d.indexes[i]).name == name;
                assert(d.indexes.contains(d.indexes[i]));
                lemma_has_index(known.indexes, d.indexes[i]);
            }
        }
        assert forall|i: int| 0 <= i < known.indexes.len() implies known.tables.contains_key(
            (#[trigger] known.indexes[i]).table_name,
        ) by {
            let x = known.indexes[i];
            assert(known.indexes.contains(x));
            if x != index {
                assert(d.indexes.contains(x));
                let j = choose|j: int| 0 <= j < d.indexes.len() && d.indexes[j] == x;
                assert(d.tables.contains_key(d.indexes[j].table_name));
            }
        }
    }
}

/// A table without rows is in order with a new index.
proof fn lemma_new_index(
    d: CatalogModel,
    known: CatalogModel,
    after: Trees,
    trees: Trees,
    index: IndexModel,
)
    requires
        is_whole(d, trees),
        !catalog::has_index(d.indexes, index.name),
        d.tables.contains_key(index.table_name),
        known.tables == d.tables,
        consistency::distinct_names(known.indexes),
        forall|x: IndexModel| #[trigger]
            known.indexes.contains(x) <==> (x == index || d.indexes.contains(x)),
        after.dom().finite(),
        forall|pk: KeyModel| #[trigger] store::row_at(trees, index.table_name, pk) is None,
        forall|t: Seq<char>, k: KeyModel|
            patch::lookup(after, #[trigger] row_place(t, k)) == patch::lookup(
                trees,
                row_place(t, k),
            ),
        forall|t: Seq<char>, k: KeyModel|
            patch::lookup(after, #[trigger] entry_place(t, k)) == patch::lookup(
                trees,
                entry_place(t, k),
            ),
    ensures
        table_kept(known, after, index.table_name),
{
    let table = index.table_name;
    let schema = d.tables[table];
    let p = catalog::belongs_to(table);
    let indexes = catalog::indexes_of(known.indexes, table);
    let olds = catalog::indexes_of(d.indexes, table);
    catalog_laws::lemma_kept_members(known.indexes, p);
    catalog_laws::lemma_kept_members(d.indexes, p);
    assert forall|pk: KeyModel| #[trigger] store::row_at(after, table, pk) is None by {
        assert(store::row_at(trees, table, pk) is None);
        assert(patch::lookup(after, row_place(table, pk)) == patch::lookup(
            trees,
            row_place(table, pk),
        ));
    }
    assert forall|pk: KeyModel| #[trigger] consistency::row_fits(after, table, schema, pk) by {
        assert(store::row_at(after, table, pk) is None);
    }
    assert forall|i: int| 0 <= i < indexes.len() implies consistency::in_step(
        after,
        table,
        #[trigger] indexes[i],
    ) && (indexes[i].unique ==> consistency::keys_unique(after, table, indexes[i])) by {
        let x = indexes[i];
        assert(indexes.contains(x));
        assert forall|pk: KeyModel| #[trigger] consistency::row_entered(after, table, x, pk) by {
            assert(store::row_at(after, table, pk) is None);
        }
        assert forall|k: KeyModel| #[trigger] consistency::entry_backed(after, table, x, k) by {
            assert(patch::lookup(after, entry_place(x.name, k)) == patch::lookup(
                trees,
                entry_place(x.name, k),
            ));
            if x == index {
                assert(entry_homed(d, trees, x.name, k));
            } else {
                assert(olds.contains(x));
                let j = choose|j: int| 0 <= j < olds.len() && olds[j] == x;
                assert(table_kept(d, trees, table));
                assert(consistency::in_step(trees, table, olds[j]));
                assert(consistency::entry_backed(trees, table, x, k));
                let (_, pk) = crate::schema::split_entry(x, k);
                assert(store::row_at(trees, table, pk) is None);
            }
        }
        assert(consistency::keys_unique(after, table, x)) by {
            assert forall|a: KeyModel, b: KeyModel|
                #![trigger store::row_at(after, table, a), store::row_at(after, table, b)]
                store::row_at(after, table, a) is Some implies a == b by {}
        }
    }
}

/// Law: dropping a table leaves a whole database whole, whatever comes of it.
pub proof fn law_drop_table_keeps_whole(c: CatalogModel, trees: Trees, table: Seq<char>)
    requires
        is_whole(c, trees),
    ensures
        ({
            let (_, known, after) = catalog::table_dropped(trees, c, table);
            is_whole(known, after)
        }),
{
    let (result, known, after) = catalog::table_dropped(trees, c, table);
    law_reload_keeps_whole(c, trees);
    let d = catalog::loaded_catalog(trees)->Ok_0;
    if result is Ok {
        let gone = catalog::indexes_of(d.indexes, table);
        catalog_laws::law_dropped_table_is_not_loaded(trees, c, table);
        catalog_laws::law_table_cleared(trees, table, gone);
        catalog_laws::lemma_kept_members(d.indexes, catalog::belongs_to(table));
        catalog_laws::lemma_kept_members(d.indexes, catalog::belongs_elsewhere(table));
        assert forall|t: Seq<char>, k: KeyModel|
            patch::lookup(after, #[trigger] row_place(t, k)) == if t == table {
                None
            } else {
                patch::lookup(trees, row_place(t, k))
            } by {
            let q = row_place(t, k);
            persistence::law_trees_apart(t, table);
            assert forall|i: int| 0 <= i < gone.len() implies !catalog_laws::is_of_index(
                q,
                #[trigger] gone[i],
            ) by {
                persistence::law_trees_apart(t, gone[i].name);
            }
            assert(catalog_laws::is_of_table(q, table, gone) <==> t == table);
        }
        assert forall|name: Seq<char>, k: KeyModel|
            patch::lookup(after, #[trigger] entry_place(name, k)) == if catalog::has_index(
                gone,
                name,
            ) {
                None
            } else {
                patch::lookup(trees, entry_place(name, k))
            } by {
            let q = entry_place(name, k);
            persistence::law_trees_apart(table, name);
            persistence::law_trees_apart(name, name);
            if catalog::has_index(gone, name) {
                let i = choose|i: int| 0 <= i < gone.len() && (#[trigger] gone[i]).name == name;
                assert(catalog_laws::is_of_index(q, gone[i]));
            } else {
                assert forall|i: int| 0 <= i < gone.len() implies !catalog_laws::is_of_index(
                    q,
                    #[trigger] gone[i],
                ) by {
                    persistence::law_trees_apart(name, gone[i].name);
                }
            }
            assert(catalog_laws::is_of_table(q, table, gone) <==> catalog::has_index(gone, name));
        }
        assert forall|x: IndexModel| #[trigger] known.indexes.contains(x) implies
            !catalog::has_index(gone, x.name) by {
            lemma_other_name(d, table, x);
        }
        assert forall|t: Seq<char>| #[trigger] known.tables.contains_key(t) implies table_kept(
            known,
            after,
            t,
        ) by {
            assert(d.tables.contains_key(t));
            assert(table_kept(d, trees, t));
            lemma_alike(d, known, after, trees, t);
        }
        assert forall|t: Seq<char>, pk: KeyModel| #[trigger] row_homed(known, after, t, pk) by {
            assert(row_homed(d, trees, t, pk));
            assert(patch::lookup(after, row_place(t, pk)) == if t == table {
                None
            } else {
                patch::lookup(trees, row_place(t, pk))
            });
        }
        assert forall|name: Seq<char>, k: KeyModel| #[trigger]
            entry_homed(known, after, name, k) by {
            assert(entry_homed(d, trees, name, k));
            assert(patch::lookup(after, entry_place(name, k)) == if catalog::has_index(
                gone,
                name,
            ) {
                None
            } else {
                patch::lookup(trees, entry_place(name, k))
            });
            if catalog::has_index(d.indexes, name) && !catalog::has_index(gone, name) {
                let i = choose|i: int|
                    0 <= i < d.indexes.len() && (#[trigger] d.indexes[i]).name == name;
                let x = d.indexes[i];
                assert(d.indexes.contains(x));
                if x.table_name == table {
                    assert(gone.contains(x));
                    lemma_has_index(gone, x);
                }
                assert(known.indexes.contains(x));
                lemma_has_index(known.indexes, x);
            }
        }
        assert forall|i: int| 0 <= i < known.indexes.len() implies known.tables.contains_key(
            (#[trigger] known.indexes[i]).table_name,
        ) by {
            let x = known.indexes[i];
            assert(known.indexes.contains(x));
            let j = choose|j: int| 0 <= j < d.indexes.len() && d.indexes[j] == x;
            assert(d.tables.contains_key(d.indexes[j].table_name));
        }
    }
}

/// An index of another table has a name that no index of the table has.
proof fn lemma_other_name(d: CatalogModel, table: Seq<char>, x: IndexModel)
    requires
        consistency::distinct_names(d.indexes),
        d.indexes.contains(x),
        x.table_name != table,
    ensures
        !catalog::has_index(catalog::indexes_of(d.indexes, table), x.name),
{
    let gone = catalog::indexes_of(d.indexes, table);
    catalog_laws::lemma_kept_members(d.indexes, catalog::belongs_to(table));
    if catalog::has_index(gone, x.name) {
        let i = choose|i: int| 0 <= i < gone.len() && (#[trigger] gone[i]).name == x.name;
        assert(gone.contains(gone[i]));
        lemma_one_name(d.indexes, x, gone[i]);
    }
}

/// Two indexes of a catalog with one name are one.
proof fn lemma_one_name(indexes: Seq<IndexModel>, x: IndexModel, y: IndexModel)
    requires
        consistency::distinct_names(indexes),
        indexes.contains(x),
        indexes.contains(y),
        x.name == y.name,
    ensures
        x == y,
{
    let a = choose|a: int| 0 <= a < indexes.len() && indexes[a] == x;
    let b = choose|b: int| 0 <= b < indexes.len() && indexes[b] == y;
    if a < b {
        assert(indexes[a].name != indexes[b].name);
    } else if b < a {
        assert(indexes[b].name != indexes[a].name);
    }
}

/// Law: dropping an index leaves a whole database whole, whatever comes of it.
pub proof fn law_drop_index_keeps_whole(c: CatalogModel, trees: Trees, name: Seq<char>)
    requires
        is_whole(c, trees),
    ensures
        ({
            let (_, known, after) = catalog::index_dropped(trees, c, name);
            is_whole(known, after)
        }),
{
    let (result, known, after) = catalog::index_dropped(trees, c, name);
    law_reload_keeps_whole(c, trees);
    let d = catalog::loaded_catalog(trees)->Ok_0;
    if result is Ok {
        let index = catalog::index_named(d.indexes, name)->Some_0;
        catalog_laws::law_dropped_index_is_not_loaded(trees, c, name);
        catalog_laws::lemma_index_named(d.indexes, name);
        catalog_laws::law_index_cleared(trees, index);
        catalog_laws::lemma_kept_members(d.indexes, catalog::called_otherwise(name));
        assert forall|t: Seq<char>, k: KeyModel|
            patch::lookup(after, #[trigger] row_place(t, k)) == patch::lookup(
                trees,
                row_place(t, k),
            ) by {
            persistence::law_trees_apart(t, name);
            assert(!catalog_laws::is_of_index(row_place(t, k), index));
        }
        assert forall|n: Seq<char>, k: KeyModel|
            patch::lookup(after, #[trigger] entry_place(n, k)) == if n == name {
                None
            } else {
                patch::lookup(trees, entry_place(n, k))
            } by {
            persistence::law_trees_apart(n, name);
            assert(catalog_laws::is_of_index(entry_place(n, k), index) <==> n == name);
        }
        assert forall|t: Seq<char>| #[trigger] known.tables.contains_key(t) implies table_kept(
            known,
            after,
            t,
        ) by {
            assert(table_kept(d, trees, t));
            lemma_alike(d, known, after, trees, t);
        }
        assert forall|t: Seq<char>, pk: KeyModel| #[trigger] row_homed(known, after, t, pk) by {
            assert(row_homed(d, trees, t, pk));
            assert(patch::lookup(after, row_place(t, pk)) == patch::lookup(
                trees,
                row_place(t, pk),
            ));
        }
        assert forall|n: Seq<char>, k: KeyModel| #[trigger] entry_homed(known, after, n, k) by {
            assert(entry_homed(d, trees, n, k));
            assert(patch::lookup(after, entry_place(n, k)) == if n == name {
                None
            } else {
                patch::lookup(trees, entry_place(n, k))
            });
            if catalog::has_index(d.indexes, n) && n != name {
                let i = choose|i: int|
                    0 <= i < d.indexes.len() && (#[trigger] d.indexes[i]).name == n;
                assert(d.indexes.contains(d.indexes[i]));
                lemma_has_index(known.indexes, d.indexes[i]);
            }
        }
        assert forall|i: int| 0 <= i < known.indexes.len() implies known.tables.contains_key(
            (#[trigger] known.indexes[i]).table_name,
        ) by {
            let x = known.indexes[i];
            assert(known.indexes.contains(x));
            let j = choose|j: int| 0 <= j < d.indexes.len() && d.indexes[j] == x;
            assert(d.tables.contains_key(d.indexes[j].table_name));
        }
    }
}

/// Indexes whose entries can be read can be taken out, one after the other.
proof fn lemma_all_clearable(trees: Trees, indexes: Seq<IndexModel>)
    requires
        trees.dom().finite(),
        consistency::distinct_names(indexes),
        forall|i: int|
            0 <= i < indexes.len() ==> store::entries_fit(
                store::index_entries(trees, #[trigger] indexes[i]),
            ),
    ensures
        catalog::all_clearable(trees, indexes),
    decreases indexes.len(),
{
    if indexes.len() > 0 {
        let first = indexes[0];
        let rest = indexes.drop_first();
        let next = catalog::index_cleared(trees, first);
        catalog_laws::law_index_cleared(trees, first);
        assert forall|i: int, j: int| 0 <= i < j < rest.len() implies (#[trigger] rest[i]).name != (
        #[trigger] rest[j]).name by {
            assert(rest[i] == indexes[i + 1] && rest[j] == indexes[j + 1]);
        }
        assert forall|i: int| 0 <= i < rest.len() implies store::entries_fit(
            store::index_entries(next, #[trigger] rest[i]),
        ) by {
            let index = rest[i];
            assert(index == indexes[i + 1]);
            assert(first.name != index.name);
            persistence::law_trees_apart(first.name, index.name);
            persistence::law_trees_apart(index.name, first.name);
            persistence::law_trees_apart(index.name, index.name);
            lemma_same_entries(next, trees, index);
        }
        lemma_all_clearable(next, rest);
    }
}

/// The entries of an index are those that are stored under it.
proof fn lemma_same_entries(after: Trees, trees: Trees, index: IndexModel)
    requires
        forall|k: KeyModel|
            patch::lookup(after, #[trigger] entry_place(index.name, k)) == patch::lookup(
                trees,
                entry_place(index.name, k),
            ),
    ensures
        store::index_entries(after, index) == store::index_entries(trees, index),
{
    let tree = persistence::entries_of(index.name);
    let a = in_memory::tree_map(after, tree);
    let b = in_memory::tree_map(trees, tree);
    assert forall|k: KeyModel| #[trigger] a.contains_key(k) <==> b.contains_key(k) by {
        assert(patch::lookup(after, entry_place(index.name, k)) == patch::lookup(
            trees,
            entry_place(index.name, k),
        ));
    }
    assert forall|k: KeyModel| a.contains_key(k) implies #[trigger] a[k] == b[k] by {
        assert(patch::lookup(after, entry_place(index.name, k)) == patch::lookup(
            trees,
            entry_place(index.name, k),
        ));
    }
    assert(a =~= b);
}

/// Law: a table of a whole database can be dropped.
pub proof fn law_table_can_be_dropped(c: CatalogModel, trees: Trees, table: Seq<char>)
    requires
        is_whole(c, trees),
        c.tables.contains_key(table),
    ensures
        catalog::table_dropped(trees, c, table).0 is Ok,
{
    law_reload_keeps_whole(c, trees);
    let d = catalog::loaded_catalog(trees)->Ok_0;
    let indexes = catalog::indexes_of(d.indexes, table);
    let rows = store::table_rows(trees, table);
    let next = store_helpers::rows_removed(trees, table, rows);
    consistency::lemma_keys_fit(trees, table, d.tables[table]);
    catalog_laws::lemma_rows_removed(trees, table, rows);
    catalog_laws::lemma_kept_members(d.indexes, catalog::belongs_to(table));
    assert forall|i: int| 0 <= i < indexes.len() implies store::entries_fit(
        store::index_entries(next, #[trigger] indexes[i]),
    ) by {
        let index = indexes[i];
        consistency::lemma_entries_fit(trees, table, d.tables[table], index);
        persistence::law_trees_apart(table, index.name);
        lemma_same_entries(next, trees, index);
    }
    lemma_all_clearable(next, indexes);
}

/// Law: an index of a whole database can be dropped.
pub proof fn law_index_can_be_dropped(c: CatalogModel, trees: Trees, name: Seq<char>)
    requires
        is_whole(c, trees),
        catalog::has_index(c.indexes, name),
    ensures
        catalog::index_dropped(trees, c, name).0 is Ok,
{
    law_reload_keeps_whole(c, trees);
    let d = catalog::loaded_catalog(trees)->Ok_0;
    let at = choose|at: int| 0 <= at < c.indexes.len() && (#[trigger] c.indexes[at]).name == name;
    assert(c.indexes.contains(c.indexes[at]));
    assert(d.indexes.contains(c.indexes[at]));
    lemma_has_index(d.indexes, c.indexes[at]);
    catalog_laws::lemma_index_named(d.indexes, name);
    let index = catalog::index_named(d.indexes, name)->Some_0;
    let table = index.table_name;
    let p = catalog::belongs_to(table);
    let i = choose|i: int| 0 <= i < d.indexes.len() && d.indexes[i] == index;
    let k = store_helpers::lemma_kept_contains(d.indexes, p, i);
    assert(catalog::indexes_of(d.indexes, table)[k] == index);
    assert(consistency::in_step(trees, table, index));
    consistency::lemma_entries_fit(trees, table, d.tables[table], index);
}

} // verus!
