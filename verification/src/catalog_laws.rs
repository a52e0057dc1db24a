//! What is stored of the schema: tables and indexes that are registered are
//! there when the store is opened again.
use vstd::prelude::*;
use crate::catalog::{self, CatalogModel};
use crate::codec::Encoded;
use crate::consistency;
use crate::error::ErrorModel;
use crate::in_memory;
use crate::patch;
use crate::persistence;
use crate::plain;
use crate::schema::{IndexModel, IndexSchema, TableModel, TableSchema};
use crate::store::{self, KeyModel, RowModel, Trees};
use crate::store_helpers;
use crate::value::ValueModel;

verus! {

/// What is kept under a key of the tree of tables is a table of that name.
pub open spec fn table_filed(trees: Trees, k: KeyModel) -> bool {
    let place = (persistence::table_schemas(), k);
    trees.contains_key(place) ==> (persistence::kept_schema::<TableSchema>(
        trees[place],
        persistence::no_table(),
    ) matches Ok(table) && k == persistence::schema_key(table.name))
}

/// What is kept under a key of the tree of indexes is an index of that name.
pub open spec fn index_filed(trees: Trees, k: KeyModel) -> bool {
    let place = (persistence::index_schemas(), k);
    trees.contains_key(place) ==> (persistence::kept_schema::<IndexSchema>(
        trees[place],
        persistence::no_index(),
    ) matches Ok(index) && k == persistence::schema_key(index.name))
}

/// The schemas that trees keep can be read, and are filed under their names.
pub open spec fn schemas_filed(trees: Trees) -> bool {
    &&& trees.dom().finite()
    &&& forall|k: KeyModel| #[trigger] table_filed(trees, k)
    &&& forall|k: KeyModel| #[trigger] index_filed(trees, k)
}

proof fn lemma_all_collected<A, B, E>(list: Seq<A>, f: spec_fn(A) -> Result<B, E>)
    requires
        forall|i: int| 0 <= i < list.len() ==> f(#[trigger] list[i]) is Ok,
    ensures
        plain::collected(list, f) is Ok,
        plain::collected(list, f)->Ok_0.len() == list.len(),
        forall|i: int|
            0 <= i < list.len() ==> f(list[i]) == Ok::<B, E>(
                #[trigger] plain::collected(list, f)->Ok_0[i],
            ),
    decreases list.len(),
{
    if list.len() > 0 {
        let rest = list.drop_last();
        assert forall|i: int| 0 <= i < rest.len() implies f(#[trigger] rest[i]) is Ok by {
            assert(rest[i] == list[i]);
        }
        lemma_all_collected(rest, f);
        assert(f(list[list.len() - 1]) is Ok);
        assert forall|i: int| 0 <= i < list.len() implies f(list[i]) == Ok::<B, E>(
            #[trigger] plain::collected(list, f)->Ok_0[i],
        ) by {
            if i < rest.len() {
                assert(rest[i] == list[i]);
                assert(plain::collected(list, f)->Ok_0[i] == plain::collected(rest, f)->Ok_0[i]);
            }
        }
    }
}

proof fn lemma_tables_by_name(tables: Seq<TableModel>)
    requires
        forall|i: int, j: int|
            0 <= i < j < tables.len() ==> (#[trigger] tables[i]).name != (
            #[trigger] tables[j]).name,
    ensures
        forall|i: int|
            0 <= i < tables.len() ==> catalog::tables_by_name(tables).contains_key(
                (#[trigger] tables[i]).name,
            ) && catalog::tables_by_name(tables)[tables[i].name] == tables[i],
        forall|name: Seq<char>| #[trigger]
            catalog::tables_by_name(tables).contains_key(name) ==> exists|i: int|
                0 <= i < tables.len() && (#[trigger] tables[i]).name == name,
    decreases tables.len(),
{
    if tables.len() > 0 {
        let rest = tables.drop_last();
        let last = tables.last();
        assert forall|i: int, j: int| 0 <= i < j < rest.len() implies (#[trigger] rest[i]).name
            != (#[trigger] rest[j]).name by {
            assert(rest[i] == tables[i] && rest[j] == tables[j]);
        }
        lemma_tables_by_name(rest);
        assert forall|i: int| 0 <= i < tables.len() implies catalog::tables_by_name(
            tables,
        ).contains_key((#[trigger] tables[i]).name) && catalog::tables_by_name(
            tables,
        )[tables[i].name] == tables[i] by {
            if i < rest.len() {
                assert(rest[i] == tables[i]);
                assert(tables[i].name != tables[tables.len() - 1].name);
            }
        }
        assert forall|name: Seq<char>| #[trigger]
            catalog::tables_by_name(tables).contains_key(name) implies exists|i: int|
            0 <= i < tables.len() && (#[trigger] tables[i]).name == name by {
            if name == last.name {
                assert(tables[tables.len() - 1].name == name);
            } else {
                assert(catalog::tables_by_name(rest).contains_key(name));
                let i = choose|i: int| 0 <= i < rest.len() && (#[trigger] rest[i]).name == name;
                assert(tables[i] == rest[i]);
            }
        }
    }
}

/// Taking out a name that is not there leaves the indexes as they are.
pub proof fn lemma_without_absent(indexes: Seq<IndexModel>, name: Seq<char>)
    requires
        forall|i: int| 0 <= i < indexes.len() ==> (#[trigger] indexes[i]).name != name,
    ensures
        catalog::without_index(indexes, name) == indexes,
    decreases indexes.len(),
{
    if indexes.len() > 0 {
        let rest = indexes.drop_last();
        assert forall|i: int| 0 <= i < rest.len() implies (#[trigger] rest[i]).name != name by {
            assert(rest[i] == indexes[i]);
        }
        lemma_without_absent(rest, name);
        assert(indexes[indexes.len() - 1].name != name);
        assert(indexes =~= rest.push(indexes.last()));
    }
}

proof fn lemma_distinct_indexes(indexes: Seq<IndexModel>)
    requires
        consistency::distinct_names(indexes),
    ensures
        catalog::distinct_indexes(indexes) == indexes,
    decreases indexes.len(),
{
    if indexes.len() > 0 {
        let rest = indexes.drop_last();
        let last = indexes.last();
        assert forall|i: int, j: int| 0 <= i < j < rest.len() implies (#[trigger] rest[i]).name
            != (#[trigger] rest[j]).name by {
            assert(rest[i] == indexes[i] && rest[j] == indexes[j]);
        }
        lemma_distinct_indexes(rest);
        assert forall|i: int| 0 <= i < rest.len() implies (#[trigger] rest[i]).name
            != last.name by {
            assert(rest[i] == indexes[i]);
            assert(indexes[i].name != indexes[indexes.len() - 1].name);
        }
        lemma_without_absent(rest, last.name);
        assert(indexes =~= rest.push(last));
    }
}

/// A catalog is what trees keep: the tables and indexes that are filed in them.
pub open spec fn is_filed(c: CatalogModel, trees: Trees) -> bool {
    &&& forall|name: Seq<char>| #[trigger]
        c.tables.contains_key(name) <==> trees.contains_key(
            (persistence::table_schemas(), persistence::schema_key(name)),
        )
    &&& forall|name: Seq<char>| #[trigger]
        c.tables.contains_key(name) ==> persistence::kept_schema::<TableSchema>(
            trees[(persistence::table_schemas(), persistence::schema_key(name))],
            persistence::no_table(),
        ) == Ok::<TableModel, ErrorModel>(c.tables[name])
    &&& consistency::distinct_names(c.indexes)
    &&& forall|index: IndexModel| #[trigger]
        c.indexes.contains(index) <==> index_kept(trees, index)
}

/// Trees keep an index.
pub open spec fn index_kept(trees: Trees, index: IndexModel) -> bool {
    let place = (persistence::index_schemas(), persistence::schema_key(index.name));
    trees.contains_key(place) && persistence::kept_schema::<IndexSchema>(
        trees[place],
        persistence::no_index(),
    ) == Ok::<IndexModel, ErrorModel>(index)
}

proof fn lemma_schema_key(a: Seq<char>, b: Seq<char>)
    requires
        persistence::schema_key(a) == persistence::schema_key(b),
    ensures
        a == b,
{
    assert(persistence::schema_key(a)[0] == persistence::schema_key(b)[0]);
}

proof fn lemma_loaded_tables(trees: Trees)
    requires
        schemas_filed(trees),
    ensures
        ({
            let list = store::tree_listing(trees, persistence::table_schemas());
            let kept = persistence::kept_schemas::<TableSchema>(list, persistence::no_table());
            &&& kept is Ok
            &&& forall|name: Seq<char>| #[trigger]
                catalog::tables_by_name(kept->Ok_0).contains_key(name) <==> trees.contains_key(
                    (persistence::table_schemas(), persistence::schema_key(name)),
                )
            &&& forall|name: Seq<char>| #[trigger]
                catalog::tables_by_name(kept->Ok_0).contains_key(name)
                    ==> persistence::kept_schema::<TableSchema>(
                    trees[(persistence::table_schemas(), persistence::schema_key(name))],
                    persistence::no_table(),
                ) == Ok::<TableModel, ErrorModel>(catalog::tables_by_name(kept->Ok_0)[name])
        }),
{
    let tree = persistence::table_schemas();
    let refusal = persistence::no_table();
    let list = store::tree_listing(trees, tree);
    let f = |entry: (Seq<ValueModel>, Seq<ValueModel>)|
        persistence::kept_schema::<TableSchema>(entry.1, refusal);
    consistency::lemma_tree_listed(trees, tree);
    assert forall|i: int| 0 <= i < list.len() implies f(#[trigger] list[i]) is Ok by {
        assert(table_filed(trees, list[i].0));
    }
    lemma_all_collected(list, f);
    let tables = plain::collected(list, f)->Ok_0;
    assert forall|i: int| 0 <= i < list.len() implies (#[trigger] list[i]).0
        == persistence::schema_key(tables[i].name) && persistence::kept_schema::<TableSchema>(
        trees[(tree, list[i].0)],
        refusal,
    ) == Ok::<TableModel, ErrorModel>(tables[i]) by {
        assert(table_filed(trees, list[i].0));
        assert(f(list[i]) == Ok::<TableModel, ErrorModel>(tables[i]));
    }
    assert forall|i: int, j: int| 0 <= i < j < tables.len() implies (#[trigger] tables[i]).name
        != (#[trigger] tables[j]).name by {
        assert(list[i].0 == persistence::schema_key(tables[i].name));
        assert(list[j].0 == persistence::schema_key(tables[j].name));
        lemma_listed_apart(trees, tree, i, j);
    }
    lemma_tables_by_name(tables);
    let map = catalog::tables_by_name(tables);
    assert forall|name: Seq<char>| #[trigger] map.contains_key(name) <==> trees.contains_key(
        (tree, persistence::schema_key(name)),
    ) by {
        if map.contains_key(name) {
            let i = choose|i: int| 0 <= i < tables.len() && (#[trigger] tables[i]).name == name;
            assert(list[i].0 == persistence::schema_key(name));
        }
        if trees.contains_key((tree, persistence::schema_key(name))) {
            let i = choose|i: int|
                0 <= i < list.len() && (#[trigger] list[i]).0 == persistence::schema_key(name);
            lemma_schema_key(name, tables[i].name);
        }
    }
    assert forall|name: Seq<char>| #[trigger]
        map.contains_key(name) implies persistence::kept_schema::<TableSchema>(
        trees[(tree, persistence::schema_key(name))],
        refusal,
    ) == Ok::<TableModel, ErrorModel>(map[name]) by {
        let i = choose|i: int| 0 <= i < tables.len() && (#[trigger] tables[i]).name == name;
        assert(list[i].0 == persistence::schema_key(name));
    }
}

/// No key of a tree is listed twice.
proof fn lemma_listed_apart(trees: Trees, tree: Seq<char>, i: int, j: int)
    requires
        trees.dom().finite(),
        0 <= i < j < store::tree_listing(trees, tree).len(),
    ensures
        store::tree_listing(trees, tree)[i].0 != store::tree_listing(trees, tree)[j].0,
{
    let list = store::tree_listing(trees, tree);
    let less = crate::value::key_less();
    consistency::lemma_tree_listed(trees, tree);
    <crate::value::EngineKey as crate::ordered_map::OrderedKey>::before_total();
    assert(less(list[i].0, list[j].0));
    assert(!less(list[i].0, list[i].0));
}

proof fn lemma_loaded_indexes(trees: Trees)
    requires
        schemas_filed(trees),
    ensures
        ({
            let list = store::tree_listing(trees, persistence::index_schemas());
            let kept = persistence::kept_schemas::<IndexSchema>(list, persistence::no_index());
            &&& kept is Ok
            &&& consistency::distinct_names(kept->Ok_0)
            &&& catalog::distinct_indexes(kept->Ok_0) == kept->Ok_0
            &&& forall|index: IndexModel| #[trigger]
                kept->Ok_0.contains(index) <==> index_kept(trees, index)
        }),
{
    let tree = persistence::index_schemas();
    let refusal = persistence::no_index();
    let list = store::tree_listing(trees, tree);
    let f = |entry: (Seq<ValueModel>, Seq<ValueModel>)|
        persistence::kept_schema::<IndexSchema>(entry.1, refusal);
    consistency::lemma_tree_listed(trees, tree);
    assert forall|i: int| 0 <= i < list.len() implies f(#[trigger] list[i]) is Ok by {
        assert(index_filed(trees, list[i].0));
    }
    lemma_all_collected(list, f);
    let indexes = plain::collected(list, f)->Ok_0;
    assert forall|i: int| 0 <= i < list.len() implies (#[trigger] list[i]).0
        == persistence::schema_key(indexes[i].name) && persistence::kept_schema::<IndexSchema>(
        trees[(tree, list[i].0)],
        refusal,
    ) == Ok::<IndexModel, ErrorModel>(indexes[i]) by {
        assert(index_filed(trees, list[i].0));
        assert(f(list[i]) == Ok::<IndexModel, ErrorModel>(indexes[i]));
    }
    assert forall|i: int, j: int| 0 <= i < j < indexes.len() implies (#[trigger] indexes[i]).name
        != (#[trigger] indexes[j]).name by {
        assert(list[i].0 == persistence::schema_key(indexes[i].name));
        assert(list[j].0 == persistence::schema_key(indexes[j].name));
        lemma_listed_apart(trees, tree, i, j);
    }
    lemma_distinct_indexes(indexes);
    assert forall|index: IndexModel| #[trigger] indexes.contains(index) <==> index_kept(
        trees,
        index,
    ) by {
        if indexes.contains(index) {
            let i = choose|i: int| 0 <= i < indexes.len() && indexes[i] == index;
            assert(list[i].0 == persistence::schema_key(index.name));
        }
        if index_kept(trees, index) {
            let i = choose|i: int|
                0 <= i < list.len() && (#[trigger] list[i]).0 == persistence::schema_key(
                    index.name,
                );
            assert(indexes[i] == index);
        }
    }
}

/// Law: what is filed in trees is what is loaded from them.
pub proof fn law_loaded_is_filed(trees: Trees)
    requires
        schemas_filed(trees),
    ensures
        catalog::loaded_catalog(trees) matches Ok(c) && is_filed(c, trees),
{
    lemma_loaded_tables(trees);
    lemma_loaded_indexes(trees);
}

/// Catalogs that are filed in the same trees have the same tables and indexes.
pub proof fn lemma_same_catalog(a: CatalogModel, b: CatalogModel, trees: Trees)
    requires
        is_filed(a, trees),
        is_filed(b, trees),
    ensures
        a.tables == b.tables,
        forall|index: IndexModel| #[trigger] a.indexes.contains(index) <==> b.indexes.contains(
            index,
        ),
{
    assert forall|name: Seq<char>| #[trigger] a.tables.contains_key(name) implies a.tables[name]
        == b.tables[name] by {
        assert(b.tables.contains_key(name));
    }
    assert(a.tables =~= b.tables);
    assert forall|index: IndexModel| #[trigger] a.indexes.contains(index) <==> b.indexes.contains(
        index,
    ) by {
        assert(a.indexes.contains(index) <==> index_kept(trees, index));
    }
}

/// Law: a table that is registered is there when the store is opened again, with
/// all that was there before.
pub proof fn law_registered_table_is_loaded(trees: Trees, before: CatalogModel, table: TableModel)
    requires
        schemas_filed(trees),
        <TableSchema as Encoded>::fits(table),
        catalog::table_registered(trees, before, table).0 is Ok,
    ensures
        ({
            let (_, known, after) = catalog::table_registered(trees, before, table);
            &&& schemas_filed(after)
            &&& catalog::loaded_catalog(after) == Ok::<CatalogModel, ErrorModel>(known)
        }),
{
    let (_, known, after) = catalog::table_registered(trees, before, table);
    let tree = persistence::table_schemas();
    let place = (tree, persistence::schema_key(table.name));
    let row = persistence::schema_row::<TableSchema>(table);
    persistence::law_schema_kept::<TableSchema>(table, persistence::no_table());
    persistence::law_trees_apart(table.name, table.name);
    law_loaded_is_filed(trees);
    let c = catalog::loaded_catalog(trees)->Ok_0;
    assert(!trees.contains_key(place)) by {
        assert(!c.tables.contains_key(table.name));
    }
    assert(after == trees.insert(place, row));
    assert forall|k: KeyModel| #[trigger] table_filed(after, k) by {
        assert(table_filed(trees, k));
    }
    assert forall|k: KeyModel| #[trigger] index_filed(after, k) by {
        assert(index_filed(trees, k));
    }
    assert(after.dom() =~= trees.dom().insert(place));
    law_loaded_is_filed(after);
    let loaded = catalog::loaded_catalog(after)->Ok_0;
    assert forall|name: Seq<char>| #[trigger]
        loaded.tables.contains_key(name) <==> known.tables.contains_key(name) by {
        if persistence::schema_key(name) == persistence::schema_key(table.name) {
            lemma_schema_key(name, table.name);
        }
        assert(c.tables.contains_key(name) <==> trees.contains_key(
            (tree, persistence::schema_key(name)),
        ));
    }
    assert forall|name: Seq<char>| #[trigger] loaded.tables.contains_key(name) implies
        loaded.tables[name] == known.tables[name] by {
        if name != table.name {
            if persistence::schema_key(name) == persistence::schema_key(table.name) {
                lemma_schema_key(name, table.name);
            }
            assert(c.tables.contains_key(name));
        }
    }
    assert(loaded.tables =~= known.tables);
    assert(in_memory::tree_map(after, persistence::index_schemas()) =~= in_memory::tree_map(
        trees,
        persistence::index_schemas(),
    ));
    assert(loaded.indexes == known.indexes);
}

/// Law: an index that is registered is there when the store is opened again,
/// with all that was there before.
pub proof fn law_registered_index_is_loaded(trees: Trees, before: CatalogModel, index: IndexModel)
    requires
        schemas_filed(trees),
        <IndexSchema as Encoded>::fits(index),
        catalog::index_registered(trees, before, index).0 is Ok,
    ensures
        ({
            let (_, known, after) = catalog::index_registered(trees, before, index);
            &&& schemas_filed(after)
            &&& is_filed(known, after)
            &&& catalog::loaded_catalog(after) matches Ok(c) && c.tables == known.tables && forall|
                i: IndexModel,
            | #[trigger] c.indexes.contains(i) <==> known.indexes.contains(i)
        }),
{
    let (_, known, after) = catalog::index_registered(trees, before, index);
    let tree = persistence::index_schemas();
    let place = (tree, persistence::schema_key(index.name));
    let row = persistence::schema_row::<IndexSchema>(index);
    persistence::law_schema_kept::<IndexSchema>(index, persistence::no_index());
    persistence::law_trees_apart(index.name, index.name);
    law_loaded_is_filed(trees);
    let c = catalog::loaded_catalog(trees)->Ok_0;
    assert(after == trees.insert(place, row));
    assert forall|k: KeyModel| #[trigger] table_filed(after, k) by {
        assert(table_filed(trees, k));
    }
    assert forall|k: KeyModel| #[trigger] index_filed(after, k) by {
        assert(index_filed(trees, k));
    }
    assert(after.dom() =~= trees.dom().insert(place));
    lemma_without_absent(c.indexes, index.name);
    assert(known.indexes == c.indexes.push(index));
    assert(known.tables == c.tables);
    assert forall|i: int, j: int| 0 <= i < j < known.indexes.len() implies (
    #[trigger] known.indexes[i]).name != (#[trigger] known.indexes[j]).name by {
        if j < c.indexes.len() {
            assert(c.indexes[i].name != c.indexes[j].name);
        } else {
            assert(known.indexes[i] == c.indexes[i]);
        }
    }
    assert forall|name: Seq<char>| #[trigger]
        known.tables.contains_key(name) <==> after.contains_key(
        (persistence::table_schemas(), persistence::schema_key(name)),
    ) by {
        assert(c.tables.contains_key(name) <==> trees.contains_key(
            (persistence::table_schemas(), persistence::schema_key(name)),
        ));
    }
    assert forall|i: IndexModel| #[trigger] known.indexes.contains(i) <==> index_kept(
        after,
        i,
    ) by {
        assert(c.indexes.contains(i) <==> index_kept(trees, i));
        if known.indexes.contains(i) {
            let at = choose|at: int| 0 <= at < known.indexes.len() && known.indexes[at] == i;
            if at < c.indexes.len() {
                assert(c.indexes[at] == i);
                if persistence::schema_key(i.name) == persistence::schema_key(index.name) {
                    lemma_schema_key(i.name, index.name);
                }
            }
        }
        if index_kept(after, i) {
            if persistence::schema_key(i.name) == persistence::schema_key(index.name) {
                assert(i == index);
                assert(known.indexes[c.indexes.len() as int] == i);
            } else {
                assert(c.indexes.contains(i));
                let at = choose|at: int| 0 <= at < c.indexes.len() && c.indexes[at] == i;
                assert(known.indexes[at] == i);
            }
        }
    }
    law_loaded_is_filed(after);
    lemma_same_catalog(catalog::loaded_catalog(after)->Ok_0, known, after);
}

/// Taking rows out leaves everything else.
pub proof fn lemma_rows_removed(trees: Trees, table: Seq<char>, rows: Seq<(KeyModel, RowModel)>)
    requires
        trees.dom().finite(),
    ensures
        ({
            let after = store_helpers::rows_removed(trees, table, rows);
            &&& after.dom().finite()
            &&& forall|q: (Seq<char>, KeyModel)| #[trigger]
                patch::lookup(after, q) == if q.0 == persistence::rows_of(table) && exists|i: int|
                    0 <= i < rows.len() && (#[trigger] rows[i]).0 == q.1 {
                    None
                } else {
                    patch::lookup(trees, q)
                }
        }),
    decreases rows.len(),
{
    if rows.len() > 0 {
        let next = store::without_row(trees, table, rows[0].0);
        let rest = rows.drop_first();
        let after = store_helpers::rows_removed(trees, table, rows);
        assert(next.dom() =~= trees.dom().remove((persistence::rows_of(table), rows[0].0)));
        lemma_rows_removed(next, table, rest);
        assert forall|q: (Seq<char>, KeyModel)| #[trigger]
            patch::lookup(after, q) == if q.0 == persistence::rows_of(table) && exists|i: int|
                0 <= i < rows.len() && (#[trigger] rows[i]).0 == q.1 {
                None
            } else {
                patch::lookup(trees, q)
            } by {
            if q.0 == persistence::rows_of(table) {
                if exists|i: int| 0 <= i < rest.len() && (#[trigger] rest[i]).0 == q.1 {
                    let i = choose|i: int| 0 <= i < rest.len() && (#[trigger] rest[i]).0 == q.1;
                    assert(rows[i + 1] == rest[i]);
                } else if exists|i: int| 0 <= i < rows.len() && (#[trigger] rows[i]).0 == q.1 {
                    let i = choose|i: int| 0 <= i < rows.len() && (#[trigger] rows[i]).0 == q.1;
                    if i > 0 {
                        assert(rest[i - 1] == rows[i]);
                    }
                    assert(q == (persistence::rows_of(table), rows[0].0));
                } else if q.1 == rows[0].0 {
                    assert(rows[0].0 == q.1);
                }
            }
        }
    }
}

/// Taking entries out leaves everything else.
proof fn lemma_entries_dropped(trees: Trees, index: IndexModel, entries: Seq<(KeyModel, KeyModel)>)
    requires
        trees.dom().finite(),
    ensures
        ({
            let after = store_helpers::entries_dropped(trees, index, entries);
            &&& after.dom().finite()
            &&& forall|q: (Seq<char>, KeyModel)| #[trigger]
                patch::lookup(after, q) == if q.0 == persistence::entries_of(index.name) && exists|
                    i: int,
                |
                    0 <= i < entries.len() && (#[trigger] entries[i]).0 + entries[i].1 == q.1 {
                    None
                } else {
                    patch::lookup(trees, q)
                }
        }),
    decreases entries.len(),
{
    if entries.len() > 0 {
        let next = store::without_entry(trees, index, entries[0].0, entries[0].1);
        let rest = entries.drop_first();
        let after = store_helpers::entries_dropped(trees, index, entries);
        assert(next.dom() =~= trees.dom().remove(
            store::entry_place(index, entries[0].0, entries[0].1),
        ));
        lemma_entries_dropped(next, index, rest);
        assert forall|q: (Seq<char>, KeyModel)| #[trigger]
            patch::lookup(after, q) == if q.0 == persistence::entries_of(index.name) && exists|
                i: int,
            |
                0 <= i < entries.len() && (#[trigger] entries[i]).0 + entries[i].1 == q.1 {
                None
            } else {
                patch::lookup(trees, q)
            } by {
            if q.0 == persistence::entries_of(index.name) {
                if exists|i: int|
                    0 <= i < rest.len() && (#[trigger] rest[i]).0 + rest[i].1 == q.1 {
                    let i = choose|i: int|
                        0 <= i < rest.len() && (#[trigger] rest[i]).0 + rest[i].1 == q.1;
                    assert(entries[i + 1] == rest[i]);
                } else if exists|i: int|
                    0 <= i < entries.len() && (#[trigger] entries[i]).0 + entries[i].1 == q.1 {
                    let i = choose|i: int|
                        0 <= i < entries.len() && (#[trigger] entries[i]).0 + entries[i].1 == q.1;
                    if i > 0 {
                        assert(rest[i - 1] == entries[i]);
                    }
                    assert(q == store::entry_place(index, entries[0].0, entries[0].1));
                } else if q.1 == entries[0].0 + entries[0].1 {
                    assert(entries[0].0 + entries[0].1 == q.1);
                }
            }
        }
    }
}

/// A place that an index takes up: its schema or one of its entries.
pub open spec fn is_of_index(q: (Seq<char>, KeyModel), index: IndexModel) -> bool {
    q.0 == persistence::entries_of(index.name) || q == (
        persistence::index_schemas(),
        persistence::schema_key(index.name),
    )
}

/// Law: clearing an index takes out its schema and all its entries, and nothing
/// else.
pub proof fn law_index_cleared(trees: Trees, index: IndexModel)
    requires
        trees.dom().finite(),
    ensures
        catalog::index_cleared(trees, index).dom().finite(),
        forall|q: (Seq<char>, KeyModel)| #[trigger]
            patch::lookup(catalog::index_cleared(trees, index), q) == if is_of_index(q, index) {
                None
            } else {
                patch::lookup(trees, q)
            },
{
    let tree = persistence::entries_of(index.name);
    let entries = store::index_entries(trees, index);
    let list = store::tree_listing(trees, tree);
    let mid = store_helpers::entries_dropped(trees, index, entries);
    let after = catalog::index_cleared(trees, index);
    let place = (persistence::index_schemas(), persistence::schema_key(index.name));
    lemma_entries_dropped(trees, index, entries);
    consistency::lemma_tree_listed(trees, tree);
    persistence::law_trees_apart(index.name, index.name);
    assert(after.dom() =~= mid.dom().remove(place));
    assert forall|q: (Seq<char>, KeyModel)| #[trigger]
        patch::lookup(after, q) == if is_of_index(q, index) {
            None
        } else {
            patch::lookup(trees, q)
        } by {
        assert(patch::lookup(after, q) == if q == place {
            None
        } else {
            patch::lookup(mid, q)
        });
        if q.0 == tree && trees.contains_key(q) {
            assert(trees.contains_key((tree, q.1)));
            let i = choose|i: int| 0 <= i < list.len() && (#[trigger] list[i]).0 == q.1;
            assert(entries[i].0 + entries[i].1 =~= q.1);
        }
    }
}

/// A place that one of some indexes takes up.
pub open spec fn is_of_indexes(q: (Seq<char>, KeyModel), indexes: Seq<IndexModel>) -> bool {
    exists|i: int| 0 <= i < indexes.len() && is_of_index(q, #[trigger] indexes[i])
}

proof fn lemma_indexes_cleared(trees: Trees, indexes: Seq<IndexModel>)
    requires
        trees.dom().finite(),
    ensures
        catalog::indexes_cleared(trees, indexes).dom().finite(),
        forall|q: (Seq<char>, KeyModel)| #[trigger]
            patch::lookup(catalog::indexes_cleared(trees, indexes), q) == if is_of_indexes(
                q,
                indexes,
            ) {
                None
            } else {
                patch::lookup(trees, q)
            },
    decreases indexes.len(),
{
    if indexes.len() > 0 {
        let next = catalog::index_cleared(trees, indexes[0]);
        let rest = indexes.drop_first();
        let after = catalog::indexes_cleared(trees, indexes);
        law_index_cleared(trees, indexes[0]);
        lemma_indexes_cleared(next, rest);
        assert forall|q: (Seq<char>, KeyModel)| #[trigger]
            patch::lookup(after, q) == if is_of_indexes(q, indexes) {
                None
            } else {
                patch::lookup(trees, q)
            } by {
            assert(patch::lookup(next, q) == if is_of_index(q, indexes[0]) {
                None
            } else {
                patch::lookup(trees, q)
            });
            if is_of_indexes(q, rest) {
                let i = choose|i: int| 0 <= i < rest.len() && is_of_index(q, #[trigger] rest[i]);
                assert(indexes[i + 1] == rest[i]);
            } else if is_of_indexes(q, indexes) {
                let i = choose|i: int|
                    0 <= i < indexes.len() && is_of_index(q, #[trigger] indexes[i]);
                if i > 0 {
                    assert(rest[i - 1] == indexes[i]);
                }
            }
        }
    }
}

/// A place that a table takes up: its schema, one of its rows, or what its
/// indexes take up.
pub open spec fn is_of_table(
    q: (Seq<char>, KeyModel),
    table: Seq<char>,
    indexes: Seq<IndexModel>,
) -> bool {
    ||| q.0 == persistence::rows_of(table)
    ||| q == (persistence::table_schemas(), persistence::schema_key(table))
    ||| is_of_indexes(q, indexes)
}

/// Law: clearing a table takes out its schema, all its rows and all of its
/// indexes, and nothing else.
pub proof fn law_table_cleared(trees: Trees, table: Seq<char>, indexes: Seq<IndexModel>)
    requires
        trees.dom().finite(),
    ensures
        catalog::table_cleared(trees, table, indexes).dom().finite(),
        forall|q: (Seq<char>, KeyModel)| #[trigger]
            patch::lookup(catalog::table_cleared(trees, table, indexes), q) == if is_of_table(
                q,
                table,
                indexes,
            ) {
                None
            } else {
                patch::lookup(trees, q)
            },
{
    let rows = store::table_rows(trees, table);
    let tree = persistence::rows_of(table);
    let first = store_helpers::rows_removed(trees, table, rows);
    let second = catalog::indexes_cleared(first, indexes);
    let after = catalog::table_cleared(trees, table, indexes);
    let place = (persistence::table_schemas(), persistence::schema_key(table));
    lemma_rows_removed(trees, table, rows);
    lemma_indexes_cleared(first, indexes);
    consistency::lemma_tree_listed(trees, tree);
    assert(after.dom() =~= second.dom().remove(place));
    assert forall|q: (Seq<char>, KeyModel)| #[trigger]
        patch::lookup(after, q) == if is_of_table(q, table, indexes) {
            None
        } else {
            patch::lookup(trees, q)
        } by {
        assert(patch::lookup(after, q) == if q == place {
            None
        } else {
            patch::lookup(second, q)
        });
        assert(patch::lookup(second, q) == if is_of_indexes(q, indexes) {
            None
        } else {
            patch::lookup(first, q)
        });
        if q.0 == tree {
            if trees.contains_key(q) {
                assert(trees.contains_key((tree, q.1)));
                let i = choose|i: int| 0 <= i < rows.len() && (#[trigger] rows[i]).0 == q.1;
                assert(rows[i].0 == q.1);
            }
            assert(patch::lookup(first, q) is None);
        }
    }
}

/// What is left of some indexes, by membership.
pub proof fn lemma_kept_members(indexes: Seq<IndexModel>, p: spec_fn(IndexModel) -> bool)
    ensures
        forall|x: IndexModel| #[trigger]
            store_helpers::kept(indexes, p).contains(x) <==> (indexes.contains(x) && p(x)),
        consistency::distinct_names(indexes) ==> consistency::distinct_names(
            store_helpers::kept(indexes, p),
        ),
    decreases indexes.len(),
{
    let kept = store_helpers::kept(indexes, p);
    assert forall|x: IndexModel| #[trigger] kept.contains(x) <==> (indexes.contains(x) && p(
        x,
    )) by {
        if kept.contains(x) {
            let i = choose|i: int| 0 <= i < kept.len() && kept[i] == x;
            let at = store_helpers::lemma_kept_member(indexes, p, i);
            store_helpers::lemma_kept_holds(indexes, p, i);
            assert(indexes[at] == x);
        }
        if indexes.contains(x) && p(x) {
            let at = choose|at: int| 0 <= at < indexes.len() && indexes[at] == x;
            let i = store_helpers::lemma_kept_contains(indexes, p, at);
            assert(kept[i] == x);
        }
    }
    if indexes.len() > 0 {
        let rest = indexes.drop_last();
        let before = store_helpers::kept(rest, p);
        lemma_kept_members(rest, p);
        if consistency::distinct_names(indexes) {
            assert forall|i: int, j: int| 0 <= i < j < rest.len() implies (#[trigger] rest[i]).name
                != (#[trigger] rest[j]).name by {
                assert(rest[i] == indexes[i] && rest[j] == indexes[j]);
            }
            assert forall|i: int, j: int| 0 <= i < j < kept.len() implies (#[trigger] kept[i]).name
                != (#[trigger] kept[j]).name by {
                if j < before.len() {
                    assert(kept[i] == before[i] && kept[j] == before[j]);
                } else {
                    assert(kept[i] == before[i]);
                    assert(before.contains(before[i]));
                    let at = choose|at: int| 0 <= at < rest.len() && rest[at] == before[i];
                    assert(indexes[at] == rest[at]);
                    assert(indexes[at].name != indexes[indexes.len() - 1].name);
                }
            }
        }
    }
}

/// Law: a table that is dropped, and its indexes, are not there when the store
/// is opened again, and all else is.
pub proof fn law_dropped_table_is_not_loaded(trees: Trees, before: CatalogModel, table: Seq<char>)
    requires
        schemas_filed(trees),
        catalog::table_dropped(trees, before, table).0 is Ok,
    ensures
        ({
            let (_, known, after) = catalog::table_dropped(trees, before, table);
            &&& schemas_filed(after)
            &&& is_filed(known, after)
            &&& catalog::loaded_catalog(after) matches Ok(c) && c.tables == known.tables && forall|
                i: IndexModel,
            | #[trigger] c.indexes.contains(i) <==> known.indexes.contains(i)
        }),
{
    let (_, known, after) = catalog::table_dropped(trees, before, table);
    law_loaded_is_filed(trees);
    let c = catalog::loaded_catalog(trees)->Ok_0;
    let gone = catalog::indexes_of(c.indexes, table);
    let table_tree = persistence::table_schemas();
    let index_tree = persistence::index_schemas();
    law_table_cleared(trees, table, gone);
    lemma_kept_members(c.indexes, catalog::belongs_to(table));
    lemma_kept_members(c.indexes, catalog::belongs_elsewhere(table));
    persistence::law_trees_apart(table, table);
    assert forall|k: KeyModel| #[trigger]
        patch::lookup(after, (table_tree, k)) == if k == persistence::schema_key(table) {
            None
        } else {
            patch::lookup(trees, (table_tree, k))
        } by {
        let q = (table_tree, k);
        assert(!is_of_indexes(q, gone)) by {
            assert forall|i: int| 0 <= i < gone.len() implies !is_of_index(
                q,
                #[trigger] gone[i],
            ) by {
                persistence::law_trees_apart(gone[i].name, gone[i].name);
            }
        }
        assert(patch::lookup(after, q) == if is_of_table(q, table, gone) {
            None
        } else {
            patch::lookup(trees, q)
        });
    }
    assert forall|k: KeyModel| #[trigger]
        patch::lookup(after, (index_tree, k)) == if is_of_indexes(
            (index_tree, k),
            gone,
        ) {
            None
        } else {
            patch::lookup(trees, (index_tree, k))
        } by {
        let q = (index_tree, k);
        assert(patch::lookup(after, q) == if is_of_table(q, table, gone) {
            None
        } else {
            patch::lookup(trees, q)
        });
    }
    assert forall|k: KeyModel| #[trigger] table_filed(after, k) by {
        assert(table_filed(trees, k));
        assert(patch::lookup(after, (table_tree, k)) is None || patch::lookup(
            after,
            (table_tree, k),
        ) == patch::lookup(trees, (table_tree, k)));
    }
    assert forall|k: KeyModel| #[trigger] index_filed(after, k) by {
        assert(index_filed(trees, k));
        assert(patch::lookup(after, (index_tree, k)) is None || patch::lookup(
            after,
            (index_tree, k),
        ) == patch::lookup(trees, (index_tree, k)));
    }
    assert forall|name: Seq<char>| #[trigger]
        known.tables.contains_key(name) <==> after.contains_key(
        (table_tree, persistence::schema_key(name)),
    ) by {
        let k = persistence::schema_key(name);
        assert(patch::lookup(after, (table_tree, k)) == if k == persistence::schema_key(table) {
            None
        } else {
            patch::lookup(trees, (table_tree, k))
        });
        assert(c.tables.contains_key(name) <==> trees.contains_key((table_tree, k)));
        if k == persistence::schema_key(table) {
            lemma_schema_key(name, table);
        }
    }
    assert forall|name: Seq<char>| #[trigger]
        known.tables.contains_key(name) implies persistence::kept_schema::<TableSchema>(
        after[(table_tree, persistence::schema_key(name))],
        persistence::no_table(),
    ) == Ok::<TableModel, ErrorModel>(known.tables[name]) by {
        let k = persistence::schema_key(name);
        assert(c.tables.contains_key(name));
        assert(after.contains_key((table_tree, k)));
        assert(patch::lookup(after, (table_tree, k)) == patch::lookup(trees, (table_tree, k)));
    }
    assert forall|x: IndexModel| #[trigger] known.indexes.contains(x) <==> index_kept(
        after,
        x,
    ) by {
        let k = persistence::schema_key(x.name);
        let q = (index_tree, k);
        assert(patch::lookup(after, q) == if is_of_indexes(q, gone) {
            None
        } else {
            patch::lookup(trees, q)
        });
        assert(c.indexes.contains(x) <==> index_kept(trees, x));
        if known.indexes.contains(x) && is_of_indexes(q, gone) {
            let i = choose|i: int| 0 <= i < gone.len() && is_of_index(q, #[trigger] gone[i]);
            persistence::law_trees_apart(gone[i].name, gone[i].name);
            lemma_schema_key(x.name, gone[i].name);
            assert(gone.contains(gone[i]));
            assert(c.indexes.contains(gone[i]));
            let a = choose|a: int| 0 <= a < c.indexes.len() && c.indexes[a] == x;
            let b = choose|b: int| 0 <= b < c.indexes.len() && c.indexes[b] == gone[i];
            if a < b {
                assert(c.indexes[a].name != c.indexes[b].name);
            } else if b < a {
                assert(c.indexes[b].name != c.indexes[a].name);
            }
            assert(x == gone[i]);
        }
        if index_kept(after, x) && x.table_name == table {
            assert(gone.contains(x));
            let i = choose|i: int| 0 <= i < gone.len() && gone[i] == x;
            assert(is_of_index(q, gone[i]));
        }
    }
    law_loaded_is_filed(after);
    lemma_same_catalog(catalog::loaded_catalog(after)->Ok_0, known, after);
}

/// What the first index of a name is.
pub proof fn lemma_index_named(indexes: Seq<IndexModel>, name: Seq<char>)
    ensures
        match catalog::index_named(indexes, name) {
            Some(index) => index.name == name && indexes.contains(index),
            None => forall|i: int| 0 <= i < indexes.len() ==> (#[trigger] indexes[i]).name != name,
        },
    decreases indexes.len(),
{
    if indexes.len() > 0 {
        let rest = indexes.drop_first();
        lemma_index_named(rest, name);
        if indexes[0].name == name {
            assert(indexes.contains(indexes[0]));
        } else {
            if let Some(index) = catalog::index_named(rest, name) {
                let i = choose|i: int| 0 <= i < rest.len() && rest[i] == index;
                assert(indexes[i + 1] == index);
            } else {
                assert forall|i: int| 0 <= i < indexes.len() implies (#[trigger] indexes[i]).name
                    != name by {
                    if i > 0 {
                        assert(rest[i - 1] == indexes[i]);
                    }
                }
            }
        }
    }
}

/// Law: an index that is dropped is not there when the store is opened again,
/// and all else is.
pub proof fn law_dropped_index_is_not_loaded(trees: Trees, before: CatalogModel, name: Seq<char>)
    requires
        schemas_filed(trees),
        catalog::index_dropped(trees, before, name).0 is Ok,
    ensures
        ({
            let (_, known, after) = catalog::index_dropped(trees, before, name);
            &&& schemas_filed(after)
            &&& is_filed(known, after)
            &&& catalog::loaded_catalog(after) matches Ok(c) && c.tables == known.tables && forall|
                i: IndexModel,
            | #[trigger] c.indexes.contains(i) <==> known.indexes.contains(i)
        }),
{
    let (_, known, after) = catalog::index_dropped(trees, before, name);
    law_loaded_is_filed(trees);
    let c = catalog::loaded_catalog(trees)->Ok_0;
    let index = catalog::index_named(c.indexes, name)->Some_0;
    let table_tree = persistence::table_schemas();
    let index_tree = persistence::index_schemas();
    lemma_index_named(c.indexes, name);
    law_index_cleared(trees, index);
    lemma_kept_members(c.indexes, catalog::called_otherwise(name));
    persistence::law_trees_apart(name, name);
    assert forall|k: KeyModel| #[trigger]
        patch::lookup(after, (table_tree, k)) == patch::lookup(
            trees,
            (table_tree, k),
        ) by {
        assert(!is_of_index((table_tree, k), index));
    }
    assert forall|k: KeyModel| #[trigger]
        patch::lookup(after, (index_tree, k)) == if k == persistence::schema_key(name) {
            None
        } else {
            patch::lookup(trees, (index_tree, k))
        } by {
        assert(is_of_index((index_tree, k), index) <==> k == persistence::schema_key(name));
    }
    assert forall|k: KeyModel| #[trigger] table_filed(after, k) by {
        assert(table_filed(trees, k));
        assert(patch::lookup(after, (table_tree, k)) == patch::lookup(trees, (table_tree, k)));
    }
    assert forall|k: KeyModel| #[trigger] index_filed(after, k) by {
        assert(index_filed(trees, k));
        assert(patch::lookup(after, (index_tree, k)) is None || patch::lookup(
            after,
            (index_tree, k),
        ) == patch::lookup(trees, (index_tree, k)));
    }
    assert forall|n: Seq<char>| #[trigger]
        known.tables.contains_key(n) <==> after.contains_key(
        (table_tree, persistence::schema_key(n)),
    ) by {
        let k = persistence::schema_key(n);
        assert(patch::lookup(after, (table_tree, k)) == patch::lookup(trees, (table_tree, k)));
        assert(c.tables.contains_key(n) <==> trees.contains_key((table_tree, k)));
    }
    assert forall|n: Seq<char>| #[trigger]
        known.tables.contains_key(n) implies persistence::kept_schema::<TableSchema>(
        after[(table_tree, persistence::schema_key(n))],
        persistence::no_table(),
    ) == Ok::<TableModel, ErrorModel>(known.tables[n]) by {
        let k = persistence::schema_key(n);
        assert(c.tables.contains_key(n));
        assert(after.contains_key((table_tree, k)));
        assert(patch::lookup(after, (table_tree, k)) == patch::lookup(trees, (table_tree, k)));
    }
    assert forall|x: IndexModel| #[trigger] known.indexes.contains(x) <==> index_kept(
        after,
        x,
    ) by {
        let k = persistence::schema_key(x.name);
        assert(patch::lookup(after, (index_tree, k)) == if k == persistence::schema_key(name) {
            None
        } else {
            patch::lookup(trees, (index_tree, k))
        });
        assert(c.indexes.contains(x) <==> index_kept(trees, x));
        if k == persistence::schema_key(name) {
            lemma_schema_key(x.name, name);
        }
    }
    law_loaded_is_filed(after);
    lemma_same_catalog(catalog::loaded_catalog(after)->Ok_0, known, after);
}

} // verus!
