//! How rows and indexes hang together, and what keeps them so.
use vstd::prelude::*;
use crate::catalog::{self, CatalogModel};
use crate::change_event::EventModel;
use crate::error::ErrorModel;
use crate::executor::{self, UpdateModel, UpdatePlan};
use crate::float::FloatOp;
use crate::in_memory;
use crate::join_builder;
use crate::join_laws;
use crate::ordered_map::{self, OrderedKey};
use crate::patch;
use crate::persistence;
use crate::predicate::{CacheModel, StateModel};
use crate::query::{AssignmentModel, ColumnRef, JoinModel, PredicateModel};
use crate::schema::{self, IndexModel, TableModel};
use crate::select_orchestrator;
use crate::select_pipeline;
use crate::store::{self, KeyModel, RowModel, Trees};
use crate::store_helpers;
use crate::update_expr;
use crate::value::{self, EngineKey};

verus! {

/// The place of the entry of a row in an index.
pub open spec fn entry_of(index: IndexModel, row: RowModel, pk: KeyModel) -> (Seq<char>, KeyModel) {
    store::entry_place(index, schema::index_key_of(index, row)->Ok_0, pk)
}

/// If there is a row under a primary key, the index has its entry.
pub open spec fn row_entered(trees: Trees, table: Seq<char>, index: IndexModel, pk: KeyModel) -> bool {
    match store::row_at(trees, table, pk) {
        Some(row) => schema::index_key_of(index, row) is Ok && trees.contains_key(
            entry_of(index, row, pk),
        ),
        None => true,
    }
}

/// If there is an entry under a key of the index, there is the row that it is
/// for.
pub open spec fn entry_backed(trees: Trees, table: Seq<char>, index: IndexModel, k: KeyModel) -> bool {
    trees.contains_key((persistence::entries_of(index.name), k)) ==> {
        let (key, pk) = schema::split_entry(index, k);
        match store::row_at(trees, table, pk) {
            Some(row) => schema::index_key_of(index, row) == Ok::<KeyModel, ErrorModel>(key),
            None => false,
        }
    }
}

/// An index has an entry for every row of its table, and no other.
pub open spec fn in_step(trees: Trees, table: Seq<char>, index: IndexModel) -> bool {
    &&& forall|pk: KeyModel| #[trigger] row_entered(trees, table, index, pk)
    &&& forall|k: KeyModel| #[trigger] entry_backed(trees, table, index, k)
}

/// No two rows of a table have one key in an index.
pub open spec fn keys_unique(trees: Trees, table: Seq<char>, index: IndexModel) -> bool {
    forall|p: KeyModel, q: KeyModel|
        #![trigger store::row_at(trees, table, p), store::row_at(trees, table, q)]
        store::row_at(trees, table, p) is Some && store::row_at(trees, table, q) is Some
            && schema::index_key_of(index, store::row_at(trees, table, p)->0)
            == schema::index_key_of(index, store::row_at(trees, table, q)->0) ==> p == q
}

/// No two indexes have one name.
pub open spec fn distinct_names(indexes: Seq<IndexModel>) -> bool {
    forall|i: int, j: int|
        0 <= i < j < indexes.len() ==> (#[trigger] indexes[i]).name != (#[trigger] indexes[j]).name
}

/// The indexes of a table agree with its rows, and unique indexes are unique.
pub open spec fn well_indexed(trees: Trees, table: Seq<char>, indexes: Seq<IndexModel>) -> bool {
    &&& trees.dom().finite()
    &&& distinct_names(indexes)
    &&& forall|i: int|
        0 <= i < indexes.len() ==> in_step(trees, table, #[trigger] indexes[i]) && (
        indexes[i].unique ==> keys_unique(trees, table, indexes[i]))
}

/// A place is that of the entry of a row in one of the indexes.
pub open spec fn is_entry(
    q: (Seq<char>, KeyModel),
    indexes: Seq<IndexModel>,
    row: RowModel,
    pk: KeyModel,
) -> bool {
    exists|i: int| 0 <= i < indexes.len() && q == entry_of(#[trigger] indexes[i], row, pk)
}

proof fn lemma_is_entry_step(
    q: (Seq<char>, KeyModel),
    indexes: Seq<IndexModel>,
    row: RowModel,
    pk: KeyModel,
)
    requires
        indexes.len() > 0,
    ensures
        is_entry(q, indexes, row, pk) <==> (q == entry_of(indexes[0], row, pk) || is_entry(
            q,
            indexes.drop_first(),
            row,
            pk,
        )),
{
    let rest = indexes.drop_first();
    if is_entry(q, indexes, row, pk) {
        let i = choose|i: int|
            0 <= i < indexes.len() && q == entry_of(#[trigger] indexes[i], row, pk);
        if i > 0 {
            assert(rest[i - 1] == indexes[i]);
        }
    }
    if is_entry(q, rest, row, pk) {
        let i = choose|i: int| 0 <= i < rest.len() && q == entry_of(#[trigger] rest[i], row, pk);
        assert(indexes[i + 1] == rest[i]);
    }
}

/// What adding the entries of a row does to the trees.
proof fn lemma_entries_added(trees: Trees, indexes: Seq<IndexModel>, row: RowModel, pk: KeyModel)
    requires
        store_helpers::entries_added(trees, indexes, row, pk).0 is Ok,
    ensures
        ({
            let after = store_helpers::entries_added(trees, indexes, row, pk).1;
            &&& forall|i: int|
                0 <= i < indexes.len() ==> schema::index_key_of(#[trigger] indexes[i], row) is Ok
            &&& forall|q: (Seq<char>, KeyModel)| #[trigger]
                after.contains_key(q) <==> trees.contains_key(q) || is_entry(q, indexes, row, pk)
            &&& forall|q: (Seq<char>, KeyModel)|
                trees.contains_key(q) && !is_entry(q, indexes, row, pk) ==> #[trigger] after[q]
                    == trees[q]
            &&& trees.dom().finite() ==> after.dom().finite()
        }),
    decreases indexes.len(),
{
    let after = store_helpers::entries_added(trees, indexes, row, pk).1;
    if indexes.len() > 0 {
        let key = schema::index_key_of(indexes[0], row)->Ok_0;
        let next = store::with_entry(trees, indexes[0], key, pk);
        let rest = indexes.drop_first();
        lemma_entries_added(next, rest, row, pk);
        assert forall|i: int| 0 <= i < indexes.len() implies schema::index_key_of(
            #[trigger] indexes[i],
            row,
        ) is Ok by {
            if i > 0 {
                assert(rest[i - 1] == indexes[i]);
            }
        }
        assert forall|q: (Seq<char>, KeyModel)| #[trigger]
            after.contains_key(q) <==> trees.contains_key(q) || is_entry(q, indexes, row, pk) by {
            lemma_is_entry_step(q, indexes, row, pk);
            assert(next.contains_key(q) <==> trees.contains_key(q) || q == entry_of(
                indexes[0],
                row,
                pk,
            ));
        }
        assert forall|q: (Seq<char>, KeyModel)|
            trees.contains_key(q) && !is_entry(q, indexes, row, pk) implies #[trigger] after[q]
            == trees[q] by {
            lemma_is_entry_step(q, indexes, row, pk);
            assert(next.contains_key(q));
            assert(after[q] == next[q]);
        }
    }
}

/// What taking out the entries of a row does to the trees.
proof fn lemma_entries_removed(trees: Trees, indexes: Seq<IndexModel>, row: RowModel, pk: KeyModel)
    requires
        forall|i: int|
            0 <= i < indexes.len() ==> schema::index_key_of(#[trigger] indexes[i], row) is Ok,
    ensures
        store_helpers::entries_removed(trees, indexes, row, pk).0 is Ok,
        ({
            let after = store_helpers::entries_removed(trees, indexes, row, pk).1;
            &&& forall|q: (Seq<char>, KeyModel)| #[trigger]
                after.contains_key(q) <==> trees.contains_key(q) && !is_entry(q, indexes, row, pk)
            &&& forall|q: (Seq<char>, KeyModel)| #[trigger]
                after.contains_key(q) ==> after[q] == trees[q]
            &&& trees.dom().finite() ==> after.dom().finite()
        }),
    decreases indexes.len(),
{
    let after = store_helpers::entries_removed(trees, indexes, row, pk).1;
    if indexes.len() > 0 {
        assert(schema::index_key_of(indexes[0], row) is Ok);
        let key = schema::index_key_of(indexes[0], row)->Ok_0;
        let next = store::without_entry(trees, indexes[0], key, pk);
        let rest = indexes.drop_first();
        assert forall|i: int| 0 <= i < rest.len() implies schema::index_key_of(
            #[trigger] rest[i],
            row,
        ) is Ok by {
            assert(rest[i] == indexes[i + 1]);
        }
        lemma_entries_removed(next, rest, row, pk);
        assert forall|q: (Seq<char>, KeyModel)| #[trigger]
            after.contains_key(q) <==> trees.contains_key(q) && !is_entry(q, indexes, row, pk) by {
            lemma_is_entry_step(q, indexes, row, pk);
            assert(next.contains_key(q) <==> trees.contains_key(q) && q != entry_of(
                indexes[0],
                row,
                pk,
            ));
        }
        assert forall|q: (Seq<char>, KeyModel)| #[trigger] after.contains_key(q) implies after[q]
            == trees[q] by {
            assert(next.contains_key(q));
        }
    }
}

/// The entry of a row is in no tree of rows.
proof fn lemma_rows_apart(
    table: Seq<char>,
    k: KeyModel,
    indexes: Seq<IndexModel>,
    row: RowModel,
    pk: KeyModel,
)
    ensures
        !is_entry((persistence::rows_of(table), k), indexes, row, pk),
{
    let q = (persistence::rows_of(table), k);
    if is_entry(q, indexes, row, pk) {
        let i = choose|i: int|
            0 <= i < indexes.len() && q == entry_of(#[trigger] indexes[i], row, pk);
        persistence::law_trees_apart(table, indexes[i].name);
    }
}

/// A row has one entry in an index.
proof fn lemma_entry_in(
    k: KeyModel,
    indexes: Seq<IndexModel>,
    i: int,
    row: RowModel,
    pk: KeyModel,
)
    requires
        0 <= i < indexes.len(),
        distinct_names(indexes),
        schema::index_key_of(indexes[i], row) is Ok,
    ensures
        is_entry((persistence::entries_of(indexes[i].name), k), indexes, row, pk) <==> k
            == schema::index_key_of(indexes[i], row)->Ok_0 + pk,
{
    let q = (persistence::entries_of(indexes[i].name), k);
    if is_entry(q, indexes, row, pk) {
        let j = choose|j: int|
            0 <= j < indexes.len() && q == entry_of(#[trigger] indexes[j], row, pk);
        persistence::law_trees_apart(indexes[i].name, indexes[j].name);
        if i < j {
            assert(indexes[i].name != indexes[j].name);
        }
        if j < i {
            assert(indexes[j].name != indexes[i].name);
        }
    }
    if k == schema::index_key_of(indexes[i], row)->Ok_0 + pk {
        assert(q == entry_of(indexes[i], row, pk));
    }
}

/// What the listing of a tree holds.
pub proof fn lemma_tree_listed(trees: Trees, tree: Seq<char>)
    requires
        trees.dom().finite(),
    ensures
        ({
            let list = store::tree_listing(trees, tree);
            &&& ordered_map::lists(list, in_memory::tree_map(trees, tree), value::key_less())
            &&& forall|i: int|
                0 <= i < list.len() ==> trees.contains_key((tree, (#[trigger] list[i]).0))
                    && trees[(tree, list[i].0)] == list[i].1
            &&& forall|k: KeyModel| #[trigger]
                trees.contains_key((tree, k)) ==> exists|i: int|
                    0 <= i < list.len() && (#[trigger] list[i]).0 == k
        }),
{
    let m = in_memory::tree_map(trees, tree);
    let second = |q: (Seq<char>, KeyModel)| q.1;
    trees.dom().lemma_map_finite(second);
    assert forall|k: KeyModel| #[trigger] m.dom().contains(k) implies trees.dom().map(
        second,
    ).contains(k) by {
        assert(trees.dom().contains((tree, k)));
        assert(second((tree, k)) == k);
    }
    vstd::set_lib::lemma_set_subset_finite(trees.dom().map(second), m.dom());
    <EngineKey as OrderedKey>::before_total();
    ordered_map::law_listing_exists(m, value::key_less());
    let list = store::tree_listing(trees, tree);
    ordered_map::lemma_ascending_map(list, value::key_less());
    assert forall|i: int| 0 <= i < list.len() implies trees.contains_key(
        (tree, (#[trigger] list[i]).0),
    ) && trees[(tree, list[i].0)] == list[i].1 by {
        assert(m.contains_key(list[i].0));
    }
    assert forall|k: KeyModel| #[trigger] trees.contains_key((tree, k)) implies exists|i: int|
        0 <= i < list.len() && (#[trigger] list[i]).0 == k by {
        assert(m.contains_key(k));
    }
}

/// An entry of an index that is in step is listed.
pub proof fn lemma_entry_listed(trees: Trees, index: IndexModel, row: RowModel, pk: KeyModel) -> (at: int)
    requires
        trees.dom().finite(),
        schema::index_key_of(index, row) is Ok,
        trees.contains_key(entry_of(index, row, pk)),
    ensures
        0 <= at < store::index_entries(trees, index).len(),
        store::index_entries(trees, index)[at] == (schema::index_key_of(index, row)->Ok_0, pk),
{
    let tree = persistence::entries_of(index.name);
    let key = schema::index_key_of(index, row)->Ok_0;
    lemma_tree_listed(trees, tree);
    let list = store::tree_listing(trees, tree);
    let at = choose|at: int| 0 <= at < list.len() && (#[trigger] list[at]).0 == key + pk;
    schema::law_split_undoes_make(index, row, pk);
    at
}

/// The rows of all tables are as before, but for one.
pub open spec fn rows_but(
    after: Trees,
    trees: Trees,
    table: Seq<char>,
    pk: KeyModel,
    row: Option<RowModel>,
) -> bool {
    forall|t: Seq<char>, p: KeyModel| #[trigger]
        store::row_at(after, t, p) == if t == table && p == pk {
            row
        } else {
            store::row_at(trees, t, p)
        }
}

/// The rows after a row and its entries were added.
proof fn lemma_added_rows(
    trees: Trees,
    table: Seq<char>,
    pk: KeyModel,
    row: RowModel,
    indexes: Seq<IndexModel>,
)
    requires
        executor::row_added(trees, table, pk, row, indexes).0 is Ok,
    ensures
        rows_but(
            executor::row_added(trees, table, pk, row, indexes).1,
            trees,
            table,
            pk,
            Some(row),
        ),
{
    let base = store::with_row(trees, table, pk, row);
    let after = executor::row_added(trees, table, pk, row, indexes).1;
    lemma_entries_added(base, indexes, row, pk);
    assert forall|t: Seq<char>, p: KeyModel| #[trigger]
        store::row_at(after, t, p) == (if t == table && p == pk {
        Some(row)
    } else {
        store::row_at(trees, t, p)
    }) by {
        lemma_rows_apart(t, p, indexes, row, pk);
        persistence::law_trees_apart(t, table);
        let q = (persistence::rows_of(t), p);
        assert(after.contains_key(q) <==> base.contains_key(q));
        if base.contains_key(q) {
            assert(after[q] == base[q]);
        }
    }
}

/// The rows after a row and its entries were taken out.
proof fn lemma_deleted_rows(
    trees: Trees,
    table: Seq<char>,
    pk: KeyModel,
    row: RowModel,
    indexes: Seq<IndexModel>,
)
    requires
        forall|i: int|
            0 <= i < indexes.len() ==> schema::index_key_of(#[trigger] indexes[i], row) is Ok,
    ensures
        rows_but(
            store_helpers::row_deleted(trees, table, pk, row, indexes).1,
            trees,
            table,
            pk,
            None,
        ),
{
    let base = store::without_row(trees, table, pk);
    let after = store_helpers::row_deleted(trees, table, pk, row, indexes).1;
    lemma_entries_removed(base, indexes, row, pk);
    assert forall|t: Seq<char>, p: KeyModel| #[trigger]
        store::row_at(after, t, p) == (if t == table && p == pk {
        None
    } else {
        store::row_at(trees, t, p)
    }) by {
        lemma_rows_apart(t, p, indexes, row, pk);
        persistence::law_trees_apart(t, table);
        let q = (persistence::rows_of(t), p);
        assert(after.contains_key(q) <==> base.contains_key(q));
    }
}

/// An index stays in step with a row that is new.
proof fn lemma_step_added(
    trees: Trees,
    after: Trees,
    table: Seq<char>,
    pk: KeyModel,
    row: RowModel,
    index: IndexModel,
)
    requires
        in_step(trees, table, index),
        store::row_at(trees, table, pk) is None,
        schema::index_key_of(index, row) is Ok,
        rows_but(after, trees, table, pk, Some(row)),
        forall|k: KeyModel| #[trigger]
            after.contains_key((persistence::entries_of(index.name), k)) <==> (trees.contains_key(
                (persistence::entries_of(index.name), k),
            ) || k == schema::index_key_of(index, row)->Ok_0 + pk),
    ensures
        in_step(after, table, index),
{
    let tree = persistence::entries_of(index.name);
    assert forall|p: KeyModel| #[trigger] row_entered(after, table, index, p) by {
        assert(row_entered(trees, table, index, p));
        if let Some(kept) = store::row_at(after, table, p) {
            let k = entry_of(index, kept, p).1;
            assert(after.contains_key((tree, k)));
        }
    }
    assert forall|k: KeyModel| #[trigger] entry_backed(after, table, index, k) by {
        assert(entry_backed(trees, table, index, k));
        if after.contains_key((tree, k)) {
            let (key, p) = schema::split_entry(index, k);
            if !trees.contains_key((tree, k)) {
                schema::law_split_undoes_make(index, row, pk);
            }
            assert(store::row_at(after, table, p) is Some);
        }
    }
}

/// An index stays in step with a row that is taken out.
proof fn lemma_step_deleted(
    trees: Trees,
    after: Trees,
    table: Seq<char>,
    pk: KeyModel,
    row: RowModel,
    index: IndexModel,
)
    requires
        in_step(trees, table, index),
        store::row_at(trees, table, pk) == Some(row),
        rows_but(after, trees, table, pk, None),
        forall|k: KeyModel| #[trigger]
            after.contains_key((persistence::entries_of(index.name), k)) <==> (trees.contains_key(
                (persistence::entries_of(index.name), k),
            ) && k != schema::index_key_of(index, row)->Ok_0 + pk),
    ensures
        in_step(after, table, index),
{
    let tree = persistence::entries_of(index.name);
    assert(row_entered(trees, table, index, pk));
    let own = schema::index_key_of(index, row)->Ok_0;
    assert forall|p: KeyModel| #[trigger] row_entered(after, table, index, p) by {
        assert(row_entered(trees, table, index, p));
        if let Some(kept) = store::row_at(after, table, p) {
            let k = entry_of(index, kept, p).1;
            if k == own + pk {
                schema::law_split_undoes_make(index, kept, p);
                schema::law_split_undoes_make(index, row, pk);
            }
            assert(after.contains_key((tree, k)));
        }
    }
    assert forall|k: KeyModel| #[trigger] entry_backed(after, table, index, k) by {
        assert(entry_backed(trees, table, index, k));
        if after.contains_key((tree, k)) {
            let (key, p) = schema::split_entry(index, k);
            assert(k =~= key + p);
            assert(store::row_at(after, table, p) == if p == pk {
                None
            } else {
                store::row_at(trees, table, p)
            });
        }
    }
}

/// What a unique index was checked for.
proof fn lemma_unique_check(
    trees: Trees,
    indexes: Seq<IndexModel>,
    row: RowModel,
    pk: KeyModel,
    i: int,
)
    requires
        0 <= i < indexes.len(),
        indexes[i].unique,
        store_helpers::unique_check(trees, indexes, row, pk) is Ok,
    ensures
        schema::index_key_of(indexes[i], row) is Ok,
        !store_helpers::conflicts(
            trees,
            indexes[i],
            schema::index_key_of(indexes[i], row)->Ok_0,
            pk,
        ),
    decreases indexes.len(),
{
    if i > 0 {
        assert(indexes.drop_first()[i - 1] == indexes[i]);
        lemma_unique_check(trees, indexes.drop_first(), row, pk, i - 1);
    } else {
        store_helpers::lemma_no_conflict(
            store::index_entries(trees, indexes[0]),
            schema::index_key_of(indexes[0], row)->Ok_0,
            pk,
        );
    }
}

/// A unique index stays unique with a row that was checked.
proof fn lemma_unique_added(
    trees: Trees,
    after: Trees,
    table: Seq<char>,
    pk: KeyModel,
    row: RowModel,
    index: IndexModel,
)
    requires
        trees.dom().finite(),
        in_step(trees, table, index),
        keys_unique(trees, table, index),
        store::row_at(trees, table, pk) is None,
        schema::index_key_of(index, row) is Ok,
        !store_helpers::conflicts(trees, index, schema::index_key_of(index, row)->Ok_0, pk),
        rows_but(after, trees, table, pk, Some(row)),
    ensures
        keys_unique(after, table, index),
{
    assert forall|p: KeyModel|
        #[trigger] store::row_at(trees, table, p) is Some implies schema::index_key_of(
        index,
        store::row_at(trees, table, p)->0,
    ) != schema::index_key_of(index, row) by {
        let kept = store::row_at(trees, table, p)->0;
        assert(row_entered(trees, table, index, p));
        if schema::index_key_of(index, kept) == schema::index_key_of(index, row) {
            let at = lemma_entry_listed(trees, index, kept, p);
            assert(p != pk);
            assert(store_helpers::conflicts(
                trees,
                index,
                schema::index_key_of(index, row)->Ok_0,
                pk,
            ));
        }
    }
    assert forall|p: KeyModel, q: KeyModel|
        #![trigger store::row_at(after, table, p), store::row_at(after, table, q)]
        store::row_at(after, table, p) is Some && store::row_at(after, table, q) is Some
            && schema::index_key_of(index, store::row_at(after, table, p)->0)
            == schema::index_key_of(index, store::row_at(after, table, q)->0) implies p == q by {
        if p != pk {
            assert(store::row_at(trees, table, p) is Some);
        }
        if q != pk {
            assert(store::row_at(trees, table, q) is Some);
        }
    }
}

/// A unique index stays unique without a row.
proof fn lemma_unique_deleted(
    trees: Trees,
    after: Trees,
    table: Seq<char>,
    pk: KeyModel,
    index: IndexModel,
)
    requires
        keys_unique(trees, table, index),
        rows_but(after, trees, table, pk, None),
    ensures
        keys_unique(after, table, index),
{
    assert forall|p: KeyModel, q: KeyModel|
        #![trigger store::row_at(after, table, p), store::row_at(after, table, q)]
        store::row_at(after, table, p) is Some && store::row_at(after, table, q) is Some
            && schema::index_key_of(index, store::row_at(after, table, p)->0)
            == schema::index_key_of(index, store::row_at(after, table, q)->0) implies p == q by {
        assert(store::row_at(trees, table, p) is Some);
        assert(store::row_at(trees, table, q) is Some);
    }
}

/// A row that is new, put into a table and its indexes, leaves them well
/// indexed.
proof fn lemma_row_added(
    trees: Trees,
    table: Seq<char>,
    pk: KeyModel,
    row: RowModel,
    indexes: Seq<IndexModel>,
)
    requires
        well_indexed(trees, table, indexes),
        store::row_at(trees, table, pk) is None,
        store_helpers::unique_check(trees, indexes, row, pk) is Ok,
        executor::row_added(trees, table, pk, row, indexes).0 is Ok,
    ensures
        well_indexed(executor::row_added(trees, table, pk, row, indexes).1, table, indexes),
{
    let base = store::with_row(trees, table, pk, row);
    let after = executor::row_added(trees, table, pk, row, indexes).1;
    lemma_entries_added(base, indexes, row, pk);
    lemma_added_rows(trees, table, pk, row, indexes);
    assert forall|i: int| 0 <= i < indexes.len() implies in_step(
        after,
        table,
        #[trigger] indexes[i],
    ) && (indexes[i].unique ==> keys_unique(after, table, indexes[i])) by {
        let index = indexes[i];
        let tree = persistence::entries_of(index.name);
        assert(in_step(trees, table, index));
        assert forall|k: KeyModel| #[trigger] after.contains_key((tree, k)) <==> (
        trees.contains_key((tree, k)) || k == schema::index_key_of(index, row)->Ok_0 + pk) by {
            lemma_entry_in(k, indexes, i, row, pk);
            persistence::law_trees_apart(table, index.name);
            assert(base.contains_key((tree, k)) <==> trees.contains_key((tree, k)));
        }
        lemma_step_added(trees, after, table, pk, row, index);
        if index.unique {
            lemma_unique_check(trees, indexes, row, pk, i);
            lemma_unique_added(trees, after, table, pk, row, index);
        }
    }
}

/// A row taken out of a table and its indexes leaves them well indexed.
proof fn lemma_row_deleted(
    trees: Trees,
    table: Seq<char>,
    pk: KeyModel,
    row: RowModel,
    indexes: Seq<IndexModel>,
)
    requires
        well_indexed(trees, table, indexes),
        store::row_at(trees, table, pk) == Some(row),
    ensures
        store_helpers::row_deleted(trees, table, pk, row, indexes).0 is Ok,
        well_indexed(
            store_helpers::row_deleted(trees, table, pk, row, indexes).1,
            table,
            indexes,
        ),
        rows_but(
            store_helpers::row_deleted(trees, table, pk, row, indexes).1,
            trees,
            table,
            pk,
            None,
        ),
        same_outside(
            store_helpers::row_deleted(trees, table, pk, row, indexes).1,
            trees,
            table,
            indexes,
        ),
{
    let base = store::without_row(trees, table, pk);
    let after = store_helpers::row_deleted(trees, table, pk, row, indexes).1;
    assert forall|i: int| 0 <= i < indexes.len() implies schema::index_key_of(
        #[trigger] indexes[i],
        row,
    ) is Ok by {
        assert(in_step(trees, table, indexes[i]));
        assert(row_entered(trees, table, indexes[i], pk));
    }
    lemma_entries_removed(base, indexes, row, pk);
    lemma_deleted_rows(trees, table, pk, row, indexes);
    lemma_deleted_outside(trees, table, pk, row, indexes);
    assert forall|i: int| 0 <= i < indexes.len() implies in_step(
        after,
        table,
        #[trigger] indexes[i],
    ) && (indexes[i].unique ==> keys_unique(after, table, indexes[i])) by {
        let index = indexes[i];
        let tree = persistence::entries_of(index.name);
        assert(in_step(trees, table, index));
        assert(schema::index_key_of(index, row) is Ok);
        assert forall|k: KeyModel| #[trigger] after.contains_key((tree, k)) <==> (
        trees.contains_key((tree, k)) && k != schema::index_key_of(index, row)->Ok_0 + pk) by {
            lemma_entry_in(k, indexes, i, row, pk);
            persistence::law_trees_apart(table, index.name);
            assert(base.contains_key((tree, k)) <==> trees.contains_key((tree, k)));
        }
        lemma_step_deleted(trees, after, table, pk, row, index);
        if index.unique {
            lemma_unique_deleted(trees, after, table, pk, index);
        }
    }
}

/// The rows of a table fit its schema, and stand under their own primary keys.
pub open spec fn rows_fit(trees: Trees, table: Seq<char>, schema: TableModel) -> bool {
    forall|pk: KeyModel| #[trigger] row_fits(trees, table, schema, pk)
}

/// If there is a row under a primary key, it fits and that is its key.
pub open spec fn row_fits(trees: Trees, table: Seq<char>, schema: TableModel, pk: KeyModel) -> bool {
    match store::row_at(trees, table, pk) {
        Some(row) => schema::row_check(schema, row) is Ok && schema::primary_key_of(schema, row)
            == Ok::<KeyModel, ErrorModel>(pk),
        None => true,
    }
}

/// Rows that fit can be listed.
pub proof fn lemma_keys_fit(trees: Trees, table: Seq<char>, schema: TableModel)
    requires
        trees.dom().finite(),
        rows_fit(trees, table, schema),
    ensures
        store::keys_fit(store::table_rows(trees, table)),
{
    let rows = store::table_rows(trees, table);
    lemma_tree_listed(trees, persistence::rows_of(table));
    assert forall|i: int| 0 <= i < rows.len() implies value::is_primary_key(
        (#[trigger] rows[i]).0,
    ) by {
        assert(trees.contains_key((persistence::rows_of(table), rows[i].0)));
        assert(row_fits(trees, table, schema, rows[i].0));
    }
}

/// The entries of rows that fit can be read.
pub proof fn lemma_entries_fit(
    trees: Trees,
    table: Seq<char>,
    schema: TableModel,
    index: IndexModel,
)
    requires
        trees.dom().finite(),
        rows_fit(trees, table, schema),
        in_step(trees, table, index),
    ensures
        store::entries_fit(store::index_entries(trees, index)),
{
    let tree = persistence::entries_of(index.name);
    let list = store::tree_listing(trees, tree);
    let entries = store::index_entries(trees, index);
    lemma_tree_listed(trees, tree);
    assert forall|i: int| 0 <= i < entries.len() implies value::is_primary_key(
        (#[trigger] entries[i]).1,
    ) by {
        assert(trees.contains_key((tree, list[i].0)));
        assert(entry_backed(trees, table, index, list[i].0));
        assert(row_fits(trees, table, schema, entries[i].1));
    }
}

/// A table is in order: its rows fit, and its indexes agree with them.
pub open spec fn well_kept(
    trees: Trees,
    table: Seq<char>,
    schema: TableModel,
    indexes: Seq<IndexModel>,
) -> bool {
    rows_fit(trees, table, schema) && well_indexed(trees, table, indexes)
}

proof fn lemma_fit_changed(
    after: Trees,
    trees: Trees,
    table: Seq<char>,
    schema: TableModel,
    pk: KeyModel,
    row: Option<RowModel>,
)
    requires
        rows_fit(trees, table, schema),
        rows_but(after, trees, table, pk, row),
        row matches Some(new) ==> schema::row_check(schema, new) is Ok && schema::primary_key_of(
            schema,
            new,
        ) == Ok::<KeyModel, ErrorModel>(pk),
    ensures
        rows_fit(after, table, schema),
{
    assert forall|p: KeyModel| #[trigger] row_fits(after, table, schema, p) by {
        assert(row_fits(trees, table, schema, p));
        assert(store::row_at(after, table, p) == if p == pk {
            row
        } else {
            store::row_at(trees, table, p)
        });
    }
}

/// A table that is looked up alike is in order alike.
pub proof fn lemma_well_kept_alike(
    after: Trees,
    trees: Trees,
    table: Seq<char>,
    schema: TableModel,
    indexes: Seq<IndexModel>,
    others: Seq<IndexModel>,
)
    requires
        well_kept(trees, table, schema, indexes),
        after.dom().finite(),
        distinct_names(others),
        forall|i: int| 0 <= i < others.len() ==> indexes.contains(#[trigger] others[i]),
        forall|pk: KeyModel| #[trigger]
            store::row_at(after, table, pk) == store::row_at(trees, table, pk),
        forall|i: int, k: KeyModel|
            0 <= i < others.len() ==> (#[trigger] after.contains_key(
                (persistence::entries_of(others[i].name), k),
            ) <==> trees.contains_key((persistence::entries_of(others[i].name), k))),
    ensures
        well_kept(after, table, schema, others),
{
    assert forall|pk: KeyModel| #[trigger] row_fits(after, table, schema, pk) by {
        assert(row_fits(trees, table, schema, pk));
    }
    assert forall|i: int| 0 <= i < others.len() implies in_step(after, table, #[trigger] others[i])
        && (others[i].unique ==> keys_unique(after, table, others[i])) by {
        let index = others[i];
        let tree = persistence::entries_of(index.name);
        let j = choose|j: int| 0 <= j < indexes.len() && indexes[j] == index;
        assert(in_step(trees, table, indexes[j]));
        assert forall|pk: KeyModel| #[trigger] row_entered(after, table, index, pk) by {
            assert(row_entered(trees, table, index, pk));
            if let Some(row) = store::row_at(after, table, pk) {
                let k = entry_of(index, row, pk).1;
                assert(after.contains_key((tree, k)) <==> trees.contains_key((tree, k)));
            }
        }
        assert forall|k: KeyModel| #[trigger] entry_backed(after, table, index, k) by {
            assert(entry_backed(trees, table, index, k));
            assert(after.contains_key((tree, k)) <==> trees.contains_key((tree, k)));
        }
        if index.unique {
            assert(keys_unique(trees, table, index));
        }
    }
}

/// A tree that a statement on a table may change.
pub open spec fn is_of_table(tree: Seq<char>, table: Seq<char>, indexes: Seq<IndexModel>) -> bool {
    tree == persistence::rows_of(table) || exists|i: int|
        0 <= i < indexes.len() && tree == persistence::entries_of((#[trigger] indexes[i]).name)
}

/// Nothing has changed but the trees of a table.
pub open spec fn same_outside(
    after: Trees,
    trees: Trees,
    table: Seq<char>,
    indexes: Seq<IndexModel>,
) -> bool {
    forall|q: (Seq<char>, KeyModel)|
        !is_of_table(q.0, table, indexes) ==> #[trigger] patch::lookup(after, q) == patch::lookup(
            trees,
            q,
        )
}

proof fn lemma_entry_outside(
    q: (Seq<char>, KeyModel),
    table: Seq<char>,
    indexes: Seq<IndexModel>,
    row: RowModel,
    pk: KeyModel,
)
    requires
        !is_of_table(q.0, table, indexes),
    ensures
        !is_entry(q, indexes, row, pk),
{
    if is_entry(q, indexes, row, pk) {
        let i = choose|i: int|
            0 <= i < indexes.len() && q == entry_of(#[trigger] indexes[i], row, pk);
        assert(q.0 == persistence::entries_of(indexes[i].name));
    }
}

proof fn lemma_added_outside(
    trees: Trees,
    table: Seq<char>,
    pk: KeyModel,
    row: RowModel,
    indexes: Seq<IndexModel>,
)
    requires
        executor::row_added(trees, table, pk, row, indexes).0 is Ok,
    ensures
        same_outside(
            executor::row_added(trees, table, pk, row, indexes).1,
            trees,
            table,
            indexes,
        ),
{
    let base = store::with_row(trees, table, pk, row);
    let after = executor::row_added(trees, table, pk, row, indexes).1;
    lemma_entries_added(base, indexes, row, pk);
    assert forall|q: (Seq<char>, KeyModel)| !is_of_table(q.0, table, indexes) implies #[trigger]
        patch::lookup(after, q) == patch::lookup(trees, q) by {
        lemma_entry_outside(q, table, indexes, row, pk);
        assert(after.contains_key(q) <==> base.contains_key(q));
        if base.contains_key(q) {
            assert(after[q] == base[q]);
        }
    }
}

proof fn lemma_deleted_outside(
    trees: Trees,
    table: Seq<char>,
    pk: KeyModel,
    row: RowModel,
    indexes: Seq<IndexModel>,
)
    requires
        forall|i: int|
            0 <= i < indexes.len() ==> schema::index_key_of(#[trigger] indexes[i], row) is Ok,
    ensures
        same_outside(
            store_helpers::row_deleted(trees, table, pk, row, indexes).1,
            trees,
            table,
            indexes,
        ),
{
    let base = store::without_row(trees, table, pk);
    let after = store_helpers::row_deleted(trees, table, pk, row, indexes).1;
    lemma_entries_removed(base, indexes, row, pk);
    assert forall|q: (Seq<char>, KeyModel)| !is_of_table(q.0, table, indexes) implies #[trigger]
        patch::lookup(after, q) == patch::lookup(trees, q) by {
        lemma_entry_outside(q, table, indexes, row, pk);
        assert(after.contains_key(q) <==> base.contains_key(q));
    }
}

proof fn lemma_outside_twice(
    last: Trees,
    after: Trees,
    trees: Trees,
    table: Seq<char>,
    indexes: Seq<IndexModel>,
)
    requires
        same_outside(last, after, table, indexes),
        same_outside(after, trees, table, indexes),
    ensures
        same_outside(last, trees, table, indexes),
{
    assert forall|q: (Seq<char>, KeyModel)| !is_of_table(q.0, table, indexes) implies #[trigger]
        patch::lookup(last, q) == patch::lookup(trees, q) by {
        assert(patch::lookup(last, q) == patch::lookup(after, q));
    }
}

/// Law: an insert that succeeds puts in the row and nothing else, and leaves the
/// table in order.
pub proof fn law_insert_keeps_table(c: CatalogModel, trees: Trees, table: Seq<char>, row: RowModel)
    requires
        c.tables.contains_key(table),
        well_kept(trees, table, c.tables[table], catalog::indexes_of(c.indexes, table)),
        executor::inserted(c, trees, table, row).result is Ok,
    ensures
        ({
            let after = executor::inserted(c, trees, table, row).trees;
            let pk = schema::primary_key_of(c.tables[table], row)->Ok_0;
            let indexes = catalog::indexes_of(c.indexes, table);
            &&& well_kept(after, table, c.tables[table], indexes)
            &&& rows_but(after, trees, table, pk, Some(row))
            &&& same_outside(after, trees, table, indexes)
        }),
{
    let indexes = catalog::indexes_of(c.indexes, table);
    let pk = schema::primary_key_of(c.tables[table], row)->Ok_0;
    let after = executor::inserted(c, trees, table, row).trees;
    lemma_row_added(trees, table, pk, row, indexes);
    lemma_added_rows(trees, table, pk, row, indexes);
    lemma_added_outside(trees, table, pk, row, indexes);
    lemma_fit_changed(after, trees, table, c.tables[table], pk, Some(row));
}

/// The rows of a list are those of the table, each once.
pub open spec fn rows_there<A>(
    trees: Trees,
    table: Seq<char>,
    rows: Seq<A>,
    entry: spec_fn(A) -> (KeyModel, RowModel),
) -> bool {
    &&& forall|i: int|
        0 <= i < rows.len() ==> store::row_at(trees, table, entry(#[trigger] rows[i]).0) == Some(
            entry(rows[i]).1,
        )
    &&& forall|i: int, j: int|
        0 <= i < j < rows.len() ==> entry(#[trigger] rows[i]).0 != entry(#[trigger] rows[j]).0
}

/// An entry as it is.
pub open spec fn as_entry() -> spec_fn((KeyModel, RowModel)) -> (KeyModel, RowModel) {
    |e: (KeyModel, RowModel)| e
}

/// What is kept of an ascending list is ascending.
proof fn lemma_kept_ascending<K, A>(
    list: Seq<(K, A)>,
    p: spec_fn((K, A)) -> bool,
    before: spec_fn(K, K) -> bool,
)
    requires
        ordered_map::ascending(list, before),
    ensures
        ordered_map::ascending(store_helpers::kept(list, p), before),
    decreases list.len(),
{
    if list.len() > 0 {
        let rest = list.drop_last();
        assert forall|i: int, j: int| 0 <= i < j < rest.len() implies before(
            (#[trigger] rest[i]).0,
            (#[trigger] rest[j]).0,
        ) by {
            assert(before(list[i].0, list[j].0));
        }
        lemma_kept_ascending(rest, p, before);
        let kept = store_helpers::kept(rest, p);
        assert forall|i: int| 0 <= i < kept.len() implies before(
            (#[trigger] kept[i]).0,
            list.last().0,
        ) by {
            let at = store_helpers::lemma_kept_member(rest, p, i);
            assert(before(list[at].0, list[list.len() - 1].0));
        }
    }
}

/// The rows that meet a condition are those of the table.
pub proof fn lemma_matching_rows(trees: Trees, table: Seq<char>, predicate: Option<PredicateModel>)
    requires
        trees.dom().finite(),
    ensures
        rows_there(
            trees,
            table,
            store_helpers::matching_rows(trees, table, predicate),
            as_entry(),
        ),
        ordered_map::ascending(
            store_helpers::matching_rows(trees, table, predicate),
            value::key_less(),
        ),
{
    let tree = persistence::rows_of(table);
    let list = store::table_rows(trees, table);
    let p = |entry: (KeyModel, RowModel)| store_helpers::meets(predicate, table, entry.1);
    let rows = store_helpers::matching_rows(trees, table, predicate);
    lemma_tree_listed(trees, tree);
    <EngineKey as OrderedKey>::before_total();
    lemma_kept_ascending(list, p, value::key_less());
    let entry = as_entry();
    let less = value::key_less();
    assert forall|i: int| 0 <= i < rows.len() implies store::row_at(
        trees,
        table,
        entry(#[trigger] rows[i]).0,
    ) == Some(entry(rows[i]).1) by {
        let at = store_helpers::lemma_kept_member(list, p, i);
        assert(trees.contains_key((tree, list[at].0)));
    }
    assert forall|i: int, j: int| 0 <= i < j < rows.len() implies entry(#[trigger] rows[i]).0
        != entry(#[trigger] rows[j]).0 by {
        assert(less(rows[i].0, rows[j].0));
        assert(!less(rows[i].0, rows[i].0));
    }
}

/// Deleting rows that are there leaves the table in order.
proof fn lemma_deleting(
    rows: Seq<(KeyModel, RowModel)>,
    trees: Trees,
    table: Seq<char>,
    schema: TableModel,
    indexes: Seq<IndexModel>,
    returning: Option<Seq<ColumnRef>>,
    out: Seq<RowModel>,
    events: Seq<EventModel>,
)
    requires
        well_kept(trees, table, schema, indexes),
        rows_there(trees, table, rows, as_entry()),
    ensures
        ({
            let done = executor::deleting(rows, trees, table, indexes, returning, out, events);
            &&& well_kept(done.trees, table, schema, indexes)
            &&& same_outside(done.trees, trees, table, indexes)
            &&& returning is None ==> done.result == Ok::<Seq<RowModel>, ErrorModel>(out)
            &&& done.result is Ok ==> forall|t: Seq<char>, p: KeyModel| #[trigger]
                store::row_at(done.trees, t, p) == if t == table && listed(rows, p) {
                    None
                } else {
                    store::row_at(trees, t, p)
                }
        }),
    decreases rows.len(),
{
    let done = executor::deleting(rows, trees, table, indexes, returning, out, events);
    if rows.len() > 0 {
        let (pk, row) = rows[0];
        let entry = as_entry();
        assert(store::row_at(trees, table, entry(rows[0]).0) == Some(row));
        if let Ok(next_out) = executor::given_back(table, row, returning, out) {
            lemma_row_deleted(trees, table, pk, row, indexes);
            let after = store_helpers::row_deleted(trees, table, pk, row, indexes).1;
            lemma_fit_changed(after, trees, table, schema, pk, None);
            let rest = rows.drop_first();
            assert forall|i: int| 0 <= i < rest.len() implies store::row_at(
                after,
                table,
                entry(#[trigger] rest[i]).0,
            ) == Some(entry(rest[i]).1) by {
                assert(rest[i] == rows[i + 1]);
                assert(entry(rows[0]).0 != entry(rows[i + 1]).0);
                assert(store::row_at(trees, table, entry(rows[i + 1]).0) == Some(
                    entry(rows[i + 1]).1,
                ));
            }
            assert forall|i: int, j: int| 0 <= i < j < rest.len() implies entry(
                #[trigger] rest[i],
            ).0 != entry(#[trigger] rest[j]).0 by {
                assert(entry(rows[i + 1]).0 != entry(rows[j + 1]).0);
            }
            let more = events.push(EventModel::RowDeleted { table, pk, row });
            lemma_deleting(rest, after, table, schema, indexes, returning, next_out, more);
            lemma_outside_twice(done.trees, after, trees, table, indexes);
            if done.result is Ok {
                assert forall|t: Seq<char>, p: KeyModel| #[trigger]
                    store::row_at(done.trees, t, p) == (if t == table && listed(rows, p) {
                    None
                } else {
                    store::row_at(trees, t, p)
                }) by {
                    lemma_listed_step(rows, p);
                    assert(store::row_at(after, t, p) == if t == table && p == pk {
                        None
                    } else {
                        store::row_at(trees, t, p)
                    });
                }
            }
        }
    }
}

/// A primary key is that of one of the rows.
pub open spec fn listed(rows: Seq<(KeyModel, RowModel)>, pk: KeyModel) -> bool {
    exists|i: int| 0 <= i < rows.len() && (#[trigger] rows[i]).0 == pk
}

proof fn lemma_listed_step(rows: Seq<(KeyModel, RowModel)>, pk: KeyModel)
    requires
        rows.len() > 0,
    ensures
        listed(rows, pk) <==> (rows[0].0 == pk || listed(rows.drop_first(), pk)),
{
    let rest = rows.drop_first();
    if listed(rows, pk) {
        let i = choose|i: int| 0 <= i < rows.len() && (#[trigger] rows[i]).0 == pk;
        if i > 0 {
            assert(rest[i - 1] == rows[i]);
        }
    }
    if listed(rest, pk) {
        let i = choose|i: int| 0 <= i < rest.len() && (#[trigger] rest[i]).0 == pk;
        assert(rows[i + 1] == rest[i]);
    }
}

/// Law: a delete takes out the rows that meet its condition and no others, and
/// leaves the table in order; where nothing is to be given back it succeeds.
pub proof fn law_delete_keeps_table(
    c: CatalogModel,
    trees: Trees,
    table: Seq<char>,
    predicate: Option<PredicateModel>,
    returning: Option<Seq<ColumnRef>>,
)
    requires
        c.tables.contains_key(table),
        well_kept(trees, table, c.tables[table], catalog::indexes_of(c.indexes, table)),
    ensures
        ({
            let done = executor::deleted(c, trees, table, predicate, returning);
            let indexes = catalog::indexes_of(c.indexes, table);
            &&& well_kept(done.trees, table, c.tables[table], indexes)
            &&& same_outside(done.trees, trees, table, indexes)
            &&& returning is None ==> done.result is Ok
            &&& done.result is Ok ==> forall|t: Seq<char>, p: KeyModel| #[trigger]
                store::row_at(done.trees, t, p) == if t == table && listed(
                    store_helpers::matching_rows(trees, table, predicate),
                    p,
                ) {
                    None
                } else {
                    store::row_at(trees, t, p)
                }
        }),
{
    lemma_matching_rows(trees, table, predicate);
    lemma_keys_fit(trees, table, c.tables[table]);
    lemma_deleting(
        store_helpers::matching_rows(trees, table, predicate),
        trees,
        table,
        c.tables[table],
        catalog::indexes_of(c.indexes, table),
        returning,
        Seq::empty(),
        Seq::empty(),
    );
}

/// The entry of a row to update.
pub open spec fn target_entry() -> spec_fn(UpdateModel) -> (KeyModel, RowModel) {
    |u: UpdateModel| (u.0, u.1)
}

/// Replacing a row leaves the table in order.
proof fn lemma_row_replaced(
    plan: UpdatePlan,
    trees: Trees,
    old_pk: KeyModel,
    old_row: RowModel,
    new_row: RowModel,
)
    requires
        well_kept(trees, plan.table, plan.schema, plan.indexes),
        store::row_at(trees, plan.table, old_pk) == Some(old_row),
        executor::row_replaced(plan, trees, old_pk, old_row, new_row).0 is Ok,
    ensures
        ({
            let (result, after) = executor::row_replaced(plan, trees, old_pk, old_row, new_row);
            let pk = result->Ok_0;
            &&& well_kept(after, plan.table, plan.schema, plan.indexes)
            &&& same_outside(after, trees, plan.table, plan.indexes)
            &&& pk == old_pk || store::row_at(trees, plan.table, pk) is None
            &&& forall|t: Seq<char>, p: KeyModel| #[trigger]
                store::row_at(after, t, p) == if t == plan.table && p == pk {
                    Some(new_row)
                } else if t == plan.table && p == old_pk {
                    None
                } else {
                    store::row_at(trees, t, p)
                }
        }),
{
    let table = plan.table;
    let pk = schema::primary_key_of(plan.schema, new_row)->Ok_0;
    let middle = store_helpers::row_deleted(trees, table, old_pk, old_row, plan.indexes).1;
    lemma_row_deleted(trees, table, old_pk, old_row, plan.indexes);
    lemma_fit_changed(middle, trees, table, plan.schema, old_pk, None);
    assert(store::row_at(middle, table, pk) is None);
    let after = executor::row_added(middle, table, pk, new_row, plan.indexes).1;
    lemma_row_added(middle, table, pk, new_row, plan.indexes);
    lemma_added_rows(middle, table, pk, new_row, plan.indexes);
    lemma_added_outside(middle, table, pk, new_row, plan.indexes);
    lemma_outside_twice(after, middle, trees, table, plan.indexes);
    lemma_fit_changed(after, middle, table, plan.schema, pk, Some(new_row));
    assert forall|t: Seq<char>, p: KeyModel| #[trigger]
        store::row_at(after, t, p) == (if t == plan.table && p == pk {
        Some(new_row)
    } else if t == plan.table && p == old_pk {
        None
    } else {
        store::row_at(trees, t, p)
    }) by {
        assert(store::row_at(middle, t, p) == if t == table && p == old_pk {
            None
        } else {
            store::row_at(trees, t, p)
        });
    }
}

/// A table has a row under a primary key.
pub open spec fn has_entry(trees: Trees, table: Seq<char>, entry: (KeyModel, RowModel)) -> bool {
    store::row_at(trees, table, entry.0) == Some(entry.1)
}

/// What an update makes of a row: its new primary key and its new form.
pub open spec fn replaced_entry<F: Fn(FloatOp) -> u64>(
    f: F,
    plan: UpdatePlan,
    target: UpdateModel,
) -> (KeyModel, RowModel) {
    let row = update_expr::assigned(
        f,
        target.1,
        plan.assignments,
        plan.table,
        target.2,
        target.1,
    )->Ok_0;
    (schema::primary_key_of(plan.schema, row)->Ok_0, row)
}

/// An entry is what an update makes of one of the rows.
pub open spec fn is_replaced<F: Fn(FloatOp) -> u64>(
    f: F,
    plan: UpdatePlan,
    rows: Seq<UpdateModel>,
    entry: (KeyModel, RowModel),
) -> bool {
    exists|i: int| 0 <= i < rows.len() && #[trigger] replaced_entry(f, plan, rows[i]) == entry
}

/// The rows of a table after an update: those that were not to be updated, as
/// they were, and the others in their new form.
pub open spec fn rows_updated<F: Fn(FloatOp) -> u64>(
    f: F,
    plan: UpdatePlan,
    rows: Seq<UpdateModel>,
    after: Trees,
    trees: Trees,
) -> bool {
    forall|e: (KeyModel, RowModel)| #[trigger]
        has_entry(after, plan.table, e) <==> (has_entry(trees, plan.table, e)
            && !executor::has_key(rows, e.0)) || is_replaced(f, plan, rows, e)
}

proof fn lemma_replaced_step<F: Fn(FloatOp) -> u64>(
    f: F,
    plan: UpdatePlan,
    rows: Seq<UpdateModel>,
    entry: (KeyModel, RowModel),
)
    requires
        rows.len() > 0,
    ensures
        is_replaced(f, plan, rows, entry) <==> (replaced_entry(f, plan, rows[0]) == entry
            || is_replaced(f, plan, rows.drop_first(), entry)),
        executor::has_key(rows, entry.0) <==> (rows[0].0 == entry.0 || executor::has_key(
            rows.drop_first(),
            entry.0,
        )),
{
    let rest = rows.drop_first();
    if is_replaced(f, plan, rows, entry) {
        let i = choose|i: int|
            0 <= i < rows.len() && #[trigger] replaced_entry(f, plan, rows[i]) == entry;
        if i > 0 {
            assert(rest[i - 1] == rows[i]);
            assert(replaced_entry(f, plan, rest[i - 1]) == entry);
        }
    }
    if is_replaced(f, plan, rest, entry) {
        let i = choose|i: int|
            0 <= i < rest.len() && #[trigger] replaced_entry(f, plan, rest[i]) == entry;
        assert(rows[i + 1] == rest[i]);
        assert(replaced_entry(f, plan, rows[i + 1]) == entry);
    }
    if executor::has_key(rows, entry.0) {
        let i = choose|i: int| 0 <= i < rows.len() && (#[trigger] rows[i]).0 == entry.0;
        if i > 0 {
            assert(rest[i - 1] == rows[i]);
        }
    }
    if executor::has_key(rest, entry.0) {
        let i = choose|i: int| 0 <= i < rest.len() && (#[trigger] rest[i]).0 == entry.0;
        assert(rows[i + 1] == rest[i]);
    }
}

/// Updating rows that are there leaves the table in order.
proof fn lemma_updating<F: Fn(FloatOp) -> u64>(
    f: F,
    plan: UpdatePlan,
    rows: Seq<UpdateModel>,
    trees: Trees,
    out: Seq<RowModel>,
    events: Seq<EventModel>,
)
    requires
        well_kept(trees, plan.table, plan.schema, plan.indexes),
        rows_there(trees, plan.table, rows, target_entry()),
        executor::updating(f, plan, rows, trees, out, events).result is Ok,
    ensures
        ({
            let after = executor::updating(f, plan, rows, trees, out, events).trees;
            &&& well_kept(after, plan.table, plan.schema, plan.indexes)
            &&& same_outside(after, trees, plan.table, plan.indexes)
            &&& rows_updated(f, plan, rows, after, trees)
        }),
    decreases rows.len(),
{
    if rows.len() > 0 {
        let (old_pk, old_row, joined) = rows[0];
        let entry = target_entry();
        let table = plan.table;
        assert(store::row_at(trees, table, entry(rows[0]).0) == Some(old_row));
        let new_row = update_expr::assigned(
            f,
            old_row,
            plan.assignments,
            table,
            joined,
            old_row,
        )->Ok_0;
        let (result, after) = executor::row_replaced(plan, trees, old_pk, old_row, new_row);
        let pk = result->Ok_0;
        lemma_row_replaced(plan, trees, old_pk, old_row, new_row);
        let rest = rows.drop_first();
        assert forall|i: int| 0 <= i < rest.len() implies store::row_at(
            after,
            table,
            entry(#[trigger] rest[i]).0,
        ) == Some(entry(rest[i]).1) by {
            assert(rest[i] == rows[i + 1]);
            assert(entry(rows[0]).0 != entry(rows[i + 1]).0);
            assert(store::row_at(trees, table, entry(rows[i + 1]).0) == Some(
                entry(rows[i + 1]).1,
            ));
        }
        assert forall|i: int, j: int| 0 <= i < j < rest.len() implies entry(#[trigger] rest[i]).0
            != entry(#[trigger] rest[j]).0 by {
            assert(entry(rows[i + 1]).0 != entry(rows[j + 1]).0);
        }
        let next_out = executor::given_back(table, new_row, plan.returning, out)->Ok_0;
        let more = events.push(EventModel::RowUpdated { table, pk, old_row, new_row });
        lemma_updating(f, plan, rest, after, next_out, more);
        let last = executor::updating(f, plan, rows, trees, out, events).trees;
        lemma_outside_twice(last, after, trees, table, plan.indexes);
        if executor::has_key(rest, pk) {
            let i = choose|i: int| 0 <= i < rest.len() && (#[trigger] rest[i]).0 == pk;
            assert(entry(rest[i]).0 == pk);
            assert(rest[i] == rows[i + 1]);
            assert(entry(rows[0]).0 != entry(rows[i + 1]).0);
            assert(store::row_at(trees, table, entry(rows[i + 1]).0) is Some);
            assert(false);
        }
        assert forall|e: (KeyModel, RowModel)| #[trigger]
            has_entry(last, table, e) <==> (has_entry(trees, table, e) && !executor::has_key(
                rows,
                e.0,
            )) || is_replaced(f, plan, rows, e) by {
            lemma_replaced_step(f, plan, rows, e);
            assert(has_entry(last, table, e) <==> (has_entry(after, table, e)
                && !executor::has_key(rest, e.0)) || is_replaced(f, plan, rest, e));
            assert(replaced_entry(f, plan, rows[0]) == (pk, new_row));
        }
    } else {
        assert(same_outside(trees, trees, plan.table, plan.indexes));
    }
}

/// The rows to update that joined rows hold are those of the table.
proof fn lemma_targets(
    trees: Trees,
    states: Seq<StateModel>,
    schema: TableModel,
    table: Seq<char>,
    tables: Seq<Seq<char>>,
    so_far: Seq<UpdateModel>,
)
    requires
        trees.dom().finite(),
        rows_fit(trees, table, schema),
        join_laws::all_drawn(states, join_builder::rows_by_table(trees, tables)),
        rows_there(trees, table, so_far, target_entry()),
    ensures
        executor::targets(states, schema, table, so_far) matches Ok(rows) ==> rows_there(
            trees,
            table,
            rows,
            target_entry(),
        ),
    decreases states.len(),
{
    if states.len() > 0 {
        let rows = join_builder::rows_by_table(trees, tables);
        let rest = states.drop_first();
        assert forall|i: int| 0 <= i < rest.len() implies join_laws::drawn(
            #[trigger] rest[i],
            rows,
        ) by {
            assert(rest[i] == states[i + 1]);
        }
        let state = states[0];
        assert(join_laws::drawn(state, rows));
        if !(state.contains_key(table) && state[table] is Some) {
            lemma_targets(trees, rest, schema, table, tables, so_far);
        } else {
            let row = state[table]->0;
            let pk = schema::primary_key_of(schema, row)->Ok_0;
            let list = store::table_rows(trees, table);
            let only = join_builder::rows_in(rows, table);
            assert(only.contains(row));
            let i = choose|i: int| 0 <= i < only.len() && only[i] == row;
            assert(only == join_builder::rows_only(list));
            assert(list[i].1 == row);
            lemma_tree_listed(trees, persistence::rows_of(table));
            assert(trees.contains_key((persistence::rows_of(table), list[i].0)));
            assert(store::row_at(trees, table, list[i].0) == Some(row));
            assert(row_fits(trees, table, schema, list[i].0));
            assert(pk == list[i].0);
            if !executor::has_key(so_far, pk) {
                let next = so_far.push((pk, row, Some(state)));
                let entry = target_entry();
                assert forall|i: int| 0 <= i < next.len() implies store::row_at(
                    trees,
                    table,
                    entry(#[trigger] next[i]).0,
                ) == Some(entry(next[i]).1) by {
                    if i < so_far.len() {
                        assert(next[i] == so_far[i]);
                    }
                }
                assert forall|i: int, j: int| 0 <= i < j < next.len() implies entry(
                    #[trigger] next[i],
                ).0 != entry(#[trigger] next[j]).0 by {
                    assert(next[i] == so_far[i]);
                    if j < so_far.len() {
                        assert(next[j] == so_far[j]);
                    } else {
                        assert(so_far[i].0 != pk);
                    }
                }
                lemma_targets(trees, rest, schema, table, tables, next);
            }
        }
    }
}

/// The rows that an UPDATE changes are those of the table.
pub proof fn lemma_update_targets(
    trees: Trees,
    schema: TableModel,
    table: Seq<char>,
    joins: Seq<JoinModel>,
    from_tables: Seq<Seq<char>>,
    predicate: Option<PredicateModel>,
)
    requires
        trees.dom().finite(),
        rows_fit(trees, table, schema),
    ensures
        executor::update_targets(trees, schema, table, joins, from_tables, predicate) matches Ok(
            rows,
        ) ==> rows_there(trees, table, rows, target_entry()),
{
    if joins.len() == 0 && from_tables.len() == 0 {
        lemma_matching_rows(trees, table, predicate);
        let found = store_helpers::matching_rows(trees, table, predicate);
        let rows = executor::alone(found);
        let entry = target_entry();
        let whole = as_entry();
        assert forall|i: int| 0 <= i < rows.len() implies store::row_at(
            trees,
            table,
            entry(#[trigger] rows[i]).0,
        ) == Some(entry(rows[i]).1) by {
            assert(store::row_at(trees, table, whole(found[i]).0) == Some(whole(found[i]).1));
        }
        assert forall|i: int, j: int| 0 <= i < j < rows.len() implies entry(#[trigger] rows[i]).0
            != entry(#[trigger] rows[j]).0 by {
            assert(whole(found[i]).0 != whole(found[j]).0);
        }
    } else {
        let tables = join_builder::tables_read(table, from_tables, joins);
        let rows = join_builder::rows_by_table(trees, tables);
        let template = join_builder::template_of(tables);
        join_laws::lemma_seeded(table, rows, tables);
        let seeded = join_builder::seeded(table, rows, template);
        join_laws::lemma_expanded(seeded, from_tables, rows);
        if let Ok(states) = join_builder::expanded(seeded, from_tables, rows) {
            join_laws::lemma_joined_within_limit(joins, rows, template, states);
            if let Ok(joined) = join_builder::joined_within_limit(joins, rows, template, states) {
                let met = select_orchestrator::filtered(joined, predicate, CacheModel::empty());
                assert forall|i: int| 0 <= i < met.len() implies join_laws::drawn(
                    #[trigger] met[i],
                    rows,
                ) by {
                    if let Some(p) = predicate {
                        let at = store_helpers::lemma_kept_member(
                            joined,
                            select_pipeline::meets(p, CacheModel::empty()),
                            i,
                        );
                        assert(join_laws::drawn(joined[at], rows));
                    }
                }
                lemma_targets(trees, met, schema, table, tables, Seq::empty());
            }
        }
    }
}

/// Law: an update that succeeds replaces the rows that it is for by their new
/// forms and changes nothing else, and leaves its table in order; without
/// assignments it changes nothing.
pub proof fn law_update_keeps_table<F: Fn(FloatOp) -> u64>(
    f: F,
    c: CatalogModel,
    trees: Trees,
    table: Seq<char>,
    assignments: Seq<AssignmentModel>,
    predicate: Option<PredicateModel>,
    joins: Seq<JoinModel>,
    from_tables: Seq<Seq<char>>,
    returning: Option<Seq<ColumnRef>>,
)
    requires
        c.tables.contains_key(table),
        well_kept(trees, table, c.tables[table], catalog::indexes_of(c.indexes, table)),
        executor::updated(
            f,
            c,
            trees,
            table,
            assignments,
            predicate,
            joins,
            from_tables,
            returning,
        ).result is Ok,
    ensures
        ({
            let after = executor::updated(
                f,
                c,
                trees,
                table,
                assignments,
                predicate,
                joins,
                from_tables,
                returning,
            ).trees;
            let indexes = catalog::indexes_of(c.indexes, table);
            let schema = c.tables[table];
            let rows = executor::update_targets(
                trees,
                schema,
                table,
                joins,
                from_tables,
                predicate,
            );
            let plan = UpdatePlan { schema, table, indexes, assignments, returning };
            &&& well_kept(after, table, schema, indexes)
            &&& same_outside(after, trees, table, indexes)
            &&& if assignments.len() == 0 {
                after == trees
            } else {
                rows is Ok && rows_updated(f, plan, rows->Ok_0, after, trees)
            }
        }),
{
    let schema = c.tables[table];
    let indexes = catalog::indexes_of(c.indexes, table);
    if assignments.len() > 0 {
        lemma_update_targets(trees, schema, table, joins, from_tables, predicate);
        let rows = executor::update_targets(
            trees,
            schema,
            table,
            joins,
            from_tables,
            predicate,
        )->Ok_0;
        let plan = UpdatePlan { schema, table, indexes, assignments, returning };
        lemma_updating(f, plan, rows, trees, Seq::empty(), Seq::empty());
    } else {
        assert(same_outside(trees, trees, table, indexes));
    }
}

} // verus!
