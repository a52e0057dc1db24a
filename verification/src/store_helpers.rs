//! What is done with the rows and index entries of a transaction.
use vstd::prelude::*;
use crate::error::{self, schema_mismatch, EngineError, ErrorModel};
use crate::plain::{self, no_items, push_back, Plain};
use crate::predicate;
use crate::query::{PredicateModel, QualifiedPredicate, QueryModel};
use crate::schema::{self, IndexModel, IndexSchema};
use crate::store::{self, IndexStore, KeyModel, RowModel, RowStore, Trees, TreeView};
use crate::value::{self, EngineKey, EngineRow, PrimaryKey, ValueModel};

verus! {

/// The elements that `p` holds of, in order.
pub open spec fn kept<A>(list: Seq<A>, p: spec_fn(A) -> bool) -> Seq<A>
    decreases list.len(),
{
    if list.len() == 0 {
        Seq::empty()
    } else {
        let before = kept(list.drop_last(), p);
        if p(list.last()) {
            before.push(list.last())
        } else {
            before
        }
    }
}

/// What is kept comes from the list.
pub proof fn lemma_kept_member<A>(list: Seq<A>, p: spec_fn(A) -> bool, i: int) -> (at: int)
    requires
        0 <= i < kept(list, p).len(),
    ensures
        0 <= at < list.len(),
        list[at] == kept(list, p)[i],
    decreases list.len(),
{
    let before = kept(list.drop_last(), p);
    if i < before.len() {
        lemma_kept_member(list.drop_last(), p, i)
    } else {
        list.len() - 1
    }
}

/// What holds of an element keeps it.
pub proof fn lemma_kept_contains<A>(list: Seq<A>, p: spec_fn(A) -> bool, at: int) -> (i: int)
    requires
        0 <= at < list.len(),
        p(list[at]),
    ensures
        0 <= i < kept(list, p).len(),
        kept(list, p)[i] == list[at],
    decreases list.len(),
{
    if at == list.len() - 1 {
        kept(list, p).len() - 1
    } else {
        assert(list.drop_last()[at] == list[at]);
        lemma_kept_contains(list.drop_last(), p, at)
    }
}

/// All that is kept meets the condition.
pub proof fn lemma_kept_holds<A>(list: Seq<A>, p: spec_fn(A) -> bool, i: int)
    requires
        0 <= i < kept(list, p).len(),
    ensures
        p(kept(list, p)[i]),
    decreases list.len(),
{
    let before = kept(list.drop_last(), p);
    if i < before.len() {
        lemma_kept_holds(list.drop_last(), p, i);
    }
}

/// What is kept of one list and then of another.
pub proof fn lemma_kept_concat<A>(a: Seq<A>, b: Seq<A>, p: spec_fn(A) -> bool)
    ensures
        kept(a + b, p) == kept(a, p) + kept(b, p),
    decreases b.len(),
{
    if b.len() == 0 {
        assert(a + b =~= a);
        assert(kept(a, p) + kept(b, p) =~= kept(a, p));
    } else {
        assert((a + b).drop_last() =~= a + b.drop_last());
        assert((a + b).last() == b.last());
        lemma_kept_concat(a, b.drop_last(), p);
        assert(kept(a + b, p) =~= kept(a, p) + kept(b, p));
    }
}

/// Where all elements meet the condition, all are kept.
pub proof fn lemma_kept_all<A>(list: Seq<A>, p: spec_fn(A) -> bool)
    requires
        forall|i: int| 0 <= i < list.len() ==> p(#[trigger] list[i]),
    ensures
        kept(list, p) == list,
    decreases list.len(),
{
    if list.len() > 0 {
        let rest = list.drop_last();
        assert forall|i: int| 0 <= i < rest.len() implies p(#[trigger] rest[i]) by {
            assert(rest[i] == list[i]);
        }
        lemma_kept_all(rest, p);
        assert(p(list[list.len() - 1]));
        assert(rest.push(list.last()) =~= list);
    }
}

/// Where no element meets the condition, none is kept.
pub proof fn lemma_kept_none<A>(list: Seq<A>, p: spec_fn(A) -> bool)
    requires
        forall|i: int| 0 <= i < list.len() ==> !p(#[trigger] list[i]),
    ensures
        kept(list, p) == Seq::<A>::empty(),
    decreases list.len(),
{
    if list.len() > 0 {
        let rest = list.drop_last();
        assert forall|i: int| 0 <= i < rest.len() implies !p(#[trigger] rest[i]) by {
            assert(rest[i] == list[i]);
        }
        lemma_kept_none(rest, p);
        assert(!p(list[list.len() - 1]));
    }
}

/// What is kept of what meets a weaker condition is what is kept of all.
pub proof fn lemma_kept_twice<A>(list: Seq<A>, weak: spec_fn(A) -> bool, p: spec_fn(A) -> bool)
    requires
        forall|a: A| #[trigger] p(a) ==> weak(a),
    ensures
        kept(kept(list, weak), p) == kept(list, p),
    decreases list.len(),
{
    if list.len() > 0 {
        let rest = list.drop_last();
        lemma_kept_twice(rest, weak, p);
        let last = list.last();
        if weak(last) {
            let before = kept(rest, weak);
            assert(before.push(last).drop_last() =~= before);
        } else {
            assert(!p(last));
        }
    }
}

/// A row of a table meets a condition. A subquery is taken to give nothing.
pub open spec fn meets(
    predicate: Option<PredicateModel>,
    table: Seq<char>,
    row: RowModel,
) -> bool {
    match predicate {
        None => true,
        Some(p) => predicate::holds(
            p,
            predicate::single_state(table, row),
            Map::<QueryModel, Seq<ValueModel>>::empty(),
        ),
    }
}

/// The rows of a table that meet a condition, in the order of their keys.
pub open spec fn matching_rows(
    trees: Trees,
    table: Seq<char>,
    predicate: Option<PredicateModel>,
) -> Seq<(KeyModel, RowModel)> {
    kept(
        store::table_rows(trees, table),
        |entry: (KeyModel, RowModel)| meets(predicate, table, entry.1),
    )
}

/// The rows of a table that meet a condition, if all its rows can be listed.
pub open spec fn rows_found(
    trees: Trees,
    table: Seq<char>,
    predicate: Option<PredicateModel>,
) -> Result<Seq<(KeyModel, RowModel)>, ErrorModel> {
    if store::keys_fit(store::table_rows(trees, table)) {
        Ok(matching_rows(trees, table, predicate))
    } else {
        Err(schema::no_primary_key())
    }
}

/// The rows of a table that meet a condition.
pub fn collect_table_rows<TX: RowStore>(
    tx: &TX,
    table_name: &str,
    predicate: Option<&QualifiedPredicate>,
) -> (r: Result<Vec<(PrimaryKey, EngineRow)>, EngineError>)
    ensures
        error::settles(
            r,
            tx.sound(),
            rows_found(tx.trees(), table_name@, predicate.deep_view()),
        ),
{
    let rows = match tx.range_table_rows(table_name) {
        Ok(rows) => rows,
        Err(e) => {
            return Err(e);
        },
    };
    let ghost all = rows.deep_view();
    let ghost p = |entry: (KeyModel, RowModel)|
        meets(predicate.deep_view(), table_name@, entry.1);
    let mut out: Vec<(PrimaryKey, EngineRow)> = no_items();
    let mut i: usize = 0;
    while i < rows.len()
        invariant
            i <= rows.len(),
            all == rows.deep_view(),
            p == (|entry: (KeyModel, RowModel)|
                meets(predicate.deep_view(), table_name@, entry.1)),
            out.deep_view() == kept(all.take(i as int), p),
        decreases rows.len() - i,
    {
        proof {
            assert(all[i as int] == (rows@[i as int].0.deep_view(), rows@[i as int].1.deep_view()));
            assert(all.take(i + 1).drop_last() =~= all.take(i as int));
            assert(all.take(i + 1).last() == all[i as int]);
        }
        let wanted = match predicate {
            None => true,
            Some(q) => q.matches_row(table_name, &rows[i].1),
        };
        if wanted {
            push_back(&mut out, rows[i].duplicate());
        }
        i += 1;
    }
    proof {
        assert(all.take(i as int) =~= all);
    }
    Ok(out)
}

/// The entries of a row taken out of indexes, one index after the other.
pub open spec fn entries_removed(
    trees: Trees,
    indexes: Seq<IndexModel>,
    row: RowModel,
    pk: KeyModel,
) -> (Result<(), ErrorModel>, Trees)
    decreases indexes.len(),
{
    if indexes.len() == 0 {
        (Ok(()), trees)
    } else {
        match schema::index_key_of(indexes[0], row) {
            Err(e) => (Err(e), trees),
            Ok(key) => entries_removed(
                store::without_entry(trees, indexes[0], key, pk),
                indexes.drop_first(),
                row,
                pk,
            ),
        }
    }
}

/// The entries of a row added to indexes, one index after the other.
pub open spec fn entries_added(
    trees: Trees,
    indexes: Seq<IndexModel>,
    row: RowModel,
    pk: KeyModel,
) -> (Result<(), ErrorModel>, Trees)
    decreases indexes.len(),
{
    if indexes.len() == 0 {
        (Ok(()), trees)
    } else {
        match schema::index_key_of(indexes[0], row) {
            Err(e) => (Err(e), trees),
            Ok(key) => entries_added(
                store::with_entry(trees, indexes[0], key, pk),
                indexes.drop_first(),
                row,
                pk,
            ),
        }
    }
}

/// Another row than that of `pk` has the index key.
pub open spec fn conflicts(trees: Trees, index: IndexModel, key: KeyModel, pk: KeyModel) -> bool {
    exists|i: int|
        0 <= i < store::index_entries(trees, index).len() && (
        #[trigger] store::index_entries(trees, index)[i]).0 == key && store::index_entries(
            trees,
            index,
        )[i].1 != pk
}

/// Whether a row may go into unique indexes: no other row has its index key.
pub open spec fn unique_check(
    trees: Trees,
    indexes: Seq<IndexModel>,
    row: RowModel,
    pk: KeyModel,
) -> Result<(), ErrorModel>
    decreases indexes.len(),
{
    if indexes.len() == 0 {
        Ok(())
    } else if !indexes[0].unique {
        unique_check(trees, indexes.drop_first(), row, pk)
    } else {
        match schema::index_key_of(indexes[0], row) {
            Err(e) => Err(e),
            Ok(key) => match first_conflict(store::index_entries(trees, indexes[0]), key, pk) {
                Err(e) => Err(e),
                Ok(Some(_)) => Err(ErrorModel::UniqueIndexViolation(indexes[0].name)),
                Ok(None) => unique_check(trees, indexes.drop_first(), row, pk),
            },
        }
    }
}

/// A row taken out of its table and of indexes.
pub open spec fn row_deleted(
    trees: Trees,
    table: Seq<char>,
    pk: KeyModel,
    row: RowModel,
    indexes: Seq<IndexModel>,
) -> (Result<(), ErrorModel>, Trees) {
    entries_removed(store::without_row(trees, table, pk), indexes, row, pk)
}

/// Keeps the entries of indexes in step with rows.
pub struct IndexMaintainer;

impl IndexMaintainer {
    /// Refuses a row whose index key another row has in a unique index.
    pub fn ensure_unique<TX: IndexStore>(
        tx: &TX,
        indexes: &Vec<IndexSchema>,
        row: &EngineRow,
        row_pk: &PrimaryKey,
    ) -> (r: Result<(), EngineError>)
        ensures
            error::settles(
                r,
                tx.sound(),
                unique_check(
                    tx.trees(),
                    indexes.deep_view(),
                    row.deep_view(),
                    row_pk.deep_view(),
                ),
            ),
    {
        let ghost all = indexes.deep_view();
        let ghost wanted = unique_check(tx.trees(), all, row.deep_view(), row_pk.deep_view());
        let mut i: usize = 0;
        proof {
            assert(all.skip(0) =~= all);
        }
        while i < indexes.len()
            invariant
                i <= indexes.len(),
                all == indexes.deep_view(),
                wanted == unique_check(
                    tx.trees(),
                    indexes.deep_view(),
                    row.deep_view(),
                    row_pk.deep_view(),
                ),
                wanted == unique_check(
                    tx.trees(),
                    all.skip(i as int),
                    row.deep_view(),
                    row_pk.deep_view(),
                ),
            decreases indexes.len() - i,
        {
            let index = &indexes[i];
            proof {
                assert(all.skip(i as int)[0] == index.deep_view());
                assert(all.skip(i as int).drop_first() =~= all.skip(i + 1));
            }
            if index.unique {
                let index_key = match index.key_for(row) {
                    Ok(index_key) => index_key,
                    Err(e) => {
                        return Err(e);
                    },
                };
                match find_conflicting_index_entry(tx, index, &index_key, row_pk) {
                    Ok(None) => {},
                    Ok(Some(_)) => {
                        return Err(EngineError::UniqueIndexViolation(index.name.clone()));
                    },
                    Err(e) => {
                        return Err(e);
                    },
                }
            }
            i += 1;
        }
        Ok(())
    }

    /// Adds the entries of a row.
    pub fn insert_entries<TX: IndexStore>(
        tx: &mut TX,
        indexes: &Vec<IndexSchema>,
        row: &EngineRow,
        primary_key: &PrimaryKey,
    ) -> (r: Result<(), EngineError>)
        ensures
            final(tx).sound() == old(tx).sound(),
            final(tx).base() == old(tx).base(),
            store::settles_with(
                r,
                old(tx).sound(),
                final(tx).trees(),
                entries_added(
                    old(tx).trees(),
                    indexes.deep_view(),
                    row.deep_view(),
                    primary_key.deep_view(),
                ),
            ),
    {
        let ghost all = indexes.deep_view();
        let ghost wanted = entries_added(
            tx.trees(),
            all,
            row.deep_view(),
            primary_key.deep_view(),
        );
        let mut i: usize = 0;
        proof {
            assert(all.skip(0) =~= all);
        }
        while i < indexes.len()
            invariant
                i <= indexes.len(),
                all == indexes.deep_view(),
                tx.sound() == old(tx).sound(),
                tx.base() == old(tx).base(),
                wanted == entries_added(
                    old(tx).trees(),
                    indexes.deep_view(),
                    row.deep_view(),
                    primary_key.deep_view(),
                ),
                wanted == entries_added(
                    tx.trees(),
                    all.skip(i as int),
                    row.deep_view(),
                    primary_key.deep_view(),
                ),
            decreases indexes.len() - i,
        {
            let index = &indexes[i];
            proof {
                assert(all.skip(i as int)[0] == index.deep_view());
                assert(all.skip(i as int).drop_first() =~= all.skip(i + 1));
            }
            let index_key = match index.key_for(row) {
                Ok(index_key) => index_key,
                Err(e) => {
                    return Err(e);
                },
            };
            match tx.insert_index_entry(index, &index_key, primary_key) {
                Ok(()) => {},
                Err(e) => {
                    return Err(e);
                },
            }
            i += 1;
        }
        Ok(())
    }

    /// Takes the entries of a row out.
    pub fn remove_entries<TX: IndexStore>(
        tx: &mut TX,
        indexes: &Vec<IndexSchema>,
        row: &EngineRow,
        primary_key: &PrimaryKey,
    ) -> (r: Result<(), EngineError>)
        ensures
            final(tx).sound() == old(tx).sound(),
            final(tx).base() == old(tx).base(),
            store::settles_with(
                r,
                old(tx).sound(),
                final(tx).trees(),
                entries_removed(
                    old(tx).trees(),
                    indexes.deep_view(),
                    row.deep_view(),
                    primary_key.deep_view(),
                ),
            ),
    {
        let ghost all = indexes.deep_view();
        let ghost wanted = entries_removed(
            tx.trees(),
            all,
            row.deep_view(),
            primary_key.deep_view(),
        );
        let mut i: usize = 0;
        proof {
            assert(all.skip(0) =~= all);
        }
        while i < indexes.len()
            invariant
                i <= indexes.len(),
                all == indexes.deep_view(),
                tx.sound() == old(tx).sound(),
                tx.base() == old(tx).base(),
                wanted == entries_removed(
                    old(tx).trees(),
                    indexes.deep_view(),
                    row.deep_view(),
                    primary_key.deep_view(),
                ),
                wanted == entries_removed(
                    tx.trees(),
                    all.skip(i as int),
                    row.deep_view(),
                    primary_key.deep_view(),
                ),
            decreases indexes.len() - i,
        {
            let index = &indexes[i];
            proof {
                assert(all.skip(i as int)[0] == index.deep_view());
                assert(all.skip(i as int).drop_first() =~= all.skip(i + 1));
            }
            let index_key = match index.key_for(row) {
                Ok(index_key) => index_key,
                Err(e) => {
                    return Err(e);
                },
            };
            match tx.delete_index_entry(index, &index_key, primary_key) {
                Ok(()) => {},
                Err(e) => {
                    return Err(e);
                },
            }
            i += 1;
        }
        Ok(())
    }
}

/// Takes a row out of its table and of indexes.
pub fn delete_row<TX: RowStore + IndexStore>(
    tx: &mut TX,
    table_name: &str,
    primary_key: &PrimaryKey,
    row: &EngineRow,
    indexes: &Vec<IndexSchema>,
) -> (r: Result<(), EngineError>)
    ensures
        final(tx).sound() == old(tx).sound(),
        final(tx).base() == old(tx).base(),
        store::settles_with(
            r,
            old(tx).sound(),
            final(tx).trees(),
            row_deleted(
                old(tx).trees(),
                table_name@,
                primary_key.deep_view(),
                row.deep_view(),
                indexes.deep_view(),
            ),
        ),
{
    match tx.remove_table_row(table_name, primary_key) {
        Ok(_) => {},
        Err(e) => {
            return Err(e);
        },
    }
    IndexMaintainer::remove_entries(tx, indexes, row, primary_key)
}

/// The trees without the rows of a list.
pub open spec fn rows_removed(trees: Trees, table: Seq<char>, rows: Seq<(KeyModel, RowModel)>) -> Trees
    decreases rows.len(),
{
    if rows.len() == 0 {
        trees
    } else {
        rows_removed(store::without_row(trees, table, rows[0].0), table, rows.drop_first())
    }
}

/// Takes all rows of a table out.
pub fn remove_table_rows<TX: RowStore>(tx: &mut TX, table_name: &str) -> (r: Result<
    (),
    EngineError,
>)
    ensures
        final(tx).sound() == old(tx).sound(),
        final(tx).base() == old(tx).base(),
        store::settles_with(
            r,
            old(tx).sound(),
            final(tx).trees(),
            match store::listed_rows(old(tx).trees(), table_name@) {
                Ok(rows) => (
                    Ok::<(), ErrorModel>(()),
                    rows_removed(old(tx).trees(), table_name@, rows),
                ),
                Err(e) => (Err(e), old(tx).trees()),
            },
        ),
{
    let rows = match tx.range_table_rows(table_name) {
        Ok(rows) => rows,
        Err(e) => {
            return Err(e);
        },
    };
    let ghost all = rows.deep_view();
    let ghost wanted = rows_removed(tx.trees(), table_name@, all);
    let mut i: usize = 0;
    proof {
        assert(all.skip(0) =~= all);
    }
    while i < rows.len()
        invariant
            i <= rows.len(),
            all == rows.deep_view(),
            tx.sound() == old(tx).sound(),
            tx.base() == old(tx).base(),
            wanted == rows_removed(tx.trees(), table_name@, all.skip(i as int)),
        decreases rows.len() - i,
    {
        proof {
            assert(all.skip(i as int)[0].0 == rows@[i as int].0.deep_view());
            assert(all.skip(i as int).drop_first() =~= all.skip(i + 1));
        }
        match tx.remove_table_row(table_name, &rows[i].0) {
            Ok(_) => {},
            Err(e) => {
                return Err(e);
            },
        }
        i += 1;
    }
    Ok(())
}

/// The trees without the entries of a list.
pub open spec fn entries_dropped(
    trees: Trees,
    index: IndexModel,
    entries: Seq<(KeyModel, KeyModel)>,
) -> Trees
    decreases entries.len(),
{
    if entries.len() == 0 {
        trees
    } else {
        entries_dropped(
            store::without_entry(trees, index, entries[0].0, entries[0].1),
            index,
            entries.drop_first(),
        )
    }
}

/// The entries of a list, if all hold primary keys.
pub open spec fn entries_read(entries: Seq<(KeyModel, KeyModel)>) -> Result<
    Seq<(KeyModel, KeyModel)>,
    ErrorModel,
> {
    if store::entries_fit(entries) {
        Ok(entries)
    } else {
        Err(schema::no_primary_key())
    }
}

/// The entries of an index.
fn collect_index_entries<TX: IndexStore>(tx: &TX, index: &IndexSchema) -> (r: Result<
    Vec<(EngineKey, PrimaryKey)>,
    EngineError,
>)
    ensures
        error::settles(
            r,
            tx.sound(),
            entries_read(store::index_entries(tx.trees(), index.deep_view())),
        ),
{
    let list = match tx.range_index_entries(index) {
        Ok(list) => list,
        Err(e) => {
            return Err(e);
        },
    };
    let ghost all = store::index_entries(tx.trees(), index.deep_view());
    let mut out: Vec<(EngineKey, PrimaryKey)> = no_items();
    let mut i: usize = 0;
    while i < list.len()
        invariant
            i <= list.len(),
            store::are_entries(list@, all),
            all == store::index_entries(tx.trees(), index.deep_view()),
            out.deep_view() == all.take(i as int),
            store::entries_fit(all.take(i as int)),
        decreases list.len() - i,
    {
        assert(plain::outcome(list@[i as int]) == store::entry_read(all[i as int]));
        match &list[i] {
            Ok(entry) => {
                push_back(&mut out, entry.duplicate());
            },
            Err(e) => {
                assert(!value::is_primary_key(all[i as int].1));
                return Err(e.duplicate());
            },
        }
        proof {
            let next = all.take(i + 1);
            assert(out.deep_view() =~= next);
            assert forall|j: int| 0 <= j < next.len() implies value::is_primary_key(
                (#[trigger] next[j]).1,
            ) by {
                if j < i {
                    assert(next[j] == all.take(i as int)[j]);
                }
            }
        }
        i += 1;
    }
    proof {
        assert(all.take(i as int) =~= all);
    }
    Ok(out)
}

/// Takes all entries of an index out.
pub fn remove_index_entries<TX: IndexStore>(tx: &mut TX, index: &IndexSchema) -> (r: Result<
    (),
    EngineError,
>)
    ensures
        final(tx).sound() == old(tx).sound(),
        final(tx).base() == old(tx).base(),
        store::settles_with(
            r,
            old(tx).sound(),
            final(tx).trees(),
            match entries_read(store::index_entries(old(tx).trees(), index.deep_view())) {
                Ok(entries) => (
                    Ok::<(), ErrorModel>(()),
                    entries_dropped(old(tx).trees(), index.deep_view(), entries),
                ),
                Err(e) => (Err(e), old(tx).trees()),
            },
        ),
{
    let entries = match collect_index_entries(tx, index) {
        Ok(entries) => entries,
        Err(e) => {
            return Err(e);
        },
    };
    let ghost all = entries.deep_view();
    let ghost wanted = entries_dropped(tx.trees(), index.deep_view(), all);
    let mut i: usize = 0;
    proof {
        assert(all.skip(0) =~= all);
    }
    while i < entries.len()
        invariant
            i <= entries.len(),
            all == entries.deep_view(),
            tx.sound() == old(tx).sound(),
            tx.base() == old(tx).base(),
            wanted == entries_dropped(tx.trees(), index.deep_view(), all.skip(i as int)),
        decreases entries.len() - i,
    {
        proof {
            assert(all.skip(i as int)[0] == (
                entries@[i as int].0.deep_view(),
                entries@[i as int].1.deep_view(),
            ));
            assert(all.skip(i as int).drop_first() =~= all.skip(i + 1));
        }
        match tx.delete_index_entry(index, &entries[i].0, &entries[i].1) {
            Ok(()) => {},
            Err(e) => {
                return Err(e);
            },
        }
        i += 1;
    }
    Ok(())
}

/// The primary key of the first other row with the index key, if there is one.
/// The search ends at an entry without a primary key.
pub open spec fn first_conflict(
    entries: Seq<(KeyModel, KeyModel)>,
    key: KeyModel,
    pk: KeyModel,
) -> Result<Option<KeyModel>, ErrorModel>
    decreases entries.len(),
{
    if entries.len() == 0 {
        Ok(None)
    } else if !value::is_primary_key(entries[0].1) {
        Err(schema::no_primary_key())
    } else if entries[0].0 == key && entries[0].1 != pk {
        Ok(Some(entries[0].1))
    } else {
        first_conflict(entries.drop_first(), key, pk)
    }
}

/// Where a search finds nothing, no other row has the index key.
pub proof fn lemma_no_conflict(entries: Seq<(KeyModel, KeyModel)>, key: KeyModel, pk: KeyModel)
    requires
        first_conflict(entries, key, pk) == Ok::<Option<KeyModel>, ErrorModel>(None),
    ensures
        forall|i: int|
            0 <= i < entries.len() ==> (#[trigger] entries[i]).0 != key || entries[i].1 == pk,
    decreases entries.len(),
{
    if entries.len() > 0 {
        let rest = entries.drop_first();
        lemma_no_conflict(rest, key, pk);
        assert forall|i: int| 0 <= i < entries.len() implies (#[trigger] entries[i]).0 != key
            || entries[i].1 == pk by {
            if i > 0 {
                assert(rest[i - 1] == entries[i]);
            }
        }
    }
}

/// Another row than that of `row_pk` with the index key.
pub fn find_conflicting_index_entry<TX: IndexStore>(
    tx: &TX,
    index: &IndexSchema,
    index_key: &EngineKey,
    row_pk: &PrimaryKey,
) -> (r: Result<Option<PrimaryKey>, EngineError>)
    ensures
        error::settles(
            r,
            tx.sound(),
            first_conflict(
                store::index_entries(tx.trees(), index.deep_view()),
                index_key.deep_view(),
                row_pk.deep_view(),
            ),
        ),
{
    let list = match tx.range_index_entries(index) {
        Ok(list) => list,
        Err(e) => {
            return Err(e);
        },
    };
    let ghost all = store::index_entries(tx.trees(), index.deep_view());
    let ghost key = index_key.deep_view();
    let ghost pk = row_pk.deep_view();
    proof {
        assert(all.skip(0) =~= all);
    }
    let mut i: usize = 0;
    while i < list.len()
        invariant
            i <= list.len(),
            store::are_entries(list@, all),
            all == store::index_entries(tx.trees(), index.deep_view()),
            key == index_key.deep_view(),
            pk == row_pk.deep_view(),
            first_conflict(all, key, pk) == first_conflict(all.skip(i as int), key, pk),
        decreases list.len() - i,
    {
        proof {
            assert(plain::outcome(list@[i as int]) == store::entry_read(all[i as int]));
            assert(all.skip(i as int)[0] == all[i as int]);
            assert(all.skip(i as int).drop_first() =~= all.skip(i + 1));
        }
        match &list[i] {
            Ok(entry) => {
                assert(entry.deep_view() == (entry.0.deep_view(), entry.1.deep_view()));
                if entry.0.same(index_key) && !entry.1.same(row_pk) {
                    return Ok(Some(entry.1.duplicate()));
                }
            },
            Err(e) => {
                return Err(e.duplicate());
            },
        }
        i += 1;
    }
    Ok(None)
}

/// An entry is filed under the index key.
pub open spec fn filed_under(key: KeyModel) -> spec_fn((KeyModel, KeyModel)) -> bool {
    |entry: (KeyModel, KeyModel)| entry.0 == key
}

/// The primary key of an entry.
pub open spec fn primary_part() -> spec_fn((KeyModel, KeyModel)) -> KeyModel {
    |entry: (KeyModel, KeyModel)| entry.1
}

/// The primary keys of the rows with the index key.
pub open spec fn keys_under(entries: Seq<(KeyModel, KeyModel)>, key: KeyModel) -> Seq<KeyModel> {
    kept(entries, filed_under(key)).map_values(primary_part())
}

/// What an index tells of a condition: the primary keys of its rows.
pub open spec fn looked_up(trees: Trees, index: IndexModel, predicate: PredicateModel) -> Result<
    Seq<KeyModel>,
    ErrorModel,
> {
    match predicate::index_key_for(predicate, index) {
        None => Err(ErrorModel::SchemaMismatch("predicate does not match index key"@)),
        Some(key) => match entries_read(store::index_entries(trees, index)) {
            Err(e) => Err(e),
            Ok(entries) => Ok(keys_under(entries, key)),
        },
    }
}

/// The primary keys that an index gives for a condition.
pub fn lookup_index_row_pks<TX: IndexStore>(
    tx: &TX,
    index: &IndexSchema,
    predicate: &QualifiedPredicate,
) -> (r: Result<Vec<PrimaryKey>, EngineError>)
    ensures
        error::settles(
            r,
            tx.sound(),
            looked_up(tx.trees(), index.deep_view(), predicate.deep_view()),
        ),
{
    let index_key = match predicate.index_key_for(index) {
        Some(index_key) => index_key,
        None => {
            return Err(schema_mismatch("predicate does not match index key"));
        },
    };
    let entries = match collect_index_entries(tx, index) {
        Ok(entries) => entries,
        Err(e) => {
            return Err(e);
        },
    };
    let ghost all = entries.deep_view();
    let ghost key = index_key.deep_view();
    let ghost p = filed_under(key);
    let ghost second = primary_part();
    let mut out: Vec<PrimaryKey> = no_items();
    let mut i: usize = 0;
    proof {
        assert(kept(all.take(0), p).map_values(second) =~= Seq::empty());
    }
    while i < entries.len()
        invariant
            i <= entries.len(),
            all == entries.deep_view(),
            key == index_key.deep_view(),
            p == filed_under(key),
            second == primary_part(),
            out.deep_view() == kept(all.take(i as int), p).map_values(second),
        decreases entries.len() - i,
    {
        let ghost before = kept(all.take(i as int), p);
        proof {
            assert(all[i as int] == (
                entries@[i as int].0.deep_view(),
                entries@[i as int].1.deep_view(),
            ));
            assert(all.take(i + 1).drop_last() =~= all.take(i as int));
            assert(all.take(i + 1).last() == all[i as int]);
        }
        if entries[i].0.same(&index_key) {
            push_back(&mut out, entries[i].1.duplicate());
            proof {
                assert(before.push(all[i as int]).map_values(second) =~= before.map_values(
                    second,
                ).push(all[i as int].1));
            }
        }
        i += 1;
    }
    proof {
        assert(all.take(i as int) =~= all);
    }
    Ok(out)
}

/// The primary keys that an index gives for a condition. The rows are not
/// read.
pub fn lookup_primary_keys_by_index_predicate<TX: IndexStore>(
    tx: &TX,
    index: &IndexSchema,
    predicate: &QualifiedPredicate,
) -> (r: Result<Vec<PrimaryKey>, EngineError>)
    ensures
        error::settles(
            r,
            tx.sound(),
            looked_up(tx.trees(), index.deep_view(), predicate.deep_view()),
        ),
{
    lookup_index_row_pks(tx, index, predicate)
}

/// The rows under primary keys; a key without a row is left out.
pub open spec fn rows_under(trees: Trees, table: Seq<char>, keys: Seq<KeyModel>) -> Seq<RowModel>
    decreases keys.len(),
{
    if keys.len() == 0 {
        Seq::empty()
    } else {
        let before = rows_under(trees, table, keys.drop_last());
        match store::row_at(trees, table, keys.last()) {
            Some(row) => before.push(row),
            None => before,
        }
    }
}

/// The rows under primary keys.
pub fn materialize_rows_by_primary_keys<TX: RowStore>(
    tx: &TX,
    table_name: &str,
    row_pks: &Vec<PrimaryKey>,
) -> (r: Result<Vec<EngineRow>, EngineError>)
    ensures
        error::settles(
            r,
            tx.sound(),
            Ok::<Seq<RowModel>, ErrorModel>(
                rows_under(tx.trees(), table_name@, row_pks.deep_view()),
            ),
        ),
{
    let ghost all = row_pks.deep_view();
    let mut rows: Vec<EngineRow> = no_items();
    let mut i: usize = 0;
    while i < row_pks.len()
        invariant
            i <= row_pks.len(),
            all == row_pks.deep_view(),
            rows.deep_view() == rows_under(tx.trees(), table_name@, all.take(i as int)),
        decreases row_pks.len() - i,
    {
        proof {
            assert(all.take(i + 1).drop_last() =~= all.take(i as int));
            assert(all.take(i + 1).last() == row_pks@[i as int].deep_view());
        }
        match tx.get_table_row(table_name, &row_pks[i]) {
            Ok(Some(row)) => {
                push_back(&mut rows, row);
            },
            Ok(None) => {},
            Err(e) => {
                return Err(e);
            },
        }
        i += 1;
    }
    proof {
        assert(all.take(i as int) =~= all);
    }
    Ok(rows)
}

/// The rows under primary keys.
pub fn fetch_rows_by_primary_keys<TX: RowStore>(
    tx: &TX,
    table_name: &str,
    row_pks: &Vec<PrimaryKey>,
) -> (r: Result<Vec<EngineRow>, EngineError>)
    ensures
        error::settles(
            r,
            tx.sound(),
            Ok::<Seq<RowModel>, ErrorModel>(
                rows_under(tx.trees(), table_name@, row_pks.deep_view()),
            ),
        ),
{
    materialize_rows_by_primary_keys(tx, table_name, row_pks)
}

/// The rows of a table that an index gives for a condition.
pub fn lookup_index_rows<TX: RowStore + IndexStore>(
    tx: &TX,
    table_name: &str,
    index: &IndexSchema,
    predicate: &QualifiedPredicate,
) -> (r: Result<Vec<EngineRow>, EngineError>)
    ensures
        error::settles(
            r,
            tx.sound(),
            match looked_up(tx.trees(), index.deep_view(), predicate.deep_view()) {
                Err(e) => Err(e),
                Ok(keys) => Ok(rows_under(tx.trees(), table_name@, keys)),
            },
        ),
{
    match lookup_index_row_pks(tx, index, predicate) {
        Ok(row_pks) => materialize_rows_by_primary_keys(tx, table_name, &row_pks),
        Err(e) => Err(e),
    }
}

} // verus!
