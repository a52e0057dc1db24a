//! Stores behind a small interface: trees of keys and values, and tables of
//! rows.
use vstd::prelude::*;
use crate::error::{self, BTreeError, EngineError, ErrorModel};
use crate::in_memory::InMemoryBTree;
use crate::ordered_map::{self, KeyBound, OrderedKey};
use crate::patch;
use crate::plain::Plain;
use crate::query::QualifiedPredicate;
use crate::schema::IndexSchema;
use crate::store::{self, commit, EngineStore, RowModel, RowStore, TreeView};
use crate::store_helpers;
use crate::value::{EngineKey, EngineRow};

verus! {

/// A tree of keys and values, for a user to implement. A tree that is sound
/// never fails, and one that fails holds what it held.
pub trait BTree<K: OrderedKey, V: Plain>: Sized {
    /// What the tree holds.
    spec fn contents(&self) -> Map<K::V, V::V>;

    /// The tree never fails.
    spec fn sound(&self) -> bool;

    /// The value of a key.
    fn get_value(&self, key: &K) -> (r: Result<Option<V>, BTreeError>)
        ensures
            match r {
                Ok(v) => v.deep_view() == patch::lookup(self.contents(), key.deep_view()),
                Err(_) => !self.sound(),
            },
    ;

    /// Gives a key a value.
    fn insert_value(&mut self, key: K, value: V) -> (r: Result<(), BTreeError>)
        ensures
            final(self).sound() == old(self).sound(),
            match r {
                Ok(_) => final(self).contents() == old(self).contents().insert(
                    key.deep_view(),
                    value.deep_view(),
                ),
                Err(_) => !old(self).sound() && final(self).contents() == old(self).contents(),
            },
    ;

    /// Takes a key out.
    fn remove_value(&mut self, key: &K) -> (r: Result<Option<V>, BTreeError>)
        ensures
            final(self).sound() == old(self).sound(),
            match r {
                Ok(v) => v.deep_view() == patch::lookup(old(self).contents(), key.deep_view())
                    && final(self).contents() == old(self).contents().remove(key.deep_view()),
                Err(_) => !old(self).sound() && final(self).contents() == old(self).contents(),
            },
    ;

    /// The entries with keys in a range, in order.
    fn range_values(&self, lower: &KeyBound<K>, upper: &KeyBound<K>) -> (r: Result<
        Vec<(K, V)>,
        BTreeError,
    >)
        requires
            ordered_map::in_order(lower.deep_view(), upper.deep_view(), K::before()),
        ensures
            match r {
                Ok(entries) => entries.deep_view() == ordered_map::listing(
                    ordered_map::between(
                        self.contents(),
                        lower.deep_view(),
                        upper.deep_view(),
                        K::before(),
                    ),
                    K::before(),
                ),
                Err(_) => !self.sound(),
            },
    ;
}

impl<K: OrderedKey, V: Plain> BTree<K, V> for InMemoryBTree<K, V> {
    open spec fn contents(&self) -> Map<K::V, V::V> {
        self.deep_view()
    }

    open spec fn sound(&self) -> bool {
        true
    }

    fn get_value(&self, key: &K) -> (r: Result<Option<V>, BTreeError>) {
        self.get(key)
    }

    fn insert_value(&mut self, key: K, value: V) -> (r: Result<(), BTreeError>) {
        self.insert(key, value)
    }

    fn remove_value(&mut self, key: &K) -> (r: Result<Option<V>, BTreeError>) {
        self.remove(key)
    }

    fn range_values(&self, lower: &KeyBound<K>, upper: &KeyBound<K>) -> (r: Result<
        Vec<(K, V)>,
        BTreeError,
    >) {
        self.range(lower, upper)
    }
}

/// A tree behind its interface.
pub struct StoreFacade<B> {
    pub backend: B,
}

impl<B> StoreFacade<B> {
    pub fn new(backend: B) -> (r: StoreFacade<B>)
        ensures
            r.backend == backend,
    {
        StoreFacade { backend }
    }

    /// The value of a key.
    pub fn get<K: OrderedKey, V: Plain>(&self, key: &K) -> (r: Result<Option<V>, BTreeError>) where
        B: BTree<K, V>,

        ensures
            match r {
                Ok(v) => v.deep_view() == patch::lookup(self.backend.contents(), key.deep_view()),
                Err(_) => !self.backend.sound(),
            },
    {
        self.backend.get_value(key)
    }

    /// Gives a key a value.
    pub fn insert<K: OrderedKey, V: Plain>(&mut self, key: K, value: V) -> (r: Result<
        (),
        BTreeError,
    >) where B: BTree<K, V>,
        ensures
            final(self).backend.sound() == old(self).backend.sound(),
            match r {
                Ok(_) => final(self).backend.contents() == old(self).backend.contents().insert(
                    key.deep_view(),
                    value.deep_view(),
                ),
                Err(_) => !old(self).backend.sound() && final(self).backend.contents() == old(
                    self
                ).backend.contents(),
            },
    {
        self.backend.insert_value(key, value)
    }

    /// Takes a key out.
    pub fn remove<K: OrderedKey, V: Plain>(&mut self, key: &K) -> (r: Result<
        Option<V>,
        BTreeError,
    >) where B: BTree<K, V>,
        ensures
            final(self).backend.sound() == old(self).backend.sound(),
            match r {
                Ok(v) => v.deep_view() == patch::lookup(
                    old(self).backend.contents(),
                    key.deep_view(),
                ) && final(self).backend.contents() == old(self).backend.contents().remove(
                    key.deep_view(),
                ),
                Err(_) => !old(self).backend.sound() && final(self).backend.contents() == old(
                    self
                ).backend.contents(),
            },
    {
        self.backend.remove_value(key)
    }

    /// The entries with keys in a range, in order.
    pub fn range<K: OrderedKey, V: Plain>(&self, lower: &KeyBound<K>, upper: &KeyBound<K>) -> (r:
        Result<Vec<(K, V)>, BTreeError>) where B: BTree<K, V>,
        requires
            ordered_map::in_order(lower.deep_view(), upper.deep_view(), K::before()),
        ensures
            match r {
                Ok(entries) => entries.deep_view() == ordered_map::listing(
                    ordered_map::between(
                        self.backend.contents(),
                        lower.deep_view(),
                        upper.deep_view(),
                        K::before(),
                    ),
                    K::before(),
                ),
                Err(_) => !self.backend.sound(),
            },
    {
        self.backend.range_values(lower, upper)
    }
}

/// A store of tables, with a transaction around each call.
pub struct EngineStoreFacade<S> {
    pub store: S,
}

impl<S: EngineStore> EngineStoreFacade<S> {
    pub fn new(store: S) -> (r: EngineStoreFacade<S>)
        ensures
            r.store == store,
    {
        EngineStoreFacade { store }
    }

    /// The row under a primary key.
    pub fn get_table_row(&self, table_name: &str, primary_key: &EngineKey) -> (r: Result<
        Option<EngineRow>,
        EngineError,
    >)
        ensures
            error::settles(
                r,
                self.store.sound(),
                Ok::<Option<RowModel>, ErrorModel>(
                    store::row_at(self.store.trees(), table_name@, primary_key.deep_view()),
                ),
            ),
    {
        let tx = self.store.engine_transaction();
        proof {
            patch::law_empty_patch(self.store.trees());
        }
        tx.get_table_row(table_name, primary_key)
    }

    /// Puts a row under a primary key, and commits.
    pub fn insert_table_row(
        &mut self,
        table_name: &str,
        primary_key: EngineKey,
        row: EngineRow,
    ) -> (r: Result<(), EngineError>)
        ensures
            final(self).store.sound() == old(self).store.sound(),
            match r {
                Ok(_) => final(self).store.trees() == store::with_row(
                    old(self).store.trees(),
                    table_name@,
                    primary_key.deep_view(),
                    row.deep_view(),
                ),
                Err(_) => error::is_fault(r) && !old(self).store.sound()
                    && final(self).store.trees() == old(self).store.trees(),
            },
    {
        proof {
            patch::law_empty_patch(self.store.trees());
        }
        let mut tx = self.store.engine_transaction();
        match tx.insert_table_row(table_name, primary_key, row) {
            Ok(()) => {
                let changes = tx.into_changes();
                commit(&mut self.store, changes)
            },
            Err(e) => Err(e),
        }
    }

    /// Takes a row out of its table and of indexes, and commits. Where that
    /// fails nothing changes.
    pub fn delete_row(
        &mut self,
        table_name: &str,
        primary_key: &EngineKey,
        row: &EngineRow,
        indexes: &Vec<IndexSchema>,
    ) -> (r: Result<(), EngineError>)
        ensures
            final(self).store.sound() == old(self).store.sound(),
            ({
                let (result, after) = store_helpers::row_deleted(
                    old(self).store.trees(),
                    table_name@,
                    primary_key.deep_view(),
                    row.deep_view(),
                    indexes.deep_view(),
                );
                match r {
                    Ok(_) => result is Ok && final(self).store.trees() == after,
                    Err(e) => final(self).store.trees() == old(self).store.trees() && ((
                    error::is_fault(r) && !old(self).store.sound()) || result == Err::<
                        (),
                        ErrorModel,
                    >(e.deep_view())),
                }
            }),
    {
        proof {
            patch::law_empty_patch(self.store.trees());
        }
        let mut tx = self.store.engine_transaction();
        match store_helpers::delete_row(&mut tx, table_name, primary_key, row, indexes) {
            Ok(()) => {
                let changes = tx.into_changes();
                commit(&mut self.store, changes)
            },
            Err(e) => Err(e),
        }
    }

    /// The rows of a table that meet a condition.
    pub fn collect_table_rows(&self, table_name: &str, predicate: Option<&QualifiedPredicate>) -> (r:
        Result<Vec<(EngineKey, EngineRow)>, EngineError>)
        ensures
            error::settles(
                r,
                self.store.sound(),
                store_helpers::rows_found(
                    self.store.trees(),
                    table_name@,
                    predicate.deep_view(),
                ),
            ),
    {
        let tx = self.store.engine_transaction();
        proof {
            patch::law_empty_patch(self.store.trees());
        }
        store_helpers::collect_table_rows(&tx, table_name, predicate)
    }
}

} // verus!
