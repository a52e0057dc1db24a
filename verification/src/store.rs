//! The store below the engine: trees by name, and transactions on them that
//! speak of rows, schemas and index entries.
use vstd::prelude::*;
use crate::backend_contract::{self, TransactionContract};
use crate::codec::Encoded;
use crate::error::{self, EngineError, ErrorModel, BTreeError};
use crate::in_memory::{self, map_of, InMemoryNamedBTree, TreeKey};
use crate::name_table;
use crate::order;
use crate::ordered_map::{self, KeyBound, OrderedKey};
use crate::patch::{self, TransactionEntry, TransactionPatch};
use crate::persistence::{
    self, decode_schema_rows, encode_index_schema, encode_table_schema, index_tree, row_tree,
    schema_entry_key,
};
use crate::plain::{self, no_items, same_text, Plain};
use crate::schema::{
    self, primary_key_from_engine_key, IndexModel, IndexSchema, TableModel, TableSchema,
};
use crate::value::{self, EngineKey, EngineRow, PrimaryKey, ValueModel};

verus! {

/// A key of a tree: the values that it is made of.
pub type KeyModel = Seq<ValueModel>;

/// A row: its values.
pub type RowModel = Seq<ValueModel>;

/// What all trees hold.
pub type Trees = Map<(Seq<char>, KeyModel), RowModel>;

/// Changes of trees that have not been made yet.
pub type Changes = TransactionPatch<TreeKey<EngineKey>, EngineRow>;

/// The entries of a tree in the order of their keys.
pub open spec fn tree_listing(trees: Trees, tree: Seq<char>) -> Seq<(KeyModel, RowModel)> {
    ordered_map::listing(in_memory::tree_map(trees, tree), value::key_less())
}

/// The row under a primary key.
pub open spec fn row_at(trees: Trees, table: Seq<char>, pk: KeyModel) -> Option<RowModel> {
    patch::lookup(trees, (persistence::rows_of(table), pk))
}

/// The rows of a table, in the order of their primary keys.
pub open spec fn table_rows(trees: Trees, table: Seq<char>) -> Seq<(KeyModel, RowModel)> {
    tree_listing(trees, persistence::rows_of(table))
}

/// The rows of a list are all stored under primary keys.
pub open spec fn keys_fit(rows: Seq<(KeyModel, RowModel)>) -> bool {
    forall|i: int| 0 <= i < rows.len() ==> value::is_primary_key((#[trigger] rows[i]).0)
}

/// The rows of a table, if all are stored under primary keys.
pub open spec fn listed_rows(trees: Trees, table: Seq<char>) -> Result<
    Seq<(KeyModel, RowModel)>,
    ErrorModel,
> {
    if keys_fit(table_rows(trees, table)) {
        Ok(table_rows(trees, table))
    } else {
        Err(schema::no_primary_key())
    }
}

/// The trees with a row put under a primary key.
pub open spec fn with_row(trees: Trees, table: Seq<char>, pk: KeyModel, row: RowModel) -> Trees {
    trees.insert((persistence::rows_of(table), pk), row)
}

/// The trees without the row under a primary key.
pub open spec fn without_row(trees: Trees, table: Seq<char>, pk: KeyModel) -> Trees {
    trees.remove((persistence::rows_of(table), pk))
}

/// The place of an entry of an index.
pub open spec fn entry_place(index: IndexModel, index_key: KeyModel, pk: KeyModel) -> (
    Seq<char>,
    KeyModel,
) {
    (persistence::entries_of(index.name), index_key + pk)
}

/// The trees with an entry of an index.
pub open spec fn with_entry(
    trees: Trees,
    index: IndexModel,
    index_key: KeyModel,
    pk: KeyModel,
) -> Trees {
    trees.insert(entry_place(index, index_key, pk), Seq::empty())
}

/// The trees without an entry of an index.
pub open spec fn without_entry(
    trees: Trees,
    index: IndexModel,
    index_key: KeyModel,
    pk: KeyModel,
) -> Trees {
    trees.remove(entry_place(index, index_key, pk))
}

/// The entries of an index, each parted into index key and primary key.
pub open spec fn index_entries(trees: Trees, index: IndexModel) -> Seq<(KeyModel, KeyModel)> {
    tree_listing(trees, persistence::entries_of(index.name)).map_values(
        |entry: (KeyModel, RowModel)| schema::split_entry(index, entry.0),
    )
}

/// An entry of an index, if what it holds besides the index key is a primary key.
pub open spec fn entry_read(entry: (KeyModel, KeyModel)) -> Result<
    (KeyModel, KeyModel),
    ErrorModel,
> {
    if value::is_primary_key(entry.1) {
        Ok(entry)
    } else {
        Err(schema::no_primary_key())
    }
}

/// The entries of a list all hold primary keys.
pub open spec fn entries_fit(entries: Seq<(KeyModel, KeyModel)>) -> bool {
    forall|i: int| 0 <= i < entries.len() ==> value::is_primary_key((#[trigger] entries[i]).1)
}

/// The entries of an index, each read or refused.
pub open spec fn are_entries(
    list: Seq<Result<(EngineKey, PrimaryKey), EngineError>>,
    entries: Seq<(KeyModel, KeyModel)>,
) -> bool {
    list.len() == entries.len() && forall|i: int|
        0 <= i < list.len() ==> plain::outcome(#[trigger] list[i]) == entry_read(entries[i])
}

/// The tables and the indexes that the trees keep.
pub open spec fn kept_catalog(trees: Trees) -> Result<
    (Seq<TableModel>, Seq<IndexModel>),
    ErrorModel,
> {
    match persistence::kept_schemas::<TableSchema>(
        tree_listing(trees, persistence::table_schemas()),
        persistence::no_table(),
    ) {
        Err(e) => Err(e),
        Ok(tables) => match persistence::kept_schemas::<IndexSchema>(
            tree_listing(trees, persistence::index_schemas()),
            persistence::no_index(),
        ) {
            Err(e) => Err(e),
            Ok(indexes) => Ok((tables, indexes)),
        },
    }
}

/// A result and the trees after it are the exact ones, or the store below, which
/// is not sound, failed.
pub open spec fn settles_with<T: DeepView>(
    r: Result<T, EngineError>,
    sound: bool,
    after: Trees,
    exact: (Result<T::V, ErrorModel>, Trees),
) -> bool {
    (error::is_fault(r) && !sound) || (plain::outcome(r) == exact.0 && after == exact.1)
}

/// A store of trees by name, for a user to implement. A store that is sound
/// never fails.
pub trait NamedTreeProvider: Sized {
    /// What the trees hold.
    spec fn trees(&self) -> Trees;

    /// The store never fails.
    spec fn sound(&self) -> bool;

    /// The row under a key of a tree.
    fn get(&self, tree: &str, key: &EngineKey) -> (r: Result<Option<EngineRow>, BTreeError>)
        ensures
            match r {
                Ok(row) => row.deep_view() == patch::lookup(
                    self.trees(),
                    (tree@, key.deep_view()),
                ),
                Err(_) => !self.sound(),
            },
    ;

    /// The entries of a tree in the order of their keys.
    fn entries(&self, tree: &str) -> (r: Result<Vec<(EngineKey, EngineRow)>, BTreeError>)
        ensures
            match r {
                Ok(list) => ordered_map::lists(
                    list.deep_view(),
                    in_memory::tree_map(self.trees(), tree@),
                    value::key_less(),
                ),
                Err(_) => !self.sound(),
            },
    ;

    /// Makes changes of any trees, all of them or none.
    fn apply(&mut self, changes: Changes) -> (r: Result<(), BTreeError>)
        ensures
            final(self).sound() == old(self).sound(),
            match r {
                Ok(_) => final(self).trees() == patch::patched(
                    old(self).trees(),
                    changes.deep_view(),
                ),
                Err(_) => !old(self).sound() && final(self).trees() == old(self).trees(),
            },
    ;
}

impl NamedTreeProvider for InMemoryNamedBTree<EngineKey, EngineRow> {
    open spec fn trees(&self) -> Trees {
        self.deep_view()
    }

    open spec fn sound(&self) -> bool {
        true
    }

    fn get(&self, tree: &str, key: &EngineKey) -> (r: Result<Option<EngineRow>, BTreeError>) {
        Ok(self.tree_get(tree, key))
    }

    fn entries(&self, tree: &str) -> (r: Result<Vec<(EngineKey, EngineRow)>, BTreeError>) {
        proof {
            assert(ordered_map::between(
                in_memory::tree_map(self.deep_view(), tree@),
                KeyBound::Unbounded,
                KeyBound::Unbounded,
                value::key_less(),
            ) =~= in_memory::tree_map(self.deep_view(), tree@));
        }
        Ok(self.tree_entries(tree, &KeyBound::Unbounded, &KeyBound::Unbounded))
    }

    fn apply(&mut self, changes: Changes) -> (r: Result<(), BTreeError>) {
        InMemoryNamedBTree::apply(self, changes);
        Ok(())
    }
}

/// A store that the engine runs on.
pub trait EngineStore: NamedTreeProvider {
    /// What the store promises of its transactions. The default is that they
    /// span all trees.
    fn transaction_contract(&self) -> (r: TransactionContract)
        ensures
            backend_contract::is_consistent(r),
    {
        TransactionContract::coupled_multi_tree()
    }

    /// Begins a transaction.
    fn engine_transaction(&self) -> (r: NamedTreeEngineTransaction<'_, Self>)
        ensures
            r.store == self,
            r.changes.deep_view() == Map::<(Seq<char>, KeyModel), Option<RowModel>>::empty(),
    {
        NamedTreeEngineTransaction { store: self, changes: TransactionPatch::new() }
    }
}

impl EngineStore for InMemoryNamedBTree<EngineKey, EngineRow> {

}

/// What a transaction sees.
pub trait TreeView {
    /// What the trees hold, with the changes of the transaction.
    spec fn trees(&self) -> Trees;

    /// What the store below holds, without the changes.
    spec fn base(&self) -> Trees;

    /// The store below never fails.
    spec fn sound(&self) -> bool;
}

/// Rows of tables by primary key.
pub trait RowStore: TreeView {
    /// The row under a primary key.
    fn get_table_row(&self, table_name: &str, primary_key: &PrimaryKey) -> (r: Result<
        Option<EngineRow>,
        EngineError,
    >)
        ensures
            error::settles(
                r,
                self.sound(),
                Ok::<Option<RowModel>, ErrorModel>(
                    row_at(self.trees(), table_name@, primary_key.deep_view()),
                ),
            ),
    ;

    /// Puts a row under a primary key.
    fn insert_table_row(&mut self, table_name: &str, primary_key: PrimaryKey, row: EngineRow) -> (r:
        Result<(), EngineError>)
        ensures
            final(self).sound() == old(self).sound(),
            final(self).base() == old(self).base(),
            (error::is_fault(r) && !old(self).sound()) || (r is Ok && final(self).trees()
                == with_row(
                old(self).trees(),
                table_name@,
                primary_key.deep_view(),
                row.deep_view(),
            )),
    ;

    /// Takes the row under a primary key out.
    fn remove_table_row(&mut self, table_name: &str, primary_key: &PrimaryKey) -> (r: Result<
        Option<EngineRow>,
        EngineError,
    >)
        ensures
            final(self).sound() == old(self).sound(),
            final(self).base() == old(self).base(),
            (error::is_fault(r) && !old(self).sound()) || (plain::outcome(r) == Ok::<
                Option<RowModel>,
                ErrorModel,
            >(row_at(old(self).trees(), table_name@, primary_key.deep_view())) && final(
                self
            ).trees() == without_row(old(self).trees(), table_name@, primary_key.deep_view())),
    ;

    /// The rows of a table, in the order of their primary keys. A row under a key
    /// that is no primary key is refused.
    fn range_table_rows(&self, table_name: &str) -> (r: Result<
        Vec<(PrimaryKey, EngineRow)>,
        EngineError,
    >)
        ensures
            error::settles(r, self.sound(), listed_rows(self.trees(), table_name@)),
    ;
}

/// Schemas of tables and indexes.
pub trait SchemaStore: TreeView {
    /// Keeps the schema of a table.
    fn insert_table_schema(&mut self, schema: &TableSchema) -> (r: Result<(), EngineError>)
        ensures
            final(self).sound() == old(self).sound(),
            final(self).base() == old(self).base(),
            <TableSchema as Encoded>::fits(schema.deep_view()),
            (error::is_fault(r) && !old(self).sound()) || (r is Ok && final(self).trees() == old(
                self
            ).trees().insert(
                (
                    persistence::table_schemas(),
                    persistence::schema_key(schema.deep_view().name),
                ),
                persistence::schema_row::<TableSchema>(schema.deep_view()),
            )),
    ;

    /// Forgets the schema of a table.
    fn remove_table_schema(&mut self, table_name: &str) -> (r: Result<(), EngineError>)
        ensures
            final(self).sound() == old(self).sound(),
            final(self).base() == old(self).base(),
            (error::is_fault(r) && !old(self).sound()) || (r is Ok && final(self).trees() == old(
                self
            ).trees().remove(
                (persistence::table_schemas(), persistence::schema_key(table_name@)),
            )),
    ;

    /// Keeps the schema of an index.
    fn insert_index_schema(&mut self, schema: &IndexSchema) -> (r: Result<(), EngineError>)
        ensures
            final(self).sound() == old(self).sound(),
            final(self).base() == old(self).base(),
            <IndexSchema as Encoded>::fits(schema.deep_view()),
            (error::is_fault(r) && !old(self).sound()) || (r is Ok && final(self).trees() == old(
                self
            ).trees().insert(
                (
                    persistence::index_schemas(),
                    persistence::schema_key(schema.deep_view().name),
                ),
                persistence::schema_row::<IndexSchema>(schema.deep_view()),
            )),
    ;

    /// Forgets the schema of an index.
    fn remove_index_schema(&mut self, index_name: &str) -> (r: Result<(), EngineError>)
        ensures
            final(self).sound() == old(self).sound(),
            final(self).base() == old(self).base(),
            (error::is_fault(r) && !old(self).sound()) || (r is Ok && final(self).trees() == old(
                self
            ).trees().remove(
                (persistence::index_schemas(), persistence::schema_key(index_name@)),
            )),
    ;

    /// All schemas that are kept.
    fn load_catalog(&self) -> (r: Result<(Vec<TableSchema>, Vec<IndexSchema>), EngineError>)
        ensures
            error::settles(r, self.sound(), kept_catalog(self.trees())),
    ;
}

/// Entries of indexes.
pub trait IndexStore: TreeView {
    /// Adds an entry of an index.
    fn insert_index_entry(
        &mut self,
        index: &IndexSchema,
        index_key: &EngineKey,
        row_pk: &PrimaryKey,
    ) -> (r: Result<(), EngineError>)
        ensures
            final(self).sound() == old(self).sound(),
            final(self).base() == old(self).base(),
            (error::is_fault(r) && !old(self).sound()) || (r is Ok && final(self).trees()
                == with_entry(
                old(self).trees(),
                index.deep_view(),
                index_key.deep_view(),
                row_pk.deep_view(),
            )),
    ;

    /// Takes an entry of an index out.
    fn delete_index_entry(
        &mut self,
        index: &IndexSchema,
        index_key: &EngineKey,
        row_pk: &PrimaryKey,
    ) -> (r: Result<(), EngineError>)
        ensures
            final(self).sound() == old(self).sound(),
            final(self).base() == old(self).base(),
            (error::is_fault(r) && !old(self).sound()) || (r is Ok && final(self).trees()
                == without_entry(
                old(self).trees(),
                index.deep_view(),
                index_key.deep_view(),
                row_pk.deep_view(),
            )),
    ;

    /// The entries of an index, in the order of their keys. One without a primary
    /// key is refused.
    fn range_index_entries(&self, index: &IndexSchema) -> (r: Result<
        Vec<Result<(EngineKey, PrimaryKey), EngineError>>,
        EngineError,
    >)
        ensures
            match r {
                Ok(list) => are_entries(list@, index_entries(self.trees(), index.deep_view())),
                Err(_) => error::is_fault(r) && !self.sound(),
            },
    ;
}

/// A transaction of the engine: what the store holds, and changes of it.
pub trait EngineStoreTransaction: RowStore + SchemaStore + IndexStore {

}

/// A transaction on a store of trees: the store as it is, and the changes that
/// have not been made yet.
pub struct NamedTreeEngineTransaction<'s, S> {
    pub store: &'s S,
    pub changes: Changes,
}

/// The trees with changes.
pub open spec fn seen<S: NamedTreeProvider>(store: S, changes: Changes) -> Trees {
    patch::patched(store.trees(), changes.deep_view())
}

impl<'s, S: NamedTreeProvider> TreeView for NamedTreeEngineTransaction<'s, S> {
    open spec fn trees(&self) -> Trees {
        seen(*self.store, self.changes)
    }

    open spec fn base(&self) -> Trees {
        self.store.trees()
    }

    open spec fn sound(&self) -> bool {
        self.store.sound()
    }
}

/// The changes of one tree.
fn changes_of_tree(changes: &Changes, tree: &str) -> (r: TransactionPatch<EngineKey, EngineRow>)
    ensures
        r.deep_view() == in_memory::tree_map(changes.deep_view(), tree@),
{
    let entries = changes.entries();
    let ghost before = TreeKey::<EngineKey>::before();
    let ghost all = entries.deep_view();
    let ghost name = tree@;
    let mut out: TransactionPatch<EngineKey, EngineRow> = TransactionPatch::new();
    let mut i: usize = 0;
    proof {
        TreeKey::<EngineKey>::before_total();
        assert(out.deep_view() =~= in_memory::tree_map(
            name_table::first_map(all.take(0)),
            name,
        ));
    }
    while i < entries.len()
        invariant
            i <= entries.len(),
            all == entries.deep_view(),
            name == tree@,
            before == TreeKey::<EngineKey>::before(),
            order::strict_total(before),
            ordered_map::ascending(all, before),
            out.deep_view() == in_memory::tree_map(
                name_table::first_map(all.take(i as int)),
                name,
            ),
        decreases entries.len() - i,
    {
        let entry = &entries[i];
        let ghost so_far = out.deep_view();
        proof {
            assert(all[i as int] == (entry.0.deep_view(), entry.1.deep_view()));
            patch::lemma_take_step(all, i as int, before);
        }
        if same_text(entry.0.tree.as_str(), tree) {
            match &entry.1 {
                TransactionEntry::Present(row) => {
                    out.insert(entry.0.key.duplicate(), row.duplicate());
                },
                TransactionEntry::Deleted => {
                    out.delete(entry.0.key.duplicate());
                },
            }
        }
        proof {
            assert(out.deep_view() =~= in_memory::tree_map(
                name_table::first_map(all.take(i + 1)),
                name,
            ));
        }
        i += 1;
    }
    proof {
        assert(all.take(i as int) =~= all);
    }
    out
}

/// Each tree of patched trees is the patched tree.
proof fn lemma_patched_tree(trees: Trees, changes: Map<(Seq<char>, KeyModel), Option<RowModel>>, tree: Seq<char>)
    ensures
        in_memory::tree_map(patch::patched(trees, changes), tree) == patch::patched(
            in_memory::tree_map(trees, tree),
            in_memory::tree_map(changes, tree),
        ),
{
    assert(in_memory::tree_map(patch::patched(trees, changes), tree) =~= patch::patched(
        in_memory::tree_map(trees, tree),
        in_memory::tree_map(changes, tree),
    ));
}

impl<'s, S: NamedTreeProvider> NamedTreeEngineTransaction<'s, S> {
    /// Goes on with changes that were begun before.
    pub fn new(store: &'s S, changes: Changes) -> (r: NamedTreeEngineTransaction<'s, S>)
        ensures
            r.store == store,
            r.changes == changes,
    {
        NamedTreeEngineTransaction { store, changes }
    }

    /// The changes, to be made or dropped.
    pub fn into_changes(self) -> (r: Changes)
        ensures
            r == self.changes,
    {
        self.changes
    }

    fn read(&self, tree: &str, key: &EngineKey) -> (r: Result<Option<EngineRow>, EngineError>)
        ensures
            error::settles(
                r,
                self.sound(),
                Ok::<Option<RowModel>, ErrorModel>(
                    patch::lookup(self.trees(), (tree@, key.deep_view())),
                ),
            ),
    {
        let at = TreeKey { tree: tree.to_string(), key: key.duplicate() };
        match self.changes.get(&at) {
            Some(TransactionEntry::Present(row)) => Ok(Some(row.duplicate())),
            Some(TransactionEntry::Deleted) => Ok(None),
            None => match self.store.get(tree, key) {
                Ok(row) => Ok(row),
                Err(e) => Err(EngineError::StoreError(e)),
            },
        }
    }

    fn list(&self, tree: &str) -> (r: Result<Vec<(EngineKey, EngineRow)>, EngineError>)
        ensures
            error::settles(
                r,
                self.sound(),
                Ok::<Seq<(KeyModel, RowModel)>, ErrorModel>(tree_listing(self.trees(), tree@)),
            ),
    {
        let kept = match self.store.entries(tree) {
            Ok(kept) => kept,
            Err(e) => {
                return Err(EngineError::StoreError(e));
            },
        };
        let mut map = map_of(&kept);
        changes_of_tree(&self.changes, tree).commit_into(&mut map);
        proof {
            lemma_patched_tree(self.store.trees(), self.changes.deep_view(), tree@);
        }
        Ok(map.entries().duplicate())
    }

    fn put(&mut self, tree: &str, key: EngineKey, row: EngineRow)
        ensures
            final(self).store == old(self).store,
            final(self).trees() == old(self).trees().insert(
                (tree@, key.deep_view()),
                row.deep_view(),
            ),
    {
        proof {
            patch::lemma_patched_insert(
                self.store.trees(),
                self.changes.deep_view(),
                (tree@, key.deep_view()),
                row.deep_view(),
            );
        }
        self.changes.insert(TreeKey { tree: tree.to_string(), key }, row);
    }

    fn take(&mut self, tree: &str, key: EngineKey)
        ensures
            final(self).store == old(self).store,
            final(self).trees() == old(self).trees().remove((tree@, key.deep_view())),
    {
        proof {
            patch::lemma_patched_delete(
                self.store.trees(),
                self.changes.deep_view(),
                (tree@, key.deep_view()),
            );
        }
        self.changes.delete(TreeKey { tree: tree.to_string(), key });
    }
}

impl<'s, S: NamedTreeProvider> RowStore for NamedTreeEngineTransaction<'s, S> {
    fn get_table_row(&self, table_name: &str, primary_key: &PrimaryKey) -> (r: Result<
        Option<EngineRow>,
        EngineError,
    >) {
        self.read(row_tree(table_name).as_str(), primary_key)
    }

    fn insert_table_row(&mut self, table_name: &str, primary_key: PrimaryKey, row: EngineRow) -> (r:
        Result<(), EngineError>) {
        self.put(row_tree(table_name).as_str(), primary_key, row);
        Ok(())
    }

    fn remove_table_row(&mut self, table_name: &str, primary_key: &PrimaryKey) -> (r: Result<
        Option<EngineRow>,
        EngineError,
    >) {
        let tree = row_tree(table_name);
        let row = self.read(tree.as_str(), primary_key);
        if row.is_ok() {
            self.take(tree.as_str(), primary_key.duplicate());
        }
        row
    }

    fn range_table_rows(&self, table_name: &str) -> (r: Result<
        Vec<(PrimaryKey, EngineRow)>,
        EngineError,
    >) {
        let rows = match self.list(row_tree(table_name).as_str()) {
            Ok(rows) => rows,
            Err(e) => {
                return Err(e);
            },
        };
        let ghost all = rows.deep_view();
        let mut i: usize = 0;
        while i < rows.len()
            invariant
                i <= rows.len(),
                all == rows.deep_view(),
                all == table_rows(self.trees(), table_name@),
                forall|j: int| 0 <= j < i ==> value::is_primary_key((#[trigger] all[j]).0),
            decreases rows.len() - i,
        {
            assert(all[i as int].0 == rows@[i as int].0.deep_view());
            if let Err(e) = primary_key_from_engine_key(rows[i].0.duplicate()) {
                return Err(e);
            }
            i += 1;
        }
        Ok(rows)
    }
}

impl<'s, S: NamedTreeProvider> SchemaStore for NamedTreeEngineTransaction<'s, S> {
    fn insert_table_schema(&mut self, schema: &TableSchema) -> (r: Result<(), EngineError>) {
        let row = encode_table_schema(schema);
        self.put("sys:table_schemas", schema_entry_key(schema.name.as_str()), row);
        Ok(())
    }

    fn remove_table_schema(&mut self, table_name: &str) -> (r: Result<(), EngineError>) {
        self.take("sys:table_schemas", schema_entry_key(table_name));
        Ok(())
    }

    fn insert_index_schema(&mut self, schema: &IndexSchema) -> (r: Result<(), EngineError>) {
        let row = encode_index_schema(schema);
        self.put("sys:index_schemas", schema_entry_key(schema.name.as_str()), row);
        Ok(())
    }

    fn remove_index_schema(&mut self, index_name: &str) -> (r: Result<(), EngineError>) {
        self.take("sys:index_schemas", schema_entry_key(index_name));
        Ok(())
    }

    fn load_catalog(&self) -> (r: Result<(Vec<TableSchema>, Vec<IndexSchema>), EngineError>) {
        let table_rows = match self.list("sys:table_schemas") {
            Ok(rows) => rows,
            Err(e) => {
                return Err(e);
            },
        };
        let index_rows = match self.list("sys:index_schemas") {
            Ok(rows) => rows,
            Err(e) => {
                return Err(e);
            },
        };
        let tables = match decode_schema_rows::<TableSchema>(
            &table_rows,
            "invalid table schema encoding",
        ) {
            Ok(tables) => tables,
            Err(e) => {
                return Err(e);
            },
        };
        match decode_schema_rows::<IndexSchema>(&index_rows, "invalid index schema encoding") {
            Ok(indexes) => Ok((tables, indexes)),
            Err(e) => Err(e),
        }
    }
}

impl<'s, S: NamedTreeProvider> IndexStore for NamedTreeEngineTransaction<'s, S> {
    fn insert_index_entry(
        &mut self,
        index: &IndexSchema,
        index_key: &EngineKey,
        row_pk: &PrimaryKey,
    ) -> (r: Result<(), EngineError>) {
        let composite = index.make_entry_key(index_key, row_pk);
        self.put(index_tree(index.name.as_str()).as_str(), composite, no_items());
        Ok(())
    }

    fn delete_index_entry(
        &mut self,
        index: &IndexSchema,
        index_key: &EngineKey,
        row_pk: &PrimaryKey,
    ) -> (r: Result<(), EngineError>) {
        let composite = index.make_entry_key(index_key, row_pk);
        self.take(index_tree(index.name.as_str()).as_str(), composite);
        Ok(())
    }

    fn range_index_entries(&self, index: &IndexSchema) -> (r: Result<
        Vec<Result<(EngineKey, PrimaryKey), EngineError>>,
        EngineError,
    >) {
        let entries = match self.list(index_tree(index.name.as_str()).as_str()) {
            Ok(entries) => entries,
            Err(e) => {
                return Err(e);
            },
        };
        let ghost wanted = index_entries(self.trees(), index.deep_view());
        let ghost all = entries.deep_view();
        let mut out: Vec<Result<(EngineKey, PrimaryKey), EngineError>> = Vec::new();
        let mut i: usize = 0;
        while i < entries.len()
            invariant
                i <= entries.len(),
                all == entries.deep_view(),
                wanted == all.map_values(
                    |entry: (KeyModel, RowModel)| schema::split_entry(index.deep_view(), entry.0),
                ),
                are_entries(out@, wanted.take(i as int)),
            decreases entries.len() - i,
        {
            let (index_key, row_key) = index.split_entry_key(&entries[i].0);
            proof {
                assert(all[i as int].0 == entries@[i as int].0.deep_view());
                assert(wanted.take(i + 1).last() == (index_key.deep_view(), row_key.deep_view()));
                assert(wanted.take(i + 1).drop_last() =~= wanted.take(i as int));
            }
            let entry = match primary_key_from_engine_key(row_key) {
                Ok(row_pk) => Ok((index_key, row_pk)),
                Err(e) => Err(e),
            };
            out.push(entry);
            proof {
                assert forall|j: int| 0 <= j < out@.len() implies plain::outcome(#[trigger] out@[j])
                    == entry_read(wanted.take(i + 1)[j]) by {
                    if j < i {
                        assert(wanted.take(i + 1)[j] == wanted.take(i as int)[j]);
                    }
                }
            }
            i += 1;
        }
        proof {
            assert(wanted.take(i as int) =~= wanted);
        }
        Ok(out)
    }
}

impl<'s, S: NamedTreeProvider> EngineStoreTransaction for NamedTreeEngineTransaction<'s, S> {

}

/// Makes the changes of a transaction.
pub fn commit<S: NamedTreeProvider>(store: &mut S, changes: Changes) -> (r: Result<(), EngineError>)
    ensures
        final(store).sound() == old(store).sound(),
        match r {
            Ok(_) => final(store).trees() == seen(*old(store), changes),
            Err(_) => error::is_fault(r) && !old(store).sound() && final(store).trees() == old(
                store
            ).trees(),
        },
{
    match store.apply(changes) {
        Ok(()) => Ok(()),
        Err(e) => Err(EngineError::StoreError(e)),
    }
}

} // verus!
