//! The tables and indexes that the engine knows.
use vstd::prelude::*;
use crate::codec::Encoded;
use crate::error::{self, EngineError, ErrorModel};
use crate::ordered_map::SortedMap;
use crate::patch;
use crate::persistence;
use crate::plain::{self, no_items, push_back, same_text, Plain};
use crate::predicate;
use crate::query::{PredicateModel, QualifiedPredicate};
use crate::schema::{self, IndexModel, IndexSchema, TableModel, TableSchema};
use crate::store::{
    self, commit, EngineStore, IndexStore, NamedTreeEngineTransaction, RowModel, SchemaStore,
    Trees, TreeView,
};
use crate::store_helpers::{self, remove_index_entries, remove_table_rows};
use crate::text::{self, decimal, joined3};
use crate::value::{EngineRow, EngineValue, ValueModel};

verus! {

/// The tables by name, and the indexes. Index names are distinct.
pub struct EngineCatalog {
    tables: SortedMap<String, TableSchema>,
    indexes: Vec<IndexSchema>,
}

/// What an [`EngineCatalog`] is, mathematically.
#[verifier::ext_equal]
pub struct CatalogModel {
    pub tables: Map<Seq<char>, TableModel>,
    pub indexes: Seq<IndexModel>,
}

impl DeepView for EngineCatalog {
    type V = CatalogModel;

    closed spec fn deep_view(&self) -> CatalogModel {
        CatalogModel { tables: self.tables.deep_view(), indexes: self.indexes.deep_view() }
    }
}

/// A catalog without tables and indexes.
pub open spec fn empty_catalog() -> CatalogModel {
    CatalogModel { tables: Map::empty(), indexes: Seq::empty() }
}

/// An index has another name.
pub open spec fn called_otherwise(name: Seq<char>) -> spec_fn(IndexModel) -> bool {
    |index: IndexModel| index.name != name
}

/// The indexes without the one of that name.
pub open spec fn without_index(indexes: Seq<IndexModel>, name: Seq<char>) -> Seq<IndexModel> {
    store_helpers::kept(indexes, called_otherwise(name))
}

/// The indexes with one more, in place of the one of that name.
pub open spec fn with_index(indexes: Seq<IndexModel>, index: IndexModel) -> Seq<IndexModel> {
    without_index(indexes, index.name).push(index)
}

/// An index is one of that table.
pub open spec fn belongs_to(table: Seq<char>) -> spec_fn(IndexModel) -> bool {
    |index: IndexModel| index.table_name == table
}

/// The indexes of a table.
pub open spec fn indexes_of(indexes: Seq<IndexModel>, table: Seq<char>) -> Seq<IndexModel> {
    store_helpers::kept(indexes, belongs_to(table))
}

/// There is an index of that name.
pub open spec fn has_index(indexes: Seq<IndexModel>, name: Seq<char>) -> bool {
    exists|i: int| 0 <= i < indexes.len() && (#[trigger] indexes[i]).name == name
}

/// The first index from which a condition can be answered.
pub open spec fn index_for(indexes: Seq<IndexModel>, predicate: PredicateModel) -> Option<IndexModel>
    decreases indexes.len(),
{
    if indexes.len() == 0 {
        None
    } else if predicate::index_key_for(predicate, indexes[0]) is Some {
        Some(indexes[0])
    } else {
        index_for(indexes.drop_first(), predicate)
    }
}

/// The error for a table that is not there.
pub open spec fn table_of(c: CatalogModel, name: Seq<char>) -> Result<TableModel, ErrorModel> {
    if c.tables.contains_key(name) {
        Ok(c.tables[name])
    } else {
        Err(ErrorModel::TableNotFound(name))
    }
}

/// One column of a row.
pub open spec fn row_cell(row: RowModel, i: usize) -> Result<ValueModel, ErrorModel> {
    if i < row.len() {
        Ok(row[i as int])
    } else {
        Err(
            ErrorModel::SchemaMismatch(
                "projection index "@ + text::decimal_text(i as nat) + " is out of bounds"@,
            ),
        )
    }
}

/// The columns of a row at the places of a projection; an empty projection
/// asks for all columns.
pub open spec fn projected_row(row: RowModel, projection: Seq<usize>) -> Result<
    RowModel,
    ErrorModel,
> {
    if projection.len() == 0 {
        Ok(row)
    } else {
        plain::collected(projection, |i: usize| row_cell(row, i))
    }
}

/// The columns of a row at the places of a projection.
pub fn project_row(row: &EngineRow, projection: &Vec<usize>) -> (r: Result<EngineRow, EngineError>)
    ensures
        plain::outcome(r) == projected_row(row.deep_view(), projection@),
{
    if projection.len() == 0 {
        return Ok(row.duplicate());
    }
    let ghost values = row.deep_view();
    let ghost f = |i: usize| row_cell(values, i);
    let mut out: Vec<EngineValue> = no_items();
    let mut i: usize = 0;
    proof {
        assert(projection@.take(0) =~= Seq::empty());
    }
    while i < projection.len()
        invariant
            i <= projection.len(),
            projection.len() > 0,
            values == row.deep_view(),
            f == (|i: usize| row_cell(values, i)),
            plain::collected(projection@.take(i as int), f) == Ok::<Seq<ValueModel>, ErrorModel>(
                out.deep_view(),
            ),
        decreases projection.len() - i,
    {
        let place: usize = projection[i];
        proof {
            plain::lemma_collected_step(projection@, f, i as int);
            assert(f(place) == row_cell(values, place));
        }
        if place < row.len() {
            push_back(&mut out, row[place].duplicate());
        } else {
            return Err(
                EngineError::SchemaMismatch(
                    joined3(
                        "projection index ",
                        decimal(place as u64).as_str(),
                        " is out of bounds",
                    ),
                ),
            );
        }
        i += 1;
    }
    proof {
        assert(projection@.take(i as int) =~= projection@);
    }
    Ok(out)
}

/// Tables by name; of two with one name the last counts.
pub open spec fn tables_by_name(tables: Seq<TableModel>) -> Map<Seq<char>, TableModel>
    decreases tables.len(),
{
    if tables.len() == 0 {
        Map::empty()
    } else {
        tables_by_name(tables.drop_last()).insert(tables.last().name, tables.last())
    }
}

/// Indexes; of two with one name the last counts.
pub open spec fn distinct_indexes(indexes: Seq<IndexModel>) -> Seq<IndexModel>
    decreases indexes.len(),
{
    if indexes.len() == 0 {
        Seq::empty()
    } else {
        with_index(distinct_indexes(indexes.drop_last()), indexes.last())
    }
}

/// The catalog that trees keep.
pub open spec fn loaded_catalog(trees: Trees) -> Result<CatalogModel, ErrorModel> {
    match store::kept_catalog(trees) {
        Err(e) => Err(e),
        Ok((tables, indexes)) => Ok(
            CatalogModel {
                tables: tables_by_name(tables),
                indexes: distinct_indexes(indexes),
            },
        ),
    }
}

/// What a change of the schema gives: the result, the catalog and the trees.
pub type Registered = (Result<(), ErrorModel>, CatalogModel, Trees);

/// What registering a table gives.
pub open spec fn table_registered(trees: Trees, before: CatalogModel, table: TableModel) -> Registered {
    match loaded_catalog(trees) {
        Err(e) => (Err(e), before, trees),
        Ok(c) => if c.tables.contains_key(table.name) {
            (Err(ErrorModel::DuplicateTable(table.name)), c, trees)
        } else {
            (
                Ok(()),
                CatalogModel { tables: c.tables.insert(table.name, table), ..c },
                trees.insert(
                    (persistence::table_schemas(), persistence::schema_key(table.name)),
                    persistence::schema_row::<TableSchema>(table),
                ),
            )
        },
    }
}

/// What registering an index gives.
pub open spec fn index_registered(trees: Trees, before: CatalogModel, index: IndexModel) -> Registered {
    match loaded_catalog(trees) {
        Err(e) => (Err(e), before, trees),
        Ok(c) => if has_index(c.indexes, index.name) {
            (Err(ErrorModel::DuplicateIndex(index.name)), c, trees)
        } else {
            match table_of(c, index.table_name) {
                Err(e) => (Err(e), c, trees),
                Ok(table) => match schema::index_check(index, table) {
                    Err(e) => (Err(e), c, trees),
                    Ok(_) => (
                        Ok(()),
                        CatalogModel { indexes: with_index(c.indexes, index), ..c },
                        trees.insert(
                            (persistence::index_schemas(), persistence::schema_key(index.name)),
                            persistence::schema_row::<IndexSchema>(index),
                        ),
                    ),
                },
            }
        },
    }
}

/// The trees without an index.
pub open spec fn index_cleared(trees: Trees, index: IndexModel) -> Trees {
    store_helpers::entries_dropped(trees, index, store::index_entries(trees, index)).remove(
        (persistence::index_schemas(), persistence::schema_key(index.name)),
    )
}

/// The trees without indexes, one after the other.
pub open spec fn indexes_cleared(trees: Trees, indexes: Seq<IndexModel>) -> Trees
    decreases indexes.len(),
{
    if indexes.len() == 0 {
        trees
    } else {
        indexes_cleared(index_cleared(trees, indexes[0]), indexes.drop_first())
    }
}

/// The trees without a table and its indexes.
pub open spec fn table_cleared(trees: Trees, table: Seq<char>, indexes: Seq<IndexModel>) -> Trees {
    indexes_cleared(
        store_helpers::rows_removed(trees, table, store::table_rows(trees, table)),
        indexes,
    ).remove((persistence::table_schemas(), persistence::schema_key(table)))
}

/// Indexes can be taken out, one after the other: their entries can be read.
pub open spec fn all_clearable(trees: Trees, indexes: Seq<IndexModel>) -> bool
    decreases indexes.len(),
{
    indexes.len() == 0 || (store::entries_fit(store::index_entries(trees, indexes[0]))
        && all_clearable(index_cleared(trees, indexes[0]), indexes.drop_first()))
}

/// A table and its indexes can be taken out: its rows and their entries can be
/// listed.
pub open spec fn is_clearable(trees: Trees, table: Seq<char>, indexes: Seq<IndexModel>) -> bool {
    store::keys_fit(store::table_rows(trees, table)) && all_clearable(
        store_helpers::rows_removed(trees, table, store::table_rows(trees, table)),
        indexes,
    )
}

/// An index is one of another table.
pub open spec fn belongs_elsewhere(table: Seq<char>) -> spec_fn(IndexModel) -> bool {
    |index: IndexModel| index.table_name != table
}

/// What dropping a table gives.
pub open spec fn table_dropped(trees: Trees, before: CatalogModel, table: Seq<char>) -> Registered {
    match loaded_catalog(trees) {
        Err(e) => (Err(e), before, trees),
        Ok(c) => if !c.tables.contains_key(table) {
            (Err(ErrorModel::TableNotFound(table)), c, trees)
        } else if !is_clearable(trees, table, indexes_of(c.indexes, table)) {
            (Err(schema::no_primary_key()), c, trees)
        } else {
            (
                Ok(()),
                CatalogModel {
                    tables: c.tables.remove(table),
                    indexes: store_helpers::kept(c.indexes, belongs_elsewhere(table)),
                },
                table_cleared(trees, table, indexes_of(c.indexes, table)),
            )
        },
    }
}

/// The first index of that name.
pub open spec fn index_named(indexes: Seq<IndexModel>, name: Seq<char>) -> Option<IndexModel>
    decreases indexes.len(),
{
    if indexes.len() == 0 {
        None
    } else if indexes[0].name == name {
        Some(indexes[0])
    } else {
        index_named(indexes.drop_first(), name)
    }
}

/// What dropping an index gives.
pub open spec fn index_dropped(trees: Trees, before: CatalogModel, name: Seq<char>) -> Registered {
    match loaded_catalog(trees) {
        Err(e) => (Err(e), before, trees),
        Ok(c) => match index_named(c.indexes, name) {
            None => (Err(ErrorModel::IndexNotFound(name)), c, trees),
            Some(index) => if store::entries_fit(store::index_entries(trees, index)) {
                (
                    Ok(()),
                    CatalogModel { indexes: without_index(c.indexes, name), ..c },
                    index_cleared(trees, index),
                )
            } else {
                (Err(schema::no_primary_key()), c, trees)
            },
        },
    }
}

/// A change of the schema gave what it should, or the store, which is not
/// sound, failed and holds what it held.
pub open spec fn registers(
    r: Result<(), EngineError>,
    sound: bool,
    before: Trees,
    catalog: CatalogModel,
    after: Trees,
    exact: Registered,
) -> bool {
    (error::is_fault(r) && !sound && after == before) || (plain::outcome(r) == exact.0 && catalog
        == exact.1 && after == exact.2)
}

impl EngineCatalog {
    pub fn new() -> (r: EngineCatalog)
        ensures
            r.deep_view() == empty_catalog(),
    {
        EngineCatalog { tables: SortedMap::new(), indexes: no_items() }
    }

    /// The table of that name.
    pub fn table(&self, table_name: &str) -> (r: Result<&TableSchema, EngineError>)
        ensures
            match r {
                Ok(t) => table_of(self.deep_view(), table_name@) == Ok::<TableModel, ErrorModel>(
                    t.deep_view(),
                ),
                Err(e) => table_of(self.deep_view(), table_name@) == Err::<
                    TableModel,
                    ErrorModel,
                >(e.deep_view()),
            },
    {
        let name = table_name.to_string();
        match self.tables.get(&name) {
            Some(table) => Ok(table),
            None => Err(EngineError::TableNotFound(name)),
        }
    }

    /// Whether there is a table of that name.
    pub fn contains_table(&self, table_name: &str) -> (r: bool)
        ensures
            r == self.deep_view().tables.contains_key(table_name@),
    {
        self.tables.get(&table_name.to_string()).is_some()
    }

    /// Whether there is an index of that name.
    pub fn contains_index(&self, index_name: &str) -> (r: bool)
        ensures
            r == has_index(self.deep_view().indexes, index_name@),
    {
        let ghost all = self.indexes.deep_view();
        let mut i: usize = 0;
        while i < self.indexes.len()
            invariant
                i <= self.indexes.len(),
                all == self.indexes.deep_view(),
                forall|j: int| 0 <= j < i ==> (#[trigger] all[j]).name != index_name@,
            decreases self.indexes.len() - i,
        {
            assert(all[i as int].name == self.indexes@[i as int].name@);
            if same_text(self.indexes[i].name.as_str(), index_name) {
                return true;
            }
            i += 1;
        }
        false
    }

    /// Adds a table, in place of the one of that name.
    pub fn insert_table(&mut self, schema: TableSchema)
        ensures
            final(self).deep_view() == (CatalogModel {
                tables: old(self).deep_view().tables.insert(
                    schema.deep_view().name,
                    schema.deep_view(),
                ),
                ..old(self).deep_view()
            }),
    {
        self.tables.insert(schema.name.clone(), schema);
    }

    /// Adds an index, in place of the one of that name.
    pub fn insert_index(&mut self, schema: IndexSchema)
        ensures
            final(self).deep_view() == (CatalogModel {
                indexes: with_index(old(self).deep_view().indexes, schema.deep_view()),
                ..old(self).deep_view()
            }),
    {
        self.remove_index(schema.name.as_str());
        push_back(&mut self.indexes, schema);
    }

    fn remove_index(&mut self, name: &str)
        ensures
            final(self).deep_view() == (CatalogModel {
                indexes: without_index(old(self).deep_view().indexes, name@),
                ..old(self).deep_view()
            }),
    {
        let ghost all = self.indexes.deep_view();
        let ghost p = called_otherwise(name@);
        let mut rest: Vec<IndexSchema> = no_items();
        let mut i: usize = 0;
        while i < self.indexes.len()
            invariant
                i <= self.indexes.len(),
                all == self.indexes.deep_view(),
                p == called_otherwise(name@),
                rest.deep_view() == store_helpers::kept(all.take(i as int), p),
            decreases self.indexes.len() - i,
        {
            proof {
                assert(all.take(i + 1).drop_last() =~= all.take(i as int));
                assert(all.take(i + 1).last() == self.indexes@[i as int].deep_view());
            }
            if !same_text(self.indexes[i].name.as_str(), name) {
                push_back(&mut rest, self.indexes[i].duplicate());
            }
            i += 1;
        }
        proof {
            assert(all.take(i as int) =~= all);
        }
        self.indexes = rest;
    }

    fn remove_indexes_of(&mut self, table: &str)
        ensures
            final(self).deep_view() == (CatalogModel {
                indexes: store_helpers::kept(
                    old(self).deep_view().indexes,
                    belongs_elsewhere(table@),
                ),
                ..old(self).deep_view()
            }),
    {
        let ghost all = self.indexes.deep_view();
        let ghost p = belongs_elsewhere(table@);
        let mut rest: Vec<IndexSchema> = no_items();
        let mut i: usize = 0;
        while i < self.indexes.len()
            invariant
                i <= self.indexes.len(),
                all == self.indexes.deep_view(),
                p == belongs_elsewhere(table@),
                rest.deep_view() == store_helpers::kept(all.take(i as int), p),
            decreases self.indexes.len() - i,
        {
            proof {
                assert(all.take(i + 1).drop_last() =~= all.take(i as int));
                assert(all.take(i + 1).last() == self.indexes@[i as int].deep_view());
            }
            if !same_text(self.indexes[i].table_name.as_str(), table) {
                push_back(&mut rest, self.indexes[i].duplicate());
            }
            i += 1;
        }
        proof {
            assert(all.take(i as int) =~= all);
        }
        self.indexes = rest;
    }

    /// The indexes of a table.
    pub fn indexes_for_table(&self, table_name: &str) -> (r: Vec<IndexSchema>)
        ensures
            r.deep_view() == indexes_of(self.deep_view().indexes, table_name@),
    {
        let ghost all = self.indexes.deep_view();
        let ghost p = belongs_to(table_name@);
        let mut out: Vec<IndexSchema> = no_items();
        let mut i: usize = 0;
        while i < self.indexes.len()
            invariant
                i <= self.indexes.len(),
                all == self.indexes.deep_view(),
                p == belongs_to(table_name@),
                out.deep_view() == store_helpers::kept(all.take(i as int), p),
            decreases self.indexes.len() - i,
        {
            proof {
                assert(all.take(i + 1).drop_last() =~= all.take(i as int));
                assert(all.take(i + 1).last() == self.indexes@[i as int].deep_view());
            }
            if same_text(self.indexes[i].table_name.as_str(), table_name) {
                push_back(&mut out, self.indexes[i].duplicate());
            }
            i += 1;
        }
        proof {
            assert(all.take(i as int) =~= all);
        }
        out
    }

    /// The first index of a table from which a condition can be answered.
    pub fn find_index_for_predicate(&self, table_name: &str, predicate: &QualifiedPredicate) -> (r:
        Option<IndexSchema>)
        ensures
            r.deep_view() == index_for(
                indexes_of(self.deep_view().indexes, table_name@),
                predicate.deep_view(),
            ),
    {
        let indexes = self.indexes_for_table(table_name);
        let ghost all = indexes.deep_view();
        let mut i: usize = 0;
        proof {
            assert(all.skip(0) =~= all);
        }
        while i < indexes.len()
            invariant
                i <= indexes.len(),
                all == indexes.deep_view(),
                all == indexes_of(self.deep_view().indexes, table_name@),
                index_for(all, predicate.deep_view()) == index_for(
                    all.skip(i as int),
                    predicate.deep_view(),
                ),
            decreases indexes.len() - i,
        {
            proof {
                assert(all.skip(i as int)[0] == indexes@[i as int].deep_view());
                assert(all.skip(i as int).drop_first() =~= all.skip(i + 1));
            }
            if predicate.index_key_for(&indexes[i]).is_some() {
                return Some(indexes[i].duplicate());
            }
            i += 1;
        }
        None
    }

    /// The columns of a row at the places of a projection.
    pub fn project_row(&self, row: &EngineRow, projection: &Vec<usize>) -> (r: Result<
        EngineRow,
        EngineError,
    >)
        ensures
            plain::outcome(r) == projected_row(row.deep_view(), projection@),
    {
        project_row(row, projection)
    }

    /// Takes over what a store keeps.
    pub fn load_from_store<S: EngineStore>(&mut self, store: &S) -> (r: Result<(), EngineError>)
        ensures
            match r {
                Ok(_) => loaded_catalog(store.trees()) == Ok::<CatalogModel, ErrorModel>(
                    final(self).deep_view(),
                ),
                Err(e) => final(self).deep_view() == old(self).deep_view() && ((error::is_fault(r)
                    && !store.sound()) || loaded_catalog(store.trees()) == Err::<
                    CatalogModel,
                    ErrorModel,
                >(e.deep_view())),
            },
    {
        let tx = store.engine_transaction();
        proof {
            patch::law_empty_patch(store.trees());
        }
        let (tables, indexes) = match tx.load_catalog() {
            Ok((tables, indexes)) => (tables, indexes),
            Err(e) => {
                return Err(e);
            },
        };
        let mut fresh = EngineCatalog::new();
        let ghost all = tables.deep_view();
        let mut i: usize = 0;
        proof {
            assert(all.take(0) =~= Seq::empty());
        }
        while i < tables.len()
            invariant
                i <= tables.len(),
                all == tables.deep_view(),
                fresh.deep_view() == (CatalogModel {
                    tables: tables_by_name(all.take(i as int)),
                    indexes: Seq::empty(),
                }),
            decreases tables.len() - i,
        {
            proof {
                assert(all.take(i + 1).drop_last() =~= all.take(i as int));
                assert(all.take(i + 1).last() == tables@[i as int].deep_view());
            }
            fresh.insert_table(tables[i].duplicate());
            i += 1;
        }
        let ghost listed = indexes.deep_view();
        let mut k: usize = 0;
        proof {
            assert(all.take(i as int) =~= all);
            assert(listed.take(0) =~= Seq::empty());
        }
        while k < indexes.len()
            invariant
                k <= indexes.len(),
                listed == indexes.deep_view(),
                fresh.deep_view() == (CatalogModel {
                    tables: tables_by_name(all),
                    indexes: distinct_indexes(listed.take(k as int)),
                }),
            decreases indexes.len() - k,
        {
            proof {
                assert(listed.take(k + 1).drop_last() =~= listed.take(k as int));
                assert(listed.take(k + 1).last() == indexes@[k as int].deep_view());
            }
            fresh.insert_index(indexes[k].duplicate());
            k += 1;
        }
        proof {
            assert(listed.take(k as int) =~= listed);
        }
        *self = fresh;
        Ok(())
    }

    /// Registers a table, and keeps it in the store.
    pub fn register_table<S: EngineStore>(&mut self, store: &mut S, schema: TableSchema) -> (r: Result<
        (),
        EngineError,
    >)
        ensures
            final(store).sound() == old(store).sound(),
            registers(
                r,
                old(store).sound(),
                old(store).trees(),
                final(self).deep_view(),
                final(store).trees(),
                table_registered(old(store).trees(), old(self).deep_view(), schema.deep_view()),
            ),
            r is Ok ==> <TableSchema as Encoded>::fits(schema.deep_view()),
    {
        match self.load_from_store(&*store) {
            Ok(()) => {},
            Err(e) => {
                return Err(e);
            },
        }
        if self.contains_table(schema.name.as_str()) {
            return Err(EngineError::DuplicateTable(schema.name));
        }
        proof {
            patch::law_empty_patch(store.trees());
        }
        let mut tx = store.engine_transaction();
        match tx.insert_table_schema(&schema) {
            Ok(()) => {},
            Err(e) => {
                return Err(e);
            },
        }
        let changes = tx.into_changes();
        match commit(store, changes) {
            Ok(()) => {},
            Err(e) => {
                return Err(e);
            },
        }
        self.insert_table(schema);
        Ok(())
    }

    /// Registers an index, and keeps it in the store. Rows that are there
    /// already are not entered.
    pub fn register_index<S: EngineStore>(&mut self, store: &mut S, schema: IndexSchema) -> (r: Result<
        (),
        EngineError,
    >)
        ensures
            final(store).sound() == old(store).sound(),
            registers(
                r,
                old(store).sound(),
                old(store).trees(),
                final(self).deep_view(),
                final(store).trees(),
                index_registered(old(store).trees(), old(self).deep_view(), schema.deep_view()),
            ),
            r is Ok ==> <IndexSchema as Encoded>::fits(schema.deep_view()),
    {
        match self.load_from_store(&*store) {
            Ok(()) => {},
            Err(e) => {
                return Err(e);
            },
        }
        if self.contains_index(schema.name.as_str()) {
            return Err(EngineError::DuplicateIndex(schema.name));
        }
        match self.table(schema.table_name.as_str()) {
            Ok(table) => match schema.validate_for_table(table) {
                Ok(()) => {},
                Err(e) => {
                    return Err(e);
                },
            },
            Err(e) => {
                return Err(e);
            },
        }
        proof {
            patch::law_empty_patch(store.trees());
        }
        let mut tx = store.engine_transaction();
        match tx.insert_index_schema(&schema) {
            Ok(()) => {},
            Err(e) => {
                return Err(e);
            },
        }
        let changes = tx.into_changes();
        match commit(store, changes) {
            Ok(()) => {},
            Err(e) => {
                return Err(e);
            },
        }
        self.insert_index(schema);
        Ok(())
    }

    /// Drops a table with its rows and its indexes.
    pub fn drop_table<S: EngineStore>(&mut self, store: &mut S, table_name: &str) -> (r: Result<
        (),
        EngineError,
    >)
        ensures
            final(store).sound() == old(store).sound(),
            registers(
                r,
                old(store).sound(),
                old(store).trees(),
                final(self).deep_view(),
                final(store).trees(),
                table_dropped(old(store).trees(), old(self).deep_view(), table_name@),
            ),
    {
        match self.load_from_store(&*store) {
            Ok(()) => {},
            Err(e) => {
                return Err(e);
            },
        }
        if !self.contains_table(table_name) {
            return Err(EngineError::TableNotFound(table_name.to_string()));
        }
        let indexes = self.indexes_for_table(table_name);
        proof {
            patch::law_empty_patch(store.trees());
        }
        let mut tx = store.engine_transaction();
        match clear_table(&mut tx, table_name, &indexes) {
            Ok(()) => {},
            Err(e) => {
                return Err(e);
            },
        }
        let changes = tx.into_changes();
        match commit(store, changes) {
            Ok(()) => {},
            Err(e) => {
                return Err(e);
            },
        }
        self.tables.remove(&table_name.to_string());
        self.remove_indexes_of(table_name);
        Ok(())
    }

    /// The first index of that name.
    fn find_index(&self, name: &str) -> (r: Option<IndexSchema>)
        ensures
            r.deep_view() == index_named(self.deep_view().indexes, name@),
    {
        let ghost all = self.indexes.deep_view();
        let mut i: usize = 0;
        proof {
            assert(all.skip(0) =~= all);
        }
        while i < self.indexes.len()
            invariant
                i <= self.indexes.len(),
                all == self.indexes.deep_view(),
                index_named(all, name@) == index_named(all.skip(i as int), name@),
            decreases self.indexes.len() - i,
        {
            proof {
                assert(all.skip(i as int)[0] == self.indexes@[i as int].deep_view());
                assert(all.skip(i as int).drop_first() =~= all.skip(i + 1));
            }
            if same_text(self.indexes[i].name.as_str(), name) {
                return Some(self.indexes[i].duplicate());
            }
            i += 1;
        }
        None
    }

    /// Drops an index.
    pub fn drop_index<S: EngineStore>(&mut self, store: &mut S, index_name: &str) -> (r: Result<
        (),
        EngineError,
    >)
        ensures
            final(store).sound() == old(store).sound(),
            registers(
                r,
                old(store).sound(),
                old(store).trees(),
                final(self).deep_view(),
                final(store).trees(),
                index_dropped(old(store).trees(), old(self).deep_view(), index_name@),
            ),
    {
        match self.load_from_store(&*store) {
            Ok(()) => {},
            Err(e) => {
                return Err(e);
            },
        }
        let index = match self.find_index(index_name) {
            Some(index) => index,
            None => {
                return Err(EngineError::IndexNotFound(index_name.to_string()));
            },
        };
        proof {
            patch::law_empty_patch(store.trees());
        }
        let mut tx = store.engine_transaction();
        match clear_index(&mut tx, &index) {
            Ok(()) => {},
            Err(e) => {
                return Err(e);
            },
        }
        let changes = tx.into_changes();
        match commit(store, changes) {
            Ok(()) => {},
            Err(e) => {
                return Err(e);
            },
        }
        self.remove_index(index_name);
        Ok(())
    }
}

/// Something was taken out if it could be, or the store below, which is not sound,
/// failed.
spec fn cleared(
    r: Result<(), EngineError>,
    sound: bool,
    after: Trees,
    clearable: bool,
    exact: Trees,
) -> bool {
    (error::is_fault(r) && !sound) || if clearable {
        r is Ok && after == exact
    } else {
        plain::outcome(r) == Err::<(), ErrorModel>(schema::no_primary_key())
    }
}

/// Takes an index out.
fn clear_index<'s, S: EngineStore>(tx: &mut NamedTreeEngineTransaction<'s, S>, index: &IndexSchema) -> (r:
    Result<(), EngineError>)
    ensures
        final(tx).sound() == old(tx).sound(),
        final(tx).base() == old(tx).base(),
        cleared(
            r,
            old(tx).sound(),
            final(tx).trees(),
            store::entries_fit(store::index_entries(old(tx).trees(), index.deep_view())),
            index_cleared(old(tx).trees(), index.deep_view()),
        ),
{
    match remove_index_entries(tx, index) {
        Ok(()) => {},
        Err(e) => {
            return Err(e);
        },
    }
    tx.remove_index_schema(index.name.as_str())
}

/// Takes a table and its indexes out.
fn clear_table<'s, S: EngineStore>(
    tx: &mut NamedTreeEngineTransaction<'s, S>,
    table_name: &str,
    indexes: &Vec<IndexSchema>,
) -> (r: Result<(), EngineError>)
    ensures
        final(tx).sound() == old(tx).sound(),
        final(tx).base() == old(tx).base(),
        cleared(
            r,
            old(tx).sound(),
            final(tx).trees(),
            is_clearable(old(tx).trees(), table_name@, indexes.deep_view()),
            table_cleared(old(tx).trees(), table_name@, indexes.deep_view()),
        ),
{
    match remove_table_rows(tx, table_name) {
        Ok(()) => {},
        Err(e) => {
            return Err(e);
        },
    }
    let ghost all = indexes.deep_view();
    let ghost wanted = indexes_cleared(tx.trees(), all);
    let mut i: usize = 0;
    proof {
        assert(all.skip(0) =~= all);
    }
    while i < indexes.len()
        invariant
            i <= indexes.len(),
            all == indexes.deep_view(),
            tx.sound() == old(tx).sound(),
            tx.base() == old(tx).base(),
            wanted == indexes_cleared(tx.trees(), all.skip(i as int)),
            is_clearable(old(tx).trees(), table_name@, all) == all_clearable(
                tx.trees(),
                all.skip(i as int),
            ),
        decreases indexes.len() - i,
    {
        proof {
            assert(all.skip(i as int)[0] == indexes@[i as int].deep_view());
            assert(all.skip(i as int).drop_first() =~= all.skip(i + 1));
        }
        match clear_index(tx, &indexes[i]) {
            Ok(()) => {},
            Err(e) => {
                return Err(e);
            },
        }
        i += 1;
    }
    tx.remove_table_schema(table_name)
}

} // verus!
