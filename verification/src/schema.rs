//! Schemas of tables and indexes, and the keys that they take from rows.
use vstd::prelude::*;
use crate::error::{schema_mismatch, EngineError, ErrorModel};
use crate::plain::{self, no_items, push_back, same_text, Plain};
use crate::text::joined;
use crate::value::{
    self, EngineKey, EngineRow, EngineType, EngineValue, PrimaryKey, ValueModel,
};

verus! {

/// A column of a table.
#[derive(Clone, Debug, PartialEq, Eq)]
pub struct ColumnSchema {
    pub name: String,
    pub data_type: EngineType,
}

#[verifier::ext_equal]
pub struct ColumnModel {
    pub name: Seq<char>,
    pub data_type: EngineType,
}

impl DeepView for ColumnSchema {
    type V = ColumnModel;

    open spec fn deep_view(&self) -> ColumnModel {
        ColumnModel { name: self.name@, data_type: self.data_type }
    }
}

impl Plain for ColumnSchema {
    fn duplicate(&self) -> (r: Self) {
        ColumnSchema { name: self.name.clone(), data_type: self.data_type }
    }

    fn same(&self, other: &Self) -> (r: bool) {
        same_text(self.name.as_str(), other.name.as_str()) && self.data_type == other.data_type
    }
}

/// A table: its columns, and the columns that make up its primary key.
#[derive(Clone, Debug, PartialEq, Eq)]
pub struct TableSchema {
    pub name: String,
    pub columns: Vec<ColumnSchema>,
    pub primary_key: Vec<usize>,
}

#[verifier::ext_equal]
pub struct TableModel {
    pub name: Seq<char>,
    pub columns: Seq<ColumnModel>,
    pub primary_key: Seq<usize>,
}

impl DeepView for TableSchema {
    type V = TableModel;

    open spec fn deep_view(&self) -> TableModel {
        TableModel {
            name: self.name@,
            columns: self.columns.deep_view(),
            primary_key: self.primary_key.deep_view(),
        }
    }
}

impl Plain for TableSchema {
    fn duplicate(&self) -> (r: Self) {
        TableSchema {
            name: self.name.clone(),
            columns: self.columns.duplicate(),
            primary_key: self.primary_key.duplicate(),
        }
    }

    fn same(&self, other: &Self) -> (r: bool) {
        same_text(self.name.as_str(), other.name.as_str()) && self.columns.same(&other.columns)
            && self.primary_key.same(&other.primary_key)
    }
}

/// An index over columns of a table.
#[derive(Clone, Debug, PartialEq, Eq)]
pub struct IndexSchema {
    pub name: String,
    pub table_name: String,
    pub column_indices: Vec<usize>,
    pub unique: bool,
}

#[verifier::ext_equal]
pub struct IndexModel {
    pub name: Seq<char>,
    pub table_name: Seq<char>,
    pub column_indices: Seq<usize>,
    pub unique: bool,
}

impl DeepView for IndexSchema {
    type V = IndexModel;

    open spec fn deep_view(&self) -> IndexModel {
        IndexModel {
            name: self.name@,
            table_name: self.table_name@,
            column_indices: self.column_indices.deep_view(),
            unique: self.unique,
        }
    }
}

impl Plain for IndexSchema {
    fn duplicate(&self) -> (r: Self) {
        IndexSchema {
            name: self.name.clone(),
            table_name: self.table_name.clone(),
            column_indices: self.column_indices.duplicate(),
            unique: self.unique,
        }
    }

    fn same(&self, other: &Self) -> (r: bool) {
        same_text(self.name.as_str(), other.name.as_str()) && same_text(
            self.table_name.as_str(),
            other.table_name.as_str(),
        ) && self.column_indices.same(&other.column_indices) && self.unique == other.unique
    }
}

/// Whether a column of type `t` may hold `v`. Every column may hold NULL; a
/// text column also holds JSON.
pub open spec fn value_fits(v: ValueModel, t: EngineType) -> bool {
    match v {
        ValueModel::Null => true,
        ValueModel::Integer(_) => t == EngineType::Integer,
        ValueModel::Float(_) => t == EngineType::Float,
        ValueModel::Text(_) => t == EngineType::Text,
        ValueModel::Uuid(_) => t == EngineType::Uuid,
        ValueModel::Blob(_) => t == EngineType::Blob,
        ValueModel::Json(_) => t == EngineType::Text,
    }
}

fn fits(v: &EngineValue, t: EngineType) -> (r: bool)
    ensures
        r == value_fits(v.deep_view(), t),
{
    match v {
        EngineValue::Null => true,
        EngineValue::Integer(_) => t == EngineType::Integer,
        EngineValue::Float(_) => t == EngineType::Float,
        EngineValue::Text(_) => t == EngineType::Text,
        EngineValue::Uuid(_) => t == EngineType::Uuid,
        EngineValue::Blob(_) => t == EngineType::Blob,
        EngineValue::Json(_) => t == EngineType::Text,
    }
}

/// The place of the first column of that name, if there is one.
pub open spec fn column_position(columns: Seq<ColumnModel>, name: Seq<char>) -> Option<int>
    decreases columns.len(),
{
    if columns.len() == 0 {
        None
    } else if columns[0].name == name {
        Some(0)
    } else {
        match column_position(columns.drop_first(), name) {
            Some(i) => Some(i + 1),
            None => None,
        }
    }
}

/// What [`column_position`] finds is the first column of that name, and it
/// finds one where there is one.
pub proof fn lemma_column_position(columns: Seq<ColumnModel>, name: Seq<char>)
    ensures
        match column_position(columns, name) {
            Some(i) => 0 <= i < columns.len() && columns[i].name == name && forall|j: int|
                0 <= j < i ==> columns[j].name != name,
            None => forall|j: int| 0 <= j < columns.len() ==> columns[j].name != name,
        },
    decreases columns.len(),
{
    if columns.len() > 0 && columns[0].name != name {
        let rest = columns.drop_first();
        lemma_column_position(rest, name);
        assert forall|j: int| 0 < j < columns.len() implies columns[j] == rest[j - 1] by {}
    }
}

/// The place of the first column called `name`.
pub fn find_column(columns: &Vec<ColumnSchema>, name: &str) -> (r: Option<usize>)
    ensures
        match r {
            Some(i) => column_position(columns.deep_view(), name@) == Some(i as int) && i
                < columns.len(),
            None => column_position(columns.deep_view(), name@) is None,
        },
{
    let ghost cs = columns.deep_view();
    proof {
        lemma_column_position(cs, name@);
    }
    let mut i: usize = 0;
    while i < columns.len()
        invariant
            i <= columns.len(),
            cs == columns.deep_view(),
            forall|j: int| 0 <= j < i ==> cs[j].name != name@,
            match column_position(cs, name@) {
                Some(k) => 0 <= k < cs.len() && cs[k].name == name@ && forall|j: int|
                    0 <= j < k ==> cs[j].name != name@,
                None => forall|j: int| 0 <= j < cs.len() ==> cs[j].name != name@,
            },
        decreases columns.len() - i,
    {
        if same_text(columns[i].name.as_str(), name) {
            assert(cs[i as int].name == name@);
            return Some(i);
        }
        assert(cs[i as int].name != name@);
        i += 1;
    }
    None
}

/// Where a row first holds a value that its column may not hold.
pub open spec fn misfit(row: Seq<ValueModel>, columns: Seq<ColumnModel>, from: int) -> Option<int>
    decreases columns.len() - from,
{
    if from < 0 || from >= columns.len() {
        None
    } else if !value_fits(row[from], columns[from].data_type) {
        Some(from)
    } else {
        misfit(row, columns, from + 1)
    }
}

/// Whether a row fits a table: as many values as columns, each of a type that
/// its column may hold.
pub open spec fn row_check(table: TableModel, row: Seq<ValueModel>) -> Result<(), ErrorModel> {
    if row.len() != table.columns.len() {
        Err(
            ErrorModel::SchemaMismatch(
                "row length does not match the columns of table "@ + table.name,
            ),
        )
    } else {
        match misfit(row, table.columns, 0) {
            Some(i) => Err(
                ErrorModel::TypeMismatch("value does not fit column "@ + table.columns[i].name),
            ),
            None => Ok(()),
        }
    }
}

/// The values of `row` at the places `columns`, or `None` where a place lies
/// outside the row.
pub open spec fn picked(row: Seq<ValueModel>, columns: Seq<usize>) -> Option<Seq<ValueModel>> {
    if forall|i: int| 0 <= i < columns.len() ==> (#[trigger] columns[i]) < row.len() {
        Some(Seq::new(columns.len(), |i: int| row[columns[i] as int]))
    } else {
        None
    }
}

fn pick(row: &EngineRow, columns: &Vec<usize>) -> (r: Option<Vec<EngineValue>>)
    ensures
        r.deep_view() == picked(row.deep_view(), columns.deep_view()),
{
    let ghost cs = columns.deep_view();
    let ghost values = row.deep_view();
    let mut out: Vec<EngineValue> = no_items();
    let mut i: usize = 0;
    while i < columns.len()
        invariant
            i <= columns.len(),
            cs == columns.deep_view(),
            values == row.deep_view(),
            forall|j: int| 0 <= j < i ==> (#[trigger] cs[j]) < values.len(),
            out.deep_view() == Seq::new(i as nat, |j: int| values[cs[j] as int]),
        decreases columns.len() - i,
    {
        assert(cs[i as int] == columns@[i as int]);
        if columns[i] >= row.len() {
            return None;
        }
        push_back(&mut out, row[columns[i]].duplicate());
        proof {
            assert(out.deep_view() =~= Seq::new((i + 1) as nat, |j: int| values[cs[j] as int]));
        }
        i += 1;
    }
    Some(out)
}

/// The refusal of a key under which no row can be stored.
pub open spec fn no_primary_key() -> ErrorModel {
    ErrorModel::SchemaMismatch("row primary key must be UUID scalar"@)
}

/// The primary key that a key is.
pub fn primary_key_from_engine_key(key: EngineKey) -> (r: Result<PrimaryKey, EngineError>)
    ensures
        match r {
            Ok(pk) => value::is_primary_key(key.deep_view()) && pk == key,
            Err(e) => !value::is_primary_key(key.deep_view()) && e.deep_view() == no_primary_key(),
        },
{
    if key.is_primary() {
        Ok(key)
    } else {
        Err(schema_mismatch("row primary key must be UUID scalar"))
    }
}

/// The primary key that a row has in a table. A key column that is missing
/// or NULL, or a table without key columns, gives none.
pub open spec fn primary_key_of(table: TableModel, row: Seq<ValueModel>) -> Result<
    Seq<ValueModel>,
    ErrorModel,
> {
    match picked(row, table.primary_key) {
        Some(values) => if values.len() == 0 || values.contains(ValueModel::Null) {
            Err(ErrorModel::PrimaryKeyMissing)
        } else if value::is_primary_key(values) {
            Ok(values)
        } else {
            Err(no_primary_key())
        },
        None => Err(ErrorModel::PrimaryKeyMissing),
    }
}

fn holds_null(values: &Vec<EngineValue>) -> (r: bool)
    ensures
        r == values.deep_view().contains(ValueModel::Null),
{
    let mut i: usize = 0;
    while i < values.len()
        invariant
            i <= values.len(),
            forall|j: int| 0 <= j < i ==> values.deep_view()[j] != ValueModel::Null,
        decreases values.len() - i,
    {
        if let EngineValue::Null = &values[i] {
            assert(values.deep_view()[i as int] == ValueModel::Null);
            return true;
        }
        i += 1;
    }
    false
}

impl TableSchema {
    /// Checks that a row fits the table.
    pub fn validate_row(&self, row: &EngineRow) -> (r: Result<(), EngineError>)
        ensures
            plain::outcome(r) == row_check(self.deep_view(), row.deep_view()),
    {
        if row.len() != self.columns.len() {
            return Err(
                EngineError::SchemaMismatch(
                    joined("row length does not match the columns of table ", self.name.as_str()),
                ),
            );
        }
        let ghost values = row.deep_view();
        let ghost cs = self.columns.deep_view();
        let mut i: usize = 0;
        while i < self.columns.len()
            invariant
                i <= self.columns.len(),
                row.len() == self.columns.len(),
                values == row.deep_view(),
                cs == self.columns.deep_view(),
                misfit(values, cs, 0) == misfit(values, cs, i as int),
            decreases self.columns.len() - i,
        {
            if !fits(&row[i], self.columns[i].data_type) {
                return Err(
                    EngineError::TypeMismatch(
                        joined("value does not fit column ", self.columns[i].name.as_str()),
                    ),
                );
            }
            i += 1;
        }
        Ok(())
    }

    /// The primary key of a row.
    pub fn primary_key(&self, row: &EngineRow) -> (r: Result<PrimaryKey, EngineError>)
        ensures
            plain::outcome(r) == primary_key_of(self.deep_view(), row.deep_view()),
    {
        match pick(row, &self.primary_key) {
            Some(values) => {
                if values.len() == 0 || holds_null(&values) {
                    Err(EngineError::PrimaryKeyMissing)
                } else {
                    primary_key_from_engine_key(EngineKey::from_values(values))
                }
            },
            None => Err(EngineError::PrimaryKeyMissing),
        }
    }
}

/// The key under which an index files a row.
pub open spec fn index_key_of(index: IndexModel, row: Seq<ValueModel>) -> Result<
    Seq<ValueModel>,
    ErrorModel,
> {
    match picked(row, index.column_indices) {
        Some(values) => Ok(values),
        None => Err(
            ErrorModel::SchemaMismatch("row has no value for a column of index "@ + index.name),
        ),
    }
}

/// Whether an index can be laid over a table: at least one column, and none
/// beyond the table's.
pub open spec fn index_check(index: IndexModel, table: TableModel) -> Result<(), ErrorModel> {
    if index.column_indices.len() == 0 {
        Err(ErrorModel::SchemaMismatch("no columns in index "@ + index.name))
    } else if exists|i: int|
        0 <= i < index.column_indices.len() && (#[trigger] index.column_indices[i])
            >= table.columns.len() {
        Err(ErrorModel::SchemaMismatch("column out of bounds in index "@ + index.name))
    } else {
        Ok(())
    }
}

impl IndexSchema {
    /// The key under which the index files a row.
    pub fn key_for(&self, row: &EngineRow) -> (r: Result<EngineKey, EngineError>)
        ensures
            plain::outcome(r) == index_key_of(self.deep_view(), row.deep_view()),
    {
        match pick(row, &self.column_indices) {
            Some(values) => Ok(EngineKey::from_values(values)),
            None => Err(
                EngineError::SchemaMismatch(
                    joined("row has no value for a column of index ", self.name.as_str()),
                ),
            ),
        }
    }

    /// Checks that the index can be laid over `table`.
    pub fn validate_for_table(&self, table: &TableSchema) -> (r: Result<(), EngineError>)
        ensures
            plain::outcome(r) == index_check(self.deep_view(), table.deep_view()),
    {
        if self.column_indices.len() == 0 {
            return Err(
                EngineError::SchemaMismatch(joined("no columns in index ", self.name.as_str())),
            );
        }
        let ghost cs = self.column_indices.deep_view();
        let mut i: usize = 0;
        while i < self.column_indices.len()
            invariant
                i <= self.column_indices.len(),
                cs == self.column_indices.deep_view(),
                forall|j: int| 0 <= j < i ==> (#[trigger] cs[j]) < table.columns.len(),
            decreases self.column_indices.len() - i,
        {
            assert(cs[i as int] == self.column_indices@[i as int]);
            if self.column_indices[i] >= table.columns.len() {
                return Err(
                    EngineError::SchemaMismatch(
                        joined("column out of bounds in index ", self.name.as_str()),
                    ),
                );
            }
            i += 1;
        }
        Ok(())
    }

    /// The key of an entry of the index: the index key, followed by the
    /// primary key of the row.
    pub fn make_entry_key(&self, index_key: &EngineKey, row_pk: &EngineKey) -> (r: EngineKey)
        ensures
            r.deep_view() == index_key.deep_view() + row_pk.deep_view(),
    {
        let mut values = index_key.values.duplicate();
        let ghost head = values.deep_view();
        let mut i: usize = 0;
        while i < row_pk.values.len()
            invariant
                i <= row_pk.values.len(),
                values.deep_view() == head + row_pk.values.deep_view().take(i as int),
            decreases row_pk.values.len() - i,
        {
            push_back(&mut values, row_pk.values[i].duplicate());
            proof {
                assert(values.deep_view() =~= head + row_pk.values.deep_view().take(i + 1));
            }
            i += 1;
        }
        proof {
            assert(row_pk.values.deep_view().take(i as int) =~= row_pk.values.deep_view());
        }
        EngineKey { values }
    }

    /// Parts the key of an entry again: as many values as the index has
    /// columns, and the rest.
    pub fn split_entry_key(&self, composite: &EngineKey) -> (r: (EngineKey, EngineKey))
        ensures
            (r.0.deep_view(), r.1.deep_view()) == split_entry(self.deep_view(), composite.deep_view()),
    {
        let n: usize = if self.column_indices.len() <= composite.values.len() {
            self.column_indices.len()
        } else {
            composite.values.len()
        };
        let ghost all = composite.values.deep_view();
        let mut head: Vec<EngineValue> = no_items();
        let mut tail: Vec<EngineValue> = no_items();
        let mut i: usize = 0;
        while i < composite.values.len()
            invariant
                i <= composite.values.len(),
                n <= composite.values.len(),
                all == composite.values.deep_view(),
                head.deep_view() == all.take(if i < n { i as int } else { n as int }),
                tail.deep_view() == all.subrange(if i < n { i as int } else { n as int }, i as int),
            decreases composite.values.len() - i,
        {
            if i < n {
                push_back(&mut head, composite.values[i].duplicate());
                proof {
                    assert(head.deep_view() =~= all.take(i + 1));
                    assert(tail.deep_view() =~= all.subrange(i + 1, i + 1));
                }
            } else {
                push_back(&mut tail, composite.values[i].duplicate());
                proof {
                    assert(tail.deep_view() =~= all.subrange(n as int, i + 1));
                }
            }
            i += 1;
        }
        proof {
            assert(all.subrange(n as int, all.len() as int) =~= all.skip(n as int));
        }
        (EngineKey { values: head }, EngineKey { values: tail })
    }
}

/// The key of an entry, parted after as many values as the index has columns.
pub open spec fn split_entry(index: IndexModel, composite: Seq<ValueModel>) -> (
    Seq<ValueModel>,
    Seq<ValueModel>,
) {
    let n = if index.column_indices.len() <= composite.len() {
        index.column_indices.len() as int
    } else {
        composite.len() as int
    };
    (composite.take(n), composite.skip(n))
}

/// Law: parting an entry's key gives back the index key and the primary key
/// that it was made of.
pub proof fn law_split_undoes_make(index: IndexModel, row: Seq<ValueModel>, pk: Seq<ValueModel>)
    requires
        index_key_of(index, row) is Ok,
    ensures
        split_entry(index, index_key_of(index, row)->Ok_0 + pk) == (
            index_key_of(index, row)->Ok_0,
            pk,
        ),
{
    let key = index_key_of(index, row)->Ok_0;
    assert((key + pk).take(key.len() as int) =~= key);
    assert((key + pk).skip(key.len() as int) =~= pk);
}

} // verus!
