//! Where rows, indexes and schemas are kept, and as what.
use vstd::prelude::*;
use crate::codec::{self, decode_from_slice, encode_to_vec, Encoded};
use crate::error::{schema_mismatch, EngineError, ErrorModel};
use crate::plain::{self, no_items, one_item, push_back};
use crate::schema::{IndexSchema, TableSchema};
use crate::text::joined;
use crate::value::{EngineKey, EngineRow, EngineValue, ValueModel};

verus! {

/// The tree of the rows of a table.
pub open spec fn rows_of(table: Seq<char>) -> Seq<char> {
    "t:"@ + table
}

/// The tree of the entries of an index.
pub open spec fn entries_of(index: Seq<char>) -> Seq<char> {
    "i:"@ + index
}

/// The tree of the schemas of all tables.
pub open spec fn table_schemas() -> Seq<char> {
    "sys:table_schemas"@
}

/// The tree of the schemas of all indexes.
pub open spec fn index_schemas() -> Seq<char> {
    "sys:index_schemas"@
}

/// Law: what is kept apart is kept in different trees.
pub proof fn law_trees_apart(a: Seq<char>, b: Seq<char>)
    ensures
        rows_of(a) == rows_of(b) ==> a == b,
        entries_of(a) == entries_of(b) ==> a == b,
        rows_of(a) != entries_of(b),
        rows_of(a) != table_schemas(),
        rows_of(a) != index_schemas(),
        entries_of(a) != table_schemas(),
        entries_of(a) != index_schemas(),
        table_schemas() != index_schemas(),
{
    reveal_strlit("t:");
    reveal_strlit("i:");
    reveal_strlit("sys:table_schemas");
    reveal_strlit("sys:index_schemas");
    assert(rows_of(a)[0] == 't');
    assert(entries_of(b)[0] == 'i');
    assert(entries_of(a)[0] == 'i');
    assert(table_schemas()[0] == 's');
    assert(index_schemas()[0] == 's');
    assert(table_schemas()[4] == 't');
    assert(index_schemas()[4] == 'i');
    assert(rows_of(a).skip(2) =~= a);
    assert(rows_of(b).skip(2) =~= b);
    assert(entries_of(a).skip(2) =~= a);
    assert(entries_of(b).skip(2) =~= b);
}

/// The tree of the rows of a table.
pub fn row_tree(table_name: &str) -> (r: String)
    ensures
        r@ == rows_of(table_name@),
{
    joined("t:", table_name)
}

/// The tree of the entries of an index.
pub fn index_tree(index_name: &str) -> (r: String)
    ensures
        r@ == entries_of(index_name@),
{
    joined("i:", index_name)
}

/// The key of a schema.
pub open spec fn schema_key(name: Seq<char>) -> Seq<ValueModel> {
    seq![ValueModel::Text(name)]
}

/// The key of a schema.
pub fn schema_entry_key(name: &str) -> (r: EngineKey)
    ensures
        r.deep_view() == schema_key(name@),
{
    EngineKey::from_values(one_item(EngineValue::Text(name.to_string())))
}

/// The row that keeps a schema: its bytes.
pub open spec fn schema_row<T: Encoded>(schema: <T as DeepView>::V) -> Seq<ValueModel> {
    seq![ValueModel::Blob(T::encoded(schema))]
}

/// The schema that a row keeps, `refusal` being what is said of a row that
/// holds no bytes.
pub open spec fn kept_schema<T: Encoded>(row: Seq<ValueModel>, refusal: Seq<char>) -> Result<
    <T as DeepView>::V,
    ErrorModel,
> {
    if row.len() == 0 {
        Err(ErrorModel::SchemaMismatch(refusal))
    } else {
        match row[0] {
            ValueModel::Blob(bytes) => match codec::whole(T::parsed(bytes)) {
                Ok(schema) => Ok(schema),
                Err(e) => Err(ErrorModel::SchemaMismatch(codec::decode_error_text(e))),
            },
            _ => Err(ErrorModel::SchemaMismatch(refusal)),
        }
    }
}

/// Law: a schema that is kept is found again.
pub proof fn law_schema_kept<T: Encoded>(schema: <T as DeepView>::V, refusal: Seq<char>)
    requires
        T::fits(schema),
    ensures
        kept_schema::<T>(schema_row::<T>(schema), refusal) == Ok::<
            <T as DeepView>::V,
            ErrorModel,
        >(schema),
{
    codec::law_round_trip::<T>(schema);
}

/// The row that keeps a schema.
fn encode_schema<T: Encoded>(schema: &T) -> (r: EngineRow)
    ensures
        r.deep_view() == schema_row::<T>(schema.deep_view()),
        T::fits(schema.deep_view()),
{
    one_item(EngineValue::Blob(encode_to_vec(schema)))
}

/// The row that keeps the schema of a table.
pub fn encode_table_schema(schema: &TableSchema) -> (r: EngineRow)
    ensures
        r.deep_view() == schema_row::<TableSchema>(schema.deep_view()),
        <TableSchema as Encoded>::fits(schema.deep_view()),
{
    encode_schema(schema)
}

/// The row that keeps the schema of an index.
pub fn encode_index_schema(schema: &IndexSchema) -> (r: EngineRow)
    ensures
        r.deep_view() == schema_row::<IndexSchema>(schema.deep_view()),
        <IndexSchema as Encoded>::fits(schema.deep_view()),
{
    encode_schema(schema)
}

fn decode_schema<T: Encoded>(row: &EngineRow, refusal: &str) -> (r: Result<T, EngineError>)
    ensures
        plain::outcome(r) == kept_schema::<T>(row.deep_view(), refusal@),
{
    assert(row.len() == row.deep_view().len());
    if row.len() == 0 {
        return Err(schema_mismatch(refusal));
    }
    match &row[0] {
        EngineValue::Blob(bytes) => match decode_from_slice::<T>(bytes.as_slice()) {
            Ok(schema) => Ok(schema),
            Err(e) => Err(schema_mismatch(e.text())),
        },
        _ => Err(schema_mismatch(refusal)),
    }
}

/// What is said of a row that keeps no table.
pub open spec fn no_table() -> Seq<char> {
    "invalid table schema encoding"@
}

/// What is said of a row that keeps no index.
pub open spec fn no_index() -> Seq<char> {
    "invalid index schema encoding"@
}

/// The table that a row keeps.
pub fn decode_table_schema_row(row: &EngineRow) -> (r: Result<TableSchema, EngineError>)
    ensures
        plain::outcome(r) == kept_schema::<TableSchema>(row.deep_view(), no_table()),
{
    decode_schema(row, "invalid table schema encoding")
}

/// The index that a row keeps.
pub fn decode_index_schema_row(row: &EngineRow) -> (r: Result<IndexSchema, EngineError>)
    ensures
        plain::outcome(r) == kept_schema::<IndexSchema>(row.deep_view(), no_index()),
{
    decode_schema(row, "invalid index schema encoding")
}

/// The schemas that rows keep, or the first refusal.
pub open spec fn kept_schemas<T: Encoded>(
    rows: Seq<(Seq<ValueModel>, Seq<ValueModel>)>,
    refusal: Seq<char>,
) -> Result<Seq<<T as DeepView>::V>, ErrorModel> {
    plain::collected(
        rows,
        |entry: (Seq<ValueModel>, Seq<ValueModel>)| kept_schema::<T>(entry.1, refusal),
    )
}

/// The schemas that the rows of a tree keep.
pub fn decode_schema_rows<T: Encoded>(rows: &Vec<(EngineKey, EngineRow)>, refusal: &str) -> (r: Result<
    Vec<T>,
    EngineError,
>)
    ensures
        plain::outcome(r) == kept_schemas::<T>(rows.deep_view(), refusal@),
{
    let ghost all = rows.deep_view();
    let ghost f = |entry: (Seq<ValueModel>, Seq<ValueModel>)| kept_schema::<T>(entry.1, refusal@);
    let mut out: Vec<T> = no_items();
    let mut i: usize = 0;
    proof {
        assert(all.take(0) =~= Seq::empty());
    }
    while i < rows.len()
        invariant
            i <= rows.len(),
            all == rows.deep_view(),
            f == (|entry: (Seq<ValueModel>, Seq<ValueModel>)|
                kept_schema::<T>(entry.1, refusal@)),
            plain::collected(all.take(i as int), f) == Ok::<
                Seq<<T as DeepView>::V>,
                ErrorModel,
            >(out.deep_view()),
        decreases rows.len() - i,
    {
        proof {
            plain::lemma_collected_step(all, f, i as int);
            assert(all[i as int] == (rows@[i as int].0.deep_view(), rows@[i as int].1.deep_view()));
            assert(f(all[i as int]) == kept_schema::<T>(rows@[i as int].1.deep_view(), refusal@));
        }
        match decode_schema::<T>(&rows[i].1, refusal) {
            Ok(schema) => {
                push_back(&mut out, schema);
            },
            Err(e) => {
                return Err(e);
            },
        }
        i += 1;
    }
    proof {
        assert(all.take(i as int) =~= all);
    }
    Ok(out)
}

} // verus!
