//! Reading rows by the names of their columns, and values as the types that a
//! reader asks for.
use vstd::prelude::*;
use crate::float::{self, compute, FloatOp};
use crate::plain::{self, no_items, push_back, same_text};
use crate::row_deserialize_error::{ReadErrorModel, RowDeserializeError};
use crate::schema::{ColumnModel, TableSchema};
use crate::store::RowModel;
use crate::text::{self, to_lowercase};
use crate::value::{EngineRow, EngineValue, ValueModel};

verus! {

/// A column of a result: its name, and the column of a table that it shows, if
/// it shows one.
#[derive(Clone, Debug, PartialEq, Eq)]
pub struct ResultColumn {
    pub name: String,
    pub table: Option<String>,
    pub column_index: Option<usize>,
}

impl ResultColumn {
    pub fn new(name: &str, table: Option<String>, column_index: Option<usize>) -> (r: ResultColumn)
        ensures
            r.name@ == name@,
            r.table == table,
            r.column_index == column_index,
    {
        ResultColumn { name: name.to_string(), table, column_index }
    }
}

/// The first place of a name in a list.
pub open spec fn place_of(names: Seq<Seq<char>>, name: Seq<char>) -> Option<int>
    decreases names.len(),
{
    if names.len() == 0 {
        None
    } else if names[0] == name {
        Some(0)
    } else {
        match place_of(names.drop_first(), name) {
            Some(i) => Some(i + 1),
            None => None,
        }
    }
}

/// The first place of a name in a list.
pub fn position_of(names: &Vec<String>, name: &str) -> (r: Option<usize>)
    ensures
        match r {
            Some(i) => i < names.len() && place_of(names.deep_view(), name@) == Some(i as int),
            None => place_of(names.deep_view(), name@) is None,
        },
{
    let ghost all = names.deep_view();
    let mut i: usize = 0;
    proof {
        assert(all.skip(0) =~= all);
    }
    while i < names.len()
        invariant
            i <= names.len(),
            all == names.deep_view(),
            place_of(all, name@) == match place_of(all.skip(i as int), name@) {
                Some(k) => Some(k + i),
                None => None::<int>,
            },
        decreases names.len() - i,
    {
        proof {
            assert(all.skip(i as int)[0] == names@[i as int]@);
            assert(all.skip(i as int).drop_first() =~= all.skip(i + 1));
        }
        if same_text(names[i].as_str(), name) {
            return Some(i);
        }
        i += 1;
    }
    None
}

/// Names in lower case.
pub open spec fn lowered(names: Seq<Seq<char>>) -> Seq<Seq<char>> {
    names.map_values(|name: Seq<char>| text::lowercased(name))
}

/// Names in lower case.
fn lower_all(names: &Vec<String>) -> (r: Vec<String>)
    ensures
        r.deep_view() == lowered(names.deep_view()),
{
    let ghost wanted = lowered(names.deep_view());
    let mut out: Vec<String> = no_items();
    let mut i: usize = 0;
    while i < names.len()
        invariant
            i <= names.len(),
            wanted == lowered(names.deep_view()),
            out.deep_view() == wanted.take(i as int),
        decreases names.len() - i,
    {
        push_back(&mut out, to_lowercase(names[i].as_str()));
        proof {
            assert(names.deep_view()[i as int] == names@[i as int]@);
            assert(out.deep_view() =~= wanted.take(i + 1));
        }
        i += 1;
    }
    proof {
        assert(wanted.take(i as int) =~= wanted);
    }
    out
}

/// A row whose columns are found by name, whatever the case of its letters.
pub struct RowReader<'a> {
    pub names: Vec<String>,
    pub row: &'a EngineRow,
}

/// The names of the columns of a table.
pub open spec fn names_of(columns: Seq<ColumnModel>) -> Seq<Seq<char>> {
    columns.map_values(|c: ColumnModel| c.name)
}

/// The value under a name.
pub open spec fn named_value(names: Seq<Seq<char>>, row: RowModel, name: Seq<char>) -> Result<
    ValueModel,
    ReadErrorModel,
> {
    match place_of(lowered(names), text::lowercased(name)) {
        None => Err(ReadErrorModel::ColumnNotFound { column: name }),
        Some(i) => if i < row.len() {
            Ok(row[i])
        } else {
            Err(ReadErrorModel::SchemaError { message: "row index out of bounds"@ })
        },
    }
}

impl<'a> RowReader<'a> {
    /// A row of a table.
    pub fn for_table(schema: &TableSchema, row: &'a EngineRow) -> (r: RowReader<'a>)
        ensures
            r.names.deep_view() == names_of(schema.deep_view().columns),
            r.row == row,
    {
        let ghost wanted = names_of(schema.columns.deep_view());
        let mut names: Vec<String> = no_items();
        let mut i: usize = 0;
        while i < schema.columns.len()
            invariant
                i <= schema.columns.len(),
                wanted == names_of(schema.columns.deep_view()),
                names.deep_view() == wanted.take(i as int),
            decreases schema.columns.len() - i,
        {
            push_back(&mut names, schema.columns[i].name.clone());
            proof {
                assert(schema.columns.deep_view()[i as int]
                    == schema.columns@[i as int].deep_view());
                assert(names.deep_view() =~= wanted.take(i + 1));
            }
            i += 1;
        }
        proof {
            assert(wanted.take(i as int) =~= wanted);
        }
        RowReader { names, row }
    }

    /// A row of a result.
    pub fn for_columns(columns: &Vec<ResultColumn>, row: &'a EngineRow) -> (r: RowReader<'a>)
        ensures
            r.names.deep_view() == columns@.map_values(|c: ResultColumn| c.name@),
            r.row == row,
    {
        let ghost wanted = columns@.map_values(|c: ResultColumn| c.name@);
        let mut names: Vec<String> = no_items();
        let mut i: usize = 0;
        while i < columns.len()
            invariant
                i <= columns.len(),
                wanted == columns@.map_values(|c: ResultColumn| c.name@),
                names.deep_view() == wanted.take(i as int),
            decreases columns.len() - i,
        {
            push_back(&mut names, columns[i].name.clone());
            proof {
                assert(names.deep_view() =~= wanted.take(i + 1));
            }
            i += 1;
        }
        proof {
            assert(wanted.take(i as int) =~= wanted);
        }
        RowReader { names, row }
    }

    /// The place of the column of a name.
    pub fn get_column_index(&self, name: &str) -> (r: Result<usize, RowDeserializeError>)
        ensures
            match r {
                Ok(i) => place_of(lowered(self.names.deep_view()), text::lowercased(name@)) == Some(
                    i as int,
                ),
                Err(e) => place_of(lowered(self.names.deep_view()), text::lowercased(name@)) is None
                    && e.deep_view() == (ReadErrorModel::ColumnNotFound { column: name@ }),
            },
    {
        let names = lower_all(&self.names);
        match position_of(&names, to_lowercase(name).as_str()) {
            Some(i) => Ok(i),
            None => Err(RowDeserializeError::column_not_found(name)),
        }
    }

    /// The value under a name.
    pub fn value(&self, name: &str) -> (r: Result<&'a EngineValue, RowDeserializeError>)
        ensures
            match r {
                Ok(v) => named_value(self.names.deep_view(), self.row.deep_view(), name@) == Ok::<
                    ValueModel,
                    ReadErrorModel,
                >(v.deep_view()),
                Err(e) => named_value(self.names.deep_view(), self.row.deep_view(), name@) == Err::<
                    ValueModel,
                    ReadErrorModel,
                >(e.deep_view()),
            },
    {
        match self.get_column_index(name) {
            Ok(i) => if i < self.row.len() {
                Ok(&self.row[i])
            } else {
                Err(RowDeserializeError::schema_error("row index out of bounds"))
            },
            Err(e) => Err(e),
        }
    }
}

/// What a reader is given for a value.
#[derive(Clone, Debug, PartialEq, Eq)]
pub enum Visit {
    Missing,
    Bool(bool),
    Signed(i64),
    Signed32(i32),
    Unsigned(u64),
    /// A double by its bits.
    Double(u64),
    Text(String),
    Bytes(Vec<u8>),
}

/// What a [`Visit`] is, mathematically.
#[verifier::ext_equal]
pub enum VisitModel {
    Missing,
    Bool(bool),
    Signed(i64),
    Signed32(i32),
    Unsigned(u64),
    Double(u64),
    Text(Seq<char>),
    Bytes(Seq<u8>),
}

impl DeepView for Visit {
    type V = VisitModel;

    open spec fn deep_view(&self) -> VisitModel {
        match self {
            Visit::Missing => VisitModel::Missing,
            Visit::Bool(b) => VisitModel::Bool(*b),
            Visit::Signed(i) => VisitModel::Signed(*i),
            Visit::Signed32(i) => VisitModel::Signed32(*i),
            Visit::Unsigned(u) => VisitModel::Unsigned(*u),
            Visit::Double(d) => VisitModel::Double(*d),
            Visit::Text(s) => VisitModel::Text(s@),
            Visit::Bytes(b) => VisitModel::Bytes(b@),
        }
    }
}

/// The refusal of a value of the wrong type.
pub open spec fn wrong_type() -> ReadErrorModel {
    ReadErrorModel::SerdeError { message: "type mismatch"@ }
}

/// A value as it is.
pub open spec fn as_any(v: ValueModel) -> VisitModel {
    match v {
        ValueModel::Null => VisitModel::Missing,
        ValueModel::Integer(i) => VisitModel::Signed(i),
        ValueModel::Float(b) => VisitModel::Double(b),
        ValueModel::Text(s) => VisitModel::Text(s),
        ValueModel::Uuid(bytes) => VisitModel::Bytes(bytes),
        ValueModel::Blob(bytes) => VisitModel::Bytes(bytes),
        ValueModel::Json(s) => VisitModel::Text(s),
    }
}

/// A value as it is.
pub fn read_any(value: &EngineValue) -> (r: Visit)
    ensures
        r.deep_view() == as_any(value.deep_view()),
{
    match value {
        EngineValue::Null => Visit::Missing,
        EngineValue::Integer(i) => Visit::Signed(*i),
        EngineValue::Float(b) => Visit::Double(*b),
        EngineValue::Text(s) => Visit::Text(s.clone()),
        EngineValue::Uuid(bytes) => Visit::Bytes(copied(bytes.as_slice())),
        EngineValue::Blob(bytes) => Visit::Bytes(copied(bytes.as_slice())),
        EngineValue::Json(s) => Visit::Text(s.clone()),
    }
}

/// A copy of bytes.
fn copied(bytes: &[u8]) -> (r: Vec<u8>)
    ensures
        r@ == bytes@,
{
    let mut out: Vec<u8> = Vec::new();
    let mut i: usize = 0;
    while i < bytes.len()
        invariant
            i <= bytes.len(),
            out@ == bytes@.take(i as int),
        decreases bytes.len() - i,
    {
        out.push(bytes[i]);
        proof {
            assert(out@ =~= bytes@.take(i + 1));
        }
        i += 1;
    }
    proof {
        assert(bytes@.take(i as int) =~= bytes@);
    }
    out
}

/// A value as a truth value.
pub open spec fn as_bool(v: ValueModel) -> Result<VisitModel, ReadErrorModel> {
    match v {
        ValueModel::Integer(i) => Ok(VisitModel::Bool(i != 0)),
        ValueModel::Text(s) => Ok(VisitModel::Bool(s == "true"@ || s == "1"@)),
        ValueModel::Null => Ok(VisitModel::Missing),
        _ => Err(wrong_type()),
    }
}

/// A value as a truth value.
pub fn read_bool(value: &EngineValue) -> (r: Result<Visit, RowDeserializeError>)
    ensures
        plain::outcome(r) == as_bool(value.deep_view()),
{
    match value {
        EngineValue::Integer(i) => Ok(Visit::Bool(*i != 0)),
        EngineValue::Text(s) => Ok(
            Visit::Bool(same_text(s.as_str(), "true") || same_text(s.as_str(), "1")),
        ),
        EngineValue::Null => Ok(Visit::Missing),
        _ => Err(RowDeserializeError::serde_error("type mismatch")),
    }
}

/// A value as a signed number.
pub open spec fn as_signed(v: ValueModel) -> Result<VisitModel, ReadErrorModel> {
    match v {
        ValueModel::Integer(i) => Ok(VisitModel::Signed(i)),
        ValueModel::Null => Ok(VisitModel::Missing),
        _ => Err(wrong_type()),
    }
}

/// A value as a signed number.
pub fn read_signed(value: &EngineValue) -> (r: Result<Visit, RowDeserializeError>)
    ensures
        plain::outcome(r) == as_signed(value.deep_view()),
{
    match value {
        EngineValue::Integer(i) => Ok(Visit::Signed(*i)),
        EngineValue::Null => Ok(Visit::Missing),
        _ => Err(RowDeserializeError::serde_error("type mismatch")),
    }
}

/// A value as a signed number of 32 bits.
pub open spec fn as_signed_32(v: ValueModel) -> Result<VisitModel, ReadErrorModel> {
    match v {
        ValueModel::Integer(i) => if i32::MIN <= i <= i32::MAX {
            Ok(VisitModel::Signed32(i as i32))
        } else {
            Err(ReadErrorModel::SerdeError { message: "i32 out of range"@ })
        },
        ValueModel::Null => Ok(VisitModel::Missing),
        _ => Err(wrong_type()),
    }
}

/// A value as a signed number of 32 bits.
pub fn read_signed_32(value: &EngineValue) -> (r: Result<Visit, RowDeserializeError>)
    ensures
        plain::outcome(r) == as_signed_32(value.deep_view()),
{
    match value {
        EngineValue::Integer(i) => if *i >= i32::MIN as i64 && *i <= i32::MAX as i64 {
            Ok(Visit::Signed32(*i as i32))
        } else {
            Err(RowDeserializeError::serde_error("i32 out of range"))
        },
        EngineValue::Null => Ok(Visit::Missing),
        _ => Err(RowDeserializeError::serde_error("type mismatch")),
    }
}

/// A value as a number without sign.
pub open spec fn as_unsigned(v: ValueModel) -> Result<VisitModel, ReadErrorModel> {
    match v {
        ValueModel::Integer(i) => if i >= 0 {
            Ok(VisitModel::Unsigned(i as u64))
        } else {
            Err(ReadErrorModel::SerdeError { message: "negative value for u64"@ })
        },
        ValueModel::Null => Ok(VisitModel::Missing),
        _ => Err(wrong_type()),
    }
}

/// A value as a number without sign.
pub fn read_unsigned(value: &EngineValue) -> (r: Result<Visit, RowDeserializeError>)
    ensures
        plain::outcome(r) == as_unsigned(value.deep_view()),
{
    match value {
        EngineValue::Integer(i) => if *i >= 0 {
            Ok(Visit::Unsigned(*i as u64))
        } else {
            Err(RowDeserializeError::serde_error("negative value for u64"))
        },
        EngineValue::Null => Ok(Visit::Missing),
        _ => Err(RowDeserializeError::serde_error("type mismatch")),
    }
}

/// A value as a double; an integer is rounded to one.
pub open spec fn as_double<F: Fn(FloatOp) -> u64>(f: F, v: ValueModel) -> Result<
    VisitModel,
    ReadErrorModel,
> {
    match v {
        ValueModel::Float(b) => Ok(VisitModel::Double(b)),
        ValueModel::Integer(i) => Ok(
            VisitModel::Double(float::float_value(f, FloatOp::OfInteger(i))),
        ),
        ValueModel::Null => Ok(VisitModel::Missing),
        _ => Err(wrong_type()),
    }
}

/// A value as a double.
pub fn read_double<F: Fn(FloatOp) -> u64>(value: &EngineValue, float: &F) -> (r: Result<
    Visit,
    RowDeserializeError,
>)
    requires
        float::is_float_unit(*float),
    ensures
        plain::outcome(r) == as_double(*float, value.deep_view()),
{
    match value {
        EngineValue::Float(b) => Ok(Visit::Double(*b)),
        EngineValue::Integer(i) => Ok(Visit::Double(compute(float, FloatOp::OfInteger(*i)))),
        EngineValue::Null => Ok(Visit::Missing),
        _ => Err(RowDeserializeError::serde_error("type mismatch")),
    }
}

/// A value as a text.
pub open spec fn as_text(v: ValueModel) -> Result<VisitModel, ReadErrorModel> {
    match v {
        ValueModel::Text(s) => Ok(VisitModel::Text(s)),
        ValueModel::Null => Ok(VisitModel::Missing),
        _ => Err(wrong_type()),
    }
}

/// A value as a text.
pub fn read_text(value: &EngineValue) -> (r: Result<Visit, RowDeserializeError>)
    ensures
        plain::outcome(r) == as_text(value.deep_view()),
{
    match value {
        EngineValue::Text(s) => Ok(Visit::Text(s.clone())),
        EngineValue::Null => Ok(Visit::Missing),
        _ => Err(RowDeserializeError::serde_error("type mismatch")),
    }
}

/// A value as bytes.
pub open spec fn as_bytes(v: ValueModel) -> Result<VisitModel, ReadErrorModel> {
    match v {
        ValueModel::Uuid(bytes) => Ok(VisitModel::Bytes(bytes)),
        ValueModel::Blob(bytes) => Ok(VisitModel::Bytes(bytes)),
        ValueModel::Null => Ok(VisitModel::Missing),
        _ => Err(wrong_type()),
    }
}

/// A value as bytes.
pub fn read_bytes(value: &EngineValue) -> (r: Result<Visit, RowDeserializeError>)
    ensures
        plain::outcome(r) == as_bytes(value.deep_view()),
{
    match value {
        EngineValue::Uuid(bytes) => Ok(Visit::Bytes(copied(bytes.as_slice()))),
        EngineValue::Blob(bytes) => Ok(Visit::Bytes(copied(bytes.as_slice()))),
        EngineValue::Null => Ok(Visit::Missing),
        _ => Err(RowDeserializeError::serde_error("type mismatch")),
    }
}

/// A value as a sequence of bytes.
pub open spec fn as_sequence(v: ValueModel) -> Result<Seq<u8>, ReadErrorModel> {
    match v {
        ValueModel::Uuid(bytes) => Ok(bytes),
        ValueModel::Blob(bytes) => Ok(bytes),
        _ => Err(ReadErrorModel::SerdeError { message: "not a sequence"@ }),
    }
}

/// A value as a sequence of bytes.
pub fn read_sequence(value: &EngineValue) -> (r: Result<Vec<u8>, RowDeserializeError>)
    ensures
        match r {
            Ok(bytes) => as_sequence(value.deep_view()) == Ok::<Seq<u8>, ReadErrorModel>(bytes@),
            Err(e) => as_sequence(value.deep_view()) == Err::<Seq<u8>, ReadErrorModel>(
                e.deep_view(),
            ),
        },
{
    match value {
        EngineValue::Uuid(bytes) => Ok(copied(bytes.as_slice())),
        EngineValue::Blob(bytes) => Ok(copied(bytes.as_slice())),
        _ => Err(RowDeserializeError::serde_error("not a sequence")),
    }
}

/// Law: a value that may be missing is missing exactly if it is NULL.
pub proof fn law_missing_is_null(v: ValueModel)
    ensures
        as_any(v) is Missing <==> v is Null,
{
}

} // verus!
