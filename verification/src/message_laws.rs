//! What errors say, and how values and types are shown in them.
use vstd::prelude::*;
use crate::codec::{self, DecodeError};
use crate::error::{self, ErrorModel};
use crate::facade::{self, DatabaseErrorModel};
use crate::render;
use crate::row_deserialize_error::{self, ReadErrorModel};
use crate::schema;
use crate::sql::error::{self as sql_error, Refusal};
use crate::sql::helpers;
use crate::sql::syntax::{SqlExpr, SqlLiteral};
use crate::text;
use crate::value::{EngineType, ValueModel};

verus! {

/// Law: an error of the engine says what is wrong, and then with what.
pub proof fn law_engine_errors_say(s: Seq<char>, key: Seq<ValueModel>)
    ensures
        error::error_text(ErrorModel::TableNotFound(s)) == "table not found: "@ + s,
        error::error_text(ErrorModel::IndexNotFound(s)) == "index not found: "@ + s,
        error::error_text(ErrorModel::DuplicateTable(s)) == "table already exists: "@ + s,
        error::error_text(ErrorModel::DuplicateIndex(s)) == "index already exists: "@ + s,
        error::error_text(ErrorModel::DuplicatePrimaryKey(key)) == "duplicate primary key: "@
            + render::key_text(key),
        error::error_text(ErrorModel::UniqueIndexViolation(s)) == "unique index violation: "@ + s,
        error::error_text(ErrorModel::SchemaMismatch(s)) == "schema mismatch: "@ + s,
        error::error_text(ErrorModel::TypeMismatch(s)) == "type mismatch: "@ + s,
        error::error_text(ErrorModel::QueryLimitExceeded(s)) == "query limit exceeded: "@ + s,
        error::error_text(ErrorModel::PrimaryKeyMissing) == "primary key missing"@,
        error::error_text(ErrorModel::UnsupportedIndexType) == "unsupported index type"@,
        error::error_text(ErrorModel::StoreError(s)) == "storage error: "@ + s,
{
}

/// Law: a database says of an error of its engine that it is one, and what the
/// engine says; any other error says what it holds.
pub proof fn law_database_errors_say(e: ErrorModel, s: Seq<char>)
    ensures
        facade::database_error_text(facade::in_words(e)) == "engine error: "@ + error::error_text(
            e,
        ),
        facade::database_error_text(DatabaseErrorModel::Other(s)) == s,
{
}

/// Law: a refusal of a statement says what is wrong, and then with what.
pub proof fn law_refusals_say(s: Seq<char>)
    ensures
        sql_error::refusal_text(Refusal::SqlParse(s)) == "sql parse error: "@ + s,
        sql_error::refusal_text(Refusal::UnsupportedStatement) == "unsupported statement"@,
        sql_error::refusal_text(Refusal::UnknownTable(s)) == "unknown table: "@ + s,
        sql_error::refusal_text(Refusal::UnknownColumn(s)) == "unknown column: "@ + s,
        sql_error::refusal_text(Refusal::UnsupportedFeature(s)) == "unsupported feature: "@ + s,
{
}

/// Law: an error of reading a row names the column that it is about, and says
/// what was expected and what was there.
pub proof fn law_read_errors_say(
    column: Seq<char>,
    expected_type: Seq<char>,
    actual_value: Seq<char>,
    message: Seq<char>,
)
    ensures
        row_deserialize_error::read_error_text(ReadErrorModel::ColumnNotFound { column })
            == "Column '"@ + column + "' not found in schema"@,
        row_deserialize_error::read_error_text(
            ReadErrorModel::TypeMismatch { column, expected_type, actual_value },
        ) == "Column '"@ + column + "' expects "@ + expected_type + ", but got: "@ + actual_value,
        row_deserialize_error::read_error_text(ReadErrorModel::MissingRequiredField { column })
            == "Required field '"@ + column + "' is NULL or missing"@,
        row_deserialize_error::read_error_text(ReadErrorModel::SerdeError { message })
            == "Deserialization error: "@ + message,
        row_deserialize_error::read_error_text(ReadErrorModel::SchemaError { message })
            == "Schema error: "@ + message,
{
    assert("Column '"@ + column + "' expects "@ + (expected_type + ", but got: "@ + actual_value)
        =~= "Column '"@ + column + "' expects "@ + expected_type + ", but got: "@ + actual_value);
}

/// Law: an error of decoding says what is wrong with the bytes.
pub proof fn law_decode_errors_say()
    ensures
        codec::decode_error_text(DecodeError::Truncated) == "truncated data"@,
        codec::decode_error_text(DecodeError::InvalidTag) == "invalid tag"@,
        codec::decode_error_text(DecodeError::InvalidText) == "invalid utf-8"@,
        codec::decode_error_text(DecodeError::UnsupportedVersion) == "unsupported version"@,
        codec::decode_error_text(DecodeError::TrailingBytes) == "trailing bytes"@,
        codec::decode_error_text(DecodeError::Overflow) == "number too large"@,
{
}

/// Law: a value that is neither NULL nor JSON is said to be of the type of the
/// columns that can hold it.
pub proof fn law_values_are_called_by_type(v: ValueModel, t: EngineType)
    requires
        schema::value_fits(v, t),
        !(v is Null),
        !(v is Json),
    ensures
        row_deserialize_error::value_type_name(v) == row_deserialize_error::type_called(t),
{
}

/// Law: the types have their own names.
pub proof fn law_types_are_called(a: EngineType, b: EngineType)
    ensures
        row_deserialize_error::type_called(EngineType::Integer) == "integer"@,
        row_deserialize_error::type_called(EngineType::Float) == "float"@,
        row_deserialize_error::type_called(EngineType::Text) == "text"@,
        row_deserialize_error::type_called(EngineType::Uuid) == "uuid"@,
        row_deserialize_error::type_called(EngineType::Blob) == "blob"@,
        row_deserialize_error::value_type_name(ValueModel::Null) == "null"@,
        row_deserialize_error::type_called(a) == row_deserialize_error::type_called(b) ==> a == b,
{
    reveal_strlit("integer");
    reveal_strlit("float");
    reveal_strlit("text");
    reveal_strlit("uuid");
    reveal_strlit("blob");
    let x = row_deserialize_error::type_called(a);
    let y = row_deserialize_error::type_called(b);
    if x == y {
        assert(x.len() == y.len());
        assert(x[0] == y[0]);
    }
}

/// Law: an error shows a number and a text as they are, and of bytes no more than
/// that they are there.
pub proof fn law_values_are_shown(i: i64, b: u64, s: Seq<char>, u: Seq<u8>, double: Seq<char>)
    ensures
        ({
            let shown = |v: ValueModel| row_deserialize_error::value_shown(v, double);
            &&& shown(ValueModel::Integer(i)) == "integer("@ + text::integer_text(i as int) + ")"@
            &&& shown(ValueModel::Float(b)) == "float("@ + double + ")"@
            &&& shown(ValueModel::Text(s)) == "text(\""@ + s + "\")"@
            &&& shown(ValueModel::Json(s)) == "json(\""@ + s + "\")"@
            &&& shown(ValueModel::Uuid(u)) == "uuid(...)"@
            &&& shown(ValueModel::Blob(u)) == "blob(...)"@
            &&& shown(ValueModel::Null) == "NULL"@
        }),
{
}

/// Law: a key is shown as its values between brackets, a value as its kind and
/// what it holds, bytes in decimal. A further value comes after a comma.
pub proof fn law_keys_are_shown(
    key: Seq<ValueModel>,
    v: ValueModel,
    i: i64,
    s: Seq<char>,
    bytes: Seq<u8>,
    byte: u8,
)
    ensures
        render::key_text(seq![v]) == "["@ + render::value_text(v) + "]"@,
        key.len() > 0 ==> render::values_text(key.push(v)) == render::values_text(key) + ", "@
            + render::value_text(v),
        render::value_text(ValueModel::Null) == "Null"@,
        render::value_text(ValueModel::Integer(i)) == "Integer("@ + text::integer_text(i as int)
            + ")"@,
        render::value_text(ValueModel::Text(s)) == "Text("@ + render::quoted(s) + ")"@,
        render::value_text(ValueModel::Uuid(bytes)) == "Uuid(["@ + render::bytes_text(bytes)
            + "])"@,
        render::value_text(ValueModel::Blob(bytes)) == "Blob(["@ + render::bytes_text(bytes)
            + "])"@,
        render::bytes_text(seq![byte]) == text::decimal_text(byte as nat),
        bytes.len() > 0 ==> render::bytes_text(bytes.push(byte)) == render::bytes_text(bytes)
            + ", "@ + text::decimal_text(byte as nat),
{
    assert(seq![v][0] == v);
    assert(key.push(v).drop_last() =~= key);
    assert(bytes.push(byte).drop_last() =~= bytes);
}

/// Law: a literal number with a dot is the double that the parser reads, and
/// refused where it reads none.
pub proof fn law_double_literals<P: Fn(&str) -> Result<u64, String>>(
    parse: P,
    s: String,
    given: &str,
    r: Result<u64, String>,
)
    requires
        helpers::is_float_parser(parse),
        s@.contains('.'),
        given@ == s@,
        call_ensures(parse, (given,), r),
    ensures
        match (helpers::literal_value(parse, SqlExpr::Value(SqlLiteral::Number(s))), r) {
            (Ok(v), Ok(bits)) => v == ValueModel::Float(bits),
            (Err(_), Err(_)) => true,
            _ => false,
        },
{
}

} // verus!
