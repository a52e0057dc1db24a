//! Errors of reading rows into typed values.
use vstd::prelude::*;
use crate::text::{self, integer_decimal, joined3};
use crate::value::{EngineType, EngineValue, ValueModel};

verus! {

/// Why a row could not be read.
#[derive(Clone, Debug, PartialEq, Eq)]
pub enum RowDeserializeError {
    ColumnNotFound { column: String },
    TypeMismatch { column: String, expected_type: String, actual_value: String },
    MissingRequiredField { column: String },
    SerdeError { message: String },
    SchemaError { message: String },
}

/// What a [`RowDeserializeError`] is, mathematically.
#[verifier::ext_equal]
pub enum ReadErrorModel {
    ColumnNotFound { column: Seq<char> },
    TypeMismatch { column: Seq<char>, expected_type: Seq<char>, actual_value: Seq<char> },
    MissingRequiredField { column: Seq<char> },
    SerdeError { message: Seq<char> },
    SchemaError { message: Seq<char> },
}

impl DeepView for RowDeserializeError {
    type V = ReadErrorModel;

    open spec fn deep_view(&self) -> ReadErrorModel {
        match self {
            RowDeserializeError::ColumnNotFound { column } => ReadErrorModel::ColumnNotFound {
                column: column@,
            },
            RowDeserializeError::TypeMismatch { column, expected_type, actual_value } =>
                ReadErrorModel::TypeMismatch {
                column: column@,
                expected_type: expected_type@,
                actual_value: actual_value@,
            },
            RowDeserializeError::MissingRequiredField { column } =>
                ReadErrorModel::MissingRequiredField { column: column@ },
            RowDeserializeError::SerdeError { message } => ReadErrorModel::SerdeError {
                message: message@,
            },
            RowDeserializeError::SchemaError { message } => ReadErrorModel::SchemaError {
                message: message@,
            },
        }
    }
}

/// What the error says.
pub open spec fn read_error_text(e: ReadErrorModel) -> Seq<char> {
    match e {
        ReadErrorModel::ColumnNotFound { column } => "Column '"@ + column
            + "' not found in schema"@,
        ReadErrorModel::TypeMismatch { column, expected_type, actual_value } => "Column '"@ + column
            + "' expects "@ + (expected_type + ", but got: "@ + actual_value),
        ReadErrorModel::MissingRequiredField { column } => "Required field '"@ + column
            + "' is NULL or missing"@,
        ReadErrorModel::SerdeError { message } => "Deserialization error: "@ + message,
        ReadErrorModel::SchemaError { message } => "Schema error: "@ + message,
    }
}

impl RowDeserializeError {
    /// What the error says.
    pub fn message(&self) -> (r: String)
        ensures
            r@ == read_error_text(self.deep_view()),
    {
        match self {
            RowDeserializeError::ColumnNotFound { column } => joined3(
                "Column '",
                column.as_str(),
                "' not found in schema",
            ),
            RowDeserializeError::TypeMismatch { column, expected_type, actual_value } => {
                let head = joined3("Column '", column.as_str(), "' expects ");
                let tail = joined3(expected_type.as_str(), ", but got: ", actual_value.as_str());
                text::joined(head.as_str(), tail.as_str())
            },
            RowDeserializeError::MissingRequiredField { column } => joined3(
                "Required field '",
                column.as_str(),
                "' is NULL or missing",
            ),
            RowDeserializeError::SerdeError { message } => text::joined(
                "Deserialization error: ",
                message.as_str(),
            ),
            RowDeserializeError::SchemaError { message } => text::joined(
                "Schema error: ",
                message.as_str(),
            ),
        }
    }

    /// No column has that name.
    pub fn column_not_found(column: &str) -> (r: RowDeserializeError)
        ensures
            r.deep_view() == (ReadErrorModel::ColumnNotFound { column: column@ }),
    {
        RowDeserializeError::ColumnNotFound { column: column.to_string() }
    }

    /// A column holds a value of another type.
    pub fn type_mismatch(column: &str, expected_type: &str, actual_value: &str) -> (r:
        RowDeserializeError)
        ensures
            r.deep_view() == (ReadErrorModel::TypeMismatch {
                column: column@,
                expected_type: expected_type@,
                actual_value: actual_value@,
            }),
    {
        RowDeserializeError::TypeMismatch {
            column: column.to_string(),
            expected_type: expected_type.to_string(),
            actual_value: actual_value.to_string(),
        }
    }

    /// A column that must hold a value does not.
    pub fn missing_required_field(column: &str) -> (r: RowDeserializeError)
        ensures
            r.deep_view() == (ReadErrorModel::MissingRequiredField { column: column@ }),
    {
        RowDeserializeError::MissingRequiredField { column: column.to_string() }
    }

    /// A value could not be read.
    pub fn serde_error(message: &str) -> (r: RowDeserializeError)
        ensures
            r.deep_view() == (ReadErrorModel::SerdeError { message: message@ }),
    {
        RowDeserializeError::SerdeError { message: message.to_string() }
    }

    /// A row does not fit the schema.
    pub fn schema_error(message: &str) -> (r: RowDeserializeError)
        ensures
            r.deep_view() == (ReadErrorModel::SchemaError { message: message@ }),
    {
        RowDeserializeError::SchemaError { message: message.to_string() }
    }
}

/// The name of the type of a value.
pub open spec fn value_type_name(v: ValueModel) -> Seq<char> {
    match v {
        ValueModel::Integer(_) => "integer"@,
        ValueModel::Float(_) => "float"@,
        ValueModel::Text(_) => "text"@,
        ValueModel::Uuid(_) => "uuid"@,
        ValueModel::Blob(_) => "blob"@,
        ValueModel::Json(_) => "json"@,
        ValueModel::Null => "null"@,
    }
}

/// The name of the type of a value.
pub fn value_type_label(value: &EngineValue) -> (r: String)
    ensures
        r@ == value_type_name(value.deep_view()),
{
    match value {
        EngineValue::Integer(_) => "integer".to_string(),
        EngineValue::Float(_) => "float".to_string(),
        EngineValue::Text(_) => "text".to_string(),
        EngineValue::Uuid(_) => "uuid".to_string(),
        EngineValue::Blob(_) => "blob".to_string(),
        EngineValue::Json(_) => "json".to_string(),
        EngineValue::Null => "null".to_string(),
    }
}

/// A value as an error shows it; `double` is the text of a double.
pub open spec fn value_shown(v: ValueModel, double: Seq<char>) -> Seq<char> {
    match v {
        ValueModel::Integer(i) => "integer("@ + text::integer_text(i as int) + ")"@,
        ValueModel::Float(_) => "float("@ + double + ")"@,
        ValueModel::Text(s) => "text(\""@ + s + "\")"@,
        ValueModel::Uuid(_) => "uuid(...)"@,
        ValueModel::Blob(_) => "blob(...)"@,
        ValueModel::Json(s) => "json(\""@ + s + "\")"@,
        ValueModel::Null => "NULL"@,
    }
}

/// A value as an error shows it; the caller gives the text of a double, which
/// is used for no other value.
pub fn value_label(value: &EngineValue, double: &str) -> (r: String)
    ensures
        r@ == value_shown(value.deep_view(), double@),
{
    match value {
        EngineValue::Integer(i) => joined3("integer(", integer_decimal(*i).as_str(), ")"),
        EngineValue::Float(_) => joined3("float(", double, ")"),
        EngineValue::Text(s) => joined3("text(\"", s.as_str(), "\")"),
        EngineValue::Uuid(_) => "uuid(...)".to_string(),
        EngineValue::Blob(_) => "blob(...)".to_string(),
        EngineValue::Json(s) => joined3("json(\"", s.as_str(), "\")"),
        EngineValue::Null => "NULL".to_string(),
    }
}

/// The name of a type.
pub open spec fn type_called(t: EngineType) -> Seq<char> {
    match t {
        EngineType::Integer => "integer"@,
        EngineType::Float => "float"@,
        EngineType::Text => "text"@,
        EngineType::Uuid => "uuid"@,
        EngineType::Blob => "blob"@,
    }
}

/// The name of a type.
pub fn engine_type_label(engine_type: &EngineType) -> (r: String)
    ensures
        r@ == type_called(*engine_type),
{
    match engine_type {
        EngineType::Integer => "integer".to_string(),
        EngineType::Float => "float".to_string(),
        EngineType::Text => "text".to_string(),
        EngineType::Uuid => "uuid".to_string(),
        EngineType::Blob => "blob".to_string(),
    }
}

} // verus!
