//! Errors of the engine and of the stores below it.
use vstd::prelude::*;
use crate::plain::{self, Plain};
use crate::render::{self, show_key};
use crate::text::joined;
use crate::value::{PrimaryKey, ValueModel};

verus! {

/// A fault of a backing store.
#[derive(Clone, Debug, PartialEq, Eq)]
pub struct BTreeError {
    pub message: String,
}

impl BTreeError {
    /// A fault that the backing store describes in words.
    pub fn other(message: String) -> (e: BTreeError)
        ensures
            e.deep_view() == message@,
    {
        BTreeError { message }
    }
}

impl DeepView for BTreeError {
    type V = Seq<char>;

    open spec fn deep_view(&self) -> Seq<char> {
        self.message@
    }
}

/// What the engine refuses, and why.
#[derive(Clone, Debug, PartialEq, Eq)]
pub enum EngineError {
    TableNotFound(String),
    IndexNotFound(String),
    DuplicateTable(String),
    DuplicateIndex(String),
    DuplicatePrimaryKey(PrimaryKey),
    UniqueIndexViolation(String),
    SchemaMismatch(String),
    TypeMismatch(String),
    QueryLimitExceeded(String),
    PrimaryKeyMissing,
    UnsupportedIndexType,
    StoreError(BTreeError),
}

/// What an [`EngineError`] is, mathematically.
#[verifier::ext_equal]
pub enum ErrorModel {
    TableNotFound(Seq<char>),
    IndexNotFound(Seq<char>),
    DuplicateTable(Seq<char>),
    DuplicateIndex(Seq<char>),
    DuplicatePrimaryKey(Seq<ValueModel>),
    UniqueIndexViolation(Seq<char>),
    SchemaMismatch(Seq<char>),
    TypeMismatch(Seq<char>),
    QueryLimitExceeded(Seq<char>),
    PrimaryKeyMissing,
    UnsupportedIndexType,
    StoreError(Seq<char>),
}

impl DeepView for EngineError {
    type V = ErrorModel;

    open spec fn deep_view(&self) -> ErrorModel {
        match self {
            EngineError::TableNotFound(s) => ErrorModel::TableNotFound(s@),
            EngineError::IndexNotFound(s) => ErrorModel::IndexNotFound(s@),
            EngineError::DuplicateTable(s) => ErrorModel::DuplicateTable(s@),
            EngineError::DuplicateIndex(s) => ErrorModel::DuplicateIndex(s@),
            EngineError::DuplicatePrimaryKey(k) => ErrorModel::DuplicatePrimaryKey(k.deep_view()),
            EngineError::UniqueIndexViolation(s) => ErrorModel::UniqueIndexViolation(s@),
            EngineError::SchemaMismatch(s) => ErrorModel::SchemaMismatch(s@),
            EngineError::TypeMismatch(s) => ErrorModel::TypeMismatch(s@),
            EngineError::QueryLimitExceeded(s) => ErrorModel::QueryLimitExceeded(s@),
            EngineError::PrimaryKeyMissing => ErrorModel::PrimaryKeyMissing,
            EngineError::UnsupportedIndexType => ErrorModel::UnsupportedIndexType,
            EngineError::StoreError(e) => ErrorModel::StoreError(e.deep_view()),
        }
    }
}

/// The error that a schema or a row does not fit.
pub fn schema_mismatch(text: &str) -> (e: EngineError)
    ensures
        e.deep_view() == ErrorModel::SchemaMismatch(text@),
{
    EngineError::SchemaMismatch(text.to_string())
}

/// The error that a value has the wrong type.
pub fn type_mismatch(text: &str) -> (e: EngineError)
    ensures
        e.deep_view() == ErrorModel::TypeMismatch(text@),
{
    EngineError::TypeMismatch(text.to_string())
}

/// Whether the backing store failed.
pub open spec fn is_fault<T>(r: Result<T, EngineError>) -> bool {
    r matches Err(EngineError::StoreError(_))
}

/// A result is the exact one, or the backing store, which is not sound, failed.
pub open spec fn settles<T: DeepView>(
    r: Result<T, EngineError>,
    sound: bool,
    exact: Result<T::V, ErrorModel>,
) -> bool {
    (is_fault(r) && !sound) || plain::outcome(r) == exact
}

/// What the error says.
pub open spec fn error_text(e: ErrorModel) -> Seq<char> {
    match e {
        ErrorModel::TableNotFound(s) => "table not found: "@ + s,
        ErrorModel::IndexNotFound(s) => "index not found: "@ + s,
        ErrorModel::DuplicateTable(s) => "table already exists: "@ + s,
        ErrorModel::DuplicateIndex(s) => "index already exists: "@ + s,
        ErrorModel::DuplicatePrimaryKey(k) => "duplicate primary key: "@ + render::key_text(k),
        ErrorModel::UniqueIndexViolation(s) => "unique index violation: "@ + s,
        ErrorModel::SchemaMismatch(s) => "schema mismatch: "@ + s,
        ErrorModel::TypeMismatch(s) => "type mismatch: "@ + s,
        ErrorModel::QueryLimitExceeded(s) => "query limit exceeded: "@ + s,
        ErrorModel::PrimaryKeyMissing => "primary key missing"@,
        ErrorModel::UnsupportedIndexType => "unsupported index type"@,
        ErrorModel::StoreError(s) => "storage error: "@ + s,
    }
}

impl EngineError {
    /// A copy of the error.
    pub fn duplicate(&self) -> (r: EngineError)
        ensures
            r.deep_view() == self.deep_view(),
    {
        match self {
            EngineError::TableNotFound(s) => EngineError::TableNotFound(s.clone()),
            EngineError::IndexNotFound(s) => EngineError::IndexNotFound(s.clone()),
            EngineError::DuplicateTable(s) => EngineError::DuplicateTable(s.clone()),
            EngineError::DuplicateIndex(s) => EngineError::DuplicateIndex(s.clone()),
            EngineError::DuplicatePrimaryKey(k) => EngineError::DuplicatePrimaryKey(k.duplicate()),
            EngineError::UniqueIndexViolation(s) => EngineError::UniqueIndexViolation(s.clone()),
            EngineError::SchemaMismatch(s) => EngineError::SchemaMismatch(s.clone()),
            EngineError::TypeMismatch(s) => EngineError::TypeMismatch(s.clone()),
            EngineError::QueryLimitExceeded(s) => EngineError::QueryLimitExceeded(s.clone()),
            EngineError::PrimaryKeyMissing => EngineError::PrimaryKeyMissing,
            EngineError::UnsupportedIndexType => EngineError::UnsupportedIndexType,
            EngineError::StoreError(e) => EngineError::StoreError(
                BTreeError { message: e.message.clone() },
            ),
        }
    }

    /// What the error says.
    pub fn message(&self) -> (r: String)
        ensures
            r@ == error_text(self.deep_view()),
    {
        match self {
            EngineError::TableNotFound(s) => joined("table not found: ", s.as_str()),
            EngineError::IndexNotFound(s) => joined("index not found: ", s.as_str()),
            EngineError::DuplicateTable(s) => joined("table already exists: ", s.as_str()),
            EngineError::DuplicateIndex(s) => joined("index already exists: ", s.as_str()),
            EngineError::DuplicatePrimaryKey(k) => joined(
                "duplicate primary key: ",
                show_key(k).as_str(),
            ),
            EngineError::UniqueIndexViolation(s) => joined("unique index violation: ", s.as_str()),
            EngineError::SchemaMismatch(s) => joined("schema mismatch: ", s.as_str()),
            EngineError::TypeMismatch(s) => joined("type mismatch: ", s.as_str()),
            EngineError::QueryLimitExceeded(s) => joined("query limit exceeded: ", s.as_str()),
            EngineError::PrimaryKeyMissing => "primary key missing".to_string(),
            EngineError::UnsupportedIndexType => "unsupported index type".to_string(),
            EngineError::StoreError(e) => joined("storage error: ", e.message.as_str()),
        }
    }
}

} // verus!
