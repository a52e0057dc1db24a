//! Errors of the translator.
use vstd::prelude::*;

verus! {

/// What the translator refuses, and why.
#[derive(Clone, Debug, PartialEq, Eq)]
pub enum TranslateError {
    SqlParse(String),
    UnsupportedStatement,
    UnknownTable(String),
    UnknownColumn(String),
    UnsupportedFeature(String),
}

/// What a [`TranslateError`] is, mathematically.
#[verifier::ext_equal]
pub enum Refusal {
    SqlParse(Seq<char>),
    UnsupportedStatement,
    UnknownTable(Seq<char>),
    UnknownColumn(Seq<char>),
    UnsupportedFeature(Seq<char>),
}

impl DeepView for TranslateError {
    type V = Refusal;

    open spec fn deep_view(&self) -> Refusal {
        match self {
            TranslateError::SqlParse(s) => Refusal::SqlParse(s@),
            TranslateError::UnsupportedStatement => Refusal::UnsupportedStatement,
            TranslateError::UnknownTable(s) => Refusal::UnknownTable(s@),
            TranslateError::UnknownColumn(s) => Refusal::UnknownColumn(s@),
            TranslateError::UnsupportedFeature(s) => Refusal::UnsupportedFeature(s@),
        }
    }
}

/// The refusal of a feature.
pub fn unsupported(text: &str) -> (e: TranslateError)
    ensures
        e.deep_view() == Refusal::UnsupportedFeature(text@),
{
    TranslateError::UnsupportedFeature(text.to_string())
}

/// What the error says.
pub open spec fn refusal_text(e: Refusal) -> Seq<char> {
    match e {
        Refusal::SqlParse(s) => "sql parse error: "@ + s,
        Refusal::UnsupportedStatement => "unsupported statement"@,
        Refusal::UnknownTable(s) => "unknown table: "@ + s,
        Refusal::UnknownColumn(s) => "unknown column: "@ + s,
        Refusal::UnsupportedFeature(s) => "unsupported feature: "@ + s,
    }
}

impl TranslateError {
    /// What the error says.
    pub fn message(&self) -> (r: String)
        ensures
            r@ == refusal_text(self.deep_view()),
    {
        match self {
            TranslateError::SqlParse(s) => crate::text::joined("sql parse error: ", s.as_str()),
            TranslateError::UnsupportedStatement => "unsupported statement".to_string(),
            TranslateError::UnknownTable(s) => crate::text::joined("unknown table: ", s.as_str()),
            TranslateError::UnknownColumn(s) => crate::text::joined("unknown column: ", s.as_str()),
            TranslateError::UnsupportedFeature(s) => crate::text::joined(
                "unsupported feature: ",
                s.as_str(),
            ),
        }
    }
}

} // verus!
