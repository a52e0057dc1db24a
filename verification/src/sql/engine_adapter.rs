//! Lowering translated queries.
use vstd::prelude::*;
use crate::plain::{self, Plain};
use crate::query::{EngineQuery, QueryModel};
use crate::sql::error::TranslateError;
use crate::sql::helpers::Translated;
use crate::sql::ir::CanonicalQuery;

verus! {

/// A way to lower a [`CanonicalQuery`] to what a backend runs.
pub trait EngineAdapter {
    type Output: DeepView;

    /// What a query is lowered to.
    spec fn lowered(&self, query: QueryModel) -> Translated<<Self::Output as DeepView>::V>;

    fn lower(&self, cq: &CanonicalQuery) -> (r: Result<Self::Output, TranslateError>)
        ensures
            plain::outcome(r) == self.lowered(cq.deep_view()),
    ;
}

/// The adapter for the engine of this library: a query is lowered to itself.
#[derive(Clone, Debug)]
pub struct DbEngineAdapter;

impl EngineAdapter for DbEngineAdapter {
    type Output = EngineQuery;

    open spec fn lowered(&self, query: QueryModel) -> Translated<QueryModel> {
        Ok(query)
    }

    fn lower(&self, cq: &CanonicalQuery) -> (r: Result<EngineQuery, TranslateError>) {
        Ok(cq.engine_query.duplicate())
    }
}

} // verus!
