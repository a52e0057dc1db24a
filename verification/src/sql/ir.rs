//! What a statement is once it has been translated.
use vstd::prelude::*;
use crate::query::{EngineQuery, QueryModel};
use crate::schema::{IndexModel, IndexSchema, TableModel, TableSchema};

verus! {

/// A translated query.
#[derive(Clone, Debug)]
pub struct CanonicalQuery {
    pub engine_query: EngineQuery,
}

impl DeepView for CanonicalQuery {
    type V = QueryModel;

    open spec fn deep_view(&self) -> QueryModel {
        self.engine_query.deep_view()
    }
}

impl From<EngineQuery> for CanonicalQuery {
    fn from(eq: EngineQuery) -> (r: CanonicalQuery) {
        CanonicalQuery { engine_query: eq }
    }
}

impl vstd::std_specs::convert::FromSpecImpl<EngineQuery> for CanonicalQuery {
    open spec fn obeys_from_spec() -> bool {
        true
    }

    open spec fn from_spec(eq: EngineQuery) -> CanonicalQuery {
        CanonicalQuery { engine_query: eq }
    }
}

/// A change of the schema. The flag of a table says whether it may exist
/// already, or may be missing.
#[derive(Clone, Debug)]
pub enum DdlOp {
    CreateTable(TableSchema, bool),
    DropTable(String, bool),
    CreateIndex(IndexSchema),
    DropIndex(String),
}

/// What a [`DdlOp`] is, mathematically.
#[verifier::ext_equal]
pub enum DdlModel {
    CreateTable(TableModel, bool),
    DropTable(Seq<char>, bool),
    CreateIndex(IndexModel),
    DropIndex(Seq<char>),
}

impl DeepView for DdlOp {
    type V = DdlModel;

    open spec fn deep_view(&self) -> DdlModel {
        match self {
            DdlOp::CreateTable(t, f) => DdlModel::CreateTable(t.deep_view(), *f),
            DdlOp::DropTable(n, f) => DdlModel::DropTable(n@, *f),
            DdlOp::CreateIndex(i) => DdlModel::CreateIndex(i.deep_view()),
            DdlOp::DropIndex(n) => DdlModel::DropIndex(n@),
        }
    }
}

/// A translated statement.
#[derive(Clone, Debug)]
pub enum CanonicalStatement {
    Query(EngineQuery),
    Ddl(DdlOp),
}

/// What a [`CanonicalStatement`] is, mathematically.
#[verifier::ext_equal]
pub enum StatementModel {
    Query(QueryModel),
    Ddl(DdlModel),
}

impl DeepView for CanonicalStatement {
    type V = StatementModel;

    open spec fn deep_view(&self) -> StatementModel {
        match self {
            CanonicalStatement::Query(q) => StatementModel::Query(q.deep_view()),
            CanonicalStatement::Ddl(op) => StatementModel::Ddl(op.deep_view()),
        }
    }
}

impl From<EngineQuery> for CanonicalStatement {
    fn from(eq: EngineQuery) -> (r: CanonicalStatement) {
        CanonicalStatement::Query(eq)
    }
}

impl vstd::std_specs::convert::FromSpecImpl<EngineQuery> for CanonicalStatement {
    open spec fn obeys_from_spec() -> bool {
        true
    }

    open spec fn from_spec(eq: EngineQuery) -> CanonicalStatement {
        CanonicalStatement::Query(eq)
    }
}

impl From<DdlOp> for CanonicalStatement {
    fn from(op: DdlOp) -> (r: CanonicalStatement) {
        CanonicalStatement::Ddl(op)
    }
}

impl vstd::std_specs::convert::FromSpecImpl<DdlOp> for CanonicalStatement {
    open spec fn obeys_from_spec() -> bool {
        true
    }

    open spec fn from_spec(op: DdlOp) -> CanonicalStatement {
        CanonicalStatement::Ddl(op)
    }
}

} // verus!
