//! The plan by which a query is carried out.
use vstd::prelude::*;
use crate::query::{
    EngineQuery, JoinClause, OptionsModel, QualifiedColumn, QualifiedPredicate, QueryModel,
    SelectOptions, UpdateAssignment,
};
use crate::value::EngineRow;

verus! {

/// A plan. It carries out one query.
#[derive(Clone, Debug)]
pub enum LogicalPlan {
    Select {
        table: String,
        projection: Vec<QualifiedColumn>,
        predicate: Option<QualifiedPredicate>,
        options: Box<SelectOptions>,
    },
    Insert { table: String, row: EngineRow },
    Update {
        table: String,
        assignments: Vec<UpdateAssignment>,
        predicate: Option<QualifiedPredicate>,
        joins: Vec<JoinClause>,
        from_tables: Vec<String>,
        returning: Option<Vec<QualifiedColumn>>,
    },
    Delete {
        table: String,
        predicate: Option<QualifiedPredicate>,
        returning: Option<Vec<QualifiedColumn>>,
    },
}

impl DeepView for LogicalPlan {
    /// The query that the plan carries out.
    type V = QueryModel;

    open spec fn deep_view(&self) -> QueryModel {
        match self {
            LogicalPlan::Select { table, projection, predicate, options } => QueryModel::Select {
                table: table@,
                projection: projection.deep_view(),
                predicate: predicate.deep_view(),
                options: options.deep_view(),
            },
            LogicalPlan::Insert { table, row } => QueryModel::Insert {
                table: table@,
                row: row.deep_view(),
            },
            LogicalPlan::Update { table, assignments, predicate, joins, from_tables, returning } =>
                QueryModel::Update {
                table: table@,
                assignments: assignments.deep_view(),
                predicate: predicate.deep_view(),
                joins: joins.deep_view(),
                from_tables: from_tables.deep_view(),
                returning: returning.deep_view(),
            },
            LogicalPlan::Delete { table, predicate, returning } => QueryModel::Delete {
                table: table@,
                predicate: predicate.deep_view(),
                returning: returning.deep_view(),
            },
        }
    }
}

/// Whether options ask for nothing.
pub open spec fn asks_nothing(options: OptionsModel) -> bool {
    &&& options.joins.len() == 0
    &&& options.aggregates.len() == 0
    &&& options.group_by.len() == 0
    &&& options.order_by.len() == 0
    &&& options.limit is None
    &&& options.offset is None
    &&& !options.distinct
    &&& options.having is None
}

impl LogicalPlan {
    /// The plan that carries out a query.
    pub fn from_query(query: EngineQuery) -> (r: LogicalPlan)
        ensures
            r.deep_view() == query.deep_view(),
    {
        match query {
            EngineQuery::Select { table, projection, predicate, options } => LogicalPlan::Select {
                table,
                projection,
                predicate,
                options,
            },
            EngineQuery::Insert { table, row } => LogicalPlan::Insert { table, row },
            EngineQuery::Update { table, assignments, predicate, joins, from_tables, returning } =>
                LogicalPlan::Update {
                table,
                assignments,
                predicate,
                joins,
                from_tables,
                returning,
            },
            EngineQuery::Delete { table, predicate, returning } => LogicalPlan::Delete {
                table,
                predicate,
                returning,
            },
        }
    }

    /// Whether the plan selects from one table and does nothing more.
    pub fn is_simple_select(&self) -> (r: bool)
        ensures
            r == match self.deep_view() {
                QueryModel::Select { options, .. } => asks_nothing(options),
                _ => false,
            },
    {
        match self {
            LogicalPlan::Select { options, .. } => {
                options.joins.len() == 0 && options.aggregates.len() == 0 && options.group_by.len()
                    == 0 && options.order_by.len() == 0 && options.limit.is_none()
                    && options.offset.is_none() && !options.distinct && options.having.is_none()
            },
            _ => false,
        }
    }
}

} // verus!
