//! Conditions and SELECT statements. A condition can hold a whole SELECT, so
//! they stand together.
use vstd::prelude::*;
use crate::plain::{self, no_items, push_back, same_text};
use crate::query::{
    self, ColumnRef, EngineQuery, HavingModel, HavingPredicate, JoinClause, JoinModel,
    OperandModel, OptionsModel, OrderBy, OrderModel, PredicateModel, QualifiedColumn,
    QualifiedOperand, QualifiedPredicate, QueryModel, SelectOptions,
};
use crate::schema::TableSchema;
use crate::schema_resolver::SchemaResolver;
use crate::sql::error::{unsupported, Refusal, TranslateError};
use crate::sql::having::{self, expr_to_having_predicate, HavingContext, HavingScope};
use crate::sql::helpers::{self, resolve_column_local, Aliases, Tables, Translated};
use crate::sql::mapper::ValueMapper;
use crate::sql::name_map::NameMap;
use crate::sql::scope::{self, parse_from_clause, parse_joins, Scope, TranslationContext};
use crate::sql::select_list::{
    self, parse_group_by, parse_limit_clause, parse_order_by, parse_projection, Projected,
    ProjectionList,
};
use crate::sql::syntax::{
    SqlBinaryOp, SqlExpr, SqlLimit, SqlOrderBy, SqlQuery, SqlSelect, SqlSetExpr, SqlUnaryOp,
};
use crate::sql::translate::{self, translate_statement};
use crate::value::{EngineValue, ValueModel};

verus! {

/// One side of a comparison: a column or a literal.
pub open spec fn operand_of<M: ValueMapper>(
    e: SqlExpr,
    aliases: Aliases,
    tables: Tables,
    mapper: M,
) -> Translated<OperandModel> {
    match e {
        SqlExpr::Identifier(_) | SqlExpr::CompoundIdentifier(_) => match helpers::local_column(
            e,
            aliases,
            tables,
        ) {
            Ok(column) => Ok(OperandModel::Column(column)),
            Err(r) => Err(r),
        },
        SqlExpr::Value(_) => match mapper.mapped(e) {
            Ok(value) => Ok(OperandModel::Value(value)),
            Err(r) => Err(r),
        },
        _ => Err(Refusal::UnsupportedFeature("unsupported operand in comparison"@)),
    }
}

/// One side of a comparison.
fn resolve_operand<M: ValueMapper>(
    expr: &SqlExpr,
    alias_map: &NameMap<String>,
    table_schemas: &NameMap<TableSchema>,
    mapper: &M,
) -> (r: Result<QualifiedOperand, TranslateError>)
    requires
        mapper.ready(),
    ensures
        plain::outcome(r) == operand_of(
            *expr,
            alias_map.deep_view(),
            table_schemas.deep_view(),
            *mapper,
        ),
{
    match expr {
        SqlExpr::Identifier(_) | SqlExpr::CompoundIdentifier(_) => match resolve_column_local(
            expr,
            alias_map,
            table_schemas,
        ) {
            Ok(column) => Ok(QualifiedOperand::Column(column)),
            Err(e) => Err(e),
        },
        SqlExpr::Value(_) => match mapper.map_sql_value(expr) {
            Ok(value) => Ok(QualifiedOperand::Value(value)),
            Err(e) => Err(e),
        },
        _ => Err(unsupported("unsupported operand in comparison")),
    }
}

/// The comparison that an operator makes of two operands.
pub open spec fn comparison_of(
    op: SqlBinaryOp,
    left: OperandModel,
    right: OperandModel,
) -> Translated<PredicateModel> {
    match op {
        SqlBinaryOp::Eq => Ok(PredicateModel::Equals(left, right)),
        SqlBinaryOp::NotEq => Ok(PredicateModel::NotEquals(left, right)),
        SqlBinaryOp::Lt => Ok(PredicateModel::LessThan(left, right)),
        SqlBinaryOp::LtEq => Ok(PredicateModel::LessThanOrEquals(left, right)),
        SqlBinaryOp::Gt => Ok(PredicateModel::GreaterThan(left, right)),
        SqlBinaryOp::GtEq => Ok(PredicateModel::GreaterThanOrEquals(left, right)),
        _ => Err(Refusal::UnsupportedFeature("unsupported binary operator in WHERE"@)),
    }
}

/// The comparison that an operator makes of two operands.
fn binary_predicate(op: &SqlBinaryOp, left: QualifiedOperand, right: QualifiedOperand) -> (r: Result<
    QualifiedPredicate,
    TranslateError,
>)
    ensures
        plain::outcome(r) == comparison_of(*op, left.deep_view(), right.deep_view()),
{
    match op {
        SqlBinaryOp::Eq => Ok(QualifiedPredicate::Equals(left, right)),
        SqlBinaryOp::NotEq => Ok(QualifiedPredicate::NotEquals(left, right)),
        SqlBinaryOp::Lt => Ok(QualifiedPredicate::LessThan(left, right)),
        SqlBinaryOp::LtEq => Ok(QualifiedPredicate::LessThanOrEquals(left, right)),
        SqlBinaryOp::Gt => Ok(QualifiedPredicate::GreaterThan(left, right)),
        SqlBinaryOp::GtEq => Ok(QualifiedPredicate::GreaterThanOrEquals(left, right)),
        _ => Err(unsupported("unsupported binary operator in WHERE")),
    }
}

/// The values of the literals of an IN list, or the first refusal.
pub open spec fn listed<M: ValueMapper>(list: Seq<SqlExpr>, mapper: M) -> Translated<
    Seq<ValueModel>,
>
    decreases list.len(),
{
    if list.len() == 0 {
        Ok(Seq::empty())
    } else {
        match listed(list.drop_last(), mapper) {
            Err(r) => Err(r),
            Ok(before) => if list.last() is Value {
                match mapper.mapped(list.last()) {
                    Err(r) => Err(r),
                    Ok(value) => Ok(before.push(value)),
                }
            } else {
                Err(Refusal::UnsupportedFeature("IN list only supports literals in v1"@))
            },
        }
    }
}

proof fn lemma_listed_prefix<M: ValueMapper>(list: Seq<SqlExpr>, mapper: M, n: int)
    requires
        0 <= n <= list.len(),
        listed(list.take(n), mapper) is Err,
    ensures
        listed(list, mapper) == listed(list.take(n), mapper),
    decreases list.len() - n,
{
    if n < list.len() {
        assert(list.take(n + 1).drop_last() =~= list.take(n));
        lemma_listed_prefix(list, mapper, n + 1);
    } else {
        assert(list.take(n) =~= list);
    }
}

/// The values of the literals of an IN list.
fn read_list<M: ValueMapper>(list: &Vec<SqlExpr>, mapper: &M) -> (r: Result<
    Vec<EngineValue>,
    TranslateError,
>)
    requires
        mapper.ready(),
    ensures
        plain::outcome(r) == listed(list@, *mapper),
{
    let mut values: Vec<EngineValue> = no_items();
    let mut i: usize = 0;
    while i < list.len()
        invariant
            i <= list.len(),
            mapper.ready(),
            listed(list@.take(i as int), *mapper) == Ok::<Seq<ValueModel>, Refusal>(
                values.deep_view(),
            ),
        decreases list.len() - i,
    {
        proof {
            assert(list@.take(i + 1).drop_last() =~= list@.take(i as int));
            assert(list@.take(i + 1).last() == list@[i as int]);
            if listed(list@.take(i + 1), *mapper) is Err {
                lemma_listed_prefix(list@, *mapper, i + 1);
            }
        }
        match &list[i] {
            SqlExpr::Value(_) => match mapper.map_sql_value(&list[i]) {
                Ok(value) => {
                    push_back(&mut values, value);
                },
                Err(e) => {
                    return Err(e);
                },
            },
            _ => {
                return Err(unsupported("IN list only supports literals in v1"));
            },
        }
        i += 1;
    }
    proof {
        assert(list@.take(i as int) =~= list@);
    }
    Ok(values)
}

/// The condition that an expression states. A subquery is a query or, without a
/// WITH clause, a statement that writes.
pub open spec fn predicate_of<R: SchemaResolver, M: ValueMapper>(
    e: SqlExpr,
    aliases: Aliases,
    tables: Tables,
    resolver: R,
    mapper: M,
) -> Translated<PredicateModel>
    decreases e,
{
    match e {
        SqlExpr::BinaryOp { left, op, right } => match op {
            SqlBinaryOp::And | SqlBinaryOp::Or => match predicate_of(
                *left,
                aliases,
                tables,
                resolver,
                mapper,
            ) {
                Err(r) => Err(r),
                Ok(a) => match predicate_of(*right, aliases, tables, resolver, mapper) {
                    Err(r) => Err(r),
                    Ok(b) => if op == SqlBinaryOp::And {
                        Ok(PredicateModel::And(Box::new(a), Box::new(b)))
                    } else {
                        Ok(PredicateModel::Or(Box::new(a), Box::new(b)))
                    },
                },
            },
            SqlBinaryOp::Eq | SqlBinaryOp::NotEq | SqlBinaryOp::Lt | SqlBinaryOp::LtEq
            | SqlBinaryOp::Gt | SqlBinaryOp::GtEq => match operand_of(
                *left,
                aliases,
                tables,
                mapper,
            ) {
                Err(r) => Err(r),
                Ok(a) => match operand_of(*right, aliases, tables, mapper) {
                    Err(r) => Err(r),
                    Ok(b) => comparison_of(op, a, b),
                },
            },
            _ => Err(Refusal::UnsupportedFeature("unsupported binary operator in WHERE"@)),
        },
        SqlExpr::UnaryOp { op, expr } => match op {
            SqlUnaryOp::Not => match predicate_of(*expr, aliases, tables, resolver, mapper) {
                Err(r) => Err(r),
                Ok(p) => Ok(PredicateModel::Not(Box::new(p))),
            },
            _ => Err(Refusal::UnsupportedFeature("unsupported unary operator in WHERE"@)),
        },
        SqlExpr::InList { expr, list, negated } => match helpers::local_column(
            *expr,
            aliases,
            tables,
        ) {
            Err(r) => Err(r),
            Ok(column) => match listed(list@, mapper) {
                Err(r) => Err(r),
                Ok(values) => Ok(
                    PredicateModel::InList { expr: column, list: values, negated },
                ),
            },
        },
        SqlExpr::InSubquery { expr, subquery, negated } => match helpers::local_column(
            *expr,
            aliases,
            tables,
        ) {
            Err(r) => Err(r),
            Ok(column) => match match subquery.body {
                SqlSetExpr::Statement(stmt) if !subquery.with => translate::statement_query(
                    *stmt,
                    resolver,
                    mapper,
                ),
                _ => query_of(*subquery, resolver, mapper),
            } {
                Err(r) => Err(r),
                Ok(q) => Ok(
                    PredicateModel::InSubquery { expr: column, subquery: Box::new(q), negated },
                ),
            },
        },
        SqlExpr::IsNull(inner) => match helpers::local_column(*inner, aliases, tables) {
            Err(r) => Err(r),
            Ok(column) => Ok(PredicateModel::IsNull(column)),
        },
        SqlExpr::IsNotNull(inner) => match helpers::local_column(*inner, aliases, tables) {
            Err(r) => Err(r),
            Ok(column) => Ok(PredicateModel::IsNotNull(column)),
        },
        _ => Err(Refusal::UnsupportedFeature("unsupported WHERE expression"@)),
    }
}

/// A SELECT without its conditions.
#[verifier::ext_equal]
pub struct Selection {
    pub table: Seq<char>,
    pub scope: Scope,
    pub joins: Seq<JoinModel>,
    pub projected: Projected,
    pub group_by: Seq<ColumnRef>,
    pub order_by: Seq<OrderModel>,
    pub limit: Option<usize>,
    pub offset: Option<usize>,
}

/// What a SELECT reads, but for its conditions.
pub open spec fn selection_of<R: SchemaResolver>(
    s: SqlSelect,
    order_by: Option<SqlOrderBy>,
    limit: Option<SqlLimit>,
    resolver: R,
) -> Translated<Selection> {
    if s.from@.len() != 1 {
        Err(Refusal::UnsupportedFeature("only single FROM with optional JOINs supported"@))
    } else {
        match scope::from_clause(s.from@[0], scope::empty_scope(), resolver) {
            Err(r) => Err(r),
            Ok((table, start)) => match scope::joins_of(
                s.from@[0].joins@,
                start,
                table,
                resolver,
            ) {
                Err(r) => Err(r),
                Ok(joined) => match select_list::projection_of(s.projection@, joined.scope) {
                    Err(r) => Err(r),
                    Ok(projected) => match select_list::grouping_of(s.group_by, joined.scope) {
                        Err(r) => Err(r),
                        Ok(group_by) => match select_list::order_of(
                            order_by,
                            projected.names,
                            joined.scope,
                        ) {
                            Err(r) => Err(r),
                            Ok(order_by) => match select_list::limits_of(limit) {
                                Err(r) => Err(r),
                                Ok((limit, offset)) => Ok(
                                    Selection {
                                        table,
                                        scope: joined.scope,
                                        joins: joined.joins,
                                        projected,
                                        group_by,
                                        order_by,
                                        limit,
                                        offset,
                                    },
                                ),
                            },
                        },
                    },
                },
            },
        }
    }
}

/// Nothing but columns and a condition is asked for.
pub open spec fn is_simple(s: Selection, distinct: bool) -> bool {
    s.joins.len() == 0 && s.projected.aggregates.len() == 0 && s.group_by.len() == 0
        && s.order_by.len() == 0 && s.limit is None && s.offset is None && !distinct
}

/// The query that a SELECT is. A simple one has no options, not even its HAVING
/// clause; a grouped one has no projection.
pub open spec fn selected(
    s: Selection,
    predicate: Option<PredicateModel>,
    having: Option<HavingModel>,
    distinct: bool,
) -> Translated<QueryModel> {
    if is_simple(s, distinct) {
        if exists|i: int|
            0 <= i < s.projected.columns.len() && (#[trigger] s.projected.columns[i]).table
                != s.table {
            Err(
                Refusal::UnsupportedFeature(
                    "projection references non-base table but no JOIN present"@,
                ),
            )
        } else {
            Ok(
                QueryModel::Select {
                    table: s.table,
                    projection: s.projected.columns,
                    predicate,
                    options: query::no_options(),
                },
            )
        }
    } else {
        Ok(
            QueryModel::Select {
                table: s.table,
                projection: if s.projected.aggregates.len() > 0 || s.group_by.len() > 0 {
                    Seq::empty()
                } else {
                    s.projected.columns
                },
                predicate,
                options: OptionsModel {
                    joins: s.joins,
                    aggregates: s.projected.aggregates,
                    group_by: s.group_by,
                    order_by: s.order_by,
                    limit: s.limit,
                    offset: s.offset,
                    distinct,
                    having,
                },
            },
        )
    }
}

/// The HAVING clause of a SELECT.
pub open spec fn having_clause<M: ValueMapper>(h: Option<SqlExpr>, s: Selection, mapper: M) -> Translated<
    Option<HavingModel>,
> {
    match h {
        None => Ok(None),
        Some(e) => match having::having_of(
            e,
            HavingScope {
                aggregates: s.projected.aggregates,
                names: s.projected.names,
                aliases: s.scope.aliases,
                tables: s.scope.tables,
            },
            mapper,
        ) {
            Err(r) => Err(r),
            Ok(p) => Ok(Some(p)),
        },
    }
}

/// The query that a SELECT statement is.
pub open spec fn query_of<R: SchemaResolver, M: ValueMapper>(
    q: SqlQuery,
    resolver: R,
    mapper: M,
) -> Translated<QueryModel>
    decreases q,
{
    match q.body {
        SqlSetExpr::Select(select) => match selection_of(
            select,
            q.order_by,
            q.limit_clause,
            resolver,
        ) {
            Err(r) => Err(r),
            Ok(s) => {
                let predicate = match select.selection {
                    None => Ok(None),
                    Some(e) => match predicate_of(
                        e,
                        s.scope.aliases,
                        s.scope.tables,
                        resolver,
                        mapper,
                    ) {
                        Err(r) => Err(r),
                        Ok(p) => Ok(Some(p)),
                    },
                };
                match predicate {
                    Err(r) => Err(r),
                    Ok(predicate) => match having_clause(select.having, s, mapper) {
                        Err(r) => Err(r),
                        Ok(having) => selected(s, predicate, having, select.distinct),
                    },
                }
            },
        },
        _ => Err(Refusal::UnsupportedStatement),
    }
}

/// The condition that an expression states. A subquery is translated on its
/// own: it does not see the tables around it.
pub fn expr_to_qualified_predicate<R: SchemaResolver, M: ValueMapper>(
    expr: &SqlExpr,
    alias_map: &NameMap<String>,
    table_schemas: &NameMap<TableSchema>,
    resolver: &R,
    mapper: &M,
) -> (r: Result<QualifiedPredicate, TranslateError>)
    requires
        mapper.ready(),
    ensures
        plain::outcome(r) == predicate_of(
            *expr,
            alias_map.deep_view(),
            table_schemas.deep_view(),
            *resolver,
            *mapper,
        ),
    decreases expr,
{
    match expr {
        SqlExpr::BinaryOp { left, op, right } => match op {
            SqlBinaryOp::And | SqlBinaryOp::Or => {
                let a = match expr_to_qualified_predicate(
                    left,
                    alias_map,
                    table_schemas,
                    resolver,
                    mapper,
                ) {
                    Ok(a) => a,
                    Err(e) => {
                        return Err(e);
                    },
                };
                let b = match expr_to_qualified_predicate(
                    right,
                    alias_map,
                    table_schemas,
                    resolver,
                    mapper,
                ) {
                    Ok(b) => b,
                    Err(e) => {
                        return Err(e);
                    },
                };
                if *op == SqlBinaryOp::And {
                    Ok(QualifiedPredicate::And(Box::new(a), Box::new(b)))
                } else {
                    Ok(QualifiedPredicate::Or(Box::new(a), Box::new(b)))
                }
            },
            SqlBinaryOp::Eq
            | SqlBinaryOp::NotEq
            | SqlBinaryOp::Lt
            | SqlBinaryOp::LtEq
            | SqlBinaryOp::Gt
            | SqlBinaryOp::GtEq => {
                let a = match resolve_operand(left, alias_map, table_schemas, mapper) {
                    Ok(a) => a,
                    Err(e) => {
                        return Err(e);
                    },
                };
                let b = match resolve_operand(right, alias_map, table_schemas, mapper) {
                    Ok(b) => b,
                    Err(e) => {
                        return Err(e);
                    },
                };
                binary_predicate(op, a, b)
            },
            _ => Err(unsupported("unsupported binary operator in WHERE")),
        },
        SqlExpr::UnaryOp { op, expr } => match op {
            SqlUnaryOp::Not => match expr_to_qualified_predicate(
                expr,
                alias_map,
                table_schemas,
                resolver,
                mapper,
            ) {
                Ok(p) => Ok(QualifiedPredicate::Not(Box::new(p))),
                Err(e) => Err(e),
            },
            _ => Err(unsupported("unsupported unary operator in WHERE")),
        },
        SqlExpr::InList { expr, list, negated } => {
            let column = match resolve_column_local(expr, alias_map, table_schemas) {
                Ok(column) => column,
                Err(e) => {
                    return Err(e);
                },
            };
            match read_list(list, mapper) {
                Ok(values) => Ok(
                    QualifiedPredicate::InList { expr: column, list: values, negated: *negated },
                ),
                Err(e) => Err(e),
            }
        },
        SqlExpr::InSubquery { expr, subquery, negated } => {
            let column = match resolve_column_local(expr, alias_map, table_schemas) {
                Ok(column) => column,
                Err(e) => {
                    return Err(e);
                },
            };
            let translated = match &subquery.body {
                SqlSetExpr::Statement(stmt) if !subquery.with => translate_statement(
                    stmt,
                    resolver,
                    mapper,
                ),
                _ => translate_query(subquery, resolver, mapper),
            };
            match translated {
                Ok(q) => Ok(
                    QualifiedPredicate::InSubquery {
                        expr: column,
                        subquery: Box::new(q),
                        negated: *negated,
                    },
                ),
                Err(e) => Err(e),
            }
        },
        SqlExpr::IsNull(inner) => match resolve_column_local(inner, alias_map, table_schemas) {
            Ok(column) => Ok(QualifiedPredicate::IsNull(column)),
            Err(e) => Err(e),
        },
        SqlExpr::IsNotNull(inner) => match resolve_column_local(inner, alias_map, table_schemas) {
            Ok(column) => Ok(QualifiedPredicate::IsNotNull(column)),
            Err(e) => Err(e),
        },
        _ => Err(unsupported("unsupported WHERE expression")),
    }
}

/// A SELECT that has been read, but for its conditions.
struct SelectParts {
    table: String,
    joins: Vec<JoinClause>,
    list: ProjectionList,
    group_by: Vec<QualifiedColumn>,
    order_by: Vec<OrderBy>,
    limit: Option<usize>,
    offset: Option<usize>,
}

impl SelectParts {
    spec fn model(&self, scope: Scope) -> Selection {
        Selection {
            table: self.table@,
            scope,
            joins: self.joins.deep_view(),
            projected: self.list.deep_view(),
            group_by: self.group_by.deep_view(),
            order_by: self.order_by.deep_view(),
            limit: self.limit,
            offset: self.offset,
        }
    }
}

/// Reads a SELECT, but for its conditions.
fn read_selection<R: SchemaResolver, M>(
    select: &SqlSelect,
    order_by: &Option<SqlOrderBy>,
    limit_clause: &Option<SqlLimit>,
    context: &mut TranslationContext<'_, R, M>,
) -> (r: Result<SelectParts, TranslateError>)
    requires
        old(context).scope() == scope::empty_scope(),
    ensures
        final(context).resolver == old(context).resolver,
        final(context).mapper == old(context).mapper,
        match selection_of(*select, *order_by, *limit_clause, *old(context).resolver) {
            Ok(s) => r is Ok && r->Ok_0.model(final(context).scope()) == s,
            Err(e) => r is Err && r->Err_0.deep_view() == e,
        },
{
    if select.from.len() != 1 {
        return Err(unsupported("only single FROM with optional JOINs supported"));
    }
    let from = &select.from[0];
    let table = match parse_from_clause(from, context) {
        Ok(table) => table,
        Err(e) => {
            return Err(e);
        },
    };
    let joins = match parse_joins(&from.joins, context, table.as_str()) {
        Ok(joins) => joins,
        Err(e) => {
            return Err(e);
        },
    };
    let list = match parse_projection(&select.projection, context) {
        Ok(list) => list,
        Err(e) => {
            return Err(e);
        },
    };
    let group_by = match parse_group_by(&select.group_by, context) {
        Ok(group_by) => group_by,
        Err(e) => {
            return Err(e);
        },
    };
    let order_by = match parse_order_by(order_by, &list.names, context) {
        Ok(order_by) => order_by,
        Err(e) => {
            return Err(e);
        },
    };
    match parse_limit_clause(limit_clause) {
        Ok((limit, offset)) => Ok(
            SelectParts { table, joins, list, group_by, order_by, limit, offset },
        ),
        Err(e) => Err(e),
    }
}

/// The columns of a projection of one table, by place.
fn simple_projection(columns: &Vec<QualifiedColumn>, table: &str) -> (r: Result<
    Vec<usize>,
    TranslateError,
>)
    ensures
        match r {
            Ok(places) => columns.deep_view() == Seq::new(
                places@.len(),
                |i: int| ColumnRef { table: table@, column_index: places@[i] },
            ),
            Err(e) => e.deep_view() == Refusal::UnsupportedFeature(
                "projection references non-base table but no JOIN present"@,
            ),
        },
        r is Err <==> exists|i: int|
            0 <= i < columns.deep_view().len() && (#[trigger] columns.deep_view()[i]).table
                != table@,
{
    let ghost all = columns.deep_view();
    let mut places: Vec<usize> = Vec::new();
    let mut i: usize = 0;
    while i < columns.len()
        invariant
            i <= columns.len(),
            all == columns.deep_view(),
            places.len() == i,
            forall|j: int| 0 <= j < i ==> (#[trigger] all[j]).table == table@,
            forall|j: int| 0 <= j < i ==> #[trigger] places@[j] == all[j].column_index,
        decreases columns.len() - i,
    {
        let column = &columns[i];
        assert(all[i as int] == column.deep_view());
        if !same_text(column.table.as_str(), table) {
            return Err(unsupported("projection references non-base table but no JOIN present"));
        }
        places.push(column.column_index);
        i += 1;
    }
    proof {
        let wanted = Seq::new(
            places@.len(),
            |i: int| ColumnRef { table: table@, column_index: places@[i] },
        );
        assert forall|j: int| 0 <= j < all.len() implies all[j] == wanted[j] by {
            assert(all[j].table == table@ && places@[j] == all[j].column_index);
        }
        assert(all =~= wanted);
    }
    Ok(places)
}

/// The query that a SELECT is.
fn build_select(
    parts: SelectParts,
    predicate: Option<QualifiedPredicate>,
    having: Option<HavingPredicate>,
    distinct: bool,
    Ghost(at): Ghost<Scope>,
) -> (r: Result<EngineQuery, TranslateError>)
    ensures
        plain::outcome(r) == selected(
            parts.model(at),
            predicate.deep_view(),
            having.deep_view(),
            distinct,
        ),
{
    let ghost model = parts.model(at);
    let simple = parts.joins.len() == 0 && parts.list.aggregates.len() == 0
        && parts.group_by.len() == 0 && parts.order_by.len() == 0 && parts.limit.is_none()
        && parts.offset.is_none() && !distinct;
    assert(simple == is_simple(model, distinct));
    if simple {
        match simple_projection(&parts.list.columns, parts.table.as_str()) {
            Ok(places) => Ok(EngineQuery::select_simple(parts.table, places, predicate)),
            Err(e) => Err(e),
        }
    } else {
        let grouped = parts.list.aggregates.len() > 0 || parts.group_by.len() > 0;
        assert(grouped == (model.projected.aggregates.len() > 0 || model.group_by.len() > 0));
        let projection: Vec<QualifiedColumn> = if grouped {
            no_items()
        } else {
            parts.list.columns
        };
        let options = SelectOptions {
            joins: parts.joins,
            aggregates: parts.list.aggregates,
            group_by: parts.group_by,
            order_by: parts.order_by,
            limit: parts.limit,
            offset: parts.offset,
            distinct,
            having,
        };
        Ok(
            EngineQuery::Select {
                table: parts.table,
                projection,
                predicate,
                options: Box::new(options),
            },
        )
    }
}

/// The query that a SELECT statement is.
pub fn translate_query<R: SchemaResolver, M: ValueMapper>(
    query: &SqlQuery,
    resolver: &R,
    mapper: &M,
) -> (r: Result<EngineQuery, TranslateError>)
    requires
        mapper.ready(),
    ensures
        plain::outcome(r) == query_of(*query, *resolver, *mapper),
    decreases query,
{
    match &query.body {
        SqlSetExpr::Select(select) => {
            let mut context = TranslationContext::new(resolver, mapper);
            let parts = match read_selection(
                select,
                &query.order_by,
                &query.limit_clause,
                &mut context,
            ) {
                Ok(parts) => parts,
                Err(e) => {
                    return Err(e);
                },
            };
            let predicate: Option<QualifiedPredicate> = match &select.selection {
                Some(selection) => match expr_to_qualified_predicate(
                    selection,
                    &context.alias_map,
                    &context.table_schemas,
                    resolver,
                    mapper,
                ) {
                    Ok(p) => Some(p),
                    Err(e) => {
                        return Err(e);
                    },
                },
                None => None,
            };
            let having: Option<HavingPredicate> = match &select.having {
                Some(h) => {
                    let having_context = HavingContext {
                        aggregates: &parts.list.aggregates,
                        proj_alias_map: &parts.list.names,
                        alias_map: &context.alias_map,
                        table_schemas: &context.table_schemas,
                        mapper,
                    };
                    match expr_to_having_predicate(h, &having_context) {
                        Ok(p) => Some(p),
                        Err(e) => {
                            return Err(e);
                        },
                    }
                },
                None => None,
            };
            build_select(parts, predicate, having, select.distinct, Ghost(context.scope()))
        },
        _ => Err(TranslateError::UnsupportedStatement),
    }
}

} // verus!
