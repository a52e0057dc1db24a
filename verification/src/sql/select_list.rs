//! Projections, grouping, sorting and limits of a SELECT.
use vstd::prelude::*;
use crate::plain::{self, no_items, push_back, same_text, Plain};
use crate::query::{
    Aggregate, AggregateModel, ColumnRef, OrderBy, OrderModel, QualifiedColumn, SortDirection,
};
use crate::schema::TableSchema;
use crate::sql::error::{unsupported, Refusal, TranslateError};
use crate::sql::having::{self, called_name};
use crate::sql::helpers::{self, resolve_column, Translated};
use crate::sql::name_map::NameMap;
use crate::sql::scope::{Scope, TranslationContext};
use crate::sql::syntax::{
    SqlExpr, SqlFunction, SqlFunctionArg, SqlFunctionArgs, SqlGroupBy, SqlLimit, SqlLiteral,
    SqlOrderBy, SqlOrderByExpr, SqlSelectItem,
};
use crate::text::{self, joined, parse_unsigned};

verus! {

/// A projection that has been read: the columns, the aggregates, and the
/// columns behind the aliases.
#[verifier::ext_equal]
pub struct Projected {
    pub columns: Seq<ColumnRef>,
    pub aggregates: Seq<AggregateModel>,
    pub names: Map<Seq<char>, ColumnRef>,
}

/// Nothing has been projected.
pub open spec fn empty_projection() -> Projected {
    Projected { columns: Seq::empty(), aggregates: Seq::empty(), names: Map::empty() }
}

/// All columns of a table with `n` columns.
pub open spec fn columns_of(table: Seq<char>, n: nat) -> Seq<ColumnRef> {
    Seq::new(n, |i: int| ColumnRef { table, column_index: i as usize })
}

/// All columns of the tables called.
pub open spec fn all_columns(called: Seq<Seq<char>>, tables: helpers::Tables) -> Seq<ColumnRef>
    decreases called.len(),
{
    if called.len() == 0 {
        Seq::empty()
    } else {
        let before = all_columns(called.drop_last(), tables);
        if tables.contains_key(called.last()) {
            before + columns_of(called.last(), tables[called.last()].columns.len())
        } else {
            before
        }
    }
}

pub open spec fn resolved(e: SqlExpr, scope: Scope) -> Translated<ColumnRef> {
    helpers::column_among(e, scope.aliases, scope.called, scope.tables)
}

/// The aggregate of one column that a function is.
pub open spec fn column_aggregate(name: Seq<char>, column: ColumnRef) -> AggregateModel {
    if name == "count"@ {
        AggregateModel::Count(Some(column))
    } else if name == "sum"@ {
        AggregateModel::Sum(column)
    } else if name == "min"@ {
        AggregateModel::Min(column)
    } else if name == "max"@ {
        AggregateModel::Max(column)
    } else {
        AggregateModel::Avg(column)
    }
}

/// A projection with one more aggregate of a column.
pub open spec fn with_aggregate(
    before: Projected,
    name: Seq<char>,
    column: ColumnRef,
    alias: Option<Seq<char>>,
) -> Projected {
    Projected {
        columns: before.columns,
        aggregates: before.aggregates.push(column_aggregate(name, column)),
        names: match alias {
            Some(a) => before.names.insert(a, column),
            None => before.names,
        },
    }
}

/// The arguments of a call.
pub open spec fn arguments(f: SqlFunction) -> Translated<Seq<SqlFunctionArg>> {
    match f.args {
        SqlFunctionArgs::List(args) => Ok(args@),
        SqlFunctionArgs::Absent => Ok(Seq::empty()),
        SqlFunctionArgs::Subquery => Err(
            Refusal::UnsupportedFeature("function with subquery args unsupported"@),
        ),
    }
}

/// A projection with one more call.
pub open spec fn with_call(
    before: Projected,
    f: SqlFunction,
    alias: Option<Seq<char>>,
    scope: Scope,
) -> Translated<Projected> {
    let name = having::function_name(f);
    match arguments(f) {
        Err(r) => Err(r),
        Ok(args) => if args.len() != 1 {
            Err(Refusal::UnsupportedFeature("aggregate takes one argument"@))
        } else if name == "count"@ {
            match args[0] {
                SqlFunctionArg::Wildcard => Ok(
                    Projected {
                        aggregates: before.aggregates.push(AggregateModel::Count(None)),
                        ..before
                    },
                ),
                SqlFunctionArg::Expr(e) => match resolved(*e, scope) {
                    Err(r) => Err(r),
                    Ok(column) => Ok(with_aggregate(before, name, column, alias)),
                },
                SqlFunctionArg::QualifiedWildcard => Err(
                    Refusal::UnsupportedFeature("qualified wildcard in aggregate not supported"@),
                ),
                SqlFunctionArg::Other => Err(
                    Refusal::UnsupportedFeature("unsupported COUNT args"@),
                ),
            }
        } else if name == "sum"@ || name == "min"@ || name == "max"@ || name == "avg"@ {
            match args[0] {
                SqlFunctionArg::Expr(e) => match resolved(*e, scope) {
                    Err(r) => Err(r),
                    Ok(column) => Ok(with_aggregate(before, name, column, alias)),
                },
                _ => Err(Refusal::UnsupportedFeature("unsupported aggregate arg"@)),
            }
        } else {
            Err(Refusal::UnsupportedFeature("unsupported function: "@ + name))
        },
    }
}

/// A projection with one more item.
pub open spec fn with_item(before: Projected, item: SqlSelectItem, scope: Scope) -> Translated<
    Projected,
> {
    match item {
        SqlSelectItem::Wildcard => Ok(
            Projected {
                columns: before.columns + all_columns(scope.called, scope.tables),
                ..before
            },
        ),
        SqlSelectItem::UnnamedExpr(SqlExpr::Function(f)) => with_call(before, f, None, scope),
        SqlSelectItem::UnnamedExpr(e) => match resolved(e, scope) {
            Err(r) => Err(r),
            Ok(column) => Ok(Projected { columns: before.columns.push(column), ..before }),
        },
        SqlSelectItem::ExprWithAlias { expr: SqlExpr::Function(f), alias } => with_call(
            before,
            f,
            Some(alias@),
            scope,
        ),
        SqlSelectItem::ExprWithAlias { expr, alias } => match resolved(expr, scope) {
            Err(r) => Err(r),
            Ok(column) => Ok(
                Projected {
                    columns: before.columns.push(column),
                    names: before.names.insert(alias@, column),
                    ..before
                },
            ),
        },
        _ => Err(Refusal::UnsupportedFeature("unsupported projection item"@)),
    }
}

/// The projection that the items make up.
pub open spec fn projection_of(items: Seq<SqlSelectItem>, scope: Scope) -> Translated<Projected>
    decreases items.len(),
{
    if items.len() == 0 {
        Ok(empty_projection())
    } else {
        match projection_of(items.drop_last(), scope) {
            Err(r) => Err(r),
            Ok(before) => with_item(before, items.last(), scope),
        }
    }
}

proof fn lemma_projection_prefix(items: Seq<SqlSelectItem>, scope: Scope, n: int)
    requires
        0 <= n <= items.len(),
        projection_of(items.take(n), scope) is Err,
    ensures
        projection_of(items, scope) == projection_of(items.take(n), scope),
    decreases items.len() - n,
{
    if n < items.len() {
        assert(items.take(n + 1).drop_last() =~= items.take(n));
        lemma_projection_prefix(items, scope, n + 1);
    } else {
        assert(items.take(n) =~= items);
    }
}

/// A projection that is being read.
pub struct ProjectionList {
    pub columns: Vec<QualifiedColumn>,
    pub aggregates: Vec<Aggregate>,
    pub names: NameMap<QualifiedColumn>,
}

impl DeepView for ProjectionList {
    type V = Projected;

    open spec fn deep_view(&self) -> Projected {
        Projected {
            columns: self.columns.deep_view(),
            aggregates: self.aggregates.deep_view(),
            names: self.names.deep_view(),
        }
    }
}

/// Adds all columns of a table.
pub fn push_columns(columns: &mut Vec<QualifiedColumn>, table: &str, n: usize)
    ensures
        final(columns).deep_view() == old(columns).deep_view() + columns_of(table@, n as nat),
{
    let ghost before = columns.deep_view();
    let ghost wanted = columns_of(table@, n as nat);
    let mut i: usize = 0;
    proof {
        assert(before =~= before + wanted.take(0));
    }
    while i < n
        invariant
            i <= n,
            wanted == columns_of(table@, n as nat),
            columns.deep_view() == before + wanted.take(i as int),
        decreases n - i,
    {
        push_back(columns, QualifiedColumn { table: table.to_string(), column_index: i });
        proof {
            assert(columns.deep_view() =~= before + wanted.take(i + 1));
        }
        i += 1;
    }
    proof {
        assert(wanted.take(i as int) =~= wanted);
    }
}

/// Adds all columns of the tables called.
fn push_all_columns(
    columns: &mut Vec<QualifiedColumn>,
    referenced_tables: &Vec<String>,
    table_schemas: &NameMap<TableSchema>,
)
    ensures
        final(columns).deep_view() == old(columns).deep_view() + all_columns(
            referenced_tables.deep_view(),
            table_schemas.deep_view(),
        ),
{
    let ghost before = columns.deep_view();
    let ghost called = referenced_tables.deep_view();
    let ghost tables = table_schemas.deep_view();
    let mut i: usize = 0;
    proof {
        assert(before =~= before + all_columns(called.take(0), tables));
    }
    while i < referenced_tables.len()
        invariant
            i <= referenced_tables.len(),
            called == referenced_tables.deep_view(),
            tables == table_schemas.deep_view(),
            columns.deep_view() == before + all_columns(called.take(i as int), tables),
        decreases referenced_tables.len() - i,
    {
        let t = &referenced_tables[i];
        let ghost so_far = all_columns(called.take(i as int), tables);
        proof {
            assert(called.take(i + 1).drop_last() =~= called.take(i as int));
            assert(called.take(i + 1).last() == t@);
        }
        if let Some(schema) = table_schemas.get(t.as_str()) {
            push_columns(columns, t.as_str(), schema.columns.len());
            proof {
                let more = columns_of(t@, schema.columns.deep_view().len());
                assert(schema.columns.len() == schema.columns.deep_view().len());
                assert((before + so_far) + more =~= before + (so_far + more));
            }
        }
        i += 1;
    }
    proof {
        assert(called.take(i as int) =~= called);
    }
}

/// Adds an aggregate of a column, and its alias if it has one.
fn push_aggregate(
    list: &mut ProjectionList,
    name: &str,
    column: QualifiedColumn,
    alias: Option<&str>,
)
    ensures
        final(list).deep_view() == with_aggregate(
            old(list).deep_view(),
            name@,
            column.deep_view(),
            alias.deep_view(),
        ),
{
    let aggregate = if same_text(name, "count") {
        Aggregate::Count(Some(column.duplicate()))
    } else if same_text(name, "sum") {
        Aggregate::Sum(column.duplicate())
    } else if same_text(name, "min") {
        Aggregate::Min(column.duplicate())
    } else if same_text(name, "max") {
        Aggregate::Max(column.duplicate())
    } else {
        Aggregate::Avg(column.duplicate())
    };
    push_back(&mut list.aggregates, aggregate);
    if let Some(a) = alias {
        list.names.insert(a.to_string(), column);
    }
}

/// Reads a call in a projection.
fn parse_aggregate_function<R, M>(
    func: &SqlFunction,
    alias_name: Option<&str>,
    context: &TranslationContext<'_, R, M>,
    list: &mut ProjectionList,
) -> (r: Result<(), TranslateError>)
    ensures
        match with_call(old(list).deep_view(), *func, alias_name.deep_view(), context.scope()) {
            Ok(p) => r is Ok && final(list).deep_view() == p,
            Err(e) => r is Err && r->Err_0.deep_view() == e,
        },
{
    let name = called_name(func);
    let first = name.as_str();
    let args: &Vec<SqlFunctionArg> = match &func.args {
        SqlFunctionArgs::List(args) => args,
        SqlFunctionArgs::Absent => {
            return Err(unsupported("aggregate takes one argument"));
        },
        SqlFunctionArgs::Subquery => {
            return Err(unsupported("function with subquery args unsupported"));
        },
    };
    if args.len() != 1 {
        return Err(unsupported("aggregate takes one argument"));
    }
    if same_text(first, "count") {
        match &args[0] {
            SqlFunctionArg::Wildcard => {
                push_back(&mut list.aggregates, Aggregate::Count(None));
                Ok(())
            },
            SqlFunctionArg::Expr(arg) => match resolve_column(
                arg,
                &context.alias_map,
                &context.referenced_tables,
                &context.table_schemas,
            ) {
                Ok(column) => {
                    push_aggregate(list, first, column, alias_name);
                    Ok(())
                },
                Err(e) => Err(e),
            },
            SqlFunctionArg::QualifiedWildcard => Err(
                unsupported("qualified wildcard in aggregate not supported"),
            ),
            SqlFunctionArg::Other => Err(unsupported("unsupported COUNT args")),
        }
    } else if same_text(first, "sum") || same_text(first, "min") || same_text(first, "max")
        || same_text(first, "avg") {
        match &args[0] {
            SqlFunctionArg::Expr(arg) => match resolve_column(
                arg,
                &context.alias_map,
                &context.referenced_tables,
                &context.table_schemas,
            ) {
                Ok(column) => {
                    push_aggregate(list, first, column, alias_name);
                    Ok(())
                },
                Err(e) => Err(e),
            },
            _ => Err(unsupported("unsupported aggregate arg")),
        }
    } else {
        Err(TranslateError::UnsupportedFeature(joined("unsupported function: ", first)))
    }
}

/// Reads an item of a projection.
fn parse_projection_item<R, M>(
    item: &SqlSelectItem,
    context: &TranslationContext<'_, R, M>,
    list: &mut ProjectionList,
) -> (r: Result<(), TranslateError>)
    ensures
        match with_item(old(list).deep_view(), *item, context.scope()) {
            Ok(p) => r is Ok && final(list).deep_view() == p,
            Err(e) => r is Err && r->Err_0.deep_view() == e,
        },
{
    match item {
        SqlSelectItem::Wildcard => {
            push_all_columns(
                &mut list.columns,
                &context.referenced_tables,
                &context.table_schemas,
            );
            Ok(())
        },
        SqlSelectItem::UnnamedExpr(expr) => match expr {
            SqlExpr::Function(f) => parse_aggregate_function(f, None, context, list),
            _ => match resolve_column(
                expr,
                &context.alias_map,
                &context.referenced_tables,
                &context.table_schemas,
            ) {
                Ok(column) => {
                    push_back(&mut list.columns, column);
                    Ok(())
                },
                Err(e) => Err(e),
            },
        },
        SqlSelectItem::ExprWithAlias { expr, alias } => match expr {
            SqlExpr::Function(f) => parse_aggregate_function(
                f,
                Some(alias.as_str()),
                context,
                list,
            ),
            _ => match resolve_column(
                expr,
                &context.alias_map,
                &context.referenced_tables,
                &context.table_schemas,
            ) {
                Ok(column) => {
                    list.names.insert(alias.clone(), column.duplicate());
                    push_back(&mut list.columns, column);
                    Ok(())
                },
                Err(e) => Err(e),
            },
        },
        _ => Err(unsupported("unsupported projection item")),
    }
}

/// Reads a projection.
pub fn parse_projection<R, M>(
    projection: &Vec<SqlSelectItem>,
    context: &TranslationContext<'_, R, M>,
) -> (r: Result<ProjectionList, TranslateError>)
    ensures
        plain::outcome(r) == projection_of(projection@, context.scope()),
{
    let ghost scope = context.scope();
    let mut list = ProjectionList {
        columns: no_items(),
        aggregates: no_items(),
        names: NameMap::new(),
    };
    let mut i: usize = 0;
    while i < projection.len()
        invariant
            i <= projection.len(),
            scope == context.scope(),
            projection_of(projection@.take(i as int), scope) == Ok::<Projected, Refusal>(
                list.deep_view(),
            ),
        decreases projection.len() - i,
    {
        proof {
            assert(projection@.take(i + 1).drop_last() =~= projection@.take(i as int));
            assert(projection@.take(i + 1).last() == projection@[i as int]);
        }
        match parse_projection_item(&projection[i], context, &mut list) {
            Ok(()) => {},
            Err(e) => {
                proof {
                    lemma_projection_prefix(projection@, scope, i + 1);
                }
                return Err(e);
            },
        }
        i += 1;
    }
    proof {
        assert(projection@.take(i as int) =~= projection@);
    }
    Ok(list)
}

/// The columns that expressions stand for, or the first refusal.
pub open spec fn resolved_all(list: Seq<SqlExpr>, scope: Scope) -> Translated<Seq<ColumnRef>>
    decreases list.len(),
{
    if list.len() == 0 {
        Ok(Seq::empty())
    } else {
        match resolved_all(list.drop_last(), scope) {
            Err(r) => Err(r),
            Ok(before) => match resolved(list.last(), scope) {
                Err(r) => Err(r),
                Ok(column) => Ok(before.push(column)),
            },
        }
    }
}

proof fn lemma_resolved_prefix(list: Seq<SqlExpr>, scope: Scope, n: int)
    requires
        0 <= n <= list.len(),
        resolved_all(list.take(n), scope) is Err,
    ensures
        resolved_all(list, scope) == resolved_all(list.take(n), scope),
    decreases list.len() - n,
{
    if n < list.len() {
        assert(list.take(n + 1).drop_last() =~= list.take(n));
        lemma_resolved_prefix(list, scope, n + 1);
    } else {
        assert(list.take(n) =~= list);
    }
}

/// The columns of a GROUP BY clause.
pub open spec fn grouping_of(g: SqlGroupBy, scope: Scope) -> Translated<Seq<ColumnRef>> {
    match g {
        SqlGroupBy::Expressions(list) => resolved_all(list@, scope),
        SqlGroupBy::All => Err(Refusal::UnsupportedFeature("GROUP BY ALL not supported"@)),
    }
}

/// Reads a GROUP BY clause.
pub fn parse_group_by<R, M>(group_by: &SqlGroupBy, context: &TranslationContext<'_, R, M>) -> (r:
    Result<Vec<QualifiedColumn>, TranslateError>)
    ensures
        plain::outcome(r) == grouping_of(*group_by, context.scope()),
{
    match group_by {
        SqlGroupBy::All => Err(unsupported("GROUP BY ALL not supported")),
        SqlGroupBy::Expressions(list) => {
            let ghost scope = context.scope();
            let mut out: Vec<QualifiedColumn> = no_items();
            let mut i: usize = 0;
            while i < list.len()
                invariant
                    i <= list.len(),
                    scope == context.scope(),
                    grouping_of(*group_by, scope) == resolved_all(list@, scope),
                    resolved_all(list@.take(i as int), scope) == Ok::<Seq<ColumnRef>, Refusal>(
                        out.deep_view(),
                    ),
                decreases list.len() - i,
            {
                proof {
                    assert(list@.take(i + 1).drop_last() =~= list@.take(i as int));
                    assert(list@.take(i + 1).last() == list@[i as int]);
                }
                match resolve_column(
                    &list[i],
                    &context.alias_map,
                    &context.referenced_tables,
                    &context.table_schemas,
                ) {
                    Ok(column) => {
                        push_back(&mut out, column);
                    },
                    Err(e) => {
                        proof {
                            lemma_resolved_prefix(list@, scope, i + 1);
                        }
                        return Err(e);
                    },
                }
                i += 1;
            }
            proof {
                assert(list@.take(i as int) =~= list@);
            }
            Ok(out)
        },
    }
}

/// What an expression of an ORDER BY clause sorts by. A bare name may be an
/// alias of the projection.
pub open spec fn sorting_of(
    o: SqlOrderByExpr,
    names: Map<Seq<char>, ColumnRef>,
    scope: Scope,
) -> Translated<OrderModel> {
    let column = match o.expr {
        SqlExpr::Identifier(name) => if names.contains_key(name@) {
            Ok(names[name@])
        } else {
            resolved(o.expr, scope)
        },
        SqlExpr::CompoundIdentifier(_) => resolved(o.expr, scope),
        _ => Err(Refusal::UnsupportedFeature("unsupported ORDER BY expression"@)),
    };
    match column {
        Err(r) => Err(r),
        Ok(expr) => Ok(
            OrderModel {
                expr,
                direction: if o.asc == Some(false) {
                    SortDirection::Desc
                } else {
                    SortDirection::Asc
                },
            },
        ),
    }
}

/// What the expressions of an ORDER BY clause sort by, or the first refusal.
pub open spec fn sortings_of(
    list: Seq<SqlOrderByExpr>,
    names: Map<Seq<char>, ColumnRef>,
    scope: Scope,
) -> Translated<Seq<OrderModel>>
    decreases list.len(),
{
    if list.len() == 0 {
        Ok(Seq::empty())
    } else {
        match sortings_of(list.drop_last(), names, scope) {
            Err(r) => Err(r),
            Ok(before) => match sorting_of(list.last(), names, scope) {
                Err(r) => Err(r),
                Ok(order) => Ok(before.push(order)),
            },
        }
    }
}

proof fn lemma_sortings_prefix(
    list: Seq<SqlOrderByExpr>,
    names: Map<Seq<char>, ColumnRef>,
    scope: Scope,
    n: int,
)
    requires
        0 <= n <= list.len(),
        sortings_of(list.take(n), names, scope) is Err,
    ensures
        sortings_of(list, names, scope) == sortings_of(list.take(n), names, scope),
    decreases list.len() - n,
{
    if n < list.len() {
        assert(list.take(n + 1).drop_last() =~= list.take(n));
        lemma_sortings_prefix(list, names, scope, n + 1);
    } else {
        assert(list.take(n) =~= list);
    }
}

/// What an ORDER BY clause sorts by.
pub open spec fn order_of(
    o: Option<SqlOrderBy>,
    names: Map<Seq<char>, ColumnRef>,
    scope: Scope,
) -> Translated<Seq<OrderModel>> {
    match o {
        None => Ok(Seq::empty()),
        Some(SqlOrderBy::Expressions(list)) => sortings_of(list@, names, scope),
        Some(SqlOrderBy::All) => Err(Refusal::UnsupportedFeature("ORDER BY ALL not supported"@)),
    }
}

fn parse_sorting<R, M>(
    o: &SqlOrderByExpr,
    names: &NameMap<QualifiedColumn>,
    context: &TranslationContext<'_, R, M>,
) -> (r: Result<OrderBy, TranslateError>)
    ensures
        plain::outcome(r) == sorting_of(*o, names.deep_view(), context.scope()),
{
    let column = match &o.expr {
        SqlExpr::Identifier(name) => match names.get(name.as_str()) {
            Some(column) => Ok(column.duplicate()),
            None => resolve_column(
                &o.expr,
                &context.alias_map,
                &context.referenced_tables,
                &context.table_schemas,
            ),
        },
        SqlExpr::CompoundIdentifier(_) => resolve_column(
            &o.expr,
            &context.alias_map,
            &context.referenced_tables,
            &context.table_schemas,
        ),
        _ => Err(unsupported("unsupported ORDER BY expression")),
    };
    match column {
        Ok(expr) => {
            let direction = match o.asc {
                Some(false) => SortDirection::Desc,
                _ => SortDirection::Asc,
            };
            Ok(OrderBy { expr, direction })
        },
        Err(e) => Err(e),
    }
}

/// Reads an ORDER BY clause.
pub fn parse_order_by<R, M>(
    order_by: &Option<SqlOrderBy>,
    proj_alias_map: &NameMap<QualifiedColumn>,
    context: &TranslationContext<'_, R, M>,
) -> (r: Result<Vec<OrderBy>, TranslateError>)
    ensures
        plain::outcome(r) == order_of(*order_by, proj_alias_map.deep_view(), context.scope()),
{
    match order_by {
        None => Ok(no_items()),
        Some(SqlOrderBy::All) => Err(unsupported("ORDER BY ALL not supported")),
        Some(SqlOrderBy::Expressions(list)) => {
            let ghost scope = context.scope();
            let ghost names = proj_alias_map.deep_view();
            let mut out: Vec<OrderBy> = no_items();
            let mut i: usize = 0;
            while i < list.len()
                invariant
                    i <= list.len(),
                    scope == context.scope(),
                    names == proj_alias_map.deep_view(),
                    order_of(*order_by, names, scope) == sortings_of(list@, names, scope),
                    sortings_of(list@.take(i as int), names, scope) == Ok::<
                        Seq<OrderModel>,
                        Refusal,
                    >(out.deep_view()),
                decreases list.len() - i,
            {
                proof {
                    assert(list@.take(i + 1).drop_last() =~= list@.take(i as int));
                    assert(list@.take(i + 1).last() == list@[i as int]);
                }
                match parse_sorting(&list[i], proj_alias_map, context) {
                    Ok(order) => {
                        push_back(&mut out, order);
                    },
                    Err(e) => {
                        proof {
                            lemma_sortings_prefix(list@, names, scope, i + 1);
                        }
                        return Err(e);
                    },
                }
                i += 1;
            }
            proof {
                assert(list@.take(i as int) =~= list@);
            }
            Ok(out)
        },
    }
}

/// The number of rows that a literal gives, `what` being what it is for.
pub open spec fn row_count(e: SqlExpr, what: Seq<char>) -> Translated<usize> {
    match e {
        SqlExpr::Value(SqlLiteral::Number(s)) => match text::unsigned_of(
            s@,
            usize::MAX as int,
        ) {
            Ok(n) => Ok(n as usize),
            Err(_) => Err(
                Refusal::UnsupportedFeature("invalid "@ + what + " value"@),
            ),
        },
        _ => Err(
            Refusal::UnsupportedFeature("unsupported "@ + what + " expression"@),
        ),
    }
}

/// The limit and the offset of a LIMIT clause.
pub open spec fn limits_of(l: Option<SqlLimit>) -> Translated<(Option<usize>, Option<usize>)> {
    match l {
        None => Ok((None, None)),
        Some(SqlLimit::LimitOffset { limit, offset }) => {
            let n = match limit {
                Some(e) => match row_count(e, "LIMIT"@) {
                    Ok(n) => Ok(Some(n)),
                    Err(r) => Err(r),
                },
                None => Ok(None),
            };
            match n {
                Err(r) => Err(r),
                Ok(n) => match offset {
                    Some(e) => match row_count(e, "OFFSET"@) {
                        Ok(m) => Ok((n, Some(m))),
                        Err(r) => Err(r),
                    },
                    None => Ok((n, None)),
                },
            }
        },
        Some(SqlLimit::OffsetCommaLimit { offset, limit }) => match row_count(offset, "OFFSET"@) {
            Err(r) => Err(r),
            Ok(m) => match row_count(limit, "LIMIT"@) {
                Err(r) => Err(r),
                Ok(n) => Ok((Some(n), Some(m))),
            },
        },
    }
}

fn read_row_count(e: &SqlExpr, what: &str) -> (r: Result<usize, TranslateError>)
    ensures
        plain::outcome(r) == row_count(*e, what@),
{
    match e {
        SqlExpr::Value(SqlLiteral::Number(s)) => match parse_unsigned(
            s.as_str(),
            usize::MAX as u64,
        ) {
            Ok(n) => Ok(n as usize),
            Err(_) => Err(
                TranslateError::UnsupportedFeature(text::joined3("invalid ", what, " value")),
            ),
        },
        _ => Err(
            TranslateError::UnsupportedFeature(text::joined3("unsupported ", what, " expression")),
        ),
    }
}

/// Reads a LIMIT clause: the limit, and the offset.
pub fn parse_limit_clause(limit_clause: &Option<SqlLimit>) -> (r: Result<
    (Option<usize>, Option<usize>),
    TranslateError,
>)
    ensures
        plain::outcome(r) == limits_of(*limit_clause),
{
    match limit_clause {
        None => Ok((None, None)),
        Some(SqlLimit::LimitOffset { limit, offset }) => {
            let n: Option<usize> = match limit {
                Some(e) => match read_row_count(e, "LIMIT") {
                    Ok(n) => Some(n),
                    Err(e) => {
                        return Err(e);
                    },
                },
                None => None,
            };
            let m: Option<usize> = match offset {
                Some(e) => match read_row_count(e, "OFFSET") {
                    Ok(m) => Some(m),
                    Err(e) => {
                        return Err(e);
                    },
                },
                None => None,
            };
            Ok((n, m))
        },
        Some(SqlLimit::OffsetCommaLimit { offset, limit }) => {
            let m: usize = match read_row_count(offset, "OFFSET") {
                Ok(m) => m,
                Err(e) => {
                    return Err(e);
                },
            };
            let n: usize = match read_row_count(limit, "LIMIT") {
                Ok(n) => n,
                Err(e) => {
                    return Err(e);
                },
            };
            Ok((Some(n), Some(m)))
        },
    }
}

} // verus!
