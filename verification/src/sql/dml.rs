//! UPDATE, DELETE and INSERT statements.
use vstd::prelude::*;
use crate::plain::{self, no_items, push_back, same_text, Plain};
use crate::query::{
    AssignmentModel, ColumnRef, EngineQuery, JoinClause, JoinModel, PredicateModel,
    QualifiedColumn, QualifiedPredicate, QueryModel, UpdateAssignment, UpdateExprModel,
    UpdateValueExpr,
};
use crate::schema::{self, find_column, ColumnModel, ColumnSchema, TableModel, TableSchema};
use crate::schema_resolver::SchemaResolver;
use crate::sql::error::{unsupported, Refusal, TranslateError};
use crate::sql::helpers::{self, resolve_column_local, table_name, Aliases, Tables, Translated};
use crate::sql::mapper::ValueMapper;
use crate::sql::name_map::NameMap;
use crate::sql::scope::{self, parse_from_clause, parse_joins, Scope, TranslationContext};
use crate::sql::select::{self, expr_to_qualified_predicate};
use crate::sql::select_list::{self, push_columns};
use crate::sql::syntax::{
    SqlAssignment, SqlAssignmentTarget, SqlBinaryOp, SqlDelete, SqlExpr, SqlInsert, SqlObjectName,
    SqlSelectItem, SqlSetExpr, SqlTableObject, SqlTableWithJoins, SqlUpdate,
};
use crate::text::joined;
use crate::value::{EngineValue, ValueModel};

verus! {

/// The condition of a statement, if it has one.
pub open spec fn optional_predicate<R: SchemaResolver, M: ValueMapper>(
    e: Option<SqlExpr>,
    scope: Scope,
    resolver: R,
    mapper: M,
) -> Translated<Option<PredicateModel>>
    decreases e,
{
    match e {
        None => Ok(None),
        Some(e) => match select::predicate_of(e, scope.aliases, scope.tables, resolver, mapper) {
            Err(r) => Err(r),
            Ok(p) => Ok(Some(p)),
        },
    }
}

fn read_predicate<R: SchemaResolver, M: ValueMapper>(
    selection: &Option<SqlExpr>,
    context: &TranslationContext<'_, R, M>,
) -> (r: Result<Option<QualifiedPredicate>, TranslateError>)
    requires
        context.mapper.ready(),
    ensures
        plain::outcome(r) == optional_predicate(
            *selection,
            context.scope(),
            *context.resolver,
            *context.mapper,
        ),
    decreases selection,
{
    match selection {
        None => Ok(None),
        Some(e) => match expr_to_qualified_predicate(
            e,
            &context.alias_map,
            &context.table_schemas,
            context.resolver,
            context.mapper,
        ) {
            Ok(p) => Ok(Some(p)),
            Err(e) => Err(e),
        },
    }
}

/// The refusal of a RETURNING clause that reads another table.
pub open spec fn foreign_returning() -> Refusal {
    Refusal::UnsupportedFeature("RETURNING can reference only target table columns"@)
}

/// The columns that an item of a RETURNING clause gives back.
pub open spec fn returned_item(
    item: SqlSelectItem,
    target: Seq<char>,
    n: nat,
    aliases: Aliases,
    tables: Tables,
) -> Translated<Seq<ColumnRef>> {
    match item {
        SqlSelectItem::Wildcard => Ok(select_list::columns_of(target, n)),
        SqlSelectItem::QualifiedWildcard(name) => if helpers::unaliased(aliases, name@) == target {
            Ok(select_list::columns_of(target, n))
        } else {
            Err(foreign_returning())
        },
        SqlSelectItem::QualifiedWildcardExpr => Err(
            Refusal::UnsupportedFeature(
                "RETURNING qualified wildcard expression is not supported"@,
            ),
        ),
        SqlSelectItem::UnnamedExpr(e) => returned_column(e, target, aliases, tables),
        SqlSelectItem::ExprWithAlias { expr, alias } => returned_column(
            expr,
            target,
            aliases,
            tables,
        ),
    }
}

/// A column that a RETURNING clause names.
pub open spec fn returned_column(
    e: SqlExpr,
    target: Seq<char>,
    aliases: Aliases,
    tables: Tables,
) -> Translated<Seq<ColumnRef>> {
    match helpers::local_column(e, aliases, tables) {
        Err(r) => Err(r),
        Ok(column) => if column.table == target {
            Ok(seq![column])
        } else {
            Err(foreign_returning())
        },
    }
}

/// The columns that a RETURNING clause gives back.
pub open spec fn returned(
    items: Seq<SqlSelectItem>,
    target: Seq<char>,
    aliases: Aliases,
    tables: Tables,
) -> Translated<Seq<ColumnRef>> {
    if tables.contains_key(target) {
        match plain::collected(
            items,
            |item: SqlSelectItem|
                returned_item(item, target, tables[target].columns.len(), aliases, tables),
        ) {
            Err(r) => Err(r),
            Ok(lists) => Ok(lists.flatten()),
        }
    } else {
        Err(Refusal::UnknownTable(target))
    }
}

/// The column that an expression of a RETURNING clause names.
fn read_returned_column(
    expr: &SqlExpr,
    target_table: &str,
    alias_map: &NameMap<String>,
    table_schemas: &NameMap<TableSchema>,
) -> (r: Result<QualifiedColumn, TranslateError>)
    ensures
        match r {
            Ok(column) => returned_column(
                *expr,
                target_table@,
                alias_map.deep_view(),
                table_schemas.deep_view(),
            ) == Ok::<Seq<ColumnRef>, Refusal>(seq![column.deep_view()]),
            Err(e) => returned_column(
                *expr,
                target_table@,
                alias_map.deep_view(),
                table_schemas.deep_view(),
            ) == Err::<Seq<ColumnRef>, Refusal>(e.deep_view()),
        },
{
    match resolve_column_local(expr, alias_map, table_schemas) {
        Ok(column) => if same_text(column.table.as_str(), target_table) {
            Ok(column)
        } else {
            Err(unsupported("RETURNING can reference only target table columns"))
        },
        Err(e) => Err(e),
    }
}

/// The columns that a RETURNING clause gives back.
fn translate_returning_projection(
    returning: &Vec<SqlSelectItem>,
    target_table: &str,
    alias_map: &NameMap<String>,
    table_schemas: &NameMap<TableSchema>,
) -> (r: Result<Vec<QualifiedColumn>, TranslateError>)
    ensures
        plain::outcome(r) == returned(
            returning@,
            target_table@,
            alias_map.deep_view(),
            table_schemas.deep_view(),
        ),
{
    let n: usize = match table_schemas.get(target_table) {
        Some(schema) => {
            assert(schema.columns.len() == schema.columns.deep_view().len());
            schema.columns.len()
        },
        None => {
            return Err(TranslateError::UnknownTable(target_table.to_string()));
        },
    };
    let ghost aliases = alias_map.deep_view();
    let ghost tables = table_schemas.deep_view();
    let ghost f = |item: SqlSelectItem|
        returned_item(item, target_table@, tables[target_table@].columns.len(), aliases, tables);
    let mut projection: Vec<QualifiedColumn> = no_items();
    let mut i: usize = 0;
    proof {
        assert(returning@.take(0) =~= Seq::empty());
        assert(Seq::<Seq<ColumnRef>>::empty().flatten() =~= Seq::<ColumnRef>::empty());
    }
    while i < returning.len()
        invariant
            i <= returning.len(),
            aliases == alias_map.deep_view(),
            tables == table_schemas.deep_view(),
            tables.contains_key(target_table@),
            n == tables[target_table@].columns.len(),
            f == (|item: SqlSelectItem|
                returned_item(
                    item,
                    target_table@,
                    tables[target_table@].columns.len(),
                    aliases,
                    tables,
                )),
            plain::collected(returning@.take(i as int), f) matches Ok(lists)
                && projection.deep_view() == lists.flatten(),
        decreases returning.len() - i,
    {
        let ghost lists = plain::collected(returning@.take(i as int), f)->Ok_0;
        let ghost so_far = projection.deep_view();
        let ghost item = returned_item(
            returning@[i as int],
            target_table@,
            n as nat,
            aliases,
            tables,
        );
        proof {
            assert(f(returning@[i as int]) == item);
            plain::lemma_collected_step(returning@, f, i as int);
        }
        match &returning[i] {
            SqlSelectItem::Wildcard => {
                push_columns(&mut projection, target_table, n);
            },
            SqlSelectItem::QualifiedWildcard(name) => {
                let table = table_name(alias_map, name.as_str());
                if !same_text(table.as_str(), target_table) {
                    return Err(unsupported("RETURNING can reference only target table columns"));
                }
                push_columns(&mut projection, target_table, n);
            },
            SqlSelectItem::QualifiedWildcardExpr => {
                return Err(unsupported("RETURNING qualified wildcard expression is not supported"));
            },
            SqlSelectItem::UnnamedExpr(expr) => {
                match read_returned_column(expr, target_table, alias_map, table_schemas) {
                    Ok(column) => {
                        push_back(&mut projection, column);
                        proof {
                            assert(projection.deep_view() =~= so_far + item->Ok_0);
                        }
                    },
                    Err(e) => {
                        return Err(e);
                    },
                }
            },
            SqlSelectItem::ExprWithAlias { expr, alias } => {
                match read_returned_column(expr, target_table, alias_map, table_schemas) {
                    Ok(column) => {
                        push_back(&mut projection, column);
                        proof {
                            assert(projection.deep_view() =~= so_far + item->Ok_0);
                        }
                    },
                    Err(e) => {
                        return Err(e);
                    },
                }
            },
        }
        proof {
            lists.lemma_flatten_push(item->Ok_0);
        }
        i += 1;
    }
    proof {
        assert(returning@.take(i as int) =~= returning@);
    }
    Ok(projection)
}

/// What the RETURNING clause of a statement gives back, if it has one.
pub open spec fn optional_returned(
    items: Option<Vec<SqlSelectItem>>,
    target: Seq<char>,
    scope: Scope,
) -> Translated<Option<Seq<ColumnRef>>> {
    match items {
        None => Ok(None),
        Some(items) => match returned(items@, target, scope.aliases, scope.tables) {
            Err(r) => Err(r),
            Ok(columns) => Ok(Some(columns)),
        },
    }
}

fn read_returning<R, M>(
    returning: &Option<Vec<SqlSelectItem>>,
    target_table: &str,
    context: &TranslationContext<'_, R, M>,
) -> (r: Result<Option<Vec<QualifiedColumn>>, TranslateError>)
    ensures
        plain::outcome(r) == optional_returned(*returning, target_table@, context.scope()),
{
    match returning {
        None => Ok(None),
        Some(items) => match translate_returning_projection(
            items,
            target_table,
            &context.alias_map,
            &context.table_schemas,
        ) {
            Ok(columns) => Ok(Some(columns)),
            Err(e) => Err(e),
        },
    }
}

/// The value that an assignment gives to its column.
pub open spec fn assigned_value<M: ValueMapper>(
    e: SqlExpr,
    aliases: Aliases,
    tables: Tables,
    mapper: M,
) -> Translated<UpdateExprModel>
    decreases e,
{
    match e {
        SqlExpr::Value(_) => match mapper.mapped(e) {
            Err(r) => Err(r),
            Ok(value) => Ok(UpdateExprModel::Value(value)),
        },
        SqlExpr::Identifier(_) | SqlExpr::CompoundIdentifier(_) => match helpers::local_column(
            e,
            aliases,
            tables,
        ) {
            Err(r) => Err(r),
            Ok(column) => Ok(UpdateExprModel::Column(column)),
        },
        SqlExpr::BinaryOp { left, op, right } => match assigned_value(
            *left,
            aliases,
            tables,
            mapper,
        ) {
            Err(r) => Err(r),
            Ok(a) => match assigned_value(*right, aliases, tables, mapper) {
                Err(r) => Err(r),
                Ok(b) => match op {
                    SqlBinaryOp::Plus => Ok(UpdateExprModel::Add(Box::new(a), Box::new(b))),
                    SqlBinaryOp::Minus => Ok(UpdateExprModel::Subtract(Box::new(a), Box::new(b))),
                    SqlBinaryOp::Multiply => Ok(
                        UpdateExprModel::Multiply(Box::new(a), Box::new(b)),
                    ),
                    SqlBinaryOp::Divide => Ok(UpdateExprModel::Divide(Box::new(a), Box::new(b))),
                    _ => Err(
                        Refusal::UnsupportedFeature(
                            "unsupported operator in UPDATE assignment expression"@,
                        ),
                    ),
                },
            },
        },
        _ => Err(Refusal::UnsupportedFeature("unsupported UPDATE assignment expression"@)),
    }
}

/// The value that an assignment gives to its column.
fn sql_expr_to_update_value_expr<M: ValueMapper>(
    expr: &SqlExpr,
    alias_map: &NameMap<String>,
    table_schemas: &NameMap<TableSchema>,
    mapper: &M,
) -> (r: Result<UpdateValueExpr, TranslateError>)
    requires
        mapper.ready(),
    ensures
        plain::outcome(r) == assigned_value(
            *expr,
            alias_map.deep_view(),
            table_schemas.deep_view(),
            *mapper,
        ),
    decreases expr,
{
    match expr {
        SqlExpr::Value(_) => match mapper.map_sql_value(expr) {
            Ok(value) => Ok(UpdateValueExpr::Value(value)),
            Err(e) => Err(e),
        },
        SqlExpr::Identifier(_) | SqlExpr::CompoundIdentifier(_) => match resolve_column_local(
            expr,
            alias_map,
            table_schemas,
        ) {
            Ok(column) => Ok(UpdateValueExpr::Column(column)),
            Err(e) => Err(e),
        },
        SqlExpr::BinaryOp { left, op, right } => {
            let a = match sql_expr_to_update_value_expr(left, alias_map, table_schemas, mapper) {
                Ok(a) => a,
                Err(e) => {
                    return Err(e);
                },
            };
            let b = match sql_expr_to_update_value_expr(right, alias_map, table_schemas, mapper) {
                Ok(b) => b,
                Err(e) => {
                    return Err(e);
                },
            };
            match op {
                SqlBinaryOp::Plus => Ok(UpdateValueExpr::Add(Box::new(a), Box::new(b))),
                SqlBinaryOp::Minus => Ok(UpdateValueExpr::Subtract(Box::new(a), Box::new(b))),
                SqlBinaryOp::Multiply => Ok(UpdateValueExpr::Multiply(Box::new(a), Box::new(b))),
                SqlBinaryOp::Divide => Ok(UpdateValueExpr::Divide(Box::new(a), Box::new(b))),
                _ => Err(unsupported("unsupported operator in UPDATE assignment expression")),
            }
        },
        _ => Err(unsupported("unsupported UPDATE assignment expression")),
    }
}

/// The column that a name stands for as the target of an assignment.
pub open spec fn target_column(name: SqlObjectName, aliases: Aliases, target: Seq<char>) -> Translated<
    Seq<char>,
> {
    let parts = name.parts@;
    if exists|i: int| 0 <= i < parts.len() && #[trigger] parts[i] is None {
        Err(Refusal::UnsupportedFeature("unsupported object name part"@))
    } else if parts.len() == 1 {
        Ok(parts[0]->Some_0@)
    } else if parts.len() == 2 {
        if helpers::unaliased(aliases, parts[0]->Some_0@) == target {
            Ok(parts[1]->Some_0@)
        } else {
            Err(Refusal::UnsupportedFeature("assignment target must reference the update table"@))
        }
    } else {
        Err(Refusal::UnsupportedFeature("assignment target must be column or table.column"@))
    }
}

/// The column that a name stands for as the target of an assignment.
fn object_name_to_column(name: &SqlObjectName, alias_map: &NameMap<String>, target_table: &str) -> (r:
    Result<String, TranslateError>)
    ensures
        plain::outcome(r) == target_column(*name, alias_map.deep_view(), target_table@),
{
    let mut parts: Vec<String> = Vec::new();
    let mut i: usize = 0;
    while i < name.parts.len()
        invariant
            i <= name.parts.len(),
            parts.len() == i,
            forall|j: int|
                0 <= j < i ==> (#[trigger] name.parts@[j]) is Some && parts@[j]@
                    == name.parts@[j]->Some_0@,
        decreases name.parts.len() - i,
    {
        match &name.parts[i] {
            Some(part) => {
                parts.push(part.clone());
            },
            None => {
                assert(name.parts@[i as int] is None);
                return Err(unsupported("unsupported object name part"));
            },
        }
        i += 1;
    }
    if parts.len() == 1 {
        assert(name.parts@[0] is Some);
        Ok(parts[0].clone())
    } else if parts.len() == 2 {
        assert(name.parts@[0] is Some && name.parts@[1] is Some);
        let table = table_name(alias_map, parts[0].as_str());
        if same_text(table.as_str(), target_table) {
            Ok(parts[1].clone())
        } else {
            Err(unsupported("assignment target must reference the update table"))
        }
    } else {
        Err(unsupported("assignment target must be column or table.column"))
    }
}

/// The column that an assignment assigns to.
pub open spec fn assignment_target(t: SqlAssignmentTarget, aliases: Aliases, target: Seq<char>) -> Translated<
    Seq<char>,
> {
    match t {
        SqlAssignmentTarget::ColumnName(name) => target_column(name, aliases, target),
        SqlAssignmentTarget::Tuple => Err(
            Refusal::UnsupportedFeature("tuple assignment in UPDATE is not supported"@),
        ),
    }
}

/// The column that an assignment assigns to.
fn assignment_target_column_name(
    target: &SqlAssignmentTarget,
    alias_map: &NameMap<String>,
    target_table: &str,
) -> (r: Result<String, TranslateError>)
    ensures
        plain::outcome(r) == assignment_target(*target, alias_map.deep_view(), target_table@),
{
    match target {
        SqlAssignmentTarget::ColumnName(name) => object_name_to_column(
            name,
            alias_map,
            target_table,
        ),
        SqlAssignmentTarget::Tuple => Err(
            unsupported("tuple assignment in UPDATE is not supported"),
        ),
    }
}

/// An assignment of an UPDATE.
pub open spec fn assignment_of<M: ValueMapper>(
    a: SqlAssignment,
    schema: TableModel,
    target: Seq<char>,
    aliases: Aliases,
    tables: Tables,
    mapper: M,
) -> Translated<AssignmentModel> {
    match assignment_target(a.target, aliases, target) {
        Err(r) => Err(r),
        Ok(column) => match schema::column_position(schema.columns, column) {
            None => Err(Refusal::UnknownColumn(column)),
            Some(i) => match assigned_value(a.value, aliases, tables, mapper) {
                Err(r) => Err(r),
                Ok(value) => Ok(AssignmentModel { column_index: i as usize, value }),
            },
        },
    }
}

fn read_assignment<M: ValueMapper>(
    assignment: &SqlAssignment,
    schema: &TableSchema,
    target_table: &str,
    alias_map: &NameMap<String>,
    table_schemas: &NameMap<TableSchema>,
    mapper: &M,
) -> (r: Result<UpdateAssignment, TranslateError>)
    requires
        mapper.ready(),
    ensures
        plain::outcome(r) == assignment_of(
            *assignment,
            schema.deep_view(),
            target_table@,
            alias_map.deep_view(),
            table_schemas.deep_view(),
            *mapper,
        ),
{
    let column = match assignment_target_column_name(&assignment.target, alias_map, target_table) {
        Ok(column) => column,
        Err(e) => {
            return Err(e);
        },
    };
    let column_index: usize = match find_column(&schema.columns, column.as_str()) {
        Some(i) => i,
        None => {
            return Err(TranslateError::UnknownColumn(column));
        },
    };
    match sql_expr_to_update_value_expr(&assignment.value, alias_map, table_schemas, mapper) {
        Ok(value) => Ok(UpdateAssignment { column_index, value }),
        Err(e) => Err(e),
    }
}

/// The assignments of an UPDATE, or the first refusal.
pub open spec fn assignments_of<M: ValueMapper>(
    list: Seq<SqlAssignment>,
    schema: TableModel,
    target: Seq<char>,
    scope: Scope,
    mapper: M,
) -> Translated<Seq<AssignmentModel>> {
    plain::collected(
        list,
        |a: SqlAssignment|
            assignment_of(a, schema, target, scope.aliases, scope.tables, mapper),
    )
}

fn read_assignments<R, M: ValueMapper>(
    list: &Vec<SqlAssignment>,
    schema: &TableSchema,
    target_table: &str,
    context: &TranslationContext<'_, R, M>,
) -> (r: Result<Vec<UpdateAssignment>, TranslateError>)
    requires
        context.mapper.ready(),
    ensures
        plain::outcome(r) == assignments_of(
            list@,
            schema.deep_view(),
            target_table@,
            context.scope(),
            *context.mapper,
        ),
{
    let ghost at = context.scope();
    let ghost mapper = *context.mapper;
    let ghost f = |a: SqlAssignment|
        assignment_of(a, schema.deep_view(), target_table@, at.aliases, at.tables, mapper);
    let mut out: Vec<UpdateAssignment> = no_items();
    let mut i: usize = 0;
    proof {
        assert(list@.take(0) =~= Seq::empty());
    }
    while i < list.len()
        invariant
            i <= list.len(),
            at == context.scope(),
            mapper == *context.mapper,
            context.mapper.ready(),
            f == (|a: SqlAssignment|
                assignment_of(a, schema.deep_view(), target_table@, at.aliases, at.tables, mapper)),
            plain::collected(list@.take(i as int), f) == Ok::<Seq<AssignmentModel>, Refusal>(
                out.deep_view(),
            ),
        decreases list.len() - i,
    {
        proof {
            plain::lemma_collected_step(list@, f, i as int);
            assert(f(list@[i as int]) == assignment_of(
                list@[i as int],
                schema.deep_view(),
                target_table@,
                at.aliases,
                at.tables,
                mapper,
            ));
        }
        match read_assignment(
            &list[i],
            schema,
            target_table,
            &context.alias_map,
            &context.table_schemas,
            context.mapper,
        ) {
            Ok(a) => {
                push_back(&mut out, a);
            },
            Err(e) => {
                return Err(e);
            },
        }
        i += 1;
    }
    proof {
        assert(list@.take(i as int) =~= list@);
    }
    Ok(out)
}

/// The FROM items of an UPDATE that have been read: the tables, the joins, and
/// the scope with them.
#[verifier::ext_equal]
pub struct Sources {
    pub from_tables: Seq<Seq<char>>,
    pub joins: Seq<JoinModel>,
    pub scope: Scope,
}

/// One more FROM item of an UPDATE.
pub open spec fn with_source<R: SchemaResolver>(
    before: Sources,
    item: SqlTableWithJoins,
    resolver: R,
) -> Translated<Sources> {
    match scope::from_clause(item, before.scope, resolver) {
        Err(r) => Err(r),
        Ok((table, at)) => match scope::joins_of(item.joins@, at, table, resolver) {
            Err(r) => Err(r),
            Ok(joined) => Ok(
                Sources {
                    from_tables: before.from_tables.push(table),
                    joins: before.joins + joined.joins,
                    scope: joined.scope,
                },
            ),
        },
    }
}

/// The FROM items of an UPDATE, read one after the other.
pub open spec fn sources_of<R: SchemaResolver>(
    items: Seq<SqlTableWithJoins>,
    start: Sources,
    resolver: R,
) -> Translated<Sources>
    decreases items.len(),
{
    if items.len() == 0 {
        Ok(start)
    } else {
        match sources_of(items.drop_last(), start, resolver) {
            Err(r) => Err(r),
            Ok(before) => with_source(before, items.last(), resolver),
        }
    }
}

proof fn lemma_sources_prefix<R: SchemaResolver>(
    items: Seq<SqlTableWithJoins>,
    start: Sources,
    resolver: R,
    n: int,
)
    requires
        0 <= n <= items.len(),
        sources_of(items.take(n), start, resolver) is Err,
    ensures
        sources_of(items, start, resolver) == sources_of(items.take(n), start, resolver),
    decreases items.len() - n,
{
    if n < items.len() {
        assert(items.take(n + 1).drop_last() =~= items.take(n));
        lemma_sources_prefix(items, start, resolver, n + 1);
    } else {
        assert(items.take(n) =~= items);
    }
}

/// Adds the elements of `more` at the end of `list`.
fn append<T: DeepView>(list: &mut Vec<T>, more: Vec<T>)
    ensures
        final(list).deep_view() == old(list).deep_view() + more.deep_view(),
{
    let ghost before = list.deep_view();
    let ghost added = more.deep_view();
    let mut rest = more;
    list.append(&mut rest);
    proof {
        assert(list.deep_view() =~= before + added);
    }
}

/// Reads the FROM items of an UPDATE: adds their joins, and gives their tables.
fn read_sources<R: SchemaResolver, M>(
    items: &Vec<SqlTableWithJoins>,
    context: &mut TranslationContext<'_, R, M>,
    joins: &mut Vec<JoinClause>,
) -> (r: Result<Vec<String>, TranslateError>)
    ensures
        final(context).resolver == old(context).resolver,
        final(context).mapper == old(context).mapper,
        match sources_of(
            items@,
            Sources {
                from_tables: Seq::empty(),
                joins: old(joins).deep_view(),
                scope: old(context).scope(),
            },
            *old(context).resolver,
        ) {
            Ok(s) => r is Ok && (Sources {
                from_tables: r->Ok_0.deep_view(),
                joins: final(joins).deep_view(),
                scope: final(context).scope(),
            }) == s,
            Err(e) => r is Err && r->Err_0.deep_view() == e,
        },
{
    let ghost resolver = *context.resolver;
    let ghost start = Sources {
        from_tables: Seq::empty(),
        joins: joins.deep_view(),
        scope: context.scope(),
    };
    let mut from_tables: Vec<String> = no_items();
    let mut i: usize = 0;
    while i < items.len()
        invariant
            i <= items.len(),
            context.resolver == old(context).resolver,
            context.mapper == old(context).mapper,
            resolver == *context.resolver,
            start == (Sources {
                from_tables: Seq::empty(),
                joins: old(joins).deep_view(),
                scope: old(context).scope(),
            }),
            sources_of(items@.take(i as int), start, resolver) == Ok::<Sources, Refusal>(
                Sources {
                    from_tables: from_tables.deep_view(),
                    joins: joins.deep_view(),
                    scope: context.scope(),
                },
            ),
        decreases items.len() - i,
    {
        let ghost before = Sources {
            from_tables: from_tables.deep_view(),
            joins: joins.deep_view(),
            scope: context.scope(),
        };
        let item = &items[i];
        proof {
            assert(items@.take(i + 1).drop_last() =~= items@.take(i as int));
            assert(items@.take(i + 1).last() == *item);
            assert(sources_of(items@.take(i + 1), start, resolver) == with_source(
                before,
                *item,
                resolver,
            ));
            if with_source(before, *item, resolver) is Err {
                lemma_sources_prefix(items@, start, resolver, i + 1);
            }
        }
        let table = match parse_from_clause(item, context) {
            Ok(table) => table,
            Err(e) => {
                return Err(e);
            },
        };
        let more = match parse_joins(&item.joins, context, table.as_str()) {
            Ok(more) => more,
            Err(e) => {
                return Err(e);
            },
        };
        append(joins, more);
        push_back(&mut from_tables, table);
        i += 1;
    }
    proof {
        assert(items@.take(i as int) =~= items@);
    }
    Ok(from_tables)
}

/// What an UPDATE reads: its table, and its sources.
pub open spec fn update_sources<R: SchemaResolver>(u: SqlUpdate, resolver: R) -> Translated<
    (Seq<char>, Sources),
> {
    match scope::from_clause(u.table, scope::empty_scope(), resolver) {
        Err(r) => Err(r),
        Ok((table, at)) => match scope::joins_of(u.table.joins@, at, table, resolver) {
            Err(r) => Err(r),
            Ok(joined) => {
                let start = Sources {
                    from_tables: Seq::empty(),
                    joins: joined.joins,
                    scope: joined.scope,
                };
                match u.from {
                    None => Ok((table, start)),
                    Some(items) => match sources_of(items@, start, resolver) {
                        Err(r) => Err(r),
                        Ok(s) => Ok((table, s)),
                    },
                }
            },
        },
    }
}

/// The query that an UPDATE is.
pub open spec fn update_of<R: SchemaResolver, M: ValueMapper>(
    u: SqlUpdate,
    resolver: R,
    mapper: M,
) -> Translated<QueryModel>
    decreases u,
{
    if u.limit is Some {
        Err(Refusal::UnsupportedFeature("UPDATE LIMIT is not supported"@))
    } else {
        match update_sources(u, resolver) {
            Err(r) => Err(r),
            Ok((table, s)) => match resolver.described(table) {
                None => Err(Refusal::UnknownTable(table)),
                Some(schema) => match assignments_of(
                    u.assignments@,
                    schema,
                    table,
                    s.scope,
                    mapper,
                ) {
                    Err(r) => Err(r),
                    Ok(assignments) => match optional_predicate(
                        u.selection,
                        s.scope,
                        resolver,
                        mapper,
                    ) {
                        Err(r) => Err(r),
                        Ok(predicate) => match optional_returned(u.returning, table, s.scope) {
                            Err(r) => Err(r),
                            Ok(returning) => Ok(
                                QueryModel::Update {
                                    table,
                                    assignments,
                                    predicate,
                                    joins: s.joins,
                                    from_tables: s.from_tables,
                                    returning,
                                },
                            ),
                        },
                    },
                },
            },
        }
    }
}

/// The query that an UPDATE is.
pub fn translate_update<R: SchemaResolver, M: ValueMapper>(
    update: &SqlUpdate,
    resolver: &R,
    mapper: &M,
) -> (r: Result<EngineQuery, TranslateError>)
    requires
        mapper.ready(),
    ensures
        plain::outcome(r) == update_of(*update, *resolver, *mapper),
    decreases update,
{
    if update.limit.is_some() {
        return Err(unsupported("UPDATE LIMIT is not supported"));
    }
    let mut context = TranslationContext::new(resolver, mapper);
    let table = match parse_from_clause(&update.table, &mut context) {
        Ok(table) => table,
        Err(e) => {
            return Err(e);
        },
    };
    let mut joins = match parse_joins(&update.table.joins, &mut context, table.as_str()) {
        Ok(joins) => joins,
        Err(e) => {
            return Err(e);
        },
    };
    let from_tables: Vec<String> = match &update.from {
        None => no_items(),
        Some(items) => match read_sources(items, &mut context, &mut joins) {
            Ok(from_tables) => from_tables,
            Err(e) => {
                return Err(e);
            },
        },
    };
    let schema = match resolver.describe_table(table.as_str()) {
        Some(schema) => schema,
        None => {
            return Err(TranslateError::UnknownTable(table));
        },
    };
    let assignments = match read_assignments(
        &update.assignments,
        &schema,
        table.as_str(),
        &context,
    ) {
        Ok(assignments) => assignments,
        Err(e) => {
            return Err(e);
        },
    };
    let predicate = match read_predicate(&update.selection, &context) {
        Ok(predicate) => predicate,
        Err(e) => {
            return Err(e);
        },
    };
    let returning = match read_returning(&update.returning, table.as_str(), &context) {
        Ok(returning) => returning,
        Err(e) => {
            return Err(e);
        },
    };
    Ok(EngineQuery::Update { table, assignments, predicate, joins, from_tables, returning })
}

/// The query that a DELETE is.
pub open spec fn delete_of<R: SchemaResolver, M: ValueMapper>(
    d: SqlDelete,
    resolver: R,
    mapper: M,
) -> Translated<QueryModel>
    decreases d,
{
    if d.tables@.len() > 0 {
        Err(Refusal::UnsupportedFeature("multi-table DELETE is not supported"@))
    } else if d.using is Some {
        Err(Refusal::UnsupportedFeature("DELETE USING is not supported"@))
    } else if d.order_by@.len() > 0 {
        Err(Refusal::UnsupportedFeature("DELETE ORDER BY is not supported"@))
    } else if d.limit is Some {
        Err(Refusal::UnsupportedFeature("DELETE LIMIT is not supported"@))
    } else if d.from@.len() != 1 {
        Err(Refusal::UnsupportedFeature("DELETE requires exactly one target table"@))
    } else if d.from@[0].joins@.len() > 0 {
        Err(Refusal::UnsupportedFeature("DELETE with JOIN is not supported"@))
    } else {
        match scope::from_clause(d.from@[0], scope::empty_scope(), resolver) {
            Err(r) => Err(r),
            Ok((table, at)) => match optional_predicate(d.selection, at, resolver, mapper) {
                Err(r) => Err(r),
                Ok(predicate) => match optional_returned(d.returning, table, at) {
                    Err(r) => Err(r),
                    Ok(returning) => Ok(QueryModel::Delete { table, predicate, returning }),
                },
            },
        }
    }
}

/// The query that a DELETE is.
pub fn translate_delete<R: SchemaResolver, M: ValueMapper>(
    delete: &SqlDelete,
    resolver: &R,
    mapper: &M,
) -> (r: Result<EngineQuery, TranslateError>)
    requires
        mapper.ready(),
    ensures
        plain::outcome(r) == delete_of(*delete, *resolver, *mapper),
    decreases delete,
{
    if delete.tables.len() > 0 {
        return Err(unsupported("multi-table DELETE is not supported"));
    }
    if delete.using.is_some() {
        return Err(unsupported("DELETE USING is not supported"));
    }
    if delete.order_by.len() > 0 {
        return Err(unsupported("DELETE ORDER BY is not supported"));
    }
    if delete.limit.is_some() {
        return Err(unsupported("DELETE LIMIT is not supported"));
    }
    if delete.from.len() != 1 {
        return Err(unsupported("DELETE requires exactly one target table"));
    }
    let target = &delete.from[0];
    if target.joins.len() > 0 {
        return Err(unsupported("DELETE with JOIN is not supported"));
    }
    let mut context = TranslationContext::new(resolver, mapper);
    let table = match parse_from_clause(target, &mut context) {
        Ok(table) => table,
        Err(e) => {
            return Err(e);
        },
    };
    let predicate = match read_predicate(&delete.selection, &context) {
        Ok(predicate) => predicate,
        Err(e) => {
            return Err(e);
        },
    };
    let returning = match read_returning(&delete.returning, table.as_str(), &context) {
        Ok(returning) => returning,
        Err(e) => {
            return Err(e);
        },
    };
    Ok(EngineQuery::Delete { table, predicate, returning })
}

/// The names of the columns of a table.
pub open spec fn column_names(columns: Seq<ColumnModel>) -> Seq<Seq<char>> {
    columns.map_values(|c: ColumnModel| c.name)
}

fn names_of(columns: &Vec<ColumnSchema>) -> (r: Vec<String>)
    ensures
        r.deep_view() == column_names(columns.deep_view()),
{
    let mut names: Vec<String> = no_items();
    let mut i: usize = 0;
    while i < columns.len()
        invariant
            i <= columns.len(),
            names.deep_view() == column_names(columns.deep_view()).take(i as int),
        decreases columns.len() - i,
    {
        push_back(&mut names, columns[i].name.clone());
        proof {
            assert(names.deep_view() =~= column_names(columns.deep_view()).take(i + 1));
        }
        i += 1;
    }
    proof {
        assert(column_names(columns.deep_view()).take(i as int) =~= column_names(
            columns.deep_view(),
        ));
    }
    names
}

/// A row with the values of the expressions in the columns of these names, and
/// NULL elsewhere.
pub open spec fn inserted<M: ValueMapper>(
    exprs: Seq<SqlExpr>,
    names: Seq<Seq<char>>,
    columns: Seq<ColumnModel>,
    mapper: M,
) -> Translated<Seq<ValueModel>>
    decreases exprs.len(),
{
    if exprs.len() == 0 {
        Ok(Seq::new(columns.len(), |i: int| ValueModel::Null))
    } else {
        match inserted(exprs.drop_last(), names, columns, mapper) {
            Err(r) => Err(r),
            Ok(row) => {
                let name = names[exprs.len() - 1];
                match schema::column_position(columns, name) {
                    None => Err(Refusal::UnknownColumn(name)),
                    Some(i) => match mapper.mapped(exprs.last()) {
                        Err(r) => Err(r),
                        Ok(value) => Ok(row.update(i, value)),
                    },
                }
            },
        }
    }
}

proof fn lemma_inserted_prefix<M: ValueMapper>(
    exprs: Seq<SqlExpr>,
    names: Seq<Seq<char>>,
    columns: Seq<ColumnModel>,
    mapper: M,
    n: int,
)
    requires
        0 <= n <= exprs.len(),
        inserted(exprs.take(n), names, columns, mapper) is Err,
    ensures
        inserted(exprs, names, columns, mapper) == inserted(
            exprs.take(n),
            names,
            columns,
            mapper,
        ),
    decreases exprs.len() - n,
{
    if n < exprs.len() {
        assert(exprs.take(n + 1).drop_last() =~= exprs.take(n));
        lemma_inserted_prefix(exprs, names, columns, mapper, n + 1);
    } else {
        assert(exprs.take(n) =~= exprs);
    }
}

/// Puts the values of the expressions into the columns of these names.
fn build_row<M: ValueMapper>(
    exprs: &Vec<SqlExpr>,
    names: &Vec<String>,
    columns: &Vec<ColumnSchema>,
    mapper: &M,
) -> (r: Result<Vec<EngineValue>, TranslateError>)
    requires
        mapper.ready(),
        exprs.len() == names.len(),
    ensures
        plain::outcome(r) == inserted(
            exprs@,
            names.deep_view(),
            columns.deep_view(),
            *mapper,
        ),
{
    let ghost all = columns.deep_view();
    let ghost called = names.deep_view();
    let mut row: Vec<EngineValue> = no_items();
    let mut k: usize = 0;
    while k < columns.len()
        invariant
            k <= columns.len(),
            row.deep_view() == Seq::new(k as nat, |i: int| ValueModel::Null),
        decreases columns.len() - k,
    {
        push_back(&mut row, EngineValue::Null);
        proof {
            assert(row.deep_view() =~= Seq::new((k + 1) as nat, |i: int| ValueModel::Null));
        }
        k += 1;
    }
    proof {
        assert(exprs@.take(0) =~= Seq::empty());
        assert(row.len() == row.deep_view().len());
    }
    let mut i: usize = 0;
    while i < exprs.len()
        invariant
            i <= exprs.len(),
            exprs.len() == names.len(),
            mapper.ready(),
            all == columns.deep_view(),
            called == names.deep_view(),
            row.len() == columns.len(),
            inserted(exprs@.take(i as int), called, all, *mapper) == Ok::<
                Seq<ValueModel>,
                Refusal,
            >(row.deep_view()),
        decreases exprs.len() - i,
    {
        proof {
            assert(exprs@.take(i + 1).drop_last() =~= exprs@.take(i as int));
            assert(exprs@.take(i + 1).last() == exprs@[i as int]);
            assert(called[i as int] == names@[i as int]@);
            if inserted(exprs@.take(i + 1), called, all, *mapper) is Err {
                lemma_inserted_prefix(exprs@, called, all, *mapper, i + 1);
            }
        }
        let place: usize = match find_column(columns, names[i].as_str()) {
            Some(place) => place,
            None => {
                return Err(TranslateError::UnknownColumn(names[i].clone()));
            },
        };
        match mapper.map_sql_value(&exprs[i]) {
            Ok(value) => {
                let ghost before = row.deep_view();
                row.set(place, value);
                proof {
                    assert(row.deep_view() =~= before.update(place as int, value.deep_view()));
                }
            },
            Err(e) => {
                return Err(e);
            },
        }
        i += 1;
    }
    proof {
        assert(exprs@.take(i as int) =~= exprs@);
    }
    Ok(row)
}

/// The row that an INSERT into a table with these columns inserts.
pub open spec fn inserted_row<M: ValueMapper>(
    i: SqlInsert,
    columns: Seq<ColumnModel>,
    mapper: M,
) -> Translated<Seq<ValueModel>> {
    let names = if i.columns@.len() == 0 {
        column_names(columns)
    } else {
        i.columns.deep_view()
    };
    match i.source {
        None => Err(Refusal::UnsupportedFeature("INSERT without source unsupported"@)),
        Some(source) => match source.body {
            SqlSetExpr::Values(rows) => if rows@.len() != 1 {
                Err(Refusal::UnsupportedFeature("only single-row INSERT VALUES supported"@))
            } else if rows@[0]@.len() != names.len() {
                Err(
                    Refusal::UnsupportedFeature("INSERT column count does not match VALUES count"@),
                )
            } else {
                inserted(rows@[0]@, names, columns, mapper)
            },
            _ => Err(
                Refusal::UnsupportedFeature("only INSERT ... VALUES (...) is supported"@),
            ),
        },
    }
}

/// The query that an INSERT is.
pub open spec fn insert_of<R: SchemaResolver, M: ValueMapper>(
    i: SqlInsert,
    resolver: R,
    mapper: M,
) -> Translated<QueryModel> {
    if i.assignments@.len() > 0 {
        Err(Refusal::UnsupportedFeature("INSERT ... SET is not supported"@))
    } else if i.on is Some {
        Err(Refusal::UnsupportedFeature("INSERT ON is not supported: "@ + i.on->Some_0@))
    } else if i.returning is Some {
        Err(Refusal::UnsupportedFeature("INSERT RETURNING is not supported"@))
    } else {
        match i.table {
            SqlTableObject::TableName(name) => match resolver.described(name@) {
                None => Err(Refusal::UnknownTable(name@)),
                Some(schema) => match inserted_row(i, schema.columns, mapper) {
                    Err(r) => Err(r),
                    Ok(row) => Ok(QueryModel::Insert { table: name@, row }),
                },
            },
            SqlTableObject::Other => Err(
                Refusal::UnsupportedFeature("only table name inserts supported"@),
            ),
        }
    }
}

/// The query that an INSERT is.
pub fn translate_insert<R: SchemaResolver, M: ValueMapper>(
    insert: &SqlInsert,
    resolver: &R,
    mapper: &M,
) -> (r: Result<EngineQuery, TranslateError>)
    requires
        mapper.ready(),
    ensures
        plain::outcome(r) == insert_of(*insert, *resolver, *mapper),
{
    if insert.assignments.len() > 0 {
        return Err(unsupported("INSERT ... SET is not supported"));
    }
    if let Some(on) = &insert.on {
        return Err(
            TranslateError::UnsupportedFeature(joined("INSERT ON is not supported: ", on.as_str())),
        );
    }
    if insert.returning.is_some() {
        return Err(unsupported("INSERT RETURNING is not supported"));
    }
    let table: &String = match &insert.table {
        SqlTableObject::TableName(name) => name,
        SqlTableObject::Other => {
            return Err(unsupported("only table name inserts supported"));
        },
    };
    let schema = match resolver.describe_table(table.as_str()) {
        Some(schema) => schema,
        None => {
            return Err(TranslateError::UnknownTable(table.clone()));
        },
    };
    let names: Vec<String> = if insert.columns.len() == 0 {
        names_of(&schema.columns)
    } else {
        insert.columns.duplicate()
    };
    let rows: &Vec<Vec<SqlExpr>> = match &insert.source {
        None => {
            return Err(unsupported("INSERT without source unsupported"));
        },
        Some(source) => match &source.body {
            SqlSetExpr::Values(rows) => rows,
            _ => {
                return Err(unsupported("only INSERT ... VALUES (...) is supported"));
            },
        },
    };
    if rows.len() != 1 {
        return Err(unsupported("only single-row INSERT VALUES supported"));
    }
    let exprs = &rows[0];
    assert(names.len() == names.deep_view().len());
    if exprs.len() != names.len() {
        return Err(unsupported("INSERT column count does not match VALUES count"));
    }
    match build_row(exprs, &names, &schema.columns, mapper) {
        Ok(row) => Ok(EngineQuery::Insert { table: table.clone(), row }),
        Err(e) => Err(e),
    }
}

} // verus!
