//! What statements may not ask for.
use vstd::prelude::*;
use crate::query::ColumnRef;
use crate::schema_resolver::SchemaResolver;
use crate::sql::condition_laws::{binary, is_comparison};
use crate::sql::dml;
use crate::sql::error::Refusal;
use crate::sql::having::{self, HavingScope};
use crate::sql::helpers::{Aliases, Tables};
use crate::sql::mapper::ValueMapper;
use crate::sql::scope::{self, Joined, Scope};
use crate::sql::select;
use crate::sql::select_list::{self, Projected};
use crate::sql::syntax::{
    SqlBinaryOp, SqlDelete, SqlExpr, SqlFunction, SqlFunctionArg, SqlFunctionArgs, SqlGroupBy,
    SqlInsert, SqlJoin, SqlJoinConstraint, SqlOrderBy, SqlQuery, SqlSelectItem,
    SqlSetExpr, SqlUnaryOp, SqlUpdate,
};

verus! {

/// A refusal of something that is not supported.
pub open spec fn is_unsupported<T>(r: Result<T, Refusal>) -> bool {
    r matches Err(Refusal::UnsupportedFeature(_))
}

/// Law: a condition is made of comparisons, AND, OR, NOT, IN and the NULL tests.
/// Arithmetic, another operator, a call, and a bare name or literal are no
/// conditions.
pub proof fn law_unsupported_conditions<R: SchemaResolver, M: ValueMapper>(
    e: SqlExpr,
    left: SqlExpr,
    op: SqlBinaryOp,
    right: SqlExpr,
    aliases: Aliases,
    tables: Tables,
    having_scope: HavingScope,
    resolver: R,
    mapper: M,
)
    ensures
        e is Identifier || e is CompoundIdentifier || e is Value || e is Function || e is Other
            ==> is_unsupported(select::predicate_of(e, aliases, tables, resolver, mapper))
            && is_unsupported(having::having_of(e, having_scope, mapper)),
        !is_comparison(op) && op != SqlBinaryOp::And && op != SqlBinaryOp::Or ==> is_unsupported(
            select::predicate_of(binary(left, op, right), aliases, tables, resolver, mapper),
        ) && is_unsupported(having::having_of(binary(left, op, right), having_scope, mapper)),
        is_unsupported(
            select::predicate_of(
                SqlExpr::UnaryOp { op: SqlUnaryOp::Other, expr: Box::new(left) },
                aliases,
                tables,
                resolver,
                mapper,
            ),
        ),
        is_unsupported(
            having::having_of(
                SqlExpr::UnaryOp { op: SqlUnaryOp::Other, expr: Box::new(left) },
                having_scope,
                mapper,
            ),
        ),
        e is InList || e is InSubquery ==> is_unsupported(
            having::having_of(e, having_scope, mapper),
        ),
        is_comparison(op) && !(right is Value) ==> having::having_of(
            binary(left, op, right),
            having_scope,
            mapper,
        ) is Err,
{
}

/// Law: an assignment takes literals, names and the four operations of arithmetic
/// on these, and nothing else.
pub proof fn law_unsupported_assignments<M: ValueMapper>(
    e: SqlExpr,
    left: SqlExpr,
    op: SqlBinaryOp,
    right: SqlExpr,
    aliases: Aliases,
    tables: Tables,
    mapper: M,
)
    ensures
        e is UnaryOp || e is InList || e is InSubquery || e is IsNull || e is IsNotNull
            || e is Function || e is Other ==> is_unsupported(
            dml::assigned_value(e, aliases, tables, mapper),
        ),
        op != SqlBinaryOp::Plus && op != SqlBinaryOp::Minus && op != SqlBinaryOp::Multiply && op
            != SqlBinaryOp::Divide ==> dml::assigned_value(
            binary(left, op, right),
            aliases,
            tables,
            mapper,
        ) is Err,
{
}

/// Law: an UPDATE with LIMIT is not supported, and neither is a DELETE from
/// several tables, with joins, USING, ORDER BY or LIMIT.
pub proof fn law_unsupported_changes<R: SchemaResolver, M: ValueMapper>(
    u: SqlUpdate,
    d: SqlDelete,
    resolver: R,
    mapper: M,
)
    ensures
        u.limit is Some ==> is_unsupported(dml::update_of(u, resolver, mapper)),
        d.tables@.len() > 0 || d.using is Some || d.order_by@.len() > 0 || d.limit is Some
            || d.from@.len() != 1 || d.from@[0].joins@.len() > 0 ==> is_unsupported(
            dml::delete_of(d, resolver, mapper),
        ),
{
}

/// Law: an INSERT of anything but the literals of one row is not supported, nor
/// one with SET, ON or RETURNING.
pub proof fn law_unsupported_inserts<R: SchemaResolver, M: ValueMapper>(
    i: SqlInsert,
    resolver: R,
    mapper: M,
)
    ensures
        i.assignments@.len() > 0 || i.on is Some || i.returning is Some ==> is_unsupported(
            dml::insert_of(i, resolver, mapper),
        ),
        !(i.source matches Some(source) && (source.body matches SqlSetExpr::Values(rows)
            && rows@.len() == 1)) ==> dml::insert_of(i, resolver, mapper) is Err,
{
}

/// Law: a query is a SELECT of one FROM item, with GROUP BY and ORDER BY of
/// expressions.
pub proof fn law_unsupported_selects<R: SchemaResolver, M: ValueMapper>(
    q: SqlQuery,
    names: Map<Seq<char>, ColumnRef>,
    at: Scope,
    resolver: R,
    mapper: M,
)
    ensures
        !(q.body is Select) ==> select::query_of(q, resolver, mapper) is Err,
        (q.body matches SqlSetExpr::Select(s) && s.from@.len() != 1) ==> is_unsupported(
            select::query_of(q, resolver, mapper),
        ),
        is_unsupported(select_list::grouping_of(SqlGroupBy::All, at)),
        is_unsupported(select_list::order_of(Some(SqlOrderBy::All), names, at)),
{
}

/// Law: a join is on the equality of two columns; another operator, another
/// expression, another constraint and another kind of join are not supported.
pub proof fn law_unsupported_joins<R: SchemaResolver>(
    join: SqlJoin,
    on: SqlExpr,
    before: Joined,
    resolver: R,
    aliases: Aliases,
    tables: Tables,
)
    ensures
        join.operator is Other ==> scope::join_step(join, before, resolver) is Err,
        is_unsupported(scope::join_on(SqlJoinConstraint::Other, aliases, tables)),
        !(on matches SqlExpr::BinaryOp { left, op, right } && op == SqlBinaryOp::Eq)
            ==> is_unsupported(scope::join_on(SqlJoinConstraint::On(on), aliases, tables)),
{
}

/// Law: a call in a projection takes one argument, and `*` only in COUNT; other
/// functions than the five aggregates are not supported, nor are other items than
/// names, calls and `*`.
pub proof fn law_unsupported_items(
    f: SqlFunction,
    args: Vec<SqlFunctionArg>,
    alias: Option<Seq<char>>,
    before: Projected,
    at: Scope,
)
    requires
        f.args == SqlFunctionArgs::List(args),
    ensures
        ({
            let name = having::function_name(f);
            let called = select_list::with_call(before, f, alias, at);
            &&& args@.len() != 1 ==> is_unsupported(called)
            &&& args@.len() == 1 && args@[0] is Wildcard && name != "count"@ ==> is_unsupported(
                called,
            )
            &&& args@.len() == 1 && (args@[0] is QualifiedWildcard || args@[0] is Other)
                ==> is_unsupported(called)
            &&& name != "count"@ && name != "sum"@ && name != "min"@ && name != "max"@ && name
                != "avg"@ ==> is_unsupported(called)
            &&& is_unsupported(
                select_list::with_item(before, SqlSelectItem::QualifiedWildcardExpr, at),
            )
        }),
{
}

} // verus!
