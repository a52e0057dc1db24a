//! The tables that a statement reads, and the joins between them.
use vstd::prelude::*;
use crate::plain::{self, no_items, push_back};
use crate::query::{JoinClause, JoinKind, JoinModel, JoinOn, JoinOnModel};
use crate::schema::TableSchema;
use crate::schema_resolver::SchemaResolver;
use crate::sql::error::{unsupported, Refusal, TranslateError};
use crate::sql::helpers::{self, resolve_qualified_column, Aliases, Tables, Translated};
use crate::sql::name_map::NameMap;
use crate::sql::syntax::{
    SqlBinaryOp, SqlExpr, SqlJoin, SqlJoinConstraint, SqlJoinOperator, SqlTableFactor,
    SqlTableWithJoins,
};

verus! {

/// What a statement is translated against: the tables read so far, where
/// schemas come from, and how literals become values.
pub struct TranslationContext<'a, R, M> {
    pub alias_map: NameMap<String>,
    pub referenced_tables: Vec<String>,
    pub table_schemas: NameMap<TableSchema>,
    pub resolver: &'a R,
    pub mapper: &'a M,
}

/// The tables that a statement has read so far: by alias, in order, and their
/// schemas.
#[verifier::ext_equal]
pub struct Scope {
    pub aliases: Aliases,
    pub called: Seq<Seq<char>>,
    pub tables: Tables,
}

/// No table has been read.
pub open spec fn empty_scope() -> Scope {
    Scope { aliases: Map::empty(), called: Seq::empty(), tables: Map::empty() }
}

impl<'a, R, M> TranslationContext<'a, R, M> {
    pub open spec fn scope(&self) -> Scope {
        Scope {
            aliases: self.alias_map.deep_view(),
            called: self.referenced_tables.deep_view(),
            tables: self.table_schemas.deep_view(),
        }
    }

    pub fn new(resolver: &'a R, mapper: &'a M) -> (r: TranslationContext<'a, R, M>)
        ensures
            r.scope() == empty_scope(),
            r.resolver == resolver,
            r.mapper == mapper,
    {
        TranslationContext {
            alias_map: NameMap::new(),
            referenced_tables: no_items(),
            table_schemas: NameMap::new(),
            resolver,
            mapper,
        }
    }
}

/// The scope with one more table. What is no table is refused with `refusal`.
pub open spec fn with_factor<R: SchemaResolver>(
    factor: SqlTableFactor,
    scope: Scope,
    resolver: R,
    refusal: Seq<char>,
) -> Translated<(Seq<char>, Scope)> {
    match factor {
        SqlTableFactor::Table { name, alias } => match resolver.described(name@) {
            Some(schema) => Ok(
                (
                    name@,
                    Scope {
                        aliases: scope.aliases.insert(
                            match alias {
                                Some(a) => a@,
                                None => name@,
                            },
                            name@,
                        ),
                        called: scope.called.push(name@),
                        tables: scope.tables.insert(name@, schema),
                    },
                ),
            ),
            None => Err(Refusal::UnknownTable(name@)),
        },
        SqlTableFactor::Other => Err(Refusal::UnsupportedFeature(refusal)),
    }
}

/// Reads one more table into the scope, and gives its name.
fn read_factor<R: SchemaResolver, M>(
    factor: &SqlTableFactor,
    context: &mut TranslationContext<'_, R, M>,
    refusal: &str,
) -> (r: Result<String, TranslateError>)
    ensures
        final(context).resolver == old(context).resolver,
        final(context).mapper == old(context).mapper,
        match with_factor(*factor, old(context).scope(), *old(context).resolver, refusal@) {
            Ok((name, scope)) => r is Ok && r->Ok_0@ == name && final(context).scope() == scope,
            Err(e) => r is Err && r->Err_0.deep_view() == e,
        },
{
    match factor {
        SqlTableFactor::Table { name, alias } => {
            let called = match alias {
                Some(a) => a.clone(),
                None => name.clone(),
            };
            context.alias_map.insert(called, name.clone());
            push_back(&mut context.referenced_tables, name.clone());
            match context.resolver.describe_table(name.as_str()) {
                Some(schema) => {
                    context.table_schemas.insert(name.clone(), schema);
                    Ok(name.clone())
                },
                None => Err(TranslateError::UnknownTable(name.clone())),
            }
        },
        SqlTableFactor::Other => Err(unsupported(refusal)),
    }
}

/// The scope with the table of a FROM clause.
pub open spec fn from_clause<R: SchemaResolver>(
    from: SqlTableWithJoins,
    scope: Scope,
    resolver: R,
) -> Translated<(Seq<char>, Scope)> {
    with_factor(from.relation, scope, resolver, "unsupported table factor"@)
}

/// Reads the table of a FROM clause into the scope, and gives its name.
pub fn parse_from_clause<R: SchemaResolver, M>(
    from: &SqlTableWithJoins,
    context: &mut TranslationContext<'_, R, M>,
) -> (r: Result<String, TranslateError>)
    ensures
        final(context).resolver == old(context).resolver,
        final(context).mapper == old(context).mapper,
        match from_clause(*from, old(context).scope(), *old(context).resolver) {
            Ok((name, scope)) => r is Ok && r->Ok_0@ == name && final(context).scope() == scope,
            Err(e) => r is Err && r->Err_0.deep_view() == e,
        },
{
    read_factor(&from.relation, context, "unsupported table factor")
}

/// The condition of a join: that two columns, each named with its table, are equal.
pub open spec fn join_on(c: SqlJoinConstraint, aliases: Aliases, tables: Tables) -> Translated<
    JoinOnModel,
> {
    match c {
        SqlJoinConstraint::On(SqlExpr::BinaryOp { left, op, right }) => if op == SqlBinaryOp::Eq {
            match helpers::qualified_column(*left, aliases, tables) {
                Err(r) => Err(r),
                Ok(a) => match helpers::qualified_column(*right, aliases, tables) {
                    Err(r) => Err(r),
                    Ok(b) => Ok(JoinOnModel::ColumnEq { left: a, right: b }),
                },
            }
        } else {
            Err(Refusal::UnsupportedFeature("only equality ON joins supported"@))
        },
        SqlJoinConstraint::On(_) => Err(
            Refusal::UnsupportedFeature("unsupported join ON expression"@),
        ),
        SqlJoinConstraint::Other => Err(
            Refusal::UnsupportedFeature("only ON join constraints supported"@),
        ),
    }
}

/// The condition of a join.
pub fn parse_join_on(
    constraint: &SqlJoinConstraint,
    alias_map: &NameMap<String>,
    table_schemas: &NameMap<TableSchema>,
) -> (r: Result<JoinOn, TranslateError>)
    ensures
        plain::outcome(r) == join_on(
            *constraint,
            alias_map.deep_view(),
            table_schemas.deep_view(),
        ),
{
    match constraint {
        SqlJoinConstraint::On(expr) => match expr {
            SqlExpr::BinaryOp { left, op, right } => match op {
                SqlBinaryOp::Eq => {
                    let a = match resolve_qualified_column(left, alias_map, table_schemas) {
                        Ok(a) => a,
                        Err(e) => {
                            return Err(e);
                        },
                    };
                    let b = match resolve_qualified_column(right, alias_map, table_schemas) {
                        Ok(b) => b,
                        Err(e) => {
                            return Err(e);
                        },
                    };
                    Ok(JoinOn::ColumnEq { left: a, right: b })
                },
                _ => Err(unsupported("only equality ON joins supported")),
            },
            _ => Err(unsupported("unsupported join ON expression")),
        },
        SqlJoinConstraint::Other => Err(unsupported("only ON join constraints supported")),
    }
}

/// The kind of a join, and its condition.
pub open spec fn join_kind(o: SqlJoinOperator) -> Translated<(JoinKind, SqlJoinConstraint)> {
    match o {
        SqlJoinOperator::Join(c) => Ok((JoinKind::Inner, c)),
        SqlJoinOperator::Inner(c) => Ok((JoinKind::Inner, c)),
        SqlJoinOperator::Left(c) => Ok((JoinKind::Left, c)),
        SqlJoinOperator::LeftOuter(c) => Ok((JoinKind::Left, c)),
        SqlJoinOperator::Right(c) => Ok((JoinKind::Right, c)),
        SqlJoinOperator::RightOuter(c) => Ok((JoinKind::Right, c)),
        SqlJoinOperator::FullOuter(c) => Ok((JoinKind::Full, c)),
        SqlJoinOperator::Other => Err(Refusal::UnsupportedFeature("unsupported join operator"@)),
    }
}

/// Joins that have been read: the joins, the scope with their tables, and the
/// table that the next join starts from.
#[verifier::ext_equal]
pub struct Joined {
    pub joins: Seq<JoinModel>,
    pub scope: Scope,
    pub left: Seq<char>,
}

/// One more join.
pub open spec fn join_step<R: SchemaResolver>(join: SqlJoin, before: Joined, resolver: R) -> Translated<
    Joined,
> {
    match with_factor(join.relation, before.scope, resolver, "unsupported join relation"@) {
        Err(r) => Err(r),
        Ok((table, scope)) => match join_kind(join.operator) {
            Err(r) => Err(r),
            Ok((kind, constraint)) => match join_on(constraint, scope.aliases, scope.tables) {
                Err(r) => Err(r),
                Ok(on) => Ok(
                    Joined {
                        joins: before.joins.push(
                            JoinModel {
                                kind,
                                left_table: before.left,
                                right_table: table,
                                on,
                            },
                        ),
                        scope,
                        left: table,
                    },
                ),
            },
        },
    }
}

/// The joins of a FROM clause. Each joins the table before it.
pub open spec fn joins_of<R: SchemaResolver>(
    joins: Seq<SqlJoin>,
    scope: Scope,
    base: Seq<char>,
    resolver: R,
) -> Translated<Joined>
    decreases joins.len(),
{
    if joins.len() == 0 {
        Ok(Joined { joins: Seq::empty(), scope, left: base })
    } else {
        match joins_of(joins.drop_last(), scope, base, resolver) {
            Err(r) => Err(r),
            Ok(before) => join_step(joins.last(), before, resolver),
        }
    }
}

proof fn lemma_joins_prefix<R: SchemaResolver>(
    joins: Seq<SqlJoin>,
    scope: Scope,
    base: Seq<char>,
    resolver: R,
    n: int,
)
    requires
        0 <= n <= joins.len(),
        joins_of(joins.take(n), scope, base, resolver) is Err,
    ensures
        joins_of(joins, scope, base, resolver) == joins_of(joins.take(n), scope, base, resolver),
    decreases joins.len() - n,
{
    if n < joins.len() {
        assert(joins.take(n + 1).drop_last() =~= joins.take(n));
        lemma_joins_prefix(joins, scope, base, resolver, n + 1);
    } else {
        assert(joins.take(n) =~= joins);
    }
}

/// Reads the joins of a FROM clause.
pub fn parse_joins<R: SchemaResolver, M>(
    joins: &Vec<SqlJoin>,
    context: &mut TranslationContext<'_, R, M>,
    base_table: &str,
) -> (r: Result<Vec<JoinClause>, TranslateError>)
    ensures
        final(context).resolver == old(context).resolver,
        final(context).mapper == old(context).mapper,
        match joins_of(joins@, old(context).scope(), base_table@, *old(context).resolver) {
            Ok(joined) => r is Ok && r->Ok_0.deep_view() == joined.joins && final(context).scope()
                == joined.scope,
            Err(e) => r is Err && r->Err_0.deep_view() == e,
        },
{
    let ghost start = context.scope();
    let ghost resolver = *context.resolver;
    let ghost first = *context;
    let mut out: Vec<JoinClause> = no_items();
    let mut left: String = base_table.to_string();
    let mut i: usize = 0;
    while i < joins.len()
        invariant
            i <= joins.len(),
            start == old(context).scope(),
            resolver == *old(context).resolver,
            context.resolver == old(context).resolver,
            context.mapper == old(context).mapper,
            joins_of(joins@.take(i as int), start, base_table@, resolver) == Ok::<Joined, Refusal>(
                Joined { joins: out.deep_view(), scope: context.scope(), left: left@ },
            ),
        decreases joins.len() - i,
    {
        let join = &joins[i];
        let ghost before = Joined {
            joins: out.deep_view(),
            scope: context.scope(),
            left: left@,
        };
        proof {
            assert(joins@.take(i + 1).drop_last() =~= joins@.take(i as int));
            assert(joins@.take(i + 1).last() == *join);
            assert(joins_of(joins@.take(i + 1), start, base_table@, resolver) == join_step(
                *join,
                before,
                resolver,
            ));
            if join_step(*join, before, resolver) is Err {
                lemma_joins_prefix(joins@, start, base_table@, resolver, i + 1);
            }
        }
        let right_table = match read_factor(&join.relation, context, "unsupported join relation") {
            Ok(name) => name,
            Err(e) => {
                return Err(e);
            },
        };
        let (kind, constraint) = match &join.operator {
            SqlJoinOperator::Join(c) => (JoinKind::Inner, c),
            SqlJoinOperator::Inner(c) => (JoinKind::Inner, c),
            SqlJoinOperator::Left(c) => (JoinKind::Left, c),
            SqlJoinOperator::LeftOuter(c) => (JoinKind::Left, c),
            SqlJoinOperator::Right(c) => (JoinKind::Right, c),
            SqlJoinOperator::RightOuter(c) => (JoinKind::Right, c),
            SqlJoinOperator::FullOuter(c) => (JoinKind::Full, c),
            SqlJoinOperator::Other => {
                return Err(unsupported("unsupported join operator"));
            },
        };
        let on = match parse_join_on(constraint, &context.alias_map, &context.table_schemas) {
            Ok(on) => on,
            Err(e) => {
                return Err(e);
            },
        };
        push_back(
            &mut out,
            JoinClause { kind, left_table: left.clone(), right_table: right_table.clone(), on },
        );
        left = right_table;
        i += 1;
    }
    proof {
        assert(joins@.take(i as int) =~= joins@);
    }
    Ok(out)
}

} // verus!
