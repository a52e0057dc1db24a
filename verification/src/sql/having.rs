//! HAVING clauses.
use vstd::prelude::*;
use crate::operators::aggregate::{self, find_aggregate};
use crate::plain::{self, same_text, Plain};
use crate::query::{
    Aggregate, AggregateModel, ColumnRef, GroupRef, HavingModel, HavingPredicate, QualifiedColumn,
    RefOrAgg,
};
use crate::schema::TableSchema;
use crate::sql::error::{unsupported, Refusal, TranslateError};
use crate::sql::helpers::{self, resolve_column_local, Aliases, Tables, Translated};
use crate::sql::mapper::ValueMapper;
use crate::sql::name_map::NameMap;
use crate::sql::syntax::{
    SqlBinaryOp, SqlExpr, SqlFunction, SqlFunctionArg, SqlFunctionArgs, SqlUnaryOp,
};
use crate::text;
use crate::value::ValueModel;
use vstd::string::*;

verus! {

/// What stands before the first dot.
pub open spec fn before_dot(s: Seq<char>) -> Seq<char>
    decreases s.len(),
{
    if s.len() == 0 || s[0] == '.' {
        Seq::empty()
    } else {
        seq![s[0]] + before_dot(s.drop_first())
    }
}

/// The name of a function: in lower case, without what follows a dot.
pub open spec fn function_name(f: SqlFunction) -> Seq<char> {
    before_dot(text::lowercased(f.name@))
}

proof fn lemma_before_dot(s: Seq<char>, n: int)
    requires
        0 <= n <= s.len(),
        forall|i: int| 0 <= i < n ==> s[i] != '.',
        n == s.len() || s[n] == '.',
    ensures
        before_dot(s) == s.take(n),
    decreases n,
{
    if n > 0 {
        lemma_before_dot(s.drop_first(), n - 1);
        assert(seq![s[0]] + s.drop_first().take(n - 1) =~= s.take(n));
    } else {
        assert(s.take(0) =~= Seq::empty());
    }
}

/// The name of a function: in lower case, without what follows a dot.
pub fn called_name(f: &SqlFunction) -> (r: String)
    ensures
        r@ == function_name(*f),
{
    let lower = text::to_lowercase(f.name.as_str());
    let chars = text::characters(lower.as_str());
    let mut i: usize = 0;
    while i < chars.len() && chars[i] != '.'
        invariant
            i <= chars.len(),
            chars@ == lower@,
            forall|j: int| 0 <= j < i ==> lower@[j] != '.',
        decreases chars.len() - i,
    {
        i += 1;
    }
    proof {
        lemma_before_dot(lower@, i as int);
    }
    lower.as_str().substring_char(0, i).to_string()
}

/// Whether an aggregate is the call of the named function on `arg`.
pub open spec fn is_call_of(a: AggregateModel, name: Seq<char>, arg: Option<ColumnRef>) -> bool {
    match a {
        AggregateModel::Count(column) => name == "count"@ && column == arg,
        AggregateModel::Sum(column) => name == "sum"@ && arg == Some(column),
        AggregateModel::Min(column) => name == "min"@ && arg == Some(column),
        AggregateModel::Max(column) => name == "max"@ && arg == Some(column),
        AggregateModel::Avg(column) => name == "avg"@ && arg == Some(column),
    }
}

/// The first aggregate that is the call of the named function on `arg`.
pub open spec fn call_place(
    aggregates: Seq<AggregateModel>,
    name: Seq<char>,
    arg: Option<ColumnRef>,
) -> Option<int>
    decreases aggregates.len(),
{
    if aggregates.len() == 0 {
        None
    } else if is_call_of(aggregates[0], name, arg) {
        Some(0)
    } else {
        match call_place(aggregates.drop_first(), name, arg) {
            Some(i) => Some(i + 1),
            None => None,
        }
    }
}

fn is_call(a: &Aggregate, name: &str, arg: &Option<QualifiedColumn>) -> (r: bool)
    ensures
        r == is_call_of(a.deep_view(), name@, arg.deep_view()),
{
    match (a, arg) {
        (Aggregate::Count(None), None) => same_text(name, "count"),
        (Aggregate::Count(Some(column)), Some(q)) => same_text(name, "count") && column.same(q),
        (Aggregate::Sum(column), Some(q)) => same_text(name, "sum") && column.same(q),
        (Aggregate::Min(column), Some(q)) => same_text(name, "min") && column.same(q),
        (Aggregate::Max(column), Some(q)) => same_text(name, "max") && column.same(q),
        (Aggregate::Avg(column), Some(q)) => same_text(name, "avg") && column.same(q),
        _ => false,
    }
}

fn find_call(aggregates: &Vec<Aggregate>, name: &str, arg: &Option<QualifiedColumn>) -> (r: Option<
    usize,
>)
    ensures
        match r {
            Some(i) => call_place(aggregates.deep_view(), name@, arg.deep_view()) == Some(i as int),
            None => call_place(aggregates.deep_view(), name@, arg.deep_view()) is None,
        },
{
    let ghost all = aggregates.deep_view();
    let ghost q = arg.deep_view();
    let mut i: usize = 0;
    proof {
        assert(all.skip(0) =~= all);
    }
    while i < aggregates.len()
        invariant
            i <= aggregates.len(),
            all == aggregates.deep_view(),
            q == arg.deep_view(),
            call_place(all, name@, q) == match call_place(all.skip(i as int), name@, q) {
                Some(k) => Some(k + i),
                None => None::<int>,
            },
        decreases aggregates.len() - i,
    {
        proof {
            assert(all.skip(i as int)[0] == aggregates@[i as int].deep_view());
            assert(all.skip(i as int).drop_first() =~= all.skip(i + 1));
        }
        if is_call(&aggregates[i], name, arg) {
            return Some(i);
        }
        i += 1;
    }
    assert(all.skip(i as int).len() == 0);
    None
}

/// What a HAVING clause is read against.
pub struct HavingContext<'a, M> {
    pub aggregates: &'a Vec<Aggregate>,
    pub proj_alias_map: &'a NameMap<QualifiedColumn>,
    pub alias_map: &'a NameMap<String>,
    pub table_schemas: &'a NameMap<TableSchema>,
    pub mapper: &'a M,
}

/// What a HAVING clause is read against, mathematically.
pub struct HavingScope {
    pub aggregates: Seq<AggregateModel>,
    pub names: Map<Seq<char>, ColumnRef>,
    pub aliases: Aliases,
    pub tables: Tables,
}

impl<'a, M> HavingContext<'a, M> {
    pub open spec fn scope(&self) -> HavingScope {
        HavingScope {
            aggregates: self.aggregates.deep_view(),
            names: self.proj_alias_map.deep_view(),
            aliases: self.alias_map.deep_view(),
            tables: self.table_schemas.deep_view(),
        }
    }
}

/// The argument that a call in a HAVING clause has: a column, or `None` for `*`.
pub open spec fn call_argument(f: SqlFunction, scope: HavingScope) -> Translated<Option<ColumnRef>> {
    match f.args {
        SqlFunctionArgs::Subquery => Err(
            Refusal::UnsupportedFeature("aggregate with subquery arg in HAVING unsupported"@),
        ),
        SqlFunctionArgs::Absent => Err(
            Refusal::UnsupportedFeature("aggregate in HAVING must take one argument"@),
        ),
        SqlFunctionArgs::List(args) => if args@.len() != 1 {
            Err(Refusal::UnsupportedFeature("aggregate in HAVING must take one argument"@))
        } else {
            match args@[0] {
                SqlFunctionArg::Expr(e) => match helpers::local_column(
                    *e,
                    scope.aliases,
                    scope.tables,
                ) {
                    Ok(column) => Ok(Some(column)),
                    Err(r) => Err(r),
                },
                SqlFunctionArg::Wildcard => Ok(None),
                _ => Err(Refusal::UnsupportedFeature("unsupported aggregate arg in HAVING"@)),
            }
        },
    }
}

/// What an operand of a HAVING clause refers to: an aggregate of the
/// projection, called again or by its alias, or a column.
pub open spec fn group_ref(e: SqlExpr, scope: HavingScope) -> Translated<GroupRef> {
    match e {
        SqlExpr::Function(f) => match call_argument(f, scope) {
            Err(r) => Err(r),
            Ok(arg) => match call_place(scope.aggregates, function_name(f), arg) {
                Some(i) => Ok(GroupRef::AggregateIndex(i as usize)),
                None => Err(Refusal::UnsupportedFeature("unknown aggregate in HAVING"@)),
            },
        },
        SqlExpr::Identifier(name) => if scope.names.contains_key(name@) {
            match aggregate::aggregate_place(scope.aggregates, scope.names[name@]) {
                Some(i) => Ok(GroupRef::AggregateIndex(i as usize)),
                None => Ok(GroupRef::Column(scope.names[name@])),
            }
        } else {
            match helpers::local_column(e, scope.aliases, scope.tables) {
                Ok(column) => Ok(GroupRef::Column(column)),
                Err(r) => Err(r),
            }
        },
        SqlExpr::CompoundIdentifier(_) => match helpers::local_column(
            e,
            scope.aliases,
            scope.tables,
        ) {
            Ok(column) => Ok(GroupRef::Column(column)),
            Err(r) => Err(r),
        },
        _ => Err(Refusal::UnsupportedFeature("unsupported HAVING operand"@)),
    }
}

/// Whether an operator compares.
pub open spec fn compares(op: SqlBinaryOp) -> bool {
    match op {
        SqlBinaryOp::Eq | SqlBinaryOp::NotEq | SqlBinaryOp::Lt | SqlBinaryOp::LtEq
        | SqlBinaryOp::Gt | SqlBinaryOp::GtEq => true,
        _ => false,
    }
}

/// The condition that compares a group's value with a literal.
pub open spec fn compared_group(op: SqlBinaryOp, of: GroupRef, v: ValueModel) -> HavingModel {
    match op {
        SqlBinaryOp::Eq => HavingModel::Equals(of, v),
        SqlBinaryOp::NotEq => HavingModel::NotEquals(of, v),
        SqlBinaryOp::Lt => HavingModel::LessThan(of, v),
        SqlBinaryOp::LtEq => HavingModel::LessThanOrEquals(of, v),
        SqlBinaryOp::Gt => HavingModel::GreaterThan(of, v),
        _ => HavingModel::GreaterThanOrEquals(of, v),
    }
}

/// The condition that a HAVING clause states.
pub open spec fn having_of<M: ValueMapper>(e: SqlExpr, scope: HavingScope, mapper: M) -> Translated<
    HavingModel,
>
    decreases e,
{
    match e {
        SqlExpr::BinaryOp { left, op, right } => if op == SqlBinaryOp::And || op
            == SqlBinaryOp::Or {
            match having_of(*left, scope, mapper) {
                Err(r) => Err(r),
                Ok(a) => match having_of(*right, scope, mapper) {
                    Err(r) => Err(r),
                    Ok(b) => if op == SqlBinaryOp::And {
                        Ok(HavingModel::And(Box::new(a), Box::new(b)))
                    } else {
                        Ok(HavingModel::Or(Box::new(a), Box::new(b)))
                    },
                },
            }
        } else if compares(op) {
            match group_ref(*left, scope) {
                Err(r) => Err(r),
                Ok(of) => if *right is Value {
                    match mapper.mapped(*right) {
                        Err(r) => Err(r),
                        Ok(v) => Ok(compared_group(op, of, v)),
                    }
                } else {
                    Err(
                        Refusal::UnsupportedFeature("HAVING RHS must be literal value in v1"@),
                    )
                },
            }
        } else {
            Err(Refusal::UnsupportedFeature("unsupported binary operator in HAVING"@))
        },
        SqlExpr::UnaryOp { op, expr } => if op == SqlUnaryOp::Not {
            match having_of(*expr, scope, mapper) {
                Err(r) => Err(r),
                Ok(a) => Ok(HavingModel::Not(Box::new(a))),
            }
        } else {
            Err(Refusal::UnsupportedFeature("unsupported unary operator in HAVING"@))
        },
        SqlExpr::IsNull(inner) => match group_ref(*inner, scope) {
            Err(r) => Err(r),
            Ok(of) => Ok(HavingModel::IsNull(of)),
        },
        SqlExpr::IsNotNull(inner) => match group_ref(*inner, scope) {
            Err(r) => Err(r),
            Ok(of) => Ok(HavingModel::IsNotNull(of)),
        },
        _ => Err(Refusal::UnsupportedFeature("unsupported HAVING expression"@)),
    }
}

fn read_call_argument<M>(f: &SqlFunction, context: &HavingContext<'_, M>) -> (r: Result<
    Option<QualifiedColumn>,
    TranslateError,
>)
    ensures
        plain::outcome(r) == call_argument(*f, context.scope()),
{
    match &f.args {
        SqlFunctionArgs::Subquery => Err(
            unsupported("aggregate with subquery arg in HAVING unsupported"),
        ),
        SqlFunctionArgs::Absent => Err(unsupported("aggregate in HAVING must take one argument")),
        SqlFunctionArgs::List(args) => {
            if args.len() != 1 {
                return Err(unsupported("aggregate in HAVING must take one argument"));
            }
            match &args[0] {
                SqlFunctionArg::Expr(e) => match resolve_column_local(
                    e,
                    context.alias_map,
                    context.table_schemas,
                ) {
                    Ok(column) => Ok(Some(column)),
                    Err(e) => Err(e),
                },
                SqlFunctionArg::Wildcard => Ok(None),
                _ => Err(unsupported("unsupported aggregate arg in HAVING")),
            }
        },
    }
}

fn resolve_ref<M>(e: &SqlExpr, context: &HavingContext<'_, M>) -> (r: Result<
    RefOrAgg,
    TranslateError,
>)
    ensures
        plain::outcome(r) == group_ref(*e, context.scope()),
{
    match e {
        SqlExpr::Function(f) => {
            let arg = match read_call_argument(f, context) {
                Ok(arg) => arg,
                Err(e) => {
                    return Err(e);
                },
            };
            let name = called_name(f);
            match find_call(context.aggregates, name.as_str(), &arg) {
                Some(i) => Ok(RefOrAgg::AggregateIndex(i)),
                None => Err(unsupported("unknown aggregate in HAVING")),
            }
        },
        SqlExpr::Identifier(name) => match context.proj_alias_map.get(name.as_str()) {
            Some(column) => match find_aggregate(context.aggregates, column) {
                Some(i) => Ok(RefOrAgg::AggregateIndex(i)),
                None => Ok(RefOrAgg::Column(column.duplicate())),
            },
            None => match resolve_column_local(e, context.alias_map, context.table_schemas) {
                Ok(column) => Ok(RefOrAgg::Column(column)),
                Err(e) => Err(e),
            },
        },
        SqlExpr::CompoundIdentifier(_) => match resolve_column_local(
            e,
            context.alias_map,
            context.table_schemas,
        ) {
            Ok(column) => Ok(RefOrAgg::Column(column)),
            Err(e) => Err(e),
        },
        _ => Err(unsupported("unsupported HAVING operand")),
    }
}

/// The condition that compares a group's value with a literal.
fn compare_group<M: ValueMapper>(
    left: &SqlExpr,
    op: SqlBinaryOp,
    right: &SqlExpr,
    context: &HavingContext<'_, M>,
) -> (r: Result<HavingPredicate, TranslateError>)
    requires
        context.mapper.ready(),
        compares(op),
    ensures
        plain::outcome(r) == (match group_ref(*left, context.scope()) {
            Err(e) => Err(e),
            Ok(of) => if *right is Value {
                match context.mapper.mapped(*right) {
                    Err(e) => Err(e),
                    Ok(v) => Ok(compared_group(op, of, v)),
                }
            } else {
                Err(Refusal::UnsupportedFeature("HAVING RHS must be literal value in v1"@))
            },
        }),
{
    let of = match resolve_ref(left, context) {
        Ok(of) => of,
        Err(e) => {
            return Err(e);
        },
    };
    let value = match right {
        SqlExpr::Value(_) => match context.mapper.map_sql_value(right) {
            Ok(value) => value,
            Err(e) => {
                return Err(e);
            },
        },
        _ => {
            return Err(unsupported("HAVING RHS must be literal value in v1"));
        },
    };
    Ok(
        match op {
            SqlBinaryOp::Eq => HavingPredicate::Equals(of, value),
            SqlBinaryOp::NotEq => HavingPredicate::NotEquals(of, value),
            SqlBinaryOp::Lt => HavingPredicate::LessThan(of, value),
            SqlBinaryOp::LtEq => HavingPredicate::LessThanOrEquals(of, value),
            SqlBinaryOp::Gt => HavingPredicate::GreaterThan(of, value),
            _ => HavingPredicate::GreaterThanOrEquals(of, value),
        },
    )
}

/// The condition that a HAVING clause states.
pub fn expr_to_having_predicate<M: ValueMapper>(expr: &SqlExpr, context: &HavingContext<'_, M>) -> (r:
    Result<HavingPredicate, TranslateError>)
    requires
        context.mapper.ready(),
    ensures
        plain::outcome(r) == having_of(*expr, context.scope(), *context.mapper),
    decreases expr,
{
    match expr {
        SqlExpr::BinaryOp { left, op, right } => match op {
            SqlBinaryOp::And | SqlBinaryOp::Or => {
                let a = match expr_to_having_predicate(left, context) {
                    Ok(a) => a,
                    Err(e) => {
                        return Err(e);
                    },
                };
                let b = match expr_to_having_predicate(right, context) {
                    Ok(b) => b,
                    Err(e) => {
                        return Err(e);
                    },
                };
                if *op == SqlBinaryOp::And {
                    Ok(HavingPredicate::And(Box::new(a), Box::new(b)))
                } else {
                    Ok(HavingPredicate::Or(Box::new(a), Box::new(b)))
                }
            },
            SqlBinaryOp::Eq | SqlBinaryOp::NotEq | SqlBinaryOp::Lt | SqlBinaryOp::LtEq
            | SqlBinaryOp::Gt | SqlBinaryOp::GtEq => compare_group(left, *op, right, context),
            _ => Err(unsupported("unsupported binary operator in HAVING")),
        },
        SqlExpr::UnaryOp { op, expr: inner } => match op {
            SqlUnaryOp::Not => match expr_to_having_predicate(inner, context) {
                Ok(a) => Ok(HavingPredicate::Not(Box::new(a))),
                Err(e) => Err(e),
            },
            SqlUnaryOp::Other => Err(unsupported("unsupported unary operator in HAVING")),
        },
        SqlExpr::IsNull(inner) => match resolve_ref(inner, context) {
            Ok(of) => Ok(HavingPredicate::IsNull(of)),
            Err(e) => Err(e),
        },
        SqlExpr::IsNotNull(inner) => match resolve_ref(inner, context) {
            Ok(of) => Ok(HavingPredicate::IsNotNull(of)),
            Err(e) => Err(e),
        },
        _ => Err(unsupported("unsupported HAVING expression")),
    }
}

} // verus!
