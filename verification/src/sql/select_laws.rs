//! What the clauses of a SELECT ask for.
use vstd::prelude::*;
use crate::query::{
    AggregateModel, ColumnRef, HavingModel, JoinKind, JoinOnModel, OptionsModel, OrderModel,
    PredicateModel, QueryModel, SortDirection,
};
use crate::schema_resolver::SchemaResolver;
use crate::sql::error::Refusal;
use crate::sql::having;
use crate::sql::helpers::{self, Tables};
use crate::sql::mapper::ValueMapper;
use crate::sql::name_laws::{all_digits, law_unsigned_numbers, number};
use crate::sql::scope::{self, Joined, Scope};
use crate::sql::select;
use crate::sql::select_list::{self, Projected};
use crate::sql::syntax::{
    SqlBinaryOp, SqlExpr, SqlFunction, SqlFunctionArg, SqlFunctionArgs, SqlGroupBy, SqlJoin,
    SqlJoinConstraint, SqlJoinOperator, SqlLimit, SqlLiteral, SqlOrderBy, SqlOrderByExpr, SqlQuery,
    SqlSelect, SqlSelectItem, SqlSetExpr, SqlTableFactor,
};
use crate::text;

verus! {

/// Law: a term of an ORDER BY clause sorts ascending with ASC as without a
/// direction, and descending with DESC alone; the direction does not change what
/// it sorts by.
pub proof fn law_directions(e: SqlExpr, names: Map<Seq<char>, ColumnRef>, at: Scope)
    ensures
        ({
            let bare = select_list::sorting_of(SqlOrderByExpr { expr: e, asc: None }, names, at);
            let asc = select_list::sorting_of(
                SqlOrderByExpr { expr: e, asc: Some(true) },
                names,
                at,
            );
            let desc = select_list::sorting_of(
                SqlOrderByExpr { expr: e, asc: Some(false) },
                names,
                at,
            );
            &&& asc == bare
            &&& desc is Ok == bare is Ok
            &&& bare matches Ok(b) ==> b.direction == SortDirection::Asc && desc->Ok_0
                == (OrderModel { expr: b.expr, direction: SortDirection::Desc })
        }),
{
}

/// Law: a term of an ORDER BY clause sorts by the column that it names: that
/// behind an alias of the projection, or else that of the tables called.
pub proof fn law_sorted_column(
    s: String,
    parts: Vec<String>,
    asc: Option<bool>,
    names: Map<Seq<char>, ColumnRef>,
    at: Scope,
)
    ensures
        ({
            let by_name = select_list::sorting_of(
                SqlOrderByExpr { expr: SqlExpr::Identifier(s), asc },
                names,
                at,
            );
            let by_parts = select_list::sorting_of(
                SqlOrderByExpr { expr: SqlExpr::CompoundIdentifier(parts), asc },
                names,
                at,
            );
            let column = helpers::column_among(
                SqlExpr::Identifier(s),
                at.aliases,
                at.called,
                at.tables,
            );
            let other = helpers::column_among(
                SqlExpr::CompoundIdentifier(parts),
                at.aliases,
                at.called,
                at.tables,
            );
            &&& if names.contains_key(s@) {
                by_name is Ok && by_name->Ok_0.expr == names[s@]
            } else {
                by_name is Ok == column is Ok && (column matches Ok(c) ==> by_name->Ok_0.expr == c)
            }
            &&& by_parts is Ok == other is Ok
            &&& other matches Ok(c) ==> by_parts->Ok_0.expr == c
        }),
{
}

proof fn lemma_sortings(
    list: Seq<SqlOrderByExpr>,
    names: Map<Seq<char>, ColumnRef>,
    at: Scope,
)
    ensures
        select_list::sortings_of(list, names, at) matches Ok(order) ==> order.len() == list.len()
            && forall|k: int|
            0 <= k < list.len() ==> select_list::sorting_of(#[trigger] list[k], names, at) == Ok::<
                OrderModel,
                Refusal,
            >(order[k]),
    decreases list.len(),
{
    if list.len() > 0 && select_list::sortings_of(list, names, at) is Ok {
        let rest = list.drop_last();
        lemma_sortings(rest, names, at);
        let before = select_list::sortings_of(rest, names, at)->Ok_0;
        let order = select_list::sortings_of(list, names, at)->Ok_0;
        assert forall|k: int| 0 <= k < list.len() implies select_list::sorting_of(
            #[trigger] list[k],
            names,
            at,
        ) == Ok::<OrderModel, Refusal>(order[k]) by {
            if k < rest.len() {
                assert(rest[k] == list[k]);
                assert(order[k] == before[k]);
            }
        }
    }
}

/// Law: an ORDER BY clause sorts by its terms one after the other; without one
/// nothing is sorted by.
pub proof fn law_order_clause(
    list: Vec<SqlOrderByExpr>,
    names: Map<Seq<char>, ColumnRef>,
    at: Scope,
)
    ensures
        select_list::order_of(None, names, at) == Ok::<Seq<OrderModel>, Refusal>(Seq::empty()),
        select_list::order_of(Some(SqlOrderBy::Expressions(list)), names, at) matches Ok(order)
            ==> order.len() == list@.len() && forall|k: int|
            0 <= k < list@.len() ==> select_list::sorting_of(#[trigger] list@[k], names, at)
                == Ok::<OrderModel, Refusal>(order[k]),
{
    lemma_sortings(list@, names, at);
}

/// A number of rows, written in digits.
pub open spec fn is_row_count(e: SqlExpr, n: usize) -> bool {
    e matches SqlExpr::Value(SqlLiteral::Number(s)) && s@.len() > 0 && all_digits(s@) && number(
        s@,
    ) == n
}

/// Law: LIMIT n gives n as the greatest number of rows, OFFSET m gives m as the
/// number of rows to leave out, whichever of the two forms they are written in;
/// what is not written is not there.
pub proof fn law_limit_clause(l: SqlExpr, o: SqlExpr, n: usize, m: usize)
    requires
        is_row_count(l, n),
        is_row_count(o, m),
    ensures
        select_list::limits_of(None) == Ok::<(Option<usize>, Option<usize>), Refusal>((None, None)),
        select_list::limits_of(Some(SqlLimit::LimitOffset { limit: Some(l), offset: None }))
            == Ok::<(Option<usize>, Option<usize>), Refusal>((Some(n), None)),
        select_list::limits_of(Some(SqlLimit::LimitOffset { limit: None, offset: Some(o) }))
            == Ok::<(Option<usize>, Option<usize>), Refusal>((None, Some(m))),
        select_list::limits_of(Some(SqlLimit::LimitOffset { limit: Some(l), offset: Some(o) }))
            == Ok::<(Option<usize>, Option<usize>), Refusal>((Some(n), Some(m))),
        select_list::limits_of(Some(SqlLimit::OffsetCommaLimit { offset: o, limit: l })) == Ok::<
            (Option<usize>, Option<usize>),
            Refusal,
        >((Some(n), Some(m))),
{
    lemma_row_count(l, n, "LIMIT"@);
    lemma_row_count(o, m, "OFFSET"@);
}

proof fn lemma_row_count(e: SqlExpr, n: usize, what: Seq<char>)
    requires
        is_row_count(e, n),
    ensures
        select_list::row_count(e, what) == Ok::<usize, Refusal>(n),
{
    if let SqlExpr::Value(SqlLiteral::Number(s)) = e {
        law_unsigned_numbers(s@, usize::MAX as int);
        assert(s@[0] != '+') by {
            assert(0 <= crate::sql::name_laws::digit(s@[0]));
        }
        assert(text::unsigned_of(s@, usize::MAX as int) is Ok);
    }
}

/// A call of a function with one argument.
pub open spec fn is_call(f: SqlFunction, name: Seq<char>, arg: SqlFunctionArg) -> bool {
    &&& having::function_name(f) == name
    &&& f.args matches SqlFunctionArgs::List(args) && args@.len() == 1 && args@[0] == arg
}

/// Law: a call in a projection asks for the aggregate of its name, in whatever
/// case it is written: COUNT(*) for the number of joined rows, and COUNT, SUM,
/// MIN, MAX and AVG for those of the column that the argument names. What was
/// asked for before is still asked for.
pub proof fn law_calls_are_aggregates(
    f: SqlFunction,
    e: SqlExpr,
    c: ColumnRef,
    before: Projected,
    at: Scope,
)
    requires
        helpers::column_among(e, at.aliases, at.called, at.tables) == Ok::<ColumnRef, Refusal>(c),
    ensures
        ({
            let after = select_list::with_item(
                before,
                SqlSelectItem::UnnamedExpr(SqlExpr::Function(f)),
                at,
            );
            let adds = |a: AggregateModel|
                after == Ok::<Projected, Refusal>(
                    Projected {
                        columns: before.columns,
                        aggregates: before.aggregates.push(a),
                        names: before.names,
                    },
                );
            let of = SqlFunctionArg::Expr(Box::new(e));
            &&& is_call(f, "count"@, SqlFunctionArg::Wildcard) ==> adds(AggregateModel::Count(None))
            &&& is_call(f, "count"@, of) ==> adds(AggregateModel::Count(Some(c)))
            &&& is_call(f, "sum"@, of) ==> adds(AggregateModel::Sum(c))
            &&& is_call(f, "min"@, of) ==> adds(AggregateModel::Min(c))
            &&& is_call(f, "max"@, of) ==> adds(AggregateModel::Max(c))
            &&& is_call(f, "avg"@, of) ==> adds(AggregateModel::Avg(c))
        }),
{
    lemma_names_differ();
}

proof fn lemma_names_differ()
    ensures
        "count"@ != "sum"@ && "count"@ != "min"@ && "count"@ != "max"@ && "count"@ != "avg"@,
        "sum"@ != "min"@ && "sum"@ != "max"@ && "sum"@ != "avg"@,
        "min"@ != "max"@ && "min"@ != "avg"@ && "max"@ != "avg"@,
{
    reveal_strlit("count");
    reveal_strlit("sum");
    reveal_strlit("min");
    reveal_strlit("max");
    reveal_strlit("avg");
    assert("count"@.len() == 5 && "sum"@.len() == 3 && "min"@.len() == 3 && "max"@.len() == 3
        && "avg"@.len() == 3);
    assert("sum"@[0] == 's' && "min"@[0] == 'm' && "max"@[0] == 'm' && "avg"@[0] == 'a');
    assert("min"@[1] == 'i' && "max"@[1] == 'a');
}

/// Law: a call with an alias asks for the same aggregate as one without, and the
/// alias stands for its column.
pub proof fn law_alias_of_call(f: SqlFunction, alias: String, before: Projected, at: Scope)
    ensures
        ({
            let bare = select_list::with_item(
                before,
                SqlSelectItem::UnnamedExpr(SqlExpr::Function(f)),
                at,
            );
            let named = select_list::with_item(
                before,
                SqlSelectItem::ExprWithAlias { expr: SqlExpr::Function(f), alias },
                at,
            );
            &&& bare is Ok == named is Ok
            &&& bare matches Ok(b) ==> named->Ok_0.aggregates == b.aggregates
                && named->Ok_0.columns == b.columns
        }),
{
}

/// Law: the name of a function counts without its case.
pub proof fn law_function_names(f: SqlFunction)
    requires
        !text::lowercased(f.name@).contains('.'),
    ensures
        having::function_name(f) == text::lowercased(f.name@),
{
    lemma_no_dot(text::lowercased(f.name@));
}

proof fn lemma_no_dot(s: Seq<char>)
    requires
        !s.contains('.'),
    ensures
        having::before_dot(s) == s,
    decreases s.len(),
{
    if s.len() > 0 {
        assert(s.contains(s[0]));
        let rest = s.drop_first();
        assert(!rest.contains('.')) by {
            if rest.contains('.') {
                let i = choose|i: int| 0 <= i < rest.len() && rest[i] == '.';
                assert(s[i + 1] == '.');
            }
        }
        lemma_no_dot(rest);
        assert(seq![s[0]] + rest =~= s);
    } else {
        assert(s =~= Seq::empty());
    }
}

/// Law: a name in a projection asks for the column that it stands for; an alias
/// stands for it from there on. What was asked for before is still asked for.
pub proof fn law_names_are_projected(s: String, alias: String, before: Projected, at: Scope)
    ensures
        ({
            let e = SqlExpr::Identifier(s);
            let column = helpers::column_among(e, at.aliases, at.called, at.tables);
            let bare = select_list::with_item(before, SqlSelectItem::UnnamedExpr(e), at);
            let named = select_list::with_item(
                before,
                SqlSelectItem::ExprWithAlias { expr: e, alias },
                at,
            );
            match column {
                Ok(c) => {
                    &&& bare == Ok::<Projected, Refusal>(
                        Projected {
                            columns: before.columns.push(c),
                            aggregates: before.aggregates,
                            names: before.names,
                        },
                    )
                    &&& named == Ok::<Projected, Refusal>(
                        Projected {
                            columns: before.columns.push(c),
                            aggregates: before.aggregates,
                            names: before.names.insert(alias@, c),
                        },
                    )
                },
                Err(_) => bare is Err && named is Err,
            }
        }),
{
}

/// Law: the items of a projection are read one after the other.
pub proof fn law_items_follow_each_other(
    items: Seq<SqlSelectItem>,
    item: SqlSelectItem,
    at: Scope,
)
    ensures
        select_list::projection_of(Seq::empty(), at) == Ok::<Projected, Refusal>(
            Projected { columns: Seq::empty(), aggregates: Seq::empty(), names: Map::empty() },
        ),
        select_list::projection_of(items, at) matches Ok(before)
            ==> select_list::projection_of(items.push(item), at) == select_list::with_item(
            before,
            item,
            at,
        ),
{
    assert(items.push(item).drop_last() =~= items);
}

/// Law: `*` asks for all columns of all tables called, in order. For one table
/// these are its columns from the first to the last.
pub proof fn law_star_is_all_columns(before: Projected, at: Scope, table: Seq<char>)
    requires
        at.called == seq![table],
        at.tables.contains_key(table),
        at.tables[table].columns.len() <= usize::MAX,
    ensures
        ({
            let after = select_list::with_item(before, SqlSelectItem::Wildcard, at);
            let n = at.tables[table].columns.len();
            &&& after is Ok
            &&& after->Ok_0.aggregates == before.aggregates
            &&& after->Ok_0.names == before.names
            &&& after->Ok_0.columns.len() == before.columns.len() + n
            &&& forall|k: int|
                0 <= k < before.columns.len() ==> #[trigger] after->Ok_0.columns[k]
                    == before.columns[k]
            &&& forall|k: int|
                before.columns.len() <= k < before.columns.len() + n ==> (
                #[trigger] after->Ok_0.columns[k]).table == table
                    && after->Ok_0.columns[k].column_index == k - before.columns.len()
        }),
{
    assert(at.called.drop_last() =~= Seq::empty());
    assert(at.called.last() == table);
    reveal_with_fuel(select_list::all_columns, 2);
}

/// Law: with one more table called, `*` asks for the columns of the others and
/// then for its own.
pub proof fn law_star_goes_table_by_table(
    called: Seq<Seq<char>>,
    table: Seq<char>,
    tables: Tables,
)
    requires
        tables.contains_key(table),
        tables[table].columns.len() <= usize::MAX,
    ensures
        ({
            let before = select_list::all_columns(called, tables);
            let after = select_list::all_columns(called.push(table), tables);
            &&& after.len() == before.len() + tables[table].columns.len()
            &&& forall|k: int| 0 <= k < before.len() ==> #[trigger] after[k] == before[k]
            &&& forall|k: int|
                before.len() <= k < after.len() ==> (#[trigger] after[k]).table == table
                    && after[k].column_index == k - before.len()
        }),
{
    assert(called.push(table).drop_last() =~= called);
}

proof fn lemma_resolved(list: Seq<SqlExpr>, at: Scope)
    ensures
        match select_list::resolved_all(list, at) {
            Ok(columns) => columns.len() == list.len() && forall|k: int|
                0 <= k < list.len() ==> helpers::column_among(
                    #[trigger] list[k],
                    at.aliases,
                    at.called,
                    at.tables,
                ) == Ok::<ColumnRef, Refusal>(columns[k]),
            Err(_) => exists|k: int|
                0 <= k < list.len() && helpers::column_among(
                    #[trigger] list[k],
                    at.aliases,
                    at.called,
                    at.tables,
                ) is Err,
        },
    decreases list.len(),
{
    if list.len() > 0 {
        let rest = list.drop_last();
        let n = list.len() - 1;
        lemma_resolved(rest, at);
        match select_list::resolved_all(rest, at) {
            Err(_) => {
                let k = choose|k: int|
                    0 <= k < rest.len() && helpers::column_among(
                        #[trigger] rest[k],
                        at.aliases,
                        at.called,
                        at.tables,
                    ) is Err;
                assert(list[k] == rest[k]);
            },
            Ok(before) => {
                if let Ok(columns) = select_list::resolved_all(list, at) {
                    assert forall|k: int| 0 <= k < list.len() implies helpers::column_among(
                        #[trigger] list[k],
                        at.aliases,
                        at.called,
                        at.tables,
                    ) == Ok::<ColumnRef, Refusal>(columns[k]) by {
                        if k < n {
                            assert(rest[k] == list[k]);
                            assert(columns[k] == before[k]);
                        }
                    }
                } else {
                    assert(helpers::column_among(
                        list[n],
                        at.aliases,
                        at.called,
                        at.tables,
                    ) is Err);
                }
            },
        }
    }
}

/// Law: GROUP BY groups by the columns that its expressions name, in order; it is
/// refused where one of them names none.
pub proof fn law_group_clause(list: Vec<SqlExpr>, at: Scope)
    ensures
        match select_list::grouping_of(SqlGroupBy::Expressions(list), at) {
            Ok(columns) => columns.len() == list@.len() && forall|k: int|
                0 <= k < list@.len() ==> helpers::column_among(
                    #[trigger] list@[k],
                    at.aliases,
                    at.called,
                    at.tables,
                ) == Ok::<ColumnRef, Refusal>(columns[k]),
            Err(_) => exists|k: int|
                0 <= k < list@.len() && helpers::column_among(
                    #[trigger] list@[k],
                    at.aliases,
                    at.called,
                    at.tables,
                ) is Err,
        },
{
    lemma_resolved(list@, at);
}

/// The kind of join that an operator asks for with a constraint.
pub open spec fn asks_for(o: SqlJoinOperator, kind: JoinKind, c: SqlJoinConstraint) -> bool {
    match kind {
        JoinKind::Inner => o == SqlJoinOperator::Join(c) || o == SqlJoinOperator::Inner(c),
        JoinKind::Left => o == SqlJoinOperator::Left(c) || o == SqlJoinOperator::LeftOuter(c),
        JoinKind::Right => o == SqlJoinOperator::Right(c) || o == SqlJoinOperator::RightOuter(c),
        JoinKind::Full => o == SqlJoinOperator::FullOuter(c),
    }
}

/// Law: JOIN and INNER JOIN ask for an inner join, LEFT, RIGHT and FULL JOIN for
/// a left, a right and a full one, of the table that they name, on the equality
/// of the two columns that the ON clause names. The joins before stay.
pub proof fn law_join_clause<R: SchemaResolver>(
    join: SqlJoin,
    kind: JoinKind,
    name: String,
    alias: Option<String>,
    left: SqlExpr,
    right: SqlExpr,
    before: Joined,
    resolver: R,
)
    requires
        join.relation == (SqlTableFactor::Table { name, alias }),
        asks_for(
            join.operator,
            kind,
            SqlJoinConstraint::On(
                SqlExpr::BinaryOp {
                    left: Box::new(left),
                    op: SqlBinaryOp::Eq,
                    right: Box::new(right),
                },
            ),
        ),
    ensures
        ({
            let entered = scope::with_factor(
                join.relation,
                before.scope,
                resolver,
                "unsupported join relation"@,
            );
            match scope::join_step(join, before, resolver) {
                Ok(after) => {
                    &&& entered is Ok
                    &&& after.scope == entered->Ok_0.1
                    &&& after.joins.len() == before.joins.len() + 1
                    &&& forall|k: int|
                        0 <= k < before.joins.len() ==> #[trigger] after.joins[k]
                            == before.joins[k]
                    &&& after.joins.last().kind == kind
                    &&& after.joins.last().right_table == name@
                    &&& after.joins.last().on matches JoinOnModel::ColumnEq { left: a, right: b }
                        && helpers::qualified_column(
                        left,
                        after.scope.aliases,
                        after.scope.tables,
                    ) == Ok::<ColumnRef, Refusal>(a) && helpers::qualified_column(
                        right,
                        after.scope.aliases,
                        after.scope.tables,
                    ) == Ok::<ColumnRef, Refusal>(b)
                },
                Err(_) => entered is Err || helpers::qualified_column(
                    left,
                    entered->Ok_0.1.aliases,
                    entered->Ok_0.1.tables,
                ) is Err || helpers::qualified_column(
                    right,
                    entered->Ok_0.1.aliases,
                    entered->Ok_0.1.tables,
                ) is Err,
            }
        }),
{
}

/// Law: the joins of a FROM clause are read one after the other.
pub proof fn law_join_clauses_follow_each_other<R: SchemaResolver>(
    joins: Seq<SqlJoin>,
    more: SqlJoin,
    start: Scope,
    base: Seq<char>,
    resolver: R,
)
    ensures
        scope::joins_of(Seq::empty(), start, base, resolver) == Ok::<Joined, Refusal>(
            Joined { joins: Seq::empty(), scope: start, left: base },
        ),
        scope::joins_of(joins, start, base, resolver) matches Ok(before) ==> scope::joins_of(
            joins.push(more),
            start,
            base,
            resolver,
        ) == scope::join_step(more, before, resolver),
{
    assert(joins.push(more).drop_last() =~= joins);
}

/// What a SELECT reads is what a query asks for.
pub open spec fn is_selection<R: SchemaResolver, M: ValueMapper>(
    q: SqlQuery,
    s: SqlSelect,
    resolver: R,
    mapper: M,
    table: Seq<char>,
    joined: Joined,
    projected: Projected,
    projection: Seq<ColumnRef>,
    predicate: Option<PredicateModel>,
    options: OptionsModel,
) -> bool {
    &&& options.joins == joined.joins
    &&& options.aggregates == projected.aggregates
    &&& select_list::grouping_of(s.group_by, joined.scope) == Ok::<Seq<ColumnRef>, Refusal>(
        options.group_by,
    )
    &&& select_list::order_of(q.order_by, projected.names, joined.scope) == Ok::<
        Seq<OrderModel>,
        Refusal,
    >(options.order_by)
    &&& select_list::limits_of(q.limit_clause) == Ok::<(Option<usize>, Option<usize>), Refusal>(
        (options.limit, options.offset),
    )
    &&& options.distinct == s.distinct
    &&& options.aggregates.len() == 0 && options.group_by.len() == 0 ==> projection
        == projected.columns
    &&& match (s.selection, predicate) {
        (None, None) => true,
        (Some(e), Some(p)) => select::predicate_of(
            e,
            joined.scope.aliases,
            joined.scope.tables,
            resolver,
            mapper,
        ) == Ok::<PredicateModel, Refusal>(p),
        _ => false,
    }
    &&& options.aggregates.len() > 0 || options.group_by.len() > 0 ==> match (
        s.having,
        options.having,
    ) {
        (None, None) => true,
        (Some(e), Some(h)) => having::having_of(
            e,
            having::HavingScope {
                aggregates: projected.aggregates,
                names: projected.names,
                aliases: joined.scope.aliases,
                tables: joined.scope.tables,
            },
            mapper,
        ) == Ok::<HavingModel, Refusal>(h),
        _ => false,
    }
}

/// Law: a SELECT asks for the columns and aggregates of its projection, of the
/// table of its FROM clause with its joins, where its WHERE clause is met,
/// grouped, kept, sorted, sliced and freed of repetitions as its clauses say,
/// each of them by its own.
pub proof fn law_select_clauses<R: SchemaResolver, M: ValueMapper>(
    q: SqlQuery,
    s: SqlSelect,
    resolver: R,
    mapper: M,
)
    requires
        q.body == SqlSetExpr::Select(s),
    ensures
        select::query_of(q, resolver, mapper) matches Ok(m) ==> {
            &&& s.from@.len() == 1
            &&& m matches QueryModel::Select { table, projection, predicate, options } && exists|
                start: Scope,
                joined: Joined,
                projected: Projected,
            |
                scope::from_clause(s.from@[0], scope::empty_scope(), resolver) == Ok::<
                    (Seq<char>, Scope),
                    Refusal,
                >((table, start)) && #[trigger] scope::joins_of(
                    s.from@[0].joins@,
                    start,
                    table,
                    resolver,
                ) == Ok::<Joined, Refusal>(joined) && #[trigger] select_list::projection_of(
                    s.projection@,
                    joined.scope,
                ) == Ok::<Projected, Refusal>(projected) && #[trigger] is_selection(
                    q,
                    s,
                    resolver,
                    mapper,
                    table,
                    joined,
                    projected,
                    projection,
                    predicate,
                    options,
                )
        },
{
    if let Ok(m) = select::query_of(q, resolver, mapper) {
        let (table, start) = scope::from_clause(
            s.from@[0],
            scope::empty_scope(),
            resolver,
        )->Ok_0;
        let joined = scope::joins_of(s.from@[0].joins@, start, table, resolver)->Ok_0;
        let projected = select_list::projection_of(s.projection@, joined.scope)->Ok_0;
        let read = select::selection_of(s, q.order_by, q.limit_clause, resolver)->Ok_0;
        if let QueryModel::Select { table: t, projection, predicate, options } = m {
            if select::is_simple(read, s.distinct) {
                assert(read.joins =~= Seq::empty());
                assert(read.projected.aggregates =~= Seq::empty());
                assert(read.group_by =~= Seq::empty());
                assert(read.order_by =~= Seq::empty());
            }
            assert(is_selection(
                q,
                s,
                resolver,
                mapper,
                table,
                joined,
                projected,
                projection,
                predicate,
                options,
            ));
        }
    }
}

} // verus!
