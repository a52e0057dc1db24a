//! What statements that change rows and schemas ask for.
use vstd::prelude::*;
use crate::assignment_laws::as_double;
use crate::float::{self, FloatOp};
use crate::plain;
use crate::predicate::StateModel;
use crate::query::{
    AssignmentModel, ColumnRef, PredicateModel, QueryModel, UpdateExprModel,
};
use crate::schema::{self, ColumnModel, IndexModel, TableModel};
use crate::schema_resolver::SchemaResolver;
use crate::sql::condition_laws::binary;
use crate::sql::ddl;
use crate::sql::dml;
use crate::sql::error::Refusal;
use crate::sql::helpers::{self, Aliases, Tables};
use crate::sql::ir::{DdlModel, StatementModel};
use crate::sql::mapper::ValueMapper;
use crate::sql::scope::{self, Scope};
use crate::sql::select;
use crate::sql::syntax::{
    SqlAssignment, SqlAssignmentTarget, SqlBinaryOp, SqlColumnDef, SqlColumnOption,
    SqlCreateIndex, SqlCreateTable, SqlDelete, SqlExpr, SqlIndexColumn, SqlInsert, SqlObjectName,
    SqlObjectType, SqlSelectItem, SqlSetExpr, SqlStatement, SqlTableConstraint, SqlTableObject,
    SqlUpdate,
};
use crate::sql::translate;
use crate::store::RowModel;
use crate::update_expr;
use crate::value::{EngineType, ValueModel};

verus! {

/// Law: in an assignment `+`, `-`, `*` and `/` ask for the sum, the difference,
/// the product and the quotient of what their sides ask for, in that order.
pub proof fn law_arithmetic_signs<M: ValueMapper>(
    left: SqlExpr,
    right: SqlExpr,
    aliases: Aliases,
    tables: Tables,
    mapper: M,
    a: UpdateExprModel,
    b: UpdateExprModel,
)
    requires
        dml::assigned_value(left, aliases, tables, mapper) == Ok::<UpdateExprModel, Refusal>(a),
        dml::assigned_value(right, aliases, tables, mapper) == Ok::<UpdateExprModel, Refusal>(b),
    ensures
        dml::assigned_value(binary(left, SqlBinaryOp::Plus, right), aliases, tables, mapper)
            == Ok::<UpdateExprModel, Refusal>(UpdateExprModel::Add(Box::new(a), Box::new(b))),
        dml::assigned_value(binary(left, SqlBinaryOp::Minus, right), aliases, tables, mapper)
            == Ok::<UpdateExprModel, Refusal>(UpdateExprModel::Subtract(Box::new(a), Box::new(b))),
        dml::assigned_value(binary(left, SqlBinaryOp::Multiply, right), aliases, tables, mapper)
            == Ok::<UpdateExprModel, Refusal>(UpdateExprModel::Multiply(Box::new(a), Box::new(b))),
        dml::assigned_value(binary(left, SqlBinaryOp::Divide, right), aliases, tables, mapper)
            == Ok::<UpdateExprModel, Refusal>(UpdateExprModel::Divide(Box::new(a), Box::new(b))),
{
}

/// The value of an expression of an assignment for a row.
pub open spec fn value_for<F: Fn(FloatOp) -> u64, M: ValueMapper>(
    f: F,
    e: SqlExpr,
    aliases: Aliases,
    tables: Tables,
    mapper: M,
    row: RowModel,
    target: Seq<char>,
    joined: Option<StateModel>,
) -> Option<ValueModel> {
    match dml::assigned_value(e, aliases, tables, mapper) {
        Ok(a) => match update_expr::expr_value(f, row, a, target, joined) {
            Ok(v) => Some(v),
            Err(_) => None,
        },
        Err(_) => None,
    }
}

/// Law: for whole numbers `i` and `j`, `left + right` is the whole part of the
/// double sum of `i` and `j`, `left - right` of `i` less `j`, `left * right` of
/// their product; `left / right` is the double quotient of `i` by `j`, where `j`
/// is not zero.
pub proof fn law_whole_number_arithmetic<F: Fn(FloatOp) -> u64, M: ValueMapper>(
    f: F,
    left: SqlExpr,
    right: SqlExpr,
    aliases: Aliases,
    tables: Tables,
    mapper: M,
    row: RowModel,
    target: Seq<char>,
    joined: Option<StateModel>,
    i: i64,
    j: i64,
)
    requires
        value_for(f, left, aliases, tables, mapper, row, target, joined) == Some(
            ValueModel::Integer(i),
        ),
        value_for(f, right, aliases, tables, mapper, row, target, joined) == Some(
            ValueModel::Integer(j),
        ),
    ensures
        ({
            let x = float::float_value(f, FloatOp::OfInteger(i));
            let y = float::float_value(f, FloatOp::OfInteger(j));
            let whole = |op: FloatOp|
                Some(
                    ValueModel::Integer(
                        float::float_value(
                            f,
                            FloatOp::ToInteger(float::float_value(f, op)),
                        ) as i64,
                    ),
                );
            let gives = |op: SqlBinaryOp|
                value_for(
                    f,
                    binary(left, op, right),
                    aliases,
                    tables,
                    mapper,
                    row,
                    target,
                    joined,
                );
            &&& gives(SqlBinaryOp::Plus) == whole(FloatOp::Sum(x, y))
            &&& gives(SqlBinaryOp::Minus) == whole(FloatOp::Difference(x, y))
            &&& gives(SqlBinaryOp::Multiply) == whole(FloatOp::Product(x, y))
            &&& gives(SqlBinaryOp::Divide) == if j == 0 {
                None
            } else {
                Some(ValueModel::Float(float::float_value(f, FloatOp::Quotient(x, y))))
            }
        }),
{
    let a = dml::assigned_value(left, aliases, tables, mapper)->Ok_0;
    let b = dml::assigned_value(right, aliases, tables, mapper)->Ok_0;
    law_arithmetic_signs(left, right, aliases, tables, mapper, a, b);
    let v = ValueModel::Integer(i);
    let w = ValueModel::Integer(j);
    crate::assignment_laws::law_arithmetic(
        f,
        row,
        a,
        b,
        target,
        joined,
        v,
        w,
        as_double(f, v)->0,
        as_double(f, w)->0,
    );
    crate::assignment_laws::law_division(f, row, a, b, target, joined, v, w);
}

/// Law: in an assignment a literal is the value that it maps to and a name the
/// column that it stands for.
pub proof fn law_assigned_operands<M: ValueMapper>(
    e: SqlExpr,
    aliases: Aliases,
    tables: Tables,
    mapper: M,
)
    ensures
        e is Value ==> match dml::assigned_value(e, aliases, tables, mapper) {
            Ok(a) => mapper.mapped(e) matches Ok(v) && a == UpdateExprModel::Value(v),
            Err(_) => mapper.mapped(e) is Err,
        },
        e is Identifier || e is CompoundIdentifier ==> match dml::assigned_value(
            e,
            aliases,
            tables,
            mapper,
        ) {
            Ok(a) => helpers::local_column(e, aliases, tables) matches Ok(c) && a
                == UpdateExprModel::Column(c),
            Err(_) => helpers::local_column(e, aliases, tables) is Err,
        },
{
}

/// Column `i` is the first of that name.
pub open spec fn is_first(columns: Seq<ColumnModel>, i: int, name: Seq<char>) -> bool {
    &&& 0 <= i < columns.len()
    &&& columns[i].name == name
    &&& forall|j: int| 0 <= j < i ==> columns[j].name != name
}

/// No column has that name.
pub open spec fn is_missing(columns: Seq<ColumnModel>, name: Seq<char>) -> bool {
    forall|i: int| !(#[trigger] is_first(columns, i, name))
}

/// The place that is found for a name is that of the first column of the name.
pub proof fn lemma_position(columns: Seq<ColumnModel>, name: Seq<char>)
    ensures
        match schema::column_position(columns, name) {
            Some(i) => is_first(columns, i, name),
            None => forall|i: int| !(#[trigger] is_first(columns, i, name)),
        },
{
    schema::lemma_column_position(columns, name);
}

/// A name that an assignment can assign to.
pub open spec fn names_target(
    name: SqlObjectName,
    column: Seq<char>,
    aliases: Aliases,
    target: Seq<char>,
) -> bool {
    let parts = name.parts@;
    ||| parts.len() == 1 && parts[0] is Some && parts[0]->0@ == column
    ||| {
        &&& parts.len() == 2
        &&& parts[0] is Some
        &&& parts[1] is Some
        &&& parts[1]->0@ == column
        &&& (if aliases.contains_key(parts[0]->0@) {
            aliases[parts[0]->0@]
        } else {
            parts[0]->0@
        }) == target
    }
}

/// Law: `SET column = expression` assigns what the expression asks for to the
/// column of that name of the table that is updated.
pub proof fn law_assignment<M: ValueMapper>(
    name: SqlObjectName,
    value: SqlExpr,
    column: Seq<char>,
    i: int,
    table: TableModel,
    target: Seq<char>,
    aliases: Aliases,
    tables: Tables,
    mapper: M,
)
    requires
        names_target(name, column, aliases, target),
        is_first(table.columns, i, column),
        table.columns.len() <= usize::MAX,
    ensures
        match dml::assignment_of(
            SqlAssignment { target: SqlAssignmentTarget::ColumnName(name), value },
            table,
            target,
            aliases,
            tables,
            mapper,
        ) {
            Ok(a) => a.column_index == i && dml::assigned_value(value, aliases, tables, mapper)
                == Ok::<UpdateExprModel, Refusal>(a.value),
            Err(_) => dml::assigned_value(value, aliases, tables, mapper) is Err,
        },
{
    lemma_position(table.columns, column);
    if let Some(k) = schema::column_position(table.columns, column) {
        assert(k == i) by {
            assert(table.columns[k].name == column && table.columns[i].name == column);
        }
    } else {
        assert(is_first(table.columns, i, column));
    }
    let parts = name.parts@;
    assert(!(exists|k: int| 0 <= k < parts.len() && #[trigger] parts[k] is None));
}

/// What is collected is made element by element.
pub proof fn lemma_collected<A, B, E>(list: Seq<A>, f: spec_fn(A) -> Result<B, E>)
    ensures
        match plain::collected(list, f) {
            Ok(out) => out.len() == list.len() && forall|k: int|
                0 <= k < list.len() ==> f(#[trigger] list[k]) == Ok::<B, E>(out[k]),
            Err(_) => exists|k: int| 0 <= k < list.len() && f(#[trigger] list[k]) is Err,
        },
    decreases list.len(),
{
    if list.len() > 0 {
        let rest = list.drop_last();
        let n = list.len() - 1;
        lemma_collected(rest, f);
        match plain::collected(rest, f) {
            Err(_) => {
                let k = choose|k: int| 0 <= k < rest.len() && f(#[trigger] rest[k]) is Err;
                assert(list[k] == rest[k]);
            },
            Ok(before) => {
                if let Ok(out) = plain::collected(list, f) {
                    assert forall|k: int| 0 <= k < list.len() implies f(#[trigger] list[k])
                        == Ok::<B, E>(out[k]) by {
                        if k < n {
                            assert(rest[k] == list[k]);
                            assert(out[k] == before[k]);
                        }
                    }
                } else {
                    assert(f(list[n]) is Err);
                }
            },
        }
    }
}

/// What a condition of a statement asks.
pub open spec fn is_condition<R: SchemaResolver, M: ValueMapper>(
    e: Option<SqlExpr>,
    p: Option<PredicateModel>,
    at: Scope,
    resolver: R,
    mapper: M,
) -> bool {
    match (e, p) {
        (None, None) => true,
        (Some(e), Some(p)) => select::predicate_of(e, at.aliases, at.tables, resolver, mapper)
            == Ok::<PredicateModel, Refusal>(p),
        _ => false,
    }
}

/// What a RETURNING clause asks for.
pub open spec fn is_returned(
    items: Option<Vec<SqlSelectItem>>,
    columns: Option<Seq<ColumnRef>>,
    table: Seq<char>,
    at: Scope,
) -> bool {
    match (items, columns) {
        (None, None) => true,
        (Some(items), Some(columns)) => dml::returned(items@, table, at.aliases, at.tables)
            == Ok::<Seq<ColumnRef>, Refusal>(columns),
        _ => false,
    }
}

/// Law: an UPDATE of one table asks for its assignments to the rows of that table
/// that meet its WHERE clause, and for what its RETURNING clause names.
pub proof fn law_update_statement<R: SchemaResolver, M: ValueMapper>(
    u: SqlUpdate,
    resolver: R,
    mapper: M,
    table: Seq<char>,
    at: Scope,
    schema: TableModel,
)
    requires
        scope::from_clause(u.table, scope::empty_scope(), resolver) == Ok::<
            (Seq<char>, Scope),
            Refusal,
        >((table, at)),
        u.table.joins@.len() == 0,
        u.from is None,
        resolver.described(table) == Some(schema),
    ensures
        dml::update_of(u, resolver, mapper) matches Ok(q) ==> {
            &&& q matches QueryModel::Update {
                table: t,
                assignments,
                predicate,
                joins,
                from_tables,
                returning,
            } && t == table && joins.len() == 0 && from_tables.len() == 0 && is_condition(
                u.selection,
                predicate,
                at,
                resolver,
                mapper,
            ) && is_returned(u.returning, returning, table, at) && assignments.len()
                == u.assignments@.len() && forall|k: int|
                0 <= k < assignments.len() ==> dml::assignment_of(
                    u.assignments@[k],
                    schema,
                    table,
                    at.aliases,
                    at.tables,
                    mapper,
                ) == Ok::<AssignmentModel, Refusal>(#[trigger] assignments[k])
        },
{
    let f = |a: SqlAssignment|
        dml::assignment_of(a, schema, table, at.aliases, at.tables, mapper);
    lemma_collected(u.assignments@, f);
    if let Ok(q) = dml::update_of(u, resolver, mapper) {
        let assignments = plain::collected(u.assignments@, f)->Ok_0;
        assert forall|k: int| 0 <= k < assignments.len() implies dml::assignment_of(
            u.assignments@[k],
            schema,
            table,
            at.aliases,
            at.tables,
            mapper,
        ) == Ok::<AssignmentModel, Refusal>(#[trigger] assignments[k]) by {
            assert(f(u.assignments@[k]) == Ok::<AssignmentModel, Refusal>(assignments[k]));
        }
    }
}

/// Law: a DELETE asks that the rows of its table that meet its WHERE clause be
/// taken out, all of them if it has none, and for what its RETURNING clause
/// names.
pub proof fn law_delete_statement<R: SchemaResolver, M: ValueMapper>(
    d: SqlDelete,
    resolver: R,
    mapper: M,
)
    ensures
        dml::delete_of(d, resolver, mapper) matches Ok(q) ==> {
            &&& d.from@.len() == 1
            &&& q matches QueryModel::Delete { table, predicate, returning } && exists|at: Scope|
                scope::from_clause(d.from@[0], scope::empty_scope(), resolver) == Ok::<
                    (Seq<char>, Scope),
                    Refusal,
                >((table, at)) && #[trigger] is_condition(
                    d.selection,
                    predicate,
                    at,
                    resolver,
                    mapper,
                ) && is_returned(d.returning, returning, table, at)
        },
{
    if let Ok(QueryModel::Delete { table, predicate, returning }) = dml::delete_of(
        d,
        resolver,
        mapper,
    ) {
        let at = scope::from_clause(d.from@[0], scope::empty_scope(), resolver)->Ok_0.1;
        assert(is_condition(d.selection, predicate, at, resolver, mapper));
    }
}

/// Law: RETURNING of a column of the table that is changed gives that column,
/// `*` all its columns from the first to the last; one item after the other.
pub proof fn law_returning_items(
    e: SqlExpr,
    c: ColumnRef,
    table: Seq<char>,
    aliases: Aliases,
    tables: Tables,
)
    requires
        helpers::local_column(e, aliases, tables) == Ok::<ColumnRef, Refusal>(c),
        tables.contains_key(table),
        tables[table].columns.len() <= usize::MAX,
    ensures
        ({
            let n = tables[table].columns.len();
            let one = dml::returned(seq![SqlSelectItem::UnnamedExpr(e)], table, aliases, tables);
            let all = dml::returned(seq![SqlSelectItem::Wildcard], table, aliases, tables);
            &&& c.table == table ==> one == Ok::<Seq<ColumnRef>, Refusal>(seq![c])
            &&& c.table != table ==> one is Err
            &&& all is Ok
            &&& all->Ok_0.len() == n
            &&& forall|k: int|
                0 <= k < n ==> (#[trigger] all->Ok_0[k]).table == table && all->Ok_0[k].column_index
                    == k
        }),
{
    let f = |item: SqlSelectItem|
        dml::returned_item(item, table, tables[table].columns.len(), aliases, tables);
    let items = seq![SqlSelectItem::UnnamedExpr(e)];
    let star = seq![SqlSelectItem::Wildcard];
    reveal_with_fuel(plain::collected, 2);
    assert(items.drop_last() =~= Seq::empty());
    assert(star.drop_last() =~= Seq::empty());
    assert(items.last() == SqlSelectItem::UnnamedExpr(e));
    assert(star.last() == SqlSelectItem::Wildcard);
    lemma_flatten_one(seq![c]);
    lemma_flatten_one(
        crate::sql::select_list::columns_of(table, tables[table].columns.len()),
    );
    if c.table == table {
        assert(plain::collected(items, f)->Ok_0 =~= seq![seq![c]]);
    }
    assert(plain::collected(star, f)->Ok_0 =~= seq![
        crate::sql::select_list::columns_of(table, tables[table].columns.len()),
    ]);
}

proof fn lemma_flatten_one<A>(list: Seq<A>)
    ensures
        seq![list].flatten() == list,
{
    reveal_with_fuel(Seq::<_>::flatten, 2);
    assert(seq![list].drop_first() =~= Seq::empty());
    assert(list + Seq::<A>::empty() =~= list);
}

/// The last of the names that is that of column `c` stands at `k`.
pub open spec fn is_last_named(
    names: Seq<Seq<char>>,
    columns: Seq<ColumnModel>,
    n: int,
    c: int,
    k: int,
) -> bool {
    &&& 0 <= k < n
    &&& is_first(columns, c, names[k])
    &&& forall|j: int| k < j < n ==> !is_first(columns, c, names[j])
}

proof fn lemma_inserted<M: ValueMapper>(
    exprs: Seq<SqlExpr>,
    names: Seq<Seq<char>>,
    columns: Seq<ColumnModel>,
    mapper: M,
)
    requires
        exprs.len() <= names.len(),
    ensures
        dml::inserted(exprs, names, columns, mapper) matches Ok(row) ==> {
            &&& row.len() == columns.len()
            &&& forall|c: int, k: int| #[trigger]
                is_last_named(names, columns, exprs.len() as int, c, k) ==> mapper.mapped(exprs[k])
                    == Ok::<ValueModel, Refusal>(row[c])
            &&& forall|c: int|
                0 <= c < columns.len() && (forall|k: int|
                    0 <= k < exprs.len() ==> !is_first(columns, c, #[trigger] names[k]))
                    ==> #[trigger] row[c] is Null
        },
        dml::inserted(exprs, names, columns, mapper) is Err ==> exists|k: int|
            0 <= k < exprs.len() && (is_missing(columns, names[k]) || mapper.mapped(
                #[trigger] exprs[k],
            ) is Err),
    decreases exprs.len(),
{
    if exprs.len() > 0 {
        let rest = exprs.drop_last();
        let n = exprs.len() - 1;
        lemma_inserted(rest, names, columns, mapper);
        lemma_position(columns, names[n]);
        match dml::inserted(rest, names, columns, mapper) {
            Err(_) => {
                let k = choose|k: int|
                    0 <= k < rest.len() && (is_missing(columns, names[k]) || mapper.mapped(
                        #[trigger] rest[k],
                    ) is Err);
                assert(rest[k] == exprs[k]);
            },
            Ok(before) => {
                if let Ok(row) = dml::inserted(exprs, names, columns, mapper) {
                    let i = schema::column_position(columns, names[n])->0;
                    assert forall|c: int, k: int| #[trigger]
                        is_last_named(names, columns, exprs.len() as int, c, k) implies mapper.mapped(
                    exprs[k]) == Ok::<ValueModel, Refusal>(row[c]) by {
                        if k < n {
                            assert(is_last_named(names, columns, rest.len() as int, c, k));
                            assert(!is_first(columns, c, names[n]));
                            assert(rest[k] == exprs[k]);
                            assert(c != i);
                        } else {
                            assert(columns[c].name == columns[i].name);
                            assert(c == i);
                        }
                    }
                    assert forall|c: int|
                        0 <= c < columns.len() && (forall|k: int|
                            0 <= k < exprs.len() ==> !is_first(
                                columns,
                                c,
                                #[trigger] names[k],
                            )) implies #[trigger] row[c] is Null by {
                        assert(!is_first(columns, c, names[n]));
                        assert(before[c] is Null);
                    }
                } else {
                    assert(is_missing(columns, names[n])
                        || mapper.mapped(exprs[n]) is Err);
                }
            },
        }
    }
}

/// The names of the columns that an INSERT fills: those that it gives, or else all
/// of the table, in order.
pub open spec fn names_filled(i: SqlInsert, columns: Seq<ColumnModel>) -> Seq<Seq<char>> {
    if i.columns@.len() == 0 {
        Seq::new(columns.len(), |k: int| columns[k].name)
    } else {
        Seq::new(i.columns@.len(), |k: int| i.columns@[k]@)
    }
}

/// Law: an INSERT puts into each column that it names the value of the literal
/// that stands at the same place, and NULL into the others. Without names it
/// goes by the columns of the table, in order. It is refused where the numbers of
/// names and literals differ, a name is that of no column, or a literal has no
/// value.
pub proof fn law_insert_statement<R: SchemaResolver, M: ValueMapper>(
    i: SqlInsert,
    name: String,
    rows: Vec<Vec<SqlExpr>>,
    schema: TableModel,
    resolver: R,
    mapper: M,
)
    requires
        i.table == SqlTableObject::TableName(name),
        resolver.described(name@) == Some(schema),
        i.source matches Some(source) && source.body == SqlSetExpr::Values(rows),
        i.assignments@.len() == 0 && i.on is None && i.returning is None,
        rows@.len() == 1,
    ensures
        ({
            let exprs = rows@[0]@;
            let names = names_filled(i, schema.columns);
            match dml::insert_of(i, resolver, mapper) {
                Ok(q) => q matches QueryModel::Insert { table, row } && table == name@
                    && exprs.len() == names.len() && row.len() == schema.columns.len() && (forall|
                    c: int,
                    k: int,
                | #[trigger]
                    is_last_named(names, schema.columns, exprs.len() as int, c, k)
                        ==> mapper.mapped(exprs[k]) == Ok::<ValueModel, Refusal>(row[c])) && (
                forall|c: int|
                    0 <= c < row.len() && (forall|k: int|
                        0 <= k < exprs.len() ==> !is_first(
                            schema.columns,
                            c,
                            #[trigger] names[k],
                        )) ==> #[trigger] row[c] is Null),
                Err(_) => exprs.len() != names.len() || exists|k: int|
                    0 <= k < exprs.len() && (is_missing(schema.columns, names[k]) || mapper.mapped(
                        #[trigger] exprs[k],
                    ) is Err),
            }
        }),
{
    let exprs = rows@[0]@;
    let columns = schema.columns;
    let names = names_filled(i, columns);
    if i.columns@.len() == 0 {
        assert(dml::column_names(columns) =~= names);
    } else {
        assert(i.columns.deep_view() =~= names);
    }
    if exprs.len() == names.len() {
        lemma_inserted(exprs, names, columns, mapper);
    }
}

/// Law: a CREATE TABLE makes a table of its name with its columns, each of its
/// name and the type of the engine that its SQL type is stored as, in order.
pub proof fn law_created_columns(c: SqlCreateTable)
    ensures
        ddl::table_of(c) matches Ok(t) ==> {
            &&& t.name == c.name@
            &&& t.columns.len() == c.columns@.len()
            &&& forall|k: int|
                0 <= k < c.columns@.len() ==> (#[trigger] t.columns[k]).name == c.columns@[k].name@
                    && ddl::engine_type_of(c.columns@[k].data_type@) == Ok::<EngineType, Refusal>(
                    t.columns[k].data_type,
                )
        },
{
    let f = |d: SqlColumnDef| ddl::column_of(d);
    lemma_collected(c.columns@, f);
    if let Ok(t) = ddl::table_of(c) {
        assert forall|k: int| 0 <= k < c.columns@.len() implies (#[trigger] t.columns[k]).name
            == c.columns@[k].name@ && ddl::engine_type_of(c.columns@[k].data_type@) == Ok::<
            EngineType,
            Refusal,
        >(t.columns[k].data_type) by {
            assert(f(c.columns@[k]) == Ok::<ColumnModel, Refusal>(t.columns[k]));
        }
    }
}

/// The column is declared to be the primary key, once.
pub open spec fn is_marked(d: SqlColumnDef) -> bool {
    exists|i: int| 0 <= i < d.options@.len() && #[trigger] d.options@[i]
        == SqlColumnOption::PrimaryKey
}

proof fn lemma_key_marks(options: Seq<SqlColumnOption>)
    ensures
        ddl::key_marks(options) == 0 <==> forall|i: int|
            0 <= i < options.len() ==> #[trigger] options[i] != SqlColumnOption::PrimaryKey,
    decreases options.len(),
{
    if options.len() > 0 {
        let rest = options.drop_last();
        lemma_key_marks(rest);
        if ddl::key_marks(options) == 0 {
            assert forall|i: int| 0 <= i < options.len() implies #[trigger] options[i]
                != SqlColumnOption::PrimaryKey by {
                if i < rest.len() {
                    assert(rest[i] == options[i]);
                }
            }
        } else if ddl::key_marks(rest) > 0 {
            let i = choose|i: int|
                0 <= i < rest.len() && #[trigger] rest[i] == SqlColumnOption::PrimaryKey;
            assert(options[i] == SqlColumnOption::PrimaryKey);
        } else {
            assert(options[options.len() - 1] == SqlColumnOption::PrimaryKey);
        }
    }
}

/// Where no column is declared to be the primary key none is marked.
pub proof fn lemma_unmarked(columns: Seq<SqlColumnDef>)
    requires
        forall|k: int| 0 <= k < columns.len() ==> !is_marked(#[trigger] columns[k]),
    ensures
        ddl::marked_keys(columns) == Seq::<Seq<char>>::empty(),
    decreases columns.len(),
{
    if columns.len() > 0 {
        let rest = columns.drop_last();
        assert forall|k: int| 0 <= k < rest.len() implies !is_marked(#[trigger] rest[k]) by {
            assert(rest[k] == columns[k]);
        }
        lemma_unmarked(rest);
        assert(!is_marked(columns[columns.len() - 1]));
        lemma_key_marks(columns.last().options@);
        assert(ddl::marked_keys(columns) =~= Seq::empty());
    }
}

proof fn lemma_marked(columns: Seq<SqlColumnDef>)
    ensures
        forall|name: Seq<char>| #[trigger]
            ddl::marked_keys(columns).contains(name) <==> exists|k: int|
                0 <= k < columns.len() && is_marked(#[trigger] columns[k]) && columns[k].name@
                    == name,
    decreases columns.len(),
{
    if columns.len() > 0 {
        let rest = columns.drop_last();
        let n = columns.len() - 1;
        lemma_marked(rest);
        lemma_key_marks(columns.last().options@);
        let before = ddl::marked_keys(rest);
        let after = ddl::marked_keys(columns);
        assert forall|name: Seq<char>| #[trigger]
            after.contains(name) <==> exists|k: int|
                0 <= k < columns.len() && is_marked(#[trigger] columns[k]) && columns[k].name@
                    == name by {
            if after.contains(name) {
                let i = choose|i: int| 0 <= i < after.len() && after[i] == name;
                if i < before.len() {
                    assert(before[i] == name);
                    assert(before.contains(name));
                    let k = choose|k: int|
                        0 <= k < rest.len() && is_marked(#[trigger] rest[k]) && rest[k].name@
                            == name;
                    assert(columns[k] == rest[k]);
                } else {
                    assert(is_marked(columns[n]) && columns[n].name@ == name);
                }
            }
            if exists|k: int|
                0 <= k < columns.len() && is_marked(#[trigger] columns[k]) && columns[k].name@
                    == name {
                let k = choose|k: int|
                    0 <= k < columns.len() && is_marked(#[trigger] columns[k]) && columns[k].name@
                        == name;
                if k < n {
                    assert(rest[k] == columns[k]);
                    assert(before.contains(name));
                    let i = choose|i: int| 0 <= i < before.len() && before[i] == name;
                    assert(after[i] == name);
                } else {
                    assert(after[before.len() as int] == name);
                }
            }
        }
    }
}

proof fn lemma_placed(names: Seq<Seq<char>>, columns: Seq<ColumnModel>)
    requires
        columns.len() <= usize::MAX,
    ensures
        forall|i: usize| #[trigger]
            ddl::placed(names, columns).contains(i) <==> exists|k: int|
                0 <= k < names.len() && is_first(columns, i as int, #[trigger] names[k]),
    decreases names.len(),
{
    if names.len() > 0 {
        let rest = names.drop_last();
        let n = names.len() - 1;
        lemma_placed(rest, columns);
        lemma_position(columns, names[n]);
        let before = ddl::placed(rest, columns);
        let after = ddl::placed(names, columns);
        assert forall|i: usize| #[trigger]
            after.contains(i) <==> exists|k: int|
                0 <= k < names.len() && is_first(columns, i as int, #[trigger] names[k]) by {
            if after.contains(i) {
                let j = choose|j: int| 0 <= j < after.len() && after[j] == i;
                if j < before.len() {
                    assert(before[j] == i);
                    assert(before.contains(i));
                    let k = choose|k: int|
                        0 <= k < rest.len() && is_first(columns, i as int, #[trigger] rest[k]);
                    assert(names[k] == rest[k]);
                } else {
                    assert(is_first(columns, i as int, names[n]));
                }
            }
            if exists|k: int|
                0 <= k < names.len() && is_first(columns, i as int, #[trigger] names[k]) {
                let k = choose|k: int|
                    0 <= k < names.len() && is_first(columns, i as int, #[trigger] names[k]);
                if k < n {
                    assert(rest[k] == names[k]);
                    assert(before.contains(i));
                    let j = choose|j: int| 0 <= j < before.len() && before[j] == i;
                    assert(after[j] == i);
                } else {
                    let p = schema::column_position(columns, names[n])->0;
                    assert(columns[p].name == columns[i as int].name);
                    assert(p == i);
                    assert(after[before.len() as int] == i);
                }
            }
        }
    }
}

/// Law: without constraints, the primary key of a new table is made of the
/// columns that are declared to be it, or of the first column if none is.
pub proof fn law_created_primary_key(c: SqlCreateTable)
    requires
        c.constraints@.len() == 0,
        c.columns@.len() <= usize::MAX,
    ensures
        ddl::table_of(c) matches Ok(t) ==> if forall|k: int|
            0 <= k < c.columns@.len() ==> !is_marked(#[trigger] c.columns@[k]) {
            t.primary_key == seq![0usize]
        } else {
            forall|i: usize| #[trigger]
                t.primary_key.contains(i) <==> exists|k: int|
                    0 <= k < c.columns@.len() && is_marked(#[trigger] c.columns@[k]) && is_first(
                        t.columns,
                        i as int,
                        c.columns@[k].name@,
                    )
        },
{
    if let Ok(t) = ddl::table_of(c) {
        law_created_columns(c);
        let none = plain::collected(
            c.constraints@,
            |d: SqlTableConstraint| ddl::constraint_keys(d),
        )->Ok_0;
        assert(none =~= Seq::empty());
        reveal_with_fuel(Seq::<_>::flatten, 1);
        let more = ddl::constrained_keys(c.constraints@)->Ok_0;
        assert(more =~= Seq::empty());
        let marked = ddl::marked_keys(c.columns@);
        let names = marked + more;
        assert(names =~= marked);
        if forall|k: int| 0 <= k < c.columns@.len() ==> !is_marked(#[trigger] c.columns@[k]) {
            lemma_unmarked(c.columns@);
        } else {
            lemma_marked(c.columns@);
            let k = choose|k: int|
                0 <= k < c.columns@.len() && is_marked(#[trigger] c.columns@[k]);
            assert(marked.contains(c.columns@[k].name@));
            lemma_placed(names, t.columns);
            assert forall|i: usize| #[trigger]
                t.primary_key.contains(i) <==> exists|k: int|
                    0 <= k < c.columns@.len() && is_marked(#[trigger] c.columns@[k]) && is_first(
                        t.columns,
                        i as int,
                        c.columns@[k].name@,
                    ) by {
                if t.primary_key.contains(i) {
                    let j = choose|j: int|
                        0 <= j < names.len() && is_first(t.columns, i as int, #[trigger] names[j]);
                    assert(marked.contains(names[j]));
                    let k = choose|k: int|
                        0 <= k < c.columns@.len() && is_marked(#[trigger] c.columns@[k])
                            && c.columns@[k].name@ == names[j];
                    assert(is_marked(c.columns@[k]));
                }
                if exists|k: int|
                    0 <= k < c.columns@.len() && is_marked(#[trigger] c.columns@[k]) && is_first(
                        t.columns,
                        i as int,
                        c.columns@[k].name@,
                    ) {
                    let k = choose|k: int|
                        0 <= k < c.columns@.len() && is_marked(#[trigger] c.columns@[k])
                            && is_first(t.columns, i as int, c.columns@[k].name@);
                    assert(marked.contains(c.columns@[k].name@));
                    let j = choose|j: int| 0 <= j < marked.len() && marked[j]
                        == c.columns@[k].name@;
                    assert(names[j] == c.columns@[k].name@);
                }
            }
        }
    }
}

/// The first word of the debug text of a type.
pub open spec fn begins_with_word(debug: Seq<char>, word: Seq<char>) -> bool {
    &&& debug.len() >= word.len()
    &&& debug.take(word.len() as int) == word
    &&& forall|i: int| 0 <= i < word.len() ==> word[i] != '(' && word[i] != ' '
    &&& debug.len() == word.len() || debug[word.len() as int] == '(' || debug[word.len() as int]
        == ' '
}

proof fn lemma_leading_name(debug: Seq<char>, word: Seq<char>)
    requires
        begins_with_word(debug, word),
    ensures
        ddl::leading_name(debug) == word,
{
    lemma_name_end(debug, word.len() as int, word);
}

proof fn lemma_name_end(debug: Seq<char>, n: int, word: Seq<char>)
    requires
        0 <= n <= debug.len(),
        n == word.len(),
        forall|i: int| 0 <= i < n ==> #[trigger] debug[i] == word[i] && word[i] != '(' && word[i]
            != ' ',
        n == debug.len() || debug[n] == '(' || debug[n] == ' ',
    ensures
        ddl::name_end(debug) == n,
    decreases n,
{
    if n > 0 {
        assert(debug[0] == word[0]);
        let rest = debug.drop_first();
        let fewer = word.drop_first();
        assert forall|i: int| 0 <= i < n - 1 implies #[trigger] rest[i] == fewer[i] && fewer[i]
            != '(' && fewer[i] != ' ' by {
            assert(debug[i + 1] == word[i + 1]);
        }
        lemma_name_end(rest, n - 1, fewer);
    }
}

/// The types that are stored as whole numbers.
pub open spec fn is_whole_number_type(word: Seq<char>) -> bool {
    ||| word == "Int"@
    ||| word == "Int2"@
    ||| word == "Int4"@
    ||| word == "Int8"@
    ||| word == "Integer"@
    ||| word == "SmallInt"@
    ||| word == "BigInt"@
    ||| word == "MediumInt"@
    ||| word == "TinyInt"@
    ||| word == "Unsigned"@
    ||| word == "UnsignedInteger"@
    ||| word == "Signed"@
    ||| word == "SignedInteger"@
    ||| word == "IntUnsigned"@
    ||| word == "Int4Unsigned"@
    ||| word == "BigIntUnsigned"@
    ||| word == "MediumIntUnsigned"@
    ||| word == "TinyIntUnsigned"@
    ||| word == "UInt8"@
    ||| word == "UInt16"@
    ||| word == "UInt32"@
    ||| word == "UInt64"@
    ||| word == "UInt128"@
    ||| word == "UInt256"@
    ||| word == "UBigInt"@
    ||| word == "UHugeInt"@
    ||| word == "SmallIntUnsigned"@
    ||| word == "UTinyInt"@
    ||| word == "Int2Unsigned"@
}

/// The types that are stored as doubles.
pub open spec fn is_double_type(word: Seq<char>) -> bool {
    ||| word == "Float"@
    ||| word == "FloatUnsigned"@
    ||| word == "Float4"@
    ||| word == "Float32"@
    ||| word == "Float64"@
}

/// The types that are stored as texts.
pub open spec fn is_text_type(word: Seq<char>) -> bool {
    ||| word == "Char"@
    ||| word == "Character"@
    ||| word == "CharacterVarying"@
    ||| word == "CharVarying"@
    ||| word == "Varchar"@
    ||| word == "Nvarchar"@
    ||| word == "String"@
    ||| word == "Text"@
    ||| word == "TinyText"@
    ||| word == "MediumText"@
    ||| word == "LongText"@
    ||| word == "JSON"@
    ||| word == "Clob"@
    ||| word == "CharacterLargeObject"@
    ||| word == "CharLargeObject"@
}

/// The types that are stored as bytes.
pub open spec fn is_bytes_type(word: Seq<char>) -> bool {
    ||| word == "Binary"@
    ||| word == "Varbinary"@
    ||| word == "Blob"@
    ||| word == "TinyBlob"@
    ||| word == "MediumBlob"@
    ||| word == "LongBlob"@
    ||| word == "Bytes"@
}

/// Law: a type is stored as its name says, whatever follows the name: the names of
/// whole numbers as whole numbers, those of doubles, texts and bytes as such. A
/// type of another name is refused.
pub proof fn law_type_names(debug: Seq<char>, word: Seq<char>)
    requires
        begins_with_word(debug, word),
    ensures
        match ddl::engine_type_of(debug) {
            Ok(EngineType::Integer) => is_whole_number_type(word),
            Ok(EngineType::Float) => is_double_type(word) && !is_whole_number_type(word),
            Ok(EngineType::Text) => is_text_type(word) && !is_whole_number_type(word)
                && !is_double_type(word),
            Ok(EngineType::Blob) => is_bytes_type(word) && !is_whole_number_type(word)
                && !is_double_type(word) && !is_text_type(word),
            Ok(EngineType::Uuid) => false,
            Err(_) => !is_whole_number_type(word) && !is_double_type(word) && !is_text_type(word)
                && !is_bytes_type(word),
        },
{
    lemma_leading_name(debug, word);
}

/// Law: a CREATE INDEX makes an index of its name over the columns that it names,
/// in order, unique if it says so; it is refused where a name is that of no
/// column of the table.
pub proof fn law_created_index<R: SchemaResolver>(
    c: SqlCreateIndex,
    name: String,
    table: TableModel,
    resolver: R,
)
    requires
        c.name == Some(name),
        resolver.described(c.table_name@) == Some(table),
        table.columns.len() <= usize::MAX,
        c.columns@.len() > 0,
        forall|k: int| 0 <= k < c.columns@.len() ==> #[trigger] c.columns@[k] is Identifier,
    ensures
        match ddl::index_of(c, resolver) {
            Ok(index) => index.name == name@ && index.table_name == c.table_name@ && index.unique
                == c.unique && index.column_indices.len() == c.columns@.len() && forall|k: int|
                0 <= k < c.columns@.len() ==> is_first(
                    table.columns,
                    #[trigger] index.column_indices[k] as int,
                    c.columns@[k]->Identifier_0@,
                ),
            Err(_) => exists|k: int|
                0 <= k < c.columns@.len() && is_missing(
                    table.columns,
                    (#[trigger] c.columns@[k])->Identifier_0@,
                ),
        },
{
    let f = |column: SqlIndexColumn| ddl::index_place(column, table.columns);
    lemma_collected(c.columns@, f);
    assert forall|k: int| 0 <= k < c.columns@.len() implies match f(#[trigger] c.columns@[k]) {
        Ok(i) => is_first(table.columns, i as int, c.columns@[k]->Identifier_0@),
        Err(_) => is_missing(table.columns, c.columns@[k]->Identifier_0@),
    } by {
        lemma_position(table.columns, c.columns@[k]->Identifier_0@);
    }
    match plain::collected(c.columns@, f) {
        Ok(places) => {
            assert forall|k: int| 0 <= k < c.columns@.len() implies is_first(
                table.columns,
                #[trigger] places[k] as int,
                c.columns@[k]->Identifier_0@,
            ) by {
                assert(f(c.columns@[k]) == Ok::<usize, Refusal>(places[k]));
            }
        },
        Err(_) => {
            let k = choose|k: int| 0 <= k < c.columns@.len() && f(#[trigger] c.columns@[k]) is Err;
            assert(is_missing(table.columns, c.columns@[k]->Identifier_0@));
        },
    }
}

/// Law: a statement is what its clauses ask for: a query or a change of rows
/// where it is one, a new table or index, or one that goes, where it says so.
pub proof fn law_statements<R: SchemaResolver, M: ValueMapper>(
    stmt: SqlStatement,
    resolver: R,
    mapper: M,
)
    ensures
        translate::statement_of(stmt, resolver, mapper) matches Ok(s) ==> match stmt {
            SqlStatement::Query(q) => s matches StatementModel::Query(m) && m is Select
                && select::query_of(q, resolver, mapper) == Ok::<QueryModel, Refusal>(m),
            SqlStatement::Insert(i) => s matches StatementModel::Query(m) && m is Insert
                && dml::insert_of(i, resolver, mapper) == Ok::<QueryModel, Refusal>(m),
            SqlStatement::Update(u) => s matches StatementModel::Query(m) && m is Update
                && dml::update_of(u, resolver, mapper) == Ok::<QueryModel, Refusal>(m),
            SqlStatement::Delete(d) => s matches StatementModel::Query(m) && m is Delete
                && dml::delete_of(d, resolver, mapper) == Ok::<QueryModel, Refusal>(m),
            SqlStatement::CreateTable(c) => s matches StatementModel::Ddl(
                DdlModel::CreateTable(t, may_exist),
            ) && may_exist == c.if_not_exists && ddl::table_of(c) == Ok::<TableModel, Refusal>(t),
            SqlStatement::CreateIndex(c) => s matches StatementModel::Ddl(
                DdlModel::CreateIndex(index),
            ) && ddl::index_of(c, resolver) == Ok::<IndexModel, Refusal>(index),
            SqlStatement::Drop { object_type, names, if_exists } => names@.len() == 1 && match s {
                StatementModel::Ddl(DdlModel::DropTable(name, may_miss)) => object_type
                    == SqlObjectType::Table && name == names@[0]@ && may_miss == if_exists,
                StatementModel::Ddl(DdlModel::DropIndex(name)) => object_type
                    == SqlObjectType::Index && name == names@[0]@,
                _ => false,
            },
            SqlStatement::Other => false,
        },
{
    reveal_with_fuel(translate::statement_query, 1);
}

} // verus!
