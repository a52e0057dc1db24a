//! Which statements are understood.
use vstd::prelude::*;
use crate::plain;
use crate::plan;
use crate::query::{self, OptionsModel, QueryModel};
use crate::schema::{ColumnModel, TableModel};
use crate::schema_resolver::SchemaResolver;
use crate::sql::change_laws::{self, is_first, is_marked, is_missing};
use crate::sql::convert;
use crate::sql::ddl;
use crate::sql::dml::{self, Sources};
use crate::sql::engine_adapter::DbEngineAdapter;
use crate::sql::error::Refusal;
use crate::sql::having::{self, HavingScope};
use crate::sql::ir::{DdlModel, StatementModel};
use crate::sql::mapper::ValueMapper;
use crate::sql::scope::{self, Joined, Scope};
use crate::sql::select;
use crate::sql::select_list::{self, Projected};
use crate::sql::syntax::{
    SqlAssignment, SqlColumnDef, SqlCreateTable, SqlDelete, SqlExpr, SqlIndexColumn,
    SqlObjectType, SqlQuery, SqlSelect, SqlSelectItem, SqlSetExpr, SqlStatement,
    SqlTableConstraint, SqlTableWithJoins, SqlUpdate,
};
use crate::sql::tokens::{self, TokenModel};
use crate::sql::translate;
use crate::sql::translator;
use crate::store_helpers;

verus! {

/// A WHERE clause is understood, if there is one.
pub open spec fn has_condition<R: SchemaResolver, M: ValueMapper>(
    e: Option<SqlExpr>,
    at: Scope,
    resolver: R,
    mapper: M,
) -> bool {
    e matches Some(e) ==> select::predicate_of(e, at.aliases, at.tables, resolver, mapper) is Ok
}

/// A RETURNING clause is understood, if there is one.
pub open spec fn has_returned(
    items: Option<Vec<SqlSelectItem>>,
    table: Seq<char>,
    at: Scope,
) -> bool {
    items matches Some(items) ==> dml::returned(items@, table, at.aliases, at.tables) is Ok
}

/// All assignments of an UPDATE are understood.
pub open spec fn has_assignments<M: ValueMapper>(
    list: Seq<SqlAssignment>,
    schema: TableModel,
    table: Seq<char>,
    at: Scope,
    mapper: M,
) -> bool {
    forall|k: int|
        0 <= k < list.len() ==> dml::assignment_of(
            #[trigger] list[k],
            schema,
            table,
            at.aliases,
            at.tables,
            mapper,
        ) is Ok
}

/// Law: an UPDATE without LIMIT is understood exactly where its tables and all
/// its clauses are. It is then about its first table, joined with the tables of
/// its joins and beside those of its FROM clause.
pub proof fn law_update_is_understood<R: SchemaResolver, M: ValueMapper>(
    u: SqlUpdate,
    resolver: R,
    mapper: M,
)
    requires
        u.limit is None,
    ensures
        match dml::update_sources(u, resolver) {
            Err(_) => dml::update_of(u, resolver, mapper) is Err,
            Ok((table, s)) => {
                &&& dml::update_of(u, resolver, mapper) is Ok <==> (resolver.described(
                    table,
                ) matches Some(schema) && has_assignments(
                    u.assignments@,
                    schema,
                    table,
                    s.scope,
                    mapper,
                )) && has_condition(u.selection, s.scope, resolver, mapper) && has_returned(
                    u.returning,
                    table,
                    s.scope,
                )
                &&& dml::update_of(u, resolver, mapper) matches Ok(q) ==> (
                q matches QueryModel::Update { table: t, joins, from_tables, .. } && t == table
                    && joins == s.joins && from_tables == s.from_tables)
            },
        },
{
    if let Ok((table, s)) = dml::update_sources(u, resolver) {
        if let Some(schema) = resolver.described(table) {
            let f = |a: SqlAssignment|
                dml::assignment_of(a, schema, table, s.scope.aliases, s.scope.tables, mapper);
            change_laws::lemma_collected(u.assignments@, f);
            if plain::collected(u.assignments@, f) is Ok {
                assert forall|k: int| 0 <= k < u.assignments@.len() implies dml::assignment_of(
                    #[trigger] u.assignments@[k],
                    schema,
                    table,
                    s.scope.aliases,
                    s.scope.tables,
                    mapper,
                ) is Ok by {
                    assert(f(u.assignments@[k]) is Ok);
                }
            } else {
                let k = choose|k: int|
                    0 <= k < u.assignments@.len() && f(#[trigger] u.assignments@[k]) is Err;
                assert(dml::assignment_of(
                    u.assignments@[k],
                    schema,
                    table,
                    s.scope.aliases,
                    s.scope.tables,
                    mapper,
                ) is Err);
            }
        }
    }
}

/// Law: an UPDATE without a FROM clause has no tables beside its own.
pub proof fn law_update_without_from<R: SchemaResolver>(u: SqlUpdate, resolver: R)
    requires
        u.from is None,
    ensures
        dml::update_sources(u, resolver) matches Ok((_, s)) ==> s.from_tables.len() == 0,
{
}

/// Law: one more item of a FROM clause of an UPDATE puts its table after those
/// that are beside the first table already, and its joins after the others.
pub proof fn law_update_from<R: SchemaResolver>(
    items: Seq<SqlTableWithJoins>,
    item: SqlTableWithJoins,
    start: Sources,
    resolver: R,
)
    ensures
        dml::sources_of(Seq::empty(), start, resolver) == Ok::<Sources, Refusal>(start),
        match dml::sources_of(items.push(item), start, resolver) {
            Ok(after) => dml::sources_of(items, start, resolver) matches Ok(before) && (
            scope::from_clause(item, before.scope, resolver) matches Ok((table, at))
                && after.from_tables.len() == before.from_tables.len() + 1
                && after.from_tables.last() == table && (forall|k: int|
                0 <= k < before.from_tables.len() ==> #[trigger] after.from_tables[k]
                    == before.from_tables[k]) && (scope::joins_of(
                item.joins@,
                at,
                table,
                resolver,
            ) matches Ok(joined) && after.scope == joined.scope && after.joins == before.joins
                + joined.joins)),
            Err(_) => dml::sources_of(items, start, resolver) matches Ok(before) ==> (
            scope::from_clause(item, before.scope, resolver) matches Ok((table, at))
                ==> scope::joins_of(item.joins@, at, table, resolver) is Err),
        },
{
    assert(items.push(item).drop_last() =~= items);
}

/// Law: a DELETE from one table without joins, USING, ORDER BY and LIMIT is
/// understood exactly where its table and its clauses are.
pub proof fn law_delete_is_understood<R: SchemaResolver, M: ValueMapper>(
    d: SqlDelete,
    resolver: R,
    mapper: M,
)
    requires
        d.tables@.len() == 0,
        d.using is None,
        d.order_by@.len() == 0,
        d.limit is None,
        d.from@.len() == 1,
        d.from@[0].joins@.len() == 0,
    ensures
        dml::delete_of(d, resolver, mapper) is Ok <==> (scope::from_clause(
            d.from@[0],
            scope::empty_scope(),
            resolver,
        ) matches Ok((table, at)) && has_condition(d.selection, at, resolver, mapper)
            && has_returned(d.returning, table, at)),
{
}

/// The tables, the projection, the grouping, the order and the bounds of a SELECT
/// are understood.
pub open spec fn has_parts<R: SchemaResolver>(q: SqlQuery, s: SqlSelect, resolver: R) -> bool {
    scope::from_clause(s.from@[0], scope::empty_scope(), resolver) matches Ok((table, start)) && (
    scope::joins_of(s.from@[0].joins@, start, table, resolver) matches Ok(joined) && (
    select_list::projection_of(s.projection@, joined.scope) matches Ok(projected)
        && select_list::grouping_of(s.group_by, joined.scope) is Ok && select_list::order_of(
        q.order_by,
        projected.names,
        joined.scope,
    ) is Ok && select_list::limits_of(q.limit_clause) is Ok))
}

/// The table of a SELECT.
pub open spec fn table_of<R: SchemaResolver>(s: SqlSelect, resolver: R) -> Seq<char> {
    scope::from_clause(s.from@[0], scope::empty_scope(), resolver)->Ok_0.0
}

/// The joins of a SELECT, with its tables.
pub open spec fn joined_of<R: SchemaResolver>(s: SqlSelect, resolver: R) -> Joined {
    scope::joins_of(
        s.from@[0].joins@,
        scope::from_clause(s.from@[0], scope::empty_scope(), resolver)->Ok_0.1,
        table_of(s, resolver),
        resolver,
    )->Ok_0
}

/// The projection of a SELECT.
pub open spec fn projected_of<R: SchemaResolver>(s: SqlSelect, resolver: R) -> Projected {
    select_list::projection_of(s.projection@, joined_of(s, resolver).scope)->Ok_0
}

/// What a HAVING clause of a SELECT is read against.
pub open spec fn having_scope<R: SchemaResolver>(s: SqlSelect, resolver: R) -> HavingScope {
    HavingScope {
        aggregates: projected_of(s, resolver).aggregates,
        names: projected_of(s, resolver).names,
        aliases: joined_of(s, resolver).scope.aliases,
        tables: joined_of(s, resolver).scope.tables,
    }
}

/// Law: a SELECT from one table and its joins whose columns are all of that table
/// is understood exactly where its tables and all its clauses are.
pub proof fn law_select_is_understood<R: SchemaResolver, M: ValueMapper>(
    q: SqlQuery,
    s: SqlSelect,
    resolver: R,
    mapper: M,
)
    requires
        q.body == SqlSetExpr::Select(s),
        s.from@.len() == 1,
        has_parts(q, s, resolver) ==> forall|k: int|
            0 <= k < projected_of(s, resolver).columns.len() ==> (#[trigger] projected_of(
                s,
                resolver,
            ).columns[k]).table == table_of(s, resolver),
    ensures
        select::query_of(q, resolver, mapper) is Ok <==> has_parts(q, s, resolver)
            && has_condition(s.selection, joined_of(s, resolver).scope, resolver, mapper) && (
        s.having matches Some(h) ==> having::having_of(h, having_scope(s, resolver), mapper) is Ok),
{
}

/// Law: a statement is understood exactly where the query, the table, the index
/// or the one name that it is of are.
pub proof fn law_statement_is_understood<R: SchemaResolver, M: ValueMapper>(
    stmt: SqlStatement,
    resolver: R,
    mapper: M,
)
    ensures
        translate::statement_of(stmt, resolver, mapper) is Ok <==> match stmt {
            SqlStatement::Query(q) => select::query_of(q, resolver, mapper) is Ok,
            SqlStatement::Insert(i) => dml::insert_of(i, resolver, mapper) is Ok,
            SqlStatement::Update(u) => dml::update_of(u, resolver, mapper) is Ok,
            SqlStatement::Delete(d) => dml::delete_of(d, resolver, mapper) is Ok,
            SqlStatement::CreateTable(c) => ddl::table_of(c) is Ok,
            SqlStatement::CreateIndex(c) => ddl::index_of(c, resolver) is Ok,
            SqlStatement::Drop { object_type, names, .. } => names@.len() == 1 && (object_type
                == SqlObjectType::Table || object_type == SqlObjectType::Index),
            SqlStatement::Other => false,
        },
        translate::statement_of(stmt, resolver, mapper) is Err && !(stmt is CreateTable
            || stmt is CreateIndex || stmt is Drop) ==> translate::statement_query(
            stmt,
            resolver,
            mapper,
        ) is Err,
{
    if let SqlStatement::Drop { names, .. } = stmt {
        assert(names.deep_view().len() == names@.len());
    }
}

/// Law: of a text the first statement is taken; a text without a statement, and
/// one that cannot be read, is refused.
pub proof fn law_first_statement<R: SchemaResolver, M: ValueMapper>(
    first: SqlStatement,
    others: Seq<SqlStatement>,
    fault: Seq<char>,
    resolver: R,
    mapper: M,
)
    ensures
        ({
            let read = Ok::<Seq<SqlStatement>, Seq<char>>(seq![first] + others);
            let nothing = Ok::<Seq<SqlStatement>, Seq<char>>(Seq::empty());
            let unread = Err::<Seq<SqlStatement>, Seq<char>>(fault);
            &&& translate::parsed_statement(read, resolver, mapper) == translate::statement_of(
                first,
                resolver,
                mapper,
            )
            &&& translate::parsed_query(read, resolver, mapper) == translate::statement_query(
                first,
                resolver,
                mapper,
            )
            &&& translate::parsed_statement(nothing, resolver, mapper) is Err
            &&& translate::parsed_query(nothing, resolver, mapper) is Err
            &&& translate::parsed_statement(unread, resolver, mapper) matches Err(
                Refusal::SqlParse(text),
            ) && text == fault
            &&& translate::parsed_query(unread, resolver, mapper) matches Err(
                Refusal::SqlParse(text),
            ) && text == fault
        }),
{
}

/// Law: as a query a statement counts exactly if it is one; a change of the
/// schema is refused.
pub proof fn law_statement_as_query(q: QueryModel, op: DdlModel, r: Refusal)
    ensures
        translate::as_query(Ok(StatementModel::Query(q))) == Ok::<
            QueryModel,
            Refusal,
        >(q),
        translate::as_query(Ok(StatementModel::Ddl(op))) is Err,
        translate::as_query(Err(r)) == Err::<QueryModel, Refusal>(r),
{
}

proof fn lemma_all_placed(names: Seq<Seq<char>>, columns: Seq<ColumnModel>)
    requires
        columns.len() <= usize::MAX,
        forall|k: int| 0 <= k < names.len() ==> !is_missing(columns, #[trigger] names[k]),
    ensures
        ddl::placed(names, columns).len() == names.len(),
        forall|k: int|
            0 <= k < names.len() ==> is_first(
                columns,
                #[trigger] ddl::placed(names, columns)[k] as int,
                names[k],
            ),
    decreases names.len(),
{
    if names.len() > 0 {
        let rest = names.drop_last();
        let n = names.len() - 1;
        assert forall|k: int| 0 <= k < rest.len() implies !is_missing(
            columns,
            #[trigger] rest[k],
        ) by {
            assert(rest[k] == names[k]);
        }
        lemma_all_placed(rest, columns);
        change_laws::lemma_position(columns, names[n]);
        assert(!is_missing(columns, names[n]));
        let before = ddl::placed(rest, columns);
        let after = ddl::placed(names, columns);
        assert forall|k: int| 0 <= k < names.len() implies is_first(
            columns,
            #[trigger] after[k] as int,
            names[k],
        ) by {
            if k < n {
                assert(after[k] == before[k]);
                assert(rest[k] == names[k]);
            }
        }
    }
}

/// Law: a PRIMARY KEY constraint of a CREATE TABLE makes the columns that it
/// names the primary key, in its order.
pub proof fn law_key_constraint(c: SqlCreateTable, key: Vec<SqlIndexColumn>)
    requires
        c.columns@.len() <= usize::MAX,
        c.constraints@.len() == 1,
        c.constraints@[0] == SqlTableConstraint::PrimaryKey(key),
        key@.len() > 0,
        forall|k: int| 0 <= k < key@.len() ==> #[trigger] key@[k] is Identifier,
        forall|k: int| 0 <= k < c.columns@.len() ==> !is_marked(#[trigger] c.columns@[k]),
        ddl::columns_defined(c.columns@) is Ok,
        forall|k: int|
            0 <= k < key@.len() ==> !is_missing(
                ddl::columns_defined(c.columns@)->Ok_0,
                (#[trigger] key@[k])->Identifier_0@,
            ),
    ensures
        ddl::table_of(c) matches Ok(t) && t.name == c.name@ && t.columns == ddl::columns_defined(
            c.columns@,
        )->Ok_0 && t.primary_key.len() == key@.len() && forall|k: int|
            0 <= k < key@.len() ==> is_first(
                t.columns,
                #[trigger] t.primary_key[k] as int,
                key@[k]->Identifier_0@,
            ),
{
    let columns = ddl::columns_defined(c.columns@)->Ok_0;
    change_laws::lemma_unmarked(c.columns@);
    change_laws::lemma_collected(c.columns@, |d: SqlColumnDef| ddl::column_of(d));
    let name_of = |x: SqlIndexColumn| ddl::index_column_name(x, ddl::key_refusal());
    change_laws::lemma_collected(key@, name_of);
    let names = Seq::new(key@.len(), |k: int| key@[k]->Identifier_0@);
    assert forall|k: int| 0 <= k < key@.len() implies name_of(#[trigger] key@[k]) == Ok::<
        Seq<char>,
        Refusal,
    >(names[k]) by {}
    let listed = plain::collected(key@, name_of)->Ok_0;
    assert(listed =~= names) by {
        assert forall|k: int| 0 <= k < names.len() implies listed[k] == names[k] by {
            assert(name_of(key@[k]) == Ok::<Seq<char>, Refusal>(listed[k]));
        }
    }
    let keys = |x: SqlTableConstraint| ddl::constraint_keys(x);
    change_laws::lemma_collected(c.constraints@, keys);
    let lists = plain::collected(c.constraints@, keys)->Ok_0;
    assert(keys(c.constraints@[0]) == Ok::<Seq<Seq<char>>, Refusal>(names));
    assert(lists[0] == names);
    lists.lemma_flatten_one_element();
    assert(ddl::marked_keys(c.columns@) + names =~= names);
    assert forall|k: int| 0 <= k < names.len() implies !is_missing(
        columns,
        #[trigger] names[k],
    ) by {
        assert(!is_missing(columns, key@[k]->Identifier_0@));
    }
    lemma_all_placed(names, columns);
}

/// Law: a CREATE TABLE without constraints is understood exactly where it has a
/// column and the types of all its columns are known.
pub proof fn law_table_is_understood(c: SqlCreateTable)
    requires
        c.constraints@.len() == 0,
        c.columns@.len() <= usize::MAX,
        forall|k: int| 0 <= k < c.columns@.len() ==> !is_marked(#[trigger] c.columns@[k]),
    ensures
        ddl::table_of(c) is Ok <==> c.columns@.len() > 0 && forall|k: int|
            0 <= k < c.columns@.len() ==> ddl::engine_type_of(
                (#[trigger] c.columns@[k]).data_type@,
            ) is Ok,
{
    let f = |d: SqlColumnDef| ddl::column_of(d);
    change_laws::lemma_unmarked(c.columns@);
    change_laws::lemma_collected(c.columns@, f);
    assert forall|k: int| 0 <= k < c.columns@.len() implies (f(#[trigger] c.columns@[k]) is Ok
        <==> ddl::engine_type_of(c.columns@[k].data_type@) is Ok) by {}
    let none = plain::collected(
        c.constraints@,
        |d: SqlTableConstraint| ddl::constraint_keys(d),
    )->Ok_0;
    assert(none =~= Seq::empty());
    reveal_with_fuel(Seq::<_>::flatten, 1);
    let more = ddl::constrained_keys(c.constraints@)->Ok_0;
    assert(more =~= Seq::empty());
    assert(ddl::marked_keys(c.columns@) + more =~= Seq::empty());
    if ddl::columns_defined(c.columns@) is Err {
        let k = choose|k: int| 0 <= k < c.columns@.len() && f(#[trigger] c.columns@[k]) is Err;
        assert(ddl::engine_type_of(c.columns@[k].data_type@) is Err);
    }
}

/// Law: a query is handed to the engine as it is, and a refusal stays one.
pub proof fn law_query_is_lowered(q: QueryModel, r: Refusal)
    ensures
        translator::lowered_query(Ok(q), DbEngineAdapter) == Ok::<QueryModel, Refusal>(q),
        translator::lowered_query(Err(r), DbEngineAdapter) == Err::<QueryModel, Refusal>(r),
{
}

/// Law: a selection is simple exactly if none of its options asks for anything.
pub proof fn law_simple_selection(options: OptionsModel)
    ensures
        plan::asks_nothing(options) <==> options =~= query::no_options(),
{
}

/// Law: a text whose tokens hold neither SET nor FLUSH is read as the parser reads
/// it.
pub proof fn law_ordinary_text_is_parsed(sql: Seq<char>, list: Seq<TokenModel>)
    requires
        convert::sql_tokens(sql) == Ok::<Seq<TokenModel>, Seq<char>>(list),
        forall|i: int|
            0 <= i < list.len() ==> #[trigger] list[i] != TokenModel::Word("SET"@) && list[i]
                != TokenModel::Word("FLUSH"@),
    ensures
        convert::statements_in(sql) == convert::parsed_sql(sql),
{
    let words = tokens::words_of(list);
    if tokens::has_unanswered(words) {
        let i = choose|i: int| 0 <= i < words.len() && #[trigger] tokens::is_unanswered(words, i);
        let at = store_helpers::lemma_kept_member(list, tokens::is_word(), i);
        assert(list[at] == words[i]);
        assert(tokens::token_at(words, i) == words[i]);
    }
}

/// Law: a text that begins with SET AUTHORIZATION and a name, without a session,
/// is refused and not handed to the parser.
pub proof fn law_unanswered_text_is_refused(sql: Seq<char>, list: Seq<TokenModel>)
    requires
        convert::sql_tokens(sql) == Ok::<Seq<TokenModel>, Seq<char>>(list),
        tokens::words_of(list).len() >= 3,
        tokens::words_of(list)[0] == TokenModel::Word("SET"@),
        tokens::words_of(list)[1] == TokenModel::Word("AUTHORIZATION"@),
        tokens::words_of(list)[2] is Word,
    ensures
        convert::statements_in(sql) is Err,
{
    let words = tokens::words_of(list);
    assert(tokens::token_at(words, 0) == words[0]);
    assert(tokens::token_at(words, 1) == words[1]);
    assert(tokens::token_at(words, 2) == words[2]);
    assert(tokens::sets_authorization(words, 0));
    assert(tokens::part_start(words, 0) == 0);
    assert(tokens::is_unanswered(words, 0));
}

} // verus!
