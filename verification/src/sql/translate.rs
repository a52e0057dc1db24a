//! From the text of a statement to the query or the schema change that it is.
use vstd::prelude::*;
use crate::plain;
use crate::query::{EngineQuery, QueryModel};
use crate::schema_resolver::SchemaResolver;
use crate::sql::convert::{self, read_statements};
use crate::sql::ddl::{
    self, translate_create_index, translate_create_table, translate_drop_statement,
};
use crate::sql::error::{unsupported, Refusal, TranslateError};
use crate::sql::helpers::Translated;
use crate::sql::ir::{CanonicalQuery, CanonicalStatement, DdlModel, DdlOp, StatementModel};
use crate::sql::mapper::{DefaultValueMapper, ValueMapper};
use crate::sql::select::{self, translate_query};
use crate::sql::syntax::SqlStatement;
use crate::sql::dml::{self, translate_delete, translate_insert, translate_update};

verus! {

/// The query that a statement is.
pub open spec fn statement_query<R: SchemaResolver, M: ValueMapper>(
    stmt: SqlStatement,
    resolver: R,
    mapper: M,
) -> Translated<QueryModel>
    decreases stmt,
{
    match stmt {
        SqlStatement::Query(q) => select::query_of(q, resolver, mapper),
        SqlStatement::Update(u) => dml::update_of(u, resolver, mapper),
        SqlStatement::Delete(d) => dml::delete_of(d, resolver, mapper),
        SqlStatement::Insert(i) => dml::insert_of(i, resolver, mapper),
        _ => Err(Refusal::UnsupportedStatement),
    }
}

/// The query or the schema change that a statement is.
pub open spec fn statement_of<R: SchemaResolver, M: ValueMapper>(
    stmt: SqlStatement,
    resolver: R,
    mapper: M,
) -> Translated<StatementModel> {
    match stmt {
        SqlStatement::Query(_)
        | SqlStatement::Insert(_)
        | SqlStatement::Update(_)
        | SqlStatement::Delete(_) => match statement_query(stmt, resolver, mapper) {
            Err(r) => Err(r),
            Ok(q) => Ok(StatementModel::Query(q)),
        },
        SqlStatement::CreateTable(c) => match ddl::table_of(c) {
            Err(r) => Err(r),
            Ok(table) => Ok(StatementModel::Ddl(DdlModel::CreateTable(table, c.if_not_exists))),
        },
        SqlStatement::CreateIndex(c) => match ddl::index_of(c, resolver) {
            Err(r) => Err(r),
            Ok(index) => Ok(StatementModel::Ddl(DdlModel::CreateIndex(index))),
        },
        SqlStatement::Drop { object_type, names, if_exists } => match ddl::drop_of(
            object_type,
            names.deep_view(),
            if_exists,
        ) {
            Err(r) => Err(r),
            Ok(op) => Ok(StatementModel::Ddl(op)),
        },
        SqlStatement::Other => Err(Refusal::UnsupportedStatement),
    }
}

/// The first statement that was read.
pub open spec fn first_statement(parsed: Result<Seq<SqlStatement>, Seq<char>>) -> Translated<
    SqlStatement,
> {
    match parsed {
        Err(text) => Err(Refusal::SqlParse(text)),
        Ok(stmts) => if stmts.len() == 0 {
            Err(Refusal::UnsupportedFeature("only a single statement is supported"@))
        } else {
            Ok(stmts[0])
        },
    }
}

/// The query of what was read.
pub open spec fn parsed_query<R: SchemaResolver, M: ValueMapper>(
    parsed: Result<Seq<SqlStatement>, Seq<char>>,
    resolver: R,
    mapper: M,
) -> Translated<QueryModel> {
    match first_statement(parsed) {
        Err(r) => Err(r),
        Ok(stmt) => statement_query(stmt, resolver, mapper),
    }
}

/// The query or the schema change of what was read.
pub open spec fn parsed_statement<R: SchemaResolver, M: ValueMapper>(
    parsed: Result<Seq<SqlStatement>, Seq<char>>,
    resolver: R,
    mapper: M,
) -> Translated<StatementModel> {
    match first_statement(parsed) {
        Err(r) => Err(r),
        Ok(stmt) => statement_of(stmt, resolver, mapper),
    }
}

/// A statement that is a query.
pub open spec fn as_query(s: Translated<StatementModel>) -> Translated<QueryModel> {
    match s {
        Err(r) => Err(r),
        Ok(StatementModel::Query(q)) => Ok(q),
        Ok(StatementModel::Ddl(_)) => Err(Refusal::UnsupportedStatement),
    }
}

/// What was read, mathematically.
pub open spec fn parsed_view(r: Result<Vec<SqlStatement>, String>) -> Result<
    Seq<SqlStatement>,
    Seq<char>,
> {
    match r {
        Ok(stmts) => Ok(stmts@),
        Err(text) => Err(text@),
    }
}

/// Translates a statement into a query.
pub fn translate_statement<R: SchemaResolver, M: ValueMapper>(
    stmt: &SqlStatement,
    resolver: &R,
    mapper: &M,
) -> (r: Result<EngineQuery, TranslateError>)
    requires
        mapper.ready(),
    ensures
        plain::outcome(r) == statement_query(*stmt, *resolver, *mapper),
    decreases stmt,
{
    match stmt {
        SqlStatement::Query(q) => translate_query(q, resolver, mapper),
        SqlStatement::Update(u) => translate_update(u, resolver, mapper),
        SqlStatement::Delete(d) => translate_delete(d, resolver, mapper),
        SqlStatement::Insert(i) => translate_insert(i, resolver, mapper),
        _ => Err(TranslateError::UnsupportedStatement),
    }
}

/// Translates a statement into a query or a schema change.
pub fn translate_statement_to_canonical<R: SchemaResolver, M: ValueMapper>(
    stmt: &SqlStatement,
    resolver: &R,
    mapper: &M,
) -> (r: Result<CanonicalStatement, TranslateError>)
    requires
        mapper.ready(),
    ensures
        plain::outcome(r) == statement_of(*stmt, *resolver, *mapper),
{
    match stmt {
        SqlStatement::Query(_)
        | SqlStatement::Insert(_)
        | SqlStatement::Update(_)
        | SqlStatement::Delete(_) => match translate_statement(stmt, resolver, mapper) {
            Ok(q) => Ok(CanonicalStatement::Query(q)),
            Err(e) => Err(e),
        },
        SqlStatement::CreateTable(c) => match translate_create_table(c) {
            Ok(table) => Ok(CanonicalStatement::Ddl(DdlOp::CreateTable(table, c.if_not_exists))),
            Err(e) => Err(e),
        },
        SqlStatement::CreateIndex(c) => match translate_create_index(c, resolver) {
            Ok(index) => Ok(CanonicalStatement::Ddl(DdlOp::CreateIndex(index))),
            Err(e) => Err(e),
        },
        SqlStatement::Drop { object_type, names, if_exists } => match translate_drop_statement(
            object_type,
            names,
            *if_exists,
        ) {
            Ok(op) => Ok(CanonicalStatement::Ddl(op)),
            Err(e) => Err(e),
        },
        SqlStatement::Other => Err(TranslateError::UnsupportedStatement),
    }
}

/// Translates a statement into a canonical query.
pub fn translate_statement_to_ir_with_mapper<R: SchemaResolver, M: ValueMapper>(
    stmt: &SqlStatement,
    resolver: &R,
    mapper: &M,
) -> (r: Result<CanonicalQuery, TranslateError>)
    requires
        mapper.ready(),
    ensures
        plain::outcome(r) == statement_query(*stmt, *resolver, *mapper),
{
    match translate_statement(stmt, resolver, mapper) {
        Ok(q) => Ok(CanonicalQuery::from(q)),
        Err(e) => Err(e),
    }
}

/// Translates a statement into a canonical query, with the default mapper.
pub fn translate_statement_to_ir<R: SchemaResolver, P: Fn(&str) -> Result<u64, String>>(
    stmt: &SqlStatement,
    resolver: &R,
    mapper: &DefaultValueMapper<P>,
) -> (r: Result<CanonicalQuery, TranslateError>)
    requires
        mapper.ready(),
    ensures
        plain::outcome(r) == statement_query(*stmt, *resolver, *mapper),
{
    translate_statement_to_ir_with_mapper(stmt, resolver, mapper)
}

/// Translates what was read into a canonical query.
pub fn translate_parsed_to_ir<R: SchemaResolver, M: ValueMapper>(
    parsed: Result<Vec<SqlStatement>, String>,
    resolver: &R,
    mapper: &M,
) -> (r: Result<CanonicalQuery, TranslateError>)
    requires
        mapper.ready(),
    ensures
        plain::outcome(r) == parsed_query(parsed_view(parsed), *resolver, *mapper),
{
    match parsed {
        Ok(stmts) => if stmts.len() == 0 {
            Err(unsupported("only a single statement is supported"))
        } else {
            translate_statement_to_ir_with_mapper(&stmts[0], resolver, mapper)
        },
        Err(text) => Err(TranslateError::SqlParse(text)),
    }
}

/// Translates what was read into a query or a schema change.
pub fn translate_parsed_statement<R: SchemaResolver, M: ValueMapper>(
    parsed: Result<Vec<SqlStatement>, String>,
    resolver: &R,
    mapper: &M,
) -> (r: Result<CanonicalStatement, TranslateError>)
    requires
        mapper.ready(),
    ensures
        plain::outcome(r) == parsed_statement(parsed_view(parsed), *resolver, *mapper),
{
    match parsed {
        Ok(stmts) => if stmts.len() == 0 {
            Err(unsupported("only a single statement is supported"))
        } else {
            translate_statement_to_canonical(&stmts[0], resolver, mapper)
        },
        Err(text) => Err(TranslateError::SqlParse(text)),
    }
}

/// Parses SQL and translates its first statement into a canonical query.
pub fn parse_and_translate_to_ir_with_mapper<R: SchemaResolver, M: ValueMapper>(
    sql: &str,
    resolver: &R,
    mapper: &M,
) -> (r: Result<CanonicalQuery, TranslateError>)
    requires
        mapper.ready(),
    ensures
        plain::outcome(r) == parsed_query(convert::statements_in(sql@), *resolver, *mapper),
{
    translate_parsed_to_ir(read_statements(sql), resolver, mapper)
}

/// Parses SQL and translates its first statement into a canonical query, with
/// the default mapper.
pub fn parse_and_translate_to_ir<R: SchemaResolver, P: Fn(&str) -> Result<u64, String>>(
    sql: &str,
    resolver: &R,
    mapper: &DefaultValueMapper<P>,
) -> (r: Result<CanonicalQuery, TranslateError>)
    requires
        mapper.ready(),
    ensures
        plain::outcome(r) == parsed_query(convert::statements_in(sql@), *resolver, *mapper),
{
    parse_and_translate_to_ir_with_mapper(sql, resolver, mapper)
}

/// Parses SQL and translates its first statement.
pub fn parse_and_translate_statement_to_ir_with_mapper<R: SchemaResolver, M: ValueMapper>(
    sql: &str,
    resolver: &R,
    mapper: &M,
) -> (r: Result<CanonicalStatement, TranslateError>)
    requires
        mapper.ready(),
    ensures
        plain::outcome(r) == parsed_statement(convert::statements_in(sql@), *resolver, *mapper),
{
    translate_parsed_statement(read_statements(sql), resolver, mapper)
}

/// Parses SQL and translates its first statement, with the default mapper.
pub fn parse_and_translate_statement_to_ir<R: SchemaResolver, P: Fn(&str) -> Result<u64, String>>(
    sql: &str,
    resolver: &R,
    mapper: &DefaultValueMapper<P>,
) -> (r: Result<CanonicalStatement, TranslateError>)
    requires
        mapper.ready(),
    ensures
        plain::outcome(r) == parsed_statement(convert::statements_in(sql@), *resolver, *mapper),
{
    parse_and_translate_statement_to_ir_with_mapper(sql, resolver, mapper)
}

/// Parses SQL and translates its first statement, with the default mapper.
pub fn parse_and_translate_statement<R: SchemaResolver, P: Fn(&str) -> Result<u64, String>>(
    sql: &str,
    resolver: &R,
    mapper: &DefaultValueMapper<P>,
) -> (r: Result<CanonicalStatement, TranslateError>)
    requires
        mapper.ready(),
    ensures
        plain::outcome(r) == parsed_statement(convert::statements_in(sql@), *resolver, *mapper),
{
    parse_and_translate_statement_to_ir(sql, resolver, mapper)
}

/// Parses SQL and translates its first statement.
pub fn parse_and_translate_statement_with_mapper<R: SchemaResolver, M: ValueMapper>(
    sql: &str,
    resolver: &R,
    mapper: &M,
) -> (r: Result<CanonicalStatement, TranslateError>)
    requires
        mapper.ready(),
    ensures
        plain::outcome(r) == parsed_statement(convert::statements_in(sql@), *resolver, *mapper),
{
    parse_and_translate_statement_to_ir_with_mapper(sql, resolver, mapper)
}

/// Parses SQL and translates its first statement, which must be a query.
pub fn parse_and_translate_with_mapper<R: SchemaResolver, M: ValueMapper>(
    sql: &str,
    resolver: &R,
    mapper: &M,
) -> (r: Result<EngineQuery, TranslateError>)
    requires
        mapper.ready(),
    ensures
        plain::outcome(r) == as_query(
            parsed_statement(convert::statements_in(sql@), *resolver, *mapper),
        ),
{
    match parse_and_translate_statement_to_ir_with_mapper(sql, resolver, mapper) {
        Ok(CanonicalStatement::Query(q)) => Ok(q),
        Ok(CanonicalStatement::Ddl(_)) => Err(TranslateError::UnsupportedStatement),
        Err(e) => Err(e),
    }
}

/// Parses SQL and translates its first statement, which must be a query, with
/// the default mapper.
pub fn parse_and_translate<R: SchemaResolver, P: Fn(&str) -> Result<u64, String>>(
    sql: &str,
    resolver: &R,
    mapper: &DefaultValueMapper<P>,
) -> (r: Result<EngineQuery, TranslateError>)
    requires
        mapper.ready(),
    ensures
        plain::outcome(r) == as_query(
            parsed_statement(convert::statements_in(sql@), *resolver, *mapper),
        ),
{
    parse_and_translate_with_mapper(sql, resolver, mapper)
}

/// Law: of a statement that is no schema change, both ways of translating tell
/// the same.
pub proof fn law_query_is_statement<R: SchemaResolver, M: ValueMapper>(
    stmt: SqlStatement,
    resolver: R,
    mapper: M,
)
    ensures
        as_query(statement_of(stmt, resolver, mapper)) is Ok ==> statement_query(
            stmt,
            resolver,
            mapper,
        ) == as_query(statement_of(stmt, resolver, mapper)),
        statement_query(stmt, resolver, mapper) is Ok ==> as_query(
            statement_of(stmt, resolver, mapper),
        ) == statement_query(stmt, resolver, mapper),
{
}

} // verus!
