//! From the syntax tree of the `sqlparser` crate to the library's own.
//!
//! The parser is the crate's. Each function here takes one of its types apart
//! and puts what the translator looks at into the library's type for it, field
//! by field; what the translator does not look at is left behind. Only
//! [`tokens`] and [`parse_statements`] say anything of their results.
use vstd::prelude::*;
use sqlparser::ast;
use crate::sql::tokens::{finds_unanswered, has_unanswered, words, words_of, SqlToken, TokenModel};
use crate::sql::syntax::{
    SqlAssignment, SqlAssignmentTarget, SqlBinaryOp, SqlColumnDef, SqlColumnOption, SqlCreateIndex,
    SqlCreateTable, SqlDelete, SqlExpr, SqlFunction, SqlFunctionArg, SqlFunctionArgs, SqlGroupBy,
    SqlIndexColumn, SqlInsert, SqlJoin, SqlJoinConstraint, SqlJoinOperator, SqlLimit, SqlLiteral,
    SqlObjectName, SqlObjectType, SqlOrderBy, SqlOrderByExpr, SqlQuery, SqlSelect, SqlSelectItem,
    SqlSetExpr, SqlStatement, SqlTableConstraint, SqlTableFactor, SqlTableObject,
    SqlTableWithJoins, SqlUnaryOp, SqlUpdate,
};

verus! {

/// `sqlparser::ast::Statement`, carried as it is.
#[verifier::external_type_specification]
#[verifier::external_body]
pub struct ExStatement(sqlparser::ast::Statement);

/// `sqlparser::ast::Query`, carried as it is.
#[verifier::external_type_specification]
#[verifier::external_body]
pub struct ExQuery(sqlparser::ast::Query);

/// `sqlparser::ast::Select`, carried as it is.
#[verifier::external_type_specification]
#[verifier::external_body]
pub struct ExSelect(sqlparser::ast::Select);

/// `sqlparser::ast::SetExpr`, carried as it is.
#[verifier::external_type_specification]
#[verifier::external_body]
pub struct ExSetExpr(sqlparser::ast::SetExpr);

/// `sqlparser::ast::Expr`, carried as it is.
#[verifier::external_type_specification]
#[verifier::external_body]
pub struct ExExpr(sqlparser::ast::Expr);

/// `sqlparser::ast::Value`, carried as it is.
#[verifier::external_type_specification]
#[verifier::external_body]
pub struct ExValue(sqlparser::ast::Value);

/// `sqlparser::ast::BinaryOperator`, carried as it is.
#[verifier::external_type_specification]
#[verifier::external_body]
pub struct ExBinaryOperator(sqlparser::ast::BinaryOperator);

/// `sqlparser::ast::UnaryOperator`, carried as it is.
#[verifier::external_type_specification]
#[verifier::external_body]
pub struct ExUnaryOperator(sqlparser::ast::UnaryOperator);

/// `sqlparser::ast::Function`, carried as it is.
#[verifier::external_type_specification]
#[verifier::external_body]
pub struct ExFunction(sqlparser::ast::Function);

/// `sqlparser::ast::FunctionArguments`, carried as it is.
#[verifier::external_type_specification]
#[verifier::external_body]
pub struct ExFunctionArguments(sqlparser::ast::FunctionArguments);

/// `sqlparser::ast::FunctionArg`, carried as it is.
#[verifier::external_type_specification]
#[verifier::external_body]
pub struct ExFunctionArg(sqlparser::ast::FunctionArg);

/// `sqlparser::ast::ObjectName`, carried as it is.
#[verifier::external_type_specification]
#[verifier::external_body]
pub struct ExObjectName(sqlparser::ast::ObjectName);

/// `sqlparser::ast::TableFactor`, carried as it is.
#[verifier::external_type_specification]
#[verifier::external_body]
pub struct ExTableFactor(sqlparser::ast::TableFactor);

/// `sqlparser::ast::JoinConstraint`, carried as it is.
#[verifier::external_type_specification]
#[verifier::external_body]
pub struct ExJoinConstraint(sqlparser::ast::JoinConstraint);

/// `sqlparser::ast::JoinOperator`, carried as it is.
#[verifier::external_type_specification]
#[verifier::external_body]
pub struct ExJoinOperator(sqlparser::ast::JoinOperator);

/// `sqlparser::ast::TableWithJoins`, carried as it is.
#[verifier::external_type_specification]
#[verifier::external_body]
pub struct ExTableWithJoins(sqlparser::ast::TableWithJoins);

/// `sqlparser::ast::SelectItem`, carried as it is.
#[verifier::external_type_specification]
#[verifier::external_body]
pub struct ExSelectItem(sqlparser::ast::SelectItem);

/// `sqlparser::ast::GroupByExpr`, carried as it is.
#[verifier::external_type_specification]
#[verifier::external_body]
pub struct ExGroupByExpr(sqlparser::ast::GroupByExpr);

/// `sqlparser::ast::OrderByExpr`, carried as it is.
#[verifier::external_type_specification]
#[verifier::external_body]
pub struct ExOrderByExpr(sqlparser::ast::OrderByExpr);

/// `sqlparser::ast::OrderByKind`, carried as it is.
#[verifier::external_type_specification]
#[verifier::external_body]
pub struct ExOrderByKind(sqlparser::ast::OrderByKind);

/// `sqlparser::ast::LimitClause`, carried as it is.
#[verifier::external_type_specification]
#[verifier::external_body]
pub struct ExLimitClause(sqlparser::ast::LimitClause);

/// `sqlparser::ast::Assignment`, carried as it is.
#[verifier::external_type_specification]
#[verifier::external_body]
pub struct ExAssignment(sqlparser::ast::Assignment);

/// `sqlparser::ast::Update`, carried as it is.
#[verifier::external_type_specification]
#[verifier::external_body]
pub struct ExUpdate(sqlparser::ast::Update);

/// `sqlparser::ast::Delete`, carried as it is.
#[verifier::external_type_specification]
#[verifier::external_body]
pub struct ExDelete(sqlparser::ast::Delete);

/// `sqlparser::ast::Insert`, carried as it is.
#[verifier::external_type_specification]
#[verifier::external_body]
pub struct ExInsert(sqlparser::ast::Insert);

/// `sqlparser::ast::IndexColumn`, carried as it is.
#[verifier::external_type_specification]
#[verifier::external_body]
pub struct ExIndexColumn(sqlparser::ast::IndexColumn);

/// `sqlparser::ast::ColumnDef`, carried as it is.
#[verifier::external_type_specification]
#[verifier::external_body]
pub struct ExColumnDef(sqlparser::ast::ColumnDef);

/// `sqlparser::ast::TableConstraint`, carried as it is.
#[verifier::external_type_specification]
#[verifier::external_body]
pub struct ExTableConstraint(sqlparser::ast::TableConstraint);

/// `sqlparser::ast::CreateTable`, carried as it is.
#[verifier::external_type_specification]
#[verifier::external_body]
pub struct ExCreateTable(sqlparser::ast::CreateTable);

/// `sqlparser::ast::CreateIndex`, carried as it is.
#[verifier::external_type_specification]
#[verifier::external_body]
pub struct ExCreateIndex(sqlparser::ast::CreateIndex);

/// `sqlparser::ast::ObjectType`, carried as it is.
#[verifier::external_type_specification]
#[verifier::external_body]
pub struct ExObjectType(sqlparser::ast::ObjectType);

/// `sqlparser::tokenizer::Token`, carried as it is.
#[verifier::external_type_specification]
#[verifier::external_body]
pub struct ExToken(sqlparser::tokenizer::Token);

/// The token that a `sqlparser::tokenizer::Token` is: a word with the name of its
/// `sqlparser::keywords::Keyword`, which is `NoKeyword` for a word that is none.
#[verifier::external_body]
fn token(t: sqlparser::tokenizer::Token) -> SqlToken {
    match t {
        sqlparser::tokenizer::Token::Word(w) => SqlToken::Word(format!("{:?}", w.keyword)),
        sqlparser::tokenizer::Token::SingleQuotedString(_) => SqlToken::Text,
        sqlparser::tokenizer::Token::DoubleQuotedString(_) => SqlToken::Text,
        sqlparser::tokenizer::Token::Colon => SqlToken::Colon,
        sqlparser::tokenizer::Token::Period => SqlToken::Period,
        sqlparser::tokenizer::Token::SemiColon => SqlToken::Semicolon,
        sqlparser::tokenizer::Token::LParen => SqlToken::Open,
        sqlparser::tokenizer::Token::RParen => SqlToken::Close,
        sqlparser::tokenizer::Token::Whitespace(_) => SqlToken::Space,
        _ => SqlToken::Other,
    }
}

/// The literal that a `sqlparser::ast::Value` is.
#[verifier::external_body]
fn literal(v: ast::Value) -> SqlLiteral {
    match v {
        ast::Value::Number(text, _) => SqlLiteral::Number(text),
        ast::Value::SingleQuotedString(text) => SqlLiteral::Text(text),
        ast::Value::Null => SqlLiteral::Null,
        other => SqlLiteral::Other(format!("{other:?}")),
    }
}

/// The operator that a `sqlparser::ast::BinaryOperator` is, where it compares or connects.
#[verifier::external_body]
fn comparison_op(op: ast::BinaryOperator) -> SqlBinaryOp {
    match op {
        ast::BinaryOperator::And => SqlBinaryOp::And,
        ast::BinaryOperator::Or => SqlBinaryOp::Or,
        ast::BinaryOperator::Eq => SqlBinaryOp::Eq,
        ast::BinaryOperator::NotEq => SqlBinaryOp::NotEq,
        ast::BinaryOperator::Lt => SqlBinaryOp::Lt,
        ast::BinaryOperator::LtEq => SqlBinaryOp::LtEq,
        ast::BinaryOperator::Gt => SqlBinaryOp::Gt,
        ast::BinaryOperator::GtEq => SqlBinaryOp::GtEq,
        ast::BinaryOperator::Plus => SqlBinaryOp::Plus,
        ast::BinaryOperator::Minus => SqlBinaryOp::Minus,
        ast::BinaryOperator::Multiply => SqlBinaryOp::Multiply,
        ast::BinaryOperator::Divide => SqlBinaryOp::Divide,
        _ => SqlBinaryOp::Other,
    }
}

/// The operator that a `sqlparser::ast::UnaryOperator` is.
#[verifier::external_body]
fn unary_op(op: ast::UnaryOperator) -> SqlUnaryOp {
    match op {
        ast::UnaryOperator::Not => SqlUnaryOp::Not,
        _ => SqlUnaryOp::Other,
    }
}

/// The expression that a `sqlparser::ast::Expr` is.
#[verifier::external_body]
fn expr(e: ast::Expr) -> SqlExpr {
    match e {
        ast::Expr::Identifier(i) => SqlExpr::Identifier(i.value),
        ast::Expr::CompoundIdentifier(v) => {
            SqlExpr::CompoundIdentifier(v.into_iter().map(|i| i.value).collect())
        },
        ast::Expr::Value(v) => SqlExpr::Value(literal(v.value)),
        ast::Expr::BinaryOp { left, op, right } => SqlExpr::BinaryOp {
            left: Box::new(expr(*left)),
            op: comparison_op(op),
            right: Box::new(expr(*right)),
        },
        ast::Expr::Function(f) => SqlExpr::Function(function(f)),
        other => test_expr(other),
    }
}

/// The expression that a `sqlparser::ast::Expr` is, where it tests one operand.
#[verifier::external_body]
fn test_expr(e: ast::Expr) -> SqlExpr {
    match e {
        ast::Expr::UnaryOp { op, expr: e } => {
            SqlExpr::UnaryOp { op: unary_op(op), expr: Box::new(expr(*e)) }
        },
        ast::Expr::IsNull(e) => SqlExpr::IsNull(Box::new(expr(*e))),
        ast::Expr::IsNotNull(e) => SqlExpr::IsNotNull(Box::new(expr(*e))),
        ast::Expr::InList { expr: e, list, negated } => {
            SqlExpr::InList { expr: Box::new(expr(*e)), list: exprs(list), negated }
        },
        ast::Expr::InSubquery { expr: e, subquery, negated } => {
            SqlExpr::InSubquery { expr: Box::new(expr(*e)), subquery: Box::new(query(*subquery)), negated }
        },
        _ => SqlExpr::Other,
    }
}

/// Each of the expressions.
#[verifier::external_body]
fn exprs(list: Vec<ast::Expr>) -> Vec<SqlExpr> {
    list.into_iter().map(expr).collect()
}

/// The call that a `sqlparser::ast::Function` is, its name written out.
#[verifier::external_body]
fn function(f: ast::Function) -> SqlFunction {
    SqlFunction {
        name: f.name.to_string(),
        args: match f.args {
            ast::FunctionArguments::None => SqlFunctionArgs::Absent,
            ast::FunctionArguments::Subquery(_) => SqlFunctionArgs::Subquery,
            ast::FunctionArguments::List(l) => {
                SqlFunctionArgs::List(l.args.into_iter().map(function_arg).collect())
            },
        },
    }
}

/// The argument that a `sqlparser::ast::FunctionArg` is.
#[verifier::external_body]
fn function_arg(a: ast::FunctionArg) -> SqlFunctionArg {
    match a {
        ast::FunctionArg::Unnamed(ast::FunctionArgExpr::Wildcard) => SqlFunctionArg::Wildcard,
        ast::FunctionArg::Unnamed(ast::FunctionArgExpr::QualifiedWildcard(_)) => {
            SqlFunctionArg::QualifiedWildcard
        },
        ast::FunctionArg::Unnamed(ast::FunctionArgExpr::Expr(e)) => {
            SqlFunctionArg::Expr(Box::new(expr(e)))
        },
        _ => SqlFunctionArg::Other,
    }
}

/// The name that a `sqlparser::ast::ObjectName` is.
#[verifier::external_body]
fn object_name(n: ast::ObjectName) -> SqlObjectName {
    SqlObjectName {
        text: n.to_string(),
        parts: n.0.iter().map(|p| p.as_ident().map(|i| i.value.clone())).collect(),
    }
}

/// What a `sqlparser::ast::TableFactor` reads.
#[verifier::external_body]
fn table_factor(t: ast::TableFactor) -> SqlTableFactor {
    match t {
        ast::TableFactor::Table { name, alias, .. } => SqlTableFactor::Table {
            name: name.to_string(),
            alias: alias.map(|a| a.name.value),
        },
        _ => SqlTableFactor::Other,
    }
}

/// The condition that a `sqlparser::ast::JoinConstraint` is.
#[verifier::external_body]
fn join_constraint(c: ast::JoinConstraint) -> SqlJoinConstraint {
    match c {
        ast::JoinConstraint::On(e) => SqlJoinConstraint::On(expr(e)),
        _ => SqlJoinConstraint::Other,
    }
}

/// The operator that a `sqlparser::ast::JoinOperator` is.
#[verifier::external_body]
fn join_operator(o: ast::JoinOperator) -> SqlJoinOperator {
    match o {
        ast::JoinOperator::Join(c) => SqlJoinOperator::Join(join_constraint(c)),
        ast::JoinOperator::Inner(c) => SqlJoinOperator::Inner(join_constraint(c)),
        ast::JoinOperator::Left(c) => SqlJoinOperator::Left(join_constraint(c)),
        ast::JoinOperator::LeftOuter(c) => SqlJoinOperator::LeftOuter(join_constraint(c)),
        ast::JoinOperator::Right(c) => SqlJoinOperator::Right(join_constraint(c)),
        ast::JoinOperator::RightOuter(c) => SqlJoinOperator::RightOuter(join_constraint(c)),
        ast::JoinOperator::FullOuter(c) => SqlJoinOperator::FullOuter(join_constraint(c)),
        _ => SqlJoinOperator::Other,
    }
}

/// The tables that a `sqlparser::ast::TableWithJoins` joins.
#[verifier::external_body]
fn table_with_joins(t: ast::TableWithJoins) -> SqlTableWithJoins {
    SqlTableWithJoins {
        relation: table_factor(t.relation),
        joins: t.joins.into_iter().map(|j| SqlJoin {
            relation: table_factor(j.relation),
            operator: join_operator(j.join_operator),
        }).collect(),
    }
}

/// Each of the tables.
#[verifier::external_body]
fn tables(list: Vec<ast::TableWithJoins>) -> Vec<SqlTableWithJoins> {
    list.into_iter().map(table_with_joins).collect()
}

/// The item that a `sqlparser::ast::SelectItem` is.
#[verifier::external_body]
fn select_item(i: ast::SelectItem) -> SqlSelectItem {
    match i {
        ast::SelectItem::Wildcard(_) => SqlSelectItem::Wildcard,
        ast::SelectItem::QualifiedWildcard(
            ast::SelectItemQualifiedWildcardKind::ObjectName(n),
            _,
        ) => SqlSelectItem::QualifiedWildcard(n.to_string()),
        ast::SelectItem::QualifiedWildcard(_, _) => SqlSelectItem::QualifiedWildcardExpr,
        ast::SelectItem::UnnamedExpr(e) => SqlSelectItem::UnnamedExpr(expr(e)),
        ast::SelectItem::ExprWithAlias { expr: e, alias } => {
            SqlSelectItem::ExprWithAlias { expr: expr(e), alias: alias.value }
        },
    }
}

/// Each of the items.
#[verifier::external_body]
fn select_items(list: Vec<ast::SelectItem>) -> Vec<SqlSelectItem> {
    list.into_iter().map(select_item).collect()
}

/// The clause that a `sqlparser::ast::GroupByExpr` is.
#[verifier::external_body]
fn group_by(g: ast::GroupByExpr) -> SqlGroupBy {
    match g {
        ast::GroupByExpr::Expressions(list, _) => SqlGroupBy::Expressions(exprs(list)),
        ast::GroupByExpr::All(_) => SqlGroupBy::All,
    }
}

/// What a `sqlparser::ast::OrderByExpr` sorts by.
#[verifier::external_body]
fn order_by_expr(o: ast::OrderByExpr) -> SqlOrderByExpr {
    SqlOrderByExpr { expr: expr(o.expr), asc: o.options.asc }
}

/// The clause that a `sqlparser::ast::OrderByKind` is.
#[verifier::external_body]
fn order_by(o: ast::OrderByKind) -> SqlOrderBy {
    match o {
        ast::OrderByKind::Expressions(list) => {
            SqlOrderBy::Expressions(list.into_iter().map(order_by_expr).collect())
        },
        ast::OrderByKind::All(_) => SqlOrderBy::All,
    }
}

/// The clause that a `sqlparser::ast::LimitClause` is.
#[verifier::external_body]
fn limit_clause(l: ast::LimitClause) -> SqlLimit {
    match l {
        ast::LimitClause::LimitOffset { limit, offset, .. } => SqlLimit::LimitOffset {
            limit: limit.map(expr),
            offset: offset.map(|o| expr(o.value)),
        },
        ast::LimitClause::OffsetCommaLimit { offset, limit } => SqlLimit::OffsetCommaLimit {
            offset: expr(offset),
            limit: expr(limit),
        },
    }
}

/// The selection that a `sqlparser::ast::Select` is.
#[verifier::external_body]
fn select(s: ast::Select) -> SqlSelect {
    SqlSelect {
        distinct: s.distinct.is_some(),
        projection: select_items(s.projection),
        from: tables(s.from),
        selection: s.selection.map(expr),
        group_by: group_by(s.group_by),
        having: s.having.map(expr),
    }
}

/// The body that a `sqlparser::ast::SetExpr` is.
#[verifier::external_body]
fn set_expr(b: ast::SetExpr) -> SqlSetExpr {
    match b {
        ast::SetExpr::Select(s) => SqlSetExpr::Select(select(*s)),
        ast::SetExpr::Values(v) => SqlSetExpr::Values(v.rows.into_iter().map(exprs).collect()),
        ast::SetExpr::Insert(s) => SqlSetExpr::Statement(Box::new(statement(s))),
        ast::SetExpr::Update(s) => SqlSetExpr::Statement(Box::new(statement(s))),
        ast::SetExpr::Delete(s) => SqlSetExpr::Statement(Box::new(statement(s))),
        ast::SetExpr::Merge(s) => SqlSetExpr::Statement(Box::new(statement(s))),
        _ => SqlSetExpr::Other,
    }
}

/// The query that a `sqlparser::ast::Query` is.
#[verifier::external_body]
fn query(q: ast::Query) -> SqlQuery {
    SqlQuery {
        with: q.with.is_some(),
        body: set_expr(*q.body),
        order_by: q.order_by.map(|o| order_by(o.kind)),
        limit_clause: q.limit_clause.map(limit_clause),
    }
}

/// The assignment that a `sqlparser::ast::Assignment` is.
#[verifier::external_body]
fn assignment(a: ast::Assignment) -> SqlAssignment {
    SqlAssignment {
        target: match a.target {
            ast::AssignmentTarget::ColumnName(n) => SqlAssignmentTarget::ColumnName(object_name(n)),
            ast::AssignmentTarget::Tuple(_) => SqlAssignmentTarget::Tuple,
        },
        value: expr(a.value),
    }
}

/// The statement that a `sqlparser::ast::Update` is.
#[verifier::external_body]
fn update(u: ast::Update) -> SqlUpdate {
    SqlUpdate {
        table: table_with_joins(u.table),
        assignments: u.assignments.into_iter().map(assignment).collect(),
        from: u.from.map(|f| match f {
            ast::UpdateTableFromKind::BeforeSet(list) => tables(list),
            ast::UpdateTableFromKind::AfterSet(list) => tables(list),
        }),
        selection: u.selection.map(expr),
        returning: u.returning.map(select_items),
        limit: u.limit.map(expr),
    }
}

/// The statement that a `sqlparser::ast::Delete` is.
#[verifier::external_body]
fn delete(d: ast::Delete) -> SqlDelete {
    SqlDelete {
        tables: d.tables.into_iter().map(|n| n.to_string()).collect(),
        from: match d.from {
            ast::FromTable::WithFromKeyword(list) => tables(list),
            ast::FromTable::WithoutKeyword(list) => tables(list),
        },
        using: d.using.map(tables),
        selection: d.selection.map(expr),
        returning: d.returning.map(select_items),
        order_by: d.order_by.into_iter().map(order_by_expr).collect(),
        limit: d.limit.map(expr),
    }
}

/// The statement that a `sqlparser::ast::Insert` is.
#[verifier::external_body]
fn insert(i: ast::Insert) -> SqlInsert {
    SqlInsert {
        table: match i.table {
            ast::TableObject::TableName(n) => SqlTableObject::TableName(n.to_string()),
            _ => SqlTableObject::Other,
        },
        columns: i.columns.into_iter().map(|c| c.value).collect(),
        source: i.source.map(|q| query(*q)),
        assignments: i.assignments.into_iter().map(assignment).collect(),
        on: i.on.map(|o| format!("{o:?}")),
        returning: i.returning.map(select_items),
    }
}

/// The column that a `sqlparser::ast::IndexColumn` is.
#[verifier::external_body]
fn index_column(c: ast::IndexColumn) -> SqlIndexColumn {
    match c.column.expr {
        ast::Expr::Identifier(i) => SqlIndexColumn::Identifier(i.value),
        ast::Expr::CompoundIdentifier(v) => {
            SqlIndexColumn::CompoundIdentifier(v.into_iter().map(|i| i.value).collect())
        },
        other => SqlIndexColumn::Other(format!("{other:?}")),
    }
}

/// The column that a `sqlparser::ast::ColumnDef` defines, its type as debug text.
#[verifier::external_body]
fn column_def(c: ast::ColumnDef) -> SqlColumnDef {
    SqlColumnDef {
        name: c.name.value,
        data_type: format!("{:?}", c.data_type),
        options: c.options.into_iter().map(|o| match o.option {
            ast::ColumnOption::PrimaryKey(_) => SqlColumnOption::PrimaryKey,
            _ => SqlColumnOption::Other,
        }).collect(),
    }
}

/// The constraint that a `sqlparser::ast::TableConstraint` is.
#[verifier::external_body]
fn table_constraint(c: ast::TableConstraint) -> SqlTableConstraint {
    match c {
        ast::TableConstraint::PrimaryKey(k) => {
            SqlTableConstraint::PrimaryKey(k.columns.into_iter().map(index_column).collect())
        },
        _ => SqlTableConstraint::Other,
    }
}

/// The statement that a `sqlparser::ast::CreateTable` is.
#[verifier::external_body]
fn create_table(c: ast::CreateTable) -> SqlCreateTable {
    SqlCreateTable {
        name: c.name.to_string(),
        columns: c.columns.into_iter().map(column_def).collect(),
        constraints: c.constraints.into_iter().map(table_constraint).collect(),
        if_not_exists: c.if_not_exists,
    }
}

/// The statement that a `sqlparser::ast::CreateIndex` is.
#[verifier::external_body]
fn create_index(c: ast::CreateIndex) -> SqlCreateIndex {
    SqlCreateIndex {
        name: c.name.map(|n| n.to_string()),
        table_name: c.table_name.to_string(),
        columns: c.columns.into_iter().map(index_column).collect(),
        unique: c.unique,
    }
}

/// The kind of object that a `sqlparser::ast::ObjectType` is.
#[verifier::external_body]
fn object_type(t: ast::ObjectType) -> SqlObjectType {
    match t {
        ast::ObjectType::Table => SqlObjectType::Table,
        ast::ObjectType::Index => SqlObjectType::Index,
        _ => SqlObjectType::Other,
    }
}

/// The statement that a `sqlparser::ast::Statement` is.
#[verifier::external_body]
fn statement(s: ast::Statement) -> SqlStatement {
    match s {
        ast::Statement::Query(q) => SqlStatement::Query(query(*q)),
        ast::Statement::Insert(i) => SqlStatement::Insert(insert(i)),
        ast::Statement::Update(u) => SqlStatement::Update(update(u)),
        ast::Statement::Delete(d) => SqlStatement::Delete(delete(d)),
        ast::Statement::CreateTable(c) => SqlStatement::CreateTable(create_table(c)),
        ast::Statement::CreateIndex(c) => SqlStatement::CreateIndex(create_index(c)),
        ast::Statement::Drop { object_type: t, names, if_exists, .. } => SqlStatement::Drop {
            object_type: object_type(t),
            names: names.into_iter().map(|n| n.to_string()).collect(),
            if_exists,
        },
        _ => SqlStatement::Other,
    }
}

/// What `sqlparser::tokenizer::Tokenizer::tokenize` makes of a text under
/// `sqlparser::dialect::GenericDialect`: the tokens in the library's form, or
/// the text of the error.
pub uninterp spec fn sql_tokens(sql: Seq<char>) -> Result<Seq<TokenModel>, Seq<char>>;

/// `sqlparser::tokenizer::Tokenizer::tokenize` under the generic dialect. It
/// depends on the text alone; which tokens are in which text is left unsaid.
#[verifier::external_body]
fn tokens(sql: &str) -> (r: Result<Vec<SqlToken>, String>)
    ensures
        match r {
            Ok(list) => sql_tokens(sql@) == Ok::<Seq<TokenModel>, Seq<char>>(list.deep_view()),
            Err(message) => sql_tokens(sql@) == Err::<Seq<TokenModel>, Seq<char>>(message@),
        },
{
    let dialect = sqlparser::dialect::GenericDialect {};
    match sqlparser::tokenizer::Tokenizer::new(&dialect, sql).tokenize() {
        Ok(list) => Ok(list.into_iter().map(token).collect()),
        Err(error) => Err(error.to_string()),
    }
}

/// The parser has an answer to a text. It has none where it comes to a statement
/// `SET AUTHORIZATION` of no session, or `FLUSH RELAY LOGS FOR CHANNEL` of no
/// channel: there it panics. Whether it comes to one is told by the tokens: those
/// of the statement are there, at a place where a statement may stand.
pub open spec fn is_parsable(sql: Seq<char>) -> bool {
    sql_tokens(sql) matches Ok(list) ==> !has_unanswered(words_of(list))
}

/// What `sqlparser::parser::Parser::parse_sql` makes of a text under
/// `sqlparser::dialect::GenericDialect`: the statements in the library's form,
/// or the text of the error.
pub uninterp spec fn parsed_sql(sql: Seq<char>) -> Result<Seq<SqlStatement>, Seq<char>>;

/// `sqlparser::parser::Parser::parse_sql` under the generic dialect, on a text
/// that it does not panic on. It reads the tokens of [`tokens`], and fails
/// without them. It depends on the text alone; what it makes of which text is
/// the parser's own and is left unsaid.
#[verifier::external_body]
fn parse_statements(sql: &str) -> (r: Result<Vec<SqlStatement>, String>)
    requires
        is_parsable(sql@),
    ensures
        match r {
            Ok(statements) => parsed_sql(sql@) == Ok::<Seq<SqlStatement>, Seq<char>>(statements@),
            Err(message) => parsed_sql(sql@) == Err::<Seq<SqlStatement>, Seq<char>>(message@),
        },
{
    let dialect = sqlparser::dialect::GenericDialect {};
    match sqlparser::parser::Parser::parse_sql(&dialect, sql) {
        Ok(statements) => Ok(statements.into_iter().map(statement).collect()),
        Err(error) => Err(error.to_string()),
    }
}

/// The statements in a text, or why it has none.
pub open spec fn statements_in(sql: Seq<char>) -> Result<Seq<SqlStatement>, Seq<char>> {
    if is_parsable(sql) {
        parsed_sql(sql)
    } else {
        Err("sql parser error: SET AUTHORIZATION needs a session and FLUSH RELAY LOGS FOR CHANNEL a name"@)
    }
}

/// Reads the statements in a text.
pub fn read_statements(sql: &str) -> (r: Result<Vec<SqlStatement>, String>)
    ensures
        match r {
            Ok(statements) => statements_in(sql@) == Ok::<Seq<SqlStatement>, Seq<char>>(
                statements@,
            ),
            Err(message) => statements_in(sql@) == Err::<Seq<SqlStatement>, Seq<char>>(message@),
        },
{
    if let Ok(list) = tokens(sql) {
        if finds_unanswered(&words(&list)) {
            return Err(
                "sql parser error: SET AUTHORIZATION needs a session and FLUSH RELAY LOGS FOR CHANNEL a name".to_string(),
            );
        }
    }
    parse_statements(sql)
}

} // verus!
