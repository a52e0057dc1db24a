//! The parts of SQL statements that the translator looks at.
use vstd::prelude::*;

verus! {

/// A literal. What is neither a number, a quoted text nor NULL is kept as its
/// debug text.
#[derive(Clone, Debug, PartialEq, Eq)]
pub enum SqlLiteral {
    Number(String),
    Text(String),
    Null,
    Other(String),
}

/// A binary operator.
#[derive(Clone, Copy, Debug, PartialEq, Eq, Structural)]
pub enum SqlBinaryOp {
    And,
    Or,
    Eq,
    NotEq,
    Lt,
    LtEq,
    Gt,
    GtEq,
    Plus,
    Minus,
    Multiply,
    Divide,
    Other,
}

/// A unary operator.
#[derive(Clone, Copy, Debug, PartialEq, Eq, Structural)]
pub enum SqlUnaryOp {
    Not,
    Other,
}

/// An expression.
#[derive(Debug, PartialEq, Eq)]
pub enum SqlExpr {
    Identifier(String),
    CompoundIdentifier(Vec<String>),
    Value(SqlLiteral),
    BinaryOp { left: Box<SqlExpr>, op: SqlBinaryOp, right: Box<SqlExpr> },
    UnaryOp { op: SqlUnaryOp, expr: Box<SqlExpr> },
    InList { expr: Box<SqlExpr>, list: Vec<SqlExpr>, negated: bool },
    InSubquery { expr: Box<SqlExpr>, subquery: Box<SqlQuery>, negated: bool },
    IsNull(Box<SqlExpr>),
    IsNotNull(Box<SqlExpr>),
    Function(SqlFunction),
    Other,
}

/// The call of a function.
#[derive(Debug, PartialEq, Eq)]
pub struct SqlFunction {
    pub name: String,
    pub args: SqlFunctionArgs,
}

/// The arguments of a call.
#[derive(Debug, PartialEq, Eq)]
pub enum SqlFunctionArgs {
    Absent,
    Subquery,
    List(Vec<SqlFunctionArg>),
}

/// One argument of a call.
#[derive(Debug, PartialEq, Eq)]
pub enum SqlFunctionArg {
    Wildcard,
    QualifiedWildcard,
    Expr(Box<SqlExpr>),
    Other,
}

/// The name of a table, a column or another object: as it is written out, and
/// part by part, `None` for a part that is no identifier.
#[derive(Clone, Debug, PartialEq, Eq)]
pub struct SqlObjectName {
    pub text: String,
    pub parts: Vec<Option<String>>,
}

/// What a FROM clause reads.
#[derive(Debug, PartialEq, Eq)]
pub enum SqlTableFactor {
    Table { name: String, alias: Option<String> },
    Other,
}

/// When two rows join.
#[derive(Debug, PartialEq, Eq)]
pub enum SqlJoinConstraint {
    On(SqlExpr),
    Other,
}

/// How two tables join.
#[derive(Debug, PartialEq, Eq)]
pub enum SqlJoinOperator {
    Join(SqlJoinConstraint),
    Inner(SqlJoinConstraint),
    Left(SqlJoinConstraint),
    LeftOuter(SqlJoinConstraint),
    Right(SqlJoinConstraint),
    RightOuter(SqlJoinConstraint),
    FullOuter(SqlJoinConstraint),
    Other,
}

/// A join with one more table.
#[derive(Debug, PartialEq, Eq)]
pub struct SqlJoin {
    pub relation: SqlTableFactor,
    pub operator: SqlJoinOperator,
}

/// A table with what is joined to it.
#[derive(Debug, PartialEq, Eq)]
pub struct SqlTableWithJoins {
    pub relation: SqlTableFactor,
    pub joins: Vec<SqlJoin>,
}

/// An item of a projection.
#[derive(Debug, PartialEq, Eq)]
pub enum SqlSelectItem {
    Wildcard,
    QualifiedWildcard(String),
    QualifiedWildcardExpr,
    UnnamedExpr(SqlExpr),
    ExprWithAlias { expr: SqlExpr, alias: String },
}

/// A GROUP BY clause.
#[derive(Debug, PartialEq, Eq)]
pub enum SqlGroupBy {
    Expressions(Vec<SqlExpr>),
    All,
}

/// An expression to sort by.
#[derive(Debug, PartialEq, Eq)]
pub struct SqlOrderByExpr {
    pub expr: SqlExpr,
    pub asc: Option<bool>,
}

/// An ORDER BY clause.
#[derive(Debug, PartialEq, Eq)]
pub enum SqlOrderBy {
    Expressions(Vec<SqlOrderByExpr>),
    All,
}

/// A LIMIT clause.
#[derive(Debug, PartialEq, Eq)]
pub enum SqlLimit {
    LimitOffset { limit: Option<SqlExpr>, offset: Option<SqlExpr> },
    OffsetCommaLimit { offset: SqlExpr, limit: SqlExpr },
}

/// A SELECT.
#[derive(Debug, PartialEq, Eq)]
pub struct SqlSelect {
    pub distinct: bool,
    pub projection: Vec<SqlSelectItem>,
    pub from: Vec<SqlTableWithJoins>,
    pub selection: Option<SqlExpr>,
    pub group_by: SqlGroupBy,
    pub having: Option<SqlExpr>,
}

/// The body of a query. A statement that writes can stand in place of one.
#[derive(Debug, PartialEq, Eq)]
pub enum SqlSetExpr {
    Select(SqlSelect),
    Values(Vec<Vec<SqlExpr>>),
    Statement(Box<SqlStatement>),
    Other,
}

/// A query, and whether it has a WITH clause.
#[derive(Debug, PartialEq, Eq)]
pub struct SqlQuery {
    pub with: bool,
    pub body: SqlSetExpr,
    pub order_by: Option<SqlOrderBy>,
    pub limit_clause: Option<SqlLimit>,
}

/// What an assignment assigns to.
#[derive(Debug, PartialEq, Eq)]
pub enum SqlAssignmentTarget {
    ColumnName(SqlObjectName),
    Tuple,
}

/// An assignment.
#[derive(Debug, PartialEq, Eq)]
pub struct SqlAssignment {
    pub target: SqlAssignmentTarget,
    pub value: SqlExpr,
}

/// An UPDATE.
#[derive(Debug, PartialEq, Eq)]
pub struct SqlUpdate {
    pub table: SqlTableWithJoins,
    pub assignments: Vec<SqlAssignment>,
    pub from: Option<Vec<SqlTableWithJoins>>,
    pub selection: Option<SqlExpr>,
    pub returning: Option<Vec<SqlSelectItem>>,
    pub limit: Option<SqlExpr>,
}

/// A DELETE.
#[derive(Debug, PartialEq, Eq)]
pub struct SqlDelete {
    pub tables: Vec<String>,
    pub from: Vec<SqlTableWithJoins>,
    pub using: Option<Vec<SqlTableWithJoins>>,
    pub selection: Option<SqlExpr>,
    pub returning: Option<Vec<SqlSelectItem>>,
    pub order_by: Vec<SqlOrderByExpr>,
    pub limit: Option<SqlExpr>,
}

/// What an INSERT inserts into.
#[derive(Debug, PartialEq, Eq)]
pub enum SqlTableObject {
    TableName(String),
    Other,
}

/// An INSERT. An ON clause is kept as its debug text.
#[derive(Debug, PartialEq, Eq)]
pub struct SqlInsert {
    pub table: SqlTableObject,
    pub columns: Vec<String>,
    pub source: Option<SqlQuery>,
    pub assignments: Vec<SqlAssignment>,
    pub on: Option<String>,
    pub returning: Option<Vec<SqlSelectItem>>,
}

/// A column of an index or of a primary key. What is no name is kept as its
/// debug text.
#[derive(Debug, PartialEq, Eq)]
pub enum SqlIndexColumn {
    Identifier(String),
    CompoundIdentifier(Vec<String>),
    Other(String),
}

/// An option of a column.
#[derive(Clone, Copy, Debug, PartialEq, Eq, Structural)]
pub enum SqlColumnOption {
    PrimaryKey,
    Other,
}

/// A column of a new table. Its type is kept as its debug text, which begins
/// with the name of the type.
#[derive(Debug, PartialEq, Eq)]
pub struct SqlColumnDef {
    pub name: String,
    pub data_type: String,
    pub options: Vec<SqlColumnOption>,
}

/// A constraint of a new table.
#[derive(Debug, PartialEq, Eq)]
pub enum SqlTableConstraint {
    PrimaryKey(Vec<SqlIndexColumn>),
    Other,
}

/// A CREATE TABLE.
#[derive(Debug, PartialEq, Eq)]
pub struct SqlCreateTable {
    pub name: String,
    pub columns: Vec<SqlColumnDef>,
    pub constraints: Vec<SqlTableConstraint>,
    pub if_not_exists: bool,
}

/// A CREATE INDEX.
#[derive(Debug, PartialEq, Eq)]
pub struct SqlCreateIndex {
    pub name: Option<String>,
    pub table_name: String,
    pub columns: Vec<SqlIndexColumn>,
    pub unique: bool,
}

/// What a DROP drops.
#[derive(Clone, Copy, Debug, PartialEq, Eq, Structural)]
pub enum SqlObjectType {
    Table,
    Index,
    Other,
}

/// A statement.
#[derive(Debug, PartialEq, Eq)]
pub enum SqlStatement {
    Query(SqlQuery),
    Insert(SqlInsert),
    Update(SqlUpdate),
    Delete(SqlDelete),
    CreateTable(SqlCreateTable),
    CreateIndex(SqlCreateIndex),
    Drop { object_type: SqlObjectType, names: Vec<String>, if_exists: bool },
    Other,
}

} // verus!
