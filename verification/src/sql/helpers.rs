//! Resolving names and literals.
use vstd::prelude::*;
use crate::name_table;
use crate::plain;
use crate::query::{ColumnRef, QualifiedColumn};
use crate::schema::{self, find_column, TableModel, TableSchema};
use crate::sql::error::{unsupported, Refusal, TranslateError};
use crate::sql::name_map::NameMap;
use crate::sql::syntax::{SqlExpr, SqlLiteral};
use crate::text::{self, joined, parse_signed};
use crate::value::{EngineValue, ValueModel};

verus! {

/// From the name by which a statement calls a table to the table's own name.
pub type Aliases = Map<Seq<char>, Seq<char>>;

/// The tables of a statement, by name.
pub type Tables = Map<Seq<char>, TableModel>;

/// The result of a translation step, mathematically.
pub type Translated<T> = Result<T, Refusal>;

/// A table's own name.
pub open spec fn unaliased(aliases: Aliases, name: Seq<char>) -> Seq<char> {
    if aliases.contains_key(name) {
        aliases[name]
    } else {
        name
    }
}

/// The table, if one is named, and the column of an identifier.
pub open spec fn identifier_of(e: SqlExpr) -> Translated<(Option<Seq<char>>, Seq<char>)> {
    match e {
        SqlExpr::Identifier(name) => Ok((None, name@)),
        SqlExpr::CompoundIdentifier(parts) => if parts@.len() == 0 {
            Err(Refusal::UnsupportedFeature("empty compound identifier"@))
        } else if parts@.len() == 1 {
            Ok((None, parts@[0]@))
        } else if parts@.len() == 2 {
            Ok((Some(parts@[0]@), parts@[1]@))
        } else {
            Err(
                Refusal::UnsupportedFeature("compound identifiers with >2 parts unsupported"@),
            )
        },
        _ => Err(Refusal::UnsupportedFeature("expected column identifier"@)),
    }
}

/// The table, if one is named, and the column of an identifier.
pub fn extract_identifier(expr: &SqlExpr) -> (r: Result<(Option<String>, String), TranslateError>)
    ensures
        plain::outcome(r) == identifier_of(*expr),
{
    match expr {
        SqlExpr::Identifier(name) => Ok((None, name.clone())),
        SqlExpr::CompoundIdentifier(parts) => {
            if parts.len() == 0 {
                Err(unsupported("empty compound identifier"))
            } else if parts.len() == 1 {
                Ok((None, parts[0].clone()))
            } else if parts.len() == 2 {
                Ok((Some(parts[0].clone()), parts[1].clone()))
            } else {
                Err(unsupported("compound identifiers with >2 parts unsupported"))
            }
        },
        _ => Err(unsupported("expected column identifier")),
    }
}

/// A table's own name.
pub fn table_name(aliases: &NameMap<String>, name: &str) -> (r: String)
    ensures
        r@ == unaliased(aliases.deep_view(), name@),
{
    match aliases.get(name) {
        Some(own) => own.clone(),
        None => name.to_string(),
    }
}

/// Whether a table has a column of that name.
pub open spec fn has_column(table: TableModel, column: Seq<char>) -> bool {
    schema::column_position(table.columns, column) is Some
}

/// A column of a table, by the two names.
pub open spec fn column_in(tables: Tables, table: Seq<char>, column: Seq<char>) -> Translated<
    ColumnRef,
> {
    if !tables.contains_key(table) {
        Err(Refusal::UnknownTable(table))
    } else {
        match schema::column_position(tables[table].columns, column) {
            Some(i) => Ok(ColumnRef { table, column_index: i as usize }),
            None => Err(Refusal::UnknownColumn(column)),
        }
    }
}

fn lookup_column(tables: &NameMap<TableSchema>, table: String, column: &str) -> (r: Result<
    QualifiedColumn,
    TranslateError,
>)
    ensures
        plain::outcome(r) == column_in(tables.deep_view(), table@, column@),
{
    match tables.get(table.as_str()) {
        Some(schema) => match find_column(&schema.columns, column) {
            Some(i) => Ok(QualifiedColumn { table, column_index: i }),
            None => Err(TranslateError::UnknownColumn(column.to_string())),
        },
        None => Err(TranslateError::UnknownTable(table)),
    }
}

/// The column that a name with a table stands for.
pub open spec fn qualified_column(e: SqlExpr, aliases: Aliases, tables: Tables) -> Translated<
    ColumnRef,
> {
    match identifier_of(e) {
        Err(r) => Err(r),
        Ok((None, _)) => Err(Refusal::UnsupportedFeature("qualified column reference required"@)),
        Ok((Some(table), column)) => column_in(tables, unaliased(aliases, table), column),
    }
}

/// The column that a name with a table stands for.
pub fn resolve_qualified_column(
    expr: &SqlExpr,
    alias_map: &NameMap<String>,
    table_schemas: &NameMap<TableSchema>,
) -> (r: Result<QualifiedColumn, TranslateError>)
    ensures
        plain::outcome(r) == qualified_column(
            *expr,
            alias_map.deep_view(),
            table_schemas.deep_view(),
        ),
{
    match extract_identifier(expr) {
        Err(e) => Err(e),
        Ok((None, _)) => Err(unsupported("qualified column reference required")),
        Ok((Some(table), column)) => {
            let name = table_name(alias_map, table.as_str());
            lookup_column(table_schemas, name, column.as_str())
        },
    }
}

/// Those of the tables called that have `column`, in the order in which they are
/// called.
pub open spec fn occurrences(
    called: Seq<Seq<char>>,
    tables: Tables,
    column: Seq<char>,
) -> Seq<Seq<char>>
    decreases called.len(),
{
    if called.len() == 0 {
        Seq::empty()
    } else {
        let before = occurrences(called.drop_last(), tables, column);
        let table = called.last();
        if tables.contains_key(table) && has_column(tables[table], column) {
            before.push(table)
        } else {
            before
        }
    }
}

/// The refusal of a name that stands for more than one column.
pub open spec fn ambiguous(column: Seq<char>) -> Refusal {
    Refusal::UnsupportedFeature("ambiguous column reference: "@ + column)
}

/// The column that a name stands for among the tables called.
pub open spec fn column_among(
    e: SqlExpr,
    aliases: Aliases,
    called: Seq<Seq<char>>,
    tables: Tables,
) -> Translated<ColumnRef> {
    match identifier_of(e) {
        Err(r) => Err(r),
        Ok((Some(table), column)) => column_in(tables, unaliased(aliases, table), column),
        Ok((None, column)) => {
            let found = occurrences(called, tables, column);
            if found.len() == 0 {
                Err(Refusal::UnknownColumn(column))
            } else if found.len() > 1 {
                Err(ambiguous(column))
            } else {
                column_in(tables, found[0], column)
            }
        },
    }
}

proof fn lemma_occurrences_grow(
    called: Seq<Seq<char>>,
    tables: Tables,
    column: Seq<char>,
    n: int,
)
    requires
        0 <= n <= called.len(),
    ensures
        occurrences(called.take(n), tables, column).len() <= occurrences(
            called,
            tables,
            column,
        ).len(),
    decreases called.len() - n,
{
    if n < called.len() {
        assert(called.take(n + 1).drop_last() =~= called.take(n));
        lemma_occurrences_grow(called, tables, column, n + 1);
    } else {
        assert(called.take(n) =~= called);
    }
}

/// The column that a name stands for; a name without a table must occur in
/// one of the tables called only.
pub fn resolve_column(
    expr: &SqlExpr,
    alias_map: &NameMap<String>,
    referenced_tables: &Vec<String>,
    table_schemas: &NameMap<TableSchema>,
) -> (r: Result<QualifiedColumn, TranslateError>)
    ensures
        plain::outcome(r) == column_among(
            *expr,
            alias_map.deep_view(),
            referenced_tables.deep_view(),
            table_schemas.deep_view(),
        ),
{
    let (table, column) = match extract_identifier(expr) {
        Err(e) => {
            return Err(e);
        },
        Ok(found) => found,
    };
    if let Some(table) = table {
        let name = table_name(alias_map, table.as_str());
        return lookup_column(table_schemas, name, column.as_str());
    }
    let ghost called = referenced_tables.deep_view();
    let ghost tables = table_schemas.deep_view();
    let mut found: Option<String> = None;
    let mut i: usize = 0;
    while i < referenced_tables.len()
        invariant
            i <= referenced_tables.len(),
            called == referenced_tables.deep_view(),
            tables == table_schemas.deep_view(),
            identifier_of(*expr) == Ok::<(Option<Seq<char>>, Seq<char>), Refusal>(
                (None, column@),
            ),
            match found {
                Some(t) => occurrences(called.take(i as int), tables, column@) == seq![t@],
                None => occurrences(called.take(i as int), tables, column@).len() == 0,
            },
        decreases referenced_tables.len() - i,
    {
        let t = &referenced_tables[i];
        proof {
            assert(called.take(i + 1).drop_last() =~= called.take(i as int));
            assert(called.take(i + 1).last() == t@);
            lemma_occurrences_grow(called, tables, column@, i + 1);
        }
        if let Some(schema) = table_schemas.get(t.as_str()) {
            if find_column(&schema.columns, column.as_str()).is_some() {
                if found.is_some() {
                    return Err(
                        TranslateError::UnsupportedFeature(
                            joined("ambiguous column reference: ", column.as_str()),
                        ),
                    );
                }
                proof {
                    let before = occurrences(called.take(i as int), tables, column@);
                    assert(before.push(t@) =~= seq![t@]);
                }
                found = Some(t.clone());
            }
        }
        i += 1;
    }
    proof {
        assert(called.take(i as int) =~= called);
    }
    match found {
        Some(t) => lookup_column(table_schemas, t, column.as_str()),
        None => Err(TranslateError::UnknownColumn(column)),
    }
}

/// Whether the table of that name is there and has the column.
pub open spec fn holds_column(tables: Tables, table: Seq<char>, column: Seq<char>) -> bool {
    tables.contains_key(table) && has_column(tables[table], column)
}

/// The column that a bare name stands for among all tables.
pub open spec fn column_anywhere(column: Seq<char>, tables: Tables) -> Translated<ColumnRef> {
    if exists|a: Seq<char>, b: Seq<char>|
        a != b && #[trigger] holds_column(tables, a, column) && #[trigger] holds_column(
            tables,
            b,
            column,
        ) {
        Err(ambiguous(column))
    } else if exists|a: Seq<char>| #[trigger] holds_column(tables, a, column) {
        column_in(tables, choose|a: Seq<char>| #[trigger] holds_column(tables, a, column), column)
    } else {
        Err(Refusal::UnknownColumn(column))
    }
}

/// The column that a name stands for among all tables.
pub open spec fn local_column(e: SqlExpr, aliases: Aliases, tables: Tables) -> Translated<
    ColumnRef,
> {
    match e {
        SqlExpr::Identifier(name) => column_anywhere(name@, tables),
        SqlExpr::CompoundIdentifier(parts) => if parts@.len() != 2 {
            Err(
                Refusal::UnsupportedFeature("compound identifiers with >2 parts unsupported"@),
            )
        } else {
            column_in(tables, unaliased(aliases, parts@[0]@), parts@[1]@)
        },
        _ => Err(Refusal::UnsupportedFeature("expected column identifier"@)),
    }
}

fn find_anywhere(column: &str, table_schemas: &NameMap<TableSchema>) -> (r: Result<
    QualifiedColumn,
    TranslateError,
>)
    ensures
        plain::outcome(r) == column_anywhere(column@, table_schemas.deep_view()),
{
    let ghost tables = table_schemas.deep_view();
    let entries = table_schemas.entries();
    let ghost all = entries.deep_view();
    let mut found: Option<String> = None;
    let mut i: usize = 0;
    while i < entries.len()
        invariant
            i <= entries.len(),
            all == entries.deep_view(),
            tables == table_schemas.deep_view(),
            tables == name_table::first_map(all),
            forall|j: int, k: int|
                0 <= j < k < entries.len() ==> (#[trigger] all[j]).0 != (#[trigger] all[k]).0,
            match found {
                Some(t) => holds_column(tables, t@, column@) && forall|j: int|
                    0 <= j < i ==> (#[trigger] all[j]).0 == t@ || !holds_column(
                        tables,
                        all[j].0,
                        column@,
                    ),
                None => forall|j: int|
                    0 <= j < i ==> !holds_column(tables, (#[trigger] all[j]).0, column@),
            },
            found matches Some(t) ==> exists|j: int| 0 <= j < i && (#[trigger] all[j]).0 == t@,
        decreases entries.len() - i,
    {
        proof {
            name_table::lemma_first_map_at(all, i as int);
            assert(all[i as int] == entries@[i as int].deep_view());
        }
        let (name, schema) = &entries[i];
        if find_column(&schema.columns, column).is_some() {
            assert(holds_column(tables, name@, column@));
            if let Some(t) = &found {
                proof {
                    let j = choose|j: int| 0 <= j < i && (#[trigger] all[j]).0 == t@;
                    assert(all[j].0 != all[i as int].0);
                }
                return Err(
                    TranslateError::UnsupportedFeature(
                        joined("ambiguous column reference: ", column),
                    ),
                );
            }
            found = Some(name.clone());
        }
        i += 1;
    }
    proof {
        assert forall|a: Seq<char>| #[trigger] holds_column(tables, a, column@) implies (
        found matches Some(t) && t@ == a) by {
            let at = name_table::lemma_first_map_entry(all, a);
            assert(all[at].0 == a);
        }
    }
    match found {
        Some(t) => lookup_column(table_schemas, t, column),
        None => Err(TranslateError::UnknownColumn(column.to_string())),
    }
}

/// The column that a name stands for among all tables, which must be one.
pub fn resolve_column_local(
    expr: &SqlExpr,
    alias_map: &NameMap<String>,
    table_schemas: &NameMap<TableSchema>,
) -> (r: Result<QualifiedColumn, TranslateError>)
    ensures
        plain::outcome(r) == local_column(
            *expr,
            alias_map.deep_view(),
            table_schemas.deep_view(),
        ),
{
    match expr {
        SqlExpr::Identifier(name) => find_anywhere(name.as_str(), table_schemas),
        SqlExpr::CompoundIdentifier(parts) => {
            if parts.len() != 2 {
                return Err(unsupported("compound identifiers with >2 parts unsupported"));
            }
            let table = table_name(alias_map, parts[0].as_str());
            lookup_column(table_schemas, table, parts[1].as_str())
        },
        _ => Err(unsupported("expected column identifier")),
    }
}

/// The double that `parse` reads from a text.
pub open spec fn parsed_float<P: Fn(&str) -> Result<u64, String>>(
    parse: P,
    text: Seq<char>,
) -> Translated<ValueModel> {
    choose|v: Translated<ValueModel>| #[trigger] reads_as(parse, text, v)
}

/// `parse` can read `text` as `v`.
pub open spec fn reads_as<P: Fn(&str) -> Result<u64, String>>(
    parse: P,
    text: Seq<char>,
    v: Translated<ValueModel>,
) -> bool {
    exists|s: &str, r: Result<u64, String>| #[trigger]
        call_ensures(parse, (s,), r) && s@ == text && v == float_outcome(r)
}

pub open spec fn float_outcome(r: Result<u64, String>) -> Translated<ValueModel> {
    match r {
        Ok(bits) => Ok(ValueModel::Float(bits)),
        Err(message) => Err(
            Refusal::UnsupportedFeature("invalid float literal: "@ + message@),
        ),
    }
}

/// `parse` takes every text, and reads it in one way.
pub open spec fn is_float_parser<P: Fn(&str) -> Result<u64, String>>(parse: P) -> bool {
    &&& forall|s: &str| #[trigger] call_requires(parse, (s,))
    &&& forall|s: &str, r: Result<u64, String>| #[trigger]
        call_ensures(parse, (s,), r) ==> float_outcome(r) == parsed_float(parse, s@)
}

/// The value of a literal.
pub open spec fn literal_value<P: Fn(&str) -> Result<u64, String>>(
    parse: P,
    e: SqlExpr,
) -> Translated<ValueModel> {
    match e {
        SqlExpr::Value(SqlLiteral::Number(s)) => if s@.contains('.') {
            parsed_float(parse, s@)
        } else {
            match text::signed_of(s@) {
                Ok(n) => Ok(ValueModel::Integer(n as i64)),
                Err(why) => Err(
                    Refusal::UnsupportedFeature(
                        "invalid integer literal: "@ + text::number_error_text(why),
                    ),
                ),
            }
        },
        SqlExpr::Value(SqlLiteral::Text(s)) => Ok(ValueModel::Text(s@)),
        SqlExpr::Value(SqlLiteral::Null) => Ok(ValueModel::Null),
        SqlExpr::Value(SqlLiteral::Other(debug)) => Err(
            Refusal::UnsupportedFeature("unsupported literal: "@ + debug@),
        ),
        _ => Err(Refusal::UnsupportedFeature("expected literal value on RHS"@)),
    }
}

fn has_dot(s: &str) -> (r: bool)
    ensures
        r == s@.contains('.'),
{
    let chars = text::characters(s);
    let mut i: usize = 0;
    while i < chars.len()
        invariant
            i <= chars.len(),
            chars@ == s@,
            forall|j: int| 0 <= j < i ==> s@[j] != '.',
        decreases chars.len() - i,
    {
        if chars[i] == '.' {
            assert(s@[i as int] == '.');
            return true;
        }
        i += 1;
    }
    false
}

/// The value of a literal. A number with a dot is a double, which `parse`
/// reads.
pub fn sql_value_to_engine_value<P: Fn(&str) -> Result<u64, String>>(
    expr: &SqlExpr,
    parse: &P,
) -> (r: Result<EngineValue, TranslateError>)
    requires
        is_float_parser(*parse),
    ensures
        plain::outcome(r) == literal_value(*parse, *expr),
{
    match expr {
        SqlExpr::Value(SqlLiteral::Number(s)) => {
            if has_dot(s.as_str()) {
                match (*parse)(s.as_str()) {
                    Ok(bits) => Ok(EngineValue::Float(bits)),
                    Err(message) => Err(
                        TranslateError::UnsupportedFeature(
                            joined("invalid float literal: ", message.as_str()),
                        ),
                    ),
                }
            } else {
                match parse_signed(s.as_str()) {
                    Ok(n) => Ok(EngineValue::Integer(n)),
                    Err(why) => Err(
                        TranslateError::UnsupportedFeature(
                            joined("invalid integer literal: ", why.text()),
                        ),
                    ),
                }
            }
        },
        SqlExpr::Value(SqlLiteral::Text(s)) => Ok(EngineValue::Text(s.clone())),
        SqlExpr::Value(SqlLiteral::Null) => Ok(EngineValue::Null),
        SqlExpr::Value(SqlLiteral::Other(debug)) => Err(
            TranslateError::UnsupportedFeature(joined("unsupported literal: ", debug.as_str())),
        ),
        _ => Err(unsupported("expected literal value on RHS")),
    }
}

} // verus!
