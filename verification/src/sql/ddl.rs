//! CREATE and DROP statements.
use vstd::prelude::*;
use vstd::string::*;
use crate::plain::{self, no_items, one_item, push_back, same_text};
use crate::schema::{
    self, find_column, ColumnModel, ColumnSchema, IndexModel, IndexSchema, TableModel, TableSchema,
};
use crate::schema_resolver::SchemaResolver;
use crate::sql::error::{unsupported, Refusal, TranslateError};
use crate::sql::helpers::Translated;
use crate::sql::ir::{DdlModel, DdlOp};
use crate::sql::syntax::{
    SqlColumnDef, SqlColumnOption, SqlCreateIndex, SqlCreateTable, SqlIndexColumn, SqlObjectType,
    SqlTableConstraint,
};
use crate::text::{characters, joined, joined3};
use crate::value::EngineType;

verus! {

/// Where the name that a debug text begins with ends.
pub open spec fn name_end(debug: Seq<char>) -> int
    decreases debug.len(),
{
    if debug.len() == 0 || debug[0] == '(' || debug[0] == ' ' {
        0
    } else {
        1 + name_end(debug.drop_first())
    }
}

/// The name that a debug text begins with.
pub open spec fn leading_name(debug: Seq<char>) -> Seq<char> {
    debug.take(name_end(debug))
}

/// The name that a debug text begins with.
fn read_leading_name(debug: &str) -> (r: String)
    ensures
        r@ == leading_name(debug@),
{
    let chars = characters(debug);
    let mut i: usize = 0;
    proof {
        assert(debug@.skip(0) =~= debug@);
    }
    while i < chars.len() && chars[i] != '(' && chars[i] != ' '
        invariant
            i <= chars.len(),
            chars@ == debug@,
            name_end(debug@) == i + name_end(debug@.skip(i as int)),
        decreases chars.len() - i,
    {
        proof {
            assert(debug@.skip(i as int).drop_first() =~= debug@.skip(i + 1));
        }
        i += 1;
    }
    let name = debug.substring_char(0, i);
    proof {
        assert(debug@.subrange(0, i as int) =~= debug@.take(i as int));
    }
    name.to_string()
}

/// The SQL types of integers.
pub open spec fn names_integer(name: Seq<char>) -> bool {
    name == "Int"@
        || name == "Int2"@
        || name == "Int4"@
        || name == "Int8"@
        || name == "Integer"@
        || name == "SmallInt"@
        || name == "BigInt"@
        || name == "MediumInt"@
        || name == "TinyInt"@
        || name == "Unsigned"@
        || name == "UnsignedInteger"@
        || name == "Signed"@
        || name == "SignedInteger"@
        || name == "IntUnsigned"@
        || name == "Int4Unsigned"@
        || name == "BigIntUnsigned"@
        || name == "MediumIntUnsigned"@
        || name == "TinyIntUnsigned"@
        || name == "UInt8"@
        || name == "UInt16"@
        || name == "UInt32"@
        || name == "UInt64"@
        || name == "UInt128"@
        || name == "UInt256"@
        || name == "UBigInt"@
        || name == "UHugeInt"@
        || name == "SmallIntUnsigned"@
        || name == "UTinyInt"@
        || name == "Int2Unsigned"@
}

fn is_integer_name(name: &str) -> (r: bool)
    ensures
        r == names_integer(name@),
{
    same_text(name, "Int")
        || same_text(name, "Int2")
        || same_text(name, "Int4")
        || same_text(name, "Int8")
        || same_text(name, "Integer")
        || same_text(name, "SmallInt")
        || same_text(name, "BigInt")
        || same_text(name, "MediumInt")
        || same_text(name, "TinyInt")
        || same_text(name, "Unsigned")
        || same_text(name, "UnsignedInteger")
        || same_text(name, "Signed")
        || same_text(name, "SignedInteger")
        || same_text(name, "IntUnsigned")
        || same_text(name, "Int4Unsigned")
        || same_text(name, "BigIntUnsigned")
        || same_text(name, "MediumIntUnsigned")
        || same_text(name, "TinyIntUnsigned")
        || same_text(name, "UInt8")
        || same_text(name, "UInt16")
        || same_text(name, "UInt32")
        || same_text(name, "UInt64")
        || same_text(name, "UInt128")
        || same_text(name, "UInt256")
        || same_text(name, "UBigInt")
        || same_text(name, "UHugeInt")
        || same_text(name, "SmallIntUnsigned")
        || same_text(name, "UTinyInt")
        || same_text(name, "Int2Unsigned")
}

/// The SQL types of floating-point numbers.
pub open spec fn names_float(name: Seq<char>) -> bool {
    name == "Float"@
        || name == "FloatUnsigned"@
        || name == "Float4"@
        || name == "Float32"@
        || name == "Float64"@
}

fn is_float_name(name: &str) -> (r: bool)
    ensures
        r == names_float(name@),
{
    same_text(name, "Float")
        || same_text(name, "FloatUnsigned")
        || same_text(name, "Float4")
        || same_text(name, "Float32")
        || same_text(name, "Float64")
}

/// The SQL types of texts.
pub open spec fn names_text(name: Seq<char>) -> bool {
    name == "Char"@
        || name == "Character"@
        || name == "CharacterVarying"@
        || name == "CharVarying"@
        || name == "Varchar"@
        || name == "Nvarchar"@
        || name == "String"@
        || name == "Text"@
        || name == "TinyText"@
        || name == "MediumText"@
        || name == "LongText"@
        || name == "JSON"@
        || name == "Clob"@
        || name == "CharacterLargeObject"@
        || name == "CharLargeObject"@
}

fn is_text_name(name: &str) -> (r: bool)
    ensures
        r == names_text(name@),
{
    same_text(name, "Char")
        || same_text(name, "Character")
        || same_text(name, "CharacterVarying")
        || same_text(name, "CharVarying")
        || same_text(name, "Varchar")
        || same_text(name, "Nvarchar")
        || same_text(name, "String")
        || same_text(name, "Text")
        || same_text(name, "TinyText")
        || same_text(name, "MediumText")
        || same_text(name, "LongText")
        || same_text(name, "JSON")
        || same_text(name, "Clob")
        || same_text(name, "CharacterLargeObject")
        || same_text(name, "CharLargeObject")
}

/// The SQL types of bytes.
pub open spec fn names_blob(name: Seq<char>) -> bool {
    name == "Binary"@
        || name == "Varbinary"@
        || name == "Blob"@
        || name == "TinyBlob"@
        || name == "MediumBlob"@
        || name == "LongBlob"@
        || name == "Bytes"@
}

fn is_blob_name(name: &str) -> (r: bool)
    ensures
        r == names_blob(name@),
{
    same_text(name, "Binary")
        || same_text(name, "Varbinary")
        || same_text(name, "Blob")
        || same_text(name, "TinyBlob")
        || same_text(name, "MediumBlob")
        || same_text(name, "LongBlob")
        || same_text(name, "Bytes")
}

/// The type of the engine that a SQL type is stored as.
pub open spec fn engine_type_of(debug: Seq<char>) -> Translated<EngineType> {
    let name = leading_name(debug);
    if names_integer(name) {
        Ok(EngineType::Integer)
    } else if names_float(name) {
        Ok(EngineType::Float)
    } else if names_text(name) {
        Ok(EngineType::Text)
    } else if names_blob(name) {
        Ok(EngineType::Blob)
    } else {
        Err(Refusal::UnsupportedFeature("unsupported CREATE TABLE data type: "@ + debug))
    }
}

/// The type of the engine that a SQL type is stored as.
fn sql_type_to_engine_type(data_type: &str) -> (r: Result<EngineType, TranslateError>)
    ensures
        match r {
            Ok(t) => engine_type_of(data_type@) == Ok::<EngineType, Refusal>(t),
            Err(e) => engine_type_of(data_type@) == Err::<EngineType, Refusal>(e.deep_view()),
        },
{
    let name = read_leading_name(data_type);
    if is_integer_name(name.as_str()) {
        Ok(EngineType::Integer)
    } else if is_float_name(name.as_str()) {
        Ok(EngineType::Float)
    } else if is_text_name(name.as_str()) {
        Ok(EngineType::Text)
    } else if is_blob_name(name.as_str()) {
        Ok(EngineType::Blob)
    } else {
        Err(
            TranslateError::UnsupportedFeature(
                joined("unsupported CREATE TABLE data type: ", data_type),
            ),
        )
    }
}

/// Names with a dot between each two.
pub open spec fn dotted(parts: Seq<Seq<char>>) -> Seq<char>
    decreases parts.len(),
{
    if parts.len() == 0 {
        Seq::empty()
    } else if parts.len() == 1 {
        parts[0]
    } else {
        dotted(parts.drop_last()) + "."@ + parts.last()
    }
}

fn join_with_dots(parts: &Vec<String>) -> (r: String)
    ensures
        r@ == dotted(parts.deep_view()),
{
    let ghost all = parts.deep_view();
    if parts.len() == 0 {
        let r = "".to_string();
        proof {
            reveal_strlit("");
            assert(r@ =~= Seq::<char>::empty());
        }
        return r;
    }
    let mut text = parts[0].clone();
    let mut i: usize = 1;
    proof {
        assert(all.take(1)[0] == text@);
    }
    while i < parts.len()
        invariant
            1 <= i <= parts.len(),
            all == parts.deep_view(),
            text@ == dotted(all.take(i as int)),
        decreases parts.len() - i,
    {
        proof {
            assert(all.take(i + 1).drop_last() =~= all.take(i as int));
            assert(all.take(i + 1).last() == parts@[i as int]@);
        }
        text = joined3(text.as_str(), ".", parts[i].as_str());
        i += 1;
    }
    proof {
        assert(all.take(i as int) =~= all);
    }
    text
}

/// The name of a column of an index or a primary key, `refusal` being what is
/// said of an expression that is no name.
pub open spec fn index_column_name(c: SqlIndexColumn, refusal: Seq<char>) -> Translated<Seq<char>> {
    match c {
        SqlIndexColumn::Identifier(name) => Ok(name@),
        SqlIndexColumn::CompoundIdentifier(parts) => Ok(dotted(parts.deep_view())),
        SqlIndexColumn::Other(debug) => Err(Refusal::UnsupportedFeature(refusal + debug@)),
    }
}

fn read_index_column_name(c: &SqlIndexColumn, refusal: &str) -> (r: Result<String, TranslateError>)
    ensures
        plain::outcome(r) == index_column_name(*c, refusal@),
{
    match c {
        SqlIndexColumn::Identifier(name) => Ok(name.clone()),
        SqlIndexColumn::CompoundIdentifier(parts) => Ok(join_with_dots(parts)),
        SqlIndexColumn::Other(debug) => Err(
            TranslateError::UnsupportedFeature(joined(refusal, debug.as_str())),
        ),
    }
}

/// A column of a new table.
pub open spec fn column_of(c: SqlColumnDef) -> Translated<ColumnModel> {
    match engine_type_of(c.data_type@) {
        Err(r) => Err(r),
        Ok(data_type) => Ok(ColumnModel { name: c.name@, data_type }),
    }
}

/// The columns of a new table, or the first refusal.
pub open spec fn columns_defined(columns: Seq<SqlColumnDef>) -> Translated<Seq<ColumnModel>> {
    plain::collected(columns, |c: SqlColumnDef| column_of(c))
}

/// How often a column is declared to be the primary key.
pub open spec fn key_marks(options: Seq<SqlColumnOption>) -> nat
    decreases options.len(),
{
    if options.len() == 0 {
        0
    } else {
        key_marks(options.drop_last()) + if options.last() == SqlColumnOption::PrimaryKey {
            1nat
        } else {
            0nat
        }
    }
}

/// The columns that are declared to be the primary key, once for each time.
pub open spec fn marked_keys(columns: Seq<SqlColumnDef>) -> Seq<Seq<char>>
    decreases columns.len(),
{
    if columns.len() == 0 {
        Seq::empty()
    } else {
        let column = columns.last();
        marked_keys(columns.drop_last()) + Seq::new(
            key_marks(column.options@),
            |i: int| column.name@,
        )
    }
}

/// Adds the name of a column once for each time that it is declared to be the
/// primary key.
fn add_marked(names: &mut Vec<String>, column: &SqlColumnDef)
    ensures
        final(names).deep_view() == old(names).deep_view() + Seq::new(
            key_marks(column.options@),
            |i: int| column.name@,
        ),
{
    let ghost before = names.deep_view();
    let ghost options = column.options@;
    let mut i: usize = 0;
    proof {
        assert(before =~= before + Seq::new(key_marks(options.take(0)), |i: int| column.name@));
    }
    while i < column.options.len()
        invariant
            i <= column.options.len(),
            options == column.options@,
            names.deep_view() == before + Seq::new(
                key_marks(options.take(i as int)),
                |i: int| column.name@,
            ),
        decreases column.options.len() - i,
    {
        proof {
            assert(options.take(i + 1).drop_last() =~= options.take(i as int));
            assert(options.take(i + 1).last() == options[i as int]);
        }
        if column.options[i] == SqlColumnOption::PrimaryKey {
            push_back(names, column.name.clone());
        }
        proof {
            assert(names.deep_view() =~= before + Seq::new(
                key_marks(options.take(i + 1)),
                |i: int| column.name@,
            ));
        }
        i += 1;
    }
    proof {
        assert(options.take(i as int) =~= options);
    }
}

/// What is said of a primary key column that is no name.
pub open spec fn key_refusal() -> Seq<char> {
    "unsupported primary key column expression: "@
}

/// The columns that a constraint makes the primary key.
pub open spec fn constraint_keys(c: SqlTableConstraint) -> Translated<Seq<Seq<char>>> {
    match c {
        SqlTableConstraint::PrimaryKey(columns) => plain::collected(
            columns@,
            |c: SqlIndexColumn| index_column_name(c, key_refusal()),
        ),
        SqlTableConstraint::Other => Ok(Seq::empty()),
    }
}

/// The columns that the constraints make the primary key.
pub open spec fn constrained_keys(constraints: Seq<SqlTableConstraint>) -> Translated<
    Seq<Seq<char>>,
> {
    match plain::collected(constraints, |c: SqlTableConstraint| constraint_keys(c)) {
        Err(r) => Err(r),
        Ok(lists) => Ok(lists.flatten()),
    }
}

/// The names of the columns of a key, or the first refusal.
fn read_key_names(columns: &Vec<SqlIndexColumn>) -> (r: Result<Vec<String>, TranslateError>)
    ensures
        plain::outcome(r) == plain::collected(
            columns@,
            |c: SqlIndexColumn| index_column_name(c, key_refusal()),
        ),
{
    let ghost f = |c: SqlIndexColumn| index_column_name(c, key_refusal());
    let mut names: Vec<String> = no_items();
    let mut i: usize = 0;
    proof {
        assert(columns@.take(0) =~= Seq::empty());
    }
    while i < columns.len()
        invariant
            i <= columns.len(),
            f == (|c: SqlIndexColumn| index_column_name(c, key_refusal())),
            plain::collected(columns@.take(i as int), f) == Ok::<Seq<Seq<char>>, Refusal>(
                names.deep_view(),
            ),
        decreases columns.len() - i,
    {
        proof {
            plain::lemma_collected_step(columns@, f, i as int);
            assert(f(columns@[i as int]) == index_column_name(columns@[i as int], key_refusal()));
        }
        match read_index_column_name(&columns[i], "unsupported primary key column expression: ") {
            Ok(name) => {
                push_back(&mut names, name);
            },
            Err(e) => {
                return Err(e);
            },
        }
        i += 1;
    }
    proof {
        assert(columns@.take(i as int) =~= columns@);
    }
    Ok(names)
}

/// The names of the columns that the constraints make the primary key.
fn read_constraints(constraints: &Vec<SqlTableConstraint>) -> (r: Result<
    Vec<String>,
    TranslateError,
>)
    ensures
        plain::outcome(r) == constrained_keys(constraints@),
{
    let ghost f = |c: SqlTableConstraint| constraint_keys(c);
    let mut names: Vec<String> = no_items();
    let mut i: usize = 0;
    proof {
        assert(constraints@.take(0) =~= Seq::empty());
        assert(Seq::<Seq<Seq<char>>>::empty().flatten() =~= Seq::<Seq<char>>::empty());
    }
    while i < constraints.len()
        invariant
            i <= constraints.len(),
            f == (|c: SqlTableConstraint| constraint_keys(c)),
            plain::collected(constraints@.take(i as int), f) matches Ok(lists)
                && names.deep_view() == lists.flatten(),
        decreases constraints.len() - i,
    {
        let ghost lists = plain::collected(constraints@.take(i as int), f)->Ok_0;
        let ghost so_far = names.deep_view();
        let ghost keys = constraint_keys(constraints@[i as int]);
        proof {
            plain::lemma_collected_step(constraints@, f, i as int);
            assert(f(constraints@[i as int]) == keys);
        }
        match &constraints[i] {
            SqlTableConstraint::PrimaryKey(columns) => match read_key_names(columns) {
                Ok(more) => {
                    let ghost added = more.deep_view();
                    let mut rest = more;
                    names.append(&mut rest);
                    proof {
                        assert(names.deep_view() =~= so_far + added);
                    }
                },
                Err(e) => {
                    return Err(e);
                },
            },
            SqlTableConstraint::Other => {
                proof {
                    assert(names.deep_view() =~= so_far + Seq::<Seq<char>>::empty());
                }
            },
        }
        proof {
            lists.lemma_flatten_push(keys->Ok_0);
        }
        i += 1;
    }
    proof {
        assert(constraints@.take(i as int) =~= constraints@);
    }
    Ok(names)
}

/// The places of the columns of these names; a name of no column is left out.
pub open spec fn placed(names: Seq<Seq<char>>, columns: Seq<ColumnModel>) -> Seq<usize>
    decreases names.len(),
{
    if names.len() == 0 {
        Seq::empty()
    } else {
        match schema::column_position(columns, names.last()) {
            Some(i) => placed(names.drop_last(), columns).push(i as usize),
            None => placed(names.drop_last(), columns),
        }
    }
}

fn places_of(names: &Vec<String>, columns: &Vec<ColumnSchema>) -> (r: Vec<usize>)
    ensures
        r@ == placed(names.deep_view(), columns.deep_view()),
{
    let ghost all = names.deep_view();
    let mut places: Vec<usize> = Vec::new();
    let mut i: usize = 0;
    while i < names.len()
        invariant
            i <= names.len(),
            all == names.deep_view(),
            places@ == placed(all.take(i as int), columns.deep_view()),
        decreases names.len() - i,
    {
        proof {
            assert(all.take(i + 1).drop_last() =~= all.take(i as int));
            assert(all.take(i + 1).last() == names@[i as int]@);
        }
        if let Some(place) = find_column(columns, names[i].as_str()) {
            places.push(place);
        }
        i += 1;
    }
    proof {
        assert(all.take(i as int) =~= all);
    }
    places
}

/// The table that a CREATE TABLE creates. Without a declared primary key the
/// first column is the key.
pub open spec fn table_of(c: SqlCreateTable) -> Translated<TableModel> {
    match columns_defined(c.columns@) {
        Err(r) => Err(r),
        Ok(columns) => match constrained_keys(c.constraints@) {
            Err(r) => Err(r),
            Ok(more) => {
                let names = marked_keys(c.columns@) + more;
                if names.len() == 0 && columns.len() == 0 {
                    Err(
                        Refusal::UnsupportedFeature(
                            "CREATE TABLE must specify at least one column"@,
                        ),
                    )
                } else {
                    let primary_key = if names.len() == 0 {
                        seq![0usize]
                    } else {
                        placed(names, columns)
                    };
                    if primary_key.len() == 0 {
                        Err(
                            Refusal::UnsupportedFeature(
                                "CREATE TABLE primary key columns not found"@,
                            ),
                        )
                    } else {
                        Ok(TableModel { name: c.name@, columns, primary_key })
                    }
                }
            },
        },
    }
}

/// The table that a CREATE TABLE creates.
pub fn translate_create_table(create_table: &SqlCreateTable) -> (r: Result<
    TableSchema,
    TranslateError,
>)
    ensures
        plain::outcome(r) == table_of(*create_table),
{
    let ghost all = create_table.columns@;
    let ghost f = |c: SqlColumnDef| column_of(c);
    let mut columns: Vec<ColumnSchema> = no_items();
    let mut names: Vec<String> = no_items();
    let mut i: usize = 0;
    proof {
        assert(all.take(0) =~= Seq::empty());
    }
    while i < create_table.columns.len()
        invariant
            i <= create_table.columns.len(),
            all == create_table.columns@,
            f == (|c: SqlColumnDef| column_of(c)),
            plain::collected(all.take(i as int), f) == Ok::<Seq<ColumnModel>, Refusal>(
                columns.deep_view(),
            ),
            names.deep_view() == marked_keys(all.take(i as int)),
        decreases create_table.columns.len() - i,
    {
        let column = &create_table.columns[i];
        proof {
            plain::lemma_collected_step(all, f, i as int);
            assert(f(all[i as int]) == column_of(*column));
            assert(all.take(i + 1).drop_last() =~= all.take(i as int));
            assert(all.take(i + 1).last() == *column);
        }
        let data_type = match sql_type_to_engine_type(column.data_type.as_str()) {
            Ok(data_type) => data_type,
            Err(e) => {
                return Err(e);
            },
        };
        add_marked(&mut names, column);
        push_back(&mut columns, ColumnSchema { name: column.name.clone(), data_type });
        i += 1;
    }
    proof {
        assert(all.take(i as int) =~= all);
    }
    match read_constraints(&create_table.constraints) {
        Ok(more) => {
            let ghost so_far = names.deep_view();
            let ghost added = more.deep_view();
            let mut rest = more;
            names.append(&mut rest);
            proof {
                assert(names.deep_view() =~= so_far + added);
            }
        },
        Err(e) => {
            return Err(e);
        },
    }
    assert(names.len() == names.deep_view().len());
    assert(columns.len() == columns.deep_view().len());
    let primary_key: Vec<usize> = if names.len() == 0 {
        if columns.len() == 0 {
            return Err(unsupported("CREATE TABLE must specify at least one column"));
        }
        one_item(0usize)
    } else {
        places_of(&names, &columns)
    };
    if primary_key.len() == 0 {
        return Err(unsupported("CREATE TABLE primary key columns not found"));
    }
    proof {
        assert(primary_key.deep_view() =~= primary_key@);
    }
    Ok(TableSchema { name: create_table.name.clone(), columns, primary_key })
}

/// The place of a column of an index.
pub open spec fn index_place(c: SqlIndexColumn, columns: Seq<ColumnModel>) -> Translated<usize> {
    match index_column_name(c, "unsupported index column expression: "@) {
        Err(r) => Err(r),
        Ok(name) => match schema::column_position(columns, name) {
            None => Err(Refusal::UnknownColumn(name)),
            Some(i) => Ok(i as usize),
        },
    }
}

/// The index that a CREATE INDEX creates.
pub open spec fn index_of<R: SchemaResolver>(c: SqlCreateIndex, resolver: R) -> Translated<
    IndexModel,
> {
    match resolver.described(c.table_name@) {
        None => Err(Refusal::UnknownTable(c.table_name@)),
        Some(table) => match c.name {
            None => Err(
                Refusal::UnsupportedFeature("CREATE INDEX without explicit name is unsupported"@),
            ),
            Some(name) => match plain::collected(
                c.columns@,
                |column: SqlIndexColumn| index_place(column, table.columns),
            ) {
                Err(r) => Err(r),
                Ok(column_indices) => if column_indices.len() == 0 {
                    Err(
                        Refusal::UnsupportedFeature(
                            "CREATE INDEX must specify at least one column"@,
                        ),
                    )
                } else {
                    Ok(
                        IndexModel {
                            name: name@,
                            table_name: c.table_name@,
                            column_indices,
                            unique: c.unique,
                        },
                    )
                },
            },
        },
    }
}

/// The index that a CREATE INDEX creates.
pub fn translate_create_index<R: SchemaResolver>(create_index: &SqlCreateIndex, resolver: &R) -> (r:
    Result<IndexSchema, TranslateError>)
    ensures
        plain::outcome(r) == index_of(*create_index, *resolver),
{
    let table = match resolver.describe_table(create_index.table_name.as_str()) {
        Some(table) => table,
        None => {
            return Err(TranslateError::UnknownTable(create_index.table_name.clone()));
        },
    };
    let name = match &create_index.name {
        Some(name) => name.clone(),
        None => {
            return Err(unsupported("CREATE INDEX without explicit name is unsupported"));
        },
    };
    let ghost all = create_index.columns@;
    let ghost columns = table.columns.deep_view();
    let ghost f = |column: SqlIndexColumn| index_place(column, columns);
    let mut column_indices: Vec<usize> = no_items();
    let mut i: usize = 0;
    proof {
        assert(all.take(0) =~= Seq::empty());
    }
    while i < create_index.columns.len()
        invariant
            i <= create_index.columns.len(),
            all == create_index.columns@,
            columns == table.columns.deep_view(),
            f == (|column: SqlIndexColumn| index_place(column, columns)),
            resolver.described(create_index.table_name@) == Some(table.deep_view()),
            create_index.name is Some,
            plain::collected(all.take(i as int), f) == Ok::<Seq<usize>, Refusal>(
                column_indices.deep_view(),
            ),
        decreases create_index.columns.len() - i,
    {
        proof {
            plain::lemma_collected_step(all, f, i as int);
            assert(f(all[i as int]) == index_place(all[i as int], columns));
        }
        let column_name = match read_index_column_name(
            &create_index.columns[i],
            "unsupported index column expression: ",
        ) {
            Ok(column_name) => column_name,
            Err(e) => {
                return Err(e);
            },
        };
        match find_column(&table.columns, column_name.as_str()) {
            Some(place) => {
                push_back(&mut column_indices, place);
            },
            None => {
                return Err(TranslateError::UnknownColumn(column_name));
            },
        }
        i += 1;
    }
    proof {
        assert(all.take(i as int) =~= all);
        assert(column_indices.len() == column_indices.deep_view().len());
    }
    if column_indices.len() == 0 {
        return Err(unsupported("CREATE INDEX must specify at least one column"));
    }
    Ok(
        IndexSchema {
            name,
            table_name: create_index.table_name.clone(),
            column_indices,
            unique: create_index.unique,
        },
    )
}

/// What a DROP drops.
pub open spec fn drop_of(kind: SqlObjectType, names: Seq<Seq<char>>, if_exists: bool) -> Translated<
    DdlModel,
> {
    if names.len() != 1 {
        Err(Refusal::UnsupportedFeature("DROP only supports a single object"@))
    } else {
        match kind {
            SqlObjectType::Table => Ok(DdlModel::DropTable(names[0], if_exists)),
            SqlObjectType::Index => Ok(DdlModel::DropIndex(names[0])),
            SqlObjectType::Other => Err(Refusal::UnsupportedStatement),
        }
    }
}

/// What a DROP drops.
pub fn translate_drop_statement(object_type: &SqlObjectType, names: &Vec<String>, if_exists: bool) -> (r:
    Result<DdlOp, TranslateError>)
    ensures
        plain::outcome(r) == drop_of(*object_type, names.deep_view(), if_exists),
{
    assert(names.len() == names.deep_view().len());
    if names.len() != 1 {
        return Err(unsupported("DROP only supports a single object"));
    }
    let name = names[0].clone();
    match object_type {
        SqlObjectType::Table => Ok(DdlOp::DropTable(name, if_exists)),
        SqlObjectType::Index => Ok(DdlOp::DropIndex(name)),
        SqlObjectType::Other => Err(TranslateError::UnsupportedStatement),
    }
}

} // verus!
