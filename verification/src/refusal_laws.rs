//! Why writes and statements are refused.
use vstd::prelude::*;
use crate::catalog::CatalogModel;
use crate::error::ErrorModel;
use crate::executor::{self, UpdatePlan};
use crate::float::FloatOp;
use crate::query::{AssignmentModel, ColumnRef, JoinModel, PredicateModel};
use crate::schema::{self, IndexModel, TableModel};
use crate::schema_resolver::SchemaResolver;
use crate::sql::change_laws::{self, is_missing};
use crate::sql::ddl;
use crate::sql::dml;
use crate::sql::error::Refusal;
use crate::sql::helpers::{self, Aliases, Tables};
use crate::sql::mapper::ValueMapper;
use crate::sql::name_laws::{self, all_numbered, has_name, own_name};
use crate::sql::scope::{self, Scope};
use crate::sql::syntax::{
    SqlAssignment, SqlCreateIndex, SqlExpr, SqlInsert, SqlTableFactor, SqlTableObject,
    SqlTableWithJoins,
};
use crate::store::{self, KeyModel, RowModel, Trees};
use crate::store_helpers;
use crate::table_laws::{self, is_key_of, is_row_of};
use crate::value::ValueModel;

verus! {

proof fn lemma_misfit(row: RowModel, t: TableModel, from: int)
    requires
        row.len() == t.columns.len(),
        0 <= from <= row.len(),
    ensures
        schema::misfit(row, t.columns, from) matches Some(i) ==> from <= i < row.len()
            && !schema::value_fits(row[i], t.columns[i].data_type) && forall|j: int|
            from <= j < i ==> schema::value_fits(#[trigger] row[j], t.columns[j].data_type),
    decreases row.len() - from,
{
    if from < row.len() {
        lemma_misfit(row, t, from + 1);
    }
}

/// Law: a row with too many or too few values does not match the schema; in any
/// other that does not fit, the type of the first value that its column cannot
/// hold is wrong, and the column is named.
pub proof fn law_misfit_row(t: TableModel, row: RowModel)
    ensures
        match schema::row_check(t, row) {
            Ok(_) => true,
            Err(ErrorModel::SchemaMismatch(_)) => row.len() != t.columns.len(),
            Err(ErrorModel::TypeMismatch(text)) => row.len() == t.columns.len() && exists|i: int|
                0 <= i < row.len() && !schema::value_fits(
                    #[trigger] row[i],
                    t.columns[i].data_type,
                ) && text == "value does not fit column "@ + t.columns[i].name && forall|j: int|
                    0 <= j < i ==> schema::value_fits(#[trigger] row[j], t.columns[j].data_type),
            Err(_) => false,
        },
{
    if row.len() == t.columns.len() {
        lemma_misfit(row, t, 0);
        if let Some(i) = schema::misfit(row, t.columns, 0) {
            assert(!schema::value_fits(row[i], t.columns[i].data_type));
        }
    }
}

/// Law: a row has no primary key where its table has no key column, or the row no
/// value or NULL in one; a key of any other form cannot be stored.
pub proof fn law_missing_key(t: TableModel, row: RowModel)
    ensures
        ({
            let missing = t.primary_key.len() == 0 || exists|i: int|
                0 <= i < t.primary_key.len() && ((#[trigger] t.primary_key[i]) >= row.len()
                    || row[t.primary_key[i] as int] is Null);
            match schema::primary_key_of(t, row) {
                Ok(_) => !missing,
                Err(ErrorModel::PrimaryKeyMissing) => missing,
                Err(ErrorModel::SchemaMismatch(_)) => !missing,
                Err(_) => false,
            }
        }),
{
    if let Some(values) = schema::picked(row, t.primary_key) {
        if values.contains(ValueModel::Null) {
            let i = choose|i: int| 0 <= i < values.len() && values[i] == ValueModel::Null;
            assert(row[t.primary_key[i] as int] is Null);
        } else {
            assert forall|i: int| 0 <= i < t.primary_key.len() implies !(row[(
            #[trigger] t.primary_key[i]) as int] is Null) by {
                assert(values[i] == row[t.primary_key[i] as int]);
                assert(values.contains(values[i]));
            }
        }
    }
}

/// Law: of a unique index that a row would repeat, the name is told: it has an
/// entry under the row's own index key that belongs to another row.
pub proof fn law_repeated_index_is_told(
    trees: Trees,
    indexes: Seq<IndexModel>,
    row: RowModel,
    pk: KeyModel,
)
    ensures
        store_helpers::unique_check(trees, indexes, row, pk) matches Err(
            ErrorModel::UniqueIndexViolation(name),
        ) ==> exists|i: int, j: int|
            0 <= i < indexes.len() && 0 <= j < store::index_entries(trees, indexes[i]).len()
                && indexes[i].unique && indexes[i].name == name && schema::picked(
                row,
                indexes[i].column_indices,
            ) == Some((#[trigger] store::index_entries(trees, indexes[i])[j]).0)
                && store::index_entries(trees, indexes[i])[j].1 != pk,
    decreases indexes.len(),
{
    if indexes.len() > 0 {
        let rest = indexes.drop_first();
        law_repeated_index_is_told(trees, rest, row, pk);
        if let Err(ErrorModel::UniqueIndexViolation(name)) = store_helpers::unique_check(
            trees,
            indexes,
            row,
            pk,
        ) {
            let entries = store::index_entries(trees, indexes[0]);
            if let Ok(key) = schema::index_key_of(indexes[0], row) {
                lemma_no_search(entries, key, pk);
            }
            if indexes[0].unique && schema::index_key_of(indexes[0], row) is Ok
                && store_helpers::first_conflict(
                entries,
                schema::index_key_of(indexes[0], row)->Ok_0,
                pk,
            ) matches Ok(Some(_)) {
                let j = lemma_conflict(entries, schema::index_key_of(indexes[0], row)->Ok_0, pk);
                assert(store::index_entries(trees, indexes[0])[j].1 != pk);
            } else {
                let (i, j) = choose|i: int, j: int|
                    0 <= i < rest.len() && 0 <= j < store::index_entries(trees, rest[i]).len()
                        && rest[i].unique && rest[i].name == name && schema::picked(
                        row,
                        rest[i].column_indices,
                    ) == Some((#[trigger] store::index_entries(trees, rest[i])[j]).0)
                        && store::index_entries(trees, rest[i])[j].1 != pk;
                assert(indexes[i + 1] == rest[i]);
                assert(store::index_entries(trees, indexes[i + 1])[j].1 != pk);
            }
        }
    }
}

proof fn lemma_no_search(entries: Seq<(KeyModel, KeyModel)>, key: KeyModel, pk: KeyModel)
    ensures
        store_helpers::first_conflict(entries, key, pk) matches Err(e) ==> e
            == schema::no_primary_key(),
    decreases entries.len(),
{
    if entries.len() > 0 {
        lemma_no_search(entries.drop_first(), key, pk);
    }
}

proof fn lemma_conflict(entries: Seq<(KeyModel, KeyModel)>, key: KeyModel, pk: KeyModel) -> (j: int)
    requires
        store_helpers::first_conflict(entries, key, pk) matches Ok(Some(_)),
    ensures
        0 <= j < entries.len(),
        entries[j].0 == key,
        entries[j].1 != pk,
    decreases entries.len(),
{
    if entries[0].0 == key && entries[0].1 != pk {
        0
    } else {
        let j = lemma_conflict(entries.drop_first(), key, pk);
        j + 1
    }
}

/// Law: an INSERT into a table that is not there is refused as such; a row that
/// does not fit as it does not fit; and one whose key is taken as a duplicate of
/// that key.
pub proof fn law_refused_inserts(c: CatalogModel, trees: Trees, table: Seq<char>, row: RowModel)
    ensures
        ({
            let result = executor::inserted(c, trees, table, row).result;
            let t = c.tables[table];
            &&& !c.tables.contains_key(table) ==> result == Err::<(), ErrorModel>(
                ErrorModel::TableNotFound(table),
            )
            &&& c.tables.contains_key(table) && !is_row_of(t, row) ==> result == schema::row_check(
                t,
                row,
            )
            &&& forall|key: KeyModel|
                c.tables.contains_key(table) && is_row_of(t, row) && #[trigger] is_key_of(
                    t,
                    row,
                    key,
                ) && table_laws::is_stored(trees, table, key, store::row_at(trees, table, key)->0)
                    ==> result == Err::<(), ErrorModel>(ErrorModel::DuplicatePrimaryKey(key))
        }),
{
    if c.tables.contains_key(table) {
        let t = c.tables[table];
        table_laws::law_row_fits(t, row);
        table_laws::law_primary_key(t, row);
    }
}

/// Law: a DELETE or an UPDATE of a table that is not there is refused as such.
pub proof fn law_refused_changes<F: Fn(FloatOp) -> u64>(
    f: F,
    c: CatalogModel,
    trees: Trees,
    table: Seq<char>,
    p: Option<PredicateModel>,
    assignments: Seq<AssignmentModel>,
    joins: Seq<JoinModel>,
    from_tables: Seq<Seq<char>>,
    returning: Option<Seq<ColumnRef>>,
)
    requires
        !c.tables.contains_key(table),
    ensures
        executor::deleted(c, trees, table, p, returning).result == Err::<Seq<RowModel>, ErrorModel>(
            ErrorModel::TableNotFound(table),
        ),
        executor::updated(
            f,
            c,
            trees,
            table,
            assignments,
            p,
            joins,
            from_tables,
            returning,
        ).result == Err::<Seq<RowModel>, ErrorModel>(ErrorModel::TableNotFound(table)),
{
}

/// Law: an UPDATE that gives a row the key of another one is refused as a
/// duplicate of that key, and one that gives it values that do not fit as they do
/// not fit.
pub proof fn law_refused_update(
    plan: UpdatePlan,
    trees: Trees,
    old_pk: KeyModel,
    old_row: RowModel,
    new_row: RowModel,
    key: KeyModel,
)
    ensures
        ({
            let result = executor::row_replaced(plan, trees, old_pk, old_row, new_row).0;
            &&& !is_row_of(plan.schema, new_row) ==> (result matches Err(e) && schema::row_check(
                plan.schema,
                new_row,
            ) == Err::<(), ErrorModel>(e))
            &&& is_row_of(plan.schema, new_row) && is_key_of(plan.schema, new_row, key) && key
                != old_pk && store::row_at(trees, plan.table, key) is Some ==> result == Err::<
                KeyModel,
                ErrorModel,
            >(ErrorModel::DuplicatePrimaryKey(key))
        }),
{
    table_laws::law_row_fits(plan.schema, new_row);
    table_laws::law_primary_key(plan.schema, new_row);
}

/// Law: of a name with a table before it, a table that is not there is told as
/// unknown, and else a column that it does not have.
pub proof fn law_unknown_dotted_name(parts: Vec<String>, aliases: Aliases, tables: Tables)
    requires
        all_numbered(tables),
        parts@.len() == 2,
    ensures
        ({
            let table = own_name(aliases, parts@[0]@);
            let name = parts@[1]@;
            helpers::local_column(
                SqlExpr::CompoundIdentifier(parts),
                aliases,
                tables,
            ) matches Err(r) ==> if tables.contains_key(table) {
                r == Refusal::UnknownColumn(name)
            } else {
                r == Refusal::UnknownTable(table)
            }
        }),
{
}

/// Law: a bare name that is that of no column is told as an unknown column; one
/// that is that of columns of two tables is not supported.
pub proof fn law_unknown_bare_name(s: String, aliases: Aliases, tables: Tables)
    requires
        all_numbered(tables),
    ensures
        (forall|t: Seq<char>| !(#[trigger] has_name(tables, t, s@))) ==> helpers::local_column(
            SqlExpr::Identifier(s),
            aliases,
            tables,
        ) == Err::<ColumnRef, Refusal>(Refusal::UnknownColumn(s@)),
        (exists|t: Seq<char>, u: Seq<char>|
            t != u && #[trigger] has_name(tables, t, s@) && #[trigger] has_name(tables, u, s@))
            ==> (helpers::local_column(SqlExpr::Identifier(s), aliases, tables) matches Err(
            Refusal::UnsupportedFeature(_),
        )),
{
    assert forall|t: Seq<char>| #[trigger]
        helpers::holds_column(tables, t, s@) == has_name(tables, t, s@) by {
        name_laws::lemma_column_in(tables, t, s@);
    }
    assert forall|t: Seq<char>| #[trigger]
        has_name(tables, t, s@) == helpers::holds_column(tables, t, s@) by {
        name_laws::lemma_column_in(tables, t, s@);
    }
    if exists|t: Seq<char>, u: Seq<char>|
        t != u && #[trigger] has_name(tables, t, s@) && #[trigger] has_name(tables, u, s@) {
        let (t, u) = choose|t: Seq<char>, u: Seq<char>|
            t != u && #[trigger] has_name(tables, t, s@) && #[trigger] has_name(tables, u, s@);
        assert(helpers::holds_column(tables, t, s@) && helpers::holds_column(tables, u, s@));
    }
}

/// Law: a table that is not there is told as unknown, in a FROM clause, in an
/// INSERT and in a CREATE INDEX.
pub proof fn law_unknown_table<R: SchemaResolver, M: ValueMapper>(
    name: String,
    from: SqlTableWithJoins,
    alias: Option<String>,
    at: Scope,
    i: SqlInsert,
    c: SqlCreateIndex,
    resolver: R,
    mapper: M,
)
    requires
        resolver.described(name@) is None,
        from.relation == (SqlTableFactor::Table { name, alias }),
        i.table == SqlTableObject::TableName(name),
        i.assignments@.len() == 0 && i.on is None && i.returning is None,
        c.table_name@ == name@,
    ensures
        scope::from_clause(from, at, resolver) == Err::<(Seq<char>, Scope), Refusal>(
            Refusal::UnknownTable(name@),
        ),
        dml::insert_of(i, resolver, mapper) is Err,
        dml::insert_of(i, resolver, mapper)->Err_0 == Refusal::UnknownTable(name@),
        ddl::index_of(c, resolver) is Err,
        ddl::index_of(c, resolver)->Err_0 == Refusal::UnknownTable(name@),
{
}

/// Law: an assignment to a column that the table does not have is told as unknown.
pub proof fn law_unknown_assigned_column<M: ValueMapper>(
    a: SqlAssignment,
    name: Seq<char>,
    t: TableModel,
    table: Seq<char>,
    aliases: Aliases,
    tables: Tables,
    mapper: M,
)
    requires
        dml::assignment_target(a.target, aliases, table) == Ok::<Seq<char>, Refusal>(name),
        is_missing(t.columns, name),
    ensures
        dml::assignment_of(a, t, table, aliases, tables, mapper) == Err::<AssignmentModel, Refusal>(
            Refusal::UnknownColumn(name),
        ),
{
    change_laws::lemma_position(t.columns, name);
}

} // verus!
