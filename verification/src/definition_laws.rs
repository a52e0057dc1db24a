//! What becomes of the tables and indexes that a database knows.
use vstd::prelude::*;
use crate::catalog::{self, CatalogModel};
use crate::catalog_laws;
use crate::error::ErrorModel;
use crate::facade::{self, Database, DatabaseError, FacadeStore};
use crate::float::FloatOp;
use crate::patch;
use crate::persistence;
use crate::planner;
use crate::predicate;
use crate::query::{ColumnRef, EngineResult, OperandModel, PredicateModel, QueryModel};
use crate::schema::{IndexModel, TableModel};
use crate::sql::ir::{DdlModel, StatementModel};
use crate::store::{KeyModel, Trees};
use crate::table_laws;
use crate::value::ValueModel;

verus! {

/// An index is over one column alone.
pub open spec fn answers(index: IndexModel, c: ColumnRef) -> bool {
    index.table_name == c.table && index.column_indices.len() == 1 && index.column_indices[0]
        == c.column_index
}

/// Tables are those from before and one more.
pub open spec fn has_one_more(
    before: Map<Seq<char>, TableModel>,
    after: Map<Seq<char>, TableModel>,
    table: TableModel,
) -> bool {
    &&& forall|name: Seq<char>| #[trigger]
        after.contains_key(name) <==> name == table.name || before.contains_key(name)
    &&& after[table.name] == table
    &&& forall|name: Seq<char>|
        before.contains_key(name) && name != table.name ==> #[trigger] after[name] == before[name]
}

/// Law: a CREATE TABLE makes the table known beside all others, and touches
/// nothing in the store but the place of its schema. A name that is taken is
/// refused, and all stays.
pub proof fn law_create_table(
    trees: Trees,
    before: CatalogModel,
    c: CatalogModel,
    table: TableModel,
    may_exist: bool,
)
    requires
        catalog::loaded_catalog(trees) == Ok::<CatalogModel, ErrorModel>(c),
    ensures
        ({
            let (result, known, after) = facade::ddl_of(
                DdlModel::CreateTable(table, may_exist),
                trees,
                before,
            );
            if c.tables.contains_key(table.name) {
                result == Err::<(), ErrorModel>(ErrorModel::DuplicateTable(table.name)) && known
                    == c && after == trees
            } else {
                &&& result is Ok
                &&& has_one_more(c.tables, known.tables, table)
                &&& known.indexes == c.indexes
                &&& forall|q: (Seq<char>, KeyModel)|
                    q != (persistence::table_schemas(), persistence::schema_key(table.name))
                        ==> #[trigger] patch::lookup(after, q) == patch::lookup(trees, q)
            }
        }),
{
}

/// Law: a DROP TABLE takes out the table and its indexes and leaves all other
/// tables and indexes. A table that is not there is refused, and all stays; so
/// it is where the rows cannot be listed.
pub proof fn law_drop_table(
    trees: Trees,
    before: CatalogModel,
    c: CatalogModel,
    table: Seq<char>,
    may_miss: bool,
)
    requires
        catalog::loaded_catalog(trees) == Ok::<CatalogModel, ErrorModel>(c),
    ensures
        ({
            let (result, known, after) = facade::ddl_of(
                DdlModel::DropTable(table, may_miss),
                trees,
                before,
            );
            &&& !c.tables.contains_key(table) ==> result == Err::<(), ErrorModel>(
                ErrorModel::TableNotFound(table),
            )
            &&& result is Err ==> known == c && after == trees
            &&& result is Ok <==> c.tables.contains_key(table) && catalog::is_clearable(
                trees,
                table,
                catalog::indexes_of(c.indexes, table),
            )
            &&& result is Ok ==> {
                &&& forall|name: Seq<char>| #[trigger]
                    known.tables.contains_key(name) <==> name != table && c.tables.contains_key(
                        name,
                    )
                &&& forall|name: Seq<char>|
                    known.tables.contains_key(name) ==> #[trigger] known.tables[name]
                        == c.tables[name]
                &&& known.indexes == c.indexes.filter(|index: IndexModel| index.table_name != table)
            }
        }),
{
    table_laws::lemma_kept_filter(
        c.indexes,
        catalog::belongs_elsewhere(table),
        |index: IndexModel| index.table_name != table,
    );
}

/// An index can be laid over a table: it has columns, and the table has them.
pub open spec fn can_lie_over(index: IndexModel, table: TableModel) -> bool {
    &&& index.column_indices.len() > 0
    &&& forall|i: int|
        0 <= i < index.column_indices.len() ==> (#[trigger] index.column_indices[i])
            < table.columns.len()
}

/// Law: a CREATE INDEX makes the index known after all others, and touches
/// nothing in the store but the place of its schema. It is refused, and all
/// stays, where the name is taken, where its table is not there, and where it has
/// no columns or one that the table does not have.
pub proof fn law_create_index(
    trees: Trees,
    before: CatalogModel,
    c: CatalogModel,
    index: IndexModel,
)
    requires
        catalog::loaded_catalog(trees) == Ok::<CatalogModel, ErrorModel>(c),
    ensures
        ({
            let (result, known, after) = facade::ddl_of(
                DdlModel::CreateIndex(index),
                trees,
                before,
            );
            let taken = exists|i: int|
                0 <= i < c.indexes.len() && (#[trigger] c.indexes[i]).name == index.name;
            &&& taken ==> result == Err::<(), ErrorModel>(ErrorModel::DuplicateIndex(index.name))
            &&& !taken && !c.tables.contains_key(index.table_name) ==> result == Err::<
                (),
                ErrorModel,
            >(ErrorModel::TableNotFound(index.table_name))
            &&& result is Ok <==> !taken && c.tables.contains_key(index.table_name)
                && can_lie_over(index, c.tables[index.table_name])
            &&& result is Err ==> known == c && after == trees
            &&& result is Ok ==> {
                &&& known.tables == c.tables
                &&& known.indexes == c.indexes.push(index)
                &&& forall|q: (Seq<char>, KeyModel)|
                    q != (persistence::index_schemas(), persistence::schema_key(index.name))
                        ==> #[trigger] patch::lookup(after, q) == patch::lookup(trees, q)
            }
        }),
{
    if !catalog::has_index(c.indexes, index.name) {
        catalog_laws::lemma_without_absent(c.indexes, index.name);
    }
}

proof fn lemma_index_named(indexes: Seq<IndexModel>, name: Seq<char>)
    ensures
        match catalog::index_named(indexes, name) {
            Some(index) => indexes.contains(index) && index.name == name,
            None => forall|i: int| 0 <= i < indexes.len() ==> (#[trigger] indexes[i]).name != name,
        },
    decreases indexes.len(),
{
    if indexes.len() > 0 {
        let rest = indexes.drop_first();
        lemma_index_named(rest, name);
        if indexes[0].name == name {
            assert(indexes.contains(indexes[0]));
        } else if let Some(index) = catalog::index_named(rest, name) {
            let i = choose|i: int| 0 <= i < rest.len() && rest[i] == index;
            assert(indexes[i + 1] == index);
        } else {
            assert forall|i: int| 0 <= i < indexes.len() implies (#[trigger] indexes[i]).name
                != name by {
                if i > 0 {
                    assert(rest[i - 1] == indexes[i]);
                }
            }
        }
    }
}

/// Law: a DROP INDEX takes out the index of that name and leaves all tables and
/// all other indexes. A name of no index is refused, and all stays.
pub proof fn law_drop_index(
    trees: Trees,
    before: CatalogModel,
    c: CatalogModel,
    name: Seq<char>,
)
    requires
        catalog::loaded_catalog(trees) == Ok::<CatalogModel, ErrorModel>(c),
    ensures
        ({
            let (result, known, after) = facade::ddl_of(DdlModel::DropIndex(name), trees, before);
            let there = exists|i: int|
                0 <= i < c.indexes.len() && (#[trigger] c.indexes[i]).name == name;
            &&& !there ==> result == Err::<(), ErrorModel>(ErrorModel::IndexNotFound(name))
            &&& result is Err ==> known == c && after == trees
            &&& result is Ok ==> {
                &&& there
                &&& known.tables == c.tables
                &&& known.indexes == c.indexes.filter(|index: IndexModel| index.name != name)
            }
        }),
{
    lemma_index_named(c.indexes, name);
    table_laws::lemma_kept_filter(
        c.indexes,
        catalog::called_otherwise(name),
        |index: IndexModel| index.name != name,
    );
    if let Some(index) = catalog::index_named(c.indexes, name) {
        let i = choose|i: int| 0 <= i < c.indexes.len() && c.indexes[i] == index;
        assert(c.indexes[i].name == name);
    }
}

/// Law: the indexes of a table are those that are laid over it, in order.
pub proof fn law_indexes_of_table(indexes: Seq<IndexModel>, table: Seq<char>)
    ensures
        catalog::indexes_of(indexes, table) == indexes.filter(
            |index: IndexModel| index.table_name == table,
        ),
{
    table_laws::lemma_kept_filter(
        indexes,
        catalog::belongs_to(table),
        |index: IndexModel| index.table_name == table,
    );
}

/// Law: over a sound store a change of the schema answers as it turns out: with
/// no rows, or with its error in words. The database then knows and holds what
/// came of it, and listeners hear of nothing.
pub proof fn law_schema_statement<S: FacadeStore, F: Fn(FloatOp) -> u64, P>(
    r: Result<EngineResult, DatabaseError>,
    before: Database<S, F, P>,
    after: Database<S, F, P>,
    op: DdlModel,
)
    requires
        facade::statement_ran(r, before, after, StatementModel::Ddl(op)),
        before.engine.sound(),
    ensures
        ({
            let (result, known, trees) = facade::ddl_of(
                op,
                before.engine.trees(),
                before.engine.known(),
            );
            &&& match (r, result) {
                (Ok(rows), Ok(_)) => rows.deep_view().len() == 0,
                (Err(e), Err(x)) => e.deep_view() == facade::in_words(x),
                _ => false,
            }
            &&& after.engine.known() == known
            &&& after.engine.trees() == trees
            &&& after.engine.unheard() == before.engine.unheard()
        }),
{
}

/// Law: over a sound store a query answers as it turns out: with its rows, or
/// with its error in words. The database then holds what came of it, knows the
/// tables and indexes from before, and listeners are to hear of its changes after
/// those from before.
pub proof fn law_query_statement<S: FacadeStore, F: Fn(FloatOp) -> u64, P>(
    r: Result<EngineResult, DatabaseError>,
    before: Database<S, F, P>,
    after: Database<S, F, P>,
    q: QueryModel,
)
    requires
        facade::statement_ran(r, before, after, StatementModel::Query(q)),
        before.engine.sound(),
    ensures
        ({
            let ran = planner::run_of(
                before.engine.kernel.float,
                before.engine.known(),
                q,
                before.engine.trees(),
            );
            &&& match (r, ran.result) {
                (Ok(rows), Ok(exact)) => rows.deep_view() == exact,
                (Err(e), Err(x)) => e.deep_view() == facade::in_words(x),
                _ => false,
            }
            &&& after.engine.known() == before.engine.known()
            &&& after.engine.trees() == ran.trees
            &&& after.engine.unheard() == before.engine.unheard() + ran.events
        }),
{
}

/// Law: a table is described exactly if the catalog has one of its name, and as
/// it has it; a table that it does not have is not found.
pub proof fn law_tables_are_described(c: CatalogModel, name: Seq<char>)
    ensures
        c.tables.contains_key(name) ==> facade::described_in(c, name) == Some(c.tables[name])
            && catalog::table_of(c, name) == Ok::<TableModel, ErrorModel>(c.tables[name]),
        !c.tables.contains_key(name) ==> facade::described_in(c, name) is None
            && catalog::table_of(c, name) == Err::<TableModel, ErrorModel>(
            ErrorModel::TableNotFound(name),
        ),
{
}

/// Law: a condition is answered from the first index that it fixes the key of: it
/// asks that the one column of the index be equal to a value.
pub proof fn law_index_for_condition(indexes: Seq<IndexModel>, c: ColumnRef, v: ValueModel)
    ensures
        ({
            let p = PredicateModel::Equals(OperandModel::Column(c), OperandModel::Value(v));
            match catalog::index_for(indexes, p) {
                Some(index) => exists|i: int|
                    0 <= i < indexes.len() && #[trigger] indexes[i] == index && answers(index, c)
                        && forall|j: int| 0 <= j < i ==> !answers(#[trigger] indexes[j], c),
                None => forall|j: int| 0 <= j < indexes.len() ==> !answers(#[trigger] indexes[j], c),
            }
        }),
    decreases indexes.len(),
{
    let p = PredicateModel::Equals(OperandModel::Column(c), OperandModel::Value(v));
    if indexes.len() > 0 {
        let rest = indexes.drop_first();
        law_index_for_condition(rest, c, v);
        assert(answers(indexes[0], c) == predicate::index_key_for(p, indexes[0]) is Some) by {
            if answers(indexes[0], c) {
                assert(indexes[0].column_indices =~= seq![c.column_index]);
            }
        }
        assert forall|j: int| 0 < j < indexes.len() implies rest[j - 1]
            == #[trigger] indexes[j] by {}
        if answers(indexes[0], c) {
            assert(indexes[0] == indexes[0]);
        } else if let Some(index) = catalog::index_for(rest, p) {
            let i = choose|i: int|
                0 <= i < rest.len() && #[trigger] rest[i] == index && answers(index, c) && forall|
                    j: int,
                | 0 <= j < i ==> !answers(#[trigger] rest[j], c);
            assert(indexes[i + 1] == index);
            assert forall|j: int| 0 <= j < i + 1 implies !answers(#[trigger] indexes[j], c) by {
                if j > 0 {
                    assert(rest[j - 1] == indexes[j]);
                }
            }
        }
    }
}

} // verus!
