//! What statements do to the rows of a table, in terms of what is stored.
use vstd::prelude::*;
use crate::catalog::{self, CatalogModel};
use crate::change_event::EventModel;
use crate::consistency;
use crate::database_laws::{database_kept, table_kept};
use crate::error::ErrorModel;
use crate::executor::{self, UpdateModel, UpdatePlan, Written};
use crate::float::FloatOp;
use crate::join_builder;
use crate::order;
use crate::ordered_map;
use crate::persistence;
use crate::planner;
use crate::predicate::{self, CacheModel, StateModel};
use crate::query::{AssignmentModel, ColumnRef, PredicateModel, QueryModel};
use crate::readback_laws::{
    self, columns_within, plain_selection, plain_update, without_subqueries,
};
use crate::result_laws::shown_row;
use crate::schema::{self, IndexModel, TableModel};
use crate::store::{self, KeyModel, RowModel, Trees};
use crate::store_helpers;
use crate::update_expr;
use crate::value::{self, EngineType, ValueModel};
use crate::value_laws::{self, comes_before};

verus! {

/// A table holds a row under a key.
pub open spec fn is_stored(trees: Trees, table: Seq<char>, key: KeyModel, row: RowModel) -> bool {
    trees.contains_key((persistence::rows_of(table), key)) && trees[(
        persistence::rows_of(table),
        key,
    )] == row
}

/// Up to place `m` two keys agree; there one ends or has the value that comes
/// first.
pub open spec fn keys_part(a: KeyModel, b: KeyModel, m: int) -> bool {
    &&& 0 <= m <= a.len()
    &&& m < b.len()
    &&& forall|i: int| 0 <= i < m ==> a[i] == b[i]
    &&& m == a.len() || comes_before(a[m], b[m])
}

/// One key comes before another.
pub open spec fn key_before(a: KeyModel, b: KeyModel) -> bool {
    exists|m: int| #[trigger] keys_part(a, b, m)
}

proof fn lemma_key_before(a: KeyModel, b: KeyModel)
    ensures
        order::lex_less(a, b, value::value_less()) ==> key_before(a, b),
    decreases a.len(),
{
    if order::lex_less(a, b, value::value_less()) {
        if a.len() == 0 {
            assert(keys_part(a, b, 0));
        } else {
            value_laws::law_values_are_ordered(a[0], b[0]);
            if value::value_less()(a[0], b[0]) {
                assert(keys_part(a, b, 0));
            } else {
                lemma_key_before(a.drop_first(), b.drop_first());
                let m = choose|m: int| #[trigger] keys_part(a.drop_first(), b.drop_first(), m);
                assert forall|i: int| 0 <= i < m + 1 implies a[i] == b[i] by {
                    if i > 0 {
                        assert(a.drop_first()[i - 1] == b.drop_first()[i - 1]);
                    }
                }
                assert(keys_part(a, b, m + 1));
            }
        }
    }
}

/// Law: a table lists each row that it holds once, in the order of the keys.
pub proof fn law_rows_are_listed(trees: Trees, table: Seq<char>)
    requires
        trees.dom().finite(),
    ensures
        ({
            let list = store::table_rows(trees, table);
            &&& forall|key: KeyModel, row: RowModel| #[trigger]
                list.contains((key, row)) <==> is_stored(trees, table, key, row)
            &&& forall|i: int, j: int|
                0 <= i < j < list.len() ==> (#[trigger] list[i]).0 != (#[trigger] list[j]).0
                    && key_before(list[i].0, list[j].0)
        }),
{
    let list = store::table_rows(trees, table);
    let tree = persistence::rows_of(table);
    consistency::lemma_tree_listed(trees, tree);
    assert forall|key: KeyModel, row: RowModel| #[trigger]
        list.contains((key, row)) <==> is_stored(trees, table, key, row) by {
        if list.contains((key, row)) {
            let i = choose|i: int| 0 <= i < list.len() && list[i] == (key, row);
            assert(trees.contains_key((tree, list[i].0)));
        }
        if is_stored(trees, table, key, row) {
            let i = choose|i: int| 0 <= i < list.len() && (#[trigger] list[i]).0 == key;
            assert(list[i] == (key, row));
        }
    }
    value::law_value_order_total();
    order::law_lex_strict_total(value::value_less());
    let before = value::key_less();
    assert(ordered_map::ascending(list, before));
    assert forall|i: int, j: int| 0 <= i < j < list.len() implies (#[trigger] list[i]).0 != (
    #[trigger] list[j]).0 && key_before(list[i].0, list[j].0) by {
        assert(before(list[i].0, list[j].0));
        assert(!before(list[i].0, list[i].0));
        lemma_key_before(list[i].0, list[j].0);
    }
}

/// A row alone.
pub open spec fn alone(table: Seq<char>, row: RowModel) -> StateModel {
    map![table => Some(row)]
}

/// A row of a table meets a condition; every row meets none.
pub open spec fn row_meets(p: Option<PredicateModel>, table: Seq<char>, row: RowModel) -> bool {
    match p {
        None => true,
        Some(p) => predicate::holds(p, alone(table, row), CacheModel::empty()),
    }
}

/// The rows of a list that meet a condition.
pub open spec fn rows_meeting(
    list: Seq<(KeyModel, RowModel)>,
    p: Option<PredicateModel>,
    table: Seq<char>,
) -> Seq<(KeyModel, RowModel)> {
    list.filter(|e: (KeyModel, RowModel)| row_meets(p, table, e.1))
}

proof fn lemma_row_meets(p: Option<PredicateModel>, table: Seq<char>, row: RowModel)
    ensures
        store_helpers::meets(p, table, row) == row_meets(p, table, row),
{
    assert(predicate::single_state(table, row) =~= alone(table, row));
}

/// What is kept of a list is what a filter leaves of it.
pub proof fn lemma_kept_filter<A>(list: Seq<A>, p: spec_fn(A) -> bool, q: spec_fn(A) -> bool)
    requires
        forall|a: A| #[trigger] p(a) == q(a),
    ensures
        store_helpers::kept(list, p) == list.filter(q),
    decreases list.len(),
{
    reveal(Seq::filter);
    if list.len() > 0 {
        lemma_kept_filter(list.drop_last(), p, q);
    } else {
        assert(list =~= Seq::empty());
    }
}

/// The rows of a table that meet a condition, in the order of the table.
pub proof fn lemma_matching(trees: Trees, table: Seq<char>, p: Option<PredicateModel>)
    ensures
        store_helpers::matching_rows(trees, table, p) == rows_meeting(
            store::table_rows(trees, table),
            p,
            table,
        ),
{
    let a = |e: (KeyModel, RowModel)| store_helpers::meets(p, table, e.1);
    let b = |e: (KeyModel, RowModel)| row_meets(p, table, e.1);
    assert forall|e: (KeyModel, RowModel)| #[trigger] a(e) == b(e) by {
        lemma_row_meets(p, table, e.1);
    }
    lemma_kept_filter(store::table_rows(trees, table), a, b);
}

/// What is shown of rows of a table.
pub open spec fn rows_shown(
    list: Seq<(KeyModel, RowModel)>,
    table: Seq<char>,
    columns: Seq<ColumnRef>,
) -> Seq<RowModel> {
    Seq::new(list.len(), |i: int| shown_row(alone(table, list[i].1), columns))
}

/// Law: a SELECT of columns of one table gives what they show of each row that
/// meets the condition, in the order in which the table lists them, and changes
/// nothing; without a condition it gives all.
pub proof fn law_selection_shows_rows<F: Fn(FloatOp) -> u64>(
    f: F,
    c: CatalogModel,
    trees: Trees,
    table: Seq<char>,
    columns: Seq<ColumnRef>,
    p: Option<PredicateModel>,
)
    requires
        database_kept(c, trees),
        c.tables.contains_key(table),
        columns_within(columns, table),
        p matches Some(q) ==> without_subqueries(q),
    ensures
        planner::run_of(f, c, plain_selection(table, columns, p), trees) == (Written {
            result: Ok::<Seq<RowModel>, ErrorModel>(
                rows_shown(
                    rows_meeting(store::table_rows(trees, table), p, table),
                    table,
                    columns,
                ),
            ),
            trees,
            events: Seq::empty(),
        }),
{
    readback_laws::law_selection_reads_rows(f, c, trees, table, columns, p);
    assert(table_kept(c, trees, table));
    consistency::lemma_keys_fit(trees, table, c.tables[table]);
    lemma_matching(trees, table, p);
    let found = rows_meeting(store::table_rows(trees, table), p, table);
    let given = join_builder::rows_only(found).map_values(readback_laws::values_in(columns));
    let wanted = rows_shown(found, table, columns);
    assert forall|i: int| 0 <= i < found.len() implies #[trigger] given[i] == wanted[i] by {
        assert forall|k: int| 0 <= k < columns.len() implies given[i][k] == wanted[i][k] by {
            assert(columns[k].table == table);
        }
        assert(given[i] =~= wanted[i]);
    }
    assert(given =~= wanted);
}

/// A column of a type can hold a value: NULL in every case, whole numbers in
/// INTEGER, doubles in FLOAT, texts and JSON in TEXT, UUIDs in UUID and bytes in
/// BLOB columns.
pub open spec fn can_hold(t: EngineType, v: ValueModel) -> bool {
    match t {
        EngineType::Integer => v is Null || v is Integer,
        EngineType::Float => v is Null || v is Float,
        EngineType::Text => v is Null || v is Text || v is Json,
        EngineType::Uuid => v is Null || v is Uuid,
        EngineType::Blob => v is Null || v is Blob,
    }
}

/// A row has a value for each column, and each column can hold its own.
pub open spec fn is_row_of(table: TableModel, row: RowModel) -> bool {
    row.len() == table.columns.len() && forall|i: int|
        0 <= i < row.len() ==> can_hold(table.columns[i].data_type, #[trigger] row[i])
}

proof fn lemma_misfit(table: TableModel, row: RowModel, from: int)
    requires
        row.len() == table.columns.len(),
        0 <= from <= row.len(),
    ensures
        schema::misfit(row, table.columns, from) is None <==> forall|i: int|
            from <= i < row.len() ==> can_hold(table.columns[i].data_type, #[trigger] row[i]),
    decreases row.len() - from,
{
    if from < row.len() {
        lemma_misfit(table, row, from + 1);
    }
}

/// Law: a row fits a table exactly if it has as many values as there are columns,
/// and each column can hold its value.
pub proof fn law_row_fits(table: TableModel, row: RowModel)
    ensures
        schema::row_check(table, row) is Ok <==> is_row_of(table, row),
{
    if row.len() == table.columns.len() {
        lemma_misfit(table, row, 0);
    }
}

/// `key` is the value of the one key column of a row: a UUID or a whole number.
pub open spec fn is_key_of(table: TableModel, row: RowModel, key: KeyModel) -> bool {
    &&& table.primary_key.len() == 1
    &&& table.primary_key[0] < row.len()
    &&& key == seq![row[table.primary_key[0] as int]]
    &&& key[0] is Uuid || key[0] is Integer
}

/// Law: the primary key of a row is the value of the one key column of its table,
/// a UUID or a whole number; a row without one has none.
pub proof fn law_primary_key(table: TableModel, row: RowModel)
    ensures
        match schema::primary_key_of(table, row) {
            Ok(key) => is_key_of(table, row, key),
            Err(_) => forall|key: KeyModel| !(#[trigger] is_key_of(table, row, key)),
        },
{
    let places = table.primary_key;
    if places.len() == 1 && places[0] < row.len() {
        let values = schema::picked(row, places);
        assert(forall|i: int| 0 <= i < places.len() ==> (#[trigger] places[i]) < row.len());
        assert(values is Some);
        assert(values->0 =~= seq![row[places[0] as int]]);
        if values->0.contains(ValueModel::Null) {
            let i = choose|i: int| 0 <= i < values->0.len() && values->0[i] == ValueModel::Null;
            assert(values->0[0] is Null);
        }
        assert forall|key: KeyModel| #[trigger] is_key_of(table, row, key) implies key
            == values->0 by {}
    } else {
        if let Some(values) = schema::picked(row, places) {
            assert(values.len() == places.len());
            if places.len() == 1 {
                assert(places[0] < row.len());
            }
        }
    }
}

/// Two rows have the same values in the columns of an index.
pub open spec fn same_in(index: IndexModel, a: RowModel, b: RowModel) -> bool {
    forall|i: int|
        0 <= i < index.column_indices.len() ==> a[#[trigger] index.column_indices[i] as int]
            == b[index.column_indices[i] as int]
}

/// The columns of an index are columns of a table.
pub open spec fn is_over(index: IndexModel, table: TableModel) -> bool {
    forall|i: int|
        0 <= i < index.column_indices.len() ==> (#[trigger] index.column_indices[i])
            < table.columns.len()
}

/// A row of the table has the values of `row` in the columns of the index.
pub open spec fn is_taken(
    trees: Trees,
    table: Seq<char>,
    index: IndexModel,
    row: RowModel,
) -> bool {
    exists|key: KeyModel, other: RowModel| #[trigger]
        is_stored(trees, table, key, other) && same_in(index, other, row)
}

proof fn lemma_first_conflict(
    entries: Seq<(KeyModel, KeyModel)>,
    key: KeyModel,
    pk: KeyModel,
)
    requires
        store::entries_fit(entries),
    ensures
        match store_helpers::first_conflict(entries, key, pk) {
            Ok(None) => forall|i: int|
                0 <= i < entries.len() ==> (#[trigger] entries[i]).0 != key || entries[i].1 == pk,
            Ok(Some(_)) => exists|i: int|
                0 <= i < entries.len() && (#[trigger] entries[i]).0 == key && entries[i].1 != pk,
            Err(_) => false,
        },
    decreases entries.len(),
{
    if entries.len() > 0 {
        let rest = entries.drop_first();
        assert(value::is_primary_key(entries[0].1));
        assert forall|i: int| 0 <= i < rest.len() implies value::is_primary_key(
            (#[trigger] rest[i]).1,
        ) by {
            assert(rest[i] == entries[i + 1]);
        }
        lemma_first_conflict(rest, key, pk);
        match store_helpers::first_conflict(rest, key, pk) {
            Ok(None) => {
                assert forall|i: int|
                    0 < i < entries.len() implies (#[trigger] entries[i]).0 != key || entries[i].1
                    == pk by {
                    assert(rest[i - 1] == entries[i]);
                }
            },
            Ok(Some(_)) => {
                let i = choose|i: int|
                    0 <= i < rest.len() && (#[trigger] rest[i]).0 == key && rest[i].1 != pk;
                assert(entries[i + 1] == rest[i]);
            },
            Err(_) => {},
        }
    }
}

/// An entry of another row with the index key of a new one is one of a row that
/// takes it.
proof fn lemma_conflict_is_taken(
    trees: Trees,
    table: Seq<char>,
    t: TableModel,
    index: IndexModel,
    row: RowModel,
    pk: KeyModel,
)
    requires
        trees.dom().finite(),
        consistency::rows_fit(trees, table, t),
        consistency::in_step(trees, table, index),
        is_over(index, t),
        is_row_of(t, row),
        store::row_at(trees, table, pk) is None,
    ensures
        schema::index_key_of(index, row) is Ok,
        ({
            let key = schema::index_key_of(index, row)->Ok_0;
            match store_helpers::first_conflict(store::index_entries(trees, index), key, pk) {
                Ok(None) => !is_taken(trees, table, index, row),
                Ok(Some(_)) => is_taken(trees, table, index, row),
                Err(_) => false,
            }
        }),
{
    let columns = index.column_indices;
    assert forall|i: int| 0 <= i < columns.len() implies (#[trigger] columns[i]) < row.len() by {}
    let key = schema::index_key_of(index, row)->Ok_0;
    let entries = store::index_entries(trees, index);
    let tree = persistence::entries_of(index.name);
    let list = store::tree_listing(trees, tree);
    consistency::lemma_entries_fit(trees, table, t, index);
    consistency::lemma_tree_listed(trees, tree);
    lemma_first_conflict(entries, key, pk);
    assert forall|other: RowModel| is_row_of(t, other) implies (schema::index_key_of(index, other)
        == Ok::<KeyModel, ErrorModel>(key) <==> #[trigger] same_in(index, other, row)) by {
        assert forall|i: int| 0 <= i < columns.len() implies (#[trigger] columns[i])
            < other.len() by {}
        let k = schema::index_key_of(index, other)->Ok_0;
        if k == key {
            assert forall|i: int| 0 <= i < columns.len() implies other[#[trigger] columns[i] as int]
                == row[columns[i] as int] by {
                assert(k[i] == key[i]);
            }
        }
        if same_in(index, other, row) {
            assert forall|i: int| 0 <= i < columns.len() implies k[i] == key[i] by {
                assert(other[columns[i] as int] == row[columns[i] as int]);
            }
            assert(k =~= key);
        }
    }
    match store_helpers::first_conflict(entries, key, pk) {
        Ok(None) => {
            if is_taken(trees, table, index, row) {
                let (k, other) = choose|k: KeyModel, other: RowModel| #[trigger]
                    is_stored(trees, table, k, other) && same_in(index, other, row);
                assert(store::row_at(trees, table, k) == Some(other));
                assert(consistency::row_fits(trees, table, t, k));
                law_row_fits(t, other);
                assert(consistency::row_entered(trees, table, index, k));
                let at = consistency::lemma_entry_listed(trees, index, other, k);
                assert(entries[at].0 == key && entries[at].1 == k);
            }
        },
        Ok(Some(_)) => {
            let i = choose|i: int|
                0 <= i < entries.len() && (#[trigger] entries[i]).0 == key && entries[i].1 != pk;
            let k = list[i].0;
            assert(trees.contains_key((tree, k)));
            assert(consistency::entry_backed(trees, table, index, k));
            let owner = entries[i].1;
            let other = store::row_at(trees, table, owner)->0;
            assert(consistency::row_fits(trees, table, t, owner));
            law_row_fits(t, other);
            assert(same_in(index, other, row));
            assert(is_stored(trees, table, owner, other));
        },
        Err(_) => {},
    }
}

proof fn lemma_unique_check(
    trees: Trees,
    table: Seq<char>,
    t: TableModel,
    indexes: Seq<IndexModel>,
    row: RowModel,
    pk: KeyModel,
)
    requires
        trees.dom().finite(),
        consistency::rows_fit(trees, table, t),
        forall|i: int|
            0 <= i < indexes.len() ==> consistency::in_step(trees, table, #[trigger] indexes[i])
                && is_over(indexes[i], t),
        is_row_of(t, row),
        store::row_at(trees, table, pk) is None,
    ensures
        store_helpers::unique_check(trees, indexes, row, pk) is Ok <==> forall|i: int|
            0 <= i < indexes.len() && (#[trigger] indexes[i]).unique ==> !is_taken(
                trees,
                table,
                indexes[i],
                row,
            ),
    decreases indexes.len(),
{
    if indexes.len() > 0 {
        let rest = indexes.drop_first();
        assert forall|i: int| 0 <= i < rest.len() implies consistency::in_step(
            trees,
            table,
            #[trigger] rest[i],
        ) && is_over(rest[i], t) by {
            assert(rest[i] == indexes[i + 1]);
        }
        lemma_unique_check(trees, table, t, rest, row, pk);
        assert(consistency::in_step(trees, table, indexes[0]) && is_over(indexes[0], t));
        lemma_conflict_is_taken(trees, table, t, indexes[0], row, pk);
        let all = forall|i: int|
            0 <= i < indexes.len() && (#[trigger] indexes[i]).unique ==> !is_taken(
                trees,
                table,
                indexes[i],
                row,
            );
        let others = forall|i: int|
            0 <= i < rest.len() && (#[trigger] rest[i]).unique ==> !is_taken(
                trees,
                table,
                rest[i],
                row,
            );
        if all {
            assert forall|i: int| 0 <= i < rest.len() && (#[trigger] rest[i]).unique implies !is_taken(
                trees,
                table,
                rest[i],
                row,
            ) by {
                assert(rest[i] == indexes[i + 1]);
            }
            assert(indexes[0].unique ==> !is_taken(trees, table, indexes[0], row));
        }
        if others && (indexes[0].unique ==> !is_taken(trees, table, indexes[0], row)) {
            assert forall|i: int|
                0 <= i < indexes.len() && (#[trigger] indexes[i]).unique implies !is_taken(
                trees,
                table,
                indexes[i],
                row,
            ) by {
                if i > 0 {
                    assert(rest[i - 1] == indexes[i]);
                }
            }
        }
    }
}

proof fn lemma_entries_added(
    trees: Trees,
    indexes: Seq<IndexModel>,
    row: RowModel,
    pk: KeyModel,
    t: TableModel,
)
    requires
        row.len() == t.columns.len(),
        forall|i: int| 0 <= i < indexes.len() ==> is_over(#[trigger] indexes[i], t),
    ensures
        store_helpers::entries_added(trees, indexes, row, pk).0 is Ok,
    decreases indexes.len(),
{
    if indexes.len() > 0 {
        let columns = indexes[0].column_indices;
        assert(is_over(indexes[0], t));
        assert forall|i: int| 0 <= i < columns.len() implies (#[trigger] columns[i])
            < row.len() by {}
        let rest = indexes.drop_first();
        assert forall|i: int| 0 <= i < rest.len() implies is_over(#[trigger] rest[i], t) by {
            assert(rest[i] == indexes[i + 1]);
        }
        let key = schema::index_key_of(indexes[0], row)->Ok_0;
        lemma_entries_added(store::with_entry(trees, indexes[0], key, pk), rest, row, pk, t);
    }
}

/// The indexes of a table are over columns of it.
pub open spec fn all_over(c: CatalogModel, table: Seq<char>) -> bool {
    forall|i: int|
        0 <= i < c.indexes.len() && (#[trigger] c.indexes[i]).table_name == table ==> is_over(
            c.indexes[i],
            c.tables[table],
        )
}

/// A row can be put in: it fits the table, has a primary key under which nothing
/// is stored, and no unique index of the table has its values already.
pub open spec fn can_be_inserted(
    c: CatalogModel,
    trees: Trees,
    table: Seq<char>,
    row: RowModel,
) -> bool {
    &&& c.tables.contains_key(table)
    &&& is_row_of(c.tables[table], row)
    &&& exists|key: KeyModel| #[trigger]
        is_key_of(c.tables[table], row, key) && !trees.contains_key(
            (persistence::rows_of(table), key),
        )
    &&& forall|i: int|
        0 <= i < c.indexes.len() && (#[trigger] c.indexes[i]).table_name == table
            && c.indexes[i].unique ==> !is_taken(trees, table, c.indexes[i], row)
}

/// Law: an INSERT succeeds exactly if the row fits the table, has a primary key
/// that is not taken, and repeats no unique index. It then stores the row under
/// its key, says that it has, and gives no rows; otherwise it leaves everything
/// as it was.
pub proof fn law_insert_stores_row<F: Fn(FloatOp) -> u64>(
    f: F,
    c: CatalogModel,
    trees: Trees,
    table: Seq<char>,
    row: RowModel,
)
    requires
        database_kept(c, trees),
        c.tables.contains_key(table) ==> all_over(c, table),
    ensures
        ({
            let done = planner::run_of(f, c, QueryModel::Insert { table, row }, trees);
            match done.result {
                Ok(rows) => {
                    &&& can_be_inserted(c, trees, table, row)
                    &&& rows.len() == 0
                    &&& exists|key: KeyModel| #[trigger]
                        is_key_of(c.tables[table], row, key) && done.events == seq![
                            EventModel::RowInserted { table, pk: key, row },
                        ] && forall|t: Seq<char>, k: KeyModel, r: RowModel| #[trigger]
                            is_stored(done.trees, t, k, r) <==> if t == table && k == key {
                                r == row
                            } else {
                                is_stored(trees, t, k, r)
                            }
                },
                Err(_) => !can_be_inserted(c, trees, table, row) && done.trees == trees
                    && done.events.len() == 0,
            }
        }),
{
    let done = planner::run_of(f, c, QueryModel::Insert { table, row }, trees);
    if c.tables.contains_key(table) {
        let t = c.tables[table];
        let p = catalog::belongs_to(table);
        let indexes = catalog::indexes_of(c.indexes, table);
        assert(table_kept(c, trees, table));
        law_row_fits(t, row);
        law_primary_key(t, row);
        if is_row_of(t, row) && schema::primary_key_of(t, row) is Ok {
            let pk = schema::primary_key_of(t, row)->Ok_0;
            assert(is_key_of(t, row, pk));
            assert forall|key: KeyModel| #[trigger] is_key_of(t, row, key) implies key == pk by {}
            if store::row_at(trees, table, pk) is None {
                assert forall|i: int| 0 <= i < indexes.len() implies consistency::in_step(
                    trees,
                    table,
                    #[trigger] indexes[i],
                ) && is_over(indexes[i], t) by {
                    let at = store_helpers::lemma_kept_member(c.indexes, p, i);
                    store_helpers::lemma_kept_holds(c.indexes, p, i);
                    assert(c.indexes[at].table_name == table);
                }
                lemma_unique_check(trees, table, t, indexes, row, pk);
                let free = forall|i: int|
                    0 <= i < indexes.len() && (#[trigger] indexes[i]).unique ==> !is_taken(
                        trees,
                        table,
                        indexes[i],
                        row,
                    );
                let all_free = forall|i: int|
                    0 <= i < c.indexes.len() && (#[trigger] c.indexes[i]).table_name == table
                        && c.indexes[i].unique ==> !is_taken(trees, table, c.indexes[i], row);
                if free {
                    assert forall|i: int|
                        0 <= i < c.indexes.len() && (#[trigger] c.indexes[i]).table_name == table
                            && c.indexes[i].unique implies !is_taken(
                        trees,
                        table,
                        c.indexes[i],
                        row,
                    ) by {
                        let k = store_helpers::lemma_kept_contains(c.indexes, p, i);
                        assert(indexes[k] == c.indexes[i]);
                    }
                    lemma_entries_added(
                        store::with_row(trees, table, pk, row),
                        indexes,
                        row,
                        pk,
                        t,
                    );
                    assert(done.result is Ok);
                    consistency::law_insert_keeps_table(c, trees, table, row);
                    assert forall|u: Seq<char>, k: KeyModel, r: RowModel| #[trigger]
                        is_stored(done.trees, u, k, r) <==> if u == table && k == pk {
                            r == row
                        } else {
                            is_stored(trees, u, k, r)
                        } by {
                        assert(store::row_at(done.trees, u, k) == if u == table && k == pk {
                            Some(row)
                        } else {
                            store::row_at(trees, u, k)
                        });
                    }
                } else {
                    let i = choose|i: int|
                        0 <= i < indexes.len() && (#[trigger] indexes[i]).unique && is_taken(
                            trees,
                            table,
                            indexes[i],
                            row,
                        );
                    let at = store_helpers::lemma_kept_member(c.indexes, p, i);
                    store_helpers::lemma_kept_holds(c.indexes, p, i);
                    assert(c.indexes[at].table_name == table && c.indexes[at].unique);
                    assert(!all_free);
                }
            }
        }
    }
}

proof fn lemma_deleting(
    rows: Seq<(KeyModel, RowModel)>,
    trees: Trees,
    table: Seq<char>,
    indexes: Seq<IndexModel>,
    returning: Option<Seq<ColumnRef>>,
    out: Seq<RowModel>,
    events: Seq<EventModel>,
)
    ensures
        executor::deleting(rows, trees, table, indexes, returning, out, events).result matches Ok(
            given,
        ) ==> {
            let done = executor::deleting(rows, trees, table, indexes, returning, out, events);
            &&& done.events == events + Seq::new(
                rows.len(),
                |i: int| EventModel::RowDeleted { table, pk: rows[i].0, row: rows[i].1 },
            )
            &&& match returning {
                None => given == out,
                Some(columns) => given.len() == out.len() + rows.len() && (forall|i: int|
                    0 <= i < out.len() ==> #[trigger] given[i] == out[i]) && forall|i: int|
                    0 <= i < rows.len() ==> update_expr::returned_row(
                        table,
                        (#[trigger] rows[i]).1,
                        columns,
                    ) == Ok::<RowModel, ErrorModel>(given[out.len() + i]),
            }
        },
    decreases rows.len(),
{
    let done = executor::deleting(rows, trees, table, indexes, returning, out, events);
    let wanted = events + Seq::new(
        rows.len(),
        |i: int| EventModel::RowDeleted { table, pk: rows[i].0, row: rows[i].1 },
    );
    if rows.len() == 0 {
        assert(wanted =~= events);
    } else if done.result is Ok {
        let (pk, row) = rows[0];
        let rest = rows.drop_first();
        let more = executor::given_back(table, row, returning, out)->Ok_0;
        let after = store_helpers::row_deleted(trees, table, pk, row, indexes).1;
        let heard = events.push(EventModel::RowDeleted { table, pk, row });
        lemma_deleting(rest, after, table, indexes, returning, more, heard);
        assert(wanted =~= heard + Seq::new(
            rest.len(),
            |i: int| EventModel::RowDeleted { table, pk: rest[i].0, row: rest[i].1 },
        ));
        if let Some(columns) = returning {
            let given = done.result->Ok_0;
            assert forall|i: int| 0 <= i < out.len() implies #[trigger] given[i] == out[i] by {
                assert(more[i] == out[i]);
            }
            assert forall|i: int| 0 <= i < rows.len() implies update_expr::returned_row(
                table,
                (#[trigger] rows[i]).1,
                columns,
            ) == Ok::<RowModel, ErrorModel>(given[out.len() + i]) by {
                if i == 0 {
                    assert(given[out.len() as int] == more[out.len() as int]);
                } else {
                    assert(rest[i - 1] == rows[i]);
                }
            }
        }
    }
}

/// Law: a DELETE takes out exactly the rows that meet its condition, says of each
/// that it has gone, and gives back of each what its RETURNING clause names, all
/// in the order of the table. Other rows, and other tables, stay as they were.
pub proof fn law_delete_takes_out_rows<F: Fn(FloatOp) -> u64>(
    f: F,
    c: CatalogModel,
    trees: Trees,
    table: Seq<char>,
    p: Option<PredicateModel>,
    returning: Option<Seq<ColumnRef>>,
)
    requires
        database_kept(c, trees),
        c.tables.contains_key(table),
    ensures
        ({
            let done = planner::run_of(
                f,
                c,
                QueryModel::Delete { table, predicate: p, returning },
                trees,
            );
            let gone = rows_meeting(store::table_rows(trees, table), p, table);
            &&& returning is None ==> done.result is Ok
            &&& done.result matches Ok(given) ==> {
                &&& done.events == Seq::new(
                    gone.len(),
                    |i: int| EventModel::RowDeleted { table, pk: gone[i].0, row: gone[i].1 },
                )
                &&& match returning {
                    None => given.len() == 0,
                    Some(columns) => given.len() == gone.len() && forall|i: int|
                        0 <= i < gone.len() ==> update_expr::returned_row(
                            table,
                            (#[trigger] gone[i]).1,
                            columns,
                        ) == Ok::<RowModel, ErrorModel>(given[i]),
                }
                &&& forall|t: Seq<char>, k: KeyModel, r: RowModel| #[trigger]
                    is_stored(done.trees, t, k, r) <==> is_stored(trees, t, k, r) && !(t == table
                        && row_meets(p, table, r))
            }
        }),
{
    let done = planner::run_of(f, c, QueryModel::Delete { table, predicate: p, returning }, trees);
    let gone = rows_meeting(store::table_rows(trees, table), p, table);
    let indexes = catalog::indexes_of(c.indexes, table);
    assert(table_kept(c, trees, table));
    consistency::law_delete_keeps_table(c, trees, table, p, returning);
    consistency::lemma_keys_fit(trees, table, c.tables[table]);
    lemma_matching(trees, table, p);
    lemma_deleting(gone, trees, table, indexes, returning, Seq::empty(), Seq::empty());
    if done.result is Ok {
        let heard = Seq::new(
            gone.len(),
            |i: int| EventModel::RowDeleted { table, pk: gone[i].0, row: gone[i].1 },
        );
        assert(Seq::<EventModel>::empty() + heard =~= heard);
        assert forall|t: Seq<char>, k: KeyModel, r: RowModel| #[trigger]
            is_stored(done.trees, t, k, r) <==> is_stored(trees, t, k, r) && !(t == table
                && row_meets(p, table, r)) by {
            let listed = consistency::listed(gone, k);
            assert(store::row_at(done.trees, t, k) == if t == table && listed {
                None
            } else {
                store::row_at(trees, t, k)
            });
            if t == table {
                readback_laws::lemma_matching(trees, table, p, (k, r));
                lemma_row_meets(p, table, r);
                if is_stored(trees, t, k, r) && row_meets(p, table, r) {
                    let i = choose|i: int| 0 <= i < gone.len() && gone[i] == (k, r);
                    assert(gone[i].0 == k);
                }
                if is_stored(trees, t, k, r) && listed {
                    let i = choose|i: int| 0 <= i < gone.len() && (#[trigger] gone[i]).0 == k;
                    assert(gone.contains(gone[i]));
                    readback_laws::lemma_matching(trees, table, p, gone[i]);
                    lemma_row_meets(p, table, gone[i].1);
                    assert(gone[i] == (k, r));
                }
            }
        }
    }
}

/// What is given back of the new row that a change tells of.
pub open spec fn is_given_back(
    table: Seq<char>,
    columns: Seq<ColumnRef>,
    e: EventModel,
    given: RowModel,
) -> bool {
    e matches EventModel::RowUpdated { new_row, .. } && update_expr::returned_row(
        table,
        new_row,
        columns,
    ) == Ok::<RowModel, ErrorModel>(given)
}

/// The changes that an update tells of, and what it gives back.
proof fn lemma_updating<F: Fn(FloatOp) -> u64>(
    f: F,
    plan: UpdatePlan,
    rows: Seq<UpdateModel>,
    trees: Trees,
    out: Seq<RowModel>,
    events: Seq<EventModel>,
) -> (told: (Seq<EventModel>, Seq<RowModel>))
    ensures
        executor::updating(f, plan, rows, trees, out, events).result matches Ok(given) ==> {
            &&& executor::updating(f, plan, rows, trees, out, events).events == events + told.0
            &&& given == out + told.1
            &&& told.0.len() == rows.len()
            &&& forall|i: int|
                0 <= i < rows.len() ==> is_update_of(f, plan, #[trigger] rows[i], told.0[i])
            &&& match plan.returning {
                None => told.1.len() == 0,
                Some(columns) => told.1.len() == rows.len() && forall|i: int|
                    0 <= i < rows.len() ==> is_given_back(
                        plan.table,
                        columns,
                        told.0[i],
                        #[trigger] told.1[i],
                    ),
            }
        },
    decreases rows.len(),
{
    let done = executor::updating(f, plan, rows, trees, out, events);
    if rows.len() > 0 && done.result is Ok {
        let (old_pk, old_row, joined) = rows[0];
        let rest = rows.drop_first();
        let new_row = update_expr::assigned(
            f,
            old_row,
            plan.assignments,
            plan.table,
            joined,
            old_row,
        )->Ok_0;
        let (result, after) = executor::row_replaced(plan, trees, old_pk, old_row, new_row);
        let pk = result->Ok_0;
        let more = executor::given_back(plan.table, new_row, plan.returning, out)->Ok_0;
        let heard = EventModel::RowUpdated { table: plan.table, pk, old_row, new_row };
        let (others, further) = lemma_updating(f, plan, rest, after, more, events.push(heard));
        law_primary_key(plan.schema, new_row);
        law_row_fits(plan.schema, new_row);
        let fresh = seq![heard] + others;
        assert(events.push(heard) + others =~= events + fresh);
        assert(is_update_of(f, plan, rows[0], heard));
        assert forall|i: int| 0 <= i < rows.len() implies is_update_of(
            f,
            plan,
            #[trigger] rows[i],
            fresh[i],
        ) by {
            if i > 0 {
                assert(rest[i - 1] == rows[i]);
                assert(fresh[i] == others[i - 1]);
            }
        }
        match plan.returning {
            None => {
                (fresh, further)
            },
            Some(columns) => {
                let first = more.last();
                let added = seq![first] + further;
                assert(more =~= out.push(first));
                assert(more + further =~= out + added);
                assert forall|i: int| 0 <= i < rows.len() implies is_given_back(
                    plan.table,
                    columns,
                    fresh[i],
                    #[trigger] added[i],
                ) by {
                    if i > 0 {
                        assert(fresh[i] == others[i - 1]);
                        assert(added[i] == further[i - 1]);
                    }
                }
                (fresh, added)
            },
        }
    } else {
        assert(events + Seq::<EventModel>::empty() =~= events);
        assert(out + Seq::<RowModel>::empty() =~= out);
        (Seq::empty(), Seq::empty())
    }
}

/// A change says that a row was replaced by what the assignments make of it.
pub open spec fn is_update_of<F: Fn(FloatOp) -> u64>(
    f: F,
    plan: UpdatePlan,
    target: UpdateModel,
    e: EventModel,
) -> bool {
    e matches EventModel::RowUpdated { table, pk, old_row, new_row } && table == plan.table
        && old_row == target.1 && update_expr::assigned(
        f,
        old_row,
        plan.assignments,
        plan.table,
        target.2,
        old_row,
    ) == Ok::<RowModel, ErrorModel>(new_row) && is_row_of(plan.schema, new_row) && is_key_of(
        plan.schema,
        new_row,
        pk,
    )
}

/// A change says that a row of one table was replaced by what the assignments make
/// of it.
pub open spec fn says_updated<F: Fn(FloatOp) -> u64>(
    f: F,
    t: TableModel,
    table: Seq<char>,
    assignments: Seq<AssignmentModel>,
    row: RowModel,
    e: EventModel,
) -> bool {
    e matches EventModel::RowUpdated { table: u, pk, old_row, new_row } && u == table && old_row
        == row && update_expr::assigned(f, row, assignments, table, None, row) == Ok::<
        RowModel,
        ErrorModel,
    >(new_row) && is_row_of(t, new_row) && is_key_of(t, new_row, pk)
}

/// Law: an UPDATE of one table replaces each row that meets its condition by what
/// the assignments make of it, which fits the table and has a primary key; it
/// says so of each, with the row before and after, and gives back of each new row
/// what its RETURNING clause names, all in the order of the table.
pub proof fn law_update_replaces_rows<F: Fn(FloatOp) -> u64>(
    f: F,
    c: CatalogModel,
    trees: Trees,
    table: Seq<char>,
    assignments: Seq<AssignmentModel>,
    p: Option<PredicateModel>,
    returning: Option<Seq<ColumnRef>>,
)
    requires
        database_kept(c, trees),
        c.tables.contains_key(table),
        assignments.len() > 0,
    ensures
        ({
            let done = planner::run_of(
                f,
                c,
                plain_update(table, assignments, p, returning),
                trees,
            );
            let rows = rows_meeting(store::table_rows(trees, table), p, table);
            done.result matches Ok(given) ==> {
                &&& done.events.len() == rows.len()
                &&& forall|i: int|
                    0 <= i < rows.len() ==> says_updated(
                        f,
                        c.tables[table],
                        table,
                        assignments,
                        (#[trigger] rows[i]).1,
                        done.events[i],
                    )
                &&& match returning {
                    None => given.len() == 0,
                    Some(columns) => given.len() == rows.len() && forall|i: int|
                        0 <= i < rows.len() ==> is_given_back(
                            table,
                            columns,
                            done.events[i],
                            #[trigger] given[i],
                        ),
                }
            }
        }),
{
    let done = planner::run_of(f, c, plain_update(table, assignments, p, returning), trees);
    let rows = rows_meeting(store::table_rows(trees, table), p, table);
    assert(table_kept(c, trees, table));
    consistency::lemma_keys_fit(trees, table, c.tables[table]);
    lemma_matching(trees, table, p);
    let plan = UpdatePlan {
        schema: c.tables[table],
        table,
        indexes: catalog::indexes_of(c.indexes, table),
        assignments,
        returning,
    };
    let targets = executor::alone(rows);
    let (fresh, added) = lemma_updating(f, plan, targets, trees, Seq::empty(), Seq::empty());
    if done.result is Ok {
        assert(Seq::<EventModel>::empty() + fresh =~= fresh);
        assert(Seq::<RowModel>::empty() + added =~= added);
        assert forall|i: int| 0 <= i < rows.len() implies says_updated(
            f,
            c.tables[table],
            table,
            assignments,
            (#[trigger] rows[i]).1,
            fresh[i],
        ) by {
            assert(is_update_of(f, plan, targets[i], fresh[i]));
        }
    }
}

} // verus!
