//! What reading the rows of one table gives.
use vstd::prelude::*;
use crate::catalog::{self, CatalogModel};
use crate::database_laws;
use crate::error::ErrorModel;
use crate::in_memory;
use crate::join_builder;
use crate::operators::scan;
use crate::ordered_map::{self, KeyBound};
use crate::planner;
use crate::plain;
use crate::predicate::{self, CacheModel};
use crate::query::{ColumnRef, JoinModel, PredicateModel};
use crate::select_pipeline;
use crate::store::{self, RowModel, Trees};
use crate::table_laws;
use crate::value::ValueModel;

verus! {

/// What a row holds at a place: NULL beyond its end.
pub open spec fn held_at(row: RowModel, i: int) -> ValueModel {
    if 0 <= i < row.len() {
        row[i]
    } else {
        ValueModel::Null
    }
}

/// Law: a scan shows of a row the columns that it is to show, in their order. A
/// column of another table is refused.
pub proof fn law_scan_shows_columns(
    table: Seq<char>,
    row: RowModel,
    projection: Seq<ColumnRef>,
)
    ensures
        match scan::projected(table, row, projection) {
            Ok(shown) => shown.len() == projection.len() && forall|i: int|
                0 <= i < projection.len() ==> (#[trigger] projection[i]).table == table && shown[i]
                    == held_at(row, projection[i].column_index as int),
            Err(_) => exists|i: int|
                0 <= i < projection.len() && (#[trigger] projection[i]).table != table,
        },
    decreases projection.len(),
{
    if projection.len() > 0 {
        let rest = projection.drop_last();
        law_scan_shows_columns(table, row, rest);
        match scan::projected(table, row, rest) {
            Ok(before) => {
                assert(projection[projection.len() - 1] == projection.last());
                assert forall|i: int| 0 <= i < rest.len() implies rest[i]
                    == #[trigger] projection[i] by {}
            },
            Err(_) => {
                let i = choose|i: int| 0 <= i < rest.len() && (#[trigger] rest[i]).table != table;
                assert(projection[i].table != table);
            },
        }
    }
}

/// A row passes the condition of a scan.
pub open spec fn passes(
    p: Option<PredicateModel>,
    table: Seq<char>,
    row: RowModel,
    cache: CacheModel,
) -> bool {
    p matches Some(c) ==> predicate::holds(c, table_laws::alone(table, row), cache)
}

/// Law: the next row of a scan is the first from where it stands that passes its
/// condition; it is at its end where none does.
pub proof fn law_scan_goes_to_next(
    rows: Seq<RowModel>,
    from: int,
    p: Option<PredicateModel>,
    table: Seq<char>,
    cache: CacheModel,
)
    requires
        from >= 0,
    ensures
        match scan::next_row(rows, from, p, table, cache) {
            Some(i) => from <= i < rows.len() && passes(p, table, rows[i], cache) && forall|j: int|
                from <= j < i ==> !passes(p, table, #[trigger] rows[j], cache),
            None => forall|j: int|
                from <= j < rows.len() ==> !passes(p, table, #[trigger] rows[j], cache),
        },
    decreases rows.len() - from,
{
    if from < rows.len() {
        assert(predicate::single_state(table, rows[from]) =~= table_laws::alone(table, rows[from]));
        law_scan_goes_to_next(rows, from + 1, p, table, cache);
    }
}

/// Law: a projection by places shows of a row what it holds there, in the order
/// of the places, and the whole row where no place is given. A place beyond the
/// row is refused.
pub proof fn law_places_are_shown(row: RowModel, places: Seq<usize>)
    ensures
        places.len() == 0 ==> catalog::projected_row(row, places) == Ok::<RowModel, ErrorModel>(
            row,
        ),
        places.len() > 0 ==> match catalog::projected_row(row, places) {
            Ok(shown) => shown.len() == places.len() && forall|i: int|
                0 <= i < places.len() ==> (#[trigger] places[i]) < row.len() && shown[i]
                    == row[places[i] as int],
            Err(_) => exists|i: int| 0 <= i < places.len() && (#[trigger] places[i]) >= row.len(),
        },
{
    lemma_places(row, places);
}

proof fn lemma_places(row: RowModel, places: Seq<usize>)
    ensures
        match plain::collected(places, |i: usize| catalog::row_cell(row, i)) {
            Ok(shown) => shown.len() == places.len() && forall|i: int|
                0 <= i < places.len() ==> (#[trigger] places[i]) < row.len() && shown[i]
                    == row[places[i] as int],
            Err(_) => exists|i: int| 0 <= i < places.len() && (#[trigger] places[i]) >= row.len(),
        },
    decreases places.len(),
{
    let f = |i: usize| catalog::row_cell(row, i);
    if places.len() > 0 {
        let rest = places.drop_last();
        lemma_places(row, rest);
        assert(places[places.len() - 1] == places.last());
        match plain::collected(rest, f) {
            Ok(before) => {
                assert forall|i: int| 0 <= i < rest.len() implies rest[i]
                    == #[trigger] places[i] by {}
            },
            Err(_) => {
                let i = choose|i: int| 0 <= i < rest.len() && (#[trigger] rest[i]) >= row.len();
                assert(places[i] >= row.len());
            },
        }
    }
}

/// Row by row what a projection by places shows.
pub open spec fn are_shown(
    shown: Seq<RowModel>,
    rows: Seq<RowModel>,
    places: Seq<usize>,
) -> bool {
    &&& shown.len() == rows.len()
    &&& forall|i: int|
        0 <= i < rows.len() ==> Ok::<RowModel, ErrorModel>(#[trigger] shown[i])
            == catalog::projected_row(rows[i], places)
}

proof fn lemma_projected_rows(rows: Seq<RowModel>, places: Seq<usize>)
    ensures
        match planner::projected_rows(rows, places) {
            Ok(shown) => are_shown(shown, rows, places),
            Err(_) => exists|i: int|
                0 <= i < rows.len() && catalog::projected_row(#[trigger] rows[i], places) is Err,
        },
    decreases rows.len(),
{
    let f = |row: RowModel| catalog::projected_row(row, places);
    if rows.len() > 0 {
        let rest = rows.drop_last();
        lemma_projected_rows(rest, places);
        assert(rows[rows.len() - 1] == rows.last());
        match plain::collected(rest, f) {
            Ok(before) => {
                assert(are_shown(before, rest, places));
                if let Ok(b) = f(rows.last()) {
                    let shown = before.push(b);
                    assert forall|i: int| 0 <= i < rows.len() implies Ok::<RowModel, ErrorModel>(
                        #[trigger] shown[i],
                    ) == catalog::projected_row(rows[i], places) by {
                        if i < rest.len() {
                            assert(before[i] == shown[i]);
                            assert(rest[i] == rows[i]);
                        }
                    }
                }
            },
            Err(_) => {
                let i = choose|i: int|
                    0 <= i < rest.len() && catalog::projected_row(
                        #[trigger] rest[i],
                        places,
                    ) is Err;
                assert(catalog::projected_row(rows[i], places) is Err);
            },
        }
    }
}

/// Law: a read of a table that is in order gives what its projection shows of
/// each row that meets its condition, in the order of the table, whether an index
/// helps or not. A table that is not known is refused.
pub proof fn law_read_gives_rows(
    c: CatalogModel,
    trees: Trees,
    table: Seq<char>,
    places: Seq<usize>,
    p: Option<PredicateModel>,
)
    requires
        c.tables.contains_key(table) ==> database_laws::table_kept(c, trees, table),
    ensures
        ({
            let read = planner::read_of(c, trees, table, places, p);
            let met = table_laws::rows_meeting(store::table_rows(trees, table), p, table);
            let rows = Seq::new(met.len(), |i: int| met[i].1);
            if c.tables.contains_key(table) {
                match read {
                    Ok(shown) => are_shown(shown, rows, places),
                    Err(_) => exists|i: int|
                        0 <= i < rows.len() && catalog::projected_row(
                            #[trigger] rows[i],
                            places,
                        ) is Err,
                }
            } else {
                read == Err::<Seq<RowModel>, ErrorModel>(ErrorModel::TableNotFound(table))
            }
        }),
{
    if c.tables.contains_key(table) {
        let met = table_laws::rows_meeting(store::table_rows(trees, table), p, table);
        let rows = Seq::new(met.len(), |i: int| met[i].1);
        database_laws::law_index_read_is_scan(c, trees, table, places, p);
        table_laws::lemma_matching(trees, table, p);
        assert(join_builder::rows_only(met) =~= rows);
        lemma_projected_rows(rows, places);
    }
}

/// Law: a range holds the entries whose keys do not lie outside it: an end that
/// is left out is not in it, one that is not is, and where there is no end
/// nothing lies beyond.
pub proof fn law_ranges<K, A>(
    m: Map<K, A>,
    before: spec_fn(K, K) -> bool,
    low: K,
    high: K,
    k: K,
)
    ensures
        ({
            let all = ordered_map::between(
                m,
                KeyBound::Unbounded,
                KeyBound::Unbounded,
                before,
            );
            let closed_range = ordered_map::between(
                m,
                KeyBound::Included(low),
                KeyBound::Included(high),
                before,
            );
            let open_range = ordered_map::between(
                m,
                KeyBound::Excluded(low),
                KeyBound::Excluded(high),
                before,
            );
            &&& all == m
            &&& open_range.contains_key(k) <==> m.contains_key(k) && before(low, k) && before(
                k,
                high,
            )
            &&& closed_range.contains_key(k) <==> m.contains_key(k) && (before(low, k) || k == low)
                && (before(k, high) || k == high)
            &&& open_range.contains_key(k) ==> open_range[k] == m[k]
            &&& closed_range.contains_key(k) ==> closed_range[k] == m[k]
        }),
{
    assert(ordered_map::between(m, KeyBound::Unbounded, KeyBound::Unbounded, before) =~= m);
}

/// Law: the entries of one tree are those of all trees that are filed under its
/// name.
pub proof fn law_entries_of_tree<K, A>(m: Map<(Seq<char>, K), A>, tree: Seq<char>, k: K)
    ensures
        in_memory::tree_map(m, tree).contains_key(k) <==> m.contains_key((tree, k)),
        m.contains_key((tree, k)) ==> in_memory::tree_map(m, tree)[k] == m[(tree, k)],
{
}

/// Law: a range of one tree lists its entries with keys in the range, in the order
/// of the keys.
pub proof fn law_range_of_tree<K, A>(
    m: Map<(Seq<char>, K), A>,
    tree: Seq<char>,
    lower: KeyBound<K>,
    upper: KeyBound<K>,
    before: spec_fn(K, K) -> bool,
)
    ensures
        in_memory::tree_range(m, tree, lower, upper, before) == ordered_map::listing(
            ordered_map::between(in_memory::tree_map(m, tree), lower, upper, before),
            before,
        ),
{
}

/// Law: the joined rows of a selection are there where the rows of all its tables
/// can be listed, and refused where those of one cannot.
pub proof fn law_joined_rows(trees: Trees, table: Seq<char>, joins: Seq<JoinModel>)
    ensures
        select_pipeline::joined_rows(trees, table, joins) is Ok <==> join_builder::all_listed(
            trees,
            join_builder::tables_read(table, Seq::empty(), joins),
        ),
        select_pipeline::joined_rows(trees, table, joins) matches Ok(states) ==> states
            == select_pipeline::materialized(trees, table, joins),
{
}

} // verus!
