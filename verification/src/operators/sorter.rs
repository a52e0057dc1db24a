//! Sorting, deduplicating and slicing of projected rows.
use vstd::prelude::*;
use crate::plain::{no_items, push_back, Plain};
use crate::query::{OrderBy, OrderModel, SortDirection};
use crate::sorting::{self, slice_rows, sorted_positions};
use crate::value::{EngineRow, EngineValue, ValueModel};

verus! {

/// A sort key beside the row that it sorts.
pub type KeyedRow = (Vec<EngineValue>, EngineRow);

/// A sort key beside its row, mathematically.
pub type KeyedModel = (Seq<ValueModel>, Seq<ValueModel>);

/// Sorts, deduplicates and slices a list of projected rows. Each comes with
/// its sort key, which may hold columns that are not projected.
pub struct Sorter {
    pub order_by: Vec<OrderBy>,
    pub distinct: bool,
    pub limit: Option<usize>,
    pub offset: Option<usize>,
    pub input: Vec<KeyedRow>,
}

/// Whether a row occurs in the list.
pub open spec fn holds_row(list: Seq<KeyedModel>, row: Seq<ValueModel>) -> bool {
    exists|i: int| 0 <= i < list.len() && (#[trigger] list[i]).1 == row
}

/// The list with the first occurrence of each row only.
pub open spec fn distinct_rows(list: Seq<KeyedModel>) -> Seq<KeyedModel>
    decreases list.len(),
{
    if list.len() == 0 {
        Seq::empty()
    } else {
        let before = distinct_rows(list.drop_last());
        if holds_row(before, list.last().1) {
            before
        } else {
            before.push(list.last())
        }
    }
}

/// The directions to sort in.
pub open spec fn directions_of(order_by: Seq<OrderModel>) -> Seq<SortDirection> {
    order_by.map_values(|o: OrderModel| o.direction)
}

pub open spec fn keys_of(list: Seq<KeyedModel>) -> Seq<Seq<ValueModel>> {
    list.map_values(|r: KeyedModel| r.0)
}

/// The rows in the order of their keys.
pub open spec fn sorted_rows(list: Seq<KeyedModel>, directions: Seq<SortDirection>) -> Seq<
    Seq<ValueModel>,
> {
    sorting::sort_order(keys_of(list), directions).map_values(|i: int| list[i].1)
}

/// What a sorter gives.
pub open spec fn sorter_output(
    order_by: Seq<OrderModel>,
    distinct: bool,
    limit: Option<usize>,
    offset: Option<usize>,
    input: Seq<KeyedModel>,
) -> Seq<Seq<ValueModel>> {
    let kept = if distinct {
        distinct_rows(input)
    } else {
        input
    };
    let rows = if order_by.len() == 0 {
        kept.map_values(|r: KeyedModel| r.1)
    } else {
        sorted_rows(kept, directions_of(order_by))
    };
    sorting::sliced(rows, limit, offset)
}

fn contains_row(list: &Vec<KeyedRow>, row: &EngineRow) -> (r: bool)
    ensures
        r == holds_row(list.deep_view(), row.deep_view()),
{
    let mut i: usize = 0;
    while i < list.len()
        invariant
            i <= list.len(),
            forall|j: int| 0 <= j < i ==> (#[trigger] list.deep_view()[j]).1 != row.deep_view(),
        decreases list.len() - i,
    {
        assert(list.deep_view()[i as int] == list@[i as int].deep_view());
        if list[i].1.same(row) {
            return true;
        }
        i += 1;
    }
    false
}

/// The list with the first occurrence of each row only.
fn keep_distinct(input: &Vec<KeyedRow>) -> (r: Vec<KeyedRow>)
    ensures
        r.deep_view() == distinct_rows(input.deep_view()),
{
    let ghost all = input.deep_view();
    let mut kept: Vec<KeyedRow> = no_items();
    let mut i: usize = 0;
    while i < input.len()
        invariant
            i <= input.len(),
            all == input.deep_view(),
            kept.deep_view() == distinct_rows(all.take(i as int)),
        decreases input.len() - i,
    {
        proof {
            assert(all.take(i + 1).drop_last() =~= all.take(i as int));
            assert(all.take(i + 1).last() == input@[i as int].deep_view());
        }
        if !contains_row(&kept, &input[i].1) {
            push_back(&mut kept, input[i].duplicate());
        }
        i += 1;
    }
    proof {
        assert(all.take(i as int) =~= all);
    }
    kept
}

/// The directions to sort in.
pub fn directions(order_by: &Vec<OrderBy>) -> (r: Vec<SortDirection>)
    ensures
        r.deep_view() == directions_of(order_by.deep_view()),
{
    let ghost all = order_by.deep_view();
    let mut out: Vec<SortDirection> = no_items();
    let mut i: usize = 0;
    while i < order_by.len()
        invariant
            i <= order_by.len(),
            all == order_by.deep_view(),
            out.deep_view() == directions_of(all).take(i as int),
        decreases order_by.len() - i,
    {
        push_back(&mut out, order_by[i].direction);
        proof {
            assert(out.deep_view() =~= directions_of(all).take(i + 1));
        }
        i += 1;
    }
    proof {
        assert(directions_of(all).take(i as int) =~= directions_of(all));
    }
    out
}

/// The rows in the order of their keys.
pub fn sort_keyed(list: &Vec<KeyedRow>, order: &Vec<SortDirection>) -> (r: Vec<EngineRow>)
    ensures
        r.deep_view() == sorted_rows(list.deep_view(), order.deep_view()),
{
    let ghost all = list.deep_view();
    let mut keys: Vec<Vec<EngineValue>> = no_items();
    let mut i: usize = 0;
    while i < list.len()
        invariant
            i <= list.len(),
            all == list.deep_view(),
            keys.deep_view() == keys_of(all).take(i as int),
        decreases list.len() - i,
    {
        push_back(&mut keys, list[i].0.duplicate());
        proof {
            assert(keys.deep_view() =~= keys_of(all).take(i + 1));
        }
        i += 1;
    }
    proof {
        assert(keys_of(all).take(i as int) =~= keys_of(all));
        assert(keys.len() == keys.deep_view().len());
    }
    let places = sorted_positions(&keys, order);
    let ghost wanted = sorted_rows(all, order.deep_view());
    let mut out: Vec<EngineRow> = no_items();
    let mut k: usize = 0;
    while k < places.len()
        invariant
            k <= places.len(),
            all == list.deep_view(),
            list.len() == keys.len(),
            forall|j: int| 0 <= j < places.len() ==> (#[trigger] places@[j]) < keys.len(),
            wanted.len() == places.len(),
            forall|j: int| 0 <= j < places.len() ==> wanted[j] == all[#[trigger] places@[j] as int].1,
            out.deep_view() == wanted.take(k as int),
        decreases places.len() - k,
    {
        let at: usize = places[k];
        push_back(&mut out, list[at].1.duplicate());
        proof {
            assert(wanted[k as int] == all[places@[k as int] as int].1);
            assert(out.deep_view() =~= wanted.take(k + 1));
        }
        k += 1;
    }
    proof {
        assert(wanted.take(k as int) =~= wanted);
    }
    out
}

/// The rows without their keys.
fn drop_keys(list: &Vec<KeyedRow>) -> (r: Vec<EngineRow>)
    ensures
        r.deep_view() == list.deep_view().map_values(|r: KeyedModel| r.1),
{
    let ghost wanted = list.deep_view().map_values(|r: KeyedModel| r.1);
    let mut out: Vec<EngineRow> = no_items();
    let mut i: usize = 0;
    while i < list.len()
        invariant
            i <= list.len(),
            wanted == list.deep_view().map_values(|r: KeyedModel| r.1),
            out.deep_view() == wanted.take(i as int),
        decreases list.len() - i,
    {
        push_back(&mut out, list[i].1.duplicate());
        proof {
            assert(out.deep_view() =~= wanted.take(i + 1));
        }
        i += 1;
    }
    proof {
        assert(wanted.take(i as int) =~= wanted);
    }
    out
}

impl Sorter {
    pub fn new(
        order_by: Vec<OrderBy>,
        distinct: bool,
        limit: Option<usize>,
        offset: Option<usize>,
        input: Vec<KeyedRow>,
    ) -> (r: Sorter)
        ensures
            r == (Sorter { order_by, distinct, limit, offset, input }),
    {
        Sorter { order_by, distinct, limit, offset, input }
    }

    /// The rows: deduplicated if asked for, then sorted, then sliced.
    pub fn execute(self) -> (r: Vec<EngineRow>)
        ensures
            r.deep_view() == sorter_output(
                self.order_by.deep_view(),
                self.distinct,
                self.limit,
                self.offset,
                self.input.deep_view(),
            ),
    {
        let kept = if self.distinct {
            keep_distinct(&self.input)
        } else {
            self.input
        };
        let rows = if self.order_by.len() == 0 {
            drop_keys(&kept)
        } else {
            let order = directions(&self.order_by);
            sort_keyed(&kept, &order)
        };
        slice_rows(&rows, self.limit, self.offset)
    }
}

/// Law: what is kept of a list holds no row twice, and every row of the list.
pub proof fn law_distinct_rows(list: Seq<KeyedModel>)
    ensures
        forall|i: int, j: int|
            0 <= i < j < distinct_rows(list).len() ==> (#[trigger] distinct_rows(list)[i]).1 != (
            #[trigger] distinct_rows(list)[j]).1,
        forall|row: Seq<ValueModel>| #[trigger]
            holds_row(list, row) <==> holds_row(distinct_rows(list), row),
    decreases list.len(),
{
    if list.len() > 0 {
        let init = list.drop_last();
        let before = distinct_rows(init);
        let after = distinct_rows(list);
        law_distinct_rows(init);
        assert forall|row: Seq<ValueModel>| #[trigger]
            holds_row(list, row) <==> holds_row(after, row) by {
            if holds_row(list, row) {
                let i = choose|i: int| 0 <= i < list.len() && (#[trigger] list[i]).1 == row;
                if i < init.len() {
                    assert(init[i].1 == row);
                    assert(holds_row(init, row));
                    let k = choose|k: int| 0 <= k < before.len() && (#[trigger] before[k]).1 == row;
                    assert(after[k].1 == row);
                } else if !holds_row(before, row) {
                    assert(after[before.len() as int].1 == row);
                }
            }
            if holds_row(after, row) {
                let k = choose|k: int| 0 <= k < after.len() && (#[trigger] after[k]).1 == row;
                if k < before.len() {
                    assert(before[k].1 == row);
                    assert(holds_row(before, row));
                    assert(holds_row(init, row));
                    let i = choose|i: int| 0 <= i < init.len() && (#[trigger] init[i]).1 == row;
                    assert(list[i].1 == row);
                } else {
                    assert(list[list.len() - 1].1 == row);
                }
            }
        }
        assert forall|i: int, j: int| 0 <= i < j < after.len() implies (#[trigger] after[i]).1 != (
        #[trigger] after[j]).1 by {
            assert(after[i] == before[i]);
            if j < before.len() {
                assert(after[j] == before[j]);
            }
        }
    }
}

} // verus!
