//! Reading the rows of one table.
use vstd::prelude::*;
use crate::error::{EngineError, ErrorModel};
use crate::operators::Operator;
use crate::plain::{self, no_items, push_back, same_text, Plain};
use crate::predicate::{self, CacheModel, EvalContext};
use crate::query::{ColumnRef, PredicateModel, QualifiedColumn, QualifiedPredicate};
use crate::store_helpers;
use crate::text::joined;
use crate::value::{EngineRow, EngineValue, ValueModel};

verus! {

/// Gives the rows of a table that meet a condition, projected to columns.
pub struct Scan {
    pub table: String,
    pub rows: Vec<EngineRow>,
    pub projection: Vec<QualifiedColumn>,
    pub predicate: Option<QualifiedPredicate>,
    pub eval_ctx: EvalContext,
    pub pos: usize,
}

/// Whether a row of a table meets a condition, if there is one.
pub open spec fn row_passes(
    predicate: Option<PredicateModel>,
    table: Seq<char>,
    row: Seq<ValueModel>,
    cache: CacheModel,
) -> bool {
    match predicate {
        Some(p) => predicate::holds(p, predicate::single_state(table, row), cache),
        None => true,
    }
}

/// The value at a place of a row, NULL beyond its end.
pub open spec fn cell(row: Seq<ValueModel>, i: usize) -> ValueModel {
    if i < row.len() {
        row[i as int]
    } else {
        ValueModel::Null
    }
}

/// A row of `table` projected to columns. A column of another table is an
/// error.
pub open spec fn projected(
    table: Seq<char>,
    row: Seq<ValueModel>,
    projection: Seq<ColumnRef>,
) -> Result<Seq<ValueModel>, ErrorModel>
    decreases projection.len(),
{
    if projection.len() == 0 {
        Ok(Seq::empty())
    } else {
        match projected(table, row, projection.drop_last()) {
            Err(e) => Err(e),
            Ok(before) => if projection.last().table != table {
                Err(
                    ErrorModel::SchemaMismatch(
                        "projection references unknown table "@ + projection.last().table,
                    ),
                )
            } else {
                Ok(before.push(cell(row, projection.last().column_index)))
            },
        }
    }
}

/// A projection that fails on its first columns fails as a whole.
proof fn lemma_projected_prefix(
    table: Seq<char>,
    row: Seq<ValueModel>,
    projection: Seq<ColumnRef>,
    n: int,
)
    requires
        0 <= n <= projection.len(),
        projected(table, row, projection.take(n)) is Err,
    ensures
        projected(table, row, projection) == projected(table, row, projection.take(n)),
    decreases projection.len() - n,
{
    if n < projection.len() {
        assert(projection.take(n + 1).drop_last() =~= projection.take(n));
        lemma_projected_prefix(table, row, projection, n + 1);
    } else {
        assert(projection.take(n) =~= projection);
    }
}

/// The first row from `from` on that passes.
pub open spec fn next_row(
    rows: Seq<Seq<ValueModel>>,
    from: int,
    predicate: Option<PredicateModel>,
    table: Seq<char>,
    cache: CacheModel,
) -> Option<int>
    decreases rows.len() - from,
{
    if from < 0 || from >= rows.len() {
        None
    } else if row_passes(predicate, table, rows[from], cache) {
        Some(from)
    } else {
        next_row(rows, from + 1, predicate, table, cache)
    }
}

/// A scan went on to the row after the next one that passes, which it gave
/// projected; without such a row it gave none, and is at its end.
pub open spec fn stepped(
    before: Scan,
    after: Scan,
    r: Option<Result<EngineRow, EngineError>>,
) -> bool {
    &&& after == (Scan { pos: after.pos, ..before })
    &&& match next_row(
        before.rows.deep_view(),
        before.pos as int,
        before.predicate.deep_view(),
        before.table@,
        before.eval_ctx.deep_view(),
    ) {
        Some(i) => after.pos == i + 1 && r is Some && plain::outcome(r->0) == projected(
            before.table@,
            before.rows.deep_view()[i],
            before.projection.deep_view(),
        ),
        None => r is None && after.pos >= after.rows.len(),
    }
}

impl Scan {
    pub fn new(
        table: String,
        rows: Vec<EngineRow>,
        projection: Vec<QualifiedColumn>,
        predicate: Option<QualifiedPredicate>,
        eval_ctx: EvalContext,
    ) -> (r: Scan)
        ensures
            r == (Scan { table, rows, projection, predicate, eval_ctx, pos: 0 }),
    {
        Scan { table, rows, projection, predicate, eval_ctx, pos: 0 }
    }

    /// The next row that passes, projected.
    pub fn next(&mut self) -> (r: Option<Result<EngineRow, EngineError>>)
        ensures
            stepped(*old(self), *final(self), r),
    {
        let ghost start = *self;
        while self.pos < self.rows.len()
            invariant
                start == *old(self),
                *self == (Scan { pos: self.pos, ..start }),
                next_row(
                    start.rows.deep_view(),
                    start.pos as int,
                    start.predicate.deep_view(),
                    start.table@,
                    start.eval_ctx.deep_view(),
                ) == next_row(
                    start.rows.deep_view(),
                    self.pos as int,
                    start.predicate.deep_view(),
                    start.table@,
                    start.eval_ctx.deep_view(),
                ),
            decreases self.rows.len() - self.pos,
        {
            let at: usize = self.pos;
            self.pos = at + 1;
            if self.matches_row(&self.rows[at]) {
                return Some(self.project_row(&self.rows[at]));
            }
        }
        None
    }

    fn project_row(&self, row: &EngineRow) -> (r: Result<EngineRow, EngineError>)
        ensures
            plain::outcome(r) == projected(
                self.table@,
                row.deep_view(),
                self.projection.deep_view(),
            ),
    {
        let ghost all = self.projection.deep_view();
        let mut out: EngineRow = no_items();
        let mut i: usize = 0;
        while i < self.projection.len()
            invariant
                i <= self.projection.len(),
                all == self.projection.deep_view(),
                projected(self.table@, row.deep_view(), all.take(i as int)) == Ok::<
                    Seq<ValueModel>,
                    ErrorModel,
                >(out.deep_view()),
            decreases self.projection.len() - i,
        {
            let qc = &self.projection[i];
            proof {
                assert(all.take(i + 1).drop_last() =~= all.take(i as int));
                assert(all.take(i + 1).last() == qc.deep_view());
            }
            if !same_text(qc.table.as_str(), self.table.as_str()) {
                proof {
                    lemma_projected_prefix(self.table@, row.deep_view(), all, i + 1);
                }
                return Err(
                    EngineError::SchemaMismatch(
                        joined("projection references unknown table ", qc.table.as_str()),
                    ),
                );
            }
            let value = if qc.column_index < row.len() {
                row[qc.column_index].duplicate()
            } else {
                EngineValue::Null
            };
            push_back(&mut out, value);
            i += 1;
        }
        proof {
            assert(all.take(i as int) =~= all);
        }
        Ok(out)
    }

    fn matches_row(&self, row: &EngineRow) -> (r: bool)
        ensures
            r == row_passes(
                self.predicate.deep_view(),
                self.table@,
                row.deep_view(),
                self.eval_ctx.deep_view(),
            ),
    {
        match &self.predicate {
            Some(p) => p.matches_row_with_ctx(self.table.as_str(), row, &self.eval_ctx),
            None => true,
        }
    }
}

/// A row passes the condition of a scan.
pub open spec fn passes(scan: Scan) -> spec_fn(Seq<ValueModel>) -> bool {
    |row: Seq<ValueModel>|
        row_passes(scan.predicate.deep_view(), scan.table@, row, scan.eval_ctx.deep_view())
}

/// The next row that passes is the first one of all that do from there on.
proof fn lemma_next_row(scan: Scan, from: int)
    requires
        0 <= from <= scan.rows.deep_view().len(),
    ensures
        ({
            let rows = scan.rows.deep_view();
            let rest = store_helpers::kept(rows.skip(from), passes(scan));
            match next_row(
                rows,
                from,
                scan.predicate.deep_view(),
                scan.table@,
                scan.eval_ctx.deep_view(),
            ) {
                Some(i) => from <= i < rows.len() && rest == seq![rows[i]] + store_helpers::kept(
                    rows.skip(i + 1),
                    passes(scan),
                ),
                None => rest.len() == 0,
            }
        }),
    decreases scan.rows.deep_view().len() - from,
{
    let rows = scan.rows.deep_view();
    let p = passes(scan);
    if from < rows.len() {
        let one = seq![rows[from]];
        assert(rows.skip(from) =~= one + rows.skip(from + 1));
        store_helpers::lemma_kept_concat(one, rows.skip(from + 1), p);
        if p(rows[from]) {
            store_helpers::lemma_kept_all(one, p);
        } else {
            store_helpers::lemma_kept_none(one, p);
            assert(Seq::<Seq<ValueModel>>::empty() + store_helpers::kept(rows.skip(from + 1), p)
                =~= store_helpers::kept(rows.skip(from + 1), p));
            lemma_next_row(scan, from + 1);
        }
    }
}

/// A scan was called again and again: it was in one of the states after the
/// other, and gave the results.
pub open spec fn stepped_through(
    states: Seq<Scan>,
    results: Seq<Option<Result<EngineRow, EngineError>>>,
) -> bool {
    &&& states.len() == results.len() + 1
    &&& forall|k: int|
        0 <= k < results.len() ==> stepped(states[k], states[k + 1], #[trigger] results[k])
}

proof fn lemma_stepped_through(
    states: Seq<Scan>,
    results: Seq<Option<Result<EngineRow, EngineError>>>,
)
    requires
        stepped_through(states, results),
        results.len() > 0,
        results.last() is None,
        forall|k: int| 0 <= k < results.len() - 1 ==> (#[trigger] results[k]) is Some,
        states[0].pos <= states[0].rows.deep_view().len(),
    ensures
        ({
            let scan = states[0];
            let met = store_helpers::kept(
                scan.rows.deep_view().skip(scan.pos as int),
                passes(scan),
            );
            &&& results.len() == met.len() + 1
            &&& forall|k: int|
                0 <= k < met.len() ==> plain::outcome((#[trigger] results[k])->0) == projected(
                    scan.table@,
                    met[k],
                    scan.projection.deep_view(),
                )
        }),
    decreases results.len(),
{
    let scan = states[0];
    let next = states[1];
    let rows = scan.rows.deep_view();
    let met = store_helpers::kept(rows.skip(scan.pos as int), passes(scan));
    assert(stepped(scan, next, results[0]));
    lemma_next_row(scan, scan.pos as int);
    if results.len() == 1 {
        assert(results[0] is None);
    } else {
        let more = states.drop_first();
        let rest = results.drop_first();
        assert forall|k: int| 0 <= k < rest.len() implies stepped(
            more[k],
            more[k + 1],
            #[trigger] rest[k],
        ) by {
            assert(stepped(states[k + 1], states[k + 1 + 1], results[k + 1]));
        }
        assert forall|k: int| 0 <= k < rest.len() - 1 implies (#[trigger] rest[k]) is Some by {
            assert(results[k + 1] is Some);
        }
        assert(results[0] is Some);
        assert(passes(next) =~= passes(scan));
        lemma_stepped_through(more, rest);
        let left = store_helpers::kept(rows.skip(next.pos as int), passes(next));
        assert forall|k: int| 0 <= k < met.len() implies plain::outcome(
            (#[trigger] results[k])->0,
        ) == projected(scan.table@, met[k], scan.projection.deep_view()) by {
            if k > 0 {
                assert(rest[k - 1] == results[k]);
                assert(met[k] == left[k - 1]);
            }
        }
    }
}

/// Law: a scan that is called until it gives `None` has given all rows that pass
/// its condition, projected, in the order of the rows, none of them twice.
pub proof fn law_scan_gives_passing_rows(
    states: Seq<Scan>,
    results: Seq<Option<Result<EngineRow, EngineError>>>,
)
    requires
        stepped_through(states, results),
        states[0].pos == 0,
        results.len() > 0,
        results.last() is None,
        forall|k: int| 0 <= k < results.len() - 1 ==> (#[trigger] results[k]) is Some,
    ensures
        ({
            let scan = states[0];
            let met = store_helpers::kept(scan.rows.deep_view(), passes(scan));
            &&& results.len() == met.len() + 1
            &&& forall|k: int|
                0 <= k < met.len() ==> plain::outcome((#[trigger] results[k])->0) == projected(
                    scan.table@,
                    met[k],
                    scan.projection.deep_view(),
                )
        }),
{
    assert(states[0].rows.deep_view().skip(0) =~= states[0].rows.deep_view());
    lemma_stepped_through(states, results);
}

/// Law: a scan that has given `None` gives nothing else any more.
pub proof fn law_scan_stays_at_its_end(
    before: Scan,
    after: Scan,
    later: Scan,
    r: Option<Result<EngineRow, EngineError>>,
)
    requires
        stepped(before, after, None),
        stepped(after, later, r),
    ensures
        r is None,
{
    assert(after.rows.deep_view().len() == after.rows.len());
}

impl Operator for Scan {
    fn next(&mut self) -> (r: Option<Result<EngineRow, EngineError>>)
        ensures
            stepped(*old(self), *final(self), r),
    {
        Scan::next(self)
    }
}

} // verus!
