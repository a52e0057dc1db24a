//! What subscribers are told, whatever comes of their queries.
use vstd::prelude::*;
use crate::change_event::EventModel;
use crate::engine::{self, Tidings};
use crate::error::ErrorModel;
use crate::store::RowModel;
use crate::subscription_laws::{has_been_told, same_but_results};
use crate::subscriptions::{self, SubscriptionModel};

verus! {

/// Subscribers with some numbers have been told, and no others: all
/// subscriptions are as they were but for their last results, of which the
/// subscriber was told, and those of other numbers have the last results that
/// they had.
pub open spec fn told_among(ids: Seq<nat>, before: Tidings, after: Tidings) -> bool {
    let a = before.subscriptions;
    let b = after.subscriptions;
    &&& same_but_results(a, b)
    &&& before.told.len() <= after.told.len()
    &&& forall|k: int| 0 <= k < before.told.len() ==> after.told[k] == #[trigger] before.told[k]
    &&& forall|k: int|
        before.told.len() <= k < after.told.len() ==> ids.contains((#[trigger] after.told[k]).0)
    &&& forall|i: int| 0 <= i < a.len() ==> #[trigger] has_been_told(a[i], b[i], after.told)
    &&& forall|i: int|
        0 <= i < a.len() && !ids.contains((#[trigger] a[i]).id) ==> b[i] == a[i]
}

proof fn lemma_step(
    id: nat,
    outcome: Result<Seq<RowModel>, ErrorModel>,
    so_far: Tidings,
)
    ensures
        told_among(seq![id], so_far, engine::tidings_of(id, outcome, so_far)),
{
    let after = engine::tidings_of(id, outcome, so_far);
    let a = so_far.subscriptions;
    let b = after.subscriptions;
    assert(seq![id][0] == id);
    assert forall|i: int| 0 <= i < a.len() implies #[trigger] has_been_told(
        a[i],
        b[i],
        after.told,
    ) by {
        if b[i].last_results != a[i].last_results {
            assert(after.told[so_far.told.len() as int].0 == id);
            assert(after.told.contains(after.told[so_far.told.len() as int]));
        }
    }
}

/// Law: however the queries of some subscriptions come out, their subscribers
/// alone are told, of the results that are then the last ones, and the numbers,
/// queries and scopes of all subscriptions stay.
pub proof fn law_affected_alone_are_told(
    ids: Seq<nat>,
    outcomes: Seq<Result<Seq<RowModel>, ErrorModel>>,
    before: Tidings,
)
    ensures
        told_among(ids, before, engine::all_tidings(ids, outcomes, before)),
    decreases ids.len(),
{
    let after = engine::all_tidings(ids, outcomes, before);
    let a = before.subscriptions;
    let z = after.subscriptions;
    if ids.len() > 0 {
        let rest = ids.drop_last();
        let id = ids.last();
        let next = engine::all_tidings(rest, outcomes.drop_last(), before);
        let b = next.subscriptions;
        law_affected_alone_are_told(rest, outcomes.drop_last(), before);
        lemma_step(id, outcomes.last(), next);
        assert forall|n: nat| rest.contains(n) implies #[trigger] ids.contains(n) by {
            let j = choose|j: int| 0 <= j < rest.len() && rest[j] == n;
            assert(ids[j] == n);
        }
        assert(ids[ids.len() - 1] == id);
        assert forall|i: int| 0 <= i < a.len() implies (#[trigger] z[i]).id == a[i].id && z[i].query
            == a[i].query && z[i].scope == a[i].scope by {
            assert(b[i].id == a[i].id);
        }
        assert forall|k: int| 0 <= k < before.told.len() implies after.told[k]
            == #[trigger] before.told[k] by {
            assert(next.told[k] == before.told[k]);
        }
        assert forall|k: int| before.told.len() <= k < after.told.len() implies ids.contains(
            (#[trigger] after.told[k]).0,
        ) by {
            if k < next.told.len() {
                assert(after.told[k] == next.told[k]);
                assert(rest.contains(next.told[k].0));
            } else {
                assert(seq![id].contains(after.told[k].0));
            }
        }
        assert forall|i: int| 0 <= i < a.len() implies #[trigger] has_been_told(
            a[i],
            z[i],
            after.told,
        ) by {
            assert(has_been_told(a[i], b[i], next.told));
            assert(has_been_told(b[i], z[i], after.told));
            assert(z[i].id == b[i].id);
            if z[i].last_results == b[i].last_results && b[i].last_results != a[i].last_results {
                let t = (b[i].id, Ok::<Seq<RowModel>, ErrorModel>(b[i].last_results->Some_0));
                let k = choose|k: int| 0 <= k < next.told.len() && next.told[k] == t;
                assert(after.told[k] == t);
            }
        }
        assert forall|i: int|
            0 <= i < a.len() && !ids.contains((#[trigger] a[i]).id) implies z[i] == a[i] by {
            assert(!rest.contains(a[i].id)) by {
                if rest.contains(a[i].id) {
                    assert(ids.contains(a[i].id));
                }
            }
            assert(b[i] == a[i]);
            assert(!seq![id].contains(b[i].id));
        }
    } else {
        assert(same_but_results(a, a));
    }
}

proof fn lemma_found_updated(
    list: Seq<SubscriptionModel>,
    other: nat,
    rows: Seq<RowModel>,
    id: nat,
)
    requires
        other != id,
    ensures
        subscriptions::found(subscriptions::results_updated(list, other, rows), id)
            == subscriptions::found(list, id),
    decreases list.len(),
{
    let changed = subscriptions::results_updated(list, other, rows);
    if list.len() > 0 {
        assert(changed.drop_first() =~= subscriptions::results_updated(
            list.drop_first(),
            other,
            rows,
        ));
        lemma_found_updated(list.drop_first(), other, rows, id);
    }
}

/// What comes of other queries leaves a subscription.
proof fn lemma_others(
    ids: Seq<nat>,
    outcomes: Seq<Result<Seq<RowModel>, ErrorModel>>,
    before: Tidings,
    id: nat,
)
    requires
        !ids.contains(id),
    ensures
        subscriptions::found(engine::all_tidings(ids, outcomes, before).subscriptions, id)
            == subscriptions::found(before.subscriptions, id),
    decreases ids.len(),
{
    if ids.len() > 0 {
        let rest = ids.drop_last();
        assert(ids[ids.len() - 1] == ids.last());
        assert(!rest.contains(id)) by {
            if rest.contains(id) {
                let j = choose|j: int| 0 <= j < rest.len() && rest[j] == id;
                assert(ids[j] == id);
            }
        }
        lemma_others(rest, outcomes.drop_last(), before, id);
        let next = engine::all_tidings(rest, outcomes.drop_last(), before);
        if let Ok(rows) = outcomes.last() {
            lemma_found_updated(next.subscriptions, ids.last(), rows, id);
        }
    }
}

/// Law: a query that fails leaves the last results of its subscription and stops
/// no other: each subscription in turn is served as if it were the only one.
pub proof fn law_each_is_served(
    ids: Seq<nat>,
    outcomes: Seq<Result<Seq<RowModel>, ErrorModel>>,
    before: Tidings,
    k: int,
)
    requires
        ids.no_duplicates(),
        outcomes.len() == ids.len(),
        0 <= k < ids.len(),
        subscriptions::found(before.subscriptions, ids[k]) is Some,
    ensures
        ({
            let after = engine::all_tidings(ids, outcomes, before);
            let s = subscriptions::found(before.subscriptions, ids[k])->Some_0;
            match outcomes[k] {
                Ok(rows) => subscriptions::found(after.subscriptions, ids[k]) == Some(
                    subscriptions::with_results(s, rows),
                ) && (s.last_results == Some(rows) || after.told.contains((ids[k], Ok(rows)))),
                Err(e) => subscriptions::found(after.subscriptions, ids[k]) == Some(s)
                    && after.told.contains((ids[k], Err(e))),
            }
        }),
    decreases ids.len(),
{
    let rest = ids.drop_last();
    let fewer = outcomes.drop_last();
    let last = ids.len() - 1;
    let next = engine::all_tidings(rest, fewer, before);
    let after = engine::all_tidings(ids, outcomes, before);
    let id = ids[k];
    let s = subscriptions::found(before.subscriptions, id)->Some_0;
    assert forall|i: int, j: int| 0 <= i < j < rest.len() implies rest[i] != rest[j] by {
        assert(ids[i] != ids[j]);
    }
    if k == last {
        assert(!rest.contains(id)) by {
            if rest.contains(id) {
                let j = choose|j: int| 0 <= j < rest.len() && rest[j] == id;
                assert(ids[j] != ids[last]);
            }
        }
        lemma_others(rest, fewer, before, id);
        if let Ok(rows) = outcomes[k] {
            lemma_found_own(next.subscriptions, id, rows);
            if s.last_results == Some(rows) {
                assert(subscriptions::with_results(s, rows) == s) by {
                    lemma_found_number(next.subscriptions, id);
                }
            }
        }
        if after.told.len() > next.told.len() {
            assert(after.told[next.told.len() as int] == after.told.last());
        }
    } else {
        law_each_is_served(rest, fewer, before, k);
        assert(rest[k] == id && fewer[k] == outcomes[k]);
        assert(ids[k] != ids[last]);
        if let Ok(rows) = outcomes.last() {
            lemma_found_updated(next.subscriptions, ids.last(), rows, id);
        }
        let t = (id, outcomes[k]);
        if next.told.contains(t) {
            let j = choose|j: int| 0 <= j < next.told.len() && next.told[j] == t;
            assert(after.told[j] == t);
        }
    }
}

proof fn lemma_found_number(list: Seq<SubscriptionModel>, id: nat)
    ensures
        subscriptions::found(list, id) matches Some(s) ==> s.id == id,
    decreases list.len(),
{
    if list.len() > 0 {
        lemma_found_number(list.drop_first(), id);
    }
}

proof fn lemma_found_own(list: Seq<SubscriptionModel>, id: nat, rows: Seq<RowModel>)
    requires
        subscriptions::found(list, id) is Some,
    ensures
        subscriptions::found(subscriptions::results_updated(list, id, rows), id) == Some(
            subscriptions::with_results(subscriptions::found(list, id)->Some_0, rows),
        ),
    decreases list.len(),
{
    let changed = subscriptions::results_updated(list, id, rows);
    if list[0].id != id {
        assert(changed.drop_first() =~= subscriptions::results_updated(
            list.drop_first(),
            id,
            rows,
        ));
        lemma_found_own(list.drop_first(), id, rows);
    }
}

/// Law: a change is delivered to the subscriptions that it affects and to no
/// others, whether or not their queries succeed.
pub proof fn law_change_reaches_affected(e: EventModel, before: Tidings, after: Tidings)
    requires
        engine::is_retold(e, before, after),
    ensures
        told_among(engine::affected_ids(before.subscriptions, e), before, after),
{
    let ids = engine::affected_ids(before.subscriptions, e);
    let outcomes = choose|outcomes: Seq<Result<Seq<RowModel>, ErrorModel>>|
        outcomes.len() == ids.len() && after == #[trigger] engine::all_tidings(
            ids,
            outcomes,
            before,
        );
    law_affected_alone_are_told(ids, outcomes, before);
}

/// Law: a subscriber is told of results exactly if they differ from the last ones
/// that it was told, and of every error; what it is told is told last, and all
/// that was to be told before stays.
pub proof fn law_news_alone_are_told(
    id: nat,
    outcome: Result<Seq<RowModel>, ErrorModel>,
    before: Tidings,
)
    ensures
        ({
            let after = engine::tidings_of(id, outcome, before);
            let news = match subscriptions::found(before.subscriptions, id) {
                None => false,
                Some(s) => outcome matches Ok(rows) ==> s.last_results != Some(rows),
            };
            if news {
                &&& after.told.len() == before.told.len() + 1
                &&& after.told.last() == (id, outcome)
                &&& forall|k: int|
                    0 <= k < before.told.len() ==> #[trigger] after.told[k] == before.told[k]
            } else {
                after == before
            }
        }),
{
}

/// Law: what is found under a number is the first subscription of that number;
/// nothing is found where there is none.
pub proof fn law_found_by_number(list: Seq<SubscriptionModel>, id: nat)
    ensures
        match subscriptions::found(list, id) {
            Some(s) => exists|i: int|
                0 <= i < list.len() && #[trigger] list[i] == s && s.id == id && forall|j: int|
                    0 <= j < i ==> (#[trigger] list[j]).id != id,
            None => forall|i: int| 0 <= i < list.len() ==> (#[trigger] list[i]).id != id,
        },
    decreases list.len(),
{
    if list.len() > 0 {
        let rest = list.drop_first();
        law_found_by_number(rest, id);
        if list[0].id != id {
            assert forall|j: int| 0 < j < list.len() implies rest[j - 1] == #[trigger] list[j] by {}
            if let Some(s) = subscriptions::found(rest, id) {
                let i = choose|i: int|
                    0 <= i < rest.len() && #[trigger] rest[i] == s && s.id == id && forall|j: int|
                        0 <= j < i ==> (#[trigger] rest[j]).id != id;
                assert(list[i + 1] == s);
                assert forall|j: int| 0 <= j < i + 1 implies (#[trigger] list[j]).id != id by {
                    if j > 0 {
                        assert(rest[j - 1] == list[j]);
                    }
                }
            }
        } else {
            assert(list[0] == list[0]);
        }
    }
}

/// Law: new results replace the last ones of the subscriptions of a number, and
/// leave all else as it is.
pub proof fn law_results_are_kept(
    list: Seq<SubscriptionModel>,
    id: nat,
    rows: Seq<RowModel>,
)
    ensures
        ({
            let after = subscriptions::results_updated(list, id, rows);
            &&& after.len() == list.len()
            &&& forall|i: int|
                0 <= i < list.len() ==> (#[trigger] after[i]).id == list[i].id && after[i].query
                    == list[i].query && after[i].scope == list[i].scope && after[i].last_results
                    == if list[i].id == id {
                    Some(rows)
                } else {
                    list[i].last_results
                }
        }),
{
}

} // verus!
