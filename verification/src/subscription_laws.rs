//! What subscribers can rely on: they hear of every change of their results.
use vstd::prelude::*;
use crate::access_control::{self, ScopeModel};
use crate::catalog::CatalogModel;
use crate::change_event::{self, EventModel};
use crate::change_laws::{
    is_unseen, law_changed_rows_are_heard_of, lemma_unseen_change, write_of, writes_of,
};
use crate::database_laws::{database_kept, law_query_keeps_database, lemma_subqueries_keep};
use crate::engine::{self, Recomputed};
use crate::error::ErrorModel;
use crate::float::FloatOp;
use crate::planner;
use crate::predicate::CacheModel;
use crate::query::{self, PredicateModel, QueryModel};
use crate::read_laws::{
    law_read_changes_nothing, law_scoped_read_sees_met_rows, is_screened, reads_only, seen_alike,
};
use crate::store::{RowModel, Trees};
use crate::store_helpers;
use crate::subscriptions::{self, SubscriptionModel};

verus! {

/// A subscription follows a selection whose tables are in its scope. Its scope
/// may have any conditions on rows, as long as their subqueries do not write.
pub open spec fn follows_selection(s: SubscriptionModel) -> bool {
    &&& reads_only(subscriptions::narrowed_query(s))
    &&& engine::first_unreached(query::query_tables(s.query), s.scope) is None
}

/// The last results of a subscription are what its query gives now, if it gives
/// any.
pub open spec fn up_to_date<F: Fn(FloatOp) -> u64>(
    f: F,
    c: CatalogModel,
    s: SubscriptionModel,
    trees: Trees,
) -> bool {
    engine::scoped_run(f, c, s.query, s.scope, trees).result matches Ok(rows) ==> s.last_results
        == Some(rows)
}

/// No two subscriptions have one number.
pub open spec fn distinct_numbers(list: Seq<SubscriptionModel>) -> bool {
    forall|i: int, j: int|
        0 <= i < j < list.len() ==> (#[trigger] list[i]).id != (#[trigger] list[j]).id
}

/// The same subscriptions, but for their last results.
pub open spec fn same_but_results(
    a: Seq<SubscriptionModel>,
    b: Seq<SubscriptionModel>,
) -> bool {
    &&& a.len() == b.len()
    &&& forall|i: int|
        0 <= i < a.len() ==> (#[trigger] b[i]).id == a[i].id && b[i].query == a[i].query
            && b[i].scope == a[i].scope
}

/// A subscriber whose last results are others has been told of them.
pub open spec fn has_been_told(
    before: SubscriptionModel,
    after: SubscriptionModel,
    told: Seq<(nat, Result<Seq<RowModel>, ErrorModel>)>,
) -> bool {
    after.last_results == before.last_results || (after.last_results is Some && told.contains(
        (after.id, Ok::<Seq<RowModel>, ErrorModel>(after.last_results->Some_0)),
    ))
}

proof fn lemma_found(list: Seq<SubscriptionModel>, i: int)
    requires
        distinct_numbers(list),
        0 <= i < list.len(),
    ensures
        subscriptions::found(list, list[i].id) == Some(list[i]),
    decreases list.len(),
{
    let rest = list.drop_first();
    if i > 0 {
        assert(list[0].id != list[i].id);
        assert(rest[i - 1] == list[i]);
        assert forall|j: int, k: int| 0 <= j < k < rest.len() implies (#[trigger] rest[j]).id != (
        #[trigger] rest[k]).id by {
            assert(rest[j] == list[j + 1] && rest[k] == list[k + 1]);
        }
        lemma_found(rest, i - 1);
    }
}

proof fn lemma_found_member(list: Seq<SubscriptionModel>, id: nat) -> (i: int)
    requires
        subscriptions::found(list, id) is Some,
    ensures
        0 <= i < list.len(),
        list[i] == subscriptions::found(list, id)->Some_0,
        list[i].id == id,
    decreases list.len(),
{
    if list[0].id == id {
        0
    } else {
        let i = lemma_found_member(list.drop_first(), id);
        assert(list.drop_first()[i] == list[i + 1]);
        i + 1
    }
}

/// A subscription that follows a selection sees what its query gives, and
/// changes nothing.
pub proof fn lemma_scoped<F: Fn(FloatOp) -> u64>(
    f: F,
    c: CatalogModel,
    s: SubscriptionModel,
    trees: Trees,
)
    requires
        follows_selection(s),
    ensures
        engine::scoped_run(f, c, s.query, s.scope, trees) == planner::run_of(
            f,
            c,
            subscriptions::narrowed_query(s),
            trees,
        ),
        engine::scoped_run(f, c, s.query, s.scope, trees).trees == trees,
        engine::scoped_run(f, c, s.query, s.scope, trees).events == Seq::<EventModel>::empty(),
{
    law_read_changes_nothing(f, c, subscriptions::narrowed_query(s), trees);
}

/// What computing subscriptions again does to each of them.
pub open spec fn caught_up<F: Fn(FloatOp) -> u64>(
    f: F,
    c: CatalogModel,
    ids: Seq<nat>,
    before: Recomputed,
    after: Recomputed,
) -> bool {
    &&& after.trees == before.trees
    &&& after.events == before.events
    &&& same_but_results(before.subscriptions, after.subscriptions)
    &&& forall|t: (nat, Result<Seq<RowModel>, ErrorModel>)| #[trigger]
        before.told.contains(t) ==> after.told.contains(t)
    &&& forall|i: int|
        0 <= i < before.subscriptions.len() ==> #[trigger] has_been_told(
            before.subscriptions[i],
            after.subscriptions[i],
            after.told,
        )
    &&& forall|i: int|
        0 <= i < before.subscriptions.len() && (up_to_date(
            f,
            c,
            before.subscriptions[i],
            before.trees,
        ) || ids.contains(before.subscriptions[i].id)) ==> #[trigger] up_to_date(
            f,
            c,
            after.subscriptions[i],
            before.trees,
        )
}

proof fn lemma_recomputed<F: Fn(FloatOp) -> u64>(
    f: F,
    c: CatalogModel,
    ids: Seq<nat>,
    so_far: Recomputed,
)
    requires
        distinct_numbers(so_far.subscriptions),
        forall|i: int|
            0 <= i < so_far.subscriptions.len() ==> follows_selection(
                #[trigger] so_far.subscriptions[i],
            ),
    ensures
        caught_up(f, c, ids, so_far, engine::recomputed(f, c, ids, so_far)),
    decreases ids.len(),
{
    let subs = so_far.subscriptions;
    if ids.len() > 0 {
        let id = ids[0];
        let next = match subscriptions::found(subs, id) {
            None => so_far,
            Some(s) => {
                let ran = engine::scoped_run(f, c, s.query, s.scope, so_far.trees);
                let trees = ran.trees;
                let events = so_far.events + ran.events;
                match ran.result {
                    Ok(rows) => if s.last_results == Some(rows) {
                        Recomputed { told: so_far.told, subscriptions: subs, trees, events }
                    } else {
                        Recomputed {
                            told: so_far.told.push((id, Ok(rows))),
                            subscriptions: subscriptions::results_updated(subs, id, rows),
                            trees,
                            events,
                        }
                    },
                    Err(e) => Recomputed {
                        told: so_far.told.push((id, Err(e))),
                        subscriptions: subs,
                        trees,
                        events,
                    },
                }
            },
        };
        if subscriptions::found(subs, id) is Some {
            let k = lemma_found_member(subs, id);
            lemma_scoped(f, c, subs[k], so_far.trees);
            assert(so_far.events + Seq::<EventModel>::empty() =~= so_far.events);
        }
        lemma_step(f, c, id, so_far, next);
        lemma_recomputed(f, c, ids.drop_first(), next);
        let last = engine::recomputed(f, c, ids.drop_first(), next);
        assert(last == engine::recomputed(f, c, ids, so_far));
        lemma_caught_up_twice(f, c, id, ids, so_far, next, last);
    } else {
        assert(same_but_results(subs, subs));
    }
}

proof fn lemma_step<F: Fn(FloatOp) -> u64>(
    f: F,
    c: CatalogModel,
    id: nat,
    before: Recomputed,
    after: Recomputed,
)
    requires
        distinct_numbers(before.subscriptions),
        forall|i: int|
            0 <= i < before.subscriptions.len() ==> follows_selection(
                #[trigger] before.subscriptions[i],
            ),
        after.trees == before.trees,
        after.events == before.events,
        match subscriptions::found(before.subscriptions, id) {
            None => after == before,
            Some(s) => match engine::scoped_run(f, c, s.query, s.scope, before.trees).result {
                Ok(rows) => if s.last_results == Some(rows) {
                    after == before
                } else {
                    after.told == before.told.push((id, Ok(rows))) && after.subscriptions
                        == subscriptions::results_updated(before.subscriptions, id, rows)
                },
                Err(e) => after.told == before.told.push((id, Err(e))) && after.subscriptions
                    == before.subscriptions,
            },
        },
    ensures
        caught_up(f, c, seq![id], before, after),
        distinct_numbers(after.subscriptions),
        forall|i: int|
            0 <= i < after.subscriptions.len() ==> follows_selection(
                #[trigger] after.subscriptions[i],
            ),
{
    let subs = before.subscriptions;
    let next = after.subscriptions;
    assert(seq![id][0] == id);
    assert(subs.len() == next.len());
    assert forall|i: int| 0 <= i < subs.len() implies (#[trigger] next[i]).id == subs[i].id
        && next[i].query == subs[i].query && next[i].scope == subs[i].scope by {}
    assert forall|t: (nat, Result<Seq<RowModel>, ErrorModel>)| #[trigger]
        before.told.contains(t) implies after.told.contains(t) by {
        let j = choose|j: int| 0 <= j < before.told.len() && before.told[j] == t;
        assert(after.told[j] == t);
    }
    assert forall|i: int| 0 <= i < subs.len() implies #[trigger] has_been_told(
        subs[i],
        next[i],
        after.told,
    ) by {
        if next[i].last_results != subs[i].last_results {
            assert(after.told.last() == after.told[after.told.len() - 1]);
            assert(subs[i].id == id);
        }
    }
    assert forall|i: int|
        0 <= i < subs.len() && (up_to_date(f, c, subs[i], before.trees) || seq![id].contains(
            subs[i].id,
        )) implies #[trigger] up_to_date(f, c, next[i], before.trees) by {
        if subs[i].id == id {
            lemma_found(subs, i);
        } else {
            assert(next[i] == subs[i]);
        }
    }
    assert forall|i: int, j: int| 0 <= i < j < next.len() implies (#[trigger] next[i]).id != (
    #[trigger] next[j]).id by {
        assert(next[i].id == subs[i].id && next[j].id == subs[j].id);
    }
    assert forall|i: int| 0 <= i < next.len() implies follows_selection(#[trigger] next[i]) by {
        assert(follows_selection(subs[i]));
    }
}

proof fn lemma_caught_up_twice<F: Fn(FloatOp) -> u64>(
    f: F,
    c: CatalogModel,
    id: nat,
    ids: Seq<nat>,
    before: Recomputed,
    next: Recomputed,
    last: Recomputed,
)
    requires
        ids.len() > 0,
        ids[0] == id,
        caught_up(f, c, seq![id], before, next),
        caught_up(f, c, ids.drop_first(), next, last),
    ensures
        caught_up(f, c, ids, before, last),
{
    let a = before.subscriptions;
    let b = next.subscriptions;
    let z = last.subscriptions;
    assert forall|i: int| 0 <= i < a.len() implies (#[trigger] z[i]).id == a[i].id && z[i].query
        == a[i].query && z[i].scope == a[i].scope by {
        assert(b[i].id == a[i].id);
    }
    assert forall|i: int| 0 <= i < a.len() implies #[trigger] has_been_told(
        a[i],
        z[i],
        last.told,
    ) by {
        assert(has_been_told(a[i], b[i], next.told));
        assert(has_been_told(b[i], z[i], last.told));
        assert(z[i].id == b[i].id);
    }
    assert forall|i: int|
        0 <= i < a.len() && (up_to_date(f, c, a[i], before.trees) || ids.contains(
            a[i].id,
        )) implies #[trigger] up_to_date(f, c, z[i], before.trees) by {
        assert(b[i].id == a[i].id);
        if ids.contains(a[i].id) && a[i].id != id {
            let j = choose|j: int| 0 <= j < ids.len() && ids[j] == a[i].id;
            assert(ids.drop_first()[j - 1] == a[i].id);
        } else {
            assert(seq![id].contains(id)) by {
                assert(seq![id][0] == id);
            }
            assert(up_to_date(f, c, b[i], before.trees));
        }
    }
}

/// One of some changes affects a subscription.
pub open spec fn is_affected_by_any(s: SubscriptionModel, changes: Seq<EventModel>) -> bool {
    exists|j: int| 0 <= j < changes.len() && #[trigger] subscriptions::is_affected(s, changes[j])
}

/// What delivering changes does to each subscription.
pub open spec fn all_caught_up<F: Fn(FloatOp) -> u64>(
    f: F,
    c: CatalogModel,
    changes: Seq<EventModel>,
    before: Recomputed,
    after: Recomputed,
) -> bool {
    &&& after.trees == before.trees
    &&& after.events == before.events
    &&& same_but_results(before.subscriptions, after.subscriptions)
    &&& forall|t: (nat, Result<Seq<RowModel>, ErrorModel>)| #[trigger]
        before.told.contains(t) ==> after.told.contains(t)
    &&& forall|i: int|
        0 <= i < before.subscriptions.len() ==> #[trigger] has_been_told(
            before.subscriptions[i],
            after.subscriptions[i],
            after.told,
        )
    &&& forall|i: int|
        0 <= i < before.subscriptions.len() && (up_to_date(
            f,
            c,
            before.subscriptions[i],
            before.trees,
        ) || is_affected_by_any(before.subscriptions[i], changes)) ==> #[trigger] up_to_date(
            f,
            c,
            after.subscriptions[i],
            before.trees,
        )
}

proof fn lemma_told_parts(
    a: Seq<(nat, Result<Seq<RowModel>, ErrorModel>)>,
    b: Seq<(nat, Result<Seq<RowModel>, ErrorModel>)>,
    t: (nat, Result<Seq<RowModel>, ErrorModel>),
)
    requires
        a.contains(t) || b.contains(t),
    ensures
        (a + b).contains(t),
{
    if a.contains(t) {
        let j = choose|j: int| 0 <= j < a.len() && a[j] == t;
        assert((a + b)[j] == t);
    } else {
        let j = choose|j: int| 0 <= j < b.len() && b[j] == t;
        assert((a + b)[a.len() + j] == t);
    }
}

pub proof fn lemma_delivered<F: Fn(FloatOp) -> u64>(
    f: F,
    c: CatalogModel,
    changes: Seq<EventModel>,
    so_far: Recomputed,
)
    requires
        distinct_numbers(so_far.subscriptions),
        forall|i: int|
            0 <= i < so_far.subscriptions.len() ==> follows_selection(
                #[trigger] so_far.subscriptions[i],
            ),
    ensures
        all_caught_up(f, c, changes, so_far, engine::delivered(f, c, changes, so_far)),
    decreases changes.len(),
{
    let subs = so_far.subscriptions;
    if changes.len() > 0 {
        let p = subscriptions::affected_by(changes[0]);
        let affected = store_helpers::kept(subs, p);
        let ids = subscriptions::numbers(affected);
        let start = Recomputed { told: Seq::empty(), ..so_far };
        let mid = engine::recomputed(f, c, ids, start);
        let next = Recomputed { told: so_far.told + mid.told, ..mid };
        lemma_recomputed(f, c, ids, start);
        let b = next.subscriptions;
        assert forall|i: int, j: int| 0 <= i < j < b.len() implies (#[trigger] b[i]).id != (
        #[trigger] b[j]).id by {
            assert(b[i].id == subs[i].id && b[j].id == subs[j].id);
        }
        assert forall|i: int| 0 <= i < b.len() implies follows_selection(#[trigger] b[i]) by {
            assert(follows_selection(subs[i]));
        }
        lemma_delivered(f, c, changes.drop_first(), next);
        let last = engine::delivered(f, c, changes.drop_first(), next);
        let z = last.subscriptions;
        assert forall|i: int| 0 <= i < subs.len() implies (#[trigger] z[i]).id == subs[i].id
            && z[i].query == subs[i].query && z[i].scope == subs[i].scope by {
            assert(b[i].id == subs[i].id);
        }
        assert forall|t: (nat, Result<Seq<RowModel>, ErrorModel>)| #[trigger]
            so_far.told.contains(t) implies last.told.contains(t) by {
            lemma_told_parts(so_far.told, mid.told, t);
            assert(next.told.contains(t));
        }
        assert forall|i: int| 0 <= i < subs.len() implies #[trigger] has_been_told(
            subs[i],
            z[i],
            last.told,
        ) by {
            assert(has_been_told(subs[i], b[i], mid.told));
            assert(has_been_told(b[i], z[i], last.told));
            assert(z[i].id == b[i].id);
            if z[i].last_results == b[i].last_results && b[i].last_results
                != subs[i].last_results {
                let t = (b[i].id, Ok::<Seq<RowModel>, ErrorModel>(b[i].last_results->Some_0));
                lemma_told_parts(so_far.told, mid.told, t);
                assert(next.told.contains(t));
            }
        }
        assert forall|i: int|
            0 <= i < subs.len() && (up_to_date(f, c, subs[i], so_far.trees) || is_affected_by_any(
                subs[i],
                changes,
            )) implies #[trigger] up_to_date(f, c, z[i], so_far.trees) by {
            assert(b[i].query == subs[i].query && b[i].scope == subs[i].scope);
            if up_to_date(f, c, subs[i], so_far.trees) {
                assert(up_to_date(f, c, b[i], so_far.trees));
            } else {
                let j = choose|j: int|
                    0 <= j < changes.len() && #[trigger] subscriptions::is_affected(
                        subs[i],
                        changes[j],
                    );
                if j == 0 {
                    let k = store_helpers::lemma_kept_contains(subs, p, i);
                    assert(ids[k] == subs[i].id);
                    assert(ids.contains(subs[i].id));
                    assert(up_to_date(f, c, b[i], so_far.trees));
                } else {
                    let rest = changes.drop_first();
                    assert(rest[j - 1] == changes[j]);
                    assert(subscriptions::is_affected(b[i], rest[j - 1]));
                    assert(is_affected_by_any(b[i], rest));
                }
            }
        }
    } else {
        assert(same_but_results(subs, subs));
    }
}

proof fn lemma_reached(tables: Seq<Seq<char>>, scope: ScopeModel, table: Seq<char>)
    requires
        engine::first_unreached(tables, scope) is None,
        tables.contains(table),
    ensures
        access_control::reaches(scope, table),
    decreases tables.len(),
{
    let i = choose|i: int| 0 <= i < tables.len() && tables[i] == table;
    if i > 0 {
        assert(tables.drop_first()[i - 1] == table);
        lemma_reached(tables.drop_first(), scope, table);
    }
}

pub proof fn lemma_affected_parts(s: SubscriptionModel, a: Seq<EventModel>, b: Seq<EventModel>)
    ensures
        is_affected_by_any(s, a) || is_affected_by_any(s, b) ==> is_affected_by_any(s, a + b),
{
    let all = a + b;
    if is_affected_by_any(s, a) {
        let j = choose|j: int| 0 <= j < a.len() && #[trigger] subscriptions::is_affected(s, a[j]);
        assert(all[j] == a[j]);
        assert(subscriptions::is_affected(s, all[j]));
    } else if is_affected_by_any(s, b) {
        let j = choose|j: int| 0 <= j < b.len() && #[trigger] subscriptions::is_affected(s, b[j]);
        assert(all[a.len() + j] == b[j]);
        assert(subscriptions::is_affected(s, all[a.len() + j]));
    }
}

/// Where the subqueries of a condition change what a subscription gives, one of
/// the changes that listeners hear of affects it.
proof fn lemma_condition_affects<F: Fn(FloatOp) -> u64>(
    f: F,
    c: CatalogModel,
    p: PredicateModel,
    cache: CacheModel,
    trees: Trees,
    s: SubscriptionModel,
)
    requires
        database_kept(c, trees),
        follows_selection(s),
    ensures
        ({
            let done = planner::subqueries_run(f, c, p, cache, trees);
            engine::scoped_run(f, c, s.query, s.scope, done.trees).result == engine::scoped_run(
                f,
                c,
                s.query,
                s.scope,
                trees,
            ).result || is_affected_by_any(s, done.events)
        }),
    decreases p,
{
    match p {
        PredicateModel::InSubquery { subquery, .. } => {
            law_changed_result_affects(f, c, *subquery, trees, s);
        },
        PredicateModel::And(a, b) | PredicateModel::Or(a, b) => {
            let first = planner::subqueries_run(f, c, *a, cache, trees);
            lemma_condition_affects(f, c, *a, cache, trees, s);
            if let Ok(more) = first.result {
                lemma_subqueries_keep(f, c, *a, cache, trees);
                lemma_condition_affects(f, c, *b, more, first.trees, s);
                let second = planner::subqueries_run(f, c, *b, more, first.trees);
                lemma_affected_parts(s, first.events, second.events);
            }
        },
        PredicateModel::Not(a) => {
            lemma_condition_affects(f, c, *a, cache, trees, s);
        },
        _ => {},
    }
}

/// Law: where a statement changes what a subscription gives, one of the changes
/// that listeners hear of affects it.
pub proof fn law_changed_result_affects<F: Fn(FloatOp) -> u64>(
    f: F,
    c: CatalogModel,
    statement: QueryModel,
    trees: Trees,
    s: SubscriptionModel,
)
    requires
        database_kept(c, trees),
        follows_selection(s),
    ensures
        ({
            let done = planner::run_of(f, c, statement, trees);
            engine::scoped_run(f, c, s.query, s.scope, done.trees).result == engine::scoped_run(
                f,
                c,
                s.query,
                s.scope,
                trees,
            ).result || is_affected_by_any(s, done.events)
        }),
    decreases statement,
{
    let done = planner::run_of(f, c, statement, trees);
    let narrow = subscriptions::narrowed_query(s);
    if let QueryModel::Select { predicate, .. } = statement {
        if let Some(p) = predicate {
            lemma_condition_affects(f, c, p, CacheModel::empty(), trees, s);
        }
    } else if !is_affected_by_any(s, done.events) {
        assert forall|t: Seq<char>| #[trigger]
            query::query_tables(narrow).contains(t) implies seen_alike(
            s.scope,
            narrow,
            done.trees,
            trees,
            t,
        ) by {
            if query::query_tables(s.query).contains(t) {
                lemma_reached(query::query_tables(s.query), s.scope, t);
            }
            if is_screened(s.scope, narrow, t) {
                let p = s.scope.filters[t];
                assert forall|j: int| 0 <= j < done.events.len() implies is_unseen(
                    #[trigger] done.events[j],
                    t,
                    p,
                ) by {
                    assert(!subscriptions::is_affected(s, done.events[j]));
                }
                lemma_unseen_change(f, c, statement, trees, t, p);
            } else {
                assert forall|j: int| 0 <= j < done.events.len() implies
                    #[trigger] change_event::event_table(done.events[j]) != t by {
                    assert(!subscriptions::is_affected(s, done.events[j]));
                }
                law_changed_rows_are_heard_of(f, c, statement, trees, t);
            }
        }
        law_scoped_read_sees_met_rows(f, c, s.scope, s.query, done.trees, trees);
        lemma_scoped(f, c, s, trees);
        lemma_scoped(f, c, s, done.trees);
    }
}

/// Subscriptions have been told of changes: they are up to date, and every
/// subscriber whose results are others has been told of them.
pub open spec fn all_told<F: Fn(FloatOp) -> u64>(
    f: F,
    c: CatalogModel,
    before: Seq<SubscriptionModel>,
    trees: Trees,
    after: Recomputed,
) -> bool {
    &&& after.trees == trees
    &&& after.events == Seq::<EventModel>::empty()
    &&& same_but_results(before, after.subscriptions)
    &&& forall|i: int|
        0 <= i < before.len() ==> up_to_date(f, c, #[trigger] after.subscriptions[i], trees)
    &&& forall|i: int|
        0 <= i < before.len() ==> #[trigger] has_been_told(
            before[i],
            after.subscriptions[i],
            after.told,
        )
}

/// What delivering changes does that led to some trees.
pub open spec fn deliveries<F: Fn(FloatOp) -> u64>(
    f: F,
    c: CatalogModel,
    subs: Seq<SubscriptionModel>,
    trees: Trees,
    events: Seq<EventModel>,
) -> Recomputed {
    engine::delivered(
        f,
        c,
        events,
        Recomputed { told: Seq::empty(), subscriptions: subs, trees, events: Seq::empty() },
    )
}

proof fn lemma_all_told<F: Fn(FloatOp) -> u64>(
    f: F,
    c: CatalogModel,
    subs: Seq<SubscriptionModel>,
    trees: Trees,
    after: Trees,
    events: Seq<EventModel>,
)
    requires
        distinct_numbers(subs),
        forall|i: int| 0 <= i < subs.len() ==> follows_selection(#[trigger] subs[i]),
        forall|i: int| 0 <= i < subs.len() ==> up_to_date(f, c, #[trigger] subs[i], trees),
        forall|i: int|
            0 <= i < subs.len() ==> engine::scoped_run(
                f,
                c,
                (#[trigger] subs[i]).query,
                subs[i].scope,
                after,
            ).result == engine::scoped_run(f, c, subs[i].query, subs[i].scope, trees).result
                || is_affected_by_any(subs[i], events),
    ensures
        all_told(f, c, subs, after, deliveries(f, c, subs, after, events)),
{
    let start = Recomputed {
        told: Seq::empty(),
        subscriptions: subs,
        trees: after,
        events: Seq::empty(),
    };
    let last = engine::delivered(f, c, events, start);
    lemma_delivered(f, c, events, start);
    assert forall|i: int| 0 <= i < subs.len() implies up_to_date(
        f,
        c,
        #[trigger] last.subscriptions[i],
        after,
    ) by {
        let s = subs[i];
        assert(up_to_date(f, c, s, trees));
        if !is_affected_by_any(s, events) {
            assert(up_to_date(f, c, s, after));
        }
    }
}

/// Law: a statement is run on a database in order, and its changes are
/// delivered. If the subscriptions, each of a selection under a scope that
/// reaches its tables, were up to date, they are up to date again, and every
/// subscriber whose results are others has been told of them.
pub proof fn law_subscribers_hear_of_changes<F: Fn(FloatOp) -> u64>(
    f: F,
    c: CatalogModel,
    statement: QueryModel,
    trees: Trees,
    subs: Seq<SubscriptionModel>,
)
    requires
        database_kept(c, trees),
        distinct_numbers(subs),
        forall|i: int| 0 <= i < subs.len() ==> follows_selection(#[trigger] subs[i]),
        forall|i: int| 0 <= i < subs.len() ==> up_to_date(f, c, #[trigger] subs[i], trees),
    ensures
        ({
            let done = planner::run_of(f, c, statement, trees);
            all_told(f, c, subs, done.trees, deliveries(f, c, subs, done.trees, done.events))
        }),
{
    let done = planner::run_of(f, c, statement, trees);
    assert forall|i: int| 0 <= i < subs.len() implies engine::scoped_run(
        f,
        c,
        (#[trigger] subs[i]).query,
        subs[i].scope,
        done.trees,
    ).result == engine::scoped_run(f, c, subs[i].query, subs[i].scope, trees).result
        || is_affected_by_any(subs[i], done.events) by {
        law_changed_result_affects(f, c, statement, trees, subs[i]);
    }
    lemma_all_told(f, c, subs, trees, done.trees, done.events);
}

pub proof fn lemma_writes_affect<F: Fn(FloatOp) -> u64>(
    f: F,
    c: CatalogModel,
    writes: Seq<QueryModel>,
    trees: Trees,
    s: SubscriptionModel,
)
    requires
        database_kept(c, trees),
        writes_of(f, c, writes, trees).result is Ok,
        follows_selection(s),
    ensures
        ({
            let done = writes_of(f, c, writes, trees);
            engine::scoped_run(f, c, s.query, s.scope, done.trees).result == engine::scoped_run(
                f,
                c,
                s.query,
                s.scope,
                trees,
            ).result || is_affected_by_any(s, done.events)
        }),
    decreases writes.len(),
{
    if writes.len() > 0 {
        let write = writes[0];
        let rest = writes.drop_first();
        let first = write_of(f, c, write, trees);
        assert(first == planner::run_of(f, c, write, trees));
        law_query_keeps_database(f, c, write, trees);
        law_changed_result_affects(f, c, write, trees, s);
        lemma_writes_affect(f, c, rest, first.trees, s);
        let more = writes_of(f, c, rest, first.trees);
        lemma_affected_parts(s, first.events, more.events);
    }
}

/// Law: a transaction of any number of writes, none of which failed, is committed
/// on a database in order, and its changes are delivered. If the subscriptions,
/// each of a selection under a scope that reaches its tables, were up to date,
/// they are up to date again, and every subscriber whose results are others has
/// been told of them.
pub proof fn law_subscribers_hear_of_transactions<F: Fn(FloatOp) -> u64>(
    f: F,
    c: CatalogModel,
    writes: Seq<QueryModel>,
    trees: Trees,
    subs: Seq<SubscriptionModel>,
)
    requires
        database_kept(c, trees),
        writes_of(f, c, writes, trees).result is Ok,
        distinct_numbers(subs),
        forall|i: int| 0 <= i < subs.len() ==> follows_selection(#[trigger] subs[i]),
        forall|i: int| 0 <= i < subs.len() ==> up_to_date(f, c, #[trigger] subs[i], trees),
    ensures
        ({
            let done = writes_of(f, c, writes, trees);
            all_told(f, c, subs, done.trees, deliveries(f, c, subs, done.trees, done.events))
        }),
{
    let done = writes_of(f, c, writes, trees);
    assert forall|i: int| 0 <= i < subs.len() implies engine::scoped_run(
        f,
        c,
        (#[trigger] subs[i]).query,
        subs[i].scope,
        done.trees,
    ).result == engine::scoped_run(f, c, subs[i].query, subs[i].scope, trees).result
        || is_affected_by_any(subs[i], done.events) by {
        lemma_writes_affect(f, c, writes, trees, subs[i]);
    }
    lemma_all_told(f, c, subs, trees, done.trees, done.events);
}

/// Law: a subscription starts up to date: what its subscriber was told first is
/// what its query gives on the trees that it left.
pub proof fn law_subscription_starts_up_to_date<F: Fn(FloatOp) -> u64>(
    f: F,
    c: CatalogModel,
    s: SubscriptionModel,
    trees: Trees,
)
    requires
        follows_selection(s),
        engine::scoped_run(f, c, s.query, s.scope, trees).result is Ok,
        s.last_results == Some(engine::scoped_run(f, c, s.query, s.scope, trees).result->Ok_0),
    ensures
        engine::scoped_run(f, c, s.query, s.scope, trees).trees == trees,
        up_to_date(f, c, s, trees),
{
    lemma_scoped(f, c, s, trees);
}

} // verus!
