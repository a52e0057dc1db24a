//! What subscribers can rely on, whatever calls are made of a database.
use vstd::prelude::*;
use crate::access_control::{self, ScopeModel};
use crate::catalog::{self, CatalogModel};
use crate::catalog_laws;
use crate::change_event::EventModel;
use crate::change_laws::{write_of, writes_of};
use crate::codec::Encoded;
use crate::engine::{self, EngineDatabase, Recomputed};
use crate::error::{EngineError, ErrorModel};
use crate::float::FloatOp;
use crate::in_memory;
use crate::integrity_laws::{self, is_whole, row_place};
use crate::patch;
use crate::persistence;
use crate::planner;
use crate::predicate::CacheModel;
use crate::query::{self, EngineResult, PredicateModel, QueryModel};
use crate::read_laws::{condition_reads, law_read_sees_its_tables, reads_only};
use crate::schema::{IndexModel, IndexSchema, TableModel, TableSchema};
use crate::store::{self, EngineStore, KeyModel, RowModel, Trees};
use crate::store_helpers;
use crate::subscription_laws::{
    distinct_numbers, follows_selection, is_affected_by_any, law_changed_result_affects,
    lemma_affected_parts, lemma_delivered, lemma_scoped, lemma_writes_affect, same_but_results,
    up_to_date,
};
use crate::subscriptions::{self, RegistryModel, SubscriptionId, SubscriptionModel};

verus! {

/// What a subscriber was told, by the number of the subscription.
pub type Told = (nat, Result<Seq<RowModel>, ErrorModel>);

/// A database in use over a store that does not fail: what it knows and holds, the
/// changes that listeners have not heard of, the subscriptions, and all that their
/// subscribers have been told so far.
#[verifier::ext_equal]
pub struct Session {
    pub known: CatalogModel,
    pub trees: Trees,
    pub unheard: Seq<EventModel>,
    pub registry: RegistryModel,
    pub told: Seq<Told>,
}

/// A call of a database.
pub enum Step {
    RegisterTable(TableModel),
    RegisterIndex(IndexModel),
    DropIndex(Seq<char>),
    Subscribe(QueryModel, ScopeModel),
    Unsubscribe(nat),
    Execute(QueryModel),
    /// The commit of a transaction with these writes.
    Commit(Seq<QueryModel>),
    TellSubscribers,
}

/// The subscriptions with one more.
pub open spec fn joined_by(
    r: RegistryModel,
    q: QueryModel,
    scope: ScopeModel,
    rows: Seq<RowModel>,
) -> RegistryModel {
    RegistryModel {
        subscriptions: r.subscriptions.push(
            SubscriptionModel { id: r.next_id, query: q, scope, last_results: Some(rows) },
        ),
        next_id: r.next_id + 1,
    }
}

/// What delivering the unheard changes gives.
pub open spec fn delivery<F: Fn(FloatOp) -> u64>(f: F, s: Session) -> Recomputed {
    engine::delivered(
        f,
        s.known,
        s.unheard,
        Recomputed {
            told: Seq::empty(),
            subscriptions: s.registry.subscriptions,
            trees: s.trees,
            events: Seq::empty(),
        },
    )
}

/// The database after a call.
pub open spec fn step_done<F: Fn(FloatOp) -> u64>(f: F, step: Step, s: Session) -> Session {
    match step {
        Step::RegisterTable(table) => {
            let (_, known, trees) = catalog::table_registered(s.trees, s.known, table);
            Session { known, trees, ..s }
        },
        Step::RegisterIndex(index) => {
            let (_, known, trees) = catalog::index_registered(s.trees, s.known, index);
            Session { known, trees, ..s }
        },
        Step::DropIndex(name) => {
            let (_, known, trees) = catalog::index_dropped(s.trees, s.known, name);
            Session { known, trees, ..s }
        },
        Step::Subscribe(q, scope) => {
            let done = engine::scoped_run(f, s.known, q, scope, s.trees);
            let after = Session { trees: done.trees, unheard: s.unheard + done.events, ..s };
            match done.result {
                Ok(rows) => Session {
                    registry: joined_by(s.registry, q, scope, rows),
                    told: s.told.push((s.registry.next_id, Ok(rows))),
                    ..after
                },
                Err(_) => after,
            }
        },
        Step::Unsubscribe(id) => Session {
            registry: RegistryModel {
                subscriptions: store_helpers::kept(
                    s.registry.subscriptions,
                    subscriptions::numbered_otherwise(id),
                ),
                next_id: s.registry.next_id,
            },
            ..s
        },
        Step::Execute(q) => {
            let done = planner::run_of(f, s.known, q, s.trees);
            Session { trees: done.trees, unheard: s.unheard + done.events, ..s }
        },
        Step::Commit(writes) => {
            let done = writes_of(f, s.known, writes, s.trees);
            Session { trees: done.trees, unheard: s.unheard + done.events, ..s }
        },
        Step::TellSubscribers => {
            let done = delivery(f, s);
            Session {
                trees: done.trees,
                unheard: done.events,
                registry: RegistryModel {
                    subscriptions: done.subscriptions,
                    next_id: s.registry.next_id,
                },
                told: s.told + done.told,
                ..s
            }
        },
    }
}

/// The database after calls, one after the other.
pub open spec fn steps_done<F: Fn(FloatOp) -> u64>(f: F, steps: Seq<Step>, s: Session) -> Session
    decreases steps.len(),
{
    if steps.len() == 0 {
        s
    } else {
        step_done(f, steps.last(), steps_done(f, steps.drop_last(), s))
    }
}

/// A call is one that subscribers can rely on. It registers nothing that is too
/// large to be stored, and an index only over a table without rows. The query that
/// it subscribes to reads only. No write of a transaction that it commits failed.
pub open spec fn is_fair<F: Fn(FloatOp) -> u64>(f: F, step: Step, s: Session) -> bool {
    match step {
        Step::RegisterTable(table) => <TableSchema as Encoded>::fits(table),
        Step::RegisterIndex(index) => <IndexSchema as Encoded>::fits(index) && forall|pk: KeyModel|
         #[trigger] store::row_at(s.trees, index.table_name, pk) is None,
        Step::Subscribe(q, scope) => reads_only(
            access_control::scoped_query(scope, q),
        ),
        Step::Commit(writes) => writes_of(f, s.known, writes, s.trees).result is Ok,
        _ => true,
    }
}

/// Calls are all fair, each where it is made.
pub open spec fn all_fair<F: Fn(FloatOp) -> u64>(f: F, steps: Seq<Step>, s: Session) -> bool
    decreases steps.len(),
{
    steps.len() == 0 || (all_fair(f, steps.drop_last(), s) && is_fair(
        f,
        steps.last(),
        steps_done(f, steps.drop_last(), s),
    ))
}

/// The results that a subscriber was told last.
pub open spec fn last_told(told: Seq<Told>, id: nat) -> Option<Seq<RowModel>>
    decreases told.len(),
{
    if told.len() == 0 {
        None
    } else if told.last().0 == id && told.last().1 is Ok {
        Some(told.last().1->Ok_0)
    } else {
        last_told(told.drop_last(), id)
    }
}

/// A subscriber knows the results: those that were told last are what the query
/// gives now, if it gives any.
pub open spec fn is_informed<F: Fn(FloatOp) -> u64>(
    f: F,
    s: Session,
    sub: SubscriptionModel,
) -> bool {
    engine::scoped_run(f, s.known, sub.query, sub.scope, s.trees).result matches Ok(rows)
        ==> last_told(s.told, sub.id) == Some(rows)
}

/// A database at its start: nobody follows a query, and nothing was changed that
/// listeners have not heard of.
pub open spec fn is_fresh(s: Session) -> bool {
    &&& is_whole(s.known, s.trees)
    &&& s.unheard == Seq::<EventModel>::empty()
    &&& s.registry == subscriptions::no_subscriptions()
    &&& s.told == Seq::<Told>::empty()
}

/// What holds of a subscription at any time: its last results are those that its
/// subscriber was told last, and are up to date unless an unheard change affects
/// it.
pub open spec fn is_in_hand<F: Fn(FloatOp) -> u64>(
    f: F,
    s: Session,
    sub: SubscriptionModel,
) -> bool {
    &&& follows_selection(sub)
    &&& last_told(s.told, sub.id) == sub.last_results
    &&& up_to_date(f, s.known, sub, s.trees) || is_affected_by_any(sub, s.unheard)
}

/// What holds of a database at any time.
pub open spec fn is_sane<F: Fn(FloatOp) -> u64>(f: F, s: Session) -> bool {
    &&& is_whole(s.known, s.trees)
    &&& subscriptions::numbered(s.registry)
    &&& forall|i: int|
        0 <= i < s.registry.subscriptions.len() ==> is_in_hand(
            f,
            s,
            #[trigger] s.registry.subscriptions[i],
        )
}

/// What a query gives that reads only does not depend on the catalog.
proof fn lemma_catalog_free<F: Fn(FloatOp) -> u64>(
    f: F,
    c: CatalogModel,
    d: CatalogModel,
    q: QueryModel,
    trees: Trees,
)
    requires
        reads_only(q),
    ensures
        planner::run_of(f, c, q, trees) == planner::run_of(f, d, q, trees),
    decreases q,
{
    if let QueryModel::Select { predicate: Some(p), .. } = q {
        lemma_condition_free(f, c, d, p, CacheModel::empty(), trees);
    }
}

proof fn lemma_condition_free<F: Fn(FloatOp) -> u64>(
    f: F,
    c: CatalogModel,
    d: CatalogModel,
    p: PredicateModel,
    cache: CacheModel,
    trees: Trees,
)
    requires
        condition_reads(p),
    ensures
        planner::subqueries_run(f, c, p, cache, trees) == planner::subqueries_run(
            f,
            d,
            p,
            cache,
            trees,
        ),
    decreases p,
{
    match p {
        PredicateModel::InSubquery { subquery, .. } => {
            lemma_catalog_free(f, c, d, *subquery, trees);
        },
        PredicateModel::And(a, b) | PredicateModel::Or(a, b) => {
            lemma_condition_free(f, c, d, *a, cache, trees);
            let first = planner::subqueries_run(f, c, *a, cache, trees);
            if let Ok(more) = first.result {
                lemma_condition_free(f, c, d, *b, more, first.trees);
            }
        },
        PredicateModel::Not(a) => {
            lemma_condition_free(f, c, d, *a, cache, trees);
        },
        _ => {},
    }
}

/// Trees with the same rows, of whatever tables.
spec fn rows_alike(after: Trees, trees: Trees) -> bool {
    forall|t: Seq<char>, k: KeyModel|
        patch::lookup(after, #[trigger] row_place(t, k)) == patch::lookup(trees, row_place(t, k))
}

/// Where the rows are the same, so is what a subscription gives.
proof fn lemma_same_results<F: Fn(FloatOp) -> u64>(
    f: F,
    c: CatalogModel,
    d: CatalogModel,
    after: Trees,
    trees: Trees,
    sub: SubscriptionModel,
)
    requires
        follows_selection(sub),
        rows_alike(after, trees),
    ensures
        engine::scoped_run(f, d, sub.query, sub.scope, after).result == engine::scoped_run(
            f,
            c,
            sub.query,
            sub.scope,
            trees,
        ).result,
{
    let narrow = subscriptions::narrowed_query(sub);
    assert forall|t: Seq<char>| #[trigger]
        query::query_tables(narrow).contains(t) implies store::table_rows(after, t)
        == store::table_rows(trees, t) by {
        let a = in_memory::tree_map(after, persistence::rows_of(t));
        let b = in_memory::tree_map(trees, persistence::rows_of(t));
        assert forall|k: KeyModel| #[trigger] a.contains_key(k) <==> b.contains_key(k) by {
            assert(patch::lookup(after, row_place(t, k)) == patch::lookup(trees, row_place(t, k)));
        }
        assert forall|k: KeyModel| a.contains_key(k) implies #[trigger] a[k] == b[k] by {
            assert(patch::lookup(after, row_place(t, k)) == patch::lookup(trees, row_place(t, k)));
        }
        assert(a =~= b);
    }
    law_read_sees_its_tables(f, d, narrow, after, trees);
    lemma_catalog_free(f, c, d, narrow, trees);
}

/// A call that leaves the rows, the changes and the subscriptions leaves all in
/// hand.
proof fn lemma_rows_left<F: Fn(FloatOp) -> u64>(f: F, s: Session, after: Session)
    requires
        is_sane(f, s),
        is_whole(after.known, after.trees),
        rows_alike(after.trees, s.trees),
        after == (Session { known: after.known, trees: after.trees, ..s }),
    ensures
        is_sane(f, after),
{
    assert forall|i: int| 0 <= i < after.registry.subscriptions.len() implies is_in_hand(
        f,
        after,
        #[trigger] after.registry.subscriptions[i],
    ) by {
        let sub = s.registry.subscriptions[i];
        assert(is_in_hand(f, s, sub));
        lemma_same_results(f, s.known, after.known, after.trees, s.trees, sub);
    }
}

/// A call whose changes are told to listeners leaves all in hand.
proof fn lemma_changes_heard<F: Fn(FloatOp) -> u64>(
    f: F,
    s: Session,
    after: Session,
    events: Seq<EventModel>,
)
    requires
        is_sane(f, s),
        is_whole(after.known, after.trees),
        after == (Session { trees: after.trees, unheard: s.unheard + events, ..s }),
        forall|i: int|
            0 <= i < s.registry.subscriptions.len() ==> is_unaltered_or_affected(
                f,
                s,
                after.trees,
                events,
                #[trigger] s.registry.subscriptions[i],
            ),
    ensures
        is_sane(f, after),
{
    assert forall|i: int| 0 <= i < after.registry.subscriptions.len() implies is_in_hand(
        f,
        after,
        #[trigger] after.registry.subscriptions[i],
    ) by {
        let sub = s.registry.subscriptions[i];
        assert(is_in_hand(f, s, sub));
        assert(is_unaltered_or_affected(f, s, after.trees, events, sub));
        lemma_affected_parts(sub, s.unheard, events);
    }
}

/// What a subscription gives is as before, or one of the changes affects it.
spec fn is_unaltered_or_affected<F: Fn(FloatOp) -> u64>(
    f: F,
    s: Session,
    after: Trees,
    events: Seq<EventModel>,
    sub: SubscriptionModel,
) -> bool {
    engine::scoped_run(f, s.known, sub.query, sub.scope, after).result == engine::scoped_run(
        f,
        s.known,
        sub.query,
        sub.scope,
        s.trees,
    ).result || is_affected_by_any(sub, events)
}

proof fn lemma_writes_keep_whole<F: Fn(FloatOp) -> u64>(
    f: F,
    c: CatalogModel,
    writes: Seq<QueryModel>,
    trees: Trees,
)
    requires
        is_whole(c, trees),
        writes_of(f, c, writes, trees).result is Ok,
    ensures
        is_whole(c, writes_of(f, c, writes, trees).trees),
    decreases writes.len(),
{
    if writes.len() > 0 {
        let first = write_of(f, c, writes[0], trees);
        assert(first == planner::run_of(f, c, writes[0], trees));
        integrity_laws::law_query_keeps_whole(f, c, writes[0], trees);
        lemma_writes_keep_whole(f, c, writes.drop_first(), first.trees);
    }
}

/// Of two lists, what was told last is told by the second, if it tells anything.
proof fn lemma_last_told(a: Seq<Told>, b: Seq<Told>, id: nat)
    ensures
        last_told(a + b, id) == match last_told(b, id) {
            Some(rows) => Some(rows),
            None => last_told(a, id),
        },
    decreases b.len(),
{
    if b.len() == 0 {
        assert(a + b =~= a);
    } else {
        assert((a + b).drop_last() =~= a + b.drop_last());
        lemma_last_told(a, b.drop_last(), id);
    }
}

/// The last results of subscriptions are those that were told, or else the ones
/// from before.
spec fn are_retold(
    before: Seq<SubscriptionModel>,
    after: Seq<SubscriptionModel>,
    told: Seq<Told>,
) -> bool {
    same_but_results(before, after) && forall|i: int|
        0 <= i < before.len() ==> (#[trigger] after[i]).last_results == match last_told(
            told,
            after[i].id,
        ) {
            Some(rows) => Some(rows),
            None => before[i].last_results,
        }
}

proof fn lemma_recomputed_retold<F: Fn(FloatOp) -> u64>(
    f: F,
    c: CatalogModel,
    ids: Seq<nat>,
    subs: Seq<SubscriptionModel>,
    so_far: Recomputed,
)
    requires
        are_retold(subs, so_far.subscriptions, so_far.told),
    ensures
        ({
            let done = engine::recomputed(f, c, ids, so_far);
            are_retold(subs, done.subscriptions, done.told)
        }),
    decreases ids.len(),
{
    if ids.len() > 0 {
        let id = ids[0];
        let list = so_far.subscriptions;
        let rest = ids.drop_first();
        match subscriptions::found(list, id) {
            None => {
                lemma_recomputed_retold(f, c, rest, subs, so_far);
            },
            Some(s) => {
                let ran = engine::scoped_run(f, c, s.query, s.scope, so_far.trees);
                let trees = ran.trees;
                let events = so_far.events + ran.events;
                match ran.result {
                    Ok(rows) => {
                        if s.last_results == Some(rows) {
                            lemma_recomputed_retold(
                                f,
                                c,
                                rest,
                                subs,
                                Recomputed { told: so_far.told, subscriptions: list, trees, events },
                            );
                        } else {
                            let told = so_far.told.push((id, Ok(rows)));
                            let next = subscriptions::results_updated(list, id, rows);
                            assert(told.drop_last() =~= so_far.told);
                            assert forall|i: int| 0 <= i < subs.len() implies (
                            #[trigger] next[i]).last_results == match last_told(
                                told,
                                next[i].id,
                            ) {
                                Some(r) => Some(r),
                                None => subs[i].last_results,
                            } by {
                                assert(next[i].id == list[i].id);
                            }
                            lemma_recomputed_retold(
                                f,
                                c,
                                rest,
                                subs,
                                Recomputed { told, subscriptions: next, trees, events },
                            );
                        }
                    },
                    Err(e) => {
                        let told = so_far.told.push((id, Err(e)));
                        assert(told.drop_last() =~= so_far.told);
                        lemma_recomputed_retold(
                            f,
                            c,
                            rest,
                            subs,
                            Recomputed { told, subscriptions: list, trees, events },
                        );
                    },
                }
            },
        }
    }
}

proof fn lemma_delivered_retold<F: Fn(FloatOp) -> u64>(
    f: F,
    c: CatalogModel,
    changes: Seq<EventModel>,
    subs: Seq<SubscriptionModel>,
    so_far: Recomputed,
)
    requires
        are_retold(subs, so_far.subscriptions, so_far.told),
    ensures
        ({
            let done = engine::delivered(f, c, changes, so_far);
            are_retold(subs, done.subscriptions, done.told)
        }),
    decreases changes.len(),
{
    if changes.len() > 0 {
        let list = so_far.subscriptions;
        let ids = subscriptions::numbers(
            store_helpers::kept(list, subscriptions::affected_by(changes[0])),
        );
        let start = Recomputed { told: Seq::empty(), ..so_far };
        let next = engine::recomputed(f, c, ids, start);
        assert(are_retold(list, start.subscriptions, start.told));
        lemma_recomputed_retold(f, c, ids, list, start);
        let told = so_far.told + next.told;
        assert forall|i: int| 0 <= i < subs.len() implies (
        #[trigger] next.subscriptions[i]).last_results == match last_told(
            told,
            next.subscriptions[i].id,
        ) {
            Some(rows) => Some(rows),
            None => subs[i].last_results,
        } by {
            assert(next.subscriptions[i].id == list[i].id);
            lemma_last_told(so_far.told, next.told, list[i].id);
        }
        assert forall|i: int| 0 <= i < subs.len() implies (#[trigger] next.subscriptions[i]).id
            == subs[i].id && next.subscriptions[i].query == subs[i].query
            && next.subscriptions[i].scope == subs[i].scope by {
            assert(list[i].id == subs[i].id);
        }
        lemma_delivered_retold(
            f,
            c,
            changes.drop_first(),
            subs,
            Recomputed { told, ..next },
        );
    }
}

proof fn lemma_subscribe<F: Fn(FloatOp) -> u64>(
    f: F,
    s: Session,
    q: QueryModel,
    scope: ScopeModel,
)
    requires
        is_sane(f, s),
        is_fair(f, Step::Subscribe(q, scope), s),
    ensures
        is_sane(f, step_done(f, Step::Subscribe(q, scope), s)),
{
    let done = engine::scoped_run(f, s.known, q, scope, s.trees);
    let after = step_done(f, Step::Subscribe(q, scope), s);
    assert(s.unheard + Seq::<EventModel>::empty() =~= s.unheard);
    if engine::first_unreached(query::query_tables(q), scope) is None {
        let rows = done.result->Ok_0;
        let id = s.registry.next_id;
        let new = SubscriptionModel { id, query: q, scope, last_results: Some(rows) };
        lemma_scoped(f, s.known, new, s.trees);
        if done.result is Ok {
            let list = after.registry.subscriptions;
            assert(after.told.drop_last() =~= s.told);
            assert forall|i: int| 0 <= i < list.len() implies is_in_hand(
                f,
                after,
                #[trigger] list[i],
            ) by {
                if i < s.registry.subscriptions.len() {
                    let sub = s.registry.subscriptions[i];
                    assert(list[i] == sub);
                    assert(is_in_hand(f, s, sub));
                } else {
                    assert(list[i] == new);
                }
            }
            assert forall|i: int, j: int| 0 <= i < j < list.len() implies (#[trigger] list[i]).id
                != (#[trigger] list[j]).id by {
                assert(list[i] == s.registry.subscriptions[i]);
                if j < s.registry.subscriptions.len() {
                    assert(list[j] == s.registry.subscriptions[j]);
                }
            }
            assert forall|i: int| 0 <= i < list.len() implies (#[trigger] list[i]).id
                < after.registry.next_id by {
                if i < s.registry.subscriptions.len() {
                    assert(list[i] == s.registry.subscriptions[i]);
                }
            }
        }
    }
    if done.result is Err {
        assert(after == s);
    }
}

proof fn lemma_unsubscribe<F: Fn(FloatOp) -> u64>(f: F, s: Session, id: nat)
    requires
        is_sane(f, s),
    ensures
        is_sane(f, step_done(f, Step::Unsubscribe(id), s)),
{
    let after = step_done(f, Step::Unsubscribe(id), s);
    let all = s.registry.subscriptions;
    let p = subscriptions::numbered_otherwise(id);
    let list = after.registry.subscriptions;
    lemma_kept_numbered(all, p, s.registry.next_id);
    assert forall|i: int| 0 <= i < list.len() implies is_in_hand(f, after, #[trigger] list[i]) by {
        let at = store_helpers::lemma_kept_member(all, p, i);
        assert(is_in_hand(f, s, all[at]));
    }
}

/// Numbers stay apart where some are left out.
proof fn lemma_kept_numbered(
    list: Seq<SubscriptionModel>,
    p: spec_fn(SubscriptionModel) -> bool,
    next_id: nat,
)
    requires
        subscriptions::numbered(RegistryModel { subscriptions: list, next_id }),
    ensures
        subscriptions::numbered(
            RegistryModel { subscriptions: store_helpers::kept(list, p), next_id },
        ),
    decreases list.len(),
{
    if list.len() > 0 {
        let rest = list.drop_last();
        let before = store_helpers::kept(rest, p);
        let kept = store_helpers::kept(list, p);
        let all = RegistryModel { subscriptions: list, next_id };
        assert forall|i: int| 0 <= i < rest.len() implies (#[trigger] rest[i]).id < next_id by {
            assert(all.subscriptions[i] == rest[i]);
        }
        assert forall|i: int, j: int| 0 <= i < j < rest.len() implies (#[trigger] rest[i]).id != (
        #[trigger] rest[j]).id by {
            assert(all.subscriptions[i] == rest[i] && all.subscriptions[j] == rest[j]);
        }
        lemma_kept_numbered(rest, p, next_id);
        let left = RegistryModel { subscriptions: before, next_id };
        let last = list[list.len() - 1];
        assert(all.subscriptions[list.len() - 1] == last);
        assert forall|i: int| 0 <= i < kept.len() implies (#[trigger] kept[i]).id < next_id by {
            if i < before.len() {
                assert(left.subscriptions[i] == kept[i]);
            }
        }
        assert forall|i: int, j: int| 0 <= i < j < kept.len() implies (#[trigger] kept[i]).id != (
        #[trigger] kept[j]).id by {
            assert(left.subscriptions[i] == kept[i]);
            if j < before.len() {
                assert(left.subscriptions[j] == kept[j]);
            } else {
                let at = store_helpers::lemma_kept_member(rest, p, i);
                assert(all.subscriptions[at] == kept[i]);
            }
        }
    }
}

proof fn lemma_tell<F: Fn(FloatOp) -> u64>(f: F, s: Session)
    requires
        is_sane(f, s),
    ensures
        ({
            let after = step_done(f, Step::TellSubscribers, s);
            &&& is_sane(f, after)
            &&& after.trees == s.trees
            &&& after.unheard == Seq::<EventModel>::empty()
            &&& same_but_results(s.registry.subscriptions, after.registry.subscriptions)
        }),
{
    let subs = s.registry.subscriptions;
    let start = Recomputed {
        told: Seq::empty(),
        subscriptions: subs,
        trees: s.trees,
        events: Seq::empty(),
    };
    assert forall|i: int| 0 <= i < subs.len() implies follows_selection(#[trigger] subs[i]) by {
        assert(is_in_hand(f, s, subs[i]));
    }
    assert(distinct_numbers(subs)) by {
        assert forall|i: int, j: int| 0 <= i < j < subs.len() implies (#[trigger] subs[i]).id != (
        #[trigger] subs[j]).id by {
            assert(s.registry.subscriptions[i].id != s.registry.subscriptions[j].id);
        }
    }
    lemma_delivered(f, s.known, s.unheard, start);
    lemma_delivered_retold(f, s.known, s.unheard, subs, start);
    let done = delivery(f, s);
    let after = step_done(f, Step::TellSubscribers, s);
    let list = after.registry.subscriptions;
    assert forall|i: int| 0 <= i < list.len() implies is_in_hand(f, after, #[trigger] list[i]) by {
        assert(is_in_hand(f, s, subs[i]));
        assert(list[i].id == subs[i].id);
        lemma_last_told(s.told, done.told, list[i].id);
        assert(up_to_date(f, s.known, list[i], s.trees));
    }
    assert forall|i: int, j: int| 0 <= i < j < list.len() implies (#[trigger] list[i]).id != (
    #[trigger] list[j]).id by {
        assert(list[i].id == subs[i].id && list[j].id == subs[j].id);
    }
    assert forall|i: int| 0 <= i < list.len() implies (#[trigger] list[i]).id
        < after.registry.next_id by {
        assert(list[i].id == subs[i].id);
        assert(s.registry.subscriptions[i].id < s.registry.next_id);
    }
}

proof fn lemma_step<F: Fn(FloatOp) -> u64>(f: F, step: Step, s: Session)
    requires
        is_sane(f, s),
        is_fair(f, step, s),
    ensures
        is_sane(f, step_done(f, step, s)),
{
    let after = step_done(f, step, s);
    let c = s.known;
    let subs = s.registry.subscriptions;
    match step {
        Step::RegisterTable(table) => {
            integrity_laws::law_register_table_keeps_whole(c, s.trees, table);
            assert forall|t: Seq<char>, k: KeyModel|
                patch::lookup(after.trees, #[trigger] row_place(t, k)) == patch::lookup(
                    s.trees,
                    row_place(t, k),
                ) by {
                persistence::law_trees_apart(t, t);
            }
            lemma_rows_left(f, s, after);
        },
        Step::RegisterIndex(index) => {
            integrity_laws::law_register_index_keeps_whole(c, s.trees, index);
            assert forall|t: Seq<char>, k: KeyModel|
                patch::lookup(after.trees, #[trigger] row_place(t, k)) == patch::lookup(
                    s.trees,
                    row_place(t, k),
                ) by {
                persistence::law_trees_apart(t, t);
            }
            lemma_rows_left(f, s, after);
        },
        Step::DropIndex(name) => {
            integrity_laws::law_drop_index_keeps_whole(c, s.trees, name);
            if catalog::index_dropped(s.trees, c, name).0 is Ok {
                let d = catalog::loaded_catalog(s.trees)->Ok_0;
                let index = catalog::index_named(d.indexes, name)->Some_0;
                catalog_laws::law_index_cleared(s.trees, index);
                assert forall|t: Seq<char>, k: KeyModel|
                    patch::lookup(after.trees, #[trigger] row_place(t, k)) == patch::lookup(
                        s.trees,
                        row_place(t, k),
                    ) by {
                    persistence::law_trees_apart(t, index.name);
                    persistence::law_trees_apart(t, t);
                    assert(!catalog_laws::is_of_index(row_place(t, k), index));
                }
            }
            lemma_rows_left(f, s, after);
        },
        Step::Subscribe(q, scope) => {
            lemma_subscribe(f, s, q, scope);
        },
        Step::Unsubscribe(id) => {
            lemma_unsubscribe(f, s, id);
        },
        Step::Execute(q) => {
            let done = planner::run_of(f, c, q, s.trees);
            integrity_laws::law_query_keeps_whole(f, c, q, s.trees);
            assert forall|i: int| 0 <= i < subs.len() implies is_unaltered_or_affected(
                f,
                s,
                done.trees,
                done.events,
                #[trigger] subs[i],
            ) by {
                assert(is_in_hand(f, s, subs[i]));
                law_changed_result_affects(f, c, q, s.trees, subs[i]);
            }
            lemma_changes_heard(f, s, after, done.events);
        },
        Step::Commit(writes) => {
            let done = writes_of(f, c, writes, s.trees);
            lemma_writes_keep_whole(f, c, writes, s.trees);
            assert forall|i: int| 0 <= i < subs.len() implies is_unaltered_or_affected(
                f,
                s,
                done.trees,
                done.events,
                #[trigger] subs[i],
            ) by {
                assert(is_in_hand(f, s, subs[i]));
                lemma_writes_affect(f, c, writes, s.trees, subs[i]);
            }
            lemma_changes_heard(f, s, after, done.events);
        },
        Step::TellSubscribers => {
            lemma_tell(f, s);
        },
    }
}

proof fn lemma_steps<F: Fn(FloatOp) -> u64>(f: F, steps: Seq<Step>, s: Session)
    requires
        is_sane(f, s),
        all_fair(f, steps, s),
    ensures
        is_sane(f, steps_done(f, steps, s)),
    decreases steps.len(),
{
    if steps.len() > 0 {
        lemma_steps(f, steps.drop_last(), s);
        lemma_step(f, steps.last(), steps_done(f, steps.drop_last(), s));
    }
}

/// Law: whatever calls are made of a database, once its changes have been told
/// every subscriber knows the results: those that were told last are what the query
/// gives now.
pub proof fn law_subscribers_are_informed<F: Fn(FloatOp) -> u64>(
    f: F,
    start: Session,
    steps: Seq<Step>,
)
    requires
        is_fresh(start),
        all_fair(f, steps, start),
    ensures
        ({
            let end = step_done(f, Step::TellSubscribers, steps_done(f, steps, start));
            &&& end.unheard == Seq::<EventModel>::empty()
            &&& forall|i: int|
                0 <= i < end.registry.subscriptions.len() ==> is_informed(
                    f,
                    end,
                    #[trigger] end.registry.subscriptions[i],
                )
        }),
{
    let s = steps_done(f, steps, start);
    lemma_steps(f, steps, start);
    lemma_tell(f, s);
    let end = step_done(f, Step::TellSubscribers, s);
    assert forall|i: int| 0 <= i < end.registry.subscriptions.len() implies is_informed(
        f,
        end,
        #[trigger] end.registry.subscriptions[i],
    ) by {
        assert(is_in_hand(f, end, end.registry.subscriptions[i]));
    }
}

/// A subscription of that number follows a query in a scope.
pub open spec fn is_followed(
    r: RegistryModel,
    id: nat,
    q: QueryModel,
    scope: ScopeModel,
) -> bool {
    exists|i: int|
        0 <= i < r.subscriptions.len() && (#[trigger] r.subscriptions[i]).id == id
            && r.subscriptions[i].query == q && r.subscriptions[i].scope == scope
}

/// A subscription lasts through a call that does not end it.
proof fn lemma_lasts<F: Fn(FloatOp) -> u64>(
    f: F,
    step: Step,
    s: Session,
    id: nat,
    q: QueryModel,
    scope: ScopeModel,
)
    requires
        is_sane(f, s),
        is_fair(f, step, s),
        is_followed(s.registry, id, q, scope),
        step != Step::Unsubscribe(id),
    ensures
        is_followed(step_done(f, step, s).registry, id, q, scope),
{
    let after = step_done(f, step, s).registry.subscriptions;
    let subs = s.registry.subscriptions;
    let i = choose|i: int|
        0 <= i < subs.len() && (#[trigger] subs[i]).id == id && subs[i].query == q && subs[i].scope
            == scope;
    match step {
        Step::Unsubscribe(other) => {
            let p = subscriptions::numbered_otherwise(other);
            let k = store_helpers::lemma_kept_contains(subs, p, i);
            assert(after[k] == subs[i]);
        },
        Step::TellSubscribers => {
            lemma_tell(f, s);
            assert(after[i].id == subs[i].id);
        },
        _ => {
            assert(after[i] == subs[i]);
        },
    }
}

proof fn lemma_lasts_through<F: Fn(FloatOp) -> u64>(
    f: F,
    steps: Seq<Step>,
    s: Session,
    id: nat,
    q: QueryModel,
    scope: ScopeModel,
)
    requires
        is_sane(f, s),
        all_fair(f, steps, s),
        is_followed(s.registry, id, q, scope),
        !steps.contains(Step::Unsubscribe(id)),
    ensures
        is_followed(steps_done(f, steps, s).registry, id, q, scope),
    decreases steps.len(),
{
    if steps.len() > 0 {
        let rest = steps.drop_last();
        assert forall|x: Step| #[trigger] rest.contains(x) implies steps.contains(x) by {
            let j = choose|j: int| 0 <= j < rest.len() && rest[j] == x;
            assert(steps[j] == x);
        }
        assert(steps.contains(steps[steps.len() - 1]));
        lemma_steps(f, rest, s);
        lemma_lasts_through(f, rest, s, id, q, scope);
        lemma_lasts(f, steps.last(), steps_done(f, rest, s), id, q, scope);
    }
}

/// Law: who subscribes is told the first results, and after any calls that do not
/// end the subscription, once the changes have been told, has been told last what
/// the query gives now.
pub proof fn law_subscriber_is_told_new_results<F: Fn(FloatOp) -> u64>(
    f: F,
    start: Session,
    before: Seq<Step>,
    q: QueryModel,
    scope: ScopeModel,
    after: Seq<Step>,
)
    requires
        is_fresh(start),
        all_fair(f, before, start),
        is_fair(f, Step::Subscribe(q, scope), steps_done(f, before, start)),
        ({
            let s = steps_done(f, before, start);
            let t = step_done(f, Step::Subscribe(q, scope), s);
            &&& engine::scoped_run(f, s.known, q, scope, s.trees).result is Ok
            &&& all_fair(f, after, t)
            &&& !after.contains(Step::Unsubscribe(s.registry.next_id))
        }),
    ensures
        ({
            let s = steps_done(f, before, start);
            let t = step_done(f, Step::Subscribe(q, scope), s);
            let end = step_done(f, Step::TellSubscribers, steps_done(f, after, t));
            let id = s.registry.next_id;
            &&& last_told(t.told, id) == Some(
                engine::scoped_run(f, s.known, q, scope, s.trees).result->Ok_0,
            )
            &&& engine::scoped_run(f, end.known, q, scope, end.trees).result matches Ok(rows)
                ==> last_told(end.told, id) == Some(rows)
        }),
{
    let s = steps_done(f, before, start);
    let t = step_done(f, Step::Subscribe(q, scope), s);
    let id = s.registry.next_id;
    lemma_steps(f, before, start);
    lemma_subscribe(f, s, q, scope);
    assert(t.registry.subscriptions[s.registry.subscriptions.len() as int].id == id);
    lemma_steps(f, after, t);
    lemma_lasts_through(f, after, t, id, q, scope);
    let u = steps_done(f, after, t);
    lemma_tell(f, u);
    lemma_lasts(f, Step::TellSubscribers, u, id, q, scope);
    let end = step_done(f, Step::TellSubscribers, u);
    let i = choose|i: int|
        0 <= i < end.registry.subscriptions.len() && (#[trigger] end.registry.subscriptions[i]).id
            == id && end.registry.subscriptions[i].query == q
            && end.registry.subscriptions[i].scope == scope;
    assert(is_in_hand(f, end, end.registry.subscriptions[i]));
}

/// Law: a database without tables over an empty store is at its start.
pub proof fn law_empty_database_is_fresh(s: Session)
    requires
        s.known == catalog::empty_catalog(),
        s.trees == Trees::empty(),
        s.unheard == Seq::<EventModel>::empty(),
        s.registry == subscriptions::no_subscriptions(),
        s.told == Seq::<Told>::empty(),
    ensures
        is_fresh(s),
{
    integrity_laws::law_empty_database_is_whole();
}

/// What a database is, with all that its subscribers have been told so far.
pub open spec fn session_of<S: EngineStore, F: Fn(FloatOp) -> u64>(
    db: EngineDatabase<S, F>,
    told: Seq<Told>,
) -> Session {
    Session {
        known: db.known(),
        trees: db.trees(),
        unheard: db.unheard(),
        registry: db.subscriptions.deep_view(),
        told,
    }
}

/// Law: to subscribe to a query is a call as it stands here, where the subscriber
/// is told the first results.
pub proof fn law_subscribe_is_a_step<S: EngineStore, F: Fn(FloatOp) -> u64>(
    before: EngineDatabase<S, F>,
    after: EngineDatabase<S, F>,
    r: Result<(SubscriptionId, EngineResult), EngineError>,
    q: QueryModel,
    scope: ScopeModel,
    told: Seq<Told>,
)
    requires
        before.sound(),
        after.kernel.catalog == before.kernel.catalog,
        engine::follows(r, before, after, q, scope),
    ensures
        step_done(before.kernel.float, Step::Subscribe(q, scope), session_of(before, told))
            == session_of(
            after,
            match r {
                Ok((id, results)) => told.push((id.deep_view(), Ok(results.deep_view()))),
                Err(_) => told,
            },
        ),
{
}

/// Law: to run a query is a call as it stands here.
pub proof fn law_execute_is_a_step<S: EngineStore, F: Fn(FloatOp) -> u64>(
    before: EngineDatabase<S, F>,
    after: EngineDatabase<S, F>,
    r: Result<EngineResult, EngineError>,
    q: QueryModel,
    told: Seq<Told>,
)
    requires
        before.sound(),
        after.kernel.catalog == before.kernel.catalog,
        after.subscriptions == before.subscriptions,
        planner::ran(
            before.kernel.float,
            before.known(),
            q,
            r,
            before.sound(),
            (before.trees(), before.unheard()),
            (after.trees(), after.unheard()),
        ),
    ensures
        step_done(before.kernel.float, Step::Execute(q), session_of(before, told)) == session_of(
            after,
            told,
        ),
{
}

/// Law: to tell the subscribers is a call as it stands here.
pub proof fn law_telling_is_a_step<S: EngineStore, F: Fn(FloatOp) -> u64>(
    before: EngineDatabase<S, F>,
    after: EngineDatabase<S, F>,
    news: Seq<Told>,
    told: Seq<Told>,
)
    requires
        after.kernel.catalog == before.kernel.catalog,
        after.subscriptions.deep_view().next_id == before.subscriptions.deep_view().next_id,
        delivery(before.kernel.float, session_of(before, told)) == (Recomputed {
            told: news,
            subscriptions: after.subscriptions.deep_view().subscriptions,
            trees: after.trees(),
            events: after.unheard(),
        }),
    ensures
        step_done(before.kernel.float, Step::TellSubscribers, session_of(before, told))
            == session_of(after, told + news),
{
}

} // verus!
