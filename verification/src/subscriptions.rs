//! Queries whose results are followed.
use vstd::prelude::*;
use crate::access_control::{self, ScopeModel, SyncScope};
use crate::change_event::{self, ChangeEvent, EventModel};
use crate::plain::{contains_text, no_items, push_back, same_text, Plain};
use crate::query::{
    self, EngineQuery, EngineResult, JoinClause, JoinKind, JoinModel, QueryModel,
};
use crate::store::RowModel;
use crate::store_helpers;

verus! {

/// The number of a subscription.
#[derive(Clone, Copy, Debug, PartialEq, Eq, Hash, Structural)]
pub struct SubscriptionId(u64);

impl DeepView for SubscriptionId {
    type V = nat;

    closed spec fn deep_view(&self) -> nat {
        self.0 as nat
    }
}

/// An object that hears of new results.
pub trait Subscriber {
    fn on_results(&self, results: EngineResult);
}

/// A query whose results are followed, with the last of them.
pub struct QuerySubscription {
    pub id: SubscriptionId,
    pub query: EngineQuery,
    pub scope: SyncScope,
    pub last_results: Option<EngineResult>,
}

/// What a [`QuerySubscription`] is, mathematically.
#[verifier::ext_equal]
pub struct SubscriptionModel {
    pub id: nat,
    pub query: QueryModel,
    pub scope: ScopeModel,
    pub last_results: Option<Seq<RowModel>>,
}

impl DeepView for QuerySubscription {
    type V = SubscriptionModel;

    open spec fn deep_view(&self) -> SubscriptionModel {
        SubscriptionModel {
            id: self.id.deep_view(),
            query: self.query.deep_view(),
            scope: self.scope.deep_view(),
            last_results: self.last_results.deep_view(),
        }
    }
}

/// A table is joined in once at most, and nothing is joined in for want of a
/// row of it: a row that does not meet a condition of the query leaves no trace
/// in the result. `drawn` says that it was joined in before.
pub open spec fn is_required(drawn: bool, joins: Seq<JoinModel>, table: Seq<char>) -> bool
    decreases joins.len(),
{
    if joins.len() == 0 {
        true
    } else {
        let here = joins[0].right_table == table;
        (match joins[0].kind {
            JoinKind::Inner => !(drawn && here),
            JoinKind::Left => !here,
            JoinKind::Right => !drawn,
            JoinKind::Full => !drawn && !here,
        }) && is_required(drawn || here, joins.drop_first(), table)
    }
}

/// A selection sees of a table no more than the rows that meet its condition on
/// the table: it is not on the optional side of an outer join, and no subquery
/// reads it.
pub open spec fn sees_met_rows_only(q: QueryModel, table: Seq<char>) -> bool {
    match q {
        QueryModel::Select { table: base, predicate, options, .. } => is_required(
            base == table,
            options.joins,
            table,
        ) && (predicate matches Some(p) ==> !query::subquery_tables(p).contains(table)),
        _ => false,
    }
}

/// The query of a subscription, as its scope narrows it.
pub open spec fn narrowed_query(s: SubscriptionModel) -> QueryModel {
    access_control::scoped_query(s.scope, s.query)
}

/// A query, or a condition of its scope, refers to the table that changed.
pub open spec fn is_about(s: SubscriptionModel, table: Seq<char>) -> bool {
    query::query_tables(narrowed_query(s)).contains(table)
}

/// A change may alter the results of a subscription: its query or a condition
/// of its scope refers to the table, the query may reach it, and the rows that
/// changed are not hidden from it without a trace.
pub open spec fn is_affected(s: SubscriptionModel, e: EventModel) -> bool {
    let table = change_event::event_table(e);
    &&& is_about(s, table)
    &&& query::query_tables(s.query).contains(table) ==> access_control::reaches(s.scope, table)
    &&& !(access_control::hides(s.scope, e) && sees_met_rows_only(narrowed_query(s), table))
}

/// Whether a table is joined in once at most, and nothing is joined in for want
/// of a row of it.
fn requires_table(base: &str, joins: &Vec<JoinClause>, table: &str) -> (r: bool)
    ensures
        r == is_required(base@ == table@, joins.deep_view(), table@),
{
    let ghost all = joins.deep_view();
    let mut drawn = same_text(base, table);
    let mut i: usize = 0;
    proof {
        assert(all.skip(0) =~= all);
    }
    while i < joins.len()
        invariant
            i <= joins.len(),
            all == joins.deep_view(),
            is_required(base@ == table@, all, table@) == is_required(
                drawn,
                all.skip(i as int),
                table@,
            ),
        decreases joins.len() - i,
    {
        let join = &joins[i];
        proof {
            assert(all.skip(i as int)[0] == join.deep_view());
            assert(all.skip(i as int).drop_first() =~= all.skip(i + 1));
        }
        let here = same_text(join.right_table.as_str(), table);
        let traceless = match join.kind {
            JoinKind::Inner => !(drawn && here),
            JoinKind::Left => !here,
            JoinKind::Right => !drawn,
            JoinKind::Full => !drawn && !here,
        };
        if !traceless {
            return false;
        }
        drawn = drawn || here;
        i += 1;
    }
    true
}

/// Whether a selection sees of a table no more than the rows that meet its
/// condition on the table.
fn sees_only_met_rows(query: &EngineQuery, table: &str) -> (r: bool)
    ensures
        r == sees_met_rows_only(query.deep_view(), table@),
{
    match query {
        EngineQuery::Select { table: base, predicate, options, .. } => {
            if !requires_table(base.as_str(), &options.joins, table) {
                return false;
            }
            match predicate {
                Some(p) => !contains_text(&p.subquery_tables(), table),
                None => true,
            }
        },
        _ => false,
    }
}

impl QuerySubscription {
    /// Whether the query, or a condition of its scope, refers to the table that
    /// changed.
    pub fn is_affected_by(&self, event: &ChangeEvent) -> (r: bool)
        ensures
            r == is_about(self.deep_view(), change_event::event_table(event.deep_view())),
    {
        contains_text(&self.narrowed_query().tables(), event.table())
    }

    /// The query, as the scope narrows it.
    fn narrowed_query(&self) -> (r: EngineQuery)
        ensures
            r.deep_view() == narrowed_query(self.deep_view()),
    {
        self.scope.narrow_query(&self.query)
    }

    /// Whether a change may alter the results.
    fn is_altered_by(&self, event: &ChangeEvent) -> (r: bool)
        ensures
            r == is_affected(self.deep_view(), event.deep_view()),
    {
        let table = event.table();
        if !self.is_affected_by(event) {
            return false;
        }
        if contains_text(&self.query.tables(), table) && !self.scope.can_access(table) {
            return false;
        }
        !(self.scope.hides(event) && sees_only_met_rows(&self.narrowed_query(), table))
    }

    /// A copy of the subscription.
    pub fn duplicate(&self) -> (r: QuerySubscription)
        ensures
            r.deep_view() == self.deep_view(),
    {
        QuerySubscription {
            id: self.id,
            query: self.query.duplicate(),
            scope: self.scope.duplicate(),
            last_results: self.last_results.duplicate(),
        }
    }

    /// Whether the change can be seen.
    pub fn matches_scope(&self, event: &ChangeEvent) -> (r: bool)
        ensures
            r == access_control::visible(self.scope.deep_view(), event.deep_view()),
    {
        self.scope.matches(event)
    }
}

/// The subscriptions that are there, in the order in which they came.
pub struct SubscriptionRegistry {
    subscriptions: Vec<QuerySubscription>,
    next_id: u64,
}

/// What a [`SubscriptionRegistry`] is, mathematically.
#[verifier::ext_equal]
pub struct RegistryModel {
    pub subscriptions: Seq<SubscriptionModel>,
    pub next_id: nat,
}

impl DeepView for SubscriptionRegistry {
    type V = RegistryModel;

    closed spec fn deep_view(&self) -> RegistryModel {
        RegistryModel {
            subscriptions: self.subscriptions.deep_view(),
            next_id: self.next_id as nat,
        }
    }
}

/// No two subscriptions have one number, and the next number is free.
pub open spec fn numbered(r: RegistryModel) -> bool {
    &&& forall|i: int|
        0 <= i < r.subscriptions.len() ==> (#[trigger] r.subscriptions[i]).id < r.next_id
    &&& forall|i: int, j: int|
        0 <= i < j < r.subscriptions.len() ==> (#[trigger] r.subscriptions[i]).id != (
        #[trigger] r.subscriptions[j]).id
}

/// There is a number for one more subscription.
pub open spec fn has_number(r: RegistryModel) -> bool {
    r.next_id < u64::MAX
}

/// Another number than `id`.
pub open spec fn numbered_otherwise(id: nat) -> spec_fn(SubscriptionModel) -> bool {
    |s: SubscriptionModel| s.id != id
}

/// Refers to a table.
pub open spec fn about(table: Seq<char>) -> spec_fn(SubscriptionModel) -> bool {
    |s: SubscriptionModel| is_about(s, table)
}

/// Is affected by a change.
pub open spec fn affected_by(e: EventModel) -> spec_fn(SubscriptionModel) -> bool {
    |s: SubscriptionModel| is_affected(s, e)
}

/// The numbers of subscriptions.
pub open spec fn numbers(list: Seq<SubscriptionModel>) -> Seq<nat> {
    list.map_values(|s: SubscriptionModel| s.id)
}

/// The first subscription of a number.
pub open spec fn found(list: Seq<SubscriptionModel>, id: nat) -> Option<SubscriptionModel>
    decreases list.len(),
{
    if list.len() == 0 {
        None
    } else if list[0].id == id {
        Some(list[0])
    } else {
        found(list.drop_first(), id)
    }
}

/// A subscription with other results.
pub open spec fn with_results(s: SubscriptionModel, results: Seq<RowModel>) -> SubscriptionModel {
    SubscriptionModel {
        id: s.id,
        query: s.query,
        scope: s.scope,
        last_results: Some(results),
    }
}

/// The subscriptions, with other results for those of a number.
pub open spec fn results_updated(
    list: Seq<SubscriptionModel>,
    id: nat,
    results: Seq<RowModel>,
) -> Seq<SubscriptionModel> {
    list.map_values(
        |s: SubscriptionModel|
            if s.id == id {
                with_results(s, results)
            } else {
                s
            },
    )
}

/// A registry at its start.
pub open spec fn no_subscriptions() -> RegistryModel {
    RegistryModel { subscriptions: Seq::empty(), next_id: 1 }
}

impl SubscriptionRegistry {
    /// A registry without subscriptions.
    pub fn new() -> (r: SubscriptionRegistry)
        ensures
            r.deep_view() == no_subscriptions(),
            numbered(r.deep_view()),
    {
        SubscriptionRegistry { subscriptions: no_items(), next_id: 1 }
    }

    /// Leaves out all numbers before `first`: registries that start far enough
    /// from each other give no number twice.
    pub fn number_from(&mut self, first: u64)
        ensures
            final(self).deep_view() == (RegistryModel {
                subscriptions: old(self).deep_view().subscriptions,
                next_id: if first as nat > old(self).deep_view().next_id {
                    first as nat
                } else {
                    old(self).deep_view().next_id
                },
            }),
            numbered(old(self).deep_view()) ==> numbered(final(self).deep_view()),
    {
        if first > self.next_id {
            self.next_id = first;
        }
    }

    /// Whether there is a number for one more subscription.
    pub fn has_room(&self) -> (r: bool)
        ensures
            r == has_number(self.deep_view()),
    {
        self.next_id < u64::MAX
    }

    /// Follows a query from now on, and gives the number of the subscription.
    pub fn register(&mut self, query: EngineQuery, scope: SyncScope, results: EngineResult) -> (r:
        SubscriptionId)
        requires
            has_number(old(self).deep_view()),
        ensures
            r.deep_view() == old(self).deep_view().next_id,
            final(self).deep_view() == (RegistryModel {
                subscriptions: old(self).deep_view().subscriptions.push(
                    SubscriptionModel {
                        id: old(self).deep_view().next_id,
                        query: query.deep_view(),
                        scope: scope.deep_view(),
                        last_results: Some(results.deep_view()),
                    },
                ),
                next_id: old(self).deep_view().next_id + 1,
            }),
            numbered(old(self).deep_view()) ==> numbered(final(self).deep_view()),
    {
        let id = SubscriptionId(self.next_id);
        self.next_id += 1;
        push_back(
            &mut self.subscriptions,
            QuerySubscription { id, query, scope, last_results: Some(results) },
        );
        id
    }

    /// Stops following a query.
    pub fn unregister(&mut self, id: SubscriptionId)
        ensures
            final(self).deep_view() == (RegistryModel {
                subscriptions: store_helpers::kept(
                    old(self).deep_view().subscriptions,
                    numbered_otherwise(id.deep_view()),
                ),
                next_id: old(self).deep_view().next_id,
            }),
            numbered(old(self).deep_view()) ==> numbered(final(self).deep_view()),
    {
        let ghost all = self.subscriptions.deep_view();
        let ghost p = numbered_otherwise(id.deep_view());
        let mut rest: Vec<QuerySubscription> = no_items();
        let mut i: usize = 0;
        while i < self.subscriptions.len()
            invariant
                i <= self.subscriptions.len(),
                all == self.subscriptions.deep_view(),
                old(self).deep_view() == self.deep_view(),
                p == numbered_otherwise(id.deep_view()),
                rest.deep_view() == store_helpers::kept(all.take(i as int), p),
            decreases self.subscriptions.len() - i,
        {
            let sub = &self.subscriptions[i];
            proof {
                assert(all.take(i + 1).drop_last() =~= all.take(i as int));
                assert(all.take(i + 1).last() == sub.deep_view());
            }
            if sub.id.0 != id.0 {
                push_back(&mut rest, sub.duplicate());
            }
            i += 1;
        }
        proof {
            assert(all.take(i as int) =~= all);
            if numbered(old(self).deep_view()) {
                lemma_kept_numbered(old(self).deep_view(), id.deep_view());
            }
        }
        self.subscriptions = rest;
    }

    /// The numbers of the subscriptions whose query, or a condition of whose
    /// scope, refers to a table.
    pub fn subscriptions_for_table(&self, table: &str) -> (r: Vec<SubscriptionId>)
        ensures
            r.deep_view() == numbers(
                store_helpers::kept(self.deep_view().subscriptions, about(table@)),
            ),
    {
        let ghost all = self.subscriptions.deep_view();
        let ghost p = about(table@);
        let mut out: Vec<SubscriptionId> = no_items();
        let mut i: usize = 0;
        proof {
            assert(numbers(store_helpers::kept(all.take(0), p)) =~= Seq::<nat>::empty());
        }
        while i < self.subscriptions.len()
            invariant
                i <= self.subscriptions.len(),
                all == self.subscriptions.deep_view(),
                p == about(table@),
                out.deep_view() == numbers(store_helpers::kept(all.take(i as int), p)),
            decreases self.subscriptions.len() - i,
        {
            let sub = &self.subscriptions[i];
            proof {
                assert(all.take(i + 1).drop_last() =~= all.take(i as int));
                assert(all.take(i + 1).last() == sub.deep_view());
            }
            if contains_text(&sub.narrowed_query().tables(), table) {
                push_back(&mut out, sub.id);
            }
            proof {
                assert(out.deep_view() =~= numbers(store_helpers::kept(all.take(i + 1), p)));
            }
            i += 1;
        }
        proof {
            assert(all.take(i as int) =~= all);
        }
        out
    }

    /// The place of the first subscription of a number.
    fn position(&self, id: SubscriptionId) -> (r: Option<usize>)
        ensures
            match r {
                Some(i) => i < self.subscriptions.len() && found(
                    self.deep_view().subscriptions,
                    id.deep_view(),
                ) == Some(self.subscriptions@[i as int].deep_view()),
                None => found(self.deep_view().subscriptions, id.deep_view()) is None,
            },
    {
        let ghost all = self.subscriptions.deep_view();
        let mut i: usize = 0;
        proof {
            assert(all.skip(0) =~= all);
        }
        while i < self.subscriptions.len()
            invariant
                i <= self.subscriptions.len(),
                all == self.subscriptions.deep_view(),
                found(all, id.deep_view()) == found(all.skip(i as int), id.deep_view()),
            decreases self.subscriptions.len() - i,
        {
            proof {
                assert(all.skip(i as int)[0] == self.subscriptions@[i as int].deep_view());
                assert(all.skip(i as int).drop_first() =~= all.skip(i + 1));
            }
            if self.subscriptions[i].id.0 == id.0 {
                return Some(i);
            }
            i += 1;
        }
        None
    }

    /// The subscription of a number.
    pub fn get(&self, id: SubscriptionId) -> (r: Option<&QuerySubscription>)
        ensures
            r.deep_view() == found(self.deep_view().subscriptions, id.deep_view()),
    {
        match self.position(id) {
            Some(i) => Some(&self.subscriptions[i]),
            None => None,
        }
    }

    /// Keeps the last results of a subscription.
    pub fn update_last_results(&mut self, id: SubscriptionId, results: EngineResult)
        requires
            numbered(old(self).deep_view()),
        ensures
            final(self).deep_view() == (RegistryModel {
                subscriptions: results_updated(
                    old(self).deep_view().subscriptions,
                    id.deep_view(),
                    results.deep_view(),
                ),
                next_id: old(self).deep_view().next_id,
            }),
            numbered(final(self).deep_view()),
    {
        let ghost all = self.subscriptions.deep_view();
        let ghost n = id.deep_view();
        let ghost rows = results.deep_view();
        let mut i: usize = 0;
        while i < self.subscriptions.len()
            invariant
                i <= self.subscriptions.len(),
                all == self.subscriptions.deep_view(),
                n == id.deep_view(),
                forall|j: int| 0 <= j < i ==> (#[trigger] all[j]).id != n,
                numbered(self.deep_view()),
                numbered(old(self).deep_view()),
                rows == results.deep_view(),
                old(self).deep_view() == self.deep_view(),
            decreases self.subscriptions.len() - i,
        {
            assert(all[i as int] == self.subscriptions@[i as int].deep_view());
            if self.subscriptions[i].id.0 == id.0 {
                proof {
                    assert forall|j: int| 0 <= j < all.len() && j != i implies (
                    #[trigger] all[j]).id != n by {
                        if j < i {
                            assert(all[j].id != all[i as int].id);
                        } else {
                            assert(all[i as int].id != all[j].id);
                        }
                    }
                }
                let sub = &self.subscriptions[i];
                let mut changed = sub.duplicate();
                changed.last_results = Some(results);
                let ghost model = changed.deep_view();
                self.subscriptions.set(i, changed);
                proof {
                    assert(self.subscriptions.deep_view() =~= all.update(i as int, model));
                    assert(all.update(i as int, model) =~= results_updated(all, n, rows));
                }
                return ;
            }
            i += 1;
        }
        proof {
            assert(results_updated(all, n, rows) =~= all);
        }
    }

    /// The last results of a subscription.
    pub fn get_last_results(&self, id: SubscriptionId) -> (r: Option<EngineResult>)
        ensures
            r.deep_view() == match found(self.deep_view().subscriptions, id.deep_view()) {
                Some(s) => s.last_results,
                None => None,
            },
    {
        match self.position(id) {
            Some(i) => match &self.subscriptions[i].last_results {
                Some(results) => Some(results.duplicate()),
                None => None,
            },
            None => None,
        }
    }

    /// Forgets all subscriptions.
    pub fn clear(&mut self)
        ensures
            final(self).deep_view() == (RegistryModel {
                subscriptions: Seq::empty(),
                next_id: old(self).deep_view().next_id,
            }),
    {
        self.subscriptions = no_items();
    }

    /// The numbers of the subscriptions whose results a change may alter.
    pub fn affected_by_change(&self, event: &ChangeEvent) -> (r: Vec<SubscriptionId>)
        ensures
            r.deep_view() == numbers(
                store_helpers::kept(
                    self.deep_view().subscriptions,
                    affected_by(event.deep_view()),
                ),
            ),
    {
        let ghost all = self.subscriptions.deep_view();
        let ghost p = affected_by(event.deep_view());
        let mut out: Vec<SubscriptionId> = no_items();
        let mut i: usize = 0;
        proof {
            assert(numbers(store_helpers::kept(all.take(0), p)) =~= Seq::<nat>::empty());
        }
        while i < self.subscriptions.len()
            invariant
                i <= self.subscriptions.len(),
                all == self.subscriptions.deep_view(),
                p == affected_by(event.deep_view()),
                out.deep_view() == numbers(store_helpers::kept(all.take(i as int), p)),
            decreases self.subscriptions.len() - i,
        {
            let sub = &self.subscriptions[i];
            proof {
                assert(all.take(i + 1).drop_last() =~= all.take(i as int));
                assert(all.take(i + 1).last() == sub.deep_view());
            }
            if sub.is_altered_by(event) {
                push_back(&mut out, sub.id);
            }
            proof {
                assert(out.deep_view() =~= numbers(store_helpers::kept(all.take(i + 1), p)));
            }
            i += 1;
        }
        proof {
            assert(all.take(i as int) =~= all);
        }
        out
    }
}

proof fn lemma_kept_numbered(r: RegistryModel, id: nat)
    requires
        numbered(r),
    ensures
        numbered(
            RegistryModel {
                subscriptions: store_helpers::kept(r.subscriptions, numbered_otherwise(id)),
                next_id: r.next_id,
            },
        ),
    decreases r.subscriptions.len(),
{
    let list = r.subscriptions;
    let p = numbered_otherwise(id);
    let kept = store_helpers::kept(list, p);
    if list.len() > 0 {
        let shorter = RegistryModel { subscriptions: list.drop_last(), next_id: r.next_id };
        assert forall|i: int| 0 <= i < list.len() - 1 implies (
        #[trigger] shorter.subscriptions[i]).id < r.next_id by {
            assert(list[i].id < r.next_id);
        }
        assert forall|i: int, j: int| 0 <= i < j < list.len() - 1 implies (
        #[trigger] shorter.subscriptions[i]).id != (#[trigger] shorter.subscriptions[j]).id by {
            assert(list[i].id != list[j].id);
        }
        lemma_kept_numbered(shorter, id);
        let before = store_helpers::kept(list.drop_last(), p);
        assert forall|i: int| 0 <= i < before.len() implies (#[trigger] before[i]).id
            != list.last().id by {
            let at = store_helpers::lemma_kept_member(list.drop_last(), p, i);
            assert(list[at].id != list[list.len() - 1].id);
        }
        assert(list[list.len() - 1].id < r.next_id);
    }
}

/// Law: a subscription that ends at once leaves the others as they were.
pub proof fn law_unregister_undoes_register(r: RegistryModel, s: SubscriptionModel)
    requires
        numbered(r),
        s.id == r.next_id,
    ensures
        store_helpers::kept(r.subscriptions.push(s), numbered_otherwise(s.id)) == r.subscriptions,
{
    let longer = r.subscriptions.push(s);
    let p = numbered_otherwise(s.id);
    assert(longer.drop_last() =~= r.subscriptions);
    assert forall|i: int| 0 <= i < r.subscriptions.len() implies p(
        #[trigger] r.subscriptions[i],
    ) by {
        assert(r.subscriptions[i].id < r.next_id);
    }
    store_helpers::lemma_kept_all(r.subscriptions, p);
}

proof fn lemma_kept_ids(list: Seq<SubscriptionModel>, id: nat)
    ensures
        forall|i: int|
            0 <= i < store_helpers::kept(list, numbered_otherwise(id)).len()
                ==> (#[trigger] store_helpers::kept(list, numbered_otherwise(id))[i]).id != id,
    decreases list.len(),
{
    if list.len() > 0 {
        lemma_kept_ids(list.drop_last(), id);
    }
}

proof fn lemma_not_found(list: Seq<SubscriptionModel>, id: nat)
    requires
        forall|i: int| 0 <= i < list.len() ==> (#[trigger] list[i]).id != id,
    ensures
        found(list, id) is None,
    decreases list.len(),
{
    if list.len() > 0 {
        let rest = list.drop_first();
        assert(list[0].id != id);
        assert forall|i: int| 0 <= i < rest.len() implies (#[trigger] rest[i]).id != id by {
            assert(rest[i] == list[i + 1]);
        }
        lemma_not_found(rest, id);
    }
}

/// Law: a subscription that has ended is not found again.
pub proof fn law_unregistered_is_gone(list: Seq<SubscriptionModel>, id: nat)
    ensures
        found(store_helpers::kept(list, numbered_otherwise(id)), id) is None,
{
    lemma_kept_ids(list, id);
    lemma_not_found(store_helpers::kept(list, numbered_otherwise(id)), id);
}

/// Subscriptions whose results are to be computed again, each once.
pub struct SubscriptionBatch {
    invalidated: Vec<SubscriptionId>,
}

impl DeepView for SubscriptionBatch {
    type V = Seq<nat>;

    closed spec fn deep_view(&self) -> Seq<nat> {
        self.invalidated.deep_view()
    }
}

impl SubscriptionBatch {
    /// A batch without subscriptions.
    pub fn new() -> (r: SubscriptionBatch)
        ensures
            r.deep_view() == Seq::<nat>::empty(),
    {
        SubscriptionBatch { invalidated: no_items() }
    }

    /// Adds a subscription, unless it is there.
    pub fn invalidate(&mut self, id: SubscriptionId)
        ensures
            final(self).deep_view() == if old(self).deep_view().contains(id.deep_view()) {
                old(self).deep_view()
            } else {
                old(self).deep_view().push(id.deep_view())
            },
    {
        let ghost all = self.invalidated.deep_view();
        let mut i: usize = 0;
        while i < self.invalidated.len()
            invariant
                i <= self.invalidated.len(),
                all == self.invalidated.deep_view(),
                old(self).deep_view() == all,
                forall|j: int| 0 <= j < i ==> (#[trigger] all[j]) != id.deep_view(),
            decreases self.invalidated.len() - i,
        {
            assert(all[i as int] == self.invalidated@[i as int].deep_view());
            if self.invalidated[i].0 == id.0 {
                assert(all.contains(id.deep_view()));
                return ;
            }
            i += 1;
        }
        push_back(&mut self.invalidated, id);
    }

    /// Hands the subscriptions out.
    pub fn take_invalidated(&mut self) -> (r: Vec<SubscriptionId>)
        ensures
            r.deep_view() == old(self).deep_view(),
            final(self).deep_view() == Seq::<nat>::empty(),
    {
        let mut taken: Vec<SubscriptionId> = no_items();
        std::mem::swap(&mut taken, &mut self.invalidated);
        taken
    }
}

} // verus!
