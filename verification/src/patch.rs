//! Changes of a map that have not been made yet.
use vstd::prelude::*;
use crate::name_table;
use crate::order;
use crate::ordered_map::{self, KeyBound, OrderedKey, SortedMap};
use crate::plain::Plain;

verus! {

/// What a patch says of a key.
#[derive(Clone, Debug, PartialEq, Eq)]
pub enum TransactionEntry<V> {
    Present(V),
    Deleted,
}

impl<V: DeepView> DeepView for TransactionEntry<V> {
    type V = Option<V::V>;

    open spec fn deep_view(&self) -> Option<V::V> {
        match self {
            TransactionEntry::Present(v) => Some(v.deep_view()),
            TransactionEntry::Deleted => None,
        }
    }
}

impl<V: Plain> Plain for TransactionEntry<V> {
    fn duplicate(&self) -> (r: Self) {
        match self {
            TransactionEntry::Present(v) => TransactionEntry::Present(v.duplicate()),
            TransactionEntry::Deleted => TransactionEntry::Deleted,
        }
    }

    fn same(&self, other: &Self) -> (r: bool) {
        match (self, other) {
            (TransactionEntry::Present(a), TransactionEntry::Present(b)) => a.same(b),
            (TransactionEntry::Deleted, TransactionEntry::Deleted) => true,
            _ => false,
        }
    }
}

/// The changes that a transaction makes: for each key that it touches, the new
/// value or that the key is gone.
pub struct TransactionPatch<K: OrderedKey, V: DeepView> {
    entries: SortedMap<K, TransactionEntry<V>>,
}

impl<K: OrderedKey, V: DeepView> DeepView for TransactionPatch<K, V> {
    type V = Map<K::V, Option<V::V>>;

    closed spec fn deep_view(&self) -> Map<K::V, Option<V::V>> {
        self.entries.deep_view()
    }
}

/// A map with the changes of a patch.
pub open spec fn patched<K, A>(base: Map<K, A>, patch: Map<K, Option<A>>) -> Map<K, A> {
    Map::new(
        |k: K|
            if patch.contains_key(k) {
                patch[k] is Some
            } else {
                base.contains_key(k)
            },
        |k: K|
            if patch.contains_key(k) {
                patch[k]->Some_0
            } else {
                base[k]
            },
    )
}

/// The value of a key.
pub open spec fn lookup<K, A>(m: Map<K, A>, k: K) -> Option<A> {
    if m.contains_key(k) {
        Some(m[k])
    } else {
        None
    }
}

/// Law: a patch without entries changes nothing.
pub proof fn law_empty_patch<K, A>(base: Map<K, A>)
    ensures
        patched(base, Map::<K, Option<A>>::empty()) == base,
{
    assert(patched(base, Map::<K, Option<A>>::empty()) =~= base);
}

/// Law: what a patch says of a key is what is read of that key, and other keys
/// are read from beneath the patch.
pub proof fn law_read_your_writes<K, A>(base: Map<K, A>, patch: Map<K, Option<A>>, k: K, e: Option<A>)
    ensures
        lookup(patched(base, patch.insert(k, e)), k) == e,
        forall|q: K|
            q != k ==> #[trigger] lookup(patched(base, patch.insert(k, e)), q) == lookup(
                patched(base, patch),
                q,
            ),
{
}

/// A value that is put into a patch is put into the patched map.
pub proof fn lemma_patched_insert<K, A>(base: Map<K, A>, patch: Map<K, Option<A>>, k: K, v: A)
    ensures
        patched(base, patch.insert(k, Some(v))) == patched(base, patch).insert(k, v),
{
    assert(patched(base, patch.insert(k, Some(v))) =~= patched(base, patch).insert(k, v));
}

/// A key that a patch deletes is gone from the patched map.
pub proof fn lemma_patched_delete<K, A>(base: Map<K, A>, patch: Map<K, Option<A>>, k: K)
    ensures
        patched(base, patch.insert(k, None)) == patched(base, patch).remove(k),
{
    assert(patched(base, patch.insert(k, None)) =~= patched(base, patch).remove(k));
}

impl<K: OrderedKey, V: DeepView> TransactionPatch<K, V> {
    pub fn new() -> (r: TransactionPatch<K, V>)
        ensures
            r.deep_view() == Map::<K::V, Option<V::V>>::empty(),
    {
        TransactionPatch { entries: SortedMap::new() }
    }

    /// The entries in the order of their keys.
    pub fn entries(&self) -> (r: &Vec<(K, TransactionEntry<V>)>)
        ensures
            r.deep_view() == ordered_map::listing(self.deep_view(), K::before()),
            ordered_map::lists(r.deep_view(), self.deep_view(), K::before()),
    {
        self.entries.entries()
    }

    /// What the patch says of a key.
    pub fn get(&self, key: &K) -> (r: Option<&TransactionEntry<V>>)
        ensures
            match r {
                Some(e) => self.deep_view().contains_key(key.deep_view()) && e.deep_view()
                    == self.deep_view()[key.deep_view()],
                None => !self.deep_view().contains_key(key.deep_view()),
            },
    {
        self.entries.get(key)
    }

    /// Gives a key a value.
    pub fn insert(&mut self, key: K, value: V)
        ensures
            final(self).deep_view() == old(self).deep_view().insert(
                key.deep_view(),
                Some(value.deep_view()),
            ),
    {
        self.entries.insert(key, TransactionEntry::Present(value));
    }

    /// Deletes a key.
    pub fn delete(&mut self, key: K)
        ensures
            final(self).deep_view() == old(self).deep_view().insert(key.deep_view(), None),
    {
        self.entries.insert(key, TransactionEntry::Deleted);
    }
}

/// The value that a patch gives to a key.
pub open spec fn pending<K, A>(patch: Map<K, Option<A>>, k: K) -> Option<A> {
    if patch.contains_key(k) {
        patch[k]
    } else {
        None
    }
}

impl<K: OrderedKey, V: Plain> TransactionPatch<K, V> {
    /// A copy.
    pub fn duplicate(&self) -> (r: TransactionPatch<K, V>)
        ensures
            r.deep_view() == self.deep_view(),
    {
        TransactionPatch { entries: self.entries.duplicate() }
    }

    /// Deletes a key to which the patch gives a value, and gives that value.
    /// Other keys stay as they are.
    pub fn remove(&mut self, key: K) -> (r: Option<V>)
        ensures
            r.deep_view() == pending(old(self).deep_view(), key.deep_view()),
            final(self).deep_view() == match pending(old(self).deep_view(), key.deep_view()) {
                Some(_) => old(self).deep_view().insert(key.deep_view(), None),
                None => old(self).deep_view(),
            },
    {
        let value: Option<V> = match self.entries.get(&key) {
            Some(TransactionEntry::Present(v)) => Some(v.duplicate()),
            _ => None,
        };
        if value.is_some() {
            self.entries.insert(key, TransactionEntry::Deleted);
        }
        value
    }

    /// The value of a key in the patched map.
    pub fn get_base_value(&self, base: &SortedMap<K, V>, key: &K) -> (r: Option<V>)
        ensures
            r.deep_view() == lookup(
                patched(base.deep_view(), self.deep_view()),
                key.deep_view(),
            ),
    {
        match self.entries.get(key) {
            Some(TransactionEntry::Present(v)) => Some(v.duplicate()),
            Some(TransactionEntry::Deleted) => None,
            None => match base.get(key) {
                Some(v) => Some(v.duplicate()),
                None => None,
            },
        }
    }

    /// Makes the changes.
    pub fn commit_into(self, base: &mut SortedMap<K, V>)
        ensures
            final(base).deep_view() == patched(old(base).deep_view(), self.deep_view()),
    {
        let entries = self.entries.entries();
        let ghost before = K::before();
        let ghost start = base.deep_view();
        let ghost all = entries.deep_view();
        let mut i: usize = 0;
        proof {
            K::before_total();
            assert(start =~= patched(start, name_table::first_map(all.take(0))));
        }
        while i < entries.len()
            invariant
                i <= entries.len(),
                all == entries.deep_view(),
                before == K::before(),
                order::strict_total(before),
                ordered_map::ascending(all, before),
                base.deep_view() == patched(start, name_table::first_map(all.take(i as int))),
            decreases entries.len() - i,
        {
            let entry = &entries[i];
            let ghost k = entry.0.deep_view();
            let ghost e = entry.1.deep_view();
            let ghost so_far = name_table::first_map(all.take(i as int));
            proof {
                assert(all[i as int] == (k, e));
                lemma_take_step(all, i as int, before);
                if e is Some {
                    lemma_patched_insert(start, so_far, k, e->Some_0);
                } else {
                    lemma_patched_delete(start, so_far, k);
                }
            }
            match &entry.1 {
                TransactionEntry::Present(v) => {
                    base.insert(entry.0.duplicate(), v.duplicate());
                },
                TransactionEntry::Deleted => {
                    base.remove(&entry.0);
                },
            }
            i += 1;
        }
        proof {
            assert(all.take(i as int) =~= all);
        }
    }

    /// The entries of the patched map with keys in a range.
    pub fn merge_range(&self, base: &SortedMap<K, V>, lower: &KeyBound<K>, upper: &KeyBound<K>) -> (r:
        Vec<(K, V)>)
        ensures
            r.deep_view() == ordered_map::listing(
                ordered_map::between(
                    patched(base.deep_view(), self.deep_view()),
                    lower.deep_view(),
                    upper.deep_view(),
                    K::before(),
                ),
                K::before(),
            ),
    {
        let mut merged = base.duplicate();
        self.duplicate().commit_into(&mut merged);
        merged.range(lower, upper)
    }
}

/// One more entry of an ascending list adds its key to the map.
pub proof fn lemma_take_step<K, A>(s: Seq<(K, A)>, i: int, before: spec_fn(K, K) -> bool)
    requires
        order::strict_total(before),
        ordered_map::ascending(s, before),
        0 <= i < s.len(),
    ensures
        name_table::first_map(s.take(i + 1)) == name_table::first_map(s.take(i)).insert(
            s[i].0,
            s[i].1,
        ),
{
    let first = s.take(i);
    assert forall|j: int| 0 <= j < first.len() implies before((#[trigger] first[j]).0, s[i].0) by {
        assert(before(s[j].0, s[i].0));
    }
    ordered_map::lemma_ascending_push(first, s[i].0, s[i].1, before);
    assert(first.push((s[i].0, s[i].1)) =~= s.take(i + 1));
}

/// The value of a key in the patched map.
pub fn get_from_patch_then_map<K: OrderedKey, V: Plain>(
    patch: &TransactionPatch<K, V>,
    base: &SortedMap<K, V>,
    key: &K,
) -> (r: Option<V>)
    ensures
        r.deep_view() == lookup(patched(base.deep_view(), patch.deep_view()), key.deep_view()),
{
    patch.get_base_value(base, key)
}

/// What removing a key hands back: the value that the patch gives to it, else
/// the value beneath the patch.
pub open spec fn removed_value<K, A>(base: Map<K, A>, patch: Map<K, Option<A>>, k: K) -> Option<A> {
    match pending(patch, k) {
        Some(v) => Some(v),
        None => lookup(base, k),
    }
}

/// The patch after a key has been removed.
pub open spec fn removed_patch<K, A>(base: Map<K, A>, patch: Map<K, Option<A>>, k: K) -> Map<
    K,
    Option<A>,
> {
    if pending(patch, k) is Some || base.contains_key(k) {
        patch.insert(k, None)
    } else {
        patch
    }
}

/// Law: removing a key takes it out of the patched map, and nothing else.
pub proof fn law_remove_takes_out<K, A>(base: Map<K, A>, patch: Map<K, Option<A>>, k: K)
    ensures
        patched(base, removed_patch(base, patch, k)) == patched(base, patch).remove(k),
        pending(patch, k) is Some || !patch.contains_key(k) ==> removed_value(base, patch, k)
            == lookup(patched(base, patch), k),
{
    assert(patched(base, removed_patch(base, patch, k)) =~= patched(base, patch).remove(k));
}

/// Removes a key.
pub fn remove_from_patch_then_map<K: OrderedKey, V: Plain>(
    patch: &mut TransactionPatch<K, V>,
    base: &SortedMap<K, V>,
    key: &K,
) -> (r: Option<V>)
    ensures
        r.deep_view() == removed_value(
            base.deep_view(),
            old(patch).deep_view(),
            key.deep_view(),
        ),
        final(patch).deep_view() == removed_patch(
            base.deep_view(),
            old(patch).deep_view(),
            key.deep_view(),
        ),
{
    let taken = patch.remove(key.duplicate());
    if taken.is_some() {
        return taken;
    }
    match base.get(key) {
        Some(v) => {
            patch.delete(key.duplicate());
            Some(v.duplicate())
        },
        None => None,
    }
}

/// The entries of the patched map with keys in a range.
pub fn merge_patch_range<K: OrderedKey, V: Plain>(
    patch: &TransactionPatch<K, V>,
    base: &SortedMap<K, V>,
    lower: &KeyBound<K>,
    upper: &KeyBound<K>,
) -> (r: Vec<(K, V)>)
    ensures
        r.deep_view() == ordered_map::listing(
            ordered_map::between(
                patched(base.deep_view(), patch.deep_view()),
                lower.deep_view(),
                upper.deep_view(),
                K::before(),
            ),
            K::before(),
        ),
{
    patch.merge_range(base, lower, upper)
}

/// Makes the changes of a patch.
pub fn commit_patch_into_map<K: OrderedKey, V: Plain>(
    patch: TransactionPatch<K, V>,
    base: &mut SortedMap<K, V>,
)
    ensures
        final(base).deep_view() == patched(old(base).deep_view(), patch.deep_view()),
{
    patch.commit_into(base);
}

} // verus!
