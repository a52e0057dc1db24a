//! Trees in memory: one tree, and trees by name.
use vstd::prelude::*;
use crate::error::BTreeError;
use crate::name_table;
use crate::order::{self, Comparison};
use crate::ordered_map::{self, in_range, KeyBound, OrderedKey, SortedMap};
use crate::patch::{
    self, commit_patch_into_map, get_from_patch_then_map, merge_patch_range,
    remove_from_patch_then_map, TransactionEntry, TransactionPatch,
};
use crate::plain::{no_items, push_back, same_text, Plain};

verus! {

/// A tree in memory.
pub struct InMemoryBTree<K: OrderedKey, V: DeepView> {
    map: SortedMap<K, V>,
}

impl<K: OrderedKey, V: DeepView> DeepView for InMemoryBTree<K, V> {
    type V = Map<K::V, V::V>;

    closed spec fn deep_view(&self) -> Map<K::V, V::V> {
        self.map.deep_view()
    }
}

impl<K: OrderedKey, V: Plain> InMemoryBTree<K, V> {
    pub fn new() -> (r: InMemoryBTree<K, V>)
        ensures
            r.deep_view() == Map::<K::V, V::V>::empty(),
    {
        InMemoryBTree { map: SortedMap::new() }
    }

    /// A tree with the entries of a map.
    pub fn with_map(map: SortedMap<K, V>) -> (r: InMemoryBTree<K, V>)
        ensures
            r.deep_view() == map.deep_view(),
    {
        InMemoryBTree { map }
    }

    /// The value of a key.
    pub fn get(&self, key: &K) -> (r: Result<Option<V>, BTreeError>)
        ensures
            r is Ok,
            r->Ok_0.deep_view() == patch::lookup(self.deep_view(), key.deep_view()),
    {
        match self.map.get(key) {
            Some(v) => Ok(Some(v.duplicate())),
            None => Ok(None),
        }
    }

    /// Gives a key a value.
    pub fn insert(&mut self, key: K, value: V) -> (r: Result<(), BTreeError>)
        ensures
            r is Ok,
            final(self).deep_view() == old(self).deep_view().insert(
                key.deep_view(),
                value.deep_view(),
            ),
    {
        self.map.insert(key, value);
        Ok(())
    }

    /// Takes a key out.
    pub fn remove(&mut self, key: &K) -> (r: Result<Option<V>, BTreeError>)
        ensures
            r is Ok,
            r->Ok_0.deep_view() == patch::lookup(old(self).deep_view(), key.deep_view()),
            final(self).deep_view() == old(self).deep_view().remove(key.deep_view()),
    {
        Ok(self.map.remove(key))
    }

    /// The entries with keys in a range, in order.
    pub fn range(&self, lower: &KeyBound<K>, upper: &KeyBound<K>) -> (r: Result<
        Vec<(K, V)>,
        BTreeError,
    >)
        requires
            ordered_map::in_order(lower.deep_view(), upper.deep_view(), K::before()),
        ensures
            r is Ok,
            r->Ok_0.deep_view() == ordered_map::listing(
                ordered_map::between(
                    self.deep_view(),
                    lower.deep_view(),
                    upper.deep_view(),
                    K::before(),
                ),
                K::before(),
            ),
    {
        Ok(self.map.range(lower, upper))
    }

    /// Begins a transaction. It sees the tree as it is, and changes it on commit.
    pub fn transaction(&mut self) -> (r: Result<InMemoryBTreeTransaction<'_, K, V>, BTreeError>)
        ensures
            r is Ok,
            *r->Ok_0.inner == *old(self),
            *final(self) == *final(r->Ok_0.inner),
            r->Ok_0.patch.deep_view() == Map::<K::V, Option<V::V>>::empty(),
    {
        Ok(InMemoryBTreeTransaction { inner: self, patch: TransactionPatch::new() })
    }
}

/// A transaction on a tree in memory.
pub struct InMemoryBTreeTransaction<'a, K: OrderedKey, V: DeepView> {
    pub inner: &'a mut InMemoryBTree<K, V>,
    pub patch: TransactionPatch<K, V>,
}

impl<'a, K: OrderedKey, V: Plain> InMemoryBTreeTransaction<'a, K, V> {
    /// What the transaction sees.
    pub open spec fn contents(&self) -> Map<K::V, V::V> {
        patch::patched(self.inner.deep_view(), self.patch.deep_view())
    }

    /// The value of a key.
    pub fn get(&self, key: &K) -> (r: Result<Option<V>, BTreeError>)
        ensures
            r is Ok,
            r->Ok_0.deep_view() == patch::lookup(self.contents(), key.deep_view()),
    {
        Ok(get_from_patch_then_map(&self.patch, &self.inner.map, key))
    }

    /// Gives a key a value.
    pub fn insert(&mut self, key: K, value: V) -> (r: Result<(), BTreeError>)
        ensures
            r is Ok,
            final(self).contents() == old(self).contents().insert(
                key.deep_view(),
                value.deep_view(),
            ),
            *final(self).inner == *old(self).inner,
            *final(final(self).inner) == *final(old(self).inner),
    {
        proof {
            patch::lemma_patched_insert(
                self.inner.deep_view(),
                self.patch.deep_view(),
                key.deep_view(),
                value.deep_view(),
            );
        }
        self.patch.insert(key, value);
        Ok(())
    }

    /// Takes a key out.
    pub fn remove(&mut self, key: &K) -> (r: Result<Option<V>, BTreeError>)
        ensures
            r is Ok,
            r->Ok_0.deep_view() == patch::removed_value(
                old(self).inner.deep_view(),
                old(self).patch.deep_view(),
                key.deep_view(),
            ),
            final(self).contents() == old(self).contents().remove(key.deep_view()),
            *final(self).inner == *old(self).inner,
            *final(final(self).inner) == *final(old(self).inner),
    {
        proof {
            patch::law_remove_takes_out(
                self.inner.deep_view(),
                self.patch.deep_view(),
                key.deep_view(),
            );
        }
        Ok(remove_from_patch_then_map(&mut self.patch, &self.inner.map, key))
    }

    /// The entries with keys in a range, in order.
    pub fn range(&self, lower: &KeyBound<K>, upper: &KeyBound<K>) -> (r: Result<
        Vec<(K, V)>,
        BTreeError,
    >)
        requires
            ordered_map::in_order(lower.deep_view(), upper.deep_view(), K::before()),
        ensures
            r is Ok,
            r->Ok_0.deep_view() == ordered_map::listing(
                ordered_map::between(
                    self.contents(),
                    lower.deep_view(),
                    upper.deep_view(),
                    K::before(),
                ),
                K::before(),
            ),
    {
        Ok(merge_patch_range(&self.patch, &self.inner.map, lower, upper))
    }

    /// Makes the changes: the tree holds what the transaction saw.
    pub fn commit(self) -> (r: Result<(), BTreeError>)
        ensures
            r is Ok,
            final(self.inner).deep_view() == self.contents(),
    {
        commit_patch_into_map(self.patch, &mut self.inner.map);
        Ok(())
    }

    /// Drops the changes: the tree stays as it was.
    pub fn rollback(self) -> (r: Result<(), BTreeError>)
        ensures
            r is Ok,
            *final(self.inner) == *old(self.inner),
    {
        Ok(())
    }
}

/// A key of one of several trees.
pub struct TreeKey<K> {
    pub tree: String,
    pub key: K,
}

impl<K: DeepView> DeepView for TreeKey<K> {
    type V = (Seq<char>, K::V);

    open spec fn deep_view(&self) -> (Seq<char>, K::V) {
        (self.tree@, self.key.deep_view())
    }
}

impl<K: Plain> Plain for TreeKey<K> {
    fn duplicate(&self) -> (r: Self) {
        TreeKey { tree: self.tree.clone(), key: self.key.duplicate() }
    }

    fn same(&self, other: &Self) -> (r: bool) {
        same_text(self.tree.as_str(), other.tree.as_str()) && self.key.same(&other.key)
    }
}

/// Tree by tree, and in a tree by the key.
pub open spec fn tree_before<K>(before: spec_fn(K, K) -> bool) -> spec_fn(
    (Seq<char>, K),
    (Seq<char>, K),
) -> bool {
    |a: (Seq<char>, K), b: (Seq<char>, K)|
        ordered_map::text_before()(a.0, b.0) || (a.0 == b.0 && before(a.1, b.1))
}

impl<K: OrderedKey> OrderedKey for TreeKey<K> {
    open spec fn before() -> spec_fn((Seq<char>, K::V), (Seq<char>, K::V)) -> bool {
        tree_before(K::before())
    }

    proof fn before_total() {
        K::before_total();
        String::before_total();
        let t = ordered_map::text_before();
        let k = K::before();
        let l = tree_before(k);
        assert forall|a: (Seq<char>, K::V), b: (Seq<char>, K::V), c: (Seq<char>, K::V)|
            #[trigger] l(a, b) && #[trigger] l(b, c) implies l(a, c) by {
            if t(a.0, b.0) && t(b.0, c.0) {
                assert(t(a.0, c.0));
            } else if a.0 == b.0 && b.0 == c.0 && k(a.1, b.1) && k(b.1, c.1) {
                assert(k(a.1, c.1));
            }
        }
        assert forall|a: (Seq<char>, K::V)| !(#[trigger] l(a, a)) by {
            assert(!t(a.0, a.0));
            assert(!k(a.1, a.1));
        }
        assert forall|a: (Seq<char>, K::V), b: (Seq<char>, K::V)| a != b implies #[trigger] l(a, b)
            || l(b, a) by {
            if a.0 != b.0 {
                assert(t(a.0, b.0) || t(b.0, a.0));
            } else {
                assert(k(a.1, b.1) || k(b.1, a.1));
            }
        }
    }

    fn compare_key(&self, other: &Self) -> (c: Comparison) {
        proof {
            String::before_total();
            let t = ordered_map::text_before();
            assert(!t(self.tree@, self.tree@));
            assert(t(self.tree@, other.tree@) && t(other.tree@, self.tree@) ==> t(
                self.tree@,
                self.tree@,
            ));
        }
        match self.tree.compare_key(&other.tree) {
            Comparison::Equal => self.key.compare_key(&other.key),
            c => c,
        }
    }
}

/// One of several trees.
pub open spec fn tree_map<K, A>(m: Map<(Seq<char>, K), A>, tree: Seq<char>) -> Map<K, A> {
    Map::new(|k: K| m.contains_key((tree, k)), |k: K| m[(tree, k)])
}

/// The entries of one tree with keys in a range, in order.
pub open spec fn tree_range<K, A>(
    m: Map<(Seq<char>, K), A>,
    tree: Seq<char>,
    lower: KeyBound<K>,
    upper: KeyBound<K>,
    before: spec_fn(K, K) -> bool,
) -> Seq<(K, A)> {
    ordered_map::listing(
        ordered_map::between(tree_map(m, tree), lower, upper, before),
        before,
    )
}

/// The entries of one tree with keys in a range, in order.
pub fn read_tree_range<K: OrderedKey, V: Plain>(
    map: &SortedMap<TreeKey<K>, V>,
    tree: &str,
    lower: &KeyBound<K>,
    upper: &KeyBound<K>,
) -> (r: Vec<(K, V)>)
    ensures
        r.deep_view() == tree_range(
            map.deep_view(),
            tree@,
            lower.deep_view(),
            upper.deep_view(),
            K::before(),
        ),
        ordered_map::lists(
            r.deep_view(),
            ordered_map::between(
                tree_map(map.deep_view(), tree@),
                lower.deep_view(),
                upper.deep_view(),
                K::before(),
            ),
            K::before(),
        ),
{
    let entries = map.entries();
    let ghost name = tree@;
    let ghost before = K::before();
    let ghost flat = TreeKey::<K>::before();
    let ghost all = entries.deep_view();
    let ghost low = lower.deep_view();
    let ghost high = upper.deep_view();
    let mut out: Vec<(K, V)> = no_items();
    let mut i: usize = 0;
    proof {
        K::before_total();
        String::before_total();
        TreeKey::<K>::before_total();
        assert(!ordered_map::text_before()(name, name));
        assert(name_table::first_map(out.deep_view()) =~= ordered_map::between(
            tree_map(name_table::first_map(all.take(0)), name),
            low,
            high,
            before,
        ));
    }
    while i < entries.len()
        invariant
            i <= entries.len(),
            all == entries.deep_view(),
            name == tree@,
            before == K::before(),
            flat == tree_before(before),
            low == lower.deep_view(),
            high == upper.deep_view(),
            order::strict_total(before),
            order::strict_total(flat),
            !ordered_map::text_before()(name, name),
            ordered_map::ascending(all, flat),
            ordered_map::ascending(out.deep_view(), before),
            forall|j: int|
                0 <= j < out.len() && i < all.len() ==> flat(
                    (name, (#[trigger] out.deep_view()[j]).0),
                    all[i as int].0,
                ),
            name_table::first_map(out.deep_view()) == ordered_map::between(
                tree_map(name_table::first_map(all.take(i as int)), name),
                low,
                high,
                before,
            ),
        decreases entries.len() - i,
    {
        let entry = &entries[i];
        let ghost k = entry.0.key.deep_view();
        let ghost v = entry.1.deep_view();
        let ghost so_far = out.deep_view();
        let ghost first = name_table::first_map(all.take(i as int));
        let ghost more = name_table::first_map(all.take(i + 1));
        proof {
            assert(all[i as int] == (entry.0.deep_view(), v));
            patch::lemma_take_step(all, i as int, flat);
        }
        if same_text(entry.0.tree.as_str(), tree) && in_range(&entry.0.key, lower, upper) {
            proof {
                assert forall|j: int| 0 <= j < so_far.len() implies before(
                    (#[trigger] so_far[j]).0,
                    k,
                ) by {
                    assert(flat((name, so_far[j].0), all[i as int].0));
                }
                ordered_map::lemma_ascending_push(so_far, k, v, before);
            }
            push_back(&mut out, (entry.0.key.duplicate(), entry.1.duplicate()));
            proof {
                assert(out.deep_view() == so_far.push((k, v)));
                assert(name_table::first_map(out.deep_view()) =~= ordered_map::between(
                    tree_map(more, name),
                    low,
                    high,
                    before,
                ));
            }
        } else {
            proof {
                assert(ordered_map::between(tree_map(more, name), low, high, before)
                    =~= ordered_map::between(tree_map(first, name), low, high, before));
            }
        }
        proof {
            if i + 1 < all.len() {
                assert(flat(all[i as int].0, all[i + 1].0));
                assert forall|j: int| 0 <= j < out.len() implies flat(
                    (name, (#[trigger] out.deep_view()[j]).0),
                    all[i + 1].0,
                ) by {
                    if j < so_far.len() {
                        assert(out.deep_view()[j] == so_far[j]);
                        assert(flat((name, so_far[j].0), all[i as int].0));
                    }
                }
            }
        }
        i += 1;
    }
    proof {
        assert(all.take(i as int) =~= all);
        ordered_map::lemma_is_listing(
            out.deep_view(),
            ordered_map::between(tree_map(map.deep_view(), name), low, high, before),
            before,
        );
    }
    out
}

/// Trees by name, in memory. A tree of which nothing is known is empty.
pub struct InMemoryNamedBTree<K: OrderedKey, V: DeepView> {
    map: SortedMap<TreeKey<K>, V>,
}

impl<K: OrderedKey, V: DeepView> DeepView for InMemoryNamedBTree<K, V> {
    type V = Map<(Seq<char>, K::V), V::V>;

    closed spec fn deep_view(&self) -> Map<(Seq<char>, K::V), V::V> {
        self.map.deep_view()
    }
}

impl<K: OrderedKey, V: Plain> InMemoryNamedBTree<K, V> {
    pub fn new() -> (r: InMemoryNamedBTree<K, V>)
        ensures
            r.deep_view() == Map::<(Seq<char>, K::V), V::V>::empty(),
    {
        InMemoryNamedBTree { map: SortedMap::new() }
    }

    /// A handle of the tree of that name.
    pub fn get_tree(&self, name: &str) -> (r: Result<InMemoryNamedTree, BTreeError>)
        ensures
            r is Ok,
            r->Ok_0.name@ == name@,
    {
        Ok(InMemoryNamedTree { name: name.to_string() })
    }

    /// The value of a key of a tree.
    pub fn tree_get(&self, tree: &str, key: &K) -> (r: Option<V>)
        ensures
            r.deep_view() == patch::lookup(self.deep_view(), (tree@, key.deep_view())),
    {
        let at = TreeKey { tree: tree.to_string(), key: key.duplicate() };
        match self.map.get(&at) {
            Some(v) => Some(v.duplicate()),
            None => None,
        }
    }

    /// The entries of a tree with keys in a range, in order.
    pub fn tree_entries(&self, tree: &str, lower: &KeyBound<K>, upper: &KeyBound<K>) -> (r: Vec<
        (K, V),
    >)
        ensures
            r.deep_view() == tree_range(
                self.deep_view(),
                tree@,
                lower.deep_view(),
                upper.deep_view(),
                K::before(),
            ),
            ordered_map::lists(
                r.deep_view(),
                ordered_map::between(
                    tree_map(self.deep_view(), tree@),
                    lower.deep_view(),
                    upper.deep_view(),
                    K::before(),
                ),
                K::before(),
            ),
    {
        read_tree_range(&self.map, tree, lower, upper)
    }

    /// Makes the changes of a patch, all of them at once.
    pub fn apply(&mut self, changes: TransactionPatch<TreeKey<K>, V>)
        ensures
            final(self).deep_view() == patch::patched(old(self).deep_view(), changes.deep_view()),
    {
        commit_patch_into_map(changes, &mut self.map);
    }

    /// Begins a transaction over all trees.
    pub fn begin_transaction(&mut self) -> (r: Result<
        InMemoryNamedTransaction<'_, K, V>,
        BTreeError,
    >)
        ensures
            r is Ok,
            *r->Ok_0.inner == *old(self),
            *final(self) == *final(r->Ok_0.inner),
            r->Ok_0.patches.deep_view() == Map::<(Seq<char>, K::V), Option<V::V>>::empty(),
    {
        Ok(InMemoryNamedTransaction { inner: self, patches: TransactionPatch::new() })
    }
}

/// A transaction over trees by name: on commit its changes to all trees are
/// made at once.
pub struct InMemoryNamedTransaction<'a, K: OrderedKey, V: DeepView> {
    pub inner: &'a mut InMemoryNamedBTree<K, V>,
    pub patches: TransactionPatch<TreeKey<K>, V>,
}

impl<'a, K: OrderedKey, V: Plain> InMemoryNamedTransaction<'a, K, V> {
    /// What the transaction sees.
    pub open spec fn contents(&self) -> Map<(Seq<char>, K::V), V::V> {
        patch::patched(self.inner.deep_view(), self.patches.deep_view())
    }

    /// The value of a key of a tree.
    pub fn get(&self, tree: &str, key: &K) -> (r: Result<Option<V>, BTreeError>)
        ensures
            r is Ok,
            r->Ok_0.deep_view() == patch::lookup(self.contents(), (tree@, key.deep_view())),
    {
        let at = TreeKey { tree: tree.to_string(), key: key.duplicate() };
        Ok(get_from_patch_then_map(&self.patches, &self.inner.map, &at))
    }

    /// Gives a key of a tree a value.
    pub fn insert(&mut self, tree: &str, key: K, value: V) -> (r: Result<(), BTreeError>)
        ensures
            r is Ok,
            final(self).contents() == old(self).contents().insert(
                (tree@, key.deep_view()),
                value.deep_view(),
            ),
            *final(self).inner == *old(self).inner,
            *final(final(self).inner) == *final(old(self).inner),
    {
        proof {
            patch::lemma_patched_insert(
                self.inner.deep_view(),
                self.patches.deep_view(),
                (tree@, key.deep_view()),
                value.deep_view(),
            );
        }
        self.patches.insert(TreeKey { tree: tree.to_string(), key }, value);
        Ok(())
    }

    /// Takes a key out of a tree.
    pub fn remove(&mut self, tree: &str, key: &K) -> (r: Result<Option<V>, BTreeError>)
        ensures
            r is Ok,
            r->Ok_0.deep_view() == patch::removed_value(
                old(self).inner.deep_view(),
                old(self).patches.deep_view(),
                (tree@, key.deep_view()),
            ),
            final(self).contents() == old(self).contents().remove((tree@, key.deep_view())),
            *final(self).inner == *old(self).inner,
            *final(final(self).inner) == *final(old(self).inner),
    {
        proof {
            patch::law_remove_takes_out(
                self.inner.deep_view(),
                self.patches.deep_view(),
                (tree@, key.deep_view()),
            );
        }
        let at = TreeKey { tree: tree.to_string(), key: key.duplicate() };
        Ok(remove_from_patch_then_map(&mut self.patches, &self.inner.map, &at))
    }

    /// The entries of a tree with keys in a range, in order.
    pub fn range(&self, tree: &str, lower: &KeyBound<K>, upper: &KeyBound<K>) -> (r: Result<
        Vec<(K, V)>,
        BTreeError,
    >)
        requires
            ordered_map::in_order(lower.deep_view(), upper.deep_view(), K::before()),
        ensures
            r is Ok,
            r->Ok_0.deep_view() == tree_range(
                self.contents(),
                tree@,
                lower.deep_view(),
                upper.deep_view(),
                K::before(),
            ),
    {
        let mut merged = self.inner.map.duplicate();
        self.patches.duplicate().commit_into(&mut merged);
        Ok(read_tree_range(&merged, tree, lower, upper))
    }

    /// Makes the changes: the trees hold what the transaction saw.
    pub fn commit(self) -> (r: Result<(), BTreeError>)
        ensures
            r is Ok,
            final(self.inner).deep_view() == self.contents(),
    {
        self.inner.apply(self.patches);
        Ok(())
    }

    /// Drops the changes: the trees stay as they were.
    pub fn rollback(self) -> (r: Result<(), BTreeError>)
        ensures
            r is Ok,
            *final(self.inner) == *old(self.inner),
    {
        Ok(())
    }
}

/// A handle of one of the trees of an [`InMemoryNamedBTree`].
#[derive(Clone, Debug)]
pub struct InMemoryNamedTree {
    pub name: String,
}

impl InMemoryNamedTree {
    /// The value of a key.
    pub fn get<K: OrderedKey, V: Plain>(&self, trees: &InMemoryNamedBTree<K, V>, key: &K) -> (r:
        Result<Option<V>, BTreeError>)
        ensures
            r is Ok,
            r->Ok_0.deep_view() == patch::lookup(
                trees.deep_view(),
                (self.name@, key.deep_view()),
            ),
    {
        Ok(trees.tree_get(self.name.as_str(), key))
    }

    /// Gives a key a value.
    pub fn insert<K: OrderedKey, V: Plain>(
        &self,
        trees: &mut InMemoryNamedBTree<K, V>,
        key: K,
        value: V,
    ) -> (r: Result<(), BTreeError>)
        ensures
            r is Ok,
            final(trees).deep_view() == old(trees).deep_view().insert(
                (self.name@, key.deep_view()),
                value.deep_view(),
            ),
    {
        trees.map.insert(TreeKey { tree: self.name.clone(), key }, value);
        Ok(())
    }

    /// Takes a key out.
    pub fn remove<K: OrderedKey, V: Plain>(&self, trees: &mut InMemoryNamedBTree<K, V>, key: &K) -> (r:
        Result<Option<V>, BTreeError>)
        ensures
            r is Ok,
            r->Ok_0.deep_view() == patch::lookup(
                old(trees).deep_view(),
                (self.name@, key.deep_view()),
            ),
            final(trees).deep_view() == old(trees).deep_view().remove(
                (self.name@, key.deep_view()),
            ),
    {
        let at = TreeKey { tree: self.name.clone(), key: key.duplicate() };
        Ok(trees.map.remove(&at))
    }

    /// The entries with keys in a range, in order.
    pub fn range<K: OrderedKey, V: Plain>(
        &self,
        trees: &InMemoryNamedBTree<K, V>,
        lower: &KeyBound<K>,
        upper: &KeyBound<K>,
    ) -> (r: Result<Vec<(K, V)>, BTreeError>)
        requires
            ordered_map::in_order(lower.deep_view(), upper.deep_view(), K::before()),
        ensures
            r is Ok,
            r->Ok_0.deep_view() == tree_range(
                trees.deep_view(),
                self.name@,
                lower.deep_view(),
                upper.deep_view(),
                K::before(),
            ),
    {
        Ok(trees.tree_entries(self.name.as_str(), lower, upper))
    }

    /// Begins a transaction on this tree alone.
    pub fn transaction<K: OrderedKey, V: Plain>(&self) -> (r: Result<
        InMemoryNamedTreeTransaction<K, V>,
        BTreeError,
    >)
        ensures
            r is Ok,
            r->Ok_0.name@ == self.name@,
            r->Ok_0.patch.deep_view() == Map::<K::V, Option<V::V>>::empty(),
    {
        Ok(
            InMemoryNamedTreeTransaction {
                name: self.name.clone(),
                patch: TransactionPatch::new(),
            },
        )
    }
}

/// A transaction on one of the trees of an [`InMemoryNamedBTree`].
pub struct InMemoryNamedTreeTransaction<K: OrderedKey, V: DeepView> {
    pub name: String,
    pub patch: TransactionPatch<K, V>,
}

/// The changes of a patch, made to the tree of that name.
pub open spec fn named_patch<K, A>(tree: Seq<char>, changes: Map<K, Option<A>>) -> Map<
    (Seq<char>, K),
    Option<A>,
> {
    Map::new(
        |k: (Seq<char>, K)| k.0 == tree && changes.contains_key(k.1),
        |k: (Seq<char>, K)| changes[k.1],
    )
}

/// Law: what a transaction on one tree commits changes that tree as the patch
/// says, and no other.
pub proof fn law_tree_commit_is_scoped<K, A>(
    trees: Map<(Seq<char>, K), A>,
    name: Seq<char>,
    changes: Map<K, Option<A>>,
    other: Seq<char>,
)
    ensures
        tree_map(patch::patched(trees, named_patch(name, changes)), name) == patch::patched(
            tree_map(trees, name),
            changes,
        ),
        other != name ==> tree_map(patch::patched(trees, named_patch(name, changes)), other)
            == tree_map(trees, other),
{
    assert(tree_map(patch::patched(trees, named_patch(name, changes)), name) =~= patch::patched(
        tree_map(trees, name),
        changes,
    ));
    if other != name {
        assert(tree_map(patch::patched(trees, named_patch(name, changes)), other) =~= tree_map(
            trees,
            other,
        ));
    }
}

impl<K: OrderedKey, V: Plain> InMemoryNamedTreeTransaction<K, V> {
    /// The value of a key.
    pub fn get(&self, trees: &InMemoryNamedBTree<K, V>, key: &K) -> (r: Result<
        Option<V>,
        BTreeError,
    >)
        ensures
            r is Ok,
            r->Ok_0.deep_view() == patch::lookup(
                patch::patched(tree_map(trees.deep_view(), self.name@), self.patch.deep_view()),
                key.deep_view(),
            ),
    {
        match self.patch.get(key) {
            Some(TransactionEntry::Present(v)) => Ok(Some(v.duplicate())),
            Some(TransactionEntry::Deleted) => Ok(None),
            None => Ok(trees.tree_get(self.name.as_str(), key)),
        }
    }

    /// Gives a key a value.
    pub fn insert(&mut self, key: K, value: V) -> (r: Result<(), BTreeError>)
        ensures
            r is Ok,
            final(self).name == old(self).name,
            final(self).patch.deep_view() == old(self).patch.deep_view().insert(
                key.deep_view(),
                Some(value.deep_view()),
            ),
    {
        self.patch.insert(key, value);
        Ok(())
    }

    /// Takes a key out.
    pub fn remove(&mut self, trees: &InMemoryNamedBTree<K, V>, key: &K) -> (r: Result<
        Option<V>,
        BTreeError,
    >)
        ensures
            r is Ok,
            final(self).name == old(self).name,
            r->Ok_0.deep_view() == patch::removed_value(
                tree_map(trees.deep_view(), old(self).name@),
                old(self).patch.deep_view(),
                key.deep_view(),
            ),
            final(self).patch.deep_view() == patch::removed_patch(
                tree_map(trees.deep_view(), old(self).name@),
                old(self).patch.deep_view(),
                key.deep_view(),
            ),
    {
        let taken = self.patch.remove(key.duplicate());
        if taken.is_some() {
            return Ok(taken);
        }
        match trees.tree_get(self.name.as_str(), key) {
            Some(v) => {
                self.patch.delete(key.duplicate());
                Ok(Some(v))
            },
            None => Ok(None),
        }
    }

    /// The entries with keys in a range, in order.
    pub fn range(
        &self,
        trees: &InMemoryNamedBTree<K, V>,
        lower: &KeyBound<K>,
        upper: &KeyBound<K>,
    ) -> (r: Result<Vec<(K, V)>, BTreeError>)
        requires
            ordered_map::in_order(lower.deep_view(), upper.deep_view(), K::before()),
        ensures
            r is Ok,
            r->Ok_0.deep_view() == ordered_map::listing(
                ordered_map::between(
                    patch::patched(tree_map(trees.deep_view(), self.name@), self.patch.deep_view()),
                    lower.deep_view(),
                    upper.deep_view(),
                    K::before(),
                ),
                K::before(),
            ),
    {
        let whole = trees.tree_entries(
            self.name.as_str(),
            &KeyBound::Unbounded,
            &KeyBound::Unbounded,
        );
        proof {
            assert(ordered_map::between(
                tree_map(trees.deep_view(), self.name@),
                KeyBound::Unbounded,
                KeyBound::Unbounded,
                K::before(),
            ) =~= tree_map(trees.deep_view(), self.name@));
        }
        let base = map_of(&whole);
        Ok(merge_patch_range(&self.patch, &base, lower, upper))
    }

    /// Makes the changes to the tree.
    pub fn commit(self, trees: &mut InMemoryNamedBTree<K, V>) -> (r: Result<(), BTreeError>)
        ensures
            r is Ok,
            final(trees).deep_view() == patch::patched(
                old(trees).deep_view(),
                named_patch(self.name@, self.patch.deep_view()),
            ),
    {
        let changes = self.named();
        trees.apply(changes);
        Ok(())
    }

    /// Drops the changes.
    pub fn rollback(self) -> (r: Result<(), BTreeError>)
        ensures
            r is Ok,
    {
        Ok(())
    }

    /// The changes with the name of the tree at each key.
    fn named(&self) -> (r: TransactionPatch<TreeKey<K>, V>)
        ensures
            r.deep_view() == named_patch(self.name@, self.patch.deep_view()),
    {
        let entries = self.patch.entries();
        let ghost before = K::before();
        let ghost all = entries.deep_view();
        let mut out: TransactionPatch<TreeKey<K>, V> = TransactionPatch::new();
        let mut i: usize = 0;
        proof {
            K::before_total();
            assert(out.deep_view() =~= named_patch(
                self.name@,
                name_table::first_map(all.take(0)),
            ));
        }
        while i < entries.len()
            invariant
                i <= entries.len(),
                all == entries.deep_view(),
                before == K::before(),
                order::strict_total(before),
                ordered_map::ascending(all, before),
                out.deep_view() == named_patch(
                    self.name@,
                    name_table::first_map(all.take(i as int)),
                ),
            decreases entries.len() - i,
        {
            let entry = &entries[i];
            let ghost so_far = out.deep_view();
            proof {
                assert(all[i as int] == (entry.0.deep_view(), entry.1.deep_view()));
                patch::lemma_take_step(all, i as int, before);
            }
            let at = TreeKey { tree: self.name.clone(), key: entry.0.duplicate() };
            match &entry.1 {
                TransactionEntry::Present(v) => {
                    out.insert(at, v.duplicate());
                },
                TransactionEntry::Deleted => {
                    out.delete(at);
                },
            }
            proof {
                assert(out.deep_view() =~= named_patch(
                    self.name@,
                    name_table::first_map(all.take(i + 1)),
                ));
            }
            i += 1;
        }
        proof {
            assert(all.take(i as int) =~= all);
        }
        out
    }
}

/// The map of a list of entries in order.
pub fn map_of<K: OrderedKey, V: Plain>(entries: &Vec<(K, V)>) -> (r: SortedMap<K, V>)
    requires
        ordered_map::ascending(entries.deep_view(), K::before()),
    ensures
        r.deep_view() == name_table::first_map(entries.deep_view()),
{
    let ghost before = K::before();
    let ghost all = entries.deep_view();
    let mut map: SortedMap<K, V> = SortedMap::new();
    let mut i: usize = 0;
    proof {
        K::before_total();
        assert(all.take(0) =~= Seq::empty());
    }
    while i < entries.len()
        invariant
            i <= entries.len(),
            all == entries.deep_view(),
            before == K::before(),
            order::strict_total(before),
            ordered_map::ascending(all, before),
            map.deep_view() == name_table::first_map(all.take(i as int)),
        decreases entries.len() - i,
    {
        proof {
            assert(all[i as int] == (entries@[i as int].0.deep_view(), entries@[i as int].1.deep_view()));
            patch::lemma_take_step(all, i as int, before);
        }
        map.insert(entries[i].0.duplicate(), entries[i].1.duplicate());
        i += 1;
    }
    proof {
        assert(all.take(i as int) =~= all);
    }
    map
}

} // verus!
