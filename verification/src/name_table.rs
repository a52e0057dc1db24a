//! A table from names to values, kept as a list of entries.
use vstd::prelude::*;
use crate::plain::{no_items, push_back, same_text, Plain};

verus! {

/// The map that a list of entries stands for: of two entries with one key the
/// first counts.
pub open spec fn first_map<K, A>(entries: Seq<(K, A)>) -> Map<K, A>
    decreases entries.len(),
{
    if entries.len() == 0 {
        Map::empty()
    } else {
        first_map(entries.drop_first()).insert(entries[0].0, entries[0].1)
    }
}

/// The value of a key is that of its first entry.
pub proof fn lemma_first_map_at<K, A>(entries: Seq<(K, A)>, at: int)
    requires
        0 <= at < entries.len(),
        forall|j: int| 0 <= j < at ==> (#[trigger] entries[j]).0 != entries[at].0,
    ensures
        first_map(entries).contains_key(entries[at].0),
        first_map(entries)[entries[at].0] == entries[at].1,
    decreases entries.len(),
{
    if at > 0 {
        let rest = entries.drop_first();
        assert forall|j: int| 0 <= j < at - 1 implies (#[trigger] rest[j]).0 != rest[at - 1].0 by {
            assert(rest[j] == entries[j + 1]);
        }
        assert(entries[0].0 != entries[at].0);
        lemma_first_map_at(rest, at - 1);
    }
}

/// A key without an entry is not in the map.
pub proof fn lemma_first_map_absent<K, A>(entries: Seq<(K, A)>, key: K)
    requires
        forall|j: int| 0 <= j < entries.len() ==> (#[trigger] entries[j]).0 != key,
    ensures
        !first_map(entries).contains_key(key),
    decreases entries.len(),
{
    if entries.len() > 0 {
        let rest = entries.drop_first();
        assert forall|j: int| 0 <= j < rest.len() implies (#[trigger] rest[j]).0 != key by {
            assert(rest[j] == entries[j + 1]);
        }
        assert(entries[0].0 != key);
        lemma_first_map_absent(rest, key);
    }
}

/// The key of an entry is in the map.
pub proof fn lemma_first_map_has<K, A>(entries: Seq<(K, A)>, at: int)
    requires
        0 <= at < entries.len(),
    ensures
        first_map(entries).contains_key(entries[at].0),
    decreases entries.len(),
{
    if at > 0 {
        assert(entries.drop_first()[at - 1] == entries[at]);
        lemma_first_map_has(entries.drop_first(), at - 1);
    }
}

/// Every key of the map has an entry.
pub proof fn lemma_first_map_entry<K, A>(entries: Seq<(K, A)>, key: K) -> (at: int)
    requires
        first_map(entries).contains_key(key),
    ensures
        0 <= at < entries.len(),
        entries[at].0 == key,
        first_map(entries)[key] == entries[at].1,
    decreases entries.len(),
{
    if entries[0].0 == key {
        0
    } else {
        lemma_first_map_entry(entries.drop_first(), key) + 1
    }
}

/// An entry with a new key, put at the end, adds that key.
pub proof fn lemma_first_map_push<K, A>(entries: Seq<(K, A)>, key: K, value: A)
    requires
        forall|j: int| 0 <= j < entries.len() ==> (#[trigger] entries[j]).0 != key,
    ensures
        first_map(entries.push((key, value))) == first_map(entries).insert(key, value),
    decreases entries.len(),
{
    let longer = entries.push((key, value));
    if entries.len() == 0 {
        assert(longer.drop_first() =~= entries);
    } else {
        let rest = entries.drop_first();
        assert(longer.drop_first() =~= rest.push((key, value)));
        assert forall|j: int| 0 <= j < rest.len() implies (#[trigger] rest[j]).0 != key by {
            assert(rest[j] == entries[j + 1]);
        }
        assert(entries[0].0 != key);
        lemma_first_map_push(rest, key, value);
    }
    assert(first_map(longer) =~= first_map(entries).insert(key, value));
}

/// Replacing the value of the first entry of a key changes that key alone.
pub proof fn lemma_first_map_update<K, A>(entries: Seq<(K, A)>, at: int, value: A)
    requires
        0 <= at < entries.len(),
        forall|j: int| 0 <= j < at ==> (#[trigger] entries[j]).0 != entries[at].0,
    ensures
        first_map(entries.update(at, (entries[at].0, value))) == first_map(entries).insert(
            entries[at].0,
            value,
        ),
    decreases entries.len(),
{
    let changed = entries.update(at, (entries[at].0, value));
    let rest = entries.drop_first();
    if at == 0 {
        assert(changed.drop_first() =~= rest);
    } else {
        assert(changed.drop_first() =~= rest.update(at - 1, (rest[at - 1].0, value)));
        assert forall|j: int| 0 <= j < at - 1 implies (#[trigger] rest[j]).0 != rest[at - 1].0 by {
            assert(rest[j] == entries[j + 1]);
        }
        assert(entries[0].0 != entries[at].0);
        lemma_first_map_update(rest, at - 1, value);
    }
    assert(first_map(changed) =~= first_map(entries).insert(entries[at].0, value));
}

/// A table from names to values.
#[derive(Clone, Debug)]
pub struct NameTable<V> {
    entries: Vec<(String, V)>,
}

impl<V: DeepView> DeepView for NameTable<V> {
    type V = Map<Seq<char>, V::V>;

    closed spec fn deep_view(&self) -> Map<Seq<char>, V::V> {
        first_map(self.entries.deep_view())
    }
}

impl<V: DeepView> NameTable<V> {
    /// A table without names.
    pub fn new() -> (r: NameTable<V>)
        ensures
            r.deep_view() == Map::<Seq<char>, V::V>::empty(),
    {
        NameTable { entries: no_items() }
    }

    fn position(&self, name: &str) -> (r: Option<usize>)
        ensures
            match r {
                Some(i) => i < self.entries.len() && self.entries@[i as int].0@ == name@
                    && forall|j: int|
                    0 <= j < i ==> (#[trigger] self.entries.deep_view()[j]).0 != name@,
                None => forall|j: int|
                    0 <= j < self.entries.len() ==> (#[trigger] self.entries.deep_view()[j]).0
                        != name@,
            },
    {
        let mut i: usize = 0;
        while i < self.entries.len()
            invariant
                i <= self.entries.len(),
                forall|j: int| 0 <= j < i ==> (#[trigger] self.entries.deep_view()[j]).0 != name@,
            decreases self.entries.len() - i,
        {
            if same_text(self.entries[i].0.as_str(), name) {
                return Some(i);
            }
            assert(self.entries.deep_view()[i as int].0 == self.entries@[i as int].0@);
            i += 1;
        }
        None
    }

    /// The value under a name.
    pub fn get(&self, name: &str) -> (r: Option<&V>)
        ensures
            match r {
                Some(v) => self.deep_view().contains_key(name@) && v.deep_view()
                    == self.deep_view()[name@],
                None => !self.deep_view().contains_key(name@),
            },
    {
        match self.position(name) {
            Some(i) => {
                proof {
                    lemma_first_map_at(self.entries.deep_view(), i as int);
                }
                Some(&self.entries[i].1)
            },
            None => {
                proof {
                    lemma_first_map_absent(self.entries.deep_view(), name@);
                }
                None
            },
        }
    }

    /// Whether there is a value under a name.
    pub fn contains_key(&self, name: &str) -> (r: bool)
        ensures
            r == self.deep_view().contains_key(name@),
    {
        self.get(name).is_some()
    }

    /// The names of the table.
    pub fn names(&self) -> (r: Vec<String>)
        ensures
            forall|name: Seq<char>| #[trigger]
                self.deep_view().contains_key(name) <==> r.deep_view().contains(name),
    {
        let ghost all = self.entries.deep_view();
        let mut out: Vec<String> = no_items();
        let mut i: usize = 0;
        while i < self.entries.len()
            invariant
                i <= self.entries.len(),
                all == self.entries.deep_view(),
                out.len() == i,
                forall|j: int| 0 <= j < i ==> #[trigger] out.deep_view()[j] == all[j].0,
            decreases self.entries.len() - i,
        {
            assert(all[i as int].0 == self.entries@[i as int].0@);
            push_back(&mut out, self.entries[i].0.clone());
            i += 1;
        }
        proof {
            let names = out.deep_view();
            assert forall|name: Seq<char>| #[trigger]
                self.deep_view().contains_key(name) <==> names.contains(name) by {
                if self.deep_view().contains_key(name) {
                    let at = lemma_first_map_entry(all, name);
                    assert(names[at] == name);
                }
                if names.contains(name) {
                    let j = choose|j: int| 0 <= j < names.len() && names[j] == name;
                    assert(all[j].0 == name);
                    if !first_map(all).contains_key(all[j].0) {
                        lemma_first_map_has(all, j);
                    }
                }
            }
        }
        out
    }

    /// Puts a value under a name, in place of what was there.
    pub fn insert(&mut self, name: String, value: V)
        ensures
            final(self).deep_view() == old(self).deep_view().insert(name@, value.deep_view()),
    {
        match self.position(name.as_str()) {
            Some(i) => {
                let ghost before = self.entries.deep_view();
                let ghost v = value.deep_view();
                proof {
                    lemma_first_map_update(before, i as int, v);
                }
                self.entries.set(i, (name, value));
                proof {
                    assert(self.entries.deep_view() =~= before.update(i as int, (name@, v)));
                }
            },
            None => {
                proof {
                    lemma_first_map_push(self.entries.deep_view(), name@, value.deep_view());
                }
                push_back(&mut self.entries, (name, value));
            },
        }
    }
}

impl<V: Plain> NameTable<V> {
    /// A copy of the table.
    pub fn duplicate(&self) -> (r: NameTable<V>)
        ensures
            r.deep_view() == self.deep_view(),
    {
        NameTable { entries: self.entries.duplicate() }
    }
}

} // verus!
