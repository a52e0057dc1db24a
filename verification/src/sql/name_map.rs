//! Maps from names, on the hash map of the `hashbrown` crate.
use vstd::prelude::*;
use crate::name_table;
use crate::plain::{no_items, push_back};

verus! {

/// A `hashbrown::HashMap` from names to places in a list.
#[verifier::external_body]
pub struct NameIndex {
    map: hashbrown::HashMap<String, usize>,
}

/// The places that an index holds, by name.
pub uninterp spec fn indexed_places(index: NameIndex) -> Map<Seq<char>, usize>;

impl NameIndex {
    /// `hashbrown::HashMap::new`: the map holds nothing.
    #[verifier::external_body]
    fn new() -> (r: NameIndex)
        ensures
            indexed_places(r).dom() == Set::<Seq<char>>::empty(),
    {
        NameIndex { map: hashbrown::HashMap::new() }
    }

    /// `hashbrown::HashMap::insert`: the name has the place, whatever it had
    /// before, and no other name changes.
    #[verifier::external_body]
    fn insert(&mut self, name: String, place: usize)
        ensures
            indexed_places(*final(self)) == indexed_places(*old(self)).insert(name@, place),
    {
        self.map.insert(name, place);
    }

    /// `hashbrown::HashMap::get`: the place of a name that is there, `None`
    /// for one that is not.
    #[verifier::external_body]
    fn get(&self, name: &str) -> (r: Option<usize>)
        ensures
            match r {
                Some(place) => indexed_places(*self).contains_key(name@)
                    && indexed_places(*self)[name@] == place,
                None => !indexed_places(*self).contains_key(name@),
            },
    {
        self.map.get(name).copied()
    }
}

/// A map from names to values: the entries in the order in which their names
/// came, and the place of each name.
pub struct NameMap<V> {
    index: NameIndex,
    entries: Vec<(String, V)>,
}

impl<V> NameMap<V> {
    #[verifier::type_invariant]
    closed spec fn well_formed(&self) -> bool {
        &&& forall|name: Seq<char>| #[trigger]
            indexed_places(self.index).contains_key(name) ==> indexed_places(self.index)[name]
                < self.entries@.len() && self.entries@[indexed_places(
                self.index,
            )[name] as int].0@ == name
        &&& forall|i: int|
            0 <= i < self.entries@.len() ==> indexed_places(self.index).contains_key(
                (#[trigger] self.entries@[i]).0@,
            ) && indexed_places(self.index)[self.entries@[i].0@] == i
    }
}

impl<V: DeepView> DeepView for NameMap<V> {
    type V = Map<Seq<char>, V::V>;

    closed spec fn deep_view(&self) -> Map<Seq<char>, V::V> {
        name_table::first_map(self.entries.deep_view())
    }
}

impl<V: DeepView> NameMap<V> {
    /// A map without names.
    pub fn new() -> (r: NameMap<V>)
        ensures
            r.deep_view() == Map::<Seq<char>, V::V>::empty(),
    {
        NameMap { index: NameIndex::new(), entries: no_items() }
    }

    /// The value under a name.
    pub fn get(&self, name: &str) -> (r: Option<&V>)
        ensures
            match r {
                Some(v) => self.deep_view().contains_key(name@) && v.deep_view()
                    == self.deep_view()[name@],
                None => !self.deep_view().contains_key(name@),
            },
    {
        proof {
            use_type_invariant(self);
        }
        let ghost all = self.entries.deep_view();
        match self.index.get(name) {
            Some(i) => {
                proof {
                    assert forall|j: int| 0 <= j < i implies (#[trigger] all[j]).0
                        != all[i as int].0 by {
                        assert(self.entries@[j].0@ == all[j].0);
                    }
                    name_table::lemma_first_map_at(all, i as int);
                }
                Some(&self.entries[i].1)
            },
            None => {
                proof {
                    assert forall|j: int| 0 <= j < all.len() implies (#[trigger] all[j]).0
                        != name@ by {
                        assert(self.entries@[j].0@ == all[j].0);
                    }
                    name_table::lemma_first_map_absent(all, name@);
                }
                None
            },
        }
    }

    /// Puts a value under a name, in place of what was there.
    pub fn insert(&mut self, name: String, value: V)
        ensures
            final(self).deep_view() == old(self).deep_view().insert(name@, value.deep_view()),
    {
        let mut taken: NameMap<V> = NameMap::new();
        std::mem::swap(self, &mut taken);
        proof {
            use_type_invariant(&taken);
        }
        let NameMap { mut index, mut entries } = taken;
        let ghost all = entries.deep_view();
        let ghost listed = entries@;
        let ghost v = value.deep_view();
        match index.get(name.as_str()) {
            Some(i) => {
                proof {
                    assert forall|j: int| 0 <= j < i implies (#[trigger] all[j]).0
                        != all[i as int].0 by {
                        assert(listed[j].0@ == all[j].0);
                    }
                    name_table::lemma_first_map_update(all, i as int, v);
                }
                entries.set(i, (name, value));
                proof {
                    assert(entries.deep_view() =~= all.update(i as int, (name@, v)));
                }
            },
            None => {
                proof {
                    assert forall|j: int| 0 <= j < all.len() implies (#[trigger] all[j]).0
                        != name@ by {
                        assert(listed[j].0@ == all[j].0);
                    }
                    name_table::lemma_first_map_push(all, name@, v);
                }
                let place: usize = entries.len();
                index.insert(name.clone(), place);
                push_back(&mut entries, (name, value));
            },
        }
        proof {
            assert forall|i: int| 0 <= i < entries@.len() implies indexed_places(
                index,
            ).contains_key((#[trigger] entries@[i]).0@) && indexed_places(index)[entries@[i].0@]
                == i by {
                if i < listed.len() {
                    assert(indexed_places(index).contains_key(listed[i].0@));
                }
            }
        }
        *self = NameMap { index, entries };
    }

    /// The entries, each name once.
    pub fn entries(&self) -> (r: &Vec<(String, V)>)
        ensures
            name_table::first_map(r.deep_view()) == self.deep_view(),
            forall|i: int, j: int|
                0 <= i < j < r.len() ==> (#[trigger] r.deep_view()[i]).0 != (
                #[trigger] r.deep_view()[j]).0,
    {
        proof {
            use_type_invariant(self);
            let all = self.entries.deep_view();
            assert forall|i: int, j: int| 0 <= i < j < self.entries.len() implies (
            #[trigger] all[i]).0 != (#[trigger] all[j]).0 by {
                assert(self.entries@[i].0@ == all[i].0);
                assert(self.entries@[j].0@ == all[j].0);
            }
        }
        &self.entries
    }
}

} // verus!
