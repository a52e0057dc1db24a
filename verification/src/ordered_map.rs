//! Maps in the order of their keys.
use vstd::prelude::*;
use crate::name_table;
use crate::order::{self, compare_bytes, Comparison};
use crate::plain::{no_items, push_back, Plain};
use crate::value::{self, EngineKey, ValueModel};

verus! {

/// Keys with a total order.
pub trait OrderedKey: Plain {
    /// One key comes before another.
    spec fn before() -> spec_fn(<Self as DeepView>::V, <Self as DeepView>::V) -> bool;

    proof fn before_total()
        ensures
            order::strict_total(Self::before()),
    ;

    fn compare_key(&self, other: &Self) -> (c: Comparison)
        ensures
            c == order::comparison(self.deep_view(), other.deep_view(), Self::before()),
    ;
}

impl OrderedKey for u64 {
    open spec fn before() -> spec_fn(u64, u64) -> bool {
        |a: u64, b: u64| a < b
    }

    proof fn before_total() {
    }

    fn compare_key(&self, other: &Self) -> (c: Comparison) {
        if *self < *other {
            Comparison::Less
        } else if *other < *self {
            Comparison::Greater
        } else {
            Comparison::Equal
        }
    }
}

impl OrderedKey for EngineKey {
    open spec fn before() -> spec_fn(Seq<ValueModel>, Seq<ValueModel>) -> bool {
        value::key_less()
    }

    proof fn before_total() {
        value::law_value_order_total();
        order::law_lex_strict_total(value::value_less());
    }

    fn compare_key(&self, other: &Self) -> (c: Comparison) {
        self.compare(other)
    }
}

/// The order of texts by their UTF-8 bytes.
pub open spec fn text_before() -> spec_fn(Seq<char>, Seq<char>) -> bool {
    |a: Seq<char>, b: Seq<char>|
        order::lex(order::int_less())(
            order::byte_ints(vstd::utf8::encode_utf8(a)),
            order::byte_ints(vstd::utf8::encode_utf8(b)),
        )
}

/// Distinct texts have distinct bytes.
pub proof fn lemma_text_bytes_injective(a: Seq<char>, b: Seq<char>)
    requires
        order::byte_ints(vstd::utf8::encode_utf8(a)) == order::byte_ints(
            vstd::utf8::encode_utf8(b),
        ),
    ensures
        a == b,
{
    order::lemma_byte_ints_injective(vstd::utf8::encode_utf8(a), vstd::utf8::encode_utf8(b));
    vstd::utf8::encode_utf8_decode_utf8(a);
    vstd::utf8::encode_utf8_decode_utf8(b);
}

/// Law: the order of texts is a strict total order.
pub proof fn law_text_order_total()
    ensures
        order::strict_total(text_before()),
{
    let l = order::lex(order::int_less());
    let t = text_before();
    order::law_lex_strict_total(order::int_less());
    assert forall|a: Seq<char>, b: Seq<char>, c: Seq<char>|
        #[trigger] t(a, b) && #[trigger] t(b, c) implies t(a, c) by {
        let x = order::byte_ints(vstd::utf8::encode_utf8(a));
        let y = order::byte_ints(vstd::utf8::encode_utf8(b));
        let z = order::byte_ints(vstd::utf8::encode_utf8(c));
        assert(l(x, y) && l(y, z));
        assert(l(x, z));
    }
    assert forall|a: Seq<char>| !(#[trigger] t(a, a)) by {
        let x = order::byte_ints(vstd::utf8::encode_utf8(a));
        assert(!l(x, x));
    }
    assert forall|a: Seq<char>, b: Seq<char>| a != b implies #[trigger] t(a, b) || t(b, a) by {
        let x = order::byte_ints(vstd::utf8::encode_utf8(a));
        let y = order::byte_ints(vstd::utf8::encode_utf8(b));
        if x == y {
            lemma_text_bytes_injective(a, b);
        }
        assert(l(x, y) || l(y, x));
    }
}

impl OrderedKey for String {
    open spec fn before() -> spec_fn(Seq<char>, Seq<char>) -> bool {
        text_before()
    }

    proof fn before_total() {
        law_text_order_total();
        let t = Self::before();
        assert(t == text_before());
        assert(order::strict_total(t));
    }

    fn compare_key(&self, other: &Self) -> (c: Comparison) {
        proof {
            let x = order::byte_ints(vstd::utf8::encode_utf8(self@));
            let y = order::byte_ints(vstd::utf8::encode_utf8(other@));
            if x == y {
                lemma_text_bytes_injective(self@, other@);
            }
        }
        compare_bytes(self.as_str().as_bytes(), other.as_str().as_bytes())
    }
}

/// The keys come in order, none of them twice.
pub open spec fn ascending<K, A>(s: Seq<(K, A)>, before: spec_fn(K, K) -> bool) -> bool {
    forall|i: int, j: int|
        0 <= i < j < s.len() ==> before((#[trigger] s[i]).0, (#[trigger] s[j]).0)
}

/// `s` lists the entries of `m` in the order of their keys.
pub open spec fn lists<K, A>(s: Seq<(K, A)>, m: Map<K, A>, before: spec_fn(K, K) -> bool) -> bool {
    ascending(s, before) && name_table::first_map(s) == m
}

/// The entries of `m` in the order of their keys.
pub open spec fn listing<K, A>(m: Map<K, A>, before: spec_fn(K, K) -> bool) -> Seq<(K, A)> {
    choose|s: Seq<(K, A)>| lists(s, m, before)
}

/// What the map of an ascending list holds.
pub proof fn lemma_ascending_map<K, A>(s: Seq<(K, A)>, before: spec_fn(K, K) -> bool)
    requires
        order::strict_total(before),
        ascending(s, before),
    ensures
        forall|i: int|
            0 <= i < s.len() ==> name_table::first_map(s).contains_key((#[trigger] s[i]).0)
                && name_table::first_map(s)[s[i].0] == s[i].1,
        forall|k: K| #[trigger]
            name_table::first_map(s).contains_key(k) ==> exists|i: int|
                0 <= i < s.len() && (#[trigger] s[i]).0 == k,
{
    assert forall|i: int| 0 <= i < s.len() implies name_table::first_map(s).contains_key(
        (#[trigger] s[i]).0,
    ) && name_table::first_map(s)[s[i].0] == s[i].1 by {
        assert forall|j: int| 0 <= j < i implies (#[trigger] s[j]).0 != s[i].0 by {
            assert(before(s[j].0, s[i].0));
            assert(!before(s[i].0, s[i].0));
        }
        name_table::lemma_first_map_at(s, i);
    }
    assert forall|k: K| #[trigger] name_table::first_map(s).contains_key(k) implies exists|i: int|
        0 <= i < s.len() && (#[trigger] s[i]).0 == k by {
        let at = name_table::lemma_first_map_entry(s, k);
        assert(s[at].0 == k);
    }
}

/// Law: a map has one listing only.
pub proof fn law_listing_unique<K, A>(
    s: Seq<(K, A)>,
    t: Seq<(K, A)>,
    before: spec_fn(K, K) -> bool,
)
    requires
        order::strict_total(before),
        ascending(s, before),
        ascending(t, before),
        name_table::first_map(s) == name_table::first_map(t),
    ensures
        s == t,
    decreases s.len(),
{
    lemma_ascending_map(s, before);
    lemma_ascending_map(t, before);
    let m = name_table::first_map(s);
    if s.len() == 0 {
        if t.len() > 0 {
            assert(m.contains_key(t[0].0));
        }
        assert(s =~= t);
    } else {
        assert(m.contains_key(s[s.len() - 1].0));
        let j = choose|j: int| 0 <= j < t.len() && (#[trigger] t[j]).0 == s[s.len() - 1].0;
        let k = t[t.len() - 1].0;
        assert(m.contains_key(k));
        let i = choose|i: int| 0 <= i < s.len() && (#[trigger] s[i]).0 == k;
        if j < t.len() - 1 {
            assert(before(t[j].0, k));
            if i < s.len() - 1 {
                assert(before(s[i].0, s[s.len() - 1].0));
                assert(before(k, k));
            }
            assert(false);
        }
        assert(s.last() == t.last());
        let a = s.drop_last();
        let b = t.drop_last();
        lemma_ascending_map(a, before);
        lemma_ascending_map(b, before);
        let x = name_table::first_map(a);
        let y = name_table::first_map(b);
        assert forall|q: K| #[trigger] x.contains_key(q) implies y.contains_key(q) && x[q]
            == y[q] by {
            let at = choose|at: int| 0 <= at < a.len() && (#[trigger] a[at]).0 == q;
            assert(s[at] == a[at]);
            assert(before(s[at].0, s[s.len() - 1].0));
            assert(m.contains_key(q));
            let bt = choose|bt: int| 0 <= bt < t.len() && (#[trigger] t[bt]).0 == q;
            if bt == t.len() - 1 {
                assert(before(q, q));
            }
            assert(b[bt] == t[bt]);
        }
        assert forall|q: K| #[trigger] y.contains_key(q) implies x.contains_key(q) by {
            let bt = choose|bt: int| 0 <= bt < b.len() && (#[trigger] b[bt]).0 == q;
            assert(t[bt] == b[bt]);
            assert(before(t[bt].0, t[t.len() - 1].0));
            assert(m.contains_key(q));
            let at = choose|at: int| 0 <= at < s.len() && (#[trigger] s[at]).0 == q;
            if at == s.len() - 1 {
                assert(before(q, q));
            }
            assert(a[at] == s[at]);
        }
        assert(x =~= y);
        law_listing_unique(a, b, before);
        assert(s =~= a.push(s.last()));
        assert(t =~= b.push(t.last()));
    }
}

/// An ascending list is the listing of its map.
pub proof fn lemma_is_listing<K, A>(s: Seq<(K, A)>, m: Map<K, A>, before: spec_fn(K, K) -> bool)
    requires
        order::strict_total(before),
        lists(s, m, before),
    ensures
        listing(m, before) == s,
{
    law_listing_unique(listing(m, before), s, before);
}

proof fn lemma_place_of<K, A>(s: Seq<(K, A)>, k: K, before: spec_fn(K, K) -> bool) -> (at: int)
    requires
        order::strict_total(before),
        ascending(s, before),
        forall|i: int| 0 <= i < s.len() ==> (#[trigger] s[i]).0 != k,
    ensures
        0 <= at <= s.len(),
        forall|i: int| 0 <= i < at ==> before((#[trigger] s[i]).0, k),
        forall|i: int| at <= i < s.len() ==> before(k, (#[trigger] s[i]).0),
    decreases s.len(),
{
    if s.len() == 0 {
        0
    } else if before(s.last().0, k) {
        assert forall|i: int| 0 <= i < s.len() implies before((#[trigger] s[i]).0, k) by {
            if i < s.len() - 1 {
                assert(before(s[i].0, s[s.len() - 1].0));
            }
        }
        s.len() as int
    } else {
        let rest = s.drop_last();
        assert forall|i: int| 0 <= i < rest.len() implies (#[trigger] rest[i]).0 != k by {
            assert(rest[i] == s[i]);
        }
        assert(s[s.len() - 1].0 != k);
        let at = lemma_place_of(rest, k, before);
        assert forall|i: int| 0 <= i < at implies before((#[trigger] s[i]).0, k) by {
            assert(rest[i] == s[i]);
        }
        assert forall|i: int| at <= i < s.len() implies before(k, (#[trigger] s[i]).0) by {
            if i < s.len() - 1 {
                assert(rest[i] == s[i]);
            }
        }
        at
    }
}

/// Law: a finite map has a listing.
pub proof fn law_listing_exists<K, A>(m: Map<K, A>, before: spec_fn(K, K) -> bool)
    requires
        order::strict_total(before),
        m.dom().finite(),
    ensures
        lists(listing(m, before), m, before),
    decreases m.dom().len(),
{
    if m.dom().len() == 0 {
        let s = Seq::<(K, A)>::empty();
        assert(m.dom() =~= Set::empty());
        assert(name_table::first_map(s) =~= m);
        assert(lists(s, m, before));
    } else {
        let k = m.dom().choose();
        let rest = m.remove(k);
        assert(m.dom().contains(k));
        assert(rest.dom() =~= m.dom().remove(k));
        law_listing_exists(rest, before);
        let s = listing(rest, before);
        lemma_ascending_map(s, before);
        assert forall|i: int| 0 <= i < s.len() implies (#[trigger] s[i]).0 != k by {
            assert(rest.contains_key(s[i].0));
        }
        let at = lemma_place_of(s, k, before);
        let t = s.insert(at, (k, m[k]));
        assert forall|i: int, j: int| 0 <= i < j < t.len() implies before(
            (#[trigger] t[i]).0,
            (#[trigger] t[j]).0,
        ) by {
            if i < at {
                assert(t[i] == s[i]);
            } else if i > at {
                assert(t[i] == s[i - 1]);
            }
            if j < at {
                assert(t[j] == s[j]);
            } else if j > at {
                assert(t[j] == s[j - 1]);
            }
            if i != at && j != at {
                let a = if i < at {
                    i
                } else {
                    i - 1
                };
                let b = if j < at {
                    j
                } else {
                    j - 1
                };
                assert(before(s[a].0, s[b].0));
            }
        }
        lemma_inserted_map(s, at, k, m[k], before);
        assert(rest.insert(k, m[k]) =~= m);
        assert(lists(t, m, before));
    }
}

/// An end of a range of keys.
pub enum KeyBound<K> {
    Unbounded,
    Included(K),
    Excluded(K),
}

impl<K: DeepView> DeepView for KeyBound<K> {
    type V = KeyBound<K::V>;

    open spec fn deep_view(&self) -> KeyBound<K::V> {
        match self {
            KeyBound::Unbounded => KeyBound::Unbounded,
            KeyBound::Included(k) => KeyBound::Included(k.deep_view()),
            KeyBound::Excluded(k) => KeyBound::Excluded(k.deep_view()),
        }
    }
}

/// A key lies above the lower end.
pub open spec fn above<K>(k: K, lower: KeyBound<K>, before: spec_fn(K, K) -> bool) -> bool {
    match lower {
        KeyBound::Unbounded => true,
        KeyBound::Included(b) => b == k || before(b, k),
        KeyBound::Excluded(b) => before(b, k),
    }
}

/// A key lies below the upper end.
pub open spec fn below<K>(k: K, upper: KeyBound<K>, before: spec_fn(K, K) -> bool) -> bool {
    match upper {
        KeyBound::Unbounded => true,
        KeyBound::Included(b) => b == k || before(k, b),
        KeyBound::Excluded(b) => before(k, b),
    }
}

/// The ends of a range are the right way round: the lower one is not above the
/// upper one, and they do not both leave out the same key.
pub open spec fn in_order<K>(
    lower: KeyBound<K>,
    upper: KeyBound<K>,
    before: spec_fn(K, K) -> bool,
) -> bool {
    match (lower, upper) {
        (KeyBound::Unbounded, _) => true,
        (_, KeyBound::Unbounded) => true,
        (KeyBound::Excluded(a), KeyBound::Excluded(b)) => before(a, b),
        (KeyBound::Included(a), KeyBound::Included(b)) => a == b || before(a, b),
        (KeyBound::Included(a), KeyBound::Excluded(b)) => a == b || before(a, b),
        (KeyBound::Excluded(a), KeyBound::Included(b)) => a == b || before(a, b),
    }
}

/// The entries with keys in a range.
pub open spec fn between<K, A>(
    m: Map<K, A>,
    lower: KeyBound<K>,
    upper: KeyBound<K>,
    before: spec_fn(K, K) -> bool,
) -> Map<K, A> {
    Map::new(
        |k: K| m.contains_key(k) && above(k, lower, before) && below(k, upper, before),
        |k: K| m[k],
    )
}

/// Whether a key lies in a range.
pub fn in_range<K: OrderedKey>(key: &K, lower: &KeyBound<K>, upper: &KeyBound<K>) -> (r: bool)
    ensures
        r == (above(key.deep_view(), lower.deep_view(), K::before()) && below(
            key.deep_view(),
            upper.deep_view(),
            K::before(),
        )),
{
    proof {
        K::before_total();
    }
    let up = match lower {
        KeyBound::Unbounded => true,
        KeyBound::Included(b) => match b.compare_key(key) {
            Comparison::Greater => false,
            _ => true,
        },
        KeyBound::Excluded(b) => match b.compare_key(key) {
            Comparison::Less => true,
            _ => false,
        },
    };
    let down = match upper {
        KeyBound::Unbounded => true,
        KeyBound::Included(b) => match key.compare_key(b) {
            Comparison::Greater => false,
            _ => true,
        },
        KeyBound::Excluded(b) => match key.compare_key(b) {
            Comparison::Less => true,
            _ => false,
        },
    };
    up && down
}

/// A map kept as the list of its entries, in the order of their keys.
pub struct SortedMap<K: OrderedKey, V: DeepView> {
    entries: Vec<(K, V)>,
}

impl<K: OrderedKey, V: DeepView> SortedMap<K, V> {
    #[verifier::type_invariant]
    spec fn sorted(&self) -> bool {
        ascending(self.entries.deep_view(), K::before())
    }
}

impl<K: OrderedKey, V: DeepView> DeepView for SortedMap<K, V> {
    type V = Map<K::V, V::V>;

    closed spec fn deep_view(&self) -> Map<K::V, V::V> {
        name_table::first_map(self.entries.deep_view())
    }
}

/// The first place whose key does not come before `key`, and whether it holds
/// that key.
fn locate<K: OrderedKey, V: DeepView>(entries: &Vec<(K, V)>, key: &K) -> (r: (usize, bool))
    requires
        ascending(entries.deep_view(), K::before()),
    ensures
        r.0 <= entries.len(),
        forall|j: int|
            0 <= j < r.0 ==> K::before()(
                (#[trigger] entries.deep_view()[j]).0,
                key.deep_view(),
            ),
        r.1 ==> r.0 < entries.len() && entries.deep_view()[r.0 as int].0 == key.deep_view(),
        forall|j: int|
            r.0 <= j < entries.len() && !(r.1 && j == r.0) ==> K::before()(
                key.deep_view(),
                (#[trigger] entries.deep_view()[j]).0,
            ),
{
    proof {
        K::before_total();
    }
    let ghost all = entries.deep_view();
    let mut low: usize = 0;
    let mut high: usize = entries.len();
    while low < high
        invariant
            low <= high <= entries.len(),
            all == entries.deep_view(),
            order::strict_total(K::before()),
            ascending(all, K::before()),
            forall|j: int| 0 <= j < low ==> K::before()((#[trigger] all[j]).0, key.deep_view()),
            forall|j: int|
                high <= j < all.len() ==> K::before()(key.deep_view(), (#[trigger] all[j]).0),
        decreases high - low,
    {
        let mid: usize = low + (high - low) / 2;
        assert(all[mid as int].0 == entries@[mid as int].0.deep_view());
        match entries[mid].0.compare_key(key) {
            Comparison::Less => {
                assert forall|j: int| 0 <= j < mid + 1 implies K::before()(
                    (#[trigger] all[j]).0,
                    key.deep_view(),
                ) by {
                    if j < mid {
                        assert(K::before()(all[j].0, all[mid as int].0));
                    }
                }
                low = mid + 1;
            },
            Comparison::Equal => {
                return (mid, true);
            },
            Comparison::Greater => {
                assert(K::before()(key.deep_view(), all[mid as int].0));
                assert forall|j: int| mid <= j < all.len() implies K::before()(
                    key.deep_view(),
                    (#[trigger] all[j]).0,
                ) by {
                    if j > mid {
                        assert(K::before()(all[mid as int].0, all[j].0));
                    }
                }
                high = mid;
            },
        }
    }
    (low, false)
}

impl<K: OrderedKey, V: DeepView> SortedMap<K, V> {
    pub fn new() -> (r: SortedMap<K, V>)
        ensures
            r.deep_view() == Map::<K::V, V::V>::empty(),
    {
        SortedMap { entries: no_items() }
    }

    /// The entries in the order of their keys.
    pub fn entries(&self) -> (r: &Vec<(K, V)>)
        ensures
            r.deep_view() == listing(self.deep_view(), K::before()),
            lists(r.deep_view(), self.deep_view(), K::before()),
    {
        proof {
            use_type_invariant(self);
            K::before_total();
            lemma_is_listing(self.entries.deep_view(), self.deep_view(), K::before());
        }
        &self.entries
    }

    /// The value of a key.
    pub fn get(&self, key: &K) -> (r: Option<&V>)
        ensures
            match r {
                Some(v) => self.deep_view().contains_key(key.deep_view()) && v.deep_view()
                    == self.deep_view()[key.deep_view()],
                None => !self.deep_view().contains_key(key.deep_view()),
            },
    {
        proof {
            use_type_invariant(self);
            K::before_total();
            lemma_ascending_map(self.entries.deep_view(), K::before());
        }
        let (at, found) = locate(&self.entries, key);
        if found {
            assert(self.entries.deep_view()[at as int].1 == self.entries@[at as int].1.deep_view());
            Some(&self.entries[at].1)
        } else {
            proof {
                let all = self.entries.deep_view();
                assert forall|j: int| 0 <= j < all.len() implies (#[trigger] all[j]).0
                    != key.deep_view() by {
                    assert(!K::before()(all[j].0, all[j].0));
                }
                name_table::lemma_first_map_absent(all, key.deep_view());
            }
            None
        }
    }

    /// Gives a key a value, whatever it had before.
    pub fn insert(&mut self, key: K, value: V)
        ensures
            final(self).deep_view() == old(self).deep_view().insert(
                key.deep_view(),
                value.deep_view(),
            ),
    {
        let mut taken: SortedMap<K, V> = SortedMap::new();
        std::mem::swap(self, &mut taken);
        proof {
            use_type_invariant(&taken);
            K::before_total();
        }
        let mut entries = taken.entries;
        let ghost all = entries.deep_view();
        let ghost k = key.deep_view();
        let ghost v = value.deep_view();
        let (at, found) = locate(&entries, &key);
        if found {
            entries.set(at, (key, value));
            proof {
                let now = entries.deep_view();
                assert(now =~= all.update(at as int, (k, v)));
                assert forall|j: int| 0 <= j < at implies (#[trigger] all[j]).0
                    != all[at as int].0 by {
                    assert(K::before()(all[j].0, all[at as int].0));
                    assert(!K::before()(k, k));
                }
                name_table::lemma_first_map_update(all, at as int, v);
                assert(ascending(now, K::before())) by {
                    assert forall|i: int, j: int| 0 <= i < j < now.len() implies K::before()(
                        (#[trigger] now[i]).0,
                        (#[trigger] now[j]).0,
                    ) by {
                        assert(K::before()(all[i].0, all[j].0));
                    }
                }
            }
        } else {
            entries.insert(at, (key, value));
            proof {
                let now = entries.deep_view();
                assert(now =~= all.insert(at as int, (k, v)));
                assert(ascending(now, K::before())) by {
                    assert forall|i: int, j: int| 0 <= i < j < now.len() implies K::before()(
                        (#[trigger] now[i]).0,
                        (#[trigger] now[j]).0,
                    ) by {
                        let a = if i < at {
                            i
                        } else {
                            i - 1
                        };
                        let b = if j < at {
                            j
                        } else {
                            j - 1
                        };
                        if i == at {
                            assert(K::before()(k, all[b].0));
                        } else if j == at {
                            assert(K::before()(all[a].0, k));
                        } else {
                            assert(K::before()(all[a].0, all[b].0));
                        }
                    }
                }
                lemma_inserted_map(all, at as int, k, v, K::before());
            }
        }
        *self = SortedMap { entries };
    }

    /// Takes a key out, and gives the value that it had.
    pub fn remove(&mut self, key: &K) -> (r: Option<V>)
        ensures
            final(self).deep_view() == old(self).deep_view().remove(key.deep_view()),
            match r {
                Some(v) => old(self).deep_view().contains_key(key.deep_view()) && v.deep_view()
                    == old(self).deep_view()[key.deep_view()],
                None => !old(self).deep_view().contains_key(key.deep_view()),
            },
    {
        let mut taken: SortedMap<K, V> = SortedMap::new();
        std::mem::swap(self, &mut taken);
        proof {
            use_type_invariant(&taken);
            K::before_total();
        }
        let mut entries = taken.entries;
        let ghost all = entries.deep_view();
        let ghost k = key.deep_view();
        let (at, found) = locate(&entries, key);
        proof {
            lemma_ascending_map(all, K::before());
        }
        if found {
            assert(all[at as int].1 == entries@[at as int].1.deep_view());
            let (_, value) = entries.remove(at);
            proof {
                let now = entries.deep_view();
                assert(now =~= all.remove(at as int));
                assert(ascending(now, K::before())) by {
                    assert forall|i: int, j: int| 0 <= i < j < now.len() implies K::before()(
                        (#[trigger] now[i]).0,
                        (#[trigger] now[j]).0,
                    ) by {
                        let a = if i < at {
                            i
                        } else {
                            i + 1
                        };
                        let b = if j < at {
                            j
                        } else {
                            j + 1
                        };
                        assert(K::before()(all[a].0, all[b].0));
                    }
                }
                lemma_removed_map(all, at as int, K::before());
            }
            *self = SortedMap { entries };
            Some(value)
        } else {
            proof {
                assert forall|j: int| 0 <= j < all.len() implies (#[trigger] all[j]).0 != k by {
                    assert(!K::before()(all[j].0, all[j].0));
                }
                name_table::lemma_first_map_absent(all, k);
                assert(name_table::first_map(all).remove(k) =~= name_table::first_map(all));
            }
            *self = SortedMap { entries };
            None
        }
    }
}

proof fn lemma_inserted_map<K, A>(
    s: Seq<(K, A)>,
    at: int,
    k: K,
    v: A,
    before: spec_fn(K, K) -> bool,
)
    requires
        order::strict_total(before),
        0 <= at <= s.len(),
        ascending(s, before),
        ascending(s.insert(at, (k, v)), before),
    ensures
        name_table::first_map(s.insert(at, (k, v))) == name_table::first_map(s).insert(k, v),
{
    let t = s.insert(at, (k, v));
    lemma_ascending_map(s, before);
    lemma_ascending_map(t, before);
    let x = name_table::first_map(t);
    let y = name_table::first_map(s).insert(k, v);
    assert(t[at] == (k, v));
    assert forall|q: K| #[trigger] x.contains_key(q) implies y.contains_key(q) && x[q] == y[q] by {
        let i = choose|i: int| 0 <= i < t.len() && (#[trigger] t[i]).0 == q;
        if i < at {
            assert(t[i] == s[i]);
            assert(before(t[i].0, t[at].0));
        } else if i > at {
            assert(t[i] == s[i - 1]);
            assert(before(t[at].0, t[i].0));
        }
    }
    assert forall|q: K| #[trigger] y.contains_key(q) implies x.contains_key(q) by {
        if q != k {
            let i = choose|i: int| 0 <= i < s.len() && (#[trigger] s[i]).0 == q;
            if i < at {
                assert(t[i] == s[i]);
            } else {
                assert(t[i + 1] == s[i]);
            }
        }
    }
    assert(x =~= y);
}

proof fn lemma_removed_map<K, A>(s: Seq<(K, A)>, at: int, before: spec_fn(K, K) -> bool)
    requires
        order::strict_total(before),
        0 <= at < s.len(),
        ascending(s, before),
        ascending(s.remove(at), before),
    ensures
        name_table::first_map(s.remove(at)) == name_table::first_map(s).remove(s[at].0),
{
    let t = s.remove(at);
    lemma_ascending_map(s, before);
    lemma_ascending_map(t, before);
    let x = name_table::first_map(t);
    let y = name_table::first_map(s).remove(s[at].0);
    assert forall|q: K| #[trigger] x.contains_key(q) implies y.contains_key(q) && x[q] == y[q] by {
        let i = choose|i: int| 0 <= i < t.len() && (#[trigger] t[i]).0 == q;
        if i < at {
            assert(t[i] == s[i]);
            assert(before(s[i].0, s[at].0));
        } else {
            assert(t[i] == s[i + 1]);
            assert(before(s[at].0, s[i + 1].0));
        }
    }
    assert forall|q: K| #[trigger] y.contains_key(q) implies x.contains_key(q) by {
        let i = choose|i: int| 0 <= i < s.len() && (#[trigger] s[i]).0 == q;
        if i < at {
            assert(t[i] == s[i]);
        } else {
            assert(t[i - 1] == s[i]);
        }
    }
    assert(x =~= y);
}

/// Adds an entry with a key above all others.
pub proof fn lemma_ascending_push<K, A>(s: Seq<(K, A)>, k: K, v: A, before: spec_fn(K, K) -> bool)
    requires
        order::strict_total(before),
        ascending(s, before),
        forall|i: int| 0 <= i < s.len() ==> before((#[trigger] s[i]).0, k),
    ensures
        ascending(s.push((k, v)), before),
        name_table::first_map(s.push((k, v))) == name_table::first_map(s).insert(k, v),
{
    let t = s.push((k, v));
    assert forall|i: int, j: int| 0 <= i < j < t.len() implies before(
        (#[trigger] t[i]).0,
        (#[trigger] t[j]).0,
    ) by {
        assert(before(s[i].0, k));
        if j < s.len() {
            assert(before(s[i].0, s[j].0));
        }
    }
    assert(t =~= s.insert(s.len() as int, (k, v)));
    lemma_inserted_map(s, s.len() as int, k, v, before);
}

impl<K: OrderedKey, V: Plain> SortedMap<K, V> {
    /// A copy.
    pub fn duplicate(&self) -> (r: SortedMap<K, V>)
        ensures
            r.deep_view() == self.deep_view(),
    {
        proof {
            use_type_invariant(self);
        }
        let entries = self.entries.duplicate();
        SortedMap { entries }
    }

    /// The entries with keys in a range, in the order of their keys.
    pub fn range(&self, lower: &KeyBound<K>, upper: &KeyBound<K>) -> (r: Vec<(K, V)>)
        ensures
            r.deep_view() == listing(
                between(self.deep_view(), lower.deep_view(), upper.deep_view(), K::before()),
                K::before(),
            ),
    {
        proof {
            use_type_invariant(self);
            K::before_total();
            lemma_ascending_map(self.entries.deep_view(), K::before());
        }
        let ghost before = K::before();
        let ghost all = self.entries.deep_view();
        let ghost low = lower.deep_view();
        let ghost high = upper.deep_view();
        let mut out: Vec<(K, V)> = no_items();
        let mut i: usize = 0;
        proof {
            assert(name_table::first_map(out.deep_view()) =~= between(
                name_table::first_map(all.take(0)),
                low,
                high,
                before,
            ));
        }
        while i < self.entries.len()
            invariant
                i <= self.entries.len(),
                all == self.entries.deep_view(),
                before == K::before(),
                low == lower.deep_view(),
                high == upper.deep_view(),
                order::strict_total(before),
                ascending(all, before),
                ascending(out.deep_view(), before),
                forall|j: int|
                    0 <= j < out.len() && i < all.len() ==> before(
                        (#[trigger] out.deep_view()[j]).0,
                        all[i as int].0,
                    ),
                name_table::first_map(out.deep_view()) == between(
                    name_table::first_map(all.take(i as int)),
                    low,
                    high,
                    before,
                ),
            decreases self.entries.len() - i,
        {
            let entry = &self.entries[i];
            let ghost k = entry.0.deep_view();
            let ghost v = entry.1.deep_view();
            let ghost so_far = out.deep_view();
            let ghost first = all.take(i as int);
            proof {
                assert(all[i as int] == (k, v));
                assert forall|j: int| 0 <= j < first.len() implies before(
                    (#[trigger] first[j]).0,
                    k,
                ) by {
                    assert(before(all[j].0, all[i as int].0));
                }
                lemma_ascending_push(first, k, v, before);
                assert(first.push((k, v)) =~= all.take(i + 1));
                lemma_ascending_push(so_far, k, v, before);
            }
            if in_range(&entry.0, lower, upper) {
                push_back(&mut out, entry.duplicate());
                proof {
                    assert(out.deep_view() == so_far.push((k, v)));
                    assert(name_table::first_map(out.deep_view()) =~= between(
                        name_table::first_map(all.take(i + 1)),
                        low,
                        high,
                        before,
                    ));
                }
            } else {
                proof {
                    assert(name_table::first_map(out.deep_view()) =~= between(
                        name_table::first_map(all.take(i + 1)),
                        low,
                        high,
                        before,
                    ));
                }
            }
            proof {
                if i + 1 < all.len() {
                    assert(before(all[i as int].0, all[i + 1].0));
                    assert forall|j: int| 0 <= j < out.len() implies before(
                        (#[trigger] out.deep_view()[j]).0,
                        all[i + 1].0,
                    ) by {
                        if j < so_far.len() {
                            assert(out.deep_view()[j] == so_far[j]);
                            assert(before(so_far[j].0, all[i as int].0));
                        }
                    }
                }
            }
            i += 1;
        }
        proof {
            assert(all.take(i as int) =~= all);
            lemma_is_listing(
                out.deep_view(),
                between(self.deep_view(), low, high, before),
                before,
            );
        }
        out
    }
}

} // verus!
