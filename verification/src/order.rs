//! Strict total orders, and the lexicographic order on sequences.
use vstd::prelude::*;

verus! {

/// The outcome of comparing two values.
#[derive(Clone, Copy, Debug, PartialEq, Eq, Structural)]
pub enum Comparison {
    Less,
    Equal,
    Greater,
}

impl Comparison {
    /// The outcome with the two sides swapped.
    pub fn reversed(self) -> (r: Comparison)
        ensures
            r == reversed(self),
    {
        match self {
            Comparison::Less => Comparison::Greater,
            Comparison::Equal => Comparison::Equal,
            Comparison::Greater => Comparison::Less,
        }
    }
}

pub open spec fn reversed(c: Comparison) -> Comparison {
    match c {
        Comparison::Less => Comparison::Greater,
        Comparison::Equal => Comparison::Equal,
        Comparison::Greater => Comparison::Less,
    }
}

/// `less` is irreflexive, transitive, and decides any two distinct values.
pub open spec fn strict_total<A>(less: spec_fn(A, A) -> bool) -> bool {
    &&& forall|a: A| !(#[trigger] less(a, a))
    &&& forall|a: A, b: A, c: A| #[trigger] less(a, b) && #[trigger] less(b, c) ==> less(a, c)
    &&& forall|a: A, b: A| a != b ==> #[trigger] less(a, b) || less(b, a)
}

/// What comparing `a` with `b` under `less` gives.
pub open spec fn comparison<A>(a: A, b: A, less: spec_fn(A, A) -> bool) -> Comparison {
    if a == b {
        Comparison::Equal
    } else if less(a, b) {
        Comparison::Less
    } else {
        Comparison::Greater
    }
}

/// The order of the integers.
pub open spec fn int_less() -> spec_fn(int, int) -> bool {
    |a: int, b: int| a < b
}

/// `a` comes before `b` in the lexicographic order that `less` gives.
pub open spec fn lex_less<A>(a: Seq<A>, b: Seq<A>, less: spec_fn(A, A) -> bool) -> bool
    decreases a.len(),
{
    if b.len() == 0 {
        false
    } else if a.len() == 0 {
        true
    } else {
        less(a[0], b[0]) || (a[0] == b[0] && lex_less(a.drop_first(), b.drop_first(), less))
    }
}

/// The lexicographic order on sequences as a relation.
pub open spec fn lex<A>(less: spec_fn(A, A) -> bool) -> spec_fn(Seq<A>, Seq<A>) -> bool {
    |a: Seq<A>, b: Seq<A>| lex_less(a, b, less)
}

proof fn lemma_lex_irreflexive<A>(a: Seq<A>, less: spec_fn(A, A) -> bool)
    requires
        strict_total(less),
    ensures
        !lex_less(a, a, less),
    decreases a.len(),
{
    if a.len() > 0 {
        assert(!less(a[0], a[0]));
        lemma_lex_irreflexive(a.drop_first(), less);
    }
}

proof fn lemma_lex_transitive<A>(a: Seq<A>, b: Seq<A>, c: Seq<A>, less: spec_fn(A, A) -> bool)
    requires
        strict_total(less),
        lex_less(a, b, less),
        lex_less(b, c, less),
    ensures
        lex_less(a, c, less),
    decreases a.len(),
{
    if a.len() > 0 {
        if a[0] == b[0] && b[0] == c[0] && !less(a[0], b[0]) && !less(b[0], c[0]) {
            lemma_lex_transitive(a.drop_first(), b.drop_first(), c.drop_first(), less);
        } else if less(a[0], b[0]) && less(b[0], c[0]) {
            assert(less(a[0], c[0]));
        }
    }
}

proof fn lemma_lex_connected<A>(a: Seq<A>, b: Seq<A>, less: spec_fn(A, A) -> bool)
    requires
        strict_total(less),
        a != b,
    ensures
        lex_less(a, b, less) || lex_less(b, a, less),
    decreases a.len(),
{
    if a.len() == 0 || b.len() == 0 {
        assert(a.len() == 0 && b.len() == 0 ==> a =~= b);
    } else if a[0] == b[0] {
        assert(a =~= seq![a[0]] + a.drop_first());
        assert(b =~= seq![b[0]] + b.drop_first());
        lemma_lex_connected(a.drop_first(), b.drop_first(), less);
    } else {
        assert(less(a[0], b[0]) || less(b[0], a[0]));
    }
}

/// Law: the lexicographic order over a strict total order is one itself.
pub proof fn law_lex_strict_total<A>(less: spec_fn(A, A) -> bool)
    requires
        strict_total(less),
    ensures
        strict_total(lex(less)),
{
    let l = lex(less);
    assert forall|a: Seq<A>| !(#[trigger] l(a, a)) by {
        lemma_lex_irreflexive(a, less);
    }
    assert forall|a: Seq<A>, b: Seq<A>, c: Seq<A>|
        #[trigger] l(a, b) && #[trigger] l(b, c) implies l(a, c) by {
        lemma_lex_transitive(a, b, c, less);
    }
    assert forall|a: Seq<A>, b: Seq<A>| a != b implies #[trigger] l(a, b) || l(b, a) by {
        lemma_lex_connected(a, b, less);
    }
}

/// Two sequences that agree up to `k` are ordered by what differs first at `k`.
pub proof fn lemma_lex_at<A>(a: Seq<A>, b: Seq<A>, k: int, less: spec_fn(A, A) -> bool)
    requires
        strict_total(less),
        0 <= k <= a.len(),
        k <= b.len(),
        forall|i: int| 0 <= i < k ==> a[i] == b[i],
    ensures
        k == a.len() && k == b.len() ==> a == b,
        k == a.len() && k < b.len() ==> lex_less(a, b, less) && a != b,
        k < a.len() && k == b.len() ==> lex_less(b, a, less) && !lex_less(a, b, less) && a != b,
        k < a.len() && k < b.len() && less(a[k], b[k]) ==> lex_less(a, b, less) && a != b,
        k < a.len() && k < b.len() && less(b[k], a[k]) ==> !lex_less(a, b, less) && a != b,
    decreases k,
{
    if k == 0 {
        assert(a.len() == 0 && b.len() == 0 ==> a =~= b);
        if a.len() > 0 && b.len() > 0 {
            assert(!less(a[0], a[0]));
            assert(less(b[0], a[0]) ==> !less(a[0], b[0]));
        }
    } else {
        assert(!less(a[0], a[0]));
        lemma_lex_at(a.drop_first(), b.drop_first(), k - 1, less);
        assert(a =~= seq![a[0]] + a.drop_first());
        assert(b =~= seq![b[0]] + b.drop_first());
    }
}

/// The bytes as integers.
pub open spec fn byte_ints(s: Seq<u8>) -> Seq<int> {
    s.map_values(|b: u8| b as int)
}

/// Distinct byte strings stay distinct as integers.
pub proof fn lemma_byte_ints_injective(a: Seq<u8>, b: Seq<u8>)
    requires
        byte_ints(a) == byte_ints(b),
    ensures
        a == b,
{
    assert(a.len() == byte_ints(a).len());
    assert(b.len() == byte_ints(b).len());
    assert forall|i: int| 0 <= i < a.len() implies a[i] == b[i] by {
        assert(byte_ints(a)[i] == a[i] as int);
        assert(byte_ints(b)[i] == b[i] as int);
    }
    assert(a =~= b);
}

/// Compares two byte strings, as lexicographic order has it.
pub fn compare_bytes(a: &[u8], b: &[u8]) -> (c: Comparison)
    ensures
        c == comparison(byte_ints(a@), byte_ints(b@), lex(int_less())),
{
    let ghost x = byte_ints(a@);
    let ghost y = byte_ints(b@);
    let mut i: usize = 0;
    while i < a.len() && i < b.len() && a[i] == b[i]
        invariant
            i <= a.len(),
            i <= b.len(),
            x == byte_ints(a@),
            y == byte_ints(b@),
            forall|j: int| 0 <= j < i ==> a@[j] == b@[j],
        decreases a.len() - i,
    {
        i += 1;
    }
    proof {
        lemma_lex_at(x, y, i as int, int_less());
    }
    if i < a.len() && i < b.len() {
        if a[i] < b[i] {
            Comparison::Less
        } else {
            Comparison::Greater
        }
    } else if i < b.len() {
        Comparison::Less
    } else if i < a.len() {
        Comparison::Greater
    } else {
        Comparison::Equal
    }
}

} // verus!
