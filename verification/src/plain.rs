//! Plain data: values that can be copied and compared, and whose model says
//! all there is to say of them.
use vstd::prelude::*;
use vstd::string::*;
use crate::order::{self, compare_bytes, Comparison};

verus! {

/// Data that is known by its model alone.
pub trait Plain: DeepView + Sized {
    /// A copy with the same model.
    fn duplicate(&self) -> (r: Self)
        ensures
            r.deep_view() == self.deep_view(),
    ;

    /// Whether two values have the same model.
    fn same(&self, other: &Self) -> (r: bool)
        ensures
            r == (self.deep_view() == other.deep_view()),
    ;
}

/// The model of a result.
pub open spec fn outcome<T: DeepView, E: DeepView>(r: Result<T, E>) -> Result<T::V, E::V> {
    match r {
        Ok(t) => Ok(t.deep_view()),
        Err(e) => Err(e.deep_view()),
    }
}

/// What `f` makes of the elements of a list, or the first error.
pub open spec fn collected<A, B, E>(list: Seq<A>, f: spec_fn(A) -> Result<B, E>) -> Result<
    Seq<B>,
    E,
>
    decreases list.len(),
{
    if list.len() == 0 {
        Ok(Seq::empty())
    } else {
        match collected(list.drop_last(), f) {
            Err(e) => Err(e),
            Ok(before) => match f(list.last()) {
                Err(e) => Err(e),
                Ok(b) => Ok(before.push(b)),
            },
        }
    }
}

/// An error among the first elements is the error of the whole list.
pub proof fn lemma_collected_prefix<A, B, E>(
    list: Seq<A>,
    f: spec_fn(A) -> Result<B, E>,
    n: int,
)
    requires
        0 <= n <= list.len(),
        collected(list.take(n), f) is Err,
    ensures
        collected(list, f) == collected(list.take(n), f),
    decreases list.len() - n,
{
    if n < list.len() {
        assert(list.take(n + 1).drop_last() =~= list.take(n));
        lemma_collected_prefix(list, f, n + 1);
    } else {
        assert(list.take(n) =~= list);
    }
}

/// One more element.
pub proof fn lemma_collected_step<A, B, E>(list: Seq<A>, f: spec_fn(A) -> Result<B, E>, i: int)
    requires
        0 <= i < list.len(),
        collected(list.take(i), f) is Ok,
    ensures
        match f(list[i]) {
            Ok(b) => collected(list.take(i + 1), f) == Ok::<Seq<B>, E>(
                collected(list.take(i), f)->Ok_0.push(b),
            ),
            Err(e) => collected(list, f) == Err::<Seq<B>, E>(e),
        },
        i + 1 == list.len() ==> list.take(i + 1) == list,
{
    assert(list.take(i + 1).drop_last() =~= list.take(i));
    assert(list.take(i + 1).last() == list[i]);
    if f(list[i]) is Err {
        lemma_collected_prefix(list, f, i + 1);
    }
    if i + 1 == list.len() {
        assert(list.take(i + 1) =~= list);
    }
}

/// Whether two texts hold the same characters.
pub fn same_text(a: &str, b: &str) -> (r: bool)
    ensures
        r == (a@ == b@),
{
    let x = a.as_bytes();
    let y = b.as_bytes();
    proof {
        vstd::utf8::encode_utf8_decode_utf8(a@);
        vstd::utf8::encode_utf8_decode_utf8(b@);
        if order::byte_ints(x@) == order::byte_ints(y@) {
            order::lemma_byte_ints_injective(x@, y@);
        }
    }
    match compare_bytes(x, y) {
        Comparison::Equal => true,
        _ => false,
    }
}

/// Adds an element at the end of a list.
pub fn push_back<T: DeepView>(list: &mut Vec<T>, item: T)
    ensures
        final(list)@ == old(list)@.push(item),
        final(list).deep_view() == old(list).deep_view().push(item.deep_view()),
{
    let ghost before = list.deep_view();
    list.push(item);
    proof {
        assert(list.deep_view() =~= before.push(item.deep_view()));
    }
}

/// A list without elements.
pub fn no_items<T: DeepView>() -> (list: Vec<T>)
    ensures
        list@ == Seq::<T>::empty(),
        list.deep_view() == Seq::<T::V>::empty(),
{
    let list: Vec<T> = Vec::new();
    proof {
        assert(list.deep_view() =~= Seq::<T::V>::empty());
    }
    list
}

/// A list of one element.
pub fn one_item<T: DeepView>(item: T) -> (list: Vec<T>)
    ensures
        list@ == seq![item],
        list.deep_view() == seq![item.deep_view()],
{
    let mut list: Vec<T> = no_items();
    push_back(&mut list, item);
    proof {
        assert(list@ =~= seq![item]);
        assert(list.deep_view() =~= seq![item.deep_view()]);
    }
    list
}

impl Plain for u64 {
    fn duplicate(&self) -> (r: Self) {
        *self
    }

    fn same(&self, other: &Self) -> (r: bool) {
        *self == *other
    }
}

impl Plain for i64 {
    fn duplicate(&self) -> (r: Self) {
        *self
    }

    fn same(&self, other: &Self) -> (r: bool) {
        *self == *other
    }
}

impl Plain for u8 {
    fn duplicate(&self) -> (r: Self) {
        *self
    }

    fn same(&self, other: &Self) -> (r: bool) {
        *self == *other
    }
}

impl Plain for usize {
    fn duplicate(&self) -> (r: Self) {
        *self
    }

    fn same(&self, other: &Self) -> (r: bool) {
        *self == *other
    }
}

impl Plain for bool {
    fn duplicate(&self) -> (r: Self) {
        *self
    }

    fn same(&self, other: &Self) -> (r: bool) {
        *self == *other
    }
}

impl Plain for String {
    fn duplicate(&self) -> (r: Self) {
        self.clone()
    }

    fn same(&self, other: &Self) -> (r: bool) {
        same_text(self.as_str(), other.as_str())
    }
}

impl<T: Plain> Plain for Option<T> {
    fn duplicate(&self) -> (r: Self) {
        match self {
            Some(t) => Some(t.duplicate()),
            None => None,
        }
    }

    fn same(&self, other: &Self) -> (r: bool) {
        match (self, other) {
            (Some(a), Some(b)) => a.same(b),
            (None, None) => true,
            _ => false,
        }
    }
}

impl<A: Plain, B: Plain> Plain for (A, B) {
    fn duplicate(&self) -> (r: Self) {
        (self.0.duplicate(), self.1.duplicate())
    }

    fn same(&self, other: &Self) -> (r: bool) {
        self.0.same(&other.0) && self.1.same(&other.1)
    }
}

impl<T: Plain> Plain for Vec<T> {
    fn duplicate(&self) -> (r: Self) {
        let mut out: Vec<T> = no_items();
        let mut i: usize = 0;
        while i < self.len()
            invariant
                i <= self.len(),
                out.deep_view() == self.deep_view().take(i as int),
            decreases self.len() - i,
        {
            let copy = self[i].duplicate();
            push_back(&mut out, copy);
            proof {
                assert(out.deep_view() =~= self.deep_view().take(i + 1));
            }
            i += 1;
        }
        proof {
            assert(self.deep_view().take(i as int) =~= self.deep_view());
        }
        out
    }

    fn same(&self, other: &Self) -> (r: bool) {
        if self.len() != other.len() {
            assert(self.deep_view().len() != other.deep_view().len());
            return false;
        }
        let mut i: usize = 0;
        while i < self.len()
            invariant
                i <= self.len(),
                self.len() == other.len(),
                forall|j: int| 0 <= j < i ==> self.deep_view()[j] == other.deep_view()[j],
            decreases self.len() - i,
        {
            if !self[i].same(&other[i]) {
                assert(self.deep_view()[i as int] != other.deep_view()[i as int]);
                return false;
            }
            i += 1;
        }
        assert(self.deep_view() =~= other.deep_view());
        true
    }
}

/// Whether `list` holds a text with the characters of `item`.
pub fn contains_text(list: &Vec<String>, item: &str) -> (r: bool)
    ensures
        r == list.deep_view().contains(item@),
{
    let mut i: usize = 0;
    while i < list.len()
        invariant
            i <= list.len(),
            forall|j: int| 0 <= j < i ==> list.deep_view()[j] != item@,
        decreases list.len() - i,
    {
        if same_text(list[i].as_str(), item) {
            assert(list.deep_view()[i as int] == item@);
            return true;
        }
        i += 1;
    }
    false
}

} // verus!
