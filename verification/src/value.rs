//! Engine values, the keys made of them, and their order.
use vstd::prelude::*;
use crate::order::{self, compare_bytes, Comparison};
use crate::plain::{no_items, push_back, same_text, Plain};

verus! {

/// The type of a column.
#[derive(Clone, Copy, Debug, PartialEq, Eq, Hash, Structural)]
pub enum EngineType {
    Integer,
    Float,
    Text,
    Uuid,
    Blob,
}

impl DeepView for EngineType {
    type V = EngineType;

    open spec fn deep_view(&self) -> EngineType {
        *self
    }
}

impl Plain for EngineType {
    fn duplicate(&self) -> (r: Self) {
        *self
    }

    fn same(&self, other: &Self) -> (r: bool) {
        *self == *other
    }
}

/// A value that a column of a row can hold. A float is held by the bit
/// pattern of its IEEE 754 double precision form.
#[derive(Clone, Debug, PartialEq, Eq, Hash)]
pub enum EngineValue {
    Null,
    Integer(i64),
    Float(u64),
    Text(String),
    Uuid([u8; 16]),
    Blob(Vec<u8>),
    Json(String),
}

/// What an [`EngineValue`] is, mathematically.
#[verifier::ext_equal]
pub enum ValueModel {
    Null,
    Integer(i64),
    Float(u64),
    Text(Seq<char>),
    Uuid(Seq<u8>),
    Blob(Seq<u8>),
    Json(Seq<char>),
}

impl DeepView for EngineValue {
    type V = ValueModel;

    open spec fn deep_view(&self) -> ValueModel {
        match self {
            EngineValue::Null => ValueModel::Null,
            EngineValue::Integer(i) => ValueModel::Integer(*i),
            EngineValue::Float(b) => ValueModel::Float(*b),
            EngineValue::Text(s) => ValueModel::Text(s@),
            EngineValue::Uuid(u) => ValueModel::Uuid(u@),
            EngineValue::Blob(b) => ValueModel::Blob(b@),
            EngineValue::Json(s) => ValueModel::Json(s@),
        }
    }
}

/// A row: one value per column.
pub type EngineRow = Vec<EngineValue>;

/// Whether two byte strings are the same.
pub fn same_bytes(a: &[u8], b: &[u8]) -> (r: bool)
    ensures
        r == (a@ == b@),
{
    proof {
        if order::byte_ints(a@) == order::byte_ints(b@) {
            order::lemma_byte_ints_injective(a@, b@);
        }
    }
    match compare_bytes(a, b) {
        Comparison::Equal => true,
        _ => false,
    }
}

/// A copy of a byte string.
pub fn copy_bytes(bytes: &Vec<u8>) -> (r: Vec<u8>)
    ensures
        r@ == bytes@,
{
    let r = bytes.duplicate();
    proof {
        assert(r@ =~= r.deep_view());
        assert(bytes@ =~= bytes.deep_view());
    }
    r
}

impl Plain for EngineValue {
    fn duplicate(&self) -> (r: Self) {
        match self {
            EngineValue::Null => EngineValue::Null,
            EngineValue::Integer(i) => EngineValue::Integer(*i),
            EngineValue::Float(b) => EngineValue::Float(*b),
            EngineValue::Text(s) => EngineValue::Text(s.clone()),
            EngineValue::Uuid(u) => EngineValue::Uuid(*u),
            EngineValue::Blob(b) => EngineValue::Blob(copy_bytes(b)),
            EngineValue::Json(s) => EngineValue::Json(s.clone()),
        }
    }

    fn same(&self, other: &Self) -> (r: bool) {
        match (self, other) {
            (EngineValue::Null, EngineValue::Null) => true,
            (EngineValue::Integer(a), EngineValue::Integer(b)) => *a == *b,
            (EngineValue::Float(a), EngineValue::Float(b)) => *a == *b,
            (EngineValue::Text(a), EngineValue::Text(b)) => same_text(a.as_str(), b.as_str()),
            (EngineValue::Uuid(a), EngineValue::Uuid(b)) => same_bytes(a.as_slice(), b.as_slice()),
            (EngineValue::Blob(a), EngineValue::Blob(b)) => same_bytes(a.as_slice(), b.as_slice()),
            (EngineValue::Json(a), EngineValue::Json(b)) => same_text(a.as_str(), b.as_str()),
            _ => false,
        }
    }
}

/// The place of a double in the total order of IEEE 754, from its bits: a
/// negative double lies below every positive one, the larger its magnitude
/// the lower.
pub open spec fn float_rank(bits: u64) -> int {
    if bits >= 0x8000_0000_0000_0000 {
        0x8000_0000_0000_0000 - bits - 1
    } else {
        bits as int
    }
}

/// The integers by which a value is ordered: first its kind, then what it
/// holds. Texts go by their UTF-8 bytes.
pub open spec fn value_rank(v: ValueModel) -> Seq<int> {
    match v {
        ValueModel::Null => seq![0int],
        ValueModel::Integer(i) => seq![1int, i as int],
        ValueModel::Float(b) => seq![2int, float_rank(b)],
        ValueModel::Text(s) => seq![3int] + order::byte_ints(vstd::utf8::encode_utf8(s)),
        ValueModel::Uuid(u) => seq![4int] + order::byte_ints(u),
        ValueModel::Blob(b) => seq![5int] + order::byte_ints(b),
        ValueModel::Json(s) => seq![6int] + order::byte_ints(vstd::utf8::encode_utf8(s)),
    }
}

/// The order of the values.
pub open spec fn value_less() -> spec_fn(ValueModel, ValueModel) -> bool {
    |a: ValueModel, b: ValueModel| order::lex(order::int_less())(value_rank(a), value_rank(b))
}

/// Law: distinct values have distinct ranks.
pub proof fn law_value_rank_injective(a: ValueModel, b: ValueModel)
    ensures
        value_rank(a) == value_rank(b) ==> a == b,
{
    if value_rank(a) == value_rank(b) {
        let x = value_rank(a);
        let y = value_rank(b);
        assert(x[0] == y[0]);
        match (a, b) {
            (ValueModel::Integer(i), ValueModel::Integer(j)) => {
                assert(x[1] == i && y[1] == j);
            },
            (ValueModel::Float(i), ValueModel::Float(j)) => {
                assert(x[1] == float_rank(i) && y[1] == float_rank(j));
            },
            (ValueModel::Text(s), ValueModel::Text(t)) | (
                ValueModel::Json(s),
                ValueModel::Json(t),
            ) => {
                let p = vstd::utf8::encode_utf8(s);
                let q = vstd::utf8::encode_utf8(t);
                assert(order::byte_ints(p) =~= x.drop_first());
                assert(order::byte_ints(q) =~= y.drop_first());
                order::lemma_byte_ints_injective(p, q);
                vstd::utf8::encode_utf8_decode_utf8(s);
                vstd::utf8::encode_utf8_decode_utf8(t);
            },
            (ValueModel::Uuid(s), ValueModel::Uuid(t)) | (
                ValueModel::Blob(s),
                ValueModel::Blob(t),
            ) => {
                assert(order::byte_ints(s) =~= x.drop_first());
                assert(order::byte_ints(t) =~= y.drop_first());
                order::lemma_byte_ints_injective(s, t);
            },
            _ => {},
        }
    }
}

/// Law: the order of the values is a strict total order.
pub proof fn law_value_order_total()
    ensures
        order::strict_total(value_less()),
{
    order::law_lex_strict_total(order::int_less());
    let l = order::lex(order::int_less());
    let less = value_less();
    assert forall|a: ValueModel| !(#[trigger] less(a, a)) by {
        assert(!l(value_rank(a), value_rank(a)));
    }
    assert forall|a: ValueModel, b: ValueModel, c: ValueModel|
        #[trigger] less(a, b) && #[trigger] less(b, c) implies less(a, c) by {
        assert(l(value_rank(a), value_rank(b)) && l(value_rank(b), value_rank(c)));
    }
    assert forall|a: ValueModel, b: ValueModel| a != b implies #[trigger] less(a, b) || less(b, a) by {
        law_value_rank_injective(a, b);
        assert(l(value_rank(a), value_rank(b)) || l(value_rank(b), value_rank(a)));
    }
}

proof fn lemma_tagged(tag: int, a: Seq<int>, b: Seq<int>)
    ensures
        order::comparison(seq![tag] + a, seq![tag] + b, order::lex(order::int_less())) == order::comparison(
            a,
            b,
            order::lex(order::int_less()),
        ),
{
    assert((seq![tag] + a).drop_first() =~= a);
    assert((seq![tag] + b).drop_first() =~= b);
}

impl EngineValue {
    /// The place of the value's kind among the kinds.
    fn kind(&self) -> (k: u8)
        ensures
            k as int == value_rank(self.deep_view())[0],
    {
        match self {
            EngineValue::Null => 0,
            EngineValue::Integer(_) => 1,
            EngineValue::Float(_) => 2,
            EngineValue::Text(_) => 3,
            EngineValue::Uuid(_) => 4,
            EngineValue::Blob(_) => 5,
            EngineValue::Json(_) => 6,
        }
    }

    /// Compares two values in the order of the values.
    pub fn compare(&self, other: &EngineValue) -> (c: Comparison)
        ensures
            c == order::comparison(self.deep_view(), other.deep_view(), value_less()),
    {
        let ghost x = value_rank(self.deep_view());
        let ghost y = value_rank(other.deep_view());
        proof {
            law_value_rank_injective(self.deep_view(), other.deep_view());
        }
        let c = match (self, other) {
            (EngineValue::Integer(a), EngineValue::Integer(b)) => {
                proof {
                    order::lemma_lex_at(x, y, if a == b { 2 } else { 1 }, order::int_less());
                }
                if *a < *b {
                    Comparison::Less
                } else if *a == *b {
                    Comparison::Equal
                } else {
                    Comparison::Greater
                }
            },
            (EngineValue::Float(a), EngineValue::Float(b)) => {
                proof {
                    order::lemma_lex_at(x, y, if a == b { 2 } else { 1 }, order::int_less());
                }
                let a_negative = *a >= 0x8000_0000_0000_0000;
                let b_negative = *b >= 0x8000_0000_0000_0000;
                if *a == *b {
                    Comparison::Equal
                } else if a_negative && !b_negative {
                    Comparison::Less
                } else if b_negative && !a_negative {
                    Comparison::Greater
                } else if (*a < *b) != a_negative {
                    Comparison::Less
                } else {
                    Comparison::Greater
                }
            },
            (EngineValue::Text(a), EngineValue::Text(b)) => {
                proof {
                    lemma_tagged(3, order::byte_ints(vstd::utf8::encode_utf8(a@)), order::byte_ints(vstd::utf8::encode_utf8(b@)));
                }
                compare_bytes(a.as_str().as_bytes(), b.as_str().as_bytes())
            },
            (EngineValue::Json(a), EngineValue::Json(b)) => {
                proof {
                    lemma_tagged(6, order::byte_ints(vstd::utf8::encode_utf8(a@)), order::byte_ints(vstd::utf8::encode_utf8(b@)));
                }
                compare_bytes(a.as_str().as_bytes(), b.as_str().as_bytes())
            },
            (EngineValue::Uuid(a), EngineValue::Uuid(b)) => {
                proof {
                    lemma_tagged(4, order::byte_ints(a@), order::byte_ints(b@));
                }
                compare_bytes(a.as_slice(), b.as_slice())
            },
            (EngineValue::Blob(a), EngineValue::Blob(b)) => {
                proof {
                    lemma_tagged(5, order::byte_ints(a@), order::byte_ints(b@));
                }
                compare_bytes(a.as_slice(), b.as_slice())
            },
            _ => {
                let a: u8 = self.kind();
                let b: u8 = other.kind();
                proof {
                    order::lemma_lex_at(x, y, if a == b { 1 } else { 0 }, order::int_less());
                }
                if a < b {
                    Comparison::Less
                } else if a == b {
                    Comparison::Equal
                } else {
                    Comparison::Greater
                }
            },
        };
        c
    }
}

/// A key of a tree: values that are compared one after the other.
#[derive(Clone, Debug, PartialEq, Eq, Hash)]
pub struct EngineKey {
    pub values: Vec<EngineValue>,
}

/// The key under which a row of a table is stored: one value, see
/// [`is_primary_key`].
pub type PrimaryKey = EngineKey;

/// A key under which a row can be stored: one UUID, or one whole number.
pub open spec fn is_primary_key(key: Seq<ValueModel>) -> bool {
    key.len() == 1 && (key[0] is Uuid || key[0] is Integer)
}

impl DeepView for EngineKey {
    type V = Seq<ValueModel>;

    open spec fn deep_view(&self) -> Seq<ValueModel> {
        self.values.deep_view()
    }
}

impl Plain for EngineKey {
    fn duplicate(&self) -> (r: Self) {
        EngineKey { values: self.values.duplicate() }
    }

    fn same(&self, other: &Self) -> (r: bool) {
        self.values.same(&other.values)
    }
}

/// The order of the keys: lexicographic over the order of the values.
pub open spec fn key_less() -> spec_fn(Seq<ValueModel>, Seq<ValueModel>) -> bool {
    order::lex(value_less())
}

impl EngineKey {
    pub fn from_values(values: Vec<EngineValue>) -> (key: EngineKey)
        ensures
            key.deep_view() == values.deep_view(),
    {
        EngineKey { values }
    }

    /// Whether a row can be stored under the key.
    pub fn is_primary(&self) -> (r: bool)
        ensures
            r == is_primary_key(self.deep_view()),
    {
        if self.values.len() != 1 {
            return false;
        }
        assert(self.deep_view()[0] == self.values@[0].deep_view());
        matches!(&self.values[0], EngineValue::Uuid(_) | EngineValue::Integer(_))
    }

    pub fn values(&self) -> (values: &Vec<EngineValue>)
        ensures
            values.deep_view() == self.deep_view(),
    {
        &self.values
    }

    /// Compares two keys in the order of the keys.
    pub fn compare(&self, other: &EngineKey) -> (c: Comparison)
        ensures
            c == order::comparison(self.deep_view(), other.deep_view(), key_less()),
    {
        let ghost x = self.deep_view();
        let ghost y = other.deep_view();
        proof {
            law_value_order_total();
        }
        let mut i: usize = 0;
        while i < self.values.len() && i < other.values.len()
            invariant
                i <= self.values.len(),
                i <= other.values.len(),
                x == self.values.deep_view(),
                y == other.values.deep_view(),
                x == self.deep_view(),
                y == other.deep_view(),
                order::strict_total(value_less()),
                forall|j: int| 0 <= j < i ==> x[j] == y[j],
            decreases self.values.len() - i,
        {
            let c = self.values[i].compare(&other.values[i]);
            proof {
                order::lemma_lex_at(x, y, i as int, value_less());
                assert(x[i as int] == self.values@[i as int].deep_view());
                assert(y[i as int] == other.values@[i as int].deep_view());
            }
            match c {
                Comparison::Less => {
                    return Comparison::Less;
                },
                Comparison::Greater => {
                    assert(value_less()(y[i as int], x[i as int]));
                    return Comparison::Greater;
                },
                Comparison::Equal => {},
            }
            i += 1;
        }
        proof {
            order::lemma_lex_at(x, y, i as int, value_less());
        }
        if i < other.values.len() {
            Comparison::Less
        } else if i < self.values.len() {
            Comparison::Greater
        } else {
            Comparison::Equal
        }
    }

    /// The key of one UUID.
    pub fn from_uuid(uuid: [u8; 16]) -> (key: EngineKey)
        ensures
            key.deep_view() == seq![ValueModel::Uuid(uuid@)],
    {
        let mut values: Vec<EngineValue> = no_items();
        push_back(&mut values, EngineValue::Uuid(uuid));
        proof {
            assert(values.deep_view() =~= seq![ValueModel::Uuid(uuid@)]);
        }
        EngineKey { values }
    }
}

} // verus!
