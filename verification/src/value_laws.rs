//! How values are ordered, kind by kind.
use vstd::prelude::*;
use crate::order;
use crate::value::{self, ValueModel};

verus! {

/// The first place at which two byte strings differ has the smaller byte in
/// `a`, or `a` ends there.
pub open spec fn bytes_before(a: Seq<u8>, b: Seq<u8>) -> bool {
    exists|k: int| #[trigger] parts_at(a, b, k)
}

/// Up to place `k` the strings agree; there `a` ends or has the smaller byte.
pub open spec fn parts_at(a: Seq<u8>, b: Seq<u8>, k: int) -> bool {
    &&& 0 <= k <= a.len()
    &&& k < b.len()
    &&& forall|i: int| 0 <= i < k ==> a[i] == b[i]
    &&& k == a.len() || a[k] < b[k]
}

/// The sign bit of a double is set.
pub open spec fn is_negative(bits: u64) -> bool {
    bits >= 0x8000_0000_0000_0000
}

/// One double lies below another: a negative one below a positive one; of two
/// positive ones that with the smaller magnitude, of two negative ones that
/// with the larger.
pub open spec fn double_before(a: u64, b: u64) -> bool {
    if is_negative(a) == is_negative(b) {
        if is_negative(a) {
            a > b
        } else {
            a < b
        }
    } else {
        is_negative(a)
    }
}

/// The place of a value's kind among the kinds: NULL, whole numbers, doubles,
/// texts, UUIDs, blobs, JSON.
pub open spec fn kind_place(v: ValueModel) -> int {
    match v {
        ValueModel::Null => 0,
        ValueModel::Integer(_) => 1,
        ValueModel::Float(_) => 2,
        ValueModel::Text(_) => 3,
        ValueModel::Uuid(_) => 4,
        ValueModel::Blob(_) => 5,
        ValueModel::Json(_) => 6,
    }
}

/// One value comes before another.
pub open spec fn comes_before(a: ValueModel, b: ValueModel) -> bool {
    match (a, b) {
        (ValueModel::Integer(i), ValueModel::Integer(j)) => i < j,
        (ValueModel::Float(x), ValueModel::Float(y)) => double_before(x, y),
        (ValueModel::Text(s), ValueModel::Text(t)) => bytes_before(
            vstd::utf8::encode_utf8(s),
            vstd::utf8::encode_utf8(t),
        ),
        (ValueModel::Json(s), ValueModel::Json(t)) => bytes_before(
            vstd::utf8::encode_utf8(s),
            vstd::utf8::encode_utf8(t),
        ),
        (ValueModel::Uuid(s), ValueModel::Uuid(t)) => bytes_before(s, t),
        (ValueModel::Blob(s), ValueModel::Blob(t)) => bytes_before(s, t),
        _ => kind_place(a) < kind_place(b),
    }
}

/// Where two sequences first part.
proof fn lemma_first_difference(a: Seq<u8>, b: Seq<u8>) -> (k: int)
    ensures
        0 <= k <= a.len(),
        k <= b.len(),
        forall|i: int| 0 <= i < k ==> a[i] == b[i],
        k < a.len() && k < b.len() ==> a[k] != b[k],
    decreases a.len(),
{
    if a.len() == 0 || b.len() == 0 || a[0] != b[0] {
        0
    } else {
        let rest = lemma_first_difference(a.drop_first(), b.drop_first());
        let k = rest + 1;
        assert forall|i: int| 0 <= i < k implies a[i] == b[i] by {
            if i > 0 {
                assert(a.drop_first()[i - 1] == b.drop_first()[i - 1]);
            }
        }
        if k < a.len() && k < b.len() {
            assert(a.drop_first()[rest] == a[k] && b.drop_first()[rest] == b[k]);
        }
        k
    }
}

/// Tagged byte strings with one tag are ordered by their bytes.
/// After one tag, bytes come in their own order.
pub proof fn lemma_tagged_bytes(tag: int, a: Seq<u8>, b: Seq<u8>)
    ensures
        order::lex_less(
            seq![tag] + order::byte_ints(a),
            seq![tag] + order::byte_ints(b),
            order::int_less(),
        ) <==> bytes_before(a, b),
{
    let x = seq![tag] + order::byte_ints(a);
    let y = seq![tag] + order::byte_ints(b);
    let k = lemma_first_difference(a, b);
    assert forall|i: int| 0 <= i < k + 1 implies x[i] == y[i] by {
        if i > 0 {
            assert(a[i - 1] == b[i - 1]);
        }
    }
    order::law_lex_strict_total(order::int_less());
    order::lemma_lex_at(x, y, k + 1, order::int_less());
    let l = order::lex(order::int_less());
    assert(!l(x, x));
    if k < b.len() && (k == a.len() || a[k] < b[k]) {
        assert(parts_at(a, b, k));
        if k < a.len() {
            assert(x[k + 1] == a[k] && y[k + 1] == b[k]);
        }
    } else {
        if bytes_before(a, b) {
            let m = choose|m: int| #[trigger] parts_at(a, b, m);
            assert(m <= k);
            assert(m == k);
        }
        if k < a.len() && k < b.len() {
            assert(x[k + 1] == a[k] && y[k + 1] == b[k]);
        }
    }
}

/// Law: NULL comes before whole numbers, those before doubles, then texts,
/// UUIDs, blobs and JSON. Whole numbers are ordered by size, doubles by sign
/// and magnitude, texts and JSON by their UTF-8 bytes, UUIDs and blobs by
/// their bytes.
pub proof fn law_values_are_ordered(a: ValueModel, b: ValueModel)
    ensures
        value::value_less()(a, b) <==> comes_before(a, b),
{
    let x = value::value_rank(a);
    let y = value::value_rank(b);
    match (a, b) {
        (ValueModel::Text(s), ValueModel::Text(t)) => {
            lemma_tagged_bytes(3, vstd::utf8::encode_utf8(s), vstd::utf8::encode_utf8(t));
        },
        (ValueModel::Json(s), ValueModel::Json(t)) => {
            lemma_tagged_bytes(6, vstd::utf8::encode_utf8(s), vstd::utf8::encode_utf8(t));
        },
        (ValueModel::Uuid(s), ValueModel::Uuid(t)) => {
            lemma_tagged_bytes(4, s, t);
        },
        (ValueModel::Blob(s), ValueModel::Blob(t)) => {
            lemma_tagged_bytes(5, s, t);
        },
        _ => {
            order::law_lex_strict_total(order::int_less());
            let l = order::lex(order::int_less());
            assert(!l(x, x));
            if kind_place(a) == kind_place(b) {
                if a == b {
                } else {
                    order::lemma_lex_at(x, y, 1, order::int_less());
                }
            } else {
                order::lemma_lex_at(x, y, 0, order::int_less());
            }
        },
    }
}

/// Law: of two distinct values exactly one comes before the other.
pub proof fn law_one_value_comes_first(a: ValueModel, b: ValueModel)
    ensures
        !comes_before(a, a),
        a != b ==> comes_before(a, b) != comes_before(b, a),
{
    value::law_value_order_total();
    let less = value::value_less();
    law_values_are_ordered(a, a);
    law_values_are_ordered(a, b);
    law_values_are_ordered(b, a);
    assert(!less(a, a));
    assert(less(a, b) && less(b, a) ==> less(a, a));
    assert(a != b ==> less(a, b) || less(b, a));
}

} // verus!
