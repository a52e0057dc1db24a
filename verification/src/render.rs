//! Values as they are shown in messages.
use vstd::prelude::*;
use crate::text::{self, decimal, integer_decimal, joined, joined3};
use crate::value::{EngineKey, EngineValue, ValueModel};

verus! {

/// A text in quotes, as [`quote`] writes it.
pub uninterp spec fn quoted(text: Seq<char>) -> Seq<char>;

/// The `Debug` form of `str`, by `format!`: the text in quotes, with the
/// characters escaped that need it. What is escaped, and how, is not stated.
#[verifier::external_body]
pub(crate) fn quote(text: &str) -> (r: String)
    ensures
        r@ == quoted(text@),
{
    format!("{:?}", text)
}

/// Bytes in decimal, with commas between them.
pub open spec fn bytes_text(bytes: Seq<u8>) -> Seq<char>
    decreases bytes.len(),
{
    if bytes.len() == 0 {
        Seq::empty()
    } else if bytes.len() == 1 {
        text::decimal_text(bytes[0] as nat)
    } else {
        bytes_text(bytes.drop_last()) + ", "@ + text::decimal_text(bytes.last() as nat)
    }
}

fn show_bytes(bytes: &[u8]) -> (r: String)
    ensures
        r@ == bytes_text(bytes@),
{
    if bytes.len() == 0 {
        let r = "".to_string();
        proof {
            reveal_strlit("");
            assert(r@ =~= Seq::<char>::empty());
        }
        return r;
    }
    let mut out = decimal(bytes[0] as u64);
    let mut i: usize = 1;
    proof {
        assert(bytes@.take(1)[0] == bytes@[0]);
    }
    while i < bytes.len()
        invariant
            1 <= i <= bytes.len(),
            out@ == bytes_text(bytes@.take(i as int)),
        decreases bytes.len() - i,
    {
        proof {
            assert(bytes@.take(i + 1).drop_last() =~= bytes@.take(i as int));
            assert(bytes@.take(i + 1).last() == bytes@[i as int]);
        }
        out = joined3(out.as_str(), ", ", decimal(bytes[i] as u64).as_str());
        i += 1;
    }
    proof {
        assert(bytes@.take(i as int) =~= bytes@);
    }
    out
}

/// A value with its kind. A float is shown by its bit pattern.
pub open spec fn value_text(v: ValueModel) -> Seq<char> {
    match v {
        ValueModel::Null => "Null"@,
        ValueModel::Integer(i) => "Integer("@ + text::integer_text(i as int) + ")"@,
        ValueModel::Float(b) => "Float("@ + text::decimal_text(b as nat) + ")"@,
        ValueModel::Text(t) => "Text("@ + quoted(t) + ")"@,
        ValueModel::Uuid(u) => "Uuid(["@ + bytes_text(u) + "])"@,
        ValueModel::Blob(b) => "Blob(["@ + bytes_text(b) + "])"@,
        ValueModel::Json(t) => "Json("@ + quoted(t) + ")"@,
    }
}

/// A value with its kind.
pub fn show_value(v: &EngineValue) -> (r: String)
    ensures
        r@ == value_text(v.deep_view()),
{
    match v {
        EngineValue::Null => "Null".to_string(),
        EngineValue::Integer(i) => joined3("Integer(", integer_decimal(*i).as_str(), ")"),
        EngineValue::Float(b) => joined3("Float(", decimal(*b).as_str(), ")"),
        EngineValue::Text(t) => joined3("Text(", quote(t.as_str()).as_str(), ")"),
        EngineValue::Uuid(u) => joined3("Uuid([", show_bytes(u.as_slice()).as_str(), "])"),
        EngineValue::Blob(b) => joined3("Blob([", show_bytes(b.as_slice()).as_str(), "])"),
        EngineValue::Json(t) => joined3("Json(", quote(t.as_str()).as_str(), ")"),
    }
}

/// Values with commas between them.
pub open spec fn values_text(values: Seq<ValueModel>) -> Seq<char>
    decreases values.len(),
{
    if values.len() == 0 {
        Seq::empty()
    } else if values.len() == 1 {
        value_text(values[0])
    } else {
        values_text(values.drop_last()) + ", "@ + value_text(values.last())
    }
}

/// The values of a key.
pub open spec fn key_text(key: Seq<ValueModel>) -> Seq<char> {
    "["@ + values_text(key) + "]"@
}

/// The values of a key.
pub fn show_key(key: &EngineKey) -> (r: String)
    ensures
        r@ == key_text(key.deep_view()),
{
    let values = key.values();
    let ghost all = values.deep_view();
    if values.len() == 0 {
        let r = joined("[", "]");
        proof {
            assert(all.len() == 0);
            assert(r@ =~= key_text(all));
        }
        return r;
    }
    let mut out = show_value(&values[0]);
    let mut i: usize = 1;
    proof {
        assert(all.take(1)[0] == values@[0].deep_view());
    }
    while i < values.len()
        invariant
            1 <= i <= values.len(),
            all == values.deep_view(),
            out@ == values_text(all.take(i as int)),
        decreases values.len() - i,
    {
        proof {
            assert(all.take(i + 1).drop_last() =~= all.take(i as int));
            assert(all.take(i + 1).last() == values@[i as int].deep_view());
        }
        out = joined3(out.as_str(), ", ", show_value(&values[i]).as_str());
        i += 1;
    }
    proof {
        assert(all.take(i as int) =~= all);
    }
    joined3("[", out.as_str(), "]")
}

} // verus!
