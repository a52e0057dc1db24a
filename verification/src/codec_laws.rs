//! What bytes hold.
use vstd::prelude::*;
use vstd::bytes::*;
use crate::codec::{self, DecodeError, EngineKeyCodec, EngineRowCodec};
use crate::sql::name_laws;
use crate::text::{self, NumberError};
use crate::value::{EngineKey, EngineRow, EngineValue, ValueModel};

verus! {

/// Law: a number is read where eight bytes are there: the number whose bytes,
/// the lowest first, they are.
pub proof fn law_number_is_its_bytes(s: Seq<u8>)
    ensures
        match codec::parsed_number(s) {
            Ok((n, rest)) => s == spec_u64_to_le_bytes(n) + rest,
            Err(e) => s.len() < 8 && e == DecodeError::Truncated,
        },
{
    if s.len() >= 8 {
        lemma_auto_spec_u64_to_from_le_bytes();
        let n = spec_u64_from_le_bytes(s.take(8));
        assert(spec_u64_to_le_bytes(n) == s.take(8));
        assert(s =~= s.take(8) + s.skip(8));
    }
}

/// Law: a list of bytes is read where its length and that many bytes are there.
pub proof fn law_bytes_are_their_bytes(s: Seq<u8>)
    ensures
        match codec::parsed_bytes(s) {
            Ok((b, rest)) => b.len() <= u64::MAX && s == spec_u64_to_le_bytes(b.len() as u64) + b
                + rest,
            Err(e) => e == DecodeError::Truncated && (s.len() < 8 || spec_u64_from_le_bytes(
                s.take(8),
            ) > s.len() - 8),
        },
{
    law_number_is_its_bytes(s);
    if let Ok((n, rest)) = codec::parsed_number(s) {
        if n <= rest.len() {
            assert(s =~= spec_u64_to_le_bytes(n) + rest.take(n as int) + rest.skip(n as int));
        }
    }
}

/// Law: a text is read where its bytes are there and are those of a text.
pub proof fn law_text_is_its_bytes(s: Seq<u8>)
    ensures
        codec::parsed_text(s) matches Ok((t, rest)) ==> codec::short_text(t) && s
            == spec_u64_to_le_bytes(vstd::utf8::encode_utf8(t).len() as u64)
            + vstd::utf8::encode_utf8(t) + rest,
{
    law_bytes_are_their_bytes(s);
    if let Ok((b, _)) = codec::parsed_bytes(s) {
        if vstd::utf8::valid_utf8(b) {
            vstd::utf8::decode_utf8_encode_utf8(b);
        }
    }
}

/// Law: the bytes of a value are one for its kind and then those of what it
/// holds: eight of a number, the lowest first; sixteen of a UUID; those of a text
/// or a blob, after their number.
pub proof fn law_value_bytes(i: i64, b: u64, t: Seq<char>, u: Seq<u8>)
    ensures
        codec::encoded_value(ValueModel::Null) == seq![0u8],
        codec::encoded_value(ValueModel::Integer(i)) == seq![1u8] + spec_u64_to_le_bytes(i as u64),
        codec::encoded_value(ValueModel::Float(b)) == seq![2u8] + spec_u64_to_le_bytes(b),
        codec::encoded_value(ValueModel::Text(t)) == seq![3u8] + (spec_u64_to_le_bytes(
            vstd::utf8::encode_utf8(t).len() as u64,
        ) + vstd::utf8::encode_utf8(t)),
        codec::encoded_value(ValueModel::Uuid(u)) == seq![4u8] + u,
        codec::encoded_value(ValueModel::Blob(u)) == seq![5u8] + (spec_u64_to_le_bytes(
            u.len() as u64,
        ) + u),
        codec::encoded_value(ValueModel::Json(t)) == seq![6u8] + (spec_u64_to_le_bytes(
            vstd::utf8::encode_utf8(t).len() as u64,
        ) + vstd::utf8::encode_utf8(t)),
{
}

/// Law: bytes are read as a value only where they begin with the bytes of that
/// value; a byte of no kind is refused.
pub proof fn law_value_is_its_bytes(s: Seq<u8>)
    ensures
        codec::parsed_value(s) matches Ok((v, rest)) ==> codec::encodable(v) && s
            == codec::encoded_value(v) + rest,
        s.len() == 0 ==> codec::parsed_value(s) == Err::<(ValueModel, Seq<u8>), DecodeError>(
            DecodeError::Truncated,
        ),
        s.len() > 0 && s[0] > 6 ==> codec::parsed_value(s) == Err::<
            (ValueModel, Seq<u8>),
            DecodeError,
        >(DecodeError::InvalidTag),
{
    if s.len() > 0 {
        let rest = s.skip(1);
        assert(s =~= seq![s[0]] + rest);
        law_number_is_its_bytes(rest);
        law_text_is_its_bytes(rest);
        law_bytes_are_their_bytes(rest);
        if let Ok((v, after)) = codec::parsed_value(s) {
            if s[0] == 1 {
                let n = codec::parsed_number(rest)->Ok_0.0;
                assert((n as i64) as u64 == n) by (bit_vector);
            }
            if s[0] == 4 {
                assert(rest =~= rest.take(16) + rest.skip(16));
            }
            assert(s =~= codec::encoded_value(v) + after);
        }
    }
}

proof fn lemma_items(s: Seq<u8>, n: nat)
    ensures
        codec::parsed_items::<EngineValue>(s, n) matches Ok((values, rest)) ==> values.len() == n
            && (forall|i: int|
            0 <= i < values.len() ==> codec::encodable(#[trigger] values[i])) && s
            == codec::encoded_items::<EngineValue>(values) + rest,
    decreases n,
{
    if n == 0 {
        assert(codec::encoded_items::<EngineValue>(Seq::empty()) =~= Seq::empty());
        assert(s =~= Seq::<u8>::empty() + s);
    } else {
        lemma_items(s, (n - 1) as nat);
        if let Ok((before, rest)) = codec::parsed_items::<EngineValue>(s, (n - 1) as nat) {
            law_value_is_its_bytes(rest);
            if let Ok((item, after)) = codec::parsed_value(rest) {
                let values = before.push(item);
                assert(values.drop_last() =~= before);
                assert(s =~= codec::encoded_items::<EngineValue>(values) + after);
                assert forall|i: int| 0 <= i < values.len() implies codec::encodable(
                    #[trigger] values[i],
                ) by {
                    if i < before.len() {
                        assert(values[i] == before[i]);
                    }
                }
            }
        }
    }
}

/// Law: bytes are a key or a row exactly if they are the bytes of one, all of
/// them and no more. Those of another version are refused as such.
pub proof fn law_row_is_its_bytes(s: Seq<u8>, values: Seq<ValueModel>)
    ensures
        codec::parsed_values(s) == Ok::<Seq<ValueModel>, DecodeError>(values) <==> (
        values.len() <= u64::MAX && (forall|i: int|
            0 <= i < values.len() ==> codec::encodable(#[trigger] values[i])) && s
            == codec::encoded_values(values)),
        s.len() > 0 && s[0] != 1 ==> codec::parsed_values(s) == Err::<
            Seq<ValueModel>,
            DecodeError,
        >(DecodeError::UnsupportedVersion),
        codec::encoded_values(values)[0] == 1,
{
    if codec::parsed_values(s) == Ok::<Seq<ValueModel>, DecodeError>(values) {
        let body = s.skip(1);
        law_number_is_its_bytes(body);
        let (n, rest) = codec::parsed_number(body)->Ok_0;
        lemma_items(rest, n as nat);
        assert(s =~= seq![s[0]] + body);
        assert(s =~= codec::encoded_values(values));
    }
    if values.len() <= u64::MAX && (forall|i: int|
        0 <= i < values.len() ==> codec::encodable(#[trigger] values[i])) && s
        == codec::encoded_values(values) {
        assert(codec::list_fits::<EngineValue>(values));
        codec::law_values_round_trip(values);
    }
}

/// Law: a row that was encoded is what its bytes are decoded as.
pub proof fn law_row_comes_back(
    row: EngineRow,
    bytes: Vec<u8>,
    data: &[u8],
    read: Result<EngineRow, DecodeError>,
)
    requires
        call_ensures(EngineRowCodec::encode, (&row,), bytes),
        call_ensures(EngineRowCodec::decode_checked, (data,), read),
        data@ == bytes@,
    ensures
        read matches Ok(r) && r.deep_view() == row.deep_view(),
{
    codec::law_values_round_trip(row.deep_view());
}

/// Law: a key that was encoded is what its bytes are decoded as.
pub proof fn law_key_comes_back(
    key: EngineKey,
    bytes: Vec<u8>,
    data: &[u8],
    read: Result<EngineKey, DecodeError>,
)
    requires
        call_ensures(EngineKeyCodec::encode, (&key,), bytes),
        call_ensures(EngineKeyCodec::decode_checked, (data,), read),
        data@ == bytes@,
    ensures
        read matches Ok(k) && k.deep_view() == key.deep_view(),
{
    codec::law_values_round_trip(key.deep_view());
}

/// Law: a number that was written out in decimal is read as itself.
pub proof fn law_number_comes_back(
    n: i64,
    written: String,
    given: &str,
    read: Result<i64, NumberError>,
)
    requires
        call_ensures(text::integer_decimal, (n,), written),
        call_ensures(text::parse_signed, (given,), read),
        given@ == written@,
    ensures
        read == Ok::<i64, NumberError>(n),
{
    name_laws::law_numbers_are_read_back(n as int);
}

} // verus!
