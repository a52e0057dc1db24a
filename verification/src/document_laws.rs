//! What is read of documents, what is done with them, and what parameters are.
use vstd::prelude::*;
use crate::documents::{self, ChangeKeyModel, DocumentType, SyncStep};
use crate::order::{self, Comparison};
use crate::facade::DatabaseError;
use crate::sql::params::{self, SqlParams};
use crate::value::{EngineValue, ValueModel};
use crate::value_laws::{self, bytes_before};

verus! {

/// Law: the bytes of a key are those of the document, one that tells snapshots
/// from increments, and those of the hash, in this order.
pub proof fn law_key_bytes(k: ChangeKeyModel)
    requires
        k.doc_id.len() == 16,
        k.change_hash.len() == 32,
    ensures
        ({
            let bytes = documents::change_key_bytes(k);
            &&& bytes.len() == 49
            &&& forall|i: int| 0 <= i < 16 ==> #[trigger] bytes[i] == k.doc_id[i]
            &&& bytes[16] == match k.doc_type {
                DocumentType::Incremental => 0u8,
                DocumentType::Snapshot => 1u8,
            }
            &&& forall|i: int| 17 <= i < 49 ==> #[trigger] bytes[i] == k.change_hash[i - 17]
        }),
{
}

/// Law: bytes that are too short for a key, or that say neither snapshot nor
/// increment, are none; any others begin with one.
pub proof fn law_key_is_read(data: Seq<u8>)
    ensures
        documents::change_key_of(data) is Some <==> data.len() >= 49 && (data[16] == 0 || data[16]
            == 1),
        documents::change_key_of(data) matches Some(k) ==> k.doc_id.len() == 16
            && k.change_hash.len() == 32 && data.take(49) == documents::change_key_bytes(k),
{
    if let Some(k) = documents::change_key_of(data) {
        assert(data.take(49) =~= documents::change_key_bytes(k));
    }
}

/// Law: of two keys that comes first whose bytes do: the one with the smaller
/// byte where they first differ, or the shorter one.
pub proof fn law_keys_compare(a: Seq<u8>, b: Seq<u8>)
    ensures
        ({
            let c = order::comparison(
                order::byte_ints(a),
                order::byte_ints(b),
                order::lex(order::int_less()),
            );
            &&& c == Comparison::Equal <==> a == b
            &&& c == Comparison::Less <==> bytes_before(a, b)
            &&& c == Comparison::Greater ==> a != b && !bytes_before(a, b)
        }),
{
    let x = order::byte_ints(a);
    let y = order::byte_ints(b);
    value_laws::lemma_tagged_bytes(0, a, b);
    assert((seq![0int] + x).drop_first() =~= x);
    assert((seq![0int] + y).drop_first() =~= y);
    assert(order::lex(order::int_less())(x, y) == order::lex_less(x, y, order::int_less()));
    if x == y {
        order::lemma_byte_ints_injective(a, b);
        if bytes_before(a, a) {
            assert(false);
        }
    }
}

/// Law: a further document adds its own length to the sum, and no documents have
/// none.
pub proof fn law_lengths_add_up(sizes: Seq<usize>, size: usize)
    ensures
        documents::total(Seq::empty()) == 0,
        documents::total(sizes.push(size)) == documents::total(sizes) + size,
{
    assert(sizes.push(size).drop_last() =~= sizes);
}

/// Law: what is read of documents is all before the first fault, in order, and
/// that fault is the one that is told; without a fault all of them are read.
pub proof fn law_documents_before_fault<D>(items: Seq<Result<D, String>>)
    ensures
        ({
            let read = documents::read_before_fault(items);
            &&& read.len() <= items.len()
            &&& forall|i: int|
                0 <= i < read.len() ==> Ok::<D, String>(#[trigger] read[i]) == items[i]
            &&& match documents::first_fault(items) {
                Some(fault) => read.len() < items.len() && (items[read.len() as int] matches Err(e)
                    && e@ == fault),
                None => read.len() == items.len(),
            }
        }),
    decreases items.len(),
{
    if items.len() > 0 {
        let rest = items.drop_first();
        law_documents_before_fault(rest);
        if items[0] is Ok {
            let read = documents::read_before_fault(items);
            let later = documents::read_before_fault(rest);
            assert forall|i: int| 0 <= i < read.len() implies Ok::<D, String>(#[trigger] read[i])
                == items[i] by {
                if i > 0 {
                    assert(read[i] == later[i - 1]);
                    assert(rest[i - 1] == items[i]);
                }
            }
            if documents::first_fault(rest) is Some {
                assert(rest[later.len() as int] == items[read.len() as int]);
            }
        }
    }
}

/// Law: of the documents of the other peer those that this one has are merged,
/// and the others are taken over.
pub proof fn law_sync_steps(left: Seq<Seq<u8>>, right: Seq<Seq<u8>>)
    ensures
        documents::steps(left, right).len() == right.len(),
        forall|i: int|
            0 <= i < right.len() ==> ((#[trigger] documents::steps(left, right)[i])
                == SyncStep::Merge <==> exists|j: int|
                0 <= j < left.len() && (#[trigger] left[j]) == right[i]),
{
    assert forall|i: int| 0 <= i < right.len() implies ((#[trigger] documents::steps(
        left,
        right,
    )[i]) == SyncStep::Merge <==> exists|j: int|
        0 <= j < left.len() && (#[trigger] left[j]) == right[i]) by {
        assert(left.contains(right[i]) <==> exists|j: int|
            0 <= j < left.len() && (#[trigger] left[j]) == right[i]);
    }
}

/// Law: a named parameter has the value that it was given last, and a name that
/// was given no value has none.
pub proof fn law_named_parameters(
    entries: Seq<(Seq<char>, ValueModel)>,
    name: Seq<char>,
    value: ValueModel,
    other: Seq<char>,
)
    ensures
        params::last_map(entries.push((name, value))).contains_key(name),
        params::last_map(entries.push((name, value)))[name] == value,
        other != name ==> (params::last_map(entries.push((name, value))).contains_key(other)
            <==> params::last_map(entries).contains_key(other)),
        other != name && params::last_map(entries).contains_key(other) ==> params::last_map(
            entries.push((name, value)),
        )[other] == params::last_map(entries)[other],
        !params::last_map(Seq::empty()).contains_key(name),
{
    assert(entries.push((name, value)).drop_last() =~= entries);
}

/// Law: the first parameter by place is at place one. There is none at place
/// zero nor after the last, and none by name.
pub proof fn law_positional_parameters(
    values: Vec<EngineValue>,
    at: usize,
    name: &str,
    value: Option<&EngineValue>,
    named: Option<&EngineValue>,
)
    requires
        call_ensures(SqlParams::get_positional, (&SqlParams::Positional(values), at), value),
        call_ensures(SqlParams::get_named, (&SqlParams::Positional(values), name), named),
    ensures
        at == 0 || at > values@.len() ==> value is None,
        0 < at <= values@.len() ==> (value matches Some(v) && v.deep_view()
            == values@[at - 1].deep_view()),
        named is None,
{
    assert(values.deep_view().len() == values@.len());
}

/// Law: the documents of a store that could be read are all there, in order,
/// where there was no fault, and none where the first could not be read. A fault
/// after that is told.
pub proof fn law_documents_are_collected<D>(
    items: Vec<Result<D, String>>,
    r: Result<Vec<D>, DatabaseError>,
)
    requires
        call_ensures(documents::collect_documents::<D>, (items,), r),
    ensures
        ({
            let all_read = forall|i: int| 0 <= i < items@.len() ==> (#[trigger] items@[i]) is Ok;
            &&& all_read ==> (r matches Ok(list) && list@.len() == items@.len() && forall|i: int|
                0 <= i < items@.len() ==> items@[i] == Ok::<D, String>(#[trigger] list@[i]))
            &&& items@.len() > 0 && items@[0] is Err ==> (r matches Ok(list) && list@.len() == 0)
            &&& items@.len() > 0 && items@[0] is Ok && !all_read ==> r is Err
        }),
{
    law_documents_before_fault(items@);
    let read = documents::read_before_fault(items@);
    if documents::first_fault(items@) is Some {
        assert(items@[read.len() as int] is Err);
    } else {
        assert forall|i: int| 0 <= i < items@.len() implies (#[trigger] items@[i]) is Ok by {
            assert(Ok::<D, String>(read[i]) == items@[i]);
        }
    }
    if items@.len() > 0 && items@[0] is Err && read.len() > 0 {
        assert(Ok::<D, String>(read[0]) == items@[0]);
    }
}

} // verus!
