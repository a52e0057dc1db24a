//! Documents that peers keep in step: the keys of their changes, and what a
//! synchronisation has to do.
use vstd::prelude::*;
use crate::codec::DecodeError;
use crate::facade::{DatabaseError, DatabaseErrorModel};
use crate::order::{self, compare_bytes, Comparison};

verus! {

/// What is kept of a document under a key.
#[derive(Clone, Copy, Debug, PartialEq, Eq, Structural)]
pub enum DocumentType {
    Incremental,
    Snapshot,
}

/// The key of a change of a document.
#[derive(Clone, Copy, Debug, PartialEq, Eq)]
pub struct DocumentChangeKey {
    pub doc_id: [u8; 16],
    pub doc_type: DocumentType,
    pub change_hash: [u8; 32],
}

/// What a [`DocumentChangeKey`] is, mathematically.
#[verifier::ext_equal]
pub struct ChangeKeyModel {
    pub doc_id: Seq<u8>,
    pub doc_type: DocumentType,
    pub change_hash: Seq<u8>,
}

impl DeepView for DocumentChangeKey {
    type V = ChangeKeyModel;

    open spec fn deep_view(&self) -> ChangeKeyModel {
        ChangeKeyModel {
            doc_id: self.doc_id@,
            doc_type: self.doc_type,
            change_hash: self.change_hash@,
        }
    }
}

/// The byte for what is kept.
pub open spec fn type_byte(t: DocumentType) -> u8 {
    match t {
        DocumentType::Incremental => 0,
        DocumentType::Snapshot => 1,
    }
}

/// The bytes of a key: the document, what is kept, and the hash.
pub open spec fn change_key_bytes(k: ChangeKeyModel) -> Seq<u8> {
    k.doc_id.push(type_byte(k.doc_type)) + k.change_hash
}

/// The length of the bytes of a key.
pub const KEY_LEN: usize = 49;

/// The key that bytes begin with, if they are long enough and the byte for what
/// is kept is one.
pub open spec fn change_key_of(data: Seq<u8>) -> Option<ChangeKeyModel> {
    if data.len() < 49 || data[16] > 1 {
        None
    } else {
        Some(
            ChangeKeyModel {
                doc_id: data.take(16),
                doc_type: if data[16] == 0 {
                    DocumentType::Incremental
                } else {
                    DocumentType::Snapshot
                },
                change_hash: data.subrange(17, 49),
            },
        )
    }
}

/// Writes the keys of changes as bytes.
#[derive(Clone, Copy, Debug, Default)]
pub struct FacadeDocumentChangeKeyCodec;

impl FacadeDocumentChangeKeyCodec {
    /// The bytes of a key.
    pub fn encode(value: &DocumentChangeKey) -> (r: Vec<u8>)
        ensures
            r@ == change_key_bytes(value.deep_view()),
    {
        let mut out: Vec<u8> = Vec::new();
        Self::encode_into(value, &mut out);
        proof {
            assert(out@ =~= change_key_bytes(value.deep_view()));
        }
        out
    }

    /// Adds the bytes of a key to others.
    pub fn encode_into(value: &DocumentChangeKey, scratch: &mut Vec<u8>)
        ensures
            final(scratch)@ == old(scratch)@ + change_key_bytes(value.deep_view()),
    {
        scratch.extend_from_slice(value.doc_id.as_slice());
        scratch.push(
            match value.doc_type {
                DocumentType::Incremental => 0u8,
                DocumentType::Snapshot => 1u8,
            },
        );
        scratch.extend_from_slice(value.change_hash.as_slice());
        proof {
            assert(scratch@ =~= old(scratch)@ + change_key_bytes(value.deep_view()));
        }
    }

    /// The key that bytes begin with, which must be those of a key.
    pub fn decode(data: &[u8]) -> (r: DocumentChangeKey)
        requires
            change_key_of(data@) is Some,
        ensures
            change_key_of(data@) == Some(r.deep_view()),
    {
        let mut doc_id: [u8; 16] = [0u8; 16];
        let mut i: usize = 0;
        while i < 16
            invariant
                i <= 16,
                data@.len() >= 49,
                forall|j: int| 0 <= j < i ==> doc_id@[j] == data@[j],
            decreases 16 - i,
        {
            doc_id[i] = data[i];
            i += 1;
        }
        let mut change_hash: [u8; 32] = [0u8; 32];
        let mut k: usize = 0;
        while k < 32
            invariant
                k <= 32,
                data@.len() >= 49,
                forall|j: int| 0 <= j < k ==> change_hash@[j] == data@[j + 17],
            decreases 32 - k,
        {
            change_hash[k] = data[k + 17];
            k += 1;
        }
        let doc_type = if data[16] == 0 {
            DocumentType::Incremental
        } else {
            DocumentType::Snapshot
        };
        proof {
            assert(doc_id@ =~= data@.take(16));
            assert(change_hash@ =~= data@.subrange(17, 49));
        }
        DocumentChangeKey { doc_id, doc_type, change_hash }
    }

    /// The key that bytes begin with; bytes that are too short are refused.
    pub fn decode_checked(data: &[u8]) -> (r: Result<DocumentChangeKey, DecodeError>)
        requires
            data@.len() >= 49 ==> data@[16] <= 1,
        ensures
            match r {
                Ok(key) => change_key_of(data@) == Some(key.deep_view()),
                Err(e) => data@.len() < 49 && e == DecodeError::Truncated,
            },
    {
        if data.len() < KEY_LEN {
            return Err(DecodeError::Truncated);
        }
        Ok(Self::decode(data))
    }

    /// Compares keys by their bytes.
    pub fn compare(left: &[u8], right: &[u8]) -> (c: Comparison)
        ensures
            c == order::comparison(
                order::byte_ints(left@),
                order::byte_ints(right@),
                order::lex(order::int_less()),
            ),
    {
        compare_bytes(left, right)
    }
}

/// Law: the bytes of a key are read as that key.
pub proof fn law_change_key_round_trip(k: ChangeKeyModel)
    requires
        k.doc_id.len() == 16,
        k.change_hash.len() == 32,
    ensures
        change_key_bytes(k).len() == 49,
        change_key_of(change_key_bytes(k)) == Some(k),
{
    let data = change_key_bytes(k);
    assert(data.take(16) =~= k.doc_id);
    assert(data[16] == type_byte(k.doc_type));
    assert(data.subrange(17, 49) =~= k.change_hash);
}

/// Keeps bytes as they are.
#[derive(Clone, Copy, Debug, Default)]
pub struct FacadeVecBytesCodec;

impl FacadeVecBytesCodec {
    /// The bytes.
    pub fn encode(value: &Vec<u8>) -> (r: Vec<u8>)
        ensures
            r@ == value@,
    {
        Self::decode(value.as_slice())
    }

    /// The bytes.
    pub fn decode(data: &[u8]) -> (r: Vec<u8>)
        ensures
            r@ == data@,
    {
        let mut out: Vec<u8> = Vec::new();
        out.extend_from_slice(data);
        proof {
            assert(out@ =~= data@);
        }
        out
    }

    /// The bytes.
    pub fn decode_checked(data: &[u8]) -> (r: Result<Vec<u8>, DecodeError>)
        ensures
            r matches Ok(bytes) && bytes@ == data@,
    {
        Ok(Self::decode(data))
    }
}

/// How much there is to keep in step.
#[derive(Clone, Copy, Debug, Default, PartialEq, Eq)]
pub struct AutomergeSyncMetrics {
    pub document_count: usize,
    pub total_document_bytes: usize,
}

/// The sum of lengths.
pub open spec fn total(sizes: Seq<usize>) -> nat
    decreases sizes.len(),
{
    if sizes.len() == 0 {
        0
    } else {
        total(sizes.drop_last()) + sizes.last() as nat
    }
}

proof fn lemma_total_prefix(sizes: Seq<usize>, n: int)
    requires
        0 <= n <= sizes.len(),
    ensures
        total(sizes.take(n)) <= total(sizes),
    decreases sizes.len() - n,
{
    if n < sizes.len() {
        assert(sizes.take(n + 1).drop_last() =~= sizes.take(n));
        lemma_total_prefix(sizes, n + 1);
    } else {
        assert(sizes.take(n) =~= sizes);
    }
}

/// The number of documents and the sum of their lengths, which must fit.
pub fn automerge_metrics(sizes: &Vec<usize>) -> (r: AutomergeSyncMetrics)
    requires
        total(sizes@) <= usize::MAX,
    ensures
        r.document_count == sizes@.len(),
        r.total_document_bytes == total(sizes@),
{
    let mut sum: usize = 0;
    let mut i: usize = 0;
    while i < sizes.len()
        invariant
            i <= sizes.len(),
            total(sizes@) <= usize::MAX,
            sum == total(sizes@.take(i as int)),
        decreases sizes.len() - i,
    {
        proof {
            lemma_total_prefix(sizes@, i + 1);
            assert(sizes@.take(i + 1).drop_last() =~= sizes@.take(i as int));
        }
        sum += sizes[i];
        i += 1;
    }
    proof {
        assert(sizes@.take(i as int) =~= sizes@);
    }
    AutomergeSyncMetrics { document_count: sizes.len(), total_document_bytes: sum }
}

/// What was read of documents before the first fault.
pub open spec fn read_before_fault<D>(items: Seq<Result<D, String>>) -> Seq<D>
    decreases items.len(),
{
    if items.len() == 0 {
        Seq::empty()
    } else {
        match items[0] {
            Ok(document) => seq![document] + read_before_fault(items.drop_first()),
            Err(_) => Seq::empty(),
        }
    }
}

/// The first fault of reading documents.
pub open spec fn first_fault<D>(items: Seq<Result<D, String>>) -> Option<Seq<char>>
    decreases items.len(),
{
    if items.len() == 0 {
        None
    } else {
        match items[0] {
            Ok(_) => first_fault(items.drop_first()),
            Err(fault) => Some(fault@),
        }
    }
}

/// The documents of a store, as far as they were read. A store that fails at
/// the first document is taken to hold none.
pub fn collect_documents<D>(items: Vec<Result<D, String>>) -> (r: Result<Vec<D>, DatabaseError>)
    ensures
        match r {
            Ok(documents) => documents@ == read_before_fault(items@) && (first_fault(
                items@,
            ) is None || documents@.len() == 0),
            Err(e) => read_before_fault(items@).len() > 0 && first_fault(items@) is Some
                && e.deep_view() == DatabaseErrorModel::Engine(first_fault(items@)->Some_0),
        },
{
    let ghost all = items@;
    let mut rest = items;
    let mut documents: Vec<D> = Vec::new();
    proof {
        assert(Seq::<D>::empty() + read_before_fault(all) =~= read_before_fault(all));
    }
    while rest.len() > 0
        invariant
            all == items@,
            documents@ + read_before_fault(rest@) == read_before_fault(all),
            first_fault(rest@) == first_fault(all),
        decreases rest.len(),
    {
        let ghost before = rest@;
        let item = rest.remove(0);
        proof {
            assert(rest@ =~= before.drop_first());
        }
        match item {
            Ok(document) => {
                let ghost so_far = documents@;
                documents.push(document);
                proof {
                    assert(documents@ + read_before_fault(rest@) =~= so_far + read_before_fault(
                        before,
                    ));
                }
            },
            Err(fault) => {
                proof {
                    assert(documents@ =~= read_before_fault(all));
                }
                if documents.len() == 0 {
                    return Ok(documents);
                }
                return Err(DatabaseError::Engine(fault));
            },
        }
    }
    proof {
        assert(documents@ =~= read_before_fault(all));
    }
    Ok(documents)
}

/// What becomes of a document of the other peer.
#[derive(Clone, Copy, Debug, PartialEq, Eq, Structural)]
pub enum SyncStep {
    /// Both peers have it: the two are merged.
    Merge,
    /// It is taken over.
    Insert,
}

/// What becomes of the documents of the other peer, one by one.
pub open spec fn steps(left: Seq<Seq<u8>>, right: Seq<Seq<u8>>) -> Seq<SyncStep> {
    right.map_values(
        |id: Seq<u8>|
            if left.contains(id) {
                SyncStep::Merge
            } else {
                SyncStep::Insert
            },
    )
}

/// The identities of documents.
pub open spec fn ids(list: Seq<[u8; 16]>) -> Seq<Seq<u8>> {
    list.map_values(|id: [u8; 16]| id@)
}

/// Whether a list holds an identity.
fn holds_id(list: &Vec<[u8; 16]>, id: &[u8; 16]) -> (r: bool)
    ensures
        r == ids(list@).contains(id@),
{
    let ghost all = ids(list@);
    let mut i: usize = 0;
    while i < list.len()
        invariant
            i <= list.len(),
            all == ids(list@),
            forall|j: int| 0 <= j < i ==> (#[trigger] all[j]) != id@,
        decreases list.len() - i,
    {
        proof {
            let x = order::byte_ints(list@[i as int]@);
            let y = order::byte_ints(id@);
            if x == y {
                order::lemma_byte_ints_injective(list@[i as int]@, id@);
            }
        }
        match compare_bytes(list[i].as_slice(), id.as_slice()) {
            Comparison::Equal => {
                assert(all[i as int] == id@);
                return true;
            },
            _ => {},
        }
        i += 1;
    }
    false
}

/// What becomes of the documents of the other peer: those that both have are
/// merged, the others are taken over.
pub fn sync_steps(left: &Vec<[u8; 16]>, right: &Vec<[u8; 16]>) -> (r: Vec<SyncStep>)
    ensures
        r@ == steps(ids(left@), ids(right@)),
{
    let ghost wanted = steps(ids(left@), ids(right@));
    let mut out: Vec<SyncStep> = Vec::new();
    let mut i: usize = 0;
    while i < right.len()
        invariant
            i <= right.len(),
            wanted == steps(ids(left@), ids(right@)),
            out@ == wanted.take(i as int),
        decreases right.len() - i,
    {
        let step = if holds_id(left, &right[i]) {
            SyncStep::Merge
        } else {
            SyncStep::Insert
        };
        out.push(step);
        proof {
            assert(out@ =~= wanted.take(i + 1));
        }
        i += 1;
    }
    proof {
        assert(wanted.take(i as int) =~= wanted);
    }
    out
}

} // verus!
