//! Keys, rows and schemas as bytes.
//!
//! Numbers and lengths are eight bytes, the lowest first. A text is its length
//! in UTF-8 bytes and then those bytes. A value is one byte for its kind and
//! then its contents; lists are their length and then their elements.
use vstd::prelude::*;
use vstd::bytes::*;
use vstd::slice::slice_subrange;
use crate::order::{self, Comparison};
use crate::plain::{no_items, push_back};
use crate::schema::{
    ColumnModel, ColumnSchema, IndexModel, IndexSchema, TableModel, TableSchema,
};
use crate::value::{self, EngineKey, EngineRow, EngineType, EngineValue, ValueModel};

verus! {

/// Why bytes cannot be read.
#[derive(Clone, Copy, Debug, PartialEq, Eq, Structural)]
pub enum DecodeError {
    Truncated,
    InvalidTag,
    InvalidText,
    UnsupportedVersion,
    TrailingBytes,
    Overflow,
}

impl DeepView for DecodeError {
    type V = DecodeError;

    open spec fn deep_view(&self) -> DecodeError {
        *self
    }
}

/// What the error says.
pub open spec fn decode_error_text(e: DecodeError) -> Seq<char> {
    match e {
        DecodeError::Truncated => "truncated data"@,
        DecodeError::InvalidTag => "invalid tag"@,
        DecodeError::InvalidText => "invalid utf-8"@,
        DecodeError::UnsupportedVersion => "unsupported version"@,
        DecodeError::TrailingBytes => "trailing bytes"@,
        DecodeError::Overflow => "number too large"@,
    }
}

impl DecodeError {
    /// What the error says.
    pub fn text(self) -> (s: &'static str)
        ensures
            s@ == decode_error_text(self),
    {
        match self {
            DecodeError::Truncated => "truncated data",
            DecodeError::InvalidTag => "invalid tag",
            DecodeError::InvalidText => "invalid utf-8",
            DecodeError::UnsupportedVersion => "unsupported version",
            DecodeError::TrailingBytes => "trailing bytes",
            DecodeError::Overflow => "number too large",
        }
    }
}

/// What was read, and the bytes after it.
pub type Parsed<T> = Result<(T, Seq<u8>), DecodeError>;

/// `String::from_utf8`: bytes that are valid UTF-8 become the text that they
/// encode, others are refused.
#[verifier::external_body]
fn text_from_utf8(bytes: Vec<u8>) -> (r: Option<String>)
    ensures
        match r {
            Some(s) => vstd::utf8::valid_utf8(bytes@) && s@ == vstd::utf8::decode_utf8(bytes@),
            None => !vstd::utf8::valid_utf8(bytes@),
        },
{
    String::from_utf8(bytes).ok()
}

/// A number.
pub open spec fn parsed_number(s: Seq<u8>) -> Parsed<u64> {
    if s.len() < 8 {
        Err(DecodeError::Truncated)
    } else {
        Ok((spec_u64_from_le_bytes(s.take(8)), s.skip(8)))
    }
}

/// A list of bytes with its length.
pub open spec fn encoded_bytes(b: Seq<u8>) -> Seq<u8> {
    spec_u64_to_le_bytes(b.len() as u64) + b
}

pub open spec fn parsed_bytes(s: Seq<u8>) -> Parsed<Seq<u8>> {
    match parsed_number(s) {
        Err(e) => Err(e),
        Ok((n, rest)) => if n > rest.len() {
            Err(DecodeError::Truncated)
        } else {
            Ok((rest.take(n as int), rest.skip(n as int)))
        },
    }
}

/// A text.
pub open spec fn encoded_text(t: Seq<char>) -> Seq<u8> {
    encoded_bytes(vstd::utf8::encode_utf8(t))
}

pub open spec fn parsed_text(s: Seq<u8>) -> Parsed<Seq<char>> {
    match parsed_bytes(s) {
        Err(e) => Err(e),
        Ok((b, rest)) => if vstd::utf8::valid_utf8(b) {
            Ok((vstd::utf8::decode_utf8(b), rest))
        } else {
            Err(DecodeError::InvalidText)
        },
    }
}

/// A text whose length in bytes is a number of eight bytes.
pub open spec fn short_text(t: Seq<char>) -> bool {
    vstd::utf8::encode_utf8(t).len() <= u64::MAX
}

/// A value whose lengths are numbers of eight bytes.
pub open spec fn encodable(v: ValueModel) -> bool {
    match v {
        ValueModel::Text(t) => short_text(t),
        ValueModel::Uuid(u) => u.len() == 16,
        ValueModel::Blob(b) => b.len() <= u64::MAX,
        ValueModel::Json(t) => short_text(t),
        _ => true,
    }
}

/// A value.
pub open spec fn encoded_value(v: ValueModel) -> Seq<u8> {
    match v {
        ValueModel::Null => seq![0u8],
        ValueModel::Integer(i) => seq![1u8] + spec_u64_to_le_bytes(i as u64),
        ValueModel::Float(b) => seq![2u8] + spec_u64_to_le_bytes(b),
        ValueModel::Text(t) => seq![3u8] + encoded_text(t),
        ValueModel::Uuid(u) => seq![4u8] + u,
        ValueModel::Blob(b) => seq![5u8] + encoded_bytes(b),
        ValueModel::Json(t) => seq![6u8] + encoded_text(t),
    }
}

pub open spec fn parsed_value(s: Seq<u8>) -> Parsed<ValueModel> {
    if s.len() == 0 {
        Err(DecodeError::Truncated)
    } else {
        let rest = s.skip(1);
        if s[0] == 0 {
            Ok((ValueModel::Null, rest))
        } else if s[0] == 1 {
            match parsed_number(rest) {
                Err(e) => Err(e),
                Ok((n, rest)) => Ok((ValueModel::Integer(n as i64), rest)),
            }
        } else if s[0] == 2 {
            match parsed_number(rest) {
                Err(e) => Err(e),
                Ok((n, rest)) => Ok((ValueModel::Float(n), rest)),
            }
        } else if s[0] == 3 {
            match parsed_text(rest) {
                Err(e) => Err(e),
                Ok((t, rest)) => Ok((ValueModel::Text(t), rest)),
            }
        } else if s[0] == 4 {
            if rest.len() < 16 {
                Err(DecodeError::Truncated)
            } else {
                Ok((ValueModel::Uuid(rest.take(16)), rest.skip(16)))
            }
        } else if s[0] == 5 {
            match parsed_bytes(rest) {
                Err(e) => Err(e),
                Ok((b, rest)) => Ok((ValueModel::Blob(b), rest)),
            }
        } else if s[0] == 6 {
            match parsed_text(rest) {
                Err(e) => Err(e),
                Ok((t, rest)) => Ok((ValueModel::Json(t), rest)),
            }
        } else {
            Err(DecodeError::InvalidTag)
        }
    }
}

/// A way to turn values into bytes and back.
pub trait Encoded: DeepView + Sized {
    /// The value can be written.
    spec fn fits(v: <Self as DeepView>::V) -> bool;

    /// The bytes of a value.
    spec fn encoded(v: <Self as DeepView>::V) -> Seq<u8>;

    /// What bytes begin with.
    spec fn parsed(s: Seq<u8>) -> Parsed<<Self as DeepView>::V>;

    /// What is written is read back, whatever comes after it.
    proof fn read_back(v: <Self as DeepView>::V, rest: Seq<u8>)
        requires
            Self::fits(v),
        ensures
            Self::parsed(Self::encoded(v) + rest) == Ok::<
                (<Self as DeepView>::V, Seq<u8>),
                DecodeError,
            >((v, rest)),
    ;

    /// Writes a value, which fits if a program holds it.
    fn write_to(&self, out: &mut Vec<u8>)
        ensures
            Self::fits(self.deep_view()),
            final(out)@ == old(out)@ + Self::encoded(self.deep_view()),
    ;

    fn read_from(data: &[u8], at: usize) -> (r: Result<(Self, usize), DecodeError>)
        requires
            at <= data.len(),
        ensures
            match r {
                Ok((v, next)) => at <= next <= data.len() && Self::parsed(data@.skip(at as int))
                    == Ok::<(<Self as DeepView>::V, Seq<u8>), DecodeError>(
                    (v.deep_view(), data@.skip(next as int)),
                ),
                Err(e) => Self::parsed(data@.skip(at as int)) == Err::<
                    (<Self as DeepView>::V, Seq<u8>),
                    DecodeError,
                >(e),
            },
    ;
}

/// Adds bytes at the end of a list of bytes.
fn extend(out: &mut Vec<u8>, bytes: &[u8])
    ensures
        final(out)@ == old(out)@ + bytes@,
{
    let ghost before = out@;
    let mut i: usize = 0;
    proof {
        assert(before =~= before + bytes@.take(0));
    }
    while i < bytes.len()
        invariant
            i <= bytes.len(),
            out@ == before + bytes@.take(i as int),
        decreases bytes.len() - i,
    {
        out.push(bytes[i]);
        proof {
            assert(out@ =~= before + bytes@.take(i + 1));
        }
        i += 1;
    }
    proof {
        assert(bytes@.take(i as int) =~= bytes@);
    }
}

fn write_number(out: &mut Vec<u8>, n: u64)
    ensures
        final(out)@ == old(out)@ + spec_u64_to_le_bytes(n),
{
    let bytes = u64_to_le_bytes(n);
    extend(out, bytes.as_slice());
}

fn read_number(data: &[u8], at: usize) -> (r: Result<(u64, usize), DecodeError>)
    requires
        at <= data.len(),
    ensures
        match r {
            Ok((n, next)) => at <= next <= data.len() && parsed_number(data@.skip(at as int))
                == Ok::<(u64, Seq<u8>), DecodeError>((n, data@.skip(next as int))),
            Err(e) => parsed_number(data@.skip(at as int)) == Err::<(u64, Seq<u8>), DecodeError>(e),
        },
{
    if data.len() - at < 8 {
        return Err(DecodeError::Truncated);
    }
    let part = slice_subrange(data, at, at + 8);
    let n = u64_from_le_bytes(part);
    proof {
        let s = data@.skip(at as int);
        assert(part@ =~= s.take(8));
        assert(data@.skip(at + 8) =~= s.skip(8));
    }
    Ok((n, at + 8))
}

proof fn lemma_number_back(n: u64, rest: Seq<u8>)
    ensures
        parsed_number(spec_u64_to_le_bytes(n) + rest) == Ok::<(u64, Seq<u8>), DecodeError>(
            (n, rest),
        ),
{
    lemma_auto_spec_u64_to_from_le_bytes();
    let s = spec_u64_to_le_bytes(n) + rest;
    assert(spec_u64_to_le_bytes(n).len() == 8);
    assert(s.take(8) =~= spec_u64_to_le_bytes(n));
    assert(s.skip(8) =~= rest);
}

proof fn lemma_bytes_back(b: Seq<u8>, rest: Seq<u8>)
    requires
        b.len() <= u64::MAX,
    ensures
        parsed_bytes(encoded_bytes(b) + rest) == Ok::<(Seq<u8>, Seq<u8>), DecodeError>((b, rest)),
{
    let n = b.len() as u64;
    assert(encoded_bytes(b) + rest =~= spec_u64_to_le_bytes(n) + (b + rest));
    lemma_number_back(n, b + rest);
    assert((b + rest).take(n as int) =~= b);
    assert((b + rest).skip(n as int) =~= rest);
}

proof fn lemma_text_back(t: Seq<char>, rest: Seq<u8>)
    requires
        short_text(t),
    ensures
        parsed_text(encoded_text(t) + rest) == Ok::<(Seq<char>, Seq<u8>), DecodeError>((t, rest)),
{
    lemma_bytes_back(vstd::utf8::encode_utf8(t), rest);
    vstd::utf8::encode_utf8_valid_utf8(t);
    vstd::utf8::encode_utf8_decode_utf8(t);
}

fn write_bytes(out: &mut Vec<u8>, bytes: &[u8])
    ensures
        bytes@.len() <= u64::MAX,
        final(out)@ == old(out)@ + encoded_bytes(bytes@),
{
    let ghost before = out@;
    write_number(out, bytes.len() as u64);
    extend(out, bytes);
    proof {
        assert(out@ =~= before + encoded_bytes(bytes@));
    }
}

fn read_bytes(data: &[u8], at: usize) -> (r: Result<(Vec<u8>, usize), DecodeError>)
    requires
        at <= data.len(),
    ensures
        match r {
            Ok((b, next)) => at <= next <= data.len() && parsed_bytes(data@.skip(at as int))
                == Ok::<(Seq<u8>, Seq<u8>), DecodeError>((b@, data@.skip(next as int))),
            Err(e) => parsed_bytes(data@.skip(at as int)) == Err::<
                (Seq<u8>, Seq<u8>),
                DecodeError,
            >(e),
        },
{
    let (n, start) = match read_number(data, at) {
        Ok((n, start)) => (n, start),
        Err(e) => {
            return Err(e);
        },
    };
    assert(data@.skip(start as int).len() == data.len() - start);
    if n > (data.len() - start) as u64 {
        return Err(DecodeError::Truncated);
    }
    let end: usize = start + n as usize;
    let part = slice_subrange(data, start, end);
    let mut bytes: Vec<u8> = Vec::new();
    extend(&mut bytes, part);
    proof {
        let s = data@.skip(start as int);
        assert(bytes@ =~= s.take(n as int));
        assert(data@.skip(end as int) =~= s.skip(n as int));
    }
    Ok((bytes, end))
}

fn write_text(out: &mut Vec<u8>, text: &str)
    ensures
        short_text(text@),
        final(out)@ == old(out)@ + encoded_text(text@),
{
    write_bytes(out, text.as_bytes());
}

fn read_text(data: &[u8], at: usize) -> (r: Result<(String, usize), DecodeError>)
    requires
        at <= data.len(),
    ensures
        match r {
            Ok((t, next)) => at <= next <= data.len() && parsed_text(data@.skip(at as int)) == Ok::<
                (Seq<char>, Seq<u8>),
                DecodeError,
            >((t@, data@.skip(next as int))),
            Err(e) => parsed_text(data@.skip(at as int)) == Err::<
                (Seq<char>, Seq<u8>),
                DecodeError,
            >(e),
        },
{
    match read_bytes(data, at) {
        Ok((bytes, next)) => match text_from_utf8(bytes) {
            Some(t) => Ok((t, next)),
            None => Err(DecodeError::InvalidText),
        },
        Err(e) => Err(e),
    }
}

impl Encoded for usize {
    open spec fn fits(v: usize) -> bool {
        true
    }

    open spec fn encoded(v: usize) -> Seq<u8> {
        spec_u64_to_le_bytes(v as u64)
    }

    open spec fn parsed(s: Seq<u8>) -> Parsed<usize> {
        match parsed_number(s) {
            Err(e) => Err(e),
            Ok((n, rest)) => if n > usize::MAX {
                Err(DecodeError::Overflow)
            } else {
                Ok((n as usize, rest))
            },
        }
    }

    proof fn read_back(v: usize, rest: Seq<u8>) {
        lemma_number_back(v as u64, rest);
    }

    fn write_to(&self, out: &mut Vec<u8>) {
        write_number(out, *self as u64);
    }

    fn read_from(data: &[u8], at: usize) -> (r: Result<(usize, usize), DecodeError>) {
        match read_number(data, at) {
            Ok((n, next)) => if n > usize::MAX as u64 {
                Err(DecodeError::Overflow)
            } else {
                Ok((n as usize, next))
            },
            Err(e) => Err(e),
        }
    }
}

proof fn lemma_tag(tag: u8, body: Seq<u8>, rest: Seq<u8>)
    ensures
        (seq![tag] + body + rest).len() > 0,
        (seq![tag] + body + rest)[0] == tag,
        (seq![tag] + body + rest).skip(1) == body + rest,
{
    assert((seq![tag] + body + rest).skip(1) =~= body + rest);
}

impl Encoded for EngineValue {
    open spec fn fits(v: ValueModel) -> bool {
        encodable(v)
    }

    open spec fn encoded(v: ValueModel) -> Seq<u8> {
        encoded_value(v)
    }

    open spec fn parsed(s: Seq<u8>) -> Parsed<ValueModel> {
        parsed_value(s)
    }

    proof fn read_back(v: ValueModel, rest: Seq<u8>) {
        match v {
            ValueModel::Null => {
                lemma_tag(0, Seq::empty(), rest);
                assert(seq![0u8] + Seq::<u8>::empty() =~= seq![0u8]);
                assert(Seq::<u8>::empty() + rest =~= rest);
            },
            ValueModel::Integer(i) => {
                lemma_tag(1, spec_u64_to_le_bytes(i as u64), rest);
                lemma_number_back(i as u64, rest);
                assert((i as u64) as i64 == i) by (bit_vector);
            },
            ValueModel::Float(b) => {
                lemma_tag(2, spec_u64_to_le_bytes(b), rest);
                lemma_number_back(b, rest);
            },
            ValueModel::Text(t) => {
                lemma_tag(3, encoded_text(t), rest);
                lemma_text_back(t, rest);
            },
            ValueModel::Uuid(u) => {
                lemma_tag(4, u, rest);
                assert((u + rest).take(16) =~= u);
                assert((u + rest).skip(16) =~= rest);
            },
            ValueModel::Blob(b) => {
                lemma_tag(5, encoded_bytes(b), rest);
                lemma_bytes_back(b, rest);
            },
            ValueModel::Json(t) => {
                lemma_tag(6, encoded_text(t), rest);
                lemma_text_back(t, rest);
            },
        }
    }

    fn write_to(&self, out: &mut Vec<u8>) {
        let ghost before = out@;
        match self {
            EngineValue::Null => {
                out.push(0);
            },
            EngineValue::Integer(i) => {
                out.push(1);
                write_number(out, *i as u64);
            },
            EngineValue::Float(b) => {
                out.push(2);
                write_number(out, *b);
            },
            EngineValue::Text(t) => {
                out.push(3);
                write_text(out, t.as_str());
            },
            EngineValue::Uuid(u) => {
                out.push(4);
                extend(out, u.as_slice());
            },
            EngineValue::Blob(b) => {
                out.push(5);
                write_bytes(out, b.as_slice());
            },
            EngineValue::Json(t) => {
                out.push(6);
                write_text(out, t.as_str());
            },
        }
        proof {
            assert(out@ =~= before + encoded_value(self.deep_view()));
        }
    }

    fn read_from(data: &[u8], at: usize) -> (r: Result<(EngineValue, usize), DecodeError>) {
        let ghost s = data@.skip(at as int);
        if at >= data.len() {
            return Err(DecodeError::Truncated);
        }
        let tag: u8 = data[at];
        let start: usize = at + 1;
        proof {
            assert(s[0] == tag);
            assert(data@.skip(start as int) =~= s.skip(1));
        }
        if tag == 0 {
            Ok((EngineValue::Null, start))
        } else if tag == 1 {
            match read_number(data, start) {
                Ok((n, next)) => Ok((EngineValue::Integer(n as i64), next)),
                Err(e) => Err(e),
            }
        } else if tag == 2 {
            match read_number(data, start) {
                Ok((n, next)) => Ok((EngineValue::Float(n), next)),
                Err(e) => Err(e),
            }
        } else if tag == 3 {
            match read_text(data, start) {
                Ok((t, next)) => Ok((EngineValue::Text(t), next)),
                Err(e) => Err(e),
            }
        } else if tag == 4 {
            if data.len() - start < 16 {
                return Err(DecodeError::Truncated);
            }
            let mut uuid: [u8; 16] = [0u8; 16];
            let mut i: usize = 0;
            while i < 16
                invariant
                    i <= 16,
                    start + 16 <= data.len(),
                    forall|j: int| 0 <= j < i ==> uuid@[j] == data@[start + j],
                decreases 16 - i,
            {
                uuid[i] = data[start + i];
                i += 1;
            }
            proof {
                let rest = data@.skip(start as int);
                assert(uuid@ =~= rest.take(16));
                assert(data@.skip(start + 16) =~= rest.skip(16));
            }
            Ok((EngineValue::Uuid(uuid), start + 16))
        } else if tag == 5 {
            match read_bytes(data, start) {
                Ok((b, next)) => Ok((EngineValue::Blob(b), next)),
                Err(e) => Err(e),
            }
        } else if tag == 6 {
            match read_text(data, start) {
                Ok((t, next)) => Ok((EngineValue::Json(t), next)),
                Err(e) => Err(e),
            }
        } else {
            Err(DecodeError::InvalidTag)
        }
    }
}

/// The bytes of values, one after the other.
pub open spec fn encoded_items<T: Encoded>(items: Seq<<T as DeepView>::V>) -> Seq<u8>
    decreases items.len(),
{
    if items.len() == 0 {
        Seq::empty()
    } else {
        encoded_items::<T>(items.drop_last()) + T::encoded(items.last())
    }
}

/// `n` values, one after the other.
pub open spec fn parsed_items<T: Encoded>(s: Seq<u8>, n: nat) -> Parsed<Seq<<T as DeepView>::V>>
    decreases n,
{
    if n == 0 {
        Ok((Seq::empty(), s))
    } else {
        match parsed_items::<T>(s, (n - 1) as nat) {
            Err(e) => Err(e),
            Ok((before, rest)) => match T::parsed(rest) {
                Err(e) => Err(e),
                Ok((item, rest)) => Ok((before.push(item), rest)),
            },
        }
    }
}

proof fn lemma_items_prefix<T: Encoded>(s: Seq<u8>, k: nat, n: nat)
    requires
        k <= n,
        parsed_items::<T>(s, k) is Err,
    ensures
        parsed_items::<T>(s, n) is Err,
        parsed_items::<T>(s, n)->Err_0 == parsed_items::<T>(s, k)->Err_0,
    decreases n - k,
{
    if k < n {
        lemma_items_prefix::<T>(s, k, (n - 1) as nat);
    }
}

proof fn lemma_items_back<T: Encoded>(items: Seq<<T as DeepView>::V>, rest: Seq<u8>)
    requires
        forall|i: int| 0 <= i < items.len() ==> T::fits(#[trigger] items[i]),
    ensures
        parsed_items::<T>(encoded_items::<T>(items) + rest, items.len()) == Ok::<
            (Seq<<T as DeepView>::V>, Seq<u8>),
            DecodeError,
        >((items, rest)),
    decreases items.len(),
{
    if items.len() == 0 {
        assert(Seq::<u8>::empty() + rest =~= rest);
        assert(items =~= Seq::empty());
    } else {
        let first = items.drop_last();
        let last = T::encoded(items.last());
        assert forall|i: int| 0 <= i < first.len() implies T::fits(#[trigger] first[i]) by {
            assert(T::fits(items[i]));
        }
        assert(T::fits(items[items.len() - 1]));
        lemma_items_back::<T>(first, last + rest);
        assert(encoded_items::<T>(items) + rest =~= encoded_items::<T>(first) + (last + rest));
        T::read_back(items.last(), rest);
        assert(first.push(items.last()) =~= items);
    }
}

/// A list: how many values, and the values.
pub open spec fn encoded_list<T: Encoded>(items: Seq<<T as DeepView>::V>) -> Seq<u8> {
    spec_u64_to_le_bytes(items.len() as u64) + encoded_items::<T>(items)
}

pub open spec fn parsed_list<T: Encoded>(s: Seq<u8>) -> Parsed<Seq<<T as DeepView>::V>> {
    match parsed_number(s) {
        Err(e) => Err(e),
        Ok((n, rest)) => parsed_items::<T>(rest, n as nat),
    }
}

/// A list whose length and values can be written.
pub open spec fn list_fits<T: Encoded>(items: Seq<<T as DeepView>::V>) -> bool {
    items.len() <= u64::MAX && forall|i: int|
        0 <= i < items.len() ==> T::fits(#[trigger] items[i])
}

/// Law: a list that is written is read back.
pub proof fn law_list_round_trip<T: Encoded>(items: Seq<<T as DeepView>::V>, rest: Seq<u8>)
    requires
        list_fits::<T>(items),
    ensures
        parsed_list::<T>(encoded_list::<T>(items) + rest) == Ok::<
            (Seq<<T as DeepView>::V>, Seq<u8>),
            DecodeError,
        >((items, rest)),
{
    let n = items.len() as u64;
    let body = encoded_items::<T>(items) + rest;
    assert(encoded_list::<T>(items) + rest =~= spec_u64_to_le_bytes(n) + body);
    lemma_number_back(n, body);
    lemma_items_back::<T>(items, rest);
}

/// Writes a list.
fn write_list<T: Encoded>(out: &mut Vec<u8>, items: &Vec<T>)
    ensures
        list_fits::<T>(items.deep_view()),
        final(out)@ == old(out)@ + encoded_list::<T>(items.deep_view()),
{
    let ghost before = out@;
    let ghost all = items.deep_view();
    write_number(out, items.len() as u64);
    let ghost start = out@;
    let mut i: usize = 0;
    proof {
        assert(start =~= start + encoded_items::<T>(all.take(0)));
    }
    while i < items.len()
        invariant
            i <= items.len(),
            all == items.deep_view(),
            forall|j: int| 0 <= j < i ==> T::fits(#[trigger] all[j]),
            out@ == start + encoded_items::<T>(all.take(i as int)),
        decreases items.len() - i,
    {
        items[i].write_to(out);
        proof {
            assert(all[i as int] == items@[i as int].deep_view());
            assert(all.take(i + 1).drop_last() =~= all.take(i as int));
            assert(all.take(i + 1).last() == all[i as int]);
            assert(out@ =~= start + encoded_items::<T>(all.take(i + 1)));
        }
        i += 1;
    }
    proof {
        assert(all.take(i as int) =~= all);
        assert(items.len() == all.len());
        assert(out@ =~= before + encoded_list::<T>(all));
    }
}

/// Reads a list.
fn read_list<T: Encoded>(data: &[u8], at: usize) -> (r: Result<(Vec<T>, usize), DecodeError>)
    requires
        at <= data.len(),
    ensures
        match r {
            Ok((items, next)) => at <= next <= data.len() && parsed_list::<T>(data@.skip(at as int))
                == Ok::<(Seq<<T as DeepView>::V>, Seq<u8>), DecodeError>(
                (items.deep_view(), data@.skip(next as int)),
            ),
            Err(e) => parsed_list::<T>(data@.skip(at as int)) == Err::<
                (Seq<<T as DeepView>::V>, Seq<u8>),
                DecodeError,
            >(e),
        },
{
    let (n, start) = match read_number(data, at) {
        Ok((n, start)) => (n, start),
        Err(e) => {
            return Err(e);
        },
    };
    let ghost whole = parsed_list::<T>(data@.skip(at as int));
    let ghost s = data@.skip(start as int);
    let mut items: Vec<T> = no_items();
    let mut next: usize = start;
    let mut i: u64 = 0;
    while i < n
        invariant
            i <= n,
            start <= next <= data.len(),
            at <= start,
            s == data@.skip(start as int),
            whole == parsed_list::<T>(data@.skip(at as int)),
            whole == parsed_items::<T>(s, n as nat),
            parsed_items::<T>(s, i as nat) == Ok::<(Seq<<T as DeepView>::V>, Seq<u8>), DecodeError>(
                (items.deep_view(), data@.skip(next as int)),
            ),
        decreases n - i,
    {
        match T::read_from(data, next) {
            Ok((item, after)) => {
                push_back(&mut items, item);
                next = after;
            },
            Err(e) => {
                proof {
                    lemma_items_prefix::<T>(s, (i + 1) as nat, n as nat);
                }
                return Err(e);
            },
        }
        i += 1;
    }
    Ok((items, next))
}

/// The byte that stands for a type.
pub open spec fn type_tag(t: EngineType) -> u8 {
    match t {
        EngineType::Integer => 0,
        EngineType::Float => 1,
        EngineType::Text => 2,
        EngineType::Uuid => 3,
        EngineType::Blob => 4,
    }
}

pub open spec fn type_of_tag(tag: u8) -> Option<EngineType> {
    if tag == 0 {
        Some(EngineType::Integer)
    } else if tag == 1 {
        Some(EngineType::Float)
    } else if tag == 2 {
        Some(EngineType::Text)
    } else if tag == 3 {
        Some(EngineType::Uuid)
    } else if tag == 4 {
        Some(EngineType::Blob)
    } else {
        None
    }
}

impl Encoded for ColumnSchema {
    open spec fn fits(v: ColumnModel) -> bool {
        short_text(v.name)
    }

    open spec fn encoded(v: ColumnModel) -> Seq<u8> {
        encoded_text(v.name) + seq![type_tag(v.data_type)]
    }

    open spec fn parsed(s: Seq<u8>) -> Parsed<ColumnModel> {
        match parsed_text(s) {
            Err(e) => Err(e),
            Ok((name, rest)) => if rest.len() == 0 {
                Err(DecodeError::Truncated)
            } else {
                match type_of_tag(rest[0]) {
                    None => Err(DecodeError::InvalidTag),
                    Some(data_type) => Ok((ColumnModel { name, data_type }, rest.skip(1))),
                }
            },
        }
    }

    proof fn read_back(v: ColumnModel, rest: Seq<u8>) {
        let tail = seq![type_tag(v.data_type)] + rest;
        assert(Self::encoded(v) + rest =~= encoded_text(v.name) + tail);
        lemma_text_back(v.name, tail);
        assert(tail.skip(1) =~= rest);
    }

    fn write_to(&self, out: &mut Vec<u8>) {
        let ghost before = out@;
        write_text(out, self.name.as_str());
        let tag: u8 = match self.data_type {
            EngineType::Integer => 0,
            EngineType::Float => 1,
            EngineType::Text => 2,
            EngineType::Uuid => 3,
            EngineType::Blob => 4,
        };
        out.push(tag);
        proof {
            assert(out@ =~= before + Self::encoded(self.deep_view()));
        }
    }

    fn read_from(data: &[u8], at: usize) -> (r: Result<(ColumnSchema, usize), DecodeError>) {
        let (name, next) = match read_text(data, at) {
            Ok((name, next)) => (name, next),
            Err(e) => {
                return Err(e);
            },
        };
        if next >= data.len() {
            return Err(DecodeError::Truncated);
        }
        let tag: u8 = data[next];
        proof {
            assert(data@.skip(next as int)[0] == tag);
            assert(data@.skip(next + 1) =~= data@.skip(next as int).skip(1));
        }
        let data_type = if tag == 0 {
            EngineType::Integer
        } else if tag == 1 {
            EngineType::Float
        } else if tag == 2 {
            EngineType::Text
        } else if tag == 3 {
            EngineType::Uuid
        } else if tag == 4 {
            EngineType::Blob
        } else {
            return Err(DecodeError::InvalidTag);
        };
        Ok((ColumnSchema { name, data_type }, next + 1))
    }
}

impl Encoded for TableSchema {
    open spec fn fits(v: TableModel) -> bool {
        short_text(v.name) && list_fits::<ColumnSchema>(v.columns) && list_fits::<usize>(
            v.primary_key,
        )
    }

    open spec fn encoded(v: TableModel) -> Seq<u8> {
        encoded_text(v.name) + encoded_list::<ColumnSchema>(v.columns) + encoded_list::<usize>(
            v.primary_key,
        )
    }

    open spec fn parsed(s: Seq<u8>) -> Parsed<TableModel> {
        match parsed_text(s) {
            Err(e) => Err(e),
            Ok((name, rest)) => match parsed_list::<ColumnSchema>(rest) {
                Err(e) => Err(e),
                Ok((columns, rest)) => match parsed_list::<usize>(rest) {
                    Err(e) => Err(e),
                    Ok((primary_key, rest)) => Ok(
                        (TableModel { name, columns, primary_key }, rest),
                    ),
                },
            },
        }
    }

    proof fn read_back(v: TableModel, rest: Seq<u8>) {
        let keys = encoded_list::<usize>(v.primary_key) + rest;
        let tail = encoded_list::<ColumnSchema>(v.columns) + keys;
        assert(Self::encoded(v) + rest =~= encoded_text(v.name) + tail);
        lemma_text_back(v.name, tail);
        law_list_round_trip::<ColumnSchema>(v.columns, keys);
        law_list_round_trip::<usize>(v.primary_key, rest);
    }

    fn write_to(&self, out: &mut Vec<u8>) {
        let ghost before = out@;
        write_text(out, self.name.as_str());
        write_list(out, &self.columns);
        write_list(out, &self.primary_key);
        proof {
            assert(out@ =~= before + Self::encoded(self.deep_view()));
        }
    }

    fn read_from(data: &[u8], at: usize) -> (r: Result<(TableSchema, usize), DecodeError>) {
        let (name, next) = match read_text(data, at) {
            Ok((name, next)) => (name, next),
            Err(e) => {
                return Err(e);
            },
        };
        let (columns, next) = match read_list::<ColumnSchema>(data, next) {
            Ok((columns, next)) => (columns, next),
            Err(e) => {
                return Err(e);
            },
        };
        match read_list::<usize>(data, next) {
            Ok((primary_key, next)) => Ok((TableSchema { name, columns, primary_key }, next)),
            Err(e) => Err(e),
        }
    }
}

impl Encoded for IndexSchema {
    open spec fn fits(v: IndexModel) -> bool {
        short_text(v.name) && short_text(v.table_name) && list_fits::<usize>(v.column_indices)
    }

    open spec fn encoded(v: IndexModel) -> Seq<u8> {
        encoded_text(v.name) + encoded_text(v.table_name) + encoded_list::<usize>(v.column_indices)
            + seq![
            if v.unique {
                1u8
            } else {
                0u8
            },
        ]
    }

    open spec fn parsed(s: Seq<u8>) -> Parsed<IndexModel> {
        match parsed_text(s) {
            Err(e) => Err(e),
            Ok((name, rest)) => match parsed_text(rest) {
                Err(e) => Err(e),
                Ok((table_name, rest)) => match parsed_list::<usize>(rest) {
                    Err(e) => Err(e),
                    Ok((column_indices, rest)) => if rest.len() == 0 {
                        Err(DecodeError::Truncated)
                    } else if rest[0] > 1 {
                        Err(DecodeError::InvalidTag)
                    } else {
                        Ok(
                            (
                                IndexModel { name, table_name, column_indices, unique: rest[0] == 1 },
                                rest.skip(1),
                            ),
                        )
                    },
                },
            },
        }
    }

    proof fn read_back(v: IndexModel, rest: Seq<u8>) {
        let flag: u8 = if v.unique {
            1
        } else {
            0
        };
        let end = seq![flag] + rest;
        let columns = encoded_list::<usize>(v.column_indices) + end;
        let tail = encoded_text(v.table_name) + columns;
        assert(Self::encoded(v) + rest =~= encoded_text(v.name) + tail);
        lemma_text_back(v.name, tail);
        lemma_text_back(v.table_name, columns);
        law_list_round_trip::<usize>(v.column_indices, end);
        assert(end.skip(1) =~= rest);
    }

    fn write_to(&self, out: &mut Vec<u8>) {
        let ghost before = out@;
        write_text(out, self.name.as_str());
        write_text(out, self.table_name.as_str());
        write_list(out, &self.column_indices);
        if self.unique {
            out.push(1);
        } else {
            out.push(0);
        }
        proof {
            assert(out@ =~= before + Self::encoded(self.deep_view()));
        }
    }

    fn read_from(data: &[u8], at: usize) -> (r: Result<(IndexSchema, usize), DecodeError>) {
        let (name, next) = match read_text(data, at) {
            Ok((name, next)) => (name, next),
            Err(e) => {
                return Err(e);
            },
        };
        let (table_name, next) = match read_text(data, next) {
            Ok((table_name, next)) => (table_name, next),
            Err(e) => {
                return Err(e);
            },
        };
        let (column_indices, next) = match read_list::<usize>(data, next) {
            Ok((column_indices, next)) => (column_indices, next),
            Err(e) => {
                return Err(e);
            },
        };
        if next >= data.len() {
            return Err(DecodeError::Truncated);
        }
        let flag: u8 = data[next];
        proof {
            assert(data@.skip(next as int)[0] == flag);
            assert(data@.skip(next + 1) =~= data@.skip(next as int).skip(1));
        }
        if flag > 1 {
            return Err(DecodeError::InvalidTag);
        }
        Ok((IndexSchema { name, table_name, column_indices, unique: flag == 1 }, next + 1))
    }
}

/// What bytes hold, with nothing after it.
pub open spec fn whole<T>(p: Parsed<T>) -> Result<T, DecodeError> {
    match p {
        Err(e) => Err(e),
        Ok((v, rest)) => if rest.len() == 0 {
            Ok(v)
        } else {
            Err(DecodeError::TrailingBytes)
        },
    }
}

/// The bytes of a value.
pub fn encode_to_vec<T: Encoded>(value: &T) -> (r: Vec<u8>)
    ensures
        r@ == T::encoded(value.deep_view()),
        T::fits(value.deep_view()),
{
    let mut out: Vec<u8> = Vec::new();
    value.write_to(&mut out);
    proof {
        assert(Seq::<u8>::empty() + T::encoded(value.deep_view()) =~= T::encoded(
            value.deep_view(),
        ));
    }
    out
}

/// The value that bytes hold.
pub fn decode_from_slice<T: Encoded>(data: &[u8]) -> (r: Result<T, DecodeError>)
    ensures
        match r {
            Ok(v) => whole(T::parsed(data@)) == Ok::<<T as DeepView>::V, DecodeError>(
                v.deep_view(),
            ),
            Err(e) => whole(T::parsed(data@)) == Err::<<T as DeepView>::V, DecodeError>(e),
        },
{
    proof {
        assert(data@.skip(0) =~= data@);
    }
    match T::read_from(data, 0) {
        Ok((v, next)) => {
            assert(data@.skip(next as int).len() == data.len() - next);
            if next == data.len() {
                Ok(v)
            } else {
                Err(DecodeError::TrailingBytes)
            }
        },
        Err(e) => Err(e),
    }
}

/// Law: what is encoded is decoded again.
pub proof fn law_round_trip<T: Encoded>(v: <T as DeepView>::V)
    requires
        T::fits(v),
    ensures
        whole(T::parsed(T::encoded(v))) == Ok::<<T as DeepView>::V, DecodeError>(v),
{
    T::read_back(v, Seq::empty());
    assert(T::encoded(v) + Seq::<u8>::empty() =~= T::encoded(v));
}

/// The version that keys and rows are written in.
pub const FORMAT_VERSION: u8 = 1;

/// A list of values with the version before it.
pub open spec fn encoded_values(values: Seq<ValueModel>) -> Seq<u8> {
    seq![FORMAT_VERSION] + encoded_list::<EngineValue>(values)
}

pub open spec fn parsed_values(s: Seq<u8>) -> Result<Seq<ValueModel>, DecodeError> {
    if s.len() == 0 {
        Err(DecodeError::Truncated)
    } else if s[0] != FORMAT_VERSION {
        Err(DecodeError::UnsupportedVersion)
    } else {
        whole(parsed_list::<EngineValue>(s.skip(1)))
    }
}

/// Law: a key or a row that is encoded is decoded again.
pub proof fn law_values_round_trip(values: Seq<ValueModel>)
    requires
        list_fits::<EngineValue>(values),
    ensures
        parsed_values(encoded_values(values)) == Ok::<Seq<ValueModel>, DecodeError>(values),
{
    let body = encoded_list::<EngineValue>(values);
    assert(encoded_values(values).skip(1) =~= body);
    assert(body + Seq::<u8>::empty() =~= body);
    law_list_round_trip::<EngineValue>(values, Seq::empty());
}

fn encode_values(values: &Vec<EngineValue>) -> (r: Vec<u8>)
    ensures
        r@ == encoded_values(values.deep_view()),
        list_fits::<EngineValue>(values.deep_view()),
{
    let mut out: Vec<u8> = Vec::new();
    out.push(FORMAT_VERSION);
    write_list(&mut out, values);
    proof {
        assert(out@ =~= encoded_values(values.deep_view()));
    }
    out
}

fn decode_values(data: &[u8]) -> (r: Result<Vec<EngineValue>, DecodeError>)
    ensures
        match r {
            Ok(values) => parsed_values(data@) == Ok::<Seq<ValueModel>, DecodeError>(
                values.deep_view(),
            ),
            Err(e) => parsed_values(data@) == Err::<Seq<ValueModel>, DecodeError>(e),
        },
{
    if data.len() == 0 {
        return Err(DecodeError::Truncated);
    }
    if data[0] != FORMAT_VERSION {
        return Err(DecodeError::UnsupportedVersion);
    }
    match read_list::<EngineValue>(data, 1) {
        Ok((values, next)) => {
            assert(data@.skip(next as int).len() == data.len() - next);
            if next == data.len() {
                Ok(values)
            } else {
                Err(DecodeError::TrailingBytes)
            }
        },
        Err(e) => Err(e),
    }
}

/// Encodes and compares keys for backends that hold bytes.
#[derive(Clone, Copy, Debug)]
pub struct EngineKeyCodec;

/// Encodes rows for backends that hold bytes.
#[derive(Clone, Copy, Debug)]
pub struct EngineRowCodec;

impl EngineKeyCodec {
    /// The bytes of a key.
    pub fn encode(value: &EngineKey) -> (r: Vec<u8>)
        ensures
            r@ == encoded_values(value.deep_view()),
            list_fits::<EngineValue>(value.deep_view()),
    {
        encode_values(value.values())
    }

    /// The key that bytes hold.
    pub fn decode_checked(data: &[u8]) -> (r: Result<EngineKey, DecodeError>)
        ensures
            match r {
                Ok(key) => parsed_values(data@) == Ok::<Seq<ValueModel>, DecodeError>(
                    key.deep_view(),
                ),
                Err(e) => parsed_values(data@) == Err::<Seq<ValueModel>, DecodeError>(e),
            },
    {
        match decode_values(data) {
            Ok(values) => Ok(EngineKey::from_values(values)),
            Err(e) => Err(e),
        }
    }

    /// The key that bytes hold, which must be those of a key.
    pub fn decode(data: &[u8]) -> (r: EngineKey)
        requires
            parsed_values(data@) is Ok,
        ensures
            r.deep_view() == parsed_values(data@)->Ok_0,
    {
        match Self::decode_checked(data) {
            Ok(key) => key,
            Err(_) => EngineKey::from_values(no_items()),
        }
    }

    /// Compares keys by their bytes, which must be those of keys.
    pub fn compare(left: &[u8], right: &[u8]) -> (c: Comparison)
        requires
            parsed_values(left@) is Ok,
            parsed_values(right@) is Ok,
        ensures
            c == order::comparison(
                parsed_values(left@)->Ok_0,
                parsed_values(right@)->Ok_0,
                value::key_less(),
            ),
    {
        let a = Self::decode(left);
        let b = Self::decode(right);
        a.compare(&b)
    }
}

/// Law: encoded keys compare as the keys do.
pub proof fn law_encoded_keys_compare(a: Seq<ValueModel>, b: Seq<ValueModel>)
    requires
        list_fits::<EngineValue>(a),
        list_fits::<EngineValue>(b),
    ensures
        parsed_values(encoded_values(a)) is Ok,
        parsed_values(encoded_values(b)) is Ok,
        order::comparison(
            parsed_values(encoded_values(a))->Ok_0,
            parsed_values(encoded_values(b))->Ok_0,
            value::key_less(),
        ) == order::comparison(a, b, value::key_less()),
{
    law_values_round_trip(a);
    law_values_round_trip(b);
}

impl EngineRowCodec {
    /// The bytes of a row.
    pub fn encode(value: &EngineRow) -> (r: Vec<u8>)
        ensures
            r@ == encoded_values(value.deep_view()),
            list_fits::<EngineValue>(value.deep_view()),
    {
        encode_values(value)
    }

    /// The row that bytes hold.
    pub fn decode_checked(data: &[u8]) -> (r: Result<EngineRow, DecodeError>)
        ensures
            match r {
                Ok(row) => parsed_values(data@) == Ok::<Seq<ValueModel>, DecodeError>(
                    row.deep_view(),
                ),
                Err(e) => parsed_values(data@) == Err::<Seq<ValueModel>, DecodeError>(e),
            },
    {
        decode_values(data)
    }

    /// The row that bytes hold, which must be those of a row.
    pub fn decode(data: &[u8]) -> (r: EngineRow)
        requires
            parsed_values(data@) is Ok,
        ensures
            r.deep_view() == parsed_values(data@)->Ok_0,
    {
        match decode_values(data) {
            Ok(row) => row,
            Err(_) => no_items(),
        }
    }
}

} // verus!
