//! What is read out of rows.
use vstd::prelude::*;
use crate::float::{self, FloatOp};
use crate::row_deserialize_error::ReadErrorModel;
use crate::row_deserializer::{self, VisitModel};
use crate::schema::ColumnModel;
use crate::store::RowModel;
use crate::text;
use crate::value::ValueModel;

verus! {

/// Law: a whole number is read as that number, whatever type of number is asked
/// for, as long as the type can hold it; it is refused where it cannot. As a
/// double it is the nearest one, as a truth value whether it is not zero, and as
/// a text or as bytes it is refused.
pub proof fn law_whole_number_is_read<F: Fn(FloatOp) -> u64>(f: F, i: i64)
    ensures
        ({
            let v = ValueModel::Integer(i);
            &&& row_deserializer::as_any(v) == VisitModel::Signed(i)
            &&& row_deserializer::as_signed(v) == Ok::<VisitModel, ReadErrorModel>(
                VisitModel::Signed(i),
            )
            &&& match row_deserializer::as_signed_32(v) {
                Ok(VisitModel::Signed32(n)) => n == i,
                Ok(_) => false,
                Err(_) => i < -0x8000_0000 || i > 0x7fff_ffff,
            }
            &&& match row_deserializer::as_unsigned(v) {
                Ok(VisitModel::Unsigned(n)) => n == i,
                Ok(_) => false,
                Err(_) => i < 0,
            }
            &&& row_deserializer::as_double(f, v) == Ok::<VisitModel, ReadErrorModel>(
                VisitModel::Double(float::float_value(f, FloatOp::OfInteger(i))),
            )
            &&& row_deserializer::as_bool(v) == Ok::<VisitModel, ReadErrorModel>(
                VisitModel::Bool(i != 0),
            )
            &&& row_deserializer::as_text(v) is Err
            &&& row_deserializer::as_bytes(v) is Err
            &&& row_deserializer::as_sequence(v) is Err
        }),
{
}

/// Law: a double is read as it is, as a double and where any value will do; as
/// anything else it is refused.
pub proof fn law_double_is_read<F: Fn(FloatOp) -> u64>(f: F, b: u64)
    ensures
        ({
            let v = ValueModel::Float(b);
            &&& row_deserializer::as_any(v) == VisitModel::Double(b)
            &&& row_deserializer::as_double(f, v) == Ok::<VisitModel, ReadErrorModel>(
                VisitModel::Double(b),
            )
            &&& row_deserializer::as_signed(v) is Err
            &&& row_deserializer::as_signed_32(v) is Err
            &&& row_deserializer::as_unsigned(v) is Err
            &&& row_deserializer::as_bool(v) is Err
            &&& row_deserializer::as_text(v) is Err
            &&& row_deserializer::as_bytes(v) is Err
            &&& row_deserializer::as_sequence(v) is Err
        }),
{
}

/// Law: a text is read as it is, as a text and where any value will do; as a
/// truth value it is true exactly if it is `true` or `1`. As anything else it is
/// refused.
pub proof fn law_text_is_read<F: Fn(FloatOp) -> u64>(f: F, s: Seq<char>)
    ensures
        ({
            let v = ValueModel::Text(s);
            let yes = s == seq!['t', 'r', 'u', 'e'] || s == seq!['1'];
            &&& row_deserializer::as_any(v) == VisitModel::Text(s)
            &&& row_deserializer::as_text(v) == Ok::<VisitModel, ReadErrorModel>(
                VisitModel::Text(s),
            )
            &&& row_deserializer::as_bool(v) == Ok::<VisitModel, ReadErrorModel>(
                VisitModel::Bool(yes),
            )
            &&& row_deserializer::as_double(f, v) is Err
            &&& row_deserializer::as_signed(v) is Err
            &&& row_deserializer::as_signed_32(v) is Err
            &&& row_deserializer::as_unsigned(v) is Err
            &&& row_deserializer::as_bytes(v) is Err
            &&& row_deserializer::as_sequence(v) is Err
        }),
{
    reveal_strlit("true");
    reveal_strlit("1");
    assert("true"@ =~= seq!['t', 'r', 'u', 'e']);
    assert("1"@ =~= seq!['1']);
}

/// Law: UUIDs and blobs are read as their bytes, as bytes, as a sequence and where
/// any value will do; JSON is read as its text where any value will do. As
/// anything else they are refused.
pub proof fn law_bytes_are_read<F: Fn(FloatOp) -> u64>(f: F, bytes: Seq<u8>, s: Seq<char>)
    ensures
        forall|v: ValueModel|
            v == ValueModel::Uuid(bytes) || v == ValueModel::Blob(bytes) ==> {
                &&& #[trigger] row_deserializer::as_any(v) == VisitModel::Bytes(bytes)
                &&& row_deserializer::as_bytes(v) == Ok::<VisitModel, ReadErrorModel>(
                    VisitModel::Bytes(bytes),
                )
                &&& row_deserializer::as_sequence(v) == Ok::<Seq<u8>, ReadErrorModel>(bytes)
                &&& row_deserializer::as_double(f, v) is Err
                &&& row_deserializer::as_signed(v) is Err
                &&& row_deserializer::as_signed_32(v) is Err
                &&& row_deserializer::as_unsigned(v) is Err
                &&& row_deserializer::as_bool(v) is Err
                &&& row_deserializer::as_text(v) is Err
            },
        row_deserializer::as_any(ValueModel::Json(s)) == VisitModel::Text(s),
        row_deserializer::as_text(ValueModel::Json(s)) is Err,
        row_deserializer::as_bool(ValueModel::Json(s)) is Err,
        row_deserializer::as_signed(ValueModel::Json(s)) is Err,
        row_deserializer::as_bytes(ValueModel::Json(s)) is Err,
{
}

/// Law: NULL is read as a value that is missing, whatever is asked for, but for a
/// sequence, which it is not.
pub proof fn law_null_is_missing<F: Fn(FloatOp) -> u64>(f: F)
    ensures
        ({
            let v = ValueModel::Null;
            let missing = Ok::<VisitModel, ReadErrorModel>(VisitModel::Missing);
            &&& row_deserializer::as_any(v) == VisitModel::Missing
            &&& row_deserializer::as_signed(v) == missing
            &&& row_deserializer::as_signed_32(v) == missing
            &&& row_deserializer::as_unsigned(v) == missing
            &&& row_deserializer::as_double(f, v) == missing
            &&& row_deserializer::as_bool(v) == missing
            &&& row_deserializer::as_text(v) == missing
            &&& row_deserializer::as_bytes(v) == missing
            &&& row_deserializer::as_sequence(v) is Err
        }),
{
}

/// Two names are the same but for the case of their letters.
pub open spec fn same_name(a: Seq<char>, b: Seq<char>) -> bool {
    text::lowercased(a) == text::lowercased(b)
}

proof fn lemma_place_of(names: Seq<Seq<char>>, name: Seq<char>)
    ensures
        match row_deserializer::place_of(names, name) {
            Some(i) => 0 <= i < names.len() && names[i] == name && forall|j: int|
                0 <= j < i ==> names[j] != name,
            None => forall|j: int| 0 <= j < names.len() ==> names[j] != name,
        },
    decreases names.len(),
{
    if names.len() > 0 && names[0] != name {
        let rest = names.drop_first();
        lemma_place_of(rest, name);
        assert forall|j: int| 0 < j < names.len() implies names[j] == rest[j - 1] by {}
    }
}

/// Law: a value is found under the name of its column, the first of that name
/// whatever the case of the letters; under a name of no column, and where the row
/// ends before the column, there is none.
pub proof fn law_values_are_found_by_name(
    names: Seq<Seq<char>>,
    row: RowModel,
    name: Seq<char>,
)
    ensures
        match row_deserializer::named_value(names, row, name) {
            Ok(v) => exists|i: int|
                0 <= i < names.len() && i < row.len() && same_name(#[trigger] names[i], name)
                    && row[i] == v && forall|j: int| 0 <= j < i ==> !same_name(names[j], name),
            Err(_) => (forall|i: int|
                0 <= i < names.len() ==> !same_name(#[trigger] names[i], name)) || exists|i: int|
                row.len() <= i < names.len() && same_name(#[trigger] names[i], name) && forall|
                    j: int,
                |
                    0 <= j < i ==> !same_name(names[j], name),
        },
{
    let lower = row_deserializer::lowered(names);
    lemma_place_of(lower, text::lowercased(name));
    match row_deserializer::place_of(lower, text::lowercased(name)) {
        Some(i) => {
            assert(lower[i] == text::lowercased(names[i]));
            assert forall|j: int| 0 <= j < i implies !same_name(names[j], name) by {
                assert(lower[j] != text::lowercased(name));
            }
            assert(same_name(names[i], name));
        },
        None => {
            assert forall|i: int| 0 <= i < names.len() implies !same_name(
                #[trigger] names[i],
                name,
            ) by {
                assert(lower[i] != text::lowercased(name));
            }
        },
    }
}

/// Law: the names that a row of a table is read by are those of its columns, in
/// order.
pub proof fn law_names_of_columns(columns: Seq<ColumnModel>)
    ensures
        row_deserializer::names_of(columns).len() == columns.len(),
        forall|i: int|
            0 <= i < columns.len() ==> #[trigger] row_deserializer::names_of(columns)[i]
                == columns[i].name,
{
}

} // verus!
