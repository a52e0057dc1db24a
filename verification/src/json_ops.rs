//! JSON texts: validity, extraction by path, and merging.
use vstd::prelude::*;
use vstd::string::*;
use crate::plain::{self, same_text};
use crate::text::{self, characters, joined, parse_unsigned};
use crate::value::{EngineValue, ValueModel};

verus! {

/// A number as the `serde_json` crate holds it.
#[verifier::external_type_specification]
#[verifier::external_body]
pub struct ExNumber(serde_json::Number);

/// A value as the `serde_json` crate holds it.
#[verifier::external_type_specification]
#[verifier::external_body]
pub struct ExValue(serde_json::Value);

/// A JSON value. The members of an object come in the order of its map.
pub enum Json {
    Null,
    Bool(bool),
    Number(serde_json::Number),
    Text(String),
    Array(Vec<Json>),
    Object(Vec<(String, Json)>),
}

/// The members of an object, mathematically.
pub type Members = Seq<(Seq<char>, JsonModel)>;

/// What a [`Json`] is, mathematically.
#[verifier::ext_equal]
pub enum JsonModel {
    Null,
    Bool(bool),
    Number(serde_json::Number),
    Text(Seq<char>),
    Array(Seq<JsonModel>),
    Object(Seq<(Seq<char>, JsonModel)>),
}

/// What a value is, mathematically.
pub open spec fn json_model(json: Json) -> JsonModel
    decreases json,
{
    match json {
        Json::Null => JsonModel::Null,
        Json::Bool(b) => JsonModel::Bool(b),
        Json::Number(n) => JsonModel::Number(n),
        Json::Text(s) => JsonModel::Text(s@),
        Json::Array(items) => JsonModel::Array(
            Seq::new(
                items@.len(),
                |i: int|
                    if 0 <= i < items@.len() {
                        json_model(items@[i])
                    } else {
                        JsonModel::Null
                    },
            ),
        ),
        Json::Object(members) => JsonModel::Object(
            Seq::new(
                members@.len(),
                |i: int|
                    if 0 <= i < members@.len() {
                        (members@[i].0@, json_model(members@[i].1))
                    } else {
                        (Seq::empty(), JsonModel::Null)
                    },
            ),
        ),
    }
}

/// What members are, mathematically.
pub open spec fn members_model(members: Seq<(String, Json)>) -> Members {
    members.map_values(|member: (String, Json)| (member.0@, json_model(member.1)))
}

proof fn lemma_members(members: Vec<(String, Json)>)
    ensures
        json_model(Json::Object(members)) == JsonModel::Object(members_model(members@)),
{
    assert(json_model(Json::Object(members))->Object_0 =~= members_model(members@));
}

/// What came of reading a text, mathematically.
pub open spec fn reading(r: Result<Json, String>) -> Result<JsonModel, Seq<char>> {
    match r {
        Ok(json) => Ok(json_model(json)),
        Err(message) => Err(message@),
    }
}

/// The value that a `serde_json::Value` is, part for part.
#[verifier::external_body]
fn json_of(value: serde_json::Value) -> Json {
    match value {
        serde_json::Value::Null => Json::Null,
        serde_json::Value::Bool(b) => Json::Bool(b),
        serde_json::Value::Number(n) => Json::Number(n),
        serde_json::Value::String(s) => Json::Text(s),
        serde_json::Value::Array(items) => Json::Array(items.into_iter().map(json_of).collect()),
        serde_json::Value::Object(map) => Json::Object(
            map.into_iter().map(|member| (member.0, json_of(member.1))).collect(),
        ),
    }
}

/// The `serde_json::Value` that a value is, part for part.
#[verifier::external_body]
fn value_of(json: &Json) -> serde_json::Value {
    match json {
        Json::Null => serde_json::Value::Null,
        Json::Bool(b) => serde_json::Value::Bool(*b),
        Json::Number(n) => serde_json::Value::Number(n.clone()),
        Json::Text(s) => serde_json::Value::String(s.clone()),
        Json::Array(items) => serde_json::Value::Array(items.iter().map(value_of).collect()),
        Json::Object(members) => serde_json::Value::Object(
            members.iter().map(|member| (member.0.clone(), value_of(&member.1))).collect(),
        ),
    }
}

/// What `serde_json::from_str` makes of a text: the value, or the text of the
/// error.
pub uninterp spec fn parsed_json(text: Seq<char>) -> Result<JsonModel, Seq<char>>;

/// `serde_json::from_str`. It depends on the text alone; which texts it takes,
/// and as what, is left unsaid.
#[verifier::external_body]
fn parse_json(text: &str) -> (r: Result<Json, String>)
    ensures
        reading(r) == parsed_json(text@),
{
    match serde_json::from_str::<serde_json::Value>(text) {
        Ok(value) => Ok(json_of(value)),
        Err(error) => Err(error.to_string()),
    }
}

/// The text that `serde_json::Value` has by `to_string`.
pub uninterp spec fn json_text(json: JsonModel) -> Seq<char>;

/// `serde_json::Value::to_string`. The text depends on the value alone; how it
/// is written is left unsaid.
#[verifier::external_body]
fn write_json(json: &Json) -> (r: String)
    ensures
        r@ == json_text(json_model(*json)),
{
    value_of(json).to_string()
}

/// Whether a text is JSON.
pub fn json_valid(json_str: &str) -> (r: bool)
    ensures
        r == parsed_json(json_str@) is Ok,
{
    match parse_json(json_str) {
        Ok(_) => true,
        Err(_) => false,
    }
}

/// The place of the first `c`, or the length where there is none.
pub open spec fn place(s: Seq<char>, c: char) -> nat
    decreases s.len(),
{
    if s.len() == 0 || s[0] == c {
        0
    } else {
        place(s.drop_first(), c) + 1
    }
}

/// What follows all `c` at the beginning.
pub open spec fn without_leading(s: Seq<char>, c: char) -> Seq<char>
    decreases s.len(),
{
    if s.len() == 0 || s[0] != c {
        s
    } else {
        without_leading(s.drop_first(), c)
    }
}

/// The first member of a name in a list of members.
pub open spec fn member_of(members: Members, name: Seq<char>) -> Option<JsonModel>
    decreases members.len(),
{
    if members.len() == 0 {
        None
    } else if members[0].0 == name {
        Some(members[0].1)
    } else {
        member_of(members.drop_first(), name)
    }
}

/// The member of a name, if the value is an object that has one.
pub open spec fn field_of(json: JsonModel, name: Seq<char>) -> Option<JsonModel> {
    match json {
        JsonModel::Object(members) => member_of(members, name),
        _ => None,
    }
}

/// The element at a place, if the value is an array that has one.
pub open spec fn element_of(json: JsonModel, i: int) -> Option<JsonModel> {
    match json {
        JsonModel::Array(items) => if 0 <= i < items.len() {
            Some(items[i])
        } else {
            None
        },
        _ => None,
    }
}

/// The element under places in square brackets, one after the other. What
/// follows the last bracket is not looked at.
pub open spec fn indexed(json: JsonModel, s: Seq<char>) -> Option<JsonModel>
    decreases s.len(),
{
    if s.len() == 0 || s[0] != '[' {
        Some(json)
    } else {
        let end = place(s.drop_first(), ']');
        if end >= s.drop_first().len() {
            None
        } else {
            match text::unsigned_of(s.drop_first().take(end as int), usize::MAX as int) {
                Err(_) => None,
                Ok(i) => match element_of(json, i) {
                    None => None,
                    Some(next) => indexed(next, s.skip(end as int + 2)),
                },
            }
        }
    }
}

/// What a path without its first dots leads to.
pub open spec fn reached(json: JsonModel, path: Seq<char>) -> Option<JsonModel>
    decreases path.len(),
{
    let bracket = place(path, '[');
    let dot = place(path, '.');
    if path.len() == 0 {
        Some(json)
    } else if bracket < path.len() {
        if bracket == 0 {
            indexed(json, path)
        } else {
            match field_of(json, path.take(bracket as int)) {
                None => None,
                Some(next) => indexed(next, path.skip(bracket as int)),
            }
        }
    } else if dot < path.len() {
        match field_of(json, path.take(dot as int)) {
            None => None,
            Some(next) => {
                proof {
                    lemma_without_leading_len(path.skip(dot as int + 1), '.');
                }
                reached(next, without_leading(path.skip(dot as int + 1), '.'))
            },
        }
    } else {
        field_of(json, path)
    }
}

/// Nothing is added.
pub proof fn lemma_without_leading_len(s: Seq<char>, c: char)
    ensures
        without_leading(s, c).len() <= s.len(),
    decreases s.len(),
{
    if s.len() > 0 && s[0] == c {
        lemma_without_leading_len(s.drop_first(), c);
    }
}

/// What a path leads to. Dollar signs and then dots at its beginning say
/// nothing.
pub open spec fn extracted(json: JsonModel, path: Seq<char>) -> Option<JsonModel> {
    reached(json, without_leading(without_leading(path, '$'), '.'))
}

/// The place of the first `c` from `from` on.
fn find_from(chars: &Vec<char>, from: usize, c: char) -> (r: usize)
    requires
        from <= chars.len(),
    ensures
        from <= r <= chars.len(),
        r - from == place(chars@.skip(from as int), c),
{
    let mut i: usize = from;
    while i < chars.len() && chars[i] != c
        invariant
            from <= i <= chars.len(),
            place(chars@.skip(from as int), c) == i - from + place(chars@.skip(i as int), c),
        decreases chars.len() - i,
    {
        proof {
            assert(chars@.skip(i as int).drop_first() =~= chars@.skip(i + 1));
        }
        i += 1;
    }
    i
}

/// The place after all `c` from `from` on.
fn skip_from(chars: &Vec<char>, from: usize, c: char) -> (r: usize)
    requires
        from <= chars.len(),
    ensures
        from <= r <= chars.len(),
        chars@.skip(r as int) == without_leading(chars@.skip(from as int), c),
{
    let mut i: usize = from;
    while i < chars.len() && chars[i] == c
        invariant
            from <= i <= chars.len(),
            without_leading(chars@.skip(from as int), c) == without_leading(
                chars@.skip(i as int),
                c,
            ),
        decreases chars.len() - i,
    {
        proof {
            assert(chars@.skip(i as int).drop_first() =~= chars@.skip(i + 1));
        }
        i += 1;
    }
    i
}

/// The member of a name.
fn get_field<'a>(json: &'a Json, name: &str) -> (r: Option<&'a Json>)
    ensures
        match r {
            Some(next) => field_of(json_model(*json), name@) == Some(json_model(*next)),
            None => field_of(json_model(*json), name@) is None,
        },
{
    match json {
        Json::Object(members) => {
            let mut i: usize = 0;
            let ghost all = members_model(members@);
            proof {
                lemma_members(*members);
                assert(all.skip(0) =~= all);
            }
            while i < members.len()
                invariant
                    i <= members.len(),
                    all == members_model(members@),
                    field_of(json_model(*json), name@) == member_of(all.skip(i as int), name@),
                decreases members.len() - i,
            {
                proof {
                    assert(all.skip(i as int)[0] == all[i as int]);
                    assert(all.skip(i as int).drop_first() =~= all.skip(i + 1));
                }
                if same_text(members[i].0.as_str(), name) {
                    return Some(&members[i].1);
                }
                i += 1;
            }
            None
        },
        _ => None,
    }
}

/// The element at a place.
fn get_element(json: &Json, i: usize) -> (r: Option<&Json>)
    ensures
        match r {
            Some(next) => element_of(json_model(*json), i as int) == Some(json_model(*next)),
            None => element_of(json_model(*json), i as int) is None,
        },
{
    match json {
        Json::Array(items) => if i < items.len() {
            Some(&items[i])
        } else {
            None
        },
        _ => None,
    }
}

/// The element under places in square brackets, from `from` on.
fn extract_indices<'a>(json: &'a Json, path: &str, chars: &Vec<char>, from: usize) -> (r: Option<
    &'a Json,
>)
    requires
        chars@ == path@,
        from <= chars.len(),
    ensures
        match r {
            Some(next) => indexed(json_model(*json), path@.skip(from as int)) == Some(
                json_model(*next),
            ),
            None => indexed(json_model(*json), path@.skip(from as int)) is None,
        },
{
    let mut current = json;
    let mut at: usize = from;
    while at < chars.len() && chars[at] == '['
        invariant
            chars@ == path@,
            from <= at <= chars.len(),
            indexed(json_model(*json), path@.skip(from as int)) == indexed(
                json_model(*current),
                path@.skip(at as int),
            ),
        decreases chars.len() - at,
    {
        let ghost rest = path@.skip(at as int);
        proof {
            assert(rest[0] == '[');
            assert(rest.drop_first() =~= path@.skip(at + 1));
        }
        let end = find_from(chars, at + 1, ']');
        if end >= chars.len() {
            return None;
        }
        let number = path.substring_char(at + 1, end);
        proof {
            assert(number@ =~= rest.drop_first().take(end - (at + 1)));
            assert(rest.skip(end - (at + 1) + 2) =~= path@.skip(end + 1));
        }
        let index: usize = match parse_unsigned(number, usize::MAX as u64) {
            Ok(index) => index as usize,
            Err(_) => {
                return None;
            },
        };
        match get_element(current, index) {
            Some(next) => {
                current = next;
            },
            None => {
                return None;
            },
        }
        at = end + 1;
    }
    Some(current)
}

/// What a path leads to.
pub fn extract_path<'a>(json: &'a Json, path: &str) -> (r: Option<&'a Json>)
    ensures
        match r {
            Some(next) => extracted(json_model(*json), path@) == Some(json_model(*next)),
            None => extracted(json_model(*json), path@) is None,
        },
{
    let chars = characters(path);
    proof {
        assert(path@.skip(0) =~= path@);
    }
    let start = skip_from(&chars, 0, '$');
    let mut at: usize = skip_from(&chars, start, '.');
    let mut current = json;
    while at < chars.len()
        invariant
            chars@ == path@,
            at <= chars.len(),
            extracted(json_model(*json), path@) == reached(
                json_model(*current),
                path@.skip(at as int),
            ),
        decreases chars.len() - at,
    {
        let ghost rest = path@.skip(at as int);
        let bracket = find_from(&chars, at, '[');
        if bracket < chars.len() {
            if bracket == at {
                return extract_indices(current, path, &chars, at);
            }
            let name = path.substring_char(at, bracket);
            proof {
                assert(name@ =~= rest.take(bracket - at));
                assert(rest.skip(bracket - at) =~= path@.skip(bracket as int));
            }
            return match get_field(current, name) {
                Some(next) => extract_indices(next, path, &chars, bracket),
                None => None,
            };
        }
        let dot = find_from(&chars, at, '.');
        if dot >= chars.len() {
            let name = path.substring_char(at, chars.len());
            proof {
                assert(name@ =~= rest);
            }
            return get_field(current, name);
        }
        let name = path.substring_char(at, dot);
        proof {
            assert(name@ =~= rest.take(dot - at));
            assert(rest.skip(dot - at + 1) =~= path@.skip(dot + 1));
        }
        match get_field(current, name) {
            Some(next) => {
                current = next;
            },
            None => {
                return None;
            },
        }
        at = skip_from(&chars, dot + 1, '.');
    }
    proof {
        assert(path@.skip(at as int).len() == 0);
    }
    Some(current)
}

/// What extraction makes of a parsed text.
pub open spec fn extraction(parsed: Result<JsonModel, Seq<char>>, path: Seq<char>) -> Result<
    ValueModel,
    Seq<char>,
> {
    match parsed {
        Err(message) => Err("invalid JSON: "@ + message),
        Ok(json) => Ok(
            ValueModel::Json(
                match extracted(json, path) {
                    Some(found) => json_text(found),
                    None => "null"@,
                },
            ),
        ),
    }
}

/// Extracts from a parsed text.
pub fn extract_parsed(parsed: Result<Json, String>, path: &str) -> (r: Result<EngineValue, String>)
    ensures
        plain::outcome(r) == extraction(reading(parsed), path@),
{
    match parsed {
        Ok(json) => match extract_path(&json, path) {
            Some(found) => Ok(EngineValue::Json(write_json(found))),
            None => Ok(EngineValue::Json("null".to_string())),
        },
        Err(message) => Err(joined("invalid JSON: ", message.as_str())),
    }
}

/// The part of a JSON text that a path leads to, as JSON; `null` where it leads
/// to nothing.
pub fn json_extract(json_str: &str, path: &str) -> (r: Result<EngineValue, String>)
    ensures
        plain::outcome(r) == extraction(parsed_json(json_str@), path@),
{
    extract_parsed(parse_json(json_str), path)
}

/// The place of a name among members.
pub open spec fn member_place(members: Members, name: Seq<char>) -> Option<int>
    decreases members.len(),
{
    if members.len() == 0 {
        None
    } else if members[0].0 == name {
        Some(0)
    } else {
        match member_place(members.drop_first(), name) {
            Some(i) => Some(i + 1),
            None => None,
        }
    }
}

/// Members with one put in: in the place of the first of that name, or at the
/// end.
pub open spec fn with_member(members: Members, member: (Seq<char>, JsonModel)) -> Members {
    match member_place(members, member.0) {
        Some(i) => members.update(i, (members[i].0, member.1)),
        None => members.push(member),
    }
}

/// Members with others put in, one after the other.
pub open spec fn with_members(members: Members, more: Members) -> Members
    decreases more.len(),
{
    if more.len() == 0 {
        members
    } else {
        with_member(with_members(members, more.drop_last()), more.last())
    }
}

proof fn lemma_member_place(members: Members, name: Seq<char>)
    ensures
        match member_place(members, name) {
            Some(i) => 0 <= i < members.len() && members[i].0 == name && member_of(members, name)
                == Some(members[i].1),
            None => member_of(members, name) is None,
        },
    decreases members.len(),
{
    if members.len() > 0 && members[0].0 != name {
        lemma_member_place(members.drop_first(), name);
    }
}

/// The place of a name among members.
fn find_member(members: &Vec<(String, Json)>, name: &str) -> (r: Option<usize>)
    ensures
        match r {
            Some(i) => i < members.len() && member_place(members_model(members@), name@) == Some(
                i as int,
            ),
            None => member_place(members_model(members@), name@) is None,
        },
{
    let ghost all = members_model(members@);
    let mut i: usize = 0;
    proof {
        assert(all.skip(0) =~= all);
    }
    while i < members.len()
        invariant
            i <= members.len(),
            all == members_model(members@),
            member_place(all, name@) == match member_place(all.skip(i as int), name@) {
                Some(k) => Some(k + i),
                None => None::<int>,
            },
        decreases members.len() - i,
    {
        proof {
            assert(all.skip(i as int)[0] == all[i as int]);
            assert(all.skip(i as int).drop_first() =~= all.skip(i + 1));
        }
        if same_text(members[i].0.as_str(), name) {
            return Some(i);
        }
        i += 1;
    }
    None
}

/// What two objects merge into: the members of the first, with those of the
/// second put in.
pub open spec fn merged(left: JsonModel, right: JsonModel) -> Option<JsonModel> {
    match (left, right) {
        (JsonModel::Object(a), JsonModel::Object(b)) => Some(
            JsonModel::Object(with_members(a, b)),
        ),
        _ => None,
    }
}

/// Merges two objects. Of two members with one name the second counts.
pub fn merge_objects(left: Json, right: Json) -> (r: Option<Json>)
    ensures
        match r {
            Some(json) => merged(json_model(left), json_model(right)) == Some(json_model(json)),
            None => merged(json_model(left), json_model(right)) is None,
        },
{
    match (left, right) {
        (Json::Object(a), Json::Object(b)) => {
            let mut members = a;
            let mut rest = b;
            let ghost first = members_model(members@);
            let ghost list = rest@;
            let ghost all = members_model(list);
            proof {
                lemma_members(members);
                lemma_members(rest);
            }
            let mut taken: Vec<(String, Json)> = Vec::new();
            while rest.len() > 0
                invariant
                    rest@ + taken@.reverse() == list,
                decreases rest.len(),
            {
                let ghost before = rest@;
                let ghost kept = taken@;
                match rest.pop() {
                    Some(member) => {
                        taken.push(member);
                        proof {
                            assert(taken@.reverse() =~= seq![member] + kept.reverse());
                            assert(before =~= rest@.push(member));
                            assert(rest@ + taken@.reverse() =~= before + kept.reverse());
                        }
                    },
                    None => {},
                }
            }
            proof {
                assert(taken@.reverse() =~= list);
                assert(list.skip(0) =~= list);
                assert(with_members(first, all.take(0)) =~= first);
            }
            let ghost mut done: int = 0;
            while taken.len() > 0
                invariant
                    0 <= done <= list.len(),
                    all == members_model(list),
                    taken@.reverse() == list.skip(done),
                    members_model(members@) == with_members(first, all.take(done)),
                decreases taken.len(),
            {
                let ghost before = taken@;
                proof {
                    assert(before.reverse().len() == before.len());
                    assert(before.reverse()[0] == before.last());
                    assert(list.skip(done)[0] == list[done]);
                    assert(all.take(done + 1).drop_last() =~= all.take(done));
                    assert(all.take(done + 1).last() == all[done]);
                }
                match taken.pop() {
                    Some(member) => {
                        proof {
                            assert(taken@.reverse() =~= before.reverse().drop_first());
                            assert(list.skip(done).drop_first() =~= list.skip(done + 1));
                            done = done + 1;
                        }
                        let ghost before = members_model(members@);
                        let ghost added = (member.0@, json_model(member.1));
                        match find_member(&members, member.0.as_str()) {
                            Some(i) => {
                                members[i].1 = member.1;
                                proof {
                                    assert(members_model(members@) =~= with_member(
                                        before,
                                        added,
                                    ));
                                }
                            },
                            None => {
                                members.push(member);
                                proof {
                                    assert(members_model(members@) =~= with_member(
                                        before,
                                        added,
                                    ));
                                }
                            },
                        }
                    },
                    None => {},
                }
            }
            proof {
                assert(taken@.reverse().len() == 0);
                assert(all.take(done) =~= all);
                lemma_members(members);
            }
            Some(Json::Object(members))
        },
        _ => None,
    }
}

/// What merging makes of two parsed texts.
pub open spec fn merging(
    left: Result<JsonModel, Seq<char>>,
    right: Result<JsonModel, Seq<char>>,
) -> Result<ValueModel, Seq<char>> {
    match (left, right) {
        (Err(message), _) => Err("invalid JSON (left): "@ + message),
        (Ok(_), Err(message)) => Err("invalid JSON (right): "@ + message),
        (Ok(a), Ok(b)) => match merged(a, b) {
            None => Err("both JSON values must be objects to merge"@),
            Some(json) => Ok(ValueModel::Json(json_text(json))),
        },
    }
}

/// Merges two parsed texts.
pub fn merge_parsed(left: Result<Json, String>, right: Result<Json, String>) -> (r: Result<
    EngineValue,
    String,
>)
    ensures
        plain::outcome(r) == merging(reading(left), reading(right)),
{
    let left = match left {
        Ok(json) => json,
        Err(message) => {
            return Err(joined("invalid JSON (left): ", message.as_str()));
        },
    };
    let right = match right {
        Ok(json) => json,
        Err(message) => {
            return Err(joined("invalid JSON (right): ", message.as_str()));
        },
    };
    match merge_objects(left, right) {
        Some(json) => Ok(EngineValue::Json(write_json(&json))),
        None => Err("both JSON values must be objects to merge".to_string()),
    }
}

/// Merges two JSON texts, which must be objects. Of two members with one name
/// the second counts.
pub fn json_merge(left_str: &str, right_str: &str) -> (r: Result<EngineValue, String>)
    ensures
        plain::outcome(r) == merging(parsed_json(left_str@), parsed_json(right_str@)),
{
    merge_parsed(parse_json(left_str), parse_json(right_str))
}

proof fn lemma_with_member(members: Members, member: (Seq<char>, JsonModel), name: Seq<char>)
    ensures
        member_of(with_member(members, member), name) == if name == member.0 {
            Some(member.1)
        } else {
            member_of(members, name)
        },
    decreases members.len(),
{
    lemma_member_place(members, member.0);
    let next = with_member(members, member);
    if members.len() > 0 {
        let rest = members.drop_first();
        if members[0].0 == member.0 {
            assert(next.drop_first() =~= rest);
        } else {
            lemma_with_member(rest, member, name);
            assert(next.drop_first() =~= with_member(rest, member));
            assert(next[0] == members[0]);
        }
    } else {
        assert(next.drop_first() =~= members);
    }
}

/// The last member of a name in a list of members.
pub open spec fn last_member(members: Members, name: Seq<char>) -> Option<JsonModel>
    decreases members.len(),
{
    if members.len() == 0 {
        None
    } else if members.last().0 == name {
        Some(members.last().1)
    } else {
        last_member(members.drop_last(), name)
    }
}

/// Law: a merge has the members of both sides, and where both have one of a
/// name it is that of the right side.
pub proof fn law_merge_prefers_right(
    left: Members,
    right: Members,
    name: Seq<char>,
)
    ensures
        member_of(with_members(left, right), name) == match last_member(right, name) {
            Some(json) => Some(json),
            None => member_of(left, name),
        },
    decreases right.len(),
{
    if right.len() > 0 {
        law_merge_prefers_right(left, right.drop_last(), name);
        lemma_with_member(with_members(left, right.drop_last()), right.last(), name);
    }
}

/// Law: a path of one plain name leads to the member of that name.
pub proof fn law_plain_path(json: JsonModel, name: Seq<char>)
    requires
        name.len() > 0,
        forall|i: int| 0 <= i < name.len() ==> name[i] != '.' && name[i] != '[',
    ensures
        extracted(json, seq!['$', '.'] + name) == field_of(json, name),
{
    let path = seq!['$', '.'] + name;
    assert(path.drop_first() =~= seq!['.'] + name);
    assert((seq!['.'] + name).drop_first() =~= name);
    assert(path[0] == '$' && path.drop_first()[0] == '.');
    assert(name[0] != '.');
    reveal_with_fuel(without_leading, 2);
    lemma_no_place(name, '.');
    lemma_no_place(name, '[');
}

proof fn lemma_no_place(s: Seq<char>, c: char)
    requires
        forall|i: int| 0 <= i < s.len() ==> s[i] != c,
    ensures
        place(s, c) == s.len(),
    decreases s.len(),
{
    if s.len() > 0 {
        assert(s[0] != c);
        assert forall|i: int| 0 <= i < s.drop_first().len() implies s.drop_first()[i] != c by {
            assert(s.drop_first()[i] == s[i + 1]);
        }
        lemma_no_place(s.drop_first(), c);
    }
}

} // verus!
