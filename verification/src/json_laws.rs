//! What paths lead to in JSON values, and what values merge into.
use vstd::prelude::*;
use crate::json_ops::{self, JsonModel, Members};
use crate::plain;
use crate::sql::name_laws::{self, all_digits, number};
use crate::value::{EngineValue, ValueModel};

verus! {

/// `v` is the first member of a name.
pub open spec fn is_member(members: Members, name: Seq<char>, v: JsonModel) -> bool {
    exists|i: int|
        0 <= i < members.len() && (#[trigger] members[i]).0 == name && members[i].1 == v && forall|
            j: int,
        |
            0 <= j < i ==> members[j].0 != name
}

/// No member has that name.
pub open spec fn lacks(members: Members, name: Seq<char>) -> bool {
    forall|i: int| 0 <= i < members.len() ==> (#[trigger] members[i]).0 != name
}

proof fn lemma_member_of(members: Members, name: Seq<char>)
    ensures
        match json_ops::member_of(members, name) {
            Some(v) => is_member(members, name, v),
            None => lacks(members, name),
        },
    decreases members.len(),
{
    if members.len() > 0 {
        if members[0].0 == name {
            assert(is_member(members, name, members[0].1));
        } else {
            let rest = members.drop_first();
            lemma_member_of(rest, name);
            match json_ops::member_of(rest, name) {
                Some(v) => {
                    let i = choose|i: int|
                        0 <= i < rest.len() && (#[trigger] rest[i]).0 == name && rest[i].1 == v
                            && forall|j: int| 0 <= j < i ==> rest[j].0 != name;
                    assert(members[i + 1] == rest[i]);
                    assert forall|j: int| 0 <= j < i + 1 implies members[j].0 != name by {
                        if j > 0 {
                            assert(rest[j - 1] == members[j]);
                        }
                    }
                },
                None => {
                    assert forall|i: int| 0 <= i < members.len() implies (
                    #[trigger] members[i]).0 != name by {
                        if i > 0 {
                            assert(rest[i - 1] == members[i]);
                        }
                    }
                },
            }
        }
    }
}

/// Law: a name leads to the first member of that name of an object; in an object
/// without one, and in any other value, to nothing.
pub proof fn law_name_leads_to_member(json: JsonModel, name: Seq<char>)
    ensures
        match json_ops::field_of(json, name) {
            Some(v) => json matches JsonModel::Object(members) && is_member(members, name, v),
            None => json matches JsonModel::Object(members) ==> lacks(members, name),
        },
{
    if let JsonModel::Object(members) = json {
        lemma_member_of(members, name);
    }
}

/// A text without dots and opening brackets.
pub open spec fn is_plain_name(s: Seq<char>) -> bool {
    s.len() > 0 && forall|i: int|
        0 <= i < s.len() ==> #[trigger] s[i] != '.' && s[i] != '[' && s[i] != '$'
}

proof fn lemma_place(s: Seq<char>, c: char, n: int)
    requires
        0 <= n <= s.len(),
        forall|i: int| 0 <= i < n ==> #[trigger] s[i] != c,
        n == s.len() || s[n] == c,
    ensures
        json_ops::place(s, c) == n,
    decreases n,
{
    if n > 0 {
        assert(s[0] != c);
        let rest = s.drop_first();
        assert forall|i: int| 0 <= i < n - 1 implies #[trigger] rest[i] != c by {
            assert(rest[i] == s[i + 1]);
        }
        lemma_place(rest, c, n - 1);
    }
}

proof fn lemma_no_leading(s: Seq<char>, c: char)
    requires
        s.len() == 0 || s[0] != c,
    ensures
        json_ops::without_leading(s, c) == s,
{
}

/// Law: the empty path, and one of a dollar sign alone, lead to the value itself.
pub proof fn law_root_path(json: JsonModel)
    ensures
        json_ops::extracted(json, Seq::empty()) == Some(json),
        json_ops::extracted(json, seq!['$']) == Some(json),
{
    let empty = Seq::<char>::empty();
    assert(seq!['$'].drop_first() =~= empty);
    reveal_with_fuel(json_ops::without_leading, 2);
    lemma_no_leading(empty, '$');
    lemma_no_leading(empty, '.');
}

/// Law: a dollar sign and a dot at the beginning of a path change nothing.
pub proof fn law_dollar_says_nothing(json: JsonModel, path: Seq<char>)
    requires
        path.len() == 0 || (path[0] != '$' && path[0] != '.'),
    ensures
        json_ops::extracted(json, seq!['$', '.'] + path) == json_ops::extracted(json, path),
{
    let long = seq!['$', '.'] + path;
    assert(long.drop_first() =~= seq!['.'] + path);
    assert((seq!['.'] + path).drop_first() =~= path);
    assert(long[0] == '$' && long.drop_first()[0] == '.');
    reveal_with_fuel(json_ops::without_leading, 2);
    lemma_no_leading(path, '$');
    lemma_no_leading(path, '.');
}

/// Law: a path of two parts with a dot between them leads to what the second part
/// leads to in what the first one leads to, where no part has brackets.
pub proof fn law_dotted_path(json: JsonModel, name: Seq<char>, rest: Seq<char>)
    requires
        is_plain_name(name),
        rest.len() > 0,
        rest[0] != '.' && rest[0] != '$',
        forall|i: int| 0 <= i < rest.len() ==> #[trigger] rest[i] != '[',
    ensures
        json_ops::extracted(json, name + seq!['.'] + rest) == match json_ops::field_of(
            json,
            name,
        ) {
            None => None,
            Some(next) => json_ops::extracted(next, rest),
        },
{
    let path = name + seq!['.'] + rest;
    let n = name.len() as int;
    assert(path[0] == name[0]);
    lemma_no_leading(path, '$');
    lemma_no_leading(path, '.');
    assert forall|i: int| 0 <= i < path.len() implies #[trigger] path[i] != '[' by {
        if i < n {
            assert(path[i] == name[i]);
        } else if i > n {
            assert(path[i] == rest[i - n - 1]);
        }
    }
    lemma_place(path, '[', path.len() as int);
    assert forall|i: int| 0 <= i < n implies #[trigger] path[i] != '.' by {
        assert(path[i] == name[i]);
    }
    assert(path[n] == '.');
    lemma_place(path, '.', n);
    assert(path.take(n) =~= name);
    assert(path.skip(n + 1) =~= rest);
    lemma_no_leading(rest, '.');
    lemma_no_leading(rest, '$');
}

/// Law: a number in brackets behind a name leads to the element at that place of
/// the array that the name leads to, counted from zero; there is none in another
/// value, or beyond the end.
pub proof fn law_element_path(json: JsonModel, name: Seq<char>, digits: Seq<char>)
    requires
        is_plain_name(name),
        digits.len() > 0,
        all_digits(digits),
        number(digits) <= usize::MAX,
    ensures
        json_ops::extracted(json, name + seq!['['] + digits + seq![']'])
            == match json_ops::field_of(json, name) {
            Some(JsonModel::Array(items)) => if number(digits) < items.len() {
                Some(items[number(digits)])
            } else {
                None
            },
            _ => None,
        },
{
    let path = name + seq!['['] + digits + seq![']'];
    let n = name.len() as int;
    let d = digits.len() as int;
    assert(path[0] == name[0]);
    lemma_no_leading(path, '$');
    lemma_no_leading(path, '.');
    assert forall|i: int| 0 <= i < n implies #[trigger] path[i] != '[' by {
        assert(path[i] == name[i]);
    }
    assert(path[n] == '[');
    lemma_place(path, '[', n);
    assert(path.take(n) =~= name);
    let tail = path.skip(n);
    assert(tail =~= seq!['['] + digits + seq![']']);
    let inner = tail.drop_first();
    assert(inner =~= digits + seq![']']);
    assert forall|i: int| 0 <= i < d implies #[trigger] inner[i] != ']' by {
        assert(inner[i] == digits[i]);
        assert(0 <= name_laws::digit(digits[i]) <= 9);
    }
    assert(inner[d] == ']');
    lemma_place(inner, ']', d);
    assert(inner.take(d) =~= digits);
    assert(0 <= name_laws::digit(digits[0]) <= 9);
    name_laws::law_unsigned_numbers(digits, usize::MAX as int);
    name_laws::lemma_number_bounds(digits);
    assert(tail.skip(d + 2) =~= Seq::empty());
    if let Some(next) = json_ops::field_of(json, name) {
        assert(tail[0] == '[');
        let end = json_ops::place(tail.drop_first(), ']');
        assert(end == d);
        reveal_with_fuel(json_ops::indexed, 2);
    }
}

/// Law: what a path leads to is given as JSON, `null` where it leads to nothing;
/// a text that is no JSON is refused.
pub proof fn law_extraction(
    json: JsonModel,
    message: Seq<char>,
    path: Seq<char>,
)
    ensures
        json_ops::extraction(Ok(json), path) == Ok::<ValueModel, Seq<char>>(
            ValueModel::Json(
                match json_ops::extracted(json, path) {
                    Some(found) => json_ops::json_text(found),
                    None => seq!['n', 'u', 'l', 'l'],
                },
            ),
        ),
        json_ops::extraction(Err(message), path) is Err,
{
    reveal_strlit("null");
    assert("null"@ =~= seq!['n', 'u', 'l', 'l']);
}

/// `v` is the last member of a name.
pub open spec fn is_last_member(members: Members, name: Seq<char>, v: JsonModel) -> bool {
    exists|i: int|
        0 <= i < members.len() && (#[trigger] members[i]).0 == name && members[i].1 == v && forall|
            j: int,
        |
            i < j < members.len() ==> members[j].0 != name
}

proof fn lemma_last_member(members: Members, name: Seq<char>)
    ensures
        match json_ops::last_member(members, name) {
            Some(v) => is_last_member(members, name, v),
            None => lacks(members, name),
        },
    decreases members.len(),
{
    if members.len() > 0 {
        let n = members.len() - 1;
        if members[n].0 == name {
            assert(is_last_member(members, name, members[n].1));
        } else {
            let rest = members.drop_last();
            lemma_last_member(rest, name);
            if let Some(v) = json_ops::last_member(rest, name) {
                let i = choose|i: int|
                    0 <= i < rest.len() && (#[trigger] rest[i]).0 == name && rest[i].1 == v
                        && forall|j: int| i < j < rest.len() ==> rest[j].0 != name;
                assert(members[i] == rest[i]);
                assert forall|j: int| i < j < members.len() implies members[j].0 != name by {
                    if j < n {
                        assert(rest[j] == members[j]);
                    }
                }
            } else {
                assert forall|i: int| 0 <= i < members.len() implies (#[trigger] members[i]).0
                    != name by {
                    if i < n {
                        assert(rest[i] == members[i]);
                    }
                }
            }
        }
    }
}

/// Law: two objects merge into one that has under each name the member of the
/// right one, or that of the left one where the right one has none, and no other
/// member. Anything else does not merge.
pub proof fn law_merge(left: JsonModel, right: JsonModel, name: Seq<char>)
    ensures
        json_ops::merged(left, right) is Some <==> left is Object && right is Object,
        json_ops::merged(left, right) matches Some(json) ==> json matches JsonModel::Object(m) && {
            let a = left->Object_0;
            let b = right->Object_0;
            &&& lacks(a, name) && lacks(b, name) ==> lacks(m, name)
            &&& lacks(b, name) ==> forall|v: JsonModel|
                #[trigger] is_member(a, name, v) ==> is_member(m, name, v)
            &&& forall|v: JsonModel|
                #[trigger] is_last_member(b, name, v) ==> is_member(m, name, v)
        },
{
    if let (JsonModel::Object(a), JsonModel::Object(b)) = (left, right) {
        let m = json_ops::with_members(a, b);
        json_ops::law_merge_prefers_right(a, b, name);
        lemma_member_of(m, name);
        lemma_member_of(a, name);
        lemma_last_member(b, name);
        assert forall|v: JsonModel| #[trigger] is_last_member(b, name, v) implies is_member(
            m,
            name,
            v,
        ) by {
            let i = choose|i: int|
                0 <= i < b.len() && (#[trigger] b[i]).0 == name && b[i].1 == v && forall|j: int|
                    i < j < b.len() ==> b[j].0 != name;
            assert(json_ops::last_member(b, name) is Some) by {
                if json_ops::last_member(b, name) is None {
                    assert(b[i].0 != name);
                }
            }
            let w = json_ops::last_member(b, name)->0;
            let k = choose|k: int|
                0 <= k < b.len() && (#[trigger] b[k]).0 == name && b[k].1 == w && forall|j: int|
                    k < j < b.len() ==> b[j].0 != name;
            assert(i == k);
        }
        if lacks(b, name) {
            if let Some(w) = json_ops::last_member(b, name) {
                let k = choose|k: int|
                    0 <= k < b.len() && (#[trigger] b[k]).0 == name && b[k].1 == w && forall|
                        j: int,
                    |
                        k < j < b.len() ==> b[j].0 != name;
                assert(b[k].0 != name);
            }
            assert forall|v: JsonModel| #[trigger] is_member(a, name, v) implies is_member(
                m,
                name,
                v,
            ) by {
                let i = choose|i: int|
                    0 <= i < a.len() && (#[trigger] a[i]).0 == name && a[i].1 == v && forall|
                        j: int,
                    |
                        0 <= j < i ==> a[j].0 != name;
                assert(json_ops::member_of(a, name) is Some) by {
                    if json_ops::member_of(a, name) is None {
                        assert(a[i].0 != name);
                    }
                }
                let w = json_ops::member_of(a, name)->0;
                let k = choose|k: int|
                    0 <= k < a.len() && (#[trigger] a[k]).0 == name && a[k].1 == w && forall|
                        j: int,
                    |
                        0 <= j < k ==> a[j].0 != name;
                assert(i == k);
            }
            if lacks(a, name) {
                if let Some(w) = json_ops::member_of(a, name) {
                    let k = choose|k: int|
                        0 <= k < a.len() && (#[trigger] a[k]).0 == name && a[k].1 == w && forall|
                            j: int,
                        |
                            0 <= j < k ==> a[j].0 != name;
                    assert(a[k].0 != name);
                }
            }
        }
    }
}

/// Law: two texts merge where both are objects, into the text of what the objects
/// merge into; a text that is no JSON is refused, and so are values that do not
/// merge.
pub proof fn law_merging(
    left: Result<JsonModel, Seq<char>>,
    right: Result<JsonModel, Seq<char>>,
)
    ensures
        match json_ops::merging(left, right) {
            Ok(v) => (left matches Ok(a) && (right matches Ok(b) && (json_ops::merged(
                a,
                b,
            ) matches Some(json) && v == ValueModel::Json(json_ops::json_text(json))))),
            Err(_) => left is Err || right is Err || !(left->Ok_0 is Object) || !(
            right->Ok_0 is Object),
        },
{
    if let (Ok(a), Ok(b)) = (left, right) {
        law_merge(a, b, Seq::empty());
    }
}

/// Law: a number in brackets leads to the element at that place, and what follows
/// it leads on from there; there is nothing beyond the end of an array, in another
/// value, or behind a bracket that is not closed.
pub proof fn law_places_in_turn(json: JsonModel, digits: Seq<char>, rest: Seq<char>)
    requires
        digits.len() > 0,
        all_digits(digits),
        number(digits) <= usize::MAX,
    ensures
        json_ops::extracted(json, seq!['['] + digits + seq![']'] + rest) == match json {
            JsonModel::Array(items) => if number(digits) < items.len() {
                json_ops::indexed(items[number(digits)], rest)
            } else {
                None
            },
            _ => None,
        },
        rest.len() == 0 || rest[0] != '[' ==> json_ops::indexed(json, rest) == Some(json),
        json_ops::extracted(json, seq!['['] + digits) is None,
{
    let path = seq!['['] + digits + seq![']'] + rest;
    let d = digits.len() as int;
    assert(path[0] == '[');
    lemma_no_leading(path, '$');
    lemma_no_leading(path, '.');
    lemma_place(path, '[', 0);
    let inner = path.drop_first();
    assert(inner =~= digits + seq![']'] + rest);
    assert forall|i: int| 0 <= i < d implies #[trigger] inner[i] != ']' by {
        assert(inner[i] == digits[i]);
        assert(0 <= name_laws::digit(digits[i]) <= 9);
    }
    assert(inner[d] == ']');
    lemma_place(inner, ']', d);
    assert(inner.take(d) =~= digits);
    assert(0 <= name_laws::digit(digits[0]) <= 9);
    name_laws::law_unsigned_numbers(digits, usize::MAX as int);
    name_laws::lemma_number_bounds(digits);
    assert(path.skip(d + 2) =~= rest);
    let open_path = seq!['['] + digits;
    assert(open_path[0] == '[');
    lemma_no_leading(open_path, '$');
    lemma_no_leading(open_path, '.');
    lemma_place(open_path, '[', 0);
    assert(open_path.drop_first() =~= digits);
    assert forall|i: int| 0 <= i < d implies #[trigger] digits[i] != ']' by {
        assert(0 <= name_laws::digit(digits[i]) <= 9);
    }
    lemma_place(digits, ']', d);
}

/// Law: from a text something can be extracted exactly if it is JSON, whatever
/// the path, and texts merge only where both are.
pub proof fn law_valid_texts(
    left: &str,
    right: &str,
    path: &str,
    left_valid: bool,
    right_valid: bool,
    found: Result<EngineValue, String>,
    both: Result<EngineValue, String>,
)
    requires
        call_ensures(json_ops::json_valid, (left,), left_valid),
        call_ensures(json_ops::json_valid, (right,), right_valid),
        call_ensures(json_ops::json_extract, (left, path), found),
        call_ensures(json_ops::json_merge, (left, right), both),
    ensures
        left_valid <==> found is Ok,
        both is Ok ==> left_valid && right_valid,
        found matches Ok(v) ==> v is Json,
        both matches Ok(v) ==> v is Json,
{
    if let Ok(v) = found {
        assert(plain::outcome(found) == Ok::<ValueModel, Seq<char>>(v.deep_view()));
    }
    if let Ok(v) = both {
        assert(plain::outcome(both) == Ok::<ValueModel, Seq<char>>(v.deep_view()));
    }
}

} // verus!
