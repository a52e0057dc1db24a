//! The tokens of SQL texts, as far as they tell which texts the parser takes.
use vstd::prelude::*;
use crate::plain::{no_items, push_back, same_text};
use crate::store_helpers;

verus! {

/// A token of a SQL text: space or a comment, a word with the keyword that it is,
/// a text in quotes, a sign that matters here, or something else.
#[derive(Clone, Debug, PartialEq, Eq)]
pub enum SqlToken {
    Space,
    Word(String),
    Text,
    Colon,
    Period,
    Semicolon,
    Open,
    Close,
    Other,
}

/// What a [`SqlToken`] is, mathematically.
#[verifier::ext_equal]
pub enum TokenModel {
    Space,
    Word(Seq<char>),
    Text,
    Colon,
    Period,
    Semicolon,
    Open,
    Close,
    Other,
}

impl DeepView for SqlToken {
    type V = TokenModel;

    open spec fn deep_view(&self) -> TokenModel {
        match self {
            SqlToken::Space => TokenModel::Space,
            SqlToken::Word(keyword) => TokenModel::Word(keyword@),
            SqlToken::Text => TokenModel::Text,
            SqlToken::Colon => TokenModel::Colon,
            SqlToken::Period => TokenModel::Period,
            SqlToken::Semicolon => TokenModel::Semicolon,
            SqlToken::Open => TokenModel::Open,
            SqlToken::Close => TokenModel::Close,
            SqlToken::Other => TokenModel::Other,
        }
    }
}

impl SqlToken {
    /// A copy of the token.
    fn duplicate(&self) -> (r: SqlToken)
        ensures
            r.deep_view() == self.deep_view(),
    {
        match self {
            SqlToken::Space => SqlToken::Space,
            SqlToken::Word(keyword) => SqlToken::Word(keyword.clone()),
            SqlToken::Text => SqlToken::Text,
            SqlToken::Colon => SqlToken::Colon,
            SqlToken::Period => SqlToken::Period,
            SqlToken::Semicolon => SqlToken::Semicolon,
            SqlToken::Open => SqlToken::Open,
            SqlToken::Close => SqlToken::Close,
            SqlToken::Other => SqlToken::Other,
        }
    }
}

/// A token that is not between others only.
pub open spec fn is_word() -> spec_fn(TokenModel) -> bool {
    |t: TokenModel| !(t is Space)
}

/// The tokens without the spaces and comments between them.
pub open spec fn words_of(list: Seq<TokenModel>) -> Seq<TokenModel> {
    store_helpers::kept(list, is_word())
}

/// The tokens without the spaces and comments between them.
pub fn words(list: &Vec<SqlToken>) -> (r: Vec<SqlToken>)
    ensures
        r.deep_view() == words_of(list.deep_view()),
{
    let ghost all = list.deep_view();
    let mut out: Vec<SqlToken> = no_items();
    let mut i: usize = 0;
    while i < list.len()
        invariant
            i <= list.len(),
            all == list.deep_view(),
            out.deep_view() == words_of(all.take(i as int)),
        decreases list.len() - i,
    {
        proof {
            assert(all.take(i + 1).drop_last() =~= all.take(i as int));
            assert(all.take(i + 1).last() == list@[i as int].deep_view());
        }
        match &list[i] {
            SqlToken::Space => {},
            word => {
                push_back(&mut out, word.duplicate());
            },
        }
        i += 1;
    }
    proof {
        assert(all.take(i as int) =~= all);
    }
    out
}

/// The token at a place, or something else where there is none.
pub open spec fn token_at(list: Seq<TokenModel>, i: int) -> TokenModel {
    if 0 <= i < list.len() {
        list[i]
    } else {
        TokenModel::Other
    }
}

/// A keyword stands at a place.
pub open spec fn is_keyword(list: Seq<TokenModel>, i: int, keyword: Seq<char>) -> bool {
    token_at(list, i) == TokenModel::Word(keyword)
}

/// A token that can be the name of something stands at a place.
pub open spec fn is_name(list: Seq<TokenModel>, i: int) -> bool {
    token_at(list, i) is Word || token_at(list, i) is Text
}

/// Names with periods between them stand from a place on.
pub open spec fn are_names(list: Seq<TokenModel>, i: int) -> bool
    decreases list.len() - i,
{
    is_name(list, i) && (token_at(list, i + 1) is Period ==> are_names(list, i + 2))
}

/// Where the part between semicolons begins that a place is in.
pub open spec fn part_start(list: Seq<TokenModel>, i: int) -> int
    decreases i,
{
    if i <= 0 || token_at(list, i - 1) is Semicolon {
        i
    } else {
        part_start(list, i - 1)
    }
}

/// A keyword after which a statement may stand within another one.
pub open spec fn leads_in(t: TokenModel) -> bool {
    ||| t == TokenModel::Word("THEN"@)
    ||| t == TokenModel::Word("ELSE"@)
    ||| t == TokenModel::Word("BEGIN"@)
    ||| t == TokenModel::Word("AS"@)
    ||| t == TokenModel::Word("EXPLAIN"@)
    ||| t == TokenModel::Word("DESC"@)
    ||| t == TokenModel::Word("DESCRIBE"@)
    ||| t == TokenModel::Word("PLAN"@)
    ||| t == TokenModel::Word("ESTIMATE"@)
    ||| t == TokenModel::Word("ANALYZE"@)
    ||| t == TokenModel::Word("VERBOSE"@)
    ||| t == TokenModel::Word("TEXT"@)
    ||| t == TokenModel::Word("JSON"@)
    ||| t == TokenModel::Word("GRAPHVIZ"@)
}

/// An EXPLAIN with options in brackets stands at a place.
pub open spec fn has_options(list: Seq<TokenModel>, i: int) -> bool {
    is_keyword(list, i, "EXPLAIN"@) && token_at(list, i + 1) is Open
}

/// A statement may begin at a place: it is the first of its part, or follows what
/// leads one in, such as the options of an EXPLAIN.
pub open spec fn may_begin(list: Seq<TokenModel>, i: int) -> bool {
    ||| i == part_start(list, i)
    ||| leads_in(token_at(list, i - 1))
    ||| token_at(list, i - 1) is Close && exists|j: int|
        part_start(list, i) <= j < i && #[trigger] has_options(list, j)
}

/// A statement that may have others right behind an expression or a name begins
/// at a place: a WHILE, or a CREATE of a trigger whose word stands before `end`.
pub open spec fn may_hold(list: Seq<TokenModel>, i: int, end: int) -> bool {
    may_begin(list, i) && (is_keyword(list, i, "WHILE"@) || (is_keyword(list, i, "CREATE"@)
        && exists|k: int| i < k < end && #[trigger] is_keyword(list, k, "TRIGGER"@)))
}

/// A statement may stand at a place.
pub open spec fn may_stand(list: Seq<TokenModel>, i: int) -> bool {
    ||| may_begin(list, i)
    ||| exists|j: int| part_start(list, i) <= j < i && #[trigger] may_hold(list, j, i)
}

/// `AUTHORIZATION` and a name stand at a place.
pub open spec fn authorizes(list: Seq<TokenModel>, i: int) -> bool {
    is_keyword(list, i, "AUTHORIZATION"@) && is_name(list, i + 1)
}

/// `SET AUTHORIZATION` of no session: `SET` or `SET HIVEVAR:` before
/// `AUTHORIZATION` and a name.
pub open spec fn sets_authorization(list: Seq<TokenModel>, i: int) -> bool {
    is_keyword(list, i, "SET"@) && (authorizes(list, i + 1) || (is_keyword(
        list,
        i + 1,
        "HIVEVAR"@,
    ) && token_at(list, i + 2) is Colon && authorizes(list, i + 3)))
}

/// `RELAY LOGS FOR CHANNEL` without the name of a channel.
pub open spec fn names_no_channel(list: Seq<TokenModel>, i: int) -> bool {
    is_keyword(list, i, "RELAY"@) && is_keyword(list, i + 1, "LOGS"@) && is_keyword(
        list,
        i + 2,
        "FOR"@,
    ) && is_keyword(list, i + 3, "CHANNEL"@) && !are_names(list, i + 4)
}

/// A `FLUSH` of the relay logs for a channel without a name.
pub open spec fn flushes_no_channel(list: Seq<TokenModel>, i: int) -> bool {
    is_keyword(list, i, "FLUSH"@) && (names_no_channel(list, i + 1) || ((is_keyword(
        list,
        i + 1,
        "NO_WRITE_TO_BINLOG"@,
    ) || is_keyword(list, i + 1, "LOCAL"@)) && names_no_channel(list, i + 2)))
}

/// A statement that the parser has no answer to may stand at a place.
pub open spec fn is_unanswered(list: Seq<TokenModel>, i: int) -> bool {
    (sets_authorization(list, i) || flushes_no_channel(list, i)) && may_stand(list, i)
}

/// A statement that the parser has no answer to may be among some tokens.
pub open spec fn has_unanswered(list: Seq<TokenModel>) -> bool {
    exists|i: int| 0 <= i < list.len() && #[trigger] is_unanswered(list, i)
}

/// Whether a keyword stands `ahead` places after one that is there.
fn keyword_ahead(list: &Vec<SqlToken>, i: usize, ahead: usize, keyword: &str) -> (r: bool)
    requires
        i < list.len(),
    ensures
        r == is_keyword(list.deep_view(), i + ahead, keyword@),
{
    if ahead < list.len() - i {
        assert(list.deep_view()[i + ahead] == list@[i + ahead].deep_view());
        match &list[i + ahead] {
            SqlToken::Word(word) => same_text(word.as_str(), keyword),
            _ => false,
        }
    } else {
        false
    }
}

/// Whether a name stands `ahead` places after one that is there.
fn name_ahead(list: &Vec<SqlToken>, i: usize, ahead: usize) -> (r: bool)
    requires
        i < list.len(),
    ensures
        r == is_name(list.deep_view(), i + ahead),
{
    if ahead < list.len() - i {
        assert(list.deep_view()[i + ahead] == list@[i + ahead].deep_view());
        matches!(&list[i + ahead], SqlToken::Word(_) | SqlToken::Text)
    } else {
        false
    }
}

/// Whether names with periods between them stand from a place on.
fn finds_names(list: &Vec<SqlToken>, from: usize) -> (r: bool)
    requires
        from <= list.len(),
    ensures
        r == are_names(list.deep_view(), from as int),
{
    let ghost all = list.deep_view();
    let mut i: usize = from;
    while i < list.len()
        invariant
            i <= list.len(),
            all == list.deep_view(),
            are_names(all, from as int) == are_names(all, i as int),
        decreases list.len() - i,
    {
        if !name_ahead(list, i, 0) {
            return false;
        }
        if list.len() - i < 2 {
            return true;
        }
        assert(all[i + 1] == list@[i + 1].deep_view());
        match &list[i + 1] {
            SqlToken::Period => {},
            _ => {
                return true;
            },
        }
        i += 2;
    }
    false
}

/// Whether a keyword leads a statement in.
fn is_lead(t: &SqlToken) -> (r: bool)
    ensures
        r == leads_in(t.deep_view()),
{
    match t {
        SqlToken::Word(word) => {
            let w = word.as_str();
            same_text(w, "THEN") || same_text(w, "ELSE") || same_text(w, "BEGIN") || same_text(
                w,
                "AS",
            ) || same_text(w, "EXPLAIN") || same_text(w, "DESC") || same_text(w, "DESCRIBE")
                || same_text(w, "PLAN") || same_text(w, "ESTIMATE") || same_text(w, "ANALYZE")
                || same_text(w, "VERBOSE") || same_text(w, "TEXT") || same_text(w, "JSON")
                || same_text(w, "GRAPHVIZ")
        },
        _ => false,
    }
}

/// Where the part between semicolons begins that a place is in.
fn find_part(list: &Vec<SqlToken>, i: usize) -> (r: usize)
    requires
        i < list.len(),
    ensures
        r <= i,
        r == part_start(list.deep_view(), i as int),
{
    let ghost all = list.deep_view();
    let mut r: usize = i;
    while r > 0
        invariant
            r <= i < list.len(),
            all == list.deep_view(),
            part_start(all, i as int) == part_start(all, r as int),
        decreases r,
    {
        assert(all[r - 1] == list@[r - 1].deep_view());
        match &list[r - 1] {
            SqlToken::Semicolon => {
                return r;
            },
            _ => {},
        }
        r -= 1;
    }
    r
}

/// Whether an EXPLAIN with options stands between two places.
fn finds_options(list: &Vec<SqlToken>, from: usize, to: usize) -> (r: bool)
    requires
        from <= to < list.len(),
    ensures
        r == exists|j: int| from <= j < to && #[trigger] has_options(list.deep_view(), j),
{
    let ghost all = list.deep_view();
    let mut j: usize = from;
    while j < to
        invariant
            from <= j <= to < list.len(),
            all == list.deep_view(),
            forall|k: int| from <= k < j ==> !#[trigger] has_options(all, k),
        decreases to - j,
    {
        assert(all[j + 1] == list@[j + 1].deep_view());
        if keyword_ahead(list, j, 0, "EXPLAIN") && matches!(&list[j + 1], SqlToken::Open) {
            assert(has_options(all, j as int));
            return true;
        }
        j += 1;
    }
    false
}

/// Whether a statement may begin at a place.
fn can_begin(list: &Vec<SqlToken>, i: usize) -> (r: bool)
    requires
        i < list.len(),
    ensures
        r == may_begin(list.deep_view(), i as int),
{
    let part = find_part(list, i);
    if part == i {
        return true;
    }
    assert(list.deep_view()[i - 1] == list@[i - 1].deep_view());
    is_lead(&list[i - 1]) || (matches!(&list[i - 1], SqlToken::Close) && finds_options(
        list,
        part,
        i,
    ))
}

/// Whether a keyword stands between two places.
fn finds_keyword(list: &Vec<SqlToken>, from: usize, to: usize, keyword: &str) -> (r: bool)
    requires
        from <= to <= list.len(),
    ensures
        r == exists|k: int|
            from <= k < to && #[trigger] is_keyword(list.deep_view(), k, keyword@),
{
    let mut k: usize = from;
    while k < to
        invariant
            from <= k <= to <= list.len(),
            forall|m: int|
                from <= m < k ==> !#[trigger] is_keyword(list.deep_view(), m, keyword@),
        decreases to - k,
    {
        if keyword_ahead(list, k, 0, keyword) {
            assert(is_keyword(list.deep_view(), k as int, keyword@));
            return true;
        }
        k += 1;
    }
    false
}

/// Whether a statement may stand at a place.
fn can_stand(list: &Vec<SqlToken>, i: usize) -> (r: bool)
    requires
        i < list.len(),
    ensures
        r == may_stand(list.deep_view(), i as int),
{
    let ghost all = list.deep_view();
    if can_begin(list, i) {
        return true;
    }
    let part = find_part(list, i);
    let mut j: usize = part;
    while j < i
        invariant
            part <= j <= i < list.len(),
            all == list.deep_view(),
            part == part_start(all, i as int),
            forall|k: int| part <= k < j ==> !#[trigger] may_hold(all, k, i as int),
        decreases i - j,
    {
        if can_begin(list, j) && (keyword_ahead(list, j, 0, "WHILE") || (keyword_ahead(
            list,
            j,
            0,
            "CREATE",
        ) && finds_keyword(list, j + 1, i, "TRIGGER"))) {
            assert(may_hold(all, j as int, i as int));
            return true;
        }
        j += 1;
    }
    false
}

/// Whether `AUTHORIZATION` and a name stand `ahead` places after one that is there.
fn finds_authorization(list: &Vec<SqlToken>, i: usize, ahead: usize) -> (r: bool)
    requires
        i < list.len(),
        ahead < 4,
    ensures
        r == authorizes(list.deep_view(), i + ahead),
{
    keyword_ahead(list, i, ahead, "AUTHORIZATION") && name_ahead(list, i, ahead + 1)
}

/// Whether a channel without a name stands `ahead` places after one that is there.
fn finds_no_channel(list: &Vec<SqlToken>, i: usize, ahead: usize) -> (r: bool)
    requires
        i < list.len(),
        ahead < 4,
    ensures
        r == names_no_channel(list.deep_view(), i + ahead),
{
    keyword_ahead(list, i, ahead, "RELAY") && keyword_ahead(list, i, ahead + 1, "LOGS")
        && keyword_ahead(list, i, ahead + 2, "FOR") && keyword_ahead(list, i, ahead + 3, "CHANNEL")
        && !finds_names(list, i + ahead + 4)
}

/// Whether a statement that the parser has no answer to may be among some tokens.
pub fn finds_unanswered(list: &Vec<SqlToken>) -> (r: bool)
    ensures
        r == has_unanswered(list.deep_view()),
{
    let ghost all = list.deep_view();
    let mut i: usize = 0;
    while i < list.len()
        invariant
            i <= list.len(),
            all == list.deep_view(),
            forall|j: int| 0 <= j < i ==> !#[trigger] is_unanswered(all, j),
        decreases list.len() - i,
    {
        let colon = if list.len() - i > 2 {
            assert(all[i + 2] == list@[i + 2].deep_view());
            matches!(&list[i + 2], SqlToken::Colon)
        } else {
            false
        };
        let sets = keyword_ahead(list, i, 0, "SET") && (finds_authorization(list, i, 1) || (
        keyword_ahead(list, i, 1, "HIVEVAR") && colon && finds_authorization(list, i, 3)));
        let flushes = keyword_ahead(list, i, 0, "FLUSH") && (finds_no_channel(list, i, 1) || ((
        keyword_ahead(list, i, 1, "NO_WRITE_TO_BINLOG") || keyword_ahead(list, i, 1, "LOCAL"))
            && finds_no_channel(list, i, 2)));
        assert(sets == sets_authorization(all, i as int));
        assert(flushes == flushes_no_channel(all, i as int));
        if (sets || flushes) && can_stand(list, i) {
            assert(is_unanswered(all, i as int));
            return true;
        }
        i += 1;
    }
    false
}

} // verus!
