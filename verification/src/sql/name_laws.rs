//! What names, literals and numbers in statements stand for.
use vstd::prelude::*;
use crate::schema;
use crate::schema_resolver::SchemaResolver;
use crate::sql::error::Refusal;
use crate::sql::helpers::{self, Aliases, Tables};
use crate::sql::scope::{self, Scope};
use crate::sql::syntax::{SqlExpr, SqlLiteral, SqlTableFactor};
use crate::text::{self, NumberError};
use crate::value::ValueModel;

verus! {

/// Column `i` of a table is the first of that name.
pub open spec fn is_column(tables: Tables, table: Seq<char>, i: int, name: Seq<char>) -> bool {
    &&& tables.contains_key(table)
    &&& 0 <= i < tables[table].columns.len()
    &&& tables[table].columns[i].name == name
    &&& forall|j: int| 0 <= j < i ==> tables[table].columns[j].name != name
}

/// A table has a column of that name.
pub open spec fn has_name(tables: Tables, table: Seq<char>, name: Seq<char>) -> bool {
    exists|i: int| #[trigger] is_column(tables, table, i, name)
}

/// The columns of all tables can be numbered.
pub open spec fn all_numbered(tables: Tables) -> bool {
    forall|t: Seq<char>| #[trigger]
        tables.contains_key(t) ==> tables[t].columns.len() <= usize::MAX
}

/// The name of the table that a statement calls so.
pub open spec fn own_name(aliases: Aliases, called: Seq<char>) -> Seq<char> {
    if aliases.contains_key(called) {
        aliases[called]
    } else {
        called
    }
}

/// The column that is found for a name is the first one of that name.
pub proof fn lemma_column_in(tables: Tables, table: Seq<char>, name: Seq<char>)
    requires
        all_numbered(tables),
    ensures
        match helpers::column_in(tables, table, name) {
            Ok(c) => c.table == table && is_column(tables, table, c.column_index as int, name),
            Err(_) => !has_name(tables, table, name),
        },
        helpers::holds_column(tables, table, name) == has_name(tables, table, name),
{
    if tables.contains_key(table) {
        let columns = tables[table].columns;
        schema::lemma_column_position(columns, name);
        if let Some(i) = schema::column_position(columns, name) {
            assert(is_column(tables, table, i, name));
        } else if has_name(tables, table, name) {
            let i = choose|i: int| #[trigger] is_column(tables, table, i, name);
            assert(columns[i].name == name);
        }
    }
}

/// Law: a bare name in a condition stands for the first column of that name of
/// the one table that has such a column. Where no table has one, or two have,
/// it is refused.
pub proof fn law_bare_name(s: String, aliases: Aliases, tables: Tables)
    requires
        all_numbered(tables),
    ensures
        match helpers::local_column(SqlExpr::Identifier(s), aliases, tables) {
            Ok(c) => is_column(tables, c.table, c.column_index as int, s@) && forall|t: Seq<char>|
                #[trigger] has_name(tables, t, s@) ==> t == c.table,
            Err(_) => (forall|t: Seq<char>| !(#[trigger] has_name(tables, t, s@))) || exists|
                t: Seq<char>,
                u: Seq<char>,
            |
                t != u && #[trigger] has_name(tables, t, s@) && #[trigger] has_name(tables, u, s@),
        },
{
    assert forall|t: Seq<char>| #[trigger]
        helpers::holds_column(tables, t, s@) == has_name(tables, t, s@) by {
        lemma_column_in(tables, t, s@);
    }
    assert forall|t: Seq<char>| #[trigger]
        has_name(tables, t, s@) == helpers::holds_column(tables, t, s@) by {
        lemma_column_in(tables, t, s@);
    }
    if exists|a: Seq<char>| #[trigger] helpers::holds_column(tables, a, s@) {
        let a = choose|a: Seq<char>| #[trigger] helpers::holds_column(tables, a, s@);
        lemma_column_in(tables, a, s@);
        if exists|a: Seq<char>, b: Seq<char>|
            a != b && #[trigger] helpers::holds_column(tables, a, s@)
                && #[trigger] helpers::holds_column(tables, b, s@) {
            let (a, b) = choose|a: Seq<char>, b: Seq<char>|
                a != b && #[trigger] helpers::holds_column(tables, a, s@)
                    && #[trigger] helpers::holds_column(tables, b, s@);
            assert(has_name(tables, a, s@) && has_name(tables, b, s@));
        }
    }
}

/// Law: a name with a table before it stands for the first column of that name of
/// the table that is called so, by its alias or by its own name. Where there is
/// none it is refused.
pub proof fn law_dotted_name(parts: Vec<String>, aliases: Aliases, tables: Tables)
    requires
        all_numbered(tables),
        parts@.len() == 2,
    ensures
        ({
            let e = SqlExpr::CompoundIdentifier(parts);
            let table = own_name(aliases, parts@[0]@);
            let name = parts@[1]@;
            &&& match helpers::local_column(e, aliases, tables) {
                Ok(c) => c.table == table && is_column(tables, table, c.column_index as int, name),
                Err(_) => !has_name(tables, table, name),
            }
            &&& helpers::qualified_column(e, aliases, tables) == helpers::local_column(
                e,
                aliases,
                tables,
            )
            &&& forall|called: Seq<Seq<char>>| #[trigger]
                helpers::column_among(e, aliases, called, tables) == helpers::local_column(
                    e,
                    aliases,
                    tables,
                )
        }),
{
    lemma_column_in(tables, own_name(aliases, parts@[0]@), parts@[1]@);
}

/// The tables called at the places `places` have a column of that name, and no
/// others.
pub open spec fn are_places(
    places: Seq<int>,
    called: Seq<Seq<char>>,
    tables: Tables,
    name: Seq<char>,
) -> bool {
    &&& forall|k: int, l: int| 0 <= k < l < places.len() ==> #[trigger] places[k] < #[trigger] places[l]
    &&& forall|i: int| #[trigger]
        places.contains(i) <==> 0 <= i < called.len() && has_name(tables, called[i], name)
}

proof fn lemma_occurrences(called: Seq<Seq<char>>, tables: Tables, name: Seq<char>) -> (places:
    Seq<int>)
    requires
        all_numbered(tables),
    ensures
        are_places(places, called, tables, name),
        helpers::occurrences(called, tables, name) == Seq::new(
            places.len(),
            |k: int| called[places[k]],
        ),
    decreases called.len(),
{
    if called.len() == 0 {
        let places = Seq::<int>::empty();
        assert(helpers::occurrences(called, tables, name) =~= Seq::new(
            places.len(),
            |k: int| called[places[k]],
        ));
        places
    } else {
        let rest = called.drop_last();
        let n = called.len() - 1;
        let before = lemma_occurrences(rest, tables, name);
        lemma_column_in(tables, called.last(), name);
        assert forall|k: int| 0 <= k < before.len() implies 0 <= #[trigger] before[k] < n
            && rest[before[k]] == called[before[k]] by {
            assert(before.contains(before[k]));
        }
        let places = if has_name(tables, called.last(), name) {
            before.push(n)
        } else {
            before
        };
        assert forall|i: int| #[trigger]
            places.contains(i) <==> 0 <= i < called.len() && has_name(tables, called[i], name) by {
            assert(before.contains(i) <==> 0 <= i < rest.len() && has_name(
                tables,
                rest[i],
                name,
            ));
            if places.contains(i) {
                let k = choose|k: int| 0 <= k < places.len() && places[k] == i;
                if k < before.len() {
                    assert(before[k] == i);
                    assert(before.contains(i));
                    assert(rest[i] == called[i]);
                }
            }
            if 0 <= i < called.len() && has_name(tables, called[i], name) {
                if i < n {
                    assert(rest[i] == called[i]);
                    let k = choose|k: int| 0 <= k < before.len() && before[k] == i;
                    assert(places[k] == i);
                } else {
                    assert(places[before.len() as int] == i);
                }
            }
        }
        assert(helpers::occurrences(called, tables, name) =~= Seq::new(
            places.len(),
            |k: int| called[places[k]],
        ));
        places
    }
}

/// Law: a bare name in a projection, a grouping or a sorting stands for the first
/// column of that name of the one table called that has such a column. Where none
/// has one, or more than one has, it is refused.
pub proof fn law_bare_name_among_called(
    s: String,
    aliases: Aliases,
    called: Seq<Seq<char>>,
    tables: Tables,
)
    requires
        all_numbered(tables),
    ensures
        exists|places: Seq<int>| #[trigger]
            are_places(places, called, tables, s@) && match helpers::column_among(
                SqlExpr::Identifier(s),
                aliases,
                called,
                tables,
            ) {
                Ok(c) => places.len() == 1 && c.table == called[places[0]] && is_column(
                    tables,
                    c.table,
                    c.column_index as int,
                    s@,
                ),
                Err(_) => places.len() != 1,
            },
{
    let places = lemma_occurrences(called, tables, s@);
    let found = helpers::occurrences(called, tables, s@);
    if places.len() == 1 {
        assert(found[0] == called[places[0]]);
        lemma_column_in(tables, found[0], s@);
        assert(places.contains(places[0]));
        assert(has_name(tables, called[places[0]], s@));
    }
    assert(are_places(places, called, tables, s@));
}

/// Law: a table that a statement reads is known from there on by its alias, or by
/// its name if it has none, and by its schema; one that there is not is refused.
pub proof fn law_table_enters_scope<R: SchemaResolver>(
    factor: SqlTableFactor,
    name: String,
    alias: Option<String>,
    before: Scope,
    resolver: R,
    refusal: Seq<char>,
)
    requires
        factor == (SqlTableFactor::Table { name, alias }),
    ensures
        match scope::with_factor(factor, before, resolver, refusal) {
            Ok((table, after)) => {
                &&& table == name@
                &&& resolver.described(name@) is Some
                &&& after.tables == before.tables.insert(name@, resolver.described(name@)->0)
                &&& after.called == before.called.push(name@)
                &&& after.aliases == before.aliases.insert(
                    match alias {
                        Some(a) => a@,
                        None => name@,
                    },
                    name@,
                )
            },
            Err(r) => resolver.described(name@) is None && r == Refusal::UnknownTable(name@),
        },
{
}

/// The digit that a character is.
pub open spec fn digit(c: char) -> int {
    c as int - '0' as int
}

/// The number that decimal digits make.
pub open spec fn number(s: Seq<char>) -> int
    decreases s.len(),
{
    if s.len() == 0 {
        0
    } else {
        number(s.drop_last()) * 10 + digit(s.last())
    }
}

/// All characters are decimal digits.
pub open spec fn all_digits(s: Seq<char>) -> bool {
    forall|i: int| 0 <= i < s.len() ==> 0 <= digit(#[trigger] s[i]) <= 9
}

/// The number that digits make is not negative.
pub proof fn lemma_number_bounds(s: Seq<char>)
    requires
        all_digits(s),
    ensures
        number(s) >= 0,
    decreases s.len(),
{
    if s.len() > 0 {
        let rest = s.drop_last();
        assert(all_digits(rest)) by {
            assert forall|i: int| 0 <= i < rest.len() implies 0 <= digit(#[trigger] rest[i])
                <= 9 by {
                assert(rest[i] == s[i]);
            }
        }
        lemma_number_bounds(rest);
        assert(0 <= digit(s[s.len() - 1]));
    }
}

/// The number that digits make behind a number.
pub open spec fn folded(acc: int, s: Seq<char>) -> int
    decreases s.len(),
{
    if s.len() == 0 {
        acc
    } else {
        folded(acc * 10 + digit(s[0]), s.drop_first())
    }
}

proof fn lemma_folded_last(acc: int, s: Seq<char>)
    requires
        s.len() > 0,
    ensures
        folded(acc, s) == folded(acc, s.drop_last()) * 10 + digit(s.last()),
    decreases s.len(),
{
    if s.len() > 1 {
        let next = acc * 10 + digit(s[0]);
        lemma_folded_last(next, s.drop_first());
        assert(s.drop_first().drop_last() =~= s.drop_last().drop_first());
        assert(s.drop_first().last() == s.last());
    } else {
        assert(s.drop_first().len() == 0);
        assert(s.drop_last().len() == 0);
        reveal_with_fuel(folded, 2);
    }
}

proof fn lemma_folded_number(s: Seq<char>)
    ensures
        folded(0, s) == number(s),
    decreases s.len(),
{
    if s.len() > 0 {
        lemma_folded_last(0, s);
        lemma_folded_number(s.drop_last());
    }
}

proof fn lemma_folded_grows(acc: int, s: Seq<char>)
    requires
        all_digits(s),
        acc >= 0,
    ensures
        folded(acc, s) >= acc,
    decreases s.len(),
{
    if s.len() > 0 {
        assert(0 <= digit(s[0]) <= 9);
        let rest = s.drop_first();
        assert forall|i: int| 0 <= i < rest.len() implies 0 <= digit(#[trigger] rest[i]) <= 9 by {
            assert(rest[i] == s[i + 1]);
        }
        lemma_folded_grows(acc * 10 + digit(s[0]), rest);
    }
}

proof fn lemma_read_up(acc: int, s: Seq<char>, max: int)
    requires
        0 <= acc <= max,
    ensures
        match text::read_up(acc, s, max) {
            Ok(n) => all_digits(s) && n == folded(acc, s) && n <= max,
            Err(_) => !all_digits(s) || folded(acc, s) > max,
        },
    decreases s.len(),
{
    if s.len() > 0 {
        let rest = s.drop_first();
        let next = acc * 10 + digit(s[0]);
        if 0 <= digit(s[0]) <= 9 {
            assert(all_digits(rest) == all_digits(s)) by {
                if all_digits(rest) {
                    assert forall|i: int| 0 <= i < s.len() implies 0 <= digit(#[trigger] s[i])
                        <= 9 by {
                        if i > 0 {
                            assert(rest[i - 1] == s[i]);
                        }
                    }
                }
                if all_digits(s) {
                    assert forall|i: int| 0 <= i < rest.len() implies 0 <= digit(
                        #[trigger] rest[i],
                    ) <= 9 by {
                        assert(rest[i] == s[i + 1]);
                    }
                }
            }
            if next <= max {
                lemma_read_up(next, rest, max);
            } else if all_digits(s) {
                lemma_folded_grows(next, rest);
            }
        } else {
            assert(!all_digits(s));
        }
    }
}

proof fn lemma_read_down(acc: int, s: Seq<char>, min: int)
    requires
        0 <= acc <= -min,
    ensures
        match text::read_down(-acc, s, min) {
            Ok(n) => all_digits(s) && n == -folded(acc, s) && n >= min,
            Err(_) => !all_digits(s) || -folded(acc, s) < min,
        },
    decreases s.len(),
{
    if s.len() > 0 {
        let rest = s.drop_first();
        let next = acc * 10 + digit(s[0]);
        assert(-acc * 10 == -(acc * 10));
        if 0 <= digit(s[0]) <= 9 {
            assert(all_digits(rest) == all_digits(s)) by {
                if all_digits(rest) {
                    assert forall|i: int| 0 <= i < s.len() implies 0 <= digit(#[trigger] s[i])
                        <= 9 by {
                        if i > 0 {
                            assert(rest[i - 1] == s[i]);
                        }
                    }
                }
                if all_digits(s) {
                    assert forall|i: int| 0 <= i < rest.len() implies 0 <= digit(
                        #[trigger] rest[i],
                    ) <= 9 by {
                        assert(rest[i] == s[i + 1]);
                    }
                }
            }
            if next <= -min {
                lemma_read_down(next, rest, min);
            } else if all_digits(s) {
                lemma_folded_grows(next, rest);
            }
        } else {
            assert(!all_digits(s));
        }
    }
}

/// Law: a text of decimal digits, with a plus before them or not, is read as the
/// number that they make, if that is no larger than it may be; other texts are
/// not read.
pub proof fn law_unsigned_numbers(s: Seq<char>, max: int)
    requires
        max >= 0,
    ensures
        ({
            let digits = if s.len() > 0 && s[0] == '+' {
                s.drop_first()
            } else {
                s
            };
            match text::unsigned_of(s, max) {
                Ok(n) => digits.len() > 0 && all_digits(digits) && n == number(digits) && n <= max,
                Err(_) => digits.len() == 0 || !all_digits(digits) || number(digits) > max,
            }
        }),
{
    let digits = if s.len() > 0 && s[0] == '+' {
        s.drop_first()
    } else {
        s
    };
    lemma_read_up(0, digits, max);
    lemma_folded_number(digits);
}

/// Law: a text of decimal digits, with a sign before them or not, is read as the
/// number that they make, less than zero behind a minus, if it fits in sixty-four
/// bits; other texts are not read.
pub proof fn law_signed_numbers(s: Seq<char>)
    ensures
        ({
            let signed = s.len() > 0 && (s[0] == '+' || s[0] == '-');
            let digits = if signed {
                s.drop_first()
            } else {
                s
            };
            let n = if signed && s[0] == '-' {
                -number(digits)
            } else {
                number(digits)
            };
            match text::signed_of(s) {
                Ok(m) => digits.len() > 0 && all_digits(digits) && m == n && i64::MIN <= n
                    <= i64::MAX,
                Err(_) => digits.len() == 0 || !all_digits(digits) || n < i64::MIN || n > i64::MAX,
            }
        }),
{
    let signed = s.len() > 0 && (s[0] == '+' || s[0] == '-');
    let digits = if signed {
        s.drop_first()
    } else {
        s
    };
    lemma_read_up(0, digits, i64::MAX as int);
    lemma_read_down(0, digits, i64::MIN as int);
    lemma_folded_number(digits);
    if all_digits(digits) {
        lemma_number_bounds(digits);
    }
}

proof fn lemma_decimal_text(n: nat)
    ensures
        text::decimal_text(n).len() > 0,
        all_digits(text::decimal_text(n)),
        number(text::decimal_text(n)) == n,
    decreases n,
{
    let s = text::decimal_text(n);
    if n < 10 {
        assert(s.drop_last() =~= Seq::empty());
        assert(number(s.drop_last()) == 0);
        assert(digit(s[0]) == n);
        assert(s.last() == s[0]);
    } else {
        let before = text::decimal_text(n / 10);
        lemma_decimal_text(n / 10);
        assert(s.drop_last() =~= before);
        assert(digit(s.last()) == n % 10);
        assert forall|i: int| 0 <= i < s.len() implies 0 <= digit(#[trigger] s[i]) <= 9 by {
            if i < before.len() {
                assert(s[i] == before[i]);
            }
        }
    }
}

/// Law: a number that is written out is read back as itself.
pub proof fn law_numbers_are_read_back(n: int)
    requires
        i64::MIN <= n <= i64::MAX,
    ensures
        text::signed_of(text::integer_text(n)) == Ok::<int, NumberError>(n),
        n >= 0 ==> number(text::decimal_text(n as nat)) == n,
{
    let s = text::integer_text(n);
    let m = if n < 0 {
        (-n) as nat
    } else {
        n as nat
    };
    let digits = text::decimal_text(m);
    lemma_decimal_text(m);
    law_signed_numbers(s);
    assert(0 <= digit(digits[0]) <= 9);
    if n < 0 {
        assert(s.drop_first() =~= digits);
        assert(s[0] == '-');
    }
}

/// Law: a quoted literal is the text between the quotes, NULL is NULL, and a
/// number without a dot is the whole number that its digits make, refused where
/// there is none.
pub proof fn law_literals<P: Fn(&str) -> Result<u64, String>>(parse: P, s: String)
    ensures
        helpers::literal_value(parse, SqlExpr::Value(SqlLiteral::Text(s))) == Ok::<
            ValueModel,
            Refusal,
        >(ValueModel::Text(s@)),
        helpers::literal_value(parse, SqlExpr::Value(SqlLiteral::Null)) == Ok::<
            ValueModel,
            Refusal,
        >(ValueModel::Null),
        !s@.contains('.') ==> match helpers::literal_value(
            parse,
            SqlExpr::Value(SqlLiteral::Number(s)),
        ) {
            Ok(v) => v is Integer && text::signed_of(s@) == Ok::<int, NumberError>(
                v->Integer_0 as int,
            ),
            Err(_) => text::signed_of(s@) is Err,
        },
        s@.contains('.') ==> helpers::literal_value(
            parse,
            SqlExpr::Value(SqlLiteral::Number(s)),
        ) == helpers::parsed_float(parse, s@),
{
    law_signed_numbers(s@);
}

} // verus!
