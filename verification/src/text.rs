//! Text: joining, decimal numbers, and reading numbers back.
use vstd::prelude::*;
use vstd::string::*;

verus! {

/// The text `a` followed by the text `b`.
pub fn joined(a: &str, b: &str) -> (r: String)
    ensures
        r@ == a@ + b@,
{
    let s = a.to_string();
    s.concat(b)
}

/// The text `a`, `b`, `c` in a row.
pub fn joined3(a: &str, b: &str, c: &str) -> (r: String)
    ensures
        r@ == a@ + b@ + c@,
{
    joined(joined(a, b).as_str(), c)
}

/// The decimal digit for `d`.
pub open spec fn digit_char(d: int) -> char {
    (('0' as int) + d) as char
}

fn digit_text(d: u64) -> (s: &'static str)
    requires
        d < 10,
    ensures
        s@ == seq![digit_char(d as int)],
{
    proof {
        reveal_strlit("0");
        reveal_strlit("1");
        reveal_strlit("2");
        reveal_strlit("3");
        reveal_strlit("4");
        reveal_strlit("5");
        reveal_strlit("6");
        reveal_strlit("7");
        reveal_strlit("8");
        reveal_strlit("9");
        assert("0"@ =~= seq!['0'] && "1"@ =~= seq!['1'] && "2"@ =~= seq!['2']);
        assert("3"@ =~= seq!['3'] && "4"@ =~= seq!['4'] && "5"@ =~= seq!['5']);
        assert("6"@ =~= seq!['6'] && "7"@ =~= seq!['7'] && "8"@ =~= seq!['8']);
        assert("9"@ =~= seq!['9']);
    }
    if d == 0 {
        "0"
    } else if d == 1 {
        "1"
    } else if d == 2 {
        "2"
    } else if d == 3 {
        "3"
    } else if d == 4 {
        "4"
    } else if d == 5 {
        "5"
    } else if d == 6 {
        "6"
    } else if d == 7 {
        "7"
    } else if d == 8 {
        "8"
    } else {
        "9"
    }
}

/// The decimal text of a natural number, without leading zeros.
pub open spec fn decimal_text(n: nat) -> Seq<char>
    decreases n,
{
    if n < 10 {
        seq![digit_char(n as int)]
    } else {
        decimal_text(n / 10).push(digit_char((n % 10) as int))
    }
}

/// The decimal text of `n`.
pub fn decimal(n: u64) -> (s: String)
    ensures
        s@ == decimal_text(n as nat),
    decreases n,
{
    if n < 10 {
        digit_text(n).to_string()
    } else {
        let head = decimal(n / 10);
        let s = joined(head.as_str(), digit_text(n % 10));
        proof {
            assert(s@ =~= decimal_text(n as nat));
        }
        s
    }
}

/// The decimal text of an integer.
pub open spec fn integer_text(n: int) -> Seq<char> {
    if n < 0 {
        seq!['-'] + decimal_text((-n) as nat)
    } else {
        decimal_text(n as nat)
    }
}

/// The decimal text of `n`.
pub fn integer_decimal(n: i64) -> (s: String)
    ensures
        s@ == integer_text(n as int),
{
    if n < 0 {
        proof {
            reveal_strlit("-");
            assert("-"@ =~= seq!['-']);
        }
        let m: u64 = if n == i64::MIN {
            0x8000_0000_0000_0000
        } else {
            (-n) as u64
        };
        joined("-", decimal(m).as_str())
    } else {
        decimal(n as u64)
    }
}

/// Why a text is not a number.
#[derive(Clone, Copy, Debug, PartialEq, Eq, Structural)]
pub enum NumberError {
    Empty,
    InvalidDigit,
    TooLarge,
    TooSmall,
}

/// What is wrong, in words.
pub open spec fn number_error_text(e: NumberError) -> Seq<char> {
    match e {
        NumberError::Empty => "cannot parse integer from empty string"@,
        NumberError::InvalidDigit => "invalid digit found in string"@,
        NumberError::TooLarge => "number too large to fit in target type"@,
        NumberError::TooSmall => "number too small to fit in target type"@,
    }
}

impl NumberError {
    pub fn text(self) -> (s: &'static str)
        ensures
            s@ == number_error_text(self),
    {
        match self {
            NumberError::Empty => "cannot parse integer from empty string",
            NumberError::InvalidDigit => "invalid digit found in string",
            NumberError::TooLarge => "number too large to fit in target type",
            NumberError::TooSmall => "number too small to fit in target type",
        }
    }
}

pub open spec fn is_digit(c: char) -> bool {
    '0' as int <= c as int <= '9' as int
}

pub open spec fn digit_value(c: char) -> int {
    c as int - '0' as int
}

/// Reads decimal digits after a prefix worth `acc`; a value above `max` is
/// refused at the digit that takes it there.
pub open spec fn read_up(acc: int, s: Seq<char>, max: int) -> Result<int, NumberError>
    decreases s.len(),
{
    if s.len() == 0 {
        Ok(acc)
    } else if !is_digit(s[0]) {
        Err(NumberError::InvalidDigit)
    } else if acc * 10 + digit_value(s[0]) > max {
        Err(NumberError::TooLarge)
    } else {
        read_up(acc * 10 + digit_value(s[0]), s.drop_first(), max)
    }
}

/// Reads decimal digits of a negative number after a prefix worth `acc`.
pub open spec fn read_down(acc: int, s: Seq<char>, min: int) -> Result<int, NumberError>
    decreases s.len(),
{
    if s.len() == 0 {
        Ok(acc)
    } else if !is_digit(s[0]) {
        Err(NumberError::InvalidDigit)
    } else if acc * 10 - digit_value(s[0]) < min {
        Err(NumberError::TooSmall)
    } else {
        read_down(acc * 10 - digit_value(s[0]), s.drop_first(), min)
    }
}

/// The unsigned number up to `max` that a text holds: an optional `+` and
/// decimal digits.
pub open spec fn unsigned_of(s: Seq<char>, max: int) -> Result<int, NumberError> {
    if s.len() == 0 {
        Err(NumberError::Empty)
    } else if s.len() == 1 && s[0] == '+' {
        Err(NumberError::InvalidDigit)
    } else if s[0] == '+' {
        read_up(0, s.drop_first(), max)
    } else {
        read_up(0, s, max)
    }
}

/// The signed number that a text holds: an optional sign and decimal digits.
pub open spec fn signed_of(s: Seq<char>) -> Result<int, NumberError> {
    if s.len() == 0 {
        Err(NumberError::Empty)
    } else if s.len() == 1 && (s[0] == '+' || s[0] == '-') {
        Err(NumberError::InvalidDigit)
    } else if s[0] == '+' {
        read_up(0, s.drop_first(), i64::MAX as int)
    } else if s[0] == '-' {
        read_down(0, s.drop_first(), i64::MIN as int)
    } else {
        read_up(0, s, i64::MAX as int)
    }
}

/// The characters of a text, one by one.
pub fn characters(s: &str) -> (r: Vec<char>)
    ensures
        r@ == s@,
{
    let mut out: Vec<char> = Vec::new();
    for c in iter: s.chars()
        invariant
            iter.seq() == s@,
            out@ == s@.take(iter.index()),
    {
        out.push(c);
        proof {
            assert(out@ =~= s@.take(iter.index() + 1));
        }
    }
    proof {
        assert(s@.take(s@.len() as int) =~= s@);
    }
    out
}

/// The value of a digit, if `c` is one.
fn digit_of(c: char) -> (r: Option<u64>)
    ensures
        match r {
            Some(d) => is_digit(c) && d == digit_value(c) && d < 10,
            None => !is_digit(c),
        },
{
    if '0' <= c && c <= '9' {
        Some((c as u32 - '0' as u32) as u64)
    } else {
        None
    }
}

/// Reads an unsigned number of at most `max`.
pub fn parse_unsigned(text: &str, max: u64) -> (r: Result<u64, NumberError>)
    ensures
        match r {
            Ok(n) => n <= max && unsigned_of(text@, max as int) == Ok::<int, NumberError>(n as int),
            Err(e) => unsigned_of(text@, max as int) == Err::<int, NumberError>(e),
        },
{
    let s = characters(text);
    if s.len() == 0 {
        return Err(NumberError::Empty);
    }
    if s.len() == 1 && s[0] == '+' {
        return Err(NumberError::InvalidDigit);
    }
    let mut i: usize = if s[0] == '+' {
        1
    } else {
        0
    };
    let mut acc: u64 = 0;
    proof {
        assert(s@.skip(0) =~= s@);
        assert(s@.skip(1) =~= s@.drop_first());
    }
    while i < s.len()
        invariant
            i <= s.len(),
            acc <= max,
            s@ == text@,
            unsigned_of(text@, max as int) == read_up(acc as int, s@.skip(i as int), max as int),
        decreases s.len() - i,
    {
        let ghost rest = s@.skip(i as int);
        proof {
            assert(rest[0] == s@[i as int]);
            assert(rest.drop_first() =~= s@.skip(i + 1));
        }
        match digit_of(s[i]) {
            None => {
                return Err(NumberError::InvalidDigit);
            },
            Some(d) => {
                if acc > max / 10 || d > max - acc * 10 {
                    return Err(NumberError::TooLarge);
                }
                acc = acc * 10 + d;
            },
        }
        i += 1;
    }
    proof {
        assert(s@.skip(i as int).len() == 0);
    }
    Ok(acc)
}

/// Reads a signed number.
pub fn parse_signed(text: &str) -> (r: Result<i64, NumberError>)
    ensures
        match r {
            Ok(n) => signed_of(text@) == Ok::<int, NumberError>(n as int),
            Err(e) => signed_of(text@) == Err::<int, NumberError>(e),
        },
{
    let s = characters(text);
    if s.len() == 0 {
        return Err(NumberError::Empty);
    }
    if s.len() == 1 && (s[0] == '+' || s[0] == '-') {
        return Err(NumberError::InvalidDigit);
    }
    let negative = s[0] == '-';
    let mut i: usize = if s[0] == '+' || s[0] == '-' {
        1
    } else {
        0
    };
    let mut acc: i64 = 0;
    proof {
        assert(s@.skip(0) =~= s@);
        assert(s@.skip(1) =~= s@.drop_first());
    }
    while i < s.len()
        invariant
            i <= s.len(),
            s@ == text@,
            negative ==> acc <= 0 && signed_of(text@) == read_down(
                acc as int,
                s@.skip(i as int),
                i64::MIN as int,
            ),
            !negative ==> acc >= 0 && signed_of(text@) == read_up(
                acc as int,
                s@.skip(i as int),
                i64::MAX as int,
            ),
        decreases s.len() - i,
    {
        let ghost rest = s@.skip(i as int);
        proof {
            assert(rest[0] == s@[i as int]);
            assert(rest.drop_first() =~= s@.skip(i + 1));
        }
        match digit_of(s[i]) {
            None => {
                return Err(NumberError::InvalidDigit);
            },
            Some(digit) => {
                let d: i64 = digit as i64;
                if negative {
                    if acc < -922337203685477580 || acc * 10 < i64::MIN + d {
                        return Err(NumberError::TooSmall);
                    }
                    acc = acc * 10 - d;
                } else {
                    if acc > 922337203685477580 || acc * 10 > i64::MAX - d {
                        return Err(NumberError::TooLarge);
                    }
                    acc = acc * 10 + d;
                }
            },
        }
        i += 1;
    }
    proof {
        assert(s@.skip(i as int).len() == 0);
    }
    Ok(acc)
}

/// What `str::to_lowercase` gives.
pub uninterp spec fn lowercased(text: Seq<char>) -> Seq<char>;

/// A letter from `A` to `Z` in lower case, any other character as it is.
pub open spec fn ascii_lower(c: char) -> char {
    if 'A' as int <= c as int <= 'Z' as int {
        (c as int + 32) as char
    } else {
        c
    }
}

/// `str::to_lowercase`: the text in lower case as Unicode has it, which for
/// ASCII text changes the letters `A` to `Z` and nothing else.
#[verifier::external_body]
pub(crate) fn to_lowercase(text: &str) -> (r: String)
    ensures
        r@ == lowercased(text@),
        vstd::utf8::is_ascii_chars(text@) ==> r@ == text@.map_values(|c: char| ascii_lower(c)),
{
    text.to_lowercase()
}

} // verus!
