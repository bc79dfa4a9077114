//! Characters and strings: the few operations on text that the rest of the
//! library is built from.

use vstd::prelude::*;

verus! {

/// The characters that force a token to be written between double quotes.
pub open spec fn is_special(c: char) -> bool {
    c == ' ' || c == '(' || c == ')' || c == '\t' || c == '{' || c == '}' || c == '%'
}

/// Whether a token has to be quoted: it is empty, or one of its characters
/// is special.
pub open spec fn needs_quotes(s: Seq<char>) -> bool {
    s.len() == 0 || exists|i: int| 0 <= i < s.len() && is_special(#[trigger] s[i])
}

/// A token between double quotes. Nothing inside it is escaped.
pub open spec fn quoted(s: Seq<char>) -> Seq<char> {
    seq!['"'] + s + seq!['"']
}

/// A token as it is written: quoted where it has to be, bare otherwise.
pub open spec fn encoded(s: Seq<char>) -> Seq<char> {
    if needs_quotes(s) {
        quoted(s)
    } else {
        s
    }
}

/// The character of a decimal digit.
pub open spec fn digit_char(d: nat) -> char {
    if d == 0 {
        '0'
    } else if d == 1 {
        '1'
    } else if d == 2 {
        '2'
    } else if d == 3 {
        '3'
    } else if d == 4 {
        '4'
    } else if d == 5 {
        '5'
    } else if d == 6 {
        '6'
    } else if d == 7 {
        '7'
    } else if d == 8 {
        '8'
    } else {
        '9'
    }
}

/// The decimal digit that a character stands for, if it is one.
pub open spec fn digit_value(c: char) -> Option<nat> {
    if c == '0' {
        Some(0)
    } else if c == '1' {
        Some(1)
    } else if c == '2' {
        Some(2)
    } else if c == '3' {
        Some(3)
    } else if c == '4' {
        Some(4)
    } else if c == '5' {
        Some(5)
    } else if c == '6' {
        Some(6)
    } else if c == '7' {
        Some(7)
    } else if c == '8' {
        Some(8)
    } else if c == '9' {
        Some(9)
    } else {
        None
    }
}

/// A natural number in decimal digits, without leading zeros.
pub open spec fn decimal(n: nat) -> Seq<char>
    decreases n,
{
    if n < 10 {
        seq![digit_char(n)]
    } else {
        decimal(n / 10).push(digit_char(n % 10))
    }
}

/// An integer in decimal digits, with `-` before a negative one.
pub open spec fn signed_decimal(n: int) -> Seq<char> {
    if n < 0 {
        seq!['-'] + decimal((-n) as nat)
    } else {
        decimal(n as nat)
    }
}

/// The number that a run of decimal digits stands for; `None` if the run
/// is empty or holds anything but digits.
pub open spec fn digits_value(s: Seq<char>) -> Option<nat>
    decreases s.len(),
{
    if s.len() == 0 {
        None
    } else {
        match digit_value(s.last()) {
            None => None,
            Some(d) => if s.len() == 1 {
                Some(d)
            } else {
                match digits_value(s.drop_last()) {
                    None => None,
                    Some(v) => Some(v * 10 + d),
                }
            },
        }
    }
}

/// The integer that a text stands for: decimal digits, with one `+` or
/// `-` before them or none. `None` for any other text.
pub open spec fn integer_value(s: Seq<char>) -> Option<int> {
    if s.len() > 0 && s[0] == '-' {
        match digits_value(s.subrange(1, s.len() as int)) {
            Some(v) => Some(-(v as int)),
            None => None,
        }
    } else if s.len() > 0 && s[0] == '+' {
        match digits_value(s.subrange(1, s.len() as int)) {
            Some(v) => Some(v as int),
            None => None,
        }
    } else {
        match digits_value(s) {
            Some(v) => Some(v as int),
            None => None,
        }
    }
}

/// Reads a text as an `i64`.
///
/// Wraps `str::parse::<i64>`: the text is read as decimal digits with at
/// most one sign before them; the result is the number where the text is
/// of that form and the number fits, and an error otherwise.
#[verifier::external_body]
pub(crate) fn parse_i64(s: &str) -> (r: Result<i64, std::num::ParseIntError>)
    ensures
        match integer_value(s@) {
            Some(v) => if i64::MIN <= v <= i64::MAX {
                r == Ok::<i64, std::num::ParseIntError>(v as i64)
            } else {
                r is Err
            },
            None => r is Err,
        },
{
    s.parse::<i64>()
}

/// A text in lower case, as `str::to_lowercase` gives it.
pub uninterp spec fn lowercase(s: Seq<char>) -> Seq<char>;

/// The text in lower case.
///
/// Wraps `str::to_lowercase`, which maps each character by the Unicode
/// tables for lower case; the result depends on the text alone and is
/// known here as `lowercase` of the text.
#[verifier::external_body]
pub(crate) fn to_lowercase(s: &str) -> (r: String)
    ensures
        r@ == lowercase(s@),
{
    s.to_lowercase()
}

/// Appends one character to a string.
///
/// Wraps `String::push`: the string afterwards is the string before with
/// `c` added at its end.
#[verifier::external_body]
pub(crate) fn push_char(s: &mut String, c: char)
    ensures
        final(s)@ == old(s)@.push(c),
{
    s.push(c)
}

/// Whether two texts hold the same characters.
///
/// Wraps `==` on `str`, which compares the two texts byte by byte.
#[verifier::external_body]
pub(crate) fn same_text(a: &str, b: &str) -> (same: bool)
    ensures
        same == (a@ == b@),
{
    a == b
}

/// The characters of a string, in order.
pub fn chars_of(s: &str) -> (v: Vec<char>)
    ensures
        v@ == s@,
{
    let mut v: Vec<char> = Vec::new();
    for c in it: s.chars()
        invariant
            v@ == it.seq().take(it.index()),
    {
        v.push(c);
    }
    v
}

fn digit_of(d: u64) -> (c: char)
    requires
        d < 10,
    ensures
        c == digit_char(d as nat),
{
    if d == 0 {
        '0'
    } else if d == 1 {
        '1'
    } else if d == 2 {
        '2'
    } else if d == 3 {
        '3'
    } else if d == 4 {
        '4'
    } else if d == 5 {
        '5'
    } else if d == 6 {
        '6'
    } else if d == 7 {
        '7'
    } else if d == 8 {
        '8'
    } else {
        '9'
    }
}

/// Appends a number in decimal digits.
pub fn push_decimal(s: &mut String, n: u64)
    ensures
        final(s)@ == old(s)@ + decimal(n as nat),
    decreases n,
{
    if n >= 10 {
        push_decimal(s, n / 10);
    }
    push_char(s, digit_of(n % 10));
    assert(s@ =~= old(s)@ + decimal(n as nat));
}

/// An integer as text: its decimal digits, after `-` if it is negative.
pub fn integer_text(n: i64) -> (s: String)
    ensures
        s@ == signed_decimal(n as int),
{
    let mut s = String::new();
    if n < 0 {
        push_char(&mut s, '-');
        let magnitude: u64 = if n == i64::MIN {
            9223372036854775808u64
        } else {
            (-n) as u64
        };
        push_decimal(&mut s, magnitude);
    } else {
        push_decimal(&mut s, n as u64);
    }
    assert(s@ =~= signed_decimal(n as int));
    s
}

/// Whether `c` is one of the characters that force quoting.
pub fn is_special_char(c: char) -> (b: bool)
    ensures
        b == is_special(c),
{
    c == ' ' || c == '(' || c == ')' || c == '\t' || c == '{' || c == '}' || c == '%'
}

/// Whether a token has to be quoted when it is written.
pub fn must_quote(s: &str) -> (b: bool)
    ensures
        b == needs_quotes(s@),
{
    let mut found = false;
    for c in it: s.chars()
        invariant
            found == exists|j: int| 0 <= j < it.index() && is_special(#[trigger] it.seq()[j]),
    {
        if is_special_char(c) {
            found = true;
        }
    }
    found || s.is_empty()
}

/// Writes a token as the text format wants it: between double quotes if it
/// is empty or holds a space, a tab, a parenthesis, a brace or a percent
/// sign, and unchanged otherwise. The quoted form escapes nothing.
pub fn encode_string(s: &str) -> (r: String)
    ensures
        r@ == encoded(s@),
{
    if must_quote(s) {
        let mut r = String::new();
        push_char(&mut r, '"');
        r.append(s);
        push_char(&mut r, '"');
        assert(r@ =~= quoted(s@));
        r
    } else {
        String::from_str(s)
    }
}

/// Writing a token that is already bare changes nothing, however often it
/// is done.
pub proof fn lemma_encode_bare_idempotent(s: Seq<char>)
    requires
        !needs_quotes(s),
    ensures
        encoded(s) == s,
        encoded(encoded(s)) == encoded(s),
{
}

} // verus!
