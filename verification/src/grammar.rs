//! The language that the parser reads, as functions on sequences of characters.
//!
//! Every function here takes the whole text and a position in it and says what
//! reading from that position yields: a value or a failure, and where the cursor
//! stands afterwards.

use crate::error::Failure;
use crate::value::Json;
use vstd::prelude::*;

verus! {

/// What one reading step yields and where it leaves the cursor.
pub struct Outcome<T> {
    pub result: Result<T, Failure>,
    pub cursor: int,
}

/// A step that produced `value` and left the cursor at `cursor`.
pub open spec fn done<T>(value: T, cursor: int) -> Outcome<T> {
    Outcome { result: Ok(value), cursor }
}

/// A step that failed with `failure` when the cursor stood at `cursor`.
pub open spec fn fail<T>(failure: Failure, cursor: int) -> Outcome<T> {
    Outcome { result: Err(failure), cursor }
}

/// Space, tab, line feed and carriage return separate tokens.
pub open spec fn whitespace(c: char) -> bool {
    c == ' ' || c == '\t' || c == '\n' || c == '\r'
}

/// A decimal digit.
pub open spec fn digit(c: char) -> bool {
    '0' <= c <= '9'
}

/// The number that a decimal digit stands for.
pub open spec fn digit_value(c: char) -> int {
    c as int - '0' as int
}

/// The character at `pos`, if the text reaches that far.
pub open spec fn char_at(s: Seq<char>, pos: int) -> Option<char> {
    if 0 <= pos < s.len() {
        Some(s[pos])
    } else {
        None
    }
}

/// Whether the characters of `token` stand in `s` from `pos` on.
pub open spec fn occurs_at(s: Seq<char>, pos: int, token: Seq<char>) -> bool {
    &&& 0 <= pos
    &&& pos + token.len() <= s.len()
    &&& s.subrange(pos, pos + token.len()) == token
}

/// The first position from `pos` on that holds no whitespace.
pub open spec fn skip_whitespace(s: Seq<char>, pos: int) -> int
    decreases s.len() - pos,
{
    if 0 <= pos < s.len() && whitespace(s[pos]) {
        skip_whitespace(s, pos + 1)
    } else {
        pos
    }
}

/// The first position from `pos` on that holds no decimal digit.
pub open spec fn digits_end(s: Seq<char>, pos: int) -> int
    decreases s.len() - pos,
{
    if 0 <= pos < s.len() && digit(s[pos]) {
        digits_end(s, pos + 1)
    } else {
        pos
    }
}

/// The natural number that a sequence of decimal digits writes.
pub open spec fn decimal(digits: Seq<char>) -> nat
    decreases digits.len(),
{
    if digits.len() == 0 {
        0
    } else {
        (10 * decimal(digits.drop_last()) + digit_value(digits.last())) as nat
    }
}

/// The nearest integer that fits in 64 signed bits.
pub open spec fn saturate(n: int) -> int {
    if n < i64::MIN {
        i64::MIN as int
    } else if n > i64::MAX {
        i64::MAX as int
    } else {
        n
    }
}

/// A number: an optional minus sign and one or more decimal digits. Its value
/// saturates at the bounds of a signed 64-bit integer.
pub open spec fn number(s: Seq<char>, pos: int) -> Outcome<Json> {
    let negative = char_at(s, pos) == Some('-');
    let first = if negative {
        pos + 1
    } else {
        pos
    };
    let end = digits_end(s, first);
    let magnitude = decimal(s.subrange(first, end)) as int;
    if end == first {
        fail(Failure::ParseError("Expected a digit"@), first)
    } else if negative {
        done(Json::Number(saturate(-magnitude)), end)
    } else {
        done(Json::Number(saturate(magnitude)), end)
    }
}

/// The literals `true` and `false`.
pub open spec fn boolean(s: Seq<char>, pos: int) -> Outcome<Json> {
    if occurs_at(s, pos, "true"@) {
        done(Json::Bool(true), pos + 4)
    } else if occurs_at(s, pos, "false"@) {
        done(Json::Bool(false), pos + 5)
    } else {
        fail(Failure::ParseError("Expected either true or false"@), pos)
    }
}

/// The literal `null`.
pub open spec fn null(s: Seq<char>, pos: int) -> Outcome<Json> {
    if occurs_at(s, pos, "null"@) {
        done(Json::Null, pos + 4)
    } else {
        fail(Failure::ParseError("Expected null"@), pos)
    }
}

/// The number that a hexadecimal digit stands for.
pub open spec fn hex_value(c: char) -> Option<int> {
    if '0' <= c <= '9' {
        Some(c as int - '0' as int)
    } else if 'a' <= c <= 'f' {
        Some(c as int - 'a' as int + 10)
    } else if 'A' <= c <= 'F' {
        Some(c as int - 'A' as int + 10)
    } else {
        None
    }
}

/// The number that the four hexadecimal digits from `pos` on write, if they are there.
pub open spec fn hex4(s: Seq<char>, pos: int) -> Option<int> {
    if 0 <= pos && pos + 4 <= s.len() && hex_value(s[pos]) is Some && hex_value(s[pos + 1]) is Some
        && hex_value(s[pos + 2]) is Some && hex_value(s[pos + 3]) is Some {
        Some(
            ((hex_value(s[pos])->0 * 16 + hex_value(s[pos + 1])->0) * 16 + hex_value(
                s[pos + 2],
            )->0) * 16 + hex_value(s[pos + 3])->0,
        )
    } else {
        None
    }
}

/// A code unit that opens a surrogate pair.
pub open spec fn high_surrogate(code: int) -> bool {
    0xD800 <= code <= 0xDBFF
}

/// A code unit that closes a surrogate pair.
pub open spec fn low_surrogate(code: int) -> bool {
    0xDC00 <= code <= 0xDFFF
}

/// The code point that a surrogate pair stands for.
pub open spec fn pair_value(high: int, low: int) -> int {
    0x10000 + (high - 0xD800) * 0x400 + (low - 0xDC00)
}

/// A decoded escape sequence: the character it stands for and how many
/// characters of the text it takes up.
pub struct Escape {
    pub decoded: char,
    pub len: int,
}

/// What `\u` and four hexadecimal digits at `pos` stand for. A code unit from
/// the surrogate range counts only as the first half of a pair whose second half
/// follows at once, written the same way.
pub open spec fn unicode_escape(s: Seq<char>, pos: int) -> Option<Escape> {
    match hex4(s, pos + 2) {
        None => None,
        Some(code) => if high_surrogate(code) {
            match hex4(s, pos + 8) {
                Some(low) => if char_at(s, pos + 6) == Some('\\') && char_at(s, pos + 7) == Some(
                    'u',
                ) && low_surrogate(low) {
                    Some(Escape { decoded: pair_value(code, low) as char, len: 12 })
                } else {
                    None
                },
                None => None,
            }
        } else if low_surrogate(code) {
            None
        } else {
            Some(Escape { decoded: code as char, len: 6 })
        },
    }
}

/// What the escape sequence that starts with the backslash at `pos` stands for,
/// or `None` if it is none of `\"`, `\\`, `\/`, `\b`, `\f`, `\n`, `\r`, `\t`
/// and `\u` with four hexadecimal digits.
#[verifier::opaque]
pub open spec fn escape_at(s: Seq<char>, pos: int) -> Option<Escape> {
    match char_at(s, pos + 1) {
        Some('"') => Some(Escape { decoded: '"', len: 2 }),
        Some('\\') => Some(Escape { decoded: '\\', len: 2 }),
        Some('/') => Some(Escape { decoded: '/', len: 2 }),
        Some('b') => Some(Escape { decoded: '\u{8}', len: 2 }),
        Some('f') => Some(Escape { decoded: '\u{c}', len: 2 }),
        Some('n') => Some(Escape { decoded: '\n', len: 2 }),
        Some('r') => Some(Escape { decoded: '\r', len: 2 }),
        Some('t') => Some(Escape { decoded: '\t', len: 2 }),
        Some('u') => unicode_escape(s, pos),
        _ => None,
    }
}

/// The rest of a string literal whose opening quote has been read: characters
/// up to the closing quote, appended to `read` with escape sequences decoded.
pub open spec fn string_body(s: Seq<char>, pos: int, read: Seq<char>) -> Outcome<Seq<char>>
    decreases s.len() - pos,
{
    if !(0 <= pos < s.len()) {
        fail(Failure::ParseError("Unterminated string"@), pos)
    } else if s[pos] == '"' {
        done(read, pos + 1)
    } else if s[pos] == '\\' {
        match escape_at(s, pos) {
            Some(escape) => {
                proof {
                    reveal(escape_at);
                }
                string_body(s, pos + escape.len, read.push(escape.decoded))
            },
            None => fail(Failure::ParseError("Invalid escape sequence"@), pos),
        }
    } else {
        string_body(s, pos + 1, read.push(s[pos]))
    }
}

/// A string literal: a quote, the body, a quote.
pub open spec fn string_literal(s: Seq<char>, pos: int) -> Outcome<Seq<char>> {
    if char_at(s, pos) == Some('"') {
        string_body(s, pos + 1, Seq::empty())
    } else {
        fail(Failure::ParseError("Expected '\"' "@), pos)
    }
}

/// A string literal as a value.
pub open spec fn string(s: Seq<char>, pos: int) -> Outcome<Json> {
    let literal = string_literal(s, pos);
    match literal.result {
        Ok(text) => done(Json::String(text), literal.cursor),
        Err(failure) => fail(failure, literal.cursor),
    }
}

/// The grammar rule that a lookahead character selects.
#[derive(Debug, PartialEq)]
pub enum ParseType {
    Null,
    Boolean,
    Number,
    String,
    Array,
    Object,
    Unknown,
}

/// The rule for a value that starts with `c`; `None` stands for the end of the text.
pub open spec fn rule_for(c: Option<char>) -> ParseType {
    match c {
        Some('{') => ParseType::Object,
        Some('[') => ParseType::Array,
        Some('"') => ParseType::String,
        Some('t') | Some('f') => ParseType::Boolean,
        Some('n') => ParseType::Null,
        Some(c) => if c == '-' || digit(c) {
            ParseType::Number
        } else {
            ParseType::Unknown
        },
        None => ParseType::Unknown,
    }
}

/// One value, after any whitespace. `depth` is how many more levels of arrays
/// and objects may open.
pub open spec fn value(s: Seq<char>, pos: int, depth: nat) -> Outcome<Json>
    decreases depth, 0nat, s.len() - pos,
{
    let start = skip_whitespace(s, pos);
    match rule_for(char_at(s, start)) {
        ParseType::Object => if depth == 0 {
            fail(Failure::DepthExceeded, start)
        } else {
            object(s, start, (depth - 1) as nat)
        },
        ParseType::Array => if depth == 0 {
            fail(Failure::DepthExceeded, start)
        } else {
            array(s, start, (depth - 1) as nat)
        },
        ParseType::String => string(s, start),
        ParseType::Number => number(s, start),
        ParseType::Boolean => boolean(s, start),
        ParseType::Null => null(s, start),
        ParseType::Unknown => fail(Failure::ParseHelperFailed("ParseHelper failed."@), start),
    }
}

/// An array whose opening bracket stands at `pos`. `depth` bounds the nesting of
/// its elements.
pub open spec fn array(s: Seq<char>, pos: int, depth: nat) -> Outcome<Json>
    decreases depth, 2nat, s.len() - pos,
{
    let first = skip_whitespace(s, pos + 1);
    if char_at(s, pos) != Some('[') {
        fail(Failure::ParseError("Expected '['"@), pos)
    } else if char_at(s, first) == Some(']') {
        done(Json::Array(Seq::empty()), first + 1)
    } else {
        elements(s, first, depth, Seq::empty())
    }
}

/// The elements of an array from `pos` on, up to and with the closing bracket.
/// `read` holds the elements before `pos`.
///
/// The test `pos < next <= s.len()` holds whenever it is reached, as
/// [`crate::cursor::lemma_next_is_ahead`] shows; it is there to make the
/// recursion well founded.
pub open spec fn elements(s: Seq<char>, pos: int, depth: nat, read: Seq<Json>) -> Outcome<Json>
    decreases depth, 1nat, s.len() - pos,
{
    let element = value(s, pos, depth);
    match element.result {
        Err(failure) => fail(failure, element.cursor),
        Ok(v) => {
            let after = skip_whitespace(s, element.cursor);
            let next = skip_whitespace(s, after + 1);
            if char_at(s, after) == Some(']') {
                done(Json::Array(read.push(v)), after + 1)
            } else if char_at(s, after) != Some(',') {
                fail(Failure::ParseError("Expected ',' or ']'"@), after)
            } else if char_at(s, next) == Some(']') {
                fail(Failure::InvalidJson("Invalid JSON."@), next)
            } else if pos < next <= s.len() {
                elements(s, next, depth, read.push(v))
            } else {
                fail(Failure::InvalidJson("Invalid JSON."@), next)
            }
        },
    }
}

/// An object whose opening brace stands at `pos`. `depth` bounds the nesting of
/// its members' values.
pub open spec fn object(s: Seq<char>, pos: int, depth: nat) -> Outcome<Json>
    decreases depth, 2nat, s.len() - pos,
{
    let first = skip_whitespace(s, pos + 1);
    if char_at(s, pos) != Some('{') {
        fail(Failure::ParseError("Expected '{'"@), pos)
    } else if char_at(s, first) == Some('}') {
        done(Json::Object(Map::empty()), first + 1)
    } else {
        members(s, first, depth, Map::empty())
    }
}

/// The members of an object from `pos` on, up to and with the closing brace.
/// `read` holds the members before `pos`; a key that comes again replaces the
/// value it had.
///
/// The test `pos < next <= s.len()` holds whenever it is reached, as
/// [`crate::cursor::lemma_next_member_is_ahead`] shows; it is there to make the
/// recursion well founded.
pub open spec fn members(s: Seq<char>, pos: int, depth: nat, read: Map<Seq<char>, Json>) -> Outcome<
    Json,
>
    decreases depth, 1nat, s.len() - pos,
{
    let key = string_literal(s, pos);
    let colon = skip_whitespace(s, key.cursor);
    match key.result {
        Err(failure) => fail(failure, key.cursor),
        Ok(k) => if char_at(s, colon) != Some(':') {
            fail(Failure::ParseError("Expected ':'"@), colon)
        } else {
            let member = value(s, colon + 1, depth);
            match member.result {
                Err(failure) => fail(failure, member.cursor),
                Ok(v) => {
                    let after = skip_whitespace(s, member.cursor);
                    let next = skip_whitespace(s, after + 1);
                    if char_at(s, after) == Some('}') {
                        done(Json::Object(read.insert(k, v)), after + 1)
                    } else if char_at(s, after) != Some(',') {
                        fail(Failure::ParseError("Expected ','"@), after)
                    } else if char_at(s, next) == Some('}') {
                        fail(Failure::InvalidJson("Invalid JSON."@), next)
                    } else if pos < next <= s.len() {
                        members(s, next, depth, read.insert(k, v))
                    } else {
                        fail(Failure::InvalidJson("Invalid JSON."@), next)
                    }
                },
            }
        },
    }
}

/// A whole document from `pos` on: one value, and after it nothing but whitespace.
pub open spec fn document(s: Seq<char>, pos: int, max_depth: nat) -> Outcome<Json> {
    let top = value(s, pos, max_depth);
    let end = skip_whitespace(s, top.cursor);
    if top.result is Err {
        top
    } else if end < s.len() {
        fail(Failure::ConsumeInputNotFinished(end), end)
    } else {
        Outcome { result: top.result, cursor: end }
    }
}

} // verus!
