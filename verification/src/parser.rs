use crate::error::{Failure, ParserError};
use crate::grammar;
use crate::grammar::ParseType;
use crate::value::{
    array_view, insert_member, lemma_array_view, lemma_array_view_push, lemma_object_view,
    lemma_object_view_empty, lemma_object_view_insert, object_view, push_char, Json, JsonValue,
};
use std::collections::HashMap;
use vstd::prelude::*;

verus! {

/// How deep arrays and objects may nest when [`JsonParser::parse`] reads a document.
pub const DEFAULT_MAX_DEPTH: usize = 128;

/// A parser over one document. `cursor` counts characters, not bytes: it is the
/// index of the next character of `input` that has not been read.
#[derive(Debug)]
pub struct JsonParser {
    pub input: String,
    pub cursor: usize,
}

/// What the parser hands back, as mathematical objects.
pub open spec fn result_view(result: Result<JsonValue, ParserError>) -> Result<Json, Failure> {
    match result {
        Ok(value) => Ok(value@),
        Err(error) => Err(error@),
    }
}

fn is_whitespace(c: char) -> (b: bool)
    ensures
        b == grammar::whitespace(c),
{
    match c {
        '\t' => true,
        '\n' => true,
        '\r' => true,
        ' ' => true,
        _ => false,
    }
}

fn is_digit(c: char) -> (b: bool)
    ensures
        b == grammar::digit(c),
{
    '0' <= c && c <= '9'
}

fn is_numeric_char(c: char) -> (b: bool)
    ensures
        b == (c == '-' || grammar::digit(c)),
{
    c == '-' || is_digit(c)
}

fn determine_parse_type(c: Option<char>) -> (rule: ParseType)
    ensures
        rule == grammar::rule_for(c),
{
    match c {
        None => ParseType::Unknown,
        Some(c) => {
            if c == '{' {
                ParseType::Object
            } else if c == '[' {
                ParseType::Array
            } else if is_numeric_char(c) {
                ParseType::Number
            } else if c == '"' {
                ParseType::String
            } else if c == 't' || c == 'f' {
                ParseType::Boolean
            } else if c == 'n' {
                ParseType::Null
            } else {
                ParseType::Unknown
            }
        },
    }
}

/// The characters of `text`, decoded once so that each can be reached by its index.
fn scalar_values(text: &str) -> (chars: Vec<char>)
    ensures
        chars@ == text@,
{
    let mut chars: Vec<char> = Vec::new();
    for c in it: text.chars()
        invariant
            it.seq() == text@,
            chars@ == it.seq().take(it.index()),
    {
        chars.push(c);
    }
    chars
}

/// `after` is `before` with the cursor moved to `cursor`, which is not behind
/// where it was and not past the end of `chars`.
spec fn moved(before: JsonParser, after: JsonParser, chars: &Vec<char>, cursor: int) -> bool {
    &&& after.input == before.input
    &&& after.cursor == cursor
    &&& before.cursor <= cursor
    &&& cursor <= chars.len()
}

/// The number that the decimal digit `c` stands for.
fn digit_of(c: char) -> (d: i64)
    requires
        grammar::digit(c),
    ensures
        d == grammar::digit_value(c),
        0 <= d <= 9,
{
    (c as u8 - 48u8) as i64
}

/// `value` with the digit `d` appended, saturated: ten times `value`, plus `d`
/// for a number that is not negative and minus `d` for one that is.
fn append_digit(value: i64, d: i64, negative: bool) -> (next: i64)
    requires
        0 <= d <= 9,
        negative ==> value <= 0,
        !negative ==> value >= 0,
    ensures
        next == grammar::saturate(
            if negative {
                10 * value - d
            } else {
                10 * value + d
            },
        ),
{
    if negative {
        if value > -922337203685477580 || (value == -922337203685477580 && d <= 8) {
            value * 10 - d
        } else {
            i64::MIN
        }
    } else {
        if value < 922337203685477580 || (value == 922337203685477580 && d <= 7) {
            value * 10 + d
        } else {
            i64::MAX
        }
    }
}

/// Converts a code point to the character it names.
///
/// This is std's `char::from_u32`, which gives `None` exactly for the surrogate
/// code points and for numbers above `0x10FFFF`.
#[verifier::external_body]
fn char_from_code(code: u32) -> (c: Option<char>)
    ensures
        c == if code < 0xD800 || 0xE000 <= code <= 0x10FFFF {
            Some(code as char)
        } else {
            None
        },
{
    char::from_u32(code)
}

/// The number that the hexadecimal digit `c` stands for.
fn hex_digit(c: char) -> (value: Option<u32>)
    ensures
        match value {
            Some(v) => grammar::hex_value(c) == Some(v as int) && v < 16,
            None => grammar::hex_value(c) is None,
        },
{
    if '0' <= c && c <= '9' {
        Some(c as u32 - '0' as u32)
    } else if 'a' <= c && c <= 'f' {
        Some(c as u32 - 'a' as u32 + 10)
    } else if 'A' <= c && c <= 'F' {
        Some(c as u32 - 'A' as u32 + 10)
    } else {
        None
    }
}

/// The number that the four hexadecimal digits from `pos` on write.
fn read_hex4(chars: &Vec<char>, pos: usize) -> (value: Option<u32>)
    requires
        pos <= chars.len(),
    ensures
        match value {
            Some(v) => grammar::hex4(chars@, pos as int) == Some(v as int) && v <= 0xFFFF,
            None => grammar::hex4(chars@, pos as int) is None,
        },
{
    if chars.len() - pos < 4 {
        return None;
    }
    let h0: u32 = match hex_digit(chars[pos]) {
        Some(h) => h,
        None => { return None; },
    };
    let h1: u32 = match hex_digit(chars[pos + 1]) {
        Some(h) => h,
        None => { return None; },
    };
    let h2: u32 = match hex_digit(chars[pos + 2]) {
        Some(h) => h,
        None => { return None; },
    };
    let h3: u32 = match hex_digit(chars[pos + 3]) {
        Some(h) => h,
        None => { return None; },
    };
    Some(((h0 * 16 + h1) * 16 + h2) * 16 + h3)
}

/// Decodes the `\u` escape whose backslash stands at `pos`: the character and
/// how many characters the escape takes up.
fn read_unicode_escape(chars: &Vec<char>, pos: usize) -> (escape: Option<(char, usize)>)
    requires
        pos + 2 <= chars.len(),
    ensures
        match escape {
            Some((c, len)) => grammar::unicode_escape(chars@, pos as int) == Some(
                (grammar::Escape { decoded: c, len: len as int }),
            ) && pos + len <= chars.len() && len >= 1,
            None => grammar::unicode_escape(chars@, pos as int) is None,
        },
{
    let code: u32 = match read_hex4(chars, pos + 2) {
        Some(code) => code,
        None => { return None; },
    };
    if 0xD800 <= code && code <= 0xDBFF {
        if chars.len() - pos < 12 || chars[pos + 6] != '\\' || chars[pos + 7] != 'u' {
            return None;
        }
        let low: u32 = match read_hex4(chars, pos + 8) {
            Some(low) => low,
            None => { return None; },
        };
        if low < 0xDC00 || low > 0xDFFF {
            return None;
        }
        match char_from_code(0x10000 + (code - 0xD800) * 0x400 + (low - 0xDC00)) {
            Some(c) => Some((c, 12)),
            None => None,
        }
    } else {
        match char_from_code(code) {
            Some(c) => Some((c, 6)),
            None => None,
        }
    }
}

/// Decodes the escape sequence whose backslash stands at `pos`: the character
/// and how many characters the escape takes up.
fn read_escape(chars: &Vec<char>, pos: usize) -> (escape: Option<(char, usize)>)
    requires
        pos < chars.len(),
    ensures
        match escape {
            Some((c, len)) => grammar::escape_at(chars@, pos as int) == Some(
                (grammar::Escape { decoded: c, len: len as int }),
            ) && pos + len <= chars.len() && len >= 1,
            None => grammar::escape_at(chars@, pos as int) is None,
        },
{
    proof {
        reveal(grammar::escape_at);
    }
    if chars.len() - pos < 2 {
        return None;
    }
    let c: char = chars[pos + 1];
    if c == '"' {
        Some(('"', 2))
    } else if c == '\\' {
        Some(('\\', 2))
    } else if c == '/' {
        Some(('/', 2))
    } else if c == 'b' {
        Some(('\u{8}', 2))
    } else if c == 'f' {
        Some(('\u{c}', 2))
    } else if c == 'n' {
        Some(('\n', 2))
    } else if c == 'r' {
        Some(('\r', 2))
    } else if c == 't' {
        Some(('\t', 2))
    } else if c == 'u' {
        read_unicode_escape(chars, pos)
    } else {
        None
    }
}

/// What reading a string literal hands back, as a mathematical object.
spec fn text_view(result: Result<String, ParserError>) -> Result<Seq<char>, Failure> {
    match result {
        Ok(text) => Ok(text@),
        Err(error) => Err(error@),
    }
}

impl JsonParser {
    /// Whether the cursor stands within the text or at its end.
    pub open spec fn well_formed(&self) -> bool {
        self.cursor <= self.input@.len()
    }

    /// Reads the one document that `input` holds, from the cursor on, letting
    /// arrays and objects nest [`DEFAULT_MAX_DEPTH`] deep.
    ///
    /// The result and the final cursor are those of [`grammar::document`]: a
    /// malformed document is answered with an error, not with a panic. The text
    /// is left as it was, the cursor never moves back, and it stays within the
    /// text if it started there.
    pub fn parse(&mut self) -> (result: Result<JsonValue, ParserError>)
        ensures
            final(self).input == old(self).input,
            final(self).cursor == grammar::document(
                old(self).input@,
                old(self).cursor as int,
                DEFAULT_MAX_DEPTH as nat,
            ).cursor,
            result_view(result) == grammar::document(
                old(self).input@,
                old(self).cursor as int,
                DEFAULT_MAX_DEPTH as nat,
            ).result,
            old(self).cursor <= final(self).cursor,
            old(self).well_formed() ==> final(self).well_formed(),
    {
        self.parse_with_max_depth(DEFAULT_MAX_DEPTH)
    }

    /// Reads the one document that `input` holds, from the cursor on, letting
    /// arrays and objects nest `max_depth` deep: with `max_depth` 0 only a
    /// number, a string, `true`, `false` or `null` is read.
    ///
    /// The result and the final cursor are those of [`grammar::document`]: a
    /// malformed document is answered with an error, not with a panic. The text
    /// is left as it was, the cursor never moves back, and it stays within the
    /// text if it started there.
    pub fn parse_with_max_depth(&mut self, max_depth: usize) -> (result: Result<
        JsonValue,
        ParserError,
    >)
        ensures
            final(self).input == old(self).input,
            final(self).cursor == grammar::document(
                old(self).input@,
                old(self).cursor as int,
                max_depth as nat,
            ).cursor,
            result_view(result) == grammar::document(
                old(self).input@,
                old(self).cursor as int,
                max_depth as nat,
            ).result,
            old(self).cursor <= final(self).cursor,
            old(self).well_formed() ==> final(self).well_formed(),
    {
        let chars: Vec<char> = scalar_values(self.input.as_str());
        if self.cursor > chars.len() {
            return Err(ParserError::ParseHelperFailed("ParseHelper failed.".to_string()));
        }
        match self.parse_helper(&chars, max_depth) {
            Ok(value) => {
                self.skip_whitespace(&chars);
                if !self.eof(&chars) {
                    return Err(ParserError::ConsumeInputNotFinished(self.cursor));
                }
                Ok(value)
            },
            Err(error) => Err(error),
        }
    }

    fn eof(&self, chars: &Vec<char>) -> (b: bool)
        ensures
            b == (self.cursor >= chars.len()),
    {
        self.cursor >= chars.len()
    }

    fn peek(&self, chars: &Vec<char>) -> (c: Option<char>)
        ensures
            c == grammar::char_at(chars@, self.cursor as int),
    {
        if self.eof(chars) {
            None
        } else {
            Some(chars[self.cursor])
        }
    }

    fn skip_whitespace(&mut self, chars: &Vec<char>)
        requires
            old(self).cursor <= chars.len(),
        ensures
            moved(
                *old(self),
                *final(self),
                chars,
                grammar::skip_whitespace(chars@, old(self).cursor as int),
            ),
    {
        while !self.eof(chars) && is_whitespace(chars[self.cursor])
            invariant
                self.input == old(self).input,
                old(self).cursor <= self.cursor <= chars.len(),
                grammar::skip_whitespace(chars@, self.cursor as int) == grammar::skip_whitespace(
                    chars@,
                    old(self).cursor as int,
                ),
            decreases chars@.len() - self.cursor,
        {
            self.cursor += 1;
        }
    }

    fn consume_specific(&mut self, chars: &Vec<char>, expected: char) -> (found: bool)
        requires
            old(self).cursor <= chars.len(),
        ensures
            found == (grammar::char_at(chars@, old(self).cursor as int) == Some(expected)),
            moved(
                *old(self),
                *final(self),
                chars,
                if found {
                    old(self).cursor + 1
                } else {
                    old(self).cursor as int
                },
            ),
    {
        match self.peek(chars) {
            Some(c) => {
                if c != expected {
                    return false;
                }
                self.cursor += 1;
                true
            },
            None => false,
        }
    }

    /// Whether the characters of `literal` stand at the cursor.
    fn at_literal(&self, chars: &Vec<char>, literal: &str) -> (found: bool)
        requires
            self.cursor <= chars.len(),
        ensures
            found == grammar::occurs_at(chars@, self.cursor as int, literal@),
    {
        let len: usize = literal.unicode_len();
        if chars.len() - self.cursor < len {
            return false;
        }
        let mut i: usize = 0;
        while i < len
            invariant
                len == literal@.len(),
                self.cursor + len <= chars.len(),
                i <= len,
                chars@.subrange(self.cursor as int, self.cursor + i) == literal@.take(i as int),
            decreases len - i,
        {
            if chars[self.cursor + i] != literal.get_char(i) {
                assert(chars@.subrange(self.cursor as int, self.cursor + len)[i as int]
                    != literal@[i as int]);
                return false;
            }
            assert(chars@.subrange(self.cursor as int, self.cursor + i + 1) =~= literal@.take(
                i + 1,
            )) by {
                assert(chars@.subrange(self.cursor as int, self.cursor + i + 1).drop_last()
                    =~= chars@.subrange(self.cursor as int, self.cursor + i));
                assert(literal@.take(i + 1).drop_last() =~= literal@.take(i as int));
            }
            i += 1;
        }
        assert(literal@.take(len as int) =~= literal@);
        true
    }

    fn consume_and_unescape_string(&mut self, chars: &Vec<char>) -> (result: Result<
        String,
        ParserError,
    >)
        requires
            old(self).cursor <= chars.len(),
        ensures
            moved(
                *old(self),
                *final(self),
                chars,
                grammar::string_literal(chars@, old(self).cursor as int).cursor,
            ),
            text_view(result) == grammar::string_literal(chars@, old(self).cursor as int).result,
    {
        if !self.consume_specific(chars, '"') {
            return Err(ParserError::ParseError("Expected '\"' ".to_string()));
        }
        let mut builder: String = String::new();
        loop
            invariant
                self.input == old(self).input,
                old(self).cursor < self.cursor <= chars.len(),
                grammar::string_literal(chars@, old(self).cursor as int) == grammar::string_body(
                    chars@,
                    self.cursor as int,
                    builder@,
                ),
            decreases chars.len() - self.cursor,
        {
            if self.eof(chars) {
                return Err(ParserError::ParseError("Unterminated string".to_string()));
            }
            let c: char = chars[self.cursor];
            if c == '"' {
                self.cursor += 1;
                return Ok(builder);
            }
            if c == '\\' {
                match read_escape(chars, self.cursor) {
                    Some((decoded, len)) => {
                        push_char(&mut builder, decoded);
                        self.cursor += len;
                    },
                    None => {
                        return Err(ParserError::ParseError("Invalid escape sequence".to_string()));
                    },
                }
            } else {
                push_char(&mut builder, c);
                self.cursor += 1;
            }
        }
    }

    fn parse_helper(&mut self, chars: &Vec<char>, depth: usize) -> (result: Result<
        JsonValue,
        ParserError,
    >)
        requires
            old(self).cursor <= chars.len(),
        ensures
            moved(
                *old(self),
                *final(self),
                chars,
                grammar::value(chars@, old(self).cursor as int, depth as nat).cursor,
            ),
            result_view(result) == grammar::value(
                chars@,
                old(self).cursor as int,
                depth as nat,
            ).result,
        decreases depth, 0nat,
    {
        self.skip_whitespace(chars);
        let type_to_parse: ParseType = determine_parse_type(self.peek(chars));
        match type_to_parse {
            ParseType::Object => {
                if depth == 0 {
                    return Err(ParserError::DepthExceeded);
                }
                self.parse_object(chars, depth - 1)
            },
            ParseType::Array => {
                if depth == 0 {
                    return Err(ParserError::DepthExceeded);
                }
                self.parse_array(chars, depth - 1)
            },
            ParseType::Number => self.parse_number(chars),
            ParseType::String => self.parse_string(chars),
            ParseType::Boolean => self.parse_bool(chars),
            ParseType::Null => self.parse_null(chars),
            ParseType::Unknown => Err(
                ParserError::ParseHelperFailed("ParseHelper failed.".to_string()),
            ),
        }
    }

    fn parse_object(&mut self, chars: &Vec<char>, depth: usize) -> (result: Result<
        JsonValue,
        ParserError,
    >)
        requires
            old(self).cursor <= chars.len(),
        ensures
            moved(
                *old(self),
                *final(self),
                chars,
                grammar::object(chars@, old(self).cursor as int, depth as nat).cursor,
            ),
            result_view(result) == grammar::object(
                chars@,
                old(self).cursor as int,
                depth as nat,
            ).result,
        decreases depth, 1nat,
    {
        if !self.consume_specific(chars, '{') {
            return Err(ParserError::ParseError("Expected '{'".to_string()));
        }
        let mut values: HashMap<String, JsonValue> = HashMap::new();
        self.skip_whitespace(chars);
        proof {
            lemma_object_view_empty();
            lemma_object_view(values);
        }
        if self.consume_specific(chars, '}') {
            return Ok(JsonValue::Object(values));
        }
        loop
            invariant
                self.input == old(self).input,
                old(self).cursor < self.cursor <= chars.len(),
                grammar::object(chars@, old(self).cursor as int, depth as nat) == grammar::members(
                    chars@,
                    self.cursor as int,
                    depth as nat,
                    object_view(values@),
                ),
            decreases chars.len() - self.cursor,
        {
            // Get the property key.
            let key: String = match self.consume_and_unescape_string(chars) {
                Ok(key) => key,
                Err(error) => {
                    return Err(error);
                },
            };
            self.skip_whitespace(chars);
            if !self.consume_specific(chars, ':') {
                return Err(ParserError::ParseError("Expected ':'".to_string()));
            }
            // Get the property value.
            let value: JsonValue = match self.parse_helper(chars, depth) {
                Ok(value) => value,
                Err(error) => {
                    return Err(error);
                },
            };
            let ghost before = values@;
            let ghost bound = value;
            insert_member(&mut values, key, value);
            proof {
                lemma_object_view_insert(before, values@, key@, bound);
                lemma_object_view(values);
            }
            self.skip_whitespace(chars);
            if self.consume_specific(chars, '}') {
                return Ok(JsonValue::Object(values));
            }
            if !self.consume_specific(chars, ',') {
                return Err(ParserError::ParseError("Expected ','".to_string()));
            }
            self.skip_whitespace(chars);
            if self.peek(chars) == Some('}') {
                return Err(ParserError::InvalidJson("Invalid JSON.".to_string()));
            }
        }
    }

    fn parse_array(&mut self, chars: &Vec<char>, depth: usize) -> (result: Result<
        JsonValue,
        ParserError,
    >)
        requires
            old(self).cursor <= chars.len(),
        ensures
            moved(
                *old(self),
                *final(self),
                chars,
                grammar::array(chars@, old(self).cursor as int, depth as nat).cursor,
            ),
            result_view(result) == grammar::array(
                chars@,
                old(self).cursor as int,
                depth as nat,
            ).result,
        decreases depth, 1nat,
    {
        if !self.consume_specific(chars, '[') {
            return Err(ParserError::ParseError("Expected '['".to_string()));
        }
        let mut array: Vec<JsonValue> = Vec::new();
        self.skip_whitespace(chars);
        proof {
            lemma_array_view(array);
            assert(array_view(array@) =~= Seq::empty());
        }
        if self.consume_specific(chars, ']') {
            return Ok(JsonValue::Array(array));
        }
        loop
            invariant
                self.input == old(self).input,
                old(self).cursor < self.cursor <= chars.len(),
                grammar::array(chars@, old(self).cursor as int, depth as nat) == grammar::elements(
                    chars@,
                    self.cursor as int,
                    depth as nat,
                    array_view(array@),
                ),
            decreases chars.len() - self.cursor,
        {
            let element: JsonValue = match self.parse_helper(chars, depth) {
                Ok(element) => element,
                Err(error) => {
                    return Err(error);
                },
            };
            proof {
                lemma_array_view_push(array@, element);
            }
            array.push(element);
            proof {
                lemma_array_view(array);
            }
            self.skip_whitespace(chars);
            if self.consume_specific(chars, ']') {
                return Ok(JsonValue::Array(array));
            }
            if !self.consume_specific(chars, ',') {
                return Err(ParserError::ParseError("Expected ',' or ']'".to_string()));
            }
            self.skip_whitespace(chars);
            if self.peek(chars) == Some(']') {
                return Err(ParserError::InvalidJson("Invalid JSON.".to_string()));
            }
        }
    }

    fn parse_string(&mut self, chars: &Vec<char>) -> (result: Result<JsonValue, ParserError>)
        requires
            old(self).cursor <= chars.len(),
        ensures
            moved(
                *old(self),
                *final(self),
                chars,
                grammar::string(chars@, old(self).cursor as int).cursor,
            ),
            result_view(result) == grammar::string(chars@, old(self).cursor as int).result,
    {
        match self.consume_and_unescape_string(chars) {
            Ok(value) => Ok(JsonValue::String(value)),
            Err(error) => Err(error),
        }
    }

    fn parse_bool(&mut self, chars: &Vec<char>) -> (result: Result<JsonValue, ParserError>)
        requires
            old(self).cursor <= chars.len(),
        ensures
            moved(
                *old(self),
                *final(self),
                chars,
                grammar::boolean(chars@, old(self).cursor as int).cursor,
            ),
            result_view(result) == grammar::boolean(chars@, old(self).cursor as int).result,
    {
        proof {
            reveal_strlit("true");
            reveal_strlit("false");
        }
        let value: bool;
        if self.at_literal(chars, "true") {
            value = true;
            self.cursor += 4;
        } else if self.at_literal(chars, "false") {
            value = false;
            self.cursor += 5;
        } else {
            return Err(ParserError::ParseError("Expected either true or false".to_string()));
        }
        Ok(JsonValue::Bool(value))
    }

    fn parse_null(&mut self, chars: &Vec<char>) -> (result: Result<JsonValue, ParserError>)
        requires
            old(self).cursor <= chars.len(),
        ensures
            moved(
                *old(self),
                *final(self),
                chars,
                grammar::null(chars@, old(self).cursor as int).cursor,
            ),
            result_view(result) == grammar::null(chars@, old(self).cursor as int).result,
    {
        proof {
            reveal_strlit("null");
        }
        if self.at_literal(chars, "null") {
            self.cursor += 4;
        } else {
            return Err(ParserError::ParseError("Expected null".to_string()));
        }
        Ok(JsonValue::Null)
    }

    fn parse_number(&mut self, chars: &Vec<char>) -> (result: Result<JsonValue, ParserError>)
        requires
            old(self).cursor <= chars.len(),
        ensures
            moved(
                *old(self),
                *final(self),
                chars,
                grammar::number(chars@, old(self).cursor as int).cursor,
            ),
            result_view(result) == grammar::number(chars@, old(self).cursor as int).result,
    {
        let negative: bool = self.consume_specific(chars, '-');
        let first: usize = self.cursor;
        let mut value: i64 = 0;
        assert(chars@.subrange(first as int, first as int) =~= Seq::empty());
        while !self.eof(chars) && is_digit(chars[self.cursor])
            invariant
                self.input == old(self).input,
                first <= self.cursor <= chars.len(),
                grammar::digits_end(chars@, self.cursor as int) == grammar::digits_end(
                    chars@,
                    first as int,
                ),
                value == grammar::saturate(
                    if negative {
                        -grammar::decimal(chars@.subrange(first as int, self.cursor as int))
                    } else {
                        grammar::decimal(chars@.subrange(first as int, self.cursor as int)) as int
                    },
                ),
            decreases chars@.len() - self.cursor,
        {
            let d: i64 = digit_of(chars[self.cursor]);
            assert(chars@.subrange(first as int, self.cursor + 1).drop_last() =~= chars@.subrange(
                first as int,
                self.cursor as int,
            ));
            value = append_digit(value, d, negative);
            self.cursor += 1;
        }
        if self.cursor == first {
            return Err(ParserError::ParseError("Expected a digit".to_string()));
        }
        Ok(JsonValue::Number(value))
    }
}

} // verus!
