//! How single tokens are read, wherever they stand in a text.

use crate::cursor::{lemma_escape_len, lemma_string_body_cursor};
use crate::error::Failure;
use crate::grammar::{
    boolean, char_at, decimal, digit, digits_end, document, done, escape_at, number, occurs_at,
    saturate, skip_whitespace, string_body, string_literal, whitespace,
};
use crate::value::Json;
use vstd::prelude::*;

verus! {

/// Whether `text` holds nothing but whitespace.
pub open spec fn blank(text: Seq<char>) -> bool {
    forall|i: int| 0 <= i < text.len() ==> whitespace(#[trigger] text[i])
}

/// Whether `text` holds nothing but decimal digits, and at least one.
pub open spec fn all_digits(text: Seq<char>) -> bool {
    &&& text.len() > 0
    &&& forall|i: int| 0 <= i < text.len() ==> digit(#[trigger] text[i])
}

/// How an integer is written: a minus sign if it is negative, and its digits.
pub open spec fn integer_text(negative: bool, digits: Seq<char>) -> Seq<char> {
    if negative {
        seq!['-'] + digits
    } else {
        digits
    }
}

/// The integer that a sign and decimal digits write.
pub open spec fn integer_value(negative: bool, digits: Seq<char>) -> int {
    if negative {
        -(decimal(digits) as int)
    } else {
        decimal(digits) as int
    }
}

/// The characters that a string literal stands for, given the text between its
/// quotes; `None` if that text holds a quote that is not escaped, a backslash
/// that starts no escape sequence, or half a surrogate pair.
pub open spec fn string_content(raw: Seq<char>) -> Option<Seq<char>> {
    let read = string_body(raw.push('"'), 0, Seq::empty());
    match read.result {
        Ok(text) => if read.cursor == raw.len() + 1 {
            Some(text)
        } else {
            None
        },
        Err(_) => None,
    }
}

/// How a string literal is written: the text between two quotes.
pub open spec fn string_text(raw: Seq<char>) -> Seq<char> {
    seq!['"'] + raw + seq!['"']
}

/// A text that stands at `pos` puts each of its characters there.
pub proof fn lemma_occurs_chars(s: Seq<char>, pos: int, token: Seq<char>)
    requires
        occurs_at(s, pos, token),
    ensures
        forall|i: int| 0 <= i < token.len() ==> s[pos + i] == #[trigger] token[i],
{
    assert forall|i: int| 0 <= i < token.len() implies s[pos + i] == #[trigger] token[i] by {
        assert(s.subrange(pos, pos + token.len())[i] == s[pos + i]);
    }
}

/// Two texts stand one after the other exactly if their concatenation stands there.
pub proof fn lemma_occurs_concat(s: Seq<char>, pos: int, first: Seq<char>, second: Seq<char>)
    requires
        0 <= pos,
    ensures
        occurs_at(s, pos, first + second) <==> occurs_at(s, pos, first) && occurs_at(
            s,
            pos + first.len(),
            second,
        ),
{
    let whole = first + second;
    if occurs_at(s, pos, whole) {
        lemma_occurs_chars(s, pos, whole);
        assert(s.subrange(pos, pos + first.len()) =~= first) by {
            assert forall|i: int| 0 <= i < first.len() implies s[pos + i] == first[i] by {
                assert(whole[i] == first[i]);
            }
        }
        assert(s.subrange(pos + first.len(), pos + first.len() + second.len()) =~= second) by {
            assert forall|i: int| 0 <= i < second.len() implies s[pos + first.len() + i]
                == second[i] by {
                assert(whole[first.len() + i] == second[i]);
            }
        }
    }
    if occurs_at(s, pos, first) && occurs_at(s, pos + first.len(), second) {
        lemma_occurs_chars(s, pos, first);
        lemma_occurs_chars(s, pos + first.len(), second);
        assert(s.subrange(pos, pos + whole.len()) =~= whole) by {
            assert forall|i: int| 0 <= i < whole.len() implies s[pos + i] == whole[i] by {
                if i >= first.len() {
                    assert(whole[i] == second[i - first.len()]);
                }
            }
        }
    }
}

/// Whitespace that stands at `pos` and is followed by the end of the text, or by
/// a character that is no whitespace, is skipped as a whole.
pub proof fn lemma_blank_skipped(s: Seq<char>, pos: int, gap: Seq<char>)
    requires
        blank(gap),
        occurs_at(s, pos, gap),
        pos + gap.len() < s.len() ==> !whitespace(s[pos + gap.len()]),
    ensures
        skip_whitespace(s, pos) == pos + gap.len(),
    decreases gap.len(),
{
    lemma_occurs_chars(s, pos, gap);
    if gap.len() > 0 {
        assert(s[pos + 0] == gap[0]);
        let rest = gap.subrange(1, gap.len() as int);
        assert(occurs_at(s, pos + 1, rest)) by {
            assert forall|i: int| 0 <= i < rest.len() implies s[pos + 1 + i] == rest[i] by {
                assert(rest[i] == gap[i + 1]);
            }
            assert(s.subrange(pos + 1, pos + 1 + rest.len()) =~= rest);
        }
        assert(blank(rest)) by {
            assert forall|i: int| 0 <= i < rest.len() implies whitespace(#[trigger] rest[i]) by {
                assert(rest[i] == gap[i + 1]);
            }
        }
        lemma_blank_skipped(s, pos + 1, rest);
    }
}

/// A run of digits from `pos` to `end`, followed by the end of the text or by a
/// character that is no digit, ends at `end`.
pub proof fn lemma_digit_run(s: Seq<char>, pos: int, end: int)
    requires
        0 <= pos <= end <= s.len(),
        forall|i: int| pos <= i < end ==> digit(#[trigger] s[i]),
        end < s.len() ==> !digit(s[end]),
    ensures
        digits_end(s, pos) == end,
    decreases end - pos,
{
    if pos < end {
        lemma_digit_run(s, pos + 1, end);
    }
}

/// An integer that stands at `pos`, followed by the end of the text or by a
/// character that is no digit, is read as its value, saturated, and the cursor
/// ends behind its last digit.
pub proof fn lemma_number_token(s: Seq<char>, pos: int, negative: bool, digits: Seq<char>)
    requires
        all_digits(digits),
        occurs_at(s, pos, integer_text(negative, digits)),
        pos + integer_text(negative, digits).len() < s.len() ==> !digit(
            s[pos + integer_text(negative, digits).len()],
        ),
    ensures
        number(s, pos) == done(
            Json::Number(saturate(integer_value(negative, digits))),
            pos + integer_text(negative, digits).len(),
        ),
{
    let text = integer_text(negative, digits);
    lemma_occurs_chars(s, pos, text);
    let first = if negative {
        pos + 1
    } else {
        pos
    };
    let end = pos + text.len();
    assert(s[pos + 0] == text[0]);
    assert forall|i: int| first <= i < end implies digit(#[trigger] s[i]) by {
        assert(s[pos + (i - pos)] == text[i - pos]);
    }
    lemma_digit_run(s, first, end);
    assert(s.subrange(first, end) =~= digits) by {
        assert forall|i: int| 0 <= i < digits.len() implies s[first + i] == digits[i] by {
            assert(s[pos + (first - pos + i)] == text[first - pos + i]);
        }
    }
}

/// `true` or `false` that stands at `pos` is read as what it says.
pub proof fn lemma_boolean_token(s: Seq<char>, pos: int, b: bool)
    requires
        occurs_at(
            s,
            pos,
            if b {
                "true"@
            } else {
                "false"@
            },
        ),
    ensures
        boolean(s, pos) == done(
            Json::Bool(b),
            if b {
                pos + 4
            } else {
                pos + 5
            },
        ),
{
    reveal_strlit("true");
    reveal_strlit("false");
    if !b {
        lemma_occurs_chars(s, pos, "false"@);
        if occurs_at(s, pos, "true"@) {
            lemma_occurs_chars(s, pos, "true"@);
            assert(s[pos + 0] == "true"@[0]);
        }
    }
}

/// An escape sequence decodes alike wherever its characters stand.
pub proof fn lemma_escape_moved(t: Seq<char>, at: int, s: Seq<char>, pos: int)
    requires
        0 <= at,
        0 <= pos,
        escape_at(t, at) is Some,
        pos + escape_at(t, at)->0.len <= s.len(),
        forall|j: int|
            at <= j < at + escape_at(t, at)->0.len ==> #[trigger] t[j] == s[j - at + pos],
    ensures
        escape_at(s, pos) == escape_at(t, at),
{
    reveal(escape_at);
    lemma_escape_len(t, at);
}

/// The body of a string literal that is read in `t` is read alike wherever the
/// characters up to its closing quote stand.
pub proof fn lemma_string_body_moved(
    t: Seq<char>,
    at: int,
    s: Seq<char>,
    pos: int,
    read: Seq<char>,
)
    requires
        0 <= at <= t.len(),
        0 <= pos,
        string_body(t, at, read).result is Ok,
        pos + (string_body(t, at, read).cursor - at) <= s.len(),
        forall|j: int|
            at <= j < string_body(t, at, read).cursor ==> #[trigger] t[j] == s[j - at + pos],
    ensures
        string_body(s, pos, read) == done(
            string_body(t, at, read).result->Ok_0,
            pos + (string_body(t, at, read).cursor - at),
        ),
    decreases t.len() - at,
{
    lemma_string_body_cursor(t, at, read);
    if t[at] == '"' {
        // The closing quote: nothing more is read.
    } else if t[at] == '\\' {
        let escape = escape_at(t, at)->0;
        lemma_escape_len(t, at);
        lemma_string_body_cursor(t, at + escape.len, read.push(escape.decoded));
        lemma_escape_moved(t, at, s, pos);
        lemma_string_body_moved(t, at + escape.len, s, pos + escape.len, read.push(escape.decoded));
    } else {
        lemma_string_body_moved(t, at + 1, s, pos + 1, read.push(t[at]));
    }
}

/// A string literal that stands at `pos` is read as its content, and the cursor
/// ends behind its closing quote.
pub proof fn lemma_string_token(s: Seq<char>, pos: int, raw: Seq<char>)
    requires
        string_content(raw) is Some,
        occurs_at(s, pos, string_text(raw)),
    ensures
        string_literal(s, pos) == done(string_content(raw)->0, pos + raw.len() + 2),
{
    let text = string_text(raw);
    let t = raw.push('"');
    lemma_occurs_chars(s, pos, text);
    assert(s[pos + 0] == text[0]);
    assert forall|j: int| 0 <= j < t.len() implies #[trigger] t[j] == s[j - 0 + (pos + 1)] by {
        assert(s[pos + (j + 1)] == text[j + 1]);
    }
    lemma_string_body_moved(t, 0, s, pos + 1, Seq::empty());
}

/// The text between the quotes of a string literal that is read decodes, by
/// itself, to what was read.
pub proof fn lemma_string_token_content(s: Seq<char>, pos: int)
    requires
        0 <= pos <= s.len(),
        string_literal(s, pos).result is Ok,
    ensures
        pos + 2 <= string_literal(s, pos).cursor <= s.len(),
        string_content(s.subrange(pos + 1, string_literal(s, pos).cursor - 1)) == Some(
            string_literal(s, pos).result->Ok_0,
        ),
        string_text(s.subrange(pos + 1, string_literal(s, pos).cursor - 1)) == s.subrange(
            pos,
            string_literal(s, pos).cursor,
        ),
{
    let end = string_literal(s, pos).cursor;
    lemma_string_body_cursor(s, pos + 1, Seq::empty());
    lemma_string_body_closed(s, pos + 1, Seq::empty());
    let raw = s.subrange(pos + 1, end - 1);
    let t = raw.push('"');
    assert forall|j: int| pos + 1 <= j < end implies #[trigger] s[j] == t[j - (pos + 1) + 0] by {
        if j < end - 1 {
            assert(raw[j - (pos + 1)] == s[j]);
        }
    }
    lemma_string_body_moved(s, pos + 1, t, 0, Seq::empty());
    assert(string_text(raw) =~= s.subrange(pos, end));
}

/// The body of a string literal that is read ends with a quote.
pub proof fn lemma_string_body_closed(s: Seq<char>, pos: int, read: Seq<char>)
    requires
        0 <= pos <= s.len(),
        string_body(s, pos, read).result is Ok,
    ensures
        s[string_body(s, pos, read).cursor - 1] == '"',
    decreases s.len() - pos,
{
    lemma_string_body_cursor(s, pos, read);
    if s[pos] == '"' {
        // The closing quote itself.
    } else if s[pos] == '\\' {
        let escape = escape_at(s, pos)->0;
        lemma_escape_len(s, pos);
        lemma_string_body_closed(s, pos + escape.len, read.push(escape.decoded));
    } else {
        lemma_string_body_closed(s, pos + 1, read.push(s[pos]));
    }
}

/// A document that is nothing but an integer is read as that integer, saturated
/// at the bounds of 64 signed bits, whatever the depth limit.
pub proof fn lemma_integer_document(negative: bool, digits: Seq<char>, max_depth: nat)
    requires
        all_digits(digits),
    ensures
        document(integer_text(negative, digits), 0, max_depth) == done(
            Json::Number(saturate(integer_value(negative, digits))),
            integer_text(negative, digits).len() as int,
        ),
{
    let s = integer_text(negative, digits);
    assert(s.subrange(0, s.len() as int) =~= s);
    lemma_number_token(s, 0, negative, digits);
}

/// A document that is nothing but an integer between the least and the
/// greatest signed 64-bit integer is read as exactly that integer.
pub proof fn lemma_integer_document_exact(negative: bool, digits: Seq<char>, max_depth: nat)
    requires
        all_digits(digits),
        i64::MIN <= integer_value(negative, digits) <= i64::MAX,
    ensures
        document(integer_text(negative, digits), 0, max_depth).result == Ok::<Json, Failure>(
            Json::Number(integer_value(negative, digits)),
        ),
{
    lemma_integer_document(negative, digits, max_depth);
}

} // verus!
