//! Where reading can leave the cursor: never behind where it started, never
//! past the end of the text, and past at least one character on success.

use crate::grammar::{
    array, char_at, digit, digits_end, document, elements, escape_at, members, number, object,
    skip_whitespace, string_body, string_literal, value, whitespace,
};
use crate::value::Json;
use vstd::prelude::*;

verus! {

/// Skipping whitespace stops within the text, at a character that is no
/// whitespace or at the end, and skipping again from there skips nothing.
pub proof fn lemma_skip_whitespace(s: Seq<char>, pos: int)
    requires
        0 <= pos <= s.len(),
    ensures
        pos <= skip_whitespace(s, pos) <= s.len(),
        skip_whitespace(s, pos) < s.len() ==> !whitespace(s[skip_whitespace(s, pos)]),
        skip_whitespace(s, skip_whitespace(s, pos)) == skip_whitespace(s, pos),
    decreases s.len() - pos,
{
    if pos < s.len() && whitespace(s[pos]) {
        lemma_skip_whitespace(s, pos + 1);
    }
}

/// What is skipped as whitespace is whitespace.
pub proof fn lemma_skipped_is_whitespace(s: Seq<char>, pos: int)
    requires
        0 <= pos <= s.len(),
    ensures
        forall|i: int| pos <= i < skip_whitespace(s, pos) ==> whitespace(#[trigger] s[i]),
    decreases s.len() - pos,
{
    if pos < s.len() && whitespace(s[pos]) {
        lemma_skipped_is_whitespace(s, pos + 1);
    }
}

/// A run of digits ends within the text, at the first character from `pos` on
/// that is no digit.
pub proof fn lemma_digits_end(s: Seq<char>, pos: int)
    requires
        0 <= pos <= s.len(),
    ensures
        pos <= digits_end(s, pos) <= s.len(),
        forall|i: int| pos <= i < digits_end(s, pos) ==> digit(#[trigger] s[i]),
        digits_end(s, pos) < s.len() ==> !digit(s[digits_end(s, pos)]),
    decreases s.len() - pos,
{
    if pos < s.len() && digit(s[pos]) {
        lemma_digits_end(s, pos + 1);
    }
}

/// An escape sequence takes up 2, 6 or 12 characters, all within the text.
pub proof fn lemma_escape_len(s: Seq<char>, pos: int)
    requires
        0 <= pos,
        escape_at(s, pos) is Some,
    ensures
        2 <= escape_at(s, pos)->0.len <= 12,
        pos + escape_at(s, pos)->0.len <= s.len(),
{
    reveal(escape_at);
}

/// The body of a string literal ends within the text, and past the closing
/// quote when it is read.
pub proof fn lemma_string_body_cursor(s: Seq<char>, pos: int, read: Seq<char>)
    requires
        0 <= pos <= s.len(),
    ensures
        pos <= string_body(s, pos, read).cursor <= s.len(),
        string_body(s, pos, read).result is Ok ==> pos < string_body(s, pos, read).cursor,
    decreases s.len() - pos,
{
    if pos < s.len() && s[pos] != '"' {
        if s[pos] == '\\' {
            if let Some(escape) = escape_at(s, pos) {
                lemma_escape_len(s, pos);
                lemma_string_body_cursor(s, pos + escape.len, read.push(escape.decoded));
            }
        } else {
            lemma_string_body_cursor(s, pos + 1, read.push(s[pos]));
        }
    }
}

/// A string literal ends within the text, and past its two quotes when it is read.
pub proof fn lemma_string_literal_cursor(s: Seq<char>, pos: int)
    requires
        0 <= pos <= s.len(),
    ensures
        pos <= string_literal(s, pos).cursor <= s.len(),
        string_literal(s, pos).result is Ok ==> pos + 2 <= string_literal(s, pos).cursor,
{
    if char_at(s, pos) == Some('"') {
        lemma_string_body_cursor(s, pos + 1, Seq::empty());
    }
}

/// A number ends within the text, and past at least one digit when it is read.
pub proof fn lemma_number_cursor(s: Seq<char>, pos: int)
    requires
        0 <= pos <= s.len(),
    ensures
        pos <= number(s, pos).cursor <= s.len(),
        number(s, pos).result is Ok ==> pos < number(s, pos).cursor,
{
    if char_at(s, pos) == Some('-') {
        lemma_digits_end(s, pos + 1);
    } else {
        lemma_digits_end(s, pos);
    }
}

/// Reading a value leaves the cursor within the text and not behind where it
/// was; a value that is read takes up at least one character.
pub proof fn lemma_value_cursor(s: Seq<char>, pos: int, depth: nat)
    requires
        0 <= pos <= s.len(),
    ensures
        pos <= value(s, pos, depth).cursor <= s.len(),
        value(s, pos, depth).result is Ok ==> skip_whitespace(s, pos) < value(
            s,
            pos,
            depth,
        ).cursor,
    decreases depth, 0nat, s.len() - pos,
{
    lemma_skip_whitespace(s, pos);
    let start = skip_whitespace(s, pos);
    reveal_strlit("true");
    reveal_strlit("false");
    reveal_strlit("null");
    lemma_number_cursor(s, start);
    lemma_string_literal_cursor(s, start);
    if depth > 0 {
        lemma_array_cursor(s, start, (depth - 1) as nat);
        lemma_object_cursor(s, start, (depth - 1) as nat);
    }
}

/// Reading an array leaves the cursor within the text and, when the array is
/// read, past its brackets.
pub proof fn lemma_array_cursor(s: Seq<char>, pos: int, depth: nat)
    requires
        0 <= pos <= s.len(),
    ensures
        pos <= array(s, pos, depth).cursor <= s.len(),
        array(s, pos, depth).result is Ok ==> pos + 2 <= array(s, pos, depth).cursor,
    decreases depth, 2nat, s.len() - pos,
{
    if char_at(s, pos) == Some('[') {
        lemma_skip_whitespace(s, pos + 1);
        lemma_elements_cursor(s, skip_whitespace(s, pos + 1), depth, Seq::empty());
    }
}

/// Reading the elements of an array leaves the cursor within the text and not
/// behind where it was.
pub proof fn lemma_elements_cursor(s: Seq<char>, pos: int, depth: nat, read: Seq<Json>)
    requires
        0 <= pos <= s.len(),
    ensures
        pos <= elements(s, pos, depth, read).cursor <= s.len(),
        elements(s, pos, depth, read).result is Ok ==> pos < elements(s, pos, depth, read).cursor,
    decreases depth, 1nat, s.len() - pos,
{
    lemma_value_cursor(s, pos, depth);
    let element = value(s, pos, depth);
    if let Ok(v) = element.result {
        lemma_skip_whitespace(s, pos);
        lemma_skip_whitespace(s, element.cursor);
        let after = skip_whitespace(s, element.cursor);
        if char_at(s, after) == Some(',') {
            lemma_skip_whitespace(s, after + 1);
            let next = skip_whitespace(s, after + 1);
            if char_at(s, next) != Some(']') {
                lemma_elements_cursor(s, next, depth, read.push(v));
            }
        }
    }
}

/// Reading an object leaves the cursor within the text and, when the object is
/// read, past its braces.
pub proof fn lemma_object_cursor(s: Seq<char>, pos: int, depth: nat)
    requires
        0 <= pos <= s.len(),
    ensures
        pos <= object(s, pos, depth).cursor <= s.len(),
        object(s, pos, depth).result is Ok ==> pos + 2 <= object(s, pos, depth).cursor,
    decreases depth, 2nat, s.len() - pos,
{
    if char_at(s, pos) == Some('{') {
        lemma_skip_whitespace(s, pos + 1);
        lemma_members_cursor(s, skip_whitespace(s, pos + 1), depth, Map::empty());
    }
}

/// Reading the members of an object leaves the cursor within the text and not
/// behind where it was.
pub proof fn lemma_members_cursor(
    s: Seq<char>,
    pos: int,
    depth: nat,
    read: Map<Seq<char>, Json>,
)
    requires
        0 <= pos <= s.len(),
    ensures
        pos <= members(s, pos, depth, read).cursor <= s.len(),
        members(s, pos, depth, read).result is Ok ==> pos < members(s, pos, depth, read).cursor,
    decreases depth, 1nat, s.len() - pos,
{
    lemma_string_literal_cursor(s, pos);
    let key = string_literal(s, pos);
    if let Ok(k) = key.result {
        lemma_skip_whitespace(s, key.cursor);
        let colon = skip_whitespace(s, key.cursor);
        if char_at(s, colon) == Some(':') {
            lemma_value_cursor(s, colon + 1, depth);
            let member = value(s, colon + 1, depth);
            if let Ok(v) = member.result {
                lemma_skip_whitespace(s, member.cursor);
                let after = skip_whitespace(s, member.cursor);
                if char_at(s, after) == Some(',') {
                    lemma_skip_whitespace(s, after + 1);
                    let next = skip_whitespace(s, after + 1);
                    if char_at(s, next) != Some('}') {
                        lemma_members_cursor(s, next, depth, read.insert(k, v));
                    }
                }
            }
        }
    }
}

/// Behind a value that is read and a character that follows it, the next
/// position without whitespace lies ahead of where reading began and within the
/// text. This is the test that [`elements`] makes before it goes on: it never
/// fails.
pub proof fn lemma_next_is_ahead(s: Seq<char>, pos: int, depth: nat)
    requires
        value(s, pos, depth).result is Ok,
        skip_whitespace(s, value(s, pos, depth).cursor) < s.len(),
    ensures
        0 <= pos < skip_whitespace(s, skip_whitespace(s, value(s, pos, depth).cursor) + 1)
            <= s.len(),
{
    if 0 <= pos <= s.len() {
        lemma_value_cursor(s, pos, depth);
        lemma_skip_whitespace(s, pos);
        let after = skip_whitespace(s, value(s, pos, depth).cursor);
        lemma_skip_whitespace(s, value(s, pos, depth).cursor);
        lemma_skip_whitespace(s, after + 1);
    }
}

/// Behind a member that is read and a character that follows it, the next
/// position without whitespace lies ahead of where the member began and within
/// the text. This is the test that [`members`] makes before it goes on: it
/// never fails.
pub proof fn lemma_next_member_is_ahead(s: Seq<char>, pos: int, depth: nat)
    requires
        string_literal(s, pos).result is Ok,
        value(s, skip_whitespace(s, string_literal(s, pos).cursor) + 1, depth).result is Ok,
        skip_whitespace(
            s,
            value(s, skip_whitespace(s, string_literal(s, pos).cursor) + 1, depth).cursor,
        ) < s.len(),
    ensures
        0 <= pos < skip_whitespace(
            s,
            skip_whitespace(
                s,
                value(s, skip_whitespace(s, string_literal(s, pos).cursor) + 1, depth).cursor,
            ) + 1,
        ) <= s.len(),
{
    lemma_string_literal_cursor(s, pos);
    lemma_skip_whitespace(s, string_literal(s, pos).cursor);
    lemma_next_is_ahead(s, skip_whitespace(s, string_literal(s, pos).cursor) + 1, depth);
}

/// Reading a document leaves the cursor within the text and not behind where
/// it was. From a cursor past the end nothing is read and the cursor stays.
pub proof fn lemma_document_cursor(s: Seq<char>, pos: int, max_depth: nat)
    requires
        0 <= pos,
    ensures
        pos <= document(s, pos, max_depth).cursor,
        pos <= s.len() ==> document(s, pos, max_depth).cursor <= s.len(),
        pos > s.len() ==> document(s, pos, max_depth).cursor == pos && document(
            s,
            pos,
            max_depth,
        ).result is Err,
{
    if pos <= s.len() {
        lemma_value_cursor(s, pos, max_depth);
        lemma_skip_whitespace(s, value(s, pos, max_depth).cursor);
    }
}

} // verus!
