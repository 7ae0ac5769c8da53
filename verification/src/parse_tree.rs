//! The syntax tree of a document that is read: every document that the parser
//! accepts is the text of a well-formed tree, and its value is the value of that
//! tree's tokens.

use crate::cursor::{
    lemma_digits_end, lemma_skip_whitespace, lemma_skipped_is_whitespace,
    lemma_string_literal_cursor, lemma_value_cursor,
};
use crate::error::Failure;
use crate::grammar::{
    array, char_at, digit, digits_end, document, elements, members, number, object, occurs_at,
    rule_for, skip_whitespace, string_literal, value, whitespace, ParseType,
};
use crate::roundtrip::{
    elements_nest_within, lemma_rendered_document_is_read, members_nest_within,
};
use crate::syntax::{
    bind, element_values, member_pairs, nests_within, render, render_elements, render_member,
    render_members, render_spaced, value_of, well_formed, well_formed_member, well_formed_spaced,
    Member, Spaced, Syntax,
};
use crate::tokens::{blank, integer_text, lemma_string_token_content, string_content};
use crate::value::Json;
use vstd::prelude::*;

verus! {

/// The syntax of the number that starts at `pos`.
pub open spec fn number_syntax(s: Seq<char>, pos: int) -> Syntax {
    let negative = char_at(s, pos) == Some('-');
    let first = if negative {
        pos + 1
    } else {
        pos
    };
    Syntax::Number { negative, digits: s.subrange(first, digits_end(s, first)) }
}

/// The syntax of the string literal that starts at `pos`.
pub open spec fn string_syntax(s: Seq<char>, pos: int) -> Syntax {
    Syntax::String { raw: s.subrange(pos + 1, string_literal(s, pos).cursor - 1) }
}

/// The syntax of the value that is read from `pos`, after any whitespace. Where
/// no value is read it stands for nothing: the lemmas below speak of it only
/// for a value that is read.
pub open spec fn value_syntax(s: Seq<char>, pos: int, depth: nat) -> Syntax
    decreases depth, 0nat, s.len() - pos,
{
    let start = skip_whitespace(s, pos);
    match rule_for(char_at(s, start)) {
        ParseType::Object => if depth == 0 {
            Syntax::Null
        } else {
            object_syntax(s, start, (depth - 1) as nat)
        },
        ParseType::Array => if depth == 0 {
            Syntax::Null
        } else {
            array_syntax(s, start, (depth - 1) as nat)
        },
        ParseType::String => string_syntax(s, start),
        ParseType::Number => number_syntax(s, start),
        ParseType::Boolean => Syntax::Bool(occurs_at(s, start, "true"@)),
        _ => Syntax::Null,
    }
}

/// The syntax of the array whose opening bracket stands at `pos`.
pub open spec fn array_syntax(s: Seq<char>, pos: int, depth: nat) -> Syntax
    decreases depth, 3nat, s.len() - pos,
{
    let first = skip_whitespace(s, pos + 1);
    if char_at(s, first) == Some(']') {
        Syntax::Array { gap: s.subrange(pos + 1, first), items: Seq::empty() }
    } else {
        Syntax::Array { gap: Seq::empty(), items: elements_syntax(s, pos + 1, first, depth) }
    }
}

/// The syntax of the elements from the one at `pos` on; the whitespace before
/// that one starts at `from`.
pub open spec fn elements_syntax(s: Seq<char>, from: int, pos: int, depth: nat) -> Seq<Spaced>
    decreases depth, 2nat, s.len() - pos,
{
    let element = value(s, pos, depth);
    let after = skip_whitespace(s, element.cursor);
    let next = skip_whitespace(s, after + 1);
    let first = Spaced {
        before: s.subrange(from, pos),
        node: value_syntax(s, pos, depth),
        after: s.subrange(element.cursor, after),
    };
    if element.result is Ok && char_at(s, after) == Some(',') && pos < next <= s.len() {
        seq![first] + elements_syntax(s, after + 1, next, depth)
    } else {
        seq![first]
    }
}

/// The syntax of the object whose opening brace stands at `pos`.
pub open spec fn object_syntax(s: Seq<char>, pos: int, depth: nat) -> Syntax
    decreases depth, 3nat, s.len() - pos,
{
    let first = skip_whitespace(s, pos + 1);
    if char_at(s, first) == Some('}') {
        Syntax::Object { gap: s.subrange(pos + 1, first), members: Seq::empty() }
    } else {
        Syntax::Object { gap: Seq::empty(), members: members_syntax(s, pos + 1, first, depth) }
    }
}

/// The syntax of the member whose key starts at `pos`; the whitespace before
/// it starts at `from`.
pub open spec fn member_syntax(s: Seq<char>, from: int, pos: int, depth: nat) -> Member
    decreases depth, 1nat, s.len() - pos,
{
    let key = string_literal(s, pos);
    let colon = skip_whitespace(s, key.cursor);
    let member = value(s, colon + 1, depth);
    let after = skip_whitespace(s, member.cursor);
    Member {
        before: s.subrange(from, pos),
        key: s.subrange(pos + 1, key.cursor - 1),
        between: s.subrange(key.cursor, colon),
        value: Spaced {
            before: s.subrange(colon + 1, skip_whitespace(s, colon + 1)),
            node: value_syntax(s, colon + 1, depth),
            after: s.subrange(member.cursor, after),
        },
    }
}

/// The syntax of the members from the one at `pos` on; the whitespace before
/// that one starts at `from`.
pub open spec fn members_syntax(s: Seq<char>, from: int, pos: int, depth: nat) -> Seq<Member>
    decreases depth, 2nat, s.len() - pos,
{
    let key = string_literal(s, pos);
    let colon = skip_whitespace(s, key.cursor);
    let member = value(s, colon + 1, depth);
    let after = skip_whitespace(s, member.cursor);
    let next = skip_whitespace(s, after + 1);
    let first = member_syntax(s, from, pos, depth);
    if key.result is Ok && member.result is Ok && char_at(s, after) == Some(',') && pos < next
        <= s.len() {
        seq![first] + members_syntax(s, after + 1, next, depth)
    } else {
        seq![first]
    }
}

/// The syntax of the document that `s` holds.
pub open spec fn document_syntax(s: Seq<char>, max_depth: nat) -> Spaced {
    Spaced {
        before: s.subrange(0, skip_whitespace(s, 0)),
        node: value_syntax(s, 0, max_depth),
        after: s.subrange(value(s, 0, max_depth).cursor, s.len() as int),
    }
}

/// What is skipped as whitespace is whitespace.
pub proof fn lemma_skipped_is_blank(s: Seq<char>, pos: int)
    requires
        0 <= pos <= s.len(),
    ensures
        blank(s.subrange(pos, skip_whitespace(s, pos))),
{
    lemma_skip_whitespace(s, pos);
    lemma_skipped_is_whitespace(s, pos);
    let gap = s.subrange(pos, skip_whitespace(s, pos));
    assert forall|i: int| 0 <= i < gap.len() implies whitespace(#[trigger] gap[i]) by {
        assert(gap[i] == s[pos + i]);
    }
}

/// Two stretches of a text that meet make one stretch.
pub proof fn lemma_subrange_join(s: Seq<char>, from: int, middle: int, to: int)
    requires
        0 <= from <= middle <= to <= s.len(),
    ensures
        s.subrange(from, middle) + s.subrange(middle, to) == s.subrange(from, to),
{
    assert(s.subrange(from, middle) + s.subrange(middle, to) =~= s.subrange(from, to));
}

/// A stretch of a text and the character behind it make one stretch.
pub proof fn lemma_subrange_push(s: Seq<char>, from: int, to: int)
    requires
        0 <= from <= to < s.len(),
    ensures
        s.subrange(from, to) + seq![s[to]] == s.subrange(from, to + 1),
{
    assert(s.subrange(from, to) + seq![s[to]] =~= s.subrange(from, to + 1));
}

/// The text of the elements behind the first is that of the rest.
pub proof fn lemma_render_elements_rest(first: Spaced, rest: Seq<Spaced>, from: int)
    requires
        0 <= from <= rest.len(),
    ensures
        render_elements(seq![first] + rest, from + 1) == render_elements(rest, from),
    decreases rest.len() - from,
{
    if from < rest.len() {
        assert((seq![first] + rest)[from + 1] == rest[from]);
        lemma_render_elements_rest(first, rest, from + 1);
    }
}

/// The text of the members behind the first is that of the rest.
pub proof fn lemma_render_members_rest(first: Member, rest: Seq<Member>, from: int)
    requires
        0 <= from <= rest.len(),
    ensures
        render_members(seq![first] + rest, from + 1) == render_members(rest, from),
    decreases rest.len() - from,
{
    if from < rest.len() {
        assert((seq![first] + rest)[from + 1] == rest[from]);
        lemma_render_members_rest(first, rest, from + 1);
    }
}

/// Binding the pairs behind the first is binding the rest.
pub proof fn lemma_bind_rest(
    bound: Map<Seq<char>, Json>,
    first: (Seq<char>, Json),
    rest: Seq<(Seq<char>, Json)>,
    from: int,
)
    requires
        0 <= from <= rest.len(),
    ensures
        bind(bound, seq![first] + rest, from + 1) == bind(bound, rest, from),
    decreases rest.len() - from,
{
    if from < rest.len() {
        assert((seq![first] + rest)[from + 1] == rest[from]);
        lemma_bind_rest(bound.insert(rest[from].0, rest[from].1), first, rest, from + 1);
    }
}

/// The values of elements are the value of the first and those of the rest.
pub proof fn lemma_element_values_rest(first: Spaced, rest: Seq<Spaced>)
    ensures
        element_values(seq![first] + rest) == seq![value_of(first.node)] + element_values(rest),
{
    let items = seq![first] + rest;
    assert forall|i: int| 0 <= i < items.len() implies element_values(items)[i] == (seq![
        value_of(first.node),
    ] + element_values(rest))[i] by {
        if i > 0 {
            assert(items[i] == rest[i - 1]);
        }
    }
    assert(element_values(items) =~= seq![value_of(first.node)] + element_values(rest));
}

/// The pairs of members are the pair of the first and those of the rest.
pub proof fn lemma_member_pairs_rest(first: Member, rest: Seq<Member>)
    ensures
        member_pairs(seq![first] + rest) == seq![
            (string_content(first.key)->0, value_of(first.value.node)),
        ] + member_pairs(rest),
{
    let entries = seq![first] + rest;
    let pair = (string_content(first.key)->0, value_of(first.value.node));
    assert forall|i: int| 0 <= i < entries.len() implies member_pairs(entries)[i] == (seq![pair]
        + member_pairs(rest))[i] by {
        if i > 0 {
            assert(entries[i] == rest[i - 1]);
        }
    }
    assert(member_pairs(entries) =~= seq![pair] + member_pairs(rest));
}

/// A number that is read is the text of its syntax, and its value that of its
/// digits.
pub proof fn lemma_number_syntax(s: Seq<char>, pos: int)
    requires
        0 <= pos <= s.len(),
        number(s, pos).result is Ok,
    ensures
        well_formed(number_syntax(s, pos)),
        render(number_syntax(s, pos)) == s.subrange(pos, number(s, pos).cursor),
        number(s, pos).result == Ok::<Json, Failure>(value_of(number_syntax(s, pos))),
{
    let negative = char_at(s, pos) == Some('-');
    let first = if negative {
        pos + 1
    } else {
        pos
    };
    lemma_digits_end(s, first);
    let end = digits_end(s, first);
    let digits = s.subrange(first, end);
    assert forall|i: int| 0 <= i < digits.len() implies digit(#[trigger] digits[i]) by {
        assert(digits[i] == s[first + i]);
    }
    assert(integer_text(negative, digits) =~= s.subrange(pos, end));
}

/// A value that is read is the text of its syntax, which is well formed and
/// nests no deeper than allowed, and its value is that of the syntax.
pub proof fn lemma_value_syntax(s: Seq<char>, pos: int, depth: nat)
    requires
        0 <= pos <= s.len(),
        value(s, pos, depth).result is Ok,
    ensures
        well_formed(value_syntax(s, pos, depth)),
        nests_within(value_syntax(s, pos, depth), depth),
        skip_whitespace(s, pos) < value(s, pos, depth).cursor <= s.len(),
        render(value_syntax(s, pos, depth)) == s.subrange(
            skip_whitespace(s, pos),
            value(s, pos, depth).cursor,
        ),
        value(s, pos, depth).result == Ok::<Json, Failure>(value_of(value_syntax(s, pos, depth))),
    decreases depth, 0nat, s.len() - pos,
{
    lemma_skip_whitespace(s, pos);
    lemma_value_cursor(s, pos, depth);
    let start = skip_whitespace(s, pos);
    match rule_for(char_at(s, start)) {
        ParseType::Object => {
            lemma_object_syntax(s, start, (depth - 1) as nat);
        },
        ParseType::Array => {
            lemma_array_syntax(s, start, (depth - 1) as nat);
        },
        ParseType::String => {
            lemma_string_token_content(s, start);
        },
        ParseType::Number => {
            lemma_number_syntax(s, start);
        },
        ParseType::Boolean => {
            reveal_strlit("true");
            reveal_strlit("false");
        },
        ParseType::Null => {
            reveal_strlit("null");
        },
        ParseType::Unknown => {},
    }
}

/// An array that is read is the text of its syntax, which is well formed and
/// nests no deeper than allowed, and its value is that of the syntax.
pub proof fn lemma_array_syntax(s: Seq<char>, pos: int, depth: nat)
    requires
        0 <= pos <= s.len(),
        array(s, pos, depth).result is Ok,
    ensures
        well_formed(array_syntax(s, pos, depth)),
        nests_within(array_syntax(s, pos, depth), depth + 1),
        render(array_syntax(s, pos, depth)) == s.subrange(pos, array(s, pos, depth).cursor),
        array(s, pos, depth).result == Ok::<Json, Failure>(value_of(array_syntax(s, pos, depth))),
    decreases depth, 3nat, s.len() - pos,
{
    lemma_skip_whitespace(s, pos + 1);
    let first = skip_whitespace(s, pos + 1);
    if char_at(s, first) == Some(']') {
        lemma_skipped_is_blank(s, pos + 1);
        lemma_subrange_push(s, pos, first);
        lemma_subrange_join(s, pos, pos + 1, first);
        assert(s.subrange(pos, pos + 1) =~= seq!['[']);
        assert(element_values(Seq::<Spaced>::empty()) =~= Seq::<Json>::empty());
    } else {
        lemma_elements_syntax(s, pos + 1, first, depth, Seq::empty());
        let items = elements_syntax(s, pos + 1, first, depth);
        lemma_subrange_join(s, pos, pos + 1, array(s, pos, depth).cursor);
        assert(s.subrange(pos, pos + 1) =~= seq!['[']);
        assert(Seq::<Json>::empty() + element_values(items) =~= element_values(items));
    }
}

/// The elements that are read are the text of their syntax, which is well
/// formed and nests no deeper than allowed, and their values are those of the
/// syntax.
pub proof fn lemma_elements_syntax(s: Seq<char>, from: int, pos: int, depth: nat, read: Seq<Json>)
    requires
        0 <= from <= pos <= s.len(),
        skip_whitespace(s, from) == pos,
        elements(s, pos, depth, read).result is Ok,
    ensures
        ({
            let items = elements_syntax(s, from, pos, depth);
            let end = elements(s, pos, depth, read).cursor;
            &&& items.len() > 0
            &&& forall|i: int| 0 <= i < items.len() ==> well_formed_spaced(#[trigger] items[i])
            &&& elements_nest_within(items, 0, depth)
            &&& pos < end <= s.len()
            &&& render_elements(items, 0) == s.subrange(from, end)
            &&& elements(s, pos, depth, read).result == Ok::<Json, Failure>(
                Json::Array(read + element_values(items)),
            )
        }),
    decreases depth, 2nat, s.len() - pos,
{
    let element = value(s, pos, depth);
    let v = element.result->Ok_0;
    let after = skip_whitespace(s, element.cursor);
    let next = skip_whitespace(s, after + 1);
    let items = elements_syntax(s, from, pos, depth);
    let first = items[0];
    lemma_skip_whitespace(s, from);
    lemma_value_syntax(s, pos, depth);
    lemma_skip_whitespace(s, element.cursor);
    assert(well_formed_spaced(first) && render_spaced(first) == s.subrange(from, after)) by {
        lemma_skipped_is_blank(s, from);
        lemma_skipped_is_blank(s, element.cursor);
        lemma_subrange_join(s, from, pos, element.cursor);
        lemma_subrange_join(s, from, element.cursor, after);
    }
    lemma_subrange_push(s, from, after);
    if char_at(s, after) == Some(']') {
        assert(element_values(items) =~= seq![v]);
        assert(read + seq![v] =~= read.push(v));
    } else {
        lemma_skip_whitespace(s, after + 1);
        lemma_elements_syntax(s, after + 1, next, depth, read.push(v));
        let rest = elements_syntax(s, after + 1, next, depth);
        assert forall|i: int| 0 <= i < items.len() implies well_formed_spaced(
            #[trigger] items[i],
        ) && nests_within(items[i].node, depth) by {
            if i > 0 {
                assert(items[i] == rest[i - 1]);
            }
        }
        lemma_render_elements_rest(first, rest, 0);
        lemma_subrange_join(s, from, after + 1, elements(s, pos, depth, read).cursor);
        lemma_element_values_rest(first, rest);
        assert(read + (seq![v] + element_values(rest)) =~= read.push(v) + element_values(rest));
    }
}

/// An object that is read is the text of its syntax, which is well formed and
/// nests no deeper than allowed, and its value is that of the syntax.
pub proof fn lemma_object_syntax(s: Seq<char>, pos: int, depth: nat)
    requires
        0 <= pos <= s.len(),
        object(s, pos, depth).result is Ok,
    ensures
        well_formed(object_syntax(s, pos, depth)),
        nests_within(object_syntax(s, pos, depth), depth + 1),
        render(object_syntax(s, pos, depth)) == s.subrange(pos, object(s, pos, depth).cursor),
        object(s, pos, depth).result == Ok::<Json, Failure>(
            value_of(object_syntax(s, pos, depth)),
        ),
    decreases depth, 3nat, s.len() - pos,
{
    lemma_skip_whitespace(s, pos + 1);
    let first = skip_whitespace(s, pos + 1);
    if char_at(s, first) == Some('}') {
        lemma_skipped_is_blank(s, pos + 1);
        lemma_subrange_push(s, pos, first);
        lemma_subrange_join(s, pos, pos + 1, first);
        assert(s.subrange(pos, pos + 1) =~= seq!['{']);
        assert(member_pairs(Seq::<Member>::empty()) =~= Seq::<(Seq<char>, Json)>::empty());
    } else {
        lemma_members_syntax(s, pos + 1, first, depth, Map::empty());
        lemma_subrange_join(s, pos, pos + 1, object(s, pos, depth).cursor);
        assert(s.subrange(pos, pos + 1) =~= seq!['{']);
    }
}

/// A member that is read is the text of its syntax, which is well formed, and
/// its key and value are those of the syntax.
pub proof fn lemma_member_syntax(s: Seq<char>, from: int, pos: int, depth: nat)
    requires
        0 <= from <= pos <= s.len(),
        skip_whitespace(s, from) == pos,
        string_literal(s, pos).result is Ok,
        char_at(s, skip_whitespace(s, string_literal(s, pos).cursor)) == Some(':'),
        value(s, skip_whitespace(s, string_literal(s, pos).cursor) + 1, depth).result is Ok,
    ensures
        ({
            let m = member_syntax(s, from, pos, depth);
            let colon = skip_whitespace(s, string_literal(s, pos).cursor);
            let member = value(s, colon + 1, depth);
            let after = skip_whitespace(s, member.cursor);
            &&& well_formed_member(m)
            &&& nests_within(m.value.node, depth)
            &&& pos < colon < member.cursor <= after <= s.len()
            &&& render_member(m) == s.subrange(from, after)
            &&& string_literal(s, pos).result == Ok::<Seq<char>, Failure>(
                string_content(m.key)->0,
            )
            &&& member.result == Ok::<Json, Failure>(value_of(m.value.node))
        }),
    decreases depth, 1nat, s.len() - pos,
{
    let key = string_literal(s, pos);
    let colon = skip_whitespace(s, key.cursor);
    let member = value(s, colon + 1, depth);
    let after = skip_whitespace(s, member.cursor);
    let node_at = skip_whitespace(s, colon + 1);
    let m = member_syntax(s, from, pos, depth);
    lemma_string_literal_cursor(s, pos);
    lemma_string_token_content(s, pos);
    lemma_skip_whitespace(s, key.cursor);
    lemma_value_syntax(s, colon + 1, depth);
    lemma_skip_whitespace(s, colon + 1);
    lemma_skip_whitespace(s, member.cursor);
    assert(well_formed_member(m)) by {
        lemma_skipped_is_blank(s, from);
        lemma_skipped_is_blank(s, key.cursor);
        lemma_skipped_is_blank(s, colon + 1);
        lemma_skipped_is_blank(s, member.cursor);
    }
    assert(render_spaced(m.value) == s.subrange(colon + 1, after)) by {
        lemma_subrange_join(s, colon + 1, node_at, member.cursor);
        lemma_subrange_join(s, colon + 1, member.cursor, after);
    }
    assert(render_member(m) == s.subrange(from, after)) by {
        lemma_subrange_join(s, from, pos, key.cursor);
        lemma_subrange_join(s, from, key.cursor, colon);
        lemma_subrange_push(s, from, colon);
        lemma_subrange_join(s, from, colon + 1, after);
    }
}

/// The members that are read are the text of their syntax, which is well
/// formed and nests no deeper than allowed, and they are bound as the syntax
/// says.
pub proof fn lemma_members_syntax(
    s: Seq<char>,
    from: int,
    pos: int,
    depth: nat,
    read: Map<Seq<char>, Json>,
)
    requires
        0 <= from <= pos <= s.len(),
        skip_whitespace(s, from) == pos,
        members(s, pos, depth, read).result is Ok,
    ensures
        ({
            let entries = members_syntax(s, from, pos, depth);
            let end = members(s, pos, depth, read).cursor;
            &&& entries.len() > 0
            &&& forall|i: int| 0 <= i < entries.len() ==> well_formed_member(#[trigger] entries[i])
            &&& members_nest_within(entries, 0, depth)
            &&& pos < end <= s.len()
            &&& render_members(entries, 0) == s.subrange(from, end)
            &&& members(s, pos, depth, read).result == Ok::<Json, Failure>(
                Json::Object(bind(read, member_pairs(entries), 0)),
            )
        }),
    decreases depth, 2nat, s.len() - pos,
{
    let colon = skip_whitespace(s, string_literal(s, pos).cursor);
    let after = skip_whitespace(s, value(s, colon + 1, depth).cursor);
    let next = skip_whitespace(s, after + 1);
    let first = member_syntax(s, from, pos, depth);
    let k = string_content(first.key)->0;
    let v = value_of(first.value.node);
    let entries = members_syntax(s, from, pos, depth);
    lemma_member_syntax(s, from, pos, depth);
    lemma_subrange_push(s, from, after);
    assert(member_pairs(entries)[0] == (k, v));
    assert(bind(read, member_pairs(entries), 0) == bind(
        read.insert(k, v),
        member_pairs(entries),
        1,
    ));
    if char_at(s, after) != Some('}') {
        lemma_skip_whitespace(s, after + 1);
        lemma_members_syntax(s, after + 1, next, depth, read.insert(k, v));
        let rest = members_syntax(s, after + 1, next, depth);
        assert(entries == seq![first] + rest);
        assert forall|i: int| 0 <= i < entries.len() implies well_formed_member(
            #[trigger] entries[i],
        ) && nests_within(entries[i].value.node, depth) by {
            if i > 0 {
                assert(entries[i] == rest[i - 1]);
            }
        }
        lemma_render_members_rest(first, rest, 0);
        lemma_subrange_join(s, from, after + 1, members(s, pos, depth, read).cursor);
        lemma_member_pairs_rest(first, rest);
        lemma_bind_rest(read.insert(k, v), (k, v), member_pairs(rest), 0);
    }
}

/// Every document that is read is the text of a well-formed syntax tree that
/// nests no deeper than allowed, and what is read is the value of that tree's
/// tokens.
pub proof fn lemma_read_document_has_syntax(s: Seq<char>, max_depth: nat)
    requires
        document(s, 0, max_depth).result is Ok,
    ensures
        well_formed_spaced(document_syntax(s, max_depth)),
        nests_within(document_syntax(s, max_depth).node, max_depth),
        render_spaced(document_syntax(s, max_depth)) == s,
        document(s, 0, max_depth).result == Ok::<Json, Failure>(
            value_of(document_syntax(s, max_depth).node),
        ),
{
    let start = skip_whitespace(s, 0);
    let end = value(s, 0, max_depth).cursor;
    lemma_value_syntax(s, 0, max_depth);
    lemma_skip_whitespace(s, 0);
    lemma_skipped_is_blank(s, 0);
    lemma_skip_whitespace(s, end);
    lemma_skipped_is_blank(s, end);
    lemma_subrange_join(s, 0, start, end);
    lemma_subrange_join(s, 0, end, s.len() as int);
    assert(s.subrange(0, s.len() as int) =~= s);
}

/// A value that nests within a depth nests within every greater depth.
pub proof fn lemma_nests_within_more(t: Syntax, depth: nat, more: nat)
    requires
        nests_within(t, depth),
        depth <= more,
    ensures
        nests_within(t, more),
    decreases t,
{
    match t {
        Syntax::Array { gap, items } => {
            assert forall|i: int| 0 <= i < items.len() implies nests_within(
                (#[trigger] items[i]).node,
                (more - 1) as nat,
            ) by {
                lemma_nests_within_more(items[i].node, (depth - 1) as nat, (more - 1) as nat);
            }
        },
        Syntax::Object { gap, members: entries } => {
            assert forall|i: int| 0 <= i < entries.len() implies nests_within(
                (#[trigger] entries[i]).value.node,
                (more - 1) as nat,
            ) by {
                lemma_nests_within_more(
                    entries[i].value.node,
                    (depth - 1) as nat,
                    (more - 1) as nat,
                );
            }
        },
        _ => {},
    }
}

/// A document that is read under one depth limit is read alike under every
/// greater limit.
pub proof fn lemma_greater_limit_reads_alike(s: Seq<char>, max_depth: nat, more: nat)
    requires
        document(s, 0, max_depth).result is Ok,
        max_depth <= more,
    ensures
        document(s, 0, more) == document(s, 0, max_depth),
{
    let written = document_syntax(s, max_depth);
    lemma_read_document_has_syntax(s, max_depth);
    lemma_nests_within_more(written.node, max_depth, more);
    lemma_rendered_document_is_read(written, max_depth);
    lemma_rendered_document_is_read(written, more);
}

} // verus!
