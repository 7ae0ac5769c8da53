//! Reading a document that was written from a syntax tree: the value of its
//! tokens comes back whatever whitespace stands between them, unless the tree
//! nests deeper than the limit.

use crate::cursor::lemma_skip_whitespace;
use crate::error::Failure;
use crate::grammar::{
    array, boolean, char_at, digit, document, done, elements, members, null, object, occurs_at,
    rule_for, skip_whitespace, string_literal, value, whitespace, ParseType,
};
use crate::syntax::{
    bind, element_values, member_pairs, nests_within, render, render_elements, render_member,
    render_members, render_spaced, value_of, well_formed, well_formed_member, well_formed_spaced,
    Member, Spaced, Syntax,
};
use crate::tokens::{
    lemma_blank_skipped, lemma_boolean_token, lemma_number_token, lemma_occurs_chars,
    lemma_occurs_concat, lemma_string_token, string_content, string_text,
};
use crate::value::Json;
use vstd::prelude::*;

verus! {

/// The rule that reads a value written as `t`.
pub open spec fn rule_of(t: Syntax) -> ParseType {
    match t {
        Syntax::Null => ParseType::Null,
        Syntax::Bool(_) => ParseType::Boolean,
        Syntax::Number { .. } => ParseType::Number,
        Syntax::String { .. } => ParseType::String,
        Syntax::Array { .. } => ParseType::Array,
        Syntax::Object { .. } => ParseType::Object,
    }
}

/// Whether the elements from the one at `from` on nest at most `depth` deep.
pub open spec fn elements_nest_within(items: Seq<Spaced>, from: int, depth: nat) -> bool {
    forall|i: int| from <= i < items.len() ==> nests_within((#[trigger] items[i]).node, depth)
}

/// Whether the values of the members from the one at `from` on nest at most
/// `depth` deep.
pub open spec fn members_nest_within(members: Seq<Member>, from: int, depth: nat) -> bool {
    forall|i: int|
        from <= i < members.len() ==> nests_within((#[trigger] members[i]).value.node, depth)
}

/// The text of a value starts with the character that selects its rule, which
/// is no whitespace.
pub proof fn lemma_first_char(t: Syntax)
    requires
        well_formed(t),
    ensures
        render(t).len() > 0,
        rule_for(Some(render(t)[0])) == rule_of(t),
        !whitespace(render(t)[0]),
{
    reveal_strlit("null");
    reveal_strlit("true");
    reveal_strlit("false");
}

/// Where the parts of a value with whitespace around it stand.
pub proof fn lemma_spaced_parts(s: Seq<char>, pos: int, x: Spaced)
    requires
        0 <= pos,
        occurs_at(s, pos, render_spaced(x)),
    ensures
        occurs_at(s, pos, x.before),
        occurs_at(s, pos + x.before.len(), render(x.node)),
        occurs_at(s, pos + x.before.len() + render(x.node).len(), x.after),
{
    lemma_occurs_concat(s, pos, x.before + render(x.node), x.after);
    lemma_occurs_concat(s, pos, x.before, render(x.node));
}

/// A value that stands at `pos` with whitespace around it, followed by the end
/// of the text or by a character that is neither whitespace nor a digit, is
/// read as the value of its tokens, and the whitespace after it is skipped;
/// unless it nests too deep, which is the failure reported.
pub proof fn lemma_spaced_rendered(x: Spaced, s: Seq<char>, pos: int, depth: nat)
    requires
        0 <= pos,
        well_formed_spaced(x),
        occurs_at(s, pos, render_spaced(x)),
        pos + render_spaced(x).len() < s.len() ==> !whitespace(s[pos + render_spaced(x).len()])
            && !digit(s[pos + render_spaced(x).len()]),
    ensures
        skip_whitespace(s, pos) == pos + x.before.len(),
        rule_for(char_at(s, pos + x.before.len())) == rule_of(x.node),
        nests_within(x.node, depth) ==> value(s, pos + x.before.len(), depth) == done(
            value_of(x.node),
            pos + x.before.len() + render(x.node).len(),
        ) && skip_whitespace(s, pos + x.before.len() + render(x.node).len()) == pos
            + render_spaced(x).len(),
        !nests_within(x.node, depth) ==> value(s, pos + x.before.len(), depth).result == Err::<
            Json,
            Failure,
        >(Failure::DepthExceeded),
    decreases x, 1nat,
{
    let start = pos + x.before.len();
    let node_end = start + render(x.node).len();
    lemma_spaced_parts(s, pos, x);
    lemma_first_char(x.node);
    lemma_occurs_chars(s, start, render(x.node));
    lemma_blank_skipped(s, pos, x.before);
    lemma_occurs_chars(s, node_end, x.after);
    lemma_blank_skipped(s, node_end, x.after);
    lemma_value_rendered(x.node, s, start, depth);
}

/// A value that stands at `pos`, followed by the end of the text or by a
/// character that is no digit, is read as the value of its tokens; unless it
/// nests too deep, which is the failure reported.
pub proof fn lemma_value_rendered(t: Syntax, s: Seq<char>, pos: int, depth: nat)
    requires
        0 <= pos,
        well_formed(t),
        occurs_at(s, pos, render(t)),
        pos + render(t).len() < s.len() ==> !digit(s[pos + render(t).len()]),
    ensures
        nests_within(t, depth) ==> value(s, pos, depth) == done(
            value_of(t),
            pos + render(t).len(),
        ),
        !nests_within(t, depth) ==> value(s, pos, depth).result == Err::<Json, Failure>(
            Failure::DepthExceeded,
        ),
    decreases t, 0nat,
{
    lemma_first_char(t);
    lemma_occurs_chars(s, pos, render(t));
    match t {
        Syntax::Null => {
            reveal_strlit("null");
        },
        Syntax::Bool(b) => {
            reveal_strlit("true");
            reveal_strlit("false");
            lemma_boolean_token(s, pos, b);
        },
        Syntax::Number { negative, digits } => {
            lemma_number_token(s, pos, negative, digits);
        },
        Syntax::String { raw } => {
            lemma_string_token(s, pos, raw);
        },
        Syntax::Array { .. } => {
            if depth > 0 {
                lemma_array_rendered(t, s, pos, (depth - 1) as nat);
            }
        },
        Syntax::Object { .. } => {
            if depth > 0 {
                lemma_object_rendered(t, s, pos, (depth - 1) as nat);
            }
        },
    }
}

/// An array that stands at `pos` is read as the values of its elements; unless
/// one of them nests deeper than `depth`, which is the failure reported.
pub proof fn lemma_array_rendered(t: Syntax, s: Seq<char>, pos: int, depth: nat)
    requires
        0 <= pos,
        t is Array,
        well_formed(t),
        occurs_at(s, pos, render(t)),
    ensures
        elements_nest_within(t->Array_items, 0, depth) ==> array(s, pos, depth) == done(
            value_of(t),
            pos + render(t).len(),
        ),
        !elements_nest_within(t->Array_items, 0, depth) ==> array(s, pos, depth).result == Err::<
            Json,
            Failure,
        >(Failure::DepthExceeded),
    decreases t->Array_items, t->Array_items.len() + 1,
{
    let gap = t->Array_gap;
    let items = t->Array_items;
    lemma_occurs_chars(s, pos, render(t));
    assert(s[pos + 0] == render(t)[0]);
    if items.len() == 0 {
        lemma_occurs_concat(s, pos, seq!['['] + gap, seq![']']);
        lemma_occurs_concat(s, pos, seq!['['], gap);
        lemma_occurs_chars(s, pos + 1 + gap.len(), seq![']']);
        assert(s[pos + 1 + gap.len() + 0] == seq![']'][0]);
        lemma_blank_skipped(s, pos + 1, gap);
        assert(element_values(items) =~= Seq::empty());
    } else {
        lemma_occurs_concat(s, pos, seq!['['], render_elements(items, 0));
        lemma_elements_rendered(items, 0, s, pos + 1, depth, Seq::empty());
        assert(Seq::<Json>::empty() + element_values(items).subrange(0, items.len() as int)
            =~= element_values(items));
    }
}

/// An object that stands at `pos` is read as its members, bound in their
/// order; unless a value nests deeper than `depth`, which is the failure
/// reported.
pub proof fn lemma_object_rendered(t: Syntax, s: Seq<char>, pos: int, depth: nat)
    requires
        0 <= pos,
        t is Object,
        well_formed(t),
        occurs_at(s, pos, render(t)),
    ensures
        members_nest_within(t->Object_members, 0, depth) ==> object(s, pos, depth) == done(
            value_of(t),
            pos + render(t).len(),
        ),
        !members_nest_within(t->Object_members, 0, depth) ==> object(s, pos, depth).result
            == Err::<Json, Failure>(Failure::DepthExceeded),
    decreases t->Object_members, t->Object_members.len() + 1,
{
    let gap = t->Object_gap;
    let entries = t->Object_members;
    lemma_occurs_chars(s, pos, render(t));
    assert(s[pos + 0] == render(t)[0]);
    if entries.len() == 0 {
        lemma_occurs_concat(s, pos, seq!['{'] + gap, seq!['}']);
        lemma_occurs_concat(s, pos, seq!['{'], gap);
        lemma_occurs_chars(s, pos + 1 + gap.len(), seq!['}']);
        assert(s[pos + 1 + gap.len() + 0] == seq!['}'][0]);
        lemma_blank_skipped(s, pos + 1, gap);
    } else {
        lemma_occurs_concat(s, pos, seq!['{'], render_members(entries, 0));
        lemma_members_rendered(entries, 0, s, pos + 1, depth, Map::empty());
    }
}

/// The elements from the one at `from` on, standing at `pos` with their commas
/// and the closing bracket, are read as their values, appended to `read`;
/// unless one of them nests too deep, which is the failure reported.
pub proof fn lemma_elements_rendered(
    items: Seq<Spaced>,
    from: int,
    s: Seq<char>,
    pos: int,
    depth: nat,
    read: Seq<Json>,
)
    requires
        0 <= from < items.len(),
        0 <= pos,
        forall|i: int| 0 <= i < items.len() ==> well_formed_spaced(#[trigger] items[i]),
        occurs_at(s, pos, render_elements(items, from)),
    ensures
        skip_whitespace(s, pos) == pos + items[from].before.len(),
        pos + items[from].before.len() < s.len(),
        s[pos + items[from].before.len()] != ']',
        elements_nest_within(items, from, depth) ==> elements(
            s,
            pos + items[from].before.len(),
            depth,
            read,
        ) == done(
            Json::Array(read + element_values(items).subrange(from, items.len() as int)),
            pos + render_elements(items, from).len(),
        ),
        !elements_nest_within(items, from, depth) ==> elements(
            s,
            pos + items[from].before.len(),
            depth,
            read,
        ).result == Err::<Json, Failure>(Failure::DepthExceeded),
    decreases items, items.len() - from,
{
    let x = items[from];
    let last = from + 1 == items.len();
    let tail = if last {
        seq![']']
    } else {
        seq![','] + render_elements(items, from + 1)
    };
    let tail_at = pos + render_spaced(x).len();
    lemma_occurs_concat(s, pos, render_spaced(x), tail);
    lemma_occurs_chars(s, tail_at, tail);
    assert(s[tail_at + 0] == tail[0]);
    lemma_spaced_rendered(x, s, pos, depth);
    let values = element_values(items);
    let v = value_of(x.node);
    if last {
        assert(read.push(v) =~= read + values.subrange(from, items.len() as int));
    } else if nests_within(x.node, depth) {
        lemma_occurs_concat(s, tail_at, seq![','], render_elements(items, from + 1));
        lemma_elements_rendered(items, from + 1, s, tail_at + 1, depth, read.push(v));
        assert(read.push(v) + values.subrange(from + 1, items.len() as int) =~= read
            + values.subrange(from, items.len() as int));
    }
}

/// How the parts of a member that stands at `pos` are read, given that the end
/// of the text or a character that is neither whitespace nor a digit follows it.
pub proof fn lemma_member_rendered(m: Member, s: Seq<char>, pos: int, depth: nat)
    requires
        0 <= pos,
        well_formed_member(m),
        occurs_at(s, pos, render_member(m)),
        pos + render_member(m).len() < s.len() ==> !whitespace(s[pos + render_member(m).len()])
            && !digit(s[pos + render_member(m).len()]),
    ensures
        ({
            let start = pos + m.before.len();
            let key_end = start + m.key.len() + 2;
            let colon = key_end + m.between.len();
            let node_end = colon + 1 + m.value.before.len() + render(m.value.node).len();
            &&& skip_whitespace(s, pos) == start
            &&& char_at(s, start) == Some('"')
            &&& string_literal(s, start) == done(string_content(m.key)->0, key_end)
            &&& skip_whitespace(s, key_end) == colon
            &&& char_at(s, colon) == Some(':')
            &&& nests_within(m.value.node, depth) ==> value(s, colon + 1, depth) == done(
                value_of(m.value.node),
                node_end,
            ) && skip_whitespace(s, node_end) == pos + render_member(m).len()
            &&& !nests_within(m.value.node, depth) ==> value(s, colon + 1, depth).result == Err::<
                Json,
                Failure,
            >(Failure::DepthExceeded)
        }),
    decreases m, 2nat,
{
    let start = pos + m.before.len();
    let key_end = start + m.key.len() + 2;
    let colon = key_end + m.between.len();
    lemma_occurs_concat(
        s,
        pos,
        m.before + string_text(m.key) + m.between + seq![':'],
        render_spaced(m.value),
    );
    lemma_occurs_concat(s, pos, m.before + string_text(m.key) + m.between, seq![':']);
    lemma_occurs_concat(s, pos, m.before + string_text(m.key), m.between);
    lemma_occurs_concat(s, pos, m.before, string_text(m.key));
    assert(skip_whitespace(s, pos) == start && char_at(s, start) == Some('"')) by {
        lemma_occurs_chars(s, start, string_text(m.key));
        assert(s[start + 0] == string_text(m.key)[0]);
        lemma_blank_skipped(s, pos, m.before);
    }
    lemma_string_token(s, start, m.key);
    assert(skip_whitespace(s, key_end) == colon && char_at(s, colon) == Some(':')) by {
        lemma_occurs_chars(s, colon, seq![':']);
        assert(s[colon + 0] == seq![':'][0]);
        lemma_blank_skipped(s, key_end, m.between);
    }
    lemma_spaced_rendered(m.value, s, colon + 1, depth);
    lemma_value_skips_whitespace(s, colon + 1, depth);
}

/// The members from the one at `from` on, standing at `pos` with their commas
/// and the closing brace, are read as their keys and values, bound in their
/// order on top of `read`; unless a value nests too deep, which is the failure
/// reported.
pub proof fn lemma_members_rendered(
    entries: Seq<Member>,
    from: int,
    s: Seq<char>,
    pos: int,
    depth: nat,
    read: Map<Seq<char>, Json>,
)
    requires
        0 <= from < entries.len(),
        0 <= pos,
        forall|i: int| 0 <= i < entries.len() ==> well_formed_member(#[trigger] entries[i]),
        occurs_at(s, pos, render_members(entries, from)),
    ensures
        skip_whitespace(s, pos) == pos + entries[from].before.len(),
        pos + entries[from].before.len() < s.len(),
        s[pos + entries[from].before.len()] == '"',
        members_nest_within(entries, from, depth) ==> members(
            s,
            pos + entries[from].before.len(),
            depth,
            read,
        ) == done(
            Json::Object(bind(read, member_pairs(entries), from)),
            pos + render_members(entries, from).len(),
        ),
        !members_nest_within(entries, from, depth) ==> members(
            s,
            pos + entries[from].before.len(),
            depth,
            read,
        ).result == Err::<Json, Failure>(Failure::DepthExceeded),
    decreases entries, entries.len() - from,
{
    let m = entries[from];
    let last = from + 1 == entries.len();
    let tail = if last {
        seq!['}']
    } else {
        seq![','] + render_members(entries, from + 1)
    };
    let tail_at = pos + render_member(m).len();
    lemma_occurs_concat(s, pos, render_member(m), tail);
    lemma_occurs_chars(s, tail_at, tail);
    assert(s[tail_at + 0] == tail[0]);
    lemma_member_rendered(m, s, pos, depth);
    if !last && nests_within(m.value.node, depth) {
        lemma_occurs_concat(s, tail_at, seq![','], render_members(entries, from + 1));
        lemma_members_rendered(
            entries,
            from + 1,
            s,
            tail_at + 1,
            depth,
            read.insert(string_content(m.key)->0, value_of(m.value.node)),
        );
    }
}

/// Reading a value starts behind the whitespace before it.
pub proof fn lemma_value_skips_whitespace(s: Seq<char>, pos: int, depth: nat)
    requires
        0 <= pos <= s.len(),
    ensures
        value(s, pos, depth) == value(s, skip_whitespace(s, pos), depth),
{
    lemma_skip_whitespace(s, pos);
}

/// A well-formed document that nests at most `max_depth` deep is read as the
/// value of its tokens, to its end. One that nests deeper is refused with
/// `DepthExceeded`.
pub proof fn lemma_rendered_document_is_read(written: Spaced, max_depth: nat)
    requires
        well_formed_spaced(written),
    ensures
        nests_within(written.node, max_depth) ==> document(
            render_spaced(written),
            0,
            max_depth,
        ) == done(value_of(written.node), render_spaced(written).len() as int),
        !nests_within(written.node, max_depth) ==> document(
            render_spaced(written),
            0,
            max_depth,
        ).result == Err::<Json, Failure>(Failure::DepthExceeded),
{
    let s = render_spaced(written);
    assert(s.subrange(0, s.len() as int) =~= s);
    lemma_spaced_rendered(written, s, 0, max_depth);
    lemma_value_skips_whitespace(s, 0, max_depth);
    if nests_within(written.node, max_depth) {
        lemma_skip_whitespace(s, s.len() as int);
    }
}

/// A well-formed document in which arrays and objects nest deeper than
/// `max_depth` is refused with `DepthExceeded`, and with nothing else.
pub proof fn lemma_deep_document_is_refused(written: Spaced, max_depth: nat)
    requires
        well_formed_spaced(written),
        !nests_within(written.node, max_depth),
    ensures
        document(render_spaced(written), 0, max_depth).result == Err::<Json, Failure>(
            Failure::DepthExceeded,
        ),
{
    lemma_rendered_document_is_read(written, max_depth);
}

} // verus!
