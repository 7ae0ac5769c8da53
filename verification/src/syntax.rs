//! Documents as they are written: a tree of tokens, with the whitespace that
//! stands between them.
//!
//! A [`Syntax`] tree says which tokens a document holds and, apart from them,
//! which whitespace separates them. [`render`] writes the text out,
//! [`value_of`] says which value the tokens stand for, and [`compact`] takes
//! all whitespace away.

use crate::grammar::saturate;
use crate::tokens::{
    all_digits, blank, integer_text, integer_value, string_content, string_text,
};
use crate::value::Json;
use vstd::prelude::*;

verus! {

/// One value as written.
pub enum Syntax {
    /// `null`
    Null,
    /// `true` or `false`
    Bool(bool),
    /// A minus sign if `negative`, and decimal digits.
    Number { negative: bool, digits: Seq<char> },
    /// `raw` between two quotes, escape sequences as written.
    String { raw: Seq<char> },
    /// `[`, the elements with `,` between them, and `]`. With no elements, the
    /// whitespace `gap` stands between the brackets.
    Array { gap: Seq<char>, items: Seq<Spaced> },
    /// `{`, the members with `,` between them, and `}`. With no members, the
    /// whitespace `gap` stands between the braces.
    Object { gap: Seq<char>, members: Seq<Member> },
}

/// A value with the whitespace before and after it. A whole document is one.
pub struct Spaced {
    pub before: Seq<char>,
    pub node: Syntax,
    pub after: Seq<char>,
}

/// A member of an object: whitespace, the key between quotes, whitespace, `:`
/// and the value.
pub struct Member {
    pub before: Seq<char>,
    pub key: Seq<char>,
    pub between: Seq<char>,
    pub value: Spaced,
}

/// The text of a value.
pub open spec fn render(t: Syntax) -> Seq<char>
    decreases t, 0nat,
{
    match t {
        Syntax::Null => "null"@,
        Syntax::Bool(b) => if b {
            "true"@
        } else {
            "false"@
        },
        Syntax::Number { negative, digits } => integer_text(negative, digits),
        Syntax::String { raw } => string_text(raw),
        Syntax::Array { gap, items } => if items.len() == 0 {
            seq!['['] + gap + seq![']']
        } else {
            seq!['['] + render_elements(items, 0)
        },
        Syntax::Object { gap, members } => if members.len() == 0 {
            seq!['{'] + gap + seq!['}']
        } else {
            seq!['{'] + render_members(members, 0)
        },
    }
}

/// The text of a value with the whitespace around it. A whole document is
/// written this way.
pub open spec fn render_spaced(x: Spaced) -> Seq<char>
    decreases x, 0nat,
{
    x.before + render(x.node) + x.after
}

/// The text of a member.
pub open spec fn render_member(m: Member) -> Seq<char>
    decreases m, 0nat,
{
    m.before + string_text(m.key) + m.between + seq![':'] + render_spaced(m.value)
}

/// The text of the elements from the one at `from` on, with the commas between
/// them and the closing bracket.
pub open spec fn render_elements(items: Seq<Spaced>, from: int) -> Seq<char>
    decreases items, items.len() - from,
{
    if 0 <= from < items.len() {
        render_spaced(items[from]) + (if from + 1 < items.len() {
            seq![','] + render_elements(items, from + 1)
        } else {
            seq![']']
        })
    } else {
        Seq::empty()
    }
}

/// The text of the members from the one at `from` on, with the commas between
/// them and the closing brace.
pub open spec fn render_members(members: Seq<Member>, from: int) -> Seq<char>
    decreases members, members.len() - from,
{
    if 0 <= from < members.len() {
        render_member(members[from]) + (if from + 1 < members.len() {
            seq![','] + render_members(members, from + 1)
        } else {
            seq!['}']
        })
    } else {
        Seq::empty()
    }
}

/// Whether every token of `t` is one: numbers have digits, string literals
/// decode, and what separates tokens is whitespace.
pub open spec fn well_formed(t: Syntax) -> bool
    decreases t,
{
    match t {
        Syntax::Null => true,
        Syntax::Bool(_) => true,
        Syntax::Number { negative, digits } => all_digits(digits),
        Syntax::String { raw } => string_content(raw) is Some,
        Syntax::Array { gap, items } => {
            &&& blank(gap)
            &&& forall|i: int| 0 <= i < items.len() ==> well_formed_spaced(#[trigger] items[i])
        },
        Syntax::Object { gap, members } => {
            &&& blank(gap)
            &&& forall|i: int| 0 <= i < members.len() ==> well_formed_member(#[trigger] members[i])
        },
    }
}

/// Whether a value and the whitespace around it are well formed. A whole
/// document is judged this way.
pub open spec fn well_formed_spaced(x: Spaced) -> bool
    decreases x,
{
    &&& blank(x.before)
    &&& blank(x.after)
    &&& well_formed(x.node)
}

/// Whether a member is well formed.
pub open spec fn well_formed_member(m: Member) -> bool
    decreases m,
{
    &&& blank(m.before)
    &&& string_content(m.key) is Some
    &&& blank(m.between)
    &&& well_formed_spaced(m.value)
}

/// A map that binds, in their order, the keys from the one at `from` on to their
/// values, on top of `bound`: a key that comes again replaces the value it had.
pub open spec fn bind(
    bound: Map<Seq<char>, Json>,
    pairs: Seq<(Seq<char>, Json)>,
    from: int,
) -> Map<Seq<char>, Json>
    decreases pairs.len() - from,
{
    if 0 <= from < pairs.len() {
        bind(bound.insert(pairs[from].0, pairs[from].1), pairs, from + 1)
    } else {
        bound
    }
}

/// The value that the tokens of `t` stand for.
pub open spec fn value_of(t: Syntax) -> Json
    decreases t,
{
    match t {
        Syntax::Null => Json::Null,
        Syntax::Bool(b) => Json::Bool(b),
        Syntax::Number { negative, digits } => Json::Number(
            saturate(integer_value(negative, digits)),
        ),
        Syntax::String { raw } => Json::String(string_content(raw)->0),
        Syntax::Array { gap, items } => Json::Array(element_values(items)),
        Syntax::Object { gap, members } => Json::Object(
            bind(Map::empty(), member_pairs(members), 0),
        ),
    }
}

/// The values of the elements, in their order.
pub open spec fn element_values(items: Seq<Spaced>) -> Seq<Json>
    decreases items,
{
    Seq::new(
        items.len(),
        |i: int|
            if 0 <= i < items.len() {
                value_of(items[i].node)
            } else {
                Json::Null
            },
    )
}

/// The decoded key and the value of each member, in their order.
pub open spec fn member_pairs(members: Seq<Member>) -> Seq<(Seq<char>, Json)>
    decreases members,
{
    Seq::new(
        members.len(),
        |i: int|
            if 0 <= i < members.len() {
                (string_content(members[i].key)->0, value_of(members[i].value.node))
            } else {
                (Seq::empty(), Json::Null)
            },
    )
}

/// Whether arrays and objects nest at most `depth` deep in `t`: a value that
/// is neither nests 0 deep, an array or object one deeper than its deepest
/// element or member.
pub open spec fn nests_within(t: Syntax, depth: nat) -> bool
    decreases t,
{
    match t {
        Syntax::Array { gap, items } => depth > 0 && forall|i: int|
            0 <= i < items.len() ==> nests_within((#[trigger] items[i]).node, (depth - 1) as nat),
        Syntax::Object { gap, members } => depth > 0 && forall|i: int|
            0 <= i < members.len() ==> nests_within(
                (#[trigger] members[i]).value.node,
                (depth - 1) as nat,
            ),
        _ => true,
    }
}

/// `t` with all whitespace between its tokens taken away.
pub open spec fn compact(t: Syntax) -> Syntax
    decreases t,
{
    match t {
        Syntax::Array { gap, items } => Syntax::Array {
            gap: Seq::empty(),
            items: Seq::new(
                items.len(),
                |i: int|
                    Spaced {
                        before: Seq::empty(),
                        node: if 0 <= i < items.len() {
                            compact(items[i].node)
                        } else {
                            Syntax::Null
                        },
                        after: Seq::empty(),
                    },
            ),
        },
        Syntax::Object { gap, members } => Syntax::Object {
            gap: Seq::empty(),
            members: Seq::new(
                members.len(),
                |i: int|
                    Member {
                        before: Seq::empty(),
                        key: members[i].key,
                        between: Seq::empty(),
                        value: Spaced {
                            before: Seq::empty(),
                            node: if 0 <= i < members.len() {
                                compact(members[i].value.node)
                            } else {
                                Syntax::Null
                            },
                            after: Seq::empty(),
                        },
                    },
            ),
        },
        _ => t,
    }
}

/// A value with all whitespace in it and around it taken away.
pub open spec fn compact_spaced(x: Spaced) -> Spaced {
    Spaced { before: Seq::empty(), node: compact(x.node), after: Seq::empty() }
}

} // verus!
