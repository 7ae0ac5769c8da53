//! Whitespace between tokens does not matter: two documents with the same
//! tokens are read alike.

use crate::grammar::document;
use crate::parse_tree::{document_syntax, lemma_read_document_has_syntax};
use crate::roundtrip::lemma_rendered_document_is_read;
use crate::syntax::{
    compact, compact_spaced, element_values, member_pairs, nests_within, render_spaced, value_of,
    well_formed, well_formed_member, well_formed_spaced, Spaced, Syntax,
};
use vstd::prelude::*;

verus! {

/// Taking the whitespace away leaves the value of the tokens as it was.
pub proof fn lemma_compact_value(t: Syntax)
    ensures
        value_of(compact(t)) == value_of(t),
    decreases t,
{
    match t {
        Syntax::Array { gap, items } => {
            let packed = compact(t)->Array_items;
            assert forall|i: int| 0 <= i < items.len() implies value_of(
                #[trigger] packed[i].node,
            ) == value_of(items[i].node) by {
                lemma_compact_value(items[i].node);
            }
            assert(element_values(packed) =~= element_values(items));
        },
        Syntax::Object { gap, members } => {
            let packed = compact(t)->Object_members;
            assert forall|i: int| 0 <= i < members.len() implies value_of(
                #[trigger] packed[i].value.node,
            ) == value_of(members[i].value.node) by {
                lemma_compact_value(members[i].value.node);
            }
            assert(member_pairs(packed) =~= member_pairs(members));
        },
        _ => {},
    }
}

/// Taking the whitespace away leaves the nesting as it was.
pub proof fn lemma_compact_nesting(t: Syntax, depth: nat)
    ensures
        nests_within(compact(t), depth) == nests_within(t, depth),
    decreases t,
{
    match t {
        Syntax::Array { gap, items } => {
            let packed = compact(t)->Array_items;
            if depth > 0 {
                assert forall|i: int| 0 <= i < items.len() implies nests_within(
                    #[trigger] packed[i].node,
                    (depth - 1) as nat,
                ) == nests_within(items[i].node, (depth - 1) as nat) by {
                    lemma_compact_nesting(items[i].node, (depth - 1) as nat);
                }
                if nests_within(t, depth) {
                    assert forall|i: int| 0 <= i < packed.len() implies nests_within(
                        (#[trigger] packed[i]).node,
                        (depth - 1) as nat,
                    ) by {
                        assert(nests_within(items[i].node, (depth - 1) as nat));
                    }
                }
                if nests_within(compact(t), depth) {
                    assert forall|i: int| 0 <= i < items.len() implies nests_within(
                        (#[trigger] items[i]).node,
                        (depth - 1) as nat,
                    ) by {
                        assert(nests_within(packed[i].node, (depth - 1) as nat));
                    }
                }
            }
        },
        Syntax::Object { gap, members } => {
            let packed = compact(t)->Object_members;
            if depth > 0 {
                assert forall|i: int| 0 <= i < members.len() implies nests_within(
                    #[trigger] packed[i].value.node,
                    (depth - 1) as nat,
                ) == nests_within(members[i].value.node, (depth - 1) as nat) by {
                    lemma_compact_nesting(members[i].value.node, (depth - 1) as nat);
                }
                if nests_within(t, depth) {
                    assert forall|i: int| 0 <= i < packed.len() implies nests_within(
                        (#[trigger] packed[i]).value.node,
                        (depth - 1) as nat,
                    ) by {
                        assert(nests_within(members[i].value.node, (depth - 1) as nat));
                    }
                }
                if nests_within(compact(t), depth) {
                    assert forall|i: int| 0 <= i < members.len() implies nests_within(
                        (#[trigger] members[i]).value.node,
                        (depth - 1) as nat,
                    ) by {
                        assert(nests_within(packed[i].value.node, (depth - 1) as nat));
                    }
                }
            }
        },
        _ => {},
    }
}

/// Taking the whitespace away from a well-formed value leaves it well formed.
pub proof fn lemma_compact_well_formed(t: Syntax)
    requires
        well_formed(t),
    ensures
        well_formed(compact(t)),
    decreases t,
{
    match t {
        Syntax::Array { gap, items } => {
            let packed = compact(t)->Array_items;
            assert forall|i: int| 0 <= i < packed.len() implies well_formed_spaced(
                #[trigger] packed[i],
            ) by {
                assert(well_formed_spaced(items[i]));
                lemma_compact_well_formed(items[i].node);
            }
        },
        Syntax::Object { gap, members } => {
            let packed = compact(t)->Object_members;
            assert forall|i: int| 0 <= i < packed.len() implies well_formed_member(
                #[trigger] packed[i],
            ) by {
                assert(well_formed_member(members[i]));
                lemma_compact_well_formed(members[i].value.node);
            }
        },
        _ => {},
    }
}

/// Two well-formed documents that hold the same tokens, and differ only in the
/// whitespace between them, are read alike: both give the same value, or both
/// are refused for nesting too deep.
pub proof fn lemma_whitespace_is_insignificant(a: Spaced, b: Spaced, max_depth: nat)
    requires
        well_formed_spaced(a),
        well_formed_spaced(b),
        compact(a.node) == compact(b.node),
    ensures
        document(render_spaced(a), 0, max_depth).result == document(
            render_spaced(b),
            0,
            max_depth,
        ).result,
{
    lemma_compact_value(a.node);
    lemma_compact_value(b.node);
    lemma_compact_nesting(a.node, max_depth);
    lemma_compact_nesting(b.node, max_depth);
    lemma_rendered_document_is_read(a, max_depth);
    lemma_rendered_document_is_read(b, max_depth);
}

/// A well-formed document is read like the same document with all whitespace
/// between its tokens taken away.
pub proof fn lemma_compact_document_is_read_alike(written: Spaced, max_depth: nat)
    requires
        well_formed_spaced(written),
    ensures
        well_formed_spaced(compact_spaced(written)),
        document(render_spaced(written), 0, max_depth).result == document(
            render_spaced(compact_spaced(written)),
            0,
            max_depth,
        ).result,
{
    lemma_compact_well_formed(written.node);
    lemma_compact_value(written.node);
    lemma_compact_nesting(written.node, max_depth);
    lemma_rendered_document_is_read(written, max_depth);
    lemma_rendered_document_is_read(compact_spaced(written), max_depth);
}

/// For every document that is read, a document that holds the same tokens
/// with other whitespace between them is read as the same value.
pub proof fn lemma_respaced_document_is_read_alike(
    s: Seq<char>,
    respaced: Spaced,
    max_depth: nat,
)
    requires
        document(s, 0, max_depth).result is Ok,
        well_formed_spaced(respaced),
        compact(respaced.node) == compact(document_syntax(s, max_depth).node),
    ensures
        document(render_spaced(respaced), 0, max_depth).result == document(
            s,
            0,
            max_depth,
        ).result,
{
    lemma_read_document_has_syntax(s, max_depth);
    lemma_whitespace_is_insignificant(document_syntax(s, max_depth), respaced, max_depth);
}

} // verus!
