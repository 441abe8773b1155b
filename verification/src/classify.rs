//! Provenance classification of containers from their attributes.
//!
//! The upstream transpiler tags every module it expands from a header with a
//! conditional-compilation-style attribute naming the header's path.  Two
//! predicates scan the (arbitrarily nested) attribute token trees:
//! [`has_source_header`] looks for a token that, read as an identifier,
//! names the `source_header` marker; [`is_std`] looks for a token that, read
//! as a string literal, contains one of the recognized standard-library path
//! substrings (the canonical system-include directory, the builtin-defs
//! marker, or the vararg-placeholder marker).

use vstd::prelude::*;
use crate::ast::{
    Attribute, AttributeV, Token, TokenTree, TokenTreeV, TokenV, attr_view, attrs_view,
    lemma_trees_view, token_view, tree_view, trees_view,
};
use crate::strutil::{contains_seq, contains_str, str_eq};

verus! {

// ------------------------------------------------------------------
// Specification
// ------------------------------------------------------------------

/// The marker identifier left by the transpiler on every generated module.
pub open spec fn source_header_marker() -> Seq<char> {
    "source_header"@
}

/// A string literal signals standard-library provenance when it mentions
/// the system include directory, the builtin-defs header, or the vararg
/// placeholder.
pub open spec fn lit_is_std(s: Seq<char>) -> bool {
    contains_seq(s, "/usr/include"@) || contains_seq(s, "stddef"@) || contains_seq(s, "vararg"@)
}

pub open spec fn tree_has_source_header(t: TokenTreeV) -> bool
    decreases t,
{
    match t {
        TokenTreeV::Leaf(tok) => match tok {
            TokenV::Ident(s) => s == source_header_marker(),
            _ => false,
        },
        TokenTreeV::Delimited(sub) => trees_have_source_header(sub),
    }
}

pub open spec fn trees_have_source_header(s: Seq<TokenTreeV>) -> bool
    decreases s,
{
    if s.len() == 0 {
        false
    } else {
        tree_has_source_header(s[0]) || trees_have_source_header(s.drop_first())
    }
}

/// The container carries the generated-from-a-header marker.
pub open spec fn has_source_header_spec(attrs: Seq<AttributeV>) -> bool {
    exists|i: int| 0 <= i < attrs.len() && trees_have_source_header(#[trigger] attrs[i].tokens)
}

pub open spec fn tree_has_std_lit(t: TokenTreeV) -> bool
    decreases t,
{
    match t {
        TokenTreeV::Leaf(tok) => match tok {
            TokenV::LitStr(s) => lit_is_std(s),
            _ => false,
        },
        TokenTreeV::Delimited(sub) => trees_have_std_lit(sub),
    }
}

pub open spec fn trees_have_std_lit(s: Seq<TokenTreeV>) -> bool
    decreases s,
{
    if s.len() == 0 {
        false
    } else {
        tree_has_std_lit(s[0]) || trees_have_std_lit(s.drop_first())
    }
}

/// The container's provenance path names a standard-library header.
pub open spec fn is_std_spec(attrs: Seq<AttributeV>) -> bool {
    exists|i: int| 0 <= i < attrs.len() && trees_have_std_lit(#[trigger] attrs[i].tokens)
}

// ------------------------------------------------------------------
// Executable scans
// ------------------------------------------------------------------

fn tree_source_header(t: &TokenTree) -> (r: bool)
    ensures
        r == tree_has_source_header(tree_view(*t)),
    decreases *t,
{
    match t {
        TokenTree::Leaf(Token::Ident(s)) => str_eq(s.as_str(), "source_header"),
        TokenTree::Leaf(_) => false,
        TokenTree::Delimited(sub) => trees_source_header(sub),
    }
}

fn trees_source_header(trees: &Vec<TokenTree>) -> (r: bool)
    ensures
        r == trees_have_source_header(trees_view(trees@)),
    decreases trees@,
{
    proof {
        lemma_trees_view(trees@);
    }
    let ghost s = trees_view(trees@);
    proof {
        assert(s.subrange(0, s.len() as int) =~= s);
    }
    let mut i: usize = 0;
    while i < trees.len()
        invariant
            i <= trees@.len(),
            s == trees_view(trees@),
            s.len() == trees@.len(),
            forall|j: int| 0 <= j < trees@.len() ==> s[j] == tree_view(trees@[j]),
            trees_have_source_header(s) == trees_have_source_header(
                s.subrange(i as int, s.len() as int),
            ),
        decreases trees@.len() - i,
    {
        let ghost suff = s.subrange(i as int, s.len() as int);
        proof {
            assert(suff[0] == s[i as int]);
            assert(suff.drop_first() =~= s.subrange(i as int + 1, s.len() as int));
        }
        if tree_source_header(&trees[i]) {
            proof {
                assert(trees_have_source_header(suff));
            }
            return true;
        }
        i += 1;
    }
    proof {
        assert(s.subrange(s.len() as int, s.len() as int).len() == 0);
    }
    false
}

/// True iff some nested token in some attribute, read as an identifier,
/// names the `source_header` marker.
pub fn has_source_header(attrs: &Vec<Attribute>) -> (r: bool)
    ensures
        r == has_source_header_spec(attrs_view(attrs@)),
{
    let mut i: usize = 0;
    while i < attrs.len()
        invariant
            i <= attrs@.len(),
            forall|j: int| 0 <= j < i ==> !trees_have_source_header(
                #[trigger] attrs_view(attrs@)[j].tokens,
            ),
        decreases attrs@.len() - i,
    {
        if trees_source_header(&attrs[i].tokens) {
            proof {
                assert(trees_have_source_header(attrs_view(attrs@)[i as int].tokens));
            }
            return true;
        }
        i += 1;
    }
    false
}

fn tree_std(t: &TokenTree) -> (r: bool)
    ensures
        r == tree_has_std_lit(tree_view(*t)),
    decreases *t,
{
    match t {
        TokenTree::Leaf(Token::LitStr(s)) => {
            if contains_str(s.as_str(), "/usr/include") {
                true
            } else if contains_str(s.as_str(), "stddef") {
                true
            } else {
                contains_str(s.as_str(), "vararg")
            }
        },
        TokenTree::Leaf(_) => false,
        TokenTree::Delimited(sub) => trees_std(sub),
    }
}

fn trees_std(trees: &Vec<TokenTree>) -> (r: bool)
    ensures
        r == trees_have_std_lit(trees_view(trees@)),
    decreases trees@,
{
    proof {
        lemma_trees_view(trees@);
    }
    let ghost s = trees_view(trees@);
    proof {
        assert(s.subrange(0, s.len() as int) =~= s);
    }
    let mut i: usize = 0;
    while i < trees.len()
        invariant
            i <= trees@.len(),
            s == trees_view(trees@),
            s.len() == trees@.len(),
            forall|j: int| 0 <= j < trees@.len() ==> s[j] == tree_view(trees@[j]),
            trees_have_std_lit(s) == trees_have_std_lit(s.subrange(i as int, s.len() as int)),
        decreases trees@.len() - i,
    {
        let ghost suff = s.subrange(i as int, s.len() as int);
        proof {
            assert(suff[0] == s[i as int]);
            assert(suff.drop_first() =~= s.subrange(i as int + 1, s.len() as int));
        }
        if tree_std(&trees[i]) {
            proof {
                assert(trees_have_std_lit(suff));
            }
            return true;
        }
        i += 1;
    }
    proof {
        assert(s.subrange(s.len() as int, s.len() as int).len() == 0);
    }
    false
}

/// True iff some nested token in some attribute, read as a string literal,
/// contains a recognized standard-library path substring.
pub fn is_std(attrs: &Vec<Attribute>) -> (r: bool)
    ensures
        r == is_std_spec(attrs_view(attrs@)),
{
    let mut i: usize = 0;
    while i < attrs.len()
        invariant
            i <= attrs@.len(),
            forall|j: int| 0 <= j < i ==> !trees_have_std_lit(
                #[trigger] attrs_view(attrs@)[j].tokens,
            ),
        decreases attrs@.len() - i,
    {
        if trees_std(&attrs[i].tokens) {
            proof {
                assert(trees_have_std_lit(attrs_view(attrs@)[i as int].tokens));
            }
            return true;
        }
        i += 1;
    }
    false
}

} // verus!
