//! Structural equivalence of declarations.
//!
//! Two declarations are structurally equivalent when their content is equal
//! while every stable identity is ignored (source-position metadata would
//! be ignored too; this model does not carry any).  Equivalence is
//! compared on an item's kind alone; nested items inside compared modules
//! are compared by name, attributes and kind, still ignoring identities.

use vstd::prelude::*;
use crate::ast::{
    Attribute, FieldDef, ForeignItem, ForeignItemV, Item, ItemKind, ItemKindV, ItemV, Path, Token,
    TokenTree, attr_view, attrs_view, field_view, fields_view, foreign_view, foreigns_view,
    item_view, items_view, kind_view, lemma_items_view, lemma_trees_view, path_view, paths_view,
    token_view, tree_view, trees_view,
};

verus! {

// ------------------------------------------------------------------
// Specification
// ------------------------------------------------------------------

pub open spec fn kind_equiv(a: ItemKindV, b: ItemKindV) -> bool
    decreases a,
{
    match (a, b) {
        (ItemKindV::Mod(x), ItemKindV::Mod(y)) => {
            x.len() == y.len() && (forall|i: int| 0 <= i < x.len() ==> item_equiv(x[i], y[i]))
        },
        (ItemKindV::ForeignMod(x), ItemKindV::ForeignMod(y)) => {
            x.len() == y.len() && (forall|i: int|
                0 <= i < x.len() ==> #[trigger] foreign_equiv(x[i], y[i]))
        },
        (ItemKindV::Struct(x), ItemKindV::Struct(y)) => x == y,
        (ItemKindV::Fn(x), ItemKindV::Fn(y)) => x == y,
        (ItemKindV::TyAlias(x), ItemKindV::TyAlias(y)) => x == y,
        (ItemKindV::Use(x), ItemKindV::Use(y)) => x == y,
        _ => false,
    }
}

/// Equivalence of two nested items: everything but the identity.
pub open spec fn item_equiv(a: ItemV, b: ItemV) -> bool
    decreases a,
{
    a.ident == b.ident && a.attrs == b.attrs && kind_equiv(a.kind, b.kind)
}

/// Equivalence of two foreign declarations: everything but the identity.
pub open spec fn foreign_equiv(a: ForeignItemV, b: ForeignItemV) -> bool {
    a.ident == b.ident && a.decl == b.decl
}

// ------------------------------------------------------------------
// Structural equivalence is symmetric
// ------------------------------------------------------------------

/// Law: structural equivalence of item kinds is symmetric.
pub proof fn lemma_kind_equiv_symmetric(a: ItemKindV, b: ItemKindV)
    ensures
        kind_equiv(a, b) == kind_equiv(b, a),
    decreases a,
{
    match (a, b) {
        (ItemKindV::Mod(x), ItemKindV::Mod(y)) => {
            if x.len() == y.len() {
                if kind_equiv(a, b) {
                    assert forall|i: int| 0 <= i < y.len() implies item_equiv(y[i], x[i]) by {
                        assert(item_equiv(x[i], y[i]));
                        lemma_item_equiv_symmetric(x[i], y[i]);
                    }
                    assert(kind_equiv(b, a));
                }
                if kind_equiv(b, a) {
                    assert forall|i: int| 0 <= i < x.len() implies item_equiv(x[i], y[i]) by {
                        assert(item_equiv(y[i], x[i]));
                        lemma_item_equiv_symmetric(x[i], y[i]);
                    }
                    assert(kind_equiv(a, b));
                }
            }
        },
        (ItemKindV::ForeignMod(x), ItemKindV::ForeignMod(y)) => {
            if x.len() == y.len() {
                if kind_equiv(a, b) {
                    assert forall|i: int| 0 <= i < y.len() implies #[trigger] foreign_equiv(
                        y[i],
                        x[i],
                    ) by {
                        assert(foreign_equiv(x[i], y[i]));
                    }
                    assert(kind_equiv(b, a));
                }
                if kind_equiv(b, a) {
                    assert forall|i: int| 0 <= i < x.len() implies #[trigger] foreign_equiv(
                        x[i],
                        y[i],
                    ) by {
                        assert(foreign_equiv(y[i], x[i]));
                    }
                    assert(kind_equiv(a, b));
                }
            }
        },
        _ => {},
    }
}

/// Law: structural equivalence of nested items is symmetric.
pub proof fn lemma_item_equiv_symmetric(a: ItemV, b: ItemV)
    ensures
        item_equiv(a, b) == item_equiv(b, a),
    decreases a,
{
    lemma_kind_equiv_symmetric(a.kind, b.kind);
}

// ------------------------------------------------------------------
// Executable comparison
// ------------------------------------------------------------------

fn token_eq(a: &Token, b: &Token) -> (r: bool)
    ensures
        r == (token_view(*a) == token_view(*b)),
{
    match (a, b) {
        (Token::Ident(x), Token::Ident(y)) => *x == *y,
        (Token::LitStr(x), Token::LitStr(y)) => *x == *y,
        (Token::Other, Token::Other) => true,
        _ => false,
    }
}

fn tree_eq(a: &TokenTree, b: &TokenTree) -> (r: bool)
    ensures
        r == (tree_view(*a) == tree_view(*b)),
    decreases *a,
{
    match (a, b) {
        (TokenTree::Leaf(x), TokenTree::Leaf(y)) => token_eq(x, y),
        (TokenTree::Delimited(x), TokenTree::Delimited(y)) => trees_eq(x, y),
        _ => false,
    }
}

fn trees_eq(a: &Vec<TokenTree>, b: &Vec<TokenTree>) -> (r: bool)
    ensures
        r == (trees_view(a@) == trees_view(b@)),
    decreases a@,
{
    proof {
        lemma_trees_view(a@);
        lemma_trees_view(b@);
    }
    if a.len() != b.len() {
        proof {
            assert(trees_view(a@).len() != trees_view(b@).len());
        }
        return false;
    }
    let mut i: usize = 0;
    while i < a.len()
        invariant
            i <= a.len(),
            a@.len() == b@.len(),
            trees_view(a@).len() == a@.len(),
            trees_view(b@).len() == b@.len(),
            forall|j: int| 0 <= j < a@.len() ==> trees_view(a@)[j] == tree_view(a@[j]),
            forall|j: int| 0 <= j < b@.len() ==> trees_view(b@)[j] == tree_view(b@[j]),
            forall|j: int| 0 <= j < i ==> tree_view(a@[j]) == tree_view(b@[j]),
        decreases a@.len() - i,
    {
        if !tree_eq(&a[i], &b[i]) {
            proof {
                assert(trees_view(a@)[i as int] != trees_view(b@)[i as int]);
            }
            return false;
        }
        i += 1;
    }
    proof {
        assert(trees_view(a@) =~= trees_view(b@));
    }
    true
}

fn attr_eq(a: &Attribute, b: &Attribute) -> (r: bool)
    ensures
        r == (attr_view(*a) == attr_view(*b)),
{
    trees_eq(&a.tokens, &b.tokens)
}

fn attrs_eq(a: &Vec<Attribute>, b: &Vec<Attribute>) -> (r: bool)
    ensures
        r == (attrs_view(a@) == attrs_view(b@)),
{
    if a.len() != b.len() {
        proof {
            assert(attrs_view(a@).len() != attrs_view(b@).len());
        }
        return false;
    }
    let mut i: usize = 0;
    while i < a.len()
        invariant
            i <= a.len(),
            a@.len() == b@.len(),
            forall|j: int| 0 <= j < i ==> attr_view(a@[j]) == attr_view(b@[j]),
        decreases a@.len() - i,
    {
        if !attr_eq(&a[i], &b[i]) {
            proof {
                assert(attrs_view(a@)[i as int] != attrs_view(b@)[i as int]);
            }
            return false;
        }
        i += 1;
    }
    proof {
        assert(attrs_view(a@) =~= attrs_view(b@));
    }
    true
}

pub fn path_eq(a: &Path, b: &Path) -> (r: bool)
    ensures
        r == (path_view(*a) == path_view(*b)),
{
    if a.segments.len() != b.segments.len() {
        proof {
            assert(path_view(*a).segments.len() != path_view(*b).segments.len());
        }
        return false;
    }
    let mut i: usize = 0;
    while i < a.segments.len()
        invariant
            i <= a.segments.len(),
            a.segments@.len() == b.segments@.len(),
            forall|j: int| 0 <= j < i ==> a.segments@[j]@ == b.segments@[j]@,
        decreases a.segments@.len() - i,
    {
        if !(a.segments[i] == b.segments[i]) {
            proof {
                assert(path_view(*a).segments[i as int] != path_view(*b).segments[i as int]);
            }
            return false;
        }
        i += 1;
    }
    proof {
        assert(path_view(*a).segments =~= path_view(*b).segments);
    }
    true
}

fn paths_eq(a: &Vec<Path>, b: &Vec<Path>) -> (r: bool)
    ensures
        r == (paths_view(a@) == paths_view(b@)),
{
    if a.len() != b.len() {
        proof {
            assert(paths_view(a@).len() != paths_view(b@).len());
        }
        return false;
    }
    let mut i: usize = 0;
    while i < a.len()
        invariant
            i <= a.len(),
            a@.len() == b@.len(),
            forall|j: int| 0 <= j < i ==> path_view(a@[j]) == path_view(b@[j]),
        decreases a@.len() - i,
    {
        if !path_eq(&a[i], &b[i]) {
            proof {
                assert(paths_view(a@)[i as int] != paths_view(b@)[i as int]);
            }
            return false;
        }
        i += 1;
    }
    proof {
        assert(paths_view(a@) =~= paths_view(b@));
    }
    true
}

fn fields_eq(a: &Vec<FieldDef>, b: &Vec<FieldDef>) -> (r: bool)
    ensures
        r == (fields_view(a@) == fields_view(b@)),
{
    if a.len() != b.len() {
        proof {
            assert(fields_view(a@).len() != fields_view(b@).len());
        }
        return false;
    }
    let mut i: usize = 0;
    while i < a.len()
        invariant
            i <= a.len(),
            a@.len() == b@.len(),
            forall|j: int| 0 <= j < i ==> field_view(a@[j]) == field_view(b@[j]),
        decreases a@.len() - i,
    {
        if !(a[i].name == b[i].name && a[i].ty == b[i].ty) {
            proof {
                assert(fields_view(a@)[i as int] != fields_view(b@)[i as int]);
            }
            return false;
        }
        i += 1;
    }
    proof {
        assert(fields_view(a@) =~= fields_view(b@));
    }
    true
}

fn foreigns_equiv(a: &Vec<ForeignItem>, b: &Vec<ForeignItem>) -> (r: bool)
    ensures
        r == (foreigns_view(a@).len() == foreigns_view(b@).len() && (forall|i: int|
            0 <= i < foreigns_view(a@).len() ==> #[trigger] foreign_equiv(
                foreigns_view(a@)[i],
                foreigns_view(b@)[i],
            ))),
{
    if a.len() != b.len() {
        return false;
    }
    let mut i: usize = 0;
    while i < a.len()
        invariant
            i <= a.len(),
            a@.len() == b@.len(),
            forall|j: int| 0 <= j < i ==> #[trigger] foreign_equiv(
                foreigns_view(a@)[j],
                foreigns_view(b@)[j],
            ),
        decreases a@.len() - i,
    {
        if !(a[i].ident == b[i].ident && a[i].decl == b[i].decl) {
            proof {
                assert(!foreign_equiv(foreigns_view(a@)[i as int], foreigns_view(b@)[i as int]));
            }
            return false;
        }
        i += 1;
    }
    true
}

/// Decides structural equivalence of two item kinds.
pub fn kind_equiv_exec(a: &ItemKind, b: &ItemKind) -> (r: bool)
    ensures
        r == kind_equiv(kind_view(*a), kind_view(*b)),
    decreases *a,
{
    match (a, b) {
        (ItemKind::Mod(x), ItemKind::Mod(y)) => items_equiv_exec(x, y),
        (ItemKind::ForeignMod(x), ItemKind::ForeignMod(y)) => foreigns_equiv(x, y),
        (ItemKind::Struct(x), ItemKind::Struct(y)) => fields_eq(x, y),
        (ItemKind::Fn(x), ItemKind::Fn(y)) => paths_eq(x, y),
        (ItemKind::TyAlias(x), ItemKind::TyAlias(y)) => *x == *y,
        (ItemKind::Use(x), ItemKind::Use(y)) => path_eq(x, y),
        _ => false,
    }
}

/// Decides structural equivalence of two nested items.
pub fn item_equiv_exec(a: &Item, b: &Item) -> (r: bool)
    ensures
        r == item_equiv(item_view(*a), item_view(*b)),
    decreases *a,
{
    if !(a.ident == b.ident) {
        return false;
    }
    if !attrs_eq(&a.attrs, &b.attrs) {
        return false;
    }
    kind_equiv_exec(&a.kind, &b.kind)
}

fn items_equiv_exec(a: &Vec<Item>, b: &Vec<Item>) -> (r: bool)
    ensures
        r == (items_view(a@).len() == items_view(b@).len() && (forall|i: int|
            0 <= i < items_view(a@).len() ==> item_equiv(items_view(a@)[i], items_view(b@)[i]))),
    decreases a@,
{
    proof {
        lemma_items_view(a@);
        lemma_items_view(b@);
    }
    if a.len() != b.len() {
        return false;
    }
    let mut i: usize = 0;
    while i < a.len()
        invariant
            i <= a.len(),
            a@.len() == b@.len(),
            items_view(a@).len() == a@.len(),
            items_view(b@).len() == b@.len(),
            forall|j: int| 0 <= j < a@.len() ==> items_view(a@)[j] == item_view(a@[j]),
            forall|j: int| 0 <= j < b@.len() ==> items_view(b@)[j] == item_view(b@[j]),
            forall|j: int| 0 <= j < i ==> item_equiv(items_view(a@)[j], items_view(b@)[j]),
        decreases a@.len() - i,
    {
        if !item_equiv_exec(&a[i], &b[i]) {
            proof {
                assert(!item_equiv(items_view(a@)[i as int], items_view(b@)[i as int]));
            }
            return false;
        }
        i += 1;
    }
    true
}

} // verus!
