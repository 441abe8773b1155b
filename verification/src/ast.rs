//! The syntax-tree model the transform works over.
//!
//! Every declaration is an [`Item`] carrying a stable identity, an identifier
//! name, an attribute list and a kind.  Modules nest, so the tree is
//! recursive; the crate root is itself a module item with an empty
//! identifier.  Each executable type has a mathematical view (`ItemV` and
//! friends) built from `Seq`, over which all contracts are stated.

use vstd::prelude::*;

verus! {

// ------------------------------------------------------------------
// Executable data model
// ------------------------------------------------------------------

/// One token inside an attribute's token stream.
pub enum Token {
    /// A token read as an identifier.
    Ident(String),
    /// A token read as a string literal.
    LitStr(String),
    /// Any other token; classification never looks inside it.
    Other,
}

/// A token tree: a single token or a delimited group of nested trees.
pub enum TokenTree {
    Leaf(Token),
    Delimited(Vec<TokenTree>),
}

/// An attribute attached to an item, kept as its raw token trees.
pub struct Attribute {
    pub tokens: Vec<TokenTree>,
}

/// A reference path, a sequence of identifier segments.
pub struct Path {
    pub segments: Vec<String>,
}

/// A named field of a struct declaration.
pub struct FieldDef {
    pub name: String,
    pub ty: String,
}

/// A declaration inside a foreign (external-function) block.
pub struct ForeignItem {
    pub id: u64,
    pub ident: String,
    pub decl: String,
}

/// The content of an item, ignoring its name, identity and attributes.
pub enum ItemKind {
    /// A module: an ordered list of child items.
    Mod(Vec<Item>),
    /// A foreign block holding external declarations.
    ForeignMod(Vec<ForeignItem>),
    /// A struct with its fields.
    Struct(Vec<FieldDef>),
    /// A function; only the reference paths inside its body matter here.
    Fn(Vec<Path>),
    /// A type alias with the aliased type's name.
    TyAlias(String),
    /// An import of the given path.
    Use(Path),
}

/// A declaration node with a stable identity assigned once at parse time.
pub struct Item {
    pub id: u64,
    pub ident: String,
    pub attrs: Vec<Attribute>,
    pub kind: ItemKind,
}

/// A whole compilation unit.  The root is a module item whose identifier is
/// the empty string.
pub struct Krate {
    pub root: Item,
}

// ------------------------------------------------------------------
// Mathematical views
// ------------------------------------------------------------------

pub enum TokenV {
    Ident(Seq<char>),
    LitStr(Seq<char>),
    Other,
}

pub enum TokenTreeV {
    Leaf(TokenV),
    Delimited(Seq<TokenTreeV>),
}

pub struct AttributeV {
    pub tokens: Seq<TokenTreeV>,
}

pub struct PathV {
    pub segments: Seq<Seq<char>>,
}

pub struct FieldDefV {
    pub name: Seq<char>,
    pub ty: Seq<char>,
}

pub struct ForeignItemV {
    pub id: u64,
    pub ident: Seq<char>,
    pub decl: Seq<char>,
}

pub enum ItemKindV {
    Mod(Seq<ItemV>),
    ForeignMod(Seq<ForeignItemV>),
    Struct(Seq<FieldDefV>),
    Fn(Seq<PathV>),
    TyAlias(Seq<char>),
    Use(PathV),
}

pub struct ItemV {
    pub id: u64,
    pub ident: Seq<char>,
    pub attrs: Seq<AttributeV>,
    pub kind: ItemKindV,
}

pub struct KrateV {
    pub root: ItemV,
}

// ------------------------------------------------------------------
// View functions
// ------------------------------------------------------------------

pub open spec fn token_view(t: Token) -> TokenV {
    match t {
        Token::Ident(s) => TokenV::Ident(s@),
        Token::LitStr(s) => TokenV::LitStr(s@),
        Token::Other => TokenV::Other,
    }
}

pub open spec fn tree_view(t: TokenTree) -> TokenTreeV
    decreases t,
{
    match t {
        TokenTree::Leaf(tok) => TokenTreeV::Leaf(token_view(tok)),
        TokenTree::Delimited(sub) => TokenTreeV::Delimited(trees_view(sub@)),
    }
}

pub open spec fn trees_view(s: Seq<TokenTree>) -> Seq<TokenTreeV>
    decreases s,
{
    if s.len() == 0 {
        Seq::empty()
    } else {
        trees_view(s.drop_last()).push(tree_view(s.last()))
    }
}

pub open spec fn attr_view(a: Attribute) -> AttributeV {
    AttributeV { tokens: trees_view(a.tokens@) }
}

pub open spec fn attrs_view(s: Seq<Attribute>) -> Seq<AttributeV> {
    Seq::new(s.len(), |i: int| attr_view(s[i]))
}

pub open spec fn path_view(p: Path) -> PathV {
    PathV { segments: Seq::new(p.segments@.len(), |i: int| p.segments@[i]@) }
}

pub open spec fn paths_view(s: Seq<Path>) -> Seq<PathV> {
    Seq::new(s.len(), |i: int| path_view(s[i]))
}

pub open spec fn field_view(f: FieldDef) -> FieldDefV {
    FieldDefV { name: f.name@, ty: f.ty@ }
}

pub open spec fn fields_view(s: Seq<FieldDef>) -> Seq<FieldDefV> {
    Seq::new(s.len(), |i: int| field_view(s[i]))
}

pub open spec fn foreign_view(f: ForeignItem) -> ForeignItemV {
    ForeignItemV { id: f.id, ident: f.ident@, decl: f.decl@ }
}

pub open spec fn foreigns_view(s: Seq<ForeignItem>) -> Seq<ForeignItemV> {
    Seq::new(s.len(), |i: int| foreign_view(s[i]))
}

pub open spec fn kind_view(k: ItemKind) -> ItemKindV
    decreases k,
{
    match k {
        ItemKind::Mod(items) => ItemKindV::Mod(items_view(items@)),
        ItemKind::ForeignMod(fs) => ItemKindV::ForeignMod(foreigns_view(fs@)),
        ItemKind::Struct(fs) => ItemKindV::Struct(fields_view(fs@)),
        ItemKind::Fn(ps) => ItemKindV::Fn(paths_view(ps@)),
        ItemKind::TyAlias(s) => ItemKindV::TyAlias(s@),
        ItemKind::Use(p) => ItemKindV::Use(path_view(p)),
    }
}

pub open spec fn item_view(it: Item) -> ItemV
    decreases it,
{
    ItemV { id: it.id, ident: it.ident@, attrs: attrs_view(it.attrs@), kind: kind_view(it.kind) }
}

pub open spec fn items_view(s: Seq<Item>) -> Seq<ItemV>
    decreases s,
{
    if s.len() == 0 {
        Seq::empty()
    } else {
        items_view(s.drop_last()).push(item_view(s.last()))
    }
}

pub open spec fn krate_view(k: Krate) -> KrateV {
    KrateV { root: item_view(k.root) }
}

// ------------------------------------------------------------------
// Index lemmas for the recursively defined view maps
// ------------------------------------------------------------------

pub proof fn lemma_trees_view(s: Seq<TokenTree>)
    ensures
        trees_view(s).len() == s.len(),
        forall|i: int| 0 <= i < s.len() ==> trees_view(s)[i] == tree_view(s[i]),
    decreases s,
{
    if s.len() > 0 {
        lemma_trees_view(s.drop_last());
    }
}

pub proof fn lemma_items_view(s: Seq<Item>)
    ensures
        items_view(s).len() == s.len(),
        forall|i: int| 0 <= i < s.len() ==> items_view(s)[i] == item_view(s[i]),
    decreases s,
{
    if s.len() > 0 {
        lemma_items_view(s.drop_last());
    }
}


// ------------------------------------------------------------------
// Deep copies (view-preserving)
// ------------------------------------------------------------------

pub fn copy_token(t: &Token) -> (r: Token)
    ensures
        token_view(r) == token_view(*t),
{
    match t {
        Token::Ident(s) => Token::Ident(s.clone()),
        Token::LitStr(s) => Token::LitStr(s.clone()),
        Token::Other => Token::Other,
    }
}

pub fn copy_tree(t: &TokenTree) -> (r: TokenTree)
    ensures
        tree_view(r) == tree_view(*t),
    decreases *t,
{
    match t {
        TokenTree::Leaf(tok) => TokenTree::Leaf(copy_token(tok)),
        TokenTree::Delimited(sub) => TokenTree::Delimited(copy_trees(sub)),
    }
}

pub fn copy_trees(ts: &Vec<TokenTree>) -> (r: Vec<TokenTree>)
    ensures
        trees_view(r@) == trees_view(ts@),
    decreases ts@,
{
    let mut r: Vec<TokenTree> = Vec::new();
    let mut i: usize = 0;
    while i < ts.len()
        invariant
            i <= ts@.len(),
            r@.len() == i,
            forall|j: int| 0 <= j < i ==> tree_view(r@[j]) == tree_view(ts@[j]),
        decreases ts@.len() - i,
    {
        let c = copy_tree(&ts[i]);
        r.push(c);
        i += 1;
    }
    proof {
        lemma_trees_view(r@);
        lemma_trees_view(ts@);
        assert(trees_view(r@) =~= trees_view(ts@));
    }
    r
}

pub fn copy_attr(a: &Attribute) -> (r: Attribute)
    ensures
        attr_view(r) == attr_view(*a),
{
    Attribute { tokens: copy_trees(&a.tokens) }
}

pub fn copy_attrs(attrs: &Vec<Attribute>) -> (r: Vec<Attribute>)
    ensures
        attrs_view(r@) == attrs_view(attrs@),
{
    let mut r: Vec<Attribute> = Vec::new();
    let mut i: usize = 0;
    while i < attrs.len()
        invariant
            i <= attrs@.len(),
            r@.len() == i,
            forall|j: int| 0 <= j < i ==> attr_view(r@[j]) == attr_view(attrs@[j]),
        decreases attrs@.len() - i,
    {
        let c = copy_attr(&attrs[i]);
        r.push(c);
        i += 1;
    }
    proof {
        assert(attrs_view(r@) =~= attrs_view(attrs@));
    }
    r
}

pub fn copy_path(p: &Path) -> (r: Path)
    ensures
        path_view(r) == path_view(*p),
{
    let mut segments: Vec<String> = Vec::new();
    let mut i: usize = 0;
    while i < p.segments.len()
        invariant
            i <= p.segments@.len(),
            segments@.len() == i,
            forall|j: int| 0 <= j < i ==> segments@[j]@ == p.segments@[j]@,
        decreases p.segments@.len() - i,
    {
        let c = p.segments[i].clone();
        segments.push(c);
        i += 1;
    }
    let r = Path { segments };
    proof {
        assert(path_view(r).segments =~= path_view(*p).segments);
    }
    r
}

pub fn copy_paths(ps: &Vec<Path>) -> (r: Vec<Path>)
    ensures
        paths_view(r@) == paths_view(ps@),
{
    let mut r: Vec<Path> = Vec::new();
    let mut i: usize = 0;
    while i < ps.len()
        invariant
            i <= ps@.len(),
            r@.len() == i,
            forall|j: int| 0 <= j < i ==> path_view(r@[j]) == path_view(ps@[j]),
        decreases ps@.len() - i,
    {
        let c = copy_path(&ps[i]);
        r.push(c);
        i += 1;
    }
    proof {
        assert(paths_view(r@) =~= paths_view(ps@));
    }
    r
}

pub fn copy_fields(fs: &Vec<FieldDef>) -> (r: Vec<FieldDef>)
    ensures
        fields_view(r@) == fields_view(fs@),
{
    let mut r: Vec<FieldDef> = Vec::new();
    let mut i: usize = 0;
    while i < fs.len()
        invariant
            i <= fs@.len(),
            r@.len() == i,
            forall|j: int| 0 <= j < i ==> field_view(r@[j]) == field_view(fs@[j]),
        decreases fs@.len() - i,
    {
        let c = FieldDef { name: fs[i].name.clone(), ty: fs[i].ty.clone() };
        r.push(c);
        i += 1;
    }
    proof {
        assert(fields_view(r@) =~= fields_view(fs@));
    }
    r
}

pub fn copy_foreigns(fs: &Vec<ForeignItem>) -> (r: Vec<ForeignItem>)
    ensures
        foreigns_view(r@) == foreigns_view(fs@),
{
    let mut r: Vec<ForeignItem> = Vec::new();
    let mut i: usize = 0;
    while i < fs.len()
        invariant
            i <= fs@.len(),
            r@.len() == i,
            forall|j: int| 0 <= j < i ==> foreign_view(r@[j]) == foreign_view(fs@[j]),
        decreases fs@.len() - i,
    {
        let c = ForeignItem { id: fs[i].id, ident: fs[i].ident.clone(), decl: fs[i].decl.clone() };
        r.push(c);
        i += 1;
    }
    proof {
        assert(foreigns_view(r@) =~= foreigns_view(fs@));
    }
    r
}

pub fn copy_kind(k: &ItemKind) -> (r: ItemKind)
    ensures
        kind_view(r) == kind_view(*k),
    decreases *k,
{
    match k {
        ItemKind::Mod(items) => ItemKind::Mod(copy_items(items)),
        ItemKind::ForeignMod(fs) => ItemKind::ForeignMod(copy_foreigns(fs)),
        ItemKind::Struct(fs) => ItemKind::Struct(copy_fields(fs)),
        ItemKind::Fn(ps) => ItemKind::Fn(copy_paths(ps)),
        ItemKind::TyAlias(s) => ItemKind::TyAlias(s.clone()),
        ItemKind::Use(p) => ItemKind::Use(copy_path(p)),
    }
}

pub fn copy_item(it: &Item) -> (r: Item)
    ensures
        item_view(r) == item_view(*it),
    decreases *it,
{
    Item {
        id: it.id,
        ident: it.ident.clone(),
        attrs: copy_attrs(&it.attrs),
        kind: copy_kind(&it.kind),
    }
}

pub fn copy_items(items: &Vec<Item>) -> (r: Vec<Item>)
    ensures
        items_view(r@) == items_view(items@),
    decreases items@,
{
    let mut r: Vec<Item> = Vec::new();
    let mut i: usize = 0;
    while i < items.len()
        invariant
            i <= items@.len(),
            r@.len() == i,
            forall|j: int| 0 <= j < i ==> item_view(r@[j]) == item_view(items@[j]),
        decreases items@.len() - i,
    {
        let c = copy_item(&items[i]);
        r.push(c);
        i += 1;
    }
    proof {
        lemma_items_view(r@);
        lemma_items_view(items@);
        assert(items_view(r@) =~= items_view(items@));
    }
    r
}

} // verus!
