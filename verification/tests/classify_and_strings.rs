use reorganize_modules::ast::{
    Attribute, FieldDef, Item, ItemKind, Path, Token, TokenTree,
};
use reorganize_modules::classify::{has_source_header, is_std};
use reorganize_modules::equiv::{item_equiv_exec, kind_equiv_exec, path_eq};
use reorganize_modules::strutil::{contains_str, str_eq};

fn s(x: &str) -> String {
    x.to_string()
}

fn ident_tok(x: &str) -> TokenTree {
    TokenTree::Leaf(Token::Ident(s(x)))
}

fn lit_tok(x: &str) -> TokenTree {
    TokenTree::Leaf(Token::LitStr(s(x)))
}

#[test]
fn source_header_found_in_nested_groups() {
    let attrs = vec![Attribute {
        tokens: vec![TokenTree::Delimited(vec![
            ident_tok("cfg"),
            TokenTree::Delimited(vec![
                ident_tok("not"),
                TokenTree::Delimited(vec![ident_tok("source_header"), lit_tok("a.h")]),
            ]),
        ])],
    }];
    assert!(has_source_header(&attrs));
}

#[test]
fn source_header_requires_the_marker() {
    let attrs = vec![Attribute {
        tokens: vec![TokenTree::Delimited(vec![
            ident_tok("derive"),
            lit_tok("source_header"),
        ])],
    }];
    // The marker counts only when read as an identifier; here it occurs
    // only as a string literal.
    assert!(!has_source_header(&attrs));
    assert!(!has_source_header(&vec![]));
}

#[test]
fn std_recognized_by_each_marker_substring() {
    let one = |lit: &str| {
        vec![Attribute { tokens: vec![TokenTree::Delimited(vec![ident_tok("source_header"), lit_tok(lit)])] }]
    };
    assert!(is_std(&one("/usr/include/stdio.h")));
    assert!(is_std(&one("out/stddef_extra.h")));
    assert!(is_std(&one("has vararg inside")));
    assert!(!is_std(&one("/home/dev/project/foo.h")));
    // Only string literals count.
    let idents_only = vec![Attribute { tokens: vec![ident_tok("/usr/include")] }];
    assert!(!is_std(&idents_only));
}

#[test]
fn substring_containment_cases() {
    assert!(contains_str("foo_h", "foo"));
    assert!(contains_str("foo", "foo"));
    assert!(contains_str("anything", ""));
    assert!(!contains_str("fo", "foo"));
    assert!(!contains_str("barbaz", "foo"));
    assert!(contains_str("/usr/include/stdio.h", "/usr/include"));
}

#[test]
fn string_equality_cases() {
    assert!(str_eq("abc", "abc"));
    assert!(!str_eq("abc", "abd"));
    assert!(!str_eq("abc", "ab"));
    assert!(str_eq("", ""));
}

#[test]
fn structural_equivalence_ignores_identity() {
    let a = Item {
        id: 1,
        ident: s("x"),
        attrs: vec![],
        kind: ItemKind::Struct(vec![FieldDef { name: s("v"), ty: s("i32") }]),
    };
    let b = Item {
        id: 2,
        ident: s("y"),
        attrs: vec![],
        kind: ItemKind::Struct(vec![FieldDef { name: s("v"), ty: s("i32") }]),
    };
    // Kinds compare without names or identities...
    assert!(kind_equiv_exec(&a.kind, &b.kind));
    // ...nested items compare with their names.
    assert!(!item_equiv_exec(&a, &b));
    let c = Item {
        id: 3,
        ident: s("x"),
        attrs: vec![],
        kind: ItemKind::Struct(vec![FieldDef { name: s("v"), ty: s("u32") }]),
    };
    assert!(!kind_equiv_exec(&a.kind, &c.kind));
}

#[test]
fn module_equivalence_compares_children() {
    let leaf = |id: u64| Item {
        id,
        ident: s("t"),
        attrs: vec![],
        kind: ItemKind::TyAlias(s("u8")),
    };
    let m1 = ItemKind::Mod(vec![leaf(1)]);
    let m2 = ItemKind::Mod(vec![leaf(9)]);
    let m3 = ItemKind::Mod(vec![leaf(1), leaf(2)]);
    assert!(kind_equiv_exec(&m1, &m2));
    assert!(!kind_equiv_exec(&m1, &m3));
}

#[test]
fn path_equality_by_segments() {
    let p1 = Path { segments: vec![s("a"), s("b")] };
    let p2 = Path { segments: vec![s("a"), s("b")] };
    let p3 = Path { segments: vec![s("a")] };
    assert!(path_eq(&p1, &p2));
    assert!(!path_eq(&p1, &p3));
}
