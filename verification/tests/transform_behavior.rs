use reorganize_modules::ast::{
    Attribute, FieldDef, Item, ItemKind, Krate, Path, Token, TokenTree,
};
use reorganize_modules::transform::{Phase, ReorganizeModules};

fn s(x: &str) -> String {
    x.to_string()
}

fn header_attr(path: &str) -> Attribute {
    Attribute {
        tokens: vec![TokenTree::Delimited(vec![
            TokenTree::Leaf(Token::Ident(s("cfg"))),
            TokenTree::Delimited(vec![
                TokenTree::Leaf(Token::Ident(s("not"))),
                TokenTree::Delimited(vec![
                    TokenTree::Leaf(Token::Ident(s("source_header"))),
                    TokenTree::Leaf(Token::LitStr(s(path))),
                ]),
            ]),
        ])],
    }
}

fn module(id: u64, name: &str, attrs: Vec<Attribute>, kids: Vec<Item>) -> Item {
    Item { id, ident: s(name), attrs, kind: ItemKind::Mod(kids) }
}

fn record(id: u64, name: &str, fields: Vec<(&str, &str)>) -> Item {
    Item {
        id,
        ident: s(name),
        attrs: vec![],
        kind: ItemKind::Struct(
            fields
                .into_iter()
                .map(|(n, t)| FieldDef { name: s(n), ty: s(t) })
                .collect(),
        ),
    }
}

fn alias(id: u64, name: &str, target: &str) -> Item {
    Item { id, ident: s(name), attrs: vec![], kind: ItemKind::TyAlias(s(target)) }
}

fn import(id: u64, segs: Vec<&str>) -> Item {
    Item {
        id,
        ident: s(""),
        attrs: vec![],
        kind: ItemKind::Use(Path { segments: segs.into_iter().map(s).collect() }),
    }
}

fn function(id: u64, name: &str, paths: Vec<Vec<&str>>) -> Item {
    Item {
        id,
        ident: s(name),
        attrs: vec![],
        kind: ItemKind::Fn(
            paths
                .into_iter()
                .map(|p| Path { segments: p.into_iter().map(s).collect() })
                .collect(),
        ),
    }
}

fn root(kids: Vec<Item>) -> Krate {
    Krate { root: Item { id: 0, ident: s(""), attrs: vec![], kind: ItemKind::Mod(kids) } }
}

fn kids_of(it: &Item) -> &Vec<Item> {
    match &it.kind {
        ItemKind::Mod(kids) => kids,
        _ => panic!("expected a module"),
    }
}

fn item_eq(a: &Item, b: &Item) -> bool {
    if a.id != b.id || a.ident != b.ident {
        return false;
    }
    match (&a.kind, &b.kind) {
        (ItemKind::Mod(x), ItemKind::Mod(y)) => {
            x.len() == y.len() && x.iter().zip(y.iter()).all(|(i, j)| item_eq(i, j))
        }
        (ItemKind::ForeignMod(x), ItemKind::ForeignMod(y)) => {
            x.len() == y.len()
                && x.iter()
                    .zip(y.iter())
                    .all(|(i, j)| i.id == j.id && i.ident == j.ident && i.decl == j.decl)
        }
        (ItemKind::Struct(x), ItemKind::Struct(y)) => {
            x.len() == y.len()
                && x.iter()
                    .zip(y.iter())
                    .all(|(i, j)| i.name == j.name && i.ty == j.ty)
        }
        (ItemKind::Fn(x), ItemKind::Fn(y)) => {
            x.len() == y.len()
                && x.iter().zip(y.iter()).all(|(i, j)| i.segments == j.segments)
        }
        (ItemKind::TyAlias(x), ItemKind::TyAlias(y)) => x == y,
        (ItemKind::Use(x), ItemKind::Use(y)) => x.segments == y.segments,
        _ => false,
    }
}

fn any_segment_equals(it: &Item, needle: &str) -> bool {
    match &it.kind {
        ItemKind::Mod(kids) => kids.iter().any(|k| any_segment_equals(k, needle)),
        ItemKind::Fn(paths) => paths
            .iter()
            .any(|p| p.segments.iter().any(|g| g == needle)),
        ItemKind::Use(p) => p.segments.iter().any(|g| g == needle),
        _ => false,
    }
}

#[test]
fn scenario_merge_into_matching_module() {
    // foo_h carries provenance foo.h and holds buffer_t; foo has no
    // provenance and no member named buffer_t.
    let k = root(vec![
        module(
            1,
            "foo_h",
            vec![header_attr("foo.h")],
            vec![record(2, "buffer_t", vec![("data", "i32")])],
        ),
        module(
            3,
            "foo",
            vec![],
            vec![function(4, "use_buffer", vec![vec!["foo_h", "buffer_t"]])],
        ),
    ]);
    let out = ReorganizeModules.transform(k, 100, &s("unit"));
    let top = kids_of(&out.root);
    assert_eq!(top.len(), 1);
    assert_eq!(top[0].ident, "foo");
    let foo_kids = kids_of(&top[0]);
    assert_eq!(foo_kids.len(), 2);
    // The reference foo_h::buffer_t became foo::buffer_t.
    match &foo_kids[0].kind {
        ItemKind::Fn(paths) => {
            assert_eq!(paths.len(), 1);
            assert_eq!(paths[0].segments, vec![s("foo"), s("buffer_t")]);
        }
        _ => panic!("expected the function first"),
    }
    // buffer_t was inserted into foo.
    assert_eq!(foo_kids[1].ident, "buffer_t");
    assert!(matches!(foo_kids[1].kind, ItemKind::Struct(_)));
    // Rename completeness: no path segment equals the old name anywhere.
    assert!(!any_segment_equals(&out.root, "foo_h"));
}

#[test]
fn scenario_stdlib_alias_inserted_once() {
    // Two containers with system-include provenance define structurally
    // identical aliases: both route to stdlib, the alias lands once.
    let k = root(vec![
        module(
            1,
            "stdio_h",
            vec![header_attr("/usr/include/stdio.h")],
            vec![alias(3, "size_t", "usize")],
        ),
        module(
            2,
            "stddef_h",
            vec![header_attr("/usr/include/stddef.h")],
            vec![alias(4, "size_t", "usize")],
        ),
    ]);
    let out = ReorganizeModules.transform(k, 100, &s("unit"));
    let top = kids_of(&out.root);
    assert_eq!(top.len(), 1);
    assert_eq!(top[0].ident, "stdlib");
    assert_eq!(top[0].id, 100);
    let lib_kids = kids_of(&top[0]);
    assert_eq!(lib_kids.len(), 1);
    assert_eq!(lib_kids[0].ident, "size_t");
}

#[test]
fn scenario_dead_import_removed() {
    // widget's module imports widget_h::widget; once the real declaration
    // moves in, the import is dead and the declaration remains.
    let k = root(vec![
        module(
            1,
            "widget_h",
            vec![header_attr("widget.h")],
            vec![record(2, "widget", vec![("x", "u32")])],
        ),
        module(3, "widget", vec![], vec![import(4, vec!["widget_h", "widget"])]),
    ]);
    let out = ReorganizeModules.transform(k, 100, &s("unit"));
    let top = kids_of(&out.root);
    assert_eq!(top.len(), 1);
    assert_eq!(top[0].ident, "widget");
    let w_kids = kids_of(&top[0]);
    assert_eq!(w_kids.len(), 1);
    assert_eq!(w_kids[0].ident, "widget");
    assert!(matches!(w_kids[0].kind, ItemKind::Struct(_)));
}

#[test]
fn root_name_substitution_matches_root() {
    // The crate root's identifier is empty, so it is compared under the
    // unit's base file name; unit_h matches it and merges into the root.
    let k = root(vec![module(
        1,
        "unit_h",
        vec![header_attr("unit.h")],
        vec![record(2, "thing_t", vec![("v", "u8")])],
    )]);
    let out = ReorganizeModules.transform(k, 100, &s("unit"));
    let top = kids_of(&out.root);
    assert_eq!(top.len(), 1);
    assert_eq!(top[0].ident, "thing_t");
    assert!(matches!(top[0].kind, ItemKind::Struct(_)));
}

#[test]
fn duplicate_never_inserted_into_destination() {
    // foo already holds a struct structurally equivalent to the one in
    // foo_h: nothing is inserted, foo_h is still deleted.
    let k = root(vec![
        module(
            1,
            "foo_h",
            vec![header_attr("foo.h")],
            vec![record(2, "buffer_t", vec![("data", "i32")])],
        ),
        module(3, "foo", vec![], vec![record(4, "buffer_t", vec![("data", "i32")])]),
    ]);
    let out = ReorganizeModules.transform(k, 100, &s("unit"));
    let top = kids_of(&out.root);
    assert_eq!(top.len(), 1);
    assert_eq!(top[0].ident, "foo");
    let foo_kids = kids_of(&top[0]);
    assert_eq!(foo_kids.len(), 1);
    assert_eq!(foo_kids[0].id, 4);
}

#[test]
fn rerun_on_merged_tree_is_noop() {
    // Running the sequence again on an already-fully-merged tree changes
    // nothing.
    let k = root(vec![
        module(
            1,
            "foo_h",
            vec![header_attr("foo.h")],
            vec![record(2, "buffer_t", vec![("data", "i32")])],
        ),
        module(
            3,
            "foo",
            vec![],
            vec![function(4, "use_buffer", vec![vec!["foo_h", "buffer_t"]])],
        ),
    ]);
    let once = ReorganizeModules.transform(k, 100, &s("unit"));
    let copy = reorganize_modules::ast::copy_item(&once.root);
    let twice = ReorganizeModules.transform(once, 101, &s("unit"));
    assert!(item_eq(&twice.root, &copy));
}

#[test]
fn scope_markers_dropped_from_paths() {
    // Multi-segment paths lose their scope markers; single-segment paths
    // are left alone.
    let k = root(vec![module(
        1,
        "m",
        vec![],
        vec![
            import(2, vec!["self", "a", "b"]),
            import(3, vec!["super", "c"]),
            import(4, vec!["self"]),
        ],
    )]);
    let out = ReorganizeModules.transform(k, 100, &s("unit"));
    let top = kids_of(&out.root);
    let m_kids = kids_of(&top[0]);
    match &m_kids[0].kind {
        ItemKind::Use(p) => assert_eq!(p.segments, vec![s("a"), s("b")]),
        _ => panic!("expected an import"),
    }
    match &m_kids[1].kind {
        ItemKind::Use(p) => assert_eq!(p.segments, vec![s("c")]),
        _ => panic!("expected an import"),
    }
    match &m_kids[2].kind {
        ItemKind::Use(p) => assert_eq!(p.segments, vec![s("self")]),
        _ => panic!("expected an import"),
    }
}

#[test]
fn unmatched_generated_module_items_stay_out() {
    // A generated container matching no destination leaves its items where
    // they are; the container itself is still purged.
    let k = root(vec![
        module(
            1,
            "zzz_h",
            vec![header_attr("zzz.h")],
            vec![record(2, "zzz_t", vec![("v", "u8")])],
        ),
        module(3, "other", vec![], vec![]),
    ]);
    // "zzz_h" contains neither "other" nor "unit", so no destination
    // matches and nothing is recorded.
    let out = ReorganizeModules.transform(k, 100, &s("unit"));
    let top = kids_of(&out.root);
    assert_eq!(top.len(), 1);
    assert_eq!(top[0].ident, "other");
    assert_eq!(kids_of(&top[0]).len(), 0);
}

#[test]
fn duplicate_foreign_declarations_purged() {
    // Two foreign blocks in one container declare the same name: one copy
    // survives.  A declaration shadowed by a sibling item is dropped too.
    let fm = |id: u64, decls: Vec<(u64, &str)>| Item {
        id,
        ident: s(""),
        attrs: vec![],
        kind: ItemKind::ForeignMod(
            decls
                .into_iter()
                .map(|(i, n)| reorganize_modules::ast::ForeignItem {
                    id: i,
                    ident: s(n),
                    decl: s("fn"),
                })
                .collect(),
        ),
    };
    let k = root(vec![module(
        1,
        "m",
        vec![],
        vec![
            fm(2, vec![(10, "dup"), (11, "shadowed")]),
            fm(3, vec![(12, "dup")]),
            record(4, "shadowed", vec![("v", "u8")]),
        ],
    )]);
    let out = ReorganizeModules.transform(k, 100, &s("unit"));
    let top = kids_of(&out.root);
    let m_kids = kids_of(&top[0]);
    let count = |it: &Item, name: &str| -> usize {
        match &it.kind {
            ItemKind::ForeignMod(fs) => fs.iter().filter(|f| f.ident == name).count(),
            _ => 0,
        }
    };
    let dups = count(&m_kids[0], "dup") + count(&m_kids[1], "dup");
    assert_eq!(dups, 1);
    let shadowed = count(&m_kids[0], "shadowed") + count(&m_kids[1], "shadowed");
    assert_eq!(shadowed, 0);
}

#[test]
fn transform_runs_no_earlier_than_third_phase() {
    assert!(matches!(ReorganizeModules.min_phase(), Phase::Phase3));
}

#[test]
fn rename_reaches_nested_paths() {
    // A reference to the generated container sits deep inside nested
    // modules; the rename still rewrites it.
    let k = root(vec![
        module(
            1,
            "foo_h",
            vec![header_attr("foo.h")],
            vec![record(2, "buffer_t", vec![("data", "i32")])],
        ),
        module(3, "foo", vec![], vec![]),
        module(
            5,
            "outer",
            vec![],
            vec![module(
                6,
                "inner",
                vec![],
                vec![function(7, "deep", vec![vec!["foo_h", "buffer_t"]])],
            )],
        ),
    ]);
    let out = ReorganizeModules.transform(k, 100, &s("unit"));
    assert!(!any_segment_equals(&out.root, "foo_h"));
    let top = kids_of(&out.root);
    let outer = top.iter().find(|i| i.ident == "outer").unwrap();
    let inner = &kids_of(outer)[0];
    match &kids_of(inner)[0].kind {
        ItemKind::Fn(paths) => {
            assert_eq!(paths[0].segments, vec![s("foo"), s("buffer_t")]);
        }
        _ => panic!("expected the nested function"),
    }
}

#[test]
fn nested_generated_container_purged() {
    // A generated container below the top level is deleted too.
    let k = root(vec![module(
        1,
        "outer",
        vec![],
        vec![module(
            2,
            "zzz_h",
            vec![header_attr("zzz.h")],
            vec![record(3, "z", vec![("v", "u8")])],
        )],
    )]);
    let out = ReorganizeModules.transform(k, 100, &s("unit"));
    let top = kids_of(&out.root);
    assert_eq!(top.len(), 1);
    assert_eq!(top[0].ident, "outer");
    assert_eq!(kids_of(&top[0]).len(), 0);
}
