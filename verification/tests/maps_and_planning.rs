use reorganize_modules::ast::{
    Attribute, FieldDef, Item, ItemKind, Krate, Token, TokenTree,
};
use reorganize_modules::maps::ItemMap;
use reorganize_modules::matcher::match_modules;
use reorganize_modules::planner::clean_module_items;
use reorganize_modules::store::{ModuleInformation, snapshot_krate};

fn s(x: &str) -> String {
    x.to_string()
}

fn prov_attr(path: &str) -> Attribute {
    Attribute {
        tokens: vec![TokenTree::Delimited(vec![
            TokenTree::Leaf(Token::Ident(s("source_header"))),
            TokenTree::Leaf(Token::LitStr(s(path))),
        ])],
    }
}

fn module(id: u64, name: &str, attrs: Vec<Attribute>, kids: Vec<Item>) -> Item {
    Item { id, ident: s(name), attrs, kind: ItemKind::Mod(kids) }
}

fn record(id: u64, name: &str, ty: &str) -> Item {
    Item {
        id,
        ident: s(name),
        attrs: vec![],
        kind: ItemKind::Struct(vec![FieldDef { name: s("v"), ty: s(ty) }]),
    }
}

fn root(kids: Vec<Item>) -> Krate {
    Krate { root: Item { id: 0, ident: s(""), attrs: vec![], kind: ItemKind::Mod(kids) } }
}

#[test]
fn snapshot_records_every_node_once() {
    let k = root(vec![module(1, "m", vec![], vec![record(2, "a", "i32")])]);
    let map = snapshot_krate(&k);
    // Root, the module and the struct: three nodes.
    assert_eq!(map.len(), 3);
    assert!(map.contains_key(0));
    assert!(map.contains_key(1));
    assert!(map.contains_key(2));
    assert!(!map.contains_key(7));
    assert_eq!(map.get(1).unwrap().ident, "m");
    assert_eq!(map.get(2).unwrap().ident, "a");
}

#[test]
fn snapshot_insert_overwrites_in_place() {
    let mut map = ItemMap::new();
    map.insert(5, record(5, "first", "i32"));
    map.insert(5, record(5, "second", "i32"));
    assert_eq!(map.len(), 1);
    assert_eq!(map.get(5).unwrap().ident, "second");
}

#[test]
fn std_container_routes_to_reserved_identity() {
    let k = root(vec![module(
        1,
        "stdio_h",
        vec![prov_attr("/usr/include/stdio.h")],
        vec![record(2, "file_t", "i32")],
    )]);
    let mut info = ModuleInformation::new(100);
    info.item_map = snapshot_krate(&k);
    match_modules(&k, 2, 1, &mut info, &s("unit"));
    assert_eq!(info.decl_destination_mod.entries, vec![(2u64, 100u64)]);
    assert_eq!(info.new_names.entries.len(), 1);
    assert_eq!(info.new_names.entries[0].0, "stdio_h");
    assert_eq!(info.new_names.entries[0].1, "stdlib");
}

#[test]
fn last_matching_destination_wins() {
    // Both fo and foo match "foo_h" by containment; the last one scanned
    // is recorded.
    let k = root(vec![
        module(
            1,
            "foo_h",
            vec![prov_attr("foo.h")],
            vec![record(2, "buffer_t", "i32")],
        ),
        module(3, "fo", vec![], vec![]),
        module(4, "foo", vec![], vec![]),
    ]);
    // "foo.h" holds no standard-library marker, so the container is
    // matched by name.
    let mut info = ModuleInformation::new(100);
    info.item_map = snapshot_krate(&k);
    match_modules(&k, 2, 1, &mut info, &s("unit"));
    assert_eq!(info.decl_destination_mod.entries, vec![(2u64, 4u64)]);
    assert_eq!(info.new_names.entries[0].1, "foo");
}

#[test]
fn planner_drops_pairing_into_satisfied_destination() {
    // The destination already holds an equivalent struct: the group stays
    // empty.
    let k = root(vec![
        module(1, "foo_h", vec![prov_attr("foo.h")], vec![record(2, "b", "i32")]),
        module(3, "foo", vec![], vec![record(4, "b", "i32")]),
    ]);
    let mut info = ModuleInformation::new(100);
    info.item_map = snapshot_krate(&k);
    match_modules(&k, 2, 1, &mut info, &s("unit"));
    let plan = clean_module_items(&info);
    assert_eq!(plan.groups.len(), 1);
    assert_eq!(plan.groups[0].0, 3);
    assert_eq!(plan.groups[0].1.len(), 0);
}

#[test]
fn planner_deduplicates_within_group_keeping_first() {
    // Two items slated for the unresolved stdlib destination are
    // structurally equivalent: the first-seen survives.
    let k = root(vec![
        module(1, "a_h", vec![prov_attr("/usr/include/a.h")], vec![record(2, "t", "i32")]),
        module(3, "b_h", vec![prov_attr("/usr/include/b.h")], vec![record(4, "t", "i32")]),
        module(5, "c_h", vec![prov_attr("/usr/include/c.h")], vec![record(6, "u", "u64")]),
    ]);
    let mut info = ModuleInformation::new(100);
    info.item_map = snapshot_krate(&k);
    match_modules(&k, 2, 1, &mut info, &s("unit"));
    match_modules(&k, 4, 3, &mut info, &s("unit"));
    match_modules(&k, 6, 5, &mut info, &s("unit"));
    let plan = clean_module_items(&info);
    assert_eq!(plan.groups.len(), 1);
    assert_eq!(plan.groups[0].0, 100);
    assert_eq!(plan.groups[0].1, vec![2u64, 6u64]);
}

#[test]
fn missing_source_item_is_a_noop_pairing() {
    let k = root(vec![module(1, "foo_h", vec![prov_attr("foo.h")], vec![]), module(
        3,
        "foo",
        vec![],
        vec![],
    )]);
    let mut info = ModuleInformation::new(100);
    info.item_map = snapshot_krate(&k);
    // Identity 42 resolves to nothing in the snapshot.
    info.decl_destination_mod.insert(42, 3);
    let plan = clean_module_items(&info);
    assert_eq!(plan.groups.len(), 1);
    assert_eq!(plan.groups[0].0, 3);
    assert_eq!(plan.groups[0].1.len(), 0);
}

#[test]
fn unmarked_parent_records_nothing() {
    let k = root(vec![module(1, "plain", vec![], vec![record(2, "x", "i32")])]);
    let mut info = ModuleInformation::new(100);
    info.item_map = snapshot_krate(&k);
    match_modules(&k, 2, 1, &mut info, &s("unit"));
    assert_eq!(info.decl_destination_mod.entries.len(), 0);
    assert_eq!(info.new_names.entries.len(), 0);
}
