//! The whole-tree rewrite passes, in their fixed order: path cleansing,
//! insertion of planned items, synthesis of the stdlib container, reference
//! renaming, deletion of generated containers, the duplicate-foreign-block
//! purge and the dead-import purge.  Each pass consumes one tree value and
//! produces a new one.

use vstd::prelude::*;
use crate::ast::{
    ForeignItem, ForeignItemV, Item, ItemKind, ItemKindV, ItemV, Krate, KrateV, Path, PathV,
    copy_attrs, copy_fields, copy_foreigns, copy_item, item_view, items_view, krate_view,
    kind_view, lemma_items_view, path_view, paths_view,
};
use crate::classify::{has_source_header, has_source_header_spec, is_std, is_std_spec};
use crate::maps::{ItemMap, NameMap, im_lookup, nm_has_key, nm_lookup};
use crate::planner::{MergePlan, mod_contains_equiv, mod_has_equiv, pm_lookup};
use crate::strutil::str_eq;

verus! {

// ------------------------------------------------------------------
// Pass 1: path cleansing
// ------------------------------------------------------------------

/// A "current scope" or "enclosing scope" path segment marker.
pub open spec fn scope_marker(s: Seq<char>) -> bool {
    s == "self"@ || s == "super"@
}

pub open spec fn keep_segments(segs: Seq<Seq<char>>) -> Seq<Seq<char>>
    decreases segs,
{
    if segs.len() == 0 {
        Seq::empty()
    } else if scope_marker(segs.last()) {
        keep_segments(segs.drop_last())
    } else {
        keep_segments(segs.drop_last()).push(segs.last())
    }
}

/// A multi-segment path loses its scope-marker segments; a single-segment
/// path is left alone.
pub open spec fn cleanse_path_spec(p: PathV) -> PathV {
    if p.segments.len() > 1 {
        PathV { segments: keep_segments(p.segments) }
    } else {
        p
    }
}

pub open spec fn cleanse_paths_spec(ps: Seq<PathV>) -> Seq<PathV> {
    Seq::new(ps.len(), |i: int| cleanse_path_spec(ps[i]))
}

pub open spec fn cleanse_kind_spec(k: ItemKindV) -> ItemKindV
    decreases k,
{
    match k {
        ItemKindV::Mod(kids) => ItemKindV::Mod(cleanse_items_spec(kids)),
        ItemKindV::Fn(ps) => ItemKindV::Fn(cleanse_paths_spec(ps)),
        ItemKindV::Use(p) => ItemKindV::Use(cleanse_path_spec(p)),
        _ => k,
    }
}

pub open spec fn cleanse_item_spec(it: ItemV) -> ItemV
    decreases it,
{
    ItemV { kind: cleanse_kind_spec(it.kind), ..it }
}

pub open spec fn cleanse_items_spec(s: Seq<ItemV>) -> Seq<ItemV>
    decreases s,
{
    if s.len() == 0 {
        Seq::empty()
    } else {
        cleanse_items_spec(s.drop_last()).push(cleanse_item_spec(s.last()))
    }
}

pub open spec fn cleanse_krate_spec(kv: KrateV) -> KrateV {
    KrateV { root: cleanse_item_spec(kv.root) }
}

fn is_marker(s: &String) -> (r: bool)
    ensures
        r == scope_marker(s@),
{
    if str_eq(s.as_str(), "self") {
        true
    } else {
        str_eq(s.as_str(), "super")
    }
}

fn cleanse_path(p: &Path) -> (r: Path)
    ensures
        path_view(r) == cleanse_path_spec(path_view(*p)),
{
    let ghost pv = path_view(*p);
    if p.segments.len() <= 1 {
        let r = crate::ast::copy_path(p);
        return r;
    }
    let mut segments: Vec<String> = Vec::new();
    let mut i: usize = 0;
    proof {
        assert(pv.segments.subrange(0, 0) =~= Seq::<Seq<char>>::empty());
        assert(crate::ast::path_view(*p).segments.len() == p.segments@.len());
    }
    while i < p.segments.len()
        invariant
            i <= p.segments@.len(),
            pv == path_view(*p),
            pv.segments.len() == p.segments@.len(),
            forall|j: int| 0 <= j < p.segments@.len() ==> pv.segments[j] == p.segments@[j]@,
            Seq::new(segments@.len(), |t: int| segments@[t]@) =~= keep_segments(
                pv.segments.subrange(0, i as int),
            ),
        decreases p.segments@.len() - i,
    {
        let keep = !is_marker(&p.segments[i]);
        proof {
            let pre = pv.segments.subrange(0, i as int);
            let post = pv.segments.subrange(0, i + 1 as int);
            assert(post.last() == pv.segments[i as int]);
            assert(post.drop_last() =~= pre);
        }
        if keep {
            let c = p.segments[i].clone();
            segments.push(c);
        }
        proof {
            assert(Seq::new(segments@.len(), |t: int| segments@[t]@) =~= keep_segments(
                pv.segments.subrange(0, i + 1 as int),
            ));
        }
        i += 1;
    }
    proof {
        assert(pv.segments.subrange(0, pv.segments.len() as int) =~= pv.segments);
    }
    let r = Path { segments };
    proof {
        assert(path_view(r).segments =~= keep_segments(pv.segments));
    }
    r
}

fn cleanse_paths(ps: &Vec<Path>) -> (r: Vec<Path>)
    ensures
        paths_view(r@) == cleanse_paths_spec(paths_view(ps@)),
{
    let mut r: Vec<Path> = Vec::new();
    let mut i: usize = 0;
    while i < ps.len()
        invariant
            i <= ps@.len(),
            r@.len() == i,
            forall|j: int| 0 <= j < i ==> path_view(r@[j]) == cleanse_path_spec(
                path_view(ps@[j]),
            ),
        decreases ps@.len() - i,
    {
        let c = cleanse_path(&ps[i]);
        r.push(c);
        i += 1;
    }
    proof {
        assert(paths_view(r@) =~= cleanse_paths_spec(paths_view(ps@)));
    }
    r
}

fn cleanse_item(it: &Item) -> (r: Item)
    ensures
        item_view(r) == cleanse_item_spec(item_view(*it)),
    decreases *it,
{
    let kind = match &it.kind {
        ItemKind::Mod(kids) => ItemKind::Mod(cleanse_items(kids)),
        ItemKind::Fn(ps) => ItemKind::Fn(cleanse_paths(ps)),
        ItemKind::Use(p) => ItemKind::Use(cleanse_path(p)),
        ItemKind::ForeignMod(fs) => ItemKind::ForeignMod(copy_foreigns(fs)),
        ItemKind::Struct(fs) => ItemKind::Struct(copy_fields(fs)),
        ItemKind::TyAlias(s) => ItemKind::TyAlias(s.clone()),
    };
    Item { id: it.id, ident: it.ident.clone(), attrs: copy_attrs(&it.attrs), kind }
}

fn cleanse_items(items: &Vec<Item>) -> (r: Vec<Item>)
    ensures
        items_view(r@) == cleanse_items_spec(items_view(items@)),
    decreases items@,
{
    proof {
        lemma_items_view(items@);
    }
    let mut r: Vec<Item> = Vec::new();
    let mut i: usize = 0;
    while i < items.len()
        invariant
            i <= items@.len(),
            r@.len() == i,
            items_view(items@).len() == items@.len(),
            forall|j: int| 0 <= j < items@.len() ==> items_view(items@)[j] == item_view(
                items@[j],
            ),
            forall|j: int| 0 <= j < i ==> item_view(r@[j]) == cleanse_item_spec(
                item_view(items@[j]),
            ),
        decreases items@.len() - i,
    {
        let c = cleanse_item(&items[i]);
        r.push(c);
        i += 1;
    }
    proof {
        lemma_items_view(r@);
        lemma_cleanse_items_index(items_view(items@));
        assert(items_view(r@) =~= cleanse_items_spec(items_view(items@)));
    }
    r
}

proof fn lemma_cleanse_items_index(s: Seq<ItemV>)
    ensures
        cleanse_items_spec(s).len() == s.len(),
        forall|i: int| 0 <= i < s.len() ==> cleanse_items_spec(s)[i] == cleanse_item_spec(s[i]),
    decreases s,
{
    if s.len() > 0 {
        lemma_cleanse_items_index(s.drop_last());
    }
}

/// Pass 1: drops scope-marker segments from every multi-segment reference
/// path in the tree.
pub fn cleanse_krate(k: &Krate) -> (r: Krate)
    ensures
        krate_view(r) == cleanse_krate_spec(krate_view(*k)),
{
    Krate { root: cleanse_item(&k.root) }
}

/// Law: path cleansing is idempotent.
pub proof fn lemma_keep_segments_idempotent(segs: Seq<Seq<char>>)
    ensures
        keep_segments(keep_segments(segs)) == keep_segments(segs),
        forall|i: int| 0 <= i < keep_segments(segs).len() ==> !scope_marker(
            #[trigger] keep_segments(segs)[i],
        ),
    decreases segs,
{
    if segs.len() > 0 {
        lemma_keep_segments_idempotent(segs.drop_last());
        if !scope_marker(segs.last()) {
            assert(keep_segments(segs) == keep_segments(segs.drop_last()).push(segs.last()));
            assert(keep_segments(segs).drop_last() =~= keep_segments(segs.drop_last()));
        }
    }
}

// ------------------------------------------------------------------
// Pass 5: renaming
// ------------------------------------------------------------------

/// The segment after renaming: the recorded new identifier, if one exists.
pub open spec fn rename_seg(names: Seq<(Seq<char>, Seq<char>)>, s: Seq<char>) -> Seq<char> {
    match nm_lookup(names, s) {
        Some(n) => n,
        None => s,
    }
}

pub open spec fn rename_path_spec(names: Seq<(Seq<char>, Seq<char>)>, p: PathV) -> PathV {
    PathV { segments: Seq::new(p.segments.len(), |i: int| rename_seg(names, p.segments[i])) }
}

pub open spec fn rename_paths_spec(names: Seq<(Seq<char>, Seq<char>)>, ps: Seq<PathV>) -> Seq<
    PathV,
> {
    Seq::new(ps.len(), |i: int| rename_path_spec(names, ps[i]))
}

pub open spec fn rename_kind_spec(names: Seq<(Seq<char>, Seq<char>)>, k: ItemKindV) -> ItemKindV
    decreases k,
{
    match k {
        ItemKindV::Mod(kids) => ItemKindV::Mod(rename_items_spec(names, kids)),
        ItemKindV::Fn(ps) => ItemKindV::Fn(rename_paths_spec(names, ps)),
        ItemKindV::Use(p) => ItemKindV::Use(rename_path_spec(names, p)),
        _ => k,
    }
}

pub open spec fn rename_item_spec(names: Seq<(Seq<char>, Seq<char>)>, it: ItemV) -> ItemV
    decreases it,
{
    ItemV { kind: rename_kind_spec(names, it.kind), ..it }
}

pub open spec fn rename_items_spec(names: Seq<(Seq<char>, Seq<char>)>, s: Seq<ItemV>) -> Seq<
    ItemV,
>
    decreases s,
{
    if s.len() == 0 {
        Seq::empty()
    } else {
        rename_items_spec(names, s.drop_last()).push(rename_item_spec(names, s.last()))
    }
}

pub open spec fn rename_krate_spec(names: Seq<(Seq<char>, Seq<char>)>, kv: KrateV) -> KrateV {
    KrateV { root: rename_item_spec(names, kv.root) }
}

fn rename_path(names: &NameMap, p: &Path) -> (r: Path)
    requires
        names.wf(),
    ensures
        path_view(r) == rename_path_spec(names@, path_view(*p)),
{
    let mut segments: Vec<String> = Vec::new();
    let mut i: usize = 0;
    while i < p.segments.len()
        invariant
            i <= p.segments@.len(),
            names.wf(),
            segments@.len() == i,
            forall|j: int| 0 <= j < i ==> segments@[j]@ == rename_seg(names@, p.segments@[j]@),
        decreases p.segments@.len() - i,
    {
        let seg: String = match names.get(&p.segments[i]) {
            Some(n) => n.clone(),
            None => p.segments[i].clone(),
        };
        segments.push(seg);
        i += 1;
    }
    let r = Path { segments };
    proof {
        assert(path_view(r).segments =~= rename_path_spec(names@, path_view(*p)).segments);
    }
    r
}

fn rename_paths(names: &NameMap, ps: &Vec<Path>) -> (r: Vec<Path>)
    requires
        names.wf(),
    ensures
        paths_view(r@) == rename_paths_spec(names@, paths_view(ps@)),
{
    let mut r: Vec<Path> = Vec::new();
    let mut i: usize = 0;
    while i < ps.len()
        invariant
            i <= ps@.len(),
            names.wf(),
            r@.len() == i,
            forall|j: int| 0 <= j < i ==> path_view(r@[j]) == rename_path_spec(
                names@,
                path_view(ps@[j]),
            ),
        decreases ps@.len() - i,
    {
        let c = rename_path(names, &ps[i]);
        r.push(c);
        i += 1;
    }
    proof {
        assert(paths_view(r@) =~= rename_paths_spec(names@, paths_view(ps@)));
    }
    r
}

fn rename_item(names: &NameMap, it: &Item) -> (r: Item)
    requires
        names.wf(),
    ensures
        item_view(r) == rename_item_spec(names@, item_view(*it)),
    decreases *it,
{
    let kind = match &it.kind {
        ItemKind::Mod(kids) => ItemKind::Mod(rename_items(names, kids)),
        ItemKind::Fn(ps) => ItemKind::Fn(rename_paths(names, ps)),
        ItemKind::Use(p) => ItemKind::Use(rename_path(names, p)),
        ItemKind::ForeignMod(fs) => ItemKind::ForeignMod(copy_foreigns(fs)),
        ItemKind::Struct(fs) => ItemKind::Struct(copy_fields(fs)),
        ItemKind::TyAlias(s) => ItemKind::TyAlias(s.clone()),
    };
    Item { id: it.id, ident: it.ident.clone(), attrs: copy_attrs(&it.attrs), kind }
}

fn rename_items(names: &NameMap, items: &Vec<Item>) -> (r: Vec<Item>)
    requires
        names.wf(),
    ensures
        items_view(r@) == rename_items_spec(names@, items_view(items@)),
    decreases items@,
{
    proof {
        lemma_items_view(items@);
    }
    let mut r: Vec<Item> = Vec::new();
    let mut i: usize = 0;
    while i < items.len()
        invariant
            i <= items@.len(),
            names.wf(),
            r@.len() == i,
            items_view(items@).len() == items@.len(),
            forall|j: int| 0 <= j < items@.len() ==> items_view(items@)[j] == item_view(
                items@[j],
            ),
            forall|j: int| 0 <= j < i ==> item_view(r@[j]) == rename_item_spec(
                names@,
                item_view(items@[j]),
            ),
        decreases items@.len() - i,
    {
        let c = rename_item(names, &items[i]);
        r.push(c);
        i += 1;
    }
    proof {
        lemma_items_view(r@);
        lemma_rename_items_index(names@, items_view(items@));
        assert(items_view(r@) =~= rename_items_spec(names@, items_view(items@)));
    }
    r
}

proof fn lemma_rename_items_index(names: Seq<(Seq<char>, Seq<char>)>, s: Seq<ItemV>)
    ensures
        rename_items_spec(names, s).len() == s.len(),
        forall|i: int| 0 <= i < s.len() ==> rename_items_spec(names, s)[i] == rename_item_spec(
            names,
            s[i],
        ),
    decreases s,
{
    if s.len() > 0 {
        lemma_rename_items_index(names, s.drop_last());
    }
}

/// Pass 5: rewrites every reference-path segment equal to a recorded old
/// container identifier to its new identifier.
pub fn rename_krate(names: &NameMap, k: &Krate) -> (r: Krate)
    requires
        names.wf(),
    ensures
        krate_view(r) == rename_krate_spec(names@, krate_view(*k)),
{
    Krate { root: rename_item(names, &k.root) }
}

// ------------------------------------------------------------------
// Rename completeness
// ------------------------------------------------------------------

pub open spec fn path_clean(names: Seq<(Seq<char>, Seq<char>)>, p: PathV) -> bool {
    forall|i: int| 0 <= i < p.segments.len() ==> !nm_has_key(names, #[trigger] p.segments[i])
}

pub open spec fn paths_clean(names: Seq<(Seq<char>, Seq<char>)>, ps: Seq<PathV>) -> bool {
    forall|i: int| 0 <= i < ps.len() ==> path_clean(names, #[trigger] ps[i])
}

/// No reference path in the item (or below it) holds a segment equal to a
/// recorded old identifier.
pub open spec fn item_clean(names: Seq<(Seq<char>, Seq<char>)>, it: ItemV) -> bool
    decreases it,
{
    match it.kind {
        ItemKindV::Mod(kids) => forall|i: int|
            0 <= i < kids.len() ==> item_clean(names, #[trigger] kids[i]),
        ItemKindV::Fn(ps) => paths_clean(names, ps),
        ItemKindV::Use(p) => path_clean(names, p),
        _ => true,
    }
}

/// No rename target is itself a recorded old identifier.
pub open spec fn names_closed(names: Seq<(Seq<char>, Seq<char>)>) -> bool {
    forall|i: int| 0 <= i < names.len() ==> !nm_has_key(names, (#[trigger] names[i]).1)
}

/// Law: rename completeness.  When no new identifier is itself recorded as
/// an old one, the renamed tree holds no reference-path segment equal to any
/// recorded old identifier.
pub proof fn lemma_rename_complete(names: Seq<(Seq<char>, Seq<char>)>, it: ItemV)
    requires
        names_closed(names),
    ensures
        item_clean(names, rename_item_spec(names, it)),
    decreases it,
{
    let rit = rename_item_spec(names, it);
    match it.kind {
        ItemKindV::Mod(kids) => {
            lemma_rename_items_index(names, kids);
            assert forall|i: int|
                0 <= i < rit.kind->Mod_0.len() implies item_clean(
                names,
                #[trigger] rit.kind->Mod_0[i],
            ) by {
                lemma_rename_complete(names, kids[i]);
            }
        },
        ItemKindV::Fn(ps) => {
            assert forall|i: int|
                0 <= i < rit.kind->Fn_0.len() implies path_clean(
                names,
                #[trigger] rit.kind->Fn_0[i],
            ) by {
                lemma_rename_path_clean(names, ps[i]);
            }
        },
        ItemKindV::Use(p) => {
            lemma_rename_path_clean(names, p);
        },
        _ => {},
    }
}

proof fn lemma_rename_path_clean(names: Seq<(Seq<char>, Seq<char>)>, p: PathV)
    requires
        names_closed(names),
    ensures
        path_clean(names, rename_path_spec(names, p)),
{
    let rp = rename_path_spec(names, p);
    assert forall|i: int| 0 <= i < rp.segments.len() implies !nm_has_key(
        names,
        #[trigger] rp.segments[i],
    ) by {
        let s = p.segments[i];
        if nm_has_key(names, s) {
            let ki = crate::maps::nm_key_at(names, s);
            assert(0 <= ki < names.len() && names[ki].0 == s);
            assert(rp.segments[i] == names[ki].1);
            assert(!nm_has_key(names, names[ki].1));
        } else {
            assert(rp.segments[i] == s);
        }
    }
}


// ------------------------------------------------------------------
// Pass 3: insertion of planned items
// ------------------------------------------------------------------

/// The snapshot items behind the listed identities, in list order; an
/// identity absent from the snapshot contributes nothing.
pub open spec fn fetch_items(map: Seq<(u64, ItemV)>, ids: Seq<u64>) -> Seq<ItemV>
    decreases ids,
{
    if ids.len() == 0 {
        Seq::empty()
    } else {
        fetch_items(map, ids.drop_last()) + (match im_lookup(map, ids.last()) {
            Some(x) => seq![x],
            None => Seq::<ItemV>::empty(),
        })
    }
}

pub open spec fn insert_item_spec(
    plan: Seq<(u64, Seq<u64>)>,
    map: Seq<(u64, ItemV)>,
    it: ItemV,
) -> ItemV
    decreases it,
{
    match it.kind {
        ItemKindV::Mod(kids) => ItemV {
            kind: ItemKindV::Mod(
                insert_items_spec(plan, map, kids) + (match pm_lookup(plan, it.id) {
                    Some(ids) => fetch_items(map, ids),
                    None => Seq::<ItemV>::empty(),
                }),
            ),
            ..it
        },
        _ => it,
    }
}

pub open spec fn insert_items_spec(
    plan: Seq<(u64, Seq<u64>)>,
    map: Seq<(u64, ItemV)>,
    s: Seq<ItemV>,
) -> Seq<ItemV>
    decreases s,
{
    if s.len() == 0 {
        Seq::empty()
    } else {
        insert_items_spec(plan, map, s.drop_last()).push(insert_item_spec(plan, map, s.last()))
    }
}

pub open spec fn insert_krate_spec(
    plan: Seq<(u64, Seq<u64>)>,
    map: Seq<(u64, ItemV)>,
    kv: KrateV,
) -> KrateV {
    KrateV { root: insert_item_spec(plan, map, kv.root) }
}

proof fn lemma_items_view_concat(a: Seq<Item>, b: Seq<Item>)
    ensures
        items_view(a + b) == items_view(a) + items_view(b),
{
    lemma_items_view(a);
    lemma_items_view(b);
    lemma_items_view(a + b);
    assert(items_view(a + b) =~= items_view(a) + items_view(b));
}

fn fetch_plan_items(map: &ItemMap, ids: &Vec<u64>) -> (r: Vec<Item>)
    requires
        map.wf(),
    ensures
        items_view(r@) == fetch_items(map@, ids@),
{
    let mut r: Vec<Item> = Vec::new();
    proof {
        assert(items_view(r@) =~= fetch_items(map@, ids@.subrange(0, 0)));
    }
    let mut i: usize = 0;
    while i < ids.len()
        invariant
            i <= ids@.len(),
            map.wf(),
            items_view(r@) == fetch_items(map@, ids@.subrange(0, i as int)),
        decreases ids@.len() - i,
    {
        let ghost pre = ids@.subrange(0, i as int);
        let ghost post = ids@.subrange(0, i + 1 as int);
        proof {
            assert(post.last() == ids@[i as int]);
            assert(post.drop_last() =~= pre);
        }
        match map.get(ids[i]) {
            Some(it) => {
                let c = copy_item(it);
                let ghost rp = r@;
                r.push(c);
                proof {
                    assert(r@.drop_last() =~= rp);
                    assert(r@.last() == c);
                    assert(items_view(r@) == items_view(rp).push(item_view(c)));
                    assert(items_view(rp).push(item_view(c)) =~= items_view(rp) + seq![
                        item_view(c),
                    ]);
                }
            },
            None => {
                proof {
                    assert(fetch_items(map@, post) =~= fetch_items(map@, pre));
                }
            },
        }
        i += 1;
    }
    proof {
        assert(ids@.subrange(0, ids@.len() as int) =~= ids@);
    }
    r
}

fn insert_item(plan: &MergePlan, map: &ItemMap, it: &Item) -> (r: Item)
    requires
        plan.wf(),
        map.wf(),
    ensures
        item_view(r) == insert_item_spec(plan@, map@, item_view(*it)),
    decreases *it,
{
    match &it.kind {
        ItemKind::Mod(kids) => {
            let mut newkids = insert_items(plan, map, kids);
            let ghost base = newkids@;
            match plan.get(it.id) {
                Some(ids) => {
                    let mut fetched = fetch_plan_items(map, ids);
                    let ghost fseq = fetched@;
                    newkids.append(&mut fetched);
                    proof {
                        assert(newkids@ == base + fseq);
                        lemma_items_view_concat(base, fseq);
                    }
                },
                None => {
                    proof {
                        assert(items_view(base) + Seq::<ItemV>::empty() =~= items_view(base));
                    }
                },
            }
            Item {
                id: it.id,
                ident: it.ident.clone(),
                attrs: copy_attrs(&it.attrs),
                kind: ItemKind::Mod(newkids),
            }
        },
        ItemKind::ForeignMod(fs) => Item {
            id: it.id,
            ident: it.ident.clone(),
            attrs: copy_attrs(&it.attrs),
            kind: ItemKind::ForeignMod(copy_foreigns(fs)),
        },
        ItemKind::Struct(fs) => Item {
            id: it.id,
            ident: it.ident.clone(),
            attrs: copy_attrs(&it.attrs),
            kind: ItemKind::Struct(copy_fields(fs)),
        },
        ItemKind::Fn(ps) => Item {
            id: it.id,
            ident: it.ident.clone(),
            attrs: copy_attrs(&it.attrs),
            kind: ItemKind::Fn(crate::ast::copy_paths(ps)),
        },
        ItemKind::TyAlias(t) => Item {
            id: it.id,
            ident: it.ident.clone(),
            attrs: copy_attrs(&it.attrs),
            kind: ItemKind::TyAlias(t.clone()),
        },
        ItemKind::Use(pp) => Item {
            id: it.id,
            ident: it.ident.clone(),
            attrs: copy_attrs(&it.attrs),
            kind: ItemKind::Use(crate::ast::copy_path(pp)),
        },
    }
}

fn insert_items(plan: &MergePlan, map: &ItemMap, items: &Vec<Item>) -> (r: Vec<Item>)
    requires
        plan.wf(),
        map.wf(),
    ensures
        items_view(r@) == insert_items_spec(plan@, map@, items_view(items@)),
    decreases items@,
{
    proof {
        lemma_items_view(items@);
    }
    let mut r: Vec<Item> = Vec::new();
    let mut i: usize = 0;
    while i < items.len()
        invariant
            i <= items@.len(),
            plan.wf(),
            map.wf(),
            r@.len() == i,
            items_view(items@).len() == items@.len(),
            forall|j: int| 0 <= j < items@.len() ==> items_view(items@)[j] == item_view(
                items@[j],
            ),
            forall|j: int| 0 <= j < i ==> item_view(r@[j]) == insert_item_spec(
                plan@,
                map@,
                item_view(items@[j]),
            ),
        decreases items@.len() - i,
    {
        let c = insert_item(plan, map, &items[i]);
        r.push(c);
        i += 1;
    }
    proof {
        lemma_items_view(r@);
        lemma_insert_items_index(plan@, map@, items_view(items@));
        assert(items_view(r@) =~= insert_items_spec(plan@, map@, items_view(items@)));
    }
    r
}

proof fn lemma_insert_items_index(
    plan: Seq<(u64, Seq<u64>)>,
    map: Seq<(u64, ItemV)>,
    s: Seq<ItemV>,
)
    ensures
        insert_items_spec(plan, map, s).len() == s.len(),
        forall|i: int|
            0 <= i < s.len() ==> insert_items_spec(plan, map, s)[i] == insert_item_spec(
                plan,
                map,
                s[i],
            ),
    decreases s,
{
    if s.len() > 0 {
        lemma_insert_items_index(plan, map, s.drop_last());
    }
}

/// Pass 3: appends every planned item, fetched by identity from the
/// snapshot, to the body of its destination container, preserving list
/// order.
pub fn insert_krate(plan: &MergePlan, map: &ItemMap, k: &Krate) -> (r: Krate)
    requires
        plan.wf(),
        map.wf(),
    ensures
        krate_view(r) == insert_krate_spec(plan@, map@, krate_view(*k)),
{
    Krate { root: insert_item(plan, map, &k.root) }
}

// ------------------------------------------------------------------
// Pass 4: synthesis of the stdlib container
// ------------------------------------------------------------------

/// The synthetic standard-library container holding the queued items.
pub open spec fn stdlib_item_spec(map: Seq<(u64, ItemV)>, ids: Seq<u64>, stdlib_id: u64) -> ItemV {
    ItemV {
        id: stdlib_id,
        ident: "stdlib"@,
        attrs: Seq::empty(),
        kind: ItemKindV::Mod(fetch_items(map, ids)),
    }
}

pub open spec fn extend_krate_spec(
    plan: Seq<(u64, Seq<u64>)>,
    map: Seq<(u64, ItemV)>,
    kv: KrateV,
    stdlib_id: u64,
) -> KrateV {
    match pm_lookup(plan, stdlib_id) {
        Some(ids) => if fetch_items(map, ids).len() > 0 {
            KrateV {
                root: ItemV {
                    kind: ItemKindV::Mod(
                        kv.root.kind->Mod_0 + seq![stdlib_item_spec(map, ids, stdlib_id)],
                    ),
                    ..kv.root
                },
            }
        } else {
            kv
        },
        None => kv,
    }
}

/// Pass 4: if items are queued for the reserved stdlib destination, creates
/// exactly one new container named `stdlib` holding them, appended at the
/// top level.
pub fn extend_krate(plan: &MergePlan, map: &ItemMap, k: Krate, stdlib_id: u64) -> (r: Krate)
    requires
        plan.wf(),
        map.wf(),
        k.root.kind is Mod,
    ensures
        krate_view(r) == extend_krate_spec(plan@, map@, krate_view(k), stdlib_id),
        r.root.kind is Mod,
{
    let fetched: Option<Vec<Item>> = match plan.get(stdlib_id) {
        Some(ids) => Some(fetch_plan_items(map, ids)),
        None => None,
    };
    match fetched {
        Some(items) => {
            proof {
                lemma_items_view(items@);
            }
            if items.len() > 0 {
                let new_item = Item {
                    id: stdlib_id,
                    ident: "stdlib".to_owned(),
                    attrs: Vec::new(),
                    kind: ItemKind::Mod(items),
                };
                let ghost niv = item_view(new_item);
                let Krate { root } = k;
                let Item { id, ident, attrs, kind } = root;
                match kind {
                    ItemKind::Mod(mut kids) => {
                        let ghost base = kids@;
                        kids.push(new_item);
                        let r = Krate {
                            root: Item { id, ident, attrs, kind: ItemKind::Mod(kids) },
                        };
                        proof {
                            lemma_items_view(base);
                            lemma_items_view(kids@);
                            assert(krate_view(r).root.kind->Mod_0 =~= items_view(base) + seq![
                                niv,
                            ]);
                            assert(niv.attrs =~= Seq::<crate::ast::AttributeV>::empty());
                            assert(krate_view(r) == extend_krate_spec(
                                plan@,
                                map@,
                                krate_view(k),
                                stdlib_id,
                            ));
                        }
                        r
                    },
                    ItemKind::ForeignMod(x) => {
                        proof {
                            assert(false);
                        }
                        Krate { root: Item { id, ident, attrs, kind: ItemKind::ForeignMod(x) } }
                    },
                    ItemKind::Struct(x) => {
                        proof {
                            assert(false);
                        }
                        Krate { root: Item { id, ident, attrs, kind: ItemKind::Struct(x) } }
                    },
                    ItemKind::Fn(x) => {
                        proof {
                            assert(false);
                        }
                        Krate { root: Item { id, ident, attrs, kind: ItemKind::Fn(x) } }
                    },
                    ItemKind::TyAlias(x) => {
                        proof {
                            assert(false);
                        }
                        Krate { root: Item { id, ident, attrs, kind: ItemKind::TyAlias(x) } }
                    },
                    ItemKind::Use(x) => {
                        proof {
                            assert(false);
                        }
                        Krate { root: Item { id, ident, attrs, kind: ItemKind::Use(x) } }
                    },
                }
            } else {
                k
            }
        },
        None => k,
    }
}

// ------------------------------------------------------------------
// Pass 6: deletion of generated containers
// ------------------------------------------------------------------

/// A container the transpiler marked as header-generated or
/// standard-library; its content has been absorbed by insertion.
pub open spec fn generated_marked(it: ItemV) -> bool {
    has_source_header_spec(it.attrs) || is_std_spec(it.attrs)
}

pub open spec fn purge_gen_item_spec(it: ItemV) -> ItemV
    decreases it,
{
    match it.kind {
        ItemKindV::Mod(kids) => ItemV { kind: ItemKindV::Mod(purge_gen_items_spec(kids)), ..it },
        _ => it,
    }
}

pub open spec fn purge_gen_items_spec(s: Seq<ItemV>) -> Seq<ItemV>
    decreases s,
{
    if s.len() == 0 {
        Seq::empty()
    } else {
        let p = purge_gen_items_spec(s.drop_last());
        if generated_marked(s.last()) {
            p
        } else {
            p.push(purge_gen_item_spec(s.last()))
        }
    }
}

pub open spec fn purge_gen_krate_spec(kv: KrateV) -> KrateV {
    KrateV { root: purge_gen_item_spec(kv.root) }
}

fn purge_gen_item(it: &Item) -> (r: Item)
    ensures
        item_view(r) == purge_gen_item_spec(item_view(*it)),
    decreases *it,
{
    match &it.kind {
        ItemKind::Mod(kids) => Item {
            id: it.id,
            ident: it.ident.clone(),
            attrs: copy_attrs(&it.attrs),
            kind: ItemKind::Mod(purge_gen_items(kids)),
        },
        _ => copy_item(it),
    }
}

fn purge_gen_items(items: &Vec<Item>) -> (r: Vec<Item>)
    ensures
        items_view(r@) == purge_gen_items_spec(items_view(items@)),
    decreases items@,
{
    proof {
        lemma_items_view(items@);
    }
    let mut r: Vec<Item> = Vec::new();
    proof {
        assert(items_view(items@).subrange(0, 0) =~= Seq::<ItemV>::empty());
        assert(items_view(r@) =~= purge_gen_items_spec(items_view(items@).subrange(0, 0)));
    }
    let mut i: usize = 0;
    while i < items.len()
        invariant
            i <= items@.len(),
            items_view(items@).len() == items@.len(),
            forall|j: int| 0 <= j < items@.len() ==> items_view(items@)[j] == item_view(
                items@[j],
            ),
            items_view(r@) == purge_gen_items_spec(items_view(items@).subrange(0, i as int)),
        decreases items@.len() - i,
    {
        let ghost vs = items_view(items@);
        proof {
            assert(vs.subrange(0, i + 1 as int).last() == vs[i as int]);
            assert(vs.subrange(0, i + 1 as int).drop_last() =~= vs.subrange(0, i as int));
        }
        let keep = if has_source_header(&items[i].attrs) {
            false
        } else {
            !is_std(&items[i].attrs)
        };
        if keep {
            let c = purge_gen_item(&items[i]);
            let ghost rp = r@;
            r.push(c);
            proof {
                assert(r@.drop_last() =~= rp);
                assert(r@.last() == c);
                assert(items_view(r@) == items_view(rp).push(item_view(c)));
            }
        }
        i += 1;
    }
    proof {
        assert(items_view(items@).subrange(0, items@.len() as int) =~= items_view(items@));
    }
    r
}

/// Pass 6: deletes every container marked header-generated or
/// standard-library, anywhere in the tree.
pub fn purge_gen_krate(k: &Krate) -> (r: Krate)
    ensures
        krate_view(r) == purge_gen_krate_spec(krate_view(*k)),
{
    Krate { root: purge_gen_item(&k.root) }
}


// ------------------------------------------------------------------
// Pass 7: duplicate foreign-block purge
// ------------------------------------------------------------------

/// Some direct child of the container carries this name.
pub open spec fn kids_name_hit(kids: Seq<ItemV>, nm: Seq<char>) -> bool {
    exists|ki: int| 0 <= ki < kids.len() && (#[trigger] kids[ki]).ident == nm
}

/// Some foreign declaration of the block carries this name and is not
/// marked deleted.
pub open spec fn fm_items_hit(fs: Seq<ForeignItemV>, nm: Seq<char>, del: Seq<u64>) -> bool {
    exists|fi: int|
        0 <= fi < fs.len() && (#[trigger] fs[fi]).ident == nm && !del.contains(fs[fi].id)
}

/// Some other foreign block among the children holds an unmarked
/// declaration of this name.
pub open spec fn kids_fm_hit(kids: Seq<ItemV>, pi_id: u64, nm: Seq<char>, del: Seq<u64>) -> bool {
    exists|ki: int|
        0 <= ki < kids.len() && (#[trigger] kids[ki]).kind is ForeignMod && kids[ki].id != pi_id
            && fm_items_hit(kids[ki].kind->ForeignMod_0, nm, del)
}

/// The snapshot container `m` structurally encloses the block whose kind is
/// `pik` and holds a sibling declaration named `nm`.
pub open spec fn entry_plain(m: ItemV, pik: ItemKindV, nm: Seq<char>) -> bool {
    m.kind is Mod && mod_has_equiv(m.kind->Mod_0, pik) && kids_name_hit(m.kind->Mod_0, nm)
}

/// The snapshot container `m` structurally encloses the block and holds a
/// different foreign block with an unmarked declaration named `nm`.
pub open spec fn entry_marked(
    m: ItemV,
    pik: ItemKindV,
    pi_id: u64,
    nm: Seq<char>,
    del: Seq<u64>,
) -> bool {
    m.kind is Mod && mod_has_equiv(m.kind->Mod_0, pik) && kids_fm_hit(
        m.kind->Mod_0,
        pi_id,
        nm,
        del,
    )
}

pub open spec fn plain_upto(map: Seq<(u64, ItemV)>, pik: ItemKindV, nm: Seq<char>, n: int) -> bool
    decreases n,
{
    if n <= 0 {
        false
    } else {
        plain_upto(map, pik, nm, n - 1) || entry_plain(map[n - 1].1, pik, nm)
    }
}

pub open spec fn marked_upto(
    map: Seq<(u64, ItemV)>,
    pik: ItemKindV,
    pi_id: u64,
    nm: Seq<char>,
    del: Seq<u64>,
    n: int,
) -> bool
    decreases n,
{
    if n <= 0 {
        false
    } else {
        marked_upto(map, pik, pi_id, nm, del, n - 1) || entry_marked(
            map[n - 1].1,
            pik,
            pi_id,
            nm,
            del,
        )
    }
}

/// The declaration's name already exists in a container that structurally
/// encloses its block.
pub open spec fn foreign_drop_plain(map: Seq<(u64, ItemV)>, pik: ItemKindV, nm: Seq<char>) -> bool {
    plain_upto(map, pik, nm, map.len() as int)
}

/// The declaration's name already exists, unmarked, in another foreign
/// block of an enclosing container.
pub open spec fn foreign_drop_marked(
    map: Seq<(u64, ItemV)>,
    pik: ItemKindV,
    pi_id: u64,
    nm: Seq<char>,
    del: Seq<u64>,
) -> bool {
    marked_upto(map, pik, pi_id, nm, del, map.len() as int)
}

/// One foreign block filtered left to right, threading the deleted-marks
/// list so the same logical duplicate is never deleted twice.
pub open spec fn purge_foreign_list(
    map: Seq<(u64, ItemV)>,
    pik: ItemKindV,
    pi_id: u64,
    fs: Seq<ForeignItemV>,
    del: Seq<u64>,
) -> (Seq<ForeignItemV>, Seq<u64>)
    decreases fs,
{
    if fs.len() == 0 {
        (Seq::empty(), del)
    } else {
        let pr = purge_foreign_list(map, pik, pi_id, fs.drop_last(), del);
        let f = fs.last();
        let plainly = foreign_drop_plain(map, pik, f.ident);
        let marked = foreign_drop_marked(map, pik, pi_id, f.ident, pr.1);
        let d2 = if marked {
            pr.1.push(f.id)
        } else {
            pr.1
        };
        if plainly || marked {
            (pr.0, d2)
        } else {
            (pr.0.push(f), d2)
        }
    }
}

/// The purge over one item and everything below it, left to right.
pub open spec fn purge_foreign_item_spec(map: Seq<(u64, ItemV)>, it: ItemV, del: Seq<u64>) -> (
    ItemV,
    Seq<u64>,
)
    decreases it,
{
    match it.kind {
        ItemKindV::ForeignMod(fs) => {
            let r = purge_foreign_list(map, it.kind, it.id, fs, del);
            (ItemV { kind: ItemKindV::ForeignMod(r.0), ..it }, r.1)
        },
        ItemKindV::Mod(kids) => {
            let r = purge_foreign_items_spec(map, kids, del);
            (ItemV { kind: ItemKindV::Mod(r.0), ..it }, r.1)
        },
        _ => (it, del),
    }
}

pub open spec fn purge_foreign_items_spec(
    map: Seq<(u64, ItemV)>,
    s: Seq<ItemV>,
    del: Seq<u64>,
) -> (Seq<ItemV>, Seq<u64>)
    decreases s,
{
    if s.len() == 0 {
        (Seq::empty(), del)
    } else {
        let pr = purge_foreign_items_spec(map, s.drop_last(), del);
        let li = purge_foreign_item_spec(map, s.last(), pr.1);
        (pr.0.push(li.0), li.1)
    }
}

pub open spec fn purge_foreign_krate_spec(map: Seq<(u64, ItemV)>, kv: KrateV) -> KrateV {
    KrateV { root: purge_foreign_item_spec(map, kv.root, Seq::empty()).0 }
}

fn del_contains(del: &Vec<u64>, x: u64) -> (r: bool)
    ensures
        r == del@.contains(x),
{
    let mut i: usize = 0;
    while i < del.len()
        invariant
            i <= del@.len(),
            forall|j: int| 0 <= j < i ==> del@[j] != x,
        decreases del@.len() - i,
    {
        if del[i] == x {
            return true;
        }
        i += 1;
    }
    false
}

fn kids_name_hit_exec(kids: &Vec<Item>, nm: &String) -> (r: bool)
    ensures
        r == kids_name_hit(items_view(kids@), nm@),
{
    proof {
        lemma_items_view(kids@);
    }
    let mut i: usize = 0;
    while i < kids.len()
        invariant
            i <= kids@.len(),
            items_view(kids@).len() == kids@.len(),
            forall|j: int| 0 <= j < kids@.len() ==> items_view(kids@)[j] == item_view(kids@[j]),
            forall|j: int| 0 <= j < i ==> (#[trigger] items_view(kids@)[j]).ident != nm@,
        decreases kids@.len() - i,
    {
        if kids[i].ident == *nm {
            proof {
                assert(items_view(kids@)[i as int].ident == nm@);
            }
            return true;
        }
        i += 1;
    }
    false
}

fn fm_items_hit_exec(fs: &Vec<ForeignItem>, nm: &String, del: &Vec<u64>) -> (r: bool)
    ensures
        r == fm_items_hit(crate::ast::foreigns_view(fs@), nm@, del@),
{
    let mut i: usize = 0;
    while i < fs.len()
        invariant
            i <= fs@.len(),
            forall|j: int|
                0 <= j < i ==> !((#[trigger] crate::ast::foreigns_view(fs@)[j]).ident == nm@
                    && !del@.contains(crate::ast::foreigns_view(fs@)[j].id)),
        decreases fs@.len() - i,
    {
        if fs[i].ident == *nm {
            if !del_contains(del, fs[i].id) {
                proof {
                    assert(crate::ast::foreigns_view(fs@)[i as int].ident == nm@);
                }
                return true;
            }
        }
        i += 1;
    }
    false
}

fn kids_fm_hit_exec(kids: &Vec<Item>, pi_id: u64, nm: &String, del: &Vec<u64>) -> (r: bool)
    ensures
        r == kids_fm_hit(items_view(kids@), pi_id, nm@, del@),
{
    proof {
        lemma_items_view(kids@);
    }
    let mut i: usize = 0;
    while i < kids.len()
        invariant
            i <= kids@.len(),
            items_view(kids@).len() == kids@.len(),
            forall|j: int| 0 <= j < kids@.len() ==> items_view(kids@)[j] == item_view(kids@[j]),
            forall|j: int|
                0 <= j < i ==> !((#[trigger] items_view(kids@)[j]).kind is ForeignMod
                    && items_view(kids@)[j].id != pi_id && fm_items_hit(
                    items_view(kids@)[j].kind->ForeignMod_0,
                    nm@,
                    del@,
                )),
        decreases kids@.len() - i,
    {
        match &kids[i].kind {
            ItemKind::ForeignMod(fs) => {
                if kids[i].id != pi_id {
                    if fm_items_hit_exec(fs, nm, del) {
                        proof {
                            assert(items_view(kids@)[i as int].kind is ForeignMod);
                            assert(items_view(kids@)[i as int].kind->ForeignMod_0
                                == crate::ast::foreigns_view(fs@));
                        }
                        return true;
                    }
                }
            },
            _ => {},
        }
        i += 1;
    }
    false
}

/// Whether a foreign declaration named `nm` in the block `(pik, pi_id)` is
/// dropped: plainly (an enclosing container holds the name as a sibling) or
/// with a mark (another foreign block of an enclosing container holds it
/// unmarked).
fn foreign_flags(map: &ItemMap, pik: &ItemKind, pi_id: u64, nm: &String, del: &Vec<u64>) -> (r: (
    bool,
    bool,
))
    requires
        map.wf(),
    ensures
        r.0 == foreign_drop_plain(map@, kind_view(*pik), nm@),
        r.1 == foreign_drop_marked(map@, kind_view(*pik), pi_id, nm@, del@),
{
    let mut plain = false;
    let mut marked = false;
    let n = map.len();
    let mut i: usize = 0;
    while i < n
        invariant
            i <= n,
            map.wf(),
            n == map@.len(),
            plain == plain_upto(map@, kind_view(*pik), nm@, i as int),
            marked == marked_upto(map@, kind_view(*pik), pi_id, nm@, del@, i as int),
        decreases n - i,
    {
        let (_eid, m) = map.entry_at(i);
        let cfm = mod_contains_equiv(m, pik);
        if cfm {
            match &m.kind {
                ItemKind::Mod(kids) => {
                    if kids_name_hit_exec(kids, nm) {
                        plain = true;
                    }
                    if kids_fm_hit_exec(kids, pi_id, nm, del) {
                        marked = true;
                    }
                    proof {
                        assert(item_view(*m).kind->Mod_0 == items_view(kids@));
                    }
                },
                _ => {
                    proof {
                        assert(false);
                    }
                },
            }
        }
        proof {
            assert(map@[i as int].1 == item_view(*m));
        }
        i += 1;
    }
    (plain, marked)
}

fn purge_foreign_fs(
    map: &ItemMap,
    pik: &ItemKind,
    pi_id: u64,
    fs: &Vec<ForeignItem>,
    del: &mut Vec<u64>,
) -> (r: Vec<ForeignItem>)
    requires
        map.wf(),
    ensures
        crate::ast::foreigns_view(r@) == purge_foreign_list(
            map@,
            kind_view(*pik),
            pi_id,
            crate::ast::foreigns_view(fs@),
            old(del)@,
        ).0,
        final(del)@ == purge_foreign_list(
            map@,
            kind_view(*pik),
            pi_id,
            crate::ast::foreigns_view(fs@),
            old(del)@,
        ).1,
{
    let ghost fsv = crate::ast::foreigns_view(fs@);
    let ghost del0 = del@;
    let mut r: Vec<ForeignItem> = Vec::new();
    proof {
        assert(fsv.subrange(0, 0) =~= Seq::<ForeignItemV>::empty());
        assert(crate::ast::foreigns_view(r@) =~= Seq::<ForeignItemV>::empty());
    }
    let mut i: usize = 0;
    while i < fs.len()
        invariant
            i <= fs@.len(),
            map.wf(),
            fsv == crate::ast::foreigns_view(fs@),
            fsv.len() == fs@.len(),
            crate::ast::foreigns_view(r@) == purge_foreign_list(
                map@,
                kind_view(*pik),
                pi_id,
                fsv.subrange(0, i as int),
                del0,
            ).0,
            del@ == purge_foreign_list(
                map@,
                kind_view(*pik),
                pi_id,
                fsv.subrange(0, i as int),
                del0,
            ).1,
        decreases fs@.len() - i,
    {
        proof {
            assert(fsv.subrange(0, i + 1 as int).last() == fsv[i as int]);
            assert(fsv.subrange(0, i + 1 as int).drop_last() =~= fsv.subrange(0, i as int));
            assert(fsv[i as int] == crate::ast::foreign_view(fs@[i as int]));
        }
        let (plain, marked) = foreign_flags(map, pik, pi_id, &fs[i].ident, del);
        if marked {
            del.push(fs[i].id);
        }
        if !(plain || marked) {
            let c = ForeignItem {
                id: fs[i].id,
                ident: fs[i].ident.clone(),
                decl: fs[i].decl.clone(),
            };
            let ghost rp = r@;
            r.push(c);
            proof {
                assert(crate::ast::foreigns_view(r@) =~= crate::ast::foreigns_view(rp).push(
                    crate::ast::foreign_view(c),
                ));
            }
        }
        i += 1;
    }
    proof {
        assert(fsv.subrange(0, fsv.len() as int) =~= fsv);
    }
    r
}

#[verifier::loop_isolation(false)]
fn purge_foreign_item_exec(map: &ItemMap, it: &Item, del: &mut Vec<u64>) -> (r: Item)
    requires
        map.wf(),
    ensures
        item_view(r) == purge_foreign_item_spec(map@, item_view(*it), old(del)@).0,
        final(del)@ == purge_foreign_item_spec(map@, item_view(*it), old(del)@).1,
    decreases *it,
{
    match &it.kind {
        ItemKind::ForeignMod(fs) => {
            let nfs = purge_foreign_fs(map, &it.kind, it.id, fs, del);
            Item {
                id: it.id,
                ident: it.ident.clone(),
                attrs: copy_attrs(&it.attrs),
                kind: ItemKind::ForeignMod(nfs),
            }
        },
        ItemKind::Mod(kids) => {
            proof {
                lemma_items_view(kids@);
            }
            let ghost kv = items_view(kids@);
            let ghost del0 = del@;
            let mut r: Vec<Item> = Vec::new();
            proof {
                assert(kv.subrange(0, 0) =~= Seq::<ItemV>::empty());
                assert(items_view(r@) =~= Seq::<ItemV>::empty());
            }
            let mut i: usize = 0;
            while i < kids.len()
                invariant
                    i <= kids@.len(),
                    map.wf(),
                    kv == items_view(kids@),
                    kv.len() == kids@.len(),
                    forall|j: int| 0 <= j < kids@.len() ==> kv[j] == item_view(kids@[j]),
                    items_view(r@) == purge_foreign_items_spec(
                        map@,
                        kv.subrange(0, i as int),
                        del0,
                    ).0,
                    del@ == purge_foreign_items_spec(map@, kv.subrange(0, i as int), del0).1,
                decreases kids@.len() - i,
            {
                proof {
                    assert(kv.subrange(0, i + 1 as int).last() == kv[i as int]);
                    assert(kv.subrange(0, i + 1 as int).drop_last() =~= kv.subrange(0, i as int));
                }
                let c = purge_foreign_item_exec(map, &kids[i], del);
                let ghost rp = r@;
                r.push(c);
                proof {
                    assert(r@.drop_last() =~= rp);
                    assert(r@.last() == c);
                    assert(items_view(r@) == items_view(rp).push(item_view(c)));
                }
                i += 1;
            }
            proof {
                assert(kv.subrange(0, kv.len() as int) =~= kv);
            }
            Item {
                id: it.id,
                ident: it.ident.clone(),
                attrs: copy_attrs(&it.attrs),
                kind: ItemKind::Mod(r),
            }
        },
        _ => copy_item(it),
    }
}

/// Pass 7: for each foreign block, drops any declaration whose name already
/// exists in the container that structurally encloses the block, or in a
/// different foreign block not previously marked deleted.
pub fn purge_foreign_krate(map: &ItemMap, k: &Krate) -> (r: Krate)
    requires
        map.wf(),
    ensures
        krate_view(r) == purge_foreign_krate_spec(map@, krate_view(*k)),
{
    let mut del: Vec<u64> = Vec::new();
    proof {
        assert(del@ =~= Seq::<u64>::empty());
    }
    let root = purge_foreign_item_exec(map, &k.root, &mut del);
    Krate { root }
}

// ------------------------------------------------------------------
// Pass 8: dead-import purge
// ------------------------------------------------------------------

/// A real declaration whose presence makes an import of the same name
/// redundant.
pub open spec fn is_decl(c: ItemV) -> bool {
    c.kind is TyAlias || c.kind is Fn || c.kind is Struct
}

/// The import's path prefix names an identifier equal to a sibling
/// declaration of the same container.
pub open spec fn import_dead(kids: Seq<ItemV>, k: ItemV) -> bool {
    k.kind is Use && exists|ci: int, si: int|
        #![trigger kids[ci], k.kind->Use_0.segments[si]]
        0 <= ci < kids.len() && is_decl(kids[ci]) && 0 <= si < k.kind->Use_0.segments.len()
            && k.kind->Use_0.segments[si] == kids[ci].ident
}

pub open spec fn purge_imports_filter(orig: Seq<ItemV>, s: Seq<ItemV>) -> Seq<ItemV>
    decreases s,
{
    if s.len() == 0 {
        Seq::empty()
    } else {
        let p = purge_imports_filter(orig, s.drop_last());
        if import_dead(orig, s.last()) {
            p
        } else {
            p.push(purge_imports_item_spec(s.last()))
        }
    }
}

pub open spec fn purge_imports_item_spec(it: ItemV) -> ItemV
    decreases it,
{
    match it.kind {
        ItemKindV::Mod(kids) => ItemV {
            kind: ItemKindV::Mod(purge_imports_filter(kids, kids)),
            ..it
        },
        _ => it,
    }
}

pub open spec fn purge_imports_krate_spec(kv: KrateV) -> KrateV {
    KrateV { root: purge_imports_item_spec(kv.root) }
}

#[verifier::loop_isolation(false)]
fn import_dead_exec(kids: &Vec<Item>, k: &Item) -> (r: bool)
    ensures
        r == import_dead(items_view(kids@), item_view(*k)),
{
    proof {
        lemma_items_view(kids@);
    }
    match &k.kind {
        ItemKind::Use(p) => {
            let ghost kv = items_view(kids@);
            let ghost pv = item_view(*k).kind->Use_0;
            proof {
                assert(pv.segments.len() == p.segments@.len());
                assert(forall|t: int|
                    0 <= t < p.segments@.len() ==> pv.segments[t] == p.segments@[t]@);
            }
            let mut ci: usize = 0;
            while ci < kids.len()
                invariant
                    ci <= kids@.len(),
                    kv == items_view(kids@),
                    kv.len() == kids@.len(),
                    forall|j: int| 0 <= j < kids@.len() ==> kv[j] == item_view(kids@[j]),
                    pv == item_view(*k).kind->Use_0,
                    pv.segments.len() == p.segments@.len(),
                    forall|t: int|
                        0 <= t < p.segments@.len() ==> pv.segments[t] == p.segments@[t]@,
                    forall|c: int, s2: int|
                        #![trigger kv[c], pv.segments[s2]]
                        0 <= c < ci && 0 <= s2 < pv.segments.len() ==> !(is_decl(kv[c])
                            && pv.segments[s2] == kv[c].ident),
                decreases kids@.len() - ci,
            {
                let declish = match &kids[ci].kind {
                    ItemKind::TyAlias(_) => true,
                    ItemKind::Fn(_) => true,
                    ItemKind::Struct(_) => true,
                    _ => false,
                };
                if declish {
                    let mut si: usize = 0;
                    while si < p.segments.len()
                        invariant
                            si <= p.segments@.len(),
                            ci < kids@.len(),
                            kv == items_view(kids@),
                            kv.len() == kids@.len(),
                            forall|j: int| 0 <= j < kids@.len() ==> kv[j] == item_view(kids@[j]),
                            pv == item_view(*k).kind->Use_0,
                            pv.segments.len() == p.segments@.len(),
                            forall|t: int|
                                0 <= t < p.segments@.len() ==> pv.segments[t] == p.segments@[t]@,
                            forall|s2: int|
                                0 <= s2 < si ==> #[trigger] pv.segments[s2] != kv[
                                    ci as int
                                ].ident,
                        decreases p.segments@.len() - si,
                    {
                        if p.segments[si] == kids[ci].ident {
                            proof {
                                assert(is_decl(kv[ci as int]));
                                assert(pv.segments[si as int] == kv[ci as int].ident);
                            }
                            return true;
                        }
                        si += 1;
                    }
                }
                ci += 1;
            }
            false
        },
        _ => false,
    }
}

#[verifier::loop_isolation(false)]
fn purge_imports_item(it: &Item) -> (r: Item)
    ensures
        item_view(r) == purge_imports_item_spec(item_view(*it)),
    decreases *it,
{
    match &it.kind {
        ItemKind::Mod(kids) => {
            proof {
                lemma_items_view(kids@);
            }
            let ghost kv = items_view(kids@);
            let mut r: Vec<Item> = Vec::new();
            proof {
                assert(kv.subrange(0, 0) =~= Seq::<ItemV>::empty());
                assert(items_view(r@) =~= purge_imports_filter(kv, kv.subrange(0, 0)));
            }
            let mut i: usize = 0;
            while i < kids.len()
                invariant
                    i <= kids@.len(),
                    kv == items_view(kids@),
                    kv.len() == kids@.len(),
                    forall|j: int| 0 <= j < kids@.len() ==> kv[j] == item_view(kids@[j]),
                    items_view(r@) == purge_imports_filter(kv, kv.subrange(0, i as int)),
                decreases kids@.len() - i,
            {
                proof {
                    assert(kv.subrange(0, i + 1 as int).last() == kv[i as int]);
                    assert(kv.subrange(0, i + 1 as int).drop_last() =~= kv.subrange(0, i as int));
                }
                if !import_dead_exec(kids, &kids[i]) {
                    let c = purge_imports_item(&kids[i]);
                    let ghost rp = r@;
                    r.push(c);
                    proof {
                        assert(r@.drop_last() =~= rp);
                        assert(r@.last() == c);
                        assert(items_view(r@) == items_view(rp).push(item_view(c)));
                    }
                }
                i += 1;
            }
            proof {
                assert(kv.subrange(0, kv.len() as int) =~= kv);
            }
            Item {
                id: it.id,
                ident: it.ident.clone(),
                attrs: copy_attrs(&it.attrs),
                kind: ItemKind::Mod(r),
            }
        },
        _ => copy_item(it),
    }
}

/// Pass 8: within every container, drops any import whose path prefix names
/// an identifier equal to a sibling declaration of that container.
pub fn purge_imports_krate(k: &Krate) -> (r: Krate)
    ensures
        krate_view(r) == purge_imports_krate_spec(krate_view(*k)),
{
    Krate { root: purge_imports_item(&k.root) }
}


// ------------------------------------------------------------------
// Re-running on a merged tree
// ------------------------------------------------------------------

/// Law: renaming under an empty rename table changes nothing.
pub proof fn lemma_rename_empty_identity(it: ItemV)
    ensures
        rename_item_spec(Seq::<(Seq<char>, Seq<char>)>::empty(), it) == it,
    decreases it,
{
    let names = Seq::<(Seq<char>, Seq<char>)>::empty();
    match it.kind {
        ItemKindV::Mod(kids) => {
            lemma_rename_empty_items(kids);
        },
        ItemKindV::Fn(ps) => {
            assert forall|i: int| 0 <= i < ps.len() implies #[trigger] rename_paths_spec(
                names,
                ps,
            )[i] == ps[i] by {
                lemma_rename_empty_path(ps[i]);
            }
            assert(rename_paths_spec(names, ps) =~= ps);
        },
        ItemKindV::Use(p) => {
            lemma_rename_empty_path(p);
        },
        _ => {},
    }
}

proof fn lemma_rename_empty_path(p: PathV)
    ensures
        rename_path_spec(Seq::<(Seq<char>, Seq<char>)>::empty(), p) == p,
{
    let names = Seq::<(Seq<char>, Seq<char>)>::empty();
    assert(rename_path_spec(names, p).segments =~= p.segments);
}

proof fn lemma_rename_empty_items(s: Seq<ItemV>)
    ensures
        rename_items_spec(Seq::<(Seq<char>, Seq<char>)>::empty(), s) == s,
    decreases s,
{
    if s.len() > 0 {
        lemma_rename_empty_items(s.drop_last());
        lemma_rename_empty_identity(s.last());
        assert(rename_items_spec(Seq::<(Seq<char>, Seq<char>)>::empty(), s) =~= s);
    } else {
        assert(rename_items_spec(Seq::<(Seq<char>, Seq<char>)>::empty(), s) =~= s);
    }
}

/// Law: insertion under an empty merge plan changes nothing.
pub proof fn lemma_insert_empty_identity(map: Seq<(u64, ItemV)>, it: ItemV)
    ensures
        insert_item_spec(Seq::<(u64, Seq<u64>)>::empty(), map, it) == it,
    decreases it,
{
    let plan = Seq::<(u64, Seq<u64>)>::empty();
    match it.kind {
        ItemKindV::Mod(kids) => {
            lemma_insert_empty_items(map, kids);
            assert(!crate::planner::pm_has_key(plan, it.id));
            assert(kids + Seq::<ItemV>::empty() =~= kids);
        },
        _ => {},
    }
}

proof fn lemma_insert_empty_items(map: Seq<(u64, ItemV)>, s: Seq<ItemV>)
    ensures
        insert_items_spec(Seq::<(u64, Seq<u64>)>::empty(), map, s) == s,
    decreases s,
{
    if s.len() > 0 {
        lemma_insert_empty_items(map, s.drop_last());
        lemma_insert_empty_identity(map, s.last());
        assert(insert_items_spec(Seq::<(u64, Seq<u64>)>::empty(), map, s) =~= s);
    } else {
        assert(insert_items_spec(Seq::<(u64, Seq<u64>)>::empty(), map, s) =~= s);
    }
}

/// No container of the subtree carries a generated or standard-library
/// marker.
pub open spec fn tree_unmarked(it: ItemV) -> bool
    decreases it,
{
    !generated_marked(it) && match it.kind {
        ItemKindV::Mod(kids) => forall|i: int|
            0 <= i < kids.len() ==> tree_unmarked(#[trigger] kids[i]),
        _ => true,
    }
}

/// Law: deleting generated containers from a tree that holds none changes
/// nothing.
pub proof fn lemma_purge_gen_unmarked_identity(it: ItemV)
    requires
        tree_unmarked(it),
    ensures
        purge_gen_item_spec(it) == it,
    decreases it,
{
    match it.kind {
        ItemKindV::Mod(kids) => {
            lemma_purge_gen_unmarked_items(kids);
        },
        _ => {},
    }
}

proof fn lemma_purge_gen_unmarked_items(s: Seq<ItemV>)
    requires
        forall|i: int| 0 <= i < s.len() ==> tree_unmarked(#[trigger] s[i]),
    ensures
        purge_gen_items_spec(s) == s,
    decreases s,
{
    if s.len() > 0 {
        lemma_purge_gen_unmarked_items(s.drop_last());
        lemma_purge_gen_unmarked_identity(s.last());
        assert(purge_gen_items_spec(s) =~= s);
    } else {
        assert(purge_gen_items_spec(s) =~= s);
    }
}

} // verus!
