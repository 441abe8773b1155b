//! The whole transform: snapshot, classify, match, plan, and the fixed
//! rewrite sequence.

use vstd::prelude::*;
use crate::ast::{Item, ItemKind, ItemKindV, ItemV, Krate, KrateV, item_view, items_view,
    krate_view, lemma_items_view};
use crate::classify::{has_source_header_spec, is_std_spec};
use crate::maps::{dm_insert, im_lookup, nm_insert};
use crate::matcher::{comparison_name, find_dest, match_modules};
use crate::planner::{clean_module_items, plan_spec};
use crate::rewrite::{
    cleanse_krate, cleanse_krate_spec, extend_krate, extend_krate_spec, insert_krate,
    insert_krate_spec, purge_foreign_krate, purge_foreign_krate_spec, purge_gen_krate,
    purge_gen_krate_spec, purge_imports_krate, purge_imports_krate_spec, rename_krate,
    rename_krate_spec,
};
use crate::store::{ModuleInformation, collect_item, snapshot_krate, store_item_view};

verus! {

/// The pipeline phase a transform must not run before: this one depends on
/// earlier phases having produced stable node identities and attribute
/// metadata.
#[derive(PartialEq, Eq, Structural)]
pub enum Phase {
    Phase1,
    Phase2,
    Phase3,
}

/// The matcher and rename state: the destination map and the rename map.
pub type MatchState = (Seq<(u64, u64)>, Seq<(Seq<char>, Seq<char>)>);

/// The state after deciding one `(child of parent)` pairing.
pub open spec fn match_step(
    kv: KrateV,
    map: Seq<(u64, ItemV)>,
    child_id: u64,
    parent_id: u64,
    st: MatchState,
    file: Seq<char>,
    stdlib_id: u64,
) -> MatchState {
    match im_lookup(map, parent_id) {
        None => st,
        Some(p) => if is_std_spec(p.attrs) {
            (dm_insert(st.0, child_id, stdlib_id), nm_insert(st.1, p.ident, "stdlib"@))
        } else if has_source_header_spec(p.attrs) {
            match find_dest(kv, p.ident, file) {
                Some(cv) => (
                    dm_insert(st.0, child_id, cv.id),
                    nm_insert(st.1, p.ident, comparison_name(cv.ident, file)),
                ),
                None => st,
            }
        } else {
            st
        },
    }
}

/// Law: provenance routing.  A container classified standard-library is
/// always routed to the reserved synthetic stdlib destination, never to a
/// name-matched one.
pub proof fn lemma_provenance_routing(
    kv: KrateV,
    map: Seq<(u64, ItemV)>,
    child_id: u64,
    parent_id: u64,
    st: MatchState,
    file: Seq<char>,
    stdlib_id: u64,
)
    requires
        crate::maps::dm_unique(st.0),
        im_lookup(map, parent_id) is Some,
        is_std_spec(im_lookup(map, parent_id)->Some_0.attrs),
    ensures
        crate::maps::dm_lookup(
            match_step(kv, map, child_id, parent_id, st, file, stdlib_id).0,
            child_id,
        ) == Some(stdlib_id),
{
    crate::maps::lemma_dm_insert(st.0, child_id, stdlib_id);
}

/// All pairings of one container's direct children, in order.
pub open spec fn match_pairs(
    kv: KrateV,
    map: Seq<(u64, ItemV)>,
    kids: Seq<ItemV>,
    parent_id: u64,
    st: MatchState,
    file: Seq<char>,
    stdlib_id: u64,
) -> MatchState
    decreases kids,
{
    if kids.len() == 0 {
        st
    } else {
        match_step(
            kv,
            map,
            kids.last().id,
            parent_id,
            match_pairs(kv, map, kids.drop_last(), parent_id, st, file, stdlib_id),
            file,
            stdlib_id,
        )
    }
}

/// The matching walk over one item: its own children's pairings first, then
/// each child's subtree, left to right.
pub open spec fn match_tree_item(
    kv: KrateV,
    map: Seq<(u64, ItemV)>,
    it: ItemV,
    st: MatchState,
    file: Seq<char>,
    stdlib_id: u64,
) -> MatchState
    decreases it,
{
    match it.kind {
        ItemKindV::Mod(kids) => match_tree_items(
            kv,
            map,
            kids,
            match_pairs(kv, map, kids, it.id, st, file, stdlib_id),
            file,
            stdlib_id,
        ),
        _ => st,
    }
}

pub open spec fn match_tree_items(
    kv: KrateV,
    map: Seq<(u64, ItemV)>,
    kids: Seq<ItemV>,
    st: MatchState,
    file: Seq<char>,
    stdlib_id: u64,
) -> MatchState
    decreases kids,
{
    if kids.len() == 0 {
        st
    } else {
        match_tree_item(
            kv,
            map,
            kids.last(),
            match_tree_items(kv, map, kids.drop_last(), st, file, stdlib_id),
            file,
            stdlib_id,
        )
    }
}

/// Runs the matcher over every container of the tree, visiting a
/// container's own children before descending into them.
#[verifier::loop_isolation(false)]
fn run_matching(krate: &Krate, it: &Item, mod_info: &mut ModuleInformation, source_file: &String)
    requires
        old(mod_info).wf(),
        krate.root.kind is Mod,
    ensures
        final(mod_info).wf(),
        final(mod_info).item_map == old(mod_info).item_map,
        final(mod_info).stdlib_id == old(mod_info).stdlib_id,
        (final(mod_info).decl_destination_mod@, final(mod_info).new_names@) == match_tree_item(
            krate_view(*krate),
            old(mod_info).item_map@,
            item_view(*it),
            (old(mod_info).decl_destination_mod@, old(mod_info).new_names@),
            source_file@,
            old(mod_info).stdlib_id,
        ),
    decreases *it,
{
    let ghost kv = krate_view(*krate);
    let ghost map = old(mod_info).item_map@;
    let ghost st0: MatchState = (
        old(mod_info).decl_destination_mod@,
        old(mod_info).new_names@,
    );
    let ghost file = source_file@;
    let ghost sid = old(mod_info).stdlib_id;
    match &it.kind {
        ItemKind::Mod(kids) => {
            proof {
                lemma_items_view(kids@);
                assert(item_view(*it).kind->Mod_0 == items_view(kids@));
            }
            let ghost kidsv = items_view(kids@);
            let mut i: usize = 0;
            proof {
                assert(kidsv.subrange(0, 0) =~= Seq::<ItemV>::empty());
            }
            while i < kids.len()
                invariant
                    i <= kids@.len(),
                    mod_info.wf(),
                    mod_info.item_map == old(mod_info).item_map,
                    mod_info.stdlib_id == sid,
                    (mod_info.decl_destination_mod@, mod_info.new_names@) == match_pairs(
                        kv,
                        map,
                        kidsv.subrange(0, i as int),
                        it.id,
                        st0,
                        file,
                        sid,
                    ),
                decreases kids@.len() - i,
            {
                proof {
                    assert(kidsv.subrange(0, i + 1 as int).last() == kidsv[i as int]);
                    assert(kidsv.subrange(0, i + 1 as int).drop_last() =~= kidsv.subrange(
                        0,
                        i as int,
                    ));
                }
                match_modules(krate, kids[i].id, it.id, mod_info, source_file);
                i += 1;
            }
            proof {
                assert(kidsv.subrange(0, kidsv.len() as int) =~= kidsv);
            }
            let ghost st1: MatchState = (mod_info.decl_destination_mod@, mod_info.new_names@);
            let mut j: usize = 0;
            proof {
                assert(kidsv.subrange(0, 0) =~= Seq::<ItemV>::empty());
            }
            while j < kids.len()
                invariant
                    j <= kids@.len(),
                    mod_info.wf(),
                    mod_info.item_map == old(mod_info).item_map,
                    mod_info.stdlib_id == sid,
                    (mod_info.decl_destination_mod@, mod_info.new_names@) == match_tree_items(
                        kv,
                        map,
                        kidsv.subrange(0, j as int),
                        st1,
                        file,
                        sid,
                    ),
                decreases kids@.len() - j,
            {
                proof {
                    assert(kidsv.subrange(0, j + 1 as int).last() == kidsv[j as int]);
                    assert(kidsv.subrange(0, j + 1 as int).drop_last() =~= kidsv.subrange(
                        0,
                        j as int,
                    ));
                }
                run_matching(krate, &kids[j], mod_info, source_file);
                j += 1;
            }
            proof {
                assert(kidsv.subrange(0, kidsv.len() as int) =~= kidsv);
            }
        },
        _ => {},
    }
}

/// The whole transform as one function of the input tree, the reserved
/// stdlib identity and the unit's base file name.
pub open spec fn transform_spec(kv: KrateV, stdlib_id: u64, file: Seq<char>) -> KrateV {
    let k1 = cleanse_krate_spec(kv);
    let map = store_item_view(Seq::<(u64, ItemV)>::empty(), k1.root);
    let st = match_tree_item(
        k1,
        map,
        k1.root,
        (Seq::<(u64, u64)>::empty(), Seq::<(Seq<char>, Seq<char>)>::empty()),
        file,
        stdlib_id,
    );
    let plan = plan_spec(map, st.0);
    let k2 = insert_krate_spec(plan, map, k1);
    let k3 = extend_krate_spec(plan, map, k2, stdlib_id);
    let k4 = rename_krate_spec(st.1, k3);
    let k5 = purge_gen_krate_spec(k4);
    let map2 = store_item_view(Seq::<(u64, ItemV)>::empty(), k5.root);
    let k6 = purge_foreign_krate_spec(map2, k5);
    purge_imports_krate_spec(k6)
}

/// Collapses the structure an upstream C-to-Rust transpiler leaves behind:
/// header-generated containers are matched to their destinations, their
/// declarations merged without structural duplicates, standard-library
/// declarations corralled into one synthetic `stdlib` container, references
/// renamed, and dead imports and duplicated foreign blocks removed.
pub struct ReorganizeModules;

impl ReorganizeModules {
    /// Runs the fixed pass sequence over one compilation unit.  `stdlib_id`
    /// is the identity reserved for the synthetic stdlib container; it is
    /// expected to be allocated from a namespace disjoint from every
    /// identity already in the tree.  `source_file` is the unit's base file
    /// name, substituted for the crate root's empty identifier during
    /// matching.
    pub fn transform(&self, krate: Krate, stdlib_id: u64, source_file: &String) -> (r: Krate)
        requires
            krate.root.kind is Mod,
        ensures
            krate_view(r) == transform_spec(krate_view(krate), stdlib_id, source_file@),
    {
        let k1 = cleanse_krate(&krate);
        proof {
            assert(item_view(k1.root).kind is Mod);
            assert(k1.root.kind is Mod);
        }
        let mut mod_info = ModuleInformation::new(stdlib_id);
        mod_info.item_map = snapshot_krate(&k1);
        run_matching(&k1, &k1.root, &mut mod_info, source_file);
        let plan = clean_module_items(&mod_info);
        let k2 = insert_krate(&plan, &mod_info.item_map, &k1);
        proof {
            assert(item_view(k2.root).kind is Mod);
            assert(k2.root.kind is Mod);
        }
        let k3 = extend_krate(&plan, &mod_info.item_map, k2, stdlib_id);
        let k4 = rename_krate(&mod_info.new_names, &k3);
        let k5 = purge_gen_krate(&k4);
        mod_info.item_map.clear();
        collect_item(&mut mod_info.item_map, &k5.root);
        let k6 = purge_foreign_krate(&mod_info.item_map, &k5);
        let k7 = purge_imports_krate(&k6);
        k7
    }

    /// The earliest pipeline phase this transform may run in.
    pub fn min_phase(&self) -> (r: Phase)
        ensures
            r == (Phase::Phase3),
    {
        Phase::Phase3
    }
}


/// No entry of the snapshot is a generated or standard-library container.
pub open spec fn map_unmarked(map: Seq<(u64, ItemV)>) -> bool {
    forall|i: int|
        0 <= i < map.len() ==> !is_std_spec((#[trigger] map[i]).1.attrs)
            && !has_source_header_spec(map[i].1.attrs)
}

proof fn lemma_unmarked_step(
    kv: KrateV,
    map: Seq<(u64, ItemV)>,
    child_id: u64,
    parent_id: u64,
    st: MatchState,
    file: Seq<char>,
    stdlib_id: u64,
)
    requires
        map_unmarked(map),
    ensures
        match_step(kv, map, child_id, parent_id, st, file, stdlib_id) == st,
{
    if im_lookup(map, parent_id) is Some {
        let i = crate::maps::im_key_at(map, parent_id);
        assert(0 <= i < map.len() && map[i].0 == parent_id);
        assert(!is_std_spec(map[i].1.attrs) && !has_source_header_spec(map[i].1.attrs));
    }
}

proof fn lemma_unmarked_pairs(
    kv: KrateV,
    map: Seq<(u64, ItemV)>,
    kids: Seq<ItemV>,
    parent_id: u64,
    st: MatchState,
    file: Seq<char>,
    stdlib_id: u64,
)
    requires
        map_unmarked(map),
    ensures
        match_pairs(kv, map, kids, parent_id, st, file, stdlib_id) == st,
    decreases kids,
{
    if kids.len() > 0 {
        lemma_unmarked_pairs(kv, map, kids.drop_last(), parent_id, st, file, stdlib_id);
        lemma_unmarked_step(kv, map, kids.last().id, parent_id, st, file, stdlib_id);
    }
}

/// Law: on a tree whose snapshot holds no generated and no standard-library
/// container, the matching walk records no destination and no rename, so
/// the insertion, synthesis and renaming passes of a re-run act on empty
/// state.
pub proof fn lemma_unmarked_matches_nothing(
    kv: KrateV,
    map: Seq<(u64, ItemV)>,
    it: ItemV,
    st: MatchState,
    file: Seq<char>,
    stdlib_id: u64,
)
    requires
        map_unmarked(map),
    ensures
        match_tree_item(kv, map, it, st, file, stdlib_id) == st,
    decreases it,
{
    match it.kind {
        ItemKindV::Mod(kids) => {
            lemma_unmarked_pairs(kv, map, kids, it.id, st, file, stdlib_id);
            lemma_unmarked_items(kv, map, kids, st, file, stdlib_id);
        },
        _ => {},
    }
}

proof fn lemma_unmarked_items(
    kv: KrateV,
    map: Seq<(u64, ItemV)>,
    kids: Seq<ItemV>,
    st: MatchState,
    file: Seq<char>,
    stdlib_id: u64,
)
    requires
        map_unmarked(map),
    ensures
        match_tree_items(kv, map, kids, st, file, stdlib_id) == st,
    decreases kids,
{
    if kids.len() > 0 {
        lemma_unmarked_items(kv, map, kids.drop_last(), st, file, stdlib_id);
        lemma_unmarked_matches_nothing(kv, map, kids.last(), st, file, stdlib_id);
    }
}

} // verus!
