//! Matching a generated container to the destination it merges into.
//!
//! A standard-library container is routed to the reserved synthetic stdlib
//! identity and renamed `stdlib`.  Any other header-generated container is
//! matched against every top-level container of the unit (the root included)
//! that does not itself carry a source-header marker: the candidate's
//! comparison name — its identifier, or the unit's base file name when the
//! identifier is empty (the crate root) — must occur as a substring of the
//! generated container's identifier.  This is a naive containment heuristic;
//! when several candidates match, the last one scanned wins, the scan order
//! being the root first and then the top-level containers in tree order.

use vstd::prelude::*;
use crate::ast::{
    Item, ItemKind, ItemV, Krate, KrateV, item_view, items_view, krate_view, lemma_items_view,
};
use crate::classify::{has_source_header, has_source_header_spec, is_std, is_std_spec};
use crate::maps::{dm_insert, nm_insert};
use crate::store::ModuleInformation;
use crate::strutil::{contains_seq, contains_str};

verus! {

// ------------------------------------------------------------------
// Specification
// ------------------------------------------------------------------

/// The name a destination candidate is compared under: its identifier, or
/// the unit's base file name when the identifier is empty.
pub open spec fn comparison_name(ident: Seq<char>, source_file: Seq<char>) -> Seq<char> {
    if ident.len() == 0 {
        source_file
    } else {
        ident
    }
}

/// Law: a candidate with an empty identifier is compared under the source
/// unit's base file name, never under the empty string.
pub proof fn lemma_root_name_substitution(source_file: Seq<char>)
    requires
        source_file.len() > 0,
    ensures
        comparison_name(Seq::<char>::empty(), source_file) == source_file,
        comparison_name(Seq::<char>::empty(), source_file).len() > 0,
{
}

/// A destination candidate accepts the generated container `parent_ident`
/// when it is a container without a source-header marker whose comparison
/// name occurs in `parent_ident`.
pub open spec fn cand_matches(c: ItemV, parent_ident: Seq<char>, source_file: Seq<char>) -> bool {
    &&& c.kind is Mod
    &&& !has_source_header_spec(c.attrs)
    &&& contains_seq(parent_ident, comparison_name(c.ident, source_file))
}

/// The scan order of destination candidates: the root container first, then
/// every top-level item.
pub open spec fn candidates(kv: KrateV) -> Seq<ItemV> {
    seq![kv.root] + kv.root.kind->Mod_0
}

/// The last matching candidate in scan order, if any.
pub open spec fn last_match(
    cands: Seq<ItemV>,
    parent_ident: Seq<char>,
    source_file: Seq<char>,
) -> Option<ItemV>
    decreases cands,
{
    if cands.len() == 0 {
        None
    } else if cand_matches(cands.last(), parent_ident, source_file) {
        Some(cands.last())
    } else {
        last_match(cands.drop_last(), parent_ident, source_file)
    }
}

pub open spec fn find_dest(kv: KrateV, parent_ident: Seq<char>, source_file: Seq<char>) -> Option<
    ItemV,
> {
    last_match(candidates(kv), parent_ident, source_file)
}

// ------------------------------------------------------------------
// Executable matching
// ------------------------------------------------------------------

fn candidate_matches(c: &Item, parent_ident: &String, source_file: &String) -> (r: Option<String>)
    ensures
        match r {
            Some(nm) => cand_matches(item_view(*c), parent_ident@, source_file@) && nm@
                == comparison_name(item_view(*c).ident, source_file@),
            None => !cand_matches(item_view(*c), parent_ident@, source_file@),
        },
{
    let is_mod = match &c.kind {
        ItemKind::Mod(_) => true,
        _ => false,
    };
    if !is_mod {
        return None;
    }
    if has_source_header(&c.attrs) {
        return None;
    }
    let name: String = if c.ident.as_str().is_empty() {
        source_file.clone()
    } else {
        c.ident.clone()
    };
    if contains_str(parent_ident.as_str(), name.as_str()) {
        Some(name)
    } else {
        None
    }
}

/// Scans every candidate destination for the generated container named
/// `parent_ident`; the last matching candidate wins.
fn find_destination(krate: &Krate, parent_ident: &String, source_file: &String) -> (r: Option<
    (u64, String),
>)
    requires
        krate.root.kind is Mod,
    ensures
        match r {
            Some(p) => {
                &&& find_dest(krate_view(*krate), parent_ident@, source_file@) matches Some(cv)
                &&& find_dest(krate_view(*krate), parent_ident@, source_file@)->Some_0.id == p.0
                &&& comparison_name(
                    find_dest(krate_view(*krate), parent_ident@, source_file@)->Some_0.ident,
                    source_file@,
                ) == p.1@
            },
            None => find_dest(krate_view(*krate), parent_ident@, source_file@) is None,
        },
{
    let kids: &Vec<Item> = match &krate.root.kind {
        ItemKind::Mod(kids) => kids,
        ItemKind::ForeignMod(_) => {
            proof {
                assert(false);
            }
            return None;
        },
        ItemKind::Struct(_) => {
            proof {
                assert(false);
            }
            return None;
        },
        ItemKind::Fn(_) => {
            proof {
                assert(false);
            }
            return None;
        },
        ItemKind::TyAlias(_) => {
            proof {
                assert(false);
            }
            return None;
        },
        ItemKind::Use(_) => {
            proof {
                assert(false);
            }
            return None;
        },
    };
    let ghost cands = candidates(krate_view(*krate));
    proof {
        lemma_items_view(kids@);
        assert(cands.len() == 1 + kids@.len());
        assert(cands[0] == item_view(krate.root));
        assert(forall|j: int| 0 < j < cands.len() ==> cands[j] == items_view(kids@)[j - 1]);
    }
    let mut found: Option<(u64, String)> = None;
    proof {
        assert(cands.subrange(0, 0) =~= Seq::<ItemV>::empty());
    }
    let m0 = candidate_matches(&krate.root, parent_ident, source_file);
    proof {
        let post = cands.subrange(0, 1);
        assert(post.last() == cands[0]);
        assert(post.drop_last() =~= Seq::<ItemV>::empty());
        assert(last_match(Seq::<ItemV>::empty(), parent_ident@, source_file@) is None);
    }
    match m0 {
        Some(nm) => {
            found = Some((krate.root.id, nm));
        },
        None => {},
    }
    let mut i: usize = 0;
    while i < kids.len()
        invariant
            i <= kids@.len(),
            krate.root.kind is Mod,
            cands == candidates(krate_view(*krate)),
            cands.len() == 1 + kids@.len(),
            forall|j: int| 0 < j < cands.len() ==> cands[j] == item_view(kids@[j - 1]),
            match found {
                Some(p) => {
                    &&& last_match(cands.subrange(0, i + 1 as int), parent_ident@, source_file@)
                        matches Some(cv)
                    &&& last_match(
                        cands.subrange(0, i + 1 as int),
                        parent_ident@,
                        source_file@,
                    )->Some_0.id == p.0
                    &&& comparison_name(
                        last_match(
                            cands.subrange(0, i + 1 as int),
                            parent_ident@,
                            source_file@,
                        )->Some_0.ident,
                        source_file@,
                    ) == p.1@
                },
                None => last_match(cands.subrange(0, i + 1 as int), parent_ident@, source_file@)
                    is None,
            },
        decreases kids@.len() - i,
    {
        let c: &Item = &kids[i];
        proof {
            assert(cands[i + 1 as int] == item_view(*c));
        }
        let m = candidate_matches(c, parent_ident, source_file);
        proof {
            let pre = cands.subrange(0, i + 1 as int);
            let post = cands.subrange(0, i + 2 as int);
            assert(post.last() == cands[i + 1 as int]);
            assert(post.drop_last() =~= pre);
        }
        match m {
            Some(nm) => {
                found = Some((c.id, nm));
            },
            None => {},
        }
        i += 1;
    }
    proof {
        assert(cands.subrange(0, cands.len() as int) =~= cands);
    }
    found
}

/// Decides where the item `old_mod_item_id`, a child of the generated
/// container `old_mod_id`, should move, and records the destination and the
/// container's rename.  A standard-library container routes to the reserved
/// stdlib identity; any other header-generated container routes to the last
/// top-level candidate whose comparison name its identifier contains; a
/// container carrying no marker, or matching no candidate, records nothing.
pub fn match_modules(
    krate: &Krate,
    old_mod_item_id: u64,
    old_mod_id: u64,
    mod_info: &mut ModuleInformation,
    source_file: &String,
)
    requires
        old(mod_info).wf(),
        krate.root.kind is Mod,
    ensures
        final(mod_info).wf(),
        final(mod_info).item_map == old(mod_info).item_map,
        final(mod_info).stdlib_id == old(mod_info).stdlib_id,
        match crate::maps::im_lookup(old(mod_info).item_map@, old_mod_id) {
            Some(p) => {
                if is_std_spec(p.attrs) {
                    &&& final(mod_info).decl_destination_mod@ == dm_insert(
                        old(mod_info).decl_destination_mod@,
                        old_mod_item_id,
                        old(mod_info).stdlib_id,
                    )
                    &&& final(mod_info).new_names@ == nm_insert(
                        old(mod_info).new_names@,
                        p.ident,
                        "stdlib"@,
                    )
                } else if has_source_header_spec(p.attrs) {
                    match find_dest(krate_view(*krate), p.ident, source_file@) {
                        Some(cv) => {
                            &&& final(mod_info).decl_destination_mod@ == dm_insert(
                                old(mod_info).decl_destination_mod@,
                                old_mod_item_id,
                                cv.id,
                            )
                            &&& final(mod_info).new_names@ == nm_insert(
                                old(mod_info).new_names@,
                                p.ident,
                                comparison_name(cv.ident, source_file@),
                            )
                        },
                        None => final(mod_info).decl_destination_mod@ == old(
                            mod_info,
                        ).decl_destination_mod@ && final(mod_info).new_names@ == old(
                            mod_info,
                        ).new_names@,
                    }
                } else {
                    final(mod_info).decl_destination_mod@ == old(mod_info).decl_destination_mod@
                        && final(mod_info).new_names@ == old(mod_info).new_names@
                }
            },
            None => final(mod_info).decl_destination_mod@ == old(mod_info).decl_destination_mod@
                && final(mod_info).new_names@ == old(mod_info).new_names@,
        },
{
    let looked: Option<(bool, bool, String)> = match mod_info.item_map.get(old_mod_id) {
        Some(p) => Some((is_std(&p.attrs), has_source_header(&p.attrs), p.ident.clone())),
        None => None,
    };
    match looked {
        None => {},
        Some((p_std, p_hdr, p_ident)) => {
            if p_std {
                let sid = mod_info.stdlib_id;
                mod_info.decl_destination_mod.insert(old_mod_item_id, sid);
                mod_info.new_names.insert(p_ident, "stdlib".to_owned());
            } else if p_hdr {
                match find_destination(krate, &p_ident, source_file) {
                    Some((dest_id, new_name)) => {
                        mod_info.decl_destination_mod.insert(old_mod_item_id, dest_id);
                        mod_info.new_names.insert(p_ident, new_name);
                    },
                    None => {},
                }
            }
        },
    }
}

} // verus!
