//! The pre-transform snapshot and the working state threaded through the
//! rewrite passes.
//!
//! [`collect_item`] traverses the whole tree exactly once, in pre-order, and
//! records every node's identity mapped to an independent copy of the node
//! as it existed before any mutation.  Later passes may therefore look up
//! any pre-transform node by identity even after it has been moved or
//! deleted from the live tree.

use vstd::prelude::*;
use crate::ast::{
    Item, ItemKind, ItemV, ItemKindV, Krate, copy_item, item_view, items_view, lemma_items_view,
};
use crate::maps::{DestMap, ItemMap, NameMap, im_insert, im_lookup, im_unique};

verus! {

// ------------------------------------------------------------------
// Working state
// ------------------------------------------------------------------

/// The state accumulated while classifying and matching: the immutable item
/// snapshot, the chosen destination for every item slated to move, the
/// rename table for reference rewriting, and the identity reserved for the
/// synthetic standard-library container.
pub struct ModuleInformation {
    pub item_map: ItemMap,
    pub decl_destination_mod: DestMap,
    pub new_names: NameMap,
    pub stdlib_id: u64,
}

impl ModuleInformation {
    pub open spec fn wf(&self) -> bool {
        self.item_map.wf() && self.decl_destination_mod.wf() && self.new_names.wf()
    }

    /// Fresh working state around the reserved stdlib identity.
    pub fn new(id: u64) -> (r: ModuleInformation)
        ensures
            r.wf(),
            r.item_map@ == Seq::<(u64, ItemV)>::empty(),
            r.decl_destination_mod@ == Seq::<(u64, u64)>::empty(),
            r.new_names@ == Seq::<(Seq<char>, Seq<char>)>::empty(),
            r.stdlib_id == id,
    {
        ModuleInformation {
            item_map: ItemMap::new(),
            decl_destination_mod: DestMap::new(),
            new_names: NameMap::new(),
            stdlib_id: id,
        }
    }
}

// ------------------------------------------------------------------
// Snapshot collection
// ------------------------------------------------------------------

/// The snapshot after recording `it` and, in pre-order, every node below it.
pub open spec fn store_item_view(s: Seq<(u64, ItemV)>, it: ItemV) -> Seq<(u64, ItemV)>
    decreases it,
{
    let s1 = im_insert(s, it.id, it);
    match it.kind {
        ItemKindV::Mod(kids) => store_items_view(s1, kids),
        _ => s1,
    }
}

pub open spec fn store_items_view(s: Seq<(u64, ItemV)>, kids: Seq<ItemV>) -> Seq<(u64, ItemV)>
    decreases kids,
{
    if kids.len() == 0 {
        s
    } else {
        store_item_view(store_items_view(s, kids.drop_last()), kids.last())
    }
}

/// Records `it` and every node below it in the snapshot.
pub fn collect_item(m: &mut ItemMap, it: &Item)
    requires
        old(m).wf(),
    ensures
        final(m).wf(),
        final(m)@ == store_item_view(old(m)@, item_view(*it)),
    decreases *it,
{
    let c = copy_item(it);
    m.insert(it.id, c);
    match &it.kind {
        ItemKind::Mod(kids) => {
            collect_items(m, kids);
        },
        _ => {},
    }
}

fn collect_items(m: &mut ItemMap, items: &Vec<Item>)
    requires
        old(m).wf(),
    ensures
        final(m).wf(),
        final(m)@ == store_items_view(old(m)@, items_view(items@)),
    decreases items@,
{
    let ghost s0 = m@;
    let mut i: usize = 0;
    while i < items.len()
        invariant
            i <= items@.len(),
            m.wf(),
            m@ == store_items_view(s0, items_view(items@.subrange(0, i as int))),
        decreases items@.len() - i,
    {
        collect_item(m, &items[i]);
        proof {
            lemma_items_view(items@.subrange(0, i as int));
            lemma_items_view(items@.subrange(0, i + 1 as int));
            assert(items_view(items@.subrange(0, i + 1 as int)).drop_last() =~= items_view(
                items@.subrange(0, i as int),
            ));
            assert(items_view(items@.subrange(0, i + 1 as int)).last() == item_view(
                items@[i as int],
            ));
        }
        i += 1;
    }
    proof {
        assert(items@.subrange(0, items@.len() as int) =~= items@);
    }
}

/// Takes the single whole-tree snapshot: every node of the unit, including
/// the root container itself, keyed by identity.
pub fn snapshot_krate(k: &Krate) -> (r: ItemMap)
    ensures
        r.wf(),
        r@ == store_item_view(Seq::<(u64, ItemV)>::empty(), item_view(k.root)),
{
    let mut m = ItemMap::new();
    collect_item(&mut m, &k.root);
    m
}


// ------------------------------------------------------------------
// Completeness of the snapshot
// ------------------------------------------------------------------

/// The nodes of the subtree rooted at `it`, in pre-order.
pub open spec fn item_nodes(it: ItemV) -> Seq<ItemV>
    decreases it,
{
    match it.kind {
        ItemKindV::Mod(kids) => seq![it] + items_nodes(kids),
        _ => seq![it],
    }
}

pub open spec fn items_nodes(s: Seq<ItemV>) -> Seq<ItemV>
    decreases s,
{
    if s.len() == 0 {
        Seq::empty()
    } else {
        items_nodes(s.drop_last()) + item_nodes(s.last())
    }
}

pub open spec fn nodes_have_id(ns: Seq<ItemV>, k: u64) -> bool {
    exists|i: int| 0 <= i < ns.len() && (#[trigger] ns[i]).id == k
}

/// Every node of the enumeration carries a distinct identity.
pub open spec fn unique_node_ids(ns: Seq<ItemV>) -> bool {
    forall|i: int, j: int| 0 <= i < j < ns.len() ==> (#[trigger] ns[i]).id != (#[trigger] ns[j]).id
}

proof fn lemma_nodes_have_id_concat(a: Seq<ItemV>, b: Seq<ItemV>, k: u64)
    ensures
        nodes_have_id(a + b, k) == (nodes_have_id(a, k) || nodes_have_id(b, k)),
{
    if nodes_have_id(a + b, k) {
        let i = choose|i: int| 0 <= i < (a + b).len() && (#[trigger] (a + b)[i]).id == k;
        if i < a.len() {
            assert(a[i] == (a + b)[i]);
        } else {
            assert(b[i - a.len()] == (a + b)[i]);
        }
    }
    if nodes_have_id(a, k) {
        let i = choose|i: int| 0 <= i < a.len() && (#[trigger] a[i]).id == k;
        assert((a + b)[i].id == k);
    }
    if nodes_have_id(b, k) {
        let i = choose|i: int| 0 <= i < b.len() && (#[trigger] b[i]).id == k;
        assert((a + b)[a.len() + i].id == k);
    }
}

/// Storing a subtree records each of its nodes under that node's identity
/// and touches no other key.
pub proof fn lemma_store_item(s: Seq<(u64, ItemV)>, it: ItemV)
    requires
        im_unique(s),
        unique_node_ids(item_nodes(it)),
    ensures
        im_unique(store_item_view(s, it)),
        forall|k: u64|
            !nodes_have_id(item_nodes(it), k) ==> im_lookup(store_item_view(s, it), k)
                == im_lookup(s, k),
        forall|i: int|
            0 <= i < item_nodes(it).len() ==> im_lookup(
                store_item_view(s, it),
                (#[trigger] item_nodes(it)[i]).id,
            ) == Some(item_nodes(it)[i]),
    decreases it,
{
    crate::maps::lemma_im_insert(s, it.id, it);
    let s1 = crate::maps::im_insert(s, it.id, it);
    let ns = item_nodes(it);
    match it.kind {
        ItemKindV::Mod(kids) => {
            let kn = items_nodes(kids);
            assert(ns == seq![it] + kn);
            assert forall|i: int, j: int| 0 <= i < j < kn.len() implies (#[trigger] kn[i]).id != (
            #[trigger] kn[j]).id by {
                assert(ns[i + 1] == kn[i]);
                assert(ns[j + 1] == kn[j]);
            }
            lemma_store_items(s1, kids);
            let s2 = store_items_view(s1, kids);
            assert(store_item_view(s, it) == s2);
            assert forall|i: int| 0 <= i < ns.len() implies im_lookup(
                s2,
                (#[trigger] ns[i]).id,
            ) == Some(ns[i]) by {
                if i == 0 {
                    assert(ns[0] == it);
                    assert forall|j: int| 0 <= j < kn.len() implies (#[trigger] kn[j]).id
                        != it.id by {
                        assert(ns[j + 1] == kn[j]);
                        assert(ns[0] == it);
                    }
                    assert(!nodes_have_id(kn, it.id));
                    assert(im_lookup(s2, it.id) == im_lookup(s1, it.id));
                } else {
                    assert(ns[i] == kn[i - 1]);
                }
            }
            assert forall|k: u64| !nodes_have_id(ns, k) implies im_lookup(s2, k) == im_lookup(
                s,
                k,
            ) by {
                lemma_nodes_have_id_concat(seq![it], kn, k);
                if !nodes_have_id(ns, k) {
                    assert(!nodes_have_id(kn, k));
                    assert(!nodes_have_id(seq![it], k));
                    assert(seq![it][0] == it);
                    assert(k != it.id);
                }
            }
        },
        _ => {
            assert(ns =~= seq![it]);
            assert(ns[0] == it);
            assert forall|k: u64| !nodes_have_id(ns, k) implies im_lookup(s1, k) == im_lookup(
                s,
                k,
            ) by {
                if k == it.id {
                    assert(ns[0].id == k);
                }
            }
        },
    }
}

proof fn lemma_store_items(s: Seq<(u64, ItemV)>, kids: Seq<ItemV>)
    requires
        im_unique(s),
        unique_node_ids(items_nodes(kids)),
    ensures
        im_unique(store_items_view(s, kids)),
        forall|k: u64|
            !nodes_have_id(items_nodes(kids), k) ==> im_lookup(store_items_view(s, kids), k)
                == im_lookup(s, k),
        forall|i: int|
            0 <= i < items_nodes(kids).len() ==> im_lookup(
                store_items_view(s, kids),
                (#[trigger] items_nodes(kids)[i]).id,
            ) == Some(items_nodes(kids)[i]),
    decreases kids,
{
    if kids.len() > 0 {
        let pre = kids.drop_last();
        let pn = items_nodes(pre);
        let ln = item_nodes(kids.last());
        let ns = items_nodes(kids);
        assert(ns == pn + ln);
        assert forall|i: int, j: int| 0 <= i < j < pn.len() implies (#[trigger] pn[i]).id != (
        #[trigger] pn[j]).id by {
            assert(ns[i] == pn[i]);
            assert(ns[j] == pn[j]);
        }
        assert forall|i: int, j: int| 0 <= i < j < ln.len() implies (#[trigger] ln[i]).id != (
        #[trigger] ln[j]).id by {
            assert(ns[pn.len() + i] == ln[i]);
            assert(ns[pn.len() + j] == ln[j]);
        }
        lemma_store_items(s, pre);
        let s1 = store_items_view(s, pre);
        lemma_store_item(s1, kids.last());
        let s2 = store_item_view(s1, kids.last());
        assert(store_items_view(s, kids) == s2);
        assert forall|i: int| 0 <= i < ns.len() implies im_lookup(s2, (#[trigger] ns[i]).id)
            == Some(ns[i]) by {
            if i < pn.len() {
                assert(ns[i] == pn[i]);
                assert forall|j: int| 0 <= j < ln.len() implies (#[trigger] ln[j]).id
                    != pn[i].id by {
                    assert(ns[pn.len() + j] == ln[j]);
                    assert(ns[i] == pn[i]);
                }
                assert(!nodes_have_id(ln, pn[i].id));
                assert(im_lookup(s2, pn[i].id) == im_lookup(s1, pn[i].id));
            } else {
                assert(ns[i] == ln[i - pn.len()]);
            }
        }
        assert forall|k: u64| !nodes_have_id(ns, k) implies im_lookup(s2, k) == im_lookup(
            s,
            k,
        ) by {
            lemma_nodes_have_id_concat(pn, ln, k);
        }
    } else {
        assert(items_nodes(kids) =~= Seq::<ItemV>::empty());
    }
}

/// Law: the snapshot is complete.  After one traversal of a tree whose
/// nodes carry distinct identities, every node of the tree can be looked up
/// in the snapshot under its identity, exactly as it stood before any
/// mutation.
pub proof fn lemma_snapshot_complete(it: ItemV)
    requires
        unique_node_ids(item_nodes(it)),
    ensures
        forall|i: int|
            0 <= i < item_nodes(it).len() ==> im_lookup(
                store_item_view(Seq::<(u64, ItemV)>::empty(), it),
                (#[trigger] item_nodes(it)[i]).id,
            ) == Some(item_nodes(it)[i]),
{
    lemma_store_item(Seq::<(u64, ItemV)>::empty(), it);
}

} // verus!
