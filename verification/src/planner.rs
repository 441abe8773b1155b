//! Turning destination decisions into deduplicated insertion lists.
//!
//! Stage one walks the destination map in insertion order: a pairing whose
//! source item is missing from the snapshot is a no-op; a pairing whose
//! destination is present and already holds a structurally equivalent item
//! is dropped; a pairing whose destination is an unresolved placeholder
//! (the not-yet-created stdlib container) is kept unconditionally.  Kept
//! items are grouped by destination, preserving encounter order.  Stage two
//! deduplicates within each group: of two structurally equivalent items the
//! first-seen is kept and the later one dropped.

use vstd::prelude::*;
use crate::ast::{Item, ItemKind, ItemKindV, ItemV, item_view, items_view, lemma_items_view};
use crate::equiv::{kind_equiv, kind_equiv_exec};
use crate::maps::{ItemMap, im_lookup};
use crate::store::ModuleInformation;

verus! {

// ------------------------------------------------------------------
// Specification
// ------------------------------------------------------------------

/// Some direct child of the container has content structurally equivalent
/// to `k`.
pub open spec fn mod_has_equiv(kids: Seq<ItemV>, k: ItemKindV) -> bool {
    exists|i: int| 0 <= i < kids.len() && kind_equiv((#[trigger] kids[i]).kind, k)
}

/// Whether the pairing `(old_id -> dest_id)` survives the per-pairing
/// filter against the snapshot `map`.
pub open spec fn pairing_kept(map: Seq<(u64, ItemV)>, old_id: u64, dest_id: u64) -> bool {
    match im_lookup(map, old_id) {
        None => false,
        Some(old_item) => match im_lookup(map, dest_id) {
            None => true,
            Some(dm) => match dm.kind {
                ItemKindV::Mod(kids) => !mod_has_equiv(kids, old_item.kind),
                _ => false,
            },
        },
    }
}

pub open spec fn pm_has_key(s: Seq<(u64, Seq<u64>)>, k: u64) -> bool {
    exists|i: int| 0 <= i < s.len() && (#[trigger] s[i]).0 == k
}

pub open spec fn pm_key_at(s: Seq<(u64, Seq<u64>)>, k: u64) -> int {
    choose|i: int| 0 <= i < s.len() && (#[trigger] s[i]).0 == k
}

pub open spec fn pm_lookup(s: Seq<(u64, Seq<u64>)>, k: u64) -> Option<Seq<u64>> {
    if pm_has_key(s, k) {
        Some(s[pm_key_at(s, k)].1)
    } else {
        None
    }
}

pub open spec fn pm_unique(s: Seq<(u64, Seq<u64>)>) -> bool {
    forall|i: int, j: int| 0 <= i < j < s.len() ==> (#[trigger] s[i]).0 != (#[trigger] s[j]).0
}

/// Appends `add` to the group keyed `k`, creating the group if absent.
pub open spec fn pm_append(s: Seq<(u64, Seq<u64>)>, k: u64, add: Seq<u64>) -> Seq<(u64, Seq<u64>)> {
    if pm_has_key(s, k) {
        s.update(pm_key_at(s, k), (k, s[pm_key_at(s, k)].1 + add))
    } else {
        s.push((k, add))
    }
}

/// One destination-map entry folded into the plan.
pub open spec fn plan_step(
    plan: Seq<(u64, Seq<u64>)>,
    map: Seq<(u64, ItemV)>,
    old_id: u64,
    dest_id: u64,
) -> Seq<(u64, Seq<u64>)> {
    if pairing_kept(map, old_id, dest_id) {
        pm_append(plan, dest_id, seq![old_id])
    } else {
        pm_append(plan, dest_id, Seq::empty())
    }
}

/// Stage one over the whole destination map, in insertion order.
pub open spec fn build_plan(map: Seq<(u64, ItemV)>, dests: Seq<(u64, u64)>) -> Seq<
    (u64, Seq<u64>),
>
    decreases dests,
{
    if dests.len() == 0 {
        Seq::empty()
    } else {
        plan_step(build_plan(map, dests.drop_last()), map, dests.last().0, dests.last().1)
    }
}

/// Structural equivalence of the snapshot items behind two identities.
pub open spec fn ids_equiv(map: Seq<(u64, ItemV)>, a: u64, b: u64) -> bool {
    match (im_lookup(map, a), im_lookup(map, b)) {
        (Some(x), Some(y)) => kind_equiv(x.kind, y.kind),
        _ => false,
    }
}

/// Stage two inside one group: an item equivalent to an earlier item of the
/// same group is dropped; the first-seen stays.
pub open spec fn dedup_ids(map: Seq<(u64, ItemV)>, ids: Seq<u64>) -> Seq<u64>
    decreases ids,
{
    if ids.len() == 0 {
        Seq::empty()
    } else {
        let prior = dedup_ids(map, ids.drop_last());
        if exists|j: int| 0 <= j < ids.len() - 1 && ids_equiv(map, #[trigger] ids[j], ids.last()) {
            prior
        } else {
            prior.push(ids.last())
        }
    }
}

pub open spec fn dedup_plan(map: Seq<(u64, ItemV)>, plan: Seq<(u64, Seq<u64>)>) -> Seq<
    (u64, Seq<u64>),
> {
    Seq::new(plan.len(), |i: int| (plan[i].0, dedup_ids(map, plan[i].1)))
}

/// The whole merge plan for a snapshot and a destination map.
pub open spec fn plan_spec(map: Seq<(u64, ItemV)>, dests: Seq<(u64, u64)>) -> Seq<
    (u64, Seq<u64>),
> {
    dedup_plan(map, build_plan(map, dests))
}

// ------------------------------------------------------------------
// Laws
// ------------------------------------------------------------------

/// Every identity in a group of the stage-one plan was kept for that
/// group's destination.
pub proof fn lemma_build_plan_kept(map: Seq<(u64, ItemV)>, dests: Seq<(u64, u64)>)
    ensures
        forall|gi: int, ii: int|
            0 <= gi < build_plan(map, dests).len() && 0 <= ii < build_plan(map, dests)[gi].1.len()
                ==> pairing_kept(
                map,
                #[trigger] build_plan(map, dests)[gi].1[ii],
                build_plan(map, dests)[gi].0,
            ),
    decreases dests,
{
    if dests.len() > 0 {
        lemma_build_plan_kept(map, dests.drop_last());
        let prior = build_plan(map, dests.drop_last());
        let cur = build_plan(map, dests);
        let old_id = dests.last().0;
        let dest_id = dests.last().1;
        let add: Seq<u64> = if pairing_kept(map, old_id, dest_id) {
            seq![old_id]
        } else {
            Seq::empty()
        };
        assert(cur == pm_append(prior, dest_id, add));
        assert forall|gi: int, ii: int|
            0 <= gi < cur.len() && 0 <= ii < cur[gi].1.len() implies pairing_kept(
            map,
            #[trigger] cur[gi].1[ii],
            cur[gi].0,
        ) by {
            if pm_has_key(prior, dest_id) {
                let ki = pm_key_at(prior, dest_id);
                assert(0 <= ki < prior.len() && prior[ki].0 == dest_id);
                if gi == ki {
                    assert(cur[gi].0 == dest_id);
                    assert(cur[gi].1 == prior[ki].1 + add);
                    if ii < prior[ki].1.len() {
                        assert(cur[gi].1[ii] == prior[ki].1[ii]);
                    } else {
                        assert(add.len() == 1 && pairing_kept(map, old_id, dest_id));
                        assert(cur[gi].1[ii] == old_id);
                    }
                } else {
                    assert(cur[gi] == prior[gi]);
                }
            } else {
                if gi < prior.len() {
                    assert(cur[gi] == prior[gi]);
                } else {
                    assert(cur[gi] == (dest_id, add));
                    assert(add.len() == 1 && pairing_kept(map, old_id, dest_id));
                }
            }
        }
    }
}

/// Every identity surviving stage two already stood in the group.
pub proof fn lemma_dedup_subset(map: Seq<(u64, ItemV)>, ids: Seq<u64>)
    ensures
        forall|ii: int|
            0 <= ii < dedup_ids(map, ids).len() ==> exists|j: int|
                0 <= j < ids.len() && ids[j] == #[trigger] dedup_ids(map, ids)[ii],
    decreases ids,
{
    if ids.len() > 0 {
        lemma_dedup_subset(map, ids.drop_last());
        let prior = dedup_ids(map, ids.drop_last());
        let cur = dedup_ids(map, ids);
        assert forall|ii: int| 0 <= ii < cur.len() implies exists|j: int|
            0 <= j < ids.len() && ids[j] == #[trigger] cur[ii] by {
            if ii < prior.len() {
                assert(cur[ii] == prior[ii]);
                let j = choose|j: int|
                    0 <= j < ids.drop_last().len() && ids.drop_last()[j] == prior[ii];
                assert(ids[j] == cur[ii]);
            } else {
                assert(cur[ii] == ids.last());
                assert(ids[ids.len() - 1] == cur[ii]);
            }
        }
    }
}

/// Law: structural duplicates are never planned for insertion.  For any
/// destination container present in the snapshot, no identity in its group
/// of the final plan denotes an item structurally equivalent to one the
/// container already holds.
pub proof fn lemma_no_duplicate_insertion(
    map: Seq<(u64, ItemV)>,
    dests: Seq<(u64, u64)>,
    gi: int,
    ii: int,
)
    requires
        0 <= gi < plan_spec(map, dests).len(),
        0 <= ii < plan_spec(map, dests)[gi].1.len(),
        im_lookup(map, plan_spec(map, dests)[gi].0) is Some,
    ensures
        im_lookup(map, plan_spec(map, dests)[gi].1[ii]) is Some,
        (im_lookup(map, plan_spec(map, dests)[gi].0)->Some_0.kind matches ItemKindV::Mod(kids)
            ==> !mod_has_equiv(
            kids,
            im_lookup(map, plan_spec(map, dests)[gi].1[ii])->Some_0.kind,
        )),
{
    let stage1 = build_plan(map, dests);
    let plan = plan_spec(map, dests);
    assert(plan[gi].0 == stage1[gi].0);
    assert(plan[gi].1 == dedup_ids(map, stage1[gi].1));
    lemma_dedup_subset(map, stage1[gi].1);
    let j = choose|j: int|
        0 <= j < stage1[gi].1.len() && stage1[gi].1[j] == plan[gi].1[ii];
    lemma_build_plan_kept(map, dests);
    assert(pairing_kept(map, stage1[gi].1[j], stage1[gi].0));
}

// ------------------------------------------------------------------
// Executable planning
// ------------------------------------------------------------------

/// The deduplicated insertion lists, grouped by destination identity.
pub struct MergePlan {
    pub groups: Vec<(u64, Vec<u64>)>,
}

pub open spec fn pm_groups_view(s: Seq<(u64, Vec<u64>)>) -> Seq<(u64, Seq<u64>)> {
    Seq::new(s.len(), |i: int| (s[i].0, s[i].1@))
}

impl View for MergePlan {
    type V = Seq<(u64, Seq<u64>)>;

    open spec fn view(&self) -> Seq<(u64, Seq<u64>)> {
        pm_groups_view(self.groups@)
    }
}

impl MergePlan {
    pub open spec fn wf(&self) -> bool {
        pm_unique(self@)
    }

    fn index_of(&self, k: u64) -> (r: Option<usize>)
        ensures
            match r {
                Some(i) => i < self@.len() && self@[i as int].0 == k,
                None => !pm_has_key(self@, k),
            },
    {
        let mut i: usize = 0;
        while i < self.groups.len()
            invariant
                i <= self.groups@.len(),
                forall|j: int| 0 <= j < i ==> (#[trigger] self@[j]).0 != k,
            decreases self.groups@.len() - i,
        {
            if self.groups[i].0 == k {
                return Some(i);
            }
            i += 1;
        }
        None
    }

    /// The insertion list queued for the container `k`, if any.
    pub fn get(&self, k: u64) -> (r: Option<&Vec<u64>>)
        requires
            self.wf(),
        ensures
            match r {
                Some(ids) => pm_lookup(self@, k) == Some(ids@),
                None => pm_lookup(self@, k) is None,
            },
    {
        match self.index_of(k) {
            Some(i) => {
                proof {
                    let j = pm_key_at(self@, k);
                    assert(0 <= j < self@.len() && self@[j].0 == k);
                    if j != i {
                        assert(false);
                    }
                }
                Some(&self.groups[i].1)
            },
            None => None,
        }
    }

    fn append(&mut self, k: u64, id_opt: Option<u64>)
        requires
            old(self).wf(),
        ensures
            final(self).wf(),
            final(self)@ == pm_append(
                old(self)@,
                k,
                match id_opt {
                    Some(id) => seq![id],
                    None => Seq::<u64>::empty(),
                },
            ),
    {
        let ghost add: Seq<u64> = match id_opt {
            Some(id) => seq![id],
            None => Seq::empty(),
        };
        match self.index_of(k) {
            Some(i) => {
                proof {
                    let j = pm_key_at(self@, k);
                    assert(0 <= j < self@.len() && self@[j].0 == k);
                    if j != i {
                        assert(false);
                    }
                }
                let mut pr = self.groups.remove(i);
                match id_opt {
                    Some(id) => pr.1.push(id),
                    None => {},
                }
                self.groups.insert(i, pr);
                proof {
                    assert(self@ =~~= pm_append(old(self)@, k, add));
                    assert forall|a: int, b: int|
                        0 <= a < b < self@.len() implies (#[trigger] self@[a]).0 != (
                    #[trigger] self@[b]).0 by {
                        assert(old(self)@[a].0 == self@[a].0);
                        assert(old(self)@[b].0 == self@[b].0);
                    }
                }
            },
            None => {
                match id_opt {
                    Some(id) => {
                        let mut ids: Vec<u64> = Vec::new();
                        ids.push(id);
                        self.groups.push((k, ids));
                        proof {
                            assert(ids@ =~= add);
                        }
                    },
                    None => {
                        let ids: Vec<u64> = Vec::new();
                        self.groups.push((k, ids));
                    },
                }
                proof {
                    assert(self@ =~~= pm_append(old(self)@, k, add));
                    assert forall|a: int, b: int|
                        0 <= a < b < self@.len() implies (#[trigger] self@[a]).0 != (
                    #[trigger] self@[b]).0 by {
                        if b < self@.len() - 1 {
                            assert(old(self)@[a].0 == self@[a].0);
                            assert(old(self)@[b].0 == self@[b].0);
                        } else {
                            assert(old(self)@[a].0 == self@[a].0);
                            assert(self@[b].0 == k);
                        }
                    }
                }
            },
        }
    }
}

/// Whether the container item already holds a child structurally equivalent
/// to `k`.
pub fn mod_contains_equiv(dm: &Item, k: &ItemKind) -> (r: bool)
    ensures
        r == (item_view(*dm).kind is Mod && mod_has_equiv(
            item_view(*dm).kind->Mod_0,
            crate::ast::kind_view(*k),
        )),
{
    match &dm.kind {
        ItemKind::Mod(kids) => {
            proof {
                lemma_items_view(kids@);
                assert(item_view(*dm).kind == ItemKindV::Mod(items_view(kids@)));
            }
            let mut j: usize = 0;
            while j < kids.len()
                invariant
                    j <= kids@.len(),
                    item_view(*dm).kind == ItemKindV::Mod(items_view(kids@)),
                    items_view(kids@).len() == kids@.len(),
                    forall|t: int|
                        0 <= t < kids@.len() ==> items_view(kids@)[t] == item_view(kids@[t]),
                    forall|t: int|
                        0 <= t < j ==> !kind_equiv(
                            (#[trigger] items_view(kids@)[t]).kind,
                            crate::ast::kind_view(*k),
                        ),
                decreases kids@.len() - j,
            {
                if kind_equiv_exec(&kids[j].kind, k) {
                    proof {
                        assert(kind_equiv(items_view(kids@)[j as int].kind, crate::ast::kind_view(*k)));
                        assert(mod_has_equiv(items_view(kids@), crate::ast::kind_view(*k)));
                    }
                    return true;
                }
                j += 1;
            }
            false
        },
        _ => false,
    }
}

/// Stage one: walks every destination pairing, filters it against the
/// snapshot, and groups the survivors by destination in encounter order;
/// stage two then deduplicates each group.
pub fn clean_module_items(mod_info: &ModuleInformation) -> (r: MergePlan)
    requires
        mod_info.wf(),
    ensures
        r.wf(),
        r@ == plan_spec(mod_info.item_map@, mod_info.decl_destination_mod@),
{
    let ghost map = mod_info.item_map@;
    let ghost dests = mod_info.decl_destination_mod@;
    let mut plan = MergePlan { groups: Vec::new() };
    proof {
        assert(plan@ =~= Seq::<(u64, Seq<u64>)>::empty());
        assert(plan@ =~= build_plan(map, dests.subrange(0, 0)));
    }
    let n = mod_info.decl_destination_mod.len();
    let mut i: usize = 0;
    while i < n
        invariant
            i <= n,
            n == dests.len(),
            map == mod_info.item_map@,
            dests == mod_info.decl_destination_mod@,
            mod_info.wf(),
            plan.wf(),
            plan@ == build_plan(map, dests.subrange(0, i as int)),
        decreases n - i,
    {
        let (old_id, dest_id) = mod_info.decl_destination_mod.entry_at(i);
        let kept: bool = match mod_info.item_map.get(old_id) {
            None => false,
            Some(old_it) => match mod_info.item_map.get(dest_id) {
                None => true,
                Some(dm) => {
                    let has = mod_contains_equiv(dm, &old_it.kind);
                    let is_mod = match &dm.kind {
                        ItemKind::Mod(_) => true,
                        _ => false,
                    };
                    is_mod && !has
                },
            },
        };
        proof {
            assert(kept == pairing_kept(map, old_id, dest_id));
        }
        if kept {
            plan.append(dest_id, Some(old_id));
        } else {
            plan.append(dest_id, None);
        }
        proof {
            let pre = dests.subrange(0, i as int);
            let post = dests.subrange(0, i + 1 as int);
            assert(post.last() == dests[i as int]);
            assert(post.drop_last() =~= pre);
        }
        i += 1;
    }
    proof {
        assert(dests.subrange(0, dests.len() as int) =~= dests);
    }
    remove_duplicates(&mut plan, &mod_info.item_map);
    plan
}

/// Stage two: within each destination group, drops every item structurally
/// equivalent to an earlier item of the same group.
pub fn remove_duplicates(plan: &mut MergePlan, item_map: &ItemMap)
    requires
        old(plan).wf(),
        item_map.wf(),
    ensures
        final(plan).wf(),
        final(plan)@ == dedup_plan(item_map@, old(plan)@),
{
    let ghost map = item_map@;
    let n = plan.groups.len();
    let mut out: Vec<(u64, Vec<u64>)> = Vec::new();
    let mut gi: usize = 0;
    while gi < n
        invariant
            gi <= n,
            map == item_map@,
            item_map.wf(),
            n == plan.groups@.len(),
            plan@ == old(plan)@,
            out@.len() == gi,
            forall|t: int|
                0 <= t < gi ==> (#[trigger] pm_groups_view(out@)[t]) == (
                old(plan)@[t].0,
                dedup_ids(map, old(plan)@[t].1),
            ),
        decreases n - gi,
    {
        let k = plan.groups[gi].0;
        let deduped = dedup_group(item_map, &plan.groups[gi].1);
        let ghost out_prev = out@;
        out.push((k, deduped));
        proof {
            assert forall|t: int| 0 <= t < gi implies #[trigger] pm_groups_view(out@)[t]
                == pm_groups_view(out_prev)[t] by {
                assert(out@[t] == out_prev[t]);
            }
            assert(old(plan)@[gi as int].0 == k);
            assert(old(plan)@[gi as int].1 == plan.groups@[gi as int].1@);
            assert(pm_groups_view(out@)[gi as int] == (
                old(plan)@[gi as int].0,
                dedup_ids(map, old(plan)@[gi as int].1),
            ));
        }
        gi += 1;
    }
    plan.groups = out;
    proof {
        assert(plan@ =~~= dedup_plan(map, old(plan)@));
        assert forall|a: int, b: int|
            0 <= a < b < plan@.len() implies (#[trigger] plan@[a]).0 != (#[trigger] plan@[b]).0 by {
            assert(old(plan)@[a].0 == plan@[a].0);
            assert(old(plan)@[b].0 == plan@[b].0);
        }
    }
}

fn dedup_group(item_map: &ItemMap, ids: &Vec<u64>) -> (r: Vec<u64>)
    requires
        item_map.wf(),
    ensures
        r@ == dedup_ids(item_map@, ids@),
{
    let ghost map = item_map@;
    let mut r: Vec<u64> = Vec::new();
    proof {
        assert(r@ =~= dedup_ids(map, ids@.subrange(0, 0)));
    }
    let mut i: usize = 0;
    while i < ids.len()
        invariant
            i <= ids@.len(),
            map == item_map@,
            item_map.wf(),
            r@ == dedup_ids(map, ids@.subrange(0, i as int)),
        decreases ids@.len() - i,
    {
        let mut dup = false;
        let mut j: usize = 0;
        while j < i
            invariant
                j <= i,
                i < ids@.len(),
                map == item_map@,
                item_map.wf(),
                dup ==> exists|t: int|
                    0 <= t < i && ids_equiv(map, #[trigger] ids@[t], ids@[i as int]),
                !dup ==> forall|t: int|
                    0 <= t < j ==> !ids_equiv(map, #[trigger] ids@[t], ids@[i as int]),
            decreases i - j,
        {
            if !dup {
                let e = match (item_map.get(ids[j]), item_map.get(ids[i])) {
                    (Some(x), Some(y)) => kind_equiv_exec(&x.kind, &y.kind),
                    _ => false,
                };
                proof {
                    assert(e == ids_equiv(map, ids@[j as int], ids@[i as int]));
                }
                if e {
                    dup = true;
                }
            }
            j += 1;
        }
        if !dup {
            r.push(ids[i]);
        }
        proof {
            let pre = ids@.subrange(0, i as int);
            let post = ids@.subrange(0, i + 1 as int);
            assert(post.last() == ids@[i as int]);
            assert(post.drop_last() =~= pre);
            if dup {
                let t = choose|t: int|
                    0 <= t < i && ids_equiv(map, #[trigger] ids@[t], ids@[i as int]);
                assert(post[t] == ids@[t]);
                assert(exists|t2: int|
                    0 <= t2 < post.len() - 1 && ids_equiv(map, #[trigger] post[t2], post.last()));
            } else {
                assert forall|t2: int| 0 <= t2 < post.len() - 1 implies !ids_equiv(
                    map,
                    #[trigger] post[t2],
                    post.last(),
                ) by {
                    assert(post[t2] == ids@[t2]);
                }
            }
        }
        i += 1;
    }
    proof {
        assert(ids@.subrange(0, ids@.len() as int) =~= ids@);
    }
    r
}

} // verus!
