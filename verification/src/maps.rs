//! Keyed working state: the item snapshot, the destination map and the
//! rename map.
//!
//! Each is an association list with unique keys, so lookups are
//! deterministic and iteration follows insertion order.  Inserting an
//! existing key overwrites its value in place; inserting a fresh key
//! appends.

use vstd::prelude::*;
use crate::ast::{Item, ItemV, copy_item, item_view};

verus! {

// ------------------------------------------------------------------
// Item snapshot: identity -> item
// ------------------------------------------------------------------

pub open spec fn im_has_key(s: Seq<(u64, ItemV)>, k: u64) -> bool {
    exists|i: int| 0 <= i < s.len() && (#[trigger] s[i]).0 == k
}

pub open spec fn im_key_at(s: Seq<(u64, ItemV)>, k: u64) -> int {
    choose|i: int| 0 <= i < s.len() && (#[trigger] s[i]).0 == k
}

pub open spec fn im_lookup(s: Seq<(u64, ItemV)>, k: u64) -> Option<ItemV> {
    if im_has_key(s, k) {
        Some(s[im_key_at(s, k)].1)
    } else {
        None
    }
}

pub open spec fn im_unique(s: Seq<(u64, ItemV)>) -> bool {
    forall|i: int, j: int| 0 <= i < j < s.len() ==> (#[trigger] s[i]).0 != (#[trigger] s[j]).0
}

pub open spec fn im_insert(s: Seq<(u64, ItemV)>, k: u64, v: ItemV) -> Seq<(u64, ItemV)> {
    if im_has_key(s, k) {
        s.update(im_key_at(s, k), (k, v))
    } else {
        s.push((k, v))
    }
}

pub proof fn lemma_im_insert(s: Seq<(u64, ItemV)>, k: u64, v: ItemV)
    requires
        im_unique(s),
    ensures
        im_unique(im_insert(s, k, v)),
        im_lookup(im_insert(s, k, v), k) == Some(v),
        forall|k2: u64| k2 != k ==> im_lookup(im_insert(s, k, v), k2) == im_lookup(s, k2),
        forall|k2: u64| im_has_key(im_insert(s, k, v), k2) == (im_has_key(s, k2) || k2 == k),
{
    let t = im_insert(s, k, v);
    if im_has_key(s, k) {
        let i = im_key_at(s, k);
        assert(0 <= i < s.len() && s[i].0 == k);
        assert forall|k2: u64| im_has_key(t, k2) == (im_has_key(s, k2) || k2 == k) by {
            if im_has_key(t, k2) {
                let j = choose|j: int| 0 <= j < t.len() && (#[trigger] t[j]).0 == k2;
                if j != i {
                    assert(s[j].0 == k2);
                }
            }
            if im_has_key(s, k2) {
                let j = choose|j: int| 0 <= j < s.len() && (#[trigger] s[j]).0 == k2;
                if j != i {
                    assert(t[j].0 == k2);
                } else {
                    assert(k2 == k && t[i].0 == k);
                }
            }
            if k2 == k {
                assert(t[i].0 == k2);
            }
        }
        assert(im_has_key(t, k));
        let ti = im_key_at(t, k);
        assert(0 <= ti < t.len() && t[ti].0 == k);
        if ti != i {
            assert(s[ti].0 == k);
            assert(false);
        }
        assert(im_lookup(t, k) == Some(v));
        assert forall|k2: u64| k2 != k implies im_lookup(t, k2) == im_lookup(s, k2) by {
            if im_has_key(s, k2) {
                let j = im_key_at(s, k2);
                assert(0 <= j < s.len() && s[j].0 == k2);
                assert(j != i);
                assert(t[j].0 == k2);
                let tj = im_key_at(t, k2);
                assert(0 <= tj < t.len() && t[tj].0 == k2);
                if tj != j {
                    if tj == i {
                        assert(t[tj].0 == k);
                        assert(false);
                    }
                    assert(s[tj].0 == k2);
                    assert(false);
                }
            }
        }
    } else {
        assert forall|i2: int| 0 <= i2 < s.len() implies (#[trigger] s[i2]).0 != k by {}
        assert(t == s.push((k, v)));
        assert(t[s.len() as int].0 == k);
        assert(im_has_key(t, k));
        assert forall|k2: u64| im_has_key(t, k2) == (im_has_key(s, k2) || k2 == k) by {
            if im_has_key(t, k2) {
                let j = choose|j: int| 0 <= j < t.len() && (#[trigger] t[j]).0 == k2;
                if j < s.len() {
                    assert(s[j].0 == k2);
                } else {
                    assert(k2 == k);
                }
            }
            if im_has_key(s, k2) {
                let j = choose|j: int| 0 <= j < s.len() && (#[trigger] s[j]).0 == k2;
                assert(t[j].0 == k2);
            }
        }
        let ti = im_key_at(t, k);
        assert(0 <= ti < t.len() && t[ti].0 == k);
        if ti != s.len() {
            assert(s[ti].0 == k);
            assert(false);
        }
        assert(im_lookup(t, k) == Some(v));
        assert forall|k2: u64| k2 != k implies im_lookup(t, k2) == im_lookup(s, k2) by {
            if im_has_key(s, k2) {
                let j = im_key_at(s, k2);
                assert(0 <= j < s.len() && s[j].0 == k2);
                assert(t[j].0 == k2);
                let tj = im_key_at(t, k2);
                assert(0 <= tj < t.len() && t[tj].0 == k2);
                if tj != j {
                    if tj == s.len() {
                        assert(false);
                    }
                    assert(s[tj].0 == k2);
                    assert(false);
                }
            }
        }
    }
}

/// The pre-mutation snapshot of every declaration node, keyed by identity.
pub struct ItemMap {
    pub entries: Vec<(u64, Item)>,
}

pub open spec fn im_entries_view(s: Seq<(u64, Item)>) -> Seq<(u64, ItemV)> {
    Seq::new(s.len(), |i: int| (s[i].0, item_view(s[i].1)))
}

impl View for ItemMap {
    type V = Seq<(u64, ItemV)>;

    open spec fn view(&self) -> Seq<(u64, ItemV)> {
        im_entries_view(self.entries@)
    }
}

impl ItemMap {
    pub open spec fn wf(&self) -> bool {
        im_unique(self@)
    }

    pub fn new() -> (r: ItemMap)
        ensures
            r@ == Seq::<(u64, ItemV)>::empty(),
            r.wf(),
    {
        let r = ItemMap { entries: Vec::new() };
        proof {
            assert(r@ =~= Seq::<(u64, ItemV)>::empty());
        }
        r
    }

    fn index_of(&self, k: u64) -> (r: Option<usize>)
        ensures
            match r {
                Some(i) => i < self@.len() && self@[i as int].0 == k,
                None => !im_has_key(self@, k),
            },
    {
        let mut i: usize = 0;
        while i < self.entries.len()
            invariant
                i <= self.entries@.len(),
                forall|j: int| 0 <= j < i ==> (#[trigger] self@[j]).0 != k,
                self@.len() == self.entries@.len(),
            decreases self.entries@.len() - i,
        {
            if self.entries[i].0 == k {
                return Some(i);
            }
            i += 1;
        }
        None
    }

    pub fn contains_key(&self, k: u64) -> (r: bool)
        ensures
            r == im_has_key(self@, k),
    {
        match self.index_of(k) {
            Some(i) => {
                proof {
                    assert((self@[i as int]).0 == k);
                }
                true
            },
            None => false,
        }
    }

    pub fn get(&self, k: u64) -> (r: Option<&Item>)
        requires
            self.wf(),
        ensures
            match r {
                Some(it) => im_lookup(self@, k) == Some(item_view(*it)),
                None => im_lookup(self@, k) is None,
            },
    {
        match self.index_of(k) {
            Some(i) => {
                proof {
                    assert((self@[i as int]).0 == k);
                    let j = im_key_at(self@, k);
                    assert(0 <= j < self@.len() && self@[j].0 == k);
                    if j != i {
                        assert(false);
                    }
                }
                Some(&self.entries[i].1)
            },
            None => None,
        }
    }

    pub fn insert(&mut self, k: u64, it: Item)
        requires
            old(self).wf(),
        ensures
            final(self).wf(),
            final(self)@ == im_insert(old(self)@, k, item_view(it)),
    {
        proof {
            lemma_im_insert(old(self)@, k, item_view(it));
        }
        match self.index_of(k) {
            Some(i) => {
                proof {
                    assert((self@[i as int]).0 == k);
                    let j = im_key_at(self@, k);
                    assert(0 <= j < self@.len() && self@[j].0 == k);
                    if j != i {
                        assert(false);
                    }
                }
                self.entries.set(i, (k, it));
                proof {
                    assert(self@ =~= im_insert(old(self)@, k, item_view(it)));
                }
            },
            None => {
                self.entries.push((k, it));
                proof {
                    assert(self@ =~= im_insert(old(self)@, k, item_view(it)));
                }
            },
        }
    }

    pub fn clear(&mut self)
        ensures
            final(self)@ == Seq::<(u64, ItemV)>::empty(),
            final(self).wf(),
    {
        self.entries = Vec::new();
        proof {
            assert(self@ =~= Seq::<(u64, ItemV)>::empty());
        }
    }

    pub fn len(&self) -> (r: usize)
        ensures
            r == self@.len(),
    {
        self.entries.len()
    }

    pub fn entry_at(&self, i: usize) -> (r: (u64, &Item))
        requires
            i < self@.len(),
        ensures
            self@[i as int].0 == r.0,
            self@[i as int].1 == item_view(*r.1),
    {
        let e = &self.entries[i];
        (e.0, &e.1)
    }
}

// ------------------------------------------------------------------
// Destination map: moved item identity -> destination container identity
// ------------------------------------------------------------------

pub open spec fn dm_has_key(s: Seq<(u64, u64)>, k: u64) -> bool {
    exists|i: int| 0 <= i < s.len() && (#[trigger] s[i]).0 == k
}

pub open spec fn dm_key_at(s: Seq<(u64, u64)>, k: u64) -> int {
    choose|i: int| 0 <= i < s.len() && (#[trigger] s[i]).0 == k
}

pub open spec fn dm_lookup(s: Seq<(u64, u64)>, k: u64) -> Option<u64> {
    if dm_has_key(s, k) {
        Some(s[dm_key_at(s, k)].1)
    } else {
        None
    }
}

pub open spec fn dm_unique(s: Seq<(u64, u64)>) -> bool {
    forall|i: int, j: int| 0 <= i < j < s.len() ==> (#[trigger] s[i]).0 != (#[trigger] s[j]).0
}

pub open spec fn dm_insert(s: Seq<(u64, u64)>, k: u64, v: u64) -> Seq<(u64, u64)> {
    if dm_has_key(s, k) {
        s.update(dm_key_at(s, k), (k, v))
    } else {
        s.push((k, v))
    }
}

pub proof fn lemma_dm_insert(s: Seq<(u64, u64)>, k: u64, v: u64)
    requires
        dm_unique(s),
    ensures
        dm_unique(dm_insert(s, k, v)),
        dm_lookup(dm_insert(s, k, v), k) == Some(v),
        forall|k2: u64| k2 != k ==> dm_lookup(dm_insert(s, k, v), k2) == dm_lookup(s, k2),
        forall|k2: u64| dm_has_key(dm_insert(s, k, v), k2) == (dm_has_key(s, k2) || k2 == k),
{
    let t = dm_insert(s, k, v);
    if dm_has_key(s, k) {
        let i = dm_key_at(s, k);
        assert(0 <= i < s.len() && s[i].0 == k);
        assert forall|k2: u64| dm_has_key(t, k2) == (dm_has_key(s, k2) || k2 == k) by {
            if dm_has_key(t, k2) {
                let j = choose|j: int| 0 <= j < t.len() && (#[trigger] t[j]).0 == k2;
                if j != i {
                    assert(s[j].0 == k2);
                }
            }
            if dm_has_key(s, k2) {
                let j = choose|j: int| 0 <= j < s.len() && (#[trigger] s[j]).0 == k2;
                if j != i {
                    assert(t[j].0 == k2);
                } else {
                    assert(k2 == k && t[i].0 == k);
                }
            }
            if k2 == k {
                assert(t[i].0 == k2);
            }
        }
        let ti = dm_key_at(t, k);
        assert(0 <= ti < t.len() && t[ti].0 == k);
        if ti != i {
            assert(s[ti].0 == k);
            assert(false);
        }
        assert forall|k2: u64| k2 != k implies dm_lookup(t, k2) == dm_lookup(s, k2) by {
            if dm_has_key(s, k2) {
                let j = dm_key_at(s, k2);
                assert(0 <= j < s.len() && s[j].0 == k2);
                assert(j != i);
                assert(t[j].0 == k2);
                let tj = dm_key_at(t, k2);
                assert(0 <= tj < t.len() && t[tj].0 == k2);
                if tj != j {
                    if tj == i {
                        assert(t[tj].0 == k);
                        assert(false);
                    }
                    assert(s[tj].0 == k2);
                    assert(false);
                }
            }
        }
    } else {
        assert(t == s.push((k, v)));
        assert(t[s.len() as int].0 == k);
        assert forall|k2: u64| dm_has_key(t, k2) == (dm_has_key(s, k2) || k2 == k) by {
            if dm_has_key(t, k2) {
                let j = choose|j: int| 0 <= j < t.len() && (#[trigger] t[j]).0 == k2;
                if j < s.len() {
                    assert(s[j].0 == k2);
                } else {
                    assert(k2 == k);
                }
            }
            if dm_has_key(s, k2) {
                let j = choose|j: int| 0 <= j < s.len() && (#[trigger] s[j]).0 == k2;
                assert(t[j].0 == k2);
            }
        }
        let ti = dm_key_at(t, k);
        assert(0 <= ti < t.len() && t[ti].0 == k);
        if ti != s.len() {
            assert(s[ti].0 == k);
            assert(false);
        }
        assert forall|k2: u64| k2 != k implies dm_lookup(t, k2) == dm_lookup(s, k2) by {
            if dm_has_key(s, k2) {
                let j = dm_key_at(s, k2);
                assert(0 <= j < s.len() && s[j].0 == k2);
                assert(t[j].0 == k2);
                let tj = dm_key_at(t, k2);
                assert(0 <= tj < t.len() && t[tj].0 == k2);
                if tj != j {
                    if tj == s.len() {
                        assert(false);
                    }
                    assert(s[tj].0 == k2);
                    assert(false);
                }
            }
        }
    }
}

/// Maps the identity of an item slated for a move to the identity of the
/// container it moves into.
pub struct DestMap {
    pub entries: Vec<(u64, u64)>,
}

impl View for DestMap {
    type V = Seq<(u64, u64)>;

    open spec fn view(&self) -> Seq<(u64, u64)> {
        self.entries@
    }
}

impl DestMap {
    pub open spec fn wf(&self) -> bool {
        dm_unique(self@)
    }

    pub fn new() -> (r: DestMap)
        ensures
            r@ == Seq::<(u64, u64)>::empty(),
            r.wf(),
    {
        let r = DestMap { entries: Vec::new() };
        proof {
            assert(r@ =~= Seq::<(u64, u64)>::empty());
        }
        r
    }

    fn index_of(&self, k: u64) -> (r: Option<usize>)
        ensures
            match r {
                Some(i) => i < self@.len() && self@[i as int].0 == k,
                None => !dm_has_key(self@, k),
            },
    {
        let mut i: usize = 0;
        while i < self.entries.len()
            invariant
                i <= self.entries@.len(),
                forall|j: int| 0 <= j < i ==> (#[trigger] self@[j]).0 != k,
            decreases self.entries@.len() - i,
        {
            if self.entries[i].0 == k {
                return Some(i);
            }
            i += 1;
        }
        None
    }

    pub fn insert(&mut self, k: u64, v: u64)
        requires
            old(self).wf(),
        ensures
            final(self).wf(),
            final(self)@ == dm_insert(old(self)@, k, v),
    {
        proof {
            lemma_dm_insert(old(self)@, k, v);
        }
        match self.index_of(k) {
            Some(i) => {
                proof {
                    let j = dm_key_at(self@, k);
                    assert(0 <= j < self@.len() && self@[j].0 == k);
                    if j != i {
                        assert(false);
                    }
                }
                self.entries.set(i, (k, v));
                proof {
                    assert(self@ =~= dm_insert(old(self)@, k, v));
                }
            },
            None => {
                self.entries.push((k, v));
            },
        }
    }

    pub fn len(&self) -> (r: usize)
        ensures
            r == self@.len(),
    {
        self.entries.len()
    }

    pub fn entry_at(&self, i: usize) -> (r: (u64, u64))
        requires
            i < self@.len(),
        ensures
            self@[i as int] == r,
    {
        self.entries[i]
    }
}


// ------------------------------------------------------------------
// Rename map: old container identifier -> new identifier
// ------------------------------------------------------------------

pub open spec fn nm_has_key(s: Seq<(Seq<char>, Seq<char>)>, k: Seq<char>) -> bool {
    exists|i: int| 0 <= i < s.len() && (#[trigger] s[i]).0 == k
}

pub open spec fn nm_key_at(s: Seq<(Seq<char>, Seq<char>)>, k: Seq<char>) -> int {
    choose|i: int| 0 <= i < s.len() && (#[trigger] s[i]).0 == k
}

pub open spec fn nm_lookup(s: Seq<(Seq<char>, Seq<char>)>, k: Seq<char>) -> Option<Seq<char>> {
    if nm_has_key(s, k) {
        Some(s[nm_key_at(s, k)].1)
    } else {
        None
    }
}

pub open spec fn nm_unique(s: Seq<(Seq<char>, Seq<char>)>) -> bool {
    forall|i: int, j: int| 0 <= i < j < s.len() ==> (#[trigger] s[i]).0 != (#[trigger] s[j]).0
}

pub open spec fn nm_insert(
    s: Seq<(Seq<char>, Seq<char>)>,
    k: Seq<char>,
    v: Seq<char>,
) -> Seq<(Seq<char>, Seq<char>)> {
    if nm_has_key(s, k) {
        s.update(nm_key_at(s, k), (k, v))
    } else {
        s.push((k, v))
    }
}

pub proof fn lemma_nm_insert(s: Seq<(Seq<char>, Seq<char>)>, k: Seq<char>, v: Seq<char>)
    requires
        nm_unique(s),
    ensures
        nm_unique(nm_insert(s, k, v)),
        nm_lookup(nm_insert(s, k, v), k) == Some(v),
        forall|k2: Seq<char>| k2 != k ==> nm_lookup(nm_insert(s, k, v), k2) == nm_lookup(s, k2),
        forall|k2: Seq<char>| nm_has_key(nm_insert(s, k, v), k2) == (nm_has_key(s, k2) || k2
            == k),
{
    let t = nm_insert(s, k, v);
    if nm_has_key(s, k) {
        let i = nm_key_at(s, k);
        assert(0 <= i < s.len() && s[i].0 == k);
        assert forall|k2: Seq<char>| nm_has_key(t, k2) == (nm_has_key(s, k2) || k2 == k) by {
            if nm_has_key(t, k2) {
                let j = choose|j: int| 0 <= j < t.len() && (#[trigger] t[j]).0 == k2;
                if j != i {
                    assert(s[j].0 == k2);
                }
            }
            if nm_has_key(s, k2) {
                let j = choose|j: int| 0 <= j < s.len() && (#[trigger] s[j]).0 == k2;
                if j != i {
                    assert(t[j].0 == k2);
                } else {
                    assert(k2 == k && t[i].0 == k);
                }
            }
            if k2 == k {
                assert(t[i].0 == k2);
            }
        }
        let ti = nm_key_at(t, k);
        assert(0 <= ti < t.len() && t[ti].0 == k);
        if ti != i {
            assert(s[ti].0 == k);
            assert(false);
        }
        assert forall|k2: Seq<char>| k2 != k implies nm_lookup(t, k2) == nm_lookup(s, k2) by {
            if nm_has_key(s, k2) {
                let j = nm_key_at(s, k2);
                assert(0 <= j < s.len() && s[j].0 == k2);
                assert(j != i);
                assert(t[j].0 == k2);
                let tj = nm_key_at(t, k2);
                assert(0 <= tj < t.len() && t[tj].0 == k2);
                if tj != j {
                    if tj == i {
                        assert(t[tj].0 == k);
                        assert(false);
                    }
                    assert(s[tj].0 == k2);
                    assert(false);
                }
            }
        }
    } else {
        assert(t == s.push((k, v)));
        assert(t[s.len() as int].0 == k);
        assert forall|k2: Seq<char>| nm_has_key(t, k2) == (nm_has_key(s, k2) || k2 == k) by {
            if nm_has_key(t, k2) {
                let j = choose|j: int| 0 <= j < t.len() && (#[trigger] t[j]).0 == k2;
                if j < s.len() {
                    assert(s[j].0 == k2);
                } else {
                    assert(k2 == k);
                }
            }
            if nm_has_key(s, k2) {
                let j = choose|j: int| 0 <= j < s.len() && (#[trigger] s[j]).0 == k2;
                assert(t[j].0 == k2);
            }
        }
        let ti = nm_key_at(t, k);
        assert(0 <= ti < t.len() && t[ti].0 == k);
        if ti != s.len() {
            assert(s[ti].0 == k);
            assert(false);
        }
        assert forall|k2: Seq<char>| k2 != k implies nm_lookup(t, k2) == nm_lookup(s, k2) by {
            if nm_has_key(s, k2) {
                let j = nm_key_at(s, k2);
                assert(0 <= j < s.len() && s[j].0 == k2);
                assert(t[j].0 == k2);
                let tj = nm_key_at(t, k2);
                assert(0 <= tj < t.len() && t[tj].0 == k2);
                if tj != j {
                    if tj == s.len() {
                        assert(false);
                    }
                    assert(s[tj].0 == k2);
                    assert(false);
                }
            }
        }
    }
}

/// Maps an old (generated) container identifier to the identifier that
/// replaces it in every reference path.
pub struct NameMap {
    pub entries: Vec<(String, String)>,
}

pub open spec fn nm_entries_view(s: Seq<(String, String)>) -> Seq<(Seq<char>, Seq<char>)> {
    Seq::new(s.len(), |i: int| (s[i].0@, s[i].1@))
}

impl View for NameMap {
    type V = Seq<(Seq<char>, Seq<char>)>;

    open spec fn view(&self) -> Seq<(Seq<char>, Seq<char>)> {
        nm_entries_view(self.entries@)
    }
}

impl NameMap {
    pub open spec fn wf(&self) -> bool {
        nm_unique(self@)
    }

    pub fn new() -> (r: NameMap)
        ensures
            r@ == Seq::<(Seq<char>, Seq<char>)>::empty(),
            r.wf(),
    {
        let r = NameMap { entries: Vec::new() };
        proof {
            assert(r@ =~= Seq::<(Seq<char>, Seq<char>)>::empty());
        }
        r
    }

    fn index_of(&self, k: &String) -> (r: Option<usize>)
        ensures
            match r {
                Some(i) => i < self@.len() && self@[i as int].0 == k@,
                None => !nm_has_key(self@, k@),
            },
    {
        let mut i: usize = 0;
        while i < self.entries.len()
            invariant
                i <= self.entries@.len(),
                forall|j: int| 0 <= j < i ==> (#[trigger] self@[j]).0 != k@,
            decreases self.entries@.len() - i,
        {
            if self.entries[i].0 == *k {
                return Some(i);
            }
            i += 1;
        }
        None
    }

    pub fn get(&self, k: &String) -> (r: Option<&String>)
        requires
            self.wf(),
        ensures
            match r {
                Some(v) => nm_lookup(self@, k@) == Some(v@),
                None => nm_lookup(self@, k@) is None,
            },
    {
        match self.index_of(k) {
            Some(i) => {
                proof {
                    let j = nm_key_at(self@, k@);
                    assert(0 <= j < self@.len() && self@[j].0 == k@);
                    if j != i {
                        assert(false);
                    }
                }
                Some(&self.entries[i].1)
            },
            None => None,
        }
    }

    pub fn insert(&mut self, k: String, v: String)
        requires
            old(self).wf(),
        ensures
            final(self).wf(),
            final(self)@ == nm_insert(old(self)@, k@, v@),
    {
        proof {
            lemma_nm_insert(old(self)@, k@, v@);
        }
        match self.index_of(&k) {
            Some(i) => {
                proof {
                    let j = nm_key_at(self@, k@);
                    assert(0 <= j < self@.len() && self@[j].0 == k@);
                    if j != i {
                        assert(false);
                    }
                }
                self.entries.set(i, (k, v));
                proof {
                    assert(self@ =~= nm_insert(old(self)@, k@, v@));
                }
            },
            None => {
                self.entries.push((k, v));
                proof {
                    assert(self@ =~= nm_insert(old(self)@, k@, v@));
                }
            },
        }
    }
}

} // verus!
