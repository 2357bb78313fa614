//! The space-time reservation table of the multi-robot planner.
//!
//! A reservation maps a cell at a millisecond, `(x, y, time_ms)`, to the
//! robot that holds it; a later reservation of the same key takes it over.
//! Beside the table, each robot has an index of the keys it reserved.
//! Clearing a robot's reservations removes exactly the keys it still holds,
//! so a key another robot took over stays with that robot. The index is
//! rebuilt from the table when old reservations are dropped. Both are
//! ordered maps and sets, so a probe of one key costs a logarithmic search.
use vstd::prelude::*;
use std::collections::{BTreeMap, BTreeSet};
use vstd::std_specs::iter::IteratorSpec;

verus! {

broadcast use vstd::std_specs::btree::group_btree_axioms, vstd::laws_cmp::group_laws_cmp;

/// A reserved cell at a time: `(x, y, time_ms)`.
pub type Key = (usize, usize, u64);

/// The reservations and the per-robot index.
pub struct ReservationTable {
    entries: BTreeMap<Key, u32>,
    index: BTreeSet<(u32, Key)>,
}

impl ReservationTable {
    /// The reservations: key to holding robot.
    pub closed spec fn map(&self) -> Map<Key, u32> {
        self.entries@
    }

    /// The per-robot index: pairs of a robot and a key it reserved.
    pub closed spec fn index(&self) -> Set<(u32, Key)> {
        self.index@
    }

    /// Well-formedness: every held key is indexed under its holder.
    pub closed spec fn wf(&self) -> bool {
        forall|k: Key| #[trigger] self.map().contains_key(k) ==> self.index().contains((self.map()[k], k))
    }

    /// Whether the index has some key of robot `r`.
    pub open spec fn indexed(&self, r: u32) -> bool {
        exists|k: Key| #[trigger] self.index().contains((r, k))
    }

    /// The index a rebuild derives from the table: each held key under its
    /// holder.
    pub open spec fn index_of_map(m: Map<Key, u32>) -> Set<(u32, Key)> {
        Set::new(|p: (u32, Key)| m.contains_key(p.1) && m[p.1] == p.0)
    }

    pub fn new() -> (t: ReservationTable)
        ensures
            t.wf(),
            t.map() == Map::<Key, u32>::empty(),
            t.index() == Set::<(u32, Key)>::empty(),
    {
        ReservationTable { entries: BTreeMap::new(), index: BTreeSet::new() }
    }

    /// Number of reservations.
    pub fn len(&self) -> (n: usize)
        requires
            self.wf(),
        ensures
            n == self.map().len(),
    {
        self.entries.len()
    }

    /// The robot holding `key`, if any.
    pub fn get(&self, key: Key) -> (r: Option<u32>)
        requires
            self.wf(),
        ensures
            r == (if self.map().contains_key(key) { Some(self.map()[key]) } else { None::<u32> }),
    {
        match self.entries.get(&key) {
            Some(r) => Some(*r),
            None => None,
        }
    }

    /// Reserve `key` for `robot`, taking it over from any earlier holder,
    /// and index it under `robot`.
    pub fn insert(&mut self, key: Key, robot: u32)
        requires
            old(self).wf(),
        ensures
            final(self).wf(),
            final(self).map() == old(self).map().insert(key, robot),
            final(self).index() == old(self).index().insert((robot, key)),
    {
        self.entries.insert(key, robot);
        self.index.insert((robot, key));
        proof {
            assert forall|k: Key| #[trigger] self.map().contains_key(k) implies self.index().contains((self.map()[k], k)) by {
                if k != key {
                    assert(old(self).map().contains_key(k));
                }
            }
        }
    }
}

/// In a well-formed table every held key is indexed under its holder.
pub proof fn lemma_held_is_indexed(t: ReservationTable, k: Key)
    requires
        t.wf(),
        t.map().contains_key(k),
    ensures
        t.index().contains((t.map()[k], k)),
{
}

/// Clearing robot `r` leaves it holding nothing and every other robot
/// holding all it held: no key of the result is held by `r`, and each key
/// held by another robot stays with that robot.
pub proof fn law_clear_robot_keeps_others(m: Map<Key, u32>, r: u32)
    ensures
        forall|k: Key| #[trigger] without_owner(m, r).contains_key(k) ==> without_owner(m, r)[k] != r,
        forall|k: Key|
            m.contains_key(k) && m[k] != r ==> #[trigger] without_owner(m, r).contains_key(k) && without_owner(m, r)[k]
                == m[k],
{
}

/// The reservations left after clearing the keys held by `r`.
pub open spec fn without_owner(m: Map<Key, u32>, r: u32) -> Map<Key, u32> {
    Map::new(|k: Key| m.contains_key(k) && m[k] != r, |k: Key| m[k])
}

/// Which entries a pass over the table keeps.
pub enum Keep {
    /// Entries whose time is at least the cutoff.
    TimeFrom(u64),
    /// Entries held by another robot than this one.
    OwnerNot(u32),
}

/// Whether a pass in `mode` keeps entry `e`.
pub open spec fn keeps(mode: Keep, e: (Key, u32)) -> bool {
    match mode {
        Keep::TimeFrom(c) => e.0.2 >= c,
        Keep::OwnerNot(r) => e.1 != r,
    }
}

/// The reservations of `m` that a pass in `mode` keeps.
pub open spec fn kept_map(m: Map<Key, u32>, mode: Keep) -> Map<Key, u32> {
    Map::new(|k: Key| m.contains_key(k) && keeps(mode, (k, m[k])), |k: Key| m[k])
}

impl ReservationTable {
    fn keeps_entry(mode: &Keep, k: Key, r: u32) -> (b: bool)
        ensures
            b == keeps(*mode, (k, r)),
    {
        match mode {
            Keep::TimeFrom(c) => k.2 >= *c,
            Keep::OwnerNot(o) => r != *o,
        }
    }

    /// The reservations a pass in `mode` keeps.
    fn kept_entries(&self, mode: &Keep) -> (v: BTreeMap<Key, u32>)
        ensures
            v@ == kept_map(self.map(), *mode),
    {
        let ghost m = self.map();
        let mut v: BTreeMap<Key, u32> = BTreeMap::new();
        for kv in it: self.entries.iter()
            invariant
                m == self.entries@,
                forall|k: Key| #[trigger] v@.contains_key(k) ==> m.contains_key(k) && v@[k] == m[k] && keeps(*mode, (k, m[k])),
                forall|i: int|
                    0 <= i < it.index() && keeps(*mode, (*it.seq()[i].0, *it.seq()[i].1)) ==> #[trigger] v@.contains_key(*it.seq()[i].0),
                it.seq() == self.entries.iter().remaining(),
        {
            let k = *kv.0;
            let r = *kv.1;
            if Self::keeps_entry(mode, k, r) {
                v.insert(k, r);
            }
        }
        proof {
            let s = self.entries.iter().remaining();
            assert forall|k: Key| #[trigger] kept_map(m, *mode).contains_key(k) implies v@.contains_key(k) by {
                assert(s.contains((&k, &m[k])));
                let i = choose|i: int| 0 <= i < s.len() && s[i] == (&k, &m[k]);
                assert(*s[i].0 == k);
            }
            assert(v@ =~= kept_map(m, *mode));
        }
        v
    }

    /// Replace the index by the held keys of the table, each under its
    /// holder.
    fn rebuild_index(&mut self)
        ensures
            final(self).map() == old(self).map(),
            final(self).index() == Self::index_of_map(old(self).map()),
            final(self).wf(),
    {
        let ghost m = self.map();
        let mut idx: BTreeSet<(u32, Key)> = BTreeSet::new();
        for kv in it: self.entries.iter()
            invariant
                m == self.entries@,
                forall|p: (u32, Key)| #[trigger] idx@.contains(p) ==> m.contains_key(p.1) && m[p.1] == p.0,
                forall|i: int| 0 <= i < it.index() ==> #[trigger] idx@.contains((*it.seq()[i].1, *it.seq()[i].0)),
                it.seq() == self.entries.iter().remaining(),
        {
            idx.insert((*kv.1, *kv.0));
        }
        proof {
            let s = self.entries.iter().remaining();
            assert forall|p: (u32, Key)| #[trigger] Self::index_of_map(m).contains(p) implies idx@.contains(p) by {
                let k = p.1;
                assert(s.contains((&k, &m[k])));
                let i = choose|i: int| 0 <= i < s.len() && s[i] == (&k, &m[k]);
                assert(idx@.contains((*s[i].1, *s[i].0)));
            }
            assert(idx@ =~= Self::index_of_map(m));
        }
        self.index = idx;
    }

    /// Drop every reservation older than `cutoff`, then rebuild the index.
    pub fn retain_from(&mut self, cutoff: u64)
        requires
            old(self).wf(),
        ensures
            final(self).wf(),
            final(self).map() == kept_map(old(self).map(), Keep::TimeFrom(cutoff)),
            final(self).index() == Self::index_of_map(final(self).map()),
    {
        let kept = self.kept_entries(&Keep::TimeFrom(cutoff));
        self.entries = kept;
        self.rebuild_index();
    }

    /// Whether robot `r` has a key in the index.
    fn is_indexed(&self, r: u32) -> (b: bool)
        ensures
            b == self.indexed(r),
    {
        let mut found = false;
        for p in it: self.index.iter()
            invariant
                it.seq() == self.index.iter().remaining(),
                found <==> exists|i: int| 0 <= i < it.index() && (#[trigger] it.seq()[i]).0 == r,
        {
            if p.0 == r {
                found = true;
            }
        }
        proof {
            let s = self.index.iter().remaining();
            assert(s.unref().to_set() == self.index@);
            if found {
                let i = choose|i: int| 0 <= i < s.len() && (#[trigger] s[i]).0 == r;
                assert(s.unref()[i] == *s[i]);
                assert(s.unref().to_set().contains(*s[i]));
                assert(self.index().contains((r, s[i].1)));
            }
            if self.indexed(r) {
                let k = choose|k: Key| #[trigger] self.index().contains((r, k));
                assert(s.unref().to_set().contains((r, k)));
                let i = choose|i: int| 0 <= i < s.unref().len() && s.unref()[i] == (r, k);
                assert((*s[i]).0 == r);
            }
        }
        found
    }

    /// The index without the keys of robot `r`.
    fn index_without(&self, r: u32) -> (x: BTreeSet<(u32, Key)>)
        ensures
            x@ == self.index().filter(|p: (u32, Key)| p.0 != r),
    {
        let mut x: BTreeSet<(u32, Key)> = BTreeSet::new();
        for p in it: self.index.iter()
            invariant
                it.seq() == self.index.iter().remaining(),
                forall|q: (u32, Key)| #[trigger] x@.contains(q) ==> self.index@.contains(q) && q.0 != r,
                forall|i: int| 0 <= i < it.index() && (*it.seq()[i]).0 != r ==> #[trigger] x@.contains(*it.seq()[i]),
        {
            if p.0 != r {
                x.insert(*p);
            }
        }
        proof {
            let s = self.index.iter().remaining();
            assert(s.unref().to_set() == self.index@);
            assert forall|q: (u32, Key)| #[trigger] self.index().contains(q) && q.0 != r implies x@.contains(q) by {
                assert(s.unref().to_set().contains(q));
                let i = choose|i: int| 0 <= i < s.unref().len() && s.unref()[i] == q;
                assert(*s[i] == q);
            }
            assert(x@ =~= self.index().filter(|p: (u32, Key)| p.0 != r));
        }
        x
    }

    /// Clear the reservations of robot `r`: the keys `r` holds are dropped
    /// and every other key stays with its holder. When the index has keys
    /// of `r` it forgets them; otherwise it is rebuilt from the table.
    pub fn clear_robot(&mut self, r: u32)
        requires
            old(self).wf(),
        ensures
            final(self).wf(),
            final(self).map() == without_owner(old(self).map(), r),
            old(self).indexed(r) ==> final(self).index() == old(self).index().filter(|p: (u32, Key)| p.0 != r),
            !old(self).indexed(r) ==> final(self).index() == Self::index_of_map(final(self).map()),
    {
        let kept = self.kept_entries(&Keep::OwnerNot(r));
        proof {
            assert(kept_map(old(self).map(), Keep::OwnerNot(r)) =~= without_owner(old(self).map(), r));
        }
        if self.is_indexed(r) {
            let idx = self.index_without(r);
            self.entries = kept;
            self.index = idx;
            proof {
                assert forall|k: Key| #[trigger] self.map().contains_key(k) implies self.index().contains((self.map()[k], k)) by {
                    assert(old(self).map().contains_key(k));
                    assert(old(self).index().contains((old(self).map()[k], k)));
                }
            }
        } else {
            self.entries = kept;
            self.rebuild_index();
        }
    }
}

/// Whether `m` holds key `k` at cell `(x, y)` with a time in `[lo, hi]`,
/// for a robot other than `excl`.
pub open spec fn holds(m: Map<Key, u32>, k: Key, x: usize, y: usize, lo: int, hi: int, excl: Option<u32>) -> bool {
    &&& m.contains_key(k)
    &&& k.0 == x && k.1 == y
    &&& lo <= k.2 <= hi
    &&& excl != Some(m[k])
}

/// Whether some robot other than `excl` holds cell `(x, y)` at a time in
/// `[lo, hi]`.
pub open spec fn held_in(m: Map<Key, u32>, x: usize, y: usize, lo: int, hi: int, excl: Option<u32>) -> bool {
    exists|k: Key| #[trigger] holds(m, k, x, y, lo, hi, excl)
}

/// Whether robot `id`, other than `excl`, holds cell `(x, y)` at a time in
/// `[lo, hi]`.
pub open spec fn held_by_in(m: Map<Key, u32>, id: u32, x: usize, y: usize, lo: int, hi: int, excl: Option<u32>) -> bool {
    exists|k: Key| #[trigger] holds(m, k, x, y, lo, hi, excl) && m[k] == id
}

impl ReservationTable {
    /// Whether a robot other than `excl` holds `(x, y)` at a time in
    /// `[lo, hi]`.
    pub fn any_held(&self, x: usize, y: usize, lo: u64, hi: u64, excl: Option<u32>) -> (b: bool)
        requires
            self.wf(),
        ensures
            b == held_in(self.map(), x, y, lo as int, hi as int, excl),
    {
        let ghost m = self.map();
        if lo > hi {
            return false;
        }
        let mut t: u64 = lo;
        loop
            invariant
                m == self.map(),
                lo <= t <= hi,
                forall|t2: u64| lo <= t2 < t ==> !#[trigger] holds(m, (x, y, t2), x, y, lo as int, hi as int, excl),
            decreases hi - t,
        {
            if let Some(r) = self.entries.get(&(x, y, t)) {
                let other = match excl {
                    Some(e) => *r != e,
                    None => true,
                };
                if other {
                    assert(holds(m, (x, y, t), x, y, lo as int, hi as int, excl));
                    return true;
                }
            }
            if t == hi {
                proof {
                    if held_in(m, x, y, lo as int, hi as int, excl) {
                        let k = choose|k: Key| #[trigger] holds(m, k, x, y, lo as int, hi as int, excl);
                        assert(k == (x, y, k.2));
                        if k.2 < t {
                            assert(!holds(m, (x, y, k.2), x, y, lo as int, hi as int, excl));
                        }
                    }
                }
                return false;
            }
            t = t + 1;
        }
    }

    /// The robots other than `excl` that hold `(x, y)` at a time in
    /// `[lo, hi]`.
    pub fn holders_in(&self, x: usize, y: usize, lo: u64, hi: u64, excl: Option<u32>) -> (v: Vec<u32>)
        requires
            self.wf(),
        ensures
            forall|id: u32| #[trigger] v@.contains(id) <==> held_by_in(self.map(), id, x, y, lo as int, hi as int, excl),
    {
        let ghost m = self.map();
        let mut v: Vec<u32> = Vec::new();
        if lo > hi {
            return v;
        }
        let mut t: u64 = lo;
        loop
            invariant
                m == self.map(),
                lo <= t <= hi,
                forall|id: u32| #[trigger] v@.contains(id) ==> held_by_in(m, id, x, y, lo as int, hi as int, excl),
                forall|t2: u64|
                    lo <= t2 < t && #[trigger] holds(m, (x, y, t2), x, y, lo as int, hi as int, excl) ==> v@.contains(
                        m[(x, y, t2)],
                    ),
            decreases hi - t,
        {
            let ghost before = v@;
            if let Some(r) = self.entries.get(&(x, y, t)) {
                let other = match excl {
                    Some(e) => *r != e,
                    None => true,
                };
                if other {
                    v.push(*r);
                    proof {
                        assert(holds(m, (x, y, t), x, y, lo as int, hi as int, excl));
                        assert(v@[before.len() as int] == m[(x, y, t)]);
                        assert forall|id: u32| #[trigger] v@.contains(id) implies held_by_in(m, id, x, y, lo as int, hi as int, excl) by {
                            let a = choose|a: int| 0 <= a < v@.len() && v@[a] == id;
                            if a < before.len() {
                                assert(before[a] == id);
                                assert(before.contains(id));
                            } else {
                                assert(holds(m, (x, y, t), x, y, lo as int, hi as int, excl) && m[(x, y, t)] == id);
                            }
                        }
                    }
                }
            }
            proof {
                assert forall|t2: u64|
                    lo <= t2 < t + 1 && #[trigger] holds(m, (x, y, t2), x, y, lo as int, hi as int, excl) implies v@.contains(
                        m[(x, y, t2)],
                    ) by {
                    if t2 < t {
                        let a = choose|a: int| 0 <= a < before.len() && before[a] == m[(x, y, t2)];
                        assert(v@[a] == before[a]);
                    } else {
                        assert(v@[before.len() as int] == m[(x, y, t2)]);
                    }
                }
            }
            if t == hi {
                proof {
                    assert forall|id: u32| held_by_in(m, id, x, y, lo as int, hi as int, excl) implies #[trigger] v@.contains(id) by {
                        let k = choose|k: Key| #[trigger] holds(m, k, x, y, lo as int, hi as int, excl) && m[k] == id;
                        assert(k == (x, y, k.2));
                        assert(holds(m, (x, y, k.2), x, y, lo as int, hi as int, excl));
                    }
                }
                return v;
            }
            t = t + 1;
        }
    }

    /// Whether one robot other than `excl` holds both `a` at a time in
    /// `[alo, ahi]` and `b` at a time in `[blo, bhi]`.
    pub fn shared_holder(
        &self,
        a: (usize, usize),
        alo: u64,
        ahi: u64,
        b: (usize, usize),
        blo: u64,
        bhi: u64,
        excl: Option<u32>,
    ) -> (r: bool)
        requires
            self.wf(),
        ensures
            r == exists|id: u32|
                held_by_in(self.map(), id, a.0, a.1, alo as int, ahi as int, excl) && #[trigger] held_by_in(
                    self.map(),
                    id,
                    b.0,
                    b.1,
                    blo as int,
                    bhi as int,
                    excl,
                ),
    {
        let first = self.holders_in(a.0, a.1, alo, ahi, excl);
        if first.len() == 0 {
            proof {
                if exists|id: u32|
                    held_by_in(self.map(), id, a.0, a.1, alo as int, ahi as int, excl) && #[trigger] held_by_in(
                        self.map(),
                        id,
                        b.0,
                        b.1,
                        blo as int,
                        bhi as int,
                        excl,
                    ) {
                    let id = choose|id: u32|
                        held_by_in(self.map(), id, a.0, a.1, alo as int, ahi as int, excl) && #[trigger] held_by_in(
                            self.map(),
                            id,
                            b.0,
                            b.1,
                            blo as int,
                            bhi as int,
                            excl,
                        );
                    assert(first@.contains(id));
                }
            }
            return false;
        }
        let second = self.holders_in(b.0, b.1, blo, bhi, excl);
        let mut i: usize = 0;
        while i < first.len()
            invariant
                i <= first@.len(),
                forall|id: u32| #[trigger] first@.contains(id) <==> held_by_in(self.map(), id, a.0, a.1, alo as int, ahi as int, excl),
                forall|id: u32| #[trigger] second@.contains(id) <==> held_by_in(self.map(), id, b.0, b.1, blo as int, bhi as int, excl),
                forall|j: int| 0 <= j < i ==> !second@.contains(#[trigger] first@[j]),
            decreases first@.len() - i,
        {
            let id = first[i];
            let mut j: usize = 0;
            while j < second.len()
                invariant
                    j <= second@.len(),
                    i < first@.len(),
                    id == first@[i as int],
                    forall|id: u32| #[trigger] first@.contains(id) <==> held_by_in(self.map(), id, a.0, a.1, alo as int, ahi as int, excl),
                    forall|id: u32| #[trigger] second@.contains(id) <==> held_by_in(self.map(), id, b.0, b.1, blo as int, bhi as int, excl),
                    forall|q: int| 0 <= q < j ==> second@[q] != id,
                decreases second@.len() - j,
            {
                if second[j] == id {
                    proof {
                        assert(first@.contains(id));
                        assert(second@[j as int] == id);
                        assert(second@.contains(id));
                        assert(held_by_in(self.map(), id, b.0, b.1, blo as int, bhi as int, excl));
                    }
                    return true;
                }
                j = j + 1;
            }
            i = i + 1;
        }
        proof {
            if exists|id: u32|
                held_by_in(self.map(), id, a.0, a.1, alo as int, ahi as int, excl) && #[trigger] held_by_in(
                    self.map(),
                    id,
                    b.0,
                    b.1,
                    blo as int,
                    bhi as int,
                    excl,
                ) {
                let id = choose|id: u32|
                    held_by_in(self.map(), id, a.0, a.1, alo as int, ahi as int, excl) && #[trigger] held_by_in(
                        self.map(),
                        id,
                        b.0,
                        b.1,
                        blo as int,
                        bhi as int,
                        excl,
                    );
                assert(first@.contains(id));
                let q = choose|q: int| 0 <= q < first@.len() && first@[q] == id;
                assert(!second@.contains(first@[q]));
            }
        }
        false
    }
}

} // verus!
