//! Stock of the warehouse's shelves.  A shelf tile `xN` holds at most `N`
//! items and starts full; a pickup takes one item from a shelf and a
//! delivery puts one back.  Tiles that are not shelves (dropoffs) have no
//! stock to track: they can always be picked from and delivered to.
use vstd::prelude::*;
use crate::grid_map::{GridMap, Tile, TileType, shelves_of};

verus! {

/// The stock of one shelf.
#[derive(Debug, Clone, Copy, PartialEq, Eq)]
pub struct ShelfStock {
    pub pos: (usize, usize),
    pub stock: u8,
    pub capacity: u8,
}

/// The stock of every shelf of a map.
#[derive(Debug, Clone)]
pub struct ShelfInventory {
    shelves: Vec<ShelfStock>,
}

/// The capacity a shelf tile was laid out with (0 for other tiles).
pub open spec fn capacity_of(t: Tile) -> u8 {
    match t.tile_type {
        TileType::Shelf(n) => n,
        _ => 0,
    }
}

/// The index of the first entry of `s` at `pos`, if any.
pub open spec fn entry_at(s: Seq<ShelfStock>, pos: (usize, usize)) -> Option<int>
    decreases s.len(),
{
    if s.len() == 0 {
        None
    } else {
        match entry_at(s.drop_last(), pos) {
            Some(i) => Some(i),
            None => if s.last().pos == pos {
                Some(s.len() - 1)
            } else {
                None
            },
        }
    }
}

/// Whether one item can be taken at `pos`.
pub open spec fn has_stock(s: Seq<ShelfStock>, pos: (usize, usize)) -> bool {
    match entry_at(s, pos) {
        Some(i) => s[i].stock > 0,
        None => true,
    }
}

/// Whether one item can be put at `pos`.
pub open spec fn has_room(s: Seq<ShelfStock>, pos: (usize, usize)) -> bool {
    match entry_at(s, pos) {
        Some(i) => s[i].stock < s[i].capacity,
        None => true,
    }
}

/// No shelf holds more than its capacity.
pub open spec fn stock_within(s: Seq<ShelfStock>) -> bool {
    forall|i: int| 0 <= i < s.len() ==> #[trigger] s[i].stock <= s[i].capacity
}

/// The stock at `pos` changed by `delta` (one item out or in), where the
/// shelf allows it; `changed` says whether it did.
pub open spec fn moved(before: Seq<ShelfStock>, after: Seq<ShelfStock>, pos: (usize, usize), take: bool, changed: bool) -> bool {
    match entry_at(before, pos) {
        Some(i) => {
            let e = before[i];
            if take && e.stock > 0 {
                changed && after == before.update(i, ShelfStock { stock: (e.stock - 1) as u8, ..e })
            } else if !take && e.stock < e.capacity {
                changed && after == before.update(i, ShelfStock { stock: (e.stock + 1) as u8, ..e })
            } else {
                !changed && after == before
            }
        },
        None => !changed && after == before,
    }
}

proof fn lemma_entry_at_bounds(s: Seq<ShelfStock>, pos: (usize, usize))
    ensures
        entry_at(s, pos) matches Some(i) ==> 0 <= i < s.len() && s[i].pos == pos
            && forall|j: int| 0 <= j < i ==> s[j].pos != pos,
        entry_at(s, pos) is None ==> forall|j: int| 0 <= j < s.len() ==> s[j].pos != pos,
    decreases s.len(),
{
    if s.len() > 0 {
        let t = s.drop_last();
        lemma_entry_at_bounds(t, pos);
        assert forall|j: int| 0 <= j < t.len() implies #[trigger] s[j] == t[j] by {}
    }
}

proof fn lemma_entry_at_first(s: Seq<ShelfStock>, pos: (usize, usize), i: int)
    requires
        0 <= i < s.len(),
        s[i].pos == pos,
        forall|j: int| 0 <= j < i ==> s[j].pos != pos,
    ensures
        entry_at(s, pos) == Some(i),
    decreases s.len(),
{
    let t = s.drop_last();
    if i < s.len() - 1 {
        assert forall|j: int| 0 <= j < i implies #[trigger] t[j].pos != pos by {
            assert(t[j] == s[j]);
        }
        lemma_entry_at_first(t, pos, i);
    } else {
        assert forall|j: int| 0 <= j < t.len() implies #[trigger] t[j].pos != pos by {
            assert(t[j] == s[j]);
        }
        lemma_entry_at_none(t, pos);
    }
}

proof fn lemma_entry_at_none(s: Seq<ShelfStock>, pos: (usize, usize))
    requires
        forall|j: int| 0 <= j < s.len() ==> s[j].pos != pos,
    ensures
        entry_at(s, pos) is None,
    decreases s.len(),
{
    if s.len() > 0 {
        let t = s.drop_last();
        assert forall|j: int| 0 <= j < t.len() implies #[trigger] t[j].pos != pos by {
            assert(t[j] == s[j]);
        }
        lemma_entry_at_none(t, pos);
    }
}

impl ShelfInventory {
    /// The entries, one per shelf, in map order.
    pub closed spec fn entries(&self) -> Seq<ShelfStock> {
        self.shelves@
    }

    /// Every shelf of `map`, full.
    pub fn from_map(map: &GridMap) -> (inv: ShelfInventory)
        ensures
            stock_within(inv.entries()),
            inv.entries().len() == shelves_of(map.tiles@).len(),
            forall|i: int|
                0 <= i < inv.entries().len() ==> #[trigger] inv.entries()[i] == (ShelfStock {
                    pos: (shelves_of(map.tiles@)[i].x, shelves_of(map.tiles@)[i].y),
                    stock: capacity_of(shelves_of(map.tiles@)[i]),
                    capacity: capacity_of(shelves_of(map.tiles@)[i]),
                }),
    {
        let tiles = map.get_shelves();
        let ghost sh = shelves_of(map.tiles@);
        assert(tiles@.len() == sh.len() && forall|k: int| 0 <= k < sh.len() ==> *tiles@[k] == sh[k]) by {
            assert forall|k: int| 0 <= k < sh.len() implies *tiles@[k] == sh[k] by {
                assert(tiles@.map_values(|t: &Tile| *t)[k] == *tiles@[k]);
            }
        }
        let mut shelves: Vec<ShelfStock> = Vec::new();
        let mut i: usize = 0;
        while i < tiles.len()
            invariant
                i <= tiles.len(),
                tiles@.len() == sh.len(),
                forall|k: int| 0 <= k < sh.len() ==> *tiles@[k] == sh[k],
                shelves@.len() == i,
                forall|k: int|
                    0 <= k < i ==> #[trigger] shelves@[k] == (ShelfStock {
                        pos: (sh[k].x, sh[k].y),
                        stock: capacity_of(sh[k]),
                        capacity: capacity_of(sh[k]),
                    }),
            decreases tiles.len() - i,
        {
            let t = tiles[i];
            let cap: u8 = match t.tile_type {
                TileType::Shelf(n) => n,
                _ => 0,
            };
            shelves.push(ShelfStock { pos: (t.x, t.y), stock: cap, capacity: cap });
            i = i + 1;
        }
        ShelfInventory { shelves }
    }

    fn index_of(&self, pos: (usize, usize)) -> (r: Option<usize>)
        ensures
            r matches Some(k) ==> entry_at(self.entries(), pos) == Some(k as int),
            r is None ==> entry_at(self.entries(), pos) is None,
    {
        let mut i: usize = 0;
        while i < self.shelves.len()
            invariant
                i <= self.shelves.len(),
                forall|j: int| 0 <= j < i ==> self.shelves@[j].pos != pos,
            decreases self.shelves.len() - i,
        {
            if self.shelves[i].pos.0 == pos.0 && self.shelves[i].pos.1 == pos.1 {
                proof {
                    lemma_entry_at_first(self.shelves@, pos, i as int);
                }
                return Some(i);
            }
            i = i + 1;
        }
        proof {
            lemma_entry_at_none(self.shelves@, pos);
        }
        None
    }

    /// The stock and capacity of the shelf at `pos`; `None` where no shelf
    /// stands.
    pub fn stock_at(&self, pos: (usize, usize)) -> (r: Option<(u8, u8)>)
        ensures
            match entry_at(self.entries(), pos) {
                Some(i) => r == Some((self.entries()[i].stock, self.entries()[i].capacity)),
                None => r is None,
            },
    {
        proof {
            lemma_entry_at_bounds(self.shelves@, pos);
        }
        match self.index_of(pos) {
            Some(i) => Some((self.shelves[i].stock, self.shelves[i].capacity)),
            None => None,
        }
    }

    /// Whether an item can be picked up at `pos`.
    pub fn can_pickup(&self, pos: (usize, usize)) -> (b: bool)
        ensures
            b == has_stock(self.entries(), pos),
    {
        proof {
            lemma_entry_at_bounds(self.shelves@, pos);
        }
        match self.index_of(pos) {
            Some(i) => self.shelves[i].stock > 0,
            None => true,
        }
    }

    /// Whether an item can be delivered at `pos`.
    pub fn can_dropoff(&self, pos: (usize, usize)) -> (b: bool)
        ensures
            b == has_room(self.entries(), pos),
    {
        proof {
            lemma_entry_at_bounds(self.shelves@, pos);
        }
        match self.index_of(pos) {
            Some(i) => self.shelves[i].stock < self.shelves[i].capacity,
            None => true,
        }
    }

    fn shift(&mut self, pos: (usize, usize), take: bool) -> (changed: bool)
        ensures
            moved(old(self).entries(), final(self).entries(), pos, take, changed),
            stock_within(old(self).entries()) ==> stock_within(final(self).entries()),
    {
        proof {
            lemma_entry_at_bounds(self.shelves@, pos);
        }
        match self.index_of(pos) {
            Some(i) => {
                let e = self.shelves[i];
                if take && e.stock > 0 {
                    self.shelves.set(i, ShelfStock { stock: e.stock - 1, ..e });
                    true
                } else if !take && e.stock < e.capacity {
                    self.shelves.set(i, ShelfStock { stock: e.stock + 1, ..e });
                    true
                } else {
                    false
                }
            },
            None => false,
        }
    }

    /// Take one item from the shelf at `pos`; says whether a shelf's stock
    /// changed.
    pub fn pickup(&mut self, pos: (usize, usize)) -> (changed: bool)
        ensures
            moved(old(self).entries(), final(self).entries(), pos, true, changed),
            stock_within(old(self).entries()) ==> stock_within(final(self).entries()),
    {
        self.shift(pos, true)
    }

    /// Put one item on the shelf at `pos`; says whether a shelf's stock
    /// changed.
    pub fn dropoff(&mut self, pos: (usize, usize)) -> (changed: bool)
        ensures
            moved(old(self).entries(), final(self).entries(), pos, false, changed),
            stock_within(old(self).entries()) ==> stock_within(final(self).entries()),
    {
        self.shift(pos, false)
    }

    /// Give back an item taken by a pickup that did not happen.
    pub fn undo_pickup(&mut self, pos: (usize, usize))
        ensures
            exists|c: bool| moved(old(self).entries(), final(self).entries(), pos, false, c),
            stock_within(old(self).entries()) ==> stock_within(final(self).entries()),
    {
        let _ = self.shift(pos, false);
    }

    /// Take back an item put by a delivery that did not happen.
    pub fn undo_dropoff(&mut self, pos: (usize, usize))
        ensures
            exists|c: bool| moved(old(self).entries(), final(self).entries(), pos, true, c),
            stock_within(old(self).entries()) ==> stock_within(final(self).entries()),
    {
        let _ = self.shift(pos, true);
    }
}

/// A pickup followed by its undo leaves every shelf's stock as it was.
pub proof fn law_undo_pickup_restores(
    before: Seq<ShelfStock>,
    mid: Seq<ShelfStock>,
    after: Seq<ShelfStock>,
    pos: (usize, usize),
    c1: bool,
    c2: bool,
)
    requires
        stock_within(before),
        moved(before, mid, pos, true, c1),
        c1,
        moved(mid, after, pos, false, c2),
    ensures
        after == before,
{
    lemma_entry_at_bounds(before, pos);
    let i = entry_at(before, pos)->0;
    assert(mid.len() == before.len());
    assert forall|j: int| 0 <= j < mid.len() implies #[trigger] mid[j].pos == before[j].pos by {}
    assert(entry_at(mid, pos) == Some(i)) by {
        lemma_entry_at_first(mid, pos, i);
    }
    assert(after =~= before);
}

/// A delivery followed by its undo leaves every shelf's stock as it was.
pub proof fn law_undo_dropoff_restores(
    before: Seq<ShelfStock>,
    mid: Seq<ShelfStock>,
    after: Seq<ShelfStock>,
    pos: (usize, usize),
    c1: bool,
    c2: bool,
)
    requires
        moved(before, mid, pos, false, c1),
        c1,
        moved(mid, after, pos, true, c2),
    ensures
        after == before,
{
    lemma_entry_at_bounds(before, pos);
    let i = entry_at(before, pos)->0;
    assert forall|j: int| 0 <= j < mid.len() implies #[trigger] mid[j].pos == before[j].pos by {}
    assert(entry_at(mid, pos) == Some(i)) by {
        lemma_entry_at_first(mid, pos, i);
    }
    assert(after =~= before);
}

} // verus!
