//! Breadth-first exploration of the walkable cells of a grid map.
//!
//! A walk moves between orthogonally adjacent cells; every cell after the
//! first must lie inside the map bounds and be walkable. `reach` counts the
//! steps of walks; the exploration below computes, for every cell a walk
//! reaches, the exact number of steps of a shortest walk and a parent cell
//! one step closer to the start.
use vstd::prelude::*;
use vstd::set_lib::*;
use vstd::relations::injective_on;
use std::collections::BTreeSet;
use crate::grid_map::{GridMap, Tile, tile_at, walkable};

verus! {

broadcast use vstd::std_specs::btree::group_btree_axioms, vstd::laws_cmp::group_laws_cmp;

/// A grid position `(x, y)`.
pub type Pos = (usize, usize);

/// Whether `a` and `b` are orthogonal neighbours.
pub open spec fn adj(a: Pos, b: Pos) -> bool {
    ||| (a.0 == b.0 && (a.1 + 1 == b.1 || b.1 + 1 == a.1))
    ||| (a.1 == b.1 && (a.0 + 1 == b.0 || b.0 + 1 == a.0))
}

/// Whether `c` lies inside the map bounds.
pub open spec fn in_bounds(map: GridMap, c: Pos) -> bool {
    c.0 < map.width && c.1 < map.height
}

/// Whether a walk may step onto `c`: inside the bounds and walkable.
pub open spec fn step_ok(map: GridMap, c: Pos) -> bool {
    in_bounds(map, c) && walkable(map, c.0, c.1)
}

/// Whether `w` is a walk: non-empty, and each later cell is a neighbour of
/// the one before it onto which a walk may step.
pub open spec fn is_walk(map: GridMap, w: Seq<Pos>) -> bool {
    &&& w.len() > 0
    &&& forall|i: int| 1 <= i < w.len() ==> step_ok(map, #[trigger] w[i]) && adj(w[i - 1], w[i])
}

/// Whether `w` is a walk from `s` to `g`.
pub open spec fn walk_between(map: GridMap, w: Seq<Pos>, s: Pos, g: Pos) -> bool {
    is_walk(map, w) && w[0] == s && w.last() == g
}

/// Whether some walk of at most `k` steps leads from `s` to `c`: either
/// one of at most `k - 1` steps does, or `c` may be stepped onto from a
/// neighbour reached in at most `k - 1` steps.
pub open spec fn reach(map: GridMap, s: Pos, c: Pos, k: nat) -> bool
    decreases k,
{
    if k == 0 {
        c == s
    } else {
        let j = (k - 1) as nat;
        ||| reach(map, s, c, j)
        ||| step_ok(map, c) && (reach(map, s, (c.0, (c.1 + 1) as usize), j)
            || (c.1 > 0 && reach(map, s, (c.0, (c.1 - 1) as usize), j))
            || reach(map, s, ((c.0 + 1) as usize, c.1), j)
            || (c.0 > 0 && reach(map, s, ((c.0 - 1) as usize, c.1), j)))
    }
}

/// A cell first reached after `k + 1` steps has a neighbour reached within
/// `k` steps.
pub proof fn lemma_reach_pred(map: GridMap, s: Pos, c: Pos, k: nat)
    requires
        reach(map, s, c, k + 1),
        !reach(map, s, c, k),
    ensures
        step_ok(map, c),
        exists|n: Pos| adj(n, c) && #[trigger] reach(map, s, n, k),
{
    let k1: nat = k + 1;
    assert((k1 - 1) as nat == k);
    let up = (c.0, (c.1 + 1) as usize);
    let right = ((c.0 + 1) as usize, c.1);
    if reach(map, s, up, k) {
        assert(adj(up, c) && reach(map, s, up, k));
    } else if c.1 > 0 && reach(map, s, (c.0, (c.1 - 1) as usize), k) {
        let down = (c.0, (c.1 - 1) as usize);
        assert(adj(down, c) && reach(map, s, down, k));
    } else if reach(map, s, right, k) {
        assert(adj(right, c) && reach(map, s, right, k));
    } else {
        assert(c.0 > 0 && reach(map, s, ((c.0 - 1) as usize, c.1), k));
        let left = ((c.0 - 1) as usize, c.1);
        assert(adj(left, c) && reach(map, s, left, k));
    }
}

// ---------------------------------------------------------------------------
// Lemmas on walks and reach
// ---------------------------------------------------------------------------

pub proof fn lemma_reach_step(map: GridMap, s: Pos, n: Pos, c: Pos, k: nat)
    requires
        reach(map, s, n, k),
        adj(n, c),
        step_ok(map, c),
    ensures
        reach(map, s, c, k + 1),
{
    let k1: nat = k + 1;
    assert((k1 - 1) as nat == k);
    if n.0 == c.0 && n.1 == c.1 + 1 {
        assert(n == (c.0, (c.1 + 1) as usize));
    } else if n.0 == c.0 && n.1 + 1 == c.1 {
        assert(n == (c.0, (c.1 - 1) as usize));
    } else if n.1 == c.1 && n.0 == c.0 + 1 {
        assert(n == ((c.0 + 1) as usize, c.1));
    } else {
        assert(n == ((c.0 - 1) as usize, c.1));
    }
}

pub proof fn lemma_reach_mono(map: GridMap, s: Pos, c: Pos, a: nat, b: nat)
    requires
        reach(map, s, c, a),
        a <= b,
    ensures
        reach(map, s, c, b),
    decreases b - a,
{
    if a < b {
        lemma_reach_mono(map, s, c, a, (b - 1) as nat);
    }
}

/// A walk of `m + 1` cells shows reach within `m` steps.
pub proof fn lemma_walk_reach(map: GridMap, w: Seq<Pos>, s: Pos)
    requires
        is_walk(map, w),
        w[0] == s,
    ensures
        reach(map, s, w.last(), (w.len() - 1) as nat),
    decreases w.len(),
{
    if w.len() > 1 {
        let v = w.drop_last();
        assert(is_walk(map, v)) by {
            assert forall|i: int| 1 <= i < v.len() implies step_ok(map, #[trigger] v[i]) && adj(v[i - 1], v[i]) by {
                assert(v[i] == w[i] && v[i - 1] == w[i - 1]);
            }
        }
        lemma_walk_reach(map, v, s);
        assert(w[w.len() - 1] == w.last());
        assert(v.last() == w[w.len() - 2]);
        assert(adj(v.last(), w.last()));
        assert(step_ok(map, w.last()));
        lemma_reach_step(map, s, v.last(), w.last(), (w.len() - 2) as nat);
    }
}

/// When no cell is first reached after exactly `k + 1` steps, nothing is
/// reached later than within `k` steps.
pub proof fn lemma_reach_saturated(map: GridMap, s: Pos, c: Pos, k: nat, m: nat)
    requires
        forall|d: Pos| #[trigger] reach(map, s, d, k + 1) ==> reach(map, s, d, k),
        reach(map, s, c, m),
    ensures
        reach(map, s, c, k),
    decreases m,
{
    if m > k {
        if reach(map, s, c, (m - 1) as nat) {
            lemma_reach_saturated(map, s, c, k, (m - 1) as nat);
        } else {
            let j = (m - 1) as nat;
            assert(m == j + 1);
            lemma_reach_pred(map, s, c, j);
            let n = choose|n: Pos| adj(n, c) && #[trigger] reach(map, s, n, j);
            lemma_reach_saturated(map, s, n, k, j);
            lemma_reach_step(map, s, n, c, k);
        }
    } else {
        lemma_reach_mono(map, s, c, m, k);
    }
}

proof fn lemma_tile_at_index(tiles: Seq<Tile>, x: usize, y: usize)
    requires
        tile_at(tiles, x, y) is Some,
    ensures
        exists|i: int| 0 <= i < tiles.len() && (#[trigger] tiles[i]).x == x && tiles[i].y == y,
    decreases tiles.len(),
{
    if tile_at(tiles.drop_last(), x, y) is Some {
        lemma_tile_at_index(tiles.drop_last(), x, y);
        let i = choose|i: int| 0 <= i < tiles.drop_last().len() && (#[trigger] tiles.drop_last()[i]).x == x
            && tiles.drop_last()[i].y == y;
        assert(tiles[i] == tiles.drop_last()[i]);
    } else {
        assert(tiles[tiles.len() - 1] == tiles.last());
    }
}

/// Distinct cells that are the start or cells a walk may step onto number
/// at most one more than the map's tiles.
proof fn lemma_cells_bound(map: GridMap, s: Pos, cells: Seq<Pos>)
    requires
        cells.no_duplicates(),
        forall|j: int| 0 <= j < cells.len() ==> #[trigger] cells[j] == s || step_ok(map, cells[j]),
    ensures
        cells.len() <= map.tiles@.len() + 1,
{
    let tiles = map.tiles@;
    let all = cells.to_set();
    cells.unique_seq_to_set();
    let rest = all.remove(s);
    let f = |c: Pos| choose|i: int| 0 <= i < tiles.len() && (#[trigger] tiles[i]).x == c.0 && tiles[i].y == c.1;
    assert forall|c: Pos| #[trigger] rest.contains(c) implies 0 <= f(c) < tiles.len() && tiles[f(c)].x == c.0
        && tiles[f(c)].y == c.1 by {
        let j = choose|j: int| 0 <= j < cells.len() && cells[j] == c;
        assert(step_ok(map, cells[j]));
        lemma_tile_at_index(tiles, c.0, c.1);
    }
    assert(injective_on(f, rest)) by {
        assert forall|a: Pos, b: Pos| rest.contains(a) && rest.contains(b) && #[trigger] f(a) == #[trigger] f(b) implies a == b by {}
    }
    lemma_map_size(rest, rest.map(f), f);
    lemma_int_range(0, tiles.len() as int);
    assert(rest.map(f).subset_of(set_int_range(0, tiles.len() as int)));
    lemma_len_subset(rest.map(f), set_int_range(0, tiles.len() as int));
}

// ---------------------------------------------------------------------------
// Exploration
// ---------------------------------------------------------------------------

/// The result of exploring a map from a start cell: every cell a walk
/// reaches, with its shortest step count and a parent one step closer.
pub struct Exploration {
    pub cells: Vec<Pos>,
    pub depth: Vec<usize>,
    pub parent: Vec<usize>,
}

/// The structural invariant of an exploration from `s`.
pub open spec fn tree_ok(map: GridMap, s: Pos, cells: Seq<Pos>, depth: Seq<usize>, parent: Seq<usize>) -> bool {
    &&& cells.len() >= 1
    &&& depth.len() == cells.len()
    &&& parent.len() == cells.len()
    &&& cells[0] == s
    &&& depth[0] == 0
    &&& cells.no_duplicates()
    &&& forall|j: int| 0 <= j < cells.len() ==> #[trigger] reach(map, s, cells[j], depth[j] as nat)
    &&& forall|j: int| 0 <= j < cells.len() && depth[j] > 0 ==> !reach(map, s, #[trigger] cells[j], (depth[j] - 1) as nat)
    &&& forall|j: int|
        0 < j < cells.len() ==> #[trigger] parent[j] < j && depth[parent[j] as int] + 1 == depth[j]
            && adj(cells[parent[j] as int], cells[j]) && step_ok(map, cells[j])
}

/// The exploration of `s`: `tree_ok`, and it holds every reachable cell.
pub open spec fn explored(map: GridMap, s: Pos, e: Exploration) -> bool {
    &&& tree_ok(map, s, e.cells@, e.depth@, e.parent@)
    &&& forall|c: Pos, k: nat| #[trigger] reach(map, s, c, k) ==> e.cells@.contains(c)
}

/// Record cell `c` as a new cell of depth `d` with parent `p`, when a walk
/// may step onto it and it was not seen before.
fn visit(
    map: &GridMap,
    cells: &mut Vec<Pos>,
    seen: &mut BTreeSet<Pos>,
    depth: &mut Vec<usize>,
    parent: &mut Vec<usize>,
    c: Pos,
    d: usize,
    p: usize,
)
    requires
        old(cells)@.len() == old(depth)@.len(),
        old(cells)@.len() == old(parent)@.len(),
        forall|x: Pos| #[trigger] old(seen)@.contains(x) <==> old(cells)@.contains(x),
    ensures
        final(cells)@.len() == final(depth)@.len(),
        final(cells)@.len() == final(parent)@.len(),
        forall|x: Pos| #[trigger] final(seen)@.contains(x) <==> final(cells)@.contains(x),
        if step_ok(*map, c) && !old(cells)@.contains(c) {
            &&& final(cells)@ == old(cells)@.push(c)
            &&& final(depth)@ == old(depth)@.push(d)
            &&& final(parent)@ == old(parent)@.push(p)
        } else {
            &&& final(cells)@ == old(cells)@
            &&& final(depth)@ == old(depth)@
            &&& final(parent)@ == old(parent)@
        },
{
    if c.0 < map.width && c.1 < map.height && map.is_walkable(c.0, c.1) && !seen.contains(&c) {
        let ghost before = cells@;
        cells.push(c);
        seen.insert(c);
        depth.push(d);
        parent.push(p);
        proof {
            assert forall|x: Pos| #[trigger] seen@.contains(x) <==> cells@.contains(x) by {
                if x == c {
                    assert(cells@[before.len() as int] == c);
                } else if cells@.contains(x) {
                    let i = choose|i: int| 0 <= i < cells@.len() && cells@[i] == x;
                    assert(before[i] == x);
                } else if before.contains(x) {
                    lemma_contains_after_push(before, cells@, x);
                }
            }
        }
    }
}

/// Whether `cells` extends `before` by fresh cells onto which a walk may
/// step next to `cur`, recorded with depth `d` and parent `q`.
pub open spec fn grown_by_neighbours(
    map: GridMap,
    before: Seq<Pos>,
    before_depth: Seq<usize>,
    before_parent: Seq<usize>,
    cells: Seq<Pos>,
    depth: Seq<usize>,
    parent: Seq<usize>,
    cur: Pos,
    d: usize,
    q: usize,
) -> bool {
    &&& before.len() <= cells.len() <= before.len() + 4
    &&& cells.len() == depth.len() && cells.len() == parent.len()
    &&& forall|j: int| 0 <= j < before.len() ==> #[trigger] cells[j] == before[j]
    &&& forall|j: int| 0 <= j < before.len() ==> #[trigger] depth[j] == before_depth[j]
    &&& forall|j: int| 0 <= j < before.len() ==> #[trigger] parent[j] == before_parent[j]
    &&& forall|j: int| before.len() <= j < cells.len() ==> #[trigger] depth[j] == d
    &&& forall|j: int| before.len() <= j < cells.len() ==> #[trigger] parent[j] == q
    &&& forall|j: int| before.len() <= j < cells.len() ==> adj(cur, #[trigger] cells[j]) && step_ok(map, cells[j])
        && !before.contains(cells[j])
    &&& forall|a: int, b: int| before.len() <= a < b < cells.len() ==> #[trigger] cells[a] != #[trigger] cells[b]
    &&& forall|c: Pos| adj(cur, c) && step_ok(map, c) ==> #[trigger] cells.contains(c)
}

proof fn lemma_contains_after_push(before: Seq<Pos>, after: Seq<Pos>, c: Pos)
    requires
        before.contains(c),
        before.len() <= after.len(),
        forall|j: int| 0 <= j < before.len() ==> #[trigger] after[j] == before[j],
    ensures
        after.contains(c),
{
    let i = choose|i: int| 0 <= i < before.len() && before[i] == c;
    assert(after[i] == c);
}

/// Record every fresh neighbour of `cur` onto which a walk may step.
#[verifier::rlimit(60)]
fn expand(
    map: &GridMap,
    cells: &mut Vec<Pos>,
    seen: &mut BTreeSet<Pos>,
    depth: &mut Vec<usize>,
    parent: &mut Vec<usize>,
    cur: Pos,
    d: usize,
    q: usize,
)
    requires
        old(cells)@.len() == old(depth)@.len(),
        old(cells)@.len() == old(parent)@.len(),
        forall|x: Pos| #[trigger] old(seen)@.contains(x) <==> old(cells)@.contains(x),
    ensures
        forall|x: Pos| #[trigger] final(seen)@.contains(x) <==> final(cells)@.contains(x),
        grown_by_neighbours(*map, old(cells)@, old(depth)@, old(parent)@, final(cells)@, final(depth)@, final(parent)@, cur, d, q),
{
    let ghost b0 = cells@;
    let ghost up = (cur.0, (cur.1 + 1) as usize);
    let ghost right = ((cur.0 + 1) as usize, cur.1);
    let ghost down = (cur.0, (cur.1 - 1) as usize);
    let ghost left = ((cur.0 - 1) as usize, cur.1);
    if cur.1 < map.height && cur.1 + 1 < map.height {
        visit(map, cells, seen, depth, parent, (cur.0, cur.1 + 1), d, q);
    }
    let ghost b1 = cells@;
    assert(cur.1 + 1 < map.height && step_ok(*map, up) ==> b1.contains(up)) by {
        if cur.1 + 1 < map.height && step_ok(*map, up) && b0.contains(up) {
            lemma_contains_after_push(b0, b1, up);
        } else if cur.1 + 1 < map.height && step_ok(*map, up) {
            assert(b1[b1.len() - 1] == up);
        }
    }
    if cur.0 < map.width && cur.0 + 1 < map.width {
        visit(map, cells, seen, depth, parent, (cur.0 + 1, cur.1), d, q);
    }
    let ghost b2 = cells@;
    assert(cur.0 + 1 < map.width && step_ok(*map, right) ==> b2.contains(right)) by {
        if cur.0 + 1 < map.width && step_ok(*map, right) && b1.contains(right) {
            lemma_contains_after_push(b1, b2, right);
        } else if cur.0 + 1 < map.width && step_ok(*map, right) {
            assert(b2[b2.len() - 1] == right);
        }
    }
    if cur.1 > 0 {
        visit(map, cells, seen, depth, parent, (cur.0, cur.1 - 1), d, q);
    }
    let ghost b3 = cells@;
    assert(cur.1 > 0 && step_ok(*map, down) ==> b3.contains(down)) by {
        if cur.1 > 0 && step_ok(*map, down) && b2.contains(down) {
            lemma_contains_after_push(b2, b3, down);
        } else if cur.1 > 0 && step_ok(*map, down) {
            assert(b3[b3.len() - 1] == down);
        }
    }
    if cur.0 > 0 {
        visit(map, cells, seen, depth, parent, (cur.0 - 1, cur.1), d, q);
    }
    let ghost b4 = cells@;
    assert(cur.0 > 0 && step_ok(*map, left) ==> b4.contains(left)) by {
        if cur.0 > 0 && step_ok(*map, left) && b3.contains(left) {
            lemma_contains_after_push(b3, b4, left);
        } else if cur.0 > 0 && step_ok(*map, left) {
            assert(b4[b4.len() - 1] == left);
        }
    }
    proof {
        if cur.1 + 1 < map.height && step_ok(*map, up) {
            lemma_contains_after_push(b1, b4, up);
        }
        if cur.0 + 1 < map.width && step_ok(*map, right) {
            lemma_contains_after_push(b2, b4, right);
        }
        if cur.1 > 0 && step_ok(*map, down) {
            lemma_contains_after_push(b3, b4, down);
        }
        assert forall|c: Pos| adj(cur, c) && step_ok(*map, c) implies #[trigger] b4.contains(c) by {
            if c.0 == cur.0 && c.1 == cur.1 + 1 {
                assert(c == up);
            } else if c.1 == cur.1 && c.0 == cur.0 + 1 {
                assert(c == right);
            } else if c.0 == cur.0 && c.1 + 1 == cur.1 {
                assert(c == down);
            } else {
                assert(c == left);
            }
        }
        assert forall|j: int| b0.len() <= j < b4.len() implies !b0.contains(#[trigger] b4[j]) by {
            if j < b1.len() {
                assert(b4[j] == b1[j]);
            } else if j < b2.len() {
                assert(b4[j] == b2[j]);
                assert(!b1.contains(b2[j]));
                if b0.contains(b2[j]) {
                    lemma_contains_after_push(b0, b1, b2[j]);
                }
            } else if j < b3.len() {
                assert(b4[j] == b3[j]);
                assert(!b2.contains(b3[j]));
                if b0.contains(b3[j]) {
                    lemma_contains_after_push(b0, b2, b3[j]);
                }
            } else {
                assert(!b3.contains(b4[j]));
                if b0.contains(b4[j]) {
                    lemma_contains_after_push(b0, b3, b4[j]);
                }
            }
        }
        assert forall|a: int, b: int| b0.len() <= a < b < b4.len() implies #[trigger] b4[a] != #[trigger] b4[b] by {
            if b < b2.len() {
                assert(b == b1.len() && b1.len() < b2.len());
                assert(!b1.contains(b2[b]));
                assert(b1[a] == b4[a]);
            } else if b < b3.len() {
                assert(!b2.contains(b3[b]));
                assert(b2[a] == b4[a]);
            } else {
                assert(!b3.contains(b4[b]));
                assert(b3[a] == b4[a]);
            }
        }
    }
}

/// The layer invariant of the exploration after `k` complete layers, with
/// layer `k` in `cells[lo..]`.
pub open spec fn layers_ok(map: GridMap, s: Pos, cells: Seq<Pos>, depth: Seq<usize>, parent: Seq<usize>, lo: int, k: nat) -> bool {
    &&& tree_ok(map, s, cells, depth, parent)
    &&& 0 <= lo <= cells.len()
    &&& k <= lo
    &&& forall|c: Pos| #[trigger] reach(map, s, c, k) <==> cells.contains(c)
    &&& forall|j: int| 0 <= j < cells.len() ==> (#[trigger] depth[j] <= k && (j < lo <==> depth[j] < k))
}

/// Adding the cells of the next layer keeps the layer invariant.
proof fn lemma_next_layer(
    map: GridMap,
    s: Pos,
    cells: Seq<Pos>,
    depth: Seq<usize>,
    parent: Seq<usize>,
    lo: int,
    hi: int,
    k: nat,
)
    requires
        lo < hi <= cells.len(),
        layers_ok(map, s, cells.take(hi), depth.take(hi), parent.take(hi), lo, k),
        cells.len() == depth.len() && cells.len() == parent.len(),
        cells.no_duplicates(),
        forall|j: int| hi <= j < cells.len() ==> #[trigger] depth[j] == k + 1,
        forall|j: int| hi <= j < cells.len() ==> lo <= #[trigger] parent[j] < hi,
        forall|j: int|
            hi <= j < cells.len() ==> adj(cells[parent[j] as int], #[trigger] cells[j]) && step_ok(map, cells[j]),
        forall|j: int, c: Pos|
            lo <= j < hi && #[trigger] adj(cells[j], c) && step_ok(map, c) ==> #[trigger] cells.contains(c),
    ensures
        layers_ok(map, s, cells, depth, parent, hi, k + 1),
        hi == cells.len() ==> forall|c: Pos| #[trigger] reach(map, s, c, k + 2) ==> reach(map, s, c, k + 1),
{
    let ct = cells.take(hi);
    let dt = depth.take(hi);
    let pt = parent.take(hi);
    assert forall|j: int| 0 <= j < hi implies #[trigger] cells[j] == ct[j] && depth[j] == dt[j] && parent[j] == pt[j] by {}
    assert forall|j: int| hi <= j < cells.len() implies !ct.contains(#[trigger] cells[j]) by {
        if ct.contains(cells[j]) {
            let i = choose|i: int| 0 <= i < hi && ct[i] == cells[j];
            assert(cells[i] == cells[j]);
        }
    }
    assert forall|j: int| hi <= j < cells.len() implies #[trigger] reach(map, s, cells[j], (k + 1) as nat)
        && !reach(map, s, cells[j], k) by {
        assert(depth[j] == k + 1);
        let p = parent[j] as int;
        assert(lo <= p < hi);
        assert(adj(cells[p], cells[j]) && step_ok(map, cells[j]));
        assert(dt[p] <= k && !(p < lo));
        assert(ct[p] == cells[p]);
        assert(reach(map, s, ct[p], dt[p] as nat));
        assert(dt[p] == k);
        lemma_reach_step(map, s, cells[p], cells[j], k);
        assert(!ct.contains(cells[j]));
    }
    assert forall|j: int| 0 <= j < cells.len() implies #[trigger] reach(map, s, cells[j], depth[j] as nat) by {
        if j < hi {
            assert(reach(map, s, ct[j], dt[j] as nat));
        }
    }
    assert forall|j: int| 0 <= j < cells.len() && depth[j] > 0 implies !reach(map, s, #[trigger] cells[j], (depth[j] - 1) as nat) by {
        if j < hi {
            assert(!reach(map, s, ct[j], (dt[j] - 1) as nat));
        }
    }
    assert forall|j: int|
        0 < j < cells.len() implies #[trigger] parent[j] < j && depth[parent[j] as int] + 1 == depth[j]
            && adj(cells[parent[j] as int], cells[j]) && step_ok(map, cells[j]) by {
        if j < hi {
            assert(pt[j] < j && dt[pt[j] as int] + 1 == dt[j]);
        } else {
            assert(depth[j] == k + 1);
            let p = parent[j] as int;
            assert(lo <= p < hi);
            assert(adj(cells[p], cells[j]) && step_ok(map, cells[j]));
            assert(dt[p] <= k && !(p < lo));
            assert(dt[p] == depth[p]);
        }
    }
    assert forall|c: Pos| #[trigger] reach(map, s, c, k + 1) <==> cells.contains(c) by {
        if reach(map, s, c, k + 1) {
            if reach(map, s, c, k) {
                let i = choose|i: int| 0 <= i < hi && ct[i] == c;
                assert(cells[i] == c);
            } else {
                lemma_reach_pred(map, s, c, k);
                let n = choose|n: Pos| adj(n, c) && #[trigger] reach(map, s, n, k);
                assert(ct.contains(n));
                let jn = choose|jn: int| 0 <= jn < hi && ct[jn] == n;
                assert(dt[jn] == k) by {
                    if dt[jn] < k {
                        assert(reach(map, s, n, dt[jn] as nat));
                        lemma_reach_mono(map, s, n, dt[jn] as nat, (k - 1) as nat);
                        lemma_reach_step(map, s, n, c, (k - 1) as nat);
                    }
                }
                assert(lo <= jn && adj(cells[jn], c));
            }
        } else if cells.contains(c) {
            let i = choose|i: int| 0 <= i < cells.len() && cells[i] == c;
            if i < hi {
                assert(ct.contains(c));
                lemma_reach_mono(map, s, c, k, k + 1);
            }
        }
    }
    assert forall|j: int| 0 <= j < cells.len() implies (#[trigger] depth[j] <= k + 1 && (j < hi <==> depth[j] < k + 1)) by {
        if j < hi {
            assert(dt[j] == depth[j]);
            assert(dt[j] <= k);
        } else {
            assert(depth[j] == k + 1);
        }
    }
    if hi == cells.len() {
        assert forall|c: Pos| #[trigger] reach(map, s, c, k + 2) implies reach(map, s, c, k + 1) by {
            if !reach(map, s, c, k + 1) {
                lemma_reach_pred(map, s, c, k + 1);
                let n = choose|n: Pos| adj(n, c) && #[trigger] reach(map, s, n, k + 1);
                assert(cells.contains(n));
                let i = choose|i: int| 0 <= i < cells.len() && cells[i] == n;
                assert(ct[i] == n);
                assert(reach(map, s, n, k));
                lemma_reach_step(map, s, n, c, k);
            }
        }
    }
}

/// Explore every cell that a walk from `s` reaches.
pub fn explore(map: &GridMap, s: Pos) -> (e: Exploration)
    ensures
        explored(*map, s, e),
{
    let mut cells: Vec<Pos> = Vec::new();
    let mut depth: Vec<usize> = Vec::new();
    let mut parent: Vec<usize> = Vec::new();
    let mut seen: BTreeSet<Pos> = BTreeSet::new();
    cells.push(s);
    seen.insert(s);
    depth.push(0);
    parent.push(0);
    let mut lo: usize = 0;
    let mut k: usize = 0;
    proof {
        assert forall|x: Pos| #[trigger] seen@.contains(x) <==> cells@.contains(x) by {
            if x == s {
                assert(cells@[0] == s);
            }
        }
        assert forall|c: Pos| #[trigger] reach(*map, s, c, 0) <==> cells@.contains(c) by {
            if c == s {
                assert(cells@[0] == s);
            }
        }
    }
    while lo < cells.len()
        invariant
            layers_ok(*map, s, cells@, depth@, parent@, lo as int, k as nat),
            forall|x: Pos| #[trigger] seen@.contains(x) <==> cells@.contains(x),
            lo == cells.len() ==> forall|c: Pos| #[trigger] reach(*map, s, c, (k + 1) as nat) ==> reach(*map, s, c, k as nat),
        decreases map.tiles@.len() + 1 - lo,
    {
        proof {
            assert forall|j: int| 0 <= j < cells.len() implies #[trigger] cells@[j] == s || step_ok(*map, cells@[j]) by {
                if j > 0 {
                    assert(parent@[j] < j);
                }
            }
            lemma_cells_bound(*map, s, cells@);
        }
        let hi = cells.len();
        assert(cells@.take(hi as int) =~= cells@);
        assert(depth@.take(hi as int) =~= depth@);
        assert(parent@.take(hi as int) =~= parent@);
        let ghost c0 = cells@;
        let ghost d0 = depth@;
        let ghost p0 = parent@;
        let mut q: usize = lo;
        while q < hi
            invariant
                lo < hi,
                hi <= cells.len(),
                lo <= q <= hi,
                k < hi,
                c0.len() == hi,
                layers_ok(*map, s, c0, d0, p0, lo as int, k as nat),
                cells@.take(hi as int) == c0,
                depth@.take(hi as int) == d0,
                parent@.take(hi as int) == p0,
                cells@.len() == depth@.len(),
                cells@.len() == parent@.len(),
                cells@.no_duplicates(),
                forall|x: Pos| #[trigger] seen@.contains(x) <==> cells@.contains(x),
                forall|j: int| hi <= j < cells.len() ==> #[trigger] depth@[j] == k + 1,
                forall|j: int| hi <= j < cells.len() ==> lo <= #[trigger] parent@[j] < q,
                forall|j: int|
                    hi <= j < cells.len() ==> adj(cells@[parent@[j] as int], #[trigger] cells@[j]) && step_ok(
                        *map,
                        cells@[j],
                    ),
                forall|j: int, c: Pos|
                    lo <= j < q && #[trigger] adj(cells@[j], c) && step_ok(*map, c) ==> #[trigger] cells@.contains(c),
            decreases hi - q,
        {
            let cur = cells[q];
            let ghost before = cells@;
            let ghost before_depth = depth@;
            let ghost before_parent = parent@;
            expand(map, &mut cells, &mut seen, &mut depth, &mut parent, cur, k + 1, q);
            proof {
                assert(cells@.take(hi as int) =~= before.take(hi as int));
                assert(depth@.take(hi as int) =~= before_depth.take(hi as int));
                assert(parent@.take(hi as int) =~= before_parent.take(hi as int));
                assert forall|j: int| hi <= j < cells.len() implies #[trigger] depth@[j] == k + 1 by {
                    if j < before.len() {
                        assert(before_depth[j] == k + 1);
                    }
                }
                assert forall|j: int| hi <= j < cells.len() implies lo <= #[trigger] parent@[j] < q + 1 by {
                    if j < before.len() {
                        assert(lo <= before_parent[j] < q);
                    }
                }
                assert forall|j: int|
                    hi <= j < cells.len() implies adj(cells@[parent@[j] as int], #[trigger] cells@[j]) && step_ok(*map, cells@[j]) by {
                    if j < before.len() {
                        assert(cells@[j] == before[j]);
                        assert(adj(before[before_parent[j] as int], before[j]));
                        assert(lo <= before_parent[j] < q);
                        assert(cells@[parent@[j] as int] == before[parent@[j] as int]);
                    } else {
                        assert(parent@[j] == q);
                        assert(cells@[q as int] == cur);
                    }
                }
                assert forall|j: int, c: Pos|
                    lo <= j < q + 1 && #[trigger] adj(cells@[j], c) && step_ok(*map, c) implies #[trigger] cells@.contains(c) by {
                    if j < q {
                        assert(adj(before[j], c));
                        lemma_contains_after_push(before, cells@, c);
                    } else {
                        assert(cells@[j] == cur);
                    }
                }
                assert(cells@.no_duplicates()) by {
                    assert forall|a: int, b: int| 0 <= a < b < cells.len() implies cells@[a] != cells@[b] by {
                        if b >= before.len() && a < before.len() {
                            assert(!before.contains(cells@[b]));
                            assert(before[a] == cells@[a]);
                        } else if a < before.len() {
                            assert(before[a] != before[b]);
                        }
                    }
                }
            }
            q = q + 1;
        }
        proof {
            lemma_next_layer(*map, s, cells@, depth@, parent@, lo as int, hi as int, k as nat);
            let k1: nat = (k + 1) as nat;
            assert(hi == cells.len() ==> forall|c: Pos| #[trigger] reach(*map, s, c, (k1 + 1) as nat) ==> reach(*map, s, c, k1)) by {
                assert(k1 + 1 == k + 2);
            }
        }
        lo = hi;
        k = k + 1;
    }
    proof {
        assert forall|c: Pos, m: nat| #[trigger] reach(*map, s, c, m) implies cells@.contains(c) by {
            lemma_reach_saturated(*map, s, c, k as nat, m);
        }
    }
    Exploration { cells, depth, parent }
}


/// Reaching `c` within `k` steps gives a walk from `s` to `c`.
pub proof fn lemma_reach_walk(map: GridMap, s: Pos, c: Pos, k: nat)
    requires
        reach(map, s, c, k),
    ensures
        exists|w: Seq<Pos>| #[trigger] walk_between(map, w, s, c) && w.len() <= k + 1,
    decreases k,
{
    if k == 0 {
        let w = seq![s];
        assert(walk_between(map, w, s, c));
    } else {
        let j = (k - 1) as nat;
        if reach(map, s, c, j) {
            lemma_reach_walk(map, s, c, j);
        } else {
            let up = (c.0, (c.1 + 1) as usize);
            let down = (c.0, (c.1 - 1) as usize);
            let right = ((c.0 + 1) as usize, c.1);
            let left = ((c.0 - 1) as usize, c.1);
            let n = if reach(map, s, up, j) {
                up
            } else if c.1 > 0 && reach(map, s, down, j) {
                down
            } else if reach(map, s, right, j) {
                right
            } else {
                left
            };
            assert(reach(map, s, n, j) && adj(n, c) && step_ok(map, c));
            lemma_reach_walk(map, s, n, j);
            let v = choose|v: Seq<Pos>| #[trigger] walk_between(map, v, s, n) && v.len() <= j + 1;
            let w = v.push(c);
            assert forall|i: int| 1 <= i < w.len() implies step_ok(map, #[trigger] w[i]) && adj(w[i - 1], w[i]) by {
                if i < v.len() {
                    assert(w[i] == v[i] && w[i - 1] == v[i - 1]);
                } else {
                    assert(w[i - 1] == v.last());
                }
            }
            assert(walk_between(map, w, s, c));
        }
    }
}

// ---------------------------------------------------------------------------
// Shortest walks
// ---------------------------------------------------------------------------

/// Whether some walk leads from `s` to `g`.
pub open spec fn connected(map: GridMap, s: Pos, g: Pos) -> bool {
    exists|w: Seq<Pos>| #[trigger] walk_between(map, w, s, g)
}

/// Whether `w` is a walk from `s` to `g` with no walk between them shorter.
pub open spec fn is_shortest_walk(map: GridMap, w: Seq<Pos>, s: Pos, g: Pos) -> bool {
    &&& walk_between(map, w, s, g)
    &&& forall|v: Seq<Pos>| #[trigger] walk_between(map, v, s, g) ==> w.len() <= v.len()
}

/// The index of `c` among `cells`, if it is there.
pub fn position_of(cells: &Vec<Pos>, c: Pos) -> (r: Option<usize>)
    ensures
        r matches Some(i) ==> i < cells@.len() && cells@[i as int] == c,
        r is None ==> !cells@.contains(c),
{
    let mut i: usize = 0;
    while i < cells.len()
        invariant
            i <= cells.len(),
            forall|j: int| 0 <= j < i ==> cells@[j] != c,
        decreases cells.len() - i,
    {
        if cells[i].0 == c.0 && cells[i].1 == c.1 {
            return Some(i);
        }
        i = i + 1;
    }
    None
}

/// The walk from the start of an exploration to its cell `i`, following
/// parent links back and reversing them.
pub fn reconstruct_path(map: &GridMap, s: Pos, e: &Exploration, i: usize) -> (w: Vec<Pos>)
    requires
        tree_ok(*map, s, e.cells@, e.depth@, e.parent@),
        i < e.cells@.len(),
    ensures
        walk_between(*map, w@, s, e.cells@[i as int]),
        w@.len() == e.depth@[i as int] + 1,
{
    let ghost cells = e.cells@;
    let ghost depth = e.depth@;
    let ghost parent = e.parent@;
    let mut back: Vec<Pos> = Vec::new();
    back.push(e.cells[i]);
    let mut j: usize = i;
    while j != 0
        invariant
            tree_ok(*map, s, cells, depth, parent),
            cells == e.cells@,
            depth == e.depth@,
            parent == e.parent@,
            j < cells.len(),
            i < cells.len(),
            depth[j as int] <= depth[i as int],
            back@.len() == depth[i as int] - depth[j as int] + 1,
            back@[0] == cells[i as int],
            back@.last() == cells[j as int],
            forall|a: int| 1 <= a < back@.len() ==> adj(back@[a], back@[a - 1]) && step_ok(*map, #[trigger] back@[a - 1]),
        decreases j,
    {
        let p = e.parent[j];
        let ghost old_back = back@;
        back.push(e.cells[p]);
        proof {
            assert forall|a: int| 1 <= a < back@.len() implies adj(back@[a], back@[a - 1]) && step_ok(*map, #[trigger] back@[a - 1]) by {
                if a < old_back.len() {
                    assert(back@[a] == old_back[a] && back@[a - 1] == old_back[a - 1]);
                } else {
                    assert(back@[a - 1] == old_back.last());
                }
            }
        }
        j = p;
    }
    assert(depth[0] == 0);
    let n = back.len();
    let mut w: Vec<Pos> = Vec::new();
    let mut k: usize = 0;
    while k < n
        invariant
            n == back@.len(),
            k <= n,
            w@.len() == k,
            forall|a: int| 0 <= a < k ==> #[trigger] w@[a] == back@[n - 1 - a],
        decreases n - k,
    {
        w.push(back[n - 1 - k]);
        k = k + 1;
    }
    proof {
        assert forall|a: int| 1 <= a < w@.len() implies step_ok(*map, #[trigger] w@[a]) && adj(w@[a - 1], w@[a]) by {
            let b = n - 1 - a;
            assert(w@[a] == back@[b] && w@[a - 1] == back@[b + 1]);
            let c = b + 1;
            assert(step_ok(*map, back@[c - 1]));
            assert(adj(back@[c], back@[c - 1]));
        }
        assert(w@[0] == back@[n - 1]);
        assert(w@.last() == w@[n - 1] && w@[n - 1] == back@[0]);
    }
    w
}

/// A shortest walk from `s` to `g`, or `None` when no walk connects them.
pub fn shortest_walk(map: &GridMap, s: Pos, g: Pos) -> (r: Option<Vec<Pos>>)
    ensures
        r matches Some(w) ==> is_shortest_walk(*map, w@, s, g),
        r is None ==> !connected(*map, s, g),
{
    let e = explore(map, s);
    match position_of(&e.cells, g) {
        Some(i) => {
            let w = reconstruct_path(map, s, &e, i);
            proof {
                assert forall|v: Seq<Pos>| #[trigger] walk_between(*map, v, s, g) implies w@.len() <= v.len() by {
                    lemma_walk_reach(*map, v, s);
                    let d = e.depth@[i as int];
                    if v.len() - 1 < d {
                        lemma_reach_mono(*map, s, g, (v.len() - 1) as nat, (d - 1) as nat);
                    }
                }
            }
            Some(w)
        },
        None => {
            proof {
                if connected(*map, s, g) {
                    let v = choose|v: Seq<Pos>| #[trigger] walk_between(*map, v, s, g);
                    lemma_walk_reach(*map, v, s);
                }
            }
            None
        },
    }
}

} // verus!
