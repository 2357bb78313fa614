//! Single-robot path planning: shortest walks between grid cells, with no
//! regard for other robots.
use vstd::prelude::*;
use crate::grid_map::{GridMap, walkable};
use crate::search::{Pos, adj, step_ok, walk_between, is_shortest_walk, connected, shortest_walk};

verus! {

/// Result of a path query.
pub struct PathResult {
    /// The cells of the path, start first.
    pub grid_path: Vec<Pos>,
    /// Number of steps of the path (for A*), or of time steps (for WHCA*).
    pub cost: u32,
}

/// A step count as a `u32` cost, saturating at `u32::MAX`.
pub open spec fn step_cost(n: int) -> u32 {
    if n <= u32::MAX {
        n as u32
    } else {
        u32::MAX
    }
}

/// Whether `r` answers a path query from `start` to `goal`: a shortest walk
/// with its cost when both ends are walkable and connected, else `None`.
pub open spec fn planned(map: GridMap, start: Pos, goal: Pos, r: Option<PathResult>) -> bool {
    match r {
        Some(p) => {
            &&& walkable(map, start.0, start.1)
            &&& walkable(map, goal.0, goal.1)
            &&& is_shortest_walk(map, p.grid_path@, start, goal)
            &&& p.cost == step_cost(p.grid_path@.len() - 1)
        },
        None => !(walkable(map, start.0, start.1) && walkable(map, goal.0, goal.1) && connected(map, start, goal)),
    }
}

/// The walkable in-bounds neighbours of `goal`, in the order north, east,
/// south, west (`+y`, `+x`, `-y`, `-x`).
pub open spec fn approach_cells(map: GridMap, goal: Pos) -> Seq<Pos> {
    let n = (goal.0, (goal.1 + 1) as usize);
    let e = ((goal.0 + 1) as usize, goal.1);
    let s = (goal.0, (goal.1 - 1) as usize);
    let w = ((goal.0 - 1) as usize, goal.1);
    (if goal.1 + 1 <= usize::MAX && step_ok(map, n) { seq![n] } else { seq![] })
        + (if goal.0 + 1 <= usize::MAX && step_ok(map, e) { seq![e] } else { seq![] })
        + (if goal.1 > 0 && step_ok(map, s) { seq![s] } else { seq![] })
        + (if goal.0 > 0 && step_ok(map, w) { seq![w] } else { seq![] })
}

/// Whether no walk from `start` to one of the first `k` candidates is
/// shorter than `w`, and every walk to a candidate before index `i` is
/// longer.
pub open spec fn beats(map: GridMap, start: Pos, cands: Seq<Pos>, k: int, i: int, w: Seq<Pos>) -> bool {
    forall|j: int, v: Seq<Pos>|
        0 <= j < k && #[trigger] walk_between(map, v, start, cands[j]) ==> w.len() <= v.len() && (j < i ==> w.len()
            < v.len())
}

/// Whether `w` is the walk a search for the cheapest approach picks among
/// the candidate cells `cands`: a shortest walk to `cands[i]`, no longer
/// than any walk to another candidate and shorter than any walk to an
/// earlier one.
pub open spec fn best_approach(map: GridMap, start: Pos, cands: Seq<Pos>, i: int, w: Seq<Pos>) -> bool {
    &&& 0 <= i < cands.len()
    &&& is_shortest_walk(map, w, start, cands[i])
    &&& beats(map, start, cands, cands.len() as int, i, w)
}

/// Whether `r` answers a query for a path that ends next to `goal` when
/// `goal` itself is not walkable (a shelf): walkable goals are planned to
/// directly; a start on or next to the goal needs no move; otherwise the
/// cheapest approach over the goal's walkable neighbours is taken.
pub open spec fn approach_planned(map: GridMap, start: Pos, goal: Pos, r: Option<PathResult>) -> bool {
    if !walkable(map, start.0, start.1) {
        r is None
    } else if walkable(map, goal.0, goal.1) {
        planned(map, start, goal, r)
    } else if start == goal || adj(start, goal) {
        r matches Some(p) && p.grid_path@ == seq![start] && p.cost == 0
    } else {
        let cands = approach_cells(map, goal);
        match r {
            Some(p) => {
                &&& exists|i: int| best_approach(map, start, cands, i, p.grid_path@)
                &&& p.cost == step_cost(p.grid_path@.len() - 1)
            },
            None => forall|j: int| 0 <= j < cands.len() ==> !connected(map, start, #[trigger] cands[j]),
        }
    }
}

/// Whether two cells are orthogonal neighbours.
pub fn is_adjacent(pos: Pos, target: Pos) -> (b: bool)
    ensures
        b == adj(pos, target),
{
    let dx = if pos.0 >= target.0 { pos.0 - target.0 } else { target.0 - pos.0 };
    let dy = if pos.1 >= target.1 { pos.1 - target.1 } else { target.1 - pos.1 };
    (dx == 0 && dy == 1) || (dx == 1 && dy == 0)
}

/// The cost of a path of `n` cells.
pub fn path_cost(n: usize) -> (c: u32)
    requires
        n >= 1,
    ensures
        c == step_cost(n - 1),
{
    let steps = n - 1;
    if steps <= 4294967295usize {
        steps as u32
    } else {
        4294967295u32
    }
}

/// The walkable in-bounds neighbours of `goal`, north, east, south, west.
pub fn approach_cells_of(map: &GridMap, goal: Pos) -> (v: Vec<Pos>)
    ensures
        v@ == approach_cells(*map, goal),
{
    let mut v: Vec<Pos> = Vec::new();
    let ghost v0 = v@;
    if goal.1 < usize::MAX && goal.1 + 1 < map.height && goal.0 < map.width && map.is_walkable(goal.0, goal.1 + 1) {
        v.push((goal.0, goal.1 + 1));
    }
    let ghost v1 = v@;
    if goal.0 < usize::MAX && goal.0 + 1 < map.width && goal.1 < map.height && map.is_walkable(goal.0 + 1, goal.1) {
        v.push((goal.0 + 1, goal.1));
    }
    let ghost v2 = v@;
    if goal.1 > 0 && goal.0 < map.width && goal.1 - 1 < map.height && map.is_walkable(goal.0, goal.1 - 1) {
        v.push((goal.0, goal.1 - 1));
    }
    let ghost v3 = v@;
    if goal.0 > 0 && goal.0 - 1 < map.width && goal.1 < map.height && map.is_walkable(goal.0 - 1, goal.1) {
        v.push((goal.0 - 1, goal.1));
    }
    proof {
        let n = (goal.0, (goal.1 + 1) as usize);
        let e = ((goal.0 + 1) as usize, goal.1);
        let s = (goal.0, (goal.1 - 1) as usize);
        let w = ((goal.0 - 1) as usize, goal.1);
        let a = if goal.1 + 1 <= usize::MAX && step_ok(*map, n) { seq![n] } else { seq![] };
        let b = if goal.0 + 1 <= usize::MAX && step_ok(*map, e) { seq![e] } else { seq![] };
        let c = if goal.1 > 0 && step_ok(*map, s) { seq![s] } else { seq![] };
        let d = if goal.0 > 0 && step_ok(*map, w) { seq![w] } else { seq![] };
        assert(v1 =~= a);
        assert(v2 =~= a + b);
        assert(v3 =~= a + b + c);
        assert(v@ =~= a + b + c + d);
    }
    v
}

/// Plans a shortest walk from `start` to `goal`.
pub fn plan_shortest(map: &GridMap, start: Pos, goal: Pos) -> (r: Option<PathResult>)
    ensures
        planned(*map, start, goal, r),
{
    if !map.is_walkable(start.0, start.1) || !map.is_walkable(goal.0, goal.1) {
        return None;
    }
    match shortest_walk(map, start, goal) {
        Some(w) => {
            let cost = path_cost(w.len());
            Some(PathResult { grid_path: w, cost })
        },
        None => None,
    }
}

proof fn lemma_beats_from_none(map: GridMap, start: Pos, cands: Seq<Pos>, k: int, w: Seq<Pos>)
    requires
        0 <= k < cands.len(),
        is_shortest_walk(map, w, start, cands[k]),
        forall|j: int| 0 <= j < k ==> !connected(map, start, #[trigger] cands[j]),
    ensures
        beats(map, start, cands, k + 1, k, w),
{
    assert forall|j: int, v: Seq<Pos>|
        0 <= j < k && #[trigger] walk_between(map, v, start, cands[j]) implies w.len() < v.len() by {
        assert(connected(map, start, cands[j]));
    }
}

proof fn lemma_beats_better(map: GridMap, start: Pos, cands: Seq<Pos>, k: int, i: int, b: Seq<Pos>, w: Seq<Pos>)
    requires
        0 <= i < k < cands.len(),
        beats(map, start, cands, k, i, b),
        is_shortest_walk(map, w, start, cands[k]),
        w.len() < b.len(),
    ensures
        beats(map, start, cands, k + 1, k, w),
{
    assert forall|j: int, v: Seq<Pos>|
        0 <= j < k && #[trigger] walk_between(map, v, start, cands[j]) implies w.len() < v.len() by {
        assert(b.len() <= v.len());
    }
}

proof fn lemma_beats_keep(map: GridMap, start: Pos, cands: Seq<Pos>, k: int, i: int, b: Seq<Pos>, w: Seq<Pos>)
    requires
        0 <= i < k < cands.len(),
        beats(map, start, cands, k, i, b),
        is_shortest_walk(map, w, start, cands[k]),
        b.len() <= w.len(),
    ensures
        beats(map, start, cands, k + 1, i, b),
{
}

proof fn lemma_beats_unreached(map: GridMap, start: Pos, cands: Seq<Pos>, k: int, i: int, b: Seq<Pos>)
    requires
        0 <= i < k < cands.len(),
        beats(map, start, cands, k, i, b),
        !connected(map, start, cands[k]),
    ensures
        beats(map, start, cands, k + 1, i, b),
{
    assert forall|j: int, v: Seq<Pos>|
        0 <= j < k + 1 && #[trigger] walk_between(map, v, start, cands[j]) implies b.len() <= v.len() && (j < i
            ==> b.len() < v.len()) by {
        if j == k {
            assert(connected(map, start, cands[j]));
        }
    }
}

/// Plans the cheapest approach to the candidate cells `cands`, keeping the
/// first of equally short walks.
#[verifier::spinoff_prover]
#[verifier::rlimit(40)]
pub fn plan_best_approach(map: &GridMap, start: Pos, cands: &Vec<Pos>) -> (r: Option<PathResult>)
    ensures
        r matches Some(p) ==> (exists|i: int| best_approach(*map, start, cands@, i, p.grid_path@)) && p.cost
            == step_cost(p.grid_path@.len() - 1),
        r is None ==> forall|j: int| 0 <= j < cands@.len() ==> !connected(*map, start, #[trigger] cands@[j]),
{
    let mut best: Option<PathResult> = None;
    let ghost mut best_i: int = 0;
    let mut k: usize = 0;
    while k < cands.len()
        invariant
            k <= cands@.len(),
            best is None ==> forall|j: int| 0 <= j < k ==> !connected(*map, start, #[trigger] cands@[j]),
            best matches Some(p) ==> {
                &&& 0 <= best_i < k
                &&& is_shortest_walk(*map, p.grid_path@, start, cands@[best_i])
                &&& p.cost == step_cost(p.grid_path@.len() - 1)
                &&& beats(*map, start, cands@, k as int, best_i, p.grid_path@)
            },
        decreases cands@.len() - k,
    {
        let c = cands[k];
        let found = shortest_walk(map, start, c);
        match found {
            Some(w) => {
                let better = match &best {
                    Some(b) => w.len() < b.grid_path.len(),
                    None => true,
                };
                if better {
                    proof {
                        if best is Some {
                            lemma_beats_better(*map, start, cands@, k as int, best_i, best->Some_0.grid_path@, w@);
                        } else {
                            lemma_beats_from_none(*map, start, cands@, k as int, w@);
                        }
                        best_i = k as int;
                    }
                    let cost = path_cost(w.len());
                    best = Some(PathResult { grid_path: w, cost });
                } else {
                    proof {
                        lemma_beats_keep(*map, start, cands@, k as int, best_i, best->Some_0.grid_path@, w@);
                    }
                }
            },
            None => {
                proof {
                    if best is Some {
                        lemma_beats_unreached(*map, start, cands@, k as int, best_i, best->Some_0.grid_path@);
                    }
                }
            },
        }
        k = k + 1;
    }
    proof {
        if best is Some {
            assert(best_approach(*map, start, cands@, best_i, best->Some_0.grid_path@));
        }
    }
    best
}

/// Plans a path that ends next to `goal` when `goal` is not walkable.
pub fn plan_approach(map: &GridMap, start: Pos, goal: Pos) -> (r: Option<PathResult>)
    ensures
        approach_planned(*map, start, goal, r),
{
    if !map.is_walkable(start.0, start.1) {
        return None;
    }
    if map.is_walkable(goal.0, goal.1) {
        return plan_shortest(map, start, goal);
    }
    if (start.0 == goal.0 && start.1 == goal.1) || is_adjacent(start, goal) {
        let mut v: Vec<Pos> = Vec::new();
        v.push(start);
        return Some(PathResult { grid_path: v, cost: 0 });
    }
    let cands = approach_cells_of(map, goal);
    plan_best_approach(map, start, &cands)
}

/// Single-robot A* planner: shortest paths, no collision avoidance.
pub struct AStarPathfinder;

impl AStarPathfinder {
    pub fn new() -> (p: AStarPathfinder) {
        AStarPathfinder
    }

    /// Name of the algorithm, for logs.
    pub fn name(&self) -> (s: &'static str)
        ensures
            s@ == "A*"@,
    {
        "A*"
    }

    /// A shortest path from `start` to `goal`; `None` when either end is not
    /// walkable or no walk connects them.
    pub fn find_path(&self, map: &GridMap, start: Pos, goal: Pos) -> (r: Option<PathResult>)
        ensures
            planned(*map, start, goal, r),
    {
        plan_shortest(map, start, goal)
    }

    /// A path to `goal`, or, when `goal` is not walkable (a shelf), to the
    /// cheapest of its walkable neighbours.
    pub fn find_path_to_non_walkable(&self, map: &GridMap, start: Pos, goal: Pos) -> (r: Option<PathResult>)
        ensures
            approach_planned(*map, start, goal, r),
    {
        plan_approach(map, start, goal)
    }

    /// A* does not coordinate robots: the other robots are ignored.
    pub fn find_path_avoiding(&self, map: &GridMap, start: Pos, goal: Pos, other_robots: &[(u32, Pos)]) -> (r: Option<
        PathResult,
    >)
        ensures
            planned(*map, start, goal, r),
    {
        plan_shortest(map, start, goal)
    }
}

impl Default for AStarPathfinder {
    fn default() -> (p: AStarPathfinder) {
        AStarPathfinder::new()
    }
}

/// The candidate cells for approaching a goal are exactly its walkable
/// in-bounds orthogonal neighbours: north, east, south and west each count
/// whenever a walk may step onto it, and nothing else counts.
pub proof fn law_approach_cells_are_walkable_neighbours(map: GridMap, goal: Pos, c: Pos)
    ensures
        approach_cells(map, goal).contains(c) <==> (adj(c, goal) && step_ok(map, c)),
{
    let n = (goal.0, (goal.1 + 1) as usize);
    let e = ((goal.0 + 1) as usize, goal.1);
    let so = (goal.0, (goal.1 - 1) as usize);
    let w = ((goal.0 - 1) as usize, goal.1);
    let a = if goal.1 + 1 <= usize::MAX && step_ok(map, n) { seq![n] } else { seq![] };
    let b = if goal.0 + 1 <= usize::MAX && step_ok(map, e) { seq![e] } else { seq![] };
    let cc = if goal.1 > 0 && step_ok(map, so) { seq![so] } else { seq![] };
    let d = if goal.0 > 0 && step_ok(map, w) { seq![w] } else { seq![] };
    let all = a + b + cc + d;
    assert(approach_cells(map, goal) == all);
    assert forall|x: Pos| all.contains(x) <==> (a.contains(x) || b.contains(x) || cc.contains(x) || d.contains(x)) by {
        if all.contains(x) {
            let k = choose|k: int| 0 <= k < all.len() && all[k] == x;
            if k < a.len() {
                assert(a[k] == x);
            } else if k < a.len() + b.len() {
                assert(b[k - a.len()] == x);
            } else if k < a.len() + b.len() + cc.len() {
                assert(cc[k - a.len() - b.len()] == x);
            } else {
                assert(d[k - a.len() - b.len() - cc.len()] == x);
            }
        }
        if a.contains(x) {
            assert(all[0] == x);
        }
        if b.contains(x) {
            assert(all[a.len() as int] == x);
        }
        if cc.contains(x) {
            assert(all[(a.len() + b.len()) as int] == x);
        }
        if d.contains(x) {
            assert(all[(a.len() + b.len() + cc.len()) as int] == x);
        }
    }
    if adj(c, goal) && step_ok(map, c) {
        if c.0 == goal.0 && c.1 == goal.1 + 1 {
            assert(c == n);
            assert(a[0] == c);
        } else if c.0 == goal.0 && goal.1 == c.1 + 1 {
            assert(c == so);
            assert(cc[0] == c);
        } else if c.1 == goal.1 && c.0 == goal.0 + 1 {
            assert(c == e);
            assert(b[0] == c);
        } else {
            assert(c == w);
            assert(d[0] == c);
        }
    }
}

/// A path to a goal that is not walkable ends at the nearest walkable
/// neighbour of the goal: there is none exactly when no walkable
/// neighbour of the goal (north, east, south or west) is connected to the
/// start; otherwise the path runs from the start to a walkable neighbour
/// and is no longer than any walk from the start to any walkable
/// neighbour.
pub proof fn law_approach_ends_at_nearest_neighbour(map: GridMap, start: Pos, goal: Pos, r: Option<PathResult>)
    requires
        approach_planned(map, start, goal, r),
        walkable(map, start.0, start.1),
        !walkable(map, goal.0, goal.1),
        start != goal,
        !adj(start, goal),
    ensures
        r is None <==> forall|c: Pos| adj(c, goal) && step_ok(map, c) ==> !#[trigger] connected(map, start, c),
        r matches Some(p) ==> p.grid_path@[0] == start && adj(p.grid_path@.last(), goal) && step_ok(
            map,
            p.grid_path@.last(),
        ),
        r matches Some(p) ==> forall|c: Pos, v: Seq<Pos>|
            adj(c, goal) && step_ok(map, c) && #[trigger] walk_between(map, v, start, c) ==> p.grid_path@.len()
                <= v.len(),
{
    let cands = approach_cells(map, goal);
    match r {
        Some(p) => {
            let i = choose|i: int| best_approach(map, start, cands, i, p.grid_path@);
            assert(cands.contains(cands[i]));
            law_approach_cells_are_walkable_neighbours(map, goal, cands[i]);
            assert(connected(map, start, cands[i]));
            assert forall|c: Pos, v: Seq<Pos>|
                adj(c, goal) && step_ok(map, c) && #[trigger] walk_between(map, v, start, c) implies p.grid_path@.len()
                    <= v.len() by {
                law_approach_cells_are_walkable_neighbours(map, goal, c);
                let j = choose|j: int| 0 <= j < cands.len() && cands[j] == c;
                assert(walk_between(map, v, start, cands[j]));
            }
        },
        None => {
            assert forall|c: Pos| adj(c, goal) && step_ok(map, c) implies !#[trigger] connected(map, start, c) by {
                law_approach_cells_are_walkable_neighbours(map, goal, c);
                let j = choose|j: int| 0 <= j < cands.len() && cands[j] == c;
                assert(!connected(map, start, cands[j]));
            }
        },
    }
}

} // verus!
