//! Plain grid routes for the fleet server and reachability checks for
//! task validation.
use vstd::prelude::*;
use crate::grid_map::{GridMap, walkable};
use crate::search::{
    Pos, adj, in_bounds, step_ok, reach, is_walk, walk_between, is_shortest_walk, connected, explore, explored,
    shortest_walk, position_of, lemma_walk_reach, lemma_reach_walk,
};

verus! {

/// Whether `w` is the route the fleet server plans from `start` to `goal`:
/// a shortest walk between walkable ends.
pub open spec fn routed(map: GridMap, start: Pos, goal: Pos, r: Option<Vec<Pos>>) -> bool {
    match r {
        Some(w) => walkable(map, start.0, start.1) && walkable(map, goal.0, goal.1) && is_shortest_walk(
            map,
            w@,
            start,
            goal,
        ),
        None => !(walkable(map, start.0, start.1) && walkable(map, goal.0, goal.1) && connected(map, start, goal)),
    }
}

/// Find a path from `start` to `goal`, as grid cells.
pub fn find_path(map: &GridMap, start: Pos, goal: Pos) -> (r: Option<Vec<Pos>>)
    ensures
        routed(*map, start, goal, r),
{
    if !map.is_walkable(start.0, start.1) || !map.is_walkable(goal.0, goal.1) {
        return None;
    }
    shortest_walk(map, start, goal)
}

/// The cells that count as reaching `goal`: `goal` itself when it is in
/// bounds and walkable, else its walkable in-bounds neighbours in the order
/// `+x`, `-x`, `+y`, `-y`.
pub open spec fn goal_candidates(map: GridMap, goal: Pos) -> Seq<Pos> {
    if step_ok(map, goal) {
        seq![goal]
    } else {
        let e = ((goal.0 + 1) as usize, goal.1);
        let w = ((goal.0 - 1) as usize, goal.1);
        let n = (goal.0, (goal.1 + 1) as usize);
        let s = (goal.0, (goal.1 - 1) as usize);
        (if goal.0 + 1 <= usize::MAX && step_ok(map, e) { seq![e] } else { seq![] })
            + (if goal.0 > 0 && step_ok(map, w) { seq![w] } else { seq![] })
            + (if goal.1 + 1 <= usize::MAX && step_ok(map, n) { seq![n] } else { seq![] })
            + (if goal.1 > 0 && step_ok(map, s) { seq![s] } else { seq![] })
    }
}

/// Whether a walk leads from `start`, a walkable in-bounds cell, to a cell
/// that counts as reaching `goal`.
pub open spec fn reachable_on_map(map: GridMap, start: Pos, goal: Pos) -> bool {
    &&& step_ok(map, start)
    &&& exists|j: int| 0 <= j < goal_candidates(map, goal).len() && connected(map, start, #[trigger] goal_candidates(map, goal)[j])
}

/// For a goal a robot may stand on, a robot standing inside the map can
/// reach it exactly when the fleet server finds a route to it.
pub proof fn law_reachable_iff_routed(map: GridMap, start: Pos, goal: Pos, r: Option<Vec<Pos>>)
    requires
        routed(map, start, goal, r),
        step_ok(map, start),
        step_ok(map, goal),
    ensures
        reachable_on_map(map, start, goal) == r is Some,
{
    assert(goal_candidates(map, goal) =~= seq![goal]);
    if let Some(w) = r {
        assert(walk_between(map, w@, start, goal));
        assert(connected(map, start, goal_candidates(map, goal)[0]));
    }
}

/// The cells that count as reaching `goal`.
fn reachable_goal_candidates(map: &GridMap, goal: Pos) -> (v: Vec<Pos>)
    ensures
        v@ == goal_candidates(*map, goal),
{
    let mut goals: Vec<Pos> = Vec::new();
    if goal.0 < map.width && goal.1 < map.height && map.is_walkable(goal.0, goal.1) {
        goals.push(goal);
        assert(goals@ =~= seq![goal]);
        return goals;
    }
    let ghost g0 = goals@;
    if goal.0 < usize::MAX && goal.0 + 1 < map.width && goal.1 < map.height && map.is_walkable(goal.0 + 1, goal.1) {
        goals.push((goal.0 + 1, goal.1));
    }
    let ghost g1 = goals@;
    if goal.0 > 0 && goal.0 - 1 < map.width && goal.1 < map.height && map.is_walkable(goal.0 - 1, goal.1) {
        goals.push((goal.0 - 1, goal.1));
    }
    let ghost g2 = goals@;
    if goal.1 < usize::MAX && goal.0 < map.width && goal.1 + 1 < map.height && map.is_walkable(goal.0, goal.1 + 1) {
        goals.push((goal.0, goal.1 + 1));
    }
    let ghost g3 = goals@;
    if goal.1 > 0 && goal.0 < map.width && goal.1 - 1 < map.height && map.is_walkable(goal.0, goal.1 - 1) {
        goals.push((goal.0, goal.1 - 1));
    }
    proof {
        let e = ((goal.0 + 1) as usize, goal.1);
        let w = ((goal.0 - 1) as usize, goal.1);
        let n = (goal.0, (goal.1 + 1) as usize);
        let s = (goal.0, (goal.1 - 1) as usize);
        let a = if goal.0 + 1 <= usize::MAX && step_ok(*map, e) { seq![e] } else { seq![] };
        let b = if goal.0 > 0 && step_ok(*map, w) { seq![w] } else { seq![] };
        let c = if goal.1 + 1 <= usize::MAX && step_ok(*map, n) { seq![n] } else { seq![] };
        let d = if goal.1 > 0 && step_ok(*map, s) { seq![s] } else { seq![] };
        assert(g1 =~= a);
        assert(g2 =~= a + b);
        assert(g3 =~= a + b + c);
        assert(goals@ =~= a + b + c + d);
    }
    goals
}

/// Check whether a walkable path exists from `start` to `goal`; when `goal`
/// is not walkable, a path to one of its walkable neighbours counts.
pub fn is_reachable_on_map(map: &GridMap, start: Pos, goal: Pos) -> (b: bool)
    ensures
        b == reachable_on_map(*map, start, goal),
{
    if start.0 >= map.width || start.1 >= map.height {
        return false;
    }
    if !map.is_walkable(start.0, start.1) {
        return false;
    }
    let goals = reachable_goal_candidates(map, goal);
    if goals.len() == 0 {
        return false;
    }
    let e = explore(map, start);
    let mut k: usize = 0;
    while k < goals.len()
        invariant
            k <= goals@.len(),
            goals@ == goal_candidates(*map, goal),
            explored(*map, start, e),
            step_ok(*map, start),
            forall|j: int| 0 <= j < k ==> !connected(*map, start, #[trigger] goals@[j]),
        decreases goals@.len() - k,
    {
        let g = goals[k];
        if let Some(i) = position_of(&e.cells, g) {
            proof {
                assert(reach(*map, start, e.cells@[i as int], e.depth@[i as int] as nat));
                lemma_reach_walk(*map, start, g, e.depth@[i as int] as nat);
                assert(connected(*map, start, goal_candidates(*map, goal)[k as int]));
                assert(step_ok(*map, start));
                assert(0 <= k < goal_candidates(*map, goal).len());
            }
            return true;
        }
        proof {
            if connected(*map, start, g) {
                let v = choose|v: Seq<Pos>| #[trigger] walk_between(*map, v, start, g);
                lemma_walk_reach(*map, v, start);
                assert(e.cells@.contains(g));
            }
        }
        k = k + 1;
    }
    false
}

} // verus!
