//! Runtime selection of the coordinator's path planner.
use vstd::prelude::*;
use crate::astar::{AStarPathfinder, PathResult, planned, approach_planned};
use crate::grid_map::GridMap;
use crate::reservations::{Key, ReservationTable, without_owner};
use crate::search::Pos;
use crate::text::str_equal;
use crate::whca::{
    WHCAPathfinder, WHCAStatsSnapshot, searched, whca_approached, ticked, span_map, span_index, stationary_ms,
    path_reserved, path_reserved_index, total_ms, stationary_history_map, recent_cells,
};

verus! {

/// The planner in use: single-robot A* or multi-robot WHCA*.
pub enum PathfinderInstance {
    /// Single-robot A* (no collision avoidance).
    AStar(AStarPathfinder),
    /// Multi-robot WHCA* (space-time collision avoidance).
    WHCA(WHCAPathfinder),
}

/// What a tick does to a WHCA* planner: stale reservations are dropped as
/// of some clock reading and the index is rebuilt.
pub open spec fn whca_ticked(w0: WHCAPathfinder, w1: WHCAPathfinder) -> bool {
    &&& w1.wf()
    &&& w1.window() == w0.window()
    &&& exists|now: u64|
        now >= w0.clock() && w1.clock() == now && w1.reservations() == #[trigger] ticked(w0.reservations(), now)
    &&& w1.index() == ReservationTable::index_of_map(w1.reservations())
}

/// What reserving a timed path does to a WHCA* planner.
pub open spec fn whca_path_reserved(
    w0: WHCAPathfinder,
    w1: WHCAPathfinder,
    robot_id: u32,
    path: Seq<Pos>,
    travel: Seq<u64>,
) -> bool {
    &&& w1.wf()
    &&& w1.window() == w0.window()
    &&& w0.clock() <= w1.clock()
    &&& total_ms(travel) + 2300 <= u64::MAX ==> exists|now: u64|
        now <= w1.clock() && w1.reservations() == #[trigger] path_reserved(w0.reservations(), robot_id, path, travel, now, w0.window())
            && w1.index() == path_reserved_index(w0.index(), robot_id, path, travel, now, w0.window())
    &&& total_ms(travel) + 2300 > u64::MAX ==> w1.reservations() == w0.reservations() && w1.index() == w0.index()
}

/// What reserving a stationary robot's cell does to a WHCA* planner.
pub open spec fn whca_stationary_reserved(w0: WHCAPathfinder, w1: WHCAPathfinder, robot_id: u32, pos: Pos) -> bool {
    &&& w1.wf()
    &&& w1.window() == w0.window()
    &&& w0.clock() <= w1.clock()
    &&& exists|now: u64|
        now <= w1.clock() && now < u64::MAX - crate::config::STATIONARY_RESERVATION_MS && w1.reservations()
            == #[trigger] span_map(
            w0.reservations(),
            robot_id,
            pos,
            now as int,
            now + stationary_ms(w0.window()),
        ) && w1.index() == span_index(w0.index(), robot_id, pos, now as int, now + stationary_ms(w0.window()))
}

/// What reserving a stationary robot's recent cells does to a WHCA*
/// planner.
pub open spec fn whca_history_reserved(
    w0: WHCAPathfinder,
    w1: WHCAPathfinder,
    robot_id: u32,
    positions: Seq<Pos>,
    current: Pos,
) -> bool {
    &&& w1.wf()
    &&& w1.window() == w0.window()
    &&& w0.clock() <= w1.clock()
    &&& exists|now: u64|
        now <= w1.clock() && w1.reservations() == #[trigger] stationary_history_map(
            w0.reservations(),
            robot_id,
            recent_cells(positions, current),
            now,
            w0.window(),
        )
}

/// What clearing a robot's reservations does to a WHCA* planner.
pub open spec fn whca_cleared(w0: WHCAPathfinder, w1: WHCAPathfinder, robot_id: u32) -> bool {
    &&& w1.wf()
    &&& w1.window() == w0.window()
    &&& w1.stats() == w0.stats()
    &&& w1.clock() == w0.clock()
    &&& w1.reservations() == without_owner(w0.reservations(), robot_id)
    &&& (exists|k: Key| #[trigger] w0.index().contains((robot_id, k))) ==> forall|p: (u32, Key)|
        #[trigger] w1.index().contains(p) <==> w0.index().contains(p) && p.0 != robot_id
    &&& !(exists|k: Key| #[trigger] w0.index().contains((robot_id, k))) ==> w1.index()
        == ReservationTable::index_of_map(w1.reservations())
}

impl PathfinderInstance {
    /// Well-formedness of the planner's state.
    pub open spec fn wf(&self) -> bool {
        match self {
            PathfinderInstance::WHCA(w) => w.wf(),
            PathfinderInstance::AStar(_) => true,
        }
    }

    /// The planner a strategy name selects: `"astar"` selects A*, any
    /// other name WHCA* with the default window.
    pub fn from_strategy(name: &str) -> (p: PathfinderInstance)
        ensures
            p.wf(),
            (name@ == "astar"@) ==> p is AStar,
            (name@ != "astar"@) ==> (p matches PathfinderInstance::WHCA(w) && w.window() == crate::config::WINDOW_SIZE_MS
                && w.reservations() == Map::<Key, u32>::empty() && w.stats() == crate::whca::zero_stats()),
    {
        if str_equal(name, "astar") {
            PathfinderInstance::AStar(AStarPathfinder::new())
        } else {
            PathfinderInstance::WHCA(WHCAPathfinder::with_defaults())
        }
    }

    /// The planner the configured strategy selects.
    pub fn from_config() -> (p: PathfinderInstance)
        ensures
            p.wf(),
            p matches PathfinderInstance::WHCA(w) && w.window() == crate::config::WINDOW_SIZE_MS
                && w.reservations() == Map::<Key, u32>::empty() && w.stats() == crate::whca::zero_stats(),
    {
        proof {
            reveal_strlit("whca");
            reveal_strlit("astar");
            assert(crate::config::PATHFINDING_STRATEGY@ != "astar"@) by {
                assert(crate::config::PATHFINDING_STRATEGY@[0] != "astar"@[0]);
            }
        }
        Self::from_strategy(crate::config::PATHFINDING_STRATEGY)
    }

    /// Drop stale reservations (WHCA* only).
    pub fn tick(&mut self)
        requires
            old(self).wf(),
        ensures
            final(self).wf(),
            (*old(self)) is AStar <==> (*final(self)) is AStar,
            *old(self) matches PathfinderInstance::WHCA(w0) ==> *final(self) matches PathfinderInstance::WHCA(w1)
                && whca_ticked(w0, w1),
    {
        if let PathfinderInstance::WHCA(whca) = self {
            whca.tick();
        }
    }

    /// Reserve a timed path for robot `robot_id` (WHCA* only).
    pub fn reserve_path_timed(&mut self, robot_id: u32, path: &[Pos], travel_ms: &[u64])
        requires
            old(self).wf(),
            path@.len() == 0 || travel_ms@.len() + 1 == path@.len(),
        ensures
            final(self).wf(),
            (*old(self)) is AStar <==> (*final(self)) is AStar,
            *old(self) matches PathfinderInstance::WHCA(w0) ==> *final(self) matches PathfinderInstance::WHCA(w1)
                && whca_path_reserved(w0, w1, robot_id, path@, travel_ms@),
    {
        if let PathfinderInstance::WHCA(whca) = self {
            whca.reserve_path_timed(robot_id, path, travel_ms);
        }
    }

    /// Reserve a stationary robot's cell (WHCA* only).
    pub fn reserve_stationary(&mut self, robot_id: u32, pos: Pos)
        requires
            old(self).wf(),
        ensures
            final(self).wf(),
            (*old(self)) is AStar <==> (*final(self)) is AStar,
            *old(self) matches PathfinderInstance::WHCA(w0) ==> *final(self) matches PathfinderInstance::WHCA(w1)
                && whca_stationary_reserved(w0, w1, robot_id, pos),
    {
        if let PathfinderInstance::WHCA(whca) = self {
            whca.reserve_stationary(robot_id, pos);
        }
    }

    /// Reserve a stationary robot's recent cells (WHCA* only).
    pub fn reserve_stationary_history(
        &mut self,
        robot_id: u32,
        positions: &std::collections::VecDeque<Pos>,
        current_pos: Pos,
    )
        requires
            old(self).wf(),
        ensures
            final(self).wf(),
            (*old(self)) is AStar <==> (*final(self)) is AStar,
            *old(self) matches PathfinderInstance::WHCA(w0) ==> *final(self) matches PathfinderInstance::WHCA(w1)
                && whca_history_reserved(w0, w1, robot_id, positions@, current_pos),
    {
        if let PathfinderInstance::WHCA(whca) = self {
            whca.reserve_stationary_history(robot_id, positions, current_pos);
        }
    }

    /// Clear a robot's reservations (WHCA* only).
    pub fn clear_robot_reservations(&mut self, robot_id: u32)
        requires
            old(self).wf(),
        ensures
            final(self).wf(),
            (*old(self)) is AStar <==> (*final(self)) is AStar,
            *old(self) matches PathfinderInstance::WHCA(w0) ==> *final(self) matches PathfinderInstance::WHCA(w1)
                && whca_cleared(w0, w1, robot_id),
    {
        if let PathfinderInstance::WHCA(whca) = self {
            let ghost w0 = *whca;
            whca.clear_robot_reservations(robot_id);
            proof {
                if exists|k: Key| #[trigger] w0.index().contains((robot_id, k)) {
                    assert forall|p: (u32, Key)| #[trigger] whca.index().contains(p) <==> w0.index().contains(p)
                        && p.0 != robot_id by {}
                } else {
                    assert(whca.index() == ReservationTable::index_of_map(whca.reservations()));
                }
            }
        }
    }

    /// Whether another robot reserves `pos` now; always `false` for A*.
    pub fn is_reserved_now(&self, pos: Pos, exclude_robot: Option<u32>) -> (b: bool)
        requires
            self.wf(),
        ensures
            self is AStar ==> !b,
            self matches PathfinderInstance::WHCA(w) ==> exists|now: u64|
                now >= w.clock() && b == #[trigger] crate::whca::reserved_at(
                    w.reservations(),
                    pos,
                    crate::whca::probe_time(now),
                    exclude_robot,
                ),
    {
        match self {
            PathfinderInstance::WHCA(whca) => whca.is_reserved_now(pos, exclude_robot),
            _ => false,
        }
    }

    /// Whether another robot reserves `pos` at `offset_ms` from now; always
    /// `false` for A*.
    pub fn is_reserved_soon(&self, pos: Pos, offset_ms: u64, exclude_robot: Option<u32>) -> (b: bool)
        requires
            self.wf(),
        ensures
            self is AStar ==> !b,
            self matches PathfinderInstance::WHCA(w) ==> exists|now: u64|
                now >= w.clock() && b == #[trigger] crate::whca::reserved_at(
                    w.reservations(),
                    pos,
                    crate::whca::soon_time(now, offset_ms),
                    exclude_robot,
                ),
    {
        match self {
            PathfinderInstance::WHCA(whca) => whca.is_reserved_soon(pos, offset_ms, exclude_robot),
            _ => false,
        }
    }

    /// A path for robot `robot_id`: a shortest path for A*, a WHCA* path
    /// that ignores only the robot's own reservations for WHCA*.
    pub fn find_path_for_robot(&mut self, map: &GridMap, start: Pos, goal: Pos, robot_id: u32) -> (r: Option<PathResult>)
        requires
            old(self).wf(),
        ensures
            final(self).wf(),
            (*old(self)) is AStar ==> planned(*map, start, goal, r),
            *old(self) matches PathfinderInstance::WHCA(w) ==> searched(
                *map,
                w.reservations(),
                Some(robot_id),
                w.window(),
                start,
                goal,
                r,
            ),
    {
        match self {
            PathfinderInstance::AStar(astar) => astar.find_path(map, start, goal),
            PathfinderInstance::WHCA(whca) => whca.find_path_for_robot(map, start, goal, robot_id),
        }
    }

    /// A path to `goal` or next to it when it is not walkable, for robot
    /// `robot_id`.
    pub fn find_path_to_non_walkable_for_robot(&mut self, map: &GridMap, start: Pos, goal: Pos, robot_id: u32) -> (r:
        Option<PathResult>)
        requires
            old(self).wf(),
        ensures
            final(self).wf(),
            (*old(self)) is AStar ==> approach_planned(*map, start, goal, r),
            *old(self) matches PathfinderInstance::WHCA(w) ==> exists|rs: Seq<Option<PathResult>>|
                #[trigger] whca_approached(*map, w.reservations(), Some(robot_id), w.window(), start, goal, rs, r),
    {
        match self {
            PathfinderInstance::AStar(astar) => astar.find_path_to_non_walkable(map, start, goal),
            PathfinderInstance::WHCA(whca) => whca.find_path_to_non_walkable_for_robot(map, start, goal, robot_id),
        }
    }

    /// A path from `start` to `goal`.
    pub fn find_path(&mut self, map: &GridMap, start: Pos, goal: Pos) -> (r: Option<PathResult>)
        requires
            old(self).wf(),
        ensures
            final(self).wf(),
            (*old(self)) is AStar ==> planned(*map, start, goal, r),
            *old(self) matches PathfinderInstance::WHCA(w) ==> searched(*map, w.reservations(), None, w.window(), start, goal, r),
    {
        match self {
            PathfinderInstance::AStar(astar) => astar.find_path(map, start, goal),
            PathfinderInstance::WHCA(whca) => whca.find_path(map, start, goal),
        }
    }

    /// A path to `goal` or next to it when it is not walkable.
    pub fn find_path_to_non_walkable(&mut self, map: &GridMap, start: Pos, goal: Pos) -> (r: Option<PathResult>)
        requires
            old(self).wf(),
        ensures
            final(self).wf(),
            (*old(self)) is AStar ==> approach_planned(*map, start, goal, r),
            *old(self) matches PathfinderInstance::WHCA(w) ==> exists|rs: Seq<Option<PathResult>>|
                #[trigger] whca_approached(*map, w.reservations(), None, w.window(), start, goal, rs, r),
    {
        match self {
            PathfinderInstance::AStar(astar) => astar.find_path_to_non_walkable(map, start, goal),
            PathfinderInstance::WHCA(whca) => whca.find_path_to_non_walkable(map, start, goal),
        }
    }

    /// A path avoiding the other robots; both planners leave that to their
    /// own means (none for A*, the reservations for WHCA*).
    pub fn find_path_avoiding(&mut self, map: &GridMap, start: Pos, goal: Pos, obstacles: &[(u32, Pos)]) -> (r: Option<
        PathResult,
    >)
        requires
            old(self).wf(),
        ensures
            final(self).wf(),
            (*old(self)) is AStar ==> planned(*map, start, goal, r),
            *old(self) matches PathfinderInstance::WHCA(w) ==> searched(*map, w.reservations(), None, w.window(), start, goal, r),
    {
        match self {
            PathfinderInstance::AStar(astar) => astar.find_path_avoiding(map, start, goal, obstacles),
            PathfinderInstance::WHCA(whca) => whca.find_path_avoiding(map, start, goal, obstacles),
        }
    }

    /// The WHCA* counters when WHCA* is in use.
    pub fn whca_stats_snapshot(&self) -> (s: Option<WHCAStatsSnapshot>)
        ensures
            self is AStar ==> s is None,
            self matches PathfinderInstance::WHCA(w) ==> s == Some(w.stats()),
    {
        match self {
            PathfinderInstance::WHCA(whca) => Some(whca.stats_snapshot()),
            PathfinderInstance::AStar(_) => None,
        }
    }

    /// Reset the WHCA* counters when WHCA* is in use.
    pub fn reset_whca_stats(&mut self)
        requires
            old(self).wf(),
        ensures
            final(self).wf(),
            (*old(self)) is AStar <==> (*final(self)) is AStar,
            *final(self) matches PathfinderInstance::WHCA(w) ==> w.stats() == crate::whca::zero_stats(),
    {
        if let PathfinderInstance::WHCA(whca) = self {
            whca.reset_stats();
        }
    }

    /// Name of the planner in use, for logs.
    pub fn name(&self) -> (s: &'static str)
        ensures
            self is AStar ==> s@ == "A*"@,
            self is WHCA ==> s@ == "WHCA*"@,
    {
        match self {
            PathfinderInstance::AStar(astar) => astar.name(),
            PathfinderInstance::WHCA(whca) => whca.name(),
        }
    }
}

/// Whether one planner call leaves the strategy as it was: A* stays A*
/// and WHCA* stays WHCA*, as `tick`, the reserve calls and
/// `clear_robot_reservations` each state.
pub open spec fn keeps_strategy(a: PathfinderInstance, b: PathfinderInstance) -> bool {
    a is AStar <==> b is AStar
}

/// An A* planner never reserves: along any run of planner calls from an A*
/// planner, each of which keeps the strategy, every planner is A*, so
/// every `is_reserved_soon` and `is_reserved_now` along the run answers
/// `false`.
pub proof fn law_astar_run_stays_astar(states: Seq<PathfinderInstance>)
    requires
        states.len() > 0,
        states[0] is AStar,
        forall|i: int| 0 <= i < states.len() - 1 ==> #[trigger] keeps_strategy(states[i], states[i + 1]),
    ensures
        forall|i: int| 0 <= i < states.len() ==> #[trigger] states[i] is AStar,
    decreases states.len(),
{
    if states.len() > 1 {
        let p = states.drop_last();
        assert forall|i: int| 0 <= i < p.len() - 1 implies #[trigger] keeps_strategy(p[i], p[i + 1]) by {
            assert(keeps_strategy(states[i], states[i + 1]));
        }
        law_astar_run_stays_astar(p);
        assert forall|i: int| 0 <= i < states.len() implies #[trigger] states[i] is AStar by {
            if i < p.len() {
                assert(p[i] == states[i]);
            } else {
                let j = i - 1;
                assert(p[j] == states[j]);
                assert(0 <= j < states.len() - 1);
                assert(keeps_strategy(states[j], states[j + 1]));
                assert(states[j + 1] == states[i]);
            }
        }
    }
}

} // verus!
