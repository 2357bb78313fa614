//! Windowed Hierarchical Cooperative A* (WHCA*): multi-robot planning in
//! space and time.
//!
//! Every robot reserves the cells it will occupy in a space-time
//! reservation table; later robots plan around those reservations. A plan
//! is a sequence of cells, one per time step of `MOVE_TIME_MS`: each step
//! moves to a walkable neighbour or waits in place. A move may not enter a
//! cell reserved by another robot around the arrival time, nor swap cells
//! with a robot coming the other way; a wait may not hold a cell reserved
//! by another robot, and at most `MAX_WAIT_TIME` waits may follow each
//! other. Only steps that start inside the planning window are taken.
use vstd::prelude::*;
use crate::config::{MAX_WAIT_TIME, MOVE_TIME_MS, RESERVATION_TOLERANCE_MS};
use crate::grid_map::{GridMap, walkable};
use crate::reservations::{
    Key, ReservationTable, held_in, held_by_in, holds, without_owner,
};
use crate::search::{Pos, adj, step_ok};
use std::time::Instant;
use std::collections::BTreeSet;
use crate::clock::{instant_now, elapsed_ms, elapsed_us};
use crate::astar::{PathResult, step_cost, approach_cells, approach_cells_of, is_adjacent};

verus! {

broadcast use vstd::std_specs::btree::group_btree_axioms, vstd::laws_cmp::group_laws_cmp;

/// Whether a robot other than `excl` reserves cell `c` within the tolerance
/// of `time`. Probe times below zero wrap around to the top of the `u64`
/// range.
pub open spec fn reserved_at(m: Map<Key, u32>, c: Pos, time: u64, excl: Option<u32>) -> bool {
    ||| held_in(m, c.0, c.1, time - 200, time + 200, excl)
    ||| (time < 200 && held_in(m, c.0, c.1, 0x1_0000_0000_0000_0000 - (200 - time), u64::MAX as int, excl))
}

/// Whether a move from `from` to `to` starting at `time` would swap cells
/// with another robot: one robot other than `excl` holds `to` up to the
/// departure and `from` around the arrival.
pub open spec fn edge_conflict(m: Map<Key, u32>, from: Pos, to: Pos, time: u64, excl: Option<u32>) -> bool {
    let to_lo: int = if time >= 200 { time - 200 } else { 0 };
    let arrive: int = time + 500;
    exists|id: u32|
        held_by_in(m, id, to.0, to.1, to_lo, time as int, excl) && #[trigger] held_by_in(
            m,
            id,
            from.0,
            from.1,
            arrive - 200,
            arrive + 200,
            excl,
        )
}

/// Whether a robot in `a` at `time` may move to `b`.
pub open spec fn move_ok(map: GridMap, m: Map<Key, u32>, excl: Option<u32>, a: Pos, b: Pos, time: u64) -> bool {
    &&& adj(a, b)
    &&& step_ok(map, b)
    &&& !reserved_at(m, b, (time + 500) as u64, excl)
    &&& !edge_conflict(m, a, b, time, excl)
}

/// Whether a robot in `a` at `time` may wait there one step.
pub open spec fn wait_ok(m: Map<Key, u32>, excl: Option<u32>, a: Pos, time: u64) -> bool {
    !reserved_at(m, a, (time + 500) as u64, excl)
}

/// The time of step `i` of a plan started at `t0`.
pub open spec fn step_time(t0: u64, i: int) -> u64 {
    (t0 + 500 * i) as u64
}

/// The number of waits just before position `i` of `p`.
pub open spec fn trailing_waits(p: Seq<Pos>, i: int) -> nat
    decreases i,
{
    if i <= 0 || i >= p.len() {
        0
    } else if p[i - 1] == p[i] {
        1 + trailing_waits(p, i - 1)
    } else {
        0
    }
}

/// Whether step `i` of `p` (from `p[i]` to `p[i + 1]`) is allowed.
pub open spec fn timed_step(map: GridMap, m: Map<Key, u32>, excl: Option<u32>, t0: u64, p: Seq<Pos>, i: int) -> bool {
    let t = step_time(t0, i);
    ||| (p[i + 1] == p[i] && trailing_waits(p, i) < 10 && wait_ok(m, excl, p[i], t))
    ||| move_ok(map, m, excl, p[i], p[i + 1], t)
}

/// Whether `p` is a plan from `s` to `g` started at `t0`: every step is
/// allowed and starts inside the window.
pub open spec fn timed_plan(
    map: GridMap,
    m: Map<Key, u32>,
    excl: Option<u32>,
    window: u64,
    t0: u64,
    s: Pos,
    g: Pos,
    p: Seq<Pos>,
) -> bool {
    &&& p.len() > 0
    &&& p[0] == s
    &&& p.last() == g
    &&& forall|i: int| 0 <= i < p.len() - 1 ==> #[trigger] timed_step(map, m, excl, t0, p, i)
    &&& (p.len() <= 1 || 500 * (p.len() - 2) < window)
}

/// The fewest waits just before reaching `c` at step `k` over all plans
/// from `s` started at `t0`, or `None` when no plan is in `c` at step `k`.
/// A move in needs no wait; otherwise the robot was in `c` already and
/// waited.
pub open spec fn best(map: GridMap, m: Map<Key, u32>, excl: Option<u32>, t0: u64, s: Pos, k: nat, c: Pos) -> Option<nat>
    decreases k,
{
    if k == 0 {
        if c == s {
            Some(0)
        } else {
            None
        }
    } else {
        let j = (k - 1) as nat;
        let t = step_time(t0, j as int);
        let up = (c.0, (c.1 + 1) as usize);
        let down = (c.0, (c.1 - 1) as usize);
        let right = ((c.0 + 1) as usize, c.1);
        let left = ((c.0 - 1) as usize, c.1);
        if (c.1 + 1 <= usize::MAX && best(map, m, excl, t0, s, j, up) is Some && move_ok(map, m, excl, up, c, t))
            || (c.1 > 0 && best(map, m, excl, t0, s, j, down) is Some && move_ok(map, m, excl, down, c, t))
            || (c.0 + 1 <= usize::MAX && best(map, m, excl, t0, s, j, right) is Some && move_ok(map, m, excl, right, c, t))
            || (c.0 > 0 && best(map, m, excl, t0, s, j, left) is Some && move_ok(map, m, excl, left, c, t)) {
            Some(0)
        } else {
            match best(map, m, excl, t0, s, j, c) {
                Some(b) => if b < 10 && wait_ok(m, excl, c, t) {
                    Some(b + 1)
                } else {
                    None
                },
                None => None,
            }
        }
    }
}

/// Whether some cell with a plan at step `k` may move into `c`.
pub open spec fn moved_in(map: GridMap, m: Map<Key, u32>, excl: Option<u32>, t0: u64, s: Pos, k: nat, c: Pos) -> bool {
    exists|n: Pos|
        #[trigger] best(map, m, excl, t0, s, k, n) is Some && move_ok(map, m, excl, n, c, step_time(t0, k as int))
}

/// `best` at step `k + 1` in terms of step `k`.
pub proof fn lemma_best_unfold(map: GridMap, m: Map<Key, u32>, excl: Option<u32>, t0: u64, s: Pos, k: nat, c: Pos)
    ensures
        best(map, m, excl, t0, s, k + 1, c) == if moved_in(map, m, excl, t0, s, k, c) {
            Some(0nat)
        } else {
            match best(map, m, excl, t0, s, k, c) {
                Some(b) => if b < 10 && wait_ok(m, excl, c, step_time(t0, k as int)) {
                    Some(b + 1)
                } else {
                    None
                },
                None => None,
            }
        },
{
    let k1: nat = k + 1;
    assert((k1 - 1) as nat == k);
    let t = step_time(t0, k as int);
    let up = (c.0, (c.1 + 1) as usize);
    let down = (c.0, (c.1 - 1) as usize);
    let right = ((c.0 + 1) as usize, c.1);
    let left = ((c.0 - 1) as usize, c.1);
    if moved_in(map, m, excl, t0, s, k, c) {
        let n = choose|n: Pos|
            #[trigger] best(map, m, excl, t0, s, k, n) is Some && move_ok(map, m, excl, n, c, t);
        if n.0 == c.0 && n.1 == c.1 + 1 {
            assert(n == up);
        } else if n.0 == c.0 && n.1 + 1 == c.1 {
            assert(n == down);
        } else if n.1 == c.1 && n.0 == c.0 + 1 {
            assert(n == right);
        } else {
            assert(n == left);
        }
    } else {
        if c.1 + 1 <= usize::MAX && best(map, m, excl, t0, s, k, up) is Some && move_ok(map, m, excl, up, c, t) {
            assert(best(map, m, excl, t0, s, k, up) is Some && move_ok(map, m, excl, up, c, t));
        }
        if c.1 > 0 && best(map, m, excl, t0, s, k, down) is Some && move_ok(map, m, excl, down, c, t) {
            assert(best(map, m, excl, t0, s, k, down) is Some && move_ok(map, m, excl, down, c, t));
        }
        if c.0 + 1 <= usize::MAX && best(map, m, excl, t0, s, k, right) is Some && move_ok(map, m, excl, right, c, t) {
            assert(best(map, m, excl, t0, s, k, right) is Some && move_ok(map, m, excl, right, c, t));
        }
        if c.0 > 0 && best(map, m, excl, t0, s, k, left) is Some && move_ok(map, m, excl, left, c, t) {
            assert(best(map, m, excl, t0, s, k, left) is Some && move_ok(map, m, excl, left, c, t));
        }
    }
}

/// Every position of a plan has a `best` no larger than the waits that
/// precede it in the plan.
pub proof fn lemma_best_sound(
    map: GridMap,
    m: Map<Key, u32>,
    excl: Option<u32>,
    t0: u64,
    s: Pos,
    p: Seq<Pos>,
    i: int,
)
    requires
        p.len() > 0,
        p[0] == s,
        forall|j: int| 0 <= j < p.len() - 1 ==> #[trigger] timed_step(map, m, excl, t0, p, j),
        0 <= i < p.len(),
    ensures
        best(map, m, excl, t0, s, i as nat, p[i]) matches Some(b) && b <= trailing_waits(p, i),
    decreases i,
{
    if i > 0 {
        let j = i - 1;
        lemma_best_sound(map, m, excl, t0, s, p, j);
        lemma_best_unfold(map, m, excl, t0, s, j as nat, p[i]);
        assert(timed_step(map, m, excl, t0, p, j));
        assert((j + 1) as nat == i as nat);
        if move_ok(map, m, excl, p[j], p[i], step_time(t0, j)) {
            assert(best(map, m, excl, t0, s, j as nat, p[j]) is Some);
            assert(moved_in(map, m, excl, t0, s, j as nat, p[i]));
        } else {
            assert(p[i] == p[j]);
            assert(trailing_waits(p, i) == 1 + trailing_waits(p, j));
        }
    }
}

/// When no cell has a plan at step `k`, none has one at step `k + 1`.
pub proof fn lemma_best_dead(map: GridMap, m: Map<Key, u32>, excl: Option<u32>, t0: u64, s: Pos, k: nat, c: Pos)
    requires
        forall|n: Pos| #[trigger] best(map, m, excl, t0, s, k, n) is None,
    ensures
        best(map, m, excl, t0, s, k + 1, c) is None,
{
    lemma_best_unfold(map, m, excl, t0, s, k, c);
    assert(best(map, m, excl, t0, s, k, c) is None);
}

/// When no cell has a plan at step `k`, none has one at any later step.
pub proof fn lemma_best_dead_after(
    map: GridMap,
    m: Map<Key, u32>,
    excl: Option<u32>,
    t0: u64,
    s: Pos,
    k: nat,
    j: nat,
    c: Pos,
)
    requires
        forall|n: Pos| #[trigger] best(map, m, excl, t0, s, k, n) is None,
        k <= j,
    ensures
        best(map, m, excl, t0, s, j, c) is None,
    decreases j - k,
{
    if j > k {
        let i = (j - 1) as nat;
        assert forall|n: Pos| #[trigger] best(map, m, excl, t0, s, i, n) is None by {
            lemma_best_dead_after(map, m, excl, t0, s, k, i, n);
        }
        lemma_best_dead(map, m, excl, t0, s, i, c);
        assert(i + 1 == j);
    }
}


/// Aggregated counters of the planner's searches.
#[derive(Debug, Clone, Copy, Default)]
pub struct WHCAStatsSnapshot {
    pub searches_total: u64,
    pub searches_succeeded: u64,
    pub searches_failed: u64,
    pub nodes_expanded_total: u64,
    pub reservation_probe_calls_total: u64,
    pub edge_collision_checks_total: u64,
    pub wait_actions_added_total: u64,
    pub open_set_peak_observed: u64,
    pub reservation_entries_peak: u64,
    pub total_search_time_us: u64,
    pub last_search_time_us: u64,
}

/// All counters at zero.
pub open spec fn zero_stats() -> WHCAStatsSnapshot {
    WHCAStatsSnapshot {
        searches_total: 0,
        searches_succeeded: 0,
        searches_failed: 0,
        nodes_expanded_total: 0,
        reservation_probe_calls_total: 0,
        edge_collision_checks_total: 0,
        wait_actions_added_total: 0,
        open_set_peak_observed: 0,
        reservation_entries_peak: 0,
        total_search_time_us: 0,
        last_search_time_us: 0,
    }
}

fn new_stats() -> (s: WHCAStatsSnapshot)
    ensures
        s == zero_stats(),
{
    WHCAStatsSnapshot {
        searches_total: 0,
        searches_succeeded: 0,
        searches_failed: 0,
        nodes_expanded_total: 0,
        reservation_probe_calls_total: 0,
        edge_collision_checks_total: 0,
        wait_actions_added_total: 0,
        open_set_peak_observed: 0,
        reservation_entries_peak: 0,
        total_search_time_us: 0,
        last_search_time_us: 0,
    }
}

/// Counters of one search.
#[derive(Debug, Clone, Copy)]
pub struct SearchStatsDelta {
    pub nodes_expanded: u64,
    pub reservation_probe_calls: u64,
    pub edge_collision_checks: u64,
    pub wait_actions_added: u64,
    pub open_set_peak: u64,
}

/// `a + b`, or `u64::MAX` when that overflows.
pub open spec fn sat_add(a: u64, b: u64) -> u64 {
    if a + b <= u64::MAX {
        (a + b) as u64
    } else {
        u64::MAX
    }
}

/// The counters after recording a search with outcome `success`, counters
/// `d` and duration `us`.
pub open spec fn recorded(s: WHCAStatsSnapshot, success: bool, d: SearchStatsDelta, us: u64) -> WHCAStatsSnapshot {
    WHCAStatsSnapshot {
        searches_total: sat_add(s.searches_total, 1),
        searches_succeeded: if success { sat_add(s.searches_succeeded, 1) } else { s.searches_succeeded },
        searches_failed: if success { s.searches_failed } else { sat_add(s.searches_failed, 1) },
        nodes_expanded_total: sat_add(s.nodes_expanded_total, d.nodes_expanded),
        reservation_probe_calls_total: sat_add(s.reservation_probe_calls_total, d.reservation_probe_calls),
        edge_collision_checks_total: sat_add(s.edge_collision_checks_total, d.edge_collision_checks),
        wait_actions_added_total: sat_add(s.wait_actions_added_total, d.wait_actions_added),
        open_set_peak_observed: if d.open_set_peak > s.open_set_peak_observed {
            d.open_set_peak
        } else {
            s.open_set_peak_observed
        },
        reservation_entries_peak: s.reservation_entries_peak,
        total_search_time_us: sat_add(s.total_search_time_us, us),
        last_search_time_us: us,
    }
}

/// The WHCA* planner: a planning window, the reservation table, the clock
/// that times reservations, and search counters.
pub struct WHCAPathfinder {
    window_size_ms: u64,
    table: ReservationTable,
    start_time: Instant,
    stats: WHCAStatsSnapshot,
    clock_floor: u64,
}

impl WHCAPathfinder {
    /// The planning window, in milliseconds.
    pub closed spec fn window(&self) -> u64 {
        self.window_size_ms
    }

    /// The reservation table: cell and time to holding robot.
    pub closed spec fn reservations(&self) -> Map<Key, u32> {
        self.table.map()
    }

    /// The per-robot index of reserved keys.
    pub closed spec fn index(&self) -> Set<(u32, Key)> {
        self.table.index()
    }

    /// The search counters.
    pub closed spec fn stats(&self) -> WHCAStatsSnapshot {
        self.stats
    }

    /// The latest clock reading, in milliseconds since the planner was
    /// created, at which the planner updated its reservations: every later
    /// reading is at least this late.
    pub closed spec fn clock(&self) -> u64 {
        self.clock_floor
    }

    /// Well-formedness of the reservation table.
    pub closed spec fn wf(&self) -> bool {
        self.table.wf()
    }

    pub fn new(window_size_ms: u64) -> (p: WHCAPathfinder)
        ensures
            p.wf(),
            p.window() == window_size_ms,
            p.reservations() == Map::<Key, u32>::empty(),
            p.index() == Set::<(u32, Key)>::empty(),
            p.stats() == zero_stats(),
    {
        WHCAPathfinder {
            window_size_ms,
            table: ReservationTable::new(),
            start_time: instant_now(),
            stats: new_stats(),
            clock_floor: 0,
        }
    }

    /// A planner with the default window.
    pub fn with_defaults() -> (p: WHCAPathfinder)
        ensures
            p.wf(),
            p.window() == crate::config::WINDOW_SIZE_MS,
            p.reservations() == Map::<Key, u32>::empty(),
            p.index() == Set::<(u32, Key)>::empty(),
            p.stats() == zero_stats(),
    {
        Self::new(crate::config::WINDOW_SIZE_MS)
    }

    /// Name of the algorithm, for logs.
    pub fn name(&self) -> (s: &'static str)
        ensures
            s@ == "WHCA*"@,
    {
        "WHCA*"
    }

    /// Milliseconds since the planner was created: never earlier than a
    /// reading the planner already acted on.
    pub fn current_time_ms(&self) -> (t: u64)
        ensures
            t >= self.clock(),
    {
        let e = elapsed_ms(&self.start_time);
        if e < self.clock_floor {
            self.clock_floor
        } else {
            e
        }
    }

    /// Read the clock and remember the reading as the latest one acted on.
    fn read_clock(&mut self) -> (t: u64)
        ensures
            t >= old(self).clock(),
            *final(self) == (WHCAPathfinder { clock_floor: t, ..*old(self) }),
    {
        let t = self.current_time_ms();
        self.clock_floor = t;
        t
    }

    /// A copy of the search counters.
    pub fn stats_snapshot(&self) -> (s: WHCAStatsSnapshot)
        ensures
            s == self.stats(),
    {
        self.stats
    }

    /// Set every search counter to zero.
    pub fn reset_stats(&mut self)
        ensures
            final(self).stats() == zero_stats(),
            final(self).reservations() == old(self).reservations(),
            final(self).index() == old(self).index(),
            final(self).window() == old(self).window(),
            final(self).wf() == old(self).wf(),
            final(self).clock() == old(self).clock(),
    {
        self.stats = new_stats();
    }

    /// Count one search with outcome `success`, counters `d` and duration
    /// `us`.
    fn record_search_result(&mut self, success: bool, d: SearchStatsDelta, us: u64)
        ensures
            final(self).stats() == recorded(old(self).stats(), success, d, us),
            final(self).table == old(self).table,
            final(self).clock_floor == old(self).clock_floor,
            final(self).window_size_ms == old(self).window_size_ms,
    {
        let s = self.stats;
        self.stats = WHCAStatsSnapshot {
            searches_total: s.searches_total.saturating_add(1),
            searches_succeeded: if success { s.searches_succeeded.saturating_add(1) } else { s.searches_succeeded },
            searches_failed: if success { s.searches_failed } else { s.searches_failed.saturating_add(1) },
            nodes_expanded_total: s.nodes_expanded_total.saturating_add(d.nodes_expanded),
            reservation_probe_calls_total: s.reservation_probe_calls_total.saturating_add(d.reservation_probe_calls),
            edge_collision_checks_total: s.edge_collision_checks_total.saturating_add(d.edge_collision_checks),
            wait_actions_added_total: s.wait_actions_added_total.saturating_add(d.wait_actions_added),
            open_set_peak_observed: if d.open_set_peak > s.open_set_peak_observed {
                d.open_set_peak
            } else {
                s.open_set_peak_observed
            },
            reservation_entries_peak: s.reservation_entries_peak,
            total_search_time_us: s.total_search_time_us.saturating_add(us),
            last_search_time_us: us,
        };
    }

    /// Raise the peak count of reservations to the current count.
    fn update_reservation_peak_metric(&mut self)
        requires
            old(self).wf(),
        ensures
            final(self).table == old(self).table,
            final(self).window_size_ms == old(self).window_size_ms,
            final(self).clock_floor == old(self).clock_floor,
            final(self).stats() == (WHCAStatsSnapshot {
                reservation_entries_peak: if old(self).reservations().len() > old(self).stats().reservation_entries_peak {
                    old(self).reservations().len() as u64
                } else {
                    old(self).stats().reservation_entries_peak
                },
                ..old(self).stats()
            }),
    {
        let n = self.table.len() as u64;
        if n > self.stats.reservation_entries_peak {
            self.stats.reservation_entries_peak = n;
        }
    }

    /// Whether a robot other than `excl` reserves `c` within the tolerance
    /// of `time`.
    fn is_reserved(&self, c: Pos, time: u64, excl: Option<u32>) -> (b: bool)
        requires
            self.wf(),
            time + RESERVATION_TOLERANCE_MS <= u64::MAX,
        ensures
            b == reserved_at(self.reservations(), c, time, excl),
    {
        if time >= RESERVATION_TOLERANCE_MS {
            self.table.any_held(c.0, c.1, time - RESERVATION_TOLERANCE_MS, time + RESERVATION_TOLERANCE_MS, excl)
        } else {
            let low = self.table.any_held(c.0, c.1, 0, time + RESERVATION_TOLERANCE_MS, excl);
            let wrapped = self.table.any_held(c.0, c.1, u64::MAX - (RESERVATION_TOLERANCE_MS - time) + 1, u64::MAX, excl);
            proof {
                let m = self.reservations();
                if held_in(m, c.0, c.1, time - 200, time + 200, excl) {
                    let k = choose|k: Key| #[trigger] crate::reservations::holds(m, k, c.0, c.1, time - 200, time + 200, excl);
                    assert(crate::reservations::holds(m, k, c.0, c.1, 0, time + 200, excl));
                }
                if low {
                    let k = choose|k: Key| #[trigger] crate::reservations::holds(m, k, c.0, c.1, 0, time + 200, excl);
                    assert(crate::reservations::holds(m, k, c.0, c.1, time - 200, time + 200, excl));
                }
            }
            low || wrapped
        }
    }

    /// Whether a move from `from` to `to` starting at `time` would swap
    /// cells with another robot.
    fn has_edge_collision(&self, from: Pos, to: Pos, time: u64, excl: Option<u32>) -> (b: bool)
        requires
            self.wf(),
            time + MOVE_TIME_MS + RESERVATION_TOLERANCE_MS <= u64::MAX,
        ensures
            b == edge_conflict(self.reservations(), from, to, time, excl),
    {
        let to_start = time.saturating_sub(RESERVATION_TOLERANCE_MS);
        let from_center = time + MOVE_TIME_MS;
        let from_start = from_center - RESERVATION_TOLERANCE_MS;
        let from_end = from_center + RESERVATION_TOLERANCE_MS;
        self.table.shared_holder(to, to_start, time, from, from_start, from_end, excl)
    }

    /// Whether a robot in `a` at `time` may move to `b`.
    fn can_move(&self, map: &GridMap, a: Pos, b: Pos, time: u64, excl: Option<u32>, d: &mut SearchStatsDelta) -> (r: bool)
        requires
            self.wf(),
            adj(a, b),
            time + 1000 <= u64::MAX,
        ensures
            r == move_ok(*map, self.reservations(), excl, a, b, time),
    {
        if b.0 >= map.width || b.1 >= map.height || !map.is_walkable(b.0, b.1) {
            return false;
        }
        d.reservation_probe_calls = d.reservation_probe_calls.saturating_add(1);
        if self.is_reserved(b, time + MOVE_TIME_MS, excl) {
            return false;
        }
        d.edge_collision_checks = d.edge_collision_checks.saturating_add(1);
        !self.has_edge_collision(a, b, time, excl)
    }

    /// Whether a robot in `a` at `time` may wait there one step.
    fn can_wait(&self, a: Pos, time: u64, excl: Option<u32>, d: &mut SearchStatsDelta) -> (r: bool)
        requires
            self.wf(),
            time + 1000 <= u64::MAX,
        ensures
            r == wait_ok(self.reservations(), excl, a, time),
    {
        d.reservation_probe_calls = d.reservation_probe_calls.saturating_add(1);
        !self.is_reserved(a, time + MOVE_TIME_MS, excl)
    }
}


/// An entry of a search layer: a cell, the waits just before it, and the
/// index of its predecessor in the layer before.
pub type Entry = (Pos, u32, usize);

/// Whether `layer` holds a cell `c`.
pub open spec fn layer_has(layer: Seq<Entry>, c: Pos) -> bool {
    exists|a: int| 0 <= a < layer.len() && (#[trigger] layer[a]).0 == c
}

/// Whether `layer` is exactly the cells with a plan at step `k`, each once,
/// with its `best` waits.
pub open spec fn layer_ok(map: GridMap, m: Map<Key, u32>, excl: Option<u32>, t0: u64, s: Pos, k: nat, layer: Seq<Entry>) -> bool {
    &&& forall|a: int| 0 <= a < layer.len() ==> best(map, m, excl, t0, s, k, (#[trigger] layer[a]).0) == Some(layer[a].1 as nat)
    &&& forall|a: int, b: int| 0 <= a < b < layer.len() ==> (#[trigger] layer[a]).0 != (#[trigger] layer[b]).0
    &&& forall|c: Pos| #[trigger] best(map, m, excl, t0, s, k, c) is Some ==> layer_has(layer, c)
}

/// Whether entry `e` of a layer links to an entry of `prev` by a step
/// allowed at `t`.
pub open spec fn linked(map: GridMap, m: Map<Key, u32>, excl: Option<u32>, t: u64, prev: Seq<Entry>, e: Entry) -> bool {
    &&& e.2 < prev.len()
    &&& {
        ||| (e.1 == 0 && move_ok(map, m, excl, prev[e.2 as int].0, e.0, t))
        ||| (e.1 > 0 && prev[e.2 as int].0 == e.0 && prev[e.2 as int].1 + 1 == e.1 && prev[e.2 as int].1 < 10 && wait_ok(
            m,
            excl,
            e.0,
            t,
        ))
    }
}

/// The index of cell `c` in `layer`, if it is there.
fn layer_find(layer: &Vec<Entry>, c: Pos) -> (r: Option<usize>)
    ensures
        r matches Some(i) ==> i < layer@.len() && layer@[i as int].0 == c,
        r is None ==> !layer_has(layer@, c),
{
    let mut i: usize = 0;
    while i < layer.len()
        invariant
            i <= layer@.len(),
            forall|j: int| 0 <= j < i ==> (#[trigger] layer@[j]).0 != c,
        decreases layer@.len() - i,
    {
        if layer[i].0.0 == c.0 && layer[i].0.1 == c.1 {
            return Some(i);
        }
        i = i + 1;
    }
    None
}

/// The invariant of the move phase of a layer expansion after `q` entries
/// of `prev`.
pub open spec fn moves_so_far(
    map: GridMap,
    m: Map<Key, u32>,
    excl: Option<u32>,
    t: u64,
    prev: Seq<Entry>,
    q: int,
    next: Seq<Entry>,
) -> bool {
    &&& forall|a: int| 0 <= a < next.len() ==> (#[trigger] next[a]).1 == 0 && next[a].2 < q && linked(map, m, excl, t, prev, next[a])
    &&& forall|a: int, b: int| 0 <= a < b < next.len() ==> (#[trigger] next[a]).0 != (#[trigger] next[b]).0
    &&& forall|p: int, n: Pos| 0 <= p < q && #[trigger] move_ok(map, m, excl, prev[p].0, n, t) ==> layer_has(next, n)
}

impl WHCAPathfinder {
    /// Add `n` to `next`, linked to entry `q` of `prev`, when a move from
    /// `prev[q]` to `n` is allowed and `n` is not in `next` yet.
    fn push_move(
        &self,
        map: &GridMap,
        prev: &Vec<Entry>,
        q: usize,
        n: Pos,
        t: u64,
        excl: Option<u32>,
        next: &mut Vec<Entry>,
        seen: &mut BTreeSet<Pos>,
        d: &mut SearchStatsDelta,
    )
        requires
            self.wf(),
            q < prev@.len(),
            forall|x: Pos| #[trigger] old(seen)@.contains(x) <==> layer_has(old(next)@, x),
            adj(prev@[q as int].0, n),
            t + 1000 <= u64::MAX,
            forall|a: int| 0 <= a < old(next)@.len() ==> (#[trigger] old(next)@[a]).1 == 0 && old(next)@[a].2 <= q
                && linked(*map, self.reservations(), excl, t, prev@, old(next)@[a]),
            forall|a: int, b: int| 0 <= a < b < old(next)@.len() ==> (#[trigger] old(next)@[a]).0 != (#[trigger] old(next)@[b]).0,
        ensures
            forall|a: int| 0 <= a < final(next)@.len() ==> (#[trigger] final(next)@[a]).1 == 0 && final(next)@[a].2 <= q
                && linked(*map, self.reservations(), excl, t, prev@, final(next)@[a]),
            forall|a: int, b: int| 0 <= a < b < final(next)@.len() ==> (#[trigger] final(next)@[a]).0 != (#[trigger] final(next)@[b]).0,
            forall|c: Pos| layer_has(old(next)@, c) ==> layer_has(final(next)@, c),
            move_ok(*map, self.reservations(), excl, prev@[q as int].0, n, t) ==> layer_has(final(next)@, n),
            forall|c: Pos| layer_has(final(next)@, c) ==> layer_has(old(next)@, c) || c == n,
            forall|x: Pos| #[trigger] final(seen)@.contains(x) <==> layer_has(final(next)@, x),
    {
        let c = prev[q].0;
        if self.can_move(map, c, n, t, excl, d) {
            if !seen.contains(&n) {
                let ghost before = next@;
                next.push((n, 0, q));
                seen.insert(n);
                proof {
                    assert forall|x: Pos| layer_has(before, x) implies layer_has(next@, x) by {
                        let a = choose|a: int| 0 <= a < before.len() && (#[trigger] before[a]).0 == x;
                        assert(next@[a] == before[a]);
                    }
                    assert(next@[before.len() as int].0 == n);
                    assert forall|x: Pos| layer_has(next@, x) implies layer_has(before, x) || x == n by {
                        let a = choose|a: int| 0 <= a < next@.len() && (#[trigger] next@[a]).0 == x;
                        if a < before.len() {
                            assert(before[a] == next@[a]);
                        }
                    }
                    assert forall|a: int, b: int| 0 <= a < b < next@.len() implies (#[trigger] next@[a]).0 != (#[trigger] next@[b]).0 by {
                        if b == before.len() {
                            assert(before[a] == next@[a]);
                        }
                    }
                }
            }
        }
    }

    /// The layer of step `k + 1` from the layer `prev` of step `k`: first
    /// every allowed move from `prev`, then every allowed wait in a cell no
    /// move reaches.
    #[verifier::rlimit(50)]
    fn next_layer(
        &self,
        map: &GridMap,
        prev: &Vec<Entry>,
        t0: u64,
        s: Pos,
        k: usize,
        t: u64,
        excl: Option<u32>,
        d: &mut SearchStatsDelta,
    ) -> (next: Vec<Entry>)
        requires
            self.wf(),
            t == step_time(t0, k as int),
            t + 1000 <= u64::MAX,
            layer_ok(*map, self.reservations(), excl, t0, s, k as nat, prev@),
        ensures
            layer_ok(*map, self.reservations(), excl, t0, s, (k + 1) as nat, next@),
            forall|a: int| 0 <= a < next@.len() ==> #[trigger] linked(*map, self.reservations(), excl, t, prev@, next@[a]),
    {
        let ghost m = self.reservations();
        let mut next: Vec<Entry> = Vec::new();
        let mut seen: BTreeSet<Pos> = BTreeSet::new();
        let mut q: usize = 0;
        while q < prev.len()
            invariant
                self.wf(),
                m == self.reservations(),
                t + 1000 <= u64::MAX,
                q <= prev@.len(),
                moves_so_far(*map, m, excl, t, prev@, q as int, next@),
                forall|x: Pos| #[trigger] seen@.contains(x) <==> layer_has(next@, x),
            decreases prev@.len() - q,
        {
            let c = prev[q].0;
            let ghost n0 = next@;
            if c.1 < usize::MAX {
                self.push_move(map, prev, q, (c.0, c.1 + 1), t, excl, &mut next, &mut seen, d);
            }
            let ghost n1 = next@;
            if c.0 < usize::MAX {
                self.push_move(map, prev, q, (c.0 + 1, c.1), t, excl, &mut next, &mut seen, d);
            }
            let ghost n2 = next@;
            if c.1 > 0 {
                self.push_move(map, prev, q, (c.0, c.1 - 1), t, excl, &mut next, &mut seen, d);
            }
            let ghost n3 = next@;
            if c.0 > 0 {
                self.push_move(map, prev, q, (c.0 - 1, c.1), t, excl, &mut next, &mut seen, d);
            }
            proof {
                assert forall|p: int, n: Pos| 0 <= p < q + 1 && #[trigger] move_ok(*map, m, excl, prev@[p].0, n, t) implies layer_has(next@, n) by {
                    if p < q {
                        assert(layer_has(n0, n));
                        assert(layer_has(n1, n));
                        assert(layer_has(n2, n));
                        assert(layer_has(n3, n));
                    } else {
                        assert(adj(c, n));
                        if n.0 == c.0 && n.1 == c.1 + 1 {
                            assert(layer_has(n1, n));
                            assert(layer_has(n2, n));
                            assert(layer_has(n3, n));
                        } else if n.1 == c.1 && n.0 == c.0 + 1 {
                            assert(layer_has(n2, n));
                            assert(layer_has(n3, n));
                        } else if n.0 == c.0 && n.1 + 1 == c.1 {
                            assert(layer_has(n3, n));
                        } else {
                            assert(n.0 + 1 == c.0 && n.1 == c.1);
                        }
                    }
                }
            }
            q = q + 1;
        }
        let ghost na = next@;
        proof {
            assert forall|c: Pos| layer_has(na, c) <==> moved_in(*map, m, excl, t0, s, k as nat, c) by {
                if layer_has(na, c) {
                    let a = choose|a: int| 0 <= a < na.len() && (#[trigger] na[a]).0 == c;
                    let p = na[a].2 as int;
                    assert(linked(*map, m, excl, t, prev@, na[a]));
                    assert(best(*map, m, excl, t0, s, k as nat, prev@[p].0) == Some(prev@[p].1 as nat));
                    assert(best(*map, m, excl, t0, s, k as nat, prev@[p].0) is Some && move_ok(*map, m, excl, prev@[p].0, c, step_time(t0, k as int)));
                }
                if moved_in(*map, m, excl, t0, s, k as nat, c) {
                    let n = choose|n: Pos| #[trigger] best(*map, m, excl, t0, s, k as nat, n) is Some && move_ok(*map, m, excl, n, c, step_time(t0, k as int));
                    assert(layer_has(prev@, n));
                    let p = choose|p: int| 0 <= p < prev@.len() && (#[trigger] prev@[p]).0 == n;
                    assert(move_ok(*map, m, excl, prev@[p].0, c, t));
                }
            }
        }
        let mut q: usize = 0;
        while q < prev.len()
            invariant
                self.wf(),
                m == self.reservations(),
                t + 1000 <= u64::MAX,
                q <= prev@.len(),
                layer_ok(*map, m, excl, t0, s, k as nat, prev@),
                na.len() <= next@.len(),
                forall|a: int| 0 <= a < na.len() ==> #[trigger] next@[a] == na[a],
                forall|a: int| 0 <= a < na.len() ==> (#[trigger] na[a]).1 == 0 && linked(*map, m, excl, t, prev@, na[a]),
                forall|c: Pos| layer_has(na, c) <==> moved_in(*map, m, excl, t0, s, k as nat, c),
                forall|a: int|
                    na.len() <= a < next@.len() ==> (#[trigger] next@[a]).2 < q && linked(*map, m, excl, t, prev@, next@[a])
                        && next@[a].1 > 0 && !moved_in(*map, m, excl, t0, s, k as nat, next@[a].0),
                forall|a: int, b: int| 0 <= a < b < next@.len() ==> (#[trigger] next@[a]).0 != (#[trigger] next@[b]).0,
                forall|p: int| 0 <= p < q && (#[trigger] prev@[p]).1 < 10 && wait_ok(m, excl, prev@[p].0, t) ==> layer_has(next@, prev@[p].0),
                forall|x: Pos| #[trigger] seen@.contains(x) <==> layer_has(next@, x),
            decreases prev@.len() - q,
        {
            let (c, w, _) = prev[q];
            let ghost before = next@;
            if w < MAX_WAIT_TIME && self.can_wait(c, t, excl, d) {
                if !seen.contains(&c) {
                    next.push((c, w + 1, q));
                    seen.insert(c);
                    d.wait_actions_added = d.wait_actions_added.saturating_add(1);
                    proof {
                        assert(next@[before.len() as int].0 == c);
                        assert(!layer_has(na, c)) by {
                            if layer_has(na, c) {
                                let a = choose|a: int| 0 <= a < na.len() && (#[trigger] na[a]).0 == c;
                                assert(before[a] == na[a]);
                            }
                        }
                        assert forall|a: int, b: int| 0 <= a < b < next@.len() implies (#[trigger] next@[a]).0 != (#[trigger] next@[b]).0 by {
                            if b == before.len() {
                                assert(before[a] == next@[a]);
                            }
                        }
                        assert forall|x: Pos| #[trigger] seen@.contains(x) <==> layer_has(next@, x) by {
                            if layer_has(before, x) {
                                let a = choose|a: int| 0 <= a < before.len() && (#[trigger] before[a]).0 == x;
                                assert(next@[a] == before[a]);
                            }
                            if layer_has(next@, x) && x != c {
                                let a = choose|a: int| 0 <= a < next@.len() && (#[trigger] next@[a]).0 == x;
                                assert(before[a] == next@[a]);
                            }
                        }
                        assert forall|p: int| 0 <= p < q + 1 && (#[trigger] prev@[p]).1 < 10 && wait_ok(m, excl, prev@[p].0, t) implies layer_has(next@, prev@[p].0) by {
                            if p < q {
                                let a = choose|a: int| 0 <= a < before.len() && (#[trigger] before[a]).0 == prev@[p].0;
                                assert(next@[a] == before[a]);
                            }
                        }
                    }
                } else {
                    proof {
                        assert(layer_has(next@, c));
                    }
                }
            }
            q = q + 1;
        }
        proof {
            let k1 = (k + 1) as nat;
            assert forall|a: int| 0 <= a < next@.len() implies best(*map, m, excl, t0, s, k1, (#[trigger] next@[a]).0) == Some(next@[a].1 as nat) by {
                let c = next@[a].0;
                lemma_best_unfold(*map, m, excl, t0, s, k as nat, c);
                if a < na.len() {
                    assert(layer_has(na, c));
                } else {
                    let p = next@[a].2 as int;
                    assert(best(*map, m, excl, t0, s, k as nat, prev@[p].0) == Some(prev@[p].1 as nat));
                }
            }
            assert forall|c: Pos| #[trigger] best(*map, m, excl, t0, s, k1, c) is Some implies layer_has(next@, c) by {
                lemma_best_unfold(*map, m, excl, t0, s, k as nat, c);
                if moved_in(*map, m, excl, t0, s, k as nat, c) {
                    let a = choose|a: int| 0 <= a < na.len() && (#[trigger] na[a]).0 == c;
                    assert(next@[a] == na[a]);
                } else {
                    assert(best(*map, m, excl, t0, s, k as nat, c) is Some);
                    assert(layer_has(prev@, c));
                    let p = choose|p: int| 0 <= p < prev@.len() && (#[trigger] prev@[p]).0 == c;
                    assert(best(*map, m, excl, t0, s, k as nat, prev@[p].0) == Some(prev@[p].1 as nat));
                }
            }
            assert forall|a: int| 0 <= a < next@.len() implies #[trigger] linked(*map, m, excl, t, prev@, next@[a]) by {
                if a < na.len() {
                    assert(next@[a] == na[a]);
                }
            }
        }
        next
    }
}


/// Whether `r` answers a WHCA* query from `s` to `g` started at `t0`: a
/// shortest plan when both ends are walkable and a plan exists, else
/// `None`.
pub open spec fn whca_planned(
    map: GridMap,
    m: Map<Key, u32>,
    excl: Option<u32>,
    window: u64,
    t0: u64,
    s: Pos,
    g: Pos,
    r: Option<PathResult>,
) -> bool {
    match r {
        Some(p) => {
            &&& walkable(map, s.0, s.1)
            &&& walkable(map, g.0, g.1)
            &&& timed_plan(map, m, excl, window, t0, s, g, p.grid_path@)
            &&& forall|q: Seq<Pos>| #[trigger] timed_plan(map, m, excl, window, t0, s, g, q) ==> p.grid_path@.len() <= q.len()
            &&& p.cost == step_cost(p.grid_path@.len() - 1)
        },
        None => !(walkable(map, s.0, s.1) && walkable(map, g.0, g.1) && exists|q: Seq<Pos>| #[trigger] timed_plan(
            map,
            m,
            excl,
            window,
            t0,
            s,
            g,
            q,
        )),
    }
}

/// Whether `pid` picks one entry per layer `0..=kk`, each the predecessor
/// of the next.
pub open spec fn chain_ok(ls: Seq<Vec<Entry>>, kk: int, pid: Seq<usize>) -> bool {
    &&& pid.len() == kk + 1
    &&& kk < ls.len()
    &&& forall|j: int| 0 <= j <= kk ==> #[trigger] pid[j] < ls[j]@.len()
    &&& forall|j: int| 1 <= j <= kk ==> pid[j - 1] == ls[j]@[#[trigger] pid[j] as int].2
}

/// Waits counted along a path agree with a sequence that restarts at zero
/// after each move and grows by one at each wait.
proof fn lemma_trailing(p: Seq<Pos>, ws: Seq<nat>, i: int)
    requires
        p.len() == ws.len(),
        0 <= i < p.len(),
        ws[0] == 0,
        forall|j: int|
            1 <= j < p.len() ==> ((#[trigger] ws[j]) == 0 && p[j] != p[j - 1]) || (ws[j] == ws[j - 1] + 1 && p[j]
                == p[j - 1]),
    ensures
        trailing_waits(p, i) == ws[i],
    decreases i,
{
    if i > 0 {
        lemma_trailing(p, ws, i - 1);
    }
}

/// A chain of linked layer entries from the start to a goal entry spells a
/// plan.
proof fn lemma_chain_plan(
    map: GridMap,
    m: Map<Key, u32>,
    excl: Option<u32>,
    window: u64,
    t0: u64,
    s: Pos,
    g: Pos,
    ls: Seq<Vec<Entry>>,
    kk: int,
    pid: Seq<usize>,
    p: Seq<Pos>,
)
    requires
        chain_ok(ls, kk, pid),
        kk >= 1,
        500 * (kk - 1) < window,
        p.len() == kk + 1,
        forall|j: int| 0 <= j <= kk ==> #[trigger] p[j] == ls[j]@[pid[j] as int].0,
        layer_ok(map, m, excl, t0, s, 0, ls[0]@),
        forall|j: int, a: int|
            1 <= j <= kk && 0 <= a < ls[j]@.len() ==> #[trigger] linked(map, m, excl, step_time(t0, j - 1), ls[j - 1]@, ls[j]@[a]),
        p[kk] == g,
    ensures
        timed_plan(map, m, excl, window, t0, s, g, p),
{
    let ws = Seq::new((kk + 1) as nat, |j: int| ls[j]@[pid[j] as int].1 as nat);
    assert(best(map, m, excl, t0, s, 0, ls[0]@[pid[0] as int].0) == Some(ls[0]@[pid[0] as int].1 as nat));
    assert(p[0] == s);
    assert forall|j: int|
        1 <= j < p.len() implies ((#[trigger] ws[j]) == 0 && p[j] != p[j - 1]) || (ws[j] == ws[j - 1] + 1 && p[j] == p[j
            - 1]) by {
        let e = ls[j]@[pid[j] as int];
        assert(linked(map, m, excl, step_time(t0, j - 1), ls[j - 1]@, e));
        assert(pid[j - 1] == e.2);
        assert(p[j - 1] == ls[j - 1]@[pid[j - 1] as int].0);
    }
    assert forall|j: int| 0 <= j < p.len() - 1 implies #[trigger] timed_step(map, m, excl, t0, p, j) by {
        let e = ls[j + 1]@[pid[j + 1] as int];
        assert(linked(map, m, excl, step_time(t0, j), ls[j]@, e));
        assert(pid[j] == e.2);
        assert(p[j + 1] == e.0);
        lemma_trailing(p, ws, j);
    }
}

/// The entry indices along the predecessor links from entry `i` of layer
/// `kk` back to layer `0`, and the cells they hold, start first.
fn reconstruct_spacetime_path(layers: &Vec<Vec<Entry>>, kk: usize, i: usize) -> (r: (Vec<Pos>, Ghost<Seq<usize>>))
    requires
        kk < layers@.len(),
        i < layers@[kk as int]@.len(),
        forall|j: int, a: int|
            1 <= j <= kk && 0 <= a < layers@[j]@.len() ==> (#[trigger] layers@[j]@[a]).2 < layers@[j - 1]@.len(),
    ensures
        chain_ok(layers@, kk as int, r.1@),
        r.1@[kk as int] == i,
        r.0@.len() == kk + 1,
        forall|j: int| 0 <= j <= kk ==> #[trigger] r.0@[j] == layers@[j]@[r.1@[j] as int].0,
{
    let mut rev: Vec<usize> = Vec::new();
    rev.push(i);
    let mut a: usize = 0;
    while a < kk
        invariant
            a <= kk,
            kk < layers@.len(),
            rev@.len() == a + 1,
            rev@[0] == i,
            forall|b: int| 0 <= b <= a ==> #[trigger] rev@[b] < layers@[kk - b]@.len(),
            forall|b: int| 1 <= b <= a ==> #[trigger] rev@[b] == layers@[kk - b + 1]@[rev@[b - 1] as int].2,
            forall|j: int, x: int|
                1 <= j <= kk && 0 <= x < layers@[j]@.len() ==> (#[trigger] layers@[j]@[x]).2 < layers@[j - 1]@.len(),
        decreases kk - a,
    {
        let cur = rev[a];
        let layer = &layers[kk - a];
        let par = layer[cur].2;
        proof {
            assert(layers@[kk - a]@[cur as int].2 < layers@[kk - a - 1]@.len());
        }
        rev.push(par);
        a = a + 1;
    }
    let ghost pid = Seq::new((kk + 1) as nat, |j: int| rev@[kk - j]);
    let mut p: Vec<Pos> = Vec::new();
    let mut j: usize = 0;
    while j <= kk
        invariant
            j <= kk + 1,
            kk < layers@.len(),
            rev@.len() == kk + 1,
            pid == Seq::new((kk + 1) as nat, |j: int| rev@[kk - j]),
            forall|b: int| 0 <= b <= kk ==> #[trigger] rev@[b] < layers@[kk - b]@.len(),
            p@.len() == j,
            forall|x: int| 0 <= x < j ==> #[trigger] p@[x] == layers@[x]@[pid[x] as int].0,
        decreases kk + 1 - j,
    {
        let idx = rev[kk - j];
        proof {
            assert(rev@[kk - j] < layers@[kk - (kk - j)]@.len());
        }
        p.push(layers[j][idx].0);
        j = j + 1;
    }
    proof {
        assert forall|x: int| 0 <= x <= kk implies #[trigger] pid[x] < layers@[x]@.len() by {
            assert(rev@[kk - x] < layers@[kk - (kk - x)]@.len());
        }
        assert forall|x: int| 1 <= x <= kk implies pid[x - 1] == layers@[x]@[#[trigger] pid[x] as int].2 by {
            let b = kk - x + 1;
            assert(rev@[b] == layers@[kk - b + 1]@[rev@[b - 1] as int].2);
        }
    }
    (p, Ghost(pid))
}

impl WHCAPathfinder {
    /// The WHCA* search from `start` to `goal` started at time `t0`, layer by
    /// layer in time, avoiding the reservations of robots other than
    /// `excl`.
    #[verifier::rlimit(60)]
    pub fn plan_at(
        &self,
        map: &GridMap,
        start: Pos,
        goal: Pos,
        excl: Option<u32>,
        t0: u64,
        d: &mut SearchStatsDelta,
    ) -> (r: Option<PathResult>)
        requires
            self.wf(),
            t0 + self.window() + 2000 <= u64::MAX,
        ensures
            whca_planned(*map, self.reservations(), excl, self.window(), t0, start, goal, r),
    {
        let ghost m = self.reservations();
        let window = self.window_size_ms;
        if !map.is_walkable(start.0, start.1) || !map.is_walkable(goal.0, goal.1) {
            return None;
        }
        if start.0 == goal.0 && start.1 == goal.1 {
            let mut v: Vec<Pos> = Vec::new();
            v.push(start);
            proof {
                assert(timed_plan(*map, m, excl, window, t0, start, goal, v@));
            }
            return Some(PathResult { grid_path: v, cost: 0 });
        }
        let mut layers: Vec<Vec<Entry>> = Vec::new();
        let mut first: Vec<Entry> = Vec::new();
        first.push((start, 0, 0));
        proof {
            assert forall|c: Pos| #[trigger] best(*map, m, excl, t0, start, 0, c) is Some implies layer_has(first@, c) by {
                assert(first@[0].0 == c);
            }
        }
        layers.push(first);
        if d.open_set_peak < 1 {
            d.open_set_peak = 1;
        }
        let mut k: usize = 0;
        loop
            invariant
                self.wf(),
                m == self.reservations(),
                window == self.window(),
                t0 + window + 2000 <= u64::MAX,
                walkable(*map, start.0, start.1),
                walkable(*map, goal.0, goal.1),
                start != goal,
                layers@.len() == k + 1,
                k == 0 || 500 * (k - 1) < window,
                forall|j: int| 0 <= j <= k ==> layer_ok(*map, m, excl, t0, start, j as nat, #[trigger] layers@[j]@),
                forall|j: int, a: int|
                    1 <= j <= k && 0 <= a < layers@[j]@.len() ==> #[trigger] linked(
                        *map,
                        m,
                        excl,
                        step_time(t0, j - 1),
                        layers@[j - 1]@,
                        layers@[j]@[a],
                    ),
                forall|j: int| 0 <= j < k ==> !layer_has(#[trigger] layers@[j]@, goal),
            decreases window + 500 - 500 * k,
        {
            let found = layer_find(&layers[k], goal);
            if let Some(i) = found {
                proof {
                    assert forall|j: int, a: int|
                        1 <= j <= k && 0 <= a < layers@[j]@.len() implies (#[trigger] layers@[j]@[a]).2 < layers@[j - 1]@.len() by {
                        assert(linked(*map, m, excl, step_time(t0, j - 1), layers@[j - 1]@, layers@[j]@[a]));
                    }
                }
                let (path, Ghost(pid)) = reconstruct_spacetime_path(&layers, k, i);
                proof {
                    assert(layer_ok(*map, m, excl, t0, start, 0, layers@[0]@));
                    if k == 0 {
                        assert(best(*map, m, excl, t0, start, 0, layers@[0]@[i as int].0) is Some);
                    }
                    lemma_chain_plan(*map, m, excl, window, t0, start, goal, layers@, k as int, pid, path@);
                    assert forall|q: Seq<Pos>| #[trigger] timed_plan(*map, m, excl, window, t0, start, goal, q) implies path@.len() <= q.len() by {
                        let l = q.len() - 1;
                        if l < k {
                            lemma_best_sound(*map, m, excl, t0, start, q, l);
                            assert(layer_ok(*map, m, excl, t0, start, l as nat, layers@[l]@));
                            assert(layer_has(layers@[l]@, goal));
                        }
                    }
                }
                let cost = crate::astar::path_cost(path.len());
                return Some(PathResult { grid_path: path, cost });
            }
            if (k as u64) * MOVE_TIME_MS >= window {
                proof {
                    if exists|q: Seq<Pos>| #[trigger] timed_plan(*map, m, excl, window, t0, start, goal, q) {
                        let q = choose|q: Seq<Pos>| #[trigger] timed_plan(*map, m, excl, window, t0, start, goal, q);
                        let l = q.len() - 1;
                        assert(q[0] != q.last());
                        assert(l <= k);
                        lemma_best_sound(*map, m, excl, t0, start, q, l);
                        assert(layer_ok(*map, m, excl, t0, start, l as nat, layers@[l]@));
                    }
                }
                return None;
            }
            let t = t0 + MOVE_TIME_MS * (k as u64);
            let next = self.next_layer(map, &layers[k], t0, start, k, t, excl, d);
            d.nodes_expanded = d.nodes_expanded.saturating_add(layers[k].len() as u64);
            if (next.len() as u64) > d.open_set_peak {
                d.open_set_peak = next.len() as u64;
            }
            if next.len() == 0 {
                proof {
                    if exists|q: Seq<Pos>| #[trigger] timed_plan(*map, m, excl, window, t0, start, goal, q) {
                        let q = choose|q: Seq<Pos>| #[trigger] timed_plan(*map, m, excl, window, t0, start, goal, q);
                        let l = q.len() - 1;
                        lemma_best_sound(*map, m, excl, t0, start, q, l);
                        if l <= k {
                            assert(layer_ok(*map, m, excl, t0, start, l as nat, layers@[l]@));
                        } else {
                            assert forall|n: Pos| #[trigger] best(*map, m, excl, t0, start, (k + 1) as nat, n) is None by {
                                if best(*map, m, excl, t0, start, (k + 1) as nat, n) is Some {
                                    assert(layer_has(next@, n));
                                }
                            }
                            lemma_best_dead_after(*map, m, excl, t0, start, (k + 1) as nat, l as nat, goal);
                        }
                    }
                }
                return None;
            }
            let ghost old_layers = layers@;
            layers.push(next);
            proof {
                assert forall|j: int| 0 <= j <= k + 1 implies layer_ok(*map, m, excl, t0, start, j as nat, #[trigger] layers@[j]@) by {
                    if j <= k {
                        assert(layers@[j] == old_layers[j]);
                    }
                }
                assert forall|j: int, a: int|
                    1 <= j <= k + 1 && 0 <= a < layers@[j]@.len() implies #[trigger] linked(
                        *map,
                        m,
                        excl,
                        step_time(t0, j - 1),
                        layers@[j - 1]@,
                        layers@[j]@[a],
                    ) by {
                    assert(layers@[j - 1] == old_layers[j - 1]);
                    if j <= k {
                        assert(layers@[j] == old_layers[j]);
                    }
                }
                assert forall|j: int| 0 <= j < k + 1 implies !layer_has(#[trigger] layers@[j]@, goal) by {
                    assert(layers@[j] == old_layers[j]);
                }
            }
            k = layers.len() - 1;
        }
    }
}


/// The coordinate a reservation of cell coordinate `v` lands on: the
/// planner's buffer arithmetic passes it through a 32-bit signed integer
/// and clamps negatives to zero, so coordinates below `2^31` are kept.
pub open spec fn buffer_coord(v: usize) -> usize {
    let w = v as int % 0x1_0000_0000;
    if w >= 0x8000_0000 {
        0
    } else {
        w as usize
    }
}

/// Whether key `k` is cell `c` (after buffer arithmetic) at a time in
/// `[lo, hi]`.
pub open spec fn in_span(k: Key, c: Pos, lo: int, hi: int) -> bool {
    k.0 == buffer_coord(c.0) && k.1 == buffer_coord(c.1) && lo <= k.2 <= hi
}

/// The reservations after robot `r` reserves cell `c` for every millisecond
/// of `[lo, hi]`.
pub open spec fn span_map(m: Map<Key, u32>, r: u32, c: Pos, lo: int, hi: int) -> Map<Key, u32> {
    Map::new(|k: Key| m.contains_key(k) || in_span(k, c, lo, hi), |k: Key| if in_span(k, c, lo, hi) { r } else { m[k] })
}

/// The index after robot `r` reserves cell `c` for every millisecond of
/// `[lo, hi]`.
pub open spec fn span_index(x: Set<(u32, Key)>, r: u32, c: Pos, lo: int, hi: int) -> Set<(u32, Key)> {
    Set::new(|p: (u32, Key)| x.contains(p) || (p.0 == r && in_span(p.1, c, lo, hi)))
}

/// A reserved span blocks every other robot: after robot `r` reserves cell
/// `c` for every millisecond of `[lo, hi]`, a probe of `c` at any time of
/// that span on behalf of another robot finds it reserved, and no other
/// cell's reservations change. (Cells with a coordinate of `2^31` or more
/// are reserved under a wrapped coordinate, and are left out.)
pub proof fn law_reserved_span_blocks_others(
    m: Map<Key, u32>,
    r: u32,
    c: Pos,
    lo: u64,
    hi: u64,
    t: u64,
    other: u32,
)
    requires
        c.0 < 0x8000_0000,
        c.1 < 0x8000_0000,
        lo <= t <= hi,
        other != r,
        t + 200 <= u64::MAX,
    ensures
        reserved_at(span_map(m, r, c, lo as int, hi as int), c, t, Some(other)),
        forall|k: Key|
            k.0 != c.0 || k.1 != c.1 ==> (#[trigger] span_map(m, r, c, lo as int, hi as int).contains_key(k)
                == m.contains_key(k) && (m.contains_key(k) ==> span_map(m, r, c, lo as int, hi as int)[k] == m[k])),
{
    let m2 = span_map(m, r, c, lo as int, hi as int);
    assert(buffer_coord(c.0) == c.0);
    assert(buffer_coord(c.1) == c.1);
    let k: Key = (c.0, c.1, t);
    assert(in_span(k, c, lo as int, hi as int));
    assert(holds(m2, k, c.0, c.1, t - 200, t + 200, Some(other)));
}

/// A stationary robot guards its cell and never blocks itself: after robot
/// `r` reserves cell `c` as stationary from `t0` on a planner with no other
/// reservation, a probe of `c` at any time `t` up to the stationary
/// duration later finds it reserved for every other robot and for a probe
/// that excludes no robot, and free for `r` itself. (Cells with a
/// coordinate of `2^31` or more are reserved under a wrapped coordinate,
/// and are left out.)
pub proof fn law_stationary_reservation_guards_cell(r: u32, other: u32, c: Pos, window: u64, t0: u64, t: u64)
    requires
        c.0 < 0x8000_0000,
        c.1 < 0x8000_0000,
        other != r,
        t0 <= t <= t0 + stationary_ms(window),
        t + 200 <= u64::MAX,
    ensures
        reserved_at(span_map(Map::empty(), r, c, t0 as int, t0 + stationary_ms(window)), c, t, Some(other)),
        reserved_at(span_map(Map::empty(), r, c, t0 as int, t0 + stationary_ms(window)), c, t, None),
        !reserved_at(span_map(Map::empty(), r, c, t0 as int, t0 + stationary_ms(window)), c, t, Some(r)),
{
    let m2 = span_map(Map::<Key, u32>::empty(), r, c, t0 as int, t0 + stationary_ms(window));
    assert(buffer_coord(c.0) == c.0);
    assert(buffer_coord(c.1) == c.1);
    let k: Key = (c.0, c.1, t);
    assert(in_span(k, c, t0 as int, t0 + stationary_ms(window)));
    assert(holds(m2, k, c.0, c.1, t - 200, t + 200, Some(other)));
    assert(holds(m2, k, c.0, c.1, t - 200, t + 200, None));
    assert forall|k2: Key, lo: int, hi: int| !#[trigger] holds(m2, k2, c.0, c.1, lo, hi, Some(r)) by {
        if m2.contains_key(k2) {
            assert(m2[k2] == r);
        }
    }
}

/// A cell reserved for a stationary robot reads as reserved now for every
/// other robot until the stationary duration has passed: when
/// `reserve_stationary` took planner `w0` to `w1` at clock reading `t1`,
/// a later `is_reserved_now` of that cell on `w1` on behalf of another
/// robot, at a reading `now2` no later than the stationary duration after
/// `t1`, answers `true`. Both readings come from the planner's clock, so
/// `now2` is never earlier than `t1`. (Cells with a coordinate of `2^31` or
/// more are reserved under a wrapped coordinate, and readings within the
/// tolerance of the clock's end of range are pulled back; both are left
/// out.)
pub proof fn law_reserved_now_after_stationary(
    w0: WHCAPathfinder,
    w1: WHCAPathfinder,
    r: u32,
    other: u32,
    c: Pos,
    t1: u64,
    now2: u64,
    b: bool,
)
    requires
        c.0 < 0x8000_0000,
        c.1 < 0x8000_0000,
        other != r,
        t1 <= w1.clock(),
        t1 < u64::MAX - crate::config::STATIONARY_RESERVATION_MS,
        w1.reservations() == span_map(w0.reservations(), r, c, t1 as int, t1 + stationary_ms(w0.window())),
        now2 >= w1.clock(),
        b == reserved_at(w1.reservations(), c, probe_time(now2), Some(other)),
        now2 <= t1 + stationary_ms(w0.window()),
        now2 + RESERVATION_TOLERANCE_MS <= u64::MAX,
    ensures
        b,
{
    assert(probe_time(now2) == now2);
    law_reserved_span_blocks_others(
        w0.reservations(),
        r,
        c,
        t1,
        (t1 + stationary_ms(w0.window())) as u64,
        now2,
        other,
    );
}

/// The cell coordinate a reservation lands on.
fn buffer_coord_of(v: usize) -> (w: usize)
    ensures
        w == buffer_coord(v),
{
    let low = (v as u64) % 4294967296u64;
    if low >= 2147483648u64 {
        0
    } else {
        low as usize
    }
}

impl WHCAPathfinder {
    /// Reserve cell `c` for robot `r` at every millisecond of `[lo, hi]`.
    fn reserve_span(&mut self, r: u32, c: Pos, lo: u64, hi: u64)
        requires
            old(self).wf(),
            lo <= hi,
            hi < u64::MAX,
        ensures
            final(self).wf(),
            final(self).reservations() == span_map(old(self).reservations(), r, c, lo as int, hi as int),
            final(self).index() == span_index(old(self).index(), r, c, lo as int, hi as int),
            final(self).window() == old(self).window(),
            final(self).stats() == old(self).stats(),
            final(self).clock() == old(self).clock(),
    {
        let x = buffer_coord_of(c.0);
        let y = buffer_coord_of(c.1);
        let mut t = lo;
        proof {
            assert(self.reservations() =~= span_map(old(self).reservations(), r, c, lo as int, lo - 1));
            assert(self.index() =~= span_index(old(self).index(), r, c, lo as int, lo - 1));
        }
        while t <= hi
            invariant
                self.wf(),
                lo <= t <= hi + 1,
                hi < u64::MAX,
                x == buffer_coord(c.0),
                y == buffer_coord(c.1),
                self.reservations() == span_map(old(self).reservations(), r, c, lo as int, t - 1),
                self.index() == span_index(old(self).index(), r, c, lo as int, t - 1),
                self.window() == old(self).window(),
                self.stats() == old(self).stats(),
                self.clock() == old(self).clock(),
            decreases hi + 1 - t,
        {
            let ghost before = self.reservations();
            let ghost before_index = self.index();
            self.table.insert((x, y, t), r);
            proof {
                assert(self.reservations() =~= span_map(old(self).reservations(), r, c, lo as int, t as int));
                assert(self.index() =~= span_index(old(self).index(), r, c, lo as int, t as int));
            }
            t = t + 1;
        }
    }

    /// Drop the reservations older than the tolerance before `now_ms`, as
    /// a tick at time `now_ms` does, and rebuild the index.
    pub fn tick_at(&mut self, now_ms: u64)
        requires
            old(self).wf(),
        ensures
            final(self).wf(),
            final(self).reservations() == ticked(old(self).reservations(), now_ms),
            final(self).index() == ReservationTable::index_of_map(final(self).reservations()),
            final(self).window() == old(self).window(),
            final(self).clock() == old(self).clock(),
            final(self).stats() == (WHCAStatsSnapshot {
                reservation_entries_peak: if final(self).reservations().len() > old(self).stats().reservation_entries_peak {
                    final(self).reservations().len() as u64
                } else {
                    old(self).stats().reservation_entries_peak
                },
                ..old(self).stats()
            }),
    {
        let cutoff = now_ms.saturating_sub(RESERVATION_TOLERANCE_MS + MOVE_TIME_MS);
        self.table.retain_from(cutoff);
        proof {
            assert(self.reservations() =~= ticked(old(self).reservations(), now_ms));
        }
        self.update_reservation_peak_metric();
    }

    /// Drop stale reservations: those more than the tolerance and a move
    /// older than now.
    pub fn tick(&mut self)
        requires
            old(self).wf(),
        ensures
            final(self).wf(),
            exists|now: u64|
                now >= old(self).clock() && final(self).clock() == now && final(self).reservations()
                    == #[trigger] ticked(old(self).reservations(), now),
            final(self).index() == ReservationTable::index_of_map(final(self).reservations()),
            final(self).window() == old(self).window(),
    {
        let now = self.read_clock();
        proof {
            assert(self.reservations() == old(self).reservations());
            assert(self.wf());
        }
        self.tick_at(now);
        assert(self.reservations() == ticked(old(self).reservations(), now));
    }

    /// Reserve the cell `pos` of a stationary robot from `now_ms` for the
    /// stationary duration, capped by the window.
    pub fn reserve_stationary_at(&mut self, robot_id: u32, pos: Pos, now_ms: u64)
        requires
            old(self).wf(),
            now_ms < u64::MAX - crate::config::STATIONARY_RESERVATION_MS,
        ensures
            final(self).wf(),
            final(self).reservations() == span_map(
                old(self).reservations(),
                robot_id,
                pos,
                now_ms as int,
                now_ms + stationary_ms(old(self).window()),
            ),
            final(self).index() == span_index(
                old(self).index(),
                robot_id,
                pos,
                now_ms as int,
                now_ms + stationary_ms(old(self).window()),
            ),
            final(self).window() == old(self).window(),
            final(self).clock() == old(self).clock(),
    {
        let duration = if crate::config::STATIONARY_RESERVATION_MS < self.window_size_ms {
            crate::config::STATIONARY_RESERVATION_MS
        } else {
            self.window_size_ms
        };
        self.reserve_span(robot_id, pos, now_ms, now_ms + duration);
        self.update_reservation_peak_metric();
    }

    /// Reserve a stationary robot's cell throughout the stationary duration
    /// from now.
    pub fn reserve_stationary(&mut self, robot_id: u32, pos: Pos)
        requires
            old(self).wf(),
        ensures
            final(self).wf(),
            final(self).window() == old(self).window(),
            old(self).clock() <= final(self).clock(),
            exists|now: u64|
                now <= final(self).clock() && now < u64::MAX - crate::config::STATIONARY_RESERVATION_MS
                    && final(self).reservations() == #[trigger] span_map(
                    old(self).reservations(),
                    robot_id,
                    pos,
                    now as int,
                    now + stationary_ms(old(self).window()),
                ) && final(self).index() == span_index(
                    old(self).index(),
                    robot_id,
                    pos,
                    now as int,
                    now + stationary_ms(old(self).window()),
                ),
    {
        let now = self.read_clock();
        proof {
            assert(self.reservations() == old(self).reservations());
            assert(self.index() == old(self).index());
            assert(self.window() == old(self).window());
            assert(self.wf());
        }
        let t = if now < u64::MAX - crate::config::STATIONARY_RESERVATION_MS {
            now
        } else {
            u64::MAX - crate::config::STATIONARY_RESERVATION_MS - 1
        };
        self.reserve_stationary_at(robot_id, pos, t);
        assert(self.reservations() == span_map(
            old(self).reservations(),
            robot_id,
            pos,
            t as int,
            t + stationary_ms(old(self).window()),
        ));
    }

    /// Clear every reservation of robot `robot_id`, as the table's
    /// `clear_robot` describes.
    pub fn clear_robot_reservations(&mut self, robot_id: u32)
        requires
            old(self).wf(),
        ensures
            final(self).wf(),
            final(self).window() == old(self).window(),
            final(self).stats() == old(self).stats(),
            final(self).clock() == old(self).clock(),
            final(self).reservations() == without_owner(old(self).reservations(), robot_id),
            (exists|k: Key| #[trigger] old(self).index().contains((robot_id, k))) ==> final(self).index()
                == old(self).index().filter(|p: (u32, Key)| p.0 != robot_id),
            !(exists|k: Key| #[trigger] old(self).index().contains((robot_id, k))) ==> final(self).index()
                == ReservationTable::index_of_map(final(self).reservations()),
    {
        proof {
            if self.table.indexed(robot_id) {
                let k = choose|k: Key| #[trigger] self.table.index().contains((robot_id, k));
                assert(self.index().contains((robot_id, k)));
            }
            if exists|k: Key| #[trigger] self.index().contains((robot_id, k)) {
                let k = choose|k: Key| #[trigger] self.index().contains((robot_id, k));
                assert(self.table.index().contains((robot_id, k)));
                assert(self.table.indexed(robot_id));
            }
        }
        self.table.clear_robot(robot_id);
    }

    /// Whether a robot other than `exclude_robot` reserves `pos` within the
    /// tolerance of `time_ms`.
    pub fn is_reserved_at(&self, pos: Pos, time_ms: u64, exclude_robot: Option<u32>) -> (b: bool)
        requires
            self.wf(),
            time_ms + RESERVATION_TOLERANCE_MS <= u64::MAX,
        ensures
            b == reserved_at(self.reservations(), pos, time_ms, exclude_robot),
    {
        self.is_reserved(pos, time_ms, exclude_robot)
    }

    /// Whether a robot other than `exclude_robot` reserves `pos` now.
    pub fn is_reserved_now(&self, pos: Pos, exclude_robot: Option<u32>) -> (b: bool)
        requires
            self.wf(),
        ensures
            exists|now: u64|
                now >= self.clock() && b == #[trigger] reserved_at(self.reservations(), pos, probe_time(now), exclude_robot),
    {
        let now = self.current_time_ms();
        let t = if now <= u64::MAX - RESERVATION_TOLERANCE_MS { now } else { u64::MAX - RESERVATION_TOLERANCE_MS };
        assert(t == probe_time(now));
        let b = self.is_reserved(pos, t, exclude_robot);
        assert(b == reserved_at(self.reservations(), pos, probe_time(now), exclude_robot));
        b
    }

    /// Whether a robot other than `exclude_robot` reserves `pos` at
    /// `offset_ms` from now.
    pub fn is_reserved_soon(&self, pos: Pos, offset_ms: u64, exclude_robot: Option<u32>) -> (b: bool)
        requires
            self.wf(),
        ensures
            exists|now: u64|
                now >= self.clock() && b == #[trigger] reserved_at(
                    self.reservations(),
                    pos,
                    soon_time(now, offset_ms),
                    exclude_robot,
                ),
    {
        let now = self.current_time_ms();
        let t = now.saturating_add(offset_ms);
        let t = if t <= u64::MAX - RESERVATION_TOLERANCE_MS { t } else { u64::MAX - RESERVATION_TOLERANCE_MS };
        assert(t == soon_time(now, offset_ms));
        self.is_reserved(pos, t, exclude_robot)
    }
}

/// The time a probe "now" at clock reading `now` asks about, kept within
/// range of the tolerance.
pub open spec fn probe_time(now: u64) -> u64 {
    if now <= u64::MAX - RESERVATION_TOLERANCE_MS {
        now
    } else {
        (u64::MAX - RESERVATION_TOLERANCE_MS) as u64
    }
}

/// The reservations a tick at `now` keeps: those not older than its cutoff.
pub open spec fn ticked(m: Map<Key, u32>, now: u64) -> Map<Key, u32> {
    Map::new(|k: Key| m.contains_key(k) && k.2 >= tick_cutoff(now), |k: Key| m[k])
}

/// The time before which a tick at `now` drops reservations.
pub open spec fn tick_cutoff(now: u64) -> u64 {
    if now >= 700 {
        (now - 700) as u64
    } else {
        0
    }
}

/// How long a stationary robot's cell is reserved, given the window.
pub open spec fn stationary_ms(window: u64) -> u64 {
    if 2500 < window {
        2500
    } else {
        window
    }
}

/// The probed time `offset` after `now`, kept within range of the
/// tolerance.
pub open spec fn soon_time(now: u64, offset: u64) -> u64 {
    let t = if now + offset <= u64::MAX { (now + offset) as u64 } else { u64::MAX };
    if t <= u64::MAX - 200 {
        t
    } else {
        (u64::MAX - 200) as u64
    }
}


/// The sum of the travel times.
pub open spec fn total_ms(t: Seq<u64>) -> int
    decreases t.len(),
{
    if t.len() == 0 {
        0
    } else {
        total_ms(t.drop_last()) + t.last()
    }
}

/// The sum of travel times is not negative.
pub proof fn lemma_total_nonneg(t: Seq<u64>)
    ensures
        total_ms(t) >= 0,
    decreases t.len(),
{
    if t.len() > 0 {
        lemma_total_nonneg(t.drop_last());
    }
}

/// The sum of the first `i` travel times grows by the next one and stays
/// within the total.
pub proof fn lemma_total_prefix(t: Seq<u64>, i: int)
    requires
        0 <= i < t.len(),
    ensures
        total_ms(t.take(i + 1)) == total_ms(t.take(i)) + t[i],
        total_ms(t.take(i + 1)) <= total_ms(t),
    decreases t.len() - i,
{
    assert(t.take(i + 1).drop_last() =~= t.take(i));
    if i + 1 < t.len() {
        lemma_total_prefix(t, i + 1);
    } else {
        assert(t.take(i + 1) =~= t);
    }
}

/// The reservations after robot `r` reserves steps `i..` of `path`, step
/// `i` departing at `time`: each step's start cell at its departure and its
/// end cell at its arrival, for the tolerance.
pub open spec fn path_spans(m: Map<Key, u32>, r: u32, path: Seq<Pos>, travel: Seq<u64>, i: nat, time: int) -> Map<Key, u32>
    decreases path.len() - i,
{
    if i + 1 >= path.len() {
        m
    } else {
        let m1 = span_map(m, r, path[i as int], time, time + 200);
        let t2 = time + travel[i as int];
        path_spans(span_map(m1, r, path[i + 1 as int], t2, t2 + 200), r, path, travel, i + 1, t2)
    }
}

/// The index after robot `r` reserves steps `i..` of `path`.
pub open spec fn path_spans_index(
    x: Set<(u32, Key)>,
    r: u32,
    path: Seq<Pos>,
    travel: Seq<u64>,
    i: nat,
    time: int,
) -> Set<(u32, Key)>
    decreases path.len() - i,
{
    if i + 1 >= path.len() {
        x
    } else {
        let x1 = span_index(x, r, path[i as int], time, time + 200);
        let t2 = time + travel[i as int];
        path_spans_index(span_index(x1, r, path[i + 1 as int], t2, t2 + 200), r, path, travel, i + 1, t2)
    }
}

/// How long a robot dwells at the end of its path, capped by the window.
pub open spec fn dwell_ms(window: u64) -> u64 {
    if 2000 < window {
        2000
    } else {
        window
    }
}

/// The reservations after robot `r` reserves `path` from `now` with the
/// given travel times, and then its last cell for the dwell time.
pub open spec fn path_reserved(m: Map<Key, u32>, r: u32, path: Seq<Pos>, travel: Seq<u64>, now: u64, window: u64) -> Map<Key, u32> {
    if path.len() == 0 {
        m
    } else {
        let end = now + total_ms(travel);
        span_map(path_spans(m, r, path, travel, 0, now as int), r, path.last(), end, end + dwell_ms(window))
    }
}

/// The index after robot `r` reserves `path` from `now`.
pub open spec fn path_reserved_index(x: Set<(u32, Key)>, r: u32, path: Seq<Pos>, travel: Seq<u64>, now: u64, window: u64) -> Set<
    (u32, Key),
> {
    if path.len() == 0 {
        x
    } else {
        let end = now + total_ms(travel);
        span_index(path_spans_index(x, r, path, travel, 0, now as int), r, path.last(), end, end + dwell_ms(window))
    }
}

impl WHCAPathfinder {
    /// Reserve `path` for robot `robot_id` from `now_ms`, step `i` taking
    /// `travel_ms[i]` milliseconds: each cell at its departure and arrival
    /// for the tolerance, and the last cell for the dwell time.
    pub fn reserve_path_timed_at(&mut self, robot_id: u32, path: &[Pos], travel_ms: &[u64], now_ms: u64)
        requires
            old(self).wf(),
            path@.len() == 0 || travel_ms@.len() + 1 == path@.len(),
            now_ms + total_ms(travel_ms@) + 2300 <= u64::MAX,
        ensures
            final(self).wf(),
            final(self).window() == old(self).window(),
            final(self).reservations() == path_reserved(old(self).reservations(), robot_id, path@, travel_ms@, now_ms, old(self).window()),
            final(self).index() == path_reserved_index(old(self).index(), robot_id, path@, travel_ms@, now_ms, old(self).window()),
            final(self).clock() == old(self).clock(),
    {
        if path.len() == 0 {
            return;
        }
        let mut time = now_ms;
        let mut i: usize = 0;
        proof {
            assert(travel_ms@.take(0) =~= Seq::<u64>::empty());
            lemma_total_nonneg(travel_ms@);
        }
        while i < path.len() - 1
            invariant
                self.wf(),
                self.window() == old(self).window(),
                self.clock() == old(self).clock(),
                travel_ms@.len() + 1 == path@.len(),
                now_ms + total_ms(travel_ms@) + 2300 <= u64::MAX,
                i + 1 <= path@.len(),
                time == now_ms + total_ms(travel_ms@.take(i as int)),
                total_ms(travel_ms@.take(i as int)) <= total_ms(travel_ms@),
                path_spans(self.reservations(), robot_id, path@, travel_ms@, i as nat, time as int) == path_spans(
                    old(self).reservations(),
                    robot_id,
                    path@,
                    travel_ms@,
                    0,
                    now_ms as int,
                ),
                path_spans_index(self.index(), robot_id, path@, travel_ms@, i as nat, time as int) == path_spans_index(
                    old(self).index(),
                    robot_id,
                    path@,
                    travel_ms@,
                    0,
                    now_ms as int,
                ),
            decreases path@.len() - i,
        {
            proof {
                lemma_total_prefix(travel_ms@, i as int);
            }
            let ghost m0 = self.reservations();
            let ghost x0 = self.index();
            self.reserve_span(robot_id, path[i], time, time + RESERVATION_TOLERANCE_MS);
            time = time + travel_ms[i];
            self.reserve_span(robot_id, path[i + 1], time, time + RESERVATION_TOLERANCE_MS);
            proof {
                assert(path_spans(m0, robot_id, path@, travel_ms@, i as nat, (time - travel_ms@[i as int]) as int) == path_spans(
                    self.reservations(),
                    robot_id,
                    path@,
                    travel_ms@,
                    (i + 1) as nat,
                    time as int,
                ));
                assert(path_spans_index(x0, robot_id, path@, travel_ms@, i as nat, (time - travel_ms@[i as int]) as int)
                    == path_spans_index(self.index(), robot_id, path@, travel_ms@, (i + 1) as nat, time as int));
            }
            i = i + 1;
        }
        proof {
            assert(travel_ms@.take(i as int) =~= travel_ms@);
        }
        let dwell = if crate::config::PICKUP_DELAY_MS >= crate::config::DROPOFF_DELAY_MS {
            crate::config::PICKUP_DELAY_MS
        } else {
            crate::config::DROPOFF_DELAY_MS
        };
        let dwell = if dwell < self.window_size_ms { dwell } else { self.window_size_ms };
        self.reserve_span(robot_id, path[path.len() - 1], time, time + dwell);
        self.update_reservation_peak_metric();
    }
}


/// Whether a search started at `t0` fits the clock range.
pub open spec fn clock_ok(t0: u64, window: u64) -> bool {
    t0 + window + 2000 <= u64::MAX
}

/// Whether `r` answers a WHCA* query from `s` to `g` for some start time:
/// a search at a start time within range, or `None` beyond it.
pub open spec fn searched(map: GridMap, m: Map<Key, u32>, excl: Option<u32>, window: u64, s: Pos, g: Pos, r: Option<PathResult>) -> bool {
    exists|t0: u64|
        #![trigger clock_ok(t0, window)]
        (clock_ok(t0, window) && whca_planned(map, m, excl, window, t0, s, g, r)) || (!clock_ok(t0, window) && r is None)
}

/// The counters after recording several searches in turn.
pub open spec fn recorded_all(s: WHCAStatsSnapshot, outs: Seq<(bool, SearchStatsDelta, u64)>) -> WHCAStatsSnapshot
    decreases outs.len(),
{
    if outs.len() == 0 {
        s
    } else {
        let o = outs.last();
        recorded(recorded_all(s, outs.drop_last()), o.0, o.1, o.2)
    }
}

/// Whether `r` is the first of the results `rs` with the least cost below
/// `u32::MAX`, or `None` when no result has such a cost.
pub open spec fn cheapest(rs: Seq<Option<PathResult>>, r: Option<PathResult>) -> bool {
    match r {
        Some(p) => exists|i: int|
            0 <= i < rs.len() && #[trigger] rs[i] == Some(p) && p.cost < u32::MAX && (forall|j: int|
                0 <= j < rs.len() && rs[j] is Some ==> (#[trigger] rs[j]->Some_0.cost) >= p.cost) && (forall|j: int|
                0 <= j < i && rs[j] is Some ==> (#[trigger] rs[j]->Some_0.cost) > p.cost),
        None => forall|j: int| 0 <= j < rs.len() && (#[trigger] rs[j]) is Some ==> rs[j]->Some_0.cost == u32::MAX,
    }
}

/// Whether `r` answers a WHCA* query for a path ending next to `goal` when
/// `goal` is not walkable: walkable goals are searched directly; a start
/// on or next to the goal needs no move; otherwise each walkable neighbour
/// of the goal is searched in turn (results `rs`) and the cheapest is
/// taken.
pub open spec fn whca_approached(
    map: GridMap,
    m: Map<Key, u32>,
    excl: Option<u32>,
    window: u64,
    start: Pos,
    goal: Pos,
    rs: Seq<Option<PathResult>>,
    r: Option<PathResult>,
) -> bool {
    if !walkable(map, start.0, start.1) {
        r is None && rs.len() == 0
    } else if walkable(map, goal.0, goal.1) {
        rs.len() == 1 && rs[0] == r && searched(map, m, excl, window, start, goal, r)
    } else if start == goal || adj(start, goal) {
        rs.len() == 0 && (r matches Some(p) && p.grid_path@ == seq![start] && p.cost == 0)
    } else {
        let cands = approach_cells(map, goal);
        &&& rs.len() == cands.len()
        &&& forall|j: int| 0 <= j < rs.len() ==> searched(map, m, excl, window, start, cands[j], #[trigger] rs[j])
        &&& cheapest(rs, r)
    }
}

fn zero_delta() -> (d: SearchStatsDelta)
    ensures
        d.nodes_expanded == 0,
        d.reservation_probe_calls == 0,
        d.edge_collision_checks == 0,
        d.wait_actions_added == 0,
        d.open_set_peak == 0,
{
    SearchStatsDelta {
        nodes_expanded: 0,
        reservation_probe_calls: 0,
        edge_collision_checks: 0,
        wait_actions_added: 0,
        open_set_peak: 0,
    }
}

impl WHCAPathfinder {
    /// One WHCA* search from now, avoiding the reservations of robots other
    /// than `excl`, counted in the search counters.
    fn find_path_whca(&mut self, map: &GridMap, start: Pos, goal: Pos, excl: Option<u32>) -> (r: Option<PathResult>)
        requires
            old(self).wf(),
        ensures
            final(self).wf(),
            final(self).reservations() == old(self).reservations(),
            final(self).index() == old(self).index(),
            final(self).window() == old(self).window(),
            searched(*map, old(self).reservations(), excl, old(self).window(), start, goal, r),
            exists|d: SearchStatsDelta, us: u64| #[trigger] recorded(old(self).stats(), r is Some, d, us) == final(self).stats(),
    {
        let started = instant_now();
        let mut d = zero_delta();
        let t0 = self.current_time_ms();
        let r = if t0 <= u64::MAX - 2000 && self.window_size_ms <= u64::MAX - 2000 - t0 {
            self.plan_at(map, start, goal, excl, t0, &mut d)
        } else {
            None
        };
        let us = elapsed_us(&started);
        self.record_search_result(r.is_some(), d, us);
        proof {
            assert(recorded(old(self).stats(), r is Some, d, us) == self.stats());
            assert(clock_ok(t0, self.window()) ==> whca_planned(*map, self.reservations(), excl, self.window(), t0, start, goal, r));
            assert((clock_ok(t0, old(self).window()) && whca_planned(*map, old(self).reservations(), excl, old(self).window(), t0, start, goal, r))
                || (!clock_ok(t0, old(self).window()) && r is None));
        }
        r
    }

    /// A WHCA* path from `start` to `goal` that avoids every reservation.
    pub fn find_path(&mut self, map: &GridMap, start: Pos, goal: Pos) -> (r: Option<PathResult>)
        requires
            old(self).wf(),
        ensures
            final(self).wf(),
            final(self).reservations() == old(self).reservations(),
            final(self).index() == old(self).index(),
            final(self).window() == old(self).window(),
            searched(*map, old(self).reservations(), None, old(self).window(), start, goal, r),
            exists|d: SearchStatsDelta, us: u64| #[trigger] recorded(old(self).stats(), r is Some, d, us) == final(self).stats(),
    {
        self.find_path_whca(map, start, goal, None)
    }

    /// A WHCA* path from `start` to `goal` for robot `robot_id`, which does
    /// not collide with its own reservations. There is no fallback to a
    /// plain path when the reservations block every plan.
    pub fn find_path_for_robot(&mut self, map: &GridMap, start: Pos, goal: Pos, robot_id: u32) -> (r: Option<PathResult>)
        requires
            old(self).wf(),
        ensures
            final(self).wf(),
            final(self).reservations() == old(self).reservations(),
            final(self).index() == old(self).index(),
            final(self).window() == old(self).window(),
            searched(*map, old(self).reservations(), Some(robot_id), old(self).window(), start, goal, r),
            exists|d: SearchStatsDelta, us: u64| #[trigger] recorded(old(self).stats(), r is Some, d, us) == final(self).stats(),
    {
        self.find_path_whca(map, start, goal, Some(robot_id))
    }

    /// The reservation table already keeps robots apart: the other robots'
    /// positions are not needed.
    pub fn find_path_avoiding(&mut self, map: &GridMap, start: Pos, goal: Pos, other_robots: &[(u32, Pos)]) -> (r: Option<
        PathResult,
    >)
        requires
            old(self).wf(),
        ensures
            final(self).wf(),
            final(self).reservations() == old(self).reservations(),
            final(self).index() == old(self).index(),
            final(self).window() == old(self).window(),
            searched(*map, old(self).reservations(), None, old(self).window(), start, goal, r),
            exists|d: SearchStatsDelta, us: u64| #[trigger] recorded(old(self).stats(), r is Some, d, us) == final(self).stats(),
    {
        self.find_path_whca(map, start, goal, None)
    }

    /// WHCA* search for a path ending next to `goal` when `goal` is not
    /// walkable, avoiding the reservations of robots other than `excl`.
    fn approach_whca(&mut self, map: &GridMap, start: Pos, goal: Pos, excl: Option<u32>) -> (r: (
        Option<PathResult>,
        Ghost<Seq<Option<PathResult>>>,
    ))
        requires
            old(self).wf(),
        ensures
            final(self).wf(),
            final(self).reservations() == old(self).reservations(),
            final(self).index() == old(self).index(),
            final(self).window() == old(self).window(),
            whca_approached(*map, old(self).reservations(), excl, old(self).window(), start, goal, r.1@, r.0),
            exists|outs: Seq<(bool, SearchStatsDelta, u64)>|
                outs.len() == r.1@.len() && (forall|j: int| 0 <= j < outs.len() ==> (#[trigger] outs[j]).0 == r.1@[j] is Some)
                    && #[trigger] recorded_all(old(self).stats(), outs) == final(self).stats(),
    {
        let ghost m = self.reservations();
        let ghost window = self.window();
        if !map.is_walkable(start.0, start.1) {
            proof {
                let outs = Seq::<(bool, SearchStatsDelta, u64)>::empty();
                assert(recorded_all(old(self).stats(), outs) == self.stats());
            }
            let ghost rs0 = Seq::<Option<PathResult>>::empty();
            return (None, Ghost(rs0));
        }
        if map.is_walkable(goal.0, goal.1) {
            let r = self.find_path_whca(map, start, goal, excl);
            proof {
                let (d, us) = choose|d: SearchStatsDelta, us: u64| #[trigger] recorded(old(self).stats(), r is Some, d, us) == self.stats();
                let outs = seq![(r is Some, d, us)];
                assert(outs.drop_last() =~= Seq::<(bool, SearchStatsDelta, u64)>::empty());
                assert(recorded_all(old(self).stats(), outs.drop_last()) == old(self).stats());
                assert(recorded_all(old(self).stats(), outs) == self.stats());
            }
            let ghost rs1 = seq![r];
            return (r, Ghost(rs1));
        }
        if (start.0 == goal.0 && start.1 == goal.1) || is_adjacent(start, goal) {
            let mut v: Vec<Pos> = Vec::new();
            v.push(start);
            proof {
                let outs = Seq::<(bool, SearchStatsDelta, u64)>::empty();
                assert(recorded_all(old(self).stats(), outs) == self.stats());
            }
            let ghost rs0 = Seq::<Option<PathResult>>::empty();
            return (Some(PathResult { grid_path: v, cost: 0 }), Ghost(rs0));
        }
        let cands = approach_cells_of(map, goal);
        let mut best: Option<PathResult> = None;
        let mut best_cost: u32 = u32::MAX;
        let ghost mut rs: Seq<Option<PathResult>> = Seq::empty();
        let ghost mut outs: Seq<(bool, SearchStatsDelta, u64)> = Seq::empty();
        let mut k: usize = 0;
        while k < cands.len()
            invariant
                self.wf(),
                m == self.reservations(),
                window == self.window(),
                self.index() == old(self).index(),
                k <= cands@.len(),
                cands@ == approach_cells(*map, goal),
                rs.len() == k,
                outs.len() == k,
                forall|j: int| 0 <= j < k ==> searched(*map, m, excl, window, start, cands@[j], #[trigger] rs[j]),
                forall|j: int| 0 <= j < k ==> (#[trigger] outs[j]).0 == rs[j] is Some,
                recorded_all(old(self).stats(), outs) == self.stats(),
                best is None ==> best_cost == u32::MAX,
                best matches Some(p) ==> p.cost == best_cost,
                cheapest(rs, best),
            decreases cands@.len() - k,
        {
            let c = cands[k];
            let ghost before_stats = self.stats();
            let found = self.find_path_whca(map, start, c, excl);
            proof {
                let (d, us) = choose|d: SearchStatsDelta, us: u64| #[trigger] recorded(before_stats, found is Some, d, us) == self.stats();
                let outs2 = outs.push((found is Some, d, us));
                assert(outs2.drop_last() =~= outs);
                assert(recorded_all(old(self).stats(), outs2) == self.stats());
                outs = outs2;
            }
            let ghost rs0 = rs;
            let ghost best0 = best;
            proof {
                rs = rs.push(found);
                assert forall|j: int| 0 <= j < k + 1 implies searched(*map, m, excl, window, start, cands@[j], #[trigger] rs[j]) by {
                    if j < k {
                        assert(rs[j] == rs0[j]);
                    }
                }
                assert forall|j: int| 0 <= j < k + 1 implies (#[trigger] outs[j]).0 == rs[j] is Some by {
                    if j < k {
                        assert(rs[j] == rs0[j]);
                    }
                }
            }
            match found {
                Some(p) => {
                    if p.cost < best_cost {
                        best_cost = p.cost;
                        proof {
                            let np = p;
                            assert(rs[k as int] == Some(np));
                            assert forall|j: int| 0 <= j < rs.len() && rs[j] is Some implies (#[trigger] rs[j]->Some_0.cost) >= np.cost by {
                                if j < k {
                                    assert(rs[j] == rs0[j]);
                                    if best0 is None {
                                        assert(rs0[j]->Some_0.cost == u32::MAX);
                                    } else {
                                        let bp = best0->Some_0;
                                        let i = choose|i: int|
                                            0 <= i < rs0.len() && #[trigger] rs0[i] == Some(bp) && bp.cost < u32::MAX && (forall|j: int|
                                                0 <= j < rs0.len() && rs0[j] is Some ==> (#[trigger] rs0[j]->Some_0.cost) >= bp.cost) && (forall|j: int|
                                                0 <= j < i && rs0[j] is Some ==> (#[trigger] rs0[j]->Some_0.cost) > bp.cost);
                                        assert(rs0[j]->Some_0.cost >= bp.cost);
                                    }
                                }
                            }
                            assert forall|j: int| 0 <= j < k && rs[j] is Some implies (#[trigger] rs[j]->Some_0.cost) > np.cost by {
                                assert(rs[j] == rs0[j]);
                                if best0 is None {
                                    assert(rs0[j]->Some_0.cost == u32::MAX);
                                } else {
                                    let bp = best0->Some_0;
                                    let i = choose|i: int|
                                        0 <= i < rs0.len() && #[trigger] rs0[i] == Some(bp) && bp.cost < u32::MAX && (forall|j: int|
                                            0 <= j < rs0.len() && rs0[j] is Some ==> (#[trigger] rs0[j]->Some_0.cost) >= bp.cost) && (forall|j: int|
                                            0 <= j < i && rs0[j] is Some ==> (#[trigger] rs0[j]->Some_0.cost) > bp.cost);
                                    assert(rs0[j]->Some_0.cost >= bp.cost);
                                }
                            }
                        }
                        best = Some(p);
                    } else {
                        proof {
                            if best0 is None {
                                assert forall|j: int| 0 <= j < rs.len() && (#[trigger] rs[j]) is Some implies rs[j]->Some_0.cost == u32::MAX by {
                                    if j < k {
                                        assert(rs[j] == rs0[j]);
                                    }
                                }
                            } else {
                                let bp = best0->Some_0;
                                let i = choose|i: int|
                                    0 <= i < rs0.len() && #[trigger] rs0[i] == Some(bp) && bp.cost < u32::MAX && (forall|j: int|
                                        0 <= j < rs0.len() && rs0[j] is Some ==> (#[trigger] rs0[j]->Some_0.cost) >= bp.cost) && (forall|j: int|
                                        0 <= j < i && rs0[j] is Some ==> (#[trigger] rs0[j]->Some_0.cost) > bp.cost);
                                assert(rs[i] == rs0[i]);
                                assert forall|j: int| 0 <= j < rs.len() && rs[j] is Some implies (#[trigger] rs[j]->Some_0.cost) >= bp.cost by {
                                    if j < k {
                                        assert(rs[j] == rs0[j]);
                                    }
                                }
                                assert forall|j: int| 0 <= j < i && rs[j] is Some implies (#[trigger] rs[j]->Some_0.cost) > bp.cost by {
                                    assert(rs[j] == rs0[j]);
                                }
                            }
                        }
                    }
                },
                None => {
                    proof {
                        if best0 is None {
                            assert forall|j: int| 0 <= j < rs.len() && (#[trigger] rs[j]) is Some implies rs[j]->Some_0.cost == u32::MAX by {
                                assert(rs[j] == rs0[j]);
                            }
                        } else {
                            let bp = best0->Some_0;
                            let i = choose|i: int|
                                0 <= i < rs0.len() && #[trigger] rs0[i] == Some(bp) && bp.cost < u32::MAX && (forall|j: int|
                                    0 <= j < rs0.len() && rs0[j] is Some ==> (#[trigger] rs0[j]->Some_0.cost) >= bp.cost) && (forall|j: int|
                                    0 <= j < i && rs0[j] is Some ==> (#[trigger] rs0[j]->Some_0.cost) > bp.cost);
                            assert(rs[i] == rs0[i]);
                            assert forall|j: int| 0 <= j < rs.len() && rs[j] is Some implies (#[trigger] rs[j]->Some_0.cost) >= bp.cost by {
                                assert(rs[j] == rs0[j]);
                            }
                            assert forall|j: int| 0 <= j < i && rs[j] is Some implies (#[trigger] rs[j]->Some_0.cost) > bp.cost by {
                                assert(rs[j] == rs0[j]);
                            }
                        }
                    }
                },
            }
            k = k + 1;
        }
        (best, Ghost(rs))
    }
}


impl WHCAPathfinder {
    /// A WHCA* path to `goal`, or, when `goal` is not walkable (a shelf),
    /// to the cheapest of its walkable neighbours, avoiding every
    /// reservation.
    pub fn find_path_to_non_walkable(&mut self, map: &GridMap, start: Pos, goal: Pos) -> (r: Option<PathResult>)
        requires
            old(self).wf(),
        ensures
            final(self).wf(),
            final(self).reservations() == old(self).reservations(),
            final(self).index() == old(self).index(),
            final(self).window() == old(self).window(),
            exists|rs: Seq<Option<PathResult>>|
                #[trigger] whca_approached(*map, old(self).reservations(), None, old(self).window(), start, goal, rs, r),
    {
        let (r, Ghost(rs)) = self.approach_whca(map, start, goal, None);
        r
    }

    /// A WHCA* path to `goal` or, when `goal` is not walkable, to the
    /// cheapest of its walkable neighbours, for robot `robot_id`.
    pub fn find_path_to_non_walkable_for_robot(&mut self, map: &GridMap, start: Pos, goal: Pos, robot_id: u32) -> (r:
        Option<PathResult>)
        requires
            old(self).wf(),
        ensures
            final(self).wf(),
            final(self).reservations() == old(self).reservations(),
            final(self).index() == old(self).index(),
            final(self).window() == old(self).window(),
            exists|rs: Seq<Option<PathResult>>|
                #[trigger] whca_approached(*map, old(self).reservations(), Some(robot_id), old(self).window(), start, goal, rs, r),
    {
        let (r, Ghost(rs)) = self.approach_whca(map, start, goal, Some(robot_id));
        r
    }

    /// Reserve `path` for robot `robot_id` from now, step `i` taking
    /// `travel_ms[i]` milliseconds. Nothing is reserved when the travel
    /// times add up past the clock's range; a clock reading too late for
    /// the path's times is pulled back so that they fit.
    pub fn reserve_path_timed(&mut self, robot_id: u32, path: &[Pos], travel_ms: &[u64])
        requires
            old(self).wf(),
            path@.len() == 0 || travel_ms@.len() + 1 == path@.len(),
        ensures
            final(self).wf(),
            final(self).window() == old(self).window(),
            old(self).clock() <= final(self).clock(),
            total_ms(travel_ms@) + 2300 <= u64::MAX ==> exists|now: u64|
                now <= final(self).clock() && final(self).reservations() == #[trigger] path_reserved(
                    old(self).reservations(),
                    robot_id,
                    path@,
                    travel_ms@,
                    now,
                    old(self).window(),
                ) && final(self).index() == path_reserved_index(old(self).index(), robot_id, path@, travel_ms@, now, old(self).window()),
            total_ms(travel_ms@) + 2300 > u64::MAX ==> final(self).reservations() == old(self).reservations()
                && final(self).index() == old(self).index(),
    {
        let now = self.read_clock();
        let mut sum: u64 = 0;
        let mut i: usize = 0;
        proof {
            assert(travel_ms@.take(0) =~= Seq::<u64>::empty());
            assert(self.reservations() == old(self).reservations());
            assert(self.index() == old(self).index());
            assert(self.window() == old(self).window());
            assert(self.wf());
        }
        while i < travel_ms.len()
            invariant
                old(self).wf(),
                self.wf(),
                self.clock() == now,
                now >= old(self).clock(),
                self.reservations() == old(self).reservations(),
                self.index() == old(self).index(),
                self.window() == old(self).window(),
                i <= travel_ms@.len(),
                sum == total_ms(travel_ms@.take(i as int)),
            decreases travel_ms@.len() - i,
        {
            proof {
                lemma_total_prefix(travel_ms@, i as int);
            }
            if sum > u64::MAX - travel_ms[i] {
                return;
            }
            sum = sum + travel_ms[i];
            i = i + 1;
        }
        proof {
            assert(travel_ms@.take(i as int) =~= travel_ms@);
        }
        if sum > u64::MAX - 2300 {
            return;
        }
        let latest = u64::MAX - 2300 - sum;
        let t = if now <= latest {
            now
        } else {
            latest
        };
        self.reserve_path_timed_at(robot_id, path, travel_ms, t);
    }

    /// Reserve the recent cells of a stationary robot: the last
    /// `STATIONARY_HISTORY_TILES` of `positions`, or `current_pos` when
    /// there are none, each for the stationary duration from `now_ms`.
    pub fn reserve_stationary_history_at(
        &mut self,
        robot_id: u32,
        positions: &std::collections::VecDeque<Pos>,
        current_pos: Pos,
        now_ms: u64,
    )
        requires
            old(self).wf(),
            now_ms < u64::MAX - crate::config::STATIONARY_RESERVATION_MS,
        ensures
            final(self).wf(),
            final(self).window() == old(self).window(),
            final(self).reservations() == stationary_history_map(
                old(self).reservations(),
                robot_id,
                recent_cells(positions@, current_pos),
                now_ms,
                old(self).window(),
            ),
            final(self).clock() == old(self).clock(),
    {
        let mut history: Vec<Pos> = Vec::new();
        let mut i: usize = 0;
        while i < positions.len()
            invariant
                i <= positions@.len(),
                history@ == positions@.take(i as int),
            decreases positions@.len() - i,
        {
            history.push(positions[i]);
            i = i + 1;
            assert(history@ =~= positions@.take(i as int));
        }
        assert(history@ =~= positions@);
        if history.len() == 0 {
            history.push(current_pos);
        }
        let start = history.len().saturating_sub(crate::config::STATIONARY_HISTORY_TILES);
        let ghost cells = history@.subrange(start as int, history@.len() as int);
        assert(cells == recent_cells(positions@, current_pos));
        let mut j: usize = start;
        while j < history.len()
            invariant
                self.wf(),
                self.window() == old(self).window(),
                self.clock() == old(self).clock(),
                start <= j <= history@.len(),
                now_ms < u64::MAX - crate::config::STATIONARY_RESERVATION_MS,
                cells == history@.subrange(start as int, history@.len() as int),
                self.reservations() == stationary_history_map(
                    old(self).reservations(),
                    robot_id,
                    cells.take(j - start),
                    now_ms,
                    old(self).window(),
                ),
            decreases history@.len() - j,
        {
            self.reserve_stationary_at(robot_id, history[j], now_ms);
            proof {
                let c1 = cells.take(j + 1 - start);
                assert(c1.drop_last() =~= cells.take(j - start));
                assert(c1.last() == history@[j as int]);
            }
            j = j + 1;
        }
        assert(cells.take(j - start) =~= cells);
    }

    /// Reserve the recent cells of a stationary robot from now.
    pub fn reserve_stationary_history(
        &mut self,
        robot_id: u32,
        positions: &std::collections::VecDeque<Pos>,
        current_pos: Pos,
    )
        requires
            old(self).wf(),
        ensures
            final(self).wf(),
            final(self).window() == old(self).window(),
            old(self).clock() <= final(self).clock(),
            exists|now: u64|
                now <= final(self).clock() && final(self).reservations() == #[trigger] stationary_history_map(
                    old(self).reservations(),
                    robot_id,
                    recent_cells(positions@, current_pos),
                    now,
                    old(self).window(),
                ),
    {
        let now = self.read_clock();
        proof {
            assert(self.reservations() == old(self).reservations());
            assert(self.window() == old(self).window());
            assert(self.wf());
        }
        let t = if now < u64::MAX - crate::config::STATIONARY_RESERVATION_MS {
            now
        } else {
            u64::MAX - crate::config::STATIONARY_RESERVATION_MS - 1
        };
        self.reserve_stationary_history_at(robot_id, positions, current_pos, t);
    }
}

/// The cells a stationary robot reserves: the last
/// `STATIONARY_HISTORY_TILES` of its recent positions, or its current
/// cell when it has none.
pub open spec fn recent_cells(positions: Seq<Pos>, current: Pos) -> Seq<Pos> {
    let h = if positions.len() == 0 { seq![current] } else { positions };
    let start = if h.len() >= 4 { h.len() - 4 } else { 0 };
    h.subrange(start, h.len() as int)
}

/// The reservations after robot `r` reserves each of `cells` in turn for
/// the stationary duration from `now`.
pub open spec fn stationary_history_map(m: Map<Key, u32>, r: u32, cells: Seq<Pos>, now: u64, window: u64) -> Map<Key, u32>
    decreases cells.len(),
{
    if cells.len() == 0 {
        m
    } else {
        span_map(
            stationary_history_map(m, r, cells.drop_last(), now, window),
            r,
            cells.last(),
            now as int,
            now + stationary_ms(window),
        )
    }
}


/// Reserving a stationary robot's recent cells is reserving each of them
/// in turn, as a single stationary reservation of that cell from the same
/// time would: the history of `cells` is the history of all but the last,
/// followed by the span of the last cell.
pub proof fn law_history_reserves_cells_in_turn(m: Map<Key, u32>, r: u32, cells: Seq<Pos>, now: u64, window: u64)
    requires
        cells.len() > 0,
    ensures
        stationary_history_map(m, r, cells, now, window) == span_map(
            stationary_history_map(m, r, cells.drop_last(), now, window),
            r,
            cells.last(),
            now as int,
            now + stationary_ms(window),
        ),
{
}

/// A cell outside the recent history gets no new reservation: every key of
/// a cell that is none of `cells` keeps its reservation, or its absence.
/// (Cells with a coordinate of `2^31` or more are reserved under a wrapped
/// coordinate, and are left out.)
pub proof fn law_history_leaves_other_cells(m: Map<Key, u32>, r: u32, cells: Seq<Pos>, now: u64, window: u64, k: Key)
    requires
        forall|i: int| 0 <= i < cells.len() ==> (#[trigger] cells[i]).0 < 0x8000_0000 && cells[i].1 < 0x8000_0000,
        !cells.contains((k.0, k.1)),
    ensures
        stationary_history_map(m, r, cells, now, window).contains_key(k) == m.contains_key(k),
        m.contains_key(k) ==> stationary_history_map(m, r, cells, now, window)[k] == m[k],
    decreases cells.len(),
{
    if cells.len() > 0 {
        let c = cells.last();
        assert(cells[cells.len() - 1] == c);
        assert forall|i: int| 0 <= i < cells.drop_last().len() implies (#[trigger] cells.drop_last()[i]).0 < 0x8000_0000
            && cells.drop_last()[i].1 < 0x8000_0000 by {
            assert(cells.drop_last()[i] == cells[i]);
        }
        if cells.drop_last().contains((k.0, k.1)) {
            let i = choose|i: int| 0 <= i < cells.drop_last().len() && cells.drop_last()[i] == (k.0, k.1);
            assert(cells[i] == (k.0, k.1));
        }
        law_history_leaves_other_cells(m, r, cells.drop_last(), now, window, k);
        assert(buffer_coord(c.0) == c.0 && buffer_coord(c.1) == c.1);
        assert(!in_span(k, c, now as int, now + stationary_ms(window)));
    }
}

impl Default for WHCAPathfinder {
    fn default() -> (p: WHCAPathfinder)
        ensures
            p.wf(),
            p.window() == crate::config::WINDOW_SIZE_MS,
            p.reservations() == Map::<Key, u32>::empty(),
            p.stats() == zero_stats(),
    {
        WHCAPathfinder::with_defaults()
    }
}

} // verus!
