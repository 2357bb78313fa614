//! How the coordinator tracks a robot between decisions: its place along
//! the path it was sent, the state it takes when it accepts a task, when
//! its held cells are reserved again, which robots stop for a replanned
//! path, and where a robot standing on a special tile steps aside to.
use vstd::prelude::*;
use crate::grid_map::{GridMap, TileType};
use crate::search::{Pos, connected};
use crate::task_manager::{
    TaskStage, find_nearest_non_special_ground_tile, is_special_tile, nearest_ground, special, type_at,
};

verus! {

/// The place of a robot along its path of `len` waypoints: `index` is the
/// next waypoint to reach.
#[derive(Debug, Clone, Copy, PartialEq, Eq, Structural)]
pub struct PathCursor {
    pub len: usize,
    pub index: usize,
}

impl PathCursor {
    /// Whether the cursor is well formed: never past the end.
    pub open spec fn wf(self) -> bool {
        self.index <= self.len
    }

    /// A cursor at the start of a path of `len` waypoints.
    pub fn start(len: usize) -> (c: PathCursor)
        ensures
            c == (PathCursor { len, index: 0 }),
            c.wf(),
    {
        PathCursor { len, index: 0 }
    }

    /// Whether no waypoint remains.
    pub fn complete(&self) -> (b: bool)
        ensures
            b == (self.len == 0 || self.index >= self.len),
    {
        self.len == 0 || self.index >= self.len
    }

    /// The index of the next waypoint, if one remains.
    pub fn next(&self) -> (r: Option<usize>)
        ensures
            r == (if self.index < self.len { Some(self.index) } else { None::<usize> }),
    {
        if self.index < self.len {
            Some(self.index)
        } else {
            None
        }
    }

    /// Move past the next waypoint, if one remains.
    pub fn advance(&mut self)
        requires
            old(self).wf(),
        ensures
            final(self).wf(),
            final(self).len == old(self).len,
            final(self).index == (if old(self).index < old(self).len { old(self).index + 1 } else { old(self).index as int }),
    {
        if self.index < self.len {
            self.index = self.index + 1;
        }
    }
}

/// A robot's task tracking after it accepts a task: the task, heading to
/// the pickup, the pickup and dropoff cells, and its place along the path
/// to the pickup.
#[derive(Debug, Clone, Copy, PartialEq, Eq)]
pub struct AcceptedTracking {
    pub task: u64,
    pub stage: TaskStage,
    pub pickup: Pos,
    pub dropoff: Pos,
    pub cursor: PathCursor,
    /// Whether the path is sent to the robot (when it has a waypoint).
    pub send_path: bool,
}

/// What a robot's tracking becomes when it accepts task `task` from
/// `pickup` to `dropoff` with a path of `path_len` waypoints to the pickup:
/// it heads to the pickup, starting past the first waypoint when it already
/// stands there, and the path is sent when it is not empty.
pub open spec fn accepted_spec(task: u64, pickup: Pos, dropoff: Pos, path_len: usize, at_first: bool) -> AcceptedTracking {
    AcceptedTracking {
        task,
        stage: TaskStage::MovingToPickup,
        pickup,
        dropoff,
        cursor: PathCursor { len: path_len, index: if path_len > 0 && at_first { 1 } else { 0 } },
        send_path: path_len > 0,
    }
}

/// The tracking of a robot that accepted a task; see `accepted_spec`.
pub fn accepted_tracking(task: u64, pickup: Pos, dropoff: Pos, path_len: usize, at_first: bool) -> (a: AcceptedTracking)
    ensures
        a == accepted_spec(task, pickup, dropoff, path_len, at_first),
        a.cursor.wf(),
{
    let mut cursor = PathCursor::start(path_len);
    if cursor.next().is_some() && at_first {
        cursor.advance();
    }
    AcceptedTracking { task, stage: TaskStage::MovingToPickup, pickup, dropoff, cursor, send_path: path_len > 0 }
}

/// Milliseconds between refreshes of the reservation of a robot's held
/// cells.
pub const STATIONARY_REFRESH_INTERVAL_MS: u64 = 500;

/// Whether the held cells of a robot are reserved again: when they never
/// were, when the last reservation is `STATIONARY_REFRESH_INTERVAL_MS` old,
/// or when the robot's cell or recent cells changed since.
pub open spec fn refresh_due_spec(last: Option<(u64, Pos, Seq<Pos>)>, cell: Pos, history: Seq<Pos>) -> bool {
    match last {
        None => true,
        Some((age_ms, c, h)) => age_ms >= STATIONARY_REFRESH_INTERVAL_MS || c != cell || h != history,
    }
}

fn same_cells(a: &Vec<Pos>, b: &Vec<Pos>) -> (r: bool)
    ensures
        r == (a@ == b@),
{
    if a.len() != b.len() {
        return false;
    }
    let mut i: usize = 0;
    while i < a.len()
        invariant
            a@.len() == b@.len(),
            i <= a@.len(),
            forall|j: int| 0 <= j < i ==> a@[j] == b@[j],
        decreases a@.len() - i,
    {
        if a[i].0 != b[i].0 || a[i].1 != b[i].1 {
            return false;
        }
        i = i + 1;
    }
    assert(a@ =~= b@);
    true
}

/// Whether the held cells of a robot are reserved again; see
/// `refresh_due_spec`. `last` is the age in milliseconds, the cell and the
/// recent cells of the last reservation.
pub fn stationary_refresh_due(last: Option<(u64, Pos, &Vec<Pos>)>, cell: Pos, history: &Vec<Pos>) -> (b: bool)
    ensures
        b == refresh_due_spec(
            match last {
                None => None,
                Some((a, c, h)) => Some((a, c, h@)),
            },
            cell,
            history@,
        ),
{
    match last {
        None => true,
        Some((age_ms, c, h)) => age_ms >= STATIONARY_REFRESH_INTERVAL_MS || c.0 != cell.0 || c.1 != cell.1 || !same_cells(
            h,
            history,
        ),
    }
}

/// Whether a robot stops for another robot's replanned path: it is
/// another robot, its path was sent, and its next waypoint lies on the
/// replanned path.
pub fn stops_for_replan(same_robot: bool, path_sent: bool, next_cell: Option<Pos>, replanned: &Vec<Pos>) -> (b: bool)
    ensures
        b == (!same_robot && path_sent && (next_cell matches Some(c) && replanned@.contains(c))),
{
    if same_robot || !path_sent {
        return false;
    }
    match next_cell {
        None => false,
        Some(c) => {
            let mut i: usize = 0;
            while i < replanned.len()
                invariant
                    i <= replanned@.len(),
                    !same_robot && path_sent && next_cell == Some(c),
                    forall|j: int| 0 <= j < i ==> replanned@[j] != c,
                decreases replanned@.len() - i,
            {
                if replanned[i].0 == c.0 && replanned[i].1 == c.1 {
                    assert(replanned@[i as int] == c);
                    return true;
                }
                i = i + 1;
            }
            false
        },
    }
}

/// Where a robot at `current` steps aside to: the nearest plain ground
/// connected to it, when it stands on a dropoff, a station or a shelf;
/// `None` when it does not, or when no plain ground is connected.
pub fn staging_cell(map: &GridMap, current: Pos) -> (r: Option<Pos>)
    ensures
        r matches Some(c) ==> special(type_at(*map, current)) && c != current && nearest_ground(*map, current, c),
        r is None <==> (!special(type_at(*map, current)) || forall|g: Pos|
            type_at(*map, g) == Some(TileType::Ground) ==> !#[trigger] connected(*map, current, g)),
{
    if !is_special_tile(map, current) {
        return None;
    }
    match find_nearest_non_special_ground_tile(map, current) {
        None => None,
        Some(c) => {
            proof {
                assert(type_at(*map, c) == Some(TileType::Ground));
                let w = choose|w: Seq<Pos>| #[trigger] crate::search::walk_between(*map, w, current, c) && forall|
                    g: Pos,
                    v: Seq<Pos>,
                |
                    type_at(*map, g) == Some(TileType::Ground) && #[trigger] crate::search::walk_between(*map, v, current, g)
                        ==> w.len() <= v.len();
                assert(connected(*map, current, c));
            }
            if c.0 == current.0 && c.1 == current.1 {
                None
            } else {
                Some(c)
            }
        },
    }
}

} // verus!
