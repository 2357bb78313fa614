//! The coordinator's path watchdog and replanning choices: when a robot's
//! path is (re)sent, when a robot is stopped to wait for reserved cells
//! ahead, when such a wait is overridden, and where a replan heads.
use vstd::prelude::*;
use crate::task_manager::TaskStage;

verus! {

/// Seconds a robot waits on reserved cells ahead before its path is sent
/// again regardless.
pub const RESERVATION_WAIT_OVERRIDE_SECS: u64 = 8;

/// Cells of the remaining path scanned for other robots' reservations.
pub const LOOKAHEAD_BLOCK_SCAN_CELLS: usize = 4;

/// Which path command carries a robot's remaining waypoints.
#[derive(Debug, Clone, Copy, PartialEq, Eq)]
pub enum PathSend {
    /// Waypoints home to the charging station.
    ReturnToStation,
    /// Waypoints of a task.
    FollowPath,
}

/// What the watchdog does for a robot this round.
#[derive(Debug, Clone, Copy, PartialEq, Eq)]
pub enum WatchdogAction {
    /// The robot is picking, done with its path or has no next waypoint:
    /// nothing is looked at or changed.
    Skip,
    /// Hold the robot's cell, count it as progress and stop the robot.
    StopAndHold,
    /// Send the remaining waypoints with this command.
    Send(PathSend),
    /// Nothing to send.
    NoCommand,
}

/// The watchdog's decision for one robot.
#[derive(Debug, Clone, Copy, PartialEq, Eq)]
pub struct WatchdogDecision {
    pub action: WatchdogAction,
    /// Whether the robot's wait on reserved cells ends.
    pub clear_wait: bool,
    /// Whether a wait of at least `RESERVATION_WAIT_OVERRIDE_SECS` was
    /// overridden.
    pub overridden: bool,
    /// Whether the robot's path counts as sent afterwards.
    pub path_sent: bool,
}

/// The command that carries the remaining waypoints of a robot in `stage`.
pub open spec fn path_send_for(stage: TaskStage) -> PathSend {
    if stage == TaskStage::ReturningToStation {
        PathSend::ReturnToStation
    } else {
        PathSend::FollowPath
    }
}

/// The watchdog's decision for a robot: `picking` when it is picking up,
/// `complete` when its path is done, `has_next` when it has a next
/// waypoint, `blocked` when another robot reserves one of the next cells,
/// `wait_secs` how long it has waited on reserved cells (after the wait was
/// started for this round), `path_sent` whether its path was sent, and
/// `has_remaining` whether waypoints remain.
pub open spec fn watchdog_spec(
    picking: bool,
    complete: bool,
    has_next: bool,
    blocked: bool,
    wait_secs: Option<u64>,
    path_sent: bool,
    has_remaining: bool,
    stage: TaskStage,
) -> WatchdogDecision {
    if picking || complete || !has_next {
        WatchdogDecision { action: WatchdogAction::Skip, clear_wait: false, overridden: false, path_sent }
    } else {
        let overridden = blocked && (wait_secs matches Some(s) && s >= RESERVATION_WAIT_OVERRIDE_SECS);
        let sent = path_sent && !overridden;
        let clear_wait = !blocked || overridden;
        if blocked && sent {
            WatchdogDecision { action: WatchdogAction::StopAndHold, clear_wait, overridden, path_sent: false }
        } else if !sent && has_remaining {
            WatchdogDecision { action: WatchdogAction::Send(path_send_for(stage)), clear_wait, overridden, path_sent: true }
        } else {
            WatchdogDecision { action: WatchdogAction::NoCommand, clear_wait, overridden, path_sent: sent }
        }
    }
}

/// The command that carries the remaining waypoints of a robot in `stage`.
pub fn path_send(stage: TaskStage) -> (p: PathSend)
    ensures
        p == path_send_for(stage),
{
    if stage == TaskStage::ReturningToStation {
        PathSend::ReturnToStation
    } else {
        PathSend::FollowPath
    }
}

/// Decide what the watchdog does for one robot; see `watchdog_spec`.
pub fn watchdog_decide(
    picking: bool,
    complete: bool,
    has_next: bool,
    blocked: bool,
    wait_secs: Option<u64>,
    path_sent: bool,
    has_remaining: bool,
    stage: TaskStage,
) -> (d: WatchdogDecision)
    ensures
        d == watchdog_spec(picking, complete, has_next, blocked, wait_secs, path_sent, has_remaining, stage),
{
    if picking || complete || !has_next {
        return WatchdogDecision { action: WatchdogAction::Skip, clear_wait: false, overridden: false, path_sent };
    }
    let overridden = blocked && match wait_secs {
        Some(s) => s >= RESERVATION_WAIT_OVERRIDE_SECS,
        None => false,
    };
    let sent = path_sent && !overridden;
    let clear_wait = !blocked || overridden;
    if blocked && sent {
        WatchdogDecision { action: WatchdogAction::StopAndHold, clear_wait, overridden, path_sent: false }
    } else if !sent && has_remaining {
        WatchdogDecision { action: WatchdogAction::Send(path_send(stage)), clear_wait, overridden, path_sent: true }
    } else {
        WatchdogDecision { action: WatchdogAction::NoCommand, clear_wait, overridden, path_sent: sent }
    }
}

/// A robot the watchdog does not skip leaves the round with its path sent,
/// unless it was stopped to wait or has nothing left to send; and a robot
/// that is stopped had its path sent and is not past the override.
pub proof fn law_watchdog_stops_only_sent_paths(
    picking: bool,
    complete: bool,
    has_next: bool,
    blocked: bool,
    wait_secs: Option<u64>,
    path_sent: bool,
    has_remaining: bool,
    stage: TaskStage,
)
    ensures
        ({
            let d = watchdog_spec(picking, complete, has_next, blocked, wait_secs, path_sent, has_remaining, stage);
            &&& d.action == WatchdogAction::StopAndHold ==> path_sent && blocked && !d.overridden && !d.path_sent
            &&& !(d.action is Skip) && !(d.action is StopAndHold) && has_remaining ==> d.path_sent
            &&& d.overridden ==> !(d.action is StopAndHold)
        }),
{
}

/// Where a replan of a blocked robot heads.
#[derive(Debug, Clone, Copy, PartialEq, Eq)]
pub enum ReplanTarget {
    Pickup,
    Dropoff,
    Station,
}

/// Where a replan heads for a robot in `stage`: the pickup while moving to
/// it, the dropoff while moving to it or delivering (each only when the
/// robot has a task and that location is known), the station while
/// returning; otherwise there is nothing to replan.
pub open spec fn replan_target_spec(stage: TaskStage, has_task: bool, has_pickup: bool, has_dropoff: bool) -> Option<
    ReplanTarget,
> {
    match stage {
        TaskStage::MovingToPickup => if has_task && has_pickup {
            Some(ReplanTarget::Pickup)
        } else {
            None
        },
        TaskStage::MovingToDropoff | TaskStage::Delivering => if has_task && has_dropoff {
            Some(ReplanTarget::Dropoff)
        } else {
            None
        },
        TaskStage::ReturningToStation => Some(ReplanTarget::Station),
        _ => None,
    }
}

/// Where a replan heads; see `replan_target_spec`.
pub fn replan_target(stage: TaskStage, has_task: bool, has_pickup: bool, has_dropoff: bool) -> (r: Option<ReplanTarget>)
    ensures
        r == replan_target_spec(stage, has_task, has_pickup, has_dropoff),
{
    match stage {
        TaskStage::MovingToPickup => if has_task && has_pickup {
            Some(ReplanTarget::Pickup)
        } else {
            None
        },
        TaskStage::MovingToDropoff | TaskStage::Delivering => if has_task && has_dropoff {
            Some(ReplanTarget::Dropoff)
        } else {
            None
        },
        TaskStage::ReturningToStation => Some(ReplanTarget::Station),
        _ => None,
    }
}

/// The command that carries a replanned path: home to the station when
/// the replan heads there, a task path otherwise.
pub fn replan_send(target: ReplanTarget) -> (p: PathSend)
    ensures
        p == (if target == ReplanTarget::Station {
            PathSend::ReturnToStation
        } else {
            PathSend::FollowPath
        }),
{
    match target {
        ReplanTarget::Station => PathSend::ReturnToStation,
        _ => PathSend::FollowPath,
    }
}

} // verus!
