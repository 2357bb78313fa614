//! The coordinator's fault handling: when a robot's cell is held for it,
//! when a blocked robot is faulted, when a faulted robot restarts, and when
//! a task times out.
use vstd::prelude::*;
use crate::robot::RobotState;
use crate::task_manager::TaskStage;

verus! {

/// Seconds a robot may stay blocked before it is faulted.
pub const BLOCKED_TIMEOUT_SECS: u64 = 5;

/// Failed replans of a blocked robot before it is faulted.
pub const MAX_REPLAN_ATTEMPTS: u32 = 3;

/// Seconds a faulted robot waits before it restarts at its station.
pub const FAULT_CLEANUP_DELAY_SECS: u64 = 10;

/// Seconds a task may go without progress before it fails.
pub const TASK_TIMEOUT_SECS: u64 = 30;

/// Seconds a robot may wait on a reserved cell before a replan.
pub const RESERVATION_WAIT_REPLAN_SECS: u64 = 2;

/// Whether the cell of a robot is held for it as a stationary robot: it is
/// idle, picking or delivering, or faulted or blocked.
pub open spec fn holds_cell(stage: TaskStage, state: RobotState) -> bool {
    stage == TaskStage::Idle || stage == TaskStage::Picking || stage == TaskStage::Delivering || state
        == RobotState::Faulted || state == RobotState::Blocked
}

/// Whether the cell of a robot is held for it.
pub fn should_reserve_stationary(stage: TaskStage, state: RobotState) -> (b: bool)
    ensures
        b == holds_cell(stage, state),
{
    stage == TaskStage::Idle || stage == TaskStage::Picking || stage == TaskStage::Delivering || state
        == RobotState::Faulted || state == RobotState::Blocked
}

/// Whether a robot on its way somewhere is checked for straying from its
/// path: it has a task and moves to its pickup or dropoff, or delivers.
pub fn tracks_path_deviation(has_task: bool, stage: TaskStage) -> (b: bool)
    ensures
        b == (has_task && (stage == TaskStage::MovingToPickup || stage == TaskStage::MovingToDropoff || stage
            == TaskStage::Delivering)),
{
    has_task && (stage == TaskStage::MovingToPickup || stage == TaskStage::MovingToDropoff || stage
        == TaskStage::Delivering)
}

/// What to do with a blocked robot.
#[derive(Debug, Clone, Copy, PartialEq, Eq, Structural)]
pub enum BlockedAction {
    /// Blocked too long: fault the robot.
    FaultBlockedTimeout,
    /// Try to plan a new path now.
    Replan,
}

/// What to do with a robot blocked for `blocked_secs` seconds.
pub fn blocked_action(blocked_secs: u64) -> (a: BlockedAction)
    ensures
        a == (if blocked_secs >= BLOCKED_TIMEOUT_SECS {
            BlockedAction::FaultBlockedTimeout
        } else {
            BlockedAction::Replan
        }),
{
    if blocked_secs >= BLOCKED_TIMEOUT_SECS {
        BlockedAction::FaultBlockedTimeout
    } else {
        BlockedAction::Replan
    }
}

/// The count of failed replans after a replan that `succeeded` or not,
/// and whether the robot is faulted for it.
pub fn after_replan(succeeded: bool, attempts: u32) -> (r: (u32, bool))
    ensures
        succeeded ==> r == (0u32, false),
        !succeeded ==> r.0 == (if attempts < u32::MAX { attempts + 1 } else { attempts as int }) && r.1 == (r.0
            >= MAX_REPLAN_ATTEMPTS),
{
    if succeeded {
        (0, false)
    } else {
        let n = if attempts < u32::MAX {
            attempts + 1
        } else {
            attempts
        };
        (n, n >= MAX_REPLAN_ATTEMPTS)
    }
}

/// Whether a robot faulted for `faulted_secs` seconds restarts now.
pub fn restart_due(faulted_secs: u64) -> (b: bool)
    ensures
        b == (faulted_secs >= FAULT_CLEANUP_DELAY_SECS),
{
    faulted_secs >= FAULT_CLEANUP_DELAY_SECS
}

/// Whether a robot waiting `wait_secs` seconds on a reserved cell tries a
/// new path.
pub fn wait_calls_for_replan(wait_secs: Option<u64>) -> (b: bool)
    ensures
        b == (wait_secs matches Some(s) && s >= RESERVATION_WAIT_REPLAN_SECS),
{
    match wait_secs {
        Some(s) => s >= RESERVATION_WAIT_REPLAN_SECS,
        None => false,
    }
}

} // verus!
