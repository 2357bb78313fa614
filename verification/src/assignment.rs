//! The coordinator's checks on a task the scheduler assigns to a robot:
//! whether the robot can take it, and whether the task itself is sound.
use vstd::prelude::*;
use crate::grid_map::GridMap;
use crate::robot::RobotState;
use crate::search::Pos;
use crate::task_manager::{
    ReturnReason, TaskStage, is_interruptible_return_reason, type_at, valid_pair, validate_pickup_dropoff,
};
use crate::tasks::{TaskType, pickup_of, target_of};

verus! {

/// What the coordinator knows of a robot when a task arrives for it.
#[derive(Debug, Clone, Copy, PartialEq, Eq, Structural)]
pub struct RobotSnapshot {
    /// The state the firmware last reported.
    pub state: RobotState,
    /// Whether the robot is enabled.
    pub enabled: bool,
    /// Where the robot is in its current task.
    pub stage: TaskStage,
    /// Why the robot returns to its station, if it does.
    pub return_reason: Option<ReturnReason>,
    /// Whether the battery is charged enough for a task.
    pub battery_ok: bool,
}

/// The verdict on an assignment.
#[derive(Debug, Clone, Copy, PartialEq, Eq)]
pub enum AssignmentCheck {
    /// The robot is faulted or blocked.
    RobotFaultedOrBlocked,
    /// The robot is disabled.
    RobotDisabled,
    /// The robot returns to its station on a low battery.
    LowBatteryReturn,
    /// The robot is busy with another task.
    RobotBusy,
    /// The task has no pickup location.
    NoPickupLocation,
    /// The task has no dropoff location.
    NoDropoffLocation,
    /// The pickup and dropoff tiles do not make a valid pair.
    InvalidTileCombination,
    /// The pickup shelf is empty.
    PickupEmpty,
    /// The dropoff shelf is full.
    DropoffFull,
    /// The task can go ahead: plan a path to `pickup`, then to `dropoff`.
    Accept { pickup: Pos, dropoff: Pos },
}

/// The verdict, and whether the robot gave up its return to the station
/// (it is then idle, with no return reason, whatever the verdict).
#[derive(Debug, Clone, Copy, PartialEq, Eq)]
pub struct AssignmentDecision {
    pub check: AssignmentCheck,
    pub left_return: bool,
}

/// Whether a robot at stage `stage` returning for `reason` gives up its
/// return for a new task: the return may be interrupted, or it was for a
/// low battery that is now charged.
pub open spec fn leaves_return(r: RobotSnapshot) -> bool {
    r.stage == TaskStage::ReturningToStation && (r.return_reason == Some(ReturnReason::NoPendingTasks)
        || r.return_reason == Some(ReturnReason::PostDelivery) || (r.return_reason == Some(ReturnReason::LowBattery)
        && r.battery_ok))
}

/// Whether the robot may start a new task once it gave up any return: it
/// is idle, or charging with enough battery.
pub open spec fn free_for_task(r: RobotSnapshot) -> bool {
    leaves_return(r) || r.stage == TaskStage::Idle || (r.state == RobotState::Charging && r.battery_ok)
}

/// The decision on assigning a task of type `t` to robot `r` on `map`,
/// where `stock` says whether the pickup shelf has stock and `room`
/// whether the dropoff has room.
pub open spec fn assignment_decided(r: RobotSnapshot, t: TaskType, map: GridMap, stock: bool, room: bool) -> AssignmentDecision {
    let left = leaves_return(r);
    let check = if r.state == RobotState::Faulted || r.state == RobotState::Blocked {
        AssignmentCheck::RobotFaultedOrBlocked
    } else if !r.enabled {
        AssignmentCheck::RobotDisabled
    } else if r.stage == TaskStage::ReturningToStation && r.return_reason == Some(ReturnReason::LowBattery)
        && !r.battery_ok {
        AssignmentCheck::LowBatteryReturn
    } else if !free_for_task(r) {
        AssignmentCheck::RobotBusy
    } else {
        match (pickup_of(t), target_of(t)) {
            (None, _) => AssignmentCheck::NoPickupLocation,
            (Some(_), None) => AssignmentCheck::NoDropoffLocation,
            (Some(p), Some(d)) => if !valid_pair(type_at(map, p), type_at(map, d)) {
                AssignmentCheck::InvalidTileCombination
            } else if !stock {
                AssignmentCheck::PickupEmpty
            } else if !room {
                AssignmentCheck::DropoffFull
            } else {
                AssignmentCheck::Accept { pickup: p, dropoff: d }
            },
        }
    };
    AssignmentDecision {
        check,
        left_return: r.state != RobotState::Faulted && r.state != RobotState::Blocked && r.enabled && left,
    }
}

/// Decide on assigning a task of type `task_type` to robot `robot`.
/// `pickup_has_stock` and `dropoff_has_room` come from the shelf
/// inventory.
pub fn check_assignment(
    robot: RobotSnapshot,
    task_type: TaskType,
    map: &GridMap,
    pickup_has_stock: bool,
    dropoff_has_room: bool,
) -> (d: AssignmentDecision)
    ensures
        d == assignment_decided(robot, task_type, *map, pickup_has_stock, dropoff_has_room),
{
    if robot.state == RobotState::Faulted || robot.state == RobotState::Blocked {
        return AssignmentDecision { check: AssignmentCheck::RobotFaultedOrBlocked, left_return: false };
    }
    if !robot.enabled {
        return AssignmentDecision { check: AssignmentCheck::RobotDisabled, left_return: false };
    }
    let mut stage = robot.stage;
    let mut reason = robot.return_reason;
    let mut left_return = false;
    if stage == TaskStage::ReturningToStation && is_interruptible_return_reason(reason) {
        stage = TaskStage::Idle;
        reason = None;
        left_return = true;
    } else if stage == TaskStage::ReturningToStation && reason == Some(ReturnReason::LowBattery) {
        if robot.battery_ok {
            stage = TaskStage::Idle;
            reason = None;
            left_return = true;
        } else {
            return AssignmentDecision { check: AssignmentCheck::LowBatteryReturn, left_return: false };
        }
    }
    let eligible = stage == TaskStage::Idle || (stage == TaskStage::ReturningToStation
        && is_interruptible_return_reason(reason)) || (robot.state == RobotState::Charging && robot.battery_ok);
    if !eligible {
        return AssignmentDecision { check: AssignmentCheck::RobotBusy, left_return };
    }
    let pickup = match task_type {
        TaskType::PickAndDeliver { pickup, .. } => pickup,
        TaskType::Relocate { from, .. } => from,
        TaskType::ReturnToStation { .. } => {
            return AssignmentDecision { check: AssignmentCheck::NoPickupLocation, left_return };
        },
    };
    let dropoff = match task_type {
        TaskType::PickAndDeliver { dropoff, .. } => dropoff,
        TaskType::Relocate { to, .. } => to,
        TaskType::ReturnToStation { .. } => {
            return AssignmentDecision { check: AssignmentCheck::NoDropoffLocation, left_return };
        },
    };
    let check = if !validate_pickup_dropoff(map, pickup, dropoff) {
        AssignmentCheck::InvalidTileCombination
    } else if !pickup_has_stock {
        AssignmentCheck::PickupEmpty
    } else if !dropoff_has_room {
        AssignmentCheck::DropoffFull
    } else {
        AssignmentCheck::Accept { pickup, dropoff }
    };
    AssignmentDecision { check, left_return }
}

} // verus!
