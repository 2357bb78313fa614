//! The coordinator's task lifecycle for one robot: on each pass, from what
//! it knows of the robot, which step of the task comes next. The caller
//! performs the step (commands, path planning, status reports) and feeds
//! back what it observes on the next pass.
use vstd::prelude::*;
use crate::robot::RobotState;
use crate::task_manager::{ReturnReason, TaskStage};

verus! {

/// What the coordinator observes of a robot on a pass.
#[derive(Debug, Clone, Copy, PartialEq, Eq, Structural)]
pub struct StageInputs {
    /// The state the firmware last reported.
    pub state: RobotState,
    /// Where the robot is in its task.
    pub stage: TaskStage,
    /// Whether the robot has a task.
    pub has_task: bool,
    /// Whether the robot has followed its whole path.
    pub path_complete: bool,
    /// Whether the robot stands at its pickup point.
    pub at_pickup: bool,
    /// Whether the robot stands at its dropoff point.
    pub at_dropoff: bool,
    /// Whether the robot stands at its charging station.
    pub at_station: bool,
    /// Whether the robot still carries cargo.
    pub carrying_cargo: bool,
    /// Whether the wait since the last drop command has run out.
    pub drop_retry_due: bool,
    /// Drop commands resent so far.
    pub drop_retries: u32,
    /// Whether the battery is below the low threshold.
    pub battery_low: bool,
    /// Whether the battery is charged enough for a task.
    pub battery_ok: bool,
    /// Whether another robot holds the station now.
    pub station_taken_now: bool,
    /// Whether another robot holds the station one move from now.
    pub station_taken_soon: bool,
}

/// The next step of a robot's task.
#[derive(Debug, Clone, Copy, PartialEq, Eq, Structural)]
pub enum StageAction {
    /// Nothing to do on this pass.
    Nothing,
    /// The robot reached its pickup: it starts picking (stage `Picking`).
    StartPicking,
    /// The firmware loaded the cargo: confirm the pickup and plan the way to
    /// the dropoff (stage `MovingToDropoff`).
    HeadToDropoff,
    /// The robot reached its dropoff: send the drop (stage `Delivering`).
    StartDelivering,
    /// The drop is being applied; the task makes progress.
    AwaitUnload,
    /// The cargo is still aboard: send the drop again, as retry `attempt`.
    RetryDrop { attempt: u32 },
    /// The drop was never confirmed: the task fails.
    FailDropTimeout,
    /// The drop is confirmed: the task is complete and the robot returns to
    /// its station for `reason`.
    CompleteDelivery { reason: ReturnReason },
    /// The robot is at its station, which another robot holds: move aside
    /// or hold position.
    StationOccupied,
    /// The robot is at its station: charge; `released` when the battery
    /// allows a task (stage `Idle`).
    Charge { released: bool },
    /// The robot returns but its station is taken: move aside or wait.
    AwaitStation,
    /// The robot returns without a path: plan one to the station.
    PlanReturn,
    /// The idle robot runs low away from its station: return to charge,
    /// once the station is free.
    ReturnForBattery { station_free: bool },
}

/// The step a returning robot takes.
pub open spec fn return_step(i: StageInputs) -> StageAction {
    if i.at_station {
        if i.station_taken_now {
            StageAction::StationOccupied
        } else {
            StageAction::Charge { released: i.battery_ok }
        }
    } else if i.path_complete {
        if i.station_taken_now || i.station_taken_soon {
            StageAction::AwaitStation
        } else {
            StageAction::PlanReturn
        }
    } else {
        StageAction::Nothing
    }
}

/// The step a delivering robot takes, with at most `max_retries` drop
/// retries.
pub open spec fn delivery_step(i: StageInputs, max_retries: u32) -> StageAction {
    if i.state != RobotState::Idle {
        if i.carrying_cargo {
            if !i.drop_retry_due {
                StageAction::Nothing
            } else if i.drop_retries >= max_retries {
                StageAction::FailDropTimeout
            } else {
                StageAction::RetryDrop { attempt: (i.drop_retries + 1) as u32 }
            }
        } else {
            StageAction::AwaitUnload
        }
    } else {
        StageAction::CompleteDelivery {
            reason: if i.battery_low {
                ReturnReason::LowBattery
            } else {
                ReturnReason::PostDelivery
            },
        }
    }
}

/// The next step for a robot observed as `i`.
pub open spec fn next_step(i: StageInputs, max_retries: u32) -> StageAction {
    if i.stage == TaskStage::ReturningToStation {
        return_step(i)
    } else if !i.has_task {
        if i.battery_low && !i.at_station {
            StageAction::ReturnForBattery { station_free: !(i.station_taken_now || i.station_taken_soon) }
        } else {
            StageAction::Nothing
        }
    } else {
        match i.stage {
            TaskStage::MovingToPickup => if i.path_complete && i.at_pickup {
                StageAction::StartPicking
            } else {
                StageAction::Nothing
            },
            TaskStage::Picking => if i.state == RobotState::MovingToDrop {
                StageAction::HeadToDropoff
            } else {
                StageAction::Nothing
            },
            TaskStage::MovingToDropoff => if i.path_complete && i.at_dropoff {
                StageAction::StartDelivering
            } else {
                StageAction::Nothing
            },
            TaskStage::Delivering => delivery_step(i, max_retries),
            _ => StageAction::Nothing,
        }
    }
}

/// The stage a robot is in after taking step `a` from stage `s`.
pub open spec fn stage_after(s: TaskStage, a: StageAction) -> TaskStage {
    match a {
        StageAction::StartPicking => TaskStage::Picking,
        StageAction::HeadToDropoff => TaskStage::MovingToDropoff,
        StageAction::StartDelivering => TaskStage::Delivering,
        StageAction::FailDropTimeout => TaskStage::Idle,
        StageAction::CompleteDelivery { .. } => TaskStage::ReturningToStation,
        StageAction::Charge { released } => if released {
            TaskStage::Idle
        } else {
            s
        },
        _ => s,
    }
}

/// Decide the next step for a robot observed as `inputs`, allowing
/// `max_drop_retries` drop retries.
pub fn decide_step(inputs: StageInputs, max_drop_retries: u32) -> (a: StageAction)
    ensures
        a == next_step(inputs, max_drop_retries),
{
    if inputs.stage == TaskStage::ReturningToStation {
        if inputs.at_station {
            if inputs.station_taken_now {
                return StageAction::StationOccupied;
            }
            return StageAction::Charge { released: inputs.battery_ok };
        }
        if inputs.path_complete {
            if inputs.station_taken_now || inputs.station_taken_soon {
                return StageAction::AwaitStation;
            }
            return StageAction::PlanReturn;
        }
        return StageAction::Nothing;
    }
    if !inputs.has_task {
        if inputs.battery_low && !inputs.at_station {
            return StageAction::ReturnForBattery {
                station_free: !(inputs.station_taken_now || inputs.station_taken_soon),
            };
        }
        return StageAction::Nothing;
    }
    match inputs.stage {
        TaskStage::MovingToPickup => {
            if inputs.path_complete && inputs.at_pickup {
                StageAction::StartPicking
            } else {
                StageAction::Nothing
            }
        },
        TaskStage::Picking => {
            if inputs.state == RobotState::MovingToDrop {
                StageAction::HeadToDropoff
            } else {
                StageAction::Nothing
            }
        },
        TaskStage::MovingToDropoff => {
            if inputs.path_complete && inputs.at_dropoff {
                StageAction::StartDelivering
            } else {
                StageAction::Nothing
            }
        },
        TaskStage::Delivering => {
            if inputs.state != RobotState::Idle {
                if inputs.carrying_cargo {
                    if !inputs.drop_retry_due {
                        StageAction::Nothing
                    } else if inputs.drop_retries >= max_drop_retries {
                        StageAction::FailDropTimeout
                    } else {
                        StageAction::RetryDrop { attempt: inputs.drop_retries + 1 }
                    }
                } else {
                    StageAction::AwaitUnload
                }
            } else {
                StageAction::CompleteDelivery {
                    reason: if inputs.battery_low {
                        ReturnReason::LowBattery
                    } else {
                        ReturnReason::PostDelivery
                    },
                }
            }
        },
        _ => StageAction::Nothing,
    }
}

/// A task moves forward through its stages in order: from moving to the
/// pickup, a step leads only to picking; from picking only to moving to
/// the dropoff; from there only to delivering; and a delivery ends only in
/// a return to the station or, when the drop is never confirmed, in idle.
pub proof fn law_stages_advance_in_order(i: StageInputs, max_retries: u32)
    requires
        i.has_task,
        i.stage != TaskStage::ReturningToStation,
    ensures
        i.stage == TaskStage::MovingToPickup ==> stage_after(i.stage, next_step(i, max_retries)) == TaskStage::MovingToPickup
            || stage_after(i.stage, next_step(i, max_retries)) == TaskStage::Picking,
        i.stage == TaskStage::Picking ==> stage_after(i.stage, next_step(i, max_retries)) == TaskStage::Picking
            || stage_after(i.stage, next_step(i, max_retries)) == TaskStage::MovingToDropoff,
        i.stage == TaskStage::MovingToDropoff ==> stage_after(i.stage, next_step(i, max_retries))
            == TaskStage::MovingToDropoff || stage_after(i.stage, next_step(i, max_retries)) == TaskStage::Delivering,
        i.stage == TaskStage::Delivering ==> stage_after(i.stage, next_step(i, max_retries)) == TaskStage::Delivering
            || stage_after(i.stage, next_step(i, max_retries)) == TaskStage::ReturningToStation || stage_after(
            i.stage,
            next_step(i, max_retries),
        ) == TaskStage::Idle,
{
}

/// Drop retries are bounded: a delivering robot is sent at most
/// `max_retries` extra drops; once that many were sent and the cargo is
/// still aboard when the wait runs out, the task fails.
pub proof fn law_drop_retries_bounded(i: StageInputs, max_retries: u32)
    requires
        i.has_task,
        i.stage == TaskStage::Delivering,
    ensures
        next_step(i, max_retries) matches StageAction::RetryDrop { attempt } ==> attempt <= max_retries
            && attempt == i.drop_retries + 1,
        i.state != RobotState::Idle && i.carrying_cargo && i.drop_retry_due && i.drop_retries >= max_retries
            ==> next_step(i, max_retries) == StageAction::FailDropTimeout,
{
}

/// A robot acts at a place only once it stands there: it starts picking
/// only at its pickup, starts delivering only at its dropoff, and charges
/// or finds its station occupied only at its station; each time after
/// finishing its path, and only in the stage that leads there. Conversely,
/// a robot with a task that finished its path at the place of its stage
/// does act there.
pub proof fn law_robots_act_only_where_they_stand(i: StageInputs, max_retries: u32)
    ensures
        next_step(i, max_retries) == StageAction::StartPicking ==> i.has_task && i.stage == TaskStage::MovingToPickup
            && i.path_complete && i.at_pickup,
        next_step(i, max_retries) == StageAction::StartDelivering ==> i.has_task && i.stage
            == TaskStage::MovingToDropoff && i.path_complete && i.at_dropoff,
        next_step(i, max_retries) is Charge ==> i.stage == TaskStage::ReturningToStation && i.at_station,
        next_step(i, max_retries) is StationOccupied ==> i.stage == TaskStage::ReturningToStation && i.at_station
            && i.station_taken_now,
        next_step(i, max_retries) is HeadToDropoff ==> i.has_task && i.stage == TaskStage::Picking && i.state
            == RobotState::MovingToDrop,
        i.has_task && i.stage == TaskStage::MovingToPickup && i.path_complete && i.at_pickup ==> next_step(
            i,
            max_retries,
        ) == StageAction::StartPicking,
        i.has_task && i.stage == TaskStage::MovingToDropoff && i.path_complete && i.at_dropoff ==> next_step(
            i,
            max_retries,
        ) == StageAction::StartDelivering,
        i.has_task && (i.stage == TaskStage::MovingToPickup || i.stage == TaskStage::MovingToDropoff) && !i.path_complete
            ==> next_step(i, max_retries) == StageAction::Nothing,
{
}

} // verus!
