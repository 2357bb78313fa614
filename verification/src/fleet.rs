//! The fleet server's task handling: which assigned tasks it can route,
//! and how a robot's firmware state moves its task along.
use vstd::prelude::*;
use crate::grid_map::GridMap;
use crate::robot::RobotState;
use crate::search::Pos;
use crate::task_manager::{TaskStage, type_at, valid_pair, validate_pickup_dropoff};
use crate::tasks::{TaskType, pickup_of, target_of};

verus! {

/// The fleet server's verdict on an assigned task.
#[derive(Debug, Clone, Copy, PartialEq, Eq)]
pub enum FleetCheck {
    /// The task has no pickup location; it is ignored.
    NoPickupLocation,
    /// The task has no dropoff location; it is ignored.
    NoDropoffLocation,
    /// The pickup and dropoff tiles do not make a valid pair; the task fails.
    InvalidTileCombination,
    /// Route the robot to `pickup`, then to `dropoff`.
    Accept { pickup: Pos, dropoff: Pos },
}

/// The verdict on a task of type `t` on `map`.
pub open spec fn fleet_checked(t: TaskType, map: GridMap) -> FleetCheck {
    match (pickup_of(t), target_of(t)) {
        (None, _) => FleetCheck::NoPickupLocation,
        (Some(_), None) => FleetCheck::NoDropoffLocation,
        (Some(p), Some(d)) => if valid_pair(type_at(map, p), type_at(map, d)) {
            FleetCheck::Accept { pickup: p, dropoff: d }
        } else {
            FleetCheck::InvalidTileCombination
        },
    }
}

/// Check a task assigned to a robot of the fleet server.
pub fn check_fleet_task(task_type: TaskType, map: &GridMap) -> (c: FleetCheck)
    ensures
        c == fleet_checked(task_type, *map),
{
    let (pickup, dropoff) = match task_type {
        TaskType::PickAndDeliver { pickup, dropoff, .. } => (pickup, dropoff),
        TaskType::Relocate { from, to } => (from, to),
        TaskType::ReturnToStation { .. } => {
            return FleetCheck::NoPickupLocation;
        },
    };
    if validate_pickup_dropoff(map, pickup, dropoff) {
        FleetCheck::Accept { pickup, dropoff }
    } else {
        FleetCheck::InvalidTileCombination
    }
}

/// What the fleet server does for a robot with a task on a pass.
#[derive(Debug, Clone, Copy, PartialEq, Eq, Structural)]
pub enum FleetStep {
    Nothing,
    /// The robot picked up its cargo: route it to the dropoff.
    RouteToDropoff,
    /// The robot is idle after its delivery: the task is complete.
    Complete,
}

/// The step for a robot at `stage` whose firmware reports `state`.
pub open spec fn fleet_step_of(state: RobotState, stage: TaskStage) -> FleetStep {
    if state == RobotState::Picking && stage == TaskStage::MovingToPickup {
        FleetStep::RouteToDropoff
    } else if state == RobotState::Idle && (stage == TaskStage::MovingToDropoff || stage == TaskStage::Delivering) {
        FleetStep::Complete
    } else {
        FleetStep::Nothing
    }
}

/// Decide the step for a robot with a task.
pub fn fleet_step(state: RobotState, stage: TaskStage) -> (s: FleetStep)
    ensures
        s == fleet_step_of(state, stage),
{
    if state == RobotState::Picking && stage == TaskStage::MovingToPickup {
        FleetStep::RouteToDropoff
    } else if state == RobotState::Idle && (stage == TaskStage::MovingToDropoff || stage == TaskStage::Delivering) {
        FleetStep::Complete
    } else {
        FleetStep::Nothing
    }
}

} // verus!
