//! How a simulated robot answers a path command from the coordinator:
//! whether it accepts it, and what becomes of its state, its cargo, its
//! timers and its motion.
//!
//! The motion itself is simulated in world coordinates; what a command
//! decides needs only whether its target and speed are usable and whether
//! the robot stands at its charging station.
use vstd::prelude::*;
use crate::robot::RobotState;

verus! {

/// A path command, with what the decision reads of its payload.
#[derive(Debug, Clone, Copy, PartialEq, Eq)]
pub enum FirmwareCommand {
    /// Move to a target, the state inferred from the cargo.
    MoveTo,
    /// Move to a pickup location.
    MoveToPickup,
    /// Move to a dropoff location.
    MoveToDropoff,
    /// Follow waypoints, the state inferred from the cargo; `empty` when no
    /// waypoint was sent.
    FollowPath { empty: bool },
    /// Follow waypoints home to the charging station.
    ReturnToStation { empty: bool },
    /// Stop and forget the queued waypoints.
    Stop,
    /// Pick up cargo `cargo_id` here.
    Pickup { cargo_id: u32 },
    /// Drop the carried cargo here.
    Drop,
    /// Start charging if at the station.
    ReturnToCharge,
    /// Stop for good and report the fault.
    Fault,
}

/// Why a command was refused.
#[derive(Debug, Clone, Copy, PartialEq, Eq)]
pub enum RejectReason {
    InvalidTarget,
    InvalidPickupTarget,
    InvalidDropoffTarget,
    InvalidFollowPath,
    InvalidReturnToStation,
    AlreadyCarrying,
    NotCarrying,
}

/// What a command does to the robot's motion.
#[derive(Debug, Clone, Copy, PartialEq, Eq)]
pub enum MotionChange {
    /// Motion, target and queue stay as they were.
    Unchanged,
    /// The command's target and speed become the active target.
    SetTarget,
    /// The queue is replaced: the first waypoint becomes the target, the
    /// rest are queued, at the command's speed.
    LoadWaypoints,
    /// The robot halts (no velocity, no target); the queue stays.
    Halt,
    /// The robot halts and the queue is emptied.
    HaltAndClearQueue,
}

/// Which handling timer a command starts.
#[derive(Debug, Clone, Copy, PartialEq, Eq)]
pub enum TimerStart {
    NoTimer,
    /// The pickup delay; the robot then moves on to the dropoff.
    Pickup,
    /// The dropoff delay; the robot then becomes idle.
    Drop,
}

/// The robot's answer to a command and the changes it makes.
#[derive(Debug, Clone, Copy, PartialEq, Eq)]
pub struct CommandOutcome {
    /// `None` when accepted, else why it was refused.
    pub rejection: Option<RejectReason>,
    pub state: RobotState,
    pub cargo: Option<u32>,
    pub timer: TimerStart,
    pub motion: MotionChange,
}

/// The reason text reported for a refusal.
pub open spec fn reject_text(r: RejectReason) -> Seq<char> {
    match r {
        RejectReason::InvalidTarget => "Invalid target"@,
        RejectReason::InvalidPickupTarget => "Invalid pickup target"@,
        RejectReason::InvalidDropoffTarget => "Invalid dropoff target"@,
        RejectReason::InvalidFollowPath => "Invalid FollowPath"@,
        RejectReason::InvalidReturnToStation => "Invalid ReturnToStation"@,
        RejectReason::AlreadyCarrying => "Robot already carrying cargo"@,
        RejectReason::NotCarrying => "Robot not carrying cargo"@,
    }
}

/// A refusal: nothing about the robot changes.
pub open spec fn refused(r: RejectReason, carrying: Option<u32>, state: RobotState) -> CommandOutcome {
    CommandOutcome {
        rejection: Some(r),
        state,
        cargo: carrying,
        timer: TimerStart::NoTimer,
        motion: MotionChange::Unchanged,
    }
}

/// An acceptance with the given changes.
pub open spec fn taken(state: RobotState, cargo: Option<u32>, timer: TimerStart, motion: MotionChange) -> CommandOutcome {
    CommandOutcome { rejection: None, state, cargo, timer, motion }
}

/// The moving state a robot takes when the command does not say: toward
/// the dropoff when carrying cargo, toward a pickup otherwise.
pub open spec fn inferred_moving_state(carrying: Option<u32>) -> RobotState {
    if carrying is Some {
        RobotState::MovingToDrop
    } else {
        RobotState::MovingToPickup
    }
}

/// What command `cmd` does to a robot in `state` carrying `carrying`:
/// `target_valid` tells whether the command's (first) target and speed are
/// usable, `at_station` whether the robot stands at its charging station.
pub open spec fn command_outcome_spec(
    cmd: FirmwareCommand,
    target_valid: bool,
    carrying: Option<u32>,
    at_station: bool,
    state: RobotState,
) -> CommandOutcome {
    match cmd {
        FirmwareCommand::MoveTo => if !target_valid {
            refused(RejectReason::InvalidTarget, carrying, state)
        } else {
            taken(inferred_moving_state(carrying), carrying, TimerStart::NoTimer, MotionChange::SetTarget)
        },
        FirmwareCommand::MoveToPickup => if !target_valid {
            refused(RejectReason::InvalidPickupTarget, carrying, state)
        } else {
            taken(RobotState::MovingToPickup, carrying, TimerStart::NoTimer, MotionChange::SetTarget)
        },
        FirmwareCommand::MoveToDropoff => if !target_valid {
            refused(RejectReason::InvalidDropoffTarget, carrying, state)
        } else {
            taken(RobotState::MovingToDrop, carrying, TimerStart::NoTimer, MotionChange::SetTarget)
        },
        FirmwareCommand::FollowPath { empty } => if empty {
            taken(state, carrying, TimerStart::NoTimer, MotionChange::Unchanged)
        } else if !target_valid {
            refused(RejectReason::InvalidFollowPath, carrying, state)
        } else {
            taken(inferred_moving_state(carrying), carrying, TimerStart::NoTimer, MotionChange::LoadWaypoints)
        },
        FirmwareCommand::ReturnToStation { empty } => if empty {
            taken(state, carrying, TimerStart::NoTimer, MotionChange::Unchanged)
        } else if !target_valid {
            refused(RejectReason::InvalidReturnToStation, carrying, state)
        } else {
            taken(RobotState::MovingToStation, carrying, TimerStart::NoTimer, MotionChange::LoadWaypoints)
        },
        FirmwareCommand::Stop => taken(state, carrying, TimerStart::NoTimer, MotionChange::HaltAndClearQueue),
        FirmwareCommand::Pickup { cargo_id } => if carrying is Some {
            refused(RejectReason::AlreadyCarrying, carrying, state)
        } else {
            taken(RobotState::Picking, Some(cargo_id), TimerStart::Pickup, MotionChange::Unchanged)
        },
        FirmwareCommand::Drop => if carrying is None {
            refused(RejectReason::NotCarrying, carrying, state)
        } else {
            taken(RobotState::MovingToDrop, None, TimerStart::Drop, MotionChange::Unchanged)
        },
        FirmwareCommand::ReturnToCharge => taken(
            if at_station {
                RobotState::Charging
            } else {
                RobotState::Idle
            },
            carrying,
            TimerStart::NoTimer,
            MotionChange::Halt,
        ),
        FirmwareCommand::Fault => taken(RobotState::Faulted, carrying, TimerStart::NoTimer, MotionChange::HaltAndClearQueue),
    }
}

/// The moving state a robot takes when the command does not say.
fn inferred_moving(carrying: Option<u32>) -> (s: RobotState)
    ensures
        s == inferred_moving_state(carrying),
{
    match carrying {
        Some(_) => RobotState::MovingToDrop,
        None => RobotState::MovingToPickup,
    }
}

fn refuse(r: RejectReason, carrying: Option<u32>, state: RobotState) -> (o: CommandOutcome)
    ensures
        o == refused(r, carrying, state),
{
    CommandOutcome {
        rejection: Some(r),
        state,
        cargo: carrying,
        timer: TimerStart::NoTimer,
        motion: MotionChange::Unchanged,
    }
}

fn take(state: RobotState, cargo: Option<u32>, timer: TimerStart, motion: MotionChange) -> (o: CommandOutcome)
    ensures
        o == taken(state, cargo, timer, motion),
{
    CommandOutcome { rejection: None, state, cargo, timer, motion }
}

/// Decide how a robot answers command `cmd`; see `command_outcome_spec`.
pub fn command_outcome(
    cmd: FirmwareCommand,
    target_valid: bool,
    carrying: Option<u32>,
    at_station: bool,
    state: RobotState,
) -> (o: CommandOutcome)
    ensures
        o == command_outcome_spec(cmd, target_valid, carrying, at_station, state),
{
    match cmd {
        FirmwareCommand::MoveTo => if !target_valid {
            refuse(RejectReason::InvalidTarget, carrying, state)
        } else {
            take(inferred_moving(carrying), carrying, TimerStart::NoTimer, MotionChange::SetTarget)
        },
        FirmwareCommand::MoveToPickup => if !target_valid {
            refuse(RejectReason::InvalidPickupTarget, carrying, state)
        } else {
            take(RobotState::MovingToPickup, carrying, TimerStart::NoTimer, MotionChange::SetTarget)
        },
        FirmwareCommand::MoveToDropoff => if !target_valid {
            refuse(RejectReason::InvalidDropoffTarget, carrying, state)
        } else {
            take(RobotState::MovingToDrop, carrying, TimerStart::NoTimer, MotionChange::SetTarget)
        },
        FirmwareCommand::FollowPath { empty } => if empty {
            take(state, carrying, TimerStart::NoTimer, MotionChange::Unchanged)
        } else if !target_valid {
            refuse(RejectReason::InvalidFollowPath, carrying, state)
        } else {
            take(inferred_moving(carrying), carrying, TimerStart::NoTimer, MotionChange::LoadWaypoints)
        },
        FirmwareCommand::ReturnToStation { empty } => if empty {
            take(state, carrying, TimerStart::NoTimer, MotionChange::Unchanged)
        } else if !target_valid {
            refuse(RejectReason::InvalidReturnToStation, carrying, state)
        } else {
            take(RobotState::MovingToStation, carrying, TimerStart::NoTimer, MotionChange::LoadWaypoints)
        },
        FirmwareCommand::Stop => take(state, carrying, TimerStart::NoTimer, MotionChange::HaltAndClearQueue),
        FirmwareCommand::Pickup { cargo_id } => match carrying {
            Some(_) => refuse(RejectReason::AlreadyCarrying, carrying, state),
            None => take(RobotState::Picking, Some(cargo_id), TimerStart::Pickup, MotionChange::Unchanged),
        },
        FirmwareCommand::Drop => match carrying {
            None => refuse(RejectReason::NotCarrying, carrying, state),
            Some(_) => take(RobotState::MovingToDrop, None, TimerStart::Drop, MotionChange::Unchanged),
        },
        FirmwareCommand::ReturnToCharge => {
            let s = if at_station {
                RobotState::Charging
            } else {
                RobotState::Idle
            };
            take(s, carrying, TimerStart::NoTimer, MotionChange::Halt)
        },
        FirmwareCommand::Fault => take(RobotState::Faulted, carrying, TimerStart::NoTimer, MotionChange::HaltAndClearQueue),
    }
}

impl RejectReason {
    /// The reason text reported to the coordinator.
    pub fn text(&self) -> (s: &'static str)
        ensures
            s@ == reject_text(*self),
    {
        match self {
            RejectReason::InvalidTarget => "Invalid target",
            RejectReason::InvalidPickupTarget => "Invalid pickup target",
            RejectReason::InvalidDropoffTarget => "Invalid dropoff target",
            RejectReason::InvalidFollowPath => "Invalid FollowPath",
            RejectReason::InvalidReturnToStation => "Invalid ReturnToStation",
            RejectReason::AlreadyCarrying => "Robot already carrying cargo",
            RejectReason::NotCarrying => "Robot not carrying cargo",
        }
    }
}

/// A refused command changes nothing about the robot: its state and cargo
/// stay, no timer starts and its motion is untouched.
pub proof fn law_refused_command_changes_nothing(
    cmd: FirmwareCommand,
    target_valid: bool,
    carrying: Option<u32>,
    at_station: bool,
    state: RobotState,
)
    ensures
        ({
            let o = command_outcome_spec(cmd, target_valid, carrying, at_station, state);
            o.rejection is Some ==> o.state == state && o.cargo == carrying && o.timer == TimerStart::NoTimer
                && o.motion == MotionChange::Unchanged
        }),
{
}

/// A robot keeps its cargo across every accepted command but a pickup,
/// which loads the named cargo, and a drop, which unloads it.
pub proof fn law_cargo_changes_only_on_pickup_and_drop(
    cmd: FirmwareCommand,
    target_valid: bool,
    carrying: Option<u32>,
    at_station: bool,
    state: RobotState,
)
    ensures
        ({
            let o = command_outcome_spec(cmd, target_valid, carrying, at_station, state);
            &&& (cmd is Pickup && o.rejection is None) ==> o.cargo == Some(cmd->cargo_id)
            &&& (cmd is Drop && o.rejection is None) ==> o.cargo is None
            &&& !(cmd is Pickup) && !(cmd is Drop) ==> o.cargo == carrying
        }),
{
}

/// Every accepted command leaves the robot in the state it names: a move
/// without a stated purpose (`MoveTo`, or a non-empty `FollowPath`) heads
/// to the drop exactly when the robot carries cargo and to a pickup
/// otherwise; `MoveToPickup` heads to a pickup, `MoveToDropoff` to the drop,
/// a non-empty `ReturnToStation` to the station; a pickup starts picking, a
/// drop keeps the robot moving to the drop while it unloads, and a fault
/// faults it.
pub proof fn law_accepted_commands_set_their_state(
    cmd: FirmwareCommand,
    target_valid: bool,
    carrying: Option<u32>,
    at_station: bool,
    state: RobotState,
)
    ensures
        ({
            let o = command_outcome_spec(cmd, target_valid, carrying, at_station, state);
            &&& (cmd is MoveTo || cmd == FirmwareCommand::FollowPath { empty: false }) && o.rejection is None ==> {
                &&& (o.state == RobotState::MovingToDrop <==> carrying is Some)
                &&& (o.state == RobotState::MovingToPickup <==> carrying is None)
            }
            &&& cmd is MoveToPickup && o.rejection is None ==> o.state == RobotState::MovingToPickup
            &&& cmd is MoveToDropoff && o.rejection is None ==> o.state == RobotState::MovingToDrop
            &&& cmd == FirmwareCommand::ReturnToStation { empty: false } && o.rejection is None ==> o.state
                == RobotState::MovingToStation
            &&& cmd is Pickup && o.rejection is None ==> o.state == RobotState::Picking
            &&& cmd is Drop && o.rejection is None ==> o.state == RobotState::MovingToDrop
            &&& cmd is Fault ==> o.rejection is None && o.state == RobotState::Faulted
            &&& cmd is ReturnToCharge ==> o.rejection is None && (o.state == RobotState::Charging <==> at_station)
        }),
{
}

/// A command is refused exactly for its stated reason: a move with an
/// unusable target (a non-empty path whose first waypoint or speed is
/// unusable), a pickup while carrying, a drop while empty; every other
/// command is accepted.
pub proof fn law_commands_refused_only_for_their_reason(
    cmd: FirmwareCommand,
    target_valid: bool,
    carrying: Option<u32>,
    at_station: bool,
    state: RobotState,
)
    ensures
        ({
            let o = command_outcome_spec(cmd, target_valid, carrying, at_station, state);
            o.rejection is Some <==> {
                ||| (cmd is MoveTo || cmd is MoveToPickup || cmd is MoveToDropoff) && !target_valid
                ||| (cmd == FirmwareCommand::FollowPath { empty: false } || cmd == FirmwareCommand::ReturnToStation {
                    empty: false,
                }) && !target_valid
                ||| cmd is Pickup && carrying is Some
                ||| cmd is Drop && carrying is None
            }
        }),
{
}

} // verus!
