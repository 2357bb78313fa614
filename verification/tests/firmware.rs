use tessera::firmware::{command_outcome, CommandOutcome, FirmwareCommand, MotionChange, RejectReason, TimerStart};
use tessera::robot::RobotState;

#[test]
fn follow_path_infers_state_from_cargo() {
    let empty = command_outcome(FirmwareCommand::FollowPath { empty: false }, true, None, false, RobotState::Idle);
    assert_eq!(empty.rejection, None);
    assert_eq!(empty.state, RobotState::MovingToPickup);
    assert_eq!(empty.motion, MotionChange::LoadWaypoints);

    let loaded = command_outcome(FirmwareCommand::FollowPath { empty: false }, true, Some(7), false, RobotState::Picking);
    assert_eq!(loaded.state, RobotState::MovingToDrop);
    assert_eq!(loaded.cargo, Some(7));
}

#[test]
fn empty_follow_path_is_accepted_and_changes_nothing() {
    let o = command_outcome(FirmwareCommand::FollowPath { empty: true }, false, None, false, RobotState::Blocked);
    assert_eq!(
        o,
        CommandOutcome {
            rejection: None,
            state: RobotState::Blocked,
            cargo: None,
            timer: TimerStart::NoTimer,
            motion: MotionChange::Unchanged,
        }
    );
}

#[test]
fn return_to_station_sets_moving_to_station() {
    let o = command_outcome(FirmwareCommand::ReturnToStation { empty: false }, true, None, false, RobotState::Idle);
    assert_eq!(o.state, RobotState::MovingToStation);
    assert_eq!(o.motion, MotionChange::LoadWaypoints);
}

#[test]
fn fault_halts_and_sets_faulted() {
    let o = command_outcome(FirmwareCommand::Fault, true, Some(3), false, RobotState::MovingToDrop);
    assert_eq!(o.state, RobotState::Faulted);
    assert_eq!(o.cargo, Some(3));
    assert_eq!(o.motion, MotionChange::HaltAndClearQueue);
}

#[test]
fn invalid_targets_are_rejected_with_their_reason() {
    let cases = [
        (FirmwareCommand::MoveTo, RejectReason::InvalidTarget, "Invalid target"),
        (FirmwareCommand::MoveToPickup, RejectReason::InvalidPickupTarget, "Invalid pickup target"),
        (FirmwareCommand::MoveToDropoff, RejectReason::InvalidDropoffTarget, "Invalid dropoff target"),
        (FirmwareCommand::FollowPath { empty: false }, RejectReason::InvalidFollowPath, "Invalid FollowPath"),
        (FirmwareCommand::ReturnToStation { empty: false }, RejectReason::InvalidReturnToStation, "Invalid ReturnToStation"),
    ];
    for (cmd, reason, text) in cases {
        let o = command_outcome(cmd, false, None, false, RobotState::Idle);
        assert_eq!(o.rejection, Some(reason));
        assert_eq!(o.state, RobotState::Idle);
        assert_eq!(o.motion, MotionChange::Unchanged);
        assert_eq!(reason.text(), text);
    }
}

#[test]
fn pickup_and_drop_move_cargo_and_start_timers() {
    let p = command_outcome(FirmwareCommand::Pickup { cargo_id: 42 }, true, None, false, RobotState::MovingToPickup);
    assert_eq!(p.rejection, None);
    assert_eq!(p.state, RobotState::Picking);
    assert_eq!(p.cargo, Some(42));
    assert_eq!(p.timer, TimerStart::Pickup);

    let again = command_outcome(FirmwareCommand::Pickup { cargo_id: 43 }, true, Some(42), false, RobotState::Picking);
    assert_eq!(again.rejection, Some(RejectReason::AlreadyCarrying));
    assert_eq!(again.cargo, Some(42));
    assert_eq!(RejectReason::AlreadyCarrying.text(), "Robot already carrying cargo");

    let d = command_outcome(FirmwareCommand::Drop, true, Some(42), false, RobotState::Idle);
    assert_eq!(d.state, RobotState::MovingToDrop);
    assert_eq!(d.cargo, None);
    assert_eq!(d.timer, TimerStart::Drop);

    let none = command_outcome(FirmwareCommand::Drop, true, None, false, RobotState::Idle);
    assert_eq!(none.rejection, Some(RejectReason::NotCarrying));
    assert_eq!(RejectReason::NotCarrying.text(), "Robot not carrying cargo");
}

#[test]
fn return_to_charge_charges_only_at_station() {
    let at = command_outcome(FirmwareCommand::ReturnToCharge, true, None, true, RobotState::MovingToStation);
    assert_eq!(at.state, RobotState::Charging);
    assert_eq!(at.motion, MotionChange::Halt);
    let away = command_outcome(FirmwareCommand::ReturnToCharge, true, None, false, RobotState::MovingToStation);
    assert_eq!(away.state, RobotState::Idle);
}

#[test]
fn stop_keeps_state_and_clears_queue() {
    let o = command_outcome(FirmwareCommand::Stop, true, Some(1), false, RobotState::MovingToDrop);
    assert_eq!(o.state, RobotState::MovingToDrop);
    assert_eq!(o.motion, MotionChange::HaltAndClearQueue);
}

// A new simulated robot is idle at its station with no cargo; these take
// its commands through the decision the firmware makes.

#[test]
fn test_apply_move_command_uses_speed() {
    // MoveTo { target: [10.0, 0.25, 5.0], speed: 3.5 }: a usable target.
    let o = command_outcome(FirmwareCommand::MoveTo, true, None, true, RobotState::Idle);
    assert_eq!(o.rejection, None);
    assert_eq!(o.motion, MotionChange::SetTarget);
}

#[test]
fn test_apply_pickup_command() {
    let o = command_outcome(FirmwareCommand::Pickup { cargo_id: 42 }, true, None, true, RobotState::Idle);
    assert_eq!(o.cargo, Some(42));
    assert_eq!(o.state, RobotState::Picking);
    assert_eq!(o.timer, TimerStart::Pickup);
}

#[test]
fn test_apply_drop_command() {
    let o = command_outcome(FirmwareCommand::Drop, true, Some(42), true, RobotState::MovingToDrop);
    assert!(o.cargo.is_none());
    assert_eq!(o.timer, TimerStart::Drop);
    assert_eq!(o.state, RobotState::MovingToDrop);
}

#[test]
fn test_apply_stop_command() {
    let o = command_outcome(FirmwareCommand::Stop, true, None, true, RobotState::Idle);
    assert_eq!(o.rejection, None);
    assert_eq!(o.motion, MotionChange::HaltAndClearQueue);
}

#[test]
fn test_return_to_charge_when_away() {
    // The robot stands at (7, 7), away from its station at (4, 4).
    let o = command_outcome(FirmwareCommand::ReturnToCharge, true, None, false, RobotState::Idle);
    assert_eq!(o.motion, MotionChange::Halt);
    assert_eq!(o.state, RobotState::Idle);
}

#[test]
fn test_return_to_charge_when_at_station() {
    let o = command_outcome(FirmwareCommand::ReturnToCharge, true, None, true, RobotState::Idle);
    assert_eq!(o.motion, MotionChange::Halt);
    assert_eq!(o.state, RobotState::Charging);
}
