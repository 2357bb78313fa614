use tessera::assignment::{check_assignment, AssignmentCheck, RobotSnapshot};
use tessera::console::{parse_coordinator_line, CoordinatorLine};
use tessera::grid_map::GridMap;
use tessera::lifecycle::{decide_step, StageAction, StageInputs};
use tessera::robot::RobotState;
use tessera::task_manager::{ReturnReason, TaskStage};
use tessera::tasks::TaskType;

fn idle_robot() -> RobotSnapshot {
    RobotSnapshot {
        state: RobotState::Idle,
        enabled: true,
        stage: TaskStage::Idle,
        return_reason: None,
        battery_ok: true,
    }
}

fn delivery(pickup: (usize, usize), dropoff: (usize, usize)) -> TaskType {
    TaskType::PickAndDeliver { pickup, dropoff, cargo_id: None }
}

#[test]
fn assignment_accepts_sound_task_for_idle_robot() {
    let map = GridMap::parse("x5 . v").unwrap();
    let d = check_assignment(idle_robot(), delivery((0, 0), (2, 0)), &map, true, true);
    assert_eq!(d.check, AssignmentCheck::Accept { pickup: (0, 0), dropoff: (2, 0) });
    assert!(!d.left_return);
}

#[test]
fn assignment_rejections_in_order() {
    let map = GridMap::parse("x5 . v").unwrap();
    let t = delivery((0, 0), (2, 0));
    let mut r = idle_robot();
    r.state = RobotState::Blocked;
    assert_eq!(check_assignment(r, t, &map, true, true).check, AssignmentCheck::RobotFaultedOrBlocked);
    let mut r = idle_robot();
    r.enabled = false;
    assert_eq!(check_assignment(r, t, &map, true, true).check, AssignmentCheck::RobotDisabled);
    let mut r = idle_robot();
    r.stage = TaskStage::MovingToPickup;
    assert_eq!(check_assignment(r, t, &map, true, true).check, AssignmentCheck::RobotBusy);
    let ret = TaskType::ReturnToStation { robot_id: 1 };
    assert_eq!(check_assignment(idle_robot(), ret, &map, true, true).check, AssignmentCheck::NoPickupLocation);
    let bad = delivery((1, 0), (2, 0));
    assert_eq!(check_assignment(idle_robot(), bad, &map, true, true).check, AssignmentCheck::InvalidTileCombination);
    assert_eq!(check_assignment(idle_robot(), t, &map, false, true).check, AssignmentCheck::PickupEmpty);
    assert_eq!(check_assignment(idle_robot(), t, &map, true, false).check, AssignmentCheck::DropoffFull);
}

#[test]
fn assignment_interrupts_returns() {
    let map = GridMap::parse("x5 . v").unwrap();
    let t = delivery((0, 0), (2, 0));
    let mut r = idle_robot();
    r.stage = TaskStage::ReturningToStation;
    r.return_reason = Some(ReturnReason::PostDelivery);
    let d = check_assignment(r, t, &map, true, true);
    assert!(d.left_return);
    assert!(matches!(d.check, AssignmentCheck::Accept { .. }));
    r.return_reason = Some(ReturnReason::LowBattery);
    r.battery_ok = false;
    let d = check_assignment(r, t, &map, true, true);
    assert_eq!(d.check, AssignmentCheck::LowBatteryReturn);
    assert!(!d.left_return);
    r.battery_ok = true;
    let d = check_assignment(r, t, &map, false, true);
    assert_eq!(d.check, AssignmentCheck::PickupEmpty);
    assert!(d.left_return);
    let mut charging = idle_robot();
    charging.state = RobotState::Charging;
    charging.stage = TaskStage::Delivering;
    assert!(matches!(check_assignment(charging, t, &map, true, true).check, AssignmentCheck::Accept { .. }));
}

fn inputs(stage: TaskStage) -> StageInputs {
    StageInputs {
        state: RobotState::Idle,
        stage,
        has_task: true,
        path_complete: false,
        at_pickup: false,
        at_dropoff: false,
        at_station: false,
        carrying_cargo: false,
        drop_retry_due: false,
        drop_retries: 0,
        battery_low: false,
        battery_ok: true,
        station_taken_now: false,
        station_taken_soon: false,
    }
}

#[test]
fn lifecycle_advances_through_stages() {
    let mut i = inputs(TaskStage::MovingToPickup);
    assert_eq!(decide_step(i, 3), StageAction::Nothing);
    i.path_complete = true;
    i.at_pickup = true;
    assert_eq!(decide_step(i, 3), StageAction::StartPicking);
    let mut i = inputs(TaskStage::Picking);
    assert_eq!(decide_step(i, 3), StageAction::Nothing);
    i.state = RobotState::MovingToDrop;
    assert_eq!(decide_step(i, 3), StageAction::HeadToDropoff);
    let mut i = inputs(TaskStage::MovingToDropoff);
    i.path_complete = true;
    i.at_dropoff = true;
    assert_eq!(decide_step(i, 3), StageAction::StartDelivering);
}

#[test]
fn lifecycle_delivery_retries_then_fails() {
    let mut i = inputs(TaskStage::Delivering);
    assert_eq!(decide_step(i, 3), StageAction::CompleteDelivery { reason: ReturnReason::PostDelivery });
    i.battery_low = true;
    assert_eq!(decide_step(i, 3), StageAction::CompleteDelivery { reason: ReturnReason::LowBattery });
    i.state = RobotState::MovingToDrop;
    assert_eq!(decide_step(i, 3), StageAction::AwaitUnload);
    i.carrying_cargo = true;
    assert_eq!(decide_step(i, 3), StageAction::Nothing);
    i.drop_retry_due = true;
    i.drop_retries = 2;
    assert_eq!(decide_step(i, 3), StageAction::RetryDrop { attempt: 3 });
    i.drop_retries = 3;
    assert_eq!(decide_step(i, 3), StageAction::FailDropTimeout);
}

#[test]
fn lifecycle_return_to_station() {
    let mut i = inputs(TaskStage::ReturningToStation);
    i.has_task = false;
    assert_eq!(decide_step(i, 3), StageAction::Nothing);
    i.path_complete = true;
    assert_eq!(decide_step(i, 3), StageAction::PlanReturn);
    i.station_taken_soon = true;
    assert_eq!(decide_step(i, 3), StageAction::AwaitStation);
    i.at_station = true;
    assert_eq!(decide_step(i, 3), StageAction::Charge { released: true });
    i.battery_ok = false;
    assert_eq!(decide_step(i, 3), StageAction::Charge { released: false });
    i.station_taken_now = true;
    assert_eq!(decide_step(i, 3), StageAction::StationOccupied);
    let mut idle = inputs(TaskStage::Idle);
    idle.has_task = false;
    idle.battery_low = true;
    assert_eq!(decide_step(idle, 3), StageAction::ReturnForBattery { station_free: true });
    idle.at_station = true;
    assert_eq!(decide_step(idle, 3), StageAction::Nothing);
}

#[test]
fn coordinator_console_lines() {
    assert_eq!(parse_coordinator_line(""), CoordinatorLine::Blank);
    assert_eq!(parse_coordinator_line("STATUS"), CoordinatorLine::Status);
    assert_eq!(parse_coordinator_line("g 2 5 7"), CoordinatorLine::Goto { robot_id: 2, x: 5, y: 7 });
    assert_eq!(parse_coordinator_line("goto 2 5 x"), CoordinatorLine::GotoUsage);
    assert_eq!(parse_coordinator_line("goto 2 5"), CoordinatorLine::Unknown);
    assert_eq!(parse_coordinator_line("?"), CoordinatorLine::Help);
    assert_eq!(parse_coordinator_line("Pause"), CoordinatorLine::MovedToOrchestrator);
}

use tessera::progress::ProgressClock;

#[test]
fn test_timeout_not_triggered_without_task() {
    let robot = ProgressClock::new(0);
    assert!(!robot.is_task_timed_out(1, 0));
}

#[test]
fn test_timeout_not_triggered_immediately() {
    let now = 500_000;
    let mut robot = ProgressClock::new(0);
    robot.current_task = Some(1);
    robot.mark_progress(now);
    assert!(!robot.is_task_timed_out(30, now));
}

#[test]
fn test_timeout_triggered_after_delay() {
    let now = 500_000;
    let mut robot = ProgressClock::new(0);
    robot.current_task = Some(1);
    robot.last_progress_ms = now - 2_000;
    assert!(robot.is_task_timed_out(1, now));
}

#[test]
fn test_mark_progress_resets_timeout() {
    let now = 500_000;
    let mut robot = ProgressClock::new(0);
    robot.current_task = Some(1);
    robot.last_progress_ms = now - 100_000;
    assert!(robot.is_task_timed_out(1, now));
    robot.mark_progress(now);
    assert!(!robot.is_task_timed_out(1, now));
}

#[test]
fn waiting_keeps_its_start_for_the_same_cell() {
    let mut robot = ProgressClock::new(0);
    robot.set_wait((2, 3), 1_000);
    robot.set_wait((2, 3), 4_500);
    assert_eq!(robot.wait_elapsed_secs(4_500), Some(3));
    robot.set_wait((2, 4), 5_000);
    assert_eq!(robot.wait_elapsed_secs(5_999), Some(0));
    robot.clear_wait();
    assert_eq!(robot.wait_elapsed_secs(9_000), None);
    assert_eq!(robot.waiting_for, None);
}
