use tessera::task_manager::TaskStage;
use tessera::watchdog::{
    replan_send, replan_target, watchdog_decide, PathSend, ReplanTarget, WatchdogAction, RESERVATION_WAIT_OVERRIDE_SECS,
};

#[test]
fn watchdog_skips_picking_or_finished_robots() {
    let d = watchdog_decide(true, false, true, true, Some(20), true, true, TaskStage::Picking);
    assert_eq!(d.action, WatchdogAction::Skip);
    assert!(d.path_sent);
    assert!(!d.clear_wait);
    let d = watchdog_decide(false, true, false, false, None, false, false, TaskStage::Idle);
    assert_eq!(d.action, WatchdogAction::Skip);
    assert!(!d.path_sent);
}

#[test]
fn watchdog_stops_a_robot_whose_sent_path_is_blocked() {
    let d = watchdog_decide(false, false, true, true, Some(1), true, true, TaskStage::MovingToPickup);
    assert_eq!(d.action, WatchdogAction::StopAndHold);
    assert!(!d.path_sent);
    assert!(!d.clear_wait);
    assert!(!d.overridden);
}

#[test]
fn watchdog_overrides_a_long_wait_and_resends() {
    let d = watchdog_decide(
        false,
        false,
        true,
        true,
        Some(RESERVATION_WAIT_OVERRIDE_SECS),
        true,
        true,
        TaskStage::MovingToDropoff,
    );
    assert!(d.overridden);
    assert!(d.clear_wait);
    assert_eq!(d.action, WatchdogAction::Send(PathSend::FollowPath));
    assert!(d.path_sent);
}

#[test]
fn watchdog_sends_unsent_paths_by_stage() {
    let d = watchdog_decide(false, false, true, false, None, false, true, TaskStage::ReturningToStation);
    assert_eq!(d.action, WatchdogAction::Send(PathSend::ReturnToStation));
    assert!(d.clear_wait);
    assert!(d.path_sent);
    let d = watchdog_decide(false, false, true, false, None, true, true, TaskStage::MovingToPickup);
    assert_eq!(d.action, WatchdogAction::NoCommand);
    assert!(d.path_sent);
    let d = watchdog_decide(false, false, true, false, None, false, false, TaskStage::MovingToPickup);
    assert_eq!(d.action, WatchdogAction::NoCommand);
    assert!(!d.path_sent);
}

#[test]
fn replan_heads_where_the_stage_goes() {
    assert_eq!(replan_target(TaskStage::MovingToPickup, true, true, false), Some(ReplanTarget::Pickup));
    assert_eq!(replan_target(TaskStage::MovingToPickup, true, false, true), None);
    assert_eq!(replan_target(TaskStage::MovingToDropoff, true, false, true), Some(ReplanTarget::Dropoff));
    assert_eq!(replan_target(TaskStage::Delivering, false, true, true), None);
    assert_eq!(replan_target(TaskStage::ReturningToStation, false, false, false), Some(ReplanTarget::Station));
    assert_eq!(replan_target(TaskStage::Idle, true, true, true), None);
    assert_eq!(replan_send(ReplanTarget::Station), PathSend::ReturnToStation);
    assert_eq!(replan_send(ReplanTarget::Dropoff), PathSend::FollowPath);
}
