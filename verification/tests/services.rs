use tessera::chaos::{
    fault_strikes, get_message_delay_ms, should_battery_glitch, should_crash, should_drop_packet,
    should_reject_command, should_send_stale_state,
};
use tessera::commands::{CommandResponse, CommandStatus, RobotControl, SystemCommand, SystemCommandEffect};
use tessera::grid_map::{GridMap, TileType};
use tessera::task_manager::{
    find_nearest_non_special_ground_tile, inventory_milestone_for_stage, is_interruptible_return_reason,
    is_non_special_ground_tile, is_special_tile, tile_type_at, validate_pickup_dropoff, InventoryMilestone,
    ReturnReason, TaskStage,
};

#[test]
fn test_chaos_disabled_returns_safe_defaults() {
    assert!(!should_drop_packet(false));
    assert!(!should_reject_command(false));
    assert!(!should_send_stale_state(false));
    assert!(!should_battery_glitch(false));
    assert!(!should_crash(false));
    assert_eq!(get_message_delay_ms(false), 0);
}

#[test]
fn chaos_fault_strikes_below_rate_only() {
    assert!(fault_strikes(true, true, 9, 10));
    assert!(!fault_strikes(true, true, 10, 10));
    assert!(!fault_strikes(false, true, 0, 10));
    assert!(!fault_strikes(true, false, 0, 10));
    // Crashes are switched off in the configuration.
    for _ in 0..100 {
        assert!(!should_crash(true));
    }
}

#[test]
fn test_validate_pickup_dropoff_shelf_to_dropoff() {
    let map = GridMap::parse("x5 . v").unwrap();
    assert!(validate_pickup_dropoff(&map, (0, 0), (2, 0)));
}

#[test]
fn test_validate_pickup_dropoff_shelf_to_shelf() {
    let map = GridMap::parse("x5 . x3").unwrap();
    assert!(validate_pickup_dropoff(&map, (0, 0), (2, 0)));
}

#[test]
fn test_validate_pickup_dropoff_ground_invalid() {
    let map = GridMap::parse(". . .").unwrap();
    assert!(!validate_pickup_dropoff(&map, (0, 0), (2, 0)));
}

#[test]
fn validate_pickup_dropoff_other_pairs() {
    let map = GridMap::parse("v . x2 v").unwrap();
    assert!(validate_pickup_dropoff(&map, (0, 0), (2, 0)));
    assert!(!validate_pickup_dropoff(&map, (0, 0), (3, 0)));
    assert!(!validate_pickup_dropoff(&map, (2, 0), (1, 0)));
    assert!(!validate_pickup_dropoff(&map, (2, 0), (9, 9)));
}

#[test]
fn test_interruptible_return_reason_helper() {
    assert!(is_interruptible_return_reason(Some(ReturnReason::PostDelivery)));
    assert!(!is_interruptible_return_reason(Some(ReturnReason::LowBattery)));
    assert!(!is_interruptible_return_reason(None));
}

#[test]
fn test_is_special_tile_detection() {
    let map = GridMap::parse("v _ x5 .").unwrap();
    assert!(is_special_tile(&map, (0, 0)));
    assert!(is_special_tile(&map, (1, 0)));
    assert!(is_special_tile(&map, (2, 0)));
    assert!(!is_special_tile(&map, (3, 0)));
}

#[test]
fn ground_tiles_and_tile_types() {
    let map = GridMap::parse("v . #").unwrap();
    assert!(is_non_special_ground_tile(&map, (1, 0)));
    assert!(!is_non_special_ground_tile(&map, (0, 0)));
    assert!(!is_non_special_ground_tile(&map, (2, 0)));
    assert_eq!(tile_type_at(&map, (2, 0)), Some(TileType::Wall));
    assert_eq!(tile_type_at(&map, (3, 0)), None);
}

#[test]
fn test_find_nearest_non_special_ground_tile_from_dropoff() {
    let map = GridMap::parse("v . #\n# . _\n# # .").unwrap();
    let nearest = find_nearest_non_special_ground_tile(&map, (0, 0));
    assert_eq!(nearest, Some((1, 0)));
}

#[test]
fn test_find_nearest_non_special_ground_tile_none_when_absent() {
    let map = GridMap::parse("v _\n# #").unwrap();
    let nearest = find_nearest_non_special_ground_tile(&map, (0, 0));
    assert_eq!(nearest, None);
}

#[test]
fn nearest_ground_from_ground_is_itself() {
    let map = GridMap::parse(". v .").unwrap();
    assert_eq!(find_nearest_non_special_ground_tile(&map, (2, 0)), Some((2, 0)));
}

#[test]
fn inventory_milestones_follow_stages() {
    assert_eq!(inventory_milestone_for_stage(TaskStage::MovingToPickup), InventoryMilestone::Reserved);
    assert_eq!(inventory_milestone_for_stage(TaskStage::Delivering), InventoryMilestone::PickupConfirmed);
}

#[test]
fn command_responses() {
    let ok = CommandResponse::accepted(7, 3);
    assert_eq!(ok.cmd_id, 7);
    assert_eq!(ok.robot_id, 3);
    assert_eq!(ok.status, CommandStatus::Accepted);
    let no = CommandResponse::rejected(8, 3, "busy".to_string());
    assert_eq!(no.status, CommandStatus::Rejected { reason: "busy".to_string() });
    assert_eq!(RobotControl::Restart(5).id(), 5);
}

#[test]
fn test_system_command_pause() {
    let mut paused = false;
    let effect = SystemCommand::Pause.apply(Some(&mut paused), None, None);

    assert!(paused);
    assert_eq!(effect, SystemCommandEffect::Paused(true));
}

#[test]
fn test_system_command_resume() {
    let mut paused = true;
    let effect = SystemCommand::Resume.apply(Some(&mut paused), None, None);

    assert!(!paused);
    assert_eq!(effect, SystemCommandEffect::Paused(false));
}

#[test]
fn test_system_command_verbose_on() {
    let mut verbose = false;
    let effect = SystemCommand::Verbose(true).apply(None, Some(&mut verbose), None);

    assert!(verbose);
    assert_eq!(effect, SystemCommandEffect::Verbose(true));
}

#[test]
fn test_system_command_verbose_off() {
    let mut verbose = true;
    let effect = SystemCommand::Verbose(false).apply(None, Some(&mut verbose), None);

    assert!(!verbose);
    assert_eq!(effect, SystemCommandEffect::Verbose(false));
}

#[test]
fn test_system_command_chaos_on() {
    let mut chaos = false;
    let effect = SystemCommand::Chaos(true).apply(None, None, Some(&mut chaos));

    assert!(chaos);
    assert_eq!(effect, SystemCommandEffect::Chaos(true));
}

#[test]
fn test_system_command_chaos_off() {
    let mut chaos = true;
    let effect = SystemCommand::Chaos(false).apply(None, None, Some(&mut chaos));

    assert!(!chaos);
    assert_eq!(effect, SystemCommandEffect::Chaos(false));
}

#[test]
fn test_system_command_with_none_state() {
    let effect = SystemCommand::Pause.apply(None, None, None);
    assert_eq!(effect, SystemCommandEffect::Paused(true));
}

#[test]
fn system_command_leaves_untouched_flags() {
    let mut paused = true;
    let mut verbose = false;
    let mut chaos = true;
    let effect = SystemCommand::SetTimeScale(2500).apply(
        Some(&mut paused),
        Some(&mut verbose),
        Some(&mut chaos),
    );
    assert_eq!(effect, SystemCommandEffect::TimeScale(2500));
    assert!(paused);
    assert!(!verbose);
    assert!(chaos);
}
