use tessera::control_plane::{parse_plane_command, ManagedProcesses, PlaneCommand, PlaneStatus};
use tessera::grid_map::GridMap;
use tessera::inventory::ShelfInventory;

fn shelf_map() -> GridMap {
    GridMap::parse("x2 . v\n. x1 _").unwrap()
}

#[test]
fn inventory_starts_with_full_shelves() {
    let inv = ShelfInventory::from_map(&shelf_map());
    assert_eq!(inv.stock_at((0, 0)), Some((2, 2)));
    assert_eq!(inv.stock_at((1, 1)), Some((1, 1)));
    assert_eq!(inv.stock_at((2, 0)), None);
    assert!(inv.can_pickup((0, 0)));
    assert!(!inv.can_dropoff((0, 0)));
    assert!(inv.can_dropoff((2, 0)));
    assert!(inv.can_pickup((2, 0)));
}

#[test]
fn inventory_pickup_empties_shelf_then_stops() {
    let mut inv = ShelfInventory::from_map(&shelf_map());
    assert!(inv.pickup((1, 1)));
    assert_eq!(inv.stock_at((1, 1)), Some((0, 1)));
    assert!(!inv.can_pickup((1, 1)));
    assert!(!inv.pickup((1, 1)));
    assert_eq!(inv.stock_at((1, 1)), Some((0, 1)));
    assert!(inv.can_dropoff((1, 1)));
}

#[test]
fn inventory_dropoff_fills_shelf_and_dropoff_tiles_are_unbounded() {
    let mut inv = ShelfInventory::from_map(&shelf_map());
    assert!(!inv.dropoff((0, 0)));
    assert!(inv.pickup((0, 0)));
    assert!(inv.dropoff((0, 0)));
    assert_eq!(inv.stock_at((0, 0)), Some((2, 2)));
    assert!(!inv.dropoff((2, 0)));
    assert!(!inv.pickup((2, 0)));
}

#[test]
fn inventory_undo_restores_stock() {
    let mut inv = ShelfInventory::from_map(&shelf_map());
    assert!(inv.pickup((0, 0)));
    inv.undo_pickup((0, 0));
    assert_eq!(inv.stock_at((0, 0)), Some((2, 2)));
    assert!(inv.pickup((1, 1)));
    assert!(inv.dropoff((1, 1)));
    inv.undo_dropoff((1, 1));
    assert_eq!(inv.stock_at((1, 1)), Some((0, 1)));
}

#[test]
fn plane_commands_parse_ignoring_case_and_blanks() {
    assert_eq!(parse_plane_command("  START "), PlaneCommand::Start);
    assert_eq!(parse_plane_command("start-all"), PlaneCommand::Start);
    assert_eq!(parse_plane_command("stop-all"), PlaneCommand::Stop);
    assert_eq!(parse_plane_command("ps"), PlaneCommand::Status);
    assert_eq!(parse_plane_command("P"), PlaneCommand::Pause);
    assert_eq!(parse_plane_command("r"), PlaneCommand::Resume);
    assert_eq!(parse_plane_command("Verbose On"), PlaneCommand::Verbose(true));
    assert_eq!(parse_plane_command("v off"), PlaneCommand::Verbose(false));
    assert_eq!(parse_plane_command("reset"), PlaneCommand::Reset);
    assert_eq!(parse_plane_command("exit"), PlaneCommand::Quit);
    assert_eq!(parse_plane_command("?"), PlaneCommand::Help);
    assert_eq!(parse_plane_command("   "), PlaneCommand::Empty);
    assert_eq!(parse_plane_command(" Launch Now "), PlaneCommand::Unknown("launch now".to_string()));
}

#[test]
fn plane_status_and_stop_order() {
    let mut p = ManagedProcesses::new();
    assert!(!p.any_launched());
    assert_eq!(p.status_of("fleet_server", false), PlaneStatus::NotStarted);
    p.record_start("fleet_server");
    p.record_start("mission_control");
    assert!(p.any_launched());
    assert_eq!(p.status_of("fleet_server", false), PlaneStatus::Exited);
    assert_eq!(p.status_of("fleet_server", true), PlaneStatus::Running);
    assert_eq!(p.status_of("visualizer", false).label(), "not started");
    assert_eq!(p.take_stop_order(), vec!["mission_control".to_string(), "fleet_server".to_string()]);
    assert!(!p.any_launched());
}
