use tessera::grid_map::GridMap;
use tessera::task_manager::TaskStage;
use tessera::tracking::{accepted_tracking, stationary_refresh_due, staging_cell, stops_for_replan, PathCursor};

#[test]
fn path_cursor_walks_to_the_end() {
    let mut c = PathCursor::start(2);
    assert!(!c.complete());
    assert_eq!(c.next(), Some(0));
    c.advance();
    assert_eq!(c.next(), Some(1));
    c.advance();
    assert!(c.complete());
    assert_eq!(c.next(), None);
    c.advance();
    assert_eq!(c.index, 2);
    assert!(PathCursor::start(0).complete());
}

#[test]
fn accepting_a_task_heads_to_the_pickup() {
    let a = accepted_tracking(7, (1, 2), (3, 4), 5, true);
    assert_eq!(a.task, 7);
    assert_eq!(a.stage, TaskStage::MovingToPickup);
    assert_eq!((a.pickup, a.dropoff), ((1, 2), (3, 4)));
    assert_eq!(a.cursor, PathCursor { len: 5, index: 1 });
    assert!(a.send_path);
    let away = accepted_tracking(7, (1, 2), (3, 4), 5, false);
    assert_eq!(away.cursor.index, 0);
    let empty = accepted_tracking(7, (1, 2), (3, 4), 0, true);
    assert_eq!(empty.cursor, PathCursor { len: 0, index: 0 });
    assert!(!empty.send_path);
}

#[test]
fn held_cells_are_reserved_again_when_due() {
    let h = vec![(1, 1), (1, 2)];
    assert!(stationary_refresh_due(None, (1, 2), &h));
    assert!(!stationary_refresh_due(Some((100, (1, 2), &h)), (1, 2), &h));
    assert!(stationary_refresh_due(Some((500, (1, 2), &h)), (1, 2), &h));
    assert!(stationary_refresh_due(Some((100, (1, 1), &h)), (1, 2), &h));
    let other = vec![(1, 2)];
    assert!(stationary_refresh_due(Some((100, (1, 2), &other)), (1, 2), &h));
}

#[test]
fn robots_stop_only_for_another_robots_replan_on_their_next_cell() {
    let cells = vec![(0, 0), (1, 0), (2, 0)];
    assert!(stops_for_replan(false, true, Some((1, 0)), &cells));
    assert!(!stops_for_replan(true, true, Some((1, 0)), &cells));
    assert!(!stops_for_replan(false, false, Some((1, 0)), &cells));
    assert!(!stops_for_replan(false, true, Some((5, 5)), &cells));
    assert!(!stops_for_replan(false, true, None, &cells));
}

#[test]
fn robots_on_special_tiles_step_aside_to_nearest_ground() {
    let map = GridMap::parse("# # # #\n# _ . #\n# # # #").unwrap();
    assert_eq!(staging_cell(&map, (1, 1)), Some((2, 1)));
    assert_eq!(staging_cell(&map, (2, 1)), None);
    let closed = GridMap::parse("# # #\n# _ #\n# # #").unwrap();
    assert_eq!(staging_cell(&closed, (1, 1)), None);
}
