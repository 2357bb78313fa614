use tessera::astar::{is_adjacent, AStarPathfinder};
use tessera::dispatch::PathfinderInstance;
use tessera::grid_map::GridMap;
use tessera::route::{find_path, is_reachable_on_map};
use tessera::whca::WHCAPathfinder;

// ---------------------------------------------------------------------------
// A*
// ---------------------------------------------------------------------------

#[test]
fn astar_test_simple_path() {
    let map_str = r#"
            . . . . .
            . # # # .
            . . . . .
        "#;
    let map = GridMap::parse(map_str).unwrap();
    let pathfinder = AStarPathfinder::new();

    let result = pathfinder.find_path(&map, (0, 0), (4, 0));
    assert!(result.is_some());

    let result = result.unwrap();
    assert_eq!(result.grid_path.first(), Some(&(0, 0)));
    assert_eq!(result.grid_path.last(), Some(&(4, 0)));
    // One world waypoint is derived per grid cell.
    assert!(!result.grid_path.is_empty());
}

#[test]
fn astar_test_no_path() {
    let map_str = r#"
            . # .
            . # .
            . # .
        "#;
    let map = GridMap::parse(map_str).unwrap();
    let pathfinder = AStarPathfinder::new();

    let result = pathfinder.find_path(&map, (0, 0), (2, 0));
    assert!(result.is_none());
}

#[test]
fn astar_test_already_at_goal() {
    let map_str = ". . .";
    let map = GridMap::parse(map_str).unwrap();
    let pathfinder = AStarPathfinder::new();

    let result = pathfinder.find_path(&map, (1, 0), (1, 0));
    assert!(result.is_some());

    let result = result.unwrap();
    assert_eq!(result.grid_path.len(), 1);
    assert_eq!(result.cost, 0);
}

#[test]
fn test_path_around_obstacle() {
    let map_str = r#"
            . . . . .
            . . # . .
            . . . . .
        "#;
    let map = GridMap::parse(map_str).unwrap();
    let pathfinder = AStarPathfinder::new();

    let result = pathfinder.find_path(&map, (0, 1), (4, 1));
    assert!(result.is_some());

    let result = result.unwrap();
    assert!(!result.grid_path.contains(&(2, 1)));
}

#[test]
fn test_unwalkable_start_or_goal() {
    let map_str = r#"
            . # .
            . . .
        "#;
    let map = GridMap::parse(map_str).unwrap();
    let pathfinder = AStarPathfinder::new();

    assert!(pathfinder.find_path(&map, (1, 0), (2, 0)).is_none());
    assert!(pathfinder.find_path(&map, (0, 0), (1, 0)).is_none());
}

#[test]
fn astar_test_pathfinder_name() {
    let pathfinder = AStarPathfinder::new();
    assert_eq!(pathfinder.name(), "A*");
}

#[test]
fn test_find_path_to_non_walkable_shelf() {
    let map_str = r#"
            . . . . .
            . x . . .
            . . . . .
        "#;
    let map = GridMap::parse(map_str).unwrap();
    let pathfinder = AStarPathfinder::new();

    let result = pathfinder.find_path_to_non_walkable(&map, (0, 0), (1, 1));
    assert!(result.is_some());

    let result = result.unwrap();
    let last_pos = result.grid_path.last().unwrap();
    assert!(*last_pos != (1, 1));
    assert!(
        *last_pos == (1, 0) || *last_pos == (0, 1) || *last_pos == (1, 2) || *last_pos == (2, 1),
        "Last position {:?} should be adjacent to shelf (1,1)",
        last_pos
    );
}

#[test]
fn test_find_path_to_non_walkable_surrounded_shelf() {
    let map_str = r#"
            # # # # #
            # x # # #
            # # # # #
        "#;
    let map = GridMap::parse(map_str).unwrap();
    let pathfinder = AStarPathfinder::new();

    let result = pathfinder.find_path_to_non_walkable(&map, (0, 0), (1, 1));
    assert!(result.is_none());
}

#[test]
fn test_find_path_to_non_walkable_edge_accessible() {
    let map_str = r#"
            . # # # #
            . . x . #
            . # # # #
        "#;
    let map = GridMap::parse(map_str).unwrap();
    let pathfinder = AStarPathfinder::new();

    let result = pathfinder.find_path_to_non_walkable(&map, (0, 1), (2, 1));
    assert!(result.is_some());

    let result = result.unwrap();
    let last_pos = result.grid_path.last().unwrap();
    assert_eq!(*last_pos, (1, 1));
}

#[test]
fn astar_cost_counts_steps_of_shortest_path() {
    let map = GridMap::parse(". . . . .\n. # # # .\n. . . . .").unwrap();
    let result = AStarPathfinder::new().find_path(&map, (0, 2), (4, 2)).unwrap();
    assert_eq!(result.cost, 4);
    assert_eq!(result.grid_path, vec![(0, 2), (1, 2), (2, 2), (3, 2), (4, 2)]);
}

#[test]
fn astar_path_ignores_other_robots() {
    let map = GridMap::parse(". . .\n. . .").unwrap();
    let pathfinder = AStarPathfinder::new();
    let result = pathfinder.find_path_avoiding(&map, (0, 0), (2, 0), &[(7, (1, 0))]).unwrap();
    assert_eq!(result.grid_path, vec![(0, 0), (1, 0), (2, 0)]);
}

// ---------------------------------------------------------------------------
// WHCA*
// ---------------------------------------------------------------------------

#[test]
fn test_simple_path_no_conflicts() {
    let map_str = ". . . . .";
    let map = GridMap::parse(map_str).unwrap();
    let mut pathfinder = WHCAPathfinder::with_defaults();

    let result = pathfinder.find_path(&map, (0, 0), (4, 0));
    assert!(result.is_some());

    let result = result.unwrap();
    assert_eq!(result.grid_path.first(), Some(&(0, 0)));
    assert_eq!(result.grid_path.last(), Some(&(4, 0)));
}

#[test]
fn test_path_with_reservation() {
    let map_str = ". . . . .";
    let map = GridMap::parse(map_str).unwrap();
    let mut pathfinder = WHCAPathfinder::with_defaults();

    // A speed of 2 cells per second: 500 ms per step.
    pathfinder.reserve_path_timed(1, &[(1, 0), (2, 0), (3, 0)], &[500, 500]);

    let result = pathfinder.find_path(&map, (0, 0), (4, 0));
    assert!(result.is_some());
}

#[test]
fn whca_test_already_at_goal() {
    let map_str = ". . .";
    let map = GridMap::parse(map_str).unwrap();
    let mut pathfinder = WHCAPathfinder::with_defaults();

    let result = pathfinder.find_path(&map, (1, 0), (1, 0));
    assert!(result.is_some());

    let result = result.unwrap();
    assert_eq!(result.grid_path.len(), 1);
    assert_eq!(result.cost, 0);
}

#[test]
fn whca_test_no_path() {
    let map_str = r#"
            . # .
            . # .
            . # .
        "#;
    let map = GridMap::parse(map_str).unwrap();
    let mut pathfinder = WHCAPathfinder::with_defaults();

    let result = pathfinder.find_path(&map, (0, 0), (2, 0));
    assert!(result.is_none());
}

#[test]
fn whca_test_pathfinder_name() {
    let pathfinder = WHCAPathfinder::with_defaults();
    assert_eq!(pathfinder.name(), "WHCA*");
}

#[test]
fn test_clear_robot_reservations() {
    let mut pathfinder = WHCAPathfinder::with_defaults();

    pathfinder.reserve_path_timed_at(1, &[(0, 0), (1, 0), (2, 0)], &[500, 500], 0);
    pathfinder.reserve_path_timed_at(2, &[(0, 1), (1, 1), (2, 1)], &[500, 500], 0);

    pathfinder.clear_robot_reservations(1);

    for t in [0u64, 100, 500, 600, 1000, 1500] {
        assert!(!pathfinder.is_reserved_at((0, 0), t, None));
        assert!(!pathfinder.is_reserved_at((1, 0), t, None));
        assert!(!pathfinder.is_reserved_at((2, 0), t, None));
    }
    assert!(pathfinder.is_reserved_at((0, 1), 0, None));
    assert!(pathfinder.is_reserved_at((1, 1), 500, None));
    assert!(pathfinder.is_reserved_at((2, 1), 1000, None));
}

#[test]
fn clearing_a_robot_keeps_a_key_another_robot_took_over() {
    let mut pathfinder = WHCAPathfinder::with_defaults();

    pathfinder.reserve_stationary_at(1, (0, 0), 1000);
    pathfinder.reserve_stationary_at(2, (0, 0), 1000);
    pathfinder.clear_robot_reservations(1);

    assert!(pathfinder.is_reserved_at((0, 0), 1000, Some(1)));
    assert!(!pathfinder.is_reserved_at((0, 0), 1000, Some(2)));
}

#[test]
fn test_find_path_to_non_walkable() {
    let map_str = r#"
            . . . . .
            . x . . .
            . . . . .
        "#;
    let map = GridMap::parse(map_str).unwrap();
    let mut pathfinder = WHCAPathfinder::with_defaults();

    let result = pathfinder.find_path_to_non_walkable(&map, (0, 0), (1, 1));
    assert!(result.is_some());

    let result = result.unwrap();
    let last_pos = result.grid_path.last().unwrap();
    assert!(*last_pos != (1, 1));
    assert!(is_adjacent(*last_pos, (1, 1)));
}

#[test]
fn test_find_path_for_robot_strict_no_fallback_when_window_blocked() {
    let map_str = ". .";
    let map = GridMap::parse(map_str).unwrap();
    let mut pathfinder = WHCAPathfinder::new(500);

    pathfinder.reserve_stationary(1, (0, 0));
    pathfinder.reserve_stationary(1, (1, 0));

    let result = pathfinder.find_path_for_robot(&map, (1, 0), (0, 0), 2);
    assert!(result.is_none());
}

#[test]
fn test_edge_swap_conflict_blocks_unsafe_path() {
    let map_str = ". .";
    let map = GridMap::parse(map_str).unwrap();
    let mut pathfinder = WHCAPathfinder::with_defaults();

    pathfinder.reserve_path_timed(1, &[(0, 0), (1, 0)], &[500]);

    let result = pathfinder.find_path_for_robot(&map, (1, 0), (0, 0), 2);
    assert!(result.is_none());
}

#[test]
fn test_tradeoff_strict_vs_trait_head_on_corridor() {
    let map_str = ". .";
    let map = GridMap::parse(map_str).unwrap();

    let trials = 25;
    let mut strict_success = 0;
    let mut trait_success = 0;

    for _ in 0..trials {
        let mut pathfinder = WHCAPathfinder::with_defaults();
        pathfinder.reserve_path_timed(1, &[(0, 0), (1, 0)], &[500]);

        if pathfinder.find_path_for_robot(&map, (1, 0), (0, 0), 2).is_some() {
            strict_success += 1;
        }
        if pathfinder.find_path(&map, (1, 0), (0, 0)).is_some() {
            trait_success += 1;
        }
    }

    println!(
        "WHCA strict benchmark: strict_success={}/{} trait_success={}/{}",
        strict_success, trials, trait_success, trials
    );

    assert_eq!(strict_success, 0);
    assert_eq!(trait_success, 0);
}

#[test]
fn test_whca_stats_snapshot_and_reset() {
    let map_str = ". . . . .";
    let map = GridMap::parse(map_str).unwrap();
    let mut pathfinder = WHCAPathfinder::with_defaults();

    pathfinder.reset_stats();
    let _ = pathfinder.find_path(&map, (0, 0), (4, 0));
    let _ = pathfinder.find_path(&map, (0, 0), (0, 0));
    let _ = pathfinder.find_path(&map, (0, 0), (99, 0));

    let stats = pathfinder.stats_snapshot();
    assert!(stats.searches_total >= 3);
    assert!(stats.searches_succeeded >= 2);
    assert!(stats.searches_failed >= 1);
    assert!(stats.total_search_time_us >= stats.last_search_time_us);

    pathfinder.reset_stats();
    let reset = pathfinder.stats_snapshot();
    assert_eq!(reset.searches_total, 0);
    assert_eq!(reset.nodes_expanded_total, 0);
    assert_eq!(reset.total_search_time_us, 0);
}

#[test]
fn whca_tick_drops_only_expired_reservations() {
    let mut pathfinder = WHCAPathfinder::with_defaults();
    pathfinder.reserve_path_timed_at(1, &[(1, 1)], &[], 10);
    pathfinder.reserve_path_timed_at(2, &[(2, 2)], &[], 9000);

    pathfinder.tick_at(5000);

    assert!(!pathfinder.is_reserved_at((1, 1), 10, None));
    assert!(pathfinder.is_reserved_at((2, 2), 9000, None));
}

#[test]
fn whca_reserved_cell_is_free_for_its_holder() {
    let mut pathfinder = WHCAPathfinder::with_defaults();
    pathfinder.reserve_stationary_at(4, (3, 3), 100);
    assert!(pathfinder.is_reserved_at((3, 3), 100, None));
    assert!(pathfinder.is_reserved_at((3, 3), 100, Some(5)));
    assert!(!pathfinder.is_reserved_at((3, 3), 100, Some(4)));
}

#[test]
fn whca_plan_waits_for_reserved_cell() {
    let map = GridMap::parse(". . .").unwrap();
    let mut pathfinder = WHCAPathfinder::with_defaults();
    // Robot 1 stands on the middle cell for the stationary window.
    pathfinder.reserve_stationary(1, (1, 0));
    let result = pathfinder.find_path_for_robot(&map, (0, 0), (2, 0), 2);
    let result = result.unwrap();
    assert_eq!(result.grid_path.first(), Some(&(0, 0)));
    assert_eq!(result.grid_path.last(), Some(&(2, 0)));
    assert!(result.grid_path.len() > 3);
}

// ---------------------------------------------------------------------------
// Fleet server routes and reachability
// ---------------------------------------------------------------------------

#[test]
fn pathfinding_test_simple_path() {
    let map_str = r#"
            . . . . .
            . # # # .
            . . . . .
        "#;
    let map = GridMap::parse(map_str).unwrap();

    let path = find_path(&map, (0, 0), (4, 0));
    assert!(path.is_some());

    let path = path.unwrap();
    assert_eq!(path.first(), Some(&(0, 0)));
    assert_eq!(path.last(), Some(&(4, 0)));
}

#[test]
fn pathfinding_test_no_path() {
    let map_str = r#"
            . # .
            . # .
            . # .
        "#;
    let map = GridMap::parse(map_str).unwrap();

    let path = find_path(&map, (0, 0), (2, 0));
    assert!(path.is_none());
}

fn simple_map() -> GridMap {
    GridMap::parse(
        r#"
            . . .
            . # .
            . . .
            "#,
    )
    .expect("test map should parse")
}

#[test]
fn test_is_reachable_on_map_walkable_goal() {
    let map = simple_map();
    assert!(is_reachable_on_map(&map, (0, 0), (2, 2)));
}

#[test]
fn test_is_reachable_on_map_non_walkable_goal_adjacent() {
    let map = simple_map();
    assert!(is_reachable_on_map(&map, (0, 0), (1, 1)));
}

#[test]
fn test_is_reachable_on_map_invalid_start() {
    let map = simple_map();
    assert!(!is_reachable_on_map(&map, (99, 99), (1, 1)));
}

#[test]
fn history_reservation_is_each_recent_cell_in_turn() {
    let mut by_history = WHCAPathfinder::with_defaults();
    let recent: std::collections::VecDeque<(usize, usize)> = [(0, 0), (1, 0), (2, 0), (3, 0), (4, 0)].into_iter().collect();
    by_history.reserve_stationary_history_at(7, &recent, (4, 0), 1000);

    let mut in_turn = WHCAPathfinder::with_defaults();
    for cell in [(1, 0), (2, 0), (3, 0), (4, 0)] {
        in_turn.reserve_stationary_at(7, cell, 1000);
    }

    for cell in [(0, 0), (1, 0), (2, 0), (3, 0), (4, 0), (5, 0)] {
        for t in [1000u64, 1500, 2000] {
            assert_eq!(by_history.is_reserved_at(cell, t, Some(8)), in_turn.is_reserved_at(cell, t, Some(8)));
        }
    }
    assert!(!by_history.is_reserved_at((0, 0), 1000, Some(8)));
    assert!(by_history.is_reserved_at((1, 0), 1000, Some(8)));
}

#[test]
fn stationary_reservation_guards_cell_for_others_only() {
    let mut pf = WHCAPathfinder::with_defaults();
    pf.reserve_stationary_at(1, (2, 3), 1000);
    for t in [1000u64, 2000, 3500] {
        assert!(pf.is_reserved_at((2, 3), t, Some(2)));
        assert!(pf.is_reserved_at((2, 3), t, None));
        assert!(!pf.is_reserved_at((2, 3), t, Some(1)));
    }
}

#[test]
fn astar_planner_never_reserves() {
    let mut inst = PathfinderInstance::AStar(AStarPathfinder::new());
    inst.tick();
    inst.reserve_path_timed(1, &[(0, 0), (1, 0)], &[500]);
    inst.reserve_stationary(2, (3, 3));
    let recent: std::collections::VecDeque<(usize, usize)> = [(4, 4)].into_iter().collect();
    inst.reserve_stationary_history(3, &recent, (4, 4));
    inst.clear_robot_reservations(1);
    for pos in [(0, 0), (1, 0), (3, 3), (4, 4)] {
        assert!(!inst.is_reserved_soon(pos, 500, None));
        assert!(!inst.is_reserved_now(pos, None));
    }
}
