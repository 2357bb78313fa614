use tessera::queue::FifoQueue;
use tessera::scheduler::{
    backoff_with_jitter_ms, base_retry_backoff_ms, build_task_list_snapshot, build_task_list_snapshot_at,
    clamp_mass_add_count, is_disabled_failure_reason, is_retryable_no_path_failure, is_within_pickup_horizon,
    oldest_recent_terminal_index, parse_named_location, prune_retry_state, push_recent_terminal_task,
    retry_backoff_with_jitter_ms, terminal_recency_ms, whca_pickup_horizon_steps, TaskRetryState,
    DROPOFF_MARKER_BASE, RETRYABLE_NO_PATH_BASE_BACKOFF_MS, RETRYABLE_NO_PATH_MAX_BACKOFF_MS,
};
use tessera::tasks::{Priority, Task, TaskStatus, TaskType};

#[test]
fn test_parse_shelf_location() {
    assert_eq!(parse_named_location("S1"), Some((10001, 0)));
    assert_eq!(parse_named_location("S10"), Some((10010, 0)));
    assert_eq!(parse_named_location("S99"), Some((10099, 0)));
}

#[test]
fn test_parse_dropoff_location() {
    assert_eq!(parse_named_location("D1"), Some((20001, 0)));
    assert_eq!(parse_named_location("D5"), Some((20005, 0)));
}

#[test]
fn test_parse_invalid_location() {
    assert_eq!(parse_named_location("X1"), None);
    assert_eq!(parse_named_location("S"), None);
    assert_eq!(parse_named_location(""), None);
    assert_eq!(parse_named_location("Sabc"), None);
}

#[test]
fn test_marker_values_distinguishable() {
    let s1 = parse_named_location("S1").expect("S1 should parse as a shelf marker");
    let d1 = parse_named_location("D1").expect("D1 should parse as a dropoff marker");
    assert!(s1.0 < DROPOFF_MARKER_BASE);
    assert!(d1.0 >= DROPOFF_MARKER_BASE);
}

#[test]
fn named_location_is_case_sensitive() {
    assert_eq!(parse_named_location("s1"), None);
    assert_eq!(parse_named_location("D+7"), Some((20007, 0)));
}

#[test]
fn disabled_reason_detection_is_case_insensitive() {
    assert!(is_disabled_failure_reason("Robot Disabled"));
    assert!(is_disabled_failure_reason("robot is disabled by operator"));
    assert!(!is_disabled_failure_reason("robot busy"));
}

#[test]
fn retryable_no_path_detection_is_case_insensitive() {
    assert!(is_retryable_no_path_failure("no path to pickup (10,20)"));
    assert!(is_retryable_no_path_failure("No Path To Pickup"));
    assert!(!is_retryable_no_path_failure("invalid pickup/dropoff"));
}

#[test]
fn retry_backoff_growth_is_capped() {
    let first = base_retry_backoff_ms(1);
    let second = base_retry_backoff_ms(2);
    let tenth = base_retry_backoff_ms(10);

    assert_eq!(first, RETRYABLE_NO_PATH_BASE_BACKOFF_MS);
    assert!(second >= first);
    assert!(tenth <= RETRYABLE_NO_PATH_MAX_BACKOFF_MS);
}

#[test]
fn retry_backoff_exact_values() {
    assert_eq!(base_retry_backoff_ms(0), 250);
    assert_eq!(base_retry_backoff_ms(2), 500);
    assert_eq!(base_retry_backoff_ms(3), 1000);
    assert_eq!(base_retry_backoff_ms(4), 2000);
    assert_eq!(base_retry_backoff_ms(5), 3000);
    assert_eq!(base_retry_backoff_ms(u32::MAX), 3000);
    assert_eq!(backoff_with_jitter_ms(3, 150), 1150);
    assert_eq!(backoff_with_jitter_ms(1, u64::MAX), u64::MAX);
    let r = retry_backoff_with_jitter_ms(2);
    assert!((500..=700).contains(&r));
}

#[test]
fn pickup_horizon_filter_rejects_impossible_distance() {
    let max_steps = whca_pickup_horizon_steps();
    assert!(max_steps > 0);
    assert!(is_within_pickup_horizon((10, 10), (10 + max_steps, 10)));
    assert!(!is_within_pickup_horizon((10, 10), (10 + max_steps.saturating_add(1), 10)));
}

#[test]
fn pickup_horizon_is_manhattan() {
    assert_eq!(whca_pickup_horizon_steps(), 32);
    assert!(is_within_pickup_horizon((20, 20), (4, 4)));
    assert!(!is_within_pickup_horizon((20, 20), (4, 3)));
}

#[test]
fn mass_add_count_is_capped() {
    assert_eq!(clamp_mass_add_count(0), 0);
    assert_eq!(clamp_mass_add_count(25), 25);
    assert_eq!(clamp_mass_add_count(10000), 10000);
    assert_eq!(clamp_mass_add_count(50000), 10000);
}

fn make_completed_task(id: u64, completed_at: u64) -> Task {
    let mut task = Task::new(
        id,
        TaskType::PickAndDeliver { pickup: (1, 1), dropoff: (2, 2), cargo_id: None },
        Priority::Normal,
    );
    task.status = TaskStatus::Completed;
    task.completed_at = Some(completed_at);
    task
}

#[test]
fn recent_terminal_window_keeps_most_recent_entries() {
    let mut window = Vec::new();
    push_recent_terminal_task(&mut window, &make_completed_task(1, 100), 2);
    push_recent_terminal_task(&mut window, &make_completed_task(2, 200), 2);
    push_recent_terminal_task(&mut window, &make_completed_task(3, 150), 2);

    let mut ids: Vec<u64> = window.iter().map(|task| task.id).collect();
    ids.sort_unstable();
    assert_eq!(ids, vec![2, 3]);
}

#[test]
fn recent_terminal_window_with_zero_limit_stays_empty() {
    let mut window = Vec::new();
    push_recent_terminal_task(&mut window, &make_completed_task(1, 100), 0);
    assert!(window.is_empty());
}

#[test]
fn oldest_terminal_entry_breaks_ties_by_id() {
    let window = vec![make_completed_task(4, 300), make_completed_task(2, 100), make_completed_task(1, 100)];
    assert_eq!(oldest_recent_terminal_index(&window), Some(2));
    assert_eq!(oldest_recent_terminal_index(&[]), None);
    assert_eq!(terminal_recency_ms(&window[0]), 300);
    let pending = Task::new_at(5, TaskType::ReturnToStation { robot_id: 1 }, Priority::Low, 77);
    assert_eq!(terminal_recency_ms(&pending), 77);
}

#[test]
fn task_list_snapshot_tracks_totals_and_windows() {
    let mut queue = FifoQueue::new();

    let active = Task::new(
        queue.next_task_id(),
        TaskType::PickAndDeliver { pickup: (1, 1), dropoff: (2, 2), cargo_id: None },
        Priority::Normal,
    );
    queue.enqueue(active);

    let mut completed = Task::new(
        queue.next_task_id(),
        TaskType::PickAndDeliver { pickup: (1, 1), dropoff: (2, 2), cargo_id: None },
        Priority::Normal,
    );
    completed.status = TaskStatus::Completed;
    completed.completed_at = Some(1000);
    queue.enqueue(completed);

    let mut failed = Task::new(
        queue.next_task_id(),
        TaskType::PickAndDeliver { pickup: (1, 1), dropoff: (2, 2), cargo_id: None },
        Priority::Normal,
    );
    failed.status = TaskStatus::Failed { reason: "test".to_string() };
    failed.completed_at = Some(1200);
    queue.enqueue(failed);

    let mut cancelled = Task::new(
        queue.next_task_id(),
        TaskType::PickAndDeliver { pickup: (1, 1), dropoff: (2, 2), cargo_id: None },
        Priority::Normal,
    );
    cancelled.status = TaskStatus::Cancelled;
    cancelled.completed_at = Some(1400);
    queue.enqueue(cancelled);

    let snapshot = build_task_list_snapshot(&queue);

    assert_eq!(snapshot.active_total, 1);
    assert_eq!(snapshot.completed_total, 1);
    assert_eq!(snapshot.failed_total, 1);
    assert_eq!(snapshot.cancelled_total, 1);
    assert_eq!(snapshot.active_tasks.len(), 1);
    assert_eq!(snapshot.recent_terminal_tasks.len(), 3);
}

#[test]
fn task_list_snapshot_orders_recent_newest_first() {
    let a = make_completed_task(1, 1000);
    let b = make_completed_task(2, 3000);
    let c = make_completed_task(3, 2000);
    let d = Task::new_at(4, TaskType::ReturnToStation { robot_id: 2 }, Priority::High, 5);
    let tasks = vec![&a, &b, &c, &d];
    let snapshot = build_task_list_snapshot_at(&tasks, 42);
    let ids: Vec<u64> = snapshot.recent_terminal_tasks.iter().map(|t| t.id).collect();
    assert_eq!(ids, vec![2, 3, 1]);
    assert_eq!(snapshot.active_tasks.len(), 1);
    assert_eq!(snapshot.active_tasks[0].id, 4);
    assert_eq!(snapshot.timestamp_ms, 42);
}

#[test]
fn retry_state_is_pruned_to_pending_tasks() {
    let mut queue = FifoQueue::new();
    queue.enqueue(Task::new_at(1, TaskType::ReturnToStation { robot_id: 1 }, Priority::Low, 1));
    queue.enqueue(make_completed_task(2, 10));
    let entry = TaskRetryState { attempts: 2, next_eligible_at_ms: 500 };
    let mut retry = vec![(1, entry), (2, entry), (3, entry)];
    prune_retry_state(&queue, &mut retry);
    assert_eq!(retry.len(), 1);
    assert_eq!(retry[0].0, 1);
    assert_eq!(retry[0].1.attempts, 2);
}
