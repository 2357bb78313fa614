use tessera::grid_map::GridMap;
use tessera::queue::FifoQueue;
use tessera::requests::{
    apply_status_update, apply_status_update_at, apply_task_command, assignment_for, cancel_pending_task,
    create_task, enqueue_mass_add_tasks, mark_assigned, mass_target, reachable_robots, resolve_location, retry_eligible,
    set_pending_priority, CancelOutcome, PriorityOutcome, RequestOutcome, StatusOutcome,
};
use tessera::scheduler::TaskRetryState;
use tessera::tasks::{Priority, Task, TaskCommand, TaskStatus, TaskStatusUpdate, TaskType};

fn delivery(pickup: (usize, usize), dropoff: (usize, usize)) -> TaskType {
    TaskType::PickAndDeliver { pickup, dropoff, cargo_id: None }
}

#[test]
fn resolve_named_and_plain_locations() {
    let map = GridMap::parse("x5 . v\nx3 v .").unwrap();
    assert_eq!(resolve_location((10001, 0), &map), Some((0, 0)));
    assert_eq!(resolve_location((10002, 0), &map), Some((0, 1)));
    assert_eq!(resolve_location((10003, 0), &map), None);
    assert_eq!(resolve_location((10000, 0), &map), None);
    assert_eq!(resolve_location((20002, 0), &map), Some((1, 1)));
    assert_eq!(resolve_location((20000, 0), &map), None);
    assert_eq!(resolve_location((1, 1), &map), Some((1, 1)));
    assert_eq!(resolve_location((3, 0), &map), None);
}

#[test]
fn cancel_only_pending_tasks() {
    let mut q = FifoQueue::new();
    let a = create_task(&mut q, delivery((0, 0), (1, 1)), Priority::Normal);
    let b = create_task(&mut q, delivery((0, 0), (1, 1)), Priority::Normal);
    q.get_mut(b).unwrap().status = TaskStatus::InProgress { robot_id: 2 };
    assert_eq!(cancel_pending_task(&mut q, a), CancelOutcome::Cancelled);
    assert_eq!(q.get(a).unwrap().status, TaskStatus::Cancelled);
    assert_eq!(cancel_pending_task(&mut q, b), CancelOutcome::NotPending);
    assert_eq!(q.get(b).unwrap().status, TaskStatus::InProgress { robot_id: 2 });
    assert_eq!(cancel_pending_task(&mut q, 77), CancelOutcome::NotFound);
}

#[test]
fn set_priority_only_on_pending_tasks() {
    let mut q = FifoQueue::new();
    let a = create_task(&mut q, delivery((0, 0), (1, 1)), Priority::Low);
    assert_eq!(set_pending_priority(&mut q, a, Priority::High), PriorityOutcome::Changed { old: Priority::Low });
    assert_eq!(q.get(a).unwrap().priority, Priority::High);
    q.get_mut(a).unwrap().status = TaskStatus::Completed;
    assert_eq!(set_pending_priority(&mut q, a, Priority::Low), PriorityOutcome::NotPending);
    assert_eq!(set_pending_priority(&mut q, 9, Priority::Low), PriorityOutcome::NotFound);
}

#[test]
fn task_commands_apply_to_queue() {
    let map = GridMap::parse("x5 . v").unwrap();
    let mut q = FifoQueue::new();
    let new = TaskCommand::New { task_type: delivery((0, 0), (2, 0)), priority: Priority::High };
    assert_eq!(apply_task_command(&mut q, &map, new, false), RequestOutcome::RejectedEmptyPickup);
    assert_eq!(q.total_count(), 0);
    assert_eq!(apply_task_command(&mut q, &map, new, true), RequestOutcome::Created(1));
    let ret = TaskCommand::New { task_type: TaskType::ReturnToStation { robot_id: 4 }, priority: Priority::Low };
    assert_eq!(apply_task_command(&mut q, &map, ret, false), RequestOutcome::Created(2));
    assert_eq!(
        apply_task_command(&mut q, &map, TaskCommand::Cancel(2), true),
        RequestOutcome::Cancel(CancelOutcome::Cancelled)
    );
    assert_eq!(
        apply_task_command(&mut q, &map, TaskCommand::SetPriority(1, Priority::Low), true),
        RequestOutcome::Priority(PriorityOutcome::Changed { old: Priority::High })
    );
    assert_eq!(
        apply_task_command(&mut q, &map, TaskCommand::MassAdd { count: 0, dropoff_ppm: None }, true),
        RequestOutcome::MassAddIgnored
    );
    match apply_task_command(&mut q, &map, TaskCommand::MassAdd { count: 4, dropoff_ppm: Some(1_000_000) }, true) {
        RequestOutcome::MassAdded { requested, count, created, skipped } => {
            assert_eq!((requested, count, created, skipped), (4, 4, 4, 0));
        }
        other => panic!("unexpected outcome {:?}", other),
    }
    assert_eq!(q.total_count(), 6);
}

#[test]
fn mass_add_builds_valid_tasks() {
    let map = GridMap::parse("x5 x3 . v").unwrap();
    let mut q = FifoQueue::new();
    let (created, skipped) = enqueue_mass_add_tasks(&mut q, &map, 30, 500_000);
    assert_eq!((created, skipped), (30, 0));
    for t in q.all_tasks() {
        match t.task_type {
            TaskType::PickAndDeliver { pickup, dropoff, cargo_id } => {
                assert!(pickup == (0, 0) || pickup == (1, 0));
                assert!(dropoff == (3, 0) || (dropoff != pickup && (dropoff == (0, 0) || dropoff == (1, 0))));
                assert_eq!(cargo_id, None);
            }
            _ => panic!("mass add creates deliveries"),
        }
        assert_eq!(t.priority, Priority::Normal);
    }
    let ids: Vec<u64> = q.all_tasks().iter().map(|t| t.id).collect();
    assert_eq!(ids, (1..=30).collect::<Vec<u64>>());
}

#[test]
fn mass_add_without_destinations_skips() {
    let single = GridMap::parse("x5 . .").unwrap();
    let mut q = FifoQueue::new();
    assert_eq!(enqueue_mass_add_tasks(&mut q, &single, 5, 0), (0, 5));
    let none = GridMap::parse(". v").unwrap();
    assert_eq!(enqueue_mass_add_tasks(&mut q, &none, 3, 1_000_000), (0, 3));
    assert_eq!(q.total_count(), 0);
    // With one shelf and a dropoff, every task goes to the dropoff when the
    // chance is certain.
    let one = GridMap::parse("x5 v").unwrap();
    assert_eq!(enqueue_mass_add_tasks(&mut q, &one, 3, 1_000_000), (3, 0));
}

fn failed(id: u64, reason: &str, robot: Option<u32>) -> TaskStatusUpdate {
    TaskStatusUpdate { task_id: id, status: TaskStatus::Failed { reason: reason.to_string() }, robot_id: robot }
}

#[test]
fn no_path_failures_are_retried_then_exhausted() {
    let mut q = FifoQueue::new();
    let id = create_task(&mut q, delivery((0, 0), (2, 0)), Priority::Normal);
    let mut retry: Vec<(u64, TaskRetryState)> = Vec::new();
    let expected = [(1u32, 250u64), (2, 500), (3, 1000)];
    for (attempt, base) in expected {
        let e = apply_status_update_at(&mut q, &mut retry, &failed(id, "No path to pickup (0,0)", Some(3)), 10_000, 7);
        assert_eq!(e.outcome, StatusOutcome::RetryScheduled { attempt, backoff_ms: base + 7 });
        assert_eq!(e.free_robot, Some(3));
        assert_eq!(e.undo_pickup, Some((0, 0)));
        assert_eq!(e.undo_dropoff, Some((2, 0)));
        assert_eq!(q.get(id).unwrap().status, TaskStatus::Pending);
        assert_eq!(retry.len(), 1);
        assert_eq!(retry[0].1.attempts, attempt);
        assert_eq!(retry[0].1.next_eligible_at_ms, 10_000 + base + 7);
        assert!(!retry_eligible(&retry, id, 10_000));
        assert!(retry_eligible(&retry, id, 10_000 + base + 7));
    }
    let e = apply_status_update_at(&mut q, &mut retry, &failed(id, "no path to pickup", None), 20_000, 0);
    assert_eq!(e.outcome, StatusOutcome::RetryExhausted { attempts: 3 });
    assert_eq!(
        q.get(id).unwrap().status,
        TaskStatus::Failed { reason: "no path to pickup (retry exhausted after 3 attempts)".to_string() }
    );
    assert_eq!(q.get(id).unwrap().completed_at, Some(20_000));
    assert!(retry.is_empty());
}

#[test]
fn disabled_robot_failures_requeue() {
    let mut q = FifoQueue::new();
    let id = create_task(&mut q, delivery((0, 0), (2, 0)), Priority::Normal);
    let mut retry = vec![(id, TaskRetryState { attempts: 1, next_eligible_at_ms: 5 })];
    let e = apply_status_update_at(&mut q, &mut retry, &failed(id, "Robot DISABLED by operator", Some(1)), 100, 0);
    assert_eq!(e.outcome, StatusOutcome::RequeuedDisabled);
    assert_eq!(q.get(id).unwrap().status, TaskStatus::Pending);
    assert_eq!(q.get(id).unwrap().completed_at, None);
    assert!(retry.is_empty());
}

#[test]
fn other_status_reports_are_recorded() {
    let mut q = FifoQueue::new();
    let id = create_task(&mut q, delivery((0, 0), (2, 0)), Priority::Normal);
    let mut retry = vec![(id, TaskRetryState { attempts: 1, next_eligible_at_ms: 5 })];
    let pending = TaskStatusUpdate { task_id: id, status: TaskStatus::Pending, robot_id: Some(2) };
    let e = apply_status_update_at(&mut q, &mut retry, &pending, 100, 0);
    assert_eq!(e.outcome, StatusOutcome::Recorded);
    assert_eq!(e.free_robot, None);
    assert_eq!(retry.len(), 1);
    let done = TaskStatusUpdate { task_id: id, status: TaskStatus::Completed, robot_id: Some(2) };
    let e = apply_status_update_at(&mut q, &mut retry, &done, 300, 0);
    assert_eq!(e.free_robot, Some(2));
    assert_eq!(e.undo_pickup, None);
    assert_eq!(q.get(id).unwrap().completed_at, Some(300));
    assert!(retry.is_empty());
    let e = apply_status_update_at(&mut q, &mut retry, &failed(id, "blocked", Some(2)), 400, 0);
    assert_eq!(e.outcome, StatusOutcome::Recorded);
    assert_eq!(q.get(id).unwrap().status, TaskStatus::Failed { reason: "blocked".to_string() });
    let unknown = TaskStatusUpdate { task_id: 99, status: TaskStatus::Completed, robot_id: Some(2) };
    assert_eq!(apply_status_update(&mut q, &mut retry, &unknown).outcome, StatusOutcome::UnknownTask);
}

#[test]
fn allocation_helpers() {
    let map = GridMap::parse(". . x5\n. # .").unwrap();
    let robots = vec![(1u32, (0usize, 0usize)), (2, (1, 1)), (3, (0, 1)), (4, (60, 0))];
    assert_eq!(reachable_robots(&map, &robots, (2, 0)), vec![1, 3]);
    let mut q = FifoQueue::new();
    let id = create_task(&mut q, delivery((2, 0), (0, 0)), Priority::Normal);
    let a = assignment_for(q.get(id).unwrap(), 3);
    assert_eq!(a.robot_id, 3);
    assert_eq!(a.task.status, TaskStatus::Assigned { robot_id: 3 });
    assert_eq!(q.get(id).unwrap().status, TaskStatus::Pending);
    assert!(mark_assigned(&mut q, id, 3));
    assert_eq!(q.get(id).unwrap().status, TaskStatus::Assigned { robot_id: 3 });
    assert!(!mark_assigned(&mut q, 42, 3));
    let t: Task = q.get(id).unwrap().clone();
    assert_eq!(t.id, id);
}

#[test]
fn mass_target_follows_the_draws() {
    let map = GridMap::parse("x5 x3 . v\nx2 . . v").unwrap();
    let shelves = map.get_shelves();
    let dropoffs = map.get_dropoffs();
    // A draw below the chance sends the task to the drawn dropoff.
    assert_eq!(mass_target(&shelves, &dropoffs, (0, 0), 10, (3, 1), 600_000), Some(((0, 0), (3, 1))));
    // Otherwise to the drawn shelf when it stands elsewhere.
    assert_eq!(mass_target(&shelves, &dropoffs, (0, 0), 700_000, (0, 1), 600_000), Some(((0, 0), (0, 1))));
    // A drawn shelf at the pickup falls back to the first other shelf.
    assert_eq!(mass_target(&shelves, &dropoffs, (1, 0), 700_000, (1, 0), 600_000), Some(((1, 0), (0, 0))));
    assert_eq!(mass_target(&shelves, &dropoffs, (0, 0), 999_999, (0, 0), 600_000), Some(((0, 0), (1, 0))));
    // With no dropoffs the chance is never used.
    let no_dropoffs: Vec<&tessera::grid_map::Tile> = Vec::new();
    assert_eq!(mass_target(&shelves, &no_dropoffs, (0, 0), 0, (0, 1), 600_000), Some(((0, 0), (0, 1))));
    // A single shelf position leaves no destination.
    let single = GridMap::parse("x5 .").unwrap();
    let one = single.get_shelves();
    assert_eq!(mass_target(&one, &no_dropoffs, (0, 0), 0, (0, 0), 0), None);
}
