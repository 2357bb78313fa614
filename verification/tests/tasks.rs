use tessera::tasks::{Priority, Task, TaskStatus, TaskType};

#[test]
fn test_task_creation() {
    let task = Task::new(
        1,
        TaskType::PickAndDeliver { pickup: (5, 5), dropoff: (10, 10), cargo_id: None },
        Priority::Normal,
    );

    assert_eq!(task.id, 1);
    assert_eq!(task.priority, Priority::Normal);
    assert_eq!(task.status, TaskStatus::Pending);
    assert!(task.created_at > 0);
}

#[test]
fn test_task_pickup_location() {
    let pick_deliver = Task::new(
        1,
        TaskType::PickAndDeliver { pickup: (5, 5), dropoff: (10, 10), cargo_id: None },
        Priority::Normal,
    );
    assert_eq!(pick_deliver.pickup_location(), Some((5, 5)));

    let relocate = Task::new(2, TaskType::Relocate { from: (3, 3), to: (7, 7) }, Priority::High);
    assert_eq!(relocate.pickup_location(), Some((3, 3)));

    let return_station = Task::new(3, TaskType::ReturnToStation { robot_id: 1 }, Priority::Low);
    assert_eq!(return_station.pickup_location(), None);
}

#[test]
fn test_task_target_location() {
    let pick_deliver = Task::new(
        1,
        TaskType::PickAndDeliver { pickup: (5, 5), dropoff: (10, 10), cargo_id: None },
        Priority::Normal,
    );
    assert_eq!(pick_deliver.target_location(), Some((10, 10)));

    let relocate = Task::new(2, TaskType::Relocate { from: (3, 3), to: (7, 7) }, Priority::High);
    assert_eq!(relocate.target_location(), Some((7, 7)));
}

#[test]
fn test_priority_ordering() {
    assert!(Priority::Critical > Priority::High);
    assert!(Priority::High > Priority::Normal);
    assert!(Priority::Normal > Priority::Low);
}

#[test]
fn priority_levels_and_default() {
    assert_eq!(Priority::Low.level(), 0);
    assert_eq!(Priority::Normal.level(), 1);
    assert_eq!(Priority::High.level(), 2);
    assert_eq!(Priority::Critical.level(), 3);
    assert_eq!(Priority::default(), Priority::Normal);
}

#[test]
fn task_new_at_keeps_creation_time() {
    let t = Task::new_at(9, TaskType::ReturnToStation { robot_id: 4 }, Priority::High, 1234);
    assert_eq!(t.created_at, 1234);
    assert_eq!(t.completed_at, None);
    assert_eq!(t.target_location(), None);
    let c = t.clone();
    assert_eq!(c.id, 9);
    assert_eq!(c.created_at, 1234);
}
