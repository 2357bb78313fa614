use tessera::queue::FifoQueue;
use tessera::tasks::{Priority, Task, TaskId, TaskStatus, TaskType};

fn make_task(id: u64, priority: Priority) -> Task {
    Task::new(id, TaskType::PickAndDeliver { pickup: (1, 1), dropoff: (5, 5), cargo_id: None }, priority)
}

#[test]
fn test_enqueue_increments_count() {
    let mut queue = FifoQueue::new();
    assert_eq!(queue.total_count(), 0);

    queue.enqueue(make_task(1, Priority::Normal));
    assert_eq!(queue.total_count(), 1);
    assert_eq!(queue.pending_count(), 1);
}

#[test]
fn test_next_task_id_increments() {
    let mut queue = FifoQueue::new();
    assert_eq!(queue.next_task_id(), 1);
    assert_eq!(queue.next_task_id(), 2);
    assert_eq!(queue.next_task_id(), 3);
}

#[test]
fn test_fifo_order_same_priority() {
    let mut queue = FifoQueue::new();
    queue.enqueue(make_task(1, Priority::Normal));
    queue.enqueue(make_task(2, Priority::Normal));
    queue.enqueue(make_task(3, Priority::Normal));

    assert_eq!(queue.dequeue().unwrap().id, 1);
    assert_eq!(queue.dequeue().unwrap().id, 2);
    assert_eq!(queue.dequeue().unwrap().id, 3);
    assert!(queue.dequeue().is_none());
}

#[test]
fn test_priority_over_fifo() {
    let mut queue = FifoQueue::new();
    queue.enqueue(make_task(1, Priority::Low));
    queue.enqueue(make_task(2, Priority::Critical));
    queue.enqueue(make_task(3, Priority::Normal));

    assert_eq!(queue.dequeue().unwrap().id, 2);
    assert_eq!(queue.dequeue().unwrap().id, 3);
    assert_eq!(queue.dequeue().unwrap().id, 1);
}

#[test]
fn test_get_and_get_mut() {
    let mut queue = FifoQueue::new();
    queue.enqueue(make_task(1, Priority::Normal));
    queue.enqueue(make_task(2, Priority::Normal));

    assert!(queue.get(1).is_some());
    assert!(queue.get(99).is_none());

    if let Some(task) = queue.get_mut(1) {
        task.status = TaskStatus::Assigned { robot_id: 42 };
    }

    assert_eq!(queue.pending_count(), 1);
    assert_eq!(queue.total_count(), 2);
}

#[test]
fn test_remove_task() {
    let mut queue = FifoQueue::new();
    queue.enqueue(make_task(1, Priority::Normal));
    queue.enqueue(make_task(2, Priority::Normal));

    let removed = queue.remove(1);
    assert!(removed.is_some());
    assert_eq!(removed.unwrap().id, 1);
    assert_eq!(queue.total_count(), 1);
    assert!(queue.remove(1).is_none());
}

#[test]
fn test_peek_does_not_remove() {
    let mut queue = FifoQueue::new();
    queue.enqueue(make_task(1, Priority::Normal));

    assert_eq!(queue.peek().unwrap().id, 1);
    assert_eq!(queue.peek().unwrap().id, 1);
    assert_eq!(queue.total_count(), 1);
}

#[test]
fn test_cleanup_completed() {
    let mut queue = FifoQueue::new();
    let task1 = make_task(1, Priority::Normal);
    let task2 = make_task(2, Priority::Normal);
    let task3 = make_task(3, Priority::High);

    queue.enqueue(task1);
    queue.enqueue(task2);
    queue.enqueue(task3);

    assert_eq!(queue.total_count(), 3);

    if let Some(t) = queue.get_mut(1) {
        t.status = TaskStatus::Completed;
    }
    if let Some(t) = queue.get_mut(2) {
        t.status = TaskStatus::Failed { reason: "test".to_string() };
    }

    let removed = queue.cleanup_completed();
    assert_eq!(removed, 2);
    assert_eq!(queue.total_count(), 1);
    assert!(queue.get(3).is_some());
}

#[test]
fn test_pending_task_ids_limited_respects_limit() {
    let mut queue = FifoQueue::new();
    queue.enqueue(make_task(1, Priority::Normal));
    queue.enqueue(make_task(2, Priority::High));
    queue.enqueue(make_task(3, Priority::Low));

    if let Some(task) = queue.get_mut(2) {
        task.status = TaskStatus::Assigned { robot_id: 7 };
    }

    assert_eq!(queue.pending_task_ids_limited(0), Vec::<TaskId>::new());
    assert_eq!(queue.pending_task_ids_limited(1), vec![1]);
    assert_eq!(queue.pending_task_ids_limited(5), vec![1, 3]);
}

#[test]
fn queue_peek_agrees_with_dequeue() {
    let mut queue = FifoQueue::new();
    queue.enqueue(make_task(5, Priority::Low));
    queue.enqueue(make_task(6, Priority::High));
    queue.enqueue(make_task(7, Priority::High));
    let peeked = queue.peek().unwrap().id;
    assert_eq!(peeked, 6);
    assert_eq!(queue.dequeue().unwrap().id, peeked);
    assert_eq!(queue.total_count(), 2);
}

#[test]
fn queue_dequeue_skips_non_pending() {
    let mut queue = FifoQueue::new();
    queue.enqueue(make_task(1, Priority::Critical));
    queue.enqueue(make_task(2, Priority::Low));
    queue.get_mut(1).unwrap().status = TaskStatus::InProgress { robot_id: 3 };
    assert_eq!(queue.dequeue().unwrap().id, 2);
    assert!(queue.dequeue().is_none());
    assert_eq!(queue.total_count(), 1);
}

#[test]
fn queue_set_task_replaces_by_id() {
    let mut queue = FifoQueue::new();
    queue.enqueue(make_task(1, Priority::Low));
    assert!(queue.set_task(1, make_task(1, Priority::Critical)));
    assert_eq!(queue.get(1).unwrap().priority, Priority::Critical);
    assert!(!queue.set_task(2, make_task(2, Priority::Low)));
    assert_eq!(queue.total_count(), 1);
}

#[test]
fn queue_lists_pending_and_all_tasks_in_order() {
    let mut queue = FifoQueue::new();
    queue.enqueue(make_task(1, Priority::Low));
    queue.enqueue(make_task(2, Priority::Low));
    queue.enqueue(make_task(3, Priority::Low));
    queue.get_mut(2).unwrap().status = TaskStatus::Cancelled;
    let pending: Vec<u64> = queue.pending_tasks().iter().map(|t| t.id).collect();
    assert_eq!(pending, vec![1, 3]);
    let all: Vec<u64> = queue.all_tasks().iter().map(|t| t.id).collect();
    assert_eq!(all, vec![1, 2, 3]);
}
