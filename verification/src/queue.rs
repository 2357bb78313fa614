//! Task queue: a priority queue with first-in-first-out tie breaking.
//!
//! Tasks are kept in insertion order. The next task to process is the
//! pending task of highest priority; among pending tasks of that priority,
//! the one enqueued first.
use vstd::prelude::*;
use crate::tasks::{Task, TaskId, TaskStatus, rank};

verus! {

/// Whether a task still waits for assignment.
pub open spec fn is_pending(t: Task) -> bool {
    t.status is Pending
}

/// Whether a task has finished (completed, failed or cancelled).
pub open spec fn is_terminal(t: Task) -> bool {
    t.status is Completed || t.status is Failed || t.status is Cancelled
}

/// Whether index `i` of `tasks` holds the next task to dequeue: a pending
/// task of the highest pending priority, with no pending task of that
/// priority before it.
pub open spec fn is_next_pending(tasks: Seq<Task>, i: int) -> bool {
    &&& 0 <= i < tasks.len()
    &&& is_pending(tasks[i])
    &&& forall|j: int|
        0 <= j < tasks.len() && is_pending(#[trigger] tasks[j]) ==> rank(tasks[j].priority) <= rank(
            tasks[i].priority,
        )
    &&& forall|j: int|
        0 <= j < i && is_pending(#[trigger] tasks[j]) ==> rank(tasks[j].priority) < rank(
            tasks[i].priority,
        )
}

/// Whether `tasks` holds a pending task.
pub open spec fn has_pending(tasks: Seq<Task>) -> bool {
    exists|j: int| 0 <= j < tasks.len() && is_pending(#[trigger] tasks[j])
}

/// Number of pending tasks.
pub open spec fn count_pending(tasks: Seq<Task>) -> nat
    decreases tasks.len(),
{
    if tasks.len() == 0 {
        0
    } else {
        count_pending(tasks.drop_last()) + if is_pending(tasks.last()) {
            1nat
        } else {
            0nat
        }
    }
}

/// The pending tasks, in queue order.
pub open spec fn pending_of(tasks: Seq<Task>) -> Seq<Task>
    decreases tasks.len(),
{
    if tasks.len() == 0 {
        Seq::empty()
    } else if is_pending(tasks.last()) {
        pending_of(tasks.drop_last()).push(tasks.last())
    } else {
        pending_of(tasks.drop_last())
    }
}

/// The unfinished tasks, in queue order.
pub open spec fn unfinished_of(tasks: Seq<Task>) -> Seq<Task>
    decreases tasks.len(),
{
    if tasks.len() == 0 {
        Seq::empty()
    } else if is_terminal(tasks.last()) {
        unfinished_of(tasks.drop_last())
    } else {
        unfinished_of(tasks.drop_last()).push(tasks.last())
    }
}

/// Index of the first task with the given id.
pub open spec fn first_with_id(tasks: Seq<Task>, id: TaskId) -> Option<int>
    decreases tasks.len(),
{
    if tasks.len() == 0 {
        None
    } else {
        match first_with_id(tasks.drop_last(), id) {
            Some(i) => Some(i),
            None => if tasks.last().id == id {
                Some(tasks.len() - 1)
            } else {
                None
            },
        }
    }
}

/// The ids of a task sequence.
pub open spec fn ids_of(tasks: Seq<Task>) -> Seq<TaskId> {
    tasks.map_values(|t: Task| t.id)
}

/// What removing the next task to process from `before` may leave and
/// return: nothing when no task is pending, else the next pending task.
pub open spec fn dequeued(before: Seq<Task>, after: Seq<Task>, r: Option<Task>) -> bool {
    match r {
        None => !has_pending(before) && after == before,
        Some(t) => exists|i: int|
            is_next_pending(before, i) && t == before[i] && after == before.remove(i),
    }
}

/// What looking at the next task to process may return.
pub open spec fn peeked(tasks: Seq<Task>, r: Option<Task>) -> bool {
    match r {
        None => !has_pending(tasks),
        Some(t) => exists|i: int| is_next_pending(tasks, i) && t == tasks[i],
    }
}

/// The first task with the given id, if any.
pub open spec fn task_with_id(tasks: Seq<Task>, id: TaskId) -> Option<Task> {
    match first_with_id(tasks, id) {
        Some(i) => Some(tasks[i]),
        None => None,
    }
}

/// Removing the first task with the given id.
pub open spec fn removed_by_id(before: Seq<Task>, after: Seq<Task>, id: TaskId, r: Option<Task>) -> bool {
    match first_with_id(before, id) {
        Some(i) => r == Some(before[i]) && after == before.remove(i),
        None => r is None && after == before,
    }
}

/// The ids of the first `limit` pending tasks.
pub open spec fn limited_pending_ids(tasks: Seq<Task>, limit: usize) -> Seq<TaskId> {
    let p = pending_of(tasks);
    ids_of(p).take(if limit <= p.len() { limit as int } else { p.len() as int })
}

/// The task behind an optional reference.
pub open spec fn opt_task(r: Option<&Task>) -> Option<Task> {
    match r {
        Some(t) => Some(*t),
        None => None,
    }
}

/// Priority-aware FIFO queue.
pub struct FifoQueue {
    tasks: Vec<Task>,
    next_id: TaskId,
}

impl FifoQueue {
    /// The queued tasks, in insertion order.
    pub closed spec fn spec_tasks(&self) -> Seq<Task> {
        self.tasks@
    }

    /// The id the next call of `next_task_id` hands out.
    pub closed spec fn spec_next_id(&self) -> TaskId {
        self.next_id
    }

    /// An empty queue whose first task id is 1.
    pub fn new() -> (q: FifoQueue)
        ensures
            q.spec_tasks() == Seq::<Task>::empty(),
            q.spec_next_id() == 1,
    {
        FifoQueue { tasks: Vec::new(), next_id: 1 }
    }

    /// The id the next call of `next_task_id` hands out, without taking it.
    pub fn peek_next_id(&self) -> (id: TaskId)
        ensures
            id == self.spec_next_id(),
    {
        self.next_id
    }

    /// Generate a new unique task id.
    pub fn next_task_id(&mut self) -> (id: TaskId)
        requires
            old(self).spec_next_id() < u64::MAX,
        ensures
            id == old(self).spec_next_id(),
            final(self).spec_next_id() == old(self).spec_next_id() + 1,
            final(self).spec_tasks() == old(self).spec_tasks(),
    {
        let id = self.next_id;
        self.next_id = self.next_id + 1;
        id
    }

    /// Index of the next pending task to process, if any.
    fn find_next_pending_index(&self) -> (r: Option<usize>)
        ensures
            r matches Some(i) ==> is_next_pending(self.tasks@, i as int),
            r is None ==> !has_pending(self.tasks@),
    {
        let mut best_idx: Option<usize> = None;
        let mut best_level: u8 = 0;
        let mut i: usize = 0;
        while i < self.tasks.len()
            invariant
                i <= self.tasks.len(),
                best_idx matches Some(b) ==> is_next_pending(self.tasks@.take(i as int), b as int)
                    && best_level == rank(self.tasks@[b as int].priority),
                best_idx is None ==> !has_pending(self.tasks@.take(i as int)),
            decreases self.tasks.len() - i,
        {
            let t = &self.tasks[i];
            let ghost pre = self.tasks@.take(i as int);
            let ghost now = self.tasks@.take(i + 1);
            assert(now.drop_last() =~= pre);
            assert(forall|j: int| 0 <= j < i ==> now[j] == pre[j]);
            if matches!(t.status, TaskStatus::Pending) {
                let level = t.priority.level();
                if best_idx.is_none() || level > best_level {
                    best_idx = Some(i);
                    best_level = level;
                }
            }
            i = i + 1;
        }
        assert(self.tasks@.take(i as int) =~= self.tasks@);
        best_idx
    }

    /// Add a task at the back of the queue.
    pub fn enqueue(&mut self, task: Task)
        ensures
            final(self).spec_tasks() == old(self).spec_tasks().push(task),
            final(self).spec_next_id() == old(self).spec_next_id(),
    {
        self.tasks.push(task);
    }

    /// Remove and return the next task to process.
    pub fn dequeue(&mut self) -> (r: Option<Task>)
        ensures
            final(self).spec_next_id() == old(self).spec_next_id(),
            dequeued(old(self).spec_tasks(), final(self).spec_tasks(), r),
    {
        match self.find_next_pending_index() {
            Some(idx) => {
                let ghost before = self.spec_tasks();
                let t = self.tasks.remove(idx);
                assert(is_next_pending(before, idx as int) && t == before[idx as int]
                    && self.spec_tasks() == before.remove(idx as int));
                Some(t)
            },
            None => None,
        }
    }

    /// The next task to process, left in the queue.
    pub fn peek(&self) -> (r: Option<&Task>)
        ensures
            peeked(self.spec_tasks(), opt_task(r)),
    {
        match self.find_next_pending_index() {
            Some(idx) => {
                assert(is_next_pending(self.spec_tasks(), idx as int) && self.tasks[idx as int]
                    == self.spec_tasks()[idx as int]);
                Some(&self.tasks[idx])
            },
            None => None,
        }
    }

    fn position(&self, id: TaskId) -> (r: Option<usize>)
        ensures
            r matches Some(i) ==> first_with_id(self.tasks@, id) == Some(i as int) && (i as int)
                < self.tasks@.len(),
            r is None ==> first_with_id(self.tasks@, id) is None,
    {
        let mut i: usize = 0;
        while i < self.tasks.len()
            invariant
                i <= self.tasks.len(),
                first_with_id(self.tasks@.take(i as int), id) is None,
            decreases self.tasks.len() - i,
        {
            assert(self.tasks@.take(i + 1).drop_last() =~= self.tasks@.take(i as int));
            if self.tasks[i].id == id {
                proof {
                    lemma_first_with_id_extend(self.tasks@, i as int + 1, id);
                }
                return Some(i);
            }
            i = i + 1;
        }
        assert(self.tasks@.take(i as int) =~= self.tasks@);
        None
    }

    /// The first task with the given id.
    pub fn get(&self, id: TaskId) -> (r: Option<&Task>)
        ensures
            opt_task(r) == task_with_id(self.spec_tasks(), id),
    {
        match self.position(id) {
            Some(i) => Some(&self.tasks[i]),
            None => None,
        }
    }

    /// Mutable access to the first task with the given id.
    pub fn get_mut(&mut self, id: TaskId) -> (r: Option<&mut Task>)
        ensures
            final(self).spec_next_id() == old(self).spec_next_id(),
            match first_with_id(old(self).spec_tasks(), id) {
                Some(i) => r matches Some(t) && *t == old(self).spec_tasks()[i]
                    && final(self).spec_tasks() == old(self).spec_tasks().update(i, *final(t)),
                None => r is None && final(self).spec_tasks() == old(self).spec_tasks(),
            },
    {
        match self.position(id) {
            Some(i) => Some(vstd::std_specs::vec::vec_index_mut(&mut self.tasks, i)),
            None => None,
        }
    }

    /// Replace the first task with the given id; returns whether one was
    /// found.
    pub fn set_task(&mut self, id: TaskId, task: Task) -> (found: bool)
        ensures
            final(self).spec_next_id() == old(self).spec_next_id(),
            found == first_with_id(old(self).spec_tasks(), id) is Some,
            match first_with_id(old(self).spec_tasks(), id) {
                Some(i) => final(self).spec_tasks() == old(self).spec_tasks().update(i, task),
                None => final(self).spec_tasks() == old(self).spec_tasks(),
            },
    {
        match self.position(id) {
            Some(i) => {
                self.tasks.set(i, task);
                true
            },
            None => false,
        }
    }

    /// Remove the first task with the given id (for cancellation).
    pub fn remove(&mut self, id: TaskId) -> (r: Option<Task>)
        ensures
            final(self).spec_next_id() == old(self).spec_next_id(),
            removed_by_id(old(self).spec_tasks(), final(self).spec_tasks(), id, r),
    {
        match self.position(id) {
            Some(i) => Some(self.tasks.remove(i)),
            None => None,
        }
    }

    /// Number of pending tasks.
    pub fn pending_count(&self) -> (n: usize)
        ensures
            n == count_pending(self.spec_tasks()),
    {
        let mut n: usize = 0;
        let mut i: usize = 0;
        while i < self.tasks.len()
            invariant
                i <= self.tasks.len(),
                n == count_pending(self.tasks@.take(i as int)),
                n <= i,
            decreases self.tasks.len() - i,
        {
            assert(self.tasks@.take(i + 1).drop_last() =~= self.tasks@.take(i as int));
            if matches!(self.tasks[i].status, TaskStatus::Pending) {
                n = n + 1;
            }
            i = i + 1;
        }
        assert(self.tasks@.take(i as int) =~= self.tasks@);
        n
    }

    /// Total number of tasks (including assigned and in progress).
    pub fn total_count(&self) -> (n: usize)
        ensures
            n == self.spec_tasks().len(),
    {
        self.tasks.len()
    }

    /// All pending tasks, in queue order.
    pub fn pending_tasks(&self) -> (v: Vec<&Task>)
        ensures
            v@.map_values(|t: &Task| *t) == pending_of(self.spec_tasks()),
    {
        let mut v: Vec<&Task> = Vec::new();
        let mut i: usize = 0;
        while i < self.tasks.len()
            invariant
                i <= self.tasks.len(),
                v@.map_values(|t: &Task| *t) == pending_of(self.tasks@.take(i as int)),
            decreases self.tasks.len() - i,
        {
            assert(self.tasks@.take(i + 1).drop_last() =~= self.tasks@.take(i as int));
            let t = &self.tasks[i];
            let ghost before = v@;
            if matches!(t.status, TaskStatus::Pending) {
                v.push(t);
                assert(v@.map_values(|t: &Task| *t) =~= before.map_values(|t: &Task| *t).push(*t));
            }
            i = i + 1;
        }
        assert(self.tasks@.take(i as int) =~= self.tasks@);
        v
    }

    /// Ids of the first `limit` pending tasks, in queue order.
    pub fn pending_task_ids_limited(&self, limit: usize) -> (ids: Vec<TaskId>)
        ensures
            ids@ == limited_pending_ids(self.spec_tasks(), limit),
    {
        let mut ids: Vec<TaskId> = Vec::new();
        if limit == 0 {
            assert(ids@ =~= ids_of(pending_of(self.spec_tasks())).take(0));
            return ids;
        }
        let mut i: usize = 0;
        while i < self.tasks.len()
            invariant
                i <= self.tasks.len(),
                limit > 0,
                ids@ == ids_of(pending_of(self.tasks@.take(i as int))),
                ids@.len() < limit,
            decreases self.tasks.len() - i,
        {
            assert(self.tasks@.take(i + 1).drop_last() =~= self.tasks@.take(i as int));
            let ghost before = ids@;
            if matches!(self.tasks[i].status, TaskStatus::Pending) {
                ids.push(self.tasks[i].id);
                assert(ids@ =~= ids_of(pending_of(self.tasks@.take(i + 1))));
                if ids.len() == limit {
                    proof {
                        lemma_pending_prefix(self.tasks@, i + 1);
                    }
                    assert(ids@ =~= ids_of(pending_of(self.spec_tasks())).take(limit as int));
                    return ids;
                }
            } else {
                assert(ids@ =~= ids_of(pending_of(self.tasks@.take(i + 1))));
            }
            i = i + 1;
        }
        assert(self.tasks@.take(i as int) =~= self.tasks@);
        assert(ids@ =~= ids_of(pending_of(self.spec_tasks())).take(
            pending_of(self.spec_tasks()).len() as int,
        ));
        ids
    }

    /// All tasks, in queue order.
    pub fn all_tasks(&self) -> (v: Vec<&Task>)
        ensures
            v@.map_values(|t: &Task| *t) == self.spec_tasks(),
    {
        let mut v: Vec<&Task> = Vec::new();
        let mut i: usize = 0;
        while i < self.tasks.len()
            invariant
                i <= self.tasks.len(),
                v@.map_values(|t: &Task| *t) == self.tasks@.take(i as int),
            decreases self.tasks.len() - i,
        {
            let ghost before = v@;
            v.push(&self.tasks[i]);
            assert(v@.map_values(|t: &Task| *t) =~= before.map_values(|t: &Task| *t).push(self.tasks@[i as int]));
            assert(self.tasks@.take(i + 1) =~= self.tasks@.take(i as int).push(self.tasks@[i as int]));
            i = i + 1;
        }
        assert(self.tasks@.take(i as int) =~= self.tasks@);
        v
    }

    /// Remove all completed, failed and cancelled tasks; returns how many
    /// were removed.
    pub fn cleanup_completed(&mut self) -> (removed: usize)
        ensures
            final(self).spec_tasks() == unfinished_of(old(self).spec_tasks()),
            removed == old(self).spec_tasks().len() - unfinished_of(old(self).spec_tasks()).len(),
            final(self).spec_next_id() == old(self).spec_next_id(),
    {
        let initial_len = self.tasks.len();
        let mut kept: Vec<Task> = Vec::new();
        let mut old_tasks: Vec<Task> = Vec::new();
        std::mem::swap(&mut old_tasks, &mut self.tasks);
        let ghost orig = old_tasks@;
        let mut i: usize = 0;
        while i < old_tasks.len()
            invariant
                old_tasks@ == orig,
                i <= old_tasks.len(),
                kept@ == unfinished_of(orig.take(i as int)),
                kept@.len() <= i,
            decreases old_tasks.len() - i,
        {
            assert(orig.take(i + 1).drop_last() =~= orig.take(i as int));
            let t = &old_tasks[i];
            let terminal = match t.status {
                TaskStatus::Completed | TaskStatus::Failed { .. } | TaskStatus::Cancelled => true,
                _ => false,
            };
            if !terminal {
                kept.push(t.clone());
            }
            i = i + 1;
        }
        assert(orig.take(i as int) =~= orig);
        let removed = initial_len - kept.len();
        self.tasks = kept;
        removed
    }
}


/// Operations of a task queue strategy.
pub trait TaskQueue {
    /// The queued tasks, in insertion order.
    spec fn queue_tasks(&self) -> Seq<Task>;

    /// The id the next call of `next_task_id` hands out.
    spec fn queue_next_id(&self) -> TaskId;

    /// The id the next call of `next_task_id` hands out, without taking it.
    fn peek_next_id(&self) -> (id: TaskId)
        ensures
            id == self.queue_next_id(),
    ;

    /// Generate a new unique task id.
    fn next_task_id(&mut self) -> (id: TaskId)
        requires
            old(self).queue_next_id() < u64::MAX,
        ensures
            id == old(self).queue_next_id(),
            final(self).queue_next_id() == old(self).queue_next_id() + 1,
            final(self).queue_tasks() == old(self).queue_tasks(),
    ;

    /// Add a new task to the queue.
    fn enqueue(&mut self, task: Task)
        ensures
            final(self).queue_tasks() == old(self).queue_tasks().push(task),
            final(self).queue_next_id() == old(self).queue_next_id(),
    ;

    /// Remove and return the next task to process.
    fn dequeue(&mut self) -> (r: Option<Task>)
        ensures
            final(self).queue_next_id() == old(self).queue_next_id(),
            dequeued(old(self).queue_tasks(), final(self).queue_tasks(), r),
    ;

    /// Peek at the next task without removing it.
    fn peek(&self) -> (r: Option<&Task>)
        ensures
            peeked(self.queue_tasks(), opt_task(r)),
    ;

    /// Get a task by id.
    fn get(&self, id: TaskId) -> (r: Option<&Task>)
        ensures
            opt_task(r) == task_with_id(self.queue_tasks(), id),
    ;

    /// Get a mutable reference to a task by id.
    fn get_mut(&mut self, id: TaskId) -> (r: Option<&mut Task>)
        ensures
            final(self).queue_next_id() == old(self).queue_next_id(),
            match first_with_id(old(self).queue_tasks(), id) {
                Some(i) => r matches Some(t) && *t == old(self).queue_tasks()[i]
                    && final(self).queue_tasks() == old(self).queue_tasks().update(i, *final(t)),
                None => r is None && final(self).queue_tasks() == old(self).queue_tasks(),
            },
    ;

    /// Remove a task by id (for cancellation).
    fn remove(&mut self, id: TaskId) -> (r: Option<Task>)
        ensures
            final(self).queue_next_id() == old(self).queue_next_id(),
            removed_by_id(old(self).queue_tasks(), final(self).queue_tasks(), id, r),
    ;

    /// Number of pending tasks.
    fn pending_count(&self) -> (n: usize)
        ensures
            n == count_pending(self.queue_tasks()),
    ;

    /// Total tasks (including assigned/in-progress).
    fn total_count(&self) -> (n: usize)
        ensures
            n == self.queue_tasks().len(),
    ;

    /// Get all pending tasks.
    fn pending_tasks(&self) -> (v: Vec<&Task>)
        ensures
            v@.map_values(|t: &Task| *t) == pending_of(self.queue_tasks()),
    ;

    /// Ids of the first `limit` pending tasks, in queue order.
    fn pending_task_ids_limited(&self, limit: usize) -> (ids: Vec<TaskId>)
        ensures
            ids@ == limited_pending_ids(self.queue_tasks(), limit),
    ;

    /// Get all tasks.
    fn all_tasks(&self) -> (v: Vec<&Task>)
        ensures
            v@.map_values(|t: &Task| *t) == self.queue_tasks(),
    ;

    /// Remove all completed, failed and cancelled tasks; returns the number
    /// of tasks removed.
    fn cleanup_completed(&mut self) -> (removed: usize)
        ensures
            final(self).queue_tasks() == unfinished_of(old(self).queue_tasks()),
            removed == old(self).queue_tasks().len() - unfinished_of(old(self).queue_tasks()).len(),
            final(self).queue_next_id() == old(self).queue_next_id(),
    ;
}

impl TaskQueue for FifoQueue {
    open spec fn queue_tasks(&self) -> Seq<Task> {
        self.spec_tasks()
    }

    open spec fn queue_next_id(&self) -> TaskId {
        self.spec_next_id()
    }

    fn peek_next_id(&self) -> (id: TaskId) {
        FifoQueue::peek_next_id(self)
    }

    fn next_task_id(&mut self) -> (id: TaskId) {
        FifoQueue::next_task_id(self)
    }

    fn enqueue(&mut self, task: Task) {
        FifoQueue::enqueue(self, task)
    }

    fn dequeue(&mut self) -> (r: Option<Task>) {
        FifoQueue::dequeue(self)
    }

    fn peek(&self) -> (r: Option<&Task>) {
        FifoQueue::peek(self)
    }

    fn get(&self, id: TaskId) -> (r: Option<&Task>) {
        FifoQueue::get(self, id)
    }

    fn get_mut(&mut self, id: TaskId) -> (r: Option<&mut Task>) {
        FifoQueue::get_mut(self, id)
    }

    fn remove(&mut self, id: TaskId) -> (r: Option<Task>) {
        FifoQueue::remove(self, id)
    }

    fn pending_count(&self) -> (n: usize) {
        FifoQueue::pending_count(self)
    }

    fn total_count(&self) -> (n: usize) {
        FifoQueue::total_count(self)
    }

    fn pending_tasks(&self) -> (v: Vec<&Task>) {
        FifoQueue::pending_tasks(self)
    }

    fn pending_task_ids_limited(&self, limit: usize) -> (ids: Vec<TaskId>) {
        FifoQueue::pending_task_ids_limited(self, limit)
    }

    fn all_tasks(&self) -> (v: Vec<&Task>) {
        FifoQueue::all_tasks(self)
    }

    fn cleanup_completed(&mut self) -> (removed: usize) {
        FifoQueue::cleanup_completed(self)
    }
}

/// Runtime-selectable task queue strategy.
pub enum QueueInstance {
    /// FIFO queue with priority support (default)
    Fifo(FifoQueue),
}

impl QueueInstance {
    /// Create the queue named by the configured strategy. Every strategy
    /// name selects the FIFO queue.
    pub fn from_config() -> (q: QueueInstance)
        ensures
            q matches QueueInstance::Fifo(f) && f.spec_tasks() == Seq::<Task>::empty()
                && f.spec_next_id() == 1,
    {
        QueueInstance::Fifo(FifoQueue::new())
    }
}

impl TaskQueue for QueueInstance {
    open spec fn queue_tasks(&self) -> Seq<Task> {
        match self {
            QueueInstance::Fifo(q) => q.spec_tasks(),
        }
    }

    open spec fn queue_next_id(&self) -> TaskId {
        match self {
            QueueInstance::Fifo(q) => q.spec_next_id(),
        }
    }

    fn peek_next_id(&self) -> (id: TaskId) {
        match self {
            QueueInstance::Fifo(q) => q.peek_next_id(),
        }
    }

    fn next_task_id(&mut self) -> (id: TaskId) {
        match self {
            QueueInstance::Fifo(q) => q.next_task_id(),
        }
    }

    fn enqueue(&mut self, task: Task) {
        match self {
            QueueInstance::Fifo(q) => q.enqueue(task),
        }
    }

    fn dequeue(&mut self) -> (r: Option<Task>) {
        match self {
            QueueInstance::Fifo(q) => q.dequeue(),
        }
    }

    fn peek(&self) -> (r: Option<&Task>) {
        match self {
            QueueInstance::Fifo(q) => q.peek(),
        }
    }

    fn get(&self, id: TaskId) -> (r: Option<&Task>) {
        match self {
            QueueInstance::Fifo(q) => q.get(id),
        }
    }

    fn get_mut(&mut self, id: TaskId) -> (r: Option<&mut Task>) {
        match self {
            QueueInstance::Fifo(q) => q.get_mut(id),
        }
    }

    fn remove(&mut self, id: TaskId) -> (r: Option<Task>) {
        match self {
            QueueInstance::Fifo(q) => q.remove(id),
        }
    }

    fn pending_count(&self) -> (n: usize) {
        match self {
            QueueInstance::Fifo(q) => q.pending_count(),
        }
    }

    fn total_count(&self) -> (n: usize) {
        match self {
            QueueInstance::Fifo(q) => q.total_count(),
        }
    }

    fn pending_tasks(&self) -> (v: Vec<&Task>) {
        match self {
            QueueInstance::Fifo(q) => q.pending_tasks(),
        }
    }

    fn pending_task_ids_limited(&self, limit: usize) -> (ids: Vec<TaskId>) {
        match self {
            QueueInstance::Fifo(q) => q.pending_task_ids_limited(limit),
        }
    }

    fn all_tasks(&self) -> (v: Vec<&Task>) {
        match self {
            QueueInstance::Fifo(q) => q.all_tasks(),
        }
    }

    fn cleanup_completed(&mut self) -> (removed: usize) {
        match self {
            QueueInstance::Fifo(q) => q.cleanup_completed(),
        }
    }
}

/// At most one index holds the next task to dequeue.
pub proof fn lemma_next_pending_unique(tasks: Seq<Task>, i: int, j: int)
    requires
        is_next_pending(tasks, i),
        is_next_pending(tasks, j),
    ensures
        i == j,
{
    if i < j {
        assert(is_pending(tasks[i]));
    } else if j < i {
        assert(is_pending(tasks[j]));
    }
}

/// Peeking shows the task that dequeuing removes: on the same queue, what
/// `peek` returns and what `dequeue` returns are the same task (or both
/// nothing), and peeking leaves the queue as it was.
pub proof fn law_peek_shows_next_dequeued(before: Seq<Task>, after: Seq<Task>, p: Option<Task>, d: Option<Task>)
    requires
        peeked(before, p),
        dequeued(before, after, d),
    ensures
        p == d,
{
    match (p, d) {
        (Some(a), Some(b)) => {
            let i = choose|i: int| is_next_pending(before, i) && a == before[i];
            let j = choose|j: int| is_next_pending(before, j) && b == before[j] && after == before.remove(j);
            lemma_next_pending_unique(before, i, j);
        },
        (Some(a), None) => {
            let i = choose|i: int| is_next_pending(before, i) && a == before[i];
            assert(is_pending(before[i]));
        },
        (None, Some(b)) => {
            let j = choose|j: int| is_next_pending(before, j) && b == before[j] && after == before.remove(j);
            assert(is_pending(before[j]));
        },
        (None, None) => {},
    }
}

/// Dequeuing takes out the pending task of highest priority, and among
/// those the one enqueued first: no pending task left behind outranks it,
/// and none of equal priority was queued before it.
pub proof fn law_dequeue_priority_then_fifo(before: Seq<Task>, after: Seq<Task>, t: Task)
    requires
        dequeued(before, after, Some(t)),
    ensures
        is_pending(t),
        forall|j: int| 0 <= j < after.len() && is_pending(#[trigger] after[j]) ==> rank(after[j].priority) <= rank(
            t.priority,
        ),
        exists|i: int|
            0 <= i < before.len() && before[i] == t && after == before.remove(i) && forall|j: int|
                0 <= j < i && is_pending(#[trigger] before[j]) ==> rank(before[j].priority) < rank(t.priority),
{
    let i = choose|i: int| is_next_pending(before, i) && t == before[i] && after == before.remove(i);
    assert forall|j: int| 0 <= j < after.len() && is_pending(#[trigger] after[j]) implies rank(after[j].priority)
        <= rank(t.priority) by {
        if j < i {
            assert(after[j] == before[j]);
        } else {
            assert(after[j] == before[j + 1]);
        }
    }
}

/// The index `first_with_id` finds holds a task with that id.
pub proof fn lemma_first_with_id_bounds(tasks: Seq<Task>, id: TaskId)
    ensures
        first_with_id(tasks, id) matches Some(i) ==> 0 <= i < tasks.len() && tasks[i].id == id,
    decreases tasks.len(),
{
    if tasks.len() > 0 {
        lemma_first_with_id_bounds(tasks.drop_last(), id);
    }
}

proof fn lemma_first_with_id_extend(tasks: Seq<Task>, k: int, id: TaskId)
    requires
        1 <= k <= tasks.len(),
        first_with_id(tasks.take(k - 1), id) is None,
        tasks[k - 1].id == id,
    ensures
        first_with_id(tasks, id) == Some(k - 1),
    decreases tasks.len() - k,
{
    assert(tasks.take(k).drop_last() =~= tasks.take(k - 1));
    assert(first_with_id(tasks.take(k), id) == Some(k - 1));
    if k < tasks.len() {
        lemma_first_with_id_stable(tasks, k, id);
    } else {
        assert(tasks.take(k) =~= tasks);
    }
}

proof fn lemma_first_with_id_stable(tasks: Seq<Task>, k: int, id: TaskId)
    requires
        0 <= k <= tasks.len(),
        first_with_id(tasks.take(k), id) is Some,
    ensures
        first_with_id(tasks, id) == first_with_id(tasks.take(k), id),
    decreases tasks.len() - k,
{
    if k < tasks.len() {
        assert(tasks.take(k + 1).drop_last() =~= tasks.take(k));
        lemma_first_with_id_stable(tasks, k + 1, id);
    } else {
        assert(tasks.take(k) =~= tasks);
    }
}

/// The pending tasks of a prefix are a prefix of the pending tasks.
proof fn lemma_pending_prefix(tasks: Seq<Task>, k: int)
    requires
        0 <= k <= tasks.len(),
    ensures
        pending_of(tasks.take(k)).len() <= pending_of(tasks).len(),
        pending_of(tasks.take(k)) == pending_of(tasks).take(pending_of(tasks.take(k)).len() as int),
    decreases tasks.len() - k,
{
    if k == tasks.len() {
        assert(tasks.take(k) =~= tasks);
        assert(pending_of(tasks).take(pending_of(tasks).len() as int) =~= pending_of(tasks));
    } else {
        lemma_pending_prefix(tasks, k + 1);
        assert(tasks.take(k + 1).drop_last() =~= tasks.take(k));
        let a = pending_of(tasks.take(k));
        let b = pending_of(tasks.take(k + 1));
        let c = pending_of(tasks);
        assert(b.take(a.len() as int) =~= a);
        assert(c.take(b.len() as int).take(a.len() as int) =~= c.take(a.len() as int));
    }
}

} // verus!
