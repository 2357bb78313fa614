//! The coordinator's clocks on a robot's task: when the task last made
//! progress, and since when the robot waits for a reserved cell. Times are
//! milliseconds on a monotonic clock, read by the caller.
use vstd::prelude::*;
use crate::search::Pos;

verus! {

/// Whole seconds from `since` to `now`; zero when `now` is earlier.
pub open spec fn whole_secs(since: u64, now: u64) -> u64 {
    if now >= since {
        ((now - since) / 1000) as u64
    } else {
        0
    }
}

/// Whole seconds from `since` to `now`.
pub fn secs_between(since: u64, now: u64) -> (s: u64)
    ensures
        s == whole_secs(since, now),
{
    if now >= since {
        (now - since) / 1000
    } else {
        0
    }
}

/// Progress and waiting clocks of one robot.
#[derive(Debug, Clone, Copy, PartialEq, Eq)]
pub struct ProgressClock {
    /// The task the robot works on, if any.
    pub current_task: Option<u64>,
    /// When the task last made progress.
    pub last_progress_ms: u64,
    /// The reserved cell the robot waits to enter, if any.
    pub waiting_for: Option<Pos>,
    /// Since when the robot waits.
    pub waiting_since_ms: Option<u64>,
}

impl ProgressClock {
    /// A robot with no task and no wait, seen at `now_ms`.
    pub fn new(now_ms: u64) -> (c: ProgressClock)
        ensures
            c.current_task is None,
            c.last_progress_ms == now_ms,
            c.waiting_for is None,
            c.waiting_since_ms is None,
    {
        ProgressClock { current_task: None, last_progress_ms: now_ms, waiting_for: None, waiting_since_ms: None }
    }

    /// Record progress on the task at `now_ms` (restarts the timeout).
    pub fn mark_progress(&mut self, now_ms: u64)
        ensures
            *final(self) == (ProgressClock { last_progress_ms: now_ms, ..*old(self) }),
    {
        self.last_progress_ms = now_ms;
    }

    /// Record at `now_ms` that the robot waits to enter `target`; a wait
    /// for the same cell keeps its start.
    pub fn set_wait(&mut self, target: Pos, now_ms: u64)
        ensures
            final(self).current_task == old(self).current_task,
            final(self).last_progress_ms == old(self).last_progress_ms,
            final(self).waiting_for == Some(target),
            final(self).waiting_since_ms == (if old(self).waiting_for != Some(target) || old(self).waiting_since_ms is None {
                Some(now_ms)
            } else {
                old(self).waiting_since_ms
            }),
    {
        let same = match self.waiting_for {
            Some(t) => t.0 == target.0 && t.1 == target.1,
            None => false,
        };
        if !same {
            self.waiting_for = Some(target);
            self.waiting_since_ms = Some(now_ms);
        } else if self.waiting_since_ms.is_none() {
            self.waiting_since_ms = Some(now_ms);
        }
    }

    /// The robot no longer waits.
    pub fn clear_wait(&mut self)
        ensures
            *final(self) == (ProgressClock { waiting_for: None, waiting_since_ms: None, ..*old(self) }),
    {
        self.waiting_for = None;
        self.waiting_since_ms = None;
    }

    /// Whole seconds the robot has waited at `now_ms`, if it waits.
    pub fn wait_elapsed_secs(&self, now_ms: u64) -> (s: Option<u64>)
        ensures
            s == (match self.waiting_since_ms {
                Some(since) => Some(whole_secs(since, now_ms)),
                None => None,
            }),
    {
        match self.waiting_since_ms {
            Some(since) => Some(secs_between(since, now_ms)),
            None => None,
        }
    }

    /// Whether the task has made no progress for `timeout_secs` whole
    /// seconds at `now_ms`.
    pub fn is_task_timed_out(&self, timeout_secs: u64, now_ms: u64) -> (b: bool)
        ensures
            b == (self.current_task is Some && whole_secs(self.last_progress_ms, now_ms) >= timeout_secs),
    {
        self.current_task.is_some() && secs_between(self.last_progress_ms, now_ms) >= timeout_secs
    }
}

/// Progress restarts the timeout: right after progress is recorded, a task
/// is not timed out for any positive timeout, until that many seconds
/// pass; and a robot with no task never times out.
pub proof fn law_progress_restarts_timeout(c: ProgressClock, now: u64, later: u64, timeout_secs: u64)
    requires
        timeout_secs > 0,
        now <= later,
        later - now < timeout_secs * 1000,
    ensures
        !((ProgressClock { last_progress_ms: now, ..c }).current_task is Some && whole_secs(now, later)
            >= timeout_secs),
        c.current_task is None ==> !(c.current_task is Some && whole_secs(c.last_progress_ms, later) >= timeout_secs),
{
    assert((later - now) / 1000 < timeout_secs) by (nonlinear_arith)
        requires
            later - now < timeout_secs * 1000,
            now <= later,
    ;
}

} // verus!
