//! Decisions of the scheduler service: named locations typed at its
//! prompt, how failed assignments are classified and retried, which
//! pickups a robot may be assigned, and the task list it broadcasts.
use vstd::prelude::*;
use vstd::arithmetic::power2::{pow2, lemma_pow2_unfold};
use crate::queue::{TaskQueue, is_pending, is_terminal, task_with_id};
use crate::tasks::{Task, TaskId, TaskStatus, TaskListSnapshot};
use crate::text::{chars_of, lower_seq, lower_chars, parse_unsigned, parse_unsigned_chars};

verus! {

broadcast use vstd::seq_lib::group_to_multiset_ensures;

/// Marker base of named shelf locations: `S<n>` stands for
/// `(SHELF_MARKER_BASE + n, 0)`.
pub const SHELF_MARKER_BASE: usize = 10000;

/// Marker base of named dropoff locations: `D<n>` stands for
/// `(DROPOFF_MARKER_BASE + n, 0)`.
pub const DROPOFF_MARKER_BASE: usize = 20000;

/// Most active tasks a task list carries.
pub const TASK_LIST_ACTIVE_WINDOW: usize = 512;

/// Most finished tasks a task list carries.
pub const TASK_LIST_RECENT_TERMINAL_WINDOW: usize = 1024;

/// Most tasks one mass-add request creates.
pub const MASS_ADD_MAX_COUNT: u32 = 10000;

/// Base delay before retrying an assignment that found no path.
pub const RETRYABLE_NO_PATH_BASE_BACKOFF_MS: u64 = 250;

/// Largest delay before such a retry, before jitter.
pub const RETRYABLE_NO_PATH_MAX_BACKOFF_MS: u64 = 3000;

/// Largest random jitter added to such a delay.
pub const RETRYABLE_NO_PATH_JITTER_MS: u64 = 200;

/// What a named location `name` stands for: a shelf marker for `S<n>`, a
/// dropoff marker for `D<n>`, where `<n>` is unsigned decimal text.
pub open spec fn named_location(name: Seq<char>) -> Option<(usize, usize)> {
    if name.len() < 2 {
        None
    } else {
        match parse_unsigned(name.drop_first(), usize::MAX as nat) {
            None => None,
            Some(idx) => if name[0] == 'S' {
                Some(((10000 + idx) as usize, 0usize))
            } else if name[0] == 'D' {
                Some(((20000 + idx) as usize, 0usize))
            } else {
                None
            },
        }
    }
}

/// Whether parsing `name` as a named location is defined: it does not
/// start with a multi-byte character (it is sliced after its first byte),
/// and its marker fits in a `usize`.
pub open spec fn named_location_safe(name: Seq<char>) -> bool {
    &&& name.len() == 0 || (name[0] as u32) < 128
    &&& name.len() >= 2 && name[0] == 'S' ==> (parse_unsigned(name.drop_first(), usize::MAX as nat) matches Some(v)
        ==> v + 10000 <= usize::MAX)
    &&& name.len() >= 2 && name[0] == 'D' ==> (parse_unsigned(name.drop_first(), usize::MAX as nat) matches Some(v)
        ==> v + 20000 <= usize::MAX)
}

/// Parse a named location like `S1` or `D2` into its marker coordinates;
/// the markers are resolved against the map later.
pub fn parse_named_location(name: &str) -> (r: Option<(usize, usize)>)
    requires
        named_location_safe(name@),
    ensures
        r == named_location(name@),
{
    let chars = chars_of(name);
    if chars.len() < 2 {
        return None;
    }
    assert(chars@.subrange(1, chars@.len() as int) =~= name@.drop_first());
    let idx = match parse_unsigned_chars(chars.as_slice(), 1, usize::MAX as u64) {
        Some(v) => v as usize,
        None => return None,
    };
    if chars[0] == 'S' {
        Some((SHELF_MARKER_BASE + idx, 0))
    } else if chars[0] == 'D' {
        Some((DROPOFF_MARKER_BASE + idx, 0))
    } else {
        None
    }
}

/// Whether `w` occurs in `s` as a contiguous piece.
pub open spec fn contains_piece(s: Seq<char>, w: Seq<char>) -> bool {
    exists|i: int| 0 <= i && i + w.len() <= s.len() && #[trigger] s.subrange(i, i + w.len()) == w
}

/// Whether `w` occurs in `s`.
fn contains_chars(s: &Vec<char>, w: &Vec<char>) -> (b: bool)
    ensures
        b == contains_piece(s@, w@),
{
    let n = s.len();
    let m = w.len();
    if m > n {
        return false;
    }
    if m == 0 {
        assert(s@.subrange(0, 0 + w@.len() as int) =~= w@);
        return true;
    }
    let last = n - m;
    let mut i: usize = 0;
    while i <= last
        invariant
            n == s@.len(),
            m == w@.len(),
            1 <= m <= n,
            last == n - m,
            i <= last + 1,
            forall|j: int| 0 <= j < i ==> #[trigger] s@.subrange(j, j + m) != w@,
        decreases last + 1 - i,
    {
        let mut k: usize = 0;
        let mut same = true;
        while k < m && same
            invariant
                n == s@.len(),
                m == w@.len(),
                i <= last,
                1 <= m <= n,
                last == n - m,
                k <= m,
                same ==> forall|x: int| 0 <= x < k ==> s@[i + x] == w@[x],
                !same ==> s@.subrange(i as int, i + m) != w@,
            decreases m - k + (if same { 1int } else { 0int }),
        {
            if s[i + k] != w[k] {
                same = false;
                assert(s@.subrange(i as int, i + m)[k as int] != w@[k as int]);
            } else {
                k = k + 1;
            }
        }
        if same {
            assert(s@.subrange(i as int, i + m) =~= w@);
            return true;
        }
        i = i + 1;
    }
    proof {
        assert forall|j: int| 0 <= j && j + w@.len() <= s@.len() implies #[trigger] s@.subrange(j, j + w@.len()) != w@ by {
            assert(j < i);
        }
    }
    false
}

/// Whether a failure reason says the robot is disabled (any letter case).
pub fn is_disabled_failure_reason(reason: &str) -> (b: bool)
    ensures
        b == contains_piece(lower_seq(reason@), "disabled"@),
{
    let r = chars_of(reason);
    let lowered = lower_chars(&r);
    contains_chars(&lowered, &chars_of("disabled"))
}

/// Whether a failure reason says no path to the pickup was found (any
/// letter case); such failures are retried.
pub fn is_retryable_no_path_failure(reason: &str) -> (b: bool)
    ensures
        b == contains_piece(lower_seq(reason@), "no path to pickup"@),
{
    let r = chars_of(reason);
    let lowered = lower_chars(&r);
    contains_chars(&lowered, &chars_of("no path to pickup"))
}

/// The delay before retry number `attempt` of a no-path failure: the base
/// delay doubled for each earlier attempt (at most 16 times), capped.
pub open spec fn backoff_ms(attempt: u32) -> u64 {
    let e: nat = if attempt <= 1 { 0 } else if attempt - 1 <= 16 { (attempt - 1) as nat } else { 16 };
    let base = 250 * pow2(e);
    if base <= 3000 {
        base as u64
    } else {
        3000
    }
}

/// Retry delays start at the base delay, never shrink as attempts grow and
/// never exceed the cap.
pub proof fn law_backoff_grows_to_cap(a: u32, b: u32)
    requires
        a <= b,
    ensures
        250 <= backoff_ms(a) <= backoff_ms(b) <= 3000,
        a <= 1 ==> backoff_ms(a) == 250,
{
    let ea: nat = if a <= 1 { 0 } else if a - 1 <= 16 { (a - 1) as nat } else { 16 };
    let eb: nat = if b <= 1 { 0 } else if b - 1 <= 16 { (b - 1) as nat } else { 16 };
    vstd::arithmetic::power2::lemma_pow2_pos(ea);
    vstd::arithmetic::power2::lemma_pow2_pos(eb);
    vstd::arithmetic::power2::lemma2_to64();
    if ea < eb {
        vstd::arithmetic::power2::lemma_pow2_strictly_increases(ea, eb);
    }
    assert(pow2(ea) <= pow2(eb));
}

/// The delay before retry number `attempt`, without jitter.
pub fn base_retry_backoff_ms(attempt: u32) -> (ms: u64)
    ensures
        ms == backoff_ms(attempt),
{
    let sub = attempt.saturating_sub(1);
    let exponent: u32 = if sub < 16 { sub } else { 16 };
    let mut factor: u64 = 1;
    let mut i: u32 = 0;
    proof {
        vstd::arithmetic::power2::lemma2_to64();
    }
    while i < exponent
        invariant
            i <= exponent <= 16,
            factor == pow2(i as nat),
            factor <= 65536,
        decreases exponent - i,
    {
        proof {
            lemma_pow2_unfold((i + 1) as nat);
            vstd::arithmetic::power2::lemma2_to64();
            if i + 1 < 16 {
                vstd::arithmetic::power2::lemma_pow2_strictly_increases((i + 1) as nat, 16);
            }
        }
        factor = factor * 2;
        i = i + 1;
    }
    proof {
        vstd::arithmetic::power2::lemma2_to64();
    }
    let base = RETRYABLE_NO_PATH_BASE_BACKOFF_MS * factor;
    if base < RETRYABLE_NO_PATH_MAX_BACKOFF_MS {
        base
    } else {
        RETRYABLE_NO_PATH_MAX_BACKOFF_MS
    }
}

/// The delay before retry number `attempt` with the given jitter.
pub fn backoff_with_jitter_ms(attempt: u32, jitter: u64) -> (ms: u64)
    ensures
        ms == (if backoff_ms(attempt) + jitter <= u64::MAX { (backoff_ms(attempt) + jitter) as u64 } else { u64::MAX }),
{
    base_retry_backoff_ms(attempt).saturating_add(jitter)
}

/// The delay before retry number `attempt`, with a random jitter of at
/// most `RETRYABLE_NO_PATH_JITTER_MS`.
pub fn retry_backoff_with_jitter_ms(attempt: u32) -> (ms: u64)
    ensures
        backoff_ms(attempt) <= ms <= backoff_ms(attempt) + 200,
{
    let mut rng = crate::random::thread_rng();
    let jitter = crate::random::gen_range_inclusive(&mut rng, 0, RETRYABLE_NO_PATH_JITTER_MS);
    backoff_with_jitter_ms(attempt, jitter)
}

/// How many moves WHCA* plans ahead: the window divided by the move time.
pub fn whca_pickup_horizon_steps() -> (n: usize)
    ensures
        n == 32,
{
    let move_time_ms: u64 = if crate::config::MOVE_TIME_MS > 1 { crate::config::MOVE_TIME_MS } else { 1 };
    (crate::config::WINDOW_SIZE_MS / move_time_ms) as usize
}

/// The Manhattan distance between two cells.
pub open spec fn manhattan(a: (usize, usize), b: (usize, usize)) -> int {
    (if a.0 >= b.0 { a.0 - b.0 } else { b.0 - a.0 }) + (if a.1 >= b.1 { a.1 - b.1 } else { b.1 - a.1 })
}

/// Whether a pickup lies within the planning horizon of a robot at
/// `start`: no farther than the horizon in Manhattan distance.
pub fn is_within_pickup_horizon(start: (usize, usize), pickup: (usize, usize)) -> (b: bool)
    requires
        manhattan(start, pickup) <= usize::MAX,
    ensures
        b == (manhattan(start, pickup) <= 32),
{
    let dx = if start.0 >= pickup.0 { start.0 - pickup.0 } else { pickup.0 - start.0 };
    let dy = if start.1 >= pickup.1 { start.1 - pickup.1 } else { pickup.1 - start.1 };
    dx + dy <= whca_pickup_horizon_steps()
}

/// When a finished task finished: its completion time, else its creation
/// time.
pub open spec fn recency(t: Task) -> u64 {
    match t.completed_at {
        Some(c) => c,
        None => t.created_at,
    }
}

/// Whether task `a` finished before task `b`: by time, then by id.
pub open spec fn older(a: Task, b: Task) -> bool {
    recency(a) < recency(b) || (recency(a) == recency(b) && a.id < b.id)
}

/// When a finished task finished.
pub fn terminal_recency_ms(task: &Task) -> (ms: u64)
    ensures
        ms == recency(*task),
{
    match task.completed_at {
        Some(c) => c,
        None => task.created_at,
    }
}

/// The index of the first oldest task of `w`.
pub open spec fn oldest_of(w: Seq<Task>) -> int
    decreases w.len(),
{
    if w.len() <= 1 {
        0
    } else {
        let i = oldest_of(w.drop_last());
        if older(w.last(), w[i]) {
            w.len() - 1
        } else {
            i
        }
    }
}

proof fn lemma_oldest_of(w: Seq<Task>)
    requires
        w.len() > 0,
    ensures
        0 <= oldest_of(w) < w.len(),
        forall|j: int| 0 <= j < w.len() ==> !older(#[trigger] w[j], w[oldest_of(w)]),
        forall|j: int| 0 <= j < oldest_of(w) ==> older(w[oldest_of(w)], #[trigger] w[j]),
    decreases w.len(),
{
    if w.len() > 1 {
        let v = w.drop_last();
        lemma_oldest_of(v);
        assert forall|j: int| 0 <= j < v.len() implies #[trigger] w[j] == v[j] by {}
    }
}

/// The index of the oldest finished task of `window` (the first of equally
/// old ones), or `None` when it is empty.
pub fn oldest_recent_terminal_index(window: &[Task]) -> (r: Option<usize>)
    ensures
        window@.len() == 0 ==> r is None,
        window@.len() > 0 ==> r == Some(oldest_of(window@) as usize),
{
    if window.len() == 0 {
        return None;
    }
    let mut best: usize = 0;
    let mut best_key: (u64, u64) = (terminal_recency_ms(&window[0]), window[0].id);
    let mut i: usize = 1;
    while i < window.len()
        invariant
            1 <= i <= window@.len(),
            best == oldest_of(window@.take(i as int)),
            best < i,
            best_key == (recency(window@[best as int]), window@[best as int].id),
        decreases window@.len() - i,
    {
        let ghost prefix = window@.take(i as int);
        let ghost next = window@.take(i + 1);
        assert(next.drop_last() =~= prefix);
        assert(next.last() == window@[i as int]);
        assert(prefix[best as int] == window@[best as int]);
        let key = (terminal_recency_ms(&window[i]), window[i].id);
        if key.0 < best_key.0 || (key.0 == best_key.0 && key.1 < best_key.1) {
            best = i;
            best_key = key;
        }
        i = i + 1;
    }
    assert(window@.take(i as int) =~= window@);
    Some(best)
}

/// The window after offering finished task `t`: kept as is when the
/// limit is zero; `t` is added while there is room; otherwise `t` replaces
/// the oldest task when it finished later.
pub open spec fn pushed(w: Seq<Task>, t: Task, limit: nat) -> Seq<Task> {
    if limit == 0 {
        w
    } else if w.len() < limit {
        w.push(t)
    } else if w.len() > 0 && older(w[oldest_of(w)], t) {
        w.update(oldest_of(w), t)
    } else {
        w
    }
}

/// Offer finished task `task` to the window of recent finished tasks.
pub fn push_recent_terminal_task(window: &mut Vec<Task>, task: &Task, limit: usize)
    ensures
        final(window)@ == pushed(old(window)@, *task, limit as nat),
{
    if limit == 0 {
        return;
    }
    if window.len() < limit {
        window.push(task.clone());
        return;
    }
    proof {
        lemma_oldest_of(window@);
    }
    let oldest_idx = match oldest_recent_terminal_index(window.as_slice()) {
        Some(i) => i,
        None => return,
    };
    let candidate = (terminal_recency_ms(task), task.id);
    let oldest = (terminal_recency_ms(&window[oldest_idx]), window[oldest_idx].id);
    if candidate.0 > oldest.0 || (candidate.0 == oldest.0 && candidate.1 > oldest.1) {
        window.set(oldest_idx, task.clone());
    }
}

/// The window after offering each task of `ts` in turn, from an empty one.
pub open spec fn pushes(ts: Seq<Task>, limit: nat) -> Seq<Task>
    decreases ts.len(),
{
    if ts.len() == 0 {
        Seq::empty()
    } else {
        pushed(pushes(ts.drop_last(), limit), ts.last(), limit)
    }
}

/// Whether any two tasks of `ts` finished in a definite order (their
/// `(finish time, id)` keys differ).
pub open spec fn distinct_keys(ts: Seq<Task>) -> bool {
    forall|a: int, b: int| 0 <= a < b < ts.len() ==> older(#[trigger] ts[a], #[trigger] ts[b]) || older(ts[b], ts[a])
}

proof fn lemma_contained_ordered(ts: Seq<Task>, x: Task, y: Task)
    requires
        distinct_keys(ts),
        ts.contains(x),
        ts.contains(y),
        x != y,
    ensures
        older(x, y) || older(y, x),
{
    let a = choose|a: int| 0 <= a < ts.len() && ts[a] == x;
    let b = choose|b: int| 0 <= b < ts.len() && ts[b] == y;
    if a < b {
        assert(older(ts[a], ts[b]) || older(ts[b], ts[a]));
    } else {
        assert(older(ts[b], ts[a]) || older(ts[a], ts[b]));
    }
}

/// Offering finished tasks one by one to a window of `limit` keeps the
/// `limit` latest finished of them: the window holds `min(n, limit)` of the
/// offered tasks, each once; while no more than `limit` were offered it
/// holds all of them in order; and every offered task left out finished
/// before every task kept. (Tasks whose finish time and id coincide are
/// left out of the statement.)
pub proof fn law_recent_window_keeps_latest(ts: Seq<Task>, limit: nat)
    requires
        distinct_keys(ts),
    ensures
        pushes(ts, limit).len() == if ts.len() < limit { ts.len() } else { limit },
        ts.len() <= limit ==> pushes(ts, limit) == ts,
        forall|i: int| 0 <= i < pushes(ts, limit).len() ==> ts.contains(#[trigger] pushes(ts, limit)[i]),
        forall|i: int, k: int|
            0 <= i < k < pushes(ts, limit).len() ==> #[trigger] pushes(ts, limit)[i] != #[trigger] pushes(ts, limit)[k],
        forall|j: int, i: int|
            0 <= j < ts.len() && !pushes(ts, limit).contains(ts[j]) && 0 <= i < pushes(ts, limit).len() ==> older(
                #[trigger] ts[j],
                #[trigger] pushes(ts, limit)[i],
            ),
    decreases ts.len(),
{
    if ts.len() > 0 {
        let n = ts.len();
        let p = ts.drop_last();
        let t = ts.last();
        assert forall|a: int, b: int| 0 <= a < b < p.len() implies older(#[trigger] p[a], #[trigger] p[b]) || older(
            p[b],
            p[a],
        ) by {
            assert(p[a] == ts[a] && p[b] == ts[b]);
        }
        law_recent_window_keeps_latest(p, limit);
        let v = pushes(p, limit);
        let w = pushes(ts, limit);
        assert(w == pushed(v, t, limit));
        assert forall|x: Task| p.contains(x) implies ts.contains(x) by {
            let j = choose|j: int| 0 <= j < p.len() && p[j] == x;
            assert(ts[j] == x);
        }
        assert(ts[n - 1] == t);
        assert forall|i: int| 0 <= i < v.len() implies #[trigger] v[i] != t by {
            assert(p.contains(v[i]));
            let j = choose|j: int| 0 <= j < p.len() && p[j] == v[i];
            assert(ts[j] == p[j]);
            assert(older(ts[j], ts[n - 1]) || older(ts[n - 1], ts[j]));
        }
        if limit == 0 {
            assert(w == v);
        } else if v.len() < limit {
            assert(v == p);
            assert(w =~= ts);
        } else {
            lemma_oldest_of(v);
            let o = oldest_of(v);
            assert(p.contains(v[o]));
            lemma_contained_ordered(ts, v[o], t);
            // Every other kept task finished after the oldest one.
            assert forall|i: int| 0 <= i < v.len() && i != o implies older(v[o], #[trigger] v[i]) by {
                assert(p.contains(v[i]));
                if i < o {
                    assert(v[i] != v[o]);
                } else {
                    assert(v[o] != v[i]);
                }
                lemma_contained_ordered(ts, v[o], v[i]);
            }
            if older(v[o], t) {
                assert(w == v.update(o, t));
                assert(w[o] == t);
                assert forall|i: int| 0 <= i < w.len() implies ts.contains(#[trigger] w[i]) by {
                    if i != o {
                        assert(w[i] == v[i]);
                    }
                }
                assert forall|i: int, k: int| 0 <= i < k < w.len() implies #[trigger] w[i] != #[trigger] w[k] by {
                    if i != o && k != o {
                        assert(w[i] == v[i] && w[k] == v[k]);
                    } else if i == o {
                        assert(w[k] == v[k]);
                    } else {
                        assert(w[i] == v[i]);
                    }
                }
                assert forall|j: int, i: int| 0 <= j < ts.len() && !w.contains(ts[j]) && 0 <= i < w.len() implies older(
                    #[trigger] ts[j],
                    #[trigger] w[i],
                ) by {
                    if j == n - 1 {
                        assert(w.contains(t));
                    } else {
                        assert(ts[j] == p[j]);
                        if v.contains(ts[j]) {
                            let k = choose|k: int| 0 <= k < v.len() && v[k] == ts[j];
                            if k != o {
                                assert(w[k] == v[k]);
                            }
                            if i != o {
                                assert(w[i] == v[i]);
                            }
                        } else {
                            assert(older(ts[j], v[o]));
                            if i != o {
                                assert(w[i] == v[i]);
                            }
                        }
                    }
                }
            } else {
                assert(w == v);
                assert(older(t, v[o]));
                assert forall|j: int, i: int| 0 <= j < ts.len() && !w.contains(ts[j]) && 0 <= i < w.len() implies older(
                    #[trigger] ts[j],
                    #[trigger] w[i],
                ) by {
                    if j < n - 1 {
                        assert(ts[j] == p[j]);
                        assert(older(p[j], v[i]));
                    }
                }
            }
        }
    }
}

/// Whether a task is active: pending, assigned or in progress.
pub open spec fn is_active(t: Task) -> bool {
    t.status is Pending || t.status is Assigned || t.status is InProgress
}

/// The active tasks of `ts`, in order.
pub open spec fn active_of(ts: Seq<Task>) -> Seq<Task>
    decreases ts.len(),
{
    if ts.len() == 0 {
        Seq::empty()
    } else if is_active(ts.last()) {
        active_of(ts.drop_last()).push(ts.last())
    } else {
        active_of(ts.drop_last())
    }
}

/// How many tasks of `ts` have a status that satisfies `p`.
pub open spec fn count_matching(ts: Seq<Task>, p: spec_fn(TaskStatus) -> bool) -> nat
    decreases ts.len(),
{
    if ts.len() == 0 {
        0
    } else {
        count_matching(ts.drop_last(), p) + if p(ts.last().status) { 1nat } else { 0nat }
    }
}

/// The window of recent finished tasks after offering each finished task
/// of `ts` in turn.
pub open spec fn recent_window(ts: Seq<Task>, limit: nat) -> Seq<Task>
    decreases ts.len(),
{
    if ts.len() == 0 {
        Seq::empty()
    } else if is_terminal(ts.last()) {
        pushed(recent_window(ts.drop_last(), limit), ts.last(), limit)
    } else {
        recent_window(ts.drop_last(), limit)
    }
}

/// Whether `s` runs from the latest finished task to the oldest.
pub open spec fn newest_first(s: Seq<Task>) -> bool {
    forall|i: int, j: int| 0 <= i < j < s.len() ==> !older(#[trigger] s[i], #[trigger] s[j])
}

/// The index of the first newest task of `w`.
fn newest_index(w: &Vec<Task>) -> (i: usize)
    requires
        w@.len() > 0,
    ensures
        i < w@.len(),
        forall|j: int| 0 <= j < w@.len() ==> !older(w@[i as int], #[trigger] w@[j]),
{
    let mut best: usize = 0;
    let mut i: usize = 1;
    while i < w.len()
        invariant
            1 <= i <= w@.len(),
            best < i,
            forall|j: int| 0 <= j < i ==> !older(w@[best as int], #[trigger] w@[j]),
        decreases w@.len() - i,
    {
        let a = (terminal_recency_ms(&w[i]), w[i].id);
        let b = (terminal_recency_ms(&w[best]), w[best].id);
        if a.0 > b.0 || (a.0 == b.0 && a.1 > b.1) {
            best = i;
        }
        i = i + 1;
    }
    best
}

/// The tasks of `w`, latest finished first.
fn sort_newest_first(w: Vec<Task>) -> (s: Vec<Task>)
    ensures
        newest_first(s@),
        s@.to_multiset() == w@.to_multiset(),
{
    let mut rest = w;
    let mut out: Vec<Task> = Vec::new();
    let ghost total = rest@.to_multiset();
    while rest.len() > 0
        invariant
            out@.to_multiset().add(rest@.to_multiset()) == total,
            total == w@.to_multiset(),
            newest_first(out@),
            forall|a: int, b: int| 0 <= a < out@.len() && 0 <= b < rest@.len() ==> !older(#[trigger] out@[a], #[trigger] rest@[b]),
        decreases rest@.len(),
    {
        let i = newest_index(&rest);
        let ghost before_rest = rest@;
        let ghost before_out = out@;
        let t = rest.remove(i);
        proof {
            assert(rest@ == before_rest.remove(i as int));
            assert(before_rest.remove(i as int).to_multiset() =~= before_rest.to_multiset().remove(before_rest[i as int]));
            assert(before_rest.to_multiset().count(t) > 0) by {
                assert(before_rest.contains(t));
            }
        }
        out.push(t);
        proof {
            assert(out@.to_multiset() =~= before_out.to_multiset().insert(t));
            assert(out@.to_multiset().add(rest@.to_multiset()) =~= total);
            assert forall|a: int, b: int| 0 <= a < out@.len() && 0 <= b < rest@.len() implies !older(#[trigger] out@[a], #[trigger] rest@[b]) by {
                let jb = if b < i { b } else { b + 1 };
                assert(rest@[b] == before_rest[jb]);
                if a < before_out.len() {
                    assert(out@[a] == before_out[a]);
                } else {
                    assert(out@[a] == before_rest[i as int]);
                }
            }
            assert forall|a: int, b: int| 0 <= a < b < out@.len() implies !older(#[trigger] out@[a], #[trigger] out@[b]) by {
                if b < before_out.len() {
                    assert(out@[a] == before_out[a] && out@[b] == before_out[b]);
                } else {
                    assert(out@[a] == before_out[a]);
                    assert(out@[b] == before_rest[i as int]);
                }
            }
        }
    }
    proof {
        assert(rest@.to_multiset() =~= vstd::multiset::Multiset::empty());
        assert(out@.to_multiset().add(vstd::multiset::Multiset::empty()) =~= out@.to_multiset());
    }
    out
}

/// Build the task list the scheduler broadcasts from the queued tasks
/// `tasks`, stamped `timestamp_ms`: the totals per status, the first
/// active tasks up to the active window, and the recent finished tasks,
/// latest first.
pub fn build_task_list_snapshot_at(tasks: &Vec<&Task>, timestamp_ms: u64) -> (s: TaskListSnapshot)
    ensures
        s.active_total == active_of(tasks@.map_values(|t: &Task| *t)).len(),
        s.completed_total == count_matching(tasks@.map_values(|t: &Task| *t), |st: TaskStatus| st is Completed),
        s.failed_total == count_matching(tasks@.map_values(|t: &Task| *t), |st: TaskStatus| st is Failed),
        s.cancelled_total == count_matching(tasks@.map_values(|t: &Task| *t), |st: TaskStatus| st is Cancelled),
        s.active_tasks@ == active_of(tasks@.map_values(|t: &Task| *t)).take(
            if active_of(tasks@.map_values(|t: &Task| *t)).len() < 512 {
                active_of(tasks@.map_values(|t: &Task| *t)).len() as int
            } else {
                512
            },
        ),
        newest_first(s.recent_terminal_tasks@),
        s.recent_terminal_tasks@.to_multiset() == recent_window(tasks@.map_values(|t: &Task| *t), 1024).to_multiset(),
        s.timestamp_ms == timestamp_ms,
{
    let ghost ts = tasks@.map_values(|t: &Task| *t);
    let mut active_tasks: Vec<Task> = Vec::new();
    let mut recent: Vec<Task> = Vec::new();
    let mut active_total: usize = 0;
    let mut completed_total: usize = 0;
    let mut failed_total: usize = 0;
    let mut cancelled_total: usize = 0;
    let mut i: usize = 0;
    assert(ts.take(0) =~= Seq::<Task>::empty());
    while i < tasks.len()
        invariant
            i <= tasks@.len(),
            ts == tasks@.map_values(|t: &Task| *t),
            active_total == active_of(ts.take(i as int)).len(),
            completed_total == count_matching(ts.take(i as int), |st: TaskStatus| st is Completed),
            failed_total == count_matching(ts.take(i as int), |st: TaskStatus| st is Failed),
            cancelled_total == count_matching(ts.take(i as int), |st: TaskStatus| st is Cancelled),
            active_total <= i && completed_total <= i && failed_total <= i && cancelled_total <= i,
            active_tasks@ == active_of(ts.take(i as int)).take(
                if active_of(ts.take(i as int)).len() < 512 { active_of(ts.take(i as int)).len() as int } else { 512 },
            ),
            recent@ == recent_window(ts.take(i as int), 1024),
        decreases tasks@.len() - i,
    {
        let task = tasks[i];
        let ghost prefix = ts.take(i as int);
        let ghost next = ts.take(i + 1);
        assert(next.drop_last() =~= prefix);
        assert(next.last() == *task);
        match &task.status {
            TaskStatus::Pending | TaskStatus::Assigned { .. } | TaskStatus::InProgress { .. } => {
                let ghost before = active_tasks@;
                active_total = active_total + 1;
                if active_tasks.len() < TASK_LIST_ACTIVE_WINDOW {
                    active_tasks.push(task.clone());
                }
                assert(active_tasks@ =~= active_of(next).take(
                    if active_of(next).len() < 512 { active_of(next).len() as int } else { 512 },
                ));
            },
            TaskStatus::Completed => {
                completed_total = completed_total + 1;
                push_recent_terminal_task(&mut recent, task, TASK_LIST_RECENT_TERMINAL_WINDOW);
            },
            TaskStatus::Failed { .. } => {
                failed_total = failed_total + 1;
                push_recent_terminal_task(&mut recent, task, TASK_LIST_RECENT_TERMINAL_WINDOW);
            },
            TaskStatus::Cancelled => {
                cancelled_total = cancelled_total + 1;
                push_recent_terminal_task(&mut recent, task, TASK_LIST_RECENT_TERMINAL_WINDOW);
            },
        }
        i = i + 1;
    }
    assert(ts.take(i as int) =~= ts);
    let recent_terminal_tasks = sort_newest_first(recent);
    TaskListSnapshot {
        active_tasks,
        recent_terminal_tasks,
        active_total,
        completed_total,
        failed_total,
        cancelled_total,
        timestamp_ms,
    }
}

/// Build the task list of `queue`, stamped with the current Unix time.
pub fn build_task_list_snapshot<Q: TaskQueue>(queue: &Q) -> (s: TaskListSnapshot)
    ensures
        s.active_total == active_of(queue.queue_tasks()).len(),
        s.completed_total == count_matching(queue.queue_tasks(), |st: TaskStatus| st is Completed),
        s.failed_total == count_matching(queue.queue_tasks(), |st: TaskStatus| st is Failed),
        s.cancelled_total == count_matching(queue.queue_tasks(), |st: TaskStatus| st is Cancelled),
        s.active_tasks@ == active_of(queue.queue_tasks()).take(
            if active_of(queue.queue_tasks()).len() < 512 { active_of(queue.queue_tasks()).len() as int } else { 512 },
        ),
        newest_first(s.recent_terminal_tasks@),
        s.recent_terminal_tasks@.to_multiset() == recent_window(queue.queue_tasks(), 1024).to_multiset(),
{
    let tasks = queue.all_tasks();
    let now = crate::clock::unix_timestamp_ms();
    build_task_list_snapshot_at(&tasks, now)
}

/// A mass-add request for `requested` tasks, capped.
pub fn clamp_mass_add_count(requested: u32) -> (n: u32)
    ensures
        n == (if requested < 10000 { requested } else { 10000 }),
{
    if requested < MASS_ADD_MAX_COUNT {
        requested
    } else {
        MASS_ADD_MAX_COUNT
    }
}

/// Retry bookkeeping of a task whose assignment found no path.
#[derive(Debug, Clone, Copy)]
pub struct TaskRetryState {
    /// Attempts made so far.
    pub attempts: u32,
    /// Unix time in milliseconds before which the task is not retried.
    pub next_eligible_at_ms: u64,
}

/// Whether the retry entry of task `id` is kept: the task is queued and
/// still pending.
pub open spec fn retry_kept(ts: Seq<Task>, id: TaskId) -> bool {
    task_with_id(ts, id) matches Some(t) && is_pending(t)
}

/// The retry entries of `entries` whose task is still queued and pending,
/// in order.
pub open spec fn pruned(ts: Seq<Task>, entries: Seq<(TaskId, TaskRetryState)>) -> Seq<(TaskId, TaskRetryState)>
    decreases entries.len(),
{
    if entries.len() == 0 {
        Seq::empty()
    } else if retry_kept(ts, entries.last().0) {
        pruned(ts, entries.drop_last()).push(entries.last())
    } else {
        pruned(ts, entries.drop_last())
    }
}

/// Drop the retry entries of tasks that left the queue or are no longer
/// pending.
pub fn prune_retry_state<Q: TaskQueue>(queue: &Q, retry_state: &mut Vec<(TaskId, TaskRetryState)>)
    ensures
        final(retry_state)@ == pruned(queue.queue_tasks(), old(retry_state)@),
{
    let ghost e0 = retry_state@;
    let mut kept: Vec<(TaskId, TaskRetryState)> = Vec::new();
    let mut i: usize = 0;
    assert(e0.take(0) =~= Seq::<(TaskId, TaskRetryState)>::empty());
    while i < retry_state.len()
        invariant
            e0 == retry_state@,
            i <= e0.len(),
            kept@ == pruned(queue.queue_tasks(), e0.take(i as int)),
        decreases e0.len() - i,
    {
        let entry = retry_state[i];
        assert(e0.take(i + 1).drop_last() =~= e0.take(i as int));
        assert(e0.take(i + 1).last() == entry);
        let keep = match queue.get(entry.0) {
            Some(t) => match t.status {
                TaskStatus::Pending => true,
                _ => false,
            },
            None => false,
        };
        if keep {
            kept.push(entry);
        }
        i = i + 1;
    }
    assert(e0.take(i as int) =~= e0);
    *retry_state = kept;
}

} // verus!
