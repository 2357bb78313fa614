//! How the scheduler applies requests to its task queue: locations typed at
//! its console, task commands from other services, and random batches of
//! tasks.
use vstd::prelude::*;
use crate::grid_map::{GridMap, Tile, tile_at, shelves_of, dropoffs_of};
use crate::console::marker_or_origin;
use crate::queue::{TaskQueue, first_with_id, is_pending, lemma_first_with_id_bounds};
use crate::random::{thread_rng, gen_range_inclusive, choose_tile};
use crate::scheduler::{
    clamp_mass_add_count, backoff_ms, backoff_with_jitter_ms, contains_piece, is_disabled_failure_reason,
    is_retryable_no_path_failure, TaskRetryState, SHELF_MARKER_BASE, DROPOFF_MARKER_BASE,
};
use crate::tasks::{
    Priority, Task, TaskAssignment, TaskCommand, TaskId, TaskStatus, TaskStatusUpdate, TaskType, pickup_of, target_of,
};
use crate::route::{reachable_on_map, is_reachable_on_map};
use crate::scheduler::{manhattan, is_within_pickup_horizon};
use crate::search::Pos;
use crate::text::{parse_unsigned, lower_seq, decimal, decimal_chars, push_all, chars_of, string_from_chars};

verus! {

/// Chance, in parts per million, that a mass-added task delivers to a
/// dropoff rather than to another shelf, when the request names none.
pub const MASS_ADD_DROPOFF_PPM: u64 = 600000;

/// The grid positions of a tile sequence.
pub open spec fn positions(ts: Seq<Tile>) -> Seq<(usize, usize)> {
    ts.map_values(|t: Tile| (t.x, t.y))
}

/// What a location typed at the console stands for: `S<n>` markers the
/// `n`-th shelf, `D<n>` markers the `n`-th dropoff (counting from 1 in map
/// order), other coordinates themselves when the map has a tile there.
pub open spec fn resolved_location(map: GridMap, loc: (usize, usize)) -> Option<(usize, usize)> {
    let x = loc.0;
    if 10000 <= x < 20000 {
        let s = positions(shelves_of(map.tiles@));
        if 1 <= x - 10000 <= s.len() {
            Some(s[x - 10000 - 1])
        } else {
            None
        }
    } else if x >= 20000 {
        let d = positions(dropoffs_of(map.tiles@));
        if 1 <= x - 20000 <= d.len() {
            Some(d[x - 20000 - 1])
        } else {
            None
        }
    } else if tile_at(map.tiles@, loc.0, loc.1) is Some {
        Some(loc)
    } else {
        None
    }
}

/// A named location resolves to the shelf or dropoff it names: `S<n>`, for
/// `n` from 1 to the number of shelves, to the `n`-th shelf; `D<n>`, for
/// `n` from 1 to the number of dropoffs, to the `n`-th dropoff. (A shelf
/// number of 10000 or more reaches the dropoff markers and is left out.)
pub proof fn law_named_location_resolves(map: GridMap, name: Seq<char>, n: nat)
    requires
        name.len() >= 2,
        parse_unsigned(name.drop_first(), usize::MAX as nat) == Some(n),
        n >= 1,
        name[0] == 'S' ==> n < 10000 && n <= positions(shelves_of(map.tiles@)).len(),
        name[0] == 'D' ==> n + 20000 <= usize::MAX && n <= positions(dropoffs_of(map.tiles@)).len(),
        name[0] == 'S' || name[0] == 'D',
    ensures
        name[0] == 'S' ==> resolved_location(map, marker_or_origin(name)) == Some(
            positions(shelves_of(map.tiles@))[n - 1],
        ),
        name[0] == 'D' ==> resolved_location(map, marker_or_origin(name)) == Some(
            positions(dropoffs_of(map.tiles@))[n - 1],
        ),
{
}

/// Resolve a location typed at the console against the map.
pub fn resolve_location(loc: (usize, usize), map: &GridMap) -> (r: Option<(usize, usize)>)
    ensures
        r == resolved_location(*map, loc),
{
    let (x, y) = loc;
    if x >= SHELF_MARKER_BASE && x < DROPOFF_MARKER_BASE {
        let idx = x - SHELF_MARKER_BASE;
        let shelves = map.get_shelves();
        proof {
            assert(shelves@.len() == shelves_of(map.tiles@).len()) by {
                assert(shelves@.map_values(|t: &Tile| *t).len() == shelves@.len());
            }
        }
        if idx >= 1 && idx <= shelves.len() {
            let shelf = shelves[idx - 1];
            proof {
                assert(shelves@.map_values(|t: &Tile| *t)[idx - 1] == *shelf);
            }
            return Some((shelf.x, shelf.y));
        }
        return None;
    } else if x >= DROPOFF_MARKER_BASE {
        let idx = x - DROPOFF_MARKER_BASE;
        let dropoffs = map.get_dropoffs();
        proof {
            assert(dropoffs@.len() == dropoffs_of(map.tiles@).len()) by {
                assert(dropoffs@.map_values(|t: &Tile| *t).len() == dropoffs@.len());
            }
        }
        if idx >= 1 && idx <= dropoffs.len() {
            let dropoff = dropoffs[idx - 1];
            proof {
                assert(dropoffs@.map_values(|t: &Tile| *t)[idx - 1] == *dropoff);
            }
            return Some((dropoff.x, dropoff.y));
        }
        return None;
    }
    if map.get_tile(x, y).is_some() {
        Some((x, y))
    } else {
        None
    }
}

/// What cancelling a task did.
#[derive(Debug, Clone, Copy, PartialEq, Eq, Structural)]
pub enum CancelOutcome {
    /// The task was pending and is now cancelled.
    Cancelled,
    /// The task is no longer pending; nothing changed.
    NotPending,
    /// No task has that id; nothing changed.
    NotFound,
}

/// `t` with status `s`.
pub open spec fn with_status(t: Task, s: TaskStatus) -> Task {
    Task { status: s, ..t }
}

/// `t` with priority `p`.
pub open spec fn with_priority(t: Task, p: Priority) -> Task {
    Task { priority: p, ..t }
}

/// Cancel the task with id `id` if it is still pending.
pub fn cancel_pending_task<Q: TaskQueue>(queue: &mut Q, id: TaskId) -> (r: CancelOutcome)
    ensures
        final(queue).queue_next_id() == old(queue).queue_next_id(),
        match first_with_id(old(queue).queue_tasks(), id) {
            None => r is NotFound && final(queue).queue_tasks() == old(queue).queue_tasks(),
            Some(i) => if is_pending(old(queue).queue_tasks()[i]) {
                r is Cancelled && final(queue).queue_tasks() == old(queue).queue_tasks().update(
                    i,
                    with_status(old(queue).queue_tasks()[i], TaskStatus::Cancelled),
                )
            } else {
                r is NotPending && final(queue).queue_tasks() == old(queue).queue_tasks()
            },
        },
{
    proof {
        lemma_first_with_id_bounds(old(queue).queue_tasks(), id);
    }
    match queue.get_mut(id) {
        Some(task) => {
            if matches!(task.status, TaskStatus::Pending) {
                task.status = TaskStatus::Cancelled;
                CancelOutcome::Cancelled
            } else {
                CancelOutcome::NotPending
            }
        },
        None => CancelOutcome::NotFound,
    }
}

/// What changing a task's priority did.
#[derive(Debug, Clone, Copy, PartialEq, Eq, Structural)]
pub enum PriorityOutcome {
    /// The task was pending; its priority was `old`.
    Changed { old: Priority },
    /// The task is no longer pending; nothing changed.
    NotPending,
    /// No task has that id; nothing changed.
    NotFound,
}

/// Set the priority of the task with id `id` if it is still pending.
pub fn set_pending_priority<Q: TaskQueue>(queue: &mut Q, id: TaskId, priority: Priority) -> (r: PriorityOutcome)
    ensures
        final(queue).queue_next_id() == old(queue).queue_next_id(),
        match first_with_id(old(queue).queue_tasks(), id) {
            None => r is NotFound && final(queue).queue_tasks() == old(queue).queue_tasks(),
            Some(i) => if is_pending(old(queue).queue_tasks()[i]) {
                r == PriorityOutcome::Changed { old: old(queue).queue_tasks()[i].priority }
                    && final(queue).queue_tasks() == old(queue).queue_tasks().update(
                    i,
                    with_priority(old(queue).queue_tasks()[i], priority),
                )
            } else {
                r is NotPending && final(queue).queue_tasks() == old(queue).queue_tasks()
            },
        },
{
    proof {
        lemma_first_with_id_bounds(old(queue).queue_tasks(), id);
    }
    match queue.get_mut(id) {
        Some(task) => {
            if matches!(task.status, TaskStatus::Pending) {
                let old = task.priority;
                task.priority = priority;
                PriorityOutcome::Changed { old }
            } else {
                PriorityOutcome::NotPending
            }
        },
        None => PriorityOutcome::NotFound,
    }
}

/// Whether `t` is a fresh task: pending, unfinished, with the given id,
/// type and priority.
pub open spec fn fresh_task(t: Task, id: TaskId, task_type: TaskType, priority: Priority) -> bool {
    &&& t.id == id
    &&& t.task_type == task_type
    &&& t.priority == priority
    &&& t.status == TaskStatus::Pending
    &&& t.completed_at is None
}

/// Create a task with the next id and queue it; returns its id.
pub fn create_task<Q: TaskQueue>(queue: &mut Q, task_type: TaskType, priority: Priority) -> (id: TaskId)
    requires
        old(queue).queue_next_id() < u64::MAX,
    ensures
        id == old(queue).queue_next_id(),
        final(queue).queue_next_id() == old(queue).queue_next_id() + 1,
        final(queue).queue_tasks().len() == old(queue).queue_tasks().len() + 1,
        final(queue).queue_tasks().drop_last() == old(queue).queue_tasks(),
        fresh_task(final(queue).queue_tasks().last(), id, task_type, priority),
{
    let id = queue.next_task_id();
    let task = Task::new(id, task_type, priority);
    queue.enqueue(task);
    proof {
        assert(queue.queue_tasks().drop_last() =~= old(queue).queue_tasks());
    }
    id
}

/// Whether `t` is a task a mass add may create on `map` with id `id`: a
/// normal-priority pending delivery from a shelf to a dropoff or to a
/// shelf at another position.
pub open spec fn mass_task(map: GridMap, t: Task, id: TaskId) -> bool {
    &&& t.id == id
    &&& t.priority == Priority::Normal
    &&& t.status == TaskStatus::Pending
    &&& t.completed_at is None
    &&& t.task_type matches TaskType::PickAndDeliver { pickup, dropoff, cargo_id } && cargo_id is None
        && positions(shelves_of(map.tiles@)).contains(pickup) && (positions(dropoffs_of(map.tiles@)).contains(
        dropoff,
    ) || (positions(shelves_of(map.tiles@)).contains(dropoff) && dropoff != pickup))
}

/// Whether a mass-added task delivers to a dropoff.
pub open spec fn to_dropoff(map: GridMap, t: Task) -> bool {
    t.task_type matches TaskType::PickAndDeliver { dropoff, .. } && positions(dropoffs_of(map.tiles@)).contains(
        dropoff,
    )
}

/// Whether a mass-added task delivers to a shelf at another position than
/// its pickup.
pub open spec fn to_other_shelf(map: GridMap, t: Task) -> bool {
    t.task_type matches TaskType::PickAndDeliver { pickup, dropoff, .. } && positions(shelves_of(map.tiles@)).contains(
        dropoff,
    ) && dropoff != pickup
}

/// Whether all shelves of the map share one position.
pub open spec fn one_shelf_position(map: GridMap) -> bool {
    forall|i: int, j: int|
        0 <= i < positions(shelves_of(map.tiles@)).len() && 0 <= j < positions(shelves_of(map.tiles@)).len()
            ==> #[trigger] positions(shelves_of(map.tiles@))[i] == #[trigger] positions(shelves_of(map.tiles@))[j]
}

/// The first position of `sp`, from index `i` on, that is not `p`.
pub open spec fn first_other_from(sp: Seq<Pos>, p: Pos, i: int) -> Option<Pos>
    decreases sp.len() - i,
{
    if i < 0 || i >= sp.len() {
        None
    } else if sp[i] != p {
        Some(sp[i])
    } else {
        first_other_from(sp, p, i + 1)
    }
}

proof fn lemma_first_other_from(sp: Seq<Pos>, p: Pos, i: int)
    requires
        0 <= i,
    ensures
        first_other_from(sp, p, i) matches Some(q) ==> sp.contains(q) && q != p,
        first_other_from(sp, p, i) is None ==> forall|j: int| i <= j < sp.len() ==> sp[j] == p,
    decreases sp.len() - i,
{
    if i < sp.len() {
        lemma_first_other_from(sp, p, i + 1);
    }
}

/// Whether a mass-added task delivers to a dropoff: the map has dropoffs
/// and the draw of a million falls below the dropoff chance.
pub open spec fn uses_dropoff(dp: Seq<Pos>, ppm_draw: u64, dropoff_ppm: u64) -> bool {
    dp.len() > 0 && ppm_draw < dropoff_ppm
}

/// The pickup and destination of a mass-added task, from the drawn pickup
/// shelf, the draw of a million and the drawn destination: the destination
/// when it is a dropoff or a shelf at another position; else the first
/// shelf at another position than the pickup; `None` when every shelf is
/// at the pickup.
pub open spec fn mass_choice(
    sp: Seq<Pos>,
    dp: Seq<Pos>,
    pickup: Pos,
    ppm_draw: u64,
    target: Pos,
    dropoff_ppm: u64,
) -> Option<(Pos, Pos)> {
    if uses_dropoff(dp, ppm_draw, dropoff_ppm) || target != pickup {
        Some((pickup, target))
    } else {
        match first_other_from(sp, pickup, 0) {
            Some(q) => Some((pickup, q)),
            None => None,
        }
    }
}

/// Whether `d` = (pickup, draw of a million, destination) are draws a mass
/// add can make: the pickup a shelf, the draw below a million, the
/// destination a dropoff when the task goes to one, else a shelf.
pub open spec fn draws_ok(sp: Seq<Pos>, dp: Seq<Pos>, dropoff_ppm: u64, d: (Pos, u64, Pos)) -> bool {
    &&& sp.contains(d.0)
    &&& d.1 < 1000000
    &&& if uses_dropoff(dp, d.1, dropoff_ppm) {
        dp.contains(d.2)
    } else {
        sp.contains(d.2)
    }
}

/// The (pickup, destination) pairs of the tasks a run of draws creates, in
/// order: draws that find no destination create none.
pub open spec fn mass_pairs(sp: Seq<Pos>, dp: Seq<Pos>, ds: Seq<(Pos, u64, Pos)>, dropoff_ppm: u64) -> Seq<(Pos, Pos)>
    decreases ds.len(),
{
    if ds.len() == 0 {
        Seq::empty()
    } else {
        let prev = mass_pairs(sp, dp, ds.drop_last(), dropoff_ppm);
        let d = ds.last();
        match mass_choice(sp, dp, d.0, d.1, d.2, dropoff_ppm) {
            Some(pr) => prev.push(pr),
            None => prev,
        }
    }
}

/// Whether `t` is the fresh normal-priority delivery with id `id` from
/// `pr.0` to `pr.1`, without a cargo id.
pub open spec fn mass_task_for(t: Task, id: TaskId, pr: (Pos, Pos)) -> bool {
    &&& t.id == id
    &&& t.priority == Priority::Normal
    &&& t.status == TaskStatus::Pending
    &&& t.completed_at is None
    &&& t.task_type == TaskType::PickAndDeliver { pickup: pr.0, dropoff: pr.1, cargo_id: None }
}

/// What a mass-add choice gives, whatever was drawn within range: a
/// pickup shelf and a dropoff or a shelf at another position; only other
/// shelves when no dropoff can be chosen; always a dropoff when the chance
/// is one in one; and no task only when every shelf is at one position.
pub proof fn law_mass_choice(sp: Seq<Pos>, dp: Seq<Pos>, dropoff_ppm: u64, d: (Pos, u64, Pos))
    requires
        draws_ok(sp, dp, dropoff_ppm, d),
    ensures
        ({
            let c = mass_choice(sp, dp, d.0, d.1, d.2, dropoff_ppm);
            &&& c matches Some(pr) ==> pr.0 == d.0 && sp.contains(pr.0) && (dp.contains(pr.1) || (sp.contains(pr.1)
                && pr.1 != pr.0))
            &&& (dropoff_ppm == 0 || dp.len() == 0) ==> (c matches Some(pr) ==> sp.contains(pr.1) && pr.1 != pr.0)
            &&& (dropoff_ppm >= 1000000 && dp.len() > 0) ==> (c matches Some(pr) && dp.contains(pr.1))
            &&& c is None ==> forall|i: int, j: int| 0 <= i < sp.len() && 0 <= j < sp.len() ==> sp[i] == sp[j]
        }),
{
    lemma_first_other_from(sp, d.0, 0);
}

/// The pickup and destination of a mass-added task; see `mass_choice`.
pub fn mass_target(
    shelves: &Vec<&Tile>,
    dropoffs: &Vec<&Tile>,
    pickup: Pos,
    ppm_draw: u64,
    target: Pos,
    dropoff_ppm: u64,
) -> (t: Option<(Pos, Pos)>)
    ensures
        t == mass_choice(
            positions(shelves@.map_values(|x: &Tile| *x)),
            positions(dropoffs@.map_values(|x: &Tile| *x)),
            pickup,
            ppm_draw,
            target,
            dropoff_ppm,
        ),
{
    let ghost sp = positions(shelves@.map_values(|x: &Tile| *x));
    assert(positions(dropoffs@.map_values(|x: &Tile| *x)).len() == dropoffs@.len());
    if (dropoffs.len() > 0 && ppm_draw < dropoff_ppm) || target.0 != pickup.0 || target.1 != pickup.1 {
        return Some((pickup, target));
    }
    assert(target == pickup);
    assert(!uses_dropoff(positions(dropoffs@.map_values(|x: &Tile| *x)), ppm_draw, dropoff_ppm));
    let mut i: usize = 0;
    while i < shelves.len()
        invariant
            i <= shelves@.len(),
            sp == positions(shelves@.map_values(|x: &Tile| *x)),
            sp.len() == shelves@.len(),
            first_other_from(sp, pickup, 0) == first_other_from(sp, pickup, i as int),
            target == pickup,
            !uses_dropoff(positions(dropoffs@.map_values(|x: &Tile| *x)), ppm_draw, dropoff_ppm),
        decreases shelves@.len() - i,
    {
        let c = shelves[i];
        assert(sp[i as int] == (c.x, c.y));
        if c.x != pickup.0 || c.y != pickup.1 {
            assert(first_other_from(sp, pickup, i as int) == Some(sp[i as int]));
            return Some((pickup, (c.x, c.y)));
        }
        assert(first_other_from(sp, pickup, i as int) == first_other_from(sp, pickup, i + 1));
        i = i + 1;
    }
    assert(first_other_from(sp, pickup, i as int) is None);
    None
}

/// The grid position of a tile drawn from `tiles`, which is among their
/// positions.
proof fn lemma_drawn_position(tiles: Seq<&Tile>, t: &Tile)
    requires
        tiles.contains(t),
    ensures
        positions(tiles.map_values(|x: &Tile| *x)).contains((t.x, t.y)),
{
    let i = choose|i: int| 0 <= i < tiles.len() && tiles[i] == t;
    assert(positions(tiles.map_values(|x: &Tile| *x))[i] == (t.x, t.y));
}

/// Queue `count` random tasks on `map`, each from a random shelf to a
/// random dropoff (with chance `dropoff_ppm` in a million, when the map has
/// dropoffs) or to a random other shelf. Returns how many tasks were
/// created and how many were skipped for want of a destination. The tasks
/// created are exactly those `mass_choice` makes of `count` runs of draws
/// within range, in order, with consecutive ids.
pub fn enqueue_mass_add_tasks<Q: TaskQueue>(queue: &mut Q, map: &GridMap, count: u32, dropoff_ppm: u64) -> (r: (
    u32,
    u32,
))
    requires
        old(queue).queue_next_id() + count <= u64::MAX,
    ensures
        r.0 + r.1 == count,
        final(queue).queue_next_id() == old(queue).queue_next_id() + r.0,
        final(queue).queue_tasks().len() == old(queue).queue_tasks().len() + r.0,
        final(queue).queue_tasks().take(old(queue).queue_tasks().len() as int) == old(queue).queue_tasks(),
        shelves_of(map.tiles@).len() > 0 ==> exists|ds: Seq<(Pos, u64, Pos)>|
            {
                &&& ds.len() == count
                &&& forall|i: int|
                    0 <= i < ds.len() ==> draws_ok(
                        positions(shelves_of(map.tiles@)),
                        positions(dropoffs_of(map.tiles@)),
                        dropoff_ppm,
                        #[trigger] ds[i],
                    )
                &&& #[trigger] mass_pairs(
                    positions(shelves_of(map.tiles@)),
                    positions(dropoffs_of(map.tiles@)),
                    ds,
                    dropoff_ppm,
                ).len() == r.0
                &&& forall|k: int|
                    0 <= k < r.0 ==> mass_task_for(
                        #[trigger] final(queue).queue_tasks()[old(queue).queue_tasks().len() + k],
                        (old(queue).queue_next_id() + k) as u64,
                        mass_pairs(positions(shelves_of(map.tiles@)), positions(dropoffs_of(map.tiles@)), ds, dropoff_ppm)[k],
                    )
            },
        forall|k: int|
            0 <= k < r.0 ==> mass_task(
                *map,
                #[trigger] final(queue).queue_tasks()[old(queue).queue_tasks().len() + k],
                (old(queue).queue_next_id() + k) as u64,
            ),
        shelves_of(map.tiles@).len() == 0 ==> r.0 == 0,
        r.1 > 0 ==> shelves_of(map.tiles@).len() == 0 || one_shelf_position(*map),
        dropoff_ppm == 0 || dropoffs_of(map.tiles@).len() == 0 ==> forall|k: int|
            0 <= k < r.0 ==> to_other_shelf(*map, #[trigger] final(queue).queue_tasks()[old(queue).queue_tasks().len() + k]),
        dropoff_ppm >= 1000000 && dropoffs_of(map.tiles@).len() > 0 && shelves_of(map.tiles@).len() > 0 ==> r.1 == 0 && forall|k: int|
            0 <= k < r.0 ==> to_dropoff(*map, #[trigger] final(queue).queue_tasks()[old(queue).queue_tasks().len() + k]),
{
    let shelves = map.get_shelves();
    let dropoffs = map.get_dropoffs();
    let ghost sp = positions(shelves_of(map.tiles@));
    let ghost dp = positions(dropoffs_of(map.tiles@));
    let ghost s0 = old(queue).queue_tasks();
    let ghost id0 = old(queue).queue_next_id();
    proof {
        assert(shelves@.map_values(|t: &Tile| *t).len() == shelves@.len());
        assert(dropoffs@.map_values(|t: &Tile| *t).len() == dropoffs@.len());
    }
    if shelves.len() == 0 {
        assert(queue.queue_tasks().take(s0.len() as int) =~= s0);
        return (0, count);
    }
    let mut rng = thread_rng();
    let mut created: u32 = 0;
    let mut skipped: u32 = 0;
    let mut n: u32 = 0;
    let ghost mut ds: Seq<(Pos, u64, Pos)> = Seq::empty();
    while n < count
        invariant
            n <= count,
            created + skipped == n,
            id0 + count <= u64::MAX,
            shelves@.len() > 0,
            sp == positions(shelves@.map_values(|t: &Tile| *t)),
            dp == positions(dropoffs@.map_values(|t: &Tile| *t)),
            sp == positions(shelves_of(map.tiles@)),
            dp == positions(dropoffs_of(map.tiles@)),
            sp.len() == shelves@.len(),
            dp.len() == dropoffs@.len(),
            queue.queue_next_id() == id0 + created,
            queue.queue_tasks().len() == s0.len() + created,
            queue.queue_tasks().take(s0.len() as int) == s0,
            ds.len() == n,
            forall|i: int| 0 <= i < ds.len() ==> draws_ok(sp, dp, dropoff_ppm, #[trigger] ds[i]),
            mass_pairs(sp, dp, ds, dropoff_ppm).len() == created,
            forall|k: int|
                0 <= k < created ==> mass_task_for(
                    #[trigger] queue.queue_tasks()[s0.len() + k],
                    (id0 + k) as u64,
                    mass_pairs(sp, dp, ds, dropoff_ppm)[k],
                ),
            forall|k: int|
                0 <= k < created ==> mass_task(*map, #[trigger] queue.queue_tasks()[s0.len() + k], (id0 + k) as u64),
            skipped > 0 ==> one_shelf_position(*map),
            dropoff_ppm == 0 || dp.len() == 0 ==> forall|k: int|
                0 <= k < created ==> to_other_shelf(*map, #[trigger] queue.queue_tasks()[s0.len() + k]),
            dropoff_ppm >= 1000000 && dp.len() > 0 ==> skipped == 0 && forall|k: int|
                0 <= k < created ==> to_dropoff(*map, #[trigger] queue.queue_tasks()[s0.len() + k]),
        decreases count - n,
    {
        let drawn = choose_tile(&mut rng, &shelves);
        match drawn {
            None => {
                proof {
                    assert(false);
                }
            },
            Some(pickup_tile) => {
                let pickup = (pickup_tile.x, pickup_tile.y);
                proof {
                    lemma_drawn_position(shelves@, pickup_tile);
                }
                let ppm_draw = if dropoffs.len() > 0 {
                    gen_range_inclusive(&mut rng, 0, 999999)
                } else {
                    0
                };
                let dropoff_bound = dropoffs.len() > 0 && ppm_draw < dropoff_ppm;
                let target_tile = if dropoff_bound {
                    choose_tile(&mut rng, &dropoffs)
                } else {
                    choose_tile(&mut rng, &shelves)
                };
                match target_tile {
                    None => {
                        proof {
                            assert(false);
                        }
                    },
                    Some(tt) => {
                        let target = (tt.x, tt.y);
                        proof {
                            if dropoff_bound {
                                lemma_drawn_position(dropoffs@, tt);
                            } else {
                                lemma_drawn_position(shelves@, tt);
                            }
                        }
                        let d = (pickup, ppm_draw, target);
                        let ghost ds0 = ds;
                        proof {
                            ds = ds.push(d);
                            assert(ds.drop_last() =~= ds0);
                            assert(draws_ok(sp, dp, dropoff_ppm, d));
                            assert forall|i: int| 0 <= i < ds.len() implies draws_ok(sp, dp, dropoff_ppm, #[trigger] ds[i]) by {
                                if i < ds0.len() {
                                    assert(ds[i] == ds0[i]);
                                }
                            }
                            law_mass_choice(sp, dp, dropoff_ppm, d);
                        }
                        let choice = mass_target(&shelves, &dropoffs, pickup, ppm_draw, target, dropoff_ppm);
                        match choice {
                            None => {
                                proof {
                                    assert(mass_pairs(sp, dp, ds, dropoff_ppm) == mass_pairs(sp, dp, ds0, dropoff_ppm));
                                    assert forall|i: int, j: int| 0 <= i < sp.len() && 0 <= j < sp.len() implies #[trigger] sp[i]
                                        == #[trigger] sp[j] by {}
                                }
                                skipped = skipped + 1;
                            },
                            Some(pr) => {
                                let ghost before = queue.queue_tasks();
                                let ghost pairs0 = mass_pairs(sp, dp, ds0, dropoff_ppm);
                                let id = queue.next_task_id();
                                let task = Task::new(
                                    id,
                                    TaskType::PickAndDeliver { pickup: pr.0, dropoff: pr.1, cargo_id: None },
                                    Priority::Normal,
                                );
                                queue.enqueue(task);
                                proof {
                                    let pairs = mass_pairs(sp, dp, ds, dropoff_ppm);
                                    assert(pairs == pairs0.push(pr));
                                    assert(queue.queue_tasks() == before.push(task));
                                    assert(queue.queue_tasks().take(s0.len() as int) =~= before.take(s0.len() as int));
                                    assert(mass_task(*map, task, (id0 + created) as u64));
                                    assert forall|k: int| 0 <= k < created + 1 implies mass_task_for(
                                        #[trigger] queue.queue_tasks()[s0.len() + k],
                                        (id0 + k) as u64,
                                        pairs[k],
                                    ) by {
                                        if k < created {
                                            assert(queue.queue_tasks()[s0.len() + k] == before[s0.len() + k]);
                                            assert(pairs[k] == pairs0[k]);
                                        }
                                    }
                                    assert forall|k: int| 0 <= k < created + 1 implies mass_task(
                                        *map,
                                        #[trigger] queue.queue_tasks()[s0.len() + k],
                                        (id0 + k) as u64,
                                    ) by {
                                        if k < created {
                                            assert(queue.queue_tasks()[s0.len() + k] == before[s0.len() + k]);
                                        }
                                    }
                                    if dropoff_ppm == 0 || dp.len() == 0 {
                                        assert forall|k: int| 0 <= k < created + 1 implies to_other_shelf(
                                            *map,
                                            #[trigger] queue.queue_tasks()[s0.len() + k],
                                        ) by {
                                            if k < created {
                                                assert(queue.queue_tasks()[s0.len() + k] == before[s0.len() + k]);
                                            }
                                        }
                                    }
                                    if dropoff_ppm >= 1000000 && dp.len() > 0 {
                                        assert forall|k: int| 0 <= k < created + 1 implies to_dropoff(
                                            *map,
                                            #[trigger] queue.queue_tasks()[s0.len() + k],
                                        ) by {
                                            if k < created {
                                                assert(queue.queue_tasks()[s0.len() + k] == before[s0.len() + k]);
                                            }
                                        }
                                    }
                                }
                                created = created + 1;
                            },
                        }
                    },
                }
            },
        }
        n = n + 1;
    }
    proof {
        assert(ds.len() == count);
    }
    (created, skipped)
}

/// What applying a task command did.
#[derive(Debug, Clone, Copy, PartialEq, Eq, Structural)]
pub enum RequestOutcome {
    /// A task was created with this id.
    Created(TaskId),
    /// The task's pickup shelf is empty; nothing changed.
    RejectedEmptyPickup,
    Cancel(CancelOutcome),
    Priority(PriorityOutcome),
    /// A mass add of `requested` tasks, capped to `count`, created and
    /// skipped that many tasks.
    MassAdded { requested: u32, count: u32, created: u32, skipped: u32 },
    /// A mass add of no tasks; nothing changed.
    MassAddIgnored,
}

/// The dropoff chance of a mass add, in parts per million: the requested
/// one, or the default, at most one in one.
pub open spec fn effective_dropoff_ppm(requested: Option<u64>) -> u64 {
    match requested {
        Some(p) => if p < 1000000 {
            p
        } else {
            1000000
        },
        None => 600000,
    }
}

/// Apply a task command from another service to the queue.
/// `pickup_available` says whether the shelf a new task picks up from has
/// stock (the shelf inventory decides it).
pub fn apply_task_command<Q: TaskQueue>(queue: &mut Q, map: &GridMap, cmd: TaskCommand, pickup_available: bool) -> (r:
    RequestOutcome)
    requires
        old(queue).queue_next_id() + 10000 < u64::MAX,
    ensures
        match cmd {
            TaskCommand::New { task_type, priority } => if pickup_of(task_type) is Some && !pickup_available {
                r is RejectedEmptyPickup && final(queue).queue_tasks() == old(queue).queue_tasks()
                    && final(queue).queue_next_id() == old(queue).queue_next_id()
            } else {
                &&& r == RequestOutcome::Created(old(queue).queue_next_id())
                &&& final(queue).queue_next_id() == old(queue).queue_next_id() + 1
                &&& final(queue).queue_tasks().drop_last() == old(queue).queue_tasks()
                &&& final(queue).queue_tasks().len() == old(queue).queue_tasks().len() + 1
                &&& fresh_task(final(queue).queue_tasks().last(), old(queue).queue_next_id(), task_type, priority)
            },
            TaskCommand::Cancel(id) => r matches RequestOutcome::Cancel(c) && final(queue).queue_next_id()
                == old(queue).queue_next_id() && match first_with_id(old(queue).queue_tasks(), id) {
                None => c is NotFound && final(queue).queue_tasks() == old(queue).queue_tasks(),
                Some(i) => if is_pending(old(queue).queue_tasks()[i]) {
                    c is Cancelled && final(queue).queue_tasks() == old(queue).queue_tasks().update(
                        i,
                        with_status(old(queue).queue_tasks()[i], TaskStatus::Cancelled),
                    )
                } else {
                    c is NotPending && final(queue).queue_tasks() == old(queue).queue_tasks()
                },
            },
            TaskCommand::SetPriority(id, p) => r matches RequestOutcome::Priority(c) && final(queue).queue_next_id()
                == old(queue).queue_next_id() && match first_with_id(old(queue).queue_tasks(), id) {
                None => c is NotFound && final(queue).queue_tasks() == old(queue).queue_tasks(),
                Some(i) => if is_pending(old(queue).queue_tasks()[i]) {
                    c == PriorityOutcome::Changed { old: old(queue).queue_tasks()[i].priority }
                        && final(queue).queue_tasks() == old(queue).queue_tasks().update(
                        i,
                        with_priority(old(queue).queue_tasks()[i], p),
                    )
                } else {
                    c is NotPending && final(queue).queue_tasks() == old(queue).queue_tasks()
                },
            },
            TaskCommand::MassAdd { count, dropoff_ppm } => if count == 0 {
                r is MassAddIgnored && final(queue).queue_tasks() == old(queue).queue_tasks()
                    && final(queue).queue_next_id() == old(queue).queue_next_id()
            } else {
                r matches RequestOutcome::MassAdded { requested, count: capped, created, skipped } && requested
                    == count && capped == (if count < 10000 { count } else { 10000 }) && created + skipped == capped
                    && final(queue).queue_next_id() == old(queue).queue_next_id() + created
                    && final(queue).queue_tasks().len() == old(queue).queue_tasks().len() + created
                    && final(queue).queue_tasks().take(old(queue).queue_tasks().len() as int) == old(
                    queue,
                ).queue_tasks() && forall|k: int|
                    0 <= k < created ==> mass_task(
                        *map,
                        #[trigger] final(queue).queue_tasks()[old(queue).queue_tasks().len() + k],
                        (old(queue).queue_next_id() + k) as u64,
                    ) && (shelves_of(map.tiles@).len() == 0 ==> created == 0) && (skipped > 0 ==> shelves_of(
                    map.tiles@,
                ).len() == 0 || one_shelf_position(*map)) && (effective_dropoff_ppm(dropoff_ppm) == 0
                    || dropoffs_of(map.tiles@).len() == 0 ==> forall|k: int|
                    0 <= k < created ==> to_other_shelf(
                        *map,
                        #[trigger] final(queue).queue_tasks()[old(queue).queue_tasks().len() + k],
                    )) && (effective_dropoff_ppm(dropoff_ppm) >= 1000000 && dropoffs_of(map.tiles@).len() > 0
                    && shelves_of(map.tiles@).len() > 0 ==> skipped == 0 && forall|k: int|
                    0 <= k < created ==> to_dropoff(
                        *map,
                        #[trigger] final(queue).queue_tasks()[old(queue).queue_tasks().len() + k],
                    ))
            },
        },
{
    match cmd {
        TaskCommand::New { task_type, priority } => {
            let needs_pickup = match task_type {
                TaskType::PickAndDeliver { .. } | TaskType::Relocate { .. } => true,
                TaskType::ReturnToStation { .. } => false,
            };
            if needs_pickup && !pickup_available {
                return RequestOutcome::RejectedEmptyPickup;
            }
            let id = create_task(queue, task_type, priority);
            RequestOutcome::Created(id)
        },
        TaskCommand::Cancel(id) => RequestOutcome::Cancel(cancel_pending_task(queue, id)),
        TaskCommand::SetPriority(id, p) => RequestOutcome::Priority(set_pending_priority(queue, id, p)),
        TaskCommand::MassAdd { count, dropoff_ppm } => {
            if count == 0 {
                return RequestOutcome::MassAddIgnored;
            }
            let capped = clamp_mass_add_count(count);
            let ppm = match dropoff_ppm {
                Some(p) => if p < 1000000 {
                    p
                } else {
                    1000000
                },
                None => MASS_ADD_DROPOFF_PPM,
            };
            let (created, skipped) = enqueue_mass_add_tasks(queue, map, capped, ppm);
            RequestOutcome::MassAdded { requested: count, count: capped, created, skipped }
        },
    }
}

/// Most attempts at a task whose assignment found no path to its pickup.
pub const RETRYABLE_NO_PATH_MAX_ATTEMPTS: u32 = 3;

/// Index of the first retry entry of task `id`.
pub open spec fn retry_index(rs: Seq<(TaskId, TaskRetryState)>, id: TaskId) -> Option<int>
    decreases rs.len(),
{
    if rs.len() == 0 {
        None
    } else {
        match retry_index(rs.drop_last(), id) {
            Some(i) => Some(i),
            None => if rs.last().0 == id {
                Some(rs.len() - 1)
            } else {
                None
            },
        }
    }
}

/// The retry bookkeeping of task `id`, if any.
pub open spec fn retry_of(rs: Seq<(TaskId, TaskRetryState)>, id: TaskId) -> Option<TaskRetryState> {
    match retry_index(rs, id) {
        Some(i) => Some(rs[i].1),
        None => None,
    }
}

/// Whether a retry entry belongs to a task other than `id`.
pub open spec fn not_of(id: TaskId) -> spec_fn((TaskId, TaskRetryState)) -> bool {
    |e: (TaskId, TaskRetryState)| e.0 != id
}

/// The retry entries of tasks other than `id`.
pub open spec fn without_retry(rs: Seq<(TaskId, TaskRetryState)>, id: TaskId) -> Seq<(TaskId, TaskRetryState)> {
    rs.filter(not_of(id))
}

/// The retry entries with the bookkeeping of task `id` set to `st`.
pub open spec fn with_retry(rs: Seq<(TaskId, TaskRetryState)>, id: TaskId, st: TaskRetryState) -> Seq<
    (TaskId, TaskRetryState),
> {
    match retry_index(rs, id) {
        Some(i) => rs.update(i, (id, st)),
        None => rs.push((id, st)),
    }
}

proof fn lemma_retry_index_bounds(rs: Seq<(TaskId, TaskRetryState)>, id: TaskId)
    ensures
        retry_index(rs, id) matches Some(i) ==> 0 <= i < rs.len() && rs[i].0 == id,
        retry_index(rs, id) is None ==> forall|j: int| 0 <= j < rs.len() ==> rs[j].0 != id,
    decreases rs.len(),
{
    if rs.len() > 0 {
        lemma_retry_index_bounds(rs.drop_last(), id);
        if retry_index(rs.drop_last(), id) is None {
            assert forall|j: int| 0 <= j < rs.len() - 1 implies rs[j].0 != id by {
                assert(rs.drop_last()[j] == rs[j]);
            }
        }
    }
}

/// The index of the first retry entry of task `id`.
fn find_retry(rs: &Vec<(TaskId, TaskRetryState)>, id: TaskId) -> (r: Option<usize>)
    ensures
        r matches Some(i) ==> retry_index(rs@, id) == Some(i as int),
        r is None ==> retry_index(rs@, id) is None,
{
    let mut i: usize = 0;
    while i < rs.len()
        invariant
            i <= rs@.len(),
            retry_index(rs@.take(i as int), id) is None,
        decreases rs@.len() - i,
    {
        assert(rs@.take(i + 1).drop_last() =~= rs@.take(i as int));
        if rs[i].0 == id {
            proof {
                assert(retry_index(rs@.take(i + 1), id) == Some(i as int));
                lemma_retry_index_prefix(rs@, i + 1, id);
            }
            return Some(i);
        }
        i = i + 1;
    }
    assert(rs@.take(i as int) =~= rs@);
    None
}

proof fn lemma_retry_index_prefix(rs: Seq<(TaskId, TaskRetryState)>, k: int, id: TaskId)
    requires
        0 <= k <= rs.len(),
        retry_index(rs.take(k), id) is Some,
    ensures
        retry_index(rs, id) == retry_index(rs.take(k), id),
    decreases rs.len() - k,
{
    if k < rs.len() {
        assert(rs.take(k + 1).drop_last() =~= rs.take(k));
        lemma_retry_index_prefix(rs, k + 1, id);
    } else {
        assert(rs.take(k) =~= rs);
    }
}

/// Drop the retry bookkeeping of task `id`.
fn remove_retry(rs: &mut Vec<(TaskId, TaskRetryState)>, id: TaskId)
    ensures
        final(rs)@ == without_retry(old(rs)@, id),
{
    let ghost r0 = rs@;
    let mut kept: Vec<(TaskId, TaskRetryState)> = Vec::new();
    let mut i: usize = 0;
    while i < rs.len()
        invariant
            r0 == rs@,
            i <= r0.len(),
            kept@ == r0.take(i as int).filter(not_of(id)),
        decreases r0.len() - i,
    {
        let e = rs[i];
        assert(r0.take(i + 1).drop_last() =~= r0.take(i as int));
        reveal_with_fuel(Seq::filter, 1);
        if e.0 != id {
            kept.push(e);
        }
        i = i + 1;
    }
    assert(r0.take(i as int) =~= r0);
    *rs = kept;
}

/// Set the retry bookkeeping of task `id`.
fn set_retry(rs: &mut Vec<(TaskId, TaskRetryState)>, id: TaskId, st: TaskRetryState)
    ensures
        final(rs)@ == with_retry(old(rs)@, id, st),
{
    proof {
        lemma_retry_index_bounds(rs@, id);
    }
    match find_retry(rs, id) {
        Some(i) => {
            rs.set(i, (id, st));
        },
        None => {
            rs.push((id, st));
        },
    }
}

/// Whether a failure reason says the robot is disabled.
pub open spec fn disabled_reason(reason: Seq<char>) -> bool {
    contains_piece(lower_seq(reason), "disabled"@)
}

/// Whether a failure reason says no path to the pickup was found.
pub open spec fn no_path_reason(reason: Seq<char>) -> bool {
    contains_piece(lower_seq(reason), "no path to pickup"@)
}

/// The failure reason of a task whose retries ran out.
pub open spec fn exhausted_reason(reason: Seq<char>, attempts: nat) -> Seq<char> {
    reason + " (retry exhausted after "@ + decimal(attempts) + " attempts)"@
}

/// What applying a status report did to the reported task.
#[derive(Debug, Clone, Copy, PartialEq, Eq, Structural)]
pub enum StatusOutcome {
    /// No task has the reported id; nothing changed.
    UnknownTask,
    /// The task failed because its robot was disabled; it is pending again.
    RequeuedDisabled,
    /// The task found no path to its pickup; it is pending again and will
    /// be retried after `backoff_ms`, as attempt `attempt`.
    RetryScheduled { attempt: u32, backoff_ms: u64 },
    /// The task found no path to its pickup once more after `attempts`
    /// attempts; it failed for good.
    RetryExhausted { attempts: u32 },
    /// The reported status was recorded.
    Recorded,
}

/// What a status report calls for besides the queue and retry changes.
#[derive(Debug, Clone, Copy)]
pub struct StatusEffects {
    pub outcome: StatusOutcome,
    /// A failed task's pickup reservation to give back to the inventory.
    pub undo_pickup: Option<(usize, usize)>,
    /// A failed task's dropoff reservation to give back to the inventory.
    pub undo_dropoff: Option<(usize, usize)>,
    /// The robot to free from its assignment.
    pub free_robot: Option<u32>,
}

/// The retry delay of attempt `attempt` with jitter `jitter`.
pub open spec fn jittered(attempt: u32, jitter: u64) -> u64 {
    if backoff_ms(attempt) + jitter <= u64::MAX {
        (backoff_ms(attempt) + jitter) as u64
    } else {
        u64::MAX
    }
}

/// `a + b`, saturating at `u64::MAX`.
pub open spec fn sat_sum(a: u64, b: u64) -> u64 {
    if a + b <= u64::MAX {
        (a + b) as u64
    } else {
        u64::MAX
    }
}

/// Whether applying status report `u` at time `now` (Unix milliseconds),
/// with retry jitter `jitter`, takes the queue from `before` to `after`
/// and the retry entries from `rs0` to `rs1`, with effects `e`.
pub open spec fn status_applied(
    before: Seq<Task>,
    rs0: Seq<(TaskId, TaskRetryState)>,
    after: Seq<Task>,
    rs1: Seq<(TaskId, TaskRetryState)>,
    u: TaskStatusUpdate,
    now: u64,
    jitter: u64,
    e: StatusEffects,
) -> bool {
    match first_with_id(before, u.task_id) {
        None => e == (StatusEffects {
            outcome: StatusOutcome::UnknownTask,
            undo_pickup: None,
            undo_dropoff: None,
            free_robot: None,
        }) && after == before && rs1 == rs0,
        Some(i) => {
            let t = before[i];
            &&& after.len() == before.len()
            &&& forall|j: int| 0 <= j < before.len() && j != i ==> after[j] == before[j]
            &&& after[i].id == t.id
            &&& after[i].task_type == t.task_type
            &&& after[i].priority == t.priority
            &&& after[i].created_at == t.created_at
            &&& e.free_robot == (match u.robot_id {
                Some(r) => if u.status is Completed || u.status is Failed {
                    Some(r)
                } else {
                    None
                },
                None => None,
            })
            &&& match u.status {
                TaskStatus::Failed { reason } => {
                    &&& e.undo_pickup == pickup_of(t.task_type)
                    &&& e.undo_dropoff == target_of(t.task_type)
                    &&& if disabled_reason(reason@) {
                        &&& e.outcome is RequeuedDisabled
                        &&& after[i].status is Pending
                        &&& after[i].completed_at is None
                        &&& rs1 == without_retry(rs0, t.id)
                    } else if no_path_reason(reason@) {
                        let st = match retry_of(rs0, t.id) {
                            Some(s) => s,
                            None => TaskRetryState { attempts: 0, next_eligible_at_ms: now },
                        };
                        if st.attempts < 3 {
                            let a = (st.attempts + 1) as u32;
                            &&& e.outcome == StatusOutcome::RetryScheduled { attempt: a, backoff_ms: jittered(a, jitter) }
                            &&& after[i].status is Pending
                            &&& after[i].completed_at is None
                            &&& rs1 == with_retry(
                                rs0,
                                t.id,
                                TaskRetryState { attempts: a, next_eligible_at_ms: sat_sum(now, jittered(a, jitter)) },
                            )
                        } else {
                            &&& e.outcome == StatusOutcome::RetryExhausted { attempts: st.attempts }
                            &&& after[i].status matches TaskStatus::Failed { reason: r2 } && r2@ == exhausted_reason(
                                reason@,
                                st.attempts as nat,
                            )
                            &&& after[i].completed_at == Some(now)
                            &&& rs1 == without_retry(rs0, t.id)
                        }
                    } else {
                        &&& e.outcome is Recorded
                        &&& after[i].status == u.status
                        &&& after[i].completed_at == Some(now)
                        &&& rs1 == without_retry(rs0, t.id)
                    }
                },
                _ => {
                    &&& e.undo_pickup is None
                    &&& e.undo_dropoff is None
                    &&& e.outcome is Recorded
                    &&& after[i].status == u.status
                    &&& after[i].completed_at == (if u.status is Completed || u.status is Cancelled {
                        Some(now)
                    } else {
                        t.completed_at
                    })
                    &&& rs1 == (if u.status is Pending {
                        rs0
                    } else {
                        without_retry(rs0, t.id)
                    })
                },
            }
        },
    }
}

/// Whether every retry entry records at most the allowed attempts.
pub open spec fn attempts_bounded(rs: Seq<(TaskId, TaskRetryState)>) -> bool {
    forall|j: int| 0 <= j < rs.len() ==> (#[trigger] rs[j]).1.attempts <= 3
}

proof fn lemma_without_retry_bounded(rs: Seq<(TaskId, TaskRetryState)>, id: TaskId)
    requires
        attempts_bounded(rs),
    ensures
        attempts_bounded(without_retry(rs, id)),
    decreases rs.len(),
{
    reveal(Seq::filter);
    if rs.len() > 0 {
        assert forall|j: int| 0 <= j < rs.drop_last().len() implies (#[trigger] rs.drop_last()[j]).1.attempts <= 3 by {
            assert(rs.drop_last()[j] == rs[j]);
        }
        lemma_without_retry_bounded(rs.drop_last(), id);
        let f = without_retry(rs.drop_last(), id);
        if not_of(id)(rs.last()) {
            assert(without_retry(rs, id) == f.push(rs.last()));
            assert forall|j: int| 0 <= j < f.push(rs.last()).len() implies (#[trigger] f.push(rs.last())[j]).1.attempts
                <= 3 by {
                if j < f.len() {
                    assert(f.push(rs.last())[j] == f[j]);
                }
            }
        } else {
            assert(without_retry(rs, id) == f);
        }
    }
}

/// A task is tried at most `RETRYABLE_NO_PATH_MAX_ATTEMPTS` times after
/// failing to find a path: applying any status report keeps every retry
/// entry within that many attempts.
pub proof fn law_retry_attempts_stay_bounded(
    before: Seq<Task>,
    rs0: Seq<(TaskId, TaskRetryState)>,
    after: Seq<Task>,
    rs1: Seq<(TaskId, TaskRetryState)>,
    u: TaskStatusUpdate,
    now: u64,
    jitter: u64,
    e: StatusEffects,
)
    requires
        status_applied(before, rs0, after, rs1, u, now, jitter, e),
        attempts_bounded(rs0),
    ensures
        attempts_bounded(rs1),
{
    lemma_first_with_id_bounds(before, u.task_id);
    if let Some(i) = first_with_id(before, u.task_id) {
        let id = before[i].id;
        lemma_without_retry_bounded(rs0, id);
        lemma_retry_index_bounds(rs0, id);
        let st = match retry_of(rs0, id) {
            Some(s) => s,
            None => TaskRetryState { attempts: 0, next_eligible_at_ms: now },
        };
        if st.attempts < 3 {
            let a = (st.attempts + 1) as u32;
            let st2 = TaskRetryState { attempts: a, next_eligible_at_ms: sat_sum(now, jittered(a, jitter)) };
            let w = with_retry(rs0, id, st2);
            assert forall|j: int| 0 <= j < w.len() implies (#[trigger] w[j]).1.attempts <= 3 by {
                match retry_index(rs0, id) {
                    Some(k) => {
                        if j != k {
                            assert(w[j] == rs0[j]);
                        }
                    },
                    None => {
                        if j < rs0.len() {
                            assert(w[j] == rs0[j]);
                        }
                    },
                }
            }
        }
    }
}

/// The failure reason after `attempts` exhausted retries.
fn exhausted_text(reason: &String, attempts: u32) -> (s: String)
    ensures
        s@ == exhausted_reason(reason@, attempts as nat),
{
    let mut v = chars_of(reason.as_str());
    push_all(&mut v, &chars_of(" (retry exhausted after "));
    push_all(&mut v, &decimal_chars(attempts as u64));
    push_all(&mut v, &chars_of(" attempts)"));
    string_from_chars(&v)
}

/// Apply a task status report at time `now_ms` (Unix milliseconds), with
/// jitter `jitter_ms` for a retry delay.
pub fn apply_status_update_at<Q: TaskQueue>(
    queue: &mut Q,
    retry_state: &mut Vec<(TaskId, TaskRetryState)>,
    update: &TaskStatusUpdate,
    now_ms: u64,
    jitter_ms: u64,
) -> (e: StatusEffects)
    ensures
        final(queue).queue_next_id() == old(queue).queue_next_id(),
        status_applied(
            old(queue).queue_tasks(),
            old(retry_state)@,
            final(queue).queue_tasks(),
            final(retry_state)@,
            *update,
            now_ms,
            jitter_ms,
            e,
        ),
{
    proof {
        lemma_first_with_id_bounds(old(queue).queue_tasks(), update.task_id);
        lemma_retry_index_bounds(old(retry_state)@, update.task_id);
    }
    let free_robot = match update.robot_id {
        Some(r) => match update.status {
            TaskStatus::Completed | TaskStatus::Failed { .. } => Some(r),
            _ => None,
        },
        None => None,
    };
    let task = match queue.get_mut(update.task_id) {
        Some(t) => t,
        None => {
            return StatusEffects {
                outcome: StatusOutcome::UnknownTask,
                undo_pickup: None,
                undo_dropoff: None,
                free_robot: None,
            };
        },
    };
    let id = task.id;
    match &update.status {
        TaskStatus::Failed { reason } => {
            let undo_pickup = task.pickup_location();
            let undo_dropoff = task.target_location();
            if is_disabled_failure_reason(reason.as_str()) {
                task.status = TaskStatus::Pending;
                task.completed_at = None;
                remove_retry(retry_state, id);
                StatusEffects { outcome: StatusOutcome::RequeuedDisabled, undo_pickup, undo_dropoff, free_robot }
            } else if is_retryable_no_path_failure(reason.as_str()) {
                let st = match find_retry(retry_state, id) {
                    Some(k) => retry_state[k].1,
                    None => TaskRetryState { attempts: 0, next_eligible_at_ms: now_ms },
                };
                if st.attempts < RETRYABLE_NO_PATH_MAX_ATTEMPTS {
                    let attempt = st.attempts + 1;
                    let backoff = backoff_with_jitter_ms(attempt, jitter_ms);
                    set_retry(
                        retry_state,
                        id,
                        TaskRetryState { attempts: attempt, next_eligible_at_ms: now_ms.saturating_add(backoff) },
                    );
                    task.status = TaskStatus::Pending;
                    task.completed_at = None;
                    StatusEffects {
                        outcome: StatusOutcome::RetryScheduled { attempt, backoff_ms: backoff },
                        undo_pickup,
                        undo_dropoff,
                        free_robot,
                    }
                } else {
                    task.status = TaskStatus::Failed { reason: exhausted_text(reason, st.attempts) };
                    task.completed_at = Some(now_ms);
                    remove_retry(retry_state, id);
                    StatusEffects {
                        outcome: StatusOutcome::RetryExhausted { attempts: st.attempts },
                        undo_pickup,
                        undo_dropoff,
                        free_robot,
                    }
                }
            } else {
                task.status = update.status.clone();
                task.completed_at = Some(now_ms);
                remove_retry(retry_state, id);
                StatusEffects { outcome: StatusOutcome::Recorded, undo_pickup, undo_dropoff, free_robot }
            }
        },
        _ => {
            task.status = update.status.clone();
            let finished = match update.status {
                TaskStatus::Completed | TaskStatus::Cancelled => true,
                _ => false,
            };
            if finished {
                task.completed_at = Some(now_ms);
            }
            let keep_retry = match update.status {
                TaskStatus::Pending => true,
                _ => false,
            };
            if !keep_retry {
                remove_retry(retry_state, id);
            }
            StatusEffects { outcome: StatusOutcome::Recorded, undo_pickup: None, undo_dropoff: None, free_robot }
        },
    }
}

/// Whether task `id` may be allocated at time `now` (Unix milliseconds):
/// it has no retry delay running.
pub open spec fn retry_eligible_at(rs: Seq<(TaskId, TaskRetryState)>, id: TaskId, now: u64) -> bool {
    match retry_of(rs, id) {
        Some(st) => now >= st.next_eligible_at_ms,
        None => true,
    }
}

/// Whether task `id` may be allocated at time `now_ms`.
pub fn retry_eligible(retry_state: &Vec<(TaskId, TaskRetryState)>, id: TaskId, now_ms: u64) -> (b: bool)
    ensures
        b == retry_eligible_at(retry_state@, id, now_ms),
{
    proof {
        lemma_retry_index_bounds(retry_state@, id);
    }
    match find_retry(retry_state, id) {
        Some(k) => now_ms >= retry_state[k].1.next_eligible_at_ms,
        None => true,
    }
}

/// Whether a robot standing at `start` may be offered a task picking up at
/// `pickup`: within the planning horizon and with a path there.
pub open spec fn can_reach_pickup(map: GridMap, start: Pos, pickup: Pos) -> bool {
    manhattan(start, pickup) <= 32 && reachable_on_map(map, start, pickup)
}

/// The robots of `robots` (id and grid cell) that may be offered a task
/// picking up at `pickup`, in order.
pub open spec fn robots_reaching(map: GridMap, robots: Seq<(u32, Pos)>, pickup: Pos) -> Seq<u32>
    decreases robots.len(),
{
    if robots.len() == 0 {
        Seq::empty()
    } else if can_reach_pickup(map, robots.last().1, pickup) {
        robots_reaching(map, robots.drop_last(), pickup).push(robots.last().0)
    } else {
        robots_reaching(map, robots.drop_last(), pickup)
    }
}

/// The robots that may be offered a task picking up at `pickup`.
pub fn reachable_robots(map: &GridMap, robots: &Vec<(u32, Pos)>, pickup: Pos) -> (v: Vec<u32>)
    requires
        forall|i: int| 0 <= i < robots@.len() ==> manhattan(#[trigger] robots@[i].1, pickup) <= usize::MAX,
    ensures
        v@ == robots_reaching(*map, robots@, pickup),
{
    let mut v: Vec<u32> = Vec::new();
    let mut i: usize = 0;
    while i < robots.len()
        invariant
            i <= robots@.len(),
            forall|j: int| 0 <= j < robots@.len() ==> manhattan(#[trigger] robots@[j].1, pickup) <= usize::MAX,
            v@ == robots_reaching(*map, robots@.take(i as int), pickup),
        decreases robots@.len() - i,
    {
        let (id, start) = robots[i];
        assert(robots@.take(i + 1).drop_last() =~= robots@.take(i as int));
        assert(robots@.take(i + 1).last() == robots@[i as int]);
        if is_within_pickup_horizon(start, pickup) && is_reachable_on_map(map, start, pickup) {
            v.push(id);
        }
        i = i + 1;
    }
    assert(robots@.take(i as int) =~= robots@);
    v
}

/// The assignment message of `task` to robot `robot_id`: the task, marked
/// assigned to the robot.
pub fn assignment_for(task: &Task, robot_id: u32) -> (a: TaskAssignment)
    ensures
        a.robot_id == robot_id,
        a.task == with_status(*task, TaskStatus::Assigned { robot_id }),
{
    let mut t = task.clone();
    t.status = TaskStatus::Assigned { robot_id };
    TaskAssignment { task: t, robot_id }
}

/// Record that task `id` was assigned to robot `robot_id`; returns whether
/// the task was found.
pub fn mark_assigned<Q: TaskQueue>(queue: &mut Q, id: TaskId, robot_id: u32) -> (found: bool)
    ensures
        final(queue).queue_next_id() == old(queue).queue_next_id(),
        found == first_with_id(old(queue).queue_tasks(), id) is Some,
        match first_with_id(old(queue).queue_tasks(), id) {
            Some(i) => final(queue).queue_tasks() == old(queue).queue_tasks().update(
                i,
                with_status(old(queue).queue_tasks()[i], TaskStatus::Assigned { robot_id }),
            ),
            None => final(queue).queue_tasks() == old(queue).queue_tasks(),
        },
{
    proof {
        lemma_first_with_id_bounds(old(queue).queue_tasks(), id);
    }
    match queue.get_mut(id) {
        Some(task) => {
            task.status = TaskStatus::Assigned { robot_id };
            true
        },
        None => false,
    }
}

proof fn lemma_with_retry_reads_back(rs: Seq<(TaskId, TaskRetryState)>, id: TaskId, st: TaskRetryState)
    ensures
        retry_of(with_retry(rs, id, st), id) == Some(st),
    decreases rs.len(),
{
    lemma_retry_index_bounds(rs, id);
    let w = with_retry(rs, id, st);
    match retry_index(rs, id) {
        Some(i) => {
            lemma_retry_index_prefix_same(rs, w, i, id);
        },
        None => {
            assert(w.drop_last() =~= rs);
        },
    }
}

proof fn lemma_retry_index_prefix_same(rs: Seq<(TaskId, TaskRetryState)>, w: Seq<(TaskId, TaskRetryState)>, i: int, id: TaskId)
    requires
        retry_index(rs, id) == Some(i),
        0 <= i < rs.len(),
        w.len() == rs.len(),
        w[i].0 == id,
        forall|j: int| 0 <= j < rs.len() && j != i ==> w[j] == rs[j],
    ensures
        retry_index(w, id) == Some(i),
    decreases rs.len(),
{
    if i < rs.len() - 1 {
        assert(retry_index(rs.drop_last(), id) == Some(i));
        lemma_retry_index_prefix_same(rs.drop_last(), w.drop_last(), i, id);
    } else {
        lemma_retry_index_bounds(rs.drop_last(), id);
        assert(w.drop_last() =~= rs.drop_last());
    }
}

/// A task scheduled for a retry is not offered again before its delay runs
/// out, and is offered from then on: after a report schedules attempt `a`
/// with delay `b` at time `now`, the task is eligible at time `t` exactly
/// when `t` is at least `now + b` (saturating).
pub proof fn law_retry_waits_for_backoff(
    before: Seq<Task>,
    rs0: Seq<(TaskId, TaskRetryState)>,
    after: Seq<Task>,
    rs1: Seq<(TaskId, TaskRetryState)>,
    u: TaskStatusUpdate,
    now: u64,
    jitter: u64,
    e: StatusEffects,
    t: u64,
)
    requires
        status_applied(before, rs0, after, rs1, u, now, jitter, e),
        e.outcome is RetryScheduled,
    ensures
        retry_eligible_at(rs1, u.task_id, t) == (t >= sat_sum(now, e.outcome->backoff_ms)),
{
    lemma_first_with_id_bounds(before, u.task_id);
    let i = first_with_id(before, u.task_id).unwrap();
    let id = before[i].id;
    let st = match retry_of(rs0, id) {
        Some(s) => s,
        None => TaskRetryState { attempts: 0, next_eligible_at_ms: now },
    };
    let a = (st.attempts + 1) as u32;
    let st2 = TaskRetryState { attempts: a, next_eligible_at_ms: sat_sum(now, jittered(a, jitter)) };
    lemma_with_retry_reads_back(rs0, id, st2);
}

/// The robot a status report frees: its robot, when the task completed or
/// failed.
pub open spec fn freed_robot(u: TaskStatusUpdate) -> Option<u32> {
    match u.robot_id {
        Some(r) => if u.status is Completed || u.status is Failed {
            Some(r)
        } else {
            None
        },
        None => None,
    }
}

/// Record a task status report as reported, with no retries and no time
/// stamps (the mission control's handling); returns the robot to free.
pub fn record_status<Q: TaskQueue>(queue: &mut Q, update: &TaskStatusUpdate) -> (free: Option<u32>)
    ensures
        final(queue).queue_next_id() == old(queue).queue_next_id(),
        match first_with_id(old(queue).queue_tasks(), update.task_id) {
            None => free is None && final(queue).queue_tasks() == old(queue).queue_tasks(),
            Some(i) => free == freed_robot(*update) && final(queue).queue_tasks() == old(queue).queue_tasks().update(
                i,
                with_status(old(queue).queue_tasks()[i], update.status),
            ),
        },
{
    proof {
        lemma_first_with_id_bounds(old(queue).queue_tasks(), update.task_id);
    }
    match queue.get_mut(update.task_id) {
        Some(task) => {
            task.status = update.status.clone();
            match update.robot_id {
                Some(r) => match update.status {
                    TaskStatus::Completed | TaskStatus::Failed { .. } => Some(r),
                    _ => None,
                },
                None => None,
            }
        },
        None => None,
    }
}

/// Apply a task status report now, drawing the jitter of a retry delay at
/// random (at most `RETRYABLE_NO_PATH_JITTER_MS`).
pub fn apply_status_update<Q: TaskQueue>(
    queue: &mut Q,
    retry_state: &mut Vec<(TaskId, TaskRetryState)>,
    update: &TaskStatusUpdate,
) -> (e: StatusEffects)
    ensures
        final(queue).queue_next_id() == old(queue).queue_next_id(),
        exists|now: u64, jitter: u64|
            jitter <= 200 && #[trigger] status_applied(
                old(queue).queue_tasks(),
                old(retry_state)@,
                final(queue).queue_tasks(),
                final(retry_state)@,
                *update,
                now,
                jitter,
                e,
            ),
{
    let now = crate::clock::unix_timestamp_ms();
    let mut rng = thread_rng();
    let jitter = gen_range_inclusive(&mut rng, 0, crate::scheduler::RETRYABLE_NO_PATH_JITTER_MS);
    apply_status_update_at(queue, retry_state, update, now, jitter)
}

} // verus!
