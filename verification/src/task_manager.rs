//! Decisions of the coordinator's task manager that depend only on the map
//! and the robot's stage: which pickup/dropoff pairs are valid, which tiles
//! are special, and where a robot standing on a special tile can step
//! aside.
use vstd::prelude::*;
use crate::grid_map::{GridMap, TileType, tile_at};
use crate::search::{Pos, walk_between, connected, explore, explored, reach, lemma_walk_reach, lemma_reach_mono, lemma_reach_walk};

verus! {

/// Where a robot is in the task execution lifecycle.
#[derive(Debug, Clone, Copy, PartialEq, Eq, Structural)]
pub enum TaskStage {
    /// No task assigned.
    Idle,
    /// Moving to the pickup location.
    MovingToPickup,
    /// Picking up cargo.
    Picking,
    /// Moving to the dropoff location.
    MovingToDropoff,
    /// Delivering cargo.
    Delivering,
    /// Returning to the charging station.
    ReturningToStation,
}

/// Why a robot returns to its station.
#[derive(Debug, Clone, Copy, PartialEq, Eq, Structural)]
pub enum ReturnReason {
    /// No pending tasks: a new task may interrupt the return.
    NoPendingTasks,
    /// Battery is low: the return must not be interrupted.
    LowBattery,
    /// Returning after a delivery: a new task may interrupt the return.
    PostDelivery,
}

/// How far a failed task got with the shelf inventory.
#[derive(Debug, Clone, Copy, PartialEq, Eq, Structural)]
pub enum InventoryMilestone {
    /// The cargo was reserved at the pickup shelf but not picked.
    Reserved,
    /// The cargo was picked up.
    PickupConfirmed,
}

/// The inventory milestone a task has reached at `stage`: picked once the
/// robot has left the pickup.
pub fn inventory_milestone_for_stage(stage: TaskStage) -> (m: InventoryMilestone)
    ensures
        m == (if stage is Idle || stage is MovingToPickup || stage is Picking {
            InventoryMilestone::Reserved
        } else {
            InventoryMilestone::PickupConfirmed
        }),
{
    match stage {
        TaskStage::Idle | TaskStage::MovingToPickup | TaskStage::Picking => InventoryMilestone::Reserved,
        TaskStage::MovingToDropoff | TaskStage::Delivering | TaskStage::ReturningToStation => {
            InventoryMilestone::PickupConfirmed
        },
    }
}

/// Whether a return to the station for `reason` may be interrupted by a new
/// task: only returns for lack of work or after a delivery may.
pub fn is_interruptible_return_reason(reason: Option<ReturnReason>) -> (b: bool)
    ensures
        b == (reason == Some(ReturnReason::NoPendingTasks) || reason == Some(ReturnReason::PostDelivery)),
{
    match reason {
        Some(ReturnReason::NoPendingTasks) | Some(ReturnReason::PostDelivery) => true,
        _ => false,
    }
}

/// The type of the tile at `(x, y)`, if the map has one.
pub open spec fn type_at(map: GridMap, p: Pos) -> Option<TileType> {
    match tile_at(map.tiles@, p.0, p.1) {
        Some(t) => Some(t.tile_type),
        None => None,
    }
}

/// Whether a tile type is a shelf.
pub open spec fn is_shelf(t: Option<TileType>) -> bool {
    t matches Some(TileType::Shelf(_))
}

/// Whether a pickup and a dropoff fit a task: shelf to shelf, shelf to
/// dropoff, or dropoff to shelf.
pub open spec fn valid_pair(pickup: Option<TileType>, dropoff: Option<TileType>) -> bool {
    ||| (is_shelf(pickup) && is_shelf(dropoff))
    ||| (is_shelf(pickup) && dropoff == Some(TileType::Dropoff))
    ||| (pickup == Some(TileType::Dropoff) && is_shelf(dropoff))
}

/// The type of the tile at `pos`, if the map has one.
pub fn tile_type_at(map: &GridMap, pos: Pos) -> (t: Option<TileType>)
    ensures
        t == type_at(*map, pos),
{
    match map.get_tile(pos.0, pos.1) {
        Some(tile) => Some(tile.tile_type),
        None => None,
    }
}

/// Validate a pickup/dropoff tile combination.
pub fn validate_pickup_dropoff(map: &GridMap, pickup: Pos, dropoff: Pos) -> (b: bool)
    ensures
        b == valid_pair(type_at(*map, pickup), type_at(*map, dropoff)),
{
    let p = tile_type_at(map, pickup);
    let d = tile_type_at(map, dropoff);
    match (p, d) {
        (Some(TileType::Shelf(_)), Some(TileType::Shelf(_))) => true,
        (Some(TileType::Shelf(_)), Some(TileType::Dropoff)) => true,
        (Some(TileType::Dropoff), Some(TileType::Shelf(_))) => true,
        _ => false,
    }
}

/// Special tiles: dropoffs, stations and shelves.
pub open spec fn special(t: Option<TileType>) -> bool {
    t == Some(TileType::Dropoff) || t == Some(TileType::Station) || is_shelf(t)
}

/// Whether `pos` holds a dropoff, a station or a shelf.
pub fn is_special_tile(map: &GridMap, pos: Pos) -> (b: bool)
    ensures
        b == special(type_at(*map, pos)),
{
    match tile_type_at(map, pos) {
        Some(TileType::Dropoff) | Some(TileType::Station) | Some(TileType::Shelf(_)) => true,
        _ => false,
    }
}

/// Whether `pos` holds plain ground.
pub fn is_non_special_ground_tile(map: &GridMap, pos: Pos) -> (b: bool)
    ensures
        b == (type_at(*map, pos) == Some(TileType::Ground)),
{
    match tile_type_at(map, pos) {
        Some(TileType::Ground) => true,
        _ => false,
    }
}

/// Whether `c` is a plain ground cell nearest to `start`: some walk leads
/// there, and no walk from `start` to plain ground is shorter.
pub open spec fn nearest_ground(map: GridMap, start: Pos, c: Pos) -> bool {
    &&& type_at(map, c) == Some(TileType::Ground)
    &&& exists|w: Seq<Pos>|
        #[trigger] walk_between(map, w, start, c) && forall|g: Pos, v: Seq<Pos>|
            type_at(map, g) == Some(TileType::Ground) && #[trigger] walk_between(map, v, start, g) ==> w.len() <= v.len()
}

/// The nearest plain ground cell to `start` over walkable cells, where a
/// robot standing on a special tile can step aside; `None` when no plain
/// ground is connected to `start`.
pub fn find_nearest_non_special_ground_tile(map: &GridMap, start: Pos) -> (r: Option<Pos>)
    ensures
        r matches Some(c) ==> nearest_ground(*map, start, c),
        r is None ==> forall|g: Pos| type_at(*map, g) == Some(TileType::Ground) ==> !connected(*map, start, g),
{
    if is_non_special_ground_tile(map, start) {
        proof {
            let w = seq![start];
            assert(walk_between(*map, w, start, start));
        }
        return Some(start);
    }
    let e = explore(map, start);
    let mut found: Option<usize> = None;
    let mut i: usize = 0;
    while i < e.cells.len()
        invariant
            explored(*map, start, e),
            i <= e.cells@.len(),
            found is None ==> forall|j: int| 0 <= j < i ==> type_at(*map, #[trigger] e.cells@[j]) != Some(TileType::Ground),
            found matches Some(b) ==> b < i && type_at(*map, e.cells@[b as int]) == Some(TileType::Ground) && forall|j: int|
                0 <= j < i && type_at(*map, #[trigger] e.cells@[j]) == Some(TileType::Ground) ==> e.depth@[b as int] <= e.depth@[j],
        decreases e.cells@.len() - i,
    {
        let c = e.cells[i];
        if is_non_special_ground_tile(map, c) {
            let better = match found {
                Some(b) => e.depth[i] < e.depth[b],
                None => true,
            };
            if better {
                found = Some(i);
            }
        }
        i = i + 1;
    }
    match found {
        Some(b) => {
            let c = e.cells[b];
            proof {
                let d = e.depth@[b as int];
                assert(reach(*map, start, c, d as nat));
                lemma_reach_walk(*map, start, c, d as nat);
                let w = choose|w: Seq<Pos>| #[trigger] walk_between(*map, w, start, c) && w.len() <= d + 1;
                assert forall|g: Pos, v: Seq<Pos>|
                    type_at(*map, g) == Some(TileType::Ground) && #[trigger] walk_between(*map, v, start, g) implies w.len() <= v.len() by {
                    lemma_walk_reach(*map, v, start);
                    assert(e.cells@.contains(g));
                    let jg = choose|jg: int| 0 <= jg < e.cells@.len() && e.cells@[jg] == g;
                    assert(e.depth@[b as int] <= e.depth@[jg]);
                    if v.len() - 1 < e.depth@[jg] {
                        lemma_reach_mono(*map, start, g, (v.len() - 1) as nat, (e.depth@[jg] - 1) as nat);
                    }
                }
            }
            Some(c)
        },
        None => {
            proof {
                assert forall|g: Pos| type_at(*map, g) == Some(TileType::Ground) implies !connected(*map, start, g) by {
                    if connected(*map, start, g) {
                        let v = choose|v: Seq<Pos>| #[trigger] walk_between(*map, v, start, g);
                        lemma_walk_reach(*map, v, start);
                        assert(e.cells@.contains(g));
                    }
                }
            }
            None
        },
    }
}

} // verus!
