//! Tuning constants of the fleet's services.
use vstd::prelude::*;

verus! {

/// Planning window of the multi-robot planner, in milliseconds.
pub const WINDOW_SIZE_MS: u64 = 16000;

/// Most consecutive waits a planned path may hold.
pub const MAX_WAIT_TIME: u32 = 10;

/// A reservation counts within this many milliseconds of a probed time.
pub const RESERVATION_TOLERANCE_MS: u64 = 200;

/// Time a robot takes for one move or one wait, in milliseconds.
pub const MOVE_TIME_MS: u64 = 500;

/// How many recent cells of a stationary robot are reserved.
pub const STATIONARY_HISTORY_TILES: usize = 4;

/// How long a stationary robot's cell is reserved, in milliseconds.
pub const STATIONARY_RESERVATION_MS: u64 = 2500;

/// Time a robot dwells at a shelf to pick, in milliseconds.
pub const PICKUP_DELAY_MS: u64 = 2000;

/// Time a robot dwells at a dropoff, in milliseconds.
pub const DROPOFF_DELAY_MS: u64 = 1500;

/// Pathfinding strategy of the coordinator: `"whca"` or `"astar"`.
pub const PATHFINDING_STRATEGY: &'static str = "whca";

} // verus!
