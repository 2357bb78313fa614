//! Robot telemetry shared across the fleet's services.
use vstd::prelude::*;

verus! {

/// Runtime robot states produced by the firmware.
#[derive(Debug, Clone, Copy, PartialEq, Eq, Structural)]
pub enum RobotState {
    Idle,
    MovingToPickup,
    Picking,
    MovingToDrop,
    MovingToStation,
    LowBattery,
    Charging,
    Blocked,
    Faulted,
}

/// WHCA* counters reported by the coordinator for analytics.
#[derive(Debug, Clone, Copy, Default)]
pub struct WhcaMetricsTelemetry {
    /// Reporting window, in seconds, of the delta fields.
    pub window_secs: u64,
    pub searches_total: u64,
    pub searches_succeeded: u64,
    pub searches_failed: u64,
    pub nodes_expanded_total: u64,
    pub reservation_probe_calls_total: u64,
    pub edge_collision_checks_total: u64,
    pub wait_actions_added_total: u64,
    pub avg_search_time_us: u64,
    pub last_search_time_us: u64,
    pub open_set_peak_observed: u64,
    pub reservation_entries_peak: u64,
}

} // verus!
