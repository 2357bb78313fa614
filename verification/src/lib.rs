//! Verified core logic of a warehouse robot fleet: layout maps, task
//! queues, path planning and the decisions of the fleet's services.
use vstd::prelude::*;

pub mod text;
pub mod grid_map;
pub mod clock;
pub mod tasks;
pub mod queue;
pub mod search;
pub mod astar;
pub mod route;
pub mod reservations;
pub mod config;
pub mod whca;
pub mod dispatch;
pub mod task_manager;
pub mod orchestrator;
pub mod random;
pub mod scheduler;
pub mod commands;
pub mod robot;
pub mod chaos;
pub mod layout;
pub mod console;
pub mod requests;
pub mod assignment;
pub mod lifecycle;
pub mod logmerge;
pub mod progress;
pub mod fleet;
pub mod faults;
pub mod inventory;
pub mod control_plane;
pub mod firmware;
pub mod watchdog;
pub mod tracking;

verus! {

} // verus!
