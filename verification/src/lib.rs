//! A deterministic occupancy tracker for a bounded two-dimensional grid,
//! together with a greedy one-step movement planner.
//!
//! Clients (identified by non-negative integer ids) occupy slots in grid
//! cells; each cell holds up to a fixed number of occupants. `TrafficArea`
//! is the sole authority over occupancy, and `TrafficControlLogic` drives
//! admission (`start`) and stepwise movement toward a target (`move_to`).

pub mod coordinate;
pub mod grid_model;
pub mod movement_not_possible;
pub mod traffic_area;
pub mod traffic_control_logic;
