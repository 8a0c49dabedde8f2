//! A leaderless task-allocation engine for a group of elevators: each node
//! bids for hall requests with a delay, claims by broadcast, watches the
//! claimant, and drives its own car through its drive queue.
pub mod cost;
pub mod elev_controller;
pub mod guarantees;
pub mod node_id;
pub mod task_manager;
pub mod types;
