//! Verified core of a reservation-based smart road intersection: lane topology,
//! conflict detection, the junction reservation gate and scheduler decisions,
//! spawn throttling, input handling, session statistics and the layout of what is drawn.

pub mod config;
pub mod input;
pub mod intersection;
pub mod render;
pub mod smart;
pub mod spawn;
pub mod stats;
pub mod stats_window;
pub mod vehicle;
