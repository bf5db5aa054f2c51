//! The daemon that runs jobs by the clock.
pub mod auto_maintenance;
pub mod daemon;
pub mod laws;
pub mod notify;
