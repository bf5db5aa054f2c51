//! Jobs that run by the clock.
pub mod executor;
pub mod job;
pub mod laws;
pub mod store;
