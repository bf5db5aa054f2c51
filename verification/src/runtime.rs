//! Running turns and keeping the memory in order.
pub mod error;
pub mod maintenance;
pub mod persona;
pub mod report_laws;
pub mod session;
pub mod session_laws;
pub mod skill_assets;
pub mod turn;
pub mod turn_laws;
pub mod util;
