//! The memory core.
pub mod answering;
pub mod candidates;
pub mod consolidate;
pub mod embed;
pub mod error;
pub mod fold_laws;
pub mod laws;
pub mod markdown;
pub mod model;
pub mod prune;
pub mod queries;
pub mod recall;
pub mod recall_laws;
pub mod report_laws;
pub mod reports;
pub mod rows;
pub mod scope;
pub mod sessions;
pub mod store;
