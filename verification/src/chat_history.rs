//! What was said, kept for the chat views.
pub mod attachments;
pub mod laws;
pub mod rows;
pub mod scopes;
pub mod store;
pub mod windows;
