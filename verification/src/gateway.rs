//! Talking to the agent: requests, its event streams, and its errors.
pub mod backend;
pub mod cli;
pub mod config;
pub mod error;
pub mod event_laws;
pub mod event_map;
pub mod opencode_server;
pub mod pipeline;
pub mod prompt;
pub mod request_laws;
pub mod server_message;
pub mod server_turn;
pub mod sse;
pub mod stream;
pub mod upstream_error;
