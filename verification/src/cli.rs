//! The assistant at a terminal.
pub mod command;
pub mod laws;
pub mod operations;
pub mod persona;
pub mod render;
pub mod repl;
