pub mod chat_history;
pub mod cli;
pub mod gateway;
pub mod json;
pub mod memory;
pub mod memoryd;
pub mod orchestrator;
pub mod order;
pub mod paths;
pub mod render;
pub mod runtime;
pub mod scheduler;
pub mod schedulerd;
pub mod table;
pub mod text;
pub mod text_laws;
