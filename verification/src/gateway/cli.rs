//! What a command line asks for.
use crate::text::{join, joined, texts};
use vstd::prelude::*;

verus! {

/// A command line.
#[derive(Debug, Clone, PartialEq, Eq)]
pub struct Cli {
    /// What is to be maintained; nothing for a talk.
    pub command: Option<Command>,
    /// The words of the prompt; none for a talk line by line.
    pub prompt: Vec<String>,
    pub scope: Option<String>,
    pub db: Option<String>,
    /// The command of the agent, its words separated by white space.
    pub agent_cmd: Option<String>,
    pub no_stream: bool,
    pub no_thinking: bool,
    /// Begin a new agent session.
    pub new_session: bool,
}

impl Cli {
    /// The words of the prompt in one line.
    pub fn prompt_text(&self) -> (r: String)
        ensures
            r@ == joined(texts(self.prompt@), " "@),
    {
        join(&self.prompt, " ")
    }
}

/// What is to be maintained.
#[derive(Debug, Clone, PartialEq, Eq)]
pub enum Command {
    Memory { op: MemoryOp },
    Schedule { op: ScheduleOp },
}

/// What is to be done with the memory.
#[derive(Debug, Clone, PartialEq, Eq)]
pub enum MemoryOp {
    Snapshot { scope: Option<String> },
    Consolidate { scope: Option<String>, dry_run: bool },
    Prune { scope: Option<String>, dry_run: bool },
    Export { dir: Option<String> },
}

/// What is to be done with the scheduled jobs.
#[derive(Debug, Clone, PartialEq, Eq)]
pub enum ScheduleOp {
    List,
    AddTurn { name: String, cron: String, scope: String, prompt: String },
    AddMaintenance { name: String, cron: String, scope: Option<String>, task: ScheduleMaintenanceTaskArg },
    Rm { id: String },
    Enable { id: String },
    Disable { id: String },
    Trigger { id: String },
    Runs { id: Option<String>, limit: i64 },
}

/// The kinds of maintenance that can be scheduled.
#[derive(Debug, Clone, Copy, PartialEq, Eq, Structural)]
pub enum ScheduleMaintenanceTaskArg {
    Snapshot,
    Consolidate,
    Prune,
}

} // verus!
