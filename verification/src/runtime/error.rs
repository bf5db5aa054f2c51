//! What can go wrong in a turn.
use crate::gateway::error::{gateway_message, GatewayError};
use crate::memory::error::{memory_message, MemoryError};
use crate::orchestrator::{orchestrator_message, OrchestratorError};
use vstd::prelude::*;

verus! {

/// What went wrong in a turn.
#[derive(Debug, Clone, PartialEq, Eq)]
pub enum WukongError {
    Memory(MemoryError),
    Orchestrator(OrchestratorError),
    Backend(GatewayError),
}

/// The text of an error.
pub open spec fn wukong_message(e: WukongError) -> Seq<char> {
    match e {
        WukongError::Memory(m) => "memory error: "@ + memory_message(m),
        WukongError::Orchestrator(o) => "orchestrator error: "@ + orchestrator_message(o),
        WukongError::Backend(g) => "backend error: "@ + gateway_message(g),
    }
}

impl WukongError {
    /// The text of the error.
    pub fn message(&self) -> (r: String)
        ensures
            r@ == wukong_message(*self),
    {
        match self {
            WukongError::Memory(m) => {
                let mut s = String::from_str("memory error: ");
                let t = m.message();
                s.append(t.as_str());
                s
            },
            WukongError::Orchestrator(o) => {
                let mut s = String::from_str("orchestrator error: ");
                let t = o.message();
                s.append(t.as_str());
                s
            },
            WukongError::Backend(g) => {
                let mut s = String::from_str("backend error: ");
                let t = g.message();
                s.append(t.as_str());
                s
            },
        }
    }
}

/// The error is a failure of the agent without a code, with this text.
pub open spec fn fails_with(e: WukongError, text: Seq<char>) -> bool {
    match e {
        WukongError::Backend(g) => match g {
            GatewayError::AgentFailed { code, stderr } => code is None && stderr@ == text,
            _ => false,
        },
        _ => false,
    }
}

/// A failure of the agent, without a code.
pub fn agent_failure(text: String) -> (r: WukongError)
    ensures
        fails_with(r, text@),
{
    WukongError::Backend(GatewayError::AgentFailed { code: None, stderr: text })
}

} // verus!
