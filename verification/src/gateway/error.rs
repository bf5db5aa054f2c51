//! The errors of the gateway.
use crate::gateway::upstream_error::{failure_label, UpstreamFailure};
use crate::memory::error::{memory_message, MemoryError};
use crate::text::{signed_decimal, signed_decimal_of};
use vstd::prelude::*;

verus! {

/// All errors of the gateway. An input or output error is kept as the text it shows.
#[derive(Debug, Clone, PartialEq, Eq)]
pub enum GatewayError {
    Memory(MemoryError),
    AgentFailed { code: Option<i32>, stderr: String },
    /// The provider behind the agent refused the request, or the turn was aborted. The agent
    /// itself ran well: what failed is the model behind it.
    UpstreamFailed { kind: UpstreamFailure, status_code: Option<u16>, detail: String },
    Io(String),
}

/// How an exit code is shown.
pub open spec fn shown_code(code: Option<i32>) -> Seq<char> {
    match code {
        Some(c) => "Some("@ + signed_decimal(c as int) + ")"@,
        None => "None"@,
    }
}

/// The text that an error shows.
pub open spec fn gateway_message(e: GatewayError) -> Seq<char> {
    match e {
        GatewayError::Memory(m) => "memory error: "@ + memory_message(m),
        GatewayError::AgentFailed { code, stderr } => "agent command failed (code "@ + shown_code(code)
            + "): "@ + stderr@,
        GatewayError::UpstreamFailed { kind, status_code, detail } => "上游模型錯誤（"@
            + failure_label(kind) + "）："@ + detail@,
        GatewayError::Io(s) => "io error: "@ + s@,
    }
}

impl GatewayError {
    /// The text that the error shows.
    pub fn message(&self) -> (r: String)
        ensures
            r@ == gateway_message(*self),
    {
        match self {
            GatewayError::Memory(m) => {
                let mut r = String::from_str("memory error: ");
                let inner = m.message();
                r.append(inner.as_str());
                r
            },
            GatewayError::AgentFailed { code, stderr } => {
                let mut r = String::from_str("agent command failed (code ");
                match code {
                    Some(c) => {
                        let digits = signed_decimal_of(*c as i64);
                        let mut shown = String::from_str("Some(");
                        shown.append(digits.as_str());
                        shown.append(")");
                        r.append(shown.as_str());
                    },
                    None => {
                        r.append("None");
                    },
                }
                r.append("): ");
                r.append(stderr.as_str());
                r
            },
            GatewayError::UpstreamFailed { kind, status_code: _, detail } => {
                let mut r = String::from_str("上游模型錯誤（");
                r.append(kind.label());
                r.append("）：");
                r.append(detail.as_str());
                r
            },
            GatewayError::Io(s) => {
                let mut r = String::from_str("io error: ");
                r.append(s.as_str());
                r
            },
        }
    }
}

} // verus!
