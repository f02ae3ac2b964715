//! The frames exchanged with agents, and their mathematical views.

use vstd::prelude::*;

verus! {

/// What an agent reports: a stream update, or a tool it wants to invoke.
#[derive(Debug, Clone, PartialEq, Eq)]
pub enum PayloadType {
    StreamUpdate { data: String },
    ToolInvocation {
        tool_name: String,
        /// JSON text of the tool's arguments, kept as the agent sent it.
        arguments: String,
    },
}

/// A frame submitted by an agent.
#[derive(Debug, Clone, PartialEq, Eq)]
pub struct AgentActionFrame {
    pub transaction_id: String,
    pub agent_id: String,
    pub timestamp: u64,
    pub payload: PayloadType,
    pub context_monologue: Option<String>,
}

/// Outcome of an operator review, sent back to the agent.
#[derive(Debug, Clone, Copy, PartialEq, Eq, Structural)]
pub enum ActionStatus {
    Approved,
    Denied,
    Mutated,
}

/// The answer to a tool invocation.
#[derive(Debug, Clone, PartialEq, Eq)]
pub struct HandshakeResolutionFrame {
    pub transaction_id: String,
    pub status: ActionStatus,
    pub mutated_payload: Option<PayloadType>,
}

/// View of a payload: its texts as character sequences.
pub enum PayloadView {
    StreamUpdate { data: Seq<char> },
    ToolInvocation { tool_name: Seq<char>, arguments: Seq<char> },
}

/// View of an agent frame.
pub struct ActionFrameView {
    pub transaction_id: Seq<char>,
    pub agent_id: Seq<char>,
    pub timestamp: u64,
    pub payload: PayloadView,
    pub context_monologue: Option<Seq<char>>,
}

/// View of a resolution frame.
pub struct ResolutionView {
    pub transaction_id: Seq<char>,
    pub status: ActionStatus,
    pub mutated_payload: Option<PayloadView>,
}

/// View of an optional text.
pub open spec fn opt_text(o: Option<String>) -> Option<Seq<char>> {
    match o {
        Some(s) => Some(s@),
        None => None,
    }
}

impl View for PayloadType {
    type V = PayloadView;

    open spec fn view(&self) -> PayloadView {
        match self {
            PayloadType::StreamUpdate { data } => PayloadView::StreamUpdate { data: data@ },
            PayloadType::ToolInvocation { tool_name, arguments } => PayloadView::ToolInvocation {
                tool_name: tool_name@,
                arguments: arguments@,
            },
        }
    }
}

impl View for AgentActionFrame {
    type V = ActionFrameView;

    open spec fn view(&self) -> ActionFrameView {
        ActionFrameView {
            transaction_id: self.transaction_id@,
            agent_id: self.agent_id@,
            timestamp: self.timestamp,
            payload: self.payload@,
            context_monologue: opt_text(self.context_monologue),
        }
    }
}

impl View for HandshakeResolutionFrame {
    type V = ResolutionView;

    open spec fn view(&self) -> ResolutionView {
        ResolutionView {
            transaction_id: self.transaction_id@,
            status: self.status,
            mutated_payload: match self.mutated_payload {
                Some(p) => Some(p@),
                None => None,
            },
        }
    }
}

} // verus!
