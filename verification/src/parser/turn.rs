//! The turns of a session.

use vstd::prelude::*;

use crate::parser::toolcall::ToolCall;

verus! {

#[derive(Debug, Clone, Copy, PartialEq, Eq, Structural)]
pub enum TurnStatus {
    Complete,
    Ongoing,
    Error,
    Aborted,
    Cancelled,
}

/// The tokens that a turn used.
#[derive(Debug, Clone, Copy, PartialEq, Eq, Structural)]
pub struct TokenInfo {
    pub input_tokens: u64,
    pub cached_input_tokens: u64,
    pub output_tokens: u64,
    pub reasoning_output_tokens: u64,
    pub total_tokens: u64,
    /// The tokens in the context window after the turn, where they were reported.
    pub context_window_tokens: Option<u64>,
    /// The size of the context window; 0 where it is not known.
    pub model_context_window: u64,
}

#[derive(Debug)]
pub struct AgentMessage {
    pub text: String,
    pub is_reasoning: bool,
    pub phase: Option<String>,
    /// The position in the stream of the turn.
    pub order: usize,
}

#[derive(Debug)]
pub struct CompactionMeta {
    pub tokens_before: Option<u64>,
    pub tokens_after: Option<u64>,
    pub compaction_trigger: Option<String>,
    pub summary: Option<String>,
}

#[derive(Debug)]
pub struct Memory {
    pub content: String,
}

#[derive(Debug)]
pub struct CollabSpawn {
    pub agent_nickname: String,
    pub agent_role: String,
    pub new_session_id: String,
}

#[derive(Debug)]
pub struct CodexTurn {
    pub turn_id: String,
    pub status: TurnStatus,
    pub model: Option<String>,
    pub cwd: Option<String>,
    pub reasoning_effort: Option<String>,
    /// Unix seconds.
    pub started_at: Option<u64>,
    /// Unix seconds.
    pub completed_at: Option<u64>,
    pub duration_ms: Option<u64>,
    pub total_tokens: Option<TokenInfo>,
    pub error: Option<String>,
    pub aborted_reason: Option<String>,
    pub has_compaction: bool,
    pub compaction_meta: Option<CompactionMeta>,
    pub memories: Vec<Memory>,
    pub collab_spawns: Vec<CollabSpawn>,
    pub thread_name: Option<String>,
    pub trace_id: Option<String>,
    pub user_message: Option<String>,
    pub agent_messages: Vec<AgentMessage>,
    pub tool_calls: Vec<ToolCall>,
    /// The position of each tool call in the stream of the turn.
    pub tool_call_orders: Vec<usize>,
}

} // verus!
