//! The tool calls of a turn.

use std::sync::Arc;

use vstd::prelude::*;

use crate::json::Json;
use crate::parser::session::CodexSession;

verus! {

/// What a tool call does.
#[derive(Debug, PartialEq, Eq)]
pub enum ToolKind {
    PatchApply,
    SpawnAgent,
    /// Another kind, by its name.
    Other(String),
}

/// A number of seconds, as the bits of a number of double precision.
#[derive(Debug, Clone, Copy, PartialEq, Eq, Structural)]
pub struct Seconds {
    pub bits: u64,
}

#[derive(Debug)]
pub struct ToolCall {
    pub call_id: String,
    pub kind: ToolKind,
    pub name: String,
    pub arguments: Json,
    pub input_text: Option<String>,
    pub output: Option<String>,
    pub exit_code: Option<i32>,
    pub command: Option<Vec<String>>,
    pub cwd: Option<String>,
    pub duration_secs: Option<Seconds>,
    pub mcp_server: Option<String>,
    pub mcp_tool: Option<String>,
    pub plugin_id: Option<String>,
    pub patch_success: Option<bool>,
    pub patch_changes: Option<Json>,
    pub web_query: Option<String>,
    pub web_url: Option<String>,
    pub image_prompt: Option<String>,
    pub image_file_path: Option<String>,
    /// The session of the agent that the call spawned.
    pub worker_session: Option<Arc<CodexSession>>,
    pub status: String,
    pub subagent_id: Option<String>,
    pub subagent_name: Option<String>,
}

} // verus!
