//! Parsed sessions.

use vstd::prelude::*;

use crate::parser::turn::{CodexTurn, TokenInfo};

verus! {

#[derive(Debug)]
pub struct GitInfo {
    pub branch: Option<String>,
}

#[derive(Debug)]
pub struct CodexSession {
    pub id: String,
    pub timestamp: String,
    pub cwd: Option<String>,
    pub originator: Option<String>,
    pub cli_version: Option<String>,
    pub model_provider: Option<String>,
    pub git: Option<GitInfo>,
    pub instructions: Option<String>,
    pub turns: Vec<CodexTurn>,
    pub is_ongoing: bool,
    pub total_tokens: Option<TokenInfo>,
    pub thread_name: Option<String>,
    pub spawned_worker_ids: Vec<String>,
    /// The rollout file.
    pub path: String,
    pub ai_title: Option<String>,
    pub is_headless: bool,
    pub has_missing_spawn_metadata: bool,
}

} // verus!
