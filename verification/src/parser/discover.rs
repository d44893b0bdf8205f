//! What the session picker knows of a session.

use vstd::prelude::*;

use crate::text;

verus! {

/// The metadata of a session file.
#[derive(Debug)]
pub struct CodexSessionInfo {
    pub id: String,
    /// The rollout file.
    pub path: String,
    pub cwd: Option<String>,
    pub git_branch: Option<String>,
    pub originator: Option<String>,
    pub model: Option<String>,
    pub cli_version: Option<String>,
    pub thread_name: Option<String>,
    pub turn_count: usize,
    pub start_time: String,
    pub end_time: Option<String>,
    pub total_tokens: Option<u64>,
    /// Whether the session is being written to.
    pub is_ongoing: bool,
    pub is_external_worker: bool,
    /// Whether the session is shown under the one that spawned it.
    pub is_inline_worker: bool,
    pub is_headless: bool,
    pub is_archived: bool,
    pub worker_nickname: Option<String>,
    pub worker_role: Option<String>,
    /// The sessions of the agents that this one spawned.
    pub spawned_worker_ids: Vec<String>,
    /// The date that the session is listed under.
    pub date_group: String,
    pub ai_title: Option<String>,
    pub approval_mode: Option<String>,
    pub history_base_thread_id: Option<String>,
}

/// The contents of a [`CodexSessionInfo`].
#[verifier::ext_equal]
pub struct InfoView {
    pub id: Seq<char>,
    pub path: Seq<char>,
    pub cwd: Option<Seq<char>>,
    pub git_branch: Option<Seq<char>>,
    pub originator: Option<Seq<char>>,
    pub model: Option<Seq<char>>,
    pub cli_version: Option<Seq<char>>,
    pub thread_name: Option<Seq<char>>,
    pub turn_count: usize,
    pub start_time: Seq<char>,
    pub end_time: Option<Seq<char>>,
    pub total_tokens: Option<u64>,
    pub is_ongoing: bool,
    pub is_external_worker: bool,
    pub is_inline_worker: bool,
    pub is_headless: bool,
    pub is_archived: bool,
    pub worker_nickname: Option<Seq<char>>,
    pub worker_role: Option<Seq<char>>,
    pub spawned_worker_ids: Seq<Seq<char>>,
    pub date_group: Seq<char>,
    pub ai_title: Option<Seq<char>>,
    pub approval_mode: Option<Seq<char>>,
    pub history_base_thread_id: Option<Seq<char>>,
}

impl DeepView for CodexSessionInfo {
    type V = InfoView;

    open spec fn deep_view(&self) -> InfoView {
        InfoView {
            id: self.id@,
            path: self.path@,
            cwd: self.cwd.deep_view(),
            git_branch: self.git_branch.deep_view(),
            originator: self.originator.deep_view(),
            model: self.model.deep_view(),
            cli_version: self.cli_version.deep_view(),
            thread_name: self.thread_name.deep_view(),
            turn_count: self.turn_count,
            start_time: self.start_time@,
            end_time: self.end_time.deep_view(),
            total_tokens: self.total_tokens,
            is_ongoing: self.is_ongoing,
            is_external_worker: self.is_external_worker,
            is_inline_worker: self.is_inline_worker,
            is_headless: self.is_headless,
            is_archived: self.is_archived,
            worker_nickname: self.worker_nickname.deep_view(),
            worker_role: self.worker_role.deep_view(),
            spawned_worker_ids: self.spawned_worker_ids.deep_view(),
            date_group: self.date_group@,
            ai_title: self.ai_title.deep_view(),
            approval_mode: self.approval_mode.deep_view(),
            history_base_thread_id: self.history_base_thread_id.deep_view(),
        }
    }
}

impl Clone for CodexSessionInfo {
    fn clone(&self) -> (r: CodexSessionInfo)
        ensures
            r.deep_view() == self.deep_view(),
    {
        CodexSessionInfo {
            id: self.id.clone(),
            path: self.path.clone(),
            cwd: text::copy_option(&self.cwd),
            git_branch: text::copy_option(&self.git_branch),
            originator: text::copy_option(&self.originator),
            model: text::copy_option(&self.model),
            cli_version: text::copy_option(&self.cli_version),
            thread_name: text::copy_option(&self.thread_name),
            turn_count: self.turn_count,
            start_time: self.start_time.clone(),
            end_time: text::copy_option(&self.end_time),
            total_tokens: self.total_tokens,
            is_ongoing: self.is_ongoing,
            is_external_worker: self.is_external_worker,
            is_inline_worker: self.is_inline_worker,
            is_headless: self.is_headless,
            is_archived: self.is_archived,
            worker_nickname: text::copy_option(&self.worker_nickname),
            worker_role: text::copy_option(&self.worker_role),
            spawned_worker_ids: text::copy_all(&self.spawned_worker_ids),
            date_group: self.date_group.clone(),
            ai_title: text::copy_option(&self.ai_title),
            approval_mode: text::copy_option(&self.approval_mode),
            history_base_thread_id: text::copy_option(&self.history_base_thread_id),
        }
    }
}

/// How far a session file has been scanned.
#[derive(Debug, Clone, Copy, PartialEq, Eq, Structural)]
pub struct ScanBookmark {
    /// The position behind what was scanned.
    pub bytes: u64,
}

} // verus!
