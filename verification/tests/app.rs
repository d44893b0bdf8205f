use std::sync::Arc;

use codex_trace::json::Json;
use codex_trace::parser::cache::FileTime;
use codex_trace::parser::discover::CodexSessionInfo;
use codex_trace::parser::session::CodexSession;
use codex_trace::parser::toolcall::{ToolCall, ToolKind};
use codex_trace::parser::turn::{AgentMessage, CodexTurn, TurnStatus};
use codex_trace::tui::app::{Action, App, KeyCode, Screen};
use codex_trace::tui::open_session::{DetailFocus, ItemPanel, OpenSession};
use codex_trace::tui::picker::{session_matches, PickerRow};
use codex_trace::tui::rows::{build_rows, Row};

fn sample_session_info(id: &str, date_group: &str, start_time: &str) -> CodexSessionInfo {
    CodexSessionInfo {
        id: id.to_string(),
        path: format!("/tmp/{id}.jsonl"),
        cwd: None,
        git_branch: None,
        originator: None,
        model: None,
        cli_version: None,
        thread_name: None,
        turn_count: 1,
        start_time: start_time.to_string(),
        end_time: None,
        total_tokens: None,
        is_ongoing: false,
        is_external_worker: false,
        is_inline_worker: false,
        worker_nickname: None,
        worker_role: None,
        spawned_worker_ids: Vec::new(),
        date_group: date_group.to_string(),
        ai_title: None,
        is_headless: false,
        is_archived: false,
        approval_mode: None,
        history_base_thread_id: None,
    }
}

fn test_app(sessions: Vec<CodexSessionInfo>) -> App {
    App::new("/tmp".to_string(), Ok(sessions))
}

fn tool_call(kind: ToolKind, name: &str) -> ToolCall {
    ToolCall {
        call_id: "call1".to_string(),
        kind,
        name: name.to_string(),
        arguments: Json::Null,
        input_text: None,
        output: None,
        exit_code: None,
        command: None,
        cwd: None,
        duration_secs: None,
        mcp_server: None,
        mcp_tool: None,
        plugin_id: None,
        patch_success: None,
        patch_changes: None,
        web_query: None,
        web_url: None,
        image_prompt: None,
        image_file_path: None,
        worker_session: None,
        status: "success".to_string(),
        subagent_id: None,
        subagent_name: None,
    }
}

fn turn() -> CodexTurn {
    CodexTurn {
        turn_id: "turn-1".to_string(),
        status: TurnStatus::Complete,
        model: None,
        cwd: None,
        reasoning_effort: None,
        started_at: None,
        completed_at: None,
        duration_ms: None,
        total_tokens: None,
        error: None,
        aborted_reason: None,
        has_compaction: false,
        compaction_meta: None,
        memories: Vec::new(),
        collab_spawns: Vec::new(),
        thread_name: None,
        trace_id: None,
        user_message: None,
        agent_messages: Vec::new(),
        tool_calls: Vec::new(),
        tool_call_orders: Vec::new(),
    }
}

fn session(id: &str, path: &str, turns: Vec<CodexTurn>) -> CodexSession {
    CodexSession {
        id: id.to_string(),
        timestamp: String::new(),
        cwd: None,
        originator: None,
        cli_version: None,
        model_provider: None,
        git: None,
        instructions: None,
        turns,
        is_ongoing: false,
        total_tokens: None,
        thread_name: None,
        spawned_worker_ids: Vec::new(),
        path: path.to_string(),
        ai_title: None,
        is_headless: false,
        has_missing_spawn_metadata: false,
    }
}

fn message(text: &str, order: usize) -> AgentMessage {
    AgentMessage { text: text.to_string(), is_reasoning: false, phase: None, order }
}

fn session_with_tool_call() -> Arc<CodexSession> {
    let mut t = turn();
    t.user_message = Some("Hello agent".to_string());
    t.tool_calls.push(tool_call(ToolKind::PatchApply, "apply_patch"));
    t.tool_call_orders.push(1);
    t.agent_messages.push(message("Hi there", 2));
    Arc::new(session("testsess", "/tmp/testsess.jsonl", vec![t]))
}

fn app_with_open_session() -> App {
    let mut app = test_app(vec![sample_session_info("testsess", "2026/05/07", "")]);
    app.picker_state.select(Some(1));
    match app.activate_picker_row() {
        Action::Open(path) => app.show_session(path, Ok(session_with_tool_call()), None),
        other => panic!("unexpected action {other:?}"),
    }
    app
}

#[test]
fn session_matches_checks_multiple_fields_case_insensitively() {
    let mut s = sample_session_info("s1", "2026/05/07", "2026-05-07T00:00:00Z");
    s.cwd = Some("/home/user/MyProject".to_string());
    assert!(session_matches(&s, "myproject"));
    assert!(!session_matches(&s, "other"));
}

#[test]
fn rebuild_picker_rows_groups_sessions_by_date() {
    let sessions = vec![
        sample_session_info("s1", "2026/05/08", "2026-05-08T00:00:00Z"),
        sample_session_info("s2", "2026/05/07", "2026-05-07T00:00:00Z"),
        sample_session_info("s3", "2026/05/07", "2026-05-07T01:00:00Z"),
    ];
    let app = test_app(sessions);
    assert_eq!(app.filtered_rows.len(), 5); // 2 headers + 3 sessions
    assert!(matches!(&app.filtered_rows[0], PickerRow::DateHeader(g) if g == "2026/05/08"));
    assert!(matches!(app.filtered_rows[1], PickerRow::Session(0)));
    assert!(matches!(&app.filtered_rows[2], PickerRow::DateHeader(g) if g == "2026/05/07"));
}

#[test]
fn rebuild_picker_rows_search_filters_and_skips_empty_groups() {
    let mut sessions = vec![
        sample_session_info("s1", "2026/05/08", "2026-05-08T00:00:00Z"),
        sample_session_info("s2", "2026/05/07", "2026-05-07T00:00:00Z"),
    ];
    sessions[0].cwd = Some("/tmp/alpha".to_string());
    sessions[1].cwd = Some("/tmp/beta".to_string());
    let mut app = test_app(sessions);
    app.search_query = "alpha".to_string();
    app.rebuild_picker_rows();
    // Only the alpha session's date group should survive.
    assert_eq!(app.filtered_rows.len(), 2);
    assert!(matches!(&app.filtered_rows[0], PickerRow::DateHeader(g) if g == "2026/05/08"));
    assert!(matches!(app.filtered_rows[1], PickerRow::Session(0)));
}

#[test]
fn activate_picker_row_collapses_and_expands_a_group() {
    let sessions = vec![sample_session_info(
        "s1",
        "2026/05/08",
        "2026-05-08T00:00:00Z",
    )];
    let mut app = test_app(sessions);
    app.picker_state.select(Some(0));
    app.activate_picker_row();
    assert_eq!(app.filtered_rows.len(), 1); // header only, session hidden
    app.activate_picker_row();
    assert_eq!(app.filtered_rows.len(), 2); // expanded again
}

#[test]
fn move_picker_clamps_at_list_bounds() {
    let sessions = vec![
        sample_session_info("s1", "2026/05/08", "2026-05-08T00:00:00Z"),
        sample_session_info("s2", "2026/05/07", "2026-05-07T00:00:00Z"),
    ];
    let mut app = test_app(sessions);
    app.picker_state.select(Some(0));
    app.move_picker(-5);
    assert_eq!(app.picker_state.selected(), Some(0));
    app.move_picker(100);
    assert_eq!(
        app.picker_state.selected(),
        Some(app.filtered_rows.len() - 1)
    );
}

#[test]
fn search_mode_typing_filters_live_and_escape_clears() {
    let mut sessions = vec![sample_session_info(
        "s1",
        "2026/05/08",
        "2026-05-08T00:00:00Z",
    )];
    sessions[0].cwd = Some("/tmp/alpha".to_string());
    let mut app = test_app(sessions);
    app.search_mode = true;
    app.on_key_picker(KeyCode::Char('z'));
    app.on_key_picker(KeyCode::Char('z'));
    assert_eq!(app.filtered_rows.len(), 0);
    app.on_key_picker(KeyCode::Esc);
    assert!(!app.search_mode);
    assert!(app.search_query.is_empty());
    assert_eq!(app.filtered_rows.len(), 2);
}

#[test]
fn build_rows_interleaves_user_message_tool_call_and_agent_message_in_order() {
    let rows = build_rows(&session_with_tool_call());
    assert_eq!(
        rows,
        vec![
            Row::TurnHeader(0),
            Row::UserMessage(0),
            Row::Tool(0, 0),
            Row::Agent(0, 0),
        ]
    );
}

#[test]
fn open_session_by_index_switches_to_detail_screen_and_builds_rows() {
    let mut app = test_app(vec![sample_session_info("testsess", "2026/05/07", "")]);
    assert_eq!(app.sessions.len(), 1);
    app.picker_state.select(Some(1)); // row 0 is the date header
    let action = app.activate_picker_row();
    assert!(matches!(&action, Action::Open(path) if path == "/tmp/testsess.jsonl"));
    app.show_session("/tmp/testsess.jsonl".to_string(), Ok(session_with_tool_call()), None);
    assert_eq!(app.screen, Screen::Detail);
    assert_eq!(app.stack.len(), 1);
    assert_eq!(app.stack[0].rows.len(), 4);
}

#[test]
fn toggle_expand_selected_only_affects_tool_rows() {
    let mut open = OpenSession::new(session_with_tool_call(), "/tmp/x".to_string(), None);
    // Row 1 is the user message — toggling should have no effect.
    open.list_state.select(Some(1));
    open.toggle_expand_selected();
    assert!(open.expanded.is_empty());
    // Row 2 is the tool call.
    open.list_state.select(Some(2));
    open.toggle_expand_selected();
    assert!(open.expanded.contains(&(0, 0)));
    open.toggle_expand_selected();
    assert!(open.expanded.is_empty());
}

#[test]
fn set_all_expanded_expands_and_collapses_every_tool_call() {
    let mut open = OpenSession::new(session_with_tool_call(), "/tmp/x".to_string(), None);
    open.set_all_expanded(true);
    assert_eq!(open.expanded.len(), 1);
    open.set_all_expanded(false);
    assert!(open.expanded.is_empty());
}

#[test]
fn on_key_detail_list_esc_pops_stack_back_to_picker() {
    let mut app = app_with_open_session();
    assert_eq!(app.screen, Screen::Detail);
    app.on_key(KeyCode::Esc, false);
    assert!(app.stack.is_empty());
    assert_eq!(app.screen, Screen::Picker);
}

#[test]
fn selected_worker_session_returns_none_for_non_spawn_tool() {
    let mut open = OpenSession::new(session_with_tool_call(), "/tmp/x".to_string(), None);
    open.list_state.select(Some(2)); // the custom tool call row
    assert!(open.selected_worker_session().is_none());
}

fn session_with_worker() -> Arc<CodexSession> {
    let worker = Arc::new(session("worker-session", "/tmp/worker.jsonl", Vec::new()));
    let mut t = turn();
    let mut call = tool_call(ToolKind::SpawnAgent, "spawn_agent");
    call.worker_session = Some(worker);
    t.tool_calls.push(call);
    t.tool_call_orders.push(0);
    Arc::new(session("parent", "/tmp/parent.jsonl", vec![t]))
}

#[test]
fn selected_worker_session_returns_embedded_session_for_spawn_agent() {
    let mut open = OpenSession::new(session_with_worker(), "/tmp/parent.jsonl".to_string(), None);
    open.list_state.select(Some(1)); // the spawn_agent tool call row (no user message here)
    let worker = open
        .selected_worker_session()
        .expect("worker session embedded");
    assert_eq!(worker.id, "worker-session");
}

#[test]
fn enter_on_a_worker_opens_it_and_escape_returns() {
    let mut app = test_app(Vec::new());
    app.show_session("/tmp/parent.jsonl".to_string(), Ok(session_with_worker()), None);
    app.on_key(KeyCode::End, false);
    let action = app.on_key(KeyCode::Enter, false);
    assert!(matches!(&action, Action::Stamp(path) if path == "/tmp/worker.jsonl"));
    assert_eq!(app.stack.len(), 2);
    assert_eq!(app.stack[1].session.id, "worker-session");
    let time = FileTime::SinceEpoch { secs: 9, nanos: 0 };
    app.stamp_session(Some(time));
    assert_eq!(app.stack[1].last_mtime, Some(time));
    app.on_key(KeyCode::Char('q'), false);
    assert_eq!(app.stack.len(), 1);
    assert_eq!(app.screen, Screen::Detail);
    assert_eq!(app.stack[0].selected_row(), Some(Row::Tool(0, 0)));
}

#[test]
fn messages_and_tools_at_one_position_keep_their_order() {
    let mut t = turn();
    t.agent_messages.push(message("b", 3));
    t.agent_messages.push(message("a", 1));
    t.tool_calls.push(tool_call(ToolKind::Other("Exec".to_string()), "exec"));
    t.tool_call_orders.push(3);
    let rows = build_rows(&session("s", "/s", vec![turn(), t]));
    assert_eq!(
        rows,
        vec![
            Row::TurnHeader(0),
            Row::TurnHeader(1),
            Row::Agent(1, 1),
            Row::Agent(1, 0),
            Row::Tool(1, 0),
        ]
    );
}

#[test]
fn every_field_of_a_session_is_searched() {
    let mut s = sample_session_info("Id-1", "d", "");
    assert!(session_matches(&s, "id-1"));
    s.git_branch = Some("Feature/X".to_string());
    s.model = Some("GPT-5".to_string());
    s.thread_name = Some("Thread".to_string());
    s.ai_title = Some("Title \u{c4}".to_string());
    s.worker_nickname = Some("Parfit".to_string());
    s.worker_role = Some("Planner".to_string());
    for query in ["feature/x", "gpt-5", "thread", "title \u{e4}", "parfit", "planner"] {
        assert!(session_matches(&s, query), "{query}");
    }
    assert!(!session_matches(&s, "Feature"));
}

#[test]
fn a_typed_query_is_folded_to_lower_case() {
    let mut app = test_app(vec![sample_session_info("alpha", "d", "")]);
    app.on_key(KeyCode::Char('/'), false);
    app.on_key(KeyCode::Char('A'), false);
    app.on_key(KeyCode::Char('L'), false);
    assert_eq!(app.search_query, "AL");
    assert_eq!(app.filtered_rows.len(), 2);
    app.on_key(KeyCode::Char('?'), false);
    assert!(!app.show_help);
    assert_eq!(app.filtered_rows.len(), 0);
    app.on_key(KeyCode::Backspace, false);
    assert_eq!(app.filtered_rows.len(), 2);
    app.on_key(KeyCode::Enter, false);
    assert!(!app.search_mode);
    assert_eq!(app.search_query, "AL");
}

#[test]
fn a_failed_scan_is_reported() {
    let mut app = App::new("/tmp".to_string(), Err("no such dir".to_string()));
    assert_eq!(app.status_message.as_deref(), Some("failed to scan sessions dir: no such dir"));
    assert!(app.filtered_rows.is_empty());
    assert_eq!(app.picker_state.selected(), None);
    assert!(matches!(app.on_key(KeyCode::Char('r'), false), Action::Reload));
    app.reload_sessions(Ok(vec![sample_session_info("a", "d", "")]));
    assert_eq!(app.status_message, None);
    assert_eq!(app.picker_state.selected(), Some(0));
}

#[test]
fn a_session_that_cannot_be_parsed_is_reported() {
    let mut app = test_app(vec![sample_session_info("a", "d", "")]);
    app.show_session("/tmp/a.jsonl".to_string(), Err("bad line".to_string()), None);
    assert_eq!(app.status_message.as_deref(), Some("failed to parse session: bad line"));
    assert_eq!(app.screen, Screen::Picker);
    assert!(app.stack.is_empty());
}

#[test]
fn control_c_quits_from_the_help() {
    let mut app = app_with_open_session();
    app.on_key(KeyCode::Char('?'), false);
    assert!(app.show_help);
    app.on_key(KeyCode::Char('j'), false);
    assert!(app.show_help);
    assert!(!app.should_quit);
    app.on_key(KeyCode::Char('c'), true);
    assert!(app.should_quit);
    app.on_key(KeyCode::Esc, false);
    assert!(!app.show_help);
    assert_eq!(app.screen, Screen::Detail);
}

#[test]
fn q_quits_the_picker_but_closes_the_help_first() {
    let mut app = test_app(Vec::new());
    app.on_key(KeyCode::Char('?'), false);
    app.on_key(KeyCode::Char('q'), false);
    assert!(!app.should_quit);
    app.on_key(KeyCode::Char('q'), false);
    assert!(app.should_quit);
}

#[test]
fn picker_keys_move_the_selection() {
    let sessions = (0..15).map(|i| sample_session_info(&format!("s{i}"), "d", "")).collect();
    let mut app = test_app(sessions);
    let expected = [
        (KeyCode::Down, 1),
        (KeyCode::Char('j'), 2),
        (KeyCode::PageDown, 12),
        (KeyCode::PageDown, 15),
        (KeyCode::Up, 14),
        (KeyCode::Char('k'), 13),
        (KeyCode::PageUp, 3),
        (KeyCode::Home, 0),
        (KeyCode::End, 15),
    ];
    for (key, selected) in expected {
        app.on_key(key, false);
        assert_eq!(app.picker_state.selected(), Some(selected));
    }
}

#[test]
fn a_shrinking_list_pulls_the_selection_back() {
    let sessions = (0..5).map(|i| sample_session_info(&format!("s{i}"), "d", "")).collect();
    let mut app = test_app(sessions);
    app.on_key(KeyCode::End, false);
    app.reload_sessions(Ok(vec![sample_session_info("s0", "d", "")]));
    assert_eq!(app.picker_state.selected(), Some(1));
    app.reload_sessions(Ok(Vec::new()));
    assert_eq!(app.picker_state.selected(), None);
}

#[test]
fn separate_runs_of_one_date_have_their_own_headers() {
    let sessions = vec![
        sample_session_info("a", "d1", ""),
        sample_session_info("b", "d2", ""),
        sample_session_info("c", "d1", ""),
    ];
    let mut app = test_app(sessions);
    assert_eq!(app.filtered_rows.len(), 6);
    app.on_key(KeyCode::Char(' '), false);
    assert_eq!(app.filtered_rows.len(), 4);
    assert!(app.collapsed_groups.contains_key("d1"));
}

#[test]
fn the_detail_of_a_row_scrolls_and_switches_panels() {
    let mut app = app_with_open_session();
    app.on_key(KeyCode::Enter, false);
    assert_eq!(app.stack[0].focus, DetailFocus::Item);
    app.on_key(KeyCode::Up, false);
    assert_eq!(app.stack[0].item_scroll, 0);
    app.on_key(KeyCode::PageDown, false);
    app.on_key(KeyCode::Char('j'), false);
    assert_eq!(app.stack[0].item_scroll, 11);
    app.stack[0].item_scroll = u16::MAX;
    app.on_key(KeyCode::PageDown, false);
    assert_eq!(app.stack[0].item_scroll, u16::MAX);
    app.on_key(KeyCode::Char('l'), false);
    assert_eq!(app.stack[0].item_panel, ItemPanel::Secondary);
    app.on_key(KeyCode::Left, false);
    assert_eq!(app.stack[0].item_panel, ItemPanel::Primary);
    app.on_key(KeyCode::Home, false);
    assert_eq!(app.stack[0].item_scroll, 0);
    app.on_key(KeyCode::Enter, false);
    assert_eq!(app.stack[0].focus, DetailFocus::List);
}

#[test]
fn the_list_expands_and_collapses_by_key() {
    let mut app = app_with_open_session();
    app.on_key(KeyCode::Char('e'), false);
    assert_eq!(app.stack[0].expanded.len(), 1);
    app.on_key(KeyCode::Char('c'), false);
    assert!(app.stack[0].expanded.is_empty());
    app.on_key(KeyCode::Down, false);
    app.on_key(KeyCode::Down, false);
    app.on_key(KeyCode::Tab, false);
    assert!(app.stack[0].expanded.contains(&(0, 0)));
}

#[test]
fn a_changed_file_is_read_again() {
    let mut app = app_with_open_session();
    let path = "/tmp/testsess.jsonl";
    assert!(matches!(app.on_tick(), Action::Check(p) if p == path));
    let time = FileTime::SinceEpoch { secs: 1, nanos: 0 };
    assert!(matches!(app.on_modified(None), Action::Nothing));
    assert!(matches!(app.on_modified(Some(time)), Action::Refresh(p) if p == path));
    assert!(matches!(app.on_modified(Some(time)), Action::Nothing));
    app.on_key(KeyCode::End, false);
    app.refresh_session(Some(Arc::new(session("testsess", path, vec![turn()]))));
    assert_eq!(app.stack[0].rows.len(), 1);
    assert_eq!(app.stack[0].list_state.selected(), Some(0));
    app.refresh_session(None);
    assert_eq!(app.stack[0].rows.len(), 1);
    assert!(matches!(app.on_key(KeyCode::Char('r'), false), Action::Refresh(p) if p == path));
}

#[test]
fn the_picker_does_not_look_at_files() {
    let app = test_app(Vec::new());
    assert!(matches!(app.on_tick(), Action::Nothing));
}
