use std::sync::Arc;

use codex_trace::decimal::decimal;
use codex_trace::json::Json;
use codex_trace::parser::discover::CodexSessionInfo;
use codex_trace::parser::session::{CodexSession, GitInfo};
use codex_trace::parser::toolcall::{Seconds, ToolCall, ToolKind};
use codex_trace::parser::turn::{
    AgentMessage, CodexTurn, CollabSpawn, CompactionMeta, Memory, TokenInfo, TurnStatus,
};
use codex_trace::tui::app::{App, Screen};
use codex_trace::tui::item::{item_content, tool_body_lines, Body};
use codex_trace::tui::open_session::{ItemPanel, OpenSession};
use codex_trace::tui::picker::PickerRow;
use codex_trace::tui::rows::Row;
use codex_trace::tui::show;
use codex_trace::tui::styled::{Color, Line, Piece};
use codex_trace::tui::ui;

fn patch_tool_call(input_text: Option<&str>, patch_changes: Option<Json>) -> ToolCall {
    ToolCall {
        call_id: "call1".to_string(),
        kind: ToolKind::PatchApply,
        name: "apply_patch".to_string(),
        arguments: Json::Null,
        input_text: input_text.map(str::to_string),
        output: None,
        exit_code: None,
        command: None,
        cwd: None,
        duration_secs: None,
        mcp_server: None,
        mcp_tool: None,
        plugin_id: None,
        patch_success: None,
        patch_changes,
        web_query: None,
        web_url: None,
        image_prompt: None,
        image_file_path: None,
        worker_session: None,
        status: "success".to_string(),
        subagent_id: None,
        subagent_name: None,
    }
}

fn pieces_text(pieces: &[Piece]) -> String {
    pieces
        .iter()
        .map(|p| match p {
            Piece::Text(s) => s.clone(),
            Piece::Quotient { value, divisor } => {
                format!("{:.1}", *value as f64 / *divisor as f64)
            }
            Piece::Duration { secs, decimals } => {
                format!("{:.*}", *decimals as usize, f64::from_bits(secs.bits))
            }
        })
        .collect()
}

fn line_text(line: &Line) -> String {
    line.spans.iter().map(|s| pieces_text(&s.content)).collect()
}

fn body_text(body: &Body) -> String {
    match body {
        Body::Plain(pieces) => pieces_text(pieces),
        Body::Styled(lines) => lines.iter().map(line_text).collect::<Vec<_>>().join("\n"),
    }
}

fn turn() -> CodexTurn {
    CodexTurn {
        turn_id: "turn-1".to_string(),
        status: TurnStatus::Complete,
        model: None,
        cwd: None,
        reasoning_effort: None,
        started_at: None,
        completed_at: None,
        duration_ms: None,
        total_tokens: None,
        error: None,
        aborted_reason: None,
        has_compaction: false,
        compaction_meta: None,
        memories: Vec::new(),
        collab_spawns: Vec::new(),
        thread_name: None,
        trace_id: None,
        user_message: None,
        agent_messages: Vec::new(),
        tool_calls: Vec::new(),
        tool_call_orders: Vec::new(),
    }
}

fn bare_session() -> CodexSession {
    CodexSession {
        id: "bare".to_string(),
        timestamp: String::new(),
        cwd: None,
        originator: None,
        cli_version: None,
        model_provider: None,
        git: None,
        instructions: None,
        turns: Vec::new(),
        is_ongoing: false,
        total_tokens: None,
        thread_name: None,
        spawned_worker_ids: Vec::new(),
        path: String::new(),
        ai_title: None,
        is_headless: false,
        has_missing_spawn_metadata: false,
    }
}

fn tokens(total: u64, used: Option<u64>, window: u64) -> TokenInfo {
    TokenInfo {
        input_tokens: 1,
        cached_input_tokens: 2,
        output_tokens: 3,
        reasoning_output_tokens: 4,
        total_tokens: total,
        context_window_tokens: used,
        model_context_window: window,
    }
}

fn info() -> CodexSessionInfo {
    CodexSessionInfo {
        id: "s1".to_string(),
        path: "/tmp/s1.jsonl".to_string(),
        cwd: None,
        git_branch: None,
        originator: None,
        model: None,
        cli_version: None,
        thread_name: None,
        turn_count: 3,
        start_time: "2026-05-07T01:02:03.456Z".to_string(),
        end_time: None,
        total_tokens: None,
        is_ongoing: false,
        is_external_worker: false,
        is_inline_worker: false,
        is_headless: false,
        is_archived: false,
        worker_nickname: None,
        worker_role: None,
        spawned_worker_ids: Vec::new(),
        date_group: "2026/05/07".to_string(),
        ai_title: None,
        approval_mode: None,
        history_base_thread_id: None,
    }
}

#[test]
fn tool_body_lines_renders_a_parseable_patch_as_a_colored_diff() {
    let patch = [
        "*** Begin Patch",
        "*** Update File: src/main.rs",
        "@@",
        "-    println!(\"old\");",
        "+    println!(\"new\");",
        "*** End Patch",
    ]
    .join("\n");
    let tool = patch_tool_call(Some(&patch), None);
    let lines = tool_body_lines(&tool);
    let texts: Vec<String> = lines.iter().map(line_text).collect();
    assert!(texts.iter().any(|t| t.contains("[update] src/main.rs")));
    assert!(texts.iter().any(|t| t.contains("-    println!(\"old\");")));
    assert!(texts.iter().any(|t| t.contains("+    println!(\"new\");")));
    // The changed word should carry a distinct (bold+underlined) style
    // from the rest of the line, not just plain text.
    let added_line = lines
        .iter()
        .find(|l| line_text(l).contains("println!(\"new\");"))
        .expect("added line present");
    assert!(added_line.spans.iter().any(|s| s.style.bold));
}

#[test]
fn tool_body_lines_falls_back_to_patch_changes_unified_diff_when_input_is_not_a_patch() {
    let changes = Json::parse(
        r#"{"src/main.rs": { "type": "update", "unified_diff": "-old\n+new" }}"#,
    )
    .unwrap();
    let tool = patch_tool_call(Some("not a patch body"), Some(changes));
    let lines = tool_body_lines(&tool);
    let texts: Vec<String> = lines.iter().map(line_text).collect();
    assert!(texts.iter().any(|t| t.contains("[update] src/main.rs")));
    assert!(texts.iter().any(|t| t == "-old"));
    assert!(texts.iter().any(|t| t == "+new"));
}

#[test]
fn tool_body_lines_falls_back_to_raw_input_text_when_nothing_is_parseable() {
    let tool = patch_tool_call(Some("just some output text"), None);
    let lines = tool_body_lines(&tool);
    let texts: Vec<String> = lines.iter().map(line_text).collect();
    assert_eq!(
        texts,
        vec!["input:".to_string(), "just some output text".to_string()]
    );
}

#[test]
fn context_color_is_green_below_50_yellow_in_band_red_above_80() {
    assert_eq!(ui::context_color(0), Color::Green);
    assert_eq!(ui::context_color(49), Color::Green);
    assert_eq!(ui::context_color(50), Color::Yellow);
    assert_eq!(ui::context_color(80), Color::Yellow);
    assert_eq!(ui::context_color(81), Color::Red);
    assert_eq!(ui::context_color(100), Color::Red);
}

#[test]
fn info_bar_line_shows_branch_model_and_context_percent() {
    let mut session = bare_session();
    session.git = Some(GitInfo { branch: Some("feature/x".to_string()) });
    let mut t = turn();
    t.model = Some("gpt-5.4".to_string());
    t.total_tokens = Some(tokens(2, Some(51_000), 100_000));
    session.turns.push(t);

    assert_eq!(ui::last_context_usage(&session), Some((51_000, 100_000)));
    let text = line_text(&ui::info_bar_line(&session, 51));
    assert!(text.contains("* feature/x"), "expected branch in {text:?}");
    assert!(text.contains("gpt-5.4"), "expected model in {text:?}");
    assert!(text.contains("ctx 51%"), "expected context pct in {text:?}");
    assert_eq!(text, "* feature/x · gpt-5.4 · ctx 51% · 51.0k/100.0k tok");
}

#[test]
fn info_bar_line_placeholder_when_session_has_no_metadata() {
    let session = bare_session();
    let text = line_text(&ui::info_bar_line(&session, 0));
    assert_eq!(text, "(no session metadata)");
}

#[test]
fn the_last_turn_that_states_something_counts() {
    let mut session = bare_session();
    let mut first = turn();
    first.model = Some("m1".to_string());
    first.total_tokens = Some(tokens(1, Some(5), 10));
    let mut second = turn();
    second.model = Some("m2".to_string());
    second.total_tokens = Some(tokens(1, Some(6), 0));
    session.turns = vec![first, second, turn()];
    assert_eq!(ui::last_turn_model(&session), Some("m2".to_string()));
    assert_eq!(ui::last_context_usage(&session), Some((5, 10)));
}

#[test]
fn a_session_is_listed_with_its_facts() {
    let mut s = info();
    assert_eq!(
        line_text(&ui::session_list_item(&s)),
        "     s1  -   3 turns   - tok   2026-05-07 01:02:03"
    );
    s.is_ongoing = true;
    s.is_inline_worker = true;
    s.cwd = Some("/cwd".to_string());
    s.thread_name = Some("thread\n name".to_string());
    s.model = Some("gpt".to_string());
    s.total_tokens = Some(12_345);
    s.worker_role = Some("planner".to_string());
    s.start_time = String::new();
    let line = ui::session_list_item(&s);
    assert_eq!(
        line_text(&line),
        "●  ↳ thread name  gpt   3 turns   12.3k tok   -  [planner]"
    );
    assert_eq!(line.spans[0].style.fg, Some(Color::Green));
    s.ai_title = Some("x".repeat(60));
    s.is_ongoing = false;
    s.is_archived = true;
    let line = ui::session_list_item(&s);
    assert_eq!(line.spans[0].style.fg, Some(Color::DarkGray));
    assert!(line_text(&line).contains(&format!("{}…  gpt", "x".repeat(47))));
}

#[test]
fn the_picker_shows_dates_and_sessions() {
    let mut app = App::new("/d".to_string(), Ok(vec![info()]));
    assert!(ui::picker_rows_in_range(&app));
    let texts: Vec<String> = ui::picker_items(&app).iter().map(line_text).collect();
    assert_eq!(texts[0], "▼ 2026/05/07");
    assert_eq!(texts.len(), 2);
    app.activate_picker_row();
    let texts: Vec<String> = ui::picker_items(&app).iter().map(line_text).collect();
    assert_eq!(texts, vec!["▶ 2026/05/07"]);
    assert_eq!(ui::picker_title("/d", 1), " Codex Trace — /d (1 sessions) ");
    assert_eq!(ui::picker_footer(&app), ui::PICKER_KEYS);
    app.search_mode = true;
    app.search_query = "ab".to_string();
    assert_eq!(ui::picker_footer(&app), "search: ab_");
    app.sessions.clear();
    app.filtered_rows = vec![PickerRow::Session(0)];
    assert!(!ui::picker_rows_in_range(&app));
}

#[test]
fn a_session_has_a_title() {
    let mut session = bare_session();
    assert_eq!(ui::detail_title(&session, 1), " bare   0 turns    ");
    session.is_ongoing = true;
    session.cwd = Some("/w".to_string());
    session.turns.push(turn());
    assert_eq!(
        ui::detail_title(&session, 2),
        " bare  (worker depth 2)  ● LIVE   1 turns   /w "
    );
}

fn full_tool_call() -> ToolCall {
    let mut tool = patch_tool_call(None, None);
    tool.kind = ToolKind::Other("Exec".to_string());
    tool.name = "exec".to_string();
    tool.command = Some(vec!["ls".to_string(), "-l".to_string()]);
    tool.arguments = Json::parse(r#"{"b":1,"a":[true]}"#).unwrap();
    tool.output = Some(r#"{"z":1}"#.to_string());
    tool.exit_code = Some(-2);
    tool.cwd = Some("/w".to_string());
    tool.duration_secs = Some(Seconds { bits: 1.25f64.to_bits() });
    tool.mcp_server = Some("srv".to_string());
    tool.web_query = Some("q".to_string());
    tool.web_url = Some("u".to_string());
    tool.image_prompt = Some("p".to_string());
    tool.image_file_path = Some("f".to_string());
    tool.subagent_id = Some("i".to_string());
    tool.subagent_name = Some("n".to_string());
    tool.patch_success = Some(true);
    tool.patch_changes = Some(Json::parse(r#"{"x":{}}"#).unwrap());
    tool.worker_session = Some(Arc::new(bare_session()));
    tool.status = "failed".to_string();
    tool
}

#[test]
fn the_list_shows_every_kind_of_row() {
    let mut session = bare_session();
    let mut t = turn();
    t.status = TurnStatus::Aborted;
    t.duration_ms = Some(1234);
    t.total_tokens = Some(tokens(2_500_000, None, 0));
    t.user_message = Some("  two\n words ".to_string());
    t.agent_messages.push(AgentMessage {
        text: "thinking".to_string(),
        is_reasoning: true,
        phase: Some("plan".to_string()),
        order: 0,
    });
    t.tool_calls.push(full_tool_call());
    t.tool_call_orders.push(1);
    session.turns.push(t);
    let mut open = OpenSession::new(Arc::new(session), "/s".to_string(), None);
    assert!(ui::detail_rows_in_range(&open));
    let items = ui::detail_items(&open);
    assert_eq!(line_text(&items[0][0]), "▶ Turn 1 Aborted   -   1.2s   2.5m tok");
    assert_eq!(items[0][0].spans[1].style.fg, Some(Color::Red));
    assert_eq!(line_text(&items[1][0]), "   user  two words");
    assert_eq!(line_text(&items[2][0]), "   reason thinking");
    assert_eq!(line_text(&items[3][0]), "   ▸ Exec exec   failed   1.2s");
    assert_eq!(items[3].len(), 1);
    open.set_all_expanded(true);
    let items = ui::detail_items(&open);
    let texts: Vec<String> = items[3].iter().map(line_text).collect();
    assert_eq!(
        texts,
        vec![
            "   ▾ Exec exec   failed   1.2s",
            "       $ ls -l",
            "       args: { \"a\": [ true ], \"b\": 1 }",
            "       out:  {\"z\":1}",
            "       worker session bare (0 turns) — press Enter to open",
            "       press Enter for full detail",
        ]
    );
    open.rows.push(Row::Tool(0, 1));
    assert!(!ui::detail_rows_in_range(&open));
}

#[test]
fn a_tool_call_without_facts_says_so() {
    assert_eq!(
        ui::tool_preview_lines(&patch_tool_call(None, None)),
        vec!["(no preview — press Enter for full detail)"]
    );
    assert_eq!(
        ui::tool_preview_lines(&patch_tool_call(Some("a\nb"), None)),
        vec!["in:   a b", "press Enter for full detail"]
    );
}

#[test]
fn the_detail_of_a_turn_lists_all_facts() {
    let mut t = turn();
    t.model = Some("gpt".to_string());
    t.started_at = Some(1_777_111_200);
    t.completed_at = Some(u64::MAX);
    t.duration_ms = Some(999);
    t.total_tokens = Some(tokens(10, None, 0));
    t.error = Some("boom".to_string());
    t.aborted_reason = Some("why".to_string());
    t.has_compaction = true;
    t.compaction_meta = Some(CompactionMeta {
        tokens_before: Some(7),
        tokens_after: None,
        compaction_trigger: Some("a\"b".to_string()),
        summary: Some("short".to_string()),
    });
    t.memories.push(Memory { content: "m\nn".to_string() });
    t.collab_spawns.push(CollabSpawn {
        agent_nickname: "nick".to_string(),
        agent_role: "role".to_string(),
        new_session_id: "id".to_string(),
    });
    t.thread_name = Some("thread".to_string());
    t.trace_id = Some("trace".to_string());
    let mut session = bare_session();
    session.turns.push(t);
    let content = item_content(&session, Row::TurnHeader(0));
    assert_eq!(content.heading, "Turn 1");
    assert_eq!(content.primary_title, "Details");
    assert!(content.secondary.is_none());
    let expected = [
        "turn_id: turn-1",
        "status: Complete",
        "model: gpt",
        "cwd: -",
        "reasoning_effort: -",
        "started: 2026-04-25 10:00:00 UTC",
        "completed: 1969-12-31 23:59:59 UTC",
        "duration: 999ms",
        "tokens: input=1 cached=2 output=3 reasoning=4 total=10",
        "error: boom",
        "aborted_reason: why",
        "compaction: yes",
        "  tokens_before=Some(7) tokens_after=None trigger=Some(\"a\\\"b\")",
        "  summary: short",
        "memories: 1",
        "  - m n",
        "spawned agents:",
        "  - nick (role) -> session id",
        "thread_name: thread",
        "trace_id: trace",
    ]
    .join("\n");
    assert_eq!(body_text(&content.primary), expected);
}

#[test]
fn the_detail_of_a_tool_call_has_two_panels() {
    let mut session = bare_session();
    let mut t = turn();
    t.tool_calls.push(full_tool_call());
    session.turns.push(t);
    let content = item_content(&session, Row::Tool(0, 0));
    assert_eq!(content.heading, "Turn 1 — exec");
    let request = [
        "call_id: call1",
        "kind: Exec",
        "name: exec",
        "command: ls -l",
        "cwd: /w",
        "mcp: srv/",
        "query: q",
        "url: u",
        "prompt: p",
        "subagent_id: i",
        "subagent_name: n",
        "",
        "arguments:",
        "{",
        "  \"a\": [",
        "    true",
        "  ],",
        "  \"b\": 1",
        "}",
    ]
    .join("\n");
    assert_eq!(body_text(content.shown(ItemPanel::Primary)), request);
    let response = [
        "status: failed",
        "exit_code: -2",
        "duration: 1.25s",
        "patch_success: true",
        "file: f",
        "worker session: bare (0 turns) — press Enter from the list to open",
        "",
        "output:",
        "{",
        "  \"z\": 1",
        "}",
        "",
        "changes:",
        "{",
        "  \"x\": {}",
        "}",
    ]
    .join("\n");
    assert_eq!(body_text(content.shown(ItemPanel::Secondary)), response);
    assert_eq!(
        content.title(ItemPanel::Primary),
        " Request / Response   (showing: Request, h/l to switch) "
    );
    assert_eq!(
        content.title(ItemPanel::Secondary),
        " Request / Response   (showing: Response, h/l to switch) "
    );
}

#[test]
fn a_tool_call_without_output_says_so() {
    let mut session = bare_session();
    let mut t = turn();
    t.tool_calls.push(patch_tool_call(None, Some(Json::Null)));
    session.turns.push(t);
    let content = item_content(&session, Row::Tool(0, 0));
    assert_eq!(
        body_text(content.shown(ItemPanel::Secondary)),
        "status: success\n(no output yet)"
    );
    assert_eq!(
        body_text(&content.primary),
        "call_id: call1\nkind: PatchApply\nname: apply_patch"
    );
}

#[test]
fn messages_have_one_panel() {
    let mut session = bare_session();
    let mut t = turn();
    t.user_message = Some("hello\nworld".to_string());
    t.agent_messages.push(AgentMessage {
        text: "hi".to_string(),
        is_reasoning: false,
        phase: Some("final_answer".to_string()),
        order: 0,
    });
    session.turns = vec![turn(), t];
    let user = item_content(&session, Row::UserMessage(1));
    assert_eq!(user.heading, "Turn 2 — User Message");
    assert_eq!(body_text(user.shown(ItemPanel::Secondary)), "hello\nworld");
    assert_eq!(user.title(ItemPanel::Secondary), " Message ");
    let agent = item_content(&session, Row::Agent(1, 0));
    assert_eq!(agent.heading, "Turn 2 — Agent Message (final_answer)");
    assert_eq!(agent.primary_title, "Agent Message");
    assert_eq!(body_text(&agent.primary), "hi");
}

#[test]
fn a_patch_is_shown_file_by_file() {
    let patch = "*** Add File: a\n+x\n*** Update File: b\n*** Move to: c\n@@ fn f\n-y\n+z";
    let texts: Vec<String> =
        tool_body_lines(&patch_tool_call(Some(patch), None)).iter().map(line_text).collect();
    assert_eq!(texts, vec!["[add] a", "+x", "", "[update] b → c", "@@ fn f", "-y", "+z", ""]);
}

#[test]
fn recorded_changes_show_diff_or_content() {
    let changes = Json::parse(
        r#"{"b":{"content":"one\r\ntwo\n"},"a":{"type":"delete"},"c":3}"#,
    )
    .unwrap();
    let texts: Vec<String> =
        tool_body_lines(&patch_tool_call(None, Some(changes))).iter().map(line_text).collect();
    assert_eq!(
        texts,
        vec!["[delete] a", "", "[update] b", "one", "two", "", "[update] c", ""]
    );
}

#[test]
fn statuses_have_colors() {
    let color = |s: &str| ui::tool_status_color(&s.to_string());
    assert_eq!(color("ok"), Color::Green);
    assert_eq!(color("completed"), Color::Green);
    assert_eq!(color("error"), Color::Red);
    assert_eq!(color("pending"), Color::Yellow);
    assert_eq!(color("else"), Color::Gray);
    assert_eq!(ui::turn_status_color(TurnStatus::Cancelled), Color::DarkGray);
    assert_eq!(ui::turn_status_color(TurnStatus::Ongoing), Color::Cyan);
}

#[test]
fn counts_and_durations_are_scaled() {
    assert_eq!(pieces_text(&show::format_count(0)), "0");
    assert_eq!(pieces_text(&show::format_count(999)), "999");
    assert_eq!(pieces_text(&show::format_count(1000)), "1.0k");
    assert_eq!(pieces_text(&show::format_count(1_000_000)), "1.0m");
    assert_eq!(pieces_text(&show::fmt_duration_ms(Some(1500))), "1.5s");
    assert_eq!(pieces_text(&show::fmt_duration_ms(Some(7))), "7ms");
    assert_eq!(pieces_text(&show::fmt_duration_ms(None)), "-");
}

#[test]
fn times_are_written_for_reading() {
    assert_eq!(show::fmt_iso(&Some("2026-05-07T01:02:03Z".to_string())), "2026-05-07 01:02:03");
    assert_eq!(show::fmt_iso(&Some("2026ZZ".to_string())), "2026");
    assert_eq!(show::fmt_iso(&Some(String::new())), "-");
    assert_eq!(show::fmt_iso(&None), "-");
    assert_eq!(show::fmt_epoch(Some(0)), "1970-01-01 00:00:00 UTC");
    assert_eq!(show::fmt_epoch(Some(i64::MAX as u64)), "-");
    assert_eq!(show::fmt_epoch(None), "-");
}

#[test]
fn texts_are_put_on_one_line_and_shortened() {
    assert_eq!(show::single_line(" a\t b\n\nc "), "a b c");
    assert_eq!(show::single_line(&show::single_line(" a\t b")), "a b");
    assert_eq!(show::truncate("abcdef", 4), "abc…");
    assert_eq!(show::truncate("abcd", 4), "abcd");
    assert_eq!(show::truncate("ab", 0), "…");
}

#[test]
fn numbers_are_written_in_decimal() {
    assert_eq!(decimal(u64::MAX), "18446744073709551615");
    assert_eq!(show::signed_decimal(i32::MIN), "-2147483648");
    assert_eq!(show::fmt_debug_number(Some(3)), "Some(3)");
    assert_eq!(show::fmt_debug_text(&None), "None");
}

#[test]
fn json_is_made_readable_where_it_is_json() {
    assert_eq!(show::maybe_pretty("[1,2]"), "[\n  1,\n  2\n]");
    assert_eq!(show::maybe_pretty("plain"), "plain");
    assert_eq!(show::pretty_json(&Json::Null), None);
    assert_eq!(show::pretty_json(&Json::Object(vec![])), None);
    assert_eq!(show::pretty_json(&Json::Bool(true)), Some("true".to_string()));
}

#[test]
fn the_help_depends_on_the_screen() {
    assert_eq!(ui::help_lines(Screen::Picker)[0], "Session Picker");
    assert_eq!(ui::help_lines(Screen::Picker).len(), 8);
    assert_eq!(ui::help_lines(Screen::Detail)[0], "Session Detail");
    assert_eq!(ui::help_lines(Screen::Detail).len(), 10);
}

#[test]
fn a_box_is_put_in_the_middle() {
    assert_eq!(ui::centered_shares(72), (14, 72, 14));
    assert_eq!(ui::centered_shares(70), (15, 70, 15));
}
