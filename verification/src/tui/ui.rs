//! What the screens show: titles, lists, the info bar and the help.

use vstd::prelude::*;

use crate::decimal;
use crate::parser::discover::{CodexSessionInfo, InfoView};
use crate::parser::session::CodexSession;
use crate::parser::toolcall::{ToolCall, ToolKind};
use crate::parser::turn::{CodexTurn, TurnStatus};
use crate::text;
use crate::tui::app::{App, AppView, Screen};
use crate::tui::show;
use crate::tui::open_session::OpenSession;
use crate::tui::picker::{PickerRow, PickerRowView};
use crate::tui::rows::Row;
use crate::tui::styled;
use crate::tui::styled::{
    append_pieces,
    push_line,
    push_piece,
    push_span,
    push_text,
    Color,
    Line,
    Piece,
    PieceView,
    Span,
    SpanView,
    Style,
};

verus! {

/// How many characters of a session's title are shown.
pub const TITLE_WIDTH: usize = 48;

/// How many characters of a message are shown in the list.
pub const MESSAGE_WIDTH: usize = 110;

/// How many characters of a tool call's input and output are shown in the list.
pub const TOOL_WIDTH: usize = 100;

pub const PICKER_KEYS: &'static str = "j/k move   Enter open/toggle   /  search   r  refresh   ?  help   q  quit";

pub const LIST_KEYS: &'static str = "j/k move   Tab expand   e/c expand/collapse all   Enter detail   r refresh   Esc back   ? help";

pub const ITEM_KEYS: &'static str = "h/l switch panel   j/k scroll   Esc/Enter back   ? help";

pub open spec fn picker_heading(dir: Seq<char>, sessions: nat) -> Seq<char> {
    " Codex Trace — "@ + dir + " ("@ + decimal::digits(sessions) + " sessions) "@
}

/// The title of the picker.
pub fn picker_title(dir: &str, sessions: usize) -> (r: String)
    ensures
        r@ == picker_heading(dir@, sessions as nat),
{
    let head = text::cat3(" Codex Trace — ", dir, " (");
    text::cat3(head.as_str(), decimal::decimal(sessions as u64).as_str(), " sessions) ")
}

/// The last line of the picker: the query while it is typed, else the keys.
pub fn picker_footer(app: &App) -> (r: String)
    ensures
        r@ == if app.search_mode {
            "search: "@ + app.search_query@ + "_"@
        } else {
            PICKER_KEYS@
        },
{
    if app.search_mode {
        text::cat3("search: ", app.search_query.as_str(), "_")
    } else {
        PICKER_KEYS.to_owned()
    }
}

/// The title of a session: the one it was given, the name of its thread, its directory or its
/// identifier.
pub open spec fn session_title(s: InfoView) -> Seq<char> {
    if s.ai_title is Some {
        s.ai_title->0
    } else if s.thread_name is Some {
        s.thread_name->0
    } else if s.cwd is Some {
        s.cwd->0
    } else {
        s.id
    }
}

/// The line of a session in the picker.
pub open spec fn session_line(s: InfoView) -> Seq<SpanView> {
    let status_style = if s.is_ongoing {
        styled::in_color(Color::Green)
    } else if s.is_archived {
        styled::in_color(Color::DarkGray)
    } else {
        styled::no_style()
    };
    let base = seq![
        styled::styled(
            if s.is_ongoing {
                "●"@
            } else {
                " "@
            },
            status_style,
        ),
        styled::raw(
            if s.is_inline_worker {
                "  ↳ "@
            } else {
                "    "@
            },
        ),
        styled::styled(
            show::shortened(show::on_one_line(session_title(s)), TITLE_WIDTH as int),
            styled::in_bold(),
        ),
        styled::raw("  "@),
        styled::styled(show::or_unknown(s.model), styled::in_color(Color::Cyan)),
        SpanView {
            content: seq![
                PieceView::Text("   "@ + decimal::digits(s.turn_count as nat) + " turns   "@),
            ] + show::count_or_unknown(s.total_tokens) + seq![
                PieceView::Text(" tok   "@ + show::readable_time(Some(s.start_time))),
            ],
            style: styled::no_style(),
        },
    ];
    match s.worker_role {
        Some(role) => base.push(
            styled::styled("  ["@ + role + "]"@, styled::in_color(Color::Magenta)),
        ),
        None => base,
    }
}

fn title_of(s: &CodexSessionInfo) -> (r: &String)
    ensures
        r@ == session_title(s.deep_view()),
{
    if let Some(t) = &s.ai_title {
        return t;
    }
    if let Some(t) = &s.thread_name {
        return t;
    }
    if let Some(t) = &s.cwd {
        return t;
    }
    &s.id
}

/// The line of a session in the picker.
pub fn session_list_item(s: &CodexSessionInfo) -> (r: Line)
    ensures
        r.deep_view() == session_line(s.deep_view()),
{
    let status_style = if s.is_ongoing {
        Style::colored(Color::Green)
    } else if s.is_archived {
        Style::colored(Color::DarkGray)
    } else {
        Style::plain()
    };
    let status = if s.is_ongoing {
        "●"
    } else {
        " "
    };
    let prefix = if s.is_inline_worker {
        "  ↳ "
    } else {
        "    "
    };
    let title = show::preview(title_of(s).as_str(), TITLE_WIDTH);
    let model = show::text_or_unknown(&s.model);
    let time = show::fmt_iso(&Some(s.start_time.clone()));
    let mut facts: Vec<Piece> = Vec::new();
    push_text(
        &mut facts,
        text::cat3("   ", decimal::decimal(s.turn_count as u64).as_str(), " turns   ").as_str(),
    );
    append_pieces(&mut facts, show::format_optional_count(s.total_tokens));
    push_text(&mut facts, text::cat(" tok   ", time.as_str()).as_str());
    let mut spans: Vec<Span> = Vec::new();
    push_span(&mut spans, Span::styled(status.to_owned(), status_style));
    push_span(&mut spans, Span::raw(prefix.to_owned()));
    push_span(&mut spans, Span::styled(title, Style::bold()));
    push_span(&mut spans, Span::raw("  ".to_owned()));
    push_span(&mut spans, Span::styled(model, Style::colored(Color::Cyan)));
    let facts_span = Span { content: facts, style: Style::plain() };
    let ghost fv = facts_span.deep_view();
    proof {
        let v = s.deep_view();
        assert(fv.content =~= seq![
            PieceView::Text("   "@ + decimal::digits(v.turn_count as nat) + " turns   "@),
        ] + show::count_or_unknown(v.total_tokens) + seq![
            PieceView::Text(" tok   "@ + show::readable_time(Some(v.start_time))),
        ]);
    }
    push_span(&mut spans, facts_span);
    if let Some(role) = &s.worker_role {
        push_span(
            &mut spans,
            Span::styled(text::cat3("  [", role.as_str(), "]"), Style::colored(Color::Magenta)),
        );
    }
    assert(spans.deep_view() =~= session_line(s.deep_view()));
    Line { spans }
}

/// The line of a row of the picker.
pub open spec fn picker_line(app: AppView, row: PickerRowView) -> Seq<SpanView> {
    match row {
        PickerRowView::DateHeader(group) => seq![
            styled::styled(
                (if app.collapsed_groups.contains(group) {
                    "▶"@
                } else {
                    "▼"@
                }) + " "@ + group,
                styled::in_bold_color(Color::Yellow),
            ),
        ],
        PickerRowView::Session(i) => session_line(app.sessions[i as int]),
    }
}

/// The line of a row of the picker.
pub fn picker_row_item(app: &App, row: &PickerRow) -> (r: Line)
    requires
        row.deep_view() matches PickerRowView::Session(i) ==> i < app.sessions@.len(),
    ensures
        r.deep_view() == picker_line(app.deep_view(), row.deep_view()),
{
    match row {
        PickerRow::DateHeader(group) => {
            let arrow = if app.collapsed_groups.contains_key(group.as_str()) {
                "▶"
            } else {
                "▼"
            };
            Line::single(
                Span::styled(
                    text::cat3(arrow, " ", group.as_str()),
                    Style::bold_colored(Color::Yellow),
                ),
            )
        },
        PickerRow::Session(i) => {
            assert(app.deep_view().sessions[*i as int] == app.sessions@[*i as int].deep_view());
            session_list_item(&app.sessions[*i])
        },
    }
}

/// Whether every session row of the picker points to a session.
pub open spec fn picker_in_range(app: AppView) -> bool {
    forall|k: int|
        0 <= k < app.filtered_rows.len() ==> ((
        #[trigger] app.filtered_rows[k]) matches PickerRowView::Session(i) ==> i
            < app.sessions.len())
}

/// Whether every session row of the picker points to a session.
pub fn picker_rows_in_range(app: &App) -> (r: bool)
    ensures
        r == picker_in_range(app.deep_view()),
{
    let ghost rows = app.deep_view().filtered_rows;
    let n = app.sessions.len();
    let mut k: usize = 0;
    while k < app.filtered_rows.len()
        invariant
            k <= app.filtered_rows@.len(),
            rows == app.deep_view().filtered_rows,
            n == app.sessions@.len(),
            forall|j: int|
                0 <= j < k ==> ((#[trigger] rows[j]) matches PickerRowView::Session(i) ==> i < n),
        decreases app.filtered_rows@.len() - k,
    {
        assert(rows[k as int] == app.filtered_rows@[k as int].deep_view());
        if let PickerRow::Session(i) = &app.filtered_rows[k] {
            if *i >= n {
                return false;
            }
        }
        k += 1;
    }
    true
}

/// The lines of the picker.
pub fn picker_items(app: &App) -> (r: Vec<Line>)
    requires
        picker_in_range(app.deep_view()),
    ensures
        r.deep_view() == Seq::new(
            app.deep_view().filtered_rows.len(),
            |k: int| picker_line(app.deep_view(), app.deep_view().filtered_rows[k]),
        ),
{
    let ghost rows = app.deep_view().filtered_rows;
    let ghost all = Seq::new(rows.len(), |k: int| picker_line(app.deep_view(), rows[k]));
    let mut lines: Vec<Line> = Vec::new();
    let mut k: usize = 0;
    assert(lines.deep_view() =~= all.take(0));
    while k < app.filtered_rows.len()
        invariant
            k <= app.filtered_rows@.len(),
            rows == app.deep_view().filtered_rows,
            picker_in_range(app.deep_view()),
            all == Seq::new(rows.len(), |k: int| picker_line(app.deep_view(), rows[k])),
            lines.deep_view() == all.take(k as int),
        decreases app.filtered_rows@.len() - k,
    {
        assert(rows[k as int] == app.filtered_rows@[k as int].deep_view());
        push_line(&mut lines, picker_row_item(app, &app.filtered_rows[k]));
        assert(all.take(k + 1) =~= all.take(k as int).push(all[k as int]));
        k += 1;
    }
    assert(all.take(k as int) =~= all);
    lines
}

/// The title of an open session's list.
pub open spec fn list_heading(session: CodexSession, depth: nat) -> Seq<char> {
    let breadcrumb = if depth > 1 {
        "  (worker depth "@ + decimal::digits(depth) + ")"@
    } else {
        seq![]
    };
    let live = if session.is_ongoing {
        "  ● LIVE"@
    } else {
        seq![]
    };
    let cwd = match session.cwd {
        Some(cwd) => cwd@,
        None => seq![],
    };
    " "@ + session.id@ + breadcrumb + live + "   "@ + decimal::digits(session.turns@.len())
        + " turns   "@ + cwd + " "@
}

/// The title of an open session's list.
pub fn detail_title(session: &CodexSession, depth: usize) -> (r: String)
    ensures
        r@ == list_heading(*session, depth as nat),
{
    let breadcrumb = if depth > 1 {
        text::cat3("  (worker depth ", decimal::decimal(depth as u64).as_str(), ")")
    } else {
        String::new()
    };
    let live = if session.is_ongoing {
        "  ● LIVE".to_owned()
    } else {
        String::new()
    };
    assert(!session.is_ongoing ==> live@ =~= seq![]);
    assert(depth <= 1 ==> breadcrumb@ =~= seq![]);
    let head = text::cat3(" ", session.id.as_str(), breadcrumb.as_str());
    let head = text::cat3(head.as_str(), live.as_str(), "   ");
    let head = text::cat3(
        head.as_str(),
        decimal::decimal(session.turns.len() as u64).as_str(),
        " turns   ",
    );
    match &session.cwd {
        Some(cwd) => text::cat3(head.as_str(), cwd.as_str(), " "),
        None => {
            assert(head@ + seq![] =~= head@);
            text::cat(head.as_str(), " ")
        },
    }
}

/// The separator of the fields of the info bar.
pub open spec fn separator() -> SpanView {
    styled::styled(" · "@, styled::in_color(Color::DarkGray))
}

/// The info bar with one more field.
pub open spec fn with_field(spans: Seq<SpanView>, field: SpanView) -> Seq<SpanView> {
    if spans.len() == 0 {
        seq![field]
    } else {
        spans.push(separator()).push(field)
    }
}

fn push_field(spans: &mut Vec<Span>, field: Span)
    ensures
        final(spans).deep_view() == with_field(old(spans).deep_view(), field.deep_view()),
{
    let ghost before = spans.deep_view();
    let ghost fv = field.deep_view();
    if spans.len() > 0 {
        push_span(spans, Span::styled(" · ".to_owned(), Style::colored(Color::DarkGray)));
    }
    push_span(spans, field);
    assert(spans.deep_view() =~= with_field(before, fv));
}

/// The model of the last turn that states one.
pub open spec fn last_model(turns: Seq<CodexTurn>) -> Option<Seq<char>>
    decreases turns.len(),
{
    if turns.len() == 0 {
        None
    } else {
        match turns.last().model {
            Some(m) => Some(m@),
            None => last_model(turns.drop_last()),
        }
    }
}

/// The model of the last turn that states one.
pub fn last_turn_model(session: &CodexSession) -> (r: Option<String>)
    ensures
        r.deep_view() == last_model(session.turns@),
{
    let ghost turns = session.turns@;
    let mut i: usize = session.turns.len();
    assert(turns.take(i as int) =~= turns);
    while i > 0
        invariant
            i <= session.turns@.len(),
            turns == session.turns@,
            last_model(turns) == last_model(turns.take(i as int)),
        decreases i,
    {
        assert(turns.take(i as int).drop_last() =~= turns.take(i - 1));
        if let Some(m) = &session.turns[i - 1].model {
            return Some(m.clone());
        }
        i -= 1;
    }
    None
}

/// The use of the context window in a turn, where it was reported.
pub open spec fn turn_usage(turn: CodexTurn) -> Option<(u64, u64)> {
    match turn.total_tokens {
        Some(info) => if info.context_window_tokens is Some && info.model_context_window != 0 {
            Some((info.context_window_tokens->0, info.model_context_window))
        } else {
            None
        },
        None => None,
    }
}

/// The use of the context window in the last turn that reported one.
pub open spec fn last_usage(turns: Seq<CodexTurn>) -> Option<(u64, u64)>
    decreases turns.len(),
{
    if turns.len() == 0 {
        None
    } else {
        match turn_usage(turns.last()) {
            Some(usage) => Some(usage),
            None => last_usage(turns.drop_last()),
        }
    }
}

/// Context-window usage from the most recent turn that reported one: the tokens in the window
/// and its size.
pub fn last_context_usage(session: &CodexSession) -> (r: Option<(u64, u64)>)
    ensures
        r == last_usage(session.turns@),
        r matches Some((_, window)) ==> window != 0,
{
    let ghost turns = session.turns@;
    let mut i: usize = session.turns.len();
    assert(turns.take(i as int) =~= turns);
    while i > 0
        invariant
            i <= session.turns@.len(),
            turns == session.turns@,
            last_usage(turns) == last_usage(turns.take(i as int)),
        decreases i,
    {
        assert(turns.take(i as int).drop_last() =~= turns.take(i - 1));
        if let Some(info) = &session.turns[i - 1].total_tokens {
            if let Some(used) = info.context_window_tokens {
                if info.model_context_window != 0 {
                    return Some((used, info.model_context_window));
                }
            }
        }
        i -= 1;
    }
    None
}

/// The colour of a use of the context window, in percent.
pub open spec fn usage_color(percent: int) -> Color {
    if percent < 50 {
        Color::Green
    } else if percent <= 80 {
        Color::Yellow
    } else {
        Color::Red
    }
}

/// The colour of a use of the context window, in percent.
pub fn context_color(pct: u8) -> (r: Color)
    ensures
        r == usage_color(pct as int),
{
    if pct < 50 {
        Color::Green
    } else if pct <= 80 {
        Color::Yellow
    } else {
        Color::Red
    }
}

/// The text of a use of the context window.
pub open spec fn usage_text(used: u64, window: u64) -> Seq<PieceView> {
    show::count(used) + seq![PieceView::Text("/"@)] + show::count(window) + seq![
        PieceView::Text(" tok"@),
    ]
}

/// The fields of the info bar.
pub open spec fn info_fields(session: CodexSession, percent: u8) -> Seq<SpanView> {
    let none: Seq<SpanView> = seq![];
    let branch = match session.git {
        Some(git) => match git.branch {
            Some(b) => with_field(
                none,
                styled::styled("* "@ + b@, styled::in_color(Color::Magenta)),
            ),
            None => none,
        },
        None => none,
    };
    let model = match last_model(session.turns@) {
        Some(m) => with_field(branch, styled::styled(m, styled::in_color(Color::Cyan))),
        None => branch,
    };
    match last_usage(session.turns@) {
        Some((used, window)) => with_field(
            with_field(
                model,
                styled::styled(
                    "ctx "@ + decimal::digits(percent as nat) + "%"@,
                    styled::in_color(usage_color(percent as int)),
                ),
            ),
            SpanView {
                content: usage_text(used, window),
                style: styled::in_color(Color::DarkGray),
            },
        ),
        None => model,
    }
}

/// The info bar: its fields, or that there are none.
pub open spec fn info_bar(session: CodexSession, percent: u8) -> Seq<SpanView> {
    let fields = info_fields(session, percent);
    if fields.len() == 0 {
        seq![styled::styled("(no session metadata)"@, styled::in_color(Color::DarkGray))]
    } else {
        fields
    }
}

/// Persistent status line shown under the panel title on every detail screen: git branch, model,
/// context-window usage (colour-coded) and token count. `percent` is the use of the context
/// window that [`last_context_usage`] reports; where it reports none, it is not shown.
pub fn info_bar_line(session: &CodexSession, percent: u8) -> (r: Line)
    ensures
        r.deep_view() == info_bar(*session, percent),
{
    let mut spans: Vec<Span> = Vec::new();
    assert(spans.deep_view() =~= seq![]);
    if let Some(git) = &session.git {
        if let Some(branch) = &git.branch {
            push_field(
                &mut spans,
                Span::styled(text::cat("* ", branch.as_str()), Style::colored(Color::Magenta)),
            );
        }
    }
    if let Some(model) = last_turn_model(session) {
        push_field(&mut spans, Span::styled(model, Style::colored(Color::Cyan)));
    }
    if let Some((used, window)) = last_context_usage(session) {
        push_field(
            &mut spans,
            Span::styled(
                text::cat3("ctx ", decimal::decimal(percent as u64).as_str(), "%"),
                Style::colored(context_color(percent)),
            ),
        );
        let mut content = show::format_count(used);
        push_text(&mut content, "/");
        append_pieces(&mut content, show::format_count(window));
        push_text(&mut content, " tok");
        assert(content.deep_view() =~= usage_text(used, window));
        push_field(&mut spans, Span { content, style: Style::colored(Color::DarkGray) });
    }
    assert(spans.deep_view() == info_fields(*session, percent));
    if spans.len() == 0 {
        Line::single(
            Span::styled("(no session metadata)".to_owned(), Style::colored(Color::DarkGray)),
        )
    } else {
        Line { spans }
    }
}

/// The name of a turn's status.
pub open spec fn status_name(status: TurnStatus) -> Seq<char> {
    match status {
        TurnStatus::Complete => "Complete"@,
        TurnStatus::Ongoing => "Ongoing"@,
        TurnStatus::Error => "Error"@,
        TurnStatus::Aborted => "Aborted"@,
        TurnStatus::Cancelled => "Cancelled"@,
    }
}

/// The name of a turn's status.
pub fn turn_status_name(status: TurnStatus) -> (r: &'static str)
    ensures
        r@ == status_name(status),
{
    match status {
        TurnStatus::Complete => "Complete",
        TurnStatus::Ongoing => "Ongoing",
        TurnStatus::Error => "Error",
        TurnStatus::Aborted => "Aborted",
        TurnStatus::Cancelled => "Cancelled",
    }
}

/// The colour of a turn's status.
pub open spec fn status_color(status: TurnStatus) -> Color {
    match status {
        TurnStatus::Complete => Color::Green,
        TurnStatus::Ongoing => Color::Cyan,
        TurnStatus::Error | TurnStatus::Aborted => Color::Red,
        TurnStatus::Cancelled => Color::DarkGray,
    }
}

/// The colour of a turn's status.
pub fn turn_status_color(status: TurnStatus) -> (r: Color)
    ensures
        r == status_color(status),
{
    match status {
        TurnStatus::Complete => Color::Green,
        TurnStatus::Ongoing => Color::Cyan,
        TurnStatus::Error | TurnStatus::Aborted => Color::Red,
        TurnStatus::Cancelled => Color::DarkGray,
    }
}

/// The colour of a tool call's status.
pub open spec fn call_color(status: Seq<char>) -> Color {
    if status == "success"@ || status == "completed"@ || status == "ok"@ {
        Color::Green
    } else if status == "error"@ || status == "failed"@ {
        Color::Red
    } else if status == "running"@ || status == "pending"@ {
        Color::Yellow
    } else {
        Color::Gray
    }
}

fn is_one_of(s: &String, a: &str, b: &str) -> (r: bool)
    ensures
        r == (s@ == a@ || s@ == b@),
{
    *s == a.to_owned() || *s == b.to_owned()
}

/// The colour of a tool call's status.
pub fn tool_status_color(status: &String) -> (r: Color)
    ensures
        r == call_color(status@),
{
    if is_one_of(status, "success", "completed") || is_one_of(status, "ok", "ok") {
        Color::Green
    } else if is_one_of(status, "error", "failed") {
        Color::Red
    } else if is_one_of(status, "running", "pending") {
        Color::Yellow
    } else {
        Color::Gray
    }
}

/// The name of a kind of tool call.
pub open spec fn kind_name(kind: ToolKind) -> Seq<char> {
    match kind {
        ToolKind::PatchApply => "PatchApply"@,
        ToolKind::SpawnAgent => "SpawnAgent"@,
        ToolKind::Other(name) => name@,
    }
}

/// The name of a kind of tool call.
pub fn tool_kind_name(kind: &ToolKind) -> (r: &str)
    ensures
        r@ == kind_name(*kind),
{
    match kind {
        ToolKind::PatchApply => "PatchApply",
        ToolKind::SpawnAgent => "SpawnAgent",
        ToolKind::Other(name) => name.as_str(),
    }
}

/// The tokens of a turn.
pub open spec fn turn_tokens(turn: CodexTurn) -> Option<u64> {
    match turn.total_tokens {
        Some(info) => Some(info.total_tokens),
        None => None,
    }
}

/// The line of a turn's header.
pub open spec fn turn_line(turn: CodexTurn, t: usize) -> Seq<SpanView> {
    seq![
        styled::styled(
            "▶ Turn "@ + decimal::digits((t + 1) as nat) + " "@,
            styled::in_bold_color(Color::Yellow),
        ),
        styled::styled(status_name(turn.status), styled::in_color(status_color(turn.status))),
        SpanView {
            content: seq![
                PieceView::Text("   "@ + show::or_unknown(turn.model.deep_view()) + "   "@),
            ] + show::duration(turn.duration_ms) + seq![PieceView::Text("   "@)]
                + show::count_or_unknown(turn_tokens(turn)) + seq![PieceView::Text(" tok"@)],
            style: styled::no_style(),
        },
    ]
}

/// The line of a turn's header.
pub fn turn_header_item(turn: &CodexTurn, t: usize) -> (r: Line)
    requires
        t < usize::MAX,
    ensures
        r.deep_view() == turn_line(*turn, t),
{
    let tokens = match &turn.total_tokens {
        Some(info) => Some(info.total_tokens),
        None => None,
    };
    let model = show::text_or_unknown(&turn.model);
    let mut facts: Vec<Piece> = Vec::new();
    push_text(&mut facts, text::cat3("   ", model.as_str(), "   ").as_str());
    append_pieces(&mut facts, show::fmt_duration_ms(turn.duration_ms));
    push_text(&mut facts, "   ");
    append_pieces(&mut facts, show::format_optional_count(tokens));
    push_text(&mut facts, " tok");
    assert(facts.deep_view() =~= turn_line(*turn, t)[2].content);
    let mut spans: Vec<Span> = Vec::new();
    push_span(
        &mut spans,
        Span::styled(
            text::cat3("▶ Turn ", decimal::decimal((t + 1) as u64).as_str(), " "),
            Style::bold_colored(Color::Yellow),
        ),
    );
    push_span(
        &mut spans,
        Span::styled(
            turn_status_name(turn.status).to_owned(),
            Style::colored(turn_status_color(turn.status)),
        ),
    );
    push_span(&mut spans, Span { content: facts, style: Style::plain() });
    assert(spans.deep_view() =~= turn_line(*turn, t));
    Line { spans }
}

pub open spec fn or_empty(s: Option<Seq<char>>) -> Seq<char> {
    match s {
        Some(s) => s,
        None => seq![],
    }
}

/// An optional text, or the empty one.
pub fn text_or_empty(s: &Option<String>) -> (r: String)
    ensures
        r@ == or_empty(s.deep_view()),
{
    match s {
        Some(s) => s.clone(),
        None => {
            let r = String::new();
            assert(r@ =~= seq![]);
            r
        },
    }
}

/// The line of a user's message.
pub open spec fn user_line(turn: CodexTurn) -> Seq<SpanView> {
    seq![
        styled::styled("   user  "@, styled::in_bold_color(Color::White)),
        styled::raw(
            show::shortened(
                show::on_one_line(or_empty(turn.user_message.deep_view())),
                MESSAGE_WIDTH as int,
            ),
        ),
    ]
}

/// The line of a user's message.
pub fn user_message_item(turn: &CodexTurn) -> (r: Line)
    ensures
        r.deep_view() == user_line(*turn),
{
    let message = text_or_empty(&turn.user_message);
    let mut spans: Vec<Span> = Vec::new();
    push_span(
        &mut spans,
        Span::styled("   user  ".to_owned(), Style::bold_colored(Color::White)),
    );
    push_span(&mut spans, Span::raw(show::preview(message.as_str(), MESSAGE_WIDTH)));
    assert(spans.deep_view() =~= user_line(*turn));
    Line { spans }
}

/// The line of an agent's message.
pub open spec fn agent_line(message: Seq<char>, is_reasoning: bool) -> Seq<SpanView> {
    seq![
        if is_reasoning {
            styled::styled("   reason "@, styled::in_color(Color::DarkGray))
        } else {
            styled::styled("   agent  "@, styled::in_color(Color::White))
        },
        styled::raw(show::shortened(show::on_one_line(message), MESSAGE_WIDTH as int)),
    ]
}

/// The line of an agent's message.
pub fn agent_item(message: &str, is_reasoning: bool) -> (r: Line)
    ensures
        r.deep_view() == agent_line(message@, is_reasoning),
{
    let mut spans: Vec<Span> = Vec::new();
    if is_reasoning {
        push_span(
            &mut spans,
            Span::styled("   reason ".to_owned(), Style::colored(Color::DarkGray)),
        );
    } else {
        push_span(
            &mut spans,
            Span::styled("   agent  ".to_owned(), Style::colored(Color::White)),
        );
    }
    push_span(&mut spans, Span::raw(show::preview(message, MESSAGE_WIDTH)));
    assert(spans.deep_view() =~= agent_line(message@, is_reasoning));
    Line { spans }
}

/// What is known of a spawned agent's session, and how to open it.
pub open spec fn worker_text(
    before: Seq<char>,
    worker: CodexSession,
    after: Seq<char>,
) -> Seq<char> {
    before + worker.id@ + " ("@ + decimal::digits(worker.turns@.len()) + after
}

/// What is known of a spawned agent's session, and how to open it.
pub fn describe_worker(before: &str, worker: &CodexSession, after: &str) -> (r: String)
    ensures
        r@ == worker_text(before@, *worker, after@),
{
    let head = text::cat3(before, worker.id.as_str(), " (");
    text::cat3(head.as_str(), decimal::decimal(worker.turns.len() as u64).as_str(), after)
}

/// The input of a tool call in its preview.
pub open spec fn preview_input(tool: ToolCall) -> Seq<Seq<char>> {
    match tool.input_text {
        Some(s) => seq![
            "in:   "@ + show::shortened(show::on_one_line(s@), TOOL_WIDTH as int),
        ],
        None => match show::pretty(tool.arguments.deep_view()) {
            Some(p) => seq![
                "args: "@ + show::shortened(show::on_one_line(p), TOOL_WIDTH as int),
            ],
            None => seq![],
        },
    }
}

/// The facts of a tool call in its preview.
pub open spec fn preview_facts(tool: ToolCall) -> Seq<Seq<char>> {
    let command = match tool.command {
        Some(cmd) => seq!["$ "@ + text::joined(cmd.deep_view(), " "@)],
        None => seq![],
    };
    let output = match tool.output {
        Some(s) => seq![
            "out:  "@ + show::shortened(show::on_one_line(s@), TOOL_WIDTH as int),
        ],
        None => seq![],
    };
    let worker = match tool.worker_session {
        Some(w) => seq![worker_text("worker session "@, *w, " turns) — press Enter to open"@)],
        None => seq![],
    };
    command + preview_input(tool) + output + worker
}

/// The preview of a tool call.
pub open spec fn tool_preview(tool: ToolCall) -> Seq<Seq<char>> {
    let facts = preview_facts(tool);
    if facts.len() == 0 {
        seq!["(no preview — press Enter for full detail)"@]
    } else {
        facts.push("press Enter for full detail"@)
    }
}

pub fn push_string(out: &mut Vec<String>, s: String)
    ensures
        final(out).deep_view() == old(out).deep_view().push(s@),
{
    let ghost before = out.deep_view();
    let ghost sv = s@;
    out.push(s);
    assert(out.deep_view() =~= before.push(sv));
}

/// The preview of a tool call.
pub fn tool_preview_lines(tool: &ToolCall) -> (r: Vec<String>)
    ensures
        r.deep_view() == tool_preview(*tool),
{
    let mut out: Vec<String> = Vec::new();
    assert(out.deep_view() =~= seq![]);
    if let Some(cmd) = &tool.command {
        push_string(&mut out, text::cat("$ ", text::join(cmd, " ").as_str()));
    }
    let ghost command = out.deep_view();
    if let Some(s) = &tool.input_text {
        push_string(
            &mut out,
            text::cat("in:   ", show::preview(s.as_str(), TOOL_WIDTH).as_str()),
        );
    } else if let Some(pretty) = show::pretty_json(&tool.arguments) {
        push_string(
            &mut out,
            text::cat("args: ", show::preview(pretty.as_str(), TOOL_WIDTH).as_str()),
        );
    }
    assert(out.deep_view() =~= command + preview_input(*tool));
    if let Some(output) = &tool.output {
        push_string(
            &mut out,
            text::cat("out:  ", show::preview(output.as_str(), TOOL_WIDTH).as_str()),
        );
    }
    if let Some(worker) = &tool.worker_session {
        push_string(
            &mut out,
            describe_worker("worker session ", worker, " turns) — press Enter to open"),
        );
    }
    assert(out.deep_view() =~= preview_facts(*tool));
    if out.len() == 0 {
        push_string(&mut out, "(no preview — press Enter for full detail)".to_owned());
        assert(out.deep_view() =~= tool_preview(*tool));
    } else {
        push_string(&mut out, "press Enter for full detail".to_owned());
    }
    out
}

/// The duration of a tool call in the list.
pub open spec fn call_duration(tool: ToolCall) -> Seq<PieceView> {
    match tool.duration_secs {
        Some(secs) => seq![
            PieceView::Text("   "@),
            PieceView::Duration { secs, decimals: 1 },
            PieceView::Text("s"@),
        ],
        None => styled::chars(seq![]),
    }
}

/// The first line of a tool call in the list.
pub open spec fn tool_line(tool: ToolCall, expanded: bool) -> Seq<SpanView> {
    seq![
        styled::raw(
            "   "@ + (if expanded {
                "▾"@
            } else {
                "▸"@
            }) + " "@,
        ),
        styled::styled(kind_name(tool.kind) + " "@, styled::in_color(Color::Cyan)),
        styled::styled(tool.name@, styled::in_bold()),
        styled::raw("   "@),
        styled::styled(tool.status@, styled::in_color(call_color(tool.status@))),
        SpanView { content: call_duration(tool), style: styled::no_style() },
    ]
}

/// A preview, indented.
pub open spec fn indented(preview: Seq<Seq<char>>) -> Seq<Seq<SpanView>> {
    Seq::new(preview.len(), |i: int| styled::raw_line("       "@ + preview[i]))
}

/// The lines of a tool call in the list: with its preview where it is expanded.
pub open spec fn tool_lines(tool: ToolCall, expanded: bool) -> Seq<Seq<SpanView>> {
    let first = seq![tool_line(tool, expanded)];
    if expanded {
        first + indented(tool_preview(tool))
    } else {
        first
    }
}

/// The lines of a tool call in the list.
pub fn tool_item(tool: &ToolCall, expanded: bool) -> (r: Vec<Line>)
    ensures
        r.deep_view() == tool_lines(*tool, expanded),
{
    let arrow = if expanded {
        "▾"
    } else {
        "▸"
    };
    let mut spans: Vec<Span> = Vec::new();
    push_span(&mut spans, Span::raw(text::cat3("   ", arrow, " ")));
    push_span(
        &mut spans,
        Span::styled(text::cat(tool_kind_name(&tool.kind), " "), Style::colored(Color::Cyan)),
    );
    push_span(&mut spans, Span::styled(tool.name.clone(), Style::bold()));
    push_span(&mut spans, Span::raw("   ".to_owned()));
    push_span(
        &mut spans,
        Span::styled(tool.status.clone(), Style::colored(tool_status_color(&tool.status))),
    );
    let mut content: Vec<Piece> = Vec::new();
    match tool.duration_secs {
        Some(secs) => {
            push_text(&mut content, "   ");
            push_piece(&mut content, Piece::Duration { secs, decimals: 1 });
            push_text(&mut content, "s");
        },
        None => {
            let empty = String::new();
            assert(empty@ =~= seq![]);
            push_text(&mut content, empty.as_str());
        },
    }
    assert(content.deep_view() =~= call_duration(*tool));
    push_span(&mut spans, Span { content, style: Style::plain() });
    let first = Line { spans };
    assert(first.deep_view() =~= tool_line(*tool, expanded));
    let mut lines: Vec<Line> = Vec::new();
    push_line(&mut lines, first);
    assert(lines.deep_view() =~= seq![tool_line(*tool, expanded)]);
    if expanded {
        let preview = tool_preview_lines(tool);
        let ghost all = preview.deep_view();
        let ghost before = lines.deep_view();
        let mut i: usize = 0;
        assert(before + indented(all).take(0) =~= before);
        while i < preview.len()
            invariant
                i <= preview@.len(),
                all == preview.deep_view(),
                lines.deep_view() == before + indented(all).take(i as int),
            decreases preview@.len() - i,
        {
            push_line(&mut lines, Line::raw(text::cat("       ", preview[i].as_str())));
            assert(indented(all).take(i + 1) =~= indented(all).take(i as int).push(
                styled::raw_line("       "@ + all[i as int]),
            ));
            assert(lines.deep_view() =~= before + indented(all).take(i + 1));
            i += 1;
        }
        assert(indented(all).take(i as int) =~= indented(all));
    }
    lines
}

/// Whether a row points to something that can be shown.
pub open spec fn row_in_range(turns: Seq<CodexTurn>, row: Row) -> bool {
    match row {
        Row::TurnHeader(t) => t < turns.len(),
        Row::UserMessage(t) => t < turns.len(),
        Row::Agent(t, m) => t < turns.len() && m < turns[t as int].agent_messages@.len(),
        Row::Tool(t, c) => t < turns.len() && c < turns[t as int].tool_calls@.len(),
    }
}

/// Whether a row points to something that can be shown.
pub fn can_show(session: &CodexSession, row: Row) -> (r: bool)
    ensures
        r == row_in_range(session.turns@, row),
{
    let n = session.turns.len();
    match row {
        Row::TurnHeader(t) => t < n,
        Row::UserMessage(t) => t < n,
        Row::Agent(t, m) => t < n && m < session.turns[t].agent_messages.len(),
        Row::Tool(t, c) => t < n && c < session.turns[t].tool_calls.len(),
    }
}

/// The lines of a row of an open session's list.
pub open spec fn row_lines(turns: Seq<CodexTurn>, row: Row, expanded: bool) -> Seq<Seq<SpanView>> {
    match row {
        Row::TurnHeader(t) => seq![turn_line(turns[t as int], t)],
        Row::UserMessage(t) => seq![user_line(turns[t as int])],
        Row::Agent(t, m) => {
            let message = turns[t as int].agent_messages@[m as int];
            seq![agent_line(message.text@, message.is_reasoning)]
        },
        Row::Tool(t, c) => tool_lines(turns[t as int].tool_calls@[c as int], expanded),
    }
}

fn single_item(line: Line) -> (r: Vec<Line>)
    ensures
        r.deep_view() == seq![line.deep_view()],
{
    let ghost lv = line.deep_view();
    let mut lines: Vec<Line> = Vec::new();
    push_line(&mut lines, line);
    assert(lines.deep_view() =~= seq![lv]);
    lines
}

/// The lines of a row of an open session's list.
pub fn detail_row_item(session: &CodexSession, row: Row, expanded: bool) -> (r: Vec<Line>)
    requires
        row_in_range(session.turns@, row),
    ensures
        r.deep_view() == row_lines(session.turns@, row, expanded),
{
    let n = session.turns.len();
    match row {
        Row::TurnHeader(t) => single_item(turn_header_item(&session.turns[t], t)),
        Row::UserMessage(t) => single_item(user_message_item(&session.turns[t])),
        Row::Agent(t, m) => {
            let message = &session.turns[t].agent_messages[m];
            single_item(agent_item(message.text.as_str(), message.is_reasoning))
        },
        Row::Tool(t, c) => tool_item(&session.turns[t].tool_calls[c], expanded),
    }
}

/// Whether a row is a tool call that is expanded.
pub open spec fn is_expanded(expanded: Set<(usize, usize)>, row: Row) -> bool {
    match row {
        Row::Tool(t, c) => expanded.contains((t, c)),
        _ => false,
    }
}

fn detail_item(open: &OpenSession, index: usize) -> (r: Vec<Line>)
    requires
        index < open.rows@.len(),
        row_in_range(open.session.turns@, open.rows@[index as int]),
    ensures
        r.deep_view() == row_lines(
            open.session.turns@,
            open.rows@[index as int],
            is_expanded(open.expanded@, open.rows@[index as int]),
        ),
{
    let row = open.rows[index];
    let expanded = match row {
        Row::Tool(t, c) => open.expanded.contains(&(t, c)),
        _ => false,
    };
    detail_row_item(&open.session, row, expanded)
}

/// Whether every row of an open session's list points to something that can be shown.
pub open spec fn rows_in_range(turns: Seq<CodexTurn>, rows: Seq<Row>) -> bool {
    forall|k: int| 0 <= k < rows.len() ==> row_in_range(turns, #[trigger] rows[k])
}

/// Whether every row of an open session's list points to something that can be shown.
pub fn detail_rows_in_range(open: &OpenSession) -> (r: bool)
    ensures
        r == rows_in_range(open.session.turns@, open.rows@),
{
    let mut k: usize = 0;
    while k < open.rows.len()
        invariant
            k <= open.rows@.len(),
            forall|j: int|
                0 <= j < k ==> row_in_range(open.session.turns@, #[trigger] open.rows@[j]),
        decreases open.rows@.len() - k,
    {
        if !can_show(&open.session, open.rows[k]) {
            assert(!row_in_range(open.session.turns@, open.rows@[k as int]));
            return false;
        }
        k += 1;
    }
    true
}

/// The lines of the rows of an open session's list.
pub open spec fn list_lines(
    turns: Seq<CodexTurn>,
    rows: Seq<Row>,
    expanded: Set<(usize, usize)>,
) -> Seq<Seq<Seq<SpanView>>> {
    Seq::new(rows.len(), |k: int| row_lines(turns, rows[k], is_expanded(expanded, rows[k])))
}

/// The lines of the rows of an open session's list.
pub fn detail_items(open: &OpenSession) -> (r: Vec<Vec<Line>>)
    requires
        rows_in_range(open.session.turns@, open.rows@),
    ensures
        r.deep_view() == list_lines(open.session.turns@, open.rows@, open.expanded@),
{
    let ghost all = list_lines(open.session.turns@, open.rows@, open.expanded@);
    let mut items: Vec<Vec<Line>> = Vec::new();
    let mut k: usize = 0;
    assert(items.deep_view() =~= all.take(0));
    while k < open.rows.len()
        invariant
            k <= open.rows@.len(),
            rows_in_range(open.session.turns@, open.rows@),
            all == list_lines(open.session.turns@, open.rows@, open.expanded@),
            items.deep_view() == all.take(k as int),
        decreases open.rows@.len() - k,
    {
        let ghost before = items.deep_view();
        let item = detail_item(open, k);
        let ghost iv = item.deep_view();
        items.push(item);
        assert(items.deep_view() =~= before.push(iv));
        assert(all.take(k + 1) =~= all.take(k as int).push(all[k as int]));
        k += 1;
    }
    assert(all.take(k as int) =~= all);
    items
}

/// The help of a screen.
pub open spec fn help_text(screen: Screen) -> Seq<Seq<char>> {
    match screen {
        Screen::Picker => seq![
            "Session Picker"@,
            ""@,
            "j / k / ↑ / ↓   move selection"@,
            "Enter / Space   open session, or expand/collapse a date group"@,
            "/               search sessions   (Esc clears, Enter keeps filter)"@,
            "r               rescan the sessions directory"@,
            "?               toggle this help"@,
            "q / Ctrl+C      quit"@,
        ],
        Screen::Detail => seq![
            "Session Detail"@,
            ""@,
            "j / k / ↑ / ↓        move selection (list) or scroll (detail)"@,
            "Tab                  expand/collapse a tool call inline"@,
            "e / c                expand / collapse all tool calls"@,
            "Enter                open full detail, or drill into a spawned agent"@,
            "h / l                switch Request / Response panel in detail view"@,
            "r                    reload the session from disk"@,
            "Esc / q              back to the list, or back to the picker"@,
            "?                    toggle this help"@,
        ],
    }
}

/// The help of a screen.
pub fn help_lines(screen: Screen) -> (r: Vec<String>)
    ensures
        r.deep_view() == help_text(screen),
{
    let mut r: Vec<String> = Vec::new();
    match screen {
        Screen::Picker => {
            push_string(&mut r, "Session Picker".to_owned());
            push_string(&mut r, "".to_owned());
            push_string(&mut r, "j / k / ↑ / ↓   move selection".to_owned());
            push_string(
                &mut r,
                "Enter / Space   open session, or expand/collapse a date group".to_owned(),
            );
            push_string(
                &mut r,
                "/               search sessions   (Esc clears, Enter keeps filter)".to_owned(),
            );
            push_string(&mut r, "r               rescan the sessions directory".to_owned());
            push_string(&mut r, "?               toggle this help".to_owned());
            push_string(&mut r, "q / Ctrl+C      quit".to_owned());
        },
        Screen::Detail => {
            push_string(&mut r, "Session Detail".to_owned());
            push_string(&mut r, "".to_owned());
            push_string(
                &mut r,
                "j / k / ↑ / ↓        move selection (list) or scroll (detail)".to_owned(),
            );
            push_string(
                &mut r,
                "Tab                  expand/collapse a tool call inline".to_owned(),
            );
            push_string(
                &mut r,
                "e / c                expand / collapse all tool calls".to_owned(),
            );
            push_string(
                &mut r,
                "Enter                open full detail, or drill into a spawned agent".to_owned(),
            );
            push_string(
                &mut r,
                "h / l                switch Request / Response panel in detail view".to_owned(),
            );
            push_string(
                &mut r,
                "r                    reload the session from disk".to_owned(),
            );
            push_string(
                &mut r,
                "Esc / q              back to the list, or back to the picker".to_owned(),
            );
            push_string(&mut r, "?                    toggle this help".to_owned());
        },
    }
    assert(r.deep_view() =~= help_text(screen));
    r
}

/// The shares of a screen, in percent, that put a box of a share in its middle.
pub fn centered_shares(percent: u16) -> (r: (u16, u16, u16))
    requires
        percent <= 100,
    ensures
        r == (((100 - percent) / 2) as u16, percent, ((100 - percent) / 2) as u16),
{
    let side: u16 = (100 - percent) / 2;
    (side, percent, side)
}

} // verus!
