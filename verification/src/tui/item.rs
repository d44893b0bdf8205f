//! The full detail of a row.

use vstd::prelude::*;

use crate::decimal;
use crate::json::{Json, JsonView};
use crate::parser::diff;
use crate::parser::diff::{DiffLine, DiffLineKind, LineView, SegmentView};
use crate::parser::patch;
use crate::parser::patch::{
    parse_apply_patch,
    FileView,
    HunkView,
    PatchFile,
    PatchFileOp,
    PatchHunk,
};
use crate::parser::session::CodexSession;
use crate::parser::toolcall::{ToolCall, ToolKind};
use crate::parser::turn::{AgentMessage, CodexTurn, CollabSpawn, CompactionMeta, Memory};
use crate::text;
use crate::tui::open_session::ItemPanel;
use crate::tui::rows::Row;
use crate::tui::show;
use crate::tui::styled;
use crate::tui::styled::{
    append_lines,
    append_pieces,
    lines_of,
    push_line,
    push_piece,
    push_span,
    push_text,
    text_of,
    Color,
    Line,
    Piece,
    PieceView,
    Span,
    SpanView,
    Style,
};
use crate::tui::ui;
use crate::tui::ui::{
    describe_worker,
    push_string,
    text_or_empty,
    tool_kind_name,
    turn_status_name,
};

verus! {

/// The text of a panel.
#[derive(Debug)]
pub enum Body {
    /// Characters, with line breaks among them.
    Plain(Vec<Piece>),
    /// Styled lines.
    Styled(Vec<Line>),
}

/// The contents of a [`Body`].
#[verifier::ext_equal]
pub enum BodyView {
    Plain(Seq<PieceView>),
    Styled(Seq<Seq<SpanView>>),
}

impl DeepView for Body {
    type V = BodyView;

    open spec fn deep_view(&self) -> BodyView {
        match *self {
            Body::Plain(pieces) => BodyView::Plain(pieces.deep_view()),
            Body::Styled(lines) => BodyView::Styled(lines.deep_view()),
        }
    }
}

/// The full detail of a row: one panel or two.
#[derive(Debug)]
pub struct ItemContent {
    pub heading: String,
    pub primary_title: String,
    pub primary: Body,
    pub secondary: Option<(String, Body)>,
}

/// The contents of an [`ItemContent`].
#[verifier::ext_equal]
pub struct ItemView {
    pub heading: Seq<char>,
    pub primary_title: Seq<char>,
    pub primary: BodyView,
    pub secondary: Option<(Seq<char>, BodyView)>,
}

impl DeepView for ItemContent {
    type V = ItemView;

    open spec fn deep_view(&self) -> ItemView {
        ItemView {
            heading: self.heading@,
            primary_title: self.primary_title@,
            primary: self.primary.deep_view(),
            secondary: self.secondary.deep_view(),
        }
    }
}

/// Lines of text behind one another, with line breaks between them.
pub open spec fn broken(lines: Seq<Seq<PieceView>>) -> Seq<PieceView>
    decreases lines.len(),
{
    if lines.len() == 0 {
        seq![]
    } else if lines.len() == 1 {
        lines[0]
    } else {
        broken(lines.drop_last()).push(PieceView::Text("\n"@)) + lines.last()
    }
}

fn push_text_line(lines: &mut Vec<Vec<Piece>>, line: Vec<Piece>)
    ensures
        final(lines).deep_view() == old(lines).deep_view().push(line.deep_view()),
{
    let ghost before = lines.deep_view();
    let ghost lv = line.deep_view();
    lines.push(line);
    assert(lines.deep_view() =~= before.push(lv));
}

fn say(lines: &mut Vec<Vec<Piece>>, s: String)
    ensures
        final(lines).deep_view() == old(lines).deep_view().push(styled::chars(s@)),
{
    push_text_line(lines, text_of(s));
}

fn break_lines(lines: Vec<Vec<Piece>>) -> (r: Vec<Piece>)
    ensures
        r.deep_view() == broken(lines.deep_view()),
{
    let ghost all = lines.deep_view();
    let mut lines = lines;
    let mut r: Vec<Piece> = Vec::new();
    let n = lines.len();
    let mut i: usize = 0;
    assert(all.take(0) =~= seq![]);
    assert(r.deep_view() =~= broken(all.take(0)));
    while i < n
        invariant
            i <= n == lines@.len(),
            all.len() == n,
            forall|k: int| i <= k < n ==> (#[trigger] lines@[k]).deep_view() == all[k],
            r.deep_view() == broken(all.take(i as int)),
        decreases n - i,
    {
        let mut line: Vec<Piece> = Vec::new();
        let ghost rest = lines@;
        assert(rest[i as int].deep_view() == all[i as int]);
        std::mem::swap(&mut line, &mut lines[i]);
        proof {
            assert(all.take(i + 1).drop_last() =~= all.take(i as int));
            assert(all.take(i + 1).last() == all[i as int]);
            assert forall|k: int| i + 1 <= k < n implies (#[trigger] lines@[k]).deep_view()
                == all[k] by {
                assert(lines@[k] == rest[k]);
            }
        }
        let ghost before = r.deep_view();
        if i > 0 {
            push_text(&mut r, "\n");
        } else {
            assert(before + all[0] =~= all[0]);
        }
        append_pieces(&mut r, line);
        i += 1;
    }
    assert(all.take(i as int) =~= all);
    r
}

/// A line of a name and a value.
pub open spec fn fact(name: Seq<char>, value: Seq<char>) -> Seq<PieceView> {
    styled::chars(name + value)
}

/// A line of a name and a value, where there is one.
pub open spec fn optional_fact(name: Seq<char>, value: Option<Seq<char>>) -> Seq<Seq<PieceView>> {
    match value {
        Some(value) => seq![fact(name, value)],
        None => seq![],
    }
}

fn say_optional(lines: &mut Vec<Vec<Piece>>, name: &str, value: &Option<String>)
    ensures
        final(lines).deep_view() == old(lines).deep_view() + optional_fact(
            name@,
            value.deep_view(),
        ),
{
    let ghost before = lines.deep_view();
    if let Some(value) = value {
        say(lines, text::cat(name, value.as_str()));
    }
    assert(lines.deep_view() =~= before + optional_fact(name@, value.deep_view()));
}

/// The first facts of a turn.
pub open spec fn turn_facts(turn: CodexTurn) -> Seq<Seq<PieceView>> {
    seq![
        fact("turn_id: "@, turn.turn_id@),
        fact("status: "@, ui::status_name(turn.status)),
        fact("model: "@, show::or_unknown(turn.model.deep_view())),
        fact("cwd: "@, show::or_unknown(turn.cwd.deep_view())),
        fact("reasoning_effort: "@, show::or_unknown(turn.reasoning_effort.deep_view())),
        fact("started: "@, show::date(turn.started_at)),
        fact("completed: "@, show::date(turn.completed_at)),
        styled::chars("duration: "@) + show::duration(turn.duration_ms),
    ]
}

/// The tokens of a turn.
pub open spec fn token_facts(turn: CodexTurn) -> Seq<Seq<PieceView>> {
    match turn.total_tokens {
        Some(t) => seq![
            styled::chars(
                "tokens: input="@ + decimal::digits(t.input_tokens as nat) + " cached="@
                    + decimal::digits(t.cached_input_tokens as nat) + " output="@
                    + decimal::digits(t.output_tokens as nat) + " reasoning="@ + decimal::digits(
                    t.reasoning_output_tokens as nat,
                ) + " total="@ + decimal::digits(t.total_tokens as nat),
            ),
        ],
        None => seq![],
    }
}

/// What is known of a compaction.
pub open spec fn compaction_details(meta: CompactionMeta) -> Seq<Seq<PieceView>> {
    seq![
        styled::chars(
            "  tokens_before="@ + show::debug_number(meta.tokens_before) + " tokens_after="@
                + show::debug_number(meta.tokens_after) + " trigger="@ + show::debug_text(
                meta.compaction_trigger.deep_view(),
            ),
        ),
    ] + optional_fact("  summary: "@, meta.summary.deep_view())
}

/// The compaction of a turn.
pub open spec fn compaction_facts(turn: CodexTurn) -> Seq<Seq<PieceView>> {
    if turn.has_compaction {
        seq![styled::chars("compaction: yes"@)] + match turn.compaction_meta {
            Some(meta) => compaction_details(meta),
            None => seq![],
        }
    } else {
        seq![]
    }
}

/// The memories of a turn.
pub open spec fn memory_lines(memories: Seq<Memory>) -> Seq<Seq<PieceView>> {
    Seq::new(
        memories.len(),
        |i: int| fact("  - "@, show::on_one_line(memories[i].content@)),
    )
}

pub open spec fn memory_facts(memories: Seq<Memory>) -> Seq<Seq<PieceView>> {
    if memories.len() == 0 {
        seq![]
    } else {
        seq![fact("memories: "@, decimal::digits(memories.len()))] + memory_lines(memories)
    }
}

/// The agents that a turn spawned.
pub open spec fn spawn_lines(spawns: Seq<CollabSpawn>) -> Seq<Seq<PieceView>> {
    Seq::new(
        spawns.len(),
        |i: int|
            styled::chars(
                "  - "@ + spawns[i].agent_nickname@ + " ("@ + spawns[i].agent_role@
                    + ") -> session "@ + spawns[i].new_session_id@,
            ),
    )
}

pub open spec fn spawn_facts(spawns: Seq<CollabSpawn>) -> Seq<Seq<PieceView>> {
    if spawns.len() == 0 {
        seq![]
    } else {
        seq![styled::chars("spawned agents:"@)] + spawn_lines(spawns)
    }
}

/// All that is shown of a turn.
pub open spec fn turn_details(turn: CodexTurn) -> Seq<Seq<PieceView>> {
    turn_facts(turn) + token_facts(turn) + optional_fact("error: "@, turn.error.deep_view())
        + optional_fact("aborted_reason: "@, turn.aborted_reason.deep_view()) + compaction_facts(
        turn,
    ) + memory_facts(turn.memories@) + spawn_facts(turn.collab_spawns@) + optional_fact(
        "thread_name: "@,
        turn.thread_name.deep_view(),
    ) + optional_fact("trace_id: "@, turn.trace_id.deep_view())
}

/// The full detail of a turn.
pub open spec fn turn_content(turn: CodexTurn, t: usize) -> ItemView {
    ItemView {
        heading: "Turn "@ + decimal::digits((t + 1) as nat),
        primary_title: "Details"@,
        primary: BodyView::Plain(broken(turn_details(turn))),
        secondary: None,
    }
}

fn say_turn_facts(lines: &mut Vec<Vec<Piece>>, turn: &CodexTurn)
    ensures
        final(lines).deep_view() == old(lines).deep_view() + turn_facts(*turn),
{
    let ghost before = lines.deep_view();
    say(lines, text::cat("turn_id: ", turn.turn_id.as_str()));
    say(lines, text::cat("status: ", turn_status_name(turn.status)));
    say(lines, text::cat("model: ", show::text_or_unknown(&turn.model).as_str()));
    say(lines, text::cat("cwd: ", show::text_or_unknown(&turn.cwd).as_str()));
    say(
        lines,
        text::cat("reasoning_effort: ", show::text_or_unknown(&turn.reasoning_effort).as_str()),
    );
    say(lines, text::cat("started: ", show::fmt_epoch(turn.started_at).as_str()));
    say(lines, text::cat("completed: ", show::fmt_epoch(turn.completed_at).as_str()));
    let mut duration = text_of("duration: ".to_owned());
    append_pieces(&mut duration, show::fmt_duration_ms(turn.duration_ms));
    push_text_line(lines, duration);
    assert(lines.deep_view() =~= before + turn_facts(*turn));
}

fn say_tokens(lines: &mut Vec<Vec<Piece>>, turn: &CodexTurn)
    ensures
        final(lines).deep_view() == old(lines).deep_view() + token_facts(*turn),
{
    let ghost before = lines.deep_view();
    if let Some(t) = &turn.total_tokens {
        let s = text::cat("tokens: input=", decimal::decimal(t.input_tokens).as_str());
        let s = text::cat3(
            s.as_str(),
            " cached=",
            decimal::decimal(t.cached_input_tokens).as_str(),
        );
        let s = text::cat3(s.as_str(), " output=", decimal::decimal(t.output_tokens).as_str());
        let s = text::cat3(
            s.as_str(),
            " reasoning=",
            decimal::decimal(t.reasoning_output_tokens).as_str(),
        );
        let s = text::cat3(s.as_str(), " total=", decimal::decimal(t.total_tokens).as_str());
        say(lines, s);
    }
    assert(lines.deep_view() =~= before + token_facts(*turn));
}

fn say_compaction(lines: &mut Vec<Vec<Piece>>, turn: &CodexTurn)
    ensures
        final(lines).deep_view() == old(lines).deep_view() + compaction_facts(*turn),
{
    let ghost before = lines.deep_view();
    if turn.has_compaction {
        say(lines, "compaction: yes".to_owned());
        if let Some(meta) = &turn.compaction_meta {
            let s = text::cat(
                "  tokens_before=",
                show::fmt_debug_number(meta.tokens_before).as_str(),
            );
            let s = text::cat3(
                s.as_str(),
                " tokens_after=",
                show::fmt_debug_number(meta.tokens_after).as_str(),
            );
            let s = text::cat3(
                s.as_str(),
                " trigger=",
                show::fmt_debug_text(&meta.compaction_trigger).as_str(),
            );
            say(lines, s);
            say_optional(lines, "  summary: ", &meta.summary);
        }
    }
    assert(lines.deep_view() =~= before + compaction_facts(*turn));
}

fn say_memories(lines: &mut Vec<Vec<Piece>>, memories: &Vec<Memory>)
    ensures
        final(lines).deep_view() == old(lines).deep_view() + memory_facts(memories@),
{
    let ghost before = lines.deep_view();
    let n = memories.len();
    if n > 0 {
        let ghost all = memory_lines(memories@);
        say(lines, text::cat("memories: ", decimal::decimal(n as u64).as_str()));
        let ghost head = lines.deep_view();
        let mut i: usize = 0;
        assert(head + all.take(0) =~= head);
        while i < n
            invariant
                i <= n == memories@.len(),
                all == memory_lines(memories@),
                lines.deep_view() == head + all.take(i as int),
            decreases n - i,
        {
            say(
                lines,
                text::cat("  - ", show::single_line(memories[i].content.as_str()).as_str()),
            );
            assert(all.take(i + 1) =~= all.take(i as int).push(all[i as int]));
            assert(lines.deep_view() =~= head + all.take(i + 1));
            i += 1;
        }
        assert(all.take(i as int) =~= all);
    }
    assert(lines.deep_view() =~= before + memory_facts(memories@));
}

fn say_spawns(lines: &mut Vec<Vec<Piece>>, spawns: &Vec<CollabSpawn>)
    ensures
        final(lines).deep_view() == old(lines).deep_view() + spawn_facts(spawns@),
{
    let ghost before = lines.deep_view();
    let n = spawns.len();
    if n > 0 {
        let ghost all = spawn_lines(spawns@);
        say(lines, "spawned agents:".to_owned());
        let ghost head = lines.deep_view();
        let mut i: usize = 0;
        assert(head + all.take(0) =~= head);
        while i < n
            invariant
                i <= n == spawns@.len(),
                all == spawn_lines(spawns@),
                lines.deep_view() == head + all.take(i as int),
            decreases n - i,
        {
            let spawn = &spawns[i];
            let s = text::cat3("  - ", spawn.agent_nickname.as_str(), " (");
            let s = text::cat3(s.as_str(), spawn.agent_role.as_str(), ") -> session ");
            say(lines, text::cat(s.as_str(), spawn.new_session_id.as_str()));
            assert(all.take(i + 1) =~= all.take(i as int).push(all[i as int]));
            assert(lines.deep_view() =~= head + all.take(i + 1));
            i += 1;
        }
        assert(all.take(i as int) =~= all);
    }
    assert(lines.deep_view() =~= before + spawn_facts(spawns@));
}

/// The full detail of a turn.
pub fn turn_item_content(turn: &CodexTurn, t: usize) -> (r: ItemContent)
    requires
        t < usize::MAX,
    ensures
        r.deep_view() == turn_content(*turn, t),
{
    let mut lines: Vec<Vec<Piece>> = Vec::new();
    let ghost none = lines.deep_view();
    say_turn_facts(&mut lines, turn);
    assert(none + turn_facts(*turn) =~= turn_facts(*turn));
    say_tokens(&mut lines, turn);
    say_optional(&mut lines, "error: ", &turn.error);
    say_optional(&mut lines, "aborted_reason: ", &turn.aborted_reason);
    say_compaction(&mut lines, turn);
    say_memories(&mut lines, &turn.memories);
    say_spawns(&mut lines, &turn.collab_spawns);
    say_optional(&mut lines, "thread_name: ", &turn.thread_name);
    say_optional(&mut lines, "trace_id: ", &turn.trace_id);
    assert(lines.deep_view() == turn_details(*turn));
    ItemContent {
        heading: text::cat("Turn ", decimal::decimal((t + 1) as u64).as_str()),
        primary_title: "Details".to_owned(),
        primary: Body::Plain(break_lines(lines)),
        secondary: None,
    }
}

/// The label and colour of what a patch does to a file.
pub open spec fn op_label(op: PatchFileOp) -> Seq<char> {
    match op {
        PatchFileOp::Add => "add"@,
        PatchFileOp::Update => "update"@,
        PatchFileOp::Delete => "delete"@,
    }
}

pub open spec fn op_color(op: PatchFileOp) -> Color {
    match op {
        PatchFileOp::Add => Color::Green,
        PatchFileOp::Update => Color::Yellow,
        PatchFileOp::Delete => Color::Red,
    }
}

/// The label and colour of what a patch does to a file.
pub fn patch_op_label_color(op: PatchFileOp) -> (r: (&'static str, Color))
    ensures
        r.0@ == op_label(op),
        r.1 == op_color(op),
{
    match op {
        PatchFileOp::Add => ("add", Color::Green),
        PatchFileOp::Update => ("update", Color::Yellow),
        PatchFileOp::Delete => ("delete", Color::Red),
    }
}

/// The marker of a line of a diff.
pub open spec fn marker(kind: DiffLineKind) -> Seq<char> {
    match kind {
        DiffLineKind::Context => " "@,
        DiffLineKind::Removed => "-"@,
        DiffLineKind::Added => "+"@,
    }
}

/// The colour of a line of a diff.
pub open spec fn kind_color(kind: DiffLineKind) -> Color {
    match kind {
        DiffLineKind::Context => Color::DarkGray,
        DiffLineKind::Removed => Color::Red,
        DiffLineKind::Added => Color::Green,
    }
}

/// A part of a line of a diff: bold and underlined where it has changed.
pub open spec fn segment_span(segment: SegmentView, color: Color) -> SpanView {
    styled::styled(
        segment.text,
        Style { fg: Some(color), bold: segment.changed, underlined: segment.changed },
    )
}

pub open spec fn segment_spans(segments: Seq<SegmentView>, color: Color) -> Seq<SpanView> {
    Seq::new(segments.len(), |i: int| segment_span(segments[i], color))
}

/// A line of a diff.
pub open spec fn diff_spans(line: LineView) -> Seq<SpanView> {
    let color = kind_color(line.kind);
    seq![styled::styled(marker(line.kind), styled::in_color(color))] + segment_spans(
        line.segments,
        color,
    )
}

/// A line of a diff.
pub fn diff_line_to_line(dl: &DiffLine) -> (r: Line)
    ensures
        r.deep_view() == diff_spans(dl.deep_view()),
{
    let (mark, color) = match dl.kind {
        DiffLineKind::Context => (" ", Color::DarkGray),
        DiffLineKind::Removed => ("-", Color::Red),
        DiffLineKind::Added => ("+", Color::Green),
    };
    let ghost segments = dl.segments.deep_view();
    let ghost all = segment_spans(segments, color);
    let mut spans: Vec<Span> = Vec::new();
    push_span(&mut spans, Span::styled(mark.to_owned(), Style::colored(color)));
    let ghost head = spans.deep_view();
    let mut i: usize = 0;
    assert(head + all.take(0) =~= head);
    while i < dl.segments.len()
        invariant
            i <= dl.segments@.len(),
            segments == dl.segments.deep_view(),
            all == segment_spans(segments, color),
            spans.deep_view() == head + all.take(i as int),
        decreases dl.segments@.len() - i,
    {
        let seg = &dl.segments[i];
        assert(segments[i as int] == seg.deep_view());
        push_span(
            &mut spans,
            Span::styled(
                seg.text.clone(),
                Style { fg: Some(color), bold: seg.changed, underlined: seg.changed },
            ),
        );
        assert(all.take(i + 1) =~= all.take(i as int).push(all[i as int]));
        assert(spans.deep_view() =~= head + all.take(i + 1));
        i += 1;
    }
    assert(all.take(i as int) =~= all);
    assert(spans.deep_view() =~= diff_spans(dl.deep_view()));
    Line { spans }
}

/// The lines of a diff.
pub open spec fn diff_lines(lines: Seq<LineView>) -> Seq<Seq<SpanView>> {
    Seq::new(lines.len(), |i: int| diff_spans(lines[i]))
}

/// The lines of a hunk: its header, where it has one, and its diff.
pub open spec fn hunk_lines(hunk: HunkView) -> Seq<Seq<SpanView>> {
    let header = if hunk.header.len() > 0 {
        seq![seq![styled::styled("@@ "@ + hunk.header, styled::in_color(Color::DarkGray))]]
    } else {
        seq![]
    };
    header + diff_lines(hunk.lines)
}

fn push_hunk(lines: &mut Vec<Line>, hunk: &PatchHunk)
    ensures
        final(lines).deep_view() == old(lines).deep_view() + hunk_lines(hunk.deep_view()),
{
    let ghost before = lines.deep_view();
    let ghost shown = hunk.lines.deep_view();
    let ghost all = diff_lines(shown);
    if !hunk.header.as_str().is_empty() {
        push_line(
            lines,
            Line::single(
                Span::styled(
                    text::cat("@@ ", hunk.header.as_str()),
                    Style::colored(Color::DarkGray),
                ),
            ),
        );
    }
    let ghost head = lines.deep_view();
    let mut i: usize = 0;
    assert(head + all.take(0) =~= head);
    while i < hunk.lines.len()
        invariant
            i <= hunk.lines@.len(),
            shown == hunk.lines.deep_view(),
            all == diff_lines(shown),
            lines.deep_view() == head + all.take(i as int),
        decreases hunk.lines@.len() - i,
    {
        assert(shown[i as int] == hunk.lines@[i as int].deep_view());
        push_line(lines, diff_line_to_line(&hunk.lines[i]));
        assert(all.take(i + 1) =~= all.take(i as int).push(all[i as int]));
        assert(lines.deep_view() =~= head + all.take(i + 1));
        i += 1;
    }
    assert(all.take(i as int) =~= all);
    assert(lines.deep_view() =~= before + hunk_lines(hunk.deep_view()));
}

/// The header of a file in a patch.
pub open spec fn file_header(file: FileView) -> Seq<SpanView> {
    let header = seq![
        styled::styled(
            "["@ + op_label(file.op) + "] "@,
            styled::in_bold_color(op_color(file.op)),
        ),
        styled::styled(file.path, styled::in_color(Color::Cyan)),
    ];
    match file.move_path {
        Some(dest) => header.push(styled::raw(" → "@ + dest)),
        None => header,
    }
}

/// The lines of some hunks.
pub open spec fn hunks_lines(hunks: Seq<HunkView>) -> Seq<Seq<SpanView>>
    decreases hunks.len(),
{
    if hunks.len() == 0 {
        seq![]
    } else {
        hunks_lines(hunks.drop_last()) + hunk_lines(hunks.last())
    }
}

/// The lines of a file in a patch: its header, its hunks and a line to set it off.
pub open spec fn file_lines(file: FileView) -> Seq<Seq<SpanView>> {
    (seq![file_header(file)] + hunks_lines(file.hunks)).push(seq![])
}

/// The lines of the files of a patch.
pub open spec fn patch_diff(files: Seq<FileView>) -> Seq<Seq<SpanView>>
    decreases files.len(),
{
    if files.len() == 0 {
        seq![]
    } else {
        patch_diff(files.drop_last()) + file_lines(files.last())
    }
}

fn push_file(lines: &mut Vec<Line>, file: &PatchFile)
    ensures
        final(lines).deep_view() == old(lines).deep_view() + file_lines(file.deep_view()),
{
    let ghost before = lines.deep_view();
    let ghost fv = file.deep_view();
    let (label, color) = patch_op_label_color(file.op);
    let mut header: Vec<Span> = Vec::new();
    push_span(
        &mut header,
        Span::styled(text::cat3("[", label, "] "), Style::bold_colored(color)),
    );
    push_span(&mut header, Span::styled(file.path.clone(), Style::colored(Color::Cyan)));
    if let Some(dest) = &file.move_path {
        push_span(&mut header, Span::raw(text::cat(" → ", dest.as_str())));
    }
    assert(header.deep_view() =~= file_header(fv));
    push_line(lines, Line { spans: header });
    let ghost head = lines.deep_view();
    assert(head =~= before + seq![file_header(fv)]);
    let ghost hunks = fv.hunks;
    let mut i: usize = 0;
    assert(hunks.take(0) =~= seq![]);
    assert(head + hunks_lines(hunks.take(0)) =~= head);
    while i < file.hunks.len()
        invariant
            i <= file.hunks@.len(),
            hunks == file.hunks.deep_view(),
            lines.deep_view() == head + hunks_lines(hunks.take(i as int)),
        decreases file.hunks@.len() - i,
    {
        assert(hunks[i as int] == file.hunks@[i as int].deep_view());
        push_hunk(lines, &file.hunks[i]);
        assert(hunks.take(i + 1).drop_last() =~= hunks.take(i as int));
        assert(lines.deep_view() =~= head + hunks_lines(hunks.take(i + 1)));
        i += 1;
    }
    assert(hunks.take(i as int) =~= hunks);
    push_line(lines, Line::empty());
    assert(lines.deep_view() =~= before + file_lines(fv));
}

/// Render parsed patch files as per-file, per-hunk diff lines with +/- markers, red/green line
/// tinting, and bold and underline on word-level changed spans.
pub fn render_patch_diff(files: &Vec<PatchFile>) -> (r: Vec<Line>)
    ensures
        r.deep_view() == patch_diff(files.deep_view()),
{
    let ghost all = files.deep_view();
    let mut lines: Vec<Line> = Vec::new();
    let mut i: usize = 0;
    assert(all.take(0) =~= seq![]);
    assert(lines.deep_view() =~= patch_diff(all.take(0)));
    while i < files.len()
        invariant
            i <= files@.len(),
            all == files.deep_view(),
            lines.deep_view() == patch_diff(all.take(i as int)),
        decreases files@.len() - i,
    {
        assert(all[i as int] == files@[i as int].deep_view());
        push_file(&mut lines, &files[i]);
        assert(all.take(i + 1).drop_last() =~= all.take(i as int));
        i += 1;
    }
    assert(all.take(i as int) =~= all);
    lines
}

/// The text of a change that was recorded without a patch.
pub open spec fn change_text(change: JsonView) -> Seq<Seq<SpanView>> {
    match change.text_member("unified_diff"@) {
        Some(s) => styled::raw_lines(text::lines(s)),
        None => match change.text_member("content"@) {
            Some(s) => styled::raw_lines(text::lines(s)),
            None => seq![],
        },
    }
}

/// The lines of a change that was recorded without a patch.
pub open spec fn change_lines(file: Seq<char>, change: JsonView) -> Seq<Seq<SpanView>> {
    let kind = match change.text_member("type"@) {
        Some(s) => s,
        None => "update"@,
    };
    (seq![
        seq![
            styled::styled("["@ + kind + "] "@, styled::in_bold_color(Color::Yellow)),
            styled::styled(file, styled::in_color(Color::Cyan)),
        ],
    ] + change_text(change)).push(seq![])
}

/// The lines of some changes that were recorded without a patch.
pub open spec fn all_change_lines(members: Seq<(Seq<char>, JsonView)>) -> Seq<Seq<SpanView>>
    decreases members.len(),
{
    if members.len() == 0 {
        seq![]
    } else {
        all_change_lines(members.drop_last()) + change_lines(members.last().0, members.last().1)
    }
}

/// The lines of recorded changes: none where they are not listed by file.
pub open spec fn recorded_changes(changes: JsonView) -> Seq<Seq<SpanView>> {
    match changes {
        JsonView::Object(members) => all_change_lines(members),
        _ => seq![],
    }
}

fn push_change(lines: &mut Vec<Line>, file: &String, change: &Json)
    ensures
        final(lines).deep_view() == old(lines).deep_view() + change_lines(
            file@,
            change.deep_view(),
        ),
{
    let ghost before = lines.deep_view();
    let kind = match change.get_str("type") {
        Some(s) => s,
        None => "update",
    };
    let mut header: Vec<Span> = Vec::new();
    push_span(
        &mut header,
        Span::styled(text::cat3("[", kind, "] "), Style::bold_colored(Color::Yellow)),
    );
    push_span(&mut header, Span::styled(file.clone(), Style::colored(Color::Cyan)));
    let ghost hv = header.deep_view();
    push_line(lines, Line { spans: header });
    if let Some(s) = change.get_str("unified_diff") {
        append_lines(lines, lines_of(text::text_lines(s)));
    } else if let Some(s) = change.get_str("content") {
        append_lines(lines, lines_of(text::text_lines(s)));
    }
    assert(lines.deep_view() =~= before + seq![hv] + change_text(change.deep_view()));
    push_line(lines, Line::empty());
    proof {
        let expected = change_lines(file@, change.deep_view());
        assert(hv =~= expected[0]);
        assert(lines.deep_view() =~= before + expected);
    }
}

/// Plain per-file dump of the recorded changes for when the raw patch body wasn't parseable.
pub fn render_patch_changes_fallback(changes: &Json) -> (r: Vec<Line>)
    ensures
        r.deep_view() == recorded_changes(changes.deep_view()),
{
    let mut lines: Vec<Line> = Vec::new();
    assert(lines.deep_view() =~= seq![]);
    if let Json::Object(members) = changes {
        let ghost all = changes.deep_view()->Object_0;
        let mut i: usize = 0;
        assert(all.take(0) =~= seq![]);
        while i < members.len()
            invariant
                i <= members@.len(),
                *changes == Json::Object(*members),
                all == changes.deep_view()->Object_0,
                lines.deep_view() == all_change_lines(all.take(i as int)),
            decreases members@.len() - i,
        {
            assert(all[i as int] == (members@[i as int].0@, members@[i as int].1.deep_view()));
            push_change(&mut lines, &members[i].0, &members[i].1);
            assert(all.take(i + 1).drop_last() =~= all.take(i as int));
            i += 1;
        }
        assert(all.take(i as int) =~= all);
    }
    lines
}

/// The input of a tool call, or its arguments.
pub open spec fn input_lines(tool: ToolCall) -> Seq<Seq<SpanView>> {
    match tool.input_text {
        Some(s) => seq![styled::raw_line("input:"@)] + styled::raw_lines(text::lines(s@)),
        None => match show::pretty(tool.arguments.deep_view()) {
            Some(p) => seq![styled::raw_line("arguments:"@)] + styled::raw_lines(text::lines(p)),
            None => seq![],
        },
    }
}

/// The diff of a tool call that applies a patch, where there is one.
pub open spec fn patch_lines(tool: ToolCall) -> Option<Seq<Seq<SpanView>>> {
    let files = match tool.input_text {
        Some(s) => patch::patch_of(s@),
        None => None,
    };
    let recorded = match tool.patch_changes {
        Some(changes) => recorded_changes(changes.deep_view()),
        None => seq![],
    };
    if files is Some {
        Some(patch_diff(files->0))
    } else if recorded.len() > 0 {
        Some(recorded)
    } else {
        None
    }
}

/// The body of the request of a tool call.
pub open spec fn request_body(tool: ToolCall) -> Seq<Seq<SpanView>> {
    if tool.kind is PatchApply && patch_lines(tool) is Some {
        patch_lines(tool)->0
    } else {
        input_lines(tool)
    }
}

/// The lines of a text under a label.
pub fn labelled_lines(label: &str, s: &str) -> (r: Vec<Line>)
    ensures
        r.deep_view() == seq![styled::raw_line(label@)] + styled::raw_lines(text::lines(s@)),
{
    let mut lines: Vec<Line> = Vec::new();
    push_line(&mut lines, Line::raw(label.to_owned()));
    append_lines(&mut lines, lines_of(text::text_lines(s)));
    assert(lines.deep_view() =~= seq![styled::raw_line(label@)] + styled::raw_lines(
        text::lines(s@),
    ));
    lines
}

/// Body of the request panel: a structured red/green diff for `apply_patch` calls, falling back
/// to a plain dump of the recorded changes and then to the raw input text when the body isn't a
/// recognisable patch. Other tool calls just get their input or arguments dumped.
pub fn tool_body_lines(tool: &ToolCall) -> (r: Vec<Line>)
    ensures
        r.deep_view() == request_body(*tool),
{
    if let ToolKind::PatchApply = tool.kind {
        if let Some(s) = &tool.input_text {
            if let Some(files) = parse_apply_patch(s.as_str()) {
                return render_patch_diff(&files);
            }
        }
        if let Some(changes) = &tool.patch_changes {
            let lines = render_patch_changes_fallback(changes);
            if lines.len() > 0 {
                return lines;
            }
        }
    }
    if let Some(s) = &tool.input_text {
        labelled_lines("input:", s.as_str())
    } else if let Some(pretty) = show::pretty_json(&tool.arguments) {
        labelled_lines("arguments:", pretty.as_str())
    } else {
        let lines: Vec<Line> = Vec::new();
        assert(lines.deep_view() =~= seq![]);
        lines
    }
}

/// A line of a name and a value, where there is one.
pub open spec fn optional_line(name: Seq<char>, value: Option<Seq<char>>) -> Seq<Seq<char>> {
    match value {
        Some(value) => seq![name + value],
        None => seq![],
    }
}

fn tell_optional(lines: &mut Vec<String>, name: &str, value: &Option<String>)
    ensures
        final(lines).deep_view() == old(lines).deep_view() + optional_line(
            name@,
            value.deep_view(),
        ),
{
    let ghost before = lines.deep_view();
    if let Some(value) = value {
        push_string(lines, text::cat(name, value.as_str()));
    }
    assert(lines.deep_view() =~= before + optional_line(name@, value.deep_view()));
}

/// The command of a tool call.
pub open spec fn command_text(tool: ToolCall) -> Option<Seq<char>> {
    match tool.command {
        Some(cmd) => Some(text::joined(cmd.deep_view(), " "@)),
        None => None,
    }
}

/// The tool of another server that a tool call is for.
pub open spec fn mcp_text(tool: ToolCall) -> Option<Seq<char>> {
    match tool.mcp_server {
        Some(server) => Some(server@ + "/"@ + ui::or_empty(tool.mcp_tool.deep_view())),
        None => None,
    }
}

/// The facts of the request of a tool call.
pub open spec fn request_facts(tool: ToolCall) -> Seq<Seq<char>> {
    seq![
        "call_id: "@ + tool.call_id@,
        "kind: "@ + ui::kind_name(tool.kind),
        "name: "@ + tool.name@,
    ] + optional_line("command: "@, command_text(tool)) + optional_line(
        "cwd: "@,
        tool.cwd.deep_view(),
    ) + optional_line("mcp: "@, mcp_text(tool)) + optional_line(
        "query: "@,
        tool.web_query.deep_view(),
    ) + optional_line("url: "@, tool.web_url.deep_view()) + optional_line(
        "prompt: "@,
        tool.image_prompt.deep_view(),
    ) + optional_line("subagent_id: "@, tool.subagent_id.deep_view()) + optional_line(
        "subagent_name: "@,
        tool.subagent_name.deep_view(),
    )
}

/// The request of a tool call: its facts and, set off, its body.
pub open spec fn request_panel(tool: ToolCall) -> Seq<Seq<SpanView>> {
    let facts = styled::raw_lines(request_facts(tool));
    let body = request_body(tool);
    if body.len() == 0 {
        facts
    } else {
        facts.push(seq![]) + body
    }
}

fn request_lines(tool: &ToolCall) -> (r: Vec<Line>)
    ensures
        r.deep_view() == request_panel(*tool),
{
    let mut req: Vec<String> = Vec::new();
    push_string(&mut req, text::cat("call_id: ", tool.call_id.as_str()));
    push_string(&mut req, text::cat("kind: ", tool_kind_name(&tool.kind)));
    push_string(&mut req, text::cat("name: ", tool.name.as_str()));
    assert(req.deep_view() =~= seq![
        "call_id: "@ + tool.call_id@,
        "kind: "@ + ui::kind_name(tool.kind),
        "name: "@ + tool.name@,
    ]);
    let command = match &tool.command {
        Some(cmd) => Some(text::join(cmd, " ")),
        None => None,
    };
    tell_optional(&mut req, "command: ", &command);
    tell_optional(&mut req, "cwd: ", &tool.cwd);
    let mcp = match &tool.mcp_server {
        Some(server) => Some(
            text::cat3(server.as_str(), "/", text_or_empty(&tool.mcp_tool).as_str()),
        ),
        None => None,
    };
    tell_optional(&mut req, "mcp: ", &mcp);
    tell_optional(&mut req, "query: ", &tool.web_query);
    tell_optional(&mut req, "url: ", &tool.web_url);
    tell_optional(&mut req, "prompt: ", &tool.image_prompt);
    tell_optional(&mut req, "subagent_id: ", &tool.subagent_id);
    tell_optional(&mut req, "subagent_name: ", &tool.subagent_name);
    assert(req.deep_view() == request_facts(*tool));
    let mut lines = lines_of(req);
    let body = tool_body_lines(tool);
    if body.len() > 0 {
        push_line(&mut lines, Line::empty());
        append_lines(&mut lines, body);
    }
    lines
}

pub open spec fn bool_text(b: bool) -> Seq<char> {
    if b {
        "true"@
    } else {
        "false"@
    }
}

/// How a tool call came out.
pub open spec fn outcome_facts(tool: ToolCall) -> Seq<Seq<PieceView>> {
    let code = match tool.exit_code {
        Some(code) => seq![fact("exit_code: "@, show::signed_digits(code as int))],
        None => seq![],
    };
    let duration = match tool.duration_secs {
        Some(secs) => seq![
            seq![
                PieceView::Text("duration: "@),
                PieceView::Duration { secs, decimals: 2 },
                PieceView::Text("s"@),
            ],
        ],
        None => seq![],
    };
    let success = match tool.patch_success {
        Some(b) => seq![fact("patch_success: "@, bool_text(b))],
        None => seq![],
    };
    let worker = match tool.worker_session {
        Some(w) => seq![
            styled::chars(
                ui::worker_text(
                    "worker session: "@,
                    *w,
                    " turns) — press Enter from the list to open"@,
                ),
            ),
        ],
        None => seq![],
    };
    code + duration + success + optional_fact("file: "@, tool.image_file_path.deep_view()) + worker
}

/// A text under a label, set off by an empty line.
pub open spec fn set_off(label: Seq<char>, s: Seq<char>) -> Seq<Seq<PieceView>> {
    seq![styled::chars(seq![]), styled::chars(label), styled::chars(s)]
}

/// What a tool call put out and changed.
pub open spec fn output_facts(tool: ToolCall) -> Seq<Seq<PieceView>> {
    let output = match tool.output {
        Some(s) => set_off("output:"@, show::pretty_where_json(s@)),
        None => seq![],
    };
    let changes = match tool.patch_changes {
        Some(changes) => match show::pretty(changes.deep_view()) {
            Some(p) => set_off("changes:"@, p),
            None => seq![],
        },
        None => seq![],
    };
    output + changes
}

/// The response of a tool call.
pub open spec fn response_lines(tool: ToolCall) -> Seq<Seq<PieceView>> {
    let lines = seq![fact("status: "@, tool.status@)] + outcome_facts(tool) + output_facts(tool);
    if lines.len() == 1 {
        lines.push(styled::chars("(no output yet)"@))
    } else {
        lines
    }
}

fn say_outcome(lines: &mut Vec<Vec<Piece>>, tool: &ToolCall)
    ensures
        final(lines).deep_view() == old(lines).deep_view() + outcome_facts(*tool),
{
    let ghost before = lines.deep_view();
    if let Some(code) = tool.exit_code {
        say(lines, text::cat("exit_code: ", show::signed_decimal(code).as_str()));
    }
    if let Some(secs) = tool.duration_secs {
        let mut line: Vec<Piece> = Vec::new();
        push_text(&mut line, "duration: ");
        push_piece(&mut line, Piece::Duration { secs, decimals: 2 });
        push_text(&mut line, "s");
        assert(line.deep_view() =~= seq![
            PieceView::Text("duration: "@),
            PieceView::Duration { secs, decimals: 2 },
            PieceView::Text("s"@),
        ]);
        push_text_line(lines, line);
    }
    if let Some(success) = tool.patch_success {
        say(
            lines,
            text::cat(
                "patch_success: ",
                if success {
                    "true"
                } else {
                    "false"
                },
            ),
        );
    }
    say_optional(lines, "file: ", &tool.image_file_path);
    if let Some(worker) = &tool.worker_session {
        say(
            lines,
            describe_worker(
                "worker session: ",
                worker,
                " turns) — press Enter from the list to open",
            ),
        );
    }
    assert(lines.deep_view() =~= before + outcome_facts(*tool));
}

fn say_set_off(lines: &mut Vec<Vec<Piece>>, label: &str, s: String)
    ensures
        final(lines).deep_view() == old(lines).deep_view() + set_off(label@, s@),
{
    let ghost before = lines.deep_view();
    let empty = String::new();
    assert(empty@ =~= seq![]);
    say(lines, empty);
    say(lines, label.to_owned());
    say(lines, s);
    assert(lines.deep_view() =~= before + set_off(label@, s@));
}

fn say_output(lines: &mut Vec<Vec<Piece>>, tool: &ToolCall)
    ensures
        final(lines).deep_view() == old(lines).deep_view() + output_facts(*tool),
{
    let ghost before = lines.deep_view();
    if let Some(output) = &tool.output {
        say_set_off(lines, "output:", show::maybe_pretty(output.as_str()));
    }
    if let Some(changes) = &tool.patch_changes {
        if let Some(pretty) = show::pretty_json(changes) {
            say_set_off(lines, "changes:", pretty);
        }
    }
    assert(lines.deep_view() =~= before + output_facts(*tool));
}

/// The full detail of a tool call.
pub open spec fn tool_content(tool: ToolCall, t: usize) -> ItemView {
    ItemView {
        heading: "Turn "@ + decimal::digits((t + 1) as nat) + " — "@ + tool.name@,
        primary_title: "Request"@,
        primary: BodyView::Styled(request_panel(tool)),
        secondary: Some(("Response"@, BodyView::Plain(broken(response_lines(tool))))),
    }
}

/// The full detail of a tool call.
pub fn tool_item_content(tool: &ToolCall, t: usize) -> (r: ItemContent)
    requires
        t < usize::MAX,
    ensures
        r.deep_view() == tool_content(*tool, t),
{
    let primary = request_lines(tool);
    let mut resp: Vec<Vec<Piece>> = Vec::new();
    say(&mut resp, text::cat("status: ", tool.status.as_str()));
    assert(resp.deep_view() =~= seq![fact("status: "@, tool.status@)]);
    say_outcome(&mut resp, tool);
    say_output(&mut resp, tool);
    if resp.len() == 1 {
        say(&mut resp, "(no output yet)".to_owned());
    }
    assert(resp.deep_view() == response_lines(*tool));
    let number = decimal::decimal((t + 1) as u64);
    let head = text::cat("Turn ", number.as_str());
    ItemContent {
        heading: text::cat3(head.as_str(), " — ", tool.name.as_str()),
        primary_title: "Request".to_owned(),
        primary: Body::Styled(primary),
        secondary: Some(("Response".to_owned(), Body::Plain(break_lines(resp)))),
    }
}

/// What an agent's message is.
pub open spec fn message_kind(is_reasoning: bool) -> Seq<char> {
    if is_reasoning {
        "Reasoning"@
    } else {
        "Agent Message"@
    }
}

/// The full detail of an agent's message.
pub open spec fn message_content(message: AgentMessage, t: usize) -> ItemView {
    let phase = match message.phase {
        Some(p) => " ("@ + p@ + ")"@,
        None => seq![],
    };
    ItemView {
        heading: "Turn "@ + decimal::digits((t + 1) as nat) + " — "@ + message_kind(
            message.is_reasoning,
        ) + phase,
        primary_title: message_kind(message.is_reasoning),
        primary: BodyView::Plain(styled::chars(message.text@)),
        secondary: None,
    }
}

fn message_item_content(message: &AgentMessage, t: usize) -> (r: ItemContent)
    requires
        t < usize::MAX,
    ensures
        r.deep_view() == message_content(*message, t),
{
    let kind = if message.is_reasoning {
        "Reasoning"
    } else {
        "Agent Message"
    };
    let number = decimal::decimal((t + 1) as u64);
    let head = text::cat3("Turn ", number.as_str(), " — ");
    let head = text::cat(head.as_str(), kind);
    let heading = match &message.phase {
        Some(p) => text::cat(head.as_str(), text::cat3(" (", p.as_str(), ")").as_str()),
        None => {
            assert(head@ + seq![] =~= head@);
            head
        },
    };
    ItemContent {
        heading,
        primary_title: kind.to_owned(),
        primary: Body::Plain(text_of(message.text.clone())),
        secondary: None,
    }
}

/// The full detail of a user's message.
pub open spec fn user_content(turn: CodexTurn, t: usize) -> ItemView {
    ItemView {
        heading: "Turn "@ + decimal::digits((t + 1) as nat) + " — User Message"@,
        primary_title: "Message"@,
        primary: BodyView::Plain(styled::chars(ui::or_empty(turn.user_message.deep_view()))),
        secondary: None,
    }
}

/// The full detail of a row.
pub open spec fn content(turns: Seq<CodexTurn>, row: Row) -> ItemView {
    match row {
        Row::TurnHeader(t) => turn_content(turns[t as int], t),
        Row::UserMessage(t) => user_content(turns[t as int], t),
        Row::Agent(t, m) => message_content(turns[t as int].agent_messages@[m as int], t),
        Row::Tool(t, c) => tool_content(turns[t as int].tool_calls@[c as int], t),
    }
}

/// The full detail of a row.
pub fn item_content(session: &CodexSession, row: Row) -> (r: ItemContent)
    requires
        ui::row_in_range(session.turns@, row),
    ensures
        r.deep_view() == content(session.turns@, row),
{
    let n = session.turns.len();
    match row {
        Row::TurnHeader(t) => turn_item_content(&session.turns[t], t),
        Row::UserMessage(t) => ItemContent {
            heading: text::cat3(
                "Turn ",
                decimal::decimal((t + 1) as u64).as_str(),
                " — User Message",
            ),
            primary_title: "Message".to_owned(),
            primary: Body::Plain(text_of(text_or_empty(&session.turns[t].user_message))),
            secondary: None,
        },
        Row::Agent(t, m) => message_item_content(&session.turns[t].agent_messages[m], t),
        Row::Tool(t, c) => tool_item_content(&session.turns[t].tool_calls[c], t),
    }
}

/// The body of the panel that is shown: the second one only where there is one.
pub open spec fn shown_body(item: ItemView, panel: ItemPanel) -> BodyView {
    match (panel, item.secondary) {
        (ItemPanel::Secondary, Some((_, body))) => body,
        _ => item.primary,
    }
}

/// The title of the panel that is shown: both titles where there are two panels, and which one
/// is shown.
pub open spec fn panel_title(item: ItemView, panel: ItemPanel) -> Seq<char> {
    match item.secondary {
        Some((title, _)) => " "@ + item.primary_title + " / "@ + title + "   (showing: "@ + (
        if panel == ItemPanel::Primary {
            item.primary_title
        } else {
            title
        }) + ", h/l to switch) "@,
        None => " "@ + item.primary_title + " "@,
    }
}

impl ItemContent {
    /// The body of the panel that is shown.
    pub fn shown(&self, panel: ItemPanel) -> (r: &Body)
        ensures
            r.deep_view() == shown_body(self.deep_view(), panel),
    {
        if panel == ItemPanel::Secondary {
            if let Some((_, body)) = &self.secondary {
                return body;
            }
        }
        &self.primary
    }

    /// The title of the panel that is shown.
    pub fn title(&self, panel: ItemPanel) -> (r: String)
        ensures
            r@ == panel_title(self.deep_view(), panel),
    {
        match &self.secondary {
            Some((title, _)) => {
                let active = if panel == ItemPanel::Primary {
                    &self.primary_title
                } else {
                    title
                };
                let head = text::cat3(" ", self.primary_title.as_str(), " / ");
                let head = text::cat3(head.as_str(), title.as_str(), "   (showing: ");
                text::cat3(head.as_str(), active.as_str(), ", h/l to switch) ")
            },
            None => text::cat3(" ", self.primary_title.as_str(), " "),
        }
    }
}

} // verus!
