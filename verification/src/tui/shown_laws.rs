//! What is shown of sessions, turns and tool calls, and how.

use vstd::prelude::*;

use crate::decimal;
use crate::json;
use crate::json::JsonView;
use crate::parser::diff::{DiffLineKind, LineView};
use crate::parser::discover::InfoView;
use crate::parser::entry;
use crate::parser::patch;
use crate::parser::patch::{FileView, PatchFileOp};
use crate::parser::session::CodexSession;
use crate::parser::toolcall::{ToolCall, ToolKind};
use crate::parser::turn::{AgentMessage, CodexTurn, TurnStatus};
use crate::text;
use crate::tui::app::AppView;
use crate::tui::item;
use crate::tui::item::{BodyView, ItemView};
use crate::tui::open_session::ItemPanel;
use crate::tui::picker::PickerRowView;
use crate::tui::rows::Row;
use crate::tui::show;
use crate::tui::styled::{Color, PieceView, SpanView, Style};
use crate::tui::ui;

verus! {

/// Characters in a colour, or in none, bold or not.
pub open spec fn span(s: Seq<char>, fg: Option<Color>, bold: bool) -> SpanView {
    SpanView {
        content: seq![PieceView::Text(s)],
        style: Style { fg, bold, underlined: false },
    }
}

/// Characters in no style.
pub open spec fn plain(s: Seq<char>) -> SpanView {
    span(s, None, false)
}

/// A timestamp for reading has blanks for the letter T and else the characters of the timestamp,
/// up to its first dot, or up to the letters Z at its end where it has no dot.
pub proof fn timestamps_lose_zone_and_fractions(s: Seq<char>)
    requires
        s.len() > 0,
    ensures
        ({
            let r = show::readable_time(Some(s));
            let n = r.len() as int;
            &&& n <= s.len()
            &&& forall|i: int|
                0 <= i < n ==> #[trigger] r[i] == (if s[i] == 'T' {
                    ' '
                } else {
                    s[i]
                }) && s[i] != '.'
            &&& n == s.len() || s[n] == '.' || forall|i: int|
                n <= i < s.len() ==> #[trigger] s[i] == 'Z'
            &&& !s.contains('.') && n > 0 ==> r[n - 1] != 'Z'
        }),
{
    let b = show::blanked(s);
    let z = show::without_zone(b);
    lemma_without_zone(b);
    lemma_before_dot(z);
    let r = show::before_dot(z);
    let n = r.len() as int;
    assert forall|i: int| 0 <= i < n implies #[trigger] r[i] == (if s[i] == 'T' {
        ' '
    } else {
        s[i]
    }) && s[i] != '.' by {
        assert(r[i] == z[i]);
        assert(z[i] == b[i]);
    }
    if n < z.len() {
        assert(z[n] == b[n]);
        assert(s[n] == '.');
    } else {
        assert forall|i: int| n <= i < s.len() implies #[trigger] s[i] == 'Z' by {
            assert(b[i] == 'Z');
        }
    }
    if !s.contains('.') && n > 0 {
        if n < z.len() {
            assert(s.contains(s[n]));
        }
        assert(r[n - 1] == z[n - 1]);
    }
}

proof fn lemma_without_zone(s: Seq<char>)
    ensures
        show::without_zone(s).len() <= s.len(),
        forall|i: int|
            0 <= i < show::without_zone(s).len() ==> #[trigger] show::without_zone(s)[i] == s[i],
        forall|i: int| show::without_zone(s).len() <= i < s.len() ==> #[trigger] s[i] == 'Z',
        show::without_zone(s).len() > 0 ==> show::without_zone(s).last() != 'Z',
    decreases s.len(),
{
    if s.len() > 0 && s.last() == 'Z' {
        let front = s.drop_last();
        lemma_without_zone(front);
        assert forall|i: int| show::without_zone(s).len() <= i < s.len() implies #[trigger] s[i]
            == 'Z' by {
            if i < front.len() {
                assert(front[i] == s[i]);
            }
        }
        assert forall|i: int|
            0 <= i < show::without_zone(s).len() implies #[trigger] show::without_zone(s)[i]
            == s[i] by {
            assert(show::without_zone(front)[i] == front[i]);
        }
    }
}

proof fn lemma_before_dot(s: Seq<char>)
    ensures
        show::before_dot(s).len() <= s.len(),
        forall|i: int|
            0 <= i < show::before_dot(s).len() ==> #[trigger] show::before_dot(s)[i] == s[i] && s[i]
                != '.',
        show::before_dot(s).len() < s.len() ==> s[show::before_dot(s).len() as int] == '.',
    decreases s.len(),
{
    if s.len() > 0 && s[0] != '.' {
        let rest = s.skip(1);
        lemma_before_dot(rest);
        let r = show::before_dot(s);
        assert forall|i: int| 0 <= i < r.len() implies #[trigger] r[i] == s[i] && s[i] != '.' by {
            if i > 0 {
                assert(r[i] == show::before_dot(rest)[i - 1]);
                assert(rest[i - 1] == s[i]);
            }
        }
    }
}

/// A timestamp that is missing or empty is shown as unknown.
pub proof fn missing_timestamps_are_unknown()
    ensures
        show::readable_time(None) == "-"@,
        show::readable_time(Some(seq![])) == "-"@,
        show::date(None) == "-"@,
{
}

/// A count below a thousand is shown exactly, one below a million as thousands, and a larger one
/// as millions.
pub proof fn counts_are_scaled(n: u64)
    ensures
        n < 1_000 ==> show::count(n) == seq![PieceView::Text(decimal::digits(n as nat))],
        1_000 <= n < 1_000_000 ==> show::count(n) == seq![
            PieceView::Quotient { value: n, divisor: 1_000 },
            PieceView::Text("k"@),
        ],
        1_000_000 <= n ==> show::count(n) == seq![
            PieceView::Quotient { value: n, divisor: 1_000_000 },
            PieceView::Text("m"@),
        ],
        show::count_or_unknown(Some(n)) == show::count(n),
        show::count_or_unknown(None) == seq![PieceView::Text("-"@)],
{
}

/// A duration below a second is shown in milliseconds, a longer one in seconds.
pub proof fn durations_are_scaled(ms: u64)
    ensures
        ms < 1_000 ==> show::duration(Some(ms)) == seq![
            PieceView::Text(decimal::digits(ms as nat) + "ms"@),
        ],
        1_000 <= ms ==> show::duration(Some(ms)) == seq![
            PieceView::Quotient { value: ms, divisor: 1_000 },
            PieceView::Text("s"@),
        ],
        show::duration(None) == seq![PieceView::Text("-"@)],
{
}

/// A signed number is shown by the digits of its magnitude, behind a minus sign where it is
/// negative.
pub proof fn signed_numbers_show_their_sign(n: int)
    ensures
        n >= 0 ==> decimal::value(show::signed_digits(n)) == n,
        n < 0 ==> show::signed_digits(n)[0] == '-' && decimal::value(show::signed_digits(n).skip(1))
            == -n,
{
    if n >= 0 {
        decimal::digits_denote_the_number(n as nat);
    } else {
        decimal::digits_denote_the_number((-n) as nat);
        assert(show::signed_digits(n).skip(1) =~= decimal::digits((-n) as nat));
    }
}

/// Unsigned seconds as signed ones are congruent to them, and fit in 64 bits.
pub proof fn seconds_wrap_back(secs: u64)
    ensures
        -0x8000_0000_0000_0000 <= show::signed_seconds(secs) < 0x8000_0000_0000_0000,
        (secs - show::signed_seconds(secs)) % 0x1_0000_0000_0000_0000 == 0,
        entry::unsigned_seconds(show::signed_seconds(secs)) == secs,
{
}

/// The model that is shown is that of the last turn that states one, and none where none does.
pub proof fn the_last_stated_model_is_shown(turns: Seq<CodexTurn>)
    ensures
        ui::last_model(turns) matches Some(m) ==> exists|k: int|
            0 <= k < turns.len() && (#[trigger] turns[k]).model.deep_view() == Some(m) && forall|
                l: int,
            |
                k < l < turns.len() ==> (#[trigger] turns[l]).model is None,
        ui::last_model(turns) is None ==> forall|k: int|
            0 <= k < turns.len() ==> (#[trigger] turns[k]).model is None,
    decreases turns.len(),
{
    if turns.len() > 0 {
        let n = turns.len() - 1;
        assert(turns.last() == turns[n]);
        if turns[n].model is Some {
            assert(turns[n].model.deep_view() == Some(ui::last_model(turns)->0));
        } else {
            let front = turns.drop_last();
            the_last_stated_model_is_shown(front);
            match ui::last_model(front) {
                Some(m) => {
                    let k = choose|k: int|
                        0 <= k < front.len() && (#[trigger] front[k]).model.deep_view() == Some(m)
                            && forall|l: int| k < l < front.len() ==> (#[trigger] front[l]).model is None;
                    assert(turns[k] == front[k]);
                    assert forall|l: int| k < l < turns.len() implies (
                    #[trigger] turns[l]).model is None by {
                        if l < n {
                            assert(front[l] == turns[l]);
                        }
                    }
                },
                None => {
                    assert forall|k: int| 0 <= k < turns.len() implies (
                    #[trigger] turns[k]).model is None by {
                        if k < n {
                            assert(front[k] == turns[k]);
                        }
                    }
                },
            }
        }
    }
}

/// Whether a turn reports the tokens in a context window of a known size.
pub open spec fn reports_usage(turn: CodexTurn) -> bool {
    turn.total_tokens is Some && turn.total_tokens->0.context_window_tokens is Some
        && turn.total_tokens->0.model_context_window > 0
}

/// The use of the context window that is shown is that of the last turn that reports one, and none
/// where none does.
pub proof fn the_last_reported_usage_is_shown(turns: Seq<CodexTurn>)
    ensures
        ui::last_usage(turns) matches Some((used, window)) ==> exists|k: int|
            0 <= k < turns.len() && reports_usage(#[trigger] turns[k])
                && turns[k].total_tokens->0.context_window_tokens == Some(used)
                && turns[k].total_tokens->0.model_context_window == window && forall|l: int|
                k < l < turns.len() ==> !reports_usage(#[trigger] turns[l]),
        ui::last_usage(turns) is None ==> forall|k: int|
            0 <= k < turns.len() ==> !reports_usage(#[trigger] turns[k]),
    decreases turns.len(),
{
    if turns.len() > 0 {
        let n = turns.len() - 1;
        assert(turns.last() == turns[n]);
        if reports_usage(turns[n]) {
            assert(reports_usage(turns[n]));
        } else {
            let front = turns.drop_last();
            the_last_reported_usage_is_shown(front);
            match ui::last_usage(front) {
                Some((used, window)) => {
                    let k = choose|k: int|
                        0 <= k < front.len() && reports_usage(#[trigger] front[k])
                            && front[k].total_tokens->0.context_window_tokens == Some(used)
                            && front[k].total_tokens->0.model_context_window == window && forall|
                                l: int,
                            |
                            k < l < front.len() ==> !reports_usage(#[trigger] front[l]);
                    assert(reports_usage(turns[k]));
                    assert forall|l: int| k < l < turns.len() implies !reports_usage(
                        #[trigger] turns[l],
                    ) by {
                        if l < n {
                            assert(front[l] == turns[l]);
                        }
                    }
                },
                None => {
                    assert forall|k: int| 0 <= k < turns.len() implies !reports_usage(
                        #[trigger] turns[k],
                    ) by {
                        if k < n {
                            assert(front[k] == turns[k]);
                        }
                    }
                },
            }
        }
    }
}

/// The info bar shows the branch, the model, and the use of the context window in percent and in
/// tokens, each where it is known, in this order and with a dot between them; where nothing is
/// known it says so.
pub proof fn the_info_bar_shows_what_is_known(session: CodexSession, percent: u8)
    ensures
        ({
            let bar = ui::info_bar(session, percent);
            let dim = Some(Color::DarkGray);
            let branch = session.git is Some && session.git->0.branch is Some;
            let model = ui::last_model(session.turns@);
            let usage = ui::last_usage(session.turns@);
            let b: int = if branch {
                1
            } else {
                0
            };
            let m: int = if model is Some {
                1
            } else {
                0
            };
            let u: int = if usage is Some {
                2
            } else {
                0
            };
            &&& b + m + u == 0 ==> bar == seq![span("(no session metadata)"@, dim, false)]
            &&& b + m + u > 0 ==> {
                &&& bar.len() == 2 * (b + m + u) - 1
                &&& forall|k: int|
                    0 <= k < bar.len() && k % 2 == 1 ==> #[trigger] bar[k] == span(
                        " · "@,
                        dim,
                        false,
                    )
                &&& branch ==> bar[0] == span(
                    "* "@ + session.git->0.branch->0@,
                    Some(Color::Magenta),
                    false,
                )
                &&& model is Some ==> bar[2 * b] == span(model->0, Some(Color::Cyan), false)
                &&& usage matches Some((used, window)) ==> {
                    &&& bar[2 * (b + m)].content == seq![
                        PieceView::Text("ctx "@ + decimal::digits(percent as nat) + "%"@),
                    ]
                    &&& bar[2 * (b + m)].style == (Style {
                        fg: Some(
                            if percent < 50 {
                                Color::Green
                            } else if percent <= 80 {
                                Color::Yellow
                            } else {
                                Color::Red
                            },
                        ),
                        bold: false,
                        underlined: false,
                    })
                    &&& bar[2 * (b + m) + 2].content == show::count(used) + seq![
                        PieceView::Text("/"@),
                    ] + show::count(window) + seq![PieceView::Text(" tok"@)]
                    &&& bar[2 * (b + m) + 2].style == (Style {
                        fg: dim,
                        bold: false,
                        underlined: false,
                    })
                }
            }
        }),
{
}

/// A session in the picker is titled with the title it was given, else with the name of its
/// thread, else with its directory, else with its identifier; on one line and in at most 48
/// characters.
pub proof fn sessions_show_their_best_title(s: InfoView)
    ensures
        ({
            let title = if let Some(t) = s.ai_title {
                t
            } else if let Some(t) = s.thread_name {
                t
            } else if let Some(t) = s.cwd {
                t
            } else {
                s.id
            };
            ui::session_line(s)[2] == span(
                show::shortened(show::on_one_line(title), 48),
                None,
                true,
            )
        }),
{
}

/// A session in the picker shows whether it is ongoing and whether an agent spawned it, its model,
/// its turns, its tokens and when it started, and the role of its worker where it has one.
pub proof fn sessions_show_their_state(s: InfoView)
    ensures
        ({
            let line = ui::session_line(s);
            &&& line.len() == if s.worker_role is Some {
                7int
            } else {
                6
            }
            &&& s.is_ongoing ==> line[0] == span("●"@, Some(Color::Green), false)
            &&& !s.is_ongoing && s.is_archived ==> line[0] == span(
                " "@,
                Some(Color::DarkGray),
                false,
            )
            &&& !s.is_ongoing && !s.is_archived ==> line[0] == plain(" "@)
            &&& line[1] == plain(
                if s.is_inline_worker {
                    "  ↳ "@
                } else {
                    "    "@
                },
            )
            &&& line[3] == plain("  "@)
            &&& line[5].style == plain("  "@).style
            &&& line[4] == span(
                if let Some(model) = s.model {
                    model
                } else {
                    "-"@
                },
                Some(Color::Cyan),
                false,
            )
            &&& line[5].content == seq![
                PieceView::Text("   "@ + decimal::digits(s.turn_count as nat) + " turns   "@),
            ] + show::count_or_unknown(s.total_tokens) + seq![
                PieceView::Text(" tok   "@ + show::readable_time(Some(s.start_time))),
            ]
            &&& s.worker_role matches Some(role) ==> line[6] == span(
                "  ["@ + role + "]"@,
                Some(Color::Magenta),
                false,
            )
        }),
{
}

/// A date in the picker shows whether it is collapsed; a session row shows its session.
pub proof fn picker_rows_show_what_they_stand_for(a: AppView, group: Seq<char>, i: usize)
    ensures
        ui::picker_line(a, PickerRowView::DateHeader(group)) == seq![
            span(
                (if a.collapsed_groups.contains(group) {
                    "▶"@
                } else {
                    "▼"@
                }) + " "@ + group,
                Some(Color::Yellow),
                true,
            ),
        ],
        ui::picker_line(a, PickerRowView::Session(i)) == ui::session_line(a.sessions[i as int]),
{
}

/// Each kind of outcome has its colour.
pub proof fn outcomes_have_their_colours(status: Seq<char>)
    ensures
        status == "success"@ || status == "completed"@ || status == "ok"@ ==> ui::call_color(status)
            == Color::Green,
        status == "error"@ || status == "failed"@ ==> ui::call_color(status) == Color::Red,
        status == "running"@ || status == "pending"@ ==> ui::call_color(status) == Color::Yellow,
        status != "success"@ && status != "completed"@ && status != "ok"@ && status != "error"@
            && status != "failed"@ && status != "running"@ && status != "pending"@
            ==> ui::call_color(status) == Color::Gray,
{
    reveal_strlit("success");
    reveal_strlit("completed");
    reveal_strlit("ok");
    reveal_strlit("error");
    reveal_strlit("failed");
    reveal_strlit("running");
    reveal_strlit("pending");
    let error = "error"@;
    let failed = "failed"@;
    assert(error.len() == 5 && failed.len() == 6);
    assert("success"@.len() == 7 && "completed"@.len() == 9 && "ok"@.len() == 2);
    assert("running"@.len() == 7 && "pending"@.len() == 7);
    assert("success"@[0] == 's' && "running"@[0] == 'r' && "pending"@[0] == 'p');
}

/// Each status of a turn has its name and its colour.
pub proof fn turns_have_their_names_and_colours(status: TurnStatus)
    ensures
        (ui::status_name(status), ui::status_color(status)) == match status {
            TurnStatus::Complete => ("Complete"@, Color::Green),
            TurnStatus::Ongoing => ("Ongoing"@, Color::Cyan),
            TurnStatus::Error => ("Error"@, Color::Red),
            TurnStatus::Aborted => ("Aborted"@, Color::Red),
            TurnStatus::Cancelled => ("Cancelled"@, Color::DarkGray),
        },
{
}

/// The header of a turn shows its number, counted from one, its status, its model, how long it
/// took and its tokens.
pub proof fn turn_headers_show_the_turn(turn: CodexTurn, t: usize)
    ensures
        ({
            let line = ui::turn_line(turn, t);
            &&& line.len() == 3
            &&& line[0] == span(
                "▶ Turn "@ + decimal::digits((t + 1) as nat) + " "@,
                Some(Color::Yellow),
                true,
            )
            &&& line[1] == span(
                ui::status_name(turn.status),
                Some(ui::status_color(turn.status)),
                false,
            )
            &&& line[2].content == seq![
                PieceView::Text(
                    "   "@ + (if let Some(model) = turn.model {
                        model@
                    } else {
                        "-"@
                    }) + "   "@,
                ),
            ] + show::duration(turn.duration_ms) + seq![PieceView::Text("   "@)] + (
            if let Some(info) = turn.total_tokens {
                show::count(info.total_tokens)
            } else {
                seq![PieceView::Text("-"@)]
            }) + seq![PieceView::Text(" tok"@)]
        }),
{
}

/// Messages are shown in the list on one line, in at most 110 characters, behind who they are
/// from.
pub proof fn messages_are_previewed(turn: CodexTurn, message: Seq<char>)
    ensures
        ui::user_line(turn) == seq![
            span("   user  "@, Some(Color::White), true),
            plain(
                show::shortened(
                    show::on_one_line(
                        if let Some(s) = turn.user_message {
                            s@
                        } else {
                            seq![]
                        },
                    ),
                    110,
                ),
            ),
        ],
        ui::agent_line(message, false) == seq![
            span("   agent  "@, Some(Color::White), false),
            plain(show::shortened(show::on_one_line(message), 110)),
        ],
        ui::agent_line(message, true) == seq![
            span("   reason "@, Some(Color::DarkGray), false),
            plain(show::shortened(show::on_one_line(message), 110)),
        ],
{
}

/// A row of an open session's list shows what it stands for: one line, and for a tool call that is
/// expanded its preview below it, indented.
pub proof fn rows_show_what_they_stand_for(
    turns: Seq<CodexTurn>,
    all: Seq<Row>,
    expanded: Set<(usize, usize)>,
    k: int,
)
    requires
        0 <= k < all.len(),
    ensures
        ({
            let lines = ui::list_lines(turns, all, expanded);
            &&& lines.len() == all.len()
            &&& match all[k] {
                Row::TurnHeader(t) => lines[k] == seq![ui::turn_line(turns[t as int], t)],
                Row::UserMessage(t) => lines[k] == seq![ui::user_line(turns[t as int])],
                Row::Agent(t, m) => {
                    let message = turns[t as int].agent_messages@[m as int];
                    lines[k] == seq![ui::agent_line(message.text@, message.is_reasoning)]
                },
                Row::Tool(t, c) => {
                    let tool = turns[t as int].tool_calls@[c as int];
                    let preview = ui::tool_preview(tool);
                    if expanded.contains((t, c)) {
                        &&& lines[k].len() == 1 + preview.len()
                        &&& lines[k][0] == ui::tool_line(tool, true)
                        &&& forall|l: int|
                            0 <= l < preview.len() ==> #[trigger] lines[k][l + 1] == seq![
                                plain("       "@ + preview[l]),
                            ]
                    } else {
                        lines[k] == seq![ui::tool_line(tool, false)]
                    }
                },
            }
        }),
{
}

/// A tool call in the list shows whether it is expanded, its kind, its name and its status.
pub proof fn tool_calls_show_their_state(tool: ToolCall, expanded: bool)
    ensures
        ({
            let line = ui::tool_line(tool, expanded);
            &&& line.len() == 6
            &&& line[0] == plain(
                "   "@ + (if expanded {
                    "▾"@
                } else {
                    "▸"@
                }) + " "@,
            )
            &&& line[1] == span(ui::kind_name(tool.kind) + " "@, Some(Color::Cyan), false)
            &&& line[2] == span(tool.name@, None, true)
            &&& line[3] == plain("   "@)
            &&& line[4] == span(tool.status@, Some(ui::call_color(tool.status@)), false)
            &&& tool.duration_secs matches Some(secs) ==> line[5].content == seq![
                PieceView::Text("   "@),
                PieceView::Duration { secs, decimals: 1 },
                PieceView::Text("s"@),
            ]
        }),
{
}

/// The preview of a tool call shows its command, its input or else its arguments, its output and
/// the session that it spawned, each where there is one and in at most 100 characters of text, and
/// at the end how to see more.
pub proof fn previews_show_the_call(tool: ToolCall)
    ensures
        ({
            let lines = ui::tool_preview(tool);
            &&& tool.command matches Some(cmd) ==> lines[0] == "$ "@ + text::joined(
                cmd.deep_view(),
                " "@,
            )
            &&& tool.input_text matches Some(s) ==> lines.contains(
                "in:   "@ + show::shortened(show::on_one_line(s@), 100),
            )
            &&& tool.input_text is None ==> (show::pretty(
                tool.arguments.deep_view(),
            ) matches Some(p) ==> lines.contains(
                "args: "@ + show::shortened(show::on_one_line(p), 100),
            ))
            &&& tool.output matches Some(s) ==> lines.contains(
                "out:  "@ + show::shortened(show::on_one_line(s@), 100),
            )
            &&& tool.worker_session matches Some(w) ==> lines.contains(
                "worker session "@ + w.id@ + " ("@ + decimal::digits(w.turns@.len())
                    + " turns) — press Enter to open"@,
            )
            &&& lines.last() == if lines.len() == 1 {
                "(no preview — press Enter for full detail)"@
            } else {
                "press Enter for full detail"@
            }
            &&& lines.len() == 1 + (if tool.command is Some {
                1int
            } else {
                0
            }) + (if tool.input_text is Some || show::pretty(tool.arguments.deep_view()) is Some {
                1int
            } else {
                0
            }) + (if tool.output is Some {
                1int
            } else {
                0
            }) + (if tool.worker_session is Some {
                1int
            } else {
                0
            })
        }),
{
    let lines = ui::tool_preview(tool);
    let c: int = if tool.command is Some {
        1
    } else {
        0
    };
    let input = ui::preview_input(tool);
    let i = input.len() as int;
    if i > 0 {
        assert(lines[c] == input[0]);
    }
    let o: int = if tool.output is Some {
        1
    } else {
        0
    };
    if let Some(s) = tool.output {
        assert(lines[c + i] == "out:  "@ + show::shortened(show::on_one_line(s@), 100));
    }
    if let Some(w) = tool.worker_session {
        assert(lines[c + i + o] == "worker session "@ + w.id@ + " ("@ + decimal::digits(
            w.turns@.len(),
        ) + " turns) — press Enter to open"@);
    }
}

/// A JSON value is shown, unless it is null or an object without members.
pub proof fn empty_values_are_not_shown(v: JsonView)
    ensures
        show::pretty(v) is None <==> v is Null || (v is Object && v->Object_0.len() == 0),
{
}

/// Each kind of line of a diff has its marker and its colour.
pub proof fn diff_lines_have_their_markers(line: LineView)
    ensures
        item::diff_spans(line)[0] == span(
            match line.kind {
                DiffLineKind::Context => " "@,
                DiffLineKind::Removed => "-"@,
                DiffLineKind::Added => "+"@,
            },
            Some(
                match line.kind {
                    DiffLineKind::Context => Color::DarkGray,
                    DiffLineKind::Removed => Color::Red,
                    DiffLineKind::Added => Color::Green,
                },
            ),
            false,
        ),
        forall|k: int|
            0 <= k < line.segments.len() ==> (#[trigger] item::diff_spans(line)[k + 1]).content
                == seq![PieceView::Text(line.segments[k].text)],
{
}

/// The header of a file in a patch: what is done to it, its path, and where it is moved to.
pub proof fn files_show_their_header(file: FileView)
    ensures
        item::file_header(file)[0] == span(
            "["@ + (match file.op {
                PatchFileOp::Add => "add"@,
                PatchFileOp::Update => "update"@,
                PatchFileOp::Delete => "delete"@,
            }) + "] "@,
            Some(
                match file.op {
                    PatchFileOp::Add => Color::Green,
                    PatchFileOp::Update => Color::Yellow,
                    PatchFileOp::Delete => Color::Red,
                },
            ),
            true,
        ),
        item::file_header(file)[1] == span(file.path, Some(Color::Cyan), false),
        file.move_path is None ==> item::file_header(file).len() == 2,
        file.move_path matches Some(dest) ==> item::file_header(file).len() == 3
            && item::file_header(file)[2] == plain(" → "@ + dest),
{
}

proof fn lemma_hunk_shown(hunks: Seq<patch::HunkView>, h: int, l: int) -> (k: int)
    requires
        0 <= h < hunks.len(),
        0 <= l < hunks[h].lines.len(),
    ensures
        0 <= k < item::hunks_lines(hunks).len(),
        item::hunks_lines(hunks)[k] == item::diff_spans(hunks[h].lines[l]),
    decreases hunks.len(),
{
    let front = hunks.drop_last();
    let before = item::hunks_lines(front);
    let all = item::hunks_lines(hunks);
    if h < front.len() {
        assert(front[h] == hunks[h]);
        let k = lemma_hunk_shown(front, h, l);
        assert(all[k] == before[k]);
        k
    } else {
        let here = item::hunk_lines(hunks[h]);
        let o: int = if hunks[h].header.len() > 0 {
            1
        } else {
            0
        };
        assert(hunks.last() == hunks[h]);
        assert(here[o + l] == item::diff_spans(hunks[h].lines[l]));
        let k = before.len() + o + l;
        assert(all[k] == here[o + l]);
        k
    }
}

proof fn lemma_hunk_header_shown(hunks: Seq<patch::HunkView>, h: int) -> (k: int)
    requires
        0 <= h < hunks.len(),
        hunks[h].header.len() > 0,
    ensures
        0 <= k < item::hunks_lines(hunks).len(),
        item::hunks_lines(hunks)[k] == seq![
            span("@@ "@ + hunks[h].header, Some(Color::DarkGray), false),
        ],
    decreases hunks.len(),
{
    let front = hunks.drop_last();
    let before = item::hunks_lines(front);
    let all = item::hunks_lines(hunks);
    if h < front.len() {
        assert(front[h] == hunks[h]);
        let k = lemma_hunk_header_shown(front, h);
        assert(all[k] == before[k]);
        k
    } else {
        assert(hunks.last() == hunks[h]);
        let here = item::hunk_lines(hunks[h]);
        let k = before.len() as int;
        assert(all[k] == here[0]);
        k
    }
}

proof fn lemma_in_file(files: Seq<FileView>, f: int, j: int) -> (k: int)
    requires
        0 <= f < files.len(),
        0 <= j < item::file_lines(files[f]).len(),
    ensures
        0 <= k < item::patch_diff(files).len(),
        item::patch_diff(files)[k] == item::file_lines(files[f])[j],
    decreases files.len(),
{
    let front = files.drop_last();
    let before = item::patch_diff(front);
    let all = item::patch_diff(files);
    if f < front.len() {
        assert(front[f] == files[f]);
        let k = lemma_in_file(front, f, j);
        assert(all[k] == before[k]);
        k
    } else {
        assert(files.last() == files[f]);
        let k = before.len() + j;
        assert(all[k] == item::file_lines(files[f])[j]);
        k
    }
}

/// Nothing of a patch is left out: every file's header is shown, the header of every hunk that has
/// one, and every line of every hunk.
pub proof fn patches_are_shown_whole(files: Seq<FileView>, f: int, h: int, l: int)
    requires
        0 <= f < files.len(),
    ensures
        item::patch_diff(files).contains(item::file_header(files[f])),
        0 <= h < files[f].hunks.len() && files[f].hunks[h].header.len() > 0 ==> item::patch_diff(
            files,
        ).contains(
            seq![span("@@ "@ + files[f].hunks[h].header, Some(Color::DarkGray), false)],
        ),
        0 <= h < files[f].hunks.len() && 0 <= l < files[f].hunks[h].lines.len()
            ==> item::patch_diff(files).contains(item::diff_spans(files[f].hunks[h].lines[l])),
{
    let here = item::file_lines(files[f]);
    assert(here[0] == item::file_header(files[f]));
    let k = lemma_in_file(files, f, 0);
    if 0 <= h < files[f].hunks.len() {
        if files[f].hunks[h].header.len() > 0 {
            let j = lemma_hunk_header_shown(files[f].hunks, h);
            assert(here[j + 1] == item::hunks_lines(files[f].hunks)[j]);
            let k = lemma_in_file(files, f, j + 1);
        }
        if 0 <= l < files[f].hunks[h].lines.len() {
            let j = lemma_hunk_shown(files[f].hunks, h, l);
            assert(here[j + 1] == item::hunks_lines(files[f].hunks)[j]);
            let k = lemma_in_file(files, f, j + 1);
        }
    }
}

/// The lines of a patch, a file more: its header, the lines of its hunks in order, and an empty
/// line.
pub proof fn files_are_shown_in_order(
    files: Seq<FileView>,
    file: FileView,
    hunk: patch::HunkView,
)
    ensures
        item::patch_diff(seq![]).len() == 0,
        item::patch_diff(files.push(file)) == item::patch_diff(files) + seq![
            item::file_header(file),
        ] + item::hunks_lines(file.hunks) + seq![Seq::<SpanView>::empty()],
        item::hunks_lines(seq![]).len() == 0,
        hunk.header.len() == 0 ==> item::hunks_lines(file.hunks.push(hunk)) == item::hunks_lines(
            file.hunks,
        ) + Seq::new(hunk.lines.len(), |l: int| item::diff_spans(hunk.lines[l])),
        hunk.header.len() > 0 ==> item::hunks_lines(file.hunks.push(hunk)) == item::hunks_lines(
            file.hunks,
        ) + seq![seq![span("@@ "@ + hunk.header, Some(Color::DarkGray), false)]] + Seq::new(
            hunk.lines.len(),
            |l: int| item::diff_spans(hunk.lines[l]),
        ),
{
    assert(files.push(file).drop_last() =~= files);
    assert(item::patch_diff(files.push(file)) =~= item::patch_diff(files) + seq![
        item::file_header(file),
    ] + item::hunks_lines(file.hunks) + seq![Seq::<SpanView>::empty()]);
    assert(file.hunks.push(hunk).drop_last() =~= file.hunks);
    if hunk.header.len() > 0 {
        assert(item::hunks_lines(file.hunks.push(hunk)) =~= item::hunks_lines(file.hunks) + seq![
            seq![span("@@ "@ + hunk.header, Some(Color::DarkGray), false)],
        ] + Seq::new(hunk.lines.len(), |l: int| item::diff_spans(hunk.lines[l])));
    } else {
        assert(item::hunks_lines(file.hunks.push(hunk)) =~= item::hunks_lines(file.hunks)
            + Seq::new(hunk.lines.len(), |l: int| item::diff_spans(hunk.lines[l])));
    }
}

/// The lines of a text, unstyled, behind a label.
pub open spec fn labelled(label: Seq<char>, s: Seq<char>) -> Seq<Seq<SpanView>> {
    seq![seq![plain(label)]] + Seq::new(
        text::lines(s).len(),
        |i: int| seq![plain(text::lines(s)[i])],
    )
}

/// A tool call that applies a patch shows the patch where its input is one, else the changes that
/// were recorded where there are any; every other call, and one without either, shows its input,
/// or else its arguments.
pub proof fn requests_show_the_best_body(tool: ToolCall)
    ensures
        ({
            let parsed = if let Some(s) = tool.input_text {
                patch::patch_of(s@)
            } else {
                None
            };
            let recorded = if let Some(changes) = tool.patch_changes {
                item::recorded_changes(changes.deep_view())
            } else {
                seq![]
            };
            let patches = tool.kind is PatchApply;
            let body = item::request_body(tool);
            &&& patches && parsed is Some ==> body == item::patch_diff(parsed->0)
            &&& patches && parsed is None && recorded.len() > 0 ==> body == recorded
            &&& !patches || (parsed is None && recorded.len() == 0) ==> {
                &&& tool.input_text matches Some(s) ==> body == labelled("input:"@, s@)
                &&& tool.input_text is None ==> match show::pretty(tool.arguments.deep_view()) {
                    Some(p) => body == labelled("arguments:"@, p),
                    None => body.len() == 0,
                }
            }
        }),
{
    if let Some(s) = tool.input_text {
        assert(item::input_lines(tool) =~= labelled("input:"@, s@));
    } else if let Some(p) = show::pretty(tool.arguments.deep_view()) {
        assert(item::input_lines(tool) =~= labelled("arguments:"@, p));
    }
}

/// A recorded change shows what was done, "update" where that is not said, and the file, and below
/// it its unified diff, or else its content, line by line, and an empty line. Changes that are not
/// listed by file are not shown.
pub proof fn recorded_changes_are_shown(
    members: Seq<(Seq<char>, JsonView)>,
    file: Seq<char>,
    change: JsonView,
    other: JsonView,
)
    ensures
        ({
            let kind = if let Some(s) = change.text_member("type"@) {
                s
            } else {
                "update"@
            };
            let shown = if let Some(s) = change.text_member("unified_diff"@) {
                text::lines(s)
            } else if let Some(s) = change.text_member("content"@) {
                text::lines(s)
            } else {
                seq![]
            };
            let header = seq![
                span("["@ + kind + "] "@, Some(Color::Yellow), true),
                span(file, Some(Color::Cyan), false),
            ];
            &&& item::recorded_changes(JsonView::Object(seq![])).len() == 0
            &&& item::recorded_changes(JsonView::Object(members.push((file, change))))
                == item::recorded_changes(JsonView::Object(members)) + seq![header] + Seq::new(
                shown.len(),
                |i: int| seq![plain(shown[i])],
            ) + seq![Seq::<SpanView>::empty()]
            &&& !(other is Object) ==> item::recorded_changes(other).len() == 0
        }),
{
    let shown = if let Some(s) = change.text_member("unified_diff"@) {
        text::lines(s)
    } else if let Some(s) = change.text_member("content"@) {
        text::lines(s)
    } else {
        seq![]
    };
    let lines = Seq::new(shown.len(), |i: int| seq![plain(shown[i])]);
    assert(members.push((file, change)).drop_last() =~= members);
    assert(item::change_text(change) =~= lines);
    let kind = if let Some(s) = change.text_member("type"@) {
        s
    } else {
        "update"@
    };
    let header = seq![
        span("["@ + kind + "] "@, Some(Color::Yellow), true),
        span(file, Some(Color::Cyan), false),
    ];
    assert(item::change_lines(file, change) =~= seq![header] + lines + seq![
        Seq::<SpanView>::empty(),
    ]);
    assert(item::recorded_changes(JsonView::Object(members.push((file, change))))
        =~= item::recorded_changes(JsonView::Object(members)) + seq![header] + lines + seq![
        Seq::<SpanView>::empty(),
    ]);
}

/// A line of a name and a value, for a value that there may be.
pub open spec fn said(name: Seq<char>, value: Option<Seq<char>>) -> Seq<Seq<char>> {
    if let Some(value) = value {
        seq![name + value]
    } else {
        seq![]
    }
}

/// The request of a tool call shows what is known of it, one line for each fact and in this order,
/// and its body, where it has one, set off by an empty line.
pub proof fn requests_show_what_is_known(tool: ToolCall)
    ensures
        ({
            let command = if let Some(cmd) = tool.command {
                Some(text::joined(cmd.deep_view(), " "@))
            } else {
                None
            };
            let mcp = if let Some(server) = tool.mcp_server {
                Some(
                    server@ + "/"@ + (if let Some(name) = tool.mcp_tool {
                        name@
                    } else {
                        seq![]
                    }),
                )
            } else {
                None
            };
            let facts = seq![
                "call_id: "@ + tool.call_id@,
                "kind: "@ + ui::kind_name(tool.kind),
                "name: "@ + tool.name@,
            ] + said("command: "@, command) + said("cwd: "@, tool.cwd.deep_view()) + said(
                "mcp: "@,
                mcp,
            ) + said("query: "@, tool.web_query.deep_view()) + said(
                "url: "@,
                tool.web_url.deep_view(),
            ) + said("prompt: "@, tool.image_prompt.deep_view()) + said(
                "subagent_id: "@,
                tool.subagent_id.deep_view(),
            ) + said("subagent_name: "@, tool.subagent_name.deep_view());
            let lines = Seq::new(facts.len(), |i: int| seq![plain(facts[i])]);
            let body = item::request_body(tool);
            item::request_panel(tool) == if body.len() == 0 {
                lines
            } else {
                lines + seq![Seq::<SpanView>::empty()] + body
            }
        }),
{
    let command = if let Some(cmd) = tool.command {
        Some(text::joined(cmd.deep_view(), " "@))
    } else {
        None
    };
    let mcp = if let Some(server) = tool.mcp_server {
        Some(
            server@ + "/"@ + (if let Some(name) = tool.mcp_tool {
                name@
            } else {
                seq![]
            }),
        )
    } else {
        None
    };
    let facts = seq![
        "call_id: "@ + tool.call_id@,
        "kind: "@ + ui::kind_name(tool.kind),
        "name: "@ + tool.name@,
    ] + said("command: "@, command) + said("cwd: "@, tool.cwd.deep_view()) + said("mcp: "@, mcp)
        + said("query: "@, tool.web_query.deep_view()) + said("url: "@, tool.web_url.deep_view())
        + said("prompt: "@, tool.image_prompt.deep_view()) + said(
        "subagent_id: "@,
        tool.subagent_id.deep_view(),
    ) + said("subagent_name: "@, tool.subagent_name.deep_view());
    let lines = Seq::new(facts.len(), |i: int| seq![plain(facts[i])]);
    let body = item::request_body(tool);
    assert(facts =~= item::request_facts(tool));
    if body.len() > 0 {
        assert(item::request_panel(tool) =~= lines + seq![Seq::<SpanView>::empty()] + body);
    } else {
        assert(item::request_panel(tool) =~= lines);
    }
}

/// A line of characters alone.
pub open spec fn told(s: Seq<char>) -> Seq<PieceView> {
    seq![PieceView::Text(s)]
}

/// The response of a tool call shows its status, its exit code, how long it took, whether its patch
/// was applied, the file it made, the session it spawned, its output and its changes, each where
/// there is one; where there is nothing but the status it says that there is no output yet.
pub proof fn responses_show_what_came_back(tool: ToolCall)
    ensures
        ({
            let lines = item::response_lines(tool);
            &&& lines[0] == told("status: "@ + tool.status@)
            &&& tool.exit_code matches Some(code) ==> lines.contains(
                told("exit_code: "@ + show::signed_digits(code as int)),
            )
            &&& tool.duration_secs matches Some(secs) ==> lines.contains(
                seq![
                    PieceView::Text("duration: "@),
                    PieceView::Duration { secs, decimals: 2 },
                    PieceView::Text("s"@),
                ],
            )
            &&& tool.patch_success matches Some(b) ==> lines.contains(
                told(
                    "patch_success: "@ + (if b {
                        "true"@
                    } else {
                        "false"@
                    }),
                ),
            )
            &&& tool.image_file_path matches Some(path) ==> lines.contains(
                told("file: "@ + path@),
            )
            &&& tool.worker_session matches Some(w) ==> lines.contains(
                told(
                    "worker session: "@ + w.id@ + " ("@ + decimal::digits(w.turns@.len())
                        + " turns) — press Enter from the list to open"@,
                ),
            )
            &&& tool.output matches Some(s) ==> lines.contains(told("output:"@)) && lines.contains(
                told(show::pretty_where_json(s@)),
            )
            &&& tool.patch_changes matches Some(changes) ==> (show::pretty(
                changes.deep_view(),
            ) matches Some(p) ==> lines.contains(told("changes:"@)) && lines.contains(told(p)))
            &&& lines.len() > 1
            &&& tool.exit_code is None && tool.duration_secs is None && tool.patch_success is None
                && tool.image_file_path is None && tool.worker_session is None
                && tool.output is None && tool.patch_changes is None ==> lines == seq![
                told("status: "@ + tool.status@),
                told("(no output yet)"@),
            ]
        }),
{
    let lines = item::response_lines(tool);
    let n = |b: bool|
        if b {
            1int
        } else {
            0
        };
    let code = n(tool.exit_code is Some);
    let duration = n(tool.duration_secs is Some);
    let success = n(tool.patch_success is Some);
    let file = n(tool.image_file_path is Some);
    let worker = n(tool.worker_session is Some);
    let outcome = item::outcome_facts(tool);
    assert(outcome.len() == code + duration + success + file + worker);
    let output: int = if tool.output is Some {
        3
    } else {
        0
    };
    if let Some(c) = tool.exit_code {
        assert(lines[1] == told("exit_code: "@ + show::signed_digits(c as int)));
    }
    if let Some(secs) = tool.duration_secs {
        let line = seq![
            PieceView::Text("duration: "@),
            PieceView::Duration { secs, decimals: 2 },
            PieceView::Text("s"@),
        ];
        assert(lines[1 + code] == line);
    }
    if let Some(b) = tool.patch_success {
        assert(lines[1 + code + duration] == told(
            "patch_success: "@ + (if b {
                "true"@
            } else {
                "false"@
            }),
        ));
    }
    if let Some(path) = tool.image_file_path {
        assert(lines[1 + code + duration + success] == told("file: "@ + path@));
    }
    if let Some(w) = tool.worker_session {
        assert(lines[1 + code + duration + success + file] == told(
            "worker session: "@ + w.id@ + " ("@ + decimal::digits(w.turns@.len())
                + " turns) — press Enter from the list to open"@,
        ));
    }
    let at: int = 1 + outcome.len() as int;
    if let Some(s) = tool.output {
        assert(lines[at + 1] == told("output:"@));
        assert(lines[at + 2] == told(show::pretty_where_json(s@)));
    }
    if let Some(changes) = tool.patch_changes {
        if let Some(p) = show::pretty(changes.deep_view()) {
            assert(lines[at + output + 1] == told("changes:"@));
            assert(lines[at + output + 2] == told(p));
        }
    }
    if tool.exit_code is None && tool.duration_secs is None && tool.patch_success is None
        && tool.image_file_path is None && tool.worker_session is None && tool.output is None
        && tool.patch_changes is None {
        assert(lines =~= seq![told("status: "@ + tool.status@), told("(no output yet)"@)]);
    }
}

/// The full detail of a turn shows what identifies it, its status, its model and directory, when
/// it ran and how long, and its tokens.
pub proof fn turn_details_show_the_turn(turn: CodexTurn)
    ensures
        ({
            let lines = item::turn_details(turn);
            &&& lines[0] == told("turn_id: "@ + turn.turn_id@)
            &&& lines[1] == told("status: "@ + ui::status_name(turn.status))
            &&& lines[2] == told("model: "@ + show::or_unknown(turn.model.deep_view()))
            &&& lines[3] == told("cwd: "@ + show::or_unknown(turn.cwd.deep_view()))
            &&& lines[4] == told(
                "reasoning_effort: "@ + show::or_unknown(turn.reasoning_effort.deep_view()),
            )
            &&& lines[5] == told("started: "@ + show::date(turn.started_at))
            &&& lines[6] == told("completed: "@ + show::date(turn.completed_at))
            &&& lines[7] == told("duration: "@) + show::duration(turn.duration_ms)
            &&& turn.total_tokens matches Some(t) ==> lines[8] == told(
                "tokens: input="@ + decimal::digits(t.input_tokens as nat) + " cached="@
                    + decimal::digits(t.cached_input_tokens as nat) + " output="@
                    + decimal::digits(t.output_tokens as nat) + " reasoning="@ + decimal::digits(
                    t.reasoning_output_tokens as nat,
                ) + " total="@ + decimal::digits(t.total_tokens as nat),
            )
        }),
{
}

/// The full detail of a turn shows its error, why it was aborted, whether its context was
/// compacted, every memory on one line, every agent that it spawned, its thread and its trace, each
/// where there is one.
pub proof fn turn_details_show_what_happened(turn: CodexTurn, k: int)
    ensures
        ({
            let lines = item::turn_details(turn);
            &&& turn.error matches Some(s) ==> lines.contains(told("error: "@ + s@))
            &&& turn.aborted_reason matches Some(s) ==> lines.contains(
                told("aborted_reason: "@ + s@),
            )
            &&& turn.has_compaction ==> lines.contains(told("compaction: yes"@))
            &&& turn.has_compaction ==> (turn.compaction_meta matches Some(meta) ==> {
                &&& lines.contains(
                    told(
                        "  tokens_before="@ + show::debug_number(meta.tokens_before)
                            + " tokens_after="@ + show::debug_number(meta.tokens_after)
                            + " trigger="@ + show::debug_text(meta.compaction_trigger.deep_view()),
                    ),
                )
                &&& meta.summary matches Some(s) ==> lines.contains(told("  summary: "@ + s@))
            })
            &&& 0 <= k < turn.memories@.len() ==> lines.contains(
                told("memories: "@ + decimal::digits(turn.memories@.len())),
            ) && lines.contains(told("  - "@ + show::on_one_line(turn.memories@[k].content@)))
            &&& 0 <= k < turn.collab_spawns@.len() ==> lines.contains(told("spawned agents:"@))
                && lines.contains(
                told(
                    "  - "@ + turn.collab_spawns@[k].agent_nickname@ + " ("@
                        + turn.collab_spawns@[k].agent_role@ + ") -> session "@
                        + turn.collab_spawns@[k].new_session_id@,
                ),
            )
            &&& turn.thread_name matches Some(s) ==> lines.contains(told("thread_name: "@ + s@))
            &&& turn.trace_id matches Some(s) ==> lines.contains(told("trace_id: "@ + s@))
        }),
{
    lemma_turn_details(turn);
    if let Some(s) = turn.error {
        lemma_in_details(turn, 1, 0);
    }
    if let Some(s) = turn.aborted_reason {
        lemma_in_details(turn, 2, 0);
    }
    if turn.has_compaction {
        lemma_in_details(turn, 3, 0);
        if let Some(meta) = turn.compaction_meta {
            lemma_in_details(turn, 3, 1);
            if meta.summary is Some {
                lemma_in_details(turn, 3, 2);
            }
        }
    }
    if 0 <= k < turn.memories@.len() {
        lemma_in_details(turn, 4, 0);
        lemma_in_details(turn, 4, k + 1);
        assert(details_part(turn, 4)[k + 1] == item::memory_lines(turn.memories@)[k]);
    }
    if 0 <= k < turn.collab_spawns@.len() {
        lemma_in_details(turn, 5, 0);
        lemma_in_details(turn, 5, k + 1);
        assert(details_part(turn, 5)[k + 1] == item::spawn_lines(turn.collab_spawns@)[k]);
    }
    if let Some(s) = turn.thread_name {
        lemma_in_details(turn, 6, 0);
    }
    if let Some(s) = turn.trace_id {
        lemma_in_details(turn, 7, 0);
    }
}

/// The parts of what is shown of a turn.
spec fn details_part(turn: CodexTurn, i: int) -> Seq<Seq<PieceView>> {
    if i == 1 {
        item::optional_fact("error: "@, turn.error.deep_view())
    } else if i == 2 {
        item::optional_fact("aborted_reason: "@, turn.aborted_reason.deep_view())
    } else if i == 3 {
        item::compaction_facts(turn)
    } else if i == 4 {
        item::memory_facts(turn.memories@)
    } else if i == 5 {
        item::spawn_facts(turn.collab_spawns@)
    } else if i == 6 {
        item::optional_fact("thread_name: "@, turn.thread_name.deep_view())
    } else {
        item::optional_fact("trace_id: "@, turn.trace_id.deep_view())
    }
}

/// What is shown of a turn up to one of the parts.
spec fn details_upto(turn: CodexTurn, i: int) -> Seq<Seq<PieceView>>
    decreases i,
{
    if i <= 0 {
        item::turn_facts(turn) + item::token_facts(turn)
    } else {
        details_upto(turn, i - 1) + details_part(turn, i)
    }
}

proof fn lemma_turn_details(turn: CodexTurn)
    ensures
        item::turn_details(turn) == details_upto(turn, 7),
{
    reveal_with_fuel(details_upto, 8);
}

proof fn lemma_in_details(turn: CodexTurn, i: int, j: int)
    requires
        1 <= i <= 7,
        0 <= j < details_part(turn, i).len(),
    ensures
        details_upto(turn, 7).contains(details_part(turn, i)[j]),
{
    let front = details_upto(turn, i - 1);
    let at = front.len() + j;
    assert(details_upto(turn, i)[at] == details_part(turn, i)[j]);
    lemma_details_grow(turn, i, 7, at);
}

proof fn lemma_details_grow(turn: CodexTurn, i: int, n: int, at: int)
    requires
        1 <= i <= n,
        0 <= at < details_upto(turn, i).len(),
    ensures
        at < details_upto(turn, n).len(),
        details_upto(turn, n)[at] == details_upto(turn, i)[at],
    decreases n,
{
    if i < n {
        lemma_details_grow(turn, i, n - 1, at);
    }
}

/// The full detail of a row is that of what it stands for: messages are shown whole, a turn with
/// its facts and a tool call with its request and its response, under the number of the turn,
/// counted from one.
pub proof fn details_are_those_of_the_row(turns: Seq<CodexTurn>, t: usize, i: usize)
    ensures
        ({
            let turn = turns[t as int];
            let number = "Turn "@ + decimal::digits((t + 1) as nat);
            let message = turn.agent_messages@[i as int];
            let tool = turn.tool_calls@[i as int];
            &&& item::content(turns, Row::TurnHeader(t)) == (ItemView {
                heading: number,
                primary_title: "Details"@,
                primary: BodyView::Plain(item::broken(item::turn_details(turn))),
                secondary: None,
            })
            &&& item::content(turns, Row::UserMessage(t)) == (ItemView {
                heading: number + " — User Message"@,
                primary_title: "Message"@,
                primary: BodyView::Plain(
                    told(
                        if let Some(s) = turn.user_message {
                            s@
                        } else {
                            seq![]
                        },
                    ),
                ),
                secondary: None,
            })
            &&& item::content(turns, Row::Agent(t, i)).primary == BodyView::Plain(
                told(message.text@),
            )
            &&& item::content(turns, Row::Agent(t, i)).primary_title == if message.is_reasoning {
                "Reasoning"@
            } else {
                "Agent Message"@
            }
            &&& item::content(turns, Row::Agent(t, i)).secondary is None
            &&& item::content(turns, Row::Tool(t, i)) == (ItemView {
                heading: number + " — "@ + tool.name@,
                primary_title: "Request"@,
                primary: BodyView::Styled(item::request_panel(tool)),
                secondary: Some(
                    ("Response"@, BodyView::Plain(item::broken(item::response_lines(tool)))),
                ),
            })
        }),
{
}

/// The heading of a message's full detail tells its kind, and its phase where it has one.
pub proof fn message_headings_tell_the_phase(message: AgentMessage, t: usize)
    ensures
        ({
            let view = item::message_content(message, t);
            let head = "Turn "@ + decimal::digits((t + 1) as nat) + " — "@ + view.primary_title;
            &&& message.phase is None ==> view.heading == head
            &&& message.phase matches Some(p) ==> view.heading == head + (" ("@ + p@ + ")"@)
        }),
{
    let view = item::message_content(message, t);
    let head = "Turn "@ + decimal::digits((t + 1) as nat) + " — "@ + view.primary_title;
    if message.phase is None {
        assert(view.heading =~= head);
    }
}

/// Of two panels the chosen one is shown, and its title says which it is.
pub proof fn the_chosen_panel_is_shown(view: ItemView, title: Seq<char>, body: BodyView)
    requires
        view.secondary == Some((title, body)),
    ensures
        item::shown_body(view, ItemPanel::Primary) == view.primary,
        item::shown_body(view, ItemPanel::Secondary) == body,
        item::panel_title(view, ItemPanel::Primary) == " "@ + view.primary_title + " / "@ + title
            + "   (showing: "@ + view.primary_title + ", h/l to switch) "@,
        item::panel_title(view, ItemPanel::Secondary) == " "@ + view.primary_title + " / "@ + title
            + "   (showing: "@ + title + ", h/l to switch) "@,
{
}

/// Lines that are broken stand behind one another with a line feed between them.
pub proof fn broken_lines_follow_one_another(lines: Seq<Seq<PieceView>>, line: Seq<PieceView>)
    ensures
        item::broken(seq![]).len() == 0,
        item::broken(seq![line]) == line,
        lines.len() > 0 ==> item::broken(lines.push(line)) == item::broken(lines) + seq![
            PieceView::Text("\n"@),
        ] + line,
{
    assert(lines.push(line).drop_last() =~= lines);
    if lines.len() > 0 {
        assert(item::broken(lines.push(line)) =~= item::broken(lines) + seq![
            PieceView::Text("\n"@),
        ] + line);
    }
}

/// The title of an open session's list: its identifier, how deep it lies below the session that
/// was opened, whether it is live, its turns and its directory.
pub proof fn list_titles_tell_the_session(session: CodexSession, depth: nat)
    ensures
        ui::list_heading(session, depth) == " "@ + session.id@ + (if depth > 1 {
            "  (worker depth "@ + decimal::digits(depth) + ")"@
        } else {
            seq![]
        }) + (if session.is_ongoing {
            "  ● LIVE"@
        } else {
            seq![]
        }) + "   "@ + decimal::digits(session.turns@.len()) + " turns   "@ + (
        if let Some(cwd) = session.cwd {
            cwd@
        } else {
            seq![]
        }) + " "@,
{
}

/// A value that is not known is shown as a dash, and a known one as it is.
pub proof fn unknown_values_are_dashes(s: Seq<char>)
    ensures
        show::or_unknown(Some(s)) == s,
        show::or_unknown(None) == "-"@,
{
}

/// Optional values are shown with the names of their variants.
pub proof fn optional_values_name_their_variant(n: u64, s: Seq<char>)
    ensures
        show::debug_number(Some(n)) == "Some("@ + decimal::digits(n as nat) + ")"@,
        show::debug_number(None) == "None"@,
        show::debug_text(Some(s)) == "Some("@ + show::quoted(s) + ")"@,
        show::debug_text(None) == "None"@,
{
}

/// A text that is JSON is shown spread over lines, and any other as it is.
pub proof fn only_json_is_spread_out(s: Seq<char>)
    ensures
        json::parsed(s) is None ==> show::pretty_where_json(s) == s,
        json::parsed(s) matches Some(v) ==> show::pretty_where_json(s) == json::pretty_text(v),
{
}

/// Each kind of tool call has its name.
pub proof fn tool_calls_have_their_kinds(tool: ToolCall)
    ensures
        ui::kind_name(tool.kind) == match tool.kind {
            ToolKind::PatchApply => "PatchApply"@,
            ToolKind::SpawnAgent => "SpawnAgent"@,
            ToolKind::Other(name) => name@,
        },
{
}

/// The title of the picker names the directory and counts the sessions.
pub proof fn the_picker_title_counts_the_sessions(dir: Seq<char>, sessions: nat)
    ensures
        ui::picker_heading(dir, sessions) == " Codex Trace — "@ + dir + " ("@ + decimal::digits(
            sessions,
        ) + " sessions) "@,
{
}

} // verus!
