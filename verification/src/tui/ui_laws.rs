//! What holds of everything that is shown.

use vstd::prelude::*;

use crate::parser::diff::LineView;
use crate::parser::diff_laws;
use crate::parser::session::CodexSession;
use crate::parser::toolcall::ToolCall;
use crate::parser::turn::CodexTurn;
use crate::text;
use crate::tui::app::AppView;
use crate::tui::app_laws;
use crate::tui::item;
use crate::tui::item::ItemView;
use crate::tui::open_session::ItemPanel;
use crate::tui::picker;
use crate::tui::picker::PickerRowView;
use crate::tui::picker_laws;
use crate::tui::rows;
use crate::tui::rows::Row;
use crate::tui::show;
use crate::tui::styled::{PieceView, SpanView};
use crate::tui::ui;

verus! {

/// A shortened text has at most the number of characters asked for; one that has no more is left
/// as it is, and of a longer one the beginning is kept.
pub proof fn shortening_keeps_the_beginning(s: Seq<char>, max: int)
    requires
        max > 0,
    ensures
        show::shortened(s, max).len() <= max,
        s.len() <= max ==> show::shortened(s, max) == s,
        s.len() > max ==> show::shortened(s, max).len() == max && show::shortened(
            s,
            max,
        ).drop_last() == s.take(max - 1) && show::shortened(s, max).last() == '\u{2026}',
{
    if s.len() > max {
        assert(show::shortened(s, max).drop_last() =~= s.take(max - 1));
    }
}

/// Whether a text has characters and no white space among them.
pub open spec fn is_word(w: Seq<char>) -> bool {
    w.len() > 0 && forall|i: int| 0 <= i < w.len() ==> !text::white_space(#[trigger] w[i])
}

/// The words of a text are words.
pub proof fn words_have_no_white_space(s: Seq<char>, k: int)
    requires
        0 <= k < text::words(s).len(),
    ensures
        is_word(text::words(s)[k]),
    decreases s.len(),
{
    let front = s.drop_last();
    let before = text::words(front);
    let c = s.last();
    let w = text::words(s)[k];
    if text::white_space(c) {
        words_have_no_white_space(front, k);
    } else if s.len() >= 2 && !text::white_space(s[s.len() - 2]) {
        assert(front.last() == s[s.len() - 2]);
        text::lemma_open_word(front);
        words_have_no_white_space(front, k);
        if k == before.len() - 1 {
            assert(w == before.last().push(c));
            assert forall|i: int| 0 <= i < w.len() implies !text::white_space(#[trigger] w[i]) by {
                if i < before.last().len() {
                    assert(w[i] == before.last()[i]);
                }
            }
        }
    } else if k < before.len() {
        words_have_no_white_space(front, k);
    }
}

/// A text on one line has no white space but single spaces: in particular no line break.
pub proof fn one_line_has_only_spaces(s: Seq<char>, i: int)
    requires
        0 <= i < show::on_one_line(s).len(),
    ensures
        text::white_space(show::on_one_line(s)[i]) ==> show::on_one_line(s)[i] == ' ',
{
    let parts = text::words(s);
    assert forall|k: int| 0 <= k < parts.len() implies is_word(#[trigger] parts[k]) by {
        words_have_no_white_space(s, k);
    }
    lemma_joined_spaces(parts, i);
}

proof fn lemma_joined_spaces(parts: Seq<Seq<char>>, i: int)
    requires
        forall|k: int| 0 <= k < parts.len() ==> is_word(#[trigger] parts[k]),
        0 <= i < text::joined(parts, seq![' ']).len(),
    ensures
        text::white_space(text::joined(parts, seq![' '])[i]) ==> text::joined(
            parts,
            seq![' '],
        )[i] == ' ',
    decreases parts.len(),
{
    let all = text::joined(parts, seq![' ']);
    if parts.len() == 1 {
        assert(is_word(parts[0]));
    } else if parts.len() > 1 {
        let front = parts.drop_last();
        let before = text::joined(front, seq![' ']);
        assert forall|k: int| 0 <= k < front.len() implies is_word(#[trigger] front[k]) by {
            assert(front[k] == parts[k]);
        }
        if i < before.len() {
            lemma_joined_spaces(front, i);
            assert(all[i] == before[i]);
        } else if i > before.len() {
            let last = parts[parts.len() - 1];
            assert(is_word(last));
            assert(all[i] == last[i - before.len() - 1]);
        }
    }
}

proof fn lemma_words_of_word(before: Seq<char>, w: Seq<char>)
    requires
        is_word(w),
        before.len() == 0 || text::white_space(before.last()),
    ensures
        text::words(before + w) == text::words(before).push(w),
        !text::white_space((before + w).last()),
    decreases w.len(),
{
    let s = before + w;
    assert(s.last() == w.last());
    assert(!text::white_space(w[w.len() - 1]));
    if w.len() == 1 {
        assert(s.drop_last() =~= before);
        assert(seq![w[0]] =~= w);
        if before.len() > 0 {
            assert(s[s.len() - 2] == before.last());
        }
    } else {
        let shorter = w.drop_last();
        assert forall|i: int| 0 <= i < shorter.len() implies !text::white_space(
            #[trigger] shorter[i],
        ) by {
            assert(shorter[i] == w[i]);
        }
        lemma_words_of_word(before, shorter);
        assert(s.drop_last() =~= before + shorter);
        assert(s[s.len() - 2] == shorter.last());
        assert(!text::white_space(w[w.len() - 2]));
        let ws = text::words(before).push(shorter);
        assert(ws.drop_last().push(ws.last().push(w.last())) =~= text::words(before).push(w)) by {
            assert(shorter.push(w.last()) =~= w);
            assert(ws.drop_last() =~= text::words(before));
        }
    }
}

proof fn lemma_words_of_joined(parts: Seq<Seq<char>>)
    requires
        forall|k: int| 0 <= k < parts.len() ==> is_word(#[trigger] parts[k]),
    ensures
        text::words(text::joined(parts, seq![' '])) == parts,
    decreases parts.len(),
{
    let none = Seq::<char>::empty();
    if parts.len() == 0 {
        assert(text::joined(parts, seq![' ']) =~= none);
        assert(text::words(none) =~= parts);
    } else if parts.len() == 1 {
        assert(is_word(parts[0]));
        lemma_words_of_word(none, parts[0]);
        assert(none + parts[0] =~= parts[0]);
        assert(text::words(none) =~= seq![]);
        assert(text::words(none).push(parts[0]) =~= parts);
    } else {
        let front = parts.drop_last();
        let last = parts[parts.len() - 1];
        assert(is_word(last));
        assert forall|k: int| 0 <= k < front.len() implies is_word(#[trigger] front[k]) by {
            assert(front[k] == parts[k]);
        }
        lemma_words_of_joined(front);
        let before = text::joined(front, seq![' ']) + seq![' '];
        assert(before.drop_last() =~= text::joined(front, seq![' ']));
        assert(text::white_space(' '));
        assert(text::words(before) == front);
        lemma_words_of_word(before, last);
        assert(front.push(last) =~= parts);
    }
}

/// A text on one line keeps its words, so that putting it on one line again changes nothing.
pub proof fn one_line_keeps_the_words(s: Seq<char>)
    ensures
        text::words(show::on_one_line(s)) == text::words(s),
        show::on_one_line(show::on_one_line(s)) == show::on_one_line(s),
{
    let parts = text::words(s);
    assert forall|k: int| 0 <= k < parts.len() implies is_word(#[trigger] parts[k]) by {
        words_have_no_white_space(s, k);
    }
    lemma_words_of_joined(parts);
}

/// The characters of a span of characters alone.
pub open spec fn span_chars(span: SpanView) -> Seq<char> {
    match span.content[0] {
        PieceView::Text(s) => s,
        _ => seq![],
    }
}

/// The characters of some spans of characters alone.
pub open spec fn span_texts(spans: Seq<SpanView>) -> Seq<Seq<char>> {
    Seq::new(spans.len(), |i: int| span_chars(spans[i]))
}

/// A line of a diff is shown as its marker and its text, whole.
pub proof fn diff_lines_are_shown_whole(line: LineView)
    ensures
        item::diff_spans(line).len() == line.segments.len() + 1,
        span_texts(item::diff_spans(line))[0] == item::marker(line.kind),
        diff_laws::joined(span_texts(item::diff_spans(line).skip(1))) == diff_laws::line_text(line),
{
    let spans = item::diff_spans(line).skip(1);
    assert(span_texts(spans) =~= diff_laws::segment_texts(line.segments));
}

/// What has changed within a line, and nothing else, is shown bold and underlined.
pub proof fn changes_stand_out(line: LineView, k: int)
    requires
        0 <= k < line.segments.len(),
    ensures
        item::diff_spans(line)[k + 1].style.bold == line.segments[k].changed,
        item::diff_spans(line)[k + 1].style.underlined == line.segments[k].changed,
        item::diff_spans(line)[k + 1].style.fg == Some(item::kind_color(line.kind)),
{
}

/// The info bar is never empty.
pub proof fn the_info_bar_is_never_empty(session: CodexSession, percent: u8)
    ensures
        ui::info_bar(session, percent).len() > 0,
{
}

/// The tool preview is never empty.
pub proof fn previews_are_never_empty(tool: ToolCall)
    ensures
        ui::tool_preview(tool).len() > 0,
{
}

/// The second panel is shown only where there is one.
pub proof fn a_missing_panel_shows_the_first(view: ItemView)
    requires
        view.secondary is None,
    ensures
        item::shown_body(view, ItemPanel::Secondary) == view.primary,
        item::panel_title(view, ItemPanel::Secondary) == item::panel_title(
            view,
            ItemPanel::Primary,
        ),
{
}

/// Whether every tool call that has a position in the stream is there.
pub open spec fn calls_complete(turns: Seq<CodexTurn>) -> bool {
    forall|t: int|
        #![trigger turns[t]]
        0 <= t < turns.len() ==> turns[t].tool_call_orders@.len() <= turns[t].tool_calls@.len()
}

/// The rows of a session whose tool calls are complete can all be shown.
pub proof fn built_rows_can_be_shown(turns: Seq<CodexTurn>)
    requires
        rows::sizes_fit(turns),
        calls_complete(turns),
    ensures
        ui::rows_in_range(turns, rows::session_rows(turns)),
{
    let all = rows::session_rows(turns);
    assert forall|k: int| 0 <= k < all.len() implies ui::row_in_range(turns, #[trigger] all[k]) by {
        rows::rows_exist(turns, k);
        if let Row::Tool(t, c) = all[k] {
            assert(turns[t as int].tool_call_orders@.len() <= turns[t as int].tool_calls@.len());
        }
    }
}

/// The rows of a picker that is in order can all be shown.
pub proof fn picker_rows_can_be_shown(a: AppView)
    requires
        app_laws::in_order(a),
        a.sessions.len() <= usize::MAX,
    ensures
        ui::picker_in_range(a),
{
    assert forall|k: int| 0 <= k < a.filtered_rows.len() implies ((
    #[trigger] a.filtered_rows[k]) matches PickerRowView::Session(i) ==> i < a.sessions.len()) by {
        picker_laws::rows_are_grounded(
            a.sessions,
            text::lowered(a.search_query),
            a.collapsed_groups,
            k,
        );
    }
}

} // verus!
