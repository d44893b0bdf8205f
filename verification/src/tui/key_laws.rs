//! What the keys do, and what the answers to them do.

use vstd::prelude::*;

use crate::parser::cache::FileTime;
use crate::parser::discover::InfoView;
use crate::parser::session::CodexSession;
use crate::tui::app::{ActionView, AppView, KeyCode, Screen};
use crate::tui::app_laws;
use crate::tui::open_session::{DetailFocus, ItemPanel, OpenView};
use crate::tui::picker;
use crate::tui::picker::PickerRowView;
use crate::tui::rows;
use crate::tui::rows::Row;

verus! {

/// Whether a list of the picker takes the keys.
pub open spec fn picks(a: AppView) -> bool {
    a.screen == Screen::Picker && !a.show_help && !a.search_mode
}

/// Whether a query is being typed.
pub open spec fn types(a: AppView) -> bool {
    a.screen == Screen::Picker && !a.show_help && a.search_mode
}

/// Whether the list of an open session takes the keys.
pub open spec fn lists(a: AppView) -> bool {
    a.screen == Screen::Detail && !a.show_help && !a.search_mode && a.stack.len() > 0
        && a.stack.last().focus == DetailFocus::List
}

/// Whether the full detail of a row takes the keys.
pub open spec fn details(a: AppView) -> bool {
    a.screen == Screen::Detail && !a.show_help && !a.search_mode && a.stack.len() > 0
        && a.stack.last().focus == DetailFocus::Item
}

/// How far a key moves within a list, where it moves: one line, or ten.
pub open spec fn step(code: KeyCode) -> Option<int> {
    match code {
        KeyCode::Down | KeyCode::Char('j') => Some(1),
        KeyCode::Up | KeyCode::Char('k') => Some(-1),
        KeyCode::PageDown => Some(10),
        KeyCode::PageUp => Some(-10),
        _ => None,
    }
}

/// Whether a selection is another one moved that far within a list, or to the end that it would
/// run over.
pub open spec fn moves(from: Option<usize>, to: Option<usize>, by: int, len: nat) -> bool {
    &&& from is Some && to is Some
    &&& 0 <= from->0 + by < len ==> to->0 == from->0 + by
    &&& from->0 + by < 0 ==> to->0 == 0
    &&& from->0 + by >= len ==> to->0 == len - 1
}

/// In the picker the keys for it move the selection, to the ends of the list with Home and End,
/// and change nothing else.
pub proof fn keys_move_through_the_picker(a: AppView, code: KeyCode)
    requires
        app_laws::in_order(a),
        picks(a),
        0 < a.filtered_rows.len() <= usize::MAX,
        step(code) is Some || code == KeyCode::Home || code == KeyCode::End,
    ensures
        ({
            let (after, action) = a.on_key(code, false);
            &&& action == ActionView::Nothing
            &&& after == (AppView { selected: after.selected, ..a })
            &&& step(code) matches Some(by) ==> moves(
                a.selected,
                after.selected,
                by,
                a.filtered_rows.len(),
            )
            &&& code == KeyCode::Home ==> after.selected == Some(0usize)
            &&& code == KeyCode::End ==> after.selected is Some && after.selected->0
                == a.filtered_rows.len() - 1
        }),
{
}

/// An empty picker stays as it is, whatever moves through it.
pub proof fn keys_move_through_no_empty_picker(a: AppView, code: KeyCode)
    requires
        picks(a),
        a.filtered_rows.len() == 0,
        step(code) is Some || code == KeyCode::Home || code == KeyCode::End,
    ensures
        a.on_key(code, false) == (a, ActionView::Nothing),
{
}

/// In the picker a slash starts a query, R asks for a new discovery and Q quits; nothing else
/// changes.
pub proof fn keys_of_the_picker(a: AppView)
    requires
        picks(a),
    ensures
        a.on_key(KeyCode::Char('/'), false) == (
            AppView { search_mode: true, ..a },
            ActionView::Nothing,
        ),
        a.on_key(KeyCode::Char('r'), false) == (a, ActionView::Reload),
        a.on_key(KeyCode::Char('q'), false) == (
            AppView { should_quit: true, ..a },
            ActionView::Nothing,
        ),
{
}

/// The question mark shows the help, unless a query is typed, and the keys that close it bring
/// back what was there; every other key leaves it.
pub proof fn help_comes_and_goes(a: AppView, code: KeyCode)
    requires
        !a.show_help,
        !a.search_mode,
    ensures
        ({
            let shown = AppView { show_help: true, ..a };
            let closes = code == KeyCode::Char('?') || code == KeyCode::Esc || code == KeyCode::Char(
                'q',
            ) || code == KeyCode::Enter;
            &&& a.on_key(KeyCode::Char('?'), false) == (shown, ActionView::Nothing)
            &&& closes ==> shown.on_key(code, false) == (a, ActionView::Nothing)
            &&& !closes ==> shown.on_key(code, false) == (shown, ActionView::Nothing)
        }),
{
}

/// Enter and the space bar open the selected session: the file at its path is to be parsed, and
/// nothing changes until it is.
pub proof fn activating_a_session_opens_it(a: AppView, i: usize, j: usize)
    requires
        picks(a),
        a.selected == Some(i),
        i < a.filtered_rows.len(),
        a.filtered_rows[i as int] == PickerRowView::Session(j),
        j < a.sessions.len(),
    ensures
        a.on_key(KeyCode::Enter, false) == (a, ActionView::Open(a.sessions[j as int].path)),
        a.on_key(KeyCode::Char(' '), false) == (a, ActionView::Open(a.sessions[j as int].path)),
{
}

/// Enter and the space bar collapse the selected date, or expand it where it is collapsed: every
/// other date stays as it is, and the list follows.
pub proof fn activating_a_date_toggles_it(a: AppView, i: usize, group: Seq<char>)
    requires
        picks(a),
        a.selected == Some(i),
        i < a.filtered_rows.len(),
        a.filtered_rows[i as int] == PickerRowView::DateHeader(group),
    ensures
        ({
            let (after, action) = a.on_key(KeyCode::Enter, false);
            &&& action == ActionView::Nothing
            &&& a.on_key(KeyCode::Char(' '), false) == (after, action)
            &&& after.collapsed_groups.contains(group) == !a.collapsed_groups.contains(group)
            &&& forall|other: Seq<char>|
                other != group ==> #[trigger] after.collapsed_groups.contains(other)
                    == a.collapsed_groups.contains(other)
            &&& after.filtered_rows == picker::picker_rows(
                a.sessions,
                a.search_query,
                after.collapsed_groups,
            )
            &&& after == (AppView {
                collapsed_groups: after.collapsed_groups,
                filtered_rows: after.filtered_rows,
                selected: after.selected,
                ..a
            })
        }),
{
}

/// Where nothing is selected, there is nothing to activate.
pub proof fn activating_needs_a_selection(a: AppView)
    requires
        picks(a),
        a.selected is None,
    ensures
        a.on_key(KeyCode::Enter, false) == (a, ActionView::Nothing),
        a.on_key(KeyCode::Char(' '), false) == (a, ActionView::Nothing),
{
}

/// While a query is typed, a character is put behind it, Q, R, the slash and the question mark
/// too, and the list follows.
pub proof fn typing_extends_the_query(a: AppView, c: char)
    requires
        types(a),
    ensures
        ({
            let (after, action) = a.on_key(KeyCode::Char(c), false);
            &&& action == ActionView::Nothing
            &&& after.search_query == a.search_query.push(c)
            &&& after.filtered_rows == picker::picker_rows(
                a.sessions,
                a.search_query.push(c),
                a.collapsed_groups,
            )
            &&& after == (AppView {
                search_query: after.search_query,
                filtered_rows: after.filtered_rows,
                selected: after.selected,
                ..a
            })
        }),
{
}

/// Backspace takes the last character of the query, where there is one, and the list follows.
pub proof fn backspace_shortens_the_query(a: AppView)
    requires
        types(a),
    ensures
        ({
            let (after, action) = a.on_key(KeyCode::Backspace, false);
            &&& action == ActionView::Nothing
            &&& a.search_query.len() > 0 ==> after.search_query.push(a.search_query.last())
                == a.search_query
            &&& a.search_query.len() == 0 ==> after.search_query == a.search_query
            &&& after.filtered_rows == picker::picker_rows(
                a.sessions,
                after.search_query,
                a.collapsed_groups,
            )
            &&& after == (AppView {
                search_query: after.search_query,
                filtered_rows: after.filtered_rows,
                selected: after.selected,
                ..a
            })
        }),
{
    if a.search_query.len() > 0 {
        assert(a.search_query.drop_last().push(a.search_query.last()) =~= a.search_query);
    }
}

/// Keys without a meaning do nothing.
pub proof fn other_keys_do_nothing(a: AppView)
    requires
        a.screen == Screen::Picker || a.stack.len() > 0,
        !a.show_help,
    ensures
        a.on_key(KeyCode::Other, false) == (a, ActionView::Nothing),
        types(a) ==> a.on_key(KeyCode::Up, false) == (a, ActionView::Nothing) && a.on_key(
            KeyCode::Down,
            false,
        ) == (a, ActionView::Nothing) && a.on_key(KeyCode::Tab, false) == (a, ActionView::Nothing),
        picks(a) ==> a.on_key(KeyCode::Esc, false) == (a, ActionView::Nothing) && a.on_key(
            KeyCode::Tab,
            false,
        ) == (a, ActionView::Nothing),
        details(a) ==> a.on_key(KeyCode::Tab, false) == (a, ActionView::Nothing) && a.on_key(
            KeyCode::End,
            false,
        ) == (a, ActionView::Nothing),
{
}

/// A list that is made anew keeps the selection where it lies within the list, has its last line
/// selected where it has become too short, and its first line where none was selected.
pub proof fn selections_survive_a_new_list(a: AppView)
    ensures
        ({
            let after = a.rebuilt();
            let len = after.filtered_rows.len();
            &&& after == (AppView {
                filtered_rows: after.filtered_rows,
                selected: after.selected,
                ..a
            })
            &&& len == 0 ==> after.selected is None
            &&& a.selected matches Some(i) ==> {
                &&& i < len ==> after.selected == Some(i)
                &&& 0 < len <= i ==> after.selected is Some && after.selected->0 == len - 1
            }
            &&& a.selected is None && len > 0 ==> after.selected == Some(0usize)
        }),
{
}

/// A discovery replaces the sessions and the list; one that failed leaves none, and says why.
pub proof fn discoveries_replace_the_sessions(
    a: AppView,
    outcome: Result<Seq<InfoView>, Seq<char>>,
)
    ensures
        ({
            let after = a.reloaded(outcome);
            &&& outcome matches Ok(sessions) ==> after.sessions == sessions
                && after.status_message is None
            &&& outcome matches Err(e) ==> after.sessions.len() == 0 && after.status_message
                == Some("failed to scan sessions dir: "@ + e)
            &&& after.filtered_rows == picker::picker_rows(
                after.sessions,
                a.search_query,
                a.collapsed_groups,
            )
            &&& after == (AppView {
                sessions: after.sessions,
                status_message: after.status_message,
                filtered_rows: after.filtered_rows,
                selected: after.selected,
                ..a
            })
        }),
{
}

/// A session that was parsed is shown alone, from its first row on, with nothing expanded; where
/// it could not be parsed, that is said and nothing else changes.
pub proof fn parsed_sessions_are_shown(
    a: AppView,
    path: Seq<char>,
    session: CodexSession,
    mtime: Option<FileTime>,
    e: Seq<char>,
)
    ensures
        ({
            let after = a.opened(path, Ok(session), mtime);
            let open = after.stack.last();
            &&& after.screen == Screen::Detail
            &&& after.status_message is None
            &&& after.stack.len() == 1
            &&& open.session == session
            &&& open.path == path
            &&& open.rows == rows::session_rows(session.turns@)
            &&& open.rows.len() > 0 ==> open.selected == Some(0usize)
            &&& open.rows.len() == 0 ==> open.selected is None
            &&& forall|key: (usize, usize)| !#[trigger] open.expanded.contains(key)
            &&& open.focus == DetailFocus::List
            &&& open.item_panel == ItemPanel::Primary
            &&& open.item_scroll == 0
            &&& open.last_mtime == mtime
            &&& after == (AppView {
                screen: after.screen,
                status_message: after.status_message,
                stack: after.stack,
                ..a
            })
        }),
        a.opened(path, Err(e), mtime) == (AppView {
            status_message: Some("failed to parse session: "@ + e),
            ..a
        }),
{
}

/// Whether only the session on top differs.
pub open spec fn same_but_top(a: AppView, after: AppView) -> bool {
    &&& after == (AppView { stack: after.stack, ..a })
    &&& after.stack.len() == a.stack.len()
    &&& forall|k: int|
        #![trigger after.stack[k]]
        0 <= k < a.stack.len() - 1 ==> after.stack[k] == a.stack[k]
}

/// In an open session's list the keys for it move the selection, to the ends of the list with
/// Home and End, and change nothing else.
pub proof fn keys_move_through_a_session(a: AppView, code: KeyCode)
    requires
        app_laws::in_order(a),
        lists(a),
        0 < a.stack.last().rows.len() <= usize::MAX,
        step(code) is Some || code == KeyCode::Home || code == KeyCode::End,
    ensures
        ({
            let (after, action) = a.on_key(code, false);
            let open = a.stack.last();
            let now = after.stack.last();
            &&& action == ActionView::Nothing
            &&& same_but_top(a, after)
            &&& now == (OpenView { selected: now.selected, ..open })
            &&& step(code) matches Some(by) ==> moves(
                open.selected,
                now.selected,
                by,
                open.rows.len(),
            )
            &&& code == KeyCode::Home ==> now.selected == Some(0usize)
            &&& code == KeyCode::End ==> now.selected is Some && now.selected->0 == open.rows.len()
                - 1
        }),
{
    assert(a.stack.last() == a.stack[a.stack.len() - 1]);
}

/// The selected tool call of an open session is expanded or collapsed with the tabulator, every
/// tool call is expanded with E, and collapsed with C; nothing else changes.
pub proof fn keys_expand_tool_calls(a: AppView, t: usize, c: usize, i: usize)
    requires
        lists(a),
        a.stack.last().selected == Some(i),
        i < a.stack.last().rows.len(),
    ensures
        ({
            let open = a.stack.last();
            let tab = a.on_key(KeyCode::Tab, false);
            let all = a.on_key(KeyCode::Char('e'), false);
            let none = a.on_key(KeyCode::Char('c'), false);
            let selected = open.rows[i as int] == Row::Tool(t, c);
            &&& tab.1 == ActionView::Nothing && all.1 == ActionView::Nothing && none.1
                == ActionView::Nothing
            &&& same_but_top(a, tab.0) && same_but_top(a, all.0) && same_but_top(a, none.0)
            &&& tab.0.stack.last() == (OpenView { expanded: tab.0.stack.last().expanded, ..open })
            &&& all.0.stack.last() == (OpenView { expanded: all.0.stack.last().expanded, ..open })
            &&& none.0.stack.last() == (OpenView { expanded: none.0.stack.last().expanded, ..open })
            &&& tab.0.stack.last().expanded.contains((t, c)) == (open.expanded.contains((t, c))
                != selected)
            &&& all.0.stack.last().expanded.contains((t, c)) == (open.expanded.contains((t, c))
                || open.rows.contains(Row::Tool(t, c)))
            &&& !none.0.stack.last().expanded.contains((t, c))
        }),
{
}

/// In an open session's list R asks for the file to be parsed again, and changes nothing.
pub proof fn sessions_are_read_again_on_demand(a: AppView)
    requires
        lists(a),
    ensures
        a.on_key(KeyCode::Char('r'), false) == (a, ActionView::Refresh(a.stack.last().path)),
{
}

/// Q and Escape leave the session on top: the one below is as it was, or, where there is none,
/// the picker.
pub proof fn leaving_a_session_shows_what_is_below(a: AppView)
    requires
        lists(a),
    ensures
        ({
            let (after, action) = a.on_key(KeyCode::Esc, false);
            &&& action == ActionView::Nothing
            &&& a.on_key(KeyCode::Char('q'), false) == (after, action)
            &&& after.stack.push(a.stack.last()) == a.stack
            &&& after.screen == if a.stack.len() > 1 {
                Screen::Detail
            } else {
                Screen::Picker
            }
            &&& after == (AppView { stack: after.stack, screen: after.screen, ..a })
        }),
{
    assert(a.stack.drop_last().push(a.stack.last()) =~= a.stack);
}

/// Enter on a tool call that spawned an agent whose session is known shows that session on top of
/// the others, from its first row on.
pub proof fn entering_a_spawned_agent_shows_its_session(a: AppView, i: usize, t: usize, c: usize)
    requires
        lists(a),
        a.stack.last().selected == Some(i),
        i < a.stack.last().rows.len(),
        a.stack.last().rows[i as int] == Row::Tool(t, c),
        t < a.stack.last().session.turns@.len(),
        c < a.stack.last().session.turns@[t as int].tool_calls@.len(),
        a.stack.last().session.turns@[t as int].tool_calls@[c as int].kind is SpawnAgent,
        a.stack.last().session.turns@[t as int].tool_calls@[c as int].worker_session is Some,
    ensures
        ({
            let tool = a.stack.last().session.turns@[t as int].tool_calls@[c as int];
            let worker = *tool.worker_session->0;
            let (after, action) = a.on_key(KeyCode::Enter, false);
            let open = after.stack.last();
            &&& action == ActionView::Stamp(worker.path@)
            &&& after == (AppView { stack: a.stack.push(open), ..a })
            &&& open.session == worker
            &&& open.path == worker.path@
            &&& open.rows == rows::session_rows(worker.turns@)
            &&& open.rows.len() > 0 ==> open.selected == Some(0usize)
            &&& open.focus == DetailFocus::List
            &&& forall|key: (usize, usize)| !#[trigger] open.expanded.contains(key)
        }),
{
}

/// Enter on any other row shows its full detail, from the top and with the first panel.
pub proof fn entering_a_row_shows_its_detail(a: AppView, i: usize)
    requires
        lists(a),
        a.stack.last().selected == Some(i),
        i < a.stack.last().rows.len(),
        match a.stack.last().rows[i as int] {
            Row::Tool(t, c) => t < a.stack.last().session.turns@.len() && c
                < a.stack.last().session.turns@[t as int].tool_calls@.len() ==> !(
            a.stack.last().session.turns@[t as int].tool_calls@[c as int].kind is SpawnAgent)
                || a.stack.last().session.turns@[t as int].tool_calls@[c as int].worker_session is None,
            _ => true,
        },
    ensures
        ({
            let (after, action) = a.on_key(KeyCode::Enter, false);
            &&& action == ActionView::Nothing
            &&& same_but_top(a, after)
            &&& after.stack.last() == (OpenView {
                focus: DetailFocus::Item,
                item_panel: ItemPanel::Primary,
                item_scroll: 0,
                ..a.stack.last()
            })
        }),
{
}

/// In the full detail of a row, Q, Escape and Enter lead back to the list, the keys to the left
/// and to the right choose the panel, and Home leads back to the top; nothing else changes.
pub proof fn keys_of_a_detail(a: AppView)
    requires
        details(a),
    ensures
        ({
            let open = a.stack.last();
            let back = a.on_key(KeyCode::Esc, false);
            let left = a.on_key(KeyCode::Left, false);
            let right = a.on_key(KeyCode::Right, false);
            let home = a.on_key(KeyCode::Home, false);
            &&& same_but_top(a, back.0) && same_but_top(a, left.0) && same_but_top(a, right.0)
                && same_but_top(a, home.0)
            &&& back.1 == ActionView::Nothing && left.1 == ActionView::Nothing && right.1
                == ActionView::Nothing && home.1 == ActionView::Nothing
            &&& back.0.stack.last() == (OpenView { focus: DetailFocus::List, ..open })
            &&& a.on_key(KeyCode::Char('q'), false) == back
            &&& a.on_key(KeyCode::Enter, false) == back
            &&& left.0.stack.last() == (OpenView { item_panel: ItemPanel::Primary, ..open })
            &&& a.on_key(KeyCode::Char('h'), false) == left
            &&& right.0.stack.last() == (OpenView { item_panel: ItemPanel::Secondary, ..open })
            &&& a.on_key(KeyCode::Char('l'), false) == right
            &&& home.0.stack.last() == (OpenView { item_scroll: 0, ..open })
        }),
{
}

/// In the full detail of a row the keys for it scroll, never above the top nor beyond what can
/// be counted, and change nothing else.
pub proof fn keys_scroll_a_detail(a: AppView, code: KeyCode, by: int)
    requires
        details(a),
        step(code) == Some(by),
    ensures
        ({
            let (after, action) = a.on_key(code, false);
            let open = a.stack.last();
            let now = after.stack.last();
            &&& action == ActionView::Nothing
            &&& same_but_top(a, after)
            &&& now == (OpenView { item_scroll: now.item_scroll, ..open })
            &&& 0 <= open.item_scroll + by <= 65_535 ==> now.item_scroll == open.item_scroll + by
            &&& open.item_scroll + by < 0 ==> now.item_scroll == 0
            &&& open.item_scroll + by > 65_535 ==> now.item_scroll == 65_535
        }),
{
}

/// A session that was read again takes the place of the one on top. The user stays where they
/// were: the same row is selected where the list still has it, and else the last one, and the
/// same tool calls are expanded. One that could not be read changes nothing.
pub proof fn refreshed_sessions_keep_the_place(a: AppView, session: CodexSession)
    requires
        a.stack.len() > 0,
    ensures
        ({
            let after = a.refreshed(Some(session));
            let open = a.stack.last();
            let now = after.stack.last();
            &&& same_but_top(a, after)
            &&& now.session == session
            &&& now.rows == rows::session_rows(session.turns@)
            &&& now == (OpenView {
                session: now.session,
                rows: now.rows,
                selected: now.selected,
                ..open
            })
            &&& now.rows.len() == 0 ==> now.selected is None
            &&& open.selected matches Some(i) ==> {
                &&& i < now.rows.len() ==> now.selected == Some(i)
                &&& 0 < now.rows.len() <= i ==> now.selected is Some && now.selected->0
                    == now.rows.len() - 1
            }
            &&& open.selected is None && now.rows.len() > 0 ==> now.selected == Some(0usize)
        }),
        a.refreshed(None) == a,
{
}

/// With time, the file of the shown session is looked at, and none where the picker is shown.
pub proof fn only_the_shown_file_is_watched(a: AppView)
    ensures
        a.screen == Screen::Detail && a.stack.len() > 0 ==> a.on_tick() == ActionView::Check(
            a.stack.last().path,
        ),
        a.screen == Screen::Picker ==> a.on_tick() == ActionView::Nothing,
{
}

/// A file that was modified since it was last looked at is read again, once; one whose time is
/// not known is not.
pub proof fn modified_files_are_read_again_once(a: AppView, mtime: FileTime)
    requires
        a.stack.len() > 0,
        a.stack.last().last_mtime != Some(mtime),
    ensures
        ({
            let (after, action) = a.on_modified(Some(mtime));
            &&& action == ActionView::Refresh(a.stack.last().path)
            &&& same_but_top(a, after)
            &&& after.stack.last() == (OpenView { last_mtime: Some(mtime), ..a.stack.last() })
            &&& after.on_modified(Some(mtime)) == (after, ActionView::Nothing)
        }),
        a.on_modified(None) == (a, ActionView::Nothing),
{
}

/// The interface starts with the picker and an empty query, no date collapsed, no session open.
pub proof fn the_start_is_the_picker(dir: Seq<char>, outcome: Result<Seq<InfoView>, Seq<char>>)
    ensures
        ({
            let a = AppView::start(dir).reloaded(outcome);
            &&& picks(a)
            &&& a.sessions_dir == dir
            &&& a.search_query.len() == 0
            &&& a.stack.len() == 0
            &&& !a.should_quit
            &&& forall|group: Seq<char>| !#[trigger] a.collapsed_groups.contains(group)
            &&& a.filtered_rows.len() > 0 ==> a.selected == Some(0usize)
        }),
{
}

} // verus!
