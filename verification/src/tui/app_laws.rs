//! What holds of the terminal interface in every state.

use vstd::prelude::*;

use crate::parser::cache::FileTime;
use crate::parser::discover::InfoView;
use crate::parser::session::CodexSession;
use crate::text;
use crate::tui::app;
use crate::tui::app::{ActionView, AppView, KeyCode, Screen};
use crate::tui::open_session;
use crate::tui::open_session::{DetailFocus, OpenView};
use crate::tui::picker;
use crate::tui::picker::PickerRowView;
use crate::tui::rows;
use crate::tui::rows::Row;

verus! {

/// Whether a selection lies within a list: a list with lines has one selected.
pub open spec fn selects_within(selected: Option<usize>, len: nat) -> bool {
    match selected {
        Some(i) => i < len,
        None => len == 0,
    }
}

/// Whether an open session is in order: its rows are those of the session, and of a list with
/// rows one is selected.
pub open spec fn open_in_order(open: OpenView) -> bool {
    &&& open.rows == rows::session_rows(open.session.turns@)
    &&& open.rows.len() > 0 ==> selects_within(open.selected, open.rows.len())
}

/// Whether the interface is in order: the picker lists what the query finds, its selection lies
/// within the list, the open sessions are in order, and there is one where one is shown.
pub open spec fn in_order(a: AppView) -> bool {
    &&& a.filtered_rows == picker::picker_rows(a.sessions, a.search_query, a.collapsed_groups)
    &&& selects_within(a.selected, a.filtered_rows.len())
    &&& a.screen == Screen::Detail ==> a.stack.len() > 0
    &&& forall|k: int| 0 <= k < a.stack.len() ==> open_in_order(#[trigger] a.stack[k])
}

/// Whether the lists of the interface have lengths that a machine can hold.
pub open spec fn fits(a: AppView) -> bool {
    &&& a.filtered_rows.len() <= usize::MAX
    &&& forall|k: int| 0 <= k < a.stack.len() ==> (#[trigger] a.stack[k]).rows.len() <= usize::MAX
}

/// A rebuilt picker is in order but for the open sessions, which it leaves alone.
proof fn lemma_rebuilt(a: AppView)
    requires
        a.screen == Screen::Detail ==> a.stack.len() > 0,
        forall|k: int| 0 <= k < a.stack.len() ==> open_in_order(#[trigger] a.stack[k]),
        fits(a.rebuilt()),
    ensures
        in_order(a.rebuilt()),
{
    assert(a.rebuilt().stack == a.stack);
}

proof fn lemma_with_top(a: AppView, open: OpenView)
    requires
        in_order(a),
        a.stack.len() > 0,
        open_in_order(open),
    ensures
        in_order(a.with_top(open)),
{
    let after = a.with_top(open);
    assert forall|k: int| 0 <= k < after.stack.len() implies open_in_order(
        #[trigger] after.stack[k],
    ) by {
        if k < after.stack.len() - 1 {
            assert(after.stack[k] == a.stack[k]);
        }
    }
}

/// The interface starts in order, whatever was discovered.
pub proof fn the_start_is_in_order(
    sessions_dir: Seq<char>,
    outcome: Result<Seq<InfoView>, Seq<char>>,
)
    requires
        fits(AppView::start(sessions_dir).reloaded(outcome)),
    ensures
        in_order(AppView::start(sessions_dir).reloaded(outcome)),
{
    match outcome {
        Ok(sessions) => {
            lemma_rebuilt(
                AppView { sessions, status_message: None, ..AppView::start(sessions_dir) },
            );
        },
        Err(e) => {
            lemma_rebuilt(
                AppView {
                    sessions: seq![],
                    status_message: Some(app::SCAN_FAILED@ + e),
                    ..AppView::start(sessions_dir)
                },
            );
        },
    }
}

/// A discovery keeps the interface in order.
pub proof fn reloading_keeps_order(a: AppView, outcome: Result<Seq<InfoView>, Seq<char>>)
    requires
        in_order(a),
        fits(a.reloaded(outcome)),
    ensures
        in_order(a.reloaded(outcome)),
{
    match outcome {
        Ok(sessions) => {
            lemma_rebuilt(AppView { sessions, status_message: None, ..a });
        },
        Err(e) => {
            lemma_rebuilt(
                AppView {
                    sessions: seq![],
                    status_message: Some(app::SCAN_FAILED@ + e),
                    ..a
                },
            );
        },
    }
}

/// Opening a session, or failing to, keeps the interface in order.
pub proof fn opening_keeps_order(
    a: AppView,
    path: Seq<char>,
    outcome: Result<CodexSession, Seq<char>>,
    mtime: Option<FileTime>,
)
    requires
        in_order(a),
    ensures
        in_order(a.opened(path, outcome, mtime)),
{
}

/// Reading the shown session again keeps the interface in order.
pub proof fn refreshing_keeps_order(a: AppView, outcome: Option<CodexSession>)
    requires
        in_order(a),
        fits(a.refreshed(outcome)),
    ensures
        in_order(a.refreshed(outcome)),
{
    if let Some(session) = outcome {
        if a.stack.len() > 0 {
            let top = a.stack.last().refreshed(session);
            assert(a.refreshed(outcome).stack[a.stack.len() - 1] == top);
            lemma_with_top(a, top);
        }
    }
}

/// A tick and its answer keep the interface in order.
pub proof fn ticking_keeps_order(a: AppView, mtime: Option<FileTime>)
    requires
        in_order(a),
    ensures
        in_order(a.stamped(mtime)),
        in_order(a.on_modified(mtime).0),
{
    if a.stack.len() > 0 {
        assert(open_in_order(a.stack[a.stack.len() - 1]));
        lemma_with_top(a, OpenView { last_mtime: mtime, ..a.stack.last() });
    }
}

/// Every key keeps the interface in order.
#[verifier::rlimit(40)]
pub proof fn keys_keep_order(a: AppView, code: KeyCode, control: bool)
    requires
        in_order(a),
        fits(a),
        fits(a.on_key(code, control).0),
    ensures
        in_order(a.on_key(code, control).0),
{
    if !(control && code == KeyCode::Char('c')) && !a.show_help && !(!a.search_mode && code
        == KeyCode::Char('?')) {
        match a.screen {
            Screen::Picker => lemma_picker_key(a, code),
            Screen::Detail => match a.stack.last().focus {
                DetailFocus::List => lemma_list_key(a, code),
                DetailFocus::Item => lemma_item_key(a, code),
            },
        }
    }
}

proof fn lemma_picker_key(a: AppView, code: KeyCode)
    requires
        in_order(a),
        fits(a),
        fits(a.on_key_picker(code).0),
    ensures
        in_order(a.on_key_picker(code).0),
{
    if a.search_mode {
        match code {
            KeyCode::Esc => {
                lemma_rebuilt(AppView { search_mode: false, search_query: seq![], ..a });
            },
            KeyCode::Backspace => {
                lemma_rebuilt(
                    AppView {
                        search_query: if a.search_query.len() > 0 {
                            a.search_query.drop_last()
                        } else {
                            a.search_query
                        },
                        ..a
                    },
                );
            },
            KeyCode::Char(c) => {
                lemma_rebuilt(AppView { search_query: a.search_query.push(c), ..a });
            },
            _ => {},
        }
    } else if code == KeyCode::Enter || code == KeyCode::Char(' ') {
        if a.selected is Some && a.selected->0 < a.filtered_rows.len() {
            if let PickerRowView::DateHeader(group) = a.filtered_rows[a.selected->0 as int] {
                lemma_rebuilt(
                    AppView {
                        collapsed_groups: if a.collapsed_groups.contains(group) {
                            a.collapsed_groups.remove(group)
                        } else {
                            a.collapsed_groups.insert(group)
                        },
                        ..a
                    },
                );
            }
        }
    }
}

proof fn lemma_list_key(a: AppView, code: KeyCode)
    requires
        in_order(a),
        fits(a),
        a.stack.len() > 0,
    ensures
        in_order(a.on_key_detail_list(code).0),
{
    let top = a.stack.last();
    assert(a.stack[a.stack.len() - 1] == top);
    let after = a.on_key_detail_list(code).0;
    match code {
        KeyCode::Char('q') | KeyCode::Esc => {
            assert forall|k: int| 0 <= k < after.stack.len() implies open_in_order(
                #[trigger] after.stack[k],
            ) by {
                assert(after.stack[k] == a.stack[k]);
            }
        },
        KeyCode::Char('r') => {},
        KeyCode::Down | KeyCode::Char('j') => lemma_with_top(a, top.moved_by(1)),
        KeyCode::Up | KeyCode::Char('k') => lemma_with_top(a, top.moved_by(-1)),
        KeyCode::PageDown => lemma_with_top(a, top.moved_by(app::PAGE as int)),
        KeyCode::PageUp => lemma_with_top(a, top.moved_by(-(app::PAGE as int))),
        KeyCode::Home => lemma_with_top(a, OpenView { selected: Some(0), ..top }),
        KeyCode::End => {
            if top.rows.len() > 0 {
                lemma_with_top(
                    a,
                    OpenView { selected: Some((top.rows.len() - 1) as usize), ..top },
                );
            }
        },
        KeyCode::Tab => lemma_with_top(a, top.toggled()),
        KeyCode::Char('e') => lemma_with_top(a, top.with_all_expanded(true)),
        KeyCode::Char('c') => lemma_with_top(a, top.with_all_expanded(false)),
        KeyCode::Enter => {
            match top.worker() {
                Some(session) => {
                    assert forall|k: int| 0 <= k < after.stack.len() implies open_in_order(
                        #[trigger] after.stack[k],
                    ) by {
                        if k < a.stack.len() {
                            assert(after.stack[k] == a.stack[k]);
                        }
                    }
                },
                None => lemma_with_top(a, top.entered()),
            }
        },
        _ => {},
    }
}

proof fn lemma_item_key(a: AppView, code: KeyCode)
    requires
        in_order(a),
        a.stack.len() > 0,
    ensures
        in_order(a.on_key_detail_item(code)),
{
    let top = a.stack.last();
    assert(a.stack[a.stack.len() - 1] == top);
    let after = a.on_key_detail_item(code);
    assert(after.stack.len() == a.stack.len());
    let now = after.stack[a.stack.len() - 1];
    assert(now.rows == top.rows && now.selected == top.selected && now.session == top.session);
    assert forall|k: int| 0 <= k < after.stack.len() implies open_in_order(
        #[trigger] after.stack[k],
    ) by {
        if k < a.stack.len() - 1 {
            assert(after.stack[k] == a.stack[k]);
        }
    }
}

/// Control and C quits, whatever is shown, and changes nothing else.
pub proof fn control_c_always_quits(a: AppView)
    ensures
        a.on_key(KeyCode::Char('c'), true) == (
            AppView { should_quit: true, ..a },
            ActionView::Nothing,
        ),
{
}

/// But for control and C, only Q in the picker quits, and not while the help is shown or a query
/// is typed.
pub proof fn few_keys_quit(a: AppView, code: KeyCode, control: bool)
    requires
        !a.should_quit,
        a.on_key(code, control).0.should_quit,
    ensures
        (control && code == KeyCode::Char('c')) || (code == KeyCode::Char('q') && a.screen
            == Screen::Picker && !a.show_help && !a.search_mode),
{
}

/// While the help is shown, a key does nothing but close it or quit.
pub proof fn help_swallows_keys(a: AppView, code: KeyCode, control: bool)
    requires
        a.show_help,
        !(control && code == KeyCode::Char('c')),
    ensures
        a.on_key(code, control).1 == ActionView::Nothing,
        a.on_key(code, control).0 == (AppView {
            show_help: a.on_key(code, control).0.show_help,
            ..a
        }),
{
}

/// Escape ends a search and brings the whole list back.
pub proof fn escape_clears_the_search(a: AppView)
    requires
        a.search_mode,
        !a.show_help,
        a.screen == Screen::Picker,
    ensures
        ({
            let after = a.on_key(KeyCode::Esc, false).0;
            &&& !after.search_mode
            &&& after.search_query == Seq::<char>::empty()
            &&& after.filtered_rows == picker::picker_rows(a.sessions, seq![], a.collapsed_groups)
        }),
{
}

/// Enter ends the typing and keeps the list as it is.
pub proof fn enter_keeps_the_search(a: AppView)
    requires
        a.search_mode,
        !a.show_help,
        a.screen == Screen::Picker,
    ensures
        a.on_key(KeyCode::Enter, false).0 == (AppView { search_mode: false, ..a }),
{
}

/// Taking back a typed character restores the query and the list.
pub proof fn backspace_takes_back(a: AppView, c: char)
    requires
        in_order(a),
        a.search_mode,
    ensures
        a.searched(KeyCode::Char(c)).searched(KeyCode::Backspace).search_query == a.search_query,
        a.searched(KeyCode::Char(c)).searched(KeyCode::Backspace).filtered_rows == a.filtered_rows,
{
    assert(a.search_query.push(c).drop_last() =~= a.search_query);
}

/// Up to the first header of a date, the list does not depend on whether that date is collapsed.
proof fn lemma_header_stays(
    sessions: Seq<InfoView>,
    query: Seq<char>,
    before: Set<Seq<char>>,
    after: Set<Seq<char>>,
    group: Seq<char>,
    i: int,
    p: int,
)
    requires
        0 <= i <= sessions.len(),
        forall|g: Seq<char>| g != group ==> (#[trigger] before.contains(g) <==> after.contains(g)),
        0 <= p < picker::rows_from(sessions, query, before, i).len(),
        picker::rows_from(sessions, query, before, i)[p] == PickerRowView::DateHeader(group),
        forall|k: int|
            0 <= k < p ==> #[trigger] picker::rows_from(sessions, query, before, i)[k]
                != PickerRowView::DateHeader(group),
    ensures
        p < picker::rows_from(sessions, query, after, i).len(),
        picker::rows_from(sessions, query, after, i)[p] == PickerRowView::DateHeader(group),
    decreases sessions.len() - i,
{
    let rows = picker::rows_from(sessions, query, before, i);
    let date = sessions[i].date_group;
    let end = picker::group_end(sessions, date, i);
    picker::lemma_group_end(sessions, date, i);
    let here = picker::group_rows(sessions, query, before, i, end);
    let rest = picker::rows_from(sessions, query, before, end);
    let inner = picker::group_sessions(sessions, query, i, end);
    if date == group && inner.len() > 0 {
        assert(rows[0] == PickerRowView::DateHeader(group));
        assert(p == 0);
        assert(picker::rows_from(sessions, query, after, i)[0] == PickerRowView::DateHeader(group));
    } else {
        assert(picker::group_rows(sessions, query, after, i, end) == here);
        if p < here.len() {
            assert(rows[p] == here[p]);
            if p > 0 {
                assert(here[p] == inner[p - 1]);
                lemma_rows_of_sessions(sessions, query, i, end, p - 1);
            }
        } else {
            assert forall|k: int| 0 <= k < p - here.len() implies #[trigger] rest[k]
                != PickerRowView::DateHeader(group) by {
                assert(rows[here.len() + k] == rest[k]);
            }
            assert(rest[p - here.len()] == rows[p]);
            lemma_header_stays(sessions, query, before, after, group, end, p - here.len());
        }
    }
}

proof fn lemma_rows_of_sessions(sessions: Seq<InfoView>, query: Seq<char>, i: int, end: int, k: int)
    requires
        0 <= k < picker::group_sessions(sessions, query, i, end).len(),
    ensures
        picker::group_sessions(sessions, query, i, end)[k] is Session,
    decreases end - i,
{
    if k < picker::group_sessions(sessions, query, i, end - 1).len() {
        lemma_rows_of_sessions(sessions, query, i, end - 1, k);
    }
}

/// Activating a date's header twice restores the list, where no other header of that date stands
/// before it.
pub proof fn toggling_a_date_twice_restores_the_list(a: AppView, i: usize, group: Seq<char>)
    requires
        in_order(a),
        a.selected == Some(i),
        a.filtered_rows[i as int] == PickerRowView::DateHeader(group),
        forall|k: int|
            0 <= k < i ==> #[trigger] a.filtered_rows[k] != PickerRowView::DateHeader(group),
    ensures
        a.activated().0.activated().0.collapsed_groups == a.collapsed_groups,
        a.activated().0.activated().0.filtered_rows == a.filtered_rows,
{
    let once = a.activated().0;
    let c = a.collapsed_groups;
    lemma_header_stays(
        a.sessions,
        text::lowered(a.search_query),
        c,
        once.collapsed_groups,
        group,
        0,
        i as int,
    );
    assert(once.selected == Some(i));
    if c.contains(group) {
        assert(c.remove(group).insert(group) =~= c);
    } else {
        assert(c.insert(group).remove(group) =~= c);
    }
}

/// Expanding and collapsing the selected tool call restores the expanded ones.
pub proof fn toggling_a_tool_call_twice_restores_it(open: OpenView)
    ensures
        open.toggled().toggled() == open,
{
    if let Some(Row::Tool(t, c)) = open.selected_row() {
        let key = (t, c);
        if open.expanded.contains(key) {
            assert(open.expanded.remove(key).insert(key) =~= open.expanded);
        } else {
            assert(open.expanded.insert(key).remove(key) =~= open.expanded);
        }
    }
}

/// Collapsing all after expanding all leaves no tool call expanded.
pub proof fn collapsing_all_leaves_none_expanded(open: OpenView, expand: bool)
    ensures
        open.with_all_expanded(expand).with_all_expanded(false).expanded == Set::<
            (usize, usize),
        >::empty(),
        open.with_all_expanded(false).with_all_expanded(true).expanded == open_session::tool_keys(
            open.rows,
        ),
{
    assert(Set::<(usize, usize)>::empty().union(open_session::tool_keys(open.rows))
        =~= open_session::tool_keys(open.rows));
}

/// Going into a spawned agent's session and back leaves the interface as it was.
pub proof fn leaving_a_worker_returns(a: AppView, mtime: Option<FileTime>)
    requires
        a.screen == Screen::Detail,
        a.stack.len() > 0,
        a.stack.last().worker() is Some,
    ensures
        a.on_key_detail_list(KeyCode::Enter).0.stamped(mtime).on_key_detail_list(KeyCode::Esc).0
            == a,
{
    let inside = a.on_key_detail_list(KeyCode::Enter).0;
    let stamped = inside.stamped(mtime);
    assert(stamped.stack.len() == a.stack.len() + 1);
    assert(stamped.stack.drop_last() =~= a.stack);
}

/// Leaving the last open session leads back to the picker, which is as it was.
pub proof fn leaving_the_last_session_shows_the_picker(a: AppView)
    requires
        a.screen == Screen::Detail,
        a.stack.len() == 1,
        a.stack.last().focus == DetailFocus::List,
        !a.show_help,
        !a.search_mode,
    ensures
        ({
            let after = a.on_key(KeyCode::Esc, false).0;
            &&& after.screen == Screen::Picker
            &&& after.stack.len() == 0
            &&& after.filtered_rows == a.filtered_rows
            &&& after.selected == a.selected
        }),
{
}

/// A moved selection lies within the list, and moves exactly as far as the ends allow.
pub proof fn moves_stop_at_the_ends(selected: Option<usize>, delta: int, len: nat)
    requires
        0 < len <= usize::MAX,
        selects_within(selected, len),
    ensures
        selects_within(open_session::moved(selected, delta, len), len),
        0 <= selected->0 + delta < len ==> open_session::moved(selected, delta, len)->0
            == selected->0 + delta,
        selected->0 + delta < 0 ==> open_session::moved(selected, delta, len) == Some(0usize),
        selected->0 + delta >= len ==> open_session::moved(selected, delta, len)->0 == len - 1,
{
}

/// A session that has not changed on disk is not read again.
pub proof fn unchanged_files_are_not_read_again(a: AppView, mtime: FileTime)
    requires
        a.stack.len() > 0,
    ensures
        a.stamped(Some(mtime)).on_modified(Some(mtime)) == (
            a.stamped(Some(mtime)),
            ActionView::Nothing,
        ),
{
}

} // verus!
