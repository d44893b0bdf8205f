//! The terminal interface as a state machine: keys and the outcomes of file access go in, the
//! next state and what is to be done with files come out.

use std::sync::Arc;

use vstd::prelude::*;

use crate::parser::cache::FileTime;
use crate::parser::discover::{CodexSessionInfo, InfoView};
use crate::parser::session::CodexSession;
use crate::text;
use crate::text_map::TextMap;
use crate::tui::open_session;
use crate::tui::open_session::{DetailFocus, ItemPanel, ListState, OpenSession, OpenView};
use crate::tui::picker;
use crate::tui::picker::{build_picker_rows, PickerRow, PickerRowView};

verus! {

#[derive(Debug, Clone, Copy, PartialEq, Eq, Structural)]
pub enum Screen {
    Picker,
    Detail,
}

/// A key that was pressed.
#[derive(Debug, Clone, Copy, PartialEq, Eq, Structural)]
pub enum KeyCode {
    Char(char),
    Enter,
    Esc,
    Backspace,
    Tab,
    Up,
    Down,
    Left,
    Right,
    PageUp,
    PageDown,
    Home,
    End,
    /// A key without a meaning here.
    Other,
}

/// What is to be done with files next.
#[derive(Debug)]
pub enum Action {
    Nothing,
    /// Discover the sessions and hand them to [`App::reload_sessions`].
    Reload,
    /// Parse the session at this path and hand it to [`App::show_session`].
    Open(String),
    /// Parse the session at this path again and hand it to [`App::refresh_session`].
    Refresh(String),
    /// Hand the modification time of the file at this path to [`App::stamp_session`].
    Stamp(String),
    /// Hand the modification time of the file at this path to [`App::on_modified`].
    Check(String),
}

/// The contents of an [`Action`].
pub enum ActionView {
    Nothing,
    Reload,
    Open(Seq<char>),
    Refresh(Seq<char>),
    Stamp(Seq<char>),
    Check(Seq<char>),
}

impl DeepView for Action {
    type V = ActionView;

    open spec fn deep_view(&self) -> ActionView {
        match *self {
            Action::Nothing => ActionView::Nothing,
            Action::Reload => ActionView::Reload,
            Action::Open(path) => ActionView::Open(path@),
            Action::Refresh(path) => ActionView::Refresh(path@),
            Action::Stamp(path) => ActionView::Stamp(path@),
            Action::Check(path) => ActionView::Check(path@),
        }
    }
}

pub const SCAN_FAILED: &'static str = "failed to scan sessions dir: ";

pub const PARSE_FAILED: &'static str = "failed to parse session: ";

/// How many lines the keys for a page move.
pub const PAGE: u16 = 10;

pub struct App {
    pub sessions_dir: String,
    pub sessions: Vec<CodexSessionInfo>,
    pub filtered_rows: Vec<PickerRow>,
    pub collapsed_groups: TextMap<()>,
    pub picker_state: ListState,
    pub search_mode: bool,
    pub search_query: String,
    pub screen: Screen,
    pub stack: Vec<OpenSession>,
    pub show_help: bool,
    pub status_message: Option<String>,
    pub should_quit: bool,
}

/// The contents of an [`App`].
#[verifier::ext_equal]
pub struct AppView {
    pub sessions_dir: Seq<char>,
    pub sessions: Seq<InfoView>,
    pub filtered_rows: Seq<PickerRowView>,
    pub collapsed_groups: Set<Seq<char>>,
    pub selected: Option<usize>,
    pub search_mode: bool,
    pub search_query: Seq<char>,
    pub screen: Screen,
    pub stack: Seq<OpenView>,
    pub show_help: bool,
    pub status_message: Option<Seq<char>>,
    pub should_quit: bool,
}

impl DeepView for App {
    type V = AppView;

    open spec fn deep_view(&self) -> AppView {
        AppView {
            sessions_dir: self.sessions_dir@,
            sessions: self.sessions.deep_view(),
            filtered_rows: self.filtered_rows.deep_view(),
            collapsed_groups: self.collapsed_groups@.dom(),
            selected: self.picker_state.selected,
            search_mode: self.search_mode,
            search_query: self.search_query@,
            screen: self.screen,
            stack: self.stack.deep_view(),
            show_help: self.show_help,
            status_message: self.status_message.deep_view(),
            should_quit: self.should_quit,
        }
    }
}

impl AppView {
    /// The picker without sessions.
    pub open spec fn start(sessions_dir: Seq<char>) -> AppView {
        AppView {
            sessions_dir,
            sessions: seq![],
            filtered_rows: seq![],
            collapsed_groups: Set::empty(),
            selected: None,
            search_mode: false,
            search_query: seq![],
            screen: Screen::Picker,
            stack: seq![],
            show_help: false,
            status_message: None,
            should_quit: false,
        }
    }

    /// The picker's rows made anew, the selection kept within them.
    pub open spec fn rebuilt(self) -> AppView {
        let rows = picker::picker_rows(self.sessions, self.search_query, self.collapsed_groups);
        AppView {
            filtered_rows: rows,
            selected: open_session::reselected(self.selected, rows.len()),
            ..self
        }
    }

    /// The outcome of a discovery.
    pub open spec fn reloaded(self, outcome: Result<Seq<InfoView>, Seq<char>>) -> AppView {
        match outcome {
            Ok(sessions) => AppView { sessions, status_message: None, ..self }.rebuilt(),
            Err(e) => AppView {
                sessions: seq![],
                status_message: Some(SCAN_FAILED@ + e),
                ..self
            }.rebuilt(),
        }
    }

    /// The outcome of opening a session from the picker.
    pub open spec fn opened(
        self,
        path: Seq<char>,
        outcome: Result<CodexSession, Seq<char>>,
        mtime: Option<FileTime>,
    ) -> AppView {
        match outcome {
            Ok(session) => AppView {
                stack: seq![OpenView::opened(session, path, mtime)],
                screen: Screen::Detail,
                status_message: None,
                ..self
            },
            Err(e) => AppView { status_message: Some(PARSE_FAILED@ + e), ..self },
        }
    }

    /// The open session on top replaced.
    pub open spec fn with_top(self, open: OpenView) -> AppView {
        AppView { stack: self.stack.update(self.stack.len() - 1, open), ..self }
    }

    /// The session on top as it was read again, where that succeeded.
    pub open spec fn refreshed(self, outcome: Option<CodexSession>) -> AppView {
        match outcome {
            Some(session) => if self.stack.len() > 0 {
                self.with_top(self.stack.last().refreshed(session))
            } else {
                self
            },
            None => self,
        }
    }

    /// The modification time of the file of the session on top noted.
    pub open spec fn stamped(self, mtime: Option<FileTime>) -> AppView {
        if self.stack.len() > 0 {
            self.with_top(OpenView { last_mtime: mtime, ..self.stack.last() })
        } else {
            self
        }
    }

    /// What a tick asks for: whether the file of the shown session has changed.
    pub open spec fn on_tick(self) -> ActionView {
        if self.screen == Screen::Detail && self.stack.len() > 0 {
            ActionView::Check(self.stack.last().path)
        } else {
            ActionView::Nothing
        }
    }

    /// The answer to a tick: a file with another modification time is read again.
    pub open spec fn on_modified(self, mtime: Option<FileTime>) -> (AppView, ActionView) {
        if self.stack.len() > 0 && mtime is Some && self.stack.last().last_mtime != mtime {
            (self.stamped(mtime), ActionView::Refresh(self.stack.last().path))
        } else {
            (self, ActionView::Nothing)
        }
    }

    pub open spec fn on_key(self, code: KeyCode, control: bool) -> (AppView, ActionView) {
        if control && code == KeyCode::Char('c') {
            (AppView { should_quit: true, ..self }, ActionView::Nothing)
        } else if self.show_help {
            let closes = code == KeyCode::Char('?') || code == KeyCode::Esc || code
                == KeyCode::Char('q') || code == KeyCode::Enter;
            (AppView { show_help: !closes, ..self }, ActionView::Nothing)
        } else if !self.search_mode && code == KeyCode::Char('?') {
            (AppView { show_help: true, ..self }, ActionView::Nothing)
        } else {
            match self.screen {
                Screen::Picker => self.on_key_picker(code),
                Screen::Detail => self.on_key_detail(code),
            }
        }
    }

    /// A key of the picker.
    pub open spec fn on_key_picker(self, code: KeyCode) -> (AppView, ActionView) {
        if self.search_mode {
            (self.searched(code), ActionView::Nothing)
        } else {
            match code {
                KeyCode::Char('q') => (AppView { should_quit: true, ..self }, ActionView::Nothing),
                KeyCode::Char('/') => (AppView { search_mode: true, ..self }, ActionView::Nothing),
                KeyCode::Char('r') => (self, ActionView::Reload),
                KeyCode::Down | KeyCode::Char('j') => (self.picker_moved(1), ActionView::Nothing),
                KeyCode::Up | KeyCode::Char('k') => (self.picker_moved(-1), ActionView::Nothing),
                KeyCode::PageDown => (self.picker_moved(PAGE as int), ActionView::Nothing),
                KeyCode::PageUp => (self.picker_moved(-(PAGE as int)), ActionView::Nothing),
                KeyCode::Home => (
                    if self.filtered_rows.len() > 0 {
                        AppView { selected: Some(0), ..self }
                    } else {
                        self
                    },
                    ActionView::Nothing,
                ),
                KeyCode::End => (
                    if self.filtered_rows.len() > 0 {
                        AppView { selected: Some((self.filtered_rows.len() - 1) as usize), ..self }
                    } else {
                        self
                    },
                    ActionView::Nothing,
                ),
                KeyCode::Enter | KeyCode::Char(' ') => self.activated(),
                _ => (self, ActionView::Nothing),
            }
        }
    }

    /// A key while the query is typed.
    pub open spec fn searched(self, code: KeyCode) -> AppView {
        match code {
            KeyCode::Esc => AppView { search_mode: false, search_query: seq![], ..self }.rebuilt(),
            KeyCode::Enter => AppView { search_mode: false, ..self },
            KeyCode::Backspace => AppView {
                search_query: if self.search_query.len() > 0 {
                    self.search_query.drop_last()
                } else {
                    self.search_query
                },
                ..self
            }.rebuilt(),
            KeyCode::Char(c) => AppView { search_query: self.search_query.push(c), ..self }.rebuilt(),
            _ => self,
        }
    }

    /// The picker's selection moved by some rows.
    pub open spec fn picker_moved(self, delta: int) -> AppView {
        AppView {
            selected: open_session::moved(self.selected, delta, self.filtered_rows.len()),
            ..self
        }
    }

    /// The selected row of the picker activated: a date is collapsed or expanded, a session is
    /// opened.
    pub open spec fn activated(self) -> (AppView, ActionView) {
        if self.selected is Some && self.selected->0 < self.filtered_rows.len() {
            match self.filtered_rows[self.selected->0 as int] {
                PickerRowView::DateHeader(group) => (
                    AppView {
                        collapsed_groups: if self.collapsed_groups.contains(group) {
                            self.collapsed_groups.remove(group)
                        } else {
                            self.collapsed_groups.insert(group)
                        },
                        ..self
                    }.rebuilt(),
                    ActionView::Nothing,
                ),
                PickerRowView::Session(i) => (self, self.opening(i)),
            }
        } else {
            (self, ActionView::Nothing)
        }
    }

    /// What opening the session at an index asks for.
    pub open spec fn opening(self, i: usize) -> ActionView {
        if i < self.sessions.len() {
            ActionView::Open(self.sessions[i as int].path)
        } else {
            ActionView::Nothing
        }
    }

    /// A key of an open session.
    pub open spec fn on_key_detail(self, code: KeyCode) -> (AppView, ActionView) {
        if self.stack.len() == 0 {
            (AppView { screen: Screen::Picker, ..self }, ActionView::Nothing)
        } else {
            match self.stack.last().focus {
                DetailFocus::List => self.on_key_detail_list(code),
                DetailFocus::Item => (self.on_key_detail_item(code), ActionView::Nothing),
            }
        }
    }

    /// A key of an open session's list.
    pub open spec fn on_key_detail_list(self, code: KeyCode) -> (AppView, ActionView) {
        let top = self.stack.last();
        match code {
            KeyCode::Char('q') | KeyCode::Esc => (
                AppView {
                    stack: self.stack.drop_last(),
                    screen: if self.stack.len() == 1 {
                        Screen::Picker
                    } else {
                        self.screen
                    },
                    ..self
                },
                ActionView::Nothing,
            ),
            KeyCode::Char('r') => (self, ActionView::Refresh(top.path)),
            KeyCode::Down | KeyCode::Char('j') => (
                self.with_top(top.moved_by(1)),
                ActionView::Nothing,
            ),
            KeyCode::Up | KeyCode::Char('k') => (
                self.with_top(top.moved_by(-1)),
                ActionView::Nothing,
            ),
            KeyCode::PageDown => (self.with_top(top.moved_by(PAGE as int)), ActionView::Nothing),
            KeyCode::PageUp => (self.with_top(top.moved_by(-(PAGE as int))), ActionView::Nothing),
            KeyCode::Home => (
                self.with_top(OpenView { selected: Some(0), ..top }),
                ActionView::Nothing,
            ),
            KeyCode::End => (
                if top.rows.len() > 0 {
                    self.with_top(
                        OpenView { selected: Some((top.rows.len() - 1) as usize), ..top },
                    )
                } else {
                    self
                },
                ActionView::Nothing,
            ),
            KeyCode::Tab => (self.with_top(top.toggled()), ActionView::Nothing),
            KeyCode::Char('e') => (self.with_top(top.with_all_expanded(true)), ActionView::Nothing),
            KeyCode::Char('c') => (
                self.with_top(top.with_all_expanded(false)),
                ActionView::Nothing,
            ),
            KeyCode::Enter => match top.worker() {
                Some(session) => (
                    AppView {
                        stack: self.stack.push(
                            OpenView::opened(session, session.path@, None),
                        ),
                        ..self
                    },
                    ActionView::Stamp(session.path@),
                ),
                None => (self.with_top(top.entered()), ActionView::Nothing),
            },
            _ => (self, ActionView::Nothing),
        }
    }

    /// A key of the full detail of a row.
    pub open spec fn on_key_detail_item(self, code: KeyCode) -> AppView {
        let top = self.stack.last();
        match code {
            KeyCode::Char('q') | KeyCode::Esc | KeyCode::Enter => self.with_top(
                OpenView { focus: DetailFocus::List, ..top },
            ),
            KeyCode::Left | KeyCode::Char('h') => self.with_top(
                OpenView { item_panel: ItemPanel::Primary, ..top },
            ),
            KeyCode::Right | KeyCode::Char('l') => self.with_top(
                OpenView { item_panel: ItemPanel::Secondary, ..top },
            ),
            KeyCode::Down | KeyCode::Char('j') => self.with_top(scrolled(top, 1)),
            KeyCode::Up | KeyCode::Char('k') => self.with_top(scrolled(top, -1)),
            KeyCode::PageDown => self.with_top(scrolled(top, PAGE as int)),
            KeyCode::PageUp => self.with_top(scrolled(top, -(PAGE as int))),
            KeyCode::Home => self.with_top(OpenView { item_scroll: 0, ..top }),
            _ => self,
        }
    }
}

/// The full detail of a row scrolled by some lines, as far as the scroll position can go.
pub open spec fn scrolled(open: OpenView, delta: int) -> OpenView {
    let next = open.item_scroll + delta;
    OpenView {
        item_scroll: (if next < 0 {
            0
        } else if next > u16::MAX {
            u16::MAX as int
        } else {
            next
        }) as u16,
        ..open
    }
}

/// The outcome of a discovery.
pub open spec fn discovery_outcome(
    outcome: Result<Vec<CodexSessionInfo>, String>,
) -> Result<Seq<InfoView>, Seq<char>> {
    match outcome {
        Ok(sessions) => Ok(sessions.deep_view()),
        Err(e) => Err(e@),
    }
}

/// The outcome of parsing a session.
pub open spec fn parse_outcome(
    outcome: Result<Arc<CodexSession>, String>,
) -> Result<CodexSession, Seq<char>> {
    match outcome {
        Ok(session) => Ok(*session),
        Err(e) => Err(e@),
    }
}

impl App {
    /// The interface over a sessions directory and what was discovered in it.
    pub fn new(sessions_dir: String, outcome: Result<Vec<CodexSessionInfo>, String>) -> (r: App)
        ensures
            r.deep_view() == AppView::start(sessions_dir@).reloaded(discovery_outcome(outcome)),
    {
        let ghost dir = sessions_dir@;
        let mut app = App {
            sessions_dir,
            sessions: Vec::new(),
            filtered_rows: Vec::new(),
            collapsed_groups: TextMap::new(),
            picker_state: ListState::new(),
            search_mode: false,
            search_query: String::new(),
            screen: Screen::Picker,
            stack: Vec::new(),
            show_help: false,
            status_message: None,
            should_quit: false,
        };
        assert(app.deep_view() =~= AppView::start(dir));
        app.reload_sessions(outcome);
        app
    }

    /// Takes over what was discovered.
    pub fn reload_sessions(&mut self, outcome: Result<Vec<CodexSessionInfo>, String>)
        ensures
            final(self).deep_view() == old(self).deep_view().reloaded(discovery_outcome(outcome)),
    {
        match outcome {
            Ok(sessions) => {
                self.sessions = sessions;
                self.status_message = None;
            },
            Err(e) => {
                self.sessions = Vec::new();
                self.status_message = Some(text::cat(SCAN_FAILED, e.as_str()));
                assert(self.sessions.deep_view() =~= seq![]);
            },
        }
        self.rebuild_picker_rows();
    }

    /// Makes the picker's rows anew.
    pub fn rebuild_picker_rows(&mut self)
        ensures
            final(self).deep_view() == old(self).deep_view().rebuilt(),
    {
        self.filtered_rows = build_picker_rows(
            &self.sessions,
            self.search_query.as_str(),
            &self.collapsed_groups,
        );
        self.picker_state.keep_within(self.filtered_rows.len());
    }

    /// What is to be looked at now that some time has passed.
    pub fn on_tick(&self) -> (r: Action)
        ensures
            r.deep_view() == self.deep_view().on_tick(),
    {
        if self.screen != Screen::Detail {
            return Action::Nothing;
        }
        let n = self.stack.len();
        if n == 0 {
            return Action::Nothing;
        }
        assert(self.deep_view().stack.last() == self.stack@[n - 1].deep_view());
        Action::Check(self.stack[n - 1].path.clone())
    }

    /// Takes note of when the file of the shown session was modified, where that is known.
    pub fn on_modified(&mut self, mtime: Option<FileTime>) -> (r: Action)
        ensures
            (final(self).deep_view(), r.deep_view()) == old(self).deep_view().on_modified(mtime),
    {
        let n = self.stack.len();
        if n == 0 {
            return Action::Nothing;
        }
        let ghost top = self.stack@[n - 1].deep_view();
        assert(self.deep_view().stack.last() == top);
        match mtime {
            Some(modified) => {
                let same = match self.stack[n - 1].last_mtime {
                    Some(last) => last == modified,
                    None => false,
                };
                if same {
                    return Action::Nothing;
                }
                let path = self.stack[n - 1].path.clone();
                self.stamp_session(mtime);
                Action::Refresh(path)
            },
            None => Action::Nothing,
        }
    }

    /// Notes when the file of the session on top was modified.
    pub fn stamp_session(&mut self, mtime: Option<FileTime>)
        ensures
            final(self).deep_view() == old(self).deep_view().stamped(mtime),
    {
        let ghost before = self.deep_view();
        let n = self.stack.len();
        if n > 0 {
            let ghost top = self.stack@[n - 1].deep_view();
            assert(before.stack.last() == top);
            self.stack[n - 1].last_mtime = mtime;
            assert(self.stack@[n - 1].deep_view() == (OpenView { last_mtime: mtime, ..top }));
            assert(self.deep_view() =~= before.stamped(mtime));
        }
    }

    /// Takes over the session on top as it was read again; where that failed, it stays as it is.
    pub fn refresh_session(&mut self, outcome: Option<Arc<CodexSession>>)
        ensures
            final(self).deep_view() == old(self).deep_view().refreshed(
                match outcome {
                    Some(s) => Some(*s),
                    None => None,
                },
            ),
    {
        let ghost before = self.deep_view();
        let n = self.stack.len();
        if let Some(session) = outcome {
            if n > 0 {
                let ghost top = self.stack@[n - 1].deep_view();
                assert(before.stack.last() == top);
                self.stack[n - 1].refresh(session);
                assert(self.deep_view() =~= before.with_top(top.refreshed(*session)));
            }
        }
    }

    /// Shows the session that was opened from the picker, or says why it cannot be shown.
    pub fn show_session(
        &mut self,
        path: String,
        outcome: Result<Arc<CodexSession>, String>,
        mtime: Option<FileTime>,
    )
        ensures
            final(self).deep_view() == old(self).deep_view().opened(
                path@,
                parse_outcome(outcome),
                mtime,
            ),
    {
        let ghost before = self.deep_view();
        match outcome {
            Ok(session) => {
                let open = OpenSession::new(session, path, mtime);
                let ghost ov = open.deep_view();
                let mut stack: Vec<OpenSession> = Vec::new();
                stack.push(open);
                assert(stack.deep_view() =~= seq![ov]);
                self.stack = stack;
                self.screen = Screen::Detail;
                self.status_message = None;
            },
            Err(e) => {
                self.status_message = Some(text::cat(PARSE_FAILED, e.as_str()));
            },
        }
    }

    /// Reacts to a key.
    pub fn on_key(&mut self, code: KeyCode, control: bool) -> (r: Action)
        ensures
            (final(self).deep_view(), r.deep_view()) == old(self).deep_view().on_key(code, control),
    {
        if control && code == KeyCode::Char('c') {
            self.should_quit = true;
            return Action::Nothing;
        }
        if self.show_help {
            if code == KeyCode::Char('?') || code == KeyCode::Esc || code == KeyCode::Char('q')
                || code == KeyCode::Enter {
                self.show_help = false;
            }
            return Action::Nothing;
        }
        if !self.search_mode && code == KeyCode::Char('?') {
            self.show_help = true;
            return Action::Nothing;
        }
        match self.screen {
            Screen::Picker => self.on_key_picker(code),
            Screen::Detail => self.on_key_detail(code),
        }
    }

    /// Reacts to a key of the picker.
    pub fn on_key_picker(&mut self, code: KeyCode) -> (r: Action)
        ensures
            (final(self).deep_view(), r.deep_view()) == old(self).deep_view().on_key_picker(code),
    {
        if self.search_mode {
            self.search_key(code);
            return Action::Nothing;
        }
        match code {
            KeyCode::Char('q') => {
                self.should_quit = true;
            },
            KeyCode::Char('/') => {
                self.search_mode = true;
            },
            KeyCode::Char('r') => {
                return Action::Reload;
            },
            KeyCode::Down | KeyCode::Char('j') => {
                self.move_picker(1);
            },
            KeyCode::Up | KeyCode::Char('k') => {
                self.move_picker(-1);
            },
            KeyCode::PageDown => {
                self.move_picker(PAGE as i32);
            },
            KeyCode::PageUp => {
                self.move_picker(-(PAGE as i32));
            },
            KeyCode::Home => {
                if self.filtered_rows.len() > 0 {
                    self.picker_state.select(Some(0));
                }
            },
            KeyCode::End => {
                let n = self.filtered_rows.len();
                if n > 0 {
                    self.picker_state.select(Some(n - 1));
                }
            },
            KeyCode::Enter | KeyCode::Char(' ') => {
                return self.activate_picker_row();
            },
            _ => {},
        }
        Action::Nothing
    }

    fn search_key(&mut self, code: KeyCode)
        ensures
            final(self).deep_view() == old(self).deep_view().searched(code),
    {
        match code {
            KeyCode::Esc => {
                self.search_mode = false;
                self.search_query = String::new();
                assert(self.search_query@ =~= seq![]);
                self.rebuild_picker_rows();
            },
            KeyCode::Enter => {
                self.search_mode = false;
            },
            KeyCode::Backspace => {
                let chars = text::chars_of(self.search_query.as_str());
                let n = chars.len();
                if n > 0 {
                    assert(chars@.subrange(0, n - 1) =~= chars@.drop_last());
                    self.search_query = text::string_of(chars.as_slice(), 0, n - 1);
                }
                self.rebuild_picker_rows();
            },
            KeyCode::Char(c) => {
                self.search_query.push(c);
                self.rebuild_picker_rows();
            },
            _ => {},
        }
    }

    /// Moves the picker's selection by some rows, stopping at the ends of the list.
    pub fn move_picker(&mut self, delta: i32)
        ensures
            final(self).deep_view() == old(self).deep_view().picker_moved(delta as int),
    {
        self.picker_state.move_by(delta, self.filtered_rows.len());
    }

    /// Activates the selected row of the picker.
    pub fn activate_picker_row(&mut self) -> (r: Action)
        ensures
            (final(self).deep_view(), r.deep_view()) == old(self).deep_view().activated(),
    {
        let ghost before = self.deep_view();
        let sel = match self.picker_state.selected() {
            Some(sel) => sel,
            None => {
                return Action::Nothing;
            },
        };
        if sel >= self.filtered_rows.len() {
            return Action::Nothing;
        }
        assert(before.filtered_rows[sel as int] == self.filtered_rows@[sel as int].deep_view());
        let (group, index) = match &self.filtered_rows[sel] {
            PickerRow::DateHeader(group) => (Some(group.clone()), 0usize),
            PickerRow::Session(i) => (None, *i),
        };
        match group {
            Some(group) => {
                let ghost collapsed = self.collapsed_groups@.dom();
                if !self.collapsed_groups.remove(group.as_str()) {
                    self.collapsed_groups.insert(group.as_str(), ());
                    assert(self.collapsed_groups@.dom() =~= collapsed.insert(group@));
                } else {
                    assert(self.collapsed_groups@.dom() =~= collapsed.remove(group@));
                }
                self.rebuild_picker_rows();
                Action::Nothing
            },
            None => self.open_session_by_index(index),
        }
    }

    /// What opening the session at an index asks for.
    pub fn open_session_by_index(&self, idx: usize) -> (r: Action)
        ensures
            r.deep_view() == self.deep_view().opening(idx),
    {
        if idx < self.sessions.len() {
            assert(self.deep_view().sessions[idx as int] == self.sessions@[idx as int].deep_view());
            Action::Open(self.sessions[idx].path.clone())
        } else {
            Action::Nothing
        }
    }

    fn on_key_detail(&mut self, code: KeyCode) -> (r: Action)
        ensures
            (final(self).deep_view(), r.deep_view()) == old(self).deep_view().on_key_detail(code),
    {
        let n = self.stack.len();
        if n == 0 {
            self.screen = Screen::Picker;
            return Action::Nothing;
        }
        assert(self.deep_view().stack.last() == self.stack@[n - 1].deep_view());
        match self.stack[n - 1].focus {
            DetailFocus::List => self.on_key_detail_list(code),
            DetailFocus::Item => {
                self.on_key_detail_item(code);
                Action::Nothing
            },
        }
    }

    fn on_key_detail_list(&mut self, code: KeyCode) -> (r: Action)
        requires
            old(self).stack@.len() > 0,
        ensures
            (final(self).deep_view(), r.deep_view()) == old(self).deep_view().on_key_detail_list(
                code,
            ),
    {
        let ghost before = self.deep_view();
        let n = self.stack.len();
        let top: usize = n - 1;
        let ghost tv = self.stack@[top as int].deep_view();
        assert(before.stack.last() == tv);
        match code {
            KeyCode::Char('q') | KeyCode::Esc => {
                self.stack.pop();
                assert(self.stack.deep_view() =~= before.stack.drop_last());
                if n == 1 {
                    self.screen = Screen::Picker;
                }
                return Action::Nothing;
            },
            KeyCode::Char('r') => {
                return Action::Refresh(self.stack[top].path.clone());
            },
            KeyCode::Down | KeyCode::Char('j') => {
                self.stack[top].move_selection(1);
            },
            KeyCode::Up | KeyCode::Char('k') => {
                self.stack[top].move_selection(-1);
            },
            KeyCode::PageDown => {
                self.stack[top].move_selection(PAGE as i32);
            },
            KeyCode::PageUp => {
                self.stack[top].move_selection(-(PAGE as i32));
            },
            KeyCode::Home => {
                self.stack[top].list_state.select(Some(0));
                assert(self.stack@[top as int].deep_view() == (OpenView {
                    selected: Some(0),
                    ..tv
                }));
            },
            KeyCode::End => {
                let rows = self.stack[top].rows.len();
                if rows > 0 {
                    self.stack[top].list_state.select(Some(rows - 1));
                    assert(self.stack@[top as int].deep_view() == (OpenView {
                        selected: Some((rows - 1) as usize),
                        ..tv
                    }));
                }
            },
            KeyCode::Tab => {
                self.stack[top].toggle_expand_selected();
            },
            KeyCode::Char('e') => {
                self.stack[top].set_all_expanded(true);
            },
            KeyCode::Char('c') => {
                self.stack[top].set_all_expanded(false);
            },
            KeyCode::Enter => {
                match self.stack[top].selected_worker_session() {
                    Some(session) => {
                        let path = session.path.clone();
                        let open = OpenSession::new(session, path.clone(), None);
                        let ghost ov = open.deep_view();
                        self.stack.push(open);
                        assert(self.stack.deep_view() =~= before.stack.push(ov));
                        return Action::Stamp(path);
                    },
                    None => {
                        self.stack[top].enter_item_view();
                    },
                }
            },
            _ => {},
        }
        assert(self.stack.deep_view() =~= before.on_key_detail_list(code).0.stack);
        Action::Nothing
    }

    fn on_key_detail_item(&mut self, code: KeyCode)
        requires
            old(self).stack@.len() > 0,
        ensures
            final(self).deep_view() == old(self).deep_view().on_key_detail_item(code),
    {
        let ghost before = self.deep_view();
        let top: usize = self.stack.len() - 1;
        let ghost tv = self.stack@[top as int].deep_view();
        assert(before.stack.last() == tv);
        let scroll: u16 = self.stack[top].item_scroll;
        match code {
            KeyCode::Char('q') | KeyCode::Esc | KeyCode::Enter => {
                self.stack[top].focus = DetailFocus::List;
            },
            KeyCode::Left | KeyCode::Char('h') => {
                self.stack[top].item_panel = ItemPanel::Primary;
            },
            KeyCode::Right | KeyCode::Char('l') => {
                self.stack[top].item_panel = ItemPanel::Secondary;
            },
            KeyCode::Down | KeyCode::Char('j') => {
                self.stack[top].item_scroll = scroll.saturating_add(1);
            },
            KeyCode::Up | KeyCode::Char('k') => {
                self.stack[top].item_scroll = scroll.saturating_sub(1);
            },
            KeyCode::PageDown => {
                self.stack[top].item_scroll = scroll.saturating_add(PAGE);
            },
            KeyCode::PageUp => {
                self.stack[top].item_scroll = scroll.saturating_sub(PAGE);
            },
            KeyCode::Home => {
                self.stack[top].item_scroll = 0;
            },
            _ => {},
        }
        assert(self.stack.deep_view() =~= before.on_key_detail_item(code).stack);
    }
}

} // verus!
