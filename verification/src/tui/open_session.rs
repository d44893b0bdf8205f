//! An open session and the place of the user in it.

use std::sync::Arc;

use vstd::prelude::*;

use crate::pair_set::PairSet;
use crate::parser::cache::FileTime;
use crate::parser::session::CodexSession;
use crate::parser::toolcall::ToolKind;
use crate::tui::rows;
use crate::tui::rows::{build_rows, Row};

verus! {

#[derive(Debug, Clone, Copy, PartialEq, Eq, Structural)]
pub enum DetailFocus {
    List,
    Item,
}

#[derive(Debug, Clone, Copy, PartialEq, Eq, Structural)]
pub enum ItemPanel {
    Primary,
    Secondary,
}

/// Which line of a list is selected.
#[derive(Debug, Clone, Copy, PartialEq, Eq, Structural)]
pub struct ListState {
    pub selected: Option<usize>,
}

/// A selection moved by some lines within a list, stopping at its ends.
pub open spec fn moved(selected: Option<usize>, delta: int, len: nat) -> Option<usize> {
    if len == 0 {
        selected
    } else {
        let current = match selected {
            Some(i) => i as int,
            None => 0,
        };
        let next = current + delta;
        Some(
            (if next < 0 {
                0
            } else if next > len - 1 {
                len - 1
            } else {
                next
            }) as usize,
        )
    }
}

/// A selection after the list has changed: it stays where it is within the list, falls back to
/// its last line, and starts at the first line of a list that had none selected.
pub open spec fn reselected(selected: Option<usize>, len: nat) -> Option<usize> {
    match selected {
        Some(i) => if i >= len {
            if len == 0 {
                None
            } else {
                Some((len - 1) as usize)
            }
        } else {
            selected
        },
        None => if len > 0 {
            Some(0)
        } else {
            None
        },
    }
}

impl ListState {
    pub fn new() -> (r: ListState)
        ensures
            r.selected is None,
    {
        ListState { selected: None }
    }

    pub fn select(&mut self, index: Option<usize>)
        ensures
            final(self).selected == index,
    {
        self.selected = index;
    }

    pub fn selected(&self) -> (r: Option<usize>)
        ensures
            r == self.selected,
    {
        self.selected
    }

    /// Moves the selection by some lines within a list of that length.
    pub fn move_by(&mut self, delta: i32, len: usize)
        ensures
            final(self).selected == moved(old(self).selected, delta as int, len as nat),
    {
        if len == 0 {
            return;
        }
        let current: i128 = match self.selected {
            Some(i) => i as i128,
            None => 0,
        };
        let next: i128 = current + delta as i128;
        let last: i128 = len as i128 - 1;
        self.selected = if next < 0 {
            Some(0)
        } else if next > last {
            Some(len - 1)
        } else {
            Some(next as usize)
        };
    }

    /// Keeps the selection within a list of that length.
    pub fn keep_within(&mut self, len: usize)
        ensures
            final(self).selected == reselected(old(self).selected, len as nat),
    {
        match self.selected {
            Some(i) => {
                if i >= len {
                    self.selected = if len == 0 {
                        None
                    } else {
                        Some(len - 1)
                    };
                }
            },
            None => {
                if len > 0 {
                    self.selected = Some(0);
                }
            },
        }
    }
}

pub struct OpenSession {
    pub session: Arc<CodexSession>,
    pub path: String,
    pub rows: Vec<Row>,
    pub list_state: ListState,
    pub expanded: PairSet,
    pub focus: DetailFocus,
    pub item_panel: ItemPanel,
    pub item_scroll: u16,
    pub last_mtime: Option<FileTime>,
}

/// The contents of an [`OpenSession`].
#[verifier::ext_equal]
pub struct OpenView {
    pub session: CodexSession,
    pub path: Seq<char>,
    pub rows: Seq<Row>,
    pub selected: Option<usize>,
    pub expanded: Set<(usize, usize)>,
    pub focus: DetailFocus,
    pub item_panel: ItemPanel,
    pub item_scroll: u16,
    pub last_mtime: Option<FileTime>,
}

impl DeepView for OpenSession {
    type V = OpenView;

    open spec fn deep_view(&self) -> OpenView {
        OpenView {
            session: *self.session,
            path: self.path@,
            rows: self.rows@,
            selected: self.list_state.selected,
            expanded: self.expanded@,
            focus: self.focus,
            item_panel: self.item_panel,
            item_scroll: self.item_scroll,
            last_mtime: self.last_mtime,
        }
    }
}

/// The tool calls among some rows.
pub open spec fn tool_keys(rows: Seq<Row>) -> Set<(usize, usize)> {
    Set::new(|k: (usize, usize)| rows.contains(Row::Tool(k.0, k.1)))
}

impl OpenView {
    /// A session just opened: its list, with the first row selected.
    pub open spec fn opened(
        session: CodexSession,
        path: Seq<char>,
        mtime: Option<FileTime>,
    ) -> OpenView {
        let rows = rows::session_rows(session.turns@);
        OpenView {
            session,
            path,
            rows,
            selected: if rows.len() > 0 {
                Some(0)
            } else {
                None
            },
            expanded: Set::empty(),
            focus: DetailFocus::List,
            item_panel: ItemPanel::Primary,
            item_scroll: 0,
            last_mtime: mtime,
        }
    }

    /// The session as it was read again, the user where they were.
    pub open spec fn refreshed(self, session: CodexSession) -> OpenView {
        let rows = rows::session_rows(session.turns@);
        OpenView { session, rows, selected: reselected(self.selected, rows.len()), ..self }
    }

    /// The selection moved by some rows.
    pub open spec fn moved_by(self, delta: int) -> OpenView {
        OpenView { selected: moved(self.selected, delta, self.rows.len()), ..self }
    }

    pub open spec fn selected_row(self) -> Option<Row> {
        match self.selected {
            Some(i) => if i < self.rows.len() {
                Some(self.rows[i as int])
            } else {
                None
            },
            None => None,
        }
    }

    /// The selected tool call expanded or collapsed; other rows have no such state.
    pub open spec fn toggled(self) -> OpenView {
        match self.selected_row() {
            Some(Row::Tool(t, c)) => OpenView {
                expanded: if self.expanded.contains((t, c)) {
                    self.expanded.remove((t, c))
                } else {
                    self.expanded.insert((t, c))
                },
                ..self
            },
            _ => self,
        }
    }

    /// Every tool call expanded, or every one collapsed.
    pub open spec fn with_all_expanded(self, expand: bool) -> OpenView {
        OpenView {
            expanded: if expand {
                self.expanded.union(tool_keys(self.rows))
            } else {
                Set::empty()
            },
            ..self
        }
    }

    /// The full detail of the selected row.
    pub open spec fn entered(self) -> OpenView {
        if self.rows.len() == 0 {
            self
        } else {
            OpenView {
                focus: DetailFocus::Item,
                item_panel: ItemPanel::Primary,
                item_scroll: 0,
                ..self
            }
        }
    }

    /// The session of the agent that the selected tool call spawned.
    pub open spec fn worker(self) -> Option<CodexSession> {
        match self.selected_row() {
            Some(Row::Tool(t, c)) => if t < self.session.turns@.len() && c
                < self.session.turns@[t as int].tool_calls@.len() {
                let tool = self.session.turns@[t as int].tool_calls@[c as int];
                if tool.kind is SpawnAgent && tool.worker_session is Some {
                    Some(*tool.worker_session->0)
                } else {
                    None
                }
            } else {
                None
            },
            _ => None,
        }
    }
}

impl OpenSession {
    /// Opens a session.
    pub fn new(session: Arc<CodexSession>, path: String, mtime: Option<FileTime>) -> (r: OpenSession)
        ensures
            r.deep_view() == OpenView::opened(*session, path@, mtime),
    {
        let rows = build_rows(&session);
        let mut list_state = ListState::new();
        if rows.len() > 0 {
            list_state.select(Some(0));
        }
        OpenSession {
            session,
            path,
            rows,
            list_state,
            expanded: PairSet::new(),
            focus: DetailFocus::List,
            item_panel: ItemPanel::Primary,
            item_scroll: 0,
            last_mtime: mtime,
        }
    }

    /// Takes over the session as it was read again.
    pub fn refresh(&mut self, session: Arc<CodexSession>)
        ensures
            final(self).deep_view() == old(self).deep_view().refreshed(*session),
    {
        self.rows = build_rows(&session);
        self.session = session;
        self.list_state.keep_within(self.rows.len());
    }

    /// Moves the selection by some rows, stopping at the ends of the list.
    pub fn move_selection(&mut self, delta: i32)
        ensures
            final(self).deep_view() == old(self).deep_view().moved_by(delta as int),
    {
        self.list_state.move_by(delta, self.rows.len());
    }

    pub fn selected_row(&self) -> (r: Option<Row>)
        ensures
            r == self.deep_view().selected_row(),
    {
        match self.list_state.selected() {
            Some(i) => if i < self.rows.len() {
                Some(self.rows[i])
            } else {
                None
            },
            None => None,
        }
    }

    /// Expands or collapses the selected row, where it is a tool call.
    pub fn toggle_expand_selected(&mut self)
        ensures
            final(self).deep_view() == old(self).deep_view().toggled(),
    {
        if let Some(Row::Tool(t, tc)) = self.selected_row() {
            let key = (t, tc);
            let ghost before = self.expanded@;
            if !self.expanded.remove(&key) {
                self.expanded.insert(key);
                assert(before.remove(key).insert(key) =~= before.insert(key));
            }
        }
    }

    /// Expands or collapses every tool call.
    pub fn set_all_expanded(&mut self, expand: bool)
        ensures
            final(self).deep_view() == old(self).deep_view().with_all_expanded(expand),
    {
        let ghost before = self.deep_view();
        if expand {
            let n = self.rows.len();
            let mut i: usize = 0;
            assert(self.expanded@ =~= before.expanded.union(tool_keys(before.rows.take(0))));
            while i < n
                invariant
                    i <= n == self.rows@.len(),
                    self.rows@ == before.rows,
                    self.expanded@ == before.expanded.union(tool_keys(before.rows.take(i as int))),
                    self.deep_view() == (OpenView { expanded: self.expanded@, ..before }),
                decreases n - i,
            {
                let ghost now = self.expanded@;
                proof {
                    lemma_tool_keys(before.rows, i as int);
                }
                if let Row::Tool(t, tc) = self.rows[i] {
                    self.expanded.insert((t, tc));
                    assert(self.expanded@ =~= before.expanded.union(
                        tool_keys(before.rows.take(i + 1)),
                    ));
                } else {
                    assert(tool_keys(before.rows.take(i + 1)) =~= tool_keys(
                        before.rows.take(i as int),
                    ));
                }
                i += 1;
            }
            assert(before.rows.take(i as int) =~= before.rows);
        } else {
            self.expanded.clear();
        }
    }

    /// Shows the full detail of the selected row.
    pub fn enter_item_view(&mut self)
        ensures
            final(self).deep_view() == old(self).deep_view().entered(),
    {
        if self.rows.len() == 0 {
            return;
        }
        self.focus = DetailFocus::Item;
        self.item_panel = ItemPanel::Primary;
        self.item_scroll = 0;
    }

    /// If the selected row is a `spawn_agent` call whose worker session was embedded during
    /// parsing, returns that session.
    pub fn selected_worker_session(&self) -> (r: Option<Arc<CodexSession>>)
        ensures
            match r {
                Some(s) => self.deep_view().worker() == Some(*s),
                None => self.deep_view().worker() is None,
            },
    {
        if let Some(Row::Tool(t, tc)) = self.selected_row() {
            if t < self.session.turns.len() && tc < self.session.turns[t].tool_calls.len() {
                let tool = &self.session.turns[t].tool_calls[tc];
                if let ToolKind::SpawnAgent = tool.kind {
                    if let Some(worker) = &tool.worker_session {
                        return Some(worker.clone());
                    }
                }
            }
        }
        None
    }
}

proof fn lemma_tool_keys(rows: Seq<Row>, i: int)
    requires
        0 <= i < rows.len(),
    ensures
        forall|k: (usize, usize)| #[trigger]
            tool_keys(rows.take(i + 1)).contains(k) <==> tool_keys(rows.take(i)).contains(k)
                || rows[i] == Row::Tool(k.0, k.1),
{
    assert forall|k: (usize, usize)| #[trigger]
        tool_keys(rows.take(i + 1)).contains(k) <==> tool_keys(rows.take(i)).contains(k)
            || rows[i] == Row::Tool(k.0, k.1) by {
        let row = Row::Tool(k.0, k.1);
        let front = rows.take(i);
        let all = rows.take(i + 1);
        if all.contains(row) {
            let j = choose|j: int| 0 <= j < all.len() && all[j] == row;
            if j < i {
                assert(front[j] == row);
            }
        }
        if front.contains(row) {
            let j = choose|j: int| 0 <= j < front.len() && front[j] == row;
            assert(all[j] == row);
        }
        if rows[i] == row {
            assert(all[i] == row);
        }
    }
}

} // verus!
