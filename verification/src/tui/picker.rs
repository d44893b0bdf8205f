//! The list of the session picker.

use vstd::prelude::*;

use crate::parser::discover::{CodexSessionInfo, InfoView};
use crate::text;
use crate::text_map::TextMap;

verus! {

/// One line of the picker: the header of a date group, or a session by its index.
#[derive(Debug, Clone)]
pub enum PickerRow {
    DateHeader(String),
    Session(usize),
}

/// The contents of a [`PickerRow`].
pub enum PickerRowView {
    DateHeader(Seq<char>),
    Session(usize),
}

impl DeepView for PickerRow {
    type V = PickerRowView;

    open spec fn deep_view(&self) -> PickerRowView {
        match *self {
            PickerRow::DateHeader(group) => PickerRowView::DateHeader(group@),
            PickerRow::Session(i) => PickerRowView::Session(i),
        }
    }
}

/// Whether one of the fields that are searched holds the query, upper case folded to lower.
pub open spec fn field_matches(field: Option<Seq<char>>, query: Seq<char>) -> bool {
    field is Some && text::has_part(text::lowered(field->0), query)
}

/// Whether a session is found by a query.
pub open spec fn found(s: InfoView, query: Seq<char>) -> bool {
    ||| field_matches(Some(s.id), query)
    ||| field_matches(s.cwd, query)
    ||| field_matches(s.git_branch, query)
    ||| field_matches(s.model, query)
    ||| field_matches(s.thread_name, query)
    ||| field_matches(s.ai_title, query)
    ||| field_matches(s.worker_nickname, query)
    ||| field_matches(s.worker_role, query)
}

fn text_matches(field: &String, query: &str) -> (r: bool)
    ensures
        r == field_matches(Some(field@), query@),
{
    let lower = text::to_lowercase(field.as_str());
    text::contains(text::chars_of(lower.as_str()).as_slice(), query)
}

fn option_matches(field: &Option<String>, query: &str) -> (r: bool)
    ensures
        r == field_matches(field.deep_view(), query@),
{
    match field {
        Some(f) => text_matches(f, query),
        None => false,
    }
}

/// Whether a session is found by a query in lower case.
pub fn session_matches(s: &CodexSessionInfo, query: &str) -> (r: bool)
    ensures
        r == found(s.deep_view(), query@),
{
    text_matches(&s.id, query) || option_matches(&s.cwd, query) || option_matches(
        &s.git_branch,
        query,
    ) || option_matches(&s.model, query) || option_matches(&s.thread_name, query) || option_matches(
        &s.ai_title,
        query,
    ) || option_matches(&s.worker_nickname, query) || option_matches(&s.worker_role, query)
}

/// Whether a session is listed for a query: the empty one lists all.
pub open spec fn listed(s: InfoView, query: Seq<char>) -> bool {
    query.len() == 0 || found(s, query)
}

/// Where the date group that starts at `i` ends.
pub open spec fn group_end(sessions: Seq<InfoView>, group: Seq<char>, i: int) -> int
    decreases sessions.len() - i,
{
    if 0 <= i < sessions.len() && sessions[i].date_group == group {
        group_end(sessions, group, i + 1)
    } else {
        i
    }
}

/// The rows of the sessions from `i` up to `end` that are listed.
pub open spec fn group_sessions(
    sessions: Seq<InfoView>,
    query: Seq<char>,
    i: int,
    end: int,
) -> Seq<PickerRowView>
    decreases end - i,
{
    if i >= end {
        seq![]
    } else {
        let before = group_sessions(sessions, query, i, end - 1);
        if listed(sessions[end - 1], query) {
            before.push(PickerRowView::Session((end - 1) as usize))
        } else {
            before
        }
    }
}

/// The rows of a date group: none where no session of it is listed, the header alone where it is
/// collapsed.
pub open spec fn group_rows(
    sessions: Seq<InfoView>,
    query: Seq<char>,
    collapsed: Set<Seq<char>>,
    i: int,
    end: int,
) -> Seq<PickerRowView> {
    let group = sessions[i].date_group;
    let inner = group_sessions(sessions, query, i, end);
    if inner.len() == 0 {
        seq![]
    } else if collapsed.contains(group) {
        seq![PickerRowView::DateHeader(group)]
    } else {
        seq![PickerRowView::DateHeader(group)] + inner
    }
}

pub proof fn lemma_group_end(sessions: Seq<InfoView>, group: Seq<char>, i: int)
    requires
        0 <= i <= sessions.len(),
    ensures
        i <= group_end(sessions, group, i) <= sessions.len(),
        i < sessions.len() && sessions[i].date_group == group ==> i < group_end(sessions, group, i),
        forall|k: int|
            i <= k < group_end(sessions, group, i) ==> (#[trigger] sessions[k]).date_group == group,
        group_end(sessions, group, i) < sessions.len() ==> sessions[group_end(
            sessions,
            group,
            i,
        )].date_group != group,
    decreases sessions.len() - i,
{
    if i < sessions.len() && sessions[i].date_group == group {
        lemma_group_end(sessions, group, i + 1);
    }
}

/// The rows of the sessions from `i` on: each run of sessions of one date under its header.
pub open spec fn rows_from(
    sessions: Seq<InfoView>,
    query: Seq<char>,
    collapsed: Set<Seq<char>>,
    i: int,
) -> Seq<PickerRowView>
    decreases sessions.len() - i,
{
    if 0 <= i < sessions.len() {
        let end = group_end(sessions, sessions[i].date_group, i);
        proof {
            lemma_group_end(sessions, sessions[i].date_group, i);
        }
        group_rows(sessions, query, collapsed, i, end) + rows_from(sessions, query, collapsed, end)
    } else {
        seq![]
    }
}

/// The rows of the picker for a query as it was typed.
pub open spec fn picker_rows(
    sessions: Seq<InfoView>,
    query: Seq<char>,
    collapsed: Set<Seq<char>>,
) -> Seq<PickerRowView> {
    rows_from(sessions, text::lowered(query), collapsed, 0)
}

/// The rows of the picker for a query as it was typed.
pub fn build_picker_rows(
    sessions: &Vec<CodexSessionInfo>,
    query: &str,
    collapsed: &TextMap<()>,
) -> (r: Vec<PickerRow>)
    ensures
        r.deep_view() == picker_rows(sessions.deep_view(), query@, collapsed@.dom()),
{
    rows_for_query(sessions, text::to_lowercase(query).as_str(), collapsed)
}

/// The rows of the picker for a query in lower case.
pub fn rows_for_query(
    sessions: &Vec<CodexSessionInfo>,
    lower: &str,
    collapsed: &TextMap<()>,
) -> (r: Vec<PickerRow>)
    ensures
        r.deep_view() == rows_from(sessions.deep_view(), lower@, collapsed@.dom(), 0),
{
    let ghost all = sessions.deep_view();
    let ghost q = lower@;
    let ghost hidden = collapsed@.dom();
    let n = sessions.len();
    let mut rows: Vec<PickerRow> = Vec::new();
    let mut i: usize = 0;
    assert(rows.deep_view() + rows_from(all, q, hidden, 0) =~= rows_from(all, q, hidden, 0));
    while i < n
        invariant
            i <= n == sessions@.len(),
            all == sessions.deep_view(),
            q == lower@,
            hidden == collapsed@.dom(),
            rows.deep_view() + rows_from(all, q, hidden, i as int) == rows_from(all, q, hidden, 0),
        decreases n - i,
    {
        let ghost before = rows.deep_view();
        let ghost start = i as int;
        let group = sessions[i].date_group.clone();
        assert(all[start].date_group == group@);
        let ghost end = group_end(all, group@, start);
        proof {
            lemma_group_end(all, group@, start);
        }
        let mut inner: Vec<PickerRow> = Vec::new();
        assert(inner.deep_view() =~= group_sessions(all, q, start, start));
        while i < n && sessions[i].date_group == group
            invariant
                start <= i <= end <= n,
                n == sessions@.len(),
                all == sessions.deep_view(),
                q == lower@,
                end == group_end(all, group@, i as int),
                inner.deep_view() == group_sessions(all, q, start, i as int),
            ensures
                i == end,
            decreases n - i,
        {
            let ghost inner_before = inner.deep_view();
            assert(all[i as int] == sessions@[i as int].deep_view());
            proof {
                lemma_group_end(all, group@, i + 1);
            }
            if lower.is_empty() || session_matches(&sessions[i], lower) {
                inner.push(PickerRow::Session(i));
                assert(inner.deep_view() =~= inner_before.push(PickerRowView::Session(i)));
            }
            i += 1;
        }
        if inner.len() > 0 {
            let hide = collapsed.contains_key(group.as_str());
            rows.push(PickerRow::DateHeader(group));
            let ghost head = rows.deep_view();
            assert(head =~= before.push(PickerRowView::DateHeader(group@)));
            if !hide {
                let ghost tail = inner.deep_view();
                rows.append(&mut inner);
                assert(rows.deep_view() =~= head + tail);
            }
        }
        assert(rows.deep_view() =~= before + group_rows(all, q, hidden, start, end));
        assert(before + group_rows(all, q, hidden, start, end) + rows_from(all, q, hidden, end)
            =~= before + (group_rows(all, q, hidden, start, end) + rows_from(all, q, hidden, end)));
    }
    assert(rows.deep_view() + rows_from(all, q, hidden, i as int) =~= rows.deep_view());
    rows
}

} // verus!
