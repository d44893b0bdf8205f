//! What holds of the session picker's list.

use vstd::prelude::*;

use crate::parser::discover::InfoView;
use crate::text;
use crate::tui::picker;
use crate::tui::picker::PickerRowView;

verus! {

/// Whether a row has its reason in the sessions: a session that is listed and not hidden, or the
/// header of a date with a listed session.
pub open spec fn grounded(
    sessions: Seq<InfoView>,
    query: Seq<char>,
    collapsed: Set<Seq<char>>,
    row: PickerRowView,
) -> bool {
    match row {
        PickerRowView::Session(j) => {
            &&& j < sessions.len()
            &&& picker::listed(sessions[j as int], query)
            &&& !collapsed.contains(sessions[j as int].date_group)
        },
        PickerRowView::DateHeader(group) => exists|j: int|
            0 <= j < sessions.len() && picker::listed(#[trigger] sessions[j], query)
                && sessions[j].date_group == group,
    }
}

proof fn lemma_group_member(sessions: Seq<InfoView>, query: Seq<char>, i: int, end: int, k: int)
    requires
        0 <= i <= end <= sessions.len() <= usize::MAX,
        0 <= k < picker::group_sessions(sessions, query, i, end).len(),
    ensures
        picker::group_sessions(sessions, query, i, end)[k] matches PickerRowView::Session(j) && i <= j
            < end && picker::listed(sessions[j as int], query),
    decreases end - i,
{
    if i < end && k < picker::group_sessions(sessions, query, i, end - 1).len() {
        lemma_group_member(sessions, query, i, end - 1, k);
    }
}

proof fn lemma_group_complete(sessions: Seq<InfoView>, query: Seq<char>, i: int, end: int, j: int)
    requires
        0 <= i <= j < end <= sessions.len() <= usize::MAX,
        picker::listed(sessions[j], query),
    ensures
        picker::group_sessions(sessions, query, i, end).contains(PickerRowView::Session(j as usize)),
    decreases end - i,
{
    let all = picker::group_sessions(sessions, query, i, end);
    let before = picker::group_sessions(sessions, query, i, end - 1);
    let row = PickerRowView::Session(j as usize);
    if j == end - 1 {
        assert(all[before.len() as int] == row);
    } else {
        lemma_group_complete(sessions, query, i, end - 1, j);
        let k = choose|k: int| 0 <= k < before.len() && before[k] == row;
        assert(all[k] == row);
    }
}

proof fn lemma_grounded_from(
    sessions: Seq<InfoView>,
    query: Seq<char>,
    collapsed: Set<Seq<char>>,
    i: int,
    k: int,
)
    requires
        0 <= i <= sessions.len() <= usize::MAX,
        0 <= k < picker::rows_from(sessions, query, collapsed, i).len(),
    ensures
        grounded(sessions, query, collapsed, picker::rows_from(sessions, query, collapsed, i)[k]),
    decreases sessions.len() - i,
{
    let rows = picker::rows_from(sessions, query, collapsed, i);
    let group = sessions[i].date_group;
    let end = picker::group_end(sessions, group, i);
    picker::lemma_group_end(sessions, group, i);
    let here = picker::group_rows(sessions, query, collapsed, i, end);
    let inner = picker::group_sessions(sessions, query, i, end);
    if k < here.len() {
        assert(rows[k] == here[k]);
        lemma_group_member(sessions, query, i, end, 0);
        let first = inner[0]->Session_0;
        assert(sessions[first as int].date_group == group);
        if k > 0 {
            assert(here[k] == inner[k - 1]);
            lemma_group_member(sessions, query, i, end, k - 1);
        }
    } else {
        lemma_grounded_from(sessions, query, collapsed, end, k - here.len());
    }
}

/// Every row has its reason: the list shows no session that the query does not find or whose
/// date is collapsed, and no date without a session that it finds.
pub proof fn rows_are_grounded(
    sessions: Seq<InfoView>,
    query: Seq<char>,
    collapsed: Set<Seq<char>>,
    k: int,
)
    requires
        sessions.len() <= usize::MAX,
        0 <= k < picker::rows_from(sessions, query, collapsed, 0).len(),
    ensures
        grounded(sessions, query, collapsed, picker::rows_from(sessions, query, collapsed, 0)[k]),
{
    lemma_grounded_from(sessions, query, collapsed, 0, k);
}

proof fn lemma_in_tail<T>(front: Seq<T>, back: Seq<T>, x: T)
    requires
        back.contains(x),
    ensures
        (front + back).contains(x),
{
    let k = choose|k: int| 0 <= k < back.len() && back[k] == x;
    assert((front + back)[front.len() + k] == x);
}

proof fn lemma_complete_from(
    sessions: Seq<InfoView>,
    query: Seq<char>,
    collapsed: Set<Seq<char>>,
    i: int,
    j: int,
)
    requires
        0 <= i <= j < sessions.len() <= usize::MAX,
        picker::listed(sessions[j], query),
    ensures
        picker::rows_from(sessions, query, collapsed, i).contains(
            PickerRowView::DateHeader(sessions[j].date_group),
        ),
        !collapsed.contains(sessions[j].date_group) ==> picker::rows_from(
            sessions,
            query,
            collapsed,
            i,
        ).contains(PickerRowView::Session(j as usize)),
    decreases sessions.len() - i,
{
    let rows = picker::rows_from(sessions, query, collapsed, i);
    let group = sessions[i].date_group;
    let end = picker::group_end(sessions, group, i);
    picker::lemma_group_end(sessions, group, i);
    let here = picker::group_rows(sessions, query, collapsed, i, end);
    let inner = picker::group_sessions(sessions, query, i, end);
    let rest = picker::rows_from(sessions, query, collapsed, end);
    let row = PickerRowView::Session(j as usize);
    let header = PickerRowView::DateHeader(sessions[j].date_group);
    if j < end {
        lemma_group_complete(sessions, query, i, end, j);
        assert(sessions[j].date_group == group);
        let k = choose|k: int| 0 <= k < inner.len() && inner[k] == row;
        assert(here[0] == header);
        assert(rows[0] == header);
        if !collapsed.contains(group) {
            assert(here[k + 1] == row);
            assert(rows[k + 1] == row);
        }
    } else {
        lemma_complete_from(sessions, query, collapsed, end, j);
        lemma_in_tail(here, rest, header);
        if !collapsed.contains(sessions[j].date_group) {
            lemma_in_tail(here, rest, row);
        }
    }
}

/// Nothing is left out: every session that the query finds has its date's header in the list,
/// and is itself in the list unless that date is collapsed.
pub proof fn found_sessions_are_listed(
    sessions: Seq<InfoView>,
    query: Seq<char>,
    collapsed: Set<Seq<char>>,
    j: int,
)
    requires
        sessions.len() <= usize::MAX,
        0 <= j < sessions.len(),
        picker::listed(sessions[j], query),
    ensures
        picker::rows_from(sessions, query, collapsed, 0).contains(
            PickerRowView::DateHeader(sessions[j].date_group),
        ),
        !collapsed.contains(sessions[j].date_group) ==> picker::rows_from(
            sessions,
            query,
            collapsed,
            0,
        ).contains(PickerRowView::Session(j as usize)),
{
    lemma_complete_from(sessions, query, collapsed, 0, j);
}

/// Whether the sessions among some rows stand in ascending order, none before `from`.
pub open spec fn ascending(rows: Seq<PickerRowView>, from: int) -> bool {
    &&& forall|a: int|
        0 <= a < rows.len() ==> ((#[trigger] rows[a]) matches PickerRowView::Session(x) ==> x >= from)
    &&& forall|a: int, b: int|
        0 <= a < b < rows.len() ==> ((#[trigger] rows[a], #[trigger] rows[b]) matches (
            PickerRowView::Session(x),
            PickerRowView::Session(y),
        ) ==> x < y)
}

proof fn lemma_group_ascends(sessions: Seq<InfoView>, query: Seq<char>, i: int, end: int)
    requires
        0 <= i <= end <= sessions.len() <= usize::MAX,
    ensures
        ascending(picker::group_sessions(sessions, query, i, end), i),
    decreases end - i,
{
    let all = picker::group_sessions(sessions, query, i, end);
    if i < end {
        lemma_group_ascends(sessions, query, i, end - 1);
        let before = picker::group_sessions(sessions, query, i, end - 1);
        assert forall|a: int| 0 <= a < all.len() implies ((#[trigger] all[a]) matches PickerRowView::Session(
            x,
        ) ==> x >= i) by {
            if a < before.len() {
                assert(all[a] == before[a]);
            }
        }
        assert forall|a: int, b: int| 0 <= a < b < all.len() implies ((
            #[trigger] all[a],
            #[trigger] all[b],
        ) matches (PickerRowView::Session(x), PickerRowView::Session(y)) ==> x < y) by {
            assert(all[a] == before[a]);
            lemma_group_member(sessions, query, i, end - 1, a);
            if b < before.len() {
                assert(all[b] == before[b]);
                assert((before[a], before[b]) matches (
                    PickerRowView::Session(x),
                    PickerRowView::Session(y),
                ) ==> x < y);
            }
        }
    }
}

/// The sessions of the list stand in the order in which they were discovered, each once.
pub proof fn sessions_stay_in_order(
    sessions: Seq<InfoView>,
    query: Seq<char>,
    collapsed: Set<Seq<char>>,
    i: int,
)
    requires
        0 <= i <= sessions.len() <= usize::MAX,
    ensures
        ascending(picker::rows_from(sessions, query, collapsed, i), i),
    decreases sessions.len() - i,
{
    if i < sessions.len() {
        let rows = picker::rows_from(sessions, query, collapsed, i);
        let group = sessions[i].date_group;
        let end = picker::group_end(sessions, group, i);
        picker::lemma_group_end(sessions, group, i);
        let here = picker::group_rows(sessions, query, collapsed, i, end);
        let inner = picker::group_sessions(sessions, query, i, end);
        let rest = picker::rows_from(sessions, query, collapsed, end);
        lemma_group_ascends(sessions, query, i, end);
        sessions_stay_in_order(sessions, query, collapsed, end);
        assert forall|a: int| 0 <= a < rows.len() implies ((#[trigger] rows[a]) matches PickerRowView::Session(
            x,
        ) ==> x >= i) by {
            if a < here.len() {
                if a > 0 {
                    assert(rows[a] == inner[a - 1]);
                }
            } else {
                assert(rows[a] == rest[a - here.len()]);
            }
        }
        assert forall|a: int, b: int| 0 <= a < b < rows.len() implies ((
            #[trigger] rows[a],
            #[trigger] rows[b],
        ) matches (PickerRowView::Session(x), PickerRowView::Session(y)) ==> x < y) by {
            if a < here.len() && a > 0 {
                assert(rows[a] == inner[a - 1]);
                lemma_group_member(sessions, query, i, end, a - 1);
            }
            if b < here.len() {
                assert(rows[b] == inner[b - 1]);
                if a > 0 {
                    assert((inner[a - 1], inner[b - 1]) matches (
                        PickerRowView::Session(x),
                        PickerRowView::Session(y),
                    ) ==> x < y);
                }
            } else {
                assert(rows[b] == rest[b - here.len()]);
                if a >= here.len() {
                    assert(rows[a] == rest[a - here.len()]);
                    assert((rest[a - here.len()], rest[b - here.len()]) matches (
                        PickerRowView::Session(x),
                        PickerRowView::Session(y),
                    ) ==> x < y);
                }
            }
        }
    }
}

/// Whether a query within ASCII is typed in upper or lower case makes no difference.
pub proof fn the_case_of_a_query_does_not_matter(
    sessions: Seq<InfoView>,
    query: Seq<char>,
    collapsed: Set<Seq<char>>,
)
    requires
        text::all_ascii(query),
    ensures
        picker::picker_rows(sessions, text::lowered(query), collapsed) == picker::picker_rows(
            sessions,
            query,
            collapsed,
        ),
{
    let lower = text::lowered(query);
    assert forall|i: int| 0 <= i < lower.len() implies text::is_ascii(#[trigger] lower[i]) by {
        assert(text::is_ascii(query[i]));
    }
    assert(text::lowered(lower) =~= lower) by {
        assert forall|i: int| 0 <= i < lower.len() implies text::ascii_lower(#[trigger] lower[i])
            == lower[i] by {
            assert(text::is_ascii(query[i]));
        }
    }
}

/// Without a query and with no date collapsed, every session is listed.
pub proof fn no_query_lists_every_session(sessions: Seq<InfoView>, j: int)
    requires
        sessions.len() <= usize::MAX,
        0 <= j < sessions.len(),
    ensures
        picker::picker_rows(sessions, seq![], Set::empty()).contains(
            PickerRowView::Session(j as usize),
        ),
{
    let none = Seq::<char>::empty();
    assert(text::lowered(none) =~= none);
    found_sessions_are_listed(sessions, none, Set::empty(), j);
}

/// Whether a query stands somewhere in a field, upper case folded to lower.
pub open spec fn stands_in(field: Option<Seq<char>>, query: Seq<char>) -> bool {
    field is Some && exists|pre: Seq<char>, post: Seq<char>|
        text::lowered(field->0) == #[trigger] (pre + query + post)
}

/// Whether a query stands in the session's id, directory, branch, model, name or title, or in the
/// nickname or the role of its worker.
pub open spec fn stands_in_session(s: InfoView, query: Seq<char>) -> bool {
    ||| stands_in(Some(s.id), query)
    ||| stands_in(s.cwd, query)
    ||| stands_in(s.git_branch, query)
    ||| stands_in(s.model, query)
    ||| stands_in(s.thread_name, query)
    ||| stands_in(s.ai_title, query)
    ||| stands_in(s.worker_nickname, query)
    ||| stands_in(s.worker_role, query)
}

proof fn lemma_stands_in(field: Option<Seq<char>>, query: Seq<char>)
    ensures
        stands_in(field, query) <==> picker::field_matches(field, query),
{
    if field is Some {
        let lower = text::lowered(field->0);
        if stands_in(field, query) {
            let (pre, post) = choose|pre: Seq<char>, post: Seq<char>|
                lower == #[trigger] (pre + query + post);
            let at = pre.len() as int;
            assert(lower.subrange(at, at + query.len()) =~= query);
            assert(text::stands_at(lower, query, at));
        }
        if text::has_part(lower, query) {
            let at = choose|at: int| #[trigger] text::stands_at(lower, query, at);
            let pre = lower.take(at);
            let post = lower.skip(at + query.len());
            assert(lower =~= pre + lower.subrange(at, at + query.len()) + post);
        }
    }
}

/// A query finds a session exactly where it stands, at whatever place, in one of the fields that
/// are searched.
pub proof fn queries_are_found_anywhere(s: InfoView, query: Seq<char>)
    ensures
        picker::found(s, query) <==> stands_in_session(s, query),
{
    lemma_stands_in(Some(s.id), query);
    lemma_stands_in(s.cwd, query);
    lemma_stands_in(s.git_branch, query);
    lemma_stands_in(s.model, query);
    lemma_stands_in(s.thread_name, query);
    lemma_stands_in(s.ai_title, query);
    lemma_stands_in(s.worker_nickname, query);
    lemma_stands_in(s.worker_role, query);
}

/// A session is found by any part of one of its fields in lower case.
pub proof fn every_part_of_a_field_finds_the_session(
    s: InfoView,
    field: Seq<char>,
    pre: Seq<char>,
    query: Seq<char>,
    post: Seq<char>,
)
    requires
        text::lowered(field) == pre + query + post,
        s.id == field || s.cwd == Some(field) || s.git_branch == Some(field) || s.model == Some(
            field,
        ) || s.thread_name == Some(field) || s.ai_title == Some(field) || s.worker_nickname == Some(
            field,
        ) || s.worker_role == Some(field),
    ensures
        picker::found(s, query),
{
    assert(stands_in(Some(field), query));
    queries_are_found_anywhere(s, query);
}

/// Within ASCII, lower case has the letters from A to Z in place of the capitals, and every other
/// character as it was.
pub proof fn lower_case_folds_the_capitals(s: Seq<char>, i: int)
    requires
        forall|k: int| 0 <= k < s.len() ==> (#[trigger] s[k]) as u32 <= 0x7f,
        0 <= i < s.len(),
    ensures
        text::lowered(s).len() == s.len(),
        'A' <= s[i] <= 'Z' ==> text::lowered(s)[i] as u32 == s[i] as u32 + 32,
        !('A' <= s[i] <= 'Z') ==> text::lowered(s)[i] == s[i],
{
    assert(text::all_ascii(s)) by {
        assert forall|k: int| 0 <= k < s.len() implies text::is_ascii(#[trigger] s[k]) by {
            assert(s[k] as u32 <= 0x7f);
        }
    }
}

/// The picker lists exactly the sessions in which the query stands, all of them where it is
/// empty, but for those whose date is collapsed.
pub proof fn the_picker_lists_what_the_query_finds(
    sessions: Seq<InfoView>,
    query: Seq<char>,
    collapsed: Set<Seq<char>>,
    j: int,
)
    requires
        sessions.len() <= usize::MAX,
        0 <= j < sessions.len(),
    ensures
        picker::picker_rows(sessions, query, collapsed).contains(PickerRowView::Session(j as usize))
            <==> !collapsed.contains(sessions[j].date_group) && (text::lowered(query).len() == 0
            || stands_in_session(sessions[j], text::lowered(query))),
{
    let lower = text::lowered(query);
    let rows = picker::picker_rows(sessions, query, collapsed);
    let row = PickerRowView::Session(j as usize);
    queries_are_found_anywhere(sessions[j], lower);
    if picker::listed(sessions[j], lower) {
        found_sessions_are_listed(sessions, lower, collapsed, j);
    }
    if rows.contains(row) {
        let k = choose|k: int| 0 <= k < rows.len() && rows[k] == row;
        rows_are_grounded(sessions, lower, collapsed, k);
    }
}

/// The picker has the header of a date exactly where it has a session of that date in which the
/// query stands, collapsed or not.
pub proof fn the_picker_has_the_dates_of_what_is_found(
    sessions: Seq<InfoView>,
    query: Seq<char>,
    collapsed: Set<Seq<char>>,
    group: Seq<char>,
)
    requires
        sessions.len() <= usize::MAX,
    ensures
        picker::picker_rows(sessions, query, collapsed).contains(PickerRowView::DateHeader(group))
            <==> exists|j: int|
            0 <= j < sessions.len() && (#[trigger] sessions[j]).date_group == group && (
            text::lowered(query).len() == 0 || stands_in_session(sessions[j], text::lowered(query))),
{
    let lower = text::lowered(query);
    let rows = picker::picker_rows(sessions, query, collapsed);
    let row = PickerRowView::DateHeader(group);
    if rows.contains(row) {
        let k = choose|k: int| 0 <= k < rows.len() && rows[k] == row;
        rows_are_grounded(sessions, lower, collapsed, k);
        let j = choose|j: int|
            0 <= j < sessions.len() && picker::listed(#[trigger] sessions[j], lower)
                && sessions[j].date_group == group;
        queries_are_found_anywhere(sessions[j], lower);
        assert(sessions[j].date_group == group);
    }
    if exists|j: int|
        0 <= j < sessions.len() && (#[trigger] sessions[j]).date_group == group && (lower.len() == 0
            || stands_in_session(sessions[j], lower)) {
        let j = choose|j: int|
            0 <= j < sessions.len() && (#[trigger] sessions[j]).date_group == group && (lower.len()
                == 0 || stands_in_session(sessions[j], lower));
        queries_are_found_anywhere(sessions[j], lower);
        found_sessions_are_listed(sessions, lower, collapsed, j);
    }
}

proof fn lemma_under_headers(
    sessions: Seq<InfoView>,
    query: Seq<char>,
    collapsed: Set<Seq<char>>,
    i: int,
    k: int,
    j: usize,
)
    requires
        0 <= i <= sessions.len() <= usize::MAX,
        0 <= k < picker::rows_from(sessions, query, collapsed, i).len(),
        picker::rows_from(sessions, query, collapsed, i)[k] == PickerRowView::Session(j),
    ensures
        k > 0,
        j < sessions.len(),
        match picker::rows_from(sessions, query, collapsed, i)[k - 1] {
            PickerRowView::DateHeader(group) => group == sessions[j as int].date_group,
            PickerRowView::Session(x) => x < j && sessions[x as int].date_group
                == sessions[j as int].date_group,
        },
    decreases sessions.len() - i,
{
    let rows = picker::rows_from(sessions, query, collapsed, i);
    let group = sessions[i].date_group;
    let end = picker::group_end(sessions, group, i);
    picker::lemma_group_end(sessions, group, i);
    let here = picker::group_rows(sessions, query, collapsed, i, end);
    let inner = picker::group_sessions(sessions, query, i, end);
    let rest = picker::rows_from(sessions, query, collapsed, end);
    if k < here.len() {
        assert(rows[k] == here[k]);
        assert(here[0] == PickerRowView::DateHeader(group));
        assert(k > 0);
        assert(here[k] == inner[k - 1]);
        lemma_group_member(sessions, query, i, end, k - 1);
        assert(sessions[j as int].date_group == group);
        assert(rows[k - 1] == here[k - 1]);
        if k > 1 {
            assert(here[k - 1] == inner[k - 2]);
            lemma_group_member(sessions, query, i, end, k - 2);
            lemma_group_ascends(sessions, query, i, end);
            assert((inner[k - 2], inner[k - 1]) matches (
                PickerRowView::Session(x),
                PickerRowView::Session(y),
            ) ==> x < y);
        }
    } else {
        let l = k - here.len();
        assert(rows[k] == rest[l]);
        lemma_under_headers(sessions, query, collapsed, end, l, j);
        assert(rows[k - 1] == rest[l - 1]);
    }
}

/// A session stands under the header of its date: directly before it comes that header, or
/// another session of that date.
pub proof fn sessions_stand_under_their_dates(
    sessions: Seq<InfoView>,
    query: Seq<char>,
    collapsed: Set<Seq<char>>,
    k: int,
    j: usize,
)
    requires
        sessions.len() <= usize::MAX,
        0 <= k < picker::picker_rows(sessions, query, collapsed).len(),
        picker::picker_rows(sessions, query, collapsed)[k] == PickerRowView::Session(j),
    ensures
        k > 0,
        j < sessions.len(),
        match picker::picker_rows(sessions, query, collapsed)[k - 1] {
            PickerRowView::DateHeader(group) => group == sessions[j as int].date_group,
            PickerRowView::Session(x) => x < j && sessions[x as int].date_group
                == sessions[j as int].date_group,
        },
{
    lemma_under_headers(sessions, text::lowered(query), collapsed, 0, k, j);
}

/// Whether the sessions of each date stand together.
pub open spec fn dates_stand_together(sessions: Seq<InfoView>) -> bool {
    forall|a: int, b: int, c: int|
        0 <= a < b < c < sessions.len() && (#[trigger] sessions[a]).date_group == (
        #[trigger] sessions[c]).date_group ==> (#[trigger] sessions[b]).date_group
            == sessions[a].date_group
}

proof fn lemma_header_source(
    sessions: Seq<InfoView>,
    query: Seq<char>,
    collapsed: Set<Seq<char>>,
    i: int,
    k: int,
) -> (j: int)
    requires
        0 <= i <= sessions.len() <= usize::MAX,
        0 <= k < picker::rows_from(sessions, query, collapsed, i).len(),
        picker::rows_from(sessions, query, collapsed, i)[k] is DateHeader,
    ensures
        i <= j < sessions.len(),
        picker::rows_from(sessions, query, collapsed, i)[k] == PickerRowView::DateHeader(
            sessions[j].date_group,
        ),
    decreases sessions.len() - i,
{
    let rows = picker::rows_from(sessions, query, collapsed, i);
    let group = sessions[i].date_group;
    let end = picker::group_end(sessions, group, i);
    picker::lemma_group_end(sessions, group, i);
    let here = picker::group_rows(sessions, query, collapsed, i, end);
    let inner = picker::group_sessions(sessions, query, i, end);
    if k < here.len() {
        assert(rows[k] == here[k]);
        if k > 0 {
            assert(here[k] == inner[k - 1]);
            lemma_group_member(sessions, query, i, end, k - 1);
        }
        i
    } else {
        let l = k - here.len();
        assert(rows[k] == picker::rows_from(sessions, query, collapsed, end)[l]);
        lemma_header_source(sessions, query, collapsed, end, l)
    }
}

proof fn lemma_one_header(
    sessions: Seq<InfoView>,
    query: Seq<char>,
    collapsed: Set<Seq<char>>,
    i: int,
    k: int,
    l: int,
)
    requires
        dates_stand_together(sessions),
        0 <= i <= sessions.len() <= usize::MAX,
        0 <= k < l < picker::rows_from(sessions, query, collapsed, i).len(),
        picker::rows_from(sessions, query, collapsed, i)[k] is DateHeader,
    ensures
        picker::rows_from(sessions, query, collapsed, i)[k] != picker::rows_from(
            sessions,
            query,
            collapsed,
            i,
        )[l],
    decreases sessions.len() - i,
{
    let rows = picker::rows_from(sessions, query, collapsed, i);
    let group = sessions[i].date_group;
    let end = picker::group_end(sessions, group, i);
    picker::lemma_group_end(sessions, group, i);
    let here = picker::group_rows(sessions, query, collapsed, i, end);
    let inner = picker::group_sessions(sessions, query, i, end);
    let rest = picker::rows_from(sessions, query, collapsed, end);
    let n = here.len() as int;
    if l < n {
        assert(rows[l] == here[l]);
        assert(here[l] == inner[l - 1]);
        lemma_group_member(sessions, query, i, end, l - 1);
    } else {
        assert(rows[l] == rest[l - n]);
        if k < n {
            assert(rows[k] == here[k]);
            if k > 0 {
                assert(here[k] == inner[k - 1]);
                lemma_group_member(sessions, query, i, end, k - 1);
            }
            if rows[l] is DateHeader {
                let j = lemma_header_source(sessions, query, collapsed, end, l - n);
                if sessions[j].date_group == group {
                    assert(sessions[end].date_group != group);
                    assert(i < end < j);
                    assert(sessions[i].date_group == sessions[j].date_group);
                }
            }
        } else {
            assert(rows[k] == rest[k - n]);
            lemma_one_header(sessions, query, collapsed, end, k - n, l - n);
        }
    }
}

/// Where the sessions of each date stand together, each date has one header.
pub proof fn each_date_has_one_header(
    sessions: Seq<InfoView>,
    query: Seq<char>,
    collapsed: Set<Seq<char>>,
    k: int,
    l: int,
)
    requires
        dates_stand_together(sessions),
        sessions.len() <= usize::MAX,
        0 <= k < l < picker::picker_rows(sessions, query, collapsed).len(),
        picker::picker_rows(sessions, query, collapsed)[k] is DateHeader,
    ensures
        picker::picker_rows(sessions, query, collapsed)[k] != picker::picker_rows(
            sessions,
            query,
            collapsed,
        )[l],
{
    lemma_one_header(sessions, text::lowered(query), collapsed, 0, k, l);
}

/// The date that a row stands for.
pub open spec fn row_date(sessions: Seq<InfoView>, row: PickerRowView) -> Seq<char> {
    match row {
        PickerRowView::DateHeader(group) => group,
        PickerRowView::Session(j) => sessions[j as int].date_group,
    }
}

proof fn lemma_row_source(
    sessions: Seq<InfoView>,
    query: Seq<char>,
    collapsed: Set<Seq<char>>,
    i: int,
    k: int,
) -> (j: int)
    requires
        0 <= i <= sessions.len() <= usize::MAX,
        0 <= k < picker::rows_from(sessions, query, collapsed, i).len(),
    ensures
        i <= j < sessions.len(),
        row_date(sessions, picker::rows_from(sessions, query, collapsed, i)[k])
            == sessions[j].date_group,
{
    match picker::rows_from(sessions, query, collapsed, i)[k] {
        PickerRowView::DateHeader(group) => lemma_header_source(sessions, query, collapsed, i, k),
        PickerRowView::Session(x) => {
            lemma_under_headers(sessions, query, collapsed, i, k, x);
            sessions_stay_in_order(sessions, query, collapsed, i);
            x as int
        },
    }
}

proof fn lemma_dates_ascend(
    sessions: Seq<InfoView>,
    query: Seq<char>,
    collapsed: Set<Seq<char>>,
    i: int,
    k: int,
    l: int,
    a: int,
    b: int,
)
    requires
        dates_stand_together(sessions),
        0 <= i <= sessions.len() <= usize::MAX,
        0 < i < sessions.len() ==> sessions[i - 1].date_group != sessions[i].date_group,
        0 <= k < l < picker::rows_from(sessions, query, collapsed, i).len(),
        0 <= a < sessions.len(),
        0 <= b < sessions.len(),
        sessions[a].date_group == row_date(
            sessions,
            picker::rows_from(sessions, query, collapsed, i)[k],
        ),
        sessions[b].date_group == row_date(
            sessions,
            picker::rows_from(sessions, query, collapsed, i)[l],
        ),
        sessions[a].date_group != sessions[b].date_group,
    ensures
        a < b,
    decreases sessions.len() - i,
{
    let rows = picker::rows_from(sessions, query, collapsed, i);
    let group = sessions[i].date_group;
    let end = picker::group_end(sessions, group, i);
    picker::lemma_group_end(sessions, group, i);
    let here = picker::group_rows(sessions, query, collapsed, i, end);
    let inner = picker::group_sessions(sessions, query, i, end);
    let rest = picker::rows_from(sessions, query, collapsed, end);
    let n = here.len() as int;
    if l < n {
        lemma_here_date(sessions, query, collapsed, i, k);
        lemma_here_date(sessions, query, collapsed, i, l);
        assert(rows[k] == here[k] && rows[l] == here[l]);
    } else {
        assert(rows[l] == rest[l - n]);
        assert(end < sessions.len() ==> sessions[end - 1].date_group == group);
        if k < n {
            lemma_here_date(sessions, query, collapsed, i, k);
            assert(rows[k] == here[k]);
            let j = lemma_row_source(sessions, query, collapsed, end, l - n);
            assert(sessions[a].date_group == group);
            if a >= end {
                assert(sessions[end].date_group != group);
                assert(i < end);
                assert(a != end);
                assert(sessions[i].date_group == sessions[a].date_group);
                assert(sessions[end].date_group == sessions[i].date_group);
            }
            if b < end {
                if b < i {
                    assert(sessions[b].date_group == sessions[j].date_group);
                    assert(b < i && i < j);
                    assert(sessions[i].date_group == sessions[b].date_group);
                } else {
                    assert(sessions[b].date_group == group);
                }
            }
        } else {
            assert(rows[k] == rest[k - n]);
            lemma_dates_ascend(sessions, query, collapsed, end, k - n, l - n, a, b);
        }
    }
}

proof fn lemma_here_date(
    sessions: Seq<InfoView>,
    query: Seq<char>,
    collapsed: Set<Seq<char>>,
    i: int,
    k: int,
)
    requires
        0 <= i < sessions.len() <= usize::MAX,
        0 <= k < picker::group_rows(
            sessions,
            query,
            collapsed,
            i,
            picker::group_end(sessions, sessions[i].date_group, i),
        ).len(),
    ensures
        row_date(
            sessions,
            picker::group_rows(
                sessions,
                query,
                collapsed,
                i,
                picker::group_end(sessions, sessions[i].date_group, i),
            )[k],
        ) == sessions[i].date_group,
{
    let group = sessions[i].date_group;
    let end = picker::group_end(sessions, group, i);
    picker::lemma_group_end(sessions, group, i);
    let here = picker::group_rows(sessions, query, collapsed, i, end);
    let inner = picker::group_sessions(sessions, query, i, end);
    if k > 0 {
        assert(here[k] == inner[k - 1]);
        lemma_group_member(sessions, query, i, end, k - 1);
    }
}

/// Where the sessions of each date stand together, the dates of the list stand in the order of
/// the sessions: a row of one date stands before one of another only where its sessions do.
pub proof fn dates_stay_in_order(
    sessions: Seq<InfoView>,
    query: Seq<char>,
    collapsed: Set<Seq<char>>,
    k: int,
    l: int,
    a: int,
    b: int,
)
    requires
        dates_stand_together(sessions),
        sessions.len() <= usize::MAX,
        0 <= k < l < picker::picker_rows(sessions, query, collapsed).len(),
        0 <= a < sessions.len(),
        0 <= b < sessions.len(),
        sessions[a].date_group == row_date(
            sessions,
            picker::picker_rows(sessions, query, collapsed)[k],
        ),
        sessions[b].date_group == row_date(
            sessions,
            picker::picker_rows(sessions, query, collapsed)[l],
        ),
        sessions[a].date_group != sessions[b].date_group,
    ensures
        a < b,
{
    lemma_dates_ascend(sessions, text::lowered(query), collapsed, 0, k, l, a, b);
}

} // verus!
