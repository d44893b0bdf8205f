//! Human-readable thread titles written by modern Codex CLIs.
//!
//! Conversation titles live in the Codex state database (`~/.codex/state_*.sqlite`, table
//! `threads`, columns `name` and `title`). The database may not exist or may be locked by a
//! running Codex process; every failure degrades to an empty map.

use vstd::prelude::*;

use crate::decimal;
use crate::order;
use crate::text;
use crate::text_map::TextMap;

verus! {

/// A row of the table `threads`.
#[derive(Debug)]
pub struct ThreadRow {
    pub id: String,
    pub name: Option<String>,
    pub title: String,
}

/// The contents of a [`ThreadRow`].
pub struct RowView {
    pub id: Seq<char>,
    pub name: Option<Seq<char>>,
    pub title: Seq<char>,
}

impl DeepView for ThreadRow {
    type V = RowView;

    open spec fn deep_view(&self) -> RowView {
        RowView { id: self.id@, name: self.name.deep_view(), title: self.title@ }
    }
}

pub const MARKER_PREFIX: &'static str = "<";

pub const PROMPT_PREFIX: &'static str = "You are";

pub const DB_PREFIX: &'static str = "state_";

pub const DB_SUFFIX: &'static str = ".sqlite";

/// The title that a thread is shown with: its name, unless that is blank, else its title without
/// the white space around it, unless that is empty, an internal marker or a pasted system
/// prompt.
pub open spec fn shown_title(row: RowView) -> Option<Seq<char>> {
    if row.name is Some && !text::all_white(row.name->0) {
        row.name
    } else {
        let t = text::trimmed(row.title);
        if t.len() > 0 && !text::has_prefix(t, MARKER_PREFIX@) && !text::has_prefix(
            t,
            PROMPT_PREFIX@,
        ) {
            Some(t)
        } else {
            None
        }
    }
}

/// The titles by thread of some rows; of two rows of one thread the later one counts.
pub open spec fn titles_by_id(rows: Seq<RowView>) -> Map<Seq<char>, Seq<char>>
    decreases rows.len(),
{
    if rows.len() == 0 {
        Map::empty()
    } else {
        let before = titles_by_id(rows.drop_last());
        match shown_title(rows.last()) {
            Some(t) => before.insert(rows.last().id, t),
            None => before,
        }
    }
}

/// The rows that were read, where none of them is unreadable.
pub open spec fn readable(rows: Seq<Option<RowView>>) -> bool {
    forall|i: int| 0 <= i < rows.len() ==> (#[trigger] rows[i]) is Some
}

pub open spec fn the_rows(rows: Seq<Option<RowView>>) -> Seq<RowView> {
    Seq::new(rows.len(), |i: int| rows[i]->0)
}

/// The titles of a database: nothing where a row is unreadable.
pub open spec fn database_titles(rows: Seq<Option<RowView>>) -> Option<Map<Seq<char>, Seq<char>>> {
    if readable(rows) {
        Some(titles_by_id(the_rows(rows)))
    } else {
        None
    }
}

/// The title that a thread is shown with. The short user-facing name is preferred; the longer
/// title is skipped where it is an internal marker ("<codex_delegation>...") or a pasted system
/// prompt ("You are ..."), which subagent threads store in that column.
pub fn title_for_row(row: &ThreadRow) -> (r: Option<String>)
    ensures
        r.deep_view() == shown_title(row.deep_view()),
{
    if let Some(name) = &row.name {
        if !text::is_blank(name.as_str()) {
            return Some(name.clone());
        }
    }
    let t = text::trim(row.title.as_str());
    let chars = text::chars_of(t.as_str());
    if chars.len() > 0 && !text::starts_with(chars.as_slice(), MARKER_PREFIX) && !text::starts_with(
        chars.as_slice(),
        PROMPT_PREFIX,
    ) {
        Some(t)
    } else {
        None
    }
}

/// The titles of the rows of a database, by thread. A row that could not be read is `None`.
pub fn read_titles(rows: &Vec<Option<ThreadRow>>) -> (r: Option<TextMap<String>>)
    ensures
        r.deep_view() == database_titles(rows.deep_view()),
{
    let ghost all = rows.deep_view();
    let ghost known = the_rows(all);
    let mut map: TextMap<String> = TextMap::new();
    let mut i: usize = 0;
    assert(map.deep_view() =~= titles_by_id(known.take(0)));
    while i < rows.len()
        invariant
            i <= rows@.len(),
            all == rows.deep_view(),
            known == the_rows(all),
            forall|k: int| 0 <= k < i ==> (#[trigger] all[k]) is Some,
            map.deep_view() == titles_by_id(known.take(i as int)),
        decreases rows@.len() - i,
    {
        let ghost before = map@;
        assert(known.take(i + 1).drop_last() =~= known.take(i as int));
        match &rows[i] {
            Some(row) => {
                assert(all[i as int] == Some(row.deep_view()));
                if let Some(t) = title_for_row(row) {
                    let ghost tv = t@;
                    map.insert(row.id.as_str(), t);
                    assert(map.deep_view() =~= before.map_values(|v: String| v.deep_view()).insert(
                        row.id@,
                        tv,
                    ));
                }
            },
            None => {
                assert(all[i as int] is None);
                return None;
            },
        }
        i += 1;
    }
    assert(known.take(i as int) =~= known);
    Some(map)
}

/// The titles of the first of some databases that can be read; those that could not be opened
/// or queried are `None`.
pub open spec fn first_titles(
    databases: Seq<Option<Seq<Option<RowView>>>>,
) -> Map<Seq<char>, Seq<char>>
    decreases databases.len(),
{
    if databases.len() == 0 {
        Map::empty()
    } else if databases[0] is Some && readable(databases[0]->0) {
        titles_by_id(the_rows(databases[0]->0))
    } else {
        first_titles(databases.skip(1))
    }
}

/// Load `thread id -> display title` from the newest Codex state database that can be read.
pub fn load_thread_titles(databases: &Vec<Option<Vec<Option<ThreadRow>>>>) -> (r: TextMap<String>)
    ensures
        r.deep_view() == first_titles(databases.deep_view()),
{
    let ghost all = databases.deep_view();
    let mut i: usize = 0;
    assert(all.skip(0) =~= all);
    while i < databases.len()
        invariant
            i <= databases@.len(),
            all == databases.deep_view(),
            first_titles(all) == first_titles(all.skip(i as int)),
        decreases databases@.len() - i,
    {
        assert(all.skip(i as int)[0] == all[i as int]);
        assert(all.skip(i as int).skip(1) =~= all.skip(i + 1));
        if let Some(rows) = &databases[i] {
            assert(all[i as int] == Some(rows.deep_view()));
            if let Some(map) = read_titles(rows) {
                return map;
            }
        }
        i += 1;
    }
    let map: TextMap<String> = TextMap::new();
    assert(map.deep_view() =~= Map::<Seq<char>, Seq<char>>::empty());
    map
}

/// The schema version in the name of a state database.
pub open spec fn schema_version(name: Seq<char>) -> Option<u32> {
    let n = DB_PREFIX@.len() as int;
    if text::has_prefix(name, DB_PREFIX@) && text::has_suffix(name.skip(n), DB_SUFFIX@) {
        decimal::parsed_u32(name.subrange(n, name.len() - DB_SUFFIX@.len()))
    } else {
        None
    }
}

/// The schema version in the name of a state database.
pub fn state_db_version(name: &str) -> (r: Option<u32>)
    ensures
        r == schema_version(name@),
{
    let chars = text::chars_of(name);
    if !text::starts_with(chars.as_slice(), DB_PREFIX) {
        return None;
    }
    let from = text::chars_of(DB_PREFIX).len();
    let rest = text::chars_of(text::string_of(chars.as_slice(), from, chars.len()).as_str());
    assert(rest@ =~= name@.skip(DB_PREFIX@.len() as int));
    if !text::ends_with(rest.as_slice(), DB_SUFFIX) {
        return None;
    }
    let to = rest.len() - text::chars_of(DB_SUFFIX).len();
    let number = text::chars_of(text::string_of(rest.as_slice(), 0, to).as_str());
    assert(number@ =~= name@.subrange(DB_PREFIX@.len() as int, name@.len() - DB_SUFFIX@.len()));
    decimal::parse_u32(number.as_slice())
}

/// The names of state databases among some names, with ranks that put the newest schema first.
pub open spec fn ranked_dbs(names: Seq<Seq<char>>) -> Seq<(i128, Seq<char>)>
    decreases names.len(),
{
    if names.len() == 0 {
        seq![]
    } else {
        let before = ranked_dbs(names.drop_last());
        match schema_version(names.last()) {
            Some(v) => before.push(((-v) as i128, names.last())),
            None => before,
        }
    }
}

/// The state databases (`state_*.sqlite`) among some file names, sorted by schema version,
/// newest first.
pub fn candidate_state_dbs(names: &Vec<String>) -> (r: Vec<String>)
    ensures
        r.deep_view() == order::unranked(order::sorted(ranked_dbs(names.deep_view()))),
{
    let ghost all = names.deep_view();
    let mut found: Vec<(i128, String)> = Vec::new();
    let mut i: usize = 0;
    assert(all.take(0) =~= seq![]);
    assert(found.deep_view() =~= seq![]);
    while i < names.len()
        invariant
            i <= names@.len(),
            all == names.deep_view(),
            found.deep_view() == order::sorted(ranked_dbs(all.take(i as int))),
        decreases names@.len() - i,
    {
        proof {
            assert(all.take(i + 1).drop_last() =~= all.take(i as int));
            let before = ranked_dbs(all.take(i as int));
            if let Some(v) = schema_version(all[i as int]) {
                let item = ((-v) as i128, all[i as int]);
                assert(before.push(item).drop_last() =~= before);
            }
        }
        if let Some(v) = state_db_version(names[i].as_str()) {
            order::insert_ranked(&mut found, -(v as i128), names[i].clone());
        }
        i += 1;
    }
    assert(all.take(i as int) =~= all);
    let ghost ranked = found.deep_view();
    let mut r: Vec<String> = Vec::new();
    let mut j: usize = 0;
    while j < found.len()
        invariant
            j <= found@.len(),
            ranked == found.deep_view(),
            r.deep_view() == order::unranked(ranked).take(j as int),
        decreases found@.len() - j,
    {
        let ghost before = r.deep_view();
        let name = found[j].1.clone();
        let ghost nv = name@;
        assert(nv == ranked[j as int].1);
        r.push(name);
        assert(r.deep_view() =~= before.push(nv));
        assert(order::unranked(ranked).take(j + 1) =~= order::unranked(ranked).take(j as int).push(
            nv,
        ));
        j += 1;
    }
    assert(order::unranked(ranked).take(j as int) =~= order::unranked(ranked));
    r
}

proof fn lemma_ranked(names: Seq<Seq<char>>, k: int)
    requires
        0 <= k < ranked_dbs(names).len(),
    ensures
        schema_version(ranked_dbs(names)[k].1) is Some,
        ranked_dbs(names)[k].0 == -(schema_version(ranked_dbs(names)[k].1)->0),
    decreases names.len(),
{
    if k < ranked_dbs(names.drop_last()).len() {
        lemma_ranked(names.drop_last(), k);
    }
}

/// Each candidate is a state database, and none stands behind one of an older schema.
pub proof fn candidates_are_newest_first(names: Seq<Seq<char>>, i: int, j: int)
    requires
        0 <= i <= j < order::sorted(ranked_dbs(names)).len(),
    ensures
        ({
            let c = order::unranked(order::sorted(ranked_dbs(names)));
            &&& schema_version(c[i]) is Some
            &&& schema_version(c[j]) is Some
            &&& schema_version(c[i])->0 >= schema_version(c[j])->0
        }),
{
    let ranked = ranked_dbs(names);
    let s = order::sorted(ranked);
    order::sorting_ascends(ranked);
    assert(s[i].0 <= s[j].0);
    order::sorting_invents_nothing(ranked, i);
    order::sorting_invents_nothing(ranked, j);
    let a = choose|k: int| 0 <= k < ranked.len() && ranked[k] == s[i];
    let b = choose|k: int| 0 <= k < ranked.len() && ranked[k] == s[j];
    lemma_ranked(names, a);
    lemma_ranked(names, b);
}

/// No thread is shown with a blank title.
pub proof fn titles_are_never_blank(row: RowView)
    ensures
        shown_title(row) matches Some(t) ==> !text::all_white(t),
{
    if let Some(t) = shown_title(row) {
        if !(row.name is Some && !text::all_white(row.name->0)) {
            text::lemma_trimmed_empty(row.title);
            text::lemma_trimmed_not_white(row.title);
        }
    }
}

} // verus!
