//! What holds of the titles of threads and of the databases that they come from.

use vstd::prelude::*;

use crate::decimal;
use crate::order;
use crate::parser::titles;
use crate::parser::titles::RowView;
use crate::text;
use crate::text_laws;

verus! {

/// Whether a text holds anything but white space.
pub open spec fn says_something(s: Seq<char>) -> bool {
    exists|i: int| 0 <= i < s.len() && !text::white_space(#[trigger] s[i])
}

/// Whether a text is a marker or a system prompt, which are for no reader.
pub open spec fn is_internal(s: Seq<char>) -> bool {
    ||| exists|rest: Seq<char>| s == #[trigger] ("<"@ + rest)
    ||| exists|rest: Seq<char>| s == #[trigger] ("You are"@ + rest)
}

proof fn lemma_internal(s: Seq<char>)
    ensures
        is_internal(s) <==> text::has_prefix(s, titles::MARKER_PREFIX@) || text::has_prefix(
            s,
            titles::PROMPT_PREFIX@,
        ),
{
    let m = "<"@;
    let p = "You are"@;
    if text::has_prefix(s, m) {
        let rest = s.skip(m.len() as int);
        assert(s =~= m + rest);
    }
    if text::has_prefix(s, p) {
        let rest = s.skip(p.len() as int);
        assert(s =~= p + rest);
    }
    if exists|rest: Seq<char>| s == #[trigger] (m + rest) {
        let rest = choose|rest: Seq<char>| s == #[trigger] (m + rest);
        assert(s.take(m.len() as int) =~= m);
    }
    if exists|rest: Seq<char>| s == #[trigger] (p + rest) {
        let rest = choose|rest: Seq<char>| s == #[trigger] (p + rest);
        assert(s.take(p.len() as int) =~= p);
    }
}

/// A thread with a name that says something is shown with that name, as it is.
pub proof fn names_are_shown_as_they_are(row: RowView, name: Seq<char>)
    requires
        row.name == Some(name),
        says_something(name),
    ensures
        titles::shown_title(row) == Some(name),
{
    let i = choose|i: int| 0 <= i < name.len() && !text::white_space(#[trigger] name[i]);
    assert(!text::white_space(name[i]));
}

/// A thread without such a name is shown with its title without the white space around it, unless
/// nothing is left of it, or a marker or a system prompt.
pub proof fn titles_stand_in_for_names(row: RowView)
    requires
        row.name is None || !says_something(row.name->0),
    ensures
        titles::shown_title(row) matches Some(t) ==> text_laws::is_core(t, row.title) && t.len()
            > 0 && !is_internal(t),
        titles::shown_title(row) is None ==> !says_something(row.title) || exists|t: Seq<char>|
            #[trigger] text_laws::is_core(t, row.title) && is_internal(t),
{
    if let Some(name) = row.name {
        assert forall|i: int| 0 <= i < name.len() implies text::white_space(#[trigger] name[i]) by {}
    }
    let t = text::trimmed(row.title);
    text_laws::trimming_takes_the_white_space_around(row.title);
    lemma_internal(t);
    text::lemma_trimmed_empty(row.title);
    if titles::shown_title(row) is None && t.len() > 0 {
        assert(text_laws::is_core(t, row.title) && is_internal(t));
    }
}

/// The title of a thread is that of the last of its rows that has one.
pub proof fn the_last_title_of_a_thread_counts(rows: Seq<RowView>, k: int)
    requires
        0 <= k < rows.len(),
        titles::shown_title(rows[k]) is Some,
        forall|l: int|
            k < l < rows.len() && (#[trigger] rows[l]).id == rows[k].id ==> titles::shown_title(
                rows[l],
            ) is None,
    ensures
        titles::titles_by_id(rows).contains_key(rows[k].id),
        titles::titles_by_id(rows)[rows[k].id] == titles::shown_title(rows[k])->0,
    decreases rows.len(),
{
    let front = rows.drop_last();
    if k < rows.len() - 1 {
        assert(front[k] == rows[k]);
        assert forall|l: int|
            k < l < front.len() && (#[trigger] front[l]).id
                == front[k].id implies titles::shown_title(front[l]) is None by {
            assert(front[l] == rows[l]);
        }
        the_last_title_of_a_thread_counts(front, k);
        assert(rows.last() == rows[rows.len() - 1]);
    }
}

/// A thread has a title only from one of its rows.
pub proof fn titles_come_from_rows(rows: Seq<RowView>, id: Seq<char>)
    requires
        titles::titles_by_id(rows).contains_key(id),
    ensures
        exists|k: int|
            0 <= k < rows.len() && (#[trigger] rows[k]).id == id && titles::shown_title(rows[k])
                == Some(titles::titles_by_id(rows)[id]),
    decreases rows.len(),
{
    let front = rows.drop_last();
    let last = rows.len() - 1;
    assert(rows.last() == rows[last]);
    if titles::shown_title(rows[last]) is Some && rows[last].id == id {
        assert(rows[last].id == id);
    } else {
        titles_come_from_rows(front, id);
        let k = choose|k: int|
            0 <= k < front.len() && (#[trigger] front[k]).id == id && titles::shown_title(front[k])
                == Some(titles::titles_by_id(front)[id]);
        assert(rows[k] == front[k]);
    }
}

/// A database with a row that cannot be read has no titles; any other has those of its rows.
pub proof fn databases_are_read_whole(rows: Seq<Option<RowView>>)
    ensures
        (exists|k: int| 0 <= k < rows.len() && (#[trigger] rows[k]) is None)
            <==> titles::database_titles(rows) is None,
        titles::database_titles(rows) matches Some(map) ==> map == titles::titles_by_id(
            Seq::new(rows.len(), |k: int| rows[k]->0),
        ),
{
    if titles::readable(rows) {
        assert(titles::the_rows(rows) =~= Seq::new(rows.len(), |k: int| rows[k]->0));
    } else {
        let k = choose|k: int| 0 <= k < rows.len() && !((#[trigger] rows[k]) is Some);
        assert(rows[k] is None);
    }
}

/// Whether a database cannot be read.
pub open spec fn unreadable(database: Option<Seq<Option<RowView>>>) -> bool {
    database is None || titles::database_titles(database->0) is None
}

/// The titles are those of the first database that can be read.
pub proof fn the_first_readable_database_counts(
    databases: Seq<Option<Seq<Option<RowView>>>>,
    k: int,
)
    requires
        0 <= k < databases.len(),
        !unreadable(databases[k]),
        forall|l: int| 0 <= l < k ==> unreadable(#[trigger] databases[l]),
    ensures
        titles::database_titles(databases[k]->0) == Some(titles::first_titles(databases)),
    decreases databases.len(),
{
    if k > 0 {
        assert(unreadable(databases[0]));
        let rest = databases.skip(1);
        assert(rest[k - 1] == databases[k]);
        assert forall|l: int| 0 <= l < k - 1 implies unreadable(#[trigger] rest[l]) by {
            assert(rest[l] == databases[l + 1]);
        }
        the_first_readable_database_counts(rest, k - 1);
    }
}

/// Where no database can be read, there are no titles.
pub proof fn without_a_database_there_are_no_titles(
    databases: Seq<Option<Seq<Option<RowView>>>>,
    id: Seq<char>,
)
    requires
        forall|l: int| 0 <= l < databases.len() ==> unreadable(#[trigger] databases[l]),
    ensures
        !titles::first_titles(databases).contains_key(id),
    decreases databases.len(),
{
    if databases.len() > 0 {
        assert(unreadable(databases[0]));
        let rest = databases.skip(1);
        assert forall|l: int| 0 <= l < rest.len() implies unreadable(#[trigger] rest[l]) by {
            assert(rest[l] == databases[l + 1]);
        }
        without_a_database_there_are_no_titles(rest, id);
    }
}

proof fn lemma_version(name: Seq<char>, number: Seq<char>)
    requires
        name == "state_"@ + number + ".sqlite"@,
    ensures
        titles::schema_version(name) == decimal::parsed_u32(number),
{
    let p = "state_"@;
    let q = ".sqlite"@;
    let rest = name.skip(p.len() as int);
    assert(name.take(p.len() as int) =~= p);
    assert(rest =~= number + q);
    assert(rest.skip(rest.len() - q.len()) =~= q);
    assert(name.subrange(p.len() as int, name.len() - q.len()) =~= number);
}

/// The state database of a schema is named by the number of the schema.
pub proof fn databases_are_named_by_their_schema(version: u32)
    ensures
        titles::schema_version("state_"@ + decimal::digits(version as nat) + ".sqlite"@) == Some(
            version,
        ),
{
    let number = decimal::digits(version as nat);
    lemma_version("state_"@ + number + ".sqlite"@, number);
    decimal::digits_denote_the_number(version as nat);
}

/// Only such a name is that of a state database: what stands between its fixed parts denotes its
/// schema.
pub proof fn other_names_are_no_databases(name: Seq<char>)
    ensures
        titles::schema_version(name) matches Some(v) ==> exists|number: Seq<char>|
            name == #[trigger] ("state_"@ + number + ".sqlite"@) && decimal::parsed_u32(number)
                == Some(v),
{
    if let Some(v) = titles::schema_version(name) {
        let p = "state_"@;
        let q = ".sqlite"@;
        let rest = name.skip(p.len() as int);
        let number = name.subrange(p.len() as int, name.len() - q.len());
        assert(name =~= name.take(p.len() as int) + rest);
        assert(rest =~= number + rest.skip(rest.len() - q.len()));
        assert(name =~= p + number + q);
    }
}

proof fn lemma_ranked_has(names: Seq<Seq<char>>, k: int)
    requires
        0 <= k < names.len(),
        titles::schema_version(names[k]) is Some,
    ensures
        exists|j: int|
            0 <= j < titles::ranked_dbs(names).len() && (#[trigger] titles::ranked_dbs(names)[j]).1
                == names[k],
    decreases names.len(),
{
    let all = titles::ranked_dbs(names);
    let before = titles::ranked_dbs(names.drop_last());
    if k == names.len() - 1 {
        assert(all[before.len() as int].1 == names[k]);
    } else {
        assert(names.drop_last()[k] == names[k]);
        lemma_ranked_has(names.drop_last(), k);
        let j = choose|j: int| 0 <= j < before.len() && (#[trigger] before[j]).1 == names[k];
        assert(all[j] == before[j]);
    }
}

proof fn lemma_ranked_from(names: Seq<Seq<char>>, j: int)
    requires
        0 <= j < titles::ranked_dbs(names).len(),
    ensures
        names.contains(titles::ranked_dbs(names)[j].1),
        titles::schema_version(titles::ranked_dbs(names)[j].1) is Some,
    decreases names.len(),
{
    let all = titles::ranked_dbs(names);
    let front = names.drop_last();
    let before = titles::ranked_dbs(front);
    if j < before.len() {
        lemma_ranked_from(front, j);
        assert(all[j] == before[j]);
        let k = choose|k: int| 0 <= k < front.len() && front[k] == before[j].1;
        assert(names[k] == all[j].1);
    } else {
        assert(names[names.len() - 1] == all[j].1);
    }
}

/// The candidates are the state databases among the names: all of them, and nothing else.
pub proof fn candidates_are_the_databases(names: Seq<Seq<char>>, name: Seq<char>)
    ensures
        order::unranked(order::sorted(titles::ranked_dbs(names))).contains(name)
            <==> names.contains(name) && titles::schema_version(name) is Some,
{
    let ranked = titles::ranked_dbs(names);
    let sorted = order::sorted(ranked);
    let shown = order::unranked(sorted);
    let places = order::sorting_is_a_ranking(ranked);
    if shown.contains(name) {
        let i = choose|i: int| 0 <= i < shown.len() && shown[i] == name;
        assert(sorted[i] == ranked[places[i]]);
        lemma_ranked_from(names, places[i]);
    }
    if names.contains(name) && titles::schema_version(name) is Some {
        let k = choose|k: int| 0 <= k < names.len() && names[k] == name;
        lemma_ranked_has(names, k);
        let j = choose|j: int| 0 <= j < ranked.len() && (#[trigger] ranked[j]).1 == names[k];
        assert(places.contains(j));
        let i = choose|i: int| 0 <= i < places.len() && places[i] == j;
        assert(sorted[i] == ranked[places[i]]);
        assert(shown[i] == name);
    }
}

proof fn lemma_ranked_filter(names: Seq<Seq<char>>)
    ensures
        titles::ranked_dbs(names).len() == names.filter(
            |name: Seq<char>| titles::schema_version(name) is Some,
        ).len(),
    decreases names.len(),
{
    reveal(Seq::filter);
    if names.len() > 0 {
        lemma_ranked_filter(names.drop_last());
    }
}

/// Each state database is a candidate as often as it is named.
pub proof fn candidates_are_counted_once(names: Seq<Seq<char>>)
    ensures
        order::unranked(order::sorted(titles::ranked_dbs(names))).len() == names.filter(
            |name: Seq<char>| titles::schema_version(name) is Some,
        ).len(),
{
    lemma_ranked_filter(names);
    order::sorting_ascends(titles::ranked_dbs(names));
}

} // verus!
