//! JSON values.

use vstd::prelude::*;

verus! {

/// A number of a JSON text, as `serde_json` holds it.
#[verifier::external_type_specification]
#[verifier::external_body]
pub struct ExNumber(serde_json::Number);

/// `serde_json::Number::clone` gives an equal number.
pub assume_specification[ <serde_json::Number as Clone>::clone ](n: &serde_json::Number) -> (r:
    serde_json::Number)
    ensures
        r == *n,
;

/// A JSON value. The members of an object that was parsed stand in the order of their names, each
/// name once.
#[derive(Debug, PartialEq)]
pub enum Json {
    Null,
    Bool(bool),
    Number(serde_json::Number),
    Str(String),
    Array(Vec<Json>),
    Object(Vec<(String, Json)>),
}

/// The contents of a [`Json`].
pub enum JsonView {
    Null,
    Bool(bool),
    Number(serde_json::Number),
    Str(Seq<char>),
    Array(Seq<JsonView>),
    Object(Seq<(Seq<char>, JsonView)>),
}

/// The contents of a value.
pub open spec fn contents(value: Json) -> JsonView
    decreases value,
{
    match value {
        Json::Null => JsonView::Null,
        Json::Bool(b) => JsonView::Bool(b),
        Json::Number(n) => JsonView::Number(n),
        Json::Str(s) => JsonView::Str(s@),
        Json::Array(items) => JsonView::Array(
            Seq::new(
                items@.len(),
                |i: int|
                    if 0 <= i < items@.len() {
                        contents(items@[i])
                    } else {
                        JsonView::Null
                    },
            ),
        ),
        Json::Object(members) => JsonView::Object(
            Seq::new(
                members@.len(),
                |i: int|
                    if 0 <= i < members@.len() {
                        (members@[i].0@, contents(members@[i].1))
                    } else {
                        (seq![], JsonView::Null)
                    },
            ),
        ),
    }
}

impl DeepView for Json {
    type V = JsonView;

    open spec fn deep_view(&self) -> JsonView {
        contents(*self)
    }
}

/// The value of the first member of that name.
pub open spec fn find(members: Seq<(Seq<char>, JsonView)>, name: Seq<char>) -> Option<JsonView>
    decreases members.len(),
{
    if members.len() == 0 {
        None
    } else if members[0].0 == name {
        Some(members[0].1)
    } else {
        find(members.skip(1), name)
    }
}

impl JsonView {
    /// The member of an object by its name; other values have none.
    pub open spec fn member(self, name: Seq<char>) -> Option<JsonView> {
        match self {
            JsonView::Object(members) => find(members, name),
            _ => None,
        }
    }

    /// The member of that name, where it is a string.
    pub open spec fn text_member(self, name: Seq<char>) -> Option<Seq<char>> {
        match self.member(name) {
            Some(JsonView::Str(s)) => Some(s),
            _ => None,
        }
    }

    /// Whether the value is an object with a member of that name.
    pub open spec fn has(self, name: Seq<char>) -> bool {
        self.member(name) is Some
    }
}

impl Json {
    /// The member of an object by its name; other values have none.
    pub fn get(&self, name: &str) -> (r: Option<&Json>)
        ensures
            match r {
                Some(v) => self.deep_view().member(name@) == Some(v.deep_view()),
                None => self.deep_view().member(name@) is None,
            },
    {
        match self {
            Json::Object(members) => {
                let ghost all = self.deep_view()->Object_0;
                let key = name.to_owned();
                let mut i: usize = 0;
                assert(all.skip(0) =~= all);
                while i < members.len()
                    invariant
                        i <= members@.len(),
                        *self == Json::Object(*members),
                        all == contents(*self)->Object_0,
                        key@ == name@,
                        find(all, name@) == find(all.skip(i as int), name@),
                    decreases members@.len() - i,
                {
                    assert(all.skip(i as int)[0] == all[i as int]);
                    if members[i].0 == key {
                        return Some(&members[i].1);
                    }
                    assert(all.skip(i as int).skip(1) =~= all.skip(i + 1));
                    i += 1;
                }
                None
            },
            _ => None,
        }
    }

    /// The text of a string; other values have none.
    pub fn as_str(&self) -> (r: Option<&str>)
        ensures
            match r {
                Some(s) => self.deep_view() == JsonView::Str(s@),
                None => !(self.deep_view() is Str),
            },
    {
        match self {
            Json::Str(s) => Some(s.as_str()),
            _ => None,
        }
    }

    /// The text of the member of that name, where it is a string.
    pub fn get_str(&self, name: &str) -> (r: Option<&str>)
        ensures
            r.deep_view() == self.deep_view().text_member(name@),
    {
        match self.get(name) {
            Some(v) => v.as_str(),
            None => None,
        }
    }

    /// Whether the value is an object with a member of that name.
    pub fn has(&self, name: &str) -> (r: bool)
        ensures
            r == self.deep_view().has(name@),
    {
        self.get(name).is_some()
    }

    fn copy(&self) -> (r: Json)
        ensures
            r.deep_view() == self.deep_view(),
        decreases self,
    {
        match self {
            Json::Null => Json::Null,
            Json::Bool(b) => Json::Bool(*b),
            Json::Number(n) => Json::Number(n.clone()),
            Json::Str(s) => Json::Str(s.clone()),
            Json::Array(items) => {
                let mut out: Vec<Json> = Vec::new();
                let mut i: usize = 0;
                while i < items.len()
                    invariant
                        i <= items@.len(),
                        out@.len() == i,
                        *self == Json::Array(*items),
                        forall|k: int| 0 <= k < i ==> contents(#[trigger] out@[k]) == contents(items@[k]),
                    decreases items@.len() - i,
                {
                    assert(decreases_to!(*self => (*self)->Array_0));
                    assert(decreases_to!(*items => items@));
                    assert(decreases_to!(items@ => items@[i as int]));
                    out.push(items[i].copy());
                    i += 1;
                }
                let r = Json::Array(out);
                assert(contents(r)->Array_0 =~= contents(*self)->Array_0);
                r
            },
            Json::Object(members) => {
                let mut out: Vec<(String, Json)> = Vec::new();
                let mut i: usize = 0;
                while i < members.len()
                    invariant
                        i <= members@.len(),
                        out@.len() == i,
                        *self == Json::Object(*members),
                        forall|k: int|
                            0 <= k < i ==> (#[trigger] out@[k]).0@ == members@[k].0@ && contents(
                                out@[k].1,
                            ) == contents(members@[k].1),
                    decreases members@.len() - i,
                {
                    assert(decreases_to!(*self => (*self)->Object_0));
                    assert(decreases_to!(*members => members@));
                    assert(decreases_to!(members@ => members@[i as int]));
                    assert(decreases_to!(members@[i as int] => members@[i as int].1));
                    out.push((members[i].0.clone(), members[i].1.copy()));
                    i += 1;
                }
                let r = Json::Object(out);
                assert(contents(r)->Object_0 =~= contents(*self)->Object_0);
                r
            },
        }
    }
}

impl Clone for Json {
    fn clone(&self) -> (r: Json)
        ensures
            r.deep_view() == self.deep_view(),
    {
        self.copy()
    }
}

/// A value as `serde_json` reads and writes it.
#[verifier::external_type_specification]
#[verifier::external_body]
pub struct ExValue(serde_json::Value);

/// The members of an object as `serde_json` keeps them.
#[verifier::external_type_specification]
#[verifier::external_body]
#[verifier::reject_recursive_types(K)]
#[verifier::reject_recursive_types(V)]
pub struct ExMap<K, V>(serde_json::Map<K, V>);

/// What a `serde_json::Value` holds, the members of an object in the order in which its map is
/// walked.
pub uninterp spec fn held(value: serde_json::Value) -> JsonView;

/// The members that a `serde_json::Map` holds, in the order in which it is walked.
pub uninterp spec fn map_held(
    map: serde_json::Map<String, serde_json::Value>,
) -> Seq<(Seq<char>, JsonView)>;

/// What `serde_json::from_str` reads from a text, where that is one JSON value.
pub uninterp spec fn parsed(text: Seq<char>) -> Option<JsonView>;

/// Whether a name stands before another: at the first place where they differ it has the smaller
/// character, or there it ends.
pub open spec fn precedes(a: Seq<char>, b: Seq<char>) -> bool
    decreases a.len(),
{
    if b.len() == 0 {
        false
    } else if a.len() == 0 {
        true
    } else if a[0] == b[0] {
        precedes(a.skip(1), b.skip(1))
    } else {
        a[0] < b[0]
    }
}

/// Members in the order of their names with one more: it takes the place of the member of its
/// name, where there is one.
pub open spec fn with_member(
    members: Seq<(Seq<char>, JsonView)>,
    name: Seq<char>,
    value: JsonView,
) -> Seq<(Seq<char>, JsonView)>
    decreases members.len(),
{
    if members.len() == 0 {
        seq![(name, value)]
    } else if members[0].0 == name {
        members.update(0, (name, value))
    } else if precedes(name, members[0].0) {
        seq![(name, value)] + members
    } else {
        seq![members[0]] + with_member(members.skip(1), name, value)
    }
}

/// Members collected in the order of their names; of those of one name the last one stays.
pub open spec fn collected(members: Seq<(Seq<char>, JsonView)>) -> Seq<(Seq<char>, JsonView)>
    decreases members.len(),
{
    if members.len() == 0 {
        seq![]
    } else {
        with_member(collected(members.drop_last()), members.last().0, members.last().1)
    }
}

/// What a `serde_json::Value` keeps of a value: its objects have one member for each name, in the
/// order of the names.
pub open spec fn kept(value: JsonView) -> JsonView
    decreases value,
{
    match value {
        JsonView::Array(items) => JsonView::Array(
            Seq::new(
                items.len(),
                |i: int|
                    if 0 <= i < items.len() {
                        kept(items[i])
                    } else {
                        JsonView::Null
                    },
            ),
        ),
        JsonView::Object(members) => JsonView::Object(collected(kept_members(members))),
        _ => value,
    }
}

/// What is kept of the values of some members.
pub open spec fn kept_members(
    members: Seq<(Seq<char>, JsonView)>,
) -> Seq<(Seq<char>, JsonView)>
    decreases members,
{
    Seq::new(
        members.len(),
        |i: int|
            if 0 <= i < members.len() {
                (members[i].0, kept(members[i].1))
            } else {
                (seq![], JsonView::Null)
            },
    )
}

/// Whether members stand in the order of their names, each name once.
pub open spec fn ascending(members: Seq<(Seq<char>, JsonView)>) -> bool {
    forall|i: int, j: int|
        0 <= i < j < members.len() ==> precedes((#[trigger] members[i]).0, (#[trigger] members[j]).0)
}

/// Whether the members of every object in a value stand in the order of their names, each name
/// once.
pub open spec fn ordered(value: JsonView) -> bool
    decreases value,
{
    match value {
        JsonView::Array(items) => forall|i: int|
            0 <= i < items.len() ==> ordered(#[trigger] items[i]),
        JsonView::Object(members) => {
            &&& ascending(members)
            &&& forall|i: int| 0 <= i < members.len() ==> ordered((#[trigger] members[i]).1)
        },
        _ => true,
    }
}

proof fn lemma_precedes_one_way(a: Seq<char>, b: Seq<char>)
    requires
        precedes(a, b),
    ensures
        a != b,
        !precedes(b, a),
    decreases a.len(),
{
    if a.len() > 0 && a[0] == b[0] {
        lemma_precedes_one_way(a.skip(1), b.skip(1));
    }
}

proof fn lemma_with_last(
    members: Seq<(Seq<char>, JsonView)>,
    name: Seq<char>,
    value: JsonView,
)
    requires
        forall|i: int| 0 <= i < members.len() ==> precedes((#[trigger] members[i]).0, name),
    ensures
        with_member(members, name, value) == members.push((name, value)),
    decreases members.len(),
{
    if members.len() > 0 {
        let rest = members.skip(1);
        lemma_precedes_one_way(members[0].0, name);
        assert forall|i: int| 0 <= i < rest.len() implies precedes((#[trigger] rest[i]).0, name) by {
            assert(rest[i] == members[i + 1]);
        }
        lemma_with_last(rest, name, value);
        assert(seq![members[0]] + rest.push((name, value)) =~= members.push((name, value)));
    } else {
        assert(seq![(name, value)] =~= members.push((name, value)));
    }
}

proof fn lemma_collected_ascending(members: Seq<(Seq<char>, JsonView)>)
    requires
        ascending(members),
    ensures
        collected(members) == members,
    decreases members.len(),
{
    if members.len() > 0 {
        let front = members.drop_last();
        lemma_collected_ascending(front);
        assert forall|i: int| 0 <= i < front.len() implies precedes(
            (#[trigger] front[i]).0,
            members.last().0,
        ) by {
            assert(precedes(members[i].0, members[members.len() - 1].0));
        }
        lemma_with_last(front, members.last().0, members.last().1);
        assert(front.push(members.last()) =~= members);
    }
}

/// A value whose objects are in order, as a parsed one is, is kept as it is.
pub proof fn ordered_values_are_kept(value: JsonView)
    requires
        ordered(value),
    ensures
        kept(value) == value,
    decreases value,
{
    match value {
        JsonView::Array(items) => {
            assert forall|i: int| 0 <= i < items.len() implies kept(#[trigger] items[i])
                == items[i] by {
                assert(decreases_to!(items => items[i]));
                ordered_values_are_kept(items[i]);
            }
            assert(kept(value)->Array_0 =~= items);
        },
        JsonView::Object(members) => {
            assert forall|i: int| 0 <= i < members.len() implies kept(
                (#[trigger] members[i]).1,
            ) == members[i].1 by {
                assert(decreases_to!(members => members[i]));
                assert(decreases_to!(members[i] => members[i].1));
                ordered_values_are_kept(members[i].1);
            }
            assert(kept_members(members) =~= members);
            lemma_collected_ascending(members);
        },
        _ => {},
    }
}

proof fn lemma_precedes_total(a: Seq<char>, b: Seq<char>)
    ensures
        a == b || precedes(a, b) || precedes(b, a),
    decreases a.len(),
{
    if a.len() > 0 && b.len() > 0 && a[0] == b[0] {
        lemma_precedes_total(a.skip(1), b.skip(1));
        if a.skip(1) == b.skip(1) {
            assert(a =~= seq![a[0]] + a.skip(1));
            assert(b =~= seq![b[0]] + b.skip(1));
        }
    } else if a.len() == 0 && b.len() == 0 {
        assert(a =~= b);
    }
}

proof fn lemma_precedes_transitive(a: Seq<char>, b: Seq<char>, c: Seq<char>)
    requires
        precedes(a, b),
        precedes(b, c),
    ensures
        precedes(a, c),
    decreases a.len(),
{
    if a.len() > 0 && a[0] == b[0] && b[0] == c[0] {
        lemma_precedes_transitive(a.skip(1), b.skip(1), c.skip(1));
    }
}

/// A member that is put in keeps the order of the names.
proof fn lemma_with_member_ascends(
    members: Seq<(Seq<char>, JsonView)>,
    name: Seq<char>,
    value: JsonView,
)
    requires
        ascending(members),
    ensures
        ascending(with_member(members, name, value)),
        forall|k: int|
            0 <= k < with_member(members, name, value).len() ==> (#[trigger] with_member(
                members,
                name,
                value,
            )[k]) == (name, value) || members.contains(with_member(members, name, value)[k]),
    decreases members.len(),
{
    let after = with_member(members, name, value);
    if members.len() == 0 {
    } else if members[0].0 == name {
        assert forall|i: int, j: int| 0 <= i < j < after.len() implies precedes(
            (#[trigger] after[i]).0,
            (#[trigger] after[j]).0,
        ) by {
            assert(precedes(members[i].0, members[j].0));
        }
        assert forall|k: int| 0 <= k < after.len() implies (#[trigger] after[k]) == (name, value)
            || members.contains(after[k]) by {
            if k > 0 {
                assert(after[k] == members[k]);
            }
        }
    } else if precedes(name, members[0].0) {
        assert forall|i: int, j: int| 0 <= i < j < after.len() implies precedes(
            (#[trigger] after[i]).0,
            (#[trigger] after[j]).0,
        ) by {
            assert(after[j] == members[j - 1]);
            if i > 0 {
                assert(after[i] == members[i - 1]);
                assert(precedes(members[i - 1].0, members[j - 1].0));
            } else if j > 1 {
                assert(precedes(members[0].0, members[j - 1].0));
                lemma_precedes_transitive(name, members[0].0, members[j - 1].0);
            }
        }
        assert forall|k: int| 0 <= k < after.len() implies (#[trigger] after[k]) == (name, value)
            || members.contains(after[k]) by {
            if k > 0 {
                assert(after[k] == members[k - 1]);
            }
        }
    } else {
        let rest = members.skip(1);
        let tail = with_member(rest, name, value);
        lemma_precedes_total(name, members[0].0);
        assert forall|i: int, j: int| 0 <= i < j < rest.len() implies precedes(
            (#[trigger] rest[i]).0,
            (#[trigger] rest[j]).0,
        ) by {
            assert(precedes(members[i + 1].0, members[j + 1].0));
        }
        lemma_with_member_ascends(rest, name, value);
        assert forall|k: int| 0 <= k < tail.len() implies precedes(
            members[0].0,
            (#[trigger] tail[k]).0,
        ) && (tail[k] == (name, value) || members.contains(tail[k])) by {
            if tail[k] != (name, value) {
                let j = choose|j: int| 0 <= j < rest.len() && rest[j] == tail[k];
                assert(members[j + 1] == tail[k]);
                assert(precedes(members[0].0, members[j + 1].0));
            }
        }
        assert forall|i: int, j: int| 0 <= i < j < after.len() implies precedes(
            (#[trigger] after[i]).0,
            (#[trigger] after[j]).0,
        ) by {
            assert(after[j] == tail[j - 1]);
            if i > 0 {
                assert(after[i] == tail[i - 1]);
            }
        }
        assert forall|k: int| 0 <= k < after.len() implies (#[trigger] after[k]) == (name, value)
            || members.contains(after[k]) by {
            if k > 0 {
                assert(after[k] == tail[k - 1]);
            } else {
                assert(after[0] == members[0]);
            }
        }
    }
}

/// Collected members stand in the order of their names, each name once.
pub proof fn collected_members_ascend(members: Seq<(Seq<char>, JsonView)>)
    ensures
        ascending(collected(members)),
    decreases members.len(),
{
    if members.len() > 0 {
        collected_members_ascend(members.drop_last());
        lemma_with_member_ascends(
            collected(members.drop_last()),
            members.last().0,
            members.last().1,
        );
    }
}

/// Of members of one name the last one stays: what was put in last is found under its name, and
/// the other names are found as before.
pub proof fn the_last_member_of_a_name_stays(
    members: Seq<(Seq<char>, JsonView)>,
    name: Seq<char>,
    value: JsonView,
    other: Seq<char>,
)
    ensures
        find(with_member(members, name, value), name) == Some(value),
        other != name ==> find(with_member(members, name, value), other) == find(members, other),
    decreases members.len(),
{
    let after = with_member(members, name, value);
    if members.len() == 0 {
        assert(after.skip(1) =~= members);
    } else if members[0].0 == name {
        assert(after.skip(1) =~= members.skip(1));
    } else if precedes(name, members[0].0) {
        assert(after.skip(1) =~= members);
    } else {
        the_last_member_of_a_name_stays(members.skip(1), name, value, other);
        assert(after.skip(1) =~= with_member(members.skip(1), name, value));
    }
}

/// The text that `serde_json::to_string_pretty` writes of a value.
pub uninterp spec fn pretty_text(value: JsonView) -> Seq<char>;

/// The text that `serde_json::Value::to_string` writes of a value.
pub uninterp spec fn compact_text(value: JsonView) -> Seq<char>;

/// The number that `serde_json::Number::from` makes of an integer.
pub uninterp spec fn number(n: u64) -> serde_json::Number;

/// `serde_json::Number::from` makes a number that the integer decides.
#[verifier::external_body]
fn number_of(n: u64) -> (r: serde_json::Number)
    ensures
        r == number(n),
{
    serde_json::Number::from(n)
}

/// `serde_json::from_str` reads a value, or fails, as the text alone decides.
#[verifier::external_body]
pub(crate) fn read_value(text: &str) -> (r: Option<serde_json::Value>)
    ensures
        match r {
            Some(v) => parsed(text@) == Some(held(v)),
            None => parsed(text@) is None,
        },
{
    serde_json::from_str::<serde_json::Value>(text).ok()
}

/// The outermost part of a `serde_json::Value`.
enum Part {
    Null,
    Bool(bool),
    Number(serde_json::Number),
    Str(String),
    Array(Vec<serde_json::Value>),
    Object(serde_json::Map<String, serde_json::Value>),
}

spec fn items_held(items: Seq<serde_json::Value>) -> Seq<JsonView> {
    Seq::new(items.len(), |i: int| held(items[i]))
}

spec fn members_held(members: Seq<(String, serde_json::Value)>) -> Seq<(Seq<char>, JsonView)> {
    Seq::new(members.len(), |i: int| (members[i].0@, held(members[i].1)))
}

spec fn part_held(part: Part) -> JsonView {
    match part {
        Part::Null => JsonView::Null,
        Part::Bool(b) => JsonView::Bool(b),
        Part::Number(n) => JsonView::Number(n),
        Part::Str(s) => JsonView::Str(s@),
        Part::Array(items) => JsonView::Array(items_held(items@)),
        Part::Object(map) => JsonView::Object(map_held(map)),
    }
}

/// The variants of `serde_json::Value` one for one.
#[verifier::external_body]
fn take_apart(value: serde_json::Value) -> (r: Part)
    ensures
        part_held(r) == held(value),
{
    match value {
        serde_json::Value::Null => Part::Null,
        serde_json::Value::Bool(b) => Part::Bool(b),
        serde_json::Value::Number(n) => Part::Number(n),
        serde_json::Value::String(s) => Part::Str(s),
        serde_json::Value::Array(items) => Part::Array(items),
        serde_json::Value::Object(map) => Part::Object(map),
    }
}

/// The variants of `serde_json::Value` one for one.
#[verifier::external_body]
fn put_together(part: Part) -> (r: serde_json::Value)
    ensures
        held(r) == part_held(part),
{
    match part {
        Part::Null => serde_json::Value::Null,
        Part::Bool(b) => serde_json::Value::Bool(b),
        Part::Number(n) => serde_json::Value::Number(n),
        Part::Str(s) => serde_json::Value::String(s),
        Part::Array(items) => serde_json::Value::Array(items),
        Part::Object(map) => serde_json::Value::Object(map),
    }
}

/// `serde_json::Map::into_iter` hands out the members in the order of their names, each name
/// once.
#[verifier::external_body]
fn members_of(map: serde_json::Map<String, serde_json::Value>) -> (r: Vec<
    (String, serde_json::Value),
>)
    ensures
        members_held(r@) == map_held(map),
        ascending(members_held(r@)),
{
    map.into_iter().collect()
}

/// `serde_json::Map::new` makes a map without members.
#[verifier::external_body]
fn new_map() -> (r: serde_json::Map<String, serde_json::Value>)
    ensures
        map_held(r) == Seq::<(Seq<char>, JsonView)>::empty(),
{
    serde_json::Map::new()
}

/// `serde_json::Map::insert` puts a member in the place that the order of the names gives it, or
/// updates the value of the member of its name.
#[verifier::external_body]
fn insert_member(
    map: &mut serde_json::Map<String, serde_json::Value>,
    name: String,
    value: serde_json::Value,
)
    ensures
        map_held(*final(map)) == with_member(map_held(*old(map)), name@, held(value)),
{
    map.insert(name, value);
}

fn reversed<T>(items: Vec<T>) -> (r: Vec<T>)
    ensures
        r@ == items@.reverse(),
{
    let ghost all = items@;
    let mut items = items;
    let mut r: Vec<T> = Vec::new();
    while items.len() > 0
        invariant
            items@ == all.take(items@.len() as int),
            items@.len() <= all.len(),
            r@ == all.skip(items@.len() as int).reverse(),
        decreases items@.len(),
    {
        let ghost n = items@.len() as int;
        if let Some(item) = items.pop() {
            r.push(item);
            assert(items@ =~= all.take(n - 1));
            assert(r@ =~= all.skip(n - 1).reverse());
        }
    }
    assert(all.skip(0) =~= all);
    r
}

fn json_of(value: serde_json::Value) -> (r: Json)
    ensures
        r.deep_view() == held(value),
        ordered(held(value)),
    decreases held(value),
{
    match take_apart(value) {
        Part::Null => Json::Null,
        Part::Bool(b) => Json::Bool(b),
        Part::Number(n) => Json::Number(n),
        Part::Str(s) => Json::Str(s),
        Part::Array(items) => {
            let ghost all = items@;
            let mut rest = reversed(items);
            let mut out: Vec<Json> = Vec::new();
            while rest.len() > 0
                invariant
                    held(value) == JsonView::Array(items_held(all)),
                    out@.len() + rest@.len() == all.len(),
                    rest@ == all.skip(out@.len() as int).reverse(),
                    forall|k: int|
                        0 <= k < out@.len() ==> contents(#[trigger] out@[k]) == held(all[k])
                            && ordered(held(all[k])),
                decreases rest@.len(),
            {
                let ghost n = out@.len() as int;
                assert(rest@.last() == all[n]);
                if let Some(item) = rest.pop() {
                    proof {
                        assert(rest@ =~= all.skip(n + 1).reverse());
                        assert(items_held(all)[n] == held(item));
                        assert(decreases_to!(held(value) => held(value)->Array_0));
                        assert(decreases_to!(items_held(all) => items_held(all)[n]));
                    }
                    out.push(json_of(item));
                }
            }
            let r = Json::Array(out);
            assert(contents(r)->Array_0 =~= items_held(all));
            assert forall|k: int| 0 <= k < all.len() implies ordered(
                #[trigger] items_held(all)[k],
            ) by {
                assert(contents(r->Array_0@[k]) == held(all[k]));
            }
            r
        },
        Part::Object(map) => {
            let members = members_of(map);
            let ghost all = members@;
            let mut rest = reversed(members);
            let mut out: Vec<(String, Json)> = Vec::new();
            while rest.len() > 0
                invariant
                    held(value) == JsonView::Object(members_held(all)),
                    out@.len() + rest@.len() == all.len(),
                    rest@ == all.skip(out@.len() as int).reverse(),
                    forall|k: int|
                        0 <= k < out@.len() ==> (#[trigger] out@[k]).0@ == all[k].0@ && contents(
                            out@[k].1,
                        ) == held(all[k].1) && ordered(held(all[k].1)),
                decreases rest@.len(),
            {
                let ghost n = out@.len() as int;
                assert(rest@.last() == all[n]);
                if let Some((name, item)) = rest.pop() {
                    proof {
                        assert(rest@ =~= all.skip(n + 1).reverse());
                        assert(members_held(all)[n] == (name@, held(item)));
                        assert(decreases_to!(held(value) => held(value)->Object_0));
                        assert(decreases_to!(members_held(all) => members_held(all)[n]));
                        assert(decreases_to!(members_held(all)[n] => members_held(all)[n].1));
                    }
                    out.push((name, json_of(item)));
                }
            }
            let r = Json::Object(out);
            assert(contents(r)->Object_0 =~= members_held(all));
            assert forall|k: int| 0 <= k < all.len() implies ordered(
                (#[trigger] members_held(all)[k]).1,
            ) by {
                assert(r->Object_0@[k].0@ == all[k].0@);
            }
            r
        },
    }
}

fn value_of(json: &Json) -> (r: serde_json::Value)
    ensures
        held(r) == kept(json.deep_view()),
    decreases json,
{
    match json {
        Json::Null => put_together(Part::Null),
        Json::Bool(b) => put_together(Part::Bool(*b)),
        Json::Number(n) => put_together(Part::Number(n.clone())),
        Json::Str(s) => put_together(Part::Str(s.clone())),
        Json::Array(items) => {
            let ghost all = json.deep_view()->Array_0;
            let mut out: Vec<serde_json::Value> = Vec::new();
            let mut i: usize = 0;
            while i < items.len()
                invariant
                    i <= items@.len(),
                    out@.len() == i,
                    *json == Json::Array(*items),
                    all == json.deep_view()->Array_0,
                    forall|k: int| 0 <= k < i ==> held(#[trigger] out@[k]) == kept(all[k]),
                decreases items@.len() - i,
            {
                assert(decreases_to!(*json => (*json)->Array_0));
                assert(decreases_to!(*items => items@));
                assert(decreases_to!(items@ => items@[i as int]));
                out.push(value_of(&items[i]));
                i += 1;
            }
            assert(items_held(out@) =~= kept(json.deep_view())->Array_0);
            put_together(Part::Array(out))
        },
        Json::Object(members) => {
            let ghost all = json.deep_view()->Object_0;
            let ghost inner = kept_members(all);
            let mut out = new_map();
            let mut i: usize = 0;
            assert(inner.take(0) =~= seq![]);
            while i < members.len()
                invariant
                    i <= members@.len(),
                    *json == Json::Object(*members),
                    all == json.deep_view()->Object_0,
                    inner == kept_members(all),
                    map_held(out) == collected(inner.take(i as int)),
                decreases members@.len() - i,
            {
                assert(decreases_to!(*json => (*json)->Object_0));
                assert(decreases_to!(*members => members@));
                assert(decreases_to!(members@ => members@[i as int]));
                assert(decreases_to!(members@[i as int] => members@[i as int].1));
                insert_member(&mut out, members[i].0.clone(), value_of(&members[i].1));
                assert(inner.take(i + 1).drop_last() =~= inner.take(i as int));
                assert(inner.take(i + 1).last() == inner[i as int]);
                i += 1;
            }
            assert(inner.take(i as int) =~= inner);
            put_together(Part::Object(out))
        },
    }
}

/// `serde_json::to_string_pretty` writes a text that the value's contents decide. It fails only
/// on maps with other names than strings, which a `serde_json::Value` cannot hold.
#[verifier::external_body]
pub(crate) fn write_pretty(value: &serde_json::Value) -> (r: Option<String>)
    ensures
        r.deep_view() == Some(pretty_text(held(*value))),
{
    serde_json::to_string_pretty(value).ok()
}

/// `serde_json::Value::to_string` writes a text that the value's contents decide.
#[verifier::external_body]
fn write_compact(value: &serde_json::Value) -> (r: String)
    ensures
        r@ == compact_text(held(*value)),
{
    value.to_string()
}

impl Json {
    /// The value of an integer.
    pub fn number(n: u64) -> (r: Json)
        ensures
            r.deep_view() == JsonView::Number(number(n)),
    {
        Json::Number(number_of(n))
    }

    /// The value that a text holds, where it holds one.
    pub fn parse(text: &str) -> (r: Option<Json>)
        ensures
            r.deep_view() == parsed(text@),
            r matches Some(v) ==> ordered(v.deep_view()),
    {
        match read_value(text) {
            Some(v) => Some(json_of(v)),
            None => None,
        }
    }

    /// The value as a text of several lines.
    pub fn pretty(&self) -> (r: Option<String>)
        ensures
            r.deep_view() == Some(pretty_text(kept(self.deep_view()))),
    {
        write_pretty(&value_of(self))
    }

    /// The value as a text without white space between its parts.
    pub fn compact(&self) -> (r: String)
        ensures
            r@ == compact_text(kept(self.deep_view())),
    {
        write_compact(&value_of(self))
    }
}

proof fn lemma_collected_pushed(
    members: Seq<(Seq<char>, JsonView)>,
    name: Seq<char>,
    value: JsonView,
)
    ensures
        collected(members.push((name, value))) == with_member(collected(members), name, value),
{
    assert(members.push((name, value)).drop_last() =~= members);
}

/// What is kept of an object has the last of its members of each name, and no other.
pub proof fn kept_objects_have_their_members(
    members: Seq<(Seq<char>, JsonView)>,
    name: Seq<char>,
    value: JsonView,
    other: Seq<char>,
)
    ensures
        kept(JsonView::Object(members.push((name, value)))).member(name) == Some(kept(value)),
        other != name ==> kept(JsonView::Object(members.push((name, value)))).member(other) == kept(
            JsonView::Object(members),
        ).member(other),
        kept(JsonView::Object(seq![])).member(name) is None,
{
    let all = members.push((name, value));
    assert(kept_members(all) =~= kept_members(members).push((name, kept(value))));
    lemma_collected_pushed(kept_members(members), name, kept(value));
    the_last_member_of_a_name_stays(
        collected(kept_members(members)),
        name,
        kept(value),
        other,
    );
    assert(kept_members(seq![]) =~= seq![]);
}

} // verus!
