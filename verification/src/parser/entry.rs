//! The lines of a Codex session file.

use vstd::prelude::*;

use crate::json;
use crate::json::{Json, JsonView};
use crate::text;

verus! {

/// A raw JSONL line from a Codex session file, loosely typed.
#[derive(Debug)]
pub struct RawEntry {
    pub entry_type: String,
    pub timestamp: Option<String>,
    pub payload: Json,
    /// The raw line value (useful for oldest-format session_meta where fields are at root)
    pub raw: Json,
}

/// The contents of a [`RawEntry`].
pub struct EntryView {
    pub entry_type: Seq<char>,
    pub timestamp: Option<Seq<char>>,
    pub payload: JsonView,
    pub raw: JsonView,
}

impl DeepView for RawEntry {
    type V = EntryView;

    open spec fn deep_view(&self) -> EntryView {
        EntryView {
            entry_type: self.entry_type@,
            timestamp: self.timestamp.deep_view(),
            payload: self.payload.deep_view(),
            raw: self.raw.deep_view(),
        }
    }
}

impl Clone for RawEntry {
    fn clone(&self) -> (r: RawEntry)
        ensures
            r.deep_view() == self.deep_view(),
    {
        RawEntry {
            entry_type: self.entry_type.clone(),
            timestamp: text::copy_option(&self.timestamp),
            payload: self.payload.clone(),
            raw: self.raw.clone(),
        }
    }
}

/// The type of a line. Newer formats state it; in older ones the members that a line has tell
/// what it is.
pub open spec fn type_of(v: JsonView) -> Seq<char> {
    match v.text_member("type"@) {
        Some(t) => t,
        None => if v.has("payload"@) {
            "session_meta"@
        } else if v.has("id"@) && v.has("timestamp"@) {
            "session_meta_root"@
        } else if v.has("call_id"@) && v.has("arguments"@) && v.has("name"@) {
            "function_call"@
        } else if v.has("call_id"@) && v.has("output"@) {
            "function_call_output"@
        } else if v.has("role"@) && v.has("content"@) {
            "message"@
        } else if v.has("encrypted_content"@) {
            "reasoning"@
        } else {
            "unknown"@
        },
    }
}

/// Whether a line stands in for data that is kept elsewhere: a "state" record, or an entry whose
/// view mode is stated and is not "full".
pub open spec fn is_placeholder(v: JsonView) -> bool {
    ||| v.text_member("record_type"@) == Some("state"@)
    ||| v.text_member("view_mode"@) is Some && v.text_member("view_mode"@) != Some("full"@)
}

/// The entry of a line, unless it is a placeholder.
pub open spec fn entry_of(v: JsonView) -> Option<EntryView> {
    if is_placeholder(v) {
        None
    } else {
        Some(
            EntryView {
                entry_type: type_of(v),
                timestamp: v.text_member("timestamp"@),
                payload: match v.member("payload"@) {
                    Some(p) => p,
                    None => JsonView::Null,
                },
                raw: v,
            },
        )
    }
}

fn is_text(s: &str, expected: &str) -> (r: bool)
    ensures
        r == (s@ == expected@),
{
    s.to_owned() == expected.to_owned()
}

impl RawEntry {
    /// Parse a single JSONL line into a RawEntry.
    pub fn parse(line: &str) -> (r: Option<RawEntry>)
        ensures
            r.deep_view() == match json::parsed(line@) {
                Some(v) => entry_of(v),
                None => None,
            },
    {
        match Json::parse(line) {
            Some(v) => RawEntry::from_json(v),
            None => None,
        }
    }

    /// The entry of a line's value.
    pub fn from_json(v: Json) -> (r: Option<RawEntry>)
        ensures
            r.deep_view() == entry_of(v.deep_view()),
    {
        // Skip "state" placeholder entries.
        if let Some(t) = v.get_str("record_type") {
            if is_text(t, "state") {
                return None;
            }
        }
        // Only absent (legacy) or "full" view modes carry complete turn data; "unloaded" and
        // "summary" entries are stubs.
        if let Some(vm) = v.get_str("view_mode") {
            if !is_text(vm, "full") {
                return None;
            }
        }
        let entry_type = detect_entry_type(&v);
        let timestamp = match v.get_str("timestamp") {
            Some(s) => Some(s.to_owned()),
            None => None,
        };
        let payload = match v.get("payload") {
            Some(p) => p.clone(),
            None => Json::Null,
        };
        Some(RawEntry { entry_type, timestamp, payload, raw: v })
    }
}

fn detect_entry_type(v: &Json) -> (r: String)
    ensures
        r@ == type_of(v.deep_view()),
{
    // Explicit type field.
    if let Some(t) = v.get_str("type") {
        return t.to_owned();
    }
    // Mid format: a payload but no type.
    if v.has("payload") {
        return "session_meta".to_owned();
    }
    // Oldest format: id and timestamp at the root.
    if v.has("id") && v.has("timestamp") {
        return "session_meta_root".to_owned();
    }
    // Bare entries of the old format.
    if v.has("call_id") && v.has("arguments") && v.has("name") {
        return "function_call".to_owned();
    }
    if v.has("call_id") && v.has("output") {
        return "function_call_output".to_owned();
    }
    if v.has("role") && v.has("content") {
        return "message".to_owned();
    }
    if v.has("encrypted_content") {
        return "reasoning".to_owned();
    }
    "unknown".to_owned()
}

/// Extract the event_msg payload type (e.g. "task_started", "user_message", etc.)
pub fn event_msg_type(payload: &Json) -> (r: Option<&str>)
    ensures
        r.deep_view() == payload.deep_view().text_member("type"@),
{
    payload.get_str("type")
}

/// The Unix time in seconds that `chrono` reads from a text as a `DateTime<Utc>`.
pub uninterp spec fn utc_seconds(ts: Seq<char>) -> Option<i64>;

/// `str::parse` into a `chrono::DateTime<Utc>`, then `DateTime::timestamp`: the text alone
/// decides whether it is a date and which.
#[verifier::external_body]
fn read_timestamp(ts: &str) -> (r: Option<i64>)
    ensures
        r == utc_seconds(ts@),
{
    ts.parse::<chrono::DateTime<chrono::Utc>>().ok().map(|dt| dt.timestamp())
}

/// Seconds since 1970 as an unsigned number; earlier times wrap around.
pub open spec fn unsigned_seconds(secs: int) -> int {
    if secs >= 0 {
        secs
    } else {
        secs + 0x1_0000_0000_0000_0000
    }
}

/// Seconds since 1970 as an unsigned number; earlier times wrap around.
pub fn wrap_seconds(secs: i64) -> (r: u64)
    ensures
        r == unsigned_seconds(secs as int),
{
    assert(secs < 0 ==> secs as u64 == secs + 0x1_0000_0000_0000_0000) by (bit_vector);
    secs as u64
}

/// Parse an ISO timestamp string to Unix seconds (u64).
pub fn parse_timestamp_secs(ts: &str) -> (r: Option<u64>)
    ensures
        match utc_seconds(ts@) {
            Some(secs) => r is Some && r->0 == unsigned_seconds(secs as int),
            None => r is None,
        },
{
    match read_timestamp(ts) {
        Some(secs) => Some(wrap_seconds(secs)),
        None => None,
    }
}

/// An entry keeps its line whole, and a stated type is its type.
pub proof fn entries_keep_their_line(v: JsonView)
    ensures
        entry_of(v) is Some <==> !is_placeholder(v),
        entry_of(v) matches Some(e) ==> e.raw == v && (v.text_member("type"@) is Some
            ==> e.entry_type == v.text_member("type"@)->0),
{
}

/// Whether a value is an object with a member of that name.
pub open spec fn names(v: JsonView, name: Seq<char>) -> bool {
    v is Object && exists|k: int|
        0 <= k < v->Object_0.len() && (#[trigger] v->Object_0[k]).0 == name
}

/// Whether a value is an object whose first member of that name is that text.
pub open spec fn says(v: JsonView, name: Seq<char>, t: Seq<char>) -> bool {
    v is Object && exists|k: int|
        0 <= k < v->Object_0.len() && (#[trigger] v->Object_0[k]) == (name, JsonView::Str(t))
            && forall|l: int| 0 <= l < k ==> (#[trigger] v->Object_0[l]).0 != name
}

proof fn lemma_find(members: Seq<(Seq<char>, JsonView)>, name: Seq<char>)
    ensures
        json::find(members, name) is None ==> forall|k: int|
            0 <= k < members.len() ==> (#[trigger] members[k]).0 != name,
        json::find(members, name) matches Some(x) ==> exists|k: int|
            0 <= k < members.len() && (#[trigger] members[k]) == (name, x) && forall|l: int|
                0 <= l < k ==> (#[trigger] members[l]).0 != name,
    decreases members.len(),
{
    if members.len() > 0 {
        if members[0].0 == name {
            assert(members[0] == (name, json::find(members, name)->0));
        } else {
            let rest = members.skip(1);
            lemma_find(rest, name);
            match json::find(rest, name) {
                Some(x) => {
                    let k = choose|k: int|
                        0 <= k < rest.len() && (#[trigger] rest[k]) == (name, x) && forall|l: int|
                            0 <= l < k ==> (#[trigger] rest[l]).0 != name;
                    assert(members[k + 1] == (name, x));
                    assert forall|l: int| 0 <= l < k + 1 implies (#[trigger] members[l]).0
                        != name by {
                        if l > 0 {
                            assert(rest[l - 1] == members[l]);
                        }
                    }
                },
                None => {
                    assert forall|k: int| 0 <= k < members.len() implies (#[trigger] members[k]).0
                        != name by {
                        if k > 0 {
                            assert(rest[k - 1] == members[k]);
                        }
                    }
                },
            }
        }
    }
}

/// A member is found by its name, wherever it stands in the object, and no other is.
pub proof fn members_are_found_by_name(v: JsonView, name: Seq<char>, t: Seq<char>)
    ensures
        v.has(name) <==> names(v, name),
        v.text_member(name) == Some(t) <==> says(v, name, t),
{
    if let JsonView::Object(members) = v {
        lemma_find(members, name);
        if let Some(x) = json::find(members, name) {
            let k = choose|k: int|
                0 <= k < members.len() && (#[trigger] members[k]) == (name, x) && forall|l: int|
                    0 <= l < k ==> (#[trigger] members[l]).0 != name;
            assert(v->Object_0[k].0 == name);
            if says(v, name, t) {
                let j = choose|j: int|
                    0 <= j < members.len() && (#[trigger] members[j]) == (name, JsonView::Str(t))
                        && forall|l: int| 0 <= l < j ==> (#[trigger] members[l]).0 != name;
                assert(members[j].0 == name && members[k].0 == name);
                assert(j == k);
            }
        }
    }
}

/// A stated type is the type of a line; else the members that it has tell what it is, those of the
/// later formats first.
pub proof fn members_tell_the_type(v: JsonView, t: Seq<char>)
    ensures
        says(v, "type"@, t) ==> type_of(v) == t,
        v.text_member("type"@) is None ==> {
            let meta = names(v, "payload"@);
            let root = names(v, "id"@) && names(v, "timestamp"@);
            let call = names(v, "call_id"@) && names(v, "arguments"@) && names(v, "name"@);
            let output = names(v, "call_id"@) && names(v, "output"@);
            let message = names(v, "role"@) && names(v, "content"@);
            let reasoning = names(v, "encrypted_content"@);
            &&& meta ==> type_of(v) == "session_meta"@
            &&& !meta && root ==> type_of(v) == "session_meta_root"@
            &&& !meta && !root && call ==> type_of(v) == "function_call"@
            &&& !meta && !root && !call && output ==> type_of(v) == "function_call_output"@
            &&& !meta && !root && !call && !output && message ==> type_of(v) == "message"@
            &&& !meta && !root && !call && !output && !message && reasoning ==> type_of(v)
                == "reasoning"@
            &&& !meta && !root && !call && !output && !message && !reasoning ==> type_of(v)
                == "unknown"@
        },
{
    members_are_found_by_name(v, "type"@, t);
    members_are_found_by_name(v, "payload"@, t);
    members_are_found_by_name(v, "id"@, t);
    members_are_found_by_name(v, "timestamp"@, t);
    members_are_found_by_name(v, "call_id"@, t);
    members_are_found_by_name(v, "arguments"@, t);
    members_are_found_by_name(v, "name"@, t);
    members_are_found_by_name(v, "output"@, t);
    members_are_found_by_name(v, "role"@, t);
    members_are_found_by_name(v, "content"@, t);
    members_are_found_by_name(v, "encrypted_content"@, t);
}

/// A line is passed over exactly where its record type is "state" or its view mode is a text other
/// than "full".
pub proof fn stubs_are_passed_over(v: JsonView)
    ensures
        entry_of(v) is None <==> says(v, "record_type"@, "state"@) || exists|mode: Seq<char>|
            #[trigger] says(v, "view_mode"@, mode) && mode != "full"@,
{
    members_are_found_by_name(v, "record_type"@, "state"@);
    if let Some(mode) = v.text_member("view_mode"@) {
        members_are_found_by_name(v, "view_mode"@, mode);
        assert(says(v, "view_mode"@, mode));
    }
    if exists|mode: Seq<char>| #[trigger] says(v, "view_mode"@, mode) && mode != "full"@ {
        let mode = choose|mode: Seq<char>| #[trigger] says(v, "view_mode"@, mode) && mode != "full"@;
        members_are_found_by_name(v, "view_mode"@, mode);
    }
}

/// An entry has the time stamp and the payload of its line, and no other.
pub proof fn entries_hold_their_parts(v: JsonView, t: Seq<char>)
    ensures
        entry_of(v) matches Some(e) ==> {
            &&& e.timestamp == Some(t) <==> says(v, "timestamp"@, t)
            &&& !names(v, "payload"@) ==> e.payload == JsonView::Null
            &&& names(v, "payload"@) ==> v.member("payload"@) == Some(e.payload)
            &&& e.raw == v
        },
{
    members_are_found_by_name(v, "timestamp"@, t);
    members_are_found_by_name(v, "payload"@, t);
}

/// The unsigned seconds of a time are congruent to it, and fit in 64 bits.
pub proof fn seconds_wrap_around(secs: int)
    requires
        -0x8000_0000_0000_0000 <= secs < 0x8000_0000_0000_0000,
    ensures
        0 <= unsigned_seconds(secs) < 0x1_0000_0000_0000_0000,
        (unsigned_seconds(secs) - secs) % 0x1_0000_0000_0000_0000 == 0,
        secs >= 0 ==> unsigned_seconds(secs) == secs,
{
}

} // verus!
