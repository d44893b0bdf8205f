//! Loading and watching a session.

use vstd::prelude::*;

use crate::json;
use crate::json::{Json, JsonView};
use crate::state::AppState;

verus! {

pub const NO_SESSION_PATH_PROVIDED: &'static str = "no session path provided";

/// The path to load a session from.
pub fn load_session_from_path(path: &str) -> (r: Result<&str, String>)
    ensures
        match r {
            Ok(p) => path@.len() > 0 && p@ == path@,
            Err(e) => path@.len() == 0 && e@ == NO_SESSION_PATH_PROVIDED@,
        },
{
    if path.is_empty() {
        return Err(NO_SESSION_PATH_PROVIDED.to_owned());
    }
    Ok(path)
}

/// The members of the data of a `session-load-progress` event.
pub open spec fn load_progress(path: Seq<char>, done: u64, total: u64) -> JsonView {
    JsonView::Object(
        seq![
            ("path"@, JsonView::Str(path)),
            ("done"@, JsonView::Number(json::number(done))),
            ("total"@, JsonView::Number(json::number(total))),
        ],
    )
}

/// The data of the `session-load-progress` event that is sent as the file is read.
pub fn load_session_with_progress(path: &str, done: u64, total: u64) -> (r: String)
    ensures
        r@ == json::compact_text(json::kept(load_progress(path@, done, total))),
{
    let mut members: Vec<(String, Json)> = Vec::new();
    let path_value = Json::Str(path.to_owned());
    assert(path_value.deep_view() == JsonView::Str(path@));
    members.push(("path".to_owned(), path_value));
    members.push(("done".to_owned(), Json::number(done)));
    members.push(("total".to_owned(), Json::number(total)));
    let value = Json::Object(members);
    assert(value.deep_view()->Object_0 =~= load_progress(path@, done, total)->Object_0);
    value.compact()
}

/// Begins the watch of a loaded session. Hands out the watcher of the session before it, if any,
/// to be stopped.
pub fn watch_session<H>(state: &mut AppState<H>, path: String, is_ongoing: bool) -> (r: Option<H>)
    ensures
        r == old(state).session_watcher,
        *final(state) == (AppState {
            session_watcher: None,
            watched_session_ongoing: Some((path, is_ongoing)),
            ..*old(state)
        }),
{
    let handle = state.stop_session_watcher();
    state.set_watched_ongoing(path, is_ongoing);
    handle
}

/// Ends the watch of a session. Hands out its watcher, if any, to be stopped.
pub fn unwatch_session<H>(state: &mut AppState<H>) -> (r: Option<H>)
    ensures
        r == old(state).session_watcher,
        *final(state) == (AppState {
            session_watcher: None,
            watched_session_ongoing: None,
            ..*old(state)
        }),
{
    state.clear_watched_ongoing();
    state.stop_session_watcher()
}

/// A load progress event tells which file is read, how much of it was read and how much there is.
pub proof fn load_progress_tells_how_far(path: Seq<char>, done: u64, total: u64)
    ensures
        ({
            let sent = json::kept(load_progress(path, done, total));
            &&& sent.member("path"@) == Some(JsonView::Str(path))
            &&& sent.member("done"@) == Some(JsonView::Number(json::number(done)))
            &&& sent.member("total"@) == Some(JsonView::Number(json::number(total)))
        }),
{
    let none = Seq::<(Seq<char>, JsonView)>::empty();
    let file = ("path"@, JsonView::Str(path));
    let read = ("done"@, JsonView::Number(json::number(done)));
    let all = ("total"@, JsonView::Number(json::number(total)));
    reveal_strlit("path");
    reveal_strlit("done");
    reveal_strlit("total");
    assert("path"@[0] == 'p' && "done"@[0] == 'd' && "total"@[0] == 't');
    assert(load_progress(path, done, total)->Object_0 =~= none.push(file).push(read).push(all));
    json::kept_objects_have_their_members(none, file.0, file.1, read.0);
    json::kept_objects_have_their_members(none.push(file), read.0, read.1, file.0);
    json::kept_objects_have_their_members(none.push(file).push(read), all.0, all.1, file.0);
    json::kept_objects_have_their_members(none.push(file).push(read), all.0, all.1, read.0);
}

} // verus!
