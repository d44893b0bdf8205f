use codex_trace::commands::session::{
    load_session_from_path, load_session_with_progress, unwatch_session, watch_session,
};
use codex_trace::json::Json;
use codex_trace::parser::cache::{FileTime, PersistentCache};
use codex_trace::parser::discover::{CodexSessionInfo, ScanBookmark};
use codex_trace::state::{
    enrich_thread_count, progress_data, should_report, AppState, EnrichJob, FileMeta,
    ScannedHeader, MIN_RESCAN_INTERVAL_MS,
};

fn info(id: &str, path: &str) -> CodexSessionInfo {
    CodexSessionInfo {
        id: id.to_string(),
        path: path.to_string(),
        cwd: None,
        git_branch: None,
        originator: None,
        model: None,
        cli_version: None,
        thread_name: None,
        turn_count: 0,
        start_time: String::new(),
        end_time: None,
        total_tokens: None,
        is_ongoing: true,
        is_external_worker: false,
        is_inline_worker: false,
        is_headless: false,
        is_archived: false,
        worker_nickname: None,
        worker_role: None,
        spawned_worker_ids: vec![],
        date_group: String::new(),
        ai_title: None,
        approval_mode: None,
        history_base_thread_id: None,
    }
}

fn meta(secs: u64, len: u64) -> Option<FileMeta> {
    Some(FileMeta { len, modified: Some(FileTime::SinceEpoch { secs, nanos: 0 }) })
}

fn header(id: &str, path: &str, meta: Option<FileMeta>) -> ScannedHeader {
    ScannedHeader { info: info(id, path), meta }
}

fn make_state() -> AppState<u32> {
    AppState::new(PersistentCache::load(None))
}

fn discover(
    state: &mut AppState<u32>,
    dir: &str,
    headers: Vec<ScannedHeader>,
) -> Vec<CodexSessionInfo> {
    match state.discover_sessions(dir, 0, 0) {
        Some(sessions) => sessions,
        None => {
            let (sessions, _) = state.classify_headers(headers);
            state.finish_rescan(dir, &sessions, 0);
            sessions
        }
    }
}

#[test]
fn load_session_from_path_rejects_empty_path() {
    let result = load_session_from_path("");

    assert_eq!(result.unwrap_err(), "no session path provided");
}

#[test]
fn load_session_from_path_keeps_other_paths() {
    assert_eq!(load_session_from_path("/tmp/x.jsonl"), Ok("/tmp/x.jsonl"));
}

#[test]
fn discover_sessions_returns_empty_for_nonexistent_dir() {
    let mut state = make_state();
    let result = discover(&mut state, "/nonexistent/path/that/does/not/exist", vec![]);
    assert!(result.is_empty());
}

#[test]
fn discover_sessions_returns_snapshot_without_rescanning() {
    let mut state = make_state();
    let first = discover(&mut state, "/sessions", vec![]);
    assert!(first.is_empty());

    let second = discover(&mut state, "/sessions", vec![header("new", "/sessions/n.jsonl", None)]);
    assert!(second.is_empty());
}

#[test]
fn mark_discovery_dirty_forces_rescan() {
    let mut state = make_state();
    assert!(discover(&mut state, "/sessions", vec![]).is_empty());

    state.mark_discovery_dirty();
    let path = "/sessions/2026/05/07/rollout-2026-05-07T00-00-00-abc.jsonl";
    let result = discover(&mut state, "/sessions", vec![header("abc", path, None)]);
    assert_eq!(result.len(), 1);
    assert_eq!(result[0].id, "abc");
}

#[test]
fn a_served_list_is_served_again() {
    let mut state = make_state();
    state.finish_rescan("/s", &vec![], 10_000);
    assert!(state.discover_sessions("/s", 10_000, MIN_RESCAN_INTERVAL_MS).is_some());
    assert!(state.discover_sessions("/s", 90_000, MIN_RESCAN_INTERVAL_MS).is_some());
    state.mark_discovery_dirty();
    assert!(state.discover_sessions("/s", 12_000, MIN_RESCAN_INTERVAL_MS).is_some());
    assert!(state.discover_sessions("/s", 13_000, MIN_RESCAN_INTERVAL_MS).is_some());
}

#[test]
fn rescans_keep_their_distance_in_time() {
    let mut state = make_state();
    assert!(state.discover_sessions("/s", 0, MIN_RESCAN_INTERVAL_MS).is_none());
    let generation = state.finish_rescan("/s", &vec![], 10_000);
    assert_eq!(generation, 1);
    state.mark_discovery_dirty();
    assert!(state.discover_sessions("/s", 14_999, MIN_RESCAN_INTERVAL_MS).is_some());
    assert!(state.discover_sessions("/s", 15_000, MIN_RESCAN_INTERVAL_MS).is_none());
    assert!(state.discover_sessions("/other", 14_999, MIN_RESCAN_INTERVAL_MS).is_none());
}

#[test]
fn unchanged_files_are_served_from_the_cache() {
    let mut state = make_state();
    state.cache_enriched(&info("known", "/s/a.jsonl"), ScanBookmark { bytes: 10 }, meta(5, 20));
    let (sessions, jobs) = state.classify_headers(vec![header("h", "/s/a.jsonl", meta(5, 20))]);
    assert_eq!(sessions[0].id, "known");
    assert!(!sessions[0].is_ongoing);
    assert!(jobs.is_empty());
}

#[test]
fn growing_files_resume_and_others_start_over() {
    let mut state = make_state();
    for path in ["/s/grown.jsonl", "/s/shrunk.jsonl", "/s/packed.jsonl.zst"] {
        state.cache_enriched(&info("known", path), ScanBookmark { bytes: 10 }, meta(5, 20));
    }
    let (sessions, jobs) = state.classify_headers(vec![
        header("h1", "/s/grown.jsonl", meta(6, 10)),
        header("h2", "/s/shrunk.jsonl", meta(6, 9)),
        header("h3", "/s/packed.jsonl.zst", meta(6, 30)),
        header("h4", "/s/unknown.jsonl", meta(6, 30)),
        header("h5", "/s/grown.jsonl", None),
    ]);
    let ids: Vec<&str> = sessions.iter().map(|s| s.id.as_str()).collect();
    assert_eq!(ids, vec!["known", "h2", "h3", "h4", "h5"]);
    assert!(!sessions[0].is_ongoing);
    assert!(sessions[1].is_ongoing);
    assert_eq!(jobs.len(), 5);
    assert!(matches!(&jobs[0], EnrichJob::Incremental(i, b) if i.id == "known" && b.bytes == 10));
    assert!(matches!(&jobs[1], EnrichJob::Full(i) if i.id == "h2"));
    assert!(matches!(&jobs[4], EnrichJob::Full(i) if i.id == "h5"));
}

#[test]
fn enriched_sessions_take_their_place() {
    let mut state = make_state();
    let found = vec![info("a", "/s/a"), info("b", "/s/b")];
    let generation = state.finish_rescan("/s", &found, 0);
    assert!(state.apply_enriched(generation, &info("b2", "/s/b")));
    assert!(state.apply_enriched(generation, &info("c", "/s/c")));
    let ids: Vec<String> =
        state.discover_sessions("/s", 0, 0).unwrap().into_iter().map(|s| s.id).collect();
    assert_eq!(ids, vec!["a", "b2"]);
}

#[test]
fn enrichment_of_an_earlier_list_is_dropped() {
    let mut state = make_state();
    let first = state.finish_rescan("/s", &vec![info("a", "/s/a")], 0);
    let second = state.finish_rescan("/s", &vec![info("a", "/s/a")], 1);
    assert_ne!(first, second);
    assert!(!state.apply_enriched(first, &info("late", "/s/a")));
    state.finish_enrichment(first, vec![]);
    assert_eq!(state.discovery.sessions[0].id, "a");
    state.finish_enrichment(second, vec![info("done", "/s/a")]);
    assert_eq!(state.discovery.sessions[0].id, "done");
}

#[test]
fn sessions_without_a_modification_time_are_not_cached() {
    let mut state = make_state();
    let bookmark = ScanBookmark { bytes: 1 };
    state.cache_enriched(&info("a", "/s/a"), bookmark, None);
    state.cache_enriched(&info("a", "/s/a"), bookmark, Some(FileMeta { len: 3, modified: None }));
    assert!(state.cache.file().entries.entries().is_empty());
}

#[test]
fn the_watched_session_is_marked() {
    let mut state = make_state();
    let mut sessions = vec![info("a", "/s/a"), info("b", "/s/b"), info("b", "/s/b")];
    state.apply_watched_ongoing(&mut sessions);
    assert!(sessions.iter().all(|s| s.is_ongoing));
    state.set_watched_ongoing("/s/b".to_string(), false);
    state.apply_watched_ongoing(&mut sessions);
    let marked: Vec<bool> = sessions.iter().map(|s| s.is_ongoing).collect();
    assert_eq!(marked, vec![true, false, true]);
    state.clear_watched_ongoing();
    assert!(state.watched_session_ongoing.is_none());
}

#[test]
fn watchers_are_handed_out_to_be_stopped() {
    let mut state = make_state();
    assert_eq!(state.stop_session_watcher(), None);
    state.set_session_watcher(1);
    state.set_picker_watcher(2);
    assert_eq!(watch_session(&mut state, "/s/a".to_string(), true), Some(1));
    assert_eq!(state.watched_session_ongoing, Some(("/s/a".to_string(), true)));
    state.set_session_watcher(3);
    assert_eq!(unwatch_session(&mut state), Some(3));
    assert_eq!(state.watched_session_ongoing, None);
    assert_eq!(state.stop_picker_watcher(), Some(2));
    assert_eq!(state.stop_picker_watcher(), None);
}

#[test]
fn half_the_processors_enrich() {
    assert_eq!(enrich_thread_count(None), 2);
    assert_eq!(enrich_thread_count(Some(1)), 1);
    assert_eq!(enrich_thread_count(Some(9)), 4);
}

#[test]
fn progress_is_reported_now_and_then() {
    assert!(should_report(25, 90));
    assert!(!should_report(26, 90));
    assert!(should_report(90, 90));
}

#[test]
fn progress_is_sent_as_json() {
    assert_eq!(progress_data(3, 7), r#"{"scanned":3,"total":7}"#);
    assert_eq!(
        load_session_with_progress("/a \"b\"", 1, 2),
        r#"{"done":1,"path":"/a \"b\"","total":2}"#
    );
}

#[test]
fn events_reach_the_window_where_they_are_json() {
    let sent = AppState::<u32>::broadcast("picker-refresh", "{}");
    assert_eq!(sent.event, "picker-refresh");
    assert_eq!(sent.data, "{}");
    let (sent, value) = AppState::<u32>::broadcast_all(true, "e", "[1]");
    assert_eq!(sent.data, "[1]");
    assert_eq!(value, Json::parse("[1]"));
    assert!(AppState::<u32>::broadcast_all(true, "e", "oops").1.is_none());
    assert!(AppState::<u32>::broadcast_all(false, "e", "[1]").1.is_none());
}

#[test]
fn a_finished_job_is_shown_cached_and_reported() {
    let mut state = make_state();
    let generation = state.finish_rescan("/s", &vec![info("a", "/s/a.jsonl")], 0);
    let bookmark = ScanBookmark { bytes: 4 };
    let done = info("a2", "/s/a.jsonl");
    let report = state.finish_job(generation, &done, bookmark, meta(3, 4), 1, 2).unwrap();
    assert_eq!(report.progress, None);
    let report = state.finish_job(generation, &done, bookmark, meta(3, 4), 2, 2).unwrap();
    assert_eq!(report.progress.as_deref(), Some(r#"{"scanned":2,"total":2}"#));
    assert_eq!(state.discovery.sessions[0].id, "a2");
    assert_eq!(state.cache.get_stale("/s/a.jsonl").unwrap().1, bookmark);
    let late = state.finish_job(generation + 1, &info("b", "/s/b"), bookmark, meta(3, 4), 2, 2);
    assert!(late.is_none());
    assert!(state.cache.get_stale("/s/b").is_none());
}
