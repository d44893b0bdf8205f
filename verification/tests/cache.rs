use codex_trace::parser::cache::{
    cache_path, CacheBase, CacheFile, CachedEntry, FileTime, PersistentCache, CACHE_VERSION,
};
use codex_trace::parser::discover::{CodexSessionInfo, ScanBookmark};
use codex_trace::text_map::TextMap;

fn sample_info(id: &str) -> CodexSessionInfo {
    CodexSessionInfo {
        id: id.to_string(),
        path: "/tmp/rollout.jsonl".to_string(),
        cwd: None,
        git_branch: None,
        originator: None,
        model: None,
        cli_version: None,
        thread_name: None,
        turn_count: 0,
        start_time: String::new(),
        end_time: None,
        total_tokens: None,
        is_ongoing: true,
        is_external_worker: false,
        is_inline_worker: false,
        is_headless: false,
        is_archived: false,
        worker_nickname: None,
        worker_role: None,
        spawned_worker_ids: vec![],
        date_group: String::new(),
        ai_title: None,
        approval_mode: None,
        history_base_thread_id: None,
    }
}

fn at(secs: u64) -> FileTime {
    FileTime::SinceEpoch { secs, nanos: 0 }
}

#[test]
fn cache_hit_returns_info_with_ongoing_cleared() {
    let mut cache = PersistentCache::load(None);
    cache.put("/x/rollout.jsonl", at(100), 42, sample_info("abc"));

    let hit = cache.get("/x/rollout.jsonl", at(100), 42).unwrap();
    assert_eq!(hit.id, "abc");
    assert!(!hit.is_ongoing, "cached entries are never ongoing");
}

#[test]
fn cache_miss_when_mtime_or_size_differs() {
    let mut cache = PersistentCache::load(None);
    cache.put("/x/rollout.jsonl", at(100), 42, sample_info("abc"));

    assert!(cache.get("/x/rollout.jsonl", at(100), 43).is_none());
    assert!(cache.get("/x/rollout.jsonl", at(101), 42).is_none());
    assert!(cache.get("/other.jsonl", at(100), 42).is_none());
}

#[test]
fn save_then_load_round_trips() {
    let mut cache = PersistentCache::load(None);
    assert!(cache.get("/x/rollout.jsonl", at(100), 42).is_none());
    cache.put("/x/rollout.jsonl", at(100), 42, sample_info("abc"));

    let saved = cache.file();
    assert_eq!(saved.version, CACHE_VERSION);
    let mut entries = TextMap::new();
    for (path, entry) in saved.entries.entries() {
        entries.insert(
            path,
            CachedEntry {
                mtime_ns: entry.mtime_ns,
                size: entry.size,
                bookmark: entry.bookmark,
                info: entry.info.clone(),
            },
        );
    }
    let read = CacheFile { version: saved.version, entries };

    let cache = PersistentCache::load(Some(read));
    let hit = cache.get("/x/rollout.jsonl", at(100), 42).expect("cache hit");
    assert_eq!(hit.id, "abc");
    assert!(!hit.is_ongoing);
}

#[test]
fn another_version_starts_empty() {
    let mut old = CacheFile::default();
    old.version = CACHE_VERSION + 1;
    let cache = PersistentCache::load(Some(old));
    assert!(cache.file().entries.entries().is_empty());
    assert_eq!(cache.file().version, CACHE_VERSION);
}

#[test]
fn modification_times_count_in_nanoseconds() {
    let mut cache = PersistentCache::load(None);
    cache.put("/a", FileTime::SinceEpoch { secs: 1, nanos: 5 }, 1, sample_info("a"));
    assert_eq!(cache.file().entries.get("/a").unwrap().mtime_ns, 1_000_000_005);
    assert!(cache.get("/a", FileTime::SinceEpoch { secs: 1, nanos: 6 }, 1).is_none());
    cache.put("/b", FileTime::BeforeEpoch { secs: 9, nanos: 0 }, 1, sample_info("b"));
    assert_eq!(cache.file().entries.get("/b").unwrap().mtime_ns, 0);
    assert!(cache.get("/b", at(0), 1).is_some());
}

#[test]
fn putting_again_replaces_one_path() {
    let mut cache = PersistentCache::load(None);
    cache.put("/a", at(1), 1, sample_info("old"));
    cache.put("/b", at(1), 1, sample_info("other"));
    cache.put("/a", at(2), 2, sample_info("new"));
    assert_eq!(cache.file().entries.entries().len(), 2);
    assert_eq!(cache.get("/a", at(2), 2).unwrap().id, "new");
    assert_eq!(cache.get("/b", at(1), 1).unwrap().id, "other");
}

#[test]
fn only_scanned_files_can_be_resumed() {
    let mut cache = PersistentCache::load(None);
    cache.put("/a", at(1), 1, sample_info("a"));
    assert!(cache.get_stale("/a").is_none());
    cache.put_scanned("/a", at(1), 1, ScanBookmark { bytes: 7 }, sample_info("a"));
    let (info, bookmark) = cache.get_stale("/a").unwrap();
    assert_eq!(bookmark.bytes, 7);
    assert!(info.is_ongoing);
}

#[test]
fn the_environment_decides_where_the_cache_is() {
    let (base, names) = cache_path(Some("/var/c".to_string()), true);
    assert!(matches!(base, CacheBase::Named(d) if d == "/var/c"));
    assert_eq!(names, vec!["sessions-cache.json"]);

    let (base, names) = cache_path(Some(String::new()), true);
    assert!(matches!(base, CacheBase::Platform));
    assert_eq!(names, vec!["codex-trace", "sessions-cache.json"]);

    let (base, names) = cache_path(None, false);
    assert!(matches!(base, CacheBase::Named(d) if d == "."));
    assert_eq!(names, vec!["codex-trace", "sessions-cache.json"]);
}
