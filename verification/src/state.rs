//! The state behind the session picker: what was discovered, what is being enriched and what is
//! watched.

use vstd::prelude::*;

use crate::json;
use crate::json::{Json, JsonView};
use crate::parser::cache;
use crate::parser::cache::{CachedView, FileTime, PersistentCache};
use crate::parser::discover::{CodexSessionInfo, InfoView, ScanBookmark};
use crate::text;

verus! {

/// A Server-Sent Event destined for browser clients.
#[derive(Clone, Debug)]
pub struct SseEvent {
    pub event: String,
    pub data: String,
}

/// Minimum interval between full header rescans of the sessions directory, in milliseconds. An
/// actively written rollout file triggers the picker watcher on every append; without this
/// bound each append would rescan every file.
pub const MIN_RESCAN_INTERVAL_MS: u64 = 5000;

/// How many scanned sessions lie between two progress reports.
pub const PROGRESS_STEP: u64 = 25;

pub const ROLLOUT_SUFFIX: &'static str = ".jsonl";

/// What the file system says of a session file.
#[derive(Debug, Clone, Copy)]
pub struct FileMeta {
    pub len: u64,
    /// When the file was modified, where the file system tells.
    pub modified: Option<FileTime>,
}

/// The header of a session file and what the file system says of the file, where it does.
#[derive(Debug)]
pub struct ScannedHeader {
    pub info: CodexSessionInfo,
    pub meta: Option<FileMeta>,
}

/// The contents of a [`ScannedHeader`].
pub struct HeaderView {
    pub info: InfoView,
    pub meta: Option<FileMeta>,
}

impl DeepView for ScannedHeader {
    type V = HeaderView;

    open spec fn deep_view(&self) -> HeaderView {
        HeaderView { info: self.info.deep_view(), meta: self.meta }
    }
}

/// One session that needs its deferred metadata recomputed.
#[derive(Debug)]
pub enum EnrichJob {
    /// No usable previous scan: parse from the beginning.
    Full(CodexSessionInfo),
    /// A previous scan exists; resume parsing just past its bookmark.
    Incremental(CodexSessionInfo, ScanBookmark),
}

/// The contents of an [`EnrichJob`].
pub enum JobView {
    Full(InfoView),
    Incremental(InfoView, ScanBookmark),
}

impl DeepView for EnrichJob {
    type V = JobView;

    open spec fn deep_view(&self) -> JobView {
        match *self {
            EnrichJob::Full(info) => JobView::Full(info.deep_view()),
            EnrichJob::Incremental(info, bookmark) => JobView::Incremental(
                info.deep_view(),
                bookmark,
            ),
        }
    }
}

/// The metadata of a file that is known to be unchanged.
pub open spec fn unchanged(
    header: HeaderView,
    entries: Map<Seq<char>, CachedView>,
) -> Option<InfoView> {
    match header.meta {
        Some(FileMeta { len, modified: Some(mtime) }) => cache::cached_info(
            entries,
            header.info.path,
            mtime,
            len,
        ),
        _ => None,
    }
}

/// The scan that can be resumed: only of plain files, which can be read from a position on, and
/// that have not shrunk below it.
pub open spec fn resumable(
    header: HeaderView,
    entries: Map<Seq<char>, CachedView>,
) -> Option<(InfoView, ScanBookmark)> {
    match (header.meta, cache::resumable_info(entries, header.info.path)) {
        (Some(meta), Some((info, bookmark))) => if text::has_suffix(
            header.info.path,
            ROLLOUT_SUFFIX@,
        ) && meta.len >= bookmark.bytes {
            Some((info, bookmark))
        } else {
            None
        },
        _ => None,
    }
}

/// How a session is shown at first.
pub open spec fn shown(header: HeaderView, entries: Map<Seq<char>, CachedView>) -> InfoView {
    match unchanged(header, entries) {
        Some(info) => info,
        None => match resumable(header, entries) {
            Some((info, _)) => cache::settled(info),
            None => header.info,
        },
    }
}

/// What is left to do for a session: nothing where the file is unchanged.
pub open spec fn job(header: HeaderView, entries: Map<Seq<char>, CachedView>) -> Option<JobView> {
    if unchanged(header, entries) is Some {
        None
    } else {
        match resumable(header, entries) {
            Some((info, bookmark)) => Some(JobView::Incremental(info, bookmark)),
            None => Some(JobView::Full(header.info)),
        }
    }
}

/// How the sessions are shown at first.
pub open spec fn all_shown(
    headers: Seq<HeaderView>,
    entries: Map<Seq<char>, CachedView>,
) -> Seq<InfoView> {
    Seq::new(headers.len(), |i: int| shown(headers[i], entries))
}

/// What is left to do for the sessions.
pub open spec fn all_jobs(
    headers: Seq<HeaderView>,
    entries: Map<Seq<char>, CachedView>,
) -> Seq<JobView>
    decreases headers.len(),
{
    if headers.len() == 0 {
        seq![]
    } else {
        let before = all_jobs(headers.drop_last(), entries);
        match job(headers.last(), entries) {
            Some(j) => before.push(j),
            None => before,
        }
    }
}

/// The cached sessions with one more that was scanned, where the file system says when its file
/// was modified.
pub open spec fn with_scan(
    entries: Map<Seq<char>, CachedView>,
    info: InfoView,
    bookmark: ScanBookmark,
    meta: Option<FileMeta>,
) -> Map<Seq<char>, CachedView> {
    match meta {
        Some(FileMeta { len, modified: Some(mtime) }) => entries.insert(
            info.path,
            CachedView {
                mtime_ns: cache::time_in_nanos(mtime) as u128,
                size: len,
                bookmark: Some(bookmark),
                info,
            },
        ),
        _ => entries,
    }
}

/// What is to be announced after a job, besides the enriched session.
#[derive(Debug)]
pub struct JobReport {
    /// The data of a `picker-progress` event, where one is due.
    pub progress: Option<String>,
}

/// In-memory discovery state for the session picker: the progressively enriched session list
/// and the bookkeeping needed to deduplicate and restart the background enrichment.
#[derive(Debug)]
pub struct DiscoveryState {
    pub dir: String,
    pub generation: u64,
    pub sessions: Vec<CodexSessionInfo>,
    pub dirty: bool,
    /// When the directory was last rescanned, in milliseconds of a clock that never runs back.
    pub last_rescan: Option<u64>,
}

/// The contents of the discovery state.
#[verifier::ext_equal]
pub struct DiscoveryView {
    pub dir: Seq<char>,
    pub generation: u64,
    pub sessions: Seq<InfoView>,
    pub dirty: bool,
    pub last_rescan: Option<u64>,
}

impl DeepView for DiscoveryState {
    type V = DiscoveryView;

    open spec fn deep_view(&self) -> DiscoveryView {
        DiscoveryView {
            dir: self.dir@,
            generation: self.generation,
            sessions: self.sessions.deep_view(),
            dirty: self.dirty,
            last_rescan: self.last_rescan,
        }
    }
}

impl DiscoveryView {
    /// Nothing discovered yet.
    pub open spec fn start() -> DiscoveryView {
        DiscoveryView {
            dir: seq![],
            generation: 0,
            sessions: seq![],
            dirty: false,
            last_rescan: None,
        }
    }

    /// Whether the last rescan lies less than an interval back.
    pub open spec fn rescanned_within(self, now: u64, interval: u64) -> bool {
        self.last_rescan is Some && now - self.last_rescan->0 < interval
    }

    /// Whether the session list can be served as it is: it is that of the directory, and either
    /// nothing has changed since or it was rescanned just now.
    pub open spec fn serves(self, dir: Seq<char>, now: u64, interval: u64) -> bool {
        self.dir == dir && (!self.dirty || self.rescanned_within(now, interval))
    }

    /// A new session list.
    pub open spec fn rescanned(
        self,
        dir: Seq<char>,
        sessions: Seq<InfoView>,
        now: u64,
    ) -> DiscoveryView {
        DiscoveryView {
            dir,
            generation: (self.generation + 1) as u64,
            sessions,
            dirty: false,
            last_rescan: Some(now),
        }
    }

    /// An enriched session in its place; nothing changes where the list is no longer that of
    /// the generation.
    pub open spec fn enriched(self, generation: u64, info: InfoView) -> DiscoveryView {
        if self.generation == generation {
            DiscoveryView { sessions: replaced(self.sessions, info), ..self }
        } else {
            self
        }
    }
}

/// The sessions with the first one of that path replaced.
pub open spec fn replaced(sessions: Seq<InfoView>, info: InfoView) -> Seq<InfoView>
    decreases sessions.len(),
{
    if sessions.len() == 0 {
        seq![]
    } else if sessions[0].path == info.path {
        sessions.update(0, info)
    } else {
        seq![sessions[0]] + replaced(sessions.skip(1), info)
    }
}

/// Whether the session at `i` is the first one of that path.
pub open spec fn is_first(sessions: Seq<InfoView>, path: Seq<char>, i: int) -> bool {
    &&& 0 <= i < sessions.len()
    &&& sessions[i].path == path
    &&& forall|k: int| 0 <= k < i ==> (#[trigger] sessions[k]).path != path
}

/// Whether no session has that path.
pub open spec fn is_absent(sessions: Seq<InfoView>, path: Seq<char>) -> bool {
    forall|k: int| 0 <= k < sessions.len() ==> (#[trigger] sessions[k]).path != path
}

proof fn lemma_replaced(sessions: Seq<InfoView>, info: InfoView, i: int)
    requires
        is_first(sessions, info.path, i),
    ensures
        replaced(sessions, info) == sessions.update(i, info),
    decreases sessions.len(),
{
    if i > 0 {
        assert(sessions[0].path != info.path);
        let rest = sessions.skip(1);
        assert forall|k: int| 0 <= k < i - 1 implies (#[trigger] rest[k]).path != info.path by {
            assert(sessions[k + 1].path != info.path);
        }
        lemma_replaced(rest, info, i - 1);
        assert(sessions.update(i, info) =~= seq![sessions[0]] + rest.update(i - 1, info));
    }
}

proof fn lemma_not_replaced(sessions: Seq<InfoView>, info: InfoView)
    requires
        is_absent(sessions, info.path),
    ensures
        replaced(sessions, info) == sessions,
    decreases sessions.len(),
{
    if sessions.len() > 0 {
        assert(sessions[0].path != info.path);
        let rest = sessions.skip(1);
        assert forall|k: int| 0 <= k < rest.len() implies (#[trigger] rest[k]).path != info.path by {
            assert(sessions[k + 1].path != info.path);
        }
        lemma_not_replaced(rest, info);
        assert(seq![sessions[0]] + rest =~= sessions);
    } else {
        assert(replaced(sessions, info) =~= sessions);
    }
}

fn set_ongoing(info: &mut CodexSessionInfo, ongoing: bool)
    ensures
        final(info).deep_view() == (InfoView { is_ongoing: ongoing, ..old(info).deep_view() }),
{
    info.is_ongoing = ongoing;
}

/// The place of the first session of that path.
fn find_session(sessions: &Vec<CodexSessionInfo>, path: &String) -> (r: Option<usize>)
    ensures
        match r {
            Some(i) => is_first(sessions.deep_view(), path@, i as int),
            None => is_absent(sessions.deep_view(), path@),
        },
{
    let ghost all = sessions.deep_view();
    let mut i: usize = 0;
    while i < sessions.len()
        invariant
            i <= sessions@.len(),
            all == sessions.deep_view(),
            forall|k: int| 0 <= k < i ==> (#[trigger] all[k]).path != path@,
        decreases sessions@.len() - i,
    {
        assert(all[i as int] == sessions@[i as int].deep_view());
        if sessions[i].path == *path {
            return Some(i);
        }
        i += 1;
    }
    None
}

fn copy_sessions(sessions: &Vec<CodexSessionInfo>) -> (r: Vec<CodexSessionInfo>)
    ensures
        r.deep_view() == sessions.deep_view(),
{
    let mut r: Vec<CodexSessionInfo> = Vec::new();
    let mut i: usize = 0;
    while i < sessions.len()
        invariant
            i <= sessions@.len(),
            r@.len() == i,
            forall|k: int| 0 <= k < i ==> (#[trigger] r@[k]).deep_view() == sessions@[k].deep_view(),
        decreases sessions@.len() - i,
    {
        r.push(sessions[i].clone());
        i += 1;
    }
    assert(r.deep_view() =~= sessions.deep_view());
    r
}

/// The state of the application, over the handles of its file watchers.
pub struct AppState<H> {
    pub session_watcher: Option<H>,
    pub picker_watcher: Option<H>,
    /// The watched session and whether it is ongoing.
    pub watched_session_ongoing: Option<(String, bool)>,
    pub discovery: DiscoveryState,
    /// Cache of enriched session metadata.
    pub cache: PersistentCache,
}

/// The sessions with the watched one, if any, marked as it is.
pub open spec fn with_watched(
    sessions: Seq<InfoView>,
    watched: Option<(Seq<char>, bool)>,
) -> Seq<InfoView>
    decreases sessions.len(),
{
    match watched {
        Some((path, ongoing)) => if sessions.len() == 0 {
            seq![]
        } else if sessions[0].path == path {
            sessions.update(0, InfoView { is_ongoing: ongoing, ..sessions[0] })
        } else {
            seq![sessions[0]] + with_watched(sessions.skip(1), watched)
        },
        None => sessions,
    }
}

impl<H> AppState<H> {
    /// The discovered sessions and the bookkeeping around them.
    pub open spec fn discovery(self) -> DiscoveryView {
        self.discovery.deep_view()
    }

    /// The cached sessions by path.
    pub open spec fn cached(self) -> Map<Seq<char>, CachedView> {
        self.cache.entries()
    }

    /// The watched session and whether it is ongoing.
    pub open spec fn watched(self) -> Option<(Seq<char>, bool)> {
        match self.watched_session_ongoing {
            Some((path, ongoing)) => Some((path@, ongoing)),
            None => None,
        }
    }

    /// Nothing discovered and nothing watched, over a cache.
    pub fn new(cache: PersistentCache) -> (r: AppState<H>)
        ensures
            r.session_watcher is None,
            r.picker_watcher is None,
            r.watched_session_ongoing is None,
            r.discovery() == DiscoveryView::start(),
            r.cached() == cache.entries(),
    {
        let discovery = DiscoveryState {
            dir: String::new(),
            generation: 0,
            sessions: Vec::new(),
            dirty: false,
            last_rescan: None,
        };
        assert(discovery.deep_view() =~= DiscoveryView::start());
        AppState {
            session_watcher: None,
            picker_watcher: None,
            watched_session_ongoing: None,
            discovery,
            cache,
        }
    }

    /// Ends the watch of a session: hands out the watcher, if any, to be stopped.
    pub fn stop_session_watcher(&mut self) -> (r: Option<H>)
        ensures
            r == old(self).session_watcher,
            *final(self) == (AppState { session_watcher: None, ..*old(self) }),
    {
        let mut handle: Option<H> = None;
        std::mem::swap(&mut handle, &mut self.session_watcher);
        handle
    }

    pub fn set_session_watcher(&mut self, handle: H)
        ensures
            *final(self) == (AppState { session_watcher: Some(handle), ..*old(self) }),
    {
        self.session_watcher = Some(handle);
    }

    /// Ends the watch of the sessions directory: hands out the watcher, if any, to be stopped.
    pub fn stop_picker_watcher(&mut self) -> (r: Option<H>)
        ensures
            r == old(self).picker_watcher,
            *final(self) == (AppState { picker_watcher: None, ..*old(self) }),
    {
        let mut handle: Option<H> = None;
        std::mem::swap(&mut handle, &mut self.picker_watcher);
        handle
    }

    pub fn set_picker_watcher(&mut self, handle: H)
        ensures
            *final(self) == (AppState { picker_watcher: Some(handle), ..*old(self) }),
    {
        self.picker_watcher = Some(handle);
    }

    pub fn set_watched_ongoing(&mut self, path: String, ongoing: bool)
        ensures
            *final(self) == (AppState {
                watched_session_ongoing: Some((path, ongoing)),
                ..*old(self)
            }),
    {
        self.watched_session_ongoing = Some((path, ongoing));
    }

    pub fn clear_watched_ongoing(&mut self)
        ensures
            *final(self) == (AppState { watched_session_ongoing: None, ..*old(self) }),
    {
        self.watched_session_ongoing = None;
    }

    /// Marks the watched session, if any, among some sessions: the first one of its path.
    pub fn apply_watched_ongoing(&self, sessions: &mut Vec<CodexSessionInfo>)
        ensures
            final(sessions).deep_view() == with_watched(old(sessions).deep_view(), self.watched()),
    {
        let ghost before = sessions.deep_view();
        if let Some((path, ongoing)) = &self.watched_session_ongoing {
            match find_session(sessions, path) {
                Some(i) => {
                    let ghost marked = InfoView { is_ongoing: *ongoing, ..before[i as int] };
                    set_ongoing(&mut sessions[i], *ongoing);
                    assert(sessions@[i as int].deep_view() == marked);
                    assert(sessions.deep_view() =~= before.update(i as int, marked));
                    proof {
                        lemma_watched(before, path@, *ongoing, i as int);
                    }
                },
                None => {
                    proof {
                        lemma_not_watched(before, path@, *ongoing);
                    }
                },
            }
        }
    }

    /// The session list, unless the directory has to be rescanned first: it is another one than
    /// last time, or the watcher marked the list stale and the last rescan is not too recent.
    /// `now` and `interval` are in milliseconds.
    pub fn discover_sessions(&self, dir: &str, now: u64, interval: u64) -> (r: Option<
        Vec<CodexSessionInfo>,
    >)
        ensures
            r.deep_view() == if self.discovery().serves(dir@, now, interval) {
                Some(self.discovery().sessions)
            } else {
                None
            },
    {
        if self.discovery.dir != dir.to_owned() {
            return None;
        }
        if self.discovery.dirty {
            match self.discovery.last_rescan {
                Some(last) => {
                    if !(now < last || now - last < interval) {
                        return None;
                    }
                },
                None => {
                    return None;
                },
            }
        }
        Some(copy_sessions(&self.discovery.sessions))
    }

    /// Classifies each file: unchanged files are served straight from the cache, growing files
    /// resume from their bookmark, and everything else gets a full background scan.
    pub fn classify_headers(&self, headers: Vec<ScannedHeader>) -> (r: (
        Vec<CodexSessionInfo>,
        Vec<EnrichJob>,
    ))
        ensures
            r.0.deep_view() == all_shown(headers.deep_view(), self.cached()),
            r.1.deep_view() == all_jobs(headers.deep_view(), self.cached()),
    {
        let ghost all = headers.deep_view();
        let ghost entries = self.cached();
        let mut sessions: Vec<CodexSessionInfo> = Vec::new();
        let mut jobs: Vec<EnrichJob> = Vec::new();
        let mut i: usize = 0;
        assert(all.take(0) =~= seq![]);
        assert(jobs.deep_view() =~= seq![]);
        assert(sessions.deep_view() =~= all_shown(all.take(0), entries));
        while i < headers.len()
            invariant
                i <= headers@.len(),
                all == headers.deep_view(),
                entries == self.cached(),
                sessions.deep_view() == all_shown(all.take(i as int), entries),
                jobs.deep_view() == all_jobs(all.take(i as int), entries),
            decreases headers@.len() - i,
        {
            let ghost sessions_before = sessions.deep_view();
            let ghost jobs_before = jobs.deep_view();
            let (session, job) = self.classify_header(&headers[i]);
            let ghost sv = session.deep_view();
            sessions.push(session);
            proof {
                assert(all[i as int] == headers@[i as int].deep_view());
                assert(all.take(i + 1).drop_last() =~= all.take(i as int));
                assert(sessions.deep_view() =~= sessions_before.push(sv));
                assert(all_shown(all.take(i + 1), entries) =~= all_shown(
                    all.take(i as int),
                    entries,
                ).push(sv));
            }
            if let Some(j) = job {
                let ghost jv = j.deep_view();
                jobs.push(j);
                assert(jobs.deep_view() =~= jobs_before.push(jv));
            }
            i += 1;
        }
        assert(all.take(i as int) =~= all);
        (sessions, jobs)
    }

    fn classify_header(&self, header: &ScannedHeader) -> (r: (CodexSessionInfo, Option<EnrichJob>))
        ensures
            r.0.deep_view() == shown(header.deep_view(), self.cached()),
            r.1.deep_view() == job(header.deep_view(), self.cached()),
    {
        if let Some(meta) = header.meta {
            if let Some(mtime) = meta.modified {
                if let Some(full) = self.cache.get(header.info.path.as_str(), mtime, meta.len) {
                    return (full, None);
                }
            }
            if let Some((stale, bookmark)) = self.cache.get_stale(header.info.path.as_str()) {
                let path = text::chars_of(header.info.path.as_str());
                if text::ends_with(path.as_slice(), ROLLOUT_SUFFIX) && meta.len >= bookmark.bytes {
                    let mut shown = stale.clone();
                    shown.is_ongoing = false;
                    return (shown, Some(EnrichJob::Incremental(stale, bookmark)));
                }
            }
        }
        (header.info.clone(), Some(EnrichJob::Full(header.info.clone())))
    }

    /// Takes over the session list of a rescan. Returns the generation that the enrichment of
    /// this list belongs to.
    pub fn finish_rescan(&mut self, dir: &str, sessions: &Vec<CodexSessionInfo>, now: u64) -> (r:
        u64)
        requires
            old(self).discovery().generation < u64::MAX,
        ensures
            final(self).discovery() == old(self).discovery().rescanned(
                dir@,
                sessions.deep_view(),
                now,
            ),
            r == final(self).discovery().generation,
            final(self).cached() == old(self).cached(),
            final(self).session_watcher == old(self).session_watcher,
            final(self).picker_watcher == old(self).picker_watcher,
            final(self).watched_session_ongoing == old(self).watched_session_ongoing,
    {
        let generation: u64 = self.discovery.generation + 1;
        self.discovery = DiscoveryState {
            dir: dir.to_owned(),
            generation,
            sessions: copy_sessions(sessions),
            dirty: false,
            last_rescan: Some(now),
        };
        generation
    }

    /// Mark the session list stale so that [`Self::discover_sessions`] asks for a rescan, from the
    /// first call on that comes after the interval since the last rescan. Called by the picker
    /// watcher when session files change on disk.
    pub fn mark_discovery_dirty(&mut self)
        ensures
            final(self).discovery() == (DiscoveryView { dirty: true, ..old(self).discovery() }),
            final(self).cached() == old(self).cached(),
            final(self).session_watcher == old(self).session_watcher,
            final(self).picker_watcher == old(self).picker_watcher,
            final(self).watched_session_ongoing == old(self).watched_session_ongoing,
    {
        self.discovery.dirty = true;
    }

    /// Puts an enriched session in its place, unless the list has been replaced since the
    /// enrichment began. Returns whether it has not.
    pub fn apply_enriched(&mut self, generation: u64, enriched: &CodexSessionInfo) -> (r: bool)
        ensures
            r == (old(self).discovery().generation == generation),
            final(self).discovery() == old(self).discovery().enriched(
                generation,
                enriched.deep_view(),
            ),
            final(self).cached() == old(self).cached(),
            final(self).session_watcher == old(self).session_watcher,
            final(self).picker_watcher == old(self).picker_watcher,
            final(self).watched_session_ongoing == old(self).watched_session_ongoing,
    {
        if self.discovery.generation != generation {
            return false;
        }
        let ghost before = self.discovery.sessions.deep_view();
        match find_session(&self.discovery.sessions, &enriched.path) {
            Some(i) => {
                let copy = enriched.clone();
                proof {
                    lemma_replaced(before, enriched.deep_view(), i as int);
                }
                self.discovery.sessions[i] = copy;
                assert(self.discovery.sessions.deep_view() =~= before.update(
                    i as int,
                    enriched.deep_view(),
                ));
            },
            None => {
                proof {
                    lemma_not_replaced(before, enriched.deep_view());
                }
            },
        }
        true
    }

    /// Caches an enriched session and how far its file was scanned, where the file system says
    /// when the file was modified.
    pub fn cache_enriched(
        &mut self,
        enriched: &CodexSessionInfo,
        bookmark: ScanBookmark,
        meta: Option<FileMeta>,
    )
        ensures
            final(self).cached() == with_scan(
                old(self).cached(),
                enriched.deep_view(),
                bookmark,
                meta,
            ),
            final(self).discovery() == old(self).discovery(),
            final(self).session_watcher == old(self).session_watcher,
            final(self).picker_watcher == old(self).picker_watcher,
            final(self).watched_session_ongoing == old(self).watched_session_ongoing,
    {
        if let Some(meta) = meta {
            if let Some(mtime) = meta.modified {
                self.cache.put_scanned(
                    enriched.path.as_str(),
                    mtime,
                    meta.len,
                    bookmark,
                    enriched.clone(),
                );
            }
        }
    }

    /// Takes in the outcome of a job, the `done`th of `total`: the enriched session is put in its
    /// place and cached, unless the list has been replaced since the enrichment began. Returns
    /// nothing where it has; else the session is to be announced, and the progress with it
    /// where that is due.
    pub fn finish_job(
        &mut self,
        generation: u64,
        enriched: &CodexSessionInfo,
        bookmark: ScanBookmark,
        meta: Option<FileMeta>,
        done: u64,
        total: u64,
    ) -> (r: Option<JobReport>)
        ensures
            final(self).discovery() == old(self).discovery().enriched(
                generation,
                enriched.deep_view(),
            ),
            final(self).cached() == if old(self).discovery().generation == generation {
                with_scan(old(self).cached(), enriched.deep_view(), bookmark, meta)
            } else {
                old(self).cached()
            },
            match r {
                Some(report) => old(self).discovery().generation == generation
                    && report.progress.deep_view() == if reports(done as int, total as int) {
                    Some(json::compact_text(json::kept(progress(done, total))))
                } else {
                    None
                },
                None => old(self).discovery().generation != generation,
            },
            final(self).session_watcher == old(self).session_watcher,
            final(self).picker_watcher == old(self).picker_watcher,
            final(self).watched_session_ongoing == old(self).watched_session_ongoing,
    {
        if !self.apply_enriched(generation, enriched) {
            return None;
        }
        self.cache_enriched(enriched, bookmark, meta);
        if should_report(done, total) {
            Some(JobReport { progress: Some(progress_data(done, total)) })
        } else {
            Some(JobReport { progress: None })
        }
    }

    /// The event for browser clients.
    pub fn broadcast(event: &str, data: &str) -> (r: SseEvent)
        ensures
            r.event@ == event@,
            r.data@ == data@,
    {
        SseEvent { event: event.to_owned(), data: data.to_owned() }
    }

    /// The event for browser clients, and its data for the desktop window where there is one and the
    /// data are a JSON value.
    pub fn broadcast_all(has_window: bool, event: &str, data: &str) -> (r: (SseEvent, Option<Json>))
        ensures
            r.0.event@ == event@,
            r.0.data@ == data@,
            r.1.deep_view() == if has_window {
                json::parsed(data@)
            } else {
                None
            },
    {
        let sent = Self::broadcast(event, data);
        if has_window {
            (sent, Json::parse(data))
        } else {
            (sent, None)
        }
    }

    /// Takes over the session list after its last pass, unless it has been replaced since the
    /// enrichment began.
    pub fn finish_enrichment(&mut self, generation: u64, sessions: Vec<CodexSessionInfo>)
        ensures
            final(self).discovery() == if old(self).discovery().generation == generation {
                DiscoveryView { sessions: sessions.deep_view(), ..old(self).discovery() }
            } else {
                old(self).discovery()
            },
            final(self).cached() == old(self).cached(),
            final(self).session_watcher == old(self).session_watcher,
            final(self).picker_watcher == old(self).picker_watcher,
            final(self).watched_session_ongoing == old(self).watched_session_ongoing,
    {
        if self.discovery.generation == generation {
            self.discovery.sessions = sessions;
        }
    }
}

proof fn lemma_watched(sessions: Seq<InfoView>, path: Seq<char>, ongoing: bool, i: int)
    requires
        is_first(sessions, path, i),
    ensures
        with_watched(sessions, Some((path, ongoing))) == sessions.update(
            i,
            InfoView { is_ongoing: ongoing, ..sessions[i] },
        ),
    decreases sessions.len(),
{
    if i > 0 {
        assert(sessions[0].path != path);
        let rest = sessions.skip(1);
        assert forall|k: int| 0 <= k < i - 1 implies (#[trigger] rest[k]).path != path by {
            assert(sessions[k + 1].path != path);
        }
        lemma_watched(rest, path, ongoing, i - 1);
        let marked = InfoView { is_ongoing: ongoing, ..sessions[i] };
        assert(sessions.update(i, marked) =~= seq![sessions[0]] + rest.update(i - 1, marked));
    }
}

proof fn lemma_not_watched(sessions: Seq<InfoView>, path: Seq<char>, ongoing: bool)
    requires
        is_absent(sessions, path),
    ensures
        with_watched(sessions, Some((path, ongoing))) == sessions,
    decreases sessions.len(),
{
    if sessions.len() > 0 {
        assert(sessions[0].path != path);
        let rest = sessions.skip(1);
        assert forall|k: int| 0 <= k < rest.len() implies (#[trigger] rest[k]).path != path by {
            assert(sessions[k + 1].path != path);
        }
        lemma_not_watched(rest, path, ongoing);
        assert(seq![sessions[0]] + rest =~= sessions);
    } else {
        assert(with_watched(sessions, Some((path, ongoing))) =~= sessions);
    }
}

/// How many threads the background enrichment may use, given the number of processors where it
/// is known: at most half of them, so that the interface stays responsive, and at least one.
pub fn enrich_thread_count(cpus: Option<usize>) -> (r: usize)
    ensures
        r == {
            let half = match cpus {
                Some(n) => n / 2,
                None => 2,
            };
            if half > 1 {
                half
            } else {
                1
            }
        },
{
    let cpus: usize = match cpus {
        Some(n) => n,
        None => 4,
    };
    let half: usize = cpus / 2;
    if half > 1 {
        half
    } else {
        1
    }
}

/// Whether progress is reported after that many of the sessions: now and then, to keep the
/// event stream light, and at the end.
pub open spec fn reports(done: int, total: int) -> bool {
    done == total || done % (PROGRESS_STEP as int) == 0
}

pub fn should_report(done: u64, total: u64) -> (r: bool)
    ensures
        r == reports(done as int, total as int),
{
    done == total || done % PROGRESS_STEP == 0
}

/// The members of a progress event.
pub open spec fn progress(done: u64, total: u64) -> JsonView {
    JsonView::Object(
        seq![
            ("scanned"@, JsonView::Number(json::number(done))),
            ("total"@, JsonView::Number(json::number(total))),
        ],
    )
}

/// The data of a `picker-progress` event.
pub fn progress_data(done: u64, total: u64) -> (r: String)
    ensures
        r@ == json::compact_text(json::kept(progress(done, total))),
{
    let mut members: Vec<(String, Json)> = Vec::new();
    members.push(("scanned".to_owned(), Json::number(done)));
    members.push(("total".to_owned(), Json::number(total)));
    let value = Json::Object(members);
    assert(value.deep_view()->Object_0 =~= progress(done, total)->Object_0);
    value.compact()
}

} // verus!
