//! What holds of discovery and enrichment.

use vstd::prelude::*;

use crate::json;
use crate::json::JsonView;
use crate::parser::cache;
use crate::parser::cache::{CachedView, FileTime};
use crate::parser::discover::{InfoView, ScanBookmark};
use crate::state;
use crate::state::{DiscoveryView, FileMeta, HeaderView, JobView};
use crate::text;

verus! {

/// The list of a rescan is served for its directory, at any time, until something changes.
pub proof fn rescans_are_served_while_nothing_changes(
    d: DiscoveryView,
    dir: Seq<char>,
    sessions: Seq<InfoView>,
    now: u64,
    later: u64,
    interval: u64,
)
    ensures
        d.rescanned(dir, sessions, now).serves(dir, later, interval),
        d.rescanned(dir, sessions, now).sessions == sessions,
{
}

/// A list that was served is served again, unless it is stale and the interval since the last
/// rescan has run out meanwhile.
pub proof fn served_lists_are_served_again(
    d: DiscoveryView,
    dir: Seq<char>,
    now: u64,
    later: u64,
    interval: u64,
)
    requires
        d.serves(dir, now, interval),
        !d.dirty || d.rescanned_within(later, interval),
    ensures
        d.serves(dir, later, interval),
{
}

/// A list that was marked stale is not served once the interval since the last rescan is over:
/// with no interval, not at all.
pub proof fn stale_lists_are_rescanned(
    d: DiscoveryView,
    dir: Seq<char>,
    sessions: Seq<InfoView>,
    now: u64,
    later: u64,
    interval: u64,
)
    requires
        later >= now + interval,
    ensures
        ({
            let stale = DiscoveryView { dirty: true, ..d.rescanned(dir, sessions, now) };
            !stale.serves(dir, later, interval)
        }),
{
}

/// A list is not rescanned for being stale while the interval lasts.
pub proof fn rescans_keep_their_distance(
    d: DiscoveryView,
    dir: Seq<char>,
    sessions: Seq<InfoView>,
    now: u64,
    later: u64,
    interval: u64,
)
    requires
        later < now + interval,
    ensures
        ({
            let stale = DiscoveryView { dirty: true, ..d.rescanned(dir, sessions, now) };
            stale.serves(dir, later, interval)
        }),
{
}

/// A list is served for no other directory than its own.
pub proof fn lists_belong_to_their_directory(
    d: DiscoveryView,
    dir: Seq<char>,
    now: u64,
    interval: u64,
)
    requires
        d.dir != dir,
    ensures
        !d.serves(dir, now, interval),
{
}

/// What was enriched for an earlier list leaves the current one as it is.
pub proof fn late_enrichment_is_dropped(
    d: DiscoveryView,
    dir: Seq<char>,
    sessions: Seq<InfoView>,
    now: u64,
    info: InfoView,
)
    requires
        d.generation < u64::MAX,
    ensures
        d.rescanned(dir, sessions, now).enriched(d.generation, info) == d.rescanned(
            dir,
            sessions,
            now,
        ),
{
}

/// Enriching a session keeps the length of the list and the path in each place.
pub proof fn enrichment_keeps_the_paths(sessions: Seq<InfoView>, info: InfoView)
    ensures
        state::replaced(sessions, info).len() == sessions.len(),
        forall|k: int|
            #![trigger sessions[k]]
            0 <= k < sessions.len() ==> state::replaced(sessions, info)[k].path == sessions[k].path,
    decreases sessions.len(),
{
    if sessions.len() > 0 && sessions[0].path != info.path {
        let rest = sessions.skip(1);
        enrichment_keeps_the_paths(rest, info);
        let after = state::replaced(sessions, info);
        assert forall|k: int| 0 <= k < sessions.len() implies after[k].path == (
        #[trigger] sessions[k]).path by {
            if k > 0 {
                assert(after[k] == state::replaced(rest, info)[k - 1]);
                assert(rest[k - 1] == sessions[k]);
            }
        }
    }
}

/// Every header is shown, in its place.
pub proof fn headers_are_all_shown(
    headers: Seq<HeaderView>,
    entries: Map<Seq<char>, CachedView>,
)
    ensures
        state::all_shown(headers, entries).len() == headers.len(),
{
}

/// The headers of files that have to be read.
pub open spec fn to_read(
    headers: Seq<HeaderView>,
    entries: Map<Seq<char>, CachedView>,
) -> Seq<HeaderView>
    decreases headers.len(),
{
    if headers.len() == 0 {
        seq![]
    } else {
        let before = to_read(headers.drop_last(), entries);
        if state::unchanged(headers.last(), entries) is Some {
            before
        } else {
            before.push(headers.last())
        }
    }
}

/// There is exactly one job for each file that has to be read, in the order of the headers.
pub proof fn jobs_are_the_files_to_read(
    headers: Seq<HeaderView>,
    entries: Map<Seq<char>, CachedView>,
)
    ensures
        state::all_jobs(headers, entries).len() == to_read(headers, entries).len(),
        forall|k: int|
            #![trigger state::all_jobs(headers, entries)[k]]
            0 <= k < to_read(headers, entries).len() ==> state::job(
                to_read(headers, entries)[k],
                entries,
            ) == Some(state::all_jobs(headers, entries)[k]),
    decreases headers.len(),
{
    if headers.len() > 0 {
        let front = headers.drop_last();
        jobs_are_the_files_to_read(front, entries);
        let jobs = state::all_jobs(headers, entries);
        let read = to_read(headers, entries);
        assert forall|k: int| 0 <= k < read.len() implies state::job(read[k], entries) == Some(
            #[trigger] jobs[k],
        ) by {
            if k < to_read(front, entries).len() {
                assert(jobs[k] == state::all_jobs(front, entries)[k]);
            }
        }
    }
}

/// Whether every file is unchanged.
pub open spec fn all_unchanged(
    headers: Seq<HeaderView>,
    entries: Map<Seq<char>, CachedView>,
) -> bool {
    forall|k: int|
        0 <= k < headers.len() ==> state::unchanged(#[trigger] headers[k], entries) is Some
}

/// Where every file is unchanged, there is nothing to do.
pub proof fn unchanged_files_leave_no_jobs(
    headers: Seq<HeaderView>,
    entries: Map<Seq<char>, CachedView>,
)
    requires
        all_unchanged(headers, entries),
    ensures
        state::all_jobs(headers, entries).len() == 0,
    decreases headers.len(),
{
    if headers.len() > 0 {
        let front = headers.drop_last();
        assert(state::unchanged(headers[headers.len() - 1], entries) is Some);
        assert forall|k: int| 0 <= k < front.len() implies state::unchanged(
            #[trigger] front[k],
            entries,
        ) is Some by {
            assert(state::unchanged(headers[k], entries) is Some);
        }
        unchanged_files_leave_no_jobs(front, entries);
    }
}

/// A session that is shown as ongoing is one whose header says so and that nothing is cached of.
pub proof fn shown_from_the_cache_is_never_ongoing(
    header: HeaderView,
    entries: Map<Seq<char>, CachedView>,
)
    ensures
        state::shown(header, entries).is_ongoing ==> header.info.is_ongoing && state::job(
            header,
            entries,
        ) == Some(JobView::Full(header.info)),
{
}

/// A resumed scan starts within the file.
pub proof fn scans_resume_within_the_file(
    header: HeaderView,
    entries: Map<Seq<char>, CachedView>,
)
    ensures
        state::job(header, entries) matches Some(JobView::Incremental(_, bookmark))
            ==> header.meta is Some && bookmark.bytes <= header.meta->0.len,
{
}

/// A session that was enriched and cached is served from the cache as long as its file stays as
/// it is, and there is then nothing to do for it.
pub proof fn enriched_sessions_are_served_next_time(
    header: HeaderView,
    entries: Map<Seq<char>, CachedView>,
    info: InfoView,
    bookmark: ScanBookmark,
    mtime: FileTime,
    len: u64,
)
    requires
        header.info.path == info.path,
        header.meta == Some(FileMeta { len, modified: Some(mtime) }),
    ensures
        ({
            let after = state::with_scan(entries, info, bookmark, header.meta);
            &&& state::shown(header, after) == cache::settled(info)
            &&& state::job(header, after) is None
        }),
{
}

/// Marking the watched session changes at most one session, and of it only whether it is
/// ongoing.
pub proof fn marking_touches_only_the_watched(
    sessions: Seq<InfoView>,
    path: Seq<char>,
    ongoing: bool,
)
    ensures
        ({
            let after = state::with_watched(sessions, Some((path, ongoing)));
            &&& after.len() == sessions.len()
            &&& forall|k: int|
                #![trigger sessions[k]]
                0 <= k < sessions.len() ==> after[k] == if state::is_first(sessions, path, k) {
                    InfoView { is_ongoing: ongoing, ..sessions[k] }
                } else {
                    sessions[k]
                }
        }),
    decreases sessions.len(),
{
    let after = state::with_watched(sessions, Some((path, ongoing)));
    if sessions.len() > 0 {
        if sessions[0].path == path {
            assert(state::is_first(sessions, path, 0));
            assert forall|k: int| 0 < k < sessions.len() implies !state::is_first(
                sessions,
                path,
                k,
            ) by {
                assert(sessions[0].path == path);
            }
        } else {
            let rest = sessions.skip(1);
            marking_touches_only_the_watched(rest, path, ongoing);
            let rest_after = state::with_watched(rest, Some((path, ongoing)));
            assert forall|k: int| 0 <= k < sessions.len() implies after[k] == if state::is_first(
                sessions,
                path,
                k,
            ) {
                InfoView { is_ongoing: ongoing, ..#[trigger] sessions[k] }
            } else {
                sessions[k]
            } by {
                if k > 0 {
                    assert(after[k] == rest_after[k - 1]);
                    assert(rest[k - 1] == sessions[k]);
                    if state::is_first(sessions, path, k) {
                        assert forall|j: int| 0 <= j < k - 1 implies (#[trigger] rest[j]).path
                            != path by {
                            assert(sessions[j + 1].path != path);
                        }
                        assert(state::is_first(rest, path, k - 1));
                    }
                    if state::is_first(rest, path, k - 1) {
                        assert forall|j: int| 0 <= j < k implies (#[trigger] sessions[j]).path
                            != path by {
                            if j > 0 {
                                assert(rest[j - 1].path != path);
                            }
                        }
                    }
                }
            }
        }
    }
}

/// Whether a path names a plain session file.
pub open spec fn is_rollout(path: Seq<char>) -> bool {
    exists|stem: Seq<char>| path == #[trigger] (stem + ".jsonl"@)
}

/// Whether a file has the time and the length that are cached of it. A time before 1970 counts
/// as 1970.
pub open spec fn same_file(meta: Option<FileMeta>, entry: CachedView) -> bool {
    match meta {
        Some(meta) => match meta.modified {
            Some(FileTime::SinceEpoch { secs, nanos }) => entry.size == meta.len && entry.mtime_ns
                == secs * 1_000_000_000 + nanos,
            Some(FileTime::BeforeEpoch { .. }) => entry.size == meta.len && entry.mtime_ns == 0,
            None => false,
        },
        None => false,
    }
}

/// Whether a file can be read on from where its last scan ended.
pub open spec fn grows_from(header: HeaderView, entry: CachedView) -> bool {
    match (header.meta, entry.bookmark) {
        (Some(meta), Some(bookmark)) => is_rollout(header.info.path) && bookmark.bytes <= meta.len,
        _ => false,
    }
}

proof fn lemma_rollout(path: Seq<char>)
    ensures
        is_rollout(path) <==> text::has_suffix(path, state::ROLLOUT_SUFFIX@),
{
    let end = ".jsonl"@;
    if text::has_suffix(path, end) {
        let stem = path.take(path.len() - end.len());
        assert(path =~= stem + end);
    }
    if is_rollout(path) {
        let stem = choose|stem: Seq<char>| path == #[trigger] (stem + end);
        assert(path.skip(path.len() - end.len()) =~= end);
    }
}

/// A file of which the cached time and length still hold is shown as it is cached, but not as
/// ongoing, and needs no job.
pub proof fn unchanged_files_are_served(
    headers: Seq<HeaderView>,
    entries: Map<Seq<char>, CachedView>,
    i: int,
)
    requires
        0 <= i < headers.len(),
        entries.contains_key(headers[i].info.path),
        same_file(headers[i].meta, entries[headers[i].info.path]),
    ensures
        state::all_shown(headers, entries)[i] == (InfoView {
            is_ongoing: false,
            ..entries[headers[i].info.path].info
        }),
        state::all_jobs(headers.take(i + 1), entries) == state::all_jobs(headers.take(i), entries),
{
    assert(headers.take(i + 1).drop_last() =~= headers.take(i));
}

/// A plain file that has changed and is at least as long as it was scanned is shown with what is
/// known of it, but not as ongoing, and its scan is resumed from where it ended.
pub proof fn growing_files_are_resumed(
    headers: Seq<HeaderView>,
    entries: Map<Seq<char>, CachedView>,
    i: int,
    bookmark: ScanBookmark,
)
    requires
        0 <= i < headers.len(),
        entries.contains_key(headers[i].info.path),
        !same_file(headers[i].meta, entries[headers[i].info.path]),
        entries[headers[i].info.path].bookmark == Some(bookmark),
        is_rollout(headers[i].info.path),
        headers[i].meta is Some,
        headers[i].meta->0.len >= bookmark.bytes,
    ensures
        state::all_shown(headers, entries)[i] == (InfoView {
            is_ongoing: false,
            ..entries[headers[i].info.path].info
        }),
        state::all_jobs(headers.take(i + 1), entries) == state::all_jobs(
            headers.take(i),
            entries,
        ).push(JobView::Incremental(entries[headers[i].info.path].info, bookmark)),
{
    lemma_rollout(headers[i].info.path);
    assert(headers.take(i + 1).drop_last() =~= headers.take(i));
}

/// A file that is neither known nor grown is shown as its header says, and scanned in full.
pub proof fn other_files_are_scanned_in_full(
    headers: Seq<HeaderView>,
    entries: Map<Seq<char>, CachedView>,
    i: int,
)
    requires
        0 <= i < headers.len(),
        entries.contains_key(headers[i].info.path) ==> !same_file(
            headers[i].meta,
            entries[headers[i].info.path],
        ) && !grows_from(headers[i], entries[headers[i].info.path]),
    ensures
        state::all_shown(headers, entries)[i] == headers[i].info,
        state::all_jobs(headers.take(i + 1), entries) == state::all_jobs(
            headers.take(i),
            entries,
        ).push(JobView::Full(headers[i].info)),
{
    lemma_rollout(headers[i].info.path);
    assert(headers.take(i + 1).drop_last() =~= headers.take(i));
}

/// Without headers there is nothing to show and nothing to do.
pub proof fn no_headers_need_nothing(entries: Map<Seq<char>, CachedView>)
    ensures
        state::all_shown(seq![], entries).len() == 0,
        state::all_jobs(seq![], entries).len() == 0,
{
}

/// A plain file that has grown since it was enriched and cached is resumed from where that scan
/// ended.
pub proof fn enriched_sessions_are_resumed_as_they_grow(
    header: HeaderView,
    entries: Map<Seq<char>, CachedView>,
    info: InfoView,
    bookmark: ScanBookmark,
    mtime: FileTime,
    len: u64,
)
    requires
        header.info.path == info.path,
        is_rollout(info.path),
        header.meta is Some,
        header.meta->0.len > len,
        bookmark.bytes <= len,
    ensures
        ({
            let scanned = Some(FileMeta { len, modified: Some(mtime) });
            let after = state::with_scan(entries, info, bookmark, scanned);
            &&& state::shown(header, after) == (InfoView { is_ongoing: false, ..info })
            &&& state::job(header, after) == Some(JobView::Incremental(info, bookmark))
        }),
{
    lemma_rollout(info.path);
}

/// Caching a scan leaves the other sessions as they were cached, and changes nothing where the
/// file system does not say when the file was modified.
pub proof fn caching_a_scan_touches_one_session(
    entries: Map<Seq<char>, CachedView>,
    info: InfoView,
    bookmark: ScanBookmark,
    meta: Option<FileMeta>,
    other: Seq<char>,
)
    requires
        other != info.path || meta is None || meta->0.modified is None,
    ensures
        ({
            let after = state::with_scan(entries, info, bookmark, meta);
            &&& after.contains_key(other) == entries.contains_key(other)
            &&& entries.contains_key(other) ==> after[other] == entries[other]
        }),
{
}

/// A scan is cached under its path with the time and the length of the file and with where the
/// scan ended.
pub proof fn scans_are_cached_as_they_are(
    entries: Map<Seq<char>, CachedView>,
    info: InfoView,
    bookmark: ScanBookmark,
    secs: u64,
    nanos: u32,
    len: u64,
)
    ensures
        ({
            let modified = Some(FileTime::SinceEpoch { secs, nanos });
            let after = state::with_scan(entries, info, bookmark, Some(FileMeta { len, modified }));
            &&& after.contains_key(info.path)
            &&& after[info.path].info == info
            &&& after[info.path].bookmark == Some(bookmark)
            &&& after[info.path].size == len
            &&& after[info.path].mtime_ns == secs * 1_000_000_000 + nanos
        }),
{
}

/// An enriched session takes the place of the first one of its path; every other session stays
/// as it is. A list of another generation stays as it is altogether.
pub proof fn enrichment_touches_only_its_session(d: DiscoveryView, generation: u64, info: InfoView)
    ensures
        ({
            let after = d.enriched(generation, info);
            &&& after.sessions.len() == d.sessions.len()
            &&& after.dir == d.dir && after.generation == d.generation && after.dirty == d.dirty
            &&& after.last_rescan == d.last_rescan
            &&& forall|k: int|
                #![trigger after.sessions[k]]
                0 <= k < d.sessions.len() ==> after.sessions[k] == if generation == d.generation
                    && state::is_first(d.sessions, info.path, k) {
                    info
                } else {
                    d.sessions[k]
                }
        }),
{
    lemma_replaced_places(d.sessions, info);
}

proof fn lemma_replaced_places(sessions: Seq<InfoView>, info: InfoView)
    ensures
        state::replaced(sessions, info).len() == sessions.len(),
        forall|k: int|
            #![trigger state::replaced(sessions, info)[k]]
            0 <= k < sessions.len() ==> state::replaced(sessions, info)[k] == if state::is_first(
                sessions,
                info.path,
                k,
            ) {
                info
            } else {
                sessions[k]
            },
    decreases sessions.len(),
{
    let after = state::replaced(sessions, info);
    if sessions.len() > 0 {
        if sessions[0].path == info.path {
            assert(state::is_first(sessions, info.path, 0));
        } else {
            let rest = sessions.skip(1);
            lemma_replaced_places(rest, info);
            let rest_after = state::replaced(rest, info);
            assert forall|k: int| #![trigger after[k]] 0 <= k < sessions.len() implies after[k]
                == if state::is_first(sessions, info.path, k) {
                info
            } else {
                sessions[k]
            } by {
                if k > 0 {
                    assert(after[k] == rest_after[k - 1]);
                    assert(rest[k - 1] == sessions[k]);
                    if state::is_first(sessions, info.path, k) {
                        assert forall|j: int| 0 <= j < k - 1 implies (#[trigger] rest[j]).path
                            != info.path by {
                            assert(sessions[j + 1].path != info.path);
                        }
                        assert(state::is_first(rest, info.path, k - 1));
                    }
                    if state::is_first(rest, info.path, k - 1) {
                        assert forall|j: int| 0 <= j < k implies (#[trigger] sessions[j]).path
                            != info.path by {
                            if j > 0 {
                                assert(rest[j - 1].path != info.path);
                            }
                        }
                    }
                }
            }
        }
    }
}

/// A rescan replaces the list and counts on; only then is the list of a new generation.
pub proof fn rescans_replace_the_list(
    d: DiscoveryView,
    dir: Seq<char>,
    sessions: Seq<InfoView>,
    now: u64,
)
    requires
        d.generation < u64::MAX,
    ensures
        d.rescanned(dir, sessions, now).dir == dir,
        d.rescanned(dir, sessions, now).sessions == sessions,
        d.rescanned(dir, sessions, now).generation == d.generation + 1,
        !d.rescanned(dir, sessions, now).dirty,
        d.rescanned(dir, sessions, now).last_rescan == Some(now),
{
}

/// At the start there is no list for any directory with a name.
pub proof fn nothing_is_served_at_the_start(dir: Seq<char>, now: u64, interval: u64)
    requires
        dir.len() > 0,
    ensures
        !DiscoveryView::start().serves(dir, now, interval),
{
}

/// A stale list that was never rescanned is not served.
pub proof fn stale_lists_need_a_rescan(d: DiscoveryView, dir: Seq<char>, now: u64, interval: u64)
    requires
        d.dirty,
        d.last_rescan is None,
    ensures
        !d.serves(dir, now, interval),
{
}

/// A list is served exactly where it is that of the directory, and nothing has changed since, or
/// the last rescan lies less than the interval back.
pub proof fn lists_are_served_while_fresh(
    d: DiscoveryView,
    dir: Seq<char>,
    now: u64,
    interval: u64,
)
    ensures
        d.serves(dir, now, interval) <==> d.dir == dir && (d.dirty ==> exists|last: u64|
            d.last_rescan == Some(last) && now < #[trigger] (last + interval)),
{
    if d.last_rescan is Some {
        let last = d.last_rescan->0;
        assert(now - last < interval <==> now < last + interval);
    }
}

/// Where nothing is watched, marking changes nothing.
pub proof fn marking_needs_a_watch(sessions: Seq<InfoView>)
    ensures
        state::with_watched(sessions, None) == sessions,
{
}

/// Progress is reported at every twenty-fifth session, and else at the end alone.
pub proof fn progress_is_reported_at_intervals(n: int, done: int, total: int)
    ensures
        state::reports(25 * n, total),
        done % 25 != 0 && done != total ==> !state::reports(done, total),
{
    assert((25 * n) % 25 == 0) by (nonlinear_arith);
}

/// Progress is always reported at the end.
pub proof fn the_end_is_reported(total: int)
    ensures
        state::reports(total, total),
{
}

/// A progress event tells how many sessions were scanned and how many there are.
pub proof fn progress_tells_how_far(done: u64, total: u64)
    ensures
        ({
            let sent = json::kept(state::progress(done, total));
            &&& sent.member("scanned"@) == Some(JsonView::Number(json::number(done)))
            &&& sent.member("total"@) == Some(JsonView::Number(json::number(total)))
        }),
{
    let none = Seq::<(Seq<char>, JsonView)>::empty();
    let scanned = ("scanned"@, JsonView::Number(json::number(done)));
    let all = ("total"@, JsonView::Number(json::number(total)));
    reveal_strlit("scanned");
    reveal_strlit("total");
    assert("scanned"@.len() == 7 && "total"@.len() == 5);
    assert(state::progress(done, total)->Object_0 =~= none.push(scanned).push(all));
    json::kept_objects_have_their_members(none, scanned.0, scanned.1, all.0);
    json::kept_objects_have_their_members(none.push(scanned), all.0, all.1, scanned.0);
}

} // verus!
