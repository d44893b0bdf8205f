//! Cache of enriched session metadata, keyed by path, modification time and size.
//!
//! Session files are immutable once Codex stops writing them, so an unchanged modification time
//! and size mean that the previously computed metadata is still valid. Only new or modified
//! files are read again.

use vstd::prelude::*;

use crate::parser::discover::{CodexSessionInfo, InfoView, ScanBookmark};
use crate::text_map::TextMap;

verus! {

pub const CACHE_VERSION: u32 = 1;

pub const CACHE_DIR_NAME: &'static str = "codex-trace";

pub const CACHE_FILE_NAME: &'static str = "sessions-cache.json";

/// When a file was modified.
#[derive(Debug, Clone, Copy, PartialEq, Eq, Structural)]
pub enum FileTime {
    /// Seconds and nanoseconds before 1970.
    BeforeEpoch { secs: u64, nanos: u32 },
    /// Seconds and nanoseconds since 1970.
    SinceEpoch { secs: u64, nanos: u32 },
}

/// Nanoseconds since 1970; an earlier time counts as 1970.
pub open spec fn time_in_nanos(t: FileTime) -> int {
    match t {
        FileTime::BeforeEpoch { .. } => 0,
        FileTime::SinceEpoch { secs, nanos } => secs * 1_000_000_000 + nanos,
    }
}

fn mtime_nanos(t: FileTime) -> (r: u128)
    ensures
        r == time_in_nanos(t),
{
    match t {
        FileTime::BeforeEpoch { .. } => 0,
        FileTime::SinceEpoch { secs, nanos } => secs as u128 * 1_000_000_000 + nanos as u128,
    }
}

/// One cached session.
#[derive(Debug)]
pub struct CachedEntry {
    pub mtime_ns: u128,
    pub size: u64,
    /// How far the file had been scanned, where the scan can be resumed.
    pub bookmark: Option<ScanBookmark>,
    pub info: CodexSessionInfo,
}

/// The contents of a [`CachedEntry`].
#[verifier::ext_equal]
pub struct CachedView {
    pub mtime_ns: u128,
    pub size: u64,
    pub bookmark: Option<ScanBookmark>,
    pub info: InfoView,
}

impl DeepView for CachedEntry {
    type V = CachedView;

    open spec fn deep_view(&self) -> CachedView {
        CachedView {
            mtime_ns: self.mtime_ns,
            size: self.size,
            bookmark: self.bookmark,
            info: self.info.deep_view(),
        }
    }
}

/// What a cache file holds: the sessions by their absolute file paths.
pub struct CacheFile {
    pub version: u32,
    pub entries: TextMap<CachedEntry>,
}

impl Default for CacheFile {
    fn default() -> (r: CacheFile)
        ensures
            r.version == CACHE_VERSION,
            r.entries.deep_view() == Map::<Seq<char>, CachedView>::empty(),
    {
        let entries: TextMap<CachedEntry> = TextMap::new();
        assert(entries.deep_view() =~= Map::<Seq<char>, CachedView>::empty());
        CacheFile { version: CACHE_VERSION, entries }
    }
}

/// Cache of enriched session metadata.
pub struct PersistentCache {
    data: CacheFile,
}

/// The metadata as it is served from the cache. `is_ongoing` is cleared: it depends on the file
/// being freshly written, which cannot hold of a cached session.
pub open spec fn settled(info: InfoView) -> InfoView {
    InfoView { is_ongoing: false, ..info }
}

/// The metadata of an unchanged file.
pub open spec fn cached_info(
    entries: Map<Seq<char>, CachedView>,
    path: Seq<char>,
    mtime: FileTime,
    size: u64,
) -> Option<InfoView> {
    if entries.contains_key(path) && entries[path].mtime_ns == time_in_nanos(mtime)
        && entries[path].size == size {
        Some(settled(entries[path].info))
    } else {
        None
    }
}

/// The metadata of a file that may have changed, and how far it was scanned.
pub open spec fn resumable_info(
    entries: Map<Seq<char>, CachedView>,
    path: Seq<char>,
) -> Option<(InfoView, ScanBookmark)> {
    if entries.contains_key(path) && entries[path].bookmark is Some {
        Some((entries[path].info, entries[path].bookmark->0))
    } else {
        None
    }
}

/// The sessions of a cache file: none where the file is missing or of another version.
pub open spec fn loaded(file: Option<CacheFile>) -> Map<Seq<char>, CachedView> {
    match file {
        Some(file) => if file.version == CACHE_VERSION {
            file.entries.deep_view()
        } else {
            Map::empty()
        },
        None => Map::empty(),
    }
}

impl PersistentCache {
    #[verifier::type_invariant]
    spec fn well_formed(self) -> bool {
        self.data.version == CACHE_VERSION
    }

    /// The cached sessions by path.
    pub closed spec fn entries(self) -> Map<Seq<char>, CachedView> {
        self.data.entries.deep_view()
    }

    /// The cache of a file's contents, which are `None` where the file could not be read.
    pub fn load(file: Option<CacheFile>) -> (r: PersistentCache)
        ensures
            r.entries() == loaded(file),
    {
        match file {
            Some(data) => if data.version == CACHE_VERSION {
                PersistentCache { data }
            } else {
                PersistentCache { data: CacheFile::default() }
            },
            None => PersistentCache { data: CacheFile::default() },
        }
    }

    /// What is to be saved.
    pub fn file(&self) -> (r: &CacheFile)
        ensures
            r.version == CACHE_VERSION,
            r.entries.deep_view() == self.entries(),
    {
        proof {
            use_type_invariant(self);
        }
        &self.data
    }

    /// Return the cached info for `path` if the file is unchanged (same mtime + size), with
    /// `is_ongoing` cleared.
    pub fn get(&self, path: &str, mtime: FileTime, size: u64) -> (r: Option<CodexSessionInfo>)
        ensures
            r.deep_view() == cached_info(self.entries(), path@, mtime, size),
    {
        match self.data.entries.get(path) {
            Some(entry) => {
                if entry.mtime_ns != mtime_nanos(mtime) || entry.size != size {
                    return None;
                }
                let mut info = entry.info.clone();
                info.is_ongoing = false;
                Some(info)
            },
            None => None,
        }
    }

    /// Return the last known info for `path` and how far the file had been scanned, whether or
    /// not it has changed since.
    pub fn get_stale(&self, path: &str) -> (r: Option<(CodexSessionInfo, ScanBookmark)>)
        ensures
            match r {
                Some((info, bookmark)) => resumable_info(self.entries(), path@) == Some(
                    (info.deep_view(), bookmark),
                ),
                None => resumable_info(self.entries(), path@) is None,
            },
    {
        match self.data.entries.get(path) {
            Some(entry) => match entry.bookmark {
                Some(bookmark) => Some((entry.info.clone(), bookmark)),
                None => None,
            },
            None => None,
        }
    }

    fn insert(&mut self, path: &str, entry: CachedEntry)
        ensures
            final(self).entries() == old(self).entries().insert(path@, entry.deep_view()),
    {
        proof {
            use_type_invariant(&*self);
        }
        let ghost before = self.data.entries@;
        let ghost ev = entry.deep_view();
        let mut entries: TextMap<CachedEntry> = TextMap::new();
        std::mem::swap(&mut entries, &mut self.data.entries);
        entries.insert(path, entry);
        assert(entries.deep_view() =~= before.map_values(|e: CachedEntry| e.deep_view()).insert(
            path@,
            ev,
        ));
        self.data.entries = entries;
    }

    /// Cache the info of a file; it replaces what was cached for that path.
    pub fn put(&mut self, path: &str, mtime: FileTime, size: u64, info: CodexSessionInfo)
        ensures
            final(self).entries() == old(self).entries().insert(
                path@,
                CachedView {
                    mtime_ns: time_in_nanos(mtime) as u128,
                    size,
                    bookmark: None,
                    info: info.deep_view(),
                },
            ),
    {
        self.insert(
            path,
            CachedEntry { mtime_ns: mtime_nanos(mtime), size, bookmark: None, info },
        );
    }

    /// Cache the info of a file together with how far the file was scanned.
    pub fn put_scanned(
        &mut self,
        path: &str,
        mtime: FileTime,
        size: u64,
        bookmark: ScanBookmark,
        info: CodexSessionInfo,
    )
        ensures
            final(self).entries() == old(self).entries().insert(
                path@,
                CachedView {
                    mtime_ns: time_in_nanos(mtime) as u128,
                    size,
                    bookmark: Some(bookmark),
                    info: info.deep_view(),
                },
            ),
    {
        self.insert(
            path,
            CachedEntry { mtime_ns: mtime_nanos(mtime), size, bookmark: Some(bookmark), info },
        );
    }
}

/// The directory that the cache file's location starts from.
#[derive(Debug)]
pub enum CacheBase {
    /// A directory by its path.
    Named(String),
    /// The platform's directory for caches.
    Platform,
}

/// Where the cache file is: the directory of the environment, unless that is not set or empty,
/// else a directory of its own below the platform's cache directory, or below the current one
/// where the platform has none. Returns the base and the names below it.
pub fn cache_path(env_dir: Option<String>, has_cache_dir: bool) -> (r: (CacheBase, Vec<String>))
    ensures
        ({
            let overridden = env_dir is Some && env_dir->0@.len() > 0;
            &&& match r.0 {
                CacheBase::Named(dir) => if overridden {
                    dir@ == env_dir->0@
                } else {
                    !has_cache_dir && dir@ == "."@
                },
                CacheBase::Platform => !overridden && has_cache_dir,
            }
            &&& r.1.deep_view() == if overridden {
                seq![CACHE_FILE_NAME@]
            } else {
                seq![CACHE_DIR_NAME@, CACHE_FILE_NAME@]
            }
        }),
{
    let mut names: Vec<String> = Vec::new();
    if let Some(dir) = env_dir {
        if !dir.as_str().is_empty() {
            names.push(CACHE_FILE_NAME.to_owned());
            assert(names.deep_view() =~= seq![CACHE_FILE_NAME@]);
            return (CacheBase::Named(dir), names);
        }
    }
    names.push(CACHE_DIR_NAME.to_owned());
    names.push(CACHE_FILE_NAME.to_owned());
    assert(names.deep_view() =~= seq![CACHE_DIR_NAME@, CACHE_FILE_NAME@]);
    if has_cache_dir {
        (CacheBase::Platform, names)
    } else {
        (CacheBase::Named(".".to_owned()), names)
    }
}

/// A cached session is served for the same time and size, not as ongoing, and for no other.
pub proof fn cached_sessions_are_served_while_unchanged(
    entries: Map<Seq<char>, CachedView>,
    path: Seq<char>,
    mtime: FileTime,
    size: u64,
    info: InfoView,
    bookmark: Option<ScanBookmark>,
    later: FileTime,
    later_size: u64,
)
    ensures
        ({
            let entry = CachedView { mtime_ns: time_in_nanos(mtime) as u128, size, bookmark, info };
            let after = entries.insert(path, entry);
            &&& cached_info(after, path, mtime, size) == Some(settled(info))
            &&& (time_in_nanos(later) != time_in_nanos(mtime) || later_size != size)
                ==> cached_info(after, path, later, later_size) is None
        }),
{
}

/// Caching a session leaves the other paths as they were.
pub proof fn caching_touches_one_path(
    entries: Map<Seq<char>, CachedView>,
    path: Seq<char>,
    entry: CachedView,
    other: Seq<char>,
    mtime: FileTime,
    size: u64,
)
    requires
        other != path,
    ensures
        cached_info(entries.insert(path, entry), other, mtime, size) == cached_info(
            entries,
            other,
            mtime,
            size,
        ),
        resumable_info(entries.insert(path, entry), other) == resumable_info(entries, other),
{
}

/// A session that is served from the cache is never ongoing.
pub proof fn cached_sessions_are_never_ongoing(
    entries: Map<Seq<char>, CachedView>,
    path: Seq<char>,
    mtime: FileTime,
    size: u64,
)
    ensures
        cached_info(entries, path, mtime, size) matches Some(info) ==> !info.is_ongoing,
{
}

/// Loading what was to be saved gives the same cache back.
pub proof fn saved_caches_load_back(cache: PersistentCache, file: CacheFile)
    requires
        file.version == CACHE_VERSION,
        file.entries.deep_view() == cache.entries(),
    ensures
        loaded(Some(file)) == cache.entries(),
{
}

/// A cache file of version 1 is taken over as it is; one of any other version, or none, leaves the
/// cache empty.
pub proof fn only_files_of_this_version_are_loaded(file: CacheFile, path: Seq<char>)
    ensures
        file.version == 1 ==> loaded(Some(file)) == file.entries.deep_view(),
        file.version != 1 ==> !loaded(Some(file)).contains_key(path),
        !loaded(None).contains_key(path),
{
}

/// What is cached of a file is served exactly where its time, in nanoseconds since 1970, and its
/// length are those that were cached.
pub proof fn times_and_lengths_decide(
    entries: Map<Seq<char>, CachedView>,
    path: Seq<char>,
    secs: u64,
    nanos: u32,
    size: u64,
)
    ensures
        cached_info(entries, path, FileTime::SinceEpoch { secs, nanos }, size) == if entries.contains_key(
            path,
        ) && entries[path].mtime_ns == secs * 1_000_000_000 + nanos && entries[path].size == size {
            Some(InfoView { is_ongoing: false, ..entries[path].info })
        } else {
            None
        },
        cached_info(entries, path, FileTime::BeforeEpoch { secs, nanos }, size)
            == if entries.contains_key(path) && entries[path].mtime_ns == 0 && entries[path].size
            == size {
            Some(InfoView { is_ongoing: false, ..entries[path].info })
        } else {
            None
        },
{
}

/// A scan can be resumed exactly where a session is cached together with how far it was scanned.
pub proof fn bookmarks_make_scans_resumable(
    entries: Map<Seq<char>, CachedView>,
    path: Seq<char>,
    info: InfoView,
    bookmark: ScanBookmark,
)
    ensures
        resumable_info(entries, path) == Some((info, bookmark)) <==> entries.contains_key(path)
            && entries[path].info == info && entries[path].bookmark == Some(bookmark),
{
}

} // verus!
