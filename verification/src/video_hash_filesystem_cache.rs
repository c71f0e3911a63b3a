//! The staleness-aware cache of video hashes, keyed by filesystem path.
//!
//! The cache maps each path to the modification time it was last seen
//! with and the producer's outcome for it. Per path, `fetch_update`
//! decides whether the cached artifact is still valid, must be recomputed
//! or must be evicted; `update_using_fs` reconciles a freshly projected
//! file set against the cache contents. The decision rule itself is the
//! pure function `spec_decide`, so the staleness protocol is stated once
//! and proved of every operation that follows it.
//!
//! Persistence of the entry list is the host's duty: it reads the entries
//! out, writes them wherever it keeps them, and acknowledges with
//! `mark_saved`. The autosave counter tells it when a save is due.

use vstd::prelude::*;
use vstd::pervasive::unreached;
use crate::cache_entry::CacheEntry;
use crate::errors::{StoreErrorKind, VdfCacheError};
use crate::file_projection::FileProjection;
use crate::fs_access::probe_mtime;
use crate::fs_path::{unique_paths, vec_contains_path, FsPath};
use crate::video_artifacts::produce;

verus! {

/// What the store holds for one path: the modification time the file was
/// last seen with, and the producer's outcome at that time.
pub struct CacheSlot {
    pub mtime: u64,
    pub entry: CacheEntry,
}

/// What `fetch_update` must do for a path, given the cache contents and
/// what is on disk: evict a vanished file's entry, serve a fresh entry
/// from the cache, or invoke the producer and store its outcome.
#[derive(Debug, Clone, Copy, PartialEq, Eq)]
pub enum UpdateDecision {
    Evict,
    ServeCached,
    Refresh,
}

/// The staleness rule. A missing file is evicted; an entry recorded at
/// the file's current modification time is served as it stands; a missing
/// or stale entry is recomputed.
pub open spec fn spec_decide(
    m: Map<Seq<Seq<char>>, CacheSlot>,
    k: Seq<Seq<char>>,
    disk_mtime: Option<u64>,
) -> UpdateDecision {
    match disk_mtime {
        None => UpdateDecision::Evict,
        Some(t) => if m.contains_key(k) && m[k].mtime == t {
            UpdateDecision::ServeCached
        } else {
            UpdateDecision::Refresh
        },
    }
}

/// The record `e` and a `fetch_update` outcome agree: a success hands out
/// the stored hash, a failure hands out the stored cause.
pub open spec fn entry_outcome(
    e: CacheEntry,
    out: Result<vid_dup_finder_lib::VideoHash, vid_dup_finder_lib::HashCreationErrorKind>,
) -> bool {
    match e.0 {
        Ok(d) => out matches Ok(h) && h == d.hash,
        Err(er) => out matches Err(e2) && e2 == er,
    }
}

/// The saturating bump of the mutation counter.
pub open spec fn spec_bump(c: u32) -> u32 {
    if c < 0xffff_ffffu32 {
        (c + 1) as u32
    } else {
        c
    }
}

/// The contents of a list of dated records, as a map: each key carries
/// the last record listed for it.
pub open spec fn map_of_entry_list(s: Seq<(FsPath, u64, CacheEntry)>) -> Map<
    Seq<Seq<char>>,
    CacheSlot,
>
    decreases s.len(),
{
    if s.len() == 0 {
        Map::empty()
    } else {
        map_of_entry_list(s.drop_last()).insert(
            s.last().0@,
            CacheSlot { mtime: s.last().1, entry: s.last().2 },
        )
    }
}

/// A path `q` is due for an update: either it is cached with a successful
/// artifact and still inside the projection's scope, or the projection
/// discovered it.
pub open spec fn in_update_set(
    m: Map<Seq<Seq<char>>, CacheSlot>,
    proj: &FileProjection,
    q: Seq<Seq<char>>,
) -> bool {
    (m.contains_key(q) && m[q].entry.0 is Ok && proj.spec_contains_path(q))
        || proj.files().contains(q)
}

/// A disk-backed cache of video hashes, tracking the modification time of
/// each underlying file.
///
/// State is explicit: mutating operations take an exclusive reference,
/// and each contract relates the map of entries after the call to the
/// map before it. A host that wants to share one cache across threads
/// wraps it in a lock of its own; per-path decisions are independent, so
/// no ordering among them is promised or needed.
pub struct VideoHashFilesystemCache {
    pub entries: Vec<(FsPath, CacheSlot)>,
    pub save_threshold: u32,
    pub mutations: u32,
}

/// `k` is the key of some entry of `s`.
pub open spec fn entries_contain(s: Seq<(FsPath, CacheSlot)>, k: Seq<Seq<char>>) -> bool {
    exists|i: int| 0 <= i < s.len() && s[i].0@ == k
}

/// The index of the entry of `s` keyed by `k`.
pub open spec fn entry_index(s: Seq<(FsPath, CacheSlot)>, k: Seq<Seq<char>>) -> int {
    choose|i: int| 0 <= i < s.len() && s[i].0@ == k
}

impl View for VideoHashFilesystemCache {
    type V = Map<Seq<Seq<char>>, CacheSlot>;

    open spec fn view(&self) -> Map<Seq<Seq<char>>, CacheSlot> {
        Map::new(
            |k: Seq<Seq<char>>| entries_contain(self.entries@, k),
            |k: Seq<Seq<char>>| self.entries@[entry_index(self.entries@, k)].1,
        )
    }
}

impl VideoHashFilesystemCache {
    /// No two entries share a key.
    pub open spec fn wf(&self) -> bool {
        forall|i: int, j: int|
            0 <= i < j < self.entries@.len() ==> self.entries@[i].0@ != self.entries@[j].0@
    }

    /// An empty cache that asks for a save after every
    /// `cache_save_threshold` mutating operations.
    pub fn new(cache_save_threshold: u32) -> (r: Self)
        ensures
            r.wf(),
            r@ =~= Map::<Seq<Seq<char>>, CacheSlot>::empty(),
            r.save_threshold == cache_save_threshold,
            r.mutations == 0,
    {
        VideoHashFilesystemCache {
            entries: Vec::new(),
            save_threshold: cache_save_threshold,
            mutations: 0,
        }
    }

    /// The stored entry list, for the host to persist.
    pub fn entry_list(&self) -> (r: &Vec<(FsPath, CacheSlot)>)
        ensures
            *r == self.entries,
    {
        &self.entries
    }

    /// Whether enough mutations have accumulated that the host should
    /// persist the entries now.
    pub fn autosave_due(&self) -> (r: bool)
        ensures
            r == (self.mutations >= self.save_threshold),
    {
        self.mutations >= self.save_threshold
    }

    /// Acknowledge a completed save: the contents stand, the mutation
    /// counter restarts.
    pub fn mark_saved(&mut self)
        ensures
            final(self).entries == old(self).entries,
            final(self).save_threshold == old(self).save_threshold,
            final(self).mutations == 0,
    {
        self.mutations = 0;
    }

    /// The index of the entry keyed by `p`, if one exists.
    fn find_index(&self, p: &FsPath) -> (r: Option<usize>)
        requires
            self.wf(),
        ensures
            match r {
                Some(i) => i < self.entries@.len() && self.entries@[i as int].0@ == p@
                    && self@.contains_key(p@) && self@[p@] == self.entries@[i as int].1,
                None => !self@.contains_key(p@),
            },
    {
        let n: usize = self.entries.len();
        let mut i: usize = 0;
        while i < n
            invariant
                self.wf(),
                n == self.entries.len(),
                0 <= i <= n,
                forall|j: int| 0 <= j < i ==> self.entries@[j].0@ != p@,
            decreases n - i,
        {
            if self.entries[i].0.path_eq(p) {
                proof {
                    assert(entries_contain(self.entries@, p@));
                    let w: int = entry_index(self.entries@, p@);
                    assert(self.entries@[w].0@ == p@);
                    assert(w == i as int);
                }
                return Some(i);
            }
            i = i + 1;
        }
        assert(!entries_contain(self.entries@, p@));
        None
    }

    /// Remove the entry keyed by `p`, leaving the counters untouched.
    fn remove_key(&mut self, p: &FsPath) -> (removed: bool)
        requires
            old(self).wf(),
        ensures
            final(self).wf(),
            final(self)@ =~= old(self)@.remove(p@),
            final(self).save_threshold == old(self).save_threshold,
            final(self).mutations == old(self).mutations,
            removed == old(self)@.contains_key(p@),
    {
        match self.find_index(p) {
            None => {
                proof {
                    assert(self@ =~= old(self)@.remove(p@));
                }
                false
            }
            Some(i) => {
                let ghost s_old = self.entries@;
                self.entries.remove(i);
                proof {
                    let s_new = self.entries@;
                    assert(s_new =~= s_old.subrange(0, i as int) + s_old.subrange(
                        i as int + 1,
                        s_old.len() as int,
                    ));
                    assert forall|a: int, b: int|
                        0 <= a < b < s_new.len() implies s_new[a].0@ != s_new[b].0@ by {
                        let a0: int = if a < i as int { a } else { a + 1 };
                        let b0: int = if b < i as int { b } else { b + 1 };
                        assert(s_new[a] == s_old[a0]);
                        assert(s_new[b] == s_old[b0]);
                    }
                    assert forall|q: Seq<Seq<char>>|
                        #[trigger] entries_contain(s_new, q) implies (entries_contain(s_old, q)
                        && q != p@) by {
                        let w: int = choose|w: int| 0 <= w < s_new.len() && s_new[w].0@ == q;
                        let w0: int = if w < i as int { w } else { w + 1 };
                        assert(s_old[w0].0@ == q);
                        assert(w0 != i as int);
                    }
                    assert forall|q: Seq<Seq<char>>|
                        entries_contain(s_old, q) && q != p@ implies #[trigger] entries_contain(
                        s_new,
                        q,
                    ) && s_new[entry_index(s_new, q)].1 == s_old[entry_index(s_old, q)].1 by {
                        let w0: int = choose|w0: int| 0 <= w0 < s_old.len() && s_old[w0].0@ == q;
                        assert(w0 != i as int);
                        let w: int = if w0 < i as int { w0 } else { w0 - 1 };
                        assert(s_new[w].0@ == q);
                        let wi: int = entry_index(s_new, q);
                        assert(s_new[wi].0@ == q);
                        assert(wi == w);
                        let wj: int = entry_index(s_old, q);
                        assert(s_old[wj].0@ == q);
                        assert(wj == w0);
                    }
                    assert(self@ =~= old(self)@.remove(p@));
                }
                true
            }
        }
    }

    /// Insert or replace the entry for `p`, leaving the counters
    /// untouched.
    fn put_key(&mut self, p: &FsPath, slot: CacheSlot)
        requires
            old(self).wf(),
        ensures
            final(self).wf(),
            final(self)@ =~= old(self)@.insert(p@, slot),
            final(self).save_threshold == old(self).save_threshold,
            final(self).mutations == old(self).mutations,
    {
        self.remove_key(p);
        let ghost s_mid = self.entries@;
        let ghost m_mid = self@;
        proof {
            assert(!m_mid.contains_key(p@));
            assert(!entries_contain(s_mid, p@));
        }
        self.entries.push((p.clone(), slot));
        proof {
            let s_new = self.entries@;
            assert(s_new.len() == s_mid.len() + 1);
            assert(forall|a: int| 0 <= a < s_mid.len() ==> s_new[a] == s_mid[a]);
            assert(s_new[s_mid.len() as int].0@ == p@);
            assert(s_new[s_mid.len() as int].1 == slot);
            assert forall|a: int, b: int|
                0 <= a < b < s_new.len() implies s_new[a].0@ != s_new[b].0@ by {
                if b == s_mid.len() as int {
                    assert(s_new[a] == s_mid[a]);
                    assert(!entries_contain(s_mid, p@));
                }
            }
            assert forall|q: Seq<Seq<char>>|
                #[trigger] entries_contain(s_new, q) implies (q == p@ || entries_contain(
                s_mid,
                q,
            )) by {
                let w: int = choose|w: int| 0 <= w < s_new.len() && s_new[w].0@ == q;
                if w < s_mid.len() as int {
                    assert(s_mid[w].0@ == q);
                }
            }
            assert forall|q: Seq<Seq<char>>|
                entries_contain(s_mid, q) implies #[trigger] entries_contain(s_new, q) by {
                let w: int = choose|w: int| 0 <= w < s_mid.len() && s_mid[w].0@ == q;
                assert(s_new[w].0@ == q);
            }
            assert forall|q: Seq<Seq<char>>| entries_contain(s_new, q) implies s_new[entry_index(
                s_new,
                q,
            )].1 == old(self)@.insert(p@, slot)[q] by {
                let wi: int = entry_index(s_new, q);
                assert(s_new[wi].0@ == q);
                if q == p@ {
                    assert(wi == s_mid.len() as int);
                } else {
                    assert(wi < s_mid.len() as int);
                    assert(s_mid[wi].0@ == q);
                    let wj: int = entry_index(s_mid, q);
                    assert(s_mid[wj].0@ == q);
                    assert(wj == wi);
                    assert(m_mid[q] == s_mid[wj].1);
                    assert(m_mid[q] == old(self)@.remove(p@)[q]);
                }
            }
            assert(entries_contain(s_new, p@));
            assert forall|q: Seq<Seq<char>>|
                self@.contains_key(q) == old(self)@.insert(p@, slot).contains_key(q) by {
                assert(self@.contains_key(q) == entries_contain(s_new, q));
                assert(m_mid.contains_key(q) == entries_contain(s_mid, q));
                if q != p@ {
                    assert(old(self)@.insert(p@, slot).contains_key(q) == old(
                        self,
                    )@.contains_key(q));
                    assert(m_mid.contains_key(q) == old(self)@.remove(p@).contains_key(q));
                }
            }
            assert forall|q: Seq<Seq<char>>| #[trigger]
                self@.contains_key(q) implies self@[q] == old(self)@.insert(p@, slot)[q] by {
                assert(self@[q] == s_new[entry_index(s_new, q)].1);
            }
            assert(self@ =~= old(self)@.insert(p@, slot));
        }
    }

    /// Bump the mutation counter, saturating at its ceiling.
    fn count_mutation(&mut self)
        ensures
            final(self).entries == old(self).entries,
            final(self).save_threshold == old(self).save_threshold,
            final(self).mutations == spec_bump(old(self).mutations),
    {
        if self.mutations < 0xffff_ffffu32 {
            self.mutations = self.mutations + 1;
        }
    }

    /// Evict the entry for `src_path`, counting a mutation when one was
    /// there to remove.
    pub fn evict(&mut self, src_path: &FsPath)
        requires
            old(self).wf(),
        ensures
            final(self).wf(),
            final(self)@ =~= old(self)@.remove(src_path@),
            final(self).save_threshold == old(self).save_threshold,
            final(self).mutations == if old(self)@.contains_key(src_path@) {
                spec_bump(old(self).mutations)
            } else {
                old(self).mutations
            },
    {
        let removed: bool = self.remove_key(src_path);
        if removed {
            self.count_mutation();
        }
    }

    /// Store the producer's outcome for `src_path`, recorded at the
    /// modification time the file was seen with, and count a mutation.
    pub fn store_produced(&mut self, src_path: &FsPath, mtime: u64, entry: CacheEntry)
        requires
            old(self).wf(),
        ensures
            final(self).wf(),
            final(self)@ =~= old(self)@.insert(src_path@, CacheSlot { mtime, entry }),
            final(self).save_threshold == old(self).save_threshold,
            final(self).mutations == spec_bump(old(self).mutations),
    {
        self.put_key(src_path, CacheSlot { mtime, entry });
        self.count_mutation();
    }

    /// Apply the staleness rule to `src_path`, given the modification
    /// time found on disk (or that nothing was found).
    pub fn decide_update(&self, src_path: &FsPath, disk_mtime: Option<u64>) -> (r: UpdateDecision)
        requires
            self.wf(),
        ensures
            r == spec_decide(self@, src_path@, disk_mtime),
    {
        match disk_mtime {
            None => UpdateDecision::Evict,
            Some(t) => match self.find_index(src_path) {
                Some(i) => {
                    if self.entries[i].1.mtime == t {
                        UpdateDecision::ServeCached
                    } else {
                        UpdateDecision::Refresh
                    }
                }
                None => UpdateDecision::Refresh,
            },
        }
    }

    /// The stored record for `src_path`: the record itself when one is
    /// cached, the key-missing error otherwise.
    fn fetch_entry(&self, src_path: &FsPath) -> (r: Result<CacheEntry, VdfCacheError>)
        requires
            self.wf(),
        ensures
            self@.contains_key(src_path@) ==> (r matches Ok(e) && e == self@[src_path@].entry),
            !self@.contains_key(src_path@) ==> (r matches Err(e) && (e
                matches VdfCacheError::CacheErrror(k) && (k matches StoreErrorKind::KeyMissing(q)
                && q@ == src_path@))),
    {
        match self.find_index(src_path) {
            Some(i) => Ok(self.entries[i].1.entry.duplicate()),
            None => Err(
                VdfCacheError::CacheErrror(StoreErrorKind::KeyMissing(src_path.clone())),
            ),
        }
    }

    /// The cached hash for `src_path`. Reads nothing from the
    /// filesystem and creates nothing: a success-cached path yields its
    /// hash, a failure-cached path yields the recorded cause, and an
    /// uncached path is the key-missing error.
    pub fn fetch(&self, src_path: &FsPath) -> (r: Result<
        vid_dup_finder_lib::VideoHash,
        VdfCacheError,
    >)
        requires
            self.wf(),
        ensures
            (self@.contains_key(src_path@) && self@[src_path@].entry.0 is Ok) ==> (r matches Ok(h)
                && h == self@[src_path@].entry.0->Ok_0.hash),
            (self@.contains_key(src_path@) && self@[src_path@].entry.0 is Err) ==> (r
                matches Err(e) && (e matches VdfCacheError::CreateHashError(k) && k
                == self@[src_path@].entry.0->Err_0)),
            !self@.contains_key(src_path@) ==> (r matches Err(e) && (e
                matches VdfCacheError::CacheErrror(k) && (k matches StoreErrorKind::KeyMissing(q)
                && q@ == src_path@))),
    {
        match self.fetch_entry(src_path) {
            Ok(CacheEntry(Ok(d))) => Ok(d.hash),
            Ok(CacheEntry(Err(e))) => Err(VdfCacheError::CreateHashError(e)),
            Err(e) => Err(e),
        }
    }

    /// The cached statistics for `src_path`, under the same contract as
    /// `fetch`.
    pub fn fetch_stats(&self, src_path: &FsPath) -> (r: Result<
        vid_dup_finder_lib::VideoStats,
        VdfCacheError,
    >)
        requires
            self.wf(),
        ensures
            (self@.contains_key(src_path@) && self@[src_path@].entry.0 is Ok) ==> (r matches Ok(s)
                && s == self@[src_path@].entry.0->Ok_0.stats),
            (self@.contains_key(src_path@) && self@[src_path@].entry.0 is Err) ==> (r
                matches Err(e) && (e matches VdfCacheError::CreateHashError(k) && k
                == self@[src_path@].entry.0->Err_0)),
            !self@.contains_key(src_path@) ==> (r matches Err(e) && (e
                matches VdfCacheError::CacheErrror(k) && (k matches StoreErrorKind::KeyMissing(q)
                && q@ == src_path@))),
    {
        match self.fetch_entry(src_path) {
            Ok(CacheEntry(Ok(d))) => Ok(d.stats),
            Ok(CacheEntry(Err(e))) => Err(VdfCacheError::CreateHashError(e)),
            Err(e) => Err(e),
        }
    }

    /// The paths of all successfully cached hashes: exactly the keys
    /// whose record is a success, each once. Paths recorded as failures
    /// stay in the store but are not listed.
    pub fn all_cached_paths(&self) -> (r: Vec<FsPath>)
        requires
            self.wf(),
        ensures
            unique_paths(r.deep_view()),
            forall|q: Seq<Seq<char>>|
                r.deep_view().contains(q) <==> (self@.contains_key(q) && self@[q].entry.0 is Ok),
    {
        let n: usize = self.entries.len();
        let mut acc: Vec<FsPath> = Vec::new();
        let mut i: usize = 0;
        while i < n
            invariant
                self.wf(),
                n == self.entries.len(),
                0 <= i <= n,
                unique_paths(acc.deep_view()),
                forall|q: Seq<Seq<char>>|
                    acc.deep_view().contains(q) <==> (exists|j: int|
                        0 <= j < i && self.entries@[j].0@ == q && self.entries@[j].1.entry.0 is Ok),
            decreases n - i,
        {
            let ghost acc_old = acc.deep_view();
            if self.entries[i].1.entry.is_success() {
                proof {
                    if acc_old.contains(self.entries@[i as int].0@) {
                        let j: int = choose|j: int|
                            0 <= j < i && self.entries@[j].0@ == self.entries@[i as int].0@
                                && self.entries@[j].1.entry.0 is Ok;
                        assert(false);
                    }
                }
                acc.push(self.entries[i].0.clone());
                proof {
                    assert(acc.deep_view() =~= acc_old.push(self.entries@[i as int].0@));
                    assert(acc.deep_view()[acc_old.len() as int] == self.entries@[i as int].0@);
                    assert forall|a: int, b: int|
                        0 <= a < b < acc.deep_view().len() implies acc.deep_view()[a]
                        != acc.deep_view()[b] by {
                        if b == acc_old.len() as int {
                            assert(acc_old[a] == acc.deep_view()[a]);
                            if acc.deep_view()[a] == self.entries@[i as int].0@ {
                                assert(acc_old.contains(self.entries@[i as int].0@));
                            }
                        }
                    }
                    assert forall|q: Seq<Seq<char>>|
                        acc.deep_view().contains(q) implies (exists|j: int|
                        0 <= j < i + 1 && self.entries@[j].0@ == q && self.entries@[j].1.entry.0
                            is Ok) by {
                        let w: int = choose|w: int|
                            0 <= w < acc.deep_view().len() && acc.deep_view()[w] == q;
                        if w < acc_old.len() {
                            assert(acc_old[w] == q);
                            assert(acc_old.contains(q));
                        } else {
                            assert(q == self.entries@[i as int].0@);
                        }
                    }
                    assert forall|q: Seq<Seq<char>>|
                        (exists|j: int|
                            0 <= j < i + 1 && self.entries@[j].0@ == q && self.entries@[j].1.entry.0
                                is Ok) implies acc.deep_view().contains(q) by {
                        let j: int = choose|j: int|
                            0 <= j < i + 1 && self.entries@[j].0@ == q && self.entries@[j].1.entry.0
                                is Ok;
                        if j < i as int {
                            assert(acc_old.contains(q));
                            let w: int = choose|w: int|
                                0 <= w < acc_old.len() && acc_old[w] == q;
                            assert(acc.deep_view()[w] == q);
                        } else {
                            assert(acc.deep_view()[acc_old.len() as int] == q);
                        }
                    }
                }
            } else {
                proof {
                    assert forall|q: Seq<Seq<char>>|
                        acc.deep_view().contains(q) implies (exists|j: int|
                        0 <= j < i + 1 && self.entries@[j].0@ == q && self.entries@[j].1.entry.0
                            is Ok) by {}
                    assert forall|q: Seq<Seq<char>>|
                        (exists|j: int|
                            0 <= j < i + 1 && self.entries@[j].0@ == q && self.entries@[j].1.entry.0
                                is Ok) implies acc.deep_view().contains(q) by {
                        let j: int = choose|j: int|
                            0 <= j < i + 1 && self.entries@[j].0@ == q && self.entries@[j].1.entry.0
                                is Ok;
                        assert(j != i as int);
                    }
                }
            }
            i = i + 1;
        }
        proof {
            assert forall|q: Seq<Seq<char>>|
                acc.deep_view().contains(q) implies (self@.contains_key(q) && self@[q].entry.0
                is Ok) by {
                let j: int = choose|j: int|
                    0 <= j < n && self.entries@[j].0@ == q && self.entries@[j].1.entry.0 is Ok;
                assert(entries_contain(self.entries@, q));
                let wi: int = entry_index(self.entries@, q);
                assert(self.entries@[wi].0@ == q);
                assert(wi == j);
            }
            assert forall|q: Seq<Seq<char>>|
                (self@.contains_key(q) && self@[q].entry.0 is Ok) implies acc.deep_view().contains(
                q,
            ) by {
                let wi: int = entry_index(self.entries@, q);
                assert(self.entries@[wi].0@ == q);
            }
        }
        acc
    }

    /// Load a cache from a persisted entry list, as the host read it
    /// back: each key ends up carrying the last record listed for it,
    /// with no mutation counted yet.
    pub fn from_entries(cache_save_threshold: u32, list: &Vec<(FsPath, u64, CacheEntry)>) -> (r:
        Self)
        ensures
            r.wf(),
            r@ =~= map_of_entry_list(list@),
            r.save_threshold == cache_save_threshold,
            r.mutations == 0,
    {
        let mut c: VideoHashFilesystemCache = VideoHashFilesystemCache::new(cache_save_threshold);
        let n: usize = list.len();
        let mut i: usize = 0;
        while i < n
            invariant
                c.wf(),
                n == list.len(),
                0 <= i <= n,
                c.save_threshold == cache_save_threshold,
                c.mutations == 0,
                c@ =~= map_of_entry_list(list@.take(i as int)),
            decreases n - i,
        {
            let ghost m_prev = c@;
            let slot: CacheSlot = CacheSlot { mtime: list[i].1, entry: list[i].2.duplicate() };
            c.put_key(&list[i].0, slot);
            proof {
                let pre = list@.take(i as int);
                let cur = list@.take(i as int + 1);
                assert(cur.drop_last() =~= pre);
                assert(cur.last() == list@[i as int]);
                assert(map_of_entry_list(cur) == map_of_entry_list(pre).insert(
                    list@[i as int].0@,
                    CacheSlot { mtime: list@[i as int].1, entry: list@[i as int].2 },
                ));
                assert(c@ =~= map_of_entry_list(cur));
            }
            i = i + 1;
        }
        proof {
            assert(list@.take(n as int) =~= list@);
        }
        c
    }

    /// Carry out the staleness decision for `src_path`, given the
    /// modification time the probe of the filesystem found — or `None`,
    /// when it found nothing there. Exactly what `spec_decide` rules is
    /// done: under `Evict` the entry is removed and `None` returned;
    /// under `ServeCached` the cache stands untouched and the stored
    /// record is handed out — the producer does not run; under `Refresh`
    /// the producer's outcome is stored at the probed time and handed
    /// out, success or classified failure alike.
    pub fn apply_update(&mut self, src_path: &FsPath, disk_mtime: Option<u64>) -> (r: Option<
        Result<vid_dup_finder_lib::VideoHash, vid_dup_finder_lib::HashCreationErrorKind>,
    >)
        requires
            old(self).wf(),
        ensures
            final(self).wf(),
            final(self).save_threshold == old(self).save_threshold,
            spec_decide(old(self)@, src_path@, disk_mtime) == UpdateDecision::Evict ==> (r is None
                && final(self)@ =~= old(self)@.remove(src_path@) && final(self).mutations == if old(
                self,
            )@.contains_key(src_path@) {
                spec_bump(old(self).mutations)
            } else {
                old(self).mutations
            }),
            spec_decide(old(self)@, src_path@, disk_mtime) == UpdateDecision::ServeCached ==> (
            *final(self) == *old(self) && (r matches Some(out) && entry_outcome(
                old(self)@[src_path@].entry,
                out,
            ))),
            spec_decide(old(self)@, src_path@, disk_mtime) == UpdateDecision::Refresh ==> (
            disk_mtime matches Some(t) && final(self)@.contains_key(src_path@)
                && final(self)@[src_path@].mtime == t && final(self)@ =~= old(self)@.insert(
                src_path@,
                final(self)@[src_path@],
            ) && (r matches Some(out) && entry_outcome(final(self)@[src_path@].entry, out))
                && final(self).mutations == spec_bump(old(self).mutations)),
    {
        let decision: UpdateDecision = self.decide_update(src_path, disk_mtime);
        match decision {
            UpdateDecision::Evict => {
                self.evict(src_path);
                None
            }
            UpdateDecision::ServeCached => {
                match self.fetch_entry(src_path) {
                    Ok(ent) => match ent.0 {
                        Ok(d) => Some(Ok(d.hash)),
                        Err(e) => Some(Err(e)),
                    },
                    Err(_) => unreached(),
                }
            }
            UpdateDecision::Refresh => {
                match disk_mtime {
                    Some(t) => {
                        let produced: Result<
                            (vid_dup_finder_lib::VideoHash, vid_dup_finder_lib::VideoStats),
                            vid_dup_finder_lib::HashCreationErrorKind,
                        > = produce(src_path);
                        let entry: CacheEntry = CacheEntry::from(produced);
                        let out: Result<
                            vid_dup_finder_lib::VideoHash,
                            vid_dup_finder_lib::HashCreationErrorKind,
                        > = match &entry.0 {
                            Ok(d) => Ok(d.hash.clone()),
                            Err(e) => Err(e.clone()),
                        };
                        self.store_produced(src_path, t, entry);
                        proof {
                            assert(self@[src_path@].entry == entry);
                            assert(self@ =~= old(self)@.insert(src_path@, self@[src_path@]));
                        }
                        Some(out)
                    }
                    None => unreached(),
                }
            }
        }
    }

    /// The staleness-aware get-or-create-or-evict step for one path.
    /// Reads the file's modification time once and hands the probed
    /// value to `apply_update`, whose contract binds what is done for
    /// each staleness decision. A failure to read the path's metadata is
    /// the only error, and it leaves the cache unchanged. Entries of
    /// other paths stand untouched in every case.
    pub fn fetch_update(&mut self, src_path: &FsPath) -> (r: Result<
        Option<Result<vid_dup_finder_lib::VideoHash, vid_dup_finder_lib::HashCreationErrorKind>>,
        VdfCacheError,
    >)
        requires
            old(self).wf(),
        ensures
            final(self).wf(),
            final(self).save_threshold == old(self).save_threshold,
            final(self)@.remove(src_path@) =~= old(self)@.remove(src_path@),
            r matches Err(e) ==> (*final(self) == *old(self) && (e
                matches VdfCacheError::CacheErrror(k) && (k matches StoreErrorKind::ItemIo {
                path,
                detail,
            } && path@ == src_path@))),
            r matches Ok(o) && o is None ==> (final(self)@ =~= old(self)@.remove(src_path@)
                && final(self).mutations == if old(self)@.contains_key(src_path@) {
                spec_bump(old(self).mutations)
            } else {
                old(self).mutations
            }),
            r matches Ok(Some(out)) ==> (final(self)@.contains_key(src_path@) && entry_outcome(
                final(self)@[src_path@].entry,
                out,
            ) && (*final(self) == *old(self) || final(self).mutations == spec_bump(
                old(self).mutations,
            ))),
    {
        match probe_mtime(src_path) {
            Err(detail) => {
                Err(
                    VdfCacheError::CacheErrror(
                        StoreErrorKind::ItemIo { path: src_path.clone(), detail },
                    ),
                )
            }
            Ok(disk) => {
                let out: Option<
                    Result<vid_dup_finder_lib::VideoHash, vid_dup_finder_lib::HashCreationErrorKind>,
                > = self.apply_update(src_path, disk);
                proof {
                    assert(self@.remove(src_path@) =~= old(self)@.remove(src_path@));
                }
                Ok(out)
            }
        }
    }

    /// The set of paths a bulk update must visit, each exactly once:
    /// every success-cached path still inside the projection's scope,
    /// together with every projected file.
    pub fn compute_update_set(&self, file_projection: &FileProjection) -> (r: Vec<FsPath>)
        requires
            self.wf(),
            file_projection.is_projected(),
        ensures
            unique_paths(r.deep_view()),
            forall|q: Seq<Seq<char>>|
                r.deep_view().contains(q) <==> in_update_set(self@, file_projection, q),
    {
        let cached: Vec<FsPath> = self.all_cached_paths();
        let mut update: Vec<FsPath> = Vec::new();
        let nc: usize = cached.len();
        let mut i: usize = 0;
        while i < nc
            invariant
                nc == cached.len(),
                0 <= i <= nc,
                self.wf(),
                unique_paths(update.deep_view()),
                forall|q: Seq<Seq<char>>|
                    cached.deep_view().contains(q) <==> (self@.contains_key(q)
                        && self@[q].entry.0 is Ok),
                unique_paths(cached.deep_view()),
                forall|q: Seq<Seq<char>>|
                    update.deep_view().contains(q) <==> (exists|j: int|
                        0 <= j < i && cached.deep_view()[j] == q
                            && file_projection.spec_contains_path(q)),
            decreases nc - i,
        {
            let ghost u_old = update.deep_view();
            if file_projection.contains(&cached[i]) {
                update.push(cached[i].clone());
                proof {
                    assert(cached.deep_view()[i as int] == cached@[i as int]@);
                    assert(update.deep_view() =~= u_old.push(cached@[i as int]@));
                    assert(update.deep_view()[u_old.len() as int] == cached@[i as int]@);
                    assert forall|q: Seq<Seq<char>>|
                        update.deep_view().contains(q) implies (exists|j: int|
                        0 <= j < i + 1 && cached.deep_view()[j] == q
                            && file_projection.spec_contains_path(q)) by {
                        let w: int = choose|w: int|
                            0 <= w < update.deep_view().len() && update.deep_view()[w] == q;
                        if w < u_old.len() {
                            assert(u_old[w] == q);
                            assert(u_old.contains(q));
                        } else {
                            assert(q == cached.deep_view()[i as int]);
                        }
                    }
                    assert forall|q: Seq<Seq<char>>|
                        (exists|j: int|
                            0 <= j < i + 1 && cached.deep_view()[j] == q
                                && file_projection.spec_contains_path(q)) implies
                        update.deep_view().contains(q) by {
                        let j: int = choose|j: int|
                            0 <= j < i + 1 && cached.deep_view()[j] == q
                                && file_projection.spec_contains_path(q);
                        if j < i as int {
                            assert(u_old.contains(q));
                            let w: int = choose|w: int| 0 <= w < u_old.len() && u_old[w] == q;
                            assert(update.deep_view()[w] == q);
                        } else {
                            assert(update.deep_view()[u_old.len() as int] == q);
                        }
                    }
                    assert forall|a: int, b: int|
                        0 <= a < b < update.deep_view().len() implies update.deep_view()[a]
                        != update.deep_view()[b] by {
                        if b == u_old.len() as int {
                            if update.deep_view()[a] == cached.deep_view()[i as int] {
                                assert(u_old[a] == update.deep_view()[a]);
                                assert(u_old.contains(cached.deep_view()[i as int]));
                                let j: int = choose|j: int|
                                    0 <= j < i && cached.deep_view()[j] == cached.deep_view()[
                                        i as int
                                    ] && file_projection.spec_contains_path(
                                        cached.deep_view()[j],
                                    );
                                assert(false);
                            }
                        }
                    }
                }
            } else {
                proof {
                    assert(cached.deep_view()[i as int] == cached@[i as int]@);
                    assert forall|q: Seq<Seq<char>>|
                        (exists|j: int|
                            0 <= j < i + 1 && cached.deep_view()[j] == q
                                && file_projection.spec_contains_path(q)) implies
                        update.deep_view().contains(q) by {
                        let j: int = choose|j: int|
                            0 <= j < i + 1 && cached.deep_view()[j] == q
                                && file_projection.spec_contains_path(q);
                        assert(j != i as int);
                    }
                }
            }
            i = i + 1;
        }
        let ghost first_part = |q: Seq<Seq<char>>|
            self@.contains_key(q) && self@[q].entry.0 is Ok
                && file_projection.spec_contains_path(q);
        proof {
            assert forall|q: Seq<Seq<char>>|
                update.deep_view().contains(q) == first_part(q) by {
                if update.deep_view().contains(q) {
                    let j: int = choose|j: int|
                        0 <= j < nc && cached.deep_view()[j] == q
                            && file_projection.spec_contains_path(q);
                    assert(cached.deep_view().contains(q));
                }
                if first_part(q) {
                    assert(cached.deep_view().contains(q));
                    let j: int = choose|j: int|
                        0 <= j < cached.deep_view().len() && cached.deep_view()[j] == q;
                }
            }
        }
        let projected: &Vec<FsPath> = match file_projection.projected_files() {
            Ok(v) => v,
            Err(_) => unreached(),
        };
        let np: usize = projected.len();
        let mut j: usize = 0;
        while j < np
            invariant
                np == projected.len(),
                0 <= j <= np,
                *projected == file_projection.projected_files,
                unique_paths(update.deep_view()),
                forall|q: Seq<Seq<char>>|
                    update.deep_view().contains(q) <==> (first_part(q) || exists|j2: int|
                        0 <= j2 < j && file_projection.files()[j2] == q),
            decreases np - j,
        {
            let ghost u_old = update.deep_view();
            if !vec_contains_path(&update, &projected[j]) {
                update.push(projected[j].clone());
                proof {
                    assert(file_projection.files()[j as int] == projected@[j as int]@);
                    assert(update.deep_view() =~= u_old.push(projected@[j as int]@));
                    assert(update.deep_view()[u_old.len() as int] == projected@[j as int]@);
                    assert forall|q: Seq<Seq<char>>|
                        update.deep_view().contains(q) implies (first_part(q) || exists|j2: int|
                        0 <= j2 < j + 1 && file_projection.files()[j2] == q) by {
                        let w: int = choose|w: int|
                            0 <= w < update.deep_view().len() && update.deep_view()[w] == q;
                        if w < u_old.len() {
                            assert(u_old[w] == q);
                            assert(u_old.contains(q));
                        } else {
                            assert(q == file_projection.files()[j as int]);
                        }
                    }
                    assert forall|q: Seq<Seq<char>>|
                        (first_part(q) || exists|j2: int|
                            0 <= j2 < j + 1 && file_projection.files()[j2] == q) implies
                        update.deep_view().contains(q) by {
                        if u_old.contains(q) {
                            let w: int = choose|w: int| 0 <= w < u_old.len() && u_old[w] == q;
                            assert(update.deep_view()[w] == q);
                        } else {
                            assert(q == file_projection.files()[j as int]);
                            assert(update.deep_view()[u_old.len() as int] == q);
                        }
                    }
                    assert forall|a: int, b: int|
                        0 <= a < b < update.deep_view().len() implies update.deep_view()[a]
                        != update.deep_view()[b] by {
                        if b == u_old.len() as int {
                            assert(u_old[a] == update.deep_view()[a]);
                            assert(!u_old.contains(projected@[j as int]@));
                        }
                    }
                }
            } else {
                proof {
                    assert(file_projection.files()[j as int] == projected@[j as int]@);
                }
            }
            j = j + 1;
        }
        update
    }

    /// Reconcile the cache against a projected file set: every
    /// still-in-scope cached path and every discovered path goes through
    /// `fetch_update`, so vanished files are evicted, new or changed
    /// files are recomputed, and untouched files are served from the
    /// cache. Per-path failures — classified producer failures and
    /// per-path store errors alike — are collected into the returned
    /// list, never aborting the rest. Paths outside the update set keep
    /// their entries untouched.
    pub fn update_using_fs(&mut self, file_projection: &FileProjection) -> (r: Result<
        Vec<VdfCacheError>,
        VdfCacheError,
    >)
        requires
            old(self).wf(),
            file_projection.is_projected(),
        ensures
            final(self).wf(),
            final(self).save_threshold == old(self).save_threshold,
            r is Ok,
            r matches Ok(es) ==> forall|i: int|
                0 <= i < es@.len() ==> (es@[i] is CreateHashError || (es@[i]
                    matches VdfCacheError::CacheErrror(k) && k matches StoreErrorKind::ItemIo {
                    ..
                })),
            r matches Ok(es) ==> forall|i: int|
                0 <= i < es@.len() && es@[i] is CreateHashError ==> (exists|q: Seq<Seq<char>>|
                    #[trigger] final(self)@.contains_key(q) && in_update_set(
                        old(self)@,
                        file_projection,
                        q,
                    ) && final(self)@[q].entry.0 is Err && VdfCacheError::CreateHashError(
                        final(self)@[q].entry.0->Err_0,
                    ) == es@[i]),
            forall|q: Seq<Seq<char>>|
                !in_update_set(old(self)@, file_projection, q) ==> (final(self)@.contains_key(q)
                    == old(self)@.contains_key(q) && (final(self)@.contains_key(q)
                    ==> final(self)@[q] == old(self)@[q])),
    {
        let update: Vec<FsPath> = self.compute_update_set(file_projection);
        proof {
            assert forall|k: int| 0 <= k < update.deep_view().len() implies in_update_set(
                self@,
                file_projection,
                update.deep_view()[k],
            ) by {
                assert(update.deep_view().contains(update.deep_view()[k]));
            }
        }
        let mut errs: Vec<VdfCacheError> = Vec::new();
        let nu: usize = update.len();
        let mut u: usize = 0;
        while u < nu
            invariant
                nu == update.len(),
                0 <= u <= nu,
                self.wf(),
                self.save_threshold == old(self).save_threshold,
                unique_paths(update.deep_view()),
                forall|i: int|
                    0 <= i < errs@.len() ==> (errs@[i] is CreateHashError || (errs@[i]
                        matches VdfCacheError::CacheErrror(k) && k
                        matches StoreErrorKind::ItemIo { .. })),
                forall|i: int|
                    0 <= i < errs@.len() && errs@[i] is CreateHashError ==> (exists|j: int|
                        0 <= j < u && #[trigger] self@.contains_key(update.deep_view()[j])
                            && self@[update.deep_view()[j]].entry.0 is Err
                            && VdfCacheError::CreateHashError(
                            self@[update.deep_view()[j]].entry.0->Err_0,
                        ) == errs@[i]),
                forall|k: int|
                    0 <= k < update.deep_view().len() ==> in_update_set(
                        old(self)@,
                        file_projection,
                        update.deep_view()[k],
                    ),
                forall|q: Seq<Seq<char>>|
                    !in_update_set(old(self)@, file_projection, q) ==> (self@.contains_key(q)
                        == old(self)@.contains_key(q) && (self@.contains_key(q) ==> self@[q] == old(
                        self,
                    )@[q])),
            decreases nu - u,
        {
            let ghost m_prev = self@;
            let step: Result<
                Option<
                    Result<vid_dup_finder_lib::VideoHash, vid_dup_finder_lib::HashCreationErrorKind>,
                >,
                VdfCacheError,
            > = self.fetch_update(&update[u]);
            proof {
                let k = update@[u as int]@;
                assert(update.deep_view()[u as int] == k);
                assert(in_update_set(old(self)@, file_projection, k));
                assert forall|q: Seq<Seq<char>>|
                    !in_update_set(old(self)@, file_projection, q) implies (self@.contains_key(q)
                    == old(self)@.contains_key(q) && (self@.contains_key(q) ==> self@[q] == old(
                    self,
                )@[q])) by {
                    assert(q != k);
                    assert(self@.remove(k).contains_key(q) == m_prev.remove(k).contains_key(q));
                    assert(self@.contains_key(q) == m_prev.contains_key(q));
                    if self@.contains_key(q) {
                        assert(self@.remove(k)[q] == m_prev.remove(k)[q]);
                        assert(self@[q] == m_prev[q]);
                    }
                }
                assert forall|i: int|
                    0 <= i < errs@.len() && errs@[i] is CreateHashError implies (exists|j: int|
                    0 <= j < u && #[trigger] self@.contains_key(update.deep_view()[j])
                        && self@[update.deep_view()[j]].entry.0 is Err
                        && VdfCacheError::CreateHashError(
                        self@[update.deep_view()[j]].entry.0->Err_0,
                    ) == errs@[i]) by {
                    let j: int = choose|j: int|
                        0 <= j < u && #[trigger] m_prev.contains_key(update.deep_view()[j])
                            && m_prev[update.deep_view()[j]].entry.0 is Err
                            && VdfCacheError::CreateHashError(
                            m_prev[update.deep_view()[j]].entry.0->Err_0,
                        ) == errs@[i];
                    let kj = update.deep_view()[j];
                    assert(kj != k);
                    assert(self@.remove(k).contains_key(kj) == m_prev.remove(k).contains_key(kj));
                    assert(self@.contains_key(kj));
                    assert(self@.remove(k)[kj] == m_prev.remove(k)[kj]);
                    assert(self@[kj] == m_prev[kj]);
                }
            }
            match step {
                Ok(Some(Err(e))) => {
                    proof {
                        let k = update@[u as int]@;
                        assert(update.deep_view()[u as int] == k);
                        assert(self@.contains_key(k));
                        assert(self@[k].entry.0 is Err);
                        assert(self@[k].entry.0->Err_0 == e);
                    }
                    errs.push(VdfCacheError::CreateHashError(e));
                }
                Err(e) => errs.push(e),
                _ => {}
            }
            u = u + 1;
        }
        proof {
            assert forall|i: int|
                0 <= i < errs@.len() && errs@[i] is CreateHashError implies (exists|
                q: Seq<Seq<char>>,
            |
                #[trigger] self@.contains_key(q) && in_update_set(old(self)@, file_projection, q)
                    && self@[q].entry.0 is Err && VdfCacheError::CreateHashError(
                    self@[q].entry.0->Err_0,
                ) == errs@[i]) by {
                let j: int = choose|j: int|
                    0 <= j < u && #[trigger] self@.contains_key(update.deep_view()[j])
                        && self@[update.deep_view()[j]].entry.0 is Err
                        && VdfCacheError::CreateHashError(
                        self@[update.deep_view()[j]].entry.0->Err_0,
                    ) == errs@[i];
                assert(in_update_set(old(self)@, file_projection, update.deep_view()[j]));
            }
        }
        Ok(errs)
    }
}

/// The heart of the cache's economy: a record stored for a path at a
/// given modification time is served from the cache while the file's
/// time is unchanged — the staleness rule decides `ServeCached` for it,
/// and `fetch_update` invokes the producer only under a `Refresh`
/// decision. So a path whose file stays untouched between two
/// `fetch_update` calls has the producer run at most once across them.
pub proof fn lemma_stored_entry_is_served(
    m: Map<Seq<Seq<char>>, CacheSlot>,
    k: Seq<Seq<char>>,
    t: u64,
    e: CacheEntry,
)
    ensures
        spec_decide(m.insert(k, CacheSlot { mtime: t, entry: e }), k, Some(t))
            == UpdateDecision::ServeCached,
{
}

/// A vanished file is always evicted: the staleness rule decides `Evict`
/// whenever nothing is found on disk, whatever the cache holds.
pub proof fn lemma_vanished_file_is_evicted(m: Map<Seq<Seq<char>>, CacheSlot>, k: Seq<Seq<char>>)
    ensures
        spec_decide(m, k, None) == UpdateDecision::Evict,
{
}

} // verus!
