//! The persisted unit of data: a successful artifact or a classified
//! failure. Both arms are legitimate, storable outcomes.

use vstd::prelude::*;

verus! {

/// A successfully derived artifact: the hash of a video and its
/// statistics, both opaque to the cache.
pub struct CachedVideoData {
    pub hash: vid_dup_finder_lib::VideoHash,
    pub stats: vid_dup_finder_lib::VideoStats,
}

/// What the store holds for a path: the producer's outcome, success or
/// classified failure, stored verbatim.
pub struct CacheEntry(pub Result<CachedVideoData, vid_dup_finder_lib::HashCreationErrorKind>);

impl CachedVideoData {
    /// A copy equal to this artifact.
    pub fn duplicate(&self) -> (r: CachedVideoData)
        ensures
            r == *self,
    {
        CachedVideoData { hash: self.hash.clone(), stats: self.stats.clone() }
    }
}

impl CacheEntry {
    /// Wrap a producer outcome as a storable record.
    pub fn from(x: Result<(vid_dup_finder_lib::VideoHash, vid_dup_finder_lib::VideoStats), vid_dup_finder_lib::HashCreationErrorKind>) -> (r: CacheEntry)
        ensures
            x is Ok ==> (r.0 matches Ok(d) && d.hash == x->Ok_0.0 && d.stats == x->Ok_0.1),
            x is Err ==> (r.0 matches Err(e) && e == x->Err_0),
    {
        match x {
            Ok((hash, stats)) => CacheEntry(Ok(CachedVideoData { hash, stats })),
            Err(e) => CacheEntry(Err(e)),
        }
    }

    /// Whether this record holds a successful artifact.
    pub fn is_success(&self) -> (r: bool)
        ensures
            r == self.0 is Ok,
    {
        self.0.is_ok()
    }

    /// A copy equal to this record.
    pub fn duplicate(&self) -> (r: CacheEntry)
        ensures
            r == *self,
    {
        match &self.0 {
            Ok(d) => CacheEntry(Ok(d.duplicate())),
            Err(e) => CacheEntry(Err(e.clone())),
        }
    }
}

} // verus!
