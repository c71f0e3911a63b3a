//! The error taxonomy of the cache.

use vstd::prelude::*;
use crate::fs_path::FsPath;

verus! {

/// Failures of the store's bookkeeping, fatal to the single operation that
/// met them.
#[derive(Debug)]
pub enum StoreErrorKind {
    /// The requested key has no entry in the store.
    KeyMissing(FsPath),
    /// An I/O failure while reading a path's metadata from the filesystem,
    /// with a diagnostic.
    ItemIo { path: FsPath, detail: String },
}

/// Errors occurring while fetching, inserting or removing a cached item.
#[derive(Debug)]
pub enum VdfCacheError {
    /// An error occurred when creating a video hash; it is also a storable
    /// outcome (negative caching).
    CreateHashError(vid_dup_finder_lib::HashCreationErrorKind),
    /// A caching error occurred.
    CacheErrror(StoreErrorKind),
}

} // verus!
